use minutecat::error::Error;
use minutecat::task::{InMemoryTimeSource, Task, TimeSourceTypes};

#[test]
fn it_should_not_trigger() {
    let mut t = Task::new(
        true,
        10,
        TimeSourceTypes::InMemory(InMemoryTimeSource::new(vec![101, 101, 100])),
    );

    assert!(!t.done);
    assert_eq!(t.start, 100);
    assert!(!t.is_due());
    assert!(!t.done);
    assert_eq!(t.start, 100);
}

#[test]
fn it_should_trigger_and_repeat() {
    let mut t = Task::new(
        true,
        10,
        TimeSourceTypes::InMemory(InMemoryTimeSource::new(vec![111, 111, 100])),
    );

    assert!(!t.done);
    assert_eq!(t.start, 100);
    assert!(t.is_due());
    assert!(!t.done);
    assert_eq!(t.start, 111);
}

#[test]
fn it_should_trigger_and_not_repeat() {
    let mut t = Task::new(
        false,
        10,
        TimeSourceTypes::InMemory(InMemoryTimeSource::new(vec![122, 111, 111, 100])),
    );

    assert!(!t.done);
    assert_eq!(t.start, 100);
    assert!(t.is_due());
    assert!(t.done);
    assert_eq!(t.start, 111);
    assert!(!t.is_due());
}

#[test]
fn it_should_parse_time_str() {
    let ms = Task::scan("1h20m10s5").unwrap();
    assert_eq!(ms, (1 * 3600000) + (20 * 60000) + (10 * 1000) + 5);
}

#[test]
fn it_should_not_parse_time_str_bad_operator() {
    assert_eq!(Task::scan("1h20m10@5").unwrap_or(0), 0);
}

#[test]
fn it_should_revert_time_str() {
    let ms = Task::from_str(
        false,
        "1h20m10s5",
        TimeSourceTypes::InMemory(InMemoryTimeSource::new(vec![])),
    )
    .unwrap();
    assert_eq!(ms.get_time_str(), "1h20m10s5ms".to_string());
}

#[test]
fn scan_reports_the_exact_error_kind() {
    assert_eq!(
        Task::scan("1h20m10@5"),
        Err(Error::TimeStringUnknownOperator)
    );
    assert_eq!(Task::scan("@5"), Err(Error::ParseIntError));
    assert_eq!(Task::scan("5x"), Err(Error::TimeStringUnknownOperator));
    assert_eq!(Task::scan("340282366920938463463374607431768211456"), Err(Error::ParseIntError));
}

#[test]
fn scan_accepts_units_and_bare_numbers() {
    assert_eq!(Task::scan("90ms").unwrap(), 90);
    assert_eq!(Task::scan("2s").unwrap(), 2000);
    assert_eq!(Task::scan("3m").unwrap(), 180000);
    assert_eq!(Task::scan("1h").unwrap(), 3600000);
    assert_eq!(Task::scan("250").unwrap(), 250);
    assert_eq!(Task::scan("").unwrap(), 0);
}

#[test]
fn time_str_shows_all_four_components() {
    let t = Task::new(
        true,
        0,
        TimeSourceTypes::InMemory(InMemoryTimeSource::new(vec![0])),
    );
    assert_eq!(t.get_time_str(), "0h0m0s0ms".to_string());
}

#[test]
fn exhausted_memory_time_source_yields_zero() {
    let mut src = InMemoryTimeSource::new(vec![]);
    assert_eq!(src.get_time_ms(), 0);
}

#[test]
fn next_time_is_start_plus_delay() {
    let t = Task::new(
        true,
        10,
        TimeSourceTypes::InMemory(InMemoryTimeSource::new(vec![100])),
    );
    assert_eq!(t.next_time(), 110);
}
