use minutecat::error::Error;
use minutecat::logfile::Logfile;
use minutecat::logset::LogSet;
use minutecat::source::{
    DataSourceTypes, FileDataSource, HttpDataSource, InMemoryDataSource,
};
use minutecat::task::{ClockTimeSource, InMemoryTimeSource, Task, TimeSourceTypes};
use minutecat::trigger::{RegexTrigger, TriggerType, TriggerTypes};

fn sample_set() -> LogSet {
    let mut ls = LogSet::new();

    let mut alpha = Logfile::new(
        "alpha",
        DataSourceTypes::File(FileDataSource::new("/var/log/alpha.log", 7)),
        Task::new(
            true,
            250,
            TimeSourceTypes::InMemory(InMemoryTimeSource::new(vec![5, 4, 3])),
        ),
    );
    alpha.push(TriggerTypes::Regex(RegexTrigger::new(
        "warn",
        "on warning",
        TriggerType::Warning,
        "warn.*ing",
        true,
    )));
    alpha.extra.put("last", "slice\nwith\\escapes");
    ls.push(alpha);

    let beta = Logfile::new(
        "beta\nnewline",
        DataSourceTypes::Http(HttpDataSource::new("http://localhost/log")),
        Task::new(false, 10, TimeSourceTypes::Clock(ClockTimeSource)),
    );
    ls.push(beta);

    let gamma = Logfile::new(
        "gamma",
        DataSourceTypes::InMemory(InMemoryDataSource::new(vec!["a\nb".into(), "c".into()])),
        Task::new(
            true,
            1,
            TimeSourceTypes::InMemory(InMemoryTimeSource::new(vec![])),
        ),
    );
    ls.push(gamma);
    ls
}

#[test]
fn logset_round_trips_through_the_document() {
    let ls = sample_set();
    let doc = ls.serialize().unwrap();
    let back = LogSet::deserialize(doc.as_str()).unwrap();

    assert_eq!(back.len(), 3);

    let a = &back.logs[0];
    assert_eq!(a.name, "alpha");
    match &a.source {
        DataSourceTypes::File(f) => {
            assert_eq!(f.path, "/var/log/alpha.log");
            assert_eq!(f.line_limit, 7);
        }
        _ => panic!("wrong source kind"),
    }
    assert!(a.task.repeat);
    assert!(!a.task.done);
    assert_eq!(a.task.delay, 250);
    assert_eq!(a.task.start, 3);
    match &a.task.time_src {
        TimeSourceTypes::InMemory(m) => assert_eq!(m.times, vec![5, 4]),
        _ => panic!("wrong time source"),
    }
    assert_eq!(a.triggers.len(), 1);
    let t = &a.triggers[0];
    assert_eq!(t.name(), "warn");
    assert_eq!(t.description(), "on warning");
    assert_eq!(t.get_type(), TriggerType::Warning);
    assert_eq!(a.extra.get("last").unwrap(), "slice\nwith\\escapes");

    let b = &back.logs[1];
    assert_eq!(b.name, "beta\nnewline");
    match &b.source {
        DataSourceTypes::Http(h) => assert_eq!(h.url, "http://localhost/log"),
        _ => panic!("wrong source kind"),
    }
    assert!(!b.task.repeat);
    assert!(matches!(b.task.time_src, TimeSourceTypes::Clock(_)));

    let g = &back.logs[2];
    match &g.source {
        DataSourceTypes::InMemory(m) => assert_eq!(m.data, vec!["a\nb", "c"]),
        _ => panic!("wrong source kind"),
    }
}

#[test]
fn saved_document_is_stable_across_a_second_round_trip() {
    let ls = sample_set();
    let doc = ls.serialize().unwrap();
    let back = LogSet::deserialize(doc.as_str()).unwrap();
    let doc2 = back.serialize().unwrap();
    assert_eq!(doc, doc2);
}

#[test]
fn empty_set_round_trips() {
    let ls = LogSet::new();
    let doc = ls.serialize().unwrap();
    let back = LogSet::deserialize(doc.as_str()).unwrap();
    assert_eq!(back.len(), 0);
}

#[test]
fn corrupt_documents_are_rejected() {
    assert!(matches!(
        LogSet::deserialize("garbage"),
        Err(Error::DeserializeError)
    ));
    // a count without the records it promises
    assert!(matches!(
        LogSet::deserialize("2\n"),
        Err(Error::DeserializeError)
    ));
    // trailing bytes after a complete document
    assert!(matches!(
        LogSet::deserialize("0\nx"),
        Err(Error::DeserializeError)
    ));
}
