use minutecat::error::Error;
use minutecat::logfile::{Event, EventHandler, Logfile};
use minutecat::logset::LogSet;
use minutecat::source::{DataSourceTypes, InMemoryDataSource};
use minutecat::task::{InMemoryTimeSource, Task, TimeSourceTypes};
use minutecat::trigger::{RegexTrigger, TriggerType, TriggerTypes};

#[derive(Default)]
struct Recorder {
    seen: Vec<(bool, Option<Error>, String)>,
}

impl EventHandler for Recorder {
    fn on_event(&mut self, event: &Event) {
        self.seen
            .push((event.did_trigger, event.error, event.name.clone()));
    }
}

fn due_task() -> Task {
    // start 0, first check reads 20: due; the new start reads 0 again
    Task::new(
        true,
        10,
        TimeSourceTypes::InMemory(InMemoryTimeSource::new(vec![20, 0])),
    )
}

#[test]
fn batch_update_isolates_a_failing_source() {
    let mut ls = LogSet::new();

    // an exhausted source: loading it fails
    let broken = Logfile::new(
        "broken",
        DataSourceTypes::InMemory(InMemoryDataSource::new(vec![])),
        due_task(),
    );
    ls.push(broken);

    let mut healthy = Logfile::new(
        "healthy",
        DataSourceTypes::InMemory(InMemoryDataSource::new(vec!["all is success".into()])),
        due_task(),
    );
    healthy.push(TriggerTypes::Regex(RegexTrigger::new(
        "ok",
        "succeeded",
        TriggerType::Success,
        "success",
        false,
    )));
    ls.push(healthy);

    let mut handlers = vec![vec![Recorder::default()], vec![Recorder::default()]];
    let r = ls.update(&mut handlers);
    assert_eq!(r, Ok(true));
    assert_eq!(ls.len(), 2);

    // the broken source surfaced its failure as an event, not an abort
    let broken_seen = &handlers[0][0].seen;
    assert_eq!(broken_seen.len(), 1);
    assert_eq!(broken_seen[0].0, false);
    assert_eq!(broken_seen[0].1, Some(Error::InMemoryDataError));
    assert_eq!(broken_seen[0].2, "broken");

    // the healthy source was still updated in the same batch
    let healthy_seen = &handlers[1][0].seen;
    assert_eq!(healthy_seen.len(), 1);
    assert_eq!(healthy_seen[0].0, true);
    assert_eq!(healthy_seen[0].1, None);
    assert_eq!(healthy_seen[0].2, "healthy");
}

#[test]
fn logset_list_operations_are_positional() {
    let mut ls = LogSet::new();
    for name in ["a", "b", "c"] {
        ls.push(Logfile::new(
            name,
            DataSourceTypes::InMemory(InMemoryDataSource::new(vec![])),
            due_task(),
        ));
    }
    assert_eq!(ls.len(), 3);
    assert!(!ls.is_empty());
    let removed = ls.remove(1).unwrap();
    assert_eq!(removed.name, "b");
    assert!(ls.remove(7).is_none());
    let popped = ls.pop().unwrap();
    assert_eq!(popped.name, "c");
    assert_eq!(ls.len(), 1);
    assert_eq!(ls.logs[0].name, "a");
}
