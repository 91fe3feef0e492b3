use minutecat::logfile::{Event, EventHandler, Logfile};
use minutecat::source::{DataSourceTypes, InMemoryDataSource};
use minutecat::task::{InMemoryTimeSource, Task, TimeSourceTypes};
use minutecat::trigger::{RegexTrigger, TriggerType, TriggerTypes};

struct TestHandler(Option<TriggerType>, Option<TriggerType>);

impl EventHandler for TestHandler {
    fn on_event(&mut self, event: &Event) {
        if event.did_trigger {
            self.0 = Some(event.trigger.as_ref().unwrap().get_type());
        } else {
            self.1 = Some(event.trigger.as_ref().unwrap().get_type());
        }
    }
}

fn two_trigger_logfile(times: Vec<u128>) -> Logfile {
    let mut lf = Logfile::new(
        "test",
        DataSourceTypes::InMemory(InMemoryDataSource::new(vec![
            "Test data with error".into(),
            "Original test data success".into(),
        ])),
        Task::new(
            true,
            10,
            TimeSourceTypes::InMemory(InMemoryTimeSource::new(times)),
        ),
    );

    lf.push(TriggerTypes::Regex(RegexTrigger::new(
        "success",
        "on success",
        TriggerType::Success,
        "success",
        false,
    )));
    lf.push(TriggerTypes::Regex(RegexTrigger::new(
        "failure",
        "on error",
        TriggerType::Error,
        "error",
        false,
    )));
    lf
}

#[test]
fn it_should_trigger_and_call_handlers() {
    let mut lf = two_trigger_logfile(vec![133, 122, 122, 111]);

    let mut handlers = vec![TestHandler(None, None)];
    lf.update(&mut handlers).unwrap();
    assert_eq!(handlers[0].0, Some(TriggerType::Success));
    assert_eq!(handlers[0].1, Some(TriggerType::Error));

    lf.update(&mut handlers).unwrap();
    assert_eq!(handlers[0].0, Some(TriggerType::Error));
    assert_eq!(handlers[0].1, Some(TriggerType::Success));
}

#[test]
fn logfile_it_should_not_trigger() {
    let mut lf = two_trigger_logfile(vec![111, 111, 111, 111]);

    let mut handlers = vec![TestHandler(None, None)];
    lf.update(&mut handlers).unwrap();
    assert_eq!(handlers[0].0, None);
    assert_eq!(handlers[0].1, None);
}

struct CountingHandler {
    calls: usize,
    last_did_trigger: Option<bool>,
    last_had_trigger: Option<bool>,
}

impl EventHandler for CountingHandler {
    fn on_event(&mut self, event: &Event) {
        self.calls += 1;
        self.last_did_trigger = Some(event.did_trigger);
        self.last_had_trigger = Some(event.trigger.is_some());
    }
}

#[test]
fn zero_triggers_still_notify_every_handler_once() {
    let lf = Logfile::new(
        "empty",
        DataSourceTypes::InMemory(InMemoryDataSource::new(vec![])),
        Task::new(
            true,
            10,
            TimeSourceTypes::InMemory(InMemoryTimeSource::new(vec![100])),
        ),
    );
    let mut handlers = vec![
        CountingHandler { calls: 0, last_did_trigger: None, last_had_trigger: None },
        CountingHandler { calls: 0, last_did_trigger: None, last_had_trigger: None },
    ];
    lf.check(&mut handlers, "some raw content").unwrap();
    for h in &handlers {
        assert_eq!(h.calls, 1);
        assert_eq!(h.last_did_trigger, Some(false));
        assert_eq!(h.last_had_trigger, Some(false));
    }
    lf.check(&mut handlers, "more content").unwrap();
    for h in &handlers {
        assert_eq!(h.calls, 2);
    }
}

#[test]
fn handlers_see_every_trigger_every_cycle() {
    let mut lf = two_trigger_logfile(vec![133, 122, 122, 111]);
    let mut handlers = vec![CountingHandler {
        calls: 0,
        last_did_trigger: None,
        last_had_trigger: None,
    }];
    lf.force_update(&mut handlers).unwrap();
    // two triggers, one event each, for the one handler
    assert_eq!(handlers[0].calls, 2);
    assert_eq!(handlers[0].last_had_trigger, Some(true));
}

#[test]
fn trigger_list_operations_are_positional() {
    let mut lf = two_trigger_logfile(vec![100]);
    assert_eq!(lf.len(), 2);
    assert!(!lf.is_empty());
    let removed = lf.remove(0).unwrap();
    assert_eq!(removed.name(), "success");
    assert_eq!(lf.len(), 1);
    assert!(lf.remove(5).is_none());
    let popped = lf.pop().unwrap();
    assert_eq!(popped.name(), "failure");
    assert!(lf.pop().is_none());
    assert!(lf.is_empty());
}
