use minutecat::extra::ExtraData;
use minutecat::logfile::{Event, EventHandler};
use minutecat::tab::{TabManager, TabState};
use minutecat::task::{InMemoryTimeSource, Task, TimeSourceTypes};
use minutecat::trigger::{RegexTrigger, TriggerType, TriggerTypes};

fn event_for(pattern: &str, did_trigger: bool, text: &str) -> Event {
    Event {
        did_trigger,
        trigger: Some(TriggerTypes::Regex(RegexTrigger::new(
            "trig",
            "desc",
            TriggerType::Warning,
            pattern,
            false,
        ))),
        task: Task::new(
            true,
            10,
            TimeSourceTypes::InMemory(InMemoryTimeSource::new(vec![100])),
        ),
        extra: ExtraData::new(),
        text: text.to_string(),
        name: "source name".to_string(),
        error: None,
    }
}

#[test]
fn firing_trigger_records_slice_and_type() {
    let mut tab = TabState::new();
    tab.on_event(&event_for("data", true, "some data here"));
    assert_eq!(tab.slices.get("trig").unwrap(), "data");
    assert_eq!(tab.trigger_type, TriggerType::Warning);
    assert_eq!(tab.text, "some data here");
    assert_eq!(tab.name, "source name");
    assert_eq!(tab.next_time, 110);
}

#[test]
fn trigger_that_stops_matching_is_cleared() {
    let mut tab = TabState::new();
    tab.on_event(&event_for("data", true, "some data here"));
    assert!(tab.slices.contains_key("trig"));
    tab.on_event(&event_for("data", false, "nothing anymore"));
    assert!(!tab.slices.contains_key("trig"));
    // text of a non-firing event does not replace what is shown
    assert_eq!(tab.text, "some data here");
}

#[test]
fn tabs_cycle_and_wrap() {
    let mut tabs = TabManager::new(3);
    assert_eq!(tabs.index, 0);
    tabs.next();
    tabs.next();
    assert_eq!(tabs.index, 2);
    tabs.next();
    assert_eq!(tabs.index, 0);
    tabs.prev();
    assert_eq!(tabs.index, 2);
    tabs.next_offset();
    assert_eq!(tabs.tab_offset, 1);
    tabs.prev_offset();
    tabs.prev_offset();
    assert_eq!(tabs.tab_offset, 2);
}

#[test]
fn scrolling_saturates_at_zero() {
    let mut tabs = TabManager::new(1);
    tabs.down();
    assert_eq!(tabs.scroll.0, 0);
    tabs.up();
    tabs.up();
    assert_eq!(tabs.scroll.0, 2);
    tabs.next();
    assert_eq!(tabs.scroll.0, 0);
}
