use minutecat::error::Error;
use minutecat::trigger::{RegexTrigger, TriggerType};

#[test]
fn it_should_match_trigger() {
    let r = RegexTrigger::new("name", "desc", TriggerType::Success, "test", false);

    assert!(r.check("This is a test string").unwrap());
    assert_eq!(r.slice("This is a test string").unwrap(), "test");
}

#[test]
fn it_should_not_match() {
    let r = RegexTrigger::new("name", "desc", TriggerType::Success, "foo", false);

    assert!(!r.check("This is a test string").unwrap());
    assert_eq!(r.slice("This is a test string").unwrap(), "");
}

#[test]
fn it_should_match_inverted_trigger() {
    let r = RegexTrigger::new("name", "desc", TriggerType::Success, "foo", true);

    assert!(r.check("This is a test string").unwrap());
    assert_eq!(r.slice("This is a test string").unwrap(), "");
}

#[test]
fn it_should_not_match_inverted() {
    let r = RegexTrigger::new("name", "desc", TriggerType::Success, "test", true);

    assert!(!r.check("This is a test string").unwrap());
    assert_eq!(r.slice("This is a test string").unwrap(), "test");
}

#[test]
fn slice_is_never_inverted() {
    let plain = RegexTrigger::new("n", "d", TriggerType::Success, "success", false);
    assert!(plain.check("Original test data success").unwrap());
    assert_eq!(plain.slice("Original test data success").unwrap(), "success");

    let inverted = RegexTrigger::new("n", "d", TriggerType::Success, "foo", true);
    assert!(inverted.check("Original test data success").unwrap());
    assert_eq!(inverted.slice("Original test data success").unwrap(), "");
}

#[test]
fn bad_pattern_is_a_regex_error() {
    let r = RegexTrigger::new("name", "desc", TriggerType::Error, "(", false);
    assert_eq!(r.check("anything"), Err(Error::RegexError));
    assert_eq!(r.slice("anything"), Err(Error::RegexError));
}

#[test]
fn slice_finds_the_leftmost_match() {
    let r = RegexTrigger::new("name", "desc", TriggerType::Warning, "[0-9]+", false);
    assert_eq!(r.slice("a 12 b 345").unwrap(), "12");
}

#[test]
fn trigger_type_from_str_reads_the_three_names() {
    assert_eq!(TriggerType::from_str("success"), Ok(TriggerType::Success));
    assert_eq!(TriggerType::from_str("warning"), Ok(TriggerType::Warning));
    assert_eq!(TriggerType::from_str("error"), Ok(TriggerType::Error));
    assert_eq!(TriggerType::from_str("noevent"), Err(Error::FromStringError));
}
