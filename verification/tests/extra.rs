use minutecat::error::Error;
use minutecat::extra::ExtraData;

#[test]
fn it_should_not_find_invalid_key() {
    let extra = ExtraData::new();
    let res = extra.get("Test");
    assert_eq!(res, Err(Error::UndefinedExtraData));
}

#[test]
fn put_then_get_round_trips() {
    let mut extra = ExtraData::new();
    extra.put("Test", "value1: 100");
    assert_eq!(extra.get("Test").unwrap(), "value1: 100");
    assert!(extra.contains_key("Test"));
    assert!(!extra.contains_key("Other"));
}

#[test]
fn put_replaces_an_earlier_binding() {
    let mut extra = ExtraData::new();
    extra.put("k", "old");
    extra.put("k", "new");
    assert_eq!(extra.get("k").unwrap(), "new");
    assert_eq!(extra.len(), 1);
}

#[test]
fn errors_describe_themselves() {
    assert_eq!(Error::UndefinedExtraData.as_string(), "UndefinedExtraData");
    assert_eq!(
        Error::TimeStringUnknownOperator.as_string(),
        "Unknown Operator"
    );
}

#[test]
fn remove_clears_one_binding_only() {
    let mut extra = ExtraData::new();
    extra.put("a", "1");
    extra.put("b", "2");
    extra.remove("a");
    assert_eq!(extra.get("a"), Err(Error::UndefinedExtraData));
    assert_eq!(extra.get("b").unwrap(), "2");
}
