use minutecat::command::{
    AddFileCommand, AddRegexTriggerCommand, Command, DeleteLogfileCommand, FileType,
    RemoveTriggerCommand,
};
use minutecat::error::Error;
use minutecat::logfile::Logfile;
use minutecat::logset::LogSet;
use minutecat::source::{DataSourceTypes, InMemoryDataSource};
use minutecat::task::{ClockTimeSource, Task, TimeSourceTypes};
use minutecat::trigger::TriggerType;

#[test]
fn it_should_execute_add_cmd() {
    let mut ls = LogSet::new();

    let mut cmd1 = AddFileCommand::new("name", "local/test", 100, "1h", FileType::Local);
    let mut cmd2 = AddFileCommand::new("name", "local/test", 100, "1h", FileType::Local);

    // add twice undo one
    cmd1.execute(&mut ls).unwrap();
    cmd2.execute(&mut ls).unwrap();
    assert_eq!(ls.len(), 2);

    // should always undo in same order!
    cmd2.undo(&mut ls).unwrap();
    assert_eq!(ls.len(), 1);

    // same command should not undo again!
    cmd2.undo(&mut ls).unwrap();
    assert_eq!(ls.len(), 1);

    // cmd1 should
    cmd1.undo(&mut ls).unwrap();
    assert_eq!(ls.len(), 0);
}

#[test]
fn it_should_delete_cmd() {
    let mut ls = LogSet::new();

    let mut cmd1 = AddFileCommand::new("name", "local/test", 100, "1h", FileType::Local);
    let mut cmd2 = AddFileCommand::new("name", "local/test", 100, "1h", FileType::Local);

    // add twice undo one
    cmd1.execute(&mut ls).unwrap();
    cmd2.execute(&mut ls).unwrap();
    assert_eq!(ls.len(), 2);

    let mut delcmd = DeleteLogfileCommand::new(1);
    delcmd.execute(&mut ls).unwrap();
    assert_eq!(ls.len(), 1);

    // undo it!
    delcmd.undo(&mut ls).unwrap();
    assert_eq!(ls.len(), 2);
}

#[test]
fn it_should_add_re_trigger() {
    let mut l = Logfile::new(
        "name",
        DataSourceTypes::InMemory(InMemoryDataSource::new(vec![])),
        Task::new(false, 0, TimeSourceTypes::Clock(ClockTimeSource)),
    );

    let mut cmd = AddRegexTriggerCommand::new("name", "desc", TriggerType::NoEvent, "", false);
    cmd.execute(&mut l).unwrap();

    assert_eq!(l.len(), 1);

    cmd.undo(&mut l).unwrap();
    assert_eq!(l.len(), 0);
}

#[test]
fn it_should_remove_re_trigger() {
    let mut l = Logfile::new(
        "name",
        DataSourceTypes::InMemory(InMemoryDataSource::new(vec![])),
        Task::new(false, 0, TimeSourceTypes::Clock(ClockTimeSource)),
    );

    let mut cmd = AddRegexTriggerCommand::new("name", "desc", TriggerType::NoEvent, "", false);
    let mut delcmd = RemoveTriggerCommand::new(0);
    cmd.execute(&mut l).unwrap();
    assert_eq!(l.len(), 1);

    delcmd.execute(&mut l).unwrap();
    assert_eq!(l.len(), 0);

    delcmd.undo(&mut l).unwrap();
    assert_eq!(l.len(), 1);

    delcmd.undo(&mut l).unwrap();
    assert_eq!(l.len(), 1);
}

#[test]
fn add_cmd_rejects_a_bad_delay_string() {
    let mut ls = LogSet::new();
    let mut cmd = AddFileCommand::new("name", "local/test", 100, "1q", FileType::Local);
    assert_eq!(cmd.execute(&mut ls), Err(Error::TimeStringUnknownOperator));
    assert_eq!(ls.len(), 0);
    // a failed execute arms nothing: undo is inert
    cmd.undo(&mut ls).unwrap();
    assert_eq!(ls.len(), 0);
}

#[test]
fn add_re_trigger_rejects_a_bad_pattern() {
    let mut l = Logfile::new(
        "name",
        DataSourceTypes::InMemory(InMemoryDataSource::new(vec![])),
        Task::new(false, 0, TimeSourceTypes::Clock(ClockTimeSource)),
    );
    let mut cmd = AddRegexTriggerCommand::new("name", "desc", TriggerType::Error, "(", false);
    assert_eq!(cmd.execute(&mut l), Err(Error::RegexError));
    assert_eq!(l.len(), 0);
}

#[test]
fn add_cmd_builds_an_http_source() {
    let mut ls = LogSet::new();
    let mut cmd = AddFileCommand::new("web", "http://localhost/log", 10, "5m", FileType::Http);
    cmd.execute(&mut ls).unwrap();
    assert_eq!(ls.len(), 1);
    let lf = ls.pop().unwrap();
    assert!(matches!(lf.source, DataSourceTypes::Http(_)));
    assert_eq!(lf.task.delay, 300000);
    assert!(lf.task.repeat);
}
