use vstd::prelude::*;
use crate::error::Error;
use crate::logfile::{lf_eq, Logfile};
use crate::logset::LogSet;
use crate::source::{DataSourceTypes, FileDataSource, HttpDataSource};
use crate::task::{spec_scan, ClockTimeSource, Task, TimeSourceTypes};
use crate::trigger::{regex_valid, RegexTrigger, TriggerType, TriggerTypes};

verus! {

/// An undoable mutation of one target object. Commands are the
/// sanctioned way to add and remove logfiles and triggers: each one
/// carries what is needed to reverse itself, and a repeated `undo`
/// without a fresh `execute` is inert, never an error.
pub trait Command<T> {
    fn execute(&mut self, obj: &mut T) -> Result<(), Error>;

    fn undo(&mut self, obj: &mut T) -> Result<(), Error>;
}

/// Which kind of source an added logfile reads.
#[derive(Debug, Eq, PartialEq, Structural, Copy, Clone)]
pub enum FileType {
    Http,
    Local,
}

/// Appends a new logfile, built from a source selector and a delay
/// string, to a `LogSet`; undone by removing the most recently added
/// entry. Undo is positional: it is correct only when commands are
/// undone in exact reverse order of execution against an otherwise
/// unmodified set.
pub struct AddFileCommand {
    pub name: String,
    pub location: String,
    pub line_limit: usize,
    pub refresh_time: String,
    pub file_type: FileType,
    pub can_undo: bool,
}

impl AddFileCommand {
    pub fn new(name: &str, location: &str, line_limit: usize, refresh_time: &str,
        file_type: FileType) -> (r: Self)
        ensures
            r.name@ == name@,
            r.location@ == location@,
            r.line_limit == line_limit,
            r.refresh_time@ == refresh_time@,
            r.file_type == file_type,
            !r.can_undo,
    {
        Self {
            name: String::from_str(name),
            location: String::from_str(location),
            line_limit,
            refresh_time: String::from_str(refresh_time),
            file_type,
            can_undo: false,
        }
    }
}

/// The logfile that an `AddFileCommand` in state `c` builds.
pub open spec fn added_logfile(c: AddFileCommand, lf: Logfile, delay: u128) -> bool {
    &&& lf.name@ == c.name@
    &&& lf.triggers@.len() == 0
    &&& lf.task.repeat
    &&& !lf.task.done
    &&& lf.task.delay == delay
    &&& lf.task.time_src is Clock
    &&& match c.file_type {
        FileType::Local => lf.source matches DataSourceTypes::File(f) && f.path@ == c.location@
            && f.line_limit == c.line_limit,
        FileType::Http => lf.source matches DataSourceTypes::Http(h) && h.url@ == c.location@,
    }
    &&& lf.extra.spec_entries().len() == 0
}

/// What `AddFileCommand::execute` does: on a delay string that scans,
/// exactly one new logfile is appended and undo is armed; on one that
/// does not, the scan error comes back and nothing changes.
pub open spec fn add_execute_rel(
    c1: AddFileCommand,
    c2: AddFileCommand,
    s1: LogSet,
    s2: LogSet,
    r: Result<(), Error>,
) -> bool {
    &&& c2.name == c1.name
    &&& c2.location == c1.location
    &&& c2.line_limit == c1.line_limit
    &&& c2.refresh_time == c1.refresh_time
    &&& c2.file_type == c1.file_type
    &&& match spec_scan(c1.refresh_time@) {
        Ok(d) => {
            &&& r is Ok
            &&& c2.can_undo
            &&& s2.logs@.len() == s1.logs@.len() + 1
            &&& s2.logs@.drop_last() == s1.logs@
            &&& added_logfile(c1, s2.logs@.last(), d)
        },
        Err(e) => r == Err::<(), Error>(e) && s2 == s1 && c2.can_undo == c1.can_undo,
    }
}

/// What `AddFileCommand::undo` does: armed, it removes the most
/// recently added logfile and disarms; not armed, it is a no-op.
pub open spec fn add_undo_rel(
    c1: AddFileCommand,
    c2: AddFileCommand,
    s1: LogSet,
    s2: LogSet,
) -> bool {
    &&& c2.name == c1.name
    &&& c2.location == c1.location
    &&& c2.line_limit == c1.line_limit
    &&& c2.refresh_time == c1.refresh_time
    &&& c2.file_type == c1.file_type
    &&& if c1.can_undo {
        &&& !c2.can_undo
        &&& if s1.logs@.len() > 0 {
            s2.logs@ == s1.logs@.drop_last()
        } else {
            s2.logs@ == s1.logs@
        }
    } else {
        c2.can_undo == c1.can_undo && s2 == s1
    }
}

impl Command<LogSet> for AddFileCommand {
    fn execute(&mut self, obj: &mut LogSet) -> (r: Result<(), Error>)
        ensures
            add_execute_rel(*old(self), *final(self), *old(obj), *final(obj), r),
    {
        let task = match Task::from_str(
            true,
            self.refresh_time.as_str(),
            TimeSourceTypes::Clock(ClockTimeSource),
        ) {
            Ok(t) => t,
            Err(e) => {
                return Err(e);
            },
        };
        let ds = match self.file_type {
            FileType::Local => DataSourceTypes::File(
                FileDataSource::new(self.location.as_str(), self.line_limit),
            ),
            FileType::Http => DataSourceTypes::Http(HttpDataSource::new(self.location.as_str())),
        };
        obj.push(Logfile::new(self.name.as_str(), ds, task));
        self.can_undo = true;
        proof {
            assert(obj.logs@.drop_last() =~= old(obj).logs@);
        }
        Ok(())
    }

    fn undo(&mut self, obj: &mut LogSet) -> (r: Result<(), Error>)
        ensures
            add_undo_rel(*old(self), *final(self), *old(obj), *final(obj)),
            r is Ok,
    {
        if self.can_undo {
            self.can_undo = false;
            obj.pop();
        }
        Ok(())
    }
}

/// Removes the logfile at a fixed index, keeping the removed value so
/// that undo can re-append it. Undo re-inserts by append, not at the
/// original position.
pub struct DeleteLogfileCommand {
    pub index: usize,
    pub removed: Option<Logfile>,
}

impl DeleteLogfileCommand {
    pub fn new(index: usize) -> (r: Self)
        ensures
            r.index == index,
            r.removed is None,
    {
        Self { index, removed: None }
    }
}

impl Command<LogSet> for DeleteLogfileCommand {
    fn execute(&mut self, obj: &mut LogSet) -> (r: Result<(), Error>)
        ensures
            r is Ok,
            final(self).index == old(self).index,
            old(self).index < old(obj).logs@.len() ==> final(self).removed == Some(
                old(obj).logs@[old(self).index as int],
            ) && final(obj).logs@ == old(obj).logs@.remove(old(self).index as int),
            old(self).index >= old(obj).logs@.len() ==> final(self).removed is None && final(obj).logs@ == old(obj).logs@,
    {
        self.removed = obj.remove(self.index);
        Ok(())
    }

    fn undo(&mut self, obj: &mut LogSet) -> (r: Result<(), Error>)
        ensures
            r is Ok,
            final(self).index == old(self).index,
            old(self).removed matches Some(lf) ==> final(self).removed is None && final(obj).logs@.len() == old(obj).logs@.len() + 1 && final(obj).logs@.drop_last() == old(
                obj,
            ).logs@ && lf_eq(final(obj).logs@.last(), lf),
            old(self).removed is None ==> final(self).removed == old(self).removed && final(obj).logs@ == old(obj).logs@,
    {
        match &self.removed {
            Some(logfile) => {
                obj.push(logfile.duplicate());
                self.removed = None;
            },
            None => {},
        }
        Ok(())
    }
}

/// Appends a regex trigger to a logfile; undone by popping it, gated
/// so that a repeated undo is inert. The pattern is compiled once at
/// execution: a malformed pattern is reported and the logfile is left
/// untouched.
pub struct AddRegexTriggerCommand {
    pub name: String,
    pub desc: String,
    pub trigger_type: TriggerType,
    pub regex: String,
    pub invert: bool,
    pub can_undo: bool,
}

impl AddRegexTriggerCommand {
    pub fn new(name: &str, desc: &str, trigger_type: TriggerType, regex: &str, invert: bool) -> (r:
        Self)
        ensures
            r.name@ == name@,
            r.desc@ == desc@,
            r.trigger_type == trigger_type,
            r.regex@ == regex@,
            r.invert == invert,
            !r.can_undo,
    {
        Self {
            name: String::from_str(name),
            desc: String::from_str(desc),
            trigger_type,
            regex: String::from_str(regex),
            invert,
            can_undo: false,
        }
    }
}

/// The trigger that an `AddRegexTriggerCommand` in state `c` builds.
pub open spec fn added_trigger(c: AddRegexTriggerCommand, t: TriggerTypes) -> bool {
    &&& t matches TriggerTypes::Regex(rt)
    &&& t.spec_name() == c.name@
    &&& t.spec_description() == c.desc@
    &&& t.spec_type() == c.trigger_type
    &&& t.spec_pattern() == c.regex@
    &&& t.spec_invert() == c.invert
}

impl Command<Logfile> for AddRegexTriggerCommand {
    fn execute(&mut self, obj: &mut Logfile) -> (r: Result<(), Error>)
        ensures
            final(self).name == old(self).name,
            final(self).desc == old(self).desc,
            final(self).trigger_type == old(self).trigger_type,
            final(self).regex == old(self).regex,
            final(self).invert == old(self).invert,
            regex_valid(old(self).regex@) ==> r is Ok && final(self).can_undo && final(obj).triggers@.len() == old(obj).triggers@.len() + 1 && final(obj).triggers@.drop_last()
                == old(obj).triggers@ && added_trigger(*old(self), final(obj).triggers@.last())
                && final(obj).name == old(obj).name && final(obj).source == old(obj).source
                && final(obj).task == old(obj).task && final(obj).extra == old(obj).extra,
            !regex_valid(old(self).regex@) ==> r == Err::<(), Error>(Error::RegexError) && *final(obj) == *old(obj) && final(self).can_undo == old(self).can_undo,
    {
        if !crate::trigger::regex_compiles(self.regex.as_str()) {
            return Err(Error::RegexError);
        }
        obj.push(
            TriggerTypes::Regex(
                RegexTrigger::new(
                    self.name.as_str(),
                    self.desc.as_str(),
                    self.trigger_type,
                    self.regex.as_str(),
                    self.invert,
                ),
            ),
        );
        self.can_undo = true;
        Ok(())
    }

    fn undo(&mut self, obj: &mut Logfile) -> (r: Result<(), Error>)
        ensures
            r is Ok,
            final(self).name == old(self).name,
            final(self).desc == old(self).desc,
            final(self).trigger_type == old(self).trigger_type,
            final(self).regex == old(self).regex,
            final(self).invert == old(self).invert,
            old(self).can_undo ==> !final(self).can_undo && (if old(obj).triggers@.len() > 0 {
                final(obj).triggers@ == old(obj).triggers@.drop_last()
            } else {
                final(obj).triggers@ == old(obj).triggers@
            }) && final(obj).name == old(obj).name && final(obj).source == old(obj).source
                && final(obj).task == old(obj).task && final(obj).extra == old(obj).extra,
            !old(self).can_undo ==> final(self).can_undo == old(self).can_undo && *final(obj)
                == *old(obj),
    {
        if self.can_undo {
            obj.pop();
            self.can_undo = false;
        }
        Ok(())
    }
}

/// Removes the trigger at a fixed index from a logfile, keeping the
/// removed value so that undo can re-append it. Undo re-inserts by
/// append, not at the original position, and a repeated undo is
/// inert.
pub struct RemoveTriggerCommand {
    pub index: usize,
    pub removed: Option<TriggerTypes>,
}

impl RemoveTriggerCommand {
    pub fn new(index: usize) -> (r: Self)
        ensures
            r.index == index,
            r.removed is None,
    {
        Self { index, removed: None }
    }
}

impl Command<Logfile> for RemoveTriggerCommand {
    fn execute(&mut self, obj: &mut Logfile) -> (r: Result<(), Error>)
        ensures
            r is Ok,
            final(self).index == old(self).index,
            final(obj).name == old(obj).name,
            final(obj).source == old(obj).source,
            final(obj).task == old(obj).task,
            final(obj).extra == old(obj).extra,
            old(self).index < old(obj).triggers@.len() ==> final(self).removed == Some(
                old(obj).triggers@[old(self).index as int],
            ) && final(obj).triggers@ == old(obj).triggers@.remove(old(self).index as int),
            old(self).index >= old(obj).triggers@.len() ==> final(self).removed is None && final(obj).triggers@ == old(obj).triggers@,
    {
        self.removed = obj.remove(self.index);
        Ok(())
    }

    fn undo(&mut self, obj: &mut Logfile) -> (r: Result<(), Error>)
        ensures
            r is Ok,
            final(self).index == old(self).index,
            final(obj).name == old(obj).name,
            final(obj).source == old(obj).source,
            final(obj).task == old(obj).task,
            final(obj).extra == old(obj).extra,
            old(self).removed matches Some(t) ==> final(self).removed is None && final(obj).triggers@ == old(obj).triggers@.push(t),
            old(self).removed is None ==> final(self).removed == old(self).removed && final(obj).triggers@ == old(obj).triggers@,
    {
        match &self.removed {
            Some(trigger) => {
                obj.push(trigger.duplicate());
                self.removed = None;
            },
            None => {},
        }
        Ok(())
    }
}

/// Add-file commands undo cleanly: after two executes, undoing the
/// second command twice and the first once returns the set to exactly
/// its original logfiles — the repeated undo in the middle is a
/// no-op, because the first undo disarmed the command.
pub proof fn lemma_add_file_undo_restores(
    c1: AddFileCommand,
    c1x: AddFileCommand,
    c1y: AddFileCommand,
    c2: AddFileCommand,
    c2x: AddFileCommand,
    c2y: AddFileCommand,
    c2z: AddFileCommand,
    s0: LogSet,
    s1: LogSet,
    s2: LogSet,
    s3: LogSet,
    s4: LogSet,
    s5: LogSet,
)
    requires
        add_execute_rel(c1, c1x, s0, s1, Ok(())),
        spec_scan(c1.refresh_time@) is Ok,
        add_execute_rel(c2, c2x, s1, s2, Ok(())),
        spec_scan(c2.refresh_time@) is Ok,
        add_undo_rel(c2x, c2y, s2, s3),
        add_undo_rel(c2y, c2z, s3, s4),
        add_undo_rel(c1x, c1y, s4, s5),
    ensures
        s3.logs@ == s1.logs@,
        s4.logs@ == s3.logs@,
        s5.logs@ == s0.logs@,
{
    assert(s2.logs@.drop_last() == s1.logs@);
    assert(s3.logs@ == s1.logs@);
    assert(!c2y.can_undo);
    assert(s4.logs@ == s3.logs@);
    assert(s1.logs@.drop_last() == s0.logs@);
    assert(s5.logs@ == s0.logs@);
}

} // verus!
