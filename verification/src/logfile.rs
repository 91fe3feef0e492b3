use vstd::prelude::*;
use crate::error::Error;
use crate::extra::ExtraData;
use crate::source::{ds_eq, ds_load_rel, DataSourceTypes};
use crate::task::{due_step, Task, TimeMs};
use crate::trigger::{TriggerType, TriggerTypes};

verus! {

/// The image of a trigger as an event carries it.
pub ghost struct TriggerRec {
    pub name: Seq<char>,
    pub description: Seq<char>,
    pub trigger_type: TriggerType,
    pub pattern: Seq<char>,
    pub invert: bool,
}

/// The image of one delivered event: everything a handler can read
/// from it, at the specification level.
pub ghost struct EventRec {
    pub did_trigger: bool,
    pub trigger: Option<TriggerRec>,
    pub task_start: TimeMs,
    pub task_delay: TimeMs,
    pub extra: Seq<(Seq<char>, Seq<char>)>,
    pub text: Seq<char>,
    pub name: Seq<char>,
    pub error: Option<Error>,
}

/// The image of a trigger.
pub open spec fn trig_rec(t: TriggerTypes) -> TriggerRec {
    TriggerRec {
        name: t.spec_name(),
        description: t.spec_description(),
        trigger_type: t.spec_type(),
        pattern: t.spec_pattern(),
        invert: t.spec_invert(),
    }
}

/// The image of an auxiliary store.
pub open spec fn extra_rec(e: ExtraData) -> Seq<(Seq<char>, Seq<char>)> {
    e.spec_entries().map_values(|p: (String, String)| (p.0@, p.1@))
}

/// One trigger-evaluation report, built fresh for every evaluation and
/// handed to every registered handler. `error` is set only on the
/// event a batch update synthesizes when a source fails to load.
pub struct Event {
    pub did_trigger: bool,
    pub trigger: Option<TriggerTypes>,
    pub task: Task,
    pub extra: ExtraData,
    pub text: String,
    pub name: String,
    pub error: Option<Error>,
}

impl Event {
    /// What a handler can read from this event.
    pub open spec fn rec(self) -> EventRec {
        EventRec {
            did_trigger: self.did_trigger,
            trigger: match self.trigger {
                Some(t) => Some(trig_rec(t)),
                None => None,
            },
            task_start: self.task.start,
            task_delay: self.task.delay,
            extra: extra_rec(self.extra),
            text: self.text@,
            name: self.name@,
            error: self.error,
        }
    }
}

/// An observer notified of every trigger evaluation. `events` is the
/// handler's log of everything it has been handed, oldest first; each
/// delivery appends exactly one record.
pub trait EventHandler {
    /// An implementation that does not keep a log may leave this
    /// default; its `on_event` contract is then vacuous to callers
    /// that rely on the log.
    open spec fn events(&self) -> Seq<EventRec> {
        Seq::empty()
    }

    fn on_event(&mut self, event: &Event)
        ensures
            final(self).events() == old(self).events().push(event.rec()),
    ;
}

/// Every handler's log is extended by exactly these events, in order.
pub open spec fn delivered<H: EventHandler>(h1: Seq<H>, h2: Seq<H>, evs: Seq<EventRec>) -> bool {
    h2.len() == h1.len() && forall|i: int|
        0 <= i < h1.len() ==> #[trigger] h2[i].events() == h1[i].events() + evs
}

/// The position of the first trigger whose pattern does not compile,
/// or the number of triggers where all compile.
pub open spec fn first_bad(ts: Seq<TriggerTypes>) -> int
    decreases ts.len(),
{
    if ts.len() == 0 {
        0
    } else if !ts.first().spec_ok() {
        0
    } else {
        1 + first_bad(ts.drop_first())
    }
}

/// Everything before `first_bad` compiles; what stands at it does not.
pub proof fn lemma_first_bad(ts: Seq<TriggerTypes>)
    ensures
        0 <= first_bad(ts) <= ts.len(),
        forall|i: int| 0 <= i < first_bad(ts) ==> (#[trigger] ts[i]).spec_ok(),
        first_bad(ts) < ts.len() ==> !ts[first_bad(ts)].spec_ok(),
    decreases ts.len(),
{
    if ts.len() > 0 && ts.first().spec_ok() {
        lemma_first_bad(ts.drop_first());
        assert forall|i: int| 0 <= i < first_bad(ts) implies (#[trigger] ts[i]).spec_ok() by {
            if i > 0 {
                assert(ts.drop_first()[i - 1].spec_ok());
            }
        }
        if first_bad(ts) < ts.len() {
            assert(ts.drop_first()[first_bad(ts) - 1] == ts[first_bad(ts)]);
        }
    }
}

/// The event a batch update synthesizes when a logfile's load or
/// check fails: no trigger, no text, the error attached.
pub open spec fn err_rec(lf: Logfile, e: Error) -> EventRec {
    EventRec {
        did_trigger: false,
        trigger: None,
        task_start: lf.task.start,
        task_delay: lf.task.delay,
        extra: extra_rec(lf.extra),
        text: Seq::<char>::empty(),
        name: lf.name@,
        error: Some(e),
    }
}

/// Delivers one event to every handler in order.
pub(crate) fn dispatch_event<H: EventHandler>(handlers: &mut Vec<H>, event: &Event)
    ensures
        final(handlers)@.len() == old(handlers)@.len(),
        forall|j: int|
            0 <= j < old(handlers)@.len() ==> #[trigger] final(handlers)@[j].events() == old(
                handlers,
            )@[j].events().push(event.rec()),
{
    let mut h: usize = 0;
    while h < handlers.len()
        invariant
            h <= handlers@.len(),
            handlers@.len() == old(handlers)@.len(),
            forall|j: int|
                0 <= j < h ==> #[trigger] handlers@[j].events() == old(
                    handlers,
                )@[j].events().push(event.rec()),
            forall|j: int| h <= j < handlers@.len() ==> #[trigger] handlers@[j] == old(
                handlers,
            )@[j],
        decreases handlers@.len() - h,
    {
        handlers[h].on_event(event);
        h = h + 1;
    }
}

/// Two logfiles that agree on everything a check reads deliver the
/// same events.
proof fn lemma_check_events_same(a: Logfile, b: Logfile, text: Seq<char>)
    requires
        a.name == b.name,
        a.triggers@ == b.triggers@,
        a.task == b.task,
        a.extra == b.extra,
    ensures
        a.spec_check_events(text) == b.spec_check_events(text),
        a.triggers_all_ok() == b.triggers_all_ok(),
{
    if a.triggers@.len() == 0 {
        assert(a.spec_check_events(text) =~= b.spec_check_events(text));
    } else {
        assert forall|i: int| 0 <= i < first_bad(a.triggers@) implies a.ev_at(i, text) == b.ev_at(
            i,
            text,
        ) by {}
        assert(a.spec_check_events(text) =~= b.spec_check_events(text));
    }
    assert(a.triggers_all_ok() == b.triggers_all_ok()) by {
        if a.triggers_all_ok() {
            assert forall|i: int|
                0 <= i < b.triggers@.len() implies (#[trigger] b.triggers@[i]).spec_ok() by {
                assert(a.triggers@[i].spec_ok());
            }
        }
        if b.triggers_all_ok() {
            assert forall|i: int|
                0 <= i < a.triggers@.len() implies (#[trigger] a.triggers@[i]).spec_ok() by {
                assert(b.triggers@[i].spec_ok());
            }
        }
    }
}

/// One load-and-check cycle from state `lf0` to `lf1`: the source is
/// loaded once; on text the triggers are checked and the events of
/// `spec_check_events` delivered to every handler; a load failure
/// propagates with no event delivered.
pub open spec fn load_check_rel<H: EventHandler>(
    lf0: Logfile,
    lf1: Logfile,
    h1: Seq<H>,
    h2: Seq<H>,
    r: Result<bool, Error>,
) -> bool {
    exists|lr: Result<String, Error>|
        #[trigger] ds_load_rel(lf0.source, lf1.source, lr) && match lr {
            Ok(text) => {
                &&& (lf0.triggers_all_ok() ==> r == Ok::<bool, Error>(true))
                &&& (!lf0.triggers_all_ok() ==> r == Err::<bool, Error>(Error::RegexError))
                &&& delivered(h1, h2, lf0.spec_check_events(text@))
            },
            Err(e) => r == Err::<bool, Error>(e) && h2 == h1,
        }
}

/// What `force_update` does: everything but the source stays, and one
/// load-and-check cycle runs.
pub open spec fn force_update_rel<H: EventHandler>(
    lf0: Logfile,
    lf1: Logfile,
    h1: Seq<H>,
    h2: Seq<H>,
    r: Result<bool, Error>,
) -> bool {
    &&& lf1.name == lf0.name
    &&& lf1.triggers == lf0.triggers
    &&& lf1.task == lf0.task
    &&& lf1.extra == lf0.extra
    &&& load_check_rel(lf0, lf1, h1, h2, r)
}

/// What `update` does: one due check on the task; where it fires, a
/// load-and-check cycle with the updated task; where it does not,
/// nothing else changes and no event is delivered.
pub open spec fn update_rel<H: EventHandler>(
    lf0: Logfile,
    lf1: Logfile,
    h1: Seq<H>,
    h2: Seq<H>,
    r: Result<bool, Error>,
) -> bool {
    &&& lf1.name == lf0.name
    &&& lf1.triggers == lf0.triggers
    &&& lf1.extra == lf0.extra
    &&& exists|fired: bool|
        #[trigger] due_step(lf0.task, lf1.task, fired) && if fired {
            load_check_rel(
                Logfile {
                    name: lf0.name,
                    source: lf0.source,
                    triggers: lf0.triggers,
                    task: lf1.task,
                    extra: lf0.extra,
                },
                lf1,
                h1,
                h2,
                r,
            )
        } else {
            r == Ok::<bool, Error>(false) && lf1.source == lf0.source && h2 == h1
        }
}

/// One monitored source: its name, where its text comes from, the
/// triggers evaluated against that text in list order, the schedule,
/// and auxiliary handler state.
pub struct Logfile {
    pub name: String,
    pub source: DataSourceTypes,
    pub triggers: Vec<TriggerTypes>,
    pub task: Task,
    pub extra: ExtraData,
}

/// The two logfiles hold the same state.
pub open spec fn lf_eq(a: Logfile, b: Logfile) -> bool {
    a.name@ == b.name@ && ds_eq(a.source, b.source) && a.triggers@ == b.triggers@
        && crate::task::task_eq(a.task, b.task) && a.extra.spec_entries() == b.extra.spec_entries()
}

impl Logfile {
    /// Every trigger's pattern compiles.
    pub open spec fn triggers_all_ok(self) -> bool {
        forall|i: int| 0 <= i < self.triggers@.len() ==> (#[trigger] self.triggers@[i]).spec_ok()
    }

    /// The event reporting trigger `i` on this text.
    pub open spec fn ev_at(self, i: int, text: Seq<char>) -> EventRec {
        EventRec {
            did_trigger: self.triggers@[i].spec_fires(text),
            trigger: Some(trig_rec(self.triggers@[i])),
            task_start: self.task.start,
            task_delay: self.task.delay,
            extra: extra_rec(self.extra),
            text: text,
            name: self.name@,
            error: None,
        }
    }

    /// The single event a check with no triggers delivers.
    pub open spec fn ev_none(self, text: Seq<char>) -> EventRec {
        EventRec {
            did_trigger: false,
            trigger: None,
            task_start: self.task.start,
            task_delay: self.task.delay,
            extra: extra_rec(self.extra),
            text: text,
            name: self.name@,
            error: None,
        }
    }

    /// The events one `check` delivers to each handler: with no
    /// triggers configured, exactly one event with `did_trigger`
    /// false; otherwise one event per trigger in list order, cut short
    /// at the first pattern that does not compile.
    pub open spec fn spec_check_events(self, text: Seq<char>) -> Seq<EventRec> {
        if self.triggers@.len() == 0 {
            seq![self.ev_none(text)]
        } else {
            Seq::new(first_bad(self.triggers@) as nat, |i: int| self.ev_at(i, text))
        }
    }

    /// A logfile with no triggers and an empty auxiliary store.
    pub fn new(name: &str, source: DataSourceTypes, task: Task) -> (r: Self)
        ensures
            r.name@ == name@,
            r.source == source,
            r.triggers@.len() == 0,
            r.task == task,
            r.extra.spec_entries().len() == 0,
    {
        Self {
            name: String::from_str(name),
            source,
            triggers: Vec::new(),
            task,
            extra: ExtraData::new(),
        }
    }

    /// A logfile with the same state.
    pub fn duplicate(&self) -> (r: Self)
        ensures
            lf_eq(r, *self),
    {
        let mut ts: Vec<TriggerTypes> = Vec::new();
        let mut i: usize = 0;
        while i < self.triggers.len()
            invariant
                i <= self.triggers@.len(),
                ts@ =~= self.triggers@.subrange(0, i as int),
            decreases self.triggers@.len() - i,
        {
            ts.push(self.triggers[i].duplicate());
            i = i + 1;
        }
        proof {
            assert(ts@ =~= self.triggers@);
        }
        Self {
            name: self.name.clone(),
            source: self.source.duplicate(),
            triggers: ts,
            task: self.task.duplicate(),
            extra: self.extra.duplicate(),
        }
    }

    /// Appends a trigger; it is evaluated after all existing ones.
    pub fn push(&mut self, trigger: TriggerTypes)
        ensures
            final(self).triggers@ == old(self).triggers@.push(trigger),
            final(self).name == old(self).name,
            final(self).source == old(self).source,
            final(self).task == old(self).task,
            final(self).extra == old(self).extra,
    {
        self.triggers.push(trigger);
    }

    /// Removes and returns the most recently appended trigger.
    pub fn pop(&mut self) -> (r: Option<TriggerTypes>)
        ensures
            old(self).triggers@.len() > 0 ==> r == Some(old(self).triggers@.last())
                && final(self).triggers@ == old(self).triggers@.drop_last(),
            old(self).triggers@.len() == 0 ==> r is None && final(self).triggers@ == old(
                self,
            ).triggers@,
            final(self).name == old(self).name,
            final(self).source == old(self).source,
            final(self).task == old(self).task,
            final(self).extra == old(self).extra,
    {
        self.triggers.pop()
    }

    /// Removes and returns the trigger at `index`, or nothing where
    /// the index is out of range.
    pub fn remove(&mut self, index: usize) -> (r: Option<TriggerTypes>)
        ensures
            index < old(self).triggers@.len() ==> r == Some(old(self).triggers@[index as int])
                && final(self).triggers@ == old(self).triggers@.remove(index as int),
            index >= old(self).triggers@.len() ==> r is None && final(self).triggers@ == old(
                self,
            ).triggers@,
            final(self).name == old(self).name,
            final(self).source == old(self).source,
            final(self).task == old(self).task,
            final(self).extra == old(self).extra,
    {
        if self.triggers.len() > index {
            Some(self.triggers.remove(index))
        } else {
            None
        }
    }

    /// How many triggers are configured.
    pub fn len(&self) -> (n: usize)
        ensures
            n == self.triggers@.len(),
    {
        self.triggers.len()
    }

    /// Whether no trigger is configured.
    pub fn is_empty(&self) -> (r: bool)
        ensures
            r == (self.triggers@.len() == 0),
    {
        self.len() == 0
    }

    /// Evaluates every trigger against the text, in list order, and
    /// hands each result to every handler, as `spec_check_events`
    /// describes. A logfile with no triggers still delivers exactly
    /// one event per handler, with `did_trigger` false. Fails with
    /// `RegexError` exactly where some pattern does not compile;
    /// handlers have then seen the triggers before it.
    pub fn check<H: EventHandler>(&self, handlers: &mut Vec<H>, text: &str) -> (r: Result<
        (),
        Error,
    >)
        ensures
            delivered(old(handlers)@, final(handlers)@, self.spec_check_events(text@)),
            r is Ok <==> self.triggers_all_ok(),
            r is Err ==> r == Err::<(), Error>(Error::RegexError),
    {
        let ghost evs = self.spec_check_events(text@);
        let n = self.triggers.len();
        if n == 0 {
            let event = Event {
                did_trigger: false,
                trigger: None,
                task: self.task.duplicate(),
                extra: self.extra.duplicate(),
                text: String::from_str(text),
                name: self.name.clone(),
                error: None,
            };
            proof {
                assert(event.rec() == self.ev_none(text@));
                assert(evs =~= seq![event.rec()]);
            }
            let ghost h0 = handlers@;
            dispatch_event(handlers, &event);
            proof {
                assert forall|j: int| 0 <= j < h0.len() implies #[trigger] handlers@[j].events()
                    == h0[j].events() + evs by {
                    assert(h0[j].events().push(event.rec()) =~= h0[j].events() + evs);
                }
            }
            Ok(())
        } else {
            proof {
                lemma_first_bad(self.triggers@);
            }
            let mut k: usize = 0;
            while k < n
                invariant
                    k <= n,
                    n == self.triggers@.len(),
                    handlers@.len() == old(handlers)@.len(),
                    forall|i: int| 0 <= i < k ==> (#[trigger] self.triggers@[i]).spec_ok(),
                    forall|j: int|
                        0 <= j < handlers@.len() ==> #[trigger] handlers@[j].events() == old(
                            handlers,
                        )@[j].events() + Seq::new(k as nat, |i: int| self.ev_at(i, text@)),
                    evs == self.spec_check_events(text@),
                decreases n - k,
            {
                let fires = match self.triggers[k].check(text) {
                    Ok(b) => b,
                    Err(e) => {
                        proof {
                            lemma_first_bad(self.triggers@);
                            let fb = first_bad(self.triggers@);
                            assert(!self.triggers@[k as int].spec_ok());
                            assert(fb == k) by {
                                if fb < k as int {
                                    assert(self.triggers@[fb].spec_ok());
                                }
                            }
                            assert(evs =~= Seq::new(
                                k as nat,
                                |i: int| self.ev_at(i, text@),
                            ));
                            assert(!self.triggers_all_ok());
                        }
                        return Err(e);
                    },
                };
                let event = Event {
                    did_trigger: fires,
                    trigger: Some(self.triggers[k].duplicate()),
                    task: self.task.duplicate(),
                    extra: self.extra.duplicate(),
                    text: String::from_str(text),
                    name: self.name.clone(),
                    error: None,
                };
                proof {
                    assert(event.rec() == self.ev_at(k as int, text@));
                }
                let ghost hpre = handlers@;
                dispatch_event(handlers, &event);
                proof {
                    assert forall|j: int|
                        0 <= j < handlers@.len() implies #[trigger] handlers@[j].events() == old(
                        handlers,
                    )@[j].events() + Seq::new(k as nat + 1, |i: int| self.ev_at(i, text@)) by {
                        assert(handlers@[j].events() == hpre[j].events().push(event.rec()));
                        assert(Seq::new(k as nat + 1, |i: int| self.ev_at(i, text@)) =~= Seq::new(
                            k as nat,
                            |i: int| self.ev_at(i, text@),
                        ).push(self.ev_at(k as int, text@)));
                        assert(old(handlers)@[j].events() + Seq::new(
                            k as nat,
                            |i: int| self.ev_at(i, text@),
                        ).push(self.ev_at(k as int, text@)) =~= (old(handlers)@[j].events()
                            + Seq::new(k as nat, |i: int| self.ev_at(i, text@))).push(
                            self.ev_at(k as int, text@),
                        ));
                    }
                }
                k = k + 1;
            }
            proof {
                lemma_first_bad(self.triggers@);
                let fb = first_bad(self.triggers@);
                assert(fb == n) by {
                    if fb < n as int {
                        assert(self.triggers@[fb].spec_ok());
                    }
                }
                assert(evs =~= Seq::new(n as nat, |i: int| self.ev_at(i, text@)));
            }
            Ok(())
        }
    }

    /// Loads the source's text unconditionally and checks the
    /// triggers against it, as `force_update_rel` describes. A load
    /// failure propagates and no handler is notified.
    pub fn force_update<H: EventHandler>(&mut self, handlers: &mut Vec<H>) -> (r: Result<
        bool,
        Error,
    >)
        ensures
            force_update_rel(*old(self), *final(self), old(handlers)@, final(handlers)@, r),
    {
        let ghost self0 = *self;
        let ghost h0 = handlers@;
        let text = match self.source.load() {
            Ok(t) => t,
            Err(e) => {
                proof {
                    let lr = Err::<String, Error>(e);
                    assert(ds_load_rel(self0.source, self.source, lr));
                }
                return Err(e);
            },
        };
        let ghost lr = Ok::<String, Error>(text);
        let cr = self.check(handlers, text.as_str());
        proof {
            assert(ds_load_rel(self0.source, self.source, lr));
            lemma_check_events_same(*self, self0, text@);
        }
        match cr {
            Ok(()) => Ok(true),
            Err(e) => Err(e),
        }
    }

    /// Checks whether the task is due; where it is not, reports
    /// `Ok(false)` and touches nothing else; where it is, runs
    /// `force_update`. `update_rel` says it all.
    pub fn update<H: EventHandler>(&mut self, handlers: &mut Vec<H>) -> (r: Result<bool, Error>)
        ensures
            update_rel(*old(self), *final(self), old(handlers)@, final(handlers)@, r),
    {
        let fired = self.task.is_due();
        if !fired {
            proof {
                assert(due_step(old(self).task, self.task, false));
            }
            return Ok(false);
        }
        let ghost mid = *self;
        let r = self.force_update(handlers);
        proof {
            assert(mid == Logfile {
                name: old(self).name,
                source: old(self).source,
                triggers: old(self).triggers,
                task: self.task,
                extra: old(self).extra,
            });
            assert(due_step(old(self).task, self.task, true));
        }
        r
    }
}

} // verus!
