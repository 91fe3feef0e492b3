use vstd::prelude::*;
use crate::error::Error;
use crate::extra::ExtraData;
use crate::logfile::{
    delivered, dispatch_event, err_rec, force_update_rel, update_rel, Event, EventHandler,
    EventRec, Logfile,
};

verus! {

/// What one batch step does to one logfile and its handler list: the
/// logfile is updated as `update_rel` describes; a failure is not
/// propagated but turned into one extra event, carrying the error,
/// for each of that logfile's handlers.
pub open spec fn batch_update_rel<H: EventHandler>(
    lf1: Logfile,
    lf2: Logfile,
    h1: Seq<H>,
    h2: Seq<H>,
) -> bool {
    exists|r: Result<bool, Error>, hmid: Seq<H>|
        #[trigger] update_rel(lf1, lf2, h1, hmid, r) && match r {
            Ok(_) => h2 == hmid,
            Err(e) => delivered(hmid, h2, seq![err_rec(lf2, e)]),
        }
}

/// As `batch_update_rel`, but loading unconditionally.
pub open spec fn batch_force_rel<H: EventHandler>(
    lf1: Logfile,
    lf2: Logfile,
    h1: Seq<H>,
    h2: Seq<H>,
) -> bool {
    exists|r: Result<bool, Error>, hmid: Seq<H>|
        #[trigger] force_update_rel(lf1, lf2, h1, hmid, r) && match r {
            Ok(_) => h2 == hmid,
            Err(e) => delivered(hmid, h2, seq![err_rec(lf2, e)]),
        }
}

/// The ordered collection of all monitored logfiles. Its length
/// changes only through `push`, `pop` and `remove`; batch updates
/// keep every index in place, so state a caller holds per logfile
/// stays aligned.
pub struct LogSet {
    pub logs: Vec<Logfile>,
}

impl LogSet {
    /// An empty set.
    pub fn new() -> (r: Self)
        ensures
            r.logs@.len() == 0,
    {
        Self { logs: Vec::new() }
    }

    /// Appends a logfile at the end.
    pub fn push(&mut self, logfile: Logfile)
        ensures
            final(self).logs@ == old(self).logs@.push(logfile),
    {
        self.logs.push(logfile);
    }

    /// Removes and returns the most recently appended logfile.
    pub fn pop(&mut self) -> (r: Option<Logfile>)
        ensures
            old(self).logs@.len() > 0 ==> r == Some(old(self).logs@.last()) && final(self).logs@
                == old(self).logs@.drop_last(),
            old(self).logs@.len() == 0 ==> r is None && final(self).logs@ == old(self).logs@,
    {
        self.logs.pop()
    }

    /// Removes and returns the logfile at `index`, or nothing where
    /// the index is out of range.
    pub fn remove(&mut self, index: usize) -> (r: Option<Logfile>)
        ensures
            index < old(self).logs@.len() ==> r == Some(old(self).logs@[index as int])
                && final(self).logs@ == old(self).logs@.remove(index as int),
            index >= old(self).logs@.len() ==> r is None && final(self).logs@ == old(self).logs@,
    {
        if self.logs.len() > index {
            Some(self.logs.remove(index))
        } else {
            None
        }
    }

    /// How many logfiles the set holds.
    pub fn len(&self) -> (n: usize)
        ensures
            n == self.logs@.len(),
    {
        self.logs.len()
    }

    /// Whether the set is empty.
    pub fn is_empty(&self) -> (r: bool)
        ensures
            r == (self.logs@.len() == 0),
    {
        self.len() == 0
    }

    /// Updates every logfile in order, each with its own handler list
    /// (`handlers[i]` belongs to `logs[i]`). One logfile's failure
    /// does not stop the batch: it is delivered to that logfile's own
    /// handlers as an event carrying the error.
    pub fn update<H: EventHandler>(&mut self, handlers: &mut Vec<Vec<H>>) -> (r: Result<
        bool,
        Error,
    >)
        requires
            old(handlers)@.len() == old(self).logs@.len(),
        ensures
            final(self).logs@.len() == old(self).logs@.len(),
            final(handlers)@.len() == old(handlers)@.len(),
            r == Ok::<bool, Error>(true),
            forall|i: int|
                0 <= i < old(self).logs@.len() ==> #[trigger] batch_update_rel(
                    old(self).logs@[i],
                    final(self).logs@[i],
                    old(handlers)@[i]@,
                    final(handlers)@[i]@,
                ),
    {
        let n = self.logs.len();
        let mut i: usize = 0;
        while i < n
            invariant
                i <= n,
                n == self.logs@.len(),
                self.logs@.len() == old(self).logs@.len(),
                handlers@.len() == old(handlers)@.len(),
                old(handlers)@.len() == old(self).logs@.len(),
                forall|j: int|
                    0 <= j < i ==> #[trigger] batch_update_rel(
                        old(self).logs@[j],
                        self.logs@[j],
                        old(handlers)@[j]@,
                        handlers@[j]@,
                    ),
                forall|j: int|
                    i <= j < n ==> self.logs@[j] == old(self).logs@[j] && handlers@[j] == old(
                        handlers,
                    )@[j],
            decreases n - i,
        {
            let ghost logs0 = self.logs@;
            let ghost hs0 = handlers@;
            let ri = self.logs[i].update(&mut handlers[i]);
            let ghost hmid = handlers@[i as int]@;
            match ri {
                Ok(_) => {},
                Err(e) => {
                    let event = Event {
                        did_trigger: false,
                        trigger: None,
                        task: self.logs[i].task.duplicate(),
                        extra: self.logs[i].extra.duplicate(),
                        text: String::new(),
                        name: self.logs[i].name.clone(),
                        error: Some(e),
                    };
                    proof {
                        assert(event.rec() == err_rec(self.logs@[i as int], e));
                    }
                    let ghost hpre = handlers@[i as int]@;
                    dispatch_event(&mut handlers[i], &event);
                    proof {
                        assert forall|j: int|
                            0 <= j < hpre.len() implies #[trigger] handlers@[i as int]@[j].events()
                            == hpre[j].events() + seq![err_rec(self.logs@[i as int], e)] by {
                            assert(handlers@[i as int]@[j].events() == hpre[j].events().push(
                                event.rec(),
                            ));
                            assert(hpre[j].events().push(event.rec()) =~= hpre[j].events()
                                + seq![event.rec()]);
                        }
                    }
                },
            }
            proof {
                assert(batch_update_rel(
                    old(self).logs@[i as int],
                    self.logs@[i as int],
                    old(handlers)@[i as int]@,
                    handlers@[i as int]@,
                )) by {
                    assert(update_rel(
                        old(self).logs@[i as int],
                        self.logs@[i as int],
                        old(handlers)@[i as int]@,
                        hmid,
                        ri,
                    ));
                }
            }
            proof {
                assert forall|j: int|
                    i as int + 1 <= j < n implies self.logs@[j] == old(self).logs@[j]
                    && handlers@[j] == old(handlers)@[j] by {
                    assert(logs0[j] == old(self).logs@[j]);
                    assert(hs0[j] == old(handlers)@[j]);
                }
            }
            i = i + 1;
        }
        Ok(true)
    }

    /// As `update`, but every logfile loads unconditionally.
    pub fn force_update<H: EventHandler>(&mut self, handlers: &mut Vec<Vec<H>>) -> (r: Result<
        bool,
        Error,
    >)
        requires
            old(handlers)@.len() == old(self).logs@.len(),
        ensures
            final(self).logs@.len() == old(self).logs@.len(),
            final(handlers)@.len() == old(handlers)@.len(),
            r == Ok::<bool, Error>(true),
            forall|i: int|
                0 <= i < old(self).logs@.len() ==> #[trigger] batch_force_rel(
                    old(self).logs@[i],
                    final(self).logs@[i],
                    old(handlers)@[i]@,
                    final(handlers)@[i]@,
                ),
    {
        let n = self.logs.len();
        let mut i: usize = 0;
        while i < n
            invariant
                i <= n,
                n == self.logs@.len(),
                self.logs@.len() == old(self).logs@.len(),
                handlers@.len() == old(handlers)@.len(),
                old(handlers)@.len() == old(self).logs@.len(),
                forall|j: int|
                    0 <= j < i ==> #[trigger] batch_force_rel(
                        old(self).logs@[j],
                        self.logs@[j],
                        old(handlers)@[j]@,
                        handlers@[j]@,
                    ),
                forall|j: int|
                    i <= j < n ==> self.logs@[j] == old(self).logs@[j] && handlers@[j] == old(
                        handlers,
                    )@[j],
            decreases n - i,
        {
            let ghost logs0 = self.logs@;
            let ghost hs0 = handlers@;
            let ri = self.logs[i].force_update(&mut handlers[i]);
            let ghost hmid = handlers@[i as int]@;
            match ri {
                Ok(_) => {},
                Err(e) => {
                    let event = Event {
                        did_trigger: false,
                        trigger: None,
                        task: self.logs[i].task.duplicate(),
                        extra: self.logs[i].extra.duplicate(),
                        text: String::new(),
                        name: self.logs[i].name.clone(),
                        error: Some(e),
                    };
                    proof {
                        assert(event.rec() == err_rec(self.logs@[i as int], e));
                    }
                    let ghost hpre = handlers@[i as int]@;
                    dispatch_event(&mut handlers[i], &event);
                    proof {
                        assert forall|j: int|
                            0 <= j < hpre.len() implies #[trigger] handlers@[i as int]@[j].events()
                            == hpre[j].events() + seq![err_rec(self.logs@[i as int], e)] by {
                            assert(handlers@[i as int]@[j].events() == hpre[j].events().push(
                                event.rec(),
                            ));
                            assert(hpre[j].events().push(event.rec()) =~= hpre[j].events()
                                + seq![event.rec()]);
                        }
                    }
                },
            }
            proof {
                assert(batch_force_rel(
                    old(self).logs@[i as int],
                    self.logs@[i as int],
                    old(handlers)@[i as int]@,
                    handlers@[i as int]@,
                )) by {
                    assert(force_update_rel(
                        old(self).logs@[i as int],
                        self.logs@[i as int],
                        old(handlers)@[i as int]@,
                        hmid,
                        ri,
                    ));
                }
            }
            proof {
                assert forall|j: int|
                    i as int + 1 <= j < n implies self.logs@[j] == old(self).logs@[j]
                    && handlers@[j] == old(handlers)@[j] by {
                    assert(logs0[j] == old(self).logs@[j]);
                    assert(hs0[j] == old(handlers)@[j]);
                }
            }
            i = i + 1;
        }
        Ok(true)
    }
}

} // verus!
