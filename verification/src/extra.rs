use vstd::prelude::*;
use crate::error::Error;
use crate::text::str_eq;

verus! {

/// What a name is bound to among the entries: the value of the newest
/// entry carrying that name, or nothing.
pub open spec fn spec_get(entries: Seq<(String, String)>, name: Seq<char>) -> Option<Seq<char>>
    decreases entries.len(),
{
    if entries.len() == 0 {
        None
    } else if entries.last().0@ == name {
        Some(entries.last().1@)
    } else {
        spec_get(entries.drop_last(), name)
    }
}

/// A string-keyed string store. Event handlers stash their own
/// serialized state here without the engine knowing its shape.
#[derive(Clone)]
pub struct ExtraData {
    pub data: Vec<(String, String)>,
}

impl ExtraData {
    /// What `name` is bound to.
    pub open spec fn map_get(self, name: Seq<char>) -> Option<Seq<char>> {
        spec_get(self.data@, name)
    }

    /// The entries, newest binding last.
    pub open spec fn spec_entries(self) -> Seq<(String, String)> {
        self.data@
    }

    /// An empty store.
    pub fn new() -> (r: Self)
        ensures
            forall|k: Seq<char>| #[trigger] r.map_get(k) == None::<Seq<char>>,
            r.spec_entries().len() == 0,
    {
        Self { data: Vec::new() }
    }

    /// A store with the same bindings.
    pub fn duplicate(&self) -> (r: Self)
        ensures
            r.spec_entries() == self.spec_entries(),
    {
        let mut out: Vec<(String, String)> = Vec::new();
        let mut i: usize = 0;
        while i < self.data.len()
            invariant
                i <= self.data@.len(),
                out@ =~= self.data@.subrange(0, i as int),
            decreases self.data@.len() - i,
        {
            let p = &self.data[i];
            out.push((p.0.clone(), p.1.clone()));
            i = i + 1;
        }
        proof {
            assert(out@ =~= self.data@);
        }
        Self { data: out }
    }

    /// Drops every entry bound to `name`; other bindings stay.
    pub fn remove(&mut self, name: &str)
        ensures
            final(self).map_get(name@) == None::<Seq<char>>,
            forall|k: Seq<char>|
                k != name@ ==> #[trigger] final(self).map_get(k) == old(self).map_get(k),
    {
        let ghost e0 = self.data@;
        let mut kept: Vec<(String, String)> = Vec::new();
        let mut i: usize = 0;
        proof {
            assert(e0.subrange(0, 0) =~= Seq::<(String, String)>::empty());
        }
        while i < self.data.len()
            invariant
                i <= e0.len(),
                self.data@ == e0,
                spec_get(kept@, name@) == None::<Seq<char>>,
                forall|k: Seq<char>|
                    k != name@ ==> #[trigger] spec_get(kept@, k) == spec_get(
                        e0.subrange(0, i as int),
                        k,
                    ),
            decreases e0.len() - i,
        {
            let ghost kept0 = kept@;
            let p = &self.data[i];
            let keep = !str_eq(p.0.as_str(), name);
            if keep {
                kept.push((p.0.clone(), p.1.clone()));
            }
            proof {
                let pre = e0.subrange(0, i as int);
                let cur = e0.subrange(0, i as int + 1);
                assert(cur.drop_last() =~= pre);
                assert(cur.last() == e0[i as int]);
                if keep {
                    assert(kept@.drop_last() =~= kept0);
                    assert(kept@.last().0@ == e0[i as int].0@);
                    assert(kept@.last().1@ == e0[i as int].1@);
                    assert(spec_get(kept@, name@) == None::<Seq<char>>);
                    assert forall|k: Seq<char>| k != name@ implies #[trigger] spec_get(kept@, k)
                        == spec_get(cur, k) by {
                        if e0[i as int].0@ == k {
                            assert(spec_get(kept@, k) == Some(e0[i as int].1@));
                            assert(spec_get(cur, k) == Some(e0[i as int].1@));
                        } else {
                            assert(spec_get(kept@, k) == spec_get(kept0, k));
                            assert(spec_get(cur, k) == spec_get(pre, k));
                        }
                    }
                } else {
                    assert(e0[i as int].0@ == name@);
                    assert forall|k: Seq<char>| k != name@ implies #[trigger] spec_get(kept@, k)
                        == spec_get(cur, k) by {
                        assert(spec_get(cur, k) == spec_get(pre, k));
                    }
                }
            }
            i = i + 1;
        }
        proof {
            assert(e0.subrange(0, e0.len() as int) =~= e0);
        }
        self.data = kept;
    }

    /// Binds `name` to `data`, replacing any earlier binding.
    pub fn put(&mut self, name: &str, data: &str)
        ensures
            final(self).map_get(name@) == Some(data@),
            forall|k: Seq<char>|
                k != name@ ==> #[trigger] final(self).map_get(k) == old(self).map_get(k),
    {
        self.remove(name);
        let ghost midself = *self;
        let ghost mid = self.data@;
        self.data.push((String::from_str(name), String::from_str(data)));
        proof {
            assert(self.data@.drop_last() =~= mid);
            assert(self.data@.last().0@ == name@);
            assert(self.data@.last().1@ == data@);
            assert forall|k: Seq<char>| k != name@ implies #[trigger] spec_get(self.data@, k)
                == old(self).map_get(k) by {
                assert(self.data@.last().0@ != k);
                assert(spec_get(self.data@, k) == spec_get(mid, k));
                assert(midself.map_get(k) == old(self).map_get(k));
            }
        }
    }

    /// The value bound to `name`, or `UndefinedExtraData` where the
    /// name was never stored.
    pub fn get(&self, name: &str) -> (r: Result<String, Error>)
        ensures
            (match self.map_get(name@) {
                Some(v) => r matches Ok(s) && s@ == v,
                None => r == Err::<String, Error>(Error::UndefinedExtraData),
            }),
    {
        let mut i: usize = self.data.len();
        proof {
            assert(self.data@.subrange(0, self.data@.len() as int) =~= self.data@);
        }
        while i > 0
            invariant
                i <= self.data@.len(),
                spec_get(self.data@, name@) == spec_get(self.data@.subrange(0, i as int), name@),
            decreases i,
        {
            i = i - 1;
            let p = &self.data[i];
            proof {
                let cur = self.data@.subrange(0, i as int + 1);
                assert(cur.drop_last() =~= self.data@.subrange(0, i as int));
                assert(cur.last() == self.data@[i as int]);
            }
            if str_eq(p.0.as_str(), name) {
                return Ok(p.1.clone());
            }
        }
        proof {
            assert(self.data@.subrange(0, 0) =~= Seq::<(String, String)>::empty());
        }
        Err(Error::UndefinedExtraData)
    }

    /// Whether `name` is bound.
    pub fn contains_key(&self, name: &str) -> (r: bool)
        ensures
            r == (self.map_get(name@) is Some),
    {
        match self.get(name) {
            Ok(_) => true,
            Err(_) => false,
        }
    }

    /// How many entries the store holds.
    pub fn len(&self) -> (n: usize)
        ensures
            n == self.spec_entries().len(),
    {
        self.data.len()
    }
}

} // verus!
