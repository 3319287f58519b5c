//! The environment: the values that names are bound to.

use crate::value::{Val, Value};
use vstd::prelude::*;

verus! {

/// The bindings that the first `n` entries make: a later entry overrides an
/// earlier one of the same name.
spec fn bindings(entries: Seq<(String, Value)>, n: int) -> Map<Seq<char>, Val>
    decreases n,
{
    if n <= 0 {
        Map::empty()
    } else {
        bindings(entries, n - 1).insert(entries[n - 1].0@, entries[n - 1].1@)
    }
}

/// A name that none of the first `n` entries holds is not bound by them.
proof fn lemma_unbound(entries: Seq<(String, Value)>, n: int, name: Seq<char>)
    requires
        0 <= n <= entries.len(),
        forall|j: int| 0 <= j < n ==> entries[j].0@ != name,
    ensures
        !bindings(entries, n).dom().contains(name),
    decreases n,
{
    if n > 0 {
        lemma_unbound(entries, n - 1, name);
    }
}

/// A name is bound to the value of the last entry that holds it.
proof fn lemma_bound(entries: Seq<(String, Value)>, n: int, at: int, name: Seq<char>)
    requires
        0 <= at < n <= entries.len(),
        entries[at].0@ == name,
        forall|j: int| at < j < n ==> entries[j].0@ != name,
    ensures
        bindings(entries, n).dom().contains(name),
        bindings(entries, n)[name] == entries[at].1@,
    decreases n,
{
    if n - 1 > at {
        lemma_bound(entries, n - 1, at, name);
    }
}

/// To replace the value of the last entry that holds a name is to bind the
/// name anew.
proof fn lemma_rebound(
    before: Seq<(String, Value)>,
    after: Seq<(String, Value)>,
    n: int,
    at: int,
)
    requires
        0 <= at < n <= before.len(),
        after.len() == before.len(),
        after[at].0@ == before[at].0@,
        forall|j: int| 0 <= j < before.len() && j != at ==> after[j] == before[j],
        forall|j: int| at < j < n ==> before[j].0@ != before[at].0@,
    ensures
        bindings(after, n) == bindings(before, n).insert(before[at].0@, after[at].1@),
    decreases n,
{
    let name = before[at].0@;
    if n - 1 > at {
        lemma_rebound(before, after, n - 1, at);
    } else {
        lemma_same_prefix(before, after, at);
    }
}

/// Entries that agree up to `n` make the same bindings up to `n`.
proof fn lemma_same_prefix(a: Seq<(String, Value)>, b: Seq<(String, Value)>, n: int)
    requires
        0 <= n <= a.len(),
        n <= b.len(),
        forall|j: int| 0 <= j < n ==> a[j].0@ == b[j].0@ && a[j].1@ == b[j].1@,
    ensures
        bindings(a, n) == bindings(b, n),
    decreases n,
{
    if n > 0 {
        lemma_same_prefix(a, b, n - 1);
    }
}

/// A mapping from names to values.
#[derive(Debug)]
pub struct Environment {
    entries: Vec<(String, Value)>,
}

impl View for Environment {
    type V = Map<Seq<char>, Val>;

    closed spec fn view(&self) -> Map<Seq<char>, Val> {
        bindings(self.entries@, self.entries.len() as int)
    }
}

/// The value of a name in an environment: `Null` where it is not bound.
pub open spec fn lookup(env: Map<Seq<char>, Val>, name: Seq<char>) -> Val {
    if env.dom().contains(name) {
        env[name]
    } else {
        Val::Null
    }
}

impl Environment {
    /// The environment that binds nothing.
    pub fn new() -> (r: Environment)
        ensures
            r@ == Map::<Seq<char>, Val>::empty(),
    {
        Environment { entries: Vec::new() }
    }

    /// The place of the last entry that holds the name.
    fn find(&self, name: &String) -> (r: Option<usize>)
        ensures
            match r {
                Some(at) => {
                    &&& at < self.entries.len()
                    &&& self.entries[at as int].0@ == name@
                    &&& forall|j: int| at < j < self.entries.len() ==> self.entries[j].0@ != name@
                },
                None => forall|j: int| 0 <= j < self.entries.len() ==> self.entries[j].0@ != name@,
            },
    {
        let mut i: usize = self.entries.len();
        while i > 0
            invariant
                i <= self.entries.len(),
                forall|j: int| i <= j < self.entries.len() ==> self.entries[j].0@ != name@,
            decreases i,
        {
            i -= 1;
            if self.entries[i].0 == *name {
                return Some(i);
            }
        }
        None
    }

    /// A copy of the value that the name is bound to, if it is bound.
    pub fn get(&self, name: &String) -> (r: Option<Value>)
        ensures
            match r {
                Some(value) => self@.dom().contains(name@) && value@ == self@[name@],
                None => !self@.dom().contains(name@),
            },
    {
        match self.find(name) {
            Some(at) => {
                proof {
                    lemma_bound(self.entries@, self.entries.len() as int, at as int, name@);
                }
                Some(self.entries[at].1.duplicate())
            },
            None => {
                proof {
                    lemma_unbound(self.entries@, self.entries.len() as int, name@);
                }
                None
            },
        }
    }

    /// Binds the name to the value, in place of what it was bound to.
    pub fn insert(&mut self, name: String, value: Value)
        ensures
            final(self)@ == old(self)@.insert(name@, value@),
    {
        match self.find(&name) {
            Some(at) => {
                let ghost before = self.entries@;
                self.entries.set(at, (name, value));
                proof {
                    lemma_rebound(before, self.entries@, before.len() as int, at as int);
                }
            },
            None => {
                let ghost before = self.entries@;
                self.entries.push((name, value));
                proof {
                    lemma_same_prefix(before, self.entries@, before.len() as int);
                }
            },
        }
    }

    /// A copy of the environment.
    pub fn duplicate(&self) -> (r: Environment)
        ensures
            r@ == self@,
    {
        let mut entries: Vec<(String, Value)> = Vec::new();
        let mut i: usize = 0;
        while i < self.entries.len()
            invariant
                i <= self.entries.len(),
                entries.len() == i,
                forall|j: int|
                    0 <= j < i ==> entries[j].0@ == self.entries[j].0@ && entries[j].1@
                        == self.entries[j].1@,
            decreases self.entries.len() - i,
        {
            let name = self.entries[i].0.clone();
            let value = self.entries[i].1.duplicate();
            entries.push((name, value));
            i += 1;
        }
        proof {
            lemma_same_prefix(entries@, self.entries@, i as int);
        }
        Environment { entries }
    }
}

impl Clone for Environment {
    fn clone(&self) -> (r: Environment)
        ensures
            r@ == self@,
    {
        self.duplicate()
    }
}

} // verus!
