//! Resolved settings of a style: a finite mapping from install key to value.

use vstd::prelude::*;

verus! {

/// One resolved setting.
#[derive(Clone, Debug)]
pub struct Entry {
    pub key: String,
    pub value: String,
}

/// A mapping from install key to resolved value, kept in the order in which the
/// keys were first inserted. No key occurs twice.
#[derive(Clone, Debug)]
pub struct Settings {
    entries: Vec<Entry>,
}

/// Whether `entries[at]` is an entry for `key`.
pub open spec fn holds_key(entries: Seq<Entry>, key: Seq<char>, at: int) -> bool {
    0 <= at < entries.len() && entries[at].key@ == key
}

impl Settings {
    /// The entries, in insertion order.
    pub closed spec fn entries(&self) -> Seq<Entry> {
        self.entries@
    }

    /// No key occurs twice.
    pub open spec fn wf(&self) -> bool {
        forall|i: int, j: int|
            0 <= i < j < self.entries().len() ==> self.entries()[i].key@ != self.entries()[j].key@
    }

    /// The mapping that the entries stand for.
    pub open spec fn view(&self) -> Map<Seq<char>, Seq<char>> {
        Map::new(
            |key: Seq<char>| exists|at: int| holds_key(self.entries(), key, at),
            |key: Seq<char>| self.entries()[choose|at: int| holds_key(self.entries(), key, at)].value@,
        )
    }

    /// The empty mapping.
    pub fn new() -> (settings: Settings)
        ensures
            settings.wf(),
            settings@ == Map::<Seq<char>, Seq<char>>::empty(),
            settings.entries().len() == 0,
    {
        let settings = Settings { entries: Vec::new() };
        proof {
            assert(settings@ =~= Map::<Seq<char>, Seq<char>>::empty());
        }
        settings
    }

    /// The number of keys.
    pub fn len(&self) -> (n: usize)
        ensures
            n == self.entries().len(),
    {
        self.entries.len()
    }

    /// The entry at position `at` of the insertion order.
    pub fn entry(&self, at: usize) -> (entry: &Entry)
        requires
            at < self.entries().len(),
        ensures
            *entry == self.entries()[at as int],
    {
        &self.entries[at]
    }

    fn position(&self, key: &str) -> (found: Option<usize>)
        ensures
            match found {
                Some(at) => holds_key(self.entries(), key@, at as int),
                None => forall|at: int| !holds_key(self.entries(), key@, at),
            },
    {
        let wanted = key.to_owned();
        let mut at: usize = 0;
        while at < self.entries.len()
            invariant
                at <= self.entries@.len(),
                wanted@ == key@,
                forall|earlier: int| 0 <= earlier < at ==> self.entries@[earlier].key@ != key@,
            decreases self.entries@.len() - at,
        {
            if self.entries[at].key == wanted {
                return Some(at);
            }
            at += 1;
        }
        None
    }

    /// The value stored under `key`, if there is one.
    pub fn get(&self, key: &str) -> (value: Option<String>)
        requires
            self.wf(),
        ensures
            match value {
                Some(text) => self@.contains_key(key@) && self@[key@] == text@,
                None => !self@.contains_key(key@),
            },
    {
        match self.position(key) {
            Some(at) => {
                proof {
                    self.lemma_value_at(key@, at as int);
                }
                Some(self.entries[at].value.clone())
            },
            None => None,
        }
    }

    /// Stores `value` under `key`, in place of the value that was there, if any.
    pub fn insert(&mut self, key: String, value: String)
        requires
            old(self).wf(),
        ensures
            final(self).wf(),
            final(self)@ == old(self)@.insert(key@, value@),
            final(self).entries().len() == if old(self)@.contains_key(key@) {
                old(self).entries().len()
            } else {
                old(self).entries().len() + 1
            },
    {
        let found = self.position(key.as_str());
        let ghost before = *self;
        match found {
            Some(at) => {
                self.entries.set(at, Entry { key, value });
                proof {
                    assert(self.entries() =~= before.entries().update(
                        at as int,
                        Entry { key, value },
                    ));
                    lemma_insert(before, *self, key@, value@, at as int);
                }
            },
            None => {
                self.entries.push(Entry { key, value });
                proof {
                    let last = before.entries().len() as int;
                    assert(self.entries() =~= before.entries().push(Entry { key, value }));
                    assert forall|i: int, j: int| 0 <= i < j < self.entries().len() implies self.entries()[i].key@
                        != self.entries()[j].key@ by {
                        if j == last {
                            assert(!holds_key(before.entries(), key@, i));
                        }
                    }
                    lemma_insert(before, *self, key@, value@, last);
                }
            },
        }
    }

    /// The value of the mapping at a key is the value of the entry that holds it.
    pub proof fn lemma_value_at(&self, key: Seq<char>, at: int)
        requires
            self.wf(),
            holds_key(self.entries(), key, at),
        ensures
            self@.contains_key(key),
            self@[key] == self.entries()[at].value@,
    {
        let chosen = choose|i: int| holds_key(self.entries(), key, i);
        assert(holds_key(self.entries(), key, chosen));
        if chosen < at {
            assert(self.entries()[chosen].key@ != self.entries()[at].key@);
        }
        if at < chosen {
            assert(self.entries()[at].key@ != self.entries()[chosen].key@);
        }
    }
}

/// Writing an entry for `key` at position `at`, where the entries at the other
/// positions stay, inserts `key` into the mapping.
proof fn lemma_insert(before: Settings, after: Settings, key: Seq<char>, value: Seq<char>, at: int)
    requires
        before.wf(),
        after.wf(),
        0 <= at < after.entries().len(),
        before.entries().len() <= after.entries().len(),
        after.entries()[at].key@ == key,
        after.entries()[at].value@ == value,
        forall|i: int|
            0 <= i < after.entries().len() && i != at ==> i < before.entries().len()
                && after.entries()[i] == before.entries()[i],
        at < before.entries().len() ==> before.entries()[at].key@ == key,
    ensures
        after@ == before@.insert(key, value),
{
    let wanted = before@.insert(key, value);
    assert forall|k: Seq<char>| #[trigger] after@.contains_key(k) implies wanted.contains_key(k)
        && after@[k] == wanted[k] by {
        let i = choose|i: int| holds_key(after.entries(), k, i);
        after.lemma_value_at(k, i);
        if i != at {
            assert(holds_key(before.entries(), k, i));
            before.lemma_value_at(k, i);
        }
    }
    assert forall|k: Seq<char>| #[trigger] wanted.contains_key(k) implies after@.contains_key(k) by {
        if k == key {
            assert(holds_key(after.entries(), k, at));
        } else {
            let i = choose|i: int| holds_key(before.entries(), k, i);
            assert(holds_key(before.entries(), k, i));
            assert(i != at);
            assert(holds_key(after.entries(), k, i));
        }
    }
    assert(after@ =~= wanted);
}

} // verus!
