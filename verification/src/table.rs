//! A map keyed by text, kept as a list of entries in which no key occurs twice.

use crate::text::same_text;
use vstd::prelude::*;

verus! {

/// Whether entry `i` is the one for `key`.
pub open spec fn keyed_at<V>(entries: Seq<(String, V)>, i: int, key: Seq<char>) -> bool {
    0 <= i < entries.len() && entries[i].0@ == key
}

/// Whether no key occurs twice.
pub open spec fn keys_distinct<V>(entries: Seq<(String, V)>) -> bool {
    forall|i: int, j: int|
        0 <= i < j < entries.len() ==> #[trigger] entries[i].0@ != #[trigger] entries[j].0@
}

/// The map that a list of entries stands for.
pub open spec fn contents<V>(entries: Seq<(String, V)>) -> Map<Seq<char>, V> {
    Map::new(
        |key: Seq<char>| exists|i: int| keyed_at(entries, i, key),
        |key: Seq<char>| entries[choose|i: int| keyed_at(entries, i, key)].1,
    )
}

/// Whether `key` is in a list of texts.
pub open spec fn listed(list: Seq<String>, key: Seq<char>) -> bool {
    exists|i: int| 0 <= i < list.len() && #[trigger] list[i]@ == key
}

/// Whether `key` is in a list of texts.
pub fn contains_text(list: &Vec<String>, key: &str) -> (r: bool)
    ensures
        r == listed(list@, key@),
{
    let mut i: usize = 0;
    while i < list.len()
        invariant
            i <= list.len(),
            forall|j: int| 0 <= j < i ==> #[trigger] list@[j]@ != key@,
        decreases list.len() - i,
    {
        if same_text(list[i].as_str(), key) {
            return true;
        }
        i += 1;
    }
    false
}

proof fn lemma_entry<V>(entries: Seq<(String, V)>, i: int)
    requires
        keys_distinct(entries),
        0 <= i < entries.len(),
    ensures
        contents(entries).contains_key(entries[i].0@),
        contents(entries)[entries[i].0@] == entries[i].1,
{
    let key = entries[i].0@;
    assert(keyed_at(entries, i, key));
    let k = choose|k: int| keyed_at(entries, k, key);
    if k < i {
        assert(entries[k].0@ != entries[i].0@);
    } else if i < k {
        assert(entries[i].0@ != entries[k].0@);
    }
}

proof fn lemma_push<V>(entries: Seq<(String, V)>, key: String, value: V)
    requires
        keys_distinct(entries),
        forall|i: int| 0 <= i < entries.len() ==> #[trigger] entries[i].0@ != key@,
    ensures
        keys_distinct(entries.push((key, value))),
        contents(entries.push((key, value))) == contents(entries).insert(key@, value),
{
    let grown = entries.push((key, value));
    assert(keys_distinct(grown));
    lemma_entry(grown, entries.len() as int);
    assert forall|k: Seq<char>| contents(grown).contains_key(k) == contents(entries).insert(
        key@,
        value,
    ).contains_key(k) by {
        if contents(grown).contains_key(k) {
            let i = choose|i: int| keyed_at(grown, i, k);
            if i < entries.len() {
                assert(keyed_at(entries, i, k));
            }
        }
        if contents(entries).contains_key(k) {
            let i = choose|i: int| keyed_at(entries, i, k);
            assert(keyed_at(grown, i, k));
        }
    }
    assert forall|k: Seq<char>| #[trigger]
        contents(grown).contains_key(k) implies contents(grown)[k] == contents(entries).insert(
        key@,
        value,
    )[k] by {
        let i = choose|i: int| keyed_at(grown, i, k);
        lemma_entry(grown, i);
        if i < entries.len() {
            lemma_entry(entries, i);
        }
    }
    assert(contents(grown) =~= contents(entries).insert(key@, value));
}

proof fn lemma_remove<V>(entries: Seq<(String, V)>, at: int)
    requires
        keys_distinct(entries),
        0 <= at < entries.len(),
    ensures
        keys_distinct(entries.remove(at)),
        contents(entries.remove(at)) == contents(entries).remove(entries[at].0@),
{
    let rest = entries.remove(at);
    let gone = entries[at].0@;
    assert forall|i: int, j: int| 0 <= i < j < rest.len() implies #[trigger] rest[i].0@
        != #[trigger] rest[j].0@ by {
        let a = if i < at { i } else { i + 1 };
        let b = if j < at { j } else { j + 1 };
        assert(entries[a].0@ != entries[b].0@);
    }
    assert forall|k: Seq<char>| #[trigger] contents(rest).contains_key(k) == contents(
        entries,
    ).remove(gone).contains_key(k) by {
        if contents(rest).contains_key(k) {
            let i = choose|i: int| keyed_at(rest, i, k);
            let a = if i < at { i } else { i + 1 };
            assert(keyed_at(entries, a, k));
            if k == gone {
                if a < at {
                    assert(entries[a].0@ != entries[at].0@);
                } else {
                    assert(entries[at].0@ != entries[a].0@);
                }
            }
        }
        if contents(entries).remove(gone).contains_key(k) {
            let i = choose|i: int| keyed_at(entries, i, k);
            let b = if i < at { i } else { i - 1 };
            assert(keyed_at(rest, b, k));
        }
    }
    assert forall|k: Seq<char>| #[trigger]
        contents(rest).contains_key(k) implies contents(rest)[k] == contents(entries).remove(
        gone,
    )[k] by {
        let i = choose|i: int| keyed_at(rest, i, k);
        let a = if i < at { i } else { i + 1 };
        lemma_entry(rest, i);
        lemma_entry(entries, a);
    }
    assert(contents(rest) =~= contents(entries).remove(gone));
}

/// A map from texts to values.
#[derive(Debug)]
pub struct Table<V> {
    entries: Vec<(String, V)>,
}

impl<V> View for Table<V> {
    type V = Map<Seq<char>, V>;

    closed spec fn view(&self) -> Map<Seq<char>, V> {
        contents(self.entries@)
    }
}

impl<V> Table<V> {
    #[verifier::type_invariant]
    closed spec fn distinct(self) -> bool {
        keys_distinct(self.entries@)
    }

    pub fn new() -> (r: Self)
        ensures
            r@ == Map::<Seq<char>, V>::empty(),
    {
        let r: Table<V> = Table { entries: Vec::new() };
        assert(r@ =~= Map::<Seq<char>, V>::empty());
        r
    }

    fn find(&self, key: &str) -> (r: Option<usize>)
        ensures
            match r {
                Some(i) => {
                    &&& i < self.entries@.len()
                    &&& self.entries@[i as int].0@ == key@
                    &&& self@.contains_key(key@)
                    &&& self@[key@] == self.entries@[i as int].1
                },
                None => {
                    &&& !self@.contains_key(key@)
                    &&& forall|i: int| 0 <= i < self.entries@.len() ==> #[trigger] self.entries@[i].0@ != key@
                },
            },
    {
        proof {
            use_type_invariant(self);
        }
        let mut i: usize = 0;
        while i < self.entries.len()
            invariant
                i <= self.entries@.len(),
                keys_distinct(self.entries@),
                forall|j: int| 0 <= j < i ==> #[trigger] self.entries@[j].0@ != key@,
            decreases self.entries@.len() - i,
        {
            if same_text(self.entries[i].0.as_str(), key) {
                proof {
                    lemma_entry(self.entries@, i as int);
                }
                return Some(i);
            }
            i += 1;
        }
        None
    }

    /// The value kept under `key`.
    pub fn get(&self, key: &str) -> (r: Option<&V>)
        ensures
            match r {
                Some(value) => self@.contains_key(key@) && *value == self@[key@],
                None => !self@.contains_key(key@),
            },
    {
        match self.find(key) {
            Some(i) => Some(&self.entries[i].1),
            None => None,
        }
    }

    pub fn contains(&self, key: &str) -> (r: bool)
        ensures
            r == self@.contains_key(key@),
    {
        self.find(key).is_some()
    }

    /// Keeps `value` under `key`, in place of what was kept there.
    pub fn insert(&mut self, key: String, value: V)
        ensures
            final(self)@ == old(self)@.insert(key@, value),
    {
        proof {
            use_type_invariant(&*self);
        }
        let found: Option<usize> = self.find(key.as_str());
        let mut entries: Vec<(String, V)> = Vec::new();
        std::mem::swap(&mut entries, &mut self.entries);
        let ghost before = entries@;
        if let Some(i) = found {
            entries.remove(i);
            proof {
                lemma_remove(before, i as int);
            }
        }
        proof {
            if found is Some {
                let i = found->0 as int;
                assert forall|j: int| 0 <= j < entries@.len() implies #[trigger] entries@[j].0@
                    != key@ by {
                    let a = if j < i { j } else { j + 1 };
                    if a < i {
                        assert(before[a].0@ != before[i].0@);
                    } else {
                        assert(before[i].0@ != before[a].0@);
                    }
                }
            }
            lemma_push(entries@, key, value);
            assert(contents(before).remove(key@).insert(key@, value) =~= contents(before).insert(
                key@,
                value,
            ));
        }
        entries.push((key, value));
        self.entries = entries;
    }

    /// Drops what is kept under `key`; says whether there was anything.
    pub fn remove(&mut self, key: &str) -> (r: bool)
        ensures
            r == old(self)@.contains_key(key@),
            final(self)@ == old(self)@.remove(key@),
    {
        proof {
            use_type_invariant(&*self);
        }
        match self.find(key) {
            Some(i) => {
                let mut entries: Vec<(String, V)> = Vec::new();
                std::mem::swap(&mut entries, &mut self.entries);
                proof {
                    lemma_remove(entries@, i as int);
                }
                entries.remove(i);
                self.entries = entries;
                true
            },
            None => {
                assert(self@ =~= self@.remove(key@));
                false
            },
        }
    }

    /// Drops what is kept under keys that `keep` does not list.
    pub fn retain(&mut self, keep: &Vec<String>)
        ensures
            final(self)@ == old(self)@.restrict(Set::new(|k: Seq<char>| listed(keep@, k))),
    {
        proof {
            use_type_invariant(&*self);
        }
        let mut entries: Vec<(String, V)> = Vec::new();
        std::mem::swap(&mut entries, &mut self.entries);
        let ghost before = contents(entries@);
        let mut i: usize = 0;
        while i < entries.len()
            invariant
                i <= entries@.len(),
                keys_distinct(entries@),
                contents(entries@).submap_of(before),
                forall|k: Seq<char>| #[trigger]
                    before.contains_key(k) && listed(keep@, k) ==> contents(entries@).contains_key(
                        k,
                    ),
                forall|j: int| 0 <= j < i ==> listed(keep@, #[trigger] entries@[j].0@),
            decreases entries@.len() - i,
        {
            if contains_text(keep, entries[i].0.as_str()) {
                i += 1;
            } else {
                proof {
                    lemma_remove(entries@, i as int);
                }
                entries.remove(i);
            }
        }
        proof {
            let kept = before.restrict(Set::new(|k: Seq<char>| listed(keep@, k)));
            assert forall|k: Seq<char>| #[trigger]
                contents(entries@).contains_key(k) implies listed(keep@, k) by {
                let j = choose|j: int| keyed_at(entries@, j, k);
                assert(listed(keep@, entries@[j].0@));
            }
            assert(contents(entries@) =~= kept);
        }
        self.entries = entries;
    }

    /// The keys, each once.
    pub fn keys(&self) -> (r: Vec<String>)
        ensures
            forall|k: Seq<char>| listed(r@, k) == #[trigger] self@.contains_key(k),
            forall|i: int, j: int| 0 <= i < j < r@.len() ==> #[trigger] r@[i]@ != #[trigger] r@[j]@,
    {
        proof {
            use_type_invariant(self);
        }
        let mut r: Vec<String> = Vec::new();
        let mut i: usize = 0;
        while i < self.entries.len()
            invariant
                i == r@.len(),
                i <= self.entries@.len(),
                forall|j: int| 0 <= j < i ==> #[trigger] r@[j]@ == self.entries@[j].0@,
            decreases self.entries@.len() - i,
        {
            r.push(self.entries[i].0.clone());
            i += 1;
        }
        proof {
            assert forall|k: Seq<char>| listed(r@, k) == #[trigger] self@.contains_key(k) by {
                if listed(r@, k) {
                    let j = choose|j: int| 0 <= j < r@.len() && #[trigger] r@[j]@ == k;
                    assert(keyed_at(self.entries@, j, k));
                }
                if self@.contains_key(k) {
                    let j = choose|j: int| keyed_at(self.entries@, j, k);
                    assert(r@[j]@ == k);
                }
            }
            assert forall|a: int, b: int| 0 <= a < b < r@.len() implies #[trigger] r@[a]@
                != #[trigger] r@[b]@ by {
                assert(self.entries@[a].0@ != self.entries@[b].0@);
            }
        }
        r
    }
}

}
