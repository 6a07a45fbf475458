//! A set of exchange and instrument pairs, kept as a list in which no pair occurs
//! twice.

use crate::ownership::{key_of, position_key};
use crate::table::{contains_text, listed};
use crate::text::same_text;
use vstd::prelude::*;

verus! {

/// The characters of a pair.
pub open spec fn pair_view(pair: (String, String)) -> (Seq<char>, Seq<char>) {
    (pair.0@, pair.1@)
}

/// The characters of pairs.
pub open spec fn pair_views(pairs: Seq<(String, String)>) -> Seq<(Seq<char>, Seq<char>)> {
    pairs.map_values(|pair: (String, String)| pair_view(pair))
}

/// Whether no pair occurs twice.
pub open spec fn pairs_distinct(pairs: Seq<(String, String)>) -> bool {
    forall|i: int, j: int|
        0 <= i < j < pairs.len() ==> pair_view(#[trigger] pairs[i]) != pair_view(
            #[trigger] pairs[j],
        )
}

/// Whether a pair is at place `i` of a list.
pub open spec fn pair_at(
    pairs: Seq<(String, String)>,
    i: int,
    pair: (Seq<char>, Seq<char>),
) -> bool {
    0 <= i < pairs.len() && pair_view(pairs[i]) == pair
}

/// The set that a list of pairs stands for.
pub open spec fn pair_set(pairs: Seq<(String, String)>) -> Set<(Seq<char>, Seq<char>)> {
    Set::new(|pair: (Seq<char>, Seq<char>)| exists|i: int| pair_at(pairs, i, pair))
}

/// A set of exchange and instrument pairs.
#[derive(Debug)]
pub struct Pairs {
    items: Vec<(String, String)>,
}

impl View for Pairs {
    type V = Set<(Seq<char>, Seq<char>)>;

    closed spec fn view(&self) -> Set<(Seq<char>, Seq<char>)> {
        pair_set(self.items@)
    }
}

impl Pairs {
    #[verifier::type_invariant]
    closed spec fn distinct(self) -> bool {
        pairs_distinct(self.items@)
    }

    pub fn new() -> (r: Self)
        ensures
            r@ == Set::<(Seq<char>, Seq<char>)>::empty(),
    {
        let r: Pairs = Pairs { items: Vec::new() };
        assert(r@ =~= Set::<(Seq<char>, Seq<char>)>::empty());
        r
    }

    fn find(&self, first: &str, second: &str) -> (r: Option<usize>)
        ensures
            match r {
                Some(i) => pair_at(self.items@, i as int, (first@, second@)),
                None => !self@.contains((first@, second@)) && forall|i: int|
                    0 <= i < self.items@.len() ==> pair_view(#[trigger] self.items@[i]) != (
                        first@,
                        second@,
                    ),
            },
    {
        let mut i: usize = 0;
        while i < self.items.len()
            invariant
                i <= self.items@.len(),
                forall|j: int|
                    0 <= j < i ==> pair_view(#[trigger] self.items@[j]) != (first@, second@),
            decreases self.items@.len() - i,
        {
            if same_text(self.items[i].0.as_str(), first) && same_text(
                self.items[i].1.as_str(),
                second,
            ) {
                return Some(i);
            }
            i += 1;
        }
        None
    }

    pub fn contains(&self, first: &str, second: &str) -> (r: bool)
        ensures
            r == self@.contains((first@, second@)),
    {
        self.find(first, second).is_some()
    }

    pub fn insert(&mut self, first: &str, second: &str)
        ensures
            final(self)@ == old(self)@.insert((first@, second@)),
    {
        proof {
            use_type_invariant(&*self);
        }
        if self.find(first, second).is_some() {
            assert(self@ =~= self@.insert((first@, second@)));
            return;
        }
        let mut items: Vec<(String, String)> = Vec::new();
        std::mem::swap(&mut items, &mut self.items);
        let ghost before = items@;
        items.push((first.to_owned(), second.to_owned()));
        proof {
            assert(pair_view(items@[before.len() as int]) == (first@, second@));
            assert forall|pair: (Seq<char>, Seq<char>)| #[trigger]
                pair_set(items@).contains(pair) == pair_set(before).insert(
                    (first@, second@),
                ).contains(pair) by {
                if pair_set(items@).contains(pair) {
                    let i = choose|i: int| pair_at(items@, i, pair);
                    if i < before.len() {
                        assert(pair_at(before, i, pair));
                    }
                }
                if pair_set(before).contains(pair) {
                    let i = choose|i: int| pair_at(before, i, pair);
                    assert(pair_at(items@, i, pair));
                }
                assert(pair_at(items@, before.len() as int, (first@, second@)));
            }
            assert(pair_set(items@) =~= pair_set(before).insert((first@, second@)));
        }
        self.items = items;
    }

    pub fn remove(&mut self, first: &str, second: &str)
        ensures
            final(self)@ == old(self)@.remove((first@, second@)),
    {
        proof {
            use_type_invariant(&*self);
        }
        match self.find(first, second) {
            Some(at) => {
                let mut items: Vec<(String, String)> = Vec::new();
                std::mem::swap(&mut items, &mut self.items);
                let ghost before = items@;
                items.remove(at);
                proof {
                    let gone = (first@, second@);
                    assert forall|i: int, j: int| 0 <= i < j < items@.len() implies pair_view(
                        #[trigger] items@[i],
                    ) != pair_view(#[trigger] items@[j]) by {
                        let a = if i < at { i } else { i + 1 };
                        let b = if j < at { j } else { j + 1 };
                        assert(pair_view(before[a]) != pair_view(before[b]));
                    }
                    assert forall|pair: (Seq<char>, Seq<char>)| #[trigger]
                        pair_set(items@).contains(pair) == pair_set(before).remove(gone).contains(
                            pair,
                        ) by {
                        if pair_set(items@).contains(pair) {
                            let i = choose|i: int| pair_at(items@, i, pair);
                            let a = if i < at { i } else { i + 1 };
                            assert(pair_at(before, a, pair));
                            if a < at {
                                assert(pair_view(before[a]) != pair_view(before[at as int]));
                            } else {
                                assert(pair_view(before[at as int]) != pair_view(before[a]));
                            }
                        }
                        if pair_set(before).remove(gone).contains(pair) {
                            let i = choose|i: int| pair_at(before, i, pair);
                            let b = if i < at { i } else { i - 1 };
                            assert(pair_at(items@, b, pair));
                        }
                    }
                    assert(pair_set(items@) =~= pair_set(before).remove(gone));
                }
                self.items = items;
            },
            None => {
                assert(self@ =~= self@.remove((first@, second@)));
            },
        }
    }

    /// The pairs whose position key is not listed, each once.
    pub fn not_listed(&self, keys: &Vec<String>) -> (r: Vec<(String, String)>)
        ensures
            pairs_distinct(r@),
            forall|pair: (Seq<char>, Seq<char>)| #[trigger]
                pair_set(r@).contains(pair) <==> self@.contains(pair) && !listed(
                    keys@,
                    key_of(pair.0, pair.1),
                ),
    {
        proof {
            use_type_invariant(self);
        }
        let mut r: Vec<(String, String)> = Vec::new();
        let mut i: usize = 0;
        while i < self.items.len()
            invariant
                i <= self.items@.len(),
                pairs_distinct(self.items@),
                pairs_distinct(r@),
                forall|pair: (Seq<char>, Seq<char>)| #[trigger]
                    pair_set(r@).contains(pair) <==> !listed(keys@, key_of(pair.0, pair.1))
                        && exists|j: int| j < i && #[trigger] pair_at(self.items@, j, pair),
            decreases self.items@.len() - i,
        {
            let item: &(String, String) = &self.items[i];
            let ghost before = r@;
            let ghost added = pair_view(*item);
            assert(pair_at(self.items@, i as int, added));
            let key: String = position_key(item.0.as_str(), item.1.as_str());
            if !contains_text(keys, key.as_str()) {
                proof {
                    assert forall|k: int| 0 <= k < before.len() implies pair_view(
                        #[trigger] before[k],
                    ) != added by {
                        assert(pair_at(before, k, pair_view(before[k])));
                        assert(pair_set(before).contains(pair_view(before[k])));
                        let j = choose|j: int|
                            j < i && #[trigger] pair_at(self.items@, j, pair_view(before[k]));
                        assert(pair_view(self.items@[j]) != pair_view(self.items@[i as int]));
                    }
                }
                r.push((item.0.clone(), item.1.clone()));
                assert(pair_at(r@, before.len() as int, added));
            }
            proof {
                assert forall|pair: (Seq<char>, Seq<char>)| #[trigger]
                    pair_set(r@).contains(pair) <==> !listed(keys@, key_of(pair.0, pair.1))
                        && exists|j: int| j < i + 1 && #[trigger] pair_at(self.items@, j, pair) by {
                    if pair_set(r@).contains(pair) {
                        let k = choose|k: int| pair_at(r@, k, pair);
                        if k < before.len() {
                            assert(pair_at(before, k, pair));
                            assert(pair_set(before).contains(pair));
                        }
                    }
                    if !listed(keys@, key_of(pair.0, pair.1)) && exists|j: int|
                        j < i + 1 && #[trigger] pair_at(self.items@, j, pair) {
                        let j = choose|j: int| j < i + 1 && #[trigger] pair_at(self.items@, j, pair);
                        if j < i {
                            assert(pair_set(before).contains(pair));
                            let k = choose|k: int| pair_at(before, k, pair);
                            assert(pair_at(r@, k, pair));
                        } else {
                            assert(pair_at(r@, before.len() as int, pair));
                        }
                    }
                }
            }
            i += 1;
        }
        proof {
            assert forall|pair: (Seq<char>, Seq<char>)| #[trigger]
                pair_set(r@).contains(pair) <==> self@.contains(pair) && !listed(
                    keys@,
                    key_of(pair.0, pair.1),
                ) by {
                if self@.contains(pair) {
                    let j = choose|j: int| pair_at(self.items@, j, pair);
                    assert(pair_at(self.items@, j, pair));
                }
            }
        }
        r
    }
}

}
