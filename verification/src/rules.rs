//! Which rule applies to an instrument, and which positions are under a rule.

use crate::config::{ProfitLockRule, StaticRule};
use crate::ownership::{key_of, position_key};
use crate::positions::PositionSnapshot;
use crate::table::listed;
use crate::text::same_text;
use vstd::prelude::*;

verus! {

/// A rule for one instrument, or for every instrument where it is named `*`.
pub trait InstRule {
    spec fn name(&self) -> Seq<char>;

    fn is_named(&self, inst: &str) -> (r: bool)
        ensures
            r == (self.name() == inst@),
    ;
}

impl InstRule for StaticRule {
    open spec fn name(&self) -> Seq<char> {
        self.inst@
    }

    fn is_named(&self, inst: &str) -> (r: bool) {
        same_text(self.inst.as_str(), inst)
    }
}

impl InstRule for ProfitLockRule {
    open spec fn name(&self) -> Seq<char> {
        self.inst@
    }

    fn is_named(&self, inst: &str) -> (r: bool) {
        same_text(self.inst.as_str(), inst)
    }
}

/// Whether rule `i` is the first of its name.
pub open spec fn first_named<R: InstRule>(rules: Seq<R>, i: int, inst: Seq<char>) -> bool {
    &&& 0 <= i < rules.len()
    &&& rules[i].name() == inst
    &&& forall|j: int| 0 <= j < i ==> (#[trigger] rules[j]).name() != inst
}

/// The first rule of a name.
pub open spec fn named<R: InstRule>(rules: Seq<R>, inst: Seq<char>) -> Option<int> {
    if exists|i: int| first_named(rules, i, inst) {
        Some(choose|i: int| first_named(rules, i, inst))
    } else {
        None
    }
}

/// The rule for an instrument: the first that names it, else the first for all.
pub open spec fn matched<R: InstRule>(rules: Seq<R>, inst: Seq<char>) -> Option<int> {
    if named(rules, inst) is Some {
        named(rules, inst)
    } else {
        named(rules, "*"@)
    }
}

fn find_named<R: InstRule>(rules: &Vec<R>, inst: &str) -> (r: Option<usize>)
    ensures
        match r {
            Some(i) => i < rules@.len() && named(rules@, inst@) == Some(i as int),
            None => named(rules@, inst@) is None,
        },
{
    let mut i: usize = 0;
    while i < rules.len()
        invariant
            i <= rules@.len(),
            forall|j: int| 0 <= j < i ==> (#[trigger] rules@[j]).name() != inst@,
        decreases rules@.len() - i,
    {
        if rules[i].is_named(inst) {
            proof {
                assert(first_named(rules@, i as int, inst@));
                let k = choose|k: int| first_named(rules@, k, inst@);
                if k < i {
                    assert(rules@[k].name() != inst@);
                } else if i < k {
                    assert(rules@[i as int].name() != inst@);
                }
            }
            return Some(i);
        }
        i += 1;
    }
    None
}

/// The place of the rule for an instrument.
pub fn match_rule<R: InstRule>(rules: &Vec<R>, inst: &str) -> (r: Option<usize>)
    ensures
        match r {
            Some(i) => i < rules@.len() && matched(rules@, inst@) == Some(i as int),
            None => matched(rules@, inst@) is None,
        },
{
    match find_named(rules, inst) {
        Some(i) => Some(i),
        None => find_named(rules, "*"),
    }
}

/// Whether position `i` is under a rule, with this key.
pub open spec fn live_at<R: InstRule>(
    rules: Seq<R>,
    positions: Seq<PositionSnapshot>,
    i: int,
    key: Seq<char>,
) -> bool {
    &&& 0 <= i < positions.len()
    &&& matched(rules, positions[i].inst@) is Some
    &&& key_of(positions[i].exchange@, positions[i].inst@) == key
}

/// Whether a position under a rule has this key.
pub open spec fn live<R: InstRule>(
    rules: Seq<R>,
    positions: Seq<PositionSnapshot>,
    key: Seq<char>,
) -> bool {
    exists|i: int| live_at(rules, positions, i, key)
}

/// The keys of the positions that are under a rule.
pub fn live_keys<R: InstRule>(rules: &Vec<R>, positions: &Vec<PositionSnapshot>) -> (r: Vec<String>)
    ensures
        forall|key: Seq<char>| #[trigger] listed(r@, key) == live(rules@, positions@, key),
{
    let mut r: Vec<String> = Vec::new();
    let mut i: usize = 0;
    while i < positions.len()
        invariant
            i <= positions@.len(),
            forall|key: Seq<char>| #[trigger]
                listed(r@, key) <==> exists|j: int|
                    j < i && #[trigger] live_at(rules@, positions@, j, key),
        decreases positions@.len() - i,
    {
        let position: &PositionSnapshot = &positions[i];
        let ghost before = r@;
        if match_rule(rules, position.inst.as_str()).is_some() {
            r.push(position_key(position.exchange.as_str(), position.inst.as_str()));
            let ghost added = key_of(position.exchange@, position.inst@);
            proof {
                assert(live_at(rules@, positions@, i as int, added));
                assert forall|key: Seq<char>| #[trigger]
                    listed(r@, key) <==> exists|j: int|
                        j < i + 1 && #[trigger] live_at(rules@, positions@, j, key) by {
                    if listed(r@, key) {
                        let k = choose|k: int| 0 <= k < r@.len() && #[trigger] r@[k]@ == key;
                        if k < before.len() {
                            assert(before[k]@ == key);
                            assert(listed(before, key));
                        }
                    }
                    if exists|j: int| j < i + 1 && #[trigger] live_at(rules@, positions@, j, key) {
                        let j = choose|j: int|
                            j < i + 1 && #[trigger] live_at(rules@, positions@, j, key);
                        if j < i {
                            assert(listed(before, key));
                            let k = choose|k: int|
                                0 <= k < before.len() && #[trigger] before[k]@ == key;
                            assert(r@[k]@ == key);
                        } else {
                            assert(r@[before.len() as int]@ == key);
                        }
                    }
                }
            }
        } else {
            proof {
                assert forall|key: Seq<char>| #[trigger]
                    listed(r@, key) <==> exists|j: int|
                        j < i + 1 && #[trigger] live_at(rules@, positions@, j, key) by {
                    if exists|j: int| j < i + 1 && #[trigger] live_at(rules@, positions@, j, key) {
                        let j = choose|j: int|
                            j < i + 1 && #[trigger] live_at(rules@, positions@, j, key);
                        assert(j < i);
                    }
                }
            }
        }
        i += 1;
    }
    r
}

/// A rule that names the instrument always takes precedence over one for all.
pub proof fn law_named_rule_comes_first<R: InstRule>(rules: Seq<R>, i: int, inst: Seq<char>)
    requires
        0 <= i < rules.len(),
        rules[i].name() == inst,
    ensures
        matched(rules, inst) is Some,
        ({
            let k = matched(rules, inst)->0;
            first_named(rules, k, inst) && k <= i
        }),
    decreases i,
{
    if exists|j: int| 0 <= j < i && (#[trigger] rules[j]).name() == inst {
        let j = choose|j: int| 0 <= j < i && (#[trigger] rules[j]).name() == inst;
        law_named_rule_comes_first(rules, j, inst);
    } else {
        assert(first_named(rules, i, inst));
        let k = choose|k: int| first_named(rules, k, inst);
        if i < k {
            assert(rules[i].name() != inst);
        }
    }
}

/// A rule covers an instrument exactly when it names it or stands for all; the one that counts is
/// the first that names it, and the first that stands for all only where none names it.
pub proof fn law_rules_cover_what_they_name<R: InstRule>(rules: Seq<R>, inst: Seq<char>)
    ensures
        matched(rules, inst) is None <==> forall|i: int|
            0 <= i < rules.len() ==> (#[trigger] rules[i]).name() != inst && rules[i].name()
                != "*"@,
        matched(rules, inst) is Some ==> {
            let k = matched(rules, inst)->0;
            &&& 0 <= k < rules.len()
            &&& rules[k].name() == inst || {
                &&& rules[k].name() == "*"@
                &&& forall|i: int| 0 <= i < rules.len() ==> (#[trigger] rules[i]).name() != inst
            }
            &&& forall|i: int| 0 <= i < k ==> (#[trigger] rules[i]).name() != rules[k].name()
        },
{
    assert forall|i: int, name: Seq<char>|
        0 <= i < rules.len() && (#[trigger] rules[i]).name() == name implies #[trigger] named(
        rules,
        name,
    ) is Some by {
        lemma_name_is_found(rules, i, name);
    }
    if matched(rules, inst) is Some {
        let name = if named(rules, inst) is Some {
            inst
        } else {
            "*"@
        };
        let k = choose|k: int| first_named(rules, k, name);
        assert(first_named(rules, k, name));
    }
    if matched(rules, inst) is None {
        assert forall|i: int| 0 <= i < rules.len() implies (#[trigger] rules[i]).name() != inst
            && rules[i].name() != "*"@ by {
            if rules[i].name() == inst {
                lemma_name_is_found(rules, i, inst);
            }
            if rules[i].name() == "*"@ {
                lemma_name_is_found(rules, i, "*"@);
            }
        }
    }
    if named(rules, inst) is None {
        assert forall|i: int| 0 <= i < rules.len() implies (#[trigger] rules[i]).name() != inst by {
            if rules[i].name() == inst {
                lemma_name_is_found(rules, i, inst);
            }
        }
    }
}

proof fn lemma_name_is_found<R: InstRule>(rules: Seq<R>, i: int, name: Seq<char>)
    requires
        0 <= i < rules.len(),
        rules[i].name() == name,
    ensures
        named(rules, name) is Some,
    decreases i,
{
    if exists|j: int| 0 <= j < i && (#[trigger] rules[j]).name() == name {
        let j = choose|j: int| 0 <= j < i && (#[trigger] rules[j]).name() == name;
        lemma_name_is_found(rules, j, name);
    } else {
        assert(first_named(rules, i, name));
    }
}

/// A key is live exactly when a position on that exchange and instrument is under a rule.
pub proof fn law_covered_positions_are_live<R: InstRule>(
    rules: Seq<R>,
    positions: Seq<PositionSnapshot>,
    i: int,
    key: Seq<char>,
)
    ensures
        0 <= i < positions.len() && matched(rules, positions[i].inst@) is Some ==> live(
            rules,
            positions,
            key_of(positions[i].exchange@, positions[i].inst@),
        ),
        live(rules, positions, key) ==> exists|j: int|
            {
                &&& 0 <= j < positions.len()
                &&& matched(rules, (#[trigger] positions[j]).inst@) is Some
                &&& key == positions[j].exchange@ + ":"@ + positions[j].inst@
            },
{
    if 0 <= i < positions.len() && matched(rules, positions[i].inst@) is Some {
        assert(live_at(
            rules,
            positions,
            i,
            key_of(positions[i].exchange@, positions[i].inst@),
        ));
    }
    if live(rules, positions, key) {
        let j = choose|j: int| live_at(rules, positions, j, key);
        assert(matched(rules, positions[j].inst@) is Some);
    }
}

}
