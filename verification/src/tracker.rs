//! How long the price has stayed beyond an order's bracket.

use crate::eligibility::{Breach, GuardOrder};
use crate::error::GuardError;
use crate::table::{listed, Table};
use crate::text::{join2, same_text};
use vstd::prelude::*;

verus! {

/// The layout version of the stored state.
pub const SCHEMA_VERSION: u32 = 1;

/// One unbroken stretch of sightings of an order outside its bracket.
#[derive(Debug)]
pub struct Observation {
    pub fingerprint: String,
    pub breach: Breach,
    pub outside_since_us: u64,
    pub last_seen_us: u64,
}

impl Clone for Observation {
    fn clone(&self) -> (r: Self)
        ensures
            r == *self,
    {
        Observation {
            fingerprint: self.fingerprint.clone(),
            breach: self.breach,
            outside_since_us: self.outside_since_us,
            last_seen_us: self.last_seen_us,
        }
    }
}

/// What is kept under `key`, if anything.
pub open spec fn lookup<V>(map: Map<Seq<char>, V>, key: Seq<char>) -> Option<V> {
    if map.contains_key(key) {
        Some(map[key])
    } else {
        None
    }
}

/// Why a sighting does not continue the stretch on record.
pub open spec fn restart_reason(
    existing: Option<Observation>,
    fingerprint: Seq<char>,
    breach: Breach,
    now_us: u64,
    max_gap_us: u64,
) -> Option<Seq<char>> {
    match existing {
        None => Some("first_outside_observation"@),
        Some(value) => if value.fingerprint@ != fingerprint {
            Some("order_changed"@)
        } else if value.breach != breach {
            Some("breach_side_changed"@)
        } else if now_us < value.last_seen_us {
            Some("clock_moved_backwards"@)
        } else if now_us - value.last_seen_us > max_gap_us {
            Some("observation_gap_too_large"@)
        } else {
            None
        },
    }
}

/// The record after a sighting: the stretch goes on, or a new one starts.
pub open spec fn sighted(
    existing: Option<Observation>,
    fingerprint: String,
    breach: Breach,
    now_us: u64,
    max_gap_us: u64,
) -> Observation {
    Observation {
        fingerprint,
        breach,
        outside_since_us: if restart_reason(existing, fingerprint@, breach, now_us, max_gap_us)
            is None {
            existing->0.outside_since_us
        } else {
            now_us
        },
        last_seen_us: now_us,
    }
}

/// The time from `since` to `now`, none where `since` is later.
pub open spec fn elapsed(now_us: u64, since_us: u64) -> u64 {
    if now_us < since_us {
        0
    } else {
        (now_us - since_us) as u64
    }
}

/// Whether a stretch of the same breach of the same order has lasted `wait_us`.
pub open spec fn ready(
    existing: Option<Observation>,
    fingerprint: Seq<char>,
    breach: Breach,
    now_us: u64,
    wait_us: u64,
) -> bool {
    &&& existing is Some
    &&& existing->0.fingerprint@ == fingerprint
    &&& existing->0.breach == breach
    &&& elapsed(now_us, existing->0.outside_since_us) >= wait_us
}

/// Whether no stretch ends before it starts.
pub open spec fn stretches_ordered(orders: Map<Seq<char>, Observation>) -> bool {
    forall|id: Seq<char>| #[trigger]
        orders.contains_key(id) ==> orders[id].outside_since_us <= orders[id].last_seen_us
}

/// The stretches on record, by order id.
#[derive(Debug)]
pub struct OutsideTracker {
    pub schema_version: u32,
    pub orders: Table<Observation>,
}

impl Default for OutsideTracker {
    fn default() -> (r: Self)
        ensures
            r.valid(),
            r.orders@ == Map::<Seq<char>, Observation>::empty(),
    {
        OutsideTracker { schema_version: SCHEMA_VERSION, orders: Table::new() }
    }
}

/// The map that stored entries stand for; of entries with one key the last counts.
pub open spec fn stored_map(entries: Seq<(String, Observation)>) -> Map<Seq<char>, Observation>
    decreases entries.len(),
{
    if entries.len() == 0 {
        Map::empty()
    } else {
        stored_map(entries.drop_last()).insert(entries.last().0@, entries.last().1)
    }
}

/// Whether a stored state is of this version and none of its stretches ends before it starts.
pub open spec fn can_be_loaded(schema_version: u32, entries: Seq<(String, Observation)>) -> bool {
    schema_version == SCHEMA_VERSION && stretches_ordered(stored_map(entries))
}

impl OutsideTracker {
    /// Whether a state may be stored and read back.
    pub open spec fn valid(&self) -> bool {
        self.schema_version == SCHEMA_VERSION && stretches_ordered(self.orders@)
    }

    /// The state read back from the file at `path`. A state that is not valid is refused.
    pub fn load(path: &str, schema_version: u32, entries: Vec<(String, Observation)>) -> (r: Result<
        Self,
        GuardError,
    >)
        ensures
            match r {
                Ok(state) => {
                    &&& can_be_loaded(schema_version, entries@)
                    &&& state.valid()
                    &&& state.orders@ == stored_map(entries@)
                },
                Err(e) => {
                    &&& !can_be_loaded(schema_version, entries@)
                    &&& e.message@ == "invalid outside-range state: "@ + path@
                },
            },
    {
        let mut orders: Table<Observation> = Table::new();
        let mut ordered: bool = true;
        let mut i: usize = 0;
        while i < entries.len()
            invariant
                i <= entries@.len(),
                orders@ == stored_map(entries@.take(i as int)),
            decreases entries@.len() - i,
        {
            orders.insert(entries[i].0.clone(), entries[i].1.clone());
            proof {
                assert(entries@.take(i + 1).drop_last() =~= entries@.take(i as int));
            }
            i += 1;
        }
        assert(entries@.take(entries@.len() as int) =~= entries@);
        let keys: Vec<String> = orders.keys();
        let mut j: usize = 0;
        while j < keys.len()
            invariant
                j <= keys@.len(),
                forall|k: Seq<char>| listed(keys@, k) == #[trigger] orders@.contains_key(k),
                ordered == (forall|k: int|
                    0 <= k < j ==> orders@[#[trigger] keys@[k]@].outside_since_us
                        <= orders@[keys@[k]@].last_seen_us),
            decreases keys@.len() - j,
        {
            assert(listed(keys@, keys@[j as int]@));
            assert(orders@.contains_key(keys@[j as int]@));
            match orders.get(keys[j].as_str()) {
                Some(value) => if value.outside_since_us > value.last_seen_us {
                    ordered = false;
                },
                None => {},
            }
            j += 1;
        }
        proof {
            if ordered {
                assert forall|id: Seq<char>| #[trigger] orders@.contains_key(id) implies orders@[id].outside_since_us
                    <= orders@[id].last_seen_us by {
                    assert(listed(keys@, id));
                }
            } else {
                let k = choose|k: int|
                    0 <= k < keys@.len() && orders@[#[trigger] keys@[k]@].outside_since_us
                        > orders@[keys@[k]@].last_seen_us;
                assert(listed(keys@, keys@[k]@));
                assert(orders@.contains_key(keys@[k]@));
            }
        }
        if schema_version == SCHEMA_VERSION && ordered {
            Ok(OutsideTracker { schema_version, orders })
        } else {
            Err(GuardError { message: join2("invalid outside-range state: ", path) })
        }
    }

    /// The entries to store.
    pub fn save(&self) -> (r: (u32, Vec<(String, Observation)>))
        ensures
            r.0 == self.schema_version,
            stored_map(r.1@) == self.orders@,
    {
        let keys: Vec<String> = self.orders.keys();
        let mut entries: Vec<(String, Observation)> = Vec::new();
        let mut i: usize = 0;
        while i < keys.len()
            invariant
                i <= keys@.len(),
                forall|k: Seq<char>| listed(keys@, k) == #[trigger] self.orders@.contains_key(k),
                forall|k: Seq<char>| #[trigger]
                    stored_map(entries@).contains_key(k) <==> exists|j: int|
                        0 <= j < i && #[trigger] keys@[j]@ == k,
                forall|k: Seq<char>| #[trigger]
                    stored_map(entries@).contains_key(k) ==> self.orders@.contains_key(k)
                        && stored_map(entries@)[k] == self.orders@[k],
            decreases keys@.len() - i,
        {
            assert(listed(keys@, keys@[i as int]@));
            assert(self.orders@.contains_key(keys@[i as int]@));
            let ghost before = entries@;
            if let Some(value) = self.orders.get(keys[i].as_str()) {
                entries.push((keys[i].clone(), value.clone()));
                assert(entries@.drop_last() =~= before);
            }
            proof {
                assert forall|k: Seq<char>| #[trigger]
                    stored_map(entries@).contains_key(k) <==> exists|j: int|
                        0 <= j < i + 1 && #[trigger] keys@[j]@ == k by {
                    if stored_map(entries@).contains_key(k) {
                        if k != keys@[i as int]@ {
                            assert(stored_map(before).contains_key(k));
                        }
                    }
                    if exists|j: int| 0 <= j < i + 1 && #[trigger] keys@[j]@ == k {
                        let j = choose|j: int| 0 <= j < i + 1 && #[trigger] keys@[j]@ == k;
                        if j < i {
                            assert(stored_map(before).contains_key(k));
                        }
                    }
                }
                assert forall|k: Seq<char>| #[trigger]
                    stored_map(entries@).contains_key(k) implies self.orders@.contains_key(k)
                    && stored_map(entries@)[k] == self.orders@[k] by {
                    if k != keys@[i as int]@ {
                        assert(stored_map(before).contains_key(k));
                    }
                }
            }
            i += 1;
        }
        proof {
            assert forall|k: Seq<char>| self.orders@.contains_key(k) implies stored_map(
                entries@,
            ).contains_key(k) by {
                assert(listed(keys@, k));
            }
            assert(stored_map(entries@) =~= self.orders@);
        }
        (self.schema_version, entries)
    }

    /// Forgets the orders that are not listed.
    pub fn retain(&mut self, order_ids: &Vec<String>)
        ensures
            final(self).schema_version == old(self).schema_version,
            final(self).orders@ == old(self).orders@.restrict(
                Set::new(|id: Seq<char>| listed(order_ids@, id)),
            ),
            old(self).valid() ==> final(self).valid(),
    {
        self.orders.retain(order_ids);
        proof {
            if old(self).valid() {
                assert forall|id: Seq<char>| #[trigger] self.orders@.contains_key(id) implies self.orders@[id].outside_since_us
                    <= self.orders@[id].last_seen_us by {
                    assert(old(self).orders@.contains_key(id));
                }
            }
        }
    }

    /// Forgets one order; says whether it was on record.
    pub fn reset(&mut self, order_id: &str) -> (r: bool)
        ensures
            r == old(self).orders@.contains_key(order_id@),
            final(self).schema_version == old(self).schema_version,
            final(self).orders@ == old(self).orders@.remove(order_id@),
            old(self).valid() ==> final(self).valid(),
    {
        let r: bool = self.orders.remove(order_id);
        proof {
            if old(self).valid() {
                assert forall|id: Seq<char>| #[trigger] self.orders@.contains_key(id) implies self.orders@[id].outside_since_us
                    <= self.orders@[id].last_seen_us by {
                    assert(old(self).orders@.contains_key(id));
                }
            }
        }
        r
    }

    /// Records a sighting of an order outside its bracket. Returns how long the
    /// stretch has lasted, and why it started anew where it did.
    pub fn observe(
        &mut self,
        order: &GuardOrder,
        breach: Breach,
        now_us: u64,
        max_gap_us: u64,
    ) -> (r: (u64, Option<&'static str>))
        ensures
            ({
                let existing = lookup(old(self).orders@, order.order_id@);
                let reason = restart_reason(
                    existing,
                    order.fingerprint@,
                    breach,
                    now_us,
                    max_gap_us,
                );
                let next = sighted(existing, order.fingerprint, breach, now_us, max_gap_us);
                &&& final(self).orders@ == old(self).orders@.insert(order.order_id@, next)
                &&& r.0 == elapsed(now_us, next.outside_since_us)
                &&& match r.1 {
                    Some(text) => reason == Some(text@),
                    None => reason is None,
                }
            }),
            final(self).schema_version == old(self).schema_version,
            old(self).valid() ==> final(self).valid(),
    {
        let mut outside_since_us: u64 = now_us;
        let reset_reason: Option<&'static str> = match self.orders.get(order.order_id.as_str()) {
            None => Some("first_outside_observation"),
            Some(value) => if !same_text(value.fingerprint.as_str(), order.fingerprint.as_str()) {
                Some("order_changed")
            } else if value.breach != breach {
                Some("breach_side_changed")
            } else if now_us < value.last_seen_us {
                Some("clock_moved_backwards")
            } else if now_us - value.last_seen_us > max_gap_us {
                Some("observation_gap_too_large")
            } else {
                outside_since_us = value.outside_since_us;
                None
            },
        };
        self.orders.insert(
            order.order_id.clone(),
            Observation {
                fingerprint: order.fingerprint.clone(),
                breach,
                outside_since_us,
                last_seen_us: now_us,
            },
        );
        proof {
            if old(self).valid() {
                assert forall|id: Seq<char>| #[trigger] self.orders@.contains_key(id) implies self.orders@[id].outside_since_us
                    <= self.orders@[id].last_seen_us by {
                    if id != order.order_id@ {
                        assert(old(self).orders@.contains_key(id));
                    } else if reset_reason is None {
                        assert(old(self).orders@.contains_key(id));
                    }
                }
            }
        }
        (now_us.saturating_sub(outside_since_us), reset_reason)
    }

    /// Whether the same breach of the same order has lasted `wait_us`.
    pub fn is_ready(&self, order: &GuardOrder, breach: Breach, now_us: u64, wait_us: u64) -> (r:
        bool)
        ensures
            r == ready(
                lookup(self.orders@, order.order_id@),
                order.fingerprint@,
                breach,
                now_us,
                wait_us,
            ),
    {
        match self.orders.get(order.order_id.as_str()) {
            Some(value) => {
                same_text(value.fingerprint.as_str(), order.fingerprint.as_str()) && value.breach
                    == breach && now_us.saturating_sub(value.outside_since_us) >= wait_us
            },
            None => false,
        }
    }
}

/// An order seen outside its bracket.
#[derive(Debug)]
pub struct Sighting {
    pub fingerprint: String,
    pub breach: Breach,
    pub now_us: u64,
}

/// The record of one order after a history in which it was sighted (`Some`) or
/// forgotten (`None`).
pub open spec fn record_after(history: Seq<Option<Sighting>>, max_gap_us: u64) -> Option<
    Observation,
>
    decreases history.len(),
{
    if history.len() == 0 {
        None
    } else {
        match history.last() {
            None => None,
            Some(s) => Some(
                sighted(
                    record_after(history.drop_last(), max_gap_us),
                    s.fingerprint,
                    s.breach,
                    s.now_us,
                    max_gap_us,
                ),
            ),
        }
    }
}

/// Whether entry `i` of a history is a sighting of the same breach of the same order
/// as entry `j`.
pub open spec fn same_breach(history: Seq<Option<Sighting>>, i: int, j: int) -> bool {
    &&& history[i] is Some
    &&& history[j] is Some
    &&& history[i]->0.fingerprint@ == history[j]->0.fingerprint@
    &&& history[i]->0.breach == history[j]->0.breach
}

/// Whether entry `i` of a history follows the one before it without a break.
pub open spec fn follows(history: Seq<Option<Sighting>>, i: int, max_gap_us: u64) -> bool {
    &&& same_breach(history, i, i - 1)
    &&& history[i - 1]->0.now_us <= history[i]->0.now_us
    &&& history[i]->0.now_us - history[i - 1]->0.now_us <= max_gap_us
}

/// Whether a history, from entry `from` on, is one unbroken run of sightings of one
/// breach of one order.
pub open spec fn unbroken(history: Seq<Option<Sighting>>, from: int, max_gap_us: u64) -> bool {
    &&& 0 <= from < history.len()
    &&& history[from] is Some
    &&& forall|i: int| from < i < history.len() ==> #[trigger] follows(history, i, max_gap_us)
}

/// The time on record is time spent outside: it starts at a sighting from which the
/// history runs on unbroken to the latest one.
pub proof fn law_recorded_time_is_unbroken(history: Seq<Option<Sighting>>, max_gap_us: u64)
    requires
        record_after(history, max_gap_us) is Some,
    ensures
        history.len() > 0,
        history.last() is Some,
        ({
            let record = record_after(history, max_gap_us)->0;
            &&& record.fingerprint == history.last()->0.fingerprint
            &&& record.breach == history.last()->0.breach
            &&& record.last_seen_us == history.last()->0.now_us
            &&& record.outside_since_us <= record.last_seen_us
            &&& exists|from: int| #[trigger]
                unbroken(history, from, max_gap_us) && record.outside_since_us
                    == history[from]->0.now_us
        }),
    decreases history.len(),
{
    let before = history.drop_last();
    let s = history.last()->0;
    let old_record = record_after(before, max_gap_us);
    let n = history.len() - 1;
    if restart_reason(old_record, s.fingerprint@, s.breach, s.now_us, max_gap_us) is None {
        law_recorded_time_is_unbroken(before, max_gap_us);
        let from = choose|from: int| #[trigger]
            unbroken(before, from, max_gap_us) && old_record->0.outside_since_us
                == before[from]->0.now_us;
        assert forall|i: int| from < i < history.len() implies #[trigger] follows(
            history,
            i,
            max_gap_us,
        ) by {
            if i < n {
                assert(follows(before, i, max_gap_us));
            }
        }
        assert(unbroken(history, from, max_gap_us));
    } else {
        assert(unbroken(history, n as int, max_gap_us));
    }
}

/// No time spent outside is lost: where a history runs on unbroken from a sighting,
/// the record reaches back to it at least.
pub proof fn law_unbroken_time_is_recorded(
    history: Seq<Option<Sighting>>,
    from: int,
    max_gap_us: u64,
)
    requires
        unbroken(history, from, max_gap_us),
    ensures
        record_after(history, max_gap_us) is Some,
        record_after(history, max_gap_us)->0.outside_since_us <= history[from]->0.now_us,
    decreases history.len(),
{
    let before = history.drop_last();
    let n = history.len() - 1;
    if from < n {
        assert forall|i: int| from < i < before.len() implies #[trigger] follows(
            before,
            i,
            max_gap_us,
        ) by {
            assert(follows(history, i, max_gap_us));
        }
        assert(unbroken(before, from, max_gap_us));
        law_unbroken_time_is_recorded(before, from, max_gap_us);
        law_recorded_time_is_unbroken(before, max_gap_us);
        assert(follows(history, n as int, max_gap_us));
    } else if record_after(before, max_gap_us) is Some {
        law_recorded_time_is_unbroken(before, max_gap_us);
    }
}

/// An order is ready only once the price has stayed beyond one exit of its unchanged
/// bracket for the whole wait: the sightings behind it span `wait_us` without a break.
pub proof fn law_ready_only_after_continuous_wait(
    history: Seq<Option<Sighting>>,
    fingerprint: Seq<char>,
    breach: Breach,
    now_us: u64,
    wait_us: u64,
    max_gap_us: u64,
)
    requires
        wait_us > 0,
        ready(record_after(history, max_gap_us), fingerprint, breach, now_us, wait_us),
    ensures
        exists|from: int| #[trigger]
            unbroken(history, from, max_gap_us) && history[from]->0.fingerprint@ == fingerprint
                && history[from]->0.breach == breach && history[from]->0.now_us + wait_us <= now_us,
{
    law_recorded_time_is_unbroken(history, max_gap_us);
    let record = record_after(history, max_gap_us)->0;
    let from = choose|from: int| #[trigger]
        unbroken(history, from, max_gap_us) && record.outside_since_us == history[from]->0.now_us;
    lemma_run_is_uniform(history, from, history.len() - 1, max_gap_us);
}

proof fn lemma_run_is_uniform(
    history: Seq<Option<Sighting>>,
    from: int,
    to: int,
    max_gap_us: u64,
)
    requires
        unbroken(history, from, max_gap_us),
        from <= to < history.len(),
    ensures
        same_breach(history, from, to),
    decreases to - from,
{
    if from < to {
        lemma_run_is_uniform(history, from, to - 1, max_gap_us);
        assert(follows(history, to, max_gap_us));
    }
}

/// A valid state survives a restart: whatever list of entries it is stored as, the
/// entries are accepted when they are read back, and stand for the same state.
pub proof fn law_stored_state_is_accepted(
    tracker: OutsideTracker,
    entries: Seq<(String, Observation)>,
)
    requires
        tracker.valid(),
        stored_map(entries) == tracker.orders@,
    ensures
        can_be_loaded(tracker.schema_version, entries),
{
}

/// A stretch goes on exactly when the order was on record unchanged, on the same side of its
/// bracket, at a time not after this sighting and not more than the allowed gap before it; else
/// it starts with this sighting. Either way the record is of this sighting.
pub proof fn law_stretch_goes_on_when_continuous(
    existing: Option<Observation>,
    fingerprint: String,
    breach: Breach,
    now_us: u64,
    max_gap_us: u64,
)
    ensures
        ({
            let next = sighted(existing, fingerprint, breach, now_us, max_gap_us);
            let continuous = {
                &&& existing is Some
                &&& existing->0.fingerprint@ == fingerprint@
                &&& existing->0.breach == breach
                &&& existing->0.last_seen_us <= now_us <= existing->0.last_seen_us + max_gap_us
            };
            &&& next.fingerprint == fingerprint
            &&& next.breach == breach
            &&& next.last_seen_us == now_us
            &&& next.outside_since_us == if continuous {
                existing->0.outside_since_us
            } else {
                now_us
            }
            &&& restart_reason(existing, fingerprint@, breach, now_us, max_gap_us) is None
                <==> continuous
        }),
{
}

/// An order is ready as soon as the sightings behind it span the wait without a break: nothing
/// but the wait holds it up.
pub proof fn law_ready_after_continuous_wait(
    history: Seq<Option<Sighting>>,
    from: int,
    now_us: u64,
    wait_us: u64,
    max_gap_us: u64,
)
    requires
        unbroken(history, from, max_gap_us),
        history[from]->0.now_us + wait_us <= now_us,
    ensures
        ready(
            record_after(history, max_gap_us),
            history.last()->0.fingerprint@,
            history.last()->0.breach,
            now_us,
            wait_us,
        ),
        history.last()->0.fingerprint@ == history[from]->0.fingerprint@,
        history.last()->0.breach == history[from]->0.breach,
{
    law_unbroken_time_is_recorded(history, from, max_gap_us);
    law_recorded_time_is_unbroken(history, max_gap_us);
    lemma_run_is_uniform(history, from, history.len() - 1, max_gap_us);
}

/// A record is ready exactly when it is of the same state and side of the order and reaches back
/// at least as far as the wait.
pub proof fn law_ready_by_time(
    record: Observation,
    fingerprint: Seq<char>,
    breach: Breach,
    now_us: u64,
    wait_us: u64,
)
    ensures
        wait_us > 0 ==> (ready(Some(record), fingerprint, breach, now_us, wait_us) <==> {
            &&& record.fingerprint@ == fingerprint
            &&& record.breach == breach
            &&& record.outside_since_us + wait_us <= now_us
        }),
        !ready(None, fingerprint, breach, now_us, wait_us),
        elapsed(now_us, record.outside_since_us) + record.outside_since_us == if now_us
            < record.outside_since_us {
            record.outside_since_us
        } else {
            now_us
        },
{
}

/// A stored state with distinct ids is refused exactly when its layout is not that of version 1
/// or one of its stretches starts after it was last seen; and what is read back of it is what was
/// stored under each id.
pub proof fn law_stored_states_are_checked(
    schema_version: u32,
    entries: Seq<(String, Observation)>,
    i: int,
)
    requires
        forall|i: int, j: int| 0 <= i < j < entries.len() ==> #[trigger] entries[i].0@
            != #[trigger] entries[j].0@,
    ensures
        can_be_loaded(schema_version, entries) <==> schema_version == 1 && forall|j: int|
            0 <= j < entries.len() ==> (#[trigger] entries[j]).1.outside_since_us
                <= entries[j].1.last_seen_us,
        0 <= i < entries.len() ==> lookup(stored_map(entries), entries[i].0@) == Some(
            entries[i].1,
        ),
        forall|id: Seq<char>| #[trigger]
            stored_map(entries).contains_key(id) ==> exists|j: int|
                0 <= j < entries.len() && #[trigger] entries[j].0@ == id,
{
    lemma_stored(entries);
    if stretches_ordered(stored_map(entries)) {
        assert forall|j: int| 0 <= j < entries.len() implies (
        #[trigger] entries[j]).1.outside_since_us <= entries[j].1.last_seen_us by {
            assert(stored_map(entries).contains_key(entries[j].0@));
        }
    }
}

proof fn lemma_stored(entries: Seq<(String, Observation)>)
    requires
        forall|i: int, j: int| 0 <= i < j < entries.len() ==> #[trigger] entries[i].0@
            != #[trigger] entries[j].0@,
    ensures
        forall|j: int|
            0 <= j < entries.len() ==> stored_map(entries).contains_key(
                (#[trigger] entries[j]).0@,
            ) && stored_map(entries)[entries[j].0@] == entries[j].1,
        forall|id: Seq<char>| #[trigger]
            stored_map(entries).contains_key(id) ==> exists|j: int|
                0 <= j < entries.len() && #[trigger] entries[j].0@ == id && stored_map(
                    entries,
                )[id] == entries[j].1,
    decreases entries.len(),
{
    if entries.len() > 0 {
        let rest = entries.drop_last();
        let last = entries.len() - 1;
        assert forall|i: int, j: int| 0 <= i < j < rest.len() implies #[trigger] rest[i].0@
            != #[trigger] rest[j].0@ by {
            assert(entries[i].0@ != entries[j].0@);
        }
        lemma_stored(rest);
        assert forall|j: int| 0 <= j < entries.len() implies stored_map(entries).contains_key(
            (#[trigger] entries[j]).0@,
        ) && stored_map(entries)[entries[j].0@] == entries[j].1 by {
            if j < last {
                assert(rest[j] == entries[j]);
                assert(entries[j].0@ != entries[last].0@);
            }
        }
        assert forall|id: Seq<char>| #[trigger] stored_map(entries).contains_key(id) implies exists|
            j: int,
        |
            0 <= j < entries.len() && #[trigger] entries[j].0@ == id && stored_map(entries)[id]
                == entries[j].1 by {
            if id == entries[last].0@ {
                assert(entries[last].0@ == id);
            } else {
                assert(stored_map(rest).contains_key(id));
                let j = choose|j: int|
                    0 <= j < rest.len() && #[trigger] rest[j].0@ == id && stored_map(rest)[id]
                        == rest[j].1;
                assert(entries[j].0@ == id);
            }
        }
    }
}

/// Why a stretch starts anew is told by the first of these that holds: the order is not on record, it was edited,
/// it is beyond the other exit, the clock went back, the gap is too large.
pub proof fn law_restarts_are_explained(
    value: Observation,
    fingerprint: Seq<char>,
    breach: Breach,
    now_us: u64,
    max_gap_us: u64,
)
    ensures
        restart_reason(None, fingerprint, breach, now_us, max_gap_us) == Some(
            "first_outside_observation"@,
        ),
        ({
            let reason = restart_reason(Some(value), fingerprint, breach, now_us, max_gap_us);
            let same = value.fingerprint@ == fingerprint;
            let sided = same && value.breach == breach;
            let forward = sided && value.last_seen_us <= now_us;
            let near = forward && now_us <= value.last_seen_us + max_gap_us;
            &&& !same ==> reason == Some("order_changed"@)
            &&& same && !sided ==> reason == Some("breach_side_changed"@)
            &&& sided && !forward ==> reason == Some("clock_moved_backwards"@)
            &&& forward && !near ==> reason == Some("observation_gap_too_large"@)
            &&& near ==> reason is None
        }),
{
}

}
