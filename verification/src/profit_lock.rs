//! Profit lock: once price has moved far enough past entry, close the position when
//! it falls back to a locked profit.

use crate::config::ProfitLockRule;
use crate::firing::{crossed, fire_allowed, is_crossed, may_fire};
use crate::number::{
    difference, difference_of, exact, keeps_order, keeps_order_at, keeps_value_at,
    law_comparison_is_numeric, law_constants_are_exact, law_exact_arithmetic,
    law_sign_of_finite_numbers, number, product, product_of, quotient, quotient_of, sum, sum_of,
    unit, value_of, Float64, Formula, HUNDRED, ONE,
};
use crate::ownership::{key_of, position_key};
use crate::positions::PositionSnapshot;
use crate::rules::{live, live_keys, match_rule, matched};
use crate::table::{listed, Table};
use vstd::prelude::*;

verus! {

/// The gain from entry to the best price, in percent of entry, as a formula:
/// `(high_water - entry) / entry * 100`, the difference turned round for a short.
pub open spec fn moved_of(entry: Float64, high_water: Float64, is_long: bool) -> Formula {
    let (from, to) = if is_long {
        (entry, high_water)
    } else {
        (high_water, entry)
    };
    product_of(
        quotient_of(difference_of(value_of(to), value_of(from)), value_of(entry)),
        value_of(number(HUNDRED)),
    )
}

pub fn moved_pct(entry: Float64, high_water: Float64, is_long: bool) -> (r: Formula)
    ensures
        r == moved_of(entry, high_water, is_long),
{
    let gain: Formula = if is_long {
        difference(Formula::Value(high_water), Formula::Value(entry))
    } else {
        difference(Formula::Value(entry), Formula::Value(high_water))
    };
    product(
        quotient(gain, Formula::Value(entry)),
        Formula::Value(Float64 { bits: HUNDRED }),
    )
}

/// Whether a gain has reached the activation.
pub open spec fn is_armed(entry: Float64, moved: Float64, activation_pct: Float64) -> bool {
    !entry.at_most(Float64 { bits: 0 }) && activation_pct.at_most(moved)
}

/// Whether the lock is armed, by the gain that [`moved_pct`] stands for.
pub fn armed(entry: Float64, moved: Float64, activation_pct: Float64) -> (r: bool)
    ensures
        r == is_armed(entry, moved, activation_pct),
{
    if entry.le(Float64 { bits: 0 }) {
        return false;
    }
    activation_pct.le(moved)
}

/// A lock that is armed at one gain is armed at every greater one, and without a positive entry
/// it is never armed.
pub proof fn law_greater_gains_stay_armed(
    entry: Float64,
    moved: Float64,
    more: Float64,
    activation_pct: Float64,
)
    ensures
        is_armed(entry, moved, activation_pct) && moved.at_most(more) ==> is_armed(
            entry,
            more,
            activation_pct,
        ),
        entry.at_most(Float64 { bits: 0 }) ==> !is_armed(entry, moved, activation_pct),
{
}

/// A lock that is armed at one best price is armed at every better one, a higher one for a long
/// position and a lower one for a short, whatever evaluates the gain in an order-keeping way;
/// and without a positive entry it is never armed.
pub proof fn law_better_prices_stay_armed(
    eval: spec_fn(Formula) -> Float64,
    entry: Float64,
    worse: Float64,
    better: Float64,
    activation_pct: Float64,
    is_long: bool,
)
    requires
        keeps_order(eval),
        entry.finite(),
        worse.finite(),
        better.finite(),
        is_long ==> worse.at_most(better),
        !is_long ==> better.at_most(worse),
    ensures
        is_armed(entry, eval(moved_of(entry, worse, is_long)), activation_pct) ==> is_armed(
            entry,
            eval(moved_of(entry, better, is_long)),
            activation_pct,
        ),
        entry.at_most(Float64 { bits: 0 }) ==> !is_armed(
            entry,
            eval(moved_of(entry, better, is_long)),
            activation_pct,
        ),
{
    let (e, w, b) = (value_of(entry), value_of(worse), value_of(better));
    let hundred = value_of(number(HUNDRED));
    let (gain_w, gain_b) = if is_long {
        (difference_of(w, e), difference_of(b, e))
    } else {
        (difference_of(e, w), difference_of(e, b))
    };
    assert(keeps_order_at(eval, w, b, e));
    assert(keeps_order_at(eval, b, w, e));
    assert(keeps_value_at(eval, entry));
    assert(keeps_value_at(eval, worse));
    assert(keeps_value_at(eval, better));
    assert(keeps_value_at(eval, number(HUNDRED)));
    assert(keeps_order_at(eval, gain_w, gain_b, e));
    assert(keeps_order_at(eval, quotient_of(gain_w, e), quotient_of(gain_b, e), hundred));
}

/// The locked price, `lock_pct` percent past entry on the profitable side:
/// `entry * (1 + lock_pct / 100)`, the sum a difference for a short.
pub open spec fn lock_of(entry: Float64, lock_pct: Float64, is_long: bool) -> Formula {
    let one = value_of(number(ONE));
    let share = quotient_of(value_of(lock_pct), value_of(number(HUNDRED)));
    product_of(
        value_of(entry),
        if is_long {
            sum_of(one, share)
        } else {
            difference_of(one, share)
        },
    )
}

pub fn lock_price(entry: Float64, lock_pct: Float64, is_long: bool) -> (r: Formula)
    ensures
        r == lock_of(entry, lock_pct, is_long),
{
    let one: Formula = Formula::Value(Float64 { bits: ONE });
    let share: Formula = quotient(
        Formula::Value(lock_pct),
        Formula::Value(Float64 { bits: HUNDRED }),
    );
    let factor: Formula = if is_long {
        sum(one, share)
    } else {
        difference(one, share)
    };
    product(Formula::Value(entry), factor)
}

/// The better of two prices for a position: the higher for a long, the lower for a
/// short, the first where neither is better.
pub open spec fn better(best: Float64, mark: Float64, is_long: bool) -> Float64 {
    if is_long {
        if best.less(mark) {
            mark
        } else {
            best
        }
    } else if mark.less(best) {
        mark
    } else {
        best
    }
}

/// The best price after one more mark.
pub open spec fn water_after(water: Option<Float64>, mark: Float64, is_long: bool) -> Float64 {
    match water {
        Some(best) => better(best, mark, is_long),
        None => mark,
    }
}

#[derive(Debug)]
pub struct ProfitLockConfig {
    pub enabled: bool,
    pub schedule_task_id: u64,
    pub rules: Vec<ProfitLockRule>,
}

/// Keeps a protective exit armed at `lock_pct` past entry once price has moved
/// `activation_pct` past it. The armed flag derives from `water`, an in-memory
/// per-position best price scoped to the position lifecycle: it survives pullbacks
/// while the process lives and re-accumulates from the current mark after a restart.
#[derive(Debug)]
pub struct ProfitLock {
    pub enabled: bool,
    pub rules: Vec<ProfitLockRule>,
    pub schedule_task_id: u64,
    /// The best price of each position.
    pub water: Table<Float64>,
    /// When each position was last closed, in nanoseconds.
    pub fired: Table<u128>,
}

/// A position under a rule, with its best price.
#[derive(Debug)]
pub struct Watched {
    pub key: String,
    pub rule: ProfitLockRule,
    pub water: Float64,
}

/// One pass over the positions of a round.
#[derive(Debug)]
pub struct LockRound {
    pub positions: Vec<PositionSnapshot>,
    /// How many positions have been taken up.
    pub next: usize,
    /// The position taken up last, while it waits for an answer.
    pub waiting: Option<Watched>,
}

impl LockRound {
    pub open spec fn well_formed(self) -> bool {
        self.next <= self.positions@.len() && (self.waiting is Some ==> self.next > 0)
    }

    pub fn new(positions: Vec<PositionSnapshot>) -> (r: Self)
        ensures
            r.well_formed(),
            r.positions == positions,
            r.next == 0,
            r.waiting is None,
    {
        LockRound { positions, next: 0, waiting: None }
    }
}

/// What the host reports back to a round.
#[derive(Debug)]
pub enum LockEvent {
    /// The round starts.
    Begin,
    /// The two formulas of [`LockAction::Evaluate`] came to these numbers.
    Levels { moved: Float64, lock: Float64, now: u128 },
    /// The close was sent, recorded, or too small to send.
    CloseDone { now: u128 },
    /// The close failed; it is retried next round.
    CloseFailed,
}

/// What the host is to do next.
#[derive(Debug)]
pub enum LockAction {
    /// Evaluate the gain and the locked price.
    Evaluate { moved_pct: Formula, lock: Formula },
    /// Close `pct` percent of the position at this place of the round.
    Close { position: usize, pct: Float64 },
    /// The round is over.
    Done,
}

/// Whether the position at `i` is the first from `from` on that a rule covers.
pub open spec fn next_covered_at(
    rules: Seq<ProfitLockRule>,
    positions: Seq<PositionSnapshot>,
    from: int,
    i: int,
) -> bool {
    &&& from <= i < positions.len()
    &&& matched(rules, positions[i].inst@) is Some
    &&& forall|j: int| from <= j < i ==> matched(rules, (#[trigger] positions[j]).inst@) is None
}

/// Whether no position from `from` on is covered by a rule.
pub open spec fn none_covered(
    rules: Seq<ProfitLockRule>,
    positions: Seq<PositionSnapshot>,
    from: int,
) -> bool {
    forall|j: int|
        from <= j < positions.len() ==> matched(rules, (#[trigger] positions[j]).inst@) is None
}

/// Whether a position is to be closed, by what its formulas came to.
pub open spec fn close_wanted(
    fired: Map<Seq<char>, u128>,
    position: PositionSnapshot,
    watched: Watched,
    moved: Float64,
    lock: Float64,
    now: u128,
) -> bool {
    &&& is_armed(position.avg_price, moved, watched.rule.activation_pct)
    &&& crossed(position.mark_price, lock, position.long())
    &&& fire_allowed(fired, watched.key@, now)
}

impl ProfitLock {
    /// Whether everything but the marks and the closes is as in `before`.
    pub open spec fn same_setup(self, before: Self) -> bool {
        &&& self.enabled == before.enabled
        &&& self.rules == before.rules
        &&& self.schedule_task_id == before.schedule_task_id
    }

    /// What taking note of `position` leaves behind, and what it returns.
    pub open spec fn noted(
        self,
        before: Self,
        position: PositionSnapshot,
        watched: Watched,
    ) -> bool {
        let key = key_of(position.exchange@, position.inst@);
        let best = if before.water@.contains_key(key) {
            Some(before.water@[key])
        } else {
            None
        };
        let water = water_after(best, position.mark_price, position.long());
        let rule = before.rules@[matched(before.rules@, position.inst@)->0];
        &&& watched.key@ == key
        &&& watched.rule == rule
        &&& watched.water == water
        &&& self.water@ == before.water@.insert(key, water)
    }

    pub fn new(config: &ProfitLockConfig) -> (r: Self)
        ensures
            r.enabled == config.enabled,
            r.rules@ == config.rules@,
            r.schedule_task_id == config.schedule_task_id,
            r.water@ == Map::<Seq<char>, Float64>::empty(),
            r.fired@ == Map::<Seq<char>, u128>::empty(),
    {
        let rules: Vec<ProfitLockRule> = config.rules.clone();
        assert(rules@ =~= config.rules@);
        ProfitLock {
            enabled: config.enabled,
            rules,
            schedule_task_id: config.schedule_task_id,
            water: Table::new(),
            fired: Table::new(),
        }
    }

    /// Whether the module runs at a scheduler event: only at its own, and only where it is enabled
    /// and has rules.
    pub open spec fn runs_at(self, task_id: u64) -> bool {
        self.enabled && task_id == self.schedule_task_id && self.rules@.len() > 0
    }

    /// Whether a scheduler event is for this module.
    pub fn is_due(&self, task_id: u64) -> (r: bool)
        ensures
            r == self.runs_at(task_id),
            r == (self.enabled && task_id == self.schedule_task_id && self.rules@.len() > 0),
    {
        self.enabled && task_id == self.schedule_task_id && self.rules.len() > 0
    }

    /// Takes note of a position's mark. Positions that no rule covers are left alone.
    pub fn track(&mut self, position: &PositionSnapshot) -> (r: Option<Watched>)
        ensures
            final(self).same_setup(*old(self)),
            final(self).fired == old(self).fired,
            match matched(old(self).rules@, position.inst@) {
                None => r is None && final(self).water == old(self).water,
                Some(_) => r is Some && final(self).noted(*old(self), *position, r->0),
            },
    {
        let rule: ProfitLockRule = match match_rule(&self.rules, position.inst.as_str()) {
            Some(i) => self.rules[i].clone(),
            None => return None,
        };
        let key: String = position_key(position.exchange.as_str(), position.inst.as_str());
        let mark: Float64 = position.mark_price;
        let is_long: bool = position.is_long();
        let water: Float64 = match self.water.get(key.as_str()) {
            Some(best) => if is_long {
                if best.lt(mark) {
                    mark
                } else {
                    *best
                }
            } else if mark.lt(*best) {
                mark
            } else {
                *best
            },
            None => mark,
        };
        self.water.insert(key.clone(), water);
        Some(Watched { key, rule, water })
    }

    /// Whether to close a position, by what its two formulas came to.
    pub fn should_close(
        &self,
        position: &PositionSnapshot,
        watched: &Watched,
        moved: Float64,
        lock: Float64,
        now: u128,
    ) -> (r: bool)
        ensures
            r == close_wanted(self.fired@, *position, *watched, moved, lock, now),
    {
        if !armed(position.avg_price, moved, watched.rule.activation_pct) {
            return false;
        }
        is_crossed(position.mark_price, lock, position.is_long()) && may_fire(
            &self.fired,
            watched.key.as_str(),
            now,
        )
    }

    /// Takes note that a close went out.
    pub fn closed(&mut self, key: &str, now: u128)
        ensures
            final(self).fired@ == old(self).fired@.insert(key@, now),
            final(self).same_setup(*old(self)),
            final(self).water == old(self).water,
    {
        self.fired.insert(key.to_owned(), now);
    }

    /// Ends a round: forgets the positions that are gone.
    pub fn finish_round(&mut self, positions: &Vec<PositionSnapshot>)
        ensures
            final(self).water@ == old(self).water@.restrict(
                Set::new(|key: Seq<char>| live(old(self).rules@, positions@, key)),
            ),
            final(self).fired@ == old(self).fired@.restrict(
                Set::new(|key: Seq<char>| live(old(self).rules@, positions@, key)),
            ),
            final(self).same_setup(*old(self)),
    {
        let keep: Vec<String> = live_keys(&self.rules, positions);
        proof {
            assert(Set::new(|key: Seq<char>| listed(keep@, key)) =~= Set::new(
                |key: Seq<char>| live(self.rules@, positions@, key),
            ));
        }
        self.water.retain(&keep);
        self.fired.retain(&keep);
    }

    /// Takes up the next position that a rule covers, or ends the round.
    fn advance(&mut self, round: &mut LockRound) -> (r: LockAction)
        requires
            old(round).well_formed(),
        ensures
            final(self).advanced(
                *old(self),
                old(self).fired@,
                *old(round),
                *final(round),
                r,
            ),
    {
        let ghost start = round.next as int;
        while round.next < round.positions.len()
            invariant
                start <= round.next <= round.positions@.len(),
                round.positions == old(round).positions,
                *self == *old(self),
                start == old(round).next,
                forall|j: int|
                    start <= j < round.next ==> matched(
                        self.rules@,
                        (#[trigger] round.positions@[j]).inst@,
                    ) is None,
            decreases round.positions@.len() - round.next,
        {
            let i: usize = round.next;
            if match_rule(&self.rules, round.positions[i].inst.as_str()).is_some() {
                let noted: Option<Watched> = self.track(&round.positions[i]);
                round.next = i + 1;
                if let Some(watched) = noted {
                    let moved: Formula = moved_pct(
                        round.positions[i].avg_price,
                        watched.water,
                        round.positions[i].is_long(),
                    );
                    let lock: Formula = lock_price(
                        round.positions[i].avg_price,
                        watched.rule.lock_pct,
                        round.positions[i].is_long(),
                    );
                    round.waiting = Some(watched);
                    assert(next_covered_at(old(self).rules@, round.positions@, start, i as int));
                    return LockAction::Evaluate { moved_pct: moved, lock };
                }
            }
            round.next = i + 1;
        }
        round.waiting = None;
        self.finish_round(&round.positions);
        LockAction::Done
    }

    /// What taking up the next covered position leaves behind, and what is to be done, with
    /// `fired` the closes on record.
    pub open spec fn advanced(
        self,
        before: Self,
        fired: Map<Seq<char>, u128>,
        round_before: LockRound,
        round: LockRound,
        action: LockAction,
    ) -> bool {
        let positions = round_before.positions@;
        let from = round_before.next as int;
        &&& self.same_setup(before)
        &&& round.well_formed()
        &&& round.positions == round_before.positions
        &&& match action {
            LockAction::Evaluate { moved_pct, lock } => {
                let i = round.next - 1;
                &&& next_covered_at(before.rules@, positions, from, i)
                &&& round.waiting is Some
                &&& self.noted(before, positions[i], round.waiting->0)
                &&& moved_pct == moved_of(
                    positions[i].avg_price,
                    round.waiting->0.water,
                    positions[i].long(),
                )
                &&& lock == lock_of(
                    positions[i].avg_price,
                    round.waiting->0.rule.lock_pct,
                    positions[i].long(),
                )
                &&& self.fired@ == fired
            },
            LockAction::Close { .. } => false,
            LockAction::Done => {
                let keep = Set::new(|key: Seq<char>| live(before.rules@, positions, key));
                &&& none_covered(before.rules@, positions, from)
                &&& round.next == positions.len()
                &&& round.waiting is None
                &&& self.water@ == before.water@.restrict(keep)
                &&& self.fired@ == fired.restrict(keep)
            },
        }
    }

    /// How a report carries a round on: what is left behind, and what is to be done. A
    /// position is closed when its formulas say so; in every other case the round goes on to
    /// the next covered position, once a completed close is noted.
    pub open spec fn stepped(
        self,
        before: Self,
        round_before: LockRound,
        event: LockEvent,
        round: LockRound,
        action: LockAction,
    ) -> bool {
        let waiting = round_before.waiting;
        let position = round_before.positions@[round_before.next - 1];
        match event {
            LockEvent::Levels { moved, lock, now } if waiting is Some && close_wanted(
                before.fired@,
                position,
                waiting->0,
                moved,
                lock,
                now,
            ) => {
                &&& action == (LockAction::Close {
                    position: (round_before.next - 1) as usize,
                    pct: number(HUNDRED),
                })
                &&& self == before
                &&& round == round_before
            },
            LockEvent::CloseDone { now } if waiting is Some => self.advanced(
                before,
                before.fired@.insert(waiting->0.key@, now),
                round_before,
                round,
                action,
            ),
            _ => self.advanced(before, before.fired@, round_before, round, action),
        }
    }

    /// Carries a round on: takes in what the host reports and says what to do next.
    pub fn reconcile(&mut self, round: &mut LockRound, event: LockEvent) -> (r: LockAction)
        requires
            old(round).well_formed(),
        ensures
            final(round).well_formed(),
            final(self).stepped(*old(self), *old(round), event, *final(round), r),
    {
        match event {
            LockEvent::Levels { moved, lock, now } => {
                if let Some(watched) = &round.waiting {
                    let i: usize = round.next - 1;
                    if self.should_close(&round.positions[i], watched, moved, lock, now) {
                        return LockAction::Close { position: i, pct: Float64 { bits: HUNDRED } };
                    }
                }
            },
            LockEvent::CloseDone { now } => {
                if let Some(watched) = &round.waiting {
                    self.closed(watched.key.as_str(), now);
                }
            },
            _ => {},
        }
        self.advance(round)
    }
}

/// A position is closed exactly when its best price has armed the lock, the mark has come
/// back to the locked price, and no close went out within the refire time.
pub proof fn law_closes_exactly_when_the_lock_is_crossed(
    before: ProfitLock,
    after: ProfitLock,
    round_before: LockRound,
    event: LockEvent,
    round: LockRound,
    action: LockAction,
)
    requires
        after.stepped(before, round_before, event, round, action),
    ensures
        action is Close <==> round_before.waiting is Some && match event {
            LockEvent::Levels { moved, lock, now } => {
                let position = round_before.positions@[round_before.next - 1];
                let watched = round_before.waiting->0;
                &&& is_armed(position.avg_price, moved, watched.rule.activation_pct)
                &&& crossed(position.mark_price, lock, position.long())
                &&& fire_allowed(before.fired@, watched.key@, now)
            },
            _ => false,
        },
{
}

/// A lifecycle ends with the position: at the end of a round nothing is left on record of a
/// position that is gone, and everything of one that is live.
pub proof fn law_records_last_as_long_as_the_position(
    before: ProfitLock,
    after: ProfitLock,
    round_before: LockRound,
    event: LockEvent,
    round: LockRound,
    action: LockAction,
    key: Seq<char>,
)
    requires
        after.stepped(before, round_before, event, round, action),
        action is Done,
    ensures
        live(before.rules@, round_before.positions@, key) ==> after.water@.contains_key(key)
            == before.water@.contains_key(key),
        live(before.rules@, round_before.positions@, key) && before.water@.contains_key(key)
            ==> after.water@[key] == before.water@[key],
        !live(before.rules@, round_before.positions@, key) ==> !after.water@.contains_key(key)
            && !after.fired@.contains_key(key),
{
}

/// The best price after a series of marks.
pub open spec fn water_of(marks: Seq<Float64>, is_long: bool) -> Option<Float64>
    decreases marks.len(),
{
    if marks.len() == 0 {
        None
    } else {
        Some(water_after(water_of(marks.drop_last(), is_long), marks.last(), is_long))
    }
}

/// The water mark is the best mark seen in the position's lifecycle: one of the marks,
/// and no other is better.
pub proof fn law_water_is_the_best_mark(marks: Seq<Float64>, is_long: bool)
    requires
        marks.len() > 0,
        forall|i: int| 0 <= i < marks.len() ==> !(#[trigger] marks[i]).nan(),
    ensures
        water_of(marks, is_long) is Some,
        marks.contains(water_of(marks, is_long)->0),
        is_long ==> forall|i: int|
            0 <= i < marks.len() ==> (#[trigger] marks[i]).at_most(water_of(marks, is_long)->0),
        !is_long ==> forall|i: int|
            0 <= i < marks.len() ==> water_of(marks, is_long)->0.at_most(#[trigger] marks[i]),
    decreases marks.len(),
{
    let before = marks.drop_last();
    let best = water_of(marks, is_long)->0;
    let last = marks.len() - 1;
    assert(!marks[last].nan());
    if before.len() > 0 {
        assert forall|i: int| 0 <= i < before.len() implies !(#[trigger] before[i]).nan() by {
            assert(!marks[i].nan());
        }
        law_water_is_the_best_mark(before, is_long);
        let old_best = water_of(before, is_long)->0;
        let k = choose|k: int| 0 <= k < before.len() && before[k] == old_best;
        assert(marks[k] == old_best);
        assert(!old_best.nan());
        assert forall|i: int| 0 <= i < marks.len() && is_long implies (#[trigger] marks[i]).at_most(
            best,
        ) by {
            if i < last {
                assert(before[i].at_most(old_best));
            }
        }
        assert forall|i: int| 0 <= i < marks.len() && !is_long implies best.at_most(
            #[trigger] marks[i],
        ) by {
            if i < last {
                assert(old_best.at_most(before[i]));
            }
        }
    } else {
        assert(best == marks[last]);
    }
}

/// The water mark survives pullbacks: a mark that is not better leaves it as it is.
pub proof fn law_water_survives_pullbacks(best: Float64, mark: Float64, is_long: bool)
    requires
        is_long ==> mark.at_most(best),
        !is_long ==> best.at_most(mark),
    ensures
        water_after(Some(best), mark, is_long) == best,
{
}

/// Every round ends: each step that is not a close takes up a later position or is the last.
pub proof fn law_every_round_ends(
    before: ProfitLock,
    after: ProfitLock,
    round_before: LockRound,
    event: LockEvent,
    round: LockRound,
    action: LockAction,
)
    requires
        round_before.well_formed(),
        after.stepped(before, round_before, event, round, action),
    ensures
        action is Evaluate ==> round_before.next < round.next <= round.positions@.len(),
        action is Close ==> event is Levels && round == round_before,
        action is Done ==> round.next == round.positions@.len(),
{
}

/// The best price on record of a position is the best of the marks of its lifecycle: where it
/// is that of the marks seen so far, taking note of the position makes it that of those and
/// the mark of now.
pub proof fn law_record_follows_the_marks(
    before: ProfitLock,
    after: ProfitLock,
    position: PositionSnapshot,
    watched: Watched,
    marks: Seq<Float64>,
)
    requires
        after.noted(before, position, watched),
        ({
            let key = key_of(position.exchange@, position.inst@);
            water_of(marks, position.long()) == if before.water@.contains_key(key) {
                Some(before.water@[key])
            } else {
                None
            }
        }),
    ensures
        ({
            let key = key_of(position.exchange@, position.inst@);
            let best = water_of(marks.push(position.mark_price), position.long());
            &&& after.water@.contains_key(key)
            &&& Some(after.water@[key]) == best
            &&& Some(watched.water) == best
        }),
{
    assert(marks.push(position.mark_price).drop_last() =~= marks);
}

/// Taking note of a position leaves the best prices of all others alone.
pub proof fn law_other_records_stay(
    before: ProfitLock,
    after: ProfitLock,
    position: PositionSnapshot,
    watched: Watched,
    key: Seq<char>,
)
    requires
        after.noted(before, position, watched),
        key != key_of(position.exchange@, position.inst@),
    ensures
        after.water@.contains_key(key) == before.water@.contains_key(key),
        before.water@.contains_key(key) ==> after.water@[key] == before.water@[key],
{
}

proof fn lemma_gain(entry: Float64, best: Float64, is_long: bool)
    ensures
        ({
            let (n, d) = exact(moved_of(entry, best, is_long));
            let u = unit();
            let way = if is_long {
                best.units() - entry.units()
            } else {
                entry.units() - best.units()
            };
            &&& n == 100 * way * (u * u * u)
            &&& d == entry.units() * (u * u * u)
        }),
{
    let (from, to) = if is_long {
        (entry, best)
    } else {
        (best, entry)
    };
    let u = unit();
    let (vt, vf, ve, vh) = (value_of(to), value_of(from), value_of(entry), value_of(number(HUNDRED)));
    let gain = difference_of(vt, vf);
    law_constants_are_exact();
    law_exact_arithmetic(to, vt, vf);
    law_exact_arithmetic(from, gain, ve);
    law_exact_arithmetic(entry, quotient_of(gain, ve), vh);
    law_exact_arithmetic(number(HUNDRED), vt, vf);
    let (t, f, e) = (to.units(), from.units(), entry.units());
    assert(exact(gain) == (t * u - f * u, u * u));
    assert(exact(quotient_of(gain, ve)) == ((t * u - f * u) * u, (u * u) * e));
    assert(((t * u - f * u) * u) * (100 * u) == 100 * (t - f) * (u * u * u)) by (nonlinear_arith);
    assert(((u * u) * e) * u == e * (u * u * u)) by (nonlinear_arith);
}

/// The gain is a percentage of the entry price: in exact arithmetic it is to a hundred as the way
/// from entry to best price is to the entry, the way turned round for a short. So a best price `p`
/// percent past entry gives a gain of `p`, and prices in the same proportion give the same gain.
pub proof fn law_gain_is_relative_to_entry(
    entry: Float64,
    best: Float64,
    entry2: Float64,
    best2: Float64,
    is_long: bool,
    p: int,
)
    requires
        entry.units() > 0,
        entry2.units() > 0,
    ensures
        ({
            let (n, d) = exact(moved_of(entry, best, is_long));
            let (n2, d2) = exact(moved_of(entry2, best2, is_long));
            let way = if is_long {
                best.units() - entry.units()
            } else {
                entry.units() - best.units()
            };
            &&& d > 0
            &&& n * entry.units() == 100 * way * d
            &&& 100 * way == p * entry.units() ==> n == p * d
            &&& best.units() * entry2.units() == best2.units() * entry.units() ==> n * d2 == n2 * d
        }),
{
    law_constants_are_exact();
    lemma_gain(entry, best, is_long);
    lemma_gain(entry2, best2, is_long);
    let (e, b, e2, b2) = (entry.units(), best.units(), entry2.units(), best2.units());
    let u = unit();
    let c = u * u * u;
    assert(c > 0) by (nonlinear_arith)
        requires
            u > 0,
            c == u * u * u,
    ;
    let way = if is_long {
        b - e
    } else {
        e - b
    };
    let way2 = if is_long {
        b2 - e2
    } else {
        e2 - b2
    };
    assert(e * c > 0) by (nonlinear_arith)
        requires
            e > 0,
            c > 0,
    ;
    assert((100 * way * c) * e == 100 * way * (e * c)) by (nonlinear_arith);
    if 100 * way == p * e {
        assert(100 * way * c == p * (e * c)) by (nonlinear_arith)
            requires
                100 * way == p * e,
        ;
    }
    if b * e2 == b2 * e {
        assert(way * e2 == way2 * e) by (nonlinear_arith)
            requires
                b * e2 == b2 * e,
                (way == b - e && way2 == b2 - e2) || (way == e - b && way2 == e2 - b2),
        ;
        assert((100 * way * c) * (e2 * c) == (100 * way2 * c) * (e * c)) by (nonlinear_arith)
            requires
                way * e2 == way2 * e,
        ;
    }
}

/// The locked price lies `lock_pct` percent past the entry on the winning side: in exact arithmetic
/// a hundred times the price is a hundred and `lock_pct` times the entry for a long position, a
/// hundred less `lock_pct` times for a short one.
pub proof fn law_lock_price_is_past_entry(entry: Float64, lock_pct: Float64, is_long: bool)
    ensures
        ({
            let (n, d) = exact(lock_of(entry, lock_pct, is_long));
            let u = unit();
            let share = if is_long {
                100 * u + lock_pct.units()
            } else {
                100 * u - lock_pct.units()
            };
            &&& d > 0
            &&& n * (100 * u * u) == entry.units() * share * d
        }),
{
    law_constants_are_exact();
    let u = unit();
    let (e, p) = (entry.units(), lock_pct.units());
    let (ve, vp, vh, one) = (
        value_of(entry),
        value_of(lock_pct),
        value_of(number(HUNDRED)),
        value_of(number(ONE)),
    );
    let share = quotient_of(vp, vh);
    let factor = if is_long {
        sum_of(one, share)
    } else {
        difference_of(one, share)
    };
    law_exact_arithmetic(entry, vp, vh);
    law_exact_arithmetic(lock_pct, one, share);
    law_exact_arithmetic(number(HUNDRED), ve, factor);
    law_exact_arithmetic(number(ONE), ve, factor);
    assert(exact(share) == (p * u, u * (100 * u)));
    let fd = u * (u * (100 * u));
    let part = (p * u) * u;
    let s = if is_long {
        100 * u + p
    } else {
        100 * u - p
    };
    let fn_ = if is_long {
        fd + part
    } else {
        fd - part
    };
    assert(exact(factor) == (fn_, fd));
    let (n, d) = exact(lock_of(entry, lock_pct, is_long));
    assert(n == e * fn_ && d == u * fd);
    assert(d > 0) by (nonlinear_arith)
        requires
            u > 0,
            d == u * (u * (u * (100 * u))),
    ;
    assert(fn_ == (u * u) * s) by (nonlinear_arith)
        requires
            fd == u * (u * (100 * u)),
            part == (p * u) * u,
            (fn_ == fd + part && s == 100 * u + p) || (fn_ == fd - part && s == 100 * u - p),
    ;
    assert((e * fn_) * (100 * u * u) == e * s * (u * fd)) by (nonlinear_arith)
        requires
            fn_ == (u * u) * s,
            fd == u * (u * (100 * u)),
    ;
}

/// A lock is armed exactly when the entry is above zero and the gain has reached the activation.
pub proof fn law_armed_by_value(entry: Float64, moved: Float64, activation_pct: Float64)
    requires
        entry.finite(),
        moved.finite(),
        activation_pct.finite(),
    ensures
        is_armed(entry, moved, activation_pct) <==> entry.units() > 0 && moved.units()
            >= activation_pct.units(),
{
    law_sign_of_finite_numbers(entry);
    law_comparison_is_numeric(activation_pct, moved);
}

/// The best price only ever moves to a better mark: up for a long position, down for a short one, by
/// value; the first mark is the first best price.
pub proof fn law_best_price_by_value(best: Float64, mark: Float64)
    requires
        best.finite(),
        mark.finite(),
    ensures
        water_after(Some(best), mark, true).units() == if mark.units() > best.units() {
            mark.units()
        } else {
            best.units()
        },
        water_after(Some(best), mark, false).units() == if mark.units() < best.units() {
            mark.units()
        } else {
            best.units()
        },
        water_after(None, mark, true) == mark,
        water_after(None, mark, false) == mark,
{
    law_comparison_is_numeric(best, mark);
    law_comparison_is_numeric(mark, best);
}

/// Every covered position is taken up, in the order of the round: the positions passed over are
/// under no rule, and the round is done only when those left are under none.
pub proof fn law_every_covered_position_is_taken_up(
    before: ProfitLock,
    after: ProfitLock,
    round_before: LockRound,
    event: LockEvent,
    round: LockRound,
    action: LockAction,
    j: int,
)
    requires
        round_before.well_formed(),
        after.stepped(before, round_before, event, round, action),
        round_before.next <= j < round_before.positions@.len(),
    ensures
        action is Evaluate && j < round.next - 1 ==> matched(
            before.rules@,
            round_before.positions@[j].inst@,
        ) is None,
        action is Evaluate && j == round.next - 1 ==> matched(
            before.rules@,
            round_before.positions@[j].inst@,
        ) is Some,
        action is Done ==> matched(before.rules@, round_before.positions@[j].inst@) is None,
{
}

/// What is evaluated is the gain and the locked price of the position taken up: the gain from its
/// entry to the best price on record, and the lock that its rule asks for.
pub proof fn law_position_taken_up_is_evaluated(
    before: ProfitLock,
    after: ProfitLock,
    round_before: LockRound,
    event: LockEvent,
    round: LockRound,
    action: LockAction,
)
    requires
        round_before.well_formed(),
        after.stepped(before, round_before, event, round, action),
        action is Evaluate,
        round_before.positions@[round.next - 1].avg_price.units() > 0,
    ensures
        ({
            let position = round_before.positions@[round.next - 1];
            let rule = before.rules@[matched(before.rules@, position.inst@)->0];
            let key = key_of(position.exchange@, position.inst@);
            let best = after.water@[key];
            let (n, d) = exact(action->moved_pct);
            let (ln, ld) = exact(action->lock);
            let entry = position.avg_price.units();
            let u = unit();
            &&& after.water@.contains_key(key)
            &&& round.waiting is Some
            &&& round.waiting->0.key@ == key
            &&& round.waiting->0.rule == rule
            &&& n * entry == if position.long() {
                100 * (best.units() - entry) * d
            } else {
                100 * (entry - best.units()) * d
            }
            &&& ln * (100 * u * u) == entry * (if position.long() {
                100 * u + rule.lock_pct.units()
            } else {
                100 * u - rule.lock_pct.units()
            }) * ld
        }),
{
    let position = round_before.positions@[round.next - 1];
    let key = key_of(position.exchange@, position.inst@);
    let rule = before.rules@[matched(before.rules@, position.inst@)->0];
    law_gain_is_relative_to_entry(
        position.avg_price,
        after.water@[key],
        position.avg_price,
        after.water@[key],
        position.long(),
        0,
    );
    law_lock_price_is_past_entry(position.avg_price, rule.lock_pct, position.long());
}

/// A close counts when it is reported done, from the time reported; a failed one does not, so that
/// it is tried again.
pub proof fn law_done_closes_are_recorded(
    before: ProfitLock,
    after: ProfitLock,
    round_before: LockRound,
    event: LockEvent,
    round: LockRound,
    action: LockAction,
)
    requires
        round_before.well_formed(),
        round_before.waiting is Some,
        after.stepped(before, round_before, event, round, action),
        live(before.rules@, round_before.positions@, round_before.waiting->0.key@),
    ensures
        ({
            let key = round_before.waiting->0.key@;
            match event {
                LockEvent::CloseDone { now } => after.fired@.contains_key(key) && after.fired@[key]
                    == now,
                _ => {
                    &&& after.fired@.contains_key(key) == before.fired@.contains_key(key)
                    &&& before.fired@.contains_key(key) ==> after.fired@[key] == before.fired@[key]
                },
            }
        }),
{
}

/// The module runs at its own scheduler events alone, and only where it is enabled and has a rule.
pub proof fn law_runs_only_when_due(module: ProfitLock, task_id: u64)
    ensures
        !module.enabled ==> !module.runs_at(task_id),
        module.rules@.len() == 0 ==> !module.runs_at(task_id),
        task_id != module.schedule_task_id ==> !module.runs_at(task_id),
        module.enabled && module.rules@.len() > 0 ==> module.runs_at(module.schedule_task_id),
{
}

/// The whole of the position taken up is closed, never a part or another one.
pub proof fn law_whole_positions_are_closed(
    before: ProfitLock,
    after: ProfitLock,
    round_before: LockRound,
    event: LockEvent,
    round: LockRound,
    action: LockAction,
)
    requires
        round_before.well_formed(),
        after.stepped(before, round_before, event, round, action),
        action is Close,
    ensures
        action->position == round_before.next - 1,
        action->pct.units() == 100 * unit(),
        round == round_before,
        after == before,
{
    law_constants_are_exact();
}

}
