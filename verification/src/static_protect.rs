//! Fixed stop-loss and take-profit levels around the entry price.
//!
//! A round goes over the positions one by one. [`StaticProtect::reconcile`] takes in
//! what the host reports and says what the host is to do next.

use crate::config::StaticRule;
use crate::executor::{views, OrderRow};
use crate::firing::{crossed, fire_allowed, is_crossed, may_fire};
use crate::number::{
    difference, difference_of, exact, law_absolute_values, law_comparison_is_numeric,
    law_constants_are_exact, law_exact_arithmetic, law_sign_of_finite_numbers, number, product,
    product_of, quotient, quotient_of, sum, sum_of, unit, value_of, Float64, Formula,
    EXPONENT_WEIGHT, HUNDRED,
};
use crate::ownership::{key_of, position_key};
use crate::pairs::{pair_at, pair_set, pair_view, pair_views, pairs_distinct, Pairs};
use crate::positions::PositionSnapshot;
use crate::rules::{live, live_keys, match_rule, matched};
use crate::table::{contains_text, listed, Table};
use crate::text::same_text;
use vstd::arithmetic::power2::{lemma2_to64, lemma2_to64_rest, lemma_pow2_adds, pow2};
use vstd::prelude::*;

verus! {

/// The encoding of 1.01, by which steps are stretched to allow for rounding.
pub const STEP_SLACK: u64 = 0x3FF0_28F5_C28F_5C29;

/// A distance from the entry price, in per cent of it.
pub open spec fn pct_offset(entry: Float64, pct: Float64) -> Formula {
    quotient_of(product_of(value_of(entry), value_of(pct)), value_of(number(HUNDRED)))
}

pub fn offset_from_pct(entry: Float64, pct: Float64) -> (r: Formula)
    ensures
        r == pct_offset(entry, pct),
{
    quotient(
        product(Formula::Value(entry), Formula::Value(pct)),
        Formula::Value(Float64 { bits: HUNDRED }),
    )
}

/// The distance from the entry price at which a position has lost or won `risk`.
pub open spec fn risk_offset(risk: Float64, size_abs: Float64) -> Option<Formula> {
    if number(0).less(size_abs) {
        Some(quotient_of(value_of(risk), value_of(size_abs)))
    } else {
        None
    }
}

pub fn offset_from_risk(risk: Float64, size_abs: Float64) -> (r: Option<Formula>)
    ensures
        r == risk_offset(risk, size_abs),
{
    if (Float64 { bits: 0 }).lt(size_abs) {
        Some(quotient(Formula::Value(risk), Formula::Value(size_abs)))
    } else {
        None
    }
}

/// The price that lies `offset` on the losing side of the entry price.
pub open spec fn stop_of(entry: Float64, offset: Formula, is_long: bool) -> Formula {
    if is_long {
        difference_of(value_of(entry), offset)
    } else {
        sum_of(value_of(entry), offset)
    }
}

pub fn stop_price(entry: Float64, offset: Formula, is_long: bool) -> (r: Formula)
    ensures
        r == stop_of(entry, offset, is_long),
{
    if is_long {
        difference(Formula::Value(entry), offset)
    } else {
        sum(Formula::Value(entry), offset)
    }
}

/// The price that lies `offset` on the winning side of the entry price.
pub open spec fn target_of(entry: Float64, offset: Formula, is_long: bool) -> Formula {
    if is_long {
        sum_of(value_of(entry), offset)
    } else {
        difference_of(value_of(entry), offset)
    }
}

pub fn target_price(entry: Float64, offset: Formula, is_long: bool) -> (r: Formula)
    ensures
        r == target_of(entry, offset, is_long),
{
    if is_long {
        sum(Formula::Value(entry), offset)
    } else {
        difference(Formula::Value(entry), offset)
    }
}

/// The distance that a rule asks for: its percentage if it has one, else its risk.
pub open spec fn offset_of(
    pct: Option<Float64>,
    risk: Option<Float64>,
    position: PositionSnapshot,
) -> Option<Formula> {
    match pct {
        Some(pct) => Some(pct_offset(position.avg_price, pct)),
        None => match risk {
            Some(risk) => risk_offset(risk, position.size.absolute()),
            None => None,
        },
    }
}

fn offset_for(pct: Option<Float64>, risk: Option<Float64>, position: &PositionSnapshot) -> (r:
    Option<Formula>)
    ensures
        r == offset_of(pct, risk, *position),
{
    match pct {
        Some(pct) => Some(offset_from_pct(position.avg_price, pct)),
        None => match risk {
            Some(risk) => offset_from_risk(risk, position.size.abs()),
            None => None,
        },
    }
}

/// The stop-loss price of a position, where a rule gives it one.
pub open spec fn stop_level(rules: Seq<StaticRule>, position: PositionSnapshot) -> Option<
    Formula,
> {
    match matched(rules, position.inst@) {
        Some(i) => match offset_of(rules[i].sl_pct, rules[i].sl_risk, position) {
            Some(offset) => Some(stop_of(position.avg_price, offset, position.long())),
            None => None,
        },
        None => None,
    }
}

/// The take-profit price of a position, where a rule gives it one.
pub open spec fn target_level(rules: Seq<StaticRule>, position: PositionSnapshot) -> Option<
    Formula,
> {
    match matched(rules, position.inst@) {
        Some(i) => match offset_of(rules[i].tp_pct, rules[i].tp_risk, position) {
            Some(offset) => Some(target_of(position.avg_price, offset, position.long())),
            None => None,
        },
        None => None,
    }
}

/// What a stop-loss price means for a position.
#[derive(Debug, Clone, Copy, PartialEq, Eq, Structural)]
pub enum StopState {
    /// The mark has not reached the stop.
    Clear,
    /// The mark has reached it, but a close went out a moment ago.
    Pending,
    /// The position is to be closed.
    Fire,
}

pub open spec fn stop_state(
    fired: Map<Seq<char>, u128>,
    position: PositionSnapshot,
    stop: Float64,
    now: u128,
) -> StopState {
    if !crossed(position.mark_price, stop, position.long()) {
        StopState::Clear
    } else if fire_allowed(fired, key_of(position.exchange@, position.inst@), now) {
        StopState::Fire
    } else {
        StopState::Pending
    }
}

/// The differences that decide whether a resting order is the wanted take-profit.
#[derive(Debug)]
pub struct Coverage {
    pub price_gap: Formula,
    pub price_slack: Formula,
    pub size_gap: Formula,
    pub size_slack: Formula,
}

/// What the formulas of a [`Coverage`] came to.
#[derive(Debug, Clone, Copy)]
pub struct CoverageValues {
    pub price_gap: Float64,
    pub price_slack: Float64,
    pub size_gap: Float64,
    pub size_slack: Float64,
}

/// The price may be off by one tick and the open size by one lot, each stretched a little.
pub open spec fn coverage_of(
    order: OrderRow,
    target: Float64,
    size_abs: Float64,
    tick: Float64,
    lot: Float64,
) -> Coverage {
    Coverage {
        price_gap: difference_of(value_of(order.price), value_of(target)),
        price_slack: product_of(value_of(tick), value_of(number(STEP_SLACK))),
        size_gap: difference_of(
            difference_of(value_of(order.size), value_of(order.executed_size)),
            value_of(size_abs),
        ),
        size_slack: product_of(value_of(lot), value_of(number(STEP_SLACK))),
    }
}

pub fn coverage(
    order: &OrderRow,
    target: Float64,
    size_abs: Float64,
    tick: Float64,
    lot: Float64,
) -> (r: Coverage)
    ensures
        r == coverage_of(*order, target, size_abs, tick, lot),
{
    Coverage {
        price_gap: difference(Formula::Value(order.price), Formula::Value(target)),
        price_slack: product(Formula::Value(tick), Formula::Value(Float64 { bits: STEP_SLACK })),
        size_gap: difference(
            difference(Formula::Value(order.size), Formula::Value(order.executed_size)),
            Formula::Value(size_abs),
        ),
        size_slack: product(Formula::Value(lot), Formula::Value(Float64 { bits: STEP_SLACK })),
    }
}

/// Whether the gaps are within their slack.
pub open spec fn covers(values: CoverageValues) -> bool {
    &&& values.price_gap.absolute().at_most(values.price_slack)
    &&& values.size_gap.absolute().at_most(values.size_slack)
}

pub fn is_covered(values: &CoverageValues) -> (r: bool)
    ensures
        r == covers(*values),
{
    values.price_gap.abs().le(values.price_slack) && values.size_gap.abs().le(values.size_slack)
}

/// Whether a dry run already has this take-profit on record.
pub open spec fn already_planned(
    planned: Map<Seq<char>, (Float64, Float64)>,
    key: Seq<char>,
    target: Float64,
    size_abs: Float64,
) -> bool {
    planned.contains_key(key) && planned[key].0.equal(target) && planned[key].1.equal(size_abs)
}

/// Whether a rule's leftover orders on an exchange are to be cancelled after a start: it
/// names an instrument, and no position of it is live.
pub open spec fn sweeps(exchange: Seq<char>, rule: StaticRule, keep: Set<Seq<char>>) -> bool {
    rule.inst@ != "*"@ && !keep.contains(key_of(exchange, rule.inst@))
}

/// The instruments to sweep on one exchange.
pub open spec fn exchange_sweep(
    exchange: Seq<char>,
    rules: Seq<StaticRule>,
    keep: Set<Seq<char>>,
) -> Seq<(Seq<char>, Seq<char>)>
    decreases rules.len(),
{
    if rules.len() == 0 {
        Seq::empty()
    } else {
        let before = exchange_sweep(exchange, rules.drop_last(), keep);
        if sweeps(exchange, rules.last(), keep) {
            before.push((exchange, rules.last().inst@))
        } else {
            before
        }
    }
}

/// The instruments to sweep, exchange by exchange.
pub open spec fn full_sweep(
    exchanges: Seq<Seq<char>>,
    rules: Seq<StaticRule>,
    keep: Set<Seq<char>>,
) -> Seq<(Seq<char>, Seq<char>)>
    decreases exchanges.len(),
{
    if exchanges.len() == 0 {
        Seq::empty()
    } else {
        full_sweep(exchanges.drop_last(), rules, keep) + exchange_sweep(
            exchanges.last(),
            rules,
            keep,
        )
    }
}

/// The keys of the positions that a rule covers.
pub open spec fn live_set(rules: Seq<StaticRule>, positions: Seq<PositionSnapshot>) -> Set<
    Seq<char>,
> {
    Set::new(|key: Seq<char>| live(rules, positions, key))
}

/// What is swept after a start.
pub fn sweep_targets(
    exchanges: &Vec<String>,
    rules: &Vec<StaticRule>,
    positions: &Vec<PositionSnapshot>,
) -> (r: Vec<(String, String)>)
    ensures
        pair_views(r@) == full_sweep(views(exchanges@), rules@, live_set(rules@, positions@)),
{
    let keys: Vec<String> = live_keys(rules, positions);
    let ghost keep = live_set(rules@, positions@);
    let mut r: Vec<(String, String)> = Vec::new();
    let mut i: usize = 0;
    assert(pair_views(r@) =~= full_sweep(views(exchanges@).take(0), rules@, keep));
    while i < exchanges.len()
        invariant
            i <= exchanges@.len(),
            keep == live_set(rules@, positions@),
            forall|key: Seq<char>| #[trigger] listed(keys@, key) == live(rules@, positions@, key),
            pair_views(r@) == full_sweep(views(exchanges@).take(i as int), rules@, keep),
        decreases exchanges@.len() - i,
    {
        let exchange: &String = &exchanges[i];
        let ghost before = pair_views(r@);
        let mut j: usize = 0;
        assert(before =~= before + exchange_sweep(exchange@, rules@.take(0), keep));
        while j < rules.len()
            invariant
                j <= rules@.len(),
                keep == live_set(rules@, positions@),
                forall|key: Seq<char>| #[trigger]
                    listed(keys@, key) == live(rules@, positions@, key),
                pair_views(r@) == before + exchange_sweep(
                    exchange@,
                    rules@.take(j as int),
                    keep,
                ),
            decreases rules@.len() - j,
        {
            let rule: &StaticRule = &rules[j];
            let key: String = position_key(exchange.as_str(), rule.inst.as_str());
            assert(rules@.take(j + 1).drop_last() =~= rules@.take(j as int));
            let ghost held = r@;
            if !same_text(rule.inst.as_str(), "*") && !contains_text(&keys, key.as_str()) {
                r.push((exchange.clone(), rule.inst.clone()));
                assert(pair_views(r@) =~= pair_views(held).push((exchange@, rule.inst@)));
                assert(pair_views(r@) =~= before + exchange_sweep(
                    exchange@,
                    rules@.take(j + 1),
                    keep,
                ));
            }
            j += 1;
        }
        proof {
            assert(rules@.take(rules@.len() as int) =~= rules@);
            assert(views(exchanges@).take(i + 1).drop_last() =~= views(exchanges@).take(i as int));
            assert(views(exchanges@).take(i + 1).last() == exchange@);
        }
        i += 1;
    }
    assert(views(exchanges@).take(exchanges@.len() as int) =~= views(exchanges@));
    r
}

/// Where a round stands: what the host was asked for last.
#[derive(Debug, Clone, Copy)]
pub enum StaticPhase {
    /// Nothing yet.
    Start,
    /// The value of the stop-loss price.
    Stop,
    /// To close the position.
    Closing,
    /// The value of the take-profit price.
    Target,
    /// To record a take-profit order in a dry run.
    Planning { target: Float64 },
    /// The guard's own orders on the instrument.
    Orders { target: Float64 },
    /// How far the one resting order is from the wanted one.
    Cover { target: Float64 },
    /// To cancel the guard's own orders before placing a new one.
    Clearing { target: Float64 },
    /// To place a take-profit order.
    Placing,
    /// To cancel the orders of a position that is gone.
    Gone { i: usize },
    /// To cancel orders left over from before the start.
    Sweep { i: usize },
    /// The round is over.
    Over,
}

/// One pass over the positions.
#[derive(Debug)]
pub struct StaticRound {
    pub positions: Vec<PositionSnapshot>,
    pub exchanges: Vec<String>,
    pub dry_run: bool,
    /// How many positions have been taken up.
    pub next: usize,
    pub phase: StaticPhase,
    /// The positions found gone.
    pub gone: Vec<(String, String)>,
    /// The instruments to sweep.
    pub sweep: Vec<(String, String)>,
}

impl StaticRound {
    /// Whether the place that the round stands at exists.
    pub open spec fn well_formed(self) -> bool {
        &&& self.next <= self.positions@.len()
        &&& match self.phase {
            StaticPhase::Start | StaticPhase::Over => true,
            StaticPhase::Gone { i } => i < self.gone@.len(),
            StaticPhase::Sweep { i } => i < self.sweep@.len(),
            _ => self.next > 0,
        }
    }

    /// The position taken up last.
    pub open spec fn current(self) -> PositionSnapshot {
        self.positions@[self.next - 1]
    }

    pub open spec fn current_key(self) -> Seq<char> {
        key_of(self.current().exchange@, self.current().inst@)
    }

    /// Whether what the round works on is as in `before`.
    pub open spec fn same_input(self, before: Self) -> bool {
        &&& self.positions == before.positions
        &&& self.exchanges == before.exchanges
        &&& self.dry_run == before.dry_run
    }

    /// Whether only the phase has changed since `before`.
    pub open spec fn turned(self, before: Self, phase: StaticPhase) -> bool {
        &&& self.same_input(before)
        &&& self.next == before.next
        &&& self.phase == phase
        &&& self.gone == before.gone
        &&& self.sweep == before.sweep
    }

    pub fn new(positions: Vec<PositionSnapshot>, exchanges: Vec<String>, dry_run: bool) -> (r: Self)
        ensures
            r.well_formed(),
            r.positions == positions,
            r.exchanges == exchanges,
            r.dry_run == dry_run,
            r.next == 0,
            r.phase == StaticPhase::Start,
            r.gone@.len() == 0,
            r.sweep@.len() == 0,
    {
        StaticRound {
            positions,
            exchanges,
            dry_run,
            next: 0,
            phase: StaticPhase::Start,
            gone: Vec::new(),
            sweep: Vec::new(),
        }
    }
}

/// What the host reports back to a round.
#[derive(Debug)]
pub enum StaticEvent {
    /// The round starts.
    Begin,
    /// The formula came to this number.
    Level { value: Float64, now: u128 },
    /// The guard's own orders on the instrument, and its price and size steps.
    OwnOrders { orders: Vec<OrderRow>, tick: Float64, lot: Float64 },
    /// What the differences came to.
    Compared { values: CoverageValues },
    /// The request was carried out.
    Completed { now: u128 },
    /// The request failed; it is retried next round.
    Failed,
}

/// What the host is to do next.
#[derive(Debug)]
pub enum StaticAction {
    /// Evaluate a price.
    Evaluate { formula: Formula },
    /// Close `pct` percent of the position at this place of the round.
    Close { position: usize, pct: Float64 },
    /// Look up the guard's own orders and the steps for the position's instrument.
    FetchOwn { position: usize },
    /// Evaluate the differences between the resting order and the wanted one.
    Compare { coverage: Coverage },
    /// Cancel the guard's own orders on an instrument.
    CancelOwn { exchange: String, inst: String },
    /// Place a take-profit order for the position at this place of the round.
    PlaceTp { position: usize, target: Float64 },
    /// The round is over.
    Done,
}

/// Whether an action cancels the guard's own orders on this exchange and instrument.
pub open spec fn cancels(action: StaticAction, pair: (Seq<char>, Seq<char>)) -> bool {
    &&& action is CancelOwn
    &&& action->exchange@ == pair.0
    &&& action->inst@ == pair.1
}

/// Whether position `i`, between `from` and `to`, is a covered one on this exchange and
/// instrument.
pub open spec fn covered_at(
    rules: Seq<StaticRule>,
    positions: Seq<PositionSnapshot>,
    from: int,
    to: int,
    i: int,
    pair: (Seq<char>, Seq<char>),
) -> bool {
    &&& from <= i < to
    &&& matched(rules, positions[i].inst@) is Some
    &&& (positions[i].exchange@, positions[i].inst@) == pair
}

/// The covered positions between `from` and `to`.
pub open spec fn covered_pairs(
    rules: Seq<StaticRule>,
    positions: Seq<PositionSnapshot>,
    from: int,
    to: int,
) -> Set<(Seq<char>, Seq<char>)> {
    Set::new(
        |pair: (Seq<char>, Seq<char>)|
            exists|i: int| covered_at(rules, positions, from, to, i, pair),
    )
}

/// Whether a position has a level to watch.
pub open spec fn has_level(rules: Seq<StaticRule>, position: PositionSnapshot) -> bool {
    stop_level(rules, position) is Some || target_level(rules, position) is Some
}

/// Whether none of the positions between `from` and `to` has a level to watch.
pub open spec fn no_level(
    rules: Seq<StaticRule>,
    positions: Seq<PositionSnapshot>,
    from: int,
    to: int,
) -> bool {
    forall|j: int| from <= j < to ==> !has_level(rules, #[trigger] positions[j])
}

/// Whether a list holds the known positions that are no longer live, each once.
pub open spec fn gone_listed(
    known: Set<(Seq<char>, Seq<char>)>,
    rules: Seq<StaticRule>,
    positions: Seq<PositionSnapshot>,
    gone: Seq<(String, String)>,
) -> bool {
    &&& pairs_distinct(gone)
    &&& forall|pair: (Seq<char>, Seq<char>)| #[trigger]
        pair_set(gone).contains(pair) <==> known.contains(pair) && !live(
            rules,
            positions,
            key_of(pair.0, pair.1),
        )
}

#[derive(Debug)]
pub struct StaticProtectConfig {
    pub enabled: bool,
    pub schedule_task_id: u64,
    pub rules: Vec<StaticRule>,
}

/// Static stop-loss and take-profit derived from entry price, sized by percentage or by
/// quote-currency risk. The take-profit rests on the book as a reduce-only limit; the
/// stop-loss is soft-triggered by this module.
#[derive(Debug)]
pub struct StaticProtect {
    pub enabled: bool,
    pub rules: Vec<StaticRule>,
    pub schedule_task_id: u64,
    /// The positions seen under a rule whose orders have not been cleaned up.
    pub known: Pairs,
    /// When each position was last closed, in nanoseconds.
    pub fired: Table<u128>,
    /// The take-profit price and size that a dry run has on record for each position.
    pub dry_planned: Table<(Float64, Float64)>,
    /// Whether the sweep after the start is still to be made.
    pub sweep_pending: bool,
}

impl StaticProtect {
    pub open spec fn same_setup(self, before: Self) -> bool {
        &&& self.enabled == before.enabled
        &&& self.rules == before.rules
        &&& self.schedule_task_id == before.schedule_task_id
    }

    pub fn new(config: &StaticProtectConfig) -> (r: Self)
        ensures
            r.enabled == config.enabled,
            r.rules@ == config.rules@,
            r.schedule_task_id == config.schedule_task_id,
            r.known@ == Set::<(Seq<char>, Seq<char>)>::empty(),
            r.fired@ == Map::<Seq<char>, u128>::empty(),
            r.dry_planned@ == Map::<Seq<char>, (Float64, Float64)>::empty(),
            r.sweep_pending,
    {
        let rules: Vec<StaticRule> = config.rules.clone();
        assert(rules@ =~= config.rules@);
        StaticProtect {
            enabled: config.enabled,
            rules,
            schedule_task_id: config.schedule_task_id,
            known: Pairs::new(),
            fired: Table::new(),
            dry_planned: Table::new(),
            sweep_pending: true,
        }
    }

    /// Whether the module runs at a scheduler event: only at its own, and only where it is enabled
    /// and has rules.
    pub open spec fn runs_at(self, task_id: u64) -> bool {
        self.enabled && task_id == self.schedule_task_id && self.rules@.len() > 0
    }

    /// Whether a scheduler event is for this module.
    pub fn is_due(&self, task_id: u64) -> (r: bool)
        ensures
            r == self.runs_at(task_id),
            r == (self.enabled && task_id == self.schedule_task_id && self.rules@.len() > 0),
    {
        self.enabled && task_id == self.schedule_task_id && self.rules.len() > 0
    }

    /// The stop-loss price of a position.
    pub fn stop(&self, position: &PositionSnapshot) -> (r: Option<Formula>)
        ensures
            r == stop_level(self.rules@, *position),
    {
        match match_rule(&self.rules, position.inst.as_str()) {
            Some(i) => {
                let rule: &StaticRule = &self.rules[i];
                match offset_for(rule.sl_pct, rule.sl_risk, position) {
                    Some(offset) => Some(
                        stop_price(position.avg_price, offset, position.is_long()),
                    ),
                    None => None,
                }
            },
            None => None,
        }
    }

    /// The take-profit price of a position.
    pub fn target(&self, position: &PositionSnapshot) -> (r: Option<Formula>)
        ensures
            r == target_level(self.rules@, *position),
    {
        match match_rule(&self.rules, position.inst.as_str()) {
            Some(i) => {
                let rule: &StaticRule = &self.rules[i];
                match offset_for(rule.tp_pct, rule.tp_risk, position) {
                    Some(offset) => Some(
                        target_price(position.avg_price, offset, position.is_long()),
                    ),
                    None => None,
                }
            },
            None => None,
        }
    }

    /// What a stop-loss price means for a position. Take-profit maintenance is skipped
    /// for the round unless the answer is [`StopState::Clear`].
    pub fn check_stop_loss(&self, position: &PositionSnapshot, stop: Float64, now: u128) -> (r:
        StopState)
        ensures
            r == stop_state(self.fired@, *position, stop, now),
    {
        if !is_crossed(position.mark_price, stop, position.is_long()) {
            return StopState::Clear;
        }
        let key: String = position_key(position.exchange.as_str(), position.inst.as_str());
        if may_fire(&self.fired, key.as_str(), now) {
            StopState::Fire
        } else {
            StopState::Pending
        }
    }

    fn is_planned(&self, key: &str, target: Float64, size_abs: Float64) -> (r: bool)
        ensures
            r == already_planned(self.dry_planned@, key@, target, size_abs),
    {
        match self.dry_planned.get(key) {
            Some(planned) => planned.0.eq(target) && planned.1.eq(size_abs),
            None => false,
        }
    }

    /// What starting the sweep leaves behind, and what is to be done.
    pub open spec fn swept(self, pending: bool, round: StaticRound, action: StaticAction) -> bool {
        let targets = full_sweep(
            views(round.exchanges@),
            self.rules@,
            live_set(self.rules@, round.positions@),
        );
        &&& !self.sweep_pending
        &&& if pending && targets.len() > 0 {
            &&& round.phase == (StaticPhase::Sweep { i: 0 })
            &&& pair_views(round.sweep@) == targets
            &&& cancels(action, targets[0])
        } else {
            round.phase == StaticPhase::Over && action is Done
        }
    }

    /// What coming to the end of the positions leaves behind, and what is to be done.
    pub open spec fn wound_up(
        self,
        pending: bool,
        round: StaticRound,
        action: StaticAction,
    ) -> bool {
        &&& gone_listed(self.known@, self.rules@, round.positions@, round.gone@)
        &&& if round.gone@.len() > 0 {
            &&& round.phase == (StaticPhase::Gone { i: 0 })
            &&& cancels(action, pair_view(round.gone@[0]))
            &&& self.sweep_pending == pending
        } else {
            self.swept(pending, round, action)
        }
    }

    /// What going on to the next position leaves behind, and what is to be done, with
    /// `fired` and `planned` the closes and the planned orders on record.
    pub open spec fn advanced(
        self,
        before: Self,
        fired: Map<Seq<char>, u128>,
        planned: Map<Seq<char>, (Float64, Float64)>,
        round_before: StaticRound,
        round: StaticRound,
        action: StaticAction,
    ) -> bool {
        let rules = before.rules@;
        let positions = round_before.positions@;
        let from = round_before.next as int;
        &&& self.same_setup(before)
        &&& self.fired@ == fired
        &&& self.dry_planned@ == planned
        &&& self.known@ == before.known@.union(
            covered_pairs(rules, positions, from, round.next as int),
        )
        &&& round.well_formed()
        &&& round.same_input(round_before)
        &&& match action {
            StaticAction::Evaluate { formula } => {
                let i = round.next - 1;
                &&& from <= i
                &&& no_level(rules, positions, from, i)
                &&& match stop_level(rules, positions[i]) {
                    Some(stop) => formula == stop && round.phase == StaticPhase::Stop,
                    None => {
                        &&& target_level(rules, positions[i]) == Some(formula)
                        &&& round.phase == StaticPhase::Target
                    },
                }
                &&& self.sweep_pending == before.sweep_pending
            },
            _ => {
                &&& round.next == positions.len()
                &&& no_level(rules, positions, from, positions.len() as int)
                &&& self.wound_up(before.sweep_pending, round, action)
            },
        }
    }

    /// What going on to the take-profit of the current position leaves behind.
    pub open spec fn targeted(
        self,
        before: Self,
        round_before: StaticRound,
        round: StaticRound,
        action: StaticAction,
    ) -> bool {
        match target_level(before.rules@, round_before.current()) {
            Some(formula) => {
                &&& self == before
                &&& round.turned(round_before, StaticPhase::Target)
                &&& action == (StaticAction::Evaluate { formula })
            },
            None => self.advanced(
                before,
                before.fired@,
                before.dry_planned@,
                round_before,
                round,
                action,
            ),
        }
    }

    /// What asking for a take-profit order on the current position leaves behind.
    pub open spec fn placing(
        self,
        before: Self,
        round_before: StaticRound,
        round: StaticRound,
        action: StaticAction,
        phase: StaticPhase,
        target: Float64,
    ) -> bool {
        &&& self == before
        &&& round.turned(round_before, phase)
        &&& action == (StaticAction::PlaceTp {
            position: (round_before.next - 1) as usize,
            target,
        })
    }

    /// What asking for the current position's own orders to be cancelled leaves behind.
    pub open spec fn clearing(
        self,
        before: Self,
        round_before: StaticRound,
        round: StaticRound,
        action: StaticAction,
        target: Float64,
    ) -> bool {
        let position = round_before.current();
        &&& self == before
        &&& round.turned(round_before, StaticPhase::Clearing { target })
        &&& cancels(action, (position.exchange@, position.inst@))
    }

    /// Whether the position at `gone` was forgotten where `done`, and nothing else.
    pub open spec fn forgot(self, before: Self, gone: (Seq<char>, Seq<char>), done: bool) -> bool {
        let key = key_of(gone.0, gone.1);
        &&& self.same_setup(before)
        &&& if done {
            &&& self.known@ == before.known@.remove(gone)
            &&& self.fired@ == before.fired@.remove(key)
            &&& self.dry_planned@ == before.dry_planned@.remove(key)
        } else {
            &&& self.known@ == before.known@
            &&& self.fired@ == before.fired@
            &&& self.dry_planned@ == before.dry_planned@
        }
    }

    /// How a report carries a round on: what is left behind, and what is to be done.
    pub open spec fn stepped(
        self,
        before: Self,
        round_before: StaticRound,
        event: StaticEvent,
        round: StaticRound,
        action: StaticAction,
    ) -> bool {
        let position = round_before.current();
        let place = (round_before.next - 1) as usize;
        let key = round_before.current_key();
        let size_abs = position.size.absolute();
        let goes_on = self.advanced(
            before,
            before.fired@,
            before.dry_planned@,
            round_before,
            round,
            action,
        );
        match (round_before.phase, event) {
            (StaticPhase::Stop, StaticEvent::Level { value, now }) => match stop_state(
                before.fired@,
                position,
                value,
                now,
            ) {
                StopState::Fire => {
                    &&& self == before
                    &&& round.turned(round_before, StaticPhase::Closing)
                    &&& action == (StaticAction::Close { position: place, pct: number(HUNDRED) })
                },
                StopState::Pending => goes_on,
                StopState::Clear => self.targeted(before, round_before, round, action),
            },
            (StaticPhase::Closing, StaticEvent::Completed { now }) => self.advanced(
                before,
                before.fired@.insert(key, now),
                before.dry_planned@,
                round_before,
                round,
                action,
            ),
            (StaticPhase::Target, StaticEvent::Level { value, .. }) => {
                if !round_before.dry_run {
                    &&& self == before
                    &&& round.turned(round_before, StaticPhase::Orders { target: value })
                    &&& action == (StaticAction::FetchOwn { position: place })
                } else if already_planned(before.dry_planned@, key, value, size_abs) {
                    goes_on
                } else {
                    self.placing(
                        before,
                        round_before,
                        round,
                        action,
                        StaticPhase::Planning { target: value },
                        value,
                    )
                }
            },
            (StaticPhase::Planning { target }, StaticEvent::Completed { .. }) => self.advanced(
                before,
                before.fired@,
                before.dry_planned@.insert(key, (target, size_abs)),
                round_before,
                round,
                action,
            ),
            (StaticPhase::Orders { target }, StaticEvent::OwnOrders { orders, tick, lot }) => {
                if orders@.len() == 0 {
                    self.placing(
                        before,
                        round_before,
                        round,
                        action,
                        StaticPhase::Placing,
                        target,
                    )
                } else if orders@.len() == 1 {
                    &&& self == before
                    &&& round.turned(round_before, StaticPhase::Cover { target })
                    &&& action == (StaticAction::Compare {
                        coverage: coverage_of(orders@[0], target, size_abs, tick, lot),
                    })
                } else {
                    self.clearing(before, round_before, round, action, target)
                }
            },
            (StaticPhase::Cover { target }, StaticEvent::Compared { values }) => {
                if covers(values) {
                    goes_on
                } else {
                    self.clearing(before, round_before, round, action, target)
                }
            },
            (StaticPhase::Clearing { target }, StaticEvent::Completed { .. }) => self.placing(
                before,
                round_before,
                round,
                action,
                StaticPhase::Placing,
                target,
            ),
            (StaticPhase::Gone { i }, event) => {
                let rest = i + 1 < round_before.gone@.len();
                &&& self.forgot(before, pair_view(round_before.gone@[i as int]), event is Completed)
                &&& round.same_input(round_before)
                &&& round.next == round_before.next
                &&& round.gone == round_before.gone
                &&& if rest {
                    &&& round.phase == (StaticPhase::Gone { i: (i + 1) as usize })
                    &&& cancels(action, pair_view(round_before.gone@[i + 1]))
                    &&& self.sweep_pending == before.sweep_pending
                } else {
                    self.swept(before.sweep_pending, round, action)
                }
            },
            (StaticPhase::Sweep { i }, _) => {
                let rest = i + 1 < round_before.sweep@.len();
                &&& self == before
                &&& if rest {
                    &&& round.turned(round_before, StaticPhase::Sweep { i: (i + 1) as usize })
                    &&& cancels(action, pair_view(round_before.sweep@[i + 1]))
                } else {
                    &&& round.turned(round_before, StaticPhase::Over)
                    &&& action is Done
                }
            },
            (StaticPhase::Over, _) => {
                &&& self == before
                &&& round == round_before
                &&& action is Done
            },
            _ => goes_on,
        }
    }

    /// One-time sweep after start: explicit-inst rules with no position get their leftover
    /// guard orders cancelled (protection placed before a restart for positions closed
    /// while the guard was down).
    fn startup_sweep(&mut self, round: &mut StaticRound) -> (r: StaticAction)
        requires
            old(round).next <= old(round).positions@.len(),
        ensures
            final(self).same_setup(*old(self)),
            final(self).known == old(self).known,
            final(self).fired == old(self).fired,
            final(self).dry_planned == old(self).dry_planned,
            final(round).well_formed(),
            final(round).same_input(*old(round)),
            final(round).next == old(round).next,
            final(round).gone == old(round).gone,
            final(self).swept(old(self).sweep_pending, *final(round), r),
    {
        if self.sweep_pending {
            self.sweep_pending = false;
            let targets: Vec<(String, String)> = sweep_targets(
                &round.exchanges,
                &self.rules,
                &round.positions,
            );
            if targets.len() > 0 {
                let exchange: String = targets[0].0.clone();
                let inst: String = targets[0].1.clone();
                assert(pair_views(targets@)[0] == pair_view(targets@[0]));
                round.sweep = targets;
                round.phase = StaticPhase::Sweep { i: 0 };
                return StaticAction::CancelOwn { exchange, inst };
            }
        }
        round.phase = StaticPhase::Over;
        StaticAction::Done
    }

    /// Starts on the orders of known positions that are gone.
    fn cleanup_gone_positions(&mut self, round: &mut StaticRound) -> (r: StaticAction)
        requires
            old(round).next <= old(round).positions@.len(),
        ensures
            final(self).same_setup(*old(self)),
            final(self).known == old(self).known,
            final(self).fired == old(self).fired,
            final(self).dry_planned == old(self).dry_planned,
            final(round).well_formed(),
            final(round).same_input(*old(round)),
            final(round).next == old(round).next,
            final(self).wound_up(old(self).sweep_pending, *final(round), r),
            !(r is Evaluate),
    {
        let keys: Vec<String> = live_keys(&self.rules, &round.positions);
        round.gone = self.known.not_listed(&keys);
        assert(gone_listed(self.known@, self.rules@, round.positions@, round.gone@));
        if round.gone.len() > 0 {
            let exchange: String = round.gone[0].0.clone();
            let inst: String = round.gone[0].1.clone();
            round.phase = StaticPhase::Gone { i: 0 };
            return StaticAction::CancelOwn { exchange, inst };
        }
        self.startup_sweep(round)
    }

    /// Takes up the next position with a level to watch, or ends with the cleanup.
    fn advance(&mut self, round: &mut StaticRound) -> (r: StaticAction)
        requires
            old(round).next <= old(round).positions@.len(),
        ensures
            final(self).advanced(
                *old(self),
                old(self).fired@,
                old(self).dry_planned@,
                *old(round),
                *final(round),
                r,
            ),
    {
        let ghost from = round.next as int;
        let ghost before = *self;
        assert(self.known@ =~= before.known@.union(
            covered_pairs(before.rules@, round.positions@, from, from),
        ));
        while round.next < round.positions.len()
            invariant
                from <= round.next <= round.positions@.len(),
                from == old(round).next,
                before == *old(self),
                round.same_input(*old(round)),
                self.same_setup(before),
                self.fired == before.fired,
                self.dry_planned == before.dry_planned,
                self.sweep_pending == before.sweep_pending,
                self.known@ == before.known@.union(
                    covered_pairs(before.rules@, round.positions@, from, round.next as int),
                ),
                no_level(before.rules@, round.positions@, from, round.next as int),
            decreases round.positions@.len() - round.next,
        {
            let i: usize = round.next;
            let position: &PositionSnapshot = &round.positions[i];
            let ghost pair = (position.exchange@, position.inst@);
            let ghost upto = i + 1;
            let ghost seen = covered_pairs(before.rules@, round.positions@, from, i as int);
            let ghost seen_after = covered_pairs(before.rules@, round.positions@, from, upto);
            let is_covered: bool = match_rule(&self.rules, position.inst.as_str()).is_some();
            proof {
                assert forall|p: (Seq<char>, Seq<char>)|
                    seen_after.contains(p) == (seen.contains(p) || (is_covered && p == pair)) by {
                    if seen_after.contains(p) {
                        let k = choose|k: int|
                            covered_at(before.rules@, round.positions@, from, upto, k, p);
                        if k < i {
                            assert(covered_at(
                                before.rules@,
                                round.positions@,
                                from,
                                i as int,
                                k,
                                p,
                            ));
                        }
                    }
                    if seen.contains(p) {
                        let k = choose|k: int|
                            covered_at(before.rules@, round.positions@, from, i as int, k, p);
                        assert(covered_at(before.rules@, round.positions@, from, upto, k, p));
                    }
                    if is_covered && p == pair {
                        assert(covered_at(
                            before.rules@,
                            round.positions@,
                            from,
                            upto,
                            i as int,
                            p,
                        ));
                    }
                }
            }
            if is_covered {
                self.known.insert(position.exchange.as_str(), position.inst.as_str());
            }
            assert(self.known@ =~= before.known@.union(seen_after));
            let stop: Option<Formula> = self.stop(position);
            let target: Option<Formula> = self.target(position);
            round.next = i + 1;
            if let Some(formula) = stop {
                round.phase = StaticPhase::Stop;
                return StaticAction::Evaluate { formula };
            }
            if let Some(formula) = target {
                round.phase = StaticPhase::Target;
                return StaticAction::Evaluate { formula };
            }
        }
        self.cleanup_gone_positions(round)
    }

    /// Goes on to the take-profit of the current position.
    fn maintain_take_profit(&mut self, round: &mut StaticRound) -> (r: StaticAction)
        requires
            0 < old(round).next <= old(round).positions@.len(),
        ensures
            final(self).targeted(*old(self), *old(round), *final(round), r),
            final(round).well_formed(),
    {
        let target: Option<Formula> = self.target(&round.positions[round.next - 1]);
        match target {
            Some(formula) => {
                round.phase = StaticPhase::Target;
                StaticAction::Evaluate { formula }
            },
            None => self.advance(round),
        }
    }

    /// Acts on the take-profit price of the current position: a dry run records it once,
    /// a live run looks at the orders on the book first.
    fn ensure_tp(&mut self, round: &mut StaticRound, target: Float64) -> (r: StaticAction)
        requires
            old(round).well_formed(),
            old(round).phase == StaticPhase::Target,
        ensures
            final(round).well_formed(),
            forall|now: u128|
                #![trigger final(self).stepped(
                    *old(self),
                    *old(round),
                    StaticEvent::Level { value: target, now },
                    *final(round),
                    r,
                )]
                final(self).stepped(
                    *old(self),
                    *old(round),
                    StaticEvent::Level { value: target, now },
                    *final(round),
                    r,
                ),
    {
        let place: usize = round.next - 1;
        if !round.dry_run {
            round.phase = StaticPhase::Orders { target };
            return StaticAction::FetchOwn { position: place };
        }
        let position: &PositionSnapshot = &round.positions[place];
        let key: String = position_key(position.exchange.as_str(), position.inst.as_str());
        if self.is_planned(key.as_str(), target, position.size.abs()) {
            self.advance(round)
        } else {
            round.phase = StaticPhase::Planning { target };
            StaticAction::PlaceTp { position: place, target }
        }
    }

    /// Asks for the current position's own orders to be cancelled.
    fn clear(&self, round: &mut StaticRound, target: Float64) -> (r: StaticAction)
        requires
            0 < old(round).next <= old(round).positions@.len(),
        ensures
            final(round).well_formed(),
            self.clearing(*self, *old(round), *final(round), r, target),
    {
        let place: usize = round.next - 1;
        let exchange: String = round.positions[place].exchange.clone();
        let inst: String = round.positions[place].inst.clone();
        round.phase = StaticPhase::Clearing { target };
        StaticAction::CancelOwn { exchange, inst }
    }

    /// Compares the own orders on the book with the wanted one.
    fn compare(
        &self,
        round: &mut StaticRound,
        target: Float64,
        orders: &Vec<OrderRow>,
        tick: Float64,
        lot: Float64,
    ) -> (r: StaticAction)
        requires
            old(round).well_formed(),
            old(round).phase == (StaticPhase::Orders { target }),
        ensures
            final(round).well_formed(),
            self.stepped(
                *self,
                *old(round),
                StaticEvent::OwnOrders { orders: *orders, tick, lot },
                *final(round),
                r,
            ),
    {
        let place: usize = round.next - 1;
        if orders.len() == 0 {
            round.phase = StaticPhase::Placing;
            StaticAction::PlaceTp { position: place, target }
        } else if orders.len() == 1 {
            let size_abs: Float64 = round.positions[place].size.abs();
            round.phase = StaticPhase::Cover { target };
            StaticAction::Compare { coverage: coverage(&orders[0], target, size_abs, tick, lot) }
        } else {
            self.clear(round, target)
        }
    }

    /// Takes in whether the orders of a gone position were cancelled, and goes on.
    fn next_gone(&mut self, round: &mut StaticRound, i: usize, done: bool) -> (r: StaticAction)
        requires
            old(round).well_formed(),
            i < old(round).gone@.len(),
        ensures
            final(self).forgot(*old(self), pair_view(old(round).gone@[i as int]), done),
            final(round).well_formed(),
            final(round).same_input(*old(round)),
            final(round).next == old(round).next,
            final(round).gone == old(round).gone,
            if i + 1 < old(round).gone@.len() {
                &&& final(round).phase == (StaticPhase::Gone { i: (i + 1) as usize })
                &&& cancels(r, pair_view(old(round).gone@[i + 1]))
                &&& final(self).sweep_pending == old(self).sweep_pending
            } else {
                final(self).swept(old(self).sweep_pending, *final(round), r)
            },
    {
        if done {
            let exchange: &str = round.gone[i].0.as_str();
            let inst: &str = round.gone[i].1.as_str();
            let key: String = position_key(exchange, inst);
            self.known.remove(exchange, inst);
            self.fired.remove(key.as_str());
            self.dry_planned.remove(key.as_str());
        }
        let count: usize = round.gone.len();
        let next: usize = i + 1;
        if next < count {
            let exchange: String = round.gone[next].0.clone();
            let inst: String = round.gone[next].1.clone();
            round.phase = StaticPhase::Gone { i: next };
            return StaticAction::CancelOwn { exchange, inst };
        }
        self.startup_sweep(round)
    }

    /// Carries a round on: takes in what the host reports and says what to do next.
    ///
    /// A position whose stop is reached is closed and its take-profit left alone. A
    /// take-profit that is not on the book as wanted is placed anew once the guard's other
    /// orders on the instrument are cancelled. After the last position the orders of
    /// positions that are gone are cancelled, and once after the start those left over from
    /// before it.
    pub fn reconcile(&mut self, round: &mut StaticRound, event: StaticEvent) -> (r: StaticAction)
        requires
            old(round).well_formed(),
        ensures
            final(round).well_formed(),
            final(self).stepped(*old(self), *old(round), event, *final(round), r),
    {
        match (round.phase, event) {
            (StaticPhase::Stop, StaticEvent::Level { value, now }) => {
                let place: usize = round.next - 1;
                match self.check_stop_loss(&round.positions[place], value, now) {
                    StopState::Fire => {
                        round.phase = StaticPhase::Closing;
                        StaticAction::Close { position: place, pct: Float64 { bits: HUNDRED } }
                    },
                    StopState::Pending => self.advance(round),
                    StopState::Clear => self.maintain_take_profit(round),
                }
            },
            (StaticPhase::Closing, StaticEvent::Completed { now }) => {
                let position: &PositionSnapshot = &round.positions[round.next - 1];
                let key: String = position_key(position.exchange.as_str(), position.inst.as_str());
                self.fired.insert(key, now);
                self.advance(round)
            },
            (StaticPhase::Target, StaticEvent::Level { value, now: _ }) => self.ensure_tp(
                round,
                value,
            ),
            (StaticPhase::Planning { target }, StaticEvent::Completed { now: _ }) => {
                let position: &PositionSnapshot = &round.positions[round.next - 1];
                let key: String = position_key(position.exchange.as_str(), position.inst.as_str());
                self.dry_planned.insert(key, (target, position.size.abs()));
                self.advance(round)
            },
            (StaticPhase::Orders { target }, StaticEvent::OwnOrders { orders, tick, lot }) => {
                self.compare(round, target, &orders, tick, lot)
            },
            (StaticPhase::Cover { target }, StaticEvent::Compared { values }) => {
                if is_covered(&values) {
                    self.advance(round)
                } else {
                    self.clear(round, target)
                }
            },
            (StaticPhase::Clearing { target }, StaticEvent::Completed { now: _ }) => {
                let place: usize = round.next - 1;
                round.phase = StaticPhase::Placing;
                StaticAction::PlaceTp { position: place, target }
            },
            (StaticPhase::Gone { i }, event) => {
                let done: bool = matches!(event, StaticEvent::Completed { now: _ });
                self.next_gone(round, i, done)
            },
            (StaticPhase::Sweep { i }, _) => {
                let count: usize = round.sweep.len();
                let next: usize = i + 1;
                if next < count {
                    let exchange: String = round.sweep[next].0.clone();
                    let inst: String = round.sweep[next].1.clone();
                    round.phase = StaticPhase::Sweep { i: next };
                    StaticAction::CancelOwn { exchange, inst }
                } else {
                    round.phase = StaticPhase::Over;
                    StaticAction::Done
                }
            },
            (StaticPhase::Over, _) => StaticAction::Done,
            _ => self.advance(round),
        }
    }
}

/// Stop and target mirror each other by side: the stop of a long position is the target of
/// a short one at the same distance, and the other way round.
pub proof fn law_stop_and_target_mirror(entry: Float64, offset: Formula, is_long: bool)
    ensures
        stop_of(entry, offset, is_long) == target_of(entry, offset, !is_long),
        stop_of(entry, offset, is_long) != target_of(entry, offset, is_long),
{
}

/// A position is closed only when its mark has reached the stop and no close went out
/// within the refire time; and then it always is.
pub proof fn law_closes_exactly_when_the_stop_fires(
    before: StaticProtect,
    after: StaticProtect,
    round_before: StaticRound,
    round: StaticRound,
    event: StaticEvent,
    action: StaticAction,
)
    requires
        after.stepped(before, round_before, event, round, action),
    ensures
        action is Close <==> round_before.phase == StaticPhase::Stop && match event {
            StaticEvent::Level { value, now } => {
                &&& crossed(
                    round_before.current().mark_price,
                    value,
                    round_before.current().long(),
                )
                &&& fire_allowed(before.fired@, round_before.current_key(), now)
            },
            _ => false,
        },
{
}

/// Once the stop is reached, nothing more is done for that position in the round: the next
/// position, the cleanup or the end follows.
pub proof fn law_reached_stop_skips_take_profit(
    before: StaticProtect,
    after: StaticProtect,
    round_before: StaticRound,
    round: StaticRound,
    event: StaticEvent,
    action: StaticAction,
)
    requires
        after.stepped(before, round_before, event, round, action),
        match round_before.phase {
            StaticPhase::Stop => event is Level && crossed(
                round_before.current().mark_price,
                event->value,
                round_before.current().long(),
            ),
            StaticPhase::Closing => true,
            _ => false,
        },
    ensures
        action is Close || {
            &&& !(action is PlaceTp)
            &&& !(action is FetchOwn)
            &&& action is Evaluate ==> round.next > round_before.next
        },
{
}

/// A take-profit order is placed on a book only when none of the guard's own orders rests
/// there: none was found, or those found were cancelled.
pub proof fn law_places_on_a_cleared_book(
    before: StaticProtect,
    after: StaticProtect,
    round_before: StaticRound,
    round: StaticRound,
    event: StaticEvent,
    action: StaticAction,
)
    requires
        after.stepped(before, round_before, event, round, action),
        action is PlaceTp,
        !round_before.dry_run,
    ensures
        match round_before.phase {
            StaticPhase::Orders { target } => {
                &&& event is OwnOrders
                &&& event->orders@.len() == 0
                &&& action->target == target
            },
            StaticPhase::Clearing { target } => event is Completed && action->target == target,
            _ => false,
        },
{
}

/// A dry run that has recorded a take-profit does not record it again while price and size
/// stay the same.
pub proof fn law_dry_run_records_once(
    before: StaticProtect,
    after: StaticProtect,
    round_before: StaticRound,
    round: StaticRound,
    event: StaticEvent,
    action: StaticAction,
)
    requires
        after.stepped(before, round_before, event, round, action),
        round_before.dry_run,
        round_before.phase == StaticPhase::Target,
        event is Level,
        already_planned(
            before.dry_planned@,
            round_before.current_key(),
            event->value,
            round_before.current().size.absolute(),
        ),
    ensures
        !(action is PlaceTp),
{
}

/// A known position is forgotten only when it is gone and its orders were cancelled: a
/// failed cancellation is retried next round.
pub proof fn law_forgets_only_after_cancelling(
    before: StaticProtect,
    after: StaticProtect,
    round_before: StaticRound,
    round: StaticRound,
    event: StaticEvent,
    action: StaticAction,
    pair: (Seq<char>, Seq<char>),
)
    requires
        after.stepped(before, round_before, event, round, action),
        before.known@.contains(pair),
        !after.known@.contains(pair),
    ensures
        match round_before.phase {
            StaticPhase::Gone { i } => {
                &&& event is Completed
                &&& pair == pair_view(round_before.gone@[i as int])
            },
            _ => false,
        },
{
}

/// The sweep is made once: after it has started it is never due again, and no later step
/// starts it anew.
pub proof fn law_sweeps_once(
    before: StaticProtect,
    after: StaticProtect,
    round_before: StaticRound,
    round: StaticRound,
    event: StaticEvent,
    action: StaticAction,
)
    requires
        after.stepped(before, round_before, event, round, action),
        !before.sweep_pending,
    ensures
        !after.sweep_pending,
        round.phase is Sweep ==> round_before.phase is Sweep,
{
}

/// Neither the cleanup nor the sweep touches a live position, and the sweep leaves rules
/// for all instruments out.
pub proof fn law_cleanup_spares_live_positions(
    after: StaticProtect,
    pending: bool,
    round: StaticRound,
    action: StaticAction,
    i: int,
)
    requires
        after.wound_up(pending, round, action),
    ensures
        0 <= i < round.gone@.len() ==> {
            let gone = pair_view(round.gone@[i]);
            !live(after.rules@, round.positions@, key_of(gone.0, gone.1))
        },
        round.phase is Sweep && 0 <= i < round.sweep@.len() ==> {
            let swept = pair_view(round.sweep@[i]);
            &&& !live(after.rules@, round.positions@, key_of(swept.0, swept.1))
            &&& swept.1 != "*"@
        },
{
    if 0 <= i < round.gone@.len() {
        let gone = pair_view(round.gone@[i]);
        assert(pair_at(round.gone@, i, gone));
        assert(pair_set(round.gone@).contains(gone));
    }
    if round.phase is Sweep && 0 <= i < round.sweep@.len() {
        let keep = live_set(after.rules@, round.positions@);
        assert(pair_views(round.sweep@)[i] == pair_view(round.sweep@[i]));
        lemma_full_sweep(views(round.exchanges@), after.rules@, keep, i);
    }
}

proof fn lemma_exchange_sweep(
    exchange: Seq<char>,
    rules: Seq<StaticRule>,
    keep: Set<Seq<char>>,
    i: int,
)
    requires
        0 <= i < exchange_sweep(exchange, rules, keep).len(),
    ensures
        ({
            let pair = exchange_sweep(exchange, rules, keep)[i];
            pair.1 != "*"@ && !keep.contains(key_of(pair.0, pair.1))
        }),
    decreases rules.len(),
{
    if rules.len() > 0 {
        let before = exchange_sweep(exchange, rules.drop_last(), keep);
        if i < before.len() {
            lemma_exchange_sweep(exchange, rules.drop_last(), keep, i);
        }
    }
}

proof fn lemma_full_sweep(
    exchanges: Seq<Seq<char>>,
    rules: Seq<StaticRule>,
    keep: Set<Seq<char>>,
    i: int,
)
    requires
        0 <= i < full_sweep(exchanges, rules, keep).len(),
    ensures
        ({
            let pair = full_sweep(exchanges, rules, keep)[i];
            pair.1 != "*"@ && !keep.contains(key_of(pair.0, pair.1))
        }),
    decreases exchanges.len(),
{
    if exchanges.len() > 0 {
        let before = full_sweep(exchanges.drop_last(), rules, keep);
        if i < before.len() {
            lemma_full_sweep(exchanges.drop_last(), rules, keep, i);
        } else {
            lemma_exchange_sweep(exchanges.last(), rules, keep, i - before.len());
        }
    }
}

/// How far a round is from its end: the part it is in, and the steps left in that part.
pub open spec fn steps_left(round: StaticRound) -> (nat, int) {
    let positions = 9 * (round.positions@.len() - round.next);
    match round.phase {
        StaticPhase::Over => (0, 0),
        StaticPhase::Sweep { i } => (1, round.sweep@.len() - i),
        StaticPhase::Gone { i } => (2, round.gone@.len() - i),
        StaticPhase::Start => (3, positions + 8),
        StaticPhase::Stop => (3, positions + 7),
        StaticPhase::Target => (3, positions + 6),
        StaticPhase::Orders { .. } => (3, positions + 5),
        StaticPhase::Cover { .. } => (3, positions + 4),
        StaticPhase::Clearing { .. } => (3, positions + 3),
        StaticPhase::Placing => (3, positions + 2),
        StaticPhase::Planning { .. } => (3, positions + 1),
        StaticPhase::Closing => (3, positions),
    }
}

/// Every round ends: whatever is reported, each step brings it closer to its end, and it is
/// done exactly at its end.
pub proof fn law_every_round_ends(
    before: StaticProtect,
    after: StaticProtect,
    round_before: StaticRound,
    round: StaticRound,
    event: StaticEvent,
    action: StaticAction,
)
    requires
        round_before.well_formed(),
        round.well_formed(),
        after.stepped(before, round_before, event, round, action),
    ensures
        action is Done <==> round.phase is Over,
        !(round_before.phase is Over) ==> {
            let (from, to) = (steps_left(round_before), steps_left(round));
            to.0 < from.0 || (to.0 == from.0 && 0 <= to.1 < from.1)
        },
{
    assert(round_before.gone.len() == round_before.gone@.len());
    assert(round_before.sweep.len() == round_before.sweep@.len());
}

/// The module runs at its own scheduler events alone, and only where it is enabled and has a rule.
pub proof fn law_runs_only_when_due(module: StaticProtect, task_id: u64)
    ensures
        !module.enabled ==> !module.runs_at(task_id),
        module.rules@.len() == 0 ==> !module.runs_at(task_id),
        task_id != module.schedule_task_id ==> !module.runs_at(task_id),
        module.enabled && module.rules@.len() > 0 ==> module.runs_at(module.schedule_task_id),
{
}

/// A distance in percent is that share of the entry: in exact arithmetic a hundred times the distance
/// is the entry times the percentage. A distance by risk is the risk spread over the size: the
/// distance times the size is the risk. It exists exactly for sizes above zero.
pub proof fn law_offsets_are_exact(entry: Float64, pct: Float64, risk: Float64, size: Float64)
    requires
        size.finite(),
    ensures
        ({
            let (n, d) = exact(pct_offset(entry, pct));
            let u = unit();
            d > 0 && n * (100 * u * u) == entry.units() * pct.units() * d
        }),
        risk_offset(risk, size) is Some <==> size.units() > 0,
        size.units() > 0 ==> {
            let (n, d) = exact(risk_offset(risk, size)->0);
            d > 0 && n * size.units() == risk.units() * d
        },
{
    law_constants_are_exact();
    law_sign_of_finite_numbers(size);
    let u = unit();
    let (ve, vp, vh) = (value_of(entry), value_of(pct), value_of(number(HUNDRED)));
    law_exact_arithmetic(entry, ve, vp);
    law_exact_arithmetic(pct, product_of(ve, vp), vh);
    law_exact_arithmetic(number(HUNDRED), value_of(risk), value_of(size));
    law_exact_arithmetic(risk, ve, vp);
    law_exact_arithmetic(size, ve, vp);
    let (e, p, r, s) = (entry.units(), pct.units(), risk.units(), size.units());
    let (n, d) = exact(pct_offset(entry, pct));
    assert(n == (e * p) * u && d == (u * u) * (100 * u));
    assert(d > 0) by (nonlinear_arith)
        requires
            u > 0,
            d == (u * u) * (100 * u),
    ;
    assert(((e * p) * u) * (100 * u * u) == e * p * ((u * u) * (100 * u))) by (nonlinear_arith);
    if s > 0 {
        assert(u * s > 0) by (nonlinear_arith)
            requires
                u > 0,
                s > 0,
        ;
        assert((r * u) * s == r * (u * s)) by (nonlinear_arith);
    }
}

/// A stop lies its distance on the losing side of the entry, a target its distance on the winning
/// side: in exact arithmetic the stop of a long position is the entry less the distance and its
/// target the entry and the distance, and of a short one the other way round.
pub proof fn law_levels_lie_off_the_entry(entry: Float64, offset: Formula)
    ensures
        ({
            let (n, d) = exact(offset);
            let (e, u) = (entry.units(), unit());
            let below = (e * d - n * u, u * d);
            let above = (e * d + n * u, u * d);
            &&& exact(stop_of(entry, offset, true)) == below
            &&& exact(target_of(entry, offset, true)) == above
            &&& exact(stop_of(entry, offset, false)) == above
            &&& exact(target_of(entry, offset, false)) == below
        }),
{
    law_exact_arithmetic(entry, value_of(entry), offset);
}

/// What a percentage of a rule means for a position, in exact arithmetic: the stop of a long position
/// is the entry less `sl_pct` percent of it, that of a short one the entry and as much; the target
/// lies `tp_pct` percent on the other side.
pub proof fn law_percentage_levels(rules: Seq<StaticRule>, position: PositionSnapshot)
    requires
        matched(rules, position.inst@) is Some,
    ensures
        ({
            let rule = rules[matched(rules, position.inst@)->0];
            let (e, u) = (position.avg_price.units(), unit());
            let sign = if position.long() {
                1int
            } else {
                -1
            };
            &&& rule.sl_pct is Some ==> {
                let (n, d) = exact(stop_level(rules, position)->0);
                &&& stop_level(rules, position) is Some
                &&& d > 0
                &&& n * (100 * u * u) == e * (100 * u - sign * rule.sl_pct->0.units()) * d
            }
            &&& rule.tp_pct is Some ==> {
                let (n, d) = exact(target_level(rules, position)->0);
                &&& target_level(rules, position) is Some
                &&& d > 0
                &&& n * (100 * u * u) == e * (100 * u + sign * rule.tp_pct->0.units()) * d
            }
        }),
{
    let rule = rules[matched(rules, position.inst@)->0];
    let entry = position.avg_price;
    let is_long = position.long();
    if rule.sl_pct is Some {
        lemma_percentage_level(entry, rule.sl_pct->0, is_long);
    }
    if rule.tp_pct is Some {
        lemma_percentage_level(entry, rule.tp_pct->0, is_long);
    }
}

proof fn lemma_percentage_level(entry: Float64, pct: Float64, is_long: bool)
    ensures
        ({
            let (e, p, u) = (entry.units(), pct.units(), unit());
            let sign = if is_long {
                1int
            } else {
                -1
            };
            let (sn, sd) = exact(stop_of(entry, pct_offset(entry, pct), is_long));
            let (tn, td) = exact(target_of(entry, pct_offset(entry, pct), is_long));
            &&& sd > 0
            &&& td > 0
            &&& sn * (100 * u * u) == e * (100 * u - sign * p) * sd
            &&& tn * (100 * u * u) == e * (100 * u + sign * p) * td
        }),
{
    law_constants_are_exact();
    law_offsets_are_exact(entry, pct, entry, number(0));
    law_levels_lie_off_the_entry(entry, pct_offset(entry, pct));
    let (e, p, u) = (entry.units(), pct.units(), unit());
    let (n, d) = exact(pct_offset(entry, pct));
    assert(u * d > 0) by (nonlinear_arith)
        requires
            u > 0,
            d > 0,
    ;
    let c = 100 * u * u;
    assert((e * d - n * u) * c == (e * d) * c - u * (n * c)) by (nonlinear_arith);
    assert((e * d + n * u) * c == (e * d) * c + u * (n * c)) by (nonlinear_arith);
    assert((e * d) * (100 * u * u) - u * (e * p * d) == e * (100 * u - p) * (u * d))
        by (nonlinear_arith);
    assert((e * d) * (100 * u * u) + u * (e * p * d) == e * (100 * u + p) * (u * d))
        by (nonlinear_arith);
}

/// What a risk of a rule means for a position, in exact arithmetic, where the rule gives no percentage:
/// at the stop the whole position has lost `sl_risk`, at the target it has won `tp_risk`.
pub proof fn law_risk_levels(rules: Seq<StaticRule>, position: PositionSnapshot)
    requires
        matched(rules, position.inst@) is Some,
        position.size.finite(),
        position.size.units() != 0,
    ensures
        ({
            let rule = rules[matched(rules, position.inst@)->0];
            let (e, u) = (position.avg_price.units(), unit());
            let size = if position.size.units() < 0 {
                -position.size.units()
            } else {
                position.size.units()
            };
            let sign = if position.long() {
                1int
            } else {
                -1
            };
            &&& rule.sl_pct is None && rule.sl_risk is Some ==> {
                let (n, d) = exact(stop_level(rules, position)->0);
                &&& stop_level(rules, position) is Some
                &&& d > 0
                &&& (e * d - n * u) * sign * size == rule.sl_risk->0.units() * u * d
            }
            &&& rule.tp_pct is None && rule.tp_risk is Some ==> {
                let (n, d) = exact(target_level(rules, position)->0);
                &&& target_level(rules, position) is Some
                &&& d > 0
                &&& (n * u - e * d) * sign * size == rule.tp_risk->0.units() * u * d
            }
        }),
{
    let rule = rules[matched(rules, position.inst@)->0];
    let entry = position.avg_price;
    let is_long = position.long();
    law_absolute_values(position.size);
    if rule.sl_pct is None && rule.sl_risk is Some {
        lemma_risk_level(entry, rule.sl_risk->0, position.size.absolute(), is_long);
    }
    if rule.tp_pct is None && rule.tp_risk is Some {
        lemma_risk_level(entry, rule.tp_risk->0, position.size.absolute(), is_long);
    }
}

proof fn lemma_risk_level(entry: Float64, risk: Float64, size: Float64, is_long: bool)
    requires
        size.finite(),
        size.units() > 0,
    ensures
        ({
            let (e, r, s, u) = (entry.units(), risk.units(), size.units(), unit());
            let sign = if is_long {
                1int
            } else {
                -1
            };
            let offset = risk_offset(risk, size);
            let (sn, sd) = exact(stop_of(entry, offset->0, is_long));
            let (tn, td) = exact(target_of(entry, offset->0, is_long));
            &&& offset is Some
            &&& sd > 0
            &&& td > 0
            &&& (e * sd - sn * u) * sign * s == r * u * sd
            &&& (tn * u - e * td) * sign * s == r * u * td
        }),
{
    law_constants_are_exact();
    law_offsets_are_exact(entry, entry, risk, size);
    let offset = risk_offset(risk, size)->0;
    law_levels_lie_off_the_entry(entry, offset);
    let (e, r, s, u) = (entry.units(), risk.units(), size.units(), unit());
    let (n, d) = exact(offset);
    let q = u * d;
    assert(q > 0) by (nonlinear_arith)
        requires
            u > 0,
            d > 0,
            q == u * d,
    ;
    assert(e * (u * d) - (e * d - n * u) * u == n * u * u) by (nonlinear_arith);
    assert((e * d + n * u) * u - e * (u * d) == n * u * u) by (nonlinear_arith);
    assert((n * u * u) * s == (n * s) * (u * u)) by (nonlinear_arith);
    assert((r * d) * (u * u) == r * u * (u * d)) by (nonlinear_arith);
    assert((e * q - (e * d + n * u) * u) * -1 * s == ((e * d + n * u) * u - e * q) * s)
        by (nonlinear_arith);
    assert(((e * d - n * u) * u - e * q) * -1 * s == (e * q - (e * d - n * u) * u) * s)
        by (nonlinear_arith);
}

/// A position has a level exactly where a rule covers it and asks for one, by percentage, or by risk
/// where it holds a size above or below zero.
pub proof fn law_levels_exist_where_asked_for(rules: Seq<StaticRule>, position: PositionSnapshot)
    requires
        position.size.finite(),
    ensures
        ({
            let k = matched(rules, position.inst@);
            let rule = rules[k->0];
            let held = position.size.units() != 0;
            &&& stop_level(rules, position) is Some <==> k is Some && (rule.sl_pct is Some || (
            rule.sl_risk is Some && held))
            &&& target_level(rules, position) is Some <==> k is Some && (rule.tp_pct is Some || (
            rule.tp_risk is Some && held))
        }),
{
    law_absolute_values(position.size);
    law_sign_of_finite_numbers(position.size.absolute());
}

/// The slack is one step and a hundredth: 1.01, as near as a double can be.
pub proof fn law_slack_is_a_little_over_one_step()
    ensures
        number(STEP_SLACK).finite(),
        -100 * pow2(1021) <= 100 * number(STEP_SLACK).units() - 101 * unit() <= 100 * pow2(1021),
{
    lemma2_to64();
    lemma2_to64_rest();
    lemma_pow2_adds(52, 1022);
    lemma_pow2_adds(1, 1021);
    let w = EXPONENT_WEIGHT as nat;
    let bits = STEP_SLACK as nat;
    let f = bits % w;
    let p = pow2(1022) as int;
    assert(bits / w == 1023);
    assert(f == 0x0_28F5_C28F_5C29);
    assert(-50 <= 100 * (w + f) - 101 * w <= 50);
    let k = 100 * (w + f) - 101 * w;
    assert(100 * ((w + f) * p) - 101 * (w * p) == k * p) by (nonlinear_arith)
        requires
            k == 100 * (w + f) - 101 * w,
    ;
    assert(-50 * p <= k * p <= 50 * p) by (nonlinear_arith)
        requires
            -50 <= k <= 50,
            p >= 0,
    ;
}

/// What is compared with the slack, in exact arithmetic: how far the resting price is from the wanted
/// one, and how far the size still open is from the size held; the slack is a step times 1.01.
pub proof fn law_coverage_is_exact(
    order: OrderRow,
    target: Float64,
    size_abs: Float64,
    tick: Float64,
    lot: Float64,
)
    ensures
        ({
            let c = coverage_of(order, target, size_abs, tick, lot);
            let u = unit();
            let slack = number(STEP_SLACK).units();
            &&& exact(c.price_gap) == ((order.price.units() - target.units()) * u, u * u)
            &&& exact(c.size_gap) == (
                (order.size.units() - order.executed_size.units() - size_abs.units()) * u * u,
                u * u * u,
            )
            &&& exact(c.price_slack) == (tick.units() * slack, u * u)
            &&& exact(c.size_slack) == (lot.units() * slack, u * u)
        }),
{
    let u = unit();
    let (p, t, s, x, a) = (
        order.price.units(),
        target.units(),
        order.size.units(),
        order.executed_size.units(),
        size_abs.units(),
    );
    let (vs, vx) = (value_of(order.size), value_of(order.executed_size));
    let slack = value_of(number(STEP_SLACK));
    law_exact_arithmetic(order.price, value_of(order.price), value_of(target));
    law_exact_arithmetic(target, vs, vx);
    law_exact_arithmetic(order.size, difference_of(vs, vx), value_of(size_abs));
    law_exact_arithmetic(order.executed_size, value_of(tick), slack);
    law_exact_arithmetic(size_abs, value_of(lot), slack);
    law_exact_arithmetic(tick, vs, vx);
    law_exact_arithmetic(lot, vs, vx);
    law_exact_arithmetic(number(STEP_SLACK), vs, vx);
    assert(p * u - t * u == (p - t) * u) by (nonlinear_arith);
    assert((s * u - x * u) * u - a * (u * u) == (s - x - a) * u * u) by (nonlinear_arith);
    assert((u * u) * u == u * u * u);
}

/// A resting order is the wanted one exactly when neither its price nor its open size is off by more
/// than the slack, in either direction.
pub proof fn law_covered_within_the_slack(values: CoverageValues)
    requires
        values.price_gap.finite(),
        values.price_slack.finite(),
        values.size_gap.finite(),
        values.size_slack.finite(),
    ensures
        covers(values) <==> {
            &&& -values.price_slack.units() <= values.price_gap.units()
                <= values.price_slack.units()
            &&& -values.size_slack.units() <= values.size_gap.units() <= values.size_slack.units()
        },
{
    law_absolute_values(values.price_gap);
    law_absolute_values(values.size_gap);
    law_comparison_is_numeric(values.price_gap.absolute(), values.price_slack);
    law_comparison_is_numeric(values.size_gap.absolute(), values.size_slack);
}

/// A target counts as recorded exactly when price and size are those on record, by value.
pub proof fn law_recorded_targets_by_value(
    planned: Map<Seq<char>, (Float64, Float64)>,
    key: Seq<char>,
    target: Float64,
    size_abs: Float64,
)
    requires
        target.finite(),
        size_abs.finite(),
        planned.contains_key(key) ==> planned[key].0.finite() && planned[key].1.finite(),
    ensures
        already_planned(planned, key, target, size_abs) <==> {
            &&& planned.contains_key(key)
            &&& planned[key].0.units() == target.units()
            &&& planned[key].1.units() == size_abs.units()
        },
{
    if planned.contains_key(key) {
        law_comparison_is_numeric(planned[key].0, target);
        law_comparison_is_numeric(planned[key].1, size_abs);
    }
}

/// The stop of a position is judged by value: it fires when the mark is at or beyond it and no close
/// went out within the refire time, it is pending when one did, and it is clear else.
pub proof fn law_stop_is_judged_by_value(
    fired: Map<Seq<char>, u128>,
    position: PositionSnapshot,
    stop: Float64,
    now: u128,
)
    requires
        position.mark_price.finite(),
        stop.finite(),
    ensures
        ({
            let (mark, level) = (position.mark_price.units(), stop.units());
            let reached = if position.long() {
                mark <= level
            } else {
                mark >= level
            };
            let key = position.exchange@ + ":"@ + position.inst@;
            let held = fired.contains_key(key) && now < fired[key] + 30_000_000_000;
            stop_state(fired, position, stop, now) == if !reached {
                StopState::Clear
            } else if held {
                StopState::Pending
            } else {
                StopState::Fire
            }
        }),
{
    law_comparison_is_numeric(position.mark_price, stop);
    law_comparison_is_numeric(stop, position.mark_price);
}

/// Where the stop is clear and a rule asks for a target, the target of the same position comes next.
pub proof fn law_clear_stop_leads_to_the_target(
    before: StaticProtect,
    after: StaticProtect,
    round_before: StaticRound,
    round: StaticRound,
    event: StaticEvent,
    action: StaticAction,
)
    requires
        after.stepped(before, round_before, event, round, action),
        round_before.phase == StaticPhase::Stop,
        match event {
            StaticEvent::Level { value, .. } => !crossed(
                round_before.current().mark_price,
                value,
                round_before.current().long(),
            ),
            _ => false,
        },
        target_level(before.rules@, round_before.current()) is Some,
    ensures
        action is Evaluate,
        action->formula == target_level(before.rules@, round_before.current())->0,
        round.next == round_before.next,
        round.phase == StaticPhase::Target,
{
}

/// A live target is held against the book: the own orders on the instrument are looked up, and then
/// the target is placed on an empty book, compared with a single order, and placed only after a
/// cancellation where there are several. A single order is left alone when it is within the slack and
/// cancelled when it is not; once cancelled, the target is placed.
pub proof fn law_take_profit_is_brought_onto_the_book(
    before: StaticProtect,
    after: StaticProtect,
    round_before: StaticRound,
    round: StaticRound,
    event: StaticEvent,
    action: StaticAction,
)
    requires
        round_before.well_formed(),
        after.stepped(before, round_before, event, round, action),
    ensures
        ({
            let place = round_before.next - 1;
            let position = round_before.current();
            let cleared = action is CancelOwn && action->exchange@ == position.exchange@
                && action->inst@ == position.inst@ && round.next == round_before.next;
            match (round_before.phase, event) {
                (StaticPhase::Target, StaticEvent::Level { value, .. }) => !round_before.dry_run
                    ==> {
                    &&& action is FetchOwn
                    &&& action->FetchOwn_position == place
                    &&& round.phase == (StaticPhase::Orders { target: value })
                    &&& round.next == round_before.next
                },
                (StaticPhase::Orders { target }, StaticEvent::OwnOrders { orders, tick, lot }) => {
                    &&& orders@.len() == 0 ==> action is PlaceTp && action->PlaceTp_position == place
                        && action->target == target
                    &&& orders@.len() == 1 ==> action is Compare && action->coverage == coverage_of(
                        orders@[0],
                        target,
                        position.size.absolute(),
                        tick,
                        lot,
                    ) && round.phase == (StaticPhase::Cover { target })
                    &&& orders@.len() > 1 ==> cleared && round.phase == (StaticPhase::Clearing {
                        target,
                    })
                },
                (StaticPhase::Cover { target }, StaticEvent::Compared { values }) => {
                    &&& covers(values) ==> !(action is PlaceTp) && (action is Evaluate ==> round.next
                        > round_before.next)
                    &&& !covers(values) ==> cleared && round.phase == (StaticPhase::Clearing {
                        target,
                    })
                },
                (StaticPhase::Clearing { target }, StaticEvent::Completed { .. }) => {
                    &&& action is PlaceTp
                    &&& action->PlaceTp_position == place
                    &&& action->target == target
                },
                _ => true,
            }
        }),
{
}

/// A dry run records a new target for the position and remembers it with the size once it is recorded;
/// what is not reported done is not remembered.
pub proof fn law_dry_run_remembers_its_targets(
    before: StaticProtect,
    after: StaticProtect,
    round_before: StaticRound,
    round: StaticRound,
    event: StaticEvent,
    action: StaticAction,
)
    requires
        round_before.well_formed(),
        after.stepped(before, round_before, event, round, action),
    ensures
        ({
            let key = round_before.current().exchange@ + ":"@ + round_before.current().inst@;
            let size = round_before.current().size.absolute();
            match (round_before.phase, event) {
                (StaticPhase::Target, StaticEvent::Level { value, .. }) => round_before.dry_run
                    && !already_planned(before.dry_planned@, key, value, size) ==> {
                    &&& action is PlaceTp
                    &&& action->PlaceTp_position == round_before.next - 1
                    &&& action->target == value
                    &&& round.phase == (StaticPhase::Planning { target: value })
                },
                (StaticPhase::Planning { target }, StaticEvent::Completed { .. }) => {
                    &&& after.dry_planned@.contains_key(key)
                    &&& after.dry_planned@[key] == (target, size)
                },
                (StaticPhase::Planning { target }, StaticEvent::Failed) => {
                    after.dry_planned@ == before.dry_planned@
                },
                _ => true,
            }
        }),
{
}

/// A close of a position counts when it is reported done, from the time reported; a failed one does
/// not, so that it is tried again.
pub proof fn law_done_closes_are_recorded(
    before: StaticProtect,
    after: StaticProtect,
    round_before: StaticRound,
    round: StaticRound,
    event: StaticEvent,
    action: StaticAction,
)
    requires
        round_before.well_formed(),
        after.stepped(before, round_before, event, round, action),
        round_before.phase == StaticPhase::Closing,
    ensures
        ({
            let key = round_before.current().exchange@ + ":"@ + round_before.current().inst@;
            match event {
                StaticEvent::Completed { now } => after.fired@ == before.fired@.insert(key, now),
                _ => after.fired@ == before.fired@,
            }
        }),
        !(action is Close),
        !(action is PlaceTp),
{
}

/// The whole of a position is closed, never a part or another one.
pub proof fn law_whole_positions_are_closed(
    before: StaticProtect,
    after: StaticProtect,
    round_before: StaticRound,
    round: StaticRound,
    event: StaticEvent,
    action: StaticAction,
)
    requires
        round_before.well_formed(),
        after.stepped(before, round_before, event, round, action),
        action is Close,
    ensures
        action->Close_position == round_before.next - 1,
        action->pct.units() == 100 * unit(),
        round.phase == StaticPhase::Closing,
        round.next == round_before.next,
{
    law_constants_are_exact();
}

/// Every position with a level is taken up, stop before target, in the order of the round: the
/// positions passed over have no level, and the round goes on to the cleanup only when those left
/// have none. Every covered position passed or taken up is known from that step on.
pub proof fn law_every_level_is_taken_up(
    before: StaticProtect,
    after: StaticProtect,
    round_before: StaticRound,
    round: StaticRound,
    event: StaticEvent,
    action: StaticAction,
    j: int,
)
    requires
        round_before.well_formed(),
        after.stepped(before, round_before, event, round, action),
        round_before.next <= j < round_before.positions@.len(),
        match round_before.phase {
            StaticPhase::Gone { .. } | StaticPhase::Sweep { .. } | StaticPhase::Over => false,
            _ => true,
        },
    ensures
        ({
            let position = round_before.positions@[j];
            let rules = before.rules@;
            let stop = stop_level(rules, position);
            let target = target_level(rules, position);
            let passed = j < round.next - 1 || !(round.phase is Stop || round.phase is Target)
                && j < round.next;
            let taken = action is Evaluate && round.next > round_before.next && j == round.next - 1;
            let over = match round.phase {
                StaticPhase::Gone { .. } | StaticPhase::Sweep { .. } | StaticPhase::Over => true,
                _ => false,
            };
            &&& passed || over ==> stop is None && target is None
            &&& taken && stop is Some ==> action->formula == stop->0 && round.phase
                == StaticPhase::Stop
            &&& taken && stop is None ==> target == Some(action->formula) && round.phase
                == StaticPhase::Target
            &&& (passed || taken || over) && matched(rules, position.inst@) is Some
                ==> after.known@.contains((position.exchange@, position.inst@))
        }),
{
    let position = round_before.positions@[j];
    let pair = (position.exchange@, position.inst@);
    if matched(before.rules@, position.inst@) is Some && j < round.next {
        assert(covered_at(
            before.rules@,
            round_before.positions@,
            round_before.next as int,
            round.next as int,
            j,
            pair,
        ));
    }
    if round.next == round_before.next {
        assert(!(j < round.next));
    }
}

/// Everything left behind is cleaned up: at the end of the positions the orders of every known
/// position that is not live any more are listed for cancellation, and those of no other.
pub proof fn law_every_gone_position_is_cleaned_up(
    after: StaticProtect,
    pending: bool,
    round: StaticRound,
    action: StaticAction,
    exchange: Seq<char>,
    inst: Seq<char>,
)
    requires
        after.wound_up(pending, round, action),
    ensures
        (exists|i: int|
            {
                &&& 0 <= i < round.gone@.len()
                &&& (#[trigger] round.gone@[i]).0@ == exchange
                &&& round.gone@[i].1@ == inst
            }) <==> after.known@.contains((exchange, inst)) && !live(
            after.rules@,
            round.positions@,
            exchange + ":"@ + inst,
        ),
        round.gone@.len() > 0 ==> {
            &&& action is CancelOwn
            &&& action->exchange@ == round.gone@[0].0@
            &&& action->inst@ == round.gone@[0].1@
        },
{
    let pair = (exchange, inst);
    assert(key_of(exchange, inst) == exchange + ":"@ + inst);
    if exists|i: int|
        {
            &&& 0 <= i < round.gone@.len()
            &&& (#[trigger] round.gone@[i]).0@ == exchange
            &&& round.gone@[i].1@ == inst
        } {
        let i = choose|i: int|
            {
                &&& 0 <= i < round.gone@.len()
                &&& (#[trigger] round.gone@[i]).0@ == exchange
                &&& round.gone@[i].1@ == inst
            };
        assert(pair_at(round.gone@, i, pair));
        assert(pair_set(round.gone@).contains(pair));
    }
    if after.known@.contains(pair) && !live(after.rules@, round.positions@, key_of(exchange, inst)) {
        assert(pair_set(round.gone@).contains(pair));
        let i = choose|i: int| pair_at(round.gone@, i, pair);
        assert(round.gone@[i].0@ == exchange);
    }
}

/// The gone positions are cleaned up one after the other. One whose orders were cancelled is forgotten
/// with all that is on record of it, and nothing else is; after a failure nothing is.
pub proof fn law_cancelled_positions_are_forgotten(
    before: StaticProtect,
    after: StaticProtect,
    round_before: StaticRound,
    round: StaticRound,
    event: StaticEvent,
    action: StaticAction,
    other: (Seq<char>, Seq<char>),
)
    requires
        round_before.well_formed(),
        after.stepped(before, round_before, event, round, action),
        round_before.phase is Gone,
    ensures
        match round_before.phase {
            StaticPhase::Gone { i } => {
                let pair = (round_before.gone@[i as int].0@, round_before.gone@[i as int].1@);
                let key = pair.0 + ":"@ + pair.1;
                &&& event is Completed ==> {
                    &&& !after.known@.contains(pair)
                    &&& !after.fired@.contains_key(key)
                    &&& !after.dry_planned@.contains_key(key)
                }
                &&& other != pair || !(event is Completed) ==> (after.known@.contains(other)
                    <==> before.known@.contains(other))
                &&& !(event is Completed) ==> after.fired@ == before.fired@ && after.dry_planned@
                    == before.dry_planned@
                &&& i + 1 < round_before.gone@.len() ==> {
                    &&& action is CancelOwn
                    &&& action->exchange@ == round_before.gone@[i + 1].0@
                    &&& action->inst@ == round_before.gone@[i + 1].1@
                }
            },
            _ => false,
        },
{
}

/// The sweep after the start covers, on every exchange, every instrument that a rule names and of which
/// no position is live there, and no other; its cancellations are made one after the other.
pub proof fn law_sweep_covers_every_named_instrument(
    exchanges: Seq<Seq<char>>,
    rules: Seq<StaticRule>,
    keep: Set<Seq<char>>,
    exchange: Seq<char>,
    inst: Seq<char>,
)
    ensures
        full_sweep(exchanges, rules, keep).contains((exchange, inst)) <==> {
            &&& exchanges.contains(exchange)
            &&& exists|j: int| 0 <= j < rules.len() && (#[trigger] rules[j]).inst@ == inst
            &&& inst != "*"@
            &&& !keep.contains(exchange + ":"@ + inst)
        },
    decreases exchanges.len(),
{
    let pair = (exchange, inst);
    let all = full_sweep(exchanges, rules, keep);
    if exchanges.len() > 0 {
        let rest = exchanges.drop_last();
        let last = exchanges.last();
        let front = full_sweep(rest, rules, keep);
        let back = exchange_sweep(last, rules, keep);
        law_sweep_covers_every_named_instrument(rest, rules, keep, exchange, inst);
        lemma_exchange_sweep_exact(last, rules, keep, pair);
        assert(all == front + back);
        if all.contains(pair) {
            let i = choose|i: int| 0 <= i < all.len() && all[i] == pair;
            if i < front.len() {
                assert(front[i] == pair);
                let k = choose|k: int| 0 <= k < rest.len() && rest[k] == exchange;
                assert(exchanges[k] == exchange);
            } else {
                assert(back[i - front.len()] == pair);
                assert(exchanges[exchanges.len() - 1] == exchange);
            }
        }
        if front.contains(pair) {
            let i = choose|i: int| 0 <= i < front.len() && front[i] == pair;
            assert(all[i] == pair);
        }
        if back.contains(pair) {
            let i = choose|i: int| 0 <= i < back.len() && back[i] == pair;
            assert(all[front.len() + i] == pair);
        }
        if exchanges.contains(exchange) && last != exchange {
            let k = choose|k: int| 0 <= k < exchanges.len() && exchanges[k] == exchange;
            assert(rest[k] == exchange);
        }
    }
}

proof fn lemma_exchange_sweep_exact(
    exchange: Seq<char>,
    rules: Seq<StaticRule>,
    keep: Set<Seq<char>>,
    pair: (Seq<char>, Seq<char>),
)
    ensures
        exchange_sweep(exchange, rules, keep).contains(pair) <==> {
            &&& pair.0 == exchange
            &&& exists|j: int| 0 <= j < rules.len() && (#[trigger] rules[j]).inst@ == pair.1
            &&& pair.1 != "*"@
            &&& !keep.contains(exchange + ":"@ + pair.1)
        },
    decreases rules.len(),
{
    let all = exchange_sweep(exchange, rules, keep);
    if rules.len() > 0 {
        let rest = rules.drop_last();
        let front = exchange_sweep(exchange, rest, keep);
        lemma_exchange_sweep_exact(exchange, rest, keep, pair);
        assert(rules[rules.len() - 1] == rules.last());
        if all.contains(pair) {
            let i = choose|i: int| 0 <= i < all.len() && all[i] == pair;
            if i < front.len() {
                assert(front[i] == pair);
                let j = choose|j: int| 0 <= j < rest.len() && (#[trigger] rest[j]).inst@ == pair.1;
                assert(rules[j].inst@ == pair.1);
            }
        }
        if front.contains(pair) {
            let i = choose|i: int| 0 <= i < front.len() && front[i] == pair;
            assert(all[i] == pair);
        }
        if exists|j: int| 0 <= j < rules.len() && (#[trigger] rules[j]).inst@ == pair.1 {
            let j = choose|j: int| 0 <= j < rules.len() && (#[trigger] rules[j]).inst@ == pair.1;
            if j < rest.len() {
                assert(rest[j].inst@ == pair.1);
            } else if pair.0 == exchange && sweeps(exchange, rules.last(), keep) {
                assert(all[front.len() as int] == pair);
            }
        }
    }
}

/// A sweep that is due is made in full once nothing is left of the cleanup: every instrument to sweep is
/// on the list, the first is cancelled at once and the others one after the other.
pub proof fn law_due_sweep_is_made(
    after: StaticProtect,
    round: StaticRound,
    action: StaticAction,
    exchange: Seq<char>,
    inst: Seq<char>,
    k: int,
    j: int,
)
    requires
        after.swept(true, round, action),
        0 <= k < round.exchanges@.len(),
        round.exchanges@[k]@ == exchange,
        0 <= j < after.rules@.len(),
        after.rules@[j].inst@ == inst,
        inst != "*"@,
        !live(after.rules@, round.positions@, exchange + ":"@ + inst),
    ensures
        round.phase == (StaticPhase::Sweep { i: 0 }),
        !after.sweep_pending,
        exists|i: int|
            {
                &&& 0 <= i < round.sweep@.len()
                &&& (#[trigger] round.sweep@[i]).0@ == exchange
                &&& round.sweep@[i].1@ == inst
            },
        action is CancelOwn,
        action->exchange@ == round.sweep@[0].0@,
        action->inst@ == round.sweep@[0].1@,
{
    let keep = live_set(after.rules@, round.positions@);
    let exchanges = views(round.exchanges@);
    let targets = full_sweep(exchanges, after.rules@, keep);
    assert(exchanges[k] == exchange);
    law_sweep_covers_every_named_instrument(exchanges, after.rules@, keep, exchange, inst);
    assert(targets.contains((exchange, inst)));
    let i = choose|i: int| 0 <= i < targets.len() && targets[i] == (exchange, inst);
    assert(pair_views(round.sweep@)[i] == pair_view(round.sweep@[i]));
    assert(round.sweep@[i].0@ == exchange);
    assert(pair_views(round.sweep@)[0] == pair_view(round.sweep@[0]));
}

/// A sweep goes through its whole list: after each cancellation, whatever became of it, the next is
/// asked for, and the round ends after the last.
pub proof fn law_sweep_goes_through_its_list(
    before: StaticProtect,
    after: StaticProtect,
    round_before: StaticRound,
    round: StaticRound,
    event: StaticEvent,
    action: StaticAction,
)
    requires
        round_before.well_formed(),
        after.stepped(before, round_before, event, round, action),
        round_before.phase is Sweep,
    ensures
        match round_before.phase {
            StaticPhase::Sweep { i } => if i + 1 < round_before.sweep@.len() {
                &&& action is CancelOwn
                &&& action->exchange@ == round_before.sweep@[i + 1].0@
                &&& action->inst@ == round_before.sweep@[i + 1].1@
            } else {
                action is Done
            },
            _ => false,
        },
        after == before,
{
}

}
