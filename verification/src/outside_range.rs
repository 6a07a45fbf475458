//! Cancels entry orders that the price has left behind.
//!
//! An order is cancelled only after the last price has stayed beyond its bracket for the
//! whole waiting time, and only after order and price have been read again.
//! [`OkxOutsideRangeCancel::reconcile`] takes in what the host reports and says what the
//! host is to do next.

use crate::eligibility::{breach, breach_of, Breach, Direction, GuardOrder, InstrumentType};
use crate::error::GuardError;
use crate::executor::{views, GuardExecutor};
use crate::number::{Float64, Quote};
use crate::okx_orders::{non_negative_quote, parse_non_negative};
use crate::prices::{
    are_instruments, instruments, last_of, last_price, law_every_instrument_is_asked_for, Ticker,
};
use crate::table::{contains_text, listed};
use crate::text::{is_blank, is_blank_text, same_text};
use crate::tracker::{
    can_be_loaded, elapsed, law_ready_only_after_continuous_wait, law_recorded_time_is_unbroken,
    law_unbroken_time_is_recorded, lookup, ready, record_after, restart_reason, sighted,
    stored_map, unbroken, Observation, OutsideTracker, Sighting,
};
use vstd::prelude::*;
use vstd::string::*;

verus! {

#[derive(Debug)]
pub struct OkxOutsideRangeCancelConfig {
    pub enabled: bool,
    pub schedule_duration_sec: u64,
    pub schedule_task_id: u64,
    pub outside_seconds: u64,
    pub state_path: String,
}

/// The waiting time where none is configured: 37 minutes.
pub fn default_outside_seconds() -> (r: u64)
    ensures
        r == 37 * 60,
{
    2_220
}

pub fn default_state_path() -> (r: String)
    ensures
        r@ == "outside_range_state.toml"@,
{
    "outside_range_state.toml".to_owned()
}

impl Clone for OkxOutsideRangeCancelConfig {
    fn clone(&self) -> (r: Self)
        ensures
            r == *self,
    {
        OkxOutsideRangeCancelConfig {
            enabled: self.enabled,
            schedule_duration_sec: self.schedule_duration_sec,
            schedule_task_id: self.schedule_task_id,
            outside_seconds: self.outside_seconds,
            state_path: self.state_path.clone(),
        }
    }
}

impl OkxOutsideRangeCancelConfig {
    /// What is wrong with a configuration.
    pub open spec fn problem(self) -> Option<Seq<char>> {
        if self.schedule_duration_sec == 0 || self.outside_seconds == 0 {
            Some("OKX outside-range schedule and timeout must be positive"@)
        } else if is_blank_text(self.state_path@) {
            Some("okx_outside_range_cancel.state_path must not be empty"@)
        } else {
            None
        }
    }

    pub fn validate(&self) -> (r: Result<(), GuardError>)
        ensures
            match r {
                Ok(()) => self.problem() is None,
                Err(e) => self.problem() == Some(e.message@),
            },
    {
        if self.schedule_duration_sec == 0 || self.outside_seconds == 0 {
            return Err(
                GuardError::new("OKX outside-range schedule and timeout must be positive"),
            );
        }
        if is_blank(self.state_path.as_str()) {
            return Err(GuardError::new("okx_outside_range_cancel.state_path must not be empty"));
        }
        Ok(())
    }
}

/// The largest number of 64 bits, where `n` is larger.
pub open spec fn capped(n: int) -> u64 {
    if n > u64::MAX {
        u64::MAX
    } else {
        n as u64
    }
}

/// A number of seconds in microseconds.
fn micros(seconds: u64) -> (r: u64)
    ensures
        r == capped(seconds * 1_000_000),
{
    match seconds.checked_mul(1_000_000) {
        Some(n) => n,
        None => u64::MAX,
    }
}

/// The name of a breach in the trail.
pub open spec fn breach_name(side: Breach) -> Seq<char> {
    match side {
        Breach::TakeProfit => "TakeProfit"@,
        Breach::StopLoss => "StopLoss"@,
    }
}

fn breach_word(side: Breach) -> (r: &'static str)
    ensures
        r@ == breach_name(side),
{
    match side {
        Breach::TakeProfit => "TakeProfit",
        Breach::StopLoss => "StopLoss",
    }
}

/// The beginning of a remark on an order.
pub open spec fn remark_on(what: Seq<char>, order: GuardOrder) -> Seq<char> {
    "outside_range "@ + what + " inst="@ + order.inst@ + " order_id="@ + order.order_id@
}

fn remark(what: &str, order: &GuardOrder) -> (r: String)
    ensures
        r@ == remark_on(what@, *order),
{
    let mut text: String = "outside_range ".to_owned();
    text.append(what);
    text.append(" inst=");
    text.append(order.inst.as_str());
    text.append(" order_id=");
    text.append(order.order_id.as_str());
    text
}

/// The remark that an order is watched from now on.
pub open spec fn started_remark(
    order: GuardOrder,
    side: Breach,
    last: Quote,
    reason: Seq<char>,
) -> Seq<char> {
    remark_on("tracking_started"@, order) + " side="@ + breach_name(side) + " last="@ + last.text@
        + " tp="@ + order.take_profit.text@ + " sl="@ + order.stop_loss.text@ + " reason="@ + reason
}

/// The remark that an order is no longer watched.
pub open spec fn reset_remark(order: GuardOrder, reason: Seq<char>) -> Seq<char> {
    remark_on("tracking_reset"@, order) + " reason="@ + reason
}

/// The remark that an order is about to be cancelled.
pub open spec fn candidate_remark(order: GuardOrder, side: Breach, last: Quote) -> Seq<char> {
    remark_on("cancel_candidate"@, order) + " side="@ + breach_name(side) + " last="@ + last.text@
        + " entry="@ + order.entry.text@ + " tp="@ + order.take_profit.text@ + " sl="@
        + order.stop_loss.text@
}

/// An order as it is reported after its cancellation.
#[derive(Debug)]
pub struct ConfirmedOrder {
    pub state: String,
    pub filled: Option<Quote>,
}

/// The remark on what became of a cancelled order.
pub open spec fn confirmation_remark(order: GuardOrder, row: Option<ConfirmedOrder>) -> Seq<char> {
    match row {
        Some(row) => remark_on("cancel_confirmation"@, order) + " state="@ + row.state@
            + " executed_size="@ + match non_negative_quote(row.filled) {
            Some(filled) => filled.text@,
            None => "0"@,
        },
        None => remark_on("cancel_confirmation_missing"@, order),
    }
}

/// Whether an order will not trade any more.
pub open spec fn is_terminal(row: Option<ConfirmedOrder>) -> bool {
    row is Some && (row->0.state@ == "canceled"@ || row->0.state@ == "mmp_canceled"@
        || row->0.state@ == "filled"@)
}

/// Judges what became of a cancelled order: the remark on it, and whether it is over.
pub fn cancel_is_terminal(order: &GuardOrder, row: Option<ConfirmedOrder>) -> (r: (String, bool))
    ensures
        r.0@ == confirmation_remark(*order, row),
        r.1 == is_terminal(row),
{
    match row {
        Some(row) => {
            let state: &str = row.state.as_str();
            let terminal: bool = same_text(state, "canceled") || same_text(state, "mmp_canceled")
                || same_text(state, "filled");
            let mut text: String = remark("cancel_confirmation", order);
            text.append(" state=");
            text.append(state);
            text.append(" executed_size=");
            match parse_non_negative(row.filled) {
                Some(filled) => text.append(filled.text.as_str()),
                None => text.append("0"),
            }
            (text, terminal)
        },
        None => (remark("cancel_confirmation_missing", order), false),
    }
}

/// The last order with an id.
pub open spec fn order_index(orders: Seq<GuardOrder>, id: Seq<char>) -> Option<int>
    decreases orders.len(),
{
    if orders.len() == 0 {
        None
    } else if orders.last().order_id@ == id {
        Some(orders.len() - 1)
    } else {
        order_index(orders.drop_last(), id)
    }
}

fn find_order(orders: &Vec<GuardOrder>, id: &str) -> (r: Option<usize>)
    ensures
        match r {
            Some(i) => {
                &&& order_index(orders@, id@) == Some(i as int)
                &&& i < orders@.len()
                &&& orders@[i as int].order_id@ == id@
            },
            None => order_index(orders@, id@) is None,
        },
{
    let mut n: usize = orders.len();
    assert(orders@.take(n as int) =~= orders@);
    while n > 0
        invariant
            n <= orders@.len(),
            order_index(orders@, id@) == order_index(orders@.take(n as int), id@),
        decreases n,
    {
        assert(orders@.take(n as int).drop_last() =~= orders@.take(n - 1));
        n -= 1;
        if same_text(orders[n].order_id.as_str(), id) {
            return Some(n);
        }
    }
    None
}

/// Whether an order with an id is among `orders`.
pub open spec fn has_order(orders: Seq<GuardOrder>, id: Seq<char>) -> bool {
    exists|i: int| 0 <= i < orders.len() && (#[trigger] orders[i]).order_id@ == id
}

/// The ids of orders.
fn order_ids(orders: &Vec<GuardOrder>) -> (r: Vec<String>)
    ensures
        forall|id: Seq<char>| #[trigger] listed(r@, id) == has_order(orders@, id),
{
    let mut ids: Vec<String> = Vec::new();
    let mut i: usize = 0;
    while i < orders.len()
        invariant
            i <= orders@.len(),
            ids@.len() == i,
            forall|k: int| 0 <= k < i ==> (#[trigger] ids@[k])@ == orders@[k].order_id@,
        decreases orders@.len() - i,
    {
        ids.push(orders[i].order_id.clone());
        i += 1;
    }
    proof {
        assert forall|id: Seq<char>| #[trigger] listed(ids@, id) == has_order(orders@, id) by {
            if listed(ids@, id) {
                let k = choose|k: int| 0 <= k < ids@.len() && (#[trigger] ids@[k])@ == id;
                assert(orders@[k].order_id@ == id);
            }
            if has_order(orders@, id) {
                let k = choose|k: int|
                    0 <= k < orders@.len() && (#[trigger] orders@[k]).order_id@ == id;
                assert(ids@[k]@ == id);
            }
        }
    }
    ids
}

/// What going over the open orders leaves behind.
pub struct Watch {
    /// The stretches on record.
    pub orders: Map<Seq<char>, Observation>,
    /// The remarks for the trail.
    pub remarks: Seq<Seq<char>>,
    /// The orders that have been left behind for the waiting time.
    pub candidates: Seq<(GuardOrder, Breach)>,
}

/// Forgets an order, with a remark where it was on record.
pub open spec fn forgotten(watch: Watch, order: GuardOrder, reason: Seq<char>) -> Watch {
    Watch {
        orders: watch.orders.remove(order.order_id@),
        remarks: if watch.orders.contains_key(order.order_id@) {
            watch.remarks.push(reset_remark(order, reason))
        } else {
            watch.remarks
        },
        candidates: watch.candidates,
    }
}

/// Takes note of one order at the price `last`: inside its bracket, or without a price, it is
/// forgotten; outside it is sighted, and after the waiting time it becomes a candidate.
pub open spec fn watched(
    watch: Watch,
    order: GuardOrder,
    last: Option<Quote>,
    now_us: u64,
    max_gap_us: u64,
    wait_us: u64,
) -> Watch {
    match last {
        None => forgotten(watch, order, "last_price_unavailable"@),
        Some(last) => match breach_of(order, last.value) {
            None => forgotten(watch, order, "price_returned_inside"@),
            Some(side) => {
                let existing = lookup(watch.orders, order.order_id@);
                let reason = restart_reason(
                    existing,
                    order.fingerprint@,
                    side,
                    now_us,
                    max_gap_us,
                );
                let next = sighted(existing, order.fingerprint, side, now_us, max_gap_us);
                Watch {
                    orders: watch.orders.insert(order.order_id@, next),
                    remarks: match reason {
                        Some(reason) => watch.remarks.push(
                            started_remark(order, side, last, reason),
                        ),
                        None => watch.remarks,
                    },
                    candidates: if elapsed(now_us, next.outside_since_us) >= wait_us {
                        watch.candidates.push((order, side))
                    } else {
                        watch.candidates
                    },
                }
            },
        },
    }
}

/// Takes note of the open orders one after the other.
pub open spec fn watched_all(
    start: Map<Seq<char>, Observation>,
    orders: Seq<GuardOrder>,
    tickers: Seq<Ticker>,
    now_us: u64,
    max_gap_us: u64,
    wait_us: u64,
) -> Watch
    decreases orders.len(),
{
    if orders.len() == 0 {
        Watch { orders: start, remarks: Seq::empty(), candidates: Seq::empty() }
    } else {
        let order = orders.last();
        watched(
            watched_all(start, orders.drop_last(), tickers, now_us, max_gap_us, wait_us),
            order,
            last_of(tickers, order.inst@, now_us),
            now_us,
            max_gap_us,
            wait_us,
        )
    }
}

/// Whether a candidate, read again at a fresh price, is still to be cancelled.
pub open spec fn still_due(
    records: Map<Seq<char>, Observation>,
    candidate: (GuardOrder, Breach),
    order: GuardOrder,
    last: Quote,
    now_us: u64,
    wait_us: u64,
) -> bool {
    &&& order.fingerprint@ == candidate.0.fingerprint@
    &&& breach_of(order, last.value) == Some(candidate.1)
    &&& ready(
        lookup(records, order.order_id@),
        order.fingerprint@,
        candidate.1,
        now_us,
        wait_us,
    )
}

/// What the check of the candidates before cancelling leaves behind, up to the first that is
/// to be cancelled.
pub struct Preflight {
    pub orders: Map<Seq<char>, Observation>,
    /// Whether a record was dropped, so that the state has to be stored.
    pub changed: bool,
    pub remarks: Seq<Seq<char>>,
    /// The candidate to cancel, and where the order stands among those read again.
    pub due: Option<(int, int)>,
}

/// Drops the record of a candidate that failed the check.
pub open spec fn dropped(flight: Preflight, order: GuardOrder, reason: Seq<char>) -> Preflight {
    Preflight {
        orders: flight.orders.remove(order.order_id@),
        changed: true,
        remarks: if flight.orders.contains_key(order.order_id@) {
            flight.remarks.push(reset_remark(order, reason))
        } else {
            flight.remarks
        },
        due: None,
    }
}

/// Checks the candidates from place `i` on.
pub open spec fn checked_from(
    flight: Preflight,
    candidates: Seq<(GuardOrder, Breach)>,
    i: int,
    current: Seq<GuardOrder>,
    tickers: Seq<Ticker>,
    now_us: u64,
    wait_us: u64,
) -> Preflight
    decreases candidates.len() - i,
{
    if i >= candidates.len() {
        flight
    } else {
        let id = candidates[i].0.order_id@;
        match order_index(current, id) {
            None => {
                let next = Preflight {
                    orders: flight.orders.remove(id),
                    changed: flight.changed || flight.orders.contains_key(id),
                    remarks: flight.remarks,
                    due: None,
                };
                checked_from(next, candidates, i + 1, current, tickers, now_us, wait_us)
            },
            Some(at) => {
                let order = current[at];
                match last_of(tickers, order.inst@, now_us) {
                    None => {
                        let next = dropped(flight, order, "preflight_last_price_unavailable"@);
                        checked_from(next, candidates, i + 1, current, tickers, now_us, wait_us)
                    },
                    Some(last) => if still_due(
                        flight.orders,
                        candidates[i],
                        order,
                        last,
                        now_us,
                        wait_us,
                    ) {
                        Preflight {
                            remarks: flight.remarks.push(
                                candidate_remark(order, candidates[i].1, last),
                            ),
                            due: Some((i, at)),
                            ..flight
                        }
                    } else {
                        let next = dropped(flight, order, "preflight_condition_changed"@);
                        checked_from(next, candidates, i + 1, current, tickers, now_us, wait_us)
                    },
                }
            },
        }
    }
}

/// The candidates among the orders read again.
pub open spec fn found_again(
    candidates: Seq<(GuardOrder, Breach)>,
    current: Seq<GuardOrder>,
) -> Seq<GuardOrder>
    decreases candidates.len(),
{
    if candidates.len() == 0 {
        Seq::empty()
    } else {
        let before = found_again(candidates.drop_last(), current);
        match order_index(current, candidates.last().0.order_id@) {
            Some(at) => before.push(current[at]),
            None => before,
        }
    }
}

fn find_again(candidates: &Vec<(GuardOrder, Breach)>, current: &Vec<GuardOrder>) -> (r: Vec<
    GuardOrder,
>)
    ensures
        r@ == found_again(candidates@, current@),
{
    let mut found: Vec<GuardOrder> = Vec::new();
    let mut i: usize = 0;
    while i < candidates.len()
        invariant
            i <= candidates@.len(),
            found@ == found_again(candidates@.take(i as int), current@),
        decreases candidates@.len() - i,
    {
        assert(candidates@.take(i + 1).drop_last() =~= candidates@.take(i as int));
        if let Some(at) = find_order(current, candidates[i].0.order_id.as_str()) {
            found.push(current[at].clone());
        }
        i += 1;
    }
    assert(candidates@.take(candidates@.len() as int) =~= candidates@);
    found
}

/// Where a round stands: what the host was asked for last.
#[derive(Debug, Clone, Copy)]
pub enum OutsidePhase {
    /// Nothing yet.
    Start,
    /// The open orders.
    Scanning,
    /// The last prices of the open orders.
    Pricing,
    /// To store the state.
    Saving,
    /// The open orders once more.
    Rescanning,
    /// The last prices once more.
    Repricing,
    /// To cancel candidate `i`, which is order `at` of those read again.
    Cancelling { i: usize, at: usize },
    /// What became of the cancelled order.
    Confirming { i: usize, at: usize },
    /// To store the state after the cancellations.
    Closing,
    /// The round is over.
    Over,
}

/// One pass over the open orders.
#[derive(Debug)]
pub struct OutsideRound {
    pub phase: OutsidePhase,
    /// The open orders, as read last.
    pub orders: Vec<GuardOrder>,
    /// The orders that may have to be cancelled, and the side on which they were left behind.
    pub candidates: Vec<(GuardOrder, Breach)>,
    /// The last prices, as read last.
    pub tickers: Vec<Ticker>,
    pub now_us: u64,
    /// Whether a record was dropped since the state was stored.
    pub changed: bool,
}

impl OutsideRound {
    /// Whether the places that the round stands at exist.
    pub open spec fn well_formed(self) -> bool {
        match self.phase {
            OutsidePhase::Cancelling { i, at } | OutsidePhase::Confirming { i, at } => {
                i < self.candidates@.len() && at < self.orders@.len()
            },
            _ => true,
        }
    }

    /// Whether only the phase has changed since `before`.
    pub open spec fn turned(self, before: Self, phase: OutsidePhase) -> bool {
        self == (OutsideRound { phase, ..before })
    }

    pub fn new() -> (r: Self)
        ensures
            r.well_formed(),
            r.phase == OutsidePhase::Start,
            r.orders@.len() == 0,
            r.candidates@.len() == 0,
            r.tickers@.len() == 0,
            r.now_us == 0,
            !r.changed,
    {
        OutsideRound {
            phase: OutsidePhase::Start,
            orders: Vec::new(),
            candidates: Vec::new(),
            tickers: Vec::new(),
            now_us: 0,
            changed: false,
        }
    }
}

/// What the host reports back to a round.
#[derive(Debug)]
pub enum OutsideEvent {
    /// The round starts.
    Begin,
    /// The open orders that the policy may act on.
    Orders { orders: Vec<GuardOrder> },
    /// The last prices, and the time.
    Prices { tickers: Vec<Ticker>, now_us: u64 },
    /// The state was stored.
    Saved,
    /// The cancellation was sent, or recorded in a dry run.
    Cancelled { dry_run: bool },
    /// The cancelled order was looked up.
    Confirmed { row: Option<ConfirmedOrder> },
    /// The request failed.
    Failed,
}

/// What the host is to do next.
#[derive(Debug)]
pub enum OutsideAction {
    /// Read the open orders.
    FetchOrders,
    /// Read the last prices of these perpetuals and futures.
    FetchPrices { swaps: Vec<String>, futures: Vec<String> },
    /// Store the state.
    Save,
    /// Cancel an order.
    Cancel { exchange: String, inst: String, order_id: String },
    /// Look up an order.
    Confirm { venue_inst: String, order_id: String },
    /// The round is over.
    Done,
}

/// Whether an action asks for the prices of these orders.
pub open spec fn asks_prices(action: OutsideAction, orders: Seq<GuardOrder>) -> bool {
    match action {
        OutsideAction::FetchPrices { swaps, futures } => {
            &&& are_instruments(orders, InstrumentType::Perpetual, swaps@)
            &&& are_instruments(orders, InstrumentType::Futures, futures@)
        },
        _ => false,
    }
}

/// Asks for the prices of these orders.
fn price_request(orders: &Vec<GuardOrder>) -> (r: OutsideAction)
    ensures
        asks_prices(r, orders@),
{
    OutsideAction::FetchPrices {
        swaps: instruments(orders, InstrumentType::Perpetual),
        futures: instruments(orders, InstrumentType::Futures),
    }
}

/// Cancels zero-fill entries whose bracket the price has left for the configured time.
#[derive(Debug)]
pub struct OkxOutsideRangeCancel {
    pub config: OkxOutsideRangeCancelConfig,
    pub tracker: OutsideTracker,
    pub wait_us: u64,
    pub max_gap_us: u64,
}

impl OkxOutsideRangeCancel {
    /// Why a module cannot be set up.
    pub open spec fn refusal(
        config: OkxOutsideRangeCancelConfig,
        exchanges: Seq<Seq<char>>,
        stored: Option<(u32, Vec<(String, Observation)>)>,
    ) -> Option<Seq<char>> {
        if config.problem() is Some {
            config.problem()
        } else if config.enabled && !exchanges.contains("okx"@) {
            Some("okx_outside_range_cancel requires okx in guard_executor.exchanges"@)
        } else if config.enabled && stored is Some && !can_be_loaded(
            (stored->0).0,
            (stored->0).1@,
        ) {
            Some("invalid outside-range state: "@ + config.state_path@)
        } else {
            None
        }
    }

    /// Sets the module up, with the stored state where there is one.
    pub fn new(
        config: &OkxOutsideRangeCancelConfig,
        executor: &GuardExecutor,
        stored: Option<(u32, Vec<(String, Observation)>)>,
    ) -> (r: Result<Self, GuardError>)
        ensures
            ({
                let exchanges = Seq::new(
                    executor.slots@.len(),
                    |i: int| executor.slots@[i].name@,
                );
                match r {
                    Ok(module) => {
                        &&& Self::refusal(*config, exchanges, stored) is None
                        &&& module.config == *config
                        &&& module.tracker.valid()
                        &&& module.tracker.orders@ == match stored {
                            Some(state) if config.enabled => stored_map(state.1@),
                            _ => Map::<Seq<char>, Observation>::empty(),
                        }
                        &&& module.wait_us == capped(config.outside_seconds * 1_000_000)
                        &&& module.max_gap_us == capped(
                            capped(
                                config.schedule_duration_sec + config.schedule_duration_sec as int
                                    / 2,
                            ) * 1_000_000,
                        )
                        &&& module.timed_by(*config)
                    },
                    Err(e) => Self::refusal(*config, exchanges, stored) == Some(e.message@),
                }
            }),
    {
        match config.validate() {
            Ok(()) => {},
            Err(e) => return Err(e),
        }
        let ghost exchanges = Seq::new(executor.slots@.len(), |i: int| executor.slots@[i].name@);
        let names: Vec<String> = executor.exchanges();
        let has_okx: bool = contains_text(&names, "okx");
        proof {
            if has_okx {
                let k = choose|k: int| 0 <= k < names@.len() && (#[trigger] names@[k])@ == "okx"@;
                assert(exchanges[k] == "okx"@);
            }
            if exchanges.contains("okx"@) {
                let k = choose|k: int| 0 <= k < exchanges.len() && exchanges[k] == "okx"@;
                assert(names@[k]@ == "okx"@);
            }
        }
        if config.enabled && !has_okx {
            return Err(
                GuardError::new(
                    "okx_outside_range_cancel requires okx in guard_executor.exchanges",
                ),
            );
        }
        let mut tracker: OutsideTracker = OutsideTracker::default();
        if config.enabled {
            if let Some((schema_version, entries)) = stored {
                match OutsideTracker::load(config.state_path.as_str(), schema_version, entries) {
                    Ok(state) => {
                        tracker = state;
                    },
                    Err(e) => return Err(e),
                }
            }
        }
        let duration: u64 = config.schedule_duration_sec;
        Ok(
            OkxOutsideRangeCancel {
                config: config.clone(),
                tracker,
                wait_us: micros(config.outside_seconds),
                max_gap_us: micros(duration.saturating_add(duration / 2)),
            },
        )
    }

    /// Whether the module waits as long, and allows as long a gap, as the configuration asks for.
    pub open spec fn timed_by(self, config: OkxOutsideRangeCancelConfig) -> bool {
        let duration = config.schedule_duration_sec as int;
        &&& self.wait_us == capped(config.outside_seconds * 1_000_000)
        &&& self.max_gap_us == capped(capped(duration + duration / 2) * 1_000_000)
    }

    /// Whether the module runs at a scheduler event: only at its own, and only where it is enabled.
    pub open spec fn runs_at(self, task_id: u64) -> bool {
        self.config.enabled && task_id == self.config.schedule_task_id
    }

    /// Whether a scheduler event is for this module.
    pub fn is_due(&self, task_id: u64) -> (r: bool)
        ensures
            r == self.runs_at(task_id),
            r == (self.config.enabled && task_id == self.config.schedule_task_id),
    {
        self.config.enabled && task_id == self.config.schedule_task_id
    }

    /// Whether everything but the records is as in `before`.
    pub open spec fn same_setup(self, before: Self) -> bool {
        &&& self.config == before.config
        &&& self.wait_us == before.wait_us
        &&& self.max_gap_us == before.max_gap_us
        &&& self.tracker.schema_version == before.tracker.schema_version
        &&& before.tracker.valid() ==> self.tracker.valid()
    }

    /// Forgets an order, with a remark where it was on record.
    fn reset(&mut self, order: &GuardOrder, reason: &str, remarks: &mut Vec<String>)
        ensures
            final(self).same_setup(*old(self)),
            final(self).tracker.orders@ == old(self).tracker.orders@.remove(order.order_id@),
            views(final(remarks)@) == if old(self).tracker.orders@.contains_key(order.order_id@) {
                views(old(remarks)@).push(reset_remark(*order, reason@))
            } else {
                views(old(remarks)@)
            },
    {
        if self.tracker.reset(order.order_id.as_str()) {
            let ghost before = remarks@;
            let mut text: String = remark("tracking_reset", order);
            text.append(" reason=");
            text.append(reason);
            remarks.push(text);
            assert(views(remarks@) =~= views(before).push(reset_remark(*order, reason@)));
        }
    }

    /// Takes note of one order.
    fn watch(
        &mut self,
        order: &GuardOrder,
        last: Option<Quote>,
        now_us: u64,
        remarks: &mut Vec<String>,
        candidates: &mut Vec<(GuardOrder, Breach)>,
    )
        ensures
            final(self).same_setup(*old(self)),
            ({
                let before = Watch {
                    orders: old(self).tracker.orders@,
                    remarks: views(old(remarks)@),
                    candidates: old(candidates)@,
                };
                watched(
                    before,
                    *order,
                    last,
                    now_us,
                    old(self).max_gap_us,
                    old(self).wait_us,
                ) == (Watch {
                    orders: final(self).tracker.orders@,
                    remarks: views(final(remarks)@),
                    candidates: final(candidates)@,
                })
            }),
    {
        let last: Quote = match last {
            Some(last) => last,
            None => {
                self.reset(order, "last_price_unavailable", remarks);
                return;
            },
        };
        let side: Breach = match breach(order, last.value) {
            Some(side) => side,
            None => {
                self.reset(order, "price_returned_inside", remarks);
                return;
            },
        };
        let (elapsed_us, reason) = self.tracker.observe(order, side, now_us, self.max_gap_us);
        if let Some(reason) = reason {
            let ghost before = remarks@;
            let mut text: String = remark("tracking_started", order);
            text.append(" side=");
            text.append(breach_word(side));
            text.append(" last=");
            text.append(last.text.as_str());
            text.append(" tp=");
            text.append(order.take_profit.text.as_str());
            text.append(" sl=");
            text.append(order.stop_loss.text.as_str());
            text.append(" reason=");
            text.append(reason);
            remarks.push(text);
            assert(views(remarks@) =~= views(before).push(
                started_remark(*order, side, last, reason@),
            ));
        }
        if elapsed_us >= self.wait_us {
            candidates.push((order.clone(), side));
        }
    }

    /// Takes note of the open orders at the last prices.
    fn watch_all(&mut self, round: &mut OutsideRound) -> (r: Vec<String>)
        ensures
            final(self).same_setup(*old(self)),
            ({
                let watch = watched_all(
                    old(self).tracker.orders@,
                    old(round).orders@,
                    old(round).tickers@,
                    old(round).now_us,
                    old(self).max_gap_us,
                    old(self).wait_us,
                );
                &&& final(self).tracker.orders@ == watch.orders
                &&& views(r@) == watch.remarks
                &&& final(round).candidates@ == watch.candidates
            }),
            *final(round) == (OutsideRound {
                candidates: final(round).candidates,
                ..*old(round)
            }),
    {
        let mut remarks: Vec<String> = Vec::new();
        let mut candidates: Vec<(GuardOrder, Breach)> = Vec::new();
        let ghost start = self.tracker.orders@;
        let ghost (max_gap_us, wait_us) = (self.max_gap_us, self.wait_us);
        let mut i: usize = 0;
        assert(views(remarks@) =~= Seq::<Seq<char>>::empty());
        assert(candidates@ =~= Seq::<(GuardOrder, Breach)>::empty());
        while i < round.orders.len()
            invariant
                i <= round.orders@.len(),
                *round == *old(round),
                self.same_setup(*old(self)),
                max_gap_us == old(self).max_gap_us,
                wait_us == old(self).wait_us,
                (Watch {
                    orders: self.tracker.orders@,
                    remarks: views(remarks@),
                    candidates: candidates@,
                }) == watched_all(
                    start,
                    round.orders@.take(i as int),
                    round.tickers@,
                    round.now_us,
                    max_gap_us,
                    wait_us,
                ),
            decreases round.orders@.len() - i,
        {
            assert(round.orders@.take(i + 1).drop_last() =~= round.orders@.take(i as int));
            let last: Option<Quote> = last_price(
                &round.tickers,
                round.orders[i].inst.as_str(),
                round.now_us,
            );
            self.watch(&round.orders[i], last, round.now_us, &mut remarks, &mut candidates);
            i += 1;
        }
        assert(round.orders@.take(round.orders@.len() as int) =~= round.orders@);
        round.candidates = candidates;
        remarks
    }

    /// What is to be done for what a check of the candidates from place `from` on comes to.
    pub open spec fn checked(
        self,
        before: Self,
        start: Map<Seq<char>, Observation>,
        changed: bool,
        first_remarks: Seq<Seq<char>>,
        round_before: OutsideRound,
        from: int,
        round: OutsideRound,
        remarks: Seq<Seq<char>>,
        action: OutsideAction,
    ) -> bool {
        let flight = checked_from(
            Preflight { orders: start, changed, remarks: first_remarks, due: None },
            round_before.candidates@,
            from,
            round_before.orders@,
            round_before.tickers@,
            round_before.now_us,
            before.wait_us,
        );
        &&& self.same_setup(before)
        &&& self.tracker.orders@ == flight.orders
        &&& remarks == flight.remarks
        &&& round == (OutsideRound { phase: round.phase, changed: flight.changed, ..round_before })
        &&& match flight.due {
            Some((i, at)) => {
                &&& round.phase == (OutsidePhase::Cancelling { i: i as usize, at: at as usize })
                &&& action is Cancel
                &&& action->exchange@ == "okx"@
                &&& action->inst == round_before.orders@[at].inst
                &&& action->Cancel_order_id == round_before.orders@[at].order_id
            },
            None => if flight.changed {
                round.phase == OutsidePhase::Closing && action is Save
            } else {
                round.phase == OutsidePhase::Over && action is Done
            },
        }
    }

    /// Checks the candidates from place `from` on, up to the first that is to be cancelled.
    fn check(&mut self, round: &mut OutsideRound, from: usize, remarks: &mut Vec<String>) -> (r:
        OutsideAction)
        ensures
            final(round).well_formed(),
            final(self).checked(
                *old(self),
                old(self).tracker.orders@,
                old(round).changed,
                views(old(remarks)@),
                *old(round),
                from as int,
                *final(round),
                views(final(remarks)@),
                r,
            ),
    {
        let ghost goal = checked_from(
            Preflight {
                orders: self.tracker.orders@,
                changed: round.changed,
                remarks: views(remarks@),
                due: None,
            },
            round.candidates@,
            from as int,
            round.orders@,
            round.tickers@,
            round.now_us,
            self.wait_us,
        );
        let mut i: usize = from;
        while i < round.candidates.len()
            invariant
                self.same_setup(*old(self)),
                *round == (OutsideRound { changed: round.changed, ..*old(round) }),
                goal == checked_from(
                    Preflight {
                        orders: old(self).tracker.orders@,
                        changed: old(round).changed,
                        remarks: views(old(remarks)@),
                        due: None,
                    },
                    round.candidates@,
                    from as int,
                    round.orders@,
                    round.tickers@,
                    round.now_us,
                    self.wait_us,
                ),
                goal == checked_from(
                    Preflight {
                        orders: self.tracker.orders@,
                        changed: round.changed,
                        remarks: views(remarks@),
                        due: None,
                    },
                    round.candidates@,
                    i as int,
                    round.orders@,
                    round.tickers@,
                    round.now_us,
                    self.wait_us,
                ),
            decreases round.candidates@.len() - i,
        {
            let side: Breach = round.candidates[i].1;
            match find_order(&round.orders, round.candidates[i].0.order_id.as_str()) {
                None => {
                    if self.tracker.reset(round.candidates[i].0.order_id.as_str()) {
                        round.changed = true;
                    }
                },
                Some(at) => {
                    let order: GuardOrder = round.orders[at].clone();
                    let last: Option<Quote> = last_price(
                        &round.tickers,
                        order.inst.as_str(),
                        round.now_us,
                    );
                    match last {
                        None => {
                            self.reset(&order, "preflight_last_price_unavailable", remarks);
                            round.changed = true;
                        },
                        Some(last) => {
                            let same_side: bool = match breach(&order, last.value) {
                                Some(now) => now == side,
                                None => false,
                            };
                            let unchanged: bool = same_text(
                                order.fingerprint.as_str(),
                                round.candidates[i].0.fingerprint.as_str(),
                            );
                            if unchanged && same_side && self.tracker.is_ready(
                                &order,
                                side,
                                round.now_us,
                                self.wait_us,
                            ) {
                                let ghost before = remarks@;
                                let mut text: String = remark("cancel_candidate", &order);
                                text.append(" side=");
                                text.append(breach_word(side));
                                text.append(" last=");
                                text.append(last.text.as_str());
                                text.append(" entry=");
                                text.append(order.entry.text.as_str());
                                text.append(" tp=");
                                text.append(order.take_profit.text.as_str());
                                text.append(" sl=");
                                text.append(order.stop_loss.text.as_str());
                                remarks.push(text);
                                assert(views(remarks@) =~= views(before).push(
                                    candidate_remark(order, side, last),
                                ));
                                round.phase = OutsidePhase::Cancelling { i, at };
                                return OutsideAction::Cancel {
                                    exchange: "okx".to_owned(),
                                    inst: order.inst.clone(),
                                    order_id: order.order_id.clone(),
                                };
                            }
                            self.reset(&order, "preflight_condition_changed", remarks);
                            round.changed = true;
                        },
                    }
                },
            }
            i += 1;
        }
        if round.changed {
            round.phase = OutsidePhase::Closing;
            OutsideAction::Save
        } else {
            round.phase = OutsidePhase::Over;
            OutsideAction::Done
        }
    }

    /// How a report carries a round on: what is left behind, what goes into the trail, and
    /// what is to be done.
    pub open spec fn stepped(
        self,
        before: Self,
        round_before: OutsideRound,
        event: OutsideEvent,
        round: OutsideRound,
        remarks: Seq<Seq<char>>,
        action: OutsideAction,
    ) -> bool {
        let records = before.tracker.orders@;
        let quiet = remarks.len() == 0 && self == before;
        let none = Seq::<Seq<char>>::empty();
        match (round_before.phase, event) {
            (OutsidePhase::Start, _) => {
                &&& quiet
                &&& round.turned(round_before, OutsidePhase::Scanning)
                &&& action is FetchOrders
            },
            (OutsidePhase::Scanning, OutsideEvent::Orders { orders }) => {
                &&& self.same_setup(before)
                &&& self.tracker.orders@ == records.restrict(
                    Set::new(|id: Seq<char>| has_order(orders@, id)),
                )
                &&& remarks.len() == 0
                &&& round == (OutsideRound { phase: OutsidePhase::Pricing, orders, ..round_before })
                &&& asks_prices(action, orders@)
            },
            (OutsidePhase::Pricing, OutsideEvent::Prices { tickers, now_us }) => {
                let watch = watched_all(
                    records,
                    round_before.orders@,
                    tickers@,
                    now_us,
                    before.max_gap_us,
                    before.wait_us,
                );
                &&& self.same_setup(before)
                &&& self.tracker.orders@ == watch.orders
                &&& remarks == watch.remarks
                &&& round.candidates@ == watch.candidates
                &&& round == (OutsideRound {
                    phase: OutsidePhase::Saving,
                    candidates: round.candidates,
                    tickers,
                    now_us,
                    ..round_before
                })
                &&& action is Save
            },
            (OutsidePhase::Saving, OutsideEvent::Saved) => {
                &&& quiet
                &&& if round_before.candidates@.len() > 0 {
                    &&& round.turned(round_before, OutsidePhase::Rescanning)
                    &&& action is FetchOrders
                } else {
                    &&& round.turned(round_before, OutsidePhase::Over)
                    &&& action is Done
                }
            },
            (OutsidePhase::Rescanning, OutsideEvent::Orders { orders }) => {
                &&& quiet
                &&& round == (OutsideRound {
                    phase: OutsidePhase::Repricing,
                    orders,
                    ..round_before
                })
                &&& asks_prices(action, found_again(round_before.candidates@, orders@))
            },
            (OutsidePhase::Repricing, OutsideEvent::Prices { tickers, now_us }) => self.checked(
                before,
                records,
                false,
                none,
                OutsideRound { tickers, now_us, ..round_before },
                0,
                round,
                remarks,
                action,
            ),
            (OutsidePhase::Cancelling { i, at }, OutsideEvent::Cancelled { dry_run: false }) => {
                &&& quiet
                &&& round.turned(round_before, OutsidePhase::Confirming { i, at })
                &&& action is Confirm
                &&& action->venue_inst == round_before.orders@[at as int].venue_inst
                &&& action->Confirm_order_id == round_before.orders@[at as int].order_id
            },
            (OutsidePhase::Cancelling { i, .. }, _) => self.checked(
                before,
                records,
                round_before.changed,
                none,
                round_before,
                i + 1,
                round,
                remarks,
                action,
            ),
            (OutsidePhase::Confirming { i, at }, OutsideEvent::Confirmed { row }) => {
                let order = round_before.orders@[at as int];
                let over = is_terminal(row);
                self.checked(
                    before,
                    if over {
                        records.remove(order.order_id@)
                    } else {
                        records
                    },
                    round_before.changed || (over && records.contains_key(order.order_id@)),
                    seq![confirmation_remark(order, row)],
                    round_before,
                    i + 1,
                    round,
                    remarks,
                    action,
                )
            },
            (OutsidePhase::Confirming { i, .. }, _) => self.checked(
                before,
                records,
                round_before.changed,
                none,
                round_before,
                i + 1,
                round,
                remarks,
                action,
            ),
            _ => {
                &&& quiet
                &&& round.turned(round_before, OutsidePhase::Over)
                &&& action is Done
            },
        }
    }

    /// Carries a round on: takes in what the host reports, and says what goes into the trail
    /// and then what to do next.
    ///
    /// A failed read or a failed save ends the round. A failed cancellation, and one whose
    /// outcome is not confirmed, leaves the order on record for the next round.
    pub fn reconcile(&mut self, round: &mut OutsideRound, event: OutsideEvent) -> (r: (
        Vec<String>,
        OutsideAction,
    ))
        requires
            old(round).well_formed(),
        ensures
            final(round).well_formed(),
            final(self).stepped(
                *old(self),
                *old(round),
                event,
                *final(round),
                views(r.0@),
                r.1,
            ),
    {
        let mut remarks: Vec<String> = Vec::new();
        assert(views(remarks@) =~= Seq::<Seq<char>>::empty());
        let action: OutsideAction = match (round.phase, event) {
            (OutsidePhase::Start, _) => {
                round.phase = OutsidePhase::Scanning;
                OutsideAction::FetchOrders
            },
            (OutsidePhase::Scanning, OutsideEvent::Orders { orders }) => {
                let ids: Vec<String> = order_ids(&orders);
                self.tracker.retain(&ids);
                assert(Set::new(|id: Seq<char>| listed(ids@, id)) =~= Set::new(
                    |id: Seq<char>| has_order(orders@, id),
                ));
                let request: OutsideAction = price_request(&orders);
                round.orders = orders;
                round.phase = OutsidePhase::Pricing;
                request
            },
            (OutsidePhase::Pricing, OutsideEvent::Prices { tickers, now_us }) => {
                round.tickers = tickers;
                round.now_us = now_us;
                remarks = self.watch_all(round);
                round.phase = OutsidePhase::Saving;
                OutsideAction::Save
            },
            (OutsidePhase::Saving, OutsideEvent::Saved) => if round.candidates.len() > 0 {
                round.phase = OutsidePhase::Rescanning;
                OutsideAction::FetchOrders
            } else {
                round.phase = OutsidePhase::Over;
                OutsideAction::Done
            },
            (OutsidePhase::Rescanning, OutsideEvent::Orders { orders }) => {
                let found: Vec<GuardOrder> = find_again(&round.candidates, &orders);
                round.orders = orders;
                round.phase = OutsidePhase::Repricing;
                price_request(&found)
            },
            (OutsidePhase::Repricing, OutsideEvent::Prices { tickers, now_us }) => {
                round.tickers = tickers;
                round.now_us = now_us;
                round.changed = false;
                self.check(round, 0, &mut remarks)
            },
            (OutsidePhase::Cancelling { i, at }, OutsideEvent::Cancelled { dry_run: false }) => {
                round.phase = OutsidePhase::Confirming { i, at };
                OutsideAction::Confirm {
                    venue_inst: round.orders[at].venue_inst.clone(),
                    order_id: round.orders[at].order_id.clone(),
                }
            },
            (OutsidePhase::Cancelling { i, at: _ }, _) => {
                assert(round.candidates.len() == round.candidates@.len());
                self.check(round, i + 1, &mut remarks)
            },
            (OutsidePhase::Confirming { i, at }, OutsideEvent::Confirmed { row }) => {
                assert(round.candidates.len() == round.candidates@.len());
                let (text, over) = cancel_is_terminal(&round.orders[at], row);
                let ghost said = text@;
                remarks.push(text);
                assert(views(remarks@) =~= seq![said]);
                if over && self.tracker.reset(round.orders[at].order_id.as_str()) {
                    round.changed = true;
                }
                self.check(round, i + 1, &mut remarks)
            },
            (OutsidePhase::Confirming { i, at: _ }, _) => {
                assert(round.candidates.len() == round.candidates@.len());
                self.check(round, i + 1, &mut remarks)
            },
            _ => {
                round.phase = OutsidePhase::Over;
                OutsideAction::Done
            },
        };
        (remarks, action)
    }
}

proof fn lemma_order_index(orders: Seq<GuardOrder>, id: Seq<char>)
    ensures
        order_index(orders, id) is Some ==> {
            let at = order_index(orders, id)->0;
            0 <= at < orders.len() && orders[at].order_id@ == id
        },
    decreases orders.len(),
{
    if orders.len() > 0 {
        lemma_order_index(orders.drop_last(), id);
    }
}

/// What a check of the candidates stops at, and what it changes on the way.
proof fn lemma_checked_from(
    flight: Preflight,
    candidates: Seq<(GuardOrder, Breach)>,
    i: int,
    current: Seq<GuardOrder>,
    tickers: Seq<Ticker>,
    now_us: u64,
    wait_us: u64,
    id: Seq<char>,
)
    requires
        0 <= i,
        flight.due is None,
    ensures
        ({
            let r = checked_from(flight, candidates, i, current, tickers, now_us, wait_us);
            &&& match r.due {
                Some((k, at)) => {
                    &&& i <= k < candidates.len()
                    &&& order_index(current, candidates[k].0.order_id@) == Some(at)
                    &&& last_of(tickers, current[at].inst@, now_us) is Some
                    &&& still_due(
                        r.orders,
                        candidates[k],
                        current[at],
                        last_of(tickers, current[at].inst@, now_us)->0,
                        now_us,
                        wait_us,
                    )
                },
                None => true,
            }
            &&& flight.changed ==> r.changed
            &&& !r.changed ==> r.orders == flight.orders
            &&& (forall|k: int|
                i <= k < candidates.len() ==> (#[trigger] candidates[k]).0.order_id@ != id)
                ==> lookup(r.orders, id) == lookup(flight.orders, id)
            &&& lookup(r.orders, id) == lookup(flight.orders, id) || lookup(r.orders, id) is None
        }),
    decreases candidates.len() - i,
{
    if i < candidates.len() {
        let own = candidates[i].0.order_id@;
        lemma_order_index(current, own);
        match order_index(current, own) {
            None => {
                let next = Preflight {
                    orders: flight.orders.remove(own),
                    changed: flight.changed || flight.orders.contains_key(own),
                    remarks: flight.remarks,
                    due: None,
                };
                lemma_checked_from(next, candidates, i + 1, current, tickers, now_us, wait_us, id);
                if !flight.orders.contains_key(own) {
                    assert(flight.orders.remove(own) =~= flight.orders);
                }
            },
            Some(at) => {
                let order = current[at];
                let last = last_of(tickers, order.inst@, now_us);
                if last is None {
                    let next = dropped(flight, order, "preflight_last_price_unavailable"@);
                    lemma_checked_from(
                        next,
                        candidates,
                        i + 1,
                        current,
                        tickers,
                        now_us,
                        wait_us,
                        id,
                    );
                } else if !still_due(
                    flight.orders,
                    candidates[i],
                    order,
                    last->0,
                    now_us,
                    wait_us,
                ) {
                    let next = dropped(flight, order, "preflight_condition_changed"@);
                    lemma_checked_from(
                        next,
                        candidates,
                        i + 1,
                        current,
                        tickers,
                        now_us,
                        wait_us,
                        id,
                    );
                }
            },
        }
    }
}

/// An order is cancelled only after it was read again: it is a candidate that is still open
/// and unchanged, a fresh price lies beyond the same exit of its bracket, and its record
/// spans the waiting time.
pub proof fn law_cancels_only_after_revalidation(
    before: OkxOutsideRangeCancel,
    after: OkxOutsideRangeCancel,
    round_before: OutsideRound,
    event: OutsideEvent,
    round: OutsideRound,
    remarks: Seq<Seq<char>>,
    action: OutsideAction,
)
    requires
        round_before.well_formed(),
        after.stepped(before, round_before, event, round, remarks, action),
        action is Cancel,
    ensures
        match round.phase {
            OutsidePhase::Cancelling { i, at } => {
                let candidate = round.candidates@[i as int];
                let order = round.orders@[at as int];
                let last = last_of(round.tickers@, order.inst@, round.now_us);
                &&& i < round.candidates@.len()
                &&& at < round.orders@.len()
                &&& order.order_id@ == candidate.0.order_id@
                &&& last is Some
                &&& still_due(
                    after.tracker.orders@,
                    candidate,
                    order,
                    last->0,
                    round.now_us,
                    before.wait_us,
                )
                &&& action->exchange@ == "okx"@
                &&& action->inst == order.inst
                &&& action->Cancel_order_id == order.order_id
            },
            _ => false,
        },
{
    let records = before.tracker.orders@;
    let none = Seq::<Seq<char>>::empty();
    let (start, changed, first, input, from) = match (round_before.phase, event) {
        (OutsidePhase::Repricing, OutsideEvent::Prices { tickers, now_us }) => (
            records,
            false,
            none,
            OutsideRound { tickers, now_us, ..round_before },
            0int,
        ),
        (OutsidePhase::Confirming { i, at }, OutsideEvent::Confirmed { row }) => {
            let order = round_before.orders@[at as int];
            let over = is_terminal(row);
            (
                if over {
                    records.remove(order.order_id@)
                } else {
                    records
                },
                round_before.changed || (over && records.contains_key(order.order_id@)),
                seq![confirmation_remark(order, row)],
                round_before,
                i + 1,
            )
        },
        (OutsidePhase::Cancelling { i, .. }, _) | (OutsidePhase::Confirming { i, .. }, _) => (
            records,
            round_before.changed,
            none,
            round_before,
            i + 1,
        ),
        _ => (records, false, none, round_before, 0int),
    };
    assert(after.checked(
        before,
        start,
        changed,
        first,
        input,
        from,
        round,
        remarks,
        action,
    ));
    let flight = Preflight { orders: start, changed, remarks: first, due: None };
    lemma_checked_from(
        flight,
        input.candidates@,
        from,
        input.orders@,
        input.tickers@,
        input.now_us,
        before.wait_us,
        Seq::empty(),
    );
    let r = checked_from(
        flight,
        input.candidates@,
        from,
        input.orders@,
        input.tickers@,
        input.now_us,
        before.wait_us,
    );
    match r.due {
        Some((k, at)) => {
            lemma_order_index(input.orders@, input.candidates@[k].0.order_id@);
            assert(k <= usize::MAX && at <= usize::MAX) by {
                assert(input.candidates.len() == input.candidates@.len());
                assert(input.orders.len() == input.orders@.len());
            }
        },
        None => {},
    }
}

/// One look at an order adds one entry to its history: a sighting where the price is beyond
/// its bracket, a break where it is inside or not to be had.
pub proof fn law_watching_extends_the_history(
    watch: Watch,
    order: GuardOrder,
    last: Option<Quote>,
    now_us: u64,
    max_gap_us: u64,
    wait_us: u64,
    history: Seq<Option<Sighting>>,
)
    requires
        lookup(watch.orders, order.order_id@) == record_after(history, max_gap_us),
    ensures
        lookup(
            watched(watch, order, last, now_us, max_gap_us, wait_us).orders,
            order.order_id@,
        ) == record_after(history.push(history_entry(order, last, now_us)), max_gap_us),
{
    assert(history.push(history_entry(order, last, now_us)).drop_last() =~= history);
}

/// Looking at one order leaves the records of all others alone.
pub proof fn law_watching_leaves_other_orders_alone(
    watch: Watch,
    order: GuardOrder,
    last: Option<Quote>,
    now_us: u64,
    max_gap_us: u64,
    wait_us: u64,
    id: Seq<char>,
)
    requires
        id != order.order_id@,
    ensures
        lookup(watched(watch, order, last, now_us, max_gap_us, wait_us).orders, id) == lookup(
            watch.orders,
            id,
        ),
{
}

/// What one look at an order adds to its history.
pub open spec fn history_entry(order: GuardOrder, last: Option<Quote>, now_us: u64) -> Option<
    Sighting,
> {
    match last {
        Some(last) => match breach_of(order, last.value) {
            Some(side) => Some(Sighting { fingerprint: order.fingerprint, breach: side, now_us }),
            None => None,
        },
        None => None,
    }
}

/// Whether order `i` is the only one with its id.
pub open spec fn occurs_once(orders: Seq<GuardOrder>, i: int) -> bool {
    &&& 0 <= i < orders.len()
    &&& forall|j: int|
        0 <= j < orders.len() && j != i ==> (#[trigger] orders[j]).order_id@ != orders[i].order_id@
}

proof fn lemma_round_spares_absent_orders(
    start: Map<Seq<char>, Observation>,
    orders: Seq<GuardOrder>,
    tickers: Seq<Ticker>,
    now_us: u64,
    max_gap_us: u64,
    wait_us: u64,
    id: Seq<char>,
)
    requires
        !has_order(orders, id),
    ensures
        lookup(
            watched_all(start, orders, tickers, now_us, max_gap_us, wait_us).orders,
            id,
        ) == lookup(start, id),
    decreases orders.len(),
{
    if orders.len() > 0 {
        let rest = orders.drop_last();
        assert(orders[orders.len() - 1].order_id@ != id);
        assert forall|j: int| 0 <= j < rest.len() implies (#[trigger] rest[j]).order_id@ != id by {
            assert(orders[j].order_id@ != id);
        }
        lemma_round_spares_absent_orders(
            start,
            rest,
            tickers,
            now_us,
            max_gap_us,
            wait_us,
            id,
        );
        law_watching_leaves_other_orders_alone(
            watched_all(start, rest, tickers, now_us, max_gap_us, wait_us),
            orders.last(),
            last_of(tickers, orders.last().inst@, now_us),
            now_us,
            max_gap_us,
            wait_us,
            id,
        );
    }
}

/// A round adds one entry to the history of each open order whose id occurs once: a record that
/// is that of a history before the round is that of the history with the entry after it.
/// Records under other ids than those of the open orders stay as they are.
pub proof fn law_round_extends_the_history(
    start: Map<Seq<char>, Observation>,
    orders: Seq<GuardOrder>,
    tickers: Seq<Ticker>,
    now_us: u64,
    max_gap_us: u64,
    wait_us: u64,
    i: int,
    history: Seq<Option<Sighting>>,
)
    requires
        occurs_once(orders, i),
        lookup(start, orders[i].order_id@) == record_after(history, max_gap_us),
    ensures
        ({
            let order = orders[i];
            let entry = history_entry(order, last_of(tickers, order.inst@, now_us), now_us);
            let after = watched_all(start, orders, tickers, now_us, max_gap_us, wait_us).orders;
            &&& lookup(after, order.order_id@) == record_after(history.push(entry), max_gap_us)
            &&& forall|id: Seq<char>|
                !has_order(orders, id) ==> #[trigger] lookup(after, id) == lookup(start, id)
        }),
    decreases orders.len(),
{
    let rest = orders.drop_last();
    let last = orders.len() - 1;
    let id = orders[i].order_id@;
    let earlier = watched_all(start, rest, tickers, now_us, max_gap_us, wait_us);
    let price = last_of(tickers, orders[last].inst@, now_us);
    if i == last {
        assert forall|j: int| 0 <= j < rest.len() implies (#[trigger] rest[j]).order_id@ != id by {
            assert(orders[j].order_id@ != id);
        }
        lemma_round_spares_absent_orders(
            start,
            rest,
            tickers,
            now_us,
            max_gap_us,
            wait_us,
            id,
        );
        law_watching_extends_the_history(
            earlier,
            orders[last],
            price,
            now_us,
            max_gap_us,
            wait_us,
            history,
        );
    } else {
        assert forall|j: int| 0 <= j < rest.len() && j != i implies (#[trigger] rest[j]).order_id@
            != rest[i].order_id@ by {
            assert(orders[j].order_id@ != id);
        }
        law_round_extends_the_history(
            start,
            rest,
            tickers,
            now_us,
            max_gap_us,
            wait_us,
            i,
            history,
        );
        assert(orders[last].order_id@ != id);
        law_watching_leaves_other_orders_alone(
            earlier,
            orders[last],
            price,
            now_us,
            max_gap_us,
            wait_us,
            id,
        );
    }
    let after = watched_all(start, orders, tickers, now_us, max_gap_us, wait_us).orders;
    assert forall|other: Seq<char>| !has_order(orders, other) implies #[trigger] lookup(
        after,
        other,
    ) == lookup(start, other) by {
        lemma_round_spares_absent_orders(
            start,
            orders,
            tickers,
            now_us,
            max_gap_us,
            wait_us,
            other,
        );
    }
}

/// The first read of a round keeps the record of every order that is still open, so that its
/// history goes on, and drops those of all others.
pub proof fn law_scan_keeps_open_orders(
    before: OkxOutsideRangeCancel,
    after: OkxOutsideRangeCancel,
    round_before: OutsideRound,
    orders: Vec<GuardOrder>,
    round: OutsideRound,
    remarks: Seq<Seq<char>>,
    action: OutsideAction,
    id: Seq<char>,
)
    requires
        round_before.phase is Scanning,
        after.stepped(
            before,
            round_before,
            OutsideEvent::Orders { orders },
            round,
            remarks,
            action,
        ),
    ensures
        lookup(after.tracker.orders@, id) == if exists|i: int|
            0 <= i < orders@.len() && (#[trigger] orders@[i]).order_id@ == id {
            lookup(before.tracker.orders@, id)
        } else {
            None
        },
{
}

/// An order is cancelled only after the price has stayed beyond one exit of its unchanged
/// bracket for the whole waiting time: the sightings behind its record span that time without
/// a break, and the price is still there.
pub proof fn law_cancels_only_after_continuous_breach(
    before: OkxOutsideRangeCancel,
    after: OkxOutsideRangeCancel,
    round_before: OutsideRound,
    event: OutsideEvent,
    round: OutsideRound,
    remarks: Seq<Seq<char>>,
    action: OutsideAction,
    history: Seq<Option<Sighting>>,
)
    requires
        round_before.well_formed(),
        after.stepped(before, round_before, event, round, remarks, action),
        action is Cancel,
        before.wait_us > 0,
        lookup(after.tracker.orders@, action->Cancel_order_id@) == record_after(
            history,
            before.max_gap_us,
        ),
    ensures
        match round.phase {
            OutsidePhase::Cancelling { i, at } => {
                let order = round.orders@[at as int];
                let last = last_of(round.tickers@, order.inst@, round.now_us);
                &&& order.order_id == action->Cancel_order_id
                &&& last is Some
                &&& breach_of(order, last->0.value) == Some(round.candidates@[i as int].1)
                &&& exists|from: int| #[trigger]
                    unbroken(history, from, before.max_gap_us)
                        && history[from]->0.fingerprint@ == order.fingerprint@
                        && history[from]->0.breach == round.candidates@[i as int].1
                        && history[from]->0.now_us + before.wait_us <= round.now_us
            },
            _ => false,
        },
{
    law_cancels_only_after_revalidation(
        before,
        after,
        round_before,
        event,
        round,
        remarks,
        action,
    );
    match round.phase {
        OutsidePhase::Cancelling { i, at } => {
            law_ready_only_after_continuous_wait(
                history,
                round.orders@[at as int].fingerprint@,
                round.candidates@[i as int].1,
                round.now_us,
                before.wait_us,
                before.max_gap_us,
            );
        },
        _ => {},
    }
}

/// A candidate is an open order that a fresh price has left behind on the side noted.
pub proof fn law_candidates_are_left_behind(
    start: Map<Seq<char>, Observation>,
    orders: Seq<GuardOrder>,
    tickers: Seq<Ticker>,
    now_us: u64,
    max_gap_us: u64,
    wait_us: u64,
    k: int,
)
    requires
        0 <= k < watched_all(start, orders, tickers, now_us, max_gap_us, wait_us).candidates.len(),
    ensures
        ({
            let (order, side) = watched_all(
                start,
                orders,
                tickers,
                now_us,
                max_gap_us,
                wait_us,
            ).candidates[k];
            let last = last_of(tickers, order.inst@, now_us);
            &&& orders.contains(order)
            &&& last is Some
            &&& breach_of(order, last->0.value) == Some(side)
        }),
    decreases orders.len(),
{
    if orders.len() > 0 {
        let rest = orders.drop_last();
        let earlier = watched_all(start, rest, tickers, now_us, max_gap_us, wait_us);
        assert(orders[orders.len() - 1] == orders.last());
        if k < earlier.candidates.len() {
            law_candidates_are_left_behind(
                start,
                rest,
                tickers,
                now_us,
                max_gap_us,
                wait_us,
                k,
            );
            let order = earlier.candidates[k].0;
            let j = choose|j: int| 0 <= j < rest.len() && rest[j] == order;
            assert(orders[j] == order);
        }
    }
}

/// An order whose cancellation failed, was only recorded, or is not confirmed as final stays on
/// record for the next round.
pub proof fn law_unconfirmed_order_stays_on_record(
    before: OkxOutsideRangeCancel,
    after: OkxOutsideRangeCancel,
    round_before: OutsideRound,
    event: OutsideEvent,
    round: OutsideRound,
    remarks: Seq<Seq<char>>,
    action: OutsideAction,
)
    requires
        round_before.well_formed(),
        after.stepped(before, round_before, event, round, remarks, action),
        match round_before.phase {
            OutsidePhase::Cancelling { .. } => true,
            OutsidePhase::Confirming { .. } => match event {
                OutsideEvent::Confirmed { row } => !is_terminal(row),
                _ => true,
            },
            _ => false,
        },
    ensures
        match round_before.phase {
            OutsidePhase::Cancelling { i, at } | OutsidePhase::Confirming { i, at } => {
                let id = round_before.orders@[at as int].order_id@;
                (forall|k: int|
                    i < k < round_before.candidates@.len() ==> (
                    #[trigger] round_before.candidates@[k]).0.order_id@ != id) ==> lookup(
                    after.tracker.orders@,
                    id,
                ) == lookup(before.tracker.orders@, id)
            },
            _ => false,
        },
{
    match round_before.phase {
        OutsidePhase::Cancelling { i, at } | OutsidePhase::Confirming { i, at } => {
            let first = match (round_before.phase, event) {
                (
                    OutsidePhase::Confirming { .. },
                    OutsideEvent::Confirmed { row },
                ) => seq![confirmation_remark(round_before.orders@[at as int], row)],
                _ => Seq::empty(),
            };
            lemma_checked_from(
                Preflight {
                    orders: before.tracker.orders@,
                    changed: round_before.changed,
                    remarks: first,
                    due: None,
                },
                round_before.candidates@,
                i + 1,
                round_before.orders@,
                round_before.tickers@,
                round_before.now_us,
                before.wait_us,
                round_before.orders@[at as int].order_id@,
            );
        },
        _ => {},
    }
}

/// Only a look at the prices extends a record: every other step of a round leaves the record of
/// an order as it was or drops it, so that a record is always that of the order's history since
/// it was last dropped.
pub proof fn law_only_prices_extend_records(
    before: OkxOutsideRangeCancel,
    after: OkxOutsideRangeCancel,
    round_before: OutsideRound,
    event: OutsideEvent,
    round: OutsideRound,
    remarks: Seq<Seq<char>>,
    action: OutsideAction,
    id: Seq<char>,
)
    requires
        round_before.well_formed(),
        after.stepped(before, round_before, event, round, remarks, action),
        !(round_before.phase is Pricing),
    ensures
        lookup(after.tracker.orders@, id) == lookup(before.tracker.orders@, id) || lookup(
            after.tracker.orders@,
            id,
        ) is None,
{
    let records = before.tracker.orders@;
    match (round_before.phase, event) {
        (OutsidePhase::Repricing, OutsideEvent::Prices { tickers, now_us }) => {
            lemma_checked_from(
                Preflight { orders: records, changed: false, remarks: Seq::empty(), due: None },
                round_before.candidates@,
                0,
                round_before.orders@,
                tickers@,
                now_us,
                before.wait_us,
                id,
            );
        },
        (OutsidePhase::Cancelling { i, at }, _) | (OutsidePhase::Confirming { i, at }, _) => {
            let order = round_before.orders@[at as int];
            let (start, changed, first) = match (round_before.phase, event) {
                (OutsidePhase::Confirming { .. }, OutsideEvent::Confirmed { row }) => (
                    if is_terminal(row) {
                        records.remove(order.order_id@)
                    } else {
                        records
                    },
                    round_before.changed || (is_terminal(row) && records.contains_key(
                        order.order_id@,
                    )),
                    seq![confirmation_remark(order, row)],
                ),
                _ => (records, round_before.changed, Seq::empty()),
            };
            lemma_checked_from(
                Preflight { orders: start, changed, remarks: first, due: None },
                round_before.candidates@,
                i + 1,
                round_before.orders@,
                round_before.tickers@,
                round_before.now_us,
                before.wait_us,
                id,
            );
        },
        _ => {},
    }
}

/// A record of an order that is confirmed as final is dropped, and the state is stored before
/// the round ends.
pub proof fn law_confirmed_order_is_dropped(
    before: OkxOutsideRangeCancel,
    after: OkxOutsideRangeCancel,
    round_before: OutsideRound,
    row: Option<ConfirmedOrder>,
    round: OutsideRound,
    remarks: Seq<Seq<char>>,
    action: OutsideAction,
)
    requires
        round_before.well_formed(),
        after.stepped(
            before,
            round_before,
            OutsideEvent::Confirmed { row },
            round,
            remarks,
            action,
        ),
        is_terminal(row),
        round_before.phase is Confirming,
    ensures
        match round_before.phase {
            OutsidePhase::Confirming { i, at } => {
                let id = round_before.orders@[at as int].order_id@;
                &&& (forall|k: int|
                    i < k < round_before.candidates@.len() ==> (
                    #[trigger] round_before.candidates@[k]).0.order_id@ != id) ==> lookup(
                    after.tracker.orders@,
                    id,
                ) is None
                &&& before.tracker.orders@.contains_key(id) ==> round.changed && !(action is Done)
            },
            _ => false,
        },
{
    match round_before.phase {
        OutsidePhase::Confirming { i, at } => {
            let order = round_before.orders@[at as int];
            lemma_checked_from(
                Preflight {
                    orders: before.tracker.orders@.remove(order.order_id@),
                    changed: round_before.changed || before.tracker.orders@.contains_key(
                        order.order_id@,
                    ),
                    remarks: seq![confirmation_remark(order, row)],
                    due: None,
                },
                round_before.candidates@,
                i + 1,
                round_before.orders@,
                round_before.tickers@,
                round_before.now_us,
                before.wait_us,
                order.order_id@,
            );
        },
        _ => {},
    }
}

/// No dropped record goes unstored: where the check of the candidates ends a round without
/// storing the state, it has left every record as it was.
pub proof fn law_dropped_records_are_stored(
    before: OkxOutsideRangeCancel,
    after: OkxOutsideRangeCancel,
    round_before: OutsideRound,
    event: OutsideEvent,
    round: OutsideRound,
    remarks: Seq<Seq<char>>,
    action: OutsideAction,
)
    requires
        round_before.well_formed(),
        after.stepped(before, round_before, event, round, remarks, action),
        match round_before.phase {
            OutsidePhase::Repricing => true,
            OutsidePhase::Cancelling { .. } | OutsidePhase::Confirming { .. } => true,
            _ => false,
        },
        action is Done,
    ensures
        !(round_before.phase is Repricing) ==> !round_before.changed,
        after.tracker.orders@ == before.tracker.orders@,
{
    match round_before.phase {
        OutsidePhase::Repricing => {
            if let OutsideEvent::Prices { tickers, now_us } = event {
                lemma_checked_from(
                    Preflight {
                        orders: before.tracker.orders@,
                        changed: false,
                        remarks: Seq::empty(),
                        due: None,
                    },
                    round_before.candidates@,
                    0,
                    round_before.orders@,
                    tickers@,
                    now_us,
                    before.wait_us,
                    Seq::empty(),
                );
            }
        },
        OutsidePhase::Cancelling { i, at } | OutsidePhase::Confirming { i, at } => {
            let records = before.tracker.orders@;
            let order = round_before.orders@[at as int];
            let (start, changed, first) = match (round_before.phase, event) {
                (OutsidePhase::Confirming { .. }, OutsideEvent::Confirmed { row }) => (
                    if is_terminal(row) {
                        records.remove(order.order_id@)
                    } else {
                        records
                    },
                    round_before.changed || (is_terminal(row) && records.contains_key(
                        order.order_id@,
                    )),
                    seq![confirmation_remark(order, row)],
                ),
                _ => (records, round_before.changed, Seq::empty()),
            };
            lemma_checked_from(
                Preflight { orders: start, changed, remarks: first, due: None },
                round_before.candidates@,
                i + 1,
                round_before.orders@,
                round_before.tickers@,
                round_before.now_us,
                before.wait_us,
                order.order_id@,
            );
            if !records.contains_key(order.order_id@) {
                assert(records.remove(order.order_id@) =~= records);
            }
        },
        _ => {},
    }
}

/// Whatever is reported, a valid state stays one that can be stored and read back.
pub proof fn law_state_stays_valid(
    before: OkxOutsideRangeCancel,
    after: OkxOutsideRangeCancel,
    round_before: OutsideRound,
    event: OutsideEvent,
    round: OutsideRound,
    remarks: Seq<Seq<char>>,
    action: OutsideAction,
)
    requires
        after.stepped(before, round_before, event, round, remarks, action),
        before.tracker.valid(),
    ensures
        after.tracker.valid(),
        after.wait_us == before.wait_us,
        after.max_gap_us == before.max_gap_us,
{
}

/// Once the price is back inside, or not to be had, the waiting starts over: the next sighting
/// is a first one.
pub proof fn law_waiting_starts_over(
    watch: Watch,
    order: GuardOrder,
    last: Option<Quote>,
    now_us: u64,
    later_us: u64,
    side: Breach,
    max_gap_us: u64,
    wait_us: u64,
)
    requires
        last is None || breach_of(order, last->0.value) is None,
    ensures
        ({
            let after = watched(watch, order, last, now_us, max_gap_us, wait_us);
            let existing = lookup(after.orders, order.order_id@);
            &&& existing is None
            &&& after.candidates == watch.candidates
            &&& sighted(
                existing,
                order.fingerprint,
                side,
                later_us,
                max_gap_us,
            ).outside_since_us == later_us
        }),
{
}

/// How far a round is from its end: the part it is in, and the steps left in that part.
pub open spec fn steps_left(round: OutsideRound) -> (nat, int) {
    let count = round.candidates@.len();
    match round.phase {
        OutsidePhase::Over => (0, 0),
        OutsidePhase::Closing => (1, 0),
        OutsidePhase::Cancelling { i, .. } => (2, 2 * (count - i)),
        OutsidePhase::Confirming { i, .. } => (2, 2 * (count - i) - 1),
        OutsidePhase::Repricing => (3, 0),
        OutsidePhase::Rescanning => (4, 0),
        OutsidePhase::Saving => (5, 0),
        OutsidePhase::Pricing => (6, 0),
        OutsidePhase::Scanning => (7, 0),
        OutsidePhase::Start => (8, 0),
    }
}

/// Every round ends: whatever is reported, each step brings it closer to its end, and it is
/// done exactly at its end. Each candidate is cancelled at most once in a round.
pub proof fn law_every_round_ends(
    before: OkxOutsideRangeCancel,
    after: OkxOutsideRangeCancel,
    round_before: OutsideRound,
    event: OutsideEvent,
    round: OutsideRound,
    remarks: Seq<Seq<char>>,
    action: OutsideAction,
)
    requires
        round_before.well_formed(),
        after.stepped(before, round_before, event, round, remarks, action),
    ensures
        action is Done <==> round.phase is Over,
        !(round_before.phase is Over) ==> {
            let (from, to) = (steps_left(round_before), steps_left(round));
            to.0 < from.0 || (to.0 == from.0 && 0 <= to.1 < from.1)
        },
{
    if action is Cancel {
        law_cancels_only_after_revalidation(
            before,
            after,
            round_before,
            event,
            round,
            remarks,
            action,
        );
        lemma_cancels_go_forward(before, after, round_before, event, round, remarks, action);
    }
}

/// A cancellation is always of a later candidate than the one before.
proof fn lemma_cancels_go_forward(
    before: OkxOutsideRangeCancel,
    after: OkxOutsideRangeCancel,
    round_before: OutsideRound,
    event: OutsideEvent,
    round: OutsideRound,
    remarks: Seq<Seq<char>>,
    action: OutsideAction,
)
    requires
        round_before.well_formed(),
        after.stepped(before, round_before, event, round, remarks, action),
        action is Cancel,
    ensures
        match (round_before.phase, round.phase) {
            (OutsidePhase::Cancelling { i, .. }, OutsidePhase::Cancelling { i: k, .. })
            | (OutsidePhase::Confirming { i, .. }, OutsidePhase::Cancelling { i: k, .. }) => {
                i < k < round_before.candidates@.len()
            },
            _ => true,
        },
{
    match round_before.phase {
        OutsidePhase::Cancelling { i, at } | OutsidePhase::Confirming { i, at } => {
            let records = before.tracker.orders@;
            let order = round_before.orders@[at as int];
            let (start, changed, first) = match (round_before.phase, event) {
                (OutsidePhase::Confirming { .. }, OutsideEvent::Confirmed { row }) => (
                    if is_terminal(row) {
                        records.remove(order.order_id@)
                    } else {
                        records
                    },
                    round_before.changed || (is_terminal(row) && records.contains_key(
                        order.order_id@,
                    )),
                    seq![confirmation_remark(order, row)],
                ),
                _ => (records, round_before.changed, Seq::empty()),
            };
            lemma_checked_from(
                Preflight { orders: start, changed, remarks: first, due: None },
                round_before.candidates@,
                i + 1,
                round_before.orders@,
                round_before.tickers@,
                round_before.now_us,
                before.wait_us,
                order.order_id@,
            );
            assert(round_before.candidates.len() == round_before.candidates@.len());
        },
        _ => {},
    }
}

/// The module runs at its own scheduler events alone, and only where it is enabled.
pub proof fn law_runs_only_when_due(module: OkxOutsideRangeCancel, task_id: u64)
    ensures
        !module.config.enabled ==> !module.runs_at(task_id),
        task_id != module.config.schedule_task_id ==> !module.runs_at(task_id),
        module.config.enabled ==> module.runs_at(module.config.schedule_task_id),
{
}

/// The waiting time is the configured one in microseconds, and the gap allowed between two looks is one
/// and a half times the time from schedule to schedule, rounded down to seconds, as far as they can be
/// counted; neither is zero in a sound configuration.
pub proof fn law_times_follow_from_the_configuration(
    module: OkxOutsideRangeCancel,
    config: OkxOutsideRangeCancelConfig,
)
    requires
        module.timed_by(config),
    ensures
        config.outside_seconds * 1_000_000 <= u64::MAX ==> module.wait_us == config.outside_seconds
            * 1_000_000,
        config.outside_seconds * 1_000_000 > u64::MAX ==> module.wait_us == u64::MAX,
        config.schedule_duration_sec * 1_500_000 <= u64::MAX ==> {
            let twice = 2 * module.max_gap_us;
            let thrice = 3 * config.schedule_duration_sec * 1_000_000;
            thrice - 1_000_000 <= twice <= thrice
        },
        config.problem() is None ==> module.wait_us > 0 && module.max_gap_us > 0,
{
}

/// A configuration is refused exactly when its schedule or its waiting time is zero, or when its state
/// path is blank; the module exactly when its configuration is, or when it is enabled without OKX among
/// the exchanges or with a stored state that cannot be loaded.
pub proof fn law_refusals_are_exact(
    config: OkxOutsideRangeCancelConfig,
    exchanges: Seq<Seq<char>>,
    stored: Option<(u32, Vec<(String, Observation)>)>,
)
    ensures
        config.problem() is None <==> config.schedule_duration_sec > 0 && config.outside_seconds > 0
            && !is_blank_text(config.state_path@),
        config.schedule_duration_sec == 0 || config.outside_seconds == 0 ==> config.problem() == Some(
            "OKX outside-range schedule and timeout must be positive"@,
        ),
        config.problem() is Some ==> OkxOutsideRangeCancel::refusal(config, exchanges, stored)
            == config.problem(),
        config.problem() is None && config.enabled && !exchanges.contains("okx"@)
            ==> OkxOutsideRangeCancel::refusal(config, exchanges, stored) == Some(
            "okx_outside_range_cancel requires okx in guard_executor.exchanges"@,
        ),
        OkxOutsideRangeCancel::refusal(config, exchanges, stored) is None <==> {
            &&& config.schedule_duration_sec > 0
            &&& config.outside_seconds > 0
            &&& !is_blank_text(config.state_path@)
            &&& config.enabled ==> {
                &&& exists|i: int| 0 <= i < exchanges.len() && exchanges[i] == "okx"@
                &&& stored is Some ==> can_be_loaded((stored->0).0, (stored->0).1@)
            }
        },
{
    if exists|i: int| 0 <= i < exchanges.len() && exchanges[i] == "okx"@ {
        let i = choose|i: int| 0 <= i < exchanges.len() && exchanges[i] == "okx"@;
        assert(exchanges.contains(exchanges[i]));
    }
}

/// Whether a price has left an order behind on a side: beyond its take-profit, or, where it is not, beyond
/// its stop-loss.
pub open spec fn left_behind(order: GuardOrder, price: Float64, side: Breach) -> bool {
    let (tp, sl) = (order.take_profit.value, order.stop_loss.value);
    let won = match order.direction {
        Direction::Long => tp.less(price),
        Direction::Short => price.less(tp),
    };
    let lost = match order.direction {
        Direction::Long => price.less(sl),
        Direction::Short => sl.less(price),
    };
    match side {
        Breach::TakeProfit => won,
        Breach::StopLoss => lost && !won,
    }
}

/// The watch misses nothing: an open order whose id occurs once is a candidate of the round on a side
/// exactly when a usable last price has left it behind on that side, take-profit and stop-loss alike, and
/// its record after the round reaches back at least the waiting time.
pub proof fn law_every_left_behind_order_is_a_candidate(
    start: Map<Seq<char>, Observation>,
    orders: Seq<GuardOrder>,
    tickers: Seq<Ticker>,
    now_us: u64,
    max_gap_us: u64,
    wait_us: u64,
    i: int,
    side: Breach,
)
    requires
        occurs_once(orders, i),
    ensures
        ({
            let order = orders[i];
            let watch = watched_all(start, orders, tickers, now_us, max_gap_us, wait_us);
            let last = last_of(tickers, order.inst@, now_us);
            let record = lookup(watch.orders, order.order_id@);
            &&& watch.candidates.contains((order, side)) <==> {
                &&& last is Some
                &&& left_behind(order, last->0.value, side)
                &&& record is Some
                &&& record->0.outside_since_us + wait_us <= now_us || (wait_us == 0)
            }
            &&& last is Some && left_behind(order, last->0.value, side) ==> {
                &&& record is Some
                &&& record->0.breach == side
                &&& record->0.last_seen_us == now_us
                &&& record->0.fingerprint == order.fingerprint
            }
            &&& last is None || (!left_behind(order, last->0.value, Breach::TakeProfit)
                && !left_behind(order, last->0.value, Breach::StopLoss)) ==> record is None
        }),
    decreases orders.len(),
{
    let rest = orders.drop_last();
    let end = orders.len() - 1;
    let order = orders[i];
    let pair = (order, side);
    let earlier = watched_all(start, rest, tickers, now_us, max_gap_us, wait_us);
    let watch = watched_all(start, orders, tickers, now_us, max_gap_us, wait_us);
    let price = last_of(tickers, orders[end].inst@, now_us);
    assert(watch == watched(earlier, orders[end], price, now_us, max_gap_us, wait_us));
    let added = match price {
        Some(last) => match breach_of(orders[end], last.value) {
            Some(found) => elapsed(
                now_us,
                sighted(
                    lookup(earlier.orders, orders[end].order_id@),
                    orders[end].fingerprint,
                    found,
                    now_us,
                    max_gap_us,
                ).outside_since_us,
            ) >= wait_us,
            None => false,
        },
        None => false,
    };
    if added {
        let found = breach_of(orders[end], price->0.value)->0;
        assert(watch.candidates == earlier.candidates.push((orders[end], found)));
        assert(watch.candidates[watch.candidates.len() - 1] == (orders[end], found));
    } else {
        assert(watch.candidates == earlier.candidates);
    }
    if earlier.candidates.contains(pair) {
        let k = choose|k: int| 0 <= k < earlier.candidates.len() && earlier.candidates[k] == pair;
        assert(watch.candidates[k] == pair);
    }
    if i == end {
        if earlier.candidates.contains(pair) {
            let k = choose|k: int|
                0 <= k < earlier.candidates.len() && earlier.candidates[k] == pair;
            law_candidates_are_left_behind(start, rest, tickers, now_us, max_gap_us, wait_us, k);
            let j = choose|j: int| 0 <= j < rest.len() && rest[j] == order;
            assert(orders[j].order_id@ != orders[i].order_id@);
            assert(false);
        }
        if watch.candidates.contains(pair) {
            let k = choose|k: int| 0 <= k < watch.candidates.len() && watch.candidates[k] == pair;
            if k < earlier.candidates.len() {
                assert(earlier.candidates[k] == pair);
            }
        }
    } else {
        assert forall|j: int| 0 <= j < rest.len() && j != i implies (#[trigger] rest[j]).order_id@
            != rest[i].order_id@ by {
            assert(orders[j].order_id@ != orders[i].order_id@);
        }
        law_every_left_behind_order_is_a_candidate(
            start,
            rest,
            tickers,
            now_us,
            max_gap_us,
            wait_us,
            i,
            side,
        );
        assert(orders[end].order_id@ != order.order_id@);
        law_watching_leaves_other_orders_alone(
            earlier,
            orders[end],
            price,
            now_us,
            max_gap_us,
            wait_us,
            order.order_id@,
        );
        if watch.candidates.contains(pair) {
            let k = choose|k: int| 0 <= k < watch.candidates.len() && watch.candidates[k] == pair;
            if k < earlier.candidates.len() {
                assert(earlier.candidates[k] == pair);
            }
        }
    }
}

/// The waiting time is enough: an order whose history, with this look, is an unbroken run of sightings on
/// one side that reaches back the waiting time is a candidate on that side.
pub proof fn law_waiting_time_makes_a_candidate(
    start: Map<Seq<char>, Observation>,
    orders: Seq<GuardOrder>,
    tickers: Seq<Ticker>,
    now_us: u64,
    max_gap_us: u64,
    wait_us: u64,
    i: int,
    history: Seq<Option<Sighting>>,
    from: int,
)
    requires
        occurs_once(orders, i),
        lookup(start, orders[i].order_id@) == record_after(history, max_gap_us),
        ({
            let entry = history_entry(
                orders[i],
                last_of(tickers, orders[i].inst@, now_us),
                now_us,
            );
            &&& unbroken(history.push(entry), from, max_gap_us)
            &&& history.push(entry)[from]->0.now_us + wait_us <= now_us
        }),
    ensures
        ({
            let watch = watched_all(start, orders, tickers, now_us, max_gap_us, wait_us);
            let last = last_of(tickers, orders[i].inst@, now_us);
            &&& last is Some
            &&& exists|side: Breach|
                {
                    &&& left_behind(orders[i], last->0.value, side)
                    &&& #[trigger] watch.candidates.contains((orders[i], side))
                }
        }),
{
    let last = last_of(tickers, orders[i].inst@, now_us);
    let entry = history_entry(orders[i], last, now_us);
    let longer = history.push(entry);
    law_round_extends_the_history(
        start,
        orders,
        tickers,
        now_us,
        max_gap_us,
        wait_us,
        i,
        history,
    );
    law_unbroken_time_is_recorded(longer, from, max_gap_us);
    law_recorded_time_is_unbroken(longer, max_gap_us);
    assert(longer.last() == entry);
    let side = entry->0.breach;
    law_every_left_behind_order_is_a_candidate(
        start,
        orders,
        tickers,
        now_us,
        max_gap_us,
        wait_us,
        i,
        side,
    );
    let watch = watched_all(start, orders, tickers, now_us, max_gap_us, wait_us);
    assert(watch.candidates.contains((orders[i], side)));
}

/// The second look passes a candidate exactly when the order is unchanged, the price still leaves it behind
/// on the same side, and its record, of that state and side, reaches back the waiting time.
pub proof fn law_second_look_is_exact(
    records: Map<Seq<char>, Observation>,
    candidate: (GuardOrder, Breach),
    order: GuardOrder,
    last: Quote,
    now_us: u64,
    wait_us: u64,
)
    requires
        wait_us > 0,
    ensures
        still_due(records, candidate, order, last, now_us, wait_us) <==> {
            let id = order.order_id@;
            &&& order.fingerprint@ == candidate.0.fingerprint@
            &&& left_behind(order, last.value, candidate.1)
            &&& records.contains_key(id)
            &&& records[id].fingerprint@ == order.fingerprint@
            &&& records[id].breach == candidate.1
            &&& records[id].outside_since_us + wait_us <= now_us
        },
{
}

/// Candidate `j`, and no earlier one from `i` on, has its id.
pub open spec fn first_with_its_id(
    candidates: Seq<(GuardOrder, Breach)>,
    i: int,
    j: int,
) -> bool {
    &&& i <= j < candidates.len()
    &&& forall|k: int|
        i <= k < j ==> (#[trigger] candidates[k]).0.order_id@ != candidates[j].0.order_id@
}

proof fn lemma_due_candidates_stop_the_check(
    flight: Preflight,
    candidates: Seq<(GuardOrder, Breach)>,
    i: int,
    j: int,
    current: Seq<GuardOrder>,
    tickers: Seq<Ticker>,
    now_us: u64,
    wait_us: u64,
)
    requires
        0 <= i,
        flight.due is None,
        first_with_its_id(candidates, i, j),
    ensures
        ({
            let r = checked_from(flight, candidates, i, current, tickers, now_us, wait_us);
            let id = candidates[j].0.order_id@;
            let at = order_index(current, id);
            let last = last_of(tickers, current[at->0].inst@, now_us);
            let due = at is Some && last is Some && still_due(
                flight.orders,
                candidates[j],
                current[at->0],
                last->0,
                now_us,
                wait_us,
            );
            let reached = r.due is None || (r.due->0).0 > j;
            &&& due ==> r.due is Some && (r.due->0).0 <= j
            &&& reached ==> lookup(r.orders, id) is None
        }),
    decreases candidates.len() - i,
{
    let own = candidates[i].0.order_id@;
    let id = candidates[j].0.order_id@;
    lemma_order_index(current, own);
    let found = order_index(current, own);
    let next = if found is None {
        Preflight {
            orders: flight.orders.remove(own),
            changed: flight.changed || flight.orders.contains_key(own),
            remarks: flight.remarks,
            due: None,
        }
    } else if last_of(tickers, current[found->0].inst@, now_us) is None {
        dropped(flight, current[found->0], "preflight_last_price_unavailable"@)
    } else {
        dropped(flight, current[found->0], "preflight_condition_changed"@)
    };
    if i == j {
        lemma_checked_from(next, candidates, i + 1, current, tickers, now_us, wait_us, id);
    } else {
        assert(own != id);
        assert(first_with_its_id(candidates, i + 1, j));
        lemma_order_index(current, id);
        lemma_due_candidates_stop_the_check(
            next,
            candidates,
            i + 1,
            j,
            current,
            tickers,
            now_us,
            wait_us,
        );
    }
}

/// Every candidate that passes the second look is cancelled: when the prices are in, the first of them is at
/// once, and after each cancellation the next. A candidate that is passed over is taken off the record.
pub proof fn law_due_candidates_are_cancelled(
    before: OkxOutsideRangeCancel,
    after: OkxOutsideRangeCancel,
    round_before: OutsideRound,
    event: OutsideEvent,
    round: OutsideRound,
    remarks: Seq<Seq<char>>,
    action: OutsideAction,
    j: int,
)
    requires
        round_before.well_formed(),
        after.stepped(before, round_before, event, round, remarks, action),
        match (round_before.phase, event) {
            (OutsidePhase::Repricing, OutsideEvent::Prices { .. }) => first_with_its_id(
                round_before.candidates@,
                0,
                j,
            ),
            (OutsidePhase::Cancelling { i, at }, event) => !(event is Cancelled)
                && first_with_its_id(round_before.candidates@, i + 1, j),
            (OutsidePhase::Confirming { i, at }, _) => first_with_its_id(
                round_before.candidates@,
                i + 1,
                j,
            ) && round_before.orders@[at as int].order_id@
                != round_before.candidates@[j].0.order_id@,
            _ => false,
        },
    ensures
        ({
            let id = round_before.candidates@[j].0.order_id@;
            let at = order_index(round.orders@, id);
            let order = round.orders@[at->0];
            let last = last_of(round.tickers@, order.inst@, round.now_us);
            &&& at is Some && last is Some && still_due(
                before.tracker.orders@,
                round_before.candidates@[j],
                order,
                last->0,
                round.now_us,
                before.wait_us,
            ) ==> action is Cancel && match round.phase {
                OutsidePhase::Cancelling { i, .. } => i <= j,
                _ => false,
            }
            &&& !(action is Cancel) ==> lookup(after.tracker.orders@, id) is None
        }),
{
    let records = before.tracker.orders@;
    let (start, changed, first, from) = match (round_before.phase, event) {
        (OutsidePhase::Confirming { i, at }, OutsideEvent::Confirmed { row }) => {
            let order = round_before.orders@[at as int];
            (
                if is_terminal(row) {
                    records.remove(order.order_id@)
                } else {
                    records
                },
                round_before.changed || (is_terminal(row) && records.contains_key(order.order_id@)),
                seq![confirmation_remark(order, row)],
                i + 1,
            )
        },
        (OutsidePhase::Cancelling { i, .. }, _) | (OutsidePhase::Confirming { i, .. }, _) => (
            records,
            round_before.changed,
            Seq::empty(),
            i + 1,
        ),
        _ => (records, false, Seq::empty(), 0int),
    };
    lemma_order_index(round_before.orders@, round_before.candidates@[j].0.order_id@);
    let flight = Preflight { orders: start, changed, remarks: first, due: None };
    lemma_due_candidates_stop_the_check(
        flight,
        round_before.candidates@,
        from,
        j,
        round_before.orders@,
        round.tickers@,
        round.now_us,
        before.wait_us,
    );
    lemma_checked_from(
        flight,
        round_before.candidates@,
        from,
        round_before.orders@,
        round.tickers@,
        round.now_us,
        before.wait_us,
        Seq::empty(),
    );
    assert(round_before.candidates.len() == round_before.candidates@.len());
}

/// An order that is cancelled is looked up once: by its venue instrument and its id where the cancellation
/// was sent, and not where it was only recorded.
pub proof fn law_sent_cancellations_are_looked_up(
    before: OkxOutsideRangeCancel,
    after: OkxOutsideRangeCancel,
    round_before: OutsideRound,
    event: OutsideEvent,
    round: OutsideRound,
    remarks: Seq<Seq<char>>,
    action: OutsideAction,
)
    requires
        round_before.well_formed(),
        after.stepped(before, round_before, event, round, remarks, action),
    ensures
        action is Confirm <==> match (round_before.phase, event) {
            (OutsidePhase::Cancelling { .. }, OutsideEvent::Cancelled { dry_run }) => !dry_run,
            _ => false,
        },
        action is Confirm ==> match round_before.phase {
            OutsidePhase::Cancelling { i, at } => {
                &&& action->venue_inst == round_before.orders@[at as int].venue_inst
                &&& action->Confirm_order_id == round_before.orders@[at as int].order_id
                &&& round.phase == (OutsidePhase::Confirming { i, at })
            },
            _ => false,
        },
{
}

/// A cancelled order is final exactly when it is reported as canceled, canceled by market-maker protection,
/// or filled; without a report it is not.
pub proof fn law_final_states(state: String, filled: Option<Quote>)
    ensures
        is_terminal(Some(ConfirmedOrder { state, filled })) <==> state@ == "canceled"@ || state@
            == "mmp_canceled"@ || state@ == "filled"@,
        !is_terminal(None),
{
}

/// A round reads the orders, then their prices, stores the state, and where there are candidates reads both
/// again; the prices asked for are those of every open order first, and of every candidate that is still
/// open the second time.
pub proof fn law_round_follows_its_course(
    before: OkxOutsideRangeCancel,
    after: OkxOutsideRangeCancel,
    round_before: OutsideRound,
    event: OutsideEvent,
    round: OutsideRound,
    remarks: Seq<Seq<char>>,
    action: OutsideAction,
    j: int,
)
    requires
        round_before.well_formed(),
        after.stepped(before, round_before, event, round, remarks, action),
    ensures
        match (round_before.phase, event) {
            (OutsidePhase::Start, _) => action is FetchOrders && round.phase
                == OutsidePhase::Scanning,
            (OutsidePhase::Scanning, OutsideEvent::Orders { orders }) => {
                &&& action is FetchPrices
                &&& round.phase == OutsidePhase::Pricing
                &&& round.orders == orders
                &&& 0 <= j < orders@.len() ==> asked_for(action, orders@[j])
            },
            (OutsidePhase::Pricing, OutsideEvent::Prices { tickers, now_us }) => {
                &&& action is Save
                &&& round.phase == OutsidePhase::Saving
                &&& round.now_us == now_us
                &&& round.tickers == tickers
            },
            (OutsidePhase::Saving, OutsideEvent::Saved) => {
                &&& action is FetchOrders <==> round_before.candidates@.len() > 0
                &&& action is Done <==> round_before.candidates@.len() == 0
                &&& round.candidates == round_before.candidates
            },
            (OutsidePhase::Rescanning, OutsideEvent::Orders { orders }) => {
                &&& action is FetchPrices
                &&& round.orders == orders
                &&& round.candidates == round_before.candidates
                &&& 0 <= j < round_before.candidates@.len() ==> {
                    let at = order_index(orders@, round_before.candidates@[j].0.order_id@);
                    at is Some ==> asked_for(action, orders@[at->0])
                }
            },
            _ => !(action is FetchOrders) && !(action is FetchPrices),
        },
{
    match (round_before.phase, event) {
        (OutsidePhase::Scanning, OutsideEvent::Orders { orders }) => {
            if 0 <= j < orders@.len() {
                lemma_asked_for(action, orders@, j);
            }
        },
        (OutsidePhase::Rescanning, OutsideEvent::Orders { orders }) => {
            let candidates = round_before.candidates@;
            if 0 <= j < candidates.len() {
                let at = order_index(orders@, candidates[j].0.order_id@);
                if at is Some {
                    lemma_found_again(candidates, orders@, j);
                    let found = found_again(candidates, orders@);
                    let k = choose|k: int| 0 <= k < found.len() && found[k] == orders@[at->0];
                    lemma_asked_for(action, found, k);
                }
            }
        },
        _ => {},
    }
}

/// Whether an action asks for the price of an order's instrument, under its kind.
pub open spec fn asked_for(action: OutsideAction, order: GuardOrder) -> bool {
    match action {
        OutsideAction::FetchPrices { swaps, futures } => {
            &&& order.inst_type == InstrumentType::Perpetual ==> exists|k: int|
                0 <= k < swaps@.len() && #[trigger] swaps@[k]@ == order.inst@
            &&& order.inst_type == InstrumentType::Futures ==> exists|k: int|
                0 <= k < futures@.len() && #[trigger] futures@[k]@ == order.inst@
        },
        _ => false,
    }
}

proof fn lemma_asked_for(action: OutsideAction, orders: Seq<GuardOrder>, i: int)
    requires
        asks_prices(action, orders),
        0 <= i < orders.len(),
    ensures
        asked_for(action, orders[i]),
{
    match action {
        OutsideAction::FetchPrices { swaps, futures } => {
            law_every_instrument_is_asked_for(orders, InstrumentType::Perpetual, swaps@, 0);
            law_every_instrument_is_asked_for(orders, InstrumentType::Futures, futures@, 0);
        },
        _ => {},
    }
}

proof fn lemma_found_again(
    candidates: Seq<(GuardOrder, Breach)>,
    current: Seq<GuardOrder>,
    j: int,
)
    requires
        0 <= j < candidates.len(),
        order_index(current, candidates[j].0.order_id@) is Some,
    ensures
        found_again(candidates, current).contains(
            current[order_index(current, candidates[j].0.order_id@)->0],
        ),
    decreases candidates.len(),
{
    let order = current[order_index(current, candidates[j].0.order_id@)->0];
    let rest = candidates.drop_last();
    let all = found_again(candidates, current);
    if j == candidates.len() - 1 {
        assert(all[all.len() - 1] == order);
    } else {
        assert(rest[j] == candidates[j]);
        lemma_found_again(rest, current, j);
        let front = found_again(rest, current);
        let k = choose|k: int| 0 <= k < front.len() && front[k] == order;
        assert(all[k] == order);
    }
}

/// The order read again for a candidate is the last one reported with its id, and there is none only where no
/// order with the id was reported.
pub proof fn law_candidates_are_found_by_id(orders: Seq<GuardOrder>, id: Seq<char>)
    ensures
        match order_index(orders, id) {
            Some(at) => {
                &&& 0 <= at < orders.len()
                &&& orders[at].order_id@ == id
                &&& forall|k: int| at < k < orders.len() ==> (#[trigger] orders[k]).order_id@ != id
            },
            None => forall|k: int|
                0 <= k < orders.len() ==> (#[trigger] orders[k]).order_id@ != id,
        },
    decreases orders.len(),
{
    if orders.len() > 0 {
        let rest = orders.drop_last();
        let last = orders.len() - 1;
        law_candidates_are_found_by_id(rest, id);
        if orders.last().order_id@ != id {
            assert forall|k: int|
                0 <= k < orders.len() && (order_index(orders, id) is None || order_index(
                    orders,
                    id,
                )->0 < k) implies (#[trigger] orders[k]).order_id@ != id by {
                if k < last {
                    assert(rest[k] == orders[k]);
                }
            }
        }
    }
}

}
