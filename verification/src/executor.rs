//! Shared account access for guard modules: order planning under the safety limits,
//! dry-run behaviour, throttling and the action trail.
//!
//! Nothing here talks to an exchange. Each operation says what to send, and the host
//! sends it through the exchange's client.

use crate::config::{GuardConfig, RunMode};
use crate::error::GuardError;
use crate::number::{
    exact, law_absolute_values, law_comparison_is_numeric, law_constants_are_exact,
    law_exact_arithmetic, law_sign_of_finite_numbers, number, product, product_of, quotient,
    quotient_of, unit, value_of, Float64, Formula, Quote, HUNDRED,
};
use crate::ownership::{is_own_id, law_own_ids_are_recognized, own_id, owned, OrderCounter};
use crate::positions::{
    law_rows_are_read_one_by_one, law_snapshots_are_well_formed, snapshot_of, snapshots,
    snapshots_of, PositionRow, PositionSnapshot,
};
use crate::report::{ActionLog, LogEntry};
use crate::safety::{law_sane_prices_are_the_positive_numbers, sane, SafetyLimits};
use crate::table::Table;
use crate::text::{is_blank, is_blank_text, join2, join3, same_text};
use vstd::prelude::*;
use vstd::string::*;

verus! {

// ---------------------------------------------------------------------------
// Venues
// ---------------------------------------------------------------------------

/// The exchanges that the guard can talk to.
#[derive(Clone, Copy, Debug, PartialEq, Eq, Structural)]
pub enum Venue {
    Hyperliquid,
    BinanceUm,
    Okx,
    GateFutures,
}

/// The exchange that a configured name stands for.
pub open spec fn venue_of(name: Seq<char>) -> Option<Venue> {
    if name == "hyperliquid"@ {
        Some(Venue::Hyperliquid)
    } else if name == "binance_um"@ {
        Some(Venue::BinanceUm)
    } else if name == "okx"@ {
        Some(Venue::Okx)
    } else if name == "gate_futures"@ {
        Some(Venue::GateFutures)
    } else {
        None
    }
}

pub open spec fn unsupported_exchange(name: Seq<char>) -> Seq<char> {
    "unsupported exchange: "@ + name
        + " (expected hyperliquid | binance_um | okx | gate_futures)"@
}

/// Whether the name at `i` is the first that stands for no exchange.
pub open spec fn first_unsupported(names: Seq<String>, i: int) -> bool {
    &&& 0 <= i < names.len()
    &&& venue_of(names[i]@) is None
    &&& forall|j: int| 0 <= j < i ==> venue_of(#[trigger] names[j]@) is Some
}

/// The exchange whose client a configured name asks for.
pub fn lob_client_for(name: &str) -> (r: Result<Venue, GuardError>)
    ensures
        match r {
            Ok(venue) => venue_of(name@) == Some(venue),
            Err(e) => venue_of(name@) is None && e.message@ == unsupported_exchange(name@),
        },
{
    if same_text(name, "hyperliquid") {
        Ok(Venue::Hyperliquid)
    } else if same_text(name, "binance_um") {
        Ok(Venue::BinanceUm)
    } else if same_text(name, "okx") {
        Ok(Venue::Okx)
    } else if same_text(name, "gate_futures") {
        Ok(Venue::GateFutures)
    } else {
        Err(
            GuardError {
                message: join3(
                    "unsupported exchange: ",
                    name,
                    " (expected hyperliquid | binance_um | okx | gate_futures)",
                ),
            },
        )
    }
}

/// Instrument metadata used for tick and lot rounding.
#[derive(Debug)]
pub struct InstrumentInfo {
    pub inst: String,
    pub lot_size: Float64,
    pub tick_size: Float64,
    pub min_lmt_size: Float64,
    pub min_mkt_size: Float64,
}

impl Clone for InstrumentInfo {
    fn clone(&self) -> (r: Self)
        ensures
            r == *self,
    {
        InstrumentInfo {
            inst: self.inst.clone(),
            lot_size: self.lot_size,
            tick_size: self.tick_size,
            min_lmt_size: self.min_lmt_size,
            min_mkt_size: self.min_mkt_size,
        }
    }
}

/// One connected exchange.
#[derive(Debug)]
pub struct ExchangeSlot {
    pub name: String,
    pub instruments: Table<InstrumentInfo>,
}

/// Metadata by instrument; of two rows for one instrument the later counts.
pub open spec fn by_instrument(infos: Seq<InstrumentInfo>) -> Map<Seq<char>, InstrumentInfo>
    decreases infos.len(),
{
    if infos.len() == 0 {
        Map::empty()
    } else {
        by_instrument(infos.drop_last()).insert(infos.last().inst@, infos.last())
    }
}

impl ExchangeSlot {
    pub fn new(name: &String, infos: &Vec<InstrumentInfo>) -> (r: Self)
        ensures
            r.name == *name,
            r.instruments@ == by_instrument(infos@),
    {
        let mut instruments: Table<InstrumentInfo> = Table::new();
        let mut i: usize = 0;
        while i < infos.len()
            invariant
                i <= infos@.len(),
                instruments@ == by_instrument(infos@.take(i as int)),
            decreases infos@.len() - i,
        {
            proof {
                assert(infos@.take(i + 1).drop_last() =~= infos@.take(i as int));
            }
            instruments.insert(infos[i].inst.clone(), infos[i].clone());
            i += 1;
        }
        assert(infos@.take(infos@.len() as int) =~= infos@);
        ExchangeSlot { name: name.clone(), instruments }
    }
}

// ---------------------------------------------------------------------------
// Orders
// ---------------------------------------------------------------------------

#[derive(Clone, Copy, Debug, PartialEq, Eq, Structural)]
pub enum OrderSide {
    BUY,
    SELL,
}

#[derive(Clone, Copy, Debug, PartialEq, Eq, Structural)]
pub enum OrderType {
    Market,
    Limit,
}

#[derive(Clone, Copy, Debug, PartialEq, Eq, Structural)]
pub enum TimeInForce {
    GTC,
}

/// An open order, as far as the guard reads it.
#[derive(Debug)]
pub struct OrderRow {
    pub cli_order_id: Option<String>,
    pub price: Float64,
    pub size: Float64,
    pub executed_size: Float64,
}

impl Clone for OrderRow {
    fn clone(&self) -> (r: Self)
        ensures
            r == *self,
    {
        OrderRow {
            cli_order_id: match &self.cli_order_id {
                Some(id) => Some(id.clone()),
                None => None,
            },
            price: self.price,
            size: self.size,
            executed_size: self.executed_size,
        }
    }
}

/// An order to place.
#[derive(Debug)]
pub struct OrderRequest {
    pub inst: String,
    pub side: OrderSide,
    pub size: String,
    pub order_type: OrderType,
    pub price: Option<String>,
    pub reduce_only: bool,
    pub time_in_force: Option<TimeInForce>,
    pub client_order_id: String,
}

/// An order to cancel, by either id.
#[derive(Debug)]
pub struct CancelRequest {
    pub inst: String,
    pub order_id: Option<String>,
    pub cli_order_id: Option<String>,
}

/// An order size rounded to the lot, the number that it reads as, and what the order's
/// value ([`tp_value`], [`close_value`]) comes to, printed with two decimals.
#[derive(Debug)]
pub struct RoundedSize {
    pub size: String,
    pub size_num: Float64,
    pub notional: Quote,
}

/// What becomes of an order that the guard wants placed.
#[derive(Debug)]
pub enum Placement {
    /// The size is below the venue minimum; nothing is placed.
    BelowMinimum,
    /// Dry-run: the intended order is recorded and not sent.
    DryRun { entry: LogEntry },
    /// The order is sent after `wait` nanoseconds; `action` names it in the trail.
    Send { request: OrderRequest, action: String, wait: u128 },
}

/// What becomes of an order that the guard wants cancelled.
#[derive(Debug)]
pub enum Cancellation {
    /// Dry-run: the intended cancellation is recorded and not sent.
    DryRun { entry: LogEntry },
    /// The cancellation is sent after `wait` nanoseconds; `action` names it in the trail.
    Send { request: CancelRequest, action: String, wait: u128 },
}

/// What to round for a take-profit order: the size to the lot, the price to the tick.
#[derive(Debug)]
pub struct TpRounding {
    pub size: Float64,
    pub lot_size: Float64,
    pub price: Float64,
    pub tick_size: Float64,
}

/// What to round for a closing order: the size to the lot.
#[derive(Debug)]
pub struct CloseRounding {
    pub size: Formula,
    pub lot_size: Float64,
}

pub open spec fn side_name(side: OrderSide) -> Seq<char> {
    match side {
        OrderSide::BUY => "BUY"@,
        OrderSide::SELL => "SELL"@,
    }
}

fn side_text(side: OrderSide) -> (r: &'static str)
    ensures
        r@ == side_name(side),
{
    match side {
        OrderSide::BUY => "BUY",
        OrderSide::SELL => "SELL",
    }
}

/// The side that reduces a position.
pub open spec fn closing_side(position: PositionSnapshot) -> OrderSide {
    if position.long() {
        OrderSide::SELL
    } else {
        OrderSide::BUY
    }
}

fn closing_side_of(position: &PositionSnapshot) -> (r: OrderSide)
    ensures
        r == closing_side(*position),
{
    if position.is_long() {
        OrderSide::SELL
    } else {
        OrderSide::BUY
    }
}

/// The text under which a take-profit order goes into the trail.
pub open spec fn tp_action(
    position: PositionSnapshot,
    size: Seq<char>,
    price: Seq<char>,
    cli_order_id: Seq<char>,
) -> Seq<char> {
    "tp_limit "@ + position.exchange@ + " "@ + position.inst@ + " "@ + side_name(
        closing_side(position),
    ) + " "@ + size + " @ "@ + price + " cli_id="@ + cli_order_id
}

/// The text under which a closing order goes into the trail.
pub open spec fn close_action(
    position: PositionSnapshot,
    pct: Seq<char>,
    size: Seq<char>,
    cli_order_id: Seq<char>,
) -> Seq<char> {
    "close "@ + pct + "% "@ + position.exchange@ + " "@ + position.inst@ + " "@ + side_name(
        closing_side(position),
    ) + " "@ + size + " cli_id="@ + cli_order_id
}

/// The text under which a cancellation goes into the trail.
pub open spec fn cancel_action(
    exchange: Seq<char>,
    inst: Seq<char>,
    order_id: Option<Seq<char>>,
    cli_order_id: Option<Seq<char>>,
) -> Seq<char> {
    "cancel "@ + exchange + " "@ + inst + " order_id="@ + id_or_empty(order_id) + " cli_id="@
        + id_or_empty(cli_order_id)
}

pub open spec fn id_or_empty(id: Option<Seq<char>>) -> Seq<char> {
    match id {
        Some(id) => id,
        None => Seq::empty(),
    }
}

/// The characters of an id.
pub open spec fn id_view(id: Option<String>) -> Option<Seq<char>> {
    match id {
        Some(id) => Some(id@),
        None => None,
    }
}

/// An id, none where it is missing or blank.
pub open spec fn usable_id(id: Option<&str>) -> Option<Seq<char>> {
    match id {
        Some(text) => if is_blank_text(text@) {
            None
        } else {
            Some(text@)
        },
        None => None,
    }
}

fn non_blank(id: Option<&str>) -> (r: Option<String>)
    ensures
        match r {
            Some(text) => usable_id(id) == Some(text@),
            None => usable_id(id) is None,
        },
{
    match id {
        Some(text) => if is_blank(text) {
            None
        } else {
            Some(text.to_owned())
        },
        None => None,
    }
}

/// The line that records what an exchange answered to an action.
pub open spec fn ack_text(action: Seq<char>, order_id: Seq<char>, status: Seq<char>) -> Seq<char> {
    action + " -> ack order_id="@ + order_id + " status="@ + status
}

/// The error of an action that an exchange refused.
pub open spec fn failed_text(action: Seq<char>, error: Seq<char>) -> Seq<char> {
    action + ": "@ + error
}

/// Whether a percentage closes anything: above 0, at most 100.
pub open spec fn closes(pct: Float64) -> bool {
    (Float64 { bits: 0 }).less(pct) && pct.at_most(number(HUNDRED))
}

/// Whether a rounded size falls below a venue minimum.
pub open spec fn below_minimum(size_num: Float64, minimum: Float64) -> bool {
    size_num.at_most(Float64 { bits: 0 }) || size_num.less(minimum)
}

/// The value of an order of a size at a price.
pub open spec fn value_at(size_num: Float64, price: Float64) -> Formula {
    product_of(value_of(size_num), value_of(price))
}

/// The value of a take-profit order: its rounded size at its limit price.
pub fn tp_value(price: &Quote, size_num: Float64) -> (r: Formula)
    ensures
        r == product_of(value_of(size_num), value_of(price.value)),
        r == value_at(size_num, price.value),
{
    product(Formula::Value(size_num), Formula::Value(price.value))
}

/// The value of a closing order: its rounded size at the position's mark price.
pub fn close_value(position: &PositionSnapshot, size_num: Float64) -> (r: Formula)
    ensures
        r == product_of(value_of(size_num), value_of(position.mark_price)),
        r == value_at(size_num, position.mark_price),
{
    product(Formula::Value(size_num), Formula::Value(position.mark_price))
}

/// The numbers to round for a take-profit order on a position.
pub open spec fn tp_numbers(
    position: PositionSnapshot,
    price: Float64,
    info: InstrumentInfo,
) -> TpRounding {
    TpRounding {
        size: position.size.absolute(),
        lot_size: info.lot_size,
        price,
        tick_size: info.tick_size,
    }
}

/// The numbers to round for an order that closes `pct` percent of a position.
pub open spec fn close_numbers(
    position: PositionSnapshot,
    pct: Float64,
    info: InstrumentInfo,
) -> CloseRounding {
    CloseRounding {
        size: quotient_of(
            product_of(value_of(position.size.absolute()), value_of(pct)),
            value_of(number(HUNDRED)),
        ),
        lot_size: info.lot_size,
    }
}

// ---------------------------------------------------------------------------
// The executor
// ---------------------------------------------------------------------------

/// Shared exchange access for guard modules.
///
/// The executor centralizes dry-run behaviour, action throttling, instrument
/// metadata, and the action trail. Individual modules define which account actions
/// are eligible for their policy.
#[derive(Debug)]
pub struct GuardExecutor {
    pub slots: Vec<ExchangeSlot>,
    pub limits: SafetyLimits,
    pub dry_run: bool,
    pub log: ActionLog,
    /// When the latest action of each exchange was due, in nanoseconds.
    pub last_action: Table<u128>,
}

/// Whether slot `i` is the one for `exchange`.
pub open spec fn slot_at(slots: Seq<ExchangeSlot>, i: int, exchange: Seq<char>) -> bool {
    &&& 0 <= i < slots.len()
    &&& slots[i].name@ == exchange
    &&& forall|j: int| 0 <= j < i ==> #[trigger] slots[j].name@ != exchange
}

/// The slot for `exchange`.
pub open spec fn slot_index(slots: Seq<ExchangeSlot>, exchange: Seq<char>) -> Option<int> {
    if exists|i: int| slot_at(slots, i, exchange) {
        Some(choose|i: int| slot_at(slots, i, exchange))
    } else {
        None
    }
}

/// The metadata of an instrument, or why there is none.
pub open spec fn instrument_of(
    slots: Seq<ExchangeSlot>,
    exchange: Seq<char>,
    inst: Seq<char>,
) -> Result<InstrumentInfo, Seq<char>> {
    match slot_index(slots, exchange) {
        None => Err("unknown exchange: "@ + exchange),
        Some(i) => if slots[i].instruments@.contains_key(inst) {
            Ok(slots[i].instruments@[inst])
        } else {
            Err(exchange + ": unknown instrument "@ + inst)
        },
    }
}

proof fn lemma_no_slot(slots: Seq<ExchangeSlot>, exchange: Seq<char>)
    requires
        forall|j: int| 0 <= j < slots.len() ==> #[trigger] slots[j].name@ != exchange,
    ensures
        slot_index(slots, exchange) is None,
{
}

proof fn lemma_slot(slots: Seq<ExchangeSlot>, i: int, exchange: Seq<char>)
    requires
        slot_at(slots, i, exchange),
    ensures
        slot_index(slots, exchange) == Some(i),
{
    let k = choose|k: int| slot_at(slots, k, exchange);
    if k < i {
        assert(slots[k].name@ != exchange);
    } else if i < k {
        assert(slots[i].name@ != exchange);
    }
}

pub open spec fn notional_refusal(
    limits: SafetyLimits,
    position: PositionSnapshot,
    notional: Quote,
) -> Option<Seq<char>> {
    if limits.max_order_notional.value.less(notional.value) {
        Some(
            position.exchange@ + " "@ + position.inst@ + ": order notional "@ + notional.text@
                + " exceeds max_order_notional "@ + limits.max_order_notional.text@
                + "; raise the limit in guard.toml if intended"@,
        )
    } else {
        None
    }
}

/// The positions of all exchanges, exchange by exchange.
pub open spec fn all_positions(
    slots: Seq<ExchangeSlot>,
    rows: Seq<Vec<PositionRow>>,
    n: nat,
) -> Seq<PositionSnapshot>
    decreases n,
{
    if n == 0 {
        Seq::empty()
    } else {
        all_positions(slots, rows, (n - 1) as nat) + snapshots_of(slots[n - 1].name, rows[n - 1]@)
    }
}

/// The orders among `orders` that carry a guard id.
pub open spec fn own_orders(exchange: Seq<char>, orders: Seq<OrderRow>) -> Seq<OrderRow> {
    orders.filter(|order: OrderRow| is_own_order(exchange, order))
}

pub open spec fn is_own_order(exchange: Seq<char>, order: OrderRow) -> bool {
    order.cli_order_id is Some && owned(exchange, order.cli_order_id->0@)
}

/// The nanoseconds in a configured interval.
pub open spec fn interval_nanos(limits: SafetyLimits) -> u128 {
    (limits.min_action_interval_ms * 1_000_000) as u128
}

/// The time a full interval after `last`, or the end of the clock's range.
pub open spec fn interval_after(last: u128, interval: u128) -> u128 {
    if last + interval > u128::MAX {
        u128::MAX
    } else {
        (last + interval) as u128
    }
}

/// When the next action is due: at once, or a full interval after the previous one.
pub open spec fn next_due(last: Option<u128>, interval: u128, now: u128) -> u128 {
    match last {
        Some(last) => if interval_after(last, interval) > now {
            interval_after(last, interval)
        } else {
            now
        },
        None => now,
    }
}

/// The ids of orders, in order; orders without one are skipped.
pub open spec fn order_ids(orders: Seq<OrderRow>) -> Seq<Seq<char>>
    decreases orders.len(),
{
    if orders.len() == 0 {
        Seq::empty()
    } else {
        let rest = order_ids(orders.drop_last());
        match orders.last().cli_order_id {
            Some(id) => rest.push(id@),
            None => rest,
        }
    }
}

/// The characters of texts.
pub open spec fn views(texts: Seq<String>) -> Seq<Seq<char>> {
    texts.map_values(|text: String| text@)
}

impl GuardExecutor {
    /// Why a take-profit order is refused.
    pub open spec fn tp_refusal(
        self,
        position: PositionSnapshot,
        price: Quote,
        rounded: RoundedSize,
    ) -> Option<Seq<char>> {
        let info = instrument_of(self.slots@, position.exchange@, position.inst@);
        if !sane(price.value) {
            Some(
                position.exchange@ + " "@ + position.inst@ + ": refusing tp at insane price "@
                    + price.text@,
            )
        } else if info is Err {
            Some(info->Err_0)
        } else if below_minimum(rounded.size_num, info->Ok_0.min_lmt_size) {
            None
        } else {
            notional_refusal(self.limits, position, rounded.notional)
        }
    }

    /// Why a closing order is refused.
    pub open spec fn close_refusal(
        self,
        position: PositionSnapshot,
        pct: Quote,
        rounded: RoundedSize,
    ) -> Option<Seq<char>> {
        let info = instrument_of(self.slots@, position.exchange@, position.inst@);
        if !closes(pct.value) {
            Some("invalid close pct: "@ + pct.text@)
        } else if info is Err {
            Some(info->Err_0)
        } else if below_minimum(rounded.size_num, info->Ok_0.min_mkt_size) {
            None
        } else {
            notional_refusal(self.limits, position, rounded.notional)
        }
    }

    /// Why a cancellation is refused.
    pub open spec fn cancel_refusal(
        self,
        exchange: Seq<char>,
        order_id: Option<Seq<char>>,
        cli_order_id: Option<Seq<char>>,
    ) -> Option<Seq<char>> {
        if order_id is None && cli_order_id is None {
            Some("cancel requires order_id or cli_order_id"@)
        } else if slot_index(self.slots@, exchange) is None {
            Some("unknown exchange: "@ + exchange)
        } else {
            None
        }
    }

    /// The slot that the latest action on an exchange has reserved.
    pub open spec fn reserved(self, exchange: Seq<char>) -> Option<u128> {
        if self.last_action@.contains_key(exchange) {
            Some(self.last_action@[exchange])
        } else {
            None
        }
    }

    /// When an action asked for at `now` is due on an exchange.
    pub open spec fn due(self, exchange: Seq<char>, now: u128) -> u128 {
        next_due(self.reserved(exchange), interval_nanos(self.limits), now)
    }

    /// Whether the executor is as in `before` but for the slot of an action on `exchange`
    /// asked for at `now`: one that is sent, after `wait`, has reserved it, and one that is
    /// not has left every slot alone.
    pub open spec fn paced(
        self,
        before: Self,
        exchange: Seq<char>,
        now: u128,
        wait: Option<u128>,
    ) -> bool {
        &&& self.slots == before.slots
        &&& self.limits == before.limits
        &&& self.dry_run == before.dry_run
        &&& self.log == before.log
        &&& match wait {
            Some(wait) => {
                &&& wait == before.due(exchange, now) - now
                &&& self.last_action@ == before.last_action@.insert(
                    exchange,
                    before.due(exchange, now),
                )
            },
            None => self.last_action == before.last_action,
        }
    }

    /// The entry of an intended action that dry-run does not send.
    pub open spec fn is_dry_entry(self, entry: LogEntry, action: Seq<char>) -> bool {
        entry.path == self.log.path && entry.line@ == "DRY-RUN "@ + action + "\n"@
    }

    /// What a take-profit order comes to: refused, too small, recorded in a dry run, or sent.
    pub open spec fn placed_tp(
        self,
        before: Self,
        counter_before: OrderCounter,
        counter: OrderCounter,
        position: PositionSnapshot,
        price: Quote,
        rounded: RoundedSize,
        price_text: Seq<char>,
        now_micros: u64,
        now: u128,
        r: Result<Placement, GuardError>,
    ) -> bool {
        let refusal = before.tp_refusal(position, price, rounded);
        let info = instrument_of(before.slots@, position.exchange@, position.inst@);
        let id = own_id(position.exchange@, now_micros, counter_before.next);
        let text = tp_action(position, rounded.size@, price_text, id);
        match r {
            Err(e) => {
                &&& refusal == Some(e.message@)
                &&& counter.counted(counter_before, false)
                &&& self.paced(before, position.exchange@, now, None)
            },
            Ok(Placement::BelowMinimum) => {
                &&& refusal is None
                &&& below_minimum(rounded.size_num, info->Ok_0.min_lmt_size)
                &&& counter.counted(counter_before, false)
                &&& self.paced(before, position.exchange@, now, None)
            },
            Ok(Placement::DryRun { entry }) => {
                &&& refusal is None
                &&& !below_minimum(rounded.size_num, info->Ok_0.min_lmt_size)
                &&& before.dry_run
                &&& before.is_dry_entry(entry, text)
                &&& counter.counted(counter_before, true)
                &&& self.paced(before, position.exchange@, now, None)
            },
            Ok(Placement::Send { request, action, wait }) => {
                &&& refusal is None
                &&& !below_minimum(rounded.size_num, info->Ok_0.min_lmt_size)
                &&& !before.dry_run
                &&& request.inst == position.inst
                &&& request.side == closing_side(position)
                &&& request.size == rounded.size
                &&& request.order_type == OrderType::Limit
                &&& request.price is Some
                &&& request.price->0@ == price_text
                &&& request.reduce_only
                &&& request.time_in_force == Some(TimeInForce::GTC)
                &&& request.client_order_id@ == id
                &&& action@ == text
                &&& counter.counted(counter_before, true)
                &&& self.paced(before, position.exchange@, now, Some(wait))
            },
        }
    }

    /// What a closing order comes to: refused, too small, recorded in a dry run, or sent.
    pub open spec fn placed_close(
        self,
        before: Self,
        counter_before: OrderCounter,
        counter: OrderCounter,
        position: PositionSnapshot,
        pct: Quote,
        rounded: RoundedSize,
        now_micros: u64,
        now: u128,
        r: Result<Placement, GuardError>,
    ) -> bool {
        let refusal = before.close_refusal(position, pct, rounded);
        let info = instrument_of(before.slots@, position.exchange@, position.inst@);
        let id = own_id(position.exchange@, now_micros, counter_before.next);
        let text = close_action(position, pct.text@, rounded.size@, id);
        match r {
            Err(e) => {
                &&& refusal == Some(e.message@)
                &&& counter.counted(counter_before, false)
                &&& self.paced(before, position.exchange@, now, None)
            },
            Ok(Placement::BelowMinimum) => {
                &&& refusal is None
                &&& below_minimum(rounded.size_num, info->Ok_0.min_mkt_size)
                &&& counter.counted(counter_before, false)
                &&& self.paced(before, position.exchange@, now, None)
            },
            Ok(Placement::DryRun { entry }) => {
                &&& refusal is None
                &&& !below_minimum(rounded.size_num, info->Ok_0.min_mkt_size)
                &&& before.dry_run
                &&& before.is_dry_entry(entry, text)
                &&& counter.counted(counter_before, true)
                &&& self.paced(before, position.exchange@, now, None)
            },
            Ok(Placement::Send { request, action, wait }) => {
                &&& refusal is None
                &&& !below_minimum(rounded.size_num, info->Ok_0.min_mkt_size)
                &&& !before.dry_run
                &&& request.inst == position.inst
                &&& request.side == closing_side(position)
                &&& request.size == rounded.size
                &&& request.order_type == OrderType::Market
                &&& request.price is None
                &&& request.reduce_only
                &&& request.time_in_force is None
                &&& request.client_order_id@ == id
                &&& action@ == text
                &&& counter.counted(counter_before, true)
                &&& self.paced(before, position.exchange@, now, Some(wait))
            },
        }
    }

    /// What a cancellation comes to: refused, recorded in a dry run, or sent.
    pub open spec fn cancelled(
        self,
        before: Self,
        exchange: Seq<char>,
        inst: Seq<char>,
        order_id: Option<Seq<char>>,
        cli_order_id: Option<Seq<char>>,
        now: u128,
        r: Result<Cancellation, GuardError>,
    ) -> bool {
        let (oid, cid) = (order_id, cli_order_id);
        let refusal = before.cancel_refusal(exchange, oid, cid);
        let text = cancel_action(exchange, inst, oid, cid);
        match r {
            Err(e) => {
                &&& refusal == Some(e.message@)
                &&& self.paced(before, exchange, now, None)
            },
            Ok(Cancellation::DryRun { entry }) => {
                &&& refusal is None
                &&& before.dry_run
                &&& before.is_dry_entry(entry, text)
                &&& self.paced(before, exchange, now, None)
            },
            Ok(Cancellation::Send { request, action, wait }) => {
                &&& refusal is None
                &&& !before.dry_run
                &&& request.inst@ == inst
                &&& id_view(request.order_id) == oid
                &&& id_view(request.cli_order_id) == cid
                &&& action@ == text
                &&& self.paced(before, exchange, now, Some(wait))
            },
        }
    }

    /// What a cancellation of a guard-owned order comes to; an order of someone else is refused.
    pub open spec fn cancelled_own(
        self,
        before: Self,
        exchange: Seq<char>,
        inst: Seq<char>,
        cli_order_id: Seq<char>,
        usable: Option<Seq<char>>,
        now: u128,
        r: Result<Cancellation, GuardError>,
    ) -> bool {
        let cid = usable;
        let refusal = before.cancel_refusal(exchange, None, cid);
        let text = cancel_action(exchange, inst, None, cid);
        match r {
            Err(e) => {
                &&& if owned(exchange, cli_order_id) {
                    refusal == Some(e.message@)
                } else {
                    e.message@ == "order "@ + cli_order_id
                        + " is not owned by the built-in guard modules"@
                }
                &&& self.paced(before, exchange, now, None)
            },
            Ok(Cancellation::DryRun { entry }) => {
                &&& owned(exchange, cli_order_id)
                &&& refusal is None
                &&& before.dry_run
                &&& before.is_dry_entry(entry, text)
                &&& self.paced(before, exchange, now, None)
            },
            Ok(Cancellation::Send { request, action, wait }) => {
                &&& owned(exchange, cli_order_id)
                &&& refusal is None
                &&& !before.dry_run
                &&& request.inst@ == inst
                &&& request.order_id is None
                &&& id_view(request.cli_order_id) == cid
                &&& action@ == text
                &&& self.paced(before, exchange, now, Some(wait))
            },
        }
    }

    /// The executor for a configuration whose exchanges answered with `metadata`, one
    /// list per exchange. Fails on the first exchange that is not supported.
    pub fn connect(config: &GuardConfig, metadata: &Vec<Vec<InstrumentInfo>>) -> (r: Result<
        Self,
        GuardError,
    >)
        requires
            metadata@.len() == config.guard.exchanges@.len(),
        ensures
            match r {
                Ok(executor) => {
                    let names = config.guard.exchanges@;
                    &&& forall|i: int|
                        0 <= i < names.len() ==> venue_of(#[trigger] names[i]@) is Some
                    &&& executor.slots@.len() == names.len()
                    &&& forall|i: int|
                        0 <= i < names.len() ==> {
                            &&& (#[trigger] executor.slots@[i]).name == names[i]
                            &&& executor.slots@[i].instruments@ == by_instrument(metadata@[i]@)
                        }
                    &&& executor.limits.max_order_notional == config.guard.max_order_notional
                    &&& executor.limits.min_action_interval_ms
                        == config.guard.min_action_interval_ms
                    &&& executor.dry_run == (config.guard.mode == RunMode::DryRun)
                    &&& executor.log.path@ == config.guard.action_log@
                    &&& executor.last_action@ == Map::<Seq<char>, u128>::empty()
                },
                Err(e) => exists|i: int| #[trigger]
                    first_unsupported(config.guard.exchanges@, i) && e.message@
                        == unsupported_exchange(config.guard.exchanges@[i]@),
            },
    {
        let names: &Vec<String> = &config.guard.exchanges;
        let mut slots: Vec<ExchangeSlot> = Vec::new();
        let mut i: usize = 0;
        while i < names.len()
            invariant
                i <= names@.len(),
                names@ == config.guard.exchanges@,
                metadata@.len() == names@.len(),
                slots@.len() == i,
                forall|j: int| 0 <= j < i ==> venue_of(#[trigger] names@[j]@) is Some,
                forall|j: int|
                    0 <= j < i ==> {
                        &&& (#[trigger] slots@[j]).name == names@[j]
                        &&& slots@[j].instruments@ == by_instrument(metadata@[j]@)
                    },
            decreases names@.len() - i,
        {
            match lob_client_for(names[i].as_str()) {
                Ok(_) => {},
                Err(e) => {
                    assert(first_unsupported(names@, i as int));
                    return Err(e);
                },
            }
            slots.push(ExchangeSlot::new(&names[i], &metadata[i]));
            i += 1;
        }
        Ok(
            GuardExecutor {
                slots,
                limits: SafetyLimits::from_config(config),
                dry_run: config.guard.mode == RunMode::DryRun,
                log: ActionLog::new(config.guard.action_log.as_str()),
                last_action: Table::new(),
            },
        )
    }

    pub fn is_dry_run(&self) -> (r: bool)
        ensures
            r == self.dry_run,
    {
        self.dry_run
    }

    pub fn limits(&self) -> (r: &SafetyLimits)
        ensures
            *r == self.limits,
    {
        &self.limits
    }

    /// The names of the connected exchanges.
    pub fn exchanges(&self) -> (r: Vec<String>)
        ensures
            r@ == self.slots@.map_values(|slot: ExchangeSlot| slot.name),
    {
        let mut r: Vec<String> = Vec::new();
        let mut i: usize = 0;
        while i < self.slots.len()
            invariant
                i <= self.slots@.len(),
                r@ == self.slots@.take(i as int).map_values(|slot: ExchangeSlot| slot.name),
            decreases self.slots@.len() - i,
        {
            r.push(self.slots[i].name.clone());
            i += 1;
            assert(r@ =~= self.slots@.take(i as int).map_values(|slot: ExchangeSlot| slot.name));
        }
        assert(self.slots@.take(self.slots@.len() as int) =~= self.slots@);
        r
    }

    /// All open positions, sizes signed, from the rows that each exchange reported.
    pub fn positions(&self, rows: &Vec<Vec<PositionRow>>) -> (r: Vec<PositionSnapshot>)
        requires
            rows@.len() == self.slots@.len(),
        ensures
            r@ == all_positions(self.slots@, rows@, rows@.len()),
    {
        let mut r: Vec<PositionSnapshot> = Vec::new();
        let mut i: usize = 0;
        while i < self.slots.len()
            invariant
                i <= self.slots@.len(),
                rows@.len() == self.slots@.len(),
                r@ == all_positions(self.slots@, rows@, i as nat),
            decreases self.slots@.len() - i,
        {
            let mut more: Vec<PositionSnapshot> = snapshots(&self.slots[i].name, &rows[i]);
            r.append(&mut more);
            i += 1;
        }
        r
    }

    /// The place of an exchange among the connected ones.
    pub fn slot(&self, exchange: &str) -> (r: Result<usize, GuardError>)
        ensures
            match r {
                Ok(i) => slot_index(self.slots@, exchange@) == Some(i as int) && slot_at(
                    self.slots@,
                    i as int,
                    exchange@,
                ),
                Err(e) => {
                    &&& slot_index(self.slots@, exchange@) is None
                    &&& e.message@ == "unknown exchange: "@ + exchange@
                },
            },
    {
        let mut i: usize = 0;
        while i < self.slots.len()
            invariant
                i <= self.slots@.len(),
                forall|j: int| 0 <= j < i ==> #[trigger] self.slots@[j].name@ != exchange@,
            decreases self.slots@.len() - i,
        {
            if same_text(self.slots[i].name.as_str(), exchange) {
                proof {
                    lemma_slot(self.slots@, i as int, exchange@);
                }
                return Ok(i);
            }
            i += 1;
        }
        proof {
            lemma_no_slot(self.slots@, exchange@);
        }
        Err(GuardError { message: join2("unknown exchange: ", exchange) })
    }

    /// The metadata of an instrument.
    pub fn instrument(&self, exchange: &str, inst: &str) -> (r: Result<
        &InstrumentInfo,
        GuardError,
    >)
        ensures
            match r {
                Ok(info) => instrument_of(self.slots@, exchange@, inst@) == Ok::<
                    InstrumentInfo,
                    Seq<char>,
                >(*info),
                Err(e) => instrument_of(self.slots@, exchange@, inst@) == Err::<
                    InstrumentInfo,
                    Seq<char>,
                >(e.message@),
            },
    {
        let i: usize = match self.slot(exchange) {
            Ok(i) => i,
            Err(e) => return Err(e),
        };
        match self.slots[i].instruments.get(inst) {
            Some(info) => Ok(info),
            None => Err(
                GuardError {
                    message: join3(self.slots[i].name.as_str(), ": unknown instrument ", inst),
                },
            ),
        }
    }

    /// `(tick_size, lot_size)` for one instrument, from the connect-time cache.
    pub fn instrument_steps(&self, exchange: &str, inst: &str) -> (r: Result<
        (Float64, Float64),
        GuardError,
    >)
        ensures
            match r {
                Ok(steps) => {
                    let info = instrument_of(self.slots@, exchange@, inst@);
                    info is Ok && steps == (info->Ok_0.tick_size, info->Ok_0.lot_size)
                },
                Err(e) => instrument_of(self.slots@, exchange@, inst@) == Err::<
                    InstrumentInfo,
                    Seq<char>,
                >(e.message@),
            },
    {
        match self.instrument(exchange, inst) {
            Ok(info) => Ok((info.tick_size, info.lot_size)),
            Err(e) => Err(e),
        }
    }

    fn check_notional(&self, position: &PositionSnapshot, notional: &Quote) -> (r: Result<
        (),
        GuardError,
    >)
        ensures
            match r {
                Ok(()) => notional_refusal(self.limits, *position, *notional) is None,
                Err(e) => notional_refusal(self.limits, *position, *notional) == Some(e.message@),
            },
    {
        if self.limits.max_order_notional.value.lt(notional.value) {
            let mut message: String = position.exchange.clone();
            message.append(" ");
            message.append(position.inst.as_str());
            message.append(": order notional ");
            message.append(notional.text.as_str());
            message.append(" exceeds max_order_notional ");
            message.append(self.limits.max_order_notional.text.as_str());
            message.append("; raise the limit in guard.toml if intended");
            return Err(GuardError { message });
        }
        Ok(())
    }

    fn dry_entry(&self, action: &str) -> (r: LogEntry)
        ensures
            self.is_dry_entry(r, action@),
    {
        self.log.record(join2("DRY-RUN ", action).as_str())
    }

    /// The entry of a remark that a module adds to the trail.
    pub fn audit(&self, remark: &str) -> (r: LogEntry)
        ensures
            r.path == self.log.path,
            r.line@ == remark@ + "\n"@,
    {
        self.log.record(remark)
    }

    /// The entry of an action that an exchange acknowledged.
    pub fn acknowledged(&self, action: &str, order_id: &str, status: &str) -> (r: LogEntry)
        ensures
            r.path == self.log.path,
            r.line@ == ack_text(action@, order_id@, status@) + "\n"@,
    {
        let mut text: String = join2(action, " -> ack order_id=");
        text.append(order_id);
        text.append(" status=");
        text.append(status);
        self.log.record(text.as_str())
    }

    /// The error of an action that an exchange refused.
    pub fn failed(action: &str, error: &str) -> (r: GuardError)
        ensures
            r.message@ == failed_text(action@, error@),
    {
        GuardError { message: join3(action, ": ", error) }
    }

    /// The guard-owned orders among the open orders of one instrument, told by the
    /// per-venue prefix of the client order id. Built-in protection modules use this
    /// helper to reconcile only the orders they created.
    pub fn own_open_orders(&self, exchange: &str, orders: &Vec<OrderRow>) -> (r: Vec<OrderRow>)
        ensures
            r@ == own_orders(exchange@, orders@),
    {
        let ghost own = |order: OrderRow| is_own_order(exchange@, order);
        let mut r: Vec<OrderRow> = Vec::new();
        let mut i: usize = 0;
        proof {
            assert(orders@.take(0).filter(own) =~= Seq::<OrderRow>::empty()) by {
                reveal(Seq::filter);
            }
        }
        while i < orders.len()
            invariant
                i <= orders@.len(),
                own == (|order: OrderRow| is_own_order(exchange@, order)),
                r@ == orders@.take(i as int).filter(own),
            decreases orders@.len() - i,
        {
            proof {
                reveal(Seq::filter);
                assert(orders@.take(i + 1).drop_last() =~= orders@.take(i as int));
            }
            if let Some(id) = &orders[i].cli_order_id {
                if is_own_id(exchange, id.as_str()) {
                    r.push(orders[i].clone());
                }
            }
            i += 1;
        }
        assert(orders@.take(orders@.len() as int) =~= orders@);
        r
    }

    /// The numbers to round for a take-profit order on a full position.
    pub fn tp_rounding(&self, position: &PositionSnapshot, price: &Quote) -> (r: Result<
        TpRounding,
        GuardError,
    >)
        ensures
            ({
                let info = instrument_of(self.slots@, position.exchange@, position.inst@);
                match r {
                    Ok(rounding) => {
                        &&& sane(price.value)
                        &&& info is Ok
                        &&& rounding.size == position.size.absolute()
                        &&& rounding.lot_size == info->Ok_0.lot_size
                        &&& rounding.price == price.value
                        &&& rounding.tick_size == info->Ok_0.tick_size
                        &&& rounding == tp_numbers(*position, price.value, info->Ok_0)
                    },
                    Err(e) => {
                        &&& !sane(price.value) || info is Err
                        &&& forall|rounded: RoundedSize| #[trigger]
                            self.tp_refusal(*position, *price, rounded) == Some(e.message@)
                    },
                }
            }),
    {
        if !SafetyLimits::price_is_sane(price.value) {
            let mut message: String = position.exchange.clone();
            message.append(" ");
            message.append(position.inst.as_str());
            message.append(": refusing tp at insane price ");
            message.append(price.text.as_str());
            return Err(GuardError { message });
        }
        match self.instrument(position.exchange.as_str(), position.inst.as_str()) {
            Ok(info) => Ok(
                TpRounding {
                    size: position.size.abs(),
                    lot_size: info.lot_size,
                    price: price.value,
                    tick_size: info.tick_size,
                },
            ),
            Err(e) => Err(e),
        }
    }

    /// Rests a reduce-only take-profit limit for the full position, its size and
    /// price as rounded for the venue.
    pub fn place_tp_limit(
        &mut self,
        position: &PositionSnapshot,
        price: &Quote,
        rounded: &RoundedSize,
        price_text: &str,
        counter: &mut OrderCounter,
        now_micros: u64,
        now: u128,
    ) -> (r: Result<Placement, GuardError>)
        ensures
            final(self).placed_tp(
                *old(self),
                *old(counter),
                *final(counter),
                *position,
                *price,
                *rounded,
                price_text@,
                now_micros,
                now,
                r,
            ),
    {
        match self.tp_rounding(position, price) {
            Ok(_) => {},
            Err(e) => {
                assert(self.tp_refusal(*position, *price, *rounded) == Some(e.message@));
                return Err(e);
            },
        }
        let minimum: Float64 = match self.instrument(
            position.exchange.as_str(),
            position.inst.as_str(),
        ) {
            Ok(info) => info.min_lmt_size,
            Err(e) => return Err(e),
        };
        if rounded.size_num.le(Float64 { bits: 0 }) || rounded.size_num.lt(minimum) {
            return Ok(Placement::BelowMinimum);
        }
        match self.check_notional(position, &rounded.notional) {
            Ok(()) => {},
            Err(e) => return Err(e),
        }
        let side: OrderSide = closing_side_of(position);
        let client_order_id: String = counter.next_id(position.exchange.as_str(), now_micros);
        let mut action: String = join2("tp_limit ", position.exchange.as_str());
        action.append(" ");
        action.append(position.inst.as_str());
        action.append(" ");
        action.append(side_text(side));
        action.append(" ");
        action.append(rounded.size.as_str());
        action.append(" @ ");
        action.append(price_text);
        action.append(" cli_id=");
        action.append(client_order_id.as_str());
        if self.dry_run {
            return Ok(Placement::DryRun { entry: self.dry_entry(action.as_str()) });
        }
        let wait: u128 = self.throttle(position.exchange.as_str(), now);
        Ok(
            Placement::Send {
                request: OrderRequest {
                    inst: position.inst.clone(),
                    side,
                    size: rounded.size.clone(),
                    order_type: OrderType::Limit,
                    price: Some(price_text.to_owned()),
                    reduce_only: true,
                    time_in_force: Some(TimeInForce::GTC),
                    client_order_id,
                },
                action,
                wait,
            },
        )
    }

    /// The numbers to round for an order that closes `pct` percent of a position:
    /// `|size| * pct / 100`.
    pub fn close_rounding(&self, position: &PositionSnapshot, pct: &Quote) -> (r: Result<
        CloseRounding,
        GuardError,
    >)
        ensures
            ({
                let info = instrument_of(self.slots@, position.exchange@, position.inst@);
                match r {
                    Ok(rounding) => {
                        &&& closes(pct.value)
                        &&& info is Ok
                        &&& rounding.size == quotient_of(
                            product_of(value_of(position.size.absolute()), value_of(pct.value)),
                            value_of(number(HUNDRED)),
                        )
                        &&& rounding.lot_size == info->Ok_0.lot_size
                        &&& rounding == close_numbers(*position, pct.value, info->Ok_0)
                    },
                    Err(e) => {
                        &&& !closes(pct.value) || info is Err
                        &&& forall|rounded: RoundedSize| #[trigger]
                            self.close_refusal(*position, *pct, rounded) == Some(e.message@)
                    },
                }
            }),
    {
        let hundred: Float64 = Float64 { bits: HUNDRED };
        if !(Float64 { bits: 0 }).lt(pct.value) || !pct.value.le(hundred) {
            return Err(GuardError { message: join2("invalid close pct: ", pct.text.as_str()) });
        }
        match self.instrument(position.exchange.as_str(), position.inst.as_str()) {
            Ok(info) => Ok(
                CloseRounding {
                    size: quotient(
                        product(Formula::Value(position.size.abs()), Formula::Value(pct.value)),
                        Formula::Value(hundred),
                    ),
                    lot_size: info.lot_size,
                },
            ),
            Err(e) => Err(e),
        }
    }

    /// Closes a percentage of a position with a reduce-only market order, its size as
    /// rounded for the venue.
    pub fn close_pct(
        &mut self,
        position: &PositionSnapshot,
        pct: &Quote,
        rounded: &RoundedSize,
        counter: &mut OrderCounter,
        now_micros: u64,
        now: u128,
    ) -> (r: Result<Placement, GuardError>)
        ensures
            final(self).placed_close(
                *old(self),
                *old(counter),
                *final(counter),
                *position,
                *pct,
                *rounded,
                now_micros,
                now,
                r,
            ),
    {
        match self.close_rounding(position, pct) {
            Ok(_) => {},
            Err(e) => {
                assert(self.close_refusal(*position, *pct, *rounded) == Some(e.message@));
                return Err(e);
            },
        }
        let minimum: Float64 = match self.instrument(
            position.exchange.as_str(),
            position.inst.as_str(),
        ) {
            Ok(info) => info.min_mkt_size,
            Err(e) => return Err(e),
        };
        if rounded.size_num.le(Float64 { bits: 0 }) || rounded.size_num.lt(minimum) {
            return Ok(Placement::BelowMinimum);
        }
        match self.check_notional(position, &rounded.notional) {
            Ok(()) => {},
            Err(e) => return Err(e),
        }
        let side: OrderSide = closing_side_of(position);
        let client_order_id: String = counter.next_id(position.exchange.as_str(), now_micros);
        let mut action: String = join2("close ", pct.text.as_str());
        action.append("% ");
        action.append(position.exchange.as_str());
        action.append(" ");
        action.append(position.inst.as_str());
        action.append(" ");
        action.append(side_text(side));
        action.append(" ");
        action.append(rounded.size.as_str());
        action.append(" cli_id=");
        action.append(client_order_id.as_str());
        if self.dry_run {
            return Ok(Placement::DryRun { entry: self.dry_entry(action.as_str()) });
        }
        let wait: u128 = self.throttle(position.exchange.as_str(), now);
        Ok(
            Placement::Send {
                request: OrderRequest {
                    inst: position.inst.clone(),
                    side,
                    size: rounded.size.clone(),
                    order_type: OrderType::Market,
                    price: None,
                    reduce_only: true,
                    time_in_force: None,
                    client_order_id,
                },
                action,
                wait,
            },
        )
    }

    /// Cancels one exact order selected by a module policy. At least one of
    /// `order_id` or `cli_order_id` must be present.
    pub fn cancel_order(
        &mut self,
        exchange: &str,
        inst: &str,
        order_id: Option<&str>,
        cli_order_id: Option<&str>,
        now: u128,
    ) -> (r: Result<Cancellation, GuardError>)
        ensures
            final(self).cancelled(
                *old(self),
                exchange@,
                inst@,
                usable_id(order_id),
                usable_id(cli_order_id),
                now,
                r,
            ),
    {
        let order_id: Option<String> = non_blank(order_id);
        let cli_order_id: Option<String> = non_blank(cli_order_id);
        if order_id.is_none() && cli_order_id.is_none() {
            return Err(GuardError::new("cancel requires order_id or cli_order_id"));
        }
        match self.slot(exchange) {
            Ok(_) => {},
            Err(e) => return Err(e),
        }
        let mut action: String = join2("cancel ", exchange);
        action.append(" ");
        action.append(inst);
        action.append(" order_id=");
        let ghost stem = action@;
        if let Some(id) = &order_id {
            action.append(id.as_str());
        }
        assert(action@ =~= stem + id_or_empty(id_view(order_id)));
        action.append(" cli_id=");
        let ghost stem = action@;
        if let Some(id) = &cli_order_id {
            action.append(id.as_str());
        }
        assert(action@ =~= stem + id_or_empty(id_view(cli_order_id)));
        if self.dry_run {
            return Ok(Cancellation::DryRun { entry: self.dry_entry(action.as_str()) });
        }
        let wait: u128 = self.throttle(exchange, now);
        Ok(
            Cancellation::Send {
                request: CancelRequest { inst: inst.to_owned(), order_id, cli_order_id },
                action,
                wait,
            },
        )
    }

    /// Cancels one guard-owned order. This remains a convenience helper for modules
    /// that use guard-prefixed client order ids as their ownership policy; it is not
    /// a framework-wide cancellation restriction.
    pub fn cancel_own_order(
        &mut self,
        exchange: &str,
        inst: &str,
        cli_order_id: &str,
        now: u128,
    ) -> (r: Result<Cancellation, GuardError>)
        ensures
            final(self).cancelled_own(
                *old(self),
                exchange@,
                inst@,
                cli_order_id@,
                usable_id(Some(cli_order_id)),
                now,
                r,
            ),
    {
        if !is_own_id(exchange, cli_order_id) {
            return Err(
                GuardError {
                    message: join3(
                        "order ",
                        cli_order_id,
                        " is not owned by the built-in guard modules",
                    ),
                },
            );
        }
        self.cancel_order(exchange, inst, None, Some(cli_order_id), now)
    }

    /// The ids under which to cancel every guard-owned order among the open orders of
    /// one instrument; as many cancels are attempted. Individual failures do not stop
    /// the sweep: the next reconcile round retries what remains.
    pub fn cancel_own_orders(&self, exchange: &str, orders: &Vec<OrderRow>) -> (r: Vec<String>)
        ensures
            views(r@) == order_ids(own_orders(exchange@, orders@)),
    {
        let own: Vec<OrderRow> = self.own_open_orders(exchange, orders);
        let mut r: Vec<String> = Vec::new();
        let mut i: usize = 0;
        assert(views(r@) =~= order_ids(own@.take(0)));
        while i < own.len()
            invariant
                i <= own@.len(),
                views(r@) == order_ids(own@.take(i as int)),
            decreases own@.len() - i,
        {
            let ghost before = r@;
            proof {
                assert(own@.take(i + 1).drop_last() =~= own@.take(i as int));
            }
            if let Some(id) = &own[i].cli_order_id {
                r.push(id.clone());
                assert(views(r@) =~= views(before).push(id@));
            }
            i += 1;
        }
        assert(own@.take(own@.len() as int) =~= own@);
        r
    }

    /// Reserves the exchange's next action slot and returns how long to wait for it,
    /// in nanoseconds.
    fn throttle(&mut self, exchange: &str, now: u128) -> (r: u128)
        ensures
            final(self).paced(*old(self), exchange@, now, Some(r)),
    {
        let interval: u128 = self.limits.min_action_interval_ms as u128 * 1_000_000;
        let due: u128 = match self.last_action.get(exchange) {
            Some(last) => {
                let next: u128 = last.saturating_add(interval);
                if next > now {
                    next
                } else {
                    now
                }
            },
            None => now,
        };
        self.last_action.insert(exchange.to_owned(), due);
        due - now
    }
}

/// Two actions in a row on one exchange are sent a full interval apart at least, whenever they
/// are asked for.
pub proof fn law_actions_keep_their_distance(
    first: GuardExecutor,
    second: GuardExecutor,
    third: GuardExecutor,
    exchange: Seq<char>,
    now1: u128,
    wait1: u128,
    now2: u128,
    wait2: u128,
)
    requires
        second.paced(first, exchange, now1, Some(wait1)),
        third.paced(second, exchange, now2, Some(wait2)),
        now1 + wait1 + interval_nanos(first.limits) <= u128::MAX,
    ensures
        now2 + wait2 >= now1 + wait1 + interval_nanos(first.limits),
        now1 + wait1 == first.due(exchange, now1),
        now2 + wait2 == second.due(exchange, now2),
{
}

/// Exchanges are paced apart: an action on one exchange, and an action that is not sent, change
/// nothing in when the actions of another exchange are due.
pub proof fn law_exchanges_are_paced_apart(
    before: GuardExecutor,
    after: GuardExecutor,
    exchange: Seq<char>,
    other: Seq<char>,
    now: u128,
    wait: Option<u128>,
    later: u128,
)
    requires
        after.paced(before, exchange, now, wait),
        other != exchange || wait is None,
    ensures
        after.due(other, later) == before.due(other, later),
{
}

/// An action that an executor was asked for: on which exchange, when, and how long it was to
/// wait where it was sent.
pub struct Asked {
    pub exchange: Seq<char>,
    pub now: u128,
    pub wait: Option<u128>,
}

/// Whether action `k` led from one state of an executor to the next.
pub open spec fn asked_at(states: Seq<GuardExecutor>, actions: Seq<Asked>, k: int) -> bool {
    states[k + 1].paced(states[k], actions[k].exchange, actions[k].now, actions[k].wait)
}

/// Whether an executor went through these states while it was asked for these actions.
pub open spec fn runs_through(states: Seq<GuardExecutor>, actions: Seq<Asked>) -> bool {
    &&& states.len() == actions.len() + 1
    &&& forall|k: int| 0 <= k < actions.len() ==> #[trigger] asked_at(states, actions, k)
}

/// The slot of the latest of these actions that was sent on an exchange: the first is due at
/// once, each further one a full interval after the one before it or at once, whichever is
/// later. Actions on other exchanges and actions that were not sent do not count.
pub open spec fn slot_after(actions: Seq<Asked>, exchange: Seq<char>, interval: u128) -> Option<
    u128,
>
    decreases actions.len(),
{
    if actions.len() == 0 {
        None
    } else {
        let before = slot_after(actions.drop_last(), exchange, interval);
        let last = actions.last();
        if last.exchange == exchange && last.wait is Some {
            Some(next_due(before, interval, last.now))
        } else {
            before
        }
    }
}

/// In a series of actions of any kind on any exchanges, the first that is sent on an exchange
/// goes out at once. Each further one goes out at the later of the time it is asked for and a
/// full interval after the slot of the one before it on that exchange, and no later.
pub proof fn law_series_of_actions_is_paced(
    states: Seq<GuardExecutor>,
    actions: Seq<Asked>,
    exchange: Seq<char>,
    n: int,
)
    requires
        runs_through(states, actions),
        states[0].reserved(exchange) is None,
        0 <= n <= actions.len(),
    ensures
        ({
            let interval = interval_nanos(states[0].limits);
            let slot = slot_after(actions.take(n), exchange, interval);
            &&& states[n].limits == states[0].limits
            &&& states[n].reserved(exchange) == slot
            &&& n < actions.len() && actions[n].exchange == exchange && actions[n].wait is Some
                ==> {
                let due = actions[n].now + actions[n].wait->0;
                match slot {
                    None => due == actions[n].now,
                    Some(t) => t + interval <= u128::MAX ==> due == if t + interval
                        > actions[n].now {
                        t + interval
                    } else {
                        actions[n].now as int
                    },
                }
            }
        }),
    decreases n,
{
    if n < actions.len() {
        assert(asked_at(states, actions, n));
    }
    if n > 0 {
        law_series_of_actions_is_paced(states, actions, exchange, n - 1);
        assert(asked_at(states, actions, n - 1));
        assert(actions.take(n).drop_last() =~= actions.take(n - 1));
        assert(actions.take(n).last() == actions[n - 1]);
    } else {
        assert(actions.take(0).len() == 0);
    }
}

/// No take-profit order that is neither refused nor too small has an insane price or
/// exceeds the cap on an order's value.
pub proof fn law_tp_orders_pass_the_limits(
    executor: GuardExecutor,
    position: PositionSnapshot,
    price: Quote,
    rounded: RoundedSize,
)
    requires
        executor.tp_refusal(position, price, rounded) is None,
        !below_minimum(
            rounded.size_num,
            instrument_of(
                executor.slots@,
                position.exchange@,
                position.inst@,
            )->Ok_0.min_lmt_size,
        ),
    ensures
        sane(price.value),
        !executor.limits.max_order_notional.value.less(rounded.notional.value),
{
}

/// No closing order that is neither refused nor too small exceeds the cap on an
/// order's value.
pub proof fn law_closing_orders_pass_the_limits(
    executor: GuardExecutor,
    position: PositionSnapshot,
    pct: Quote,
    rounded: RoundedSize,
)
    requires
        executor.close_refusal(position, pct, rounded) is None,
        !below_minimum(
            rounded.size_num,
            instrument_of(
                executor.slots@,
                position.exchange@,
                position.inst@,
            )->Ok_0.min_mkt_size,
        ),
    ensures
        !executor.limits.max_order_notional.value.less(rounded.notional.value),
{
}

proof fn lemma_own_ids(exchange: Seq<char>, orders: Seq<OrderRow>)
    requires
        forall|i: int| 0 <= i < orders.len() ==> is_own_order(exchange, #[trigger] orders[i]),
    ensures
        order_ids(orders).len() == orders.len(),
        forall|i: int|
            0 <= i < orders.len() ==> #[trigger] order_ids(orders)[i]
                == orders[i].cli_order_id->0@,
    decreases orders.len(),
{
    if orders.len() > 0 {
        assert(is_own_order(exchange, orders[orders.len() - 1]));
        assert forall|i: int| 0 <= i < orders.len() - 1 implies is_own_order(
            exchange,
            #[trigger] orders.drop_last()[i],
        ) by {
            assert(is_own_order(exchange, orders[i]));
        }
        lemma_own_ids(exchange, orders.drop_last());
    }
}

/// A sweep touches the guard's own orders only, and each of them once.
pub proof fn law_sweep_cancels_own_orders_only(exchange: Seq<char>, orders: Seq<OrderRow>, i: int)
    requires
        0 <= i < order_ids(own_orders(exchange, orders)).len(),
    ensures
        order_ids(own_orders(exchange, orders)).len() == own_orders(exchange, orders).len(),
        owned(exchange, order_ids(own_orders(exchange, orders))[i]),
{
    let own = own_orders(exchange, orders);
    let is_own = |order: OrderRow| is_own_order(exchange, order);
    assert forall|j: int| 0 <= j < own.len() implies is_own_order(exchange, #[trigger] own[j]) by {
        orders.lemma_filter_pred(is_own, j);
    }
    lemma_own_ids(exchange, own);
    assert(is_own_order(exchange, own[i]));
}

/// What is rounded is the whole position without its sign for a take-profit order, at the price asked for,
/// and in exact arithmetic `pct` hundredths of it for a closing order; sizes go to the lot, prices to the
/// tick.
pub proof fn law_orders_cover_the_position(
    position: PositionSnapshot,
    price: Float64,
    pct: Float64,
    info: InstrumentInfo,
)
    requires
        position.size.finite(),
    ensures
        ({
            let tp = tp_numbers(position, price, info);
            let close = close_numbers(position, pct, info);
            let held = if position.size.units() < 0 {
                -position.size.units()
            } else {
                position.size.units()
            };
            let (n, d) = exact(close.size);
            let u = unit();
            &&& tp.size.finite() && tp.size.units() == held
            &&& tp.price == price
            &&& tp.lot_size == info.lot_size
            &&& tp.tick_size == info.tick_size
            &&& close.lot_size == info.lot_size
            &&& d > 0
            &&& n * (100 * u * u) == held * pct.units() * d
            &&& pct == number(HUNDRED) ==> n * u == held * d
        }),
{
    law_absolute_values(position.size);
    law_constants_are_exact();
    let u = unit();
    let (vs, vp, vh) = (
        value_of(position.size.absolute()),
        value_of(pct),
        value_of(number(HUNDRED)),
    );
    law_exact_arithmetic(position.size.absolute(), vs, vp);
    law_exact_arithmetic(pct, product_of(vs, vp), vh);
    law_exact_arithmetic(number(HUNDRED), vs, vp);
    let (h, p) = (position.size.absolute().units(), pct.units());
    let (n, d) = exact(close_numbers(position, pct, info).size);
    assert(n == (h * p) * u && d == (u * u) * (100 * u));
    assert(d > 0) by (nonlinear_arith)
        requires
            u > 0,
            d == (u * u) * (100 * u),
    ;
    assert(((h * p) * u) * (100 * u * u) == h * p * ((u * u) * (100 * u))) by (nonlinear_arith);
    if pct == number(HUNDRED) {
        assert(((h * (100 * u)) * u) * u == h * ((u * u) * (100 * u))) by (nonlinear_arith);
    }
}

/// An order is worth its size times its price, in exact arithmetic.
pub proof fn law_orders_are_worth_size_times_price(size_num: Float64, price: Float64)
    ensures
        exact(value_at(size_num, price)) == (size_num.units() * price.units(), unit() * unit()),
{
    law_exact_arithmetic(size_num, value_of(size_num), value_of(price));
    law_exact_arithmetic(price, value_of(size_num), value_of(price));
}

/// A percentage closes something exactly when it is above zero and at most a hundred; a size is too small
/// exactly when it is not above zero or below the minimum.
pub proof fn law_sizes_and_shares_by_value(pct: Float64, size_num: Float64, minimum: Float64)
    ensures
        pct.finite() ==> (closes(pct) <==> 0 < pct.units() <= 100 * unit()),
        !pct.finite() ==> !closes(pct),
        size_num.finite() && minimum.finite() ==> (below_minimum(size_num, minimum)
            <==> size_num.units() <= 0 || size_num.units() < minimum.units()),
{
    law_constants_are_exact();
    if pct.finite() {
        law_sign_of_finite_numbers(pct);
        law_comparison_is_numeric(pct, number(HUNDRED));
    }
    if size_num.finite() && minimum.finite() {
        law_sign_of_finite_numbers(size_num);
        law_comparison_is_numeric(size_num, minimum);
    }
}

/// A long position is closed by a sell, a short one by a buy.
pub proof fn law_closing_side_is_the_other_side(position: PositionSnapshot)
    requires
        position.size.finite(),
        position.size.units() != 0,
    ensures
        position.size.units() > 0 ==> closing_side(position) == OrderSide::SELL,
        position.size.units() < 0 ==> closing_side(position) == OrderSide::BUY,
{
    law_sign_of_finite_numbers(position.size);
}

/// A take-profit order goes out, or is recorded in a dry run, exactly when its price is a finite number above
/// zero, its instrument is known, its size is above zero and not below the minimum for limit orders, and its
/// value is not above the cap.
pub proof fn law_take_profits_go_out_when_allowed(
    before: GuardExecutor,
    after: GuardExecutor,
    counter_before: OrderCounter,
    counter: OrderCounter,
    position: PositionSnapshot,
    price: Quote,
    rounded: RoundedSize,
    price_text: Seq<char>,
    now_micros: u64,
    now: u128,
    r: Result<Placement, GuardError>,
)
    requires
        after.placed_tp(
            before,
            counter_before,
            counter,
            position,
            price,
            rounded,
            price_text,
            now_micros,
            now,
            r,
        ),
        rounded.size_num.finite(),
        rounded.notional.value.finite(),
        before.limits.max_order_notional.value.finite(),
        instrument_of(before.slots@, position.exchange@, position.inst@) is Ok ==> instrument_of(
            before.slots@,
            position.exchange@,
            position.inst@,
        )->Ok_0.min_lmt_size.finite(),
    ensures
        ({
            let info = instrument_of(before.slots@, position.exchange@, position.inst@);
            let sound = price.value.finite() && price.value.units() > 0 && info is Ok;
            let large = rounded.size_num.units() > 0 && rounded.size_num.units()
                >= info->Ok_0.min_lmt_size.units();
            let within = rounded.notional.value.units()
                <= before.limits.max_order_notional.value.units();
            let goes = sound && large && within;
            &&& r is Ok && r->Ok_0 is Send <==> goes && !before.dry_run
            &&& r is Ok && r->Ok_0 is DryRun <==> goes && before.dry_run
            &&& r is Ok && r->Ok_0 is BelowMinimum <==> sound && !large
            &&& r is Err <==> !sound || (large && !within)
        }),
{
    law_sane_prices_are_the_positive_numbers(price.value);
    let info = instrument_of(before.slots@, position.exchange@, position.inst@);
    law_comparison_is_numeric(before.limits.max_order_notional.value, rounded.notional.value);
    if info is Ok {
        law_sizes_and_shares_by_value(
            price.value,
            rounded.size_num,
            info->Ok_0.min_lmt_size,
        );
    }
}

/// A closing order goes out, or is recorded in a dry run, exactly when it closes more than nothing and at most
/// all, its instrument is known, its size is above zero and not below the minimum for market orders, and its
/// value is not above the cap.
pub proof fn law_closing_orders_go_out_when_allowed(
    before: GuardExecutor,
    after: GuardExecutor,
    counter_before: OrderCounter,
    counter: OrderCounter,
    position: PositionSnapshot,
    pct: Quote,
    rounded: RoundedSize,
    now_micros: u64,
    now: u128,
    r: Result<Placement, GuardError>,
)
    requires
        after.placed_close(
            before,
            counter_before,
            counter,
            position,
            pct,
            rounded,
            now_micros,
            now,
            r,
        ),
        pct.value.finite(),
        rounded.size_num.finite(),
        rounded.notional.value.finite(),
        before.limits.max_order_notional.value.finite(),
        instrument_of(before.slots@, position.exchange@, position.inst@) is Ok ==> instrument_of(
            before.slots@,
            position.exchange@,
            position.inst@,
        )->Ok_0.min_mkt_size.finite(),
    ensures
        ({
            let info = instrument_of(before.slots@, position.exchange@, position.inst@);
            let sound = 0 < pct.value.units() <= 100 * unit() && info is Ok;
            let large = rounded.size_num.units() > 0 && rounded.size_num.units()
                >= info->Ok_0.min_mkt_size.units();
            let within = rounded.notional.value.units()
                <= before.limits.max_order_notional.value.units();
            let goes = sound && large && within;
            &&& r is Ok && r->Ok_0 is Send <==> goes && !before.dry_run
            &&& r is Ok && r->Ok_0 is DryRun <==> goes && before.dry_run
            &&& r is Ok && r->Ok_0 is BelowMinimum <==> sound && !large
            &&& r is Err <==> !sound || (large && !within)
        }),
{
    let info = instrument_of(before.slots@, position.exchange@, position.inst@);
    law_comparison_is_numeric(before.limits.max_order_notional.value, rounded.notional.value);
    law_sizes_and_shares_by_value(pct.value, rounded.size_num, rounded.size_num);
    if info is Ok {
        law_sizes_and_shares_by_value(pct.value, rounded.size_num, info->Ok_0.min_mkt_size);
    }
}

/// What goes out reduces the position and nothing else: an order on its instrument and exchange, on the other
/// side, of the rounded size, reduce-only, under a guard id of its own; a take-profit as a resting limit order
/// at the rounded price, a close as a market order.
pub proof fn law_orders_only_reduce(
    before: GuardExecutor,
    after: GuardExecutor,
    counter_before: OrderCounter,
    counter: OrderCounter,
    position: PositionSnapshot,
    number: Quote,
    rounded: RoundedSize,
    price_text: Seq<char>,
    now_micros: u64,
    now: u128,
    request: OrderRequest,
    action: String,
    wait: u128,
    is_tp: bool,
)
    requires
        is_tp ==> after.placed_tp(
            before,
            counter_before,
            counter,
            position,
            number,
            rounded,
            price_text,
            now_micros,
            now,
            Ok(Placement::Send { request, action, wait }),
        ),
        !is_tp ==> after.placed_close(
            before,
            counter_before,
            counter,
            position,
            number,
            rounded,
            now_micros,
            now,
            Ok(Placement::Send { request, action, wait }),
        ),
    ensures
        !before.dry_run,
        request.reduce_only,
        request.inst == position.inst,
        request.size == rounded.size,
        position.size.finite() && position.size.units() > 0 ==> request.side == OrderSide::SELL,
        position.size.finite() && position.size.units() < 0 ==> request.side == OrderSide::BUY,
        owned(position.exchange@, request.client_order_id@),
        request.client_order_id@ == own_id(position.exchange@, now_micros, counter_before.next),
        counter.next != counter_before.next,
        is_tp ==> {
            &&& request.order_type == OrderType::Limit
            &&& request.price is Some
            &&& request.price->0@ == price_text
            &&& request.time_in_force == Some(TimeInForce::GTC)
        },
        !is_tp ==> {
            &&& request.order_type == OrderType::Market
            &&& request.price is None
            &&& request.time_in_force is None
        },
{
    law_own_ids_are_recognized(position.exchange@, now_micros, counter_before.next);
    if position.size.finite() && position.size.units() != 0 {
        law_closing_side_is_the_other_side(position);
    }
}

/// A cancellation goes out, or is recorded in a dry run, exactly when it has an id and its exchange is
/// connected, and then for the order asked for. One of a guard-owned order goes out only where the id is the
/// guard's own.
pub proof fn law_cancellations_are_exact(
    before: GuardExecutor,
    after: GuardExecutor,
    exchange: Seq<char>,
    inst: Seq<char>,
    order_id: Option<Seq<char>>,
    cli_order_id: Option<Seq<char>>,
    own: Seq<char>,
    now: u128,
    r: Result<Cancellation, GuardError>,
    is_own: bool,
)
    requires
        !is_own ==> after.cancelled(before, exchange, inst, order_id, cli_order_id, now, r),
        is_own ==> order_id is None && after.cancelled_own(
            before,
            exchange,
            inst,
            own,
            cli_order_id,
            now,
            r,
        ),
    ensures
        ({
            let known = exists|i: int|
                0 <= i < before.slots@.len() && (#[trigger] before.slots@[i]).name@ == exchange;
            let goes = known && (order_id is Some || cli_order_id is Some) && (is_own ==> owned(
                exchange,
                own,
            ));
            &&& r is Ok && r->Ok_0 is Send <==> goes && !before.dry_run
            &&& r is Ok && r->Ok_0 is DryRun <==> goes && before.dry_run
            &&& r is Err <==> !goes
            &&& match r {
                Ok(Cancellation::Send { request, .. }) => {
                    &&& request.inst@ == inst
                    &&& request.order_id is Some <==> order_id is Some
                    &&& order_id is Some ==> request.order_id->0@ == order_id->0
                    &&& request.cli_order_id is Some <==> cli_order_id is Some
                    &&& cli_order_id is Some ==> request.cli_order_id->0@ == cli_order_id->0
                },
                _ => true,
            }
        }),
{
    lemma_known_exchange(before.slots@, exchange);
}

proof fn lemma_known_exchange(slots: Seq<ExchangeSlot>, exchange: Seq<char>)
    ensures
        slot_index(slots, exchange) is Some <==> exists|i: int|
            0 <= i < slots.len() && (#[trigger] slots[i]).name@ == exchange,
        slot_index(slots, exchange) is Some ==> slot_at(
            slots,
            slot_index(slots, exchange)->0,
            exchange,
        ),
{
    if exists|i: int| 0 <= i < slots.len() && (#[trigger] slots[i]).name@ == exchange {
        let i = choose|i: int| 0 <= i < slots.len() && (#[trigger] slots[i]).name@ == exchange;
        lemma_first_slot(slots, i, exchange);
    }
    if slot_index(slots, exchange) is Some {
        let k = choose|k: int| slot_at(slots, k, exchange);
        assert(slots[k].name@ == exchange);
    }
}

proof fn lemma_first_slot(slots: Seq<ExchangeSlot>, i: int, exchange: Seq<char>)
    requires
        0 <= i < slots.len(),
        slots[i].name@ == exchange,
    ensures
        exists|k: int| slot_at(slots, k, exchange),
    decreases i,
{
    if exists|j: int| 0 <= j < i && (#[trigger] slots[j]).name@ == exchange {
        let j = choose|j: int| 0 <= j < i && (#[trigger] slots[j]).name@ == exchange;
        lemma_first_slot(slots, j, exchange);
    } else {
        assert(slot_at(slots, i, exchange));
    }
}

/// An instrument is known exactly where its exchange is connected and reported it; what is known of it is what
/// the first connection of that name holds under its own name.
pub proof fn law_instruments_are_known_by_exchange(
    slots: Seq<ExchangeSlot>,
    exchange: Seq<char>,
    inst: Seq<char>,
    i: int,
)
    requires
        0 <= i < slots.len(),
        slots[i].name@ == exchange,
        forall|j: int| 0 <= j < i ==> (#[trigger] slots[j]).name@ != exchange,
    ensures
        instrument_of(slots, exchange, inst) is Ok <==> slots[i].instruments@.contains_key(inst),
        slots[i].instruments@.contains_key(inst) ==> instrument_of(slots, exchange, inst) == Ok::<
            InstrumentInfo,
            Seq<char>,
        >(slots[i].instruments@[inst]),
        forall|other: Seq<char>|
            (forall|j: int| 0 <= j < slots.len() ==> (#[trigger] slots[j]).name@ != other)
                ==> #[trigger] instrument_of(slots, other, inst) is Err,
{
    assert(slot_at(slots, i, exchange));
    lemma_slot(slots, i, exchange);
}

/// Of the rows that an exchange reports for an instrument the last counts, and only reported instruments are
/// known.
pub proof fn law_last_metadata_counts(infos: Seq<InstrumentInfo>, inst: Seq<char>)
    ensures
        by_instrument(infos).contains_key(inst) <==> exists|i: int|
            0 <= i < infos.len() && (#[trigger] infos[i]).inst@ == inst,
        by_instrument(infos).contains_key(inst) ==> exists|i: int|
            {
                &&& 0 <= i < infos.len()
                &&& #[trigger] infos[i] == by_instrument(infos)[inst]
                &&& infos[i].inst@ == inst
                &&& forall|j: int| i < j < infos.len() ==> (#[trigger] infos[j]).inst@ != inst
            },
    decreases infos.len(),
{
    if infos.len() > 0 {
        let rest = infos.drop_last();
        let last = infos.len() - 1;
        law_last_metadata_counts(rest, inst);
        if infos.last().inst@ == inst {
            assert(infos[last] == by_instrument(infos)[inst]);
        } else {
            if by_instrument(rest).contains_key(inst) {
                let i = choose|i: int|
                    {
                        &&& 0 <= i < rest.len()
                        &&& #[trigger] rest[i] == by_instrument(rest)[inst]
                        &&& rest[i].inst@ == inst
                        &&& forall|j: int|
                            i < j < rest.len() ==> (#[trigger] rest[j]).inst@ != inst
                    };
                assert(infos[i] == rest[i]);
                assert forall|j: int| i < j < infos.len() implies (#[trigger] infos[j]).inst@
                    != inst by {
                    if j < last {
                        assert(rest[j].inst@ != inst);
                    }
                }
            }
            if exists|i: int| 0 <= i < infos.len() && (#[trigger] infos[i]).inst@ == inst {
                let i = choose|i: int| 0 <= i < infos.len() && (#[trigger] infos[i]).inst@ == inst;
                assert(rest[i] == infos[i]);
            }
        }
    }
}

/// Four names stand for exchanges, each for its own, and no other does.
pub proof fn law_four_exchanges_are_supported(name: Seq<char>)
    ensures
        venue_of("hyperliquid"@) == Some(Venue::Hyperliquid),
        venue_of("binance_um"@) == Some(Venue::BinanceUm),
        venue_of("okx"@) == Some(Venue::Okx),
        venue_of("gate_futures"@) == Some(Venue::GateFutures),
        venue_of(name) is Some ==> name == "hyperliquid"@ || name == "binance_um"@ || name == "okx"@
            || name == "gate_futures"@,
{
    reveal_strlit("hyperliquid");
    reveal_strlit("binance_um");
    reveal_strlit("okx");
    reveal_strlit("gate_futures");
    assert("hyperliquid"@.len() == 11 && "binance_um"@.len() == 10);
    assert("okx"@.len() == 3 && "gate_futures"@.len() == 12);
}

/// Every position that an exchange reports and that is not skipped is among the positions, under the name of
/// that exchange.
pub proof fn law_every_reported_position_is_read(
    slots: Seq<ExchangeSlot>,
    rows: Seq<Vec<PositionRow>>,
    n: nat,
    k: int,
    j: int,
)
    requires
        slots.len() == rows.len(),
        n <= rows.len(),
        0 <= k < n,
        0 <= j < rows[k]@.len(),
        snapshot_of(slots[k].name, rows[k]@[j]) is Some,
    ensures
        exists|i: int|
            {
                &&& 0 <= i < all_positions(slots, rows, n).len()
                &&& (#[trigger] all_positions(slots, rows, n)[i]).exchange == slots[k].name
                &&& all_positions(slots, rows, n)[i].inst == rows[k]@[j].inst
                &&& all_positions(slots, rows, n)[i].avg_price == rows[k]@[j].avg_price
                &&& all_positions(slots, rows, n)[i].mark_price == rows[k]@[j].mark_price
            },
    decreases n,
{
    let m = (n - 1) as nat;
    let all = all_positions(slots, rows, n);
    let front = all_positions(slots, rows, m);
    let back = snapshots_of(slots[m as int].name, rows[m as int]@);
    assert(all == front + back);
    let row = rows[k]@[j];
    if k < m {
        law_every_reported_position_is_read(slots, rows, m, k, j);
        let i = choose|i: int|
            {
                &&& 0 <= i < front.len()
                &&& (#[trigger] front[i]).exchange == slots[k].name
                &&& front[i].inst == row.inst
                &&& front[i].avg_price == row.avg_price
                &&& front[i].mark_price == row.mark_price
            };
        assert(all[i] == front[i]);
    } else {
        let name = slots[k].name;
        let (a, b) = (rows[k]@.take(j), rows[k]@.skip(j + 1));
        assert(rows[k]@ =~= a + seq![row] + b);
        law_rows_are_read_one_by_one(name, a + seq![row], b, row);
        law_rows_are_read_one_by_one(name, a, seq![row], row);
        let at = snapshots_of(name, a).len() as int;
        let position = snapshot_of(name, row)->0;
        assert(back[at] == position);
        assert(all[front.len() + at] == position);
    }
}

/// A sweep misses none of the guard's own orders.
pub proof fn law_sweep_cancels_every_own_order(
    exchange: Seq<char>,
    orders: Seq<OrderRow>,
    i: int,
)
    requires
        0 <= i < orders.len(),
        orders[i].cli_order_id is Some,
        owned(exchange, orders[i].cli_order_id->0@),
    ensures
        own_orders(exchange, orders).contains(orders[i]),
        order_ids(own_orders(exchange, orders)).contains(orders[i].cli_order_id->0@),
{
    let is_own = |order: OrderRow| is_own_order(exchange, order);
    let own = own_orders(exchange, orders);
    assert(is_own(orders[i]));
    orders.lemma_filter_contains(is_own, i);
    let k = choose|k: int| 0 <= k < own.len() && own[k] == orders[i];
    assert forall|j: int| 0 <= j < own.len() implies is_own_order(exchange, #[trigger] own[j]) by {
        orders.lemma_filter_pred(is_own, j);
    }
    lemma_own_ids(exchange, own);
    assert(order_ids(own)[k] == orders[i].cli_order_id->0@);
}

/// An id that is missing, or holds nothing but white space, is none; any other is taken as it is.
pub proof fn law_blank_ids_are_none(id: &str)
    ensures
        usable_id(Some(id)) is None <==> is_blank_text(id@),
        !is_blank_text(id@) ==> usable_id(Some(id)) == Some(id@),
        usable_id(None) is None,
{
}

/// The interval between actions is the configured number of milliseconds in nanoseconds.
pub proof fn law_interval_is_the_configured_one(limits: SafetyLimits)
    ensures
        interval_nanos(limits) == limits.min_action_interval_ms * 1_000_000,
{
}

/// Every position read was reported: it is the snapshot of a row of the exchange whose name it bears.
pub proof fn law_only_reported_positions_are_read(
    slots: Seq<ExchangeSlot>,
    rows: Seq<Vec<PositionRow>>,
    n: nat,
    i: int,
)
    requires
        slots.len() == rows.len(),
        n <= rows.len(),
        0 <= i < all_positions(slots, rows, n).len(),
    ensures
        exists|k: int, j: int|
            0 <= k < n && 0 <= j < rows[k]@.len() && #[trigger] snapshot_of(
                slots[k].name,
                rows[k]@[j],
            ) == Some(all_positions(slots, rows, n)[i]),
    decreases n,
{
    let m = (n - 1) as nat;
    let front = all_positions(slots, rows, m);
    let position = all_positions(slots, rows, n)[i];
    if i < front.len() {
        law_only_reported_positions_are_read(slots, rows, m, i);
        let (k, j) = choose|k: int, j: int|
            0 <= k < m && 0 <= j < rows[k]@.len() && #[trigger] snapshot_of(
                slots[k].name,
                rows[k]@[j],
            ) == Some(front[i]);
        assert(snapshot_of(slots[k].name, rows[k]@[j]) == Some(position));
    } else {
        let name = slots[m as int].name;
        let list = rows[m as int]@;
        law_snapshots_are_well_formed(name, list, i - front.len());
        let j = choose|j: int|
            0 <= j < list.len() && #[trigger] snapshot_of(name, list[j]) == Some(position);
        assert(snapshot_of(slots[m as int].name, rows[m as int]@[j]) == Some(position));
    }
}

/// A refusal names the first thing that is wrong: with a take-profit the price before the instrument, with a close
/// the percentage before the instrument, with a cancellation the missing id before the exchange; the value comes
/// last.
pub proof fn law_refusals_name_the_first_problem(
    executor: GuardExecutor,
    position: PositionSnapshot,
    number: Quote,
    rounded: RoundedSize,
    exchange: Seq<char>,
    order_id: Option<Seq<char>>,
    cli_order_id: Option<Seq<char>>,
)
    ensures
        ({
            let info = instrument_of(executor.slots@, position.exchange@, position.inst@);
            let value = position.exchange@ + " "@ + position.inst@ + ": order notional "@
                + rounded.notional.text@ + " exceeds max_order_notional "@
                + executor.limits.max_order_notional.text@
                + "; raise the limit in guard.toml if intended"@;
            let tp = executor.tp_refusal(position, number, rounded);
            let close = executor.close_refusal(position, number, rounded);
            let priced = number.value.finite() && number.value.units() > 0;
            &&& !priced ==> tp == Some(
                position.exchange@ + " "@ + position.inst@ + ": refusing tp at insane price "@
                    + number.text@,
            )
            &&& priced && info is Err ==> tp == Some(info->Err_0)
            &&& priced && info is Ok && tp is Some ==> tp == Some(value)
            &&& !closes(number.value) ==> close == Some("invalid close pct: "@ + number.text@)
            &&& closes(number.value) && info is Err ==> close == Some(info->Err_0)
            &&& closes(number.value) && info is Ok && close is Some ==> close == Some(value)
        }),
        order_id is None && cli_order_id is None ==> executor.cancel_refusal(
            exchange,
            order_id,
            cli_order_id,
        ) == Some("cancel requires order_id or cli_order_id"@),
        (order_id is Some || cli_order_id is Some) && executor.cancel_refusal(
            exchange,
            order_id,
            cli_order_id,
        ) is Some ==> executor.cancel_refusal(exchange, order_id, cli_order_id) == Some(
            "unknown exchange: "@ + exchange,
        ),
{
    law_sane_prices_are_the_positive_numbers(number.value);
}

}
