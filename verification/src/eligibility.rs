//! Which open orders the outside-range policy may act on: live, unfilled entry
//! orders that carry one complete take-profit and stop-loss bracket.

use crate::number::{law_comparison_is_numeric, law_sign_of_finite_numbers, Float64, Quote};
use crate::text::{decimal, digits, law_decimal_reads_back, same_text};
use vstd::prelude::*;
use vstd::string::*;

verus! {

#[derive(Clone, Copy, Debug, PartialEq, Eq, Structural)]
pub enum InstrumentType {
    Spot,
    Perpetual,
    Futures,
    Options,
    Unknown,
}

/// The exit levels attached to an order.
#[derive(Clone, Debug)]
pub struct BracketInput {
    pub fail_code: Option<String>,
    pub unsupported: bool,
    pub take_profit: Option<Quote>,
    pub stop_loss: Option<Quote>,
}

/// An open order as the venue reports it.
#[derive(Clone, Debug)]
pub struct OrderInput {
    pub inst_type: InstrumentType,
    pub venue_inst: String,
    pub inst: String,
    pub order_id: String,
    pub client_order_id: Option<String>,
    pub side: String,
    pub position_side: Option<String>,
    pub order_type: String,
    pub state: String,
    pub category: Option<String>,
    pub source: Option<String>,
    pub is_tp_limit: Option<bool>,
    pub price: Option<Quote>,
    pub executed_size: Option<Float64>,
    pub reduce_only: Option<bool>,
    pub created_time_us: Option<u64>,
    pub updated_time_us: Option<u64>,
    pub attached: Vec<BracketInput>,
    pub top_level_bracket: BracketInput,
}

#[derive(Clone, Copy, Debug, PartialEq, Eq, Structural)]
pub enum Direction {
    Long,
    Short,
}

#[derive(Clone, Copy, Debug, PartialEq, Eq, Structural)]
pub enum OkxPositionMode {
    Net,
    LongShort,
}

/// The side of its bracket on which the price left an order behind.
#[derive(Clone, Copy, Debug, PartialEq, Eq, Structural)]
pub enum Breach {
    TakeProfit,
    StopLoss,
}

/// An order that the policy may cancel.
#[derive(Debug)]
pub struct GuardOrder {
    pub inst_type: InstrumentType,
    pub venue_inst: String,
    pub inst: String,
    pub order_id: String,
    pub direction: Direction,
    pub entry: Quote,
    pub take_profit: Quote,
    pub stop_loss: Quote,
    pub fingerprint: String,
}

impl Clone for GuardOrder {
    fn clone(&self) -> (r: Self)
        ensures
            r == *self,
    {
        GuardOrder {
            inst_type: self.inst_type,
            venue_inst: self.venue_inst.clone(),
            inst: self.inst.clone(),
            order_id: self.order_id.clone(),
            direction: self.direction,
            entry: self.entry.clone(),
            take_profit: self.take_profit.clone(),
            stop_loss: self.stop_loss.clone(),
            fingerprint: self.fingerprint.clone(),
        }
    }
}

/// A text that may be missing, read as empty where it is.
pub open spec fn text_or_empty(text: Option<String>) -> Seq<char> {
    match text {
        Some(text) => text@,
        None => Seq::empty(),
    }
}

fn str_or_empty(text: &Option<String>) -> (r: &str)
    ensures
        r@ == text_or_empty(*text),
{
    proof {
        reveal_strlit("");
    }
    match text {
        Some(text) => text.as_str(),
        None => {
            assert(""@ =~= Seq::<char>::empty());
            ""
        },
    }
}

/// The bracket that counts: the attached one, or the order's own where none is
/// attached.
pub open spec fn bracket_of(raw: OrderInput) -> BracketInput {
    if raw.attached@.len() == 0 {
        raw.top_level_bracket
    } else {
        raw.attached@[0]
    }
}

/// The direction that an order opens, or why it does not plainly open one.
///
/// In net mode an order on the far side of the net position may reduce or reverse
/// it. In hedge mode the position side tells opening from closing.
pub open spec fn direction_of(
    side: Seq<char>,
    position_side: Seq<char>,
    position_mode: OkxPositionMode,
    net_position: Option<Float64>,
) -> Result<Direction, Seq<char>> {
    match position_mode {
        OkxPositionMode::Net => if net_position is None || !net_position->0.finite() {
            Err("net_position_context_missing"@)
        } else if position_side.len() != 0 && position_side != "net"@ {
            Err("unexpected_position_side_for_net_mode"@)
        } else if side == "sell"@ && (Float64 { bits: 0 }).less(net_position->0) {
            Err("net_order_may_reduce_or_reverse_long"@)
        } else if side == "buy"@ && net_position->0.less(Float64 { bits: 0 }) {
            Err("net_order_may_reduce_or_reverse_short"@)
        } else if side == "buy"@ {
            Ok(Direction::Long)
        } else if side == "sell"@ {
            Ok(Direction::Short)
        } else {
            Err("unsupported_side"@)
        },
        OkxPositionMode::LongShort => if side == "buy"@ && position_side == "long"@ {
            Ok(Direction::Long)
        } else if side == "sell"@ && position_side == "short"@ {
            Ok(Direction::Short)
        } else if (side == "sell"@ && position_side == "long"@) || (side == "buy"@ && position_side
            == "short"@) {
            Err("hedge_mode_close_order"@)
        } else {
            Err("ambiguous_hedge_mode_order"@)
        },
    }
}

/// Whether the entry lies strictly between the exits, profit on the order's side.
pub open spec fn valid_geometry(
    direction: Direction,
    entry: Float64,
    take_profit: Float64,
    stop_loss: Float64,
) -> bool {
    match direction {
        Direction::Long => stop_loss.less(entry) && entry.less(take_profit),
        Direction::Short => take_profit.less(entry) && entry.less(stop_loss),
    }
}

/// The first rule that an order breaks, in the order in which the rules are tried.
pub open spec fn rejection(
    raw: OrderInput,
    position_mode: OkxPositionMode,
    net_position: Option<Float64>,
) -> Option<Seq<char>> {
    let bracket = bracket_of(raw);
    let direction = direction_of(
        raw.side@,
        text_or_empty(raw.position_side),
        position_mode,
        net_position,
    );
    if raw.inst_type != InstrumentType::Perpetual && raw.inst_type != InstrumentType::Futures {
        Some("unsupported_instrument_type"@)
    } else if raw.state@ != "live"@ || (raw.order_type@ != "limit"@ && raw.order_type@
        != "post_only"@) {
        Some("not_a_live_limit_order"@)
    } else if raw.reduce_only != Some(false) || raw.is_tp_limit != Some(false) {
        Some("not_an_entry_parent"@)
    } else if raw.executed_size is None || !raw.executed_size->0.equal(Float64 { bits: 0 }) {
        Some("order_has_fills_or_unknown_fill_size"@)
    } else if (text_or_empty(raw.category).len() != 0 && text_or_empty(raw.category) != "normal"@)
        || text_or_empty(raw.source).len() != 0 {
        Some("nonstandard_order"@)
    } else if raw.price is None {
        Some("missing_entry_price"@)
    } else if raw.attached@.len() > 1 {
        Some("split_attached_orders_not_supported"@)
    } else if text_or_empty(bracket.fail_code).len() != 0 && text_or_empty(bracket.fail_code)
        != "0"@ {
        Some("attached_order_failed"@)
    } else if bracket.unsupported {
        Some("dynamic_bracket_not_supported"@)
    } else if bracket.take_profit is None {
        Some("missing_take_profit"@)
    } else if bracket.stop_loss is None {
        Some("missing_stop_loss"@)
    } else if direction is Err {
        Some(direction->Err_0)
    } else if !valid_geometry(
        direction->Ok_0,
        raw.price->0.value,
        bracket.take_profit->0.value,
        bracket.stop_loss->0.value,
    ) {
        Some("invalid_bracket_geometry"@)
    } else if raw.order_id@.len() == 0 {
        Some("missing_order_id"@)
    } else {
        None
    }
}

/// What identifies one state of one order: any edit of the order changes one of
/// these parts.
pub open spec fn fingerprint_of(raw: OrderInput) -> Seq<char> {
    let created: u64 = if raw.created_time_us is Some {
        raw.created_time_us->0
    } else {
        0
    };
    let updated: u64 = if raw.updated_time_us is Some {
        raw.updated_time_us->0
    } else {
        0
    };
    raw.inst@ + "|"@ + raw.order_id@ + "|"@ + text_or_empty(raw.client_order_id) + "|"@ + raw.side@
        + "|"@ + raw.price->0.text@ + "|"@ + bracket_of(raw).take_profit->0.text@ + "|"@
        + bracket_of(raw).stop_loss->0.text@ + "|"@ + digits(created as nat, 10) + "|"@ + digits(
        updated as nat,
        10,
    )
}

fn order_direction(
    raw: &OrderInput,
    position_mode: OkxPositionMode,
    net_position: Option<Float64>,
) -> (r: Result<Direction, &'static str>)
    ensures
        match r {
            Ok(direction) => direction_of(
                raw.side@,
                text_or_empty(raw.position_side),
                position_mode,
                net_position,
            ) == Ok::<Direction, Seq<char>>(direction),
            Err(reason) => direction_of(
                raw.side@,
                text_or_empty(raw.position_side),
                position_mode,
                net_position,
            ) == Err::<Direction, Seq<char>>(reason@),
        },
{
    let position_side: &str = str_or_empty(&raw.position_side);
    let buy: bool = same_text(raw.side.as_str(), "buy");
    let sell: bool = same_text(raw.side.as_str(), "sell");
    let zero: Float64 = Float64 { bits: 0 };
    proof {
        reveal_strlit("buy");
        reveal_strlit("sell");
        reveal_strlit("long");
        reveal_strlit("short");
    }
    match position_mode {
        OkxPositionMode::Net => {
            let net: Float64 = match net_position {
                Some(net) => net,
                None => return Err("net_position_context_missing"),
            };
            if !net.is_finite() {
                return Err("net_position_context_missing");
            }
            if !position_side.is_empty() && !same_text(position_side, "net") {
                return Err("unexpected_position_side_for_net_mode");
            }
            if sell && zero.lt(net) {
                Err("net_order_may_reduce_or_reverse_long")
            } else if buy && net.lt(zero) {
                Err("net_order_may_reduce_or_reverse_short")
            } else if buy {
                Ok(Direction::Long)
            } else if sell {
                Ok(Direction::Short)
            } else {
                Err("unsupported_side")
            }
        },
        OkxPositionMode::LongShort => {
            let long: bool = same_text(position_side, "long");
            let short: bool = same_text(position_side, "short");
            if buy && long {
                Ok(Direction::Long)
            } else if sell && short {
                Ok(Direction::Short)
            } else if (sell && long) || (buy && short) {
                Err("hedge_mode_close_order")
            } else {
                Err("ambiguous_hedge_mode_order")
            }
        },
    }
}

fn order_fingerprint(
    raw: &OrderInput,
    entry: &Quote,
    take_profit: &Quote,
    stop_loss: &Quote,
) -> (r: String)
    requires
        raw.price == Some(*entry),
        bracket_of(*raw).take_profit == Some(*take_profit),
        bracket_of(*raw).stop_loss == Some(*stop_loss),
    ensures
        r@ == fingerprint_of(*raw),
{
    let created: u64 = match raw.created_time_us {
        Some(time) => time,
        None => 0,
    };
    let updated: u64 = match raw.updated_time_us {
        Some(time) => time,
        None => 0,
    };
    let mut r: String = raw.inst.clone();
    r.append("|");
    r.append(raw.order_id.as_str());
    r.append("|");
    r.append(str_or_empty(&raw.client_order_id));
    r.append("|");
    r.append(raw.side.as_str());
    r.append("|");
    r.append(entry.text.as_str());
    r.append("|");
    r.append(take_profit.text.as_str());
    r.append("|");
    r.append(stop_loss.text.as_str());
    r.append("|");
    r.append(decimal(created).as_str());
    r.append("|");
    r.append(decimal(updated).as_str());
    r
}

/// The guarded form of an order, or why the policy leaves the order alone.
pub fn guard_order(
    raw: &OrderInput,
    position_mode: OkxPositionMode,
    net_position: Option<Float64>,
) -> (r: Result<GuardOrder, &'static str>)
    ensures
        match r {
            Ok(order) => {
                &&& rejection(*raw, position_mode, net_position) is None
                &&& order.inst_type == raw.inst_type
                &&& order.venue_inst == raw.venue_inst
                &&& order.inst == raw.inst
                &&& order.order_id == raw.order_id
                &&& Ok::<Direction, Seq<char>>(order.direction) == direction_of(
                    raw.side@,
                    text_or_empty(raw.position_side),
                    position_mode,
                    net_position,
                )
                &&& Some(order.entry) == raw.price
                &&& Some(order.take_profit) == bracket_of(*raw).take_profit
                &&& Some(order.stop_loss) == bracket_of(*raw).stop_loss
                &&& order.fingerprint@ == fingerprint_of(*raw)
            },
            Err(reason) => rejection(*raw, position_mode, net_position) == Some(reason@),
        },
{
    match raw.inst_type {
        InstrumentType::Perpetual | InstrumentType::Futures => {},
        _ => return Err("unsupported_instrument_type"),
    }
    if !same_text(raw.state.as_str(), "live") || (!same_text(raw.order_type.as_str(), "limit")
        && !same_text(raw.order_type.as_str(), "post_only")) {
        return Err("not_a_live_limit_order");
    }
    match (raw.reduce_only, raw.is_tp_limit) {
        (Some(false), Some(false)) => {},
        _ => return Err("not_an_entry_parent"),
    }
    match raw.executed_size {
        Some(size) => if !size.eq(Float64 { bits: 0 }) {
            return Err("order_has_fills_or_unknown_fill_size");
        },
        None => return Err("order_has_fills_or_unknown_fill_size"),
    }
    let category: &str = str_or_empty(&raw.category);
    if (!category.is_empty() && !same_text(category, "normal")) || !str_or_empty(
        &raw.source,
    ).is_empty() {
        return Err("nonstandard_order");
    }
    let entry: &Quote = match &raw.price {
        Some(price) => price,
        None => return Err("missing_entry_price"),
    };
    if raw.attached.len() > 1 {
        return Err("split_attached_orders_not_supported");
    }
    let bracket: &BracketInput = if raw.attached.len() == 0 {
        &raw.top_level_bracket
    } else {
        &raw.attached[0]
    };
    assert(*bracket == bracket_of(*raw));
    let fail_code: &str = str_or_empty(&bracket.fail_code);
    if !fail_code.is_empty() && !same_text(fail_code, "0") {
        return Err("attached_order_failed");
    }
    if bracket.unsupported {
        return Err("dynamic_bracket_not_supported");
    }
    let take_profit: &Quote = match &bracket.take_profit {
        Some(price) => price,
        None => return Err("missing_take_profit"),
    };
    let stop_loss: &Quote = match &bracket.stop_loss {
        Some(price) => price,
        None => return Err("missing_stop_loss"),
    };
    let direction: Direction = match order_direction(raw, position_mode, net_position) {
        Ok(direction) => direction,
        Err(reason) => return Err(reason),
    };
    let valid: bool = match direction {
        Direction::Long => stop_loss.value.lt(entry.value) && entry.value.lt(take_profit.value),
        Direction::Short => take_profit.value.lt(entry.value) && entry.value.lt(stop_loss.value),
    };
    if !valid {
        return Err("invalid_bracket_geometry");
    }
    if raw.order_id.as_str().is_empty() {
        return Err("missing_order_id");
    }
    Ok(
        GuardOrder {
            inst_type: raw.inst_type,
            venue_inst: raw.venue_inst.clone(),
            inst: raw.inst.clone(),
            order_id: raw.order_id.clone(),
            direction,
            entry: entry.clone(),
            take_profit: take_profit.clone(),
            stop_loss: stop_loss.clone(),
            fingerprint: order_fingerprint(raw, entry, take_profit, stop_loss),
        },
    )
}

/// The exit level that a price has crossed, if any. Touching a level is not crossing
/// it.
pub open spec fn breach_of(order: GuardOrder, last: Float64) -> Option<Breach> {
    let (tp, sl) = (order.take_profit.value, order.stop_loss.value);
    match order.direction {
        Direction::Long => if tp.less(last) {
            Some(Breach::TakeProfit)
        } else if last.less(sl) {
            Some(Breach::StopLoss)
        } else {
            None
        },
        Direction::Short => if last.less(tp) {
            Some(Breach::TakeProfit)
        } else if sl.less(last) {
            Some(Breach::StopLoss)
        } else {
            None
        },
    }
}

pub fn breach(order: &GuardOrder, last: Float64) -> (r: Option<Breach>)
    ensures
        r == breach_of(*order, last),
{
    let tp: Float64 = order.take_profit.value;
    let sl: Float64 = order.stop_loss.value;
    match order.direction {
        Direction::Long => if tp.lt(last) {
            Some(Breach::TakeProfit)
        } else if last.lt(sl) {
            Some(Breach::StopLoss)
        } else {
            None
        },
        Direction::Short => if last.lt(tp) {
            Some(Breach::TakeProfit)
        } else if sl.lt(last) {
            Some(Breach::StopLoss)
        } else {
            None
        },
    }
}

/// What the policy accepts is a live, unfilled entry order for a derivative, with one
/// complete static bracket around its entry price.
pub proof fn law_accepts_only_bracketed_zero_fill_entries(
    raw: OrderInput,
    position_mode: OkxPositionMode,
    net_position: Option<Float64>,
)
    requires
        rejection(raw, position_mode, net_position) is None,
    ensures
        raw.inst_type == InstrumentType::Perpetual || raw.inst_type == InstrumentType::Futures,
        raw.state@ == "live"@,
        raw.reduce_only == Some(false),
        raw.executed_size is Some,
        raw.executed_size->0.equal(Float64 { bits: 0 }),
        raw.attached@.len() <= 1,
        !bracket_of(raw).unsupported,
        raw.price is Some,
        bracket_of(raw).take_profit is Some,
        bracket_of(raw).stop_loss is Some,
        raw.order_id@.len() > 0,
        ({
            let entry = raw.price->0.value;
            let tp = bracket_of(raw).take_profit->0.value;
            let sl = bracket_of(raw).stop_loss->0.value;
            (sl.less(entry) && entry.less(tp)) || (tp.less(entry) && entry.less(sl))
        }),
{
}

/// In net mode no accepted order faces the net position: a sell never meets a long
/// one, a buy never a short one.
pub proof fn law_net_mode_never_reduces(raw: OrderInput, net_position: Option<Float64>)
    requires
        rejection(raw, OkxPositionMode::Net, net_position) is None,
    ensures
        net_position is Some,
        net_position->0.finite(),
        raw.side@ == "sell"@ ==> net_position->0.at_most(Float64 { bits: 0 }),
        raw.side@ == "buy"@ ==> (Float64 { bits: 0 }).at_most(net_position->0),
{
}

/// In hedge mode only the two opening pairs of side and position side are accepted.
pub proof fn law_hedge_mode_accepts_only_openings(
    raw: OrderInput,
    net_position: Option<Float64>,
)
    requires
        rejection(raw, OkxPositionMode::LongShort, net_position) is None,
    ensures
        (raw.side@ == "buy"@ && text_or_empty(raw.position_side) == "long"@) || (raw.side@
            == "sell"@ && text_or_empty(raw.position_side) == "short"@),
{
}

/// On an order with valid geometry a price breaches exactly when it lies strictly
/// outside the bracket, and it never breaches both exits.
pub proof fn law_breach_is_strictly_outside(order: GuardOrder, last: Float64)
    requires
        valid_geometry(
            order.direction,
            order.entry.value,
            order.take_profit.value,
            order.stop_loss.value,
        ),
    ensures
        order.direction == Direction::Long ==> {
            &&& breach_of(order, last) == Some(Breach::TakeProfit)
                <==> order.take_profit.value.less(last)
            &&& breach_of(order, last) == Some(Breach::StopLoss)
                <==> last.less(order.stop_loss.value)
        },
        order.direction == Direction::Short ==> {
            &&& breach_of(order, last) == Some(Breach::TakeProfit)
                <==> last.less(order.take_profit.value)
            &&& breach_of(order, last) == Some(Breach::StopLoss)
                <==> order.stop_loss.value.less(last)
        },
        breach_of(order, order.entry.value) is None,
        breach_of(order, order.take_profit.value) is None,
        breach_of(order, order.stop_loss.value) is None,
{
}

/// Which orders are accepted, all of them and no others: live, unfilled limit or post-only entry
/// orders for a perpetual or a future, of a plain kind, that carry an id, a price and at most one
/// attached bracket, whose bracket has not failed, is static and has both exits, and that open a
/// position in their position mode with the entry strictly between the exits, profit on the side
/// of the order.
pub proof fn law_eligibility_is_exact(
    raw: OrderInput,
    position_mode: OkxPositionMode,
    net_position: Option<Float64>,
)
    ensures
        rejection(raw, position_mode, net_position) is None <==> {
            let bracket = if raw.attached@.len() == 0 {
                raw.top_level_bracket
            } else {
                raw.attached@[0]
            };
            let entry = raw.price->0.value;
            let tp = bracket.take_profit->0.value;
            let sl = bracket.stop_loss->0.value;
            let (buys, sells) = (raw.side@ == "buy"@, raw.side@ == "sell"@);
            &&& raw.inst_type == InstrumentType::Perpetual || raw.inst_type
                == InstrumentType::Futures
            &&& raw.state@ == "live"@
            &&& raw.order_type@ == "limit"@ || raw.order_type@ == "post_only"@
            &&& raw.reduce_only == Some(false)
            &&& raw.is_tp_limit == Some(false)
            &&& raw.executed_size is Some
            &&& raw.executed_size->0.finite() && raw.executed_size->0.units() == 0
            &&& raw.category is None || raw.category->0@.len() == 0 || raw.category->0@
                == "normal"@
            &&& raw.source is None || raw.source->0@.len() == 0
            &&& raw.price is Some
            &&& raw.attached@.len() <= 1
            &&& bracket.fail_code is None || bracket.fail_code->0@.len() == 0
                || bracket.fail_code->0@ == "0"@
            &&& !bracket.unsupported
            &&& bracket.take_profit is Some
            &&& bracket.stop_loss is Some
            &&& buys || sells
            &&& buys ==> sl.less(entry) && entry.less(tp)
            &&& sells ==> tp.less(entry) && entry.less(sl)
            &&& raw.order_id@.len() > 0
            &&& match position_mode {
                OkxPositionMode::Net => {
                    &&& net_position is Some
                    &&& net_position->0.finite()
                    &&& raw.position_side is None || raw.position_side->0@.len() == 0
                        || raw.position_side->0@ == "net"@
                    &&& buys ==> net_position->0.units() >= 0
                    &&& sells ==> net_position->0.units() <= 0
                },
                OkxPositionMode::LongShort => {
                    &&& raw.position_side is Some
                    &&& buys ==> raw.position_side->0@ == "long"@
                    &&& sells ==> raw.position_side->0@ == "short"@
                },
            }
        },
{
    reveal_strlit("buy");
    reveal_strlit("sell");
    reveal_strlit("long");
    reveal_strlit("short");
    if raw.executed_size is Some {
        if raw.executed_size->0.finite() {
            law_sign_of_finite_numbers(raw.executed_size->0);
        }
    }
    if net_position is Some {
        if net_position->0.finite() {
            law_sign_of_finite_numbers(net_position->0);
        }
    }
    assert("buy"@.len() == 3 && "sell"@.len() == 4);
    assert("long"@.len() == 4 && "short"@.len() == 5);
}

/// A buy opens a long position and a sell a short one; nothing else opens either.
pub proof fn law_side_gives_the_direction(
    side: Seq<char>,
    position_side: Seq<char>,
    position_mode: OkxPositionMode,
    net_position: Option<Float64>,
)
    ensures
        direction_of(side, position_side, position_mode, net_position) == Ok::<
            Direction,
            Seq<char>,
        >(Direction::Long) ==> side == "buy"@,
        direction_of(side, position_side, position_mode, net_position) == Ok::<
            Direction,
            Seq<char>,
        >(Direction::Short) ==> side == "sell"@,
        position_mode == OkxPositionMode::LongShort ==> direction_of(
            side,
            position_side,
            position_mode,
            net_position,
        ) == direction_of(side, position_side, position_mode, None),
{
}

/// On finite prices a long order is left behind by a price above its take-profit or below its
/// stop-loss, a short order by one below its take-profit or above its stop-loss, and by no other.
pub proof fn law_breach_by_value(order: GuardOrder, last: Float64)
    requires
        last.finite(),
        order.take_profit.value.finite(),
        order.stop_loss.value.finite(),
        order.direction == Direction::Long ==> order.stop_loss.value.units()
            < order.take_profit.value.units(),
        order.direction == Direction::Short ==> order.take_profit.value.units()
            < order.stop_loss.value.units(),
    ensures
        ({
            let (price, tp, sl) = (
                last.units(),
                order.take_profit.value.units(),
                order.stop_loss.value.units(),
            );
            let is_long = order.direction == Direction::Long;
            &&& breach_of(order, last) == Some(Breach::TakeProfit) <==> if is_long {
                price > tp
            } else {
                price < tp
            }
            &&& breach_of(order, last) == Some(Breach::StopLoss) <==> if is_long {
                price < sl
            } else {
                price > sl
            }
        }),
{
    law_comparison_is_numeric(last, order.take_profit.value);
    law_comparison_is_numeric(order.take_profit.value, last);
    law_comparison_is_numeric(last, order.stop_loss.value);
    law_comparison_is_numeric(order.stop_loss.value, last);
}

proof fn lemma_middle_differs(
    front: Seq<char>,
    a: Seq<char>,
    b: Seq<char>,
    back: Seq<char>,
)
    requires
        front + a + back == front + b + back,
    ensures
        a == b,
{
    assert((front + a + back).len() == front.len() + a.len() + back.len());
    assert((front + b + back).len() == front.len() + b.len() + back.len());
    let n = front.len() as int;
    assert(a =~= (front + a + back).subrange(n, n + a.len()));
    assert(b =~= (front + b + back).subrange(n, n + b.len()));
}

/// Whether two inputs have the same parts in their fingerprint but for the one at place `but`.
pub open spec fn same_parts_but(a: OrderInput, b: OrderInput, but: int) -> bool {
    &&& but == 0 || a.inst@ == b.inst@
    &&& but == 1 || a.order_id@ == b.order_id@
    &&& but == 2 || text_or_empty(a.client_order_id) == text_or_empty(b.client_order_id)
    &&& but == 3 || a.side@ == b.side@
    &&& but == 4 || a.price->0.text@ == b.price->0.text@
    &&& but == 5 || bracket_of(a).take_profit->0.text@ == bracket_of(b).take_profit->0.text@
    &&& but == 6 || bracket_of(a).stop_loss->0.text@ == bracket_of(b).stop_loss->0.text@
    &&& but == 7 || a.created_time_us == b.created_time_us
    &&& but == 8 || a.updated_time_us == b.updated_time_us
}

/// An edit of an order shows in its fingerprint: where two states of an order differ in one of
/// the nine parts only, their fingerprints differ; where they differ in none, they do not.
pub proof fn law_edit_changes_the_fingerprint(a: OrderInput, b: OrderInput, but: int)
    requires
        same_parts_but(a, b, but),
    ensures
        fingerprint_of(a) == fingerprint_of(b) ==> {
            &&& a.inst@ == b.inst@
            &&& a.order_id@ == b.order_id@
            &&& text_or_empty(a.client_order_id) == text_or_empty(b.client_order_id)
            &&& a.side@ == b.side@
            &&& a.price->0.text@ == b.price->0.text@
            &&& bracket_of(a).take_profit->0.text@ == bracket_of(b).take_profit->0.text@
            &&& bracket_of(a).stop_loss->0.text@ == bracket_of(b).stop_loss->0.text@
            &&& (a.created_time_us is Some && b.created_time_us is Some ==> a.created_time_us
                == b.created_time_us)
            &&& (a.updated_time_us is Some && b.updated_time_us is Some ==> a.updated_time_us
                == b.updated_time_us)
        },
        !(0 <= but <= 8) ==> fingerprint_of(a) == fingerprint_of(b),
{
    if fingerprint_of(a) == fingerprint_of(b) && 0 <= but <= 8 {
        let bar = "|"@;
        let stamp = |time: Option<u64>| digits(
            (if time is Some {
                time->0
            } else {
                0
            }) as nat,
            10,
        );
        let parts = |raw: OrderInput| seq![
            raw.inst@,
            raw.order_id@,
            text_or_empty(raw.client_order_id),
            raw.side@,
            raw.price->0.text@,
            bracket_of(raw).take_profit->0.text@,
            bracket_of(raw).stop_loss->0.text@,
            stamp(raw.created_time_us),
            stamp(raw.updated_time_us),
        ];
        let (p, q) = (parts(a), parts(b));
        reveal_with_fuel(joined, 9);
        assert(fingerprint_of(a) == joined(p, 9));
        assert(fingerprint_of(b) == joined(q, 9));
        lemma_joined_parts(p, q, 9, but);
        law_decimal_reads_back(if a.created_time_us is Some { a.created_time_us->0 } else { 0 });
        law_decimal_reads_back(if b.created_time_us is Some { b.created_time_us->0 } else { 0 });
        law_decimal_reads_back(if a.updated_time_us is Some { a.updated_time_us->0 } else { 0 });
        law_decimal_reads_back(if b.updated_time_us is Some { b.updated_time_us->0 } else { 0 });
        assert(p[but] == q[but]);
    }
}

/// The first `n` parts with a bar between each two.
spec fn joined(p: Seq<Seq<char>>, n: nat) -> Seq<char>
    decreases n,
{
    if n <= 1 {
        p[0]
    } else {
        joined(p, (n - 1) as nat) + "|"@ + p[n - 1]
    }
}

proof fn lemma_joined_parts(p: Seq<Seq<char>>, q: Seq<Seq<char>>, n: nat, but: int)
    requires
        n >= 1,
        0 <= but < n,
        forall|i: int| 0 <= i < n && i != but ==> #[trigger] p[i] == q[i],
        joined(p, n) == joined(q, n),
    ensures
        p[but] == q[but],
    decreases n,
{
    if n > 1 {
        let m = (n - 1) as nat;
        if but == m {
            lemma_same_joined(p, q, m);
            let front = joined(p, m) + "|"@;
            assert(joined(p, n) =~= front + p[but] + Seq::empty());
            assert(joined(q, n) =~= front + q[but] + Seq::empty());
            lemma_middle_differs(front, p[but], q[but], Seq::empty());
        } else {
            let back = "|"@ + p[n - 1];
            assert(joined(p, n) =~= Seq::<char>::empty() + joined(p, m) + back);
            assert(p[n - 1] == q[n - 1]);
            assert(joined(q, n) =~= Seq::<char>::empty() + joined(q, m) + back);
            lemma_middle_differs(Seq::empty(), joined(p, m), joined(q, m), back);
            lemma_joined_parts(p, q, m, but);
        }
    }
}

proof fn lemma_same_joined(p: Seq<Seq<char>>, q: Seq<Seq<char>>, n: nat)
    requires
        n >= 1,
        forall|i: int| 0 <= i < n ==> #[trigger] p[i] == q[i],
    ensures
        joined(p, n) == joined(q, n),
    decreases n,
{
    assert(p[n - 1] == q[n - 1]);
    if n > 1 {
        lemma_same_joined(p, q, (n - 1) as nat);
    }
}

/// The reason given is that of the first rule that an order breaks: kind, state and type, entry, fills, plain
/// order, price, number of brackets, failed bracket, static bracket, take-profit, stop-loss, opening side,
/// geometry, id.
pub proof fn law_first_broken_rule_is_named(
    raw: OrderInput,
    position_mode: OkxPositionMode,
    net_position: Option<Float64>,
)
    ensures
        ({
            let reason = rejection(raw, position_mode, net_position);
            let bracket = if raw.attached@.len() == 0 {
                raw.top_level_bracket
            } else {
                raw.attached@[0]
            };
            let direction = direction_of(
                raw.side@,
                text_or_empty(raw.position_side),
                position_mode,
                net_position,
            );
            let kind = raw.inst_type == InstrumentType::Perpetual || raw.inst_type
                == InstrumentType::Futures;
            let live = kind && raw.state@ == "live"@ && (raw.order_type@ == "limit"@
                || raw.order_type@ == "post_only"@);
            let parent = live && raw.reduce_only == Some(false) && raw.is_tp_limit == Some(false);
            let unfilled = parent && raw.executed_size is Some && raw.executed_size->0.finite()
                && raw.executed_size->0.units() == 0;
            let plain = unfilled && (raw.category is None || raw.category->0@.len() == 0
                || raw.category->0@ == "normal"@) && (raw.source is None || raw.source->0@.len()
                == 0);
            let priced = plain && raw.price is Some;
            let single = priced && raw.attached@.len() <= 1;
            let placed = single && (bracket.fail_code is None || bracket.fail_code->0@.len() == 0
                || bracket.fail_code->0@ == "0"@);
            let fixed = placed && !bracket.unsupported;
            let has_tp = fixed && bracket.take_profit is Some;
            let has_sl = has_tp && bracket.stop_loss is Some;
            &&& !kind ==> reason == Some("unsupported_instrument_type"@)
            &&& kind && !live ==> reason == Some("not_a_live_limit_order"@)
            &&& live && !parent ==> reason == Some("not_an_entry_parent"@)
            &&& parent && !unfilled ==> reason == Some("order_has_fills_or_unknown_fill_size"@)
            &&& unfilled && !plain ==> reason == Some("nonstandard_order"@)
            &&& plain && !priced ==> reason == Some("missing_entry_price"@)
            &&& priced && !single ==> reason == Some("split_attached_orders_not_supported"@)
            &&& single && !placed ==> reason == Some("attached_order_failed"@)
            &&& placed && !fixed ==> reason == Some("dynamic_bracket_not_supported"@)
            &&& fixed && !has_tp ==> reason == Some("missing_take_profit"@)
            &&& has_tp && !has_sl ==> reason == Some("missing_stop_loss"@)
            &&& has_sl && direction is Err ==> reason == Some(direction->Err_0)
            &&& has_sl && direction is Ok ==> reason is None || reason == Some(
                "invalid_bracket_geometry"@,
            ) || (reason == Some("missing_order_id"@) && raw.order_id@.len() == 0)
        }),
{
    if raw.executed_size is Some {
        if raw.executed_size->0.finite() {
            law_sign_of_finite_numbers(raw.executed_size->0);
        }
    }
}

/// Why an order does not plainly open a position. In net mode: the net position is unknown; else a position side
/// other than net is given; else a sell faces a long or a buy a short net position; else the side is neither. In
/// hedge mode: it closes; else it is ambiguous.
pub proof fn law_sides_that_open_nothing(
    side: Seq<char>,
    position_side: Seq<char>,
    net_position: Option<Float64>,
)
    ensures
        ({
            let net = direction_of(side, position_side, OkxPositionMode::Net, net_position);
            let hedge = direction_of(side, position_side, OkxPositionMode::LongShort, net_position);
            let known = net_position is Some && net_position->0.finite();
            let sided = position_side.len() == 0 || position_side == "net"@;
            let units = net_position->0.units();
            let (buys, sells) = (side == "buy"@, side == "sell"@);
            let (long, short) = (position_side == "long"@, position_side == "short"@);
            &&& !known ==> net == Err::<Direction, Seq<char>>("net_position_context_missing"@)
            &&& known && !sided ==> net == Err::<Direction, Seq<char>>(
                "unexpected_position_side_for_net_mode"@,
            )
            &&& known && sided && sells && units > 0 ==> net == Err::<Direction, Seq<char>>(
                "net_order_may_reduce_or_reverse_long"@,
            )
            &&& known && sided && buys && units < 0 ==> net == Err::<Direction, Seq<char>>(
                "net_order_may_reduce_or_reverse_short"@,
            )
            &&& known && sided && buys && units >= 0 ==> net == Ok::<Direction, Seq<char>>(
                Direction::Long,
            )
            &&& known && sided && sells && units <= 0 ==> net == Ok::<Direction, Seq<char>>(
                Direction::Short,
            )
            &&& known && sided && !buys && !sells ==> net == Err::<Direction, Seq<char>>(
                "unsupported_side"@,
            )
            &&& buys && long ==> hedge == Ok::<Direction, Seq<char>>(Direction::Long)
            &&& sells && short ==> hedge == Ok::<Direction, Seq<char>>(Direction::Short)
            &&& (sells && long) || (buys && short) ==> hedge == Err::<Direction, Seq<char>>(
                "hedge_mode_close_order"@,
            )
            &&& !((buys || sells) && (long || short)) ==> hedge == Err::<Direction, Seq<char>>(
                "ambiguous_hedge_mode_order"@,
            )
        }),
{
    reveal_strlit("buy");
    reveal_strlit("sell");
    reveal_strlit("long");
    reveal_strlit("short");
    assert("buy"@.len() == 3 && "sell"@.len() == 4);
    assert("long"@.len() == 4 && "short"@.len() == 5);
    if net_position is Some {
        if net_position->0.finite() {
            law_sign_of_finite_numbers(net_position->0);
        }
    }
}

}
