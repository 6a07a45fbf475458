//! Open orders as OKX reports them, and those of them that the outside-range policy may
//! act on.

use crate::eligibility::{
    bracket_of, direction_of, fingerprint_of, guard_order, law_side_gives_the_direction, rejection,
    text_or_empty, BracketInput, Direction, GuardOrder, InstrumentType, OkxPositionMode, OrderInput,
};
use crate::error::GuardError;
use crate::number::{
    law_absolute_values, law_sign_of_finite_numbers, number, Float64, Quote,
};
use crate::positions::{signed_size, PositionRow, PositionSide};
use crate::text::{
    digits, is_digit_run, law_decimal_reads_back, parse_unsigned, same_text, unsigned_value,
};
use vstd::prelude::*;
use vstd::string::*;

verus! {

/// How many open orders one page holds at most.
pub const PAGE_LIMIT: usize = 100;

/// A flag that OKX sends as a truth value or as a text.
#[derive(Debug)]
pub enum RawFlag {
    Truth(bool),
    Text(String),
    Other,
}

/// The exit levels attached to an order, as reported. A price that is no number is none.
#[derive(Debug)]
pub struct RawBracket {
    pub fail_code: Option<String>,
    pub active_px: Option<String>,
    pub callback_ratio: Option<String>,
    pub callback_spread: Option<String>,
    pub tp_trigger_ratio: Option<String>,
    pub sl_trigger_ratio: Option<String>,
    pub tp_trigger_px: Option<Quote>,
    pub tp_ord_px: Option<Quote>,
    pub sl_trigger_px: Option<Quote>,
}

/// An open order as reported. A price or size that is no number is none.
#[derive(Debug)]
pub struct RawOrder {
    pub inst_type: Option<String>,
    pub inst_id: String,
    pub ord_id: String,
    pub cl_ord_id: Option<String>,
    pub side: String,
    pub pos_side: Option<String>,
    pub ord_type: String,
    pub state: String,
    pub category: Option<String>,
    pub source: Option<String>,
    pub is_tp_limit: Option<String>,
    pub px: Option<Quote>,
    pub acc_fill_sz: Option<Quote>,
    pub reduce_only: Option<RawFlag>,
    pub c_time: Option<String>,
    pub u_time: Option<String>,
    pub attach_algo_ords: Vec<RawBracket>,
    pub tp_trigger_px: Option<Quote>,
    pub tp_ord_px: Option<Quote>,
    pub sl_trigger_px: Option<Quote>,
}

/// The parts of a text between the occurrences of a character.
pub open spec fn split_on(text: Seq<char>, mark: char) -> Seq<Seq<char>>
    decreases text.len(),
{
    if text.len() == 0 {
        seq![Seq::<char>::empty()]
    } else {
        let parts = split_on(text.drop_last(), mark);
        if text.last() == mark {
            parts.push(Seq::empty())
        } else {
            parts.drop_last().push(parts.last().push(text.last()))
        }
    }
}

/// The instrument name that stands for an OKX instrument id: `BTC_USDT_PERP` for
/// `BTC-USDT-SWAP`, `BTC_USDT_FUT_260327` for `BTC-USDT-260327`, `BTC_USDT` for `BTC-USDT`.
/// Any other id stands for itself.
pub open spec fn inst_name(id: Seq<char>) -> Seq<char> {
    let parts = split_on(id, '-');
    if parts.len() == 3 && parts[2] == "SWAP"@ {
        parts[0] + "_"@ + parts[1] + "_PERP"@
    } else if parts.len() == 3 && parts[2].len() == 6 && is_digit_run(parts[2]) {
        parts[0] + "_"@ + parts[1] + "_FUT_"@ + parts[2]
    } else if parts.len() == 2 {
        parts[0] + "_"@ + parts[1]
    } else {
        id
    }
}

/// Calls `extrema_infra`'s `okx_inst_to_cli`. Claims that the result is [`inst_name`] of the
/// id: the id is split at its dashes; a third part `SWAP` becomes `PERP`, one of six digits
/// is kept behind `FUT`, two parts are joined, and every other id comes back as it is.
#[verifier::external_body]
fn cli_inst(id: &str) -> (r: String)
    ensures
        r@ == inst_name(id@),
{
    extrema_infra::arch::market_assets::exchange::prelude::okx_inst_to_cli(id)
}

/// The kind of instrument that OKX's word stands for.
pub open spec fn inst_kind(word: Option<String>) -> InstrumentType {
    match word {
        Some(word) => if word@ == "SWAP"@ {
            InstrumentType::Perpetual
        } else if word@ == "FUTURES"@ {
            InstrumentType::Futures
        } else {
            InstrumentType::Unknown
        },
        None => InstrumentType::Unknown,
    }
}

fn inst_kind_of(word: &Option<String>) -> (r: InstrumentType)
    ensures
        r == inst_kind(*word),
{
    match word {
        Some(word) => if same_text(word.as_str(), "SWAP") {
            InstrumentType::Perpetual
        } else if same_text(word.as_str(), "FUTURES") {
            InstrumentType::Futures
        } else {
            InstrumentType::Unknown
        },
        None => InstrumentType::Unknown,
    }
}

/// The truth value that a text denotes.
pub open spec fn bool_value(text: Seq<char>) -> Option<bool> {
    if text == "true"@ || text == "1"@ {
        Some(true)
    } else if text == "false"@ || text == "0"@ {
        Some(false)
    } else {
        None
    }
}

pub fn parse_bool(raw: &str) -> (r: Option<bool>)
    ensures
        r == bool_value(raw@),
{
    if same_text(raw, "true") || same_text(raw, "1") {
        Some(true)
    } else if same_text(raw, "false") || same_text(raw, "0") {
        Some(false)
    } else {
        None
    }
}

/// The truth value of a text, none where there is no text.
pub open spec fn text_flag(text: Option<String>) -> Option<bool> {
    match text {
        Some(text) => bool_value(text@),
        None => None,
    }
}

/// The truth value of a flag.
pub open spec fn flag_value(flag: Option<RawFlag>) -> Option<bool> {
    match flag {
        Some(RawFlag::Truth(truth)) => Some(truth),
        Some(RawFlag::Text(text)) => bool_value(text@),
        Some(RawFlag::Other) | None => None,
    }
}

/// A number that is finite and above zero.
pub open spec fn positive(x: Float64) -> bool {
    x.finite() && number(0).less(x)
}

/// A number that is finite and not below zero.
pub open spec fn non_negative(x: Float64) -> bool {
    x.finite() && number(0).at_most(x)
}

/// A quote, where it is positive.
pub open spec fn positive_quote(raw: Option<Quote>) -> Option<Quote> {
    if raw is Some && positive(raw->0.value) {
        raw
    } else {
        None
    }
}

/// A quote, where it is not negative.
pub open spec fn non_negative_quote(raw: Option<Quote>) -> Option<Quote> {
    if raw is Some && non_negative(raw->0.value) {
        raw
    } else {
        None
    }
}

pub fn parse_positive(raw: Option<Quote>) -> (r: Option<Quote>)
    ensures
        r == positive_quote(raw),
{
    match raw {
        Some(quote) => if quote.value.is_finite() && (Float64 { bits: 0 }).lt(quote.value) {
            Some(quote)
        } else {
            None
        },
        None => None,
    }
}

pub fn parse_non_negative(raw: Option<Quote>) -> (r: Option<Quote>)
    ensures
        r == non_negative_quote(raw),
{
    match raw {
        Some(quote) => if quote.value.is_finite() && (Float64 { bits: 0 }).le(quote.value) {
            Some(quote)
        } else {
            None
        },
        None => None,
    }
}

/// The first quote that is positive.
pub open spec fn first_positive(a: Option<Quote>, b: Option<Quote>) -> Option<Quote> {
    if positive_quote(a) is Some {
        positive_quote(a)
    } else {
        positive_quote(b)
    }
}

fn first_positive_of(a: Option<Quote>, b: Option<Quote>) -> (r: Option<Quote>)
    ensures
        r == first_positive(a, b),
{
    match parse_positive(a) {
        Some(quote) => Some(quote),
        None => parse_positive(b),
    }
}

/// The microseconds of a time given in milliseconds.
pub open spec fn millis_value(text: Option<String>) -> Option<u64> {
    match text {
        Some(text) => match unsigned_value(text@) {
            Some(millis) => if millis * 1_000 <= u64::MAX {
                Some((millis * 1_000) as u64)
            } else {
                None
            },
            None => None,
        },
        None => None,
    }
}

pub fn parse_millis(raw: &Option<String>) -> (r: Option<u64>)
    ensures
        r == millis_value(*raw),
{
    match raw {
        Some(text) => match parse_unsigned(text.as_str()) {
            Some(millis) => millis.checked_mul(1_000),
            None => None,
        },
        None => None,
    }
}

fn is_given(text: &Option<String>) -> (r: bool)
    ensures
        r == (text_or_empty(*text).len() > 0),
{
    match text {
        Some(text) => text.as_str().unicode_len() > 0,
        None => false,
    }
}

/// What is read from reported exit levels. A level that moves with the market, or is given
/// as a ratio, is not supported.
pub open spec fn bracket_input(raw: RawBracket) -> BracketInput {
    BracketInput {
        fail_code: raw.fail_code,
        unsupported: {
            ||| text_or_empty(raw.active_px).len() > 0
            ||| text_or_empty(raw.callback_ratio).len() > 0
            ||| text_or_empty(raw.callback_spread).len() > 0
            ||| text_or_empty(raw.tp_trigger_ratio).len() > 0
            ||| text_or_empty(raw.sl_trigger_ratio).len() > 0
        },
        take_profit: first_positive(raw.tp_trigger_px, raw.tp_ord_px),
        stop_loss: positive_quote(raw.sl_trigger_px),
    }
}

fn read_bracket(raw: RawBracket) -> (r: BracketInput)
    ensures
        r == bracket_input(raw),
{
    let unsupported: bool = is_given(&raw.active_px) || is_given(&raw.callback_ratio) || is_given(
        &raw.callback_spread,
    ) || is_given(&raw.tp_trigger_ratio) || is_given(&raw.sl_trigger_ratio);
    BracketInput {
        fail_code: raw.fail_code,
        unsupported,
        take_profit: first_positive_of(raw.tp_trigger_px, raw.tp_ord_px),
        stop_loss: parse_positive(raw.sl_trigger_px),
    }
}

/// Whether `input` is what is read from the reported order `raw`.
pub open spec fn reads(raw: RawOrder, input: OrderInput) -> bool {
    &&& input.inst_type == inst_kind(raw.inst_type)
    &&& input.venue_inst == raw.inst_id
    &&& input.inst@ == inst_name(raw.inst_id@)
    &&& input.order_id == raw.ord_id
    &&& input.client_order_id == if text_or_empty(raw.cl_ord_id).len() > 0 {
        raw.cl_ord_id
    } else {
        None
    }
    &&& input.side == raw.side
    &&& input.position_side == raw.pos_side
    &&& input.order_type == raw.ord_type
    &&& input.state == raw.state
    &&& input.category == raw.category
    &&& input.source == raw.source
    &&& input.is_tp_limit == text_flag(raw.is_tp_limit)
    &&& input.price == positive_quote(raw.px)
    &&& input.executed_size == match non_negative_quote(raw.acc_fill_sz) {
        Some(quote) => Some(quote.value),
        None => None,
    }
    &&& input.reduce_only == flag_value(raw.reduce_only)
    &&& input.created_time_us == millis_value(raw.c_time)
    &&& input.updated_time_us == millis_value(raw.u_time)
    &&& input.attached@ == raw.attach_algo_ords@.map_values(|b: RawBracket| bracket_input(b))
    &&& input.top_level_bracket == (BracketInput {
        fail_code: None,
        unsupported: false,
        take_profit: first_positive(raw.tp_trigger_px, raw.tp_ord_px),
        stop_loss: positive_quote(raw.sl_trigger_px),
    })
}

/// Reads a reported order.
pub fn order_input(raw: RawOrder) -> (r: OrderInput)
    ensures
        reads(raw, r),
{
    let ghost reported = raw;
    let client_order_id: Option<String> = if is_given(&raw.cl_ord_id) {
        raw.cl_ord_id
    } else {
        None
    };
    let is_tp_limit: Option<bool> = match &raw.is_tp_limit {
        Some(text) => parse_bool(text.as_str()),
        None => None,
    };
    let executed_size: Option<Float64> = match parse_non_negative(raw.acc_fill_sz) {
        Some(quote) => Some(quote.value),
        None => None,
    };
    let reduce_only: Option<bool> = match &raw.reduce_only {
        Some(RawFlag::Truth(truth)) => Some(*truth),
        Some(RawFlag::Text(text)) => parse_bool(text.as_str()),
        Some(RawFlag::Other) => None,
        None => None,
    };
    let mut brackets: Vec<RawBracket> = raw.attach_algo_ords;
    let ghost reported_brackets = brackets@;
    let mut attached: Vec<BracketInput> = Vec::new();
    let mut i: usize = 0;
    let count: usize = brackets.len();
    while i < count
        invariant
            i <= count,
            count == reported_brackets.len(),
            brackets@ == reported_brackets.skip(i as int),
            attached@ == reported_brackets.take(i as int).map_values(
                |b: RawBracket| bracket_input(b),
            ),
        decreases count - i,
    {
        let bracket: RawBracket = brackets.remove(0);
        assert(bracket == reported_brackets[i as int]);
        attached.push(read_bracket(bracket));
        assert(brackets@ =~= reported_brackets.skip(i + 1));
        assert(attached@ =~= reported_brackets.take(i + 1).map_values(
            |b: RawBracket| bracket_input(b),
        ));
        i += 1;
    }
    assert(reported_brackets.take(count as int) =~= reported_brackets);
    OrderInput {
        inst_type: inst_kind_of(&raw.inst_type),
        inst: cli_inst(raw.inst_id.as_str()),
        venue_inst: raw.inst_id,
        order_id: raw.ord_id,
        client_order_id,
        side: raw.side,
        position_side: raw.pos_side,
        order_type: raw.ord_type,
        state: raw.state,
        category: raw.category,
        source: raw.source,
        is_tp_limit,
        price: parse_positive(raw.px),
        executed_size,
        reduce_only,
        created_time_us: parse_millis(&raw.c_time),
        updated_time_us: parse_millis(&raw.u_time),
        attached,
        top_level_bracket: BracketInput {
            fail_code: None,
            unsupported: false,
            take_profit: first_positive_of(raw.tp_trigger_px, raw.tp_ord_px),
            stop_loss: parse_positive(raw.sl_trigger_px),
        },
    }
}

/// Why a page of open orders cannot be relied on: a full page may leave orders out.
pub open spec fn page_problem(kind: Seq<char>, rows: nat) -> Option<Seq<char>> {
    if rows == PAGE_LIMIT {
        Some("full OKX "@ + kind + " open-order page; scan would be incomplete"@)
    } else {
        None
    }
}

/// Checks that a page of `rows` open orders of a kind is complete.
pub fn check_page(kind: &str, rows: usize) -> (r: Result<(), GuardError>)
    ensures
        match r {
            Ok(()) => page_problem(kind@, rows as nat) is None,
            Err(e) => page_problem(kind@, rows as nat) == Some(e.message@),
        },
{
    if rows == PAGE_LIMIT {
        let mut message: String = "full OKX ".to_owned();
        message.append(kind);
        message.append(" open-order page; scan would be incomplete");
        return Err(GuardError { message });
    }
    Ok(())
}

/// Whether `inputs` are what is read from two pages, one after the other.
pub open spec fn reads_pages(
    swaps: Seq<RawOrder>,
    futures: Seq<RawOrder>,
    inputs: Seq<OrderInput>,
) -> bool {
    let rows = swaps + futures;
    &&& inputs.len() == rows.len()
    &&& forall|i: int| 0 <= i < rows.len() ==> reads(rows[i], #[trigger] inputs[i])
}

/// Reads the open orders of both kinds, swaps first. Neither page may be full.
pub fn order_inputs(swaps: Vec<RawOrder>, futures: Vec<RawOrder>) -> (r: Result<
    Vec<OrderInput>,
    GuardError,
>)
    ensures
        match r {
            Ok(inputs) => {
                let rows = swaps@ + futures@;
                &&& page_problem("SWAP"@, swaps@.len()) is None
                &&& page_problem("FUTURES"@, futures@.len()) is None
                &&& inputs@.len() == rows.len()
                &&& forall|i: int| 0 <= i < rows.len() ==> reads(rows[i], #[trigger] inputs@[i])
                &&& reads_pages(swaps@, futures@, inputs@)
            },
            Err(e) => if page_problem("SWAP"@, swaps@.len()) is Some {
                page_problem("SWAP"@, swaps@.len()) == Some(e.message@)
            } else {
                page_problem("FUTURES"@, futures@.len()) == Some(e.message@)
            },
        },
{
    match check_page("SWAP", swaps.len()) {
        Ok(()) => {},
        Err(e) => return Err(e),
    }
    match check_page("FUTURES", futures.len()) {
        Ok(()) => {},
        Err(e) => return Err(e),
    }
    let ghost reported = swaps@ + futures@;
    let mut rows: Vec<RawOrder> = swaps;
    let mut more: Vec<RawOrder> = futures;
    rows.append(&mut more);
    assert(rows@ =~= reported);
    let count: usize = rows.len();
    let mut inputs: Vec<OrderInput> = Vec::new();
    let mut i: usize = 0;
    while i < count
        invariant
            i <= count,
            count == reported.len(),
            rows@ == reported.skip(i as int),
            inputs@.len() == i,
            forall|j: int| 0 <= j < i ==> reads(reported[j], #[trigger] inputs@[j]),
        decreases count - i,
    {
        let row: RawOrder = rows.remove(0);
        assert(row == reported[i as int]);
        assert(rows@ =~= reported.skip(i + 1));
        inputs.push(order_input(row));
        i += 1;
    }
    Ok(inputs)
}

/// The position mode that OKX's word stands for.
pub fn position_mode(word: &str) -> (r: Option<OkxPositionMode>)
    ensures
        r == if word@ == "net_mode"@ {
            Some(OkxPositionMode::Net)
        } else if word@ == "long_short_mode"@ {
            Some(OkxPositionMode::LongShort)
        } else {
            None
        },
{
    if same_text(word, "net_mode") {
        Some(OkxPositionMode::Net)
    } else if same_text(word, "long_short_mode") {
        Some(OkxPositionMode::LongShort)
    } else {
        None
    }
}

/// The net position on an instrument, by the rows reported: the signed size of the first row
/// for it, zero where there is none.
pub open spec fn net_among(rows: Seq<PositionRow>, inst: Seq<char>) -> Option<Float64>
    decreases rows.len(),
{
    if rows.len() == 0 {
        Some(number(0))
    } else if rows[0].inst@ == inst {
        signed_size(rows[0].position_side, rows[0].size)
    } else {
        net_among(rows.drop_first(), inst)
    }
}

/// The net position on an instrument, unknown where no positions were reported.
pub open spec fn net_of(positions: Option<Vec<PositionRow>>, inst: Seq<char>) -> Option<Float64> {
    match positions {
        Some(rows) => net_among(rows@, inst),
        None => None,
    }
}

pub fn net_position(positions: &Option<Vec<PositionRow>>, inst: &str) -> (r: Option<Float64>)
    ensures
        r == net_of(*positions, inst@),
{
    let rows: &Vec<PositionRow> = match positions {
        Some(rows) => rows,
        None => return None,
    };
    let mut i: usize = 0;
    assert(rows@.skip(0) =~= rows@);
    while i < rows.len()
        invariant
            i <= rows@.len(),
            *positions == Some(*rows),
            net_among(rows@, inst@) == net_among(rows@.skip(i as int), inst@),
        decreases rows@.len() - i,
    {
        assert(rows@.skip(i as int).drop_first() =~= rows@.skip(i + 1));
        if same_text(rows[i].inst.as_str(), inst) {
            return match rows[i].position_side {
                PositionSide::Long => Some(rows[i].size.abs()),
                PositionSide::Short => Some(rows[i].size.neg_abs()),
                PositionSide::Both => Some(rows[i].size),
                PositionSide::Unknown => None,
            };
        }
        i += 1;
    }
    Some(Float64 { bits: 0 })
}

/// Whether `order` is the guarded form of `input`.
pub open spec fn is_guarded(
    input: OrderInput,
    mode: OkxPositionMode,
    net: Option<Float64>,
    order: GuardOrder,
) -> bool {
    &&& order.inst_type == input.inst_type
    &&& order.venue_inst == input.venue_inst
    &&& order.inst == input.inst
    &&& order.order_id == input.order_id
    &&& Ok::<Direction, Seq<char>>(order.direction) == direction_of(
        input.side@,
        text_or_empty(input.position_side),
        mode,
        net,
    )
    &&& Some(order.entry) == input.price
    &&& Some(order.take_profit) == bracket_of(input).take_profit
    &&& Some(order.stop_loss) == bracket_of(input).stop_loss
    &&& order.fingerprint@ == fingerprint_of(input)
}

/// Whether `orders` are the guarded forms of those `inputs` that are not rejected, in order.
pub open spec fn guards_all(
    inputs: Seq<OrderInput>,
    mode: OkxPositionMode,
    positions: Option<Vec<PositionRow>>,
    orders: Seq<GuardOrder>,
) -> bool
    decreases inputs.len(),
{
    if inputs.len() == 0 {
        orders.len() == 0
    } else {
        let net = net_of(positions, inputs.last().inst@);
        if rejection(inputs.last(), mode, net) is Some {
            guards_all(inputs.drop_last(), mode, positions, orders)
        } else {
            &&& orders.len() > 0
            &&& is_guarded(inputs.last(), mode, net, orders.last())
            &&& guards_all(inputs.drop_last(), mode, positions, orders.drop_last())
        }
    }
}

/// The orders that the policy may act on.
pub fn guard_orders(
    inputs: &Vec<OrderInput>,
    mode: OkxPositionMode,
    positions: &Option<Vec<PositionRow>>,
) -> (r: Vec<GuardOrder>)
    ensures
        guards_all(inputs@, mode, *positions, r@),
{
    let mut orders: Vec<GuardOrder> = Vec::new();
    let mut i: usize = 0;
    while i < inputs.len()
        invariant
            i <= inputs@.len(),
            guards_all(inputs@.take(i as int), mode, *positions, orders@),
        decreases inputs@.len() - i,
    {
        let input: &OrderInput = &inputs[i];
        let net: Option<Float64> = net_position(positions, input.inst.as_str());
        let ghost before = orders@;
        assert(inputs@.take(i + 1).drop_last() =~= inputs@.take(i as int));
        match guard_order(input, mode, net) {
            Ok(order) => {
                orders.push(order);
                assert(orders@.drop_last() =~= before);
            },
            Err(_) => {},
        }
        i += 1;
    }
    assert(inputs@.take(inputs@.len() as int) =~= inputs@);
    orders
}

/// Whether `order` is the guarded form of the reported order at place `k`, which is not
/// rejected.
pub open spec fn stems_from(
    inputs: Seq<OrderInput>,
    mode: OkxPositionMode,
    positions: Option<Vec<PositionRow>>,
    order: GuardOrder,
    k: int,
) -> bool {
    let net = net_of(positions, inputs[k].inst@);
    &&& 0 <= k < inputs.len()
    &&& rejection(inputs[k], mode, net) is None
    &&& is_guarded(inputs[k], mode, net, order)
}

/// Every order that is acted on is the guarded form of a reported one that passed every
/// eligibility check.
pub proof fn law_every_guarded_order_is_eligible(
    inputs: Seq<OrderInput>,
    mode: OkxPositionMode,
    positions: Option<Vec<PositionRow>>,
    orders: Seq<GuardOrder>,
    i: int,
)
    requires
        guards_all(inputs, mode, positions, orders),
        0 <= i < orders.len(),
    ensures
        exists|k: int| stems_from(inputs, mode, positions, orders[i], k),
    decreases inputs.len(),
{
    let rest = inputs.drop_last();
    let last = inputs.len() - 1;
    let net = net_of(positions, inputs.last().inst@);
    if rejection(inputs.last(), mode, net) is Some {
        law_every_guarded_order_is_eligible(rest, mode, positions, orders, i);
        let k = choose|k: int| stems_from(rest, mode, positions, orders[i], k);
        assert(stems_from(inputs, mode, positions, orders[i], k));
    } else if i == orders.len() - 1 {
        assert(stems_from(inputs, mode, positions, orders[i], last));
    } else {
        let front = orders.drop_last();
        law_every_guarded_order_is_eligible(rest, mode, positions, front, i);
        let k = choose|k: int| stems_from(rest, mode, positions, front[i], k);
        assert(stems_from(inputs, mode, positions, orders[i], k));
    }
}

proof fn lemma_no_mark(text: Seq<char>, mark: char)
    requires
        !text.contains(mark),
    ensures
        split_on(text, mark) == seq![text],
    decreases text.len(),
{
    if text.len() > 0 {
        let rest = text.drop_last();
        assert forall|i: int| 0 <= i < rest.len() implies rest[i] != mark by {
            assert(text.contains(text[i]));
        }
        lemma_no_mark(rest, mark);
        assert(text.contains(text.last()));
        assert(rest.push(text.last()) =~= text);
        assert(split_on(text, mark) =~= seq![text]);
    } else {
        assert(text =~= Seq::<char>::empty());
        assert(split_on(text, mark) =~= seq![text]);
    }
}

proof fn lemma_split_once_more(front: Seq<char>, part: Seq<char>, mark: char)
    requires
        !part.contains(mark),
    ensures
        split_on(front + seq![mark] + part, mark) == split_on(front, mark).push(part),
    decreases part.len(),
{
    let text = front + seq![mark] + part;
    if part.len() == 0 {
        assert(text.drop_last() =~= front);
        assert(part =~= Seq::<char>::empty());
    } else {
        let rest = part.drop_last();
        assert forall|i: int| 0 <= i < rest.len() implies rest[i] != mark by {
            assert(part.contains(part[i]));
        }
        lemma_split_once_more(front, rest, mark);
        assert(text.drop_last() =~= front + seq![mark] + rest);
        assert(part.contains(part.last()));
        let parts = split_on(front, mark).push(rest);
        assert(parts.drop_last() =~= split_on(front, mark));
        assert(rest.push(part.last()) =~= part);
    }
}

/// Instrument ids become names: a swap `B-Q-SWAP` is `B_Q_PERP`, a future `B-Q-` and six digits is
/// `B_Q_FUT_` and the digits, a pair `B-Q` is `B_Q`, and an id of one part, or of three with
/// another ending, is itself.
pub proof fn law_instrument_ids_become_names(
    base: Seq<char>,
    quote: Seq<char>,
    tail: Seq<char>,
)
    requires
        !base.contains('-'),
        !quote.contains('-'),
        !tail.contains('-'),
    ensures
        inst_name(base + "-"@ + quote + "-"@ + "SWAP"@) == base + "_"@ + quote + "_PERP"@,
        tail.len() == 6 && (forall|i: int| 0 <= i < 6 ==> '0' <= #[trigger] tail[i] <= '9')
            ==> inst_name(base + "-"@ + quote + "-"@ + tail) == base + "_"@ + quote + "_FUT_"@
            + tail,
        inst_name(base + "-"@ + quote) == base + "_"@ + quote,
        inst_name(base) == base,
        tail != "SWAP"@ && (tail.len() != 6 || exists|i: int|
            0 <= i < 6 && !('0' <= #[trigger] tail[i] <= '9')) ==> inst_name(
            base + "-"@ + quote + "-"@ + tail,
        ) == base + "-"@ + quote + "-"@ + tail,
{
    reveal_strlit("-");
    reveal_strlit("SWAP");
    let dash = seq!['-'];
    assert("-"@ =~= dash);
    assert(!"SWAP"@.contains('-')) by {
        assert forall|i: int| 0 <= i < "SWAP"@.len() implies "SWAP"@[i] != '-' by {}
    }
    lemma_no_mark(base, '-');
    lemma_split_once_more(base, quote, '-');
    lemma_split_once_more(base + dash + quote, "SWAP"@, '-');
    lemma_split_once_more(base + dash + quote, tail, '-');
}

/// What OKX's words say: `SWAP` is a perpetual, `FUTURES` a future and everything else unknown;
/// `true` and `1` are true, `false` and `0` false and everything else neither.
pub proof fn law_words_are_read(word: String)
    ensures
        inst_kind(Some(word)) == InstrumentType::Perpetual <==> word@ == "SWAP"@,
        inst_kind(Some(word)) == InstrumentType::Futures <==> word@ == "FUTURES"@,
        word@ != "SWAP"@ && word@ != "FUTURES"@ ==> inst_kind(Some(word))
            == InstrumentType::Unknown,
        inst_kind(None) == InstrumentType::Unknown,
        text_flag(Some(word)) == Some(true) <==> word@ == "true"@ || word@ == "1"@,
        text_flag(Some(word)) == Some(false) <==> word@ == "false"@ || word@ == "0"@,
        text_flag(None) is None,
        flag_value(Some(RawFlag::Text(word))) == text_flag(Some(word)),
        flag_value(Some(RawFlag::Truth(true))) == Some(true),
        flag_value(Some(RawFlag::Truth(false))) == Some(false),
        flag_value(Some(RawFlag::Other)) is None,
        flag_value(None) is None,
{
    reveal_strlit("SWAP");
    reveal_strlit("FUTURES");
    reveal_strlit("true");
    reveal_strlit("false");
    reveal_strlit("0");
    reveal_strlit("1");
    assert("SWAP"@.len() == 4 && "FUTURES"@.len() == 7);
    assert("true"@.len() == 4 && "false"@.len() == 5 && "0"@.len() == 1 && "1"@.len() == 1);
    assert("0"@[0] != "1"@[0]);
}

/// A price counts exactly when it is a finite number above zero, a size when it is finite and not
/// below zero; what counts is kept as it is. Of two prices the first that counts is taken.
pub proof fn law_only_sound_numbers_count(raw: Option<Quote>, other: Option<Quote>)
    ensures
        positive_quote(raw) is Some <==> raw is Some && raw->0.value.finite()
            && raw->0.value.units() > 0,
        positive_quote(raw) is Some ==> positive_quote(raw) == raw,
        non_negative_quote(raw) is Some <==> raw is Some && raw->0.value.finite()
            && raw->0.value.units() >= 0,
        non_negative_quote(raw) is Some ==> non_negative_quote(raw) == raw,
        raw is Some && raw->0.value.finite() && raw->0.value.units() > 0 ==> first_positive(
            raw,
            other,
        ) == raw,
        !(raw is Some && raw->0.value.finite() && raw->0.value.units() > 0) ==> first_positive(
            raw,
            other,
        ) == positive_quote(other),
{
    if raw is Some {
        if raw->0.value.finite() {
            law_sign_of_finite_numbers(raw->0.value);
        }
    }
}

/// A time of `millis` milliseconds is read as a thousand times as many microseconds, where that
/// many can be counted; a text that is no number is no time.
pub proof fn law_millis_become_micros(text: String, millis: u64)
    ensures
        text@ == digits(millis as nat, 10) && millis * 1_000 <= u64::MAX ==> millis_value(
            Some(text),
        ) == Some((millis * 1_000) as u64),
        text@ == digits(millis as nat, 10) && millis * 1_000 > u64::MAX ==> millis_value(
            Some(text),
        ) is None,
        unsigned_value(text@) is None ==> millis_value(Some(text)) is None,
        millis_value(None) is None,
{
    law_decimal_reads_back(millis);
}

/// Whether a text is there and not empty.
pub open spec fn given(text: Option<String>) -> bool {
    text is Some && text->0@.len() > 0
}

/// Exit levels are read as reported: the trigger price counts as the take-profit, the order price
/// only where there is no sound trigger price, and one field of a moving or relative exit makes
/// the bracket unsupported.
pub proof fn law_brackets_are_read_as_reported(raw: RawBracket)
    ensures
        ({
            let input = bracket_input(raw);
            &&& input.fail_code == raw.fail_code
            &&& input.unsupported <==> given(raw.active_px) || given(raw.callback_ratio) || given(
                raw.callback_spread,
            ) || given(raw.tp_trigger_ratio) || given(raw.sl_trigger_ratio)
            &&& input.take_profit == if positive_quote(raw.tp_trigger_px) is Some {
                raw.tp_trigger_px
            } else {
                positive_quote(raw.tp_ord_px)
            }
            &&& input.stop_loss == positive_quote(raw.sl_trigger_px)
        }),
{
}

/// An order is read as reported, field by field.
pub proof fn law_orders_are_read_as_reported(raw: RawOrder, input: OrderInput, i: int)
    requires
        reads(raw, input),
    ensures
        input.venue_inst == raw.inst_id,
        input.inst@ == inst_name(raw.inst_id@),
        input.inst_type == inst_kind(raw.inst_type),
        input.order_id == raw.ord_id,
        given(raw.cl_ord_id) ==> input.client_order_id == raw.cl_ord_id,
        !given(raw.cl_ord_id) ==> input.client_order_id is None,
        input.side == raw.side,
        input.position_side == raw.pos_side,
        input.order_type == raw.ord_type,
        input.state == raw.state,
        input.category == raw.category,
        input.source == raw.source,
        input.is_tp_limit == text_flag(raw.is_tp_limit),
        input.reduce_only == flag_value(raw.reduce_only),
        input.price == positive_quote(raw.px),
        input.executed_size is Some <==> non_negative_quote(raw.acc_fill_sz) is Some,
        input.executed_size is Some ==> input.executed_size->0 == raw.acc_fill_sz->0.value,
        input.created_time_us == millis_value(raw.c_time),
        input.updated_time_us == millis_value(raw.u_time),
        input.attached@.len() == raw.attach_algo_ords@.len(),
        0 <= i < input.attached@.len() ==> input.attached@[i] == bracket_input(
            raw.attach_algo_ords@[i],
        ),
        input.top_level_bracket.fail_code is None,
        !input.top_level_bracket.unsupported,
        input.top_level_bracket.take_profit == first_positive(raw.tp_trigger_px, raw.tp_ord_px),
        input.top_level_bracket.stop_loss == positive_quote(raw.sl_trigger_px),
{
}

/// A page is refused exactly when it holds a hundred orders, as many as it can.
pub proof fn law_full_pages_are_refused(kind: Seq<char>, rows: nat)
    ensures
        page_problem(kind, rows) is Some <==> rows == 100,
{
}

/// The net position on an instrument is the signed size of the first row for it, whatever follows,
/// and zero where no row is for it.
pub proof fn law_first_row_is_the_net_position(
    before: Seq<PositionRow>,
    row: PositionRow,
    after: Seq<PositionRow>,
    inst: Seq<char>,
)
    requires
        forall|i: int| 0 <= i < before.len() ==> (#[trigger] before[i]).inst@ != inst,
    ensures
        net_among(before, inst) == Some(number(0)),
        row.inst@ == inst && row.size.finite() ==> {
            let net = net_among(before + seq![row] + after, inst);
            let size = if row.size.units() < 0 {
                -row.size.units()
            } else {
                row.size.units()
            };
            match row.position_side {
                PositionSide::Long => net is Some && net->0.finite() && net->0.units() == size,
                PositionSide::Short => net is Some && net->0.finite() && net->0.units() == -size,
                PositionSide::Both => net == Some(row.size),
                PositionSide::Unknown => net is None,
            }
        },
    decreases before.len(),
{
    law_absolute_values(row.size);
    let all = before + seq![row] + after;
    if before.len() > 0 {
        let rest = before.drop_first();
        assert forall|i: int| 0 <= i < rest.len() implies (#[trigger] rest[i]).inst@ != inst by {
            assert(before[i + 1].inst@ != inst);
        }
        law_first_row_is_the_net_position(rest, row, after, inst);
        assert(before[0].inst@ != inst);
        assert(all[0] == before[0]);
        assert(all.drop_first() =~= rest + seq![row] + after);
    } else {
        assert(all[0] == row);
    }
}

/// Every reported order that passes the eligibility checks is acted on: one guarded order stands
/// for each, in the order reported, and there are no others.
pub proof fn law_every_eligible_order_is_guarded(
    inputs: Seq<OrderInput>,
    mode: OkxPositionMode,
    positions: Option<Vec<PositionRow>>,
    orders: Seq<GuardOrder>,
    k: int,
)
    requires
        guards_all(inputs, mode, positions, orders),
        0 <= k < inputs.len(),
        rejection(inputs[k], mode, net_of(positions, inputs[k].inst@)) is None,
    ensures
        exists|i: int|
            {
                &&& 0 <= i < orders.len()
                &&& (#[trigger] orders[i]).order_id == inputs[k].order_id
                &&& orders[i].inst == inputs[k].inst
                &&& orders[i].venue_inst == inputs[k].venue_inst
                &&& orders[i].inst_type == inputs[k].inst_type
                &&& Some(orders[i].entry) == inputs[k].price
                &&& orders[i].direction == Direction::Long <==> inputs[k].side@ == "buy"@
            },
        orders.len() <= inputs.len(),
    decreases inputs.len(),
{
    let rest = inputs.drop_last();
    let last = inputs.len() - 1;
    let net = net_of(positions, inputs.last().inst@);
    lemma_no_more_orders(inputs, mode, positions, orders);
    if k == last {
        let i = orders.len() - 1;
        law_side_gives_the_direction(
            inputs[k].side@,
            text_or_empty(inputs[k].position_side),
            mode,
            net,
        );
        reveal_strlit("buy");
        reveal_strlit("sell");
        assert("buy"@.len() == 3 && "sell"@.len() == 4);
        assert(orders[i].order_id == inputs[k].order_id);
    } else if rejection(inputs.last(), mode, net) is Some {
        assert(rest[k] == inputs[k]);
        law_every_eligible_order_is_guarded(rest, mode, positions, orders, k);
    } else {
        let front = orders.drop_last();
        assert(rest[k] == inputs[k]);
        law_every_eligible_order_is_guarded(rest, mode, positions, front, k);
        let i = choose|i: int|
            {
                &&& 0 <= i < front.len()
                &&& (#[trigger] front[i]).order_id == inputs[k].order_id
                &&& front[i].inst == inputs[k].inst
                &&& front[i].venue_inst == inputs[k].venue_inst
                &&& front[i].inst_type == inputs[k].inst_type
                &&& Some(front[i].entry) == inputs[k].price
                &&& front[i].direction == Direction::Long <==> inputs[k].side@ == "buy"@
            };
        assert(orders[i] == front[i]);
    }
}

proof fn lemma_no_more_orders(
    inputs: Seq<OrderInput>,
    mode: OkxPositionMode,
    positions: Option<Vec<PositionRow>>,
    orders: Seq<GuardOrder>,
)
    requires
        guards_all(inputs, mode, positions, orders),
    ensures
        orders.len() <= inputs.len(),
    decreases inputs.len(),
{
    if inputs.len() > 0 {
        let net = net_of(positions, inputs.last().inst@);
        if rejection(inputs.last(), mode, net) is Some {
            lemma_no_more_orders(inputs.drop_last(), mode, positions, orders);
        } else {
            lemma_no_more_orders(inputs.drop_last(), mode, positions, orders.drop_last());
        }
    }
}

/// A guarded order carries the exits of the bracket that counts, the entry price and the side of
/// the order it stands for.
pub proof fn law_guarded_orders_carry_their_bracket(
    input: OrderInput,
    mode: OkxPositionMode,
    net: Option<Float64>,
    order: GuardOrder,
)
    requires
        is_guarded(input, mode, net, order),
        input.attached@.len() <= 1,
    ensures
        input.attached@.len() == 0 ==> {
            &&& Some(order.take_profit) == input.top_level_bracket.take_profit
            &&& Some(order.stop_loss) == input.top_level_bracket.stop_loss
        },
        input.attached@.len() == 1 ==> {
            &&& Some(order.take_profit) == input.attached@[0].take_profit
            &&& Some(order.stop_loss) == input.attached@[0].stop_loss
        },
        Some(order.entry) == input.price,
        order.order_id == input.order_id,
        order.venue_inst == input.venue_inst,
        order.inst == input.inst,
        order.inst_type == input.inst_type,
        order.direction == Direction::Long ==> input.side@ == "buy"@,
        order.direction == Direction::Short ==> input.side@ == "sell"@,
{
    law_side_gives_the_direction(
        input.side@,
        text_or_empty(input.position_side),
        mode,
        net,
    );
}

/// Every reported order of both pages is read, none is read twice, and the swaps come first.
pub proof fn law_both_pages_are_read(
    swaps: Seq<RawOrder>,
    futures: Seq<RawOrder>,
    inputs: Seq<OrderInput>,
    i: int,
)
    requires
        reads_pages(swaps, futures, inputs),
    ensures
        inputs.len() == swaps.len() + futures.len(),
        0 <= i < swaps.len() ==> reads(swaps[i], inputs[i]),
        0 <= i < futures.len() ==> reads(futures[i], inputs[swaps.len() + i]),
{
    let rows = swaps + futures;
    if 0 <= i < swaps.len() {
        assert(rows[i] == swaps[i]);
        assert(reads(rows[i], inputs[i]));
    }
    if 0 <= i < futures.len() {
        assert(rows[swaps.len() + i] == futures[i]);
        assert(reads(rows[swaps.len() + i], inputs[swaps.len() + i]));
    }
}

}
