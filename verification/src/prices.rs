//! Last prices: which are asked for, and which may be relied on.

use crate::eligibility::{GuardOrder, InstrumentType};
use crate::number::{
    law_comparison_is_numeric, law_sign_of_finite_numbers, number, Float64, Quote,
};
use crate::table::listed;
use crate::text::{
    is_before, lemma_text_order_is_total, lemma_text_order_is_transitive, same_text, text_before,
};
use vstd::prelude::*;

verus! {

/// How old a price may be, in microseconds.
pub const MAX_PRICE_AGE_US: u64 = 120_000_000;

/// How far ahead of the clock a price may be, in microseconds.
pub const FUTURE_PRICE_TOLERANCE_US: u64 = 5_000_000;

/// The last price of an instrument.
#[derive(Debug)]
pub struct Ticker {
    pub inst: String,
    pub price: Quote,
    /// In microseconds.
    pub timestamp: u64,
}

/// The ticker of an instrument; of several the last counts.
pub open spec fn ticker_of(tickers: Seq<Ticker>, inst: Seq<char>) -> Option<Ticker>
    decreases tickers.len(),
{
    if tickers.len() == 0 {
        None
    } else if tickers.last().inst@ == inst {
        Some(tickers.last())
    } else {
        ticker_of(tickers.drop_last(), inst)
    }
}

/// Whether a price may be relied on: positive, finite, not too old, not from the future.
pub open spec fn is_usable(ticker: Ticker, now_us: u64) -> bool {
    &&& ticker.price.value.finite()
    &&& number(0).less(ticker.price.value)
    &&& ticker.timestamp <= now_us + FUTURE_PRICE_TOLERANCE_US
    &&& now_us <= ticker.timestamp + MAX_PRICE_AGE_US
}

/// The price of an instrument, where it may be relied on.
pub open spec fn last_of(tickers: Seq<Ticker>, inst: Seq<char>, now_us: u64) -> Option<Quote> {
    match ticker_of(tickers, inst) {
        Some(ticker) => if is_usable(ticker, now_us) {
            Some(ticker.price)
        } else {
            None
        },
        None => None,
    }
}

/// The price that a ticker gives, where it may be relied on.
pub fn usable_last(price: Option<&Ticker>, now_us: u64) -> (r: Option<Quote>)
    ensures
        r == match price {
            Some(ticker) => if is_usable(*ticker, now_us) {
                Some(ticker.price)
            } else {
                None
            },
            None => None,
        },
{
    let ticker: &Ticker = match price {
        Some(ticker) => ticker,
        None => return None,
    };
    let value: Float64 = ticker.price.value;
    if value.is_finite() && (Float64 { bits: 0 }).lt(value) && ticker.timestamp
        <= now_us.saturating_add(FUTURE_PRICE_TOLERANCE_US) && now_us.saturating_sub(
        ticker.timestamp,
    ) <= MAX_PRICE_AGE_US {
        Some(ticker.price.clone())
    } else {
        None
    }
}

/// The price of an instrument, where it may be relied on.
pub fn last_price(tickers: &Vec<Ticker>, inst: &str, now_us: u64) -> (r: Option<Quote>)
    ensures
        r == last_of(tickers@, inst@, now_us),
{
    let mut n: usize = tickers.len();
    assert(tickers@.take(n as int) =~= tickers@);
    while n > 0
        invariant
            n <= tickers@.len(),
            ticker_of(tickers@, inst@) == ticker_of(tickers@.take(n as int), inst@),
        decreases n,
    {
        assert(tickers@.take(n as int).drop_last() =~= tickers@.take(n - 1));
        n -= 1;
        if same_text(tickers[n].inst.as_str(), inst) {
            return usable_last(Some(&tickers[n]), now_us);
        }
    }
    None
}

/// Whether order `i` is of a kind and on an instrument.
pub open spec fn trades_at(
    orders: Seq<GuardOrder>,
    inst_type: InstrumentType,
    i: int,
    name: Seq<char>,
) -> bool {
    0 <= i < orders.len() && orders[i].inst_type == inst_type && orders[i].inst@ == name
}

/// Whether an order of a kind is on an instrument.
pub open spec fn trades(
    orders: Seq<GuardOrder>,
    inst_type: InstrumentType,
    name: Seq<char>,
) -> bool {
    exists|i: int| trades_at(orders, inst_type, i, name)
}

/// Whether names come in order, none twice.
pub open spec fn ascending(names: Seq<String>) -> bool {
    forall|i: int, j: int|
        0 <= i < j < names.len() ==> text_before((#[trigger] names[i])@, (#[trigger] names[j])@)
}

/// Whether `names` are the instruments of the orders of one kind, in order and each once.
pub open spec fn are_instruments(
    orders: Seq<GuardOrder>,
    inst_type: InstrumentType,
    names: Seq<String>,
) -> bool {
    &&& ascending(names)
    &&& forall|name: Seq<char>| #[trigger] listed(names, name) == trades(orders, inst_type, name)
}

/// Puts a name into its place, unless it is there.
fn place_name(names: &mut Vec<String>, name: &String)
    requires
        ascending(old(names)@),
    ensures
        ascending(final(names)@),
        forall|other: Seq<char>| #[trigger]
            listed(final(names)@, other) <==> other == name@ || listed(old(names)@, other),
{
    let ghost before = names@;
    let mut at: usize = 0;
    while at < names.len() && is_before(names[at].as_str(), name.as_str())
        invariant
            at <= names@.len(),
            names@ == before,
            forall|k: int| 0 <= k < at ==> text_before((#[trigger] names@[k])@, name@),
        decreases names@.len() - at,
    {
        at += 1;
    }
    if at < names.len() && same_text(names[at].as_str(), name.as_str()) {
        assert(listed(before, name@));
        return;
    }
    names.insert(at, name.clone());
    proof {
        assert(names@ =~= before.insert(at as int, names@[at as int]));
        if at < before.len() {
            lemma_text_order_is_total(before[at as int]@, name@);
            assert forall|k: int| at <= k < before.len() implies text_before(
                name@,
                (#[trigger] before[k])@,
            ) by {
                if at < k {
                    lemma_text_order_is_transitive(name@, before[at as int]@, before[k]@);
                }
            }
        }
        assert forall|i: int, j: int| 0 <= i < j < names@.len() implies text_before(
            (#[trigger] names@[i])@,
            (#[trigger] names@[j])@,
        ) by {
            let a = if i < at {
                i
            } else {
                i - 1
            };
            let b = if j < at {
                j
            } else {
                j - 1
            };
            if i != at {
                assert(names@[i] == before[a]);
            }
            if j != at {
                assert(names@[j] == before[b]);
            }
        }
        assert forall|other: Seq<char>| #[trigger]
            listed(names@, other) <==> other == name@ || listed(before, other) by {
            assert(names@[at as int]@ == name@);
            if listed(names@, other) {
                let k = choose|k: int| 0 <= k < names@.len() && (#[trigger] names@[k])@ == other;
                if k < at {
                    assert(before[k]@ == other);
                } else if k > at {
                    assert(before[k - 1]@ == other);
                }
            }
            if listed(before, other) {
                let k = choose|k: int| 0 <= k < before.len() && (#[trigger] before[k])@ == other;
                if k < at {
                    assert(names@[k]@ == other);
                } else {
                    assert(names@[k + 1]@ == other);
                }
            }
        }
    }
}

/// The instruments of the orders of one kind.
pub fn instruments(orders: &Vec<GuardOrder>, inst_type: InstrumentType) -> (r: Vec<String>)
    ensures
        are_instruments(orders@, inst_type, r@),
{
    let mut names: Vec<String> = Vec::new();
    let mut i: usize = 0;
    while i < orders.len()
        invariant
            i <= orders@.len(),
            ascending(names@),
            forall|name: Seq<char>| #[trigger]
                listed(names@, name) == trades(orders@.take(i as int), inst_type, name),
        decreases orders@.len() - i,
    {
        let ghost before = names@;
        if orders[i].inst_type == inst_type {
            place_name(&mut names, &orders[i].inst);
        }
        proof {
            let (seen, more) = (orders@.take(i as int), orders@.take(i + 1));
            let order = orders@[i as int];
            assert forall|name: Seq<char>| #[trigger]
                listed(names@, name) == trades(more, inst_type, name) by {
                if trades(more, inst_type, name) {
                    let j = choose|j: int| trades_at(more, inst_type, j, name);
                    if j < i {
                        assert(trades_at(seen, inst_type, j, name));
                    }
                }
                if trades(seen, inst_type, name) {
                    let j = choose|j: int| trades_at(seen, inst_type, j, name);
                    assert(trades_at(more, inst_type, j, name));
                }
                if order.inst_type == inst_type && order.inst@ == name {
                    assert(trades_at(more, inst_type, i as int, name));
                }
                assert(listed(before, name) == trades(seen, inst_type, name));
            }
        }
        i += 1;
    }
    assert(orders@.take(orders@.len() as int) =~= orders@);
    names
}

/// A price that may be relied on is positive, at most two minutes old and at most five
/// seconds ahead of the clock.
pub proof fn law_usable_prices_are_fresh(ticker: Ticker, now_us: u64)
    requires
        is_usable(ticker, now_us),
    ensures
        ticker.price.value.units() > 0,
        now_us - ticker.timestamp <= 120 * 1_000_000,
        ticker.timestamp - now_us <= 5 * 1_000_000,
{
    law_comparison_is_numeric(number(0), ticker.price.value);
}

/// The ticker of an instrument is the last one reported for it, and there is none only where
/// none was reported.
pub proof fn law_last_ticker_counts(tickers: Seq<Ticker>, inst: Seq<char>)
    ensures
        match ticker_of(tickers, inst) {
            Some(ticker) => exists|k: int|
                {
                    &&& 0 <= k < tickers.len()
                    &&& #[trigger] tickers[k] == ticker
                    &&& ticker.inst@ == inst
                    &&& forall|j: int| k < j < tickers.len() ==> (#[trigger] tickers[j]).inst@ != inst
                },
            None => forall|j: int|
                0 <= j < tickers.len() ==> (#[trigger] tickers[j]).inst@ != inst,
        },
    decreases tickers.len(),
{
    if tickers.len() > 0 {
        let last = tickers.len() - 1;
        let rest = tickers.drop_last();
        if tickers.last().inst@ == inst {
            assert(tickers[last] == tickers.last());
        } else {
            law_last_ticker_counts(rest, inst);
            if let Some(ticker) = ticker_of(rest, inst) {
                let k = choose|k: int|
                    {
                        &&& 0 <= k < rest.len()
                        &&& #[trigger] rest[k] == ticker
                        &&& ticker.inst@ == inst
                        &&& forall|j: int| k < j < rest.len() ==> (#[trigger] rest[j]).inst@ != inst
                    };
                assert(tickers[k] == ticker);
                assert forall|j: int| k < j < tickers.len() implies (#[trigger] tickers[j]).inst@
                    != inst by {
                    if j < last {
                        assert(rest[j].inst@ != inst);
                    }
                }
            } else {
                assert forall|j: int| 0 <= j < tickers.len() implies (#[trigger] tickers[j]).inst@
                    != inst by {
                    if j < last {
                        assert(rest[j].inst@ != inst);
                    }
                }
            }
        }
    }
}

/// A price may be relied on exactly when it is a finite number above zero, at most two minutes
/// old and at most five seconds ahead of the clock; and then it is the price itself.
pub proof fn law_fresh_positive_prices_are_usable(
    tickers: Seq<Ticker>,
    inst: Seq<char>,
    now_us: u64,
)
    ensures
        ({
            let found = ticker_of(tickers, inst);
            let last = last_of(tickers, inst, now_us);
            &&& last is Some <==> found is Some && {
                let ticker = found->0;
                &&& ticker.price.value.finite()
                &&& ticker.price.value.units() > 0
                &&& -5_000_000 <= now_us - ticker.timestamp <= 120_000_000
            }
            &&& last is Some ==> last->0 == (found->0).price
        }),
{
    if let Some(ticker) = ticker_of(tickers, inst) {
        if ticker.price.value.finite() {
            law_sign_of_finite_numbers(ticker.price.value);
        }
    }
}

/// The prices asked for are those of the orders of the kind: every one of their instruments is
/// named, no other is, none twice.
pub proof fn law_every_instrument_is_asked_for(
    orders: Seq<GuardOrder>,
    inst_type: InstrumentType,
    names: Seq<String>,
    n: int,
)
    requires
        are_instruments(orders, inst_type, names),
    ensures
        forall|i: int|
            0 <= i < orders.len() && (#[trigger] orders[i]).inst_type == inst_type ==> exists|
                k: int,
            |
                0 <= k < names.len() && #[trigger] names[k]@ == orders[i].inst@,
        0 <= n < names.len() ==> exists|i: int|
            0 <= i < orders.len() && (#[trigger] orders[i]).inst_type == inst_type
                && orders[i].inst@ == names[n]@,
        forall|j: int, k: int|
            0 <= j < k < names.len() ==> (#[trigger] names[j])@ != (#[trigger] names[k])@,
{
    assert forall|i: int| 0 <= i < orders.len() && (#[trigger] orders[i]).inst_type == inst_type
        implies exists|k: int| 0 <= k < names.len() && #[trigger] names[k]@ == orders[i].inst@ by {
        assert(trades_at(orders, inst_type, i, orders[i].inst@));
        assert(listed(names, orders[i].inst@));
    }
    if 0 <= n < names.len() {
        assert(listed(names, names[n]@));
        let i = choose|i: int| trades_at(orders, inst_type, i, names[n]@);
        assert(orders[i].inst@ == names[n]@);
    }
    assert forall|j: int, k: int| 0 <= j < k < names.len() implies (#[trigger] names[j])@ != (
    #[trigger] names[k])@ by {
        lemma_text_order_is_total(names[j]@, names[k]@);
    }
}

}
