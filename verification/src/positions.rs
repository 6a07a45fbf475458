//! Positions as the exchanges report them, and their normalized form.

use crate::number::{
    exact, law_absolute_values, law_sign_of_finite_numbers, product, product_of, unit, value_of,
    Float64, Formula,
};
use crate::safety::{law_sane_prices_are_the_positive_numbers, sane, SafetyLimits};
use vstd::prelude::*;

verus! {

#[derive(Clone, Copy, Debug, PartialEq, Eq, Structural)]
pub enum PositionSide {
    Long,
    Short,
    Both,
    Unknown,
}

/// A position as an exchange reports it.
#[derive(Debug)]
pub struct PositionRow {
    pub inst: String,
    pub position_side: PositionSide,
    pub size: Float64,
    pub avg_price: Float64,
    pub mark_price: Float64,
}

#[derive(Clone, Debug)]
pub struct PositionSnapshot {
    pub exchange: String,
    pub inst: String,
    /// Signed: positive long, negative short.
    pub size: Float64,
    pub avg_price: Float64,
    pub mark_price: Float64,
}

impl PositionSnapshot {
    pub open spec fn long(self) -> bool {
        (Float64 { bits: 0 }).less(self.size)
    }

    pub fn is_long(&self) -> (r: bool)
        ensures
            r == self.long(),
    {
        (Float64 { bits: 0 }).lt(self.size)
    }

    /// The position's value at the mark: `|size| * mark_price`.
    pub fn notional(&self) -> (r: Formula)
        ensures
            r == product_of(value_of(self.size.absolute()), value_of(self.mark_price)),
            exact(r).1 == unit() * unit(),
            self.size.finite() ==> exact(r).0 == if self.size.units() < 0 {
                -self.size.units() * self.mark_price.units()
            } else {
                self.size.units() * self.mark_price.units()
            },
    {
        proof {
            law_absolute_values(self.size);
            reveal_with_fuel(exact, 2);
        }
        product(Formula::Value(self.size.abs()), Formula::Value(self.mark_price))
    }
}

/// The signed size of a reported position; none where its side is unknown.
pub open spec fn signed_size(side: PositionSide, size: Float64) -> Option<Float64> {
    match side {
        PositionSide::Long => Some(size.absolute()),
        PositionSide::Short => Some(size.negated_absolute()),
        PositionSide::Both => Some(size),
        PositionSide::Unknown => None,
    }
}

/// Why a reported position is not one to protect.
#[derive(Clone, Copy, Debug, PartialEq, Eq, Structural)]
pub enum SkipReason {
    /// Nothing is held.
    Flat,
    UnknownSide,
    InsanePrices,
}

/// Why a reported position is skipped: it is flat, its side is unknown, or its prices are
/// insane. A malformed row must never look like a position worth protecting.
pub open spec fn skip_of(row: PositionRow) -> Option<SkipReason> {
    if row.size.equal(Float64 { bits: 0 }) {
        Some(SkipReason::Flat)
    } else if row.position_side == PositionSide::Unknown {
        Some(SkipReason::UnknownSide)
    } else if !sane(row.avg_price) || !sane(row.mark_price) {
        Some(SkipReason::InsanePrices)
    } else {
        None
    }
}

pub fn skip_reason(row: &PositionRow) -> (r: Option<SkipReason>)
    ensures
        r == skip_of(*row),
{
    if row.size.eq(Float64 { bits: 0 }) {
        Some(SkipReason::Flat)
    } else if row.position_side == PositionSide::Unknown {
        Some(SkipReason::UnknownSide)
    } else if !SafetyLimits::price_is_sane(row.avg_price) || !SafetyLimits::price_is_sane(
        row.mark_price,
    ) {
        Some(SkipReason::InsanePrices)
    } else {
        None
    }
}

/// The normalized form of a reported position; none of one that is skipped.
pub open spec fn snapshot_of(exchange: String, row: PositionRow) -> Option<PositionSnapshot> {
    if skip_of(row) is Some {
        None
    } else {
        Some(
            PositionSnapshot {
                exchange,
                inst: row.inst,
                size: signed_size(row.position_side, row.size)->0,
                avg_price: row.avg_price,
                mark_price: row.mark_price,
            },
        )
    }
}

/// The normalized positions of one exchange, in the order reported.
pub open spec fn snapshots_of(exchange: String, rows: Seq<PositionRow>) -> Seq<PositionSnapshot>
    decreases rows.len(),
{
    if rows.len() == 0 {
        Seq::empty()
    } else {
        let rest = snapshots_of(exchange, rows.drop_last());
        match snapshot_of(exchange, rows.last()) {
            Some(snapshot) => rest.push(snapshot),
            None => rest,
        }
    }
}

/// The normalized form of one reported position.
pub fn snapshot(exchange: &String, row: &PositionRow) -> (r: Option<PositionSnapshot>)
    ensures
        r == snapshot_of(*exchange, *row),
{
    if skip_reason(row).is_some() {
        return None;
    }
    let size: Float64 = match row.position_side {
        PositionSide::Long => row.size.abs(),
        PositionSide::Short => row.size.neg_abs(),
        PositionSide::Both => row.size,
        PositionSide::Unknown => return None,
    };
    Some(
        PositionSnapshot {
            exchange: exchange.clone(),
            inst: row.inst.clone(),
            size,
            avg_price: row.avg_price,
            mark_price: row.mark_price,
        },
    )
}

/// The normalized positions of one exchange, in the order reported.
pub fn snapshots(exchange: &String, rows: &Vec<PositionRow>) -> (r: Vec<PositionSnapshot>)
    ensures
        r@ == snapshots_of(*exchange, rows@),
{
    let mut r: Vec<PositionSnapshot> = Vec::new();
    let mut i: usize = 0;
    while i < rows.len()
        invariant
            i <= rows@.len(),
            r@ == snapshots_of(*exchange, rows@.take(i as int)),
        decreases rows@.len() - i,
    {
        proof {
            assert(rows@.take(i + 1).drop_last() =~= rows@.take(i as int));
        }
        if let Some(position) = snapshot(exchange, &rows[i]) {
            r.push(position);
        }
        i += 1;
    }
    assert(rows@.take(rows@.len() as int) =~= rows@);
    r
}

/// Every normalized position is worth protecting: its prices are sane, its size is
/// not zero, and a size reported as long or short has that sign.
pub proof fn law_snapshots_are_well_formed(exchange: String, rows: Seq<PositionRow>, i: int)
    requires
        0 <= i < snapshots_of(exchange, rows).len(),
    ensures
        ({
            let position = snapshots_of(exchange, rows)[i];
            &&& position.exchange == exchange
            &&& sane(position.avg_price)
            &&& sane(position.mark_price)
            &&& !position.size.equal(Float64 { bits: 0 })
            &&& exists|j: int|
                0 <= j < rows.len() && #[trigger] snapshot_of(exchange, rows[j]) == Some(position)
        }),
    decreases rows.len(),
{
    let before = rows.drop_last();
    let position = snapshots_of(exchange, rows)[i];
    if i < snapshots_of(exchange, before).len() {
        law_snapshots_are_well_formed(exchange, before, i);
        let j = choose|j: int|
            0 <= j < before.len() && #[trigger] snapshot_of(exchange, before[j]) == Some(position);
        assert(snapshot_of(exchange, rows[j]) == Some(position));
    } else {
        assert(snapshot_of(exchange, rows[rows.len() - 1]) == Some(position));
    }
}

/// The side decides the sign: a position reported as long is long, one reported as
/// short is not, whatever sign the exchange gave its size.
pub proof fn law_side_decides_sign(exchange: String, row: PositionRow)
    requires
        snapshot_of(exchange, row) is Some,
    ensures
        row.position_side == PositionSide::Long && !row.size.nan() ==> snapshot_of(
            exchange,
            row,
        )->0.long(),
        row.position_side == PositionSide::Short ==> !snapshot_of(exchange, row)->0.long(),
{
}

/// A row is skipped exactly when it is flat, when its side is unknown, or when one of its prices
/// is not a finite number above zero; and the reason given is the first of these that holds.
pub proof fn law_rows_are_skipped_when_malformed(row: PositionRow)
    ensures
        ({
            let flat = row.size.finite() && row.size.units() == 0;
            let sideless = row.position_side == PositionSide::Unknown;
            let priced = row.avg_price.finite() && row.avg_price.units() > 0
                && row.mark_price.finite() && row.mark_price.units() > 0;
            &&& skip_of(row) == Some(SkipReason::Flat) <==> flat
            &&& skip_of(row) == Some(SkipReason::UnknownSide) <==> !flat && sideless
            &&& skip_of(row) == Some(SkipReason::InsanePrices) <==> !flat && !sideless && !priced
            &&& skip_of(row) is None <==> !flat && !sideless && priced
        }),
{
    if row.size.finite() {
        law_sign_of_finite_numbers(row.size);
    }
    law_sane_prices_are_the_positive_numbers(row.avg_price);
    law_sane_prices_are_the_positive_numbers(row.mark_price);
}

/// A snapshot carries its row over: instrument, entry price and mark price are the row's, the
/// exchange is the one that reported it, and the size is the reported one with the sign of the
/// side.
pub proof fn law_snapshot_carries_the_row(exchange: String, row: PositionRow)
    ensures
        snapshot_of(exchange, row) is Some <==> {
            &&& !(row.size.finite() && row.size.units() == 0)
            &&& row.position_side != PositionSide::Unknown
            &&& row.avg_price.finite() && row.avg_price.units() > 0
            &&& row.mark_price.finite() && row.mark_price.units() > 0
        },
        snapshot_of(exchange, row) is Some ==> {
            let position = snapshot_of(exchange, row)->0;
            &&& position.exchange == exchange
            &&& position.inst == row.inst
            &&& position.avg_price == row.avg_price
            &&& position.mark_price == row.mark_price
            &&& row.position_side == PositionSide::Both ==> position.size == row.size
            &&& row.size.finite() ==> {
                let size = if row.size.units() < 0 {
                    -row.size.units()
                } else {
                    row.size.units()
                };
                &&& position.size.finite()
                &&& row.position_side == PositionSide::Long ==> position.size.units() == size
                &&& row.position_side == PositionSide::Short ==> position.size.units() == -size
            }
        },
{
    law_rows_are_skipped_when_malformed(row);
    law_absolute_values(row.size);
}

/// A position is long exactly when its size is above zero.
pub proof fn law_long_positions_have_positive_sizes(position: PositionSnapshot)
    requires
        position.size.finite(),
    ensures
        position.long() <==> position.size.units() > 0,
{
    law_sign_of_finite_numbers(position.size);
}

/// The rows of an exchange are read one by one, in the order reported: what two lists give one
/// after the other, their concatenation gives, and a single row gives its snapshot or nothing.
pub proof fn law_rows_are_read_one_by_one(
    exchange: String,
    first: Seq<PositionRow>,
    second: Seq<PositionRow>,
    row: PositionRow,
)
    ensures
        snapshots_of(exchange, first + second) == snapshots_of(exchange, first) + snapshots_of(
            exchange,
            second,
        ),
        snapshots_of(exchange, seq![row]) == match snapshot_of(exchange, row) {
            Some(position) => seq![position],
            None => Seq::empty(),
        },
        snapshots_of(exchange, Seq::empty()) == Seq::<PositionSnapshot>::empty(),
    decreases second.len(),
{
    assert(snapshots_of(exchange, Seq::<PositionRow>::empty()) =~= Seq::empty());
    assert(seq![row].drop_last() =~= Seq::<PositionRow>::empty());
    assert(snapshots_of(exchange, seq![row]) =~= match snapshot_of(exchange, row) {
        Some(position) => seq![position],
        None => Seq::empty(),
    });
    if second.len() == 0 {
        assert(first + second =~= first);
        assert(snapshots_of(exchange, first + second) =~= snapshots_of(exchange, first)
            + snapshots_of(exchange, second));
    } else {
        law_rows_are_read_one_by_one(exchange, first, second.drop_last(), row);
        assert((first + second).drop_last() =~= first + second.drop_last());
        assert(snapshots_of(exchange, first + second) =~= snapshots_of(exchange, first)
            + snapshots_of(exchange, second));
    }
}

}
