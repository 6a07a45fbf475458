//! When an exit level counts as reached, and how soon a close may be repeated.

use crate::number::{law_comparison_is_numeric, Float64};
use crate::table::Table;
use vstd::prelude::*;

verus! {

/// How long a close is not repeated, in nanoseconds.
pub const REFIRE_AFTER: u128 = 30_000_000_000;

/// Whether a mark has reached an exit level from the profitable side.
pub open spec fn crossed(mark: Float64, level: Float64, is_long: bool) -> bool {
    if is_long {
        mark.at_most(level)
    } else {
        level.at_most(mark)
    }
}

pub fn is_crossed(mark: Float64, level: Float64, is_long: bool) -> (r: bool)
    ensures
        r == crossed(mark, level, is_long),
{
    if is_long {
        mark.le(level)
    } else {
        level.le(mark)
    }
}

/// The time from `since` to `now`, none where `since` is later.
pub open spec fn time_since(now: u128, since: u128) -> u128 {
    if now < since {
        0
    } else {
        (now - since) as u128
    }
}

/// Whether a close may be sent: none was within [`REFIRE_AFTER`].
pub open spec fn fire_allowed(fired: Map<Seq<char>, u128>, key: Seq<char>, now: u128) -> bool {
    !(fired.contains_key(key) && time_since(now, fired[key]) < REFIRE_AFTER)
}

/// Whether a close may be sent for a key.
pub fn may_fire(fired: &Table<u128>, key: &str, now: u128) -> (r: bool)
    ensures
        r == fire_allowed(fired@, key@, now),
{
    match fired.get(key) {
        Some(at) => now.saturating_sub(*at) >= REFIRE_AFTER,
        None => true,
    }
}

/// A close is not repeated within [`REFIRE_AFTER`], and may be again from then on.
pub proof fn law_no_refire_too_soon(
    fired: Map<Seq<char>, u128>,
    key: Seq<char>,
    at: u128,
    now: u128,
)
    ensures
        now < at + REFIRE_AFTER ==> !fire_allowed(fired.insert(key, at), key, now),
        now >= at + REFIRE_AFTER ==> fire_allowed(fired.insert(key, at), key, now),
{
}

/// An exit level is reached by every mark at or beyond it on the losing side: at or below it
/// for a long position, at or above it for a short one.
pub proof fn law_level_is_reached_at_or_beyond_it(mark: Float64, level: Float64)
    requires
        mark.finite(),
        level.finite(),
    ensures
        crossed(mark, level, true) <==> mark.units() <= level.units(),
        crossed(mark, level, false) <==> mark.units() >= level.units(),
{
    law_comparison_is_numeric(mark, level);
    law_comparison_is_numeric(level, mark);
}

/// Once a level is reached, every worse mark reaches it too, and it is reached by a mark that
/// equals it. A mark or a level that is no number never counts as reached.
pub proof fn law_worse_marks_reach_the_level(
    mark: Float64,
    worse: Float64,
    level: Float64,
    is_long: bool,
)
    ensures
        crossed(mark, level, is_long) && is_long && worse.at_most(mark) ==> crossed(
            worse,
            level,
            is_long,
        ),
        crossed(mark, level, is_long) && !is_long && mark.at_most(worse) ==> crossed(
            worse,
            level,
            is_long,
        ),
        !level.nan() ==> crossed(level, level, is_long),
        mark.nan() || level.nan() ==> !crossed(mark, level, is_long),
{
}

/// A close that never went out holds nothing up, and one for another position neither.
pub proof fn law_only_own_closes_hold_up(
    fired: Map<Seq<char>, u128>,
    key: Seq<char>,
    other: Seq<char>,
    at: u128,
    now: u128,
)
    ensures
        REFIRE_AFTER == 30 * 1_000_000_000,
        !fired.contains_key(key) ==> fire_allowed(fired, key, now),
        other != key ==> fire_allowed(fired.insert(other, at), key, now) == fire_allowed(
            fired,
            key,
            now,
        ),
        fire_allowed(fired.remove(key), key, now),
{
}

}
