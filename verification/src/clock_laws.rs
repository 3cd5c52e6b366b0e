//! Laws of time.

use vstd::prelude::*;

use crate::clock::Moment;

verus! {

/// Of two different moments one is after the other, and not both ways; what is after what is after a
/// moment is after it; and a later second is after an earlier one.
pub proof fn moments_are_in_order(a: Moment, b: Moment, c: Moment)
    ensures
        a == b || a.is_after(b) || b.is_after(a),
        !(a.is_after(b) && b.is_after(a)),
        a.is_after(b) && b.is_after(c) ==> a.is_after(c),
        a.secs > b.secs ==> a.is_after(b),
        a.secs == b.secs && a.nanos > b.nanos ==> a.is_after(b),
{
}

/// A moment that is some seconds later is so many seconds later, with the same fraction of a second,
/// and is after the first.
pub proof fn later_moments_are_after(a: Moment, delta: int)
    requires
        0 < delta <= 86_400,
        a.secs + delta <= 0x7fff_ffff_ffff_ffff,
        a.nanos < 2_000_000_000,
    ensures
        a.later(delta).secs == a.secs + delta,
        a.later(delta).nanos == a.nanos % 1_000_000_000,
        a.later(delta).is_after(a),
{
}

} // verus!
