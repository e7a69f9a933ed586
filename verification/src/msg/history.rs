//! Bounded histories of readings: each new reading is appended and, once the
//! history is longer than its bound, the oldest reading is dropped.

use vstd::prelude::*;

verus! {

/// The number of readings a lidar history keeps.
pub const LIDAR_HISTORY_LEN: usize = 100;

/// The history after `value` is recorded: appended, then, when that makes
/// it longer than `cap`, without its oldest reading.
pub open spec fn recorded<T>(h: Seq<T>, value: T, cap: nat) -> Seq<T> {
    let p = h.push(value);
    if p.len() > cap {
        p.drop_first()
    } else {
        p
    }
}

/// Records `value` in a history bounded by `cap`.
pub fn record_reading<T>(history: &mut Vec<T>, value: T, cap: usize)
    ensures
        final(history)@ == recorded(old(history)@, value, cap as nat),
{
    history.push(value);
    if history.len() > cap {
        history.remove(0);
    }
    assert(history@ =~= recorded(old(history)@, value, cap as nat));
}

/// A history within its bound stays within it, its newest reading is the
/// one just recorded, and the readings before it are the latest of the old
/// history, in order.
pub proof fn law_history_bounded<T>(h: Seq<T>, value: T, cap: nat)
    requires
        h.len() <= cap,
        cap > 0,
    ensures
        recorded(h, value, cap).len() <= cap,
        recorded(h, value, cap).last() == value,
        recorded(h, value, cap).drop_last() == h.subrange(h.len() + 1 - recorded(h, value, cap).len(), h.len() as int),
{
    let r = recorded(h, value, cap);
    assert(r.drop_last() =~= h.subrange(h.len() + 1 - r.len(), h.len() as int));
}

} // verus!
