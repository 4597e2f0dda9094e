//! Which line of a lyric document is active at a playback position.
use vstd::prelude::*;

use crate::parser::Lyric;
use crate::timestamp::Timestamp;

verus! {

/// The timestamps of the lines, in document order.
pub open spec fn stamps(lines: Seq<Lyric>) -> Seq<Timestamp> {
    lines.map_values(|l: Lyric| l.timestamp)
}

/// Whether line `i` is the active one at `cursor`: the last line whose
/// timestamp comes strictly before the cursor.
pub open spec fn is_active(ts: Seq<Timestamp>, cursor: Timestamp, i: int) -> bool {
    &&& 0 <= i < ts.len()
    &&& ts[i].before(cursor)
    &&& forall|j: int| i < j < ts.len() ==> !(#[trigger] ts[j]).before(cursor)
}

/// Whether no line is active at `cursor`: none comes strictly before it.
pub open spec fn none_active(ts: Seq<Timestamp>, cursor: Timestamp) -> bool {
    forall|j: int| 0 <= j < ts.len() ==> !(#[trigger] ts[j]).before(cursor)
}

/// Whether the timestamps never decrease.
pub open spec fn is_sorted(ts: Seq<Timestamp>) -> bool {
    forall|i: int, j: int| 0 <= i < j < ts.len() ==> !(#[trigger] ts[j]).before(#[trigger] ts[i])
}

/// Whether the lines are in order of their timestamps.
pub fn in_order(lines: &[Lyric]) -> (r: bool)
    ensures
        r == is_sorted(stamps(lines@)),
{
    let ghost ts = stamps(lines@);
    let mut i: usize = 1;
    if lines.len() == 0 {
        return true;
    }
    while i < lines.len()
        invariant
            1 <= i <= lines@.len(),
            ts == stamps(lines@),
            forall|a: int, b: int| 0 <= a < b < i ==> !(#[trigger] ts[b]).before(#[trigger] ts[a]),
        decreases lines@.len() - i,
    {
        if lines[i].timestamp.lt(&lines[i - 1].timestamp) {
            assert(ts[i as int].before(ts[i - 1]));
            return false;
        }
        assert forall|a: int, b: int| 0 <= a < b < i + 1 implies !(#[trigger] ts[b]).before(
            #[trigger] ts[a],
        ) by {
            if b == i && a < i - 1 {
                assert(!ts[i - 1].before(ts[a]));
            }
        }
        i = i + 1;
    }
    true
}

/// The index of the active line at `cursor`, if any; this holds of lines in
/// any order.
pub fn current_line(lines: &[Lyric], cursor: Timestamp) -> (r: Option<usize>)
    ensures
        match r {
            Some(i) => is_active(stamps(lines@), cursor, i as int),
            None => none_active(stamps(lines@), cursor),
        },
{
    let ghost ts = stamps(lines@);
    let mut i = lines.len();
    while i > 0
        invariant
            i <= lines@.len(),
            ts == stamps(lines@),
            forall|j: int| i <= j < ts.len() ==> !(#[trigger] ts[j]).before(cursor),
        decreases i,
    {
        if lines[i - 1].timestamp.lt(&cursor) {
            return Some(i - 1);
        }
        i = i - 1;
    }
    None
}

/// The index of the active line at `cursor`, if any, found by halving; the
/// lines must be in order of their timestamps.
pub fn current_line_sorted(lines: &[Lyric], cursor: Timestamp) -> (r: Option<usize>)
    requires
        is_sorted(stamps(lines@)),
    ensures
        match r {
            Some(i) => is_active(stamps(lines@), cursor, i as int),
            None => none_active(stamps(lines@), cursor),
        },
{
    let ghost ts = stamps(lines@);
    let mut lo: usize = 0;
    let mut hi: usize = lines.len();
    while lo < hi
        invariant
            lo <= hi <= lines@.len(),
            ts == stamps(lines@),
            is_sorted(ts),
            forall|j: int| 0 <= j < lo ==> (#[trigger] ts[j]).before(cursor),
            forall|j: int| hi <= j < ts.len() ==> !(#[trigger] ts[j]).before(cursor),
        decreases hi - lo,
    {
        let mid = lo + (hi - lo) / 2;
        if lines[mid].timestamp.lt(&cursor) {
            assert forall|j: int| 0 <= j <= mid implies (#[trigger] ts[j]).before(cursor) by {
                if j < mid {
                    assert(!ts[mid as int].before(ts[j]));
                }
            }
            lo = mid + 1;
        } else {
            assert forall|j: int| mid <= j < ts.len() implies !(#[trigger] ts[j]).before(cursor) by {
                if j > mid {
                    assert(!ts[j].before(ts[mid as int]));
                }
            }
            hi = mid;
        }
    }
    if lo == 0 {
        None
    } else {
        Some(lo - 1)
    }
}

} // verus!
