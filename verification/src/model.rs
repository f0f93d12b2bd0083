//! The mathematical model of the world: live-cell sets over the plane of
//! `i32` coordinates, Moore neighborhoods, cached-count arithmetic, and the
//! synchronous Life rule. Everything here is specification and proof; the
//! executable engine in `life` states its contracts over these functions.

use vstd::prelude::*;

verus! {

/// A cell coordinate: a pair of signed integers, used as a unique key.
pub type Coord = (i32, i32);

/// True when `q` is one of the eight Moore neighbors of `p`.
pub open spec fn is_nbr(p: Coord, q: Coord) -> bool {
    &&& p != q
    &&& -1 <= q.0 - p.0 <= 1
    &&& -1 <= q.1 - p.1 <= 1
}

/// Whether the plane point (x, y) is representable as a coordinate and is
/// live in `s`. Points beyond the coordinate range are permanently dead.
pub open spec fn live_at(s: Set<Coord>, x: int, y: int) -> bool {
    &&& i32::MIN <= x <= i32::MAX
    &&& i32::MIN <= y <= i32::MAX
    &&& s.contains((x as i32, y as i32))
}

/// 1 when the plane point (x, y) is live in `s`, else 0.
pub open spec fn ind(s: Set<Coord>, x: int, y: int) -> int {
    if live_at(s, x, y) {
        1
    } else {
        0
    }
}

/// The number of live cells among the eight Moore neighbors of (x, y).
pub open spec fn nbr_count(s: Set<Coord>, x: int, y: int) -> int {
    ind(s, x - 1, y - 1) + ind(s, x, y - 1) + ind(s, x + 1, y - 1) + ind(s, x - 1, y) + ind(
        s,
        x + 1,
        y,
    ) + ind(s, x - 1, y + 1) + ind(s, x, y + 1) + ind(s, x + 1, y + 1)
}

/// `nbr_count` at a representable coordinate.
pub open spec fn pair_count(s: Set<Coord>, p: Coord) -> int {
    nbr_count(s, p.0 as int, p.1 as int)
}

/// What a point query reports over live set `s`: live cells are present and
/// alive, dead cells with a live neighbor are present as frontier, and
/// everything else is absent.
pub open spec fn spec_get(s: Set<Coord>, p: Coord) -> Option<bool> {
    if s.contains(p) {
        Some(true)
    } else if pair_count(s, p) > 0 {
        Some(false)
    } else {
        None
    }
}

/// The Life rule for one cell, read over the pre-generation live set: a live
/// cell survives with exactly 2 or 3 live neighbors; a dead cell is born with
/// exactly 3.
pub open spec fn step_cell(s: Set<Coord>, p: Coord) -> bool {
    if s.contains(p) {
        pair_count(s, p) == 2 || pair_count(s, p) == 3
    } else {
        pair_count(s, p) == 3
    }
}

/// The live set after flipping the cell at `p`.
pub open spec fn toggled(s: Set<Coord>, p: Coord) -> Set<Coord> {
    if s.contains(p) {
        s.remove(p)
    } else {
        s.insert(p)
    }
}

/// The live set after one synchronous generation.
pub open spec fn next_live(s: Set<Coord>) -> Set<Coord> {
    Set::new(|p: Coord| step_cell(s, p))
}

/// A cached neighbor count is always between 0 and 8.
pub proof fn lemma_count_bounds(s: Set<Coord>, p: Coord)
    ensures
        0 <= pair_count(s, p) <= 8,
{
}

/// Raising `p` leaves every neighbor count unchanged except at the Moore
/// neighbors of `p`, where it grows by one (when `p` was dead before).
pub proof fn lemma_count_insert(s: Set<Coord>, p: Coord, q: Coord)
    requires
        !s.contains(p),
    ensures
        pair_count(s.insert(p), q) == pair_count(s, q) + if is_nbr(q, p) {
            1int
        } else {
            0int
        },
{
}

/// Lowering `p` leaves every neighbor count unchanged except at the Moore
/// neighbors of `p`, where it drops by one (when `p` was live before).
pub proof fn lemma_count_remove(s: Set<Coord>, p: Coord, q: Coord)
    requires
        s.contains(p),
    ensures
        pair_count(s.remove(p), q) == pair_count(s, q) - if is_nbr(q, p) {
            1int
        } else {
            0int
        },
{
}

/// A cell with a dead Moore neighbor counts at most 7 live neighbors, and one
/// with a live Moore neighbor counts at least 1.
pub proof fn lemma_count_slack(s: Set<Coord>, p: Coord, q: Coord)
    requires
        is_nbr(q, p),
    ensures
        !s.contains(p) ==> pair_count(s, q) <= 7,
        s.contains(p) ==> pair_count(s, q) >= 1,
{
}

/// Nothing neighbors anything in the empty live set.
pub proof fn lemma_count_empty(p: Coord)
    ensures
        pair_count(Set::<Coord>::empty(), p) == 0,
{
}

} // verus!
