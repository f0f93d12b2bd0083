//! The simulation engine: a sparse world of cells over an unbounded-feeling
//! grid of `i32` coordinates.
//!
//! The world stores a record only for cells that are live or border a live
//! cell; each record caches its live Moore-neighbor count. The well-formed
//! invariant [`LifeWorld::wf`] ties the store to the abstract live set
//! [`LifeWorld::lives`]: exactly the live and frontier cells are stored, and
//! every cached count equals the true count.

use crate::cellmap::map_cells;
use crate::cellmap::map_entries;
use crate::cellmap::map_get;
use crate::cellmap::map_insert;
use crate::cellmap::map_new;
use crate::cellmap::map_remove;
use crate::cellmap::CellStore;
use crate::model::is_nbr;
use crate::model::lemma_count_bounds;
use crate::model::lemma_count_insert;
use crate::model::lemma_count_remove;
use crate::model::lemma_count_slack;
use crate::model::next_live;
use crate::model::pair_count;
use crate::model::spec_get;
use crate::model::step_cell;
use crate::model::Coord;
use vstd::prelude::*;

verus! {

/// One stored cell record: its live/dead status and the cached number of
/// live cells among its eight Moore neighbors.
#[derive(PartialEq, Eq, Structural, Clone, Copy, Debug)]
pub struct LifeCell {
    pub alive: bool,
    pub num_neighbors: u8,
}

impl LifeCell {
    /// A fresh record with the given status and no counted neighbors.
    pub fn new(alive: bool) -> (c: LifeCell)
        ensures
            c.alive == alive,
            c.num_neighbors == 0,
    {
        LifeCell { alive, num_neighbors: 0 }
    }
}

/// The set of live coordinates recorded in store contents `m`.
pub open spec fn live_of(m: Map<Coord, (bool, u8)>) -> Set<Coord> {
    Set::new(|p: Coord| m.dom().contains(p) && m[p].0)
}

/// Store contents `m` are well formed: the stored coordinates are exactly
/// the live cells and their frontier (dead cells with a live neighbor), and
/// every cached count is the true live-neighbor count.
pub open spec fn wf_map(m: Map<Coord, (bool, u8)>) -> bool {
    &&& m.dom().finite()
    &&& forall|p: Coord|
        #[trigger] m.dom().contains(p) ==> (m[p].1 as int) == pair_count(live_of(m), p)
    &&& forall|p: Coord| #[trigger] m.dom().contains(p) ==> (m[p].0 || pair_count(live_of(m), p) > 0)
    &&& forall|p: Coord|
        #![trigger pair_count(live_of(m), p)]
        pair_count(live_of(m), p) > 0 ==> m.dom().contains(p)
}

/// The record at `q` after one more of its neighbors came alive: an absent
/// record is created dead, with the one neighbor counted.
spec fn bumped_up(m: Map<Coord, (bool, u8)>, q: Coord) -> (bool, u8) {
    if m.dom().contains(q) {
        (m[q].0, (m[q].1 + 1) as u8)
    } else {
        (false, 1u8)
    }
}

/// Contents after counting one more live neighbor at `q`. The guard on an
/// already-full count never fires when `m` is well formed.
spec fn nudged_up(m: Map<Coord, (bool, u8)>, q: Coord) -> Map<Coord, (bool, u8)> {
    if m.dom().contains(q) && m[q].1 >= 8 {
        m
    } else {
        m.insert(q, bumped_up(m, q))
    }
}

/// Contents after counting one fewer live neighbor at `q`: a dead record
/// whose count reaches zero is reclaimed. The missing-record guard never
/// fires when `m` is well formed.
spec fn nudged_down(m: Map<Coord, (bool, u8)>, q: Coord) -> Map<Coord, (bool, u8)> {
    if m.dom().contains(q) && m[q].1 >= 1 {
        if m[q].1 == 1 && !m[q].0 {
            m.remove(q)
        } else {
            m.insert(q, (m[q].0, (m[q].1 - 1) as u8))
        }
    } else {
        m
    }
}

/// Contents after adjusting the count at plane point (x, y), when that point
/// is representable; points beyond the coordinate range hold no record.
spec fn nudged(m: Map<Coord, (bool, u8)>, x: int, y: int, up: bool) -> Map<
    Coord,
    (bool, u8),
> {
    if i32::MIN <= x <= i32::MAX && i32::MIN <= y <= i32::MAX {
        if up {
            nudged_up(m, (x as i32, y as i32))
        } else {
            nudged_down(m, (x as i32, y as i32))
        }
    } else {
        m
    }
}

/// Contents after adjusting the count at all eight Moore neighbors of (x, y).
spec fn nudged_all(m: Map<Coord, (bool, u8)>, x: int, y: int, up: bool) -> Map<
    Coord,
    (bool, u8),
> {
    nudged(
        nudged(
            nudged(
                nudged(
                    nudged(
                        nudged(
                            nudged(nudged(m, x - 1, y - 1, up), x, y - 1, up),
                            x + 1,
                            y - 1,
                            up,
                        ),
                        x - 1,
                        y,
                        up,
                    ),
                    x + 1,
                    y,
                    up,
                ),
                x - 1,
                y + 1,
                up,
            ),
            x,
            y + 1,
            up,
        ),
        x + 1,
        y + 1,
        up,
    )
}

/// One adjustment leaves every other coordinate untouched.
proof fn lemma_nudged_untouched(m: Map<Coord, (bool, u8)>, x: int, y: int, up: bool, p: Coord)
    requires
        x != p.0 as int || y != p.1 as int,
    ensures
        nudged(m, x, y, up).dom().contains(p) == m.dom().contains(p),
        m.dom().contains(p) ==> nudged(m, x, y, up)[p] == m[p],
{
}

/// What one adjustment leaves at its own point depends only on what stood at
/// that point before.
proof fn lemma_nudged_local(
    ma: Map<Coord, (bool, u8)>,
    mb: Map<Coord, (bool, u8)>,
    x: int,
    y: int,
    up: bool,
    p: Coord,
)
    requires
        i32::MIN <= x <= i32::MAX,
        i32::MIN <= y <= i32::MAX,
        p == (x as i32, y as i32),
        ma.dom().contains(p) == mb.dom().contains(p),
        ma.dom().contains(p) ==> ma[p] == mb[p],
    ensures
        nudged(ma, x, y, up).dom().contains(p) == nudged(mb, x, y, up).dom().contains(p),
        nudged(ma, x, y, up).dom().contains(p) ==> nudged(ma, x, y, up)[p] == nudged(
            mb,
            x,
            y,
            up,
        )[p],
{
}

/// What `nudged_all` does at each single coordinate: a Moore neighbor of the
/// target holds what the one adjustment at its own point leaves there, and
/// every other coordinate is untouched.
proof fn lemma_nudged_all_at(m: Map<Coord, (bool, u8)>, x: int, y: int, up: bool, p: Coord)
    requires
        i32::MIN <= x <= i32::MAX,
        i32::MIN <= y <= i32::MAX,
    ensures
        (!is_nbr((x as i32, y as i32), p) ==> (nudged_all(m, x, y, up).dom().contains(p)
            == m.dom().contains(p)) && (m.dom().contains(p) ==> nudged_all(m, x, y, up)[p]
            == m[p])),
        (is_nbr((x as i32, y as i32), p) ==> (nudged_all(m, x, y, up).dom().contains(p) == nudged(
            m,
            p.0 as int,
            p.1 as int,
            up,
        ).dom().contains(p)) && (nudged_all(m, x, y, up).dom().contains(p) ==> nudged_all(
            m,
            x,
            y,
            up,
        )[p] == nudged(m, p.0 as int, p.1 as int, up)[p])),
        m.dom().finite() ==> nudged_all(m, x, y, up).dom().finite(),
{
    let t = (x as i32, y as i32);
    let m1 = nudged(m, x - 1, y - 1, up);
    let m2 = nudged(m1, x, y - 1, up);
    let m3 = nudged(m2, x + 1, y - 1, up);
    let m4 = nudged(m3, x - 1, y, up);
    let m5 = nudged(m4, x + 1, y, up);
    let m6 = nudged(m5, x - 1, y + 1, up);
    let m7 = nudged(m6, x, y + 1, up);
    let m8 = nudged(m7, x + 1, y + 1, up);
    assert(nudged_all(m, x, y, up) == m8);
    if m.dom().finite() {
        assert(m1.dom().finite());
        assert(m2.dom().finite());
        assert(m3.dom().finite());
        assert(m4.dom().finite());
        assert(m5.dom().finite());
        assert(m6.dom().finite());
        assert(m7.dom().finite());
        assert(m8.dom().finite());
    }
    let px = p.0 as int;
    let py = p.1 as int;
    if px == x - 1 && py == y - 1 {
        lemma_nudged_local(m, m, x - 1, y - 1, up, p);
    } else {
        lemma_nudged_untouched(m, x - 1, y - 1, up, p);
    }
    if px == x && py == y - 1 {
        lemma_nudged_local(m1, m, x, y - 1, up, p);
    } else {
        lemma_nudged_untouched(m1, x, y - 1, up, p);
    }
    if px == x + 1 && py == y - 1 {
        lemma_nudged_local(m2, m, x + 1, y - 1, up, p);
    } else {
        lemma_nudged_untouched(m2, x + 1, y - 1, up, p);
    }
    if px == x - 1 && py == y {
        lemma_nudged_local(m3, m, x - 1, y, up, p);
    } else {
        lemma_nudged_untouched(m3, x - 1, y, up, p);
    }
    if px == x + 1 && py == y {
        lemma_nudged_local(m4, m, x + 1, y, up, p);
    } else {
        lemma_nudged_untouched(m4, x + 1, y, up, p);
    }
    if px == x - 1 && py == y + 1 {
        lemma_nudged_local(m5, m, x - 1, y + 1, up, p);
    } else {
        lemma_nudged_untouched(m5, x - 1, y + 1, up, p);
    }
    if px == x && py == y + 1 {
        lemma_nudged_local(m6, m, x, y + 1, up, p);
    } else {
        lemma_nudged_untouched(m6, x, y + 1, up, p);
    }
    if px == x + 1 && py == y + 1 {
        lemma_nudged_local(m7, m, x + 1, y + 1, up, p);
    } else {
        lemma_nudged_untouched(m7, x + 1, y + 1, up, p);
    }
}

/// The live set after driving `t` to status `alive`.
spec fn flipped(l: Set<Coord>, t: Coord, alive: bool) -> Set<Coord> {
    if alive {
        l.insert(t)
    } else {
        l.remove(t)
    }
}

/// After a dirty `set_cell` transition, each single coordinate of the store
/// holds a record that is correct for the new live set: right status, right
/// cached count, present exactly for live cells and their frontier.
proof fn lemma_set_cell_point(
    m0: Map<Coord, (bool, u8)>,
    m1: Map<Coord, (bool, u8)>,
    m9: Map<Coord, (bool, u8)>,
    mf: Map<Coord, (bool, u8)>,
    x: i32,
    y: i32,
    alive: bool,
    n0: u8,
    p: Coord,
)
    requires
        wf_map(m0),
        m0.dom().contains((x, y)) ==> n0 == m0[(x, y)].1,
        !m0.dom().contains((x, y)) ==> n0 == 0,
        !alive ==> m0.dom().contains((x, y)) && m0[(x, y)].0,
        alive ==> !(m0.dom().contains((x, y)) && m0[(x, y)].0),
        m1 == m0.insert((x, y), (alive, n0)),
        m9 == nudged_all(m1, x as int, y as int, alive),
        mf == if !alive && n0 == 0 {
            m9.remove((x, y))
        } else {
            m9
        },
    ensures
        mf.dom().contains(p) ==> (mf[p].1 as int) == pair_count(
            flipped(live_of(m0), (x, y), alive),
            p,
        ),
        mf.dom().contains(p) ==> (mf[p].0 || pair_count(flipped(live_of(m0), (x, y), alive), p)
            > 0),
        pair_count(flipped(live_of(m0), (x, y), alive), p) > 0 ==> mf.dom().contains(p),
        (mf.dom().contains(p) && mf[p].0) == flipped(live_of(m0), (x, y), alive).contains(p),
{
    let t = (x, y);
    let xi = x as int;
    let yi = y as int;
    let l0 = live_of(m0);
    let l1 = flipped(l0, t, alive);
    lemma_nudged_all_at(m1, xi, yi, alive, p);
    lemma_nudged_all_at(m1, xi, yi, alive, t);
    lemma_count_bounds(l0, p);
    lemma_count_bounds(l0, t);
    if alive {
        lemma_count_insert(l0, t, p);
        lemma_count_insert(l0, t, t);
    } else {
        lemma_count_remove(l0, t, p);
        lemma_count_remove(l0, t, t);
    }
    if p == t {
    } else if is_nbr(t, p) {
        lemma_count_slack(l0, t, p);
        assert(m1.dom().contains(p) == m0.dom().contains(p));
        assert(m0.dom().contains(p) ==> m1[p] == m0[p]);
    } else {
    }
}

/// After a dirty `set_cell` transition the store is well formed again and
/// its live set is the old one with the target driven to its new status.
proof fn lemma_set_cell_wf(
    m0: Map<Coord, (bool, u8)>,
    m1: Map<Coord, (bool, u8)>,
    m9: Map<Coord, (bool, u8)>,
    mf: Map<Coord, (bool, u8)>,
    x: i32,
    y: i32,
    alive: bool,
    n0: u8,
)
    requires
        wf_map(m0),
        m0.dom().contains((x, y)) ==> n0 == m0[(x, y)].1,
        !m0.dom().contains((x, y)) ==> n0 == 0,
        !alive ==> m0.dom().contains((x, y)) && m0[(x, y)].0,
        alive ==> !(m0.dom().contains((x, y)) && m0[(x, y)].0),
        m1 == m0.insert((x, y), (alive, n0)),
        m9 == nudged_all(m1, x as int, y as int, alive),
        mf == if !alive && n0 == 0 {
            m9.remove((x, y))
        } else {
            m9
        },
    ensures
        wf_map(mf),
        live_of(mf) == flipped(live_of(m0), (x, y), alive),
{
    let t = (x, y);
    let l1 = flipped(live_of(m0), t, alive);
    assert forall|p: Coord| (mf.dom().contains(p) && mf[p].0) == l1.contains(p) by {
        lemma_set_cell_point(m0, m1, m9, mf, x, y, alive, n0, p);
    }
    assert(live_of(mf) =~= l1);
    lemma_nudged_all_at(m1, x as int, y as int, alive, t);
    assert(mf.dom().finite());
    assert forall|p: Coord| #[trigger] mf.dom().contains(p) implies (mf[p].1 as int) == pair_count(
        live_of(mf),
        p,
    ) && (mf[p].0 || pair_count(live_of(mf), p) > 0) by {
        lemma_set_cell_point(m0, m1, m9, mf, x, y, alive, n0, p);
    }
    assert forall|p: Coord|
        #![trigger pair_count(live_of(mf), p)]
        pair_count(live_of(mf), p) > 0 implies mf.dom().contains(p) by {
        lemma_set_cell_point(m0, m1, m9, mf, x, y, alive, n0, p);
    }
}

/// The live coordinates among the first `k` handed-out entries.
spec fn live_keys_prefix(es: Seq<crate::cellmap::CellEntry>, k: int) -> Set<Coord>
    decreases k,
{
    if k <= 0 {
        Set::empty()
    } else if es[k - 1].1.0 {
        live_keys_prefix(es, k - 1).insert(es[k - 1].0)
    } else {
        live_keys_prefix(es, k - 1)
    }
}

/// Membership in a live-key prefix set means some earlier entry carries the
/// coordinate, live.
proof fn lemma_live_keys_prefix(es: Seq<crate::cellmap::CellEntry>, k: int, p: Coord)
    requires
        0 <= k <= es.len(),
    ensures
        live_keys_prefix(es, k).contains(p) <==> exists|i: int|
            0 <= i < k && (#[trigger] es[i]).0 == p && es[i].1.0,
    decreases k,
{
    if k > 0 {
        lemma_live_keys_prefix(es, k - 1, p);
    }
}

/// Every live-key prefix set is finite.
proof fn lemma_live_keys_prefix_finite(es: Seq<crate::cellmap::CellEntry>, k: int)
    requires
        0 <= k,
    ensures
        live_keys_prefix(es, k).finite(),
    decreases k,
{
    if k > 0 {
        lemma_live_keys_prefix_finite(es, k - 1);
    }
}

/// The coordinates of the first `k` queued generation changes.
spec fn delta_keys_prefix(ds: Seq<(bool, Coord)>, k: int) -> Set<Coord>
    decreases k,
{
    if k <= 0 {
        Set::empty()
    } else {
        delta_keys_prefix(ds, k - 1).insert(ds[k - 1].1)
    }
}

/// Membership in a delta-key prefix set means some earlier queued change
/// names the coordinate.
proof fn lemma_delta_keys_prefix(ds: Seq<(bool, Coord)>, k: int, p: Coord)
    requires
        0 <= k <= ds.len(),
    ensures
        delta_keys_prefix(ds, k).contains(p) <==> exists|i: int|
            0 <= i < k && (#[trigger] ds[i]).1 == p,
    decreases k,
{
    if k > 0 {
        lemma_delta_keys_prefix(ds, k - 1, p);
    }
}

/// The world: the sparse active set plus a generation counter.
#[derive(Debug)]
pub struct LifeWorld {
    cells: CellStore,
    pub generations: usize,
}

impl LifeWorld {
    /// The contents of the active set.
    pub closed spec fn cell_map(&self) -> Map<Coord, (bool, u8)> {
        map_cells(self.cells)
    }

    /// The generation counter, for contracts.
    pub closed spec fn gens(&self) -> int {
        self.generations as int
    }

    /// The set of currently live cells: the world's abstract state.
    pub open spec fn lives(&self) -> Set<Coord> {
        live_of(self.cell_map())
    }

    /// The world's invariant, established by the constructors and preserved
    /// by every mutation.
    pub open spec fn wf(&self) -> bool {
        wf_map(self.cell_map())
    }

    /// An empty world: no cells, generation zero.
    pub fn new() -> (w: LifeWorld)
        ensures
            w.wf(),
            w.lives() == Set::<Coord>::empty(),
            w.gens() == 0,
    {
        let w = LifeWorld { cells: map_new(), generations: 0 };
        proof {
            assert(w.lives() =~= Set::<Coord>::empty());
            assert forall|p: Coord| pair_count(w.lives(), p) == 0 by {
                crate::model::lemma_count_empty(p);
                assert(w.lives() =~= Set::<Coord>::empty());
            }
        }
        w
    }

    /// Point query: `Some(status)` for a stored cell, `None` for an absent
    /// one. Absence means dead with no live neighbor.
    pub fn get(&self, x: i32, y: i32) -> (r: Option<bool>)
        requires
            self.wf(),
        ensures
            r == spec_get(self.lives(), (x, y)),
    {
        proof {
            crate::model::lemma_count_bounds(self.lives(), (x, y));
        }
        match map_get(&self.cells, (x, y)) {
            Some(c) => Some(c.alive),
            None => None,
        }
    }

    /// A world seeded from a named pattern: a fixed shape raised cell by
    /// cell, or a number of random cells drawn in a square whose side is the
    /// rounded square root of that number.
    #[verifier::loop_isolation(false)]
    pub fn from(pattern: &LifePattern) -> (w: LifeWorld)
        ensures
            w.wf(),
            w.gens() == 0,
            (match *pattern {
                LifePattern::Blank => w.lives() == Set::<Coord>::empty(),
                LifePattern::Glider => w.lives() == glider_cells(),
                LifePattern::Blinker => w.lives() == blinker_cells(),
                LifePattern::Beacon => w.lives() == beacon_cells(),
                LifePattern::Random(n) => w.lives().finite() && w.lives().len() <= n && (n >= 1
                    ==> w.lives().len() >= 1) && (forall|p: Coord|
                    w.lives().contains(p) ==> 0 <= p.0 < crate::arith::rand_side(n as int) && 0
                        <= p.1 < crate::arith::rand_side(n as int)),
            }),
    {
        let mut w = LifeWorld::new();
        match pattern {
            LifePattern::Blank => {},
            LifePattern::Glider => {
                w.raise(0, 0);
                w.raise(1, 0);
                w.raise(2, 0);
                w.raise(2, 1);
                w.raise(1, 2);
                proof {
                    assert(w.lives() =~= glider_cells());
                }
            },
            LifePattern::Blinker => {
                w.raise(0, 0);
                w.raise(0, 1);
                w.raise(0, 2);
                proof {
                    assert(w.lives() =~= blinker_cells());
                }
            },
            LifePattern::Beacon => {
                w.raise(0, 0);
                w.raise(0, 1);
                w.raise(1, 0);
                w.raise(1, 1);
                w.raise(2, 2);
                w.raise(3, 2);
                w.raise(2, 3);
                w.raise(3, 3);
                proof {
                    assert(w.lives() =~= beacon_cells());
                }
            },
            LifePattern::Random(size) => {
                let n = *size;
                let side = crate::arith::side_len(n);
                let side64 = side as u64;
                let mut i: usize = 0;
                while i < n
                    invariant
                        w.wf(),
                        w.gens() == 0,
                        w.lives().finite(),
                        w.lives().len() <= i,
                        i >= 1 ==> w.lives().len() >= 1,
                        i <= n,
                        (forall|p: Coord|
                            w.lives().contains(p) ==> 0 <= p.0 < side && 0 <= p.1 < side),
                    decreases n - i,
                {
                    let rx: u64 = rand::random::<u64>();
                    let ry: u64 = rand::random::<u64>();
                    let x = (rx % side64) as i32;
                    let y = (ry % side64) as i32;
                    w.raise(x, y);
                    i = i + 1;
                }
            },
        }
        w
    }

    /// Adjust the cached neighbor count at plane point (x, y) by one, up or
    /// down. First contact creates a dead record; a dead record that loses
    /// its last counted neighbor is reclaimed.
    fn nudge(&mut self, x: i64, y: i64, up: bool)
        ensures
            final(self).cell_map() == nudged(old(self).cell_map(), x as int, y as int, up),
            final(self).generations == old(self).generations,
    {
        if x >= (i32::MIN as i64) && x <= (i32::MAX as i64) && y >= (i32::MIN as i64) && y <= (
        i32::MAX as i64) {
            let q = (x as i32, y as i32);
            match map_get(&self.cells, q) {
                Some(c) => {
                    if up {
                        if c.num_neighbors < 8 {
                            map_insert(
                                &mut self.cells,
                                q,
                                LifeCell { alive: c.alive, num_neighbors: c.num_neighbors + 1 },
                            );
                        }
                    } else {
                        if c.num_neighbors == 1 && !c.alive {
                            map_remove(&mut self.cells, q);
                        } else if c.num_neighbors >= 1 {
                            map_insert(
                                &mut self.cells,
                                q,
                                LifeCell { alive: c.alive, num_neighbors: c.num_neighbors - 1 },
                            );
                        }
                    }
                },
                None => {
                    if up {
                        map_insert(
                            &mut self.cells,
                            q,
                            LifeCell { alive: false, num_neighbors: 1 },
                        );
                    }
                },
            }
        }
    }

    /// Drive the cell at (x, y) to the requested status. A no-op when the
    /// status already matches; otherwise every Moore neighbor's cached count
    /// is adjusted and records that become dead with no counted neighbor are
    /// reclaimed.
    fn set_cell(&mut self, x: i32, y: i32, alive: bool)
        requires
            old(self).wf(),
        ensures
            final(self).wf(),
            (final(self).lives() == if alive {
                old(self).lives().insert((x, y))
            } else {
                old(self).lives().remove((x, y))
            }),
            final(self).generations == old(self).generations,
    {
        let t = (x, y);
        let cur = map_get(&self.cells, t);
        let cur_alive = match cur {
            Some(c) => c.alive,
            None => false,
        };
        if cur_alive == alive {
            proof {
                if alive {
                    assert(old(self).lives().insert(t) =~= old(self).lives());
                } else {
                    assert(old(self).lives().remove(t) =~= old(self).lives());
                }
            }
            return ;
        }
        let n0 = match cur {
            Some(c) => c.num_neighbors,
            None => 0,
        };
        map_insert(&mut self.cells, t, LifeCell { alive, num_neighbors: n0 });
        let ghost m0 = old(self).cell_map();
        let ghost l0 = old(self).lives();
        let ghost m1 = self.cell_map();
        let ghost l1 = self.lives();
        proof {
            assert(l1 =~= if alive {
                l0.insert(t)
            } else {
                l0.remove(t)
            });
        }
        let x64 = x as i64;
        let y64 = y as i64;
        self.nudge(x64 - 1, y64 - 1, alive);
        self.nudge(x64, y64 - 1, alive);
        self.nudge(x64 + 1, y64 - 1, alive);
        self.nudge(x64 - 1, y64, alive);
        self.nudge(x64 + 1, y64, alive);
        self.nudge(x64 - 1, y64 + 1, alive);
        self.nudge(x64, y64 + 1, alive);
        self.nudge(x64 + 1, y64 + 1, alive);
        let ghost m9 = self.cell_map();
        proof {
            assert(m9 == nudged_all(m1, x as int, y as int, alive));
            lemma_nudged_all_at(m1, x as int, y as int, alive, t);
            assert(m9.dom().contains(t) && m9[t] == (alive, n0));
        }
        let trim = match map_get(&self.cells, t) {
            Some(c) => !c.alive && c.num_neighbors == 0,
            None => false,
        };
        if trim {
            map_remove(&mut self.cells, t);
        }
        proof {
            lemma_set_cell_wf(m0, m1, m9, self.cell_map(), x, y, alive, n0);
        }
    }

    /// Make the cell at (x, y) live.
    pub fn raise(&mut self, x: i32, y: i32)
        requires
            old(self).wf(),
        ensures
            final(self).wf(),
            final(self).lives() == old(self).lives().insert((x, y)),
            final(self).gens() == old(self).gens(),
    {
        self.set_cell(x, y, true);
    }

    /// Make the cell at (x, y) dead.
    pub fn lower(&mut self, x: i32, y: i32)
        requires
            old(self).wf(),
        ensures
            final(self).wf(),
            final(self).lives() == old(self).lives().remove((x, y)),
            final(self).gens() == old(self).gens(),
    {
        self.set_cell(x, y, false);
    }

    /// Flip the cell at (x, y).
    pub fn toggle(&mut self, x: i32, y: i32)
        requires
            old(self).wf(),
        ensures
            final(self).wf(),
            final(self).lives() == crate::model::toggled(old(self).lives(), (x, y)),
            final(self).gens() == old(self).gens(),
    {
        let a = self.alive(x, y);
        self.set_cell(x, y, !a);
    }

    /// The number of live cells.
    #[verifier::loop_isolation(false)]
    pub fn num_alive(&self) -> (n: usize)
        requires
            self.wf(),
        ensures
            self.lives().finite(),
            n == self.lives().len(),
    {
        let entries = map_entries(&self.cells);
        let ghost es = entries@;
        let mut n: usize = 0;
        let mut i: usize = 0;
        while i < entries.len()
            invariant
                i <= es.len(),
                n <= i,
                live_keys_prefix(es, i as int).finite(),
                n == live_keys_prefix(es, i as int).len(),
            decreases es.len() - i,
        {
            let e = entries[i];
            proof {
                lemma_live_keys_prefix_finite(es, i as int);
                if e.1.0 {
                    lemma_live_keys_prefix(es, i as int, e.0);
                }
            }
            if e.1.0 {
                n = n + 1;
            }
            i = i + 1;
        }
        proof {
            lemma_live_keys_prefix_finite(es, es.len() as int);
            assert forall|p: Coord| live_keys_prefix(es, es.len() as int).contains(p)
                == self.lives().contains(p) by {
                lemma_live_keys_prefix(es, es.len() as int, p);
                if self.lives().contains(p) {
                    assert(self.cell_map().dom().contains(p));
                    assert(es.contains((p, self.cell_map()[p])));
                }
            }
            assert(live_keys_prefix(es, es.len() as int) =~= self.lives());
        }
        n
    }

    /// Advance the world by exactly one generation: classify every stored
    /// cell against the Life rule over the current state, then apply all the
    /// changes, then count the generation.
    #[verifier::loop_isolation(false)]
    #[verifier::rlimit(60)]
    pub fn evolve(&mut self)
        requires
            old(self).wf(),
            old(self).gens() < usize::MAX,
        ensures
            final(self).wf(),
            final(self).lives() == next_live(old(self).lives()),
            final(self).gens() == old(self).gens() + 1,
    {
        let ghost m0 = self.cell_map();
        let ghost l0 = self.lives();
        let entries = map_entries(&self.cells);
        let ghost es = entries@;
        let mut deltas: Vec<(bool, (i32, i32))> = Vec::new();
        let ghost mut dm: Map<Coord, bool> = Map::empty();
        let mut i: usize = 0;
        while i < entries.len()
            invariant
                i <= es.len(),
                forall|j: int|
                    0 <= j < deltas@.len() ==> dm.contains_pair(
                        (#[trigger] deltas@[j]).1,
                        deltas@[j].0,
                    ),
                forall|p: Coord|
                    #[trigger] dm.dom().contains(p) ==> exists|j: int|
                        0 <= j < deltas@.len() && (#[trigger] deltas@[j]).1 == p,
                forall|p: Coord|
                    #[trigger] dm.dom().contains(p) ==> m0.dom().contains(p) && dm[p] == step_cell(
                        l0,
                        p,
                    ) && dm[p] != l0.contains(p),
                forall|j: int|
                    0 <= j < i ==> (step_cell(l0, (#[trigger] es[j]).0) != l0.contains(es[j].0)
                        ==> dm.dom().contains(es[j].0)),
            decreases es.len() - i,
        {
            let e = entries[i];
            let ghost p = e.0;
            let ghost pre = deltas@;
            proof {
                assert(m0.contains_pair(e.0, e.1));
                assert((m0[p].1 as int) == pair_count(l0, p));
                assert(e.1.0 == l0.contains(p));
            }
            let change: bool = if e.1.0 {
                !(e.1.1 == 2 || e.1.1 == 3)
            } else {
                e.1.1 == 3
            };
            if change {
                deltas.push((!e.1.0, e.0));
                proof {
                    dm = dm.insert(p, !e.1.0);
                    assert(deltas@ == pre.push((!e.1.0, p)));
                    assert forall|q: Coord| #[trigger] dm.dom().contains(q) implies exists|jj: int|
                        0 <= jj < deltas@.len() && (#[trigger] deltas@[jj]).1 == q by {
                        if q == p {
                            assert(0 <= pre.len() < deltas@.len() && (deltas@[pre.len() as int]).1
                                == q);
                        } else {
                            let jj = choose|jj: int|
                                0 <= jj < pre.len() && (#[trigger] pre[jj]).1 == q;
                            assert(deltas@[jj] == pre[jj]);
                            assert((deltas@[jj]).1 == q);
                        }
                    }
                }
            }
            i = i + 1;
        }
        let ghost ds = deltas@;
        let mut j: usize = 0;
        while j < deltas.len()
            invariant
                j <= ds.len(),
                self.wf(),
                self.generations == old(self).generations,
                forall|p: Coord|
                    #[trigger] self.lives().contains(p) == if delta_keys_prefix(
                        ds,
                        j as int,
                    ).contains(p) {
                        dm[p]
                    } else {
                        l0.contains(p)
                    },
            decreases ds.len() - j,
        {
            let d = deltas[j];
            proof {
                assert(dm.contains_pair(d.1, d.0));
            }
            self.set_cell(d.1.0, d.1.1, d.0);
            proof {
                assert forall|p: Coord| #[trigger] self.lives().contains(p) == if delta_keys_prefix(
                    ds,
                    j + 1,
                ).contains(p) {
                    dm[p]
                } else {
                    l0.contains(p)
                } by {
                    lemma_delta_keys_prefix(ds, j as int, p);
                    lemma_delta_keys_prefix(ds, j + 1, p);
                }
            }
            j = j + 1;
        }
        proof {
            assert forall|p: Coord| self.lives().contains(p) == next_live(l0).contains(p) by {
                lemma_delta_keys_prefix(ds, ds.len() as int, p);
                crate::model::lemma_count_bounds(l0, p);
                if dm.dom().contains(p) {
                } else {
                    if m0.dom().contains(p) {
                        assert(es.contains((p, m0[p])));
                    }
                }
            }
            assert(self.lives() =~= next_live(l0));
        }
        self.generations = self.generations + 1;
    }

    /// Whether the cell at (x, y) is live; an absent cell is dead.
    pub fn alive(&self, x: i32, y: i32) -> (r: bool)
        requires
            self.wf(),
        ensures
            r == self.lives().contains((x, y)),
    {
        match self.get(x, y) {
            Some(a) => a,
            None => false,
        }
    }
}

/// A named starting configuration.
#[derive(Clone, Debug)]
pub enum LifePattern {
    Blank,
    Glider,
    Blinker,
    Beacon,
    Random(usize),
}

/// The five cells of the glider seed.
pub open spec fn glider_cells() -> Set<Coord> {
    set![(0, 0), (1, 0), (2, 0), (2, 1), (1, 2)]
}

/// The three cells of the blinker seed.
pub open spec fn blinker_cells() -> Set<Coord> {
    set![(0, 0), (0, 1), (0, 2)]
}

/// The eight cells of the beacon seed.
pub open spec fn beacon_cells() -> Set<Coord> {
    set![(0, 0), (0, 1), (1, 0), (1, 1), (2, 2), (3, 2), (2, 3), (3, 3)]
}

} // verus!
