//! The library's general guarantees, stated once over the model that every
//! contract speaks in and proved by Verus.

use crate::model::is_nbr;
use crate::model::lemma_count_empty;
use crate::model::lemma_count_insert;
use crate::model::next_live;
use crate::model::pair_count;
use crate::model::spec_get;
use crate::model::toggled;
use crate::model::Coord;
use vstd::prelude::*;

verus! {

/// Raising a cell on an empty world makes it live, makes each of its Moore
/// neighbors present but dead, and leaves every other cell absent.
pub proof fn lemma_raise_neighborhood(x: i32, y: i32)
    ensures
        spec_get(Set::<Coord>::empty().insert((x, y)), (x, y)) == Some(true),
        (forall|q: Coord|
            is_nbr((x, y), q) ==> spec_get(Set::<Coord>::empty().insert((x, y)), q) == Some(
                false,
            )),
        (forall|q: Coord|
            q != (x, y) && !is_nbr((x, y), q) ==> spec_get(
                Set::<Coord>::empty().insert((x, y)),
                q,
            ) is None),
{
    let s = Set::<Coord>::empty().insert((x, y));
    assert forall|q: Coord| pair_count(s, q) == if is_nbr(q, (x, y)) {
        1int
    } else {
        0int
    } by {
        lemma_count_empty(q);
        lemma_count_insert(Set::<Coord>::empty(), (x, y), q);
    }
}

/// Lowering a cell raised on an empty world empties the world again, and an
/// empty world reports every cell, the neighbors included, as absent.
pub proof fn lemma_raise_then_lower(x: i32, y: i32)
    ensures
        Set::<Coord>::empty().insert((x, y)).remove((x, y)) == Set::<Coord>::empty(),
        (forall|q: Coord| spec_get(Set::<Coord>::empty(), q) is None),
{
    assert(Set::<Coord>::empty().insert((x, y)).remove((x, y)) =~= Set::<Coord>::empty());
    assert forall|q: Coord| spec_get(Set::<Coord>::empty(), q) is None by {
        lemma_count_empty(q);
    }
}

/// Toggling a cell twice returns any world's live set to what it was.
pub proof fn lemma_toggle_twice(s: Set<Coord>, p: Coord)
    ensures
        toggled(toggled(s, p), p) == s,
{
    assert(toggled(toggled(s, p), p) =~= s);
}

/// The live set after a sequence of toggles, applied in order.
pub open spec fn toggled_all(s: Set<Coord>, ts: Seq<Coord>) -> Set<Coord>
    decreases ts.len(),
{
    if ts.len() == 0 {
        s
    } else {
        toggled(toggled_all(s, ts.drop_last()), ts.last())
    }
}

/// How many of the toggles in `ts` name the coordinate `p`.
pub open spec fn toggle_count(ts: Seq<Coord>, p: Coord) -> nat
    decreases ts.len(),
{
    if ts.len() == 0 {
        0
    } else {
        toggle_count(ts.drop_last(), p) + if ts.last() == p {
            1nat
        } else {
            0nat
        }
    }
}

/// After a sequence of toggles a cell is live exactly when its starting
/// status was flipped an odd number of times.
proof fn lemma_toggle_parity(s: Set<Coord>, ts: Seq<Coord>, p: Coord)
    ensures
        toggled_all(s, ts).contains(p) == (s.contains(p) != (toggle_count(ts, p) % 2 == 1)),
    decreases ts.len(),
{
    if ts.len() > 0 {
        lemma_toggle_parity(s, ts.drop_last(), p);
    }
}

/// A toggle sequence that names every coordinate an even number of times
/// returns any world's live set to what it was; run on an empty world, it
/// leaves every cell, frontier included, absent.
pub proof fn lemma_even_toggles(s: Set<Coord>, ts: Seq<Coord>)
    requires
        forall|p: Coord| (#[trigger] toggle_count(ts, p)) % 2 == 0,
    ensures
        toggled_all(s, ts) == s,
        s == Set::<Coord>::empty() ==> (forall|q: Coord| spec_get(toggled_all(s, ts), q) is None),
{
    assert forall|p: Coord| toggled_all(s, ts).contains(p) == s.contains(p) by {
        lemma_toggle_parity(s, ts, p);
    }
    assert(toggled_all(s, ts) =~= s);
    if s == Set::<Coord>::empty() {
        assert forall|q: Coord| spec_get(toggled_all(s, ts), q) is None by {
            lemma_count_empty(q);
        }
    }
}

/// The live set raised from a sequence of cells, in order.
pub open spec fn raised_set(ps: Seq<Coord>) -> Set<Coord>
    decreases ps.len(),
{
    if ps.len() == 0 {
        Set::empty()
    } else {
        raised_set(ps.drop_last()).insert(ps.last())
    }
}

/// Raising cells is composable and per-cell idempotent: only the set of
/// cells raised matters, and raising distinct cells on an empty world
/// leaves exactly as many live cells as were raised.
pub proof fn lemma_raised_count(ps: Seq<Coord>)
    ensures
        raised_set(ps) == ps.to_set(),
        raised_set(ps).finite(),
        ps.no_duplicates() ==> raised_set(ps).len() == ps.len(),
    decreases ps.len(),
{
    if ps.len() == 0 {
        assert(raised_set(ps) =~= ps.to_set());
    } else {
        lemma_raised_count(ps.drop_last());
        assert(raised_set(ps) =~= ps.to_set()) by {
            assert(ps.drop_last().to_set().insert(ps.last()) =~= ps.to_set()) by {
                assert forall|q: Coord| ps.to_set().contains(q) implies ps.drop_last().to_set().insert(
                    ps.last(),
                ).contains(q) by {
                    let i = choose|i: int| 0 <= i < ps.len() && ps[i] == q;
                    if i < ps.len() - 1 {
                        assert(ps.drop_last()[i] == q);
                    }
                }
            }
        }
        if ps.no_duplicates() {
            assert(!ps.drop_last().to_set().contains(ps.last()));
        }
    }
}

/// The empty world is a fixed point of evolution.
pub proof fn lemma_empty_fixed_point()
    ensures
        next_live(Set::<Coord>::empty()) == Set::<Coord>::empty(),
{
    assert forall|p: Coord| !next_live(Set::<Coord>::empty()).contains(p) by {
        lemma_count_empty(p);
    }
    assert(next_live(Set::<Coord>::empty()) =~= Set::<Coord>::empty());
}

/// The blinker's intermediate shape: the horizontal three-cell row.
spec fn blinker_mid() -> Set<Coord> {
    set![(-1i32, 1i32), (0i32, 1i32), (1i32, 1i32)]
}

#[verifier::spinoff_prover]
#[verifier::rlimit(100)]
proof fn lemma_blinker_first_step()
    ensures
        next_live(crate::life::blinker_cells()) == blinker_mid(),
{
    assert forall|p: Coord|
        next_live(crate::life::blinker_cells()).contains(p) == blinker_mid().contains(p) by {}
    assert(next_live(crate::life::blinker_cells()) =~= blinker_mid());
}

#[verifier::spinoff_prover]
#[verifier::rlimit(100)]
proof fn lemma_blinker_second_step()
    ensures
        next_live(blinker_mid()) == crate::life::blinker_cells(),
{
    assert forall|p: Coord|
        next_live(blinker_mid()).contains(p) == crate::life::blinker_cells().contains(p) by {}
    assert(next_live(blinker_mid()) =~= crate::life::blinker_cells());
}

/// A blinker is an exact two-step oscillator: the vertical three-cell
/// column becomes the horizontal one and then returns to itself.
pub proof fn lemma_blinker_period_two()
    ensures
        next_live(next_live(crate::life::blinker_cells())) == crate::life::blinker_cells(),
{
    lemma_blinker_first_step();
    lemma_blinker_second_step();
}

/// The glider's shapes one, two and three generations in.
spec fn glider_gen1() -> Set<Coord> {
    set![(0i32, 1i32), (1i32, -1i32), (1i32, 0i32), (2i32, 0i32), (2i32, 1i32)]
}

spec fn glider_gen2() -> Set<Coord> {
    set![(0i32, 0i32), (1i32, -1i32), (2i32, -1i32), (2i32, 0i32), (2i32, 1i32)]
}

spec fn glider_gen3() -> Set<Coord> {
    set![(1i32, -1i32), (1i32, 1i32), (2i32, -1i32), (2i32, 0i32), (3i32, 0i32)]
}

/// The glider's shape four generations in: the seed shifted by (+1, -1).
pub open spec fn glider_gen4() -> Set<Coord> {
    set![(1i32, -1i32), (2i32, -1i32), (2i32, 1i32), (3i32, -1i32), (3i32, 0i32)]
}

#[verifier::spinoff_prover]
#[verifier::rlimit(100)]
proof fn lemma_glider_step1()
    ensures
        next_live(crate::life::glider_cells()) == glider_gen1(),
{
    assert forall|p: Coord|
        next_live(crate::life::glider_cells()).contains(p) == glider_gen1().contains(p) by {}
    assert(next_live(crate::life::glider_cells()) =~= glider_gen1());
}

#[verifier::spinoff_prover]
#[verifier::rlimit(100)]
proof fn lemma_glider_step2()
    ensures
        next_live(glider_gen1()) == glider_gen2(),
{
    assert forall|p: Coord| next_live(glider_gen1()).contains(p) == glider_gen2().contains(p) by {}
    assert(next_live(glider_gen1()) =~= glider_gen2());
}

#[verifier::spinoff_prover]
#[verifier::rlimit(100)]
proof fn lemma_glider_step3()
    ensures
        next_live(glider_gen2()) == glider_gen3(),
{
    assert forall|p: Coord| next_live(glider_gen2()).contains(p) == glider_gen3().contains(p) by {}
    assert(next_live(glider_gen2()) =~= glider_gen3());
}

#[verifier::spinoff_prover]
#[verifier::rlimit(100)]
proof fn lemma_glider_step4()
    ensures
        next_live(glider_gen3()) == glider_gen4(),
{
    assert forall|p: Coord| next_live(glider_gen3()).contains(p) == glider_gen4().contains(p) by {}
    assert(next_live(glider_gen3()) =~= glider_gen4());
}

/// A glider comes back to its own shape after four generations, translated
/// one cell diagonally: the seed shifted by (+1, -1).
pub proof fn lemma_glider_translates()
    ensures
        next_live(next_live(next_live(next_live(crate::life::glider_cells())))) == glider_gen4(),
{
    lemma_glider_step1();
    lemma_glider_step2();
    lemma_glider_step3();
    lemma_glider_step4();
}

/// A live cell survives one generation exactly when it counts two or three
/// live Moore neighbors.
pub proof fn lemma_survival_rule(s: Set<Coord>, p: Coord)
    requires
        s.contains(p),
    ensures
        next_live(s).contains(p) <==> (pair_count(s, p) == 2 || pair_count(s, p) == 3),
{
}

/// A dead cell is born in one generation exactly when it counts three live
/// Moore neighbors.
pub proof fn lemma_birth_rule(s: Set<Coord>, p: Coord)
    requires
        !s.contains(p),
    ensures
        next_live(s).contains(p) <==> pair_count(s, p) == 3,
{
}

/// Point queries depend on the live set alone: without mutation, two reads
/// of the same cell answer the same.
pub proof fn lemma_get_idempotent(s: Set<Coord>, p: Coord, r1: Option<bool>, r2: Option<bool>)
    requires
        r1 == spec_get(s, p),
        r2 == spec_get(s, p),
    ensures
        r1 == r2,
{
}

} // verus!
