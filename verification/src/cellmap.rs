//! The sparse cell store: a `rustc_hash::FxHashMap` keyed by coordinate.
//!
//! The map is the one piece of outside code the engine leans on. Its
//! contents are named by the uninterpreted function [`map_cells`], and the
//! few methods the engine calls are wrapped here with contracts stating
//! ordinary hash-map semantics over that name. Everything above this module
//! is verified against these contracts.

use crate::life::LifeCell;
use crate::model::Coord;
use rustc_hash::FxHashMap;
use vstd::prelude::*;

verus! {

/// `rustc_hash::FxBuildHasher` seen as an opaque type; it only selects the
/// map's hash function and carries no data.
#[verifier::external_type_specification]
#[verifier::external_body]
pub struct ExFxBuildHasher(rustc_hash::FxBuildHasher);

/// The store type: a hash map from coordinate to cell record.
pub type CellStore = FxHashMap<Coord, LifeCell>;

/// One handed-out entry: a coordinate with its record as a plain pair.
pub type CellEntry = (Coord, (bool, u8));

/// The entries of the store: each stored coordinate mapped to the pair
/// (alive, cached neighbor count) of its record.
pub uninterp spec fn map_cells(m: CellStore) -> Map<Coord, (bool, u8)>;

/// Relies on `HashMap::default` (through the `FxHashMap` alias): a freshly
/// built map holds no entries.
#[verifier::external_body]
pub(crate) fn map_new() -> (m: CellStore)
    ensures
        (map_cells(m) == Map::<Coord, (bool, u8)>::empty()),
{
    FxHashMap::default()
}

/// Relies on `HashMap::get`: returns the record stored under `k`, if any.
#[verifier::external_body]
pub(crate) fn map_get(m: &CellStore, k: Coord) -> (r: Option<LifeCell>)
    ensures
        r is Some <==> map_cells(*m).dom().contains(k),
        r matches Some(c) ==> (c.alive, c.num_neighbors) == map_cells(*m)[k],
{
    m.get(&k).cloned()
}

/// Relies on `HashMap::insert`: afterwards `k` maps to `v`; no other entry
/// changes.
#[verifier::external_body]
pub(crate) fn map_insert(m: &mut CellStore, k: Coord, v: LifeCell)
    ensures
        map_cells(*final (m)) == map_cells(*old(m)).insert(k, (v.alive, v.num_neighbors)),
{
    m.insert(k, v);
}

/// Relies on `HashMap::remove`: afterwards nothing is stored under `k`; no
/// other entry changes.
#[verifier::external_body]
pub(crate) fn map_remove(m: &mut CellStore, k: Coord)
    ensures
        map_cells(*final (m)) == map_cells(*old(m)).remove(k),
{
    m.remove(&k);
}

/// Relies on `HashMap::iter`: yields each stored entry exactly once, in no
/// promised order. The entry set is finite and is handed out as plain pairs.
#[verifier::external_body]
pub(crate) fn map_entries(m: &CellStore) -> (r: Vec<CellEntry>)
    ensures
        r@.len() == map_cells(*m).dom().len(),
        (map_cells(*m).dom() == r@.map_values(|e: CellEntry| e.0).to_set()),
        (forall|i: int, j: int| 0 <= i < j < r@.len() ==> r@[i].0 != r@[j].0),
        (forall|k: Coord| #[trigger] map_cells(*m).dom().contains(k) ==> r@.contains((k, map_cells(*m)[k]))),
        (forall|i: int| 0 <= i < r@.len() ==> map_cells(*m).contains_pair((#[trigger] r@[i]).0, r@[i].1)),

{
    m.iter().map(|(k, c)| (*k, (c.alive, c.num_neighbors))).collect()
}

} // verus!
