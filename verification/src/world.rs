//! The game world: a tile map and a dense arena of units addressed by
//! stable indices.

use vstd::prelude::*;

use crate::hex::{hex_distance, in_coord_range, HexCoord};
use crate::terrain::{MovementCost, Terrain};
use crate::units::{Unit, UnitId};

verus! {

/// Relies on `Vec`'s `IndexMut`: yields a mutable reference to element `i`;
/// the vector afterwards holds whatever the caller left behind it.
#[verifier::external_body]
pub(crate) fn vec_index_mut<T>(vec: &mut Vec<T>, i: usize) -> (element: &mut T)
    requires
        i < old(vec)@.len(),
    ensures
        *element == old(vec)@[i as int],
        final(vec)@ == old(vec)@.update(i as int, *final(element)),
{
    &mut vec[i]
}

/// The most tiles a well-formed map may hold: together with the tile-cost
/// bound it keeps every accumulated `u32` path cost of the grid algorithms
/// below `u32::MAX`.
pub const MAX_MAP_TILES: usize = 100000;

/// One grid cell: a coordinate and the terrain standing on it.
#[derive(Clone, Debug)]
pub struct Tile {
    pub coord: HexCoord,
    pub terrain: Terrain,
}

impl Tile {
    pub open spec fn wf(&self) -> bool {
        in_coord_range(self.coord) && self.terrain.movement_cost.cost_in_range()
    }
}

/// The entity store: units live in a dense arena; a despawned unit leaves
/// a hole so that every other unit keeps its index.
pub struct World {
    pub units: Vec<Option<Unit>>,
    pub tiles: Vec<Tile>,
}

impl World {
    pub open spec fn alive(&self, id: UnitId) -> bool {
        id < self.units@.len() && self.units@[id as int] is Some
    }

    pub open spec fn unit(&self, id: UnitId) -> Unit
        recommends
            self.alive(id),
    {
        self.units@[id as int]->Some_0
    }

    /// Every live unit and every tile is well formed, tile coordinates are
    /// unique, the map is not over-large, and engagement sets only name
    /// other slots of the arena.
    pub open spec fn wf(&self) -> bool {
        &&& forall|i: int|
            0 <= i < self.units@.len() && self.units@[i] is Some
                ==> (#[trigger] self.units@[i])->Some_0.wf()
        &&& forall|i: int, e: UnitId|
            0 <= i < self.units@.len() && self.units@[i] is Some
                && #[trigger] self.units@[i]->Some_0.status.engaged().contains(e)
                ==> e < self.units@.len() && e != i
        &&& forall|t: int| 0 <= t < self.tiles@.len() ==> (#[trigger] self.tiles@[t]).wf()
        &&& forall|t1: int, t2: int|
            0 <= t1 < self.tiles@.len() && 0 <= t2 < self.tiles@.len() && (#[trigger] self.tiles@[
                t1
            ]).coord == (#[trigger] self.tiles@[t2]).coord ==> t1 == t2
        &&& self.tiles@.len() <= MAX_MAP_TILES
    }

    pub fn new() -> (res: World)
        ensures
            res.wf(),
            res.units@.len() == 0,
            res.tiles@.len() == 0,
    {
        World { units: Vec::new(), tiles: Vec::new() }
    }

    pub fn num_unit_slots(&self) -> (res: usize)
        ensures
            res == self.units@.len(),
    {
        self.units.len()
    }

    /// Spawns a unit into a fresh slot and hands back its id.
    pub fn spawn(&mut self, unit: Unit) -> (res: UnitId)
        requires
            old(self).wf(),
            unit.wf(),
            unit.status.engaged() == Set::<UnitId>::empty(),
        ensures
            final(self).wf(),
            final(self).units@ == old(self).units@.push(Some(unit)),
            final(self).tiles@ == old(self).tiles@,
            res == old(self).units@.len(),
            final(self).alive(res),
            final(self).unit(res) == unit,
    {
        let id = self.units.len();
        self.units.push(Some(unit));
        id
    }

    /// Removes a unit, leaving its slot empty; engagement references to it
    /// are cleaned up by the despawn pass that calls this.
    pub fn kill(&mut self, id: UnitId)
        requires
            old(self).wf(),
            old(self).alive(id),
        ensures
            final(self).wf(),
            final(self).units@ == old(self).units@.update(id as int, None),
            final(self).tiles@ == old(self).tiles@,
    {
        self.units.set(id, None);
    }

    /// The id of the first live unit standing on `coord`, if any.
    pub fn unit_at(&self, coord: HexCoord) -> (res: Option<UnitId>)
        ensures
            match res {
                Some(id) => self.alive(id) && self.unit(id).position == coord,
                None => forall|i: int|
                    0 <= i < self.units@.len() && self.units@[i] is Some ==> (
                    #[trigger] self.units@[i])->Some_0.position != coord,
            },
    {
        let mut i: usize = 0;
        while i < self.units.len()
            invariant
                i <= self.units@.len(),
                forall|j: int|
                    0 <= j < i && self.units@[j] is Some ==> (
                    #[trigger] self.units@[j])->Some_0.position != coord,
            decreases self.units@.len() - i,
        {
            match &self.units[i] {
                Some(u) => {
                    if u.position.q == coord.q && u.position.r == coord.r {
                        return Some(i);
                    }
                },
                _ => {},
            }
            i = i + 1;
        }
        None
    }

    /// The terrain of the tile at `coord`, if the map has one there.
    pub fn tile_at(&self, coord: HexCoord) -> (res: Option<&Tile>)
        ensures
            match res {
                Some(t) => exists|j: int|
                    0 <= j < self.tiles@.len() && self.tiles@[j] == *t && t.coord == coord,
                None => forall|j: int|
                    0 <= j < self.tiles@.len() ==> (#[trigger] self.tiles@[j]).coord != coord,
            },
    {
        let mut i: usize = 0;
        while i < self.tiles.len()
            invariant
                i <= self.tiles@.len(),
                forall|j: int| 0 <= j < i ==> (#[trigger] self.tiles@[j]).coord != coord,
            decreases self.tiles@.len() - i,
        {
            let t = &self.tiles[i];
            if t.coord.q == coord.q && t.coord.r == coord.r {
                return Some(t);
            }
            i = i + 1;
        }
        None
    }

    /// Positions of live units within `range` of `origin` whose team
    /// satisfies the filter: the target set for attacks and for radius-based
    /// ability targeting.
    pub fn find_units_within_range(
        &self,
        origin: HexCoord,
        range: u32,
        enemies_of: crate::units::Team,
    ) -> (res: Vec<HexCoord>)
        requires
            self.wf(),
            in_coord_range(origin),
        ensures
            res@.to_set() == self.spec_units_within_range(origin, range, enemies_of),
    {
        let ghost target = self.spec_units_within_range(origin, range, enemies_of);
        let mut out: Vec<HexCoord> = Vec::new();
        let mut i: usize = 0;
        while i < self.units.len()
            invariant
                self.wf(),
                in_coord_range(origin),
                i <= self.units@.len(),
                target == self.spec_units_within_range(origin, range, enemies_of),
                forall|k: int| 0 <= k < out@.len() ==> target.contains(#[trigger] out@[k]),
                forall|j: int|
                    0 <= j < i && self.units@[j] is Some && (#[trigger] self.units@[j])->Some_0.team
                        != enemies_of && crate::hex::hex_dist(
                        origin,
                        self.units@[j]->Some_0.position,
                    ) <= range ==> out@.contains(self.units@[j]->Some_0.position),
            decreases self.units@.len() - i,
        {
            let ghost prev = out@;
            match &self.units[i] {
                Some(u) => {
                    let same_team = match (u.team, enemies_of) {
                        (crate::units::Team::Red, crate::units::Team::Red) => true,
                        (crate::units::Team::Blue, crate::units::Team::Blue) => true,
                        _ => false,
                    };
                    if !same_team {
                        let d = hex_distance(origin, u.position);
                        if d <= range {
                            proof {
                                assert(self.matches_range(
                                    origin,
                                    range,
                                    enemies_of,
                                    i as int,
                                    self.units@[i as int]->Some_0.position,
                                ));
                                assert(target.contains(self.units@[i as int]->Some_0.position));
                            }
                            out.push(u.position);
                            proof {
                                assert(forall|k: int|
                                    0 <= k < prev.len() ==> out@[k] == prev[k]);
                                assert(forall|p: HexCoord|
                                    prev.contains(p) ==> out@.contains(p));
                                assert(out@[out@.len() - 1] == self.units@[i as int]
                                    ->Some_0.position);
                                assert(out@.contains(self.units@[i as int]->Some_0.position));
                            }
                        }
                    }
                },
                _ => {},
            }
            i = i + 1;
        }
        proof {
            assert forall|p: HexCoord| target.contains(p) implies out@.to_set().contains(p) by {
                let j = choose|j: int| self.matches_range(origin, range, enemies_of, j, p);
                assert(out@.contains(self.units@[j]->Some_0.position));
            }
            assert(out@.to_set() =~= target);
        }
        out
    }

    /// Unit slot `j` is live, hostile to `enemies_of`, within `range` of
    /// `origin`, and stands on `p`.
    pub open spec fn matches_range(
        &self,
        origin: HexCoord,
        range: u32,
        enemies_of: crate::units::Team,
        j: int,
        p: HexCoord,
    ) -> bool {
        0 <= j < self.units@.len() && self.units@[j] is Some && {
            let u = self.units@[j]->Some_0;
            u.team != enemies_of && crate::hex::hex_dist(origin, u.position) <= range
                && u.position == p
        }
    }

    /// The set [`Self::find_units_within_range`] computes: positions of live
    /// units of the other team within range.
    pub open spec fn spec_units_within_range(
        &self,
        origin: HexCoord,
        range: u32,
        enemies_of: crate::units::Team,
    ) -> Set<HexCoord> {
        Set::<HexCoord>::new(
            |p: HexCoord| exists|j: int| self.matches_range(origin, range, enemies_of, j, p),
        )
    }
}

} // verus!
