//! Terrain kinds and per-tile movement costs.

use vstd::prelude::*;

verus! {

/// Cost of moving through a tile: impassable tiles block movement, passable
/// ones charge a number of action points.
#[derive(Clone, Debug)]
pub enum MovementCost {
    Impassable,
    Passable(usize),
}

/// The largest tile cost a well-formed map may carry: small enough that
/// the grid algorithms' accumulated `u32` path costs (at most one `cost + 1`
/// step per tile of the map) stay far below `u32::MAX`.
pub const MAX_TILE_COST: usize = 1000;

impl MovementCost {
    /// Tile costs small enough that the grid algorithms' accumulated `u32`
    /// path costs cannot overflow.
    pub open spec fn cost_in_range(&self) -> bool {
        match self {
            MovementCost::Impassable => true,
            MovementCost::Passable(cost) => *cost <= MAX_TILE_COST,
        }
    }

    /// Spec-level mirror of [`Self::get_modified_algorithm_cost`].
    pub open spec fn spec_modified_algorithm_cost(&self) -> Option<u32> {
        match self {
            MovementCost::Impassable => None,
            MovementCost::Passable(cost) => {
                if *cost <= 1 {
                    Some(0u32)
                } else {
                    Some((*cost - 1) as u32)
                }
            },
        }
    }

    /// The flood-fill algorithm adds 1 to every tile cost, so the cost it is
    /// handed is lowered by 1, floored at 0; impassable tiles yield no cost.
    pub fn get_modified_algorithm_cost(&self) -> (res: Option<u32>)
        requires
            self.cost_in_range(),
        ensures
            res == self.spec_modified_algorithm_cost(),
    {
        match self {
            MovementCost::Impassable => None,
            MovementCost::Passable(cost) => {
                let c: usize = *cost;
                if c <= 1 {
                    Some(0)
                } else {
                    Some((c - 1) as u32)
                }
            },
        }
    }

    pub open spec fn is_passable(&self) -> bool {
        match self {
            MovementCost::Impassable => false,
            MovementCost::Passable(_) => true,
        }
    }

    /// Display form of the cost, as the terrain info panel shows it.
    pub fn display_string(&self) -> (res: String)
        ensures
            self is Impassable ==> res@ == "Impassable"@,
    {
        match self {
            MovementCost::Impassable => String::from_str("Impassable"),
            MovementCost::Passable(cost) => crate::decimal::usize_to_string(*cost),
        }
    }
}

/// A terrain kind: a display name and the movement cost it imposes.
#[derive(Clone, Debug)]
pub struct Terrain {
    pub name: String,
    pub movement_cost: MovementCost,
}

} // verus!
