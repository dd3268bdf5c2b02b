//! Units: identity, team, resources (action points, health), combat
//! configuration and engagement status.

use vstd::prelude::*;

use crate::abilities::{ActiveAbility, PassiveCombatAbility};
use crate::hex::HexCoord;

verus! {

/// Index of a unit in the world's unit arena.
pub type UnitId = usize;

/// The two sides of a battle.
#[derive(Clone, Copy, Debug, PartialEq, Eq, Structural, Hash)]
pub enum Team {
    Red,
    Blue,
}

impl Team {
    /// The opposing team.
    pub fn other(self) -> (res: Team)
        ensures
            self is Red ==> res is Blue,
            self is Blue ==> res is Red,
    {
        match self {
            Team::Red => Team::Blue,
            Team::Blue => Team::Red,
        }
    }

    pub fn display_str(self) -> (res: &'static str)
        ensures
            self is Red ==> res@ == "Red"@,
            self is Blue ==> res@ == "Blue"@,
    {
        match self {
            Team::Red => "Red",
            Team::Blue => "Blue",
        }
    }
}

/// A unit's display name.
#[derive(Clone, Debug)]
pub struct UnitMarker(pub String);

/// Per-round action budget and attack bookkeeping.
#[derive(Clone, Debug)]
pub struct ActionPoints {
    pub max: usize,
    pub left: usize,
    pub max_attacks: usize,
    pub attacks_this_round: usize,
    pub attack_action_point_cost: usize,
}

impl ActionPoints {
    /// Points left never exceed the budget; attacks made never exceed the
    /// per-round allowance.
    pub open spec fn wf(&self) -> bool {
        self.left <= self.max && self.attacks_this_round <= self.max_attacks
    }

    pub open spec fn spec_max(&self) -> usize {
        self.max
    }

    pub open spec fn spec_max_attacks(&self) -> usize {
        self.max_attacks
    }

    pub open spec fn spec_attack_cost(&self) -> usize {
        self.attack_action_point_cost
    }

    /// An attack is legal while the allowance is not used up and enough
    /// points are left to pay for it.
    pub open spec fn spec_can_attack(&self) -> bool {
        self.attacks_this_round < self.max_attacks && self.left >= self.attack_action_point_cost
    }

    pub fn new(max: usize, max_attacks: usize, attack_action_point_cost: usize) -> (res:
        ActionPoints)
        ensures
            res.wf(),
            res.left == max,
            res.spec_max() == max,
            res.spec_max_attacks() == max_attacks,
            res.attacks_this_round == 0,
            res.spec_attack_cost() == attack_action_point_cost,
    {
        ActionPoints { left: max, max, max_attacks, attacks_this_round: 0, attack_action_point_cost }
    }

    pub fn get_max(&self) -> (res: usize)
        ensures
            res == self.spec_max(),
    {
        self.max
    }

    pub fn get_max_attacks(&self) -> (res: usize)
        ensures
            res == self.spec_max_attacks(),
    {
        self.max_attacks
    }

    pub fn attack_action_point_cost(&self) -> (res: usize)
        ensures
            res == self.spec_attack_cost(),
    {
        self.attack_action_point_cost
    }

    pub fn can_still_attack_this_turn(&self) -> (res: bool)
        ensures
            res == self.spec_can_attack(),
    {
        self.attacks_this_round < self.max_attacks && self.left >= self.attack_action_point_cost
    }

    /// Refill the budget and clear the attack counter, as the end of a round
    /// does.
    pub fn reset(&mut self)
        ensures
            final(self).left == old(self).spec_max(),
            final(self).attacks_this_round == 0,
            final(self).spec_max() == old(self).spec_max(),
            final(self).spec_max_attacks() == old(self).spec_max_attacks(),
            final(self).spec_attack_cost() == old(self).spec_attack_cost(),
            final(self).wf(),
    {
        self.left = self.max;
        self.attacks_this_round = 0;
    }

    /// Pay for one attack: deducts exactly the attack cost and counts the
    /// attack.
    pub fn pay_for_attack(&mut self)
        requires
            old(self).spec_can_attack(),
            old(self).wf(),
        ensures
            final(self).left == old(self).left - old(self).spec_attack_cost(),
            final(self).attacks_this_round == old(self).attacks_this_round + 1,
            final(self).spec_max() == old(self).spec_max(),
            final(self).spec_max_attacks() == old(self).spec_max_attacks(),
            final(self).spec_attack_cost() == old(self).spec_attack_cost(),
            final(self).wf(),
    {
        self.left = self.left - self.attack_action_point_cost;
        self.attacks_this_round = self.attacks_this_round + 1;
    }

    /// Pay a movement cost, flooring at zero rather than underflowing.
    pub fn pay_movement(&mut self, cost: usize)
        requires
            old(self).wf(),
        ensures
            final(self).left == if cost > old(self).left {
                0usize
            } else {
                (old(self).left - cost) as usize
            },
            final(self).attacks_this_round == old(self).attacks_this_round,
            final(self).spec_max() == old(self).spec_max(),
            final(self).spec_max_attacks() == old(self).spec_max_attacks(),
            final(self).spec_attack_cost() == old(self).spec_attack_cost(),
            final(self).wf(),
    {
        self.left = if cost > self.left {
            0
        } else {
            self.left - cost
        };
    }
}

/// Health pool; a unit whose `left` reaches 0 is despawned by the next
/// cleanup pass.
#[derive(Clone, Debug)]
pub struct HealthPoints {
    pub max: usize,
    pub left: usize,
}

impl HealthPoints {
    pub open spec fn wf(&self) -> bool {
        self.left <= self.max
    }

    pub open spec fn spec_max(&self) -> usize {
        self.max
    }

    pub fn new(max: usize) -> (res: HealthPoints)
        ensures
            res.wf(),
            res.left == max,
            res.spec_max() == max,
    {
        Self { max, left: max }
    }

    pub fn get_max(&self) -> (res: usize)
        ensures
            res == self.spec_max(),
    {
        self.max
    }

    /// Take `damage` health away, flooring at zero (saturating, never
    /// underflowing).
    pub fn take_damage(&mut self, damage: usize)
        requires
            old(self).wf(),
        ensures
            final(self).left == if damage >= old(self).left {
                0usize
            } else {
                (old(self).left - damage) as usize
            },
            final(self).spec_max() == old(self).spec_max(),
            final(self).wf(),
    {
        self.left = if damage >= self.left {
            0
        } else {
            self.left - damage
        };
    }
}

/// Static combat parameters of a unit.
#[derive(Clone, Debug)]
pub struct CombatConfig {
    /// damage to health points if defense fails
    pub damage: usize,
    /// chance to defend in a twenty-sided dice roll
    pub defense: usize,
    pub range: u32,
    pub passive_combat_abilities: Vec<PassiveCombatAbility>,
}

/// The parameters of one attack: a snapshot of a combat configuration or an
/// ability-specific override.
#[derive(Clone, Debug)]
pub struct Attack {
    pub damage: usize,
    pub range: u32,
    pub passive_combat_abilities: Vec<PassiveCombatAbility>,
}

impl CombatConfig {
    /// The unit's ordinary attack, as its configuration states it.
    pub fn get_default_attack(&self) -> (res: Attack)
        ensures
            res.damage == self.damage,
            res.range == self.range,
            res.passive_combat_abilities@ == self.passive_combat_abilities@,
    {
        Attack {
            damage: self.damage,
            range: self.range,
            passive_combat_abilities: self.passive_combat_abilities.clone(),
        }
    }
}

impl ActiveAbility {
    /// An active ability is usable while it has charges and its owner can
    /// still pay for an attack.
    pub fn can_be_used(&self, action_points: &ActionPoints) -> (res: bool)
        ensures
            res == (self.usages_left > 0 && action_points.spec_can_attack()),
    {
        self.usages_left > 0 && action_points.can_still_attack_this_turn()
    }
}

/// Set of enemies a unit is in melee contact with, kept without duplicates.
#[derive(Clone, Debug)]
pub struct UnitStatus {
    pub engaged_with_units: Vec<UnitId>,
}

impl UnitStatus {
    pub open spec fn engaged(&self) -> Set<UnitId> {
        self.engaged_with_units@.to_set()
    }

    pub open spec fn wf(&self) -> bool {
        self.engaged_with_units@.no_duplicates()
    }

    pub fn new() -> (res: UnitStatus)
        ensures
            res.wf(),
            res.engaged() == Set::<UnitId>::empty(),
    {
        let v: Vec<UnitId> = Vec::new();
        proof {
            assert(v@.to_set() =~= Set::<UnitId>::empty());
        }
        UnitStatus { engaged_with_units: v }
    }

    pub fn is_engaged_with(&self, entity: UnitId) -> (res: bool)
        ensures
            res == self.engaged().contains(entity),
    {
        let mut i: usize = 0;
        while i < self.engaged_with_units.len()
            invariant
                i <= self.engaged_with_units@.len(),
                forall|j: int| 0 <= j < i ==> self.engaged_with_units@[j] != entity,
            decreases self.engaged_with_units@.len() - i,
        {
            if self.engaged_with_units[i] == entity {
                return true;
            }
            i = i + 1;
        }
        proof {
            assert(!self.engaged_with_units@.contains(entity));
        }
        false
    }

    pub fn engage_with(&mut self, entity: UnitId)
        requires
            old(self).wf(),
        ensures
            final(self).wf(),
            final(self).engaged() == old(self).engaged().insert(entity),
    {
        if !self.is_engaged_with(entity) {
            self.engaged_with_units.push(entity);
            proof {
                assert(self.engaged_with_units@.drop_last() == old(self).engaged_with_units@);
                assert(self.engaged_with_units@.last() == entity);
                assert(self.engaged() =~= old(self).engaged().insert(entity));
            }
        } else {
            proof {
                assert(old(self).engaged().contains(entity));
                assert(self.engaged() =~= old(self).engaged().insert(entity));
            }
        }
    }

    pub fn disengage_with(&mut self, entity: UnitId)
        requires
            old(self).wf(),
        ensures
            final(self).wf(),
            final(self).engaged() == old(self).engaged().remove(entity),
    {
        let mut i: usize = 0;
        while i < self.engaged_with_units.len()
            invariant
                old(self).wf(),
                i <= self.engaged_with_units@.len(),
                self == old(self),
                forall|j: int| 0 <= j < i ==> self.engaged_with_units@[j] != entity,
            decreases self.engaged_with_units@.len() - i,
        {
            if self.engaged_with_units[i] == entity {
                self.engaged_with_units.remove(i);
                proof {
                    lemma_remove_at_to_set(old(self).engaged_with_units@, i as int, entity);
                    assert(final(self).engaged() =~= old(self).engaged().remove(entity));
                }
                return ;
            }
            i = i + 1;
        }
        proof {
            assert(!self.engaged_with_units@.contains(entity));
            assert(final(self).engaged() =~= old(self).engaged().remove(entity));
        }
    }

    /// The engaged-with set, handed out as a vector of unit ids.
    pub fn get_engaged_with_units(&self) -> (res: &Vec<UnitId>)
        ensures
            res@ == self.engaged_with_units@,
            res@.to_set() == self.engaged(),
            res@.no_duplicates() == self.wf(),
    {
        &self.engaged_with_units
    }
}

proof fn lemma_remove_at_to_set(s: Seq<UnitId>, i: int, x: UnitId)
    requires
        s.no_duplicates(),
        0 <= i < s.len(),
        s[i] == x,
        forall|j: int| 0 <= j < i ==> s[j] != x,
    ensures
        s.remove(i).to_set() =~= s.to_set().remove(x),
        s.remove(i).no_duplicates(),
{
    let r = s.remove(i);
    assert forall|y: UnitId| r.to_set().contains(y) implies s.to_set().remove(x).contains(
        y,
    ) by {
        let k = choose|k: int| 0 <= k < r.len() && r[k] == y;
        if k < i {
            assert(s[k] == y);
        } else {
            assert(s[k + 1] == y);
        }
        assert(y != x);
    }
    assert forall|y: UnitId| s.to_set().remove(x).contains(y) implies r.to_set().contains(
        y,
    ) by {
        let k = choose|k: int| 0 <= k < s.len() && s[k] == y;
        assert(k != i);
        if k < i {
            assert(r[k] == y);
        } else {
            assert(r[k - 1] == y);
        }
    }
}

/// One combatant: identity, position, resources and engagement status.
#[derive(Clone, Debug)]
pub struct Unit {
    pub marker: UnitMarker,
    pub team: Team,
    pub position: HexCoord,
    pub action_points: ActionPoints,
    pub health_points: HealthPoints,
    pub combat_config: CombatConfig,
    pub status: UnitStatus,
    pub active_abilities: Vec<ActiveAbility>,
}

impl Unit {
    pub open spec fn wf(&self) -> bool {
        &&& self.action_points.wf()
        &&& self.health_points.wf()
        &&& self.status.wf()
        &&& crate::hex::in_coord_range(self.position)
    }
}

} // verus!
