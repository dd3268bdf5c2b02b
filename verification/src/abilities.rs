//! Passive and active combat abilities: a closed set of kinds, each with a
//! declarative trigger or targeting rule, dispatched by `match`.

use vstd::prelude::*;

verus! {

/// Phase of a combat resolution at which a passive ability may fire.
#[derive(Clone, Copy, Debug, PartialEq, Eq, Structural, Hash)]
pub enum CombatPhase {
    PreCombat,
    PostCombat,
}

/// Which side of a combat a passive ability listens on, and in which phase.
#[derive(Clone, Copy, Debug, PartialEq, Eq, Structural, Hash)]
pub enum AbilityTrigger {
    OnAttack(CombatPhase),
    OnDefense(CombatPhase),
}

/// The closed set of passive combat abilities.
#[derive(Clone, Copy, Debug, PartialEq, Eq, Structural, Hash)]
pub enum PassiveCombatAbility {
    ArmorBreak,
    HitAndRun,
}

impl PassiveCombatAbility {
    pub open spec fn spec_trigger(&self) -> AbilityTrigger {
        match self {
            PassiveCombatAbility::ArmorBreak => AbilityTrigger::OnAttack(CombatPhase::PostCombat),
            PassiveCombatAbility::HitAndRun => AbilityTrigger::OnAttack(CombatPhase::PostCombat),
        }
    }

    /// The trigger descriptor under which the combat engine files this
    /// ability.
    pub fn get_trigger(&self) -> (res: AbilityTrigger)
        ensures
            res == self.spec_trigger(),
    {
        match self {
            PassiveCombatAbility::ArmorBreak => AbilityTrigger::OnAttack(CombatPhase::PostCombat),
            PassiveCombatAbility::HitAndRun => AbilityTrigger::OnAttack(CombatPhase::PostCombat),
        }
    }
}

/// Every known passive ability, in a fixed order; the registry is built by
/// enumerating these.
pub fn all_passive_abilities() -> (res: Vec<PassiveCombatAbility>)
    ensures
        res@ == seq![PassiveCombatAbility::ArmorBreak, PassiveCombatAbility::HitAndRun],
{
    let mut v: Vec<PassiveCombatAbility> = Vec::new();
    v.push(PassiveCombatAbility::ArmorBreak);
    v.push(PassiveCombatAbility::HitAndRun);
    proof {
        assert(v@ =~= seq![PassiveCombatAbility::ArmorBreak, PassiveCombatAbility::HitAndRun]);
    }
    v
}

/// The closed set of active (player-triggered) abilities.
#[derive(Clone, Copy, Debug, PartialEq, Eq, Structural, Hash)]
pub enum ActiveAbilityType {
    ThrowJavelin,
}

impl ActiveAbilityType {
    /// The targeting radius of the ability's override rule.
    pub open spec fn spec_targeting_range(&self) -> u32 {
        match self {
            ActiveAbilityType::ThrowJavelin => 2u32,
        }
    }
}

/// Every known active ability kind, in a fixed order.
pub fn all_active_ability_types() -> (res: Vec<ActiveAbilityType>)
    ensures
        res@ == seq![ActiveAbilityType::ThrowJavelin],
{
    let mut v: Vec<ActiveAbilityType> = Vec::new();
    v.push(ActiveAbilityType::ThrowJavelin);
    proof {
        assert(v@ =~= seq![ActiveAbilityType::ThrowJavelin]);
    }
    v
}

/// An active ability attached to a unit, with its remaining uses.
#[derive(Clone, Copy, Debug, PartialEq, Eq, Structural)]
pub struct ActiveAbility {
    pub kind: ActiveAbilityType,
    pub usages_left: u8,
}

impl ActiveAbility {
    /// A fresh instance of the given kind, charged with its initial uses.
    pub fn of_kind(kind: ActiveAbilityType) -> (res: ActiveAbility)
        ensures
            res.kind == kind,
            res.usages_left == 1u8,
    {
        ActiveAbility { kind, usages_left: 1 }
    }

    pub fn get_display_name(&self) -> (res: String)
        ensures
            self.kind is ThrowJavelin ==> res@ == "Throw Javelin"@,
    {
        match self.kind {
            ActiveAbilityType::ThrowJavelin => String::from_str("Throw Javelin"),
        }
    }

    /// The targeting radius the ability overrides reachability with.
    pub fn targeting_range(&self) -> (res: u32)
        ensures
            res == self.kind.spec_targeting_range(),
    {
        match self.kind {
            ActiveAbilityType::ThrowJavelin => 2,
        }
    }
}

} // verus!
