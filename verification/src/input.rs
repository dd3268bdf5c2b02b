//! Input handling as pure decisions: a click and the current state yield
//! the event to raise, never a direct mutation.

use vstd::prelude::*;

use crate::combat::{AttackOrDefault, CombatEvent};
use crate::hex::{hex_dist, hex_distance, HexCoord};
use crate::movement::MoveUnitEvent;
use crate::reachable::SelectedUnitResource;
use crate::round::ActiveTeam;
use crate::units::{Team, UnitId};
use crate::world::World;

verus! {

/// What a click in the input phase asks for.
pub enum InputDecision {
    DoNothing,
    Select(UnitId),
    Attack(CombatEvent),
    Move(MoveUnitEvent),
}

/// Some live unit stands on `h`.
pub open spec fn any_unit_at(w: World, h: HexCoord) -> bool {
    exists|j: int|
        0 <= j < w.units@.len() && w.units@[j] is Some && (#[trigger] w.units@[j])->Some_0.position
            == h
}

/// Every live unit on `h` belongs to `team`.
pub open spec fn all_units_at_are(w: World, h: HexCoord, team: Team) -> bool {
    forall|j: int|
        0 <= j < w.units@.len() && w.units@[j] is Some && (#[trigger] w.units@[j])->Some_0.position
            == h ==> w.units@[j]->Some_0.team == team
}

/// No live unit on `h` belongs to `team`.
pub open spec fn no_units_at_are(w: World, h: HexCoord, team: Team) -> bool {
    forall|j: int|
        0 <= j < w.units@.len() && w.units@[j] is Some && (#[trigger] w.units@[j])->Some_0.position
            == h ==> w.units@[j]->Some_0.team != team
}

/// `v` holds `x`.
pub open spec fn coords_contain(v: Seq<HexCoord>, x: HexCoord) -> bool {
    exists|k: int| 0 <= k < v.len() && v[k] == x
}

fn coords_contain_exec(v: &Vec<HexCoord>, x: HexCoord) -> (res: bool)
    ensures
        res == coords_contain(v@, x),
{
    let mut i: usize = 0;
    while i < v.len()
        invariant
            i <= v@.len(),
            forall|k: int| 0 <= k < i ==> v@[k] != x,
        decreases v@.len() - i,
    {
        if v[i].q == x.q && v[i].r == x.r {
            return true;
        }
        i = i + 1;
    }
    false
}

/// Decides what a left click on `hovered` means in the input phase: a click
/// on a unit of the active team selects it; a click on an enemy in range of
/// the selected unit, while it may still attack, raises a combat event; a
/// click on a reachable free hex raises a move order along the current
/// path, its leading hex (the unit's own) stripped; anything else does
/// nothing.
pub fn handle_selected_unit_input(
    w: &World,
    sur: &SelectedUnitResource,
    active_team: &ActiveTeam,
    hovered: HexCoord,
    current_path: &Option<Vec<HexCoord>>,
) -> (res: InputDecision)
    requires
        w.wf(),
        crate::hex::in_coord_range(hovered),
    ensures
        match res {
            InputDecision::Select(id) => w.alive(id) && w.unit(id).position == hovered && w.unit(
                id,
            ).team == active_team.0,
            InputDecision::Attack(e) => {
                &&& sur.selected_unit matches Some(sel)
                &&& e.attacker == sur.selected_unit->Some_0
                &&& w.alive(e.attacker)
                &&& w.alive(e.defender)
                &&& w.unit(e.defender).position == hovered
                &&& w.unit(e.defender).team != active_team.0
                &&& hex_dist(w.unit(e.defender).position, w.unit(e.attacker).position) <= w.unit(
                    e.attacker,
                ).combat_config.range
                &&& w.unit(e.attacker).action_points.spec_can_attack()
                &&& e.attack matches AttackOrDefault::Attack(a) && a.damage == w.unit(
                    e.attacker,
                ).combat_config.damage && a.range == w.unit(e.attacker).combat_config.range
                    && a.passive_combat_abilities@ == w.unit(
                    e.attacker,
                ).combat_config.passive_combat_abilities@
            },
            InputDecision::Move(m) => {
                &&& sur.selected_unit == Some(m.entity)
                &&& sur.reachable_hexes matches Some(r) && coords_contain(r@, hovered)
                &&& current_path matches Some(p) && p@.len() >= 1 && m.path@ == p@.skip(1)
            },
            InputDecision::DoNothing => true,
        },
        any_unit_at(*w, hovered) && all_units_at_are(*w, hovered, active_team.0)
            ==> res is Select,
        any_unit_at(*w, hovered) && no_units_at_are(*w, hovered, active_team.0) && (
        sur.selected_unit matches Some(sel) && w.alive(sel) && hex_dist(
            hovered,
            w.unit(sel).position,
        ) <= w.unit(sel).combat_config.range && w.unit(sel).action_points.spec_can_attack())
            ==> res is Attack,
        !any_unit_at(*w, hovered) && sur.selected_unit is Some && (
        sur.reachable_hexes matches Some(r) && coords_contain(r@, hovered)) && (
        current_path matches Some(p) && p@.len() >= 1) ==> res is Move,
{
    match w.unit_at(hovered) {
        Some(hovered_entity) => {
            let hovered_team = w.units[hovered_entity].as_ref().unwrap().team;
            if hovered_team == active_team.0 {
                return InputDecision::Select(hovered_entity);
            }
            let sel = match sur.selected_unit {
                Some(s) => s,
                _ => {
                    return InputDecision::DoNothing;
                },
            };
            if sel >= w.num_unit_slots() {
                return InputDecision::DoNothing;
            }
            match &w.units[sel] {
                Some(u) => {
                    let distance = hex_distance(
                        w.units[hovered_entity].as_ref().unwrap().position,
                        u.position,
                    );
                    if distance <= u.combat_config.range
                        && u.action_points.can_still_attack_this_turn() {
                        InputDecision::Attack(
                            CombatEvent {
                                attacker: sel,
                                defender: hovered_entity,
                                attack: AttackOrDefault::Attack(
                                    u.combat_config.get_default_attack(),
                                ),
                            },
                        )
                    } else {
                        InputDecision::DoNothing
                    }
                },
                _ => InputDecision::DoNothing,
            }
        },
        None => {
            let sel = match sur.selected_unit {
                Some(s) => s,
                _ => {
                    return InputDecision::DoNothing;
                },
            };
            let reachable = match sur.reachable_hexes() {
                Some(r) => r,
                _ => {
                    return InputDecision::DoNothing;
                },
            };
            let path = match current_path {
                Some(p) => p,
                _ => {
                    return InputDecision::DoNothing;
                },
            };
            if !coords_contain_exec(reachable, hovered) {
                return InputDecision::DoNothing;
            }
            if path.len() == 0 {
                return InputDecision::DoNothing;
            }
            let mut stripped: Vec<HexCoord> = Vec::new();
            let mut i: usize = 1;
            proof {
                assert(stripped@ =~= path@.subrange(1, 1));
            }
            while i < path.len()
                invariant
                    1 <= i <= path@.len(),
                    stripped@ == path@.subrange(1, i as int),
                decreases path@.len() - i,
            {
                stripped.push(path[i]);
                proof {
                    assert(path@.subrange(1, i as int).push(path@[i as int]) =~= path@.subrange(
                        1,
                        i + 1,
                    ));
                }
                i = i + 1;
            }
            proof {
                assert(path@.subrange(1, path@.len() as int) =~= path@.skip(1));
            }
            InputDecision::Move(MoveUnitEvent { entity: sel, path: stripped })
        },
    }
}

/// Decides what a click does while a targeting ability is armed: a click on
/// a hex of the ability's target set that holds a live unit raises the
/// ability's combat event (a javelin throw: damage 1, range 2, no passive
/// abilities) and consumes one charge; any other click does nothing.
pub fn handle_activated_active_ability(
    w: &World,
    sur: &SelectedUnitResource,
    owner: UnitId,
    ability: &mut crate::abilities::ActiveAbility,
    hovered: HexCoord,
) -> (res: Option<CombatEvent>)
    requires
        w.wf(),
        old(ability).usages_left > 0,
    ensures
        final(ability).kind == old(ability).kind,
        match res {
            Some(e) => {
                &&& final(ability).usages_left == old(ability).usages_left - 1
                &&& e.attacker == owner
                &&& w.alive(e.defender)
                &&& w.unit(e.defender).position == hovered
                &&& sur.reachable_hexes matches Some(r) && coords_contain(r@, hovered)
                &&& e.attack matches AttackOrDefault::Attack(a) && a.damage == 1 && a.range == 2
                    && a.passive_combat_abilities@.len() == 0
            },
            None => *final(ability) == *old(ability),
        },
        (sur.reachable_hexes matches Some(r) && coords_contain(r@, hovered)) && any_unit_at(
            *w,
            hovered,
        ) ==> res is Some,
{
    let reachable = match sur.reachable_hexes() {
        Some(r) => r,
        _ => {
            return None;
        },
    };
    if !coords_contain_exec(reachable, hovered) {
        return None;
    }
    let defender = match w.unit_at(hovered) {
        Some(d) => d,
        _ => {
            return None;
        },
    };
    match ability.kind {
        crate::abilities::ActiveAbilityType::ThrowJavelin => {
            ability.usages_left = ability.usages_left - 1;
            Some(
                CombatEvent {
                    attacker: owner,
                    defender,
                    attack: AttackOrDefault::Attack(
                        crate::units::Attack {
                            damage: 1,
                            range: 2,
                            passive_combat_abilities: Vec::new(),
                        },
                    ),
                },
            )
        },
    }
}

} // verus!
