//! The combat resolution engine: guard, action-point payment, a single
//! twenty-sided roll against the defender's defense, passive-ability
//! triggers, and the cleanup pass that despawns dead units.

use vstd::prelude::*;

use crate::abilities::{AbilityTrigger, CombatPhase, PassiveCombatAbility};
use crate::dice::Dice;
use crate::game_log::LogEvent;
use crate::units::{Attack, UnitId};
use crate::world::{vec_index_mut, World};

verus! {

/// Outcome of the roll of a combat, `Pending` until the roll happens.
#[derive(Clone, Copy, Debug, PartialEq, Eq, Structural)]
pub enum CombatResult {
    Hit,
    Miss,
    Pending,
}

/// An attack raised with an explicit spec (an ability strike), or the
/// attacker's ordinary attack.
#[derive(Clone, Debug)]
pub enum AttackOrDefault {
    Attack(Attack),
    Default,
}

/// A request for one combat: who strikes whom, and with what.
#[derive(Clone, Debug)]
pub struct CombatEvent {
    pub attacker: UnitId,
    pub attack: AttackOrDefault,
    pub defender: UnitId,
}

/// The transient state of the combat being resolved, present only between
/// the pre-combat and post-combat phases.
#[derive(Clone, Debug)]
pub struct CombatResource {
    pub attacker: UnitId,
    pub attack: Attack,
    pub defender: UnitId,
    pub combat_result: CombatResult,
}

/// `damage` points taken from `health`, floored at zero.
pub open spec fn sat_sub(health: usize, damage: usize) -> usize {
    if damage >= health {
        0usize
    } else {
        (health - damage) as usize
    }
}

/// The two worlds hold the same units and tiles.
pub open spec fn unchanged(w1: World, w2: World) -> bool {
    w1.units@ == w2.units@ && w1.tiles@ == w2.tiles@
}

/// The exact text of the combat log line.
pub open spec fn combat_log_view(
    attacker_name: Seq<char>,
    defender_name: Seq<char>,
    damage: usize,
    roll: u8,
    defense: usize,
    hit: bool,
) -> Seq<char> {
    if hit {
        attacker_name + " caused "@ + crate::decimal::dec_digits(damage as nat) + " damage to "@
            + defender_name + " ("@ + crate::decimal::dec_digits(roll as nat) + "/"@
            + crate::decimal::dec_digits(defense as nat) + ")"@
    } else {
        attacker_name + " has failed to cause significant damage to "@ + defender_name + " ("@
            + crate::decimal::dec_digits(roll as nat) + "/"@ + crate::decimal::dec_digits(
            defense as nat,
        ) + ")"@
    }
}

/// Turns a combat event into the combat resource for the resolution phases:
/// a `Default` attack is snapshotted from the attacker's configuration.
/// Yields nothing when the attacker is gone (a stale event).
pub fn handle_combat_event(w: &World, event: &CombatEvent) -> (res: Option<CombatResource>)
    ensures
        match res {
            Some(c) => {
                &&& c.attacker == event.attacker
                &&& c.defender == event.defender
                &&& c.combat_result is Pending
                &&& match event.attack {
                    AttackOrDefault::Attack(a) => c.attack.damage == a.damage && c.attack.range
                        == a.range && c.attack.passive_combat_abilities@
                        == a.passive_combat_abilities@,
                    AttackOrDefault::Default => w.alive(event.attacker) && c.attack.damage == w.unit(
                        event.attacker,
                    ).combat_config.damage && c.attack.range == w.unit(
                        event.attacker,
                    ).combat_config.range && c.attack.passive_combat_abilities@ == w.unit(
                        event.attacker,
                    ).combat_config.passive_combat_abilities@,
                }
            },
            None => event.attack is Default && !w.alive(event.attacker),
        },
{
    let attack = match &event.attack {
        AttackOrDefault::Attack(attack) => Attack {
            damage: attack.damage,
            range: attack.range,
            passive_combat_abilities: attack.passive_combat_abilities.clone(),
        },
        AttackOrDefault::Default => {
            if event.attacker < w.num_unit_slots() {
                match &w.units[event.attacker] {
                    Some(u) => u.combat_config.get_default_attack(),
                    _ => {
                        return None;
                    },
                }
            } else {
                return None;
            }
        },
    };
    Some(
        CombatResource {
            attacker: event.attacker,
            attack,
            defender: event.defender,
            combat_result: CombatResult::Pending,
        },
    )
}

/// The worlds differ exactly by one attack payment: the attacker's action
/// points lose the attack cost, its attack counter grows by one, and
/// nothing else changes.
pub open spec fn attack_paid(pre: World, post: World, attacker: UnitId) -> bool {
    let a = pre.unit(attacker);
    &&& pre.alive(attacker)
    &&& post.units@ == pre.units@.update(
        attacker as int,
        Some(
            crate::units::Unit {
                action_points: crate::units::ActionPoints {
                    left: (a.action_points.left - a.action_points.attack_action_point_cost) as usize,
                    attacks_this_round: (a.action_points.attacks_this_round + 1) as usize,
                    ..a.action_points
                },
                ..a
            },
        ),
    )
    &&& post.tiles@ == pre.tiles@
}

/// The pre-combat phase: the guard and the price of attacking. Refuses the
/// attack — changing nothing — when the attacker is gone, its attack
/// allowance is used up, or it cannot pay the attack cost; otherwise deducts
/// exactly the attack cost and counts the attack. No passive ability of the
/// closed set listens on the pre-combat phase, so none fires here.
pub fn handle_pre_combat(w: &mut World, combat: &CombatResource) -> (accepted: bool)
    requires
        old(w).wf(),
    ensures
        final(w).wf(),
        accepted == (old(w).alive(combat.attacker) && old(w).unit(
            combat.attacker,
        ).action_points.spec_can_attack()),
        !accepted ==> unchanged(*final(w), *old(w)),
        accepted ==> attack_paid(*old(w), *final(w), combat.attacker),
{
    if combat.attacker >= w.num_unit_slots() {
        return false;
    }
    let ghost w0 = *w;
    let slot = vec_index_mut(&mut w.units, combat.attacker);
    match slot {
        Some(unit) => {
            if unit.action_points.can_still_attack_this_turn() {
                unit.action_points.pay_for_attack();
                proof {
                    assert(w.units@ =~= w0.units@.update(
                        combat.attacker as int,
                        w.units@[combat.attacker as int],
                    ));
                }
                true
            } else {
                proof {
                    assert(w.units@ =~= w0.units@);
                }
                false
            }
        },
        _ => {
            proof {
                assert(w.units@ =~= w0.units@);
            }
            false
        },
    }
}

/// The message the combat phase logs: who dealt how much damage to whom, or
/// who failed, with the roll against the threshold.
pub fn combat_log_message(
    attacker_name: &str,
    defender_name: &str,
    damage: usize,
    roll: u8,
    defense: usize,
    hit: bool,
) -> (res: String)
    ensures
        res@ == combat_log_view(attacker_name@, defender_name@, damage, roll, defense, hit),
{
    let mut out: Vec<char> = Vec::new();
    crate::strutil::push_str_chars(&mut out, attacker_name);
    if hit {
        crate::strutil::push_str_chars(&mut out, " caused ");
        crate::decimal::push_decimal(&mut out, damage as u64);
        crate::strutil::push_str_chars(&mut out, " damage to ");
    } else {
        crate::strutil::push_str_chars(&mut out, " has failed to cause significant damage to ");
    }
    crate::strutil::push_str_chars(&mut out, defender_name);
    crate::strutil::push_str_chars(&mut out, " (");
    crate::decimal::push_decimal(&mut out, roll as u64);
    crate::strutil::push_str_chars(&mut out, "/");
    crate::decimal::push_decimal(&mut out, defense as u64);
    crate::strutil::push_str_chars(&mut out, ")");
    crate::strutil::chars_to_string(&out)
}

/// The worlds and the result differ exactly by one resolved roll: a hit
/// exactly when the roll reaches the defender's defense, costing the
/// defender the attack's damage in health (floored at zero); a miss changes
/// nothing.
pub open spec fn combat_roll_applied(
    pre: World,
    post: World,
    c: CombatResource,
    result: CombatResult,
    roll: u8,
) -> bool {
    let d = pre.unit(c.defender);
    let hit = roll as usize >= d.combat_config.defense;
    &&& result == (if hit {
        CombatResult::Hit
    } else {
        CombatResult::Miss
    })
    &&& hit ==> post.units@ == pre.units@.update(
        c.defender as int,
        Some(
            crate::units::Unit {
                health_points: crate::units::HealthPoints {
                    left: sat_sub(d.health_points.left, c.attack.damage),
                    ..d.health_points
                },
                ..d
            },
        ),
    )
    &&& !hit ==> post.units@ == pre.units@
    &&& post.tiles@ == pre.tiles@
}

/// The combat phase, deterministic in the roll: a roll at or above the
/// defender's defense is a hit that costs the defender the attack's damage
/// in health, floored at zero; a lower roll is a miss that changes nothing.
/// Abandoned — nothing changes — if either combatant is gone. The returned
/// log line names the damage dealt, or the failure, and the roll against
/// the threshold.
pub fn handle_combat(w: &mut World, combat: &mut CombatResource, roll: u8) -> (res: Option<
    LogEvent,
>)
    requires
        old(w).wf(),
        old(combat).combat_result is Pending,
    ensures
        final(w).wf(),
        final(combat).attacker == old(combat).attacker,
        final(combat).defender == old(combat).defender,
        final(combat).attack == old(combat).attack,
        res is None <==> !(old(w).alive(old(combat).attacker) && old(w).alive(
            old(combat).defender,
        )),
        res is None ==> unchanged(*final(w), *old(w)) && final(combat).combat_result is Pending,
        old(w).alive(old(combat).attacker) && old(w).alive(old(combat).defender) ==> {
            let a = old(w).unit(old(combat).attacker);
            let d = old(w).unit(old(combat).defender);
            let hit = roll as usize >= d.combat_config.defense;
            &&& combat_roll_applied(
                *old(w),
                *final(w),
                *old(combat),
                final(combat).combat_result,
                roll,
            )
            &&& res matches Some(e) && e.message@ == combat_log_view(
                a.marker.0@,
                d.marker.0@,
                old(combat).attack.damage,
                roll,
                d.combat_config.defense,
                hit,
            )
        },
{
    if combat.attacker >= w.num_unit_slots() || combat.defender >= w.num_unit_slots() {
        return None;
    }
    let attacker_name = match &w.units[combat.attacker] {
        Some(u) => crate::strutil::clone_string(&u.marker.0),
        _ => {
            return None;
        },
    };
    let ghost w0 = *w;
    let damage = combat.attack.damage;
    let slot = vec_index_mut(&mut w.units, combat.defender);
    match slot {
        Some(defender) => {
            let defender_name = crate::strutil::clone_string(&defender.marker.0);
            let defense = defender.combat_config.defense;
            let hit = roll as usize >= defense;
            if hit {
                combat.combat_result = CombatResult::Hit;
                defender.health_points.take_damage(damage);
            } else {
                combat.combat_result = CombatResult::Miss;
            }
            proof {
                if hit {
                    assert(w.units@ =~= w0.units@.update(
                        combat.defender as int,
                        w.units@[combat.defender as int],
                    ));
                } else {
                    assert(w.units@ =~= w0.units@);
                }
            }
            let message = combat_log_message(
                attacker_name.as_str(),
                defender_name.as_str(),
                damage,
                roll,
                defense,
                hit,
            );
            Some(LogEvent { message })
        },
        _ => {
            proof {
                assert(w.units@ =~= w0.units@);
            }
            None
        },
    }
}


/// Occurrences of `a` in `s`.
pub open spec fn count_kind(s: Seq<PassiveCombatAbility>, a: PassiveCombatAbility) -> nat
    decreases s.len(),
{
    if s.len() == 0 {
        0
    } else {
        count_kind(s.drop_last(), a) + if s.last() == a {
            1nat
        } else {
            0nat
        }
    }
}

/// `n` points taken from `x`, floored at zero.
pub open spec fn sat_sub_n(x: usize, n: nat) -> usize {
    if n >= x {
        0usize
    } else {
        (x - n) as usize
    }
}

proof fn lemma_count_kind_prefix(s: Seq<PassiveCombatAbility>, a: PassiveCombatAbility, i: int)
    requires
        0 <= i < s.len(),
    ensures
        count_kind(s.subrange(0, i + 1), a) == count_kind(s.subrange(0, i), a) + if s[i] == a {
            1nat
        } else {
            0nat
        },
{
    assert(s.subrange(0, i + 1).drop_last() =~= s.subrange(0, i));
    assert(s.subrange(0, i + 1).last() == s[i]);
}

/// The log line armor break appends: the defender's name and the lost
/// point.
pub open spec fn armor_break_log_view(defender_name: Seq<char>) -> Seq<char> {
    defender_name + " has lost 1 defense point due to armor break"@
}

/// The log line hit-and-run appends: the attacker's name and the
/// disengagement.
pub open spec fn hit_and_run_log_view(attacker_name: Seq<char>) -> Seq<char> {
    attacker_name + " disengaged due to Hit&Run"@
}

/// All fields agree except the defense value, which is `newdef`.
pub open spec fn only_defense_changed(
    n: crate::units::Unit,
    o: crate::units::Unit,
    newdef: usize,
) -> bool {
    &&& n.marker == o.marker
    &&& n.team == o.team
    &&& n.position == o.position
    &&& n.action_points == o.action_points
    &&& n.health_points == o.health_points
    &&& n.status == o.status
    &&& n.active_abilities == o.active_abilities
    &&& n.combat_config.damage == o.combat_config.damage
    &&& n.combat_config.range == o.combat_config.range
    &&& n.combat_config.passive_combat_abilities@ == o.combat_config.passive_combat_abilities@
    &&& n.combat_config.defense == newdef
}

/// All fields agree except the engagement set, which is `eset`.
pub open spec fn only_engagement_changed(
    n: crate::units::Unit,
    o: crate::units::Unit,
    eset: Set<UnitId>,
) -> bool {
    &&& crate::engagement::same_but_status(n, o)
    &&& n.status.engaged() == eset
    &&& n.status.wf()
}

/// Runs every passive ability of `abilities` whose trigger matches
/// `trigger`, in list order. With the closed ability set this means: on a
/// miss, each matching armor break lowers the defender's defense by one,
/// floored at zero; on a hit, a matching hit-and-run disengages the
/// attacker from the defender. Each ability that fires appends a log line.
pub fn filter_and_run_abilities(
    w: &mut World,
    combat: &CombatResource,
    abilities: &Vec<PassiveCombatAbility>,
    trigger: AbilityTrigger,
    log: &mut Vec<LogEvent>,
)
    requires
        old(w).wf(),
    ensures
        forall|k: int| 0 <= k < old(log)@.len() ==> final(log)@[k] == old(log)@[k],
        trigger != AbilityTrigger::OnAttack(CombatPhase::PostCombat) ==> final(log)@ == old(log)@,
        trigger == AbilityTrigger::OnAttack(CombatPhase::PostCombat) ==> {
            let n_ab = count_kind(abilities@, PassiveCombatAbility::ArmorBreak);
            let n_hr = count_kind(abilities@, PassiveCombatAbility::HitAndRun);
            &&& (combat.combat_result is Miss && old(w).alive(combat.defender)) ==> final(
                log)@.len() == old(log)@.len() + n_ab && (forall|k: int|
                old(log)@.len() <= k < final(log)@.len() ==> (#[trigger] final(log)@[k]).message@
                    == armor_break_log_view(old(w).unit(combat.defender).marker.0@))
            &&& (combat.combat_result is Hit && old(w).alive(combat.attacker)) ==> final(
                log)@.len() == old(log)@.len() + n_hr && (forall|k: int|
                old(log)@.len() <= k < final(log)@.len() ==> (#[trigger] final(log)@[k]).message@
                    == hit_and_run_log_view(old(w).unit(combat.attacker).marker.0@))
            &&& !(combat.combat_result is Miss && old(w).alive(combat.defender)) && !(
            combat.combat_result is Hit && old(w).alive(combat.attacker)) ==> final(log)@ == old(
                log)@
        },
        final(w).wf(),
        final(w).tiles@ == old(w).tiles@,
        final(w).units@.len() == old(w).units@.len(),
        forall|j: UnitId| final(w).alive(j) <==> old(w).alive(j),
        trigger != AbilityTrigger::OnAttack(CombatPhase::PostCombat) ==> final(w).units@ == old(
            w,
        ).units@,
        trigger == AbilityTrigger::OnAttack(CombatPhase::PostCombat) ==> {
            let n_ab = count_kind(abilities@, PassiveCombatAbility::ArmorBreak);
            let hr = abilities@.contains(PassiveCombatAbility::HitAndRun);
            &&& (combat.combat_result is Miss && old(w).alive(combat.defender) && n_ab > 0)
                ==> (only_defense_changed(
                final(w).unit(combat.defender),
                old(w).unit(combat.defender),
                sat_sub_n(old(w).unit(combat.defender).combat_config.defense, n_ab),
            ) && (forall|j: UnitId|
                j < old(w).units@.len() && j != combat.defender ==> final(w).units@[j as int]
                    == old(w).units@[j as int]))
            &&& !(combat.combat_result is Miss && old(w).alive(combat.defender) && n_ab > 0)
                && !(combat.combat_result is Hit && old(w).alive(combat.attacker) && hr)
                ==> final(w).units@ == old(w).units@
            &&& (combat.combat_result is Hit && old(w).alive(combat.attacker) && hr)
                ==> (only_engagement_changed(
                final(w).unit(combat.attacker),
                old(w).unit(combat.attacker),
                old(w).unit(combat.attacker).status.engaged().remove(combat.defender),
            ) && (forall|j: UnitId|
                j < old(w).units@.len() && j != combat.attacker ==> final(w).units@[j as int]
                    == old(w).units@[j as int]))
        },
{
    let mut i: usize = 0;
    while i < abilities.len()
        invariant
            old(w).wf(),
            w.wf(),
            forall|k: int| 0 <= k < old(log)@.len() ==> log@[k] == old(log)@[k],
            trigger != AbilityTrigger::OnAttack(CombatPhase::PostCombat) ==> log@ == old(log)@,
            trigger == AbilityTrigger::OnAttack(CombatPhase::PostCombat) ==> {
                let n_ab = count_kind(
                    abilities@.subrange(0, i as int),
                    PassiveCombatAbility::ArmorBreak,
                );
                let n_hr = count_kind(
                    abilities@.subrange(0, i as int),
                    PassiveCombatAbility::HitAndRun,
                );
                &&& (combat.combat_result is Miss && old(w).alive(combat.defender)) ==> log@.len()
                    == old(log)@.len() + n_ab && (forall|k: int|
                    old(log)@.len() <= k < log@.len() ==> (#[trigger] log@[k]).message@
                        == armor_break_log_view(old(w).unit(combat.defender).marker.0@))
                &&& (combat.combat_result is Hit && old(w).alive(combat.attacker)) ==> log@.len()
                    == old(log)@.len() + n_hr && (forall|k: int|
                    old(log)@.len() <= k < log@.len() ==> (#[trigger] log@[k]).message@
                        == hit_and_run_log_view(old(w).unit(combat.attacker).marker.0@))
                &&& !(combat.combat_result is Miss && old(w).alive(combat.defender)) && !(
                combat.combat_result is Hit && old(w).alive(combat.attacker)) ==> log@ == old(
                    log)@
            },

            i <= abilities@.len(),
            w.tiles@ == old(w).tiles@,
            w.units@.len() == old(w).units@.len(),
            forall|j: UnitId| w.alive(j) <==> old(w).alive(j),
            trigger != AbilityTrigger::OnAttack(CombatPhase::PostCombat) ==> w.units@ == old(
                w,
            ).units@,
            trigger == AbilityTrigger::OnAttack(CombatPhase::PostCombat) ==> {
                let n_ab = count_kind(abilities@.subrange(0, i as int), PassiveCombatAbility::ArmorBreak);
                let hr = abilities@.subrange(0, i as int).contains(PassiveCombatAbility::HitAndRun);
                &&& (combat.combat_result is Miss && old(w).alive(combat.defender) && n_ab > 0)
                    ==> (only_defense_changed(
                    w.unit(combat.defender),
                    old(w).unit(combat.defender),
                    sat_sub_n(old(w).unit(combat.defender).combat_config.defense, n_ab),
                ) && (forall|j: UnitId|
                    j < old(w).units@.len() && j != combat.defender ==> w.units@[j as int] == old(
                        w,
                    ).units@[j as int]))
                &&& !(combat.combat_result is Miss && old(w).alive(combat.defender) && n_ab > 0)
                    && !(combat.combat_result is Hit && old(w).alive(combat.attacker) && hr)
                    ==> w.units@ == old(w).units@
                &&& (combat.combat_result is Hit && old(w).alive(combat.attacker) && hr)
                    ==> (only_engagement_changed(
                    w.unit(combat.attacker),
                    old(w).unit(combat.attacker),
                    old(w).unit(combat.attacker).status.engaged().remove(combat.defender),
                ) && (forall|j: UnitId|
                    j < old(w).units@.len() && j != combat.attacker ==> w.units@[j as int] == old(
                        w,
                    ).units@[j as int]))
            },
        decreases abilities@.len() - i,
    {
        let ability = abilities[i];
        let matches_trigger = match (ability.get_trigger(), trigger) {
            (
                AbilityTrigger::OnAttack(CombatPhase::PostCombat),
                AbilityTrigger::OnAttack(CombatPhase::PostCombat),
            ) => true,
            (
                AbilityTrigger::OnAttack(CombatPhase::PreCombat),
                AbilityTrigger::OnAttack(CombatPhase::PreCombat),
            ) => true,
            (
                AbilityTrigger::OnDefense(CombatPhase::PostCombat),
                AbilityTrigger::OnDefense(CombatPhase::PostCombat),
            ) => true,
            (
                AbilityTrigger::OnDefense(CombatPhase::PreCombat),
                AbilityTrigger::OnDefense(CombatPhase::PreCombat),
            ) => true,
            _ => false,
        };
        let ghost w_before = *w;
        let ghost log_before = log@;
        if matches_trigger {
            match ability {
                PassiveCombatAbility::ArmorBreak => {
                    armor_break_action(w, combat, log);
                },
                PassiveCombatAbility::HitAndRun => {
                    hit_and_run_action(w, combat, log);
                },
            }
        }
        proof {
            lemma_count_kind_prefix(abilities@, PassiveCombatAbility::ArmorBreak, i as int);
            lemma_count_kind_prefix(abilities@, PassiveCombatAbility::HitAndRun, i as int);
            assert(abilities@.subrange(0, i as int).push(abilities@[i as int]) =~= abilities@
                .subrange(0, i + 1));
            let pre_list = abilities@.subrange(0, i as int);
            let post_list = abilities@.subrange(0, i + 1);
            assert forall|x: PassiveCombatAbility| post_list.contains(x) implies pre_list.contains(
                x,
            ) || abilities@[i as int] == x by {
                let k = choose|k: int| 0 <= k < post_list.len() && post_list[k] == x;
                if k < pre_list.len() {
                    assert(pre_list[k] == x);
                }
            }
            assert(pre_list.contains(PassiveCombatAbility::HitAndRun) ==> post_list.contains(
                PassiveCombatAbility::HitAndRun,
            ));
            assert(abilities@[i as int] == PassiveCombatAbility::HitAndRun ==> post_list.contains(
                PassiveCombatAbility::HitAndRun,
            ));
            if trigger == AbilityTrigger::OnAttack(CombatPhase::PostCombat) {
                let n_i = count_kind(pre_list, PassiveCombatAbility::ArmorBreak);
                let n_i1 = count_kind(post_list, PassiveCombatAbility::ArmorBreak);
                let def0 = old(w).unit(combat.defender).combat_config.defense;
                if combat.combat_result is Miss && old(w).alive(combat.defender) {
                    assert(w_before.unit(combat.defender).marker == old(w).unit(
                        combat.defender,
                    ).marker) by {
                        let n_pre = count_kind(pre_list, PassiveCombatAbility::ArmorBreak);
                        if n_pre == 0 {
                            assert(w_before.units@ == old(w).units@);
                        }
                    }
                    if matches_trigger && ability == PassiveCombatAbility::ArmorBreak {
                        assert(n_i1 == n_i + 1);
                        if n_i == 0 {
                            assert(w_before.units@ == old(w).units@);
                        } else {
                            assert(sat_sub_n(sat_sub_n(def0, n_i), 1) == sat_sub_n(def0, n_i1));
                        }
                    } else {
                        assert(w.units@ == w_before.units@);
                        assert(n_i1 == n_i);
                        assert(log@ == log_before);
                    }
                } else if combat.combat_result is Hit && old(w).alive(combat.attacker) {
                    assert(w_before.unit(combat.attacker).marker == old(w).unit(
                        combat.attacker,
                    ).marker) by {
                        if !pre_list.contains(PassiveCombatAbility::HitAndRun) {
                            assert(w_before.units@ == old(w).units@);
                        }
                    }
                    let e0 = old(w).unit(combat.attacker).status.engaged();
                    if matches_trigger && ability == PassiveCombatAbility::HitAndRun {
                        let hr_i = pre_list.contains(PassiveCombatAbility::HitAndRun);
                        if hr_i {
                            assert(w_before.unit(combat.attacker).status.engaged() == e0.remove(
                                combat.defender,
                            ));
                            assert(e0.remove(combat.defender).remove(combat.defender) =~= e0.remove(
                                combat.defender,
                            ));
                        } else {
                            assert(w_before.units@ == old(w).units@);
                        }
                    } else {
                        assert(w.units@ == w_before.units@);
                    }
                } else {
                    assert(w.units@ == w_before.units@);
                }
            } else {
                assert(w.units@ == w_before.units@);
            }
        }
        i = i + 1;
    }
    proof {
        assert(abilities@.subrange(0, abilities@.len() as int) =~= abilities@);
    }
}

/// Armor break: after a miss against its owner\'s strike, the defender
/// permanently loses one point of defense, floored at zero.
fn armor_break_action(w: &mut World, combat: &CombatResource, log: &mut Vec<LogEvent>)
    requires
        old(w).wf(),
    ensures
        !(combat.combat_result is Miss && old(w).alive(combat.defender)) ==> final(log)@ == old(
            log)@,
        combat.combat_result is Miss && old(w).alive(combat.defender) ==> final(log)@.len() == old(
            log)@.len() + 1 && final(log)@.last().message@ == armor_break_log_view(
            old(w).unit(combat.defender).marker.0@,
        ),
        forall|k: int| 0 <= k < old(log)@.len() ==> final(log)@[k] == old(log)@[k],
        final(w).wf(),
        final(w).tiles@ == old(w).tiles@,
        final(w).units@.len() == old(w).units@.len(),
        forall|j: UnitId| final(w).alive(j) <==> old(w).alive(j),
        !(combat.combat_result is Miss && old(w).alive(combat.defender)) ==> final(w).units@ == old(
            w,
        ).units@,
        combat.combat_result is Miss && old(w).alive(combat.defender) ==> only_defense_changed(
            final(w).unit(combat.defender),
            old(w).unit(combat.defender),
            sat_sub_n(old(w).unit(combat.defender).combat_config.defense, 1),
        ) && (forall|j: UnitId|
            j < old(w).units@.len() && j != combat.defender ==> final(w).units@[j as int] == old(
                w,
            ).units@[j as int]),
{
    let is_miss = match combat.combat_result {
        CombatResult::Miss => true,
        _ => false,
    };
    if !is_miss {
        return ;
    }
    if combat.defender >= w.num_unit_slots() {
        return ;
    }
    let ghost w0 = *w;
    let slot = vec_index_mut(&mut w.units, combat.defender);
    match slot {
        Some(unit) => {
            let name = crate::strutil::clone_string(&unit.marker.0);
            unit.combat_config.defense = if unit.combat_config.defense >= 1 {
                unit.combat_config.defense - 1
            } else {
                0
            };
            proof {
                assert(w.units@ =~= w0.units@.update(
                    combat.defender as int,
                    w.units@[combat.defender as int],
                ));
            }
            let mut msg: Vec<char> = Vec::new();
            crate::strutil::push_chars_of_string(&mut msg, &name);
            crate::strutil::push_str_chars(&mut msg, " has lost 1 defense point due to armor break");
            log.push(LogEvent { message: crate::strutil::chars_to_string(&msg) });
        },
        _ => {
            proof {
                assert(w.units@ =~= w0.units@);
            }
        },
    }
}

/// Hit and run: after a hit by its owner, the attacker immediately
/// disengages from the defender.
fn hit_and_run_action(w: &mut World, combat: &CombatResource, log: &mut Vec<LogEvent>)
    requires
        old(w).wf(),
    ensures
        !(combat.combat_result is Hit && old(w).alive(combat.attacker)) ==> final(log)@ == old(
            log)@,
        combat.combat_result is Hit && old(w).alive(combat.attacker) ==> final(log)@.len() == old(
            log)@.len() + 1 && final(log)@.last().message@ == hit_and_run_log_view(
            old(w).unit(combat.attacker).marker.0@,
        ),
        forall|k: int| 0 <= k < old(log)@.len() ==> final(log)@[k] == old(log)@[k],
        final(w).wf(),
        final(w).tiles@ == old(w).tiles@,
        final(w).units@.len() == old(w).units@.len(),
        forall|j: UnitId| final(w).alive(j) <==> old(w).alive(j),
        !(combat.combat_result is Hit && old(w).alive(combat.attacker)) ==> final(w).units@ == old(
            w,
        ).units@,
        combat.combat_result is Hit && old(w).alive(combat.attacker) ==> only_engagement_changed(
            final(w).unit(combat.attacker),
            old(w).unit(combat.attacker),
            old(w).unit(combat.attacker).status.engaged().remove(combat.defender),
        ) && (forall|j: UnitId|
            j < old(w).units@.len() && j != combat.attacker ==> final(w).units@[j as int] == old(
                w,
            ).units@[j as int]),
{
    let is_hit = match combat.combat_result {
        CombatResult::Hit => true,
        _ => false,
    };
    if !is_hit {
        return ;
    }
    if combat.attacker >= w.num_unit_slots() {
        return ;
    }
    let ghost w0 = *w;
    let slot = vec_index_mut(&mut w.units, combat.attacker);
    match slot {
        Some(unit) => {
            let name = crate::strutil::clone_string(&unit.marker.0);
            unit.status.disengage_with(combat.defender);
            proof {
                assert(w.units@ =~= w0.units@.update(
                    combat.attacker as int,
                    w.units@[combat.attacker as int],
                ));
            }
            let mut msg: Vec<char> = Vec::new();
            crate::strutil::push_chars_of_string(&mut msg, &name);
            crate::strutil::push_str_chars(&mut msg, " disengaged due to Hit&Run");
            log.push(LogEvent { message: crate::strutil::chars_to_string(&msg) });
        },
        _ => {
            proof {
                assert(w.units@ =~= w0.units@);
            }
        },
    }
}


/// The post-combat phase: the defender's passive abilities listening on
/// defense, then the attacker's listening on attack. With the closed
/// ability set only the attacker-side dispatch can change anything.
pub fn handle_post_combat(w: &mut World, combat: &CombatResource, log: &mut Vec<LogEvent>)
    requires
        old(w).wf(),
    ensures
        forall|k: int| 0 <= k < old(log)@.len() ==> final(log)@[k] == old(log)@[k],
        ({
            let n_ab = count_kind(
                combat.attack.passive_combat_abilities@,
                PassiveCombatAbility::ArmorBreak,
            );
            let n_hr = count_kind(
                combat.attack.passive_combat_abilities@,
                PassiveCombatAbility::HitAndRun,
            );
            &&& (combat.combat_result is Miss && old(w).alive(combat.defender)) ==> final(
                log)@.len() == old(log)@.len() + n_ab && (forall|k: int|
                old(log)@.len() <= k < final(log)@.len() ==> (#[trigger] final(log)@[k]).message@
                    == armor_break_log_view(old(w).unit(combat.defender).marker.0@))
            &&& (combat.combat_result is Hit && old(w).alive(combat.attacker)) ==> final(
                log)@.len() == old(log)@.len() + n_hr && (forall|k: int|
                old(log)@.len() <= k < final(log)@.len() ==> (#[trigger] final(log)@[k]).message@
                    == hit_and_run_log_view(old(w).unit(combat.attacker).marker.0@))
            &&& !(combat.combat_result is Miss && old(w).alive(combat.defender)) && !(
            combat.combat_result is Hit && old(w).alive(combat.attacker)) ==> final(log)@ == old(
                log)@
        }),
        final(w).wf(),
        final(w).tiles@ == old(w).tiles@,
        final(w).units@.len() == old(w).units@.len(),
        forall|j: UnitId| final(w).alive(j) <==> old(w).alive(j),
        ({
            let n_ab = count_kind(
                combat.attack.passive_combat_abilities@,
                PassiveCombatAbility::ArmorBreak,
            );
            let hr = combat.attack.passive_combat_abilities@.contains(
                PassiveCombatAbility::HitAndRun,
            );
            &&& (combat.combat_result is Miss && old(w).alive(combat.defender) && n_ab > 0)
                ==> (only_defense_changed(
                final(w).unit(combat.defender),
                old(w).unit(combat.defender),
                sat_sub_n(old(w).unit(combat.defender).combat_config.defense, n_ab),
            ) && (forall|j: UnitId|
                j < old(w).units@.len() && j != combat.defender ==> final(w).units@[j as int]
                    == old(w).units@[j as int]))
            &&& !(combat.combat_result is Miss && old(w).alive(combat.defender) && n_ab > 0)
                && !(combat.combat_result is Hit && old(w).alive(combat.attacker) && hr)
                ==> final(w).units@ == old(w).units@
            &&& (combat.combat_result is Hit && old(w).alive(combat.attacker) && hr)
                ==> (only_engagement_changed(
                final(w).unit(combat.attacker),
                old(w).unit(combat.attacker),
                old(w).unit(combat.attacker).status.engaged().remove(combat.defender),
            ) && (forall|j: UnitId|
                j < old(w).units@.len() && j != combat.attacker ==> final(w).units@[j as int]
                    == old(w).units@[j as int]))
        }),
{
    let defender_abilities: Vec<PassiveCombatAbility> = if combat.defender < w.num_unit_slots() {
        match &w.units[combat.defender] {
            Some(u) => u.combat_config.passive_combat_abilities.clone(),
            _ => Vec::new(),
        }
    } else {
        Vec::new()
    };
    filter_and_run_abilities(
        w,
        combat,
        &defender_abilities,
        AbilityTrigger::OnDefense(CombatPhase::PostCombat),
        log,
    );
    filter_and_run_abilities(
        w,
        combat,
        &combat.attack.passive_combat_abilities,
        AbilityTrigger::OnAttack(CombatPhase::PostCombat),
        log,
    );
}

/// The set of units the cleanup pass removes: live units whose health
/// reached zero.
pub open spec fn dead_set(w: World) -> Set<UnitId> {
    Set::<UnitId>::new(|j: UnitId| w.alive(j) && w.unit(j).health_points.left == 0)
}

/// The cleanup pass: despawns every unit whose health points reached zero
/// and purges it from every remaining engagement set.
pub fn despawn_dead_units(w: &mut World) -> (removed: Vec<UnitId>)
    requires
        old(w).wf(),
    ensures
        final(w).wf(),
        final(w).tiles@ == old(w).tiles@,
        final(w).units@.len() == old(w).units@.len(),
        removed@.no_duplicates(),
        forall|j: UnitId| removed@.contains(j) <==> dead_set(*old(w)).contains(j),
        forall|j: UnitId|
            final(w).alive(j) <==> old(w).alive(j) && old(w).unit(j).health_points.left > 0,
        forall|j: UnitId|
            final(w).alive(j) ==> crate::engagement::same_but_status(
                #[trigger] final(w).unit(j),
                old(w).unit(j),
            ) && final(w).unit(j).status.engaged() == old(w).unit(j).status.engaged().difference(
                dead_set(*old(w)),
            ) && final(w).unit(j).status.wf(),
{
    let ghost w0 = *w;
    let mut removed: Vec<UnitId> = Vec::new();
    let mut i: usize = 0;
    while i < w.units.len()
        invariant
            old(w).wf(),
            w0 == *old(w),
            i <= w.units@.len(),
            w.units@.len() == old(w).units@.len(),
            w.tiles@ == old(w).tiles@,
            removed@.no_duplicates(),
            forall|k: int| 0 <= k < removed@.len() ==> #[trigger] removed@[k] < i,
            forall|j: UnitId| removed@.contains(j) <==> j < i && dead_set(w0).contains(j),
            forall|j: UnitId|
                w.alive(j) <==> old(w).alive(j) && !(j < i && old(w).unit(j).health_points.left
                    == 0),
            forall|j: UnitId| w.alive(j) ==> #[trigger] w.unit(j) == old(w).unit(j),
        decreases w.units@.len() - i,
    {
        let ghost prev = removed@;
        let is_dead = match &w.units[i] {
            Some(u) => u.health_points.left == 0,
            _ => false,
        };
        proof {
            if is_dead {
                assert(w.alive(i));
                assert(w.unit(i) == old(w).unit(i));
                assert(old(w).alive(i));
                assert(old(w).unit(i).health_points.left == 0);
                assert(dead_set(w0).contains(i));
            } else {
                assert(w.alive(i) <==> old(w).alive(i));
                if w.alive(i) {
                    assert(w.unit(i) == old(w).unit(i));
                }
                assert(!dead_set(w0).contains(i));
            }
        }
        if is_dead {
            let ghost wb = *w;
            w.units.set(i, None);
            removed.push(i);
            proof {
                assert(forall|j: UnitId|
                    j < w.units@.len() && j != i ==> w.units@[j as int] == wb.units@[j as int]);
                assert(removed@.drop_last() == prev);
                assert(removed@[removed@.len() - 1] == i);
                assert forall|j: UnitId| removed@.contains(j) implies j < i + 1 && dead_set(
                    w0,
                ).contains(j) by {
                    let k = choose|k: int| 0 <= k < removed@.len() && removed@[k] == j;
                    if k < prev.len() {
                        assert(prev.contains(j));
                    }
                }
                assert forall|j: UnitId|
                    j < i + 1 && dead_set(w0).contains(j) implies removed@.contains(j) by {
                    if j < i {
                        assert(prev.contains(j));
                        let k = choose|k: int| 0 <= k < prev.len() && prev[k] == j;
                        assert(removed@[k] == j);
                    } else {
                        assert(removed@[removed@.len() - 1] == j);
                    }
                }
                assert forall|j: UnitId| w.alive(j) implies #[trigger] w.unit(j) == old(w).unit(
                    j,
                ) by {
                    assert(j != i);
                    assert(w.units@[j as int] == wb.units@[j as int]);
                    assert(wb.alive(j));
                    assert(wb.unit(j) == old(w).unit(j));
                }
                assert forall|j: UnitId|
                    w.alive(j) <==> old(w).alive(j) && !(j < i + 1 && old(w).unit(
                        j,
                    ).health_points.left == 0) by {
                    if j != i && j < w.units@.len() {
                        assert(w.units@[j as int] == wb.units@[j as int]);
                    }
                }
            }
        }
        i = i + 1;
    }

    proof {
        assert forall|j: UnitId| removed@.contains(j) <==> dead_set(w0).contains(j) by {
            if dead_set(w0).contains(j) {
                assert(j < w0.units@.len());
            }
        }
        assert forall|j: UnitId|
            w.alive(j) <==> old(w).alive(j) && old(w).unit(j).health_points.left > 0 by {
            if old(w).alive(j) {
                assert(j < w0.units@.len());
            }
        }
        assert forall|i3: int|
            0 <= i3 < w.units@.len() && w.units@[i3] is Some implies (
        #[trigger] w.units@[i3])->Some_0.wf() by {
            assert(w.alive(i3 as UnitId));
            assert(w.unit(i3 as UnitId) == old(w).unit(i3 as UnitId));
            assert(old(w).units@[i3]->Some_0.wf());
        }
        assert forall|i3: int, e: UnitId|
            0 <= i3 < w.units@.len() && w.units@[i3] is Some
                && #[trigger] w.units@[i3]->Some_0.status.engaged().contains(e) implies e
            < w.units@.len() && e != i3 by {
            assert(w.alive(i3 as UnitId));
            assert(w.unit(i3 as UnitId) == old(w).unit(i3 as UnitId));
            assert(old(w).units@[i3]->Some_0.status.engaged().contains(e));
        }
        assert(w.wf());
    }

    let ghost mid = *w;
    let mut i2: usize = 0;
    while i2 < w.units.len()
        invariant
            old(w).wf(),
            mid.wf(),
            w0 == *old(w),
            i2 <= w.units@.len(),
            w.units@.len() == mid.units@.len(),
            mid.units@.len() == old(w).units@.len(),
            w.tiles@ == mid.tiles@,
            mid.tiles@ == old(w).tiles@,
            forall|j: UnitId| removed@.contains(j) <==> dead_set(w0).contains(j),
            forall|j: UnitId| w.alive(j) <==> mid.alive(j),
            forall|j: UnitId| mid.alive(j) ==> #[trigger] mid.unit(j) == old(w).unit(j),
            forall|j: UnitId|
                mid.alive(j) <==> old(w).alive(j) && old(w).unit(j).health_points.left > 0,
            forall|j: UnitId| w.alive(j) && j >= i2 ==> #[trigger] w.unit(j) == mid.unit(j),
            forall|j: UnitId|
                w.alive(j) && j < i2 ==> crate::engagement::same_but_status(
                    #[trigger] w.unit(j),
                    mid.unit(j),
                ) && w.unit(j).status.engaged() == mid.unit(j).status.engaged().difference(
                    dead_set(w0),
                ) && w.unit(j).status.wf(),
        decreases w.units@.len() - i2,
    {
        let is_live = match &w.units[i2] {
            Some(_) => true,
            _ => false,
        };
        if is_live {
            proof {
                assert(w.alive(i2));
                assert(mid.alive(i2));
                assert(old(w).alive(i2));
                assert(w.unit(i2) == mid.unit(i2));
                assert(mid.unit(i2) == old(w).unit(i2));
                assert(old(w).units@[i2 as int]->Some_0.wf());
                assert(w.unit(i2).status.wf());
            }
            let ghost wb = *w;
            let slot = vec_index_mut(&mut w.units, i2);
            match slot {
                Some(unit) => {
                    let ghost u0 = *unit;
                    proof {
                        assert(u0 == wb.unit(i2));
                        assert(u0.status.wf());
                        assert(u0.status.engaged().difference(removed@.subrange(0, 0).to_set())
                            =~= u0.status.engaged());
                    }
                    let mut k: usize = 0;
                    while k < removed.len()
                        invariant
                            k <= removed@.len(),
                            unit.status.wf(),
                            u0.status.wf(),
                            crate::engagement::same_but_status(*unit, u0),
                            unit.status.engaged() == u0.status.engaged().difference(
                                removed@.subrange(0, k as int).to_set(),
                            ),
                        decreases removed@.len() - k,
                    {
                        proof {
                            assert(removed@.subrange(0, k + 1) =~= removed@.subrange(
                                0,
                                k as int,
                            ).push(removed@[k as int]));
                            assert forall|x: UnitId|
                                removed@.subrange(0, k + 1).to_set().contains(x) <==> (removed@
                                .subrange(0, k as int).to_set().contains(x) || x == removed@[
                                k as int
                            ]) by {
                                if removed@.subrange(0, k + 1).contains(x) {
                                    let m = choose|m: int|
                                        0 <= m < removed@.subrange(0, k + 1).len()
                                            && #[trigger] removed@.subrange(0, k + 1)[m] == x;
                                    if m < k {
                                        assert(removed@.subrange(0, k as int)[m] == x);
                                    }
                                } else {
                                    if removed@.subrange(0, k as int).contains(x) {
                                        let m = choose|m: int|
                                            0 <= m < k && #[trigger] removed@.subrange(
                                                0,
                                                k as int,
                                            )[m] == x;
                                        assert(removed@.subrange(0, k + 1)[m] == x);
                                        assert(false);
                                    }
                                    if x == removed@[k as int] {
                                        assert(removed@.subrange(0, k + 1)[k as int] == x);
                                        assert(false);
                                    }
                                }
                            }
                            assert(u0.status.engaged().difference(
                                removed@.subrange(0, k as int).to_set(),
                            ).remove(removed@[k as int]) =~= u0.status.engaged().difference(
                                removed@.subrange(0, k + 1).to_set(),
                            ));
                        }
                        unit.status.disengage_with(removed[k]);
                        k = k + 1;
                    }
                    proof {
                        assert(removed@.subrange(0, removed@.len() as int) =~= removed@);
                        assert forall|x: UnitId|
                            removed@.to_set().contains(x) <==> dead_set(w0).contains(x) by {}
                        assert(removed@.to_set() =~= dead_set(w0));
                        assert(unit.status.engaged() =~= u0.status.engaged().difference(
                            dead_set(w0),
                        ));
                    }
                },
                _ => {},
            }
            proof {
                assert(forall|j: UnitId|
                    j < w.units@.len() && j != i2 ==> w.units@[j as int] == wb.units@[j as int]);
                assert(forall|j: UnitId|
                    w.alive(j) && j != i2 ==> #[trigger] w.unit(j) == wb.unit(j));
            }
        }
        i2 = i2 + 1;
    }
    proof {
        assert forall|i3: int|
            0 <= i3 < w.units@.len() && w.units@[i3] is Some implies (
        #[trigger] w.units@[i3])->Some_0.wf() by {
            assert(w.alive(i3 as UnitId));
            assert(mid.alive(i3 as UnitId));
            assert(old(w).alive(i3 as UnitId));
            assert(old(w).units@[i3]->Some_0.wf());
            assert(crate::engagement::same_but_status(w.unit(i3 as UnitId), mid.unit(
                i3 as UnitId,
            )));
        }
        assert forall|i3: int, e: UnitId|
            0 <= i3 < w.units@.len() && w.units@[i3] is Some
                && #[trigger] w.units@[i3]->Some_0.status.engaged().contains(e) implies e
            < w.units@.len() && e != i3 by {
            assert(w.alive(i3 as UnitId));
            assert(mid.alive(i3 as UnitId));
            assert(old(w).alive(i3 as UnitId));
            assert(w.unit(i3 as UnitId).status.engaged() == mid.unit(
                i3 as UnitId,
            ).status.engaged().difference(dead_set(w0)));
            assert(w.unit(i3 as UnitId).status.engaged().contains(e));
            assert(mid.unit(i3 as UnitId).status.engaged().contains(e));
            assert(old(w).units@[i3]->Some_0.status.engaged().contains(e));
        }
        assert(w.wf());
    }
    removed
}


/// The inputs on which an attack is carried out rather than silently
/// abandoned: both combatants exist and are distinct, and the attacker can
/// still pay for an attack this round.
pub open spec fn resolve_guard(pre: World, event: CombatEvent) -> bool {
    &&& pre.alive(event.attacker)
    &&& pre.alive(event.defender)
    &&& event.attacker != event.defender
    &&& pre.unit(event.attacker).action_points.spec_can_attack()
}

/// How one resolved attack changes the world, deterministically in `roll`:
/// the attacker pays the attack cost and counts the attack; on a hit the
/// defender loses the attack's damage in health (floored at zero) and a
/// hit-and-run attacker disengages; on a miss each armor break in the
/// attack lowers the defender's defense by one (floored at zero). Nothing
/// else changes.
pub open spec fn attack_applied(pre: World, post: World, c: CombatResource, roll: u8) -> bool {
    let a0 = pre.unit(c.attacker);
    let d0 = pre.unit(c.defender);
    let a1 = post.unit(c.attacker);
    let d1 = post.unit(c.defender);
    let hit = roll as usize >= d0.combat_config.defense;
    let n_ab = count_kind(c.attack.passive_combat_abilities@, PassiveCombatAbility::ArmorBreak);
    let hr = c.attack.passive_combat_abilities@.contains(PassiveCombatAbility::HitAndRun);
    &&& post.units@.len() == pre.units@.len()
    &&& post.tiles@ == pre.tiles@
    &&& forall|j: UnitId|
        j < pre.units@.len() && j != c.attacker && j != c.defender ==> post.units@[j as int]
            == pre.units@[j as int]
    &&& post.alive(c.attacker)
    &&& post.alive(c.defender)
    &&& a1.marker == a0.marker
    &&& a1.team == a0.team
    &&& a1.position == a0.position
    &&& a1.health_points == a0.health_points
    &&& a1.combat_config == a0.combat_config
    &&& a1.active_abilities == a0.active_abilities
    &&& a1.action_points.left == a0.action_points.left - a0.action_points.attack_action_point_cost
    &&& a1.action_points.attacks_this_round == a0.action_points.attacks_this_round + 1
    &&& a1.action_points.max == a0.action_points.max
    &&& a1.action_points.max_attacks == a0.action_points.max_attacks
    &&& a1.action_points.attack_action_point_cost == a0.action_points.attack_action_point_cost
    &&& (if hit && hr {
        a1.status.engaged() == a0.status.engaged().remove(c.defender) && a1.status.wf()
    } else {
        a1.status == a0.status
    })
    &&& d1.marker == d0.marker
    &&& d1.team == d0.team
    &&& d1.position == d0.position
    &&& d1.action_points == d0.action_points
    &&& d1.status == d0.status
    &&& d1.active_abilities == d0.active_abilities
    &&& d1.health_points.max == d0.health_points.max
    &&& d1.health_points.left == (if hit {
        sat_sub(d0.health_points.left, c.attack.damage)
    } else {
        d0.health_points.left
    })
    &&& d1.combat_config.damage == d0.combat_config.damage
    &&& d1.combat_config.range == d0.combat_config.range
    &&& d1.combat_config.passive_combat_abilities@ == d0.combat_config.passive_combat_abilities@
    &&& d1.combat_config.defense == (if !hit && n_ab > 0 {
        sat_sub_n(d0.combat_config.defense, n_ab)
    } else {
        d0.combat_config.defense
    })
}

/// The combat resource carries the event's combatants and the attack the
/// event asked for (or the attacker's default), and records the roll's
/// outcome: a hit exactly when the roll reaches the defender's defense.
pub open spec fn resolve_post_ok(
    pre: World,
    event: CombatEvent,
    roll: u8,
    c: CombatResource,
) -> bool {
    let hit = roll as usize >= pre.unit(event.defender).combat_config.defense;
    &&& c.attacker == event.attacker
    &&& c.defender == event.defender
    &&& (match event.attack {
        AttackOrDefault::Attack(a) => c.attack.damage == a.damage && c.attack.range == a.range
            && c.attack.passive_combat_abilities@ == a.passive_combat_abilities@,
        AttackOrDefault::Default => c.attack.damage == pre.unit(
            event.attacker,
        ).combat_config.damage && c.attack.range == pre.unit(event.attacker).combat_config.range
            && c.attack.passive_combat_abilities@ == pre.unit(
            event.attacker,
        ).combat_config.passive_combat_abilities@,
    })
    &&& c.combat_result == (if hit {
        CombatResult::Hit
    } else {
        CombatResult::Miss
    })
}

/// Resolves one attack with the roll given: the pre-combat guard and
/// payment, the hit-or-miss decision, and the post-combat passive
/// abilities, appending the log lines the phases produce. Abandons the
/// event — changing nothing — when the guard fails or a combatant is gone.
pub fn resolve_attack_with_roll(
    w: &mut World,
    event: &CombatEvent,
    roll: u8,
    log: &mut Vec<LogEvent>,
) -> (res: Option<CombatResource>)
    requires
        old(w).wf(),
    ensures
        final(w).wf(),
        res is Some <==> resolve_guard(*old(w), *event),
        res is None ==> unchanged(*final(w), *old(w)) && final(log)@ == old(log)@,
        res matches Some(c) ==> resolve_post_ok(*old(w), *event, roll, c) && attack_applied(
            *old(w),
            *final(w),
            c,
            roll,
        ) && final(log)@.len() > old(log)@.len() && final(log)@[old(log)@.len() as int].message@
            == combat_log_view(
            old(w).unit(event.attacker).marker.0@,
            old(w).unit(event.defender).marker.0@,
            c.attack.damage,
            roll,
            old(w).unit(event.defender).combat_config.defense,
            roll as usize >= old(w).unit(event.defender).combat_config.defense,
        ) && (forall|k: int| 0 <= k < old(log)@.len() ==> final(log)@[k] == old(log)@[k]),
{
    let attacker_ok = event.attacker < w.num_unit_slots() && match &w.units[event.attacker] {
        Some(_) => true,
        _ => false,
    };
    let defender_ok = event.defender < w.num_unit_slots() && match &w.units[event.defender] {
        Some(_) => true,
        _ => false,
    };
    if !attacker_ok || !defender_ok || event.attacker == event.defender {
        return None;
    }
    let combat0 = match handle_combat_event(w, event) {
        Some(c) => c,
        _ => {
            return None;
        },
    };
    let ghost w0 = *w;
    if !handle_pre_combat(w, &combat0) {
        return None;
    }
    let ghost w1 = *w;
    let mut combat = combat0;
    let line = handle_combat(w, &mut combat, roll);
    proof {
        assert(w1.alive(combat.attacker));
        assert(w1.alive(combat.defender));
        assert(w1.unit(combat.defender) == w0.unit(combat.defender));
    }
    match line {
        Some(e) => {
            log.push(e);
        },
        _ => {},
    }
    let ghost w2 = *w;
    let ghost log1 = log@;
    handle_post_combat(w, &combat, log);
    proof {
        assert(forall|k: int| 0 <= k < log1.len() ==> log@[k] == log1[k]);
        assert(w2.unit(combat.defender).combat_config.defense == w0.unit(
            combat.defender,
        ).combat_config.defense);
        assert(w2.unit(combat.attacker).status == w0.unit(combat.attacker).status);
    }
    Some(combat)
}

/// Resolves one attack with a fresh twenty-sided roll; the returned roll,
/// always between 1 and 20, determines the outcome exactly as
/// [`resolve_attack_with_roll`] states it.
pub fn resolve_attack(w: &mut World, event: &CombatEvent, log: &mut Vec<LogEvent>) -> (res: Option<
    (CombatResource, u8),
>)
    requires
        old(w).wf(),
    ensures
        final(w).wf(),
        res is Some <==> resolve_guard(*old(w), *event),
        res is None ==> unchanged(*final(w), *old(w)) && final(log)@ == old(log)@,
        res matches Some((c, roll)) ==> 1 <= roll <= 20 && resolve_post_ok(*old(w), *event, roll, c)
            && attack_applied(*old(w), *final(w), c, roll),
{
    let roll = Dice::<20>::roll();
    match resolve_attack_with_roll(w, event, roll, log) {
        Some(c) => Some((c, roll)),
        _ => None,
    }
}

} // verus!



