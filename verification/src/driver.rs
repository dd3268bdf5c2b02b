//! The explicit state-machine driver: one structure owning the phase, the
//! phase-scoped resources and the world, stepped once per tick by a plain
//! input event.

use vstd::prelude::*;

use crate::combat::{CombatEvent, CombatResource};
use crate::game_log::LogRecord;
use crate::hex::HexCoord;
use crate::movement::MovingUnitsResource;
use crate::reachable::SelectedUnitResource;
use crate::round::{ActiveTeam, RoundState};
use crate::units::Team;
use crate::world::World;

verus! {

/// One event the host hands the driver per tick.
pub enum GameEvent {
    /// A left click while a hex is hovered.
    LeftClick(HexCoord),
    /// The player arms the given active ability of the given unit.
    ArmAbility(crate::units::UnitId, usize),
    /// The fixed-interval movement tick elapsed.
    MovementTick,
    /// The player ended the round.
    EndRound,
    /// The escape key: clears the selection and cancels an armed ability.
    Cancel,
    /// Nothing happened this tick.
    Idle,
}

/// Everything the phase handlers share: the world, the phase, and the
/// phase-scoped combat and movement state.
pub struct GameDriver {
    pub world: World,
    pub round_state: RoundState,
    pub active_team: ActiveTeam,
    pub selected: SelectedUnitResource,
    pub moving: MovingUnitsResource,
    pub current_combat: Option<CombatResource>,
    pub pending_combat: Vec<CombatEvent>,
    /// The armed targeting ability: its owner and its index in the owner's
    /// ability list, present exactly during the ability phase.
    pub activated_ability: Option<(crate::units::UnitId, usize)>,
    pub log: LogRecord,
}

/// One combat tick's outcome under a given roll: the roll is a d20 result,
/// the world changed exactly per [`crate::combat::combat_roll_applied`],
/// and exactly one log line — the combat line for that roll — was appended.
pub open spec fn combat_outcome_with_roll(
    pre_w: World,
    post_w: World,
    c: CombatResource,
    result: crate::combat::CombatResult,
    pre_log: Seq<crate::game_log::LogEvent>,
    post_log: Seq<crate::game_log::LogEvent>,
    roll: u8,
) -> bool {
    &&& 1 <= roll <= 20
    &&& crate::combat::combat_roll_applied(pre_w, post_w, c, result, roll)
    &&& post_log.len() == pre_log.len() + 1
    &&& post_log.last().message@ == crate::combat::combat_log_view(
        pre_w.unit(c.attacker).marker.0@,
        pre_w.unit(c.defender).marker.0@,
        c.attack.damage,
        roll,
        pre_w.unit(c.defender).combat_config.defense,
        roll as usize >= pre_w.unit(c.defender).combat_config.defense,
    )
}

/// What one combat tick owes: with a live attacker and defender in the
/// pending combat, the round enters post-combat holding the resolved
/// resource, and the world and log changed by exactly one roll.
pub open spec fn combat_tick_post(pre: GameDriver, post: GameDriver) -> bool {
    pre.current_combat matches Some(c) ==> (pre.world.alive(c.attacker) && pre.world.alive(
        c.defender,
    ) ==> post.round_state is PostCombat && (post.current_combat matches Some(c2) && c2.attacker
        == c.attacker && c2.defender == c.defender && exists|roll: u8|
        #[trigger] combat_outcome_with_roll(
            pre.world,
            post.world,
            c,
            c2.combat_result,
            pre.log.storage@,
            post.log.storage@,
            roll,
        )))
}

/// The transition relation of the round state machine: exactly the edges
/// the phase diagram allows.
pub open spec fn round_step_allowed(pre: RoundState, post: RoundState) -> bool {
    match pre {
        RoundState::Input => post is Input || post is MovingUnit || post is PreCombat
            || post is RoundEnd || post is ActivateAbility,
        RoundState::MovingUnit => post is MovingUnit || post is Input || post is PreCombat,
        RoundState::PreCombat => post is Combat || post is Input,
        RoundState::Combat => post is PostCombat || post is Input,
        RoundState::PostCombat => post is Input || post is PreCombat,
        RoundState::RoundEnd => post is Input,
        RoundState::ActivateAbility => post is ActivateAbility || post is Input
            || post is PreCombat,
    }
}

impl GameDriver {
    pub open spec fn wf(&self) -> bool {
        &&& self.world.wf()
        &&& self.moving.wf()
    }

    /// A fresh driver over a world, in the input phase, red to move.
    pub fn new(world: World) -> (res: GameDriver)
        requires
            world.wf(),
        ensures
            res.wf(),
            res.round_state is Input,
            res.active_team.0 is Red,
            res.world == world,
    {
        GameDriver {
            world,
            round_state: RoundState::Input,
            active_team: ActiveTeam(Team::Red),
            selected: SelectedUnitResource::new(),
            moving: MovingUnitsResource::new(),
            current_combat: None,
            pending_combat: Vec::new(),
            activated_ability: None,
            log: LogRecord::new(),
        }
    }

    /// One tick of the dispatcher: the handlers of the current phase run
    /// and the phase advances only along the allowed transition edges; the
    /// combat resource exists exactly during the combat phases. The clauses
    /// below oblige each phase to do its work: ending a round resets and
    /// flips, an accepted move enters the movement phase with a queued
    /// walker and a stale cache, a movement tick advances the walker, an
    /// accepted pre-combat pays and enters combat, the combat phase applies
    /// one roll and logs its line, and the cleanup after combat leaves no
    /// dead unit behind.
    pub fn tick(&mut self, event: GameEvent)
        requires
            old(self).wf(),
        ensures
            final(self).wf(),
            round_step_allowed(old(self).round_state, final(self).round_state),
            final(self).round_state is PreCombat || final(self).round_state is Combat || final(
                self).round_state is PostCombat ==> final(self).current_combat is Some,
            old(self).round_state is Input && event is EndRound ==> final(
                self).round_state is Input && crate::round::round_reset_ok(
                old(self).world,
                final(self).world,
            ) && (old(self).active_team.0 is Red ==> final(self).active_team.0 is Blue) && (old(
                self).active_team.0 is Blue ==> final(self).active_team.0 is Red),
            old(self).round_state is RoundEnd ==> final(self).round_state is Input
                && crate::round::round_reset_ok(old(self).world, final(self).world),
            old(self).round_state is Input && final(self).round_state is MovingUnit ==> final(
                self).moving.0@.len() == old(self).moving.0@.len() + 1 && final(
                self).selected.recompute_cache,
            old(self).round_state is MovingUnit && event is MovementTick ==> final(
                self).selected.recompute_cache && (final(self).round_state is Input || final(
                self).round_state is PreCombat || final(self).moving.0@.len() > 0),
            old(self).round_state is MovingUnit && event is MovementTick && old(
                self).moving.0@.len() == 1 && !old(self).moving.0@[0].finished() && old(
                self).world.alive(old(self).moving.0@[0].entity)
                ==> crate::movement::moved_one_step(
                old(self).world,
                final(self).world,
                old(self).moving.0@[0],
            ),
            old(self).round_state is PreCombat ==> (old(self).current_combat matches Some(c)
                ==> {
                let accepted = old(self).world.alive(c.attacker) && old(self).world.unit(
                    c.attacker,
                ).action_points.spec_can_attack();
                &&& accepted ==> final(self).round_state is Combat && crate::combat::attack_paid(
                    old(self).world,
                    final(self).world,
                    c.attacker,
                )
                &&& !accepted ==> final(self).round_state is Input && crate::combat::unchanged(
                    final(self).world,
                    old(self).world,
                )
            }),
            old(self).round_state is Combat ==> combat_tick_post(*old(self), *final(self)),
            old(self).round_state is PostCombat && old(self).current_combat is Some ==> (forall|
                j: crate::units::UnitId,
            |
                final(self).world.alive(j) ==> #[trigger] final(self).world.unit(
                    j,
                ).health_points.left > 0) && final(self).selected.recompute_cache,
    {
        match self.round_state {
            RoundState::Input => self.tick_input(event),
            RoundState::MovingUnit => self.tick_moving(event),
            RoundState::PreCombat => self.tick_pre_combat(),
            RoundState::Combat => self.tick_combat(),
            RoundState::PostCombat => self.tick_post_combat(),
            RoundState::RoundEnd => self.tick_round_end(),
            RoundState::ActivateAbility => self.tick_activate_ability(event),
        }
    }

    /// The input phase: a click selects, attacks or moves; ending the round
    /// resets and flips; anything else keeps waiting.
    fn tick_input(&mut self, event: GameEvent)
        requires
            old(self).wf(),
            old(self).round_state is Input,
        ensures
            final(self).wf(),
            round_step_allowed(old(self).round_state, final(self).round_state),
            final(self).round_state is PreCombat ==> final(self).current_combat is Some,
            final(self).round_state is MovingUnit || final(self).round_state is Input || final(
                self).round_state is PreCombat || final(self).round_state is ActivateAbility,
            event is EndRound ==> final(self).round_state is Input && crate::round::round_reset_ok(
                old(self).world,
                final(self).world,
            ) && (old(self).active_team.0 is Red ==> final(self).active_team.0 is Blue) && (old(
                self).active_team.0 is Blue ==> final(self).active_team.0 is Red) && final(
                self).selected.selected_unit is None,
            final(self).round_state is MovingUnit ==> final(self).moving.0@.len() == old(
                self).moving.0@.len() + 1 && final(self).selected.recompute_cache,
    {
        match event {
            GameEvent::ArmAbility(owner, index) => {
                self.arm_ability(owner, index);
            },
            GameEvent::LeftClick(hex) => {
                if !(-crate::hex::COORD_LIMIT < hex.q && hex.q < crate::hex::COORD_LIMIT
                    && -crate::hex::COORD_LIMIT < hex.r && hex.r < crate::hex::COORD_LIMIT) {
                    return ;
                }
                crate::reachable::update_reachable_hexes_cache(
                    &self.world,
                    &mut self.selected,
                    None,
                );
                let path = crate::reachable::compute_current_path(
                    &self.world,
                    self.selected.selected_unit(),
                    Some(hex),
                );
                let decision = crate::input::handle_selected_unit_input(
                    &self.world,
                    &self.selected,
                    &self.active_team,
                    hex,
                    &path,
                );
                match decision {
                    crate::input::InputDecision::Select(id) => {
                        self.selected.set_selected_unit(Some(id));
                    },
                    crate::input::InputDecision::Attack(e) => {
                        self.pending_combat.push(e);
                        self.start_pending_combat();
                    },
                    crate::input::InputDecision::Move(m) => {
                        let accepted = crate::movement::handle_move_event(
                            &mut self.world,
                            &mut self.moving,
                            &m,
                        );
                        if accepted {
                            self.selected.needs_reachable_hexes_recomputation();
                            self.round_state = RoundState::MovingUnit;
                        }
                    },
                    crate::input::InputDecision::DoNothing => {},
                }
            },
            GameEvent::EndRound => {
                let mut sel = self.selected.selected_unit();
                crate::round::round_end_system(&mut self.world, &mut self.active_team, &mut sel);
                self.selected.set_selected_unit(sel);
                self.round_state = RoundState::Input;
            },
            GameEvent::Cancel => {
                self.selected.set_selected_unit(None);
            },
            _ => {},
        }
    }

    /// The movement phase: each tick every walking unit advances one hex
    /// and raises the retaliation events of the enemies it disengages from;
    /// the phase ends when every path is exhausted, or hands over to combat
    /// when a retaliation is pending.
    fn tick_moving(&mut self, event: GameEvent)
        requires
            old(self).wf(),
            old(self).round_state is MovingUnit,
        ensures
            final(self).wf(),
            round_step_allowed(old(self).round_state, final(self).round_state),
            final(self).round_state is PreCombat ==> final(self).current_combat is Some,
            !(event is MovementTick) ==> *final(self) == *old(self),
            event is MovementTick ==> final(self).selected.recompute_cache,
            event is MovementTick ==> final(self).round_state is Input || final(
                self).round_state is PreCombat || final(self).moving.0@.len() > 0,
            event is MovementTick && old(self).moving.0@.len() == 1 && !old(
                self).moving.0@[0].finished() && old(self).world.alive(old(self).moving.0@[0].entity)
                ==> crate::movement::moved_one_step(
                old(self).world,
                final(self).world,
                old(self).moving.0@[0],
            ),
    {
        match event {
            GameEvent::MovementTick => {},
            _ => {
                return ;
            },
        }
        let mut i: usize = 0;
        while i < self.moving.0.len()
            invariant
                self.world.wf(),
                self.moving.wf(),
                self.round_state == old(self).round_state,
                old(self).round_state is MovingUnit,
                old(self).moving.0@.len() == 1 ==> self.moving.0@.len() == 1,
                old(self).moving.0@.len() == 1 && i == 0 ==> self.moving.0@ == old(
                    self).moving.0@ && self.world == old(self).world,
                old(self).moving.0@.len() == 1 && i >= 1 && !old(self).moving.0@[0].finished()
                    && old(self).world.alive(old(self).moving.0@[0].entity)
                    ==> crate::movement::moved_one_step(
                    old(self).world,
                    self.world,
                    old(self).moving.0@[0],
                ),
            decreases self.moving.0@.len() - i,
        {
            let ghost mv_before = self.moving.0@;
            let ghost w_before = self.world;
            let m = crate::world::vec_index_mut(&mut self.moving.0, i);
            let mut events = crate::movement::move_unit_tick(&mut self.world, m);
            proof {
                assert(self.moving.0@[i as int].wf());
                assert forall|k: int|
                    0 <= k < self.moving.0@.len() implies (#[trigger] self.moving.0@[k]).wf() by {
                    if k != i {
                        assert(self.moving.0@[k] == mv_before[k]);
                    }
                }
            }
            proof {
                if old(self).moving.0@.len() == 1 {
                    assert(i == 0);
                    assert(mv_before == old(self).moving.0@);
                    assert(w_before == old(self).world);
                    if !old(self).moving.0@[0].finished() && old(self).world.alive(
                        old(self).moving.0@[0].entity,
                    ) {
                        assert(crate::movement::moved_one_step(
                            old(self).world,
                            self.world,
                            old(self).moving.0@[0],
                        ));
                    }
                }
            }
            self.pending_combat.append(&mut events);
            i = i + 1;
        }
        let ended = crate::movement::check_whether_movement_has_ended(&mut self.moving);
        self.selected.needs_reachable_hexes_recomputation();
        if self.pending_combat.len() > 0 {
            self.start_pending_combat();
        }
        let still_moving = match self.round_state {
            RoundState::MovingUnit => true,
            _ => false,
        };
        if still_moving && ended {
            self.round_state = RoundState::Input;
        }
    }

    /// Drains the pending combat events into the pre-combat phase: stale
    /// events are dropped until one resolves to a combat resource or none is
    /// left. Nothing but the queue, the resource and the phase changes.
    fn start_pending_combat(&mut self)
        requires
            old(self).wf(),
            !(old(self).round_state is PreCombat),
        ensures
            final(self).wf(),
            final(self).world == old(self).world,
            final(self).moving == old(self).moving,
            final(self).selected == old(self).selected,
            final(self).active_team == old(self).active_team,
            final(self).log.storage@ == old(self).log.storage@,
            final(self).round_state is PreCombat ==> final(self).current_combat is Some,
            final(self).round_state == old(self).round_state || final(
                self).round_state is PreCombat,
            !(final(self).round_state is PreCombat) ==> final(self).pending_combat@.len() == 0
                && final(self).current_combat == old(self).current_combat,
    {
        while self.pending_combat.len() > 0
            invariant
                old(self).wf(),
                !(old(self).round_state is PreCombat),
                self.world == old(self).world,
                self.moving == old(self).moving,
                self.selected == old(self).selected,
                self.active_team == old(self).active_team,
                self.log.storage@ == old(self).log.storage@,
                self.round_state == old(self).round_state,
                self.current_combat == old(self).current_combat,
            decreases self.pending_combat@.len(),
        {
            let event = self.pending_combat.remove(0);
            match crate::combat::handle_combat_event(&self.world, &event) {
                Some(c) => {
                    self.current_combat = Some(c);
                    self.round_state = RoundState::PreCombat;
                    return ;
                },
                _ => {},
            }
        }
    }

    /// The pre-combat phase: the guard and the payment; an attack the guard
    /// accepts is paid for exactly and the round enters combat, a refused
    /// one abandons the combat, changes nothing and returns to input.
    fn tick_pre_combat(&mut self)
        requires
            old(self).wf(),
            old(self).round_state is PreCombat,
        ensures
            final(self).wf(),
            round_step_allowed(old(self).round_state, final(self).round_state),
            final(self).round_state is Combat ==> final(self).current_combat is Some,
            old(self).current_combat matches Some(c) ==> {
                let accepted = old(self).world.alive(c.attacker) && old(self).world.unit(
                    c.attacker,
                ).action_points.spec_can_attack();
                &&& accepted ==> final(self).round_state is Combat && crate::combat::attack_paid(
                    old(self).world,
                    final(self).world,
                    c.attacker,
                ) && final(self).current_combat == old(self).current_combat
                &&& !accepted ==> final(self).round_state is Input && crate::combat::unchanged(
                    final(self).world,
                    old(self).world,
                ) && final(self).current_combat is None
            },
            old(self).current_combat is None ==> final(self).round_state is Input && final(
                self).world == old(self).world,
    {
        let combat = match &self.current_combat {
            Some(c) => CombatResource {
                attacker: c.attacker,
                attack: crate::units::Attack {
                    damage: c.attack.damage,
                    range: c.attack.range,
                    passive_combat_abilities: c.attack.passive_combat_abilities.clone(),
                },
                defender: c.defender,
                combat_result: c.combat_result,
            },
            _ => {
                self.round_state = RoundState::Input;
                return ;
            },
        };
        let accepted = crate::combat::handle_pre_combat(&mut self.world, &combat);
        if accepted {
            self.round_state = RoundState::Combat;
        } else {
            self.current_combat = None;
            self.round_state = RoundState::Input;
        }
    }

    /// The combat phase: one twenty-sided roll decides hit or miss and the
    /// damage, exactly as the combat function states it, and the log line is
    /// recorded; with a combatant gone the combat is abandoned unchanged.
    fn tick_combat(&mut self)
        requires
            old(self).wf(),
            old(self).round_state is Combat,
        ensures
            final(self).wf(),
            round_step_allowed(old(self).round_state, final(self).round_state),
            final(self).round_state is PostCombat ==> final(self).current_combat is Some,
            combat_tick_post(*old(self), *final(self)),
    {
        let mut combat = match &self.current_combat {
            Some(c) => CombatResource {
                attacker: c.attacker,
                attack: crate::units::Attack {
                    damage: c.attack.damage,
                    range: c.attack.range,
                    passive_combat_abilities: c.attack.passive_combat_abilities.clone(),
                },
                defender: c.defender,
                combat_result: crate::combat::CombatResult::Pending,
            },
            _ => {
                self.round_state = RoundState::Input;
                return ;
            },
        };
        let roll = crate::dice::Dice::<20>::roll();
        match crate::combat::handle_combat(&mut self.world, &mut combat, roll) {
            Some(line) => {
                let ghost lv = line;
                let ghost log_pre = self.log.storage@;
                let mut lines: Vec<crate::game_log::LogEvent> = Vec::new();
                lines.push(line);
                proof {
                    assert(lines@ =~= seq![lv]);
                }
                self.log.handle_log_events(lines);
                proof {
                    assert(self.log.storage@ =~= log_pre.push(lv));
                }
                self.current_combat = Some(combat);
                self.round_state = RoundState::PostCombat;
                proof {
                    if old(self).current_combat is Some {
                        let c = old(self).current_combat->Some_0;
                        if old(self).world.alive(c.attacker) && old(self).world.alive(c.defender) {
                            assert(crate::combat::combat_roll_applied(
                                old(self).world,
                                self.world,
                                c,
                                self.current_combat->Some_0.combat_result,
                                roll,
                            ));
                            assert(lv.message@ == crate::combat::combat_log_view(
                                old(self).world.unit(c.attacker).marker.0@,
                                old(self).world.unit(c.defender).marker.0@,
                                c.attack.damage,
                                roll,
                                old(self).world.unit(c.defender).combat_config.defense,
                                roll as usize >= old(self).world.unit(
                                    c.defender,
                                ).combat_config.defense,
                            ));
                            assert(combat_outcome_with_roll(
                                old(self).world,
                                self.world,
                                c,
                                self.current_combat->Some_0.combat_result,
                                old(self).log.storage@,
                                self.log.storage@,
                                roll,
                            ));
                        }
                    }
                    assert(combat_tick_post(*old(self), *self));
                }
            },
            _ => {
                self.current_combat = None;
                self.round_state = RoundState::Input;
                proof {
                    assert(combat_tick_post(*old(self), *self));
                }
            },
        }
    }

    /// The post-combat phase: the passive triggers fire, dead units are
    /// cleaned up and purged from every engagement set, the reachability
    /// cache is invalidated, and the round returns to input — or to the
    /// next pending retaliation.
    fn tick_post_combat(&mut self)
        requires
            old(self).wf(),
            old(self).round_state is PostCombat,
        ensures
            final(self).wf(),
            round_step_allowed(old(self).round_state, final(self).round_state),
            final(self).round_state is PreCombat ==> final(self).current_combat is Some,
            old(self).current_combat is Some ==> (forall|j: crate::units::UnitId|
                final(self).world.alive(j) ==> #[trigger] final(self).world.unit(
                    j,
                ).health_points.left > 0) && final(self).selected.recompute_cache,
    {
        let combat = match &self.current_combat {
            Some(c) => CombatResource {
                attacker: c.attacker,
                attack: crate::units::Attack {
                    damage: c.attack.damage,
                    range: c.attack.range,
                    passive_combat_abilities: c.attack.passive_combat_abilities.clone(),
                },
                defender: c.defender,
                combat_result: c.combat_result,
            },
            _ => {
                self.round_state = RoundState::Input;
                return ;
            },
        };
        let mut lines: Vec<crate::game_log::LogEvent> = Vec::new();
        crate::combat::handle_post_combat(&mut self.world, &combat, &mut lines);
        self.log.handle_log_events(lines);
        crate::combat::despawn_dead_units(&mut self.world);
        self.current_combat = None;
        self.selected.needs_reachable_hexes_recomputation();
        if self.pending_combat.len() > 0 {
            self.start_pending_combat();
            if !(match self.round_state {
                RoundState::PreCombat => true,
                _ => false,
            }) {
                self.round_state = RoundState::Input;
            }
        } else {
            self.round_state = RoundState::Input;
        }
    }

    /// The round-end phase: resources refill, the team flips exactly once,
    /// input resumes.
    fn tick_round_end(&mut self)
        requires
            old(self).wf(),
            old(self).round_state is RoundEnd,
        ensures
            final(self).wf(),
            round_step_allowed(old(self).round_state, final(self).round_state),
            final(self).round_state is Input,
            crate::round::round_reset_ok(old(self).world, final(self).world),
            old(self).active_team.0 is Red ==> final(self).active_team.0 is Blue,
            old(self).active_team.0 is Blue ==> final(self).active_team.0 is Red,
            final(self).selected.selected_unit is None,
    {
        let mut sel = self.selected.selected_unit();
        crate::round::round_end_system(&mut self.world, &mut self.active_team, &mut sel);
        self.selected.set_selected_unit(sel);
        self.round_state = RoundState::Input;
    }

    /// Arms an active ability: with a live owner, a real ability slot and a
    /// usable charge, the round enters the targeting phase; otherwise
    /// nothing changes.
    fn arm_ability(&mut self, owner: crate::units::UnitId, index: usize)
        requires
            old(self).wf(),
            old(self).round_state is Input,
        ensures
            final(self).wf(),
            final(self).round_state is Input || final(self).round_state is ActivateAbility,
            final(self).round_state is ActivateAbility ==> final(self).activated_ability == Some(
                (owner, index),
            ),
            final(self).current_combat == old(self).current_combat,
    {
        if owner >= self.world.num_unit_slots() {
            return ;
        }
        let usable = match &self.world.units[owner] {
            Some(u) => {
                if index < u.active_abilities.len() {
                    u.active_abilities[index].can_be_used(&u.action_points)
                } else {
                    false
                }
            },
            _ => false,
        };
        if usable {
            self.activated_ability = Some((owner, index));
            self.selected.set_selected_unit(Some(owner));
            self.round_state = RoundState::ActivateAbility;
        }
    }

    /// The ability phase: escape cancels back to input; a click on a hex of
    /// the ability's target set spends a charge and raises the ability's
    /// combat event.
    fn tick_activate_ability(&mut self, event: GameEvent)
        requires
            old(self).wf(),
            old(self).round_state is ActivateAbility,
        ensures
            final(self).wf(),
            round_step_allowed(old(self).round_state, final(self).round_state),
            final(self).round_state is PreCombat ==> final(self).current_combat is Some,
    {
        let (owner, index) = match self.activated_ability {
            Some(p) => p,
            _ => {
                self.round_state = RoundState::Input;
                return ;
            },
        };
        match event {
            GameEvent::Cancel => {
                self.activated_ability = None;
                self.selected.set_selected_unit(None);
                self.round_state = RoundState::Input;
            },
            GameEvent::LeftClick(hex) => {
                if owner >= self.world.num_unit_slots() {
                    self.activated_ability = None;
                    self.round_state = RoundState::Input;
                    return ;
                }
                let ability = match &self.world.units[owner] {
                    Some(u) => {
                        if index < u.active_abilities.len() {
                            u.active_abilities[index]
                        } else {
                            self.activated_ability = None;
                            self.round_state = RoundState::Input;
                            return ;
                        }
                    },
                    _ => {
                        self.activated_ability = None;
                        self.round_state = RoundState::Input;
                        return ;
                    },
                };
                if ability.usages_left == 0 {
                    self.activated_ability = None;
                    self.round_state = RoundState::Input;
                    return ;
                }
                crate::reachable::update_reachable_hexes_cache(
                    &self.world,
                    &mut self.selected,
                    Some((owner, ability)),
                );
                let mut spent = ability;
                let raised = crate::input::handle_activated_active_ability(
                    &self.world,
                    &self.selected,
                    owner,
                    &mut spent,
                    hex,
                );
                match raised {
                    Some(e) => {
                        self.write_back_ability(owner, index, spent);
                        self.pending_combat.push(e);
                        self.activated_ability = None;
                        self.selected.needs_reachable_hexes_recomputation();
                        self.start_ability_combat();
                    },
                    _ => {},
                }
            },
            _ => {},
        }
    }

    /// Stores a spent ability back into its owner's slot; a vanished owner
    /// or slot leaves the world as it is.
    fn write_back_ability(
        &mut self,
        owner: crate::units::UnitId,
        index: usize,
        ability: crate::abilities::ActiveAbility,
    )
        requires
            old(self).wf(),
        ensures
            final(self).wf(),
            final(self).round_state == old(self).round_state,
            final(self).current_combat == old(self).current_combat,
    {
        if owner >= self.world.num_unit_slots() {
            return ;
        }
        let ghost w0 = self.world;
        let slot = crate::world::vec_index_mut(&mut self.world.units, owner);
        match slot {
            Some(unit) => {
                if index < unit.active_abilities.len() {
                    let ab = crate::world::vec_index_mut(&mut unit.active_abilities, index);
                    *ab = ability;
                }
            },
            _ => {},
        }
        proof {
            assert(forall|j: crate::units::UnitId|
                j < self.world.units@.len() && j != owner ==> self.world.units@[j as int]
                    == w0.units@[j as int]);
            assert forall|i3: int|
                0 <= i3 < self.world.units@.len() && self.world.units@[i3] is Some implies (
            #[trigger] self.world.units@[i3])->Some_0.wf() by {
                assert(w0.units@[i3] is Some);
                assert(w0.units@[i3]->Some_0.wf());
                if i3 == owner {
                    assert(self.world.units@[i3]->Some_0.status == w0.units@[i3]->Some_0.status);
                    assert(self.world.units@[i3]->Some_0.action_points == w0.units@[
                        i3
                    ]->Some_0.action_points);
                    assert(self.world.units@[i3]->Some_0.health_points == w0.units@[
                        i3
                    ]->Some_0.health_points);
                    assert(self.world.units@[i3]->Some_0.position == w0.units@[
                        i3
                    ]->Some_0.position);
                }
            }
            assert forall|i3: int, e: crate::units::UnitId|
                0 <= i3 < self.world.units@.len() && self.world.units@[i3] is Some
                    && #[trigger] self.world.units@[i3]->Some_0.status.engaged().contains(
                e,
            ) implies e < self.world.units@.len() && e != i3 by {
                assert(w0.units@[i3] is Some);
                assert(self.world.units@[i3]->Some_0.status == w0.units@[i3]->Some_0.status);
                assert(w0.units@[i3]->Some_0.status.engaged().contains(e));
            }
            assert(self.world.wf());
        }
    }

    /// Starts the combat an ability raised, leaving the targeting phase.
    fn start_ability_combat(&mut self)
        requires
            old(self).wf(),
            old(self).round_state is ActivateAbility,
        ensures
            final(self).wf(),
            final(self).round_state is Input || final(self).round_state is PreCombat,
            final(self).round_state is PreCombat ==> final(self).current_combat is Some,
    {
        if self.pending_combat.len() == 0 {
            self.round_state = RoundState::Input;
            return ;
        }
        let event = self.pending_combat.remove(0);
        match crate::combat::handle_combat_event(&self.world, &event) {
            Some(c) => {
                self.current_combat = Some(c);
                self.round_state = RoundState::PreCombat;
            },
            _ => {
                self.round_state = RoundState::Input;
            },
        }
    }
}

} // verus!
