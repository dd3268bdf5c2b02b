//! The round/phase state machine and the game-setup flow around it.

use vstd::prelude::*;

use crate::units::{Team, UnitId};
use crate::world::{vec_index_mut, World};

verus! {

/// The phases of one round, driven by input events and completion signals.
#[derive(Clone, Copy, Debug, PartialEq, Eq, Structural, Hash)]
pub enum RoundState {
    Input,
    MovingUnit,
    PreCombat,
    Combat,
    PostCombat,
    RoundEnd,
    ActivateAbility,
}

/// The top-level application state: loading assets, then playing.
#[derive(Clone, Copy, Debug, PartialEq, Eq, Structural, Hash)]
pub enum GameState {
    Loading,
    InGame,
}

/// The game-setup flow that runs before the first round.
#[derive(Clone, Copy, Debug, PartialEq, Eq, Structural, Hash)]
pub enum InGameState {
    Starting,
    PickNation,
    PickCommander,
    Events,
    DeployUnits,
    Playing,
}

/// Whether the quickstart seeding (skipping the setup flow) is requested.
#[derive(Clone, Copy, Debug, PartialEq, Eq, Structural, Hash)]
pub enum QuickstartState {
    Inactive,
    DoIt,
}

/// Progress of asset loading before the game starts.
#[derive(Clone, Copy, Debug, PartialEq, Eq, Structural, Hash)]
pub enum LoadingState {
    LoadingDynamicAssets,
    LoadingNationAssetsDefinition,
    Done,
}

/// The team whose turn it is.
#[derive(Clone, Copy, Debug, PartialEq, Eq, Structural)]
pub struct ActiveTeam(pub Team);

impl Default for ActiveTeam {
    /// The red team opens the game.
    fn default() -> (res: ActiveTeam)
        ensures
            res.0 is Red,
    {
        ActiveTeam(Team::Red)
    }
}

/// Entering the game starts the setup flow.
pub fn start_game(in_game_state: InGameState) -> (res: InGameState)
    ensures
        in_game_state is Starting ==> res is PickNation,
        !(in_game_state is Starting) ==> res == in_game_state,
{
    if in_game_state == InGameState::Starting {
        InGameState::PickNation
    } else {
        in_game_state
    }
}

/// The events step is not played out: it hands over to unit deployment.
pub fn skip_events(in_game_state: InGameState) -> (res: InGameState)
    ensures
        in_game_state is Events ==> res is DeployUnits,
        !(in_game_state is Events) ==> res == in_game_state,
{
    if in_game_state == InGameState::Events {
        InGameState::DeployUnits
    } else {
        in_game_state
    }
}

/// The worlds differ exactly by a round-end reset: every live unit's
/// action points refilled and its attack counter cleared, everything else
/// untouched.
pub open spec fn round_reset_ok(pre: World, post: World) -> bool {
    &&& post.tiles@ == pre.tiles@
    &&& post.units@.len() == pre.units@.len()
    &&& forall|j: UnitId| post.alive(j) <==> pre.alive(j)
    &&& forall|j: UnitId|
        pre.alive(j) ==> {
            let n = #[trigger] post.unit(j);
            let o = pre.unit(j);
            &&& n.marker == o.marker
            &&& n.team == o.team
            &&& n.position == o.position
            &&& n.health_points == o.health_points
            &&& n.combat_config == o.combat_config
            &&& n.status == o.status
            &&& n.active_abilities == o.active_abilities
            &&& n.action_points.left == o.action_points.max
            &&& n.action_points.attacks_this_round == 0
            &&& n.action_points.max == o.action_points.max
            &&& n.action_points.max_attacks == o.action_points.max_attacks
            &&& n.action_points.attack_action_point_cost == o.action_points.attack_action_point_cost
        }
}

/// Refills every live unit's action points and clears its attack counter,
/// as the end of a round does; everything else is untouched.
pub fn reset_action_points(w: &mut World)
    requires
        old(w).wf(),
    ensures
        final(w).wf(),
        round_reset_ok(*old(w), *final(w)),
{
    let mut i: usize = 0;
    while i < w.units.len()
        invariant
            old(w).wf(),
            i <= w.units@.len(),
            w.units@.len() == old(w).units@.len(),
            w.tiles@ == old(w).tiles@,
            forall|j: UnitId| w.alive(j) <==> old(w).alive(j),
            forall|j: UnitId|
                old(w).alive(j) && j >= i ==> #[trigger] w.unit(j) == old(w).unit(j),
            forall|j: UnitId|
                old(w).alive(j) && j < i ==> {
                    let n = #[trigger] w.unit(j);
                    let o = old(w).unit(j);
                    &&& n.marker == o.marker
                    &&& n.team == o.team
                    &&& n.position == o.position
                    &&& n.health_points == o.health_points
                    &&& n.combat_config == o.combat_config
                    &&& n.status == o.status
                    &&& n.active_abilities == o.active_abilities
                    &&& n.action_points.left == o.action_points.max
                    &&& n.action_points.attacks_this_round == 0
                    &&& n.action_points.max == o.action_points.max
                    &&& n.action_points.max_attacks == o.action_points.max_attacks
                    &&& n.action_points.attack_action_point_cost
                        == o.action_points.attack_action_point_cost
                },
        decreases w.units@.len() - i,
    {
        let ghost wb = *w;
        let slot = vec_index_mut(&mut w.units, i);
        match slot {
            Some(unit) => {
                unit.action_points.reset();
            },
            _ => {},
        }
        proof {
            assert(forall|j: UnitId|
                j < w.units@.len() && j != i ==> w.units@[j as int] == wb.units@[j as int]);
            assert(forall|j: UnitId|
                old(w).alive(j) && j != i ==> #[trigger] w.unit(j) == wb.unit(j));
        }
        i = i + 1;
    }
    proof {
        assert forall|i3: int|
            0 <= i3 < w.units@.len() && w.units@[i3] is Some implies (
        #[trigger] w.units@[i3])->Some_0.wf() by {
            assert(old(w).alive(i3 as UnitId));
            assert(old(w).units@[i3]->Some_0.wf());
            assert(w.unit(i3 as UnitId).action_points.wf());
        }
        assert forall|i3: int, e: UnitId|
            0 <= i3 < w.units@.len() && w.units@[i3] is Some
                && #[trigger] w.units@[i3]->Some_0.status.engaged().contains(e) implies e
            < w.units@.len() && e != i3 by {
            assert(old(w).alive(i3 as UnitId));
            assert(w.unit(i3 as UnitId).status == old(w).unit(i3 as UnitId).status);
            assert(old(w).units@[i3]->Some_0.status.engaged().contains(e));
        }
        assert(w.wf());
    }
}

/// The end of a round: deselects the unit, refills every unit's action
/// points, clears the attack counters, flips the active team exactly once,
/// and returns the round to the input phase.
pub fn round_end_system(
    w: &mut World,
    active_team: &mut ActiveTeam,
    selected_unit: &mut Option<UnitId>,
) -> (next: RoundState)
    requires
        old(w).wf(),
    ensures
        final(w).wf(),
        next is Input,
        *final(selected_unit) is None,
        old(active_team).0 is Red ==> final(active_team).0 is Blue,
        old(active_team).0 is Blue ==> final(active_team).0 is Red,
        round_reset_ok(*old(w), *final(w)),
{
    *selected_unit = None;
    let next_team = match active_team.0 {
        Team::Red => Team::Blue,
        Team::Blue => Team::Red,
    };
    active_team.0 = next_team;
    reset_action_points(w);
    RoundState::Input
}

} // verus!
