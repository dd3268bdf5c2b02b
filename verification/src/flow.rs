//! The game-setup flow: nation picking, unit deployment, the quickstart
//! shortcut, and generation of the default hex map.

use vstd::prelude::*;

use crate::assets::{NationAssetsResource, NationKey, PickedNation, UnitKey, UnitStats};
use crate::hex::{hex_dist, hex_distance, in_coord_range, HexCoord};
use crate::round::{ActiveTeam, InGameState};
use crate::terrain::{MovementCost, Terrain};
use crate::units::{Team, Unit, UnitId, UnitMarker, UnitStatus};
use crate::world::{Tile, World};

verus! {

/// The nation each player picked during setup.
pub struct PickedNationsResource {
    pub nations_by_player: Vec<(Team, PickedNation)>,
}

/// The pick of the player whose turn in the setup flow it is.
pub struct PlayerPickedNationResource {
    pub player: Team,
    pub nation: NationKey,
}

impl PickedNationsResource {
    pub fn new() -> (res: PickedNationsResource)
        ensures
            res.nations_by_player@.len() == 0,
    {
        PickedNationsResource { nations_by_player: Vec::new() }
    }

    /// Whether `player` has already picked.
    pub fn contains_player(&self, player: Team) -> (res: bool)
        ensures
            res == exists|k: int|
                0 <= k < self.nations_by_player@.len() && (#[trigger] self.nations_by_player@[
                    k
                ]).0 == player,
    {
        let mut i: usize = 0;
        while i < self.nations_by_player.len()
            invariant
                i <= self.nations_by_player@.len(),
                forall|k: int| 0 <= k < i ==> (#[trigger] self.nations_by_player@[k]).0 != player,
            decreases self.nations_by_player@.len() - i,
        {
            if self.nations_by_player[i].0 == player {
                return true;
            }
            i = i + 1;
        }
        false
    }

    /// Records a pick; a player picking again adds a later entry, and the
    /// last entry wins on lookup.
    pub fn insert(&mut self, player: Team, nation: PickedNation)
        ensures
            final(self).nations_by_player@ == old(self).nations_by_player@.push(
                (player, nation),
            ),
    {
        self.nations_by_player.push((player, nation));
    }

    /// The nation `player` picked most recently, if any.
    pub fn get(&self, player: Team) -> (res: Option<&PickedNation>)
        ensures
            res is Some <==> exists|k: int|
                0 <= k < self.nations_by_player@.len() && (#[trigger] self.nations_by_player@[
                    k
                ]).0 == player,
    {
        let mut found: Option<&PickedNation> = None;
        let mut i: usize = 0;
        while i < self.nations_by_player.len()
            invariant
                i <= self.nations_by_player@.len(),
                found is Some <==> exists|k: int|
                    0 <= k < i && (#[trigger] self.nations_by_player@[k]).0 == player,
            decreases self.nations_by_player@.len() - i,
        {
            if self.nations_by_player[i].0 == player {
                found = Some(&self.nations_by_player[i].1);
            }
            i = i + 1;
        }
        found
    }

    pub fn len(&self) -> (res: usize)
        ensures
            res == self.nations_by_player@.len(),
    {
        self.nations_by_player.len()
    }
}

/// A nation pick: remembers who picked what and hands the flow to the
/// commander step.
pub fn handle_pick_nation_event(player: Team, nation: NationKey) -> (res: (
    PlayerPickedNationResource,
    InGameState,
))
    ensures
        res.0.player == player,
        res.0.nation.0@ == nation.0@,
        res.1 is PickCommander,
{
    (PlayerPickedNationResource { player, nation }, InGameState::PickCommander)
}

/// The commander step is skipped: the pick is filed, the other player takes
/// over, and once both sides have picked the flow moves on to events;
/// otherwise it returns to nation picking.
pub fn skip_pick_commander(
    picked: &mut PickedNationsResource,
    player_picked: PlayerPickedNationResource,
    active_team: &mut ActiveTeam,
) -> (res: InGameState)
    ensures
        final(picked).nations_by_player@ == old(picked).nations_by_player@.push(
            (player_picked.player, PickedNation { nation: player_picked.nation }),
        ),
        old(active_team).0 is Red ==> final(active_team).0 is Blue,
        old(active_team).0 is Blue ==> final(active_team).0 is Red,
        res is Events <==> final(picked).nations_by_player@.len() >= 2,
        !(res is Events) ==> res is PickNation,
{
    picked.insert(player_picked.player, PickedNation { nation: player_picked.nation });
    let next_team = match active_team.0 {
        Team::Red => Team::Blue,
        Team::Blue => Team::Red,
    };
    active_team.0 = next_team;
    if picked.len() >= 2 {
        InGameState::Events
    } else {
        InGameState::PickNation
    }
}

/// Deployment budget: each player may place this many units.
pub struct DeployPoints(pub usize);

impl Default for DeployPoints {
    /// Five units may be deployed per side.
    fn default() -> (res: DeployPoints)
        ensures
            res.0 == 5,
    {
        DeployPoints(5)
    }
}

/// A request to place one unit of the picked nation on a hex.
pub struct DeployUnitEvent {
    pub player: Team,
    pub unit: UnitKey,
    pub hex: HexCoord,
}

/// Decides whether a deployment click places a unit: only with deploy
/// points left, on a hovered hex that is free and passable. The returned
/// event carries the selected unit kind; `None` leaves everything as it
/// was.
pub fn deploy_units_input_system(
    w: &World,
    active_team: &ActiveTeam,
    hovered: Option<HexCoord>,
    selected_unit_to_deploy: &Option<UnitKey>,
    deploy_points: &DeployPoints,
) -> (res: Option<DeployUnitEvent>)
    requires
        w.wf(),
    ensures
        match res {
            Some(e) => {
                &&& deploy_points.0 > 0
                &&& selected_unit_to_deploy is Some
                &&& hovered == Some(e.hex)
                &&& e.player == active_team.0
                &&& e.unit.nation@ == selected_unit_to_deploy->Some_0.nation@
                &&& e.unit.name@ == selected_unit_to_deploy->Some_0.name@
                &&& !crate::reachable::occupied(*w, e.hex)
                &&& exists|t: int|
                    0 <= t < w.tiles@.len() && (#[trigger] w.tiles@[t]).coord == e.hex
                        && w.tiles@[t].terrain.movement_cost is Passable
            },
            None => !(deploy_points.0 > 0 && selected_unit_to_deploy is Some && hovered is Some
                && !crate::reachable::occupied(*w, hovered->Some_0) && exists|t: int|
                0 <= t < w.tiles@.len() && (#[trigger] w.tiles@[t]).coord == hovered->Some_0
                    && w.tiles@[t].terrain.movement_cost is Passable),
        },
{
    let unit = match selected_unit_to_deploy {
        Some(u) => u,
        _ => {
            return None;
        },
    };
    if deploy_points.0 == 0 {
        return None;
    }
    let hex = match hovered {
        Some(h) => h,
        _ => {
            return None;
        },
    };
    match w.unit_at(hex) {
        Some(_) => {
            return None;
        },
        _ => {},
    }
    let passable = match w.tile_at(hex) {
        Some(t) => match &t.terrain.movement_cost {
            MovementCost::Passable(_) => true,
            _ => false,
        },
        _ => false,
    };
    if !passable {
        return None;
    }
    proof {
        let t = choose|t: int|
            0 <= t < w.tiles@.len() && (#[trigger] w.tiles@[t]).coord == hex;
    }
    Some(
        DeployUnitEvent {
            player: active_team.0,
            unit: UnitKey {
                nation: crate::strutil::clone_string(&unit.nation),
                name: crate::strutil::clone_string(&unit.name),
            },
            hex,
        },
    )
}

/// The catalogue lists a stats record under the stats path of
/// `(nation, name)`.
pub open spec fn stats_listed(
    assets: NationAssetsResource,
    nation: Seq<char>,
    name: Seq<char>,
) -> bool {
    exists|j: int|
        0 <= j < assets.unit_stats@.len() && (#[trigger] assets.unit_stats@[j]).0@ == "nations/"@
            + nation + "/units/"@ + name + "/unit.stats.ron"@
}

/// `u` carries exactly the resources and combat configuration of a stats
/// record the catalogue lists under `(nation, name)`, fresh and unengaged.
pub open spec fn built_from_catalogue(
    assets: NationAssetsResource,
    nation: Seq<char>,
    name: Seq<char>,
    u: Unit,
) -> bool {
    exists|j: int|
        0 <= j < assets.unit_stats@.len() && {
            let entry = #[trigger] assets.unit_stats@[j];
            &&& entry.0@ == "nations/"@ + nation + "/units/"@ + name + "/unit.stats.ron"@
            &&& u.marker.0@ == entry.1.name@
            &&& u.action_points.max == entry.1.max_action_points
            &&& u.action_points.left == entry.1.max_action_points
            &&& u.action_points.max_attacks == entry.1.max_attacks_per_round
            &&& u.action_points.attacks_this_round == 0
            &&& u.action_points.attack_action_point_cost == entry.1.attack_action_point_cost
            &&& u.health_points.max == entry.1.max_health_points
            &&& u.health_points.left == entry.1.max_health_points
            &&& u.combat_config.damage == entry.1.damage
            &&& u.combat_config.defense == entry.1.defense
            &&& u.combat_config.range == entry.1.range
            &&& u.combat_config.passive_combat_abilities@ == entry.1.passive_combat_abilities@
            &&& u.status.engaged() == Set::<UnitId>::empty()
        }
}

/// Builds a fresh unit from its stats record, unengaged and with full
/// resources.
pub fn unit_from_stats(team: Team, stats: &UnitStats, hex: HexCoord) -> (res: Unit)
    requires
        in_coord_range(hex),
    ensures
        res.wf(),
        res.status.engaged() == Set::<UnitId>::empty(),
        res.marker.0@ == stats.name@,
        res.team == team,
        res.position == hex,
        res.action_points.left == stats.max_action_points,
        res.action_points.max == stats.max_action_points,
        res.action_points.max_attacks == stats.max_attacks_per_round,
        res.action_points.attacks_this_round == 0,
        res.action_points.attack_action_point_cost == stats.attack_action_point_cost,
        res.health_points.left == stats.max_health_points,
        res.health_points.max == stats.max_health_points,
        res.combat_config.damage == stats.damage,
        res.combat_config.defense == stats.defense,
        res.combat_config.range == stats.range,
        res.combat_config.passive_combat_abilities@ == stats.passive_combat_abilities@,
        res.active_abilities@.len() == stats.active_abilities@.len(),
        forall|k: int|
            0 <= k < res.active_abilities@.len() ==> (#[trigger] res.active_abilities@[k]).kind
                == stats.active_abilities@[k] && res.active_abilities@[k].usages_left == 1,
{
    let mut active: Vec<crate::abilities::ActiveAbility> = Vec::new();
    let mut i: usize = 0;
    while i < stats.active_abilities.len()
        invariant
            i <= stats.active_abilities@.len(),
            active@.len() == i,
            forall|k: int|
                0 <= k < i ==> (#[trigger] active@[k]).kind == stats.active_abilities@[k]
                    && active@[k].usages_left == 1,
        decreases stats.active_abilities@.len() - i,
    {
        active.push(crate::abilities::ActiveAbility::of_kind(stats.active_abilities[i]));
        i = i + 1;
    }
    Unit {
        marker: UnitMarker(crate::strutil::clone_string(&stats.name)),
        team,
        position: hex,
        action_points: crate::units::ActionPoints::new(
            stats.max_action_points,
            stats.max_attacks_per_round,
            stats.attack_action_point_cost,
        ),
        health_points: crate::units::HealthPoints::new(stats.max_health_points),
        combat_config: crate::units::CombatConfig {
            damage: stats.damage,
            defense: stats.defense,
            range: stats.range,
            passive_combat_abilities: stats.passive_combat_abilities.clone(),
        },
        status: UnitStatus::new(),
        active_abilities: active,
    }
}

/// Places the unit a deployment event asks for, looking its stats up in the
/// catalogue; a key without stats deploys nothing.
pub fn handle_deploy_unit_event(
    w: &mut World,
    assets: &NationAssetsResource,
    event: &DeployUnitEvent,
) -> (res: Option<UnitId>)
    requires
        old(w).wf(),
        in_coord_range(event.hex),
    ensures
        final(w).wf(),
        final(w).tiles@ == old(w).tiles@,
        res is Some <==> exists|j: int|
            0 <= j < assets.unit_stats@.len() && (#[trigger] assets.unit_stats@[j]).0@
                == "nations/"@ + event.unit.nation@ + "/units/"@ + event.unit.name@
                + "/unit.stats.ron"@,
        match res {
            Some(id) => {
                &&& final(w).units@.len() == old(w).units@.len() + 1
                &&& final(w).alive(id)
                &&& final(w).unit(id).team == event.player
                &&& final(w).unit(id).position == event.hex
                &&& built_from_catalogue(
                    *assets,
                    event.unit.nation@,
                    event.unit.name@,
                    final(w).unit(id),
                )
                &&& forall|j: UnitId|
                    j < old(w).units@.len() ==> final(w).units@[j as int] == old(w).units@[j as int]
            },
            None => final(w).units@ == old(w).units@,
        },
{
    let stats = match assets.get_unit_stats(&event.unit) {
        Some(s) => s,
        _ => {
            return None;
        },
    };
    let unit = unit_from_stats(event.player, stats, event.hex);
    proof {
        let j = choose|j: int|
            0 <= j < assets.unit_stats@.len() && (#[trigger] assets.unit_stats@[j]).1 == *stats
                && assets.unit_stats@[j].0@ == "nations/"@ + event.unit.nation@ + "/units/"@
                + event.unit.name@ + "/unit.stats.ron"@;
        assert(built_from_catalogue(*assets, event.unit.nation@, event.unit.name@, unit));
    }
    let id = w.spawn(unit);
    Some(id)
}

/// A finished deployment hands the turn to blue; once blue finishes too,
/// the game begins.
pub fn handle_deployment_done_event(
    active_team: &mut ActiveTeam,
    deploy_points: &mut DeployPoints,
    selected_unit_to_deploy: &mut Option<UnitKey>,
) -> (res: Option<InGameState>)
    ensures
        old(active_team).0 is Red ==> res is None && final(active_team).0 is Blue && final(
            deploy_points).0 == 5 && *final(selected_unit_to_deploy) is None,
        old(active_team).0 is Blue ==> res == Some(InGameState::Playing) && final(active_team).0
            == old(active_team).0,
{
    match active_team.0 {
        Team::Red => {
            *selected_unit_to_deploy = None;
            deploy_points.0 = 5;
            active_team.0 = Team::Blue;
            None
        },
        Team::Blue => Some(InGameState::Playing),
    }
}

/// A terrain kind of the default map, with the movement cost that kind
/// carries.
pub open spec fn standard_terrain_ok(t: Terrain) -> bool {
    ||| (t.name@ == "Plains"@ && (t.movement_cost matches MovementCost::Passable(c) && c == 1))
    ||| (t.name@ == "Forest"@ && (t.movement_cost matches MovementCost::Passable(c) && c == 2))
    ||| (t.name@ == "Water"@ && t.movement_cost is Impassable)
}

/// Generates the default hexagonal map: every hex within `radius` of the
/// origin carries exactly one tile, terrain cycling between plains, water
/// and forest; coordinates are unique and well formed, and the map fits a
/// well-formed world.
pub fn setup_hex_grid(radius: i32) -> (res: Vec<Tile>)
    requires
        0 <= radius <= 100,
    ensures
        forall|t: int| 0 <= t < res@.len() ==> (#[trigger] res@[t]).wf(),
        forall|t1: int, t2: int|
            0 <= t1 < res@.len() && 0 <= t2 < res@.len() && (#[trigger] res@[t1]).coord == (
            #[trigger] res@[t2]).coord ==> t1 == t2,
        forall|t: int|
            0 <= t < res@.len() ==> hex_dist(
                HexCoord { q: 0, r: 0 },
                (#[trigger] res@[t]).coord,
            ) <= radius,
        forall|t: int| 0 <= t < res@.len() ==> standard_terrain_ok((#[trigger] res@[t]).terrain),
        forall|a: int, b: int|
            -radius <= a <= radius && -radius <= b <= radius && hex_dist(
                HexCoord { q: 0, r: 0 },
                (HexCoord { q: a as i32, r: b as i32 }),
            ) <= radius ==> tile_exists_at(res@, a, b),
        res@.len() <= crate::world::MAX_MAP_TILES,
{
    let origin = HexCoord { q: 0, r: 0 };
    let mut tiles: Vec<Tile> = Vec::new();
    let mut count: usize = 0;
    let mut q: i32 = -radius;
    while q <= radius
        invariant
            0 <= radius <= 100,
            origin == (HexCoord { q: 0int as i32, r: 0int as i32 }),
            -radius <= q <= radius + 1,
            forall|t: int| 0 <= t < tiles@.len() ==> (#[trigger] tiles@[t]).wf(),
            forall|t: int|
                0 <= t < tiles@.len() ==> hex_dist(origin, (#[trigger] tiles@[t]).coord) <= radius,
            forall|t: int|
                0 <= t < tiles@.len() ==> standard_terrain_ok((#[trigger] tiles@[t]).terrain),
            forall|t: int| 0 <= t < tiles@.len() ==> (#[trigger] tiles@[t]).coord.q < q,
            forall|t1: int, t2: int|
                0 <= t1 < tiles@.len() && 0 <= t2 < tiles@.len() && (#[trigger] tiles@[t1]).coord
                    == (#[trigger] tiles@[t2]).coord ==> t1 == t2,
            forall|a: int, b: int|
                -radius <= a < q && -radius <= b <= radius && hex_dist(
                    origin,
                    (HexCoord { q: a as i32, r: b as i32 }),
                ) <= radius ==> tile_exists_at(tiles@, a, b),
            tiles@.len() <= (q + radius) * (2 * radius + 1),
        decreases radius + 1 - q,
    {
        let mut r: i32 = -radius;
        while r <= radius
            invariant
                0 <= radius <= 100,
                origin == (HexCoord { q: 0int as i32, r: 0int as i32 }),
                -radius <= q <= radius,
                -radius <= r <= radius + 1,
                forall|t: int| 0 <= t < tiles@.len() ==> (#[trigger] tiles@[t]).wf(),
                forall|t: int|
                    0 <= t < tiles@.len() ==> hex_dist(origin, (#[trigger] tiles@[t]).coord)
                        <= radius,
                forall|t: int|
                    0 <= t < tiles@.len() ==> standard_terrain_ok((#[trigger] tiles@[t]).terrain),
                forall|t: int|
                    0 <= t < tiles@.len() ==> (#[trigger] tiles@[t]).coord.q < q || (tiles@[
                        t
                    ].coord.q == q && tiles@[t].coord.r < r),
                forall|t1: int, t2: int|
                    0 <= t1 < tiles@.len() && 0 <= t2 < tiles@.len() && (#[trigger] tiles@[
                        t1
                    ]).coord == (#[trigger] tiles@[t2]).coord ==> t1 == t2,
                forall|a: int, b: int|
                    -radius <= a < q && -radius <= b <= radius && hex_dist(
                        origin,
                        (HexCoord { q: a as i32, r: b as i32 }),
                    ) <= radius ==> tile_exists_at(tiles@, a, b),
                forall|b: int|
                    -radius <= b < r && hex_dist(
                        origin,
                        (HexCoord { q: q as int as i32, r: b as i32 }),
                    ) <= radius ==> tile_exists_at(tiles@, q as int, b),
                tiles@.len() <= (q + radius) * (2 * radius + 1) + (r + radius),
            decreases radius + 1 - r,
        {
            let c = HexCoord { q, r };
            let ghost entry = tiles@;
            if hex_distance(origin, c) <= radius as u32 {
                let terrain = match count % 4 {
                    3 => Terrain {
                        name: String::from_str("Forest"),
                        movement_cost: MovementCost::Passable(2),
                    },
                    2 => Terrain {
                        name: String::from_str("Water"),
                        movement_cost: MovementCost::Impassable,
                    },
                    _ => Terrain {
                        name: String::from_str("Plains"),
                        movement_cost: MovementCost::Passable(1),
                    },
                };
                let ghost prev = tiles@;
                tiles.push(Tile { coord: c, terrain });
                count = if count == usize::MAX {
                    0
                } else {
                    count + 1
                };
                proof {
                    assert(forall|t: int| 0 <= t < prev.len() ==> tiles@[t] == prev[t]);
                    assert(tiles@[tiles@.len() - 1].coord == c);
                    assert(c == (HexCoord { q: q as int as i32, r: r as int as i32 }));
                    assert(tile_exists_at(tiles@, q as int, r as int));
                    assert forall|a: int, b: int|
                        tile_exists_at(prev, a, b) implies tile_exists_at(tiles@, a, b) by {
                        let t = choose|t: int|
                            0 <= t < prev.len() && (#[trigger] prev[t]).coord == (
                            HexCoord { q: a as i32, r: b as i32 });
                        assert(tiles@[t].coord == prev[t].coord);
                    }
                    assert forall|a: int, b: int|
                        -radius <= a < q && -radius <= b <= radius && hex_dist(
                            origin,
                            (HexCoord { q: a as i32, r: b as i32 }),
                        ) <= radius implies tile_exists_at(tiles@, a, b) by {
                        assert(tile_exists_at(entry, a, b));
                        let t = choose|t: int|
                            0 <= t < entry.len() && (#[trigger] entry[t]).coord == (
                            HexCoord { q: a as i32, r: b as i32 });
                        assert(tiles@[t].coord == entry[t].coord);
                    }
                    assert forall|b: int|
                        -radius <= b < r + 1 && hex_dist(
                            origin,
                            (HexCoord { q: q as int as i32, r: b as i32 }),
                        ) <= radius implies tile_exists_at(tiles@, q as int, b) by {
                        if b < r {
                            assert(tile_exists_at(entry, q as int, b));
                            let t = choose|t: int|
                                0 <= t < entry.len() && (#[trigger] entry[t]).coord == (
                                HexCoord { q: (q as int) as i32, r: b as i32 });
                            assert(tiles@[t].coord == entry[t].coord);
                        } else {
                            assert(b == r as int);
                        }
                    }
                }
            } else {
                proof {
                    assert(c == (HexCoord { q: q as int as i32, r: r as int as i32 }));
                    assert(hex_dist(origin, c) > radius);
                    assert forall|a: int, b: int|
                        -radius <= a < q && -radius <= b <= radius && hex_dist(
                            origin,
                            (HexCoord { q: a as i32, r: b as i32 }),
                        ) <= radius implies tile_exists_at(tiles@, a, b) by {
                        assert(tile_exists_at(entry, a, b));
                        let t = choose|t: int|
                            0 <= t < entry.len() && (#[trigger] entry[t]).coord == (
                            HexCoord { q: a as i32, r: b as i32 });
                        assert(tiles@[t].coord == entry[t].coord);
                    }
                    assert forall|b: int|
                        -radius <= b < r + 1 && hex_dist(
                            origin,
                            (HexCoord { q: q as int as i32, r: b as i32 }),
                        ) <= radius implies tile_exists_at(tiles@, q as int, b) by {
                        if b < r {
                            assert(tile_exists_at(entry, q as int, b));
                            let t = choose|t: int|
                                0 <= t < entry.len() && (#[trigger] entry[t]).coord == (
                                HexCoord { q: (q as int) as i32, r: b as i32 });
                            assert(tiles@[t].coord == entry[t].coord);
                        } else {
                            assert(b == r as int);
                        }
                    }
                }
            }
            r = r + 1;
        }
        proof {
            assert((q + radius) * (2 * radius + 1) + (2 * radius + 1) == (q + 1 + radius) * (2
                * radius + 1)) by (nonlinear_arith);
        }
        q = q + 1;
    }
    proof {
        assert(tiles@.len() <= (2 * radius + 1) * (2 * radius + 1)) by (nonlinear_arith)
            requires
                tiles@.len() <= (q + radius) * (2 * radius + 1),
                q <= radius + 1,
                radius >= 0,
        ;
        assert((2 * radius + 1) * (2 * radius + 1) <= 201 * 201) by (nonlinear_arith)
            requires
                0 <= radius <= 100,
        ;
    }
    tiles
}

/// Some tile of `tiles` stands on the coordinate `(a, b)`.
pub open spec fn tile_exists_at(tiles: Seq<Tile>, a: int, b: int) -> bool {
    exists|t: int|
        0 <= t < tiles.len() && (#[trigger] tiles[t]).coord == (
        HexCoord { q: a as i32, r: b as i32 })
}

/// The catalogue can seed a quickstart battle:/// The catalogue can seed a quickstart battle: two distinct nations, each
/// with at least one unit kind, and a stats record for every unit kind of
/// both.
pub open spec fn quickstart_catalogue_ready(assets: NationAssetsResource) -> bool {
    let defs = assets.nation_assets_definition@;
    &&& defs.len() >= 2
    &&& defs[0].path@ != defs[1].path@
    &&& defs[0].units@.len() > 0
    &&& defs[1].units@.len() > 0
    &&& (forall|i: int|
        0 <= i < defs[0].units@.len() ==> stats_listed(
            assets,
            defs[0].path@,
            (#[trigger] defs[0].units@[i]).path@,
        ))
    &&& (forall|i: int|
        0 <= i < defs[1].units@.len() ==> stats_listed(
            assets,
            defs[1].path@,
            (#[trigger] defs[1].units@[i]).path@,
        ))
}

/// Seeds a quickstart battle: red takes the second catalogued nation, blue
/// the first, and each side deploys five units in a column — red at
/// `q == 4`, blue at `q == -4` — cycling through the nation's unit kinds.
/// Nations or stats missing from the catalogue are skipped.
pub fn quickstart(
    w: &mut World,
    assets: &NationAssetsResource,
    picked: &mut PickedNationsResource,
) -> (res: (InGameState, crate::round::RoundState))
    requires
        old(w).wf(),
    ensures
        final(w).wf(),
        final(w).tiles@ == old(w).tiles@,
        res.0 is Playing,
        res.1 is Input,
        old(w).units@.len() <= final(w).units@.len() <= old(w).units@.len() + 10,
        forall|j: UnitId|
            j < old(w).units@.len() ==> final(w).units@[j as int] == old(w).units@[j as int],
        forall|j: UnitId|
            old(w).units@.len() <= j < final(w).units@.len() ==> final(w).alive(j),
        quickstart_catalogue_ready(*assets) ==> {
            let defs = assets.nation_assets_definition@;
            let base = old(w).units@.len();
            &&& final(w).units@.len() == base + 10
            &&& forall|i: int|
                0 <= i < 5 ==> {
                    let red = #[trigger] final(w).unit((base + 2 * i) as UnitId);
                    let blue = final(w).unit((base + 2 * i + 1) as UnitId);
                    &&& red.team is Red
                    &&& red.position == (HexCoord { q: 4int as i32, r: (i - 4) as i32 })
                    &&& built_from_catalogue(
                        *assets,
                        defs[1].path@,
                        defs[1].units@[i % defs[1].units@.len() as int].path@,
                        red,
                    )
                    &&& blue.team is Blue
                    &&& blue.position == (HexCoord { q: -4int as i32, r: i as i32 })
                    &&& built_from_catalogue(
                        *assets,
                        defs[0].path@,
                        defs[0].units@[i % defs[0].units@.len() as int].path@,
                        blue,
                    )
                }
        },
{
    let ghost ready = quickstart_catalogue_ready(*assets);
    let ghost defs = assets.nation_assets_definition@;
    let ghost base = old(w).units@.len();
    let nations = assets.get_nations();
    if nations.len() >= 2 {
        picked.insert(
            Team::Red,
            PickedNation { nation: NationKey(crate::strutil::clone_string(&nations[1].key.0)) },
        );
        picked.insert(
            Team::Blue,
            PickedNation { nation: NationKey(crate::strutil::clone_string(&nations[0].key.0)) },
        );
        let red_units = assets.get_units(&nations[1].key);
        let blue_units = assets.get_units(&nations[0].key);
        proof {
            if ready {
                assert(defs[1].path@ == nations@[1].key.0@);
                assert(0 <= 1 < defs.len() && (#[trigger] defs[1]).path@ == nations@[1].key.0@);
                let j = choose|j: int|
                    0 <= j < defs.len() && (#[trigger] defs[j]).path@ == nations@[1].key.0@ && (
                    forall|j2: int| 0 <= j2 < j ==> (#[trigger] defs[j2]).path@ != nations@[1].key.0@)
                        && red_units@.len() == defs[j].units@.len() && (forall|k: int|
                        0 <= k < red_units@.len() ==> (#[trigger] red_units@[k]).nation@
                            == nations@[1].key.0@ && red_units@[k].name@ == defs[j].units@[k].path@);
                assert(j != 0);
                assert(j == 1) by {
                    if j >= 2 {
                        assert(defs[1].path@ != nations@[1].key.0@);
                    }
                }
                assert(0 <= 0 < defs.len() && (#[trigger] defs[0]).path@ == nations@[0].key.0@);
                let j0 = choose|j0: int|
                    0 <= j0 < defs.len() && (#[trigger] defs[j0]).path@ == nations@[0].key.0@ && (
                    forall|j2: int|
                        0 <= j2 < j0 ==> (#[trigger] defs[j2]).path@ != nations@[0].key.0@)
                        && blue_units@.len() == defs[j0].units@.len() && (forall|k: int|
                        0 <= k < blue_units@.len() ==> (#[trigger] blue_units@[k]).nation@
                            == nations@[0].key.0@ && blue_units@[k].name@ == defs[
                    j0].units@[k].path@);
                assert(j0 == 0);
            }
        }
        let mut i: usize = 0;
        while i < 5
            invariant
                old(w).wf(),
                w.wf(),
                i <= 5,
                w.tiles@ == old(w).tiles@,
                ready == quickstart_catalogue_ready(*assets),
                defs == assets.nation_assets_definition@,
                base == old(w).units@.len(),
                old(w).units@.len() <= w.units@.len() <= old(w).units@.len() + 2 * i,
                forall|j: UnitId|
                    j < old(w).units@.len() ==> w.units@[j as int] == old(w).units@[j as int],
                forall|j: UnitId| old(w).units@.len() <= j < w.units@.len() ==> w.alive(j),
                ready ==> red_units@.len() == defs[1].units@.len() && (forall|k: int|
                    0 <= k < red_units@.len() ==> (#[trigger] red_units@[k]).nation@
                        == defs[1].path@ && red_units@[k].name@ == defs[1].units@[k].path@),
                ready ==> blue_units@.len() == defs[0].units@.len() && (forall|k: int|
                    0 <= k < blue_units@.len() ==> (#[trigger] blue_units@[k]).nation@
                        == defs[0].path@ && blue_units@[k].name@ == defs[0].units@[k].path@),
                ready ==> w.units@.len() == base + 2 * i,
                ready ==> forall|k: int|
                    0 <= k < i ==> {
                        let red = #[trigger] w.unit((base + 2 * k) as UnitId);
                        let blue = w.unit((base + 2 * k + 1) as UnitId);
                        &&& red.team is Red
                        &&& red.position == (HexCoord { q: 4int as i32, r: (k - 4) as i32 })
                        &&& built_from_catalogue(
                            *assets,
                            defs[1].path@,
                            defs[1].units@[k % defs[1].units@.len() as int].path@,
                            red,
                        )
                        &&& blue.team is Blue
                        &&& blue.position == (HexCoord { q: -4int as i32, r: k as i32 })
                        &&& built_from_catalogue(
                            *assets,
                            defs[0].path@,
                            defs[0].units@[k % defs[0].units@.len() as int].path@,
                            blue,
                        )
                    },
            decreases 5 - i,
        {
            let red_hex = HexCoord { q: 4, r: (i as i32) - 4 };
            let blue_hex = HexCoord { q: -4, r: i as i32 };
            let red_unit: Option<Unit> = if red_units.len() > 0 {
                match assets.get_unit_stats(&red_units[i % red_units.len()]) {
                    Some(stats) => {
                        let u = unit_from_stats(Team::Red, stats, red_hex);
                        proof {
                            if ready {
                                let idx = i as int % red_units@.len() as int;
                                let j = choose|j: int|
                                    0 <= j < assets.unit_stats@.len() && (
                                    #[trigger] assets.unit_stats@[j]).1 == *stats
                                        && assets.unit_stats@[j].0@ == "nations/"@ + red_units@[
                                        idx].nation@ + "/units/"@ + red_units@[idx].name@
                                        + "/unit.stats.ron"@;
                                assert(built_from_catalogue(
                                    *assets,
                                    defs[1].path@,
                                    defs[1].units@[i as int % defs[1].units@.len() as int].path@,
                                    u,
                                ));
                            }
                        }
                        Some(u)
                    },
                    _ => None,
                }
            } else {
                None
            };
            let blue_unit: Option<Unit> = if blue_units.len() > 0 {
                match assets.get_unit_stats(&blue_units[i % blue_units.len()]) {
                    Some(stats) => {
                        let u = unit_from_stats(Team::Blue, stats, blue_hex);
                        proof {
                            if ready {
                                let idx = i as int % blue_units@.len() as int;
                                let j = choose|j: int|
                                    0 <= j < assets.unit_stats@.len() && (
                                    #[trigger] assets.unit_stats@[j]).1 == *stats
                                        && assets.unit_stats@[j].0@ == "nations/"@ + blue_units@[
                                        idx].nation@ + "/units/"@ + blue_units@[idx].name@
                                        + "/unit.stats.ron"@;
                                assert(built_from_catalogue(
                                    *assets,
                                    defs[0].path@,
                                    defs[0].units@[i as int % defs[0].units@.len() as int].path@,
                                    u,
                                ));
                            }
                        }
                        Some(u)
                    },
                    _ => None,
                }
            } else {
                None
            };
            proof {
                if ready {
                    assert(red_units@.len() > 0);
                    assert(blue_units@.len() > 0);
                    let rk = red_units@[i as int % red_units@.len() as int];
                    assert(stats_listed(*assets, defs[1].path@, defs[1].units@[
                        i as int % defs[1].units@.len() as int].path@));
                    let bk = blue_units@[i as int % blue_units@.len() as int];
                    assert(stats_listed(*assets, defs[0].path@, defs[0].units@[
                        i as int % defs[0].units@.len() as int].path@));
                    assert(red_unit is Some);
                    assert(blue_unit is Some);
                }
            }
            let ghost w0 = *w;
            match red_unit {
                Some(u) => {
                    w.spawn(u);
                },
                _ => {},
            }
            let ghost w1 = *w;
            proof {
                assert(forall|j: UnitId|
                    j < w0.units@.len() ==> w1.units@[j as int] == w0.units@[j as int]);
                assert(forall|j: UnitId|
                    w0.units@.len() <= j < w1.units@.len() ==> w1.alive(j));
            }
            match blue_unit {
                Some(u) => {
                    w.spawn(u);
                },
                _ => {},
            }
            proof {
                assert(forall|j: UnitId|
                    j < w1.units@.len() ==> w.units@[j as int] == w1.units@[j as int]);
                assert forall|j: UnitId|
                    j < old(w).units@.len() implies w.units@[j as int] == old(w).units@[
                    j as int
                ] by {
                    assert(w1.units@[j as int] == w0.units@[j as int]);
                    assert(w0.units@[j as int] == old(w).units@[j as int]);
                }
                assert forall|j: UnitId|
                    old(w).units@.len() <= j < w.units@.len() implies w.alive(j) by {
                    if j < w1.units@.len() {
                        assert(w.units@[j as int] == w1.units@[j as int]);
                        if j < w0.units@.len() {
                            assert(w1.units@[j as int] == w0.units@[j as int]);
                            assert(w0.alive(j));
                        } else {
                            assert(w1.alive(j));
                        }
                    } else {
                        assert(w.alive(j));
                    }
                }
                if ready {
                    assert(w0.units@.len() == base + 2 * i);
                    assert(w.units@.len() == base + 2 * i + 2);
                    assert forall|k: int|
                        0 <= k < i + 1 implies {
                        let red = #[trigger] w.unit((base + 2 * k) as UnitId);
                        let blue = w.unit((base + 2 * k + 1) as UnitId);
                        &&& red.team is Red
                        &&& red.position == (HexCoord { q: 4int as i32, r: (k - 4) as i32 })
                        &&& built_from_catalogue(
                            *assets,
                            defs[1].path@,
                            defs[1].units@[k % defs[1].units@.len() as int].path@,
                            red,
                        )
                        &&& blue.team is Blue
                        &&& blue.position == (HexCoord { q: -4int as i32, r: k as i32 })
                        &&& built_from_catalogue(
                            *assets,
                            defs[0].path@,
                            defs[0].units@[k % defs[0].units@.len() as int].path@,
                            blue,
                        )
                    } by {
                        if k < i {
                            assert(w.units@[base + 2 * k] == w1.units@[base + 2 * k]);
                            assert(w1.units@[base + 2 * k] == w0.units@[base + 2 * k]);
                            assert(w.units@[base + 2 * k + 1] == w1.units@[base + 2 * k + 1]);
                            assert(w1.units@[base + 2 * k + 1] == w0.units@[base + 2 * k + 1]);
                            assert(w.unit((base + 2 * k) as UnitId) == w0.unit(
                                (base + 2 * k) as UnitId,
                            ));
                            assert(w.unit((base + 2 * k + 1) as UnitId) == w0.unit(
                                (base + 2 * k + 1) as UnitId,
                            ));
                        } else {
                            assert(w.units@[base + 2 * k] == w1.units@[base + 2 * k]);
                            assert(w1.unit((base + 2 * k) as UnitId) == red_unit->Some_0);
                            assert(w.unit((base + 2 * k + 1) as UnitId) == blue_unit->Some_0);
                        }
                    }
                }
            }
            i = i + 1;
        }
    }
    (InGameState::Playing, crate::round::RoundState::Input)
}

} // verus!
