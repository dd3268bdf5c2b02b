//! The reachability engine: the selected unit's movement flood fill and
//! attack targets, computed lazily and cached; shortest paths for actual
//! movement.

use vstd::prelude::*;

use crate::hex::{in_coord_range, HexCoord};
use crate::units::UnitId;
use crate::world::World;

verus! {

/// Some live unit stands on `c`.
pub open spec fn occupied(w: World, c: HexCoord) -> bool {
    exists|j: int|
        0 <= j < w.units@.len() && w.units@[j] is Some && (#[trigger] w.units@[j])->Some_0.position
            == c
}

/// The flood-fill cost of hex `c` for a selected unit standing on
/// `sel_pos`: the unit's own tile costs nothing, tiles under other units
/// block, anything else costs what the terrain says (already adjusted for
/// the algorithm's implicit step cost).
pub open spec fn spec_adjusted_cost(w: World, sel_pos: HexCoord, c: HexCoord) -> Option<u32> {
    if occupied(w, c) {
        if c == sel_pos {
            Some(0u32)
        } else {
            None
        }
    } else {
        if exists|t: int| 0 <= t < w.tiles@.len() && (#[trigger] w.tiles@[t]).coord == c {
            let t = choose|t: int| 0 <= t < w.tiles@.len() && (#[trigger] w.tiles@[t]).coord == c;
            w.tiles@[t].terrain.movement_cost.spec_modified_algorithm_cost()
        } else {
            None
        }
    }
}

/// The whole cost function, as a map over the coordinates the grid library
/// can name.
pub open spec fn cost_map_view(w: World, sel_pos: HexCoord) -> Map<(int, int), Option<u32>> {
    Map::new(
        |p: (int, int)| i32::MIN <= p.0 <= i32::MAX && i32::MIN <= p.1 <= i32::MAX,
        |p: (int, int)|
            spec_adjusted_cost(w, sel_pos, HexCoord { q: p.0 as i32, r: p.1 as i32 }),
    )
}

/// A coordinate as a plain pair.
pub open spec fn coord_pair(c: HexCoord) -> (int, int) {
    (c.q as int, c.r as int)
}

/// The positions of a list as a set of plain pairs.
pub open spec fn pairs_of(s: Seq<HexCoord>) -> Set<(int, int)> {
    Set::<(int, int)>::new(
        |p: (int, int)| exists|k: int| 0 <= k < s.len() && coord_pair(#[trigger] s[k]) == p,
    )
}

/// What the grid library's movement flood fill returns: the set of hexes
/// reachable from the origin within the budget under the given cost map.
pub uninterp spec fn reachable_set(
    origin_q: int,
    origin_r: int,
    budget: int,
    costs: Map<(int, int), Option<u32>>,
) -> Set<(int, int)>;

/// What the grid library's shortest-path search returns for the given
/// endpoints and cost map, if a path exists.
pub uninterp spec fn path_found(
    start_q: int,
    start_r: int,
    goal_q: int,
    goal_r: int,
    costs: Map<(int, int), Option<u32>>,
) -> Option<Seq<(int, int)>>;

/// The flood-fill cost of one hex, exactly [`spec_adjusted_cost`].
pub fn adjusted_cost(w: &World, sel_pos: HexCoord, c: HexCoord) -> (res: Option<u32>)
    requires
        w.wf(),
    ensures
        res == spec_adjusted_cost(*w, sel_pos, c),
{
    match w.unit_at(c) {
        Some(_) => {
            if c.q == sel_pos.q && c.r == sel_pos.r {
                Some(0)
            } else {
                None
            }
        },
        _ => {
            match w.tile_at(c) {
                Some(t) => {
                    proof {
                        let tj = choose|tj: int|
                            0 <= tj < w.tiles@.len() && (#[trigger] w.tiles@[tj]).coord == c;
                    }
                    t.terrain.movement_cost.get_modified_algorithm_cost()
                },
                _ => None,
            }
        },
    }
}

/// Relies on `hexx::algorithms::field_of_movement`: a pure flood fill over
/// the cost function, deterministic in the origin, the budget and the costs
/// alone; the result is handed back as a list of coordinates carrying that
/// set. The preconditions rule out its arithmetic panics: the ring count
/// `3*budget*(budget+1)+1` fits a `u32` for the capped budget, and every
/// accumulated path cost is a sum of at most one `cost + 1` step per
/// distinct costed cell — at most `(MAX_MAP_TILES + 1) * (MAX_TILE_COST + 1)`
/// under the world's well-formedness, far below `u32::MAX`.
#[verifier::external_body]
fn field_of_movement_raw(w: &World, sel_pos: HexCoord, origin: HexCoord, budget: u32) -> (res: Vec<
    HexCoord,
>)
    requires
        w.wf(),
        in_coord_range(origin),
        budget <= MAX_FLOOD_BUDGET,
    ensures
        pairs_of(res@) == reachable_set(
            origin.q as int,
            origin.r as int,
            budget as int,
            cost_map_view(*w, sel_pos),
        ),
{
    let out = hexx::algorithms::field_of_movement(
        hexx::Hex::new(origin.q, origin.r),
        budget,
        |h: hexx::Hex| adjusted_cost(w, sel_pos, HexCoord { q: h.x, r: h.y }),
    );
    out.into_iter().map(|h| HexCoord { q: h.x, r: h.y }).collect()
}

/// Relies on `hexx::algorithms::a_star`: a shortest-path search over the
/// cost function, deterministic in the endpoints and the costs alone; a
/// found path begins at the start hex and ends at the goal. The
/// preconditions rule out its arithmetic panics: every hex it touches lies
/// within one step of a well-formed tile, the start or the goal, all inside
/// the coordinate range, so its `i32` coordinate sums and differences
/// cannot overflow; and every accumulated `u32` path cost is a sum of at
/// most one bounded cost per distinct costed cell, as for the flood fill.
#[verifier::external_body]
fn a_star_raw(w: &World, sel_pos: HexCoord, start: HexCoord, goal: HexCoord) -> (res: Option<
    Vec<HexCoord>,
>)
    requires
        w.wf(),
        in_coord_range(start),
        in_coord_range(goal),
    ensures
        match res {
            Some(p) => path_found(
                start.q as int,
                start.r as int,
                goal.q as int,
                goal.r as int,
                cost_map_view(*w, sel_pos),
            ) == Some(p@.map_values(|c: HexCoord| coord_pair(c))) && p@.len() >= 1 && p@[0] == start
                && p@.last() == goal,
            None => path_found(
                start.q as int,
                start.r as int,
                goal.q as int,
                goal.r as int,
                cost_map_view(*w, sel_pos),
            ) is None,
        },
{
    let path = hexx::algorithms::a_star(
        hexx::Hex::new(start.q, start.r),
        hexx::Hex::new(goal.q, goal.r),
        |a: hexx::Hex, _b: hexx::Hex| adjusted_cost(w, sel_pos, HexCoord { q: a.x, r: a.y }),
    )?;
    Some(path.into_iter().map(|h| HexCoord { q: h.x, r: h.y }).collect())
}

/// The selection state: the selected unit and the lazily recomputed cache
/// of hexes it can reach or attack.
pub struct SelectedUnitResource {
    pub selected_unit: Option<UnitId>,
    pub recompute_cache: bool,
    pub reachable_hexes: Option<Vec<HexCoord>>,
}

impl SelectedUnitResource {
    pub fn new() -> (res: SelectedUnitResource)
        ensures
            res.selected_unit is None,
            res.recompute_cache,
            res.reachable_hexes is None,
    {
        SelectedUnitResource { selected_unit: None, recompute_cache: true, reachable_hexes: None }
    }

    pub fn selected_unit(&self) -> (res: Option<UnitId>)
        ensures
            res == self.selected_unit,
    {
        self.selected_unit
    }

    /// Changing the selection invalidates the reachability cache.
    pub fn set_selected_unit(&mut self, selected_unit: Option<UnitId>)
        ensures
            final(self).selected_unit == selected_unit,
            final(self).recompute_cache,
    {
        self.recompute_cache = true;
        self.selected_unit = selected_unit;
    }

    pub fn reachable_hexes(&self) -> (res: &Option<Vec<HexCoord>>)
        ensures
            res == &self.reachable_hexes,
    {
        &self.reachable_hexes
    }

    /// Engagement or action-point changes force a recomputation.
    pub fn needs_reachable_hexes_recomputation(&mut self)
        ensures
            final(self).recompute_cache,
            final(self).selected_unit == old(self).selected_unit,
    {
        self.recompute_cache = true;
    }
}

/// The largest movement budget handed to the flood fill: far below the
/// point where the algorithm's ring count or accumulated costs could
/// overflow a `u32`, and no map a well-formed world can hold offers longer
/// walks anyway.
pub const MAX_FLOOD_BUDGET: u32 = 1000;

/// The action-point budget as the flood fill takes it, capped at
/// [`MAX_FLOOD_BUDGET`].
pub open spec fn spec_budget(left: usize) -> u32 {
    if left > MAX_FLOOD_BUDGET {
        MAX_FLOOD_BUDGET
    } else {
        left as u32
    }
}

/// Recomputes the reachability cache when it is stale: with an activated
/// targeting ability it is overridden by the ability's own rule (live
/// enemies within its radius); otherwise it is the movement flood fill
/// bounded by the remaining action points, extended by the positions of
/// enemies within attack range while an attack is still allowed this round.
/// A vanished selection leaves an empty cache.
pub fn update_reachable_hexes_cache(
    w: &World,
    sur: &mut SelectedUnitResource,
    activated_ability: Option<(UnitId, crate::abilities::ActiveAbility)>,
)
    requires
        w.wf(),
    ensures
        final(sur).selected_unit == old(sur).selected_unit,
        !final(sur).recompute_cache,
        !old(sur).recompute_cache ==> *final(sur) == *old(sur) || (final(sur).reachable_hexes
            == old(sur).reachable_hexes && final(sur).recompute_cache
            == old(sur).recompute_cache),
        old(sur).recompute_cache ==> match old(sur).selected_unit {
            None => final(sur).reachable_hexes is None,
            Some(sel) => match activated_ability {
                Some((owner, ability)) => {
                    if w.alive(owner) {
                        final(sur).reachable_hexes matches Some(v) && v@.to_set()
                            == w.spec_units_within_range(
                            w.unit(owner).position,
                            ability.kind.spec_targeting_range(),
                            w.unit(owner).team,
                        )
                    } else {
                        final(sur).reachable_hexes is None
                    }
                },
                None => {
                    if w.alive(sel) {
                        final(sur).reachable_hexes matches Some(v) && pairs_of(v@)
                            == reachable_set(
                            w.unit(sel).position.q as int,
                            w.unit(sel).position.r as int,
                            spec_budget(w.unit(sel).action_points.left) as int,
                            cost_map_view(*w, w.unit(sel).position),
                        ) + (if w.unit(sel).action_points.spec_can_attack() {
                            pairs_of_set(
                                w.spec_units_within_range(
                                    w.unit(sel).position,
                                    w.unit(sel).combat_config.range,
                                    w.unit(sel).team,
                                ),
                            )
                        } else {
                            Set::<(int, int)>::empty()
                        })
                    } else {
                        final(sur).reachable_hexes is None
                    }
                },
            },
        },
{
    if !sur.recompute_cache {
        return ;
    }
    let sel = match sur.selected_unit {
        Some(s) => s,
        None => {
            sur.reachable_hexes = None;
            sur.recompute_cache = false;
            return ;
        },
    };
    match activated_ability {
        Some((owner, ability)) => {
            if owner < w.num_unit_slots() {
                match &w.units[owner] {
                    Some(u) => {
                        let hexes = w.find_units_within_range(
                            u.position,
                            ability.targeting_range(),
                            u.team,
                        );
                        sur.reachable_hexes = Some(hexes);
                    },
                    _ => {
                        sur.reachable_hexes = None;
                    },
                }
            } else {
                sur.reachable_hexes = None;
            }
        },
        None => {
            if sel < w.num_unit_slots() {
                let (pos, budget, can_attack, range, team) = match &w.units[sel] {
                    Some(u) => {
                        let left = u.action_points.left;
                        let budget: u32 = if left > MAX_FLOOD_BUDGET as usize {
                            MAX_FLOOD_BUDGET
                        } else {
                            left as u32
                        };
                        (
                            u.position,
                            budget,
                            u.action_points.can_still_attack_this_turn(),
                            u.combat_config.range,
                            u.team,
                        )
                    },
                    _ => {
                        sur.reachable_hexes = None;
                        sur.recompute_cache = false;
                        return ;
                    },
                };
                let mut hexes = field_of_movement_raw(w, pos, pos, budget);
                let ghost fom = hexes@;
                if can_attack {
                    let attackable = w.find_units_within_range(pos, range, team);
                    let ghost before = hexes@;
                    let mut k: usize = 0;
                    while k < attackable.len()
                        invariant
                            k <= attackable@.len(),
                            hexes@ == before + attackable@.subrange(0, k as int),
                        decreases attackable@.len() - k,
                    {
                        hexes.push(attackable[k]);
                        proof {
                            assert(before + attackable@.subrange(0, k as int) + seq![
                                attackable@[k as int],
                            ] =~= before + attackable@.subrange(0, k + 1));
                        }
                        k = k + 1;
                    }
                    proof {
                        assert(before + attackable@.subrange(0, attackable@.len() as int) =~= before
                            + attackable@);
                        lemma_pairs_of_concat(before, attackable@);
                        lemma_pairs_of_to_set(
                            attackable@,
                            w.spec_units_within_range(pos, range, team),
                        );
                    }
                }
                sur.reachable_hexes = Some(hexes);
            } else {
                sur.reachable_hexes = None;
            }
        },
    }
    sur.recompute_cache = false;
}

/// The positions of a set of coordinates as plain pairs.
pub open spec fn pairs_of_set(s: Set<HexCoord>) -> Set<(int, int)> {
    Set::<(int, int)>::new(
        |p: (int, int)| exists|c: HexCoord| s.contains(c) && coord_pair(c) == p,
    )
}

proof fn lemma_pairs_of_concat(a: Seq<HexCoord>, b: Seq<HexCoord>)
    ensures
        pairs_of(a + b) == pairs_of(a) + pairs_of(b),
{
    assert forall|p: (int, int)| pairs_of(a + b).contains(p) implies (pairs_of(a) + pairs_of(
        b,
    )).contains(p) by {
        let k = choose|k: int| 0 <= k < (a + b).len() && coord_pair((a + b)[k]) == p;
        if k < a.len() {
            assert(coord_pair(a[k]) == p);
        } else {
            assert(coord_pair(b[k - a.len()]) == p);
        }
    }
    assert forall|p: (int, int)| (pairs_of(a) + pairs_of(b)).contains(p) implies pairs_of(
        a + b,
    ).contains(p) by {
        if pairs_of(a).contains(p) {
            let k = choose|k: int| 0 <= k < a.len() && coord_pair(#[trigger] a[k]) == p;
            assert(coord_pair((a + b)[k]) == p);
        } else {
            let k = choose|k: int| 0 <= k < b.len() && coord_pair(#[trigger] b[k]) == p;
            assert(coord_pair((a + b)[a.len() + k]) == p);
        }
    }
    assert(pairs_of(a + b) =~= pairs_of(a) + pairs_of(b));
}

proof fn lemma_pairs_of_to_set(s: Seq<HexCoord>, t: Set<HexCoord>)
    requires
        s.to_set() == t,
    ensures
        pairs_of(s) == pairs_of_set(t),
{
    assert forall|p: (int, int)| pairs_of(s).contains(p) implies pairs_of_set(t).contains(p) by {
        let k = choose|k: int| 0 <= k < s.len() && coord_pair(#[trigger] s[k]) == p;
        assert(t.contains(s[k]));
    }
    assert forall|p: (int, int)| pairs_of_set(t).contains(p) implies pairs_of(s).contains(p) by {
        let c = choose|c: HexCoord| t.contains(c) && coord_pair(c) == p;
        assert(s.contains(c));
        let k = choose|k: int| 0 <= k < s.len() && s[k] == c;
        assert(coord_pair(s[k]) == p);
    }
    assert(pairs_of(s) =~= pairs_of_set(t));
}

/// The path the selected unit would walk to the hovered hex: the
/// shortest-path search between its own hex and the hovered one over the
/// same adjusted costs, or nothing when there is no selection, no hovered
/// hex, or no way through.
pub fn compute_current_path(
    w: &World,
    selected_unit: Option<UnitId>,
    hovered_hex: Option<HexCoord>,
) -> (res: Option<Vec<HexCoord>>)
    requires
        w.wf(),
    ensures
        match (selected_unit, hovered_hex) {
            (Some(sel), Some(goal)) => {
                if w.alive(sel) && in_coord_range(goal) {
                    match res {
                        Some(p) => path_found(
                            w.unit(sel).position.q as int,
                            w.unit(sel).position.r as int,
                            goal.q as int,
                            goal.r as int,
                            cost_map_view(*w, w.unit(sel).position),
                        ) == Some(p@.map_values(|c: HexCoord| coord_pair(c))) && p@.len() >= 1
                            && p@[0] == w.unit(sel).position && p@.last() == goal,
                        None => path_found(
                            w.unit(sel).position.q as int,
                            w.unit(sel).position.r as int,
                            goal.q as int,
                            goal.r as int,
                            cost_map_view(*w, w.unit(sel).position),
                        ) is None,
                    }
                } else {
                    res is None
                }
            },
            _ => res is None,
        },
{
    let sel = match selected_unit {
        Some(s) => s,
        _ => {
            return None;
        },
    };
    let goal = match hovered_hex {
        Some(h) => h,
        _ => {
            return None;
        },
    };
    if !(-crate::hex::COORD_LIMIT < goal.q && goal.q < crate::hex::COORD_LIMIT
        && -crate::hex::COORD_LIMIT < goal.r && goal.r < crate::hex::COORD_LIMIT) {
        return None;
    }
    if sel >= w.num_unit_slots() {
        return None;
    }
    let pos = match &w.units[sel] {
        Some(u) => u.position,
        _ => {
            return None;
        },
    };
    a_star_raw(w, pos, pos, goal)
}

} // verus!
