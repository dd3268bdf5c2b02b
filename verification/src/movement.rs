//! Movement execution: accepting a move order, paying its cost up front,
//! and walking the path one hex per tick with mid-path retaliation.

use vstd::prelude::*;

use crate::combat::{AttackOrDefault, CombatEvent};
use crate::hex::{in_coord_range, HexCoord};
use crate::terrain::MovementCost;
use crate::units::UnitId;
use crate::world::{vec_index_mut, World};

verus! {

/// An order for one unit to walk the given path (its own hex excluded).
#[derive(Clone, Debug)]
pub struct MoveUnitEvent {
    pub entity: UnitId,
    pub path: Vec<HexCoord>,
}

/// A unit on its way: the hexes not yet entered are `path[next..]`.
#[derive(Clone, Debug)]
pub struct MovingUnit {
    pub entity: UnitId,
    pub path: Vec<HexCoord>,
    pub next: usize,
}

impl MovingUnit {
    pub open spec fn wf(&self) -> bool {
        &&& self.next <= self.path@.len()
        &&& forall|k: int| 0 <= k < self.path@.len() ==> in_coord_range(#[trigger] self.path@[k])
    }

    pub open spec fn finished(&self) -> bool {
        self.next == self.path@.len()
    }
}

/// Every unit currently walking a path.
pub struct MovingUnitsResource(pub Vec<MovingUnit>);

impl MovingUnitsResource {
    pub open spec fn wf(&self) -> bool {
        forall|k: int| 0 <= k < self.0@.len() ==> (#[trigger] self.0@[k]).wf()
    }

    pub fn new() -> (res: MovingUnitsResource)
        ensures
            res.wf(),
            res.0@.len() == 0,
    {
        MovingUnitsResource(Vec::new())
    }
}

/// The movement cost of walking `path` over the tiles of `w`, summed tile
/// by tile; nothing if some hex has no tile or an impassable one.
pub open spec fn spec_path_cost(w: World, path: Seq<HexCoord>) -> Option<int>
    decreases path.len(),
{
    if path.len() == 0 {
        Some(0)
    } else {
        match spec_path_cost(w, path.drop_last()) {
            Some(c) => {
                if exists|t: int|
                    0 <= t < w.tiles@.len() && (#[trigger] w.tiles@[t]).coord == path.last() && w.tiles@[t].terrain.movement_cost is Passable {
                    let t = choose|t: int|
                        0 <= t < w.tiles@.len() && (#[trigger] w.tiles@[t]).coord == path.last()
                            && w.tiles@[t].terrain.movement_cost is Passable;
                    Some(c + w.tiles@[t].terrain.movement_cost->Passable_0)
                } else {
                    None
                }
            },
            _ => { None },
        }
    }
}

/// A path whose prefix already has no cost has none as a whole.
proof fn lemma_path_cost_none_extends(w: World, path: Seq<HexCoord>, j: int)
    requires
        0 <= j <= path.len(),
        spec_path_cost(w, path.subrange(0, j)) is None,
    ensures
        spec_path_cost(w, path) is None,
    decreases path.len() - j,
{
    if j == path.len() {
        assert(path.subrange(0, j) =~= path);
    } else {
        assert(path.subrange(0, j + 1).drop_last() =~= path.subrange(0, j));
        lemma_path_cost_none_extends(w, path, j + 1);
    }
}

/// The cost of `path` over the tiles of `w`, capped at `usize::MAX`, or
/// nothing if a hex on the way has no tile or an impassable one. Mirrors
/// [`spec_path_cost`] except that the cap keeps the sum a machine integer;
/// a capped sum already exceeds any action-point budget.
pub fn path_cost(w: &World, path: &Vec<HexCoord>) -> (res: Option<usize>)
    requires
        w.wf(),
    ensures
        res is Some <==> spec_path_cost(*w, path@) is Some,
        res matches Some(c) ==> {
            let sc = spec_path_cost(*w, path@)->Some_0;
            c == if sc > usize::MAX {
                usize::MAX as int
            } else {
                sc
            }
        },
{
    let mut total: usize = 0;
    let mut i: usize = 0;
    while i < path.len()
        invariant
            w.wf(),
            i <= path@.len(),
            spec_path_cost(*w, path@.subrange(0, i as int)) is Some,
            ({
                let sc = spec_path_cost(*w, path@.subrange(0, i as int))->Some_0;
                total == if sc > usize::MAX {
                    usize::MAX as int
                } else {
                    sc
                }
            }),
        decreases path@.len() - i,
    {
        let tile = w.tile_at(path[i]);
        proof {
            assert(path@.subrange(0, i + 1).drop_last() =~= path@.subrange(0, i as int));
            assert(path@.subrange(0, i + 1).last() == path@[i as int]);
        }
        match tile {
            Some(t) => {
                match &t.terrain.movement_cost {
                    MovementCost::Passable(c) => {
                        let step: usize = *c;
                        proof {
                            let ghost pre = path@.subrange(0, i as int);
                            let ghost post = path@.subrange(0, i + 1);
                            let t2 = choose|t2: int|
                                0 <= t2 < w.tiles@.len() && (#[trigger] w.tiles@[t2]).coord
                                    == post.last()
                                    && w.tiles@[t2].terrain.movement_cost is Passable;
                            assert(spec_path_cost(*w, post) is Some);
                        }
                        total = if step > usize::MAX - total {
                            usize::MAX
                        } else {
                            total + step
                        };
                    },
                    MovementCost::Impassable => {
                        proof {
                            assert(spec_path_cost(*w, path@.subrange(0, i + 1)) is None);
                            lemma_path_cost_none_extends(*w, path@, i + 1);
                        }
                        return None;
                    },
                }
            },
            _ => {
                proof {
                    assert(spec_path_cost(*w, path@.subrange(0, i + 1)) is None);
                    lemma_path_cost_none_extends(*w, path@, i + 1);
                }
                return None;
            },
        }
        i = i + 1;
    }
    proof {
        assert(path@.subrange(0, path@.len() as int) =~= path@);
    }
    Some(total)
}


/// Accepts a move order: the whole path must run over existing passable
/// tiles; its summed cost is deducted from the mover's action points up
/// front, floored at zero, and the unit joins the walking queue. An order
/// over a missing or impassable tile, or for a unit that is gone, is
/// refused without any change — a stale order, not a player error.
pub fn handle_move_event(
    w: &mut World,
    moving: &mut MovingUnitsResource,
    event: &MoveUnitEvent,
) -> (accepted: bool)
    requires
        old(w).wf(),
        old(moving).wf(),
    ensures
        final(w).wf(),
        final(moving).wf(),
        accepted == (old(w).alive(event.entity) && spec_path_cost(*old(w), event.path@) is Some),
        !accepted ==> crate::combat::unchanged(*final(w), *old(w)) && final(moving).0@ == old(
            moving,
        ).0@,
        accepted ==> {
            let cost = spec_path_cost(*old(w), event.path@)->Some_0;
            let o = old(w).unit(event.entity);
            &&& final(moving).0@.len() == old(moving).0@.len() + 1
            &&& final(moving).0@.subrange(0, old(moving).0@.len() as int) == old(moving).0@
            &&& final(moving).0@.last().entity == event.entity
            &&& final(moving).0@.last().path@ == event.path@
            &&& final(moving).0@.last().next == 0
            &&& final(w).tiles@ == old(w).tiles@
            &&& final(w).units@.len() == old(w).units@.len()
            &&& (forall|j: UnitId|
                j < old(w).units@.len() && j != event.entity ==> final(w).units@[j as int] == old(
                    w,
                ).units@[j as int])
            &&& final(w).alive(event.entity)
            &&& crate::engagement::same_but_status(
                crate::units::Unit {
                    action_points: o.action_points,
                    ..final(w).unit(event.entity)
                },
                o,
            )
            &&& final(w).unit(event.entity).status == o.status
            &&& final(w).unit(event.entity).action_points.left == (if cost
                > o.action_points.left {
                0int
            } else {
                o.action_points.left - cost
            })
            &&& final(w).unit(event.entity).action_points.attacks_this_round
                == o.action_points.attacks_this_round
            &&& final(w).unit(event.entity).action_points.max == o.action_points.max
            &&& final(w).unit(event.entity).action_points.max_attacks
                == o.action_points.max_attacks
            &&& final(w).unit(event.entity).action_points.attack_action_point_cost
                == o.action_points.attack_action_point_cost
        },
{
    let cost = match path_cost(w, &event.path) {
        Some(c) => c,
        _ => {
            return false;
        },
    };
    if event.entity >= w.num_unit_slots() {
        return false;
    }
    let ghost w0 = *w;
    let slot = vec_index_mut(&mut w.units, event.entity);
    match slot {
        Some(unit) => {
            unit.action_points.pay_movement(cost);
            proof {
                assert(w.units@ =~= w0.units@.update(
                    event.entity as int,
                    w.units@[event.entity as int],
                ));
            }
        },
        _ => {
            proof {
                assert(w.units@ =~= w0.units@);
            }
            return false;
        },
    }
    let mut path: Vec<HexCoord> = Vec::new();
    let mut i: usize = 0;
    while i < event.path.len()
        invariant
            i <= event.path@.len(),
            path@ == event.path@.subrange(0, i as int),
        decreases event.path@.len() - i,
    {
        path.push(event.path[i]);
        proof {
            assert(event.path@.subrange(0, i as int).push(event.path@[i as int]) =~= event.path@
                .subrange(0, i + 1));
        }
        i = i + 1;
    }
    proof {
        assert(event.path@.subrange(0, event.path@.len() as int) =~= event.path@);
        lemma_path_coords_in_range(w0, event.path@);
    }
    moving.0.push(MovingUnit { entity: event.entity, path, next: 0 });
    proof {
        assert(moving.0@.drop_last() == old(moving).0@);
        assert(moving.0@.subrange(0, old(moving).0@.len() as int) =~= old(moving).0@);
        let sc = spec_path_cost(w0, event.path@)->Some_0;
        if sc > usize::MAX {
            assert(cost == usize::MAX);
            assert(cost >= w0.unit(event.entity).action_points.left);
        }
    }
    true
}

/// Every hex of a path with a cost lies on a tile, hence in coordinate
/// range.
proof fn lemma_path_coords_in_range(w: World, path: Seq<HexCoord>)
    requires
        w.wf(),
        spec_path_cost(w, path) is Some,
    ensures
        forall|k: int| 0 <= k < path.len() ==> in_coord_range(#[trigger] path[k]),
    decreases path.len(),
{
    if path.len() > 0 {
        lemma_path_coords_in_range(w, path.drop_last());
        let t = choose|t: int|
            0 <= t < w.tiles@.len() && (#[trigger] w.tiles@[t]).coord == path.last()
                && w.tiles@[t].terrain.movement_cost is Passable;
        assert(w.tiles@[t].wf());
        assert(in_coord_range(path.last()));
        assert forall|k: int| 0 <= k < path.len() implies in_coord_range(#[trigger] path[k]) by {
            if k == path.len() - 1 {
                assert(path[k] == path.last());
            } else {
                assert(path[k] == path.drop_last()[k]);
                assert(in_coord_range(path.drop_last()[k]));
            }
        }
    }
}

/// The worlds differ exactly by one walking step of `m`: the mover stands
/// on the next hex of its path, its engagement is recomputed there, every
/// adjacent enemy gained the mutual edge and everyone else dropped the
/// mover, and no other field of any unit changed.
pub open spec fn moved_one_step(pre: World, post: World, m: MovingUnit) -> bool {
    let mover = m.entity;
    let newpos = m.path@[m.next as int];
    let o = pre.unit(mover);
    &&& post.tiles@ == pre.tiles@
    &&& post.units@.len() == pre.units@.len()
    &&& (forall|j: UnitId| post.alive(j) <==> pre.alive(j))
    &&& post.alive(mover)
    &&& post.unit(mover).position == newpos
    &&& (forall|j: UnitId|
        pre.alive(j) ==> crate::engagement::same_but_position_and_status(
            #[trigger] post.unit(j),
            pre.unit(j),
        ) && (j != mover ==> post.unit(j).position == pre.unit(j).position))
    &&& (forall|e: UnitId|
        #[trigger] post.unit(mover).status.engaged().contains(e) <==> (pre.alive(e) && e != mover
            && pre.unit(e).team != o.team && crate::hex::hex_dist(newpos, pre.unit(e).position)
            == 1))
    &&& (forall|i: UnitId|
        pre.alive(i) && i != mover ==> #[trigger] post.unit(i).status.engaged() == (if pre.alive(i)
            && i != mover && pre.unit(i).team != o.team && crate::hex::hex_dist(
            newpos,
            pre.unit(i).position,
        ) == 1 {
            pre.unit(i).status.engaged().insert(mover)
        } else {
            pre.unit(i).status.engaged().remove(mover)
        }))
}

/// One walking tick for one unit: it advances to the next hex of its path,
/// and every enemy it was engaged with before the tick retaliates — one
/// combat event per engaged enemy, the mover as defender — after which its
/// engagement is recomputed at the new position. A finished or stale order
/// changes nothing.
pub fn move_unit_tick(w: &mut World, m: &mut MovingUnit) -> (events: Vec<CombatEvent>)
    requires
        old(w).wf(),
        old(m).wf(),
    ensures
        final(w).wf(),
        final(m).wf(),
        final(m).entity == old(m).entity,
        final(m).path@ == old(m).path@,
        final(w).tiles@ == old(w).tiles@,
        final(w).units@.len() == old(w).units@.len(),
        forall|j: UnitId| final(w).alive(j) <==> old(w).alive(j),
        old(m).finished() || !old(w).alive(old(m).entity) ==> final(m).next == old(m).next
            && crate::combat::unchanged(*final(w), *old(w)) && events@.len() == 0,
        !old(m).finished() && old(w).alive(old(m).entity) ==> {
            let mover = old(m).entity;
            let o = old(w).unit(mover);
            &&& final(m).next == old(m).next + 1
            &&& events@.len() == o.status.engaged_with_units@.len()
            &&& (forall|k: int|
                0 <= k < events@.len() ==> (#[trigger] events@[k]).attacker
                    == o.status.engaged_with_units@[k] && events@[k].defender == mover
                    && events@[k].attack is Default)
            &&& moved_one_step(*old(w), *final(w), *old(m))
        },
{
    if m.next >= m.path.len() {
        return Vec::new();
    }
    if m.entity >= w.num_unit_slots() {
        return Vec::new();
    }
    let newpos = m.path[m.next];
    let ghost w0 = *w;
    let slot = vec_index_mut(&mut w.units, m.entity);
    let engaged: Vec<UnitId> = match slot {
        Some(unit) => {
            let e = copy_ids(unit.status.get_engaged_with_units());
            unit.position = newpos;
            e
        },
        _ => {
            proof {
                assert(w.units@ =~= w0.units@);
            }
            return Vec::new();
        },
    };
    m.next = m.next + 1;
    proof {
        assert(m.entity == old(m).entity);
        assert(w.units@ =~= w0.units@.update(m.entity as int, w.units@[m.entity as int]));
        assert(engaged@ == w0.unit(m.entity).status.engaged_with_units@);
        assert(w.alive(m.entity));
        assert forall|i3: int|
            0 <= i3 < w.units@.len() && w.units@[i3] is Some implies (
        #[trigger] w.units@[i3])->Some_0.wf() by {
            assert(w0.alive(i3 as UnitId));
            assert(w0.units@[i3]->Some_0.wf());
        }
        assert forall|i3: int, e: UnitId|
            0 <= i3 < w.units@.len() && w.units@[i3] is Some
                && #[trigger] w.units@[i3]->Some_0.status.engaged().contains(e) implies e
            < w.units@.len() && e != i3 by {
            assert(w0.alive(i3 as UnitId));
            assert(w0.units@[i3]->Some_0.status.engaged().contains(e));
        }
        assert(w.wf());
    }
    let ghost wi = *w;
    let mut events: Vec<CombatEvent> = Vec::new();
    let mut k: usize = 0;
    while k < engaged.len()
        invariant
            m.entity == old(m).entity,
            k <= engaged@.len(),
            events@.len() == k,
            forall|k2: int|
                0 <= k2 < k ==> (#[trigger] events@[k2]).attacker == engaged@[k2]
                    && events@[k2].defender == old(m).entity && events@[k2].attack is Default,
        decreases engaged@.len() - k,
    {
        let ghost prev_events = events@;
        events.push(
            CombatEvent {
                attacker: engaged[k],
                attack: AttackOrDefault::Default,
                defender: m.entity,
            },
        );
        proof {
            assert(forall|k2: int| 0 <= k2 < prev_events.len() ==> events@[k2] == prev_events[k2]);
            assert(events@[k as int].attacker == engaged@[k as int]);
            assert(events@[k as int].defender == old(m).entity);
        }
        k = k + 1;
    }
    crate::engagement::update_engagement(w, m.entity);
    proof {
        let mover = old(m).entity;
        assert(wi.unit(mover).position == newpos);
        assert(forall|j: UnitId|
            wi.alive(j) && j != mover ==> #[trigger] wi.unit(j) == w0.unit(j));
        assert forall|e: UnitId|
            crate::engagement::enemy_adjacent(wi, mover, e) <==> (w0.alive(e) && e != mover
                && w0.unit(e).team != w0.unit(mover).team && crate::hex::hex_dist(
                newpos,
                w0.unit(e).position,
            ) == 1) by {
            if e < wi.units@.len() && e != mover && wi.alive(e) {
                assert(wi.unit(e) == w0.unit(e));
            }
        }
    }
    events
}

/// Drops every finished walk from the queue; movement has ended — and the
/// round returns to input — when a walk just finished or none is left.
pub fn check_whether_movement_has_ended(moving: &mut MovingUnitsResource) -> (ended: bool)
    requires
        old(moving).wf(),
    ensures
        final(moving).wf(),
        final(moving).0@ == old(moving).0@.filter(|mu: MovingUnit| !mu.finished()),
        ended == (final(moving).0@.len() < old(moving).0@.len() || final(moving).0@.len() == 0),
{
    let length_before = moving.0.len();
    let ghost all = moving.0@;
    let ghost k: int = 0;
    let mut j: usize = 0;
    proof {
        assert(all.subrange(0, 0).filter(|mu: MovingUnit| !mu.finished()) =~= all.subrange(0, 0));
    }
    let mut k_exec: usize = 0;
    while j < moving.0.len()
        invariant
            old(moving).wf(),
            all == old(moving).0@,
            all.len() == length_before as int,
            k_exec <= all.len(),
            j == all.subrange(0, k_exec as int).filter(|mu: MovingUnit| !mu.finished()).len(),
            j <= k_exec,
            moving.0@ == all.subrange(0, k_exec as int).filter(|mu: MovingUnit| !mu.finished())
                + all.subrange(k_exec as int, all.len() as int),
        decreases all.len() - k_exec,
    {
        proof {
            assert(k_exec < all.len());
            assert(moving.0@[j as int] == all[k_exec as int]);
            assert(all.subrange(0, k_exec + 1).drop_last() =~= all.subrange(0, k_exec as int));
            assert(all.subrange(0, k_exec + 1).last() == all[k_exec as int]);
            reveal_with_fuel(Seq::filter, 2);
        }
        let finished = moving.0[j].next >= moving.0[j].path.len();
        if finished {
            proof {
                assert((#[trigger] all[k_exec as int]).wf());
                assert(all[k_exec as int].finished());
            }
            let ghost pfx = all.subrange(0, k_exec as int).filter(|mu: MovingUnit| !mu.finished());
            moving.0.remove(j);
            proof {
                assert(all.subrange(0, k_exec + 1).filter(|mu: MovingUnit| !mu.finished())
                    =~= pfx);
                assert(moving.0@ =~= pfx + all.subrange(k_exec + 1, all.len() as int));
                assert(moving.0@ =~= all.subrange(0, k_exec + 1).filter(
                    |mu: MovingUnit| !mu.finished(),
                ) + all.subrange(k_exec + 1, all.len() as int));
            }
        } else {
            proof {
                assert(all.subrange(0, k_exec + 1).filter(|mu: MovingUnit| !mu.finished())
                    =~= all.subrange(0, k_exec as int).filter(
                    |mu: MovingUnit| !mu.finished(),
                ).push(all[k_exec as int]));
                assert(moving.0@ =~= all.subrange(0, k_exec + 1).filter(
                    |mu: MovingUnit| !mu.finished(),
                ) + all.subrange(k_exec + 1, all.len() as int));
            }
            j = j + 1;
        }
        k_exec = k_exec + 1;
    }
    proof {
        assert(all.subrange(0, all.len() as int) =~= all);
        assert(all.subrange(all.len() as int, all.len() as int) =~= Seq::<MovingUnit>::empty());
        assert(moving.0@ =~= all.filter(|mu: MovingUnit| !mu.finished()));
        lemma_filter_len(all, |mu: MovingUnit| !mu.finished());
        assert forall|k2: int|
            0 <= k2 < moving.0@.len() implies (#[trigger] moving.0@[k2]).wf() by {
            lemma_filter_elements(all, |mu: MovingUnit| !mu.finished(), k2);
        }
    }
    let length_after = moving.0.len();
    length_after < length_before || length_after == 0
}

/// Every element of a filtered sequence comes from the sequence it was
/// filtered from.
pub proof fn lemma_filter_elements(
    s: Seq<MovingUnit>,
    pred: spec_fn(MovingUnit) -> bool,
    k: int,
)
    requires
        0 <= k < s.filter(pred).len(),
    ensures
        s.contains(s.filter(pred)[k]),
    decreases s.len(),
{
    reveal_with_fuel(Seq::filter, 2);
    if s.len() > 0 {
        if k < s.drop_last().filter(pred).len() {
            lemma_filter_elements(s.drop_last(), pred, k);
            let x = s.drop_last().filter(pred)[k];
            let m = choose|m: int| 0 <= m < s.drop_last().len() && s.drop_last()[m] == x;
            assert(s[m] == x);
        } else {
            assert(s.filter(pred)[k] == s.last());
        }
    }
}

/// A filtered sequence is never longer than the one it was filtered from.
pub proof fn lemma_filter_len(s: Seq<MovingUnit>, pred: spec_fn(MovingUnit) -> bool)
    ensures
        s.filter(pred).len() <= s.len(),
    decreases s.len(),
{
    reveal_with_fuel(Seq::filter, 2);
    if s.len() > 0 {
        lemma_filter_len(s.drop_last(), pred);
    }
}

/// An element-for-element copy of a unit-id list.
fn copy_ids(v: &Vec<UnitId>) -> (res: Vec<UnitId>)
    ensures
        res@ == v@,
{
    let mut out: Vec<UnitId> = Vec::new();
    let mut i: usize = 0;
    while i < v.len()
        invariant
            i <= v@.len(),
            out@ == v@.subrange(0, i as int),
        decreases v@.len() - i,
    {
        out.push(v[i]);
        proof {
            assert(v@.subrange(0, i as int).push(v@[i as int]) =~= v@.subrange(0, i + 1));
        }
        i = i + 1;
    }
    proof {
        assert(v@.subrange(0, v@.len() as int) =~= v@);
    }
    out
}

} // verus!

