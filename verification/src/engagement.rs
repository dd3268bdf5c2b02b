//! The zone-of-control tracker: mutual engagement sets, recomputed for a
//! unit whenever its position changes.

use vstd::prelude::*;

use crate::hex::{hex_dist, hex_distance, lemma_hex_dist_symmetric};
use crate::units::{Unit, UnitId, UnitStatus};
use crate::world::{vec_index_mut, World};

verus! {

/// Units `a` and `b` are live, on opposing teams, and adjacent.
pub open spec fn enemy_adjacent(w: World, a: UnitId, b: UnitId) -> bool {
    &&& w.alive(a)
    &&& w.alive(b)
    &&& a != b
    &&& w.unit(a).team != w.unit(b).team
    &&& hex_dist(w.unit(a).position, w.unit(b).position) == 1
}

/// Every engagement edge exists exactly between live, adjacent, opposing
/// units.
pub open spec fn engagement_consistent(w: World) -> bool {
    forall|a: UnitId, b: UnitId|
        w.alive(a) && b < w.units@.len() ==> (#[trigger] w.unit(a).status.engaged().contains(b)
            <==> enemy_adjacent(w, a, b))
}

/// Engagement is consistent for every pair that does not involve `m`: the
/// state of the world just after `m` moved.
pub open spec fn consistent_except(w: World, m: UnitId) -> bool {
    forall|a: UnitId, b: UnitId|
        w.alive(a) && b < w.units@.len() && a != m && b != m ==> (#[trigger] w.unit(
            a,
        ).status.engaged().contains(b) <==> enemy_adjacent(w, a, b))
}

/// The two units agree in everything but their engagement status.
pub open spec fn same_but_status(n: Unit, o: Unit) -> bool {
    &&& n.marker == o.marker
    &&& n.team == o.team
    &&& n.position == o.position
    &&& n.action_points == o.action_points
    &&& n.health_points == o.health_points
    &&& n.combat_config == o.combat_config
    &&& n.active_abilities == o.active_abilities
}

/// The two units agree in everything but position and engagement status.
pub open spec fn same_but_position_and_status(n: Unit, o: Unit) -> bool {
    &&& n.marker == o.marker
    &&& n.team == o.team
    &&& n.action_points == o.action_points
    &&& n.health_points == o.health_points
    &&& n.combat_config == o.combat_config
    &&& n.active_abilities == o.active_abilities
}

/// Engagement symmetry: under a consistent world, a unit is engaged with an
/// opposing unit exactly when they stand at distance 1, and exactly when
/// that unit is engaged with it in turn.
pub proof fn lemma_engagement_symmetry(w: World, a: UnitId, b: UnitId)
    requires
        engagement_consistent(w),
        w.alive(a),
        w.alive(b),
        a != b,
        w.unit(a).team != w.unit(b).team,
    ensures
        w.unit(a).status.engaged().contains(b) <==> hex_dist(
            w.unit(a).position,
            w.unit(b).position,
        ) == 1,
        w.unit(a).status.engaged().contains(b) <==> w.unit(b).status.engaged().contains(a),
{
    lemma_hex_dist_symmetric(w.unit(a).position, w.unit(b).position);
    assert(w.unit(a).status.engaged().contains(b) <==> enemy_adjacent(w, a, b));
    assert(w.unit(b).status.engaged().contains(a) <==> enemy_adjacent(w, b, a));
}

/// The ids of live enemies adjacent to `moved`, in increasing order.
fn adjacent_enemies(w: &World, moved: UnitId) -> (res: Vec<UnitId>)
    requires
        w.wf(),
        w.alive(moved),
    ensures
        forall|e: UnitId| res@.contains(e) <==> enemy_adjacent(*w, moved, e),
        res@.no_duplicates(),
{
    let moved_pos = w.units[moved].as_ref().unwrap().position;
    let moved_team = w.units[moved].as_ref().unwrap().team;
    let mut out: Vec<UnitId> = Vec::new();
    let mut i: usize = 0;
    while i < w.units.len()
        invariant
            w.wf(),
            w.alive(moved),
            moved_pos == w.unit(moved).position,
            moved_team == w.unit(moved).team,
            i <= w.units@.len(),
            forall|k: int| 0 <= k < out@.len() ==> #[trigger] out@[k] < i,
            out@.no_duplicates(),
            forall|e: UnitId| out@.contains(e) <==> e < i && enemy_adjacent(*w, moved, e),
        decreases w.units@.len() - i,
    {
        let ghost prev = out@;
        if i != moved {
            match &w.units[i] {
                Some(u) => {
                    if u.team != moved_team {
                        if hex_distance(moved_pos, u.position) == 1 {
                            out.push(i);
                            proof {
                                assert(out@.drop_last() == prev);
                                assert(out@[out@.len() - 1] == i);
                                assert forall|e: UnitId| out@.contains(e) implies e < i + 1
                                    && enemy_adjacent(*w, moved, e) by {
                                    let k = choose|k: int| 0 <= k < out@.len() && out@[k] == e;
                                    if k < prev.len() {
                                        assert(prev.contains(e));
                                    }
                                }
                                assert forall|e: UnitId|
                                    e < i + 1 && enemy_adjacent(*w, moved, e) implies out@.contains(
                                    e,
                                ) by {
                                    if e < i {
                                        assert(prev.contains(e));
                                        let k = choose|k: int|
                                            0 <= k < prev.len() && prev[k] == e;
                                        assert(out@[k] == e);
                                    } else {
                                        assert(out@[out@.len() - 1] == e);
                                    }
                                }
                            }
                        }
                    }
                },
                _ => {},
            }
        }
        proof {
            assert forall|e: UnitId| out@.contains(e) implies e < i + 1 && enemy_adjacent(
                *w,
                moved,
                e,
            ) by {
                if prev.contains(e) {
                }
            }
        }
        i = i + 1;
    }
    out
}

fn ids_contain(v: &Vec<UnitId>, x: UnitId) -> (res: bool)
    ensures
        res == v@.contains(x),
{
    let mut i: usize = 0;
    while i < v.len()
        invariant
            i <= v@.len(),
            forall|j: int| 0 <= j < i ==> v@[j] != x,
        decreases v@.len() - i,
    {
        if v[i] == x {
            return true;
        }
        i = i + 1;
    }
    false
}

/// Recomputes engagement after `moved` changed position: `moved` engages
/// exactly the enemies now adjacent to it, every adjacent enemy gains the
/// edge back, and everyone else drops `moved` from its set. If the rest of
/// the world was consistent, the whole world is afterwards — engagement
/// symmetry is restored by every move.
pub fn update_engagement(w: &mut World, moved: UnitId)
    requires
        old(w).wf(),
        old(w).alive(moved),
    ensures
        final(w).wf(),
        final(w).tiles@ == old(w).tiles@,
        final(w).units@.len() == old(w).units@.len(),
        forall|i: UnitId| final(w).alive(i) <==> old(w).alive(i),
        forall|i: UnitId|
            old(w).alive(i) ==> same_but_status(#[trigger] final(w).unit(i), old(w).unit(i)),
        forall|e: UnitId|
            #[trigger] final(w).unit(moved).status.engaged().contains(e) <==> enemy_adjacent(
                *old(w),
                moved,
                e,
            ),
        forall|i: UnitId|
            old(w).alive(i) && i != moved ==> #[trigger] final(w).unit(i).status.engaged() == (
            if enemy_adjacent(*old(w), moved, i) {
                old(w).unit(i).status.engaged().insert(moved)
            } else {
                old(w).unit(i).status.engaged().remove(moved)
            }),
        consistent_except(*old(w), moved) ==> engagement_consistent(*final(w)),
{
    let adjacent = adjacent_enemies(w, moved);

    let mut i: usize = 0;
    while i < w.units.len()
        invariant
            old(w).wf(),
            old(w).alive(moved),
            i <= w.units@.len(),
            w.units@.len() == old(w).units@.len(),
            w.tiles@ == old(w).tiles@,
            forall|e: UnitId| adjacent@.contains(e) <==> enemy_adjacent(*old(w), moved, e),
            adjacent@.no_duplicates(),
            forall|j: UnitId| w.alive(j) <==> old(w).alive(j),
            forall|j: UnitId|
                old(w).alive(j) ==> same_but_status(#[trigger] w.unit(j), old(w).unit(j)),
            w.unit(moved) == old(w).unit(moved),
            forall|j: UnitId|
                old(w).alive(j) && j != moved && j >= i ==> #[trigger] w.unit(j).status == old(
                    w,
                ).unit(j).status,
            forall|j: UnitId|
                old(w).alive(j) && j != moved && j < i ==> #[trigger] w.unit(j).status.engaged()
                    == (if enemy_adjacent(*old(w), moved, j) {
                    old(w).unit(j).status.engaged().insert(moved)
                } else {
                    old(w).unit(j).status.engaged().remove(moved)
                }),
            forall|j: UnitId| old(w).alive(j) && j != moved ==> (#[trigger] w.unit(j).status).wf(),
        decreases w.units@.len() - i,
    {
        if i != moved {
            let engage = ids_contain(&adjacent, i);
            let ghost w_before = *w;
            proof {
                if old(w).alive(i) {
                    assert((w.unit(i).status).wf());
                    assert(w.units@[i as int]->Some_0.status.engaged_with_units@.no_duplicates());
                }
            }
            let slot = vec_index_mut(&mut w.units, i);
            match slot {
                Some(unit) => {
                    if engage {
                        unit.status.engage_with(moved);
                    } else {
                        unit.status.disengage_with(moved);
                    }
                },
                _ => {},
            }
            proof {
                assert(forall|j: UnitId|
                    j < w.units@.len() && j != i ==> w.units@[j as int]
                        == w_before.units@[j as int]);
                assert(forall|j: UnitId|
                    old(w).alive(j) && j != i ==> #[trigger] w.unit(j) == w_before.unit(j));
                if old(w).alive(i) {
                    assert(w.alive(i));
                    assert(same_but_status(w.unit(i), w_before.unit(i)));
                    assert(same_but_status(w_before.unit(i), old(w).unit(i)));
                    assert(same_but_status(w.unit(i), old(w).unit(i)));
                    assert(w_before.unit(i).status == old(w).unit(i).status);
                    assert(w.unit(i).status.engaged() == (if enemy_adjacent(*old(w), moved, i) {
                        old(w).unit(i).status.engaged().insert(moved)
                    } else {
                        old(w).unit(i).status.engaged().remove(moved)
                    }));
                    assert((w.unit(i).status).wf());
                }
            }
        }
        i = i + 1;
    }

    let ghost w_mid = *w;
    let ghost adj_view = adjacent@;
    let slot = vec_index_mut(&mut w.units, moved);
    match slot {
        Some(unit) => {
            unit.status = UnitStatus { engaged_with_units: adjacent };
        },
        _ => {},
    }

    proof {
        assert(forall|j: UnitId|
            j < w.units@.len() && j != moved ==> w.units@[j as int] == w_mid.units@[j as int]);
        assert(w.alive(moved));
        assert(w.unit(moved).status.engaged_with_units@ == adj_view);
        assert forall|e: UnitId|
            #[trigger] w.unit(moved).status.engaged().contains(e) <==> enemy_adjacent(
                *old(w),
                moved,
                e,
            ) by {
            assert(w.unit(moved).status.engaged().contains(e) <==> adj_view.contains(e));
        }
        assert(same_but_status(w.unit(moved), old(w).unit(moved)));
        assert(w.unit(moved).status.wf());
        assert forall|i2: int, e: UnitId|
            0 <= i2 < w.units@.len() && w.units@[i2] is Some
                && #[trigger] w.units@[i2]->Some_0.status.engaged().contains(e) implies e
            < w.units@.len() && e != i2 by {
            if i2 == moved {
                assert(w.unit(moved).status.engaged().contains(e));
                assert(enemy_adjacent(*old(w), moved, e));
            } else {
                assert(old(w).alive(i2 as UnitId));
                let os = old(w).unit(i2 as UnitId).status.engaged();
                assert(w.unit(i2 as UnitId).status == w_mid.unit(i2 as UnitId).status);
                assert(w_mid.unit(i2 as UnitId).status.engaged() == (if enemy_adjacent(
                    *old(w),
                    moved,
                    i2 as UnitId,
                ) {
                    os.insert(moved)
                } else {
                    os.remove(moved)
                }));
                if os.contains(e) {
                    assert(old(w).units@[i2]->Some_0.status.engaged().contains(e));
                } else {
                    assert(e == moved);
                }
            }
        }
        assert forall|i2: int|
            0 <= i2 < w.units@.len() && w.units@[i2] is Some implies (
        #[trigger] w.units@[i2])->Some_0.wf() by {
            let u = w.units@[i2]->Some_0;
            if i2 != moved {
                assert(w.units@[i2] == w_mid.units@[i2]);
                assert(w_mid.alive(i2 as UnitId));
                assert(old(w).alive(i2 as UnitId));
                assert(same_but_status(w_mid.unit(i2 as UnitId), old(w).unit(i2 as UnitId)));
                assert((w_mid.unit(i2 as UnitId).status).wf());
            } else {
                assert(old(w).alive(i2 as UnitId));
            }
            assert(old(w).units@[i2]->Some_0.wf());
            assert(same_but_status(u, old(w).unit(i2 as UnitId)));
        }
        assert(w.wf());
        assert(forall|j: UnitId| w.alive(j) <==> old(w).alive(j));
        assert forall|j: UnitId| old(w).alive(j) implies same_but_status(
            #[trigger] w.unit(j),
            old(w).unit(j),
        ) by {
            if j != moved {
                assert(w.units@[j as int] == w_mid.units@[j as int]);
                assert(same_but_status(w_mid.unit(j), old(w).unit(j)));
            }
        }
        assert forall|j: UnitId| old(w).alive(j) && j != moved implies #[trigger] w.unit(
            j,
        ).status.engaged() == (if enemy_adjacent(*old(w), moved, j) {
            old(w).unit(j).status.engaged().insert(moved)
        } else {
            old(w).unit(j).status.engaged().remove(moved)
        }) by {
            assert(w.units@[j as int] == w_mid.units@[j as int]);
            assert(w_mid.unit(j).status.engaged() == (if enemy_adjacent(*old(w), moved, j) {
                old(w).unit(j).status.engaged().insert(moved)
            } else {
                old(w).unit(j).status.engaged().remove(moved)
            }));
        }
        if consistent_except(*old(w), moved) {
            assert forall|a: UnitId, b: UnitId|
                w.alive(a) && b < w.units@.len() implies (#[trigger] w.unit(
                a,
            ).status.engaged().contains(b) <==> enemy_adjacent(*w, a, b)) by {
                assert(w.alive(a) && old(w).alive(a));
                assert(same_but_status(w.unit(a), old(w).unit(a)));
                if w.alive(b) {
                    assert(same_but_status(w.unit(b), old(w).unit(b)));
                }
                assert(enemy_adjacent(*w, a, b) == enemy_adjacent(*old(w), a, b));
                if a == moved {
                    assert(w.unit(moved).status.engaged().contains(b) <==> enemy_adjacent(
                        *old(w),
                        moved,
                        b,
                    ));
                } else if b == moved {
                    assert(w.unit(a).status.engaged() == (if enemy_adjacent(*old(w), moved, a) {
                        old(w).unit(a).status.engaged().insert(moved)
                    } else {
                        old(w).unit(a).status.engaged().remove(moved)
                    }));
                    lemma_hex_dist_symmetric(
                        old(w).unit(a).position,
                        old(w).unit(moved).position,
                    );
                    assert(enemy_adjacent(*old(w), moved, a) == enemy_adjacent(*old(w), a, moved));
                } else {
                    assert(w.unit(a).status.engaged() == (if enemy_adjacent(*old(w), moved, a) {
                        old(w).unit(a).status.engaged().insert(moved)
                    } else {
                        old(w).unit(a).status.engaged().remove(moved)
                    }));
                    assert(old(w).unit(a).status.engaged().contains(b) <==> enemy_adjacent(
                        *old(w),
                        a,
                        b,
                    ));
                }
            }
        }
    }
}

} // verus!
