//! Axial hex-grid coordinates and hexagonal distance.

use vstd::prelude::*;

verus! {

/// Coordinates stay well inside this bound so that no coordinate
/// difference, nor a sum of two coordinates of one hex, can overflow an
/// `i32` — the grid library subtracts and adds them in `i32`.
pub const COORD_LIMIT: i32 = 0x1000_0000;

/// An axial hex coordinate: `q` is the column axis, `r` the diagonal row
/// axis; the implicit cube coordinate is `-(q + r)`.
#[derive(Clone, Copy, Debug, PartialEq, Eq, Structural, Hash)]
pub struct HexCoord {
    pub q: i32,
    pub r: i32,
}

pub open spec fn abs_int(x: int) -> int {
    if x < 0 {
        -x
    } else {
        x
    }
}

pub open spec fn max3(a: int, b: int, c: int) -> int {
    if a >= b && a >= c {
        a
    } else if b >= c {
        b
    } else {
        c
    }
}

/// Hexagonal (cube) distance between two axial coordinates: the largest
/// absolute cube-component difference.
pub open spec fn hex_dist(a: HexCoord, b: HexCoord) -> int {
    let dq = a.q - b.q;
    let dr = a.r - b.r;
    max3(abs_int(dq), abs_int(dr), abs_int(dq + dr))
}

pub open spec fn in_coord_range(c: HexCoord) -> bool {
    -COORD_LIMIT < c.q < COORD_LIMIT && -COORD_LIMIT < c.r < COORD_LIMIT
}

impl HexCoord {
    pub fn new(q: i32, r: i32) -> (res: HexCoord)
        ensures
            res == (HexCoord { q, r }),
    {
        HexCoord { q, r }
    }
}

fn abs_i64(x: i64) -> (res: i64)
    requires
        x > i64::MIN,
    ensures
        res == abs_int(x as int),
{
    if x < 0 {
        -x
    } else {
        x
    }
}

/// Hexagonal distance between two coordinates, as the grid algorithms use
/// it: two units are adjacent exactly when their distance is 1.
pub fn hex_distance(a: HexCoord, b: HexCoord) -> (res: u32)
    requires
        in_coord_range(a),
        in_coord_range(b),
    ensures
        res == hex_dist(a, b),
{
    proof {
        lemma_hex_dist_bound(a, b);
    }
    let dq: i64 = a.q as i64 - b.q as i64;
    let dr: i64 = a.r as i64 - b.r as i64;
    let aq = abs_i64(dq);
    let ar = abs_i64(dr);
    let as_ = abs_i64(dq + dr);
    let m = if aq >= ar && aq >= as_ {
        aq
    } else if ar >= as_ {
        ar
    } else {
        as_
    };
    m as u32
}

/// Within the coordinate range, a distance always fits a `u32`.
pub proof fn lemma_hex_dist_bound(a: HexCoord, b: HexCoord)
    requires
        in_coord_range(a),
        in_coord_range(b),
    ensures
        0 <= hex_dist(a, b) <= u32::MAX,
{
}

/// Distance is symmetric, so adjacency is a mutual relation.
pub proof fn lemma_hex_dist_symmetric(a: HexCoord, b: HexCoord)
    ensures
        hex_dist(a, b) == hex_dist(b, a),
{
}

} // verus!
