//! The interactive sculpting brushes: the brush-kind selection and the
//! radius-weighted falloff kernel both brushes share.

pub mod erode;
pub mod raise;

use vstd::prelude::*;

verus! {

use crate::{FRAC, FRAC2, UNIT};
use crate::fixed::{sqrt_floor, isqrt, floor_div, POS_LIMIT};
use crate::terrain::Terrain;

/// Largest supported brush radius, in cells.
pub const RADIUS_LIMIT: i64 = 4096;

/// The two interactive terrain tools.
pub enum Tool {
    Erode,
    Raise,
}

/// The tool currently selected in the editor.
pub struct SelectedTool(pub Tool);

/// The Euclidean length of integer offset `(dx, dy)` in subpixel fixed
/// point: the integer square root of the squared length scaled by `FRAC2`.
pub open spec fn len_fp(dx: int, dy: int) -> int {
    sqrt_floor((dx * dx + dy * dy) * (FRAC2 as int))
}

/// The brush falloff at integer offset `(dx, dy)` from the center, in
/// `UNIT` fixed point: `(radius - length) / radius`, linear from full
/// strength at the center to zero at the radius edge.
pub open spec fn strength_of(radius: int, dx: int, dy: int) -> int {
    ((radius * FRAC - len_fp(dx, dy)) * UNIT) / (radius * FRAC)
}

/// Compute the falloff at offset `(dx, dy)`: the strength in `UNIT`
/// fixed point for offsets strictly inside the radius, `None` at and
/// beyond it (where the falloff is not positive). Fixed-point
/// quantization: beyond radius 256 the strength can floor to zero
/// strictly inside the disc, and beyond radius 127 two offsets at
/// different distances can share a strength; below those radii the
/// falloff is positive inside the disc and strictly distance-ordered.
pub fn falloff(radius: i64, dx: i64, dy: i64) -> (r: Option<i64>)
    requires
        1 <= radius <= RADIUS_LIMIT,
        -radius <= dx <= radius,
        -radius <= dy <= radius,
    ensures
        if len_fp(dx as int, dy as int) < radius * FRAC {
            r is Some && r->0 == strength_of(radius as int, dx as int, dy as int) && 0 <= r->0
                <= UNIT
        } else {
            r is None
        },
{
    proof {
        assert(0 <= dx * dx <= RADIUS_LIMIT * RADIUS_LIMIT && 0 <= dy * dy <= RADIUS_LIMIT
            * RADIUS_LIMIT) by (nonlinear_arith)
            requires
                -RADIUS_LIMIT <= dx <= RADIUS_LIMIT,
                -RADIUS_LIMIT <= dy <= RADIUS_LIMIT,
        ;
    }
    let d2 = dx * dx + dy * dy;
    let l64 = isqrt((d2 as u128) * (FRAC2 as u128));
    proof {
        assert(l64 * l64 <= (d2 as u128) * (FRAC2 as u128));
        assert(l64 <= 0x8000_0000) by (nonlinear_arith)
            requires
                l64 * l64 <= (d2 as u128) * (FRAC2 as u128),
                (d2 as u128) * (FRAC2 as u128) < 0x4000_0000_0000_0000,
        ;
    }
    let l = l64 as i64;
    let rf = radius * FRAC;
    if l < rf {
        proof {
            vstd::arithmetic::div_mod::lemma_div_multiples_vanish(UNIT as int, rf as int);
            assert(rf * UNIT == UNIT * rf);
            assert(0 <= (rf - l) as int * (UNIT as int) <= rf as int * (UNIT as int))
                by (nonlinear_arith)
                requires
                    0 <= l < rf,
                    UNIT > 0,
            ;
            vstd::arithmetic::div_mod::lemma_div_pos_is_pos((rf - l) as int * (UNIT as int),
                rf as int);
            vstd::arithmetic::div_mod::lemma_div_is_ordered((rf - l) as int * (UNIT as int),
                rf as int * (UNIT as int), rf as int);
        }
        let s = floor_div((rf - l) * UNIT, rf);
        Some(s)
    } else {
        None
    }
}

/// The falloff gate in cell terms: an offset lies strictly inside the
/// brush radius exactly when its squared Euclidean length does.
pub proof fn lemma_gate_disc(radius: int, dx: int, dy: int)
    requires
        1 <= radius <= RADIUS_LIMIT,
    ensures
        len_fp(dx, dy) < radius * FRAC <==> dx * dx + dy * dy < radius * radius,
{
    let d2 = dx * dx + dy * dy;
    assert(dx * dx + dy * dy >= 0) by (nonlinear_arith);
    let n = d2 * (FRAC2 as int);
    crate::fixed::lemma_sqrt_floor_bounds(n);
    let l = len_fp(dx, dy);
    let rf = radius * FRAC;
    assert(rf >= FRAC);
    assert(rf * rf == (radius * radius) * (FRAC2 as int)) by (nonlinear_arith)
        requires
            rf == radius * FRAC,
            FRAC == 256,
            FRAC2 == 65536,
    ;
    if l < rf {
        assert((l + 1) * (l + 1) <= rf * rf) by (nonlinear_arith)
            requires
                0 <= l,
                l < rf,
        ;
        assert(d2 < radius * radius);
    }
    if d2 < radius * radius {
        assert(n <= (radius * radius) * (FRAC2 as int) - (FRAC2 as int));
        assert(l < rf) by (nonlinear_arith)
            requires
                0 <= l,
                l * l <= n,
                n < rf * rf,
                rf >= 1,
                rf * rf == (radius * radius) * (FRAC2 as int),
        ;
    }
}

/// Inside the radius the falloff strength lies in `[0, UNIT]`: exactly
/// `UNIT` at the center offset, strictly below it anywhere else.
pub proof fn lemma_strength_bounds(radius: int, dx: int, dy: int)
    requires
        1 <= radius <= RADIUS_LIMIT,
        len_fp(dx, dy) < radius * FRAC,
    ensures
        0 <= strength_of(radius, dx, dy) <= UNIT,
        dx == 0 && dy == 0 ==> strength_of(radius, dx, dy) == UNIT,
        dx != 0 || dy != 0 ==> strength_of(radius, dx, dy) < UNIT,
{
    let d2 = dx * dx + dy * dy;
    assert(dx * dx + dy * dy >= 0) by (nonlinear_arith);
    let n = d2 * (FRAC2 as int);
    assert(n == d2 * 65536) by (nonlinear_arith)
        requires
            n == d2 * (FRAC2 as int),
            FRAC2 == 65536,
    ;
    crate::fixed::lemma_sqrt_floor_bounds(n);
    let l = len_fp(dx, dy);
    let rf = radius * FRAC;
    assert(rf >= FRAC);
    let u = UNIT as int;
    vstd::arithmetic::div_mod::lemma_div_multiples_vanish(u, rf);
    assert(rf * u == u * rf);
    assert(0 <= (rf - l) * u <= rf * u) by (nonlinear_arith)
        requires
            0 <= l < rf,
            u > 0,
    ;
    vstd::arithmetic::div_mod::lemma_div_pos_is_pos((rf - l) * u, rf);
    vstd::arithmetic::div_mod::lemma_div_is_ordered((rf - l) * u, rf * u, rf);
    if dx == 0 && dy == 0 {
        assert(dx * dx + dy * dy == 0) by (nonlinear_arith)
            requires
                dx == 0,
                dy == 0,
        ;
        assert(n == 0);
        assert(l == 0) by (nonlinear_arith)
            requires
                0 <= l,
                l * l <= 0,
        ;
        assert((rf - 0) * u == rf * u);
    } else {
        assert(d2 >= 1) by (nonlinear_arith)
            requires
                d2 == dx * dx + dy * dy,
                dx != 0 || dy != 0,
        ;
        assert(n >= FRAC2);
        assert(l >= FRAC) by (nonlinear_arith)
            requires
                0 <= l,
                n < (l + 1) * (l + 1),
                n >= 65536,
                FRAC == 256,
        ;
        assert((rf - l) * u <= (rf - FRAC) * u) by (nonlinear_arith)
            requires
                l >= FRAC,
                u > 0,
        ;
        assert((FRAC as int) * u >= rf) by (nonlinear_arith)
            requires
                FRAC == 256,
                u == 65536,
                rf == radius * FRAC,
                radius <= RADIUS_LIMIT,
                RADIUS_LIMIT == 4096,
        ;
        assert((rf - FRAC) * u == rf * u - (FRAC as int) * u) by (nonlinear_arith);
        assert(rf * (u - 1) == rf * u - rf) by (nonlinear_arith);
        assert((rf - l) * u <= rf * (u - 1));
        vstd::arithmetic::div_mod::lemma_div_is_ordered((rf - l) * u, rf * (u - 1), rf);
        vstd::arithmetic::div_mod::lemma_div_multiples_vanish(u - 1, rf);
        assert(rf * (u - 1) == (u - 1) * rf);
        assert(strength_of(radius, dx, dy) <= u - 1);
    }
}

/// Dispatch one interactive brush trigger to the selected tool, as the
/// editor's input layer does: raise uses the cursor radius, erode its
/// fixed radius of 25 cells.
pub fn apply_tool(selected: &SelectedTool, pos: crate::fixed::Pos, radius: i64, terrain: &mut Terrain)
    requires
        old(terrain).data.wf(),
        0 <= radius <= RADIUS_LIMIT,
        -(POS_LIMIT / 4) <= pos.x <= POS_LIMIT / 4,
        -(POS_LIMIT / 4) <= pos.y <= POS_LIMIT / 4,
    ensures
        final(terrain).data.wf(),
        final(terrain).worldscale == old(terrain).worldscale,
        final(terrain).height == old(terrain).height,
        final(terrain).noisescale == old(terrain).noisescale,
        ({
            match selected.0 {
                Tool::Raise => final(terrain).data.grid() == raise::raise_upto(
                    old(terrain).data.grid(),
                    pos.x as int,
                    pos.y as int,
                    radius as int,
                    (4 * radius * radius) as nat,
                ),
                Tool::Erode => exists|draws: Seq<u32>|
                    #![trigger draws.len()]
                    draws.len() == 4 * 25 * 25 && final(terrain).data.grid() == erode::erode_upto(
                        old(terrain).data.grid(),
                        pos.x as int,
                        pos.y as int,
                        25,
                        draws,
                        (4 * 25 * 25) as nat,
                    ),
            }
        }),
{
    match selected.0 {
        Tool::Raise => raise::trigger(pos, radius, terrain),
        Tool::Erode => erode::trigger(pos, 25, terrain),
    }
}

} // verus!
