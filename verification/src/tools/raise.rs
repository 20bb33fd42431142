//! The raise brush: an additive sculpting tool that lifts the terrain
//! inside a disc, with linear falloff from full strength at the center
//! to nothing at the radius edge.

use vstd::prelude::*;

verus! {

use crate::FRAC;
use crate::UNIT;
use crate::fixed::{Pos, POS_LIMIT, HEIGHT_LIMIT, clamp_height};
use crate::terrain::{
    Terrain, TerrainData, bilin_map, grid_within, lemma_bilin_in_range, lemma_bilin_lattice,
    lemma_lattice_offset, frac_of, cell_of,
};
use crate::tools::{RADIUS_LIMIT, len_fp, strength_of, falloff, lemma_gate_disc,
    lemma_strength_bounds};

/// The x offset of the `k`-th brush cell, enumerating the square
/// `[-radius, radius) x [-radius, radius)` column by column.
pub open spec fn offset_dx(radius: int, k: int) -> int {
    -radius + k / (2 * radius)
}

/// The y offset of the `k`-th brush cell.
pub open spec fn offset_dy(radius: int, k: int) -> int {
    -radius + k % (2 * radius)
}

/// The field after the first `k` offsets of a raise pass with the given
/// center and radius: each offset strictly inside the radius receives
/// one bilinear modification by its falloff strength.
pub open spec fn raise_upto(
    m: Map<(int, int), int>,
    cx: int,
    cy: int,
    radius: int,
    k: nat,
) -> Map<(int, int), int>
    decreases k,
{
    if k == 0 {
        m
    } else {
        let prev = raise_upto(m, cx, cy, radius, (k - 1) as nat);
        let dx = offset_dx(radius, k - 1);
        let dy = offset_dy(radius, k - 1);
        if len_fp(dx, dy) < radius * FRAC {
            bilin_map(prev, cx + dx * FRAC, cy + dy * FRAC, strength_of(radius, dx, dy))
        } else {
            prev
        }
    }
}

/// Apply the raise brush at center `xy` with the given radius: every
/// integer offset in the square `[-radius, radius)^2` that lies strictly
/// inside the radius gets one additive bilinear modification, weighted
/// by the linear falloff.
pub fn trigger(xy: Pos, radius: i64, terrain: &mut Terrain)
    requires
        old(terrain).data.wf(),
        0 <= radius <= RADIUS_LIMIT,
        -(POS_LIMIT / 4) <= xy.x <= POS_LIMIT / 4,
        -(POS_LIMIT / 4) <= xy.y <= POS_LIMIT / 4,
    ensures
        final(terrain).data.wf(),
        final(terrain).worldscale == old(terrain).worldscale,
        final(terrain).height == old(terrain).height,
        final(terrain).noisescale == old(terrain).noisescale,
        final(terrain).data.grid() == raise_upto(
            old(terrain).data.grid(),
            xy.x as int,
            xy.y as int,
            radius as int,
            (4 * radius * radius) as nat,
        ),
{
    let ghost g0 = old(terrain).data.grid();
    let ghost cx = xy.x as int;
    let ghost cy = xy.y as int;
    let ghost r = radius as int;
    if radius == 0 {
        return ;
    }
    let mut x: i64 = -radius;
    proof {
        assert((x + radius) * (2 * radius) == 0) by (nonlinear_arith)
            requires
                x == -radius,
        ;
    }
    while x < radius
        invariant
            1 <= radius <= RADIUS_LIMIT,
            -radius <= x <= radius,
            -(POS_LIMIT / 4) <= xy.x <= POS_LIMIT / 4,
            -(POS_LIMIT / 4) <= xy.y <= POS_LIMIT / 4,
            cx == xy.x as int,
            cy == xy.y as int,
            r == radius as int,
            g0 == old(terrain).data.grid(),
            terrain.data.wf(),
            terrain.worldscale == old(terrain).worldscale,
            terrain.height == old(terrain).height,
            terrain.noisescale == old(terrain).noisescale,
            terrain.data.grid() == raise_upto(g0, cx, cy, r, ((x + radius) * (2 * radius)) as nat),
        decreases radius - x,
    {
        let mut y: i64 = -radius;
        while y < radius
            invariant
                1 <= radius <= RADIUS_LIMIT,
                -radius <= x < radius,
                -radius <= y <= radius,
                -(POS_LIMIT / 4) <= xy.x <= POS_LIMIT / 4,
                -(POS_LIMIT / 4) <= xy.y <= POS_LIMIT / 4,
                cx == xy.x as int,
                cy == xy.y as int,
                r == radius as int,
                g0 == old(terrain).data.grid(),
                terrain.data.wf(),
                terrain.worldscale == old(terrain).worldscale,
                terrain.height == old(terrain).height,
                terrain.noisescale == old(terrain).noisescale,
                terrain.data.grid() == raise_upto(
                    g0,
                    cx,
                    cy,
                    r,
                    ((x + radius) * (2 * radius) + (y + radius)) as nat,
                ),
            decreases radius - y,
        {
            let ghost k = ((x + radius) * (2 * radius) + (y + radius)) as nat;
            proof {
                assert(0 <= (x + radius) * (2 * radius) + (y + radius) < (2 * radius) * (2
                    * radius)) by (nonlinear_arith)
                    requires
                        1 <= radius,
                        -radius <= x < radius,
                        -radius <= y < radius,
                ;
                vstd::arithmetic::div_mod::lemma_fundamental_div_mod_converse(
                    k as int,
                    2 * r,
                    (x + radius) as int,
                    (y + radius) as int,
                );
                assert(offset_dx(r, k as int) == x);
                assert(offset_dy(r, k as int) == y);
            }
            match falloff(radius, x, y) {
                Some(s) => {
                    terrain.data.modify(Pos { x: xy.x + x * FRAC, y: xy.y + y * FRAC }, s);
                    proof {
                        assert(terrain.data.grid() == raise_upto(g0, cx, cy, r, (k + 1) as nat));
                    }
                },
                None => {
                    proof {
                        assert(terrain.data.grid() == raise_upto(g0, cx, cy, r, (k + 1) as nat));
                    }
                },
            }
            y = y + 1;
        }
        x = x + 1;
        proof {
            assert((x + radius - 1) * (2 * radius) + (2 * radius) == (x + radius) * (2 * radius))
                by (nonlinear_arith);
        }
    }
    proof {
        assert((radius + radius) * (2 * radius) == 4 * radius * radius) by (nonlinear_arith);
    }
}

/// A raise pass keeps every height within the height range.
pub proof fn lemma_raise_in_range(m: Map<(int, int), int>, cx: int, cy: int, radius: int, k: nat)
    requires
        grid_within(m, HEIGHT_LIMIT as int),
    ensures
        grid_within(raise_upto(m, cx, cy, radius, k), HEIGHT_LIMIT as int),
    decreases k,
{
    if k > 0 {
        lemma_raise_in_range(m, cx, cy, radius, (k - 1) as nat);
        let prev = raise_upto(m, cx, cy, radius, (k - 1) as nat);
        let dx = offset_dx(radius, k - 1);
        let dy = offset_dy(radius, k - 1);
        if len_fp(dx, dy) < radius * FRAC {
            lemma_bilin_in_range(prev, cx + dx * FRAC, cy + dy * FRAC, strength_of(radius, dx, dy));
        }
    }
}

/// The offsets of enumeration index `j` lie in the brush square, and
/// re-encoding them gives back `j`.
pub proof fn lemma_offset_inverse(radius: int, j: int)
    requires
        1 <= radius,
        0 <= j < 4 * radius * radius,
    ensures
        -radius <= offset_dx(radius, j) < radius,
        -radius <= offset_dy(radius, j) < radius,
        j == (offset_dx(radius, j) + radius) * (2 * radius) + (offset_dy(radius, j) + radius),
{
    let b = 2 * radius;
    vstd::arithmetic::div_mod::lemma_fundamental_div_mod(j, b);
    crate::fixed::lemma_mod_in_range(j, b);
    vstd::arithmetic::div_mod::lemma_div_pos_is_pos(j, b);
    assert(b * (2 * radius) - 1 == b * (2 * radius - 1) + (b - 1)) by (nonlinear_arith)
        requires
            b == 2 * radius,
    ;
    assert(4 * radius * radius == b * (2 * radius)) by (nonlinear_arith)
        requires
            b == 2 * radius,
    ;
    vstd::arithmetic::div_mod::lemma_fundamental_div_mod_converse(
        b * (2 * radius) - 1,
        b,
        2 * radius - 1,
        b - 1,
    );
    vstd::arithmetic::div_mod::lemma_div_is_ordered(j, b * (2 * radius) - 1, b);
    assert(j / b <= 2 * radius - 1);
    assert(b * (j / b) == (j / b) * b);
    assert((offset_dx(radius, j) + radius) == j / b);
}

/// Encoding an in-square offset pair gives an index inside the pass
/// whose offsets are that pair.
pub proof fn lemma_offset_unique(radius: int, dx: int, dy: int)
    requires
        1 <= radius,
        -radius <= dx < radius,
        -radius <= dy < radius,
    ensures
        0 <= (dx + radius) * (2 * radius) + (dy + radius) < 4 * radius * radius,
        offset_dx(radius, (dx + radius) * (2 * radius) + (dy + radius)) == dx,
        offset_dy(radius, (dx + radius) * (2 * radius) + (dy + radius)) == dy,
{
    let b = 2 * radius;
    let kk = (dx + radius) * b + (dy + radius);
    assert(0 <= kk && kk < 4 * radius * radius) by (nonlinear_arith)
        requires
            1 <= radius,
            -radius <= dx < radius,
            -radius <= dy < radius,
            b == 2 * radius,
            kk == (dx + radius) * b + (dy + radius),
    ;
    vstd::arithmetic::div_mod::lemma_fundamental_div_mod_converse(kk, b, dx + radius, dy + radius);
}

/// With the center on the lattice, each cell of the field is touched by
/// at most one offset of the raise pass: after the first `k` offsets a
/// cell holds its old height plus its own falloff strength (clamped)
/// if its offset lies inside the disc and has been processed, and its
/// old height otherwise.
pub proof fn lemma_raise_lattice_cell(
    m: Map<(int, int), int>,
    cx: int,
    cy: int,
    radius: int,
    k: nat,
    a: int,
    b: int,
)
    requires
        frac_of(cx) == 0,
        frac_of(cy) == 0,
        1 <= radius <= RADIUS_LIMIT,
        grid_within(m, HEIGHT_LIMIT as int),
        k <= 4 * radius * radius,
    ensures
        ({
            let dx = a - cell_of(cx);
            let dy = b - cell_of(cy);
            let g = raise_upto(m, cx, cy, radius, k);
            if -radius <= dx < radius && -radius <= dy < radius && (dx + radius) * (2 * radius) + (
            dy + radius) < k && len_fp(dx, dy) < radius * FRAC {
                g[(a, b)] == clamp_height(m[(a, b)] + strength_of(radius, dx, dy))
            } else {
                g[(a, b)] == m[(a, b)]
            }
        }),
    decreases k,
{
    let dx = a - cell_of(cx);
    let dy = b - cell_of(cy);
    let in_square = -radius <= dx < radius && -radius <= dy < radius;
    if in_square {
        lemma_offset_unique(radius, dx, dy);
    }
    if k == 0 {
    } else {
        let j = (k - 1) as nat;
        lemma_raise_lattice_cell(m, cx, cy, radius, j, a, b);
        lemma_raise_in_range(m, cx, cy, radius, j);
        let prev = raise_upto(m, cx, cy, radius, j);
        let dxj = offset_dx(radius, j as int);
        let dyj = offset_dy(radius, j as int);
        lemma_offset_inverse(radius, j as int);
        let pxj = cx + dxj * FRAC;
        let pyj = cy + dyj * FRAC;
        lemma_lattice_offset(cx, dxj);
        lemma_lattice_offset(cy, dyj);
        if len_fp(dxj, dyj) < radius * FRAC {
            lemma_bilin_lattice(prev, pxj, pyj, strength_of(radius, dxj, dyj));
            assert(raise_upto(m, cx, cy, radius, k) == bilin_map(
                prev,
                pxj,
                pyj,
                strength_of(radius, dxj, dyj),
            ));
            if dxj == dx && dyj == dy {
                assert(a == cell_of(pxj) && b == cell_of(pyj));
                assert(prev[(a, b)] == m[(a, b)]);
            } else {
                assert(!(a == cell_of(pxj) && b == cell_of(pyj)));
            }
        } else {
            if in_square && dxj == dx && dyj == dy {
                assert((dx + radius) * (2 * radius) + (dy + radius) == j as int);
            }
        }
    }
}

/// Brush falloff boundary, outer half: with the brush center on the
/// lattice, a raise of radius `R` leaves every cell at squared
/// Euclidean distance at least `R * R` from the center unmodified.
/// The lattice-center condition is essential: at a subpixel center the
/// four-corner bilinear writes of an offset just inside the radius can
/// touch a cell just past it.
pub proof fn lemma_raise_outside_disc(
    m: Map<(int, int), int>,
    cx: int,
    cy: int,
    radius: int,
    a: int,
    b: int,
)
    requires
        frac_of(cx) == 0,
        frac_of(cy) == 0,
        1 <= radius <= RADIUS_LIMIT,
        grid_within(m, HEIGHT_LIMIT as int),
        ({
            let dx = a - cell_of(cx);
            let dy = b - cell_of(cy);
            dx * dx + dy * dy >= radius * radius
        }),
    ensures
        raise_upto(m, cx, cy, radius, (4 * radius * radius) as nat)[(a, b)] == m[(a, b)],
{
    let dx = a - cell_of(cx);
    let dy = b - cell_of(cy);
    lemma_gate_disc(radius, dx, dy);
    lemma_raise_lattice_cell(m, cx, cy, radius, (4 * radius * radius) as nat, a, b);
}

/// Brush falloff boundary, inner half: with the brush center on the
/// lattice and room below the height cap, a raise adds exactly `UNIT`
/// (full strength) to the center cell and strictly less to every other
/// cell, so the center's contribution strictly exceeds that of any
/// off-center cell of the disc.
#[verifier::rlimit(100)]
pub proof fn lemma_raise_center_strict(
    m: Map<(int, int), int>,
    cx: int,
    cy: int,
    radius: int,
    a: int,
    b: int,
)
    requires
        frac_of(cx) == 0,
        frac_of(cy) == 0,
        1 <= radius <= RADIUS_LIMIT,
        grid_within(m, HEIGHT_LIMIT - UNIT as int),
        !(a == cell_of(cx) && b == cell_of(cy)),
    ensures
        ({
            let g = raise_upto(m, cx, cy, radius, (4 * radius * radius) as nat);
            &&& g[(cell_of(cx), cell_of(cy))] - m[(cell_of(cx), cell_of(cy))] == UNIT
            &&& g[(a, b)] - m[(a, b)] < UNIT
        }),
{
    let kk = (4 * radius * radius) as nat;
    assert(grid_within(m, HEIGHT_LIMIT as int));
    lemma_raise_lattice_cell(m, cx, cy, radius, kk, cell_of(cx), cell_of(cy));
    lemma_raise_lattice_cell(m, cx, cy, radius, kk, a, b);
    lemma_offset_unique(radius, 0, 0);
    lemma_gate_disc(radius, 0, 0);
    assert(0 * 0 + 0 * 0 < radius * radius) by (nonlinear_arith)
        requires
            radius >= 1,
    ;
    lemma_strength_bounds(radius, 0, 0);
    assert(clamp_height(m[(cell_of(cx), cell_of(cy))] + UNIT) == m[(cell_of(cx), cell_of(cy))]
        + UNIT);
    let dx = a - cell_of(cx);
    let dy = b - cell_of(cy);
    if -radius <= dx < radius && -radius <= dy < radius && len_fp(dx, dy) < radius * FRAC {
        assert(dx != 0 || dy != 0);
        lemma_strength_bounds(radius, dx, dy);
        assert(clamp_height(m[(a, b)] + strength_of(radius, dx, dy)) - m[(a, b)] < UNIT);
    }
}

/// Brush falloff boundary over a height field: after a raise pass with
/// a lattice-aligned center, every cell at squared Euclidean distance
/// at least `radius * radius` from the center holds its old height.
pub proof fn lemma_trigger_outside_disc(
    t0: TerrainData,
    t1: TerrainData,
    c: Pos,
    radius: int,
    a: int,
    b: int,
)
    requires
        t0.wf(),
        c.is_lattice(),
        1 <= radius <= RADIUS_LIMIT,
        t1.grid() == raise_upto(
            t0.grid(),
            c.x as int,
            c.y as int,
            radius,
            (4 * radius * radius) as nat,
        ),
        ({
            let dx = a - c.cell_x();
            let dy = b - c.cell_y();
            dx * dx + dy * dy >= radius * radius
        }),
    ensures
        t1.at(a, b) == t0.at(a, b),
{
    t0.lemma_grid_in_range();
    lemma_raise_outside_disc(t0.grid(), c.x as int, c.y as int, radius, a, b);
    assert(t1.grid()[(a, b)] == t1.at(a, b));
    assert(t0.grid()[(a, b)] == t0.at(a, b));
}

} // verus!
