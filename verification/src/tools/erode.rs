//! The erode brush: a stochastic sculpting tool that spawns hydraulic
//! droplets inside a disc, thinning them out toward the radius edge in
//! proportion to the falloff, for a natural, non-uniform disturbed look.

use vstd::prelude::*;

verus! {

use crate::FRAC;
use crate::UNIT;
use crate::fixed::{Pos, POS_LIMIT};
use crate::terrain::Terrain;
use crate::droplet::{run_droplet, walk, MAX_ITERATIONS};
use crate::tools::{RADIUS_LIMIT, falloff, len_fp, strength_of};
use crate::tools::raise::{offset_dx, offset_dy};

/// Whether a random draw spawns a droplet at falloff strength `s`: the
/// draw succeeds with probability `s / UNIT` over the `u32` range.
pub open spec fn spawns(draw: u32, s: int) -> bool {
    (draw as int) < s * 0x1_0000
}

/// The erode pass as a function of the per-offset random draws: in
/// scan order over the brush square, each offset strictly inside the
/// radius whose draw succeeds runs one zero-sediment droplet walk at
/// that offset, to completion, before the next offset.
pub open spec fn erode_upto(
    m: Map<(int, int), int>,
    cx: int,
    cy: int,
    radius: int,
    draws: Seq<u32>,
    k: nat,
) -> Map<(int, int), int>
    decreases k,
{
    if k == 0 {
        m
    } else {
        let prev = erode_upto(m, cx, cy, radius, draws, (k - 1) as nat);
        let dx = offset_dx(radius, k - 1);
        let dy = offset_dy(radius, k - 1);
        if len_fp(dx, dy) < radius * FRAC && spawns(draws[k - 1], strength_of(radius, dx, dy)) {
            walk(prev, cx + dx * FRAC, cy + dy * FRAC, 0, MAX_ITERATIONS as nat).0
        } else {
            prev
        }
    }
}

/// The first `k` offsets of the pass read only the first `k` draws.
pub proof fn lemma_erode_upto_prefix(
    m: Map<(int, int), int>,
    cx: int,
    cy: int,
    radius: int,
    d1: Seq<u32>,
    d2: Seq<u32>,
    k: nat,
)
    requires
        forall|j: int| 0 <= j < k ==> d1[j] == d2[j],
    ensures
        erode_upto(m, cx, cy, radius, d1, k) == erode_upto(m, cx, cy, radius, d2, k),
    decreases k,
{
    if k > 0 {
        lemma_erode_upto_prefix(m, cx, cy, radius, d1, d2, (k - 1) as nat);
    }
}

/// Apply the erode brush at center `xy` with the given radius: at each
/// integer offset strictly inside the radius, a random draw succeeds
/// with probability equal to the falloff strength and spawns one
/// droplet there with no sediment, run to completion before the next
/// offset. The field afterwards is the erode pass under the sequence
/// of draws that came out of the rng.
pub fn trigger(xy: Pos, radius: i64, terrain: &mut Terrain)
    requires
        old(terrain).data.wf(),
        0 <= radius <= RADIUS_LIMIT,
        -(POS_LIMIT / 4) <= xy.x <= POS_LIMIT / 4,
        -(POS_LIMIT / 4) <= xy.y <= POS_LIMIT / 4,
    ensures
        final(terrain).data.wf(),
        final(terrain).worldscale == old(terrain).worldscale,
        final(terrain).height == old(terrain).height,
        final(terrain).noisescale == old(terrain).noisescale,
        exists|draws: Seq<u32>|
            #![trigger draws.len()]
            draws.len() == 4 * radius * radius && final(terrain).data.grid() == erode_upto(
                old(terrain).data.grid(),
                xy.x as int,
                xy.y as int,
                radius as int,
                draws,
                (4 * radius * radius) as nat,
            ),
{
    let ghost g0 = old(terrain).data.grid();
    let ghost cx = xy.x as int;
    let ghost cy = xy.y as int;
    let ghost r = radius as int;
    let ghost mut draws: Seq<u32> = Seq::empty();
    if radius == 0 {
        proof {
            assert(draws.len() == 4 * radius * radius && terrain.data.grid() == erode_upto(
                g0,
                cx,
                cy,
                r,
                draws,
                (4 * radius * radius) as nat,
            ));
        }
        return ;
    }
    let mut x: i64 = -radius;
    proof {
        assert((x + radius) * (2 * radius) == 0) by (nonlinear_arith)
            requires
                x == -radius,
        ;
    }
    while x < radius
        invariant
            1 <= radius <= RADIUS_LIMIT,
            -radius <= x <= radius,
            -(POS_LIMIT / 4) <= xy.x <= POS_LIMIT / 4,
            -(POS_LIMIT / 4) <= xy.y <= POS_LIMIT / 4,
            cx == xy.x as int,
            cy == xy.y as int,
            r == radius as int,
            g0 == old(terrain).data.grid(),
            terrain.data.wf(),
            terrain.worldscale == old(terrain).worldscale,
            terrain.height == old(terrain).height,
            terrain.noisescale == old(terrain).noisescale,
            draws.len() == (x + radius) * (2 * radius),
            terrain.data.grid() == erode_upto(
                g0,
                cx,
                cy,
                r,
                draws,
                ((x + radius) * (2 * radius)) as nat,
            ),
        decreases radius - x,
    {
        let mut y: i64 = -radius;
        while y < radius
            invariant
                1 <= radius <= RADIUS_LIMIT,
                -radius <= x < radius,
                -radius <= y <= radius,
                -(POS_LIMIT / 4) <= xy.x <= POS_LIMIT / 4,
                -(POS_LIMIT / 4) <= xy.y <= POS_LIMIT / 4,
                cx == xy.x as int,
                cy == xy.y as int,
                r == radius as int,
                g0 == old(terrain).data.grid(),
                terrain.data.wf(),
                terrain.worldscale == old(terrain).worldscale,
                terrain.height == old(terrain).height,
                terrain.noisescale == old(terrain).noisescale,
                draws.len() == (x + radius) * (2 * radius) + (y + radius),
                terrain.data.grid() == erode_upto(
                    g0,
                    cx,
                    cy,
                    r,
                    draws,
                    ((x + radius) * (2 * radius) + (y + radius)) as nat,
                ),
            decreases radius - y,
        {
            let ghost k = ((x + radius) * (2 * radius) + (y + radius)) as nat;
            let ghost draws0 = draws;
            proof {
                assert(0 <= (x + radius) * (2 * radius) + (y + radius) < (2 * radius) * (2
                    * radius)) by (nonlinear_arith)
                    requires
                        1 <= radius,
                        -radius <= x < radius,
                        -radius <= y < radius,
                ;
                vstd::arithmetic::div_mod::lemma_fundamental_div_mod_converse(
                    k as int,
                    2 * r,
                    (x + radius) as int,
                    (y + radius) as int,
                );
                assert(offset_dx(r, k as int) == x);
                assert(offset_dy(r, k as int) == y);
            }
            match falloff(radius, x, y) {
                Some(s) => {
                    let draw = rand::random::<u32>();
                    proof {
                        draws = draws.push(draw);
                        lemma_erode_upto_prefix(g0, cx, cy, r, draws0, draws, k);
                    }
                    // A draw below `s / UNIT` of the u32 range succeeds
                    // with probability equal to the falloff strength.
                    let scale = 0x1_0000_0000u64 / (UNIT as u64);
                    let threshold = (s as u64) * scale;
                    if (draw as u64) < threshold {
                        let start = Pos { x: xy.x + x * FRAC, y: xy.y + y * FRAC };
                        run_droplet(terrain, start, 0, MAX_ITERATIONS);
                        proof {
                            assert(spawns(draw, strength_of(r, x as int, y as int)));
                            assert(terrain.data.grid() == erode_upto(g0, cx, cy, r, draws, (k
                                + 1) as nat));
                        }
                    } else {
                        proof {
                            assert(!spawns(draw, strength_of(r, x as int, y as int)));
                            assert(terrain.data.grid() == erode_upto(g0, cx, cy, r, draws, (k
                                + 1) as nat));
                        }
                    }
                },
                None => {
                    proof {
                        draws = draws.push(0u32);
                        lemma_erode_upto_prefix(g0, cx, cy, r, draws0, draws, k);
                        assert(terrain.data.grid() == erode_upto(g0, cx, cy, r, draws, (k
                            + 1) as nat));
                    }
                },
            }
            y = y + 1;
        }
        x = x + 1;
        proof {
            assert((x + radius - 1) * (2 * radius) + (2 * radius) == (x + radius) * (2 * radius))
                by (nonlinear_arith);
        }
    }
    proof {
        assert((radius + radius) * (2 * radius) == 4 * radius * radius) by (nonlinear_arith);
        assert(draws.len() == 4 * radius * radius && terrain.data.grid() == erode_upto(
            g0,
            cx,
            cy,
            r,
            draws,
            (4 * radius * radius) as nat,
        ));
    }
}

} // verus!
