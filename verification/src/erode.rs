//! The one-shot batch erosion pass the generator runs after seeding a
//! fresh terrain: a large number of independent droplets, each started
//! at a uniformly random position of the generated region with no
//! sediment.

use vstd::prelude::*;

verus! {

use crate::FRAC;
use crate::fixed::Pos;
use crate::terrain::Terrain;
use crate::droplet::{run_droplet, walk};
use crate::generation::TERRAIN_SIZE;

/// Number of droplets of the one-shot batch pass.
pub const NUM_DROPLETS: u32 = 100000;

/// Iteration budget of one batch droplet.
pub const BATCH_MAX_ITERATIONS: u32 = 256;

/// The batch pass as a function of the droplet seed positions, in
/// order: each seed runs one zero-sediment droplet walk with the batch
/// iteration budget, to completion, before the next seed.
pub open spec fn seeds_pass(m: Map<(int, int), int>, seeds: Seq<(int, int)>, k: nat) -> Map<
    (int, int),
    int,
>
    decreases k,
{
    if k == 0 {
        m
    } else {
        let prev = seeds_pass(m, seeds, (k - 1) as nat);
        walk(prev, seeds[k - 1].0, seeds[k - 1].1, 0, BATCH_MAX_ITERATIONS as nat).0
    }
}

/// The first `k` droplets of the pass read only the first `k` seeds.
pub proof fn lemma_seeds_pass_prefix(
    m: Map<(int, int), int>,
    s1: Seq<(int, int)>,
    s2: Seq<(int, int)>,
    k: nat,
)
    requires
        forall|j: int| 0 <= j < k ==> s1[j] == s2[j],
    ensures
        seeds_pass(m, s1, k) == seeds_pass(m, s2, k),
    decreases k,
{
    if k > 0 {
        lemma_seeds_pass_prefix(m, s1, s2, (k - 1) as nat);
    }
}

/// Run `num_droplets` independent droplets, each seeded with no
/// sediment at a uniformly random position of the generated region.
/// The field afterwards is the batch pass under the sequence of seed
/// positions the rng produced.
pub fn erode_droplets(terrain: &mut Terrain, num_droplets: u32)
    requires
        old(terrain).data.wf(),
    ensures
        final(terrain).data.wf(),
        final(terrain).worldscale == old(terrain).worldscale,
        final(terrain).height == old(terrain).height,
        final(terrain).noisescale == old(terrain).noisescale,
        exists|seeds: Seq<(int, int)>|
            #![trigger seeds.len()]
            seeds.len() == num_droplets && (forall|j: int|
                0 <= j < seeds.len() ==> 0 <= (#[trigger] seeds[j]).0 < TERRAIN_SIZE * FRAC && 0
                    <= seeds[j].1 < TERRAIN_SIZE * FRAC) && final(terrain).data.grid()
                == seeds_pass(old(terrain).data.grid(), seeds, num_droplets as nat),
{
    let ghost g0 = old(terrain).data.grid();
    let ghost mut seeds: Seq<(int, int)> = Seq::empty();
    let bound: u32 = (TERRAIN_SIZE as u32) * (FRAC as u32);
    proof {
        assert(bound == 32768) by (nonlinear_arith)
            requires
                bound == (TERRAIN_SIZE as u32) * (FRAC as u32),
                TERRAIN_SIZE == 128,
                FRAC == 256,
        ;
    }
    let mut i: u32 = 0;
    while i < num_droplets
        invariant
            terrain.data.wf(),
            terrain.worldscale == old(terrain).worldscale,
            terrain.height == old(terrain).height,
            terrain.noisescale == old(terrain).noisescale,
            g0 == old(terrain).data.grid(),
            bound == 32768,
            i <= num_droplets,
            seeds.len() == i,
            forall|j: int|
                0 <= j < seeds.len() ==> 0 <= (#[trigger] seeds[j]).0 < TERRAIN_SIZE * FRAC && 0
                    <= seeds[j].1 < TERRAIN_SIZE * FRAC,
            terrain.data.grid() == seeds_pass(g0, seeds, i as nat),
        decreases num_droplets - i,
    {
        let ghost seeds0 = seeds;
        let rx = rand::random::<u32>();
        let ry = rand::random::<u32>();
        let start = Pos { x: (rx % bound) as i64, y: (ry % bound) as i64 };
        proof {
            seeds = seeds.push((start.x as int, start.y as int));
            lemma_seeds_pass_prefix(g0, seeds0, seeds, i as nat);
        }
        run_droplet(terrain, start, 0, BATCH_MAX_ITERATIONS);
        proof {
            assert(terrain.data.grid() == seeds_pass(g0, seeds, (i + 1) as nat));
        }
        i = i + 1;
    }
}

/// The full batch erosion pass with the default droplet count.
pub fn erode(terrain: &mut Terrain)
    requires
        old(terrain).data.wf(),
    ensures
        final(terrain).data.wf(),
        final(terrain).worldscale == old(terrain).worldscale,
        final(terrain).height == old(terrain).height,
        final(terrain).noisescale == old(terrain).noisescale,
        exists|seeds: Seq<(int, int)>|
            #![trigger seeds.len()]
            seeds.len() == NUM_DROPLETS && (forall|j: int|
                0 <= j < seeds.len() ==> 0 <= (#[trigger] seeds[j]).0 < TERRAIN_SIZE * FRAC && 0
                    <= seeds[j].1 < TERRAIN_SIZE * FRAC) && final(terrain).data.grid()
                == seeds_pass(old(terrain).data.grid(), seeds, NUM_DROPLETS as nat),
{
    erode_droplets(terrain, NUM_DROPLETS);
}

} // verus!
