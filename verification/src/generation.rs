//! The terrain generator: seed a fresh height field from coherent-noise
//! samples, then run the one-shot batch erosion pass over it.

use vstd::prelude::*;

verus! {

use crate::FRAC;
use crate::UNIT;
use crate::fixed::HEIGHT_LIMIT;
use crate::terrain::{samples_grid, Terrain, TerrainData};
use crate::erode::{seeds_pass, NUM_DROPLETS};

/// Side length of the generated region, in cells.
pub const TERRAIN_SIZE: usize = 128;

/// World scale of a generated terrain, in `UNIT` fixed point.
pub const TERRAIN_WORLDSCALE: i64 = 256 * UNIT;

/// Height multiplier of the noise, in `UNIT` fixed point.
pub const TERRAIN_HEIGHT: i64 = 50 * UNIT;

/// Noise-coordinate scale (0.005 rounded to `UNIT` fixed point).
pub const TERRAIN_NOISESCALE: i64 = 327;

/// Seed a fresh terrain from row-major noise samples of the
/// `TERRAIN_SIZE x TERRAIN_SIZE` region, then run the batch erosion
/// pass over it. The samples come from the caller's coherent-noise
/// backend, already scaled by the height multiplier.
pub fn generate_terrain_data(samples: &Vec<i64>) -> (t: Terrain)
    requires
        samples@.len() == TERRAIN_SIZE * TERRAIN_SIZE,
        forall|i: int|
            0 <= i < samples@.len() ==> -HEIGHT_LIMIT <= #[trigger] samples@[i] <= HEIGHT_LIMIT,
    ensures
        t.data.wf(),
        t.worldscale == TERRAIN_WORLDSCALE,
        t.height == TERRAIN_HEIGHT,
        t.noisescale == TERRAIN_NOISESCALE,
        exists|seeds: Seq<(int, int)>|
            #![trigger seeds.len()]
            seeds.len() == NUM_DROPLETS && (forall|j: int|
                0 <= j < seeds.len() ==> 0 <= (#[trigger] seeds[j]).0 < TERRAIN_SIZE * FRAC && 0
                    <= seeds[j].1 < TERRAIN_SIZE * FRAC) && t.data.grid() == seeds_pass(
                samples_grid(TERRAIN_SIZE as int, samples@),
                seeds,
                NUM_DROPLETS as nat,
            ),
{
    let data = TerrainData::from_samples(TERRAIN_SIZE, samples);
    let mut terrain = Terrain {
        data,
        worldscale: TERRAIN_WORLDSCALE,
        height: TERRAIN_HEIGHT,
        noisescale: TERRAIN_NOISESCALE,
    };
    crate::erode::erode(&mut terrain);
    terrain
}

} // verus!
