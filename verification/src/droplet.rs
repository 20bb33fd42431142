//! The hydraulic-erosion particle: an ephemeral droplet that walks
//! downhill, eroding material while it can carry more sediment and
//! depositing it where the ground rises, until it runs dry or its
//! iteration budget is spent.

use vstd::prelude::*;

verus! {

use crate::FRAC;
use crate::fixed::{Pos, POS_LIMIT, HEIGHT_LIMIT, DELTA_LIMIT};
use crate::terrain::{
    Terrain, TerrainData, bilin_map, sample_m, slope_step_x_m, slope_step_y_m,
    lemma_sample_m_agrees, lemma_slope_m_agrees,
};

/// Iteration budget of one interactively triggered droplet.
pub const MAX_ITERATIONS: u32 = 1028;

/// A droplet stops eroding once it carries this much sediment.
pub const MAX_CARRIED_SEDIMENT: i64 = 65536;

/// Height eroded from the ground by one downhill step.
pub const EROSION_RATE: i64 = 7864;

/// Largest height deposited back by one uphill (basin) step.
pub const DEPOSITION_RATE: i64 = 13107;

/// A droplet whose sediment falls to this level after a deposit dies.
pub const DRY_THRESHOLD: i64 = 5243;

/// The exact transition one droplet step makes: how the field and the
/// droplet after the step relate to the ones before it.
pub open spec fn step_rel(t0: TerrainData, d0: Droplet, t1: TerrainData, d1: Droplet) -> bool {
    let px = d0.xy.x as int;
    let py = d0.xy.y as int;
    let nx = px + t0.slope_step_x(px, py);
    let ny = py + t0.slope_step_y(px, py);
    let hd = t0.spec_sample(nx, ny) - t0.spec_sample(px, py);
    if hd > 0 {
        let dep = vstd::math::min(d0.sediment as int, DEPOSITION_RATE as int);
        &&& d1.xy == d0.xy
        &&& d1.sediment == d0.sediment - dep
        &&& d1.alive == if d0.sediment - dep <= DRY_THRESHOLD {
            false
        } else {
            d0.alive
        }
        &&& t1.grid() == bilin_map(t0.grid(), px, py, dep)
    } else {
        &&& d1.xy.x == nx
        &&& d1.xy.y == ny
        &&& d1.alive == d0.alive
        &&& if d0.sediment < MAX_CARRIED_SEDIMENT {
            d1.sediment == d0.sediment + EROSION_RATE && t1.grid() == bilin_map(
                t0.grid(),
                nx,
                ny,
                -(EROSION_RATE as int),
            )
        } else {
            d1.sediment == d0.sediment && t1.grid() == t0.grid()
        }
    }
}

/// An ephemeral erosion particle: position, carried sediment, alive flag.
pub struct Droplet {
    pub xy: Pos,
    pub sediment: i64,
    pub alive: bool,
}

impl Droplet {
    /// Carried sediment is nonnegative and can exceed the carrying
    /// limit by at most one erosion step.
    pub open spec fn wf(self) -> bool {
        0 <= self.sediment <= MAX_CARRIED_SEDIMENT + EROSION_RATE
    }

    /// A fresh, alive droplet.
    pub fn new(xy: Pos, sediment: i64) -> (d: Self)
        requires
            0 <= sediment <= MAX_CARRIED_SEDIMENT,
        ensures
            d.wf(),
            d.xy == xy,
            d.sediment == sediment,
            d.alive,
    {
        Droplet { xy, sediment, alive: true }
    }

    /// One step of the droplet state machine. Follow the downhill slope
    /// one cell; where the ground ahead rises, deposit carried sediment
    /// at the current position and die when running dry; otherwise move
    /// and, while below the carrying limit, erode the ground at the new
    /// position.
    pub fn step(&mut self, terrain: &mut Terrain)
        requires
            old(self).wf(),
            old(terrain).data.wf(),
            -(POS_LIMIT - 2 * FRAC) <= old(self).xy.x <= POS_LIMIT - 2 * FRAC,
            -(POS_LIMIT - 2 * FRAC) <= old(self).xy.y <= POS_LIMIT - 2 * FRAC,
        ensures
            final(self).wf(),
            final(terrain).data.wf(),
            final(terrain).worldscale == old(terrain).worldscale,
            final(terrain).height == old(terrain).height,
            final(terrain).noisescale == old(terrain).noisescale,
            -FRAC <= final(self).xy.x - old(self).xy.x <= FRAC,
            -FRAC <= final(self).xy.y - old(self).xy.y <= FRAC,
            step_rel(old(terrain).data, *old(self), final(terrain).data, *final(self)),
    {
        let slope_vector_option = terrain.data.get_slope_vector(self.xy);
        match slope_vector_option {
            Some(slope_vector) => {
                let new_xy = Pos { x: self.xy.x + slope_vector.x, y: self.xy.y + slope_vector.y };
                let height_difference = terrain.data.sample(new_xy).unwrap() - terrain.data.sample(
                    self.xy,
                ).unwrap();
                if height_difference > 0 {
                    // The ground ahead rises: deposit carried sediment here.
                    let dep = if self.sediment < DEPOSITION_RATE {
                        self.sediment
                    } else {
                        DEPOSITION_RATE
                    };
                    terrain.data.modify(self.xy, dep);
                    self.sediment = self.sediment - dep;
                    if self.sediment <= DRY_THRESHOLD {
                        self.alive = false;
                    }
                } else {
                    self.xy = new_xy;
                    if self.sediment < MAX_CARRIED_SEDIMENT {
                        terrain.data.modify(self.xy, -EROSION_RATE);
                        self.sediment = self.sediment + EROSION_RATE;
                    }
                }
            },
            None => {
                self.alive = false;
            },
        }
    }
}

/// One transition of the droplet state machine over the abstract grid:
/// yields the new grid, position, carried sediment and alive flag, for
/// a droplet that is alive going in.
#[verifier::opaque]
pub open spec fn step_spec(m: Map<(int, int), int>, px: int, py: int, sed: int) -> (
    Map<(int, int), int>,
    int,
    int,
    int,
    bool,
) {
    let nx = px + slope_step_x_m(m, px, py);
    let ny = py + slope_step_y_m(m, px, py);
    let hd = sample_m(m, nx, ny) - sample_m(m, px, py);
    if hd > 0 {
        let dep = vstd::math::min(sed, DEPOSITION_RATE as int);
        (bilin_map(m, px, py, dep), px, py, sed - dep, sed - dep > DRY_THRESHOLD)
    } else {
        if sed < MAX_CARRIED_SEDIMENT {
            (bilin_map(m, nx, ny, -(EROSION_RATE as int)), nx, ny, sed + EROSION_RATE, true)
        } else {
            (m, nx, ny, sed, true)
        }
    }
}

/// A step of an alive droplet matches the abstract transition on the
/// grid exactly.
pub proof fn lemma_step_rel_spec(t0: TerrainData, d0: Droplet, t1: TerrainData, d1: Droplet)
    requires
        d0.alive,
        step_rel(t0, d0, t1, d1),
    ensures
        ({
            let ss = step_spec(t0.grid(), d0.xy.x as int, d0.xy.y as int, d0.sediment as int);
            &&& t1.grid() == ss.0
            &&& d1.xy.x as int == ss.1
            &&& d1.xy.y as int == ss.2
            &&& d1.sediment as int == ss.3
            &&& d1.alive == ss.4
        }),
{
    reveal(step_spec);
    let px = d0.xy.x as int;
    let py = d0.xy.y as int;
    lemma_slope_m_agrees(t0, px, py);
    let nx = px + t0.slope_step_x(px, py);
    let ny = py + t0.slope_step_y(px, py);
    lemma_sample_m_agrees(t0, nx, ny);
    lemma_sample_m_agrees(t0, px, py);
}

/// Volume accounting of one droplet step: whatever a step adds to the
/// ground it takes from the droplet's carried sediment, exactly. Under
/// room below the height cap, the four corner cells of the modified
/// position (the current cell for a deposit, the new cell for an
/// erosion) together change by the old sediment minus the new, and
/// every other cell keeps its height.
pub proof fn lemma_step_conserves(m: Map<(int, int), int>, px: int, py: int, sed: int)
    requires
        0 <= sed <= MAX_CARRIED_SEDIMENT + EROSION_RATE,
        crate::terrain::grid_within(m, HEIGHT_LIMIT - 4 * DELTA_LIMIT as int),
    ensures
        ({
            let next = step_spec(m, px, py, sed);
            let nx = px + slope_step_x_m(m, px, py);
            let ny = py + slope_step_y_m(m, px, py);
            let hd = sample_m(m, nx, ny) - sample_m(m, px, py);
            let mx = if hd > 0 {
                px
            } else {
                nx
            };
            let my = if hd > 0 {
                py
            } else {
                ny
            };
            let x0 = crate::terrain::cell_of(mx);
            let y0 = crate::terrain::cell_of(my);
            &&& (next.0[(x0, y0)] - m[(x0, y0)]) + (next.0[(x0 + 1, y0)] - m[(x0 + 1, y0)]) + (
            next.0[(x0, y0 + 1)] - m[(x0, y0 + 1)]) + (next.0[(x0 + 1, y0 + 1)] - m[(
                x0 + 1,
                y0 + 1,
            )]) == sed - next.3
            &&& forall|a: int, b: int|
                !((a == x0 || a == x0 + 1) && (b == y0 || b == y0 + 1)) ==> #[trigger] next.0[(
                    a,
                    b,
                )] == m[(a, b)]
        }),
{
    reveal(step_spec);
    let nx = px + slope_step_x_m(m, px, py);
    let ny = py + slope_step_y_m(m, px, py);
    let hd = sample_m(m, nx, ny) - sample_m(m, px, py);
    if hd > 0 {
        let dep = vstd::math::min(sed, DEPOSITION_RATE as int);
        crate::terrain::lemma_modify_conserves(m, px, py, dep);
    } else {
        if sed < MAX_CARRIED_SEDIMENT {
            crate::terrain::lemma_modify_conserves(m, nx, ny, -(EROSION_RATE as int));
        }
    }
}

/// The full walk of one droplet: transitions of `step_spec` until the
/// droplet dies or the fuel runs out; yields the final grid and the
/// number of steps taken.
#[verifier::opaque]
pub open spec fn walk(m: Map<(int, int), int>, px: int, py: int, sed: int, fuel: nat) -> (
    Map<(int, int), int>,
    nat,
)
    decreases fuel,
{
    if fuel == 0 {
        (m, 0)
    } else {
        let next = step_spec(m, px, py, sed);
        if !next.4 {
            (next.0, 1)
        } else {
            let rest = walk(next.0, next.1, next.2, next.3, (fuel - 1) as nat);
            (rest.0, rest.1 + 1)
        }
    }
}

/// Run one droplet until it dies or the iteration budget is spent: the
/// field afterwards is exactly the walk of the droplet state machine
/// from the start state, and the hard cap guarantees that every
/// droplet's walk terminates within `max_iterations` steps.
#[verifier::rlimit(100)]
pub fn run_droplet(terrain: &mut Terrain, start: Pos, sediment: i64, max_iterations: u32) -> (steps:
    u32)
    requires
        old(terrain).data.wf(),
        0 <= sediment <= MAX_CARRIED_SEDIMENT,
        max_iterations <= 0x10000,
        -(POS_LIMIT / 2) <= start.x <= POS_LIMIT / 2,
        -(POS_LIMIT / 2) <= start.y <= POS_LIMIT / 2,
    ensures
        final(terrain).data.wf(),
        final(terrain).worldscale == old(terrain).worldscale,
        final(terrain).height == old(terrain).height,
        final(terrain).noisescale == old(terrain).noisescale,
        steps <= max_iterations,
        final(terrain).data.grid() == walk(
            old(terrain).data.grid(),
            start.x as int,
            start.y as int,
            sediment as int,
            max_iterations as nat,
        ).0,
        steps as nat == walk(
            old(terrain).data.grid(),
            start.x as int,
            start.y as int,
            sediment as int,
            max_iterations as nat,
        ).1,
{
    let ghost g0 = old(terrain).data.grid();
    let ghost full = walk(g0, start.x as int, start.y as int, sediment as int,
        max_iterations as nat);
    let mut droplet = Droplet::new(start, sediment);
    let mut i: u32 = 0;
    while i < max_iterations
        invariant
            terrain.data.wf(),
            droplet.wf(),
            droplet.alive,
            i <= max_iterations,
            max_iterations <= 0x10000,
            terrain.worldscale == old(terrain).worldscale,
            terrain.height == old(terrain).height,
            terrain.noisescale == old(terrain).noisescale,
            -(POS_LIMIT / 2) - i * FRAC <= droplet.xy.x <= POS_LIMIT / 2 + i * FRAC,
            -(POS_LIMIT / 2) - i * FRAC <= droplet.xy.y <= POS_LIMIT / 2 + i * FRAC,
            g0 == old(terrain).data.grid(),
            full == walk(g0, start.x as int, start.y as int, sediment as int,
                max_iterations as nat),
            full.0 == walk(
                terrain.data.grid(),
                droplet.xy.x as int,
                droplet.xy.y as int,
                droplet.sediment as int,
                (max_iterations - i) as nat,
            ).0,
            full.1 == walk(
                terrain.data.grid(),
                droplet.xy.x as int,
                droplet.xy.y as int,
                droplet.sediment as int,
                (max_iterations - i) as nat,
            ).1 + i,
        decreases max_iterations - i,
    {
        let ghost tprev = *terrain;
        let ghost dprev = droplet;
        droplet.step(terrain);
        proof {
            reveal_with_fuel(walk, 1);
            lemma_step_rel_spec(tprev.data, dprev, terrain.data, droplet);
            let px = dprev.xy.x as int;
            let py = dprev.xy.y as int;
            let sed = dprev.sediment as int;
            let ss = step_spec(tprev.data.grid(), px, py, sed);
            assert(walk(tprev.data.grid(), px, py, sed, (max_iterations - i) as nat) == if !ss.4 {
                (ss.0, 1nat)
            } else {
                (
                    walk(ss.0, ss.1, ss.2, ss.3, (max_iterations - i - 1) as nat).0,
                    walk(ss.0, ss.1, ss.2, ss.3, (max_iterations - i - 1) as nat).1 + 1,
                )
            });
        }
        i = i + 1;
        if !droplet.alive {
            return i;
        }
    }
    proof {
        reveal_with_fuel(walk, 1);
    }
    i
}

} // verus!
