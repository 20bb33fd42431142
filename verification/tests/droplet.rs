use petra::droplet::{
    run_droplet, Droplet, DEPOSITION_RATE, DRY_THRESHOLD, EROSION_RATE, MAX_ITERATIONS,
};
use petra::fixed::Pos;
use petra::terrain::{Terrain, TerrainData};
use petra::FRAC;

fn flat_terrain() -> Terrain {
    let mut t = Terrain::default();
    t.data = TerrainData::zeros();
    t
}

#[test]
fn droplet_run_respects_iteration_cap() {
    // On flat terrain a droplet never dies: the hard cap bounds the walk.
    let mut t = flat_terrain();
    let steps = run_droplet(&mut t, Pos { x: 0, y: 0 }, 0, 50);
    assert_eq!(steps, 50);
    let steps2 = run_droplet(&mut t, Pos { x: 1000 * FRAC, y: 1000 * FRAC }, 0, MAX_ITERATIONS);
    assert!(steps2 <= MAX_ITERATIONS);
}

#[test]
fn droplet_on_ramp_walks_downhill_and_erodes() {
    // A uniform downward ramp along +x: the droplet moves one cell in
    // +x per step and erodes the ground at each new position.
    let k: i64 = 20000;
    let mut t = flat_terrain();
    for x in -2..=8 {
        for y in -2..=2 {
            t.data.write(x, y, -k * x);
        }
    }
    let mut d = Droplet::new(Pos { x: 0, y: 0 }, 0);
    for step in 1..=5i64 {
        d.step(&mut t);
        assert!(d.alive);
        assert_eq!(d.xy, Pos { x: step * FRAC, y: 0 });
        assert_eq!(d.sediment, step * EROSION_RATE);
    }
    for x in 1..=5i64 {
        assert_eq!(t.data.read(x, 0), -k * x - EROSION_RATE);
    }
    // The starting cell itself was never eroded.
    assert_eq!(t.data.read(0, 0), 0);
}

#[test]
fn droplet_deposits_when_ground_ahead_rises() {
    // The slope points toward +x but the ground there is higher: the
    // droplet deposits at its current position and stays.
    let mut t = flat_terrain();
    t.data.write(-1, 0, 1500);
    t.data.write(1, 0, 500);
    let mut d = Droplet::new(Pos { x: 0, y: 0 }, 60000);
    d.step(&mut t);
    assert_eq!(d.xy, Pos { x: 0, y: 0 });
    assert_eq!(d.sediment, 60000 - DEPOSITION_RATE);
    assert!(d.alive);
    assert_eq!(t.data.read(0, 0), DEPOSITION_RATE);
}

#[test]
fn droplet_dies_when_it_runs_dry() {
    let mut t = flat_terrain();
    t.data.write(-1, 0, 1500);
    t.data.write(1, 0, 500);
    // After one deposit the remaining sediment falls to the threshold.
    let mut d = Droplet::new(Pos { x: 0, y: 0 }, DEPOSITION_RATE + DRY_THRESHOLD);
    d.step(&mut t);
    assert_eq!(d.sediment, DRY_THRESHOLD);
    assert!(!d.alive);
}

#[test]
fn droplet_saturates_at_carrying_limit() {
    // On flat ground the droplet erodes in place until it cannot carry
    // more, then keeps stepping without effect.
    let mut t = flat_terrain();
    let steps = run_droplet(&mut t, Pos { x: 0, y: 0 }, 0, 100);
    assert_eq!(steps, 100);
    // 9 erosions of 7864 reach the carrying limit of 65536.
    assert_eq!(t.data.read(0, 0), -9 * EROSION_RATE);
    assert_eq!(t.data.read(1, 0), 0);
    assert_eq!(t.data.read(0, 1), 0);
}
