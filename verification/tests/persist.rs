use petra::erode::erode_droplets;
use petra::export::EXPORT_MAX_CHUNKS;
use petra::fixed::Pos;
use petra::mesh::generate_mesh;
use petra::terrain::{Terrain, TerrainData};
use petra::{FRAC, UNIT};

#[test]
fn export_none_when_empty() {
    let t = TerrainData::zeros();
    assert!(t.export_heights().is_none());
}

#[test]
fn export_packs_populated_rectangle() {
    let mut t = TerrainData::zeros();
    t.write(0, 0, 111);
    t.write(130, 70, 222);
    let img = t.export_heights().unwrap();
    // Chunks (0,0) through (2,1): three chunks wide, two high.
    assert_eq!(img.width, 192);
    assert_eq!(img.height, 128);
    assert_eq!(img.pixels.len(), 192 * 128);
    assert_eq!(img.pixels[0], 111);
    assert_eq!(img.pixels[70 * 192 + 130], 222);
    // An unpopulated interior cell exports as a zero pixel.
    assert_eq!(img.pixels[65 * 192 + 65], 0);
}

#[test]
fn export_round_trips_lattice_samples() {
    // Sampling the field at lattice points before export equals the
    // corresponding pixel values of the exported buffer.
    let mut t = TerrainData::zeros();
    t.write(-1, -1, 7);
    t.write(0, 0, 13);
    t.write(20, 40, -55);
    let img = t.export_heights().unwrap();
    assert_eq!(img.width, 128);
    assert_eq!(img.height, 128);
    // The buffer origin is the corner of chunk (-1,-1), world (-64,-64).
    for (x, y) in [(-1i64, -1i64), (0, 0), (20, 40), (5, 9), (-30, 2)] {
        let sampled = t.sample(Pos { x: x * FRAC, y: y * FRAC }).unwrap();
        let px = (x + 64) as usize;
        let py = (y + 64) as usize;
        assert_eq!(img.pixels[py * img.width + px], sampled);
    }
}

#[test]
fn export_none_when_span_too_large() {
    let mut t = TerrainData::zeros();
    t.write(0, 0, 1);
    t.write(EXPORT_MAX_CHUNKS * 64, 0, 2);
    assert!(t.export_heights().is_none());
    let mut t2 = TerrainData::zeros();
    t2.write(0, 0, 1);
    t2.write((EXPORT_MAX_CHUNKS - 1) * 64 + 63, 0, 2);
    assert!(t2.export_heights().is_some());
}

#[test]
fn mesh_heights_follow_the_field() {
    let mut t = Terrain::default();
    t.data.write(0, 0, 100);
    t.data.write(1, 0, 200);
    t.data.write(64, 0, 300);
    t.data.write(0, 64, 400);
    let md = generate_mesh(&t, (0, 0));
    assert_eq!(md.heights.len(), 65 * 65);
    assert_eq!(md.heights[0], 100);
    assert_eq!(md.heights[1 * 65 + 0], 200);
    // The far row and column come from the neighbor chunks.
    assert_eq!(md.heights[64 * 65 + 0], 300);
    assert_eq!(md.heights[0 * 65 + 64], 400);
    assert_eq!(md.uvs[2 * 65 + 7], (2, 7));
    assert_eq!(md.real_positions[2 * 65 + 7], (2, 7));
    let md2 = generate_mesh(&t, (1, 0));
    assert_eq!(md2.real_positions[2 * 65 + 7], (64 + 2, 7));
}

#[test]
fn mesh_triangulation_pattern() {
    let t = Terrain::default();
    let md = generate_mesh(&t, (0, 0));
    assert_eq!(md.indices.len(), 64 * 64 * 6);
    // First quad: triangles (0, 1, 65) and (66, 65, 1).
    assert_eq!(&md.indices[0..6], &[0u32, 1, 65, 66, 65, 1][..]);
    // Quad at grid position (1, 0): base vertex 65.
    let q = (1 * 64 + 0) * 6;
    assert_eq!(&md.indices[q..q + 6], &[65u32, 66, 130, 131, 130, 66][..]);
}

#[test]
fn mesh_normals_flat_and_sloped() {
    let mut t = Terrain::default();
    let md = generate_mesh(&t, (0, 0));
    // On flat terrain every raw normal points straight up.
    assert_eq!(md.normals[5], (0, 0, 6 * UNIT));
    // On a ramp rising in +x the normal tilts toward -x.
    for x in -2..=66i64 {
        for z in -2..=66i64 {
            t.data.write(x, z, 1000 * x);
        }
    }
    let md2 = generate_mesh(&t, (0, 0));
    let n = md2.normals[10 * 65 + 10];
    assert_eq!(n, (2 * (-1000 - 1000) - 1000 + (-1000), 1000 + (-1000) - (-1000), 6 * UNIT));
    assert!(n.0 < 0);
}

#[test]
fn batch_erosion_keeps_terrain_parameters() {
    let mut t = Terrain::default();
    for x in 0..8i64 {
        for y in 0..8i64 {
            t.data.write(x, y, -1000 * x);
        }
    }
    erode_droplets(&mut t, 10);
    assert_eq!(t.worldscale, 256 * UNIT);
    assert_eq!(t.height, 64 * UNIT);
}
