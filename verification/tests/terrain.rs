use petra::chunk::TerrainDataChunk;
use petra::fixed::Pos;
use petra::terrain::TerrainData;
use petra::terrain::Terrain;
use petra::{FRAC, UNIT};

#[test]
fn read_of_empty_field_is_zero() {
    let t = TerrainData::zeros();
    assert_eq!(t.read(0, 0), 0);
    assert_eq!(t.read(-1000, 999), 0);
    assert_eq!(t.read(123456789, -987654321), 0);
}

#[test]
fn write_then_read_round_trip() {
    let mut t = TerrainData::zeros();
    t.write(3, 4, 777);
    t.write(-5, -7, -123);
    assert_eq!(t.read(3, 4), 777);
    assert_eq!(t.read(-5, -7), -123);
    assert_eq!(t.read(4, 3), 0);
    t.write(3, 4, 11);
    assert_eq!(t.read(3, 4), 11);
}

#[test]
fn chunk_addressing_positive() {
    assert_eq!(TerrainData::get_terrain_chunk_coordinates((10, 200)), (0, 3));
    assert_eq!(TerrainData::get_local_offsets((10, 200)), (10, 8));
    assert_eq!(TerrainData::get_terrain_chunk_coordinates((64, 63)), (1, 0));
    assert_eq!(TerrainData::get_local_offsets((64, 63)), (0, 63));
}

#[test]
fn chunk_addressing_negative() {
    // Euclidean flooring: -1 belongs to chunk -1 at local offset 63.
    assert_eq!(TerrainData::get_terrain_chunk_coordinates((-1, -64)), (-1, -1));
    assert_eq!(TerrainData::get_local_offsets((-1, -64)), (63, 0));
    assert_eq!(TerrainData::get_terrain_chunk_coordinates((-65, 130)), (-2, 2));
    assert_eq!(TerrainData::get_local_offsets((-65, 130)), (63, 2));
}

#[test]
fn chunk_get_safe_bounds() {
    let mut c = TerrainDataChunk::new((0, 0));
    c.data[5 * 64 + 6] = 42;
    assert_eq!(c.get_safe(6, 5, 0, 0), Some(42));
    assert_eq!(c.get_safe(5, 5, 1, 0), Some(42));
    assert_eq!(c.get_safe(6, 7, 0, -2), Some(42));
    assert_eq!(c.get_safe(0, 0, -1, 0), None);
    assert_eq!(c.get_safe(63, 63, 1, 0), None);
    assert_eq!(c.get_safe(63, 63, 0, 1), None);
    assert_eq!(c.get_safe(63, 63, 0, 0), Some(0));
    // Total over every input: far-out positions and extreme offsets
    // simply answer None, and an offset can bring them back inside.
    assert_eq!(c.get_safe(1000, 0, 0, 0), None);
    assert_eq!(c.get_safe(1000, 5, -994, 0), Some(42));
    assert_eq!(c.get_safe(6, 5, i64::MIN, 0), None);
    assert_eq!(c.get_safe(6, 5, 0, i64::MAX), None);
    assert_eq!(c.get_safe(usize::MAX, usize::MAX, 0, 0), None);
}

#[test]
fn sampling_identity_at_lattice_points() {
    let mut t = TerrainData::zeros();
    t.write(3, 4, 777);
    t.write(-5, -7, -123);
    // Sampling exactly on the lattice returns the stored cell height.
    assert_eq!(t.sample(Pos { x: 3 * FRAC, y: 4 * FRAC }), Some(777));
    assert_eq!(t.sample(Pos { x: -5 * FRAC, y: -7 * FRAC }), Some(-123));
    assert_eq!(t.sample(Pos { x: 0, y: 0 }), Some(0));
}

#[test]
fn sample_midpoint_averages_corners() {
    let mut t = TerrainData::zeros();
    t.write(1, 1, UNIT);
    // At the exact center of cell square (0,0)..(1,1) each corner has
    // weight 1/4; only (1,1) is nonzero.
    assert_eq!(t.sample(Pos { x: 128, y: 128 }), Some(UNIT / 4));
    // Halfway along x only: weights 1/2 for (0,1)-(1,1) row times y frac.
    assert_eq!(t.sample(Pos { x: 128, y: 256 }), Some(UNIT / 2));
}

#[test]
fn sample_negative_coordinates_interpolate() {
    let mut t = TerrainData::zeros();
    t.write(-1, 0, 1000);
    t.write(0, 0, 3000);
    // Midway between (-1,0) and (0,0).
    assert_eq!(t.sample(Pos { x: -128, y: 0 }), Some(2000));
}

#[test]
fn modify_at_lattice_point_hits_one_cell() {
    let mut t = TerrainData::zeros();
    t.modify(Pos { x: 5 * FRAC, y: 5 * FRAC }, -100);
    assert_eq!(t.read(5, 5), -100);
    assert_eq!(t.read(4, 5), 0);
    assert_eq!(t.read(6, 5), 0);
    assert_eq!(t.read(5, 4), 0);
    assert_eq!(t.read(5, 6), 0);
}

#[test]
fn modify_conserves_total_delta() {
    // Conservation: the four affected cells change by exactly the delta.
    let mut t = TerrainData::zeros();
    t.modify(Pos { x: 2 * FRAC + 128, y: 3 * FRAC + 128 }, 1000);
    let total = t.read(2, 3) + t.read(3, 3) + t.read(2, 4) + t.read(3, 4);
    assert_eq!(total, 1000);
    assert_eq!(t.read(2, 3), 250);
    assert_eq!(t.read(3, 3), 250);
    assert_eq!(t.read(2, 4), 250);
    assert_eq!(t.read(3, 4), 250);

    let mut t2 = TerrainData::zeros();
    t2.modify(Pos { x: 2 * FRAC + 64, y: 3 * FRAC }, 10);
    assert_eq!(t2.read(2, 3), 8);
    assert_eq!(t2.read(3, 3), 2);
    assert_eq!(t2.read(2, 4), 0);
    assert_eq!(t2.read(3, 4), 0);
    assert_eq!(t2.read(2, 3) + t2.read(3, 3), 10);

    let mut t3 = TerrainData::zeros();
    t3.modify(Pos { x: -7 * FRAC + 200, y: -9 * FRAC + 40 }, -12345);
    let total3 = t3.read(-7, -9) + t3.read(-6, -9) + t3.read(-7, -8) + t3.read(-6, -8);
    assert_eq!(total3, -12345);
}

#[test]
fn modify_marks_touched_chunks() {
    let mut t = TerrainData::zeros();
    assert!(!t.is_modified(0, 0));
    t.modify(Pos { x: 10 * FRAC, y: 10 * FRAC }, 5);
    assert!(t.is_modified(0, 0));
    assert!(!t.is_modified(1, 0));
    // A modification straddling the chunk border dirties both chunks.
    let mut t2 = TerrainData::zeros();
    t2.modify(Pos { x: 63 * FRAC + 128, y: 5 * FRAC }, 7);
    assert!(t2.is_modified(0, 0));
    assert!(t2.is_modified(1, 0));
    // A lattice modification at the border writes only its own cell:
    // the neighbor chunk takes no zero-weight write and stays clean.
    let mut t3 = TerrainData::zeros();
    t3.modify(Pos { x: 63 * FRAC, y: 5 * FRAC }, 7);
    assert!(t3.is_modified(0, 0));
    assert!(!t3.is_modified(1, 0));
}

#[test]
fn clear_modified_resets_one_chunk() {
    let mut t = TerrainData::zeros();
    t.write(1, 1, 9);
    t.write(100, 1, 9);
    assert!(t.is_modified(0, 0));
    assert!(t.is_modified(1, 0));
    t.clear_modified(0, 0);
    assert!(!t.is_modified(0, 0));
    assert!(t.is_modified(1, 0));
    assert_eq!(t.read(1, 1), 9);
}

#[test]
fn slope_is_zero_on_flat_terrain() {
    // All four cardinal neighbors equal: the slope is the zero vector.
    let t = TerrainData::zeros();
    assert_eq!(t.get_slope_vector(Pos { x: 0, y: 0 }), Some(Pos { x: 0, y: 0 }));
    let mut t2 = TerrainData::zeros();
    for x in -2..=2 {
        for y in -2..=2 {
            t2.write(x, y, 5000);
        }
    }
    assert_eq!(t2.get_slope_vector(Pos { x: 0, y: 0 }), Some(Pos { x: 0, y: 0 }));
}

#[test]
fn slope_points_downhill_on_ramp() {
    // Height decreasing in +x: the downhill step is one cell toward +x.
    let mut t = TerrainData::zeros();
    for x in -2..=2 {
        for y in -2..=2 {
            t.write(x, y, -1000 * x);
        }
    }
    assert_eq!(t.get_slope_vector(Pos { x: 0, y: 0 }), Some(Pos { x: FRAC, y: 0 }));
}

#[test]
fn slope_normalizes_to_unit_length() {
    // A diagonal ramp: the unit step splits evenly, about 0.707 of a
    // cell per axis (181/256 in fixed point), not a full cell each.
    let mut t = TerrainData::zeros();
    for x in -2..=2 {
        for y in -2..=2 {
            t.write(x, y, -1000 * (x + y));
        }
    }
    assert_eq!(t.get_slope_vector(Pos { x: 0, y: 0 }), Some(Pos { x: 181, y: 181 }));
    // A 2:1 slope normalizes to about (0.894, 0.447) of a cell.
    let mut t2 = TerrainData::zeros();
    for x in -2..=2 {
        for y in -2..=2 {
            t2.write(x, y, -2000 * x - 1000 * y);
        }
    }
    assert_eq!(t2.get_slope_vector(Pos { x: 0, y: 0 }), Some(Pos { x: 228, y: 114 }));
}

#[test]
fn from_samples_fills_square_region() {
    let samples = vec![1, 2, 3, 4];
    let t = TerrainData::from_samples(2, &samples);
    assert_eq!(t.read(0, 0), 1);
    assert_eq!(t.read(1, 0), 2);
    assert_eq!(t.read(0, 1), 3);
    assert_eq!(t.read(1, 1), 4);
    assert_eq!(t.read(2, 0), 0);
    assert_eq!(t.read(-1, 0), 0);
}

#[test]
fn terrain_default_scales() {
    let t = Terrain::default();
    assert_eq!(t.worldscale, 256 * UNIT);
    assert_eq!(t.height, 64 * UNIT);
    assert_eq!(t.noisescale, UNIT / 100);
    assert_eq!(t.data.read(0, 0), 0);
}
