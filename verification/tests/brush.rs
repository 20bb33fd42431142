use petra::droplet::EROSION_RATE;
use petra::fixed::Pos;
use petra::terrain::{Terrain, TerrainData};
use petra::tools::{apply_tool, erode, raise, SelectedTool, Tool};
use petra::{FRAC, UNIT};

fn fresh_terrain() -> Terrain {
    let mut t = Terrain::default();
    t.data = TerrainData::zeros();
    t
}

fn dist2(x: i64, y: i64, cx: i64, cy: i64) -> i64 {
    (x - cx) * (x - cx) + (y - cy) * (y - cy)
}

#[test]
fn raise_peak_decreases_with_distance() {
    // A zero-initialized chunk raised at its center: height strictly
    // decreases as the distance from the center grows, and is exactly
    // zero at and beyond the radius.
    let mut t = fresh_terrain();
    raise::trigger(Pos { x: 32 * FRAC, y: 32 * FRAC }, 10, &mut t);
    assert_eq!(t.data.read(32, 32), UNIT);
    // Strictly decreasing along a straight ray out of the center.
    for k in 0..9i64 {
        assert!(t.data.read(32 + k, 32) > t.data.read(32 + k + 1, 32));
    }
    // Strictly decreasing along a diagonal while inside the disc.
    for k in 0..6i64 {
        assert!(t.data.read(32 + k, 32 + k) > t.data.read(32 + k + 1, 32 + k + 1));
    }
    // Any two cells at different distances compare by distance.
    let near = t.data.read(33, 34); // squared distance 5
    let far = t.data.read(30, 36); // squared distance 20
    assert!(near > far && far > 0);
    // Exactly zero at distance 10 and beyond.
    for x in 22..=42i64 {
        for y in 22..=42i64 {
            if dist2(x, y, 32, 32) >= 100 {
                assert_eq!(t.data.read(x, y), 0);
            } else {
                assert!(t.data.read(x, y) > 0);
            }
        }
    }
}

#[test]
fn raise_leaves_cells_outside_radius_untouched() {
    let mut t = fresh_terrain();
    for x in 95..=105i64 {
        for y in 95..=105i64 {
            t.data.write(x, y, 4444);
        }
    }
    raise::trigger(Pos { x: 100 * FRAC, y: 100 * FRAC }, 3, &mut t);
    for x in 95..=105i64 {
        for y in 95..=105i64 {
            if dist2(x, y, 100, 100) >= 9 {
                assert_eq!(t.data.read(x, y), 4444);
            } else {
                assert!(t.data.read(x, y) > 4444);
            }
        }
    }
    // The center gains full strength, strictly more than any other cell.
    let center_gain = t.data.read(100, 100) - 4444;
    assert_eq!(center_gain, UNIT);
    for x in 95..=105i64 {
        for y in 95..=105i64 {
            if (x, y) != (100, 100) {
                assert!(t.data.read(x, y) - 4444 < center_gain);
            }
        }
    }
}

#[test]
fn raise_with_zero_radius_changes_nothing() {
    let mut t = fresh_terrain();
    raise::trigger(Pos { x: 0, y: 0 }, 0, &mut t);
    for x in -3..=3i64 {
        for y in -3..=3i64 {
            assert_eq!(t.data.read(x, y), 0);
        }
    }
}

#[test]
fn raise_marks_chunks_dirty() {
    let mut t = fresh_terrain();
    raise::trigger(Pos { x: 32 * FRAC, y: 32 * FRAC }, 4, &mut t);
    assert!(t.data.is_modified(0, 0));
    assert!(!t.data.is_modified(5, 5));
}

#[test]
fn erode_radius_one_runs_one_droplet_at_center() {
    // With radius 1 only the center offset lies inside the disc, at
    // full strength, so exactly one droplet runs there; on flat ground
    // it erodes in place until saturated.
    let mut t = fresh_terrain();
    erode::trigger(Pos { x: 32 * FRAC, y: 32 * FRAC }, 1, &mut t);
    assert_eq!(t.data.read(32, 32), -9 * EROSION_RATE);
    for x in 28..=36i64 {
        for y in 28..=36i64 {
            if (x, y) != (32, 32) {
                assert_eq!(t.data.read(x, y), 0);
            }
        }
    }
}

#[test]
fn erode_zero_radius_changes_nothing() {
    let mut t = fresh_terrain();
    erode::trigger(Pos { x: 0, y: 0 }, 0, &mut t);
    assert_eq!(t.data.read(0, 0), 0);
}

#[test]
fn apply_tool_dispatches_raise() {
    let mut t = fresh_terrain();
    let selected = SelectedTool(Tool::Raise);
    apply_tool(&selected, Pos { x: 10 * FRAC, y: 10 * FRAC }, 2, &mut t);
    assert_eq!(t.data.read(10, 10), UNIT);
}

#[test]
fn apply_tool_dispatches_erode() {
    let mut t = fresh_terrain();
    let selected = SelectedTool(Tool::Erode);
    apply_tool(&selected, Pos { x: 10 * FRAC, y: 10 * FRAC }, 2, &mut t);
    // The erode brush always spawns the full-strength center droplet,
    // whose first step modifies the center chunk either way.
    assert!(t.data.is_modified(0, 0));
}
