use relief::grid::PixelGrid;
use relief::height::{HeightField, Sample};
use relief::mesh::{build_mesh, push_quad, Triangle, Vertex};
use relief::relief::{relief_height_field, relief_mesh, ReliefMode};

fn grid(width: usize, height: usize, pixels: Vec<u8>) -> PixelGrid {
    PixelGrid::new(width, height, pixels).expect("valid grid")
}

fn top(x: i64, y: i64, z: i64) -> Vertex {
    Vertex { x, y, z, on_base: false }
}

fn elevations(field: &HeightField) -> Vec<i64> {
    field.samples.iter().map(|s| s.elevation).collect()
}

fn deltas(field: &HeightField) -> Vec<i64> {
    field.samples.iter().map(|s| s.delta).collect()
}

#[test]
fn new_rejects_wrong_length() {
    assert!(PixelGrid::new(2, 2, vec![0, 1, 2]).is_none());
    assert!(PixelGrid::new(2, 2, vec![0, 1, 2, 3, 4]).is_none());
    assert!(PixelGrid::new(2, 2, vec![0, 1, 2, 3]).is_some());
    assert!(PixelGrid::new(0, 0, vec![]).is_some());
}

#[test]
fn new_rejects_oversized_side() {
    assert!(PixelGrid::new(relief::grid::MAX_SIDE + 1, 0, vec![]).is_none());
    assert!(PixelGrid::new(0, relief::grid::MAX_SIDE + 1, vec![]).is_none());
}

#[test]
fn intensity_lookup_is_row_major() {
    let g = grid(3, 2, vec![1, 2, 3, 4, 5, 6]);
    assert_eq!(g.intensity_at(0, 2), 3);
    assert_eq!(g.intensity_at(1, 0), 4);
    assert_eq!(g.width(), 3);
    assert_eq!(g.height(), 2);
}

#[test]
fn rotate270_turns_counter_clockwise() {
    let g = grid(3, 2, vec![1, 2, 3, 4, 5, 6]);
    let r = g.rotate270();
    assert_eq!(r.width, 2);
    assert_eq!(r.height, 3);
    assert_eq!(r.pixels, vec![3, 6, 2, 5, 1, 4]);
}

#[test]
fn reconstruct_runs_per_row() {
    let g = grid(3, 2, vec![255, 255, 127, 0, 127, 127]);
    let f = HeightField::reconstruct(&g);
    assert_eq!(deltas(&f), vec![128, 128, 0, -127, 0, 0]);
    assert_eq!(elevations(&f), vec![0, 128, 256, 0, -127, -127]);
    assert_eq!(f.samples[4], Sample { row: 1, col: 1, elevation: -127, delta: 0 });
}

#[test]
fn row_deltas_close_on_last_sample() {
    let g = grid(4, 1, vec![10, 200, 127, 90]);
    let f = HeightField::reconstruct(&g);
    let total: i64 = f.samples.iter().map(|s| s.delta).sum();
    let last = f.samples[3];
    assert_eq!(total, last.elevation + last.delta);
    assert_eq!(total, (10 - 127) + (200 - 127) + 0 + (90 - 127));
}

#[test]
fn normalize_centres_rows_rounding_toward_zero() {
    let g = grid(3, 2, vec![255, 255, 127, 0, 127, 127]);
    let mut f = HeightField::reconstruct(&g);
    f.normalize();
    // row 0: sum 384, mean 128; row 1: sum -254, mean -84 (not -85)
    assert_eq!(elevations(&f), vec![-128, 0, 128, 84, -43, -43]);
    assert_eq!(deltas(&f), vec![128, 128, 0, -127, 0, 0]);
    for row in 0..2 {
        let sum: i64 = f.samples[row * 3..row * 3 + 3].iter().map(|s| s.elevation).sum();
        assert_eq!(sum / 3, 0);
    }
}

#[test]
fn lowest_point_and_base_level() {
    let g = grid(2, 1, vec![0, 0]);
    let f = HeightField::reconstruct(&g);
    assert_eq!(f.lowest_point(), Some(-254));
    assert_eq!(f.base_level(), -254);
    let g = grid(2, 1, vec![200, 255]);
    let f = HeightField::reconstruct(&g);
    assert_eq!(f.lowest_point(), Some(0));
    assert_eq!(f.base_level(), 0);
    let g = grid(2, 1, vec![255, 255]);
    let f = HeightField::reconstruct(&g);
    assert_eq!(f.lowest_point(), Some(0));
    let empty = HeightField::reconstruct(&grid(0, 3, vec![]));
    assert_eq!(empty.lowest_point(), None);
    assert_eq!(empty.base_level(), 0);
}

#[test]
fn base_lies_below_every_top_vertex() {
    let g = grid(3, 3, vec![0, 255, 10, 90, 127, 250, 3, 77, 160]);
    for mode in [ReliefMode::full(), ReliefMode::plain()] {
        let f = relief_height_field(&g, mode.normalize_rows);
        let b = f.base_level();
        let mesh = relief_mesh(&g, mode);
        for t in &mesh {
            for v in [t.a, t.b, t.c] {
                if v.on_base {
                    assert_eq!(v.z, b);
                } else {
                    assert!(v.z >= b);
                }
            }
        }
    }
}

#[test]
fn push_quad_splits_along_diagonal() {
    let (v0, v1, v2, v3) = (top(0, 0, 0), top(2, 0, 0), top(2, 2, 1), top(0, 2, 1));
    let mut out = Vec::new();
    push_quad(&mut out, v0, v1, v2, v3);
    assert_eq!(out, vec![Triangle { a: v0, b: v2, c: v3 }, Triangle { a: v0, b: v1, c: v2 }]);
}

#[test]
fn two_pixel_row_example() {
    let g = grid(2, 1, vec![127, 255]);
    let mut f = HeightField::reconstruct(&g);
    assert_eq!(deltas(&f), vec![0, 128]);
    assert_eq!(elevations(&f), vec![0, 0]);
    f.normalize();
    assert_eq!(elevations(&f), vec![0, 0]);
    assert_eq!(f.lowest_point(), Some(0));
    assert_eq!(f.base_level(), 0);
    let mesh = build_mesh(&f, f.base_level(), false);
    assert_eq!(mesh.len(), 24);
    // cell 0: flat top at height zero
    for t in &mesh[0..2] {
        for v in [t.a, t.b, t.c] {
            assert_eq!(v.z, 0);
        }
    }
    // cell 1: top rises from 0 at its leading edge to 128/128 at its far edge
    assert_eq!(mesh[12], Triangle { a: top(0, 2, 0), b: top(2, 4, 128), c: top(0, 4, 128) });
    assert_eq!(mesh[13], Triangle { a: top(0, 2, 0), b: top(2, 2, 0), c: top(2, 4, 128) });
    // the whole pipeline turns the grid first: the bright pixel comes first
    let full = relief_mesh(&g, ReliefMode::full());
    assert_eq!(full.len(), 24);
    assert_eq!((full[0].a.z, full[0].b.z), (0, 128));
    assert!(full[12..14].iter().all(|t| t.a.z == 0 && t.b.z == 0 && t.c.z == 0));
}

#[test]
fn single_midgray_pixel_is_flat_slab() {
    let g = grid(1, 1, vec![127]);
    let f = relief_height_field(&g, true);
    assert_eq!(f.samples, vec![Sample { row: 0, col: 0, elevation: 0, delta: 0 }]);
    assert_eq!(f.base_level(), 0);
    let mesh = relief_mesh(&g, ReliefMode::plain());
    assert_eq!(mesh.len(), 12);
    for t in &mesh {
        for v in [t.a, t.b, t.c] {
            // tops at height zero; base vertices one base thickness below it
            assert_eq!(v.z, 0);
            assert!(0 <= v.x && v.x <= 2 && 0 <= v.y && v.y <= 2);
        }
    }
    assert_eq!(mesh.iter().filter(|t| t.a.on_base && t.b.on_base && t.c.on_base).count(), 2);
    assert_eq!(mesh.iter().filter(|t| !t.a.on_base && !t.b.on_base && !t.c.on_base).count(), 2);
}

#[test]
fn centred_footprint_spans_the_grid() {
    let g = grid(1, 1, vec![127]);
    let mesh = relief_mesh(&g, ReliefMode::full());
    let xs: Vec<i64> = mesh.iter().flat_map(|t| [t.a.x, t.b.x, t.c.x]).collect();
    assert_eq!(xs.iter().min(), Some(&-1));
    assert_eq!(xs.iter().max(), Some(&1));
    let g = grid(3, 2, vec![127; 6]);
    let mesh = relief_mesh(&g, ReliefMode::full());
    let ys: Vec<i64> = mesh.iter().flat_map(|t| [t.a.y, t.b.y, t.c.y]).collect();
    let xs: Vec<i64> = mesh.iter().flat_map(|t| [t.a.x, t.b.x, t.c.x]).collect();
    // turned: 2 wide along a scanline, 3 scanlines
    assert_eq!((ys.iter().min(), ys.iter().max()), (Some(&-2), Some(&2)));
    assert_eq!((xs.iter().min(), xs.iter().max()), (Some(&-3), Some(&3)));
}

#[test]
fn mesh_has_twelve_triangles_per_pixel() {
    let g = grid(3, 2, vec![1, 50, 100, 150, 200, 250]);
    assert_eq!(relief_mesh(&g, ReliefMode::full()).len(), 72);
    assert_eq!(relief_mesh(&g, ReliefMode::plain()).len(), 72);
    assert_eq!(relief_mesh(&grid(0, 0, vec![]), ReliefMode::full()).len(), 0);
    assert_eq!(relief_mesh(&grid(4, 0, vec![]), ReliefMode::full()).len(), 0);
}

#[test]
fn triangles_have_distinct_vertices() {
    let g = grid(3, 2, vec![127, 0, 255, 127, 127, 30]);
    for t in relief_mesh(&g, ReliefMode::full()) {
        assert!(t.a != t.b && t.b != t.c && t.a != t.c);
    }
}

#[test]
fn pipeline_is_repeatable() {
    let g = grid(3, 3, vec![9, 80, 127, 200, 255, 0, 64, 128, 192]);
    let first = relief_mesh(&g, ReliefMode::full());
    let second = relief_mesh(&g, ReliefMode::full());
    assert_eq!(first, second);
}
