//! The whole pipeline: turn the grid, reconstruct, normalise, build the mesh.
use vstd::prelude::*;
use crate::grid::{PixelGrid, rotated_pixels};
use crate::height::{HeightField, Sample, raw_field, normalized_field, floor_level};
use crate::mesh::{Triangle, build_mesh, mesh_of};

verus! {

/// How the relief is built.
#[derive(Clone, Copy, Debug, PartialEq, Eq, Structural)]
pub struct ReliefMode {
    /// Centre each scanline's elevations on zero before building.
    pub normalize_rows: bool,
    /// Centre the footprint on the model's bounding box.
    pub centered: bool,
}

impl ReliefMode {
    /// Row normalisation and centring, the usual way to build a relief.
    pub fn full() -> (r: ReliefMode)
        ensures
            r.normalize_rows && r.centered,
    {
        ReliefMode { normalize_rows: true, centered: true }
    }

    /// Raw running sums on an uncentred footprint.
    pub fn plain() -> (r: ReliefMode)
        ensures
            !r.normalize_rows && !r.centered,
    {
        ReliefMode { normalize_rows: false, centered: false }
    }
}

/// The samples of a `w` by `h` grid `p` after it is turned by 270 degrees,
/// reconstructed, and normalised when `normalize` is set.
pub open spec fn relief_field(p: Seq<u8>, w: int, h: int, normalize: bool) -> Seq<Sample> {
    let raw = raw_field(rotated_pixels(p, w, h), h, w);
    if normalize {
        normalized_field(raw, h)
    } else {
        raw
    }
}

/// The mesh built from a `w` by `h` grid `p` in mode `mode`.
pub open spec fn relief_of(p: Seq<u8>, w: usize, h: usize, mode: ReliefMode) -> Seq<Triangle> {
    let s = relief_field(p, w as int, h as int, mode.normalize_rows);
    mesh_of(s, h, w, floor_level(s) as i64, mode.centered)
}

/// Builds the height field of `grid`: turned by 270 degrees, reconstructed
/// along its scanlines, and normalised when `normalize` is set.
pub fn relief_height_field(grid: &PixelGrid, normalize: bool) -> (r: HeightField)
    requires
        grid.wf(),
    ensures
        r.wf(),
        r.width == grid.height,
        r.height == grid.width,
        r.samples@ == relief_field(
            grid.pixels@,
            grid.width as int,
            grid.height as int,
            normalize,
        ),
{
    let turned = grid.rotate270();
    let mut field = HeightField::reconstruct(&turned);
    if normalize {
        field.normalize();
    }
    field
}

/// The closed relief solid of `grid`: twelve triangles for each pixel.
pub fn relief_mesh(grid: &PixelGrid, mode: ReliefMode) -> (r: Vec<Triangle>)
    requires
        grid.wf(),
    ensures
        r@ == relief_of(grid.pixels@, grid.width, grid.height, mode),
        r.len() == 12 * grid.width * grid.height,
{
    let field = relief_height_field(grid, mode.normalize_rows);
    let base = field.base_level();
    let r = build_mesh(&field, base, mode.centered);
    proof {
        assert(12 * (grid.height * grid.width) == 12 * grid.width * grid.height) by (nonlinear_arith);
    }
    r
}


/// Building a relief depends on the grid and the mode alone: two runs on the
/// same grid in the same mode give identical meshes.
pub proof fn lemma_relief_deterministic(
    grid: PixelGrid,
    mode: ReliefMode,
    first: Seq<Triangle>,
    second: Seq<Triangle>,
)
    requires
        grid.wf(),
        first == relief_of(grid.pixels@, grid.width, grid.height, mode),
        second == relief_of(grid.pixels@, grid.width, grid.height, mode),
    ensures
        first == second,
{
}

} // verus!
