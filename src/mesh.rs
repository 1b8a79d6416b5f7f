//! Closed boxes, one per cell, from a height field down to a base plane.
//!
//! Coordinates are exact integers. `x` runs across scanlines and `y` along
//! them, both in half-pixel units; `z` is in steps of 1/128 of a pixel. A
//! vertex with `on_base` set lies a further base thickness below its `z`.
//! Triangles carry no normal: consumers derive it from the winding.
use vstd::prelude::*;
use crate::grid::{MAX_SIDE, lemma_index_coords};
use crate::height::{
    HeightField, Sample, floor_level, lemma_base_below_cells, lemma_floor_level_bound,
};

verus! {

/// A mesh point; see the module documentation for its units.
#[derive(Clone, Copy, Debug, PartialEq, Eq, Structural)]
pub struct Vertex {
    pub x: i64,
    pub y: i64,
    pub z: i64,
    pub on_base: bool,
}

/// Three vertices in winding order.
#[derive(Clone, Copy, Debug, PartialEq, Eq, Structural)]
pub struct Triangle {
    pub a: Vertex,
    pub b: Vertex,
    pub c: Vertex,
}

pub open spec fn top(x: i64, y: i64, z: i64) -> Vertex {
    Vertex { x, y, z, on_base: false }
}

pub open spec fn bottom(x: i64, y: i64, z: i64) -> Vertex {
    Vertex { x, y, z, on_base: true }
}

/// The two triangles of a quadrilateral `v0 v1 v2 v3`: `(v0, v2, v3)`, then
/// `(v0, v1, v2)`.
pub open spec fn quad(v0: Vertex, v1: Vertex, v2: Vertex, v3: Vertex) -> Seq<Triangle> {
    seq![Triangle { a: v0, b: v2, c: v3 }, Triangle { a: v0, b: v1, c: v2 }]
}

/// The twelve triangles of the box over the cell whose near corner is
/// `(x0, y0)`, with its top at `z0` along `y0` and at `z1` along the far edge,
/// and its bottom at base level `b`: top, bottom, near, far, left and right
/// faces in this order.
pub open spec fn cell_triangles(x0: i64, y0: i64, z0: i64, z1: i64, b: i64) -> Seq<Triangle> {
    let x1 = (x0 + 2) as i64;
    let y1 = (y0 + 2) as i64;
    quad(top(x0, y0, z0), top(x1, y0, z0), top(x1, y1, z1), top(x0, y1, z1))
        + quad(bottom(x0, y0, b), bottom(x1, y0, b), bottom(x1, y1, b), bottom(x0, y1, b))
        + quad(bottom(x0, y0, b), bottom(x1, y0, b), top(x1, y0, z0), top(x0, y0, z0))
        + quad(bottom(x0, y1, b), bottom(x1, y1, b), top(x1, y1, z1), top(x0, y1, z1))
        + quad(bottom(x0, y0, b), bottom(x0, y1, b), top(x0, y1, z1), top(x0, y0, z0))
        + quad(bottom(x1, y0, b), bottom(x1, y1, b), top(x1, y1, z1), top(x1, y0, z0))
}

/// The near corner of a sample's cell along one axis, in half-pixel units:
/// twice the index, shifted by the axis length when centring.
pub open spec fn corner(index: usize, len: usize, centered: bool) -> i64 {
    if centered {
        (2 * index - len) as i64
    } else {
        (2 * index) as i64
    }
}

/// The box of one sample in a `w` by `h` field.
pub open spec fn sample_triangles(x: Sample, w: usize, h: usize, b: i64, centered: bool) -> Seq<
    Triangle,
> {
    cell_triangles(
        corner(x.row, h, centered),
        corner(x.col, w, centered),
        x.elevation,
        (x.elevation + x.delta) as i64,
        b,
    )
}

/// The boxes of all samples, in the samples' order.
pub open spec fn mesh_of(s: Seq<Sample>, w: usize, h: usize, b: i64, centered: bool) -> Seq<
    Triangle,
> {
    Seq::new(12 * s.len(), |j: int| sample_triangles(s[j / 12], w, h, b, centered)[j % 12])
}

/// No two vertices of the triangle coincide.
pub open spec fn distinct_vertices(t: Triangle) -> bool {
    t.a != t.b && t.b != t.c && t.a != t.c
}

/// `v` is a base vertex at level `b`, or a top vertex at height `z0` or `z1`.
pub open spec fn cell_vertex(v: Vertex, b: i64, z0: i64, z1: i64) -> bool {
    (v.on_base && v.z == b) || (!v.on_base && (v.z == z0 || v.z == z1))
}

proof fn lemma_cell_shape(x0: i64, y0: i64, z0: i64, z1: i64, b: i64)
    requires
        -0x1000000000 <= x0 <= 0x1000000000,
        -0x1000000000 <= y0 <= 0x1000000000,
    ensures
        cell_triangles(x0, y0, z0, z1, b).len() == 12,
        forall|k: int|
            0 <= k < 12 ==> {
                let t = #[trigger] cell_triangles(x0, y0, z0, z1, b)[k];
                &&& distinct_vertices(t)
                &&& cell_vertex(t.a, b, z0, z1)
                &&& cell_vertex(t.b, b, z0, z1)
                &&& cell_vertex(t.c, b, z0, z1)
            },
{
    let c = cell_triangles(x0, y0, z0, z1, b);
    assert(c.len() == 12);
    assert forall|k: int| 0 <= k < 12 implies {
        let t = #[trigger] c[k];
        &&& distinct_vertices(t)
        &&& cell_vertex(t.a, b, z0, z1)
        &&& cell_vertex(t.b, b, z0, z1)
        &&& cell_vertex(t.c, b, z0, z1)
    } by {}
}

/// The corner of a cell of a well-formed field, and the far corner two
/// half-pixels on, are ordinary `i64` values.
proof fn lemma_corner_bound(index: usize, len: usize, centered: bool)
    requires
        index < len <= MAX_SIDE,
    ensures
        -0x1000000000 <= corner(index, len, centered) <= 0x1000000000,
{
}

/// In every triangle of a field's mesh the three vertices are distinct
/// points: top vertices differ from base vertices, and within the top or the
/// base the footprint corners differ.
pub proof fn lemma_mesh_triangles_distinct(field: HeightField, base: i64, centered: bool)
    requires
        field.wf(),
    ensures
        forall|j: int|
            0 <= j < 12 * field.samples.len() ==> distinct_vertices(
                #[trigger] mesh_of(field.samples@, field.width, field.height, base, centered)[j],
            ),
{
    let s = field.samples@;
    assert forall|j: int| 0 <= j < 12 * field.samples.len() implies distinct_vertices(
        #[trigger] mesh_of(s, field.width, field.height, base, centered)[j],
    ) by {
        let i = j / 12;
        let x = s[i];
        lemma_index_coords(i, field.width as int, field.height as int);
        lemma_corner_bound(x.row, field.height, centered);
        lemma_corner_bound(x.col, field.width, centered);
        lemma_cell_shape(
            corner(x.row, field.height, centered),
            corner(x.col, field.width, centered),
            x.elevation,
            (x.elevation + x.delta) as i64,
            base,
        );
        assert(0 <= j % 12 < 12);
    }
}

/// A base vertex lies at level `b`; a top vertex at or above it.
pub open spec fn rests_on(v: Vertex, b: int) -> bool {
    (v.on_base ==> v.z == b) && (!v.on_base ==> v.z >= b)
}

/// The mesh stands on its base level: every base vertex lies at it and every
/// top vertex at or above it.
pub proof fn lemma_mesh_above_base(field: HeightField, centered: bool)
    requires
        field.wf(),
    ensures
        ({
            let s = field.samples@;
            let b = floor_level(s);
            let m = mesh_of(s, field.width, field.height, b as i64, centered);
            forall|j: int|
                0 <= j < m.len() ==> {
                    let t = #[trigger] m[j];
                    rests_on(t.a, b) && rests_on(t.b, b) && rests_on(t.c, b)
                }
        }),
{
    let s = field.samples@;
    let b = floor_level(s);
    lemma_floor_level_bound(s);
    let m = mesh_of(s, field.width, field.height, b as i64, centered);
    assert forall|j: int| 0 <= j < m.len() implies {
        let t = #[trigger] m[j];
        rests_on(t.a, b) && rests_on(t.b, b) && rests_on(t.c, b)
    } by {
        let i = j / 12;
        let x = s[i];
        lemma_index_coords(i, field.width as int, field.height as int);
        lemma_corner_bound(x.row, field.height, centered);
        lemma_corner_bound(x.col, field.width, centered);
        lemma_base_below_cells(s, i);
        lemma_cell_shape(
            corner(x.row, field.height, centered),
            corner(x.col, field.width, centered),
            x.elevation,
            (x.elevation + x.delta) as i64,
            b as i64,
        );
        assert(0 <= j % 12 < 12);
    }
}

/// Appends the two triangles of the quadrilateral `v0 v1 v2 v3`.
pub fn push_quad(out: &mut Vec<Triangle>, v0: Vertex, v1: Vertex, v2: Vertex, v3: Vertex)
    ensures
        final(out)@ == old(out)@ + quad(v0, v1, v2, v3),
{
    out.push(Triangle { a: v0, b: v2, c: v3 });
    out.push(Triangle { a: v0, b: v1, c: v2 });
    assert(final(out)@ =~= old(out)@ + quad(v0, v1, v2, v3));
}

/// Emits the twelve triangles of the box of each sample of `field`, standing
/// on base level `base`; with `centered` the footprint is centred on the
/// field's bounding box.
pub fn build_mesh(field: &HeightField, base: i64, centered: bool) -> (r: Vec<Triangle>)
    requires
        field.wf(),
    ensures
        r@ == mesh_of(field.samples@, field.width, field.height, base, centered),
        r.len() == 12 * field.samples.len(),
{
    let n = field.samples.len();
    let ghost s = field.samples@;
    let ghost model = mesh_of(s, field.width, field.height, base, centered);
    let mut out: Vec<Triangle> = Vec::new();
    let mut i: usize = 0;
    while i < n
        invariant
            field.wf(),
            s == field.samples@,
            n == s.len(),
            model == mesh_of(s, field.width, field.height, base, centered),
            i <= n,
            out.len() == 12 * i,
            forall|j: int| 0 <= j < out.len() ==> #[trigger] out@[j] == model[j],
        decreases n - i,
    {
        let x = field.samples[i];
        proof {
            lemma_index_coords(i as int, field.width as int, field.height as int);
        }
        let rx: i64 = 2 * (x.row as i64);
        let cy: i64 = 2 * (x.col as i64);
        let x0: i64 = if centered {
            rx - field.height as i64
        } else {
            rx
        };
        let y0: i64 = if centered {
            cy - field.width as i64
        } else {
            cy
        };
        let x1 = x0 + 2;
        let y1 = y0 + 2;
        let z0 = x.elevation;
        let z1 = x.elevation + x.delta;
        let b = base;
        let ghost before = out@;
        push_quad(&mut out, Vertex { x: x0, y: y0, z: z0, on_base: false }, Vertex { x: x1, y: y0, z: z0, on_base: false }, Vertex { x: x1, y: y1, z: z1, on_base: false }, Vertex { x: x0, y: y1, z: z1, on_base: false });
        push_quad(&mut out, Vertex { x: x0, y: y0, z: b, on_base: true }, Vertex { x: x1, y: y0, z: b, on_base: true }, Vertex { x: x1, y: y1, z: b, on_base: true }, Vertex { x: x0, y: y1, z: b, on_base: true });
        push_quad(&mut out, Vertex { x: x0, y: y0, z: b, on_base: true }, Vertex { x: x1, y: y0, z: b, on_base: true }, Vertex { x: x1, y: y0, z: z0, on_base: false }, Vertex { x: x0, y: y0, z: z0, on_base: false });
        push_quad(&mut out, Vertex { x: x0, y: y1, z: b, on_base: true }, Vertex { x: x1, y: y1, z: b, on_base: true }, Vertex { x: x1, y: y1, z: z1, on_base: false }, Vertex { x: x0, y: y1, z: z1, on_base: false });
        push_quad(&mut out, Vertex { x: x0, y: y0, z: b, on_base: true }, Vertex { x: x0, y: y1, z: b, on_base: true }, Vertex { x: x0, y: y1, z: z1, on_base: false }, Vertex { x: x0, y: y0, z: z0, on_base: false });
        push_quad(&mut out, Vertex { x: x1, y: y0, z: b, on_base: true }, Vertex { x: x1, y: y1, z: b, on_base: true }, Vertex { x: x1, y: y1, z: z1, on_base: false }, Vertex { x: x1, y: y0, z: z0, on_base: false });
        let ghost cell = sample_triangles(x, field.width, field.height, base, centered);
        assert(out@ =~= before + cell);
        assert forall|j: int| 0 <= j < out.len() implies #[trigger] out@[j] == model[j] by {
            if j >= 12 * i {
                assert(j / 12 == i);
                assert(out@[j] == cell[j - 12 * i]);
            }
        }
        i = i + 1;
    }
    assert(out@ =~= model);
    out
}

} // verus!
