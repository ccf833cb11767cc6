//! Integer bookkeeping of the 3D debug drawing: the draw ranges of a line
//! batch, the triangle indices of a capsule mesh and of a triangle navmesh,
//! and the lines of the ground grid.
use vstd::prelude::*;
use vstd::arithmetic::mul::lemma_mul_inequality;
use crate::text::magnitude;

verus! {

/// How a range of line vertices is drawn.
#[derive(Clone, Copy, Debug, PartialEq, Eq, Structural)]
pub enum LineMode {
    /// Each pair of vertices is a segment.
    Lines,
    /// The vertices form an open polyline.
    LineStrip,
    /// The vertices form a closed polyline.
    LineLoop,
}

/// A run of consecutive vertices of the batch drawn in one mode.
#[derive(Clone, Copy, Debug, PartialEq, Eq, Structural)]
pub struct DrawRange {
    pub mode: LineMode,
    pub first: i32,
    pub count: i32,
}

/// Number of vertices covered by a list of draw ranges.
pub open spec fn covered(draws: Seq<DrawRange>) -> int
    decreases draws.len(),
{
    if draws.len() == 0 {
        0
    } else {
        covered(draws.drop_last()) + draws.last().count
    }
}

/// The ranges follow one another without gap or overlap from the first
/// vertex, each with at least one vertex.
pub open spec fn ranges_tile(draws: Seq<DrawRange>) -> bool {
    forall|i: int| 0 <= i < draws.len() ==> (#[trigger] draws[i]).first == covered(draws.take(i)) && draws[i].count > 0
}

/// Vertices per batch when nothing was drawn yet: 1024 bytes of 24-byte
/// vertices.
pub const INITIAL_LINE_CAPACITY: i32 = 42;

/// The vertex count and draw ranges of a batch of debug lines, and how many
/// vertices its GPU buffer holds. The vertices themselves are kept beside
/// it, one for each counted here.
pub struct LineBatch {
    pub vertex_count: i32,
    pub draws: Vec<DrawRange>,
    pub capacity: i32,
}

impl LineBatch {
    /// Every vertex belongs to exactly one range, in order.
    pub open spec fn wf(&self) -> bool {
        &&& ranges_tile(self.draws@)
        &&& covered(self.draws@) == self.vertex_count
        &&& self.vertex_count >= 0
    }

    /// An empty batch with the initial buffer.
    pub fn new() -> (b: Self)
        ensures
            b.wf(),
            b.vertex_count == 0,
            b.draws@.len() == 0,
            b.capacity == INITIAL_LINE_CAPACITY,
    {
        LineBatch { vertex_count: 0, draws: Vec::new(), capacity: INITIAL_LINE_CAPACITY }
    }

    /// Forgets every vertex and range; the buffer stays.
    pub fn clear(&mut self)
        ensures
            final(self).wf(),
            final(self).vertex_count == 0,
            final(self).draws@.len() == 0,
            final(self).capacity == old(self).capacity,
    {
        self.vertex_count = 0;
        self.draws = Vec::new();
    }

    /// Records `count` new vertices drawn in `mode`; a range of no vertex
    /// is not recorded.
    fn push_range(&mut self, mode: LineMode, count: i32)
        requires
            old(self).wf(),
            count >= 0,
            old(self).vertex_count + count <= i32::MAX,
        ensures
            final(self).wf(),
            final(self).vertex_count == old(self).vertex_count + count,
            final(self).capacity == old(self).capacity,
            final(self).draws@ == if count > 0 {
                old(self).draws@.push(DrawRange { mode, first: old(self).vertex_count, count })
            } else {
                old(self).draws@
            },
    {
        if count > 0 {
            let ghost before = self.draws@;
            let range = DrawRange { mode, first: self.vertex_count, count };
            self.draws.push(range);
            proof {
                let after = self.draws@;
                assert(after.drop_last() =~= before);
                assert forall|i: int| 0 <= i < after.len() implies (#[trigger] after[i]).first == covered(
                    after.take(i),
                ) && after[i].count > 0 by {
                    if i < before.len() {
                        assert(after.take(i) =~= before.take(i));
                    } else {
                        assert(after.take(i) =~= before);
                    }
                }
            }
        }
        self.vertex_count = self.vertex_count + count;
    }

    /// A segment: two vertices drawn as lines.
    pub fn add_line(&mut self)
        requires
            old(self).wf(),
            old(self).vertex_count + 2 <= i32::MAX,
        ensures
            final(self).wf(),
            final(self).vertex_count == old(self).vertex_count + 2,
            final(self).draws@ == old(self).draws@.push(
                DrawRange { mode: LineMode::Lines, first: old(self).vertex_count, count: 2 },
            ),
            final(self).capacity == old(self).capacity,
    {
        self.push_range(LineMode::Lines, 2);
    }

    /// A polyline (open, or closed when `closed`) through `points` points;
    /// fewer than two points draw nothing. Returns whether the points are to
    /// be added to the vertices.
    pub fn add_polyline(&mut self, points: usize, closed: bool) -> (added: bool)
        requires
            old(self).wf(),
            old(self).vertex_count + points <= i32::MAX,
        ensures
            final(self).wf(),
            added == (points >= 2),
            final(self).capacity == old(self).capacity,
            added ==> final(self).vertex_count == old(self).vertex_count + points
                && final(self).draws@ == old(self).draws@.push(
                DrawRange {
                    mode: if closed { LineMode::LineLoop } else { LineMode::LineStrip },
                    first: old(self).vertex_count,
                    count: points as i32,
                },
            ),
            !added ==> final(self).vertex_count == old(self).vertex_count && final(self).draws@ == old(
                self,
            ).draws@,
    {
        if points < 2 {
            return false;
        }
        let mode = if closed { LineMode::LineLoop } else { LineMode::LineStrip };
        self.push_range(mode, points as i32);
        true
    }

    /// A polyline with a colour per point: drawn only when there are at
    /// least two points and as many colours as points.
    pub fn add_polyline_color(&mut self, points: usize, colors: usize) -> (added: bool)
        requires
            old(self).wf(),
            old(self).vertex_count + points <= i32::MAX,
        ensures
            final(self).wf(),
            added == (points >= 2 && points == colors),
            final(self).capacity == old(self).capacity,
            added ==> final(self).vertex_count == old(self).vertex_count + points
                && final(self).draws@ == old(self).draws@.push(
                DrawRange { mode: LineMode::LineStrip, first: old(self).vertex_count, count: points as i32 },
            ),
            !added ==> final(self).vertex_count == old(self).vertex_count && final(self).draws@ == old(
                self,
            ).draws@,
    {
        if points < 2 || points != colors {
            return false;
        }
        self.push_range(LineMode::LineStrip, points as i32);
        true
    }

    /// Before the upload: the new vertex capacity when the vertices no
    /// longer fit, twice what is needed and at least 1024 vertices.
    pub fn grow_for_upload(&mut self) -> (grown: Option<i32>)
        requires
            0 <= old(self).vertex_count <= i32::MAX / 2,
        ensures
            final(self).vertex_count == old(self).vertex_count,
            final(self).draws@ == old(self).draws@,
            grown == if old(self).vertex_count > old(self).capacity {
                Some(if 2 * old(self).vertex_count > 1024 { (2 * old(self).vertex_count) as i32 } else { 1024i32 })
            } else {
                Option::<i32>::None
            },
            final(self).capacity == match grown {
                Some(c) => c,
                Option::None => old(self).capacity,
            },
            final(self).capacity >= final(self).vertex_count,
    {
        let required = self.vertex_count;
        if required > self.capacity {
            let doubled = required * 2;
            let new_capacity = if doubled > 1024 { doubled } else { 1024 };
            self.capacity = new_capacity;
            Some(new_capacity)
        } else {
            None
        }
    }
}

/// The two triangles of the quad at column `x` of row `y` of a vertex grid
/// starting at `base` with rows of `stride` vertices, counter-clockwise.
pub open spec fn quad(base: int, stride: int, y: int, x: int) -> Seq<int> {
    let i0 = base + y * stride + x;
    let i1 = i0 + 1;
    let i2 = i0 + stride;
    let i3 = i2 + 1;
    seq![i0, i2, i1, i1, i2, i3]
}

/// The triangles of the first `n` quads of row `y`.
pub open spec fn row_quads(base: int, segments: int, y: int, n: nat) -> Seq<int>
    decreases n,
{
    if n == 0 {
        Seq::empty()
    } else {
        row_quads(base, segments, y, (n - 1) as nat) + quad(base, segments + 1, y, n - 1)
    }
}

/// The triangles of the first `rows` rows of quads of a grid of
/// `segments` quads per row.
pub open spec fn grid_quads(base: int, segments: int, rows: nat) -> Seq<int>
    decreases rows,
{
    if rows == 0 {
        Seq::empty()
    } else {
        grid_quads(base, segments, (rows - 1) as nat) + row_quads(base, segments, rows - 1, segments as nat)
    }
}

/// Vertices of a capsule of `rings` rings per half sphere and `segments`
/// segments around: two half spheres of `rings + 1` rows and a cylinder of
/// two rows, each row of `segments + 1` vertices.
pub open spec fn capsule_vertex_count(rings: int, segments: int) -> int {
    (2 * rings + 4) * (segments + 1)
}

/// The triangle indices of a capsule: the top half sphere, the cylinder,
/// the bottom half sphere.
pub open spec fn capsule_triangles(rings: nat, segments: nat) -> Seq<int> {
    let stride = segments + 1;
    grid_quads(0, segments as int, rings) + grid_quads(((rings + 1) * stride) as int, segments as int, 1)
        + grid_quads(((rings + 3) * stride) as int, segments as int, rings)
}

/// The indices of `grid_quads` stay within the grid's `rows + 1` rows.
pub proof fn lemma_grid_quads_in_range(base: int, segments: int, rows: nat)
    requires
        segments >= 0,
        base >= 0,
    ensures
        grid_quads(base, segments, rows).len() == 6 * segments * rows,
        forall|k: int|
            0 <= k < grid_quads(base, segments, rows).len() ==> base <= #[trigger] grid_quads(base, segments, rows)[k]
                < base + (rows + 1) * (segments + 1),
    decreases rows,
{
    if rows > 0 {
        let r = (rows - 1) as nat;
        lemma_grid_quads_in_range(base, segments, r);
        lemma_row_quads_in_range(base, segments, r as int, segments as nat);
        let g = grid_quads(base, segments, r);
        let q = row_quads(base, segments, r as int, segments as nat);
        assert((r + 1) * (segments + 1) <= (rows + 1) * (segments + 1)) by {
            lemma_mul_inequality((r + 1) as int, (rows + 1) as int, segments + 1);
        }
        assert(6 * segments * rows == 6 * segments * r + 6 * segments) by (nonlinear_arith)
            requires rows == r + 1;
        assert forall|k: int| 0 <= k < (g + q).len() implies base <= #[trigger] (g + q)[k] < base + (rows + 1) * (
        segments + 1) by {
            if k >= g.len() {
                assert((g + q)[k] == q[k - g.len()]);
            }
        }
    } else {
        assert(6 * segments * rows == 0) by (nonlinear_arith)
            requires rows == 0;
    }
}

/// The indices of `row_quads` stay within rows `y` and `y + 1`.
proof fn lemma_row_quads_in_range(base: int, segments: int, y: int, n: nat)
    requires
        segments >= 0,
        base >= 0,
        y >= 0,
        n <= segments,
    ensures
        row_quads(base, segments, y, n).len() == 6 * n,
        forall|k: int|
            0 <= k < row_quads(base, segments, y, n).len() ==> base + y * (segments + 1) <= #[trigger] row_quads(
                base,
                segments,
                y,
                n,
            )[k] < base + (y + 2) * (segments + 1),
    decreases n,
{
    if n > 0 {
        let m = (n - 1) as nat;
        lemma_row_quads_in_range(base, segments, y, m);
        let stride = segments + 1;
        assert((y + 2) * stride == y * stride + 2 * stride) by (nonlinear_arith);
        assert((y + 1) * stride == y * stride + stride) by (nonlinear_arith);
        assert(y * stride >= 0) by (nonlinear_arith)
            requires y >= 0, stride >= 1;
        let p = row_quads(base, segments, y, m);
        let qd = quad(base, stride, y, m as int);
        assert forall|k: int| 0 <= k < (p + qd).len() implies base + y * stride <= #[trigger] (p + qd)[k] < base
            + (y + 2) * stride by {
            if k >= p.len() {
                assert((p + qd)[k] == qd[k - p.len()]);
            }
        }
    }
}

/// Every index of a capsule's triangles is one of its vertices.
pub proof fn lemma_capsule_indices_in_range(rings: nat, segments: nat)
    ensures
        capsule_triangles(rings, segments).len() == 6 * segments * (2 * rings + 1),
        forall|k: int|
            0 <= k < capsule_triangles(rings, segments).len() ==> 0 <= #[trigger] capsule_triangles(rings, segments)[k]
                < capsule_vertex_count(rings as int, segments as int),
{
    let r = rings as int;
    let s = segments as int;
    let stride = s + 1;
    let cyl_base = (r + 1) * stride;
    let bottom_base = (r + 3) * stride;
    let n = capsule_vertex_count(r, s);
    assert(cyl_base >= 0) by (nonlinear_arith)
        requires stride >= 1, r >= 0, cyl_base == (r + 1) * stride;
    assert(bottom_base == cyl_base + 2 * stride) by (nonlinear_arith)
        requires cyl_base == (r + 1) * stride, bottom_base == (r + 3) * stride;
    assert(n == bottom_base + cyl_base) by (nonlinear_arith)
        requires stride == s + 1, n == (2 * r + 4) * (s + 1), cyl_base == (r + 1) * stride,
            bottom_base == (r + 3) * stride;
    assert(((rings + 1) * (segments + 1)) as int == cyl_base) by (nonlinear_arith)
        requires r == rings, s == segments, stride == s + 1, cyl_base == (r + 1) * stride;
    assert(((rings + 3) * (segments + 1)) as int == bottom_base) by (nonlinear_arith)
        requires r == rings, s == segments, stride == s + 1, bottom_base == (r + 3) * stride;
    let top = grid_quads(0, s, rings);
    let cyl = grid_quads(cyl_base, s, 1);
    let bottom = grid_quads(bottom_base, s, rings);
    lemma_grid_quads_in_range(0, s, rings);
    lemma_grid_quads_in_range(cyl_base, s, 1);
    lemma_grid_quads_in_range(bottom_base, s, rings);
    assert(6 * s * r + 6 * s * 1 + 6 * s * r == 6 * s * (2 * r + 1)) by (nonlinear_arith);
    assert((1 + 1) * (s + 1) == 2 * stride);
    assert((r + 1) * (s + 1) == cyl_base);
    let all = top + cyl + bottom;
    assert forall|k: int| 0 <= k < all.len() implies 0 <= #[trigger] all[k] < n by {
        if k < top.len() {
            assert(all[k] == top[k]);
        } else if k < top.len() + cyl.len() {
            assert(all[k] == cyl[k - top.len()]);
        } else {
            assert(all[k] == bottom[k - top.len() - cyl.len()]);
        }
    }
}

/// Appends the triangles of `rows` rows of `segments` quads to `idx`.
fn push_grid_quads(idx: &mut Vec<u32>, base: u32, segments: u32, rows: u32)
    requires
        base + (rows + 1) * (segments + 1) <= u32::MAX,
    ensures
        final(idx)@.map_values(|i: u32| i as int) == old(idx)@.map_values(|i: u32| i as int) + grid_quads(
            base as int,
            segments as int,
            rows as nat,
        ),
{
    let ghost start = idx@.map_values(|i: u32| i as int);
    assert((rows + 1) * (segments + 1) >= segments + 1) by (nonlinear_arith);
    let stride = segments + 1;
    let mut y: u32 = 0;
    while y < rows
        invariant
            y <= rows,
            stride == segments + 1,
            base + (rows + 1) * (segments + 1) <= u32::MAX,
            idx@.map_values(|i: u32| i as int) == start + grid_quads(base as int, segments as int, y as nat),
        decreases rows - y,
    {
        let ghost row_start = idx@.map_values(|i: u32| i as int);
        let mut x: u32 = 0;
        proof {
            assert((y + 2) * stride <= (rows + 1) * stride) by {
                lemma_mul_inequality((y + 2) as int, (rows + 1) as int, stride as int);
            }
            assert((y + 2) * stride == y * stride + 2 * stride) by (nonlinear_arith);
        }
        while x < segments
            invariant
                y < rows,
                x <= segments,
                stride == segments + 1,
                base + (y + 2) * stride <= u32::MAX,
                (y + 2) * stride == y * stride + 2 * stride,
                idx@.map_values(|i: u32| i as int) == row_start + row_quads(base as int, segments as int, y as int, x as nat),
            decreases segments - x,
        {
            proof {
                assert(y * stride + x + stride + 1 <= (y + 2) * stride);
            }
            let i0 = base + y * stride + x;
            let i1 = i0 + 1;
            let i2 = i0 + stride;
            let i3 = i2 + 1;
            let ghost before = idx@.map_values(|i: u32| i as int);
            idx.push(i0);
            idx.push(i2);
            idx.push(i1);
            idx.push(i1);
            idx.push(i2);
            idx.push(i3);
            assert(idx@.map_values(|i: u32| i as int) =~= before + quad(base as int, stride as int, y as int, x as int));
            x = x + 1;
        }
        y = y + 1;
    }
}

/// The triangle indices of a capsule with `rings` rings per half sphere and
/// `segments` segments around (its vertices are laid out row by row: top
/// half sphere, cylinder, bottom half sphere).
pub fn capsule_indices(rings: u32, segments: u32) -> (idx: Vec<u32>)
    requires
        capsule_vertex_count(rings as int, segments as int) <= u32::MAX,
    ensures
        idx@.map_values(|i: u32| i as int) == capsule_triangles(rings as nat, segments as nat),
        forall|k: int| 0 <= k < idx@.len() ==> (#[trigger] idx@[k]) < capsule_vertex_count(rings as int, segments as int),
{
    let ghost r = rings as int;
    let ghost sg = segments as int;
    let ghost n = capsule_vertex_count(r, sg);
    assert(n == (r + 1) * (sg + 1) + (r + 1) * (sg + 1) + 2 * (sg + 1)) by (nonlinear_arith)
        requires n == (2 * r + 4) * (sg + 1);
    assert((r + 1) * (sg + 1) >= sg + 1) by (nonlinear_arith)
        requires r >= 0, sg >= 0;
    assert(2 * r + 4 <= n) by (nonlinear_arith)
        requires n == (2 * r + 4) * (sg + 1), sg >= 0, r >= 0;
    let stride = segments + 1;
    assert((rings + 1) * stride == (r + 1) * (sg + 1)) by (nonlinear_arith)
        requires stride == sg + 1, r == rings;
    let cylinder_base = (rings + 1) * stride;
    let bottom_base = cylinder_base + 2 * stride;
    assert(cylinder_base == (r + 1) * (sg + 1));
    assert(bottom_base == (r + 3) * (sg + 1)) by (nonlinear_arith)
        requires bottom_base == (r + 1) * (sg + 1) + 2 * (sg + 1);
    assert(cylinder_base + 2 * stride == (1 + 1) * (sg + 1) + cylinder_base);
    let mut idx: Vec<u32> = Vec::new();
    push_grid_quads(&mut idx, 0, segments, rings);
    push_grid_quads(&mut idx, cylinder_base, segments, 1);
    push_grid_quads(&mut idx, bottom_base, segments, rings);
    proof {
        assert(Seq::<u32>::empty().map_values(|i: u32| i as int) =~= Seq::<int>::empty());
        assert(idx@.map_values(|i: u32| i as int) =~= capsule_triangles(rings as nat, segments as nat));
        lemma_capsule_indices_in_range(rings as nat, segments as nat);
        assert forall|k: int| 0 <= k < idx@.len() implies (#[trigger] idx@[k]) < capsule_vertex_count(
            rings as int,
            segments as int,
        ) by {
            assert(idx@.map_values(|i: u32| i as int)[k] == idx@[k] as int);
        }
    }
    idx
}


/// In a well-formed batch every draw range lies within the vertices, so
/// the upload covers all that is drawn.
pub proof fn lemma_ranges_within_vertices(draws: Seq<DrawRange>)
    requires
        ranges_tile(draws),
    ensures
        forall|i: int|
            0 <= i < draws.len() ==> 0 <= (#[trigger] draws[i]).first && draws[i].first + draws[i].count
                <= covered(draws),
    decreases draws.len(),
{
    if draws.len() > 0 {
        let p = draws.drop_last();
        assert forall|i: int| 0 <= i < p.len() implies (#[trigger] p[i]).first == covered(p.take(i))
            && p[i].count > 0 by {
            assert(p[i] == draws[i]);
            assert(p.take(i) =~= draws.take(i));
        }
        lemma_ranges_within_vertices(p);
        lemma_covered_nonneg(p);
        assert(draws.take(p.len() as int) =~= p);
        assert forall|i: int| 0 <= i < draws.len() implies 0 <= (#[trigger] draws[i]).first && draws[i].first
            + draws[i].count <= covered(draws) by {
            if i < p.len() {
                assert(p[i] == draws[i]);
            }
        }
    }
}

/// Draw ranges cover no negative number of vertices.
proof fn lemma_covered_nonneg(draws: Seq<DrawRange>)
    requires
        ranges_tile(draws),
    ensures
        covered(draws) >= 0,
    decreases draws.len(),
{
    if draws.len() > 0 {
        let p = draws.drop_last();
        assert forall|i: int| 0 <= i < p.len() implies (#[trigger] p[i]).first == covered(p.take(i))
            && p[i].count > 0 by {
            assert(p[i] == draws[i]);
            assert(p.take(i) =~= draws.take(i));
        }
        lemma_covered_nonneg(p);
        assert(draws[draws.len() - 1].count > 0);
    }
}

/// The triangles of a navmesh whose polygons are all triangles: each run of
/// three vertex indices is one triangle.
pub open spec fn navmesh_triangles(polygons: Seq<u32>) -> Seq<[u32; 3]> {
    Seq::new(polygons.len() / 3, |t: int| [polygons[3 * t], polygons[3 * t + 1], polygons[3 * t + 2]])
}

/// The triangles of a navmesh stored as runs of `max_vertices_per_polygon`
/// vertex indices (the last run may be shorter); only triangles are
/// handled, so every run must hold three indices: runs of three, or a
/// single run of three, or no polygon at all.
pub fn navmesh_triangle_indices(polygons: &Vec<u32>, max_vertices_per_polygon: u8) -> (tris: Vec<[u32; 3]>)
    requires
        max_vertices_per_polygon > 0,
        polygons@.len() == 0 || (max_vertices_per_polygon == 3 && polygons@.len() % 3 == 0) || (
        max_vertices_per_polygon > 3 && polygons@.len() == 3),
    ensures
        tris@ == navmesh_triangles(polygons@),
{
    assert(polygons@.len() % 3 == 0);
    let mut tris: Vec<[u32; 3]> = Vec::new();
    let mut t: usize = 0;
    let count = polygons.len() / 3;
    while t < count
        invariant
            count == polygons@.len() / 3,
            polygons@.len() % 3 == 0,
            t <= count,
            tris@ == navmesh_triangles(polygons@).take(t as int),
        decreases count - t,
    {
        assert(3 * t + 2 < polygons@.len()) by (nonlinear_arith)
            requires t < count, count == polygons@.len() / 3, polygons@.len() % 3 == 0;
        assert(polygons@.len() == polygons.len());
        let tri = [polygons[3 * t], polygons[3 * t + 1], polygons[3 * t + 2]];
        tris.push(tri);
        assert(tris@ =~= navmesh_triangles(polygons@).take(t + 1));
        t = t + 1;
    }
    assert(navmesh_triangles(polygons@).take(count as int) =~= navmesh_triangles(polygons@));
    tris
}

/// The grid reaches at least one step out.
pub open spec fn grid_extent(extent: i32) -> int {
    if extent < 1 {
        1
    } else {
        extent as int
    }
}

/// The grid's lines by offset from the middle, `-e` to `e` steps, each
/// marked major when the offset is a multiple of `major_every`.
pub open spec fn grid_line_marks(extent: i32, major_every: i32) -> Seq<(i32, bool)> {
    let e = grid_extent(extent);
    Seq::new((2 * e + 1) as nat, |k: int| ((k - e) as i32, magnitude(k - e) % magnitude(major_every as int) == 0))
}

/// The offsets of the ground grid's lines and whether each is a major line;
/// two lines (along X and along Z) are drawn at each offset, then the three
/// axis lines.
pub fn grid_lines(extent: i32, major_every: i32) -> (marks: Vec<(i32, bool)>)
    requires
        major_every != 0,
    ensures
        marks@ == grid_line_marks(extent, major_every),
{
    let e: i64 = if extent < 1 { 1 } else { extent as i64 };
    let m: i64 = major_every as i64;
    let mut marks: Vec<(i32, bool)> = Vec::new();
    let mut i: i64 = -e;
    while i <= e
        invariant
            e == grid_extent(extent),
            1 <= e <= i32::MAX,
            m == major_every,
            -e <= i <= e + 1,
            major_every != 0,
            marks@ == grid_line_marks(extent, major_every).take(i + e),
        decreases e - i + 1,
    {
        let a: u64 = if i < 0 { (-i) as u64 } else { i as u64 };
        let b: u64 = if m < 0 { (-m) as u64 } else { m as u64 };
        let major = a % b == 0;
        marks.push((i as i32, major));
        assert(marks@ =~= grid_line_marks(extent, major_every).take(i + 1 + e));
        i = i + 1;
    }
    assert(grid_line_marks(extent, major_every).take(2 * e + 1) =~= grid_line_marks(extent, major_every));
    marks
}

/// A quad is split along its diagonal from the corner below-left to the
/// corner above-right into two counter-clockwise triangles over its four
/// corners: `(i, i + stride, i + 1)` and `(i + 1, i + stride, i + stride + 1)`.
pub proof fn lemma_quad_corners(base: int, stride: int, y: int, x: int)
    ensures
        ({
            let i = base + y * stride + x;
            quad(base, stride, y, x) == seq![i, i + stride, i + 1, i + 1, i + stride, i + stride + 1]
        }),
{
}

/// The grid's lines go one step apart from `-e` to `e` (`e` at least 1);
/// a line is major exactly when its offset is a multiple of `major_every`,
/// so the middle line is always major.
pub proof fn lemma_grid_line_marks(extent: i32, major_every: i32)
    requires
        major_every != 0,
    ensures
        ({
            let m = grid_line_marks(extent, major_every);
            let e = grid_extent(extent);
            &&& e >= 1 && (extent >= 1 ==> e == extent)
            &&& m.len() == 2 * e + 1
            &&& m[0].0 == -e && m[m.len() - 1].0 == e
            &&& forall|k: int| 0 < k < m.len() ==> #[trigger] m[k].0 == m[k - 1].0 + 1
            &&& forall|k: int| 0 <= k < m.len() ==> (#[trigger] m[k].1 <==> magnitude(m[k].0 as int) % magnitude(
                major_every as int,
            ) == 0)
            &&& m[e].0 == 0 && m[e].1
        }),
{
    let m = grid_line_marks(extent, major_every);
    let e = grid_extent(extent);
    let mm = magnitude(major_every as int);
    assert(mm > 0);
    assert(0nat % mm == 0) by (nonlinear_arith)
        requires
            mm > 0,
    ;
    assert(magnitude(0) == 0);
    assert(m[e].0 == 0);
}

} // verus!
