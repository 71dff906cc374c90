//! Mesh extraction: walks a chunk and emits, per face direction, a batch of
//! quads for exactly the visible faces.

use vstd::arithmetic::div_mod::{
    lemma_div_denominator, lemma_div_is_ordered, lemma_div_pos_is_pos, lemma_fundamental_div_mod,
    lemma_fundamental_div_mod_converse, lemma_mod_bound,
};
use vstd::arithmetic::mul::lemma_mul_is_commutative;
use vstd::prelude::*;

use crate::chunk::{
    block_at, face_visible_at, flat_index, in_bounds, lemma_flat_coords, Chunk, CHUNK_SIZE,
    VOXEL_COUNT,
};
use crate::voxel::Voxel;

verus! {

/// One corner of a quad. Vertices sit on the integer lattice of voxel
/// corners, so coordinates range over `[0, CHUNK_SIZE]`.
#[derive(Clone, Copy, Debug, PartialEq, Eq, Structural)]
pub struct Vertex {
    pub x: u32,
    pub y: u32,
    pub z: u32,
}

/// An RGBA colour with components in half-intensity steps: `2` is full
/// intensity, `1` is half, `0` is none.
#[derive(Clone, Copy, Debug, PartialEq, Eq, Structural)]
pub struct FaceColor {
    pub r: u8,
    pub g: u8,
    pub b: u8,
    pub a: u8,
}

/// The geometry batch of one face direction: parallel vertex position and
/// colour arrays, plus a flat triangle list of indices into them.
pub struct MeshData {
    pub positions: Vec<Vertex>,
    pub colors: Vec<FaceColor>,
    pub indices: Vec<u32>,
}

/// X component of the unit offset of direction `d`; directions are numbered
/// +X, -X, +Y, -Y, +Z, -Z.
pub open spec fn dir_dx(d: int) -> int {
    if d == 0 {
        1
    } else if d == 1 {
        -1
    } else {
        0
    }
}

/// Y component of the unit offset of direction `d`.
pub open spec fn dir_dy(d: int) -> int {
    if d == 2 {
        1
    } else if d == 3 {
        -1
    } else {
        0
    }
}

/// Z component of the unit offset of direction `d`.
pub open spec fn dir_dz(d: int) -> int {
    if d == 4 {
        1
    } else if d == 5 {
        -1
    } else {
        0
    }
}

/// The fixed palette: every face of direction `d` carries this colour.
pub open spec fn dir_color(d: int) -> FaceColor {
    if d == 0 {
        FaceColor { r: 2, g: 0, b: 0, a: 2 }
    } else if d == 1 {
        FaceColor { r: 2, g: 2, b: 0, a: 2 }
    } else if d == 2 {
        FaceColor { r: 0, g: 2, b: 0, a: 2 }
    } else if d == 3 {
        FaceColor { r: 0, g: 0, b: 2, a: 2 }
    } else if d == 4 {
        FaceColor { r: 2, g: 1, b: 0, a: 2 }
    } else {
        FaceColor { r: 1, g: 0, b: 1, a: 2 }
    }
}

/// Vertex `j` (of 4) of the quad that the voxel at `(x, y, z)` emits in
/// direction `d`, as integer lattice coordinates. The order fixes the
/// winding: the quad's triangles are `(0, 1, 2)` and `(0, 2, 3)`.
pub open spec fn quad_vertex(d: int, x: int, y: int, z: int, j: int) -> (int, int, int) {
    if d == 0 {
        if j == 0 {
            (x + 1, y, z)
        } else if j == 1 {
            (x + 1, y + 1, z)
        } else if j == 2 {
            (x + 1, y + 1, z + 1)
        } else {
            (x + 1, y, z + 1)
        }
    } else if d == 1 {
        if j == 0 {
            (x, y, z)
        } else if j == 1 {
            (x, y, z + 1)
        } else if j == 2 {
            (x, y + 1, z + 1)
        } else {
            (x, y + 1, z)
        }
    } else if d == 2 {
        if j == 0 {
            (x, y + 1, z)
        } else if j == 1 {
            (x, y + 1, z + 1)
        } else if j == 2 {
            (x + 1, y + 1, z + 1)
        } else {
            (x + 1, y + 1, z)
        }
    } else if d == 3 {
        if j == 0 {
            (x, y, z)
        } else if j == 1 {
            (x + 1, y, z)
        } else if j == 2 {
            (x + 1, y, z + 1)
        } else {
            (x, y, z + 1)
        }
    } else if d == 4 {
        if j == 0 {
            (x, y, z + 1)
        } else if j == 1 {
            (x + 1, y, z + 1)
        } else if j == 2 {
            (x + 1, y + 1, z + 1)
        } else {
            (x, y + 1, z + 1)
        }
    } else {
        if j == 0 {
            (x, y, z)
        } else if j == 1 {
            (x, y + 1, z)
        } else if j == 2 {
            (x + 1, y + 1, z)
        } else {
            (x + 1, y, z)
        }
    }
}

/// An executable vertex equals the given lattice point.
pub open spec fn vertex_is(v: Vertex, p: (int, int, int)) -> bool {
    &&& v.x as int == p.0
    &&& v.y as int == p.1
    &&& v.z as int == p.2
}

/// Scan position of the voxel at `(x, y, z)`: extraction walks the grid with
/// `x` outermost, then `z`, then `y`.
pub open spec fn scan_index(x: int, y: int, z: int) -> int {
    1024 * x + 32 * z + y
}

/// X coordinate of scan position `s`.
pub open spec fn scan_x(s: int) -> int {
    s / 1024
}

/// Y coordinate of scan position `s`.
pub open spec fn scan_y(s: int) -> int {
    s % 32
}

/// Z coordinate of scan position `s`.
pub open spec fn scan_z(s: int) -> int {
    (s / 32) % 32
}

/// The voxel at scan position `s` emits a quad in direction `d`: it is not
/// air, and its face on that side is visible.
pub open spec fn emits_face(c: Seq<Voxel>, d: int, s: int) -> bool {
    let x = scan_x(s);
    let y = scan_y(s);
    let z = scan_z(s);
    &&& !block_at(c, x, y, z).spec_is_air()
    &&& face_visible_at(c, x, y, z, dir_dx(d), dir_dy(d), dir_dz(d))
}

/// The scan positions below `n` that emit a quad in direction `d`, in scan
/// order. One quad is generated per entry.
pub open spec fn visible_cells(c: Seq<Voxel>, d: int, n: int) -> Seq<int>
    decreases n,
{
    if n <= 0 {
        Seq::<int>::empty()
    } else if emits_face(c, d, n - 1) {
        visible_cells(c, d, n - 1).push(n - 1)
    } else {
        visible_cells(c, d, n - 1)
    }
}

/// Quad `q` of the position buffer holds the four vertices of the quad
/// emitted in direction `d` by the voxel at scan position `s`, in winding
/// order.
pub open spec fn quad_positions_ok(pv: Seq<Vertex>, d: int, s: int, q: int) -> bool {
    let x = scan_x(s);
    let y = scan_y(s);
    let z = scan_z(s);
    &&& vertex_is(pv[4 * q], quad_vertex(d, x, y, z, 0))
    &&& vertex_is(pv[4 * q + 1], quad_vertex(d, x, y, z, 1))
    &&& vertex_is(pv[4 * q + 2], quad_vertex(d, x, y, z, 2))
    &&& vertex_is(pv[4 * q + 3], quad_vertex(d, x, y, z, 3))
}

/// Quad `q` of the index buffer lists its two triangles `(v0, v1, v2)` and
/// `(v0, v2, v3)`, based at vertex `4 * q`.
pub open spec fn quad_indices_ok(iv: Seq<u32>, q: int) -> bool {
    &&& iv[6 * q] as int == 4 * q
    &&& iv[6 * q + 1] as int == 4 * q + 1
    &&& iv[6 * q + 2] as int == 4 * q + 2
    &&& iv[6 * q + 3] as int == 4 * q
    &&& iv[6 * q + 4] as int == 4 * q + 2
    &&& iv[6 * q + 5] as int == 4 * q + 3
}

/// The three buffers hold exactly one quad, with direction `d`'s colour on
/// every vertex, for each cell of `visible_cells(c, d, n)`, in scan order.
pub open spec fn bufs_upto(
    c: Seq<Voxel>,
    d: int,
    pv: Seq<Vertex>,
    cv: Seq<FaceColor>,
    iv: Seq<u32>,
    n: int,
) -> bool {
    let cells = visible_cells(c, d, n);
    &&& pv.len() == 4 * cells.len()
    &&& cv.len() == 4 * cells.len()
    &&& iv.len() == 6 * cells.len()
    &&& forall|q: int| 0 <= q < cells.len() ==> #[trigger] quad_positions_ok(pv, d, cells[q], q)
    &&& forall|i: int| 0 <= i < cv.len() ==> cv[i] == dir_color(d)
    &&& forall|q: int| 0 <= q < cells.len() ==> #[trigger] quad_indices_ok(iv, q)
}

/// The batch is the complete extraction of direction `d` over the whole grid.
pub open spec fn batch_complete(c: Seq<Voxel>, d: int, m: MeshData) -> bool {
    bufs_upto(c, d, m.positions@, m.colors@, m.indices@, VOXEL_COUNT as int)
}

/// Scan coordinates recover the loop counters: the scan position of in-range
/// `(x, y, z)` lies in the grid and decodes back to `(x, y, z)`.
pub proof fn lemma_scan_coords(x: int, y: int, z: int)
    requires
        in_bounds(x, y, z),
    ensures
        0 <= scan_index(x, y, z) < VOXEL_COUNT,
        scan_x(scan_index(x, y, z)) == x,
        scan_y(scan_index(x, y, z)) == y,
        scan_z(scan_index(x, y, z)) == z,
{
    let s = scan_index(x, y, z);
    assert(s == (32 * x + z) * 32 + y);
    lemma_fundamental_div_mod_converse(s, 32, 32 * x + z, y);
    lemma_fundamental_div_mod_converse(32 * x + z, 32, x, z);
    lemma_div_denominator(s, 32, 32);
}

/// Every scan position in the grid decodes to in-range coordinates, and
/// re-encoding them yields the same position.
pub proof fn lemma_scan_cell(s: int)
    requires
        0 <= s < VOXEL_COUNT,
    ensures
        in_bounds(scan_x(s), scan_y(s), scan_z(s)),
        scan_index(scan_x(s), scan_y(s), scan_z(s)) == s,
{
    lemma_mod_bound(s, 32);
    lemma_div_pos_is_pos(s, 32);
    lemma_fundamental_div_mod(s, 32);
    let q = s / 32;
    lemma_mod_bound(q, 32);
    lemma_fundamental_div_mod(q, 32);
    lemma_div_denominator(s, 32, 32);
    assert(q <= 1023) by {
        lemma_div_is_ordered(s, 32767, 32);
        lemma_fundamental_div_mod_converse(32767, 32, 1023, 31);
    }
    assert(q / 32 <= 31) by {
        lemma_div_is_ordered(q, 1023, 32);
        lemma_fundamental_div_mod_converse(1023, 32, 31, 31);
    }
    lemma_div_pos_is_pos(q, 32);
}

/// No more quads can be emitted than there are scan positions.
pub proof fn lemma_visible_cells_len(c: Seq<Voxel>, d: int, n: int)
    requires
        n >= 0,
    ensures
        visible_cells(c, d, n).len() <= n,
    decreases n,
{
    if n > 0 {
        lemma_visible_cells_len(c, d, n - 1);
    }
}

/// Every listed cell lies below the scan bound and does emit a face.
pub proof fn lemma_visible_cells_elements(c: Seq<Voxel>, d: int, n: int)
    requires
        n >= 0,
    ensures
        forall|q: int|
            0 <= q < visible_cells(c, d, n).len() ==> {
                &&& 0 <= #[trigger] visible_cells(c, d, n)[q] < n
                &&& emits_face(c, d, visible_cells(c, d, n)[q])
            },
    decreases n,
{
    if n > 0 {
        lemma_visible_cells_elements(c, d, n - 1);
        let prev = visible_cells(c, d, n - 1);
        let cells = visible_cells(c, d, n);
        assert forall|q: int|
            0 <= q < cells.len() implies {
            &&& 0 <= #[trigger] cells[q] < n
            &&& emits_face(c, d, cells[q])
        } by {
            if q < prev.len() {
                assert(cells[q] == prev[q]);
            }
        }
    }
}

/// Every scan position below the bound that emits a face is listed.
pub proof fn lemma_visible_cells_complete(c: Seq<Voxel>, d: int, n: int, s: int)
    requires
        0 <= s < n,
        emits_face(c, d, s),
    ensures
        visible_cells(c, d, n).contains(s),
    decreases n,
{
    let cells = visible_cells(c, d, n);
    if s == n - 1 {
        assert(cells[cells.len() - 1] == s);
    } else {
        lemma_visible_cells_complete(c, d, n - 1, s);
        let prev = visible_cells(c, d, n - 1);
        let q = choose|q: int| 0 <= q < prev.len() && prev[q] == s;
        assert(cells[q] == s);
    }
}

/// When exactly one scan position emits, exactly that one is listed.
proof fn lemma_visible_cells_single(c: Seq<Voxel>, d: int, n: int, s0: int)
    requires
        0 <= s0,
        forall|s: int| 0 <= s < n ==> (emits_face(c, d, s) <==> s == s0),
    ensures
        visible_cells(c, d, n) == if n <= s0 {
            Seq::<int>::empty()
        } else {
            seq![s0]
        },
    decreases n,
{
    if n > 0 {
        lemma_visible_cells_single(c, d, n - 1, s0);
        if n - 1 == s0 {
            assert(visible_cells(c, d, n) =~= seq![s0]);
        }
    }
}

/// A chunk holding only air emits no geometry: the batch of every direction
/// is empty.
pub proof fn lemma_all_air_no_faces(c: Seq<Voxel>, d: int, m: MeshData)
    requires
        c.len() == VOXEL_COUNT,
        forall|i: int| 0 <= i < c.len() ==> (#[trigger] c[i]).spec_is_air(),
        batch_complete(c, d, m),
    ensures
        m.positions@.len() == 0,
        m.colors@.len() == 0,
        m.indices@.len() == 0,
{
    let cells = visible_cells(c, d, VOXEL_COUNT as int);
    lemma_visible_cells_elements(c, d, VOXEL_COUNT as int);
    if cells.len() > 0 {
        let s = cells[0];
        assert(emits_face(c, d, s));
        lemma_scan_cell(s);
        lemma_flat_coords(scan_x(s), scan_y(s), scan_z(s));
        assert(false);
    }
}

/// In a chunk with no air anywhere, a face is emitted in a direction exactly
/// by the voxels on the chunk's outer boundary facing that way: all interior
/// faces are culled.
pub proof fn lemma_solid_chunk_boundary_faces(c: Seq<Voxel>, d: int)
    requires
        c.len() == VOXEL_COUNT,
        forall|i: int| 0 <= i < c.len() ==> !(#[trigger] c[i]).spec_is_air(),
        0 <= d < 6,
    ensures
        forall|s: int|
            0 <= s < VOXEL_COUNT ==> (#[trigger] visible_cells(
                c,
                d,
                VOXEL_COUNT as int,
            ).contains(s) <==> !in_bounds(
                scan_x(s) + dir_dx(d),
                scan_y(s) + dir_dy(d),
                scan_z(s) + dir_dz(d),
            )),
{
    let cells = visible_cells(c, d, VOXEL_COUNT as int);
    lemma_visible_cells_elements(c, d, VOXEL_COUNT as int);
    assert forall|s: int|
        0 <= s < VOXEL_COUNT implies (#[trigger] cells.contains(s) <==> !in_bounds(
        scan_x(s) + dir_dx(d),
        scan_y(s) + dir_dy(d),
        scan_z(s) + dir_dz(d),
    )) by {
        lemma_scan_cell(s);
        let x = scan_x(s);
        let y = scan_y(s);
        let z = scan_z(s);
        lemma_flat_coords(x, y, z);
        if in_bounds(x + dir_dx(d), y + dir_dy(d), z + dir_dz(d)) {
            lemma_flat_coords(x + dir_dx(d), y + dir_dy(d), z + dir_dz(d));
            assert(!emits_face(c, d, s));
            if cells.contains(s) {
                let q = choose|q: int| 0 <= q < cells.len() && cells[q] == s;
                assert(emits_face(c, d, cells[q]));
            }
        } else {
            assert(emits_face(c, d, s));
            lemma_visible_cells_complete(c, d, VOXEL_COUNT as int, s);
        }
    }
}

/// Quads emitted by the cells of one period of length `p`, against the window
/// `[lo, hi)`, when only the first `r` cells of the period are scanned.
spec fn window_partial(r: int, lo: int, hi: int) -> int {
    if r <= lo {
        0
    } else if r >= hi {
        hi - lo
    } else {
        r - lo
    }
}

/// When emission is periodic in the scan position — a face is emitted exactly
/// when the position's offset inside a period of length `p` falls in
/// `[lo, hi)` — the quad count is the window size per full period scanned,
/// plus the listed part of the final period.
proof fn lemma_periodic_cells_len(c: Seq<Voxel>, d: int, p: int, lo: int, hi: int, n: int)
    requires
        2 <= p,
        0 <= lo < hi <= p,
        n >= 0,
        forall|s: int| 0 <= s < n ==> (emits_face(c, d, s) <==> lo <= s % p < hi),
    ensures
        visible_cells(c, d, n).len() == n / p * (hi - lo) + window_partial(n % p, lo, hi),
    decreases n,
{
    if n == 0 {
        lemma_fundamental_div_mod_converse(0, p, 0, 0);
        assert(0 * (hi - lo) == 0) by (nonlinear_arith);
    } else {
        lemma_periodic_cells_len(c, d, p, lo, hi, n - 1);
        lemma_mod_bound(n - 1, p);
        lemma_div_pos_is_pos(n - 1, p);
        let q = (n - 1) / p;
        let r = (n - 1) % p;
        lemma_fundamental_div_mod(n - 1, p);
        lemma_mul_is_commutative(p, q);
        if r < p - 1 {
            lemma_fundamental_div_mod_converse(n, p, q, r + 1);
        } else {
            assert((q + 1) * p == q * p + p) by (nonlinear_arith);
            lemma_fundamental_div_mod_converse(n, p, q + 1, 0);
            assert((q + 1) * (hi - lo) == q * (hi - lo) + (hi - lo)) by (nonlinear_arith);
        }
    }
}

/// In a chunk with no air anywhere, every direction gets exactly one quad per
/// boundary cell of its face: `CHUNK_SIZE * CHUNK_SIZE` quads, so four times
/// as many vertices and colours and six times as many indices.
pub proof fn lemma_solid_chunk_quad_count(c: Seq<Voxel>, d: int, m: MeshData)
    requires
        c.len() == VOXEL_COUNT,
        forall|i: int| 0 <= i < c.len() ==> !(#[trigger] c[i]).spec_is_air(),
        0 <= d < 6,
        batch_complete(c, d, m),
    ensures
        visible_cells(c, d, VOXEL_COUNT as int).len() == 1024,
        m.positions@.len() == 4096,
        m.colors@.len() == 4096,
        m.indices@.len() == 6144,
{
    let p: int = if d == 0 || d == 1 {
        32768
    } else if d == 2 || d == 3 {
        32
    } else {
        1024
    };
    let lo: int = if d == 0 {
        31744
    } else if d == 2 {
        31
    } else if d == 4 {
        992
    } else {
        0
    };
    let hi: int = if d == 0 {
        32768
    } else if d == 1 {
        1024
    } else if d == 2 {
        32
    } else if d == 3 {
        1
    } else if d == 4 {
        1024
    } else {
        32
    };
    assert forall|s: int| 0 <= s < VOXEL_COUNT implies (emits_face(c, d, s) <==> lo <= s % p
        < hi) by {
        lemma_scan_cell(s);
        let x = scan_x(s);
        let y = scan_y(s);
        let z = scan_z(s);
        lemma_flat_coords(x, y, z);
        let nx = x + dir_dx(d);
        let ny = y + dir_dy(d);
        let nz = z + dir_dz(d);
        if in_bounds(nx, ny, nz) {
            lemma_flat_coords(nx, ny, nz);
            assert(!emits_face(c, d, s));
        } else {
            assert(emits_face(c, d, s));
        }
        if d == 0 || d == 1 {
            lemma_fundamental_div_mod_converse(s, 32768, 0, s);
        } else if d == 4 || d == 5 {
            lemma_fundamental_div_mod_converse(s, 1024, x, 32 * z + y);
        }
    }
    lemma_periodic_cells_len(c, d, p, lo, hi, VOXEL_COUNT as int);
    if d == 0 || d == 1 {
        lemma_fundamental_div_mod_converse(32768, 32768, 1, 0);
    } else if d == 2 || d == 3 {
        lemma_fundamental_div_mod_converse(32768, 32, 1024, 0);
    } else {
        lemma_fundamental_div_mod_converse(32768, 1024, 32, 0);
    }
}

/// A single solid voxel surrounded by air (or by the chunk boundary) on all
/// sides yields exactly one quad in each direction, carrying that direction's
/// colour and the direction's vertex ordering and winding.
pub proof fn lemma_lone_voxel(c: Seq<Voxel>, x: int, y: int, z: int, d: int, m: MeshData)
    requires
        c.len() == VOXEL_COUNT,
        in_bounds(x, y, z),
        !block_at(c, x, y, z).spec_is_air(),
        forall|i: int|
            0 <= i < c.len() && i != flat_index(x, y, z) ==> (#[trigger] c[i]).spec_is_air(),
        0 <= d < 6,
        batch_complete(c, d, m),
    ensures
        m.positions@.len() == 4,
        m.colors@.len() == 4,
        m.indices@.len() == 6,
        forall|j: int| 0 <= j < 4 ==> vertex_is(#[trigger] m.positions@[j], quad_vertex(d, x, y, z, j)),
        forall|i: int| 0 <= i < 4 ==> #[trigger] m.colors@[i] == dir_color(d),
        quad_indices_ok(m.indices@, 0),
{
    let s0 = scan_index(x, y, z);
    lemma_scan_coords(x, y, z);
    lemma_flat_coords(x, y, z);
    assert forall|s: int| 0 <= s < VOXEL_COUNT implies (emits_face(c, d, s) <==> s == s0) by {
        lemma_scan_cell(s);
        let sx = scan_x(s);
        let sy = scan_y(s);
        let sz = scan_z(s);
        lemma_flat_coords(sx, sy, sz);
        if s == s0 {
            let nx = x + dir_dx(d);
            let ny = y + dir_dy(d);
            let nz = z + dir_dz(d);
            if in_bounds(nx, ny, nz) {
                lemma_flat_coords(nx, ny, nz);
                assert(flat_index(nx, ny, nz) != flat_index(x, y, z));
                assert(c[flat_index(nx, ny, nz)].spec_is_air());
            }
            assert(emits_face(c, d, s));
        } else {
            assert(flat_index(sx, sy, sz) != flat_index(x, y, z));
            assert(c[flat_index(sx, sy, sz)].spec_is_air());
            assert(!emits_face(c, d, s));
        }
    }
    lemma_visible_cells_single(c, d, VOXEL_COUNT as int, s0);
    let cells = visible_cells(c, d, VOXEL_COUNT as int);
    assert(cells == seq![s0]);
    assert(cells.len() == 1);
    assert(cells[0] == s0);
    assert(quad_positions_ok(m.positions@, d, s0, 0));
    assert(quad_indices_ok(m.indices@, 0));
    assert forall|j: int| 0 <= j < 4 implies vertex_is(
        #[trigger] m.positions@[j],
        quad_vertex(d, x, y, z, j),
    ) by {
        assert(vertex_is(m.positions@[4 * 0int], quad_vertex(d, x, y, z, 0)));
        assert(vertex_is(m.positions@[4 * 0int + 1], quad_vertex(d, x, y, z, 1)));
        assert(vertex_is(m.positions@[4 * 0int + 2], quad_vertex(d, x, y, z, 2)));
        assert(vertex_is(m.positions@[4 * 0int + 3], quad_vertex(d, x, y, z, 3)));
    }
}

/// Index buffers are self-contained: every index of a direction's batch
/// points into that same batch's vertex buffer.
pub proof fn lemma_indices_in_range(c: Seq<Voxel>, d: int, m: MeshData)
    requires
        batch_complete(c, d, m),
    ensures
        forall|k: int|
            0 <= k < m.indices@.len() ==> (#[trigger] m.indices@[k]) < m.positions@.len(),
{
    let cells = visible_cells(c, d, VOXEL_COUNT as int);
    let len = cells.len() as int;
    assert forall|k: int|
        0 <= k < m.indices@.len() implies (#[trigger] m.indices@[k]) < m.positions@.len() by {
        lemma_fundamental_div_mod(k, 6);
        lemma_mod_bound(k, 6);
        lemma_div_pos_is_pos(k, 6);
        let q = k / 6;
        let r = k % 6;
        assert(q <= len - 1) by {
            lemma_div_is_ordered(k, 6 * len - 1, 6);
            lemma_fundamental_div_mod_converse(6 * len - 1, 6, len - 1, 5);
        }
        assert(quad_indices_ok(m.indices@, q));
        if r == 0 {
            assert(m.indices@[6 * q] as int == 4 * q);
        } else if r == 1 {
            assert(m.indices@[6 * q + 1] as int == 4 * q + 1);
        } else if r == 2 {
            assert(m.indices@[6 * q + 2] as int == 4 * q + 2);
        } else if r == 3 {
            assert(m.indices@[6 * q + 3] as int == 4 * q);
        } else if r == 4 {
            assert(m.indices@[6 * q + 4] as int == 4 * q + 2);
        } else {
            assert(m.indices@[6 * q + 5] as int == 4 * q + 3);
        }
    }
}

fn direction_offset(d: usize) -> (r: (i32, i32, i32))
    requires
        d < 6,
    ensures
        r.0 as int == dir_dx(d as int),
        r.1 as int == dir_dy(d as int),
        r.2 as int == dir_dz(d as int),
{
    match d {
        0 => (1, 0, 0),
        1 => (-1, 0, 0),
        2 => (0, 1, 0),
        3 => (0, -1, 0),
        4 => (0, 0, 1),
        _ => (0, 0, -1),
    }
}

fn direction_color(d: usize) -> (r: FaceColor)
    requires
        d < 6,
    ensures
        r == dir_color(d as int),
{
    match d {
        0 => FaceColor { r: 2, g: 0, b: 0, a: 2 },
        1 => FaceColor { r: 2, g: 2, b: 0, a: 2 },
        2 => FaceColor { r: 0, g: 2, b: 0, a: 2 },
        3 => FaceColor { r: 0, g: 0, b: 2, a: 2 },
        4 => FaceColor { r: 2, g: 1, b: 0, a: 2 },
        _ => FaceColor { r: 1, g: 0, b: 1, a: 2 },
    }
}

/// Appends the four corners of the quad the voxel at `(x, y, z)` emits in
/// direction `d`, in winding order.
fn add_face_vertices(vertices: &mut Vec<Vertex>, x: usize, y: usize, z: usize, d: usize)
    requires
        d < 6,
        x < CHUNK_SIZE,
        y < CHUNK_SIZE,
        z < CHUNK_SIZE,
    ensures
        final(vertices)@.len() == old(vertices)@.len() + 4,
        forall|i: int| 0 <= i < old(vertices)@.len() ==> final(vertices)@[i] == old(vertices)@[i],
        forall|j: int|
            0 <= j < 4 ==> vertex_is(
                final(vertices)@[old(vertices)@.len() as int + j],
                quad_vertex(d as int, x as int, y as int, z as int, j),
            ),
{
    let xb = x as u32;
    let yb = y as u32;
    let zb = z as u32;
    match d {
        0 => {
            vertices.push(Vertex { x: xb + 1, y: yb, z: zb });
            vertices.push(Vertex { x: xb + 1, y: yb + 1, z: zb });
            vertices.push(Vertex { x: xb + 1, y: yb + 1, z: zb + 1 });
            vertices.push(Vertex { x: xb + 1, y: yb, z: zb + 1 });
        },
        1 => {
            vertices.push(Vertex { x: xb, y: yb, z: zb });
            vertices.push(Vertex { x: xb, y: yb, z: zb + 1 });
            vertices.push(Vertex { x: xb, y: yb + 1, z: zb + 1 });
            vertices.push(Vertex { x: xb, y: yb + 1, z: zb });
        },
        2 => {
            vertices.push(Vertex { x: xb, y: yb + 1, z: zb });
            vertices.push(Vertex { x: xb, y: yb + 1, z: zb + 1 });
            vertices.push(Vertex { x: xb + 1, y: yb + 1, z: zb + 1 });
            vertices.push(Vertex { x: xb + 1, y: yb + 1, z: zb });
        },
        3 => {
            vertices.push(Vertex { x: xb, y: yb, z: zb });
            vertices.push(Vertex { x: xb + 1, y: yb, z: zb });
            vertices.push(Vertex { x: xb + 1, y: yb, z: zb + 1 });
            vertices.push(Vertex { x: xb, y: yb, z: zb + 1 });
        },
        4 => {
            vertices.push(Vertex { x: xb, y: yb, z: zb + 1 });
            vertices.push(Vertex { x: xb + 1, y: yb, z: zb + 1 });
            vertices.push(Vertex { x: xb + 1, y: yb + 1, z: zb + 1 });
            vertices.push(Vertex { x: xb, y: yb + 1, z: zb + 1 });
        },
        _ => {
            vertices.push(Vertex { x: xb, y: yb, z: zb });
            vertices.push(Vertex { x: xb, y: yb + 1, z: zb });
            vertices.push(Vertex { x: xb + 1, y: yb + 1, z: zb });
            vertices.push(Vertex { x: xb + 1, y: yb, z: zb });
        },
    }
}

/// Appends one quad's worth of the direction's colour, one entry per vertex.
fn add_face_colors(colors: &mut Vec<FaceColor>, color: FaceColor)
    ensures
        final(colors)@.len() == old(colors)@.len() + 4,
        forall|i: int| 0 <= i < old(colors)@.len() ==> final(colors)@[i] == old(colors)@[i],
        forall|j: int|
            0 <= j < 4 ==> #[trigger] final(colors)@[old(colors)@.len() as int + j] == color,
{
    colors.push(color);
    colors.push(color);
    colors.push(color);
    colors.push(color);
}

/// Appends the six indices of one quad's two triangles, based at `base`.
fn add_face_indices(indices: &mut Vec<u32>, base: u32)
    requires
        base + 3 <= u32::MAX,
    ensures
        final(indices)@.len() == old(indices)@.len() + 6,
        forall|i: int| 0 <= i < old(indices)@.len() ==> final(indices)@[i] == old(indices)@[i],
        final(indices)@[old(indices)@.len() as int] == base,
        final(indices)@[old(indices)@.len() as int + 1] == base + 1,
        final(indices)@[old(indices)@.len() as int + 2] == base + 2,
        final(indices)@[old(indices)@.len() as int + 3] == base,
        final(indices)@[old(indices)@.len() as int + 4] == base + 2,
        final(indices)@[old(indices)@.len() as int + 5] == base + 3,
{
    indices.push(base);
    indices.push(base + 1);
    indices.push(base + 2);
    indices.push(base);
    indices.push(base + 2);
    indices.push(base + 3);
}

impl Chunk {
    /// Extracts the geometry batch of one face direction by walking the whole
    /// grid in scan order.
    fn direction_mesh(&self, d: usize) -> (m: MeshData)
        requires
            self.wf(),
            d < 6,
        ensures
            batch_complete(self@, d as int, m),
    {
        let (dx, dy, dz) = direction_offset(d);
        let color = direction_color(d);
        let mut positions: Vec<Vertex> = Vec::new();
        let mut colors: Vec<FaceColor> = Vec::new();
        let mut indices: Vec<u32> = Vec::new();
        let mut x: usize = 0;
        while x < CHUNK_SIZE
            invariant
                self.wf(),
                d < 6,
                x <= CHUNK_SIZE,
                dx as int == dir_dx(d as int),
                dy as int == dir_dy(d as int),
                dz as int == dir_dz(d as int),
                color == dir_color(d as int),
                bufs_upto(
                    self@,
                    d as int,
                    positions@,
                    colors@,
                    indices@,
                    scan_index(x as int, 0, 0),
                ),
            decreases CHUNK_SIZE - x,
        {
            let mut z: usize = 0;
            while z < CHUNK_SIZE
                invariant
                    self.wf(),
                    d < 6,
                    x < CHUNK_SIZE,
                    z <= CHUNK_SIZE,
                    dx as int == dir_dx(d as int),
                    dy as int == dir_dy(d as int),
                    dz as int == dir_dz(d as int),
                    color == dir_color(d as int),
                    bufs_upto(
                        self@,
                        d as int,
                        positions@,
                        colors@,
                        indices@,
                        scan_index(x as int, 0, z as int),
                    ),
                decreases CHUNK_SIZE - z,
            {
                let mut y: usize = 0;
                while y < CHUNK_SIZE
                    invariant
                        self.wf(),
                        d < 6,
                        x < CHUNK_SIZE,
                        z < CHUNK_SIZE,
                        y <= CHUNK_SIZE,
                        dx as int == dir_dx(d as int),
                        dy as int == dir_dy(d as int),
                        dz as int == dir_dz(d as int),
                        color == dir_color(d as int),
                        bufs_upto(
                            self@,
                            d as int,
                            positions@,
                            colors@,
                            indices@,
                            scan_index(x as int, y as int, z as int),
                        ),
                    decreases CHUNK_SIZE - y,
                {
                    let ghost s = scan_index(x as int, y as int, z as int);
                    let ghost di = d as int;
                    let ghost cells0 = visible_cells(self@, di, s);
                    proof {
                        lemma_scan_coords(x as int, y as int, z as int);
                        lemma_visible_cells_len(self@, di, s);
                    }
                    let voxel = self.voxel_at(x, y, z);
                    let visible = self.is_face_visible(
                        x as i32,
                        y as i32,
                        z as i32,
                        dx,
                        dy,
                        dz,
                    );
                    if !voxel.is_air() && visible {
                        proof {
                            assert(emits_face(self@, di, s));
                        }
                        let ghost pv0 = positions@;
                        let ghost cv0 = colors@;
                        let ghost iv0 = indices@;
                        let ghost quads = cells0.len();
                        let base: u32 = positions.len() as u32;
                        add_face_vertices(&mut positions, x, y, z, d);
                        add_face_colors(&mut colors, color);
                        add_face_indices(&mut indices, base);
                        proof {
                            let cells1 = visible_cells(self@, di, s + 1);
                            assert(cells1 == cells0.push(s));
                            assert forall|q: int|
                                0 <= q < cells1.len() implies #[trigger] quad_positions_ok(
                                positions@,
                                di,
                                cells1[q],
                                q,
                            ) by {
                                if q < quads {
                                    assert(quad_positions_ok(pv0, di, cells0[q], q));
                                    assert(positions@[4 * q] == pv0[4 * q]);
                                    assert(positions@[4 * q + 1] == pv0[4 * q + 1]);
                                    assert(positions@[4 * q + 2] == pv0[4 * q + 2]);
                                    assert(positions@[4 * q + 3] == pv0[4 * q + 3]);
                                } else {
                                    assert(cells1[q] == s);
                                    assert(4 * q == pv0.len() as int);
                                    assert(vertex_is(
                                        positions@[pv0.len() as int + 0],
                                        quad_vertex(di, x as int, y as int, z as int, 0),
                                    ));
                                    assert(vertex_is(
                                        positions@[pv0.len() as int + 1],
                                        quad_vertex(di, x as int, y as int, z as int, 1),
                                    ));
                                    assert(vertex_is(
                                        positions@[pv0.len() as int + 2],
                                        quad_vertex(di, x as int, y as int, z as int, 2),
                                    ));
                                    assert(vertex_is(
                                        positions@[pv0.len() as int + 3],
                                        quad_vertex(di, x as int, y as int, z as int, 3),
                                    ));
                                }
                            }
                            assert(cells1.len() == quads + 1);
                            assert(positions@.len() == pv0.len() + 4);
                            assert(colors@.len() == cv0.len() + 4);
                            assert(indices@.len() == iv0.len() + 6);
                            assert forall|i: int|
                                0 <= i < colors@.len() implies colors@[i] == dir_color(di) by {
                                if i < cv0.len() {
                                    assert(colors@[i] == cv0[i]);
                                } else {
                                    let j = i - cv0.len() as int;
                                    assert(colors@[cv0.len() as int + j] == color);
                                }
                            }
                            assert forall|q: int|
                                0 <= q < cells1.len() implies #[trigger] quad_indices_ok(
                                indices@,
                                q,
                            ) by {
                                if q < quads {
                                    assert(quad_indices_ok(iv0, q));
                                    assert(indices@[6 * q] == iv0[6 * q]);
                                    assert(indices@[6 * q + 1] == iv0[6 * q + 1]);
                                    assert(indices@[6 * q + 2] == iv0[6 * q + 2]);
                                    assert(indices@[6 * q + 3] == iv0[6 * q + 3]);
                                    assert(indices@[6 * q + 4] == iv0[6 * q + 4]);
                                    assert(indices@[6 * q + 5] == iv0[6 * q + 5]);
                                } else {
                                    assert(6 * q == iv0.len() as int);
                                }
                            }
                        }
                    } else {
                        proof {
                            assert(!emits_face(self@, di, s));
                            assert(visible_cells(self@, di, s + 1) == cells0);
                        }
                    }
                    y += 1;
                }
                z += 1;
            }
            x += 1;
        }
        MeshData { positions, colors, indices }
    }

    /// Extracts the six per-direction geometry batches of this chunk, in
    /// direction order +X, -X, +Y, -Y, +Z, -Z.
    pub fn generate_chunk_meshes(&self) -> (r: Vec<MeshData>)
        requires
            self.wf(),
        ensures
            r@.len() == 6,
            forall|d: int| 0 <= d < 6 ==> batch_complete(self@, d, #[trigger] r@[d]),
    {
        let mut r: Vec<MeshData> = Vec::new();
        let mut d: usize = 0;
        while d < 6
            invariant
                self.wf(),
                d <= 6,
                r@.len() == d,
                forall|k: int| 0 <= k < d ==> batch_complete(self@, k, #[trigger] r@[k]),
            decreases 6 - d,
        {
            r.push(self.direction_mesh(d));
            d += 1;
        }
        r
    }
}

} // verus!
