//! Chunks: fixed-size cubic grids of voxels with bounds-checked queries.

use vstd::arithmetic::div_mod::{
    lemma_div_denominator, lemma_div_is_ordered, lemma_div_pos_is_pos, lemma_fundamental_div_mod,
    lemma_fundamental_div_mod_converse, lemma_mod_bound,
};
use vstd::prelude::*;

use crate::voxel::{BlockType, Voxel};

verus! {

/// Edge length of a chunk: a chunk is a `CHUNK_SIZE`-sided cube of voxels.
pub const CHUNK_SIZE: usize = 32;

/// Number of voxels a chunk holds.
pub const VOXEL_COUNT: usize = CHUNK_SIZE * CHUNK_SIZE * CHUNK_SIZE;

/// Local coordinates lie inside the chunk on every axis.
pub open spec fn in_bounds(x: int, y: int, z: int) -> bool {
    &&& 0 <= x < CHUNK_SIZE
    &&& 0 <= y < CHUNK_SIZE
    &&& 0 <= z < CHUNK_SIZE
}

/// Position of local coordinates in the flat voxel array: `x`, then `y`
/// scaled by the edge length, then `z` scaled by a full layer.
pub open spec fn flat_index(x: int, y: int, z: int) -> int {
    x + 32 * y + 1024 * z
}

/// The voxel a grid holds at the given local coordinates.
pub open spec fn block_at(c: Seq<Voxel>, x: int, y: int, z: int) -> Voxel {
    c[flat_index(x, y, z)]
}

/// A face of the voxel at `(x, y, z)` pointing towards `(dx, dy, dz)` is
/// visible when the neighbour on that side lies outside the chunk (chunk
/// boundaries are treated as open) or holds a transparent voxel.
pub open spec fn face_visible_at(
    c: Seq<Voxel>,
    x: int,
    y: int,
    z: int,
    dx: int,
    dy: int,
    dz: int,
) -> bool {
    ||| !in_bounds(x + dx, y + dy, z + dz)
    ||| block_at(c, x + dx, y + dy, z + dz).spec_is_transparent()
}

/// The flat index of in-range coordinates lies in the grid and decodes back
/// to the coordinates.
pub proof fn lemma_flat_coords(x: int, y: int, z: int)
    requires
        in_bounds(x, y, z),
    ensures
        0 <= flat_index(x, y, z) < VOXEL_COUNT,
        flat_index(x, y, z) % 32 == x,
        (flat_index(x, y, z) / 32) % 32 == y,
        flat_index(x, y, z) / 1024 == z,
{
    let f = flat_index(x, y, z);
    assert(f == (y + 32 * z) * 32 + x);
    lemma_fundamental_div_mod_converse(f, 32, y + 32 * z, x);
    lemma_fundamental_div_mod_converse(y + 32 * z, 32, z, y);
    lemma_div_denominator(f, 32, 32);
}

/// Distinct in-range coordinates occupy distinct cells of the flat grid.
pub proof fn lemma_flat_index_injective(
    x1: int,
    y1: int,
    z1: int,
    x2: int,
    y2: int,
    z2: int,
)
    requires
        in_bounds(x1, y1, z1),
        in_bounds(x2, y2, z2),
        flat_index(x1, y1, z1) == flat_index(x2, y2, z2),
    ensures
        x1 == x2 && y1 == y2 && z1 == z2,
{
    lemma_flat_coords(x1, y1, z1);
    lemma_flat_coords(x2, y2, z2);
}

/// Every cell of the flat grid decodes to in-range coordinates that encode
/// back to it.
pub proof fn lemma_flat_cell(i: int)
    requires
        0 <= i < VOXEL_COUNT,
    ensures
        in_bounds(i % 32, (i / 32) % 32, i / 1024),
        flat_index(i % 32, (i / 32) % 32, i / 1024) == i,
{
    lemma_mod_bound(i, 32);
    lemma_div_pos_is_pos(i, 32);
    lemma_fundamental_div_mod(i, 32);
    let q = i / 32;
    lemma_mod_bound(q, 32);
    lemma_fundamental_div_mod(q, 32);
    lemma_div_denominator(i, 32, 32);
    assert(q <= 1023) by {
        lemma_div_is_ordered(i, 32767, 32);
        lemma_fundamental_div_mod_converse(32767, 32, 1023, 31);
    }
    assert(q / 32 <= 31) by {
        lemma_div_is_ordered(q, 1023, 32);
        lemma_fundamental_div_mod_converse(1023, 32, 31, 31);
    }
    lemma_div_pos_is_pos(q, 32);
}

/// A fixed-size cubic grid of voxels, stored as one flat array indexed by
/// [`flat_index`].
pub struct Chunk {
    voxels: Vec<Voxel>,
}

impl View for Chunk {
    type V = Seq<Voxel>;

    closed spec fn view(&self) -> Seq<Voxel> {
        self.voxels@
    }
}

impl Chunk {
    /// The grid has exactly one voxel per cell of the cube.
    pub open spec fn wf(self) -> bool {
        self@.len() == VOXEL_COUNT
    }

    /// A freshly created chunk is entirely air.
    pub fn new() -> (c: Chunk)
        ensures
            c.wf(),
            forall|i: int| 0 <= i < c@.len() ==> c@[i] == (Voxel { blocktype: BlockType::Air }),
    {
        let mut voxels: Vec<Voxel> = Vec::new();
        while voxels.len() < VOXEL_COUNT
            invariant
                voxels@.len() <= VOXEL_COUNT,
                forall|i: int|
                    0 <= i < voxels@.len() ==> voxels@[i] == (Voxel {
                        blocktype: BlockType::Air,
                    }),
            decreases VOXEL_COUNT - voxels@.len(),
        {
            voxels.push(Voxel { blocktype: BlockType::Air });
        }
        Chunk { voxels }
    }

    /// Builds a chunk directly from a full flat grid.
    pub(crate) fn from_voxels(voxels: Vec<Voxel>) -> (c: Chunk)
        requires
            voxels@.len() == VOXEL_COUNT,
        ensures
            c.wf(),
            c@ == voxels@,
    {
        Chunk { voxels }
    }

    /// The voxel at in-range local coordinates, by value.
    pub(crate) fn voxel_at(&self, x: usize, y: usize, z: usize) -> (v: Voxel)
        requires
            self.wf(),
            x < CHUNK_SIZE,
            y < CHUNK_SIZE,
            z < CHUNK_SIZE,
        ensures
            v == block_at(self@, x as int, y as int, z as int),
    {
        self.voxels[x + 32 * (y + 32 * z)]
    }

    /// Looks a voxel up by local coordinates. Out-of-range coordinates are an
    /// expected query outcome and yield `None`; every in-range query yields
    /// the stored voxel.
    pub fn get_block(&self, x: i32, y: i32, z: i32) -> (r: Option<&Voxel>)
        requires
            self.wf(),
        ensures
            r is Some <==> in_bounds(x as int, y as int, z as int),
            r matches Some(v) ==> *v == block_at(self@, x as int, y as int, z as int),
    {
        if x < 0 || x >= CHUNK_SIZE as i32 || y < 0 || y >= CHUNK_SIZE as i32 || z < 0 || z
            >= CHUNK_SIZE as i32 {
            return None;
        }
        Some(&self.voxels[x as usize + 32 * (y as usize + 32 * (z as usize))])
    }

    /// Overwrites the voxel at in-range local coordinates.
    pub fn set_block(&mut self, x: usize, y: usize, z: usize, v: Voxel)
        requires
            old(self).wf(),
            x < CHUNK_SIZE,
            y < CHUNK_SIZE,
            z < CHUNK_SIZE,
        ensures
            final(self).wf(),
            final(self)@ == old(self)@.update(flat_index(x as int, y as int, z as int), v),
    {
        let idx = x + 32 * (y + 32 * z);
        self.voxels[idx] = v;
    }

    /// Decides whether the face of the voxel at `(x, y, z)` pointing towards
    /// `(dx, dy, dz)` should be emitted: true at open chunk boundaries, and
    /// otherwise exactly when the neighbour is transparent.
    pub fn is_face_visible(&self, x: i32, y: i32, z: i32, dx: i32, dy: i32, dz: i32) -> (r: bool)
        requires
            self.wf(),
        ensures
            r == face_visible_at(
                self@,
                x as int,
                y as int,
                z as int,
                dx as int,
                dy as int,
                dz as int,
            ),
    {
        let nx = x as i64 + dx as i64;
        let ny = y as i64 + dy as i64;
        let nz = z as i64 + dz as i64;
        if nx < 0 || nx >= CHUNK_SIZE as i64 || ny < 0 || ny >= CHUNK_SIZE as i64 || nz < 0 || nz
            >= CHUNK_SIZE as i64 {
            return true;
        }
        let idx = nx as usize + 32 * (ny as usize + 32 * (nz as usize));
        self.voxels[idx].is_transparent()
    }
}

/// World-space placement of a chunk: its coordinate scaled by the chunk edge
/// length on every axis.
pub fn world_position(chunk_coords: (i32, i32, i32)) -> (r: (i64, i64, i64))
    ensures
        r.0 == chunk_coords.0 as int * 32,
        r.1 == chunk_coords.1 as int * 32,
        r.2 == chunk_coords.2 as int * 32,
{
    (chunk_coords.0 as i64 * 32, chunk_coords.1 as i64 * 32, chunk_coords.2 as i64 * 32)
}

} // verus!
