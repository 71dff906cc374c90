//! Terrain population: fills a chunk column by column from a height field
//! sampled by an external collaborator.

use vstd::prelude::*;

use crate::chunk::{
    block_at, flat_index, in_bounds, lemma_flat_cell, lemma_flat_coords, lemma_flat_index_injective,
    Chunk, CHUNK_SIZE, VOXEL_COUNT,
};
use crate::voxel::{BlockType, Voxel};

verus! {

/// Number of horizontal columns of a chunk.
pub const COLUMN_COUNT: usize = CHUNK_SIZE * CHUNK_SIZE;

/// The block a column holds at world height `world_y` when the column's
/// surface lies at `height`: stone strictly below the surface, dirt exactly
/// at it, air above.
pub open spec fn column_block(world_y: int, height: int) -> BlockType {
    if world_y < height {
        BlockType::Stone
    } else if world_y == height {
        BlockType::Dirt
    } else {
        BlockType::Air
    }
}

/// Position of the column at local `(x, z)` in a flat array of per-column
/// heights: `z`, then `x` scaled by the chunk edge length.
pub open spec fn column_index(x: int, z: int) -> int {
    32 * x + z
}

/// World height of the cell at local height `y` of the chunk with vertical
/// coordinate `chunk_y`.
pub open spec fn world_height(chunk_y: int, y: int) -> int {
    32 * chunk_y + y
}

/// A populated grid: every voxel follows the column rule, at the world height
/// of its cell, for its column's surface height.
pub open spec fn populated(c: Seq<Voxel>, chunk_y: int, heights: Seq<u32>) -> bool {
    &&& c.len() == VOXEL_COUNT
    &&& forall|x: int, y: int, z: int|
        in_bounds(x, y, z) ==> block_at(c, x, y, z) == (Voxel {
            blocktype: column_block(world_height(chunk_y, y), heights[column_index(x, z)] as int),
        })
}

/// The column rule, for one cell.
pub fn column_block_type(world_y: u64, height: u32) -> (b: BlockType)
    ensures
        b == column_block(world_y as int, height as int),
{
    if world_y < height as u64 {
        BlockType::Stone
    } else if world_y == height as u64 {
        BlockType::Dirt
    } else {
        BlockType::Air
    }
}

/// Fills a chunk from the surface heights of its horizontal columns.
/// `chunk_y` is the chunk's vertical coordinate, so the cell at local height
/// `y` sits at world height `chunk_y * CHUNK_SIZE + y`; `heights` holds one
/// surface height per column, indexed by [`column_index`].
pub fn populate_chunk(chunk: &mut Chunk, chunk_y: u32, heights: &Vec<u32>)
    requires
        old(chunk).wf(),
        heights@.len() == COLUMN_COUNT,
    ensures
        final(chunk).wf(),
        populated(final(chunk)@, chunk_y as int, heights@),
{
    let mut voxels: Vec<Voxel> = Vec::new();
    let mut z: usize = 0;
    while z < CHUNK_SIZE
        invariant
            heights@.len() == COLUMN_COUNT,
            z <= CHUNK_SIZE,
            voxels@.len() == 1024 * z,
            forall|xi: int, yi: int, zi: int|
                in_bounds(xi, yi, zi) && #[trigger] flat_index(xi, yi, zi) < voxels@.len()
                    ==> voxels@[flat_index(xi, yi, zi)] == (Voxel {
                    blocktype: column_block(
                        world_height(chunk_y as int, yi),
                        heights@[column_index(xi, zi)] as int,
                    ),
                }),
        decreases CHUNK_SIZE - z,
    {
        let mut y: usize = 0;
        while y < CHUNK_SIZE
            invariant
                heights@.len() == COLUMN_COUNT,
                z < CHUNK_SIZE,
                y <= CHUNK_SIZE,
                voxels@.len() == 1024 * z + 32 * y,
                forall|xi: int, yi: int, zi: int|
                    in_bounds(xi, yi, zi) && #[trigger] flat_index(xi, yi, zi) < voxels@.len()
                        ==> voxels@[flat_index(xi, yi, zi)] == (Voxel {
                        blocktype: column_block(
                            world_height(chunk_y as int, yi),
                            heights@[column_index(xi, zi)] as int,
                        ),
                    }),
            decreases CHUNK_SIZE - y,
        {
            let world_y: u64 = chunk_y as u64 * 32 + y as u64;
            let mut x: usize = 0;
            while x < CHUNK_SIZE
                invariant
                    heights@.len() == COLUMN_COUNT,
                    z < CHUNK_SIZE,
                    y < CHUNK_SIZE,
                    x <= CHUNK_SIZE,
                    world_y == world_height(chunk_y as int, y as int),
                    voxels@.len() == 1024 * z + 32 * y + x,
                    forall|xi: int, yi: int, zi: int|
                        in_bounds(xi, yi, zi) && #[trigger] flat_index(xi, yi, zi)
                            < voxels@.len() ==> voxels@[flat_index(xi, yi, zi)] == (Voxel {
                            blocktype: column_block(
                                world_height(chunk_y as int, yi),
                                heights@[column_index(xi, zi)] as int,
                            ),
                        }),
                decreases CHUNK_SIZE - x,
            {
                proof {
                    lemma_flat_coords(x as int, y as int, z as int);
                }
                let height = heights[x * 32 + z];
                let blocktype = column_block_type(world_y, height);
                voxels.push(Voxel { blocktype });
                proof {
                    assert(flat_index(x as int, y as int, z as int) + 1 == voxels@.len());
                    assert forall|xi: int, yi: int, zi: int|
                        in_bounds(xi, yi, zi) && #[trigger] flat_index(xi, yi, zi)
                            < voxels@.len() implies voxels@[flat_index(xi, yi, zi)] == (Voxel {
                            blocktype: column_block(
                                world_height(chunk_y as int, yi),
                                heights@[column_index(xi, zi)] as int,
                            ),
                        }) by {
                        if flat_index(xi, yi, zi) + 1 == voxels@.len() {
                            lemma_flat_index_injective(xi, yi, zi, x as int, y as int, z as int);
                        }
                    }
                }
                x += 1;
            }
            y += 1;
        }
        z += 1;
    }
    proof {
        assert forall|xi: int, yi: int, zi: int| in_bounds(xi, yi, zi) implies #[trigger] flat_index(
            xi,
            yi,
            zi,
        ) < voxels@.len() by {
            lemma_flat_coords(xi, yi, zi);
        }
    }
    *chunk = Chunk::from_voxels(voxels);
}

/// Terrain population is deterministic: two grids populated for the same
/// vertical chunk coordinate from the same column heights are identical.
pub proof fn lemma_populate_deterministic(
    c1: Seq<Voxel>,
    c2: Seq<Voxel>,
    chunk_y: int,
    heights: Seq<u32>,
)
    requires
        populated(c1, chunk_y, heights),
        populated(c2, chunk_y, heights),
    ensures
        c1 == c2,
{
    assert forall|i: int| 0 <= i < c1.len() implies c1[i] == c2[i] by {
        lemma_flat_cell(i);
        let x = i % 32;
        let y = (i / 32) % 32;
        let z = i / 1024;
        assert(block_at(c1, x, y, z) == block_at(c2, x, y, z));
    }
    assert(c1 =~= c2);
}

} // verus!
