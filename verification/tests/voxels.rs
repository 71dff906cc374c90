use voxels::chunk::{world_position, Chunk, CHUNK_SIZE};
use voxels::mesh::MeshData;
use voxels::terrain::{column_block_type, populate_chunk};
use voxels::voxel::{BlockType, Voxel};
use voxels::world::World;

fn solid_chunk(blocktype: BlockType) -> Chunk {
    let mut chunk = Chunk::new();
    for x in 0..CHUNK_SIZE {
        for y in 0..CHUNK_SIZE {
            for z in 0..CHUNK_SIZE {
                chunk.set_block(x, y, z, Voxel::new(blocktype));
            }
        }
    }
    chunk
}

fn expected_quad(d: usize, x: u32, y: u32, z: u32) -> [[u32; 3]; 4] {
    match d {
        0 => [
            [x + 1, y, z],
            [x + 1, y + 1, z],
            [x + 1, y + 1, z + 1],
            [x + 1, y, z + 1],
        ],
        1 => [[x, y, z], [x, y, z + 1], [x, y + 1, z + 1], [x, y + 1, z]],
        2 => [
            [x, y + 1, z],
            [x, y + 1, z + 1],
            [x + 1, y + 1, z + 1],
            [x + 1, y + 1, z],
        ],
        3 => [[x, y, z], [x + 1, y, z], [x + 1, y, z + 1], [x, y, z + 1]],
        4 => [
            [x, y, z + 1],
            [x + 1, y, z + 1],
            [x + 1, y + 1, z + 1],
            [x, y + 1, z + 1],
        ],
        _ => [[x, y, z], [x, y + 1, z], [x + 1, y + 1, z], [x + 1, y, z]],
    }
}

fn palette(d: usize) -> [u8; 4] {
    match d {
        0 => [2, 0, 0, 2],
        1 => [2, 2, 0, 2],
        2 => [0, 2, 0, 2],
        3 => [0, 0, 2, 2],
        4 => [2, 1, 0, 2],
        _ => [1, 0, 1, 2],
    }
}

fn batch_colors_match(batch: &MeshData, d: usize) -> bool {
    let p = palette(d);
    batch
        .colors
        .iter()
        .all(|c| c.r == p[0] && c.g == p[1] && c.b == p[2] && c.a == p[3])
}

#[test]
fn get_block_out_of_range_is_absent() {
    let chunk = Chunk::new();
    assert!(chunk.get_block(-1, 0, 0).is_none());
    assert!(chunk.get_block(0, -1, 0).is_none());
    assert!(chunk.get_block(0, 0, -1).is_none());
    assert!(chunk.get_block(32, 0, 0).is_none());
    assert!(chunk.get_block(0, 32, 0).is_none());
    assert!(chunk.get_block(0, 0, 32).is_none());
    assert!(chunk.get_block(-100, 50, 7).is_none());
}

#[test]
fn get_block_in_range_is_defined() {
    let mut chunk = Chunk::new();
    chunk.set_block(3, 4, 5, Voxel::new(BlockType::Dirt));
    for (x, y, z) in [(0, 0, 0), (31, 31, 31), (3, 4, 5), (0, 31, 15)] {
        assert!(chunk.get_block(x, y, z).is_some());
    }
    assert_eq!(
        chunk.get_block(3, 4, 5).unwrap().blocktype,
        BlockType::Dirt
    );
    assert_eq!(
        chunk.get_block(0, 0, 0).unwrap().blocktype,
        BlockType::Air
    );
}

#[test]
fn air_and_transparency_coincide() {
    for (blocktype, air) in [
        (BlockType::Air, true),
        (BlockType::Dirt, false),
        (BlockType::Stone, false),
    ] {
        let v = Voxel::new(blocktype);
        assert_eq!(v.is_air(), air);
        assert_eq!(v.is_transparent(), v.is_air());
    }
}

#[test]
fn face_visibility_rules() {
    let mut chunk = Chunk::new();
    chunk.set_block(10, 10, 10, Voxel::new(BlockType::Stone));
    chunk.set_block(11, 10, 10, Voxel::new(BlockType::Stone));
    // neighbour solid: hidden
    assert!(!chunk.is_face_visible(10, 10, 10, 1, 0, 0));
    assert!(!chunk.is_face_visible(11, 10, 10, -1, 0, 0));
    // neighbour air: visible
    assert!(chunk.is_face_visible(10, 10, 10, -1, 0, 0));
    assert!(chunk.is_face_visible(10, 10, 10, 0, 1, 0));
    // neighbour outside the chunk: always visible
    assert!(chunk.is_face_visible(0, 10, 10, -1, 0, 0));
    assert!(chunk.is_face_visible(31, 10, 10, 1, 0, 0));
}

#[test]
fn all_air_chunk_emits_six_empty_batches() {
    let chunk = Chunk::new();
    let meshes = chunk.generate_chunk_meshes();
    assert_eq!(meshes.len(), 6);
    for batch in &meshes {
        assert!(batch.positions.is_empty());
        assert!(batch.colors.is_empty());
        assert!(batch.indices.is_empty());
    }
}

#[test]
fn solid_chunk_emits_boundary_quads_only() {
    let chunk = solid_chunk(BlockType::Stone);
    let meshes = chunk.generate_chunk_meshes();
    assert_eq!(meshes.len(), 6);
    for (d, batch) in meshes.iter().enumerate() {
        // one quad per boundary cell of the face: CHUNK_SIZE * CHUNK_SIZE
        assert_eq!(batch.positions.len(), 4 * 32 * 32);
        assert_eq!(batch.colors.len(), 4 * 32 * 32);
        assert_eq!(batch.indices.len(), 6 * 32 * 32);
        assert!(batch_colors_match(batch, d));
    }
    // every +X quad lies on the x == 32 plane, every -X quad on x == 0
    assert!(meshes[0].positions.iter().all(|v| v.x == 32));
    assert!(meshes[1].positions.iter().all(|v| v.x == 0));
    assert!(meshes[2].positions.iter().all(|v| v.y == 32));
    assert!(meshes[3].positions.iter().all(|v| v.y == 0));
    assert!(meshes[4].positions.iter().all(|v| v.z == 32));
    assert!(meshes[5].positions.iter().all(|v| v.z == 0));
}

#[test]
fn lone_voxel_emits_one_quad_per_direction() {
    let (x, y, z) = (5usize, 6usize, 7usize);
    let mut chunk = Chunk::new();
    chunk.set_block(x, y, z, Voxel::new(BlockType::Dirt));
    let meshes = chunk.generate_chunk_meshes();
    assert_eq!(meshes.len(), 6);
    for (d, batch) in meshes.iter().enumerate() {
        assert_eq!(batch.positions.len(), 4);
        assert_eq!(batch.colors.len(), 4);
        assert_eq!(batch.indices.len(), 6);
        let quad = expected_quad(d, x as u32, y as u32, z as u32);
        for (j, v) in batch.positions.iter().enumerate() {
            assert_eq!([v.x, v.y, v.z], quad[j]);
        }
        assert!(batch_colors_match(batch, d));
        assert_eq!(batch.indices, vec![0, 1, 2, 0, 2, 3]);
    }
}

#[test]
fn lone_corner_voxel_emits_one_quad_per_direction() {
    let mut chunk = Chunk::new();
    chunk.set_block(0, 0, 0, Voxel::new(BlockType::Stone));
    let meshes = chunk.generate_chunk_meshes();
    for (d, batch) in meshes.iter().enumerate() {
        assert_eq!(batch.positions.len(), 4);
        let quad = expected_quad(d, 0, 0, 0);
        for (j, v) in batch.positions.iter().enumerate() {
            assert_eq!([v.x, v.y, v.z], quad[j]);
        }
    }
}

#[test]
fn index_buffers_are_self_contained() {
    let mut heights = Vec::new();
    for x in 0..CHUNK_SIZE {
        for z in 0..CHUNK_SIZE {
            heights.push(((x * 7 + z * 13) % 40) as u32);
        }
    }
    let mut chunk = Chunk::new();
    populate_chunk(&mut chunk, 0, &heights);
    let meshes = chunk.generate_chunk_meshes();
    for batch in &meshes {
        for &index in &batch.indices {
            assert!((index as usize) < batch.positions.len());
        }
        assert_eq!(batch.indices.len() % 6, 0);
        assert_eq!(batch.positions.len() % 4, 0);
        assert_eq!(batch.colors.len(), batch.positions.len());
    }
}

#[test]
fn world_get_or_create_returns_same_chunk() {
    let mut world = World::new();
    let coord = (1, 2, 3);
    assert!(!world.contains_chunk(coord));
    {
        let chunk = world.get_or_create_chunk(coord);
        assert!(chunk.get_block(0, 0, 0).unwrap().is_air());
        chunk.set_block(4, 5, 6, Voxel::new(BlockType::Stone));
    }
    assert!(world.contains_chunk(coord));
    // the second lookup sees the mutation made through the first
    let again = world.get_or_create_chunk(coord);
    assert_eq!(
        again.get_block(4, 5, 6).unwrap().blocktype,
        BlockType::Stone
    );
    // read-only access agrees
    let read = world.chunk_at(coord).unwrap();
    assert_eq!(
        read.get_block(4, 5, 6).unwrap().blocktype,
        BlockType::Stone
    );
    assert!(world.chunk_at((9, 9, 9)).is_none());
}

#[test]
fn world_creates_distinct_chunks_per_coordinate() {
    let mut world = World::new();
    world
        .get_or_create_chunk((0, 0, 0))
        .set_block(1, 1, 1, Voxel::new(BlockType::Dirt));
    let other = world.get_or_create_chunk((0, 0, 1));
    assert!(other.get_block(1, 1, 1).unwrap().is_air());
    let first = world.chunk_at((0, 0, 0)).unwrap();
    assert_eq!(
        first.get_block(1, 1, 1).unwrap().blocktype,
        BlockType::Dirt
    );
}

#[test]
fn column_rule_profile() {
    // below the surface: stone; at the surface: dirt; above: air
    assert_eq!(column_block_type(9, 10), BlockType::Stone);
    assert_eq!(column_block_type(10, 10), BlockType::Dirt);
    assert_eq!(column_block_type(11, 10), BlockType::Air);
    assert_eq!(column_block_type(0, 0), BlockType::Dirt);
    assert_eq!(column_block_type(1, 0), BlockType::Air);
}

#[test]
fn populate_fills_columns_by_height() {
    let mut heights = vec![0u32; CHUNK_SIZE * CHUNK_SIZE];
    // column (2, 3) gets surface height 10; chunk sits at the bottom slice
    heights[2 * CHUNK_SIZE + 3] = 10;
    let mut chunk = Chunk::new();
    populate_chunk(&mut chunk, 0, &heights);
    for y in 0..10 {
        assert_eq!(
            chunk.get_block(2, y, 3).unwrap().blocktype,
            BlockType::Stone
        );
    }
    assert_eq!(
        chunk.get_block(2, 10, 3).unwrap().blocktype,
        BlockType::Dirt
    );
    for y in 11..32 {
        assert_eq!(chunk.get_block(2, y, 3).unwrap().blocktype, BlockType::Air);
    }
    // a column of height 0 has dirt at its base and air above
    assert_eq!(chunk.get_block(0, 0, 0).unwrap().blocktype, BlockType::Dirt);
    assert_eq!(chunk.get_block(0, 1, 0).unwrap().blocktype, BlockType::Air);
}

#[test]
fn populate_respects_vertical_chunk_coordinate() {
    // world height 40 falls inside the second vertical slice (y == 8 there)
    let heights = vec![40u32; CHUNK_SIZE * CHUNK_SIZE];
    let mut chunk = Chunk::new();
    populate_chunk(&mut chunk, 1, &heights);
    assert_eq!(chunk.get_block(0, 7, 0).unwrap().blocktype, BlockType::Stone);
    assert_eq!(chunk.get_block(0, 8, 0).unwrap().blocktype, BlockType::Dirt);
    assert_eq!(chunk.get_block(0, 9, 0).unwrap().blocktype, BlockType::Air);
}

#[test]
fn populate_is_deterministic() {
    let mut heights = Vec::new();
    for x in 0..CHUNK_SIZE {
        for z in 0..CHUNK_SIZE {
            heights.push(((x * 11 + z * 5) % 50) as u32);
        }
    }
    let mut a = Chunk::new();
    let mut b = Chunk::new();
    b.set_block(9, 9, 9, Voxel::new(BlockType::Stone));
    populate_chunk(&mut a, 1, &heights);
    populate_chunk(&mut b, 1, &heights);
    for x in 0..32 {
        for y in 0..32 {
            for z in 0..32 {
                assert_eq!(
                    a.get_block(x, y, z).unwrap().blocktype,
                    b.get_block(x, y, z).unwrap().blocktype
                );
            }
        }
    }
}

#[test]
fn world_position_scales_by_chunk_size() {
    assert_eq!(world_position((0, 0, 0)), (0, 0, 0));
    assert_eq!(world_position((1, 2, 3)), (32, 64, 96));
    assert_eq!(world_position((-1, 0, 5)), (-32, 0, 160));
    assert_eq!(
        world_position((i32::MAX, i32::MIN, 0)),
        (i32::MAX as i64 * 32, i32::MIN as i64 * 32, 0)
    );
}
