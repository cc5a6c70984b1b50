use space_game::block::{Block, BlockMaterial};
use space_game::chunk::{BlockPos, Chunk, CHUNK_SIZE, CHUNK_SIZE_CUBED};
use space_game::grid::{ChunkPos, Grid, GridPos};

fn solid() -> Block {
    Block { material: BlockMaterial::Aluminum }
}

#[test]
fn index_bijection_covers_every_index_once() {
    let chunk = Chunk::new_empty(0);
    let mut seen = vec![0u32; CHUNK_SIZE_CUBED];
    for z in 0..CHUNK_SIZE {
        for y in 0..CHUNK_SIZE {
            for x in 0..CHUNK_SIZE {
                let i = chunk.pos_to_index(x, y, z);
                assert!(i < CHUNK_SIZE_CUBED);
                seen[i] += 1;
            }
        }
    }
    for count in seen {
        assert_eq!(count, 1);
    }
}

#[test]
fn index_formula_matches_linearization() {
    let chunk = Chunk::new_empty(0);
    assert_eq!(chunk.pos_to_index(0, 0, 0), 0);
    assert_eq!(chunk.pos_to_index(1, 0, 0), 1);
    assert_eq!(chunk.pos_to_index(0, 1, 0), 16);
    assert_eq!(chunk.pos_to_index(0, 0, 1), 256);
    assert_eq!(chunk.pos_to_index(15, 15, 15), 4095);
    assert_eq!(chunk.pos_to_index(3, 7, 2), 256 * 2 + 16 * 7 + 3);
}

#[test]
fn chunk_set_then_get_round_trips() {
    let mut chunk = Chunk::new_empty(9);
    assert_eq!(chunk.get(4, 5, 6).material, BlockMaterial::Empty);
    chunk.set(4, 5, 6, solid());
    assert_eq!(chunk.get(4, 5, 6).material, BlockMaterial::Aluminum);
    assert_eq!(chunk.get(5, 4, 6).material, BlockMaterial::Empty);
    chunk.set_by_block_pos(BlockPos { x: 4, y: 5, z: 6 }, Block { material: BlockMaterial::Empty });
    assert_eq!(
        chunk.get_by_block_pos(BlockPos { x: 4, y: 5, z: 6 }).material,
        BlockMaterial::Empty
    );
    assert_eq!(chunk.blocks().len(), CHUNK_SIZE_CUBED);
    assert_eq!(chunk.entity, 9);
}

#[test]
fn all_empty_detects_a_single_block() {
    let mut chunk = Chunk::new_empty(0);
    assert!(chunk.is_all_empty());
    chunk.set(15, 15, 15, solid());
    assert!(!chunk.is_all_empty());
    chunk.set(15, 15, 15, Block { material: BlockMaterial::Empty });
    assert!(chunk.is_all_empty());
}

#[test]
fn grid_pos_wraps_backward_across_chunk_boundary() {
    let pos = GridPos {
        chunk_pos: ChunkPos::new(0, 0, 0),
        block_pos: BlockPos { x: 0, y: 5, z: 5 },
    };
    let moved = pos.add((-1, 0, 0));
    assert_eq!(moved.chunk_pos, ChunkPos::new(-1, 0, 0));
    assert_eq!(moved.block_pos, BlockPos { x: CHUNK_SIZE - 1, y: 5, z: 5 });
}

#[test]
fn grid_pos_wraps_forward_a_whole_chunk() {
    let pos = GridPos {
        chunk_pos: ChunkPos::new(0, 0, 0),
        block_pos: BlockPos { x: 0, y: 0, z: 0 },
    };
    let moved = pos.add((CHUNK_SIZE as i16, 0, 0));
    assert_eq!(moved.chunk_pos, ChunkPos::new(1, 0, 0));
    assert_eq!(moved.block_pos, BlockPos { x: 0, y: 0, z: 0 });
}

#[test]
fn grid_pos_add_moves_all_axes_at_once() {
    let pos = GridPos {
        chunk_pos: ChunkPos::new(2, -3, 0),
        block_pos: BlockPos { x: 15, y: 0, z: 8 },
    };
    let moved = pos.add((1, -1, 40));
    assert_eq!(moved.chunk_pos, ChunkPos::new(3, -4, 3));
    assert_eq!(moved.block_pos, BlockPos { x: 0, y: 15, z: 0 });
}

#[test]
fn grid_stores_and_removes_chunks() {
    let mut grid = Grid::new();
    let pos = ChunkPos::new(1, -2, 3);
    assert!(grid.get_chunk(pos).is_none());
    assert!(grid.is_empty());

    let mut chunk = Chunk::new_empty(7);
    chunk.set(0, 0, 0, solid());
    grid.set_chunk(pos, Some(chunk));
    assert!(!grid.is_empty());
    let stored = grid.get_chunk(pos).expect("chunk should be present");
    assert_eq!(stored.entity, 7);
    assert_eq!(stored.get(0, 0, 0).material, BlockMaterial::Aluminum);
    assert!(grid.get_chunk(ChunkPos::new(1, -2, 4)).is_none());

    grid.set_chunk(pos, None);
    assert!(grid.get_chunk(pos).is_none());
    assert!(grid.is_empty());
    // Removing a nonexistent chunk is a no-op.
    grid.set_chunk(pos, None);
    assert!(grid.is_empty());
}

#[test]
fn grid_take_chunk_hands_the_chunk_out() {
    let mut grid = Grid::new();
    let pos = ChunkPos::new(0, 0, 0);
    assert!(grid.take_chunk(pos).is_none());

    let mut chunk = Chunk::new_empty(3);
    chunk.set(1, 2, 3, solid());
    grid.set_chunk(pos, Some(chunk));

    let taken = grid.take_chunk(pos).expect("chunk should be present");
    assert_eq!(taken.entity, 3);
    assert_eq!(taken.get(1, 2, 3).material, BlockMaterial::Aluminum);
    assert!(grid.get_chunk(pos).is_none());
}

#[test]
fn grid_keys_do_not_collide_on_negative_coordinates() {
    let mut grid = Grid::new();
    let positions = [
        ChunkPos::new(0, 0, 0),
        ChunkPos::new(-1, 0, 0),
        ChunkPos::new(0, -1, 0),
        ChunkPos::new(0, 0, -1),
        ChunkPos::new(1, -1, 1),
        ChunkPos::new(-32768, 32767, -32768),
    ];
    for (i, pos) in positions.iter().enumerate() {
        let chunk_entity = i as u64 + 1;
        let mut chunk = Chunk::new_empty(chunk_entity);
        chunk.set(0, 0, 0, solid());
        grid.set_chunk(*pos, Some(chunk));
    }
    for (i, pos) in positions.iter().enumerate() {
        let stored = grid.get_chunk(*pos).expect("each position keeps its chunk");
        assert_eq!(stored.entity, i as u64 + 1);
    }
}

#[test]
fn chunk_new_takes_a_complete_block_array() {
    let mut blocks = vec![Block { material: BlockMaterial::Empty }; CHUNK_SIZE_CUBED];
    blocks[256 * 2 + 16 * 7 + 3] = solid();
    let chunk = Chunk::new(11, blocks);
    assert_eq!(chunk.entity, 11);
    assert_eq!(chunk.get(3, 7, 2).material, BlockMaterial::Aluminum);
    assert_eq!(chunk.get(3, 7, 3).material, BlockMaterial::Empty);
}
