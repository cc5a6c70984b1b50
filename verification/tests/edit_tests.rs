use space_game::block::{Block, BlockMaterial};
use space_game::chunk::{BlockPos, Chunk};
use space_game::edit::{
    place_blocks, placement_target, removal_target, selected_cell, snap_to_grid, PlaceBlockRequest,
};
use space_game::grid::{ChunkPos, Grid, GridPos};

fn solid() -> Block {
    Block { material: BlockMaterial::Aluminum }
}

fn empty() -> Block {
    Block { material: BlockMaterial::Empty }
}

fn at(cx: i16, cy: i16, cz: i16, bx: u8, by: u8, bz: u8) -> GridPos {
    GridPos {
        chunk_pos: ChunkPos::new(cx, cy, cz),
        block_pos: BlockPos { x: bx, y: by, z: bz },
    }
}

#[test]
fn placement_creates_a_chunk_and_dirties_it() {
    let mut grid = Grid::new();
    let requests = vec![PlaceBlockRequest { pos: at(0, 0, 0, 3, 4, 5), block: solid() }];
    let (dirty, deleted) = place_blocks(&mut grid, &requests);

    assert_eq!(dirty.len(), 1);
    assert_eq!(dirty[0].chunk_pos, ChunkPos::new(0, 0, 0));
    assert_eq!(deleted.len(), 0);

    let chunk = grid.get_chunk(ChunkPos::new(0, 0, 0)).expect("chunk was created");
    assert_eq!(chunk.get(3, 4, 5).material, BlockMaterial::Aluminum);
    assert_eq!(chunk.get(0, 0, 0).material, BlockMaterial::Empty);
}

#[test]
fn removal_in_an_absent_chunk_is_a_no_op() {
    let mut grid = Grid::new();
    let requests = vec![PlaceBlockRequest { pos: at(5, 5, 5, 0, 0, 0), block: empty() }];
    let (dirty, deleted) = place_blocks(&mut grid, &requests);
    assert_eq!(dirty.len(), 0);
    assert_eq!(deleted.len(), 0);
    assert!(grid.is_empty());
}

#[test]
fn emptying_a_chunk_by_single_block_edits_elides_it() {
    // Fill a handful of cells, then erase them one request at a time
    // in a single batch: the chunk must be gone afterwards.
    let mut grid = Grid::new();
    let cells = [(0u8, 0u8, 0u8), (1, 0, 0), (5, 5, 5), (15, 15, 15)];
    let mut chunk = Chunk::new_empty(1);
    for &(x, y, z) in cells.iter() {
        chunk.set(x, y, z, solid());
    }
    let pos = ChunkPos::new(2, 2, 2);
    grid.set_chunk(pos, Some(chunk));

    let requests: Vec<PlaceBlockRequest> = cells
        .iter()
        .map(|&(x, y, z)| PlaceBlockRequest { pos: at(2, 2, 2, x, y, z), block: empty() })
        .collect();
    let (dirty, deleted) = place_blocks(&mut grid, &requests);

    assert!(grid.get_chunk(pos).is_none());
    assert_eq!(deleted, vec![pos]);
    // The chunk was dirtied by the earlier erasures but deleted
    // chunks emit no change notification.
    assert_eq!(dirty.len(), 0);
}

#[test]
fn place_then_remove_restores_a_preexisting_chunk() {
    let mut grid = Grid::new();
    let pos = ChunkPos::new(0, 0, 0);
    let mut chunk = Chunk::new_empty(42);
    chunk.set(1, 1, 1, solid());
    grid.set_chunk(pos, Some(chunk));

    let requests = vec![
        PlaceBlockRequest { pos: at(0, 0, 0, 7, 7, 7), block: solid() },
        PlaceBlockRequest { pos: at(0, 0, 0, 7, 7, 7), block: empty() },
    ];
    let (dirty, deleted) = place_blocks(&mut grid, &requests);
    assert_eq!(deleted.len(), 0);
    assert_eq!(dirty.len(), 1);

    let restored = grid.get_chunk(pos).expect("chunk survives");
    assert_eq!(restored.entity, 42);
    for z in 0..16 {
        for y in 0..16 {
            for x in 0..16 {
                let expected = if (x, y, z) == (1, 1, 1) {
                    BlockMaterial::Aluminum
                } else {
                    BlockMaterial::Empty
                };
                assert_eq!(restored.get(x, y, z).material, expected);
            }
        }
    }
}

#[test]
fn place_then_remove_deletes_a_freshly_created_chunk() {
    let mut grid = Grid::new();
    let requests = vec![
        PlaceBlockRequest { pos: at(3, 3, 3, 0, 0, 0), block: solid() },
        PlaceBlockRequest { pos: at(3, 3, 3, 0, 0, 0), block: empty() },
    ];
    let (dirty, deleted) = place_blocks(&mut grid, &requests);
    assert!(grid.get_chunk(ChunkPos::new(3, 3, 3)).is_none());
    assert!(grid.is_empty());
    assert_eq!(deleted, vec![ChunkPos::new(3, 3, 3)]);
    assert_eq!(dirty.len(), 0);
}

#[test]
fn notifications_are_coalesced_per_chunk() {
    let mut grid = Grid::new();
    let requests = vec![
        PlaceBlockRequest { pos: at(0, 0, 0, 0, 0, 0), block: solid() },
        PlaceBlockRequest { pos: at(0, 0, 0, 1, 0, 0), block: solid() },
        PlaceBlockRequest { pos: at(1, 0, 0, 0, 0, 0), block: solid() },
        PlaceBlockRequest { pos: at(0, 0, 0, 2, 0, 0), block: solid() },
    ];
    let (dirty, deleted) = place_blocks(&mut grid, &requests);
    assert_eq!(deleted.len(), 0);
    assert_eq!(dirty.len(), 2);
    assert_eq!(dirty[0].chunk_pos, ChunkPos::new(0, 0, 0));
    assert_eq!(dirty[1].chunk_pos, ChunkPos::new(1, 0, 0));
}

#[test]
fn partial_removal_keeps_the_chunk_and_dirties_it() {
    let mut grid = Grid::new();
    let pos = ChunkPos::new(0, 0, 0);
    let mut chunk = Chunk::new_empty(5);
    chunk.set(0, 0, 0, solid());
    chunk.set(1, 0, 0, solid());
    grid.set_chunk(pos, Some(chunk));

    let requests = vec![PlaceBlockRequest { pos: at(0, 0, 0, 0, 0, 0), block: empty() }];
    let (dirty, deleted) = place_blocks(&mut grid, &requests);
    assert_eq!(deleted.len(), 0);
    assert_eq!(dirty.len(), 1);
    let chunk = grid.get_chunk(pos).expect("chunk stays");
    assert_eq!(chunk.get(0, 0, 0).material, BlockMaterial::Empty);
    assert_eq!(chunk.get(1, 0, 0).material, BlockMaterial::Aluminum);
}

#[test]
fn snap_to_grid_floors_to_the_block_grid() {
    // 250 milli-units per block edge.
    assert_eq!(snap_to_grid(0, 250), 0);
    assert_eq!(snap_to_grid(249, 250), 0);
    assert_eq!(snap_to_grid(250, 250), 1);
    assert_eq!(snap_to_grid(499, 250), 1);
    assert_eq!(snap_to_grid(1000, 250), 4);
    assert_eq!(snap_to_grid(-1, 250), -1);
    assert_eq!(snap_to_grid(-250, 250), -1);
    assert_eq!(snap_to_grid(-251, 250), -2);
    assert_eq!(snap_to_grid(-1000, 250), -4);
}

#[test]
fn selected_cell_steps_inward_only_on_positive_normals() {
    assert_eq!(selected_cell(5, 1), 4);
    assert_eq!(selected_cell(5, 0), 5);
    assert_eq!(selected_cell(5, -1), 5);
}

#[test]
fn face_hit_resolves_to_removal_and_placement_targets() {
    // A hit on the +x face of the block at (0, 5, 5): the snapped
    // plane is x = 1 and the normal points +x.
    let chunk = ChunkPos::new(0, 0, 0);
    let removal = removal_target(chunk, 1, 5, 5, 1, 0, 0);
    assert_eq!(removal.chunk_pos, chunk);
    assert_eq!(removal.block_pos, BlockPos { x: 0, y: 5, z: 5 });

    let placement = placement_target(chunk, 1, 5, 5, 1, 0, 0);
    assert_eq!(placement.chunk_pos, chunk);
    assert_eq!(placement.block_pos, BlockPos { x: 1, y: 5, z: 5 });
}

#[test]
fn placement_through_a_chunk_wall_wraps_to_the_neighbor() {
    // A hit on the -x face of the block at (0, 5, 5): placing goes
    // one block left, into the neighboring chunk.
    let chunk = ChunkPos::new(0, 0, 0);
    let removal = removal_target(chunk, 0, 5, 5, -1, 0, 0);
    assert_eq!(removal.block_pos, BlockPos { x: 0, y: 5, z: 5 });

    let placement = placement_target(chunk, 0, 5, 5, -1, 0, 0);
    assert_eq!(placement.chunk_pos, ChunkPos::new(-1, 0, 0));
    assert_eq!(placement.block_pos, BlockPos { x: 15, y: 5, z: 5 });
}
