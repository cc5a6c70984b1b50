use space_game::block::{Block, BlockMaterial};
use space_game::chunk::Chunk;
use space_game::collider::{generate_collider_for_chunk, BlockBox};

fn solid() -> Block {
    Block { material: BlockMaterial::Aluminum }
}

fn volume(b: &BlockBox) -> u32 {
    (b.max_x - b.min_x + 1) as u32 * (b.max_y - b.min_y + 1) as u32 * (b.max_z - b.min_z + 1) as u32
}

#[test]
fn empty_chunk_yields_no_boxes() {
    let chunk = Chunk::new_empty(0);
    let boxes = generate_collider_for_chunk(&chunk);
    assert_eq!(boxes.len(), 0);
}

#[test]
fn filled_chunk_merges_into_one_box() {
    let mut chunk = Chunk::new_empty(0);
    for z in 0..16 {
        for y in 0..16 {
            for x in 0..16 {
                chunk.set(x, y, z, solid());
            }
        }
    }
    let boxes = generate_collider_for_chunk(&chunk);
    assert_eq!(boxes.len(), 1);
    assert_eq!(
        boxes[0],
        BlockBox { min_x: 0, min_y: 0, min_z: 0, max_x: 15, max_y: 15, max_z: 15 }
    );
}

#[test]
fn single_block_yields_one_unit_box() {
    let mut chunk = Chunk::new_empty(0);
    chunk.set(3, 4, 5, solid());
    let boxes = generate_collider_for_chunk(&chunk);
    assert_eq!(boxes.len(), 1);
    assert_eq!(
        boxes[0],
        BlockBox { min_x: 3, min_y: 4, min_z: 5, max_x: 3, max_y: 4, max_z: 5 }
    );
}

#[test]
fn two_disjoint_blocks_yield_two_boxes() {
    let mut chunk = Chunk::new_empty(0);
    chunk.set(1, 1, 1, solid());
    chunk.set(10, 10, 10, solid());
    let boxes = generate_collider_for_chunk(&chunk);
    assert_eq!(boxes.len(), 2);
    assert_eq!(volume(&boxes[0]) + volume(&boxes[1]), 2);
}

#[test]
fn x_run_merges_into_one_box() {
    let mut chunk = Chunk::new_empty(0);
    for x in 2..=9 {
        chunk.set(x, 0, 0, solid());
    }
    let boxes = generate_collider_for_chunk(&chunk);
    assert_eq!(boxes.len(), 1);
    assert_eq!(
        boxes[0],
        BlockBox { min_x: 2, min_y: 0, min_z: 0, max_x: 9, max_y: 0, max_z: 0 }
    );
}

#[test]
fn l_shape_needs_more_than_one_box_and_volumes_add_up() {
    // An L: a 3-long bar along x, plus 2 more blocks rising in y at
    // its left end.
    let mut chunk = Chunk::new_empty(0);
    chunk.set(0, 0, 0, solid());
    chunk.set(1, 0, 0, solid());
    chunk.set(2, 0, 0, solid());
    chunk.set(0, 1, 0, solid());
    chunk.set(0, 2, 0, solid());
    let boxes = generate_collider_for_chunk(&chunk);
    assert!(boxes.len() > 1);
    let total: u32 = boxes.iter().map(volume).sum();
    assert_eq!(total, 5);
}

#[test]
fn different_materials_do_not_merge() {
    let mut chunk = Chunk::new_empty(0);
    chunk.set(0, 0, 0, solid());
    chunk.set(1, 0, 0, Block { material: BlockMaterial::Empty });
    chunk.set(2, 0, 0, solid());
    let boxes = generate_collider_for_chunk(&chunk);
    assert_eq!(boxes.len(), 2);
}

#[test]
fn greedy_growth_extends_x_then_y_then_z() {
    // A full 2x2x2 cube merges into a single box.
    let mut chunk = Chunk::new_empty(0);
    for z in 4..=5 {
        for y in 4..=5 {
            for x in 4..=5 {
                chunk.set(x, y, z, solid());
            }
        }
    }
    let boxes = generate_collider_for_chunk(&chunk);
    assert_eq!(boxes.len(), 1);
    assert_eq!(
        boxes[0],
        BlockBox { min_x: 4, min_y: 4, min_z: 4, max_x: 5, max_y: 5, max_z: 5 }
    );
}

#[test]
fn collider_generation_is_deterministic() {
    let mut chunk = Chunk::new_empty(0);
    chunk.set(0, 0, 0, solid());
    chunk.set(1, 0, 0, solid());
    chunk.set(0, 1, 0, solid());
    chunk.set(15, 15, 15, solid());
    let first = generate_collider_for_chunk(&chunk);
    let second = generate_collider_for_chunk(&chunk);
    assert_eq!(first, second);
}

#[test]
fn boxes_of_a_scattered_chunk_cover_each_solid_block_once() {
    // A pseudo-random but fixed pattern; the emitted boxes must
    // partition the solid cells exactly.
    let mut chunk = Chunk::new_empty(0);
    let mut solid_count: u32 = 0;
    for z in 0..16u32 {
        for y in 0..16u32 {
            for x in 0..16u32 {
                if (x * 7 + y * 13 + z * 29) % 5 == 0 {
                    chunk.set(x as u8, y as u8, z as u8, solid());
                    solid_count += 1;
                }
            }
        }
    }
    let boxes = generate_collider_for_chunk(&chunk);
    let mut covered = vec![0u32; 4096];
    for b in boxes.iter() {
        for z in b.min_z..=b.max_z {
            for y in b.min_y..=b.max_y {
                for x in b.min_x..=b.max_x {
                    covered[256 * z as usize + 16 * y as usize + x as usize] += 1;
                }
            }
        }
    }
    let total: u32 = boxes.iter().map(volume).sum();
    assert_eq!(total, solid_count);
    for z in 0..16 {
        for y in 0..16 {
            for x in 0..16 {
                let idx = 256 * z as usize + 16 * y as usize + x as usize;
                let expected = if chunk.get(x, y, z).material == BlockMaterial::Aluminum {
                    1
                } else {
                    0
                };
                assert_eq!(covered[idx], expected);
            }
        }
    }
}
