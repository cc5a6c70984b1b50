use space_game::block::{Block, BlockMaterial};
use space_game::chunk::Chunk;
use space_game::mesh::generate_chunk_mesh;

fn solid() -> Block {
    Block { material: BlockMaterial::Aluminum }
}

#[test]
fn empty_chunk_yields_empty_mesh() {
    let chunk = Chunk::new_empty(0);
    let mesh = generate_chunk_mesh(&chunk);
    assert_eq!(mesh.positions.len(), 0);
    assert_eq!(mesh.normals.len(), 0);
    assert_eq!(mesh.uvs.len(), 0);
    assert_eq!(mesh.indices.len(), 0);
}

#[test]
fn single_block_emits_six_faces() {
    let mut chunk = Chunk::new_empty(0);
    chunk.set(5, 6, 7, solid());
    let mesh = generate_chunk_mesh(&chunk);
    // 6 faces: 24 vertices with no cross-face sharing, 12 triangles.
    assert_eq!(mesh.positions.len(), 24);
    assert_eq!(mesh.normals.len(), 24);
    assert_eq!(mesh.uvs.len(), 24);
    assert_eq!(mesh.indices.len(), 36);
}

#[test]
fn two_adjacent_blocks_cull_the_shared_faces() {
    let mut chunk = Chunk::new_empty(0);
    chunk.set(5, 6, 7, solid());
    chunk.set(6, 6, 7, solid());
    let mesh = generate_chunk_mesh(&chunk);
    // 10 faces: the two faces on the shared interior plane are culled.
    assert_eq!(mesh.positions.len(), 40);
    assert_eq!(mesh.indices.len(), 60);
}

#[test]
fn corner_block_still_emits_boundary_faces() {
    // Chunk-boundary faces are always emitted: no cross-chunk culling.
    let mut chunk = Chunk::new_empty(0);
    chunk.set(0, 0, 0, solid());
    let mesh = generate_chunk_mesh(&chunk);
    assert_eq!(mesh.positions.len(), 24);
    assert_eq!(mesh.indices.len(), 36);
}

#[test]
fn single_block_face_geometry_is_exact() {
    let mut chunk = Chunk::new_empty(0);
    chunk.set(0, 0, 0, solid());
    let mesh = generate_chunk_mesh(&chunk);

    // Faces come in the fixed order right, left, top, bottom, front,
    // back; the right face of the block at the origin sits on the
    // plane x = 1.
    assert_eq!(mesh.positions[0], (1, 0, 0));
    assert_eq!(mesh.positions[1], (1, 1, 0));
    assert_eq!(mesh.positions[2], (1, 1, 1));
    assert_eq!(mesh.positions[3], (1, 0, 1));
    assert_eq!(mesh.normals[0], (1, 0, 0));
    assert_eq!(mesh.normals[1], (1, 0, 0));
    assert_eq!(mesh.uvs[0], (0, 0));
    assert_eq!(mesh.uvs[1], (1, 0));
    assert_eq!(mesh.uvs[2], (1, 1));
    assert_eq!(mesh.uvs[3], (0, 1));

    // Triangle indices are {0,1,2,2,3,0} relative to each face's
    // running offset of four vertices.
    assert_eq!(&mesh.indices[0..6], &[0, 1, 2, 2, 3, 0]);
    assert_eq!(&mesh.indices[6..12], &[4, 5, 6, 6, 7, 4]);

    // The left face of the origin block sits on the plane x = 0, with
    // an outward -x normal.
    assert_eq!(mesh.positions[4], (0, 0, 1));
    assert_eq!(mesh.normals[4], (-1, 0, 0));
}

#[test]
fn mesh_generation_is_deterministic() {
    let mut chunk = Chunk::new_empty(0);
    chunk.set(1, 2, 3, solid());
    chunk.set(2, 2, 3, solid());
    chunk.set(9, 0, 15, solid());
    let first = generate_chunk_mesh(&chunk);
    let second = generate_chunk_mesh(&chunk);
    assert_eq!(first, second);
}

#[test]
fn interior_faces_of_a_filled_chunk_are_culled() {
    let mut chunk = Chunk::new_empty(0);
    for z in 0..16 {
        for y in 0..16 {
            for x in 0..16 {
                chunk.set(x, y, z, solid());
            }
        }
    }
    let mesh = generate_chunk_mesh(&chunk);
    // Only boundary blocks emit faces: one face per boundary cell per
    // chunk face, 6 * 16 * 16 faces in all.
    assert_eq!(mesh.positions.len(), 6 * 256 * 4);
    assert_eq!(mesh.indices.len(), 6 * 256 * 6);
}
