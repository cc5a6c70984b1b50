//! Face-culling mesh generation.
//!
//! Scans every block in linearization order; for each solid block and
//! each of the six axis-aligned directions it emits a quad (4 vertices,
//! 2 triangles) iff the neighbor in that direction is out of chunk
//! bounds or empty. Chunk-boundary faces are always emitted: there is
//! deliberately no cross-chunk culling. Faces are appended
//! independently, with no vertex sharing across faces, so the output is
//! `O(#solid blocks)`, not minimized.
//!
//! Geometry is in integer block units (one unit per block edge);
//! callers scale to world units.

use vstd::prelude::*;

use crate::block::{Block, BlockMaterial};
use crate::chunk::{index_x, index_y, index_z, lemma_index_bijection, pos_index, Chunk};

verus! {

/// The six axis-aligned face directions, in emission order.
#[derive(Clone, Copy, Debug, PartialEq, Eq, Structural)]
pub enum FaceDir {
    Right,
    Left,
    Top,
    Bottom,
    Front,
    Back,
}

/// One emitted face: its direction and the block it belongs to.
pub struct Face {
    pub dir: FaceDir,
    pub x: int,
    pub y: int,
    pub z: int,
}

/// Triangle-mesh buffers in integer block units: per-vertex position,
/// outward normal and uv, plus u32 triangle indices.
#[derive(Debug, PartialEq, Eq)]
pub struct MeshData {
    pub positions: Vec<(u8, u8, u8)>,
    pub normals: Vec<(i8, i8, i8)>,
    pub uvs: Vec<(u8, u8)>,
    pub indices: Vec<u32>,
}

/// The block of `blocks` at valid local coordinates `(x, y, z)`.
pub open spec fn block_at(blocks: Seq<Block>, x: int, y: int, z: int) -> Block {
    blocks[pos_index(x, y, z)]
}

/// Whether the face of solid block `(x, y, z)` in direction `dir` is
/// visible: its neighbor is out of chunk bounds or empty.
pub open spec fn face_visible(blocks: Seq<Block>, x: int, y: int, z: int, dir: FaceDir) -> bool {
    match dir {
        FaceDir::Right => x == 15 || block_at(blocks, x + 1, y, z).is_empty(),
        FaceDir::Left => x == 0 || block_at(blocks, x - 1, y, z).is_empty(),
        FaceDir::Top => y == 15 || block_at(blocks, x, y + 1, z).is_empty(),
        FaceDir::Bottom => y == 0 || block_at(blocks, x, y - 1, z).is_empty(),
        FaceDir::Front => z == 15 || block_at(blocks, x, y, z + 1).is_empty(),
        FaceDir::Back => z == 0 || block_at(blocks, x, y, z - 1).is_empty(),
    }
}

/// A singleton face list when `cond` holds, else nothing.
pub open spec fn maybe_face(cond: bool, f: Face) -> Seq<Face> {
    if cond {
        seq![f]
    } else {
        Seq::empty()
    }
}

/// The faces emitted for the block at `(x, y, z)`, in the fixed order
/// right, left, top, bottom, front, back; none if the block is empty.
pub open spec fn faces_at(blocks: Seq<Block>, x: int, y: int, z: int) -> Seq<Face> {
    if block_at(blocks, x, y, z).is_empty() {
        Seq::empty()
    } else {
        maybe_face(face_visible(blocks, x, y, z, FaceDir::Right), Face { dir: FaceDir::Right, x, y, z })
            + maybe_face(face_visible(blocks, x, y, z, FaceDir::Left), Face { dir: FaceDir::Left, x, y, z })
            + maybe_face(face_visible(blocks, x, y, z, FaceDir::Top), Face { dir: FaceDir::Top, x, y, z })
            + maybe_face(face_visible(blocks, x, y, z, FaceDir::Bottom), Face { dir: FaceDir::Bottom, x, y, z })
            + maybe_face(face_visible(blocks, x, y, z, FaceDir::Front), Face { dir: FaceDir::Front, x, y, z })
            + maybe_face(face_visible(blocks, x, y, z, FaceDir::Back), Face { dir: FaceDir::Back, x, y, z })
    }
}

/// The faces emitted by the first `n` blocks of the scan, in scan
/// order (increasing flat index, i.e. z then y then x).
pub open spec fn faces_up_to(blocks: Seq<Block>, n: int) -> Seq<Face>
    decreases n,
{
    if n <= 0 {
        Seq::empty()
    } else {
        faces_up_to(blocks, n - 1) + faces_at(blocks, index_x(n - 1), index_y(n - 1), index_z(n - 1))
    }
}

/// Every face the whole chunk emits, in scan order.
pub open spec fn chunk_faces(blocks: Seq<Block>) -> Seq<Face> {
    faces_up_to(blocks, 4096)
}

/// The four corner positions of a face, in the fixed winding the
/// renderer expects (counter-clockwise seen from outside).
pub open spec fn face_positions(f: Face) -> Seq<(u8, u8, u8)> {
    let x0 = f.x as u8;
    let y0 = f.y as u8;
    let z0 = f.z as u8;
    let x1 = (f.x + 1) as u8;
    let y1 = (f.y + 1) as u8;
    let z1 = (f.z + 1) as u8;
    match f.dir {
        FaceDir::Right => seq![(x1, y0, z0), (x1, y1, z0), (x1, y1, z1), (x1, y0, z1)],
        FaceDir::Left => seq![(x0, y0, z1), (x0, y1, z1), (x0, y1, z0), (x0, y0, z0)],
        FaceDir::Top => seq![(x1, y1, z0), (x0, y1, z0), (x0, y1, z1), (x1, y1, z1)],
        FaceDir::Bottom => seq![(x1, y0, z1), (x0, y0, z1), (x0, y0, z0), (x1, y0, z0)],
        FaceDir::Front => seq![(x0, y0, z1), (x1, y0, z1), (x1, y1, z1), (x0, y1, z1)],
        FaceDir::Back => seq![(x0, y1, z0), (x1, y1, z0), (x1, y0, z0), (x0, y0, z0)],
    }
}

/// The outward unit normal of a face direction.
pub open spec fn dir_normal(dir: FaceDir) -> (i8, i8, i8) {
    match dir {
        FaceDir::Right => (1i8, 0i8, 0i8),
        FaceDir::Left => (-1i8, 0i8, 0i8),
        FaceDir::Top => (0i8, 1i8, 0i8),
        FaceDir::Bottom => (0i8, -1i8, 0i8),
        FaceDir::Front => (0i8, 0i8, 1i8),
        FaceDir::Back => (0i8, 0i8, -1i8),
    }
}

/// One normal per vertex of a face: four copies of the face normal.
pub open spec fn face_normals(f: Face) -> Seq<(i8, i8, i8)> {
    seq![dir_normal(f.dir), dir_normal(f.dir), dir_normal(f.dir), dir_normal(f.dir)]
}

/// The uv corners assigned to a face's four vertices, per direction.
pub open spec fn face_uvs(f: Face) -> Seq<(u8, u8)> {
    match f.dir {
        FaceDir::Right => seq![(0, 0), (1, 0), (1, 1), (0, 1)],
        FaceDir::Left => seq![(1, 0), (0, 0), (0, 1), (1, 1)],
        FaceDir::Top => seq![(1, 0), (0, 0), (0, 1), (1, 1)],
        FaceDir::Bottom => seq![(0, 0), (1, 0), (1, 1), (0, 1)],
        FaceDir::Front => seq![(0, 0), (1, 0), (1, 1), (0, 1)],
        FaceDir::Back => seq![(1, 0), (0, 0), (0, 1), (1, 1)],
    }
}

/// Positions of every vertex of a face list, four per face.
pub open spec fn positions_of_faces(faces: Seq<Face>) -> Seq<(u8, u8, u8)>
    decreases faces.len(),
{
    if faces.len() == 0 {
        Seq::empty()
    } else {
        positions_of_faces(faces.drop_last()) + face_positions(faces.last())
    }
}

/// Normals of every vertex of a face list, four per face.
pub open spec fn normals_of_faces(faces: Seq<Face>) -> Seq<(i8, i8, i8)>
    decreases faces.len(),
{
    if faces.len() == 0 {
        Seq::empty()
    } else {
        normals_of_faces(faces.drop_last()) + face_normals(faces.last())
    }
}

/// Uvs of every vertex of a face list, four per face.
pub open spec fn uvs_of_faces(faces: Seq<Face>) -> Seq<(u8, u8)>
    decreases faces.len(),
{
    if faces.len() == 0 {
        Seq::empty()
    } else {
        uvs_of_faces(faces.drop_last()) + face_uvs(faces.last())
    }
}

/// The six triangle indices of the `k`-th face, `{0,1,2,2,3,0}`
/// relative to its running vertex offset `4k`.
pub open spec fn quad_indices(k: int) -> Seq<u32> {
    seq![
        (4 * k) as u32,
        (4 * k + 1) as u32,
        (4 * k + 2) as u32,
        (4 * k + 2) as u32,
        (4 * k + 3) as u32,
        (4 * k) as u32,
    ]
}

/// Triangle indices for `n` faces, six per face.
pub open spec fn indices_of_count(n: int) -> Seq<u32>
    decreases n,
{
    if n <= 0 {
        Seq::empty()
    } else {
        indices_of_count(n - 1) + quad_indices(n - 1)
    }
}

/// Each face contributes four vertices to every attribute buffer.
pub proof fn lemma_buffer_lengths(faces: Seq<Face>)
    ensures
        positions_of_faces(faces).len() == 4 * faces.len(),
        normals_of_faces(faces).len() == 4 * faces.len(),
        uvs_of_faces(faces).len() == 4 * faces.len(),
    decreases faces.len(),
{
    if faces.len() > 0 {
        lemma_buffer_lengths(faces.drop_last());
    }
}

/// Each face contributes six entries to the index buffer.
pub proof fn lemma_index_count(n: int)
    requires
        n >= 0,
    ensures
        indices_of_count(n).len() == 6 * n,
    decreases n,
{
    if n > 0 {
        lemma_index_count(n - 1);
    }
}

/// A block emits at most six faces, so the first `n` blocks emit at
/// most `6n`.
pub proof fn lemma_faces_up_to_len(blocks: Seq<Block>, n: int)
    requires
        n >= 0,
    ensures
        faces_up_to(blocks, n).len() <= 6 * n,
    decreases n,
{
    if n > 0 {
        lemma_faces_up_to_len(blocks, n - 1);
    }
}

/// Append one right face (outward +x) at plane `x`, spanning
/// `[min_y, max_y] x [min_z, max_z]`.
fn add_right_face(
    x: u8,
    min_y: u8,
    max_y: u8,
    min_z: u8,
    max_z: u8,
    vertices: &mut Vec<(u8, u8, u8)>,
    triangles: &mut Vec<u32>,
    normals: &mut Vec<(i8, i8, i8)>,
    uvs: &mut Vec<(u8, u8)>,
    index_offset: &mut u32,
)
    requires
        *old(index_offset) <= 0xFFFF_0000,
    ensures
        final(vertices)@ == old(vertices)@
            + seq![(x, min_y, min_z), (x, max_y, min_z), (x, max_y, max_z), (x, min_y, max_z)],
        final(normals)@ == old(normals)@ + seq![(1i8, 0i8, 0i8), (1i8, 0i8, 0i8), (1i8, 0i8, 0i8), (1i8, 0i8, 0i8)],
        final(uvs)@ == old(uvs)@ + seq![(0u8, 0u8), (1u8, 0u8), (1u8, 1u8), (0u8, 1u8)],
        final(triangles)@ == old(triangles)@ + seq![
            *old(index_offset),
            (*old(index_offset) + 1) as u32,
            (*old(index_offset) + 2) as u32,
            (*old(index_offset) + 2) as u32,
            (*old(index_offset) + 3) as u32,
            *old(index_offset),
        ],
        *final(index_offset) == *old(index_offset) + 4,
{
    vertices.push((x, min_y, min_z));
    vertices.push((x, max_y, min_z));
    vertices.push((x, max_y, max_z));
    vertices.push((x, min_y, max_z));
    normals.push((1, 0, 0));
    normals.push((1, 0, 0));
    normals.push((1, 0, 0));
    normals.push((1, 0, 0));
    uvs.push((0, 0));
    uvs.push((1, 0));
    uvs.push((1, 1));
    uvs.push((0, 1));
    triangles.push(*index_offset);
    triangles.push(*index_offset + 1);
    triangles.push(*index_offset + 2);
    triangles.push(*index_offset + 2);
    triangles.push(*index_offset + 3);
    triangles.push(*index_offset);
    *index_offset += 4;
    proof {
        assert(vertices@ =~= old(vertices)@
            + seq![(x, min_y, min_z), (x, max_y, min_z), (x, max_y, max_z), (x, min_y, max_z)]);
        assert(normals@ =~= old(normals)@
            + seq![(1i8, 0i8, 0i8), (1i8, 0i8, 0i8), (1i8, 0i8, 0i8), (1i8, 0i8, 0i8)]);
        assert(uvs@ =~= old(uvs)@ + seq![(0u8, 0u8), (1u8, 0u8), (1u8, 1u8), (0u8, 1u8)]);
        assert(triangles@ =~= old(triangles)@ + seq![
            *old(index_offset),
            (*old(index_offset) + 1) as u32,
            (*old(index_offset) + 2) as u32,
            (*old(index_offset) + 2) as u32,
            (*old(index_offset) + 3) as u32,
            *old(index_offset),
        ]);
    }
}


/// Append one left face (outward -x) at plane `x`, spanning
/// `[min_y, max_y] x [min_z, max_z]`.
fn add_left_face(
    x: u8,
    min_y: u8,
    max_y: u8,
    min_z: u8,
    max_z: u8,
    vertices: &mut Vec<(u8, u8, u8)>,
    triangles: &mut Vec<u32>,
    normals: &mut Vec<(i8, i8, i8)>,
    uvs: &mut Vec<(u8, u8)>,
    index_offset: &mut u32,
)
    requires
        *old(index_offset) <= 0xFFFF_0000,
    ensures
        final(vertices)@ == old(vertices)@ + seq![(x, min_y, max_z), (x, max_y, max_z), (x, max_y, min_z), (x, min_y, min_z)],
        final(normals)@ == old(normals)@ + seq![(-1i8, 0i8, 0i8), (-1i8, 0i8, 0i8), (-1i8, 0i8, 0i8), (-1i8, 0i8, 0i8)],
        final(uvs)@ == old(uvs)@ + seq![(1u8, 0u8), (0u8, 0u8), (0u8, 1u8), (1u8, 1u8)],
        final(triangles)@ == old(triangles)@ + seq![
            *old(index_offset),
            (*old(index_offset) + 1) as u32,
            (*old(index_offset) + 2) as u32,
            (*old(index_offset) + 2) as u32,
            (*old(index_offset) + 3) as u32,
            *old(index_offset),
        ],
        *final(index_offset) == *old(index_offset) + 4,
{
    vertices.push((x, min_y, max_z));
    vertices.push((x, max_y, max_z));
    vertices.push((x, max_y, min_z));
    vertices.push((x, min_y, min_z));
    normals.push((-1, 0, 0));
    normals.push((-1, 0, 0));
    normals.push((-1, 0, 0));
    normals.push((-1, 0, 0));
    uvs.push((1, 0));
    uvs.push((0, 0));
    uvs.push((0, 1));
    uvs.push((1, 1));
    triangles.push(*index_offset);
    triangles.push(*index_offset + 1);
    triangles.push(*index_offset + 2);
    triangles.push(*index_offset + 2);
    triangles.push(*index_offset + 3);
    triangles.push(*index_offset);
    *index_offset += 4;
    proof {
        assert(vertices@ =~= old(vertices)@ + seq![(x, min_y, max_z), (x, max_y, max_z), (x, max_y, min_z), (x, min_y, min_z)]);
        assert(normals@ =~= old(normals)@ + seq![(-1i8, 0i8, 0i8), (-1i8, 0i8, 0i8), (-1i8, 0i8, 0i8), (-1i8, 0i8, 0i8)]);
        assert(uvs@ =~= old(uvs)@ + seq![(1u8, 0u8), (0u8, 0u8), (0u8, 1u8), (1u8, 1u8)]);
        assert(triangles@ =~= old(triangles)@ + seq![
            *old(index_offset),
            (*old(index_offset) + 1) as u32,
            (*old(index_offset) + 2) as u32,
            (*old(index_offset) + 2) as u32,
            (*old(index_offset) + 3) as u32,
            *old(index_offset),
        ]);
    }
}

/// Append one top face (outward +y) at plane `y`, spanning
/// `[min_x, max_x] x [min_z, max_z]`.
fn add_top_face(
    min_x: u8,
    max_x: u8,
    y: u8,
    min_z: u8,
    max_z: u8,
    vertices: &mut Vec<(u8, u8, u8)>,
    triangles: &mut Vec<u32>,
    normals: &mut Vec<(i8, i8, i8)>,
    uvs: &mut Vec<(u8, u8)>,
    index_offset: &mut u32,
)
    requires
        *old(index_offset) <= 0xFFFF_0000,
    ensures
        final(vertices)@ == old(vertices)@ + seq![(max_x, y, min_z), (min_x, y, min_z), (min_x, y, max_z), (max_x, y, max_z)],
        final(normals)@ == old(normals)@ + seq![(0i8, 1i8, 0i8), (0i8, 1i8, 0i8), (0i8, 1i8, 0i8), (0i8, 1i8, 0i8)],
        final(uvs)@ == old(uvs)@ + seq![(1u8, 0u8), (0u8, 0u8), (0u8, 1u8), (1u8, 1u8)],
        final(triangles)@ == old(triangles)@ + seq![
            *old(index_offset),
            (*old(index_offset) + 1) as u32,
            (*old(index_offset) + 2) as u32,
            (*old(index_offset) + 2) as u32,
            (*old(index_offset) + 3) as u32,
            *old(index_offset),
        ],
        *final(index_offset) == *old(index_offset) + 4,
{
    vertices.push((max_x, y, min_z));
    vertices.push((min_x, y, min_z));
    vertices.push((min_x, y, max_z));
    vertices.push((max_x, y, max_z));
    normals.push((0, 1, 0));
    normals.push((0, 1, 0));
    normals.push((0, 1, 0));
    normals.push((0, 1, 0));
    uvs.push((1, 0));
    uvs.push((0, 0));
    uvs.push((0, 1));
    uvs.push((1, 1));
    triangles.push(*index_offset);
    triangles.push(*index_offset + 1);
    triangles.push(*index_offset + 2);
    triangles.push(*index_offset + 2);
    triangles.push(*index_offset + 3);
    triangles.push(*index_offset);
    *index_offset += 4;
    proof {
        assert(vertices@ =~= old(vertices)@ + seq![(max_x, y, min_z), (min_x, y, min_z), (min_x, y, max_z), (max_x, y, max_z)]);
        assert(normals@ =~= old(normals)@ + seq![(0i8, 1i8, 0i8), (0i8, 1i8, 0i8), (0i8, 1i8, 0i8), (0i8, 1i8, 0i8)]);
        assert(uvs@ =~= old(uvs)@ + seq![(1u8, 0u8), (0u8, 0u8), (0u8, 1u8), (1u8, 1u8)]);
        assert(triangles@ =~= old(triangles)@ + seq![
            *old(index_offset),
            (*old(index_offset) + 1) as u32,
            (*old(index_offset) + 2) as u32,
            (*old(index_offset) + 2) as u32,
            (*old(index_offset) + 3) as u32,
            *old(index_offset),
        ]);
    }
}

/// Append one bottom face (outward -y) at plane `y`, spanning
/// `[min_x, max_x] x [min_z, max_z]`.
fn add_bottom_face(
    min_x: u8,
    max_x: u8,
    y: u8,
    min_z: u8,
    max_z: u8,
    vertices: &mut Vec<(u8, u8, u8)>,
    triangles: &mut Vec<u32>,
    normals: &mut Vec<(i8, i8, i8)>,
    uvs: &mut Vec<(u8, u8)>,
    index_offset: &mut u32,
)
    requires
        *old(index_offset) <= 0xFFFF_0000,
    ensures
        final(vertices)@ == old(vertices)@ + seq![(max_x, y, max_z), (min_x, y, max_z), (min_x, y, min_z), (max_x, y, min_z)],
        final(normals)@ == old(normals)@ + seq![(0i8, -1i8, 0i8), (0i8, -1i8, 0i8), (0i8, -1i8, 0i8), (0i8, -1i8, 0i8)],
        final(uvs)@ == old(uvs)@ + seq![(0u8, 0u8), (1u8, 0u8), (1u8, 1u8), (0u8, 1u8)],
        final(triangles)@ == old(triangles)@ + seq![
            *old(index_offset),
            (*old(index_offset) + 1) as u32,
            (*old(index_offset) + 2) as u32,
            (*old(index_offset) + 2) as u32,
            (*old(index_offset) + 3) as u32,
            *old(index_offset),
        ],
        *final(index_offset) == *old(index_offset) + 4,
{
    vertices.push((max_x, y, max_z));
    vertices.push((min_x, y, max_z));
    vertices.push((min_x, y, min_z));
    vertices.push((max_x, y, min_z));
    normals.push((0, -1, 0));
    normals.push((0, -1, 0));
    normals.push((0, -1, 0));
    normals.push((0, -1, 0));
    uvs.push((0, 0));
    uvs.push((1, 0));
    uvs.push((1, 1));
    uvs.push((0, 1));
    triangles.push(*index_offset);
    triangles.push(*index_offset + 1);
    triangles.push(*index_offset + 2);
    triangles.push(*index_offset + 2);
    triangles.push(*index_offset + 3);
    triangles.push(*index_offset);
    *index_offset += 4;
    proof {
        assert(vertices@ =~= old(vertices)@ + seq![(max_x, y, max_z), (min_x, y, max_z), (min_x, y, min_z), (max_x, y, min_z)]);
        assert(normals@ =~= old(normals)@ + seq![(0i8, -1i8, 0i8), (0i8, -1i8, 0i8), (0i8, -1i8, 0i8), (0i8, -1i8, 0i8)]);
        assert(uvs@ =~= old(uvs)@ + seq![(0u8, 0u8), (1u8, 0u8), (1u8, 1u8), (0u8, 1u8)]);
        assert(triangles@ =~= old(triangles)@ + seq![
            *old(index_offset),
            (*old(index_offset) + 1) as u32,
            (*old(index_offset) + 2) as u32,
            (*old(index_offset) + 2) as u32,
            (*old(index_offset) + 3) as u32,
            *old(index_offset),
        ]);
    }
}

/// Append one front face (outward +z) at plane `z`, spanning
/// `[min_x, max_x] x [min_y, max_y]`.
fn add_front_face(
    min_x: u8,
    max_x: u8,
    min_y: u8,
    max_y: u8,
    z: u8,
    vertices: &mut Vec<(u8, u8, u8)>,
    triangles: &mut Vec<u32>,
    normals: &mut Vec<(i8, i8, i8)>,
    uvs: &mut Vec<(u8, u8)>,
    index_offset: &mut u32,
)
    requires
        *old(index_offset) <= 0xFFFF_0000,
    ensures
        final(vertices)@ == old(vertices)@ + seq![(min_x, min_y, z), (max_x, min_y, z), (max_x, max_y, z), (min_x, max_y, z)],
        final(normals)@ == old(normals)@ + seq![(0i8, 0i8, 1i8), (0i8, 0i8, 1i8), (0i8, 0i8, 1i8), (0i8, 0i8, 1i8)],
        final(uvs)@ == old(uvs)@ + seq![(0u8, 0u8), (1u8, 0u8), (1u8, 1u8), (0u8, 1u8)],
        final(triangles)@ == old(triangles)@ + seq![
            *old(index_offset),
            (*old(index_offset) + 1) as u32,
            (*old(index_offset) + 2) as u32,
            (*old(index_offset) + 2) as u32,
            (*old(index_offset) + 3) as u32,
            *old(index_offset),
        ],
        *final(index_offset) == *old(index_offset) + 4,
{
    vertices.push((min_x, min_y, z));
    vertices.push((max_x, min_y, z));
    vertices.push((max_x, max_y, z));
    vertices.push((min_x, max_y, z));
    normals.push((0, 0, 1));
    normals.push((0, 0, 1));
    normals.push((0, 0, 1));
    normals.push((0, 0, 1));
    uvs.push((0, 0));
    uvs.push((1, 0));
    uvs.push((1, 1));
    uvs.push((0, 1));
    triangles.push(*index_offset);
    triangles.push(*index_offset + 1);
    triangles.push(*index_offset + 2);
    triangles.push(*index_offset + 2);
    triangles.push(*index_offset + 3);
    triangles.push(*index_offset);
    *index_offset += 4;
    proof {
        assert(vertices@ =~= old(vertices)@ + seq![(min_x, min_y, z), (max_x, min_y, z), (max_x, max_y, z), (min_x, max_y, z)]);
        assert(normals@ =~= old(normals)@ + seq![(0i8, 0i8, 1i8), (0i8, 0i8, 1i8), (0i8, 0i8, 1i8), (0i8, 0i8, 1i8)]);
        assert(uvs@ =~= old(uvs)@ + seq![(0u8, 0u8), (1u8, 0u8), (1u8, 1u8), (0u8, 1u8)]);
        assert(triangles@ =~= old(triangles)@ + seq![
            *old(index_offset),
            (*old(index_offset) + 1) as u32,
            (*old(index_offset) + 2) as u32,
            (*old(index_offset) + 2) as u32,
            (*old(index_offset) + 3) as u32,
            *old(index_offset),
        ]);
    }
}

/// Append one back face (outward -z) at plane `z`, spanning
/// `[min_x, max_x] x [min_y, max_y]`.
fn add_back_face(
    min_x: u8,
    max_x: u8,
    min_y: u8,
    max_y: u8,
    z: u8,
    vertices: &mut Vec<(u8, u8, u8)>,
    triangles: &mut Vec<u32>,
    normals: &mut Vec<(i8, i8, i8)>,
    uvs: &mut Vec<(u8, u8)>,
    index_offset: &mut u32,
)
    requires
        *old(index_offset) <= 0xFFFF_0000,
    ensures
        final(vertices)@ == old(vertices)@ + seq![(min_x, max_y, z), (max_x, max_y, z), (max_x, min_y, z), (min_x, min_y, z)],
        final(normals)@ == old(normals)@ + seq![(0i8, 0i8, -1i8), (0i8, 0i8, -1i8), (0i8, 0i8, -1i8), (0i8, 0i8, -1i8)],
        final(uvs)@ == old(uvs)@ + seq![(1u8, 0u8), (0u8, 0u8), (0u8, 1u8), (1u8, 1u8)],
        final(triangles)@ == old(triangles)@ + seq![
            *old(index_offset),
            (*old(index_offset) + 1) as u32,
            (*old(index_offset) + 2) as u32,
            (*old(index_offset) + 2) as u32,
            (*old(index_offset) + 3) as u32,
            *old(index_offset),
        ],
        *final(index_offset) == *old(index_offset) + 4,
{
    vertices.push((min_x, max_y, z));
    vertices.push((max_x, max_y, z));
    vertices.push((max_x, min_y, z));
    vertices.push((min_x, min_y, z));
    normals.push((0, 0, -1));
    normals.push((0, 0, -1));
    normals.push((0, 0, -1));
    normals.push((0, 0, -1));
    uvs.push((1, 0));
    uvs.push((0, 0));
    uvs.push((0, 1));
    uvs.push((1, 1));
    triangles.push(*index_offset);
    triangles.push(*index_offset + 1);
    triangles.push(*index_offset + 2);
    triangles.push(*index_offset + 2);
    triangles.push(*index_offset + 3);
    triangles.push(*index_offset);
    *index_offset += 4;
    proof {
        assert(vertices@ =~= old(vertices)@ + seq![(min_x, max_y, z), (max_x, max_y, z), (max_x, min_y, z), (min_x, min_y, z)]);
        assert(normals@ =~= old(normals)@ + seq![(0i8, 0i8, -1i8), (0i8, 0i8, -1i8), (0i8, 0i8, -1i8), (0i8, 0i8, -1i8)]);
        assert(uvs@ =~= old(uvs)@ + seq![(1u8, 0u8), (0u8, 0u8), (0u8, 1u8), (1u8, 1u8)]);
        assert(triangles@ =~= old(triangles)@ + seq![
            *old(index_offset),
            (*old(index_offset) + 1) as u32,
            (*old(index_offset) + 2) as u32,
            (*old(index_offset) + 2) as u32,
            (*old(index_offset) + 3) as u32,
            *old(index_offset),
        ]);
    }
}


/// Appending one face to a face list appends exactly its quad to each
/// buffer: four vertices, and six indices at the running offset.
pub proof fn lemma_append_one(a: Seq<Face>, f: Face)
    ensures
        positions_of_faces(a.push(f)) == positions_of_faces(a) + face_positions(f),
        normals_of_faces(a.push(f)) == normals_of_faces(a) + face_normals(f),
        uvs_of_faces(a.push(f)) == uvs_of_faces(a) + face_uvs(f),
        indices_of_count(a.len() as int + 1) == indices_of_count(a.len() as int) + quad_indices(a.len() as int),
{
    assert(a.push(f).drop_last() =~= a);
    assert(a.push(f).last() == f);
}

/// The buffers hold exactly the quads of `faces`: four vertices per
/// face in every attribute buffer, six indices per face, and the
/// running vertex offset.
spec fn buffers_match(
    faces: Seq<Face>,
    pos: Seq<(u8, u8, u8)>,
    nor: Seq<(i8, i8, i8)>,
    uv: Seq<(u8, u8)>,
    tri: Seq<u32>,
    off: u32,
) -> bool {
    &&& pos == positions_of_faces(faces)
    &&& nor == normals_of_faces(faces)
    &&& uv == uvs_of_faces(faces)
    &&& tri == indices_of_count(faces.len() as int)
    &&& off as int == 4 * faces.len()
}

/// All buffers describe exactly the faces emitted by the first `n`
/// blocks of the scan.
spec fn mesh_inv(
    blocks: Seq<Block>,
    n: int,
    pos: Seq<(u8, u8, u8)>,
    nor: Seq<(i8, i8, i8)>,
    uv: Seq<(u8, u8)>,
    tri: Seq<u32>,
    off: u32,
) -> bool {
    buffers_match(faces_up_to(blocks, n), pos, nor, uv, tri, off)
}

/// Append the right face of the solid block at `(c_x, c_y, c_z)` iff
/// it is visible, extending the buffers from `acc` accordingly.
fn emit_right(
    chunk: &Chunk,
    c_x: u8,
    c_y: u8,
    c_z: u8,
    vertices: &mut Vec<(u8, u8, u8)>,
    triangles: &mut Vec<u32>,
    normals: &mut Vec<(i8, i8, i8)>,
    uvs: &mut Vec<(u8, u8)>,
    index_offset: &mut u32,
    Ghost(acc): Ghost<Seq<Face>>,
)
    requires
        chunk.wf(),
        c_x < 16,
        c_y < 16,
        c_z < 16,
        acc.len() <= 0x10_0000,
        buffers_match(acc, old(vertices)@, old(normals)@, old(uvs)@, old(triangles)@, *old(index_offset)),
    ensures
        buffers_match(
            acc + maybe_face(
                face_visible(chunk.contents(), c_x as int, c_y as int, c_z as int, FaceDir::Right),
                Face { dir: FaceDir::Right, x: c_x as int, y: c_y as int, z: c_z as int },
            ),
            final(vertices)@, final(normals)@, final(uvs)@, final(triangles)@, *final(index_offset),
        ),
{
    let ghost f = Face { dir: FaceDir::Right, x: c_x as int, y: c_y as int, z: c_z as int };
    if c_x == 15 || chunk.get(c_x + 1, c_y, c_z).material == BlockMaterial::Empty {
        add_right_face(
                c_x + 1, c_y, c_y + 1, c_z, c_z + 1,
                vertices, triangles, normals, uvs, index_offset,
            );
        proof {
            lemma_append_one(acc, f);
            assert(acc.push(f) =~= acc + maybe_face(true, f));
        }
    } else {
        proof {
            assert(acc + maybe_face(false, f) =~= acc);
        }
    }
}

/// Append the left face of the solid block at `(c_x, c_y, c_z)` iff
/// it is visible, extending the buffers from `acc` accordingly.
fn emit_left(
    chunk: &Chunk,
    c_x: u8,
    c_y: u8,
    c_z: u8,
    vertices: &mut Vec<(u8, u8, u8)>,
    triangles: &mut Vec<u32>,
    normals: &mut Vec<(i8, i8, i8)>,
    uvs: &mut Vec<(u8, u8)>,
    index_offset: &mut u32,
    Ghost(acc): Ghost<Seq<Face>>,
)
    requires
        chunk.wf(),
        c_x < 16,
        c_y < 16,
        c_z < 16,
        acc.len() <= 0x10_0000,
        buffers_match(acc, old(vertices)@, old(normals)@, old(uvs)@, old(triangles)@, *old(index_offset)),
    ensures
        buffers_match(
            acc + maybe_face(
                face_visible(chunk.contents(), c_x as int, c_y as int, c_z as int, FaceDir::Left),
                Face { dir: FaceDir::Left, x: c_x as int, y: c_y as int, z: c_z as int },
            ),
            final(vertices)@, final(normals)@, final(uvs)@, final(triangles)@, *final(index_offset),
        ),
{
    let ghost f = Face { dir: FaceDir::Left, x: c_x as int, y: c_y as int, z: c_z as int };
    if c_x == 0 || chunk.get(c_x - 1, c_y, c_z).material == BlockMaterial::Empty {
        add_left_face(
                c_x, c_y, c_y + 1, c_z, c_z + 1,
                vertices, triangles, normals, uvs, index_offset,
            );
        proof {
            lemma_append_one(acc, f);
            assert(acc.push(f) =~= acc + maybe_face(true, f));
        }
    } else {
        proof {
            assert(acc + maybe_face(false, f) =~= acc);
        }
    }
}

/// Append the top face of the solid block at `(c_x, c_y, c_z)` iff
/// it is visible, extending the buffers from `acc` accordingly.
fn emit_top(
    chunk: &Chunk,
    c_x: u8,
    c_y: u8,
    c_z: u8,
    vertices: &mut Vec<(u8, u8, u8)>,
    triangles: &mut Vec<u32>,
    normals: &mut Vec<(i8, i8, i8)>,
    uvs: &mut Vec<(u8, u8)>,
    index_offset: &mut u32,
    Ghost(acc): Ghost<Seq<Face>>,
)
    requires
        chunk.wf(),
        c_x < 16,
        c_y < 16,
        c_z < 16,
        acc.len() <= 0x10_0000,
        buffers_match(acc, old(vertices)@, old(normals)@, old(uvs)@, old(triangles)@, *old(index_offset)),
    ensures
        buffers_match(
            acc + maybe_face(
                face_visible(chunk.contents(), c_x as int, c_y as int, c_z as int, FaceDir::Top),
                Face { dir: FaceDir::Top, x: c_x as int, y: c_y as int, z: c_z as int },
            ),
            final(vertices)@, final(normals)@, final(uvs)@, final(triangles)@, *final(index_offset),
        ),
{
    let ghost f = Face { dir: FaceDir::Top, x: c_x as int, y: c_y as int, z: c_z as int };
    if c_y == 15 || chunk.get(c_x, c_y + 1, c_z).material == BlockMaterial::Empty {
        add_top_face(
                c_x, c_x + 1, c_y + 1, c_z, c_z + 1,
                vertices, triangles, normals, uvs, index_offset,
            );
        proof {
            lemma_append_one(acc, f);
            assert(acc.push(f) =~= acc + maybe_face(true, f));
        }
    } else {
        proof {
            assert(acc + maybe_face(false, f) =~= acc);
        }
    }
}

/// Append the bottom face of the solid block at `(c_x, c_y, c_z)` iff
/// it is visible, extending the buffers from `acc` accordingly.
fn emit_bottom(
    chunk: &Chunk,
    c_x: u8,
    c_y: u8,
    c_z: u8,
    vertices: &mut Vec<(u8, u8, u8)>,
    triangles: &mut Vec<u32>,
    normals: &mut Vec<(i8, i8, i8)>,
    uvs: &mut Vec<(u8, u8)>,
    index_offset: &mut u32,
    Ghost(acc): Ghost<Seq<Face>>,
)
    requires
        chunk.wf(),
        c_x < 16,
        c_y < 16,
        c_z < 16,
        acc.len() <= 0x10_0000,
        buffers_match(acc, old(vertices)@, old(normals)@, old(uvs)@, old(triangles)@, *old(index_offset)),
    ensures
        buffers_match(
            acc + maybe_face(
                face_visible(chunk.contents(), c_x as int, c_y as int, c_z as int, FaceDir::Bottom),
                Face { dir: FaceDir::Bottom, x: c_x as int, y: c_y as int, z: c_z as int },
            ),
            final(vertices)@, final(normals)@, final(uvs)@, final(triangles)@, *final(index_offset),
        ),
{
    let ghost f = Face { dir: FaceDir::Bottom, x: c_x as int, y: c_y as int, z: c_z as int };
    if c_y == 0 || chunk.get(c_x, c_y - 1, c_z).material == BlockMaterial::Empty {
        add_bottom_face(
                c_x, c_x + 1, c_y, c_z, c_z + 1,
                vertices, triangles, normals, uvs, index_offset,
            );
        proof {
            lemma_append_one(acc, f);
            assert(acc.push(f) =~= acc + maybe_face(true, f));
        }
    } else {
        proof {
            assert(acc + maybe_face(false, f) =~= acc);
        }
    }
}

/// Append the front face of the solid block at `(c_x, c_y, c_z)` iff
/// it is visible, extending the buffers from `acc` accordingly.
fn emit_front(
    chunk: &Chunk,
    c_x: u8,
    c_y: u8,
    c_z: u8,
    vertices: &mut Vec<(u8, u8, u8)>,
    triangles: &mut Vec<u32>,
    normals: &mut Vec<(i8, i8, i8)>,
    uvs: &mut Vec<(u8, u8)>,
    index_offset: &mut u32,
    Ghost(acc): Ghost<Seq<Face>>,
)
    requires
        chunk.wf(),
        c_x < 16,
        c_y < 16,
        c_z < 16,
        acc.len() <= 0x10_0000,
        buffers_match(acc, old(vertices)@, old(normals)@, old(uvs)@, old(triangles)@, *old(index_offset)),
    ensures
        buffers_match(
            acc + maybe_face(
                face_visible(chunk.contents(), c_x as int, c_y as int, c_z as int, FaceDir::Front),
                Face { dir: FaceDir::Front, x: c_x as int, y: c_y as int, z: c_z as int },
            ),
            final(vertices)@, final(normals)@, final(uvs)@, final(triangles)@, *final(index_offset),
        ),
{
    let ghost f = Face { dir: FaceDir::Front, x: c_x as int, y: c_y as int, z: c_z as int };
    if c_z == 15 || chunk.get(c_x, c_y, c_z + 1).material == BlockMaterial::Empty {
        add_front_face(
                c_x, c_x + 1, c_y, c_y + 1, c_z + 1,
                vertices, triangles, normals, uvs, index_offset,
            );
        proof {
            lemma_append_one(acc, f);
            assert(acc.push(f) =~= acc + maybe_face(true, f));
        }
    } else {
        proof {
            assert(acc + maybe_face(false, f) =~= acc);
        }
    }
}

/// Append the back face of the solid block at `(c_x, c_y, c_z)` iff
/// it is visible, extending the buffers from `acc` accordingly.
fn emit_back(
    chunk: &Chunk,
    c_x: u8,
    c_y: u8,
    c_z: u8,
    vertices: &mut Vec<(u8, u8, u8)>,
    triangles: &mut Vec<u32>,
    normals: &mut Vec<(i8, i8, i8)>,
    uvs: &mut Vec<(u8, u8)>,
    index_offset: &mut u32,
    Ghost(acc): Ghost<Seq<Face>>,
)
    requires
        chunk.wf(),
        c_x < 16,
        c_y < 16,
        c_z < 16,
        acc.len() <= 0x10_0000,
        buffers_match(acc, old(vertices)@, old(normals)@, old(uvs)@, old(triangles)@, *old(index_offset)),
    ensures
        buffers_match(
            acc + maybe_face(
                face_visible(chunk.contents(), c_x as int, c_y as int, c_z as int, FaceDir::Back),
                Face { dir: FaceDir::Back, x: c_x as int, y: c_y as int, z: c_z as int },
            ),
            final(vertices)@, final(normals)@, final(uvs)@, final(triangles)@, *final(index_offset),
        ),
{
    let ghost f = Face { dir: FaceDir::Back, x: c_x as int, y: c_y as int, z: c_z as int };
    if c_z == 0 || chunk.get(c_x, c_y, c_z - 1).material == BlockMaterial::Empty {
        add_back_face(
                c_x, c_x + 1, c_y, c_y + 1, c_z,
                vertices, triangles, normals, uvs, index_offset,
            );
        proof {
            lemma_append_one(acc, f);
            assert(acc.push(f) =~= acc + maybe_face(true, f));
        }
    } else {
        proof {
            assert(acc + maybe_face(false, f) =~= acc);
        }
    }
}

/// Emit the faces of the single block at `(c_x, c_y, c_z)` (none if
/// it is empty), advancing every buffer from the state after `n` scan
/// steps to the state after `n + 1`, where `n` is the block's index.
#[verifier::rlimit(100)]
#[verifier::spinoff_prover]
fn emit_block_faces(
    chunk: &Chunk,
    c_x: u8,
    c_y: u8,
    c_z: u8,
    vertices: &mut Vec<(u8, u8, u8)>,
    triangles: &mut Vec<u32>,
    normals: &mut Vec<(i8, i8, i8)>,
    uvs: &mut Vec<(u8, u8)>,
    index_offset: &mut u32,
)
    requires
        chunk.wf(),
        c_x < 16,
        c_y < 16,
        c_z < 16,
        mesh_inv(
            chunk.contents(),
            pos_index(c_x as int, c_y as int, c_z as int),
            old(vertices)@, old(normals)@, old(uvs)@, old(triangles)@, *old(index_offset),
        ),
    ensures
        mesh_inv(
            chunk.contents(),
            pos_index(c_x as int, c_y as int, c_z as int) + 1,
            final(vertices)@, final(normals)@, final(uvs)@, final(triangles)@, *final(index_offset),
        ),
{
    let ghost blocks = chunk.contents();
    let ghost x = c_x as int;
    let ghost y = c_y as int;
    let ghost z = c_z as int;
    let ghost n: int = pos_index(x, y, z);
    let ghost base = faces_up_to(blocks, n);
    let ghost mut acc = base;
    proof {
        lemma_index_bijection();
        lemma_faces_up_to_len(blocks, n);
    }

    if chunk.get(c_x, c_y, c_z).material != BlockMaterial::Empty {
        let ghost s1 = maybe_face(face_visible(blocks, x, y, z, FaceDir::Right), Face { dir: FaceDir::Right, x, y, z });
        let ghost s2 = maybe_face(face_visible(blocks, x, y, z, FaceDir::Left), Face { dir: FaceDir::Left, x, y, z });
        let ghost s3 = maybe_face(face_visible(blocks, x, y, z, FaceDir::Top), Face { dir: FaceDir::Top, x, y, z });
        let ghost s4 = maybe_face(face_visible(blocks, x, y, z, FaceDir::Bottom), Face { dir: FaceDir::Bottom, x, y, z });
        let ghost s5 = maybe_face(face_visible(blocks, x, y, z, FaceDir::Front), Face { dir: FaceDir::Front, x, y, z });
        let ghost s6 = maybe_face(face_visible(blocks, x, y, z, FaceDir::Back), Face { dir: FaceDir::Back, x, y, z });

        emit_right(chunk, c_x, c_y, c_z, vertices, triangles, normals, uvs, index_offset, Ghost(acc));
        proof {
            acc = acc + s1;
        }
        emit_left(chunk, c_x, c_y, c_z, vertices, triangles, normals, uvs, index_offset, Ghost(acc));
        proof {
            acc = acc + s2;
        }
        emit_top(chunk, c_x, c_y, c_z, vertices, triangles, normals, uvs, index_offset, Ghost(acc));
        proof {
            acc = acc + s3;
        }
        emit_bottom(chunk, c_x, c_y, c_z, vertices, triangles, normals, uvs, index_offset, Ghost(acc));
        proof {
            acc = acc + s4;
        }
        emit_front(chunk, c_x, c_y, c_z, vertices, triangles, normals, uvs, index_offset, Ghost(acc));
        proof {
            acc = acc + s5;
        }
        emit_back(chunk, c_x, c_y, c_z, vertices, triangles, normals, uvs, index_offset, Ghost(acc));
        proof {
            acc = acc + s6;
        }
        proof {
            assert(faces_at(blocks, x, y, z) == s1 + s2 + s3 + s4 + s5 + s6);
            assert(acc =~= base + faces_at(blocks, x, y, z));
        }
    } else {
        proof {
            assert(faces_at(blocks, x, y, z) =~= Seq::<Face>::empty());
            assert(acc =~= base + faces_at(blocks, x, y, z));
        }
    }

    proof {
        assert(index_x(n) == x && index_y(n) == y && index_z(n) == z);
        assert(faces_up_to(blocks, n + 1) == base + faces_at(blocks, x, y, z));
        assert(buffers_match(acc, vertices@, normals@, uvs@, triangles@, *index_offset));
        assert(acc == faces_up_to(blocks, n + 1));
    }
}

/// Generate the triangle mesh of one chunk by naive face culling.
///
/// The result is a pure function of the chunk contents: the buffers
/// equal, vertex for vertex and index for index, the spec-level face
/// list of the scan, so regenerating an unchanged chunk reproduces the
/// identical mesh.
pub fn generate_chunk_mesh(chunk: &Chunk) -> (m: MeshData)
    requires
        chunk.wf(),
    ensures
        m.positions@ == positions_of_faces(chunk_faces(chunk.contents())),
        m.normals@ == normals_of_faces(chunk_faces(chunk.contents())),
        m.uvs@ == uvs_of_faces(chunk_faces(chunk.contents())),
        m.indices@ == indices_of_count(chunk_faces(chunk.contents()).len() as int),
        m.positions@.len() == 4 * chunk_faces(chunk.contents()).len(),
        m.normals@.len() == m.positions@.len(),
        m.uvs@.len() == m.positions@.len(),
        m.indices@.len() == 6 * chunk_faces(chunk.contents()).len(),
{
    let mut vertices: Vec<(u8, u8, u8)> = Vec::new();
    let mut normals: Vec<(i8, i8, i8)> = Vec::new();
    let mut uvs: Vec<(u8, u8)> = Vec::new();
    let mut triangles: Vec<u32> = Vec::new();
    let mut index_offset: u32 = 0;

    let mut c_z: u8 = 0;
    while c_z < 16
        invariant
            chunk.wf(),
            c_z <= 16,
            mesh_inv(chunk.contents(), 256 * c_z as int, vertices@, normals@, uvs@, triangles@, index_offset),
        decreases 16 - c_z,
    {
        let mut c_y: u8 = 0;
        while c_y < 16
            invariant
                chunk.wf(),
                c_z < 16,
                c_y <= 16,
                mesh_inv(
                    chunk.contents(),
                    256 * c_z as int + 16 * c_y as int,
                    vertices@, normals@, uvs@, triangles@, index_offset,
                ),
            decreases 16 - c_y,
        {
            let mut c_x: u8 = 0;
            while c_x < 16
                invariant
                    chunk.wf(),
                    c_z < 16,
                    c_y < 16,
                    c_x <= 16,
                    mesh_inv(
                        chunk.contents(),
                        256 * c_z as int + 16 * c_y as int + c_x as int,
                        vertices@, normals@, uvs@, triangles@, index_offset,
                    ),
                decreases 16 - c_x,
            {
                emit_block_faces(
                    chunk, c_x, c_y, c_z,
                    &mut vertices, &mut triangles, &mut normals, &mut uvs, &mut index_offset,
                );
                c_x += 1;
            }
            c_y += 1;
        }
        c_z += 1;
    }

    proof {
        lemma_buffer_lengths(chunk_faces(chunk.contents()));
        lemma_index_count(chunk_faces(chunk.contents()).len() as int);
    }
    MeshData { positions: vertices, normals, uvs, indices: triangles }
}

} // verus!
