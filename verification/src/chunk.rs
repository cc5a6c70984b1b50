//! A chunk: a fixed 16 x 16 x 16 array of blocks, stored flat, addressed
//! by local coordinates `(x, y, z)` each in `[0, CHUNK_SIZE)`.
//!
//! The linearization `index = CHUNK_SIZE^2 * z + CHUNK_SIZE * y + x` is
//! load-bearing: the mesh and collider generators scan in exactly this
//! order, so it must not change.

use vstd::prelude::*;

use crate::block::Block;

verus! {

/// Blocks per chunk edge.
pub const CHUNK_SIZE: u8 = 16;

/// Blocks per chunk: `CHUNK_SIZE^3`.
pub const CHUNK_SIZE_CUBED: usize = 4096;

/// A block's position local to its chunk; each component is in
/// `[0, CHUNK_SIZE)`.
#[derive(Clone, Copy, Debug, PartialEq, Eq, Structural)]
pub struct BlockPos {
    pub x: u8,
    pub y: u8,
    pub z: u8,
}

impl BlockPos {
    /// All three components are in range for a chunk.
    pub open spec fn wf(self) -> bool {
        self.x < CHUNK_SIZE && self.y < CHUNK_SIZE && self.z < CHUNK_SIZE
    }
}

/// Flat index of local coordinates `(x, y, z)`.
pub open spec fn pos_index(x: int, y: int, z: int) -> int {
    z * 256 + y * 16 + x
}

/// x coordinate encoded in a flat index.
pub open spec fn index_x(i: int) -> int {
    i % 16
}

/// y coordinate encoded in a flat index.
pub open spec fn index_y(i: int) -> int {
    (i / 16) % 16
}

/// z coordinate encoded in a flat index.
pub open spec fn index_z(i: int) -> int {
    i / 256
}

/// Valid local coordinates.
pub open spec fn valid_coords(x: int, y: int, z: int) -> bool {
    0 <= x < 16 && 0 <= y < 16 && 0 <= z < 16
}

/// The linearization is a bijection between `[0, CHUNK_SIZE)^3` and
/// `[0, CHUNK_SIZE^3)`: decoding inverts encoding on every valid
/// coordinate triple, encoding inverts decoding on every index, and so
/// each of the 4096 indices is hit by exactly one coordinate triple.
pub proof fn lemma_index_bijection()
    ensures
        forall|x: int, y: int, z: int|
            valid_coords(x, y, z) ==> {
                &&& 0 <= #[trigger] pos_index(x, y, z) < 4096
                &&& index_x(pos_index(x, y, z)) == x
                &&& index_y(pos_index(x, y, z)) == y
                &&& index_z(pos_index(x, y, z)) == z
            },
        forall|i: int|
            0 <= i < 4096 ==> {
                &&& valid_coords(index_x(i), index_y(i), index_z(i))
                &&& #[trigger] pos_index(index_x(i), index_y(i), index_z(i)) == i
            },
{
    assert forall|x: int, y: int, z: int| valid_coords(x, y, z) implies {
        &&& 0 <= #[trigger] pos_index(x, y, z) < 4096
        &&& index_x(pos_index(x, y, z)) == x
        &&& index_y(pos_index(x, y, z)) == y
        &&& index_z(pos_index(x, y, z)) == z
    } by {
        assert((z * 256 + y * 16 + x) % 16 == x) by (nonlinear_arith)
            requires 0 <= x < 16 && 0 <= y < 16 && 0 <= z < 16;
        assert(((z * 256 + y * 16 + x) / 16) % 16 == y) by (nonlinear_arith)
            requires 0 <= x < 16 && 0 <= y < 16 && 0 <= z < 16;
        assert((z * 256 + y * 16 + x) / 256 == z) by (nonlinear_arith)
            requires 0 <= x < 16 && 0 <= y < 16 && 0 <= z < 16;
    }
    assert forall|i: int| 0 <= i < 4096 implies {
        &&& valid_coords(index_x(i), index_y(i), index_z(i))
        &&& #[trigger] pos_index(index_x(i), index_y(i), index_z(i)) == i
    } by {
        assert(0 <= i % 16 < 16 && 0 <= (i / 16) % 16 < 16 && 0 <= i / 256 < 16)
            by (nonlinear_arith)
            requires 0 <= i < 4096;
        assert((i / 256) * 256 + ((i / 16) % 16) * 16 + i % 16 == i) by (nonlinear_arith)
            requires 0 <= i < 4096;
    }
}

/// A chunk's block array is all `Empty`.
pub open spec fn all_empty(blocks: Seq<Block>) -> bool {
    forall|i: int| 0 <= i < blocks.len() ==> (#[trigger] blocks[i]).is_empty()
}

/// A fixed-size cube of blocks, plus an opaque handle to the chunk's
/// external renderable/physical representation. The handle is assigned
/// by whoever owns that representation; the chunk merely records it.
#[derive(Debug)]
pub struct Chunk {
    pub entity: u64,
    pub blocks: Vec<Block>,
}

impl Chunk {
    /// The block array always holds exactly `CHUNK_SIZE^3` blocks; no
    /// partial chunks exist.
    pub open spec fn wf(self) -> bool {
        self.blocks@.len() == 4096
    }

    /// The chunk's contents as a sequence in linearization order.
    pub open spec fn contents(self) -> Seq<Block> {
        self.blocks@
    }

    /// A fully initialized chunk from a complete block array.
    pub fn new(entity: u64, blocks: Vec<Block>) -> (r: Chunk)
        requires
            blocks@.len() == 4096,
        ensures
            r.wf(),
            r.entity == entity,
            r.contents() == blocks@,
    {
        Chunk { entity, blocks }
    }

    /// An all-empty chunk, the starting point of every edit.
    pub fn new_empty(entity: u64) -> (r: Chunk)
        ensures
            r.wf(),
            r.entity == entity,
            all_empty(r.contents()),
            r.contents() == Seq::new(4096, |i: int| Block { material: crate::block::BlockMaterial::Empty }),
    {
        let mut blocks: Vec<Block> = Vec::new();
        let mut i: usize = 0;
        while i < 4096
            invariant
                i <= 4096,
                blocks@.len() == i,
                blocks@ == Seq::new(i as nat, |j: int| Block { material: crate::block::BlockMaterial::Empty }),
            decreases 4096 - i,
        {
            blocks.push(Block::empty());
            i = i + 1;
            proof {
                assert(blocks@ =~= Seq::new(i as nat, |j: int| Block { material: crate::block::BlockMaterial::Empty }));
            }
        }
        proof {
            assert(all_empty(blocks@));
        }
        Chunk { entity, blocks }
    }

    /// Flat index of local coordinates; callers must pre-validate the
    /// coordinates against `CHUNK_SIZE`.
    pub fn pos_to_index(&self, x: u8, y: u8, z: u8) -> (r: usize)
        requires
            x < CHUNK_SIZE,
            y < CHUNK_SIZE,
            z < CHUNK_SIZE,
        ensures
            r == pos_index(x as int, y as int, z as int),
            r < 4096,
    {
        let x = x as usize;
        let y = y as usize;
        let z = z as usize;

        z * 256 + y * 16 + x
    }

    /// The block at local coordinates `(x, y, z)`.
    pub fn get(&self, x: u8, y: u8, z: u8) -> (r: Block)
        requires
            self.wf(),
            x < CHUNK_SIZE,
            y < CHUNK_SIZE,
            z < CHUNK_SIZE,
        ensures
            r == self.contents()[pos_index(x as int, y as int, z as int)],
    {
        let i = self.pos_to_index(x, y, z);
        self.blocks[i]
    }

    /// Overwrite the block at local coordinates `(x, y, z)`.
    pub fn set(&mut self, x: u8, y: u8, z: u8, block: Block)
        requires
            old(self).wf(),
            x < CHUNK_SIZE,
            y < CHUNK_SIZE,
            z < CHUNK_SIZE,
        ensures
            final(self).wf(),
            final(self).entity == old(self).entity,
            final(self).contents() == old(self).contents().update(
                pos_index(x as int, y as int, z as int),
                block,
            ),
    {
        let i = self.pos_to_index(x, y, z);
        self.blocks.set(i, block);
    }

    /// `get` addressed by a `BlockPos`.
    pub fn get_by_block_pos(&self, pos: BlockPos) -> (r: Block)
        requires
            self.wf(),
            pos.wf(),
        ensures
            r == self.contents()[pos_index(pos.x as int, pos.y as int, pos.z as int)],
    {
        self.get(pos.x, pos.y, pos.z)
    }

    /// `set` addressed by a `BlockPos`.
    pub fn set_by_block_pos(&mut self, pos: BlockPos, block: Block)
        requires
            old(self).wf(),
            pos.wf(),
        ensures
            final(self).wf(),
            final(self).entity == old(self).entity,
            final(self).contents() == old(self).contents().update(
                pos_index(pos.x as int, pos.y as int, pos.z as int),
                block,
            ),
    {
        self.set(pos.x, pos.y, pos.z, block);
    }

    /// Read-only view of the flat block array, in linearization order.
    pub fn blocks(&self) -> (r: &Vec<Block>)
        ensures
            r@ == self.contents(),
    {
        &self.blocks
    }

    /// Whether every block of the chunk is `Empty`; a grid never keeps
    /// such a chunk.
    pub fn is_all_empty(&self) -> (r: bool)
        requires
            self.wf(),
        ensures
            r == all_empty(self.contents()),
    {
        let mut i: usize = 0;
        while i < 4096
            invariant
                self.wf(),
                i <= 4096,
                forall|j: int| 0 <= j < i ==> (#[trigger] self.contents()[j]).is_empty(),
            decreases 4096 - i,
        {
            if self.blocks[i].material != crate::block::BlockMaterial::Empty {
                return false;
            }
            i = i + 1;
        }
        true
    }
}

} // verus!
