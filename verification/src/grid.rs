//! Coordinates and the sparse chunk container.
//!
//! A `GridPos` names any block in the unbounded world as a
//! (chunk coordinate, local block coordinate) pair; adding a signed
//! offset carries across chunk boundaries with Euclidean
//! division/remainder, so negative offsets wrap correctly.
//!
//! A `Grid` is a sparse mapping from chunk coordinate to `Chunk`: a
//! missing chunk means "implicitly all empty", never a default chunk.

use vstd::prelude::*;

use std::collections::HashMap;

use crate::block::Block;
use crate::chunk::{BlockPos, Chunk, CHUNK_SIZE};

verus! {

broadcast use vstd::std_specs::hash::group_hash_axioms;

/// A chunk's position in chunk-grid units (one unit per chunk width).
#[derive(Clone, Copy, Debug, PartialEq, Eq, Hash, Structural)]
pub struct ChunkPos {
    pub x: i16,
    pub y: i16,
    pub z: i16,
}

impl ChunkPos {
    pub fn new(x: i16, y: i16, z: i16) -> (r: ChunkPos)
        ensures
            r == (ChunkPos { x, y, z }),
    {
        Self { x, y, z }
    }
}

/// A global block address: which chunk, and which block inside it.
#[derive(Clone, Copy, Debug, PartialEq, Eq, Structural)]
pub struct GridPos {
    pub chunk_pos: ChunkPos,
    pub block_pos: BlockPos,
}

/// The global position along one axis, in block units: chunk
/// coordinate times the chunk width, plus the local coordinate.
pub open spec fn axis_total(chunk: int, block: int) -> int {
    chunk * 16 + block
}

/// One axis of wraparound addition: re-decompose `chunk * 16 + block
/// + delta` into a chunk coordinate and a local coordinate in
/// `[0, CHUNK_SIZE)`. The new total must fit the i16 chunk range.
fn axis_add(chunk: i16, block: u8, delta: i16) -> (r: (i16, u8))
    requires
        block < CHUNK_SIZE,
        -524288 <= axis_total(chunk as int, block as int) + delta <= 524287,
    ensures
        r.1 < CHUNK_SIZE,
        axis_total(r.0 as int, r.1 as int) == axis_total(chunk as int, block as int) + delta,
{
    let t: i32 = block as i32 + delta as i32;
    let s: u32 = (t + 32768) as u32;
    let q: u32 = s / 16;
    let r: u32 = s % 16;
    let cq: i32 = chunk as i32 + q as i32 - 2048;
    proof {
        assert(s == q * 16 + r && r < 16);
        assert(cq * 16 + r == chunk * 16 + block + delta);
        assert(-32768 <= cq <= 32767);
    }
    (cq as i16, r as u8)
}

impl GridPos {
    /// The local block coordinates are in range.
    pub open spec fn wf(self) -> bool {
        self.block_pos.wf()
    }

    /// Add a signed per-axis offset, carrying across chunk boundaries:
    /// on each axis the new global total `chunk * 16 + block` equals
    /// the old total plus the offset, with the local coordinate kept
    /// in `[0, CHUNK_SIZE)` by Euclidean wraparound. The new totals
    /// must stay inside the i16 chunk-coordinate range.
    pub fn add(self, rhs: (i16, i16, i16)) -> (r: GridPos)
        requires
            self.wf(),
            -524288 <= axis_total(self.chunk_pos.x as int, self.block_pos.x as int) + rhs.0 <= 524287,
            -524288 <= axis_total(self.chunk_pos.y as int, self.block_pos.y as int) + rhs.1 <= 524287,
            -524288 <= axis_total(self.chunk_pos.z as int, self.block_pos.z as int) + rhs.2 <= 524287,
        ensures
            r.wf(),
            axis_total(r.chunk_pos.x as int, r.block_pos.x as int)
                == axis_total(self.chunk_pos.x as int, self.block_pos.x as int) + rhs.0,
            axis_total(r.chunk_pos.y as int, r.block_pos.y as int)
                == axis_total(self.chunk_pos.y as int, self.block_pos.y as int) + rhs.1,
            axis_total(r.chunk_pos.z as int, r.block_pos.z as int)
                == axis_total(self.chunk_pos.z as int, self.block_pos.z as int) + rhs.2,
    {
        let (cx, bx) = axis_add(self.chunk_pos.x, self.block_pos.x, rhs.0);
        let (cy, by) = axis_add(self.chunk_pos.y, self.block_pos.y, rhs.1);
        let (cz, bz) = axis_add(self.chunk_pos.z, self.block_pos.z, rhs.2);
        GridPos {
            chunk_pos: ChunkPos { x: cx, y: cy, z: cz },
            block_pos: BlockPos { x: bx, y: by, z: bz },
        }
    }
}

/// The decomposition of a global total into (chunk, block) with the
/// block in `[0, CHUNK_SIZE)` is unique, so the `add` contract pins
/// its result down completely.
pub proof fn lemma_axis_decomposition_unique(c1: int, b1: int, c2: int, b2: int)
    requires
        0 <= b1 < 16,
        0 <= b2 < 16,
        axis_total(c1, b1) == axis_total(c2, b2),
    ensures
        c1 == c2,
        b1 == b2,
{
    assert(c1 == c2 && b1 == b2) by (nonlinear_arith)
        requires
            0 <= b1 < 16,
            0 <= b2 < 16,
            c1 * 16 + b1 == c2 * 16 + b2,
    ;
}

/// Sparse-map key of a chunk position: the three i16 components
/// shifted to `[0, 2^16)` and packed as base-2^16 digits.
pub open spec fn key_of(p: ChunkPos) -> int {
    (p.x + 32768) * 0x1_0000_0000 + (p.y + 32768) * 0x1_0000 + (p.z + 32768)
}

/// Inverse of `key_of` on encoded keys.
pub open spec fn decode_key(k: int) -> ChunkPos {
    ChunkPos {
        x: (k / 0x1_0000_0000 - 32768) as i16,
        y: ((k / 0x1_0000) % 0x1_0000 - 32768) as i16,
        z: (k % 0x1_0000 - 32768) as i16,
    }
}

/// `decode_key` inverts `key_of`, so the packing is injective: two
/// distinct chunk positions never collide on one map key.
pub proof fn lemma_key_of_invertible(p: ChunkPos)
    ensures
        0 <= key_of(p) < 0x1_0000_0000_0000,
        decode_key(key_of(p)) == p,
{
    let ux = p.x + 32768;
    let uy = p.y + 32768;
    let uz = p.z + 32768;
    assert(0 <= ux < 0x1_0000 && 0 <= uy < 0x1_0000 && 0 <= uz < 0x1_0000);
    let k = key_of(p);
    let hi = ux * 0x1_0000 + uy;
    assert(k == hi * 0x1_0000 + uz);
    assert(k / 0x1_0000 == hi && k % 0x1_0000 == uz) by (nonlinear_arith)
        requires
            k == hi * 0x1_0000 + uz,
            0 <= hi,
            0 <= uz < 0x1_0000,
    ;
    assert(hi / 0x1_0000 == ux && hi % 0x1_0000 == uy) by (nonlinear_arith)
        requires
            hi == ux * 0x1_0000 + uy,
            0 <= ux,
            0 <= uy < 0x1_0000,
    ;
    assert(k / 0x1_0000_0000 == ux) by (nonlinear_arith)
        requires
            k == ux * 0x1_0000_0000 + uy * 0x1_0000 + uz,
            0 <= ux && 0 <= uy < 0x1_0000 && 0 <= uz < 0x1_0000,
    ;
}

/// Exec counterpart of `key_of`.
fn chunk_key(p: ChunkPos) -> (k: u64)
    ensures
        k == key_of(p) as u64,
        k == key_of(p),
{
    let ux = (p.x as i32 + 32768) as u64;
    let uy = (p.y as i32 + 32768) as u64;
    let uz = (p.z as i32 + 32768) as u64;
    let k = ux * 0x1_0000_0000 + uy * 0x1_0000 + uz;
    proof {
        lemma_key_of_invertible(p);
    }
    k
}

/// What the grid remembers about one chunk: the opaque entity handle
/// and the block contents in linearization order.
pub type ChunkRecord = (u64, Seq<Block>);

/// Sparse mapping from chunk coordinate to chunk. A grid never holds
/// a chunk all of whose blocks are empty; looking up a missing chunk
/// yields "absent", never a default chunk.
pub struct Grid {
    chunks: HashMap<u64, Chunk>,
}

impl Grid {
    /// Abstract contents: a map from chunk position to
    /// (entity handle, blocks).
    pub closed spec fn view(&self) -> Map<ChunkPos, ChunkRecord> {
        Map::new(
            |p: ChunkPos| self.chunks@.contains_key(key_of(p) as u64),
            |p: ChunkPos| (self.chunks@[key_of(p) as u64].entity, self.chunks@[key_of(p) as u64].contents()),
        )
    }

    /// Every stored chunk is well formed, and every stored key is the
    /// encoding of its chunk position.
    pub closed spec fn wf(&self) -> bool {
        forall|k: u64| #[trigger] self.chunks@.contains_key(k) ==> {
            &&& self.chunks@[k].wf()
            &&& k == key_of(decode_key(k as int)) as u64
        }
    }

    /// Every chunk recorded in a well-formed grid holds exactly
    /// `CHUNK_SIZE^3` blocks.
    pub proof fn lemma_wf_record(&self, p: ChunkPos)
        requires
            self.wf(),
            self@.contains_key(p),
        ensures
            self@[p].1.len() == 4096,
    {
    }

    /// An empty grid.
    pub fn new() -> (r: Grid)
        ensures
            r.wf(),
            r@ == Map::<ChunkPos, ChunkRecord>::empty(),
    {
        let r = Grid { chunks: HashMap::new() };
        proof {
            assert(r@ =~= Map::<ChunkPos, ChunkRecord>::empty());
        }
        r
    }

    /// Look a chunk up; absent means "all empty here".
    pub fn get_chunk(&self, pos: ChunkPos) -> (r: Option<&Chunk>)
        requires
            self.wf(),
        ensures
            match r {
                Some(c) => {
                    &&& self@.contains_key(pos)
                    &&& c.wf()
                    &&& c.entity == self@[pos].0
                    &&& c.contents() == self@[pos].1
                },
                None => !self@.contains_key(pos),
            },
    {
        let k = chunk_key(pos);
        proof {
            lemma_key_of_invertible(pos);
        }
        self.chunks.get(&k)
    }

    /// Remove a chunk from the grid and hand it to the caller, for
    /// edit-in-place followed by `set_chunk`.
    pub fn take_chunk(&mut self, pos: ChunkPos) -> (r: Option<Chunk>)
        requires
            old(self).wf(),
        ensures
            final(self).wf(),
            match r {
                Some(c) => {
                    &&& old(self)@.contains_key(pos)
                    &&& c.wf()
                    &&& c.entity == old(self)@[pos].0
                    &&& c.contents() == old(self)@[pos].1
                    &&& final(self)@ == old(self)@.remove(pos)
                },
                None => {
                    &&& !old(self)@.contains_key(pos)
                    &&& final(self)@ == old(self)@
                },
            },
    {
        let k = chunk_key(pos);
        proof {
            lemma_key_of_invertible(pos);
        }
        let r = self.chunks.remove(&k);
        proof {
            self.lemma_view_after_underlying_remove(*old(self), pos);
        }
        r
    }

    /// Insert or replace with `Some`, remove with `None`; removing a
    /// nonexistent chunk is a no-op.
    pub fn set_chunk(&mut self, pos: ChunkPos, chunk: Option<Chunk>)
        requires
            old(self).wf(),
            match chunk {
                Some(c) => c.wf(),
                None => true,
            },
        ensures
            final(self).wf(),
            final(self)@ == match chunk {
                Some(c) => old(self)@.insert(pos, (c.entity, c.contents())),
                None => old(self)@.remove(pos),
            },
    {
        let k = chunk_key(pos);
        proof {
            lemma_key_of_invertible(pos);
        }
        match chunk {
            Some(c) => {
                let ghost prev = *self;
                let ghost record = (c.entity, c.contents());
                self.chunks.insert(k, c);
                proof {
                    assert forall|q: ChunkPos| true implies
                        #[trigger] self@.contains_key(q) == prev@.insert(pos, record).contains_key(q)
                        && (self@.contains_key(q) ==> self@[q] == prev@.insert(pos, record)[q]) by {
                        lemma_key_of_invertible(q);
                        lemma_key_of_invertible(pos);
                    }
                    assert(self@ =~= prev@.insert(pos, record));
                }
            },
            None => {
                self.chunks.remove(&k);
                proof {
                    self.lemma_view_after_underlying_remove(*old(self), pos);
                }
            },
        }
    }

    /// Whether the grid holds no chunk at all; a placed structure
    /// whose grid becomes empty is destroyed by its owner.
    pub fn is_empty(&self) -> (r: bool)
        requires
            self.wf(),
        ensures
            r <==> self@ =~= Map::<ChunkPos, ChunkRecord>::empty(),
    {
        let r = self.chunks.is_empty();
        proof {
            if self.chunks@.len() == 0 {
                assert(self.chunks@.dom().finite());
                vstd::set_lib::lemma_set_empty_equivalency_len(self.chunks@.dom());
                assert forall|p: ChunkPos| !(#[trigger] self@.contains_key(p)) by {
                    if self.chunks@.contains_key(key_of(p) as u64) {
                        assert(self.chunks@.dom().contains(key_of(p) as u64));
                    }
                }
                assert(self@ =~= Map::<ChunkPos, ChunkRecord>::empty());
            } else {
                assert(self.chunks@.dom().len() != 0);
                if self.chunks@.dom() =~= Set::<u64>::empty() {
                    assert(self.chunks@.dom().len() == 0);
                }
                let k = self.chunks@.dom().choose();
                assert(self.chunks@.contains_key(k));
                let p = decode_key(k as int);
                assert(key_of(p) as u64 == k);
                assert(self@.contains_key(p));
            }
        }
        r
    }

    /// After removing `key_of(pos)` from the underlying map, the view
    /// is the old view with `pos` removed.
    proof fn lemma_view_after_underlying_remove(&self, prev: Grid, pos: ChunkPos)
        requires
            prev.wf(),
            self.chunks@ == prev.chunks@.remove(key_of(pos) as u64),
        ensures
            self.wf(),
            self@ == prev@.remove(pos),
    {
        assert forall|q: ChunkPos| true implies
            #[trigger] self@.contains_key(q) == prev@.remove(pos).contains_key(q)
            && (self@.contains_key(q) ==> self@[q] == prev@.remove(pos)[q]) by {
            lemma_key_of_invertible(q);
            lemma_key_of_invertible(pos);
        }
        assert(self@ =~= prev@.remove(pos));
    }
}

} // verus!
