//! Greedy run-merging collider generation.
//!
//! Scans blocks in linearization order, and for each solid block not
//! yet swallowed by an earlier box grows a rectangular prism: first
//! along +x while the neighbor matches the start material and is
//! untested, then along +y a full row at a time, then along +z a full
//! rectangle at a time. The grown box is emitted and all its cells are
//! marked tested. This is a greedy heuristic, not an optimal
//! partition, but it covers every solid block exactly once.
//!
//! Boxes are inclusive index ranges in block units; callers derive
//! half-extents and centers in world units from them.

use vstd::prelude::*;

use crate::block::{Block, BlockMaterial};
use crate::chunk::{index_x, index_y, index_z, lemma_index_bijection, pos_index, Chunk};

verus! {

/// An axis-aligned box of whole blocks, bounds inclusive, in block
/// units local to the chunk.
#[derive(Clone, Copy, Debug, PartialEq, Eq, Structural)]
pub struct BlockBox {
    pub min_x: u8,
    pub min_y: u8,
    pub min_z: u8,
    pub max_x: u8,
    pub max_y: u8,
    pub max_z: u8,
}

impl BlockBox {
    /// Number of blocks the box covers.
    pub open spec fn volume(self) -> int {
        (self.max_x - self.min_x + 1) * (self.max_y - self.min_y + 1) * (self.max_z - self.min_z + 1)
    }
}

/// The box bounds are ordered and inside the chunk.
pub open spec fn box_wf(b: BlockBox) -> bool {
    &&& b.min_x <= b.max_x < 16
    &&& b.min_y <= b.max_y < 16
    &&& b.min_z <= b.max_z < 16
}

/// Whether the cell `(x, y, z)` lies inside box `b`.
pub open spec fn in_box(b: BlockBox, x: int, y: int, z: int) -> bool {
    &&& b.min_x <= x <= b.max_x
    &&& b.min_y <= y <= b.max_y
    &&& b.min_z <= z <= b.max_z
}

/// Whether some box of `boxes` covers the cell `(x, y, z)`.
pub open spec fn covered(boxes: Seq<BlockBox>, x: int, y: int, z: int) -> bool {
    exists|k: int| 0 <= k < boxes.len() && in_box(#[trigger] boxes[k], x, y, z)
}

/// A growth probe: the cell holds material `mat` and no earlier box
/// has claimed it.
pub open spec fn cell_free_match(
    blocks: Seq<Block>,
    tested: Seq<bool>,
    mat: BlockMaterial,
    x: int,
    y: int,
    z: int,
) -> bool {
    &&& !tested[pos_index(x, y, z)]
    &&& blocks[pos_index(x, y, z)].material == mat
}

/// End of the +x run from column `x`: the last column before the
/// first probe failure (or the chunk edge).
pub open spec fn run_end_x(
    blocks: Seq<Block>,
    tested: Seq<bool>,
    mat: BlockMaterial,
    y: int,
    z: int,
    x: int,
) -> int
    decreases 15 - x,
{
    if x >= 15 {
        15
    } else if cell_free_match(blocks, tested, mat, x + 1, y, z) {
        run_end_x(blocks, tested, mat, y, z, x + 1)
    } else {
        x
    }
}

/// A whole row `[sx, ex]` at `(y, z)` passes the growth probe.
pub open spec fn row_matches(
    blocks: Seq<Block>,
    tested: Seq<bool>,
    mat: BlockMaterial,
    sx: int,
    ex: int,
    y: int,
    z: int,
) -> bool {
    forall|x: int| sx <= x <= ex ==> cell_free_match(blocks, tested, mat, x, y, z)
}

/// End of the +y run from row `y`: rows grow only while the entire
/// `[sx, ex]` row at the next y passes the probe.
pub open spec fn run_end_y(
    blocks: Seq<Block>,
    tested: Seq<bool>,
    mat: BlockMaterial,
    sx: int,
    ex: int,
    z: int,
    y: int,
) -> int
    decreases 15 - y,
{
    if y >= 15 {
        15
    } else if row_matches(blocks, tested, mat, sx, ex, y + 1, z) {
        run_end_y(blocks, tested, mat, sx, ex, z, y + 1)
    } else {
        y
    }
}

/// A whole rectangle `[sx, ex] x [sy, ey]` at layer `z` passes the
/// growth probe.
pub open spec fn rect_matches(
    blocks: Seq<Block>,
    tested: Seq<bool>,
    mat: BlockMaterial,
    sx: int,
    ex: int,
    sy: int,
    ey: int,
    z: int,
) -> bool {
    forall|x: int, y: int|
        sx <= x <= ex && sy <= y <= ey ==> cell_free_match(blocks, tested, mat, x, y, z)
}

/// End of the +z run from layer `z`: layers grow only while the
/// entire `[sx, ex] x [sy, ey]` rectangle at the next z passes.
pub open spec fn run_end_z(
    blocks: Seq<Block>,
    tested: Seq<bool>,
    mat: BlockMaterial,
    sx: int,
    ex: int,
    sy: int,
    ey: int,
    z: int,
) -> int
    decreases 15 - z,
{
    if z >= 15 {
        15
    } else if rect_matches(blocks, tested, mat, sx, ex, sy, ey, z + 1) {
        run_end_z(blocks, tested, mat, sx, ex, sy, ey, z + 1)
    } else {
        z
    }
}

/// The box grown greedily from start cell `(x, y, z)`: +x first, then
/// +y, then +z.
pub open spec fn box_of(blocks: Seq<Block>, tested: Seq<bool>, x: int, y: int, z: int) -> BlockBox {
    let mat = blocks[pos_index(x, y, z)].material;
    let ex = run_end_x(blocks, tested, mat, y, z, x);
    let ey = run_end_y(blocks, tested, mat, x, ex, z, y);
    let ez = run_end_z(blocks, tested, mat, x, ex, y, ey, z);
    BlockBox {
        min_x: x as u8,
        min_y: y as u8,
        min_z: z as u8,
        max_x: ex as u8,
        max_y: ey as u8,
        max_z: ez as u8,
    }
}

/// Mark every cell of box `b` tested.
pub open spec fn mark_box(tested: Seq<bool>, b: BlockBox) -> Seq<bool> {
    Seq::new(4096, |i: int| tested[i] || in_box(b, index_x(i), index_y(i), index_z(i)))
}

/// The boxes emitted by the scan from flat index `n` on, given which
/// cells earlier boxes have already claimed.
pub open spec fn collider_rec(blocks: Seq<Block>, tested: Seq<bool>, n: int) -> Seq<BlockBox>
    decreases 4096 - n,
{
    if n < 0 || n >= 4096 {
        Seq::empty()
    } else if tested[n] {
        collider_rec(blocks, tested, n + 1)
    } else if blocks[n].is_empty() {
        collider_rec(blocks, tested.update(n, true), n + 1)
    } else {
        let b = box_of(blocks, tested, index_x(n), index_y(n), index_z(n));
        seq![b] + collider_rec(blocks, mark_box(tested, b), n + 1)
    }
}

/// All boxes the whole chunk emits, in scan order of their start
/// cells.
pub open spec fn chunk_boxes(blocks: Seq<Block>) -> Seq<BlockBox> {
    collider_rec(blocks, Seq::new(4096, |i: int| false), 0)
}


/// Probe one cell: untested and holding material `mat`.
fn probe(chunk: &Chunk, tested: &Vec<bool>, mat: BlockMaterial, x: u8, y: u8, z: u8) -> (r: bool)
    requires
        chunk.wf(),
        tested@.len() == 4096,
        x < 16,
        y < 16,
        z < 16,
    ensures
        r == cell_free_match(chunk.contents(), tested@, mat, x as int, y as int, z as int),
{
    let i = chunk.pos_to_index(x, y, z);
    !tested[i] && chunk.get(x, y, z).material == mat
}

/// Grow the +x run from `sx` at `(sy, sz)`.
fn grow_x(chunk: &Chunk, tested: &Vec<bool>, mat: BlockMaterial, sx: u8, sy: u8, sz: u8) -> (e: u8)
    requires
        chunk.wf(),
        tested@.len() == 4096,
        sx < 16,
        sy < 16,
        sz < 16,
    ensures
        sx <= e < 16,
        e == run_end_x(chunk.contents(), tested@, mat, sy as int, sz as int, sx as int),
{
    let mut e = sx;
    while e < 15
        invariant
            chunk.wf(),
            tested@.len() == 4096,
            sx <= e < 16,
            sy < 16,
            sz < 16,
            run_end_x(chunk.contents(), tested@, mat, sy as int, sz as int, sx as int)
                == run_end_x(chunk.contents(), tested@, mat, sy as int, sz as int, e as int),
        decreases 15 - e,
    {
        if !probe(chunk, tested, mat, e + 1, sy, sz) {
            return e;
        }
        e += 1;
    }
    e
}

/// Whether the whole row `[sx, ex]` at `(y, z)` passes the probe.
fn row_ok(chunk: &Chunk, tested: &Vec<bool>, mat: BlockMaterial, sx: u8, ex: u8, y: u8, z: u8) -> (r: bool)
    requires
        chunk.wf(),
        tested@.len() == 4096,
        sx <= ex < 16,
        y < 16,
        z < 16,
    ensures
        r == row_matches(chunk.contents(), tested@, mat, sx as int, ex as int, y as int, z as int),
{
    let mut x = sx;
    while x <= ex
        invariant
            chunk.wf(),
            tested@.len() == 4096,
            sx <= x <= ex + 1,
            ex < 16,
            y < 16,
            z < 16,
            forall|c: int| sx <= c < x ==> cell_free_match(chunk.contents(), tested@, mat, c, y as int, z as int),
        decreases ex + 1 - x,
    {
        if !probe(chunk, tested, mat, x, y, z) {
            return false;
        }
        x += 1;
    }
    true
}

/// Grow the +y run from `sy`, a full `[sx, ex]` row at a time.
fn grow_y(chunk: &Chunk, tested: &Vec<bool>, mat: BlockMaterial, sx: u8, ex: u8, sy: u8, sz: u8) -> (e: u8)
    requires
        chunk.wf(),
        tested@.len() == 4096,
        sx <= ex < 16,
        sy < 16,
        sz < 16,
    ensures
        sy <= e < 16,
        e == run_end_y(chunk.contents(), tested@, mat, sx as int, ex as int, sz as int, sy as int),
{
    let mut e = sy;
    while e < 15
        invariant
            chunk.wf(),
            tested@.len() == 4096,
            sx <= ex < 16,
            sy <= e < 16,
            sz < 16,
            run_end_y(chunk.contents(), tested@, mat, sx as int, ex as int, sz as int, sy as int)
                == run_end_y(chunk.contents(), tested@, mat, sx as int, ex as int, sz as int, e as int),
        decreases 15 - e,
    {
        if !row_ok(chunk, tested, mat, sx, ex, e + 1, sz) {
            return e;
        }
        e += 1;
    }
    e
}

/// Whether the whole rectangle `[sx, ex] x [sy, ey]` at layer `z`
/// passes the probe.
fn rect_ok(
    chunk: &Chunk,
    tested: &Vec<bool>,
    mat: BlockMaterial,
    sx: u8,
    ex: u8,
    sy: u8,
    ey: u8,
    z: u8,
) -> (r: bool)
    requires
        chunk.wf(),
        tested@.len() == 4096,
        sx <= ex < 16,
        sy <= ey < 16,
        z < 16,
    ensures
        r == rect_matches(chunk.contents(), tested@, mat, sx as int, ex as int, sy as int, ey as int, z as int),
{
    let mut y = sy;
    while y <= ey
        invariant
            chunk.wf(),
            tested@.len() == 4096,
            sx <= ex < 16,
            sy <= y <= ey + 1,
            ey < 16,
            z < 16,
            forall|cx: int, cy: int|
                sx <= cx <= ex && sy <= cy < y
                    ==> cell_free_match(chunk.contents(), tested@, mat, cx, cy, z as int),
        decreases ey + 1 - y,
    {
        if !row_ok(chunk, tested, mat, sx, ex, y, z) {
            return false;
        }
        y += 1;
    }
    true
}

/// Grow the +z run from `sz`, a full rectangle at a time.
fn grow_z(
    chunk: &Chunk,
    tested: &Vec<bool>,
    mat: BlockMaterial,
    sx: u8,
    ex: u8,
    sy: u8,
    ey: u8,
    sz: u8,
) -> (e: u8)
    requires
        chunk.wf(),
        tested@.len() == 4096,
        sx <= ex < 16,
        sy <= ey < 16,
        sz < 16,
    ensures
        sz <= e < 16,
        e == run_end_z(chunk.contents(), tested@, mat, sx as int, ex as int, sy as int, ey as int, sz as int),
{
    let mut e = sz;
    while e < 15
        invariant
            chunk.wf(),
            tested@.len() == 4096,
            sx <= ex < 16,
            sy <= ey < 16,
            sz <= e < 16,
            run_end_z(chunk.contents(), tested@, mat, sx as int, ex as int, sy as int, ey as int, sz as int)
                == run_end_z(chunk.contents(), tested@, mat, sx as int, ex as int, sy as int, ey as int, e as int),
        decreases 15 - e,
    {
        if !rect_ok(chunk, tested, mat, sx, ex, sy, ey, e + 1) {
            return e;
        }
        e += 1;
    }
    e
}


/// Mark every cell of `b` tested, leaving all other cells alone.
fn mark_box_cells(tested: &mut Vec<bool>, b: BlockBox)
    requires
        old(tested)@.len() == 4096,
    ensures
        final(tested)@ == mark_box(old(tested)@, b),
{
    let mut i: usize = 0;
    while i < 4096
        invariant
            tested@.len() == 4096,
            i <= 4096,
            forall|j: int|
                0 <= j < i ==> tested@[j] == (old(tested)@[j] || in_box(b, index_x(j), index_y(j), index_z(j))),
            forall|j: int| i <= j < 4096 ==> tested@[j] == old(tested)@[j],
        decreases 4096 - i,
    {
        let x = i % 16;
        let y = (i / 16) % 16;
        let z = i / 256;
        let inside = b.min_x as usize <= x && x <= b.max_x as usize
            && b.min_y as usize <= y && y <= b.max_y as usize
            && b.min_z as usize <= z && z <= b.max_z as usize;
        if inside {
            tested.set(i, true);
        }
        i += 1;
    }
    proof {
        assert(tested@ =~= mark_box(old(tested)@, b));
    }
}

/// Handle one cell of the outer scan: skip it if already claimed,
/// mark it if empty, otherwise grow a box from it, emit the box and
/// claim its cells. Advances the scan state from flat index `n` to
/// `n + 1`.
#[verifier::spinoff_prover]
fn scan_cell(
    chunk: &Chunk,
    tested: &mut Vec<bool>,
    boxes: &mut Vec<BlockBox>,
    c_x: u8,
    c_y: u8,
    c_z: u8,
)
    requires
        chunk.wf(),
        c_x < 16,
        c_y < 16,
        c_z < 16,
        old(tested)@.len() == 4096,
    ensures
        final(tested)@.len() == 4096,
        old(boxes)@ + collider_rec(chunk.contents(), old(tested)@, pos_index(c_x as int, c_y as int, c_z as int))
            == final(boxes)@ + collider_rec(chunk.contents(), final(tested)@, pos_index(c_x as int, c_y as int, c_z as int) + 1),
{
    let ghost blocks = chunk.contents();
    let ghost x = c_x as int;
    let ghost y = c_y as int;
    let ghost z = c_z as int;
    let ghost n: int = pos_index(x, y, z);
    proof {
        lemma_index_bijection();
        assert(index_x(n) == x && index_y(n) == y && index_z(n) == z);
    }

    let start_index = chunk.pos_to_index(c_x, c_y, c_z);
    if tested[start_index] {
        proof {
            assert(collider_rec(blocks, tested@, n) == collider_rec(blocks, tested@, n + 1));
        }
        return;
    }

    let block = chunk.get(c_x, c_y, c_z);
    if block.material == BlockMaterial::Empty {
        tested.set(start_index, true);
        proof {
            assert(tested@ == old(tested)@.update(n, true));
            assert(collider_rec(blocks, old(tested)@, n)
                == collider_rec(blocks, tested@, n + 1));
        }
        return;
    }

    let mat = block.material;
    let end_x = grow_x(chunk, tested, mat, c_x, c_y, c_z);
    let end_y = grow_y(chunk, tested, mat, c_x, end_x, c_y, c_z);
    let end_z = grow_z(chunk, tested, mat, c_x, end_x, c_y, end_y, c_z);

    let b = BlockBox {
        min_x: c_x,
        min_y: c_y,
        min_z: c_z,
        max_x: end_x,
        max_y: end_y,
        max_z: end_z,
    };
    proof {
        assert(b == box_of(blocks, tested@, x, y, z));
        assert(collider_rec(blocks, tested@, n)
            == seq![b] + collider_rec(blocks, mark_box(tested@, b), n + 1));
    }
    let ghost tested_before = tested@;
    let ghost boxes_before = boxes@;
    boxes.push(b);
    mark_box_cells(tested, b);
    proof {
        assert(boxes@ =~= boxes_before.push(b));
        assert(boxes_before + collider_rec(blocks, tested_before, n)
            =~= boxes@ + collider_rec(blocks, tested@, n + 1));
    }
}

/// Generate the compound collider of one chunk by greedy run merging.
///
/// The result is a pure function of the chunk contents: the box list
/// equals the spec-level greedy scan, so regenerating an unchanged
/// chunk reproduces the identical collider.
pub fn generate_collider_for_chunk(chunk: &Chunk) -> (boxes: Vec<BlockBox>)
    requires
        chunk.wf(),
    ensures
        boxes@ == chunk_boxes(chunk.contents()),
{
    let mut collider_data: Vec<BlockBox> = Vec::new();
    let mut tested: Vec<bool> = Vec::new();
    let mut i: usize = 0;
    while i < 4096
        invariant
            i <= 4096,
            tested@.len() == i,
            forall|j: int| 0 <= j < i ==> !tested@[j],
        decreases 4096 - i,
    {
        tested.push(false);
        i += 1;
    }
    proof {
        assert(tested@ =~= Seq::new(4096, |j: int| false));
        assert(collider_data@ + collider_rec(chunk.contents(), tested@, 0)
            =~= chunk_boxes(chunk.contents()));
    }

    let mut start_z: u8 = 0;
    while start_z < 16
        invariant
            chunk.wf(),
            start_z <= 16,
            tested@.len() == 4096,
            chunk_boxes(chunk.contents())
                == collider_data@ + collider_rec(chunk.contents(), tested@, 256 * start_z as int),
        decreases 16 - start_z,
    {
        let mut start_y: u8 = 0;
        while start_y < 16
            invariant
                chunk.wf(),
                start_z < 16,
                start_y <= 16,
                tested@.len() == 4096,
                chunk_boxes(chunk.contents())
                    == collider_data@
                    + collider_rec(chunk.contents(), tested@, 256 * start_z as int + 16 * start_y as int),
            decreases 16 - start_y,
        {
            let mut start_x: u8 = 0;
            while start_x < 16
                invariant
                    chunk.wf(),
                    start_z < 16,
                    start_y < 16,
                    start_x <= 16,
                    tested@.len() == 4096,
                    chunk_boxes(chunk.contents())
                        == collider_data@
                        + collider_rec(
                            chunk.contents(),
                            tested@,
                            256 * start_z as int + 16 * start_y as int + start_x as int,
                        ),
                decreases 16 - start_x,
            {
                scan_cell(chunk, &mut tested, &mut collider_data, start_x, start_y, start_z);
                start_x += 1;
            }
            start_y += 1;
        }
        start_z += 1;
    }

    proof {
        assert(collider_rec(chunk.contents(), tested@, 4096) =~= Seq::<BlockBox>::empty());
        assert(collider_data@ =~= collider_data@ + collider_rec(chunk.contents(), tested@, 4096));
    }
    collider_data
}


/// Every column the +x run passes over matches the probe.
proof fn lemma_run_x_cells(blocks: Seq<Block>, tested: Seq<bool>, mat: BlockMaterial, y: int, z: int, x: int)
    requires
        0 <= x <= 15,
    ensures
        x <= run_end_x(blocks, tested, mat, y, z, x) <= 15,
        forall|c: int|
            x < c <= run_end_x(blocks, tested, mat, y, z, x)
                ==> cell_free_match(blocks, tested, mat, c, y, z),
    decreases 15 - x,
{
    if x < 15 && cell_free_match(blocks, tested, mat, x + 1, y, z) {
        lemma_run_x_cells(blocks, tested, mat, y, z, x + 1);
    }
}

/// Every row the +y run passes over matches the probe in full.
proof fn lemma_run_y_rows(
    blocks: Seq<Block>,
    tested: Seq<bool>,
    mat: BlockMaterial,
    sx: int,
    ex: int,
    z: int,
    y: int,
)
    requires
        0 <= y <= 15,
    ensures
        y <= run_end_y(blocks, tested, mat, sx, ex, z, y) <= 15,
        forall|r: int|
            y < r <= run_end_y(blocks, tested, mat, sx, ex, z, y)
                ==> row_matches(blocks, tested, mat, sx, ex, r, z),
    decreases 15 - y,
{
    if y < 15 && row_matches(blocks, tested, mat, sx, ex, y + 1, z) {
        lemma_run_y_rows(blocks, tested, mat, sx, ex, z, y + 1);
    }
}

/// Every layer the +z run passes over matches the probe in full.
proof fn lemma_run_z_rects(
    blocks: Seq<Block>,
    tested: Seq<bool>,
    mat: BlockMaterial,
    sx: int,
    ex: int,
    sy: int,
    ey: int,
    z: int,
)
    requires
        0 <= z <= 15,
    ensures
        z <= run_end_z(blocks, tested, mat, sx, ex, sy, ey, z) <= 15,
        forall|l: int|
            z < l <= run_end_z(blocks, tested, mat, sx, ex, sy, ey, z)
                ==> rect_matches(blocks, tested, mat, sx, ex, sy, ey, l),
    decreases 15 - z,
{
    if z < 15 && rect_matches(blocks, tested, mat, sx, ex, sy, ey, z + 1) {
        lemma_run_z_rects(blocks, tested, mat, sx, ex, sy, ey, z + 1);
    }
}

/// The box grown from an unclaimed solid start cell is well formed,
/// starts at that cell, and consists entirely of unclaimed cells of
/// the start material, none of which precedes the start in scan
/// order.
proof fn lemma_box_of_cells(blocks: Seq<Block>, tested: Seq<bool>, x: int, y: int, z: int)
    requires
        crate::chunk::valid_coords(x, y, z),
        !tested[pos_index(x, y, z)],
    ensures
        box_wf(box_of(blocks, tested, x, y, z)),
        box_of(blocks, tested, x, y, z).min_x == x,
        box_of(blocks, tested, x, y, z).min_y == y,
        box_of(blocks, tested, x, y, z).min_z == z,
        in_box(box_of(blocks, tested, x, y, z), x, y, z),
        forall|cx: int, cy: int, cz: int|
            #[trigger] in_box(box_of(blocks, tested, x, y, z), cx, cy, cz)
                ==> crate::chunk::valid_coords(cx, cy, cz)
                    && cell_free_match(
                        blocks,
                        tested,
                        blocks[pos_index(x, y, z)].material,
                        cx,
                        cy,
                        cz,
                    )
                    && pos_index(cx, cy, cz) >= pos_index(x, y, z),
{
    let b = box_of(blocks, tested, x, y, z);
    let mat = blocks[pos_index(x, y, z)].material;
    let ex = run_end_x(blocks, tested, mat, y, z, x);
    let ey = run_end_y(blocks, tested, mat, x, ex, z, y);
    let ez = run_end_z(blocks, tested, mat, x, ex, y, ey, z);
    lemma_run_x_cells(blocks, tested, mat, y, z, x);
    lemma_run_y_rows(blocks, tested, mat, x, ex, z, y);
    lemma_run_z_rects(blocks, tested, mat, x, ex, y, ey, z);
    assert forall|cx: int, cy: int, cz: int|
        #[trigger] in_box(box_of(blocks, tested, x, y, z), cx, cy, cz) implies
        crate::chunk::valid_coords(cx, cy, cz)
            && cell_free_match(blocks, tested, mat, cx, cy, cz)
            && pos_index(cx, cy, cz) >= pos_index(x, y, z) by {
        assert(in_box(b, cx, cy, cz));
        if cz == z {
            if cy == y {
                if cx == x {
                    assert(cell_free_match(blocks, tested, mat, cx, cy, cz));
                } else {
                    assert(x < cx <= ex);
                }
            } else {
                assert(y < cy <= ey);
                assert(row_matches(blocks, tested, mat, x, ex, cy, z));
            }
        } else {
            assert(z < cz <= ez);
            assert(rect_matches(blocks, tested, mat, x, ex, y, ey, cz));
        }
    }
}

/// The boxes emitted from scan position `n` on, given that every
/// earlier cell is already claimed, are well formed, pairwise
/// disjoint, and cover exactly the solid unclaimed cells at or after
/// `n`.
proof fn lemma_collider_rec_partition(blocks: Seq<Block>, tested: Seq<bool>, n: int)
    requires
        blocks.len() == 4096,
        tested.len() == 4096,
        0 <= n <= 4096,
        forall|i: int| 0 <= i < n ==> tested[i],
    ensures
        ({
            let boxes = collider_rec(blocks, tested, n);
            &&& forall|k: int| 0 <= k < boxes.len() ==> box_wf(#[trigger] boxes[k])
            &&& forall|x: int, y: int, z: int|
                crate::chunk::valid_coords(x, y, z) ==> (covered(boxes, x, y, z) <==> {
                    &&& pos_index(x, y, z) >= n
                    &&& !tested[pos_index(x, y, z)]
                    &&& !blocks[pos_index(x, y, z)].is_empty()
                })
            &&& forall|k1: int, k2: int, x: int, y: int, z: int|
                0 <= k1 < k2 < boxes.len() ==> !(#[trigger] in_box(boxes[k1], x, y, z)
                    && #[trigger] in_box(boxes[k2], x, y, z))
        }),
    decreases 4096 - n,
{
    lemma_index_bijection();
    let boxes = collider_rec(blocks, tested, n);
    if n == 4096 {
        assert forall|x: int, y: int, z: int| crate::chunk::valid_coords(x, y, z)
            implies !covered(boxes, x, y, z) && pos_index(x, y, z) < 4096 by {
        }
    } else if tested[n] {
        lemma_collider_rec_partition(blocks, tested, n + 1);
        assert(boxes == collider_rec(blocks, tested, n + 1));
    } else if blocks[n].is_empty() {
        let tested2 = tested.update(n, true);
        lemma_collider_rec_partition(blocks, tested2, n + 1);
        assert(boxes == collider_rec(blocks, tested2, n + 1));
        assert forall|x: int, y: int, z: int| crate::chunk::valid_coords(x, y, z)
            implies (covered(boxes, x, y, z) <==> {
                &&& pos_index(x, y, z) >= n
                &&& !tested[pos_index(x, y, z)]
                &&& !blocks[pos_index(x, y, z)].is_empty()
            }) by {
            let i = pos_index(x, y, z);
            if i == n {
                assert(blocks[i].is_empty());
            }
        }
    } else {
        let x = index_x(n);
        let y = index_y(n);
        let z = index_z(n);
        let b = box_of(blocks, tested, x, y, z);
        let mat = blocks[pos_index(x, y, z)].material;
        let tested2 = mark_box(tested, b);
        lemma_box_of_cells(blocks, tested, x, y, z);
        assert(pos_index(x, y, z) == n);
        assert(forall|i: int| 0 <= i < n + 1 ==> tested2[i]);
        lemma_collider_rec_partition(blocks, tested2, n + 1);
        let rest = collider_rec(blocks, tested2, n + 1);
        assert(boxes == seq![b] + rest);
        assert(boxes[0] == b);
        assert(forall|k: int| 1 <= k < boxes.len() ==> boxes[k] == rest[k - 1]);

        // Coverage of the combined list splits into the head box and
        // the rest.
        assert forall|cx: int, cy: int, cz: int| crate::chunk::valid_coords(cx, cy, cz)
            implies (covered(boxes, cx, cy, cz) <==> (in_box(b, cx, cy, cz) || covered(
                rest,
                cx,
                cy,
                cz,
            ))) by {
            if covered(boxes, cx, cy, cz) {
                let k = choose|k: int| 0 <= k < boxes.len() && in_box(#[trigger] boxes[k], cx, cy, cz);
                if k == 0 {
                    assert(in_box(b, cx, cy, cz));
                } else {
                    assert(in_box(rest[k - 1], cx, cy, cz));
                    assert(covered(rest, cx, cy, cz));
                }
            }
            if in_box(b, cx, cy, cz) {
                assert(in_box(boxes[0], cx, cy, cz));
                assert(covered(boxes, cx, cy, cz));
            }
            if covered(rest, cx, cy, cz) {
                let k = choose|k: int| 0 <= k < rest.len() && in_box(#[trigger] rest[k], cx, cy, cz);
                assert(in_box(boxes[k + 1], cx, cy, cz));
                assert(covered(boxes, cx, cy, cz));
            }
        }

        assert forall|cx: int, cy: int, cz: int| crate::chunk::valid_coords(cx, cy, cz)
            implies (covered(boxes, cx, cy, cz) <==> {
                &&& pos_index(cx, cy, cz) >= n
                &&& !tested[pos_index(cx, cy, cz)]
                &&& !blocks[pos_index(cx, cy, cz)].is_empty()
            }) by {
            let i = pos_index(cx, cy, cz);
            if in_box(b, cx, cy, cz) {
                assert(cell_free_match(blocks, tested, mat, cx, cy, cz));
                assert(!blocks[i].is_empty());
            }
            if covered(rest, cx, cy, cz) {
                assert(i >= n + 1 && !tested2[i] && !blocks[i].is_empty());
                assert(!tested[i]);
            }
            if i >= n && !tested[i] && !blocks[i].is_empty() && !in_box(b, cx, cy, cz) {
                assert(tested2[i] == (tested[i] || in_box(b, index_x(i), index_y(i), index_z(i))));
                assert(index_x(i) == cx && index_y(i) == cy && index_z(i) == cz);
                assert(!tested2[i]);
                if i == n {
                    assert(cx == x && cy == y && cz == z);
                    assert(in_box(b, cx, cy, cz));
                    assert(false);
                }
                assert(covered(rest, cx, cy, cz));
            }
        }

        // The head box is disjoint from every later box: later boxes
        // consist of cells unclaimed after the head box marked its
        // own.
        assert forall|k1: int, k2: int, cx: int, cy: int, cz: int|
            0 <= k1 < k2 < boxes.len() implies !(#[trigger] in_box(boxes[k1], cx, cy, cz)
                && #[trigger] in_box(boxes[k2], cx, cy, cz)) by {
            if in_box(boxes[k1], cx, cy, cz) && in_box(boxes[k2], cx, cy, cz) {
                assert(box_wf(boxes[k2]));
                assert(crate::chunk::valid_coords(cx, cy, cz));
                if k1 == 0 {
                    assert(in_box(rest[k2 - 1], cx, cy, cz));
                    assert(covered(rest, cx, cy, cz));
                    let i = pos_index(cx, cy, cz);
                    assert(!tested2[i]);
                    assert(index_x(i) == cx && index_y(i) == cy && index_z(i) == cz);
                    assert(!in_box(b, cx, cy, cz));
                    assert(false);
                } else {
                    assert(in_box(rest[k1 - 1], cx, cy, cz) && in_box(rest[k2 - 1], cx, cy, cz));
                    assert(false);
                }
            }
        }
    }
}

/// The emitted boxes partition the solid blocks: every solid block
/// lies in exactly one box and every empty block in none, each box is
/// inside the chunk with ordered bounds, and distinct boxes never
/// share a cell. Cell by cell, the boxes' volumes therefore add up to
/// exactly the solid block count.
pub proof fn lemma_collider_partition(blocks: Seq<Block>)
    requires
        blocks.len() == 4096,
    ensures
        forall|k: int|
            0 <= k < chunk_boxes(blocks).len() ==> box_wf(#[trigger] chunk_boxes(blocks)[k]),
        forall|x: int, y: int, z: int|
            crate::chunk::valid_coords(x, y, z) ==> (covered(chunk_boxes(blocks), x, y, z)
                <==> !blocks[pos_index(x, y, z)].is_empty()),
        forall|k1: int, k2: int, x: int, y: int, z: int|
            0 <= k1 < k2 < chunk_boxes(blocks).len() ==> !(#[trigger] in_box(
                chunk_boxes(blocks)[k1], x, y, z,
            ) && #[trigger] in_box(chunk_boxes(blocks)[k2], x, y, z)),
{
    lemma_index_bijection();
    lemma_collider_rec_partition(blocks, Seq::new(4096, |i: int| false), 0);
}


/// How many of the boxes contain the cell `(x, y, z)`. Summed over
/// all cells this is the sum of the boxes' volumes, since each box
/// contributes exactly its volume in cells.
pub open spec fn cell_multiplicity(boxes: Seq<BlockBox>, x: int, y: int, z: int) -> int
    decreases boxes.len(),
{
    if boxes.len() == 0 {
        0
    } else {
        (if in_box(boxes.first(), x, y, z) {
            1int
        } else {
            0int
        }) + cell_multiplicity(boxes.drop_first(), x, y, z)
    }
}

/// A cell has multiplicity zero exactly when no box covers it.
proof fn lemma_multiplicity_zero(boxes: Seq<BlockBox>, x: int, y: int, z: int)
    ensures
        cell_multiplicity(boxes, x, y, z) >= 0,
        cell_multiplicity(boxes, x, y, z) == 0 <==> !covered(boxes, x, y, z),
    decreases boxes.len(),
{
    if boxes.len() == 0 {
        assert(!covered(boxes, x, y, z));
    } else {
        let rest = boxes.drop_first();
        lemma_multiplicity_zero(rest, x, y, z);
        assert forall|k: int| 0 <= k < rest.len() implies rest[k] == boxes[k + 1] by {}
        if in_box(boxes.first(), x, y, z) {
            assert(in_box(boxes[0], x, y, z));
            assert(covered(boxes, x, y, z));
        } else if covered(rest, x, y, z) {
            let k = choose|k: int| 0 <= k < rest.len() && in_box(#[trigger] rest[k], x, y, z);
            assert(in_box(boxes[k + 1], x, y, z));
            assert(covered(boxes, x, y, z));
        } else {
            if covered(boxes, x, y, z) {
                let k = choose|k: int| 0 <= k < boxes.len() && in_box(#[trigger] boxes[k], x, y, z);
                if k == 0 {
                    assert(in_box(boxes.first(), x, y, z));
                } else {
                    assert(rest[k - 1] == boxes[k]);
                    assert(covered(rest, x, y, z));
                }
                assert(false);
            }
        }
    }
}

/// Pairwise disjoint boxes give every cell multiplicity at most one.
proof fn lemma_multiplicity_disjoint(boxes: Seq<BlockBox>, x: int, y: int, z: int)
    requires
        forall|k1: int, k2: int, cx: int, cy: int, cz: int|
            0 <= k1 < k2 < boxes.len() ==> !(#[trigger] in_box(boxes[k1], cx, cy, cz)
                && #[trigger] in_box(boxes[k2], cx, cy, cz)),
    ensures
        cell_multiplicity(boxes, x, y, z) <= 1,
    decreases boxes.len(),
{
    if boxes.len() > 0 {
        let rest = boxes.drop_first();
        assert forall|k1: int, k2: int, cx: int, cy: int, cz: int|
            0 <= k1 < k2 < rest.len() implies !(#[trigger] in_box(rest[k1], cx, cy, cz)
                && #[trigger] in_box(rest[k2], cx, cy, cz)) by {
            assert(rest[k1] == boxes[k1 + 1] && rest[k2] == boxes[k2 + 1]);
        }
        lemma_multiplicity_disjoint(rest, x, y, z);
        if in_box(boxes.first(), x, y, z) {
            lemma_multiplicity_zero(rest, x, y, z);
            if covered(rest, x, y, z) {
                let k = choose|k: int| 0 <= k < rest.len() && in_box(#[trigger] rest[k], x, y, z);
                assert(rest[k] == boxes[k + 1]);
                assert(in_box(boxes[0], x, y, z) && in_box(boxes[k + 1], x, y, z));
                assert(false);
            }
        }
    }
}

/// The boxes' volumes add up to exactly the solid block count, cell
/// by cell: every solid block is counted by exactly one box and every
/// empty block by none.
pub proof fn lemma_collider_volumes(blocks: Seq<Block>)
    requires
        blocks.len() == 4096,
    ensures
        forall|x: int, y: int, z: int|
            crate::chunk::valid_coords(x, y, z) ==> cell_multiplicity(chunk_boxes(blocks), x, y, z)
                == (if blocks[pos_index(x, y, z)].is_empty() {
                    0int
                } else {
                    1int
                }),
{
    lemma_collider_partition(blocks);
    assert forall|x: int, y: int, z: int| crate::chunk::valid_coords(x, y, z)
        implies cell_multiplicity(chunk_boxes(blocks), x, y, z) == (
        if blocks[pos_index(x, y, z)].is_empty() {
            0int
        } else {
            1int
        }) by {
        lemma_multiplicity_zero(chunk_boxes(blocks), x, y, z);
        lemma_multiplicity_disjoint(chunk_boxes(blocks), x, y, z);
    }
}


/// Sum of the volumes of the boxes.
pub open spec fn volumes_sum(boxes: Seq<BlockBox>) -> int
    decreases boxes.len(),
{
    if boxes.len() == 0 {
        0
    } else {
        boxes.first().volume() + volumes_sum(boxes.drop_first())
    }
}

/// Number of solid blocks among flat indices `[n, 4096)`.
pub open spec fn solid_count(blocks: Seq<Block>, n: int) -> int
    decreases 4096 - n,
{
    if n < 0 || n >= 4096 {
        0
    } else {
        (if blocks[n].is_empty() {
            0int
        } else {
            1int
        }) + solid_count(blocks, n + 1)
    }
}

/// Number of cells of box `b` among flat indices `[n, 4096)`.
spec fn box_cnt(b: BlockBox, n: int) -> int
    decreases 4096 - n,
{
    if n < 0 || n >= 4096 {
        0
    } else {
        (if in_box(b, index_x(n), index_y(n), index_z(n)) {
            1int
        } else {
            0int
        }) + box_cnt(b, n + 1)
    }
}

/// Sum of the cells' multiplicities among flat indices `[n, 4096)`.
spec fn mult_sum(boxes: Seq<BlockBox>, n: int) -> int
    decreases 4096 - n,
{
    if n < 0 || n >= 4096 {
        0
    } else {
        cell_multiplicity(boxes, index_x(n), index_y(n), index_z(n)) + mult_sum(boxes, n + 1)
    }
}

/// Splitting off the first box splits the multiplicity sum.
proof fn lemma_mult_sum_first(boxes: Seq<BlockBox>, n: int)
    requires
        boxes.len() > 0,
        0 <= n,
    ensures
        mult_sum(boxes, n) == box_cnt(boxes.first(), n) + mult_sum(boxes.drop_first(), n),
    decreases 4096 - n,
{
    if n < 4096 {
        lemma_mult_sum_first(boxes, n + 1);
    }
}

/// If box `b` decomposes cell for cell into the disjoint boxes `b1`
/// and `b2`, their cell counts add up.
proof fn lemma_box_cnt_split(b: BlockBox, b1: BlockBox, b2: BlockBox, n: int)
    requires
        0 <= n,
        forall|x: int, y: int, z: int|
            #[trigger] in_box(b, x, y, z) <==> (in_box(b1, x, y, z) || in_box(b2, x, y, z)),
        forall|x: int, y: int, z: int|
            !(#[trigger] in_box(b1, x, y, z) && #[trigger] in_box(b2, x, y, z)),
    ensures
        box_cnt(b, n) == box_cnt(b1, n) + box_cnt(b2, n),
    decreases 4096 - n,
{
    if n < 4096 {
        lemma_box_cnt_split(b, b1, b2, n + 1);
    }
}

/// A single-cell box is counted exactly once over the whole index
/// range (its own index).
proof fn lemma_box_cnt_unit(b: BlockBox, n: int)
    requires
        box_wf(b),
        b.min_x == b.max_x,
        b.min_y == b.max_y,
        b.min_z == b.max_z,
        0 <= n <= 4096,
    ensures
        box_cnt(b, n) == if pos_index(b.min_x as int, b.min_y as int, b.min_z as int) >= n {
            1int
        } else {
            0int
        },
    decreases 4096 - n,
{
    lemma_index_bijection();
    let n0 = pos_index(b.min_x as int, b.min_y as int, b.min_z as int);
    assert(0 <= n0 < 4096);
    if n < 4096 {
        lemma_box_cnt_unit(b, n + 1);
        if in_box(b, index_x(n), index_y(n), index_z(n)) {
            assert(index_x(n) == b.min_x as int && index_y(n) == b.min_y as int
                && index_z(n) == b.min_z as int);
            assert(pos_index(index_x(n), index_y(n), index_z(n)) == n);
            assert(n == n0);
        } else {
            if n == n0 {
                assert(index_x(n0) == b.min_x as int && index_y(n0) == b.min_y as int
                    && index_z(n0) == b.min_z as int);
                assert(false);
            }
        }
    }
}

/// A well-formed box is counted exactly its volume many times over
/// the whole index range: one count per cell.
proof fn lemma_box_cnt_volume(b: BlockBox)
    requires
        box_wf(b),
    ensures
        box_cnt(b, 0) == b.volume(),
    decreases b.max_z - b.min_z, b.max_y - b.min_y, b.max_x - b.min_x,
{
    if b.min_z < b.max_z {
        let b1 = BlockBox { max_z: b.min_z, ..b };
        let b2 = BlockBox { min_z: (b.min_z + 1) as u8, ..b };
        lemma_box_cnt_split(b, b1, b2, 0);
        lemma_box_cnt_volume(b1);
        lemma_box_cnt_volume(b2);
        let area = (b.max_x - b.min_x + 1) * (b.max_y - b.min_y + 1);
        assert(b.volume() == b1.volume() + b2.volume()) by (nonlinear_arith)
            requires
                b.volume() == area * (b.max_z - b.min_z + 1),
                b1.volume() == area * 1,
                b2.volume() == area * (b.max_z - b.min_z),
        ;
    } else if b.min_y < b.max_y {
        let b1 = BlockBox { max_y: b.min_y, ..b };
        let b2 = BlockBox { min_y: (b.min_y + 1) as u8, ..b };
        lemma_box_cnt_split(b, b1, b2, 0);
        lemma_box_cnt_volume(b1);
        lemma_box_cnt_volume(b2);
        let run = (b.max_x - b.min_x + 1) * (b.max_z - b.min_z + 1);
        assert(b.volume() == b1.volume() + b2.volume()) by (nonlinear_arith)
            requires
                b.volume() == (b.max_x - b.min_x + 1) * (b.max_y - b.min_y + 1) * (b.max_z - b.min_z + 1),
                b1.volume() == (b.max_x - b.min_x + 1) * 1 * (b.max_z - b.min_z + 1),
                b2.volume() == (b.max_x - b.min_x + 1) * (b.max_y - b.min_y) * (b.max_z - b.min_z + 1),
        ;
    } else if b.min_x < b.max_x {
        let b1 = BlockBox { max_x: b.min_x, ..b };
        let b2 = BlockBox { min_x: (b.min_x + 1) as u8, ..b };
        lemma_box_cnt_split(b, b1, b2, 0);
        lemma_box_cnt_volume(b1);
        lemma_box_cnt_volume(b2);
        assert(b.volume() == b1.volume() + b2.volume()) by (nonlinear_arith)
            requires
                b.volume() == (b.max_x - b.min_x + 1) * (b.max_y - b.min_y + 1) * (b.max_z - b.min_z + 1),
                b1.volume() == 1 * (b.max_y - b.min_y + 1) * (b.max_z - b.min_z + 1),
                b2.volume() == (b.max_x - b.min_x) * (b.max_y - b.min_y + 1) * (b.max_z - b.min_z + 1),
        ;
    } else {
        lemma_box_cnt_unit(b, 0);
        assert(b.volume() == 1);
    }
}

/// For well-formed boxes, summing volumes is the same as summing
/// per-cell multiplicities over the whole chunk.
proof fn lemma_volumes_sum_is_mult_sum(boxes: Seq<BlockBox>)
    requires
        forall|k: int| 0 <= k < boxes.len() ==> box_wf(#[trigger] boxes[k]),
    ensures
        volumes_sum(boxes) == mult_sum(boxes, 0),
    decreases boxes.len(),
{
    if boxes.len() == 0 {
        lemma_mult_sum_empty(boxes, 0);
    } else {
        let rest = boxes.drop_first();
        assert(forall|k: int| 0 <= k < rest.len() ==> box_wf(#[trigger] rest[k]));
        lemma_volumes_sum_is_mult_sum(rest);
        lemma_mult_sum_first(boxes, 0);
        lemma_box_cnt_volume(boxes.first());
    }
}

/// An empty box list contributes nothing anywhere.
proof fn lemma_mult_sum_empty(boxes: Seq<BlockBox>, n: int)
    requires
        boxes.len() == 0,
        0 <= n,
    ensures
        mult_sum(boxes, n) == 0,
    decreases 4096 - n,
{
    if n < 4096 {
        lemma_mult_sum_empty(boxes, n + 1);
    }
}

/// The multiplicity sum of the emitted boxes counts exactly the
/// solid blocks.
proof fn lemma_mult_sum_is_solid_count(blocks: Seq<Block>, n: int)
    requires
        blocks.len() == 4096,
        0 <= n <= 4096,
    ensures
        mult_sum(chunk_boxes(blocks), n) == solid_count(blocks, n),
    decreases 4096 - n,
{
    if n < 4096 {
        lemma_mult_sum_is_solid_count(blocks, n + 1);
        lemma_index_bijection();
        lemma_collider_volumes(blocks);
        assert(crate::chunk::valid_coords(index_x(n), index_y(n), index_z(n)));
        assert(pos_index(index_x(n), index_y(n), index_z(n)) == n);
    }
}

/// The union of the emitted boxes' volumes equals the solid block
/// count: the boxes are disjoint and cover exactly the solid cells,
/// so summing their volumes counts each solid block once.
pub proof fn lemma_collider_volume_sum(blocks: Seq<Block>)
    requires
        blocks.len() == 4096,
    ensures
        volumes_sum(chunk_boxes(blocks)) == solid_count(blocks, 0),
{
    lemma_collider_partition(blocks);
    lemma_volumes_sum_is_mult_sum(chunk_boxes(blocks));
    lemma_mult_sum_is_solid_count(blocks, 0);
}

} // verus!
