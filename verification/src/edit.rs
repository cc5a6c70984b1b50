//! The edit pipeline: translating block placement/removal intents into
//! grid mutations, chunk creation and deletion, and coalesced
//! change notifications.
//!
//! A batch of intents is applied in order; deletions are deferred to
//! the end of the batch so a chunk is never destroyed while later
//! intents in the same batch may still address it by position. One
//! `ChunkChanged` is emitted per distinct dirtied chunk, and none for
//! deleted chunks.

use vstd::prelude::*;

use crate::block::{Block, BlockMaterial};
use crate::chunk::{all_empty, pos_index, Chunk};
use crate::grid::{ChunkPos, ChunkRecord, Grid, GridPos};

verus! {

/// An intent: place `block` (or erase, when `block` is empty) at a
/// global grid position.
#[derive(Clone, Copy, Debug, PartialEq, Eq, Structural)]
pub struct PlaceBlockRequest {
    pub pos: GridPos,
    pub block: Block,
}

/// Notification that a chunk's contents changed this batch and its
/// mesh and collider must be regenerated.
#[derive(Clone, Copy, Debug, PartialEq, Eq, Structural)]
pub struct ChunkChanged {
    pub chunk_pos: ChunkPos,
}

/// The spec-level state the pipeline threads through a batch: the
/// grid contents, the dirtied chunk positions in first-dirtied order,
/// and the chunks marked for end-of-batch deletion.
pub struct EditState {
    pub grid: Map<ChunkPos, ChunkRecord>,
    pub dirty: Seq<ChunkPos>,
    pub deleted: Seq<ChunkPos>,
}

/// The contents of a chunk with every block empty.
pub open spec fn empty_contents() -> Seq<Block> {
    Seq::new(4096, |i: int| Block { material: BlockMaterial::Empty })
}

/// Append `p` unless it is already listed.
pub open spec fn push_unique(s: Seq<ChunkPos>, p: ChunkPos) -> Seq<ChunkPos> {
    if s.contains(p) {
        s
    } else {
        s.push(p)
    }
}

/// Flat index of a request's local block coordinates.
pub open spec fn req_index(req: PlaceBlockRequest) -> int {
    pos_index(req.pos.block_pos.x as int, req.pos.block_pos.y as int, req.pos.block_pos.z as int)
}

/// One step of the pipeline state machine.
///
/// Removal in an absent chunk is a no-op. Removal that empties the
/// chunk marks it for deletion instead of dirtying it. Placement
/// creates an absent chunk (all empty, with a zero handle for the
/// caller to fill in) before setting the block, and dirties the chunk.
pub open spec fn apply_request(st: EditState, req: PlaceBlockRequest) -> EditState {
    let cp = req.pos.chunk_pos;
    if req.block.is_empty() {
        if st.grid.contains_key(cp) {
            let rec = st.grid[cp];
            let blocks = rec.1.update(req_index(req), Block { material: BlockMaterial::Empty });
            if all_empty(blocks) {
                EditState {
                    grid: st.grid.insert(cp, (rec.0, blocks)),
                    dirty: st.dirty,
                    deleted: push_unique(st.deleted, cp),
                }
            } else {
                EditState {
                    grid: st.grid.insert(cp, (rec.0, blocks)),
                    dirty: push_unique(st.dirty, cp),
                    deleted: st.deleted,
                }
            }
        } else {
            st
        }
    } else {
        if st.grid.contains_key(cp) {
            let rec = st.grid[cp];
            EditState {
                grid: st.grid.insert(cp, (rec.0, rec.1.update(req_index(req), req.block))),
                dirty: push_unique(st.dirty, cp),
                deleted: st.deleted,
            }
        } else {
            EditState {
                grid: st.grid.insert(cp, (0u64, empty_contents().update(req_index(req), req.block))),
                dirty: push_unique(st.dirty, cp),
                deleted: st.deleted,
            }
        }
    }
}

/// Apply a batch of requests in order.
pub open spec fn apply_requests(st: EditState, reqs: Seq<PlaceBlockRequest>) -> EditState
    decreases reqs.len(),
{
    if reqs.len() == 0 {
        st
    } else {
        apply_requests(apply_request(st, reqs.first()), reqs.drop_first())
    }
}

/// Remove the listed chunk positions from the grid, in order, from
/// entry `i` on. Removing an absent chunk is a no-op.
pub open spec fn remove_all(
    grid: Map<ChunkPos, ChunkRecord>,
    deleted: Seq<ChunkPos>,
    i: int,
) -> Map<ChunkPos, ChunkRecord>
    decreases deleted.len() - i,
{
    if i < 0 || i >= deleted.len() {
        grid
    } else {
        remove_all(grid.remove(deleted[i]), deleted, i + 1)
    }
}

/// The dirtied chunks that survive deletion: deleted chunks emit no
/// change notification.
pub open spec fn dirty_minus_deleted(dirty: Seq<ChunkPos>, deleted: Seq<ChunkPos>) -> Seq<ChunkPos>
    decreases dirty.len(),
{
    if dirty.len() == 0 {
        Seq::empty()
    } else {
        let rest = dirty_minus_deleted(dirty.drop_last(), deleted);
        if deleted.contains(dirty.last()) {
            rest
        } else {
            rest.push(dirty.last())
        }
    }
}

/// No chunk of the grid is all empty.
pub open spec fn no_empty_chunk(grid: Map<ChunkPos, ChunkRecord>) -> bool {
    forall|p: ChunkPos| #[trigger] grid.contains_key(p) ==> !all_empty(grid[p].1)
}

/// Every chunk of the grid holds exactly `CHUNK_SIZE^3` blocks.
pub open spec fn records_wf(grid: Map<ChunkPos, ChunkRecord>) -> bool {
    forall|p: ChunkPos| #[trigger] grid.contains_key(p) ==> grid[p].1.len() == 4096
}

/// The starting state of a batch over grid contents `g`.
pub open spec fn init_state(g: Map<ChunkPos, ChunkRecord>) -> EditState {
    EditState { grid: g, dirty: Seq::empty(), deleted: Seq::empty() }
}

/// Whether a vector of positions contains `p`.
fn vec_contains_pos(v: &Vec<ChunkPos>, p: ChunkPos) -> (r: bool)
    ensures
        r == v@.contains(p),
{
    let mut i: usize = 0;
    while i < v.len()
        invariant
            i <= v@.len(),
            forall|j: int| 0 <= j < i ==> v@[j] != p,
        decreases v@.len() - i,
    {
        if v[i] == p {
            return true;
        }
        i += 1;
    }
    false
}

/// Append `p` unless already listed.
fn push_unique_vec(v: &mut Vec<ChunkPos>, p: ChunkPos)
    ensures
        final(v)@ == push_unique(old(v)@, p),
{
    if !vec_contains_pos(v, p) {
        v.push(p);
    }
}

/// Apply one request to the grid and the batch bookkeeping.
fn apply_one(
    grid: &mut Grid,
    dirty: &mut Vec<ChunkPos>,
    deleted: &mut Vec<ChunkPos>,
    req: PlaceBlockRequest,
)
    requires
        old(grid).wf(),
        req.pos.wf(),
    ensures
        final(grid).wf(),
        ({
            let st = apply_request(
                EditState { grid: old(grid)@, dirty: old(dirty)@, deleted: old(deleted)@ },
                req,
            );
            &&& final(grid)@ == st.grid
            &&& final(dirty)@ == st.dirty
            &&& final(deleted)@ == st.deleted
        }),
{
    let cp = req.pos.chunk_pos;
    let ghost st0 = EditState { grid: grid@, dirty: dirty@, deleted: deleted@ };
    if req.block.material == BlockMaterial::Empty {
        match grid.take_chunk(cp) {
            Some(mut chunk) => {
                chunk.set_by_block_pos(req.pos.block_pos, Block { material: BlockMaterial::Empty });
                let was_emptied = chunk.is_all_empty();
                grid.set_chunk(cp, Some(chunk));
                proof {
                    assert(grid@ =~= st0.grid.insert(cp, (st0.grid[cp].0, st0.grid[cp].1.update(
                        req_index(req), Block { material: BlockMaterial::Empty }))));
                }
                if was_emptied {
                    push_unique_vec(deleted, cp);
                } else {
                    push_unique_vec(dirty, cp);
                }
            },
            None => {},
        }
    } else {
        match grid.take_chunk(cp) {
            Some(mut chunk) => {
                chunk.set_by_block_pos(req.pos.block_pos, req.block);
                grid.set_chunk(cp, Some(chunk));
                proof {
                    assert(grid@ =~= st0.grid.insert(cp, (st0.grid[cp].0, st0.grid[cp].1.update(
                        req_index(req), req.block))));
                }
                push_unique_vec(dirty, cp);
            },
            None => {
                let mut chunk = Chunk::new_empty(0);
                chunk.set_by_block_pos(req.pos.block_pos, req.block);
                grid.set_chunk(cp, Some(chunk));
                proof {
                    assert(grid@ =~= st0.grid.insert(cp, (0u64, empty_contents().update(
                        req_index(req), req.block))));
                }
                push_unique_vec(dirty, cp);
            },
        }
    }
}


/// Apply a whole batch of placement intents, then process the
/// deferred deletions, and return the coalesced change notifications
/// (one per distinct surviving dirtied chunk, in first-dirtied order)
/// together with the deleted chunk positions.
///
/// The whole effect is pinned to the spec-level state machine: the
/// final grid is the batch fold followed by the deferred removals,
/// and deleted chunks emit no notification.
pub fn place_blocks(grid: &mut Grid, requests: &Vec<PlaceBlockRequest>) -> (r: (
    Vec<ChunkChanged>,
    Vec<ChunkPos>,
))
    requires
        old(grid).wf(),
        forall|i: int| 0 <= i < requests@.len() ==> (#[trigger] requests@[i]).pos.wf(),
    ensures
        final(grid).wf(),
        ({
            let st = apply_requests(init_state(old(grid)@), requests@);
            let notified = dirty_minus_deleted(st.dirty, st.deleted);
            &&& final(grid)@ == remove_all(st.grid, st.deleted, 0)
            &&& r.1@ == st.deleted
            &&& r.0@.len() == notified.len()
            &&& forall|k: int|
                0 <= k < notified.len() ==> r.0@[k] == (ChunkChanged { chunk_pos: notified[k] })
        }),
        no_empty_chunk(old(grid)@) ==> no_empty_chunk(final(grid)@),
{
    let ghost st0 = init_state(grid@);
    let mut dirty: Vec<ChunkPos> = Vec::new();
    let mut deleted: Vec<ChunkPos> = Vec::new();
    proof {
        assert(requests@.skip(0) =~= requests@);
    }

    let mut i: usize = 0;
    while i < requests.len()
        invariant
            grid.wf(),
            i <= requests@.len(),
            forall|k: int| 0 <= k < requests@.len() ==> (#[trigger] requests@[k]).pos.wf(),
            apply_requests(st0, requests@) == apply_requests(
                EditState { grid: grid@, dirty: dirty@, deleted: deleted@ },
                requests@.skip(i as int),
            ),
        decreases requests@.len() - i,
    {
        let ghost st_before = EditState { grid: grid@, dirty: dirty@, deleted: deleted@ };
        proof {
            assert(requests@.skip(i as int).first() == requests@[i as int]);
            assert(requests@.skip(i as int).drop_first() =~= requests@.skip(i as int + 1));
        }
        apply_one(grid, &mut dirty, &mut deleted, requests[i]);
        proof {
            let st_after = EditState { grid: grid@, dirty: dirty@, deleted: deleted@ };
            assert(st_after == apply_request(st_before, requests@[i as int]));
            assert(apply_requests(st_before, requests@.skip(i as int))
                == apply_requests(st_after, requests@.skip(i as int + 1)));
        }
        i += 1;
    }
    proof {
        assert(requests@.skip(requests@.len() as int) =~= Seq::<PlaceBlockRequest>::empty());
    }
    let ghost st = apply_requests(st0, requests@);
    proof {
        assert(st == (EditState { grid: grid@, dirty: dirty@, deleted: deleted@ }));
    }

    let mut j: usize = 0;
    while j < deleted.len()
        invariant
            grid.wf(),
            j <= deleted@.len(),
            deleted@ == st.deleted,
            remove_all(st.grid, st.deleted, 0) == remove_all(grid@, deleted@, j as int),
        decreases deleted@.len() - j,
    {
        let ghost g_before = grid@;
        grid.set_chunk(deleted[j], None);
        proof {
            assert(remove_all(g_before, deleted@, j as int)
                == remove_all(g_before.remove(deleted@[j as int]), deleted@, j as int + 1));
        }
        j += 1;
    }

    let mut notifications: Vec<ChunkChanged> = Vec::new();
    let mut k: usize = 0;
    while k < dirty.len()
        invariant
            k <= dirty@.len(),
            dirty@ == st.dirty,
            deleted@ == st.deleted,
            ({
                let prefix = dirty_minus_deleted(dirty@.subrange(0, k as int), deleted@);
                &&& notifications@.len() == prefix.len()
                &&& forall|m: int|
                    0 <= m < prefix.len()
                        ==> notifications@[m] == (ChunkChanged { chunk_pos: prefix[m] })
            }),
        decreases dirty@.len() - k,
    {
        proof {
            assert(dirty@.subrange(0, k as int + 1).drop_last() =~= dirty@.subrange(0, k as int));
            assert(dirty@.subrange(0, k as int + 1).last() == dirty@[k as int]);
        }
        if !vec_contains_pos(&deleted, dirty[k]) {
            notifications.push(ChunkChanged { chunk_pos: dirty[k] });
        }
        k += 1;
    }
    proof {
        assert(dirty@.subrange(0, dirty@.len() as int) =~= dirty@);
        if no_empty_chunk(old(grid)@) {
            assert forall|p: ChunkPos| #[trigger] old(grid)@.contains_key(p)
                implies old(grid)@[p].1.len() == 4096 by {
                old(grid).lemma_wf_record(p);
            }
            lemma_requests_keep_invariant(st0, requests@);
            lemma_remove_all_membership(st.grid, st.deleted, 0);
        }
    }

    (notifications, deleted)
}

/// Membership of `push_unique`: everything already listed stays, and
/// `p` is listed afterwards.
proof fn lemma_push_unique_contains(s: Seq<ChunkPos>, p: ChunkPos)
    ensures
        forall|q: ChunkPos| #[trigger] push_unique(s, p).contains(q) <==> (s.contains(q) || q == p),
{
    if !s.contains(p) {
        assert(s.push(p)[s.len() as int] == p);
        assert forall|q: ChunkPos| s.contains(q) implies #[trigger] s.push(p).contains(q) by {
            let w = choose|w: int| 0 <= w < s.len() && s[w] == q;
            assert(s.push(p)[w] == q);
        }
        assert forall|q: ChunkPos| #[trigger] s.push(p).contains(q) && q != p implies s.contains(q) by {
            let w = choose|w: int| 0 <= w < s.push(p).len() && s.push(p)[w] == q;
            assert(s[w] == q);
        }
    }
}

/// One pipeline step keeps the batch invariant: chunk arrays stay
/// complete, nothing leaves the deletion list, and any all-empty
/// chunk is marked for deletion.
proof fn lemma_request_keeps_invariant(st: EditState, req: PlaceBlockRequest)
    requires
        req.pos.wf(),
        records_wf(st.grid),
        forall|p: ChunkPos|
            #[trigger] st.grid.contains_key(p) && all_empty(st.grid[p].1) ==> st.deleted.contains(p),
    ensures
        records_wf(apply_request(st, req).grid),
        forall|q: ChunkPos| st.deleted.contains(q) ==> #[trigger] apply_request(st, req).deleted.contains(q),
        forall|p: ChunkPos|
            #[trigger] apply_request(st, req).grid.contains_key(p) && all_empty(
                apply_request(st, req).grid[p].1,
            ) ==> apply_request(st, req).deleted.contains(p),
{
    let cp = req.pos.chunk_pos;
    let st2 = apply_request(st, req);
    let bi = req_index(req);
    assert(0 <= bi < 4096);
    lemma_push_unique_contains(st.deleted, cp);
    if req.block.is_empty() {
        if st.grid.contains_key(cp) {
            let blocks = st.grid[cp].1.update(bi, Block { material: BlockMaterial::Empty });
            assert(blocks.len() == 4096);
        }
    } else {
        if st.grid.contains_key(cp) {
            let blocks = st.grid[cp].1.update(bi, req.block);
            assert(blocks[bi] == req.block);
            assert(!all_empty(blocks));
        } else {
            let blocks = empty_contents().update(bi, req.block);
            assert(blocks[bi] == req.block);
            assert(!all_empty(blocks));
        }
    }
}

/// A whole batch keeps the invariant of `lemma_request_keeps_invariant`.
proof fn lemma_requests_keep_invariant(st: EditState, reqs: Seq<PlaceBlockRequest>)
    requires
        forall|i: int| 0 <= i < reqs.len() ==> (#[trigger] reqs[i]).pos.wf(),
        records_wf(st.grid),
        forall|p: ChunkPos|
            #[trigger] st.grid.contains_key(p) && all_empty(st.grid[p].1) ==> st.deleted.contains(p),
    ensures
        records_wf(apply_requests(st, reqs).grid),
        forall|p: ChunkPos|
            #[trigger] apply_requests(st, reqs).grid.contains_key(p) && all_empty(
                apply_requests(st, reqs).grid[p].1,
            ) ==> apply_requests(st, reqs).deleted.contains(p),
    decreases reqs.len(),
{
    if reqs.len() > 0 {
        lemma_request_keeps_invariant(st, reqs.first());
        assert(forall|i: int|
            0 <= i < reqs.drop_first().len() ==> (#[trigger] reqs.drop_first()[i]).pos.wf());
        lemma_requests_keep_invariant(apply_request(st, reqs.first()), reqs.drop_first());
    }
}

/// What survives the deferred removals: exactly the chunks that were
/// present and are not listed from entry `i` on, with their records
/// unchanged.
proof fn lemma_remove_all_membership(grid: Map<ChunkPos, ChunkRecord>, deleted: Seq<ChunkPos>, i: int)
    requires
        0 <= i,
    ensures
        forall|p: ChunkPos|
            #[trigger] remove_all(grid, deleted, i).contains_key(p) <==> (grid.contains_key(p)
                && !exists|j: int| i <= j < deleted.len() && deleted[j] == p),
        forall|p: ChunkPos|
            #[trigger] remove_all(grid, deleted, i).contains_key(p)
                ==> remove_all(grid, deleted, i)[p] == grid[p],
    decreases deleted.len() - i,
{
    if 0 <= i < deleted.len() {
        let inner = grid.remove(deleted[i]);
        lemma_remove_all_membership(inner, deleted, i + 1);
        assert forall|p: ChunkPos| #[trigger] remove_all(grid, deleted, i).contains_key(p)
            implies (grid.contains_key(p) && !exists|j: int|
                i <= j < deleted.len() && deleted[j] == p) by {
            assert(remove_all(inner, deleted, i + 1).contains_key(p));
            assert(inner.contains_key(p));
            assert(p != deleted[i]);
            assert forall|j: int| i <= j < deleted.len() implies deleted[j] != p by {
                if j > i {
                    assert(!(exists|w: int| i + 1 <= w < deleted.len() && deleted[w] == p));
                }
            }
        }
        assert forall|p: ChunkPos| grid.contains_key(p) && !(exists|j: int|
                i <= j < deleted.len() && deleted[j] == p)
            implies #[trigger] remove_all(grid, deleted, i).contains_key(p) by {
            assert(p != deleted[i]);
            assert(inner.contains_key(p));
            assert forall|w: int| i + 1 <= w < deleted.len() implies deleted[w] != p by {
            }
            assert(remove_all(inner, deleted, i + 1).contains_key(p));
        }
        assert forall|p: ChunkPos| #[trigger] remove_all(grid, deleted, i).contains_key(p)
            implies remove_all(grid, deleted, i)[p] == grid[p] by {
            assert(remove_all(inner, deleted, i + 1).contains_key(p));
            assert(remove_all(inner, deleted, i + 1)[p] == inner[p]);
            assert(p != deleted[i]);
            assert(inner[p] == grid[p]);
        }
    }
}

/// Placing a block and then immediately removing it at the same grid
/// position restores the grid: the chunk (if it pre-existed with an
/// empty cell there) returns to its prior contents, and a chunk
/// created solely for the placement is deleted outright.
pub proof fn lemma_place_remove_round_trip(g: Map<ChunkPos, ChunkRecord>, pos: GridPos, block: Block)
    requires
        !block.is_empty(),
        pos.wf(),
        no_empty_chunk(g),
        records_wf(g),
        g.contains_key(pos.chunk_pos) ==> g[pos.chunk_pos].1[pos_index(
            pos.block_pos.x as int,
            pos.block_pos.y as int,
            pos.block_pos.z as int,
        )].is_empty(),
    ensures
        ({
            let st = apply_requests(
                init_state(g),
                seq![
                    PlaceBlockRequest { pos, block },
                    PlaceBlockRequest { pos, block: Block { material: BlockMaterial::Empty } },
                ],
            );
            remove_all(st.grid, st.deleted, 0) == g
        }),
{
    let place = PlaceBlockRequest { pos, block };
    let remove = PlaceBlockRequest { pos, block: Block { material: BlockMaterial::Empty } };
    let reqs = seq![place, remove];
    let cp = pos.chunk_pos;
    let bi = req_index(place);
    assert(0 <= bi < 4096);

    assert(reqs.first() == place);
    assert(reqs.drop_first() =~= seq![remove]);
    assert(seq![remove].first() == remove);
    assert(seq![remove].drop_first() =~= Seq::<PlaceBlockRequest>::empty());

    let st1 = apply_request(init_state(g), place);
    let st2 = apply_request(st1, remove);
    assert(apply_requests(st2, Seq::<PlaceBlockRequest>::empty()) == st2);
    assert(apply_requests(st1, seq![remove]) == st2);
    assert(apply_requests(init_state(g), reqs) == apply_requests(st1, seq![remove]));

    if g.contains_key(cp) {
        let rec = g[cp];
        let placed = rec.1.update(bi, block);
        assert(st1.grid == g.insert(cp, (rec.0, placed)));
        assert(st1.deleted =~= Seq::<ChunkPos>::empty());
        let restored = placed.update(bi, Block { material: BlockMaterial::Empty });
        assert(restored =~= rec.1);
        assert(!all_empty(rec.1));
        assert(st2.grid == st1.grid.insert(cp, (rec.0, rec.1)));
        assert(st2.grid =~= g);
        assert(st2.deleted =~= Seq::<ChunkPos>::empty());
        assert(remove_all(st2.grid, st2.deleted, 0) == st2.grid);
    } else {
        let placed = empty_contents().update(bi, block);
        assert(st1.grid == g.insert(cp, (0u64, placed)));
        assert(st1.deleted =~= Seq::<ChunkPos>::empty());
        let restored = placed.update(bi, Block { material: BlockMaterial::Empty });
        assert(restored =~= empty_contents());
        assert(all_empty(restored));
        assert(st2.grid == st1.grid.insert(cp, (0u64, restored)));
        assert(st2.deleted =~= seq![cp]);
        assert(remove_all(st2.grid.remove(cp), st2.deleted, 1) == st2.grid.remove(cp));
        assert(remove_all(st2.grid, st2.deleted, 0) == st2.grid.remove(cp));
        assert(st2.grid.remove(cp) =~= g);
    }
}


/// Quantize one axis of a hit point to the block grid.
///
/// `p_milli` is the coordinate in thousandths of a world unit: the
/// raw float coordinate is multiplied by 1000 and rounded to the
/// nearest integer before it reaches the core, which smooths out
/// floating-point jitter when a hit lies exactly on a block face.
/// `snap_milli` is the snap resolution on the same scale. The result
/// is the block-grid index of the snapped cell,
/// `floor(p_milli / snap_milli)`.
pub fn snap_to_grid(p_milli: i64, snap_milli: i64) -> (r: i64)
    requires
        1 <= snap_milli <= 1_000_000_000,
        -1_000_000_000_000 <= p_milli <= 1_000_000_000_000,
    ensures
        r == p_milli as int / snap_milli as int,
{
    if p_milli >= 0 {
        let q = (p_milli as u64) / (snap_milli as u64);
        q as i64
    } else {
        let m = (-p_milli) as u64;
        let s = snap_milli as u64;
        let q = (m + s - 1) / s;
        proof {
            let qi = q as int;
            let si = s as int;
            let r0 = (m as int + si - 1) % si;
            assert(m as int == -(p_milli as int));
            assert(qi == (m as int + si - 1) / si);
            vstd::arithmetic::div_mod::lemma_fundamental_div_mod(m as int + si - 1, si);
            assert(m as int + si - 1 == si * qi + r0);
            assert(0 <= r0 < si);
            assert(p_milli as int == (-qi) * si + (si - 1 - r0)) by {
                assert((-qi) * si == -(si * qi)) by (nonlinear_arith);
            }
            vstd::arithmetic::div_mod::lemma_fundamental_div_mod_converse(
                p_milli as int,
                si,
                -qi,
                si - 1 - r0,
            );
        }
        -(q as i64)
    }
}

/// The local cell a face hit selects along one axis: the snapped
/// block index, pulled half a block inward along the face normal.
/// On the axis whose outward normal is +1 that is one cell below the
/// snapped index; on every other axis it is the snapped index itself.
pub fn selected_cell(k: i64, normal_sign: i8) -> (r: i64)
    requires
        -1 <= normal_sign <= 1,
        i64::MIN < k,
    ensures
        r == (if normal_sign == 1 { k - 1 } else { k as int }),
{
    if normal_sign == 1 {
        k - 1
    } else {
        k
    }
}

/// Resolve a face hit to the removal target: the block on the near
/// side of the hit face, inside the hit chunk. The per-axis selected
/// cells must land inside the chunk; callers pre-validate.
pub fn removal_target(
    chunk_pos: ChunkPos,
    kx: i64,
    ky: i64,
    kz: i64,
    nx: i8,
    ny: i8,
    nz: i8,
) -> (r: GridPos)
    requires
        -1 <= nx <= 1 && -1 <= ny <= 1 && -1 <= nz <= 1,
        i64::MIN < kx && i64::MIN < ky && i64::MIN < kz,
        0 <= (if nx == 1 { kx - 1 } else { kx as int }) < 16,
        0 <= (if ny == 1 { ky - 1 } else { ky as int }) < 16,
        0 <= (if nz == 1 { kz - 1 } else { kz as int }) < 16,
    ensures
        r.wf(),
        r.chunk_pos == chunk_pos,
        r.block_pos.x as int == (if nx == 1 { kx - 1 } else { kx as int }),
        r.block_pos.y as int == (if ny == 1 { ky - 1 } else { ky as int }),
        r.block_pos.z as int == (if nz == 1 { kz - 1 } else { kz as int }),
{
    let bx = selected_cell(kx, nx);
    let by = selected_cell(ky, ny);
    let bz = selected_cell(kz, nz);
    GridPos {
        chunk_pos,
        block_pos: crate::chunk::BlockPos { x: bx as u8, y: by as u8, z: bz as u8 },
    }
}

/// Resolve a face hit to the placement target: one block further
/// along the face normal than the removal target, carried across the
/// chunk boundary by wraparound addition.
pub fn placement_target(
    chunk_pos: ChunkPos,
    kx: i64,
    ky: i64,
    kz: i64,
    nx: i8,
    ny: i8,
    nz: i8,
) -> (r: GridPos)
    requires
        -1 <= nx <= 1 && -1 <= ny <= 1 && -1 <= nz <= 1,
        i64::MIN < kx && i64::MIN < ky && i64::MIN < kz,
        0 <= (if nx == 1 { kx - 1 } else { kx as int }) < 16,
        0 <= (if ny == 1 { ky - 1 } else { ky as int }) < 16,
        0 <= (if nz == 1 { kz - 1 } else { kz as int }) < 16,
        -524288 <= chunk_pos.x * 16 + (if nx == 1 { kx - 1 } else { kx as int }) + nx <= 524287,
        -524288 <= chunk_pos.y * 16 + (if ny == 1 { ky - 1 } else { ky as int }) + ny <= 524287,
        -524288 <= chunk_pos.z * 16 + (if nz == 1 { kz - 1 } else { kz as int }) + nz <= 524287,
    ensures
        r.wf(),
        crate::grid::axis_total(r.chunk_pos.x as int, r.block_pos.x as int)
            == chunk_pos.x * 16 + (if nx == 1 { kx - 1 } else { kx as int }) + nx,
        crate::grid::axis_total(r.chunk_pos.y as int, r.block_pos.y as int)
            == chunk_pos.y * 16 + (if ny == 1 { ky - 1 } else { ky as int }) + ny,
        crate::grid::axis_total(r.chunk_pos.z as int, r.block_pos.z as int)
            == chunk_pos.z * 16 + (if nz == 1 { kz - 1 } else { kz as int }) + nz,
{
    let selected = removal_target(chunk_pos, kx, ky, kz, nx, ny, nz);
    selected.add((nx as i16, ny as i16, nz as i16))
}

} // verus!
