use vstd::prelude::*;
use crate::blocks::block::BlockId;
use crate::constants::METACHUNKSIZE;
use crate::positions::{ChunkPos, GlobalBlockPos, MetaChunkPos};
use crate::world_gen::meta_chunk::{
    block_local_pos, chunk_count, chunk_index, law_retain_by_distance, lemma_chunk_params, spec_retain, MetaChunk,
    MetaChunkChunk,
};
use crate::constants::METACHUNK_GEN_RANGE;
use crate::utils::abs;
use rayon::prelude::ParallelSliceMut;
use std::cmp::Ordering;
use std::collections::HashSet;

verus! {

broadcast use vstd::std_specs::hash::group_hash_axioms;

/// `a` comes no later than `b`: by `x`, then by `z`.
pub open spec fn pos_le(a: MetaChunkPos, b: MetaChunkPos) -> bool {
    a.x < b.x || (a.x == b.x && a.z <= b.z)
}

/// The entries are sorted by position.
pub open spec fn sorted_by_pos(s: Seq<(MetaChunkPos, MetaChunk)>) -> bool {
    forall|i: int, j: int| 0 <= i < j < s.len() ==> pos_le(#[trigger] s[i].0, #[trigger] s[j].0)
}

/// Some entry lies at `pos`.
pub open spec fn holds_pos(s: Seq<(MetaChunkPos, MetaChunk)>, pos: MetaChunkPos) -> bool {
    exists|i: int| 0 <= i < s.len() && #[trigger] s[i].0 == pos
}

/// `i` is the first entry at `pos`.
pub open spec fn first_at(s: Seq<(MetaChunkPos, MetaChunk)>, pos: MetaChunkPos, i: int) -> bool {
    &&& 0 <= i < s.len()
    &&& s[i].0 == pos
    &&& forall|j: int| 0 <= j < i ==> #[trigger] s[j].0 != pos
}

/// The meta chunk of the first entry at `pos`, if there is one.
pub open spec fn meta_at(s: Seq<(MetaChunkPos, MetaChunk)>, pos: MetaChunkPos) -> Option<MetaChunk> {
    if holds_pos(s, pos) {
        Some(s[first_index(s, pos)].1)
    } else {
        None
    }
}

/// The index of the first entry at `pos`.
pub open spec fn first_index(s: Seq<(MetaChunkPos, MetaChunk)>, pos: MetaChunkPos) -> int {
    choose|i: int| first_at(s, pos, i)
}

/// Where some entry lies at `pos`, there is a first one.
pub proof fn lemma_first_at_exists(s: Seq<(MetaChunkPos, MetaChunk)>, pos: MetaChunkPos)
    requires
        holds_pos(s, pos),
    ensures
        exists|i: int| first_at(s, pos, i),
    decreases s.len(),
{
    let k = choose|k: int| 0 <= k < s.len() && #[trigger] s[k].0 == pos;
    let t = s.drop_last();
    if holds_pos(t, pos) {
        lemma_first_at_exists(t, pos);
        let i = choose|i: int| first_at(t, pos, i);
        assert forall|j: int| 0 <= j < i implies #[trigger] s[j].0 != pos by {
            assert(t[j] == s[j]);
        }
        assert(first_at(s, pos, i));
    } else {
        assert forall|j: int| 0 <= j < s.len() - 1 implies #[trigger] s[j].0 != pos by {
            assert(t[j] == s[j]);
        }
        assert(first_at(s, pos, k));
    }
}

/// A meta chunk that `SmallWorld::add_chunk` added is found at its position
/// afterwards.
pub proof fn lemma_added_is_found(
    before: Seq<(MetaChunkPos, MetaChunk)>,
    after: Seq<(MetaChunkPos, MetaChunk)>,
    pos: MetaChunkPos,
    chunk: MetaChunk,
)
    requires
        after.to_multiset() == before.to_multiset().insert((pos, chunk)),
    ensures
        holds_pos(after, pos),
        meta_at(after, pos) is Some,
{
    broadcast use vstd::multiset::group_multiset_axioms;
    after.to_multiset_ensures();
    assert(after.to_multiset().count((pos, chunk)) > 0);
    assert(after.contains((pos, chunk)));
    let i = choose|i: int| 0 <= i < after.len() && after[i] == (pos, chunk);
    assert(after[i].0 == pos);
}

/// There is at most one first entry at `pos`.
proof fn lemma_first_at_unique(s: Seq<(MetaChunkPos, MetaChunk)>, pos: MetaChunkPos, i: int, j: int)
    requires
        first_at(s, pos, i),
        first_at(s, pos, j),
    ensures
        i == j,
{
}

/// The number that stands for a meta chunk position in a set: its two
/// coordinates, each shifted to be non-negative, as the digits of a number in
/// base 2^32.
pub open spec fn spec_meta_key(p: MetaChunkPos) -> u64 {
    ((p.x + 0x8000_0000) * 0x1_0000_0000 + (p.z + 0x8000_0000)) as u64
}

/// Distinct positions have distinct keys.
pub proof fn lemma_meta_key_injective(p: MetaChunkPos, q: MetaChunkPos)
    ensures
        spec_meta_key(p) == spec_meta_key(q) <==> p == q,
{
    let a = p.x + 0x8000_0000;
    let b = p.z + 0x8000_0000;
    let c = q.x + 0x8000_0000;
    let d = q.z + 0x8000_0000;
    assert(0 <= a * 0x1_0000_0000 + b < 0x1_0000_0000_0000_0000 && 0 <= c * 0x1_0000_0000 + d
        < 0x1_0000_0000_0000_0000) by (nonlinear_arith)
        requires
            0 <= a < 0x1_0000_0000,
            0 <= b < 0x1_0000_0000,
            0 <= c < 0x1_0000_0000,
            0 <= d < 0x1_0000_0000,
    {
    }
    if spec_meta_key(p) == spec_meta_key(q) {
        let k = a * 0x1_0000_0000 + b;
        vstd::arithmetic::div_mod::lemma_fundamental_div_mod_converse(k, 0x1_0000_0000, a, b);
        vstd::arithmetic::div_mod::lemma_fundamental_div_mod_converse(k, 0x1_0000_0000, c, d);
    }
}

/// Unloading keeps exactly the loaded meta chunks that lie fewer than
/// `METACHUNK_GEN_RANGE + 2` meta chunks from the player's along x and along
/// z; in particular the meta chunk the player stands in stays loaded.
pub proof fn law_filter_keeps_near(s: Seq<(MetaChunkPos, MetaChunk)>, current: MetaChunkPos, e: (MetaChunkPos, MetaChunk))
    ensures
        s.filter(|e: (MetaChunkPos, MetaChunk)| spec_retain(current, e.0)).contains(e) <==> s.contains(e) && abs(
            e.0.x - current.x,
        ) < METACHUNK_GEN_RANGE + 2 && abs(e.0.z - current.z) < METACHUNK_GEN_RANGE + 2,
        s.contains(e) && e.0 == current ==> s.filter(|e: (MetaChunkPos, MetaChunk)| spec_retain(current, e.0)).contains(
            e,
        ),
{
    broadcast use vstd::seq_lib::lemma_seq_contains;

    let pred = |e: (MetaChunkPos, MetaChunk)| spec_retain(current, e.0);
    law_retain_by_distance(current, e.0);
    let f = s.filter(pred);
    if f.contains(e) {
        s.lemma_filter_contains_rev(pred, e);
        let j = choose|j: int| 0 <= j < f.len() && f[j] == e;
        s.lemma_filter_pred(pred, j);
    }
    if s.contains(e) && pred(e) {
        let i = choose|i: int| 0 <= i < s.len() && s[i] == e;
        s.lemma_filter_contains(pred, i);
    }
}

/// The key of `pos` in the set of meta chunks that are being generated.
pub fn meta_chunk_key(pos: &MetaChunkPos) -> (k: u64)
    ensures
        k == spec_meta_key(*pos),
{
    let a = (pos.x as i64 + 0x8000_0000) as u64;
    let b = (pos.z as i64 + 0x8000_0000) as u64;
    assert(a * 0x1_0000_0000 + b < 0x1_0000_0000_0000_0000) by (nonlinear_arith)
        requires
            a < 0x1_0000_0000,
            b < 0x1_0000_0000,
    {
    }
    a * 0x1_0000_0000 + b
}

/// Orders meta chunk positions by `x`, then by `z`.
pub fn order_meta_chunk_pos(a: &MetaChunkPos, b: &MetaChunkPos) -> (o: Ordering)
    ensures
        (o == Ordering::Less) == (pos_le(*a, *b) && *a != *b),
        (o == Ordering::Equal) == (*a == *b),
        (o == Ordering::Greater) == !pos_le(*a, *b),
{
    if a.x < b.x {
        Ordering::Less
    } else if a.x > b.x {
        Ordering::Greater
    } else if a.z < b.z {
        Ordering::Less
    } else if a.z > b.z {
        Ordering::Greater
    } else {
        Ordering::Equal
    }
}

/// Whether `a` comes strictly before `b`: by `x`, then by `z`.
pub fn meta_chunk_pos_before(a: &MetaChunkPos, b: &MetaChunkPos) -> (r: bool)
    ensures
        r == (pos_le(*a, *b) && *a != *b),
{
    a.x < b.x || (a.x == b.x && a.z < b.z)
}

/// Sorts `chunks` by position with rayon's parallel unstable sort
/// (`ParallelSliceMut::par_sort_unstable_by`), comparing positions with
/// [`order_meta_chunk_pos`]. Trusted: the entries after the call are those
/// before it, in an order sorted by position; the order of entries at equal
/// positions is not stated.
#[verifier::external_body]
fn sort_by_pos(chunks: &mut Vec<(MetaChunkPos, MetaChunk)>)
    ensures
        final(chunks)@.to_multiset() == old(chunks)@.to_multiset(),
        sorted_by_pos(final(chunks)@),
{
    chunks.par_sort_unstable_by(|a, b| order_meta_chunk_pos(&a.0, &b.0))
}

/// The meta chunk that holds the chunk at `pos`.
pub open spec fn meta_of(pos: ChunkPos) -> MetaChunkPos {
    MetaChunkPos {
        x: (pos.x as int / METACHUNKSIZE as int) as i32,
        z: (pos.z as int / METACHUNKSIZE as int) as i32,
    }
}

/// The index, within its meta chunk, of the chunk at `pos`; the height is
/// wrapped into the meta chunk as the coordinates along x and z are.
pub open spec fn local_index(pos: ChunkPos) -> int {
    chunk_index(
        pos.x as int % METACHUNKSIZE as int,
        pos.y as int % METACHUNKSIZE as int,
        pos.z as int % METACHUNKSIZE as int,
    )
}

/// The chunk that holds the block at `pos`.
pub open spec fn chunk_of(pos: GlobalBlockPos) -> ChunkPos {
    ChunkPos {
        x: (pos.x as int / 16) as i32,
        y: (pos.y as int / 16) as i32,
        z: (pos.z as int / 16) as i32,
    }
}

/// The chunk at `pos` among the entries: none above the top of the world or
/// where no meta chunk is loaded.
pub open spec fn chunk_at(s: Seq<(MetaChunkPos, MetaChunk)>, pos: ChunkPos) -> Option<MetaChunkChunk> {
    if pos.y >= METACHUNKSIZE as int {
        None
    } else {
        match meta_at(s, meta_of(pos)) {
            Some(m) => Some(m.chunks()[local_index(pos)]),
            None => None,
        }
    }
}

/// The block at `pos` among the entries, where its chunk is loaded.
pub open spec fn block_at(s: Seq<(MetaChunkPos, MetaChunk)>, pos: GlobalBlockPos) -> Option<BlockId> {
    match chunk_at(s, chunk_of(pos)) {
        Some(c) => Some(c.view_at(block_local_pos(pos))),
        None => None,
    }
}

/// `s2` is `s` with chunk `li` of the meta chunk of entry `i` replaced by `c`.
pub open spec fn chunk_replaced(
    s: Seq<(MetaChunkPos, MetaChunk)>,
    s2: Seq<(MetaChunkPos, MetaChunk)>,
    i: int,
    li: int,
    c: MetaChunkChunk,
) -> bool {
    &&& s2.len() == s.len()
    &&& forall|j: int| 0 <= j < s.len() && j != i ==> #[trigger] s2[j] == s[j]
    &&& s2[i].0 == s[i].0
    &&& s2[i].1.spec_pos() == s[i].1.spec_pos()
    &&& s2[i].1.spec_seed() == s[i].1.spec_seed()
    &&& s2[i].1.chunks() == s[i].1.chunks().update(li, c)
}

/// The blocks at `p` and `q` are stored in the same chunk: that of the same
/// meta chunk at the same index. Chunks below the bottom of the world share
/// the storage of chunks of their column.
pub open spec fn same_slot(p: GlobalBlockPos, q: GlobalBlockPos) -> bool {
    &&& chunk_of(p).y < METACHUNKSIZE as int
    &&& chunk_of(q).y < METACHUNKSIZE as int
    &&& meta_of(chunk_of(p)) == meta_of(chunk_of(q))
    &&& local_index(chunk_of(p)) == local_index(chunk_of(q))
}

/// A chunk's index within its meta chunk is that of one of its chunks.
pub proof fn lemma_local_index_bound(pos: ChunkPos)
    ensures
        0 <= local_index(pos) < chunk_count(),
{
    let x = pos.x as int % 16;
    let y = pos.y as int % 16;
    let z = pos.z as int % 16;
    assert(0 <= x + y * 16 + z * 16 * 16 < 4096) by (nonlinear_arith)
        requires
            0 <= x < 16,
            0 <= y < 16,
            0 <= z < 16,
    {
    }
}

/// The block at `q` lies in chunk `li` of the meta chunk of entry `i`.
pub open spec fn in_slot(s: Seq<(MetaChunkPos, MetaChunk)>, q: GlobalBlockPos, i: int, li: int) -> bool {
    &&& chunk_of(q).y < METACHUNKSIZE as int
    &&& holds_pos(s, meta_of(chunk_of(q)))
    &&& first_index(s, meta_of(chunk_of(q))) == i
    &&& local_index(chunk_of(q)) == li
}

/// Replacing one chunk changes the blocks read from that chunk only.
proof fn lemma_replaced_lookup(
    s: Seq<(MetaChunkPos, MetaChunk)>,
    s2: Seq<(MetaChunkPos, MetaChunk)>,
    i: int,
    li: int,
    c2: MetaChunkChunk,
    q: GlobalBlockPos,
)
    requires
        0 <= i < s.len(),
        forall|j: int| 0 <= j < s.len() ==> (#[trigger] s[j]).1.inv(),
        0 <= li < chunk_count(),
        chunk_replaced(s, s2, i, li, c2),
    ensures
        block_at(s2, q) == if in_slot(s, q, i, li) {
            Some(c2.view_at(block_local_pos(q)))
        } else {
            block_at(s, q)
        },
{
    let cq = chunk_of(q);
    let mq = meta_of(cq);
    let lq = local_index(cq);
    assert forall|j: int| 0 <= j < s.len() implies #[trigger] s2[j].0 == s[j].0 by {
        if j != i {
            assert(s2[j] == s[j]);
        }
    }
    if holds_pos(s, mq) {
        lemma_first_at_exists(s, mq);
        let k = first_index(s, mq);
        assert(first_at(s, mq, k));
        assert(first_at(s2, mq, k));
        assert(holds_pos(s2, mq));
        lemma_first_at_unique(s2, mq, k, first_index(s2, mq));
        assert(meta_at(s2, mq) == Some(s2[k].1));
        assert(meta_at(s, mq) == Some(s[k].1));
        if k != i {
            assert(s2[k] == s[k]);
            assert(!in_slot(s, q, i, li));
        } else {
            lemma_local_index_bound(cq);
            assert(s[i].1.inv());
            assert(s[i].1.chunks().len() == chunk_count());
            if lq == li {
                assert(s2[i].1.chunks()[lq] == c2);
            } else {
                assert(s2[i].1.chunks()[lq] == s[i].1.chunks()[lq]);
                assert(!in_slot(s, q, i, li));
            }
        }
    } else {
        if holds_pos(s2, mq) {
            let j = choose|j: int| 0 <= j < s2.len() && #[trigger] s2[j].0 == mq;
            assert(s[j].0 == mq);
        }
        assert(!in_slot(s, q, i, li));
    }
}

/// The loaded meta chunks of a world, kept sorted by position, and the
/// positions of those that are being generated.
pub struct SmallWorld {
    chunks: Vec<(MetaChunkPos, MetaChunk)>,
    pub loading_chunks: HashSet<u64>,
    pub world_seed: u32,
}

impl SmallWorld {
    /// The loaded meta chunks with their positions, in order.
    pub closed spec fn entries(&self) -> Seq<(MetaChunkPos, MetaChunk)> {
        self.chunks@
    }

    /// The positions, by key, of the meta chunks that are being generated.
    pub closed spec fn loading(&self) -> Set<u64> {
        self.loading_chunks@
    }

    /// The seed of the world.
    pub closed spec fn seed(&self) -> u32 {
        self.world_seed
    }

    /// The entries are sorted by position and every meta chunk holds all its chunks.
    pub closed spec fn inv(&self) -> bool {
        &&& sorted_by_pos(self.chunks@)
        &&& forall|i: int| 0 <= i < self.chunks@.len() ==> (#[trigger] self.chunks@[i]).1.inv()
    }

    /// A world with no meta chunk loaded or being generated.
    pub fn new(seed: u32) -> (w: SmallWorld)
        ensures
            w.inv(),
            w.entries() == Seq::<(MetaChunkPos, MetaChunk)>::empty(),
            w.loading() == Set::<u64>::empty(),
            w.seed() == seed,
    {
        SmallWorld { chunks: Vec::new(), loading_chunks: HashSet::new(), world_seed: seed }
    }

    /// The loaded meta chunks with their positions, sorted by position.
    pub fn get_all_chunks(&self) -> (r: &Vec<(MetaChunkPos, MetaChunk)>)
        ensures
            r@ == self.entries(),
    {
        &self.chunks
    }

    /// The number of loaded meta chunks, as an `i32`.
    pub fn count_chunks(&self) -> (n: i32)
        ensures
            n == self.entries().len() as i32,
    {
        self.chunks.len() as i32
    }

    /// The index of the first entry at `pos`, found by binary search.
    fn find_entry(&self, pos: &MetaChunkPos) -> (r: Option<usize>)
        requires
            self.inv(),
        ensures
            r is None <==> !holds_pos(self.entries(), *pos),
            r matches Some(i) ==> first_at(self.entries(), *pos, i as int),
    {
        let mut lo: usize = 0;
        let mut hi: usize = self.chunks.len();
        while lo < hi
            invariant
                self.inv(),
                0 <= lo <= hi <= self.chunks@.len(),
                forall|j: int| 0 <= j < lo ==> pos_le(#[trigger] self.chunks@[j].0, *pos) && self.chunks@[j].0
                    != *pos,
                forall|j: int| hi <= j < self.chunks@.len() ==> pos_le(*pos, #[trigger] self.chunks@[j].0),
            decreases hi - lo,
        {
            let mid = lo + (hi - lo) / 2;
            let p = self.chunks[mid].0;
            if meta_chunk_pos_before(&p, pos) {
                proof {
                    assert forall|j: int| 0 <= j < mid + 1 implies pos_le(
                        #[trigger] self.chunks@[j].0,
                        *pos,
                    ) && self.chunks@[j].0 != *pos by {
                        if j < mid {
                            assert(pos_le(self.chunks@[j].0, self.chunks@[mid as int].0));
                        }
                    }
                }
                lo = mid + 1;
            } else {
                proof {
                    assert forall|j: int| mid <= j < self.chunks@.len() implies pos_le(
                        *pos,
                        #[trigger] self.chunks@[j].0,
                    ) by {
                        if j > mid {
                            assert(pos_le(self.chunks@[mid as int].0, self.chunks@[j].0));
                        }
                    }
                }
                hi = mid;
            }
        }
        if lo < self.chunks.len() && self.chunks[lo].0 == *pos {
            Some(lo)
        } else {
            proof {
                assert forall|j: int| 0 <= j < self.chunks@.len() implies #[trigger] self.chunks@[j].0
                    != *pos by {
                    if j > lo {
                        assert(pos_le(self.chunks@[lo as int].0, self.chunks@[j].0));
                    }
                }
            }
            None
        }
    }

    /// The meta chunk at `pos`, if it is loaded.
    pub fn get_meta_chunk(&self, pos: &MetaChunkPos) -> (r: Option<&MetaChunk>)
        requires
            self.inv(),
        ensures
            match r {
                Some(c) => meta_at(self.entries(), *pos) == Some(*c),
                None => meta_at(self.entries(), *pos) is None,
            },
    {
        match self.find_entry(pos) {
            Some(i) => {
                proof {
                    let k = choose|k: int| first_at(self.entries(), *pos, k);
                    lemma_first_at_unique(self.entries(), *pos, i as int, k);
                }
                Some(&self.chunks[i].1)
            },
            None => None,
        }
    }

    /// The meta chunk at `pos`, if it is loaded, to be changed in place.
    pub fn get_meta_chunk_mut(&mut self, pos: &MetaChunkPos) -> (r: Option<&mut MetaChunk>)
        requires
            old(self).inv(),
        ensures
            r is Some <==> holds_pos(old(self).entries(), *pos),
            r matches Some(c) ==> {
                let i = first_index(old(self).entries(), *pos);
                &&& first_at(old(self).entries(), *pos, i)
                &&& *c == old(self).entries()[i].1
                &&& final(self).entries() == old(self).entries().update(i, (*pos, *final(c)))
                &&& final(c).inv() ==> final(self).inv()
            },
            r is None ==> *final(self) == *old(self),
            final(self).loading() == old(self).loading(),
            final(self).seed() == old(self).seed(),
    {
        match self.find_entry(pos) {
            Some(i) => {
                proof {
                    let k = first_index(self.entries(), *pos);
                    lemma_first_at_unique(self.entries(), *pos, i as int, k);
                }
                let entry = &mut self.chunks[i];
                Some(&mut entry.1)
            },
            None => None,
        }
    }

    /// The block at `pos` can be read: its chunk, where it is loaded, has its shape.
    pub open spec fn readable_at(&self, pos: GlobalBlockPos) -> bool {
        match chunk_at(self.entries(), chunk_of(pos)) {
            Some(c) => c.shape_ok(),
            None => true,
        }
    }

    /// The block at `pos` can be written: its chunk, where it is loaded, has
    /// its shape and room for one more node in each layer.
    pub open spec fn writable_at(&self, pos: GlobalBlockPos) -> bool {
        match chunk_at(self.entries(), chunk_of(pos)) {
            Some(c) => c.shape_ok() && c.has_room(),
            None => true,
        }
    }

    /// The chunk at `pos`, if its meta chunk is loaded and it lies below the
    /// top of the world.
    pub fn get_chunk(&self, pos: &ChunkPos) -> (r: Option<&MetaChunkChunk>)
        requires
            self.inv(),
        ensures
            match r {
                Some(c) => chunk_at(self.entries(), *pos) == Some(*c),
                None => chunk_at(self.entries(), *pos) is None,
            },
    {
        if pos.y >= METACHUNKSIZE as i32 {
            return None;
        }
        let c = self.get_meta_chunk(&pos.get_meta_chunk_pos());
        match c {
            Some(chunk) => {
                let local = pos.get_local_chunk_pos();
                proof {
                    let s = self.entries();
                    let mp = meta_of(*pos);
                    lemma_first_at_exists(s, mp);
                    let i = first_index(s, mp);
                    assert(s[i].1.inv());
                    assert(0 <= local_index(*pos) < chunk_count()) by (nonlinear_arith)
                        requires
                            0 <= local.x < 16,
                            0 <= local.y < 16,
                            0 <= local.z < 16,
                            local_index(*pos) == local.x + local.y * 16 + local.z * 16 * 16,
                    {
                    }
                }
                chunk.get_chunk(&local)
            },
            None => None,
        }
    }

    /// The block at `pos`, if its chunk is loaded.
    pub fn get_block(&self, pos: &GlobalBlockPos) -> (r: Option<BlockId>)
        requires
            self.inv(),
            self.readable_at(*pos),
        ensures
            r == block_at(self.entries(), *pos),
    {
        return match self.get_chunk(&pos.get_chunk_pos()) {
            Some(c) => Some(c.get_block(&pos.get_local_pos())),
            None => None,
        };
    }

    /// Whether writing `block` at `pos` keeps every other block of its chunk;
    /// true where the chunk is not loaded, since the write then changes nothing.
    pub fn write_keeps_others(&self, block: BlockId, pos: &GlobalBlockPos) -> (r: bool)
        requires
            self.inv(),
            self.readable_at(*pos),
        ensures
            match chunk_at(self.entries(), chunk_of(*pos)) {
                Some(c) => r == c.set_is_safe(block, block_local_pos(*pos)),
                None => r,
            },
    {
        match self.get_chunk(&pos.get_chunk_pos()) {
            Some(c) => c.write_keeps_others(block, &pos.get_local_pos()),
            None => true,
        }
    }

    /// The chunk at `pos`, if its meta chunk is loaded and it lies below the
    /// top of the world, to be changed in place.
    pub fn get_chunk_mut(&mut self, pos: &ChunkPos) -> (r: Option<&mut MetaChunkChunk>)
        requires
            old(self).inv(),
        ensures
            r is Some <==> chunk_at(old(self).entries(), *pos) is Some,
            r matches Some(c) ==> {
                &&& chunk_at(old(self).entries(), *pos) == Some(*c)
                &&& chunk_replaced(
                    old(self).entries(),
                    final(self).entries(),
                    first_index(old(self).entries(), meta_of(*pos)),
                    local_index(*pos),
                    *final(c),
                )
            },
            r is None ==> *final(self) == *old(self),
            final(self).inv(),
            final(self).loading() == old(self).loading(),
            final(self).seed() == old(self).seed(),
    {
        if pos.y >= METACHUNKSIZE as i32 {
            return None;
        }
        let ghost s = self.entries();
        let c = self.get_meta_chunk_mut(&pos.get_meta_chunk_pos());
        match c {
            Some(chunk) => {
                let local = pos.get_local_chunk_pos();
                proof {
                    assert(0 <= local_index(*pos) < chunk_count()) by (nonlinear_arith)
                        requires
                            0 <= local.x < 16,
                            0 <= local.y < 16,
                            0 <= local.z < 16,
                            local_index(*pos) == local.x + local.y * 16 + local.z * 16 * 16,
                    {
                    }
                }
                chunk.get_chunk_mut(&local)
            },
            None => None,
        }
    }

    /// Writes `block` at `pos` in its chunk, if that chunk is loaded and lies
    /// below the top of the world; else nothing changes.
    pub fn set_block(&mut self, block: BlockId, pos: GlobalBlockPos)
        requires
            old(self).inv(),
            old(self).writable_at(pos),
        ensures
            final(self).inv(),
            final(self).loading() == old(self).loading(),
            final(self).seed() == old(self).seed(),
            chunk_at(old(self).entries(), chunk_of(pos)) is None ==> *final(self) == *old(self),
            chunk_at(old(self).entries(), chunk_of(pos)) matches Some(c) ==> {
                let s = old(self).entries();
                let i = first_index(s, meta_of(chunk_of(pos)));
                let li = local_index(chunk_of(pos));
                let c2 = final(self).entries()[i].1.chunks()[li];
                &&& chunk_replaced(s, final(self).entries(), i, li, c2)
                &&& c2.ds() == MetaChunkChunk::t_set(c.ds(), block, block_local_pos(pos))
                &&& c.canonical() && c.set_is_safe(block, block_local_pos(pos)) ==> c2.canonical()
                &&& c.wf() && c.set_is_safe(block, block_local_pos(pos)) ==> {
                    &&& c2.wf()
                    &&& forall|q: GlobalBlockPos| #[trigger] block_at(final(self).entries(), q) == if same_slot(q, pos)
                        && block_local_pos(q) == block_local_pos(pos) {
                        Some(block)
                    } else {
                        block_at(s, q)
                    }
                }
            },
    {
        let ghost s = self.entries();
        let local = pos.get_local_pos();
        let cp = pos.get_chunk_pos();
        assert(cp == chunk_of(pos));
        proof {
            lemma_local_index_bound(cp);
        }
        match self.get_chunk_mut(&cp) {
            Some(c) => {
                proof {
                    let mp = meta_of(cp);
                    lemma_first_at_exists(s, mp);
                    assert(s[first_index(s, mp)].1.inv());
                }
                c.set_block(block, &local);
            },
            None => (),
        };
        proof {
            if chunk_at(s, chunk_of(pos)) is Some {
                let c = chunk_at(s, chunk_of(pos))->0;
                let mp = meta_of(chunk_of(pos));
                lemma_first_at_exists(s, mp);
                let i = first_index(s, mp);
                let li = local_index(chunk_of(pos));
                assert(s[i].1.inv());
                let c2 = self.entries()[i].1.chunks()[li];
                lemma_chunk_params();
                if c.wf() && c.set_is_safe(block, block_local_pos(pos)) {
                    assert(MetaChunkChunk::in_range(block_local_pos(pos)));
                    assert forall|q: GlobalBlockPos| #[trigger] block_at(self.entries(), q) == if same_slot(q, pos)
                        && block_local_pos(q) == block_local_pos(pos) {
                        Some(block)
                    } else {
                        block_at(s, q)
                    } by {
                        lemma_replaced_lookup(s, self.entries(), i, li, c2, q);
                        assert(MetaChunkChunk::in_range(block_local_pos(q)));
                        if in_slot(s, q, i, li) {
                            lemma_first_at_exists(s, meta_of(chunk_of(q)));
                            assert(s[i].0 == meta_of(chunk_of(q)));
                            assert(same_slot(q, pos));
                        } else if same_slot(q, pos) {
                            assert(in_slot(s, q, i, li));
                        }
                    }
                }
            }
        }
    }

    /// Whether the meta chunk at `pos` is loaded or being generated.
    pub fn chunk_exists_or_generating(&self, pos: &MetaChunkPos) -> (r: bool)
        requires
            self.inv(),
        ensures
            r == (holds_pos(self.entries(), *pos) || self.loading().contains(spec_meta_key(*pos))),
    {
        if self.get_meta_chunk(pos).is_none() && !self.loading_chunks.contains(&meta_chunk_key(pos)) {
            return false;
        }
        return true;
    }

    /// Loads `chunk` at `pos`; the entries stay sorted by position.
    pub fn add_chunk(&mut self, pos: MetaChunkPos, chunk: MetaChunk)
        requires
            old(self).inv(),
            chunk.inv(),
        ensures
            final(self).inv(),
            final(self).entries().to_multiset() == old(self).entries().to_multiset().insert((pos, chunk)),
            final(self).loading() == old(self).loading(),
            final(self).seed() == old(self).seed(),
    {
        let ghost before = self.chunks@;
        self.chunks.push((pos, chunk));
        proof {
            assert(self.chunks@ == before.push((pos, chunk)));
            before.to_multiset_ensures();
        }
        let ghost pushed = self.chunks@;
        sort_by_pos(&mut self.chunks);
        proof {
            assert forall|i: int| 0 <= i < self.chunks@.len() implies (#[trigger] self.chunks@[i]).1.inv() by {
                self.chunks@.to_multiset_ensures();
                pushed.to_multiset_ensures();
                assert(self.chunks@.to_multiset().count(self.chunks@[i]) > 0);
                assert(pushed.contains(self.chunks@[i]));
            }
        }
    }

    /// Keeps the meta chunks near the meta chunk `current` that the player is
    /// in, and unloads the others; the kept ones stay in order.
    pub fn filter_chunks(&mut self, current: MetaChunkPos)
        requires
            old(self).inv(),
        ensures
            final(self).inv(),
            final(self).entries() == old(self).entries().filter(
                |e: (MetaChunkPos, MetaChunk)| spec_retain(current, e.0),
            ),
            final(self).loading() == old(self).loading(),
            final(self).seed() == old(self).seed(),
    {
        let ghost all = self.chunks@;
        let ghost keep = |e: (MetaChunkPos, MetaChunk)| spec_retain(current, e.0);
        let mut rest: Vec<(MetaChunkPos, MetaChunk)> = Vec::new();
        std::mem::swap(&mut rest, &mut self.chunks);
        let mut kept: Vec<(MetaChunkPos, MetaChunk)> = Vec::new();
        let n = rest.len();
        let mut k: usize = 0;
        while k < n
            invariant
                n == all.len(),
                k <= n,
                keep == (|e: (MetaChunkPos, MetaChunk)| spec_retain(current, e.0)),
                sorted_by_pos(all),
                forall|i: int| 0 <= i < all.len() ==> (#[trigger] all[i]).1.inv(),
                rest@ == all.skip(k as int),
                kept@ == all.take(k as int).filter(keep),
                sorted_by_pos(kept@),
                forall|i: int| 0 <= i < kept@.len() ==> (#[trigger] kept@[i]).1.inv(),
                forall|i: int, j: int| 0 <= i < kept@.len() && k <= j < n ==> pos_le(#[trigger] kept@[i].0, #[trigger] all[j].0),
            decreases n - k,
        {
            let e = rest.remove(0);
            let ghost kept_before = kept@;
            proof {
                assert(all.take(k + 1).drop_last() == all.take(k as int));
                assert(all.take(k + 1).last() == all[k as int]);
                assert(e == all[k as int]);
                assert(rest@ == all.skip(k + 1));
            }
            if MetaChunk::retain_meta_chunk(current, e.0) {
                kept.push(e);
            }
            proof {
                let t = all.take(k + 1);
                reveal(Seq::filter);
                assert(t.filter(keep) == (if keep(t.last()) {
                    t.drop_last().filter(keep).push(t.last())
                } else {
                    t.drop_last().filter(keep)
                }));
                assert(t.drop_last() == all.take(k as int));
                assert(t.last() == e);
                assert(keep(e) == spec_retain(current, e.0));
                if spec_retain(current, e.0) {
                    assert(kept@ == kept_before.push(e));
                } else {
                    assert(kept@ == kept_before);
                }
                assert(kept@ == t.filter(keep));
            }
            k = k + 1;
        }
        proof {
            assert(all.take(n as int) == all);
        }
        self.chunks = kept;
    }
}

} // verus!
