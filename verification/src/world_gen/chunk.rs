use vstd::prelude::*;
use vstd::arithmetic::power::pow;
use crate::blocks::block::{get_blockid, spec_blockid, BlockId, BlockType};
use crate::positions::{ChunkPos, LocalBlockPos};
use crate::utils::{coord_to_array_indice, pow_u32};

verus! {

/// An entry of a node: either the block that fills the whole sub-cube, or the
/// index of the node one layer down that describes the sub-cube in detail.
#[derive(Copy, Clone, Debug, PartialEq, Eq, Structural)]
pub enum BlockIdOrPointer {
    Id(BlockId),
    Ptr(u32),
}

/// A chunk stored as a dense block list.
pub struct OldChunk {
    pub data: Vec<BlockId>,
}

/// A chunk of `BlockSize^Depth` blocks along each edge, stored as a tree of
/// `Depth` layers. Each node holds `BlockSizeCubed` entries, one per sub-cube;
/// layer 0 holds the single root node.
pub struct Chunk<const Depth: usize, const BlockSize: usize, const BlockSizeCubed: usize> {
    data_structure: Vec<Vec<Vec<BlockIdOrPointer>>>,
}

impl<const Depth: usize, const BlockSize: usize, const BlockSizeCubed: usize> Chunk<
    Depth,
    BlockSize,
    BlockSizeCubed,
> {
    /// The shape parameters that the structure supports.
    pub open spec fn params_ok() -> bool {
        &&& 1 <= Depth <= 32
        &&& BlockSize >= 2
        &&& BlockSizeCubed == BlockSize * BlockSize * BlockSize
        &&& pow(BlockSize as int, Depth as nat) <= u32::MAX
    }

    /// Edge length, in blocks, of the cube that a node of layer `level` covers.
    pub open spec fn width(level: int) -> int {
        pow(BlockSize as int, (Depth - level) as nat)
    }

    /// The coordinate as the structure reads it (reinterpreted as unsigned).
    pub open spec fn coord(c: i32) -> int {
        (c as u32) as int
    }

    /// Which sub-cube, along one axis, a coordinate falls in at layer `level`.
    pub open spec fn digit(c: i32, level: int) -> int {
        (Self::coord(c) % Self::width(level)) / (Self::width(level) / BlockSize as int)
    }

    /// The entry of a node of layer `level` that covers `pos`.
    pub open spec fn child_index(pos: LocalBlockPos, level: int) -> int {
        Self::digit(pos.x, level) + Self::digit(pos.y, level) * BlockSize
            + Self::digit(pos.z, level) * BlockSize * BlockSize
    }

    /// Two positions that every layer files under the same entries.
    pub open spec fn same_cell(p: LocalBlockPos, q: LocalBlockPos) -> bool {
        forall|l: int| 0 <= l < Depth ==> #[trigger] Self::child_index(p, l) == Self::child_index(q, l)
    }

    /// A position inside the chunk.
    pub open spec fn in_range(pos: LocalBlockPos) -> bool {
        let w = pow(BlockSize as int, Depth as nat);
        &&& 0 <= pos.x < w
        &&& 0 <= pos.y < w
        &&& 0 <= pos.z < w
    }

    /// The layers as sequences: `ds()[l][n][e]` is entry `e` of node `n` of layer `l`.
    pub closed spec fn ds(&self) -> Seq<Seq<Seq<BlockIdOrPointer>>> {
        self.data_structure@.map_values(
            |layer: Vec<Vec<BlockIdOrPointer>>| layer@.map_values(|node: Vec<BlockIdOrPointer>| node@),
        )
    }

    /// A valid slot: entry `e` of node `n` of layer `l`.
    pub open spec fn t_slot(t: Seq<Seq<Seq<BlockIdOrPointer>>>, l: int, n: int, e: int) -> bool {
        0 <= l < Depth && l < t.len() && 0 <= n < t[l].len() && 0 <= e < BlockSizeCubed
    }

    /// The layers, nodes and entries have their sizes, and every pointer leads
    /// to a node of the next layer.
    pub open spec fn t_shape_ok(t: Seq<Seq<Seq<BlockIdOrPointer>>>) -> bool {
        &&& Self::params_ok()
        &&& t.len() == Depth
        &&& t[0].len() == 1
        &&& forall|l: int| 0 <= l < Depth ==> #[trigger] t[l].len() <= u32::MAX
        &&& forall|l: int, n: int|
            0 <= l < Depth && 0 <= n < t[l].len() ==> #[trigger] t[l][n].len() == BlockSizeCubed
        &&& forall|l: int, n: int, e: int|
            #![trigger t[l][n][e]]
            Self::t_slot(t, l, n, e) ==> match t[l][n][e] {
                BlockIdOrPointer::Ptr(p) => l + 1 < Depth && p < t[l + 1].len(),
                BlockIdOrPointer::Id(_) => true,
            }
    }

    /// No two entries point to the same node.
    pub open spec fn t_unique(t: Seq<Seq<Seq<BlockIdOrPointer>>>) -> bool {
        forall|l: int, n1: int, e1: int, n2: int, e2: int|
            #![trigger t[l][n1][e1], t[l][n2][e2]]
            Self::t_slot(t, l, n1, e1) && Self::t_slot(t, l, n2, e2) && t[l][n1][e1] is Ptr
                && t[l][n1][e1] == t[l][n2][e2] ==> n1 == n2 && e1 == e2
    }

    /// The layers form a well-formed tree.
    pub open spec fn t_wf(t: Seq<Seq<Seq<BlockIdOrPointer>>>) -> bool {
        Self::t_shape_ok(t) && Self::t_unique(t)
    }

    /// The block at `pos`, read from node `n` of layer `l` downward.
    pub open spec fn t_lookup(t: Seq<Seq<Seq<BlockIdOrPointer>>>, l: int, n: int, pos: LocalBlockPos) -> BlockId
        decreases Depth - l,
    {
        if l < 0 || l >= Depth {
            0
        } else {
            match t[l][n][Self::child_index(pos, l)] {
                BlockIdOrPointer::Id(b) => b,
                BlockIdOrPointer::Ptr(p) => Self::t_lookup(t, l + 1, p as int, pos),
            }
        }
    }

    /// The structure is a well-formed tree.
    pub closed spec fn wf(&self) -> bool {
        Self::t_wf(self.ds())
    }

    /// A well-formed tree has its shape.
    pub proof fn lemma_wf_shape(&self)
        requires
            self.wf(),
        ensures
            self.shape_ok(),
            Self::params_ok(),
    {
    }

    /// The layers, nodes and entries have their sizes and every pointer leads
    /// to a node of the next layer (the tree need not be well formed).
    pub open spec fn shape_ok(&self) -> bool {
        Self::t_shape_ok(self.ds())
    }

    /// Every layer can take one more node.
    pub open spec fn has_room(&self) -> bool {
        Self::t_room(self.ds())
    }

    /// The block that the chunk holds at `pos`.
    pub open spec fn view_at(&self, pos: LocalBlockPos) -> BlockId {
        Self::t_lookup(self.ds(), 0, 0, pos)
    }

    /// Each digit lies below `BlockSize`, so each entry index below `BlockSizeCubed`.
    proof fn lemma_child_index_bound(pos: LocalBlockPos, level: int)
        requires
            Self::params_ok(),
            0 <= level < Depth,
        ensures
            0 <= Self::digit(pos.x, level) < BlockSize,
            0 <= Self::digit(pos.y, level) < BlockSize,
            0 <= Self::digit(pos.z, level) < BlockSize,
            0 <= Self::child_index(pos, level) < BlockSizeCubed,
    {
        let b = BlockSize as int;
        let k = (Depth - level - 1) as nat;
        let w = Self::width(level);
        assert(w == b * pow(b, k)) by {
            reveal(pow);
            assert((Depth - level) as nat == k + 1);
        }
        vstd::arithmetic::power::lemma_pow_positive(b, k);
        let s = pow(b, k);
        assert(w / b == s) by {
            vstd::arithmetic::div_mod::lemma_div_multiples_vanish(s, b);
            assert(b * s == s * b) by (nonlinear_arith);
        }
        Self::lemma_digit_bound(Self::coord(pos.x), w, b, s);
        Self::lemma_digit_bound(Self::coord(pos.y), w, b, s);
        Self::lemma_digit_bound(Self::coord(pos.z), w, b, s);
        let dx = Self::digit(pos.x, level);
        let dy = Self::digit(pos.y, level);
        let dz = Self::digit(pos.z, level);
        assert(0 <= dx + dy * b + dz * b * b < b * b * b) by (nonlinear_arith)
            requires
                0 <= dx < b,
                0 <= dy < b,
                0 <= dz < b,
        {
            assert(dy * b <= (b - 1) * b);
            assert(dz * b * b <= (b - 1) * b * b);
        }
    }

    proof fn lemma_digit_bound(c: int, w: int, b: int, s: int)
        requires
            c >= 0,
            b >= 2,
            s >= 1,
            w == b * s,
        ensures
            0 <= (c % w) / (w / b) < b,
            w / b == s,
    {
        assert(w > 0 && w == s * b) by (nonlinear_arith)
            requires
                b >= 2,
                s >= 1,
                w == b * s,
        {
        }
        vstd::arithmetic::div_mod::lemma_mod_bound(c, w);
        vstd::arithmetic::div_mod::lemma_div_multiples_vanish(s, b);
        let r = c % w;
        vstd::arithmetic::div_mod::lemma_div_pos_is_pos(r, s);
        vstd::arithmetic::div_mod::lemma_multiply_divide_lt(r, s, b);
    }

    /// Widths fit in `u32` and are multiples of `BlockSize`.
    proof fn lemma_width_facts(level: int)
        requires
            Self::params_ok(),
            0 <= level < Depth,
        ensures
            BlockSize <= u32::MAX,
            BlockSize <= Self::width(level) <= u32::MAX,
            Self::width(level) / BlockSize as int >= 1,
            Self::width(level) == BlockSize * (Self::width(level) / BlockSize as int),
    {
        let b = BlockSize as int;
        vstd::arithmetic::power::lemma_pow_increases(b as nat, (Depth - level) as nat, Depth as nat);
        vstd::arithmetic::power::lemma_pow_increases(b as nat, 1, (Depth - level) as nat);
        vstd::arithmetic::power::lemma_pow_increases(b as nat, 1, Depth as nat);
        vstd::arithmetic::power::lemma_pow1(b);
        let k = (Depth - level - 1) as nat;
        assert(Self::width(level) == b * pow(b, k)) by {
            reveal(pow);
            assert((Depth - level) as nat == k + 1);
        }
        vstd::arithmetic::power::lemma_pow_positive(b, k);
        Self::lemma_digit_bound(0, Self::width(level), b, pow(b, k));
    }

    /// The entry of a node of layer `depth` that covers `pos`.
    fn what_index(pos: &LocalBlockPos, depth: usize) -> (index: usize)
        requires
            Self::params_ok(),
            depth < Depth,
        ensures
            index == Self::child_index(*pos, depth as int),
            index < BlockSizeCubed,
    {
        proof {
            Self::lemma_child_index_bound(*pos, depth as int);
            Self::lemma_width_facts(depth as int);
        }
        let width = pow_u32(BlockSize as u32, (Depth - depth) as u32);
        let sub = width / BlockSize as u32;
        let index = coord_to_array_indice(
            (pos.x as u32 % width) / sub,
            (pos.y as u32 % width) / sub,
            (pos.z as u32 % width) / sub,
            BlockSize as u32,
        );
        return index;
    }

    /// A chunk filled with air: a root node whose entries all hold air.
    pub fn generate(pos: &ChunkPos) -> (c: Self)
        requires
            BlockSize == 4 || BlockSize == 2,
            BlockSizeCubed == BlockSize * BlockSize * BlockSize,
            1 <= Depth <= 32,
            pow(BlockSize as int, Depth as nat) <= u32::MAX,
        ensures
            c.wf(),
            c.canonical(),
            c.has_room(),
            forall|p: LocalBlockPos| #[trigger] c.view_at(p) == spec_blockid(BlockType::Air),
            c.ds().len() == Depth,
            c.ds()[0].len() == 1,
            c.ds()[0][0] == Seq::new(BlockSizeCubed as nat, |e: int| BlockIdOrPointer::Id(spec_blockid(BlockType::Air))),
            forall|l: int| 1 <= l < Depth ==> #[trigger] c.ds()[l].len() == 0,
    {
        let air = BlockIdOrPointer::Id(get_blockid(BlockType::Air));
        let mut root: Vec<BlockIdOrPointer> = Vec::new();
        let mut k: usize = 0;
        while k < BlockSizeCubed
            invariant
                k <= BlockSizeCubed,
                root@.len() == k,
                forall|e: int| 0 <= e < k ==> root@[e] == air,
            decreases BlockSizeCubed - k,
        {
            root.push(air);
            k = k + 1;
        }
        let mut data_structure: Vec<Vec<Vec<BlockIdOrPointer>>> = Vec::new();
        let mut top: Vec<Vec<BlockIdOrPointer>> = Vec::new();
        top.push(root);
        data_structure.push(top);
        let mut i: usize = 1;
        while i < Depth
            invariant
                1 <= i <= Depth,
                data_structure@.len() == i,
                data_structure@[0]@.len() == 1,
                data_structure@[0]@[0]@.len() == BlockSizeCubed,
                forall|e: int| 0 <= e < BlockSizeCubed ==> data_structure@[0]@[0]@[e] == air,
                forall|l: int| 1 <= l < i ==> data_structure@[l]@.len() == 0,
            decreases Depth - i,
        {
            data_structure.push(Vec::new());
            i = i + 1;
        }
        let c = Chunk { data_structure };
        proof {
            let t = c.ds();
            assert(t.len() == Depth);
            assert(t[0].len() == 1);
            assert(t[0][0] == data_structure@[0]@[0]@);
            assert forall|l: int| 1 <= l < Depth implies #[trigger] t[l].len() == 0 by {
                assert(t[l].len() == data_structure@[l]@.len());
            }
            assert forall|p: LocalBlockPos| #[trigger] c.view_at(p) == spec_blockid(BlockType::Air) by {
                Self::lemma_child_index_bound(p, 0);
            }
            assert forall|l: int, n: int, e: int|
                #![trigger t[l][n][e]]
                Self::t_slot(t, l, n, e) implies t[l][n][e] == air by {
                assert(l == 0 && n == 0);
            }
        }
        c
    }

    /// Whether the shape parameters are supported.
    pub fn params_supported() -> (r: bool)
        ensures
            r == Self::params_ok(),
    {
        if Depth < 1 || Depth > 32 || BlockSize < 2 {
            return false;
        }
        if BlockSize > 0xffff_ffff {
            proof {
                vstd::arithmetic::power::lemma_pow1(BlockSize as int);
                vstd::arithmetic::power::lemma_pow_increases(BlockSize as nat, 1, Depth as nat);
            }
            return false;
        }
        let b = BlockSize as u128;
        assert(b * b <= 0xffff_ffff * 0xffff_ffff && b * b * b <= 0xffff_ffff * 0xffff_ffff * 0xffff_ffff)
            by (nonlinear_arith)
            requires
                b <= 0xffff_ffff,
        {
        }
        let b2 = b * b;
        if BlockSizeCubed as u128 != b2 * b {
            return false;
        }
        let mut p: u128 = 1;
        let mut i: usize = 0;
        proof {
            vstd::arithmetic::power::lemma_pow0(BlockSize as int);
        }
        while i < Depth
            invariant
                1 <= Depth <= 32,
                2 <= BlockSize <= 0xffff_ffff,
                b == BlockSize,
                i <= Depth,
                p == pow(BlockSize as int, i as nat),
                p <= u32::MAX,
            decreases Depth - i,
        {
            proof {
                vstd::arithmetic::power::lemma_pow_positive(BlockSize as int, i as nat);
                assert(pow(BlockSize as int, (i + 1) as nat) == BlockSize * pow(BlockSize as int, i as nat)) by {
                    reveal(pow);
                }
                assert(p * b <= 0xffff_ffff * 0xffff_ffff) by (nonlinear_arith)
                    requires
                        p <= 0xffff_ffff,
                        b <= 0xffff_ffff,
                {
                }
            }
            p = p * b;
            i = i + 1;
            if p > 0xffff_ffff {
                proof {
                    vstd::arithmetic::power::lemma_pow_increases(BlockSize as nat, i as nat, Depth as nat);
                    assert(pow(BlockSize as int, Depth as nat) > u32::MAX);
                }
                return false;
            }
        }
        true
    }

    /// Whether the structure has its shape and room for one more node in
    /// each layer (`shape_ok` and `has_room`); checks every entry.
    pub fn check_shape(&self) -> (r: bool)
        ensures
            r == (self.shape_ok() && self.has_room()),
    {
        if !Self::params_supported() {
            return false;
        }
        let ghost t = self.ds();
        let layers = self.data_structure.len();
        if layers != Depth {
            return false;
        }
        if self.data_structure[0].len() != 1 {
            return false;
        }
        let mut l: usize = 0;
        while l < layers
            invariant
                Self::params_ok(),
                t == self.ds(),
                layers == Depth,
                t.len() == Depth,
                t[0].len() == 1,
                l <= layers,
                forall|k: int| 0 <= k < l ==> #[trigger] t[k].len() < u32::MAX,
            decreases layers - l,
        {
            if self.data_structure[l].len() >= 0xffff_ffff {
                assert(t[l as int].len() == self.data_structure@[l as int]@.len());
                return false;
            }
            l = l + 1;
        }
        let mut l: usize = 0;
        while l < layers
            invariant
                Self::params_ok(),
                t == self.ds(),
                layers == Depth,
                t.len() == Depth,
                t[0].len() == 1,
                forall|k: int| 0 <= k < Depth ==> #[trigger] t[k].len() < u32::MAX,
                l <= layers,
                forall|k: int, n: int| 0 <= k < l && 0 <= n < t[k].len() ==> #[trigger] t[k][n].len() == BlockSizeCubed,
                forall|k: int, n: int, e: int|
                    #![trigger t[k][n][e]]
                    0 <= k < l && Self::t_slot(t, k, n, e) ==> match t[k][n][e] {
                        BlockIdOrPointer::Ptr(p) => k + 1 < Depth && p < t[k + 1].len(),
                        BlockIdOrPointer::Id(_) => true,
                    },
            decreases layers - l,
        {
            let nodes = self.data_structure[l].len();
            let mut n: usize = 0;
            while n < nodes
                invariant
                    Self::params_ok(),
                    t == self.ds(),
                    layers == Depth,
                    t.len() == Depth,
                    t[0].len() == 1,
                    forall|k: int| 0 <= k < Depth ==> #[trigger] t[k].len() < u32::MAX,
                    l < layers,
                    nodes == t[l as int].len(),
                    n <= nodes,
                    forall|k: int, m: int|
                        0 <= k < l && 0 <= m < t[k].len() ==> #[trigger] t[k][m].len() == BlockSizeCubed,
                    forall|m: int| 0 <= m < n ==> #[trigger] t[l as int][m].len() == BlockSizeCubed,
                    forall|k: int, m: int, e: int|
                        #![trigger t[k][m][e]]
                        0 <= k < l && Self::t_slot(t, k, m, e) ==> match t[k][m][e] {
                            BlockIdOrPointer::Ptr(p) => k + 1 < Depth && p < t[k + 1].len(),
                            BlockIdOrPointer::Id(_) => true,
                        },
                    forall|m: int, e: int|
                        #![trigger t[l as int][m][e]]
                        0 <= m < n && Self::t_slot(t, l as int, m, e) ==> match t[l as int][m][e] {
                            BlockIdOrPointer::Ptr(p) => l + 1 < Depth && p < t[l + 1].len(),
                            BlockIdOrPointer::Id(_) => true,
                        },
                decreases nodes - n,
            {
                if self.data_structure[l][n].len() != BlockSizeCubed {
                    return false;
                }
                let mut e: usize = 0;
                while e < BlockSizeCubed
                    invariant
                        Self::params_ok(),
                        t == self.ds(),
                        layers == Depth,
                        t.len() == Depth,
                        l < layers,
                        nodes == t[l as int].len(),
                        n < nodes,
                        t[l as int][n as int].len() == BlockSizeCubed,
                        e <= BlockSizeCubed,
                        forall|x: int|
                            0 <= x < e ==> match #[trigger] t[l as int][n as int][x] {
                                BlockIdOrPointer::Ptr(p) => l + 1 < Depth && p < t[l + 1].len(),
                                BlockIdOrPointer::Id(_) => true,
                            },
                    decreases BlockSizeCubed - e,
                {
                    match self.data_structure[l][n][e] {
                        BlockIdOrPointer::Ptr(p) => {
                            if l + 1 >= layers {
                                return false;
                            }
                            if p as usize >= self.data_structure[l + 1].len() {
                                return false;
                            }
                        },
                        BlockIdOrPointer::Id(_) => {},
                    }
                    e = e + 1;
                }
                n = n + 1;
            }
            l = l + 1;
        }
        true
    }

    /// The number of layers of the structure.
    pub fn layer_count(&self) -> (n: usize)
        ensures
            n == self.ds().len(),
    {
        self.data_structure.len()
    }

    /// The number of nodes of layer `layer`.
    pub fn node_count(&self, layer: usize) -> (n: usize)
        requires
            layer < self.ds().len(),
        ensures
            n == self.ds()[layer as int].len(),
    {
        self.data_structure[layer].len()
    }

    /// The number of entries of node `node` of layer `layer`.
    pub fn entry_count(&self, layer: usize, node: usize) -> (n: usize)
        requires
            layer < self.ds().len(),
            node < self.ds()[layer as int].len(),
        ensures
            n == self.ds()[layer as int][node as int].len(),
    {
        self.data_structure[layer][node].len()
    }

    /// Entry `e` of node `node` of layer `layer`.
    pub fn entry(&self, layer: usize, node: usize, e: usize) -> (r: BlockIdOrPointer)
        requires
            layer < self.ds().len(),
            node < self.ds()[layer as int].len(),
            e < self.ds()[layer as int][node as int].len(),
        ensures
            r == self.ds()[layer as int][node as int][e as int],
    {
        self.data_structure[layer][node][e]
    }

    /// The block at `pos`.
    pub fn get_block(&self, pos: &LocalBlockPos) -> (b: BlockId)
        requires
            self.shape_ok(),
        ensures
            b == self.view_at(*pos),
    {
        let mut ptr: usize = 0;
        let mut i: usize = 0;
        loop
            invariant
                self.shape_ok(),
                0 <= i < Depth,
                ptr < self.ds()[i as int].len(),
                Self::t_lookup(self.ds(), i as int, ptr as int, *pos) == self.view_at(*pos),
            decreases Depth - i,
        {
            let index = Self::what_index(pos, i);
            proof {
                assert(Self::t_slot(self.ds(), i as int, ptr as int, index as int));
                assert(self.ds()[i as int][ptr as int][index as int]
                    == self.data_structure@[i as int]@[ptr as int]@[index as int]);
            }
            match self.data_structure[i][ptr][index] {
                BlockIdOrPointer::Id(id) => return id,
                BlockIdOrPointer::Ptr(p) => {
                    ptr = p as usize;
                    i = i + 1;
                },
            }
        }
    }

    /// Entry `e` of node `n` of layer `l` becomes `v`.
    fn set_entry(&mut self, l: usize, n: usize, e: usize, v: BlockIdOrPointer)
        requires
            l < old(self).ds().len(),
            n < old(self).ds()[l as int].len(),
            e < old(self).ds()[l as int][n as int].len(),
        ensures
            final(self).ds() == old(self).ds().update(
                l as int,
                old(self).ds()[l as int].update(
                    n as int,
                    old(self).ds()[l as int][n as int].update(e as int, v),
                ),
            ),
    {
        self.data_structure[l][n][e] = v;
        proof {
            let t0 = old(self).ds();
            let t1 = self.ds();
            let exp = t0.update(l as int, t0[l as int].update(n as int, t0[l as int][n as int].update(e as int, v)));
            assert forall|i: int| 0 <= i < t1.len() implies #[trigger] t1[i] == exp[i] by {
                if i == l {
                    assert(t1[i] =~= exp[i]);
                }
            }
            assert(t1 =~= exp);
        }
    }

    /// A node of `BlockSizeCubed` copies of `v` is appended to layer `l`.
    fn push_node(&mut self, l: usize, v: BlockIdOrPointer)
        requires
            l < old(self).ds().len(),
        ensures
            final(self).ds() == old(self).ds().update(
                l as int,
                old(self).ds()[l as int].push(Seq::new(BlockSizeCubed as nat, |k: int| v)),
            ),
    {
        let mut node: Vec<BlockIdOrPointer> = Vec::new();
        let mut k: usize = 0;
        while k < BlockSizeCubed
            invariant
                k <= BlockSizeCubed,
                node@ =~= Seq::new(k as nat, |i: int| v),
            decreases BlockSizeCubed - k,
        {
            node.push(v);
            k = k + 1;
        }
        self.data_structure[l].push(node);
        proof {
            let t0 = old(self).ds();
            let t1 = self.ds();
            let exp = t0.update(l as int, t0[l as int].push(Seq::new(BlockSizeCubed as nat, |k: int| v)));
            assert forall|i: int| 0 <= i < t1.len() implies #[trigger] t1[i] == exp[i] by {
                if i == l {
                    assert(t1[i] =~= exp[i]);
                }
            }
            assert(t1 =~= exp);
        }
    }

    /// Node `k` of layer `l` is removed; later nodes move down by one.
    fn remove_node(&mut self, l: usize, k: usize)
        requires
            l < old(self).ds().len(),
            k < old(self).ds()[l as int].len(),
        ensures
            final(self).ds() == old(self).ds().update(l as int, old(self).ds()[l as int].remove(k as int)),
    {
        self.data_structure[l].remove(k);
        proof {
            let t0 = old(self).ds();
            let t1 = self.ds();
            let exp = t0.update(l as int, t0[l as int].remove(k as int));
            assert forall|i: int| 0 <= i < t1.len() implies #[trigger] t1[i] == exp[i] by {
                if i == l {
                    assert(t1[i] =~= exp[i]);
                }
            }
            assert(t1 =~= exp);
        }
    }

    /// Whether every entry of node `n` of layer `l` equals its first entry.
    fn node_all_same(&self, l: usize, n: usize) -> (r: bool)
        requires
            l < self.ds().len(),
            n < self.ds()[l as int].len(),
            self.ds()[l as int][n as int].len() >= 1,
        ensures
            r == (forall|e: int|
                0 <= e < self.ds()[l as int][n as int].len() ==> #[trigger] self.ds()[l as int][n as int][e]
                    == self.ds()[l as int][n as int][0]),
    {
        let node = &self.data_structure[l][n];
        let first = node[0];
        let mut k: usize = 0;
        proof {
            assert(node@ == self.ds()[l as int][n as int]);
        }
        while k < node.len()
            invariant
                k <= node@.len(),
                node@ == self.ds()[l as int][n as int],
                first == node@[0],
                forall|e: int| 0 <= e < k ==> node@[e] == first,
            decreases node@.len() - k,
        {
            if node[k] != first {
                return false;
            }
            k = k + 1;
        }
        true
    }

    /// The entries of node `n` of layer `l` that point past `k` point one node lower.
    fn renumber_node(&mut self, l: usize, n: usize, k: u32)
        requires
            l < old(self).ds().len(),
            n < old(self).ds()[l as int].len(),
        ensures
            final(self).ds() == old(self).ds().update(
                l as int,
                old(self).ds()[l as int].update(n as int, Self::renumbered(old(self).ds()[l as int][n as int], k)),
            ),
    {
        let len = self.data_structure[l][n].len();
        let mut pp: usize = 0;
        let ghost t0 = self.ds();
        while pp < len
            invariant
                l < t0.len(),
                n < t0[l as int].len(),
                len == t0[l as int][n as int].len(),
                pp <= len,
                self.ds().len() == t0.len(),
                forall|i: int| 0 <= i < t0.len() && i != l ==> #[trigger] self.ds()[i] == t0[i],
                self.ds()[l as int].len() == t0[l as int].len(),
                forall|m: int| 0 <= m < t0[l as int].len() && m != n ==> #[trigger] self.ds()[l as int][m] == t0[l as int][m],
                self.ds()[l as int][n as int].len() == len,
                forall|e: int| 0 <= e < pp ==> #[trigger] self.ds()[l as int][n as int][e] == Self::renumbered(t0[l as int][n as int], k)[e],
                forall|e: int| pp <= e < len ==> #[trigger] self.ds()[l as int][n as int][e] == t0[l as int][n as int][e],
            decreases len - pp,
        {
            proof {
                assert(self.ds()[l as int][n as int][pp as int] == self.data_structure@[l as int]@[n as int]@[pp as int]);
            }
            if let BlockIdOrPointer::Ptr(x) = self.data_structure[l][n][pp] {
                if x > k {
                    self.set_entry(l, n, pp, BlockIdOrPointer::Ptr(x - 1));
                }
            }
            pp = pp + 1;
        }
        proof {
            let exp = t0.update(l as int, t0[l as int].update(n as int, Self::renumbered(t0[l as int][n as int], k)));
            assert(self.ds()[l as int][n as int] =~= exp[l as int][n as int]);
            assert(self.ds()[l as int] =~= exp[l as int]);
            assert(self.ds() =~= exp);
        }
    }

    /// A node whose pointers past `k` point one node lower.
    pub open spec fn renumbered(node: Seq<BlockIdOrPointer>, k: u32) -> Seq<BlockIdOrPointer> {
        node.map_values(|x: BlockIdOrPointer| match x {
            BlockIdOrPointer::Ptr(y) => if y > k { BlockIdOrPointer::Ptr((y - 1) as u32) } else { x },
            BlockIdOrPointer::Id(_) => x,
        })
    }

    /// The node of layer `l` on the way from the root to `pos`, or -1 once the
    /// way has ended at a block.
    pub open spec fn t_path(t: Seq<Seq<Seq<BlockIdOrPointer>>>, pos: LocalBlockPos, l: int) -> int
        decreases l,
    {
        if l <= 0 {
            0
        } else {
            let prev = Self::t_path(t, pos, l - 1);
            if prev < 0 {
                -1
            } else {
                match t[l - 1][prev][Self::child_index(pos, l - 1)] {
                    BlockIdOrPointer::Ptr(p) => p as int,
                    BlockIdOrPointer::Id(_) => -1,
                }
            }
        }
    }

    /// The layers after a node of copies of `Id(id)` is appended to layer `i + 1`
    /// and entry `e` of node `n` of layer `i` is made to point to it.
    pub open spec fn t_expanded(
        t: Seq<Seq<Seq<BlockIdOrPointer>>>,
        i: int,
        n: int,
        e: int,
        id: BlockId,
    ) -> Seq<Seq<Seq<BlockIdOrPointer>>> {
        let t_pushed = t.update(
            i + 1,
            t[i + 1].push(Seq::new(BlockSizeCubed as nat, |k: int| BlockIdOrPointer::Id(id))),
        );
        t_pushed.update(
            i,
            t_pushed[i].update(n, t_pushed[i][n].update(e, BlockIdOrPointer::Ptr(t[i + 1].len() as u32))),
        )
    }

    /// Expanding an entry into a node of copies keeps the tree well formed.
    proof fn lemma_expand_wf(t: Seq<Seq<Seq<BlockIdOrPointer>>>, i: int, n: int, e: int, id: BlockId)
        requires
            Self::t_shape_ok(t),
            0 <= i,
            i + 1 < Depth,
            Self::t_slot(t, i, n, e),
            t[i][n][e] == BlockIdOrPointer::Id(id),
            t[i + 1].len() < u32::MAX,
        ensures
            Self::t_shape_ok(Self::t_expanded(t, i, n, e, id)),
            Self::t_unique(t) ==> Self::t_unique(Self::t_expanded(t, i, n, e, id)),
    {
        let t2 = Self::t_expanded(t, i, n, e, id);
        let len = t[i + 1].len();
        assert(t2.len() == Depth);
        assert forall|l: int| 0 <= l < Depth implies #[trigger] t2[l].len() <= u32::MAX by {
            if l == i + 1 {
                assert(t2[l].len() == len + 1);
            } else {
                assert(t2[l].len() == t[l].len());
            }
        }
        assert(t2[0].len() == 1) by {
            assert(t2[0].len() == t[0].len());
        }
        assert forall|l: int, m: int| 0 <= l < Depth && 0 <= m < t2[l].len()
            implies #[trigger] t2[l][m].len() == BlockSizeCubed by {
            if l == i + 1 && m == len {
            } else if l == i && m == n {
            } else {
                assert(t2[l][m] == t[l][m]);
            }
        }
        assert forall|l: int, m: int, x: int|
            #![trigger t2[l][m][x]]
            Self::t_slot(t2, l, m, x) implies match t2[l][m][x] {
                BlockIdOrPointer::Ptr(p) => l + 1 < Depth && p < t2[l + 1].len(),
                BlockIdOrPointer::Id(_) => true,
            } by {
            if l == i + 1 && m == len {
            } else if l == i && m == n && x == e {
            } else {
                assert(t2[l][m][x] == t[l][m][x]);
                assert(Self::t_slot(t, l, m, x));
                if l + 1 < Depth {
                    assert(t2[l + 1].len() >= t[l + 1].len());
                }
            }
        }
        if Self::t_unique(t) {
            assert forall|l: int, n1: int, e1: int, n2: int, e2: int|
                #![trigger t2[l][n1][e1], t2[l][n2][e2]]
                Self::t_slot(t2, l, n1, e1) && Self::t_slot(t2, l, n2, e2) && t2[l][n1][e1] is Ptr
                    && t2[l][n1][e1] == t2[l][n2][e2] implies n1 == n2 && e1 == e2 by {
                let new1 = l == i && n1 == n && e1 == e;
                let new2 = l == i && n2 == n && e2 == e;
                if l == i + 1 && (n1 == len || n2 == len) {
                } else if new1 && new2 {
                } else if new1 {
                    assert(t2[l][n2][e2] == t[l][n2][e2]);
                    assert(Self::t_slot(t, l, n2, e2));
                } else if new2 {
                    assert(t2[l][n1][e1] == t[l][n1][e1]);
                    assert(Self::t_slot(t, l, n1, e1));
                } else {
                    assert(t2[l][n1][e1] == t[l][n1][e1]);
                    assert(t2[l][n2][e2] == t[l][n2][e2]);
                    assert(Self::t_slot(t, l, n1, e1));
                    assert(Self::t_slot(t, l, n2, e2));
                }
            }
        }
    }

    /// Expanding an entry into a node of copies of its block changes no block.
    proof fn lemma_expand_lookup(
        t: Seq<Seq<Seq<BlockIdOrPointer>>>,
        i: int,
        n: int,
        e: int,
        id: BlockId,
        l: int,
    )
        requires
            Self::t_shape_ok(t),
            0 <= i,
            i + 1 < Depth,
            Self::t_slot(t, i, n, e),
            t[i][n][e] == BlockIdOrPointer::Id(id),
            0 <= l < Depth,
        ensures
            forall|m: int, q: LocalBlockPos|
                0 <= m < t[l].len() ==> #[trigger] Self::t_lookup(Self::t_expanded(t, i, n, e, id), l, m, q)
                    == Self::t_lookup(t, l, m, q),
        decreases Depth - l,
    {
        let t2 = Self::t_expanded(t, i, n, e, id);
        let len = t[i + 1].len();
        if l + 1 < Depth {
            Self::lemma_expand_lookup(t, i, n, e, id, l + 1);
        }
        assert forall|m: int, q: LocalBlockPos| 0 <= m < t[l].len() implies #[trigger] Self::t_lookup(
            t2,
            l,
            m,
            q,
        ) == Self::t_lookup(t, l, m, q) by {
            let c = Self::child_index(q, l);
            Self::lemma_child_index_bound(q, l);
            assert(Self::t_slot(t, l, m, c));
            if l == i && m == n && c == e {
                Self::lemma_child_index_bound(q, l + 1);
                assert(t2[l + 1][len as int][Self::child_index(q, l + 1)] == BlockIdOrPointer::Id(id));
                assert(Self::t_lookup(t2, l + 1, len as int, q) == id);
            } else {
                assert(t2[l][m][c] == t[l][m][c]);
                match t[l][m][c] {
                    BlockIdOrPointer::Ptr(p) => {
                        assert(p < t[l + 1].len());
                        assert(Self::t_lookup(t2, l + 1, p as int, q) == Self::t_lookup(t, l + 1, p as int, q));
                    },
                    BlockIdOrPointer::Id(_) => {},
                }
            }
        }
    }

    /// The layers with entry `e` of node `n` of layer `l` replaced by `v`.
    pub open spec fn t_written(
        t: Seq<Seq<Seq<BlockIdOrPointer>>>,
        l: int,
        n: int,
        e: int,
        v: BlockIdOrPointer,
    ) -> Seq<Seq<Seq<BlockIdOrPointer>>> {
        t.update(l, t[l].update(n, t[l][n].update(e, v)))
    }

    /// `q` and `pos` fall in the same entries from layer `l` down.
    pub open spec fn matches_from(q: LocalBlockPos, pos: LocalBlockPos, l: int) -> bool {
        forall|k: int| l <= k < Depth ==> #[trigger] Self::child_index(q, k) == Self::child_index(pos, k)
    }

    /// Along the way to `pos`, every node before layer `l` points to the next one.
    proof fn lemma_path_facts(t: Seq<Seq<Seq<BlockIdOrPointer>>>, pos: LocalBlockPos, l: int)
        requires
            Self::t_shape_ok(t),
            0 <= l < Depth,
            Self::t_path(t, pos, l) >= 0,
        ensures
            Self::t_path(t, pos, l) < t[l].len(),
            forall|k: int| 0 <= k <= l ==> #[trigger] Self::t_path(t, pos, k) >= 0,
            forall|k: int|
                0 <= k < l ==> #[trigger] t[k][Self::t_path(t, pos, k)][Self::child_index(pos, k)]
                    == BlockIdOrPointer::Ptr(Self::t_path(t, pos, k + 1) as u32),
        decreases l,
    {
        if l > 0 {
            let prev = Self::t_path(t, pos, l - 1);
            assert(prev >= 0);
            Self::lemma_path_facts(t, pos, l - 1);
            Self::lemma_child_index_bound(pos, l - 1);
            assert(Self::t_slot(t, l - 1, prev, Self::child_index(pos, l - 1)));
            assert forall|k: int| 0 <= k < l implies #[trigger] t[k][Self::t_path(t, pos, k)][Self::child_index(pos, k)]
                == BlockIdOrPointer::Ptr(Self::t_path(t, pos, k + 1) as u32) by {
                if k == l - 1 {
                    match t[k][prev][Self::child_index(pos, k)] {
                        BlockIdOrPointer::Ptr(p) => {},
                        BlockIdOrPointer::Id(_) => {},
                    }
                }
            }
        }
    }

    /// Writing a block into the entry at the end of the way to `pos` keeps the
    /// tree well formed.
    proof fn lemma_leaf_write_wf(t: Seq<Seq<Seq<BlockIdOrPointer>>>, n: int, e: int, b: BlockId)
        requires
            Self::t_shape_ok(t),
            Self::t_slot(t, Depth - 1, n, e),
        ensures
            Self::t_shape_ok(Self::t_written(t, Depth - 1, n, e, BlockIdOrPointer::Id(b))),
            Self::t_unique(t) ==> Self::t_unique(Self::t_written(t, Depth - 1, n, e, BlockIdOrPointer::Id(b))),
    {
        let t2 = Self::t_written(t, Depth - 1, n, e, BlockIdOrPointer::Id(b));
        let d = Depth - 1;
        assert forall|l: int| 0 <= l < Depth implies #[trigger] t2[l].len() == t[l].len() by {}
        assert forall|l: int, m: int| 0 <= l < Depth && 0 <= m < t2[l].len()
            implies #[trigger] t2[l][m].len() == BlockSizeCubed by {
            if !(l == d && m == n) {
                assert(t2[l][m] == t[l][m]);
            }
        }
        assert forall|l: int, m: int, x: int|
            #![trigger t2[l][m][x]]
            Self::t_slot(t2, l, m, x) implies match t2[l][m][x] {
                BlockIdOrPointer::Ptr(p) => l + 1 < Depth && p < t2[l + 1].len(),
                BlockIdOrPointer::Id(_) => true,
            } by {
            if !(l == d && m == n && x == e) {
                assert(t2[l][m][x] == t[l][m][x]);
                assert(Self::t_slot(t, l, m, x));
            }
        }
        if Self::t_unique(t) {
            assert forall|l: int, n1: int, e1: int, n2: int, e2: int|
                #![trigger t2[l][n1][e1], t2[l][n2][e2]]
                Self::t_slot(t2, l, n1, e1) && Self::t_slot(t2, l, n2, e2) && t2[l][n1][e1] is Ptr
                    && t2[l][n1][e1] == t2[l][n2][e2] implies n1 == n2 && e1 == e2 by {
                if !(l == d && n1 == n && e1 == e) && !(l == d && n2 == n && e2 == e) {
                    assert(t2[l][n1][e1] == t[l][n1][e1]);
                    assert(t2[l][n2][e2] == t[l][n2][e2]);
                    assert(Self::t_slot(t, l, n1, e1));
                    assert(Self::t_slot(t, l, n2, e2));
                }
            }
        }
    }

    /// After writing `b` at the end of the way to `pos`, exactly the positions
    /// that share `pos`'s entries from layer `l` down read `b` from the node of
    /// layer `l` on that way.
    proof fn lemma_leaf_write_lookup(t: Seq<Seq<Seq<BlockIdOrPointer>>>, pos: LocalBlockPos, b: BlockId, l: int)
        requires
            Self::t_wf(t),
            Self::t_path(t, pos, Depth - 1) >= 0,
            0 <= l < Depth,
        ensures
            forall|m: int, q: LocalBlockPos|
                0 <= m < t[l].len() ==> #[trigger] Self::t_lookup(
                    Self::t_written(
                        t,
                        Depth - 1,
                        Self::t_path(t, pos, Depth - 1),
                        Self::child_index(pos, Depth - 1),
                        BlockIdOrPointer::Id(b),
                    ),
                    l,
                    m,
                    q,
                ) == (if m == Self::t_path(t, pos, l) && Self::matches_from(q, pos, l) {
                    b
                } else {
                    Self::t_lookup(t, l, m, q)
                }),
        decreases Depth - l,
    {
        let d = Depth - 1;
        let ns = Self::t_path(t, pos, d);
        let es = Self::child_index(pos, d);
        let t2 = Self::t_written(t, d, ns, es, BlockIdOrPointer::Id(b));
        Self::lemma_path_facts(t, pos, d);
        Self::lemma_child_index_bound(pos, d);
        if l + 1 < Depth {
            Self::lemma_leaf_write_lookup(t, pos, b, l + 1);
        }
        assert forall|m: int, q: LocalBlockPos| 0 <= m < t[l].len() implies #[trigger] Self::t_lookup(
            t2,
            l,
            m,
            q,
        ) == (if m == Self::t_path(t, pos, l) && Self::matches_from(q, pos, l) {
            b
        } else {
            Self::t_lookup(t, l, m, q)
        }) by {
            let c = Self::child_index(q, l);
            Self::lemma_child_index_bound(q, l);
            assert(Self::t_slot(t, l, m, c));
            if l == d {
                if m == ns && c == es {
                    assert(Self::matches_from(q, pos, l));
                    assert(Self::t_lookup(t2, l, m, q) == b);
                } else {
                    assert(t2[l][m][c] == t[l][m][c]);
                    if m == ns && Self::matches_from(q, pos, l) {
                        assert(Self::child_index(q, d) == Self::child_index(pos, d));
                    }
                }
            } else {
                assert(t2[l][m][c] == t[l][m][c]);
                let pl = Self::t_path(t, pos, l);
                let pn = Self::t_path(t, pos, l + 1);
                assert(t[l][pl][Self::child_index(pos, l)] == BlockIdOrPointer::Ptr(pn as u32));
                assert(Self::t_path(t, pos, l + 1) >= 0);
                Self::lemma_path_facts(t, pos, l + 1);
                Self::lemma_path_facts(t, pos, l);
                Self::lemma_child_index_bound(pos, l);
                assert(Self::t_slot(t, l, pl, Self::child_index(pos, l)));
                match t[l][m][c] {
                    BlockIdOrPointer::Ptr(p) => {
                        assert(p < t[l + 1].len());
                        if p == pn {
                            assert(m == pl && c == Self::child_index(pos, l));
                        }
                        if m == pl && Self::matches_from(q, pos, l) {
                            assert(c == Self::child_index(pos, l));
                        }
                        if Self::matches_from(q, pos, l + 1) && m == pl && c == Self::child_index(pos, l) {
                            assert(Self::matches_from(q, pos, l));
                        }
                        assert((p == pn && Self::matches_from(q, pos, l + 1)) == (m == pl && Self::matches_from(q, pos, l)));
                        assert(Self::t_lookup(t2, l, m, q) == Self::t_lookup(t2, l + 1, p as int, q));
                        assert(Self::t_lookup(t, l, m, q) == Self::t_lookup(t, l + 1, p as int, q));
                    },
                    BlockIdOrPointer::Id(x) => {
                        if m == pl && Self::matches_from(q, pos, l) {
                            assert(c == Self::child_index(pos, l));
                        }
                    },
                }
            }
        }
    }

    /// The layers after node `k` of layer `j` is removed and entry `e` of its
    /// parent, node `p` of layer `j - 1`, holds `Id(b)` in place of the pointer;
    /// the parent's pointers past `k` are lowered by one.
    pub open spec fn t_compacted(
        t: Seq<Seq<Seq<BlockIdOrPointer>>>,
        j: int,
        p: int,
        k: int,
        e: int,
        b: BlockId,
    ) -> Seq<Seq<Seq<BlockIdOrPointer>>> {
        let t1 = t.update(j, t[j].remove(k));
        t1.update(
            j - 1,
            t1[j - 1].update(p, Self::renumbered(t1[j - 1][p].update(e, BlockIdOrPointer::Id(b)), k as u32)),
        )
    }

    /// The index that node `n` of layer `l` has once node `k` of layer `j` is removed.
    pub open spec fn shifted(l: int, j: int, k: int, n: int) -> int {
        if l == j && n > k {
            n - 1
        } else {
            n
        }
    }

    /// Conditions under which the compaction of node `k` keeps the tree and its blocks.
    pub open spec fn compactable(
        t: Seq<Seq<Seq<BlockIdOrPointer>>>,
        j: int,
        p: int,
        k: int,
        e: int,
        b: BlockId,
    ) -> bool {
        &&& Self::t_wf(t)
        &&& 1 <= j < Depth
        &&& 0 <= p < t[j - 1].len()
        &&& 0 <= e < BlockSizeCubed
        &&& t[j - 1][p][e] == BlockIdOrPointer::Ptr(k as u32)
        &&& 0 <= k < t[j].len()
        &&& forall|x: int| 0 <= x < BlockSizeCubed ==> #[trigger] t[j][k][x] == BlockIdOrPointer::Id(b)
        &&& forall|m: int, x: int|
            #![trigger t[j - 1][m][x]]
            0 <= m < t[j - 1].len() && m != p && 0 <= x < BlockSizeCubed && t[j - 1][m][x] is Ptr
                ==> t[j - 1][m][x]->Ptr_0 < k
    }

    proof fn lemma_compact_entries(
        t: Seq<Seq<Seq<BlockIdOrPointer>>>,
        j: int,
        p: int,
        k: int,
        e: int,
        b: BlockId,
    )
        requires
            Self::compactable(t, j, p, k, e, b),
        ensures
            ({
                let t2 = Self::t_compacted(t, j, p, k, e, b);
                &&& t2.len() == Depth
                &&& k < t[j].len()
                &&& t2[j].len() == t[j].len() - 1
                &&& forall|l: int| 0 <= l < Depth && l != j ==> #[trigger] t2[l].len() == t[l].len()
                &&& forall|l: int| 0 <= l < Depth && l != j && l != j - 1 ==> #[trigger] t2[l] == t[l]
                &&& forall|m: int| 0 <= m < t[j].len() && m != k ==> #[trigger] t2[j][Self::shifted(j, j, k, m)] == t[j][m]
                &&& forall|m: int| 0 <= m < t[j - 1].len() && m != p ==> #[trigger] t2[j - 1][m] == t[j - 1][m]
                &&& t2[j - 1][p].len() == BlockSizeCubed
                &&& t2[j - 1][p][e] == BlockIdOrPointer::Id(b)
                &&& forall|x: int| 0 <= x < BlockSizeCubed && x != e ==> #[trigger] t2[j - 1][p][x] == match t[j - 1][p][x] {
                    BlockIdOrPointer::Ptr(y) => BlockIdOrPointer::Ptr(Self::shifted(j, j, k, y as int) as u32),
                    BlockIdOrPointer::Id(c) => BlockIdOrPointer::Id(c),
                }
            }),
    {
        let t2 = Self::t_compacted(t, j, p, k, e, b);
        assert(Self::t_slot(t, j - 1, p, e));
        assert(k < t[j].len());
        t[j].remove_ensures(k);
        assert(k <= u32::MAX);
        assert((k as u32) as int == k);
        assert forall|m: int| 0 <= m < t[j].len() && m != k implies #[trigger] t2[j][Self::shifted(j, j, k, m)] == t[j][m] by {}
        assert forall|x: int| 0 <= x < BlockSizeCubed && x != e implies #[trigger] t2[j - 1][p][x] == match t[j - 1][p][x] {
            BlockIdOrPointer::Ptr(y) => BlockIdOrPointer::Ptr(Self::shifted(j, j, k, y as int) as u32),
            BlockIdOrPointer::Id(c) => BlockIdOrPointer::Id(c),
        } by {
            assert(Self::t_slot(t, j - 1, p, x));
        }
    }

    /// Removing a node whose entries all hold `b`, with its parent entry made
    /// `Id(b)`, changes no block: every other node reads as before under its
    /// new index.
    proof fn lemma_compact_lookup(
        t: Seq<Seq<Seq<BlockIdOrPointer>>>,
        j: int,
        p: int,
        k: int,
        e: int,
        b: BlockId,
        l: int,
    )
        requires
            Self::compactable(t, j, p, k, e, b),
            0 <= l < Depth,
        ensures
            forall|n: int, q: LocalBlockPos|
                0 <= n < t[l].len() && !(l == j && n == k) ==> #[trigger] Self::t_lookup(
                    Self::t_compacted(t, j, p, k, e, b),
                    l,
                    Self::shifted(l, j, k, n),
                    q,
                ) == Self::t_lookup(t, l, n, q),
        decreases Depth - l,
    {
        let t2 = Self::t_compacted(t, j, p, k, e, b);
        Self::lemma_compact_entries(t, j, p, k, e, b);
        if l + 1 < Depth {
            Self::lemma_compact_lookup(t, j, p, k, e, b, l + 1);
        }
        assert forall|n: int, q: LocalBlockPos|
            0 <= n < t[l].len() && !(l == j && n == k) implies #[trigger] Self::t_lookup(
                t2,
                l,
                Self::shifted(l, j, k, n),
                q,
            ) == Self::t_lookup(t, l, n, q) by {
            let c = Self::child_index(q, l);
            Self::lemma_child_index_bound(q, l);
            assert(Self::t_slot(t, l, n, c));
            let n2 = Self::shifted(l, j, k, n);
            if l == j - 1 && n == p && c == e {
                Self::lemma_child_index_bound(q, j);
                assert(t[j][k][Self::child_index(q, j)] == BlockIdOrPointer::Id(b));
                assert(Self::t_lookup(t, j, k, q) == b);
            } else {
                if l == j - 1 && n == p {
                } else if l == j {
                    assert(t2[l][n2] == t[l][n]);
                } else if l == j - 1 {
                    assert(t2[l][n] == t[l][n]);
                } else {
                    assert(t2[l] == t[l]);
                }
                match t[l][n][c] {
                    BlockIdOrPointer::Ptr(y) => {
                        assert(y < t[l + 1].len());
                        if l + 1 == j {
                            if n == p {
                                assert(y != k) by {
                                    assert(Self::t_slot(t, j - 1, p, e));
                                }
                            } else {
                                assert(y < k);
                            }
                            assert(t2[l][n2][c] == BlockIdOrPointer::Ptr(Self::shifted(l + 1, j, k, y as int) as u32));
                        } else {
                            assert(t2[l][n2][c] == BlockIdOrPointer::Ptr(y));
                        }
                        assert(Self::t_lookup(t2, l + 1, Self::shifted(l + 1, j, k, y as int), q)
                            == Self::t_lookup(t, l + 1, y as int, q));
                        assert(Self::t_lookup(t, l, n, q) == Self::t_lookup(t, l + 1, y as int, q));
                        assert(Self::t_lookup(t2, l, n2, q) == Self::t_lookup(t2, l + 1, Self::shifted(l + 1, j, k, y as int), q));
                    },
                    BlockIdOrPointer::Id(x) => {
                        assert(t2[l][n2][c] == BlockIdOrPointer::Id(x));
                    },
                }
            }
        }
    }

    /// Removing a node whose entries all hold a block, and renumbering its
    /// parent, keeps the tree well formed when no other node points past it.
    proof fn lemma_compact_wf(
        t: Seq<Seq<Seq<BlockIdOrPointer>>>,
        j: int,
        p: int,
        k: int,
        e: int,
        b: BlockId,
    )
        requires
            Self::compactable(t, j, p, k, e, b),
        ensures
            Self::t_wf(Self::t_compacted(t, j, p, k, e, b)),
    {
        let t2 = Self::t_compacted(t, j, p, k, e, b);
        Self::lemma_compact_entries(t, j, p, k, e, b);
        let len = t[j].len();
        // where an entry of the new layers comes from
        assert forall|l: int, m: int| 0 <= l < Depth && 0 <= m < t2[l].len()
            implies #[trigger] t2[l][m].len() == BlockSizeCubed by {
            if l == j {
                let m0 = if m < k { m } else { m + 1 };
                assert(t2[j][Self::shifted(j, j, k, m0)] == t[j][m0]);
            } else if l == j - 1 && m != p {
                assert(t2[l][m] == t[l][m]);
            } else if l != j - 1 {
                assert(t2[l] == t[l]);
            }
        }
        assert forall|l: int| 0 <= l < Depth implies #[trigger] t2[l].len() <= u32::MAX by {
            if l != j {
                assert(t2[l].len() == t[l].len());
            }
        }
        assert(t2[0].len() == 1) by {
            assert(t2[0].len() == t[0].len());
        }
        assert forall|l: int, m: int, x: int|
            #![trigger t2[l][m][x]]
            Self::t_slot(t2, l, m, x) implies match t2[l][m][x] {
                BlockIdOrPointer::Ptr(y) => l + 1 < Depth && y < t2[l + 1].len(),
                BlockIdOrPointer::Id(_) => true,
            } by {
            if l == j {
                let m0 = if m < k { m } else { m + 1 };
                assert(t2[j][Self::shifted(j, j, k, m0)] == t[j][m0]);
                assert(Self::t_slot(t, j, m0, x));
                if j + 1 < Depth {
                    assert(t2[j + 1] == t[j + 1]);
                }
            } else if l == j - 1 && m == p {
                if x != e {
                    assert(Self::t_slot(t, l, p, x));
                    match t[l][p][x] {
                        BlockIdOrPointer::Ptr(y) => {
                            assert(y != k) by {
                                assert(Self::t_slot(t, j - 1, p, e));
                            }
                        },
                        BlockIdOrPointer::Id(_) => {},
                    }
                }
            } else if l == j - 1 {
                assert(t2[l][m] == t[l][m]);
                assert(Self::t_slot(t, l, m, x));
            } else {
                assert(t2[l] == t[l]);
                assert(Self::t_slot(t, l, m, x));
                if l + 1 < Depth && l + 1 != j {
                    assert(t2[l + 1].len() == t[l + 1].len());
                }
            }
        }
        assert forall|l: int, n1: int, e1: int, n2: int, e2: int|
            #![trigger t2[l][n1][e1], t2[l][n2][e2]]
            Self::t_slot(t2, l, n1, e1) && Self::t_slot(t2, l, n2, e2) && t2[l][n1][e1] is Ptr
                && t2[l][n1][e1] == t2[l][n2][e2] implies n1 == n2 && e1 == e2 by {
            if l == j {
                let a1 = if n1 < k { n1 } else { n1 + 1 };
                let a2 = if n2 < k { n2 } else { n2 + 1 };
                assert(t2[j][Self::shifted(j, j, k, a1)] == t[j][a1]);
                assert(t2[j][Self::shifted(j, j, k, a2)] == t[j][a2]);
                assert(Self::t_slot(t, l, a1, e1));
                assert(Self::t_slot(t, l, a2, e2));
            } else if l == j - 1 {
                if n1 == p && n2 == p {
                    assert(Self::t_slot(t, l, p, e1));
                    assert(Self::t_slot(t, l, p, e2));
                    assert(Self::t_slot(t, l, p, e));
                } else if n1 == p {
                    assert(Self::t_slot(t, l, p, e1));
                    assert(Self::t_slot(t, l, n2, e2));
                    assert(Self::t_slot(t, l, p, e));
                    assert(t2[l][n2] == t[l][n2]);
                } else if n2 == p {
                    assert(Self::t_slot(t, l, p, e2));
                    assert(Self::t_slot(t, l, n1, e1));
                    assert(Self::t_slot(t, l, p, e));
                    assert(t2[l][n1] == t[l][n1]);
                } else {
                    assert(t2[l][n1] == t[l][n1]);
                    assert(t2[l][n2] == t[l][n2]);
                    assert(Self::t_slot(t, l, n1, e1));
                    assert(Self::t_slot(t, l, n2, e2));
                }
            } else {
                assert(t2[l] == t[l]);
                assert(Self::t_slot(t, l, n1, e1));
                assert(Self::t_slot(t, l, n2, e2));
            }
        }
    }

    /// The way to `pos` down to layer `l` only reads the layers above `l`.
    proof fn lemma_path_prefix(
        t1: Seq<Seq<Seq<BlockIdOrPointer>>>,
        t2: Seq<Seq<Seq<BlockIdOrPointer>>>,
        pos: LocalBlockPos,
        l: int,
    )
        requires
            forall|k: int| 0 <= k < l ==> #[trigger] t1[k] == t2[k],
        ensures
            forall|k: int| k <= l ==> #[trigger] Self::t_path(t1, pos, k) == Self::t_path(t2, pos, k),
        decreases l,
    {
        if l > 0 {
            Self::lemma_path_prefix(t1, t2, pos, l - 1);
            assert(t1[l - 1] == t2[l - 1]);
        }
        assert forall|k: int| k <= l implies #[trigger] Self::t_path(t1, pos, k) == Self::t_path(t2, pos, k) by {
            if k == l && l > 0 {
                assert(Self::t_path(t1, pos, l - 1) == Self::t_path(t2, pos, l - 1));
            }
        }
    }

    /// Reading `pos` from the root gives what the node of layer `l` on its way gives.
    proof fn lemma_path_lookup(t: Seq<Seq<Seq<BlockIdOrPointer>>>, pos: LocalBlockPos, l: int)
        requires
            Self::t_shape_ok(t),
            0 <= l < Depth,
            Self::t_path(t, pos, l) >= 0,
        ensures
            Self::t_lookup(t, 0, 0, pos) == Self::t_lookup(t, l, Self::t_path(t, pos, l), pos),
        decreases l,
    {
        if l > 0 {
            Self::lemma_path_facts(t, pos, l);
            Self::lemma_path_lookup(t, pos, l - 1);
            let prev = Self::t_path(t, pos, l - 1);
            assert(t[l - 1][prev][Self::child_index(pos, l - 1)]
                == BlockIdOrPointer::Ptr(Self::t_path(t, pos, l) as u32));
        }
    }

    /// Positions filed under the same entries read the same block.
    proof fn lemma_same_cell_lookup(
        t: Seq<Seq<Seq<BlockIdOrPointer>>>,
        q: LocalBlockPos,
        pos: LocalBlockPos,
        l: int,
        n: int,
    )
        requires
            Self::same_cell(q, pos),
            0 <= l,
        ensures
            Self::t_lookup(t, l, n, q) == Self::t_lookup(t, l, n, pos),
        decreases Depth - l,
    {
        if l < Depth {
            assert(Self::child_index(q, l) == Self::child_index(pos, l));
            match t[l][n][Self::child_index(pos, l)] {
                BlockIdOrPointer::Ptr(p) => {
                    Self::lemma_same_cell_lookup(t, q, pos, l + 1, p as int);
                },
                BlockIdOrPointer::Id(_) => {},
            }
        }
    }

    /// All entries but the one on the way to `pos` of the node of layer `l` on
    /// that way hold `Id(b)`.
    pub open spec fn t_uniform_after(t: Seq<Seq<Seq<BlockIdOrPointer>>>, pos: LocalBlockPos, b: BlockId, l: int) -> bool {
        forall|x: int|
            0 <= x < BlockSizeCubed && x != Self::child_index(pos, l)
                ==> #[trigger] t[l][Self::t_path(t, pos, l)][x] == BlockIdOrPointer::Id(b)
    }

    /// Writing `b` at `pos` makes the nodes of layers `j` and below on its way
    /// hold nothing but `b`, so that the write merges them away.
    pub open spec fn t_merges_from(t: Seq<Seq<Seq<BlockIdOrPointer>>>, pos: LocalBlockPos, b: BlockId, j: int) -> bool {
        forall|l: int| j <= l < Depth ==> #[trigger] Self::t_uniform_after(t, pos, b, l)
    }

    /// No node of layer `j - 1` but the one on the way to `pos` points past the
    /// node of layer `j` on that way.
    pub open spec fn t_no_stale(t: Seq<Seq<Seq<BlockIdOrPointer>>>, pos: LocalBlockPos, j: int) -> bool {
        forall|m: int, x: int|
            #![trigger t[j - 1][m][x]]
            0 <= m < t[j - 1].len() && m != Self::t_path(t, pos, j - 1) && 0 <= x < BlockSizeCubed
                && t[j - 1][m][x] is Ptr ==> t[j - 1][m][x]->Ptr_0 < Self::t_path(t, pos, j)
    }

    /// Writing `b` at `pos` keeps every other block: each node that the write
    /// merges away, below layer 1, is the last one that any node of the layer
    /// above points to, apart from its own parent.
    pub open spec fn t_set_safe(t: Seq<Seq<Seq<BlockIdOrPointer>>>, pos: LocalBlockPos, b: BlockId) -> bool {
        let leaf = Self::t_path(t, pos, Depth - 1);
        leaf >= 0 && t[Depth - 1][leaf][Self::child_index(pos, Depth - 1)] != BlockIdOrPointer::Id(b) ==> forall|j: int|
            2 <= j < Depth && #[trigger] Self::t_merges_from(t, pos, b, j) ==> Self::t_no_stale(t, pos, j)
    }

    /// Writing `block` at `pos` keeps every other block of the chunk.
    pub closed spec fn set_is_safe(&self, block: BlockId, pos: LocalBlockPos) -> bool {
        Self::t_set_safe(self.ds(), pos, block)
    }

    /// Every layer has room for one more node.
    pub open spec fn t_room(t: Seq<Seq<Seq<BlockIdOrPointer>>>) -> bool {
        forall|l: int| 0 <= l < Depth ==> #[trigger] t[l].len() < u32::MAX
    }

    /// All entries of node `n` of layer `l` equal its first one.
    pub open spec fn t_node_uniform(t: Seq<Seq<Seq<BlockIdOrPointer>>>, l: int, n: int) -> bool {
        forall|x: int| 0 <= x < BlockSizeCubed ==> #[trigger] t[l][n][x] == t[l][n][0]
    }

    /// The layers after the nodes on the way to `pos`, from layer `j` up to
    /// layer 1, that hold a single block are merged into their parents; the
    /// merging stops at the first node that holds more than one entry value.
    pub open spec fn t_merge(t: Seq<Seq<Seq<BlockIdOrPointer>>>, pos: LocalBlockPos, j: int) -> Seq<
        Seq<Seq<BlockIdOrPointer>>,
    >
        decreases j,
    {
        if j <= 0 {
            t
        } else {
            let n = Self::t_path(t, pos, j);
            if Self::t_node_uniform(t, j, n) {
                match t[j][n][0] {
                    BlockIdOrPointer::Id(c) => Self::t_merge(
                        Self::t_compacted(t, j, Self::t_path(t, pos, j - 1), n, Self::child_index(pos, j - 1), c),
                        pos,
                        j - 1,
                    ),
                    BlockIdOrPointer::Ptr(_) => t,
                }
            } else {
                t
            }
        }
    }

    /// The layers after writing `b` at `pos`, continuing from node `n` of
    /// layer `i` on the way to `pos`.
    pub open spec fn t_descend(
        t: Seq<Seq<Seq<BlockIdOrPointer>>>,
        b: BlockId,
        pos: LocalBlockPos,
        i: int,
        n: int,
    ) -> Seq<Seq<Seq<BlockIdOrPointer>>>
        decreases Depth - i,
    {
        if i < 0 || i >= Depth {
            t
        } else {
            let idx = Self::child_index(pos, i);
            match t[i][n][idx] {
                BlockIdOrPointer::Id(id) => if id == b {
                    t
                } else if i == Depth - 1 {
                    Self::t_merge(Self::t_written(t, i, n, idx, BlockIdOrPointer::Id(b)), pos, Depth - 1)
                } else {
                    Self::t_descend(Self::t_expanded(t, i, n, idx, id), b, pos, i + 1, t[i + 1].len() as int)
                },
                BlockIdOrPointer::Ptr(p) => Self::t_descend(t, b, pos, i + 1, p as int),
            }
        }
    }

    /// The layers after writing `b` at `pos`.
    pub open spec fn t_set(t: Seq<Seq<Seq<BlockIdOrPointer>>>, b: BlockId, pos: LocalBlockPos) -> Seq<
        Seq<Seq<BlockIdOrPointer>>,
    > {
        Self::t_descend(t, b, pos, 0, 0)
    }

    /// Node `n` of layer `l` is pointed to by an entry of layer `l - 1`.
    pub open spec fn t_has_parent(t: Seq<Seq<Seq<BlockIdOrPointer>>>, l: int, n: int) -> bool {
        exists|m: int, e: int|
            0 <= m < t[l - 1].len() && 0 <= e < BlockSizeCubed && #[trigger] t[l - 1][m][e]
                == BlockIdOrPointer::Ptr(n as u32)
    }

    /// Every node below the root is pointed to from the layer above.
    pub open spec fn t_reached(t: Seq<Seq<Seq<BlockIdOrPointer>>>) -> bool {
        forall|l: int, n: int| 1 <= l < Depth && 0 <= n < t[l].len() ==> #[trigger] Self::t_has_parent(t, l, n)
    }

    /// Node `n` of layer `l` holds one block in all of its entries.
    pub open spec fn t_solid(t: Seq<Seq<Seq<BlockIdOrPointer>>>, l: int, n: int) -> bool {
        Self::t_node_uniform(t, l, n) && t[l][n][0] is Id
    }

    /// No node below the root, but node `en` of layer `el`, holds one block in
    /// all of its entries.
    pub open spec fn t_solid_only_at(t: Seq<Seq<Seq<BlockIdOrPointer>>>, el: int, en: int) -> bool {
        forall|l: int, n: int|
            1 <= l < Depth && 0 <= n < t[l].len() && !(l == el && n == en) ==> !#[trigger] Self::t_solid(t, l, n)
    }

    /// A well-formed tree in its canonical form: every node below the root is
    /// pointed to from the layer above, and none holds one block throughout
    /// (such a node is stored as that block in its parent).
    pub open spec fn t_canonical(t: Seq<Seq<Seq<BlockIdOrPointer>>>) -> bool {
        &&& Self::t_wf(t)
        &&& Self::t_reached(t)
        &&& Self::t_solid_only_at(t, -1, -1)
    }

    /// The structure is a well-formed tree in its canonical form.
    pub closed spec fn canonical(&self) -> bool {
        Self::t_canonical(self.ds())
    }

    /// A canonical tree is well formed.
    pub proof fn lemma_canonical_wf(&self)
        requires
            self.canonical(),
        ensures
            self.wf(),
    {
    }

    /// Expanding an entry into a node of copies keeps every node reached; the
    /// new node is the only one that may hold a single block.
    proof fn lemma_expand_canon(t: Seq<Seq<Seq<BlockIdOrPointer>>>, i: int, n: int, e: int, id: BlockId)
        requires
            Self::t_shape_ok(t),
            0 <= i,
            i + 1 < Depth,
            Self::t_slot(t, i, n, e),
            t[i][n][e] == BlockIdOrPointer::Id(id),
            t[i + 1].len() < u32::MAX,
            Self::t_reached(t),
            Self::t_solid_only_at(t, i, n),
        ensures
            Self::t_reached(Self::t_expanded(t, i, n, e, id)),
            Self::t_solid_only_at(Self::t_expanded(t, i, n, e, id), i + 1, t[i + 1].len() as int),
    {
        let t2 = Self::t_expanded(t, i, n, e, id);
        let len = t[i + 1].len() as int;
        assert(t2[i][n][e] == BlockIdOrPointer::Ptr(len as u32));
        assert forall|l: int, m: int| 1 <= l < Depth && 0 <= m < t2[l].len() implies #[trigger] Self::t_has_parent(
            t2,
            l,
            m,
        ) by {
            if l == i + 1 && m == len {
                assert(t2[l - 1][n][e] == BlockIdOrPointer::Ptr(m as u32));
            } else {
                assert(m < t[l].len());
                assert(Self::t_has_parent(t, l, m));
                let (pm, pe) = choose|pm: int, pe: int|
                    0 <= pm < t[l - 1].len() && 0 <= pe < BlockSizeCubed && #[trigger] t[l - 1][pm][pe]
                        == BlockIdOrPointer::Ptr(m as u32);
                assert(t2[l - 1][pm][pe] == t[l - 1][pm][pe]);
            }
        }
        assert forall|l: int, m: int|
            1 <= l < Depth && 0 <= m < t2[l].len() && !(l == i + 1 && m == len) implies !#[trigger] Self::t_solid(
            t2,
            l,
            m,
        ) by {
            if l == i && m == n {
                if Self::t_node_uniform(t2, l, m) {
                    assert(t2[l][m][e] == t2[l][m][0]);
                }
            } else {
                assert(m < t[l].len());
                assert(t2[l][m] == t[l][m]);
                assert(!Self::t_solid(t, l, m));
                if Self::t_node_uniform(t2, l, m) {
                    assert forall|x: int| 0 <= x < BlockSizeCubed implies #[trigger] t[l][m][x] == t[l][m][0] by {
                        assert(t2[l][m][x] == t2[l][m][0]);
                    }
                }
            }
        }
    }

    /// Writing a block into an entry of the bottom layer keeps every node
    /// reached, and changes no node but the written one.
    proof fn lemma_leaf_write_canon(t: Seq<Seq<Seq<BlockIdOrPointer>>>, n: int, e: int, b: BlockId, el: int, en: int)
        requires
            Self::t_shape_ok(t),
            Self::t_slot(t, Depth - 1, n, e),
            Self::t_reached(t),
            Self::t_solid_only_at(t, el, en),
            el == Depth - 1 && en == n || Self::t_solid_only_at(t, -1, -1),
        ensures
            Self::t_reached(Self::t_written(t, Depth - 1, n, e, BlockIdOrPointer::Id(b))),
            Self::t_solid_only_at(Self::t_written(t, Depth - 1, n, e, BlockIdOrPointer::Id(b)), Depth - 1, n),
    {
        let t2 = Self::t_written(t, Depth - 1, n, e, BlockIdOrPointer::Id(b));
        assert forall|l: int, m: int| 1 <= l < Depth && 0 <= m < t2[l].len() implies #[trigger] Self::t_has_parent(
            t2,
            l,
            m,
        ) by {
            assert(Self::t_has_parent(t, l, m));
            let (pm, pe) = choose|pm: int, pe: int|
                0 <= pm < t[l - 1].len() && 0 <= pe < BlockSizeCubed && #[trigger] t[l - 1][pm][pe]
                    == BlockIdOrPointer::Ptr(m as u32);
            assert(t2[l - 1] == t[l - 1]);
            assert(t2[l - 1][pm][pe] == t[l - 1][pm][pe]);
        }
        assert forall|l: int, m: int|
            1 <= l < Depth && 0 <= m < t2[l].len() && !(l == Depth - 1 && m == n) implies !#[trigger] Self::t_solid(
            t2,
            l,
            m,
        ) by {
            assert(t2[l][m] == t[l][m]);
            assert(!Self::t_solid(t, l, m));
            if Self::t_node_uniform(t2, l, m) {
                assert forall|x: int| 0 <= x < BlockSizeCubed implies #[trigger] t[l][m][x] == t[l][m][0] by {
                    assert(t2[l][m][x] == t2[l][m][0]);
                }
            }
        }
    }

    /// Removing a node that holds a single block, when no node but its parent
    /// points past it, keeps every node reached; the parent is then the only
    /// node that may hold a single block.
    proof fn lemma_compact_canon(
        t: Seq<Seq<Seq<BlockIdOrPointer>>>,
        j: int,
        p: int,
        k: int,
        e: int,
        b: BlockId,
    )
        requires
            Self::compactable(t, j, p, k, e, b),
            Self::t_reached(t),
            Self::t_solid_only_at(t, j, k),
        ensures
            Self::t_reached(Self::t_compacted(t, j, p, k, e, b)),
            Self::t_solid_only_at(Self::t_compacted(t, j, p, k, e, b), j - 1, p),
    {
        let t2 = Self::t_compacted(t, j, p, k, e, b);
        Self::lemma_compact_entries(t, j, p, k, e, b);
        assert(Self::t_slot(t, j - 1, p, e));
        assert forall|l: int, m: int| 1 <= l < Depth && 0 <= m < t2[l].len() implies #[trigger] Self::t_has_parent(
            t2,
            l,
            m,
        ) by {
            if l == j {
                let om = if m < k { m } else { m + 1 };
                assert(Self::shifted(j, j, k, om) == m);
                assert(Self::t_has_parent(t, l, om));
                let (pm, pe) = choose|pm: int, pe: int|
                    0 <= pm < t[l - 1].len() && 0 <= pe < BlockSizeCubed && #[trigger] t[l - 1][pm][pe]
                        == BlockIdOrPointer::Ptr(om as u32);
                if pm == p {
                    assert(pe != e);
                    assert(t2[l - 1][pm][pe] == BlockIdOrPointer::Ptr(m as u32));
                } else {
                    assert(Self::t_slot(t, l - 1, pm, pe));
                    assert(om < k);
                    assert(t2[l - 1][pm][pe] == BlockIdOrPointer::Ptr(m as u32));
                }
            } else if l == j + 1 {
                assert(Self::t_has_parent(t, l, m));
                let (pm, pe) = choose|pm: int, pe: int|
                    0 <= pm < t[l - 1].len() && 0 <= pe < BlockSizeCubed && #[trigger] t[l - 1][pm][pe]
                        == BlockIdOrPointer::Ptr(m as u32);
                assert(pm != k);
                assert(t2[j][Self::shifted(j, j, k, pm)] == t[j][pm]);
                assert(t2[l - 1][Self::shifted(j, j, k, pm)][pe] == BlockIdOrPointer::Ptr(m as u32));
            } else {
                assert(t2[l].len() == t[l].len());
                assert(t2[l - 1] == t[l - 1]);
                assert(Self::t_has_parent(t, l, m));
                let (pm, pe) = choose|pm: int, pe: int|
                    0 <= pm < t[l - 1].len() && 0 <= pe < BlockSizeCubed && #[trigger] t[l - 1][pm][pe]
                        == BlockIdOrPointer::Ptr(m as u32);
                assert(t2[l - 1][pm][pe] == BlockIdOrPointer::Ptr(m as u32));
            }
        }
        assert forall|l: int, m: int|
            1 <= l < Depth && 0 <= m < t2[l].len() && !(l == j - 1 && m == p) implies !#[trigger] Self::t_solid(
            t2,
            l,
            m,
        ) by {
            let om = if l == j && m >= k { m + 1 } else { m };
            if l == j {
                assert(Self::shifted(j, j, k, om) == m);
            }
            assert(t2[l][m] == t[l][om]);
            assert(!Self::t_solid(t, l, om));
            if Self::t_node_uniform(t2, l, m) {
                assert forall|x: int| 0 <= x < BlockSizeCubed implies #[trigger] t[l][om][x] == t[l][om][0] by {
                    assert(t2[l][m][x] == t2[l][m][0]);
                }
            }
        }
    }

    /// Any write into a chunk whose root holds only blocks (such as a fresh
    /// one) keeps every other block.
    pub proof fn lemma_root_only_write_safe(&self, block: BlockId, pos: LocalBlockPos)
        requires
            self.shape_ok(),
            forall|e: int| 0 <= e < BlockSizeCubed ==> #[trigger] self.ds()[0][0][e] is Id,
        ensures
            self.set_is_safe(block, pos),
    {
        let t = self.ds();
        if Self::t_path(t, pos, Depth - 1) >= 0 && Depth >= 2 {
            Self::lemma_path_facts(t, pos, Depth - 1);
            Self::lemma_child_index_bound(pos, 0);
            assert(t[0][Self::t_path(t, pos, 0)][Self::child_index(pos, 0)] is Id);
        }
    }

    /// Whether every entry of node `n` of layer `l` but entry `skip` holds `Id(block)`.
    fn node_holds_except(&self, block: BlockId, l: usize, n: usize, skip: usize) -> (r: bool)
        requires
            l < self.ds().len(),
            n < self.ds()[l as int].len(),
            self.ds()[l as int][n as int].len() == BlockSizeCubed,
        ensures
            r == (forall|x: int|
                0 <= x < BlockSizeCubed && x != skip ==> #[trigger] self.ds()[l as int][n as int][x]
                    == BlockIdOrPointer::Id(block)),
    {
        let node = &self.data_structure[l][n];
        proof {
            assert(node@ == self.ds()[l as int][n as int]);
        }
        let mut k: usize = 0;
        while k < node.len()
            invariant
                k <= node@.len(),
                node@ == self.ds()[l as int][n as int],
                node@.len() == BlockSizeCubed,
                forall|x: int| 0 <= x < k && x != skip ==> node@[x] == BlockIdOrPointer::Id(block),
            decreases node@.len() - k,
        {
            if k != skip && node[k] != BlockIdOrPointer::Id(block) {
                return false;
            }
            k = k + 1;
        }
        true
    }

    /// Whether every pointer of layer `l`, outside node `keep`, points below node `bound`.
    fn layer_points_below(&self, l: usize, keep: usize, bound: usize) -> (r: bool)
        requires
            l < self.ds().len(),
            forall|n: int| 0 <= n < self.ds()[l as int].len() ==> #[trigger] self.ds()[l as int][n].len() == BlockSizeCubed,
        ensures
            r == (forall|m: int, x: int|
                #![trigger self.ds()[l as int][m][x]]
                0 <= m < self.ds()[l as int].len() && m != keep && 0 <= x < BlockSizeCubed
                    && self.ds()[l as int][m][x] is Ptr ==> self.ds()[l as int][m][x]->Ptr_0 < bound),
    {
        let layer = &self.data_structure[l];
        let ghost tl = self.ds()[l as int];
        let mut m: usize = 0;
        while m < layer.len()
            invariant
                tl == self.ds()[l as int],
                layer@.len() == tl.len(),
                forall|n: int| 0 <= n < tl.len() ==> #[trigger] layer@[n]@ == tl[n],
                forall|n: int| 0 <= n < tl.len() ==> #[trigger] tl[n].len() == BlockSizeCubed,
                m <= tl.len(),
                forall|a: int, x: int|
                    #![trigger tl[a][x]]
                    0 <= a < m && a != keep && 0 <= x < BlockSizeCubed && tl[a][x] is Ptr ==> tl[a][x]->Ptr_0 < bound,
            decreases tl.len() - m,
        {
            if m != keep {
                let node = &layer[m];
                proof {
                    assert(node@ == tl[m as int]);
                }
                let mut x: usize = 0;
                while x < node.len()
                    invariant
                        tl == self.ds()[l as int],
                        m < tl.len(),
                        m != keep,
                        node@ == tl[m as int],
                        node@.len() == BlockSizeCubed,
                        x <= BlockSizeCubed,
                        forall|y: int|
                            #![trigger tl[m as int][y]]
                            0 <= y < x && tl[m as int][y] is Ptr ==> tl[m as int][y]->Ptr_0 < bound,
                    decreases node@.len() - x,
                {
                    match node[x] {
                        BlockIdOrPointer::Ptr(p) => {
                            if p as usize >= bound {
                                proof {
                                    assert(tl[m as int][x as int] == node@[x as int]);
                                    assert(tl[m as int][x as int] is Ptr);
                                    assert(self.ds()[l as int][m as int][x as int] is Ptr);
                                }
                                return false;
                            }
                        },
                        BlockIdOrPointer::Id(_) => {},
                    }
                    x = x + 1;
                }
            }
            m = m + 1;
        }
        true
    }

    /// Whether writing `block` at `pos` keeps every other block of the chunk:
    /// false only where the write would merge a node away that another node
    /// of the layer above still points past.
    pub fn write_keeps_others(&self, block: BlockId, pos: &LocalBlockPos) -> (r: bool)
        requires
            self.shape_ok(),
        ensures
            r == self.set_is_safe(block, *pos),
    {
        let ghost t = self.ds();
        let mut path: Vec<usize> = Vec::new();
        let mut ptr: usize = 0;
        let mut i: usize = 0;
        while i < Depth
            invariant
                self.shape_ok(),
                t == self.ds(),
                i <= Depth,
                path@.len() == i,
                forall|l: int| 0 <= l < i ==> #[trigger] path@[l] == Self::t_path(t, *pos, l),
                forall|l: int| 0 <= l < i ==> #[trigger] path@[l] < t[l].len(),
                i < Depth ==> ptr == Self::t_path(t, *pos, i as int) && ptr < t[i as int].len(),
            decreases Depth - i,
        {
            path.push(ptr);
            if i + 1 < Depth {
                let index = Self::what_index(pos, i);
                proof {
                    assert(Self::t_slot(t, i as int, ptr as int, index as int));
                    assert(t[i as int][ptr as int][index as int]
                        == self.data_structure@[i as int]@[ptr as int]@[index as int]);
                }
                match self.data_structure[i][ptr][index] {
                    BlockIdOrPointer::Ptr(p) => {
                        ptr = p as usize;
                    },
                    BlockIdOrPointer::Id(_) => {
                        proof {
                            assert(Self::t_path(t, *pos, i + 1) == -1);
                            if Self::t_path(t, *pos, Depth - 1) >= 0 {
                                Self::lemma_path_facts(t, *pos, Depth - 1);
                                assert(Self::t_path(t, *pos, i + 1) >= 0);
                            }
                        }
                        return true;
                    },
                }
            }
            i = i + 1;
        }
        let leaf = path[Depth - 1];
        let li = Self::what_index(pos, Depth - 1);
        proof {
            assert(t[Depth - 1][leaf as int][li as int]
                == self.data_structure@[Depth - 1]@[leaf as int]@[li as int]);
        }
        if self.data_structure[Depth - 1][leaf][li] == BlockIdOrPointer::Id(block) {
            return true;
        }
        let mut j: usize = Depth - 1;
        while j >= 2
            invariant
                self.shape_ok(),
                t == self.ds(),
                j < Depth,
                path@.len() == Depth,
                t[Depth - 1][path@[Depth - 1] as int][Self::child_index(*pos, Depth - 1)]
                    != BlockIdOrPointer::Id(block),
                forall|l: int| 0 <= l < Depth ==> #[trigger] path@[l] == Self::t_path(t, *pos, l),
                forall|l: int| 0 <= l < Depth ==> #[trigger] path@[l] < t[l].len(),
                Self::t_merges_from(t, *pos, block, j + 1),
                forall|k: int|
                    j < k < Depth && 2 <= k && #[trigger] Self::t_merges_from(t, *pos, block, k)
                        ==> Self::t_no_stale(t, *pos, k),
            decreases j,
        {
            let skip = Self::what_index(pos, j);
            if !self.node_holds_except(block, j, path[j], skip) {
                proof {
                    assert(!Self::t_uniform_after(t, *pos, block, j as int));
                    assert forall|k: int|
                        2 <= k < Depth && #[trigger] Self::t_merges_from(t, *pos, block, k) implies Self::t_no_stale(
                            t,
                            *pos,
                            k,
                        ) by {
                        if k <= j {
                            assert(Self::t_uniform_after(t, *pos, block, j as int));
                        }
                    }
                }
                return true;
            }
            proof {
                assert(Self::t_uniform_after(t, *pos, block, j as int));
                assert forall|l: int| j <= l < Depth implies #[trigger] Self::t_uniform_after(t, *pos, block, l) by {
                    if l > j {
                        assert(Self::t_merges_from(t, *pos, block, j + 1));
                    }
                }
                assert(Self::t_merges_from(t, *pos, block, j as int));
            }
            if !self.layer_points_below(j - 1, path[j - 1], path[j]) {
                proof {
                    assert(!Self::t_no_stale(t, *pos, j as int));
                }
                return false;
            }
            proof {
                assert(Self::t_no_stale(t, *pos, j as int));
            }
            j = j - 1;
        }
        proof {
            assert forall|k: int|
                2 <= k < Depth && #[trigger] Self::t_merges_from(t, *pos, block, k) implies Self::t_no_stale(
                    t,
                    *pos,
                    k,
                ) by {}
        }
        true
    }

    /// After a block has been written at the bottom of the way to `pos`, merges
    /// the nodes on that way that now hold a single block into their parents,
    /// from the bottom layer up to layer 1.
    fn merge_upward(
        &mut self,
        block: BlockId,
        pos: &LocalBlockPos,
        ptrs: &Vec<usize>,
        Ghost(t0): Ghost<Seq<Seq<Seq<BlockIdOrPointer>>>>,
        Ghost(clean): Ghost<bool>,
    )
        requires
            Self::params_ok(),
            old(self).ds().len() == Depth,
            forall|l: int, n: int|
                0 <= l < Depth && 0 <= n < old(self).ds()[l].len() ==> #[trigger] old(self).ds()[l][n].len()
                    == BlockSizeCubed,
            ptrs@.len() == Depth,
            forall|l: int| 0 <= l < Depth ==> #[trigger] ptrs@[l] < old(self).ds()[l].len(),
            forall|l: int| 0 <= l < Depth ==> #[trigger] ptrs@[l] == Self::t_path(old(self).ds(), *pos, l),
            old(self).ds()[Depth - 1][ptrs@[Depth - 1] as int][Self::child_index(*pos, Depth - 1)]
                == BlockIdOrPointer::Id(block),
            clean ==> {
                &&& Self::t_wf(old(self).ds())
                &&& Self::t_wf(t0)
                &&& t0.len() == Depth
                &&& forall|l: int| 0 <= l < Depth ==> #[trigger] Self::t_path(t0, *pos, l) == ptrs@[l]
                &&& forall|l: int| 0 <= l < Depth - 1 ==> #[trigger] old(self).ds()[l] == t0[l]
                &&& forall|x: int|
                    0 <= x < BlockSizeCubed && x != Self::child_index(*pos, Depth - 1)
                        ==> #[trigger] old(self).ds()[Depth - 1][ptrs@[Depth - 1] as int][x]
                        == t0[Depth - 1][ptrs@[Depth - 1] as int][x]
                &&& Self::t_set_safe(t0, *pos, block)
                &&& t0[Depth - 1][ptrs@[Depth - 1] as int][Self::child_index(*pos, Depth - 1)]
                    != BlockIdOrPointer::Id(block)
            },
            clean && Self::t_canonical(t0) ==> {
                &&& Self::t_reached(old(self).ds())
                &&& Self::t_solid_only_at(old(self).ds(), Depth - 1, ptrs@[Depth - 1] as int)
            },
        ensures
            final(self).ds() == Self::t_merge(old(self).ds(), *pos, Depth - 1),
            clean ==> Self::t_wf(final(self).ds()),
            clean && Self::t_canonical(t0) ==> Self::t_canonical(final(self).ds()),
            clean ==> forall|q: LocalBlockPos|
                #[trigger] Self::t_lookup(final(self).ds(), 0, 0, q) == Self::t_lookup(old(self).ds(), 0, 0, q),
            !(forall|x: int|
                0 <= x < BlockSizeCubed ==> #[trigger] old(self).ds()[Depth - 1][ptrs@[Depth - 1] as int][x]
                    == old(self).ds()[Depth - 1][ptrs@[Depth - 1] as int][0]) ==> final(self).ds() == old(
                self,
            ).ds(),
    {
        let ghost s0 = self.ds();
        let ghost mut changed = false;
        let mut j: usize = Depth - 1;
        while j > 0
            invariant
                Self::params_ok(),
                j < Depth,
                ptrs@.len() == Depth,
                self.ds().len() == Depth,
                forall|l: int, n: int|
                    0 <= l < Depth && 0 <= n < self.ds()[l].len() ==> #[trigger] self.ds()[l][n].len()
                        == BlockSizeCubed,
                forall|l: int| 0 <= l <= j ==> #[trigger] ptrs@[l] < self.ds()[l].len(),
                forall|l: int| 0 <= l < j ==> #[trigger] self.ds()[l].len() == s0[l].len(),
                j > 0 ==> self.ds()[j as int][ptrs@[j as int] as int][Self::child_index(*pos, j as int)]
                    == BlockIdOrPointer::Id(block),
                s0 == old(self).ds(),
                Self::t_merge(s0, *pos, Depth - 1) == Self::t_merge(self.ds(), *pos, j as int),
                forall|l: int| 0 <= l <= j ==> #[trigger] ptrs@[l] == Self::t_path(self.ds(), *pos, l),
                !changed ==> self.ds() == s0 && j == Depth - 1,
                changed ==> forall|x: int|
                    0 <= x < BlockSizeCubed ==> #[trigger] s0[Depth - 1][ptrs@[Depth - 1] as int][x]
                        == s0[Depth - 1][ptrs@[Depth - 1] as int][0],
                clean ==> {
                    &&& Self::t_wf(t0)
                    &&& t0.len() == Depth
                    &&& forall|l: int| 0 <= l < Depth ==> #[trigger] Self::t_path(t0, *pos, l) == ptrs@[l]
                    &&& Self::t_set_safe(t0, *pos, block)
                    &&& t0[Depth - 1][ptrs@[Depth - 1] as int][Self::child_index(*pos, Depth - 1)]
                        != BlockIdOrPointer::Id(block)
                    &&& Self::t_wf(self.ds())
                    &&& forall|q: LocalBlockPos|
                        #[trigger] Self::t_lookup(self.ds(), 0, 0, q) == Self::t_lookup(s0, 0, 0, q)
                    &&& forall|l: int| 0 <= l < j ==> #[trigger] self.ds()[l] == t0[l]
                    &&& forall|x: int|
                        0 <= x < BlockSizeCubed && x != Self::child_index(*pos, j as int)
                            ==> (#[trigger] self.ds()[j as int][ptrs@[j as int] as int][x]
                            == BlockIdOrPointer::Id(block)) == (t0[j as int][ptrs@[j as int] as int][x]
                            == BlockIdOrPointer::Id(block))
                    &&& j < Depth - 1 ==> Self::t_merges_from(t0, *pos, block, j + 1)
                },
                clean && Self::t_canonical(t0) ==> {
                    &&& Self::t_reached(self.ds())
                    &&& Self::t_solid_only_at(self.ds(), j as int, ptrs@[j as int] as int)
                },
            decreases j,
        {
            let pj = ptrs[j];
            let pp = ptrs[j - 1];
            proof {
                Self::lemma_child_index_bound(*pos, j as int);
            }
            if self.node_all_same(j, pj) {
                let first_entry = self.data_structure[j][pj][0];
                proof {
                    assert(first_entry == self.ds()[j as int][pj as int][0]);
                    assert(self.ds()[j as int][pj as int][Self::child_index(*pos, j as int)]
                        == self.ds()[j as int][pj as int][0]);
                }
                if let BlockIdOrPointer::Id(b) = first_entry {
                    let ghost prev = self.ds();
                    let index = Self::what_index(pos, j - 1);
                    proof {
                        assert(b == block);
                        if clean {
                            Self::lemma_path_prefix(prev, t0, *pos, j as int);
                            assert(Self::t_path(prev, *pos, j as int) == pj);
                            assert(Self::t_path(prev, *pos, j - 1) == pp);
                            Self::lemma_path_facts(prev, *pos, j as int);
                            assert(prev[j - 1][pp as int][index as int] == BlockIdOrPointer::Ptr(pj as u32));
                            assert(Self::t_uniform_after(t0, *pos, block, j as int)) by {
                                assert forall|x: int|
                                    0 <= x < BlockSizeCubed && x != Self::child_index(*pos, j as int) implies
                                    #[trigger] t0[j as int][Self::t_path(t0, *pos, j as int)][x]
                                    == BlockIdOrPointer::Id(block) by {
                                    assert(prev[j as int][pj as int][x] == prev[j as int][pj as int][0]);
                                }
                            }
                            assert(Self::t_merges_from(t0, *pos, block, j as int)) by {
                                assert forall|l: int| j <= l < Depth implies #[trigger] Self::t_uniform_after(
                                    t0,
                                    *pos,
                                    block,
                                    l,
                                ) by {
                                    if l > j {
                                        assert(Self::t_merges_from(t0, *pos, block, j + 1));
                                    }
                                }
                            }
                            if j >= 2 {
                                assert(Self::t_no_stale(t0, *pos, j as int));
                                assert(prev[j - 1] == t0[j - 1]);
                            } else {
                                assert(prev[0].len() == 1);
                            }
                            assert forall|x: int| 0 <= x < BlockSizeCubed implies #[trigger] prev[j as int][pj as int][x]
                                == BlockIdOrPointer::Id(b) by {
                                assert(prev[j as int][pj as int][x] == prev[j as int][pj as int][0]);
                            }
                            assert(Self::compactable(prev, j as int, pp as int, pj as int, index as int, b));
                        }
                    }
                    proof {
                        assert(Self::t_path(prev, *pos, j as int) == pj);
                        assert(Self::t_path(prev, *pos, j - 1) == pp);
                        assert(Self::t_node_uniform(prev, j as int, pj as int));
                        assert(Self::t_merge(prev, *pos, j as int) == Self::t_merge(
                            Self::t_compacted(prev, j as int, pp as int, pj as int, index as int, b),
                            *pos,
                            j - 1,
                        ));
                    }
                    self.remove_node(j, pj);
                    self.set_entry(j - 1, pp, index, BlockIdOrPointer::Id(b));
                    self.renumber_node(j - 1, pp, pj as u32);
                    proof {
                        let t2 = Self::t_compacted(prev, j as int, pp as int, pj as int, index as int, b);
                        assert(self.ds()[j - 1][pp as int] =~= t2[j - 1][pp as int]);
                        assert(self.ds()[j - 1] =~= t2[j - 1]);
                        assert(self.ds() =~= t2);
                        prev[j as int].remove_ensures(pj as int);
                        assert forall|l: int, n: int|
                            0 <= l < Depth && 0 <= n < self.ds()[l].len() implies #[trigger] self.ds()[l][n].len()
                                == BlockSizeCubed by {
                            if l == j {
                                if n < pj {
                                    assert(self.ds()[l][n] == prev[l][n]);
                                } else {
                                    assert(self.ds()[l][n] == prev[l][n + 1]);
                                }
                            } else if l == j - 1 && n == pp {
                            } else if l == j - 1 {
                                assert(self.ds()[l][n] == prev[l][n]);
                            } else {
                                assert(self.ds()[l] == prev[l]);
                            }
                        }
                        assert forall|l: int| 0 <= l < j - 1 implies #[trigger] self.ds()[l] == prev[l] by {}
                        Self::lemma_path_prefix(self.ds(), prev, *pos, j - 1);
                        assert forall|l: int| 0 <= l <= j - 1 implies #[trigger] ptrs@[l] == Self::t_path(
                            self.ds(),
                            *pos,
                            l,
                        ) by {
                            assert(Self::t_path(self.ds(), *pos, l) == Self::t_path(prev, *pos, l));
                        }
                        if clean {
                            Self::lemma_compact_entries(prev, j as int, pp as int, pj as int, index as int, b);
                            Self::lemma_compact_wf(prev, j as int, pp as int, pj as int, index as int, b);
                            Self::lemma_compact_lookup(prev, j as int, pp as int, pj as int, index as int, b, 0);
                            if Self::t_canonical(t0) {
                                Self::lemma_compact_canon(prev, j as int, pp as int, pj as int, index as int, b);
                            }
                            assert forall|q: LocalBlockPos| #[trigger] Self::t_lookup(self.ds(), 0, 0, q)
                                == Self::t_lookup(s0, 0, 0, q) by {
                                assert(Self::shifted(0, j as int, pj as int, 0) == 0);
                                assert(Self::t_lookup(self.ds(), 0, 0, q) == Self::t_lookup(prev, 0, 0, q));
                            }
                            assert forall|x: int|
                                0 <= x < BlockSizeCubed && x != Self::child_index(*pos, j - 1) implies
                                (#[trigger] self.ds()[j - 1][ptrs@[j - 1] as int][x] == BlockIdOrPointer::Id(block))
                                == (t0[j - 1][ptrs@[j - 1] as int][x] == BlockIdOrPointer::Id(block)) by {
                                assert(prev[j - 1] == t0[j - 1]);
                            }
                        }
                        if !changed {
                            assert forall|x: int| 0 <= x < BlockSizeCubed implies #[trigger] s0[Depth - 1][ptrs@[Depth - 1] as int][x]
                                == s0[Depth - 1][ptrs@[Depth - 1] as int][0] by {
                                assert(prev == s0);
                                assert(prev[j as int][pj as int][x] == prev[j as int][pj as int][0]);
                            }
                        }
                        changed = true;
                    }
                } else {
                    proof {
                        assert(false);
                    }
                }
            } else {
                proof {
                    assert(Self::t_path(self.ds(), *pos, j as int) == pj);
                    assert(!Self::t_node_uniform(self.ds(), j as int, pj as int));
                    if clean && Self::t_canonical(t0) {
                        let t1 = self.ds();
                        assert forall|l: int, n: int| 1 <= l < Depth && 0 <= n < t1[l].len() implies !#[trigger] Self::t_solid(
                            t1,
                            l,
                            n,
                        ) by {
                            if l == j && n == pj {
                                assert(!Self::t_node_uniform(t1, l, n));
                            }
                        }
                    }
                }
                return;
            }
            j = j - 1;
        }
        proof {
            if clean && Self::t_canonical(t0) {
                let t1 = self.ds();
                assert forall|l: int, n: int| 1 <= l < Depth && 0 <= n < t1[l].len() implies !#[trigger] Self::t_solid(
                    t1,
                    l,
                    n,
                ) by {}
            }
        }
    }

    /// Writes `block` at `pos`. Where the way to `pos` ends early at another
    /// block, nodes of copies of that block are added down to the bottom
    /// layer; after the write, nodes on the way that hold a single block are
    /// merged into their parents.
    /// Where the write keeps every other block (`write_keeps_others` tells),
    /// a well-formed tree stays well formed and reads back the write, and a
    /// canonical tree stays canonical.
    pub fn set_block(&mut self, block: BlockId, pos: &LocalBlockPos)
        requires
            old(self).shape_ok(),
            old(self).has_room(),
        ensures
            final(self).ds() == Self::t_set(old(self).ds(), block, *pos),
            old(self).wf() && old(self).set_is_safe(block, *pos) ==> final(self).wf(),
            old(self).canonical() && old(self).set_is_safe(block, *pos) ==> final(self).canonical(),
            old(self).wf() && old(self).set_is_safe(block, *pos) ==> forall|q: LocalBlockPos| #[trigger] final(self).view_at(q)
                == if Self::same_cell(q, *pos) {
                block
            } else {
                old(self).view_at(q)
            },
            old(self).wf() && old(self).set_is_safe(block, *pos) && Self::in_range(*pos) ==> forall|q: LocalBlockPos|
                Self::in_range(q) ==> #[trigger] final(self).view_at(q) == if q == *pos {
                    block
                } else {
                    old(self).view_at(q)
                },
    {
        self.write_block(block, pos);
        proof {
            if old(self).wf() && old(self).set_is_safe(block, *pos) && Self::in_range(*pos) {
                assert forall|q: LocalBlockPos| Self::in_range(q) implies #[trigger] self.view_at(q) == if q
                    == *pos {
                    block
                } else {
                    old(self).view_at(q)
                } by {
                    Self::lemma_same_cell_in_range(q, *pos);
                }
            }
        }
    }

    fn write_block(&mut self, block: BlockId, pos: &LocalBlockPos)
        requires
            Self::t_shape_ok(old(self).ds()),
            Self::t_room(old(self).ds()),
        ensures
            final(self).ds() == Self::t_set(old(self).ds(), block, *pos),
            old(self).wf() && old(self).set_is_safe(block, *pos) ==> final(self).wf(),
            old(self).canonical() && old(self).set_is_safe(block, *pos) ==> final(self).canonical(),
            old(self).wf() && old(self).set_is_safe(block, *pos) ==> forall|q: LocalBlockPos| #[trigger] final(self).view_at(q)
                == if Self::same_cell(q, *pos) {
                block
            } else {
                old(self).view_at(q)
            },
    {
        let ghost t0 = self.ds();
        let mut ptrs: Vec<usize> = Vec::new();
        let mut k: usize = 0;
        while k < Depth
            invariant
                k <= Depth,
                ptrs@.len() == k,
                forall|l: int| 0 <= l < k ==> ptrs@[l] == 0,
            decreases Depth - k,
        {
            ptrs.push(0);
            k = k + 1;
        }
        let mut ptr: usize = 0;
        let mut i: usize = 0;
        let ghost mut expanded = false;
        let ghost mut cur_id: BlockId = 0;
        loop
            invariant
                Self::t_shape_ok(t0),
                t0 == old(self).ds(),
                forall|l: int| 0 <= l < Depth ==> #[trigger] t0[l].len() < u32::MAX,
                0 <= i < Depth,
                ptrs@.len() == Depth,
                Self::t_shape_ok(self.ds()),
                Self::t_unique(t0) ==> Self::t_unique(self.ds()),
                Self::t_set(t0, block, *pos) == Self::t_descend(self.ds(), block, *pos, i as int, ptr as int),
                forall|l: int| 0 <= l < Depth && l > i ==> #[trigger] self.ds()[l].len() == t0[l].len(),
                forall|q: LocalBlockPos|
                    #[trigger] Self::t_lookup(self.ds(), 0, 0, q) == Self::t_lookup(t0, 0, 0, q),
                forall|l: int| 0 <= l <= i ==> #[trigger] ptrs@[l] == Self::t_path(self.ds(), *pos, l),
                ptr == ptrs@[i as int],
                Self::t_path(self.ds(), *pos, i as int) >= 0,
                !expanded ==> self.ds() == t0,
                expanded ==> cur_id != block,
                expanded ==> forall|x: int|
                    0 <= x < BlockSizeCubed ==> #[trigger] self.ds()[i as int][ptr as int][x]
                        == BlockIdOrPointer::Id(cur_id),
                Self::t_canonical(t0) ==> {
                    &&& Self::t_reached(self.ds())
                    &&& Self::t_solid_only_at(self.ds(), i as int, ptr as int)
                },
            decreases Depth - i,
        {
            let ghost cur = self.ds();
            proof {
                Self::lemma_path_facts(cur, *pos, i as int);
            }
            let index = Self::what_index(pos, i);
            let r = self.data_structure[i][ptr][index];
            proof {
                assert(Self::t_slot(cur, i as int, ptr as int, index as int));
                assert(r == cur[i as int][ptr as int][index as int]);
                Self::lemma_path_lookup(cur, *pos, i as int);
            }
            match r {
                BlockIdOrPointer::Id(id) => {
                    if block == id {
                        proof {
                            if expanded {
                                assert(cur[i as int][ptr as int][index as int] == BlockIdOrPointer::Id(cur_id));
                            }
                            assert(self.ds() == t0);
                            assert forall|q: LocalBlockPos| #[trigger] self.view_at(q) == if Self::same_cell(
                                q,
                                *pos,
                            ) {
                                block
                            } else {
                                old(self).view_at(q)
                            } by {
                                if Self::same_cell(q, *pos) {
                                    Self::lemma_same_cell_lookup(cur, q, *pos, 0, 0);
                                }
                            }
                        }
                        return;
                    } else if i == Depth - 1 {
                        let ghost other = if index == 0 { 1int } else { 0int };
                        proof {
                            assert(BlockSizeCubed >= 8) by (nonlinear_arith)
                                requires
                                    BlockSize >= 2,
                                    BlockSizeCubed == BlockSize * BlockSize * BlockSize,
                            {
                            }
                            if expanded {
                                assert(cur[i as int][ptr as int][other] == BlockIdOrPointer::Id(cur_id));
                            }
                        }
                        self.set_entry(i, ptr, index, BlockIdOrPointer::Id(block));
                        proof {
                            if Self::t_canonical(t0) {
                                Self::lemma_leaf_write_canon(cur, ptr as int, index as int, block, i as int, ptr as int);
                            }
                            Self::lemma_leaf_write_wf(cur, ptr as int, index as int, block);
                            let ghost start = self.ds();
                            Self::lemma_path_prefix(start, cur, *pos, Depth - 1);
                            assert forall|l: int| 0 <= l < Depth implies #[trigger] ptrs@[l] == Self::t_path(start, *pos, l) by {
                                assert(Self::t_path(start, *pos, l) == Self::t_path(cur, *pos, l));
                            }
                            assert forall|l: int| 0 <= l < Depth implies #[trigger] ptrs@[l] < start[l].len() by {
                                Self::lemma_path_facts(cur, *pos, l);
                            }
                            assert forall|l: int, n: int| 0 <= l < Depth && 0 <= n < start[l].len() implies
                                #[trigger] start[l][n].len() == BlockSizeCubed by {}
                        }
                        proof {
                          if Self::t_wf(t0) {
                            Self::lemma_leaf_write_lookup(cur, *pos, block, 0);
                            assert(self.ds() == Self::t_written(
                                cur,
                                Depth - 1,
                                Self::t_path(cur, *pos, Depth - 1),
                                Self::child_index(*pos, Depth - 1),
                                BlockIdOrPointer::Id(block),
                            ));
                            assert forall|q: LocalBlockPos| #[trigger] Self::t_lookup(self.ds(), 0, 0, q)
                                == if Self::same_cell(q, *pos) {
                                block
                            } else {
                                Self::t_lookup(t0, 0, 0, q)
                            } by {
                                assert(cur[0].len() == 1);
                                assert(Self::t_lookup(self.ds(), 0, 0, q) == (if 0 == Self::t_path(cur, *pos, 0)
                                    && Self::matches_from(q, *pos, 0) {
                                    block
                                } else {
                                    Self::t_lookup(cur, 0, 0, q)
                                }));
                                if Self::same_cell(q, *pos) {
                                    assert(Self::matches_from(q, *pos, 0));
                                } else {
                                    if Self::matches_from(q, *pos, 0) {
                                        assert(Self::same_cell(q, *pos));
                                    }
                                }
                            }
                            let ghost t1 = self.ds();
                            assert forall|l: int, n: int| 0 <= l < Depth && 0 <= n < t1[l].len() implies
                                #[trigger] t1[l][n].len() == BlockSizeCubed by {}

                            if !expanded {
                                assert forall|l: int| 0 <= l < Depth implies #[trigger] Self::t_path(t0, *pos, l)
                                    == ptrs@[l] by {}
                                assert forall|l: int| 0 <= l < Depth - 1 implies #[trigger] t1[l] == t0[l] by {}
                            }
                          }
                        }
                        let ghost clean = Self::t_wf(t0) && !expanded && Self::t_set_safe(t0, *pos, block);
                        let ghost start = self.ds();
                        self.merge_upward(block, pos, &ptrs, Ghost(t0), Ghost(clean));
                        proof {
                            assert(self.ds() == Self::t_descend(cur, block, *pos, i as int, ptr as int));
                            if expanded {
                                let t1 = Self::t_written(cur, i as int, ptr as int, index as int, BlockIdOrPointer::Id(block));
                                assert(t1[i as int][ptr as int][other] == BlockIdOrPointer::Id(cur_id));
                                assert(t1[i as int][ptr as int][index as int] == BlockIdOrPointer::Id(block));
                                assert(ptrs@[Depth - 1] == ptr);
                                assert(!(forall|x: int| 0 <= x < BlockSizeCubed ==> #[trigger] t1[Depth - 1][ptrs@[Depth - 1] as int][x]
                                    == t1[Depth - 1][ptrs@[Depth - 1] as int][0]));
                                assert(t1 == start);
                                if Depth - 1 > 0 {
                                    assert(Self::t_path(start, *pos, Depth - 1) == ptr);
                                    assert(!Self::t_node_uniform(start, Depth - 1, ptr as int));
                                }
                                assert(self.ds() == start);
                                if Self::t_canonical(t0) {
                                    assert forall|l: int, n: int| 1 <= l < Depth && 0 <= n < start[l].len() implies !#[trigger] Self::t_solid(
                                        start,
                                        l,
                                        n,
                                    ) by {
                                        if l == Depth - 1 && n == ptr {
                                            assert(!Self::t_node_uniform(start, l, n));
                                        }
                                    }
                                    assert(Self::t_wf(start));
                                }
                            }
                        }
                        return;
                    } else {
                        let new_ptr = self.data_structure[i + 1].len();
                        self.push_node(i + 1, r);
                        self.set_entry(i, ptr, index, BlockIdOrPointer::Ptr(new_ptr as u32));
                        proof {
                            assert(new_ptr == cur[i + 1].len());
                            assert(self.ds() == Self::t_expanded(cur, i as int, ptr as int, index as int, id));
                            Self::lemma_expand_wf(cur, i as int, ptr as int, index as int, id);
                            if Self::t_canonical(t0) {
                                Self::lemma_expand_canon(cur, i as int, ptr as int, index as int, id);
                            }
                            assert(Self::t_descend(cur, block, *pos, i as int, ptr as int) == Self::t_descend(
                                Self::t_expanded(cur, i as int, ptr as int, index as int, id),
                                block,
                                *pos,
                                i + 1,
                                new_ptr as int,
                            ));
                            Self::lemma_expand_lookup(cur, i as int, ptr as int, index as int, id, 0);
                            assert forall|q: LocalBlockPos| #[trigger] Self::t_lookup(self.ds(), 0, 0, q)
                                == Self::t_lookup(t0, 0, 0, q) by {
                                assert(Self::t_lookup(self.ds(), 0, 0, q) == Self::t_lookup(cur, 0, 0, q));
                            }
                            Self::lemma_path_prefix(self.ds(), cur, *pos, i as int);
                        }
                        ptr = new_ptr;
                        ptrs.set(i + 1, new_ptr);
                        proof {
                            let t1 = self.ds();
                            assert(Self::t_path(t1, *pos, i as int) == Self::t_path(cur, *pos, i as int));
                            assert(t1[i as int][ptrs@[i as int] as int][index as int] == BlockIdOrPointer::Ptr(new_ptr as u32));
                            assert(Self::t_path(t1, *pos, i + 1) == new_ptr);
                            assert forall|l: int| 0 <= l <= i + 1 implies #[trigger] ptrs@[l] == Self::t_path(
                                t1,
                                *pos,
                                l,
                            ) by {
                                if l <= i {
                                    assert(Self::t_path(t1, *pos, l) == Self::t_path(cur, *pos, l));
                                }
                            }
                            assert forall|l: int| 0 <= l < Depth && l > i + 1 implies #[trigger] t1[l].len()
                                == t0[l].len() by {}
                            expanded = true;
                            cur_id = id;
                        }
                        i = i + 1;
                    }
                },
                BlockIdOrPointer::Ptr(pointer) => {
                    proof {
                        if expanded {
                            assert(cur[i as int][ptr as int][index as int] == BlockIdOrPointer::Id(cur_id));
                        }
                        assert(i + 1 < Depth);
                        if Self::t_canonical(t0) {
                            assert(self.ds() == t0);
                        }
                    }
                    proof {
                        assert(Self::t_descend(cur, block, *pos, i as int, ptr as int) == Self::t_descend(
                            cur,
                            block,
                            *pos,
                            i + 1,
                            pointer as int,
                        ));
                    }
                    ptr = pointer as usize;
                    ptrs.set(i + 1, pointer as usize);
                    proof {
                        assert(Self::t_path(cur, *pos, i + 1) == pointer);
                    }
                    i = i + 1;
                },
            }
        }
    }

    /// A number below `b^(k+1)` splits into its digit at `b^k` and the rest.
    proof fn lemma_digit_split(c: int, b: int, k: nat)
        requires
            c >= 0,
            b >= 2,
        ensures
            pow(b, k) >= 1,
            pow(b, k + 1) == pow(b, k) * b,
            pow(b, k + 1) / b == pow(b, k),
            (c % pow(b, k + 1)) / (pow(b, k + 1) / b) == (c / pow(b, k)) % b,
            c % pow(b, k + 1) == pow(b, k) * ((c / pow(b, k)) % b) + c % pow(b, k),
    {
        let s = pow(b, k);
        vstd::arithmetic::power::lemma_pow_positive(b, k);
        assert(pow(b, k + 1) == b * s) by {
            reveal(pow);
        }
        assert(b * s == s * b) by (nonlinear_arith);
        vstd::arithmetic::div_mod::lemma_div_multiples_vanish(s, b);
        vstd::arithmetic::div_mod::lemma_mod_breakdown(c, s, b);
        let d = (c / s) % b;
        let r = c % s;
        vstd::arithmetic::div_mod::lemma_mod_bound(c, s);
        vstd::arithmetic::div_mod::lemma_fundamental_div_mod_converse_div(s * d + r, s, d, r);
        assert(s * d + r == d * s + r) by (nonlinear_arith);
    }

    /// Two coordinates inside the chunk with the same digit at every layer are equal.
    proof fn lemma_digits_determine(c1: int, c2: int, k: nat)
        requires
            Self::params_ok(),
            k <= Depth,
            0 <= c1,
            0 <= c2,
            forall|l: int| Depth - k <= l < Depth ==> #[trigger] ((c1 % Self::width(l)) / (Self::width(l) / BlockSize as int))
                == (c2 % Self::width(l)) / (Self::width(l) / BlockSize as int),
        ensures
            c1 % pow(BlockSize as int, k) == c2 % pow(BlockSize as int, k),
        decreases k,
    {
        let b = BlockSize as int;
        if k == 0 {
            assert(pow(b, 0) == 1) by {
                reveal(pow);
            }
        } else {
            let k1 = (k - 1) as nat;
            Self::lemma_digits_determine(c1, c2, k1);
            Self::lemma_digit_split(c1, b, k1);
            Self::lemma_digit_split(c2, b, k1);
            let l = Depth - k;
            assert(Self::width(l) == pow(b, k1 + 1));
            assert(((c1 % Self::width(l)) / (Self::width(l) / b)) == (c2 % Self::width(l)) / (Self::width(l) / b));
        }
    }

    /// Inside the chunk, two positions are filed under the same entries at
    /// every layer exactly when they are the same position.
    pub proof fn lemma_same_cell_in_range(p: LocalBlockPos, q: LocalBlockPos)
        requires
            Self::params_ok(),
            Self::in_range(p),
            Self::in_range(q),
        ensures
            Self::same_cell(p, q) <==> p == q,
    {
        if Self::same_cell(p, q) {
            let b = BlockSize as int;
            assert forall|l: int| 0 <= l < Depth implies #[trigger] Self::digit(p.x, l) == Self::digit(q.x, l) by {
                Self::lemma_same_cell_digits(p, q, l);
            }
            assert forall|l: int| 0 <= l < Depth implies #[trigger] Self::digit(p.y, l) == Self::digit(q.y, l) by {
                Self::lemma_same_cell_digits(p, q, l);
            }
            assert forall|l: int| 0 <= l < Depth implies #[trigger] Self::digit(p.z, l) == Self::digit(q.z, l) by {
                Self::lemma_same_cell_digits(p, q, l);
            }
            Self::lemma_coord_equal(p.x, q.x);
            Self::lemma_coord_equal(p.y, q.y);
            Self::lemma_coord_equal(p.z, q.z);
        }
    }

    proof fn lemma_same_cell_digits(p: LocalBlockPos, q: LocalBlockPos, l: int)
        requires
            Self::params_ok(),
            Self::same_cell(p, q),
            0 <= l < Depth,
        ensures
            Self::digit(p.x, l) == Self::digit(q.x, l),
            Self::digit(p.y, l) == Self::digit(q.y, l),
            Self::digit(p.z, l) == Self::digit(q.z, l),
    {
        Self::lemma_child_index_bound(p, l);
        Self::lemma_child_index_bound(q, l);
        assert(Self::child_index(p, l) == Self::child_index(q, l));
        Self::lemma_digits_unique(
            Self::digit(p.x, l),
            Self::digit(p.y, l),
            Self::digit(p.z, l),
            Self::digit(q.x, l),
            Self::digit(q.y, l),
            Self::digit(q.z, l),
            BlockSize as int,
        );
    }

    proof fn lemma_coord_equal(a: i32, c: i32)
        requires
            Self::params_ok(),
            0 <= a < pow(BlockSize as int, Depth as nat),
            0 <= c < pow(BlockSize as int, Depth as nat),
            forall|l: int| 0 <= l < Depth ==> #[trigger] Self::digit(a, l) == Self::digit(c, l),
        ensures
            a == c,
    {
        let w = pow(BlockSize as int, Depth as nat);
        assert(Self::coord(a) == a);
        assert(Self::coord(c) == c);
        assert forall|l: int| Depth - Depth <= l < Depth implies #[trigger] ((a as int % Self::width(l)) / (Self::width(l)
            / BlockSize as int)) == (c as int % Self::width(l)) / (Self::width(l) / BlockSize as int) by {
            assert(Self::digit(a, l) == Self::digit(c, l));
        }
        Self::lemma_digits_determine(a as int, c as int, Depth as nat);
        vstd::arithmetic::div_mod::lemma_small_mod(a as nat, w as nat);
        vstd::arithmetic::div_mod::lemma_small_mod(c as nat, w as nat);
    }

    proof fn lemma_digits_unique(x1: int, y1: int, z1: int, x2: int, y2: int, z2: int, b: int)
        requires
            b >= 2,
            0 <= x1 < b,
            0 <= y1 < b,
            0 <= z1 < b,
            0 <= x2 < b,
            0 <= y2 < b,
            0 <= z2 < b,
            x1 + y1 * b + z1 * b * b == x2 + y2 * b + z2 * b * b,
        ensures
            x1 == x2 && y1 == y2 && z1 == z2,
    {
        let v = x1 + y1 * b + z1 * b * b;
        assert(v == (y1 + z1 * b) * b + x1 && v == (y2 + z2 * b) * b + x2) by (nonlinear_arith)
            requires
                v == x1 + y1 * b + z1 * b * b,
                v == x2 + y2 * b + z2 * b * b,
        {
        }
        vstd::arithmetic::div_mod::lemma_fundamental_div_mod_converse(v, b, y1 + z1 * b, x1);
        vstd::arithmetic::div_mod::lemma_fundamental_div_mod_converse(v, b, y2 + z2 * b, x2);
        let u = y1 + z1 * b;
        assert(u == z1 * b + y1 && y2 + z2 * b == z2 * b + y2) by (nonlinear_arith)
            requires
                u == y1 + z1 * b,
        {
        }
        vstd::arithmetic::div_mod::lemma_fundamental_div_mod_converse(u, b, z1, y1);
        vstd::arithmetic::div_mod::lemma_fundamental_div_mod_converse(u, b, z2, y2);
    }
}

} // verus!
