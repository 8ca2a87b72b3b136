//! Sparse voxel tree: a 64-ary tree whose leaves are 4x4x4 bricks of palette indices.
use vstd::prelude::*;
use crate::vec3::UVec3;
use crate::svt_model::{
    extent, inside, voxel_index, brick_cell, brick_spec, brick_readable, lemma_index_monotone,
    build_spec, build_children, build_leaf, child_position, with_child_active, leaf_node,
    empty_node, nonzero_mask, scale_of, lookup, voxel_at,
};
use crate::svt_laws::{lemma_build_correct, lemma_build_leaves_nonzero};
use crate::svt_count::{occupied, lemma_leaf_data_counts_voxels};
use crate::svt_values::{count_of, occupied_with, lemma_leaf_data_holds_voxels};
use crate::svt_walk::{walk, lemma_tree_walk_gives_back_voxels};
use crate::svt_shape::{
    child_count, inner_child_total, leaf_byte_total, node_within, lemma_build_step, lemma_tree_shape,
};
use crate::voxel_data::{XYZIVoxelData, voxels_fit, grid_fits, palette_grid};
use crate::bits::{
    bit64, rank64, popcount64, nonzero_mask_upto, packed_upto, lemma_nonzero_mask_bits,
    lemma_packed_len, pow4, u64_count_ones, lemma_pow4_shl, lemma_pow4_monotone, lemma_pow4_values,
    u32_ilog4, lemma_digits4_of_log,
};

verus! {

/// A node of the tree, laid out as three 32-bit words for the GPU.
///
/// The top bit of `is_leaf_and_child_pointer` marks a leaf; its low 31 bits point
/// either at the node's first child in the node pool or, for a leaf, at its first
/// byte in the leaf data. The two mask words together form a 64-bit mask of which
/// children (or brick cells) are present.
#[derive(Debug)]
pub struct SvtNode {
    pub is_leaf_and_child_pointer: u32,
    pub child_mask_high: u32,
    pub child_mask_low: u32,
}

/// The low 31 bits of a node word.
pub const WITHOUT_IS_LEAF_MASK: u32 = 0x7FFFFFFF;

impl SvtNode {
    /// The 64-bit child mask, the high word above the low word.
    pub open spec fn mask_spec(self) -> u64 {
        ((self.child_mask_high as u64) << 32u64) | (self.child_mask_low as u64)
    }

    pub open spec fn is_leaf_spec(self) -> bool {
        self.is_leaf_and_child_pointer >> 31u32 == 1
    }

    pub open spec fn pointer_spec(self) -> u32 {
        self.is_leaf_and_child_pointer & 0x7FFFFFFFu32
    }

    pub fn has_children(&self) -> (r: bool)
        ensures
            r == (self.child_mask_high != 0 || self.child_mask_low != 0),
            r == (self.mask_spec() != 0),
    {
        let h = self.child_mask_high;
        let l = self.child_mask_low;
        assert((h != 0 || l != 0) == ((((h as u64) << 32u64) | (l as u64)) != 0)) by (bit_vector);
        self.child_mask_high != 0 || self.child_mask_low != 0
    }

    pub fn is_leaf(&self) -> (r: bool)
        ensures
            r == self.is_leaf_spec(),
            r == (self.is_leaf_and_child_pointer >= 0x8000_0000),
    {
        let w = self.is_leaf_and_child_pointer;
        assert((w >> 31u32 == 1) == (w >= 0x8000_0000u32)) by (bit_vector);
        self.is_leaf_and_child_pointer >> 31u32 == 1
    }

    pub fn child_pointer(&self) -> (r: u32)
        ensures
            r == self.pointer_spec(),
            r == self.is_leaf_and_child_pointer % 0x8000_0000,
    {
        let w = self.is_leaf_and_child_pointer;
        assert(w & 0x7FFFFFFFu32 == w % 0x8000_0000u32) by (bit_vector);
        self.is_leaf_and_child_pointer & WITHOUT_IS_LEAF_MASK
    }

    /// Ors `child_pointer` into the pointer bits; the leaf bit and the masks are kept.
    pub fn set_child_pointer(&mut self, child_pointer: u32)
        requires
            child_pointer <= WITHOUT_IS_LEAF_MASK,
        ensures
            final(self).is_leaf_and_child_pointer == old(self).is_leaf_and_child_pointer | child_pointer,
            final(self).child_mask_high == old(self).child_mask_high,
            final(self).child_mask_low == old(self).child_mask_low,
    {
        self.is_leaf_and_child_pointer = self.is_leaf_and_child_pointer | child_pointer;
    }

    /// Sets the leaf bit; the pointer bits and the masks are kept.
    pub fn mark_as_leaf(&mut self)
        ensures
            final(self).is_leaf_and_child_pointer == old(self).is_leaf_and_child_pointer | 0x8000_0000u32,
            final(self).child_mask_high == old(self).child_mask_high,
            final(self).child_mask_low == old(self).child_mask_low,
    {
        assert(1u32 << 31u32 == 0x8000_0000u32) by (bit_vector);
        self.is_leaf_and_child_pointer = self.is_leaf_and_child_pointer | (1u32 << 31u32);
    }

    pub fn child_mask(&self) -> (r: u64)
        ensures
            r == self.mask_spec(),
            r == self.child_mask_high as int * 0x1_0000_0000 + self.child_mask_low as int,
    {
        let h = self.child_mask_high;
        let l = self.child_mask_low;
        assert((((h as u64) << 32u64) | (l as u64)) == h as int * 0x1_0000_0000 + l as int) by (bit_vector);
        ((self.child_mask_high as u64) << 32u64) | (self.child_mask_low as u64)
    }

    /// Stores `mask`: its low half in the low word, its high half in the high word.
    pub fn set_child_mask(&mut self, mask: u64)
        ensures
            final(self).child_mask_low == mask % 0x1_0000_0000,
            final(self).child_mask_high == mask / 0x1_0000_0000,
            final(self).is_leaf_and_child_pointer == old(self).is_leaf_and_child_pointer,
            final(self).mask_spec() == mask,
    {
        assert((mask as u32) == mask % 0x1_0000_0000 && ((mask >> 32u64) as u32) == mask / 0x1_0000_0000
            && ((((mask >> 32u64) as u32) as u64) << 32u64) | ((mask as u32) as u64) == mask) by (bit_vector);
        self.child_mask_low = mask as u32;
        self.child_mask_high = (mask >> 32u64) as u32;
    }

    /// Sets bit `child_index` of the 64-bit mask.
    pub fn mark_child_active(&mut self, child_index: u8)
        requires
            child_index < 64,
        ensures
            child_index > 31 ==> final(self).child_mask_high == old(self).child_mask_high | (1u32 << (child_index - 32) as u32)
                && final(self).child_mask_low == old(self).child_mask_low,
            child_index <= 31 ==> final(self).child_mask_low == old(self).child_mask_low | (1u32 << child_index as u32)
                && final(self).child_mask_high == old(self).child_mask_high,
            final(self).is_leaf_and_child_pointer == old(self).is_leaf_and_child_pointer,
            final(self).mask_spec() == old(self).mask_spec() | (1u64 << child_index as u64),
            *final(self) == with_child_active(*old(self), child_index as nat),
    {
        let h = self.child_mask_high;
        let l = self.child_mask_low;
        let i = child_index as u64;
        if child_index > 31 {
            let s: u32 = (child_index - 32) as u32;
            assert(((((h | (1u32 << s)) as u64) << 32u64) | (l as u64))
                == ((((h as u64) << 32u64) | (l as u64)) | (1u64 << i))) by (bit_vector)
                requires s < 32, i == s + 32;
            self.child_mask_high = self.child_mask_high | (1u32 << s);
        } else {
            let s: u32 = child_index as u32;
            assert(((((h as u64) << 32u64) | ((l | (1u32 << s)) as u64)))
                == ((((h as u64) << 32u64) | (l as u64)) | (1u64 << i))) by (bit_vector)
                requires s < 32, i == s;
            self.child_mask_low = self.child_mask_low | (1u32 << s);
        }
    }
}

/// The tree: a pool of nodes whose entry 0 is the root, the packed leaf bytes, and
/// the number of levels (a tree of scale `s` spans a cube of side `4^s`).
pub struct Svt {
    pub node_pool: Vec<SvtNode>,
    pub leaf_data: Vec<u8>,
    pub scale: u8,
}

/// The occupancy mask of a 4x4x4 brick: bit `i` is set iff `brick[i]` is non-zero.
pub open spec fn brick_mask(brick: Seq<u8>) -> u64 {
    nonzero_mask_upto(brick, 64)
}

/// A brick with its occupied cells moved to the front, in order, the rest left as they were.
pub open spec fn packed_brick(brick: Seq<u8>, mask: u64) -> Seq<u8> {
    packed_upto(brick, mask, 64) + brick.subrange(popcount64(mask) as int, 64)
}

impl Svt {
    /// The 4x4x4 brick of voxels starting at `position`, with 0 where the brick
    /// reaches past the model; `None` when `position` is outside the model.
    pub fn get_brick(model_size: &UVec3, voxel_bytes: &[u8], position: &UVec3) -> (r: Option<[u8; 64]>)
        requires
            brick_readable(*model_size, *position, voxel_bytes@.len() as int),
        ensures
            r is Some <==> inside(*model_size, *position),
            r matches Some(b) ==> b@ == brick_spec(*model_size, voxel_bytes@, *position),
    {
        if position.x >= model_size.x || position.y >= model_size.y || position.z >= model_size.z {
            return None;
        }
        let sx = model_size.x as usize;
        let sy = model_size.y as usize;
        let px = position.x as usize;
        let py = position.y as usize;
        let pz = position.z as usize;
        let ex: usize = if model_size.x - position.x < 4 { (model_size.x - position.x) as usize } else { 4 };
        let ey: usize = if model_size.y - position.y < 4 { (model_size.y - position.y) as usize } else { 4 };
        let ez: usize = if model_size.z - position.z < 4 { (model_size.z - position.z) as usize } else { 4 };
        let ghost size = *model_size;
        let ghost pos = *position;
        assert(ex == extent(size.x, pos.x) && ey == extent(size.y, pos.y) && ez == extent(size.z, pos.z));
        let len = voxel_bytes.len();
        let mut brick = [0u8; 64];
        let mut k: usize = 0;
        while k < 64
            invariant
                k <= 64,
                sx == size.x && sy == size.y && px == pos.x && py == pos.y && pz == pos.z,
                ex == extent(size.x, pos.x) && ey == extent(size.y, pos.y) && ez == extent(size.z, pos.z),
                1 <= ex <= 4 && 1 <= ey <= 4 && 1 <= ez <= 4,
                inside(size, pos),
                len == voxel_bytes@.len(),
                brick_readable(size, pos, voxel_bytes@.len() as int),
                forall|j: int| 0 <= j < k ==> brick@[j] == brick_cell(size, voxel_bytes@, pos, j),
                forall|j: int| k <= j < 64 ==> brick@[j] == 0,
            decreases 64 - k,
        {
            let x = k % 4;
            let y = (k / 4) % 4;
            let z = k / 16;
            if x < ex && y < ey && z < ez {
                proof {
                    lemma_index_monotone(
                        sx as int, sy as int, px as int,
                        x as int, (py + y) as int, (pz + z) as int,
                        (ex - 1) as int, (py + ey - 1) as int, (pz + ez - 1) as int,
                    );
                    assert(px + (py + y) * sx + (pz + z) * sx * sy + x < voxel_bytes@.len());
                }
                let src = px + (py + y) * sx + (pz + z) * sx * sy + x;
                assert(src == voxel_index(size, pos.x + x, pos.y + y, pos.z + z));
                brick[k] = voxel_bytes[src];
            }
            k = k + 1;
        }
        assert(brick@ =~= brick_spec(size, voxel_bytes@, pos));
        Some(brick)
    }

    /// The occupancy mask of a brick.
    pub fn child_mask(brick: &[u8; 64]) -> (r: u64)
        ensures
            r == brick_mask(brick@),
            forall|i: nat| i < 64 ==> #[trigger] bit64(r, i) == (brick@[i as int] != 0),
    {
        let mut mask: u64 = 0;
        let mut i: usize = 0;
        while i < 64
            invariant
                i <= 64,
                mask == nonzero_mask_upto(brick@, i as nat),
            decreases 64 - i,
        {
            let v: u64 = if brick[i] != 0 { 1u64 } else { 0u64 };
            mask = mask | (v << (i as u64));
            i = i + 1;
        }
        proof {
            lemma_nonzero_mask_bits(brick@, 64);
        }
        mask
    }

    /// Moves the cells selected by `mask` to the front of the brick, keeping their order.
    pub fn pack_brick_tightly(brick: &mut [u8; 64], mask: u64)
        ensures
            final(brick)@ == packed_brick(old(brick)@, mask),
    {
        let ghost orig = brick@;
        let mut m: u64 = mask;
        let mut j: usize = 0;
        let mut i: usize = 0;
        proof {
            assert(mask >> 0u64 == mask) by (bit_vector);
        }
        while i < 64
            invariant
                i <= 64,
                j <= i,
                orig == old(brick)@,
                brick@.len() == 64,
                m == mask >> (i as u64),
                j == rank64(mask, i as nat),
                brick@.subrange(0, j as int) == packed_upto(orig, mask, i as nat),
                forall|k: int| j <= k < 64 ==> brick@[k] == orig[k],
            decreases 64 - i,
        {
            proof {
                lemma_packed_len(orig, mask, i as nat);
                let ii = i as u64;
                assert(((mask >> ii) & 1 != 0) == ((mask >> ii) & 1 == 1)) by (bit_vector);
                assert((mask >> ii) >> 1u64 == mask >> ((ii + 1) as u64)) by (bit_vector)
                    requires ii < 64;
            }
            if m & 1 != 0 {
                let v = brick[i];
                brick[j] = v;
                j = j + 1;
            }
            m = m >> 1u64;
            i = i + 1;
            proof {
                assert(brick@.subrange(0, j as int) =~= packed_upto(orig, mask, i as nat));
            }
        }
        proof {
            lemma_packed_len(orig, mask, 64);
            assert(brick@ =~= packed_brick(orig, mask));
        }
    }
}

/// The bytes of the model reach every voxel of the model.
pub open spec fn bytes_cover(size: UVec3, len: int) -> bool {
    len >= size.x * size.y * size.z
}

pub proof fn lemma_cover_readable(size: UVec3, pos: UVec3, len: int)
    requires
        bytes_cover(size, len),
    ensures
        brick_readable(size, pos, len),
{
    if inside(size, pos) {
        let sx = size.x as int;
        let sy = size.y as int;
        let sz = size.z as int;
        lemma_index_monotone(
            sx, sy, 0,
            pos.x + extent(size.x, pos.x) - 1, pos.y + extent(size.y, pos.y) - 1, pos.z + extent(size.z, pos.z) - 1,
            sx - 1, sy - 1, sz - 1,
        );
        assert((sx - 1) + (sy - 1) * sx + (sz - 1) * sx * sy == sx * sy * sz - 1) by (nonlinear_arith);
    }
}

impl Svt {
    fn build_checked(model_size: &UVec3, voxel_bytes: &[u8]) -> (r: Option<Svt>)
        requires
            build_defined(*model_size, voxel_bytes@.len() as int),
        ensures
            r is Some <==> tree_spec(*model_size, voxel_bytes@).0,
            r matches Some(t) ==> is_tree_of(t, *model_size, voxel_bytes@),
    {
        let mut node_pool: Vec<SvtNode> = Vec::new();
        node_pool.push(SvtNode::default());
        let mut leaf_data: Vec<u8> = Vec::new();
        let largest = model_size.max_element();
        let log = u32_ilog4(largest - 1);
        proof {
            lemma_digits4_of_log((largest - 1) as nat, log as nat);
            lemma_pow4_values();
            if log >= 11 {
                lemma_pow4_monotone(11, log as nat);
            }
            lemma_pow4_monotone(log as nat + 1, 11);
        }
        let scale = log + 1;
        let root = Self::build_tree_recursive(
            &mut node_pool,
            &mut leaf_data,
            model_size,
            voxel_bytes,
            UVec3::zero(),
            scale,
        );
        match root {
            Some(root) => {
                node_pool.set(0, root);
                proof {
                    let b = tree_spec(*model_size, voxel_bytes@);
                    assert(node_pool@ =~= seq![b.1] + b.2);
                }
                Some(Svt { node_pool, leaf_data, scale: scale as u8 })
            },
            None => None,
        }
    }

    /// Builds the tree of a model of `model_size` whose voxels are `voxel_bytes`
    /// (x fastest, then y, then z).
    pub fn build_tree(model_size: &UVec3, voxel_bytes: &[u8]) -> (r: Svt)
        requires
            build_defined(*model_size, voxel_bytes@.len() as int),
            tree_spec(*model_size, voxel_bytes@).0,
        ensures
            is_tree_of(r, *model_size, voxel_bytes@),
            forall|x: int, y: int, z: int|
                0 <= x < pow4(r.scale as nat) && 0 <= y < pow4(r.scale as nat) && 0 <= z < pow4(r.scale as nat) ==>
                #[trigger] lookup(r.node_pool@, r.leaf_data@, r.node_pool@[0], r.scale as nat, x, y, z)
                    == voxel_at(*model_size, voxel_bytes@, x, y, z),
            forall|i: int| 0 <= i < r.leaf_data@.len() ==> #[trigger] r.leaf_data@[i] != 0,
            r.leaf_data@.len() == occupied(*model_size, voxel_bytes@).len(),
            forall|val: u8| val != 0 ==>
                #[trigger] count_of(r.leaf_data@, val) == occupied_with(*model_size, voxel_bytes@, val).len(),
            forall|k: int| 1 <= k < r.node_pool@.len() ==> (#[trigger] r.node_pool@[k]).mask_spec() != 0,
            forall|k: int| 0 <= k < r.node_pool@.len() && r.node_pool@[k].mask_spec() != 0 ==>
                node_within(#[trigger] r.node_pool@[k], 1, r.node_pool@.len(), 0, r.leaf_data@.len()),
            inner_child_total(r.node_pool@) == r.node_pool@.len() - 1,
            leaf_byte_total(r.node_pool@) == r.leaf_data@.len(),
            forall|x: u32, y: u32, z: u32|
                x < pow4(r.scale as nat) && y < pow4(r.scale as nat) && z < pow4(r.scale as nat) ==>
                #[trigger] walk(r.node_pool@, r.leaf_data@, r.node_pool@[0], r.scale as nat, x, y, z)
                    == voxel_at(*model_size, voxel_bytes@, x as int, y as int, z as int),
    {
        let r = Self::build_checked(model_size, voxel_bytes);
        proof {
            lemma_tree_walk_gives_back_voxels(*model_size, voxel_bytes@);
            lemma_tree_shape(*model_size, voxel_bytes@);
            lemma_leaf_data_holds_voxels(*model_size, voxel_bytes@);
            lemma_leaf_data_counts_voxels(*model_size, voxel_bytes@);
            lemma_tree_gives_back_voxels(*model_size, voxel_bytes@);
            lemma_build_leaves_nonzero(*model_size, voxel_bytes@, UVec3 { x: 0, y: 0, z: 0 }, scale_of(*model_size), 1, 0);
        }
        r.unwrap()
    }

    /// The tree of a model's palette indices. The voxels are consumed.
    pub fn from_voxel_data(voxel_data: &mut XYZIVoxelData) -> (r: Svt)
        requires
            voxels_fit(old(voxel_data).size_spec(), old(voxel_data).data_spec()),
            grid_fits(old(voxel_data).size_spec(), 1),
            build_defined(old(voxel_data).size_spec(),
                palette_grid(old(voxel_data).size_spec(), old(voxel_data).data_spec()).len() as int),
            tree_spec(old(voxel_data).size_spec(), palette_grid(old(voxel_data).size_spec(), old(voxel_data).data_spec())).0,
        ensures
            is_tree_of(r, old(voxel_data).size_spec(), palette_grid(old(voxel_data).size_spec(), old(voxel_data).data_spec())),
            forall|x: int, y: int, z: int|
                0 <= x < pow4(r.scale as nat) && 0 <= y < pow4(r.scale as nat) && 0 <= z < pow4(r.scale as nat) ==>
                #[trigger] lookup(r.node_pool@, r.leaf_data@, r.node_pool@[0], r.scale as nat, x, y, z)
                    == voxel_at(old(voxel_data).size_spec(),
                        palette_grid(old(voxel_data).size_spec(), old(voxel_data).data_spec()), x, y, z),
            r.leaf_data@.len() == occupied(old(voxel_data).size_spec(),
                palette_grid(old(voxel_data).size_spec(), old(voxel_data).data_spec())).len(),
            forall|val: u8| val != 0 ==> #[trigger] count_of(r.leaf_data@, val) == occupied_with(old(voxel_data).size_spec(),
                palette_grid(old(voxel_data).size_spec(), old(voxel_data).data_spec()), val).len(),
            forall|x: u32, y: u32, z: u32|
                x < pow4(r.scale as nat) && y < pow4(r.scale as nat) && z < pow4(r.scale as nat) ==>
                #[trigger] walk(r.node_pool@, r.leaf_data@, r.node_pool@[0], r.scale as nat, x, y, z)
                    == voxel_at(old(voxel_data).size_spec(),
                        palette_grid(old(voxel_data).size_spec(), old(voxel_data).data_spec()), x as int, y as int, z as int),
            final(voxel_data).size_spec() == old(voxel_data).size_spec(),
            final(voxel_data).palette_spec() == old(voxel_data).palette_spec(),
            final(voxel_data).data_spec() == Seq::<crate::voxel_loader::XYZIVoxel>::empty(),
    {
        let data = voxel_data.as_palette_indices();
        let size = voxel_data.size();
        Self::build_tree(size, data.as_slice())
    }

    /// `from_voxel_data` where it is defined, `None` elsewhere. The voxels are consumed
    /// once they are known to fit a grid that fits in memory.
    pub fn try_from_voxel_data(voxel_data: &mut XYZIVoxelData) -> (r: Option<Svt>)
        ensures
            ({
                let size = old(voxel_data).size_spec();
                let vs = old(voxel_data).data_spec();
                let grid = palette_grid(size, vs);
                &&& r is Some <==> voxels_fit(size, vs) && grid_fits(size, 1)
                    && build_defined(size, grid.len() as int) && tree_spec(size, grid).0
                &&& r matches Some(t) ==> is_tree_of(t, size, grid)
                &&& final(voxel_data).size_spec() == size
                &&& final(voxel_data).palette_spec() == old(voxel_data).palette_spec()
                &&& final(voxel_data).data_spec() == if voxels_fit(size, vs) && grid_fits(size, 1) {
                    Seq::<crate::voxel_loader::XYZIVoxel>::empty()
                } else {
                    vs
                }
            }),
    {
        if !voxel_data.voxels_fit_grid() || !voxel_data.grid_fits_memory(1) {
            return None;
        }
        let data = voxel_data.as_palette_indices();
        let size = voxel_data.size();
        Self::try_build_tree(size, data.as_slice())
    }

    /// `build_tree` where it is defined, `None` elsewhere.
    pub fn try_build_tree(model_size: &UVec3, voxel_bytes: &[u8]) -> (r: Option<Svt>)
        ensures
            r is Some <==> build_defined(*model_size, voxel_bytes@.len() as int) && tree_spec(*model_size, voxel_bytes@).0,
            r matches Some(t) ==> is_tree_of(t, *model_size, voxel_bytes@),
    {
        let largest = model_size.max_element();
        if largest < 2 || largest - 1 >= 0x40_0000 {
            proof {
                lemma_pow4_values();
            }
            return None;
        }
        let sx = model_size.x as u64;
        let sy = model_size.y as u64;
        let sz = model_size.z as u64;
        let len = voxel_bytes.len() as u64;
        proof {
            lemma_pow4_values();
            assert(sx * sy <= 0x40_0000 * 0x40_0000) by (nonlinear_arith)
                requires sx <= 0x40_0000, sy <= 0x40_0000;
            assert(sx * sy * sz <= 0x40_0000 * 0x40_0000 * 0x40_0000) by (nonlinear_arith)
                requires sx <= 0x40_0000, sy <= 0x40_0000, sz <= 0x40_0000;
        }
        let volume: u128 = (sx as u128) * (sy as u128) * (sz as u128);
        if (len as u128) < volume {
            return None;
        }
        Self::build_checked(model_size, voxel_bytes)
    }

    /// Builds the subtree of scale `scale` at `position`, appending what it needs to
    /// the pool and to the leaf data; `None` where a child pointer would not fit in
    /// 31 bits.
    fn build_tree_recursive(
        node_pool: &mut Vec<SvtNode>,
        leaf_data: &mut Vec<u8>,
        model_size: &UVec3,
        voxel_bytes: &[u8],
        position: UVec3,
        scale: u32,
    ) -> (r: Option<SvtNode>)
        requires
            1 <= scale <= 11,
            position.x + pow4(scale as nat) <= pow4(11),
            position.y + pow4(scale as nat) <= pow4(11),
            position.z + pow4(scale as nat) <= pow4(11),
            bytes_cover(*model_size, voxel_bytes@.len() as int),
        ensures
            ({
                let b = build_spec(*model_size, voxel_bytes@, position, scale as nat,
                    old(node_pool)@.len(), old(leaf_data)@.len());
                &&& r is Some <==> b.0
                &&& b.0 ==> r == Some(b.1)
                &&& b.0 ==> final(node_pool)@ == old(node_pool)@ + b.2
                &&& b.0 ==> final(leaf_data)@ == old(leaf_data)@ + b.3
            }),
            r matches Some(n) ==> ({
                &&& forall|k: int| old(node_pool)@.len() <= k < final(node_pool)@.len() ==>
                    (#[trigger] final(node_pool)@[k]).mask_spec() != 0
                &&& n.is_leaf_spec() ==> final(node_pool)@.len() == old(node_pool)@.len()
                    && n.pointer_spec() == old(leaf_data)@.len()
                    && final(leaf_data)@.len() == old(leaf_data)@.len() + child_count(n)
                &&& scale > 1 ==> !n.is_leaf_spec() && n.pointer_spec() >= old(node_pool)@.len()
                    && n.pointer_spec() + child_count(n) == final(node_pool)@.len()
            }),
        decreases scale,
    {
        proof {
            if build_spec(*model_size, voxel_bytes@, position, scale as nat, node_pool@.len(), leaf_data@.len()).0 {
                lemma_build_step(*model_size, voxel_bytes@, position, scale as nat, node_pool@.len(), leaf_data@.len());
            }
        }
        let ghost size = *model_size;
        let ghost data = voxel_bytes@;
        let ghost pool0 = node_pool@;
        let ghost leaves0 = leaf_data@;
        let mut node = SvtNode::default();
        if scale == 1 {
            proof {
                lemma_cover_readable(size, position, data.len() as int);
            }
            let brick = Self::get_brick(model_size, voxel_bytes, &position);
            if brick.is_none() {
                return Some(node);
            }
            node.mark_as_leaf();
            let mut brick = brick.unwrap();
            let child_mask = Self::child_mask(&brick);
            node.set_child_mask(child_mask);
            Self::pack_brick_tightly(&mut brick, child_mask);
            let len = leaf_data.len();
            if len > 0x7FFF_FFFF {
                return None;
            }
            let ptr = len as u32;
            node.set_child_pointer(ptr);
            proof {
                assert((0u32 | 0x8000_0000u32) | ptr == 0x8000_0000u32 | ptr) by (bit_vector);
            }
            let number_of_elements = u64_count_ones(child_mask) as usize;
            proof {
                lemma_packed_len(brick_spec(size, data, position), child_mask, 64);
                assert(number_of_elements <= 64) by {
                    crate::bits::lemma_rank_monotone(child_mask, 64, 64);
                    lemma_rank_le(child_mask, 64);
                }
            }
            let mut k: usize = 0;
            while k < number_of_elements
                invariant
                    k <= number_of_elements <= 64,
                    brick@.len() == 64,
                    leaf_data@ == leaves0 + brick@.subrange(0, k as int),
                decreases number_of_elements - k,
            {
                leaf_data.push(brick[k]);
                k = k + 1;
                proof {
                    assert(leaf_data@ =~= leaves0 + brick@.subrange(0, k as int));
                }
            }
            proof {
                let mask = nonzero_mask(brick_spec(size, data, position));
                assert(brick@.subrange(0, number_of_elements as int) =~= crate::bits::packed_upto(brick_spec(size, data, position), mask, 64));
                assert(node == leaf_node(mask, ptr));
            }
            return Some(node);
        }
        let child_scale: u32 = scale - 1;
        let mut children: Vec<SvtNode> = Vec::new();
        proof {
            lemma_pow4_values();
            lemma_pow4_monotone(child_scale as nat, 10);
            assert(pow4(scale as nat) == 4 * pow4(child_scale as nat));
        }
        let mut i: u32 = 0;
        while i < 64
            invariant
                0 <= i <= 64,
                child_scale == scale - 1,
                1 <= child_scale <= 10,
                pow4(scale as nat) == 4 * pow4(child_scale as nat),
                position.x + pow4(scale as nat) <= pow4(11),
                position.y + pow4(scale as nat) <= pow4(11),
                position.z + pow4(scale as nat) <= pow4(11),
                pow4(11) == 0x40_0000,
                bytes_cover(size, data.len() as int),
                size == *model_size,
                data == voxel_bytes@,
                pool0 == old(node_pool)@,
                leaves0 == old(leaf_data)@,
                ({
                    let c = build_children(size, data, position, child_scale as nat, pool0.len(), leaves0.len(), i as nat);
                    &&& c.0
                    &&& node == c.1
                    &&& children@ == c.2
                    &&& node_pool@ == pool0 + c.3
                    &&& leaf_data@ == leaves0 + c.4
                }),
            decreases 64 - i,
        {
            let x = i & 3;
            let y = i >> 2u32 & 3;
            let z = i >> 4u32 & 3;
            proof {
                assert(x == i % 4 && y == (i / 4) % 4 && z == i / 16) by (bit_vector)
                    requires i < 64, x == i & 3, y == i >> 2u32 & 3, z == i >> 4u32 & 3;
                lemma_pow4_shl(x, child_scale);
                lemma_pow4_shl(y, child_scale);
                lemma_pow4_shl(z, child_scale);
            }
            let child_pos = UVec3::new(
                position.x + (x << (2 * child_scale)),
                position.y + (y << (2 * child_scale)),
                position.z + (z << (2 * child_scale)),
            );
            let ghost prev = build_children(size, data, position, child_scale as nat, pool0.len(), leaves0.len(), i as nat);
            assert(child_pos == child_position(position, child_scale as nat, i as nat));
            let child = Self::build_tree_recursive(
                node_pool,
                leaf_data,
                model_size,
                voxel_bytes,
                child_pos,
                child_scale,
            );
            proof {
                lemma_children_ok_monotone(size, data, position, child_scale as nat, pool0.len(), leaves0.len(), (i + 1) as nat, 64);
            }
            let child = match child {
                Some(c) => c,
                None => {
                    proof {
                        let cb = build_spec(size, data, child_pos, child_scale as nat, pool0.len() + prev.3.len(), leaves0.len() + prev.4.len());
                        assert(!cb.0);
                        assert(!build_children(size, data, position, child_scale as nat, pool0.len(), leaves0.len(), (i + 1) as nat).0);
                        assert(!build_children(size, data, position, child_scale as nat, pool0.len(), leaves0.len(), 64).0);
                        assert(!build_spec(size, data, position, scale as nat, pool0.len(), leaves0.len()).0);
                    }
                    return None;
                },
            };
            if child.has_children() {
                node.mark_child_active(i as u8);
                children.push(child);
            }
            i = i + 1;
            proof {
                let c = build_children(size, data, position, child_scale as nat, pool0.len(), leaves0.len(), i as nat);
                assert(node_pool@ =~= pool0 + c.3);
                assert(leaf_data@ =~= leaves0 + c.4);
                assert(node == c.1);
            }
        }
        let ghost cfinal = build_children(size, data, position, child_scale as nat, pool0.len(), leaves0.len(), 64);
        let ghost bfinal = build_spec(size, data, position, scale as nat, pool0.len(), leaves0.len());
        assert(bfinal.0 == (cfinal.0 && pool0.len() + cfinal.3.len() <= 0x7FFF_FFFF));
        let pool_len = node_pool.len();
        if pool_len > 0x7FFF_FFFF {
            return None;
        }
        node.set_child_pointer(pool_len as u32);
        proof {
            let pl = pool_len as u32;
            assert(0u32 | pl == pl) by (bit_vector);
            lemma_children_word_zero(size, data, position, child_scale as nat, pool0.len(), leaves0.len(), 64);
        }
        node_pool.append(&mut children);
        proof {
            assert(node_pool@ =~= pool0 + bfinal.2);
            assert(node == bfinal.1);
        }
        Some(node)
    }
}

/// The sizes for which the tree is defined: the longest side is at least 2 and at
/// most `4^11`, and the bytes reach every voxel.
pub open spec fn build_defined(size: UVec3, len: int) -> bool {
    &&& size.max_element_spec() >= 2
    &&& size.max_element_spec() - 1 < pow4(11)
    &&& bytes_cover(size, len)
}

/// The tree of a model: (every pointer fits in 31 bits, the root, the nodes after
/// the root, the leaf data).
pub open spec fn tree_spec(size: UVec3, data: Seq<u8>) -> (bool, SvtNode, Seq<SvtNode>, Seq<u8>) {
    build_spec(size, data, UVec3 { x: 0, y: 0, z: 0 }, scale_of(size), 1, 0)
}

/// What a tree built from `size` and `data` holds.
pub open spec fn is_tree_of(t: Svt, size: UVec3, data: Seq<u8>) -> bool {
    let b = tree_spec(size, data);
    &&& t.scale == scale_of(size)
    &&& t.node_pool@ == seq![b.1] + b.2
    &&& t.leaf_data@ == b.3
}

/// A built tree gives back, for every point of its cube, the voxel of the model
/// there, and 0 for the points outside the model.
pub proof fn lemma_tree_gives_back_voxels(size: UVec3, data: Seq<u8>)
    requires
        build_defined(size, data.len() as int),
        tree_spec(size, data).0,
    ensures
        forall|x: int, y: int, z: int|
            0 <= x < pow4(scale_of(size)) && 0 <= y < pow4(scale_of(size)) && 0 <= z < pow4(scale_of(size)) ==>
            #[trigger] lookup(seq![tree_spec(size, data).1] + tree_spec(size, data).2, tree_spec(size, data).3,
                tree_spec(size, data).1, scale_of(size), x, y, z) == voxel_at(size, data, x, y, z),
{
    let b = tree_spec(size, data);
    let s = scale_of(size);
    lemma_scale_bounds(size);
    lemma_pow4_monotone(s, 11);
    lemma_pow4_values();
    let pool = seq![b.1] + b.2;
    assert(pool.subrange(1, (1 + b.2.len()) as int) =~= b.2);
    assert(b.3.subrange(0, b.3.len() as int) =~= b.3);
    lemma_build_correct(size, data, UVec3 { x: 0, y: 0, z: 0 }, s, 1, 0, pool, b.3);
}

pub proof fn lemma_scale_bounds(size: UVec3)
    requires
        size.max_element_spec() >= 2,
        size.max_element_spec() - 1 < pow4(11),
    ensures
        1 <= scale_of(size) <= 11,
{
    let m = (size.max_element_spec() - 1) as nat;
    let r = crate::bits::spec_ilog4(m);
    crate::bits::lemma_ilog4(m);
    lemma_digits4_of_log(m, r);
    if r >= 11 {
        lemma_pow4_monotone(11, r);
    }
}

pub proof fn lemma_rank_le(m: u64, n: nat)
    ensures
        rank64(m, n) <= n,
    decreases n,
{
    if n > 0 {
        lemma_rank_le(m, (n - 1) as nat);
    }
}

pub proof fn lemma_children_word_zero(size: UVec3, data: Seq<u8>, pos: UVec3, cs: nat, pool_len: nat, leaf_len: nat, i: nat)
    ensures
        build_children(size, data, pos, cs, pool_len, leaf_len, i).1.is_leaf_and_child_pointer == 0,
    decreases i,
{
    if i > 0 {
        lemma_children_word_zero(size, data, pos, cs, pool_len, leaf_len, (i - 1) as nat);
    }
}

/// Once a child's build fails, building more children fails too.
pub proof fn lemma_children_ok_monotone(size: UVec3, data: Seq<u8>, pos: UVec3, cs: nat, pool_len: nat, leaf_len: nat, i: nat, j: nat)
    requires
        i <= j,
    ensures
        build_children(size, data, pos, cs, pool_len, leaf_len, j).0 ==> build_children(size, data, pos, cs, pool_len, leaf_len, i).0,
    decreases j,
{
    if i < j {
        lemma_children_ok_monotone(size, data, pos, cs, pool_len, leaf_len, i, (j - 1) as nat);
    }
}

impl Default for SvtNode {
    fn default() -> (r: Self)
        ensures
            r.is_leaf_and_child_pointer == 0,
            r.child_mask_high == 0,
            r.child_mask_low == 0,
    {
        SvtNode { is_leaf_and_child_pointer: 0, child_mask_high: 0, child_mask_low: 0 }
    }
}

} // verus!
