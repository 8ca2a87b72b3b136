//! What the tree means: a built tree gives back, for every point of its cube, the
//! voxel of the model there (0 outside the model).
use vstd::prelude::*;
use crate::vec3::UVec3;
use crate::svt::SvtNode;
use crate::bits::{
    bit64, rank64, pow4, packed_upto, lemma_or_bit, lemma_packed_index, lemma_nonzero_mask_bits,
    lemma_pow4_positive, popcount64, lemma_packed_len, nonzero_mask_upto, lemma_rank_monotone,
};
use crate::svt::{brick_mask, packed_brick};
use crate::svt_model::{
    build_spec, build_children, build_leaf, child_position, with_child_active, leaf_node, empty_node,
    nonzero_mask, lookup, voxel_at, inside, extent, brick_spec, brick_cell, voxel_index,
};

verus! {

/// What the mask and pointer of a node give back for child `j` at a point of the child's cube.
pub open spec fn child_value(
    pool: Seq<SvtNode>,
    leaves: Seq<u8>,
    mask: u64,
    ptr: int,
    child_scale: nat,
    j: nat,
    x: int,
    y: int,
    z: int,
) -> u8 {
    if bit64(mask, j) {
        lookup(pool, leaves, pool[ptr + rank64(mask, j)], child_scale, x, y, z)
    } else {
        0
    }
}

pub proof fn lemma_with_child_active_mask(n: SvtNode, i: nat)
    requires
        i < 64,
    ensures
        with_child_active(n, i).mask_spec() == n.mask_spec() | (1u64 << i as u64),
{
    let h = n.child_mask_high;
    let l = n.child_mask_low;
    let ii = i as u64;
    if i > 31 {
        let s: u32 = (i - 32) as u32;
        assert(((((h | (1u32 << s)) as u64) << 32u64) | (l as u64))
            == ((((h as u64) << 32u64) | (l as u64)) | (1u64 << ii))) by (bit_vector)
            requires s < 32, ii == s + 32;
    } else {
        let s: u32 = i as u32;
        assert(((((h as u64) << 32u64) | ((l | (1u32 << s)) as u64)))
            == ((((h as u64) << 32u64) | (l as u64)) | (1u64 << ii))) by (bit_vector)
            requires s < 32, ii == s;
    }
}

pub proof fn lemma_rank_or_above(m: u64, i: nat, j: nat)
    requires
        i < 64,
        j <= i,
    ensures
        rank64(m | (1u64 << i as u64), j) == rank64(m, j),
    decreases j,
{
    if j > 0 {
        lemma_rank_or_above(m, i, (j - 1) as nat);
        lemma_or_bit(m, i as u64, (j - 1) as u64);
    }
}

pub proof fn lemma_zero_mask_bits(b: nat)
    requires
        b < 64,
    ensures
        !bit64(0u64, b),
{
    let bb = b as u64;
    assert((0u64 >> bb) & 1 != 1) by (bit_vector);
}

pub proof fn lemma_empty_node_mask()
    ensures
        empty_node().mask_spec() == 0,
        !empty_node().is_leaf_spec(),
{
    assert((((0u32 as u64) << 32u64) | (0u32 as u64)) == 0u64) by (bit_vector);
    assert(0u32 >> 31u32 != 1) by (bit_vector);
}

/// A node with an empty mask gives back 0 everywhere.
pub proof fn lemma_lookup_empty(pool: Seq<SvtNode>, leaves: Seq<u8>, node: SvtNode, scale: nat, x: int, y: int, z: int)
    requires
        node.mask_spec() == 0,
    ensures
        lookup(pool, leaves, node, scale, x, y, z) == 0,
{
    let b = x + 4 * y + 16 * z;
    if 0 <= b < 64 {
        lemma_zero_mask_bits(b as nat);
    }
    if scale > 1 {
        let q = pow4((scale - 1) as nat) as int;
        let c = x / q + 4 * (y / q) + 16 * (z / q);
        if 0 <= c < 64 {
            lemma_zero_mask_bits(c as nat);
        }
    }
}

/// The children kept are counted by the mask, and no bit at or above `i` is set.
pub proof fn lemma_children_shape(size: UVec3, data: Seq<u8>, pos: UVec3, cs: nat, pl: nat, ll: nat, i: nat)
    requires
        i <= 64,
    ensures
        ({
            let c = build_children(size, data, pos, cs, pl, ll, i);
            &&& c.2.len() == rank64(c.1.mask_spec(), i)
            &&& forall|k: nat| i <= k < 64 ==> !#[trigger] bit64(c.1.mask_spec(), k)
        }),
    decreases i,
{
    if i == 0 {
        lemma_empty_node_mask();
        assert forall|k: nat| 0 <= k < 64 implies !#[trigger] bit64(0u64, k) by {
            lemma_zero_mask_bits(k);
        }
    } else {
        lemma_children_shape(size, data, pos, cs, pl, ll, (i - 1) as nat);
        let p = build_children(size, data, pos, cs, pl, ll, (i - 1) as nat);
        let child = build_spec(size, data, child_position(pos, cs, (i - 1) as nat), cs, pl + p.3.len(), ll + p.4.len());
        let c = build_children(size, data, pos, cs, pl, ll, i);
        let m = p.1.mask_spec();
        if child.1.mask_spec() != 0 {
            lemma_with_child_active_mask(p.1, (i - 1) as nat);
            lemma_rank_or_above(m, (i - 1) as nat, (i - 1) as nat);
            lemma_or_bit(m, (i - 1) as u64, (i - 1) as u64);
            assert forall|k: nat| i <= k < 64 implies !#[trigger] bit64(c.1.mask_spec(), k) by {
                lemma_or_bit(m, (i - 1) as u64, k as u64);
            }
        }
    }
}

pub proof fn lemma_leaf_node_fields(mask: u64, ptr: u32)
    requires
        ptr <= 0x7FFF_FFFF,
    ensures
        leaf_node(mask, ptr).is_leaf_spec(),
        leaf_node(mask, ptr).pointer_spec() == ptr,
        leaf_node(mask, ptr).mask_spec() == mask,
{
    assert((0x8000_0000u32 | ptr) >> 31u32 == 1 && (0x8000_0000u32 | ptr) & 0x7FFFFFFFu32 == ptr) by (bit_vector)
        requires ptr <= 0x7FFF_FFFF;
    assert(((((mask / 0x1_0000_0000) as u32) as u64) << 32u64) | (((mask % 0x1_0000_0000) as u32) as u64) == mask) by (bit_vector);
}

pub proof fn lemma_inner_node_fields(n: SvtNode, ptr: u32)
    requires
        ptr <= 0x7FFF_FFFF,
    ensures
        !(SvtNode { is_leaf_and_child_pointer: ptr, ..n }).is_leaf_spec(),
        (SvtNode { is_leaf_and_child_pointer: ptr, ..n }).pointer_spec() == ptr,
        (SvtNode { is_leaf_and_child_pointer: ptr, ..n }).mask_spec() == n.mask_spec(),
{
    assert(ptr >> 31u32 != 1 && ptr & 0x7FFFFFFFu32 == ptr) by (bit_vector)
        requires ptr <= 0x7FFF_FFFF;
}

/// A leaf built at `pos` gives back the voxels of its brick.
pub proof fn lemma_leaf_correct(size: UVec3, data: Seq<u8>, pos: UVec3, ll: nat, pool: Seq<SvtNode>, leaves: Seq<u8>)
    requires
        build_leaf(size, data, pos, ll).0,
        ll + build_leaf(size, data, pos, ll).3.len() <= leaves.len(),
        leaves.subrange(ll as int, (ll + build_leaf(size, data, pos, ll).3.len()) as int) == build_leaf(size, data, pos, ll).3,
    ensures
        forall|x: int, y: int, z: int| 0 <= x < 4 && 0 <= y < 4 && 0 <= z < 4 ==>
            #[trigger] lookup(pool, leaves, build_leaf(size, data, pos, ll).1, 1, x, y, z)
                == voxel_at(size, data, pos.x + x, pos.y + y, pos.z + z),
{
    let b = build_leaf(size, data, pos, ll);
    if !inside(size, pos) {
        lemma_empty_node_mask();
        assert forall|x: int, y: int, z: int| 0 <= x < 4 && 0 <= y < 4 && 0 <= z < 4 implies
            #[trigger] lookup(pool, leaves, b.1, 1, x, y, z) == voxel_at(size, data, pos.x + x, pos.y + y, pos.z + z) by {
            lemma_lookup_empty(pool, leaves, b.1, 1, x, y, z);
        }
    } else {
        let brick = brick_spec(size, data, pos);
        let mask = nonzero_mask(brick);
        lemma_leaf_node_fields(mask, ll as u32);
        lemma_nonzero_mask_bits(brick, 64);
        assert forall|x: int, y: int, z: int| 0 <= x < 4 && 0 <= y < 4 && 0 <= z < 4 implies
            #[trigger] lookup(pool, leaves, b.1, 1, x, y, z) == voxel_at(size, data, pos.x + x, pos.y + y, pos.z + z) by {
            let k = x + 4 * y + 16 * z;
            assert(k % 4 == x && (k / 4) % 4 == y && k / 16 == z);
            assert(brick[k] == brick_cell(size, data, pos, k));
            assert(brick[k] == voxel_at(size, data, pos.x + x, pos.y + y, pos.z + z));
            assert(bit64(mask, k as nat) == (brick[k] != 0));
            if bit64(mask, k as nat) {
                lemma_packed_index(brick, mask, 64, k as nat);
                assert(leaves[(ll + rank64(mask, k as nat)) as int] == packed_upto(brick, mask, 64)[rank64(mask, k as nat) as int]);
            }
        }
    }
}

/// The subtree built at `pos` gives back, for every point of its cube, the voxel there,
/// wherever the pool and the leaf data hold what the build appended.
pub proof fn lemma_build_correct(
    size: UVec3,
    data: Seq<u8>,
    pos: UVec3,
    scale: nat,
    pl: nat,
    ll: nat,
    pool: Seq<SvtNode>,
    leaves: Seq<u8>,
)
    requires
        1 <= scale,
        pos.x + pow4(scale) <= 0x1_0000_0000,
        pos.y + pow4(scale) <= 0x1_0000_0000,
        pos.z + pow4(scale) <= 0x1_0000_0000,
        build_spec(size, data, pos, scale, pl, ll).0,
        pl + build_spec(size, data, pos, scale, pl, ll).2.len() <= pool.len(),
        pool.subrange(pl as int, (pl + build_spec(size, data, pos, scale, pl, ll).2.len()) as int)
            == build_spec(size, data, pos, scale, pl, ll).2,
        ll + build_spec(size, data, pos, scale, pl, ll).3.len() <= leaves.len(),
        leaves.subrange(ll as int, (ll + build_spec(size, data, pos, scale, pl, ll).3.len()) as int)
            == build_spec(size, data, pos, scale, pl, ll).3,
    ensures
        forall|x: int, y: int, z: int|
            0 <= x < pow4(scale) && 0 <= y < pow4(scale) && 0 <= z < pow4(scale) ==>
            #[trigger] lookup(pool, leaves, build_spec(size, data, pos, scale, pl, ll).1, scale, x, y, z)
                == voxel_at(size, data, pos.x + x, pos.y + y, pos.z + z),
    decreases scale, 65nat,
{
    let b = build_spec(size, data, pos, scale, pl, ll);
    if scale <= 1 {
        assert(pow4(1) == 4);
        lemma_leaf_correct(size, data, pos, ll, pool, leaves);
    } else {
        let cs = (scale - 1) as nat;
        let c = build_children(size, data, pos, cs, pl, ll, 64);
        let ptr = pl + c.3.len();
        let q = pow4(cs) as int;
        assert(pow4(scale) == 4 * q);
        lemma_pow4_positive(cs);
        lemma_inner_node_fields(c.1, ptr as u32);
        assert(pool.subrange(pl as int, (pl + c.3.len()) as int) =~= c.3) by {
            assert(pool.subrange(pl as int, (pl + c.3.len()) as int)
                =~= pool.subrange(pl as int, (pl + b.2.len()) as int).subrange(0, c.3.len() as int));
        }
        assert(pool.subrange(ptr as int, (ptr + c.2.len()) as int) =~= c.2) by {
            assert(pool.subrange(ptr as int, (ptr + c.2.len()) as int)
                =~= pool.subrange(pl as int, (pl + b.2.len()) as int).subrange(c.3.len() as int, b.2.len() as int));
        }
        lemma_children_correct(size, data, pos, cs, pl, ll, 64, pool, leaves, ptr as int);
        let m = c.1.mask_spec();
        assert forall|x: int, y: int, z: int|
            0 <= x < pow4(scale) && 0 <= y < pow4(scale) && 0 <= z < pow4(scale) implies
            #[trigger] lookup(pool, leaves, b.1, scale, x, y, z) == voxel_at(size, data, pos.x + x, pos.y + y, pos.z + z) by {
            let cx = x / q;
            let cy = y / q;
            let cz = z / q;
            vstd::arithmetic::div_mod::lemma_fundamental_div_mod(x, q);
            vstd::arithmetic::div_mod::lemma_fundamental_div_mod(y, q);
            vstd::arithmetic::div_mod::lemma_fundamental_div_mod(z, q);
            assert(0 <= cx < 4 && 0 <= cy < 4 && 0 <= cz < 4) by (nonlinear_arith)
                requires q > 0, 0 <= x < 4 * q, 0 <= y < 4 * q, 0 <= z < 4 * q,
                    cx == x / q, cy == y / q, cz == z / q;
            assert(0 <= x % q < q && 0 <= y % q < q && 0 <= z % q < q) by (nonlinear_arith)
                requires q > 0;
            let j = cx + 4 * cy + 16 * cz;
            assert(j % 4 == cx && (j / 4) % 4 == cy && j / 16 == cz);
            let cp = child_position(pos, cs, j as nat);
            assert(cx * q <= 3 * q && cy * q <= 3 * q && cz * q <= 3 * q) by (nonlinear_arith)
                requires 0 <= cx < 4, 0 <= cy < 4, 0 <= cz < 4, q > 0;
            assert(0 <= cx * q && 0 <= cy * q && 0 <= cz * q) by (nonlinear_arith)
                requires 0 <= cx, 0 <= cy, 0 <= cz, q > 0;
            assert((j as nat) % 4 == cx && ((j as nat) / 4) % 4 == cy && (j as nat) / 16 == cz);
            assert(cp.x == pos.x + cx * q);
            assert(cp.y == pos.y + cy * q);
            assert(cp.z == pos.z + cz * q);
            assert(cp.x + x % q == pos.x + x && cp.y + y % q == pos.y + y && cp.z + z % q == pos.z + z) by (nonlinear_arith)
                requires cp.x == pos.x + cx * q, cp.y == pos.y + cy * q, cp.z == pos.z + cz * q,
                    x == q * cx + x % q, y == q * cy + y % q, z == q * cz + z % q;
            assert(child_value(pool, leaves, m, ptr as int, cs, j as nat, x % q, y % q, z % q)
                == voxel_at(size, data, cp.x + x % q, cp.y + y % q, cp.z + z % q));
        }
    }
}

/// Each of the first `i` children gives back the voxels of its cube through the
/// parent's mask and pointer.
pub proof fn lemma_children_correct(
    size: UVec3,
    data: Seq<u8>,
    pos: UVec3,
    cs: nat,
    pl: nat,
    ll: nat,
    i: nat,
    pool: Seq<SvtNode>,
    leaves: Seq<u8>,
    ptr: int,
)
    requires
        1 <= cs,
        i <= 64,
        pos.x + 4 * pow4(cs) <= 0x1_0000_0000,
        pos.y + 4 * pow4(cs) <= 0x1_0000_0000,
        pos.z + 4 * pow4(cs) <= 0x1_0000_0000,
        build_children(size, data, pos, cs, pl, ll, i).0,
        pl + build_children(size, data, pos, cs, pl, ll, i).3.len() <= pool.len(),
        pool.subrange(pl as int, (pl + build_children(size, data, pos, cs, pl, ll, i).3.len()) as int)
            == build_children(size, data, pos, cs, pl, ll, i).3,
        ll + build_children(size, data, pos, cs, pl, ll, i).4.len() <= leaves.len(),
        leaves.subrange(ll as int, (ll + build_children(size, data, pos, cs, pl, ll, i).4.len()) as int)
            == build_children(size, data, pos, cs, pl, ll, i).4,
        0 <= ptr,
        ptr + build_children(size, data, pos, cs, pl, ll, i).2.len() <= pool.len(),
        pool.subrange(ptr, ptr + build_children(size, data, pos, cs, pl, ll, i).2.len())
            == build_children(size, data, pos, cs, pl, ll, i).2,
    ensures
        forall|j: nat, x: int, y: int, z: int|
            j < i && 0 <= x < pow4(cs) && 0 <= y < pow4(cs) && 0 <= z < pow4(cs) ==>
            #[trigger] child_value(pool, leaves, build_children(size, data, pos, cs, pl, ll, i).1.mask_spec(), ptr, cs, j, x, y, z)
                == voxel_at(
                    size,
                    data,
                    child_position(pos, cs, j).x + x,
                    child_position(pos, cs, j).y + y,
                    child_position(pos, cs, j).z + z,
                ),
    decreases cs + 1, i,
{
    if i > 0 {
        let c = build_children(size, data, pos, cs, pl, ll, i);
        let p = build_children(size, data, pos, cs, pl, ll, (i - 1) as nat);
        let j0 = (i - 1) as nat;
        let cp = child_position(pos, cs, j0);
        let child = build_spec(size, data, cp, cs, pl + p.3.len(), ll + p.4.len());
        let q = pow4(cs) as int;
        lemma_pow4_positive(cs);
        lemma_children_shape(size, data, pos, cs, pl, ll, j0);
        // what the previous children appended is a prefix of what all appended
        assert(pool.subrange(pl as int, (pl + p.3.len()) as int) =~= p.3) by {
            assert(pool.subrange(pl as int, (pl + p.3.len()) as int)
                =~= pool.subrange(pl as int, (pl + c.3.len()) as int).subrange(0, p.3.len() as int));
        }
        assert(leaves.subrange(ll as int, (ll + p.4.len()) as int) =~= p.4) by {
            assert(leaves.subrange(ll as int, (ll + p.4.len()) as int)
                =~= leaves.subrange(ll as int, (ll + c.4.len()) as int).subrange(0, p.4.len() as int));
        }
        assert(pool.subrange(ptr, ptr + p.2.len()) =~= p.2) by {
            assert(pool.subrange(ptr, ptr + p.2.len())
                =~= pool.subrange(ptr, ptr + c.2.len()).subrange(0, p.2.len() as int));
        }
        lemma_children_correct(size, data, pos, cs, pl, ll, j0, pool, leaves, ptr);
        // the child just built
        assert(cp.x == pos.x + (j0 % 4) * q && cp.y == pos.y + ((j0 / 4) % 4) * q && cp.z == pos.z + (j0 / 16) * q) by {
            assert((j0 % 4) * q <= 3 * q && ((j0 / 4) % 4) * q <= 3 * q && (j0 / 16) * q <= 3 * q) by (nonlinear_arith)
                requires q > 0, j0 < 64;
        }
        assert(cp.x + q <= pos.x + 4 * q && cp.y + q <= pos.y + 4 * q && cp.z + q <= pos.z + 4 * q) by (nonlinear_arith)
            requires q > 0, j0 < 64, cp.x == pos.x + (j0 % 4) * q, cp.y == pos.y + ((j0 / 4) % 4) * q,
                cp.z == pos.z + (j0 / 16) * q;
        assert(pool.subrange((pl + p.3.len()) as int, (pl + p.3.len() + child.2.len()) as int) =~= child.2) by {
            assert(pool.subrange((pl + p.3.len()) as int, (pl + p.3.len() + child.2.len()) as int)
                =~= pool.subrange(pl as int, (pl + c.3.len()) as int).subrange(p.3.len() as int, c.3.len() as int));
        }
        assert(leaves.subrange((ll + p.4.len()) as int, (ll + p.4.len() + child.3.len()) as int) =~= child.3) by {
            assert(leaves.subrange((ll + p.4.len()) as int, (ll + p.4.len() + child.3.len()) as int)
                =~= leaves.subrange(ll as int, (ll + c.4.len()) as int).subrange(p.4.len() as int, c.4.len() as int));
        }
        lemma_build_correct(size, data, cp, cs, pl + p.3.len(), ll + p.4.len(), pool, leaves);
        let mp = p.1.mask_spec();
        let mc = c.1.mask_spec();
        if child.1.mask_spec() != 0 {
            lemma_with_child_active_mask(p.1, j0);
        }
        assert forall|j: nat, x: int, y: int, z: int|
            j < i && 0 <= x < pow4(cs) && 0 <= y < pow4(cs) && 0 <= z < pow4(cs) implies
            #[trigger] child_value(pool, leaves, mc, ptr, cs, j, x, y, z)
                == voxel_at(size, data, child_position(pos, cs, j).x + x, child_position(pos, cs, j).y + y,
                    child_position(pos, cs, j).z + z) by {
            if child.1.mask_spec() != 0 {
                lemma_or_bit(mp, j0 as u64, j as u64);
                lemma_rank_or_above(mp, j0, j);
            }
            if j < j0 {
                assert(child_value(pool, leaves, mp, ptr, cs, j, x, y, z)
                    == voxel_at(size, data, child_position(pos, cs, j).x + x, child_position(pos, cs, j).y + y,
                        child_position(pos, cs, j).z + z));
            } else {
                assert(lookup(pool, leaves, child.1, cs, x, y, z) == voxel_at(size, data, cp.x + x, cp.y + y, cp.z + z));
                if child.1.mask_spec() != 0 {
                    assert(pool[ptr + rank64(mc, j)] == c.2[p.2.len() as int]);
                } else {
                    lemma_lookup_empty(pool, leaves, child.1, cs, x, y, z);
                }
            }
        }
    }
}

/// Marking child `i` active sets bit `i` of the mask and leaves the other bits as
/// they were; the node then has children.
pub proof fn lemma_mark_child_active_bits(n: SvtNode, i: nat)
    requires
        i < 64,
    ensures
        forall|j: nat| j < 64 ==> #[trigger] bit64(with_child_active(n, i).mask_spec(), j) == (bit64(n.mask_spec(), j) || j == i),
        with_child_active(n, i).mask_spec() != 0,
        with_child_active(n, i).is_leaf_and_child_pointer == n.is_leaf_and_child_pointer,
{
    lemma_with_child_active_mask(n, i);
    assert forall|j: nat| j < 64 implies #[trigger] bit64(with_child_active(n, i).mask_spec(), j) == (bit64(n.mask_spec(), j) || j == i) by {
        lemma_or_bit(n.mask_spec(), i as u64, j as u64);
    }
    lemma_or_bit(n.mask_spec(), i as u64, i as u64);
    if with_child_active(n, i).mask_spec() == 0 {
        lemma_zero_mask_bits(i);
    }
}

/// Marking a node as a leaf keeps its pointer; the node is then a leaf.
pub proof fn lemma_mark_as_leaf_keeps_pointer(n: SvtNode)
    ensures
        (SvtNode { is_leaf_and_child_pointer: n.is_leaf_and_child_pointer | 0x8000_0000u32, ..n }).is_leaf_spec(),
        (SvtNode { is_leaf_and_child_pointer: n.is_leaf_and_child_pointer | 0x8000_0000u32, ..n }).pointer_spec() == n.pointer_spec(),
{
    let w = n.is_leaf_and_child_pointer;
    assert((w | 0x8000_0000u32) >> 31u32 == 1 && (w | 0x8000_0000u32) & 0x7FFFFFFFu32 == w & 0x7FFFFFFFu32) by (bit_vector);
}

/// Setting the pointer of a node whose pointer is 0 gives it that pointer, and keeps
/// whether it is a leaf.
pub proof fn lemma_set_pointer_on_clear(n: SvtNode, p: u32)
    requires
        n.pointer_spec() == 0,
        p <= 0x7FFF_FFFF,
    ensures
        (SvtNode { is_leaf_and_child_pointer: n.is_leaf_and_child_pointer | p, ..n }).pointer_spec() == p,
        (SvtNode { is_leaf_and_child_pointer: n.is_leaf_and_child_pointer | p, ..n }).is_leaf_spec() == n.is_leaf_spec(),
{
    let w = n.is_leaf_and_child_pointer;
    assert((w | p) & 0x7FFFFFFFu32 == p && (((w | p) >> 31u32 == 1) == (w >> 31u32 == 1))) by (bit_vector)
        requires w & 0x7FFFFFFFu32 == 0, p <= 0x7FFF_FFFF;
}

/// Packing a brick keeps each occupied cell: cell `b` lands at the number of occupied
/// cells before it, within the packed prefix, and the packed prefix holds no zero.
pub proof fn lemma_pack_keeps_occupied(brick: Seq<u8>)
    requires
        brick.len() == 64,
    ensures
        forall|b: nat| b < 64 && brick[b as int] != 0 ==>
            #[trigger] rank64(brick_mask(brick), b) < popcount64(brick_mask(brick))
            && packed_brick(brick, brick_mask(brick))[rank64(brick_mask(brick), b) as int] == brick[b as int],
        forall|r: int| 0 <= r < popcount64(brick_mask(brick)) ==> #[trigger] packed_brick(brick, brick_mask(brick))[r] != 0,
{
    let m = brick_mask(brick);
    lemma_nonzero_mask_bits(brick, 64);
    lemma_packed_len(brick, m, 64);
    let pk = packed_upto(brick, m, 64);
    assert forall|b: nat| b < 64 && brick[b as int] != 0 implies
        #[trigger] rank64(m, b) < popcount64(m) && packed_brick(brick, m)[rank64(m, b) as int] == brick[b as int] by {
        assert(bit64(m, b));
        lemma_packed_index(brick, m, 64, b);
        assert(packed_brick(brick, m)[rank64(m, b) as int] == pk[rank64(m, b) as int]);
    }
    lemma_packed_nonzero(brick, m, 64);
    assert forall|r: int| 0 <= r < popcount64(m) implies #[trigger] packed_brick(brick, m)[r] != 0 by {
        assert(packed_brick(brick, m)[r] == pk[r]);
    }
}

pub proof fn lemma_packed_nonzero(brick: Seq<u8>, m: u64, n: nat)
    requires
        n <= 64,
        brick.len() == 64,
        m == nonzero_mask_upto(brick, 64),
    ensures
        forall|r: int| 0 <= r < packed_upto(brick, m, n).len() ==> #[trigger] packed_upto(brick, m, n)[r] != 0,
    decreases n,
{
    if n > 0 {
        lemma_packed_nonzero(brick, m, (n - 1) as nat);
        lemma_nonzero_mask_bits(brick, 64);
        let p = packed_upto(brick, m, (n - 1) as nat);
        let q = packed_upto(brick, m, n);
        assert forall|r: int| 0 <= r < q.len() implies #[trigger] q[r] != 0 by {
            if r < p.len() {
                assert(q[r] == p[r]);
            } else {
                assert(bit64(m, (n - 1) as nat));
                assert(q[r] == brick[n - 1]);
            }
        }
    }
}

/// Every byte of the leaf data of a built subtree is a non-zero voxel.
pub proof fn lemma_build_leaves_nonzero(size: UVec3, data: Seq<u8>, pos: UVec3, scale: nat, pl: nat, ll: nat)
    ensures
        forall|r: int| 0 <= r < build_spec(size, data, pos, scale, pl, ll).3.len() ==>
            #[trigger] build_spec(size, data, pos, scale, pl, ll).3[r] != 0,
    decreases scale, 65nat,
{
    if scale <= 1 {
        if inside(size, pos) {
            let brick = brick_spec(size, data, pos);
            lemma_packed_nonzero(brick, nonzero_mask(brick), 64);
            assert(build_spec(size, data, pos, scale, pl, ll).3 == packed_upto(brick, nonzero_mask(brick), 64));
        }
    } else {
        lemma_children_leaves_nonzero(size, data, pos, (scale - 1) as nat, pl, ll, 64);
        assert(build_spec(size, data, pos, scale, pl, ll).3 == build_children(size, data, pos, (scale - 1) as nat, pl, ll, 64).4);
    }
}

pub proof fn lemma_children_leaves_nonzero(size: UVec3, data: Seq<u8>, pos: UVec3, cs: nat, pl: nat, ll: nat, i: nat)
    ensures
        forall|r: int| 0 <= r < build_children(size, data, pos, cs, pl, ll, i).4.len() ==>
            #[trigger] build_children(size, data, pos, cs, pl, ll, i).4[r] != 0,
    decreases cs + 1, i,
{
    if i > 0 {
        let p = build_children(size, data, pos, cs, pl, ll, (i - 1) as nat);
        lemma_children_leaves_nonzero(size, data, pos, cs, pl, ll, (i - 1) as nat);
        lemma_build_leaves_nonzero(size, data, child_position(pos, cs, (i - 1) as nat), cs, pl + p.3.len(), ll + p.4.len());
        let c = build_children(size, data, pos, cs, pl, ll, i);
        assert forall|r: int| 0 <= r < c.4.len() implies #[trigger] c.4[r] != 0 by {
            if r >= p.4.len() {
                let cb = build_spec(size, data, child_position(pos, cs, (i - 1) as nat), cs, pl + p.3.len(), ll + p.4.len());
                assert(c.4[r] == cb.3[r - p.4.len()]);
            }
        }
    }
}

} // verus!
