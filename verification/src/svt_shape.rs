//! The shape of a built tree: every node kept has children, and each node's pointer
//! and child count stay within the node pool or the leaf data.
use vstd::prelude::*;
use crate::vec3::UVec3;
use crate::svt::{SvtNode, build_defined, tree_spec, lemma_scale_bounds};
use crate::bits::{popcount64, rank64, lemma_packed_len};
use crate::svt_model::{build_spec, build_children, child_position, inside, brick_spec, nonzero_mask, scale_of};
use crate::svt_laws::{
    lemma_leaf_node_fields, lemma_inner_node_fields, lemma_empty_node_mask, lemma_children_shape, lemma_zero_mask_bits,
};

verus! {

/// The number of children (or, for a leaf, of bytes) that a node's mask counts.
pub open spec fn child_count(n: SvtNode) -> nat {
    popcount64(n.mask_spec())
}

/// The children counted by the inner nodes of a pool.
pub open spec fn inner_child_total(pool: Seq<SvtNode>) -> nat
    decreases pool.len(),
{
    if pool.len() == 0 {
        0
    } else {
        inner_child_total(pool.drop_last()) + if pool.last().is_leaf_spec() { 0nat } else { child_count(pool.last()) }
    }
}

/// The leaf bytes counted by the leaves of a pool.
pub open spec fn leaf_byte_total(pool: Seq<SvtNode>) -> nat
    decreases pool.len(),
{
    if pool.len() == 0 {
        0
    } else {
        leaf_byte_total(pool.drop_last()) + if pool.last().is_leaf_spec() { child_count(pool.last()) } else { 0nat }
    }
}

/// A leaf's bytes lie in `[leaf_lo, leaf_hi)`; an inner node's children in `[pool_lo, pool_hi)`.
pub open spec fn node_within(n: SvtNode, pool_lo: nat, pool_hi: nat, leaf_lo: nat, leaf_hi: nat) -> bool {
    if n.is_leaf_spec() {
        leaf_lo <= n.pointer_spec() && n.pointer_spec() + child_count(n) <= leaf_hi
    } else {
        pool_lo <= n.pointer_spec() && n.pointer_spec() + child_count(n) <= pool_hi
    }
}

pub proof fn lemma_totals_concat(a: Seq<SvtNode>, b: Seq<SvtNode>)
    ensures
        inner_child_total(a + b) == inner_child_total(a) + inner_child_total(b),
        leaf_byte_total(a + b) == leaf_byte_total(a) + leaf_byte_total(b),
    decreases b.len(),
{
    if b.len() == 0 {
        assert(a + b =~= a);
    } else {
        assert((a + b).drop_last() =~= a + b.drop_last());
        lemma_totals_concat(a, b.drop_last());
    }
}

pub proof fn lemma_totals_single(n: SvtNode)
    ensures
        inner_child_total(seq![n]) == if n.is_leaf_spec() { 0nat } else { child_count(n) },
        leaf_byte_total(seq![n]) == if n.is_leaf_spec() { child_count(n) } else { 0nat },
{
    assert(seq![n].drop_last() =~= Seq::<SvtNode>::empty());
    assert(inner_child_total(Seq::<SvtNode>::empty()) == 0);
    assert(leaf_byte_total(Seq::<SvtNode>::empty()) == 0);
    assert(seq![n].last() == n);
}

pub proof fn lemma_zero_rank(n: nat)
    requires
        n <= 64,
    ensures
        rank64(0u64, n) == 0,
    decreases n,
{
    if n > 0 {
        lemma_zero_rank((n - 1) as nat);
        lemma_zero_mask_bits((n - 1) as nat);
    }
}

/// What building the subtree of scale `scale` at `pos` appends, when the pool holds
/// `pl` nodes and the leaf data `ll` bytes:
/// - every node appended has children, and points within what was appended;
/// - a leaf appends no node, points at the old end of the leaf data, and appends as
///   many bytes as its mask counts;
/// - an inner node points at its children, which end the appended nodes;
/// - a node without children appends nothing;
/// - the inner nodes count the appended nodes, the leaves the appended bytes.
pub proof fn lemma_build_step(size: UVec3, data: Seq<u8>, pos: UVec3, scale: nat, pl: nat, ll: nat)
    requires
        1 <= scale,
        build_spec(size, data, pos, scale, pl, ll).0,
    ensures
        ({
            let b = build_spec(size, data, pos, scale, pl, ll);
            &&& forall|k: int| 0 <= k < b.2.len() ==> (#[trigger] b.2[k]).mask_spec() != 0
                && node_within(b.2[k], pl, pl + b.2.len(), ll, ll + b.3.len())
            &&& b.1.mask_spec() != 0 ==> node_within(b.1, pl, pl + b.2.len(), ll, ll + b.3.len())
            &&& b.1.mask_spec() == 0 ==> b.2.len() == 0 && b.3.len() == 0
            &&& b.1.is_leaf_spec() ==> b.2.len() == 0 && b.1.pointer_spec() == ll && b.3.len() == child_count(b.1)
            &&& scale > 1 ==> !b.1.is_leaf_spec() && b.1.pointer_spec() >= pl
                && b.1.pointer_spec() + child_count(b.1) == pl + b.2.len()
            &&& inner_child_total(seq![b.1] + b.2) == b.2.len()
            &&& leaf_byte_total(seq![b.1] + b.2) == b.3.len()
        }),
    decreases scale, 65nat,
{
    let b = build_spec(size, data, pos, scale, pl, ll);
    lemma_zero_rank(64);
    if scale <= 1 {
        if !inside(size, pos) {
            lemma_empty_node_mask();
            assert(popcount64(0u64) == 0) by {
                lemma_zero_rank(64);
            }
            lemma_totals_single(b.1);
            assert(seq![b.1] + b.2 =~= seq![b.1]);
        } else {
            let brick = brick_spec(size, data, pos);
            let mask = nonzero_mask(brick);
            lemma_leaf_node_fields(mask, ll as u32);
            lemma_packed_len(brick, mask, 64);
            lemma_totals_single(b.1);
            assert(seq![b.1] + b.2 =~= seq![b.1]);
        }
    } else {
        let cs = (scale - 1) as nat;
        let c = build_children(size, data, pos, cs, pl, ll, 64);
        let ptr = pl + c.3.len();
        lemma_children_step(size, data, pos, cs, pl, ll, 64);
        lemma_children_shape(size, data, pos, cs, pl, ll, 64);
        lemma_inner_node_fields(c.1, ptr as u32);
        assert(b.2 == c.3 + c.2);
        lemma_totals_concat(c.3, c.2);
        lemma_totals_concat(seq![b.1], c.3 + c.2);
        lemma_totals_single(b.1);
        assert(seq![b.1] + b.2 =~= seq![b.1] + (c.3 + c.2));
        assert forall|k: int| 0 <= k < b.2.len() implies (#[trigger] b.2[k]).mask_spec() != 0
            && node_within(b.2[k], pl, pl + b.2.len(), ll, ll + b.3.len()) by {
            if k < c.3.len() {
                assert(b.2[k] == c.3[k]);
            } else {
                assert(b.2[k] == c.2[k - c.3.len()]);
            }
        }
    }
}

/// What building the first `i` children of the node at `pos` appends: the nodes below
/// them, then the children kept, each with children and pointing within what was
/// appended; the inner nodes count the nodes below, the leaves the bytes appended.
pub proof fn lemma_children_step(size: UVec3, data: Seq<u8>, pos: UVec3, cs: nat, pl: nat, ll: nat, i: nat)
    requires
        1 <= cs,
        i <= 64,
        build_children(size, data, pos, cs, pl, ll, i).0,
    ensures
        ({
            let c = build_children(size, data, pos, cs, pl, ll, i);
            &&& forall|k: int| 0 <= k < c.3.len() ==> (#[trigger] c.3[k]).mask_spec() != 0
                && node_within(c.3[k], pl, pl + c.3.len(), ll, ll + c.4.len())
            &&& forall|k: int| 0 <= k < c.2.len() ==> (#[trigger] c.2[k]).mask_spec() != 0
                && node_within(c.2[k], pl, pl + c.3.len(), ll, ll + c.4.len())
            &&& inner_child_total(c.3) + inner_child_total(c.2) == c.3.len()
            &&& leaf_byte_total(c.3) + leaf_byte_total(c.2) == c.4.len()
            &&& c.2.len() == 0 ==> c.3.len() == 0 && c.4.len() == 0
        }),
    decreases cs + 1, i,
{
    let c = build_children(size, data, pos, cs, pl, ll, i);
    if i == 0 {
        assert(inner_child_total(Seq::<SvtNode>::empty()) == 0);
        assert(leaf_byte_total(Seq::<SvtNode>::empty()) == 0);
    } else {
        let p = build_children(size, data, pos, cs, pl, ll, (i - 1) as nat);
        let b = build_spec(size, data, child_position(pos, cs, (i - 1) as nat), cs, pl + p.3.len(), ll + p.4.len());
        crate::svt::lemma_children_ok_monotone(size, data, pos, cs, pl, ll, (i - 1) as nat, i);
        lemma_children_step(size, data, pos, cs, pl, ll, (i - 1) as nat);
        lemma_build_step(size, data, child_position(pos, cs, (i - 1) as nat), cs, pl + p.3.len(), ll + p.4.len());
        assert(c.3 == p.3 + b.2);
        assert(c.4 == p.4 + b.3);
        lemma_totals_concat(p.3, b.2);
        lemma_totals_concat(seq![b.1], b.2);
        lemma_totals_single(b.1);
        if b.1.mask_spec() != 0 {
            assert(c.2 == p.2.push(b.1));
            assert(p.2.push(b.1) =~= p.2 + seq![b.1]);
            lemma_totals_concat(p.2, seq![b.1]);
        } else {
            assert(c.2 == p.2);
            assert(b.2.len() == 0 && b.3.len() == 0);
            assert(inner_child_total(b.2) == 0 && leaf_byte_total(b.2) == 0);
        }
        assert forall|k: int| 0 <= k < c.3.len() implies (#[trigger] c.3[k]).mask_spec() != 0
            && node_within(c.3[k], pl, pl + c.3.len(), ll, ll + c.4.len()) by {
            if k < p.3.len() {
                assert(c.3[k] == p.3[k]);
            } else {
                assert(c.3[k] == b.2[k - p.3.len()]);
            }
        }
        assert forall|k: int| 0 <= k < c.2.len() implies (#[trigger] c.2[k]).mask_spec() != 0
            && node_within(c.2[k], pl, pl + c.3.len(), ll, ll + c.4.len()) by {
            if k < p.2.len() {
                assert(c.2[k] == p.2[k]);
            }
        }
    }
}

/// The shape of the tree of a model, its root first in the pool: every node after the
/// root has children; every node with children points within the pool (an inner node,
/// past the root) or within the leaf data (a leaf); the inner nodes count every node
/// after the root, and the leaves count every byte of the leaf data.
pub proof fn lemma_tree_shape(size: UVec3, data: Seq<u8>)
    requires
        build_defined(size, data.len() as int),
        tree_spec(size, data).0,
    ensures
        ({
            let b = tree_spec(size, data);
            let pool = seq![b.1] + b.2;
            &&& forall|k: int| 1 <= k < pool.len() ==> (#[trigger] pool[k]).mask_spec() != 0
            &&& forall|k: int| 0 <= k < pool.len() && pool[k].mask_spec() != 0 ==>
                node_within(#[trigger] pool[k], 1, pool.len(), 0, b.3.len())
            &&& inner_child_total(pool) == pool.len() - 1
            &&& leaf_byte_total(pool) == b.3.len()
        }),
{
    let b = tree_spec(size, data);
    lemma_scale_bounds(size);
    lemma_build_step(size, data, UVec3 { x: 0, y: 0, z: 0 }, scale_of(size), 1, 0);
    let pool = seq![b.1] + b.2;
    assert forall|k: int| 1 <= k < pool.len() implies (#[trigger] pool[k]).mask_spec() != 0
        && node_within(pool[k], 1, pool.len(), 0, b.3.len()) by {
        assert(pool[k] == b.2[k - 1]);
    }
}

} // verus!
