//! The mathematical model of the tree: which voxel a brick holds, and what a tree
//! gives back for a point of its cube.
use vstd::prelude::*;
use crate::vec3::UVec3;
use crate::svt::SvtNode;
use crate::bits::{bit64, rank64, packed_upto, pow4, digits4};

verus! {

/// How many cells of a brick starting at `pos` lie inside a side of length `size`
/// (at most 4).
pub open spec fn extent(size: u32, pos: u32) -> int {
    if size - pos < 4 {
        size - pos
    } else {
        4
    }
}

pub open spec fn inside(size: UVec3, pos: UVec3) -> bool {
    pos.x < size.x && pos.y < size.y && pos.z < size.z
}

/// Where voxel `(x, y, z)` sits in the flat voxel bytes (x fastest, then y, then z).
pub open spec fn voxel_index(size: UVec3, x: int, y: int, z: int) -> int {
    x + y * size.x + z * size.x * size.y
}

/// Cell `k` of the brick at `pos`: cell `x + 4y + 16z` holds voxel `pos + (x, y, z)`
/// when that voxel is in the model, and 0 otherwise.
pub open spec fn brick_cell(size: UVec3, data: Seq<u8>, pos: UVec3, k: int) -> u8 {
    let x = k % 4;
    let y = (k / 4) % 4;
    let z = k / 16;
    if x < extent(size.x, pos.x) && y < extent(size.y, pos.y) && z < extent(size.z, pos.z) {
        data[voxel_index(size, pos.x + x, pos.y + y, pos.z + z)]
    } else {
        0
    }
}

pub open spec fn brick_spec(size: UVec3, data: Seq<u8>, pos: UVec3) -> Seq<u8> {
    Seq::new(64, |k: int| brick_cell(size, data, pos, k))
}

/// The voxel bytes reach every voxel that the brick at `pos` copies.
pub open spec fn brick_readable(size: UVec3, pos: UVec3, len: int) -> bool {
    inside(size, pos) ==> voxel_index(
        size,
        pos.x + extent(size.x, pos.x) - 1,
        pos.y + extent(size.y, pos.y) - 1,
        pos.z + extent(size.z, pos.z) - 1,
    ) < len
}

pub proof fn lemma_index_monotone(sx: int, sy: int, px: int, a: int, b: int, c: int, aa: int, bb: int, cc: int)
    requires
        0 <= sx,
        1 <= sy,
        0 <= px,
        0 <= a <= aa,
        0 <= b <= bb,
        0 <= c <= cc,
    ensures
        0 <= b * sx <= bb * sx,
        0 <= c * sx <= c * sx * sy,
        0 <= c * sx * sy <= cc * sx * sy,
        px + a + b * sx + c * sx * sy <= px + aa + bb * sx + cc * sx * sy,
{
    assert(0 <= b * sx <= bb * sx) by (nonlinear_arith)
        requires 0 <= sx, 0 <= b <= bb;
    assert(0 <= c * sx <= c * sx * sy) by (nonlinear_arith)
        requires 0 <= sx, 1 <= sy, 0 <= c;
    assert(0 <= c * sx * sy <= cc * sx * sy) by (nonlinear_arith)
        requires 0 <= sx, 1 <= sy, 0 <= c <= cc;
}

/// The number of levels of the tree of a model: the cube of side `4^scale` is the
/// smallest that holds the longest side.
pub open spec fn scale_of(size: UVec3) -> nat {
    digits4((size.max_element_spec() - 1) as nat)
}

/// The voxel at `(x, y, z)`, or 0 outside the model.
pub open spec fn voxel_at(size: UVec3, data: Seq<u8>, x: int, y: int, z: int) -> u8 {
    if 0 <= x < size.x && 0 <= y < size.y && 0 <= z < size.z {
        data[voxel_index(size, x, y, z)]
    } else {
        0
    }
}

pub open spec fn empty_node() -> SvtNode {
    SvtNode { is_leaf_and_child_pointer: 0, child_mask_high: 0, child_mask_low: 0 }
}

/// The node with bit `i` of its 64-bit mask set.
pub open spec fn with_child_active(n: SvtNode, i: nat) -> SvtNode {
    if i > 31 {
        SvtNode { child_mask_high: n.child_mask_high | (1u32 << (i - 32) as u32), ..n }
    } else {
        SvtNode { child_mask_low: n.child_mask_low | (1u32 << i as u32), ..n }
    }
}

/// A leaf node: the leaf bit, the pointer to its first byte, and the brick's mask.
pub open spec fn leaf_node(mask: u64, ptr: u32) -> SvtNode {
    SvtNode {
        is_leaf_and_child_pointer: 0x8000_0000u32 | ptr,
        child_mask_high: (mask / 0x1_0000_0000) as u32,
        child_mask_low: (mask % 0x1_0000_0000) as u32,
    }
}

/// The position of child `i` (x fastest, then y, then z) of the node at `pos` whose
/// children have scale `child_scale`.
pub open spec fn child_position(pos: UVec3, child_scale: nat, i: nat) -> UVec3 {
    let q = pow4(child_scale);
    UVec3 {
        x: (pos.x + (i % 4) * q) as u32,
        y: (pos.y + ((i / 4) % 4) * q) as u32,
        z: (pos.z + (i / 16) * q) as u32,
    }
}

/// Building a leaf (scale 1) at `pos` when the leaf data holds `leaf_len` bytes:
/// (every pointer fits in 31 bits, the node, the nodes appended to the pool, the
/// bytes appended to the leaf data).
pub open spec fn build_leaf(size: UVec3, data: Seq<u8>, pos: UVec3, leaf_len: nat) -> (bool, SvtNode, Seq<SvtNode>, Seq<u8>) {
    if !inside(size, pos) {
        (true, empty_node(), Seq::empty(), Seq::empty())
    } else {
        let brick = brick_spec(size, data, pos);
        let mask = nonzero_mask(brick);
        (leaf_len <= 0x7FFF_FFFF, leaf_node(mask, leaf_len as u32), Seq::empty(), packed_upto(brick, mask, 64))
    }
}

pub open spec fn nonzero_mask(brick: Seq<u8>) -> u64 {
    crate::bits::nonzero_mask_upto(brick, 64)
}

/// Building the subtree of scale `scale` at `pos`, when the pool holds `pool_len`
/// nodes and the leaf data `leaf_len` bytes: (every pointer fits in 31 bits, the
/// node, the nodes appended to the pool, the bytes appended to the leaf data).
/// A node's children are appended after all that its children appended, in one block.
pub open spec fn build_spec(size: UVec3, data: Seq<u8>, pos: UVec3, scale: nat, pool_len: nat, leaf_len: nat)
    -> (bool, SvtNode, Seq<SvtNode>, Seq<u8>)
    decreases scale, 65nat,
{
    if scale <= 1 {
        build_leaf(size, data, pos, leaf_len)
    } else {
        let c = build_children(size, data, pos, (scale - 1) as nat, pool_len, leaf_len, 64);
        let ptr = pool_len + c.3.len();
        (
            c.0 && ptr <= 0x7FFF_FFFF,
            SvtNode { is_leaf_and_child_pointer: ptr as u32, ..c.1 },
            c.3 + c.2,
            c.4,
        )
    }
}

/// Building the first `i` children of the node at `pos`: (every pointer fits, the
/// node with the mask of the children kept, the children kept, the nodes appended,
/// the bytes appended). A child is kept when its mask is not empty.
pub open spec fn build_children(
    size: UVec3,
    data: Seq<u8>,
    pos: UVec3,
    child_scale: nat,
    pool_len: nat,
    leaf_len: nat,
    i: nat,
) -> (bool, SvtNode, Seq<SvtNode>, Seq<SvtNode>, Seq<u8>)
    decreases child_scale + 1, i,
{
    if i == 0 {
        (true, empty_node(), Seq::empty(), Seq::empty(), Seq::empty())
    } else {
        let p = build_children(size, data, pos, child_scale, pool_len, leaf_len, (i - 1) as nat);
        let c = build_spec(
            size,
            data,
            child_position(pos, child_scale, (i - 1) as nat),
            child_scale,
            pool_len + p.3.len(),
            leaf_len + p.4.len(),
        );
        if c.1.mask_spec() != 0 {
            (p.0 && c.0, with_child_active(p.1, (i - 1) as nat), p.2.push(c.1), p.3 + c.2, p.4 + c.3)
        } else {
            (p.0 && c.0, p.1, p.2, p.3 + c.2, p.4 + c.3)
        }
    }
}

/// The voxel that the tree gives back for the point `(x, y, z)` of the cube of side
/// `4^scale` that `node` spans (coordinates relative to the cube's corner).
pub open spec fn lookup(pool: Seq<SvtNode>, leaves: Seq<u8>, node: SvtNode, scale: nat, x: int, y: int, z: int) -> u8
    decreases scale,
{
    let mask = node.mask_spec();
    let ptr = node.pointer_spec() as int;
    if node.is_leaf_spec() {
        let b = x + 4 * y + 16 * z;
        if 0 <= b < 64 && bit64(mask, b as nat) {
            leaves[ptr + rank64(mask, b as nat)]
        } else {
            0
        }
    } else if scale <= 1 {
        0
    } else {
        let q = pow4((scale - 1) as nat) as int;
        let c = x / q + 4 * (y / q) + 16 * (z / q);
        if 0 <= c < 64 && bit64(mask, c as nat) {
            lookup(pool, leaves, pool[ptr + rank64(mask, c as nat)], (scale - 1) as nat, x % q, y % q, z % q)
        } else {
            0
        }
    }
}

} // verus!
