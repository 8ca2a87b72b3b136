//! The tree walked as the renderer walks it: at each level two bits of each
//! coordinate pick the child, and the child is found by counting the mask bits below it.
use vstd::prelude::*;
use crate::vec3::UVec3;
use crate::svt::{SvtNode, build_defined, tree_spec, lemma_scale_bounds, lemma_tree_gives_back_voxels};
use crate::bits::{lemma_or_bit, bit64, rank64, popcount64, pow4, lemma_pow4_shl, lemma_pow4_positive, lemma_pow4_values};
use crate::svt_model::{build_spec, build_children, child_position, inside, brick_spec, nonzero_mask, lookup, voxel_at, scale_of};
use crate::svt_laws::{
    lemma_leaf_node_fields, lemma_inner_node_fields, lemma_empty_node_mask, lemma_children_shape, lemma_zero_mask_bits,
    lemma_rank_or_above, lemma_with_child_active_mask,
};

verus! {

/// The mask of the bits below `j`.
pub open spec fn below_mask(j: nat) -> u64 {
    ((1u64 << j as u64) - 1) as u64
}

/// The voxel found for the point `(x, y, z)` from `node`, which spans `s` levels: above
/// the leaves, bits `2(s-1)` and `2(s-1)+1` of each coordinate pick the child
/// `cx + 4cy + 16cz`; at a leaf, the two lowest bits pick the cell. A child or cell
/// whose mask bit is clear gives 0; otherwise it sits at the node's pointer plus the
/// number of mask bits below it.
pub open spec fn walk(pool: Seq<SvtNode>, leaves: Seq<u8>, node: SvtNode, s: nat, x: u32, y: u32, z: u32) -> u8
    decreases s,
{
    let m = node.mask_spec();
    let ptr = node.pointer_spec() as int;
    if s <= 1 {
        let j = ((x & 3) + 4 * (y & 3) + 16 * (z & 3)) as nat;
        if !bit64(m, j) {
            0
        } else {
            leaves[ptr + popcount64(m & below_mask(j))]
        }
    } else {
        let sh = (2 * (s - 1)) as u32;
        let i = (((x >> sh) & 3) + 4 * ((y >> sh) & 3) + 16 * ((z >> sh) & 3)) as nat;
        if !bit64(m, i) {
            0
        } else {
            walk(pool, leaves, pool[ptr + popcount64(m & below_mask(i))], (s - 1) as nat, x, y, z)
        }
    }
}

/// Walking from `n` finds, for every point, what `lookup` finds for the point's place
/// in the cube of `n`.
pub open spec fn walk_agrees(pool: Seq<SvtNode>, leaves: Seq<u8>, n: SvtNode, s: nat) -> bool {
    forall|x: u32, y: u32, z: u32| #[trigger] walk(pool, leaves, n, s, x, y, z)
        == lookup(pool, leaves, n, s, (x as int) % (pow4(s) as int), (y as int) % (pow4(s) as int), (z as int) % (pow4(s) as int))
}

/// Counting the mask bits below `j` gives the rank of `j`.
pub proof fn lemma_popcount_below(m: u64, j: nat)
    requires
        j < 64,
    ensures
        popcount64(m & below_mask(j)) == rank64(m, j),
{
    let mm = m & below_mask(j);
    assert forall|t: nat| t < 64 implies #[trigger] bit64(mm, t) == (t < j && bit64(m, t)) by {
        let jj = j as u64;
        let tt = t as u64;
        assert((((m & (((1u64 << jj) - 1) as u64)) >> tt) & 1 == 1) == (tt < jj && ((m >> tt) & 1 == 1))) by (bit_vector)
            requires jj < 64, tt < 64;
    }
    lemma_rank_below(m, mm, j, 64);
}

proof fn lemma_rank_below(m: u64, mm: u64, j: nat, n: nat)
    requires
        j < 64,
        n <= 64,
        forall|t: nat| t < 64 ==> #[trigger] bit64(mm, t) == (t < j && bit64(m, t)),
    ensures
        rank64(mm, n) == rank64(m, if n < j { n } else { j }),
    decreases n,
{
    if n > 0 {
        lemma_rank_below(m, mm, j, (n - 1) as nat);
        assert(bit64(mm, (n - 1) as nat) == ((n - 1) < j && bit64(m, (n - 1) as nat)));
    }
}

/// Two bits of a coordinate, taken by a shift, are its base-4 digit.
pub proof fn lemma_shift_digit(x: u32, k: nat)
    requires
        k <= 10,
    ensures
        (x >> (2 * k) as u32) & 3 == ((x as int) / (pow4(k) as int)) % 4,
{
    let sh = (2 * k) as u32;
    assert(sh < 32);
    assert(x >> sh == x / (1u32 << sh) && (x >> sh) & 3 == (x >> sh) % 4) by (bit_vector)
        requires sh < 32;
    lemma_pow4_shl(1, k as u32);
}

/// A node at the leaf level that is a leaf or has no cells is walked as looked up.
pub proof fn lemma_walk_leaf(pool: Seq<SvtNode>, leaves: Seq<u8>, n: SvtNode)
    requires
        n.is_leaf_spec() || n.mask_spec() == 0,
    ensures
        walk_agrees(pool, leaves, n, 1),
{
    lemma_pow4_values();
    assert forall|x: u32, y: u32, z: u32| #[trigger] walk(pool, leaves, n, 1, x, y, z)
        == lookup(pool, leaves, n, 1, (x as int) % (pow4(1) as int), (y as int) % (pow4(1) as int), (z as int) % (pow4(1) as int)) by {
        assert(x & 3 == x % 4 && y & 3 == y % 4 && z & 3 == z % 4) by (bit_vector);
        let j = ((x & 3) + 4 * (y & 3) + 16 * (z & 3)) as nat;
        assert(j < 64);
        lemma_popcount_below(n.mask_spec(), j);
        if !n.is_leaf_spec() {
            lemma_zero_mask_bits(j);
        }
    }
}

/// An inner node whose children are each walked as looked up is walked as looked up.
pub proof fn lemma_walk_inner(pool: Seq<SvtNode>, leaves: Seq<u8>, n: SvtNode, s: nat)
    requires
        2 <= s <= 11,
        !n.is_leaf_spec(),
        forall|j: nat| j < 64 && bit64(n.mask_spec(), j) ==>
            walk_agrees(pool, leaves, #[trigger] pool[n.pointer_spec() + rank64(n.mask_spec(), j)], (s - 1) as nat),
    ensures
        walk_agrees(pool, leaves, n, s),
{
    let q = pow4((s - 1) as nat) as int;
    lemma_pow4_positive((s - 1) as nat);
    assert(pow4(s) == 4 * q);
    let m = n.mask_spec();
    assert forall|x: u32, y: u32, z: u32| #[trigger] walk(pool, leaves, n, s, x, y, z)
        == lookup(pool, leaves, n, s, (x as int) % (pow4(s) as int), (y as int) % (pow4(s) as int), (z as int) % (pow4(s) as int)) by {
        lemma_shift_digit(x, (s - 1) as nat);
        lemma_shift_digit(y, (s - 1) as nat);
        lemma_shift_digit(z, (s - 1) as nat);
        vstd::arithmetic::div_mod::lemma_mod_breakdown(x as int, q, 4);
        vstd::arithmetic::div_mod::lemma_mod_breakdown(y as int, q, 4);
        vstd::arithmetic::div_mod::lemma_mod_breakdown(z as int, q, 4);
        let xr = (x as int) % (4 * q);
        let yr = (y as int) % (4 * q);
        let zr = (z as int) % (4 * q);
        let dx = ((x as int) / q) % 4;
        let dy = ((y as int) / q) % 4;
        let dz = ((z as int) / q) % 4;
        assert(0 <= dx < 4 && 0 <= dy < 4 && 0 <= dz < 4);
        assert(0 <= (x as int) % q < q && 0 <= (y as int) % q < q && 0 <= (z as int) % q < q) by (nonlinear_arith)
            requires q > 0;
        assert(xr / q == dx && xr % q == (x as int) % q) by {
            vstd::arithmetic::div_mod::lemma_fundamental_div_mod_converse(xr, q, dx, (x as int) % q);
        }
        assert(yr / q == dy && yr % q == (y as int) % q) by {
            vstd::arithmetic::div_mod::lemma_fundamental_div_mod_converse(yr, q, dy, (y as int) % q);
        }
        assert(zr / q == dz && zr % q == (z as int) % q) by {
            vstd::arithmetic::div_mod::lemma_fundamental_div_mod_converse(zr, q, dz, (z as int) % q);
        }
        let i = (dx + 4 * dy + 16 * dz) as nat;
        assert(i < 64);
        lemma_popcount_below(m, i);
        if bit64(m, i) {
            let child = pool[n.pointer_spec() + rank64(m, i)];
            assert(walk_agrees(pool, leaves, child, (s - 1) as nat));
            assert(walk(pool, leaves, child, (s - 1) as nat, x, y, z)
                == lookup(pool, leaves, child, (s - 1) as nat, (x as int) % (pow4((s - 1) as nat) as int), (y as int) % (pow4((s - 1) as nat) as int),
                    (z as int) % (pow4((s - 1) as nat) as int)));
        }
    }
}

/// The subtree built at `pos` is walked as it is looked up, wherever the pool and the
/// leaf data hold what the build appended.
pub proof fn lemma_build_walk(
    size: UVec3,
    data: Seq<u8>,
    pos: UVec3,
    scale: nat,
    pl: nat,
    ll: nat,
    pool: Seq<SvtNode>,
    leaves: Seq<u8>,
)
    requires
        1 <= scale <= 11,
        build_spec(size, data, pos, scale, pl, ll).0,
        pl + build_spec(size, data, pos, scale, pl, ll).2.len() <= pool.len(),
        pool.subrange(pl as int, (pl + build_spec(size, data, pos, scale, pl, ll).2.len()) as int)
            == build_spec(size, data, pos, scale, pl, ll).2,
    ensures
        walk_agrees(pool, leaves, build_spec(size, data, pos, scale, pl, ll).1, scale),
    decreases scale, 65nat,
{
    let b = build_spec(size, data, pos, scale, pl, ll);
    if scale <= 1 {
        if inside(size, pos) {
            let brick = brick_spec(size, data, pos);
            lemma_leaf_node_fields(nonzero_mask(brick), ll as u32);
        } else {
            lemma_empty_node_mask();
        }
        lemma_walk_leaf(pool, leaves, b.1);
    } else {
        let cs = (scale - 1) as nat;
        let c = build_children(size, data, pos, cs, pl, ll, 64);
        let ptr = pl + c.3.len();
        lemma_inner_node_fields(c.1, ptr as u32);
        assert(pool.subrange(pl as int, (pl + c.3.len()) as int) =~= c.3) by {
            assert(pool.subrange(pl as int, (pl + c.3.len()) as int)
                =~= pool.subrange(pl as int, (pl + b.2.len()) as int).subrange(0, c.3.len() as int));
        }
        assert(pool.subrange(ptr as int, (ptr + c.2.len()) as int) =~= c.2) by {
            assert(pool.subrange(ptr as int, (ptr + c.2.len()) as int)
                =~= pool.subrange(pl as int, (pl + b.2.len()) as int).subrange(c.3.len() as int, b.2.len() as int));
        }
        lemma_children_walk(size, data, pos, cs, pl, ll, 64, pool, leaves, ptr as int);
        lemma_walk_inner(pool, leaves, b.1, scale);
    }
}

/// Each kept child among the first `i` is walked as it is looked up.
pub proof fn lemma_children_walk(
    size: UVec3,
    data: Seq<u8>,
    pos: UVec3,
    cs: nat,
    pl: nat,
    ll: nat,
    i: nat,
    pool: Seq<SvtNode>,
    leaves: Seq<u8>,
    ptr: int,
)
    requires
        1 <= cs <= 10,
        i <= 64,
        build_children(size, data, pos, cs, pl, ll, i).0,
        pl + build_children(size, data, pos, cs, pl, ll, i).3.len() <= pool.len(),
        pool.subrange(pl as int, (pl + build_children(size, data, pos, cs, pl, ll, i).3.len()) as int)
            == build_children(size, data, pos, cs, pl, ll, i).3,
        0 <= ptr,
        ptr + build_children(size, data, pos, cs, pl, ll, i).2.len() <= pool.len(),
        pool.subrange(ptr, ptr + build_children(size, data, pos, cs, pl, ll, i).2.len())
            == build_children(size, data, pos, cs, pl, ll, i).2,
    ensures
        forall|j: nat| j < i && bit64(build_children(size, data, pos, cs, pl, ll, i).1.mask_spec(), j) ==>
            walk_agrees(pool, leaves,
                #[trigger] pool[ptr + rank64(build_children(size, data, pos, cs, pl, ll, i).1.mask_spec(), j)], cs),
    decreases cs + 1, i,
{
    if i > 0 {
        let c = build_children(size, data, pos, cs, pl, ll, i);
        let p = build_children(size, data, pos, cs, pl, ll, (i - 1) as nat);
        let j0 = (i - 1) as nat;
        let cp = child_position(pos, cs, j0);
        let child = build_spec(size, data, cp, cs, pl + p.3.len(), ll + p.4.len());
        lemma_children_shape(size, data, pos, cs, pl, ll, j0);
        assert(pool.subrange(pl as int, (pl + p.3.len()) as int) =~= p.3) by {
            assert(pool.subrange(pl as int, (pl + p.3.len()) as int)
                =~= pool.subrange(pl as int, (pl + c.3.len()) as int).subrange(0, p.3.len() as int));
        }
        assert(pool.subrange(ptr, ptr + p.2.len()) =~= p.2) by {
            assert(pool.subrange(ptr, ptr + p.2.len())
                =~= pool.subrange(ptr, ptr + c.2.len()).subrange(0, p.2.len() as int));
        }
        lemma_children_walk(size, data, pos, cs, pl, ll, j0, pool, leaves, ptr);
        assert(pool.subrange((pl + p.3.len()) as int, (pl + p.3.len() + child.2.len()) as int) =~= child.2) by {
            assert(pool.subrange((pl + p.3.len()) as int, (pl + p.3.len() + child.2.len()) as int)
                =~= pool.subrange(pl as int, (pl + c.3.len()) as int).subrange(p.3.len() as int, c.3.len() as int));
        }
        lemma_build_walk(size, data, cp, cs, pl + p.3.len(), ll + p.4.len(), pool, leaves);
        let mp = p.1.mask_spec();
        let mc = c.1.mask_spec();
        if child.1.mask_spec() != 0 {
            lemma_with_child_active_mask(p.1, j0);
        }
        assert forall|j: nat| j < i && bit64(mc, j) implies
            walk_agrees(pool, leaves, #[trigger] pool[ptr + rank64(mc, j)], cs) by {
            if child.1.mask_spec() != 0 {
                lemma_or_bit(mp, j0 as u64, j as u64);
                lemma_rank_or_above(mp, j0, j);
            }
            if j < j0 {
                assert(bit64(mp, j));
                assert(pool[ptr + rank64(mp, j)] == pool[ptr + rank64(mc, j)]);
            } else {
                if child.1.mask_spec() != 0 {
                    assert(pool[ptr + rank64(mc, j)] == c.2[p.2.len() as int]);
                } else {
                    assert(!bit64(mp, j0));
                }
            }
        }
    }
}

/// Walking the tree of a model as the renderer does gives back, for every point of the
/// tree's cube, the voxel of the model there (0 outside the model).
pub proof fn lemma_tree_walk_gives_back_voxels(size: UVec3, data: Seq<u8>)
    requires
        build_defined(size, data.len() as int),
        tree_spec(size, data).0,
    ensures
        forall|x: u32, y: u32, z: u32|
            x < pow4(scale_of(size)) && y < pow4(scale_of(size)) && z < pow4(scale_of(size)) ==>
            #[trigger] walk(seq![tree_spec(size, data).1] + tree_spec(size, data).2, tree_spec(size, data).3,
                tree_spec(size, data).1, scale_of(size), x, y, z) == voxel_at(size, data, x as int, y as int, z as int),
{
    let b = tree_spec(size, data);
    let s = scale_of(size);
    let pool = seq![b.1] + b.2;
    lemma_scale_bounds(size);
    lemma_tree_gives_back_voxels(size, data);
    assert(pool.subrange(1, (1 + b.2.len()) as int) =~= b.2);
    lemma_build_walk(size, data, UVec3 { x: 0, y: 0, z: 0 }, s, 1, 0, pool, b.3);
    assert forall|x: u32, y: u32, z: u32|
        x < pow4(s) && y < pow4(s) && z < pow4(s) implies
        #[trigger] walk(pool, b.3, b.1, s, x, y, z) == voxel_at(size, data, x as int, y as int, z as int) by {
        vstd::arithmetic::div_mod::lemma_small_mod(x as nat, pow4(s));
        vstd::arithmetic::div_mod::lemma_small_mod(y as nat, pow4(s));
        vstd::arithmetic::div_mod::lemma_small_mod(z as nat, pow4(s));
        assert((x as int) % (pow4(s) as int) == x && (y as int) % (pow4(s) as int) == y && (z as int) % (pow4(s) as int) == z);
        assert(lookup(pool, b.3, b.1, s, x as int, y as int, z as int) == voxel_at(size, data, x as int, y as int, z as int));
    }
}

} // verus!
