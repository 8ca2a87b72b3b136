//! What the leaf data of a tree holds: each non-zero byte as often as the model holds
//! it, so that the leaf data is the model's occupied voxels in some order.
use vstd::prelude::*;
use vstd::relations::injective_on;
use vstd::set_lib::{lemma_map_size, lemma_set_disjoint_lens};
use crate::vec3::UVec3;
use crate::bits::{
    bit64, pow4, packed_upto, lemma_nonzero_mask_bits, lemma_pow4_positive, lemma_pow4_monotone,
    lemma_pow4_values, lemma_digits4_of_log, spec_ilog4, lemma_ilog4,
};
use crate::svt::{build_defined, tree_spec, lemma_scale_bounds};
use crate::svt_model::{
    build_spec, build_children, child_position, inside, scale_of, brick_spec, brick_cell, nonzero_mask, voxel_at,
};
use crate::svt_count::{brick_point, child_index, lemma_digit, lemma_point_in_child};

verus! {

/// How often `val` occurs in `s`.
pub open spec fn count_of(s: Seq<u8>, val: u8) -> nat
    decreases s.len(),
{
    if s.len() == 0 {
        0
    } else {
        count_of(s.drop_last(), val) + if s.last() == val { 1nat } else { 0nat }
    }
}

pub proof fn lemma_count_of_concat(a: Seq<u8>, b: Seq<u8>, val: u8)
    ensures
        count_of(a + b, val) == count_of(a, val) + count_of(b, val),
    decreases b.len(),
{
    if b.len() == 0 {
        assert(a + b =~= a);
    } else {
        assert((a + b).drop_last() =~= a + b.drop_last());
        lemma_count_of_concat(a, b.drop_last(), val);
    }
}

/// The points of the cube of side `side` at `pos` whose voxel is `val`.
pub open spec fn occupied_with_in(size: UVec3, data: Seq<u8>, pos: UVec3, side: int, val: u8) -> Set<(int, int, int)> {
    Set::new(|p: (int, int, int)|
        pos.x <= p.0 < pos.x + side && pos.y <= p.1 < pos.y + side && pos.z <= p.2 < pos.z + side
            && voxel_at(size, data, p.0, p.1, p.2) == val)
}

/// The points of the cube of side `4q` at `pos` that lie in its first `i` sub-cubes
/// and whose voxel is `val`.
pub open spec fn occupied_children_with(size: UVec3, data: Seq<u8>, pos: UVec3, q: int, i: int, val: u8) -> Set<(int, int, int)> {
    Set::new(|p: (int, int, int)|
        pos.x <= p.0 < pos.x + 4 * q && pos.y <= p.1 < pos.y + 4 * q && pos.z <= p.2 < pos.z + 4 * q
            && voxel_at(size, data, p.0, p.1, p.2) == val && child_index(pos, q, p) < i)
}

/// The cells below `n` of a brick that hold `val`.
pub open spec fn cells_with(brick: Seq<u8>, val: u8, n: nat) -> Set<int> {
    Set::new(|k: int| 0 <= k < n && brick[k] == val)
}

/// Packing a brick keeps each non-zero value as often as the brick holds it.
pub proof fn lemma_packed_count(brick: Seq<u8>, val: u8, n: nat)
    requires
        val != 0,
        n <= 64,
        brick.len() == 64,
    ensures
        cells_with(brick, val, n).finite(),
        count_of(packed_upto(brick, nonzero_mask(brick), n), val) == cells_with(brick, val, n).len(),
    decreases n,
{
    let m = nonzero_mask(brick);
    if n == 0 {
        assert(cells_with(brick, val, 0) =~= Set::empty());
        assert(count_of(Seq::<u8>::empty(), val) == 0);
    } else {
        lemma_packed_count(brick, val, (n - 1) as nat);
        lemma_nonzero_mask_bits(brick, 64);
        let p = packed_upto(brick, m, (n - 1) as nat);
        assert(bit64(m, (n - 1) as nat) == (brick[n - 1] != 0));
        if bit64(m, (n - 1) as nat) {
            assert(p.push(brick[n - 1]).drop_last() =~= p);
        }
        if brick[n - 1] == val {
            assert(cells_with(brick, val, n) =~= cells_with(brick, val, (n - 1) as nat).insert(n - 1));
        } else {
            assert(cells_with(brick, val, n) =~= cells_with(brick, val, (n - 1) as nat));
        }
    }
}

/// A leaf holds `val` once for each voxel of its brick that holds `val`.
pub proof fn lemma_leaf_count_of(size: UVec3, data: Seq<u8>, pos: UVec3, ll: nat, val: u8)
    requires
        val != 0,
    ensures
        occupied_with_in(size, data, pos, 4, val).finite(),
        count_of(crate::svt_model::build_leaf(size, data, pos, ll).3, val) == occupied_with_in(size, data, pos, 4, val).len(),
{
    let occ = occupied_with_in(size, data, pos, 4, val);
    if !inside(size, pos) {
        assert(occ =~= Set::empty());
        assert(count_of(Seq::<u8>::empty(), val) == 0);
    } else {
        let brick = brick_spec(size, data, pos);
        lemma_packed_count(brick, val, 64);
        let cells = cells_with(brick, val, 64);
        let f = |k: int| brick_point(pos, k);
        assert forall|k: int| 0 <= k < 64 implies
            #[trigger] brick[k] == voxel_at(size, data, brick_point(pos, k).0, brick_point(pos, k).1, brick_point(pos, k).2) by {
            assert(brick[k] == brick_cell(size, data, pos, k));
        }
        assert(injective_on(f, cells)) by {
            assert forall|k1: int, k2: int| cells.contains(k1) && cells.contains(k2) && #[trigger] f(k1) == #[trigger] f(k2)
                implies k1 == k2 by {
                assert(k1 == k1 % 4 + 4 * ((k1 / 4) % 4) + 16 * (k1 / 16));
                assert(k2 == k2 % 4 + 4 * ((k2 / 4) % 4) + 16 * (k2 / 16));
            }
        }
        assert(cells.map(f) =~= occ) by {
            assert forall|p: (int, int, int)| occ.contains(p) implies #[trigger] cells.map(f).contains(p) by {
                let a = p.0 - pos.x;
                let b = p.1 - pos.y;
                let c = p.2 - pos.z;
                let k = a + 4 * b + 16 * c;
                assert(k % 4 == a && (k / 4) % 4 == b && k / 16 == c);
                assert(f(k) == p);
                assert(cells.contains(k));
            }
            assert forall|p: (int, int, int)| #[trigger] cells.map(f).contains(p) implies occ.contains(p) by {
                let k = choose|k: int| cells.contains(k) && p == f(k);
            }
        }
        lemma_map_size(cells, occ, f);
    }
}

/// The leaf data of a subtree holds `val` once for each voxel of its cube that holds `val`.
pub proof fn lemma_build_count_of(size: UVec3, data: Seq<u8>, pos: UVec3, scale: nat, pl: nat, ll: nat, val: u8)
    requires
        val != 0,
        1 <= scale,
        pos.x + pow4(scale) <= 0x1_0000_0000,
        pos.y + pow4(scale) <= 0x1_0000_0000,
        pos.z + pow4(scale) <= 0x1_0000_0000,
    ensures
        occupied_with_in(size, data, pos, pow4(scale) as int, val).finite(),
        count_of(build_spec(size, data, pos, scale, pl, ll).3, val) == occupied_with_in(size, data, pos, pow4(scale) as int, val).len(),
    decreases scale, 65nat,
{
    if scale <= 1 {
        assert(pow4(0) == 1);
        assert(pow4(1) == 4);
        lemma_leaf_count_of(size, data, pos, ll, val);
    } else {
        let cs = (scale - 1) as nat;
        let q = pow4(cs) as int;
        assert(pow4(scale) == 4 * q);
        lemma_pow4_positive(cs);
        lemma_children_count_of(size, data, pos, cs, pl, ll, 64, val);
        assert(occupied_children_with(size, data, pos, q, 64, val) =~= occupied_with_in(size, data, pos, 4 * q, val)) by {
            assert forall|p: (int, int, int)| #[trigger] occupied_with_in(size, data, pos, 4 * q, val).contains(p)
                implies child_index(pos, q, p) < 64 by {
                let u = (p.0 - pos.x) / q;
                let v = (p.1 - pos.y) / q;
                let w = (p.2 - pos.z) / q;
                vstd::arithmetic::div_mod::lemma_fundamental_div_mod(p.0 - pos.x, q);
                vstd::arithmetic::div_mod::lemma_fundamental_div_mod(p.1 - pos.y, q);
                vstd::arithmetic::div_mod::lemma_fundamental_div_mod(p.2 - pos.z, q);
                assert(u < 4 && v < 4 && w < 4) by (nonlinear_arith)
                    requires q > 0, p.0 - pos.x < 4 * q, p.1 - pos.y < 4 * q, p.2 - pos.z < 4 * q,
                        p.0 - pos.x == q * u + (p.0 - pos.x) % q, p.1 - pos.y == q * v + (p.1 - pos.y) % q,
                        p.2 - pos.z == q * w + (p.2 - pos.z) % q,
                        0 <= (p.0 - pos.x) % q, 0 <= (p.1 - pos.y) % q, 0 <= (p.2 - pos.z) % q;
            }
        }
    }
}

/// The leaf data of the first `i` children holds `val` once for each voxel of their
/// sub-cubes that holds `val`.
pub proof fn lemma_children_count_of(size: UVec3, data: Seq<u8>, pos: UVec3, cs: nat, pl: nat, ll: nat, i: nat, val: u8)
    requires
        val != 0,
        1 <= cs,
        i <= 64,
        pos.x + 4 * pow4(cs) <= 0x1_0000_0000,
        pos.y + 4 * pow4(cs) <= 0x1_0000_0000,
        pos.z + 4 * pow4(cs) <= 0x1_0000_0000,
    ensures
        occupied_children_with(size, data, pos, pow4(cs) as int, i as int, val).finite(),
        count_of(build_children(size, data, pos, cs, pl, ll, i).4, val) == occupied_children_with(size, data, pos, pow4(cs) as int, i as int, val).len(),
    decreases cs + 1, i,
{
    let q = pow4(cs) as int;
    lemma_pow4_positive(cs);
    if i == 0 {
        assert(count_of(Seq::<u8>::empty(), val) == 0);
        assert(occupied_children_with(size, data, pos, q, 0, val) =~= Set::empty()) by {
            assert forall|p: (int, int, int)| #[trigger] occupied_children_with(size, data, pos, q, 0, val).contains(p) implies false by {
                let u = (p.0 - pos.x) / q;
                let v = (p.1 - pos.y) / q;
                let w = (p.2 - pos.z) / q;
                lemma_digit(p.0 - pos.x, q, 0);
                lemma_digit(p.1 - pos.y, q, 0);
                lemma_digit(p.2 - pos.z, q, 0);
                vstd::arithmetic::div_mod::lemma_fundamental_div_mod(p.0 - pos.x, q);
                vstd::arithmetic::div_mod::lemma_fundamental_div_mod(p.1 - pos.y, q);
                vstd::arithmetic::div_mod::lemma_fundamental_div_mod(p.2 - pos.z, q);
                assert(u >= 0 && v >= 0 && w >= 0) by (nonlinear_arith)
                    requires q > 0, p.0 - pos.x >= 0, p.1 - pos.y >= 0, p.2 - pos.z >= 0,
                        p.0 - pos.x == q * u + (p.0 - pos.x) % q, p.1 - pos.y == q * v + (p.1 - pos.y) % q,
                        p.2 - pos.z == q * w + (p.2 - pos.z) % q,
                        (p.0 - pos.x) % q < q, (p.1 - pos.y) % q < q, (p.2 - pos.z) % q < q;
            }
        }
    } else {
        let prev = build_children(size, data, pos, cs, pl, ll, (i - 1) as nat);
        let cp = child_position(pos, cs, (i - 1) as nat);
        lemma_children_count_of(size, data, pos, cs, pl, ll, (i - 1) as nat, val);
        assert forall|p: (int, int, int)|
            #[trigger] occupied_with_in(size, data, cp, q, val).contains(p)
                == (occupied_children_with(size, data, pos, q, i as int, val).contains(p)
                    && !occupied_children_with(size, data, pos, q, (i - 1) as int, val).contains(p)) by {
            lemma_point_in_child(pos, cs, (i - 1) as nat, p);
        }
        lemma_point_in_child(pos, cs, (i - 1) as nat, (0, 0, 0));
        lemma_build_count_of(size, data, cp, cs, pl + prev.3.len(), ll + prev.4.len(), val);
        let before = occupied_children_with(size, data, pos, q, (i - 1) as int, val);
        let here = occupied_with_in(size, data, cp, q, val);
        assert(occupied_children_with(size, data, pos, q, i as int, val) =~= before + here) by {
            assert forall|p: (int, int, int)| #[trigger] occupied_children_with(size, data, pos, q, i as int, val).contains(p)
                implies before.contains(p) || here.contains(p) by {
                assert(here.contains(p) == (occupied_children_with(size, data, pos, q, i as int, val).contains(p) && !before.contains(p)));
            }
            assert forall|p: (int, int, int)| #[trigger] before.contains(p)
                implies occupied_children_with(size, data, pos, q, i as int, val).contains(p) by {}
            assert forall|p: (int, int, int)| #[trigger] here.contains(p)
                implies occupied_children_with(size, data, pos, q, i as int, val).contains(p) by {
                assert(here.contains(p) == (occupied_children_with(size, data, pos, q, i as int, val).contains(p) && !before.contains(p)));
            }
        }
        assert(before.disjoint(here)) by {
            assert forall|p: (int, int, int)| #[trigger] before.contains(p) implies !here.contains(p) by {
                assert(here.contains(p) == (occupied_children_with(size, data, pos, q, i as int, val).contains(p) && !before.contains(p)));
            }
        }
        lemma_set_disjoint_lens(before, here);
        let c = build_children(size, data, pos, cs, pl, ll, i);
        let child = build_spec(size, data, cp, cs, pl + prev.3.len(), ll + prev.4.len());
        assert(c.4 == prev.4 + child.3);
        lemma_count_of_concat(prev.4, child.3, val);
    }
}


/// The points whose voxel is `val`.
pub open spec fn occupied_with(size: UVec3, data: Seq<u8>, val: u8) -> Set<(int, int, int)> {
    Set::new(|p: (int, int, int)| voxel_at(size, data, p.0, p.1, p.2) == val)
}

/// The leaf data of the tree of a model holds each non-zero byte as often as the model's
/// voxels hold it (and, by `build_tree`, no zero): it is the occupied voxels, reordered.
pub proof fn lemma_leaf_data_holds_voxels(size: UVec3, data: Seq<u8>)
    requires
        build_defined(size, data.len() as int),
    ensures
        forall|val: u8| val != 0 ==> #[trigger] occupied_with(size, data, val).finite(),
        forall|val: u8| val != 0 ==>
            #[trigger] count_of(tree_spec(size, data).3, val) == occupied_with(size, data, val).len(),
{
    let s = scale_of(size);
    let m = (size.max_element_spec() - 1) as nat;
    lemma_scale_bounds(size);
    lemma_ilog4(m);
    lemma_digits4_of_log(m, spec_ilog4(m));
    lemma_pow4_monotone(s, 11);
    lemma_pow4_values();
    let origin = UVec3 { x: 0, y: 0, z: 0 };
    assert forall|val: u8| val != 0 implies #[trigger] occupied_with(size, data, val).finite()
        && count_of(tree_spec(size, data).3, val) == occupied_with(size, data, val).len() by {
        lemma_build_count_of(size, data, origin, s, 1, 0, val);
        assert(occupied_with(size, data, val) =~= occupied_with_in(size, data, origin, pow4(s) as int, val));
    }
    assert forall|val: u8| val != 0 implies
        #[trigger] count_of(tree_spec(size, data).3, val) == occupied_with(size, data, val).len() by {
        assert(occupied_with(size, data, val).finite());
    }
}

} // verus!
