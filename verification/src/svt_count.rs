//! How much leaf data a tree holds: one byte for each non-zero voxel of the model.
use vstd::prelude::*;
use vstd::relations::injective_on;
use vstd::set_lib::{lemma_map_size, lemma_set_disjoint_lens};
use crate::vec3::UVec3;
use crate::bits::{
    bit64, rank64, pow4, lemma_packed_len, lemma_nonzero_mask_bits, lemma_pow4_positive, lemma_pow4_monotone,
    lemma_pow4_values, lemma_digits4_of_log, spec_ilog4, lemma_ilog4,
};
use crate::svt::{build_defined, tree_spec, lemma_scale_bounds};
use crate::svt_model::{
    build_spec, build_children, build_leaf, child_position, inside, scale_of, brick_spec, brick_cell, nonzero_mask, voxel_at,
};

verus! {

/// The points of the cube of side `side` at `pos` whose voxel is non-zero.
pub open spec fn occupied_in(size: UVec3, data: Seq<u8>, pos: UVec3, side: int) -> Set<(int, int, int)> {
    Set::new(|p: (int, int, int)|
        pos.x <= p.0 < pos.x + side && pos.y <= p.1 < pos.y + side && pos.z <= p.2 < pos.z + side
            && voxel_at(size, data, p.0, p.1, p.2) != 0)
}

/// The positions below `n` whose bit is set in `m`.
pub open spec fn set_bits(m: u64, n: nat) -> Set<int> {
    Set::new(|k: int| 0 <= k < n && bit64(m, k as nat))
}

pub proof fn lemma_set_bits_len(m: u64, n: nat)
    ensures
        set_bits(m, n).finite(),
        set_bits(m, n).len() == rank64(m, n),
    decreases n,
{
    if n == 0 {
        assert(set_bits(m, 0) =~= Set::empty());
    } else {
        lemma_set_bits_len(m, (n - 1) as nat);
        if bit64(m, (n - 1) as nat) {
            assert(set_bits(m, n) =~= set_bits(m, (n - 1) as nat).insert(n - 1));
        } else {
            assert(set_bits(m, n) =~= set_bits(m, (n - 1) as nat));
        }
    }
}

/// The point that cell `k` of the brick at `pos` holds.
pub open spec fn brick_point(pos: UVec3, k: int) -> (int, int, int) {
    (pos.x + k % 4, pos.y + (k / 4) % 4, pos.z + k / 16)
}

/// A leaf holds one byte for each non-zero voxel of its brick.
pub proof fn lemma_leaf_count(size: UVec3, data: Seq<u8>, pos: UVec3, ll: nat)
    ensures
        occupied_in(size, data, pos, 4).finite(),
        build_leaf(size, data, pos, ll).3.len() == occupied_in(size, data, pos, 4).len(),
{
    let occ = occupied_in(size, data, pos, 4);
    if !inside(size, pos) {
        assert(occ =~= Set::empty());
    } else {
        let brick = brick_spec(size, data, pos);
        let mask = nonzero_mask(brick);
        lemma_packed_len(brick, mask, 64);
        lemma_set_bits_len(mask, 64);
        lemma_nonzero_mask_bits(brick, 64);
        let bits = set_bits(mask, 64);
        let f = |k: int| brick_point(pos, k);
        assert forall|k: int| 0 <= k < 64 implies
            #[trigger] brick[k] == voxel_at(size, data, brick_point(pos, k).0, brick_point(pos, k).1, brick_point(pos, k).2) by {
            assert(brick[k] == brick_cell(size, data, pos, k));
        }
        assert(injective_on(f, bits)) by {
            assert forall|k1: int, k2: int| bits.contains(k1) && bits.contains(k2) && #[trigger] f(k1) == #[trigger] f(k2)
                implies k1 == k2 by {
                assert(k1 == k1 % 4 + 4 * ((k1 / 4) % 4) + 16 * (k1 / 16));
                assert(k2 == k2 % 4 + 4 * ((k2 / 4) % 4) + 16 * (k2 / 16));
            }
        }
        assert(bits.map(f) =~= occ) by {
            assert forall|p: (int, int, int)| occ.contains(p) implies #[trigger] bits.map(f).contains(p) by {
                let a = p.0 - pos.x;
                let b = p.1 - pos.y;
                let c = p.2 - pos.z;
                let k = a + 4 * b + 16 * c;
                assert(k % 4 == a && (k / 4) % 4 == b && k / 16 == c);
                assert(f(k) == p);
                assert(bit64(mask, k as nat) == (brick[k] != 0));
                assert(bits.contains(k));
            }
            assert forall|p: (int, int, int)| #[trigger] bits.map(f).contains(p) implies occ.contains(p) by {
                let k = choose|k: int| bits.contains(k) && p == f(k);
                assert(bit64(mask, k as nat) == (brick[k] != 0));
            }
        }
        lemma_map_size(bits, occ, f);
    }
}

/// Which of the 64 sub-cubes of side `q` (x fastest, then y, then z) of the cube at
/// `pos` holds the point `p`.
pub open spec fn child_index(pos: UVec3, q: int, p: (int, int, int)) -> int {
    (p.0 - pos.x) / q + 4 * ((p.1 - pos.y) / q) + 16 * ((p.2 - pos.z) / q)
}

/// The points of the cube of side `4q` at `pos` that lie in its first `i` sub-cubes
/// and whose voxel is non-zero.
pub open spec fn occupied_children(size: UVec3, data: Seq<u8>, pos: UVec3, q: int, i: int) -> Set<(int, int, int)> {
    Set::new(|p: (int, int, int)|
        pos.x <= p.0 < pos.x + 4 * q && pos.y <= p.1 < pos.y + 4 * q && pos.z <= p.2 < pos.z + 4 * q
            && voxel_at(size, data, p.0, p.1, p.2) != 0 && child_index(pos, q, p) < i)
}

pub proof fn lemma_digit(d: int, q: int, a: int)
    requires
        q > 0,
        0 <= a < 4,
    ensures
        (a * q <= d < a * q + q) <==> (0 <= d < 4 * q && d / q == a),
{
    vstd::arithmetic::div_mod::lemma_fundamental_div_mod(d, q);
    let u = d / q;
    let r = d % q;
    assert(0 <= r < q) by (nonlinear_arith)
        requires q > 0, r == d % q;
    if a * q <= d < a * q + q {
        assert(u == a) by (nonlinear_arith)
            requires d == q * u + r, 0 <= r < q, a * q <= d < a * q + q, q > 0;
        assert(0 <= d < 4 * q) by (nonlinear_arith)
            requires 0 <= a < 4, a * q <= d < a * q + q, q > 0;
    }
    if 0 <= d < 4 * q && u == a {
        assert(a * q <= d < a * q + q) by (nonlinear_arith)
            requires d == q * u + r, 0 <= r < q, u == a;
    }
}

/// A point lies in sub-cube `j` of the cube at `pos` exactly when it lies in the cube
/// and its child index is `j`.
pub proof fn lemma_point_in_child(pos: UVec3, cs: nat, j: nat, p: (int, int, int))
    requires
        j < 64,
        pos.x + 4 * pow4(cs) <= 0x1_0000_0000,
        pos.y + 4 * pow4(cs) <= 0x1_0000_0000,
        pos.z + 4 * pow4(cs) <= 0x1_0000_0000,
    ensures
        ({
            let q = pow4(cs) as int;
            let cp = child_position(pos, cs, j);
            &&& cp.x + q <= 0x1_0000_0000 && cp.y + q <= 0x1_0000_0000 && cp.z + q <= 0x1_0000_0000
            &&& (cp.x <= p.0 < cp.x + q && cp.y <= p.1 < cp.y + q && cp.z <= p.2 < cp.z + q)
                <==> (pos.x <= p.0 < pos.x + 4 * q && pos.y <= p.1 < pos.y + 4 * q && pos.z <= p.2 < pos.z + 4 * q
                    && child_index(pos, q, p) == j)
        }),
{
    let q = pow4(cs) as int;
    lemma_pow4_positive(cs);
    let a = (j % 4) as int;
    let b = ((j / 4) % 4) as int;
    let c = (j / 16) as int;
    assert(0 <= a * q <= 3 * q && 0 <= b * q <= 3 * q && 0 <= c * q <= 3 * q) by (nonlinear_arith)
        requires 0 <= a < 4, 0 <= b < 4, 0 <= c < 4, q > 0;
    let cp = child_position(pos, cs, j);
    assert(cp.x == pos.x + a * q && cp.y == pos.y + b * q && cp.z == pos.z + c * q);
    let dx = p.0 - pos.x;
    let dy = p.1 - pos.y;
    let dz = p.2 - pos.z;
    lemma_digit(dx, q, a);
    lemma_digit(dy, q, b);
    lemma_digit(dz, q, c);
    if 0 <= dx < 4 * q && 0 <= dy < 4 * q && 0 <= dz < 4 * q {
        let u = dx / q;
        let v = dy / q;
        let w = dz / q;
        assert(0 <= u < 4 && 0 <= v < 4 && 0 <= w < 4) by {
            vstd::arithmetic::div_mod::lemma_fundamental_div_mod(dx, q);
            vstd::arithmetic::div_mod::lemma_fundamental_div_mod(dy, q);
            vstd::arithmetic::div_mod::lemma_fundamental_div_mod(dz, q);
            assert(0 <= u < 4 && 0 <= v < 4 && 0 <= w < 4) by (nonlinear_arith)
                requires q > 0, 0 <= dx < 4 * q, 0 <= dy < 4 * q, 0 <= dz < 4 * q,
                    dx == q * u + dx % q, dy == q * v + dy % q, dz == q * w + dz % q,
                    0 <= dx % q < q, 0 <= dy % q < q, 0 <= dz % q < q;
        }
        assert((u + 4 * v + 16 * w == j) <==> (u == a && v == b && w == c));
    }
}

/// The leaf data of a subtree holds one byte for each non-zero voxel of its cube.
pub proof fn lemma_build_count(size: UVec3, data: Seq<u8>, pos: UVec3, scale: nat, pl: nat, ll: nat)
    requires
        1 <= scale,
        pos.x + pow4(scale) <= 0x1_0000_0000,
        pos.y + pow4(scale) <= 0x1_0000_0000,
        pos.z + pow4(scale) <= 0x1_0000_0000,
    ensures
        occupied_in(size, data, pos, pow4(scale) as int).finite(),
        build_spec(size, data, pos, scale, pl, ll).3.len() == occupied_in(size, data, pos, pow4(scale) as int).len(),
    decreases scale, 65nat,
{
    if scale <= 1 {
        assert(pow4(0) == 1);
        assert(pow4(1) == 4);
        lemma_leaf_count(size, data, pos, ll);
    } else {
        let cs = (scale - 1) as nat;
        let q = pow4(cs) as int;
        assert(pow4(scale) == 4 * q);
        lemma_pow4_positive(cs);
        lemma_children_count(size, data, pos, cs, pl, ll, 64);
        assert(occupied_children(size, data, pos, q, 64) =~= occupied_in(size, data, pos, 4 * q)) by {
            assert forall|p: (int, int, int)| #[trigger] occupied_in(size, data, pos, 4 * q).contains(p)
                implies child_index(pos, q, p) < 64 by {
                let u = (p.0 - pos.x) / q;
                let v = (p.1 - pos.y) / q;
                let w = (p.2 - pos.z) / q;
                vstd::arithmetic::div_mod::lemma_fundamental_div_mod(p.0 - pos.x, q);
                vstd::arithmetic::div_mod::lemma_fundamental_div_mod(p.1 - pos.y, q);
                vstd::arithmetic::div_mod::lemma_fundamental_div_mod(p.2 - pos.z, q);
                assert(u < 4 && v < 4 && w < 4) by (nonlinear_arith)
                    requires q > 0, p.0 - pos.x < 4 * q, p.1 - pos.y < 4 * q, p.2 - pos.z < 4 * q,
                        p.0 - pos.x == q * u + (p.0 - pos.x) % q, p.1 - pos.y == q * v + (p.1 - pos.y) % q,
                        p.2 - pos.z == q * w + (p.2 - pos.z) % q,
                        0 <= (p.0 - pos.x) % q, 0 <= (p.1 - pos.y) % q, 0 <= (p.2 - pos.z) % q;
            }
        }
    }
}

/// The leaf data of the first `i` children holds one byte for each non-zero voxel of
/// their sub-cubes.
pub proof fn lemma_children_count(size: UVec3, data: Seq<u8>, pos: UVec3, cs: nat, pl: nat, ll: nat, i: nat)
    requires
        1 <= cs,
        i <= 64,
        pos.x + 4 * pow4(cs) <= 0x1_0000_0000,
        pos.y + 4 * pow4(cs) <= 0x1_0000_0000,
        pos.z + 4 * pow4(cs) <= 0x1_0000_0000,
    ensures
        occupied_children(size, data, pos, pow4(cs) as int, i as int).finite(),
        build_children(size, data, pos, cs, pl, ll, i).4.len() == occupied_children(size, data, pos, pow4(cs) as int, i as int).len(),
    decreases cs + 1, i,
{
    let q = pow4(cs) as int;
    lemma_pow4_positive(cs);
    if i == 0 {
        assert(occupied_children(size, data, pos, q, 0) =~= Set::empty()) by {
            assert forall|p: (int, int, int)| #[trigger] occupied_children(size, data, pos, q, 0).contains(p) implies false by {
                let u = (p.0 - pos.x) / q;
                let v = (p.1 - pos.y) / q;
                let w = (p.2 - pos.z) / q;
                lemma_digit(p.0 - pos.x, q, 0);
                lemma_digit(p.1 - pos.y, q, 0);
                lemma_digit(p.2 - pos.z, q, 0);
                vstd::arithmetic::div_mod::lemma_fundamental_div_mod(p.0 - pos.x, q);
                vstd::arithmetic::div_mod::lemma_fundamental_div_mod(p.1 - pos.y, q);
                vstd::arithmetic::div_mod::lemma_fundamental_div_mod(p.2 - pos.z, q);
                assert(u >= 0 && v >= 0 && w >= 0) by (nonlinear_arith)
                    requires q > 0, p.0 - pos.x >= 0, p.1 - pos.y >= 0, p.2 - pos.z >= 0,
                        p.0 - pos.x == q * u + (p.0 - pos.x) % q, p.1 - pos.y == q * v + (p.1 - pos.y) % q,
                        p.2 - pos.z == q * w + (p.2 - pos.z) % q,
                        (p.0 - pos.x) % q < q, (p.1 - pos.y) % q < q, (p.2 - pos.z) % q < q;
            }
        }
    } else {
        let prev = build_children(size, data, pos, cs, pl, ll, (i - 1) as nat);
        let cp = child_position(pos, cs, (i - 1) as nat);
        lemma_children_count(size, data, pos, cs, pl, ll, (i - 1) as nat);
        assert forall|p: (int, int, int)|
            #[trigger] occupied_in(size, data, cp, q).contains(p)
                == (occupied_children(size, data, pos, q, i as int).contains(p)
                    && !occupied_children(size, data, pos, q, (i - 1) as int).contains(p)) by {
            lemma_point_in_child(pos, cs, (i - 1) as nat, p);
        }
        lemma_point_in_child(pos, cs, (i - 1) as nat, (0, 0, 0));
        lemma_build_count(size, data, cp, cs, pl + prev.3.len(), ll + prev.4.len());
        let before = occupied_children(size, data, pos, q, (i - 1) as int);
        let here = occupied_in(size, data, cp, q);
        assert(occupied_children(size, data, pos, q, i as int) =~= before + here) by {
            assert forall|p: (int, int, int)| #[trigger] occupied_children(size, data, pos, q, i as int).contains(p)
                implies before.contains(p) || here.contains(p) by {
                assert(here.contains(p) == (occupied_children(size, data, pos, q, i as int).contains(p) && !before.contains(p)));
            }
            assert forall|p: (int, int, int)| #[trigger] before.contains(p)
                implies occupied_children(size, data, pos, q, i as int).contains(p) by {}
            assert forall|p: (int, int, int)| #[trigger] here.contains(p)
                implies occupied_children(size, data, pos, q, i as int).contains(p) by {
                assert(here.contains(p) == (occupied_children(size, data, pos, q, i as int).contains(p) && !before.contains(p)));
            }
        }
        assert(before.disjoint(here)) by {
            assert forall|p: (int, int, int)| #[trigger] before.contains(p) implies !here.contains(p) by {
                assert(here.contains(p) == (occupied_children(size, data, pos, q, i as int).contains(p) && !before.contains(p)));
            }
        }
        lemma_set_disjoint_lens(before, here);
    }
}

/// The points whose voxel is non-zero: the occupied voxels of the model.
pub open spec fn occupied(size: UVec3, data: Seq<u8>) -> Set<(int, int, int)> {
    Set::new(|p: (int, int, int)| voxel_at(size, data, p.0, p.1, p.2) != 0)
}

/// The leaf data of the tree of a model holds one byte for each occupied voxel.
pub proof fn lemma_leaf_data_counts_voxels(size: UVec3, data: Seq<u8>)
    requires
        build_defined(size, data.len() as int),
    ensures
        occupied(size, data).finite(),
        tree_spec(size, data).3.len() == occupied(size, data).len(),
{
    let s = scale_of(size);
    let m = (size.max_element_spec() - 1) as nat;
    lemma_scale_bounds(size);
    lemma_ilog4(m);
    lemma_digits4_of_log(m, spec_ilog4(m));
    lemma_pow4_monotone(s, 11);
    lemma_pow4_values();
    let origin = UVec3 { x: 0, y: 0, z: 0 };
    lemma_build_count(size, data, origin, s, 1, 0);
    assert(occupied(size, data) =~= occupied_in(size, data, origin, pow4(s) as int));
}

} // verus!
