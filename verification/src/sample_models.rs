//! Models generated in code, as grids of colors four bytes (red, green, blue, alpha) a
//! voxel, x fastest, then y, then z.
use vstd::prelude::*;

verus! {

/// The distance between two coordinates.
pub open spec fn dist(a: int, b: int) -> int {
    if a >= b { a - b } else { b - a }
}

/// Whether cell `k` of a cube of side `d` lies in the ball of radius `d / 2` around
/// the cell `(d / 2, d / 2, d / 2)`.
pub open spec fn in_ball(d: int, k: int) -> bool {
    let r = d / 2;
    let x = k % d;
    let y = (k / d) % d;
    let z = k / (d * d);
    dist(r, x) * dist(r, x) + dist(r, y) * dist(r, y) + dist(r, z) * dist(r, z) <= r * r
}

/// The color of cell `k`: a checkerboard of black and `0xb8bb26`.
pub open spec fn checker_color(d: int, k: int) -> int {
    ((k % d + (k / d) % d + k / (d * d)) % 2) * 0xb8bb26
}

/// The bytes of a ball of side `d`, checkered, opaque; 0 outside the ball.
pub open spec fn ball_model(d: int) -> Seq<u8> {
    Seq::new((4 * (d * d * d)) as nat, |b: int| {
        let k = b / 4;
        let c = checker_color(d, k);
        if !in_ball(d, k) {
            0u8
        } else if b % 4 == 0 {
            (c / 0x1_0000) as u8
        } else if b % 4 == 1 {
            ((c / 0x100) % 0x100) as u8
        } else if b % 4 == 2 {
            (c % 0x100) as u8
        } else {
            0xFFu8
        }
    })
}

fn abs_diff(a: usize, b: usize) -> (r: usize)
    ensures
        r == dist(a as int, b as int),
{
    if a >= b { a - b } else { b - a }
}

/// A ball filling a cube of side `cube_side_length`.
pub fn get_sphere_model(cube_side_length: u32) -> (r: Vec<u8>)
    requires
        4 * (cube_side_length * cube_side_length * cube_side_length) <= usize::MAX,
    ensures
        r@ == ball_model(cube_side_length as int),
{
    let diameter = cube_side_length as usize;
    let ghost d = diameter as int;
    proof {
        assert(0 <= d * d && 0 <= d * d * d) by (nonlinear_arith) requires d >= 0;
        if d >= 1 {
            assert(d * d <= d * d * d) by (nonlinear_arith) requires d >= 1;
        } else {
            assert(d * d == 0);
        }
    }
    let bytes_per_voxel: usize = 4;
    let cells = diameter * diameter * diameter;
    let mut data: Vec<u8> = vec![0u8; cells * bytes_per_voxel];
    let radius = diameter / 2;
    let mut k: usize = 0;
    while k < cells
        invariant
            d == diameter,
            cells == d * d * d,
            4 * cells <= usize::MAX,
            d * d <= cells,
            d >= 0,
            bytes_per_voxel == 4,
            radius == d / 2,
            k <= cells,
            data@.len() == 4 * cells,
            forall|b: int| 0 <= b < 4 * k ==> data@[b] == #[trigger] ball_model(d)[b],
            forall|b: int| 4 * k <= b < 4 * cells ==> data@[b] == 0,
        decreases cells - k,
    {
        proof {
            assert(d >= 1) by {
                if d == 0 {
                    assert(d * d * d == 0);
                }
            }
            assert((k as int) / (d * d) < d) by (nonlinear_arith)
                requires d >= 1, 0 <= k < d * d * d;
            assert(d * d >= 1) by (nonlinear_arith) requires d >= 1;
            assert(3 * d <= 4 * (d * d * d)) by (nonlinear_arith) requires d >= 1;
        }
        let x = k % diameter;
        let y = (k / diameter) % diameter;
        let z = k / (diameter * diameter);
        let x_dist = abs_diff(radius, x);
        let y_dist = abs_diff(radius, y);
        let z_dist = abs_diff(radius, z);
        proof {
            assert(x < d && y < d && z < d);
            assert(x_dist <= d && y_dist <= d && z_dist <= d);
            assert(x_dist * x_dist <= d * d && y_dist * y_dist <= d * d && z_dist * z_dist <= d * d) by (nonlinear_arith)
                requires 0 <= x_dist <= d, 0 <= y_dist <= d, 0 <= z_dist <= d;
            assert(d * d <= d * d * d) by (nonlinear_arith) requires d >= 1;
            assert(radius * radius <= d * d) by (nonlinear_arith) requires 0 <= radius <= d;
        }
        if x_dist * x_dist + y_dist * y_dist + z_dist * z_dist <= radius * radius {
            let begin = k * bytes_per_voxel;
            let color = ((x + y + z) % 2) * 0xb8bb26;
            data.set(begin, ((color & 0xFF0000) >> 16) as u8);
            data.set(begin + 1, ((color & 0x00FF00) >> 8) as u8);
            data.set(begin + 2, (color & 0x0000FF) as u8);
            data.set(begin + 3, 0xFF);
            proof {
                let c = color;
                assert(c == 0 || c == 0xb8bb26);
                assert(((c & 0xFF0000) >> 16) == c / 0x1_0000 && ((c & 0x00FF00) >> 8) == (c / 0x100) % 0x100
                    && (c & 0x0000FF) == c % 0x100) by (bit_vector)
                    requires c == 0 || c == 0xb8bb26;
            }
        }
        k = k + 1;
        proof {
            assert forall|b: int| 0 <= b < 4 * k implies data@[b] == #[trigger] ball_model(d)[b] by {
                if b >= 4 * (k - 1) {
                    assert(b / 4 == k - 1);
                }
            }
        }
    }
    proof {
        assert(data@ =~= ball_model(d));
    }
    data
}

} // verus!

verus! {

/// The same ball as `get_sphere_model`.
pub fn get_model_data(diameter: u32) -> (r: Vec<u8>)
    requires
        4 * (diameter * diameter * diameter) <= usize::MAX,
    ensures
        r@ == ball_model(diameter as int),
{
    get_sphere_model(diameter)
}

} // verus!

verus! {

/// The bytes of a cube of side `d` whose cell `k` (x fastest, then y, then z) is filled
/// when `filled[k]` holds: checkered, opaque; 0 where it is not filled.
pub open spec fn checkered_cells(d: int, filled: Seq<bool>) -> Seq<u8> {
    Seq::new((4 * (d * d * d)) as nat, |b: int| {
        let k = b / 4;
        let c = checker_color(d, k);
        if !filled[k] {
            0u8
        } else if b % 4 == 0 {
            (c / 0x1_0000) as u8
        } else if b % 4 == 1 {
            ((c / 0x100) % 0x100) as u8
        } else if b % 4 == 2 {
            (c % 0x100) as u8
        } else {
            0xFFu8
        }
    })
}

/// The model of a cube of side `cube_side_length` whose filled cells are given: the
/// same checkered colors as the ball's. Which cells are filled (the Mandelbulb's test,
/// say) is decided by the caller.
pub fn get_checkered_model(cube_side_length: u32, filled: &[bool]) -> (r: Vec<u8>)
    requires
        filled@.len() == cube_side_length * cube_side_length * cube_side_length,
        4 * (cube_side_length * cube_side_length * cube_side_length) <= usize::MAX,
    ensures
        r@ == checkered_cells(cube_side_length as int, filled@),
{
    let side = cube_side_length as usize;
    let ghost d = side as int;
    proof {
        assert(0 <= d * d && 0 <= d * d * d) by (nonlinear_arith) requires d >= 0;
        if d >= 1 {
            assert(d * d <= d * d * d) by (nonlinear_arith) requires d >= 1;
        } else {
            assert(d * d == 0) by (nonlinear_arith) requires d == 0;
        }
    }
    let cells = side * side * side;
    let mut data: Vec<u8> = vec![0u8; cells * 4];
    let mut k: usize = 0;
    while k < cells
        invariant
            d == side,
            cells == d * d * d,
            filled@.len() == cells,
            4 * cells <= usize::MAX,
            d * d <= cells,
            d >= 0,
            k <= cells,
            data@.len() == 4 * cells,
            forall|b: int| 0 <= b < 4 * k ==> data@[b] == #[trigger] checkered_cells(d, filled@)[b],
            forall|b: int| 4 * k <= b < 4 * cells ==> data@[b] == 0,
        decreases cells - k,
    {
        proof {
            assert(d >= 1) by {
                if d == 0 {
                    assert(d * d * d == 0);
                }
            }
            assert((k as int) / (d * d) < d) by (nonlinear_arith)
                requires d >= 1, 0 <= k < d * d * d;
            assert(d * d >= 1) by (nonlinear_arith) requires d >= 1;
            assert(3 * d <= 4 * (d * d * d)) by (nonlinear_arith) requires d >= 1;
        }
        if filled[k] {
            let x = k % side;
            let y = (k / side) % side;
            let z = k / (side * side);
            let begin = k * 4;
            let color = ((x + y + z) % 2) * 0xb8bb26;
            data.set(begin, ((color & 0xFF0000) >> 16) as u8);
            data.set(begin + 1, ((color & 0x00FF00) >> 8) as u8);
            data.set(begin + 2, (color & 0x0000FF) as u8);
            data.set(begin + 3, 0xFF);
            proof {
                let c = color;
                assert(c == 0 || c == 0xb8bb26);
                assert(((c & 0xFF0000) >> 16) == c / 0x1_0000 && ((c & 0x00FF00) >> 8) == (c / 0x100) % 0x100
                    && (c & 0x0000FF) == c % 0x100) by (bit_vector)
                    requires c == 0 || c == 0xb8bb26;
            }
        }
        k = k + 1;
        proof {
            assert forall|b: int| 0 <= b < 4 * k implies data@[b] == #[trigger] checkered_cells(d, filled@)[b] by {
                if b >= 4 * (k - 1) {
                    assert(b / 4 == k - 1);
                }
            }
        }
    }
    proof {
        assert(data@ =~= checkered_cells(d, filled@));
    }
    data
}

} // verus!
