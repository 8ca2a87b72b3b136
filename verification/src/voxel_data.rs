//! The voxels of a `.vox` model with its size and palette, turned into the flat
//! byte grids that the renderer and the tree take.
use vstd::prelude::*;
use crate::vec3::UVec3;
use crate::voxel_loader::{
    VoxFile, VoxChunk, SizeChunk, XYZIChunk, RGBAChunk, XYZIVoxel, TransformChunkError, DEFAULT_PALETTE,
    find_child_spec, size_from_chunk, xyzi_from_chunk, rgba_from_chunk,
};
use crate::vox_format::{size_tag, xyzi_tag, rgba_tag};
use crate::svt_model::voxel_index;

verus! {

pub struct XYZIVoxelData {
    size: UVec3,
    data: Vec<XYZIVoxel>,
    color_palette: [u32; 256],
}

#[derive(Debug)]
pub enum VoxelDataError {
    ChunkNotFound(String),
    TransformChunkError(String),
    VoxelOutOfBounds,
}

/// The name of a chunk error, as its `Debug` form writes it.
pub open spec fn error_text(e: TransformChunkError) -> Seq<char> {
    match e {
        TransformChunkError::WrongTagName => "WrongTagName"@,
        TransformChunkError::UnexpectedChildren => "UnexpectedChildren"@,
        TransformChunkError::UnexpectedContentSize => "UnexpectedContentSize"@,
    }
}

fn error_string(e: TransformChunkError) -> (r: String)
    ensures
        r@ == error_text(e),
{
    match e {
        TransformChunkError::WrongTagName => "WrongTagName".to_owned(),
        TransformChunkError::UnexpectedChildren => "UnexpectedChildren".to_owned(),
        TransformChunkError::UnexpectedContentSize => "UnexpectedContentSize".to_owned(),
    }
}

/// The squared distance of a voxel from the origin.
pub open spec fn length2(v: XYZIVoxel) -> int {
    v.x * v.x + v.y * v.y + v.z * v.z
}

pub proof fn lemma_length2_bound(v: XYZIVoxel)
    ensures
        0 <= length2(v) <= 3 * 255 * 255,
{
    let (x, y, z) = (v.x as int, v.y as int, v.z as int);
    assert(0 <= x * x <= 255 * 255 && 0 <= y * y <= 255 * 255 && 0 <= z * z <= 255 * 255) by (nonlinear_arith)
        requires 0 <= x <= 255, 0 <= y <= 255, 0 <= z <= 255;
}

/// Among the first `n` voxels, the last of those farthest from the origin.
pub open spec fn farthest_index(vs: Seq<XYZIVoxel>, n: nat) -> int
    decreases n,
{
    if n <= 1 {
        0
    } else {
        let b = farthest_index(vs, (n - 1) as nat);
        if length2(vs[n - 1]) >= length2(vs[b]) { n - 1 } else { b }
    }
}

/// Among the first `n` voxels, the first of the lowest ones (least `y`).
pub open spec fn lowest_index(vs: Seq<XYZIVoxel>, n: nat) -> int
    decreases n,
{
    if n <= 1 {
        0
    } else {
        let b = lowest_index(vs, (n - 1) as nat);
        if vs[n - 1].y < vs[b].y { n - 1 } else { b }
    }
}

/// The file's voxel data checks: the farthest voxel lies within the `SIZE` (each of
/// its coordinates at most the size on that axis).
pub open spec fn farthest_within(vs: Seq<XYZIVoxel>, d: (u32, u32, u32)) -> bool {
    vs.len() == 0 || {
        let v = vs[farthest_index(vs, vs.len())];
        v.x <= d.0 && v.y <= d.1 && v.z <= d.2
    }
}

/// The palette of a model: the file's `RGBA` palette or the default one, with entry 0
/// set to the color of the lowest voxel (a fixed green when there are no voxels).
pub open spec fn model_palette(palette: Seq<u32>, vs: Seq<XYZIVoxel>) -> Seq<u32> {
    if vs.len() == 0 {
        palette.update(0, 0xb2c553ffu32)
    } else {
        palette.update(0, palette[vs[lowest_index(vs, vs.len())].i as int])
    }
}

/// Among the first `n` voxels, `lowest_index` picks the first of those with the least `y`.
pub proof fn lemma_lowest_index(vs: Seq<XYZIVoxel>, n: nat)
    requires
        1 <= n <= vs.len(),
    ensures
        0 <= lowest_index(vs, n) < n,
        forall|k: int| 0 <= k < n ==> vs[lowest_index(vs, n)].y <= #[trigger] vs[k].y,
        forall|k: int| 0 <= k < lowest_index(vs, n) ==> #[trigger] vs[k].y > vs[lowest_index(vs, n)].y,
    decreases n,
{
    if n > 1 {
        lemma_lowest_index(vs, (n - 1) as nat);
    }
}

/// Among the first `n` voxels, `farthest_index` picks the last of those farthest from the
/// origin.
pub proof fn lemma_farthest_index(vs: Seq<XYZIVoxel>, n: nat)
    requires
        1 <= n <= vs.len(),
    ensures
        0 <= farthest_index(vs, n) < n,
        forall|k: int| 0 <= k < n ==> length2(#[trigger] vs[k]) <= length2(vs[farthest_index(vs, n)]),
        forall|k: int| farthest_index(vs, n) < k < n ==> length2(#[trigger] vs[k]) < length2(vs[farthest_index(vs, n)]),
    decreases n,
{
    if n > 1 {
        lemma_farthest_index(vs, (n - 1) as nat);
    }
}

/// The palette of a model: entry 0 takes the palette color of the first of the voxels
/// with the least `y` (a fixed green when there are no voxels); every other entry is the
/// palette's own.
pub proof fn lemma_model_palette_lowest(palette: Seq<u32>, vs: Seq<XYZIVoxel>)
    requires
        palette.len() == 256,
    ensures
        model_palette(palette, vs).len() == 256,
        forall|k: int| 1 <= k < 256 ==> #[trigger] model_palette(palette, vs)[k] == palette[k],
        vs.len() == 0 ==> model_palette(palette, vs)[0] == 0xb2c553ffu32,
        forall|j: int| 0 <= j < vs.len()
            && (forall|k: int| 0 <= k < vs.len() ==> vs[j].y <= #[trigger] vs[k].y)
            && (forall|k: int| 0 <= k < j ==> #[trigger] vs[k].y > vs[j].y)
            ==> model_palette(palette, vs)[0] == palette[#[trigger] vs[j].i as int],
{
    if vs.len() > 0 {
        lemma_lowest_index(vs, vs.len());
        let low = lowest_index(vs, vs.len());
        assert forall|j: int| 0 <= j < vs.len()
            && (forall|k: int| 0 <= k < vs.len() ==> vs[j].y <= #[trigger] vs[k].y)
            && (forall|k: int| 0 <= k < j ==> #[trigger] vs[k].y > vs[j].y)
            implies model_palette(palette, vs)[0] == palette[#[trigger] vs[j].i as int] by {
            if j < low {
                assert(vs[j].y > vs[low].y);
                assert(vs[j].y <= vs[low].y);
            } else if j > low {
                assert(vs[low].y > vs[j].y);
                assert(vs[low].y <= vs[j].y);
            }
        }
    }
}

/// The file's voxels pass the bounds check exactly when the last of the voxels farthest
/// from the origin lies within the size on each axis.
pub proof fn lemma_farthest_within(vs: Seq<XYZIVoxel>, d: (u32, u32, u32))
    ensures
        vs.len() == 0 ==> farthest_within(vs, d),
        forall|j: int| 0 <= j < vs.len()
            && (forall|k: int| 0 <= k < vs.len() ==> length2(#[trigger] vs[k]) <= length2(vs[j]))
            && (forall|k: int| j < k < vs.len() ==> length2(#[trigger] vs[k]) < length2(vs[j]))
            ==> (farthest_within(vs, d) <==> (#[trigger] vs[j]).x <= d.0 && vs[j].y <= d.1 && vs[j].z <= d.2),
{
    if vs.len() > 0 {
        lemma_farthest_index(vs, vs.len());
        let far = farthest_index(vs, vs.len());
        assert forall|j: int| 0 <= j < vs.len()
            && (forall|k: int| 0 <= k < vs.len() ==> length2(#[trigger] vs[k]) <= length2(vs[j]))
            && (forall|k: int| j < k < vs.len() ==> length2(#[trigger] vs[k]) < length2(vs[j]))
            implies (farthest_within(vs, d) <==> (#[trigger] vs[j]).x <= d.0 && vs[j].y <= d.1 && vs[j].z <= d.2) by {
            if j < far {
                assert(length2(vs[far]) < length2(vs[j]));
                assert(length2(vs[far]) <= length2(vs[j]) && length2(vs[j]) <= length2(vs[far]));
            } else if j > far {
                assert(length2(vs[j]) < length2(vs[far]));
                assert(length2(vs[far]) <= length2(vs[j]));
            }
        }
    }
}

pub proof fn lemma_last_writer(size: UVec3, vs: Seq<XYZIVoxel>, n: nat, c: int)
    requires
        n <= vs.len(),
    ensures
        last_writer(size, vs, n, c) matches Some(j) ==> 0 <= j < n && grid_index(size, vs[j]) == c
            && forall|m: int| j < m < n ==> grid_index(size, #[trigger] vs[m]) != c,
        last_writer(size, vs, n, c) is None ==> forall|m: int| 0 <= m < n ==> grid_index(size, #[trigger] vs[m]) != c,
    decreases n,
{
    if n > 0 {
        lemma_last_writer(size, vs, (n - 1) as nat, c);
    }
}

/// The grid of palette indices holds, at each voxel's cell, that voxel's index unless a
/// later voxel lands on the same cell; a cell on which no voxel lands holds 0.
pub proof fn lemma_palette_grid_cells(size: UVec3, vs: Seq<XYZIVoxel>)
    ensures
        palette_grid(size, vs).len() == size.x * size.y * size.z,
        forall|j: int| 0 <= j < vs.len() && 0 <= grid_index(size, vs[j]) < size.x * size.y * size.z
            && (forall|m: int| j < m < vs.len() ==> grid_index(size, #[trigger] vs[m]) != grid_index(size, vs[j]))
            ==> palette_grid(size, vs)[grid_index(size, #[trigger] vs[j])] == vs[j].i,
        forall|c: int| 0 <= c < size.x * size.y * size.z
            && (forall|m: int| 0 <= m < vs.len() ==> grid_index(size, #[trigger] vs[m]) != c)
            ==> #[trigger] palette_grid(size, vs)[c] == 0,
{
    assert(0 <= size.x * size.y * size.z) by (nonlinear_arith);
    assert forall|j: int| 0 <= j < vs.len() && 0 <= grid_index(size, vs[j]) < size.x * size.y * size.z
        && (forall|m: int| j < m < vs.len() ==> grid_index(size, #[trigger] vs[m]) != grid_index(size, vs[j]))
        implies palette_grid(size, vs)[grid_index(size, #[trigger] vs[j])] == vs[j].i by {
        let c = grid_index(size, vs[j]);
        lemma_last_writer(size, vs, vs.len(), c);
        match last_writer(size, vs, vs.len(), c) {
            Some(w) => {
                if w < j {
                    assert(grid_index(size, vs[j]) != c);
                } else if w > j {
                    assert(grid_index(size, vs[w]) != c);
                }
            },
            None => {
                assert(grid_index(size, vs[j]) != c);
            },
        }
    }
    assert forall|c: int| 0 <= c < size.x * size.y * size.z
        && (forall|m: int| 0 <= m < vs.len() ==> grid_index(size, #[trigger] vs[m]) != c)
        implies #[trigger] palette_grid(size, vs)[c] == 0 by {
        lemma_last_writer(size, vs, vs.len(), c);
    }
}

/// Every voxel lands in the grid.
pub open spec fn voxels_fit(size: UVec3, vs: Seq<XYZIVoxel>) -> bool {
    forall|k: int| 0 <= k < vs.len() ==> voxel_fits(size, #[trigger] vs[k])
}

/// A voxel lands in the grid when its z (the file's up axis) is below the height and
/// its place in the flat grid is below the grid's size. A voxel past the width lands
/// in a later row, where the layout puts it.
pub open spec fn voxel_fits(size: UVec3, v: XYZIVoxel) -> bool {
    (v.z as int) < size.y && grid_index(size, v) < size.x * size.y * size.z
}

/// The grid is small enough to be laid out in memory, `bytes_per_voxel` bytes a voxel.
pub open spec fn grid_fits(size: UVec3, bytes_per_voxel: int) -> bool {
    &&& size.x * size.y <= usize::MAX
    &&& size.x * size.y * size.z <= usize::MAX
    &&& bytes_per_voxel * (size.x * size.y * size.z) <= usize::MAX
}

/// Where a voxel goes in the grid: file coordinates (x, y, z) become (x, height - 1 - z, y).
pub open spec fn grid_index(size: UVec3, v: XYZIVoxel) -> int {
    voxel_index(size, v.x as int, size.y - v.z - 1, v.y as int)
}

/// The last of the first `n` voxels that lands on grid cell `k`.
pub open spec fn last_writer(size: UVec3, vs: Seq<XYZIVoxel>, n: nat, k: int) -> Option<int>
    decreases n,
{
    if n == 0 {
        None
    } else if grid_index(size, vs[n - 1]) == k {
        Some(n - 1)
    } else {
        last_writer(size, vs, (n - 1) as nat, k)
    }
}

/// The grid of palette indices after the first `n` voxels are written in order (0 where none lands).
pub open spec fn palette_grid_upto(size: UVec3, vs: Seq<XYZIVoxel>, n: nat) -> Seq<u8> {
    Seq::new((size.x * size.y * size.z) as nat, |k: int| match last_writer(size, vs, n, k) {
        Some(j) => vs[j].i,
        None => 0u8,
    })
}

pub open spec fn palette_grid(size: UVec3, vs: Seq<XYZIVoxel>) -> Seq<u8> {
    palette_grid_upto(size, vs, vs.len())
}

/// Byte `j` of a color written red, green, blue, alpha from its high byte down.
pub open spec fn color_byte(c: u32, j: int) -> u8 {
    if j == 0 {
        ((c & 0xFF00_0000) >> 24) as u8
    } else if j == 1 {
        ((c & 0x00FF_0000) >> 16) as u8
    } else if j == 2 {
        ((c & 0xFF00) >> 8) as u8
    } else {
        (c & 0xFF) as u8
    }
}

/// The grid of colors, four bytes a voxel, after the first `n` voxels are written.
pub open spec fn rgba_grid_upto(size: UVec3, vs: Seq<XYZIVoxel>, palette: Seq<u32>, n: nat) -> Seq<u8> {
    Seq::new((4 * (size.x * size.y * size.z)) as nat, |b: int| match last_writer(size, vs, n, b / 4) {
        Some(j) => color_byte(palette[vs[j].i as int], b % 4),
        None => 0u8,
    })
}

pub open spec fn rgba_grid(size: UVec3, vs: Seq<XYZIVoxel>, palette: Seq<u32>) -> Seq<u8> {
    rgba_grid_upto(size, vs, palette, vs.len())
}

/// The color grid lays the voxels out as the grid of palette indices does: where a
/// voxel lands, the four bytes of cell `k` are the color of the index at `k`; where
/// none lands, they are 0.
pub proof fn lemma_rgba_grid_colors_indices(size: UVec3, vs: Seq<XYZIVoxel>, palette: Seq<u32>)
    ensures
        rgba_grid(size, vs, palette).len() == 4 * palette_grid(size, vs).len(),
        forall|k: int, j: int| 0 <= k < palette_grid(size, vs).len() && 0 <= j < 4 ==>
            #[trigger] rgba_grid(size, vs, palette)[4 * k + j] == if last_writer(size, vs, vs.len(), k) is Some {
                color_byte(palette[palette_grid(size, vs)[k] as int], j)
            } else {
                0u8
            },
{
    assert forall|k: int, j: int| 0 <= k < palette_grid(size, vs).len() && 0 <= j < 4 implies
        #[trigger] rgba_grid(size, vs, palette)[4 * k + j] == if last_writer(size, vs, vs.len(), k) is Some {
            color_byte(palette[palette_grid(size, vs)[k] as int], j)
        } else {
            0u8
        } by {
        assert((4 * k + j) / 4 == k && (4 * k + j) % 4 == j);
    }
}

/// Once the voxels are consumed, the grids hold nothing: every palette index and every
/// color byte is 0.
pub proof fn lemma_grids_of_no_voxels(size: UVec3, palette: Seq<u32>)
    ensures
        forall|k: int| 0 <= k < palette_grid(size, Seq::<XYZIVoxel>::empty()).len() ==>
            #[trigger] palette_grid(size, Seq::<XYZIVoxel>::empty())[k] == 0,
        forall|b: int| 0 <= b < rgba_grid(size, Seq::<XYZIVoxel>::empty(), palette).len() ==>
            #[trigger] rgba_grid(size, Seq::<XYZIVoxel>::empty(), palette)[b] == 0,
{
}

pub proof fn lemma_grid_index_bound(size: UVec3, v: XYZIVoxel)
    requires
        voxel_fits(size, v),
    ensures
        0 <= (v.y as int) * size.x <= (v.y as int) * size.x * size.y,
        0 <= (size.y - v.z - 1) * size.x,
        0 <= grid_index(size, v) < size.x * size.y * size.z,
{
    let sx = size.x as int;
    let sy = size.y as int;
    let vy = v.y as int;
    let h = sy - v.z - 1;
    assert(0 <= vy * sx && 0 <= h * sx && 0 <= vy * sx * sy) by (nonlinear_arith)
        requires sx >= 0, sy >= 0, vy >= 0, h >= 0;
    assert(vy * sx <= vy * sx * sy) by (nonlinear_arith)
        requires sx >= 0, sy >= 1, vy >= 0;
}

impl XYZIVoxelData {
    /// Where a voxel goes in the grid: (x, height - 1 - z, y).
    fn to_ndc(size: &UVec3, voxel: &XYZIVoxel) -> (r: (usize, usize, usize))
        requires
            (voxel.z as int) < size.y,
        ensures
            r == (voxel.x as usize, (size.y - voxel.z - 1) as usize, voxel.y as usize),
    {
        let y_size = size.y as usize;
        let (x, y, z) = (voxel.x as usize, voxel.y as usize, voxel.z as usize);
        let (y, z) = (y_size - z - 1, y);
        (x, y, z)
    }

    /// The grid of palette indices, x fastest, then y, then z (0 where no voxel lands;
    /// a later voxel overwrites an earlier one). The voxels are consumed.
    pub fn as_palette_indices(&mut self) -> (r: Vec<u8>)
        requires
            voxels_fit(old(self).size_spec(), old(self).data_spec()),
            grid_fits(old(self).size_spec(), 1),
        ensures
            r@ == palette_grid(old(self).size_spec(), old(self).data_spec()),
            final(self).size_spec() == old(self).size_spec(),
            final(self).palette_spec() == old(self).palette_spec(),
            final(self).data_spec() == Seq::<XYZIVoxel>::empty(),
    {
        let ghost size = self.size;
        let ghost vs = self.data@;
        let x_size = self.size.x as usize;
        let y_size = self.size.y as usize;
        let z_size = self.size.z as usize;
        proof {
            assert(0 <= x_size * y_size <= x_size * y_size * z_size || z_size == 0) by (nonlinear_arith)
                requires x_size >= 0, y_size >= 0, z_size >= 0;
            if z_size == 0 {
                assert(x_size * y_size * z_size == 0) by (nonlinear_arith) requires z_size == 0;
            }
            if z_size > 0 {
                assert(x_size * y_size <= x_size * y_size * z_size) by (nonlinear_arith)
                    requires z_size >= 1, x_size >= 0, y_size >= 0;
            }
        }
        let number_of_voxels = x_size * y_size * z_size;
        let mut bytes: Vec<u8> = vec![0u8; number_of_voxels];
        let mut k: usize = 0;
        assert(bytes@ =~= palette_grid_upto(size, vs, 0));
        while k < self.data.len()
            invariant
                k <= vs.len(),
                self.data@ == vs,
                self.size == size,
                x_size == size.x && y_size == size.y && z_size == size.z,
                number_of_voxels == size.x * size.y * size.z,
                voxels_fit(size, vs),
                bytes@ == palette_grid_upto(size, vs, k as nat),
            decreases vs.len() - k,
        {
            let voxel = self.data[k];
            assert(voxel_fits(size, vs[k as int]));
            let (x, y, z) = Self::to_ndc(&self.size, &voxel);
            proof {
                lemma_grid_index_bound(size, voxel);
            }
            let index = z * x_size * y_size + y * x_size + x;
            assert(index == grid_index(size, voxel));
            bytes.set(index, voxel.i);
            k = k + 1;
            assert(bytes@ =~= palette_grid_upto(size, vs, k as nat));
        }
        self.data = Vec::new();
        bytes
    }

    /// The grid of colors, four bytes (red, green, blue, alpha) a voxel, x fastest, then
    /// y, then z (0 where no voxel lands; a later voxel overwrites an earlier one). The
    /// voxels are consumed.
    pub fn as_rgba_bytes(&mut self) -> (r: Vec<u8>)
        requires
            voxels_fit(old(self).size_spec(), old(self).data_spec()),
            grid_fits(old(self).size_spec(), 4),
        ensures
            r@ == rgba_grid(old(self).size_spec(), old(self).data_spec(), old(self).palette_spec()),
            final(self).size_spec() == old(self).size_spec(),
            final(self).palette_spec() == old(self).palette_spec(),
            final(self).data_spec() == Seq::<XYZIVoxel>::empty(),
    {
        let ghost size = self.size;
        let ghost vs = self.data@;
        let ghost pal = self.color_palette@;
        let bytes_per_voxel: usize = 4;
        let x_size = self.size.x as usize;
        let y_size = self.size.y as usize;
        let z_size = self.size.z as usize;
        proof {
            if z_size > 0 {
                assert(x_size * y_size <= x_size * y_size * z_size) by (nonlinear_arith)
                    requires z_size >= 1, x_size >= 0, y_size >= 0;
            } else {
                assert(x_size * y_size * z_size == 0) by (nonlinear_arith) requires z_size == 0;
            }
            assert(0 <= x_size * y_size) by (nonlinear_arith) requires x_size >= 0, y_size >= 0;
        }
        let number_of_voxels = x_size * y_size * z_size;
        let mut bytes: Vec<u8> = vec![0u8; bytes_per_voxel * number_of_voxels];
        let mut k: usize = 0;
        assert(bytes@ =~= rgba_grid_upto(size, vs, pal, 0));
        while k < self.data.len()
            invariant
                k <= vs.len(),
                self.data@ == vs,
                self.size == size,
                self.color_palette@ == pal,
                bytes_per_voxel == 4,
                x_size == size.x && y_size == size.y && z_size == size.z,
                number_of_voxels == size.x * size.y * size.z,
                4 * number_of_voxels <= usize::MAX,
                voxels_fit(size, vs),
                bytes@ == rgba_grid_upto(size, vs, pal, k as nat),
            decreases vs.len() - k,
        {
            let voxel = self.data[k];
            assert(voxel_fits(size, vs[k as int]));
            let (x, y, z) = Self::to_ndc(&self.size, &voxel);
            proof {
                lemma_grid_index_bound(size, voxel);
                assert(z * x_size * y_size * 4 == 4 * (z * x_size * y_size)) by (nonlinear_arith);
                assert(y * x_size * 4 == 4 * (y * x_size)) by (nonlinear_arith);
            }
            let start_index = z * x_size * y_size * bytes_per_voxel
                + y * x_size * bytes_per_voxel
                + x * bytes_per_voxel;
            assert(start_index == 4 * grid_index(size, voxel));
            let color = self.color_palette[voxel.i as usize];
            bytes.set(start_index, ((color & 0xFF00_0000) >> 24) as u8);
            bytes.set(start_index + 1, ((color & 0x00FF_0000) >> 16) as u8);
            bytes.set(start_index + 2, ((color & 0xFF00) >> 8) as u8);
            bytes.set(start_index + 3, (color & 0xFF) as u8);
            k = k + 1;
            assert(bytes@ =~= rgba_grid_upto(size, vs, pal, k as nat));
        }
        self.data = Vec::new();
        bytes
    }

    /// Whether every voxel lands in the grid (`voxels_fit`).
    pub fn voxels_fit_grid(&self) -> (r: bool)
        ensures
            r == voxels_fit(self.size_spec(), self.data_spec()),
    {
        let sx = self.size.x as u128;
        let sy = self.size.y as u128;
        let sz = self.size.z as u128;
        proof {
            assert(sx * sy <= 0xFFFF_FFFF * 0xFFFF_FFFF) by (nonlinear_arith)
                requires sx <= 0xFFFF_FFFF, sy <= 0xFFFF_FFFF;
            assert(sx * sy * sz <= 0xFFFF_FFFF * 0xFFFF_FFFF * 0xFFFF_FFFF) by (nonlinear_arith)
                requires sx <= 0xFFFF_FFFF, sy <= 0xFFFF_FFFF, sz <= 0xFFFF_FFFF;
            assert(0 <= sx * sy) by (nonlinear_arith) requires sx >= 0, sy >= 0;
        }
        let volume = sx * sy * sz;
        let mut k: usize = 0;
        while k < self.data.len()
            invariant
                k <= self.data@.len(),
                sx == self.size.x && sy == self.size.y && sz == self.size.z,
                volume == self.size.x * self.size.y * self.size.z,
                sx * sy <= 0xFFFF_FFFF * 0xFFFF_FFFF,
                0 <= sx * sy,
                forall|j: int| 0 <= j < k ==> voxel_fits(self.size, #[trigger] self.data@[j]),
            decreases self.data@.len() - k,
        {
            let v = &self.data[k];
            let vz = v.z as u128;
            if vz >= sy {
                assert(!voxel_fits(self.size, self.data@[k as int]));
                return false;
            }
            let h = sy - vz - 1;
            let vy = v.y as u128;
            proof {
                assert(h * sx <= 0xFFFF_FFFF * 0xFFFF_FFFF) by (nonlinear_arith)
                    requires h <= 0xFFFF_FFFF, sx <= 0xFFFF_FFFF;
                assert(vy * (sx * sy) <= 255 * (0xFFFF_FFFF * 0xFFFF_FFFF)) by (nonlinear_arith)
                    requires vy <= 255, 0 <= sx * sy <= 0xFFFF_FFFF * 0xFFFF_FFFF;
                assert(0 <= h * sx && 0 <= vy * (sx * sy)) by (nonlinear_arith)
                    requires h >= 0, sx >= 0, vy >= 0, sx * sy >= 0;
                assert(vy * (sx * sy) == (v.y as int) * self.size.x * self.size.y) by (nonlinear_arith)
                    requires vy == v.y, sx == self.size.x, sy == self.size.y;
            }
            let index = (v.x as u128) + h * sx + vy * (sx * sy);
            assert(index == grid_index(self.size, self.data@[k as int]));
            if index >= volume {
                assert(!voxel_fits(self.size, self.data@[k as int]));
                return false;
            }
            k = k + 1;
        }
        true
    }

    /// Whether the grid, `bytes_per_voxel` bytes a voxel, can be laid out in memory (`grid_fits`).
    pub fn grid_fits_memory(&self, bytes_per_voxel: u8) -> (r: bool)
        ensures
            r == grid_fits(self.size_spec(), bytes_per_voxel as int),
    {
        let x = self.size.x as u128;
        let y = self.size.y as u128;
        let z = self.size.z as u128;
        let b = bytes_per_voxel as u128;
        proof {
            assert(x * y <= 0xFFFF_FFFF * 0xFFFF_FFFF) by (nonlinear_arith)
                requires x <= 0xFFFF_FFFF, y <= 0xFFFF_FFFF;
            assert(x * y * z <= 0xFFFF_FFFF * 0xFFFF_FFFF * 0xFFFF_FFFF) by (nonlinear_arith)
                requires x <= 0xFFFF_FFFF, y <= 0xFFFF_FFFF, z <= 0xFFFF_FFFF;
        }
        let xy = x * y;
        let xyz = xy * z;
        let max = usize::MAX as u128;
        assert(max <= 0xFFFF_FFFF_FFFF_FFFF);
        if xy > max || xyz > max {
            return false;
        }
        proof {
            assert(b * xyz <= 255 * 0xFFFF_FFFF_FFFF_FFFF) by (nonlinear_arith)
                requires b <= 255, xyz <= 0xFFFF_FFFF_FFFF_FFFF;
        }
        b * xyz <= max
    }

    pub closed spec fn size_spec(self) -> UVec3 {
        self.size
    }

    pub closed spec fn data_spec(self) -> Seq<XYZIVoxel> {
        self.data@
    }

    pub closed spec fn palette_spec(self) -> Seq<u32> {
        self.color_palette@
    }

    /// The voxel data of a file: the first `SIZE` and the first `XYZI` child of the main
    /// chunk, and its first `RGBA` child if there is one. The size is given as
    /// (x, z, y) of the file, since the file's z axis points up.
    pub fn from_vox_file(file: VoxFile) -> (r: Result<Self, VoxelDataError>)
        ensures
            ({
                let main = file.main_chunk_spec();
                match find_child_spec(main, size_tag()) {
                    None => r matches Err(VoxelDataError::ChunkNotFound(s)) && s@ == "SIZE"@,
                    Some(sc) => match size_from_chunk(sc) {
                        Err(e) => r matches Err(VoxelDataError::TransformChunkError(s)) && s@ == error_text(e),
                        Ok(d) => match find_child_spec(main, xyzi_tag()) {
                            None => r matches Err(VoxelDataError::ChunkNotFound(s)) && s@ == "XYZI"@,
                            Some(xc) => match xyzi_from_chunk(xc) {
                                Err(e) => r matches Err(VoxelDataError::TransformChunkError(s)) && s@ == error_text(e),
                                Ok(vs) => if !farthest_within(vs, d) {
                                    r matches Err(VoxelDataError::VoxelOutOfBounds)
                                } else {
                                    match find_child_spec(main, rgba_tag()) {
                                        Some(pc) => match rgba_from_chunk(pc) {
                                            Err(e) => r matches Err(VoxelDataError::TransformChunkError(s)) && s@ == error_text(e),
                                            Ok(p) => r matches Ok(m) && m.size_spec() == (UVec3 { x: d.0, y: d.2, z: d.1 })
                                                && m.data_spec() == vs && m.palette_spec() == model_palette(p, vs),
                                        },
                                        None => r matches Ok(m) && m.size_spec() == (UVec3 { x: d.0, y: d.2, z: d.1 })
                                            && m.data_spec() == vs && m.palette_spec() == model_palette(DEFAULT_PALETTE@, vs),
                                    }
                                },
                            },
                        },
                    },
                }
            }),
    {
        let main_chunk = file.main_chunk();
        let size_child = match main_chunk.find_child("SIZE") {
            Some(c) => c,
            None => {
                proof { reveal_strlit("SIZE"); assert("SIZE"@ =~= size_tag()); }
                return Err(VoxelDataError::ChunkNotFound("SIZE".to_owned()));
            },
        };
        proof { reveal_strlit("SIZE"); assert("SIZE"@ =~= size_tag()); }
        let size_chunk = match SizeChunk::try_from_chunk(size_child) {
            Ok(s) => s,
            Err(e) => {
                return Err(VoxelDataError::TransformChunkError(error_string(e)));
            },
        };
        let xyzi_child = match main_chunk.find_child("XYZI") {
            Some(c) => c,
            None => {
                proof { reveal_strlit("XYZI"); assert("XYZI"@ =~= xyzi_tag()); }
                return Err(VoxelDataError::ChunkNotFound("XYZI".to_owned()));
            },
        };
        proof { reveal_strlit("XYZI"); assert("XYZI"@ =~= xyzi_tag()); }
        let xyzi_chunk = match XYZIChunk::try_from_chunk(xyzi_child) {
            Ok(s) => s,
            Err(e) => {
                return Err(VoxelDataError::TransformChunkError(error_string(e)));
            },
        };
        let voxels = xyzi_chunk.voxels();
        let ghost vs = voxels@;
        let n = voxels.len();
        // the farthest voxel (the last of equals) and the lowest (the first of equals)
        let mut far: usize = 0;
        let mut low: usize = 0;
        let mut k: usize = 1;
        while k < n
            invariant
                n == vs.len(),
                vs == voxels@,
                1 <= k <= n || n == 0,
                far == farthest_index(vs, k as nat),
                low == lowest_index(vs, k as nat),
                far < k,
                low < k,
            decreases n - k,
        {
            proof {
                lemma_length2_bound(vs[k as int]);
                lemma_length2_bound(vs[far as int]);
            }
            let a = voxels[k].xyz().length_squared();
            let b = voxels[far].xyz().length_squared();
            if a >= b {
                far = k;
            }
            if voxels[k].y < voxels[low].y {
                low = k;
            }
            k = k + 1;
        }
        if n > 0 {
            let v = &voxels[far];
            if (v.x as u32) > size_chunk.x() || (v.y as u32) > size_chunk.y() || (v.z as u32) > size_chunk.z() {
                return Err(VoxelDataError::VoxelOutOfBounds);
            }
        }
        let mut color_palette = match main_chunk.find_child("RGBA") {
            Some(rgba_child) => {
                proof { reveal_strlit("RGBA"); assert("RGBA"@ =~= rgba_tag()); }
                match RGBAChunk::try_from_chunk(rgba_child) {
                    Ok(c) => c.get_palette(),
                    Err(e) => {
                        return Err(VoxelDataError::TransformChunkError(error_string(e)));
                    },
                }
            },
            None => {
                proof { reveal_strlit("RGBA"); assert("RGBA"@ =~= rgba_tag()); }
                DEFAULT_PALETTE
            },
        };
        let ghost base = color_palette@;
        if n > 0 {
            let i = voxels[low].i as usize;
            color_palette[0] = color_palette[i];
        } else {
            color_palette[0] = 0xb2c553ff;
        }
        assert(color_palette@ =~= model_palette(base, vs));
        let size = UVec3 { x: size_chunk.x(), y: size_chunk.z(), z: size_chunk.y() };
        Ok(XYZIVoxelData { size, data: xyzi_chunk.get_voxels(), color_palette })
    }

    pub fn size(&self) -> (r: &UVec3)
        ensures
            *r == self.size_spec(),
    {
        &self.size
    }

    pub fn color_palette(self) -> (r: [u32; 256])
        ensures
            r@ == self.palette_spec(),
    {
        self.color_palette
    }
}

} // verus!
