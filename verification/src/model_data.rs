//! What the renderer uploads for a model: the tree's nodes and leaf bytes, the color
//! palette, the tree's scale and the height of the model's floor.
use vstd::prelude::*;
use crate::vec3::UVec3;
use crate::svt::{Svt, SvtNode, build_defined, tree_spec};
use crate::svt_model::scale_of;
use crate::bits::{digits4, lemma_pow4_values};
use crate::voxel_data::{XYZIVoxelData, voxels_fit, grid_fits, palette_grid};
use crate::voxel_loader::DEFAULT_PALETTE;

verus! {

pub struct ModelData {
    pub nodes: Vec<SvtNode>,
    pub leaf_data: Vec<u8>,
    pub color_palette: [u32; 256],
    pub model_scale: u8,
    pub floor_position: u8,
}

/// The floor of a model of `size`: its height, capped at 255.
pub open spec fn floor_of(size: UVec3) -> u8 {
    if size.y < 255 { size.y as u8 } else { 255u8 }
}

/// What the tree of `size` and `data` holds, and the palette and floor handed with it.
pub open spec fn holds_tree(m: ModelData, size: UVec3, data: Seq<u8>, palette: Seq<u32>, floor: u8) -> bool {
    let b = tree_spec(size, data);
    &&& m.nodes@ == seq![b.1] + b.2
    &&& m.leaf_data@ == b.3
    &&& m.model_scale == scale_of(size)
    &&& m.color_palette@ == palette
    &&& m.floor_position == floor
}

/// Whether the tree of a model's voxels can be built: the voxels fit a grid that fits
/// in memory, and the tree of that grid is defined.
pub open spec fn tree_buildable(d: XYZIVoxelData) -> bool {
    let size = d.size_spec();
    let grid = palette_grid(size, d.data_spec());
    &&& voxels_fit(size, d.data_spec())
    &&& grid_fits(size, 1)
    &&& build_defined(size, grid.len() as int)
    &&& tree_spec(size, grid).0
}

/// The 4x4x4 model that stands in when no file is loaded; it looks a bit like a sphere.
pub open spec fn sample_voxels() -> Seq<u8> {
    seq![
        0u8, 0, 0, 0, 0, 1, 1, 0, 0, 1, 1, 0, 0, 0, 0, 0,
        0, 1, 1, 0, 1, 1, 1, 1, 1, 1, 1, 1, 0, 1, 1, 0,
        0, 1, 1, 0, 1, 1, 1, 1, 1, 1, 1, 1, 0, 1, 1, 0,
        0, 0, 0, 0, 0, 1, 1, 0, 0, 1, 1, 0, 0, 0, 0, 0,
    ]
}

impl ModelData {
    /// The parts of a tree, with the palette and the floor height to draw it with.
    pub fn new(svt: Svt, color_palette: [u32; 256], floor_position: u8) -> (r: ModelData)
        ensures
            r.nodes@ == svt.node_pool@,
            r.leaf_data@ == svt.leaf_data@,
            r.model_scale == svt.scale,
            r.color_palette@ == color_palette@,
            r.floor_position == floor_position,
    {
        ModelData {
            nodes: svt.node_pool,
            leaf_data: svt.leaf_data,
            color_palette,
            model_scale: svt.scale,
            floor_position,
        }
    }

    /// The tree of a model's palette indices, its palette, and its height (capped at 255)
    /// as the floor.
    pub fn new_from_vox_data(voxel_data: XYZIVoxelData) -> (r: ModelData)
        requires
            tree_buildable(voxel_data),
        ensures
            holds_tree(r, voxel_data.size_spec(), palette_grid(voxel_data.size_spec(), voxel_data.data_spec()),
                voxel_data.palette_spec(), floor_of(voxel_data.size_spec())),
    {
        let mut voxel_data = voxel_data;
        let svt = Svt::from_voxel_data(&mut voxel_data);
        let y = voxel_data.size().y;
        let height: u8 = if y < 255 { y as u8 } else { 255 };
        let color_palette = voxel_data.color_palette();
        Self::new(svt, color_palette, height)
    }

    /// `new_from_vox_data` where the tree can be built, `None` elsewhere.
    pub fn try_new_from_vox_data(voxel_data: XYZIVoxelData) -> (r: Option<ModelData>)
        ensures
            r is Some <==> tree_buildable(voxel_data),
            r matches Some(m) ==> holds_tree(m, voxel_data.size_spec(),
                palette_grid(voxel_data.size_spec(), voxel_data.data_spec()),
                voxel_data.palette_spec(), floor_of(voxel_data.size_spec())),
    {
        let mut voxel_data = voxel_data;
        match Svt::try_from_voxel_data(&mut voxel_data) {
            Some(svt) => {
                let y = voxel_data.size().y;
                let height: u8 = if y < 255 { y as u8 } else { 255 };
                let color_palette = voxel_data.color_palette();
                Some(Self::new(svt, color_palette, height))
            },
            None => None,
        }
    }

    /// The sample model with the default palette; its floor is its height, 4.
    pub fn sample_model() -> (r: ModelData)
        ensures
            holds_tree(r, UVec3 { x: 4, y: 4, z: 4 }, sample_voxels(), DEFAULT_PALETTE@, 4),
    {
        let voxels: [u8; 64] = [
            0, 0, 0, 0, 0, 1, 1, 0, 0, 1, 1, 0, 0, 0, 0, 0,
            0, 1, 1, 0, 1, 1, 1, 1, 1, 1, 1, 1, 0, 1, 1, 0,
            0, 1, 1, 0, 1, 1, 1, 1, 1, 1, 1, 1, 0, 1, 1, 0,
            0, 0, 0, 0, 0, 1, 1, 0, 0, 1, 1, 0, 0, 0, 0, 0,
        ];
        let size = UVec3 { x: 4, y: 4, z: 4 };
        proof {
            assert(voxels@ =~= sample_voxels());
            lemma_pow4_values();
            assert(digits4(0) == 0);
            assert(digits4(3) == 1);
            assert(scale_of(size) == 1);
        }
        let svt = Svt::build_tree(&size, voxels.as_slice());
        Self::new(svt, DEFAULT_PALETTE, 4)
    }
}

} // verus!
