use voxel_engine::model_data::ModelData;
use voxel_engine::svt::Svt;
use voxel_engine::vec3::UVec3;
use voxel_engine::voxel_data::XYZIVoxelData;
use voxel_engine::voxel_loader::{VoxFile, DEFAULT_PALETTE};

fn chunk(tag: &[u8], content: &[u8], children: &[u8]) -> Vec<u8> {
    let mut bytes = tag.to_vec();
    bytes.extend_from_slice(&(content.len() as u32).to_le_bytes());
    bytes.extend_from_slice(&(children.len() as u32).to_le_bytes());
    bytes.extend_from_slice(content);
    bytes.extend_from_slice(children);
    bytes
}

fn voxel_data(size: [u32; 3], voxels: &[[u8; 4]]) -> XYZIVoxelData {
    let mut size_content = Vec::new();
    for v in size {
        size_content.extend_from_slice(&v.to_le_bytes());
    }
    let mut xyzi = (voxels.len() as u32).to_le_bytes().to_vec();
    for v in voxels {
        xyzi.extend_from_slice(v);
    }
    let mut children = chunk(b"SIZE", &size_content, &[]);
    children.extend(chunk(b"XYZI", &xyzi, &[]));
    let mut bytes = b"VOX ".to_vec();
    bytes.extend_from_slice(&150u32.to_le_bytes());
    bytes.extend(chunk(b"MAIN", &[], &children));
    let file = VoxFile::parse_vox_bytes(&bytes).unwrap().unwrap();
    XYZIVoxelData::from_vox_file(file).unwrap()
}

#[test]
fn sample_model_is_one_leaf_of_the_default_palette() {
    let model = ModelData::sample_model();
    assert_eq!(model.nodes.len(), 1);
    assert!(model.nodes[0].is_leaf());
    assert_eq!(model.leaf_data, vec![1; 32]);
    assert_eq!(model.model_scale, 1);
    assert_eq!(model.floor_position, 4);
    assert_eq!(model.color_palette, DEFAULT_PALETTE);
}

#[test]
fn model_of_a_file_keeps_its_tree_palette_and_height() {
    let voxels = [[0, 0, 0, 9], [15, 15, 15, 9], [3, 4, 5, 2]];
    let model = ModelData::new_from_vox_data(voxel_data([16, 16, 16], &voxels));
    let mut data = voxel_data([16, 16, 16], &voxels);
    let palette = {
        let tree = Svt::from_voxel_data(&mut data);
        assert_eq!(model.leaf_data, tree.leaf_data);
        assert_eq!(model.model_scale, tree.scale);
        assert_eq!(model.nodes.len(), tree.node_pool.len());
        data.color_palette()
    };
    assert_eq!(model.color_palette, palette);
    assert_eq!(model.floor_position, 16);
}

#[test]
fn the_floor_is_capped_at_255() {
    // the file's z axis is the height
    let model = ModelData::try_new_from_vox_data(voxel_data([2, 2, 300], &[[1, 1, 255, 7]])).unwrap();
    assert_eq!(model.floor_position, 255);
    let model = ModelData::try_new_from_vox_data(voxel_data([2, 2, 254], &[[1, 1, 0, 7]])).unwrap();
    assert_eq!(model.floor_position, 254);
}

#[test]
fn models_without_a_tree_are_refused() {
    // voxels on the edge of the size are accepted by the file but lie off the grid
    assert!(ModelData::try_new_from_vox_data(voxel_data([2, 2, 2], &[[2, 2, 0, 1]])).is_none());
    assert!(ModelData::try_new_from_vox_data(voxel_data([2, 2, 2], &[[0, 0, 2, 1]])).is_none());
    // a single voxel is no tree
    assert!(ModelData::try_new_from_vox_data(voxel_data([1, 1, 1], &[[0, 0, 0, 1]])).is_none());
    let model = ModelData::try_new_from_vox_data(voxel_data([2, 2, 2], &[[1, 0, 0, 1]])).unwrap();
    assert_eq!(model.leaf_data, vec![1]);
    assert_eq!(model.floor_position, 2);
}

#[test]
fn new_moves_the_tree_parts() {
    let tree = Svt::build_tree(&UVec3 { x: 2, y: 1, z: 1 }, &[0, 5]);
    let model = ModelData::new(tree, [7; 256], 3);
    assert_eq!(model.leaf_data, vec![5]);
    assert_eq!(model.nodes.len(), 1);
    assert_eq!(model.nodes[0].child_mask(), 0b10);
    assert_eq!(model.color_palette, [7; 256]);
    assert_eq!(model.floor_position, 3);
}
