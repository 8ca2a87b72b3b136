use voxel_engine::svt::{Svt, SvtNode};
use voxel_engine::vec3::UVec3;
use voxel_engine::voxel_data::XYZIVoxelData;
use voxel_engine::voxel_loader::VoxFile;

// its kinda like a sphere
const SAMPLE_VOXEL_DATA: [u8; 64] = [
    0, 0, 0, 0,
    0, 1, 1, 0,
    0, 1, 1, 0,
    0, 0, 0, 0,

    0, 1, 1, 0,
    1, 1, 1, 1,
    1, 1, 1, 1,
    0, 1, 1, 0,

    0, 1, 1, 0,
    1, 1, 1, 1,
    1, 1, 1, 1,
    0, 1, 1, 0,

    0, 0, 0, 0,
    0, 1, 1, 0,
    0, 1, 1, 0,
    0, 0, 0, 0,
];

const SAMPLE_SIZE: UVec3 = UVec3 { x: 4, y: 4, z: 4 };

#[test]
fn test_child_mask() {
    let mut brick = [0; 64];
    brick[0] = 1;
    brick[3] = 255;

    let mask = Svt::child_mask(&brick);

    assert_eq!(mask, 0b1001);
}

#[test]
fn test_pack_brick_rightly() {
    let mut brick = [0; 64];
    brick[3] = 1;
    brick[5] = 144;
    brick[6] = 3;

    let mask = Svt::child_mask(&brick);

    assert_eq!(mask, 0b1101000);

    Svt::pack_brick_tightly(&mut brick, mask);

    assert_eq!(brick[0], 1);
    assert_eq!(brick[1], 144);
    assert_eq!(brick[2], 3);
}

#[test]
fn test_get_brick_fully_inside() {
    let brick = Svt::get_brick(&SAMPLE_SIZE, &SAMPLE_VOXEL_DATA, &UVec3::zero()).unwrap();

    assert_eq!(brick, SAMPLE_VOXEL_DATA);
}

#[test]
fn test_get_brick_halfway_inside() {
    const EXPECTED: [u8; 64] = [
        0, 1, 1, 0,
        1, 1, 1, 1,
        1, 1, 1, 1,
        0, 1, 1, 0,

        0, 1, 1, 0,
        1, 1, 1, 1,
        1, 1, 1, 1,
        0, 1, 1, 0,

        0, 0, 0, 0,
        0, 1, 1, 0,
        0, 1, 1, 0,
        0, 0, 0, 0,

        0, 0, 0, 0,
        0, 0, 0, 0,
        0, 0, 0, 0,
        0, 0, 0, 0,
    ];

    let sample_position = UVec3::new(0, 0, 1);

    // if we sample at z position 1, it should still return a brick of 64 size but the places that there is no data it should
    // just return 0
    let brick = Svt::get_brick(&SAMPLE_SIZE, &SAMPLE_VOXEL_DATA, &sample_position).unwrap();

    assert_eq!(brick, EXPECTED);
}

#[test]
fn test_get_brick_different_size() {
    const DATA: [u8; 48] = [
        0, 1, 1,
        1, 1, 1,
        1, 1, 1,
        0, 1, 1,

        0, 1, 1,
        1, 1, 1,
        1, 1, 1,
        0, 1, 1,

        0, 0, 0,
        0, 1, 1,
        0, 1, 1,
        0, 0, 0,

        0, 0, 0,
        0, 0, 0,
        0, 0, 0,
        0, 0, 0,
    ];

    const DATA_SIZE: UVec3 = UVec3 { x: 3, y: 4, z: 4 };

    const EXPECTED: [u8; 64] = [
        0, 1, 1, 0,
        1, 1, 1, 0,
        1, 1, 1, 0,
        0, 1, 1, 0,

        0, 1, 1, 0,
        1, 1, 1, 0,
        1, 1, 1, 0,
        0, 1, 1, 0,

        0, 0, 0, 0,
        0, 1, 1, 0,
        0, 1, 1, 0,
        0, 0, 0, 0,

        0, 0, 0, 0,
        0, 0, 0, 0,
        0, 0, 0, 0,
        0, 0, 0, 0,
    ];

    // If we sample and the data is smaller than a 64 block, we should return zeroes for the rest
    let brick = Svt::get_brick(&DATA_SIZE, &DATA, &UVec3::zero()).unwrap();

    assert_eq!(brick, EXPECTED);
}

#[test]
fn test_setting_masks_and_pointers() {
    let mut node = SvtNode::default();

    node.mark_as_leaf();
    assert_eq!(node.is_leaf_and_child_pointer, 1 << 31);

    node.set_child_pointer(33);
    assert_eq!(node.is_leaf_and_child_pointer, (1 << 31) | 33);

    node.mark_child_active(3);
    assert_eq!(node.child_mask_high, 0);
    assert_eq!(node.child_mask_low, 0b1000);

    assert!(node.has_children());
}

#[test]
fn test_build_tree_level1() {
    let tree = Svt::build_tree(&SAMPLE_SIZE, &SAMPLE_VOXEL_DATA);

    // There's only 32 voxels that have some data
    assert_eq!(tree.leaf_data.len(), 32);
    assert_eq!(tree.leaf_data.as_slice(), &[1; 32]);

    // There should only be one node (the root) since it fits in a single 4^3 box.
    assert_eq!(tree.node_pool.len(), 1);

    let root_node = &tree.node_pool[0];

    assert_eq!(root_node.is_leaf(), true);

    // Since there is only one node in this tree and it is a leaf,
    // the leaf data should point to the start of the leaf data vector
    assert_eq!(root_node.child_pointer(), 0);

    const WANTED_MASK: u64 =
        0b0000_0110_0110_0000_0110_1111_1111_0110_0110_1111_1111_0110_0000_0110_0110_0000;
    assert_eq!(root_node.child_mask(), WANTED_MASK);
}

fn chunk_bytes(tag: &[u8; 4], content: &[u8], children: &[u8]) -> Vec<u8> {
    let mut bytes = tag.to_vec();
    bytes.extend_from_slice(&(content.len() as u32).to_le_bytes());
    bytes.extend_from_slice(&(children.len() as u32).to_le_bytes());
    bytes.extend_from_slice(content);
    bytes.extend_from_slice(children);
    bytes
}

/// A 16^3 model with 8 green voxels, one at each corner of the box.
fn green_corner_cube_bytes() -> Vec<u8> {
    let mut size = Vec::new();
    for v in [16u32, 16, 16] {
        size.extend_from_slice(&v.to_le_bytes());
    }
    // palette entry 186 of the default palette is 0x00ff00ff (green)
    let mut xyzi = 8u32.to_le_bytes().to_vec();
    for z in [0u8, 15] {
        for y in [0u8, 15] {
            for x in [0u8, 15] {
                xyzi.extend_from_slice(&[x, y, z, 186]);
            }
        }
    }
    let mut children = chunk_bytes(b"SIZE", &size, &[]);
    children.extend(chunk_bytes(b"XYZI", &xyzi, &[]));
    let mut bytes = b"VOX ".to_vec();
    bytes.extend_from_slice(&150u32.to_le_bytes());
    bytes.extend(chunk_bytes(b"MAIN", &[], &children));
    bytes
}

#[test]
fn test_build_tree_level2() {
    // This model is 16^3 with 8 green voxels at each corner of the box
    let vox_file = VoxFile::parse_vox_bytes(&green_corner_cube_bytes()).unwrap().unwrap();
    let mut voxel_data = XYZIVoxelData::from_vox_file(vox_file).unwrap();
    let tree = Svt::from_voxel_data(&mut voxel_data);
    let color_pallete: [u32; 256] = voxel_data.color_palette();

    // There's 8 voxels in this file
    assert_eq!(tree.leaf_data.len(), 8);
    assert_eq!(color_pallete[tree.leaf_data[0] as usize], 0x00_FF_00_FF);

    // Since the model is 16^3, there should only be two levels
    // and because there are only 8 voxels in level 1, the total number of nodes should be 8 + 1 (top level)
    assert_eq!(tree.node_pool.len(), 9);

    let root_node = &tree.node_pool[0];
    assert!(!root_node.is_leaf());

    // The root's first child should be the first element after the root (aka index 1 since root is index 0)
    assert_eq!(root_node.child_pointer(), 1);

    // Only the corners of the top level node should have active children
    let root_child_mask = root_node.child_mask();
    const ROOT_WANTED_MASK: u64 =
        0b1001_0000_0000_1001_0000_0000_0000_0000_0000_0000_0000_0000_1001_0000_0000_1001;
    assert_eq!(root_child_mask, ROOT_WANTED_MASK);

    let root_child_pointer = root_node.child_pointer();
    for i in 0..64 {
        if root_child_mask >> i & 1 != 1 {
            // No child to see here
            continue;
        }
        let number_of_children_before = (root_child_mask & ((1 << i) - 1)).count_ones() as u32;
        let child_index = root_child_pointer + number_of_children_before;
        let child = &tree.node_pool[child_index as usize];

        // There's only 2 levels, so if you are a child of the root you must be a leaf
        assert!(child.is_leaf());
        assert!(child.has_children());
    }

    const CHILD_WANTED_MASK: u64 =
        0b0000_0000_0000_0000_0000_0000_0000_0000_0000_0000_0000_0000_0000_0000_0000_0001;

    let child = &tree.node_pool[1];
    assert_eq!(child.child_mask(), CHILD_WANTED_MASK);
}
