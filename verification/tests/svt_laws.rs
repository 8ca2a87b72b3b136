use voxel_engine::svt::{Svt, SvtNode};
use voxel_engine::vec3::UVec3;

/// The voxel that a tree gives back at (x, y, z) of the cube spanned by `node`.
fn look_up(tree: &Svt, node: &SvtNode, scale: u32, x: u32, y: u32, z: u32) -> u8 {
    let mask = node.child_mask();
    let ptr = node.child_pointer() as usize;
    if node.is_leaf() {
        let b = x + 4 * y + 16 * z;
        if b < 64 && (mask >> b) & 1 == 1 {
            let rank = (mask & ((1u64 << b) - 1)).count_ones() as usize;
            tree.leaf_data[ptr + rank]
        } else {
            0
        }
    } else if scale <= 1 {
        0
    } else {
        let q = 4u32.pow(scale - 1);
        let c = x / q + 4 * (y / q) + 16 * (z / q);
        if c < 64 && (mask >> c) & 1 == 1 {
            let rank = (mask & ((1u64 << c) - 1)).count_ones() as usize;
            look_up(tree, &tree.node_pool[ptr + rank], scale - 1, x % q, y % q, z % q)
        } else {
            0
        }
    }
}

fn voxel_at(size: &UVec3, data: &[u8], x: u32, y: u32, z: u32) -> u8 {
    if x < size.x && y < size.y && z < size.z {
        data[(x + y * size.x + z * size.x * size.y) as usize]
    } else {
        0
    }
}

/// Builds the tree of a model and checks it point by point against the model.
fn check_tree_gives_back(size: UVec3, data: &[u8]) {
    let tree = Svt::build_tree(&size, data);
    let side = 4u32.pow(tree.scale as u32);
    for z in 0..side {
        for y in 0..side {
            for x in 0..side {
                let got = look_up(&tree, &tree.node_pool[0], tree.scale as u32, x, y, z);
                assert_eq!(got, voxel_at(&size, data, x, y, z), "at ({x}, {y}, {z})");
            }
        }
    }
    // every byte of the leaf data is a voxel that is there
    assert!(tree.leaf_data.iter().all(|&b| b != 0));
    let volume = (size.x * size.y * size.z) as usize;
    let occupied = data[..volume].iter().filter(|&&b| b != 0).count();
    assert_eq!(tree.leaf_data.len(), occupied);
    // and it holds the same values, each as often
    let mut leaves = tree.leaf_data.clone();
    let mut voxels: Vec<u8> = data[..volume].iter().copied().filter(|&b| b != 0).collect();
    leaves.sort();
    voxels.sort();
    assert_eq!(leaves, voxels);
}

fn pattern(size: &UVec3, seed: u32) -> Vec<u8> {
    let n = (size.x * size.y * size.z) as usize;
    (0..n as u32)
        .map(|k| {
            let h = k.wrapping_mul(2654435761).wrapping_add(seed) >> 13;
            if h % 3 == 0 { (h % 251 + 1) as u8 } else { 0 }
        })
        .collect()
}

#[test]
fn tree_gives_back_a_small_cube() {
    let size = UVec3 { x: 4, y: 4, z: 4 };
    check_tree_gives_back(size, &pattern(&size, 1));
}

#[test]
fn tree_gives_back_an_uneven_box() {
    let size = UVec3 { x: 7, y: 5, z: 9 };
    check_tree_gives_back(size, &pattern(&size, 7));
}

#[test]
fn tree_gives_back_a_three_level_model() {
    let size = UVec3 { x: 17, y: 3, z: 20 };
    check_tree_gives_back(size, &pattern(&size, 3));
}

#[test]
fn tree_of_an_empty_model_has_no_leaf_data() {
    let size = UVec3 { x: 8, y: 8, z: 8 };
    let data = vec![0u8; 512];
    let tree = Svt::build_tree(&size, &data);
    assert_eq!(tree.leaf_data.len(), 0);
    assert_eq!(tree.node_pool.len(), 1);
    assert!(!tree.node_pool[0].has_children());
    check_tree_gives_back(size, &data);
}

#[test]
fn tree_scale_covers_the_longest_side() {
    let tree = Svt::build_tree(&UVec3 { x: 2, y: 1, z: 1 }, &[1, 2]);
    assert_eq!(tree.scale, 1);
    let tree = Svt::build_tree(&UVec3 { x: 5, y: 1, z: 1 }, &[1, 0, 0, 0, 3]);
    assert_eq!(tree.scale, 2);
    let tree = Svt::build_tree(&UVec3 { x: 1, y: 16, z: 1 }, &[9; 16]);
    assert_eq!(tree.scale, 2);
    let tree = Svt::build_tree(&UVec3 { x: 1, y: 1, z: 17 }, &[9; 17]);
    assert_eq!(tree.scale, 3);
}

#[test]
fn try_build_tree_refuses_what_build_tree_cannot_take() {
    // a single voxel is no tree
    assert!(Svt::try_build_tree(&UVec3 { x: 1, y: 1, z: 1 }, &[1]).is_none());
    // bytes that do not reach every voxel
    assert!(Svt::try_build_tree(&UVec3 { x: 4, y: 4, z: 4 }, &[1; 63]).is_none());
    let tree = Svt::try_build_tree(&UVec3 { x: 4, y: 4, z: 4 }, &[1; 64]).unwrap();
    assert_eq!(tree.leaf_data.len(), 64);
    assert_eq!(tree.node_pool[0].child_mask(), u64::MAX);
}

#[test]
fn packing_keeps_the_occupied_cells_in_order() {
    let mut brick = [0u8; 64];
    for (k, b) in brick.iter_mut().enumerate() {
        if k % 5 == 2 {
            *b = k as u8 + 100;
        }
    }
    let before = brick;
    let mask = Svt::child_mask(&brick);
    for i in 0..64 {
        assert_eq!((mask >> i) & 1 == 1, before[i] != 0);
    }
    Svt::pack_brick_tightly(&mut brick, mask);
    let occupied: Vec<u8> = before.iter().copied().filter(|&b| b != 0).collect();
    assert_eq!(&brick[..occupied.len()], occupied.as_slice());
    // the rest of the brick is left as it was
    assert_eq!(&brick[occupied.len()..], &before[occupied.len()..]);
}

#[test]
fn child_mask_round_trips_through_the_two_words() {
    let mut node = SvtNode::default();
    node.set_child_pointer(77);
    node.set_child_mask(0x8000_0001_0000_0002);
    assert_eq!(node.child_mask_high, 0x8000_0001);
    assert_eq!(node.child_mask_low, 2);
    assert_eq!(node.child_mask(), 0x8000_0001_0000_0002);
    assert_eq!(node.child_pointer(), 77);
    assert!(!node.is_leaf());
}

#[test]
fn marking_a_high_child_sets_the_high_word() {
    let mut node = SvtNode::default();
    assert!(!node.has_children());
    node.mark_child_active(40);
    assert_eq!(node.child_mask_high, 1 << 8);
    assert_eq!(node.child_mask_low, 0);
    assert_eq!(node.child_mask(), 1 << 40);
    node.mark_child_active(40);
    assert_eq!(node.child_mask(), 1 << 40);
    node.mark_child_active(0);
    assert_eq!(node.child_mask(), (1 << 40) | 1);
    assert!(node.has_children());
}

#[test]
fn marking_a_leaf_keeps_the_pointer() {
    let mut node = SvtNode::default();
    node.set_child_pointer(0x7FFF_FFFF);
    node.mark_as_leaf();
    assert!(node.is_leaf());
    assert_eq!(node.child_pointer(), 0x7FFF_FFFF);
    assert_eq!(node.is_leaf_and_child_pointer, u32::MAX);
}

/// The renderer's walk: two bits of each coordinate per level, the child found by
/// counting the mask bits below it.
fn shift_walk(tree: &Svt, x: u32, y: u32, z: u32) -> u8 {
    let mut n = &tree.node_pool[0];
    for s in (1..tree.scale as u32).rev() {
        let i = ((x >> (2 * s)) & 3) + 4 * ((y >> (2 * s)) & 3) + 16 * ((z >> (2 * s)) & 3);
        let m = n.child_mask();
        if (m >> i) & 1 == 0 {
            return 0;
        }
        n = &tree.node_pool[(n.child_pointer() + (m & ((1u64 << i) - 1)).count_ones()) as usize];
    }
    let m = n.child_mask();
    let j = (x & 3) + 4 * (y & 3) + 16 * (z & 3);
    if (m >> j) & 1 == 0 {
        0
    } else {
        tree.leaf_data[(n.child_pointer() + (m & ((1u64 << j) - 1)).count_ones()) as usize]
    }
}

fn check_shape(tree: &Svt) {
    let pool = &tree.node_pool;
    let mut inner_children = 0usize;
    let mut leaf_bytes = 0usize;
    for (k, n) in pool.iter().enumerate() {
        if k >= 1 {
            assert!(n.has_children());
        }
        let count = n.child_mask().count_ones() as usize;
        let ptr = n.child_pointer() as usize;
        if n.is_leaf() {
            leaf_bytes += count;
            assert!(ptr + count <= tree.leaf_data.len());
        } else {
            inner_children += count;
            if n.has_children() {
                assert!(ptr >= 1 && ptr + count <= pool.len());
            }
        }
    }
    assert_eq!(inner_children, pool.len() - 1);
    assert_eq!(leaf_bytes, tree.leaf_data.len());
}

#[test]
fn walking_by_shifts_gives_back_the_voxels() {
    for (size, seed) in [(UVec3 { x: 4, y: 4, z: 4 }, 1), (UVec3 { x: 7, y: 5, z: 9 }, 2), (UVec3 { x: 17, y: 3, z: 20 }, 5)] {
        let data = pattern(&size, seed);
        let tree = Svt::build_tree(&size, &data);
        let side = 4u32.pow(tree.scale as u32);
        for z in 0..side {
            for y in 0..side {
                for x in 0..side {
                    assert_eq!(shift_walk(&tree, x, y, z), voxel_at(&size, &data, x, y, z));
                }
            }
        }
    }
}

#[test]
fn built_trees_keep_only_nodes_with_children_and_point_within() {
    for (size, seed) in [(UVec3 { x: 4, y: 4, z: 4 }, 1), (UVec3 { x: 7, y: 5, z: 9 }, 2), (UVec3 { x: 17, y: 3, z: 20 }, 5)] {
        let data = pattern(&size, seed);
        check_shape(&Svt::build_tree(&size, &data));
    }
    check_shape(&Svt::build_tree(&UVec3 { x: 8, y: 8, z: 8 }, &[0; 512]));
}
