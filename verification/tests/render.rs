use voxel_engine::render_settings::{available_timestamps, RenderType};
use voxel_engine::sample_models::{get_model_data, get_sphere_model};
use voxel_engine::vec3::UVec3;

#[test]
fn render_types_come_in_order() {
    assert_eq!(
        RenderType::iter(),
        [RenderType::TraversalSteps, RenderType::HitNormals, RenderType::HitPosition, RenderType::Albedo]
    );
}

#[test]
fn each_render_type_has_its_own_flag_bit() {
    let flags: Vec<u8> = RenderType::iter().iter().map(|t| t.shader_flags()).collect();
    assert_eq!(flags, vec![1, 2, 4, 8]);
}

#[test]
fn timestamps_are_the_values_when_all_are_available() {
    assert_eq!(available_timestamps(&[10, 1, 25, 1, 40, 7]), Some(vec![10, 25, 40]));
    assert_eq!(available_timestamps(&[]), Some(vec![]));
    // a value without its availability entry
    assert_eq!(available_timestamps(&[10, 1, 5]), Some(vec![10, 5]));
}

#[test]
fn timestamps_are_missing_when_one_is_unavailable() {
    assert_eq!(available_timestamps(&[10, 1, 25, 0]), None);
    assert_eq!(available_timestamps(&[10, 0]), None);
}

#[test]
fn sphere_of_side_two() {
    let model = get_sphere_model(2);
    let mut expected = vec![0u8; 32];
    // cells (1, 1, 0), (1, 0, 1), (0, 1, 1) are black, (1, 1, 1) is colored
    for k in [3, 5, 6] {
        expected[4 * k + 3] = 0xFF;
    }
    expected[28..32].copy_from_slice(&[0xb8, 0xbb, 0x26, 0xFF]);
    assert_eq!(model, expected);
}

#[test]
fn sphere_edge_sizes() {
    assert!(get_sphere_model(0).is_empty());
    assert_eq!(get_sphere_model(1), vec![0, 0, 0, 0xFF]);
}

#[test]
fn sphere_is_a_checkered_ball() {
    let d = 9u32;
    let model = get_sphere_model(d);
    assert_eq!(model.len(), (4 * d * d * d) as usize);
    let r = d / 2;
    for z in 0..d {
        for y in 0..d {
            for x in 0..d {
                let k = (x + y * d + z * d * d) as usize;
                let dist2 = r.abs_diff(x).pow(2) + r.abs_diff(y).pow(2) + r.abs_diff(z).pow(2);
                let cell = &model[4 * k..4 * k + 4];
                if dist2 > r * r {
                    assert_eq!(cell, &[0, 0, 0, 0]);
                } else if (x + y + z) % 2 == 1 {
                    assert_eq!(cell, &[0xb8, 0xbb, 0x26, 0xFF]);
                } else {
                    assert_eq!(cell, &[0, 0, 0, 0xFF]);
                }
            }
        }
    }
}

#[test]
fn model_data_is_the_sphere() {
    assert_eq!(get_model_data(6), get_sphere_model(6));
}

#[test]
fn uvec3_helpers() {
    let v = UVec3::new(3, 9, 4);
    assert_eq!(v.max_element(), 9);
    assert_eq!(v.length_squared(), 9 + 81 + 16);
    assert_eq!(UVec3::zero(), UVec3 { x: 0, y: 0, z: 0 });
}

#[test]
fn checkered_model_fills_the_given_cells() {
    let filled = [true, false, false, true, false, false, false, true];
    let model = voxel_engine::sample_models::get_checkered_model(2, &filled);
    let mut expected = vec![0u8; 32];
    // cell 0 is (0, 0, 0): black; cell 3 is (1, 1, 0): black; cell 7 is (1, 1, 1): colored
    expected[3] = 0xFF;
    expected[15] = 0xFF;
    expected[28..32].copy_from_slice(&[0xb8, 0xbb, 0x26, 0xFF]);
    assert_eq!(model, expected);
}

#[test]
fn checkered_model_of_the_ball_cells_is_the_sphere() {
    let d = 7u32;
    let r = d / 2;
    let mut filled = Vec::new();
    for z in 0..d {
        for y in 0..d {
            for x in 0..d {
                filled.push(r.abs_diff(x).pow(2) + r.abs_diff(y).pow(2) + r.abs_diff(z).pow(2) <= r * r);
            }
        }
    }
    assert_eq!(voxel_engine::sample_models::get_checkered_model(d, &filled), get_sphere_model(d));
}
