use voxel_engine::controls::{camera_moves, free_camera_moves, spherical_camera_moves, CameraMove, HeldKeys};

#[test]
fn no_keys_no_moves() {
    let keys = HeldKeys::default();
    assert!(free_camera_moves(&keys).moves.is_empty());
    assert!(spherical_camera_moves(&keys).moves.is_empty());
    assert!(!free_camera_moves(&keys).boosted);
}

#[test]
fn free_camera_moves_follow_the_key_order() {
    let keys = HeldKeys {
        shift_left: true,
        arrow_right: true,
        arrow_up: true,
        key_s: true,
        key_a: true,
        control_left: true,
        ..HeldKeys::default()
    };
    let plan = free_camera_moves(&keys);
    assert!(plan.boosted);
    assert_eq!(
        plan.moves,
        vec![
            CameraMove::RotateHorizontally(-1),
            CameraMove::RotateVertically(1),
            CameraMove::MoveForward(-1),
            CameraMove::MoveRight(-1),
            CameraMove::MoveUp(-1),
        ]
    );
}

#[test]
fn opposite_keys_both_move() {
    let keys = HeldKeys { key_w: true, key_s: true, ..HeldKeys::default() };
    assert_eq!(free_camera_moves(&keys).moves, vec![CameraMove::MoveForward(1), CameraMove::MoveForward(-1)]);
}

#[test]
fn orbiting_camera_ignores_strafing_keys() {
    let keys = HeldKeys {
        arrow_left: true,
        arrow_down: true,
        key_w: true,
        key_d: true,
        space: true,
        ..HeldKeys::default()
    };
    let plan = spherical_camera_moves(&keys);
    assert!(!plan.boosted);
    assert_eq!(plan.moves, vec![CameraMove::Orbit(0, -1), CameraMove::Orbit(1, 0), CameraMove::MoveForward(1)]);
    assert_eq!(camera_moves(true, &keys).moves, plan.moves);
    assert_eq!(camera_moves(false, &keys).moves, free_camera_moves(&keys).moves);
}
