//! Which camera moves the held keys ask for. The moves themselves, and how far each
//! goes in a frame, are the renderer's floating-point business.
use vstd::prelude::*;

verus! {

/// The keys that steer the camera, each held down or not.
#[derive(Clone, Copy, Debug, Default, PartialEq, Eq, Structural)]
pub struct HeldKeys {
    pub shift_left: bool,
    pub arrow_right: bool,
    pub arrow_left: bool,
    pub arrow_down: bool,
    pub arrow_up: bool,
    pub key_w: bool,
    pub key_s: bool,
    pub key_d: bool,
    pub key_a: bool,
    pub space: bool,
    pub control_left: bool,
}

/// One camera move; the number is the sign of its step (1 or -1). An orbit around the
/// point looked at takes a vertical and a horizontal sign, one of them 0.
#[derive(Clone, Copy, Debug, PartialEq, Eq, Structural)]
pub enum CameraMove {
    RotateHorizontally(i8),
    RotateVertically(i8),
    MoveForward(i8),
    MoveRight(i8),
    MoveUp(i8),
    Orbit(i8, i8),
}

/// The moves of a frame, in the order they are made, and whether the steps are boosted.
pub struct MovePlan {
    pub boosted: bool,
    pub moves: Vec<CameraMove>,
}

pub open spec fn if_held(held: bool, m: CameraMove) -> Seq<CameraMove> {
    if held { seq![m] } else { Seq::empty() }
}

/// The moves of the free camera: turning with the arrows, moving with W, S, D, A,
/// space and control.
pub open spec fn free_moves(k: HeldKeys) -> Seq<CameraMove> {
    if_held(k.arrow_right, CameraMove::RotateHorizontally(-1i8))
        + if_held(k.arrow_left, CameraMove::RotateHorizontally(1i8))
        + if_held(k.arrow_down, CameraMove::RotateVertically(-1i8))
        + if_held(k.arrow_up, CameraMove::RotateVertically(1i8))
        + if_held(k.key_w, CameraMove::MoveForward(1i8))
        + if_held(k.key_s, CameraMove::MoveForward(-1i8))
        + if_held(k.key_d, CameraMove::MoveRight(1i8))
        + if_held(k.key_a, CameraMove::MoveRight(-1i8))
        + if_held(k.space, CameraMove::MoveUp(1i8))
        + if_held(k.control_left, CameraMove::MoveUp(-1i8))
}

/// The moves of the camera that orbits the origin: orbiting with the arrows, moving
/// in and out with W and S.
pub open spec fn orbit_moves(k: HeldKeys) -> Seq<CameraMove> {
    if_held(k.arrow_right, CameraMove::Orbit(0i8, 1i8))
        + if_held(k.arrow_left, CameraMove::Orbit(0i8, -1i8))
        + if_held(k.arrow_down, CameraMove::Orbit(1i8, 0i8))
        + if_held(k.arrow_up, CameraMove::Orbit(-1i8, 0i8))
        + if_held(k.key_w, CameraMove::MoveForward(1i8))
        + if_held(k.key_s, CameraMove::MoveForward(-1i8))
}

pub proof fn lemma_if_held(held: bool, m: CameraMove, x: CameraMove)
    ensures
        if_held(held, m).contains(x) <==> held && x == m,
        if_held(held, m).len() == if held { 1nat } else { 0nat },
{
    if held {
        assert(if_held(held, m)[0] == m);
    }
}

/// 1 for a held key, 0 otherwise.
pub open spec fn one_if(held: bool) -> nat {
    if held { 1 } else { 0 }
}

pub proof fn lemma_held_step(p: Seq<CameraMove>, held: bool, m: CameraMove, x: CameraMove)
    ensures
        (p + if_held(held, m)).contains(x) <==> p.contains(x) || (held && x == m),
        (p + if_held(held, m)).len() == p.len() + if held { 1nat } else { 0nat },
{
    broadcast use vstd::seq_lib::lemma_seq_concat_contains_all_elements;
    lemma_if_held(held, m, x);
}

/// The free camera's key map: each held key asks for exactly its own move, and no other
/// move is asked for. Right and left turn by opposite signs, as do down and up, W and S,
/// D and A, space and control. There are as many moves as keys held.
pub proof fn lemma_free_moves_key_map(k: HeldKeys)
    ensures
        free_moves(k).contains(CameraMove::RotateHorizontally(-1i8)) <==> k.arrow_right,
        free_moves(k).contains(CameraMove::RotateHorizontally(1i8)) <==> k.arrow_left,
        free_moves(k).contains(CameraMove::RotateVertically(-1i8)) <==> k.arrow_down,
        free_moves(k).contains(CameraMove::RotateVertically(1i8)) <==> k.arrow_up,
        free_moves(k).contains(CameraMove::MoveForward(1i8)) <==> k.key_w,
        free_moves(k).contains(CameraMove::MoveForward(-1i8)) <==> k.key_s,
        free_moves(k).contains(CameraMove::MoveRight(1i8)) <==> k.key_d,
        free_moves(k).contains(CameraMove::MoveRight(-1i8)) <==> k.key_a,
        free_moves(k).contains(CameraMove::MoveUp(1i8)) <==> k.space,
        free_moves(k).contains(CameraMove::MoveUp(-1i8)) <==> k.control_left,
        free_moves(k).len() == one_if(k.arrow_right) + one_if(k.arrow_left) + one_if(k.arrow_down)
            + one_if(k.arrow_up) + one_if(k.key_w) + one_if(k.key_s) + one_if(k.key_d) + one_if(k.key_a)
            + one_if(k.space) + one_if(k.control_left),
{
    let m0 = CameraMove::RotateHorizontally(-1i8);
    let m1 = CameraMove::RotateHorizontally(1i8);
    let m2 = CameraMove::RotateVertically(-1i8);
    let m3 = CameraMove::RotateVertically(1i8);
    let m4 = CameraMove::MoveForward(1i8);
    let m5 = CameraMove::MoveForward(-1i8);
    let m6 = CameraMove::MoveRight(1i8);
    let m7 = CameraMove::MoveRight(-1i8);
    let m8 = CameraMove::MoveUp(1i8);
    let m9 = CameraMove::MoveUp(-1i8);
    let s0 = if_held(k.arrow_right, m0);
    let s1 = s0 + if_held(k.arrow_left, m1);
    let s2 = s1 + if_held(k.arrow_down, m2);
    let s3 = s2 + if_held(k.arrow_up, m3);
    let s4 = s3 + if_held(k.key_w, m4);
    let s5 = s4 + if_held(k.key_s, m5);
    let s6 = s5 + if_held(k.key_d, m6);
    let s7 = s6 + if_held(k.key_a, m7);
    let s8 = s7 + if_held(k.space, m8);
    let s9 = s8 + if_held(k.control_left, m9);
    assert(s9 == free_moves(k));
    assert forall|x: CameraMove| #[trigger] s9.contains(x) <==>
        (k.arrow_right && x == m0) || (k.arrow_left && x == m1) || (k.arrow_down && x == m2)
        || (k.arrow_up && x == m3) || (k.key_w && x == m4) || (k.key_s && x == m5) || (k.key_d && x == m6)
        || (k.key_a && x == m7) || (k.space && x == m8) || (k.control_left && x == m9) by {
        lemma_if_held(k.arrow_right, m0, x);
        lemma_held_step(s0, k.arrow_left, m1, x);
        lemma_held_step(s1, k.arrow_down, m2, x);
        lemma_held_step(s2, k.arrow_up, m3, x);
        lemma_held_step(s3, k.key_w, m4, x);
        lemma_held_step(s4, k.key_s, m5, x);
        lemma_held_step(s5, k.key_d, m6, x);
        lemma_held_step(s6, k.key_a, m7, x);
        lemma_held_step(s7, k.space, m8, x);
        lemma_held_step(s8, k.control_left, m9, x);
    }
    assert(s9.contains(m0) == k.arrow_right);
    assert(s9.contains(m1) == k.arrow_left);
    assert(s9.contains(m2) == k.arrow_down);
    assert(s9.contains(m3) == k.arrow_up);
    assert(s9.contains(m4) == k.key_w);
    assert(s9.contains(m5) == k.key_s);
    assert(s9.contains(m6) == k.key_d);
    assert(s9.contains(m7) == k.key_a);
    assert(s9.contains(m8) == k.space);
    assert(s9.contains(m9) == k.control_left);
    lemma_if_held(k.arrow_right, m0, m0);
    lemma_held_step(s0, k.arrow_left, m1, m1);
    lemma_held_step(s1, k.arrow_down, m2, m2);
    lemma_held_step(s2, k.arrow_up, m3, m3);
    lemma_held_step(s3, k.key_w, m4, m4);
    lemma_held_step(s4, k.key_s, m5, m5);
    lemma_held_step(s5, k.key_d, m6, m6);
    lemma_held_step(s6, k.key_a, m7, m7);
    lemma_held_step(s7, k.space, m8, m8);
    lemma_held_step(s8, k.control_left, m9, m9);
}

/// The orbiting camera's key map: right and left orbit horizontally by opposite signs,
/// down and up vertically by opposite signs, W and S move in and out; each held key asks
/// for exactly its own move, once, and no other key moves this camera.
pub proof fn lemma_orbit_moves_key_map(k: HeldKeys)
    ensures
        orbit_moves(k).contains(CameraMove::Orbit(0i8, 1i8)) <==> k.arrow_right,
        orbit_moves(k).contains(CameraMove::Orbit(0i8, -1i8)) <==> k.arrow_left,
        orbit_moves(k).contains(CameraMove::Orbit(1i8, 0i8)) <==> k.arrow_down,
        orbit_moves(k).contains(CameraMove::Orbit(-1i8, 0i8)) <==> k.arrow_up,
        orbit_moves(k).contains(CameraMove::MoveForward(1i8)) <==> k.key_w,
        orbit_moves(k).contains(CameraMove::MoveForward(-1i8)) <==> k.key_s,
        orbit_moves(k).len() == one_if(k.arrow_right) + one_if(k.arrow_left) + one_if(k.arrow_down)
            + one_if(k.arrow_up) + one_if(k.key_w) + one_if(k.key_s),
{
    broadcast use vstd::seq_lib::lemma_seq_concat_contains_all_elements;
    let ms = seq![
        CameraMove::Orbit(0i8, 1i8), CameraMove::Orbit(0i8, -1i8), CameraMove::Orbit(1i8, 0i8),
        CameraMove::Orbit(-1i8, 0i8), CameraMove::MoveForward(1i8), CameraMove::MoveForward(-1i8)
    ];
    let hs = seq![k.arrow_right, k.arrow_left, k.arrow_down, k.arrow_up, k.key_w, k.key_s];
    assert forall|a: int, x: CameraMove| 0 <= a < 6 implies
        #[trigger] if_held(hs[a], ms[a]).contains(x) <==> hs[a] && x == ms[a] by {
        lemma_if_held(hs[a], ms[a], x);
    }
    assert forall|a: int| 0 <= a < 6 implies #[trigger] if_held(hs[a], ms[a]).len() == if hs[a] { 1nat } else { 0nat } by {
        lemma_if_held(hs[a], ms[a], ms[a]);
    }
    let _ = (if_held(hs[0], ms[0]), if_held(hs[1], ms[1]), if_held(hs[2], ms[2]), if_held(hs[3], ms[3]),
        if_held(hs[4], ms[4]), if_held(hs[5], ms[5]));
}

fn push_when(moves: &mut Vec<CameraMove>, held: bool, m: CameraMove)
    ensures
        final(moves)@ == old(moves)@ + if_held(held, m),
{
    if held {
        moves.push(m);
    }
    assert(final(moves)@ =~= old(moves)@ + if_held(held, m));
}

/// The moves that the held keys ask of a free camera.
pub fn free_camera_moves(keys: &HeldKeys) -> (r: MovePlan)
    ensures
        r.boosted == keys.shift_left,
        r.moves@ == free_moves(*keys),
{
    let mut moves: Vec<CameraMove> = Vec::new();
    push_when(&mut moves, keys.arrow_right, CameraMove::RotateHorizontally(-1i8));
    push_when(&mut moves, keys.arrow_left, CameraMove::RotateHorizontally(1i8));
    push_when(&mut moves, keys.arrow_down, CameraMove::RotateVertically(-1i8));
    push_when(&mut moves, keys.arrow_up, CameraMove::RotateVertically(1i8));
    push_when(&mut moves, keys.key_w, CameraMove::MoveForward(1i8));
    push_when(&mut moves, keys.key_s, CameraMove::MoveForward(-1i8));
    push_when(&mut moves, keys.key_d, CameraMove::MoveRight(1i8));
    push_when(&mut moves, keys.key_a, CameraMove::MoveRight(-1i8));
    push_when(&mut moves, keys.space, CameraMove::MoveUp(1i8));
    push_when(&mut moves, keys.control_left, CameraMove::MoveUp(-1i8));
    MovePlan { boosted: keys.shift_left, moves }
}

/// The moves that the held keys ask of a camera orbiting the origin.
pub fn spherical_camera_moves(keys: &HeldKeys) -> (r: MovePlan)
    ensures
        r.boosted == keys.shift_left,
        r.moves@ == orbit_moves(*keys),
{
    let mut moves: Vec<CameraMove> = Vec::new();
    push_when(&mut moves, keys.arrow_right, CameraMove::Orbit(0i8, 1i8));
    push_when(&mut moves, keys.arrow_left, CameraMove::Orbit(0i8, -1i8));
    push_when(&mut moves, keys.arrow_down, CameraMove::Orbit(1i8, 0i8));
    push_when(&mut moves, keys.arrow_up, CameraMove::Orbit(-1i8, 0i8));
    push_when(&mut moves, keys.key_w, CameraMove::MoveForward(1i8));
    push_when(&mut moves, keys.key_s, CameraMove::MoveForward(-1i8));
    MovePlan { boosted: keys.shift_left, moves }
}

/// The moves of a frame: orbiting when the camera is centered on the origin, free
/// otherwise. The camera has moved when the plan is not empty.
pub fn camera_moves(centered: bool, keys: &HeldKeys) -> (r: MovePlan)
    ensures
        r.boosted == keys.shift_left,
        r.moves@ == if centered { orbit_moves(*keys) } else { free_moves(*keys) },
{
    if centered {
        spherical_camera_moves(keys)
    } else {
        free_camera_moves(keys)
    }
}

} // verus!
