use tilewalk::player::{
    anim_interval_ms, animation_step, camera_follow, candidate_displacement, motion_from,
    resolve_displacement, wall_collision_check, Direction, InputState, MoveStatus, Player,
};

fn keys(up: bool, down: bool, left: bool, right: bool, run: bool) -> InputState {
    InputState { up, down, left, right, run }
}

const NO_KEYS: InputState = InputState { up: false, down: false, left: false, right: false, run: false };

#[test]
fn collision_check_boundary_is_nine_tenths() {
    let walls = vec![(0i64, 0i64)];
    // tile side 10: boxes of sides 8 and 10 overlap below a center distance of 9
    assert!(!wall_collision_check(8, 0, &walls, 10));
    assert!(wall_collision_check(9, 0, &walls, 10));
    assert!(!wall_collision_check(0, -8, &walls, 10));
    assert!(wall_collision_check(0, -9, &walls, 10));
}

#[test]
fn wall_slide_along_vertical_wall() {
    // wall to the right: moving diagonally keeps only the vertical component
    let walls = vec![(10i64, 0i64)];
    let adj = resolve_displacement(0, 0, 5, 5, &walls, 10);
    assert_eq!(adj, (0, 5));
}

#[test]
fn wall_slide_along_horizontal_wall() {
    // wall above: moving diagonally keeps only the horizontal component
    let walls = vec![(0i64, 10i64)];
    let adj = resolve_displacement(0, 0, 5, 5, &walls, 10);
    assert_eq!(adj, (5, 0));
}

#[test]
fn no_colliders_keep_raw_displacement() {
    let walls: Vec<(i64, i64)> = Vec::new();
    assert_eq!(resolve_displacement(0, 0, 5, -7, &walls, 10), (5, -7));
    assert_eq!(resolve_displacement(123, -456, -9, 0, &walls, 10), (-9, 0));
}

#[test]
fn candidate_scales_keys_by_speed_and_time() {
    // 4 tiles per second, 200-unit tiles, one second: 800 units
    let d = candidate_displacement(&keys(false, false, false, true, false), 4, 200, 1000);
    assert_eq!(d, (800, 0));
    let d = candidate_displacement(&keys(true, false, true, false, false), 6, 200, 500);
    assert_eq!(d, (-600, 600));
    // opposite keys cancel
    let d = candidate_displacement(&keys(true, true, true, true, false), 4, 200, 1000);
    assert_eq!(d, (0, 0));
}

#[test]
fn candidate_truncates_to_whole_world_units() {
    // 4 * 200 * 16 / 1000 = 12.8, kept as 12 whole units
    let d = candidate_displacement(&keys(false, false, false, true, false), 4, 200, 16);
    assert_eq!(d, (12, 0));
}

#[test]
fn corner_blocks_both_axes() {
    // walls to the right and above: a diagonal candidate is fully stopped
    let walls = vec![(10i64, 0i64), (0i64, 10i64)];
    let adj = resolve_displacement(0, 0, 5, 5, &walls, 10);
    assert_eq!(adj, (0, 0));
}

#[test]
fn motion_prefers_horizontal_sign() {
    assert_eq!(motion_from(1, 1), MoveStatus::Moving(Direction::Right));
    assert_eq!(motion_from(-1, 1), MoveStatus::Moving(Direction::Left));
    assert_eq!(motion_from(0, 1), MoveStatus::Moving(Direction::Up));
    assert_eq!(motion_from(0, -1), MoveStatus::Moving(Direction::Down));
    assert_eq!(motion_from(0, 0), MoveStatus::Stopped);
}

#[test]
fn tick_moves_player_when_clear() {
    let walls: Vec<(i64, i64)> = Vec::new();
    let mut p = Player::new(0, 0);
    p.tick(&keys(false, false, false, true, false), &walls, 200, 1000);
    assert_eq!((p.x, p.y), (800, 0));
    assert_eq!(p.motion, MoveStatus::Moving(Direction::Right));
    assert!(!p.running);
    assert_eq!(p.anim_interval_ms, 100);
}

#[test]
fn tick_faces_candidate_direction_even_when_blocked() {
    // a wall immediately to the right: position cannot change, facing does
    let walls = vec![(100i64, 0i64)];
    let mut p = Player::new(0, 0);
    p.tick(&keys(false, false, false, true, false), &walls, 100, 100);
    assert_eq!((p.x, p.y), (0, 0));
    assert_eq!(p.motion, MoveStatus::Moving(Direction::Right));
}

#[test]
fn run_key_honored_only_while_moving() {
    let walls: Vec<(i64, i64)> = Vec::new();
    let mut p = Player::new(0, 0);
    let mut only_run = NO_KEYS;
    only_run.run = true;
    p.tick(&only_run, &walls, 200, 1000);
    assert_eq!(p.motion, MoveStatus::Stopped);
    assert!(!p.running);
    assert_eq!(p.anim_interval_ms, 100);
}

#[test]
fn running_scales_next_tick_and_quickens_animation() {
    let walls: Vec<(i64, i64)> = Vec::new();
    let mut p = Player::new(0, 0);
    let right_and_run = keys(false, false, false, true, true);
    // first tick still walks: the running flag is read before it is set
    p.tick(&right_and_run, &walls, 200, 1000);
    assert_eq!(p.x, 800);
    assert!(p.running);
    assert_eq!(p.anim_interval_ms, 66);
    // second tick runs: 6 tiles per second
    p.tick(&right_and_run, &walls, 200, 1000);
    assert_eq!(p.x, 800 + 1200);
}

#[test]
fn anim_interval_ratio() {
    assert_eq!(anim_interval_ms(false, 4, 6), 100);
    assert_eq!(anim_interval_ms(true, 4, 6), 66);
    assert_eq!(anim_interval_ms(true, 3, 6), 50);
}

#[test]
fn animation_advances_and_wraps_while_moving() {
    assert_eq!(animation_step(MoveStatus::Moving(Direction::Up), 2, 7, false), (3, false));
    assert_eq!(animation_step(MoveStatus::Moving(Direction::Up), 6, 7, false), (0, false));
}

#[test]
fn animation_resets_when_stopped_and_mirrors_by_direction() {
    assert_eq!(animation_step(MoveStatus::Stopped, 5, 7, true), (0, true));
    assert_eq!(animation_step(MoveStatus::Moving(Direction::Left), 0, 7, false), (1, true));
    assert_eq!(animation_step(MoveStatus::Moving(Direction::Right), 0, 7, true), (1, false));
}

#[test]
fn camera_snaps_at_zero_follow_distance() {
    assert_eq!(camera_follow((0, 0), (100, 60), 0, false), (100, 60));
}

#[test]
fn camera_lerps_toward_target_on_its_timer() {
    assert_eq!(camera_follow((0, 0), (100, 60), 30, true), (3, 2));
    assert_eq!(camera_follow((10, 0), (-20, 0), 30, true), (9, 0));
    // between timer ticks the camera stays put
    assert_eq!(camera_follow((0, 0), (100, 60), 30, false), (0, 0));
}
