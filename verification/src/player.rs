//! Movement and collision resolver.
//!
//! Each tick the held movement keys give a candidate displacement. The
//! horizontal and the vertical component are validated independently
//! against every collider tile with a centered axis-aligned bounding-box
//! test (player box side 8/10 of a tile, tile box side one tile); a
//! component whose target position overlaps any collider is zeroed, which
//! yields wall sliding. The facing state is derived from the candidate
//! displacement before clamping.

use vstd::prelude::*;
use crate::tilemap::MAX_TILE_SIZE;
use crate::tilemap::MAX_WORLD;
use crate::tilemap::in_world;

verus! {

/// Largest supported player or camera coordinate magnitude, in world units.
pub const MAX_COORD: i64 = 1_000_000_000_000;

/// Largest supported speed, in tiles per second.
pub const MAX_SPEED: i64 = 1_000;

/// Largest supported tick duration, in milliseconds.
pub const MAX_DT_MS: i64 = 10_000;

/// Largest magnitude one tick can displace the player by:
/// `MAX_SPEED * MAX_TILE_SIZE * MAX_DT_MS / 1000`.
pub const MAX_STEP: i64 = 10_000_000_000;

/// Direction the player faces while moving.
#[derive(Clone, Copy, Debug, PartialEq, Eq, Structural)]
pub enum Direction {
    Down,
    Left,
    Up,
    Right,
}

/// Motion state of the player: standing still or moving one way.
#[derive(Clone, Copy, Debug, PartialEq, Eq, Structural)]
pub enum MoveStatus {
    Stopped,
    Moving(Direction),
}

/// The movement keys held during one tick.
#[derive(Clone, Copy, Debug, PartialEq, Eq, Structural)]
pub struct InputState {
    pub up: bool,
    pub down: bool,
    pub left: bool,
    pub right: bool,
    /// The run modifier key.
    pub run: bool,
}

/// Net horizontal input sign: right minus left, in `{-1, 0, 1}`.
pub open spec fn net_x(input: InputState) -> int {
    (if input.right { 1int } else { 0int }) - (if input.left { 1int } else { 0int })
}

/// Net vertical input sign: up minus down, in `{-1, 0, 1}`.
pub open spec fn net_y(input: InputState) -> int {
    (if input.up { 1int } else { 0int }) - (if input.down { 1int } else { 0int })
}

/// Motion state derived from a displacement vector's signs, horizontal
/// component first, ties and the zero vector giving `Stopped`.
pub open spec fn motion_of(dx: int, dy: int) -> MoveStatus {
    if dx > 0 {
        MoveStatus::Moving(Direction::Right)
    } else if dx < 0 {
        MoveStatus::Moving(Direction::Left)
    } else if dy > 0 {
        MoveStatus::Moving(Direction::Up)
    } else if dy < 0 {
        MoveStatus::Moving(Direction::Down)
    } else {
        MoveStatus::Stopped
    }
}

/// Runtime counterpart of `motion_of`.
pub fn motion_from(dx: i64, dy: i64) -> (m: MoveStatus)
    ensures
        m == motion_of(dx as int, dy as int),
{
    if dx > 0 {
        MoveStatus::Moving(Direction::Right)
    } else if dx < 0 {
        MoveStatus::Moving(Direction::Left)
    } else if dy > 0 {
        MoveStatus::Moving(Direction::Up)
    } else if dy < 0 {
        MoveStatus::Moving(Direction::Down)
    } else {
        MoveStatus::Stopped
    }
}

/// Centered axis-aligned overlap of the player's box (side 8/10 of a tile)
/// at `(ax, ay)` with a tile's box (side one tile) at `(bx, by)`: the boxes
/// intersect exactly when the centers are closer than 9/10 of a tile on
/// both axes, scaled by ten to stay in integers. Touching edges do not
/// overlap.
pub open spec fn overlaps(ax: int, ay: int, bx: int, by: int, tile_size: int) -> bool {
    &&& 10 * (if ax - bx >= 0 { ax - bx } else { bx - ax }) < 9 * tile_size
    &&& 10 * (if ay - by >= 0 { ay - by } else { by - ay }) < 9 * tile_size
}

/// Whether the player's box at `(tx, ty)` overlaps any collider.
pub open spec fn blocked(tx: int, ty: int, colliders: Seq<(i64, i64)>, tile_size: int) -> bool {
    exists|i: int|
        0 <= i < colliders.len() && overlaps(
            tx,
            ty,
            colliders[i].0 as int,
            colliders[i].1 as int,
            tile_size,
        )
}

/// Returns whether the target position is clear of every collider; the
/// original movement keeps an axis component only when this holds.
#[verifier::loop_isolation(false)]
pub fn wall_collision_check(
    target_x: i64,
    target_y: i64,
    colliders: &Vec<(i64, i64)>,
    tile_size: i64,
) -> (clear: bool)
    requires
        0 < tile_size <= MAX_TILE_SIZE,
        -2 * MAX_WORLD <= target_x <= 2 * MAX_WORLD,
        -2 * MAX_WORLD <= target_y <= 2 * MAX_WORLD,
        forall|i: int|
            0 <= i < colliders@.len() ==> in_world(
                (#[trigger] colliders@[i]).0 as int,
                colliders@[i].1 as int,
            ),
    ensures
        clear == !blocked(target_x as int, target_y as int, colliders@, tile_size as int),
{
    let mut i: usize = 0;
    while i < colliders.len()
        invariant
            i <= colliders@.len(),
            forall|j: int|
                0 <= j < i ==> !overlaps(
                    target_x as int,
                    target_y as int,
                    (#[trigger] colliders@[j]).0 as int,
                    colliders@[j].1 as int,
                    tile_size as int,
                ),
        decreases colliders@.len() - i,
    {
        let (wx, wy) = colliders[i];
        let dx = if target_x >= wx { target_x - wx } else { wx - target_x };
        let dy = if target_y >= wy { target_y - wy } else { wy - target_y };
        if 10 * dx < 9 * tile_size && 10 * dy < 9 * tile_size {
            return false;
        }
        i += 1;
    }
    true
}

/// The collision-adjusted displacement: each axis keeps its candidate
/// component unless the position moved along that axis alone would overlap
/// a collider, in which case that component is zeroed and the other axis is
/// untouched (wall sliding).
pub open spec fn resolve_spec(
    px: int,
    py: int,
    dx: int,
    dy: int,
    colliders: Seq<(i64, i64)>,
    tile_size: int,
) -> (int, int) {
    (
        if blocked(px + dx, py, colliders, tile_size) {
            0int
        } else {
            dx
        },
        if blocked(px, py + dy, colliders, tile_size) {
            0int
        } else {
            dy
        },
    )
}

/// Validates a candidate displacement from `(px, py)` against every
/// collider, axis by axis.
pub fn resolve_displacement(
    px: i64,
    py: i64,
    dx: i64,
    dy: i64,
    colliders: &Vec<(i64, i64)>,
    tile_size: i64,
) -> (adj: (i64, i64))
    requires
        0 < tile_size <= MAX_TILE_SIZE,
        -MAX_COORD <= px <= MAX_COORD,
        -MAX_COORD <= py <= MAX_COORD,
        -MAX_STEP <= dx <= MAX_STEP,
        -MAX_STEP <= dy <= MAX_STEP,
        forall|i: int|
            0 <= i < colliders@.len() ==> in_world(
                (#[trigger] colliders@[i]).0 as int,
                colliders@[i].1 as int,
            ),
    ensures
        (adj.0 as int, adj.1 as int) == resolve_spec(
            px as int,
            py as int,
            dx as int,
            dy as int,
            colliders@,
            tile_size as int,
        ),
{
    let adj_x = if wall_collision_check(px + dx, py, colliders, tile_size) {
        dx
    } else {
        0
    };
    let adj_y = if wall_collision_check(px, py + dy, colliders, tile_size) {
        dy
    } else {
        0
    };
    (adj_x, adj_y)
}

/// With no collider present, no axis is ever zeroed: the resolved
/// displacement equals the raw input-derived one.
pub proof fn lemma_no_colliders_keeps_displacement(
    px: int,
    py: int,
    dx: int,
    dy: int,
    colliders: Seq<(i64, i64)>,
    tile_size: int,
)
    requires
        colliders.len() == 0,
    ensures
        resolve_spec(px, py, dx, dy, colliders, tile_size) == (dx, dy),
{
}

/// Wall sliding along a vertical wall: a candidate whose horizontal target
/// overlaps a collider while its vertical target is clear loses exactly its
/// horizontal component and keeps the vertical one.
pub proof fn lemma_wall_slide_vertical_wall(
    px: int,
    py: int,
    dx: int,
    dy: int,
    colliders: Seq<(i64, i64)>,
    tile_size: int,
)
    requires
        blocked(px + dx, py, colliders, tile_size),
        !blocked(px, py + dy, colliders, tile_size),
    ensures
        resolve_spec(px, py, dx, dy, colliders, tile_size) == (0int, dy),
{
}

/// Wall sliding along a horizontal wall: the mirror case, zeroing exactly
/// the vertical component.
pub proof fn lemma_wall_slide_horizontal_wall(
    px: int,
    py: int,
    dx: int,
    dy: int,
    colliders: Seq<(i64, i64)>,
    tile_size: int,
)
    requires
        !blocked(px + dx, py, colliders, tile_size),
        blocked(px, py + dy, colliders, tile_size),
    ensures
        resolve_spec(px, py, dx, dy, colliders, tile_size) == (dx, 0int),
{
}

/// World units one held key moves the player in one tick: speed in tiles
/// per second, times the tile side, times the tick length in milliseconds,
/// over one thousand.
pub open spec fn step_len(speed: int, tile_size: int, dt_ms: int) -> int {
    speed * tile_size * dt_ms / 1000
}

/// Sums the held keys' unit vectors and scales them to one tick's travel.
pub fn candidate_displacement(input: &InputState, speed: i64, tile_size: i64, dt_ms: i64) -> (d: (
    i64,
    i64,
))
    requires
        0 < speed <= MAX_SPEED,
        0 < tile_size <= MAX_TILE_SIZE,
        0 <= dt_ms <= MAX_DT_MS,
    ensures
        d.0 as int == net_x(*input) * step_len(speed as int, tile_size as int, dt_ms as int),
        d.1 as int == net_y(*input) * step_len(speed as int, tile_size as int, dt_ms as int),
        -MAX_STEP <= d.0 <= MAX_STEP,
        -MAX_STEP <= d.1 <= MAX_STEP,
{
    assert(0 < speed * tile_size <= MAX_SPEED * MAX_TILE_SIZE) by (nonlinear_arith)
        requires
            0 < speed <= MAX_SPEED,
            0 < tile_size <= MAX_TILE_SIZE,
    ;
    assert(0 <= speed * tile_size * dt_ms <= MAX_SPEED * MAX_TILE_SIZE * MAX_DT_MS)
        by (nonlinear_arith)
        requires
            0 < speed * tile_size <= MAX_SPEED * MAX_TILE_SIZE,
            0 <= dt_ms <= MAX_DT_MS,
    ;
    let prod: u64 = (speed as u64) * (tile_size as u64) * (dt_ms as u64);
    assert(prod == speed * tile_size * dt_ms);
    let step_u: u64 = prod / 1000;
    assert(step_u == step_len(speed as int, tile_size as int, dt_ms as int));
    assert(step_u <= MAX_STEP);
    let step: i64 = step_u as i64;
    let nx: i64 = (if input.right { 1 } else { 0 }) - (if input.left { 1 } else { 0 });
    let ny: i64 = (if input.up { 1 } else { 0 }) - (if input.down { 1 } else { 0 });
    assert(-(MAX_STEP as int) <= nx * step <= MAX_STEP as int) by (nonlinear_arith)
        requires
            -1 <= nx <= 1,
            0 <= step <= MAX_STEP,
    ;
    assert(-(MAX_STEP as int) <= ny * step <= MAX_STEP as int) by (nonlinear_arith)
        requires
            -1 <= ny <= 1,
            0 <= step <= MAX_STEP,
    ;
    let dx = nx * step;
    let dy = ny * step;
    (dx, dy)
}

/// Default walking speed, in tiles per second.
pub const WALK_SPEED: i64 = 4;

/// Default running speed, in tiles per second.
pub const RUN_SPEED: i64 = 6;

/// Animation frame interval while walking, in milliseconds.
pub const BASE_ANIM_INTERVAL_MS: i64 = 100;

/// Interval between animation frames: walking uses the base cadence;
/// running shortens it by the walk-to-run speed ratio.
pub open spec fn anim_interval(running: bool, speed: int, run_speed: int) -> int {
    if running {
        BASE_ANIM_INTERVAL_MS * speed / run_speed
    } else {
        BASE_ANIM_INTERVAL_MS as int
    }
}

/// Runtime counterpart of `anim_interval`.
pub fn anim_interval_ms(running: bool, speed: i64, run_speed: i64) -> (ms: i64)
    requires
        0 < speed <= MAX_SPEED,
        0 < run_speed <= MAX_SPEED,
    ensures
        ms as int == anim_interval(running, speed as int, run_speed as int),
{
    if running {
        assert(0 <= BASE_ANIM_INTERVAL_MS * speed <= BASE_ANIM_INTERVAL_MS * MAX_SPEED)
            by (nonlinear_arith)
            requires
                0 < speed <= MAX_SPEED,
        ;
        let scaled: u64 = (BASE_ANIM_INTERVAL_MS as u64) * (speed as u64);
        let q: u64 = scaled / (run_speed as u64);
        assert(q <= scaled);
        q as i64
    } else {
        BASE_ANIM_INTERVAL_MS
    }
}

/// The player: world position, motion state, running flag, the two speeds
/// and the current animation cadence.
#[derive(Clone, Copy, Debug, PartialEq, Eq, Structural)]
pub struct Player {
    pub x: i64,
    pub y: i64,
    pub motion: MoveStatus,
    pub running: bool,
    /// Walking speed, in tiles per second.
    pub speed: i64,
    /// Running speed, in tiles per second.
    pub run_speed: i64,
    /// Current animation frame interval, in milliseconds.
    pub anim_interval_ms: i64,
}

impl Player {
    /// Speeds stay in the supported range.
    pub open spec fn wf(&self) -> bool {
        &&& 0 < self.speed <= MAX_SPEED
        &&& 0 < self.run_speed <= MAX_SPEED
    }

    /// The speed one tick's displacement is scaled by: the running speed
    /// while the running flag is set, the walking speed otherwise.
    pub open spec fn tick_speed(&self) -> int {
        if self.running {
            self.run_speed as int
        } else {
            self.speed as int
        }
    }

    /// A freshly spawned player: stopped, not running, default speeds.
    pub fn new(x: i64, y: i64) -> (p: Player)
        ensures
            p.x == x,
            p.y == y,
            p.motion is Stopped,
            !p.running,
            p.speed == WALK_SPEED,
            p.run_speed == RUN_SPEED,
            p.anim_interval_ms == BASE_ANIM_INTERVAL_MS,
            p.wf(),
    {
        Player {
            x,
            y,
            motion: MoveStatus::Stopped,
            running: false,
            speed: WALK_SPEED,
            run_speed: RUN_SPEED,
            anim_interval_ms: BASE_ANIM_INTERVAL_MS,
        }
    }

    /// One update tick: scales the held keys into a candidate displacement
    /// (by the running speed if the previous tick left the player running),
    /// zeroes each axis whose target overlaps a collider, commits the
    /// adjusted displacement, derives facing from the candidate before
    /// clamping, honors the run key only while actually moving, and sets
    /// the animation cadence.
    pub fn tick(
        &mut self,
        input: &InputState,
        colliders: &Vec<(i64, i64)>,
        tile_size: i64,
        dt_ms: i64,
    )
        requires
            old(self).wf(),
            0 < tile_size <= MAX_TILE_SIZE,
            0 <= dt_ms <= MAX_DT_MS,
            -MAX_COORD <= old(self).x <= MAX_COORD,
            -MAX_COORD <= old(self).y <= MAX_COORD,
            forall|i: int|
                0 <= i < colliders@.len() ==> in_world(
                    (#[trigger] colliders@[i]).0 as int,
                    colliders@[i].1 as int,
                ),
        ensures
            ({
                let dx = net_x(*input) * step_len(
                    old(self).tick_speed(),
                    tile_size as int,
                    dt_ms as int,
                );
                let dy = net_y(*input) * step_len(
                    old(self).tick_speed(),
                    tile_size as int,
                    dt_ms as int,
                );
                let adj = resolve_spec(
                    old(self).x as int,
                    old(self).y as int,
                    dx,
                    dy,
                    colliders@,
                    tile_size as int,
                );
                &&& final(self).x == old(self).x + adj.0
                &&& final(self).y == old(self).y + adj.1
                &&& final(self).motion == motion_of(dx, dy)
                &&& final(self).running == (!(motion_of(dx, dy) is Stopped) && input.run)
                &&& final(self).anim_interval_ms as int == anim_interval(
                    final(self).running,
                    old(self).speed as int,
                    old(self).run_speed as int,
                )
            }),
            final(self).speed == old(self).speed,
            final(self).run_speed == old(self).run_speed,
            final(self).wf(),
    {
        let sel = if self.running {
            self.run_speed
        } else {
            self.speed
        };
        let (dx, dy) = candidate_displacement(input, sel, tile_size, dt_ms);
        let adj = resolve_displacement(self.x, self.y, dx, dy, colliders, tile_size);
        self.x = self.x + adj.0;
        self.y = self.y + adj.1;
        self.motion = motion_from(dx, dy);
        let moving = match self.motion {
            MoveStatus::Stopped => false,
            MoveStatus::Moving(_) => true,
        };
        self.running = moving && input.run;
        self.anim_interval_ms = anim_interval_ms(self.running, self.speed, self.run_speed);
    }
}

/// The sprite frame a finished animation timer advances to: the next frame
/// (wrapping) while moving, the first frame while stopped.
pub open spec fn next_frame(motion: MoveStatus, index: int, frame_count: int) -> int {
    if motion is Stopped {
        0
    } else {
        (index + 1) % frame_count
    }
}

/// Whether the sprite is mirrored after a finished timer: moving left
/// mirrors, moving right unmirrors, anything else keeps the old value.
pub open spec fn next_flip(motion: MoveStatus, flip: bool) -> bool {
    match motion {
        MoveStatus::Stopped => flip,
        MoveStatus::Moving(direction) => match direction {
            Direction::Left => true,
            Direction::Right => false,
            _ => flip,
        },
    }
}

/// Advances the sprite-sheet animation by one finished timer interval.
pub fn animation_step(motion: MoveStatus, index: usize, frame_count: usize, flip: bool) -> (r: (
    usize,
    bool,
))
    requires
        0 < frame_count,
        index < frame_count,
    ensures
        r.0 == next_frame(motion, index as int, frame_count as int),
        r.1 == next_flip(motion, flip),
{
    let next = match motion {
        MoveStatus::Stopped => 0,
        MoveStatus::Moving(_) => (index + 1) % frame_count,
    };
    let f = match motion {
        MoveStatus::Stopped => flip,
        MoveStatus::Moving(direction) => match direction {
            Direction::Left => true,
            Direction::Right => false,
            _ => flip,
        },
    };
    (next, f)
}

/// Signed division truncating toward zero, for nonnegative divisors.
pub open spec fn div_trunc(a: int, b: int) -> int {
    if a >= 0 {
        a / b
    } else {
        -((-a) / b)
    }
}

/// Where the camera stands after one frame: a follow distance of zero snaps
/// it to the target; otherwise, each time its timer finishes it moves one
/// `follow_distance`-th of the way toward the target, truncating toward
/// zero.
pub open spec fn camera_step(
    cam: (i64, i64),
    target: (i64, i64),
    follow_distance: i64,
    ticked: bool,
) -> (int, int) {
    if follow_distance == 0 {
        (target.0 as int, target.1 as int)
    } else if ticked {
        (
            cam.0 + div_trunc(target.0 - cam.0, follow_distance as int),
            cam.1 + div_trunc(target.1 - cam.1, follow_distance as int),
        )
    } else {
        (cam.0 as int, cam.1 as int)
    }
}

/// One frame of camera follow; `ticked` says whether the camera's lag
/// timer finished this frame.
pub fn camera_follow(cam: (i64, i64), target: (i64, i64), follow_distance: i64, ticked: bool) -> (c: (
    i64,
    i64,
))
    requires
        0 <= follow_distance,
        -MAX_COORD <= cam.0 <= MAX_COORD,
        -MAX_COORD <= cam.1 <= MAX_COORD,
        -MAX_COORD <= target.0 <= MAX_COORD,
        -MAX_COORD <= target.1 <= MAX_COORD,
    ensures
        (c.0 as int, c.1 as int) == camera_step(cam, target, follow_distance, ticked),
{
    if follow_distance == 0 {
        target
    } else if ticked {
        let sx = div_toward_zero(target.0 - cam.0, follow_distance);
        let sy = div_toward_zero(target.1 - cam.1, follow_distance);
        (cam.0 + sx, cam.1 + sy)
    } else {
        cam
    }
}

/// Divides truncating toward zero; matches `div_trunc`.
fn div_toward_zero(a: i64, b: i64) -> (q: i64)
    requires
        0 < b,
        -2 * MAX_COORD <= a <= 2 * MAX_COORD,
    ensures
        q as int == div_trunc(a as int, b as int),
        -2 * MAX_COORD <= q <= 2 * MAX_COORD,
{
    if a >= 0 {
        let q = ((a as u64) / (b as u64)) as i64;
        assert(a / b <= a) by (nonlinear_arith)
            requires 0 <= a, 0 < b;
        assert(0 <= a as int / b as int) by (nonlinear_arith)
            requires 0 <= a, 0 < b;
        q
    } else {
        let m = -a;
        let q = ((m as u64) / (b as u64)) as i64;
        assert(m / b <= m) by (nonlinear_arith)
            requires 0 <= m, 0 < b;
        assert(0 <= m as int / b as int) by (nonlinear_arith)
            requires 0 <= m, 0 < b;
        -q
    }
}

} // verus!
