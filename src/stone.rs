//! One stone of the field and the rules that move it.

use crate::params::{Params, SCALE_UNIT};
use vstd::arithmetic::div_mod::{
    lemma_div_is_ordered, lemma_div_multiples_vanish, lemma_fundamental_div_mod,
    lemma_mod_pos_bound,
};
use vstd::prelude::*;

verus! {

/// Half a cell, in millionths of a cell: the reach of a displacement draw.
pub const HALF_CELL: i64 = 500_000;

/// An eighth of a turn (pi / 4), in microradians: the reach of a rotation draw.
pub const EIGHTH_TURN: i64 = 785_398;

/// How far a stone's offsets and rotation may ever stray.
pub const OFFSET_BOUND: i64 = 2_251_799_813_685_248;

/// The magnitude of an integer.
pub open spec fn abs(a: int) -> int {
    if a >= 0 { a } else { -a }
}

/// Division rounded toward zero, as machine integers divide.
pub open spec fn trunc_div(a: int, b: int) -> int {
    if a >= 0 { a / b } else { -((-a) / b) }
}

/// `draw * depth * scale`, where depth is `grid_y / rows` and the scale is in
/// thousandths, rounded toward zero.
pub open spec fn depth_scaled(draw: int, grid_y: int, rows: int, scale: int) -> int {
    trunc_div(draw * grid_y * scale, rows * SCALE_UNIT)
}

/// Scales a draw by a stone's depth and by a scale in thousandths.
pub fn scale_by_depth(draw: i64, grid_y: u32, rows: u32, scale: i32) -> (r: i64)
    requires
        -EIGHTH_TURN <= draw <= EIGHTH_TURN,
        grid_y <= rows,
        rows > 0,
    ensures
        r == depth_scaled(draw as int, grid_y as int, rows as int, scale as int),
        abs(r as int) <= abs(draw as int) * abs(scale as int),
{
    let mag_d: u128 = if draw >= 0 { draw as u128 } else { (-draw) as u128 };
    let mag_s: u128 = if scale >= 0 { scale as u128 } else { (-(scale as i64)) as u128 };
    let g: u128 = grid_y as u128;
    assert(mag_d * g <= 785_398 * 4_294_967_295) by (nonlinear_arith)
        requires mag_d <= 785_398, g <= 4_294_967_295;
    assert(mag_d * g * mag_s <= 785_398 * 4_294_967_295 * 2_147_483_648) by (nonlinear_arith)
        requires mag_d * g <= 785_398 * 4_294_967_295, mag_s <= 2_147_483_648;
    let num: u128 = mag_d * g * mag_s;
    let den: u128 = (rows as u128) * 1000;
    let q: u128 = num / den;
    let ghost p: int = draw * grid_y * scale;
    proof {
        assert(num == abs(p)) by (nonlinear_arith)
            requires
                mag_d == abs(draw as int),
                mag_s == abs(scale as int),
                g == grid_y,
                p == draw * grid_y * scale,
                num == mag_d * g * mag_s;
        assert(num <= (mag_d * mag_s) * den) by (nonlinear_arith)
            requires num == mag_d * g * mag_s, g <= rows, den == rows * 1000, mag_d >= 0, mag_s >= 0;
        let ms: int = mag_d * mag_s;
        assert(ms * den == den * ms) by (nonlinear_arith);
        lemma_div_is_ordered(num as int, den * ms, den as int);
        lemma_div_multiples_vanish(ms, den as int);
        assert(q <= ms);
        assert(ms <= 785_398 * 2_147_483_648) by (nonlinear_arith)
            requires mag_d <= 785_398, mag_s <= 2_147_483_648, ms == mag_d * mag_s;
    }
    let m: i64 = q as i64;
    if (draw < 0) != (scale < 0) {
        proof {
            assert(p <= 0) by (nonlinear_arith)
                requires p == draw * grid_y * scale, (draw < 0) != (scale < 0), grid_y >= 0;
        }
        -m
    } else {
        proof {
            assert(p >= 0) by (nonlinear_arith)
                requires p == draw * grid_y * scale, (draw < 0) == (scale < 0), grid_y >= 0;
        }
        m
    }
}


/// Fewest ticks that a stone holds after a decision.
pub const MIN_CYCLES: u32 = 50;

/// Most ticks that a stone holds after a decision.
pub const MAX_CYCLES: u32 = 300;

/// How many colours the palette holds.
pub const PALETTE_LEN: u8 = 14;

/// `pos` lies within the bound, and so does where `cycles` steps of `vel` take it.
pub open spec fn lane_ok(pos: int, vel: int, cycles: int) -> bool {
    abs(pos) <= OFFSET_BOUND && abs(pos + cycles * vel) <= OFFSET_BOUND
}

/// The random values that one decision of a stone may use.
#[derive(Clone, Copy, Debug, PartialEq, Eq, Structural)]
pub struct Draw {
    /// Compared with the motion probability, in millionths.
    pub chance: u32,
    /// The length of the hold that follows.
    pub cycles: u32,
    /// Target displacement draws, in millionths of a cell.
    pub x: i64,
    pub y: i64,
    /// Target rotation draw, in microradians.
    pub rotation: i64,
}

impl Draw {
    /// Each value lies in the range it is drawn from.
    pub open spec fn wf(&self) -> bool {
        &&& self.chance < crate::params::CERTAIN
        &&& MIN_CYCLES <= self.cycles <= MAX_CYCLES
        &&& -HALF_CELL <= self.x < HALF_CELL
        &&& -HALF_CELL <= self.y < HALF_CELL
        &&& -EIGHTH_TURN <= self.rotation < EIGHTH_TURN
    }
}

/// One cell of the field: where it sits, how far it is displaced and turned,
/// and, while it moves, how much each tick adds.
#[derive(Clone, Copy, Debug, PartialEq, Eq, Structural)]
pub struct Stone {
    pub grid_x: u32,
    pub grid_y: u32,
    /// Displacement from the cell's centre, in millionths of a cell.
    pub offset_x: i64,
    pub offset_y: i64,
    /// Rotation, in microradians.
    pub rotation: i64,
    /// What each tick of a hold adds to the offsets and the rotation.
    pub velocity_x: i64,
    pub velocity_y: i64,
    pub velocity_rotation: i64,
    /// Ticks left in the current hold; zero means a decision is due.
    pub cycles_remaining: u32,
    /// Index into the palette, fixed at creation.
    pub color: u8,
}

impl Stone {
    /// The stone stays in a field of `rows` rows and its motion stays in bounds.
    pub open spec fn wf(&self, rows: u32) -> bool {
        &&& self.grid_y < rows
        &&& self.cycles_remaining <= MAX_CYCLES
        &&& self.color < PALETTE_LEN
        &&& lane_ok(self.offset_x as int, self.velocity_x as int, self.cycles_remaining as int)
        &&& lane_ok(self.offset_y as int, self.velocity_y as int, self.cycles_remaining as int)
        &&& lane_ok(
            self.rotation as int,
            self.velocity_rotation as int,
            self.cycles_remaining as int,
        )
    }

    /// Target of the horizontal offset for a displacement draw.
    pub open spec fn target_x(self, rows: u32, params: Params, draw: Draw) -> int {
        depth_scaled(draw.x as int, self.grid_y as int, rows as int, params.displacement as int)
    }

    /// Target of the vertical offset for a displacement draw.
    pub open spec fn target_y(self, rows: u32, params: Params, draw: Draw) -> int {
        depth_scaled(draw.y as int, self.grid_y as int, rows as int, params.displacement as int)
    }

    /// Target of the rotation for a rotation draw.
    pub open spec fn target_rotation(self, rows: u32, params: Params, draw: Draw) -> int {
        depth_scaled(draw.rotation as int, self.grid_y as int, rows as int, params.rotation as int)
    }

    /// One tick of a hold: each velocity is added, one cycle is used up.
    pub open spec fn held(self) -> Stone {
        Stone {
            offset_x: (self.offset_x + self.velocity_x) as i64,
            offset_y: (self.offset_y + self.velocity_y) as i64,
            rotation: (self.rotation + self.velocity_rotation) as i64,
            cycles_remaining: (self.cycles_remaining - 1) as u32,
            ..self
        }
    }

    /// `k` ticks of a hold.
    pub open spec fn held_for(self, k: nat) -> Stone
        decreases k,
    {
        if k == 0 {
            self
        } else {
            self.held().held_for((k - 1) as nat)
        }
    }

    /// A decision: dormant when the chance exceeds the motion probability,
    /// else heading for new targets over the drawn number of ticks.
    pub open spec fn decided(self, rows: u32, params: Params, draw: Draw) -> Stone {
        if draw.chance > params.motion {
            Stone {
                velocity_x: 0,
                velocity_y: 0,
                velocity_rotation: 0,
                cycles_remaining: draw.cycles,
                ..self
            }
        } else {
            Stone {
                velocity_x: trunc_div(
                    self.target_x(rows, params, draw) - self.offset_x,
                    draw.cycles as int,
                ) as i64,
                velocity_y: trunc_div(
                    self.target_y(rows, params, draw) - self.offset_y,
                    draw.cycles as int,
                ) as i64,
                velocity_rotation: trunc_div(
                    self.target_rotation(rows, params, draw) - self.rotation,
                    draw.cycles as int,
                ) as i64,
                cycles_remaining: draw.cycles,
                ..self
            }
        }
    }

    /// One tick of the animated engine.
    pub open spec fn stepped(self, rows: u32, params: Params, draw: Draw) -> Stone {
        if self.cycles_remaining == 0 {
            self.decided(rows, params, draw)
        } else {
            self.held()
        }
    }

    /// A stone at rest in its cell, with a palette colour.
    pub open spec fn new_spec(grid_x: u32, grid_y: u32, color: u8) -> Stone {
        Stone {
            grid_x,
            grid_y,
            offset_x: 0,
            offset_y: 0,
            rotation: 0,
            velocity_x: 0,
            velocity_y: 0,
            velocity_rotation: 0,
            cycles_remaining: 0,
            color,
        }
    }

    /// A stone at rest in its cell, with a palette colour.
    pub fn new(grid_x: u32, grid_y: u32, color: u8) -> (r: Stone)
        ensures
            r == (Stone {
                grid_x,
                grid_y,
                offset_x: 0,
                offset_y: 0,
                rotation: 0,
                velocity_x: 0,
                velocity_y: 0,
                velocity_rotation: 0,
                cycles_remaining: 0,
                color,
            }),
    {
        Stone {
            grid_x,
            grid_y,
            offset_x: 0,
            offset_y: 0,
            rotation: 0,
            velocity_x: 0,
            velocity_y: 0,
            velocity_rotation: 0,
            cycles_remaining: 0,
            color,
        }
    }

    /// Advances the stone by one tick: a decision when none of its hold is
    /// left, else one tick of the hold.
    pub fn step(&mut self, rows: u32, params: &Params, draw: &Draw)
        requires
            old(self).wf(rows),
            draw.wf(),
        ensures
            *final(self) == old(self).stepped(rows, *params, *draw),
            final(self).wf(rows),
    {
        if self.cycles_remaining == 0 {
            if draw.chance > params.motion {
                self.velocity_x = 0;
                self.velocity_y = 0;
                self.velocity_rotation = 0;
                self.cycles_remaining = draw.cycles;
            } else {
                let tx = scale_by_depth(draw.x, self.grid_y, rows, params.displacement);
                let ty = scale_by_depth(draw.y, self.grid_y, rows, params.displacement);
                let tr = scale_by_depth(draw.rotation, self.grid_y, rows, params.rotation);
                proof {
                    lemma_target_bound(draw.x as int, params.displacement as int, tx as int);
                    lemma_target_bound(draw.y as int, params.displacement as int, ty as int);
                    lemma_target_bound(draw.rotation as int, params.rotation as int, tr as int);
                    lemma_heading(self.offset_x as int, tx as int, draw.cycles as int);
                    lemma_heading(self.offset_y as int, ty as int, draw.cycles as int);
                    lemma_heading(self.rotation as int, tr as int, draw.cycles as int);
                }
                self.velocity_x = div_toward_zero(tx - self.offset_x, draw.cycles);
                self.velocity_y = div_toward_zero(ty - self.offset_y, draw.cycles);
                self.velocity_rotation = div_toward_zero(tr - self.rotation, draw.cycles);
                self.cycles_remaining = draw.cycles;
            }
        } else {
            proof {
                lemma_hold_lane(
                    self.offset_x as int,
                    self.velocity_x as int,
                    self.cycles_remaining as int,
                );
                lemma_hold_lane(
                    self.offset_y as int,
                    self.velocity_y as int,
                    self.cycles_remaining as int,
                );
                lemma_hold_lane(
                    self.rotation as int,
                    self.velocity_rotation as int,
                    self.cycles_remaining as int,
                );
            }
            self.offset_x = self.offset_x + self.velocity_x;
            self.offset_y = self.offset_y + self.velocity_y;
            self.rotation = self.rotation + self.velocity_rotation;
            self.cycles_remaining = self.cycles_remaining - 1;
        }
    }
}

/// Division of `a` by a positive `n`, rounded toward zero.
fn div_toward_zero(a: i64, n: u32) -> (r: i64)
    requires
        n > 0,
        abs(a as int) <= 2 * OFFSET_BOUND,
    ensures
        r == trunc_div(a as int, n as int),
{
    if a >= 0 {
        ((a as u64) / (n as u64)) as i64
    } else {
        let q: u64 = ((-a) as u64) / (n as u64);
        proof {
            lemma_div_is_ordered(-a, 2 * OFFSET_BOUND, n as int);
            lemma_div_is_ordered_by_one(2 * OFFSET_BOUND, n as int);
        }
        -(q as i64)
    }
}

proof fn lemma_div_is_ordered_by_one(a: int, n: int)
    requires
        a >= 0,
        n >= 1,
    ensures
        a / n <= a,
{
    lemma_fundamental_div_mod(a, n);
    lemma_mod_pos_bound(a, n);
    assert(a / n <= a) by (nonlinear_arith)
        requires a == n * (a / n) + a % n, a % n >= 0, n >= 1, a >= 0;
}

/// `n` steps of `trunc_div(a, n)` go no farther than `a`, on the same side of
/// zero, and fall short of it by less than `n`.
pub proof fn lemma_trunc_div_steps(a: int, n: int)
    requires
        n > 0,
    ensures
        0 <= a ==> 0 <= n * trunc_div(a, n) <= a,
        a < 0 ==> a <= n * trunc_div(a, n) <= 0,
        abs(a - n * trunc_div(a, n)) < n,
{
    if a >= 0 {
        lemma_fundamental_div_mod(a, n);
        lemma_mod_pos_bound(a, n);
        assert(0 <= n * (a / n)) by (nonlinear_arith)
            requires a == n * (a / n) + a % n, 0 <= a % n < n, n > 0, a >= 0;
    } else {
        lemma_fundamental_div_mod(-a, n);
        lemma_mod_pos_bound(-a, n);
        assert(0 <= n * ((-a) / n)) by (nonlinear_arith)
            requires -a == n * ((-a) / n) + (-a) % n, 0 <= (-a) % n < n, n > 0, a < 0;
        assert(n * trunc_div(a, n) == -(n * ((-a) / n))) by (nonlinear_arith)
            requires trunc_div(a, n) == -((-a) / n);
    }
}

/// A draw scaled by at most its own size times the scale stays within the bound.
pub(crate) proof fn lemma_target_bound(draw: int, scale: int, t: int)
    requires
        -EIGHTH_TURN <= draw <= EIGHTH_TURN,
        i32::MIN <= scale <= i32::MAX,
        abs(t) <= abs(draw) * abs(scale),
    ensures
        abs(t) <= OFFSET_BOUND,
{
    let a = abs(draw);
    let b = abs(scale);
    assert(b <= 2_147_483_648);
    assert(785_398 * 2_147_483_648 == 1_686_629_362_171_904int);
    assert(a * b <= 785_398 * b) by (nonlinear_arith)
        requires a <= 785_398, b >= 0;
    assert(785_398 * b <= 785_398 * 2_147_483_648) by (nonlinear_arith)
        requires b <= 2_147_483_648;
}

/// From `pos`, heading for `target` over `n` ticks stays within the bound.
proof fn lemma_heading(pos: int, target: int, n: int)
    requires
        abs(pos) <= OFFSET_BOUND,
        abs(target) <= OFFSET_BOUND,
        MIN_CYCLES <= n <= MAX_CYCLES,
    ensures
        lane_ok(pos, trunc_div(target - pos, n), n),
        abs(trunc_div(target - pos, n)) <= OFFSET_BOUND,
{
    lemma_trunc_div_steps(target - pos, n);
    let v = trunc_div(target - pos, n);
    assert(2 * abs(v) <= abs(n * v)) by (nonlinear_arith)
        requires n >= 2, abs(v) == (if v >= 0 { v } else { -v }), abs(n * v) == (if n * v >= 0 { n * v } else { -(n * v) });
}

/// One tick of a hold keeps the lane in bounds.
proof fn lemma_hold_lane(pos: int, vel: int, c: int)
    requires
        lane_ok(pos, vel, c),
        c >= 1,
    ensures
        lane_ok(pos + vel, vel, c - 1),
        pos + vel + (c - 1) * vel == pos + c * vel,
{
    assert(pos + vel + (c - 1) * vel == pos + c * vel) by (nonlinear_arith);
    if vel >= 0 {
        assert(vel <= c * vel) by (nonlinear_arith)
            requires vel >= 0, c >= 1;
    } else {
        assert(c * vel <= vel) by (nonlinear_arith)
            requires vel < 0, c >= 1;
    }
}

/// `k` ticks of a hold, with `k` no more than the ticks left, move each
/// field by `k` velocities and use up `k` cycles.
pub proof fn lemma_held_for(s: Stone, rows: u32, k: nat)
    requires
        s.wf(rows),
        k <= s.cycles_remaining,
    ensures
        s.held_for(k).wf(rows),
        s.held_for(k).offset_x == s.offset_x + k * s.velocity_x,
        s.held_for(k).offset_y == s.offset_y + k * s.velocity_y,
        s.held_for(k).rotation == s.rotation + k * s.velocity_rotation,
        s.held_for(k).cycles_remaining == s.cycles_remaining - k,
        s.held_for(k).velocity_x == s.velocity_x,
        s.held_for(k).velocity_y == s.velocity_y,
        s.held_for(k).velocity_rotation == s.velocity_rotation,
        s.held_for(k).grid_x == s.grid_x,
        s.held_for(k).grid_y == s.grid_y,
        s.held_for(k).color == s.color,
    decreases k,
{
    if k > 0 {
        let c = s.cycles_remaining as int;
        lemma_hold_lane(s.offset_x as int, s.velocity_x as int, c);
        lemma_hold_lane(s.offset_y as int, s.velocity_y as int, c);
        lemma_hold_lane(s.rotation as int, s.velocity_rotation as int, c);
        lemma_held_for(s.held(), rows, (k - 1) as nat);
        let j = (k - 1) as int;
        assert(s.velocity_x + j * s.velocity_x == k * s.velocity_x) by (nonlinear_arith)
            requires j == k - 1;
        assert(s.velocity_y + j * s.velocity_y == k * s.velocity_y) by (nonlinear_arith)
            requires j == k - 1;
        assert(s.velocity_rotation + j * s.velocity_rotation == k * s.velocity_rotation)
            by (nonlinear_arith)
            requires j == k - 1;
    }
}

/// Cycle completion: a stone that decides to move holds for exactly the drawn
/// number of ticks, after which a decision is due again, and it then stands
/// within one unit per tick of the hold from each of its targets, having moved
/// by exactly that many velocities.
pub proof fn lemma_cycle_completion(s: Stone, rows: u32, params: Params, draw: Draw)
    requires
        s.wf(rows),
        s.cycles_remaining == 0,
        draw.wf(),
        draw.chance <= params.motion,
    ensures
        ({
            let h = s.stepped(rows, params, draw);
            let n = draw.cycles as nat;
            let e = h.held_for(n);
            &&& h.cycles_remaining == n
            &&& forall|k: nat| k < n ==> (#[trigger] h.held_for(k)).cycles_remaining > 0
            &&& e.cycles_remaining == 0
            &&& e.offset_x == s.offset_x + n * h.velocity_x
            &&& e.offset_y == s.offset_y + n * h.velocity_y
            &&& e.rotation == s.rotation + n * h.velocity_rotation
            &&& abs(s.target_x(rows, params, draw) - e.offset_x) < n
            &&& abs(s.target_y(rows, params, draw) - e.offset_y) < n
            &&& abs(s.target_rotation(rows, params, draw) - e.rotation) < n
        }),
{
    let h = s.stepped(rows, params, draw);
    let n = draw.cycles as nat;
    let tx = s.target_x(rows, params, draw);
    let ty = s.target_y(rows, params, draw);
    let tr = s.target_rotation(rows, params, draw);
    scale_bound(draw.x as int, s.grid_y as int, rows as int, params.displacement as int);
    scale_bound(draw.y as int, s.grid_y as int, rows as int, params.displacement as int);
    scale_bound(draw.rotation as int, s.grid_y as int, rows as int, params.rotation as int);
    lemma_target_bound(draw.x as int, params.displacement as int, tx);
    lemma_target_bound(draw.y as int, params.displacement as int, ty);
    lemma_target_bound(draw.rotation as int, params.rotation as int, tr);
    lemma_heading(s.offset_x as int, tx, n as int);
    lemma_heading(s.offset_y as int, ty, n as int);
    lemma_heading(s.rotation as int, tr, n as int);
    lemma_trunc_div_steps(tx - s.offset_x, n as int);
    lemma_trunc_div_steps(ty - s.offset_y, n as int);
    lemma_trunc_div_steps(tr - s.rotation, n as int);
    assert(h.wf(rows));
    lemma_held_for(h, rows, n);
    assert forall|k: nat| k < n implies (#[trigger] h.held_for(k)).cycles_remaining > 0 by {
        lemma_held_for(h, rows, k);
    }
}

/// Dormancy: a stone whose decision finds the chance above the motion
/// probability gets zero velocities, and its offsets and rotation stay as
/// they were for the whole hold that follows.
pub proof fn lemma_dormancy(s: Stone, rows: u32, params: Params, draw: Draw)
    requires
        s.wf(rows),
        s.cycles_remaining == 0,
        draw.wf(),
        draw.chance > params.motion,
    ensures
        ({
            let h = s.stepped(rows, params, draw);
            &&& h.velocity_x == 0 && h.velocity_y == 0 && h.velocity_rotation == 0
            &&& h.cycles_remaining == draw.cycles
            &&& forall|k: nat|
                k <= draw.cycles ==> {
                    &&& (#[trigger] h.held_for(k)).offset_x == s.offset_x
                    &&& h.held_for(k).offset_y == s.offset_y
                    &&& h.held_for(k).rotation == s.rotation
                }
        }),
{
    let h = s.stepped(rows, params, draw);
    assert forall|k: nat| k <= draw.cycles implies {
        &&& (#[trigger] h.held_for(k)).offset_x == s.offset_x
        &&& h.held_for(k).offset_y == s.offset_y
        &&& h.held_for(k).rotation == s.rotation
    } by {
        lemma_held_for(h, rows, k);
        assert(k * 0 == 0) by (nonlinear_arith);
    }
}

/// A stone in the top row, whose depth is zero, is never given a target away
/// from its cell or its upright rotation, whatever the scales and the draw.
pub proof fn lemma_top_row_targets(s: Stone, rows: u32, params: Params, draw: Draw)
    requires
        s.grid_y == 0,
        rows > 0,
    ensures
        s.target_x(rows, params, draw) == 0,
        s.target_y(rows, params, draw) == 0,
        s.target_rotation(rows, params, draw) == 0,
{
    lemma_zero_product_scales_to_zero(draw.x as int, 0, rows as int, params.displacement as int);
    lemma_zero_product_scales_to_zero(draw.y as int, 0, rows as int, params.displacement as int);
    lemma_zero_product_scales_to_zero(draw.rotation as int, 0, rows as int, params.rotation as int);
}

/// A zero depth or a zero scale makes the perturbation exactly zero, whatever
/// the draw.
pub proof fn lemma_zero_product_scales_to_zero(draw: int, grid_y: int, rows: int, scale: int)
    requires
        rows > 0,
        grid_y == 0 || scale == 0,
    ensures
        depth_scaled(draw, grid_y, rows, scale) == 0,
{
    assert(draw * grid_y * scale == 0) by (nonlinear_arith)
        requires grid_y == 0 || scale == 0;
}

/// Depth monotonicity: for the same draw and scale, a stone lower in the grid
/// is perturbed at least as far as one above it; so the largest perturbation
/// that any draw can give never shrinks with depth.
pub proof fn lemma_depth_monotone(draw: int, y1: int, y2: int, rows: int, scale: int)
    requires
        rows > 0,
        0 <= y1 <= y2,
    ensures
        abs(depth_scaled(draw, y1, rows, scale)) <= abs(depth_scaled(draw, y2, rows, scale)),
{
    let den = rows * SCALE_UNIT;
    let m1 = abs(draw * y1 * scale);
    let m2 = abs(draw * y2 * scale);
    assert(m1 == abs(draw) * abs(scale) * y1 && m2 == abs(draw) * abs(scale) * y2)
        by (nonlinear_arith)
        requires
            y1 >= 0,
            y2 >= 0,
            m1 == abs(draw * y1 * scale),
            m2 == abs(draw * y2 * scale),
            abs(draw) == (if draw >= 0 { draw } else { -draw }),
            abs(scale) == (if scale >= 0 { scale } else { -scale }),
            abs(draw * y1 * scale) == (if draw * y1 * scale >= 0 { draw * y1 * scale } else { -(draw * y1 * scale) }),
            abs(draw * y2 * scale) == (if draw * y2 * scale >= 0 { draw * y2 * scale } else { -(draw * y2 * scale) });
    assert(m1 <= m2) by (nonlinear_arith)
        requires
            m1 == abs(draw) * abs(scale) * y1,
            m2 == abs(draw) * abs(scale) * y2,
            abs(draw) >= 0,
            abs(scale) >= 0,
            y1 <= y2;
    lemma_div_is_ordered(m1, m2, den);
    lemma_abs_trunc_div(draw * y1 * scale, den);
    lemma_abs_trunc_div(draw * y2 * scale, den);
}

proof fn lemma_abs_trunc_div(a: int, n: int)
    requires
        n > 0,
    ensures
        abs(trunc_div(a, n)) == abs(a) / n,
{
    if a >= 0 {
        vstd::arithmetic::div_mod::lemma_div_pos_is_pos(a, n);
    } else {
        vstd::arithmetic::div_mod::lemma_div_pos_is_pos(-a, n);
    }
}

proof fn scale_bound(draw: int, grid_y: int, rows: int, scale: int)
    requires
        -EIGHTH_TURN <= draw <= EIGHTH_TURN,
        0 <= grid_y <= rows,
        rows > 0,
    ensures
        abs(depth_scaled(draw, grid_y, rows, scale)) <= abs(draw) * abs(scale),
{
    let den = rows * SCALE_UNIT;
    let ms = abs(draw) * abs(scale);
    let m = abs(draw * grid_y * scale);
    assert(m <= den * ms) by (nonlinear_arith)
        requires
            0 <= grid_y <= rows,
            den == rows * 1000,
            ms == abs(draw) * abs(scale),
            m == abs(draw * grid_y * scale),
            abs(draw) == (if draw >= 0 { draw } else { -draw }),
            abs(scale) == (if scale >= 0 { scale } else { -scale }),
            abs(draw * grid_y * scale) == (if draw * grid_y * scale >= 0 { draw * grid_y * scale } else { -(draw * grid_y * scale) });
    lemma_div_is_ordered(m, den * ms, den);
    lemma_div_multiples_vanish(ms, den);
    lemma_abs_trunc_div(draw * grid_y * scale, den);
}

} // verus!
