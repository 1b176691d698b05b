//! The fixed grid of stones and the two ways of updating it each tick.

use crate::params::Params;
use crate::random::{draw_seeded, random_between, seeded_draws};
use crate::stone::{
    depth_scaled, lemma_zero_product_scales_to_zero, scale_by_depth, Draw, Stone, EIGHTH_TURN,
    HALF_CELL, MAX_CYCLES, MIN_CYCLES, PALETTE_LEN,
};
use vstd::arithmetic::div_mod::lemma_fundamental_div_mod_converse;
use vstd::prelude::*;

verus! {

/// The ranges that one static update asks of the seeded stream for `n`
/// stones: per stone, two displacement draws and then one rotation draw.
pub open spec fn scatter_requests(n: nat) -> Seq<(i64, i64)> {
    Seq::new(
        3 * n,
        |j: int|
            if j % 3 == 2 {
                ((-EIGHTH_TURN) as i64, EIGHTH_TURN)
            } else {
                ((-HALF_CELL) as i64, HALF_CELL)
            },
    )
}

/// Stone `s` placed by three draws of the static engine: at rest, displaced
/// and turned by its depth times the scales times the draws.
pub open spec fn placed(s: Stone, rows: u32, params: Params, dx: i64, dy: i64, dr: i64) -> Stone {
    Stone {
        offset_x: depth_scaled(dx as int, s.grid_y as int, rows as int, params.displacement as int)
            as i64,
        offset_y: depth_scaled(dy as int, s.grid_y as int, rows as int, params.displacement as int)
            as i64,
        rotation: depth_scaled(dr as int, s.grid_y as int, rows as int, params.rotation as int)
            as i64,
        velocity_x: 0,
        velocity_y: 0,
        velocity_rotation: 0,
        cycles_remaining: 0,
        ..s
    }
}

/// The grid of stones, in row-major order.
pub struct Field {
    pub rows: u32,
    pub cols: u32,
    pub stones: Vec<Stone>,
}

impl Field {
    /// Exactly `rows * cols` stones, stone `i` in column `i % cols` of row
    /// `i / cols`, each within its bounds.
    pub open spec fn wf(&self) -> bool {
        &&& self.rows > 0
        &&& self.cols > 0
        &&& self.stones@.len() == self.rows * self.cols
        &&& self.stones@.len() <= usize::MAX / 3
        &&& forall|i: int|
            0 <= i < self.stones@.len() ==> {
                &&& (#[trigger] self.stones@[i]).grid_x == i % (self.cols as int)
                &&& self.stones@[i].grid_y == i / (self.cols as int)
                &&& self.stones@[i].wf(self.rows)
            }
    }

    /// Every stone is where the static engine puts it for the stream `draws`.
    pub open spec fn arranged(&self, params: Params, draws: Seq<i64>) -> bool {
        forall|i: int|
            0 <= i < self.stones@.len() ==> #[trigger] self.stones@[i] == placed(
                self.stones@[i],
                self.rows,
                params,
                draws[3 * i],
                draws[3 * i + 1],
                draws[3 * i + 2],
            )
    }

    /// A field of `rows` by `cols` stones at rest, each with a palette colour
    /// drawn at random.
    pub fn new(rows: u32, cols: u32) -> (r: Field)
        requires
            rows > 0,
            cols > 0,
            rows * cols <= usize::MAX / 3,
        ensures
            r.wf(),
            r.rows == rows,
            r.cols == cols,
            forall|i: int|
                0 <= i < r.stones@.len() ==> (#[trigger] r.stones@[i]) == Stone::new_spec(
                    r.stones@[i].grid_x,
                    r.stones@[i].grid_y,
                    r.stones@[i].color,
                ),
    {
        let mut stones: Vec<Stone> = Vec::new();
        let mut y: u32 = 0;
        while y < rows
            invariant
                y <= rows,
                rows > 0,
                cols > 0,
                rows * cols <= usize::MAX / 3,
                stones@.len() == y * cols,
                forall|i: int|
                    0 <= i < stones@.len() ==> {
                        &&& (#[trigger] stones@[i]).grid_x == i % (cols as int)
                        &&& stones@[i].grid_y == i / (cols as int)
                        &&& stones@[i].wf(rows)
                        &&& stones@[i] == Stone::new_spec(
                            stones@[i].grid_x,
                            stones@[i].grid_y,
                            stones@[i].color,
                        )
                    },
            decreases rows - y,
        {
            let mut x: u32 = 0;
            while x < cols
                invariant
                    x <= cols,
                    y < rows,
                    rows > 0,
                    cols > 0,
                    rows * cols <= usize::MAX / 3,
                    stones@.len() == y * cols + x,
                    forall|i: int|
                        0 <= i < stones@.len() ==> {
                            &&& (#[trigger] stones@[i]).grid_x == i % (cols as int)
                            &&& stones@[i].grid_y == i / (cols as int)
                            &&& stones@[i].wf(rows)
                            &&& stones@[i] == Stone::new_spec(
                                stones@[i].grid_x,
                                stones@[i].grid_y,
                                stones@[i].color,
                            )
                        },
                decreases cols - x,
            {
                proof {
                    lemma_fundamental_div_mod_converse(
                        (y * cols + x) as int,
                        cols as int,
                        y as int,
                        x as int,
                    );
                    assert(y * cols + x < rows * cols) by (nonlinear_arith)
                        requires y < rows, x < cols;
                }
                let color = random_color_index();
                stones.push(Stone::new(x, y, color));
                x = x + 1;
            }
            proof {
                assert((y + 1) * cols == y * cols + cols) by (nonlinear_arith);
            }
            y = y + 1;
        }
        Field { rows, cols, stones }
    }

    /// The static update: re-seeds a stream from `params.seed`, draws three
    /// values per stone in order, and sets every stone to rest where those
    /// draws place it.
    pub fn scatter(&mut self, params: &Params)
        requires
            old(self).wf(),
        ensures
            final(self).wf(),
            final(self).rows == old(self).rows,
            final(self).cols == old(self).cols,
            final(self).stones@.len() == old(self).stones@.len(),
            forall|i: int|
                0 <= i < final(self).stones@.len() ==> {
                    let s = #[trigger] final(self).stones@[i];
                    let o = old(self).stones@[i];
                    &&& s.grid_x == o.grid_x
                    &&& s.grid_y == o.grid_y
                    &&& s.color == o.color
                },
            final(self).arranged(
                *params,
                seeded_draws(params.seed, scatter_requests(old(self).stones@.len())),
            ),
    {
        let n = self.stones.len();
        let requests = scatter_requests_vec(n);
        let draws = draw_seeded(params.seed, &requests);
        assert forall|j: int| 0 <= j < draws@.len() implies
            -EIGHTH_TURN <= #[trigger] draws@[j] <= EIGHTH_TURN by {
            assert(requests@[j] == scatter_requests(n as nat)[j]);
        }
        self.scatter_with(params, &draws);
    }

    /// The static update for given draws: stone `i` is set to rest where
    /// `draws[3 * i]`, `draws[3 * i + 1]` and `draws[3 * i + 2]` place it.
    pub fn scatter_with(&mut self, params: &Params, draws: &Vec<i64>)
        requires
            old(self).wf(),
            draws@.len() == 3 * old(self).stones@.len(),
            forall|j: int|
                0 <= j < draws@.len() ==> -EIGHTH_TURN <= #[trigger] draws@[j] <= EIGHTH_TURN,
        ensures
            final(self).wf(),
            final(self).rows == old(self).rows,
            final(self).cols == old(self).cols,
            final(self).stones@.len() == old(self).stones@.len(),
            forall|i: int|
                0 <= i < final(self).stones@.len() ==> {
                    let s = #[trigger] final(self).stones@[i];
                    let o = old(self).stones@[i];
                    &&& s.grid_x == o.grid_x
                    &&& s.grid_y == o.grid_y
                    &&& s.color == o.color
                },
            final(self).arranged(*params, draws@),
    {
        let n = self.stones.len();
        let ghost old_stones = self.stones@;
        let mut i: usize = 0;
        while i < n
            invariant
                self.wf(),
                self.rows == old(self).rows,
                self.cols == old(self).cols,
                n == self.stones@.len(),
                old_stones == old(self).stones@,
                draws@.len() == 3 * n,
                forall|j: int|
                    0 <= j < draws@.len() ==> -EIGHTH_TURN <= #[trigger] draws@[j] <= EIGHTH_TURN,
                0 <= i <= n,
                forall|k: int|
                    0 <= k < n ==> {
                        let s = #[trigger] self.stones@[k];
                        &&& s.grid_x == old_stones[k].grid_x
                        &&& s.grid_y == old_stones[k].grid_y
                        &&& s.color == old_stones[k].color
                    },
                forall|k: int|
                    0 <= k < i ==> #[trigger] self.stones@[k] == placed(
                        self.stones@[k],
                        self.rows,
                        *params,
                        draws@[3 * k],
                        draws@[3 * k + 1],
                        draws@[3 * k + 2],
                    ),
            decreases n - i,
        {
            let s = self.stones[i];
            proof {
                assert(s.grid_y < self.rows);
                let _ = draws@[3 * i as int];
                let _ = draws@[3 * i + 1];
                let _ = draws@[3 * i + 2];
            }
            let dx = draws[3 * i];
            let dy = draws[3 * i + 1];
            let dr = draws[3 * i + 2];
            let ox = scale_by_depth(dx, s.grid_y, self.rows, params.displacement);
            let oy = scale_by_depth(dy, s.grid_y, self.rows, params.displacement);
            let rot = scale_by_depth(dr, s.grid_y, self.rows, params.rotation);
            let t = Stone {
                offset_x: ox,
                offset_y: oy,
                rotation: rot,
                velocity_x: 0,
                velocity_y: 0,
                velocity_rotation: 0,
                cycles_remaining: 0,
                ..s
            };
            proof {
                crate::stone::lemma_target_bound(dx as int, params.displacement as int, ox as int);
                crate::stone::lemma_target_bound(dy as int, params.displacement as int, oy as int);
                crate::stone::lemma_target_bound(dr as int, params.rotation as int, rot as int);
            }
            self.stones.set(i, t);
            i = i + 1;
        }
    }
}

impl Field {
    /// The animated update with the given draws: stone `i` takes one step
    /// with `draws[i]`.
    pub fn animate_with(&mut self, params: &Params, draws: &Vec<Draw>)
        requires
            old(self).wf(),
            draws@.len() == old(self).stones@.len(),
            forall|i: int| 0 <= i < draws@.len() ==> (#[trigger] draws@[i]).wf(),
        ensures
            final(self).wf(),
            final(self).rows == old(self).rows,
            final(self).cols == old(self).cols,
            final(self).stones@.len() == old(self).stones@.len(),
            forall|i: int|
                0 <= i < final(self).stones@.len() ==> #[trigger] final(self).stones@[i]
                    == old(self).stones@[i].stepped(old(self).rows, *params, draws@[i]),
    {
        let n = self.stones.len();
        let mut i: usize = 0;
        while i < n
            invariant
                self.wf(),
                self.rows == old(self).rows,
                self.cols == old(self).cols,
                n == self.stones@.len(),
                n == draws@.len(),
                forall|j: int| 0 <= j < draws@.len() ==> (#[trigger] draws@[j]).wf(),
                0 <= i <= n,
                forall|k: int| i <= k < n ==> #[trigger] self.stones@[k] == old(self).stones@[k],
                forall|k: int|
                    0 <= k < i ==> #[trigger] self.stones@[k] == old(self).stones@[k].stepped(
                        old(self).rows,
                        *params,
                        draws@[k],
                    ),
            decreases n - i,
        {
            let mut s = self.stones[i];
            assert(draws@[i as int].wf());
            s.step(self.rows, params, &draws[i]);
            self.stones.set(i, s);
            i = i + 1;
        }
    }

    /// The animated update: every stone takes one step with values drawn from
    /// the thread's generator. A holding stone moves by its velocities; one
    /// due to decide starts a hold of fifty to three hundred ticks without
    /// moving on this tick.
    pub fn animate(&mut self, params: &Params)
        requires
            old(self).wf(),
        ensures
            final(self).wf(),
            final(self).rows == old(self).rows,
            final(self).cols == old(self).cols,
            final(self).stones@.len() == old(self).stones@.len(),
            forall|i: int|
                0 <= i < final(self).stones@.len() ==> {
                    let s = #[trigger] final(self).stones@[i];
                    let o = old(self).stones@[i];
                    &&& o.cycles_remaining > 0 ==> s == o.held()
                    &&& o.cycles_remaining == 0 ==> {
                        &&& MIN_CYCLES <= s.cycles_remaining <= MAX_CYCLES
                        &&& s.offset_x == o.offset_x
                        &&& s.offset_y == o.offset_y
                        &&& s.rotation == o.rotation
                        &&& s.grid_x == o.grid_x
                        &&& s.grid_y == o.grid_y
                        &&& s.color == o.color
                    }
                },
    {
        let n = self.stones.len();
        let mut draws: Vec<Draw> = Vec::new();
        let mut i: usize = 0;
        while i < n
            invariant
                0 <= i <= n,
                draws@.len() == i,
                forall|j: int| 0 <= j < draws@.len() ==> (#[trigger] draws@[j]).wf(),
            decreases n - i,
        {
            draws.push(random_draw());
            i = i + 1;
        }
        self.animate_with(params, &draws);
    }
}

/// One decision's worth of values from the thread's generator, each in the
/// range it is drawn from.
pub fn random_draw() -> (r: Draw)
    ensures
        r.wf(),
{
    let chance = random_between(0, crate::params::CERTAIN as i64) as u32;
    let cycles = random_between(MIN_CYCLES as i64, MAX_CYCLES as i64 + 1) as u32;
    let x = random_between(-HALF_CELL, HALF_CELL);
    let y = random_between(-HALF_CELL, HALF_CELL);
    let rotation = random_between(-EIGHTH_TURN, EIGHTH_TURN);
    Draw { chance, cycles, x, y, rotation }
}

/// Determinism: two fields of the same shape, each given by the static
/// update with the same parameters, agree on every stone's offsets and
/// rotation.
pub proof fn lemma_static_determinism(a: Field, b: Field, params: Params)
    requires
        a.wf(),
        b.wf(),
        a.rows == b.rows,
        a.cols == b.cols,
        a.arranged(params, seeded_draws(params.seed, scatter_requests(a.stones@.len()))),
        b.arranged(params, seeded_draws(params.seed, scatter_requests(b.stones@.len()))),
    ensures
        forall|i: int|
            0 <= i < a.stones@.len() ==> {
                &&& (#[trigger] a.stones@[i]).offset_x == b.stones@[i].offset_x
                &&& a.stones@[i].offset_y == b.stones@[i].offset_y
                &&& a.stones@[i].rotation == b.stones@[i].rotation
            },
{
    assert forall|i: int| 0 <= i < a.stones@.len() implies {
        &&& (#[trigger] a.stones@[i]).offset_x == b.stones@[i].offset_x
        &&& a.stones@[i].offset_y == b.stones@[i].offset_y
        &&& a.stones@[i].rotation == b.stones@[i].rotation
    } by {
        assert(a.stones@[i] == placed(a.stones@[i], a.rows, params,
            seeded_draws(params.seed, scatter_requests(a.stones@.len()))[3 * i],
            seeded_draws(params.seed, scatter_requests(a.stones@.len()))[3 * i + 1],
            seeded_draws(params.seed, scatter_requests(a.stones@.len()))[3 * i + 2]));
        assert(b.stones@[i] == placed(b.stones@[i], b.rows, params,
            seeded_draws(params.seed, scatter_requests(b.stones@.len()))[3 * i],
            seeded_draws(params.seed, scatter_requests(b.stones@.len()))[3 * i + 1],
            seeded_draws(params.seed, scatter_requests(b.stones@.len()))[3 * i + 2]));
    }
}

/// Zero-scale collapse: after the static update, a zero displacement scale
/// leaves every stone undisplaced and a zero rotation scale leaves every
/// stone upright, whatever the seed.
pub proof fn lemma_zero_scale_collapse(f: Field, params: Params, draws: Seq<i64>)
    requires
        f.wf(),
        f.arranged(params, draws),
    ensures
        params.displacement == 0 ==> forall|i: int|
            0 <= i < f.stones@.len() ==> (#[trigger] f.stones@[i]).offset_x == 0
                && f.stones@[i].offset_y == 0,
        params.rotation == 0 ==> forall|i: int|
            0 <= i < f.stones@.len() ==> (#[trigger] f.stones@[i]).rotation == 0,
{
    assert forall|i: int| 0 <= i < f.stones@.len() implies {
        &&& params.displacement == 0 ==> (#[trigger] f.stones@[i]).offset_x == 0
            && f.stones@[i].offset_y == 0
        &&& params.rotation == 0 ==> f.stones@[i].rotation == 0
    } by {
        let s = f.stones@[i];
        let gy = s.grid_y as int;
        if params.displacement == 0 {
            lemma_zero_product_scales_to_zero(draws[3 * i] as int, gy, f.rows as int, 0);
            lemma_zero_product_scales_to_zero(draws[3 * i + 1] as int, gy, f.rows as int, 0);
        }
        if params.rotation == 0 {
            lemma_zero_product_scales_to_zero(draws[3 * i + 2] as int, gy, f.rows as int, 0);
        }
    }
}

/// The requests of one static update of `n` stones, as a vector.
fn scatter_requests_vec(n: usize) -> (r: Vec<(i64, i64)>)
    requires
        n <= usize::MAX / 3,
    ensures
        r@ == scatter_requests(n as nat),
{
    let mut r: Vec<(i64, i64)> = Vec::new();
    let mut i: usize = 0;
    while i < n
        invariant
            i <= n,
            n <= usize::MAX / 3,
            r@.len() == 3 * i,
            forall|j: int| 0 <= j < r@.len() ==> #[trigger] r@[j] == scatter_requests(n as nat)[j],
        decreases n - i,
    {
        r.push((-HALF_CELL, HALF_CELL));
        r.push((-HALF_CELL, HALF_CELL));
        r.push((-EIGHTH_TURN, EIGHTH_TURN));
        i = i + 1;
    }
    assert(r@ =~= scatter_requests(n as nat));
    r
}

/// A palette index drawn uniformly.
pub fn random_color_index() -> (r: u8)
    ensures
        r < PALETTE_LEN,
{
    random_between(0, PALETTE_LEN as i64) as u8
}

} // verus!
