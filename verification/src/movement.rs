//! Position and speed representation: integer cell plus sub-cell fraction,
//! velocity with friction damping, and the sub-stepped collision integrator.

use vstd::prelude::*;
use vstd::arithmetic::div_mod::{
    lemma_div_by_multiple, lemma_div_is_ordered, lemma_div_pos_is_pos,
    lemma_fundamental_div_mod, lemma_fundamental_div_mod_converse, lemma_multiply_divide_lt,
};
use vstd::arithmetic::mul::{
    lemma_mul_inequality, lemma_mul_is_commutative, lemma_mul_strict_inequality,
    lemma_mul_upper_bound,
};
use vstd::math::abs;

use crate::grid::{find_level, spec_find_level, Level};
use crate::markers::{spec_active, Markers, Stamp, Tag};
use crate::{
    CELL_LIMIT, CELL_SLACK, DEFAULT_FRICTION, FRAC_ONE, GRID_SIZE, HIGH_CLAMP, LOW_CLAMP,
    ON_GROUND_MS, SNAP_EPSILON, VEL_LIMIT,
};

verus! {

/// An integer 2-vector, used for cells and for fixed-point quantities
/// (fractions, velocities, accelerations) measured in units of
/// [`FRAC_ONE`](crate::FRAC_ONE) per cell.
#[derive(Clone, Copy, Debug, PartialEq, Eq, Structural)]
pub struct IVec2 {
    pub x: i64,
    pub y: i64,
}

impl IVec2 {
    pub fn new(x: i64, y: i64) -> (v: IVec2)
        ensures
            v.x == x && v.y == y,
    {
        IVec2 { x, y }
    }

    /// The zero vector.
    pub fn zero() -> (v: IVec2)
        ensures
            v.x == 0 && v.y == 0,
    {
        IVec2 { x: 0, y: 0 }
    }
}

/// World position of an entity: an integer cell and a sub-cell offset in
/// fixed-point units. After [`Position::normalize`] the offset lies in
/// `[0, FRAC_ONE)` on each axis.
#[derive(Clone, Copy, Debug, PartialEq, Eq, Structural)]
pub struct Position {
    pub cell: IVec2,
    pub fraction: IVec2,
}

/// Cell coordinate after carrying the whole cells of `frac` into `cell`
/// (floor division, so a negative offset borrows from the cell).
pub open spec fn norm_cell(cell: int, frac: int) -> int {
    cell + frac / (FRAC_ONE as int)
}

/// Sub-cell offset after the carry: the remainder in `[0, FRAC_ONE)`.
pub open spec fn norm_frac(frac: int) -> int {
    frac % (FRAC_ONE as int)
}

/// Floor division of `a` by [`FRAC_ONE`], the carry that
/// [`Position::normalize`] moves into the cell coordinate.
fn floor_div_frac(a: i64) -> (q: i64)
    requires
        -0x1000_0000_0000_0000 <= a <= 0x1000_0000_0000_0000,
    ensures
        q == a as int / (FRAC_ONE as int),
{
    let f: u64 = FRAC_ONE as u64;
    if a >= 0 {
        let q = ((a as u64) / f) as i64;
        proof {
            lemma_fundamental_div_mod(a as int, FRAC_ONE as int);
        }
        q
    } else {
        let m: u64 = (-a) as u64;
        let c = (m + (f - 1)) / f;
        let q = -(c as i64);
        proof {
            let fi = FRAC_ONE as int;
            let mi = m as int;
            lemma_fundamental_div_mod(mi + fi - 1, fi);
            // c * FRAC_ONE lands in [m, m + FRAC_ONE - 1], so -c is the floor
            // of a / FRAC_ONE.
            assert(0 <= a as int - (q as int) * fi < fi);
            lemma_fundamental_div_mod_converse(a as int, fi, q as int, a as int - (q as int) * fi);
        }
        q
    }
}

impl Position {
    /// The sub-cell offsets lie in `[0, FRAC_ONE)`.
    pub open spec fn frac_normalized(self) -> bool {
        &&& 0 <= self.fraction.x < FRAC_ONE
        &&& 0 <= self.fraction.y < FRAC_ONE
    }

    /// The cell coordinates lie within the solver's admitted range: the
    /// level-origin limit plus the roaming slack one step can add.
    pub open spec fn in_range(self) -> bool {
        &&& -CELL_LIMIT - CELL_SLACK <= self.cell.x <= CELL_LIMIT + CELL_SLACK
        &&& -CELL_LIMIT - CELL_SLACK <= self.cell.y <= CELL_LIMIT + CELL_SLACK
    }

    /// Well-formed position: normalized offset and bounded cell.
    pub open spec fn wf(self) -> bool {
        self.frac_normalized() && self.in_range()
    }

    /// Exact position on one axis, in fixed-point units.
    pub open spec fn spec_total(cell: int, frac: int) -> int {
        cell * (FRAC_ONE as int) + frac
    }

    /// Exact world position in fixed-point units: `cell + fraction`, the only
    /// value consumed downstream of the solver.
    pub fn total_position(&self) -> (t: IVec2)
        requires
            -0x100_0000_0000 <= self.cell.x <= 0x100_0000_0000,
            -0x100_0000_0000 <= self.cell.y <= 0x100_0000_0000,
            -FRAC_ONE <= self.fraction.x <= FRAC_ONE,
            -FRAC_ONE <= self.fraction.y <= FRAC_ONE,
        ensures
            t.x == Self::spec_total(self.cell.x as int, self.fraction.x as int),
            t.y == Self::spec_total(self.cell.y as int, self.fraction.y as int),
    {
        IVec2 {
            x: self.cell.x * FRAC_ONE + self.fraction.x,
            y: self.cell.y * FRAC_ONE + self.fraction.y,
        }
    }

    /// Build a position from a world coordinate given in fixed-point units
    /// (cells times [`FRAC_ONE`]): the cell absorbs the whole cells, the
    /// offset keeps the remainder.
    pub fn from_units(units: IVec2) -> (p: Position)
        requires
            -CELL_LIMIT * FRAC_ONE <= units.x <= CELL_LIMIT * FRAC_ONE,
            -CELL_LIMIT * FRAC_ONE <= units.y <= CELL_LIMIT * FRAC_ONE,
        ensures
            p.cell.x == norm_cell(0, units.x as int),
            p.cell.y == norm_cell(0, units.y as int),
            p.fraction.x == norm_frac(units.x as int),
            p.fraction.y == norm_frac(units.y as int),
            Self::spec_total(p.cell.x as int, p.fraction.x as int) == units.x,
            Self::spec_total(p.cell.y as int, p.fraction.y as int) == units.y,
            p.wf(),
    {
        let mut p = Position { cell: IVec2 { x: 0, y: 0 }, fraction: units };
        p.normalize();
        proof {
            lemma_div_is_ordered(units.x as int, CELL_LIMIT * FRAC_ONE, FRAC_ONE as int);
            lemma_div_is_ordered(-(CELL_LIMIT * FRAC_ONE), units.x as int, FRAC_ONE as int);
            lemma_div_is_ordered(units.y as int, CELL_LIMIT * FRAC_ONE, FRAC_ONE as int);
            lemma_div_is_ordered(-(CELL_LIMIT * FRAC_ONE), units.y as int, FRAC_ONE as int);
            lemma_div_by_multiple(CELL_LIMIT as int, FRAC_ONE as int);
            lemma_div_neg_ceil(CELL_LIMIT * FRAC_ONE, FRAC_ONE as int);
            lemma_fundamental_div_mod_converse(
                CELL_LIMIT * FRAC_ONE + FRAC_ONE - 1,
                FRAC_ONE as int,
                CELL_LIMIT as int,
                FRAC_ONE - 1,
            );
        }
        p
    }

    /// The renderable world-space coordinate of this position, in whole
    /// pixels: `total_position` scaled by the grid size and rounded. The
    /// projection is one-way — nothing feeds back into the position.
    pub fn world_px(&self) -> (p: IVec2)
        requires
            self.wf(),
        ensures
            p.x == spec_world_px(self.cell.x as int, self.fraction.x as int),
            p.y == spec_world_px(self.cell.y as int, self.fraction.y as int),
    {
        let t = self.total_position();
        IVec2 { x: round_px(t.x), y: round_px(t.y) }
    }

    /// Carry whole cells of the fractional offset into the cell coordinate,
    /// leaving the offset in `[0, FRAC_ONE)` and the exact position unchanged.
    pub fn normalize(&mut self)
        requires
            -0x1000_0000_0000 <= old(self).cell.x <= 0x1000_0000_0000,
            -0x1000_0000_0000 <= old(self).cell.y <= 0x1000_0000_0000,
            -0x1000_0000_0000 <= old(self).fraction.x <= 0x1000_0000_0000,
            -0x1000_0000_0000 <= old(self).fraction.y <= 0x1000_0000_0000,
        ensures
            final(self).cell.x == norm_cell(old(self).cell.x as int, old(self).fraction.x as int),
            final(self).cell.y == norm_cell(old(self).cell.y as int, old(self).fraction.y as int),
            final(self).fraction.x == norm_frac(old(self).fraction.x as int),
            final(self).fraction.y == norm_frac(old(self).fraction.y as int),
            final(self).frac_normalized(),
            Self::spec_total(final(self).cell.x as int, final(self).fraction.x as int)
                == Self::spec_total(old(self).cell.x as int, old(self).fraction.x as int),
            Self::spec_total(final(self).cell.y as int, final(self).fraction.y as int)
                == Self::spec_total(old(self).cell.y as int, old(self).fraction.y as int),
    {
        proof {
            lemma_fundamental_div_mod(old(self).fraction.x as int, FRAC_ONE as int);
            lemma_fundamental_div_mod(old(self).fraction.y as int, FRAC_ONE as int);
        }
        let qx = floor_div_frac(self.fraction.x);
        let qy = floor_div_frac(self.fraction.y);
        self.cell.x = self.cell.x + qx;
        self.cell.y = self.cell.y + qy;
        self.fraction.x = self.fraction.x - qx * FRAC_ONE;
        self.fraction.y = self.fraction.y - qy * FRAC_ONE;
    }
}

/// Fixed-point units rounded to whole pixels at [`GRID_SIZE`](crate::GRID_SIZE)
/// pixels per cell, halves rounding away from zero.
pub open spec fn spec_round_px(units: int) -> int {
    let scaled = units * GRID_SIZE;
    if scaled >= 0 {
        (scaled + FRAC_ONE / 2) / (FRAC_ONE as int)
    } else {
        -((-scaled + FRAC_ONE / 2) / (FRAC_ONE as int))
    }
}

/// One axis of the renderable world-space coordinate of a position.
pub open spec fn spec_world_px(cell: int, frac: int) -> int {
    spec_round_px(Position::spec_total(cell, frac))
}

/// Round one axis of a unit coordinate to pixels.
fn round_px(units: i64) -> (p: i64)
    requires
        -0x1000_0000_0000 <= units <= 0x1000_0000_0000,
    ensures
        p == spec_round_px(units as int),
{
    proof {
        vstd::arithmetic::div_mod::lemma_div_nonincreasing(
            abs(units as int) as int * GRID_SIZE + FRAC_ONE / 2,
            FRAC_ONE as int,
        );
    }
    if units >= 0 {
        ((units as u64 * (GRID_SIZE as u64) + (FRAC_ONE as u64) / 2) / (FRAC_ONE as u64)) as i64
    } else {
        let m = (-units) as u64;
        -(((m * (GRID_SIZE as u64) + (FRAC_ONE as u64) / 2) / (FRAC_ONE as u64)) as i64)
    }
}

/// Per-entity velocity in fixed-point units per physics step, together with
/// the friction coefficient (in units per [`FRAC_ONE`], so `FRAC_ONE` means
/// no damping at all).
#[derive(Clone, Copy, Debug, PartialEq, Eq, Structural)]
pub struct Speed {
    pub velocity: IVec2,
    pub friction: i64,
}

/// One friction application to a single velocity component: scale the
/// magnitude by `f / FRAC_ONE` (truncating), then snap magnitudes below
/// [`SNAP_EPSILON`](crate::SNAP_EPSILON) to exactly zero.
pub open spec fn spec_damp(v: int, f: int) -> int {
    let m = (abs(v) * f) / (FRAC_ONE as int);
    let snapped = if m < SNAP_EPSILON { 0int } else { m };
    if v >= 0 {
        snapped
    } else {
        -snapped
    }
}

/// Friction damping of one component, by magnitude so that both signs round
/// toward zero alike.
fn damp_component(v: i64, f: i64) -> (r: i64)
    requires
        -VEL_LIMIT <= v <= VEL_LIMIT,
        0 < f <= FRAC_ONE,
    ensures
        r == spec_damp(v as int, f as int),
        abs(r as int) <= abs(v as int),
{
    let m: u64 = if v < 0 {
        (-v) as u64
    } else {
        v as u64
    };
    proof {
        lemma_mul_upper_bound(m as int, VEL_LIMIT as int, f as int, FRAC_ONE as int);
    }
    let scaled = (m * (f as u64)) / (FRAC_ONE as u64);
    proof {
        lemma_mul_inequality(f as int, FRAC_ONE as int, m as int);
        lemma_mul_is_commutative(f as int, m as int);
        lemma_mul_is_commutative(FRAC_ONE as int, m as int);
        lemma_div_by_multiple(m as int, FRAC_ONE as int);
        vstd::arithmetic::div_mod::lemma_div_is_ordered(
            m as int * f as int,
            m as int * FRAC_ONE as int,
            FRAC_ONE as int,
        );
    }
    let snapped = if scaled < SNAP_EPSILON as u64 {
        0u64
    } else {
        scaled
    };
    if v < 0 {
        -(snapped as i64)
    } else {
        snapped as i64
    }
}

impl Speed {
    /// Bounded velocity and a friction coefficient in `(0, FRAC_ONE]`.
    pub open spec fn wf(self) -> bool {
        &&& -VEL_LIMIT <= self.velocity.x <= VEL_LIMIT
        &&& -VEL_LIMIT <= self.velocity.y <= VEL_LIMIT
        &&& 0 < self.friction <= FRAC_ONE
    }

    /// The effective velocity consumed by the integrator.
    pub fn total_speed(&self) -> (v: IVec2)
        ensures
            v == self.velocity,
    {
        self.velocity
    }

    /// Damp both velocity components by the friction coefficient, snapping
    /// tiny magnitudes to zero to prevent drift.
    pub fn apply_friction(&mut self)
        requires
            old(self).wf(),
        ensures
            final(self).velocity.x == spec_damp(old(self).velocity.x as int, old(self).friction as int),
            final(self).velocity.y == spec_damp(old(self).velocity.y as int, old(self).friction as int),
            final(self).friction == old(self).friction,
            final(self).wf(),
    {
        self.velocity.x = damp_component(self.velocity.x, self.friction);
        self.velocity.y = damp_component(self.velocity.y, self.friction);
    }
}

impl Default for Speed {
    /// Zero velocity and the default friction coefficient.
    fn default() -> (s: Speed)
        ensures
            s.velocity.x == 0 && s.velocity.y == 0,
            s.friction == DEFAULT_FRICTION,
            s.wf(),
    {
        Speed { velocity: IVec2 { x: 0, y: 0 }, friction: DEFAULT_FRICTION }
    }
}

/// Friction strictly shrinks a nonzero velocity component whenever the
/// coefficient is below `FRAC_ONE`.
pub proof fn lemma_friction_strictly_decreases(v: int, f: int)
    requires
        v != 0,
        0 < f < FRAC_ONE,
    ensures
        abs(spec_damp(v, f)) < abs(v),
{
    let m = abs(v) as int;
    lemma_mul_strict_inequality(f, FRAC_ONE as int, m);
    vstd::arithmetic::mul::lemma_mul_is_commutative(f, m);
    vstd::arithmetic::mul::lemma_mul_is_commutative(FRAC_ONE as int, m);
    lemma_multiply_divide_lt(m * f, FRAC_ONE as int, m);
}

/// `n` successive friction applications to one velocity component.
pub open spec fn spec_damp_iter(v: int, f: int, n: nat) -> int
    decreases n,
{
    if n == 0 {
        v
    } else {
        spec_damp_iter(spec_damp(v, f), f, (n - 1) as nat)
    }
}

/// Finite-time convergence of friction: a component of magnitude `m` is
/// exactly zero after at most `m` applications — each application shrinks a
/// nonzero magnitude by at least one unit, and zero stays zero.
pub proof fn lemma_friction_converges(v: int, f: int, n: nat)
    requires
        0 < f < FRAC_ONE,
        abs(v) <= n,
    ensures
        spec_damp_iter(v, f, n) == 0,
    decreases n,
{
    if v == 0 {
        if n > 0 {
            assert(spec_damp(0, f) == 0) by {
                vstd::arithmetic::mul::lemma_mul_basics(f);
                vstd::arithmetic::div_mod::lemma_div_of0(FRAC_ONE as int);
            }
            lemma_friction_converges(0, f, (n - 1) as nat);
        }
    } else {
        lemma_friction_strictly_decreases(v, f);
        lemma_friction_converges(spec_damp(v, f), f, (n - 1) as nat);
    }
}

/// Normalizing an already normalized position changes nothing: the carry is
/// zero and the offset is its own remainder.
pub proof fn lemma_normalize_idempotent(cell: int, frac: int)
    requires
        0 <= frac < FRAC_ONE,
    ensures
        norm_cell(cell, frac) == cell,
        norm_frac(frac) == frac,
{
    lemma_fundamental_div_mod(frac, FRAC_ONE as int);
    vstd::arithmetic::div_mod::lemma_small_div_converse(frac, FRAC_ONE as int);
    vstd::arithmetic::div_mod::lemma_small_mod(frac as nat, FRAC_ONE as nat);
}

/// Per-entity constant acceleration in units per step, added to the velocity
/// once per step while the entity holds no live on-ground marker.
#[derive(Clone, Copy, Debug, PartialEq, Eq, Structural)]
pub struct Gravity(pub IVec2);

impl Default for Gravity {
    /// No acceleration.
    fn default() -> (g: Gravity)
        ensures
            g.0.x == 0 && g.0.y == 0,
    {
        Gravity(IVec2 { x: 0, y: 0 })
    }
}

/// Why a step was skipped for an entity.
#[derive(Clone, Copy, Debug, PartialEq, Eq, Structural)]
pub enum StepError {
    /// No loaded level's bounding box contains the entity's current cell.
    NoLevel,
}

/// Truncating division (rounding toward zero on both signs), the division
/// the solver uses to split a velocity over the sub-steps.
pub open spec fn div_trunc(v: int, d: int) -> int {
    if v >= 0 {
        v / d
    } else {
        -((-v) / d)
    }
}

/// Truncating division of a velocity component by the sub-step count.
fn div_trunc_by(v: i64, d: u64) -> (r: i64)
    requires
        1 <= d,
        -VEL_LIMIT <= v <= VEL_LIMIT,
    ensures
        r == div_trunc(v as int, d as int),
        abs(r as int) == abs(v as int) as int / (d as int),
        abs(r as int) <= abs(v as int),
{
    proof {
        vstd::arithmetic::div_mod::lemma_div_nonincreasing(abs(v as int) as int, d as int);
    }
    if v >= 0 {
        ((v as u64) / d) as i64
    } else {
        let m = (-v) as u64;
        -((m / d) as i64)
    }
}

/// Number of sub-steps for one integrator step: the ceiling of
/// `|vx| + 5 * |vy|` in cells. Vertical motion sub-steps five times more
/// finely, because landing precision is the most sensitive collision.
/// Zero exactly when the velocity is zero.
pub open spec fn spec_step_count(vx: int, vy: int) -> int {
    (abs(vx) + 5 * abs(vy) + (FRAC_ONE - 1)) as int / (FRAC_ONE as int)
}

/// Compute the sub-step count of a velocity.
pub fn step_count(v: IVec2) -> (n: u64)
    requires
        -VEL_LIMIT <= v.x <= VEL_LIMIT,
        -VEL_LIMIT <= v.y <= VEL_LIMIT,
    ensures
        n == spec_step_count(v.x as int, v.y as int),
        n <= 1201,
        n == 0 <==> v.x == 0 && v.y == 0,
{
    let ax: u64 = if v.x < 0 {
        (-v.x) as u64
    } else {
        v.x as u64
    };
    let ay: u64 = if v.y < 0 {
        (-v.y) as u64
    } else {
        v.y as u64
    };
    let numer = ax + 5 * ay + (FRAC_ONE as u64 - 1);
    proof {
        vstd::arithmetic::div_mod::lemma_div_is_ordered(numer as int, 12_009_999, FRAC_ONE as int);
        if ax + ay > 0 {
            vstd::arithmetic::div_mod::lemma_div_is_ordered(
                FRAC_ONE as int,
                numer as int,
                FRAC_ONE as int,
            );
            vstd::arithmetic::div_mod::lemma_div_by_self(FRAC_ONE as int);
        } else {
            vstd::arithmetic::div_mod::lemma_basic_div(FRAC_ONE - 1, FRAC_ONE as int);
        }
    }
    numer / (FRAC_ONE as u64)
}

/// Ghost state of one entity between sub-steps: exact cell, offset,
/// velocity, and whether any sub-step so far ended in a landing.
pub struct SubstepState {
    pub cell_x: int,
    pub cell_y: int,
    pub frac_x: int,
    pub frac_y: int,
    pub vel_x: int,
    pub vel_y: int,
    pub landed: bool,
}

/// One sub-step of the solver: advance the offset by `velocity / steps`,
/// resolve each axis against the neighbouring cells (clamping penetration
/// and zeroing the offending velocity component, recording a landing on
/// downward contact), then carry offset overflow into the cell.
pub open spec fn spec_substep(s: SubstepState, level: Level, steps: int) -> SubstepState {
    let fx = s.frac_x + div_trunc(s.vel_x, steps);
    let fy = s.frac_y + div_trunc(s.vel_y, steps);
    let hit_right = s.vel_x != 0 && level.spec_is_solid(s.cell_x + 1, s.cell_y) && fx
        >= HIGH_CLAMP;
    let fx1 = if hit_right {
        HIGH_CLAMP as int
    } else {
        fx
    };
    let vx1 = if hit_right {
        0int
    } else {
        s.vel_x
    };
    let hit_left = s.vel_x != 0 && level.spec_is_solid(s.cell_x - 1, s.cell_y) && fx1
        <= LOW_CLAMP;
    let fx2 = if hit_left {
        LOW_CLAMP as int
    } else {
        fx1
    };
    let vx2 = if hit_left {
        0int
    } else {
        vx1
    };
    let hit_ground = s.vel_y != 0 && level.spec_is_solid(s.cell_x, s.cell_y - 1) && fy <= 0;
    let fy1 = if hit_ground {
        0int
    } else {
        fy
    };
    let vy1 = if hit_ground {
        0int
    } else {
        s.vel_y
    };
    let hit_top = s.vel_y != 0 && level.spec_is_solid(s.cell_x, s.cell_y + 1) && fy1
        >= LOW_CLAMP;
    let fy2 = if hit_top {
        LOW_CLAMP as int
    } else {
        fy1
    };
    let vy2 = if hit_top {
        0int
    } else {
        vy1
    };
    SubstepState {
        cell_x: norm_cell(s.cell_x, fx2),
        cell_y: norm_cell(s.cell_y, fy2),
        frac_x: norm_frac(fx2),
        frac_y: norm_frac(fy2),
        vel_x: vx2,
        vel_y: vy2,
        landed: s.landed || hit_ground,
    }
}

/// `n` successive sub-steps.
pub open spec fn spec_substeps(s: SubstepState, level: Level, steps: int, n: nat) -> SubstepState
    decreases n,
{
    if n == 0 {
        s
    } else {
        spec_substeps(spec_substep(s, level, steps), level, steps, (n - 1) as nat)
    }
}

/// Running one more sub-step after `n` is the same as running `n` and then
/// one.
proof fn lemma_substeps_snoc(s: SubstepState, level: Level, steps: int, n: nat)
    ensures
        spec_substeps(s, level, steps, n + 1) == spec_substep(
            spec_substeps(s, level, steps, n),
            level,
            steps,
        ),
    decreases n,
{
    reveal_with_fuel(spec_substeps, 2);
    if n > 0 {
        lemma_substeps_snoc(spec_substep(s, level, steps), level, steps, (n - 1) as nat);
    }
}

/// Floor division of a non-positive numerator: dividing `-a` rounds away
/// from zero, to the negated ceiling of `a / d`.
proof fn lemma_div_neg_ceil(a: int, d: int)
    requires
        0 <= a,
        0 < d,
    ensures
        (-a) / d == -((a + d - 1) / d),
{
    let c = (a + d - 1) / d;
    lemma_fundamental_div_mod(a + d - 1, d);
    assert(0 <= -a - (-c) * d < d) by {
        assert((-c) * d == -(d * c)) by (nonlinear_arith);
    }
    lemma_fundamental_div_mod_converse(-a, d, -c, -a - (-c) * d);
}

/// Outcome of one full integrator step for one entity.
pub struct StepOutcome {
    pub cell_x: int,
    pub cell_y: int,
    pub frac_x: int,
    pub frac_y: int,
    pub vel_x: int,
    pub vel_y: int,
    pub markers: Map<Tag, Stamp>,
}

/// End state of one step's sub-step loop: gravity added to the velocity
/// unless a live on-ground marker suppresses it, then every sub-step run.
pub open spec fn spec_step_result(
    pos: Position,
    speed: Speed,
    gravity: Option<IVec2>,
    markers: Map<Tag, Stamp>,
    level: Level,
    now: u64,
) -> SubstepState {
    let grounded = spec_active(markers, Tag::OnGround, now);
    let gvx: int = match gravity {
        Some(g) => if grounded {
            0
        } else {
            g.x as int
        },
        None => 0,
    };
    let gvy: int = match gravity {
        Some(g) => if grounded {
            0
        } else {
            g.y as int
        },
        None => 0,
    };
    let vx0 = speed.velocity.x + gvx;
    let vy0 = speed.velocity.y + gvy;
    let steps = spec_step_count(vx0, vy0);
    let s0 = SubstepState {
        cell_x: pos.cell.x as int,
        cell_y: pos.cell.y as int,
        frac_x: pos.fraction.x as int,
        frac_y: pos.fraction.y as int,
        vel_x: vx0,
        vel_y: vy0,
        landed: false,
    };
    spec_substeps(s0, level, steps, (if steps >= 0 {
        steps
    } else {
        0
    }) as nat)
}

/// The whole step of the movement integrator on one entity, against one
/// level's collision layer: gravity when airborne, `ceil(|vx| + 5 |vy|)`
/// sub-steps of axis-separated collision resolution, a re-armed on-ground
/// marker when any sub-step landed, then friction damping.
pub open spec fn spec_apply_speed(
    pos: Position,
    speed: Speed,
    gravity: Option<IVec2>,
    markers: Map<Tag, Stamp>,
    level: Level,
    now: u64,
) -> StepOutcome {
    let s1 = spec_step_result(pos, speed, gravity, markers, level, now);
    StepOutcome {
        cell_x: s1.cell_x,
        cell_y: s1.cell_y,
        frac_x: s1.frac_x,
        frac_y: s1.frac_y,
        vel_x: spec_damp(s1.vel_x, speed.friction as int),
        vel_y: spec_damp(s1.vel_y, speed.friction as int),
        markers: if s1.landed {
            markers.insert(Tag::OnGround, Stamp { created_at: now, destroy_after: Some(ON_GROUND_MS) })
        } else {
            markers
        },
    }
}

/// One executable sub-step against a level's collision layer, mirroring
/// [`spec_substep`] exactly: advance, resolve both axes, stamp the
/// on-ground marker on downward contact, normalize.
fn substep_once(
    position: &mut Position,
    speed: &mut Speed,
    markers: &mut Markers,
    level: &Level,
    steps: u64,
    now: u64,
) -> (hit_ground: bool)
    requires
        level.wf(),
        1 <= steps,
        old(position).frac_normalized(),
        old(position).in_range(),
        -VEL_LIMIT <= old(speed).velocity.x <= VEL_LIMIT,
        -VEL_LIMIT <= old(speed).velocity.y <= VEL_LIMIT,
    ensures
        ({
            let st = SubstepState {
                cell_x: old(position).cell.x as int,
                cell_y: old(position).cell.y as int,
                frac_x: old(position).fraction.x as int,
                frac_y: old(position).fraction.y as int,
                vel_x: old(speed).velocity.x as int,
                vel_y: old(speed).velocity.y as int,
                landed: false,
            };
            let st2 = spec_substep(st, *level, steps as int);
            &&& final(position).cell.x == st2.cell_x
            &&& final(position).cell.y == st2.cell_y
            &&& final(position).fraction.x == st2.frac_x
            &&& final(position).fraction.y == st2.frac_y
            &&& final(speed).velocity.x == st2.vel_x
            &&& final(speed).velocity.y == st2.vel_y
            &&& hit_ground == st2.landed
        }),
        final(speed).friction == old(speed).friction,
        final(speed).velocity.x == old(speed).velocity.x || final(speed).velocity.x == 0,
        final(speed).velocity.y == old(speed).velocity.y || final(speed).velocity.y == 0,
        final(position).frac_normalized(),
        final(markers)@ == (if hit_ground {
            old(markers)@.insert(
                Tag::OnGround,
                Stamp { created_at: now, destroy_after: Some(ON_GROUND_MS) },
            )
        } else {
            old(markers)@
        }),
        ({
            let qx = abs(old(speed).velocity.x as int) as int / (steps as int);
            let bx = (qx + FRAC_ONE - 1) / (FRAC_ONE as int);
            old(position).cell.x - bx <= final(position).cell.x <= old(position).cell.x + bx
        }),
        ({
            let qy = abs(old(speed).velocity.y as int) as int / (steps as int);
            let by = (qy + FRAC_ONE - 1) / (FRAC_ONE as int);
            old(position).cell.y - by <= final(position).cell.y <= old(position).cell.y + by
        }),
{
    let ghost st = SubstepState {
        cell_x: old(position).cell.x as int,
        cell_y: old(position).cell.y as int,
        frac_x: old(position).fraction.x as int,
        frac_y: old(position).fraction.y as int,
        vel_x: old(speed).velocity.x as int,
        vel_y: old(speed).velocity.y as int,
        landed: false,
    };
    let ghost qx = abs(st.vel_x) as int / (steps as int);
    let ghost qy = abs(st.vel_y) as int / (steps as int);
    let ghost bx = (qx + FRAC_ONE - 1) / (FRAC_ONE as int);
    let ghost by = (qy + FRAC_ONE - 1) / (FRAC_ONE as int);
    proof {
        lemma_div_pos_is_pos(abs(st.vel_x) as int, steps as int);
        lemma_div_pos_is_pos(abs(st.vel_y) as int, steps as int);
        lemma_div_pos_is_pos(qx + FRAC_ONE - 1, FRAC_ONE as int);
        lemma_div_pos_is_pos(qy + FRAC_ONE - 1, FRAC_ONE as int);
    }

    let dx = div_trunc_by(speed.velocity.x, steps);
    let dy = div_trunc_by(speed.velocity.y, steps);
    position.fraction.x = position.fraction.x + dx;
    position.fraction.y = position.fraction.y + dy;

    let mut hit_ground = false;
    if speed.velocity.x != 0 {
        if level.is_solid(position.cell.x + 1, position.cell.y) && position.fraction.x
            >= HIGH_CLAMP {
            position.fraction.x = HIGH_CLAMP;
            speed.velocity.x = 0;
        }
        if level.is_solid(position.cell.x - 1, position.cell.y) && position.fraction.x
            <= LOW_CLAMP {
            position.fraction.x = LOW_CLAMP;
            speed.velocity.x = 0;
        }
    }
    if speed.velocity.y != 0 {
        if level.is_solid(position.cell.x, position.cell.y - 1) && position.fraction.y <= 0 {
            position.fraction.y = 0;
            speed.velocity.y = 0;
            markers.add_marker_for(Tag::OnGround, ON_GROUND_MS, now);
            hit_ground = true;
        }
        if level.is_solid(position.cell.x, position.cell.y + 1) && position.fraction.y
            >= LOW_CLAMP {
            position.fraction.y = LOW_CLAMP;
            speed.velocity.y = 0;
        }
    }

    let ghost fx2 = position.fraction.x as int;
    let ghost fy2 = position.fraction.y as int;
    proof {
        // The offset entering normalize stays within one velocity quantum of
        // the normalized band, so the carry is at most bx (resp. by) cells.
        vstd::arithmetic::div_mod::lemma_div_of0(steps as int);
        assert(-qx <= fx2 <= FRAC_ONE - 1 + qx);
        assert(-qy <= fy2 <= FRAC_ONE - 1 + qy);
        lemma_div_is_ordered(fx2, qx + FRAC_ONE - 1, FRAC_ONE as int);
        lemma_div_is_ordered(-qx, fx2, FRAC_ONE as int);
        lemma_div_neg_ceil(qx, FRAC_ONE as int);
        lemma_div_is_ordered(fy2, qy + FRAC_ONE - 1, FRAC_ONE as int);
        lemma_div_is_ordered(-qy, fy2, FRAC_ONE as int);
        lemma_div_neg_ceil(qy, FRAC_ONE as int);
    }
    position.normalize();
    proof {
        let st2 = spec_substep(st, *level, steps as int);
        assert(position.cell.x == st2.cell_x);
        assert(position.cell.y == st2.cell_y);
        assert(position.fraction.x == st2.frac_x);
        assert(position.fraction.y == st2.frac_y);
        assert(speed.velocity.x == st2.vel_x);
        assert(speed.velocity.y == st2.vel_y);
        assert(hit_ground == st2.landed);
    }
    hit_ground
}

/// Whether a step's sub-step loop lands at least once: some sub-step clamps
/// the offset to the floor with downward velocity against a solid cell.
pub open spec fn spec_step_landed(
    pos: Position,
    speed: Speed,
    gravity: Option<IVec2>,
    markers: Map<Tag, Stamp>,
    level: Level,
    now: u64,
) -> bool {
    spec_step_result(pos, speed, gravity, markers, level, now).landed
}

/// Ground marker re-arm: a step that lands leaves the on-ground tag live
/// for exactly the next [`ON_GROUND_MS`](crate::ON_GROUND_MS) milliseconds
/// of simulated time — present up to the last millisecond of the window,
/// absent from the first one after it, however the tag stood before.
pub proof fn lemma_ground_rearm(
    pos: Position,
    speed: Speed,
    gravity: Option<IVec2>,
    markers: Map<Tag, Stamp>,
    level: Level,
    now: u64,
    t: u64,
)
    requires
        spec_step_landed(pos, speed, gravity, markers, level, now),
    ensures
        spec_active(
            spec_apply_speed(pos, speed, gravity, markers, level, now).markers,
            Tag::OnGround,
            t,
        ) <==> (t as int) < now + ON_GROUND_MS,
{
}

/// While the entity holds a live on-ground marker, gravity contributes
/// nothing: the step's outcome is the same as with no gravity at all.
pub proof fn lemma_gravity_suppressed_when_grounded(
    pos: Position,
    speed: Speed,
    g: IVec2,
    markers: Map<Tag, Stamp>,
    level: Level,
    now: u64,
)
    requires
        spec_active(markers, Tag::OnGround, now),
    ensures
        spec_apply_speed(pos, speed, Some(g), markers, level, now) == spec_apply_speed(
            pos,
            speed,
            None,
            markers,
            level,
            now,
        ),
{
}

/// Bound on the total cell drift of the sub-step loop along one axis: each
/// of the `steps` sub-steps carries at most `b` cells, and `steps * b` is at
/// most `steps` single-cell carries plus the whole velocity in cells.
proof fn lemma_substep_drift_bound(v: int, steps: int)
    requires
        1 <= steps,
        -VEL_LIMIT <= v <= VEL_LIMIT,
    ensures
        0 <= abs(v) as int / steps,
        0 <= ((abs(v) as int / steps) + FRAC_ONE - 1) / (FRAC_ONE as int),
        steps * (((abs(v) as int / steps) + FRAC_ONE - 1) / (FRAC_ONE as int)) <= steps + 200,
{
    let q = abs(v) as int / steps;
    let f = FRAC_ONE as int;
    let b = (q + f - 1) / f;
    lemma_div_pos_is_pos(abs(v) as int, steps);
    lemma_div_pos_is_pos(q + f - 1, f);
    lemma_div_is_ordered(q + f - 1, q + f, f);
    vstd::arithmetic::div_mod::lemma_div_plus_one(q, f);
    assert(b <= 1 + q / f);
    lemma_mul_inequality(b, 1 + q / f, steps);
    vstd::arithmetic::mul::lemma_mul_is_commutative(b, steps);
    vstd::arithmetic::mul::lemma_mul_is_commutative(1 + q / f, steps);
    assert(steps * (1 + q / f) == steps + steps * (q / f)) by (nonlinear_arith);
    vstd::arithmetic::div_mod::lemma_mul_hoist_inequality(steps, q, f);
    lemma_fundamental_div_mod(abs(v) as int, steps);
    vstd::arithmetic::div_mod::lemma_mod_division_less_than_divisor(abs(v) as int, steps);
    assert(steps * q <= abs(v) as int);
    lemma_div_is_ordered(steps * q, abs(v) as int, f);
    lemma_div_is_ordered(abs(v) as int, VEL_LIMIT as int, f);
}

/// One full integrator step for one entity, on a fixed cadence: locate the
/// level whose bounds contain the entity's cell (skipping the entity
/// untouched when none does), add gravity to the velocity unless a live
/// on-ground marker suppresses it, run the sub-stepped collision loop, and
/// finally damp the velocity by friction. The outcome is exactly
/// [`spec_apply_speed`] on the level the lookup found.
#[verifier::loop_isolation(false)]
#[verifier::rlimit(60)]
pub fn apply_speed(
    position: &mut Position,
    speed: &mut Speed,
    gravity: Option<&Gravity>,
    markers: &mut Markers,
    levels: &Vec<Level>,
    now: u64,
) -> (r: Result<(), StepError>)
    requires
        old(position).wf(),
        old(speed).wf(),
        forall|j: int| 0 <= j < levels@.len() ==> (#[trigger] levels@[j]).wf(),
        (match gravity {
            Some(g) => spec_active(old(markers)@, Tag::OnGround, now)
                || (-VEL_LIMIT <= old(speed).velocity.x + g.0.x <= VEL_LIMIT
                    && -VEL_LIMIT <= old(speed).velocity.y + g.0.y <= VEL_LIMIT),
            None => true,
        }),
    ensures
        r is Ok <==> spec_find_level(
            levels@,
            old(position).cell.x as int,
            old(position).cell.y as int,
        ) is Some,
        r is Err ==> *final(position) == *old(position) && *final(speed) == *old(speed)
            && final(markers)@ == old(markers)@,
        (match spec_find_level(
            levels@,
            old(position).cell.x as int,
            old(position).cell.y as int,
        ) {
            Some(i) => ({
                let out = spec_apply_speed(
                    *old(position),
                    *old(speed),
                    match gravity {
                        Some(g) => Some(g.0),
                        None => None,
                    },
                    old(markers)@,
                    levels@[i],
                    now,
                );
                &&& final(position).cell.x == out.cell_x
                &&& final(position).cell.y == out.cell_y
                &&& final(position).fraction.x == out.frac_x
                &&& final(position).fraction.y == out.frac_y
                &&& final(speed).velocity.x == out.vel_x
                &&& final(speed).velocity.y == out.vel_y
                &&& final(markers)@ == out.markers
            }),
            None => true,
        }),
        final(speed).friction == old(speed).friction,
        final(position).wf(),
        final(speed).wf(),
{
    let idx = match find_level(levels, position.cell) {
        Some(i) => i,
        None => {
            return Err(StepError::NoLevel);
        },
    };
    let level = &levels[idx];
    let ghost lvl = levels@[idx as int];

    let grounded = markers.contains(Tag::OnGround, now);
    match gravity {
        Some(g) => {
            if !grounded {
                speed.velocity.x = speed.velocity.x + g.0.x;
                speed.velocity.y = speed.velocity.y + g.0.y;
            }
        },
        None => {},
    }
    let ghost vx0 = speed.velocity.x as int;
    let ghost vy0 = speed.velocity.y as int;
    assert(-VEL_LIMIT <= vx0 <= VEL_LIMIT && -VEL_LIMIT <= vy0 <= VEL_LIMIT);

    let steps = step_count(speed.velocity);
    let ghost stepsi = steps as int;
    let ghost s0 = SubstepState {
        cell_x: position.cell.x as int,
        cell_y: position.cell.y as int,
        frac_x: position.fraction.x as int,
        frac_y: position.fraction.y as int,
        vel_x: vx0,
        vel_y: vy0,
        landed: false,
    };
    let ghost qx = abs(vx0) as int / stepsi;
    let ghost qy = abs(vy0) as int / stepsi;
    let ghost bx = (qx + FRAC_ONE - 1) / (FRAC_ONE as int);
    let ghost by = (qy + FRAC_ONE - 1) / (FRAC_ONE as int);
    let ghost ground_stamp = Stamp { created_at: now, destroy_after: Some(ON_GROUND_MS) };

    proof {
        // The entity starts inside the found level, so its cell is within
        // one level of the origin limit.
        assert(-CELL_LIMIT - 0xffff <= s0.cell_x <= CELL_LIMIT + 0xffff);
        assert(-CELL_LIMIT - 0xffff <= s0.cell_y <= CELL_LIMIT + 0xffff);
        if steps >= 1 {
            // Over the whole loop the cell can drift at most steps + 200
            // cells per axis: steps carries of one cell, plus the whole
            // velocity spread over the sub-steps.
            lemma_substep_drift_bound(vx0, stepsi);
            lemma_substep_drift_bound(vy0, stepsi);
        }
    }

    let mut i: u64 = 0;
    while i < steps
        invariant
            i <= steps,
            speed.friction == old(speed).friction,
            ({
                let st = spec_substeps(s0, lvl, stepsi, i as nat);
                &&& position.cell.x == st.cell_x
                &&& position.cell.y == st.cell_y
                &&& position.fraction.x == st.frac_x
                &&& position.fraction.y == st.frac_y
                &&& speed.velocity.x == st.vel_x
                &&& speed.velocity.y == st.vel_y
                &&& (st.vel_x == vx0 || st.vel_x == 0)
                &&& (st.vel_y == vy0 || st.vel_y == 0)
                &&& 0 <= st.frac_x < FRAC_ONE
                &&& 0 <= st.frac_y < FRAC_ONE
                &&& s0.cell_x - i * bx <= st.cell_x <= s0.cell_x + i * bx
                &&& s0.cell_y - i * by <= st.cell_y <= s0.cell_y + i * by
                &&& markers@ == (if st.landed {
                    old(markers)@.insert(Tag::OnGround, ground_stamp)
                } else {
                    old(markers)@
                })
            }),
        decreases steps - i,
    {
        let ghost st = spec_substeps(s0, lvl, stepsi, i as nat);
        proof {
            lemma_mul_inequality(i as int, stepsi, bx);
            lemma_mul_inequality(i as int, stepsi, by);
            vstd::arithmetic::mul::lemma_mul_is_commutative(i as int, bx);
            vstd::arithmetic::mul::lemma_mul_is_commutative(stepsi, bx);
            vstd::arithmetic::mul::lemma_mul_is_commutative(i as int, by);
            vstd::arithmetic::mul::lemma_mul_is_commutative(stepsi, by);
            vstd::arithmetic::mul::lemma_mul_nonnegative(i as int, bx);
            vstd::arithmetic::mul::lemma_mul_nonnegative(i as int, by);
        }
        let hit_ground = substep_once(position, speed, markers, level, steps, now);
        proof {
            lemma_substeps_snoc(s0, lvl, stepsi, i as nat);
            let st2 = spec_substeps(s0, lvl, stepsi, (i + 1) as nat);
            // The sub-step's own drift stays within the loop bound: its
            // velocity is the initial one or already zero.
            if st.vel_x == 0 {
                vstd::arithmetic::div_mod::lemma_div_of0(stepsi);
                vstd::arithmetic::div_mod::lemma_div_of0(FRAC_ONE as int);
                lemma_div_is_ordered(0, qx + FRAC_ONE - 1, FRAC_ONE as int);
                assert((0 + FRAC_ONE - 1) as int / (FRAC_ONE as int) >= 0) by {
                    lemma_div_pos_is_pos(FRAC_ONE - 1, FRAC_ONE as int);
                }
            }
            if st.vel_y == 0 {
                vstd::arithmetic::div_mod::lemma_div_of0(stepsi);
                vstd::arithmetic::div_mod::lemma_div_of0(FRAC_ONE as int);
                lemma_div_is_ordered(0, qy + FRAC_ONE - 1, FRAC_ONE as int);
                assert((0 + FRAC_ONE - 1) as int / (FRAC_ONE as int) >= 0) by {
                    lemma_div_pos_is_pos(FRAC_ONE - 1, FRAC_ONE as int);
                }
            }
            assert((i + 1) * bx == i * bx + bx) by (nonlinear_arith);
            assert((i + 1) * by == i * by + by) by (nonlinear_arith);
            if st.landed && st2.landed && hit_ground {
                assert(old(markers)@.insert(Tag::OnGround, ground_stamp).insert(
                    Tag::OnGround,
                    ground_stamp,
                ) =~= old(markers)@.insert(Tag::OnGround, ground_stamp));
            }
        }
        i = i + 1;
    }

    proof {
        let gopt: Option<IVec2> = match gravity {
            Some(g) => Some(g.0),
            None => None,
        };
        let sres = spec_step_result(*old(position), *old(speed), gopt, old(markers)@, lvl, now);
        assert(sres == spec_substeps(s0, lvl, stepsi, steps as nat));
    }
    speed.apply_friction();
    Ok(())
}

} // verus!
