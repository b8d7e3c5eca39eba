//! The per-axis tween state machine: an axis position is driven toward a
//! target direction at a fixed acceleration while a key is held, and decays
//! back toward rest under gravity once the key is released.
//!
//! All quantities are fixed-point: positions and directions are measured in
//! micro-units (`AXIS_UNIT` micro-units = an axis value of 1.0), rates in
//! micro-units per millisecond, and elapsed time in milliseconds.

use vstd::prelude::*;

verus! {

/// Number of micro-units in one axis unit: positions range over
/// `[-AXIS_UNIT, AXIS_UNIT]`, standing for `[-1.0, 1.0]`.
pub const AXIS_UNIT: i64 = 1_000_000;

/// Default acceleration: 4.0 axis units per second, as micro-units per
/// millisecond.
pub const DEFAULT_ACCELERATION: i64 = 4_000;

/// Default gravity: 3.0 axis units per second, as micro-units per millisecond.
pub const DEFAULT_GRAVITY: i64 = 3_000;

/// Upper bound on acceleration and gravity rates (1000 axis units per
/// second); keeps every step computation well inside `i64`.
pub const MAX_RATE: i64 = 1_000_000;

/// Tween state of one logical axis.
#[derive(Debug, PartialEq, Eq, Structural, Copy, Clone)]
pub struct AxisStatus {
    /// Where the axis currently is, in `[-AXIS_UNIT, AXIS_UNIT]` micro-units.
    pub position: i64,
    /// Where the axis is moving towards: `-AXIS_UNIT`, `0` or `AXIS_UNIT` for
    /// digital sources.
    pub direction: i64,
    /// Micro-units per millisecond that the position moves toward the target
    /// while `direction != 0`.
    pub acceleration: i64,
    /// Micro-units per millisecond that the position falls back toward 0
    /// while `direction == 0`.
    pub gravity: i64,
}

impl Default for AxisStatus {
    /// An axis as it is first created: at rest, with the default rates.
    fn default() -> (r: Self)
        ensures
            r == default_axis(),
    {
        AxisStatus {
            position: 0,
            direction: 0,
            acceleration: DEFAULT_ACCELERATION,
            gravity: DEFAULT_GRAVITY,
        }
    }
}

pub open spec fn magnitude(x: int) -> int {
    if x >= 0 { x } else { -x }
}

pub open spec fn min_int(a: int, b: int) -> int {
    if a <= b { a } else { b }
}

/// The state every axis is created with: at rest, with the default rates.
pub open spec fn default_axis() -> AxisStatus {
    AxisStatus {
        position: 0,
        direction: 0,
        acceleration: DEFAULT_ACCELERATION,
        gravity: DEFAULT_GRAVITY,
    }
}

/// Well-formedness of an axis state: the position is clamped to one unit
/// either way, the direction is one of the three digital values, and the
/// rates are positive and bounded.
pub open spec fn valid_axis(a: AxisStatus) -> bool {
    &&& -AXIS_UNIT <= a.position <= AXIS_UNIT
    &&& (a.direction == -AXIS_UNIT || a.direction == 0 || a.direction == AXIS_UNIT)
    &&& 0 < a.acceleration <= MAX_RATE
    &&& 0 < a.gravity <= MAX_RATE
}

/// New position while the axis is driven toward a non-zero direction: the
/// step is `acceleration * dt`, capped so the position never passes
/// `AXIS_UNIT` in magnitude, and applied with the sign of the direction.
pub open spec fn step_toward_target(a: AxisStatus, dt: int) -> int {
    let gap = AXIS_UNIT - magnitude(a.position as int);
    let step = min_int(a.acceleration * dt, gap);
    if a.direction > 0 {
        a.position + step
    } else {
        a.position - step
    }
}

/// New position while the axis is at rest target: the step is
/// `gravity * dt`, capped at the current magnitude so the position never
/// overshoots past 0, and applied toward 0.
pub open spec fn step_toward_rest(a: AxisStatus, dt: int) -> int {
    let step = min_int(a.gravity * dt, magnitude(a.position as int));
    if a.position > 0 {
        a.position - step
    } else {
        a.position + step
    }
}

pub open spec fn stepped_position(a: AxisStatus, dt: int) -> int {
    if a.direction != 0 {
        step_toward_target(a, dt)
    } else {
        step_toward_rest(a, dt)
    }
}

/// One `update(dt)` applied to a single axis: the position advances, all
/// other fields are unchanged.
pub open spec fn axis_step(a: AxisStatus, dt: int) -> AxisStatus {
    AxisStatus { position: stepped_position(a, dt) as i64, ..a }
}

/// A step with non-negative `dt` keeps an axis well formed.
pub proof fn lemma_step_valid(a: AxisStatus, dt: int)
    requires
        valid_axis(a),
        dt >= 0,
    ensures
        valid_axis(axis_step(a, dt)),
        axis_step(a, dt).direction == a.direction,
        axis_step(a, dt).acceleration == a.acceleration,
        axis_step(a, dt).gravity == a.gravity,
{
    assert(a.acceleration * dt >= 0) by (nonlinear_arith)
        requires
            a.acceleration > 0,
            dt >= 0,
    ;
    assert(a.gravity * dt >= 0) by (nonlinear_arith)
        requires
            a.gravity > 0,
            dt >= 0,
    ;
}

/// An `update(0)` call changes nothing.
pub proof fn lemma_step_zero_dt(a: AxisStatus)
    requires
        valid_axis(a),
    ensures
        axis_step(a, 0) == a,
{
}

/// An axis at rest position with no target stays exactly at rest: after a
/// reset, later updates do not move the axis until a new key event sets a
/// direction again.
pub proof fn lemma_rest_is_fixpoint(a: AxisStatus, dt: int)
    requires
        valid_axis(a),
        a.position == 0,
        a.direction == 0,
        dt >= 0,
    ensures
        axis_step(a, dt) == a,
{
    assert(a.gravity * dt >= 0) by (nonlinear_arith)
        requires
            a.gravity > 0,
            dt >= 0,
    ;
}

/// One driven step moves the position toward the target direction and never
/// past one unit; at the boundary it leaves the axis unchanged.
pub proof fn lemma_step_monotone(a: AxisStatus, dt: int)
    requires
        valid_axis(a),
        dt >= 0,
        a.direction != 0,
    ensures
        a.direction > 0 ==> axis_step(a, dt).position >= a.position,
        a.direction < 0 ==> axis_step(a, dt).position <= a.position,
        valid_axis(axis_step(a, dt)),
        a.direction > 0 && a.position == AXIS_UNIT ==> axis_step(a, dt) == a,
        a.direction < 0 && a.position == -AXIS_UNIT ==> axis_step(a, dt) == a,
{
    lemma_step_valid(a, dt);
    assert(a.acceleration * dt >= 0) by (nonlinear_arith)
        requires
            a.acceleration > 0,
            dt >= 0,
    ;
}

/// One resting step moves the position toward 0 and never past it.
pub proof fn lemma_step_decay(a: AxisStatus, dt: int)
    requires
        valid_axis(a),
        dt >= 0,
        a.direction == 0,
    ensures
        a.position >= 0 ==> 0 <= axis_step(a, dt).position <= a.position,
        a.position <= 0 ==> a.position <= axis_step(a, dt).position <= 0,
        valid_axis(axis_step(a, dt)),
{
    lemma_step_valid(a, dt);
    assert(a.gravity * dt >= 0) by (nonlinear_arith)
        requires
            a.gravity > 0,
            dt >= 0,
    ;
}

/// The axis state after a whole sequence of `update` calls, one per entry of
/// `dts` (each an elapsed time in milliseconds), applied left to right.
pub open spec fn run_updates(a: AxisStatus, dts: Seq<int>) -> AxisStatus
    decreases dts.len(),
{
    if dts.len() == 0 {
        a
    } else {
        axis_step(run_updates(a, dts.drop_last()), dts.last())
    }
}

pub open spec fn all_nonneg(dts: Seq<int>) -> bool {
    forall|i: int| 0 <= i < dts.len() ==> dts[i] >= 0
}

/// A sequence of updates with non-negative elapsed times keeps an axis well
/// formed and touches nothing but its position.
pub proof fn lemma_run_updates_valid(a: AxisStatus, dts: Seq<int>)
    requires
        valid_axis(a),
        all_nonneg(dts),
    ensures
        valid_axis(run_updates(a, dts)),
        run_updates(a, dts).direction == a.direction,
        run_updates(a, dts).acceleration == a.acceleration,
        run_updates(a, dts).gravity == a.gravity,
    decreases dts.len(),
{
    if dts.len() > 0 {
        assert(all_nonneg(dts.drop_last())) by {
            assert(forall|i: int|
                0 <= i < dts.drop_last().len() ==> #[trigger] dts.drop_last()[i] == dts[i]);
        }
        lemma_run_updates_valid(a, dts.drop_last());
        lemma_step_valid(run_updates(a, dts.drop_last()), dts.last());
    }
}

/// One more update appended to a sequence is one more step.
proof fn lemma_run_updates_snoc(a: AxisStatus, dts: Seq<int>, i: int)
    requires
        0 <= i < dts.len(),
    ensures
        run_updates(a, dts.take(i + 1)) == axis_step(run_updates(a, dts.take(i)), dts[i]),
{
    assert(dts.take(i + 1).drop_last() =~= dts.take(i));
    assert(dts.take(i + 1).last() == dts[i]);
}

proof fn lemma_take_nonneg(dts: Seq<int>, i: int)
    requires
        all_nonneg(dts),
        0 <= i <= dts.len(),
    ensures
        all_nonneg(dts.take(i)),
{
    assert(forall|j: int| 0 <= j < dts.take(i).len() ==> #[trigger] dts.take(i)[j] == dts[j]);
}

/// Positions after two prefixes of a driven run, ordered toward the target.
proof fn lemma_monotone_between(a: AxisStatus, dts: Seq<int>, i: int, j: int)
    requires
        valid_axis(a),
        all_nonneg(dts),
        a.direction != 0,
        0 <= i <= j <= dts.len(),
    ensures
        a.direction > 0 ==> run_updates(a, dts.take(i)).position <= run_updates(
            a,
            dts.take(j),
        ).position,
        a.direction < 0 ==> run_updates(a, dts.take(j)).position <= run_updates(
            a,
            dts.take(i),
        ).position,
    decreases j - i,
{
    if i < j {
        lemma_monotone_between(a, dts, i, j - 1);
        lemma_take_nonneg(dts, j - 1);
        lemma_run_updates_valid(a, dts.take(j - 1));
        lemma_run_updates_snoc(a, dts, j - 1);
        lemma_step_monotone(run_updates(a, dts.take(j - 1)), dts[j - 1]);
    }
}

/// For every sequence of `update` calls with non-negative elapsed times and
/// a constant non-zero direction, the position moves monotonically toward
/// the target and never leaves one unit either way: after any two prefixes
/// of the run, the later position is no farther from the target, and every
/// intermediate position is clamped.
pub proof fn lemma_updates_monotone(a: AxisStatus, dts: Seq<int>)
    requires
        valid_axis(a),
        all_nonneg(dts),
        a.direction != 0,
    ensures
        forall|i: int, j: int|
            0 <= i <= j <= dts.len() ==> {
                &&& a.direction > 0 ==> run_updates(a, #[trigger] dts.take(i)).position
                    <= run_updates(a, #[trigger] dts.take(j)).position
                &&& a.direction < 0 ==> run_updates(a, dts.take(j)).position <= run_updates(
                    a,
                    dts.take(i),
                ).position
            },
        forall|i: int|
            0 <= i <= dts.len() ==> -AXIS_UNIT <= run_updates(a, #[trigger] dts.take(i)).position
                <= AXIS_UNIT,
{
    assert forall|i: int, j: int| 0 <= i <= j <= dts.len() implies {
        &&& a.direction > 0 ==> run_updates(a, #[trigger] dts.take(i)).position <= run_updates(
            a,
            #[trigger] dts.take(j),
        ).position
        &&& a.direction < 0 ==> run_updates(a, dts.take(j)).position <= run_updates(
            a,
            dts.take(i),
        ).position
    } by {
        lemma_monotone_between(a, dts, i, j);
    }
    assert forall|i: int| 0 <= i <= dts.len() implies -AXIS_UNIT <= run_updates(
        a,
        #[trigger] dts.take(i),
    ).position <= AXIS_UNIT by {
        lemma_take_nonneg(dts, i);
        lemma_run_updates_valid(a, dts.take(i));
    }
}

/// Position after a prefix of a resting run, still between rest and the
/// starting position.
proof fn lemma_decay_from_start(a: AxisStatus, dts: Seq<int>, i: int)
    requires
        valid_axis(a),
        all_nonneg(dts),
        a.direction == 0,
        0 <= i <= dts.len(),
    ensures
        a.position >= 0 ==> 0 <= run_updates(a, dts.take(i)).position <= a.position,
        a.position <= 0 ==> a.position <= run_updates(a, dts.take(i)).position <= 0,
    decreases i,
{
    if i > 0 {
        lemma_decay_from_start(a, dts, i - 1);
        lemma_take_nonneg(dts, i - 1);
        lemma_run_updates_valid(a, dts.take(i - 1));
        lemma_run_updates_snoc(a, dts, i - 1);
        lemma_step_decay(run_updates(a, dts.take(i - 1)), dts[i - 1]);
    }
}

/// Magnitudes after two prefixes of a resting run, ordered toward rest.
proof fn lemma_decay_between(a: AxisStatus, dts: Seq<int>, i: int, j: int)
    requires
        valid_axis(a),
        all_nonneg(dts),
        a.direction == 0,
        0 <= i <= j <= dts.len(),
    ensures
        a.position >= 0 ==> 0 <= run_updates(a, dts.take(j)).position <= run_updates(
            a,
            dts.take(i),
        ).position,
        a.position <= 0 ==> run_updates(a, dts.take(i)).position <= run_updates(
            a,
            dts.take(j),
        ).position <= 0,
    decreases j - i,
{
    if i == j {
        lemma_decay_from_start(a, dts, i);
    } else {
        lemma_decay_between(a, dts, i, j - 1);
        lemma_take_nonneg(dts, j - 1);
        lemma_run_updates_valid(a, dts.take(j - 1));
        lemma_run_updates_snoc(a, dts, j - 1);
        lemma_step_decay(run_updates(a, dts.take(j - 1)), dts[j - 1]);
    }
}

/// For every sequence of `update` calls with non-negative elapsed times on
/// an axis at rest target, the position moves monotonically toward 0 and
/// never overshoots past 0.
pub proof fn lemma_updates_decay(a: AxisStatus, dts: Seq<int>)
    requires
        valid_axis(a),
        all_nonneg(dts),
        a.direction == 0,
    ensures
        forall|i: int, j: int|
            0 <= i <= j <= dts.len() ==> {
                &&& a.position >= 0 ==> 0 <= run_updates(a, #[trigger] dts.take(j)).position
                    <= run_updates(a, #[trigger] dts.take(i)).position
                &&& a.position <= 0 ==> run_updates(a, dts.take(i)).position <= run_updates(
                    a,
                    dts.take(j),
                ).position <= 0
            },
{
    assert forall|i: int, j: int| 0 <= i <= j <= dts.len() implies {
        &&& a.position >= 0 ==> 0 <= run_updates(a, #[trigger] dts.take(j)).position
            <= run_updates(a, #[trigger] dts.take(i)).position
        &&& a.position <= 0 ==> run_updates(a, dts.take(i)).position <= run_updates(
            a,
            dts.take(j),
        ).position <= 0
    } by {
        lemma_decay_between(a, dts, i, j);
    }
}

} // verus!
