//! The curve engine: turns the deflection of an axis into pointer movement.
//!
//! Each sample travels a distance proportional to its deflection. The engine
//! adds that distance to what it carries, hands out as many whole output
//! units as the carried distance holds, and keeps the rest. How much distance
//! makes one unit is decided, sample by sample, by the response curve.
//!
//! Distances are counted in 255ths of the unit that the configuration is
//! written in, so that a deflection of `n` steps and a sensitivity of `dpi`
//! travel exactly `n * dpi`.

use vstd::prelude::*;
use vstd::arithmetic::div_mod::lemma_fundamental_div_mod;
use vstd::arithmetic::div_mod::lemma_fundamental_div_mod_converse;
use vstd::arithmetic::div_mod::lemma_mod_bound;
use crate::config::AxisMouseConfig;
use crate::config::MouseMode;

verus! {

/// No distance per unit, and no carried remainder, reaches this magnitude.
pub const DISTANCE_LIMIT: i32 = 0x4000_0000;

/// `|v|`
pub open spec fn magnitude(v: int) -> int {
    if v < 0 {
        -v
    } else {
        v
    }
}

/// The sign of `v`: -1, 0 or 1.
pub open spec fn signum(v: int) -> int {
    if v > 0 {
        1
    } else if v < 0 {
        -1
    } else {
        0
    }
}

/// The quotient of `a` by `b`, rounded toward zero.
pub open spec fn trunc_div(a: int, b: int) -> int {
    if (a < 0) == (b < 0) {
        magnitude(a) / magnitude(b)
    } else {
        -(magnitude(a) / magnitude(b))
    }
}

/// What the division rounded toward zero leaves: it has the sign of `a`.
pub open spec fn trunc_rem(a: int, b: int) -> int {
    if a < 0 {
        -(magnitude(a) % magnitude(b))
    } else {
        magnitude(a) % magnitude(b)
    }
}

/// Constant curve: the configured distance, whatever the deflection.
pub open spec fn constant_distance(c: int) -> int {
    255 * c
}

/// Linear curve: `(1 - |f|) * m + bias * sign(m)` at a deflection of
/// `sample` steps.
pub open spec fn linear_distance(m: int, bias: int, sample: int) -> int {
    (255 - magnitude(sample)) * m + 255 * bias * signum(m)
}

/// The tabulated sigmoid at a deflection of `sample` steps.
pub open spec fn coefficient_at(table: Seq<i16>, sample: int) -> int {
    if table.len() == 0 {
        0
    } else if magnitude(sample) < table.len() {
        table[magnitude(sample)] as int
    } else {
        table[table.len() - 1] as int
    }
}

/// A coefficient cut to [0, 1], that is to 0..=255 steps.
pub open spec fn clamp_unit(coefficient: int) -> int {
    if coefficient < 0 {
        0
    } else if coefficient > 255 {
        255
    } else {
        coefficient
    }
}

/// Logistic curve: the coefficient, cut to [0, 1], times the target
/// distance; where that is nearer to zero than `floor`, `floor` itself, with
/// the sign of the target.
pub open spec fn logistic_distance(target: int, floor: int, coefficient: int) -> int {
    let scaled = clamp_unit(coefficient) * target;
    if magnitude(scaled) < 255 * floor {
        if target < 0 {
            -(255 * floor)
        } else {
            255 * floor
        }
    } else {
        scaled
    }
}

/// The distance that a sample of `sample` steps travels at sensitivity `dpi`.
pub open spec fn raw_distance(dpi: int, sample: int) -> int {
    sample * dpi
}

impl MouseMode {
    /// The distance that makes one output unit at a deflection of `sample`
    /// steps.
    pub open spec fn spec_distance_per_unit(self, sample: int) -> int {
        match self {
            MouseMode::Constant(c) => constant_distance(c as int),
            MouseMode::Linear { m, bias } => linear_distance(m as int, bias as int, sample),
            MouseMode::Logistic { target, floor, coefficients } => logistic_distance(
                target as int,
                floor as int,
                coefficient_at(coefficients@, sample),
            ),
        }
    }
}

impl AxisMouseConfig {
    /// Whether a sample lies inside the deadzone of the curve.
    pub open spec fn gated(self, sample: int) -> bool {
        magnitude(sample) < self.deadzone
    }

    /// Whether a sample leaves the engine untouched: it lies inside the
    /// deadzone, or the curve gives no distance to divide by.
    pub open spec fn idle(self, sample: int) -> bool {
        self.gated(sample) || self.dots_per_pixel.spec_distance_per_unit(sample) == 0
    }

    /// The output units that a sample yields from an engine that carries
    /// `remainder`.
    pub open spec fn units(self, remainder: int, sample: int) -> int {
        if self.idle(sample) {
            0
        } else {
            trunc_div(
                remainder + raw_distance(self.dpi as int, sample),
                self.dots_per_pixel.spec_distance_per_unit(sample),
            )
        }
    }

    /// What the engine carries after the sample.
    pub open spec fn carry(self, remainder: int, sample: int) -> int {
        if self.idle(sample) {
            remainder
        } else {
            trunc_rem(
                remainder + raw_distance(self.dpi as int, sample),
                self.dots_per_pixel.spec_distance_per_unit(sample),
            )
        }
    }
}

/// Division rounded toward zero loses nothing: quotient times divisor plus
/// remainder is the dividend, and the remainder is nearer to zero than the
/// divisor and never of the opposite sign to the dividend.
pub proof fn lemma_trunc_div_rem(a: int, b: int)
    requires
        b != 0,
    ensures
        a == trunc_div(a, b) * b + trunc_rem(a, b),
        magnitude(trunc_rem(a, b)) < magnitude(b),
        a >= 0 ==> trunc_rem(a, b) >= 0,
        a <= 0 ==> trunc_rem(a, b) <= 0,
        magnitude(trunc_div(a, b)) <= magnitude(a),
{
    let ma = magnitude(a);
    let mb = magnitude(b);
    let q = ma / mb;
    let r = ma % mb;
    lemma_fundamental_div_mod(ma, mb);
    lemma_mod_bound(ma, mb);
    assert(ma == mb * q + r);
    assert(0 <= q <= ma) by (nonlinear_arith)
        requires
            ma == mb * q + r,
            0 <= r < mb,
            0 <= ma,
    ;
    assert(trunc_div(a, b) * b == if a < 0 {
        -(mb * q)
    } else {
        mb * q
    }) by (nonlinear_arith)
        requires
            b != 0,
            mb == magnitude(b),
            trunc_div(a, b) == if (a < 0) == (b < 0) {
                q
            } else {
                -q
            },
    ;
}

/// The one quotient and remainder that lose nothing: whatever splits `a`
/// into a multiple of `b` and a rest nearer to zero than `b`, of the sign of
/// `a`, is the division rounded toward zero.
pub proof fn lemma_trunc_div_rem_unique(a: int, b: int, q: int, r: int)
    requires
        b != 0,
        a == q * b + r,
        magnitude(r) < magnitude(b),
        a >= 0 ==> r >= 0,
        a <= 0 ==> r <= 0,
    ensures
        q == trunc_div(a, b),
        r == trunc_rem(a, b),
{
    let ma = magnitude(a);
    let mb = magnitude(b);
    let mr = magnitude(r);
    let mq = if (a < 0) == (b < 0) {
        q
    } else {
        -q
    };
    assert(ma == mq * mb + mr) by (nonlinear_arith)
        requires
            b != 0,
            a == q * b + r,
            a >= 0 ==> r >= 0,
            a <= 0 ==> r <= 0,
            ma == magnitude(a),
            mb == magnitude(b),
            mr == magnitude(r),
            mq == if (a < 0) == (b < 0) {
                q
            } else {
                -q
            },
    ;
    lemma_fundamental_div_mod_converse(ma, mb, mq, mr);
}

/// Every curve stays within the limit that the accumulator is built for.
pub proof fn lemma_distance_within_limit(mode: MouseMode, sample: i16)
    ensures
        -DISTANCE_LIMIT <= mode.spec_distance_per_unit(sample as int) <= DISTANCE_LIMIT,
{
    match mode {
        MouseMode::Constant(c) => {},
        MouseMode::Linear { m, bias } => {
            lemma_linear_within_limit(m as int, bias as int, sample as int);
        },
        MouseMode::Logistic { target, floor, coefficients } => {
            let k = clamp_unit(coefficient_at(coefficients@, sample as int));
            lemma_product_bound(k, target as int, 255, 32768);
        },
    }
}

proof fn lemma_product_bound(a: int, b: int, bound_a: int, bound_b: int)
    by (nonlinear_arith)
    requires
        -bound_a <= a <= bound_a,
        -bound_b <= b <= bound_b,
    ensures
        -(bound_a * bound_b) <= a * b <= bound_a * bound_b,
{
}

proof fn lemma_linear_within_limit(m: int, bias: int, sample: int)
    requires
        -32768 <= m <= 32767,
        -32768 <= bias <= 32767,
        -32768 <= sample <= 32767,
    ensures
        -DISTANCE_LIMIT <= linear_distance(m, bias, sample) <= DISTANCE_LIMIT,
{
    let w = 255 - magnitude(sample);
    lemma_product_bound(w, m, 32513, 32768);
    assert(32513 * 32768 == 1065385984) by (nonlinear_arith);
    lemma_product_bound(255 * bias, signum(m), 8355840, 1);
}

pub(crate) fn magnitude_of(sample: i16) -> (r: i32)
    ensures
        r == magnitude(sample as int),
{
    if sample < 0 {
        -(sample as i32)
    } else {
        sample as i32
    }
}

/// Divides, rounding toward zero.
fn divide(total: i64, distance: i64) -> (r: (i64, i64))
    requires
        distance != 0,
        i64::MIN < total,
        i64::MIN < distance,
    ensures
        r.0 == trunc_div(total as int, distance as int),
        r.1 == trunc_rem(total as int, distance as int),
{
    let mt: i64 = if total < 0 {
        -total
    } else {
        total
    };
    let md: i64 = if distance < 0 {
        -distance
    } else {
        distance
    };
    let q: i64 = mt / md;
    let r: i64 = mt % md;
    proof {
        lemma_trunc_div_rem(total as int, distance as int);
    }
    let units: i64 = if (total < 0) == (distance < 0) {
        q
    } else {
        -q
    };
    let rest: i64 = if total < 0 {
        -r
    } else {
        r
    };
    (units, rest)
}

impl MouseMode {
    /// The distance that makes one output unit at a deflection of `sample`
    /// steps.
    pub fn distance_per_unit(&self, sample: i16) -> (d: i32)
        ensures
            d == self.spec_distance_per_unit(sample as int),
            -DISTANCE_LIMIT <= d <= DISTANCE_LIMIT,
    {
        proof {
            lemma_distance_within_limit(*self, sample);
        }
        let deflection: i32 = magnitude_of(sample);
        match self {
            MouseMode::Constant(c) => 255 * (*c as i32),
            MouseMode::Linear { m, bias } => {
                let slope: i32 = *m as i32;
                let weight: i32 = 255 - deflection;
                proof {
                    lemma_product_bound(weight as int, slope as int, 32513, 32768);
                    assert(32513 * 32768 == 1065385984) by (nonlinear_arith);
                }
                let sloped: i32 = weight * slope;
                let offset: i32 = 255 * (*bias as i32);
                if slope > 0 {
                    assert(255 * (*bias as int) * signum(slope as int) == offset) by (nonlinear_arith)
                        requires
                            signum(slope as int) == 1,
                            offset == 255 * (*bias as int),
                    ;
                    sloped + offset
                } else if slope < 0 {
                    assert(255 * (*bias as int) * signum(slope as int) == -offset) by (nonlinear_arith)
                        requires
                            signum(slope as int) == -1,
                            offset == 255 * (*bias as int),
                    ;
                    sloped - offset
                } else {
                    assert(255 * (*bias as int) * signum(slope as int) == 0) by (nonlinear_arith)
                        requires
                            signum(slope as int) == 0,
                    ;
                    sloped
                }
            },
            MouseMode::Logistic { target, floor, coefficients } => {
                let len: usize = coefficients.len();
                let coefficient: i32 = if len == 0 {
                    0
                } else if (deflection as usize) < len {
                    coefficients[deflection as usize] as i32
                } else {
                    coefficients[len - 1] as i32
                };
                let cut: i32 = if coefficient < 0 {
                    0
                } else if coefficient > 255 {
                    255
                } else {
                    coefficient
                };
                proof {
                    lemma_product_bound(cut as int, *target as int, 255, 32768);
                }
                let scaled: i32 = cut * (*target as i32);
                let least: i32 = 255 * (*floor as i32);
                let reach: i32 = if scaled < 0 {
                    -scaled
                } else {
                    scaled
                };
                if reach < least {
                    if *target < 0 {
                        -least
                    } else {
                        least
                    }
                } else {
                    scaled
                }
            },
        }
    }
}

/// What an engine is at one moment: its configuration and the distance it
/// carries.
pub struct CurveState {
    pub config: AxisMouseConfig,
    pub remainder: int,
}

impl CurveState {
    /// The output units that the next sample yields.
    pub open spec fn units(self, sample: int) -> int {
        self.config.units(self.remainder, sample)
    }

    /// The engine after the next sample.
    pub open spec fn fed(self, sample: int) -> CurveState {
        CurveState { config: self.config, remainder: self.config.carry(self.remainder, sample) }
    }

    /// Whether what the engine carries is within the limit. It is for every
    /// engine that runs.
    pub open spec fn bounded(self) -> bool {
        -DISTANCE_LIMIT < self.remainder < DISTANCE_LIMIT
    }
}

/// An engine within the limit stays within it, and the units of a sample
/// always fit the pointer's coordinates: nothing needs to be cut off.
pub proof fn lemma_units_fit(state: CurveState, sample: i16)
    requires
        state.bounded(),
    ensures
        i32::MIN < state.units(sample as int) <= i32::MAX,
        state.fed(sample as int).bounded(),
{
    if !state.config.idle(sample as int) {
        let distance = state.config.dots_per_pixel.spec_distance_per_unit(sample as int);
        let travelled = raw_distance(state.config.dpi as int, sample as int);
        lemma_distance_within_limit(state.config.dots_per_pixel, sample);
        lemma_product_bound(sample as int, state.config.dpi as int, 32768, 32768);
        lemma_trunc_div_rem(state.remainder + travelled, distance);
    }
}

/// The accumulator of one axis. It starts out carrying nothing, and is never
/// reset.
pub struct CurveEngine {
    config: AxisMouseConfig,
    remainder: i32,
}

impl View for CurveEngine {
    type V = CurveState;

    closed spec fn view(&self) -> CurveState {
        CurveState { config: self.config, remainder: self.remainder as int }
    }
}

impl CurveEngine {
    #[verifier::type_invariant]
    spec fn within_limit(self) -> bool {
        -DISTANCE_LIMIT < self.remainder < DISTANCE_LIMIT
    }

    /// An engine that carries nothing.
    pub fn new(config: AxisMouseConfig) -> (r: Self)
        ensures
            r@ == (CurveState { config, remainder: 0 }),
            r@.bounded(),
    {
        CurveEngine { config, remainder: 0 }
    }

    /// The distance carried over from the samples so far.
    pub fn remainder(&self) -> (r: i32)
        ensures
            r == self@.remainder,
            self@.bounded(),
    {
        proof {
            use_type_invariant(self);
        }
        self.remainder
    }

    /// The configuration that the engine was made with.
    pub fn config(&self) -> (r: &AxisMouseConfig)
        ensures
            *r == self@.config,
    {
        &self.config
    }

    /// Takes one sample and returns the output units that it completes.
    ///
    /// A sample inside the deadzone yields nothing and leaves the carried
    /// distance as it is; so does a sample for which the curve gives no
    /// distance at all. Any other sample adds its distance to what is
    /// carried; the units are the whole multiples of the curve's distance in
    /// that sum, and the rest stays carried.
    pub fn feed(&mut self, sample: i16) -> (units: i32)
        ensures
            units == old(self)@.units(sample as int),
            final(self)@ == old(self)@.fed(sample as int),
            old(self)@.config.gated(sample as int) ==> units == 0 && final(self)@ == old(self)@,
            final(self)@.bounded(),
    {
        proof {
            use_type_invariant(&*self);
            lemma_units_fit(self@, sample);
        }
        if magnitude_of(sample) < self.config.deadzone as i32 {
            return 0;
        }
        let distance: i32 = self.config.dots_per_pixel.distance_per_unit(sample);
        if distance == 0 {
            return 0;
        }
        proof {
            lemma_product_bound(sample as int, self.config.dpi as int, 32768, 32768);
        }
        let travelled: i64 = (sample as i64) * (self.config.dpi as i64);
        let total: i64 = self.remainder as i64 + travelled;
        let (units, rest) = divide(total, distance as i64);
        proof {
            lemma_trunc_div_rem(total as int, distance as int);
        }
        self.remainder = rest as i32;
        units as i32
    }
}

impl CurveState {
    /// The engine after `count` samples of the same deflection.
    pub open spec fn run(self, sample: int, count: nat) -> CurveState
        decreases count,
    {
        if count == 0 {
            self
        } else {
            self.run(sample, (count - 1) as nat).fed(sample)
        }
    }

    /// The output units that `count` samples of the same deflection yield
    /// together.
    pub open spec fn run_units(self, sample: int, count: nat) -> int
        decreases count,
    {
        if count == 0 {
            0
        } else {
            self.run_units(sample, (count - 1) as nat) + self.run(
                sample,
                (count - 1) as nat,
            ).units(sample)
        }
    }
}

/// The engine is silent inside its deadzone: a sample of a smaller
/// magnitude than the deadzone yields no unit and leaves what the engine
/// carries untouched, whatever it carries.
pub proof fn lemma_deadzone_is_silent(state: CurveState, sample: int)
    requires
        magnitude(sample) < state.config.deadzone,
    ensures
        state.units(sample) == 0,
        state.fed(sample) == state,
{
}

/// A curve that gives no distance leaves the engine untouched too.
pub proof fn lemma_zero_distance_is_silent(state: CurveState, sample: int)
    requires
        state.config.dots_per_pixel.spec_distance_per_unit(sample) == 0,
    ensures
        state.units(sample) == 0,
        state.fed(sample) == state,
{
}

/// The logistic curve never comes nearer to zero than its floor, and has
/// the sign of its target wherever it is not zero.
pub proof fn lemma_logistic_keeps_its_floor(target: int, floor: int, coefficient: int)
    requires
        0 <= floor,
    ensures
        magnitude(logistic_distance(target, floor, coefficient)) >= 255 * floor,
        target >= 0 ==> logistic_distance(target, floor, coefficient) >= 0,
        target < 0 ==> logistic_distance(target, floor, coefficient) <= 0,
        floor > 0 ==> logistic_distance(target, floor, coefficient) != 0,
{
    let k = clamp_unit(coefficient);
    assert(target >= 0 ==> k * target >= 0) by (nonlinear_arith)
        requires
            0 <= k,
    ;
    assert(target <= 0 ==> k * target <= 0) by (nonlinear_arith)
        requires
            0 <= k,
    ;
}

/// A sample that the engine takes loses nothing: what was carried plus what
/// the sample travelled is what the units stand for plus what is carried
/// on, and what is carried on falls short of one unit.
pub proof fn lemma_feed_conserves(state: CurveState, sample: int)
    requires
        !state.config.idle(sample),
    ensures
        state.remainder + raw_distance(state.config.dpi as int, sample) == state.units(sample)
            * state.config.dots_per_pixel.spec_distance_per_unit(sample) + state.fed(
            sample,
        ).remainder,
        magnitude(state.fed(sample).remainder) < magnitude(
            state.config.dots_per_pixel.spec_distance_per_unit(sample),
        ),
{
    lemma_trunc_div_rem(
        state.remainder + raw_distance(state.config.dpi as int, sample),
        state.config.dots_per_pixel.spec_distance_per_unit(sample),
    );
}

proof fn lemma_constant_run(config: AxisMouseConfig, c: i16, sample: int, count: nat)
    requires
        config.dots_per_pixel == MouseMode::Constant(c),
        c != 0,
        !config.gated(sample),
    ensures
        ({
            let start = CurveState { config, remainder: 0 };
            let step = raw_distance(config.dpi as int, sample);
            let rest = start.run(sample, count).remainder;
            &&& start.run(sample, count).config == config
            &&& start.run_units(sample, count) * constant_distance(c as int) + rest == count * step
            &&& magnitude(rest) < magnitude(constant_distance(c as int))
            &&& step >= 0 ==> rest >= 0
            &&& step <= 0 ==> rest <= 0
        }),
    decreases count,
{
    let start = CurveState { config, remainder: 0 };
    let step = raw_distance(config.dpi as int, sample);
    let d = constant_distance(c as int);
    if count == 0 {
        assert(0 * d + 0 == 0 * step) by (nonlinear_arith);
    } else {
        let before = (count - 1) as nat;
        lemma_constant_run(config, c, sample, before);
        let carried = start.run(sample, before);
        let units_before = start.run_units(sample, before);
        let total = carried.remainder + step;
        assert(!config.idle(sample));
        lemma_trunc_div_rem(total, d);
        let units = trunc_div(total, d);
        let rest = trunc_rem(total, d);
        assert(carried.units(sample) == units);
        assert(carried.fed(sample).remainder == rest);
        assert((units_before + units) * d + rest == count * step) by (nonlinear_arith)
            requires
                units_before * d + carried.remainder == before * step,
                total == carried.remainder + step,
                total == units * d + rest,
                count == before + 1,
        ;
    }
}

/// Accumulation is lossless for a constant curve: from an engine that
/// carries nothing, any number of samples of one deflection outside the
/// deadzone yield together exactly the whole units that lie in the distance
/// they travelled together, and what the engine then carries is the rest of
/// that distance. Nothing drifts, however long the run.
pub proof fn lemma_constant_run_is_lossless(
    config: AxisMouseConfig,
    c: i16,
    sample: int,
    count: nat,
)
    requires
        config.dots_per_pixel == MouseMode::Constant(c),
        c != 0,
        !config.gated(sample),
    ensures
        ({
            let start = CurveState { config, remainder: 0 };
            let travelled = count * raw_distance(config.dpi as int, sample);
            let distance = constant_distance(c as int);
            &&& start.run_units(sample, count) == trunc_div(travelled, distance)
            &&& start.run(sample, count).remainder == trunc_rem(travelled, distance)
            &&& start.run_units(sample, count) * distance + start.run(sample, count).remainder
                == travelled
            &&& travelled >= 0 && distance > 0 ==> start.run_units(sample, count) == travelled
                / distance
        }),
{
    let start = CurveState { config, remainder: 0 };
    let step = raw_distance(config.dpi as int, sample);
    let travelled = count * step;
    let distance = constant_distance(c as int);
    lemma_constant_run(config, c, sample, count);
    let rest = start.run(sample, count).remainder;
    assert(travelled >= 0 ==> rest >= 0) by (nonlinear_arith)
        requires
            travelled == count * step,
            step >= 0 ==> rest >= 0,
            step <= 0 ==> rest <= 0,
            count == 0 ==> rest == 0,
    ;
    assert(travelled <= 0 ==> rest <= 0) by (nonlinear_arith)
        requires
            travelled == count * step,
            step >= 0 ==> rest >= 0,
            step <= 0 ==> rest <= 0,
            count == 0 ==> rest == 0,
    ;
    lemma_trunc_div_rem_unique(travelled, distance, start.run_units(sample, count), rest);
}

} // verus!
