use vstd::prelude::*;
use vstd::arithmetic::div_mod::{
    lemma_fundamental_div_mod, lemma_mod_bound, lemma_div_denominator,
    lemma_multiply_divide_le, lemma_multiply_divide_lt, lemma_div_is_ordered,
    lemma_div_multiples_vanish, lemma_basic_div, lemma_small_mod,
    lemma_div_pos_is_pos, lemma_div_basics_2, lemma_mod_multiples_basic,
};
use vstd::math::{min, max};
use crate::errors::ConfigError;

verus! {

/// Inputs to timing derivation: the peripheral input clock and the desired
/// bus frequency, both in hertz.  The configuration is consumed once at
/// initialisation and not retained.
#[derive(Clone, Copy, PartialEq, Eq, Structural, Debug)]
pub struct ClockConfig {
    pub input_clock_hz: u32,
    pub target_bus_hz: u32,
}

/// Validated timing-register values.  They are computed once per
/// initialisation, written to the configuration registers, and immutable
/// thereafter.
#[derive(Clone, Copy, PartialEq, Eq, Structural, Debug)]
pub struct TimingParameters {
    /// Input-clock divider register value; the divider applied is one more.
    pub prescaler: u8,
    /// Clock-low period in prescaled ticks.
    pub low_period: u8,
    /// Clock-high period in prescaled ticks.
    pub high_period: u8,
    /// Data setup delay in prescaled ticks.
    pub setup_delay: u8,
    /// Data hold delay in prescaled ticks.
    pub hold_delay: u8,
}

impl TimingParameters {
    /// Hardware-imposed invariants: the prescaler fits its 4-bit field and
    /// the delays keep their clamped margins.
    pub open spec fn wf(self) -> bool {
        self.prescaler <= 15 && self.setup_delay >= 2 && self.hold_delay >= 4
    }
}

/// Integer ratio of the input clock to the requested bus frequency.
pub open spec fn spec_ratio(clk: int, target: int) -> int {
    clk / target
}

/// The standard regime covers targets up to 100 kHz; above that the fast
/// (and, past 400 kHz, fast-plus) regime applies.
pub open spec fn standard_regime(target: int) -> bool {
    target <= 100_000
}

/// Standard regime: prescaler register value, from 512 ticks per half
/// period, clamped to its 4-bit field.
pub open spec fn std_presc_reg(ratio: int) -> int {
    min((ratio - 1) / 512, 15)
}

/// Standard regime: the shared high/low half period.
pub open spec fn std_half_period(ratio: int) -> int {
    (ratio / (std_presc_reg(ratio) + 1) - 2) / 2
}

/// Standard regime: setup delay, clamped to a minimum of 2.
pub open spec fn std_setup(clk: int, ratio: int) -> int {
    max(clk / 2_000_000 / (std_presc_reg(ratio) + 1), 2)
}

/// Standard regime: hold delay, clamped to a minimum of 4.
pub open spec fn std_hold(clk: int, ratio: int) -> int {
    max(clk / 800_000 / (std_presc_reg(ratio) + 1) - 1, 4)
}

/// Fast regime: prescaler register value, from 384 ticks per bus period.
pub open spec fn fast_presc_reg(ratio: int) -> int {
    (ratio - 1) / 384
}

/// Fast regime: high period.
pub open spec fn fast_high_period(ratio: int) -> int {
    (ratio / (fast_presc_reg(ratio) + 1) - 3) / 3
}

/// Fast regime: low period, two ticks more than twice the high period,
/// reduced into its 8-bit hardware field.
pub open spec fn fast_low_period(ratio: int) -> int {
    (2 * (fast_high_period(ratio) + 1)) % 256
}

/// Fast regime (at most 400 kHz): setup delay, clamped to a minimum of 2.
pub open spec fn fast_setup(clk: int, ratio: int) -> int {
    max(clk / 8_000_000 / (fast_presc_reg(ratio) + 1), 2)
}

/// Fast regime (at most 400 kHz): hold delay, clamped to a minimum of 4.
pub open spec fn fast_hold(clk: int, ratio: int) -> int {
    max(clk / 2_000_000 / (fast_presc_reg(ratio) + 1) - 1, 4)
}

/// Fast-plus (above 400 kHz): the raw setup delay of zero, clamped to 2.
pub open spec fn fast_plus_setup() -> int {
    2
}

/// Fast-plus (above 400 kHz): hold delay, clamped to a minimum of 4.
pub open spec fn fast_plus_hold(clk: int, ratio: int) -> int {
    max(clk / 4_000_000 / (fast_presc_reg(ratio) + 1) - 1, 4)
}

/// Full behaviour of timing derivation: exactly which error each input is
/// rejected with, and every register field of a successful result.
pub open spec fn timing_result_spec(
    clk: u32,
    target: u32,
    r: Result<TimingParameters, ConfigError>,
) -> bool {
    let ratio: int = spec_ratio(clk as int, target as int);
    &&& (r == Err::<TimingParameters, ConfigError>(ConfigError::FrequencyTooHigh) <==> (
        target > 1_000_000
        || (target <= 100_000 && ratio >= 4 && std_half_period(ratio) >= 256)
    ))
    &&& (r == Err::<TimingParameters, ConfigError>(ConfigError::RatioOutOfRange) <==> (
        target <= 1_000_000 && ratio < 4
    ))
    &&& (r == Err::<TimingParameters, ConfigError>(ConfigError::PrescalerOutOfRange) <==> (
        100_000 < target <= 1_000_000 && ratio >= 4 && fast_presc_reg(ratio) > 15
    ))
    &&& (r matches Ok(t) ==> {
        &&& t.wf()
        &&& target <= 1_000_000
        &&& ratio >= 4
        &&& (standard_regime(target as int) ==> {
            &&& t.prescaler == std_presc_reg(ratio)
            &&& t.high_period == std_half_period(ratio)
            &&& t.low_period == std_half_period(ratio)
            &&& t.setup_delay == std_setup(clk as int, ratio)
            &&& t.hold_delay == std_hold(clk as int, ratio)
        })
        &&& (!standard_regime(target as int) ==> {
            &&& t.prescaler == fast_presc_reg(ratio)
            &&& t.high_period == fast_high_period(ratio)
            &&& t.low_period == fast_low_period(ratio)
            &&& (target > 400_000 ==> t.setup_delay == fast_plus_setup()
                && t.hold_delay == fast_plus_hold(clk as int, ratio))
            &&& (target <= 400_000 ==> t.setup_delay == fast_setup(clk as int, ratio)
                && t.hold_delay == fast_hold(clk as int, ratio))
        })
    })
}

/// Quotient and remainder bounds of flooring division.
proof fn lemma_div_range(x: int, d: int)
    requires
        0 <= x,
        0 < d,
    ensures
        d * (x / d) <= x,
        x < d * (x / d) + d,
{
    lemma_fundamental_div_mod(x, d);
    lemma_mod_bound(x, d);
}

/// A quotient is at least `c` once the dividend reaches `b * c`.
proof fn lemma_div_at_least(a: int, b: int, c: int)
    requires
        0 < b,
        0 <= c,
        b * c <= a,
    ensures
        c <= a / b,
{
    lemma_div_multiples_vanish(c, b);
    lemma_div_is_ordered(b * c, a, b);
}

/// Dividing twice is bounded by the product of the divisors.
proof fn lemma_double_div_bound(x: int, c: int, d: int, n: int)
    requires
        0 <= x,
        0 < c,
        0 < d,
        0 < n,
        x < c * d * n,
    ensures
        x / c / d < n,
{
    lemma_div_denominator(x, c, d);
    lemma_multiply_divide_lt(x, c * d, n);
}

/// Shape of the fast-regime prescaler and per-period quotient.
proof fn lemma_fast_core(ratio: int)
    requires
        4 <= ratio,
        fast_presc_reg(ratio) <= 15,
    ensures
        ({
            let presc: int = fast_presc_reg(ratio) + 1;
            let q: int = ratio / presc;
            &&& 1 <= presc <= 16
            &&& ratio <= 384 * presc
            &&& 3 <= q <= 384
        }),
{
    let pr: int = fast_presc_reg(ratio);
    let presc: int = pr + 1;
    lemma_div_pos_is_pos(ratio - 1, 384);
    lemma_div_range(ratio - 1, 384);
    assert(ratio <= 384 * presc);
    lemma_multiply_divide_le(ratio, presc, 384);
    if ratio <= 384 {
        lemma_basic_div(ratio - 1, 384);
        lemma_div_basics_2(ratio);
    } else {
        assert(3 * presc <= ratio);
        lemma_div_at_least(ratio, presc, 3);
    }
}

/// Shape of the standard-regime prescaler and per-period quotient.
proof fn lemma_std_core(ratio: int)
    requires
        4 <= ratio,
    ensures
        ({
            let presc: int = std_presc_reg(ratio) + 1;
            let q: int = ratio / presc;
            &&& 1 <= presc <= 16
            &&& 2 <= q
            &&& ((ratio - 1) / 512 <= 15 ==> ratio <= 512 * presc)
        }),
{
    let pr: int = std_presc_reg(ratio);
    let presc: int = pr + 1;
    lemma_div_pos_is_pos(ratio - 1, 512);
    lemma_div_range(ratio - 1, 512);
    if ratio <= 512 {
        lemma_basic_div(ratio - 1, 512);
        lemma_div_basics_2(ratio);
    } else {
        assert(2 * presc <= ratio);
        lemma_div_at_least(ratio, presc, 2);
    }
}

/// In the standard regime, once the half period fits its field, both delay
/// quotients are far below their 8-bit fields.
proof fn lemma_std_delay_bounds(clk: int, target: int)
    requires
        1 <= target <= 100_000,
        4 <= spec_ratio(clk, target),
        0 <= clk,
        std_half_period(spec_ratio(clk, target)) <= 255,
    ensures
        ({
            let presc: int = std_presc_reg(spec_ratio(clk, target)) + 1;
            &&& clk / 2_000_000 / presc <= 25
            &&& clk / 800_000 / presc <= 64
        }),
{
    let ratio: int = spec_ratio(clk, target);
    let presc: int = std_presc_reg(ratio) + 1;
    let q: int = ratio / presc;
    lemma_std_core(ratio);
    // the half-period bound caps the quotient at 513
    lemma_div_range(q - 2, 2);
    assert(q <= 513);
    lemma_div_range(ratio, presc);
    lemma_div_range(clk, target);
    assert(clk < 51_400_000 * presc) by (nonlinear_arith)
        requires
            clk < target * ratio + target,
            ratio < presc * q + presc,
            q <= 513,
            1 <= target <= 100_000,
            1 <= presc,
    ;
    lemma_double_div_bound(clk, 2_000_000, presc, 26);
    lemma_double_div_bound(clk, 800_000, presc, 65);
}

/// In the fast regime the delay quotients fit their 8-bit fields.
proof fn lemma_fast_delay_bounds(clk: int, target: int)
    requires
        100_000 < target <= 1_000_000,
        4 <= spec_ratio(clk, target),
        0 <= clk,
        fast_presc_reg(spec_ratio(clk, target)) <= 15,
    ensures
        ({
            let presc: int = fast_presc_reg(spec_ratio(clk, target)) + 1;
            &&& clk / 8_000_000 / presc <= 48
            &&& clk / 2_000_000 / presc <= 192
            &&& clk / 4_000_000 / presc <= 96
        }),
{
    let ratio: int = spec_ratio(clk, target);
    let presc: int = fast_presc_reg(ratio) + 1;
    lemma_fast_core(ratio);
    lemma_div_range(clk, target);
    assert(clk < 385_000_000 * presc) by (nonlinear_arith)
        requires
            clk < target * ratio + target,
            ratio <= 384 * presc,
            100_000 < target <= 1_000_000,
            1 <= presc,
    ;
    lemma_double_div_bound(clk, 8_000_000, presc, 49);
    lemma_double_div_bound(clk, 2_000_000, presc, 193);
    lemma_double_div_bound(clk, 4_000_000, presc, 97);
}

/// Derive hardware timing-register values for the requested bus frequency.
///
/// Rejects a target above 1 MHz with `FrequencyTooHigh` and a clock ratio
/// below 4 with `RatioOutOfRange`.  In the standard regime a half period
/// that does not fit its 8-bit field is `FrequencyTooHigh`; in the fast
/// regime a prescaler that does not fit its 4-bit field is
/// `PrescalerOutOfRange`.
pub fn derive_timing(clk: u32, target: u32) -> (r: Result<TimingParameters, ConfigError>)
    requires
        target >= 1,
    ensures
        timing_result_spec(clk, target, r),
{
    if target > 1_000_000 {
        return Err(ConfigError::FrequencyTooHigh);
    }
    let ratio: u32 = clk / target;
    if ratio < 4 {
        return Err(ConfigError::RatioOutOfRange);
    }
    if target > 100_000 {
        // fast or fast-plus regime: 384 ticks per bus period
        let presc_reg: u32 = (ratio - 1) / 384;
        if presc_reg > 15 {
            return Err(ConfigError::PrescalerOutOfRange);
        }
        let presc: u32 = presc_reg + 1;
        proof {
            lemma_fast_core(ratio as int);
            lemma_fast_delay_bounds(clk as int, target as int);
        }
        let q: u32 = ratio / presc;
        let high: u32 = (q - 3) / 3;
        proof {
            lemma_div_is_ordered(q as int - 3, 381, 3);
            lemma_div_pos_is_pos(q as int - 3, 3);
        }
        let low: u32 = (2 * (high + 1)) % 256;
        proof {
            lemma_mod_bound(2 * (high as int + 1), 256);
        }
        let (setup, hold): (u32, u32) = if target > 400_000 {
            // fast-plus: raw setup delay of zero, clamped below
            let hd: u32 = clk / 4_000_000 / presc;
            (0, if hd >= 5 { hd - 1 } else { 4 })
        } else {
            let sd: u32 = clk / 8_000_000 / presc;
            let hd: u32 = clk / 2_000_000 / presc;
            (sd, if hd >= 5 { hd - 1 } else { 4 })
        };
        let setup_c: u32 = if setup >= 2 { setup } else { 2 };
        Ok(TimingParameters {
            prescaler: presc_reg as u8,
            low_period: low as u8,
            high_period: high as u8,
            setup_delay: setup_c as u8,
            hold_delay: hold as u8,
        })
    } else {
        // standard regime: 512 ticks per period, equal half periods
        let pr: u32 = (ratio - 1) / 512;
        let presc_reg: u32 = if pr < 15 { pr } else { 15 };
        let presc: u32 = presc_reg + 1;
        proof {
            lemma_std_core(ratio as int);
        }
        let q: u32 = ratio / presc;
        let half: u32 = (q - 2) / 2;
        proof {
            lemma_div_pos_is_pos(q as int - 2, 2);
        }
        if half >= 256 {
            return Err(ConfigError::FrequencyTooHigh);
        }
        proof {
            lemma_std_delay_bounds(clk as int, target as int);
        }
        let sd: u32 = clk / 2_000_000 / presc;
        let hd: u32 = clk / 800_000 / presc;
        let setup_c: u32 = if sd >= 2 { sd } else { 2 };
        let hold: u32 = if hd >= 5 { hd - 1 } else { 4 };
        Ok(TimingParameters {
            prescaler: presc_reg as u8,
            low_period: half as u8,
            high_period: half as u8,
            setup_delay: setup_c as u8,
            hold_delay: hold as u8,
        })
    }
}

impl ClockConfig {
    /// Derive the timing-register values for this clock configuration.
    pub fn derive(&self) -> (r: Result<TimingParameters, ConfigError>)
        requires
            self.target_bus_hz >= 1,
        ensures
            timing_result_spec(self.input_clock_hz, self.target_bus_hz, r),
    {
        derive_timing(self.input_clock_hz, self.target_bus_hz)
    }
}

/// Standard-regime guarantee: for clock pairs whose ratio lies in [4, 8192]
/// and a target at or below 100 kHz, derivation succeeds, the high and low
/// periods are equal, the hold delay is at least 4, the setup delay at
/// least 2, and the prescaler fits its 4-bit field.
pub proof fn lemma_standard_regime(
    clk: u32,
    target: u32,
    r: Result<TimingParameters, ConfigError>,
)
    requires
        1 <= target <= 100_000,
        4 <= spec_ratio(clk as int, target as int) <= 8192,
        timing_result_spec(clk, target, r),
    ensures
        r matches Ok(t)
            && t.high_period == t.low_period
            && t.hold_delay >= 4
            && t.setup_delay >= 2
            && t.prescaler <= 15,
{
    let ratio: int = spec_ratio(clk as int, target as int);
    lemma_std_core(ratio);
    lemma_div_is_ordered(ratio - 1, 8191, 512);
    assert(8191int / 512 == 15);
    let presc: int = std_presc_reg(ratio) + 1;
    lemma_multiply_divide_le(ratio, presc, 512);
    lemma_div_is_ordered(ratio / presc - 2, 510, 2);
    assert(510int / 2 == 255);
    assert(std_half_period(ratio) <= 255);
    assert(r is Ok) by {
        match r {
            Ok(_) => {}
            Err(c) => {
                match c {
                    ConfigError::FrequencyTooHigh => {
                        assert(false);
                    }
                    ConfigError::RatioOutOfRange => {
                        assert(false);
                    }
                    ConfigError::PrescalerOutOfRange => {
                        assert(false);
                    }
                }
            }
        }
    };
}

/// Fast-regime guarantee: for clock pairs whose ratio lies in [4, 6144] and
/// is not an exact multiple of 384, with a target above 100 kHz and at most
/// 1 MHz, derivation succeeds and the low period is two ticks more than
/// twice the high period.  Ratios above 6144 do not fit the prescaler
/// field, and at exact multiples of 384 the derived low period overflows
/// its 8-bit field, so both are excluded.
pub proof fn lemma_fast_regime(
    clk: u32,
    target: u32,
    r: Result<TimingParameters, ConfigError>,
)
    requires
        100_000 < target <= 1_000_000,
        4 <= spec_ratio(clk as int, target as int) <= 6144,
        spec_ratio(clk as int, target as int) % 384 != 0,
        timing_result_spec(clk, target, r),
    ensures
        r matches Ok(t) && t.low_period == 2 * (t.high_period + 1),
{
    let ratio: int = spec_ratio(clk as int, target as int);
    lemma_div_is_ordered(ratio - 1, 6143, 384);
    assert(6143int / 384 == 15);
    lemma_fast_core(ratio);
    let presc: int = fast_presc_reg(ratio) + 1;
    let q: int = ratio / presc;
    if q == 384 {
        lemma_div_range(ratio, presc);
        assert(ratio == 384 * presc);
        lemma_mod_multiples_basic(presc, 384);
        assert(ratio % 384 == 0);
    }
    assert(q <= 383);
    lemma_div_is_ordered(q - 3, 380, 3);
    assert(380int / 3 == 126);
    lemma_div_pos_is_pos(q - 3, 3);
    let raw: int = 2 * (fast_high_period(ratio) + 1);
    assert(0 <= raw <= 254);
    lemma_small_mod(raw as nat, 256);
    assert(r is Ok) by {
        match r {
            Ok(_) => {}
            Err(c) => {
                match c {
                    ConfigError::FrequencyTooHigh => {
                        assert(false);
                    }
                    ConfigError::RatioOutOfRange => {
                        assert(false);
                    }
                    ConfigError::PrescalerOutOfRange => {
                        assert(false);
                    }
                }
            }
        }
    };
}

/// Rejection guarantee: a target above 1 MHz always fails with
/// `FrequencyTooHigh`, and a clock ratio below 4 always fails with
/// `RatioOutOfRange`.
pub proof fn lemma_rejections(
    clk: u32,
    target: u32,
    r: Result<TimingParameters, ConfigError>,
)
    requires
        target >= 1,
        timing_result_spec(clk, target, r),
    ensures
        target > 1_000_000 ==> r == Err::<TimingParameters, ConfigError>(
            ConfigError::FrequencyTooHigh,
        ),
        target <= 1_000_000 && spec_ratio(clk as int, target as int) < 4 ==> r == Err::<
            TimingParameters,
            ConfigError,
        >(ConfigError::RatioOutOfRange),
{
}

} // verus!
