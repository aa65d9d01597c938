use i2c_core::errors::ConfigError;
use i2c_core::timing::{derive_timing, ClockConfig, TimingParameters};

#[test]
fn fast_mode_reference_vector() {
    // 120 MHz kernel clock at 400 kHz: ratio 300, fast regime
    let t = derive_timing(120_000_000, 400_000).unwrap();
    assert_eq!(
        t,
        TimingParameters {
            prescaler: 0,
            low_period: 200,
            high_period: 99,
            setup_delay: 15,
            hold_delay: 59,
        }
    );
}

#[test]
fn standard_mode_vector() {
    // 120 MHz kernel clock at 100 kHz: ratio 1200, standard regime
    let t = derive_timing(120_000_000, 100_000).unwrap();
    assert_eq!(
        t,
        TimingParameters {
            prescaler: 2,
            low_period: 199,
            high_period: 199,
            setup_delay: 20,
            hold_delay: 49,
        }
    );
}

#[test]
fn fast_plus_vector() {
    // 48 MHz kernel clock at 1 MHz: ratio 48, fast-plus regime
    let t = derive_timing(48_000_000, 1_000_000).unwrap();
    assert_eq!(
        t,
        TimingParameters {
            prescaler: 0,
            low_period: 32,
            high_period: 15,
            setup_delay: 2,
            hold_delay: 11,
        }
    );
}

#[test]
fn delays_clamped_at_slow_clock() {
    // 1 MHz kernel clock at 200 kHz: raw delays underflow and clamp to
    // their minima of 2 and 4
    let t = derive_timing(1_000_000, 200_000).unwrap();
    assert_eq!(
        t,
        TimingParameters {
            prescaler: 0,
            low_period: 2,
            high_period: 0,
            setup_delay: 2,
            hold_delay: 4,
        }
    );
}

#[test]
fn standard_mode_periods_equal() {
    for target in [10_000u32, 50_000, 100_000] {
        for clk in [1_000_000u32, 8_000_000, 64_000_000, 120_000_000] {
            let ratio = clk / target;
            if (4..=8192).contains(&ratio) {
                let t = derive_timing(clk, target).unwrap();
                assert_eq!(t.low_period, t.high_period);
                assert!(t.prescaler <= 15);
                assert!(t.setup_delay >= 2);
                assert!(t.hold_delay >= 4);
            }
        }
    }
}

#[test]
fn fast_mode_low_twice_high() {
    for target in [150_000u32, 400_000, 1_000_000] {
        for clk in [2_000_000u32, 25_000_000, 120_000_000] {
            let ratio = clk / target;
            if (4..=6144).contains(&ratio) && ratio % 384 != 0 {
                let t = derive_timing(clk, target).unwrap();
                assert_eq!(t.low_period as u32, 2 * (t.high_period as u32 + 1));
            }
        }
    }
}

#[test]
fn target_above_one_megahertz_rejected() {
    assert_eq!(
        derive_timing(120_000_000, 2_000_000),
        Err(ConfigError::FrequencyTooHigh)
    );
    assert_eq!(
        derive_timing(4_000_000_000, 1_000_001),
        Err(ConfigError::FrequencyTooHigh)
    );
}

#[test]
fn low_ratio_rejected() {
    // ratio 0 and ratio 3 are both below the minimum of 4
    assert_eq!(
        derive_timing(100, 1_000_000),
        Err(ConfigError::RatioOutOfRange)
    );
    assert_eq!(
        derive_timing(300_000, 100_000),
        Err(ConfigError::RatioOutOfRange)
    );
}

#[test]
fn huge_ratio_in_standard_mode_rejected() {
    // ratio 40000 at 100 kHz: the half period cannot fit its 8-bit field
    assert_eq!(
        derive_timing(4_000_000_000, 100_000),
        Err(ConfigError::FrequencyTooHigh)
    );
}

#[test]
fn fast_mode_prescaler_overflow_rejected() {
    // ratio 26666 above 100 kHz: the prescaler cannot fit its 4-bit field
    assert_eq!(
        derive_timing(4_000_000_000, 150_000),
        Err(ConfigError::PrescalerOutOfRange)
    );
}

#[test]
fn fast_mode_boundary_ratio_wraps_low_period() {
    // at a ratio that is an exact multiple of 384 the derived low period
    // is 256 and wraps to zero in its 8-bit field
    let t = derive_timing(76_800_000, 200_000).unwrap();
    assert_eq!(t.high_period, 127);
    assert_eq!(t.low_period, 0);
}

#[test]
fn clock_config_derives_like_the_free_function() {
    let cfg = ClockConfig {
        input_clock_hz: 120_000_000,
        target_bus_hz: 400_000,
    };
    assert_eq!(cfg.derive(), derive_timing(120_000_000, 400_000));
}
