use kestrel::config::{
    AdmitRule, Config, ConfigError, EnvelopeCurve, Interpolation, StealRule,
};
use kestrel::limiter::LimiterMode;

#[test]
fn words_are_read_in_any_case() {
    assert_eq!(Interpolation::parse("Hermite"), Some(Interpolation::Cubic));
    assert_eq!(Interpolation::parse("none"), Some(Interpolation::Nearest));
    assert_eq!(Interpolation::parse("1"), Some(Interpolation::Linear));
    assert_eq!(Interpolation::parse("sinc"), None);
    assert_eq!(EnvelopeCurve::parse("dB"), Some(EnvelopeCurve::Exponential));
    assert_eq!(EnvelopeCurve::parse("lin"), Some(EnvelopeCurve::Linear));
    assert_eq!(EnvelopeCurve::parse(""), None);
    assert_eq!(StealRule::parse("drop-new"), Some(StealRule::DropNew));
    assert_eq!(StealRule::parse("LEVEL"), Some(StealRule::Quietest));
    assert_eq!(StealRule::parse("oldest"), Some(StealRule::Oldest));
    assert_eq!(StealRule::parse("old"), None);
    assert_eq!(AdmitRule::parse("ranked"), Some(AdmitRule::Loudest));
    assert_eq!(AdmitRule::parse("Spread"), Some(AdmitRule::Even));
    assert_eq!(AdmitRule::parse("x"), None);
    assert_eq!(LimiterMode::parse("KIVA"), Some(LimiterMode::Omni));
    assert_eq!(LimiterMode::parse("none"), Some(LimiterMode::Off));
    assert_eq!(LimiterMode::parse("peak"), Some(LimiterMode::Brickwall));
    assert_eq!(LimiterMode::parse("soft"), None);
}

#[test]
fn taps_and_codes() {
    assert_eq!(Interpolation::Nearest.taps(), 1);
    assert_eq!(Interpolation::Linear.taps(), 2);
    assert_eq!(Interpolation::Cubic.taps(), 4);
    assert_eq!(Interpolation::Cubic.code(), 2);
    assert_eq!(EnvelopeCurve::Linear.code(), 1);
    assert_eq!(StealRule::Quietest.code(), 2);
}

#[test]
fn the_defaults_are_valid() {
    let c = Config::default();
    assert_eq!(c.validate(), Ok(()));
    assert_eq!(f32::from_bits(c.env_floor), 1.0e-5);
    assert_eq!(f32::from_bits(c.master_volume), 1.0);
    assert_eq!(f64::from_bits(c.limiter_lookahead_ms), 2.0);
    assert_eq!(f64::from_bits(c.limiter_release_ms), 60.0);
    assert_eq!(c.sample_pool_budget, 2 << 30);
    assert_eq!(c.block_bytes(), 32768);
    assert_eq!(c.block_samples(), 8192);
    assert_eq!(c.max_steal(), 262144);
    assert_eq!(c.pool_slots(), 1310720);
    assert_eq!(c.steal_span(), 4000);
}

#[test]
fn every_setting_is_checked() {
    let fails = |c: Config, e: ConfigError| assert_eq!(c.validate(), Err(e));
    let d = Config::default;
    fails(Config { channels: 1, ..d() }, ConfigError::Channels);
    fails(Config { sample_rate: 7_999, ..d() }, ConfigError::SampleRate);
    fails(Config { sample_rate: 768_001, ..d() }, ConfigError::SampleRate);
    fails(Config { block_frames: 0, ..d() }, ConfigError::BlockFrames);
    fails(Config { block_frames: 4098, ..d() }, ConfigError::BlockFrames);
    fails(Config { workgroup_size: 48, ..d() }, ConfigError::WorkgroupSize);
    fails(Config { workgroup_size: 16, ..d() }, ConfigError::WorkgroupSize);
    fails(Config { reduce_tile: 3, block_frames: 4096 * 3, ..d() }, ConfigError::ReduceTile);
    fails(Config { gate_frames: 0, ..d() }, ConfigError::GateFrames);
    fails(Config { gate_frames: 48, ..d() }, ConfigError::GateFrames);
    fails(Config { workgroup_size: 1024, reduce_tile: 8, ..d() }, ConfigError::WorkgroupStorage);
    fails(
        Config { workgroup_size: 32, reduce_tile: 32, ..d() },
        ConfigError::WorkgroupLanes,
    );
    fails(
        Config { limiter_ceiling_db: 0.1f64.to_bits(), ..d() },
        ConfigError::LimiterCeiling,
    );
    fails(
        Config { limiter_ceiling_db: f64::NAN.to_bits(), ..d() },
        ConfigError::LimiterCeiling,
    );
    fails(
        Config { limiter_lookahead_ms: 0.04f64.to_bits(), ..d() },
        ConfigError::LimiterLookahead,
    );
    fails(
        Config { limiter_sustain_ms: (-1.0f64).to_bits(), ..d() },
        ConfigError::LimiterSustain,
    );
    fails(
        Config { limiter_release_ms: 5000.5f64.to_bits(), ..d() },
        ConfigError::LimiterRelease,
    );
    fails(Config { max_voices: 0, ..d() }, ConfigError::NoVoices);
    fails(Config { steal_fade_frames: 4096, ..d() }, ConfigError::StealFade);
    fails(Config { max_steal_percent: 101, ..d() }, ConfigError::StealPercent);
    fails(Config { max_layers: 256, ..d() }, ConfigError::TooManyLayers);
    fails(Config { block_frames: 65536, ..d() }, ConfigError::BlockTooLong);
    fails(Config { max_layers: 0, ..d() }, ConfigError::NoLayers);
}

#[test]
fn the_edges_of_the_ranges_are_inside() {
    let d = Config::default;
    for c in [
        Config { limiter_ceiling_db: (-24.0f64).to_bits(), ..d() },
        Config { limiter_ceiling_db: (-0.0f64).to_bits(), ..d() },
        Config { limiter_lookahead_ms: 0.05f64.to_bits(), ..d() },
        Config { limiter_lookahead_ms: 100.0f64.to_bits(), ..d() },
        Config { limiter_sustain_ms: 10000.0f64.to_bits(), ..d() },
        Config { limiter_release_ms: 0.1f64.to_bits(), ..d() },
        Config { limiter_release_ms: 5000.0f64.to_bits(), ..d() },
    ] {
        assert_eq!(c.validate(), Ok(()));
    }
}

#[test]
fn admission_takes_what_fits() {
    let c = Config { max_voices: 100, max_steal_percent: 25, ..Default::default() };
    assert_eq!(c.admit_take(0, 40), 40);
    assert_eq!(c.admit_take(0, 400), 100);
    assert_eq!(c.admit_take(90, 10), 10);
    // Ten free slots and twenty-five stolen ones.
    assert_eq!(c.admit_take(90, 400), 35);
    // What was admitted is admitted again.
    assert_eq!(c.admit_take(90, 35), 35);
    let c = Config { steal_rule: StealRule::DropNew, ..c };
    assert_eq!(c.admit_take(90, 400), 10);
    assert_eq!(c.admit_take(100, 1), 0);
}

#[test]
fn one_steal_is_always_allowed() {
    let c = Config { max_voices: 3, max_steal_percent: 1, ..Default::default() };
    assert_eq!(c.max_steal(), 1);
    let c = Config { max_voices: u32::MAX, max_steal_percent: 100, ..Default::default() };
    assert_eq!(c.pool_slots(), u32::MAX);
    let c = Config { block_frames: 10, steal_fade_frames: 10, ..Default::default() };
    assert_eq!(c.steal_span(), 1);
}
