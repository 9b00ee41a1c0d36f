use smartcool::config::{
    default_ewma_span, load, validate, AirflowDirection, Config, ConfigError, CurvePoint,
    DerivativeConfig, FanConfig, FanPosition, FanTopology, SensorConfig, TuningConfig,
};
use smartcool::scalar::Scalar;

fn scalar(x: f64) -> Scalar {
    Scalar { bits: x.to_bits() }
}

fn test_fan() -> FanConfig {
    FanConfig {
        name: "test".into(),
        hwmon: "nct6799".into(),
        pwm_index: 1,
        hwmon_instance: None,
        topology: FanTopology {
            position: FanPosition::Front,
            direction: AirflowDirection::Intake,
            group: None,
        },
        sensors: vec!["cpu".into()],
        curve: vec![
            CurvePoint { temp: 45, pwm: 20 },
            CurvePoint { temp: 55, pwm: 40 },
            CurvePoint { temp: 65, pwm: 80 },
            CurvePoint { temp: 75, pwm: 130 },
            CurvePoint { temp: 85, pwm: 200 },
        ],
    }
}

fn test_config() -> Config {
    Config {
        poll_interval_ms: 2000,
        derivative: DerivativeConfig {
            window_size: 10,
            boost_threshold: scalar(2.0),
            decay_rate: scalar(0.5),
        },
        sensors: vec![SensorConfig {
            name: "cpu".into(),
            hwmon: "k10temp".into(),
            index: 1,
            hwmon_instance: None,
        }],
        fans: vec![test_fan()],
        tuning: TuningConfig::default(),
    }
}

/// What is said of a configuration that is refused.
fn refusal(config: &Config) -> String {
    validate(config).unwrap_err().message(config)
}

#[test]
fn interpolate_below_curve() {
    let fan = test_fan();
    assert_eq!(fan.interpolate_pwm(30_000), 20);
}

#[test]
fn interpolate_above_curve() {
    let fan = test_fan();
    assert_eq!(fan.interpolate_pwm(100_000), 200);
}

#[test]
fn interpolate_exact_point() {
    let fan = test_fan();
    assert_eq!(fan.interpolate_pwm(55_000), 40);
}

#[test]
fn interpolate_midpoint() {
    let fan = test_fan();
    // Midpoint between (45, 20) and (55, 40) → 30
    assert_eq!(fan.interpolate_pwm(50_000), 30);
}

#[test]
fn interpolation_rounds_to_the_nearest_pwm() {
    let fan = test_fan();
    assert_eq!(fan.interpolate_pwm(45_200), 20);
    assert_eq!(fan.interpolate_pwm(45_300), 21);
    assert_eq!(fan.interpolate_pwm(66_100), 86);
    assert_eq!(fan.interpolate_pwm(84_999), 200);
}

#[test]
fn an_empty_curve_stands_still() {
    let mut fan = test_fan();
    fan.curve.clear();
    assert_eq!(fan.interpolate_pwm(20_000), 0);
}

#[test]
fn curves_rise_and_stay_between_their_ends() {
    let fan = test_fan();
    let mut before: u8 = 0;
    for degrees in 0i64..120 {
        let pwm = fan.interpolate_pwm(degrees * 1000);
        assert!(pwm >= before);
        assert!(20 <= pwm && pwm <= 200);
        before = pwm;
    }
    for point in &fan.curve {
        assert_eq!(fan.interpolate_pwm(point.temp as i64 * 1000), point.pwm);
    }
}

#[test]
fn validation_rejects_non_monotonic_pwm() {
    let mut config = test_config();
    config.fans[0].curve[1].pwm = 10;
    let error = refusal(&config);
    assert!(error.contains("PWM must be non-decreasing"));
}

#[test]
fn validation_rejects_duplicate_hardware_channel() {
    let mut config = test_config();
    let mut duplicate = test_fan();
    duplicate.name = "second".into();
    config.fans.push(duplicate);
    let error = refusal(&config);
    assert!(error.contains("shares its hwmon channel"));
}

#[test]
fn validation_rejects_unsafe_tuning_values() {
    let mut config = test_config();
    config.tuning.ccf_buffer_size = 0;
    assert!(refusal(&config).contains("ccf_buffer_size"));

    let mut config = test_config();
    config.tuning.ccf_buffer_size = 20;
    config.tuning.ccf_max_lag = 11;
    assert!(refusal(&config).contains("ccf_max_lag + 10"));

    let mut config = test_config();
    config.tuning.response_window = 0;
    assert!(refusal(&config).contains("response_window"));
}

#[test]
fn validation_rejects_non_finite_derivative_values() {
    let mut config = test_config();
    config.derivative.boost_threshold = scalar(f64::NAN);
    assert!(refusal(&config).contains("boost_threshold"));

    let mut config = test_config();
    config.derivative.decay_rate = scalar(f64::INFINITY);
    assert!(refusal(&config).contains("decay_rate"));
}

#[test]
fn accepts_a_usual_config() {
    assert_eq!(validate(&test_config()), Ok(()));
    // Zero, of either sign, is a threshold; anything below is not.
    let mut config = test_config();
    config.derivative.boost_threshold = scalar(-0.0);
    assert_eq!(validate(&config), Ok(()));
    config.derivative.boost_threshold = scalar(-0.5);
    assert_eq!(validate(&config), Err(ConfigError::BadBoostThreshold));
}

#[test]
fn every_setting_is_checked() {
    let mut config = test_config();
    config.sensors.clear();
    assert_eq!(refusal(&config), "at least one sensor is required");

    let mut config = test_config();
    config.fans.clear();
    assert_eq!(refusal(&config), "at least one fan is required");

    let mut config = test_config();
    config.poll_interval_ms = 0;
    assert_eq!(refusal(&config), "poll_interval_ms must be > 0");

    let mut config = test_config();
    config.derivative.window_size = 1;
    assert_eq!(refusal(&config), "derivative window_size must be >= 2");

    let mut config = test_config();
    config.tuning.ewma_span = 0;
    assert_eq!(refusal(&config), "tuning ewma_span must be > 0");

    let mut config = test_config();
    config.tuning.ccf_max_lag = usize::MAX;
    assert_eq!(refusal(&config), "tuning ccf_max_lag is too large");

    let mut config = test_config();
    config.tuning.step_threshold = 0;
    assert_eq!(refusal(&config), "tuning step_threshold must be > 0");

    let mut config = test_config();
    config.tuning.response_window = 4;
    assert_eq!(refusal(&config), "tuning response_window must be >= 5");

    let mut config = test_config();
    config.tuning.regression_min_samples = 0;
    assert_eq!(refusal(&config), "tuning regression_min_samples must be > 0");
}

#[test]
fn every_sensor_is_checked() {
    let mut config = test_config();
    config.sensors[0].name = " \t".into();
    assert_eq!(refusal(&config), "sensor name must not be empty");

    let mut config = test_config();
    config.sensors[0].hwmon = "".into();
    assert_eq!(refusal(&config), "sensor 'cpu' has empty hwmon");

    let mut config = test_config();
    config.sensors[0].index = 0;
    assert_eq!(refusal(&config), "sensor 'cpu' index must be > 0");

    let mut config = test_config();
    let again = config.sensors[0].clone();
    config.sensors.push(again);
    assert_eq!(refusal(&config), "duplicate sensor name 'cpu'");
}

#[test]
fn every_fan_is_checked() {
    let mut config = test_config();
    config.fans[0].name = "".into();
    assert_eq!(refusal(&config), "fan name must not be empty");

    let mut config = test_config();
    config.fans[0].hwmon = " ".into();
    assert_eq!(refusal(&config), "fan 'test' has empty hwmon");

    let mut config = test_config();
    config.fans[0].pwm_index = 0;
    assert_eq!(refusal(&config), "fan 'test' pwm_index must be > 0");

    let mut config = test_config();
    let mut again = test_fan();
    again.pwm_index = 2;
    config.fans.push(again);
    assert_eq!(refusal(&config), "duplicate fan name 'test'");

    let mut config = test_config();
    config.fans[0].sensors.clear();
    assert_eq!(refusal(&config), "fan 'test' must reference at least one sensor");

    let mut config = test_config();
    config.fans[0].curve.clear();
    assert_eq!(refusal(&config), "fan 'test' curve must contain at least one point");

    let mut config = test_config();
    config.fans[0].curve[1].temp = 45;
    assert_eq!(
        refusal(&config),
        "fan 'test' curve must be sorted by ascending temperature"
    );

    let mut config = test_config();
    config.fans[0].curve[4].temp = 151;
    assert_eq!(
        refusal(&config),
        "fan 'test' curve temperature 151°C is outside the supported 0..=150°C range"
    );

    let mut config = test_config();
    config.fans[0].sensors.push("gpu".into());
    assert_eq!(refusal(&config), "fan 'test' references unknown sensor 'gpu'");
}

#[test]
fn a_curve_of_one_point_is_flat() {
    let mut config = test_config();
    config.fans[0].curve.truncate(1);
    assert_eq!(validate(&config), Ok(()));
    assert_eq!(config.fans[0].interpolate_pwm(10_000), 20);
    assert_eq!(config.fans[0].interpolate_pwm(45_000), 20);
    assert_eq!(config.fans[0].interpolate_pwm(90_000), 20);
}

#[test]
fn fans_on_other_instances_of_a_chip_do_not_share_a_channel() {
    let mut config = test_config();
    let mut other = test_fan();
    other.name = "second".into();
    other.hwmon_instance = Some(1);
    config.fans.push(other);
    assert_eq!(validate(&config), Ok(()));
}

#[test]
fn tuning_has_defaults() {
    let t = TuningConfig::default();
    assert_eq!(t.ewma_span, 20);
    assert_eq!(t.ccf_buffer_size, 120);
    assert_eq!(t.ccf_max_lag, 30);
    assert_eq!(t.step_threshold, 15);
    assert_eq!(t.response_window, 60);
    assert_eq!(t.regression_min_samples, 60);
    assert_eq!(default_ewma_span(), 20);
}

#[test]
fn loading_gives_the_config_or_says_what_is_wrong() {
    let loaded = load("/etc/smartcool/config.pkl", Ok(test_config())).unwrap();
    assert_eq!(loaded.sensors.len(), 1);
    assert_eq!(loaded.fans[0].curve.len(), 5);

    let mut config = test_config();
    config.sensors.clear();
    assert_eq!(
        load("/etc/smartcool/config.pkl", Ok(config)).unwrap_err(),
        "at least one sensor is required"
    );

    assert_eq!(
        load("/tmp/invalid.pkl", Err("unexpected token".into())).unwrap_err(),
        "failed to evaluate Pkl config: /tmp/invalid.pkl: failed to evaluate Pkl \
         /tmp/invalid.pkl: unexpected token"
    );
}
