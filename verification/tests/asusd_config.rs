use smartcool::asusd_config::{
    enabled_by_default, load, validate, Config, CurveConfig, Fan, Profile, ProfileConfig,
};

fn test_config() -> Config {
    Config {
        profiles: vec![ProfileConfig {
            name: "Balanced".into(),
            curves: vec![CurveConfig {
                fan: "cpu".into(),
                temp: vec![30, 40, 50, 60, 70, 80, 90, 100],
                pwm: vec![0, 10, 30, 60, 100, 150, 210, 255],
                enabled: true,
            }],
        }],
    }
}

/// What is said of firmware curves that are refused.
fn refusal(config: &Config) -> String {
    validate(config).unwrap_err().message(config)
}

#[test]
fn accepts_normalized_names_and_preserves_raw_pwm() {
    let config = test_config();
    validate(&config).unwrap();
    assert_eq!(Profile::parse("LOW-power").unwrap(), Profile::LowPower);
    assert_eq!(config.profiles[0].curves[0].wire().unwrap().1[7], 255);
    assert!(Profile::parse("qu!iet").is_err());
}

#[test]
fn rejects_empty_and_duplicate_profiles() {
    assert!(validate(&Config { profiles: vec![] }).is_err());
    let mut config = test_config();
    config.profiles[0].curves.clear();
    assert!(refusal(&config).contains("at least one fan curve"));

    let mut config = test_config();
    config.profiles.push(config.profiles[0].clone());
    assert!(refusal(&config).contains("duplicate"));
}

#[test]
fn rejects_unknown_and_duplicate_fans() {
    let mut config = test_config();
    config.profiles[0].curves[0].fan = "chassis".into();
    assert!(refusal(&config).contains("unknown"));

    let mut config = test_config();
    let duplicate = config.profiles[0].curves[0].clone();
    config.profiles[0].curves.push(duplicate);
    assert!(refusal(&config).contains("duplicate"));
}

#[test]
fn rejects_wrong_lengths_and_unsafe_values() {
    let mut config = test_config();
    config.profiles[0].curves[0].temp.pop();
    assert!(refusal(&config).contains("exactly 8"));

    let mut config = test_config();
    config.profiles[0].curves[0].temp[7] = 101;
    assert!(refusal(&config).contains("<= 100"));

    let mut config = test_config();
    config.profiles[0].curves[0].pwm[7] = 256;
    assert!(refusal(&config).contains("<= 255"));
}

#[test]
fn rejects_decreasing_curves() {
    let mut config = test_config();
    config.profiles[0].curves[0].temp[1] = 20;
    assert!(refusal(&config).contains("temperatures must be non-decreasing"));

    let mut config = test_config();
    config.profiles[0].curves[0].pwm[1] = 20;
    config.profiles[0].curves[0].pwm[2] = 10;
    assert!(refusal(&config).contains("PWM values must be non-decreasing"));
}

#[test]
fn refusals_name_the_profile_and_the_fan() {
    let config = Config { profiles: vec![] };
    assert_eq!(refusal(&config), "at least one asusd profile is required");

    let mut config = test_config();
    config.profiles[0].name = "turbo".into();
    assert_eq!(refusal(&config), "unknown asusd profile 'turbo'");

    let mut config = test_config();
    config.profiles[0].curves[0].fan = "chassis".into();
    assert_eq!(refusal(&config), "unknown asusd fan 'chassis'");

    let mut config = test_config();
    config.profiles[0].curves[0].pwm.push(255);
    assert!(refusal(&config).contains("must have exactly 8 PWM values"));
}

#[test]
fn profiles_and_fans_have_names_and_ids() {
    let all = [
        Profile::Balanced,
        Profile::Performance,
        Profile::Quiet,
        Profile::LowPower,
        Profile::Custom,
    ];
    for profile in all {
        assert_eq!(Profile::parse(profile.name()), Ok(profile));
        assert_eq!(Profile::from_id(profile.id()), Ok(profile));
    }
    assert_eq!(Profile::Balanced.id(), 0);
    assert!(Profile::from_id(9).is_err());
    for fan in [Fan::Cpu, Fan::Gpu, Fan::Mid] {
        assert_eq!(Fan::parse(fan.name()), Ok(fan));
    }
    assert_eq!(Fan::parse("mid"), Ok(Fan::Mid));
    assert!(enabled_by_default());
}

#[test]
fn a_curve_goes_over_the_bus_in_capitals_with_its_numbers() {
    let wire = test_config().profiles[0].curves[0].wire().unwrap();
    assert_eq!(wire.0, "CPU");
    assert_eq!(wire.1, [0, 10, 30, 60, 100, 150, 210, 255]);
    assert_eq!(wire.2, [30, 40, 50, 60, 70, 80, 90, 100]);
    assert!(wire.3);

    let mut short = test_config().profiles[0].curves[0].clone();
    short.pwm.pop();
    assert!(short.wire().is_err());
}

#[test]
fn loading_firmware_curves_gives_them_or_says_what_is_wrong() {
    let loaded = load("/tmp/asusd.pkl", Ok(test_config())).unwrap();
    assert_eq!(loaded.profiles[0].curves[0].wire().unwrap().0, "CPU");
    assert_eq!(
        load("/tmp/asusd.pkl", Ok(Config { profiles: vec![] })).unwrap_err(),
        "at least one asusd profile is required"
    );
    assert_eq!(
        load("/tmp/asusd.pkl", Err("no such file".into())).unwrap_err(),
        "failed to evaluate asusd Pkl config: /tmp/asusd.pkl: failed to evaluate Pkl \
         /tmp/asusd.pkl: no such file"
    );
}
