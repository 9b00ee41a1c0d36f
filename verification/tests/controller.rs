use smartcool::config::{
    AirflowDirection, Config, CurvePoint, DerivativeConfig, FanConfig, FanPosition, FanTopology,
    SensorConfig, TuningConfig,
};
use smartcool::controller::{
    analytics_due, command, judge, linked_sensor_maxima, linked_temps, pause, plan_fan, pwms_of,
    resolve_fans, resolve_sensors, sense, settle_fan, sleep_interruptibly, BoostAction,
    FanCommand, Notice, Pace, Reading,
};
use smartcool::hwmon::Fan;
use smartcool::interrupt::{InterruptGuard, NAP};
use smartcool::names::NameMap;
use smartcool::scalar::Scalar;
use smartcool::sysfs::{Contents, DirEntry, Listing, Sysfs, SysfsFile};

fn scalar(x: f64) -> Scalar {
    Scalar { bits: x.to_bits() }
}

fn temperatures(entries: &[(&str, i64)]) -> NameMap<i64> {
    let mut map = NameMap::new();
    for (name, temp) in entries {
        map.put(name, *temp);
    }
    map
}

fn derivatives(entries: &[(&str, f64)]) -> NameMap<Scalar> {
    let mut map = NameMap::new();
    for (name, rate) in entries {
        map.put(name, scalar(*rate));
    }
    map
}

fn fan_config() -> FanConfig {
    FanConfig {
        name: "front".into(),
        hwmon: "nct6799".into(),
        pwm_index: 2,
        hwmon_instance: None,
        topology: FanTopology {
            position: FanPosition::Front,
            direction: AirflowDirection::Intake,
            group: None,
        },
        sensors: vec!["cpu".into(), "gpu".into()],
        curve: vec![
            CurvePoint { temp: 40, pwm: 20 },
            CurvePoint { temp: 80, pwm: 220 },
        ],
    }
}

fn config() -> Config {
    Config {
        poll_interval_ms: 2000,
        derivative: DerivativeConfig {
            window_size: 10,
            boost_threshold: scalar(2.0),
            decay_rate: scalar(0.5),
        },
        sensors: vec![SensorConfig {
            name: "cpu".into(),
            hwmon: "k10temp".into(),
            index: 1,
            hwmon_instance: None,
        }],
        fans: vec![fan_config()],
        tuning: TuningConfig::default(),
    }
}

fn file(path: &str, text: &str) -> SysfsFile {
    SysfsFile {
        path: path.into(),
        contents: Contents::Text(text.into()),
    }
}

fn machine() -> Sysfs {
    Sysfs {
        listing: Listing::Entries(vec![
            DirEntry::Path("/sys/class/hwmon/hwmon0".into()),
            DirEntry::Path("/sys/class/hwmon/hwmon1".into()),
        ]),
        files: vec![
            file("/sys/class/hwmon/hwmon0/name", "k10temp\n"),
            file("/sys/class/hwmon/hwmon0/temp1_input", "50000\n"),
            file("/sys/class/hwmon/hwmon1/name", "nct6799\n"),
            file("/sys/class/hwmon/hwmon1/pwm2", "100\n"),
            file("/sys/class/hwmon/hwmon1/pwm2_enable", "5\n"),
            file("/sys/class/hwmon/hwmon1/fan2_input", "900\n"),
        ],
    }
}

#[test]
fn poll_sleep_returns_promptly_after_shutdown() {
    // Two seconds are slept in naps; the signal comes during the first one.
    let mut remaining: u128 = 2_000_000_000;
    let mut slept: u128 = 0;
    let mut shutdown = false;
    while let Some(nap) = sleep_interruptibly(shutdown, remaining) {
        slept += nap as u128;
        remaining -= nap as u128;
        if slept >= 10_000_000 {
            shutdown = true;
        }
    }
    assert!(slept < 1_000_000_000);
}

#[test]
fn an_undisturbed_sleep_lasts_as_long_as_asked() {
    let mut remaining: u128 = 250_000_000;
    let mut naps: Vec<u64> = Vec::new();
    while let Some(nap) = sleep_interruptibly(false, remaining) {
        naps.push(nap);
        remaining -= nap as u128;
    }
    assert_eq!(naps.iter().sum::<u64>(), 250_000_000);
    assert_eq!(remaining, 0);
}

#[test]
fn linked_sensor_maxima_requires_every_sensor() {
    let names = vec!["cpu".to_owned(), "gpu".to_owned()];
    let temperatures = temperatures(&[("cpu", 60_000)]);
    let derivatives = derivatives(&[("cpu", 1.0)]);

    assert_eq!(
        linked_sensor_maxima(&names, &temperatures, &derivatives),
        None
    );
}

#[test]
fn linked_sensor_maxima_selects_hottest_and_fastest() {
    let names = vec!["cpu".to_owned(), "gpu".to_owned()];
    let temperatures = temperatures(&[("cpu", 70_000), ("gpu", 80_000)]);
    let derivatives = derivatives(&[("cpu", -3.0), ("gpu", 2.0)]);

    assert_eq!(
        linked_sensor_maxima(&names, &temperatures, &derivatives),
        Some((80_000, scalar(-3.0)))
    );
}

#[test]
fn only_plausible_readings_are_used() {
    assert!(matches!(judge(Ok(45_000)), Reading::Accepted(45_000)));
    assert!(matches!(judge(Ok(900_000)), Reading::OutOfRange(900_000)));
    assert!(matches!(judge(Err("gone".into())), Reading::Unreadable(_)));
}

/// The temperatures and rates of a tick in which the sensors gave the readings.
fn tick(readings: Vec<(&str, Result<i64, String>, f64)>) -> (NameMap<i64>, NameMap<Scalar>) {
    let mut names: Vec<String> = Vec::new();
    let mut judged: Vec<Reading> = Vec::new();
    let mut rates: Vec<Scalar> = Vec::new();
    for (name, reading, rate) in readings {
        names.push(name.into());
        judged.push(judge(reading));
        rates.push(scalar(rate));
    }
    sense(&names, &judged, &rates)
}

#[test]
fn a_tick_knows_what_was_accepted() {
    let (temps, rates) = tick(vec![
        ("cpu", Ok(45_000), 0.5),
        ("gpu", Ok(0), 0.25),
        ("board", Err("gone".into()), 0.25),
        ("disk", Ok(30_000), 0.25),
        ("disk", Ok(31_000), 0.75),
        ("disk", Ok(-5), 1.0),
    ]);
    assert_eq!(temps.get("cpu"), Some(45_000));
    assert_eq!(rates.get("cpu"), Some(scalar(0.5)));
    assert_eq!(temps.get("gpu"), None);
    assert_eq!(rates.get("gpu"), None);
    assert_eq!(temps.get("board"), None);
    // The last reading of a name that is accepted counts.
    assert_eq!(temps.get("disk"), Some(31_000));
    assert_eq!(rates.get("disk"), Some(scalar(0.75)));
}

#[test]
fn a_tick_that_loses_a_sensor_drives_its_fans_at_full_speed() {
    let fan = fan_config();
    for lost in [Err("gone".to_owned()), Ok(0), Ok(150_001)] {
        let (temps, rates) = tick(vec![("cpu", Ok(50_000), 0.0), ("gpu", lost, 0.0)]);
        let plan = plan_fan(&fan, scalar(2.0), &temps, &rates);
        assert_eq!(plan.boost, BoostAction::Reset);
        let order = command(&fan, &plan, 40);
        assert_eq!((order.base_pwm, order.boost, order.target_pwm), (255, 0, 255));
    }
    let (temps, rates) = tick(vec![("cpu", Ok(50_000), 0.0), ("gpu", Ok(60_000), 0.0)]);
    let plan = plan_fan(&fan, scalar(2.0), &temps, &rates);
    assert_eq!(command(&fan, &plan, 0).target_pwm, 120);
}

#[test]
fn a_missing_sensor_means_full_speed() {
    let fan = fan_config();
    let plan = plan_fan(
        &fan,
        scalar(2.0),
        &temperatures(&[("cpu", 50_000)]),
        &derivatives(&[("cpu", 0.0)]),
    );
    assert!(plan.maxima.is_none());
    assert_eq!(plan.boost, BoostAction::Reset);
    assert_eq!(command(&fan, &plan, 0).target_pwm, 255);
}

#[test]
fn a_fan_follows_its_hottest_sensor_and_its_boost() {
    let fan = fan_config();
    let temps = temperatures(&[("cpu", 50_000), ("gpu", 60_000)]);
    let steady = plan_fan(&fan, scalar(2.0), &temps, &derivatives(&[("cpu", 0.0), ("gpu", 0.0)]));
    assert_eq!(steady.maxima, Some((60_000, scalar(0.0))));
    let plain = command(&fan, &steady, 0);
    assert_eq!((plain.base_pwm, plain.target_pwm), (120, 120));

    let rising = plan_fan(&fan, scalar(2.0), &temps, &derivatives(&[("cpu", 3.0), ("gpu", 0.0)]));
    assert_eq!(rising.boost, BoostAction::Raise);
    assert_eq!(command(&fan, &rising, 30).target_pwm, 150);
    assert_eq!(command(&fan, &rising, 300).target_pwm, 255);
    let falling = plan_fan(&fan, scalar(2.0), &temps, &derivatives(&[("cpu", -3.0), ("gpu", 0.0)]));
    assert_eq!(falling.boost, BoostAction::Decay);
}

#[test]
fn linked_temperatures_are_those_that_were_read() {
    let names = vec!["cpu".to_owned(), "gpu".to_owned()];
    let linked = linked_temps(&names, &temperatures(&[("gpu", 60_000), ("board", 1)]));
    assert_eq!(linked.get("gpu"), Some(60_000));
    assert_eq!(linked.get("cpu"), None);
    assert_eq!(linked.get("board"), None);
}

#[test]
fn sensors_and_fans_are_resolved_by_chip() {
    let sysfs = machine();
    let sensors = resolve_sensors(&config(), &sysfs).unwrap();
    assert_eq!(sensors[0].input_path, "/sys/class/hwmon/hwmon0/temp1_input");
    let fans = resolve_fans(&config(), &sysfs).unwrap();
    assert_eq!(fans[0].pwm_path, "/sys/class/hwmon/hwmon1/pwm2");
    assert_eq!(fans[0].original_enable, 5);

    let mut unknown = config();
    unknown.sensors[0].hwmon = "zenpower".into();
    assert!(resolve_sensors(&unknown, &sysfs).is_err());
}

#[test]
fn a_settled_fan_is_reported() {
    let sysfs = machine();
    let mut fan = Fan::from_path("front", "/sys/class/hwmon/hwmon1", 2, &sysfs).unwrap();
    let order = FanCommand {
        base_pwm: 100,
        boost: 0,
        target_pwm: 100,
    };
    let status = settle_fan(&mut fan, &order, Ok(()), &sysfs).unwrap();
    assert_eq!(status.pwm, 100);
    assert_eq!(status.rpm, 900);
    assert_eq!(fan.last_pwm, Some(100));
    assert_eq!(pwms_of(&vec![status]).get("front"), Some(100));

    assert!(settle_fan(&mut fan, &order, Err("no".into()), &sysfs).is_err());
}

#[test]
fn the_first_tick_says_ready_and_the_others_feed_the_watchdog() {
    let mut pace = Pace::new();
    assert_eq!(pace.next(), Notice::Ready);
    assert_eq!(pace.next(), Notice::Watchdog);
    assert!(analytics_due(30));
    assert!(!analytics_due(31));
}

#[test]
fn a_slow_tick_leaves_no_pause() {
    assert_eq!(pause(2000, 500_000_000), 1_500_000_000);
    assert_eq!(pause(2000, 2_500_000_000), 0);
}

#[test]
fn an_interrupt_ends_a_sleep() {
    let calm = InterruptGuard::new(false);
    assert_eq!(calm.check(), Ok(()));
    assert_eq!(calm.sleep(2 * NAP), Ok(Some(NAP)));
    assert_eq!(calm.sleep(NAP / 2), Ok(Some(NAP / 2)));
    assert_eq!(calm.sleep(0), Ok(None));
    let stopped = InterruptGuard::new(true);
    assert!(stopped.check().is_err());
    assert!(stopped.sleep(NAP).is_err());
}
