use smartcool::benchmark::{
    classify_fans, default_count, find_fan, is_einval, list_of, load_topology, minimum_note,
    parse_direction, parse_position, prepare_from_detect, write_pwm_safe, FanPlacement, FanRole,
    FanTopo, Probe, Topology,
};
use smartcool::course::{Action, Course};
use smartcool::config::{AirflowDirection, FanPosition};
use smartcool::detect::{DetectedFan, DetectedSensor, DetectionResult};
use smartcool::identify::{check_duration, choose_fan, measured_line, standing_line};
use smartcool::scalar::Scalar;
use smartcool::stress::{check_cards, find_amdgpu_cards, DrmEntry, ForcedCards};
use smartcool::sweep::{
    check_controllable, compute_tuning, count_active, effective_levels, estimated_secs,
    has_settled, is_swept, sample_count, FanMeasurement, Samples, StallSearch,
};
use smartcool::sysfs::{Contents, Listing, Sysfs, SysfsFile};
use smartcool::wide::Wide;

fn scalar(x: f64) -> Scalar {
    Scalar { bits: x.to_bits() }
}

fn place(location: &str, direction: &str, count: u32) -> FanPlacement {
    FanPlacement {
        location: location.into(),
        direction: direction.into(),
        count,
    }
}

fn topo(name: &str, positions: Vec<FanPlacement>, group: Option<&str>) -> FanTopo {
    FanTopo {
        name: name.into(),
        positions,
        group: group.map(|g| g.to_owned()),
    }
}

fn topology() -> Topology {
    Topology {
        fans: vec![
            topo("fan1", vec![place("cpu_cooler", "exhaust", 1)], None),
            topo(
                "fan2",
                vec![place("top", "exhaust", 1), place("front", "intake", 3)],
                Some("case"),
            ),
            topo("fan3", vec![place("rear", "exhaust", 1)], Some("case")),
        ],
    }
}

fn names(list: &[&str]) -> Vec<String> {
    list.iter().map(|s| s.to_string()).collect()
}

fn detected(name: &str, pwm_index: u32) -> DetectedFan {
    DetectedFan {
        auto_name: name.into(),
        hwmon_chip: "nct6799".into(),
        hwmon_path: "/sys/class/hwmon/hwmon1".into(),
        pwm_index,
        current_rpm: Some(700),
    }
}

fn file(path: &str, text: &str) -> SysfsFile {
    SysfsFile {
        path: path.into(),
        contents: Contents::Text(text.into()),
    }
}

fn machine() -> Sysfs {
    let mut files = vec![file("/sys/class/hwmon/hwmon0/temp1_input", "40000")];
    for i in 1..3 {
        files.push(file(&format!("/sys/class/hwmon/hwmon1/pwm{i}"), "100"));
        files.push(file(&format!("/sys/class/hwmon/hwmon1/pwm{i}_enable"), "5"));
    }
    Sysfs {
        listing: Listing::Missing,
        files,
    }
}

fn detection() -> DetectionResult {
    DetectionResult {
        chips: vec![],
        sensors: vec![DetectedSensor {
            auto_name: "cpu".into(),
            hwmon_chip: "k10temp".into(),
            hwmon_path: "/sys/class/hwmon/hwmon0".into(),
            index: 1,
            label: None,
            current_temp_c: 40_000,
        }],
        fans: vec![detected("fan1", 1), detected("fan2", 2), detected("fan3", 3)],
    }
}

#[test]
fn a_refused_pwm_value_is_raised() {
    assert!(is_einval("failed to write: Invalid argument (os error 22)"));
    assert!(!is_einval("Permission denied"));
    assert!(matches!(write_pwm_safe("fan1", 40, Ok(())), Probe::Running(40)));
    assert!(matches!(
        write_pwm_safe("fan1", 40, Err("Invalid argument".into())),
        Probe::Try(41)
    ));
    match write_pwm_safe("fan1", 255, Err("Invalid argument".into())) {
        Probe::Failed(m) => {
            assert_eq!(m, "fan 'fan1': driver rejected all PWM values 0-255")
        }
        _ => panic!("nothing above 255"),
    }
    match write_pwm_safe("fan1", 40, Err("Permission denied".into())) {
        Probe::Failed(m) => assert_eq!(m, "Permission denied"),
        _ => panic!("no retry"),
    }
    assert_eq!(
        minimum_note("fan1", 52, 40).unwrap(),
        "  (fan 'fan1' minimum PWM = 52, driver rejected 40)"
    );
    assert_eq!(minimum_note("fan1", 40, 40), None);
}

#[test]
fn positions_and_directions_have_words() {
    assert_eq!(parse_position("gpu_cooler"), Ok(FanPosition::GpuCooler));
    assert_eq!(parse_position("side"), Ok(FanPosition::Side));
    assert_eq!(
        parse_position("left").unwrap_err(),
        "unknown position: 'left' (expected: front, rear, top, bottom, side, cpu_cooler, gpu_cooler)"
    );
    assert_eq!(parse_direction("intake"), Ok(AirflowDirection::Intake));
    assert_eq!(
        parse_direction("in").unwrap_err(),
        "unknown direction: 'in' (expected: intake, exhaust)"
    );
    assert_eq!(default_count(), 1);
}

#[test]
fn a_topology_lists_fans() {
    assert_eq!(load_topology("/t.pkl", Ok(topology())).unwrap().fans.len(), 3);
    assert_eq!(
        load_topology("/t.pkl", Ok(Topology { fans: vec![] })).unwrap_err(),
        "topology file has no fan entries"
    );
    assert_eq!(
        load_topology("/t.pkl", Err("bad".into())).unwrap_err(),
        "failed to evaluate topology Pkl /t.pkl: bad"
    );
}

#[test]
fn fans_of_a_group_follow_the_first() {
    let fans = classify_fans(&topology(), &names(&["cpu", "gpu", "cpu_ccd1"])).unwrap();
    assert!(matches!(fans[0].role, FanRole::DirectCooler));
    assert_eq!(fans[0].expected_sensors, names(&["cpu", "cpu_ccd1"]));
    assert!(matches!(fans[1].role, FanRole::CaseRepresentative));
    assert_eq!(fans[1].position, FanPosition::Front);
    assert_eq!(fans[1].direction, AirflowDirection::Intake);
    match &fans[2].role {
        FanRole::CaseFollower { representative } => assert_eq!(representative, "fan2"),
        _ => panic!("fan3 follows"),
    }
    assert_eq!(fans[2].expected_sensors.len(), 3);
    assert_eq!(count_active(&fans), 2);
    assert!(is_swept(&fans[0], true));
    assert!(!is_swept(&fans[0], false));
    assert!(!is_swept(&fans[2], true));

    let bare = Topology {
        fans: vec![topo("fan9", vec![], None)],
    };
    assert_eq!(
        classify_fans(&bare, &vec![]).unwrap_err(),
        "fan 'fan9' has no positions"
    );
}

#[test]
fn of_equal_locations_the_last_counts() {
    let tie = Topology {
        fans: vec![topo(
            "fan1",
            vec![place("top", "exhaust", 2), place("front", "intake", 2)],
            None,
        )],
    };
    let fans = classify_fans(&tie, &vec![]).unwrap();
    assert_eq!(fans[0].position, FanPosition::Front);
}

#[test]
fn the_benchmark_takes_what_it_can_control() {
    let prepared = prepare_from_detect(&detection(), &topology(), &machine()).unwrap();
    assert_eq!(prepared.sensor_names, names(&["cpu"]));
    assert_eq!(prepared.fans.len(), 2);
    assert_eq!(prepared.config.fans.len(), 2);
    assert_eq!(prepared.config.fans[1].topology.position, FanPosition::Front);
    assert_eq!(prepared.skipped.len(), 1);
    assert!(prepared.skipped[0].contains("skipping fan 'fan3'"));
    assert_eq!(prepared.places, vec![Some(0), Some(1), None]);

    let mut first_missing = machine();
    first_missing.files.retain(|f| !f.path.contains("pwm1"));
    let prepared = prepare_from_detect(&detection(), &topology(), &first_missing).unwrap();
    assert_eq!(prepared.places, vec![None, Some(0), None]);
    assert_eq!(prepared.fans[0].name, "fan2");
}

#[test]
fn a_topology_may_only_name_detected_fans() {
    let unknown = Topology {
        fans: vec![topo("pump", vec![place("front", "intake", 1)], None)],
    };
    assert_eq!(
        prepare_from_detect(&detection(), &unknown, &machine()).unwrap_err(),
        "topology fan 'pump' not found in detected hardware. Available: [\"fan1\", \"fan2\", \"fan3\"]"
    );
    let third = Topology {
        fans: vec![topo("fan3", vec![place("front", "intake", 1)], None)],
    };
    assert!(prepare_from_detect(&detection(), &third, &machine()).is_err());
    assert_eq!(find_fan(&detection().fans, "fan2"), Some(1));
    assert_eq!(find_fan(&detection().fans, "pump"), None);
}

#[test]
fn listed_names_are_quoted_and_escaped() {
    assert_eq!(list_of(&names(&["a", "b"])), "[a, b]");
    assert_eq!(list_of(&vec![]), "[]");
    let mut odd = detection();
    odd.fans = vec![detected("a\"b", 1), detected("c\n", 2)];
    assert_eq!(
        prepare_from_detect(&odd, &topology(), &machine()).unwrap_err(),
        "topology fan 'fan1' not found in detected hardware. Available: [\"a\\\"b\", \"c\\n\"]"
    );
}

#[test]
fn temperatures_settle_within_limits() {
    assert!(!has_settled(4, scalar(0.0)));
    assert!(has_settled(5, scalar(0.1)));
    assert!(!has_settled(5, scalar(0.2)));
    assert!(has_settled(20, scalar(9.0)));
    assert_eq!(sample_count(3), 6);
}

#[test]
fn the_stall_threshold_is_searched() {
    // A fan that spins from 33 on.
    let mut search = StallSearch::new();
    let mut tried: Vec<u8> = Vec::new();
    while let Some(pwm) = search.next() {
        tried.push(pwm);
        search.report(pwm, if pwm >= 33 { 500 } else { 0 });
    }
    assert_eq!(tried[0], 80);
    assert!(search.stall >= 33);
    assert!(search.stall <= 36);

    // One that spins from 79 on stands at every value below the first.
    let mut search = StallSearch::new();
    let mut tried: Vec<u8> = Vec::new();
    while let Some(pwm) = search.next() {
        tried.push(pwm);
        search.report(pwm, if pwm >= 79 { 500 } else { 0 });
    }
    assert_eq!(tried, vec![80, 40, 60, 70, 75, 78]);
    assert_eq!(search.stall, 80);

    // One that never spins has no threshold.
    let mut search = StallSearch::new();
    assert_eq!(search.next(), Some(80));
    search.report(80, 0);
    assert_eq!(search.next(), None);
    assert_eq!(search.stall, 0);
}

#[test]
fn a_sweep_starts_at_the_stall_threshold() {
    assert_eq!(effective_levels(0), vec![1, 40, 100, 180, 255]);
    assert_eq!(effective_levels(40), vec![40, 100, 180, 255]);
    assert_eq!(effective_levels(101), vec![101, 180, 255]);
    assert_eq!(estimated_secs(3), 30 + 3 * 4 * 12);
    assert_eq!(check_controllable(&vec![true, false, true]), Ok(2));
    assert!(check_controllable(&vec![false]).is_err());
}

#[test]
fn coupling_is_measured_and_inherited() {
    let fans = classify_fans(&topology(), &names(&["cpu", "gpu"])).unwrap();
    // Two samples per reading: 60 °C at 100, 50 °C at 200; the second sensor stays.
    let measurements = vec![FanMeasurement {
        fan_name: "fan2".into(),
        stall_pwm: 0,
        readings: vec![(100, vec![120_000, 80_000]), (200, vec![100_000, 80_000])],
    }];
    let couplings = compute_tuning(&measurements, &fans, &names(&["cpu", "gpu"]), 2);
    assert_eq!(couplings.len(), 2);
    assert_eq!(couplings[0].fan, "fan2");
    assert_eq!(couplings[0].sensor, "cpu");
    assert_eq!(couplings[0].readings, 2);
    let num = couplings[0].num.to_i128().unwrap();
    let den = couplings[0].den.to_i128().unwrap();
    let spread = couplings[0].spread.to_i128().unwrap();
    let slope = num as f64 / den as f64 / 2000.0;
    assert!((slope - (-0.1)).abs() < 1e-12);
    let r_squared = (num as f64).powi(2) / (den as f64 * spread as f64);
    assert!((r_squared - 1.0).abs() < 1e-12);
    assert_eq!(couplings[1].fan, "fan3");
    assert_eq!(couplings[1].num.to_i128(), Some(num));
    assert_eq!(couplings[1].den.to_i128(), Some(den));
}

#[test]
fn couplings_are_measured_whatever_the_readings() {
    let fans = classify_fans(&topology(), &names(&["cpu"])).unwrap();
    let measured = |low: i128, high: i128| {
        let measurements = vec![FanMeasurement {
            fan_name: "fan1".into(),
            stall_pwm: 0,
            readings: vec![(100, vec![low]), (200, vec![high])],
        }];
        compute_tuning(&measurements, &fans, &names(&["cpu"]), 2)
    };
    let large: i128 = 1 << 37;
    let couplings = measured(0, large);
    assert_eq!(couplings.len(), 1);
    assert_eq!(couplings[0].num.to_i128(), Some(100 * large));
    assert_eq!(couplings[0].den.to_i128(), Some(10_000));
    assert_eq!(couplings[0].spread.to_i128(), Some(large * large));
    // The largest numbers there are: the parts exceed 128 bits and are still exact.
    let couplings = measured(i128::MIN, i128::MAX);
    assert_eq!(couplings.len(), 1);
    assert_eq!(couplings[0].num.to_i128(), None);
    assert!(!couplings[0].num.negative);
    assert_eq!(couplings[0].den.to_i128(), Some(10_000));
    let rise = Wide::of(u128::MAX);
    let expected = rise.times(100);
    assert!(!couplings[0].num.size.exceeds(&expected));
    assert!(!expected.exceeds(&couplings[0].num.size));
    // A sensor that hardly moves gives none.
    assert!(measured(0, 1).is_empty());
}

#[test]
fn sampled_temperatures_are_summed_sensor_by_sensor() {
    let mut samples = Samples::new(2);
    assert_eq!(samples.sums, vec![0, 0]);
    samples.take(&vec![Some(40_000), Some(-1_000)]);
    samples.take(&vec![Some(41_500), None]);
    assert_eq!(samples.sums, vec![81_500, -1_000]);
    assert_eq!(samples.rounds, 2);
    // More than 64 bits hold.
    let mut samples = Samples::new(1);
    samples.take(&vec![Some(i64::MAX)]);
    samples.take(&vec![Some(i64::MAX)]);
    assert_eq!(samples.sums, vec![2 * i64::MAX as i128]);
}

#[test]
fn one_fan_is_chosen_for_identification() {
    let fans = detection().fans;
    assert_eq!(check_duration(1), Ok(()));
    assert_eq!(
        check_duration(0).unwrap_err(),
        "duration must be greater than zero"
    );
    assert_eq!(choose_fan(&fans, "fan2", 5), Ok(1));
    assert_eq!(
        choose_fan(&fans, "fan2", 0).unwrap_err(),
        "duration must be greater than zero"
    );
    assert_eq!(
        choose_fan(&fans, "pump", 5).unwrap_err(),
        "fan 'pump' was not detected; available fans: fan1, fan2, fan3"
    );
    assert_eq!(
        standing_line(&fans[1], 90, 640),
        "fan2: chip=nct6799 pwm2 current_pwm=90 current_rpm=640"
    );
    assert_eq!(measured_line("fan2", 2100), "fan2: measured_rpm=2100 at_pwm=255");
}

#[test]
fn graphics_cards_are_forced_and_put_back() {
    let entry = |name: &str, driver: Option<&str>, has_level: bool| DrmEntry {
        name: name.into(),
        path: format!("/sys/class/drm/{name}"),
        driver: driver.map(|d| d.to_owned()),
        has_level,
    };
    let cards = find_amdgpu_cards(&vec![
        entry("card1", Some("amdgpu"), true),
        entry("card1-DP-1", Some("amdgpu"), true),
        entry("card0", Some("amdgpu"), true),
        entry("card2", Some("i915"), true),
        entry("card3", Some("amdgpu"), false),
        entry("renderD128", Some("amdgpu"), true),
    ]);
    assert_eq!(cards, vec!["/sys/class/drm/card0", "/sys/class/drm/card1"]);
    assert_eq!(check_cards(&cards), Ok(()));
    assert!(check_cards(&vec![]).unwrap_err().contains("no AMD GPU DRM cards found"));

    let mut forced = ForcedCards::new();
    let write = ForcedCards::force(&cards[0]);
    assert_eq!(
        write.path,
        "/sys/class/drm/card0/device/power_dpm_force_performance_level"
    );
    assert_eq!(write.path, ForcedCards::level_path(&cards[0]));
    assert_eq!(write.value, "high");
    forced.forced(&cards[0], "auto\n");
    let back = forced.stop();
    assert_eq!(back.len(), 1);
    assert_eq!(back[0].path, write.path);
    assert_eq!(back[0].value, "auto");
    assert!(forced.stop().is_empty());
}

/// Runs a benchmark on fans of which some cannot be driven; the fans that can turn
/// from 33 on. Every action goes to `seen`.
fn run(course: &mut Course, driven: &[bool], seen: &mut Vec<Action>) {
    let mut running = vec![0u8; driven.len()];
    loop {
        let action = course.next();
        seen.push(action);
        match action {
            Action::Take(fan) => course.took(driven[fan]),
            Action::Drive(fan, pwm) => {
                assert!(driven[fan]);
                running[fan] = pwm;
                course.drove(Ok(pwm));
            }
            Action::Listen(fan, _) => course.heard(if running[fan] >= 33 { 600 } else { 0 }),
            Action::Measure => {
                let total: i128 = running.iter().map(|pwm| *pwm as i128).sum();
                course.sampled(vec![480_000 - 100 * total]);
            }
            Action::Finish | Action::Fail => return,
        }
    }
}

#[test]
fn the_benchmark_runs_its_course() {
    let fans = classify_fans(&topology(), &names(&["cpu"])).unwrap();
    let mut course = Course::new(fans);
    let mut seen: Vec<Action> = Vec::new();
    run(&mut course, &[true, true, true], &mut seen);
    assert_eq!(seen[0], Action::Take(0));
    assert_eq!(seen[3], Action::Drive(0, 0));
    assert_eq!(seen[6], Action::Measure);
    assert_eq!(seen[7], Action::Drive(0, 80));
    assert_eq!(seen[8], Action::Listen(0, 3));
    assert_eq!(seen[9], Action::Drive(0, 40));
    assert_eq!(seen[10], Action::Listen(0, 2));
    assert_eq!(*seen.last().unwrap(), Action::Finish);
    // The follower is not swept.
    let measured: Vec<&str> = course.measured.iter().map(|m| m.fan_name.as_str()).collect();
    assert_eq!(measured, vec!["fan1", "fan2"]);
    for m in &course.measured {
        let levels: Vec<u8> = m.readings.iter().map(|(pwm, _)| *pwm).collect();
        assert_eq!(levels, effective_levels(m.stall_pwm));
        // The other two stand at the midpoint.
        for (pwm, sums) in &m.readings {
            assert_eq!(sums[0], 480_000 - 100 * (*pwm as i128 + 256));
        }
    }
    let couplings = compute_tuning(&course.measured, &course.classified, &names(&["cpu"]), 6);
    let fans: Vec<&str> = couplings.iter().map(|c| c.fan.as_str()).collect();
    assert_eq!(fans, vec!["fan1", "fan2", "fan3"]);
}

#[test]
fn fans_that_cannot_be_driven_are_left_alone() {
    let fans = classify_fans(&topology(), &names(&["cpu"])).unwrap();
    let mut course = Course::new(fans);
    let mut seen: Vec<Action> = Vec::new();
    run(&mut course, &[false, true, false], &mut seen);
    assert_eq!(*seen.last().unwrap(), Action::Finish);
    assert_eq!(course.measured.len(), 1);
    assert_eq!(course.measured[0].fan_name, "fan2");
}

#[test]
fn entries_of_one_fan_have_one_threshold() {
    let twice = Topology {
        fans: vec![
            topo("fan1", vec![place("cpu_cooler", "exhaust", 1)], None),
            topo("fan1", vec![place("front", "intake", 1)], None),
            topo("fan2", vec![place("rear", "exhaust", 1)], None),
        ],
    };
    let fans = classify_fans(&twice, &names(&["cpu"])).unwrap();
    let mut course = Course::new(fans);
    let mut running = vec![0u8; 3];
    // The first search finds another threshold than the second.
    let turns_from = [33, 60, 10];
    loop {
        match course.next() {
            Action::Take(_) => course.took(true),
            Action::Drive(fan, pwm) => {
                running[fan] = pwm;
                course.drove(Ok(pwm));
            }
            Action::Listen(fan, _) => {
                course.heard(if running[fan] >= turns_from[fan] { 600 } else { 0 })
            }
            Action::Measure => course.sampled(vec![100_000]),
            Action::Finish => break,
            Action::Fail => panic!("{:?}", course.failure),
        }
    }
    let stalls: Vec<u8> = course.measured.iter().map(|m| m.stall_pwm).collect();
    assert_eq!(stalls.len(), 3);
    assert!(stalls[0] >= 60);
    assert_eq!(stalls[0], stalls[1]);
    assert!(stalls[2] < 33);
    for m in &course.measured {
        assert_eq!(m.readings[0].0, m.stall_pwm);
    }
}

#[test]
fn a_benchmark_without_fans_fails() {
    let fans = classify_fans(&topology(), &names(&["cpu"])).unwrap();
    let mut course = Course::new(fans);
    let mut seen: Vec<Action> = Vec::new();
    run(&mut course, &[false, false, false], &mut seen);
    assert_eq!(seen.len(), 4);
    assert_eq!(
        course.failure.unwrap(),
        "no fans are controllable \u{2014} cannot benchmark"
    );
    assert_eq!(Course::new(vec![]).next(), Action::Fail);
}

#[test]
fn a_fan_that_fails_ends_the_benchmark() {
    let fans = classify_fans(&topology(), &names(&["cpu"])).unwrap();
    let mut course = Course::new(fans);
    for _ in 0..3 {
        course.took(true);
    }
    course.drove(Err("permission denied".into()));
    assert_eq!(course.next(), Action::Fail);
    assert_eq!(course.failure.unwrap(), "permission denied");
}
