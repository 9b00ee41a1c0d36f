use smartcool::autoconfig::{
    build_config, default_case_curve, default_cpu_curve, default_gpu_curve, hwmon_instance_for,
    print_summary,
};
use smartcool::config::{validate, FanPosition};
use smartcool::detect::{ChipClass, DetectedFan, DetectedSensor, DetectionResult, HwmonChip};

fn cpu_sensor() -> DetectedSensor {
    DetectedSensor {
        auto_name: "cpu".into(),
        hwmon_chip: "k10temp".into(),
        hwmon_path: "/sys/class/hwmon/hwmon0".into(),
        index: 1,
        label: Some("Tctl".into()),
        current_temp_c: 45_000,
    }
}

fn gpu_sensor() -> DetectedSensor {
    DetectedSensor {
        auto_name: "gpu".into(),
        hwmon_chip: "amdgpu".into(),
        hwmon_path: "/sys/class/hwmon/hwmon1".into(),
        index: 1,
        label: Some("edge".into()),
        current_temp_c: 38_000,
    }
}

fn ec_fan() -> DetectedFan {
    DetectedFan {
        auto_name: "fan1".into(),
        hwmon_chip: "nct6799".into(),
        hwmon_path: "/sys/class/hwmon/hwmon2".into(),
        pwm_index: 1,
        current_rpm: Some(800),
    }
}

fn gpu_fan() -> DetectedFan {
    DetectedFan {
        auto_name: "gpu_fan".into(),
        hwmon_chip: "amdgpu".into(),
        hwmon_path: "/sys/class/hwmon/hwmon1".into(),
        pwm_index: 1,
        current_rpm: Some(1200),
    }
}

#[test]
fn build_config_basic() {
    let result = DetectionResult {
        chips: vec![
            HwmonChip {
                name: "k10temp".into(),
                path: "/sys/class/hwmon/hwmon0".into(),
                class: ChipClass::CpuTemp,
            },
            HwmonChip {
                name: "nct6799".into(),
                path: "/sys/class/hwmon/hwmon1".into(),
                class: ChipClass::MotherboardEc,
            },
        ],
        sensors: vec![cpu_sensor()],
        fans: vec![ec_fan()],
    };

    let config = build_config(&result);
    assert_eq!(config.sensors.len(), 1);
    assert_eq!(config.sensors[0].name, "cpu");
    assert_eq!(config.fans.len(), 1);
    assert_eq!(config.fans[0].sensors, vec!["cpu"]);
    assert_eq!(config.fans[0].curve.len(), default_cpu_curve().len());
    assert_eq!(config.fans[0].curve, default_cpu_curve());
    assert_eq!(validate(&config), Ok(()));
}

#[test]
fn gpu_fan_gets_gpu_curve() {
    let result = DetectionResult {
        chips: vec![],
        sensors: vec![cpu_sensor(), gpu_sensor()],
        fans: vec![gpu_fan()],
    };

    let config = build_config(&result);
    assert_eq!(config.fans[0].curve.len(), default_gpu_curve().len());
    assert_eq!(config.fans[0].curve[0].temp, default_gpu_curve()[0].temp);
    assert_eq!(config.fans[0].topology.position, FanPosition::GpuCooler);
}

#[test]
fn ec_fan_maps_to_all_cpu_gpu_sensors() {
    let result = DetectionResult {
        chips: vec![],
        sensors: vec![cpu_sensor(), gpu_sensor()],
        fans: vec![ec_fan()],
    };

    let config = build_config(&result);
    assert_eq!(config.fans[0].sensors, vec!["cpu", "gpu"]);
}

#[test]
fn default_curves_rise() {
    for curve in [default_cpu_curve(), default_gpu_curve(), default_case_curve()] {
        for i in 1..curve.len() {
            assert!(curve[i - 1].temp < curve[i].temp);
            assert!(curve[i - 1].pwm <= curve[i].pwm);
        }
    }
}

#[test]
fn instances_count_chips_of_one_name() {
    let chip = |name: &str, path: &str| HwmonChip {
        name: name.into(),
        path: path.into(),
        class: ChipClass::GpuTemp,
    };
    let chips = vec![
        chip("amdgpu", "/sys/class/hwmon/hwmon4"),
        chip("nvidia", "/sys/class/hwmon/hwmon5"),
        chip("amdgpu", "/sys/class/hwmon/hwmon1"),
    ];
    assert_eq!(
        hwmon_instance_for(&chips, "amdgpu", "/sys/class/hwmon/hwmon1"),
        Some(0)
    );
    assert_eq!(
        hwmon_instance_for(&chips, "amdgpu", "/sys/class/hwmon/hwmon4"),
        Some(1)
    );
    assert_eq!(
        hwmon_instance_for(&chips, "nvidia", "/sys/class/hwmon/hwmon5"),
        None
    );
    // The second number is the smaller one, though not as a text.
    let chips = vec![
        chip("amdgpu", "/sys/class/hwmon/hwmon10"),
        chip("amdgpu", "/sys/class/hwmon/hwmon2"),
    ];
    assert_eq!(
        hwmon_instance_for(&chips, "amdgpu", "/sys/class/hwmon/hwmon2"),
        Some(0)
    );
    assert_eq!(
        hwmon_instance_for(&chips, "amdgpu", "/sys/class/hwmon/hwmon10"),
        Some(1)
    );
}

#[test]
fn the_summary_names_sensors_and_fans() {
    let result = DetectionResult {
        chips: vec![],
        sensors: vec![cpu_sensor()],
        fans: vec![ec_fan()],
    };
    let lines = print_summary(&result, &vec!["45.0".to_owned()]);
    let text = lines.join("\n");
    assert!(text.contains("cpu"));
    assert!(text.contains("45.0"));
    assert!(text.contains("fan1"));
    assert!(text.contains("800"));
}
