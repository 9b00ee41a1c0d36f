use smartcool::detect::{
    auto_name_cpu_sensor, auto_name_ec_sensor, auto_name_gpu_sensor, auto_name_sensor,
    classify_chip, detect_hardware, discover_fans, enumerate_chips, sanitize_label, ChipClass,
    HwmonChip,
};
use smartcool::sysfs::{Contents, DirEntry, Listing, Sysfs, SysfsFile};

fn file(path: &str, text: &str) -> SysfsFile {
    SysfsFile {
        path: path.into(),
        contents: Contents::Text(text.into()),
    }
}

/// Two processor sensors, an embedded controller with a fan, and a chip without a
/// name.
fn machine() -> Sysfs {
    Sysfs {
        listing: Listing::Entries(vec![
            DirEntry::Path("/sys/class/hwmon/hwmon1".into()),
            DirEntry::Path("/sys/class/hwmon/hwmon0".into()),
            DirEntry::Path("/sys/class/hwmon/hwmon2".into()),
        ]),
        files: vec![
            file("/sys/class/hwmon/hwmon0/name", "k10temp\n"),
            file("/sys/class/hwmon/hwmon0/temp1_input", "45250\n"),
            file("/sys/class/hwmon/hwmon0/temp1_label", "Tctl\n"),
            file("/sys/class/hwmon/hwmon0/temp3_input", "41000\n"),
            file("/sys/class/hwmon/hwmon0/temp3_label", "Tccd1\n"),
            file("/sys/class/hwmon/hwmon1/name", "nct6799\n"),
            file("/sys/class/hwmon/hwmon1/temp1_input", "33000\n"),
            file("/sys/class/hwmon/hwmon1/temp1_label", "SYSTIN\n"),
            file("/sys/class/hwmon/hwmon1/pwm2", "128\n"),
            file("/sys/class/hwmon/hwmon1/pwm2_enable", "5\n"),
            file("/sys/class/hwmon/hwmon1/fan2_input", "812\n"),
        ],
    }
}

#[test]
fn classify_known_chips() {
    assert_eq!(classify_chip("k10temp"), ChipClass::CpuTemp);
    assert_eq!(classify_chip("coretemp"), ChipClass::CpuTemp);
    assert_eq!(classify_chip("zenpower"), ChipClass::CpuTemp);
    assert_eq!(classify_chip("amdgpu"), ChipClass::GpuTemp);
    assert_eq!(classify_chip("nvidia"), ChipClass::GpuTemp);
    assert_eq!(classify_chip("nouveau"), ChipClass::GpuTemp);
    assert_eq!(classify_chip("nct6799"), ChipClass::MotherboardEc);
    assert_eq!(classify_chip("nct6775"), ChipClass::MotherboardEc);
    assert_eq!(classify_chip("it8622"), ChipClass::MotherboardEc);
    assert_eq!(classify_chip("w83627"), ChipClass::MotherboardEc);
    assert_eq!(classify_chip("asus_wmi_sensors"), ChipClass::MotherboardEc);
    assert_eq!(classify_chip("acpitz"), ChipClass::Other);
    assert_eq!(classify_chip("iwlwifi_1"), ChipClass::Other);
}

#[test]
fn cpu_sensor_naming() {
    assert_eq!(auto_name_cpu_sensor(1, &Some("Tctl".into())), "cpu");
    assert_eq!(auto_name_cpu_sensor(2, &Some("Tdie".into())), "cpu");
    assert_eq!(auto_name_cpu_sensor(3, &Some("Tccd1".into())), "cpu_ccd1");
    assert_eq!(auto_name_cpu_sensor(4, &Some("Tccd2".into())), "cpu_ccd2");
    assert_eq!(auto_name_cpu_sensor(1, &Some("Core 0".into())), "cpu_core0");
    assert_eq!(auto_name_cpu_sensor(1, &None), "cpu");
    assert_eq!(auto_name_cpu_sensor(3, &None), "cpu_temp3");
}

#[test]
fn gpu_sensor_naming_single() {
    assert_eq!(auto_name_gpu_sensor(&Some("edge".into()), false, 0), "gpu");
    assert_eq!(
        auto_name_gpu_sensor(&Some("junction".into()), false, 0),
        "gpu_junction"
    );
    assert_eq!(
        auto_name_gpu_sensor(&Some("mem".into()), false, 0),
        "gpu_mem"
    );
    assert_eq!(auto_name_gpu_sensor(&None, false, 0), "gpu");
}

#[test]
fn gpu_sensor_naming_multi() {
    assert_eq!(
        auto_name_gpu_sensor(&Some("edge".into()), true, 0),
        "gpu0"
    );
    assert_eq!(
        auto_name_gpu_sensor(&Some("edge".into()), true, 1),
        "gpu1"
    );
    assert_eq!(
        auto_name_gpu_sensor(&Some("junction".into()), true, 0),
        "gpu0_junction"
    );
}

#[test]
fn ec_sensor_naming() {
    assert_eq!(
        auto_name_ec_sensor(1, &Some("SYSTIN".into())),
        "board_systin"
    );
    assert_eq!(
        auto_name_ec_sensor(2, &Some("CPUTIN".into())),
        "board_cputin"
    );
    assert_eq!(auto_name_ec_sensor(3, &None), "board_temp3");
}

#[test]
fn sanitize_labels() {
    assert_eq!(sanitize_label("Core 0"), "core_0");
    assert_eq!(sanitize_label("SYSTIN"), "systin");
    assert_eq!(sanitize_label("edge"), "edge");
    assert_eq!(sanitize_label("Temp +3.3V"), "temp_33v");
}

#[test]
fn labels_lose_what_is_not_ascii_once_lowered() {
    // The Kelvin sign becomes the letter k; the umlaut stays one and goes.
    assert_eq!(sanitize_label("\u{212A}ERN"), "kern");
    assert_eq!(sanitize_label("L\u{dc}FTER 1"), "lfter_1");
    // A capital I with a dot becomes a small i and a mark, which goes.
    assert_eq!(sanitize_label("\u{130}NPUT"), "input");
}

#[test]
fn sanitizing_twice_changes_nothing() {
    for label in ["Temp +3.3V", "\u{212A}ERN 0", "L\u{dc}FTER_1", "\u{130}\u{3a3}A", ""] {
        let name = sanitize_label(label);
        assert!(name
            .chars()
            .all(|c| c.is_ascii_lowercase() || c.is_ascii_digit() || c == '_'));
        assert_eq!(sanitize_label(&name), name);
    }
}

#[test]
fn fans_are_counted_apart_from_those_of_gpus() {
    let mut files: Vec<SysfsFile> = Vec::new();
    for (n, pwms) in [(0, 1), (1, 2), (2, 1), (3, 1)] {
        for i in 1..=pwms {
            files.push(file(&format!("/sys/class/hwmon/hwmon{n}/pwm{i}"), "100"));
        }
    }
    let sysfs = Sysfs {
        listing: Listing::Missing,
        files,
    };
    let chip = |n: u32, class: ChipClass| HwmonChip {
        name: "chip".into(),
        path: format!("/sys/class/hwmon/hwmon{n}"),
        class,
    };
    let found = |chips: Vec<HwmonChip>| -> Vec<String> {
        discover_fans(&chips, &sysfs)
            .unwrap()
            .into_iter()
            .map(|fan| fan.auto_name)
            .collect()
    };
    // Without GPUs, with one, and with two.
    assert_eq!(
        found(vec![chip(0, ChipClass::MotherboardEc), chip(3, ChipClass::Other)]),
        vec!["fan1", "fan2"]
    );
    assert_eq!(
        found(vec![
            chip(0, ChipClass::MotherboardEc),
            chip(1, ChipClass::GpuTemp),
            chip(3, ChipClass::Other)
        ]),
        vec!["fan1", "gpu_fan", "gpu_fan", "fan2"]
    );
    assert_eq!(
        found(vec![
            chip(0, ChipClass::MotherboardEc),
            chip(1, ChipClass::GpuTemp),
            chip(2, ChipClass::GpuTemp),
            chip(3, ChipClass::Other)
        ]),
        vec!["fan1", "gpu0_fan", "gpu1_fan", "gpu2_fan", "fan2"]
    );
}

#[test]
fn deduplication() {
    let chip = HwmonChip {
        name: "k10temp".into(),
        path: "/sys/class/hwmon/hwmon0".into(),
        class: ChipClass::CpuTemp,
    };
    let existing = vec!["cpu".to_string()];
    // Second "cpu" sensor gets deduplicated
    let name = auto_name_sensor(&chip, 2, &Some("Tdie".into()), &existing, false, None);
    assert_eq!(name, "cpu_2");
}

#[test]
fn chips_come_by_class_and_need_a_name() {
    let chips = enumerate_chips(&machine()).unwrap();
    assert_eq!(chips.len(), 2);
    assert_eq!(chips[0].name, "k10temp");
    assert_eq!(chips[0].path, "/sys/class/hwmon/hwmon0");
    assert_eq!(chips[1].class, ChipClass::MotherboardEc);
}

#[test]
fn detection_lists_sensors_and_fans() {
    let mut warnings: Vec<String> = Vec::new();
    let result = detect_hardware(false, &machine(), &mut warnings).unwrap();
    assert_eq!(result.sensors.len(), 2);
    assert_eq!(result.sensors[0].auto_name, "cpu");
    assert_eq!(result.sensors[0].current_temp_c, 45_250);
    assert_eq!(result.sensors[1].auto_name, "cpu_ccd1");
    assert_eq!(result.sensors[1].index, 3);
    assert_eq!(result.fans.len(), 1);
    assert_eq!(result.fans[0].pwm_index, 2);
    assert_eq!(result.fans[0].current_rpm, Some(812));
    assert!(warnings.is_empty());

    let all = detect_hardware(true, &machine(), &mut warnings).unwrap();
    assert_eq!(all.sensors.len(), 3);
    assert_eq!(all.sensors[2].auto_name, "board_systin");
}

#[test]
fn detection_needs_the_hwmon_directory() {
    let bare = Sysfs {
        listing: Listing::Missing,
        files: vec![],
    };
    let mut warnings: Vec<String> = Vec::new();
    assert!(detect_hardware(false, &bare, &mut warnings).is_err());
}
