use smartcool::hwmon::{Fan, FanControlGuard, PwmEnable, Sensor};
use smartcool::sysfs::{
    find_hwmon_path, find_hwmon_paths, read_sysfs, read_sysfs_signed, sort_paths, Contents,
    DirEntry, Listing, PathOrder, Sysfs, SysfsFile, SysfsWrite,
};

fn file(path: &str, text: &str) -> SysfsFile {
    SysfsFile {
        path: path.into(),
        contents: Contents::Text(text.into()),
    }
}

fn directory(path: &str, pwm: &str, enable: &str) -> Vec<SysfsFile> {
    vec![
        file(&format!("{path}/pwm1"), pwm),
        file(&format!("{path}/pwm1_enable"), enable),
    ]
}

/// Carries a write out on files in memory.
fn perform(sysfs: &mut Sysfs, write: &SysfsWrite) {
    for f in sysfs.files.iter_mut() {
        if f.path == write.path {
            f.contents = Contents::Text(write.value.clone());
            return;
        }
    }
    panic!("no file at {}", write.path);
}

fn text(sysfs: &Sysfs, path: &str) -> String {
    sysfs.read_string(path).unwrap()
}

#[test]
fn find_hwmon_returns_error_for_missing_chip() {
    let sysfs = Sysfs {
        listing: Listing::Entries(vec![DirEntry::Path("/sys/class/hwmon/hwmon0".into())]),
        files: vec![file("/sys/class/hwmon/hwmon0/name", "k10temp\n")],
    };
    let result = find_hwmon_path(&sysfs, "nonexistent_chip_12345");
    assert!(result.is_err());
    assert_eq!(
        find_hwmon_path(&sysfs, "k10temp").unwrap(),
        "/sys/class/hwmon/hwmon0"
    );
}

#[test]
fn guard_restores_pwm_and_enable_mode() {
    let mut sysfs = Sysfs {
        listing: Listing::Missing,
        files: directory("/tmp/hwmon", "73", "2"),
    };

    let fan = Fan::from_path("test", "/tmp/hwmon", 1, &sysfs).unwrap();
    let mut guard = FanControlGuard::new(vec![fan]);
    {
        let fan = &mut guard.fans_mut()[0];
        perform(&mut sysfs, &fan.set_manual());
        perform(&mut sysfs, &fan.write_pwm(201).unwrap());
        fan.wrote_pwm(201);
        assert_eq!(text(&sysfs, "/tmp/hwmon/pwm1"), "201");
        assert_eq!(text(&sysfs, "/tmp/hwmon/pwm1_enable"), "1");
    }

    assert!(guard.needs_restore());
    for write in guard.restore() {
        perform(&mut sysfs, &write);
    }
    assert_eq!(guard.finish_restore(&vec![None, None]), Ok(()));
    assert!(!guard.needs_restore());
    assert_eq!(text(&sysfs, "/tmp/hwmon/pwm1"), "73");
    assert_eq!(text(&sysfs, "/tmp/hwmon/pwm1_enable"), "2");
}

#[test]
fn guard_restores_every_fan_during_error() {
    let mut files = directory("/tmp/first", "73", "5");
    files.extend(directory("/tmp/second", "73", "5"));
    let mut sysfs = Sysfs {
        listing: Listing::Missing,
        files,
    };

    let mut guard = FanControlGuard::new(vec![
        Fan::from_path("first", "/tmp/first", 1, &sysfs).unwrap(),
        Fan::from_path("second", "/tmp/second", 1, &sysfs).unwrap(),
    ]);
    for fan in guard.fans_mut().iter_mut() {
        let manual = fan.set_manual();
        perform(&mut sysfs, &manual);
        let write = fan.write_pwm(200).unwrap();
        perform(&mut sysfs, &write);
        fan.wrote_pwm(200);
    }

    // Whatever failed meanwhile, the guard still has everything to put back.
    for write in guard.restore() {
        perform(&mut sysfs, &write);
    }
    for path in ["/tmp/first", "/tmp/second"] {
        assert_eq!(text(&sysfs, &format!("{path}/pwm1")), "73");
        assert_eq!(text(&sysfs, &format!("{path}/pwm1_enable")), "5");
    }
}

#[test]
fn a_failed_restore_is_reported_and_stays_due() {
    let sysfs = Sysfs {
        listing: Listing::Missing,
        files: directory("/tmp/hwmon", "73", "2"),
    };
    let fan = Fan::from_path("test", "/tmp/hwmon", 1, &sysfs).unwrap();
    let mut guard = FanControlGuard::new(vec![fan]);
    let failures = vec![Some("permission denied".to_owned()), None];
    let error = guard.finish_restore(&failures).unwrap_err();
    assert!(error.contains("permission denied"));
    assert!(guard.needs_restore());
}

#[test]
fn a_pwm_value_is_written_once() {
    let sysfs = Sysfs {
        listing: Listing::Missing,
        files: directory("/tmp/hwmon", "73", "2"),
    };
    let mut fan = Fan::from_path("test", "/tmp/hwmon", 1, &sysfs).unwrap();
    assert_eq!(fan.original_pwm, 73);
    assert_eq!(fan.original_enable, 2);
    let write = fan.write_pwm(90).unwrap();
    assert_eq!(write.path, "/tmp/hwmon/pwm1");
    assert_eq!(write.value, "90");
    fan.wrote_pwm(90);
    assert!(fan.write_pwm(90).is_none());
    assert!(fan.write_pwm(91).is_some());
    assert_eq!(fan.read_pwm(&sysfs), Ok(73));
    assert_eq!(fan.read_rpm(&sysfs), Ok(0));
}

#[test]
fn modes_have_the_values_of_the_kernel() {
    assert_eq!(PwmEnable::FullSpeed.value(), 0);
    assert_eq!(PwmEnable::Manual.value(), 1);
    assert_eq!(PwmEnable::Auto.value(), 2);
    assert_eq!(PwmEnable::SmartFan4v2.value(), 5);
}

#[test]
fn sensors_read_thousandths_of_a_degree() {
    let sysfs = Sysfs {
        listing: Listing::Entries(vec![
            DirEntry::Path("/sys/class/hwmon/hwmon3".into()),
            DirEntry::Path("/sys/class/hwmon/hwmon1".into()),
        ]),
        files: vec![
            file("/sys/class/hwmon/hwmon1/name", "k10temp"),
            file("/sys/class/hwmon/hwmon1/temp1_input", "-1500\n"),
            file("/sys/class/hwmon/hwmon1/temp1_label", " Tctl \n"),
            file("/sys/class/hwmon/hwmon3/name", "k10temp"),
            file("/sys/class/hwmon/hwmon3/temp1_input", "junk"),
        ],
    };
    let first = Sensor::from_config("cpu", "k10temp", 1, None, &sysfs).unwrap();
    assert_eq!(first.input_path, "/sys/class/hwmon/hwmon1/temp1_input");
    assert_eq!(first.read_temp_c(&sysfs), Ok(-1500));
    assert_eq!(first.read_label(&sysfs), Some("Tctl".to_owned()));

    let second = Sensor::from_config("cpu2", "k10temp", 1, Some(1), &sysfs).unwrap();
    assert_eq!(second.input_path, "/sys/class/hwmon/hwmon3/temp1_input");
    assert!(second.read_temp_c(&sysfs).is_err());
    assert_eq!(second.read_label(&sysfs), None);

    assert!(Sensor::from_config("cpu3", "k10temp", 1, Some(2), &sysfs).is_err());
    assert!(Sensor::from_config("cpu4", "k10temp", 9, None, &sysfs).is_err());
    assert_eq!(
        find_hwmon_paths(&sysfs, "k10temp").unwrap(),
        vec!["/sys/class/hwmon/hwmon3", "/sys/class/hwmon/hwmon1"]
    );
}

#[test]
fn files_hold_numbers_within_a_limit() {
    let sysfs = Sysfs {
        listing: Listing::Missing,
        files: vec![
            file("/a", " 255\n"),
            file("/b", "256"),
            file("/c", "-3"),
            SysfsFile {
                path: "/d".into(),
                contents: Contents::Unreadable("permission denied".into()),
            },
        ],
    };
    assert_eq!(read_sysfs(&sysfs, "/a", 255), Ok(255));
    assert!(read_sysfs(&sysfs, "/b", 255).is_err());
    assert_eq!(read_sysfs(&sysfs, "/b", 65535), Ok(256));
    assert!(read_sysfs(&sysfs, "/c", 255).is_err());
    assert_eq!(read_sysfs_signed(&sysfs, "/c"), Ok(-3));
    assert!(read_sysfs(&sysfs, "/d", 255).unwrap_err().contains("permission denied"));
    assert!(read_sysfs(&sysfs, "/e", 255).is_err());
}

#[test]
fn paths_are_sorted_by_their_number() {
    let paths = vec![
        "/sys/class/hwmon/hwmon2".to_owned(),
        "/sys/class/hwmon/hwmon10".to_owned(),
        "/sys/class/hwmon/hwmon1".to_owned(),
    ];
    assert_eq!(
        sort_paths(PathOrder::Number, &paths),
        vec![
            "/sys/class/hwmon/hwmon1",
            "/sys/class/hwmon/hwmon2",
            "/sys/class/hwmon/hwmon10"
        ]
    );
}

#[test]
fn paths_are_sorted_part_by_part() {
    let paths = vec![
        "/sys/class/drm/card2".to_owned(),
        "/sys/class/drm/card10".to_owned(),
        "/sys/class/drm/card1".to_owned(),
    ];
    assert_eq!(
        sort_paths(PathOrder::Text, &paths),
        vec!["/sys/class/drm/card1", "/sys/class/drm/card10", "/sys/class/drm/card2"]
    );
}

#[test]
fn instances_count_by_hwmon_number() {
    let mut files: Vec<SysfsFile> = Vec::new();
    for n in [10, 2] {
        files.push(file(&format!("/sys/class/hwmon/hwmon{n}/name"), "amdgpu\n"));
        files.push(file(&format!("/sys/class/hwmon/hwmon{n}/temp1_input"), "40000\n"));
        files.extend(directory(&format!("/sys/class/hwmon/hwmon{n}"), "73", "2"));
    }
    let sysfs = Sysfs {
        listing: Listing::Entries(vec![
            DirEntry::Path("/sys/class/hwmon/hwmon10".into()),
            DirEntry::Path("/sys/class/hwmon/hwmon2".into()),
        ]),
        files,
    };
    let sensor = |instance| Sensor::from_config("gpu", "amdgpu", 1, Some(instance), &sysfs);
    assert_eq!(sensor(0).unwrap().input_path, "/sys/class/hwmon/hwmon2/temp1_input");
    assert_eq!(sensor(1).unwrap().input_path, "/sys/class/hwmon/hwmon10/temp1_input");
    let fan = |instance| Fan::from_config("gpu_fan", "amdgpu", 1, Some(instance), &sysfs);
    assert_eq!(fan(0).unwrap().pwm_path, "/sys/class/hwmon/hwmon2/pwm1");
    assert_eq!(fan(1).unwrap().pwm_path, "/sys/class/hwmon/hwmon10/pwm1");
}
