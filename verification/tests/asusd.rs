use smartcool::asusd::{
    change_line, confirm_restored, plan_changes, plan_reset, preserve_active_profile,
    profiles_from_ids, restore_active_profile, set_outcome, status_lines, transact, undone_change,
    undone_reset, verify_change, verify_reset, Call, Failure, Keeping, RuntimeState,
};
use smartcool::asusd_config::{Config, CurveConfig, Profile, ProfileConfig, WireCurve};
use zbus::zvariant::Type;

fn curve(fan: &str, last: u8) -> WireCurve {
    (
        fan.to_owned(),
        [0, 10, 30, 60, 100, 150, 210, last],
        [30, 40, 50, 60, 70, 80, 90, 100],
        true,
    )
}

fn runtime() -> RuntimeState {
    RuntimeState {
        active: Profile::Balanced,
        profiles: vec![Profile::Balanced, Profile::Quiet],
        curves: vec![
            vec![curve("CPU", 200), curve("GPU", 201)],
            vec![curve("CPU", 150)],
        ],
    }
}

fn wanted(profile: &str, fan: &str) -> Config {
    Config {
        profiles: vec![ProfileConfig {
            name: profile.into(),
            curves: vec![CurveConfig {
                fan: fan.into(),
                temp: vec![30, 40, 50, 60, 70, 80, 90, 100],
                pwm: vec![0, 10, 30, 60, 100, 150, 210, 255],
                enabled: true,
            }],
        }],
    }
}

#[test]
fn curve_wire_type_matches_asusd() {
    assert_eq!(WireCurve::SIGNATURE.to_string(), "(s(yyyyyyyy)(yyyyyyyy)b)");
}

#[test]
fn transaction_rolls_back_attempted_items_in_reverse() {
    let (events, result) = transact(
        &vec![1, 2, 3],
        Vec::new(),
        |mut events: Vec<String>, item| {
            events.push(format!("write {item}"));
            (events, Ok(()))
        },
        |mut events: Vec<String>, item| {
            events.push(format!("verify {item}"));
            let verified = if *item != 2 {
                Ok(())
            } else {
                Err(Failure::new("verification failed"))
            };
            (events, verified)
        },
        |mut events: Vec<String>, item| {
            events.push(format!("rollback {item}"));
            (events, Ok(()))
        },
    );
    let error = result.unwrap_err();

    assert!(error.head().contains("rolled back"));
    assert_eq!(
        events,
        [
            "write 1",
            "verify 1",
            "write 2",
            "verify 2",
            "rollback 2",
            "rollback 1",
        ]
    );
}

#[test]
fn transaction_reports_rollback_verification_failure() {
    let ((), result) = transact(
        &vec![1],
        (),
        |(), _| ((), Ok(())),
        |(), _| ((), Err(Failure::new("apply verification failed"))),
        |(), _| ((), Err(Failure::new("rollback read-back mismatch"))),
    );

    let message = result.unwrap_err().message();
    assert!(message.contains("apply verification failed"));
    assert!(message.contains("rollback read-back mismatch"));
}

#[test]
fn a_transaction_without_failures_commits() {
    let (calls, result) = transact(
        &vec![1, 2],
        Vec::new(),
        |mut calls: Vec<String>, item| {
            calls.push(format!("write {item}"));
            (calls, Ok(()))
        },
        |mut calls: Vec<String>, item| {
            calls.push(format!("verify {item}"));
            (calls, Ok(()))
        },
        |_: Vec<String>, _| panic!("nothing to undo"),
    );
    assert!(result.is_ok());
    assert_eq!(calls, ["write 1", "verify 1", "write 2", "verify 2"]);

    let nothing: Vec<u8> = Vec::new();
    let (calls, result) = transact(
        &nothing,
        0,
        |n: u8, _| (n + 1, Ok(())),
        |n: u8, _| (n + 1, Ok(())),
        |n: u8, _| (n + 1, Ok(())),
    );
    assert!(result.is_ok());
    assert_eq!(calls, 0);
}

#[test]
fn a_failed_write_is_undone_too() {
    let (calls, result) = transact(
        &vec![7, 8, 9],
        Vec::new(),
        |mut calls: Vec<String>, item| {
            calls.push(format!("write {item}"));
            let wrote = if *item == 8 {
                Err(Failure::because("write failed", "bus gone"))
            } else {
                Ok(())
            };
            (calls, wrote)
        },
        |mut calls: Vec<String>, item| {
            calls.push(format!("verify {item}"));
            (calls, Ok(()))
        },
        |mut calls: Vec<String>, item| {
            calls.push(format!("rollback {item}"));
            let undone = if *item == 8 {
                Err(Failure::because("restore failed", "bus gone"))
            } else {
                Ok(())
            };
            (calls, undone)
        },
    );
    // A rollback that fails does not keep the others from being made.
    assert_eq!(
        calls,
        ["write 7", "verify 7", "write 8", "rollback 8", "rollback 7"]
    );
    let error = result.unwrap_err();
    assert_eq!(error.failed_at, 1);
    assert_eq!(error.rollback, [Some("restore failed".to_owned()), None]);
    assert_eq!(
        error.message(),
        "asusd transaction rollback also failed: restore failed: write failed: bus gone"
    );
}

#[test]
fn changes_remember_what_stood_before() {
    let changes = plan_changes(&wanted("quiet", "cpu"), &runtime()).unwrap();
    assert_eq!(changes.len(), 1);
    assert_eq!(changes[0].profile, Profile::Quiet);
    assert_eq!(changes[0].desired, curve("CPU", 255));
    assert_eq!(changes[0].snapshot, curve("CPU", 150));
    assert!(change_line(&changes[0]).contains("255"));
}

#[test]
fn changes_need_a_supported_profile_and_fan() {
    assert!(plan_changes(&wanted("performance", "cpu"), &runtime()).is_err());
    assert!(plan_changes(&wanted("quiet", "gpu"), &runtime()).is_err());
}

#[test]
fn a_change_is_verified_by_reading_it_back() {
    let change = plan_changes(&wanted("quiet", "cpu"), &runtime()).unwrap().remove(0);
    assert!(verify_change(&change, &Ok(vec![curve("CPU", 255)])).is_ok());
    assert!(verify_change(&change, &Ok(vec![curve("CPU", 254)])).is_err());
    assert!(verify_change(&change, &Ok(vec![])).is_err());
    assert!(verify_change(&change, &Err("bus gone".into())).is_err());

    assert!(undone_change(&change, &None, &Ok(vec![curve("CPU", 150)]), &Ok(())).is_ok());
    assert!(undone_change(&change, &None, &Ok(vec![curve("CPU", 255)]), &Ok(())).is_err());
    let refused = Some("bus gone".to_owned());
    assert!(undone_change(&change, &refused, &Ok(vec![curve("CPU", 150)]), &Ok(())).is_err());
    let moved = Err(Failure::new("active profile changed"));
    assert!(undone_change(&change, &None, &Ok(vec![curve("CPU", 150)]), &moved).is_err());
}

#[test]
fn a_reset_needs_a_supported_profile() {
    let (profile, snapshots) = plan_reset("Quiet", &runtime()).unwrap();
    assert_eq!(profile, Profile::Quiet);
    assert_eq!(snapshots, vec![curve("CPU", 150)]);
    assert!(plan_reset("custom", &runtime()).is_err());
    assert!(plan_reset("turbo", &runtime()).is_err());

    assert!(verify_reset(profile, &snapshots, &Ok(vec![curve("CPU", 99)])).is_ok());
    assert!(verify_reset(profile, &snapshots, &Ok(vec![curve("GPU", 99)])).is_err());
    assert!(verify_reset(profile, &snapshots, &Err("bus gone".into())).is_err());

    let undone = undone_reset(
        profile,
        &snapshots,
        &vec![None],
        &Ok(vec![curve("CPU", 150)]),
        &Ok(()),
    );
    assert!(undone.is_ok());
    let kept = undone_reset(
        profile,
        &snapshots,
        &vec![None],
        &Ok(vec![curve("CPU", 99)]),
        &Ok(()),
    );
    assert!(kept.is_err());
}

#[test]
fn the_active_profile_is_kept() {
    let id = Profile::Balanced.id();
    let other = Profile::Quiet.id();
    assert_eq!(
        preserve_active_profile(Profile::Balanced, Ok(id)).unwrap(),
        None
    );
    assert_eq!(
        preserve_active_profile(Profile::Balanced, Ok(other)).unwrap(),
        Some(Profile::Quiet)
    );
    assert!(preserve_active_profile(Profile::Balanced, Err("bus gone".into())).is_err());
    assert_eq!(
        restore_active_profile(Profile::Balanced, Ok(id)).unwrap(),
        None
    );
    assert_eq!(
        restore_active_profile(Profile::Balanced, Ok(other)).unwrap(),
        Some(id)
    );
    assert!(set_outcome(Profile::Balanced, Ok(())).is_ok());
    assert_eq!(
        set_outcome(Profile::Balanced, Err("no".into())).unwrap_err().message(),
        "restore active platform profile 'balanced': no"
    );
    assert!(confirm_restored(Profile::Balanced, Ok(id)).is_ok());
    assert_eq!(
        confirm_restored(Profile::Balanced, Ok(other)).unwrap_err().message(),
        "active platform profile restoration read-back mismatch: expected 'balanced', got 'quiet'"
    );
}

/// Looks after a profile on a platform whose active profile changes only by being
/// set; a `stuck` one keeps its profile. Returns what was set and the message of
/// the failure.
fn keep(mut keeping: Keeping, mut active: u32, stuck: bool) -> (Vec<u32>, Option<String>) {
    let mut set: Vec<u32> = Vec::new();
    loop {
        match keeping.next() {
            Call::Read => keeping.read(Ok(active)),
            Call::Assign(id) => {
                set.push(id);
                if !stuck {
                    active = id;
                }
                keeping.assigned(Ok(()));
            }
            Call::Finish => break,
        }
    }
    (set, keeping.outcome().unwrap().err().map(|f| f.message()))
}

#[test]
fn a_changed_profile_is_put_back_once_and_reported() {
    let balanced = Profile::Balanced.id();
    let quiet = Profile::Quiet.id();
    assert_eq!(keep(Keeping::preserving(Profile::Balanced), balanced, false), (vec![], None));
    assert_eq!(
        keep(Keeping::preserving(Profile::Balanced), quiet, false),
        (
            vec![balanced],
            Some("active platform profile changed from 'balanced' to 'quiet'".to_owned())
        )
    );
    let (set, failure) = keep(Keeping::preserving(Profile::Balanced), quiet, true);
    assert_eq!(set, vec![balanced]);
    assert!(failure.unwrap().contains("read-back mismatch"));
    // A number without a profile ends it before anything is set.
    assert_eq!(
        keep(Keeping::preserving(Profile::Balanced), 9, false),
        (vec![], Some("asusd returned unknown platform profile 9".to_owned()))
    );
}

#[test]
fn an_unreadable_profile_is_reported_with_its_cause() {
    let mut keeping = Keeping::preserving(Profile::Balanced);
    keeping.read(Err("bus gone".into()));
    assert_eq!(keeping.next(), Call::Finish);
    assert_eq!(
        keeping.outcome().unwrap().unwrap_err().message(),
        "verify active asusd platform profile: bus gone"
    );

    let mut keeping = Keeping::restoring(Profile::Balanced);
    keeping.read(Ok(Profile::Quiet.id()));
    assert_eq!(keeping.next(), Call::Assign(Profile::Balanced.id()));
    keeping.assigned(Ok(()));
    keeping.read(Err("bus gone".into()));
    assert_eq!(
        keeping.outcome().unwrap().unwrap_err().message(),
        "verify restored asusd platform profile: bus gone"
    );
}

#[test]
fn a_profile_that_is_only_put_back_is_no_failure() {
    let balanced = Profile::Balanced.id();
    let quiet = Profile::Quiet.id();
    assert_eq!(keep(Keeping::restoring(Profile::Balanced), balanced, false), (vec![], None));
    assert_eq!(keep(Keeping::restoring(Profile::Balanced), quiet, false), (vec![balanced], None));
}

#[test]
fn profiles_are_read_from_their_ids() {
    assert_eq!(
        profiles_from_ids(&vec![Profile::Quiet.id(), Profile::Balanced.id()]).unwrap().len(),
        2
    );
    assert!(profiles_from_ids(&vec![77]).is_err());
}

#[test]
fn the_status_lists_profiles_and_curves() {
    let lines = status_lines(&runtime()).join("\n");
    assert!(lines.contains("CPU"));
    assert!(lines.contains("GPU"));
    assert!(lines.contains("201"));
}
