use smartcool::display::{print_analytics, print_status, print_tuning, Cell, Printed};
use smartcool::ipc::{
    framed, socket_path, AnalyticsResponse, CorrelationEntry, CouplingEntry, DaemonState,
    FanAnalyticsReport, FanStatus, IntegralEntry, Reply, Request, Response, SensorStatus,
    StatusResponse, StepResponseEntry, TuningResponse,
};
use smartcool::scalar::Scalar;
use smartcool::text;

fn scalar(x: f64) -> Scalar {
    Scalar { bits: x.to_bits() }
}

/// A table as it stands on the screen.
fn shown(printed: Printed) -> Vec<String> {
    let rows = match printed {
        Printed::Table(rows) => rows,
        Printed::Complaint(text) => return vec![text],
    };
    let mut lines: Vec<String> = Vec::new();
    for row in rows {
        let mut line = String::new();
        for cell in row {
            match cell {
                Cell::Text(text) => line.push_str(&text),
                Cell::Number { value, width, decimals, plus } => {
                    let x = f64::from_bits(value.bits);
                    if plus {
                        line.push_str(&format!("{x:>+width$.decimals$}"));
                    } else {
                        line.push_str(&format!("{x:>width$.decimals$}"));
                    }
                }
            }
        }
        lines.push(line);
    }
    lines
}

fn status() -> StatusResponse {
    StatusResponse {
        sensors: vec![SensorStatus {
            name: "cpu".into(),
            temp_c: scalar(45.25),
            dt_per_sec: scalar(-0.5),
        }],
        fans: vec![FanStatus {
            name: "front".into(),
            pwm: 120,
            rpm: 900,
            base_pwm: 110,
            boost_applied: 10,
        }],
    }
}

#[test]
fn the_status_is_a_table() {
    let lines = shown(print_status(&Response::Status(status())));
    assert_eq!(lines[0], "Sensors:");
    assert_eq!(lines[1], "  Name            Temp (C) dT/dt (C/s)");
    assert_eq!(lines[2], format!("  {}", "-".repeat(35)));
    assert_eq!(
        lines[3],
        format!("  {:<15} {:>8.1} {:>+10.2}", "cpu", 45.25, -0.5)
    );
    assert_eq!(lines[4], "");
    assert_eq!(lines[5], "Fans:");
    assert_eq!(
        lines[8],
        format!("  {:<15} {:>5} {:>6} {:>8} {:>+7}", "front", 120, 900, 110, 10)
    );
    assert_eq!(lines.len(), 9);
}

#[test]
fn other_replies_are_complaints() {
    assert_eq!(
        shown(print_status(&Response::Error("busy".into()))),
        vec!["Error: busy"]
    );
    let none = AnalyticsResponse { fans: vec![] };
    assert_eq!(
        shown(print_status(&Response::Analytics(none.clone()))),
        vec!["Unexpected response type"]
    );
    assert_eq!(
        shown(print_analytics(&Response::Analytics(none))),
        vec!["No analytics data yet (need more samples)"]
    );
}

#[test]
fn analytics_have_a_column_per_sensor() {
    let report = |name: &str, effectiveness: Vec<(&str, f64)>| FanAnalyticsReport {
        name: name.into(),
        pwm: 100,
        rpm: 800,
        history_samples: 42,
        effectiveness: effectiveness
            .into_iter()
            .map(|(s, v)| (s.to_owned(), scalar(v)))
            .collect(),
    };
    let lines = shown(print_analytics(&Response::Analytics(AnalyticsResponse {
        fans: vec![report("a", vec![("cpu", -0.5)]), report("b", vec![("gpu", 0.25)])],
    })));
    assert_eq!(
        lines[0],
        format!(
            "  {:<15} {:>5} {:>6} {:>8} {:>10} {:>10}",
            "Fan", "PWM", "RPM", "Samples", "cpu", "gpu"
        )
    );
    assert_eq!(
        lines[2],
        format!(
            "  {:<15} {:>5} {:>6} {:>8} {:>+10.2} {:>10}",
            "a", 100, 800, 42, -0.5, "-"
        )
    );
    assert_eq!(
        lines[3],
        format!(
            "  {:<15} {:>5} {:>6} {:>8} {:>10} {:>+10.2}",
            "b", 100, 800, 42, "-", 0.25
        )
    );
    assert_eq!(lines[4], "");
    assert_eq!(
        lines[5],
        "  Effectiveness: C change per +10 PWM (negative = cooling)"
    );
}

#[test]
fn tuning_data_stand_in_four_tables() {
    let empty = TuningResponse {
        coupling_matrix: vec![],
        step_responses: vec![],
        cross_correlations: vec![],
        thermal_integrals: vec![],
    };
    assert_eq!(
        shown(print_tuning(&Response::Tuning(empty))),
        vec![
            "Coupling matrix: not enough data yet",
            "",
            "Step responses: no step events detected yet",
            "",
            "Cross-correlations: not enough data yet",
            "",
            "Thermal integrals: no data yet",
        ]
    );

    let full = TuningResponse {
        coupling_matrix: vec![CouplingEntry {
            fan: "front".into(),
            sensor: "cpu".into(),
            beta: scalar(-0.75),
            r_squared: scalar(0.5),
        }],
        step_responses: vec![StepResponseEntry {
            fan: "front".into(),
            sensor: "cpu".into(),
            gain_k: scalar(-0.125),
            tau_ticks: scalar(12.5),
            n_events: 3,
        }],
        cross_correlations: vec![CorrelationEntry {
            fan: "front".into(),
            sensor: "cpu".into(),
            peak_ccf: scalar(-0.5),
            optimal_lag: 4,
        }],
        thermal_integrals: vec![IntegralEntry {
            sensor: "cpu".into(),
            integral: scalar(90.0),
            baseline: scalar(40.0),
        }],
    };
    let lines = shown(print_tuning(&Response::Tuning(full)));
    assert_eq!(lines[3], format!("  {:<15} {:>+12.2}", "cpu", -0.75));
    assert_eq!(
        lines[8],
        format!("  {:<20} {:>+10.3} {:>12.1} {:>8}", "front->cpu", -0.125, 12.5, 3)
    );
    assert_eq!(
        lines[13],
        format!("  {:<20} {:>10.3} {:>12}", "front->cpu", 0.5, 4)
    );
    assert_eq!(
        lines[18],
        format!("  {:<15} {:>16.1} {:>10.1}", "cpu", 90.0, 40.0)
    );
    assert_eq!(lines.len(), 19);
}

#[test]
fn the_daemon_answers_what_is_asked() {
    let mut state = DaemonState::new();
    match state.reply(Request::Status) {
        Reply::Status(s) => assert!(s.sensors.is_empty() && s.fans.is_empty()),
        _ => panic!("a status was asked for"),
    }
    state.status = status();
    match state.reply(Request::Status) {
        Reply::Status(s) => assert_eq!(s.fans[0].name, "front"),
        _ => panic!("a status was asked for"),
    }
    assert!(matches!(state.reply(Request::Analytics), Reply::Analytics(_)));
    assert!(matches!(state.reply(Request::Tuning), Reply::Tuning(_)));
    assert_eq!(socket_path(), "/run/smartcool/sc.sock");
    assert_eq!(framed("{}"), "{}\n");
}

#[test]
fn texts_are_cut_and_joined() {
    assert_eq!(text::trim(" \t a b \n"), "a b");
    assert!(text::is_blank("\u{a0}\n"));
    assert_eq!(text::to_ascii_lowercase("ABC\u{c4}"), "abc\u{c4}");
    assert!(text::starts_with("card0", "card"));
    assert!(text::contains("gpu1_junction", "junction"));
    assert_eq!(text::trim_start_matches("TTccd1", "T"), "ccd1");
    assert_eq!(text::remove_char("a b c", ' '), "abc");
    assert_eq!(text::join(&vec!["a".into(), "b".into()], ", "), "a, b");
    assert_eq!(text::pad_right("ab", 4), "ab  ");
    assert_eq!(text::pad_left("ab", 4), "  ab");
    assert_eq!(text::pad_left("abcde", 4), "abcde");
}

#[test]
fn numbers_are_written_and_read() {
    for n in [0u64, 7, 255, 10_000, u64::MAX] {
        assert_eq!(text::decimal_of(n), n.to_string());
        assert_eq!(text::parse_unsigned(&n.to_string(), u64::MAX), Some(n));
    }
    assert_eq!(text::signed_decimal_of(-120), "-120");
    assert_eq!(text::signed_decimal_of(i32::MIN), i32::MIN.to_string());
    assert_eq!(text::parse_unsigned("+12", 255), Some(12));
    assert_eq!(text::parse_unsigned("-1", 255), None);
    assert_eq!(text::parse_unsigned("256", 255), None);
    assert_eq!(text::parse_unsigned("", 255), None);
    assert_eq!(text::parse_signed("-1500"), Some(-1500));
    assert_eq!(text::parse_signed("9223372036854775808"), None);
    assert_eq!(text::parse_signed("-9223372036854775808"), Some(i64::MIN));
}

#[test]
fn scalars_compare_as_floating_point_numbers() {
    let samples = [
        0.0,
        -0.0,
        1.0,
        -1.0,
        0.3,
        -0.02,
        f64::MAX,
        f64::MIN_POSITIVE,
        f64::INFINITY,
        f64::NEG_INFINITY,
        f64::NAN,
    ];
    for a in samples {
        assert_eq!(scalar(a).is_finite(), a.is_finite());
        assert_eq!(scalar(a).abs(), scalar(a.abs()));
        assert_eq!(scalar(a).neg(), scalar(-a));
        for b in samples {
            assert_eq!(scalar(a).lt(scalar(b)), a < b);
        }
    }
}
