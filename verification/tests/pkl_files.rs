use serde_json::Value;
use smartcool::asusd_config;
use smartcool::config::{
    self, AirflowDirection, Config, CurvePoint, DerivativeConfig, FanConfig, FanPosition,
    FanTopology, SensorConfig, TuningConfig,
};
use smartcool::pkl_format;
use smartcool::scalar::Scalar;

/// What the Pkl source evaluates to.
fn evaluate(source: &str) -> Result<Value, String> {
    let runtime = tokio::runtime::Builder::new_current_thread().enable_all().build().unwrap();
    runtime
        .block_on(pklx::eval_source_to_typed(source, pklx::pklr::EvalOptions::default()))
        .map_err(|e| e.to_string())
}

fn text(value: &Value) -> String {
    value.as_str().unwrap().to_owned()
}

fn number(value: &Value) -> u64 {
    value.as_u64().unwrap()
}

fn scalar(value: &Value) -> Scalar {
    Scalar { bits: value.as_f64().unwrap().to_bits() }
}

fn items(value: &Value) -> &Vec<Value> {
    value.as_array().unwrap()
}

fn position(value: &Value) -> FanPosition {
    match value.as_str().unwrap() {
        "cpu_cooler" => FanPosition::CpuCooler,
        other => panic!("{other} does not occur here"),
    }
}

fn direction(value: &Value) -> AirflowDirection {
    match value.as_str().unwrap() {
        "exhaust" => AirflowDirection::Exhaust,
        other => panic!("{other} does not occur here"),
    }
}

fn config_of(value: &Value) -> Config {
    Config {
        poll_interval_ms: number(&value["poll_interval_ms"]),
        derivative: DerivativeConfig {
            window_size: number(&value["derivative"]["window_size"]) as usize,
            boost_threshold: scalar(&value["derivative"]["boost_threshold"]),
            decay_rate: scalar(&value["derivative"]["decay_rate"]),
        },
        sensors: items(&value["sensors"])
            .iter()
            .map(|s| SensorConfig {
                name: text(&s["name"]),
                hwmon: text(&s["hwmon"]),
                index: number(&s["index"]) as u32,
                hwmon_instance: None,
            })
            .collect(),
        fans: items(&value["fans"])
            .iter()
            .map(|f| FanConfig {
                name: text(&f["name"]),
                hwmon: text(&f["hwmon"]),
                pwm_index: number(&f["pwm_index"]) as u32,
                hwmon_instance: None,
                topology: FanTopology {
                    position: position(&f["topology"]["position"]),
                    direction: direction(&f["topology"]["direction"]),
                    group: None,
                },
                sensors: items(&f["sensors"]).iter().map(text).collect(),
                curve: items(&f["curve"])
                    .iter()
                    .map(|p| CurvePoint {
                        temp: number(&p["temp"]) as u32,
                        pwm: number(&p["pwm"]) as u8,
                    })
                    .collect(),
            })
            .collect(),
        tuning: TuningConfig::default(),
    }
}

fn firmware_of(value: &Value) -> asusd_config::Config {
    asusd_config::Config {
        profiles: items(&value["profiles"])
            .iter()
            .map(|p| asusd_config::ProfileConfig {
                name: text(&p["name"]),
                curves: items(&p["curves"])
                    .iter()
                    .map(|c| asusd_config::CurveConfig {
                        fan: text(&c["fan"]),
                        temp: items(&c["temp"]).iter().map(|t| number(t) as u32).collect(),
                        pwm: items(&c["pwm"]).iter().map(|p| number(p) as u32).collect(),
                        enabled: c["enabled"].as_bool().unwrap(),
                    })
                    .collect(),
            })
            .collect(),
    }
}

#[test]
fn parse_pkl_config() {
    let source = r#"
poll_interval_ms = 2000
derivative = new {
  window_size = 10
  boost_threshold = 2.0
  decay_rate = 0.5
}
sensors = new Listing {
  new {
    name = "cpu"
    hwmon = "k10temp"
    index = 1
  }
}
fans = new Listing {
  new {
    name = "test"
    hwmon = "nct6799"
    pwm_index = 1
    topology = new {
      position = "cpu_cooler"
      direction = "exhaust"
    }
    sensors = new Listing { "cpu" }
    curve = new Listing {
      new { temp = 45; pwm = 20 }
      new { temp = 85; pwm = 200 }
    }
  }
}
"#;
    let evaluated = evaluate(source).map(|value| config_of(&value));
    let config = config::load("config.pkl", evaluated).unwrap();
    assert_eq!(config.sensors.len(), 1);
    assert_eq!(config.fans.len(), 1);
    assert_eq!(config.fans[0].curve.len(), 2);
}

#[test]
fn invalid_pkl_error_mentions_path() {
    let evaluated = evaluate("not valid pkl =").map(|value| config_of(&value));
    let err = config::load("invalid.pkl", evaluated).unwrap_err();
    assert!(err.contains("failed to evaluate Pkl config"));
    assert!(err.contains("invalid.pkl"));
}

#[test]
fn pkl_config_still_requires_sensors() {
    let source = r#"
poll_interval_ms = 2000
derivative = new {
  window_size = 10
  boost_threshold = 2.0
  decay_rate = 0.5
}
sensors = new Listing {}
fans = new Listing {}
"#;
    let evaluated = evaluate(source).map(|value| config_of(&value));
    let err = config::load("missing-sensors.pkl", evaluated).unwrap_err();
    assert!(err.contains("at least one sensor is required"));
}

#[test]
fn loads_pkl_config() {
    let source = r#"
profiles = new Listing {
  new {
    name = "quiet"
    curves = new Listing {
      new {
        fan = "CPU"
        temp = new Listing { 30; 40; 50; 60; 70; 80; 90; 100 }
        pwm = new Listing { 0; 10; 30; 60; 100; 150; 210; 255 }
        enabled = true
      }
    }
  }
}
"#;
    let evaluated = evaluate(source).map(|value| firmware_of(&value));
    let config = asusd_config::load("asusd.pkl", evaluated).unwrap();
    assert_eq!(config.profiles[0].curves[0].wire().unwrap().0, "CPU");
}

#[test]
fn what_is_written_evaluates_to_itself() {
    let value = pkl_format::Value::Object(vec![
        (
            "name".into(),
            pkl_format::Value::Text("a \"quoted\" \\ text\twith\nlines".into()),
        ),
        (
            "curve".into(),
            pkl_format::Value::List(vec![pkl_format::Value::Object(vec![
                ("temp".into(), pkl_format::Value::Number("45".into())),
                ("on".into(), pkl_format::Value::Bool(true)),
            ])]),
        ),
    ]);
    let read = evaluate(&pkl_format::to_pkl(&value).unwrap()).unwrap();
    assert_eq!(text(&read["name"]), "a \"quoted\" \\ text\twith\nlines");
    assert_eq!(number(&read["curve"][0]["temp"]), 45);
    assert_eq!(read["curve"][0]["on"], Value::Bool(true));
}
