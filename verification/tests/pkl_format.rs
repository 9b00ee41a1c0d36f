use smartcool::pkl_format::{is_pkl_identifier, json_to_pkl, load, to_pkl, Value};

fn object(entries: Vec<(&str, Value)>) -> Value {
    Value::Object(entries.into_iter().map(|(k, v)| (k.to_owned(), v)).collect())
}

fn number(n: u32) -> Value {
    Value::Number(n.to_string())
}

#[test]
fn serializes_lists_and_objects_as_pkl() {
    let value = object(vec![
        ("name", Value::Text("fan".into())),
        (
            "curve",
            Value::List(vec![
                object(vec![("temp", number(45)), ("pwm", number(20))]),
                object(vec![("temp", number(85)), ("pwm", number(200))]),
            ]),
        ),
    ]);

    let pkl = json_to_pkl(&value, 0).unwrap();
    assert!(pkl.contains("new Listing"));
    assert!(pkl.contains("name = \"fan\""));
    assert!(pkl.contains("temp = 45"));
}

#[test]
fn serializes_root_object_as_module_properties() {
    let value = object(vec![("poll_interval_ms", number(2000))]);
    let pkl = to_pkl(&value).unwrap();
    assert_eq!(pkl, "poll_interval_ms = 2000\n");
}

#[test]
fn rejects_non_identifier_keys() {
    let value = object(vec![("bad-key", Value::Bool(true))]);
    let err = json_to_pkl(&value, 0).unwrap_err();
    assert!(err.contains("unsupported Pkl property name"));
}

#[test]
fn texts_are_quoted_and_escaped() {
    let pkl = to_pkl(&Value::Text("a\"b\\c\n\u{1}".into())).unwrap();
    assert_eq!(pkl, "\"a\\\"b\\\\c\\n\\u0001\"\n");
}

#[test]
fn plain_values_stand_as_they_are() {
    assert_eq!(to_pkl(&Value::Null).unwrap(), "null\n");
    assert_eq!(to_pkl(&Value::Bool(false)).unwrap(), "false\n");
    assert_eq!(to_pkl(&Value::Number("0.5".into())).unwrap(), "0.5\n");
}

#[test]
fn identifiers_start_with_a_letter_or_an_underscore() {
    assert!(is_pkl_identifier("poll_interval_ms"));
    assert!(is_pkl_identifier("_x9"));
    assert!(!is_pkl_identifier("9x"));
    assert!(!is_pkl_identifier(""));
    assert!(!is_pkl_identifier("a b"));
}

#[test]
fn a_file_that_cannot_be_evaluated_is_named() {
    assert_eq!(load("/tmp/t.pkl", "tuning", Ok(3)), Ok(3));
    let failed: Result<u8, String> = load("/tmp/t.pkl", "tuning", Err("bad".into()));
    assert_eq!(
        failed.unwrap_err(),
        "failed to evaluate tuning Pkl /tmp/t.pkl: bad"
    );
}
