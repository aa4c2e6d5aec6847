use nskeyedarchiver_converter::{Converter, ConverterError, Value};

fn text(s: &str) -> Value {
    Value::Text(s.to_string())
}

fn archive_with(entries: Vec<(&str, Value)>) -> Value {
    Value::Dictionary(
        entries
            .into_iter()
            .map(|(k, v)| (k.to_string(), v))
            .collect(),
    )
}

fn full_header(objects: Vec<Value>, top: Vec<(String, Value)>) -> Value {
    archive_with(vec![
        ("$archiver", text("NSKeyedArchiver")),
        ("$version", Value::Integer(100000)),
        ("$top", Value::Dictionary(top)),
        ("$objects", Value::Array(objects)),
    ])
}

#[test]
fn root_must_be_a_dictionary() {
    let err = Converter::new(Value::Integer(3)).unwrap_err();
    assert!(matches!(
        err,
        ConverterError::WrongValueType("root", "Dictionary")
    ));
}

#[test]
fn missing_archiver_key() {
    let err = Converter::new(archive_with(vec![("$version", Value::Integer(100000))]))
        .unwrap_err();
    assert!(matches!(err, ConverterError::MissingHeaderKey("$archiver")));
}

#[test]
fn archiver_key_must_be_a_string() {
    let err = Converter::new(archive_with(vec![("$archiver", Value::Integer(1))])).unwrap_err();
    assert!(matches!(
        err,
        ConverterError::WrongValueType("$archiver", "String")
    ));
}

#[test]
fn unknown_archiver_is_rejected() {
    let err = Converter::new(archive_with(vec![("$archiver", text("SomethingElse"))]))
        .unwrap_err();
    assert!(matches!(err, ConverterError::UnsupportedArchiver));
}

#[test]
fn missing_version_key() {
    let err = Converter::new(archive_with(vec![("$archiver", text("NSKeyedArchiver"))]))
        .unwrap_err();
    assert!(matches!(err, ConverterError::MissingHeaderKey("$version")));
}

#[test]
fn version_must_be_an_unsigned_integer() {
    let err = Converter::new(archive_with(vec![
        ("$archiver", text("NSKeyedArchiver")),
        ("$version", text("100000")),
    ]))
    .unwrap_err();
    assert!(matches!(
        err,
        ConverterError::WrongValueType("$version", "Number")
    ));
    let err = Converter::new(archive_with(vec![
        ("$archiver", text("NSKeyedArchiver")),
        ("$version", Value::Integer(-1)),
    ]))
    .unwrap_err();
    assert!(matches!(
        err,
        ConverterError::WrongValueType("$version", "Number")
    ));
}

#[test]
fn unsupported_version_is_rejected() {
    let err = Converter::new(archive_with(vec![
        ("$archiver", text("NSKeyedArchiver")),
        ("$version", Value::Integer(99999)),
    ]))
    .unwrap_err();
    assert!(matches!(err, ConverterError::UnsupportedArchiverVersion));
}

#[test]
fn missing_top_key() {
    let err = Converter::new(archive_with(vec![
        ("$archiver", text("NSKeyedArchiver")),
        ("$version", Value::Integer(100000)),
    ]))
    .unwrap_err();
    assert!(matches!(err, ConverterError::MissingHeaderKey("$top")));
}

#[test]
fn top_must_be_a_dictionary() {
    let err = Converter::new(archive_with(vec![
        ("$archiver", text("NSKeyedArchiver")),
        ("$version", Value::Integer(100000)),
        ("$top", Value::Array(vec![])),
    ]))
    .unwrap_err();
    assert!(matches!(
        err,
        ConverterError::WrongValueType("$top", "Dictionary")
    ));
}

#[test]
fn missing_objects_key() {
    let err = Converter::new(archive_with(vec![
        ("$archiver", text("NSKeyedArchiver")),
        ("$version", Value::Integer(100000)),
        ("$top", Value::Dictionary(vec![])),
    ]))
    .unwrap_err();
    assert!(matches!(err, ConverterError::MissingHeaderKey("$objects")));
}

#[test]
fn objects_must_be_an_array() {
    let err = Converter::new(archive_with(vec![
        ("$archiver", text("NSKeyedArchiver")),
        ("$version", Value::Integer(100000)),
        ("$top", Value::Dictionary(vec![])),
        ("$objects", Value::Integer(0)),
    ]))
    .unwrap_err();
    assert!(matches!(
        err,
        ConverterError::WrongValueType("$objects", "Array")
    ));
}

#[test]
fn dangling_root_reference_carries_its_uid() {
    let objects = vec![
        text("$null"),
        Value::Integer(1),
        Value::Integer(2),
        Value::Integer(3),
        Value::Integer(4),
    ];
    let top = vec![("root".to_string(), Value::Uid(999))];
    let converter = Converter::new(full_header(objects, top)).unwrap();
    let err = converter.decode().unwrap_err();
    assert!(matches!(err, ConverterError::InvalidObjectReference(999)));
}

#[test]
fn configuration_switches_default_off_and_are_independent() {
    let mut converter = Converter::new(full_header(vec![text("$null")], vec![])).unwrap();
    assert!(!converter.treat_all_as_classes());
    assert!(!converter.leave_null_values());
    converter.set_treat_all_as_classes(true);
    assert!(converter.treat_all_as_classes());
    assert!(!converter.leave_null_values());
    converter.set_leave_null_values(true);
    assert!(converter.leave_null_values());
    assert!(converter.treat_all_as_classes());
    converter.set_treat_all_as_classes(false);
    assert!(!converter.treat_all_as_classes());
    assert!(converter.leave_null_values());
}
