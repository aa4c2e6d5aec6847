use nskeyedarchiver_converter::{Converter, ConverterError, Value};

fn text(s: &str) -> Value {
    Value::Text(s.to_string())
}

fn dict(entries: Vec<(&str, Value)>) -> Value {
    Value::Dictionary(
        entries
            .into_iter()
            .map(|(k, v)| (k.to_string(), v))
            .collect(),
    )
}

fn archive(objects: Vec<Value>, top: Vec<(&str, Value)>) -> Value {
    dict(vec![
        ("$archiver", text("NSKeyedArchiver")),
        ("$version", Value::Integer(100000)),
        (
            "$top",
            Value::Dictionary(
                top.into_iter().map(|(k, v)| (k.to_string(), v)).collect(),
            ),
        ),
        ("$objects", Value::Array(objects)),
    ])
}

fn class_meta(names: Vec<&str>) -> Value {
    dict(vec![(
        "$classes",
        Value::Array(names.into_iter().map(text).collect()),
    )])
}

#[test]
fn single_scalar_leaf_decodes_unchanged() {
    let objects = vec![text("$null"), Value::Integer(7)];
    let converter = Converter::new(archive(objects, vec![("root", Value::Uid(1))])).unwrap();
    let decoded = converter.decode().unwrap();
    assert_eq!(decoded, dict(vec![("root", Value::Integer(7))]));
}

#[test]
fn root_reference_of_zero_is_an_error() {
    let objects = vec![text("$null"), Value::Integer(7)];
    let converter = Converter::new(archive(objects, vec![("root", Value::Uid(0))])).unwrap();
    let err = converter.decode().unwrap_err();
    assert!(matches!(err, ConverterError::InvalidObjectEncoding(0)));
}

#[test]
fn root_entry_must_be_a_reference() {
    let objects = vec![text("$null")];
    let converter = Converter::new(archive(objects, vec![("root", Value::Integer(5))])).unwrap();
    let err = converter.decode().unwrap_err();
    assert!(matches!(err, ConverterError::ExpectedUIDValue(k) if k == "root"));
}

#[test]
fn native_array_decodes_in_order() {
    let objects = vec![
        text("$null"),
        dict(vec![
            ("$class", Value::Uid(2)),
            (
                "NS.objects",
                Value::Array(vec![Value::Uid(3), Value::Uid(4)]),
            ),
        ]),
        class_meta(vec!["NSMutableArray", "NSArray", "NSObject"]),
        Value::Integer(1),
        Value::Integer(2),
    ];
    let converter = Converter::new(archive(objects, vec![("root", Value::Uid(1))])).unwrap();
    let decoded = converter.decode().unwrap();
    assert_eq!(
        decoded,
        dict(vec![(
            "root",
            Value::Array(vec![Value::Integer(1), Value::Integer(2)])
        )])
    );
}

#[test]
fn array_element_with_zero_reference_is_dropped() {
    let objects = vec![
        text("$null"),
        dict(vec![
            ("$class", Value::Uid(2)),
            (
                "NS.objects",
                Value::Array(vec![Value::Uid(3), Value::Uid(0), Value::Uid(4)]),
            ),
        ]),
        class_meta(vec!["NSArray"]),
        text("first"),
        text("third"),
    ];
    let converter = Converter::new(archive(objects, vec![("root", Value::Uid(1))])).unwrap();
    let decoded = converter.decode().unwrap();
    assert_eq!(
        decoded,
        dict(vec![(
            "root",
            Value::Array(vec![text("first"), text("third")])
        )])
    );
}

#[test]
fn native_dictionary_decodes_to_key_value_records() {
    let objects = vec![
        text("$null"),
        dict(vec![
            ("$class", Value::Uid(6)),
            ("NS.keys", Value::Array(vec![Value::Uid(2), Value::Uid(3)])),
            (
                "NS.objects",
                Value::Array(vec![Value::Uid(4), Value::Uid(5)]),
            ),
        ]),
        text("a"),
        text("b"),
        Value::Integer(1),
        Value::Integer(2),
        class_meta(vec!["NSDictionary", "NSObject"]),
    ];
    let converter = Converter::new(archive(objects, vec![("root", Value::Uid(1))])).unwrap();
    let decoded = converter.decode().unwrap();
    let expected = dict(vec![(
        "root",
        Value::Array(vec![
            dict(vec![("key", text("a")), ("value", Value::Integer(1))]),
            dict(vec![("key", text("b")), ("value", Value::Integer(2))]),
        ]),
    )]);
    assert_eq!(decoded, expected);
}

#[test]
fn dictionary_slot_resolving_to_absence_is_an_error() {
    let objects = vec![
        text("$null"),
        dict(vec![
            ("$class", Value::Uid(3)),
            ("NS.keys", Value::Array(vec![Value::Uid(0)])),
            ("NS.objects", Value::Array(vec![Value::Uid(2)])),
        ]),
        Value::Integer(1),
        class_meta(vec!["NSDictionary"]),
    ];
    let converter = Converter::new(archive(objects, vec![("root", Value::Uid(1))])).unwrap();
    let err = converter.decode().unwrap_err();
    assert!(matches!(err, ConverterError::InvalidObjectEncoding(1)));
}

#[test]
fn dictionary_with_unequal_key_and_value_counts_is_an_error() {
    let objects = vec![
        text("$null"),
        dict(vec![
            ("$class", Value::Uid(4)),
            ("NS.keys", Value::Array(vec![Value::Uid(2), Value::Uid(3)])),
            ("NS.objects", Value::Array(vec![Value::Uid(2)])),
        ]),
        text("a"),
        text("b"),
        class_meta(vec!["NSMutableDictionary"]),
    ];
    let converter = Converter::new(archive(objects, vec![("root", Value::Uid(1))])).unwrap();
    let err = converter.decode().unwrap_err();
    assert!(matches!(err, ConverterError::InvalidObjectEncoding(1)));
}

#[test]
fn dictionary_missing_its_keys_list_is_an_error() {
    let objects = vec![
        text("$null"),
        dict(vec![
            ("$class", Value::Uid(2)),
            ("NS.objects", Value::Array(vec![])),
        ]),
        class_meta(vec!["NSDictionary"]),
    ];
    let converter = Converter::new(archive(objects, vec![("root", Value::Uid(1))])).unwrap();
    let err = converter.decode().unwrap_err();
    assert!(matches!(err, ConverterError::InvalidObjectEncoding(1)));
}

#[test]
fn array_element_that_is_not_a_reference_is_an_error() {
    let objects = vec![
        text("$null"),
        dict(vec![
            ("$class", Value::Uid(2)),
            ("NS.objects", Value::Array(vec![Value::Integer(9)])),
        ]),
        class_meta(vec!["NSArray"]),
    ];
    let converter = Converter::new(archive(objects, vec![("root", Value::Uid(1))])).unwrap();
    let err = converter.decode().unwrap_err();
    assert!(matches!(err, ConverterError::ExpectedUIDValue(k) if k == "NS.objects"));
}

#[test]
fn custom_class_keeps_class_chain_and_plain_fields() {
    let objects = vec![
        text("$null"),
        dict(vec![
            ("$class", Value::Uid(2)),
            ("name", Value::Uid(3)),
            ("count", Value::Integer(3)),
            ("missing", Value::Uid(0)),
        ]),
        class_meta(vec!["MyThing", "NSObject"]),
        text("hello"),
    ];
    let converter = Converter::new(archive(objects, vec![("root", Value::Uid(1))])).unwrap();
    let decoded = converter.decode().unwrap();
    let expected = dict(vec![(
        "root",
        dict(vec![
            (
                "$classes",
                Value::Array(vec![text("MyThing"), text("NSObject")]),
            ),
            ("name", text("hello")),
            ("count", Value::Integer(3)),
        ]),
    )]);
    assert_eq!(decoded, expected);
}

#[test]
fn custom_class_sequence_field_skips_malformed_elements() {
    let objects = vec![
        text("$null"),
        dict(vec![
            ("$class", Value::Uid(2)),
            (
                "items",
                Value::Array(vec![
                    Value::Uid(3),
                    Value::Integer(42),
                    Value::Uid(999),
                    Value::Uid(0),
                    Value::Uid(4),
                ]),
            ),
        ]),
        class_meta(vec!["Bag"]),
        text("kept"),
        text("also kept"),
    ];
    let converter = Converter::new(archive(objects, vec![("root", Value::Uid(1))])).unwrap();
    let decoded = converter.decode().unwrap();
    let expected = dict(vec![(
        "root",
        dict(vec![
            ("$classes", Value::Array(vec![text("Bag")])),
            ("items", Value::Array(vec![text("kept"), text("also kept")])),
        ]),
    )]);
    assert_eq!(decoded, expected);
}

#[test]
fn treat_all_as_classes_keeps_classes_on_native_containers() {
    let objects = vec![
        text("$null"),
        dict(vec![
            ("$class", Value::Uid(2)),
            ("NS.objects", Value::Array(vec![Value::Uid(3)])),
        ]),
        class_meta(vec!["NSMutableArray", "NSArray"]),
        Value::Integer(1),
    ];
    let mut converter = Converter::new(archive(objects, vec![("root", Value::Uid(1))])).unwrap();
    converter.set_treat_all_as_classes(true);
    let decoded = converter.decode().unwrap();
    let expected = dict(vec![(
        "root",
        dict(vec![
            (
                "$classes",
                Value::Array(vec![text("NSMutableArray"), text("NSArray")]),
            ),
            ("NS.objects", Value::Array(vec![Value::Integer(1)])),
        ]),
    )]);
    assert_eq!(decoded, expected);
}

fn holder_objects() -> Vec<Value> {
    vec![
        text("$null"),
        dict(vec![("$class", Value::Uid(2)), ("slot", Value::Uid(3))]),
        class_meta(vec!["Holder"]),
        text("$null"),
    ]
}

#[test]
fn leave_null_values_surfaces_the_sentinel() {
    let mut converter =
        Converter::new(archive(holder_objects(), vec![("root", Value::Uid(1))])).unwrap();
    converter.set_leave_null_values(true);
    let decoded = converter.decode().unwrap();
    let expected = dict(vec![(
        "root",
        dict(vec![
            ("$classes", Value::Array(vec![text("Holder")])),
            ("slot", text("$null")),
        ]),
    )]);
    assert_eq!(decoded, expected);

    let converter =
        Converter::new(archive(holder_objects(), vec![("root", Value::Uid(1))])).unwrap();
    let decoded = converter.decode().unwrap();
    let expected = dict(vec![(
        "root",
        dict(vec![("$classes", Value::Array(vec![text("Holder")]))]),
    )]);
    assert_eq!(decoded, expected);
}

#[test]
fn cyclic_reference_is_refused() {
    let objects = vec![
        text("$null"),
        dict(vec![("$class", Value::Uid(2)), ("me", Value::Uid(1))]),
        class_meta(vec!["Selfish"]),
    ];
    let converter = Converter::new(archive(objects, vec![("root", Value::Uid(1))])).unwrap();
    let err = converter.decode().unwrap_err();
    assert!(matches!(err, ConverterError::CyclicReference(1)));
}

#[test]
fn empty_class_chain_resolves_to_absence() {
    let objects = vec![
        text("$null"),
        dict(vec![("$class", Value::Uid(2))]),
        class_meta(vec![]),
    ];
    let converter = Converter::new(archive(objects, vec![("root", Value::Uid(1))])).unwrap();
    let err = converter.decode().unwrap_err();
    assert!(matches!(err, ConverterError::InvalidObjectEncoding(1)));
}

#[test]
fn class_chain_with_non_string_entry_is_an_error() {
    let objects = vec![
        text("$null"),
        dict(vec![("$class", Value::Uid(2))]),
        dict(vec![(
            "$classes",
            Value::Array(vec![text("A"), Value::Integer(1)]),
        )]),
    ];
    let converter = Converter::new(archive(objects, vec![("root", Value::Uid(1))])).unwrap();
    let err = converter.decode().unwrap_err();
    assert!(matches!(err, ConverterError::InvalidObjectEncoding(2)));
}

#[test]
fn class_reference_outside_the_table_is_an_error() {
    let objects = vec![text("$null"), dict(vec![("$class", Value::Uid(42))])];
    let converter = Converter::new(archive(objects, vec![("root", Value::Uid(1))])).unwrap();
    let err = converter.decode().unwrap_err();
    assert!(matches!(err, ConverterError::InvalidObjectEncoding(42)));
}

#[test]
fn mapping_without_class_marker_is_copied_verbatim() {
    let objects = vec![
        text("$null"),
        dict(vec![("x", Value::Integer(1)), ("y", Value::Uid(7))]),
    ];
    let converter = Converter::new(archive(objects, vec![("root", Value::Uid(1))])).unwrap();
    let decoded = converter.decode().unwrap();
    let expected = dict(vec![(
        "root",
        dict(vec![("x", Value::Integer(1)), ("y", Value::Uid(7))]),
    )]);
    assert_eq!(decoded, expected);
}

#[test]
fn round_trip_of_a_native_array_re_encoding() {
    let objects = vec![
        text("$null"),
        dict(vec![
            ("$class", Value::Uid(2)),
            (
                "NS.objects",
                Value::Array(vec![Value::Uid(3), Value::Uid(4)]),
            ),
        ]),
        class_meta(vec!["NSArray"]),
        Value::Integer(10),
        text("twenty"),
    ];
    let converter = Converter::new(archive(objects, vec![("root", Value::Uid(1))])).unwrap();
    let first = converter.decode().unwrap();

    let root_value = match &first {
        Value::Dictionary(entries) => entries[0].1.duplicate(),
        _ => panic!("expected a mapping"),
    };
    let elements = match &root_value {
        Value::Array(vs) => vs.iter().map(|v| v.duplicate()).collect::<Vec<_>>(),
        _ => panic!("expected an array"),
    };
    let mut objects2 = vec![text("$null")];
    let mut refs = Vec::new();
    for (i, element) in elements.into_iter().enumerate() {
        objects2.push(element);
        refs.push(Value::Uid(1 + i as u64));
    }
    objects2.push(dict(vec![
        ("$class", Value::Uid(objects2.len() as u64 + 1)),
        ("NS.objects", Value::Array(refs)),
    ]));
    objects2.push(class_meta(vec!["NSArray"]));
    let container_ref = Value::Uid(objects2.len() as u64 - 2);
    let converter2 = Converter::new(archive(objects2, vec![("root", container_ref)])).unwrap();
    let second = converter2.decode().unwrap();
    assert_eq!(first, second);
}

#[test]
fn round_trip_of_a_decoded_tree_as_one_leaf() {
    let objects = vec![
        text("$null"),
        dict(vec![
            ("$class", Value::Uid(4)),
            ("NS.keys", Value::Array(vec![Value::Uid(2)])),
            ("NS.objects", Value::Array(vec![Value::Uid(3)])),
        ]),
        text("k"),
        Value::Integer(5),
        class_meta(vec!["NSDictionary"]),
    ];
    let converter = Converter::new(archive(objects, vec![("root", Value::Uid(1))])).unwrap();
    let first = converter.decode().unwrap();
    let root_value = match &first {
        Value::Dictionary(entries) => entries[0].1.duplicate(),
        _ => panic!("expected a mapping"),
    };
    let converter2 = Converter::new(archive(
        vec![text("$null"), root_value],
        vec![("root", Value::Uid(1))],
    ))
    .unwrap();
    let second = converter2.decode().unwrap();
    assert_eq!(first, second);
}

#[test]
fn every_leaf_variant_is_copied_verbatim() {
    let leaf = Value::Array(vec![
        Value::Boolean(true),
        Value::Integer(-12),
        Value::Real(2.5f64.to_bits()),
        text("plain"),
        Value::Date(978307200, 500_000_000),
        Value::Data(vec![0, 1, 2, 255]),
        Value::Uid(9),
        dict(vec![("inner", Value::Boolean(false))]),
    ]);
    let expected = leaf.duplicate();
    let objects = vec![text("$null"), leaf];
    let converter = Converter::new(archive(objects, vec![("root", Value::Uid(1))])).unwrap();
    let decoded = converter.decode().unwrap();
    assert_eq!(decoded, dict(vec![("root", expected)]));
}
