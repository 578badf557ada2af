use vector_tests::error::GenerateError;
use vector_tests::generate::{build_units, generate_unit_tests, generate_units};
use vector_tests::model::{Expected, Field, FieldValue, PacketGroup, TestVector};
use vector_tests::render::{render_assertion, render_unit, render_units};
use vector_tests::select::{select, Selected};
use vector_tests::unit::{
    accessor_name_of, assertions_of, build_unit, decoder_name_of, test_name_of, Assertion,
    TestUnit,
};

fn field(key: &str, value: u64) -> Field {
    Field { key: key.to_string(), value: FieldValue::Unsigned(value) }
}

fn odd_field(key: &str, found: &str) -> Field {
    Field { key: key.to_string(), value: FieldValue::Other(found.to_string()) }
}

fn vector(packed: &str, fields: Vec<Field>) -> TestVector {
    TestVector { packed: packed.to_string(), unpacked: Expected::Object(fields), packet: None }
}

fn renamed(packed: &str, fields: Vec<Field>, packet: &str) -> TestVector {
    TestVector {
        packed: packed.to_string(),
        unpacked: Expected::Object(fields),
        packet: Some(packet.to_string()),
    }
}

fn group(name: &str, tests: Vec<TestVector>) -> PacketGroup {
    PacketGroup { name: name.to_string(), tests }
}

fn names(list: &[&str]) -> Vec<String> {
    list.iter().map(|n| n.to_string()).collect()
}

fn assertion(accessor: &str, expected: u64) -> Assertion {
    Assertion { accessor: accessor.to_string(), expected }
}

fn shape_error(packet: &str, key: Option<&str>, found: &str) -> GenerateError {
    GenerateError::VectorShape {
        packet: packet.to_string(),
        key: key.map(|k| k.to_string()),
        found: found.to_string(),
    }
}

fn foo_document() -> Vec<PacketGroup> {
    vec![group("Foo", vec![vector("0102", vec![field("x", 1)])])]
}

#[test]
fn single_vector_gives_the_expected_unit() {
    let units = generate_units(&foo_document(), &names(&["Foo"]), "module").unwrap();
    assert_eq!(
        units,
        vec![TestUnit {
            name: "Foo_vector_1_0x0102".to_string(),
            bytes: vec![0x01, 0x02],
            module: "module".to_string(),
            decoder: "FooPacket".to_string(),
            assertions: vec![assertion("get_x", 1)],
        }]
    );
}

#[test]
fn single_vector_gives_the_expected_text() {
    let text = generate_unit_tests(&foo_document(), &names(&["Foo"]), "module").unwrap();
    assert_eq!(
        text,
        "#[test]\n\
         fn Foo_vector_1_0x0102() {\n    \
             let packed = vec![0x01, 0x02];\n    \
             let actual = module::FooPacket::parse(&packed).unwrap();\n    \
             assert_eq!(actual.get_x(), 1);\n\
         }\n"
    );
}

#[test]
fn unlisted_vector_gives_no_unit_and_no_error() {
    let groups = vec![
        group("Foo", vec![vector("0102", vec![field("x", 1)])]),
        group(
            "Other",
            vec![
                vector("xyz", vec![odd_field("y", "-1")]),
                TestVector {
                    packed: "1".to_string(),
                    unpacked: Expected::Other("null".to_string()),
                    packet: None,
                },
            ],
        ),
    ];
    let units = generate_units(&groups, &names(&["Foo"]), "m").unwrap();
    assert_eq!(units.len(), 1);
    assert_eq!(units[0].name, "Foo_vector_1_0x0102");
    assert_eq!(generate_units(&groups, &names(&["Nothing"]), "m"), Ok(vec![]));
}

#[test]
fn empty_allow_list_gives_empty_output() {
    assert_eq!(generate_units(&foo_document(), &[], "m"), Ok(vec![]));
    assert_eq!(generate_unit_tests(&foo_document(), &[], "m"), Ok(String::new()));
}

#[test]
fn listed_vector_gives_one_unit_with_one_assertion_per_key_in_order() {
    let groups = vec![group(
        "Foo",
        vec![
            vector("00", vec![]),
            vector("0102", vec![field("b", 2), field("a", 1), field("c", 3)]),
        ],
    )];
    let units = generate_units(&groups, &names(&["Foo"]), "m").unwrap();
    assert_eq!(units.len(), 2);
    assert_eq!(units[0].assertions, vec![]);
    assert_eq!(
        units[1].assertions,
        vec![assertion("get_b", 2), assertion("get_a", 1), assertion("get_c", 3)]
    );
    let text = render_unit(&units[1]);
    let b = text.find("assert_eq!(actual.get_b(), 2);").unwrap();
    let a = text.find("assert_eq!(actual.get_a(), 1);").unwrap();
    let c = text.find("assert_eq!(actual.get_c(), 3);").unwrap();
    assert!(b < a && a < c);
    assert_eq!(text.matches("assert_eq!").count(), 3);
}

#[test]
fn override_names_the_unit_and_its_decoder() {
    let groups = vec![group("Foo", vec![renamed("0102", vec![field("x", 1)], "Bar")])];
    assert_eq!(generate_units(&groups, &names(&["Foo"]), "m"), Ok(vec![]));
    let units = generate_units(&groups, &names(&["Bar"]), "m").unwrap();
    assert_eq!(units.len(), 1);
    assert_eq!(units[0].name, "Bar_vector_1_0x0102");
    assert_eq!(units[0].decoder, "BarPacket");
    let text = generate_unit_tests(&groups, &names(&["Bar"]), "m").unwrap();
    assert!(text.contains("fn Bar_vector_1_0x0102()"));
    assert!(text.contains("m::BarPacket::parse(&packed).unwrap();"));
    assert!(!text.contains("Foo"));
}

#[test]
fn negative_field_value_is_a_shape_error() {
    let groups = vec![group("Foo", vec![vector("0102", vec![odd_field("x", "-1")])])];
    assert_eq!(
        generate_units(&groups, &names(&["Foo"]), "m"),
        Err(shape_error("Foo", Some("x"), "-1"))
    );
    assert_eq!(
        generate_unit_tests(&groups, &names(&["Foo"]), "m"),
        Err(shape_error("Foo", Some("x"), "-1"))
    );
}

#[test]
fn too_large_field_value_is_a_shape_error() {
    let groups =
        vec![group("Foo", vec![vector("0102", vec![odd_field("x", "18446744073709551616")])])];
    assert_eq!(
        generate_units(&groups, &names(&["Foo"]), "m"),
        Err(shape_error("Foo", Some("x"), "18446744073709551616"))
    );
}

#[test]
fn largest_field_value_is_written_in_full() {
    let groups = vec![group("Foo", vec![vector("", vec![field("x", u64::MAX)])])];
    let units = generate_units(&groups, &names(&["Foo"]), "m").unwrap();
    assert_eq!(units[0].assertions, vec![assertion("get_x", 18446744073709551615)]);
    assert_eq!(
        render_assertion(&units[0].assertions[0]),
        "    assert_eq!(actual.get_x(), 18446744073709551615);\n"
    );
}

#[test]
fn non_integer_field_values_are_shape_errors() {
    for found in ["1.5", "\"1\"", "null", "true", "[1]", "{}"] {
        let groups = vec![group("Foo", vec![vector("00", vec![odd_field("x", found)])])];
        assert_eq!(
            generate_units(&groups, &names(&["Foo"]), "m"),
            Err(shape_error("Foo", Some("x"), found))
        );
    }
}

#[test]
fn first_bad_field_is_reported() {
    let fields = vec![field("a", 1), odd_field("b", "-2"), odd_field("c", "-3")];
    assert_eq!(assertions_of("Foo", &fields), Err(shape_error("Foo", Some("b"), "-2")));
}

#[test]
fn assertions_follow_the_fields() {
    let fields = vec![field("z", 26), field("a", 0)];
    assert_eq!(assertions_of("Foo", &fields), Ok(vec![assertion("get_z", 26), assertion("get_a", 0)]));
    assert_eq!(assertions_of("Foo", &[]), Ok(vec![]));
}

#[test]
fn expected_fields_that_are_no_object_are_a_shape_error() {
    let groups = vec![group(
        "Foo",
        vec![TestVector {
            packed: "0102".to_string(),
            unpacked: Expected::Other("[1,2]".to_string()),
            packet: None,
        }],
    )];
    assert_eq!(
        generate_units(&groups, &names(&["Foo"]), "m"),
        Err(shape_error("Foo", None, "[1,2]"))
    );
}

#[test]
fn bad_packed_string_is_an_encoding_error() {
    let groups = vec![group("Foo", vec![vector("012", vec![field("x", 1)])])];
    assert_eq!(
        generate_units(&groups, &names(&["Foo"]), "m"),
        Err(GenerateError::Encoding { packed: "012".to_string() })
    );
    let groups = vec![group("Foo", vec![vector("0h", vec![field("x", 1)])])];
    assert_eq!(
        generate_unit_tests(&groups, &names(&["Foo"]), "m"),
        Err(GenerateError::Encoding { packed: "0h".to_string() })
    );
}

#[test]
fn encoding_error_comes_before_shape_error() {
    let groups = vec![group("Foo", vec![vector("0", vec![odd_field("x", "-1")])])];
    assert_eq!(
        generate_units(&groups, &names(&["Foo"]), "m"),
        Err(GenerateError::Encoding { packed: "0".to_string() })
    );
}

#[test]
fn first_failing_vector_aborts_the_batch() {
    let groups = vec![
        group("Foo", vec![vector("01", vec![field("x", 1)]), vector("02", vec![odd_field("y", "1e3")])]),
        group("Bar", vec![vector("zz", vec![])]),
    ];
    assert_eq!(
        generate_units(&groups, &names(&["Foo", "Bar"]), "m"),
        Err(shape_error("Foo", Some("y"), "1e3"))
    );
    assert_eq!(
        generate_units(&groups, &names(&["Bar"]), "m"),
        Err(GenerateError::Encoding { packed: "zz".to_string() })
    );
}

#[test]
fn same_name_and_bytes_at_different_positions_get_different_names() {
    let groups = vec![group(
        "Foo",
        vec![vector("0102", vec![]), vector("0102", vec![]), vector("0102", vec![])],
    )];
    let first = generate_units(&groups, &names(&["Foo"]), "m").unwrap();
    let again = generate_units(&groups, &names(&["Foo"]), "m").unwrap();
    let found: Vec<&str> = first.iter().map(|u| u.name.as_str()).collect();
    assert_eq!(found, vec!["Foo_vector_1_0x0102", "Foo_vector_2_0x0102", "Foo_vector_3_0x0102"]);
    assert_eq!(first, again);
}

#[test]
fn position_counts_unselected_vectors_too() {
    let groups = vec![group(
        "Foo",
        vec![renamed("aa", vec![], "Skip"), renamed("bb", vec![], "Skip"), vector("cc", vec![])],
    )];
    let units = generate_units(&groups, &names(&["Foo"]), "m").unwrap();
    assert_eq!(units.len(), 1);
    assert_eq!(units[0].name, "Foo_vector_3_0xcc");
}

#[test]
fn test_names() {
    assert_eq!(test_name_of("Foo", 1, "0102"), "Foo_vector_1_0x0102");
    assert_eq!(test_name_of("Packet_Scalar_Field", 12, "AbCd"), "Packet_Scalar_Field_vector_12_0xAbCd");
    assert_eq!(test_name_of("P", 100, ""), "P_vector_100_0x");
    assert_eq!(test_name_of("P", 0, "00"), "P_vector_0_0x00");
    assert_eq!(
        test_name_of("P", 4294967295, "00"),
        "P_vector_4294967295_0x00"
    );
}

#[test]
fn accessor_and_decoder_names() {
    assert_eq!(accessor_name_of("x"), "get_x");
    assert_eq!(accessor_name_of("some_field"), "get_some_field");
    assert_eq!(accessor_name_of(""), "get_");
    assert_eq!(decoder_name_of("Foo"), "FooPacket");
    assert_eq!(decoder_name_of("Packet_Scalar_Field"), "Packet_Scalar_FieldPacket");
}

#[test]
fn unit_of_a_chosen_vector() {
    let name = "Foo".to_string();
    let v = vector("80038302", vec![field("a", 7), field("b", 300)]);
    let chosen = Selected { group: 4, ordinal: 11, name: &name, vector: &v };
    assert_eq!(
        build_unit(&chosen, "parser"),
        Ok(TestUnit {
            name: "Foo_vector_11_0x80038302".to_string(),
            bytes: vec![0x80, 0x03, 0x83, 0x02],
            module: "parser".to_string(),
            decoder: "FooPacket".to_string(),
            assertions: vec![assertion("get_a", 7), assertion("get_b", 300)],
        })
    );
}

#[test]
fn units_of_a_selection() {
    let groups = vec![group("A", vec![vector("01", vec![]), vector("0", vec![])])];
    let all = names(&["A"]);
    let chosen = select(&groups, &all);
    assert_eq!(build_units(&chosen[..1], "m").unwrap().len(), 1);
    assert_eq!(build_units(&chosen, "m"), Err(GenerateError::Encoding { packed: "0".to_string() }));
    assert_eq!(build_units(&[], "m"), Ok(vec![]));
}

#[test]
fn text_of_a_unit_without_bytes_or_fields() {
    let unit = TestUnit {
        name: "E_vector_1_0x".to_string(),
        bytes: vec![],
        module: "m".to_string(),
        decoder: "EPacket".to_string(),
        assertions: vec![],
    };
    assert_eq!(
        render_unit(&unit),
        "#[test]\nfn E_vector_1_0x() {\n    let packed = vec![];\n    let actual = m::EPacket::parse(&packed).unwrap();\n}\n"
    );
}

#[test]
fn text_of_several_units_is_their_texts_in_order() {
    let groups = vec![
        group("A", vec![vector("01", vec![field("x", 1)]), vector("02", vec![field("x", 2)])]),
        group("B", vec![vector("03", vec![field("y", 10)])]),
    ];
    let all = names(&["A", "B"]);
    let units = generate_units(&groups, &all, "m").unwrap();
    assert_eq!(units.len(), 3);
    let mut expected = String::new();
    for unit in &units {
        expected.push_str(&render_unit(unit));
    }
    assert_eq!(render_units(&units), expected);
    assert_eq!(generate_unit_tests(&groups, &all, "m"), Ok(expected.clone()));
    assert_eq!(expected.matches("#[test]").count(), 3);
    assert_eq!(render_units(&[]), "");
}

#[test]
fn generation_is_repeatable() {
    let groups = vec![
        group("A", vec![vector("01", vec![field("x", 1)]), renamed("02", vec![field("x", 2)], "B")]),
        group("B", vec![vector("03", vec![field("y", 10)])]),
    ];
    let all = names(&["B"]);
    assert_eq!(generate_unit_tests(&groups, &all, "m"), generate_unit_tests(&groups, &all, "m"));
}

#[test]
fn error_messages_name_the_offending_input() {
    assert_eq!(
        GenerateError::Encoding { packed: "0g".to_string() }.message(),
        "invalid hexadecimal string: 0g"
    );
    assert_eq!(
        shape_error("Foo", None, "[1]").message(),
        "packet Foo: expected an object of fields, found: [1]"
    );
    assert_eq!(
        shape_error("Foo", Some("x"), "-1").message(),
        "packet Foo: expected an unsigned 64-bit integer for key x, found: -1"
    );
}
