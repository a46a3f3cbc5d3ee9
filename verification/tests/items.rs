use ddv::data::{Attribute, AttrMap, Item, KeySchemaType};
use ddv::item_json::{
    is_plain_convertible, item_from_plain_json, item_from_typed_json, new_item_skeleton,
    validate_has_keys,
};
use ddv::item_write::{plain_json_text, typed_json_text};
use ddv::number::{number_text, parse_number, Number};
use ddv::util::{from_base64_str, to_base64_str};

#[test]
fn typed_json_round_trips_losslessly() {
    // typed input covering every DynamoDB type
    let input = r#"{
  "pk": {"S": "u#1"},
  "n": {"N": "30"},
  "flag": {"BOOL": true},
  "nothing": {"NULL": true},
  "tags": {"SS": ["a", "b"]},
  "nums": {"NS": ["1", "2.5"]},
  "bin": {"B": "YWJj"},
  "nested": {"M": {"inner": {"L": [{"S": "x"}, {"N": "1"}]}}}
}"#;
    let item = item_from_typed_json(input).unwrap();
    let schema = KeySchemaType::Hash("pk".into());
    // re-serialize with the typed serializer and parse again — must be identical
    let reser = typed_json_text(&item, &schema);
    let item2 = item_from_typed_json(&reser).unwrap();
    assert_eq!(item.attributes, item2.attributes);
    assert_eq!(item.attributes.len(), 8);
    assert_eq!(item.attributes.get("n"), Some(&Attribute::N(30.into())));
    assert_eq!(item.attributes.get("bin"), Some(&Attribute::B(b"abc".to_vec())));
}

#[test]
fn plain_json_infers_types() {
    let item = item_from_plain_json(r#"{"pk":"u#1","n":30,"flag":true,"list":[1,"x"],"m":{"k":2}}"#)
        .unwrap();
    assert_eq!(item.attributes.get("pk"), Some(&Attribute::S("u#1".into())));
    assert_eq!(item.attributes.get("n"), Some(&Attribute::N(30.into())));
    assert_eq!(item.attributes.get("flag"), Some(&Attribute::BOOL(true)));
    match item.attributes.get("list").unwrap() {
        Attribute::L(v) => assert_eq!(v.len(), 2),
        other => panic!("expected L, got {other:?}"),
    }
}

#[test]
fn invalid_json_is_an_error_not_a_panic() {
    assert!(item_from_typed_json("{not json").is_err());
    assert!(item_from_plain_json("[]").is_err()); // top level must be object
    assert!(item_from_typed_json(r#"{"a": {"S": "x", "N": "1"}}"#).is_err()); // two type keys
    assert!(item_from_typed_json(r#"{"a": {"WAT": "x"}}"#).is_err()); // unknown type
}

#[test]
fn plain_convertible_detects_sets_and_binary() {
    let plain = item_from_plain_json(r#"{"a":"x","l":[1,2]}"#).unwrap();
    assert!(is_plain_convertible(&plain));

    let with_set = item_from_typed_json(r#"{"a":{"SS":["x"]}}"#).unwrap();
    assert!(!is_plain_convertible(&with_set));

    let with_bin = item_from_typed_json(r#"{"a":{"B":"YWJj"}}"#).unwrap();
    assert!(!is_plain_convertible(&with_bin));
}

#[test]
fn validate_keys_and_skeleton() {
    let schema = KeySchemaType::HashRange("PK".into(), "SK".into());
    let skel = new_item_skeleton(&schema);
    assert!(validate_has_keys(&skel, &schema).is_ok());

    let missing = item_from_plain_json(r#"{"PK":"x"}"#).unwrap();
    assert!(validate_has_keys(&missing, &schema).is_err());
}

#[test]
fn skeleton_holds_empty_key_strings() {
    let skel = new_item_skeleton(&KeySchemaType::HashRange("PK".into(), "SK".into()));
    assert_eq!(skel.attributes.len(), 2);
    assert_eq!(skel.attributes.get("PK"), Some(&Attribute::S(String::new())));
    assert_eq!(skel.attributes.get("SK"), Some(&Attribute::S(String::new())));
    let text = typed_json_text(&skel, &KeySchemaType::HashRange("PK".into(), "SK".into()));
    assert_eq!(
        text,
        "{\n  \"PK\": {\n    \"S\": \"\"\n  },\n  \"SK\": {\n    \"S\": \"\"\n  }\n}"
    );
}

#[test]
fn missing_keys_are_named_partition_key_first() {
    let schema = KeySchemaType::HashRange("PK".into(), "SK".into());
    let none = item_from_plain_json(r#"{"x":1}"#).unwrap();
    assert_eq!(
        validate_has_keys(&none, &schema),
        Err("missing key attribute(s): PK, SK".to_string())
    );
    let no_sk = item_from_plain_json(r#"{"PK":"a"}"#).unwrap();
    assert_eq!(
        validate_has_keys(&no_sk, &schema),
        Err("missing key attribute(s): SK".to_string())
    );
    let no_pk = item_from_plain_json(r#"{"SK":"a"}"#).unwrap();
    assert_eq!(
        validate_has_keys(&no_pk, &schema),
        Err("missing key attribute(s): PK".to_string())
    );
    let hash = KeySchemaType::Hash("id".into());
    assert_eq!(
        validate_has_keys(&none, &hash),
        Err("missing key attribute(s): id".to_string())
    );
}

#[test]
fn typed_reader_errors() {
    let cases: Vec<(&str, &str)> = vec![
        ("[]", "top level must be a JSON object"),
        (r#"{"a": 1}"#, "each attribute must be a `{\"<type>\": <value>}` object"),
        (r#"{"a": {}}"#, "each attribute object must have exactly one type key"),
        (r#"{"a": {"WAT": "x"}}"#, "unknown attribute type: WAT"),
        (r#"{"a": {"S": 1}}"#, "S must be a string"),
        (r#"{"a": {"N": true}}"#, "N must be a numeric string"),
        (r#"{"a": {"BOOL": "yes"}}"#, "BOOL must be a boolean"),
        (r#"{"a": {"L": {}}}"#, "L must be an array"),
        (r#"{"a": {"M": []}}"#, "M must be an object"),
        (r#"{"a": {"SS": "x"}}"#, "SS must be an array"),
        (r#"{"a": {"NS": "x"}}"#, "NS must be an array"),
        (r#"{"a": {"BS": "x"}}"#, "BS must be an array"),
        (r#"{"a": {"SS": [1]}}"#, "SS element must be a string"),
    ];
    for (input, msg) in cases {
        assert_eq!(item_from_typed_json(input), Err(msg.to_string()), "input {input}");
    }
    let e = item_from_typed_json(r#"{"a": {"N": "abc"}}"#).unwrap_err();
    assert!(e.starts_with("invalid N number abc: "), "{e}");
    let e = item_from_typed_json(r#"{"a": {"B": "***"}}"#).unwrap_err();
    assert!(e.starts_with("B must be base64: "), "{e}");
    let e = item_from_typed_json("{not json").unwrap_err();
    assert!(e.starts_with("invalid JSON: "), "{e}");
}

#[test]
fn typed_reader_keeps_sets_ascending_and_distinct() {
    let item = item_from_typed_json(r#"{"s":{"SS":["b","a","b"]},"n":{"NS":["2","1.0","1"]}}"#).unwrap();
    assert_eq!(
        item.attributes.get("s"),
        Some(&Attribute::SS(vec!["a".to_string(), "b".to_string()]))
    );
    match item.attributes.get("n").unwrap() {
        Attribute::NS(v) => {
            assert_eq!(v.len(), 2);
            assert_eq!(number_text(&v[0]), "1.0");
            assert_eq!(number_text(&v[1]), "2");
        }
        other => panic!("expected NS, got {other:?}"),
    }
}

#[test]
fn later_member_replaces_earlier_one() {
    let item = item_from_plain_json(r#"{"a":1,"a":"x"}"#).unwrap();
    assert_eq!(item.attributes.len(), 1);
    assert_eq!(item.attributes.get("a"), Some(&Attribute::S("x".into())));
}

#[test]
fn plain_text_writes_keys_first_and_numbers_bare() {
    let item = item_from_typed_json(r#"{"z":{"N":"2.50"},"a":{"S":"x"},"SK":{"S":"s"},"PK":{"S":"p"}}"#)
        .unwrap();
    let schema = KeySchemaType::HashRange("PK".into(), "SK".into());
    let text = plain_json_text(&item, &schema);
    assert_eq!(
        text,
        "{\n  \"PK\": \"p\",\n  \"SK\": \"s\",\n  \"a\": \"x\",\n  \"z\": 2.50\n}"
    );
    let back = item_from_plain_json(&text).unwrap();
    assert_eq!(back.attributes, item.attributes);
}

#[test]
fn typed_text_writes_each_type() {
    let item = item_from_typed_json(
        r#"{"k":{"S":"v"},"b":{"B":"YWJj"},"l":{"L":[]},"m":{"M":{}},"z":{"NULL":true},"f":{"BOOL":false},"ns":{"NS":["-0.5"]},"bs":{"BS":["YWJj"]}}"#,
    )
    .unwrap();
    let text = typed_json_text(&item, &KeySchemaType::Hash("k".into()));
    let expected = "{\n  \"k\": {\n    \"S\": \"v\"\n  },\n  \"b\": {\n    \"B\": \"YWJj\"\n  },\n  \"bs\": {\n    \"BS\": [\n      \"YWJj\"\n    ]\n  },\n  \"f\": {\n    \"BOOL\": false\n  },\n  \"l\": {\n    \"L\": []\n  },\n  \"m\": {\n    \"M\": {}\n  },\n  \"ns\": {\n    \"NS\": [\n      \"-0.5\"\n    ]\n  },\n  \"z\": {\n    \"NULL\": true\n  }\n}";
    assert_eq!(text, expected);
    assert_eq!(item_from_typed_json(&text).unwrap().attributes, item.attributes);
}

#[test]
fn plain_round_trip_of_convertible_item() {
    let item = item_from_plain_json(r#"{"id":"1","n":-7,"l":[true,null,{"x":[]}]}"#).unwrap();
    assert!(is_plain_convertible(&item));
    let text = plain_json_text(&item, &KeySchemaType::Hash("id".into()));
    assert_eq!(item_from_plain_json(&text).unwrap().attributes, item.attributes);
}

#[test]
fn base64_wrappers_encode_and_decode() {
    assert_eq!(to_base64_str(b"abc"), "YWJj");
    assert_eq!(to_base64_str(b""), "");
    assert_eq!(from_base64_str("YWJj"), Ok(b"abc".to_vec()));
    assert!(from_base64_str("YWJ").is_err());
}

#[test]
fn numbers_parse_and_print_as_decimals() {
    let n = parse_number("2.50").unwrap();
    assert_eq!(n, Number { negative: false, magnitude: 250, scale: 2 });
    assert_eq!(number_text(&n), "2.50");
    let m = parse_number("-0.05").unwrap();
    assert_eq!(m, Number { negative: true, magnitude: 5, scale: 2 });
    assert_eq!(number_text(&m), "-0.05");
    assert_eq!(number_text(&Number::from(-12)), "-12");
    assert!(parse_number("x1").is_err());
}

#[test]
fn attribute_map_stays_sorted() {
    let mut m = AttrMap::new();
    m.insert("b".into(), Attribute::NULL);
    m.insert("a".into(), Attribute::BOOL(true));
    m.insert("b".into(), Attribute::S("x".into()));
    assert_eq!(m.len(), 2);
    assert_eq!(m.entries[0].0, "a");
    assert_eq!(m.entries[1].0, "b");
    assert_eq!(m.get("b"), Some(&Attribute::S("x".into())));
    assert!(m.contains_key("a"));
    assert!(!m.contains_key("c"));
    let item = Item { attributes: m };
    assert!(is_plain_convertible(&item));
}

#[test]
fn exponent_numbers_read_in_typed_and_plain_json() {
    let typed = item_from_typed_json(r#"{"a":{"NS":[1e5,2e5,3e5,4e5,5e5,6e5]}}"#).unwrap();
    match typed.attributes.get("a") {
        Some(Attribute::NS(ns)) => {
            let texts: Vec<String> = ns.iter().map(number_text).collect();
            assert_eq!(texts, vec!["100000", "200000", "300000", "400000", "500000", "600000"]);
        }
        other => panic!("expected NS, got {other:?}"),
    }
    let plain = item_from_plain_json(r#"{"l":[1e5,1e5,1e5,1e5,1e5,1e5,1e5]}"#).unwrap();
    match plain.attributes.get("l") {
        Some(Attribute::L(vs)) => {
            assert_eq!(vs.len(), 7);
            for v in vs {
                match v {
                    Attribute::N(n) => assert_eq!(number_text(n), "100000"),
                    other => panic!("expected N, got {other:?}"),
                }
            }
        }
        other => panic!("expected L, got {other:?}"),
    }
    assert!(is_plain_convertible(&plain));
}

#[test]
fn a_tiny_negative_number_parses_to_a_signed_zero() {
    let n = parse_number("-0.1e-28").unwrap();
    assert_eq!(n.magnitude, 0);
    assert!(n.negative);
    let zero = parse_number("0").unwrap();
    assert!(!zero.negative);
    assert_eq!(ddv::number::compare_numbers(&n, &zero), 0);
}

#[test]
fn written_text_reads_back_whatever_the_key_order() {
    let mut attrs = AttrMap::new();
    attrs.insert("z".to_string(), Attribute::S("key".into()));
    attrs.insert("a".to_string(), Attribute::N(parse_number("1.50").unwrap()));
    attrs.insert("m".to_string(), Attribute::L(vec![Attribute::NULL, Attribute::BOOL(false)]));
    let item = Item { attributes: attrs };
    let schema = KeySchemaType::Hash("z".into());
    let typed = typed_json_text(&item, &schema);
    assert!(typed.find("\"z\"").unwrap() < typed.find("\"a\"").unwrap());
    assert_eq!(item_from_typed_json(&typed).unwrap().attributes, item.attributes);
    let plain = plain_json_text(&item, &schema);
    assert_eq!(item_from_plain_json(&plain).unwrap().attributes, item.attributes);
}

#[test]
fn a_negative_zero_reads_back_as_the_equal_unsigned_zero() {
    let zero = parse_number("-0.1e-28").unwrap();
    let mut attrs = AttrMap::new();
    attrs.insert("k".to_string(), Attribute::S("x".into()));
    attrs.insert("z".to_string(), Attribute::N(zero));
    let item = Item { attributes: attrs };
    let schema = KeySchemaType::Hash("k".into());
    let back = item_from_typed_json(&typed_json_text(&item, &schema)).unwrap();
    match back.attributes.get("z") {
        Some(Attribute::N(n)) => {
            assert!(!n.negative);
            assert_eq!(n.magnitude, 0);
            assert_eq!(n.scale, zero.scale);
            assert_eq!(ddv::number::compare_numbers(n, &zero), 0);
        }
        other => panic!("expected N, got {other:?}"),
    }
}

#[test]
fn strings_are_quoted_with_json_escapes() {
    assert_eq!(ddv::json::quote_json("a\"b\\c"), "\"a\\\"b\\\\c\"");
    assert_eq!(ddv::json::quote_json("\n\t\r\u{8}\u{c}"), "\"\\n\\t\\r\\b\\f\"");
    assert_eq!(ddv::json::quote_json("\u{1}\u{1f}é/"), "\"\\u0001\\u001fé/\"");
}
