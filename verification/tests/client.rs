use ddv::aws_profiles::{profiles_from, section_headers};
use ddv::client::{
    build_key_condition, has_key_attributes, key_of, query_page_step, schema_of, sort_items,
    to_key_schema_type, PageStep, DEFAULT_SCAN_LIMIT,
};
use ddv::text::is_whitespace;
use ddv::data::{
    AttrMap, Attribute, Item, KeySchemaElement, KeySchemaType, KeyType, QueryRequest,
    SortKeyCondition,
};

fn s(v: &Attribute) -> &str {
    match v {
        Attribute::S(s) => s,
        other => panic!("expected S, got {other:?}"),
    }
}

#[test]
fn parses_config_and_credentials() {
    let config = "\
[default]
region = us-east-1

[profile local]
endpoint_url = http://localhost:8000

[profile dev-permissions-1]
sso_session = x
";
    let creds = "\
[default]
aws_access_key_id = a

[dynamodb-docker]
aws_access_key_id = b

[profile barak-staging]
aws_access_key_id = c
";
    let profiles = profiles_from(config, creds);
    assert_eq!(
        profiles,
        vec![
            "barak-staging", // stray "profile " prefix in creds is stripped
            "default",
            "dev-permissions-1",
            "dynamodb-docker",
            "local",
        ]
    );
}

#[test]
fn key_condition_pk_only() {
    let req = QueryRequest {
        index_name: None,
        partition_key: ("PK".into(), Attribute::S("u#1".into())),
        sort_key: None,
    };
    let (expr, names, values) = build_key_condition(&req);
    assert_eq!(expr, "#p = :p");
    assert_eq!(names.get("#p").map(String::as_str), Some("PK"));
    assert_eq!(s(values.get(":p").unwrap()), "u#1");
}

#[test]
fn key_condition_pk_and_begins_with() {
    let req = QueryRequest {
        index_name: Some("orgIndex".into()),
        partition_key: ("orgId".into(), Attribute::S("o#7".into())),
        sort_key: Some(("SK".into(), SortKeyCondition::BeginsWith("PAY#".into()))),
    };
    let (expr, names, values) = build_key_condition(&req);
    assert_eq!(expr, "#p = :p AND begins_with(#s, :s)");
    assert_eq!(names.get("#s").map(String::as_str), Some("SK"));
    assert_eq!(s(values.get(":s").unwrap()), "PAY#");
}

#[test]
fn key_condition_between() {
    let req = QueryRequest {
        index_name: None,
        partition_key: ("PK".into(), Attribute::S("x".into())),
        sort_key: Some((
            "SK".into(),
            SortKeyCondition::Between(Attribute::S("2024-01".into()), Attribute::S("2024-12".into())),
        )),
    };
    let (expr, _names, values) = build_key_condition(&req);
    assert_eq!(expr, "#p = :p AND #s BETWEEN :s AND :s2");
    assert_eq!(s(values.get(":s").unwrap()), "2024-01");
    assert_eq!(s(values.get(":s2").unwrap()), "2024-12");
}

#[test]
fn key_condition_comparisons() {
    let cases: Vec<(SortKeyCondition, &str)> = vec![
        (SortKeyCondition::Eq(Attribute::S("a".into())), "#p = :p AND #s = :s"),
        (SortKeyCondition::Lt(Attribute::S("a".into())), "#p = :p AND #s < :s"),
        (SortKeyCondition::Le(Attribute::S("a".into())), "#p = :p AND #s <= :s"),
        (SortKeyCondition::Gt(Attribute::S("a".into())), "#p = :p AND #s > :s"),
        (SortKeyCondition::Ge(Attribute::S("a".into())), "#p = :p AND #s >= :s"),
    ];
    for (cond, text) in cases {
        let req = QueryRequest {
            index_name: None,
            partition_key: ("PK".into(), Attribute::N(1.into())),
            sort_key: Some(("SK".into(), cond)),
        };
        let (expr, names, values) = build_key_condition(&req);
        assert_eq!(expr, text);
        assert_eq!(names.get("#s").map(String::as_str), Some("SK"));
        assert_eq!(values.get(":p"), Some(&Attribute::N(1.into())));
        assert_eq!(values.get(":s"), Some(&Attribute::S("a".into())));
    }
}

#[test]
fn section_headers_are_read_from_brackets() {
    let headers = section_headers("[a]\nx = 1\n  [ b c ]  \r\n[]\nnot]\n");
    let texts: Vec<String> = headers.iter().map(|h| h.iter().collect()).collect();
    assert_eq!(texts, vec!["a".to_string(), "b c".to_string(), "".to_string()]);
}

#[test]
fn profiles_are_deduplicated_and_sorted() {
    let profiles = profiles_from("[profile b]\n[profile a]\n[default]\n", "[b]\n[a]\n");
    assert_eq!(profiles, vec!["a", "b", "default"]);
    assert!(profiles_from("", "").is_empty());
}

fn item(pairs: Vec<(&str, Attribute)>) -> Item {
    let mut m = AttrMap::new();
    for (k, v) in pairs {
        m.insert(k.to_string(), v);
    }
    Item { attributes: m }
}

#[test]
fn key_of_keeps_only_key_attributes() {
    let it = item(vec![
        ("PK", Attribute::S("p".into())),
        ("SK", Attribute::N(2.into())),
        ("x", Attribute::NULL),
    ]);
    let key = key_of(&it, &KeySchemaType::HashRange("PK".into(), "SK".into()));
    assert_eq!(key.len(), 2);
    assert_eq!(key.get("PK"), Some(&Attribute::S("p".into())));
    assert_eq!(key.get("SK"), Some(&Attribute::N(2.into())));
    let key = key_of(&it, &KeySchemaType::Hash("PK".into()));
    assert_eq!(key.len(), 1);
}

#[test]
fn items_sort_by_partition_then_sort_key_stably() {
    let schema = KeySchemaType::HashRange("PK".into(), "SK".into());
    let mut items = vec![
        item(vec![("PK", Attribute::S("b".into())), ("SK", Attribute::N(1.into())), ("t", Attribute::N(0.into()))]),
        item(vec![("PK", Attribute::S("a".into())), ("SK", Attribute::N(10.into()))]),
        item(vec![("PK", Attribute::S("a".into())), ("SK", Attribute::N(2.into()))]),
        item(vec![("PK", Attribute::S("b".into())), ("SK", Attribute::N(1.into())), ("t", Attribute::N(1.into()))]),
    ];
    sort_items(&mut items, &schema);
    let keys: Vec<(String, String)> = items
        .iter()
        .map(|it| {
            let pk = s(it.attributes.get("PK").unwrap()).to_string();
            let sk = match it.attributes.get("SK").unwrap() {
                Attribute::N(n) => ddv::number::number_text(n),
                other => panic!("expected N, got {other:?}"),
            };
            (pk, sk)
        })
        .collect();
    assert_eq!(
        keys,
        vec![
            ("a".to_string(), "2".to_string()),
            ("a".to_string(), "10".to_string()),
            ("b".to_string(), "1".to_string()),
            ("b".to_string(), "1".to_string()),
        ]
    );
    assert_eq!(items[2].attributes.get("t"), Some(&Attribute::N(0.into())));
    assert_eq!(items[3].attributes.get("t"), Some(&Attribute::N(1.into())));
}

#[test]
fn key_schema_types_from_elements() {
    let hash = KeySchemaElement { attribute_name: "id".into(), key_type: KeyType::Hash };
    let range = KeySchemaElement { attribute_name: "ts".into(), key_type: KeyType::Range };
    assert_eq!(
        to_key_schema_type(vec![range.clone(), hash.clone()]),
        KeySchemaType::HashRange("id".into(), "ts".into())
    );
    assert_eq!(to_key_schema_type(vec![hash.clone()]), KeySchemaType::Hash("id".into()));
    assert_eq!(schema_of(&vec![range]), KeySchemaType::Hash(String::new()));
    assert_eq!(schema_of(&vec![hash]), KeySchemaType::Hash("id".into()));
    assert_eq!(DEFAULT_SCAN_LIMIT, 100);
}

#[test]
fn query_pages_gather_until_no_last_key_then_sort() {
    let schema = KeySchemaType::Hash("PK".into());
    let first = vec![item(vec![("PK", Attribute::S("c".into()))])];
    let mut last = AttrMap::new();
    last.insert("PK".to_string(), Attribute::S("c".into()));
    let (gathered, step) = query_page_step(Vec::new(), first, Some(last), &schema);
    match step {
        PageStep::Next(k) => assert_eq!(k.get("PK"), Some(&Attribute::S("c".into()))),
        PageStep::Done(_) => panic!("expected another page"),
    }
    assert_eq!(gathered.len(), 1);
    let second = vec![
        item(vec![("PK", Attribute::S("a".into()))]),
        item(vec![("PK", Attribute::S("b".into()))]),
    ];
    let (rest, step) = query_page_step(gathered, second, None, &schema);
    assert!(rest.is_empty());
    match step {
        PageStep::Done(items) => {
            let pks: Vec<&str> = items.iter().map(|it| s(it.attributes.get("PK").unwrap())).collect();
            assert_eq!(pks, vec!["a", "b", "c"]);
        }
        PageStep::Next(_) => panic!("expected the last page"),
    }
}

#[test]
fn key_attributes_are_checked_before_sorting() {
    let schema = KeySchemaType::HashRange("PK".into(), "SK".into());
    let full = item(vec![("PK", Attribute::S("a".into())), ("SK", Attribute::N(1.into()))]);
    let partial = item(vec![("PK", Attribute::S("a".into()))]);
    assert!(has_key_attributes(&full, &schema));
    assert!(!has_key_attributes(&partial, &schema));
    assert!(has_key_attributes(&partial, &KeySchemaType::Hash("PK".into())));
}

#[test]
fn whitespace_follows_the_unicode_property() {
    assert!(is_whitespace(' '));
    assert!(is_whitespace('\t'));
    assert!(is_whitespace('\u{3000}'));
    assert!(is_whitespace('\u{85}'));
    assert!(!is_whitespace('a'));
    assert!(!is_whitespace('\u{200B}'));
    for c in ['\n', '\r', '\u{a0}', '\u{2028}', 'x', '0', '\u{180E}'] {
        assert_eq!(is_whitespace(c), c.is_whitespace());
    }
}
