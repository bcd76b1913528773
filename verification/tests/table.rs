use target_iceberg::error::SingerIcebergError;
use target_iceberg::table::{
    base_location, find_property, partition_fields, resolve_table, table_identifier,
    PartitionField, Transform, SINGER_BOOKMARK, SINGER_VERSION,
};

fn properties(pairs: &[(&str, &str)]) -> Vec<(String, String)> {
    pairs.iter().map(|(k, v)| (k.to_string(), v.to_string())).collect()
}

#[test]
fn the_property_keys_are_dotted() {
    assert_eq!(SINGER_BOOKMARK, "singer.bookmark");
    assert_eq!(SINGER_VERSION, "singer.version");
}

#[test]
fn find_property_gives_the_first_value_of_a_key() {
    let pairs = properties(&[("a", "1"), ("b", "2"), ("a", "3")]);
    assert_eq!(find_property(&pairs, "a"), Some(&"1".to_string()));
    assert_eq!(find_property(&pairs, "b"), Some(&"2".to_string()));
    assert_eq!(find_property(&pairs, "c"), None);
}

#[test]
fn the_table_is_named_by_the_last_two_segments() {
    assert_eq!(table_identifier("public.test.people"), vec!["test", "people"]);
    assert_eq!(table_identifier("a.b.c.d"), vec!["c", "d"]);
    assert_eq!(table_identifier("inventory.orders"), vec!["inventory", "orders"]);
    assert_eq!(table_identifier("world"), vec!["world"]);
    assert_eq!(table_identifier(""), vec![""]);
    assert_eq!(table_identifier("a."), vec!["a", ""]);
    assert_eq!(table_identifier(".b"), vec!["", "b"]);
    assert_eq!(table_identifier("a..b"), vec!["", "b"]);
}

#[test]
fn resolve_table_gives_namespace_and_name() {
    let table = resolve_table("public.test.people").unwrap();
    assert_eq!(table.name(), "people");
    assert_eq!(&table.namespace()[..], &["test".to_string()][..]);
    assert_eq!(table.to_string(), "test.people");
    let table = resolve_table("inventory.orders").unwrap();
    assert_eq!(table.to_string(), "inventory.orders");
}

#[test]
fn resolve_table_needs_a_namespace_and_a_name() {
    for identifier in ["world", "", "a.", "a.b."] {
        assert!(
            matches!(resolve_table(identifier), Err(SingerIcebergError::IcebergSpec(_))),
            "{}",
            identifier
        );
    }
    assert!(resolve_table(".b").is_ok());
}

#[test]
fn a_new_table_lies_under_the_bucket() {
    assert_eq!(
        base_location(Some("s3://bucket/"), "public.test.people"),
        "s3://bucket/public/test/people"
    );
    assert_eq!(
        base_location(Some("s3://bucket///"), "public.test.people"),
        "s3://bucket/public/test/people"
    );
    assert_eq!(base_location(Some("s3://bucket"), "people"), "s3://bucket/people");
    assert_eq!(base_location(None, "public.test.people"), "/public/test/people");
    assert_eq!(base_location(Some(""), "a.b"), "/a/b");
    assert_eq!(base_location(Some("///"), ""), "/");
    assert_eq!(base_location(Some("/tmp/lake/"), "a/b.c"), "/tmp/lake/a/b/c");
}

#[test]
fn partition_fields_are_numbered_from_a_thousand() {
    let columns = vec![
        ("id".to_string(), 1),
        ("day".to_string(), 2),
        ("country".to_string(), 3),
        ("day".to_string(), 9),
    ];
    let partition_by = vec![
        ("day".to_string(), "\"day\"".to_string()),
        ("country".to_string(), "\"identity\"".to_string()),
        ("id".to_string(), "\"bucket[16]\"".to_string()),
        ("country".to_string(), "\"truncate[4]\"".to_string()),
    ];
    let field = |source_id, field_id, name: &str, transform| PartitionField {
        source_id,
        field_id,
        name: name.to_string(),
        transform,
    };
    assert_eq!(
        partition_fields(&partition_by, &columns).unwrap(),
        vec![
            field(2, 1000, "day", Transform::Day),
            field(3, 1001, "country", Transform::Identity),
            field(1, 1002, "id", Transform::Bucket(16)),
            field(3, 1003, "country", Transform::Truncate(4)),
        ]
    );
    assert_eq!(partition_fields(&Vec::new(), &columns).unwrap(), vec![]);
}

#[test]
fn partition_fields_reads_every_transform() {
    let columns = vec![("c".to_string(), 4)];
    for (text, transform) in [
        ("\"identity\"", Transform::Identity),
        ("\"year\"", Transform::Year),
        ("\"month\"", Transform::Month),
        ("\"day\"", Transform::Day),
        ("\"hour\"", Transform::Hour),
        ("\"void\"", Transform::Void),
        ("\"bucket[7]\"", Transform::Bucket(7)),
        ("\"truncate[3]\"", Transform::Truncate(3)),
    ] {
        let fields = partition_fields(&vec![("c".to_string(), text.to_string())], &columns).unwrap();
        assert_eq!(fields[0].transform, transform);
    }
}

#[test]
fn the_first_column_that_cannot_be_planned_decides() {
    let columns = vec![("id".to_string(), 1)];
    let partition_by = vec![
        ("id".to_string(), "\"day\"".to_string()),
        ("missing".to_string(), "no json".to_string()),
        ("id".to_string(), "no json".to_string()),
    ];
    match partition_fields(&partition_by, &columns) {
        Err(SingerIcebergError::FieldNotFound(name)) => assert_eq!(name, "missing"),
        other => panic!("{:?}", other),
    }
    let partition_by = vec![
        ("id".to_string(), "\"weekly\"".to_string()),
        ("missing".to_string(), "\"day\"".to_string()),
    ];
    assert!(matches!(
        partition_fields(&partition_by, &columns),
        Err(SingerIcebergError::Serde(_))
    ));
    let partition_by = vec![("id".to_string(), "day".to_string())];
    assert!(matches!(
        partition_fields(&partition_by, &columns),
        Err(SingerIcebergError::Serde(_))
    ));
}

