use target_iceberg::error::SingerIcebergError;
use target_iceberg::json::Json;
use target_iceberg::plugin::{BaseConfig, Replication, StreamConfig};

fn binding(identifier: &str, method: Replication) -> StreamConfig {
    StreamConfig {
        identifier: identifier.to_string(),
        replication_method: method,
        partition_by: None,
    }
}

#[test]
fn replication_defaults_to_full_table() {
    assert_eq!(Replication::default(), Replication::FullTable);
}

#[test]
fn replication_is_named_as_catalogs_spell_it() {
    assert_eq!(Replication::FullTable.name(), "FULL_TABLE");
    assert_eq!(Replication::Incremental.name(), "INCREMENTAL");
    assert_eq!(Replication::LogBased.name(), "LOG_BASED");
    for method in [Replication::FullTable, Replication::Incremental, Replication::LogBased] {
        assert_eq!(Replication::from_name(method.name()), Some(method));
    }
    assert_eq!(Replication::from_name("log_based"), None);
    assert_eq!(Replication::from_name(""), None);
}

#[test]
fn a_configuration_gives_the_first_binding_of_a_stream() {
    let config = BaseConfig {
        streams: vec![
            ("hello".to_string(), binding("world", Replication::LogBased)),
            ("people".to_string(), binding("public.test.people", Replication::FullTable)),
            ("hello".to_string(), binding("other", Replication::Incremental)),
        ],
        bucket: Some("s3://bucket".to_string()),
        branch: None,
    };
    assert_eq!(config.stream("hello"), Some(&binding("world", Replication::LogBased)));
    assert_eq!(
        config.stream("people"),
        Some(&binding("public.test.people", Replication::FullTable))
    );
    assert_eq!(config.stream("absent"), None);
    assert_eq!(config.bucket(), Some("s3://bucket"));
    assert_eq!(config.branch(), &None);
}

#[test]
fn test_config() {
    let text = r#"
            {
                "streams": {"hello": { "identifier": "world", "replicationMethod": "LOG_BASED" }}
            }
            "#;
    let doc = Json::parse(text).expect("Failed to parse config");
    let config = BaseConfig::from_json(&doc).expect("Failed to parse config");
    // The text holds no keys of an S3 store, so the store that a
    // destination reads from it beside the base keys is the in-memory one.
    if serde_json::from_str::<dashtool_common::S3Config>(text).is_ok() {
        panic!("Wrong object_store type")
    }
    match serde_json::from_str::<dashtool_common::ObjectStoreConfig>("null") {
        Ok(dashtool_common::ObjectStoreConfig::Memory) => {}
        other => panic!("Wrong object_store type: {:?}", other),
    }
    assert_eq!(
        config,
        BaseConfig {
            streams: vec![("hello".to_string(), binding("world", Replication::LogBased))],
            bucket: None,
            branch: None,
        }
    );
}

#[test]
fn a_configuration_reads_both_forms_of_a_binding() {
    let doc = Json::parse(
        r#"{
            "streams": {
                "people": "public.test.people",
                "orders": {
                    "identifier": "public.inventory.orders",
                    "partitionBy": [["day", "\"day\""], ["country", "\"identity\""]]
                },
                "users": {"identifier": "public.inventory.users", "replicationMethod": "INCREMENTAL", "partitionBy": null}
            },
            "bucket": "s3://lake",
            "branch": "staging",
            "catalogUrl": "sqlite://",
            "catalogName": "public"
        }"#,
    )
    .unwrap();
    let config = BaseConfig::from_json(&doc).unwrap();
    assert_eq!(
        config,
        BaseConfig {
            streams: vec![
                ("people".to_string(), binding("public.test.people", Replication::FullTable)),
                (
                    "orders".to_string(),
                    StreamConfig {
                        identifier: "public.inventory.orders".to_string(),
                        replication_method: Replication::FullTable,
                        partition_by: Some(vec![
                            ("day".to_string(), "\"day\"".to_string()),
                            ("country".to_string(), "\"identity\"".to_string()),
                        ]),
                    }
                ),
                ("users".to_string(), binding("public.inventory.users", Replication::Incremental)),
            ],
            bucket: Some("s3://lake".to_string()),
            branch: Some("staging".to_string()),
        }
    );
}

#[test]
fn a_configuration_that_is_none_is_refused() {
    for text in [
        "{}",
        "[]",
        r#"{"streams": []}"#,
        r#"{"streams": {"a": 5}}"#,
        r#"{"streams": {"a": {}}}"#,
        r#"{"streams": {"a": {"identifier": 5}}}"#,
        r#"{"streams": {"a": {"identifier": "x", "replicationMethod": "SOMETIMES"}}}"#,
        r#"{"streams": {"a": {"identifier": "x", "replicationMethod": null}}}"#,
        r#"{"streams": {"a": {"identifier": "x", "partitionBy": {"day": "\"day\""}}}}"#,
        r#"{"streams": {"a": {"identifier": "x", "partitionBy": [["day"]]}}}"#,
        r#"{"streams": {"a": {"identifier": "x", "partitionBy": [["day", 1]]}}}"#,
        r#"{"streams": {}, "bucket": 5}"#,
        r#"{"streams": {}, "branch": []}"#,
    ] {
        let doc = Json::parse(text).unwrap();
        assert!(
            matches!(BaseConfig::from_json(&doc), Err(SingerIcebergError::Serde(_))),
            "{}",
            text
        );
    }
    let doc = Json::parse(r#"{"streams": {}, "bucket": null}"#).unwrap();
    assert!(BaseConfig::from_json(&doc).is_ok());
}

#[test]
fn an_s3_bucket_is_named_with_or_without_its_scheme() {
    use_s3("s3://lake", "lake");
    use_s3("lake", "lake");
    use_s3("s3://s3://lake/path", "lake/path");
    use_s3("s3:/lake", "s3:/lake");
    use_s3("", "");
    use_s3("s3://", "");
    use_s3("S3://lake", "S3://lake");
}

fn use_s3(bucket: &str, name: &str) {
    let (found, url) = target_iceberg::plugin::s3_bucket(bucket);
    assert_eq!(found, name);
    assert_eq!(found, bucket.trim_start_matches("s3://"));
    assert_eq!(url, format!("s3://{}", name));
}
