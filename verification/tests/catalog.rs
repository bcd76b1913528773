use target_iceberg::catalog::{
    select_stream, select_streams, table_plan, Catalog, Metadata, Stream,
};
use target_iceberg::schema::{DataType, Field};
use target_iceberg::table::{PartitionField, Transform};
use target_iceberg::error::SingerIcebergError;
use target_iceberg::json::Json;
use target_iceberg::plugin::{BaseConfig, Replication, StreamConfig};

fn stream(id: &str, metadata: Option<Vec<Metadata>>) -> Stream {
    Stream {
        stream: id.to_string(),
        tap_stream_id: id.to_string(),
        schema: Json::parse(r#"{"type": "object", "properties": {"id": {"type": "integer"}}}"#)
            .unwrap(),
        table_name: None,
        metadata,
    }
}

fn entry(metadata: &str, breadcrumb: &[&str]) -> Metadata {
    Metadata {
        metadata: Json::parse(metadata).unwrap(),
        breadcrumb: breadcrumb.iter().map(|s| s.to_string()).collect(),
    }
}

fn config(streams: &[(&str, Replication)]) -> BaseConfig {
    BaseConfig {
        streams: streams
            .iter()
            .map(|(id, method)| {
                (
                    id.to_string(),
                    StreamConfig {
                        identifier: format!("public.inventory.{}", id),
                        replication_method: *method,
                        partition_by: None,
                    },
                )
            })
            .collect(),
        bucket: None,
        branch: None,
    }
}

#[test]
fn a_stream_without_metadata_gets_one_entry() {
    let selected = select_stream(stream("orders", None), Replication::FullTable);
    assert_eq!(
        selected,
        stream(
            "orders",
            Some(vec![entry(r#"{"selected": true, "replication-method": "FULL_TABLE"}"#, &[])])
        )
    );
}

#[test]
fn the_entry_of_the_stream_itself_is_marked() {
    let metadata = vec![
        entry(r#"{"inclusion": "automatic"}"#, &["properties", "id"]),
        entry(r#"{"selected": false, "table-key-properties": ["id"]}"#, &[]),
        entry(r#"{"later": 1}"#, &[]),
    ];
    let selected = select_stream(stream("orders", Some(metadata)), Replication::LogBased);
    assert_eq!(
        selected.metadata.unwrap(),
        vec![
            entry(r#"{"inclusion": "automatic"}"#, &["properties", "id"]),
            entry(
                r#"{"selected": true, "table-key-properties": ["id"], "replication-method": "LOG_BASED"}"#,
                &[]
            ),
            entry(r#"{"later": 1}"#, &[]),
        ]
    );
}

#[test]
fn an_entry_that_is_no_object_stays() {
    let metadata = vec![entry("5", &[])];
    let selected = select_stream(stream("orders", Some(metadata)), Replication::Incremental);
    assert_eq!(selected.metadata.unwrap(), vec![entry("5", &[])]);
}

#[test]
fn where_no_entry_is_for_the_stream_one_is_added() {
    let metadata = vec![entry(r#"{"inclusion": "automatic"}"#, &["properties", "id"])];
    let selected = select_stream(stream("orders", Some(metadata)), Replication::Incremental);
    assert_eq!(
        selected.metadata.unwrap(),
        vec![
            entry(r#"{"inclusion": "automatic"}"#, &["properties", "id"]),
            entry(r#"{"selected": true, "replication-method": "INCREMENTAL"}"#, &[]),
        ]
    );
    let selected = select_stream(stream("orders", Some(vec![])), Replication::FullTable);
    assert_eq!(
        selected.metadata.unwrap(),
        vec![entry(r#"{"selected": true, "replication-method": "FULL_TABLE"}"#, &[])]
    );
}

#[test]
fn only_bound_streams_stay_in_the_catalog() {
    let catalog = Catalog {
        streams: vec![
            stream("orders", None),
            stream("secrets", None),
            stream("products", Some(vec![entry("{}", &[])])),
            stream("customers", None),
        ],
    };
    let config = config(&[
        ("customers", Replication::FullTable),
        ("orders", Replication::LogBased),
        ("products", Replication::Incremental),
        ("absent", Replication::FullTable),
    ]);
    let selected = select_streams(catalog, &config);
    assert_eq!(
        selected,
        Catalog {
            streams: vec![
                select_stream(stream("orders", None), Replication::LogBased),
                select_stream(
                    stream("products", Some(vec![entry("{}", &[])])),
                    Replication::Incremental
                ),
                select_stream(stream("customers", None), Replication::FullTable),
            ]
        }
    );
    assert_eq!(select_streams(Catalog { streams: vec![] }, &config), Catalog { streams: vec![] });
}

#[test]
fn a_catalog_is_read_from_json() {
    let text = r#"{"streams": [{"stream": "tools","tap_stream_id": "tools","schema": {"type": "object","additionalProperties": false,"properties": {"id": {"type": "string"},"name": {"type": "string"},"updated_at": {"type": "string","format": "date-time"}}}}]}"#;
    let catalog = Catalog::from_json(&Json::parse(text).unwrap()).unwrap();
    assert_eq!(
        catalog,
        Catalog {
            streams: vec![Stream {
                stream: "tools".to_string(),
                tap_stream_id: "tools".to_string(),
                schema: Json::parse(
                    r#"{"type": "object","additionalProperties": false,"properties": {"id": {"type": "string"},"name": {"type": "string"},"updated_at": {"type": "string","format": "date-time"}}}"#
                )
                .unwrap(),
                table_name: None,
                metadata: None,
            }]
        }
    );
}

#[test]
fn a_catalog_is_written_as_it_was_read() {
    let text = r#"{"streams":[{"stream":"orders","tap_stream_id":"inventory-orders","schema":{"type":"object","properties":{"id":{"type":"integer"}}},"table_name":"orders","metadata":[{"metadata":{"inclusion":"automatic"},"breadcrumb":["properties","id"]},{"metadata":{"selected":false},"breadcrumb":[]}]},{"stream":"bare","tap_stream_id":"bare","schema":{}}]}"#;
    let doc = Json::parse(text).unwrap();
    let catalog = Catalog::from_json(&doc).unwrap();
    assert_eq!(catalog.streams.len(), 2);
    assert_eq!(catalog.streams[0].table_name, Some("orders".to_string()));
    assert_eq!(catalog.streams[0].metadata.as_ref().unwrap().len(), 2);
    assert_eq!(catalog.streams[1].metadata, None);
    assert_eq!(catalog.to_json(), doc);
    assert_eq!(catalog.to_json().to_text().unwrap(), text);
}

#[test]
fn a_catalog_that_is_none_is_refused() {
    for text in [
        "{}",
        "[]",
        r#"{"streams": {}}"#,
        r#"{"streams": [5]}"#,
        r#"{"streams": [{"stream": "a", "tap_stream_id": "a"}]}"#,
        r#"{"streams": [{"stream": "a", "schema": {}}]}"#,
        r#"{"streams": [{"tap_stream_id": "a", "schema": {}}]}"#,
        r#"{"streams": [{"stream": "a", "tap_stream_id": "a", "schema": "string"}]}"#,
        r#"{"streams": [{"stream": "a", "tap_stream_id": "a", "schema": {}, "table_name": 5}]}"#,
        r#"{"streams": [{"stream": "a", "tap_stream_id": "a", "schema": {}, "metadata": {}}]}"#,
        r#"{"streams": [{"stream": "a", "tap_stream_id": "a", "schema": {}, "metadata": [{"metadata": {}}]}]}"#,
        r#"{"streams": [{"stream": "a", "tap_stream_id": "a", "schema": {}, "metadata": [{"breadcrumb": []}]}]}"#,
        r#"{"streams": [{"stream": "a", "tap_stream_id": "a", "schema": {}, "metadata": [{"metadata": {}, "breadcrumb": [1]}]}]}"#,
    ] {
        assert!(
            matches!(
                Catalog::from_json(&Json::parse(text).unwrap()),
                Err(SingerIcebergError::Serde(_))
            ),
            "{}",
            text
        );
    }
}

#[test]
fn selecting_marks_a_catalog_read_from_json() {
    let text = r#"{"streams": [
        {"stream": "orders", "tap_stream_id": "inventory-orders", "schema": {"type": "object"}, "metadata": [{"metadata": {"selected": false}, "breadcrumb": []}]},
        {"stream": "skipped", "tap_stream_id": "inventory-skipped", "schema": {"type": "object"}}
    ]}"#;
    let catalog = Catalog::from_json(&Json::parse(text).unwrap()).unwrap();
    let config = BaseConfig {
        streams: vec![(
            "inventory-orders".to_string(),
            StreamConfig {
                identifier: "public.inventory.orders".to_string(),
                replication_method: Replication::LogBased,
                partition_by: None,
            },
        )],
        bucket: None,
        branch: None,
    };
    let selected = select_streams(catalog, &config);
    assert_eq!(
        selected.to_json().to_text().unwrap(),
        r#"{"streams":[{"stream":"orders","tap_stream_id":"inventory-orders","schema":{"type":"object"},"metadata":[{"metadata":{"selected":true,"replication-method":"LOG_BASED"},"breadcrumb":[]}]}]}"#
    );
}

fn binding(identifier: &str, partition_by: Option<Vec<(&str, &str)>>) -> StreamConfig {
    StreamConfig {
        identifier: identifier.to_string(),
        replication_method: Replication::FullTable,
        partition_by: partition_by
            .map(|pairs| pairs.iter().map(|(c, t)| (c.to_string(), t.to_string())).collect()),
    }
}

fn offered(schema: &str) -> Stream {
    Stream {
        stream: "people".to_string(),
        tap_stream_id: "people".to_string(),
        schema: Json::parse(schema).unwrap(),
        table_name: None,
        metadata: None,
    }
}

const PEOPLE: &str = r#"{"type": "object", "properties": {"id": {"type": "integer"}, "name": {"type": ["null", "string"]}, "day": {"type": "string", "format": "date"}}}"#;

#[test]
fn a_table_is_planned_from_stream_binding_and_bucket() {
    let plan = table_plan(
        &offered(PEOPLE),
        &binding("public.test.people", Some(vec![("day", "\"month\""), ("id", "\"bucket[4]\"")])),
        Some("s3://lake/"),
    )
    .unwrap();
    assert_eq!(plan.identifier.name(), "people");
    assert_eq!(&plan.identifier.namespace()[..], &["test".to_string()][..]);
    assert_eq!(plan.location, "s3://lake/public/test/people");
    assert_eq!(
        plan.fields,
        vec![
            Field { name: "id".to_string(), data_type: DataType::Int32, nullable: false },
            Field { name: "name".to_string(), data_type: DataType::Utf8, nullable: true },
            Field { name: "day".to_string(), data_type: DataType::Date32, nullable: false },
        ]
    );
    assert_eq!(
        plan.columns,
        vec![("id".to_string(), 1), ("name".to_string(), 2), ("day".to_string(), 3)]
    );
    assert_eq!(
        plan.partition_by,
        Some(vec![
            PartitionField {
                source_id: 3,
                field_id: 1000,
                name: "day".to_string(),
                transform: Transform::Month
            },
            PartitionField {
                source_id: 1,
                field_id: 1001,
                name: "id".to_string(),
                transform: Transform::Bucket(4)
            },
        ])
    );
}

#[test]
fn a_table_without_partitions_is_planned_without() {
    let plan = table_plan(&offered(PEOPLE), &binding("test.people", None), None).unwrap();
    assert_eq!(plan.identifier.to_string(), "test.people");
    assert_eq!(plan.location, "/test/people");
    assert_eq!(plan.partition_by, None);
    let plan = table_plan(&offered(PEOPLE), &binding("a.b", Some(vec![])), None).unwrap();
    assert_eq!(plan.partition_by, Some(vec![]));
}

#[test]
fn a_table_plan_fails_in_the_order_of_its_steps() {
    let bad_partition = Some(vec![("missing", "no json")]);
    // The name comes first.
    assert!(matches!(
        table_plan(&offered(r#"{"type": "string"}"#), &binding("people", bad_partition.clone()), None),
        Err(SingerIcebergError::IcebergSpec(_))
    ));
    // Then the schema.
    assert!(matches!(
        table_plan(
            &offered(r#"{"type": "string"}"#),
            &binding("test.people", bad_partition.clone()),
            None
        ),
        Err(SingerIcebergError::NoSchema)
    ));
    // Then the partitions, column before transform.
    match table_plan(&offered(PEOPLE), &binding("test.people", bad_partition), None) {
        Err(SingerIcebergError::FieldNotFound(name)) => assert_eq!(name, "missing"),
        other => panic!("{:?}", other),
    }
    assert!(matches!(
        table_plan(&offered(PEOPLE), &binding("test.people", Some(vec![("id", "no json")])), None),
        Err(SingerIcebergError::Serde(_))
    ));
}
