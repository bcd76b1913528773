use target_iceberg::error::SingerIcebergError;
use target_iceberg::ingest::{ingest, Channel, Demultiplexer, Ingested, Routing};
use target_iceberg::writer::{
    checked_batch, first_schema, stream_bookmark, Operation, PendingWriter, StreamWriter,
    ARROW_BATCH_SIZE,
};
use target_iceberg::json::Json;
use target_iceberg::messages::{ActivateVersion, Message, Record, Schema, State};
use target_iceberg::plugin::{BaseConfig, Replication, StreamConfig};
use target_iceberg::schema::{DataType, Field, TimeUnit};
use target_iceberg::table::{TableState, SINGER_BOOKMARK, SINGER_VERSION};

fn config(streams: &[(&str, &str)]) -> BaseConfig {
    BaseConfig {
        streams: streams
            .iter()
            .map(|(id, identifier)| {
                (
                    id.to_string(),
                    StreamConfig {
                        identifier: identifier.to_string(),
                        replication_method: Replication::FullTable,
                        partition_by: None,
                    },
                )
            })
            .collect(),
        bucket: None,
        branch: None,
    }
}

fn schema_message(stream: &str, schema: &str) -> Message {
    Message::Schema(Schema {
        stream: stream.to_string(),
        schema: Json::parse(schema).unwrap(),
        key_properties: None,
    })
}

fn record_message(stream: &str, record: &str) -> Message {
    Message::Record(Record { stream: stream.to_string(), record: Json::parse(record).unwrap() })
}

fn activate(stream: &str, version: i64) -> Message {
    Message::ActivateVersion(ActivateVersion { stream: stream.to_string(), version })
}

fn field(name: &str, data_type: DataType, nullable: bool) -> Field {
    Field { name: name.to_string(), data_type, nullable }
}

// The stream announces `born` as a plain string; the table holds it as a timestamp.
const PEOPLE: &str = r#"{"type":"object","properties":{"id":{"type":"integer"},"name":{"type":["null","string"]},"born":{"type":"string"}},"required":["id"]}"#;

fn people_table(version: Option<&str>) -> TableState {
    TableState {
        fields: vec![
            field("id", DataType::Int32, false),
            field("name", DataType::Utf8, true),
            field("born", DataType::Timestamp(TimeUnit::Microsecond), false),
        ],
        properties: match version {
            Some(v) => vec![
                ("owner".to_string(), "me".to_string()),
                (SINGER_VERSION.to_string(), v.to_string()),
            ],
            None => vec![],
        },
    }
}

fn people_writer(version: Option<&str>) -> StreamWriter {
    let config = config(&[("people", "public.test.people")]);
    let pending = PendingWriter::open(Some(schema_message("people", PEOPLE)), &config).unwrap();
    assert_eq!(pending.name(), "people");
    pending.attach(&people_table(version)).unwrap()
}

fn state(text: &str) -> Json {
    Json::parse(text).unwrap()
}

#[test]
fn route_forwards_messages_of_bound_streams() {
    let config = config(&[("orders", "public.inventory.orders")]);
    let mut reader = Demultiplexer::new();
    let message = schema_message("orders", "{}");
    let routed = reader.route(&config, message).unwrap();
    assert_eq!(routed, Routing::Forward { rotate: false, message: schema_message("orders", "{}") });
    let routed = reader.route(&config, record_message("orders", "{\"id\": 1}")).unwrap();
    assert_eq!(
        routed,
        Routing::Forward { rotate: false, message: record_message("orders", "{\"id\": 1}") }
    );
}

#[test]
fn route_refuses_streams_that_are_not_bound() {
    let config = config(&[("orders", "public.inventory.orders")]);
    let mut reader = Demultiplexer::new();
    for message in [
        schema_message("users", "{}"),
        record_message("users", "{}"),
        activate("users", 1),
    ] {
        match reader.route(&config, message) {
            Err(SingerIcebergError::StreamNotFound(name)) => assert_eq!(name, "users"),
            other => panic!("{:?}", other),
        }
    }
}

#[test]
fn route_puts_a_state_in_place_of_the_shared_one() {
    let config = config(&[]);
    let mut reader = Demultiplexer::new();
    let value = state(r#"{"bookmarks": {"orders": {"lsn": 1}}}"#);
    let message = Message::State(State { value: value.duplicate() });
    assert_eq!(reader.route(&config, message).unwrap(), Routing::ReplaceState(value));
}

#[test]
fn route_rotates_when_the_version_changes() {
    let config =
        config(&[("orders", "public.inventory.orders"), ("users", "public.inventory.users")]);
    let mut reader = Demultiplexer::new();
    let rotate = |routing: Routing| match routing {
        Routing::Forward { rotate, .. } => rotate,
        other => panic!("{:?}", other),
    };
    // The first version of a stream starts no new writer.
    assert!(!rotate(reader.route(&config, activate("orders", 1)).unwrap()));
    // Nor does the same version again.
    assert!(!rotate(reader.route(&config, activate("orders", 1)).unwrap()));
    // Another stream has its own memory.
    assert!(!rotate(reader.route(&config, activate("users", 2)).unwrap()));
    assert!(rotate(reader.route(&config, activate("orders", 2)).unwrap()));
    assert!(!rotate(reader.route(&config, activate("orders", 2)).unwrap()));
    assert!(rotate(reader.route(&config, activate("orders", 1)).unwrap()));
    assert!(rotate(reader.route(&config, activate("users", 3)).unwrap()));
    // Records never rotate.
    assert!(!rotate(reader.route(&config, record_message("orders", "{}")).unwrap()));
}

#[test]
fn a_writer_must_begin_with_a_schema() {
    let config = config(&[("people", "public.test.people")]);
    assert!(matches!(first_schema(None), Err(SingerIcebergError::Unknown)));
    assert!(matches!(PendingWriter::open(None, &config), Err(SingerIcebergError::Unknown)));
    assert!(matches!(
        PendingWriter::open(Some(record_message("people", "{}")), &config),
        Err(SingerIcebergError::NoSchema)
    ));
    assert!(matches!(
        PendingWriter::open(Some(activate("people", 1)), &config),
        Err(SingerIcebergError::NoSchema)
    ));
    assert!(matches!(
        PendingWriter::open(Some(Message::State(State { value: Json::Null })), &config),
        Err(SingerIcebergError::NoSchema)
    ));
}

#[test]
fn a_writer_needs_a_bound_stream_and_a_schema_that_compiles() {
    let config = config(&[("people", "public.test.people")]);
    match PendingWriter::open(Some(schema_message("users", PEOPLE)), &config) {
        Err(SingerIcebergError::StreamNotFound(name)) => assert_eq!(name, "users"),
        other => panic!("{:?}", other),
    }
    assert!(matches!(
        PendingWriter::open(Some(schema_message("people", r#"{"type": 5}"#)), &config),
        Err(SingerIcebergError::InvalidSchema)
    ));
}

#[test]
fn a_schema_with_references_is_checked_with_them_left_open() {
    let config = config(&[("people", "public.test.people")]);
    let schema = r##"{
        "type": "object",
        "definitions": {"id": {"type": "integer"}},
        "properties": {
            "id": {"$ref": "#/definitions/id"},
            "age": {"type": "integer"},
            "self": {"$ref": "#"},
            "tags": {"type": "array", "items": {"$ref": "#/definitions/id"}}
        },
        "required": ["age"]
    }"##;
    let pending = PendingWriter::open(Some(schema_message("people", schema)), &config).unwrap();
    let table = TableState { fields: vec![], properties: vec![] };
    let mut writer = pending.attach(&table).unwrap();
    // What stands behind a reference is not asked of a record.
    let open = r#"{"id": "seven", "age": 3, "self": [1], "tags": ["a", 2]}"#;
    assert_eq!(writer.accept(record_message("people", open)).unwrap(), None);
    // What stands beside it is.
    assert!(matches!(
        writer.accept(record_message("people", r#"{"id": 7, "age": "three"}"#)),
        Err(SingerIcebergError::SchemaValidation(Some(_)))
    ));
    let mut writer = PendingWriter::open(Some(schema_message("people", schema)), &config)
        .unwrap()
        .attach(&table)
        .unwrap();
    assert!(matches!(
        writer.accept(record_message("people", r#"{"id": 7, "tags": 5}"#)),
        Err(SingerIcebergError::SchemaValidation(Some(_)))
    ));
}

#[test]
fn a_schema_that_refers_to_itself_is_opened() {
    let config = config(&[("people", "public.test.people")]);
    let table = TableState { fields: vec![], properties: vec![] };
    for schema in [
        r##"{"$ref": "#"}"##,
        r##"{"$ref": "#", "type": "object"}"##,
        r##"{"type": "object", "properties": {"child": {"$ref": "#"}}}"##,
        r##"{"anyOf": [{"type": "object"}, {"items": {"$ref": "#"}}]}"##,
    ] {
        let pending = PendingWriter::open(Some(schema_message("people", schema)), &config);
        let pending = match pending {
            Ok(pending) => pending,
            other => panic!("{}: {:?}", schema, other),
        };
        // The announced schema decides the columns: only the third has an
        // object with properties at its root.
        match pending.attach(&table) {
            Ok(mut writer) => {
                assert!(schema.contains("properties"));
                assert_eq!(
                    writer.accept(record_message("people", r#"{"child": {"child": 1}}"#)).unwrap(),
                    None
                );
            }
            Err(SingerIcebergError::NoSchema) => assert!(!schema.contains("properties")),
            other => panic!("{}: {:?}", schema, other),
        }
    }
}

#[test]
fn a_writer_needs_a_schema_whose_root_is_an_object() {
    let config = config(&[("people", "public.test.people")]);
    let pending =
        PendingWriter::open(Some(schema_message("people", r#"{"type": "string"}"#)), &config)
            .unwrap();
    assert!(matches!(pending.attach(&people_table(None)), Err(SingerIcebergError::NoSchema)));
}

#[test]
fn a_writer_batches_under_the_intermediate_schema() {
    let writer = people_writer(None);
    assert_eq!(
        writer.batch_fields(),
        &vec![
            field("id", DataType::Int32, false),
            field("name", DataType::Utf8, true),
            field("born", DataType::Int64, false),
        ]
    );
}

#[test]
fn a_column_of_the_announced_type_is_not_converted() {
    let config = config(&[("people", "public.test.people")]);
    let schema = r#"{"type":"object","properties":{"id":{"type":"integer"},"born":{"type":"string","format":"date-time"}}}"#;
    let pending = PendingWriter::open(Some(schema_message("people", schema)), &config).unwrap();
    let mut writer = pending.attach(&people_table(None)).unwrap();
    assert_eq!(writer.batch_fields(), &people_table(None).fields);
    let record = r#"{"id": 1, "born": "1970-01-01T00:00:02Z"}"#;
    writer.accept(record_message("people", record)).unwrap();
    assert_eq!(writer.finish().unwrap(), vec![Json::parse(record).unwrap()]);
}

#[test]
fn records_are_checked_converted_and_buffered() {
    let mut writer = people_writer(None);
    let accepted = writer
        .accept(record_message(
            "people",
            r#"{"id": 1, "name": "Ann", "born": "1970-01-01T00:00:02Z"}"#,
        ))
        .unwrap();
    assert_eq!(accepted, None);
    assert_eq!(writer.accept(activate("people", 5)).unwrap(), None);
    assert_eq!(writer.accept(schema_message("people", PEOPLE)).unwrap(), None);
    assert_eq!(
        writer.accept(Message::State(State { value: Json::Null })).unwrap(),
        None
    );
    let accepted = writer.accept(record_message("people", r#"{"id": 2, "name": null, "born": "1970-01-01T00:00:00.5Z"}"#)).unwrap();
    assert_eq!(accepted, None);
    let last = writer.finish().unwrap();
    assert_eq!(
        last,
        vec![
            Json::parse(r#"{"id": 1, "name": "Ann", "born": 2000000}"#).unwrap(),
            Json::parse(r#"{"id": 2, "name": null, "born": 500000}"#).unwrap(),
        ]
    );
    assert_eq!(writer.finish(), None);
}

#[test]
fn a_record_that_breaks_the_schema_ends_the_writer() {
    let mut writer = people_writer(None);
    match writer.accept(record_message(
        "people",
        r#"{"id": "seven", "name": "Ann", "born": "1970-01-01T00:00:02Z"}"#,
    )) {
        Err(SingerIcebergError::SchemaValidation(Some(diagnostic))) => assert!(!diagnostic.is_empty()),
        other => panic!("{:?}", other),
    }
    let mut writer = people_writer(None);
    assert!(matches!(
        writer.accept(record_message("people", r#"{"name": "Ann"}"#)),
        Err(SingerIcebergError::SchemaValidation(Some(_)))
    ));
}

#[test]
fn a_field_that_cannot_be_converted_ends_the_writer() {
    let mut writer = people_writer(None);
    assert!(matches!(
        writer.accept(record_message("people", r#"{"id": 1, "born": "no time"}"#)),
        Err(SingerIcebergError::Chrono(_))
    ));
}

#[test]
fn a_full_batch_comes_back_at_once() {
    let mut writer = people_writer(None);
    let mut batches = 0;
    let mut rows = 0;
    for i in 0..(2 * ARROW_BATCH_SIZE + 100) {
        let record = format!(r#"{{"id": {}, "born": "1970-01-01T00:00:00Z"}}"#, i % 1000);
        match writer.accept(record_message("people", &record)).unwrap() {
            Some(batch) => {
                assert_eq!(batch.len(), ARROW_BATCH_SIZE);
                assert_eq!((i + 1) % ARROW_BATCH_SIZE, 0);
                batches += 1;
                rows += batch.len();
            }
            None => assert_ne!((i + 1) % ARROW_BATCH_SIZE, 0),
        }
    }
    assert_eq!(batches, 2);
    let last = writer.finish().unwrap();
    assert_eq!(last.len(), 100);
    assert_eq!(rows + last.len(), 2 * ARROW_BATCH_SIZE + 100);
    assert_eq!(ARROW_BATCH_SIZE, 8192);
}

#[test]
fn a_hundred_records_make_one_batch_of_a_hundred_rows() {
    let mut writer = people_writer(None);
    for i in 0..100 {
        let record = format!(r#"{{"id": {}, "name": "p", "born": "2000-01-01T00:00:00Z"}}"#, i);
        assert_eq!(writer.accept(record_message("people", &record)).unwrap(), None);
    }
    assert_eq!(writer.finish().unwrap().len(), 100);
}

#[test]
fn without_files_nothing_is_committed() {
    let mut writer = people_writer(Some("3"));
    writer.accept(activate("people", 3)).unwrap();
    assert_eq!(writer.finish(), None);
    // Not even the state is looked at.
    let plan = writer.plan_commit(Vec::<u8>::new(), &Json::Null).unwrap();
    assert!(plan.is_none());
}

#[test]
fn one_commit_carries_all_files() {
    let writer = people_writer(None);
    let plan = writer
        .plan_commit(vec!["a.parquet", "b.parquet", "c.parquet"], &state(r#"{"bookmarks": {}}"#))
        .unwrap()
        .unwrap();
    assert_eq!(plan.files, vec!["a.parquet", "b.parquet", "c.parquet"]);
}

#[test]
fn the_commit_appends_when_the_version_is_the_tables() {
    let state = state(r#"{"bookmarks": {}}"#);
    let mut writer = people_writer(Some("1703756002202"));
    writer.accept(activate("people", 1703756002202)).unwrap();
    let plan = writer.plan_commit(vec![1], &state).unwrap().unwrap();
    assert_eq!(plan.operation, Operation::Append);
    assert_eq!(
        plan.properties,
        vec![(SINGER_VERSION.to_string(), "1703756002202".to_string())]
    );
}

#[test]
fn the_commit_overwrites_when_the_version_is_another() {
    let state = state(r#"{"bookmarks": {}}"#);
    let mut writer = people_writer(Some("1703756002202"));
    writer.accept(activate("people", 1703756002235)).unwrap();
    let plan = writer.plan_commit(vec![1], &state).unwrap().unwrap();
    assert_eq!(plan.operation, Operation::Overwrite);
    assert_eq!(
        plan.properties,
        vec![(SINGER_VERSION.to_string(), "1703756002235".to_string())]
    );
    // The last version told counts.
    let mut writer = people_writer(Some("2"));
    writer.accept(activate("people", 1)).unwrap();
    writer.accept(activate("people", 2)).unwrap();
    assert_eq!(writer.plan_commit(vec![1], &state).unwrap().unwrap().operation, Operation::Append);
    // A table without a version is overwritten.
    let mut writer = people_writer(None);
    writer.accept(activate("people", 2)).unwrap();
    assert_eq!(
        writer.plan_commit(vec![1], &state).unwrap().unwrap().operation,
        Operation::Overwrite
    );
    // The versions are compared as texts.
    let mut writer = people_writer(Some("02"));
    writer.accept(activate("people", 2)).unwrap();
    assert_eq!(
        writer.plan_commit(vec![1], &state).unwrap().unwrap().operation,
        Operation::Overwrite
    );
}

#[test]
fn without_a_version_the_commit_sets_none() {
    let state = state(r#"{"bookmarks": {}}"#);
    let writer = people_writer(None);
    let plan = writer.plan_commit(vec![1], &state).unwrap().unwrap();
    assert_eq!(plan.operation, Operation::Overwrite);
    assert_eq!(plan.properties, vec![]);
    let writer = people_writer(Some("0"));
    let plan = writer.plan_commit(vec![1], &state).unwrap().unwrap();
    assert_eq!(plan.operation, Operation::Append);
    assert_eq!(plan.properties, vec![]);
}

#[test]
fn the_commit_sets_the_bookmark_of_the_stream() {
    let state = state(
        r#"{"bookmarks": {"people": {"last_replication_method":"LOG_BASED","lsn":37125976,"version":1703756002202,"xmin":null}, "other": {"lsn": 1}}}"#,
    );
    let mut writer = people_writer(None);
    writer.accept(activate("people", 1703756002202)).unwrap();
    let plan = writer.plan_commit(vec![1], &state).unwrap().unwrap();
    assert_eq!(
        plan.properties,
        vec![
            (
                SINGER_BOOKMARK.to_string(),
                r#"{"last_replication_method":"LOG_BASED","lsn":37125976,"version":1703756002202,"xmin":null}"#.to_string()
            ),
            (SINGER_VERSION.to_string(), "1703756002202".to_string()),
        ]
    );
}

#[test]
fn the_state_must_hold_an_object_of_bookmarks() {
    let writer = people_writer(None);
    for text in ["null", "{}", r#"{"bookmarks": 5}"#, r#"{"bookmarks": []}"#, "[]"] {
        assert!(matches!(
            writer.plan_commit(vec![1], &state(text)),
            Err(SingerIcebergError::StateNotObject)
        ));
    }
}

#[test]
fn stream_bookmark_gives_the_text_of_an_object() {
    let state = state(r#"{"bookmarks": {"a": {"x": 1}, "b": 5, "c": null}, "other": 1}"#);
    assert_eq!(stream_bookmark(&state, "a").unwrap(), Some(r#"{"x":1}"#.to_string()));
    assert_eq!(stream_bookmark(&state, "b").unwrap(), None);
    assert_eq!(stream_bookmark(&state, "c").unwrap(), None);
    assert_eq!(stream_bookmark(&state, "d").unwrap(), None);
    assert!(matches!(
        stream_bookmark(&Json::Null, "a"),
        Err(SingerIcebergError::StateNotObject)
    ));
}

fn lines(text: &[&str]) -> Vec<String> {
    text.iter().map(|line| line.to_string()).collect()
}

fn channel(stream: &str, messages: Vec<Message>) -> Channel {
    Channel { stream: stream.to_string(), messages }
}

#[test]
fn ingest_sorts_the_messages_into_the_channels_of_their_streams() {
    let config =
        config(&[("orders", "public.inventory.orders"), ("users", "public.inventory.users")]);
    let input = lines(&[
        "INFO starting",
        r#"{"type": "SCHEMA", "stream": "orders", "schema": {"type": "object"}}"#,
        r#"{"type": "SCHEMA", "stream": "users", "schema": {"type": "object"}}"#,
        r#"{"type": "ACTIVATE_VERSION", "stream": "orders", "version": 1}"#,
        r#"{"type": "RECORD", "stream": "orders", "record": {"id": 1}}"#,
        r#"{"type": "STATE", "value": {"bookmarks": {"orders": {"lsn": 1}}}}"#,
        "",
        r#"{"type": "RECORD", "stream": "users", "record": {"id": 7}}"#,
        r#"{"type": "RECORD", "stream": "orders", "record": {"id": 2}}"#,
        r#"{"type": "ACTIVATE_VERSION", "stream": "orders", "version": 1}"#,
        r#"{"type": "STATE", "value": {"bookmarks": {"orders": {"lsn": 2}}}}"#,
    ]);
    let ingested = ingest(&config, &input).unwrap();
    assert_eq!(
        ingested,
        Ingested {
            channels: vec![
                channel(
                    "orders",
                    vec![
                        schema_message("orders", r#"{"type": "object"}"#),
                        activate("orders", 1),
                        record_message("orders", r#"{"id": 1}"#),
                        record_message("orders", r#"{"id": 2}"#),
                        activate("orders", 1),
                    ]
                ),
                channel(
                    "users",
                    vec![
                        schema_message("users", r#"{"type": "object"}"#),
                        record_message("users", r#"{"id": 7}"#),
                    ]
                ),
            ],
            state: state(r#"{"bookmarks": {"orders": {"lsn": 2}}}"#),
        }
    );
}

#[test]
fn ingest_opens_a_channel_when_the_version_changes() {
    let config = config(&[("orders", "public.inventory.orders")]);
    let input = lines(&[
        r#"{"type": "SCHEMA", "stream": "orders", "schema": {}}"#,
        r#"{"type": "ACTIVATE_VERSION", "stream": "orders", "version": 1}"#,
        r#"{"type": "RECORD", "stream": "orders", "record": {"id": 1}}"#,
        r#"{"type": "ACTIVATE_VERSION", "stream": "orders", "version": 2}"#,
        r#"{"type": "SCHEMA", "stream": "orders", "schema": {}}"#,
        r#"{"type": "RECORD", "stream": "orders", "record": {"id": 2}}"#,
    ]);
    let ingested = ingest(&config, &input).unwrap();
    assert_eq!(
        ingested.channels,
        vec![
            channel(
                "orders",
                vec![
                    schema_message("orders", "{}"),
                    activate("orders", 1),
                    record_message("orders", r#"{"id": 1}"#),
                ]
            ),
            channel(
                "orders",
                vec![
                    activate("orders", 2),
                    schema_message("orders", "{}"),
                    record_message("orders", r#"{"id": 2}"#),
                ]
            ),
        ]
    );
    assert_eq!(ingested.state, Json::Null);
    // The writer of the new channel begins with no schema.
    let mut channels = ingested.channels;
    let second = channels.pop().unwrap();
    assert!(matches!(
        PendingWriter::open(second.messages.into_iter().next(), &config),
        Err(SingerIcebergError::NoSchema)
    ));
}

#[test]
fn ingest_of_no_input_leaves_every_stream_an_empty_channel() {
    let config =
        config(&[("orders", "public.inventory.orders"), ("users", "public.inventory.users")]);
    let ingested = ingest(&config, &Vec::new()).unwrap();
    assert_eq!(
        ingested,
        Ingested {
            channels: vec![channel("orders", vec![]), channel("users", vec![])],
            state: Json::Null
        }
    );
}

#[test]
fn ingest_ends_at_the_first_line_that_fails() {
    let config = config(&[("orders", "public.inventory.orders")]);
    let good = r#"{"type": "RECORD", "stream": "orders", "record": {}}"#;
    let input = lines(&[good, "{ not json", good]);
    assert!(matches!(ingest(&config, &input), Err(SingerIcebergError::Serde(_))));
    let input = lines(&[good, r#"{"type": "NOTHING"}"#, good]);
    assert!(matches!(ingest(&config, &input), Err(SingerIcebergError::Serde(_))));
    let input =
        lines(&[good, r#"{"type": "RECORD", "stream": "users", "record": {}}"#, "{ not json"]);
    match ingest(&config, &input) {
        Err(SingerIcebergError::StreamNotFound(name)) => assert_eq!(name, "users"),
        other => panic!("{:?}", other),
    }
}

#[test]
fn run_takes_a_whole_channel() {
    let mut writer = people_writer(None);
    let messages = vec![
        record_message("people", r#"{"id": 1, "born": "1970-01-01T00:00:01Z"}"#),
        activate("people", 4),
        schema_message("people", PEOPLE),
        record_message("people", r#"{"id": 2, "born": "1970-01-01T00:00:02Z"}"#),
        activate("people", 9),
    ];
    let batches = writer.run(messages).unwrap();
    assert_eq!(
        batches,
        vec![vec![
            Json::parse(r#"{"id": 1, "born": 1000000}"#).unwrap(),
            Json::parse(r#"{"id": 2, "born": 2000000}"#).unwrap(),
        ]]
    );
    // The version told last is the one committed under.
    let plan = writer.plan_commit(vec![1], &state(r#"{"bookmarks": {}}"#)).unwrap().unwrap();
    assert_eq!(plan.properties, vec![(SINGER_VERSION.to_string(), "9".to_string())]);
    assert_eq!(writer.finish(), None);
}

#[test]
fn run_of_an_empty_channel_gives_no_batch() {
    let mut writer = people_writer(None);
    assert_eq!(writer.run(vec![]).unwrap(), Vec::<Vec<Json>>::new());
    let mut writer = people_writer(None);
    assert_eq!(writer.run(vec![activate("people", 1)]).unwrap(), Vec::<Vec<Json>>::new());
}

#[test]
fn run_fills_every_batch_but_the_last() {
    let mut writer = people_writer(None);
    let messages: Vec<Message> = (0..ARROW_BATCH_SIZE + 3)
        .map(|i| record_message("people", &format!(r#"{{"id": {}}}"#, i % 100)))
        .collect();
    let batches = writer.run(messages).unwrap();
    let sizes: Vec<usize> = batches.iter().map(|batch| batch.len()).collect();
    assert_eq!(sizes, vec![ARROW_BATCH_SIZE, 3]);
    let mut writer = people_writer(None);
    let messages: Vec<Message> = (0..2 * ARROW_BATCH_SIZE)
        .map(|i| record_message("people", &format!(r#"{{"id": {}}}"#, i % 100)))
        .collect();
    let sizes: Vec<usize> = writer.run(messages).unwrap().iter().map(|b| b.len()).collect();
    assert_eq!(sizes, vec![ARROW_BATCH_SIZE, ARROW_BATCH_SIZE]);
}

#[test]
fn run_ends_at_the_first_record_that_is_rejected() {
    let good = r#"{"id": 1}"#;
    let mut writer = people_writer(None);
    let messages = vec![
        record_message("people", good),
        record_message("people", r#"{"id": "x"}"#),
        record_message("people", good),
    ];
    match writer.run(messages) {
        Err(SingerIcebergError::SchemaValidation(Some(diagnostic))) => {
            assert!(!diagnostic.is_empty())
        }
        other => panic!("{:?}", other),
    }
    let mut writer = people_writer(None);
    let messages = vec![
        record_message("people", r#"{"id": 1, "born": "soon"}"#),
        record_message("people", r#"{"id": "x"}"#),
    ];
    assert!(matches!(writer.run(messages), Err(SingerIcebergError::Chrono(_))));
    let mut writer = people_writer(None);
    let messages = vec![record_message("people", r#"{"id": 1, "born": 5}"#)];
    assert!(matches!(writer.run(messages), Err(SingerIcebergError::SchemaValidation(_))));
}

#[test]
fn a_decoder_that_gives_no_batch_has_failed() {
    assert_eq!(checked_batch(Some(5)).unwrap(), 5);
    assert!(matches!(checked_batch(None::<u8>), Err(SingerIcebergError::EmptyBatch)));
}
