use singer::catalog::Catalog as SingerCatalog;
use singer::messages::Message as SingerMessage;
use target_iceberg::catalog::Catalog;
use target_iceberg::json::Json;
use target_iceberg::messages::Message;

fn both(line: &str) -> (SingerMessage, Message) {
    let theirs: SingerMessage = serde_json::from_str(line).unwrap();
    let ours = Message::parse_line(line).unwrap().unwrap();
    (theirs, ours)
}

fn json_of(value: &serde_json::Value) -> Json {
    Json::parse(&serde_json::to_string(value).unwrap()).unwrap()
}

#[test]
fn records_are_read_as_the_singer_crate_reads_them() {
    let line = r#"{"type": "RECORD", "stream": "users", "record": {"id": 1, "name": "Chris", "tags": ["a", null], "score": 1.5}, "time_extracted": "2024-01-01T00:00:00Z"}"#;
    match both(line) {
        (SingerMessage::Record(theirs), Message::Record(ours)) => {
            assert_eq!(theirs.stream, ours.stream);
            assert_eq!(json_of(&theirs.record), ours.record);
        }
        other => panic!("{:?}", other),
    }
}

#[test]
fn versions_are_read_as_the_singer_crate_reads_them() {
    let line = r#"{"type": "ACTIVATE_VERSION", "stream": "users", "version": 1695106400957}"#;
    match both(line) {
        (SingerMessage::ActivateVersion(theirs), Message::ActivateVersion(ours)) => {
            assert_eq!(theirs.stream, ours.stream);
            assert_eq!(theirs.version, ours.version);
        }
        other => panic!("{:?}", other),
    }
    let line = r#"{"type": "ACTIVATE_VERSION", "stream": "users", "version": -9223372036854775808}"#;
    match both(line) {
        (SingerMessage::ActivateVersion(theirs), Message::ActivateVersion(ours)) => {
            assert_eq!(theirs.version, ours.version);
        }
        other => panic!("{:?}", other),
    }
}

#[test]
fn states_are_read_as_the_singer_crate_reads_them() {
    let line = r#"{"type": "STATE", "value": {"bookmarks": {"users": {"lsn": 5}}, "currently_syncing": null}}"#;
    match both(line) {
        (SingerMessage::State(theirs), Message::State(ours)) => {
            assert_eq!(json_of(&theirs.value), ours.value);
        }
        other => panic!("{:?}", other),
    }
}

#[test]
fn schemas_are_read_as_the_singer_crate_reads_them() {
    let line = r#"{"type": "SCHEMA", "stream": "users", "key_properties": ["id", "name"], "schema": {"type": "object", "properties": {"id": {"type": "integer"}}}}"#;
    match both(line) {
        (SingerMessage::Schema(theirs), Message::Schema(ours)) => {
            assert_eq!(theirs.stream, ours.stream);
            assert_eq!(Some(theirs.key_properties), ours.key_properties);
        }
        other => panic!("{:?}", other),
    }
}

#[test]
fn what_the_singer_crate_refuses_is_refused() {
    for line in [
        r#"{"type": "RECORD", "record": {}}"#,
        r#"{"type": "RECORD", "stream": "users"}"#,
        r#"{"type": "STATE"}"#,
        r#"{"type": "ACTIVATE_VERSION", "stream": "users", "version": 1.5}"#,
        r#"{"type": "ACTIVATE_VERSION", "stream": "users", "version": 9223372036854775808}"#,
        r#"{"type": "ACTIVATE_VERSION", "stream": "users"}"#,
        r#"{"type": "UNKNOWN"}"#,
        r#"{"stream": "users"}"#,
    ] {
        assert!(serde_json::from_str::<SingerMessage>(line).is_err(), "{}", line);
        assert!(Message::parse_line(line).is_err(), "{}", line);
    }
}

#[test]
fn catalogs_are_read_as_the_singer_crate_reads_them() {
    let text = r#"{"streams": [
        {"stream": "tools", "tap_stream_id": "inventory-tools", "table_name": "tools",
         "schema": {"type": "object", "properties": {"id": {"type": "string"}}},
         "metadata": [
            {"metadata": {"inclusion": "automatic"}, "breadcrumb": ["properties", "id"]},
            {"metadata": {"selected": false}, "breadcrumb": []}
         ]},
        {"stream": "bare", "tap_stream_id": "bare", "schema": {"type": "object", "properties": {}}}
    ]}"#;
    let theirs: SingerCatalog = serde_json::from_str(text).unwrap();
    let ours = Catalog::from_json(&Json::parse(text).unwrap()).unwrap();
    assert_eq!(theirs.streams.len(), ours.streams.len());
    for (theirs, ours) in theirs.streams.iter().zip(&ours.streams) {
        assert_eq!(theirs.stream, ours.stream);
        assert_eq!(theirs.tap_stream_id, ours.tap_stream_id);
        assert_eq!(theirs.table_name, ours.table_name);
        match (&theirs.metadata, &ours.metadata) {
            (None, None) => {}
            (Some(theirs), Some(ours)) => {
                assert_eq!(theirs.len(), ours.len());
                for (theirs, ours) in theirs.iter().zip(ours) {
                    assert_eq!(theirs.breadcrumb, ours.breadcrumb);
                    assert_eq!(json_of(&theirs.metadata), ours.metadata);
                }
            }
            other => panic!("{:?}", other),
        }
    }
}
