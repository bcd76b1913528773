//! The catalog that a source offers: marking in it the streams that the
//! configuration binds, and planning the tables that they land in.

use crate::error::{shape_error, SingerIcebergError};
use crate::json::{
    entries_model, insert_entry, items_model, names_model, strings_in, strings_of, text_member,
    with_entry, Json, JsonModel,
};
use crate::plugin::{BaseConfig, Replication, StreamConfig};
use crate::schema::{
    fields_model, schema_of, schema_to_arrow, translation, Field, FieldModel, JsonSchema,
};
use crate::table::{
    base_location, columns_model, identifier_name, identifier_namespace, last_segments,
    location_of, names_table, partition_fields, partition_model, partition_plan, resolve_table,
    PartitionField, PartitionFieldModel, PlanFailure,
};
use vstd::prelude::*;

verus! {

/// What a catalog says of a stream or of one of its properties.
#[derive(Debug, PartialEq, Eq)]
pub struct Metadata {
    pub metadata: Json,
    /// The path of the property; empty for the stream itself.
    pub breadcrumb: Vec<String>,
}

/// One stream that a source offers.
#[derive(Debug, PartialEq, Eq)]
pub struct Stream {
    pub stream: String,
    pub tap_stream_id: String,
    /// The JSON Schema of the stream's records.
    pub schema: Json,
    pub table_name: Option<String>,
    pub metadata: Option<Vec<Metadata>>,
}

/// The streams that a source offers.
#[derive(Debug, PartialEq, Eq)]
pub struct Catalog {
    pub streams: Vec<Stream>,
}

/// The mathematical value of a [`Metadata`].
pub struct MetadataModel {
    pub metadata: JsonModel,
    pub breadcrumb: Seq<Seq<char>>,
}

/// The mathematical value of a [`Stream`].
pub struct StreamModel {
    pub stream: Seq<char>,
    pub tap_stream_id: Seq<char>,
    pub schema: JsonModel,
    pub table_name: Option<Seq<char>>,
    pub metadata: Option<Seq<MetadataModel>>,
}

impl View for Metadata {
    type V = MetadataModel;

    open spec fn view(&self) -> MetadataModel {
        MetadataModel { metadata: self.metadata@, breadcrumb: names_model(self.breadcrumb@) }
    }
}

/// The value of each of `entries`.
pub open spec fn metadata_model(entries: Seq<Metadata>) -> Seq<MetadataModel> {
    entries.map_values(|m: Metadata| m@)
}

impl View for Stream {
    type V = StreamModel;

    open spec fn view(&self) -> StreamModel {
        StreamModel {
            stream: self.stream@,
            tap_stream_id: self.tap_stream_id@,
            schema: self.schema@,
            table_name: match self.table_name {
                Some(name) => Some(name@),
                None => None,
            },
            metadata: match self.metadata {
                Some(entries) => Some(metadata_model(entries@)),
                None => None,
            },
        }
    }
}

/// The value of each of `streams`.
pub open spec fn streams_model(streams: Seq<Stream>) -> Seq<StreamModel> {
    streams.map_values(|s: Stream| s@)
}

impl View for Catalog {
    type V = Seq<StreamModel>;

    open spec fn view(&self) -> Seq<StreamModel> {
        streams_model(self.streams@)
    }
}

/// A marked document: `doc` with `selected` set and the replication method
/// named, where `doc` is an object. Any other document stays as it is.
pub open spec fn marked(doc: JsonModel, method: Replication) -> JsonModel {
    match doc {
        JsonModel::Object(entries) => JsonModel::Object(
            with_entry(
                with_entry(entries, "selected"@, JsonModel::Bool(true)),
                "replication-method"@,
                JsonModel::Str(method.spec_name()),
            ),
        ),
        other => other,
    }
}

/// The entry that marks a stream which had none for itself.
pub open spec fn root_entry(method: Replication) -> MetadataModel {
    MetadataModel {
        metadata: marked(JsonModel::Object(Seq::empty()), method),
        breadcrumb: Seq::empty(),
    }
}

/// The position of the first of `entries` whose breadcrumb is empty, or the
/// number of entries where none is.
pub open spec fn root_position(entries: Seq<MetadataModel>) -> int
    decreases entries.len(),
{
    if entries.len() == 0 {
        0
    } else if entries[0].breadcrumb.len() == 0 {
        0
    } else {
        1 + root_position(entries.drop_first())
    }
}

/// The metadata of a selected stream: the first entry for the stream itself
/// is marked; where there is none, one is added at the end.
pub open spec fn selected_metadata(metadata: Option<Seq<MetadataModel>>, method: Replication)
    -> Seq<MetadataModel> {
    match metadata {
        None => seq![root_entry(method)],
        Some(entries) => {
            let at = root_position(entries);
            if at < entries.len() {
                entries.update(
                    at,
                    MetadataModel {
                        metadata: marked(entries[at].metadata, method),
                        breadcrumb: entries[at].breadcrumb,
                    },
                )
            } else {
                entries.push(root_entry(method))
            }
        },
    }
}

/// A stream as the catalog holds it once it is selected.
pub open spec fn selected_stream(stream: StreamModel, method: Replication) -> StreamModel {
    StreamModel {
        stream: stream.stream,
        tap_stream_id: stream.tap_stream_id,
        schema: stream.schema,
        table_name: stream.table_name,
        metadata: Some(selected_metadata(stream.metadata, method)),
    }
}

/// The streams of a catalog that the configuration binds, each selected
/// with the replication method of its binding, in the order of the catalog.
pub open spec fn selection(streams: Seq<StreamModel>, config: &BaseConfig) -> Seq<StreamModel>
    decreases streams.len(),
{
    if streams.len() == 0 {
        Seq::empty()
    } else {
        let before = selection(streams.drop_last(), config);
        let stream = streams.last();
        if config.binds(stream.tap_stream_id) {
            before.push(
                selected_stream(stream, config.binding(stream.tap_stream_id).replication_method),
            )
        } else {
            before
        }
    }
}

/// Marks a document.
fn mark(doc: Json, method: Replication) -> (r: Json)
    ensures
        r@ == marked(doc@, method),
{
    match doc {
        Json::Object(entries) => {
            let mut entries = entries;
            insert_entry(&mut entries, "selected", Json::Bool(true));
            insert_entry(
                &mut entries,
                "replication-method",
                Json::Str(String::from_str(method.name())),
            );
            Json::Object(entries)
        },
        other => other,
    }
}

/// The entry that marks a stream which had none for itself.
fn new_root_entry(method: Replication) -> (r: Metadata)
    ensures
        r@ == root_entry(method),
{
    let empty: Vec<(String, Json)> = Vec::new();
    assert(entries_model(empty@) == Seq::<(Seq<char>, JsonModel)>::empty());
    let breadcrumb: Vec<String> = Vec::new();
    assert(names_model(breadcrumb@) == Seq::<Seq<char>>::empty());
    Metadata { metadata: mark(Json::Object(empty), method), breadcrumb }
}

/// The position of the first entry for the stream itself, if any.
fn find_root(entries: &Vec<Metadata>) -> (r: Option<usize>)
    ensures
        match r {
            Some(i) => i < entries@.len() && i == root_position(metadata_model(entries@)),
            None => root_position(metadata_model(entries@)) == entries@.len(),
        },
{
    let ghost model = metadata_model(entries@);
    let mut i: usize = 0;
    assert(model.skip(0) == model);
    while i < entries.len()
        invariant
            i <= entries@.len(),
            model == metadata_model(entries@),
            root_position(model) == i + root_position(model.skip(i as int)),
        decreases entries@.len() - i,
    {
        proof {
            assert(model.skip(i as int).drop_first() == model.skip(i + 1));
            assert(model.skip(i as int)[0] == model[i as int]);
        }
        if entries[i].breadcrumb.len() == 0 {
            return Some(i);
        }
        i += 1;
    }
    None
}

/// Selects one stream: marks it as selected and names how it is replicated.
pub fn select_stream(stream: Stream, method: Replication) -> (r: Stream)
    ensures
        r@ == selected_stream(stream@, method),
{
    let Stream { stream: name, tap_stream_id, schema, table_name, metadata } = stream;
    let metadata = match metadata {
        None => {
            let mut entries: Vec<Metadata> = Vec::new();
            entries.push(new_root_entry(method));
            assert(metadata_model(entries@) == seq![root_entry(method)]);
            entries
        },
        Some(entries) => {
            let mut entries = entries;
            let ghost before = metadata_model(entries@);
            match find_root(&entries) {
                Some(at) => {
                    let Metadata { metadata: doc, breadcrumb } = entries.remove(at);
                    let entry = Metadata { metadata: mark(doc, method), breadcrumb };
                    let ghost entry_model = entry@;
                    entries.insert(at, entry);
                    assert(metadata_model(entries@) == before.update(at as int, entry_model));
                },
                None => {
                    let entry = new_root_entry(method);
                    entries.push(entry);
                    assert(metadata_model(entries@) == before.push(root_entry(method)));
                },
            }
            entries
        },
    };
    Stream { stream: name, tap_stream_id, schema, table_name, metadata: Some(metadata) }
}

/// Selects the streams of a catalog that the configuration binds. The
/// other streams leave the catalog.
pub fn select_streams(catalog: Catalog, config: &BaseConfig) -> (r: Catalog)
    ensures
        r@ == selection(catalog@, config),
{
    let ghost all = catalog@;
    let streams = catalog.streams;
    let ghost offered = streams@;
    let mut selected: Vec<Stream> = Vec::new();
    assert(streams_model(selected@) == Seq::<StreamModel>::empty());
    for stream in it: streams.into_iter()
        invariant
            it.seq() == offered,
            all == streams_model(offered),
            streams_model(selected@) == selection(all.take(it.index() as int), config),
    {
        let ghost n = it.index() as int;
        let ghost before = streams_model(selected@);
        proof {
            assert(all.take(n + 1).drop_last() == all.take(n));
            assert(all.take(n + 1).last() == stream@);
        }
        let bound = match config.stream(stream.tap_stream_id.as_str()) {
            Some(binding) => Some(binding.replication_method),
            None => None,
        };
        match bound {
            Some(method) => {
                let chosen = select_stream(stream, method);
                proof {
                    assert(streams_model(selected@.push(chosen)) == before.push(chosen@));
                }
                selected.push(chosen);
            },
            None => {},
        }
    }
    proof {
        assert(all.take(offered.len() as int) == all);
    }
    Catalog { streams: selected }
}

/// The entry of metadata that a JSON document holds: an object with
/// `metadata` and with the strings of `breadcrumb`.
pub open spec fn metadata_of(doc: JsonModel) -> Option<MetadataModel> {
    if doc.has("metadata"@) && doc.has("breadcrumb"@) {
        match strings_of(doc.member("breadcrumb"@)) {
            Some(breadcrumb) => Some(
                MetadataModel { metadata: doc.member("metadata"@), breadcrumb },
            ),
            None => None,
        }
    } else {
        None
    }
}

/// The entries of metadata that the items of an array hold, where each holds one.
pub open spec fn metadata_list_of(items: Seq<JsonModel>) -> Option<Seq<MetadataModel>> {
    if forall|i: int| 0 <= i < items.len() ==> metadata_of(#[trigger] items[i]) is Some {
        Some(Seq::new(items.len(), |i: int| metadata_of(items[i])->0))
    } else {
        None
    }
}

/// What a stream holds under `metadata`: nothing (`Some(None)`) where the
/// key is absent or holds null, the entries where it holds an array of
/// them, and no reading (`None`) for anything else.
pub open spec fn optional_metadata(doc: JsonModel) -> Option<Option<Seq<MetadataModel>>> {
    if !doc.has("metadata"@) || doc.member("metadata"@) is Null {
        Some(None)
    } else {
        match doc.member("metadata"@) {
            JsonModel::Array(items) => match metadata_list_of(items) {
                Some(entries) => Some(Some(entries)),
                None => None,
            },
            _ => None,
        }
    }
}

/// The stream that a JSON document holds: an object with the strings
/// `stream` and `tap_stream_id` and the object `schema`, which may hold a
/// `table_name` and `metadata`. Other keys are ignored.
pub open spec fn stream_of(doc: JsonModel) -> Option<StreamModel> {
    if doc.has("schema"@) && doc.member("schema"@) is Object {
        match (
            text_member(doc, "stream"@),
            text_member(doc, "tap_stream_id"@),
            crate::json::optional_text(doc, "table_name"@),
            optional_metadata(doc),
        ) {
            (Some(stream), Some(tap_stream_id), Some(table_name), Some(metadata)) => Some(
                StreamModel {
                    stream,
                    tap_stream_id,
                    schema: doc.member("schema"@),
                    table_name,
                    metadata,
                },
            ),
            _ => None,
        }
    } else {
        None
    }
}

/// The streams that the items of an array hold, where each holds one.
pub open spec fn streams_of(items: Seq<JsonModel>) -> Option<Seq<StreamModel>> {
    if forall|i: int| 0 <= i < items.len() ==> stream_of(#[trigger] items[i]) is Some {
        Some(Seq::new(items.len(), |i: int| stream_of(items[i])->0))
    } else {
        None
    }
}

/// The catalog that a JSON document holds: an object with the array `streams`.
pub open spec fn catalog_of(doc: JsonModel) -> Option<Seq<StreamModel>> {
    if doc.has("streams"@) {
        match doc.member("streams"@) {
            JsonModel::Array(items) => streams_of(items),
            _ => None,
        }
    } else {
        None
    }
}

/// The strings `names` as JSON.
pub open spec fn names_json(names: Seq<Seq<char>>) -> JsonModel {
    JsonModel::Array(names.map_values(|name: Seq<char>| JsonModel::Str(name)))
}

/// An entry of metadata as JSON.
pub open spec fn metadata_json(entry: MetadataModel) -> JsonModel {
    JsonModel::Object(
        seq![("metadata"@, entry.metadata), ("breadcrumb"@, names_json(entry.breadcrumb))],
    )
}

/// A stream as JSON: `table_name` and `metadata` are left out where the
/// stream has none.
pub open spec fn stream_json(stream: StreamModel) -> JsonModel {
    let required = seq![
        ("stream"@, JsonModel::Str(stream.stream)),
        ("tap_stream_id"@, JsonModel::Str(stream.tap_stream_id)),
        ("schema"@, stream.schema),
    ];
    let named = match stream.table_name {
        Some(name) => required.push(("table_name"@, JsonModel::Str(name))),
        None => required,
    };
    JsonModel::Object(
        match stream.metadata {
            Some(entries) => named.push(
                (
                    "metadata"@,
                    JsonModel::Array(entries.map_values(|m: MetadataModel| metadata_json(m))),
                ),
            ),
            None => named,
        },
    )
}

/// A catalog as JSON.
pub open spec fn catalog_json(streams: Seq<StreamModel>) -> JsonModel {
    JsonModel::Object(
        seq![("streams"@, JsonModel::Array(streams.map_values(|s: StreamModel| stream_json(s))))],
    )
}

impl Metadata {
    /// Reads the entry of metadata that a JSON document holds.
    pub fn from_json(doc: &Json) -> (r: Option<Metadata>)
        ensures
            match r {
                Some(entry) => metadata_of(doc@) == Some(entry@),
                None => metadata_of(doc@) is None,
            },
    {
        match (doc.get("metadata"), doc.get("breadcrumb")) {
            (Some(metadata), Some(breadcrumb)) => match strings_in(breadcrumb) {
                Some(breadcrumb) => Some(Metadata { metadata: metadata.duplicate(), breadcrumb }),
                None => None,
            },
            _ => None,
        }
    }

    /// Writes the entry as JSON.
    pub fn to_json(&self) -> (r: Json)
        ensures
            r@ == metadata_json(self@),
    {
        let mut names: Vec<Json> = Vec::new();
        let mut i: usize = 0;
        while i < self.breadcrumb.len()
            invariant
                i <= self.breadcrumb@.len(),
                names@.len() == i,
                forall|k: int| 0 <= k < i ==> names@[k]@ == JsonModel::Str(self.breadcrumb@[k]@),
            decreases self.breadcrumb@.len() - i,
        {
            names.push(Json::Str(self.breadcrumb[i].clone()));
            i += 1;
        }
        let mut entries: Vec<(String, Json)> = Vec::new();
        entries.push((String::from_str("metadata"), self.metadata.duplicate()));
        entries.push((String::from_str("breadcrumb"), Json::Array(names)));
        proof {
            assert(items_model(names@) == names_model(self.breadcrumb@).map_values(
                |name: Seq<char>| JsonModel::Str(name),
            ));
            assert(entries_model(entries@) == seq![
                ("metadata"@, self.metadata@),
                ("breadcrumb"@, names_json(names_model(self.breadcrumb@))),
            ]);
        }
        Json::Object(entries)
    }
}

fn read_metadata(doc: &Json) -> (r: Result<Option<Vec<Metadata>>, ()>)
    ensures
        match r {
            Ok(Some(entries)) => optional_metadata(doc@) == Some(Some(metadata_model(entries@))),
            Ok(None) => optional_metadata(doc@) == Some(None::<Seq<MetadataModel>>),
            Err(_) => optional_metadata(doc@) is None,
        },
{
    match doc.get("metadata") {
        None => Ok(None),
        Some(Json::Null) => Ok(None),
        Some(Json::Array(items)) => {
            let ghost model = items_model(items@);
            let mut entries: Vec<Metadata> = Vec::new();
            let mut i: usize = 0;
            while i < items.len()
                invariant
                    i <= items@.len(),
                    entries@.len() == i,
                    model == items_model(items@),
                    doc@.has("metadata"@),
                    doc@.member("metadata"@) == JsonModel::Array(model),
                    forall|k: int| 0 <= k < i ==> metadata_of(model[k]) == Some(entries@[k]@),
                decreases items@.len() - i,
            {
                assert(model[i as int] == items@[i as int]@);
                match Metadata::from_json(&items[i]) {
                    Some(entry) => {
                        entries.push(entry);
                    },
                    None => {
                        assert(metadata_of(model[i as int]) is None);
                        return Err(());
                    },
                }
                i += 1;
            }
            proof {
                assert(metadata_list_of(model) is Some);
                assert(metadata_model(entries@) == metadata_list_of(model)->0);
            }
            Ok(Some(entries))
        },
        Some(_) => Err(()),
    }
}

impl Stream {
    /// Reads the stream that a JSON document holds.
    pub fn from_json(doc: &Json) -> (r: Option<Stream>)
        ensures
            match r {
                Some(stream) => stream_of(doc@) == Some(stream@),
                None => stream_of(doc@) is None,
            },
    {
        let schema = match doc.get("schema") {
            Some(Json::Object(_)) => doc.get("schema").unwrap().duplicate(),
            _ => {
                return None;
            },
        };
        let stream = doc.text("stream");
        let tap_stream_id = doc.text("tap_stream_id");
        let table_name = doc.optional_text("table_name");
        let metadata = read_metadata(doc);
        match (stream, tap_stream_id, table_name, metadata) {
            (Some(stream), Some(tap_stream_id), Ok(table_name), Ok(metadata)) => Some(
                Stream {
                    stream: String::from_str(stream),
                    tap_stream_id: String::from_str(tap_stream_id),
                    schema,
                    table_name,
                    metadata,
                },
            ),
            _ => None,
        }
    }

    /// Writes the stream as JSON.
    pub fn to_json(&self) -> (r: Json)
        ensures
            r@ == stream_json(self@),
    {
        let mut entries: Vec<(String, Json)> = Vec::new();
        entries.push((String::from_str("stream"), Json::Str(self.stream.clone())));
        entries.push((String::from_str("tap_stream_id"), Json::Str(self.tap_stream_id.clone())));
        entries.push((String::from_str("schema"), self.schema.duplicate()));
        let ghost required = seq![
            ("stream"@, JsonModel::Str(self.stream@)),
            ("tap_stream_id"@, JsonModel::Str(self.tap_stream_id@)),
            ("schema"@, self.schema@),
        ];
        assert(entries_model(entries@) == required);
        match &self.table_name {
            Some(name) => {
                entries.push((String::from_str("table_name"), Json::Str(name.clone())));
                assert(entries_model(entries@) == required.push(
                    ("table_name"@, JsonModel::Str(name@)),
                ));
            },
            None => {},
        }
        let ghost named = entries_model(entries@);
        match &self.metadata {
            Some(list) => {
                let mut items: Vec<Json> = Vec::new();
                let mut i: usize = 0;
                while i < list.len()
                    invariant
                        i <= list@.len(),
                        items@.len() == i,
                        forall|k: int| 0 <= k < i ==> items@[k]@ == metadata_json(list@[k]@),
                    decreases list@.len() - i,
                {
                    items.push(list[i].to_json());
                    i += 1;
                }
                proof {
                    assert(items_model(items@) == metadata_model(list@).map_values(
                        |m: MetadataModel| metadata_json(m),
                    ));
                }
                let ghost array = Json::Array(items)@;
                entries.push((String::from_str("metadata"), Json::Array(items)));
                assert(entries_model(entries@) == named.push(("metadata"@, array)));
            },
            None => {},
        }
        Json::Object(entries)
    }
}

impl Catalog {
    /// Reads the catalog that a JSON document holds.
    pub fn from_json(doc: &Json) -> (r: Result<Catalog, SingerIcebergError>)
        ensures
            match r {
                Ok(catalog) => catalog_of(doc@) == Some(catalog@),
                Err(e) => catalog_of(doc@) is None && e is Serde,
            },
    {
        let items = match doc.get("streams") {
            Some(Json::Array(items)) => items,
            _ => {
                return Err(SingerIcebergError::Serde(shape_error("the document is no catalog of streams")));
            },
        };
        let ghost model = items_model(items@);
        let mut streams: Vec<Stream> = Vec::new();
        let mut i: usize = 0;
        while i < items.len()
            invariant
                i <= items@.len(),
                streams@.len() == i,
                model == items_model(items@),
                doc@.has("streams"@),
                doc@.member("streams"@) == JsonModel::Array(model),
                forall|k: int| 0 <= k < i ==> stream_of(model[k]) == Some(streams@[k]@),
            decreases items@.len() - i,
        {
            assert(model[i as int] == items@[i as int]@);
            match Stream::from_json(&items[i]) {
                Some(stream) => {
                    streams.push(stream);
                },
                None => {
                    assert(stream_of(model[i as int]) is None);
                    return Err(SingerIcebergError::Serde(shape_error("the document is no catalog of streams")));
                },
            }
            i += 1;
        }
        proof {
            assert(streams_of(model) is Some);
            assert(streams_model(streams@) == streams_of(model)->0);
        }
        Ok(Catalog { streams })
    }

    /// Writes the catalog as JSON.
    pub fn to_json(&self) -> (r: Json)
        ensures
            r@ == catalog_json(self@),
    {
        let mut items: Vec<Json> = Vec::new();
        let mut i: usize = 0;
        while i < self.streams.len()
            invariant
                i <= self.streams@.len(),
                items@.len() == i,
                forall|k: int| 0 <= k < i ==> items@[k]@ == stream_json(self.streams@[k]@),
            decreases self.streams@.len() - i,
        {
            items.push(self.streams[i].to_json());
            i += 1;
        }
        proof {
            assert(items_model(items@) == streams_model(self.streams@).map_values(
                |s: StreamModel| stream_json(s),
            ));
        }
        let ghost array = Json::Array(items)@;
        let mut entries: Vec<(String, Json)> = Vec::new();
        entries.push((String::from_str("streams"), Json::Array(items)));
        assert(entries_model(entries@) == seq![("streams"@, array)]);
        Json::Object(entries)
    }
}

/// What a new table is made of.
#[derive(Debug, PartialEq, Eq)]
pub struct TablePlan {
    /// The namespace and the name of the table.
    pub identifier: iceberg_rust_spec::identifier::Identifier,
    /// Where the table is placed.
    pub location: String,
    /// The columns of the table, in their order.
    pub fields: Vec<Field>,
    /// The name and the id of each column, in the same order.
    pub columns: Vec<(String, i32)>,
    /// How the table is partitioned, where it is.
    pub partition_by: Option<Vec<PartitionField>>,
}

/// The name of each column with its id: the columns are numbered from 1.
pub open spec fn numbered(fields: Seq<FieldModel>) -> Seq<(Seq<char>, i32)> {
    Seq::new(fields.len(), |i: int| (fields[i].name, (i + 1) as i32))
}

/// How many columns, and how many columns to partition by, a table can
/// have: their ids are 32-bit numbers.
pub open spec fn numbers_fit(
    fields: Seq<FieldModel>,
    partition_by: Option<Seq<(Seq<char>, Seq<char>)>>,
) -> bool {
    &&& fields.len() <= i32::MAX
    &&& partition_by is Some ==> partition_by->0.len() <= i32::MAX - 1000
}

/// Plans the table that a stream lands in.
///
/// The table is named by the last two segments of the binding's
/// identifier and placed under the bucket. Its columns are those that the
/// schema of the stream translates to, numbered from 1. Where the binding
/// asks for partitions, the table is partitioned by those columns.
pub fn table_plan(stream: &Stream, binding: &StreamConfig, bucket: Option<&str>) -> (r: Result<
    TablePlan,
    SingerIcebergError,
>)
    ensures
        ({
            let partition_by = binding@.partition_by;
            if !names_table(binding.identifier@) {
                r matches Err(e) && e is IcebergSpec
            } else {
                match translation(schema_of(stream.schema@)) {
                    None => r matches Err(e) && e is NoSchema,
                    Some(fields) => if !numbers_fit(fields, partition_by) {
                        r matches Err(e) && e is Unknown
                    } else {
                        match partition_by {
                            None => planned_table(r, binding.identifier@, bucket, fields)
                                && r->Ok_0.partition_by is None,
                            Some(wanted) => match partition_plan(wanted, numbered(fields)) {
                                Err(PlanFailure::MissingColumn(column)) => r matches Err(
                                    SingerIcebergError::FieldNotFound(name),
                                ) && name@ == column,
                                Err(PlanFailure::BadTransform) => r matches Err(e) && e is Serde,
                                Ok(partitions) => planned_table(
                                    r,
                                    binding.identifier@,
                                    bucket,
                                    fields,
                                ) && r->Ok_0.partition_by is Some && partition_model(
                                    r->Ok_0.partition_by->0@,
                                ) == partitions,
                            },
                        }
                    },
                }
            }
        }),
{
    let identifier = resolve_table(binding.identifier.as_str())?;
    let fields = schema_to_arrow(&JsonSchema::from_json(&stream.schema))?;
    if fields.len() > 2147483647 {
        return Err(SingerIcebergError::Unknown);
    }
    let ghost model = fields_model(fields@);
    let mut columns: Vec<(String, i32)> = Vec::new();
    let mut i: usize = 0;
    while i < fields.len()
        invariant
            i <= fields@.len() <= i32::MAX,
            model == fields_model(fields@),
            columns_model(columns@) == numbered(model).take(i as int),
        decreases fields@.len() - i,
    {
        let column = (fields[i].name.clone(), (i as i32) + 1);
        proof {
            assert(model[i as int] == fields@[i as int]@);
            assert(numbered(model).take(i + 1) == numbered(model).take(i as int).push(
                (column.0@, column.1),
            ));
            assert(columns_model(columns@.push(column)) == columns_model(columns@).push(
                (column.0@, column.1),
            ));
        }
        columns.push(column);
        i += 1;
    }
    proof {
        assert(numbered(model).take(i as int) == numbered(model));
    }
    let partition_by = match &binding.partition_by {
        Some(wanted) => {
            if wanted.len() > 2147482647 {
                return Err(SingerIcebergError::Unknown);
            }
            Some(partition_fields(wanted, &columns)?)
        },
        None => None,
    };
    let location = base_location(bucket, binding.identifier.as_str());
    Ok(TablePlan { identifier, location, fields, columns, partition_by })
}

/// Whether `r` is the plan of a table for the binding `identifier` under
/// `bucket` with the columns `fields`, whatever its partitions.
pub open spec fn planned_table(
    r: Result<TablePlan, SingerIcebergError>,
    identifier: Seq<char>,
    bucket: Option<&str>,
    fields: Seq<FieldModel>,
) -> bool {
    &&& r matches Ok(plan)
    &&& identifier_namespace(plan.identifier) == seq![last_segments(identifier)[0]]
    &&& identifier_name(plan.identifier) == last_segments(identifier)[1]
    &&& plan.location@ == location_of(
        match bucket {
            Some(text) => Some(text@),
            None => None,
        },
        identifier,
    )
    &&& fields_model(plan.fields@) == fields
    &&& columns_model(plan.columns@) == numbered(fields)
}

} // verus!
