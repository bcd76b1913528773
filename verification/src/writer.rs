//! The writer of one channel: what it does with the messages of its stream,
//! and what it commits.
//!
//! Loading the table, writing files and committing to the catalog are the
//! caller's part. The caller opens a [`PendingWriter`] with the first message
//! of the channel, attaches the table, hands the later messages to
//! [`StreamWriter::run`] (or one by one to [`StreamWriter::accept`]), writes
//! the batches that come back, and commits what
//! [`StreamWriter::plan_commit`] plans.

use crate::error::SingerIcebergError;
use crate::json::{items_model, json_text, Json, JsonModel};
use crate::messages::{Message, MessageModel, Schema};
use crate::plugin::BaseConfig;
use crate::reconcile::{
    conversions_model, intermediate, intermediate_schema, reconcile_record, reconciled,
    reconciliation, reconciliation_map, Refusal,
};
use crate::schema::{
    fields_model, schema_of, schema_to_arrow, translation, DataType, Field, FieldModel, JsonSchema,
};
use crate::table::{
    find_property, pairs_model, property, TableState, SINGER_BOOKMARK, SINGER_VERSION,
};
use crate::text::{decimal_string, decimal_text, key_position, str_eq};
use crate::validator::{opened, record_conforms, schema_compiles, Validator};
use vstd::prelude::*;

verus! {

/// How many records make one batch.
pub const ARROW_BATCH_SIZE: usize = 8192;

/// A writer must begin with the schema of its stream: the first message of
/// its channel, which must be there and must be a schema.
pub fn first_schema(first: Option<Message>) -> (r: Result<Schema, SingerIcebergError>)
    ensures
        match first {
            None => r matches Err(e) && e is Unknown,
            Some(Message::Schema(schema)) => r == Ok::<Schema, SingerIcebergError>(schema),
            Some(_) => r matches Err(e) && e is NoSchema,
        },
{
    match first {
        None => Err(SingerIcebergError::Unknown),
        Some(Message::Schema(schema)) => Ok(schema),
        Some(_) => Err(SingerIcebergError::NoSchema),
    }
}

/// Whether a state holds an object of bookmarks.
pub open spec fn has_bookmarks(state: JsonModel) -> bool {
    state.has("bookmarks"@) && state.member("bookmarks"@) is Object
}

/// The bookmark of `stream` in a state that holds bookmarks: the JSON text
/// of the object under the stream's name, if there is one.
pub open spec fn bookmark_of(state: JsonModel, stream: Seq<char>) -> Option<Seq<char>> {
    let bookmarks = state.member("bookmarks"@);
    if bookmarks.has(stream) && bookmarks.member(stream) is Object {
        json_text(bookmarks.member(stream))
    } else {
        None
    }
}

/// The bookmark of `stream` as a commit records it. The state must hold an
/// object of bookmarks; a stream without an object there has no bookmark.
pub fn stream_bookmark(state: &Json, stream: &str) -> (r: Result<
    Option<String>,
    SingerIcebergError,
>)
    ensures
        match r {
            Ok(Some(text)) => has_bookmarks(state@) && bookmark_of(state@, stream@) == Some(text@),
            Ok(None) => has_bookmarks(state@) && bookmark_of(state@, stream@) is None,
            Err(e) => !has_bookmarks(state@) && e is StateNotObject,
        },
{
    let bookmarks = match state.get("bookmarks") {
        Some(bookmarks) => bookmarks,
        None => {
            return Err(SingerIcebergError::StateNotObject);
        },
    };
    match bookmarks {
        Json::Object(_) => match bookmarks.get(stream) {
            Some(bookmark) => match bookmark {
                Json::Object(_) => Ok(bookmark.to_text()),
                _ => Ok(None),
            },
            None => Ok(None),
        },
        _ => Err(SingerIcebergError::StateNotObject),
    }
}

/// A batch of records as the decoder gave it: a decoder that gave none
/// has failed.
pub fn checked_batch<T>(decoded: Option<T>) -> (r: Result<T, SingerIcebergError>)
    ensures
        match decoded {
            Some(batch) => r == Ok::<T, SingerIcebergError>(batch),
            None => r matches Err(e) && e is EmptyBatch,
        },
{
    match decoded {
        Some(batch) => Ok(batch),
        None => Err(SingerIcebergError::EmptyBatch),
    }
}

/// How a commit adds files to a table.
#[derive(Clone, Copy, Debug, PartialEq, Eq, Structural)]
pub enum Operation {
    /// The files are added to those of the table.
    Append,
    /// The files take the place of those of the table.
    Overwrite,
}

/// The one commit of a writer.
#[derive(Debug)]
pub struct Commit<T> {
    pub operation: Operation,
    /// All files that the writer produced.
    pub files: Vec<T>,
    /// The table properties to set, in this order.
    pub properties: Vec<(String, String)>,
}

/// How a writer commits: it appends where the table's stored version is the
/// decimal form of the version the writer was last told to activate, and
/// overwrites otherwise.
pub open spec fn operation_for(previous_version: Option<Seq<char>>, active_version: i64)
    -> Operation {
    if previous_version == Some(decimal_text(active_version as int)) {
        Operation::Append
    } else {
        Operation::Overwrite
    }
}

/// The properties that a commit sets: the bookmark where there is one, then
/// the active version where it is not 0.
pub open spec fn commit_properties(bookmark: Option<Seq<char>>, active_version: i64) -> Seq<
    (Seq<char>, Seq<char>),
> {
    let first = match bookmark {
        Some(text) => seq![(SINGER_BOOKMARK@, text)],
        None => Seq::empty(),
    };
    if active_version != 0 {
        first.push((SINGER_VERSION@, decimal_text(active_version as int)))
    } else {
        first
    }
}

/// What a commit does to its table, apart from the files it carries.
pub struct Plan {
    pub operation: Operation,
    pub properties: Seq<(Seq<char>, Seq<char>)>,
}

/// The commit of a writer of `stream` that has written `files` files, for a
/// table that held `previous_version`, under the version `active_version`
/// and with the state `state`: none without files; with files, one that
/// needs an object of bookmarks in the state.
pub open spec fn planned(
    previous_version: Option<Seq<char>>,
    active_version: i64,
    state: JsonModel,
    stream: Seq<char>,
    files: nat,
) -> Result<Option<Plan>, ()> {
    if files == 0 {
        Ok(None)
    } else if !has_bookmarks(state) {
        Err(())
    } else {
        Ok(
            Some(
                Plan {
                    operation: operation_for(previous_version, active_version),
                    properties: commit_properties(bookmark_of(state, stream), active_version),
                },
            ),
        )
    }
}

/// The commit of one writer of a load.
///
/// The writer of a channel commits under the version that its channel
/// activated last, 0 where it activated none, and with the last state of
/// the input. Without files it commits nothing, whatever the state holds.
/// With files it commits once: it appends exactly where the table held the
/// decimal form of that version, it sets the bookmark to the text of the
/// stream's own entry in that state, and the version unless that is 0.
pub proof fn lemma_commit_of_a_load(
    streams: Seq<Seq<char>>,
    messages: Seq<MessageModel>,
    at: int,
    previous_version: Option<Seq<char>>,
    files: nat,
)
    requires
        0 <= at < crate::ingest::channels_after(streams, messages).len(),
    ensures
        ({
            let channel = crate::ingest::channels_after(streams, messages)[at];
            let version = activated(0, channel.messages);
            let state = crate::ingest::state_after(messages);
            let commit = planned(previous_version, version, state, channel.stream, files);
            &&& files == 0 ==> commit == Ok::<Option<Plan>, ()>(None)
            &&& files > 0 && !has_bookmarks(state) ==> commit is Err
            &&& files > 0 && has_bookmarks(state) ==> {
                &&& commit is Ok
                &&& commit->Ok_0 is Some
                &&& (commit->Ok_0->0.operation == Operation::Append) == (previous_version == Some(
                    decimal_text(version as int),
                ))
                &&& commit->Ok_0->0.operation != Operation::Append ==> commit->Ok_0->0.operation
                    == Operation::Overwrite
                &&& property(commit->Ok_0->0.properties, SINGER_BOOKMARK@) == bookmark_of(
                    state,
                    channel.stream,
                )
                &&& property(commit->Ok_0->0.properties, SINGER_VERSION@) == if version != 0 {
                    Some(decimal_text(version as int))
                } else {
                    None
                }
            }
        }),
{
    let channel = crate::ingest::channels_after(streams, messages)[at];
    let version = activated(0, channel.messages);
    let state = crate::ingest::state_after(messages);
    lemma_commit_properties(bookmark_of(state, channel.stream), version);
}

/// A commit appends exactly where the version that the writer was last told
/// to activate is the one whose decimal form the table holds; it overwrites
/// a table that holds another version or none.
pub proof fn lemma_version_mode(stored: i64, active: i64)
    ensures
        operation_for(Some(decimal_text(stored as int)), active) == if stored == active {
            Operation::Append
        } else {
            Operation::Overwrite
        },
        operation_for(None, active) == Operation::Overwrite,
{
    if decimal_text(stored as int) == decimal_text(active as int) {
        crate::text::lemma_decimal_text_injective(stored as int, active as int);
    }
}

/// A commit of a stream with a bookmark sets the table's bookmark to it,
/// and a commit under a version other than 0 sets the table's version to
/// the decimal form of that version.
pub proof fn lemma_commit_properties(bookmark: Option<Seq<char>>, active_version: i64)
    ensures
        property(commit_properties(bookmark, active_version), SINGER_BOOKMARK@) == bookmark,
        property(commit_properties(bookmark, active_version), SINGER_VERSION@)
            == if active_version != 0 {
            Some(decimal_text(active_version as int))
        } else {
            None
        },
{
    reveal_strlit("singer.bookmark");
    reveal_strlit("singer.version");
    assert(SINGER_BOOKMARK@.len() == 15);
    assert(SINGER_VERSION@.len() == 14);
    let pairs = commit_properties(bookmark, active_version);
    let keys = crate::table::pair_keys(pairs);
    reveal_with_fuel(key_position, 3);
    if bookmark is Some {
        assert(keys[0] == SINGER_BOOKMARK@);
        if active_version != 0 {
            assert(keys[1] == SINGER_VERSION@);
            assert(keys.drop_first() == seq![SINGER_VERSION@]);
            assert(keys.drop_first().drop_first() == Seq::<Seq<char>>::empty());
        } else {
            assert(keys.drop_first() == Seq::<Seq<char>>::empty());
        }
    } else {
        if active_version != 0 {
            assert(keys[0] == SINGER_VERSION@);
            assert(keys.drop_first() == Seq::<Seq<char>>::empty());
        }
    }
}

/// Why a writer ends before its channel does.
pub enum Rejection {
    /// A record does not satisfy the schema.
    Invalid,
    /// A field that is to be converted holds a text that is no time.
    NotATime,
    /// A field cannot be converted to the type of its column.
    Unsupported,
}

/// What a writer hands on for one message: a record that satisfies the
/// schema, converted; nothing for any other message; and no record that
/// fails the schema or a conversion.
pub open spec fn accepted(
    schema: JsonModel,
    conversions: Seq<(Seq<char>, DataType)>,
    message: MessageModel,
) -> Result<Option<JsonModel>, Rejection> {
    match message {
        MessageModel::Record { record, .. } => if !record_conforms(schema, record) {
            Err(Rejection::Invalid)
        } else {
            match reconciled(record, conversions) {
                Ok(converted) => Ok(Some(converted)),
                Err(Refusal::NotATime) => Err(Rejection::NotATime),
                Err(Refusal::Unsupported) => Err(Rejection::Unsupported),
            }
        },
        _ => Ok(None),
    }
}

/// The records that a writer hands on for the messages of its channel, in
/// their order. The first record that is rejected ends the writer.
pub open spec fn written(
    schema: JsonModel,
    conversions: Seq<(Seq<char>, DataType)>,
    messages: Seq<MessageModel>,
) -> Result<Seq<JsonModel>, Rejection>
    decreases messages.len(),
{
    if messages.len() == 0 {
        Ok(Seq::empty())
    } else {
        match written(schema, conversions, messages.drop_last()) {
            Err(rejection) => Err(rejection),
            Ok(before) => match accepted(schema, conversions, messages.last()) {
                Err(rejection) => Err(rejection),
                Ok(None) => Ok(before),
                Ok(Some(record)) => Ok(before.push(record)),
            },
        }
    }
}

/// The version that a writer is told to activate last by `messages`, or
/// `start` where they tell it none.
pub open spec fn activated(start: i64, messages: Seq<MessageModel>) -> i64
    decreases messages.len(),
{
    if messages.len() == 0 {
        start
    } else {
        match messages.last() {
            MessageModel::ActivateVersion { version, .. } => version,
            _ => activated(start, messages.drop_last()),
        }
    }
}

/// The records of `batches`, batch after batch.
pub open spec fn joined(batches: Seq<Seq<JsonModel>>) -> Seq<JsonModel>
    decreases batches.len(),
{
    if batches.len() == 0 {
        Seq::empty()
    } else {
        joined(batches.drop_last()) + batches.last()
    }
}

/// The records of each of `batches`.
pub open spec fn batches_model(batches: Seq<Vec<Json>>) -> Seq<Seq<JsonModel>> {
    batches.map_values(|batch: Vec<Json>| items_model(batch@))
}

/// A rejection among the first `n` messages is the rejection of all of them.
proof fn lemma_rejection_stays(
    schema: JsonModel,
    conversions: Seq<(Seq<char>, DataType)>,
    messages: Seq<MessageModel>,
    n: int,
)
    requires
        0 <= n <= messages.len(),
        written(schema, conversions, messages.take(n)) is Err,
    ensures
        written(schema, conversions, messages) == written(schema, conversions, messages.take(n)),
    decreases messages.len() - n,
{
    if n < messages.len() {
        assert(messages.take(n + 1).drop_last() == messages.take(n));
        lemma_rejection_stays(schema, conversions, messages, n + 1);
    } else {
        assert(messages.take(n) == messages);
    }
}

/// Whether `record` is what a writer hands on for one of `messages`: for a
/// record that satisfies the schema, converted.
pub open spec fn comes_from(
    schema: JsonModel,
    conversions: Seq<(Seq<char>, DataType)>,
    messages: Seq<MessageModel>,
    record: JsonModel,
) -> bool {
    exists|k: int|
        0 <= k < messages.len() && accepted(schema, conversions, #[trigger] messages[k]) == Ok::<
            Option<JsonModel>,
            Rejection,
        >(Some(record))
}

/// Every record that a writer hands on comes from a message of its
/// channel: from a record that satisfies the schema, converted.
pub proof fn lemma_written_conforms(
    schema: JsonModel,
    conversions: Seq<(Seq<char>, DataType)>,
    messages: Seq<MessageModel>,
)
    requires
        written(schema, conversions, messages) is Ok,
    ensures
        forall|i: int|
            0 <= i < written(schema, conversions, messages)->Ok_0.len() ==> comes_from(
                schema,
                conversions,
                messages,
                #[trigger] written(schema, conversions, messages)->Ok_0[i],
            ),
    decreases messages.len(),
{
    if messages.len() > 0 {
        let front = messages.drop_last();
        let records = written(schema, conversions, messages)->Ok_0;
        let before = written(schema, conversions, front)->Ok_0;
        lemma_written_conforms(schema, conversions, front);
        assert forall|i: int| 0 <= i < records.len() implies comes_from(
            schema,
            conversions,
            messages,
            #[trigger] records[i],
        ) by {
            if i < before.len() {
                assert(records[i] == before[i]);
                assert(comes_from(schema, conversions, front, before[i]));
                let k = choose|k: int|
                    0 <= k < front.len() && accepted(schema, conversions, #[trigger] front[k])
                        == Ok::<Option<JsonModel>, Rejection>(Some(before[i]));
                assert(messages[k] == front[k]);
            } else {
                assert(messages[messages.len() - 1] == messages.last());
            }
        }
    }
}

/// A record that is rejected ends the writer: where one message of the
/// channel is a record that fails the schema or a conversion, the writer
/// hands on nothing.
pub proof fn lemma_bad_record_ends(
    schema: JsonModel,
    conversions: Seq<(Seq<char>, DataType)>,
    messages: Seq<MessageModel>,
    k: int,
)
    requires
        0 <= k < messages.len(),
        accepted(schema, conversions, messages[k]) is Err,
    ensures
        written(schema, conversions, messages) is Err,
    decreases messages.len(),
{
    if k < messages.len() - 1 {
        let front = messages.drop_last();
        assert(front[k] == messages[k]);
        lemma_bad_record_ends(schema, conversions, front, k);
    }
}

/// Whether `record` is what a writer hands on for a record of `stream`
/// among `messages` that satisfies the schema, converted.
pub open spec fn from_input(
    schema: JsonModel,
    conversions: Seq<(Seq<char>, DataType)>,
    messages: Seq<MessageModel>,
    stream: Seq<char>,
    record: JsonModel,
) -> bool {
    exists|k: int|
        0 <= k < messages.len() && (#[trigger] messages[k]).stream() == Some(stream) && accepted(
            schema,
            conversions,
            messages[k],
        ) == Ok::<Option<JsonModel>, Rejection>(Some(record))
}

/// What the writers of a load hand on: every record that the writer of a
/// channel hands on comes from a record of the input, of the stream of the
/// channel, that satisfies the schema of the writer, converted.
pub proof fn lemma_load_conforms(
    streams: Seq<Seq<char>>,
    messages: Seq<MessageModel>,
    at: int,
    schema: JsonModel,
    conversions: Seq<(Seq<char>, DataType)>,
)
    requires
        0 <= at < crate::ingest::channels_after(streams, messages).len(),
        written(schema, conversions, crate::ingest::channels_after(streams, messages)[at].messages)
            is Ok,
    ensures
        ({
            let channel = crate::ingest::channels_after(streams, messages)[at];
            let records = written(schema, conversions, channel.messages)->Ok_0;
            forall|i: int|
                0 <= i < records.len() ==> from_input(
                    schema,
                    conversions,
                    messages,
                    channel.stream,
                    #[trigger] records[i],
                )
        }),
{
    let channel = crate::ingest::channels_after(streams, messages)[at];
    let records = written(schema, conversions, channel.messages)->Ok_0;
    crate::ingest::lemma_channels_hold_input(streams, messages, at);
    lemma_written_conforms(schema, conversions, channel.messages);
    assert forall|i: int| 0 <= i < records.len() implies from_input(
        schema,
        conversions,
        messages,
        channel.stream,
        #[trigger] records[i],
    ) by {
        assert(comes_from(schema, conversions, channel.messages, records[i]));
        let j = choose|j: int|
            0 <= j < channel.messages.len() && accepted(
                schema,
                conversions,
                #[trigger] channel.messages[j],
            ) == Ok::<Option<JsonModel>, Rejection>(Some(records[i]));
        assert(crate::ingest::in_input(messages, channel.stream, channel.messages[j]));
        let k = choose|k: int|
            0 <= k < messages.len() && #[trigger] messages[k] == channel.messages[j]
                && channel.messages[j].stream() == Some(channel.stream);
        assert(messages[k].stream() == Some(channel.stream));
    }
}

/// A load with a record that is rejected commits nothing for its channel:
/// the writer of a channel that holds such a record hands on nothing.
pub proof fn lemma_load_with_bad_record(
    streams: Seq<Seq<char>>,
    messages: Seq<MessageModel>,
    at: int,
    j: int,
    schema: JsonModel,
    conversions: Seq<(Seq<char>, DataType)>,
)
    requires
        0 <= at < crate::ingest::channels_after(streams, messages).len(),
        0 <= j < crate::ingest::channels_after(streams, messages)[at].messages.len(),
        accepted(
            schema,
            conversions,
            crate::ingest::channels_after(streams, messages)[at].messages[j],
        ) is Err,
    ensures
        written(schema, conversions, crate::ingest::channels_after(streams, messages)[at].messages)
            is Err,
{
    lemma_bad_record_ends(
        schema,
        conversions,
        crate::ingest::channels_after(streams, messages)[at].messages,
        j,
    );
}

/// A writer that has the schema of its stream and waits for its table.
#[derive(Debug)]
pub struct PendingWriter {
    stream: String,
    schema: Json,
    validator: Validator,
}

/// The writer of one channel: it checks and converts the records of its
/// stream, gathers them in batches, and plans the commit.
#[derive(Debug)]
pub struct StreamWriter {
    stream: String,
    validator: Validator,
    conversions: Vec<(String, DataType)>,
    batch_schema: Vec<Field>,
    previous_version: Option<String>,
    active_version: i64,
    buffer: Vec<Json>,
}

impl PendingWriter {
    /// The stream that is written.
    pub closed spec fn stream(&self) -> Seq<char> {
        self.stream@
    }

    /// The schema announced for the stream.
    pub closed spec fn schema(&self) -> JsonModel {
        self.schema@
    }

    #[verifier::type_invariant]
    spec fn consistent(&self) -> bool {
        self.validator.schema() == opened(self.schema@)
    }

    /// Begins a writer with the first message of its channel. The message
    /// must be a schema, of a stream that the configuration binds; the
    /// schema, with its references left open, must compile.
    pub fn open(first: Option<Message>, config: &BaseConfig) -> (r: Result<
        PendingWriter,
        SingerIcebergError,
    >)
        ensures
            match first {
                None => r matches Err(e) && e is Unknown,
                Some(Message::Schema(schema)) => if !config.binds(schema.stream@) {
                    r matches Err(SingerIcebergError::StreamNotFound(name)) && name@
                        == schema.stream@
                } else if !schema_compiles(opened(schema.schema@)) {
                    r matches Err(e) && e is InvalidSchema
                } else {
                    r matches Ok(pending) && pending.stream() == schema.stream@ && pending.schema()
                        == schema.schema@
                },
                Some(_) => r matches Err(e) && e is NoSchema,
            },
    {
        let schema = first_schema(first)?;
        if config.stream(schema.stream.as_str()).is_none() {
            return Err(SingerIcebergError::StreamNotFound(schema.stream));
        }
        let validator = Validator::new(&schema.schema)?;
        Ok(PendingWriter { stream: schema.stream, schema: schema.schema, validator })
    }

    /// The stream that is written.
    pub fn name(&self) -> (r: &str)
        ensures
            r@ == self.stream(),
    {
        self.stream.as_str()
    }

    /// Readies the writer for the table that the stream lands in. The root
    /// of the schema must be an object.
    pub fn attach(self, table: &TableState) -> (r: Result<StreamWriter, SingerIcebergError>)
        ensures
            match translation(schema_of(self.schema())) {
                None => r matches Err(e) && e is NoSchema,
                Some(incoming) => {
                    &&& r matches Ok(writer)
                    &&& writer.stream() == self.stream()
                    &&& writer.schema() == opened(self.schema())
                    &&& writer.conversions() == reconciliation(incoming, fields_model(table.fields@))
                    &&& writer.batch_schema() == intermediate(
                        fields_model(table.fields@),
                        writer.conversions(),
                    )
                    &&& writer.previous_version() == property(
                        pairs_model(table.properties@),
                        SINGER_VERSION@,
                    )
                    &&& writer.active_version() == 0
                    &&& writer.buffered() == Seq::<JsonModel>::empty()
                },
            },
    {
        proof {
            use_type_invariant(&self);
        }
        let incoming = schema_to_arrow(&JsonSchema::from_json(&self.schema))?;
        let conversions = reconciliation_map(&incoming, &table.fields);
        let batch_schema = intermediate_schema(&table.fields, &conversions);
        let previous_version = match find_property(&table.properties, SINGER_VERSION) {
            Some(version) => Some(version.clone()),
            None => None,
        };
        Ok(
            StreamWriter {
                stream: self.stream,
                validator: self.validator,
                conversions,
                batch_schema,
                previous_version,
                active_version: 0,
                buffer: Vec::new(),
            },
        )
    }
}

impl StreamWriter {
    /// The stream that is written.
    pub closed spec fn stream(&self) -> Seq<char> {
        self.stream@
    }

    /// The schema that records are checked against: the one announced for
    /// the stream, with its references left open.
    pub closed spec fn schema(&self) -> JsonModel {
        self.validator.schema()
    }

    /// The conversions that every record undergoes.
    pub closed spec fn conversions(&self) -> Seq<(Seq<char>, DataType)> {
        conversions_model(self.conversions@)
    }

    /// The columns under which records are batched.
    pub closed spec fn batch_schema(&self) -> Seq<FieldModel> {
        fields_model(self.batch_schema@)
    }

    /// The version that the table held when the writer began.
    pub closed spec fn previous_version(&self) -> Option<Seq<char>> {
        match self.previous_version {
            Some(version) => Some(version@),
            None => None,
        }
    }

    /// The version that the writer was last told to activate; 0 at first.
    pub closed spec fn active_version(&self) -> i64 {
        self.active_version
    }

    /// The records that wait for their batch to fill.
    pub closed spec fn buffered(&self) -> Seq<JsonModel> {
        items_model(self.buffer@)
    }

    #[verifier::type_invariant]
    spec fn bounded(&self) -> bool {
        self.buffer@.len() < ARROW_BATCH_SIZE
    }

    /// The columns under which records are batched.
    pub fn batch_fields(&self) -> (r: &Vec<Field>)
        ensures
            fields_model(r@) == self.batch_schema(),
    {
        &self.batch_schema
    }

    /// Takes the next message of the channel.
    ///
    /// A record is checked against the schema and converted for the table;
    /// it then waits in the buffer, and where it fills a batch, the batch
    /// comes back. A record that fails either step ends the writer with an
    /// error. A version to activate is noted. Any other message is dropped.
    pub fn accept(&mut self, message: Message) -> (r: Result<Option<Vec<Json>>, SingerIcebergError>)
        ensures
            final(self).stream() == old(self).stream(),
            final(self).schema() == old(self).schema(),
            final(self).conversions() == old(self).conversions(),
            final(self).batch_schema() == old(self).batch_schema(),
            final(self).previous_version() == old(self).previous_version(),
            match message@ {
                MessageModel::Record { record, .. } => if !record_conforms(
                    old(self).schema(),
                    record,
                ) {
                    r matches Err(SingerIcebergError::SchemaValidation(diagnostic)) && diagnostic
                        is Some
                } else {
                    match reconciled(record, old(self).conversions()) {
                        Err(Refusal::NotATime) => r matches Err(e) && e is Chrono,
                        Err(Refusal::Unsupported) => r matches Err(e) && e is SchemaValidation,
                        Ok(converted) => {
                            &&& final(self).active_version() == old(self).active_version()
                            &&& if old(self).buffered().len() + 1 == ARROW_BATCH_SIZE {
                                &&& r matches Ok(Some(batch))
                                &&& items_model(batch@) == old(self).buffered().push(converted)
                                &&& final(self).buffered() == Seq::<JsonModel>::empty()
                            } else {
                                &&& r matches Ok(None)
                                &&& final(self).buffered() == old(self).buffered().push(converted)
                            }
                        },
                    }
                },
                MessageModel::ActivateVersion { version, .. } => {
                    &&& r matches Ok(None)
                    &&& final(self).active_version() == version
                    &&& final(self).buffered() == old(self).buffered()
                },
                _ => {
                    &&& r matches Ok(None)
                    &&& final(self).active_version() == old(self).active_version()
                    &&& final(self).buffered() == old(self).buffered()
                },
            },
    {
        proof {
            use_type_invariant(&*self);
        }
        match message {
            Message::Record(record) => {
                self.validator.check(&record.record)?;
                let converted = reconcile_record(record.record, &self.conversions)?;
                let ghost before = self.buffer@;
                let mut batch: Vec<Json> = Vec::new();
                std::mem::swap(&mut self.buffer, &mut batch);
                batch.push(converted);
                proof {
                    assert(items_model(batch@) == items_model(before).push(converted@));
                    assert(items_model(self.buffer@) == Seq::<JsonModel>::empty());
                }
                if batch.len() == ARROW_BATCH_SIZE {
                    Ok(Some(batch))
                } else {
                    std::mem::swap(&mut self.buffer, &mut batch);
                    Ok(None)
                }
            },
            Message::ActivateVersion(activate) => {
                self.active_version = activate.version;
                Ok(None)
            },
            _ => Ok(None),
        }
    }

    /// Ends the channel: the records that still wait come back as the last
    /// batch, if there are any.
    pub fn finish(&mut self) -> (r: Option<Vec<Json>>)
        ensures
            final(self).stream() == old(self).stream(),
            final(self).schema() == old(self).schema(),
            final(self).conversions() == old(self).conversions(),
            final(self).batch_schema() == old(self).batch_schema(),
            final(self).previous_version() == old(self).previous_version(),
            final(self).active_version() == old(self).active_version(),
            final(self).buffered() == Seq::<JsonModel>::empty(),
            match r {
                Some(batch) => old(self).buffered().len() > 0 && items_model(batch@) == old(
                    self,
                ).buffered(),
                None => old(self).buffered().len() == 0,
            },
    {
        let mut batch: Vec<Json> = Vec::new();
        std::mem::swap(&mut self.buffer, &mut batch);
        proof {
            assert(items_model(self.buffer@) == Seq::<JsonModel>::empty());
        }
        if batch.len() > 0 {
            Some(batch)
        } else {
            None
        }
    }

    /// Takes all messages of the channel and ends it: the batches of the
    /// records that the writer hands on come back, each full but the last.
    /// The first record that is rejected ends the writer with its error.
    pub fn run(&mut self, messages: Vec<Message>) -> (r: Result<Vec<Vec<Json>>, SingerIcebergError>)
        ensures
            final(self).stream() == old(self).stream(),
            final(self).schema() == old(self).schema(),
            final(self).conversions() == old(self).conversions(),
            final(self).batch_schema() == old(self).batch_schema(),
            final(self).previous_version() == old(self).previous_version(),
            match written(
                old(self).schema(),
                old(self).conversions(),
                crate::ingest::messages_model(messages@),
            ) {
                Err(Rejection::Invalid) => (r matches Err(
                    SingerIcebergError::SchemaValidation(diagnostic),
                ) && diagnostic is Some),
                Err(Rejection::NotATime) => r matches Err(e) && e is Chrono,
                Err(Rejection::Unsupported) => r matches Err(e) && e is SchemaValidation,
                Ok(records) => {
                    &&& r matches Ok(batches)
                    &&& joined(batches_model(batches@)) == old(self).buffered() + records
                    &&& forall|b: int|
                        0 <= b < batches@.len() ==> 0 < (#[trigger] batches@[b])@.len()
                            <= ARROW_BATCH_SIZE
                    &&& forall|b: int|
                        0 <= b < batches@.len() - 1 ==> (#[trigger] batches@[b])@.len()
                            == ARROW_BATCH_SIZE
                    &&& final(self).buffered() == Seq::<JsonModel>::empty()
                    &&& final(self).active_version() == activated(
                        old(self).active_version(),
                        crate::ingest::messages_model(messages@),
                    )
                },
            },
    {
        let ghost schema = self.schema();
        let ghost conversions = self.conversions();
        let ghost start = self.buffered();
        let ghost first_version = self.active_version();
        let ghost all = crate::ingest::messages_model(messages@);
        let ghost taken = messages@;
        let ghost mut records: Seq<JsonModel> = Seq::empty();
        let mut batches: Vec<Vec<Json>> = Vec::new();
        proof {
            use_type_invariant(&*self);
            assert(batches_model(batches@) == Seq::<Seq<JsonModel>>::empty());
            assert(joined(Seq::<Seq<JsonModel>>::empty()) + start == start + records);
        }
        for message in it: messages.into_iter()
            invariant
                it.seq() == taken,
                all == crate::ingest::messages_model(taken),
                self.stream() == old(self).stream(),
                self.schema() == schema,
                self.conversions() == conversions,
                self.batch_schema() == old(self).batch_schema(),
                self.previous_version() == old(self).previous_version(),
                schema == old(self).schema(),
                conversions == old(self).conversions(),
                start == old(self).buffered(),
                first_version == old(self).active_version(),
                taken == messages@,
                written(schema, conversions, all.take(it.index() as int)) == Ok::<
                    Seq<JsonModel>,
                    Rejection,
                >(records),
                joined(batches_model(batches@)) + self.buffered() == start + records,
                self.buffered().len() < ARROW_BATCH_SIZE,
                forall|b: int|
                    0 <= b < batches@.len() ==> (#[trigger] batches@[b])@.len() == ARROW_BATCH_SIZE,
                self.active_version() == activated(first_version, all.take(it.index() as int)),
        {
            let ghost n = it.index() as int;
            let ghost waiting = self.buffered();
            let ghost done = batches_model(batches@);
            proof {
                assert(all.take(n + 1).drop_last() == all.take(n));
                assert(all.take(n + 1).last() == message@);
            }
            match self.accept(message) {
                Err(e) => {
                    proof {
                        lemma_rejection_stays(schema, conversions, all, n + 1);
                    }
                    return Err(e);
                },
                Ok(Some(batch)) => {
                    proof {
                        let record = accepted(schema, conversions, all[n])->Ok_0->0;
                        assert(batches_model(batches@.push(batch)) == done.push(items_model(batch@)));
                        assert(done.push(items_model(batch@)).drop_last() == done);
                        assert(joined(done) + waiting.push(record) + Seq::<JsonModel>::empty()
                            == (joined(done) + waiting).push(record));
                        assert((start + records).push(record) == start + records.push(record));
                        records = records.push(record);
                    }
                    batches.push(batch);
                },
                Ok(None) => {
                    proof {
                        match accepted(schema, conversions, all[n]) {
                            Ok(Some(record)) => {
                                assert(joined(done) + waiting.push(record) == (joined(done)
                                    + waiting).push(record));
                                assert((start + records).push(record) == start + records.push(
                                    record,
                                ));
                                records = records.push(record);
                            },
                            _ => {},
                        }
                    }
                },
            }
            proof {
                use_type_invariant(&*self);
            }
        }
        proof {
            assert(all.take(taken.len() as int) == all);
        }
        let ghost done = batches_model(batches@);
        let ghost waiting = self.buffered();
        match self.finish() {
            Some(batch) => {
                proof {
                    assert(batches_model(batches@.push(batch)) == done.push(items_model(batch@)));
                    assert(done.push(items_model(batch@)).drop_last() == done);
                    assert(items_model(batch@).len() == batch@.len());
                }
                batches.push(batch);
            },
            None => {
                proof {
                    assert(joined(done) + waiting == joined(done));
                }
            },
        }
        Ok(batches)
    }

    /// Plans the writer's commit, once its files are written.
    ///
    /// Without files nothing is committed. With files, one commit carries
    /// all of them: it appends where the table's stored version is the
    /// decimal form of the active version and overwrites otherwise; it sets
    /// the bookmark that `state` holds for the stream, if it holds one, and
    /// the active version, unless that is 0. The state must then hold an
    /// object of bookmarks.
    pub fn plan_commit<T>(&self, files: Vec<T>, state: &Json) -> (r: Result<
        Option<Commit<T>>,
        SingerIcebergError,
    >)
        ensures
            match planned(
                self.previous_version(),
                self.active_version(),
                state@,
                self.stream(),
                files@.len(),
            ) {
                Ok(None) => r matches Ok(None),
                Ok(Some(plan)) => {
                    &&& r matches Ok(Some(commit))
                    &&& commit.files@ == files@
                    &&& commit.operation == plan.operation
                    &&& pairs_model(commit.properties@) == plan.properties
                },
                Err(_) => r matches Err(e) && e is StateNotObject,
            },
    {
        if files.len() == 0 {
            return Ok(None);
        }
        let bookmark = stream_bookmark(state, self.stream.as_str())?;
        let version = decimal_string(self.active_version);
        let operation = match &self.previous_version {
            Some(previous) => if str_eq(previous.as_str(), version.as_str()) {
                Operation::Append
            } else {
                Operation::Overwrite
            },
            None => Operation::Overwrite,
        };
        let mut properties: Vec<(String, String)> = Vec::new();
        assert(pairs_model(properties@) == Seq::<(Seq<char>, Seq<char>)>::empty());
        match bookmark {
            Some(text) => {
                let pair = (String::from_str(SINGER_BOOKMARK), text);
                proof {
                    assert(pairs_model(properties@.push(pair)) == seq![(SINGER_BOOKMARK@, text@)]);
                }
                properties.push(pair);
            },
            None => {},
        }
        if self.active_version != 0 {
            let pair = (String::from_str(SINGER_VERSION), version);
            proof {
                assert(pairs_model(properties@.push(pair)) == pairs_model(properties@).push(
                    (pair.0@, pair.1@),
                ));
            }
            properties.push(pair);
        }
        Ok(Some(Commit { operation, files, properties }))
    }
}

} // verus!
