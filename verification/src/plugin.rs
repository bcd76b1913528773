//! What a destination is configured with: the streams it accepts and where
//! each of them lands.

use crate::error::{shape_error, SingerIcebergError};
use crate::json::{entries_model, items_model, optional_text, text_member, Json, JsonModel};
use crate::table::pairs_model;
use crate::text::key_position;
use vstd::prelude::*;

verus! {

/// How a stream is replicated from its source.
#[derive(Clone, Copy, Debug, PartialEq, Eq, Structural)]
pub enum Replication {
    FullTable,
    Incremental,
    LogBased,
}

impl Default for Replication {
    fn default() -> (r: Replication)
        ensures
            r == Replication::FullTable,
    {
        Replication::FullTable
    }
}

impl Replication {
    /// The name of the method as catalog descriptors spell it.
    pub open spec fn spec_name(self) -> Seq<char> {
        match self {
            Replication::FullTable => "FULL_TABLE"@,
            Replication::Incremental => "INCREMENTAL"@,
            Replication::LogBased => "LOG_BASED"@,
        }
    }

    /// The name of the method as catalog descriptors spell it.
    pub fn name(&self) -> (r: &'static str)
        ensures
            r@ == self.spec_name(),
    {
        match self {
            Replication::FullTable => "FULL_TABLE",
            Replication::Incremental => "INCREMENTAL",
            Replication::LogBased => "LOG_BASED",
        }
    }

    /// The method that `name` spells, if it spells one.
    pub fn from_name(name: &str) -> (r: Option<Replication>)
        ensures
            r == method_named(name@),
    {
        if crate::text::str_eq(name, "FULL_TABLE") {
            Some(Replication::FullTable)
        } else if crate::text::str_eq(name, "INCREMENTAL") {
            Some(Replication::Incremental)
        } else if crate::text::str_eq(name, "LOG_BASED") {
            Some(Replication::LogBased)
        } else {
            None
        }
    }
}

/// Where one stream lands.
#[derive(Debug, PartialEq, Eq)]
pub struct StreamConfig {
    /// Dotted path; its last two segments are the table's namespace and name.
    pub identifier: String,
    pub replication_method: Replication,
    /// Columns to partition a new table by, each with the JSON text of its transform.
    pub partition_by: Option<Vec<(String, String)>>,
}

/// The configuration every destination shares.
#[derive(Debug, PartialEq, Eq)]
pub struct BaseConfig {
    /// Stream id and the stream's binding. Of two entries with one id the first counts.
    pub streams: Vec<(String, StreamConfig)>,
    /// Root prefix under which new tables are placed.
    pub bucket: Option<String>,
    /// Branch written to; `None` is the main lineage.
    pub branch: Option<String>,
}

/// The ids of `streams`.
pub open spec fn stream_ids(streams: Seq<(String, StreamConfig)>) -> Seq<Seq<char>> {
    streams.map_values(|s: (String, StreamConfig)| s.0@)
}

impl BaseConfig {
    /// Whether the configuration binds the stream `id`.
    pub open spec fn binds(&self, id: Seq<char>) -> bool {
        key_position(stream_ids(self.streams@), id) < self.streams@.len()
    }

    /// The binding of the stream `id`.
    pub open spec fn binding(&self, id: Seq<char>) -> StreamConfig
        recommends
            self.binds(id),
    {
        self.streams@[key_position(stream_ids(self.streams@), id)].1
    }

    /// The binding of the stream `id`, if the configuration has one.
    pub fn stream(&self, id: &str) -> (r: Option<&StreamConfig>)
        ensures
            r is Some == self.binds(id@),
            r is Some ==> *r.unwrap() == self.binding(id@),
    {
        let ghost ids = stream_ids(self.streams@);
        let mut i: usize = 0;
        assert(ids.skip(0) == ids);
        while i < self.streams.len()
            invariant
                i <= self.streams@.len(),
                ids == stream_ids(self.streams@),
                key_position(ids, id@) == i + key_position(ids.skip(i as int), id@),
            decreases self.streams@.len() - i,
        {
            proof {
                assert(ids.skip(i as int).drop_first() == ids.skip(i + 1));
                assert(ids.skip(i as int)[0] == ids[i as int]);
            }
            if crate::text::str_eq(self.streams[i].0.as_str(), id) {
                return Some(&self.streams[i].1);
            }
            i += 1;
        }
        None
    }

    /// Root prefix under which new tables are placed.
    pub fn bucket(&self) -> (r: Option<&str>)
        ensures
            r is Some == self.bucket is Some,
            r is Some ==> r.unwrap()@ == self.bucket.unwrap()@,
    {
        match &self.bucket {
            Some(bucket) => Some(bucket.as_str()),
            None => None,
        }
    }

    /// Branch written to; `None` is the main lineage.
    pub fn branch(&self) -> (r: &Option<String>)
        ensures
            *r == self.branch,
    {
        &self.branch
    }
}

/// Whether `bucket` begins with `s3://`.
pub open spec fn has_s3_scheme(bucket: Seq<char>) -> bool {
    &&& bucket.len() >= 5
    &&& bucket[0] == 's'
    &&& bucket[1] == '3'
    &&& bucket[2] == ':'
    &&& bucket[3] == '/'
    &&& bucket[4] == '/'
}

/// The name of an S3 bucket: `bucket` without every `s3://` at its start.
pub open spec fn s3_name(bucket: Seq<char>) -> Seq<char>
    decreases bucket.len(),
{
    if has_s3_scheme(bucket) {
        s3_name(bucket.skip(5))
    } else {
        bucket
    }
}

/// The URL of an S3 bucket: `s3://` and the bucket's name.
pub open spec fn s3_url(bucket: Seq<char>) -> Seq<char> {
    seq!['s', '3', ':', '/', '/'] + s3_name(bucket)
}

/// The name and the URL of the S3 bucket that a configuration names, with
/// or without `s3://` at its start.
pub fn s3_bucket(bucket: &str) -> (r: (String, String))
    ensures
        r.0@ == s3_name(bucket@),
        r.1@ == s3_url(bucket@),
{
    let chars = crate::text::chars_of(bucket);
    let n = chars.len();
    let mut start: usize = 0;
    proof {
        assert(chars@.skip(0) == chars@);
    }
    while n - start >= 5 && chars[start] == 's' && chars[start + 1] == '3' && chars[start + 2] == ':'
        && chars[start + 3] == '/' && chars[start + 4] == '/'
        invariant
            start <= n == chars@.len(),
            s3_name(chars@) == s3_name(chars@.skip(start as int)),
        decreases n - start,
    {
        proof {
            assert(chars@.skip(start as int).skip(5) == chars@.skip(start + 5));
        }
        start += 5;
    }
    proof {
        let rest = chars@.skip(start as int);
        if rest.len() >= 5 {
            assert(rest[0] == chars@[start as int]);
            assert(rest[1] == chars@[start + 1]);
            assert(rest[2] == chars@[start + 2]);
            assert(rest[3] == chars@[start + 3]);
            assert(rest[4] == chars@[start + 4]);
        }
        assert(!has_s3_scheme(rest));
        assert(chars@.subrange(start as int, n as int) == rest);
    }
    let name = crate::text::string_of(&chars, start, n);
    let mut url = String::new();
    url.push('s');
    url.push('3');
    url.push(':');
    url.push('/');
    url.push('/');
    assert(url@ == seq!['s', '3', ':', '/', '/']);
    url.append(name.as_str());
    (name, url)
}

/// The mathematical value of a [`StreamConfig`].
pub struct StreamConfigModel {
    pub identifier: Seq<char>,
    pub replication_method: Replication,
    pub partition_by: Option<Seq<(Seq<char>, Seq<char>)>>,
}

impl View for StreamConfig {
    type V = StreamConfigModel;

    open spec fn view(&self) -> StreamConfigModel {
        StreamConfigModel {
            identifier: self.identifier@,
            replication_method: self.replication_method,
            partition_by: match self.partition_by {
                Some(pairs) => Some(pairs_model(pairs@)),
                None => None,
            },
        }
    }
}

/// The mathematical value of a [`BaseConfig`].
pub struct BaseConfigModel {
    pub streams: Seq<(Seq<char>, StreamConfigModel)>,
    pub bucket: Option<Seq<char>>,
    pub branch: Option<Seq<char>>,
}

/// The id and the binding of each of `streams`.
pub open spec fn bindings_model(streams: Seq<(String, StreamConfig)>) -> Seq<
    (Seq<char>, StreamConfigModel),
> {
    streams.map_values(|s: (String, StreamConfig)| (s.0@, s.1@))
}

impl View for BaseConfig {
    type V = BaseConfigModel;

    open spec fn view(&self) -> BaseConfigModel {
        BaseConfigModel {
            streams: bindings_model(self.streams@),
            bucket: match self.bucket {
                Some(text) => Some(text@),
                None => None,
            },
            branch: match self.branch {
                Some(text) => Some(text@),
                None => None,
            },
        }
    }
}

/// The method that `name` spells, if it spells one.
pub open spec fn method_named(name: Seq<char>) -> Option<Replication> {
    if name == "FULL_TABLE"@ {
        Some(Replication::FullTable)
    } else if name == "INCREMENTAL"@ {
        Some(Replication::Incremental)
    } else if name == "LOG_BASED"@ {
        Some(Replication::LogBased)
    } else {
        None
    }
}

/// What a name spells is the method of that name.
pub proof fn lemma_name_spells_method(method: Replication)
    ensures
        method_named(method.spec_name()) == Some(method),
{
    reveal_strlit("FULL_TABLE");
    reveal_strlit("INCREMENTAL");
    reveal_strlit("LOG_BASED");
    assert("FULL_TABLE"@.len() == 10);
    assert("INCREMENTAL"@.len() == 11);
    assert("LOG_BASED"@.len() == 9);
}

/// A column to partition by and the JSON text of its transform: an array
/// of these two strings.
pub open spec fn pair_of(doc: JsonModel) -> Option<(Seq<char>, Seq<char>)> {
    match doc {
        JsonModel::Array(items) => if items.len() == 2 && items[0] is Str && items[1] is Str {
            Some((items[0]->Str_0, items[1]->Str_0))
        } else {
            None
        },
        _ => None,
    }
}

/// The pairs that the items of an array hold, where each holds one.
pub open spec fn pairs_of(items: Seq<JsonModel>) -> Option<Seq<(Seq<char>, Seq<char>)>> {
    if forall|i: int| 0 <= i < items.len() ==> pair_of(#[trigger] items[i]) is Some {
        Some(Seq::new(items.len(), |i: int| pair_of(items[i])->0))
    } else {
        None
    }
}

/// What a binding holds under `partitionBy`: nothing (`Some(None)`) where
/// the key is absent or holds null, the pairs where it holds an array of
/// them, and no reading (`None`) for anything else.
pub open spec fn partition_by_of(doc: JsonModel) -> Option<Option<Seq<(Seq<char>, Seq<char>)>>> {
    if !doc.has("partitionBy"@) || doc.member("partitionBy"@) is Null {
        Some(None)
    } else {
        match doc.member("partitionBy"@) {
            JsonModel::Array(items) => match pairs_of(items) {
                Some(pairs) => Some(Some(pairs)),
                None => None,
            },
            _ => None,
        }
    }
}

/// What a binding holds under `replicationMethod`: the default where the
/// key is absent, the method where it holds the name of one, and no reading
/// for anything else.
pub open spec fn method_of(doc: JsonModel) -> Option<Replication> {
    if !doc.has("replicationMethod"@) {
        Some(Replication::FullTable)
    } else {
        match doc.member("replicationMethod"@) {
            JsonModel::Str(name) => method_named(name),
            _ => None,
        }
    }
}

/// The binding that a JSON document holds: a string is the identifier of a
/// stream that is replicated by default and not partitioned; an object
/// holds the identifier and may hold the other two.
pub open spec fn binding_of(doc: JsonModel) -> Option<StreamConfigModel> {
    match doc {
        JsonModel::Str(identifier) => Some(
            StreamConfigModel {
                identifier,
                replication_method: Replication::FullTable,
                partition_by: None,
            },
        ),
        JsonModel::Object(_) => match (
            text_member(doc, "identifier"@),
            method_of(doc),
            partition_by_of(doc),
        ) {
            (Some(identifier), Some(replication_method), Some(partition_by)) => Some(
                StreamConfigModel { identifier, replication_method, partition_by },
            ),
            _ => None,
        },
        _ => None,
    }
}

/// The bindings that the entries of an object hold, where each holds one.
pub open spec fn bindings_of(entries: Seq<(Seq<char>, JsonModel)>) -> Option<
    Seq<(Seq<char>, StreamConfigModel)>,
> {
    if forall|i: int| 0 <= i < entries.len() ==> binding_of(#[trigger] entries[i].1) is Some {
        Some(Seq::new(entries.len(), |i: int| (entries[i].0, binding_of(entries[i].1)->0)))
    } else {
        None
    }
}

/// The configuration that a JSON document holds: an object with the
/// bindings under `streams`, which may hold a `bucket` and a `branch`. Other
/// keys are ignored.
pub open spec fn config_of(doc: JsonModel) -> Option<BaseConfigModel> {
    if doc.has("streams"@) && doc.member("streams"@) is Object {
        match (
            bindings_of(doc.member("streams"@).entries()),
            optional_text(doc, "bucket"@),
            optional_text(doc, "branch"@),
        ) {
            (Some(streams), Some(bucket), Some(branch)) => Some(
                BaseConfigModel { streams, bucket, branch },
            ),
            _ => None,
        }
    } else {
        None
    }
}

fn read_pair(doc: &Json) -> (r: Option<(String, String)>)
    ensures
        match r {
            Some(pair) => pair_of(doc@) == Some((pair.0@, pair.1@)),
            None => pair_of(doc@) is None,
        },
{
    match doc {
        Json::Array(items) => {
            proof {
                let model = items_model(items@);
                if items@.len() == 2 {
                    assert(model[0] == items@[0]@);
                    assert(model[1] == items@[1]@);
                }
            }
            if items.len() != 2 {
                return None;
            }
            match (&items[0], &items[1]) {
                (Json::Str(column), Json::Str(transform)) => Some(
                    (column.clone(), transform.clone()),
                ),
                _ => None,
            }
        },
        _ => None,
    }
}

fn read_partition_by(doc: &Json) -> (r: Result<Option<Vec<(String, String)>>, ()>)
    ensures
        match r {
            Ok(Some(pairs)) => partition_by_of(doc@) == Some(Some(pairs_model(pairs@))),
            Ok(None) => partition_by_of(doc@) == Some(None::<Seq<(Seq<char>, Seq<char>)>>),
            Err(_) => partition_by_of(doc@) is None,
        },
{
    match doc.get("partitionBy") {
        None => Ok(None),
        Some(Json::Null) => Ok(None),
        Some(Json::Array(items)) => {
            let ghost model = items_model(items@);
            let mut pairs: Vec<(String, String)> = Vec::new();
            let mut i: usize = 0;
            while i < items.len()
                invariant
                    i <= items@.len(),
                    pairs@.len() == i,
                    model == items_model(items@),
                    doc@.has("partitionBy"@),
                    doc@.member("partitionBy"@) == JsonModel::Array(model),
                    forall|k: int|
                        0 <= k < i ==> pair_of(model[k]) == Some((pairs@[k].0@, pairs@[k].1@)),
                decreases items@.len() - i,
            {
                assert(model[i as int] == items@[i as int]@);
                match read_pair(&items[i]) {
                    Some(pair) => {
                        pairs.push(pair);
                    },
                    None => {
                        assert(pair_of(model[i as int]) is None);
                        return Err(());
                    },
                }
                i += 1;
            }
            proof {
                assert(pairs_of(model) is Some);
                assert(pairs_model(pairs@) == pairs_of(model)->0);
            }
            Ok(Some(pairs))
        },
        Some(_) => Err(()),
    }
}

fn read_method(doc: &Json) -> (r: Option<Replication>)
    ensures
        r == method_of(doc@),
{
    match doc.get("replicationMethod") {
        None => Some(Replication::FullTable),
        Some(Json::Str(name)) => Replication::from_name(name.as_str()),
        Some(_) => None,
    }
}

impl StreamConfig {
    /// Reads the binding that a JSON document holds.
    pub fn from_json(doc: &Json) -> (r: Option<StreamConfig>)
        ensures
            match r {
                Some(binding) => binding_of(doc@) == Some(binding@),
                None => binding_of(doc@) is None,
            },
    {
        match doc {
            Json::Str(identifier) => Some(
                StreamConfig {
                    identifier: identifier.clone(),
                    replication_method: Replication::FullTable,
                    partition_by: None,
                },
            ),
            Json::Object(_) => {
                let identifier = doc.text("identifier");
                let method = read_method(doc);
                let partition_by = read_partition_by(doc);
                match (identifier, method, partition_by) {
                    (Some(identifier), Some(replication_method), Ok(partition_by)) => Some(
                        StreamConfig {
                            identifier: String::from_str(identifier),
                            replication_method,
                            partition_by,
                        },
                    ),
                    _ => None,
                }
            },
            _ => None,
        }
    }
}

impl BaseConfig {
    /// Reads the configuration that a JSON document holds.
    pub fn from_json(doc: &Json) -> (r: Result<BaseConfig, SingerIcebergError>)
        ensures
            match r {
                Ok(config) => config_of(doc@) == Some(config@),
                Err(e) => config_of(doc@) is None && e is Serde,
            },
    {
        let entries = match doc.get("streams") {
            Some(Json::Object(entries)) => entries,
            _ => {
                return Err(SingerIcebergError::Serde(shape_error("the document is no configuration")));
            },
        };
        let ghost model = entries_model(entries@);
        let mut streams: Vec<(String, StreamConfig)> = Vec::new();
        let mut i: usize = 0;
        while i < entries.len()
            invariant
                i <= entries@.len(),
                streams@.len() == i,
                model == entries_model(entries@),
                doc@.member("streams"@).entries() == model,
                doc@.has("streams"@) && doc@.member("streams"@) is Object,
                forall|k: int|
                    0 <= k < i ==> model[k].0 == streams@[k].0@ && binding_of(model[k].1) == Some(
                        streams@[k].1@,
                    ),
            decreases entries@.len() - i,
        {
            assert(model[i as int] == (entries@[i as int].0@, entries@[i as int].1@));
            match StreamConfig::from_json(&entries[i].1) {
                Some(binding) => {
                    streams.push((entries[i].0.clone(), binding));
                },
                None => {
                    assert(bindings_of(model) is None);
                    return Err(SingerIcebergError::Serde(shape_error("the document is no configuration")));
                },
            }
            i += 1;
        }
        proof {
            assert(bindings_of(model) is Some);
            assert(bindings_model(streams@) == bindings_of(model)->0);
        }
        let bucket = match doc.optional_text("bucket") {
            Ok(bucket) => bucket,
            Err(_) => {
                return Err(SingerIcebergError::Serde(shape_error("the document is no configuration")));
            },
        };
        let branch = match doc.optional_text("branch") {
            Ok(branch) => branch,
            Err(_) => {
                return Err(SingerIcebergError::Serde(shape_error("the document is no configuration")));
            },
        };
        Ok(BaseConfig { streams, bucket, branch })
    }
}

} // verus!
