//! The table that a stream lands in: how it is named, where it is placed,
//! how it is partitioned, and what its properties hold.

use crate::error::SingerIcebergError;
use crate::json::names_model;
use crate::schema::Field;
use crate::text::{
    chars_of, find_last, key_position, last_index_of, replace_char, str_eq, string_of,
    trim_end_char,
};
use vstd::prelude::*;

verus! {

/// The table property that holds the bookmark of the stream.
pub const SINGER_BOOKMARK: &'static str = "singer.bookmark";

/// The table property that holds the active version of the stream.
pub const SINGER_VERSION: &'static str = "singer.version";

/// What a writer reads from the table that its stream lands in.
#[derive(Debug, PartialEq, Eq)]
pub struct TableState {
    /// The columns of the table's current schema, on the branch written to.
    pub fields: Vec<Field>,
    /// The table's properties: key and value. Of two with one key the first counts.
    pub properties: Vec<(String, String)>,
}

/// The key and the value of each of `pairs`.
pub open spec fn pairs_model(pairs: Seq<(String, String)>) -> Seq<(Seq<char>, Seq<char>)> {
    pairs.map_values(|p: (String, String)| (p.0@, p.1@))
}

/// The keys of `pairs`.
pub open spec fn pair_keys(pairs: Seq<(Seq<char>, Seq<char>)>) -> Seq<Seq<char>> {
    pairs.map_values(|p: (Seq<char>, Seq<char>)| p.0)
}

/// The value under `key` among `pairs`, if any.
pub open spec fn property(pairs: Seq<(Seq<char>, Seq<char>)>, key: Seq<char>) -> Option<Seq<char>> {
    let at = key_position(pair_keys(pairs), key);
    if at < pairs.len() {
        Some(pairs[at].1)
    } else {
        None
    }
}

/// The value under `key` among `pairs`, if any.
pub fn find_property<'a>(pairs: &'a Vec<(String, String)>, key: &str) -> (r: Option<&'a String>)
    ensures
        match r {
            Some(value) => property(pairs_model(pairs@), key@) == Some(value@),
            None => property(pairs_model(pairs@), key@) is None,
        },
{
    let ghost keys = pair_keys(pairs_model(pairs@));
    let mut i: usize = 0;
    assert(keys.skip(0) == keys);
    while i < pairs.len()
        invariant
            i <= pairs@.len(),
            keys == pair_keys(pairs_model(pairs@)),
            key_position(keys, key@) == i + key_position(keys.skip(i as int), key@),
        decreases pairs@.len() - i,
    {
        proof {
            assert(keys.skip(i as int).drop_first() == keys.skip(i + 1));
            assert(keys.skip(i as int)[0] == keys[i as int]);
        }
        if str_eq(pairs[i].0.as_str(), key) {
            return Some(&pairs[i].1);
        }
        i += 1;
    }
    None
}

/// The last two segments of a dotted path, or the whole path where it has
/// no dot: the namespace and the name of the table that a stream lands in.
pub open spec fn last_segments(identifier: Seq<char>) -> Seq<Seq<char>> {
    let dot = last_index_of(identifier, '.');
    if dot < 0 {
        seq![identifier]
    } else {
        let head = identifier.take(dot);
        seq![head.skip(last_index_of(head, '.') + 1), identifier.skip(dot + 1)]
    }
}

/// Where no dot follows, the last dot of a path is the one before its tail.
pub proof fn lemma_last_dot(head: Seq<char>, tail: Seq<char>)
    requires
        forall|i: int| 0 <= i < tail.len() ==> tail[i] != '.',
    ensures
        last_index_of(head + seq!['.'] + tail, '.') == head.len(),
    decreases tail.len(),
{
    let path = head + seq!['.'] + tail;
    if tail.len() == 0 {
        assert(path.last() == '.');
    } else {
        assert(path.last() == tail.last());
        assert(path.drop_last() == head + seq!['.'] + tail.drop_last());
        lemma_last_dot(head, tail.drop_last());
    }
}

/// A path without a dot has no last dot.
pub proof fn lemma_no_dot(path: Seq<char>)
    requires
        forall|i: int| 0 <= i < path.len() ==> path[i] != '.',
    ensures
        last_index_of(path, '.') == -1,
    decreases path.len(),
{
    if path.len() > 0 {
        lemma_no_dot(path.drop_last());
    }
}

/// The table of a binding is named by the last two segments of its path,
/// and by nothing before them: of `namespace.name`, and of any path that
/// ends in `.namespace.name`, the segments are `namespace` and `name`.
pub proof fn lemma_last_two_segments(head: Seq<char>, namespace: Seq<char>, name: Seq<char>)
    requires
        forall|i: int| 0 <= i < namespace.len() ==> namespace[i] != '.',
        forall|i: int| 0 <= i < name.len() ==> name[i] != '.',
    ensures
        last_segments(namespace + seq!['.'] + name) == seq![namespace, name],
        last_segments(head + seq!['.'] + namespace + seq!['.'] + name) == seq![namespace, name],
{
    let short = namespace + seq!['.'] + name;
    lemma_last_dot(namespace, name);
    lemma_no_dot(namespace);
    assert(short.take(namespace.len() as int) == namespace);
    assert(short.skip(namespace.len() as int + 1) == name);
    assert(namespace.skip(0) == namespace);
    let front = head + seq!['.'] + namespace;
    let long = front + seq!['.'] + name;
    lemma_last_dot(front, name);
    lemma_last_dot(head, namespace);
    assert(long.take(front.len() as int) == front);
    assert(long.skip(front.len() as int + 1) == name);
    assert(front.skip(head.len() as int + 1) == namespace);
}

/// The last two segments of a dotted path.
pub fn table_identifier(identifier: &str) -> (r: Vec<String>)
    ensures
        names_model(r@) == last_segments(identifier@),
{
    let chars = chars_of(identifier);
    let n = chars.len();
    let mut segments: Vec<String> = Vec::new();
    proof {
        assert(chars@.take(n as int) == identifier@);
        crate::text::lemma_last_index_of(identifier@, '.');
    }
    match find_last(&chars, n, '.') {
        None => {
            segments.push(string_of(&chars, 0, n));
            proof {
                assert(chars@.subrange(0, n as int) == identifier@);
                assert(names_model(segments@) == seq![identifier@]);
            }
        },
        Some(dot) => {
            let ghost head = identifier@.take(dot as int);
            proof {
                assert(chars@.take(dot as int) == head);
                crate::text::lemma_last_index_of(head, '.');
            }
            let start = match find_last(&chars, dot, '.') {
                Some(before) => before + 1,
                None => 0,
            };
            segments.push(string_of(&chars, start, dot));
            segments.push(string_of(&chars, dot + 1, n));
            proof {
                assert(chars@.subrange(start as int, dot as int) == head.skip(start as int));
                assert(chars@.subrange(dot + 1, n as int) == identifier@.skip(dot + 1));
                assert(names_model(segments@) == seq![
                    head.skip(start as int),
                    identifier@.skip(dot + 1),
                ]);
            }
        },
    }
    segments
}

/// `iceberg_rust_spec`'s name of a table, of which nothing is seen from here.
#[verifier::external_type_specification]
#[verifier::external_body]
pub struct ExIdentifier(iceberg_rust_spec::identifier::Identifier);

/// The namespace that an `Identifier` holds, level by level.
pub uninterp spec fn identifier_namespace(
    identifier: iceberg_rust_spec::identifier::Identifier,
) -> Seq<Seq<char>>;

/// The name of the table that an `Identifier` holds.
pub uninterp spec fn identifier_name(
    identifier: iceberg_rust_spec::identifier::Identifier,
) -> Seq<char>;

/// `Identifier::try_new`, without a default namespace: the last of the
/// names is the table's and must not be empty, the names before it are the
/// namespace, of which there must be one at least.
#[verifier::external_body]
fn try_identifier(names: &Vec<String>) -> (r: Result<
    iceberg_rust_spec::identifier::Identifier,
    iceberg_rust_spec::error::Error,
>)
    ensures
        r is Ok == (names@.len() >= 2 && names@.last()@.len() > 0),
        r is Ok ==> identifier_namespace(r.unwrap()) == names_model(names@).drop_last()
            && identifier_name(r.unwrap()) == names@.last()@,
{
    iceberg_rust_spec::identifier::Identifier::try_new(names, None)
}

/// Whether a dotted path names a table: it has a dot, and something after
/// its last dot.
pub open spec fn names_table(identifier: Seq<char>) -> bool {
    0 <= last_index_of(identifier, '.') < identifier.len() - 1
}

/// The table that a stream with the binding `identifier` lands in: the
/// last segment is its name, the one before is its namespace.
pub fn resolve_table(identifier: &str) -> (r: Result<
    iceberg_rust_spec::identifier::Identifier,
    SingerIcebergError,
>)
    ensures
        match r {
            Ok(table) => {
                &&& names_table(identifier@)
                &&& identifier_namespace(table) == seq![last_segments(identifier@)[0]]
                &&& identifier_name(table) == last_segments(identifier@)[1]
            },
            Err(e) => !names_table(identifier@) && e is IcebergSpec,
        },
{
    let names = table_identifier(identifier);
    proof {
        crate::text::lemma_last_index_of(identifier@, '.');
        let segments = names_model(names@);
        assert(segments.len() == names@.len());
        assert(segments.last() == names@.last()@);
        if segments.len() == 2 {
            assert(segments.drop_last() == seq![segments[0]]);
        }
    }
    match try_identifier(&names) {
        Ok(table) => Ok(table),
        Err(e) => Err(SingerIcebergError::IcebergSpec(e)),
    }
}

/// Where a new table is placed: under the bucket, without the slashes at
/// its end, follows a slash and the stream's binding with a slash for every dot.
pub open spec fn location_of(bucket: Option<Seq<char>>, identifier: Seq<char>) -> Seq<char> {
    let root = match bucket {
        Some(text) => text,
        None => Seq::empty(),
    };
    trim_end_char(root, '/') + seq!['/'] + replace_char(
        identifier,
        '.',
        '/',
    )
}

/// Where a new table is placed.
pub fn base_location(bucket: Option<&str>, identifier: &str) -> (r: String)
    ensures
        r@ == location_of(
            match bucket {
                Some(text) => Some(text@),
                None => None,
            },
            identifier@,
        ),
{
    let root = match bucket {
        Some(text) => chars_of(text),
        None => Vec::new(),
    };
    let mut end: usize = root.len();
    proof {
        assert(root@.take(end as int) == root@);
    }
    while end > 0 && root[end - 1] == '/'
        invariant
            end <= root@.len(),
            trim_end_char(root@, '/') == trim_end_char(
                root@.take(end as int),
                '/',
            ),
        decreases end,
    {
        proof {
            assert(root@.take(end as int).drop_last() == root@.take(end - 1));
        }
        end -= 1;
    }
    let mut out = string_of(&root, 0, end);
    proof {
        assert(root@.subrange(0, end as int) == root@.take(end as int));
        assert(trim_end_char(root@.take(end as int), '/') == root@.take(end as int));
    }
    out.push('/');
    let ghost head = out@;
    let path = chars_of(identifier);
    let mut i: usize = 0;
    while i < path.len()
        invariant
            i <= path@.len(),
            out@ == head + replace_char(path@.take(i as int), '.', '/'),
        decreases path@.len() - i,
    {
        let c = if path[i] == '.' {
            '/'
        } else {
            path[i]
        };
        proof {
            assert(path@.take(i + 1) == path@.take(i as int).push(path@[i as int]));
            assert(replace_char(path@.take(i as int).push(path@[i as int]), '.', '/')
                == replace_char(path@.take(i as int), '.', '/').push(c));
        }
        out.push(c);
        i += 1;
    }
    proof {
        assert(path@.take(i as int) == path@);
    }
    out
}

/// How the values of a column are turned into the values of a partition.
#[derive(Clone, Copy, Debug, PartialEq, Eq, Structural)]
pub enum Transform {
    Identity,
    Bucket(u32),
    Truncate(u32),
    Year,
    Month,
    Day,
    Hour,
    Void,
}

/// The transform that `iceberg_rust_spec` reads from a JSON text, or `None`
/// where it reads none.
pub uninterp spec fn parsed_transform(text: Seq<char>) -> Option<Transform>;

/// `serde_json::from_str`, on `iceberg_rust_spec`'s `Transform`. The
/// contract names what it reads and says nothing more of it.
#[verifier::external_body]
fn parse_transform(text: &str) -> (r: Result<Transform, serde_json::Error>)
    ensures
        match r {
            Ok(transform) => parsed_transform(text@) == Some(transform),
            Err(_) => parsed_transform(text@) is None,
        },
{
    Ok(
        match serde_json::from_str::<iceberg_rust_spec::partition::Transform>(text)? {
            iceberg_rust_spec::partition::Transform::Identity => Transform::Identity,
            iceberg_rust_spec::partition::Transform::Bucket(n) => Transform::Bucket(n),
            iceberg_rust_spec::partition::Transform::Truncate(n) => Transform::Truncate(n),
            iceberg_rust_spec::partition::Transform::Year => Transform::Year,
            iceberg_rust_spec::partition::Transform::Month => Transform::Month,
            iceberg_rust_spec::partition::Transform::Day => Transform::Day,
            iceberg_rust_spec::partition::Transform::Hour => Transform::Hour,
            iceberg_rust_spec::partition::Transform::Void => Transform::Void,
        },
    )
}

/// One field of a table's partition spec.
#[derive(Debug, PartialEq, Eq)]
pub struct PartitionField {
    /// The id of the column that is partitioned by.
    pub source_id: i32,
    /// The id of the partition field.
    pub field_id: i32,
    /// The name of the column, which is the name of the partition field too.
    pub name: String,
    pub transform: Transform,
}

/// The mathematical value of a [`PartitionField`].
pub struct PartitionFieldModel {
    pub source_id: i32,
    pub field_id: i32,
    pub name: Seq<char>,
    pub transform: Transform,
}

impl View for PartitionField {
    type V = PartitionFieldModel;

    open spec fn view(&self) -> PartitionFieldModel {
        PartitionFieldModel {
            source_id: self.source_id,
            field_id: self.field_id,
            name: self.name@,
            transform: self.transform,
        }
    }
}

/// The value of each of `fields`.
pub open spec fn partition_model(fields: Seq<PartitionField>) -> Seq<PartitionFieldModel> {
    fields.map_values(|f: PartitionField| f@)
}

/// The name and the id of each column of a table's schema.
pub open spec fn columns_model(columns: Seq<(String, i32)>) -> Seq<(Seq<char>, i32)> {
    columns.map_values(|c: (String, i32)| (c.0@, c.1))
}

/// The names of `columns`.
pub open spec fn column_names(columns: Seq<(Seq<char>, i32)>) -> Seq<Seq<char>> {
    columns.map_values(|c: (Seq<char>, i32)| c.0)
}

/// Why a table cannot be partitioned as the configuration asks.
pub enum PlanFailure {
    /// The schema has no column of this name.
    MissingColumn(Seq<char>),
    /// The text of a transform is none.
    BadTransform,
}

/// The partition field for the `index`-th column to partition by: its id
/// is 1000 more than `index`, its source is the first column of that name.
pub open spec fn partition_field(
    index: int,
    column: Seq<char>,
    transform: Seq<char>,
    columns: Seq<(Seq<char>, i32)>,
) -> Result<PartitionFieldModel, PlanFailure> {
    let at = key_position(column_names(columns), column);
    if at >= columns.len() {
        Err(PlanFailure::MissingColumn(column))
    } else {
        match parsed_transform(transform) {
            None => Err(PlanFailure::BadTransform),
            Some(parsed) => Ok(
                PartitionFieldModel {
                    source_id: columns[at].1,
                    field_id: (1000 + index) as i32,
                    name: column,
                    transform: parsed,
                },
            ),
        }
    }
}

/// The partition spec for the columns `partition_by`, each with the JSON
/// text of its transform, over a schema with the columns `columns`. The
/// first column that cannot be planned decides the failure.
pub open spec fn partition_plan(
    partition_by: Seq<(Seq<char>, Seq<char>)>,
    columns: Seq<(Seq<char>, i32)>,
) -> Result<Seq<PartitionFieldModel>, PlanFailure>
    decreases partition_by.len(),
{
    if partition_by.len() == 0 {
        Ok(Seq::empty())
    } else {
        match partition_plan(partition_by.drop_last(), columns) {
            Err(failure) => Err(failure),
            Ok(before) => match partition_field(
                partition_by.len() - 1,
                partition_by.last().0,
                partition_by.last().1,
                columns,
            ) {
                Ok(field) => Ok(before.push(field)),
                Err(failure) => Err(failure),
            },
        }
    }
}

/// The position of the first of `columns` named `name`, if any.
fn find_column(columns: &Vec<(String, i32)>, name: &str) -> (r: Option<usize>)
    ensures
        match r {
            Some(i) => i < columns@.len() && i == key_position(
                column_names(columns_model(columns@)),
                name@,
            ),
            None => key_position(column_names(columns_model(columns@)), name@) == columns@.len(),
        },
{
    let ghost keys = column_names(columns_model(columns@));
    let mut i: usize = 0;
    assert(keys.skip(0) == keys);
    while i < columns.len()
        invariant
            i <= columns@.len(),
            keys == column_names(columns_model(columns@)),
            key_position(keys, name@) == i + key_position(keys.skip(i as int), name@),
        decreases columns@.len() - i,
    {
        proof {
            assert(keys.skip(i as int).drop_first() == keys.skip(i + 1));
            assert(keys.skip(i as int)[0] == keys[i as int]);
        }
        if str_eq(columns[i].0.as_str(), name) {
            return Some(i);
        }
        i += 1;
    }
    None
}

/// A failure among the first `n` columns is the failure of the whole plan.
proof fn lemma_failure_stays(
    partition_by: Seq<(Seq<char>, Seq<char>)>,
    columns: Seq<(Seq<char>, i32)>,
    n: int,
)
    requires
        0 <= n <= partition_by.len(),
        partition_plan(partition_by.take(n), columns) is Err,
    ensures
        partition_plan(partition_by, columns) == partition_plan(partition_by.take(n), columns),
    decreases partition_by.len() - n,
{
    if n < partition_by.len() {
        assert(partition_by.take(n + 1).drop_last() == partition_by.take(n));
        lemma_failure_stays(partition_by, columns, n + 1);
    } else {
        assert(partition_by.take(n) == partition_by);
    }
}

/// Plans the partition spec of a new table.
///
/// `partition_by` names the columns to partition by, each with the JSON
/// text of its transform; `columns` are the columns of the table's schema,
/// each with its id.
pub fn partition_fields(partition_by: &Vec<(String, String)>, columns: &Vec<(String, i32)>) -> (r:
    Result<Vec<PartitionField>, SingerIcebergError>)
    requires
        partition_by@.len() <= i32::MAX - 1000,
    ensures
        match r {
            Ok(fields) => partition_plan(
                pairs_model(partition_by@),
                columns_model(columns@),
            ) == Ok::<Seq<PartitionFieldModel>, PlanFailure>(partition_model(fields@)),
            Err(e) => match partition_plan(
                pairs_model(partition_by@),
                columns_model(columns@),
            ) {
                Ok(_) => false,
                Err(PlanFailure::MissingColumn(column)) => e matches SingerIcebergError::FieldNotFound(
                    name,
                ) && name@ == column,
                Err(PlanFailure::BadTransform) => e is Serde,
            },
        },
{
    let ghost wanted = pairs_model(partition_by@);
    let ghost schema = columns_model(columns@);
    let mut fields: Vec<PartitionField> = Vec::new();
    let mut i: usize = 0;
    assert(partition_model(fields@) == Seq::<PartitionFieldModel>::empty());
    while i < partition_by.len()
        invariant
            i <= partition_by@.len() <= i32::MAX - 1000,
            wanted == pairs_model(partition_by@),
            schema == columns_model(columns@),
            partition_plan(wanted.take(i as int), schema) == Ok::<
                Seq<PartitionFieldModel>,
                PlanFailure,
            >(partition_model(fields@)),
        decreases partition_by@.len() - i,
    {
        let column = &partition_by[i].0;
        proof {
            assert(wanted.take(i + 1).drop_last() == wanted.take(i as int));
            assert(wanted.take(i + 1).last() == (partition_by@[i as int].0@, partition_by@[i as int].1@));
            assert(partition_plan(wanted.take(i + 1), schema) == match partition_field(
                i as int,
                column@,
                partition_by@[i as int].1@,
                schema,
            ) {
                Ok(field) => Ok::<Seq<PartitionFieldModel>, PlanFailure>(
                    partition_model(fields@).push(field),
                ),
                Err(failure) => Err(failure),
            });
        }
        let at = match find_column(columns, column.as_str()) {
            Some(at) => at,
            None => {
                proof {
                    lemma_failure_stays(wanted, schema, i + 1);
                }
                return Err(SingerIcebergError::FieldNotFound(column.clone()));
            },
        };
        let transform = match parse_transform(partition_by[i].1.as_str()) {
            Ok(transform) => transform,
            Err(e) => {
                proof {
                    lemma_failure_stays(wanted, schema, i + 1);
                }
                return Err(SingerIcebergError::Serde(e));
            },
        };
        let field = PartitionField {
            source_id: columns[at].1,
            field_id: 1000 + (i as i32),
            name: column.clone(),
            transform,
        };
        proof {
            assert(partition_model(fields@.push(field)) == partition_model(fields@).push(field@));
        }
        fields.push(field);
        i += 1;
    }
    proof {
        assert(wanted.take(i as int) == wanted);
    }
    Ok(fields)
}

} // verus!
