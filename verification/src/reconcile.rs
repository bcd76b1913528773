//! Making incoming records fit the columns of the table they land in.
//!
//! Where a column of the table has another type than the schema of the
//! stream gives it, the field is converted in every record before the records
//! are batched. Two conversions exist, both from an RFC 3339 text: to a date
//! and to a timestamp.

use crate::error::SingerIcebergError;
use crate::json::{entries_model, find_entry, number_of, Json, JsonModel};
use crate::schema::{fields_model, DataType, Field, FieldModel, TimeUnit};
use crate::text::{key_position, str_eq};
use vstd::prelude::*;

verus! {

/// The names of `fields`.
pub open spec fn field_names(fields: Seq<FieldModel>) -> Seq<Seq<char>> {
    fields.map_values(|f: FieldModel| f.name)
}

/// The position of the first of `fields` named `name`, or the number of
/// fields where none is.
pub open spec fn field_position(fields: Seq<FieldModel>, name: Seq<char>) -> int {
    key_position(field_names(fields), name)
}

/// Whether `fields` has a field named `name`.
pub open spec fn has_field(fields: Seq<FieldModel>, name: Seq<char>) -> bool {
    field_position(fields, name) < fields.len()
}

/// The type of the field named `name`.
pub open spec fn type_of(fields: Seq<FieldModel>, name: Seq<char>) -> DataType
    recommends
        has_field(fields, name),
{
    fields[field_position(fields, name)].data_type
}

/// Whether a field of type `incoming` has to be converted for a column of
/// type `table`. A type that the library cannot tell from others never fits.
pub open spec fn differs(incoming: DataType, table: DataType) -> bool {
    incoming != table || incoming is Other
}

/// Whether one of `conversions` is for the field `name`.
pub open spec fn converts(conversions: Seq<(Seq<char>, DataType)>, name: Seq<char>) -> bool {
    exists|i: int| 0 <= i < conversions.len() && #[trigger] conversions[i].0 == name
}

/// The conversions that records of the schema `incoming` need for a table
/// with the columns `table`: for each field that both have and whose types
/// differ, the type of the column. The fields come in the order of
/// `incoming`, each once.
pub open spec fn reconciliation(incoming: Seq<FieldModel>, table: Seq<FieldModel>) -> Seq<
    (Seq<char>, DataType),
>
    decreases incoming.len(),
{
    if incoming.len() == 0 {
        Seq::empty()
    } else {
        let before = reconciliation(incoming.drop_last(), table);
        let field = incoming.last();
        if has_field(table, field.name) && differs(field.data_type, type_of(table, field.name))
            && !converts(before, field.name) {
            before.push((field.name, type_of(table, field.name)))
        } else {
            before
        }
    }
}

/// What the conversions are: each is for a field that the records and the
/// table both have, of another type in the table, and gives the table's
/// type; every such field has its conversion; no field has two.
pub proof fn lemma_reconciliation(incoming: Seq<FieldModel>, table: Seq<FieldModel>)
    ensures
        forall|i: int|
            #![trigger reconciliation(incoming, table)[i]]
            0 <= i < reconciliation(incoming, table).len() ==> {
                let conversion = reconciliation(incoming, table)[i];
                &&& has_field(table, conversion.0)
                &&& conversion.1 == type_of(table, conversion.0)
                &&& exists|k: int|
                    0 <= k < incoming.len() && (#[trigger] incoming[k]).name == conversion.0
                        && differs(incoming[k].data_type, conversion.1)
            },
        forall|k: int|
            0 <= k < incoming.len() && has_field(table, (#[trigger] incoming[k]).name) && differs(
                incoming[k].data_type,
                type_of(table, incoming[k].name),
            ) ==> converts(reconciliation(incoming, table), incoming[k].name),
        forall|i: int, j: int|
            0 <= i < j < reconciliation(incoming, table).len() ==> (#[trigger] reconciliation(
                incoming,
                table,
            )[i]).0 != (#[trigger] reconciliation(incoming, table)[j]).0,
    decreases incoming.len(),
{
    if incoming.len() > 0 {
        let front = incoming.drop_last();
        let before = reconciliation(front, table);
        let after = reconciliation(incoming, table);
        let field = incoming.last();
        lemma_reconciliation(front, table);
        assert forall|i: int| 0 <= i < before.len() implies after[i] == before[i] by {}
        assert forall|i: int| #![trigger after[i]] 0 <= i < after.len() implies {
            let conversion = after[i];
            &&& has_field(table, conversion.0)
            &&& conversion.1 == type_of(table, conversion.0)
            &&& exists|k: int|
                0 <= k < incoming.len() && (#[trigger] incoming[k]).name == conversion.0
                    && differs(incoming[k].data_type, conversion.1)
        } by {
            if i < before.len() {
                let conversion = before[i];
                let k = choose|k: int|
                    0 <= k < front.len() && (#[trigger] front[k]).name == conversion.0 && differs(
                        front[k].data_type,
                        conversion.1,
                    );
                assert(incoming[k] == front[k]);
            } else {
                assert(incoming[incoming.len() - 1] == field);
            }
        }
        assert forall|k: int|
            0 <= k < incoming.len() && has_field(table, (#[trigger] incoming[k]).name) && differs(
                incoming[k].data_type,
                type_of(table, incoming[k].name),
            ) implies converts(after, incoming[k].name) by {
            if k < front.len() {
                assert(incoming[k] == front[k]);
                let i = choose|i: int|
                    0 <= i < before.len() && #[trigger] before[i].0 == front[k].name;
                assert(after[i].0 == incoming[k].name);
            } else if converts(before, field.name) {
                let i = choose|i: int| 0 <= i < before.len() && #[trigger] before[i].0 == field.name;
                assert(after[i].0 == incoming[k].name);
            } else {
                assert(after[after.len() - 1].0 == incoming[k].name);
            }
        }
        assert forall|i: int, j: int| 0 <= i < j < after.len() implies (#[trigger] after[i]).0 != (
        #[trigger] after[j]).0 by {
            if j == before.len() {
                assert(before[i].0 != field.name);
            }
        }
    }
}

/// The type in which a converted column is batched: dates as 32-bit
/// integers, timestamps as 64-bit integers. Any other type stays.
pub open spec fn batched_type(target: DataType) -> DataType {
    match target {
        DataType::Date32 => DataType::Int32,
        DataType::Timestamp(_) => DataType::Int64,
        other => other,
    }
}

/// The columns under which records are batched: those of the table, with
/// the type of each converted column rewritten to the integers that the
/// conversion produces.
pub open spec fn intermediate(table: Seq<FieldModel>, conversions: Seq<(Seq<char>, DataType)>)
    -> Seq<FieldModel> {
    table.map_values(
        |f: FieldModel|
            if converts(conversions, f.name) {
                FieldModel {
                    name: f.name,
                    data_type: batched_type(f.data_type),
                    nullable: f.nullable,
                }
            } else {
                f
            },
    )
}

/// The name and the type of each of `conversions`.
pub open spec fn conversions_model(conversions: Seq<(String, DataType)>) -> Seq<
    (Seq<char>, DataType),
> {
    conversions.map_values(|c: (String, DataType)| (c.0@, c.1))
}

/// The position of the first of `fields` named `name`, if any.
fn find_field(fields: &Vec<Field>, name: &str) -> (r: Option<usize>)
    ensures
        match r {
            Some(i) => i < fields@.len() && i == field_position(fields_model(fields@), name@),
            None => !has_field(fields_model(fields@), name@),
        },
{
    let ghost names = field_names(fields_model(fields@));
    let mut i: usize = 0;
    assert(names.skip(0) == names);
    while i < fields.len()
        invariant
            i <= fields@.len(),
            names == field_names(fields_model(fields@)),
            key_position(names, name@) == i + key_position(names.skip(i as int), name@),
        decreases fields@.len() - i,
    {
        proof {
            assert(names.skip(i as int).drop_first() == names.skip(i + 1));
            assert(names.skip(i as int)[0] == names[i as int]);
        }
        if str_eq(fields[i].name.as_str(), name) {
            return Some(i);
        }
        i += 1;
    }
    None
}

/// Whether one of `conversions` is for the field `name`.
fn is_converted(conversions: &Vec<(String, DataType)>, name: &str) -> (r: bool)
    ensures
        r == converts(conversions_model(conversions@), name@),
{
    let ghost model = conversions_model(conversions@);
    let mut i: usize = 0;
    while i < conversions.len()
        invariant
            i <= conversions@.len(),
            model == conversions_model(conversions@),
            forall|k: int| 0 <= k < i ==> model[k].0 != name@,
        decreases conversions@.len() - i,
    {
        if str_eq(conversions[i].0.as_str(), name) {
            assert(model[i as int].0 == name@);
            return true;
        }
        i += 1;
    }
    false
}

fn type_differs(incoming: &DataType, table: &DataType) -> (r: bool)
    ensures
        r == differs(*incoming, *table),
{
    match incoming {
        DataType::Other => true,
        _ => *incoming != *table,
    }
}

/// Works out which fields of incoming records have to be converted.
pub fn reconciliation_map(incoming: &Vec<Field>, table: &Vec<Field>) -> (r: Vec<
    (String, DataType),
>)
    ensures
        conversions_model(r@) == reconciliation(fields_model(incoming@), fields_model(table@)),
{
    let ghost source = fields_model(incoming@);
    let ghost columns = fields_model(table@);
    let mut out: Vec<(String, DataType)> = Vec::new();
    let mut i: usize = 0;
    assert(conversions_model(out@) == Seq::<(Seq<char>, DataType)>::empty());
    while i < incoming.len()
        invariant
            i <= incoming@.len(),
            source == fields_model(incoming@),
            columns == fields_model(table@),
            conversions_model(out@) == reconciliation(source.take(i as int), columns),
        decreases incoming@.len() - i,
    {
        let field = &incoming[i];
        proof {
            assert(source.take(i + 1).drop_last() == source.take(i as int));
            assert(source.take(i + 1).last() == field@);
        }
        match find_field(table, field.name.as_str()) {
            Some(at) => {
                let target = table[at].data_type;
                if type_differs(&field.data_type, &target) && !is_converted(
                    &out,
                    field.name.as_str(),
                ) {
                    let entry = (field.name.clone(), target);
                    proof {
                        assert(conversions_model(out@.push(entry)) == conversions_model(
                            out@,
                        ).push((entry.0@, entry.1)));
                    }
                    out.push(entry);
                }
            },
            None => {},
        }
        i += 1;
    }
    proof {
        assert(source.take(i as int) == source);
    }
    out
}

/// The columns under which records are batched.
pub fn intermediate_schema(table: &Vec<Field>, conversions: &Vec<(String, DataType)>) -> (r: Vec<
    Field,
>)
    ensures
        fields_model(r@) == intermediate(fields_model(table@), conversions_model(conversions@)),
{
    let ghost columns = fields_model(table@);
    let ghost model = conversions_model(conversions@);
    let mut out: Vec<Field> = Vec::new();
    let mut i: usize = 0;
    while i < table.len()
        invariant
            i <= table@.len(),
            columns == fields_model(table@),
            model == conversions_model(conversions@),
            fields_model(out@) == intermediate(columns.take(i as int), model),
        decreases table@.len() - i,
    {
        let column = &table[i];
        let data_type = if is_converted(conversions, column.name.as_str()) {
            match column.data_type {
                DataType::Date32 => DataType::Int32,
                DataType::Timestamp(_) => DataType::Int64,
                other => other,
            }
        } else {
            column.data_type
        };
        let field = Field { name: column.name.clone(), data_type, nullable: column.nullable };
        proof {
            assert(columns.take(i + 1) == columns.take(i as int).push(columns[i as int]));
            assert(fields_model(out@.push(field)) == fields_model(out@).push(field@));
            assert(intermediate(columns.take(i as int).push(columns[i as int]), model)
                == intermediate(columns.take(i as int), model).push(field@));
        }
        out.push(field);
        i += 1;
    }
    proof {
        assert(columns.take(i as int) == columns);
    }
    out
}

/// The instant that `chrono` reads from an RFC 3339 text: the seconds since
/// 1970-01-01T00:00:00Z and the microseconds since the last full second. `None`
/// where it reads none.
pub uninterp spec fn rfc3339_instant(text: Seq<char>) -> Option<(i64, u32)>;

/// The day on which an instant falls, counted from 1970-01-01.
pub open spec fn days_of(seconds: int) -> int {
    seconds / 86_400
}

/// The microseconds from 1970-01-01T00:00:00Z to an instant.
pub open spec fn micros_of(seconds: int, micros: int) -> int {
    seconds * 1_000_000 + micros
}

/// Why a field is not converted.
pub enum Refusal {
    /// The text is no RFC 3339 date and time.
    NotATime,
    /// The value is no text, the column's type is none that a text is
    /// converted to, or the result does not fit the column.
    Unsupported,
}

/// The number that stands for an instant in a column of type `target`.
pub open spec fn instant_in(seconds: i64, micros: u32, target: DataType) -> Option<i64> {
    match target {
        DataType::Date32 => if i32::MIN <= days_of(seconds as int) <= i32::MAX {
            Some(days_of(seconds as int) as i64)
        } else {
            None
        },
        DataType::Timestamp(TimeUnit::Microsecond) => if i64::MIN <= micros_of(
            seconds as int,
            micros as int,
        ) <= i64::MAX {
            Some(micros_of(seconds as int, micros as int) as i64)
        } else {
            None
        },
        _ => None,
    }
}

/// Whether texts are converted to columns of type `target`.
pub open spec fn is_temporal(target: DataType) -> bool {
    target == DataType::Date32 || target == DataType::Timestamp(TimeUnit::Microsecond)
}

/// What a value becomes in a column of type `target`.
pub open spec fn converted(value: JsonModel, target: DataType) -> Result<JsonModel, Refusal> {
    match value {
        JsonModel::Str(text) => if is_temporal(target) {
            match rfc3339_instant(text) {
                None => Err(Refusal::NotATime),
                Some((seconds, micros)) => match instant_in(seconds, micros, target) {
                    Some(number) => Ok(JsonModel::Number(number_of(number))),
                    None => Err(Refusal::Unsupported),
                },
            }
        } else {
            Err(Refusal::Unsupported)
        },
        _ => Err(Refusal::Unsupported),
    }
}

/// `chrono::DateTime::parse_from_rfc3339`, with the instant read out by
/// `timestamp` and `timestamp_subsec_micros`. The contract names the result
/// and says nothing more of it.
#[verifier::external_body]
fn parse_rfc3339(text: &str) -> (r: Result<(i64, u32), chrono::ParseError>)
    ensures
        match r {
            Ok(instant) => rfc3339_instant(text@) == Some(instant),
            Err(_) => rfc3339_instant(text@) is None,
        },
{
    let parsed = chrono::DateTime::parse_from_rfc3339(text)?;
    Ok((parsed.timestamp(), parsed.timestamp_subsec_micros()))
}

/// The day on which an instant falls, counted from 1970-01-01.
pub fn day_number(seconds: i64) -> (r: i64)
    ensures
        r == days_of(seconds as int),
{
    if seconds >= 0 {
        seconds / 86_400
    } else {
        let back: i64 = -(seconds + 1);
        -(back / 86_400) - 1
    }
}

/// The number that stands for an instant in a column of type `target`:
/// the day for a date, the microseconds for a timestamp in microseconds.
/// Fails where the column has another type or the number does not fit it.
pub fn convert_instant(seconds: i64, micros: u32, target: &DataType) -> (r: Result<
    i64,
    SingerIcebergError,
>)
    ensures
        match r {
            Ok(number) => instant_in(seconds, micros, *target) == Some(number),
            Err(e) => instant_in(seconds, micros, *target) is None && e is SchemaValidation,
        },
{
    match target {
        DataType::Date32 => {
            let days = day_number(seconds);
            if -2147483648 <= days && days <= 2147483647 {
                Ok(days)
            } else {
                Err(SingerIcebergError::SchemaValidation(None))
            }
        },
        DataType::Timestamp(TimeUnit::Microsecond) => {
            // The seconds alone may leave 64 bits where the instant does not.
            let total: i128 = (seconds as i128) * 1_000_000 + (micros as i128);
            if -9_223_372_036_854_775_808 <= total && total <= 9_223_372_036_854_775_807 {
                Ok(total as i64)
            } else {
                Err(SingerIcebergError::SchemaValidation(None))
            }
        },
        _ => Err(SingerIcebergError::SchemaValidation(None)),
    }
}

fn temporal(target: &DataType) -> (r: bool)
    ensures
        r == is_temporal(*target),
{
    match target {
        DataType::Date32 => true,
        DataType::Timestamp(TimeUnit::Microsecond) => true,
        _ => false,
    }
}

/// Converts one value for a column of type `target`. Only a text is
/// converted, and only to a date or to a timestamp in microseconds.
pub fn convert_value(value: &Json, target: &DataType) -> (r: Result<Json, SingerIcebergError>)
    ensures
        match r {
            Ok(number) => converted(value@, *target) == Ok::<JsonModel, Refusal>(number@),
            Err(e) => match converted(value@, *target) {
                Ok(_) => false,
                Err(Refusal::NotATime) => e is Chrono,
                Err(Refusal::Unsupported) => e is SchemaValidation,
            },
        },
{
    match value {
        Json::Str(text) => {
            if !temporal(target) {
                return Err(SingerIcebergError::SchemaValidation(None));
            }
            match parse_rfc3339(text.as_str()) {
                Err(e) => Err(SingerIcebergError::Chrono(e)),
                Ok((seconds, micros)) => {
                    let number = convert_instant(seconds, micros, target)?;
                    Ok(Json::integer(number))
                },
            }
        },
        _ => Err(SingerIcebergError::SchemaValidation(None)),
    }
}

/// `record` with the value of its field `name` converted for a column of
/// type `target`. A record without that field stays as it is.
pub open spec fn converted_field(record: JsonModel, name: Seq<char>, target: DataType) -> Result<
    JsonModel,
    Refusal,
> {
    if record.has(name) {
        let at = crate::json::entry_position(record.entries(), name);
        match converted(record.member(name), target) {
            Ok(value) => Ok(JsonModel::Object(record.entries().update(at, (name, value)))),
            Err(refusal) => Err(refusal),
        }
    } else {
        Ok(record)
    }
}

/// `record` after each of `conversions` in turn; the first refusal ends it.
pub open spec fn reconciled(record: JsonModel, conversions: Seq<(Seq<char>, DataType)>) -> Result<
    JsonModel,
    Refusal,
>
    decreases conversions.len(),
{
    if conversions.len() == 0 {
        Ok(record)
    } else {
        match reconciled(record, conversions.drop_last()) {
            Ok(before) => converted_field(before, conversions.last().0, conversions.last().1),
            Err(refusal) => Err(refusal),
        }
    }
}

/// Converts the field `name` of a record for a column of type `target`.
fn convert_field(record: Json, name: &str, target: &DataType) -> (r: Result<
    Json,
    SingerIcebergError,
>)
    ensures
        match r {
            Ok(after) => converted_field(record@, name@, *target) == Ok::<JsonModel, Refusal>(
                after@,
            ),
            Err(e) => match converted_field(record@, name@, *target) {
                Ok(_) => false,
                Err(Refusal::NotATime) => e is Chrono,
                Err(Refusal::Unsupported) => e is SchemaValidation,
            },
        },
{
    match record {
        Json::Object(entries) => {
            let mut entries = entries;
            let ghost before = entries_model(entries@);
            match find_entry(&entries, name) {
                Some(at) => {
                    proof {
                        crate::text::lemma_key_position(crate::json::entry_keys(before), name@);
                    }
                    let value = convert_value(&entries[at].1, target)?;
                    let key = entries[at].0.clone();
                    let ghost value_model = value@;
                    entries.set(at, (key, value));
                    proof {
                        assert(entries_model(entries@) == before.update(
                            at as int,
                            (name@, value_model),
                        ));
                    }
                    Ok(Json::Object(entries))
                },
                None => Ok(Json::Object(entries)),
            }
        },
        other => Ok(other),
    }
}

/// Applies the conversions to a record, field by field. A field that the
/// record lacks is passed over; the first field that cannot be converted
/// ends the work.
pub fn reconcile_record(record: Json, conversions: &Vec<(String, DataType)>) -> (r: Result<
    Json,
    SingerIcebergError,
>)
    ensures
        match r {
            Ok(after) => reconciled(record@, conversions_model(conversions@)) == Ok::<
                JsonModel,
                Refusal,
            >(after@),
            Err(e) => match reconciled(record@, conversions_model(conversions@)) {
                Ok(_) => false,
                Err(Refusal::NotATime) => e is Chrono,
                Err(Refusal::Unsupported) => e is SchemaValidation,
            },
        },
{
    let ghost start = record@;
    let ghost model = conversions_model(conversions@);
    let mut current = record;
    let mut i: usize = 0;
    while i < conversions.len()
        invariant
            i <= conversions@.len(),
            start == record@,
            model == conversions_model(conversions@),
            reconciled(start, model.take(i as int)) == Ok::<JsonModel, Refusal>(current@),
        decreases conversions@.len() - i,
    {
        proof {
            assert(model.take(i + 1).drop_last() == model.take(i as int));
            assert(model.take(i + 1).last() == model[i as int]);
            assert(model[i as int] == (conversions@[i as int].0@, conversions@[i as int].1));
            assert(reconciled(start, model.take(i + 1)) == converted_field(
                current@,
                model[i as int].0,
                model[i as int].1,
            ));
        }
        match convert_field(current, conversions[i].0.as_str(), &conversions[i].1) {
            Ok(after) => {
                current = after;
            },
            Err(e) => {
                proof {
                    lemma_refusal_stays(start, model, i + 1);
                }
                return Err(e);
            },
        }
        i += 1;
    }
    proof {
        assert(model.take(i as int) == model);
    }
    Ok(current)
}

/// A refusal among the first `n` conversions is the refusal of all of them.
proof fn lemma_refusal_stays(record: JsonModel, conversions: Seq<(Seq<char>, DataType)>, n: int)
    requires
        0 <= n <= conversions.len(),
        reconciled(record, conversions.take(n)) is Err,
    ensures
        reconciled(record, conversions) == reconciled(record, conversions.take(n)),
    decreases conversions.len() - n,
{
    if n < conversions.len() {
        assert(conversions.take(n + 1).drop_last() == conversions.take(n));
        lemma_refusal_stays(record, conversions, n + 1);
    } else {
        assert(conversions.take(n) == conversions);
    }
}

} // verus!
