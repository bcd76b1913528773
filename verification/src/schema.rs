//! From the JSON Schema of a stream to the columns of its table.

use crate::error::SingerIcebergError;
use crate::json::{entries_model, text_member, Json, JsonModel};
use crate::text::{chars_of, str_eq};
use vstd::prelude::*;

verus! {

/// A primitive type of JSON Schema.
#[derive(Clone, Copy, Debug, PartialEq, Eq, Structural)]
pub enum Primitive {
    Null,
    Boolean,
    Integer,
    Number,
    String,
}

/// The `format` of a string that holds a date or a time.
#[derive(Clone, Copy, Debug, PartialEq, Eq, Structural)]
pub enum Format {
    Date,
    Time,
    DateTime,
}

/// The shape that a JSON Schema gives to one value.
#[derive(Clone, Copy, Debug, PartialEq, Eq, Structural)]
pub enum Type {
    /// `"type": "integer"`
    Primitive(Primitive),
    /// `"type": ["integer"]`
    Single(Primitive),
    /// `"type": ["integer", "null"]`
    Variant(Primitive, Primitive),
    /// `"type": "string", "format": "date"`
    PrimitiveFormat(Format),
    /// `"type": ["string"], "format": "date"`
    SingleFormat(Format),
    /// `"type": ["null", "string"], "format": "date"`
    VariantFormat(Format),
    /// `"type": "array"`, with its `items`
    Array,
    /// `"type": "object"`, with its `properties`
    Object,
    /// Anything else.
    Empty,
}

/// The JSON Schema of a stream, as far as a table is made from it.
#[derive(Debug, PartialEq, Eq)]
pub struct JsonSchema {
    /// The shape of the root.
    pub kind: Type,
    /// The properties of a root that is an object, each with its shape, in
    /// document order.
    pub properties: Vec<(String, Type)>,
}

/// The mathematical value of a [`JsonSchema`].
pub struct JsonSchemaModel {
    pub kind: Type,
    pub properties: Seq<(Seq<char>, Type)>,
}

/// The name and the shape of each of `properties`.
pub open spec fn properties_model(properties: Seq<(String, Type)>) -> Seq<(Seq<char>, Type)> {
    properties.map_values(|p: (String, Type)| (p.0@, p.1))
}

impl View for JsonSchema {
    type V = JsonSchemaModel;

    open spec fn view(&self) -> JsonSchemaModel {
        JsonSchemaModel { kind: self.kind, properties: properties_model(self.properties@) }
    }
}

/// The unit in which a time is counted.
#[derive(Clone, Copy, Debug, PartialEq, Eq, Structural)]
pub enum TimeUnit {
    Second,
    Millisecond,
    Microsecond,
    Nanosecond,
}

/// The type of a column.
#[derive(Clone, Copy, Debug, PartialEq, Eq, Structural)]
pub enum DataType {
    Null,
    Boolean,
    Int32,
    Int64,
    Float32,
    Utf8,
    /// Days since 1970-01-01.
    Date32,
    /// Time of day, in 32 bits.
    Time32(TimeUnit),
    /// Time since 1970-01-01, without a time zone.
    Timestamp(TimeUnit),
    /// A type that no schema of a stream translates to.
    Other,
}

/// One column: its name, its type, and whether it accepts null.
#[derive(Debug, PartialEq, Eq)]
pub struct Field {
    pub name: String,
    pub data_type: DataType,
    pub nullable: bool,
}

/// The mathematical value of a [`Field`].
pub struct FieldModel {
    pub name: Seq<char>,
    pub data_type: DataType,
    pub nullable: bool,
}

impl View for Field {
    type V = FieldModel;

    open spec fn view(&self) -> FieldModel {
        FieldModel { name: self.name@, data_type: self.data_type, nullable: self.nullable }
    }
}

/// The columns that `fields` holds.
pub open spec fn fields_model(fields: Seq<Field>) -> Seq<FieldModel> {
    fields.map_values(|f: Field| f@)
}

/// Whether `c` is white space as Unicode defines it (the property `White_Space`).
pub open spec fn is_white_space(c: char) -> bool {
    let u = c as u32;
    ||| 0x09 <= u <= 0x0D
    ||| u == 0x20
    ||| u == 0x85
    ||| u == 0xA0
    ||| u == 0x1680
    ||| 0x2000 <= u <= 0x200A
    ||| u == 0x2028
    ||| u == 0x2029
    ||| u == 0x202F
    ||| u == 0x205F
    ||| u == 0x3000
}

/// What is cut from the ends of a name: double quotes where `quotes` is set,
/// white space where it is not.
pub open spec fn is_cut(quotes: bool, c: char) -> bool {
    if quotes {
        c == '"'
    } else {
        is_white_space(c)
    }
}

/// How many characters at the start of `s` are cut.
pub open spec fn leading(s: Seq<char>, quotes: bool) -> nat
    decreases s.len(),
{
    if s.len() > 0 && is_cut(quotes, s[0]) {
        1 + leading(s.drop_first(), quotes)
    } else {
        0
    }
}

/// How many characters at the end of `s` are cut.
pub open spec fn trailing(s: Seq<char>, quotes: bool) -> nat
    decreases s.len(),
{
    if s.len() > 0 && is_cut(quotes, s.last()) {
        1 + trailing(s.drop_last(), quotes)
    } else {
        0
    }
}

/// `s` without the run of cut characters at its start.
pub open spec fn cut_start(s: Seq<char>, quotes: bool) -> Seq<char> {
    s.skip(leading(s, quotes) as int)
}

/// `s` without the run of cut characters at its end.
pub open spec fn cut_end(s: Seq<char>, quotes: bool) -> Seq<char> {
    s.take(s.len() - trailing(s, quotes))
}

/// A property's name as a column is named: white space is cut from both
/// ends, then double quotes from the start, then double quotes from the end.
pub open spec fn trimmed_name(name: Seq<char>) -> Seq<char> {
    cut_end(cut_start(cut_end(cut_start(name, false), false), true), true)
}

fn cut(quotes: bool, c: char) -> (r: bool)
    ensures
        r == is_cut(quotes, c),
{
    if quotes {
        c == '"'
    } else {
        let u: u32 = c as u32;
        (0x09 <= u && u <= 0x0D) || u == 0x20 || u == 0x85 || u == 0xA0 || u == 0x1680 || (0x2000
            <= u && u <= 0x200A) || u == 0x2028 || u == 0x2029 || u == 0x202F || u == 0x205F || u
            == 0x3000
    }
}

/// The start of `chars[from..to]` once the cut characters at its start are gone.
fn skip_start(chars: &Vec<char>, from: usize, to: usize, quotes: bool) -> (r: usize)
    requires
        from <= to <= chars@.len(),
    ensures
        from <= r <= to,
        chars@.subrange(r as int, to as int) == cut_start(
            chars@.subrange(from as int, to as int),
            quotes,
        ),
{
    let ghost whole = chars@.subrange(from as int, to as int);
    let mut i: usize = from;
    while i < to && cut(quotes, chars[i])
        invariant
            from <= i <= to <= chars@.len(),
            leading(whole, quotes) == (i - from) + leading(
                chars@.subrange(i as int, to as int),
                quotes,
            ),
            whole == chars@.subrange(from as int, to as int),
        decreases to - i,
    {
        proof {
            assert(chars@.subrange(i as int, to as int).drop_first() == chars@.subrange(
                i + 1,
                to as int,
            ));
        }
        i += 1;
    }
    proof {
        assert(leading(chars@.subrange(i as int, to as int), quotes) == 0);
        assert(chars@.subrange(i as int, to as int) == whole.skip(i - from));
    }
    i
}

/// The end of `chars[from..to]` once the cut characters at its end are gone.
fn skip_end(chars: &Vec<char>, from: usize, to: usize, quotes: bool) -> (r: usize)
    requires
        from <= to <= chars@.len(),
    ensures
        from <= r <= to,
        chars@.subrange(from as int, r as int) == cut_end(
            chars@.subrange(from as int, to as int),
            quotes,
        ),
{
    let ghost whole = chars@.subrange(from as int, to as int);
    let mut j: usize = to;
    while j > from && cut(quotes, chars[j - 1])
        invariant
            from <= j <= to <= chars@.len(),
            trailing(whole, quotes) == (to - j) + trailing(
                chars@.subrange(from as int, j as int),
                quotes,
            ),
            whole == chars@.subrange(from as int, to as int),
        decreases j,
    {
        proof {
            assert(chars@.subrange(from as int, j as int).drop_last() == chars@.subrange(
                from as int,
                j - 1,
            ));
        }
        j -= 1;
    }
    proof {
        assert(trailing(chars@.subrange(from as int, j as int), quotes) == 0);
        assert(chars@.subrange(from as int, j as int) == whole.take(j - from));
    }
    j
}

/// A property's name as a column is named.
pub fn trim_name(name: &str) -> (r: &str)
    ensures
        r@ == trimmed_name(name@),
{
    let chars = chars_of(name);
    let n = chars.len();
    proof {
        assert(chars@.subrange(0, n as int) == name@);
    }
    let a = skip_start(&chars, 0, n, false);
    let b = skip_end(&chars, a, n, false);
    let c = skip_start(&chars, a, b, true);
    let d = skip_end(&chars, c, b, true);
    name.substring_char(c, d)
}

/// The type of the column that holds a primitive.
#[inline]
pub fn primitive_to_arrow(input: &Primitive) -> (r: DataType)
    ensures
        r == primitive_type(*input),
{
    match input {
        Primitive::Null => DataType::Null,
        Primitive::Boolean => DataType::Boolean,
        Primitive::Integer => DataType::Int32,
        Primitive::Number => DataType::Float32,
        Primitive::String => DataType::Utf8,
    }
}

/// The type of the column that holds a primitive.
pub open spec fn primitive_type(input: Primitive) -> DataType {
    match input {
        Primitive::Null => DataType::Null,
        Primitive::Boolean => DataType::Boolean,
        Primitive::Integer => DataType::Int32,
        Primitive::Number => DataType::Float32,
        Primitive::String => DataType::Utf8,
    }
}

/// The type of the column that holds a string of the given format.
pub open spec fn format_type(input: Format) -> DataType {
    match input {
        Format::Time => DataType::Time32(TimeUnit::Millisecond),
        Format::Date => DataType::Date32,
        Format::DateTime => DataType::Timestamp(TimeUnit::Microsecond),
    }
}

/// The type of the column that holds a string of the given format.
#[inline]
pub fn primitivedate_to_arrow(input: &Format) -> (r: DataType)
    ensures
        r == format_type(*input),
{
    match input {
        Format::Time => DataType::Time32(TimeUnit::Millisecond),
        Format::Date => DataType::Date32,
        Format::DateTime => DataType::Timestamp(TimeUnit::Microsecond),
    }
}

/// Of a pair of primitives, the one that is not null; the first where neither is.
pub open spec fn variant_primitive(first: Primitive, second: Primitive) -> Primitive {
    if second == Primitive::Null {
        first
    } else if first == Primitive::Null {
        second
    } else {
        first
    }
}

/// The type of the column for a property of the given shape.
pub open spec fn column_type(shape: Type) -> DataType {
    match shape {
        Type::Primitive(p) => primitive_type(p),
        Type::Single(p) => primitive_type(p),
        Type::Variant(first, second) => primitive_type(variant_primitive(first, second)),
        Type::PrimitiveFormat(f) => format_type(f),
        Type::SingleFormat(f) => format_type(f),
        Type::VariantFormat(f) => format_type(f),
        Type::Array => DataType::Null,
        Type::Object => DataType::Null,
        Type::Empty => DataType::Null,
    }
}

/// Whether the column for a property of the given shape accepts null.
pub open spec fn column_nullable(shape: Type) -> bool {
    match shape {
        Type::Primitive(_) => false,
        Type::Single(_) => false,
        Type::Variant(_, _) => true,
        Type::PrimitiveFormat(_) => false,
        Type::SingleFormat(_) => false,
        Type::VariantFormat(_) => true,
        Type::Array => true,
        Type::Object => true,
        Type::Empty => true,
    }
}

/// The column for one property.
pub open spec fn column_of(property: (Seq<char>, Type)) -> FieldModel {
    FieldModel {
        name: trimmed_name(property.0),
        data_type: column_type(property.1),
        nullable: column_nullable(property.1),
    }
}

/// The columns of a schema whose root is an object: one for each property,
/// in the order of the properties.
pub open spec fn columns_of(properties: Seq<(Seq<char>, Type)>) -> Seq<FieldModel> {
    properties.map_values(|p: (Seq<char>, Type)| column_of(p))
}

/// The columns that a schema translates to, or `None` where its root is no object.
pub open spec fn translation(schema: JsonSchemaModel) -> Option<Seq<FieldModel>> {
    if schema.kind is Object {
        Some(columns_of(schema.properties))
    } else {
        None
    }
}

fn column_for(name: &str, shape: &Type) -> (r: Field)
    ensures
        r.name@ == trimmed_name(name@),
        r.data_type == column_type(*shape),
        r.nullable == column_nullable(*shape),
{
    let (data_type, nullable) = match shape {
        Type::Primitive(p) => (primitive_to_arrow(p), false),
        Type::Single(p) => (primitive_to_arrow(p), false),
        Type::Variant(first, second) => {
            let value = match (first, second) {
                (prim, Primitive::Null) => prim,
                (Primitive::Null, prim) => prim,
                (first, _) => first,
            };
            (primitive_to_arrow(value), true)
        },
        Type::PrimitiveFormat(format) => (primitivedate_to_arrow(format), false),
        Type::SingleFormat(format) => (primitivedate_to_arrow(format), false),
        Type::VariantFormat(format) => (primitivedate_to_arrow(format), true),
        Type::Array => (DataType::Null, true),
        Type::Object => (DataType::Null, true),
        Type::Empty => (DataType::Null, true),
    };
    Field { name: String::from_str(trim_name(name)), data_type, nullable }
}

/// Translates the schema of a stream into the columns of its table: one
/// column for each property of the root object, in the order of the
/// properties. A schema whose root is no object has no translation.
pub fn schema_to_arrow(schema: &JsonSchema) -> (r: Result<Vec<Field>, SingerIcebergError>)
    ensures
        match r {
            Ok(fields) => translation(schema@) == Some(fields_model(fields@)),
            Err(e) => translation(schema@) is None && e is NoSchema,
        },
{
    if let Type::Object = &schema.kind {
        let properties = &schema.properties;
        let ghost model = properties_model(properties@);
        let mut fields: Vec<Field> = Vec::new();
        let mut i: usize = 0;
        while i < properties.len()
            invariant
                i <= properties@.len(),
                model == properties_model(properties@),
                fields_model(fields@) == columns_of(model.take(i as int)),
            decreases properties@.len() - i,
        {
            let field = column_for(properties[i].0.as_str(), &properties[i].1);
            proof {
                let property = model[i as int];
                assert(model.take(i + 1) == model.take(i as int).push(property));
                assert(field@ == column_of(property));
                assert(fields_model(fields@.push(field)) == fields_model(fields@).push(field@));
                assert(columns_of(model.take(i as int).push(property)) == columns_of(
                    model.take(i as int),
                ).push(column_of(property)));
            }
            fields.push(field);
            i += 1;
        }
        proof {
            assert(model.take(i as int) == model);
        }
        Ok(fields)
    } else {
        Err(SingerIcebergError::NoSchema)
    }
}

/// The primitive that `name` names, if it names one.
pub open spec fn primitive_named(name: Seq<char>) -> Option<Primitive> {
    if name == "null"@ {
        Some(Primitive::Null)
    } else if name == "boolean"@ {
        Some(Primitive::Boolean)
    } else if name == "integer"@ {
        Some(Primitive::Integer)
    } else if name == "number"@ {
        Some(Primitive::Number)
    } else if name == "string"@ {
        Some(Primitive::String)
    } else {
        None
    }
}

/// The format that `name` names, if it names one of dates and times.
pub open spec fn format_named(name: Seq<char>) -> Option<Format> {
    if name == "date"@ {
        Some(Format::Date)
    } else if name == "time"@ {
        Some(Format::Time)
    } else if name == "date-time"@ {
        Some(Format::DateTime)
    } else {
        None
    }
}

/// The format of dates and times that a schema asks for, if it asks for one.
pub open spec fn format_of(doc: JsonModel) -> Option<Format> {
    match text_member(doc, "format"@) {
        Some(name) => format_named(name),
        None => None,
    }
}

/// Whether a value of the primitive can hold a formatted string: strings and null.
pub open spec fn holds_text(p: Primitive) -> bool {
    p == Primitive::String || p == Primitive::Null
}

/// The primitive that an entry of a list of types names, if it names one.
pub open spec fn listed_primitive(item: JsonModel) -> Option<Primitive> {
    match item {
        JsonModel::Str(name) => primitive_named(name),
        _ => None,
    }
}

/// The shape that the schema `doc` gives to a value. A format of dates and
/// times counts where every type listed holds text.
pub open spec fn shape_of(doc: JsonModel) -> Type {
    let format = format_of(doc);
    if !doc.has("type"@) {
        Type::Empty
    } else {
        match doc.member("type"@) {
            JsonModel::Str(name) => match primitive_named(name) {
                Some(p) => if format is Some && holds_text(p) {
                    Type::PrimitiveFormat(format->0)
                } else {
                    Type::Primitive(p)
                },
                None => if name == "array"@ && doc.has("items"@) {
                    Type::Array
                } else if name == "object"@ && doc.has("properties"@) && doc.member(
                    "properties"@,
                ) is Object {
                    Type::Object
                } else {
                    Type::Empty
                },
            },
            JsonModel::Array(items) => if items.len() == 1 {
                match listed_primitive(items[0]) {
                    Some(p) => if format is Some && holds_text(p) {
                        Type::SingleFormat(format->0)
                    } else {
                        Type::Single(p)
                    },
                    None => Type::Empty,
                }
            } else if items.len() == 2 {
                match (listed_primitive(items[0]), listed_primitive(items[1])) {
                    (Some(first), Some(second)) => if format is Some && holds_text(first)
                        && holds_text(second) {
                        Type::VariantFormat(format->0)
                    } else {
                        Type::Variant(first, second)
                    },
                    _ => Type::Empty,
                }
            } else {
                Type::Empty
            },
            _ => Type::Empty,
        }
    }
}

/// The schema that the JSON document `doc` holds: the shape of its root and,
/// where that is an object, its properties in document order.
pub open spec fn schema_of(doc: JsonModel) -> JsonSchemaModel {
    JsonSchemaModel {
        kind: shape_of(doc),
        properties: if shape_of(doc) is Object {
            doc.member("properties"@).entries().map_values(
                |e: (Seq<char>, JsonModel)| (e.0, shape_of(e.1)),
            )
        } else {
            Seq::empty()
        },
    }
}

fn primitive_by_name(name: &str) -> (r: Option<Primitive>)
    ensures
        r == primitive_named(name@),
{
    if str_eq(name, "null") {
        Some(Primitive::Null)
    } else if str_eq(name, "boolean") {
        Some(Primitive::Boolean)
    } else if str_eq(name, "integer") {
        Some(Primitive::Integer)
    } else if str_eq(name, "number") {
        Some(Primitive::Number)
    } else if str_eq(name, "string") {
        Some(Primitive::String)
    } else {
        None
    }
}

fn format_by_name(name: &str) -> (r: Option<Format>)
    ensures
        r == format_named(name@),
{
    if str_eq(name, "date") {
        Some(Format::Date)
    } else if str_eq(name, "time") {
        Some(Format::Time)
    } else if str_eq(name, "date-time") {
        Some(Format::DateTime)
    } else {
        None
    }
}

fn listed(item: &Json) -> (r: Option<Primitive>)
    ensures
        r == listed_primitive(item@),
{
    match item {
        Json::Str(name) => primitive_by_name(name.as_str()),
        _ => None,
    }
}

fn text_holder(p: &Primitive) -> (r: bool)
    ensures
        r == holds_text(*p),
{
    match p {
        Primitive::String => true,
        Primitive::Null => true,
        _ => false,
    }
}

/// The shape that the schema `doc` gives to a value.
fn shape(doc: &Json) -> (r: Type)
    ensures
        r == shape_of(doc@),
{
    let format = match doc.text("format") {
        Some(name) => format_by_name(name),
        None => None,
    };
    match doc.get("type") {
        None => Type::Empty,
        Some(Json::Str(name)) => match primitive_by_name(name.as_str()) {
            Some(p) => match format {
                Some(f) => if text_holder(&p) {
                    Type::PrimitiveFormat(f)
                } else {
                    Type::Primitive(p)
                },
                None => Type::Primitive(p),
            },
            None => if str_eq(name.as_str(), "array") && doc.get("items").is_some() {
                Type::Array
            } else if str_eq(name.as_str(), "object") {
                match doc.get("properties") {
                    Some(Json::Object(_)) => Type::Object,
                    _ => Type::Empty,
                }
            } else {
                Type::Empty
            },
        },
        Some(Json::Array(items)) => {
            proof {
                let model = crate::json::items_model(items@);
                assert(doc@.member("type"@) == JsonModel::Array(model));
                if items@.len() >= 1 {
                    assert(model[0] == items@[0]@);
                }
                if items@.len() >= 2 {
                    assert(model[1] == items@[1]@);
                }
            }
            if items.len() == 1 {
                match listed(&items[0]) {
                    Some(p) => match format {
                        Some(f) => if text_holder(&p) {
                            Type::SingleFormat(f)
                        } else {
                            Type::Single(p)
                        },
                        None => Type::Single(p),
                    },
                    None => Type::Empty,
                }
            } else if items.len() == 2 {
                match (listed(&items[0]), listed(&items[1])) {
                    (Some(first), Some(second)) => match format {
                        Some(f) => if text_holder(&first) && text_holder(&second) {
                            Type::VariantFormat(f)
                        } else {
                            Type::Variant(first, second)
                        },
                        None => Type::Variant(first, second),
                    },
                    _ => Type::Empty,
                }
            } else {
                Type::Empty
            }
        },
        Some(_) => Type::Empty,
    }
}

impl JsonSchema {
    /// Reads the schema that a JSON document holds.
    pub fn from_json(doc: &Json) -> (r: JsonSchema)
        ensures
            r@ == schema_of(doc@),
    {
        let kind = shape(doc);
        let mut properties: Vec<(String, Type)> = Vec::new();
        if let Type::Object = kind {
            if let Some(Json::Object(entries)) = doc.get("properties") {
                let ghost model = entries_model(entries@);
                let ghost shapes = model.map_values(
                    |e: (Seq<char>, JsonModel)| (e.0, shape_of(e.1)),
                );
                let mut i: usize = 0;
                while i < entries.len()
                    invariant
                        i <= entries@.len(),
                        model == entries_model(entries@),
                        shapes == model.map_values(
                            |e: (Seq<char>, JsonModel)| (e.0, shape_of(e.1)),
                        ),
                        properties_model(properties@) == shapes.take(i as int),
                    decreases entries@.len() - i,
                {
                    let property = (entries[i].0.clone(), shape(&entries[i].1));
                    proof {
                        assert(model[i as int] == (entries@[i as int].0@, entries@[i as int].1@));
                        assert(shapes.take(i + 1) == shapes.take(i as int).push(shapes[i as int]));
                        assert(properties_model(properties@.push(property)) == properties_model(
                            properties@,
                        ).push((property.0@, property.1)));
                    }
                    properties.push(property);
                    i += 1;
                }
                proof {
                    assert(shapes.take(i as int) == shapes);
                }
            }
        } else {
            assert(properties_model(properties@) == Seq::<(Seq<char>, Type)>::empty());
        }
        JsonSchema { kind, properties }
    }
}

/// Translating one schema twice gives the same columns, in the same order.
pub proof fn lemma_translation_is_repeatable(
    schema: JsonSchemaModel,
    first: Seq<FieldModel>,
    second: Seq<FieldModel>,
)
    requires
        translation(schema) == Some(first),
        translation(schema) == Some(second),
    ensures
        first == second,
{
}

} // verus!
