//! What must hold of the metadata of a file so that it can be turned into a schema.
//!
//! A writer may put a schema of its own into the key value metadata, as text. It is
//! decoded without regard to types that it should not hold, and so is the tree of columns.
//! [`can_convert`] looks at both beforehand.

use vstd::prelude::*;
use vstd::slice::slice_subrange;
use parquet::file::metadata::ParquetMetaData;
use crate::text::same_text;
use crate::tree::{after_node, find_level, level_under, take_node, OpenGroup};

verus! {

/// A field of a schema in the format of Arrow messages, as the `arrow` crate reads it.
#[verifier::external_type_specification]
#[verifier::external_body]
pub struct ExIpcField<'a>(arrow::ipc::Field<'a>);

/// A schema in the format of Arrow messages, as the `arrow` crate reads it.
#[verifier::external_type_specification]
#[verifier::external_body]
pub struct ExIpcSchema<'a>(arrow::ipc::Schema<'a>);

/// A message of Arrow, as the `arrow` crate reads it.
#[verifier::external_type_specification]
#[verifier::external_body]
pub struct ExIpcMessage<'a>(arrow::ipc::Message<'a>);

/// What a field of a message holds. Each part of a type is there only for a field of that
/// type, and may be missing.
pub struct MessageField {
    pub has_name: bool,
    /// The type by its number in the format.
    pub kind: u8,
    /// For a dictionary, the bits of its index and whether the index has a sign.
    pub index: Option<Option<(i32, bool)>>,
    /// The bits of an integer, and whether it has a sign.
    pub int: Option<(i32, bool)>,
    /// The precision of a floating point number.
    pub precision: Option<i16>,
    /// The bits, the precision and the scale of a decimal number.
    pub decimal: Option<(i32, i32, i32)>,
    /// The unit of a date.
    pub date: Option<i16>,
    /// The bits and the unit of a time.
    pub time: Option<(i32, i16)>,
    /// The unit of a timestamp.
    pub timestamp: Option<i16>,
    /// The unit of an interval.
    pub interval: Option<i16>,
    /// The unit of a duration.
    pub duration: Option<i16>,
    /// The mode of a union.
    pub union_mode: Option<i16>,
    /// The numbers of the parts of a union.
    pub type_ids: Option<Seq<i32>>,
    pub has_fixed_size_binary: bool,
    pub has_fixed_size_list: bool,
    pub has_map: bool,
    pub children: Option<Seq<MessageField>>,
}

/// What a schema of a message holds.
pub struct MessageSchema {
    pub is_big_endian: bool,
    pub fields: Option<Seq<MessageField>>,
}

/// What a field of a message holds.
pub uninterp spec fn message_field(field: arrow::ipc::Field<'_>) -> MessageField;

/// What a schema of a message holds.
pub uninterp spec fn message_schema(schema: arrow::ipc::Schema<'_>) -> MessageSchema;

/// The schema in a message, where it holds one.
pub uninterp spec fn message_header(message: arrow::ipc::Message<'_>) -> Option<MessageSchema>;

/// The header of the message that bytes are, where they are one.
pub uninterp spec fn decoded_message(bytes: Seq<u8>) -> Option<Option<MessageSchema>>;

/// The bytes that a text stands for in base 64, where it is one.
pub uninterp spec fn decoded_base64(text: Seq<char>) -> Option<Seq<u8>>;

/// The key value metadata of a file.
pub uninterp spec fn metadata_key_values(metadata: ParquetMetaData) -> Seq<
    (Seq<char>, Option<Seq<char>>),
>;

/// The elements of the tree of columns of a file, each before its children.
pub uninterp spec fn metadata_elements(metadata: ParquetMetaData) -> Seq<TreeElement>;

/// An element of the tree of columns: how many children it has if it is a group, and the
/// numbers of its converted type and of its repetition.
#[derive(Clone, Copy, Debug, PartialEq, Eq, Structural)]
pub struct TreeElement {
    pub num_children: Option<i32>,
    pub converted_type: Option<i32>,
    pub repetition: Option<i32>,
}

/// `Field::name` gives the name of a field, where it has one.
#[verifier::external_body]
fn has_name(field: &arrow::ipc::Field<'_>) -> (has: bool)
    ensures
        has == message_field(*field).has_name,
{
    field.name().is_some()
}

/// `Field::type_type` gives the type of a field by its number.
#[verifier::external_body]
fn kind(field: &arrow::ipc::Field<'_>) -> (kind: u8)
    ensures
        kind == message_field(*field).kind,
{
    field.type_type().0
}

/// `Field::dictionary` gives the index of a dictionary.
#[verifier::external_body]
fn index(field: &arrow::ipc::Field<'_>) -> (index: Option<Option<(i32, bool)>>)
    ensures
        index == message_field(*field).index,
{
    field.dictionary().map(|d| d.indexType().map(|i| (i.bitWidth(), i.is_signed())))
}

/// `Field::type_as_int` gives the parts of an integer.
#[verifier::external_body]
fn int_parts(field: &arrow::ipc::Field<'_>) -> (parts: Option<(i32, bool)>)
    ensures
        parts == message_field(*field).int,
{
    field.type_as_int().map(|t| (t.bitWidth(), t.is_signed()))
}

/// `Field::type_as_floating_point` gives the precision of a floating point number.
#[verifier::external_body]
fn precision(field: &arrow::ipc::Field<'_>) -> (precision: Option<i16>)
    ensures
        precision == message_field(*field).precision,
{
    field.type_as_floating_point().map(|t| t.precision().0)
}

/// `Field::type_as_decimal` gives the parts of a decimal number.
#[verifier::external_body]
fn decimal_parts(field: &arrow::ipc::Field<'_>) -> (parts: Option<(i32, i32, i32)>)
    ensures
        parts == message_field(*field).decimal,
{
    field.type_as_decimal().map(|t| (t.bitWidth(), t.precision(), t.scale()))
}

/// `Field::type_as_date` gives the unit of a date.
#[verifier::external_body]
fn date_unit(field: &arrow::ipc::Field<'_>) -> (unit: Option<i16>)
    ensures
        unit == message_field(*field).date,
{
    field.type_as_date().map(|t| t.unit().0)
}

/// `Field::type_as_time` gives the parts of a time.
#[verifier::external_body]
fn time_parts(field: &arrow::ipc::Field<'_>) -> (parts: Option<(i32, i16)>)
    ensures
        parts == message_field(*field).time,
{
    field.type_as_time().map(|t| (t.bitWidth(), t.unit().0))
}

/// `Field::type_as_timestamp` gives the unit of a timestamp.
#[verifier::external_body]
fn timestamp_unit(field: &arrow::ipc::Field<'_>) -> (unit: Option<i16>)
    ensures
        unit == message_field(*field).timestamp,
{
    field.type_as_timestamp().map(|t| t.unit().0)
}

/// `Field::type_as_interval` gives the unit of an interval.
#[verifier::external_body]
fn interval_unit(field: &arrow::ipc::Field<'_>) -> (unit: Option<i16>)
    ensures
        unit == message_field(*field).interval,
{
    field.type_as_interval().map(|t| t.unit().0)
}

/// `Field::type_as_duration` gives the unit of a duration.
#[verifier::external_body]
fn duration_unit(field: &arrow::ipc::Field<'_>) -> (unit: Option<i16>)
    ensures
        unit == message_field(*field).duration,
{
    field.type_as_duration().map(|t| t.unit().0)
}

/// `Field::type_as_union` gives the mode of a union.
#[verifier::external_body]
fn union_mode(field: &arrow::ipc::Field<'_>) -> (mode: Option<i16>)
    ensures
        mode == message_field(*field).union_mode,
{
    field.type_as_union().map(|t| t.mode().0)
}

/// `Union::typeIds` gives the numbers of the parts of a union.
#[verifier::external_body]
fn type_ids(field: &arrow::ipc::Field<'_>) -> (ids: Option<Vec<i32>>)
    ensures
        match ids {
            Some(ids) => message_field(*field).type_ids == Some(ids@),
            None => message_field(*field).type_ids is None,
        },
{
    field.type_as_union().and_then(|t| t.typeIds()).map(|ids| ids.iter().collect())
}

/// `Field::type_as_fixed_size_binary` tells whether the parts of such a type are there.
#[verifier::external_body]
fn has_fixed_size_binary(field: &arrow::ipc::Field<'_>) -> (has: bool)
    ensures
        has == message_field(*field).has_fixed_size_binary,
{
    field.type_as_fixed_size_binary().is_some()
}

/// `Field::type_as_fixed_size_list` tells whether the parts of such a type are there.
#[verifier::external_body]
fn has_fixed_size_list(field: &arrow::ipc::Field<'_>) -> (has: bool)
    ensures
        has == message_field(*field).has_fixed_size_list,
{
    field.type_as_fixed_size_list().is_some()
}

/// `Field::type_as_map` tells whether the parts of such a type are there.
#[verifier::external_body]
fn has_map(field: &arrow::ipc::Field<'_>) -> (has: bool)
    ensures
        has == message_field(*field).has_map,
{
    field.type_as_map().is_some()
}

/// `Field::children` gives the children of a field, here counted.
#[verifier::external_body]
fn num_children(field: &arrow::ipc::Field<'_>) -> (n: Option<usize>)
    ensures
        match message_field(*field).children {
            Some(children) => n is Some && n->0 == children.len(),
            None => n is None,
        },
{
    field.children().map(|children| children.len())
}

/// `Field::children` gives the children of a field, here one of them.
#[verifier::external_body]
fn child<'a>(field: &arrow::ipc::Field<'a>, i: usize) -> (child: arrow::ipc::Field<'a>)
    requires
        message_field(*field).children is Some,
        i < message_field(*field).children->0.len(),
    ensures
        message_field(child) == message_field(*field).children->0[i as int],
{
    field.children().unwrap().get(i)
}

/// `Schema::endianness` tells whether numbers have their most significant byte first.
#[verifier::external_body]
fn is_big_endian(schema: &arrow::ipc::Schema<'_>) -> (big: bool)
    ensures
        big == message_schema(*schema).is_big_endian,
{
    schema.endianness() == arrow::ipc::Endianness::Big
}

/// `Schema::fields` gives the fields of a schema, here counted.
#[verifier::external_body]
fn num_fields(schema: &arrow::ipc::Schema<'_>) -> (n: Option<usize>)
    ensures
        match message_schema(*schema).fields {
            Some(fields) => n is Some && n->0 == fields.len(),
            None => n is None,
        },
{
    schema.fields().map(|fields| fields.len())
}

/// `Schema::fields` gives the fields of a schema, here one of them.
#[verifier::external_body]
fn field<'a>(schema: &arrow::ipc::Schema<'a>, i: usize) -> (field: arrow::ipc::Field<'a>)
    requires
        message_schema(*schema).fields is Some,
        i < message_schema(*schema).fields->0.len(),
    ensures
        message_field(field) == message_schema(*schema).fields->0[i as int],
{
    schema.fields().unwrap().get(i)
}

/// `arrow::ipc::root_as_message` reads a message after checking that it is one. What it
/// returns is determined by the bytes.
#[verifier::external_body]
fn decode_message(bytes: &[u8]) -> (message: Option<arrow::ipc::Message<'_>>)
    ensures
        match message {
            Some(message) => decoded_message(bytes@) == Some(message_header(message)),
            None => decoded_message(bytes@) is None,
        },
{
    arrow::ipc::root_as_message(bytes).ok()
}

/// `Message::header_as_schema` gives the schema in a message.
#[verifier::external_body]
fn header_as_schema<'a>(message: &arrow::ipc::Message<'a>) -> (schema: Option<
    arrow::ipc::Schema<'a>,
>)
    ensures
        match schema {
            Some(schema) => message_header(*message) == Some(message_schema(schema)),
            None => message_header(*message) is None,
        },
{
    message.header_as_schema()
}

/// `Engine::decode` of the `base64` crate, for the standard alphabet with padding, gives
/// the bytes that a text stands for. What it returns is determined by the text.
#[verifier::external_body]
fn decode_base64(text: &str) -> (bytes: Option<Vec<u8>>)
    ensures
        match bytes {
            Some(bytes) => decoded_base64(text@) == Some(bytes@),
            None => decoded_base64(text@) is None,
        },
{
    base64::Engine::decode(&base64::engine::general_purpose::STANDARD, text).ok()
}

/// The views of key value metadata.
pub open spec fn key_values_view(list: Seq<(String, Option<String>)>) -> Seq<
    (Seq<char>, Option<Seq<char>>),
> {
    list.map_values(
        |entry: (String, Option<String>)|
            (
                entry.0@,
                match entry.1 {
                    Some(value) => Some(value@),
                    None => None,
                },
            ),
    )
}

/// `FileMetaData::key_value_metadata` gives the key value metadata of a file.
#[verifier::external_body]
fn key_values(metadata: &ParquetMetaData) -> (list: Vec<(String, Option<String>)>)
    ensures
        key_values_view(list@) == metadata_key_values(*metadata),
{
    let list = metadata.file_metadata().key_value_metadata();
    list.into_iter().flatten().map(|kv| (kv.key.clone(), kv.value.clone())).collect()
}

/// `parquet::schema::types::to_thrift` lists the elements of the tree of columns. It fails
/// only where the root is no group, and the metadata of a file always has one that is.
#[verifier::external_body]
fn elements(metadata: &ParquetMetaData) -> (list: Vec<TreeElement>)
    ensures
        list@ == metadata_elements(*metadata),
{
    let list = parquet::schema::types::to_thrift(metadata.file_metadata().schema());
    list.unwrap().into_iter().map(|e| TreeElement {
        num_children: e.num_children,
        converted_type: e.converted_type.map(|t| t.0),
        repetition: e.repetition_type.map(|r| r.0),
    }).collect()
}

/// Whether an integer has a number of bits that there is.
pub open spec fn is_int_width(bits: i32) -> bool {
    bits == 8 || bits == 16 || bits == 32 || bits == 64
}

/// The number of a part of a union, of which eight bits are kept.
pub open spec fn type_id(id: i32) -> int {
    (id + 0x80) % 0x100 - 0x80
}

/// How many of the numbers of the parts of a union are read: one for each part, and one
/// more, if there are as many.
pub open spec fn num_used_ids(ids: nat, children: Option<Seq<MessageField>>) -> int {
    let parts = match children {
        Some(children) => children.len() as int,
        None => 0,
    };
    if ids <= parts {
        ids as int
    } else {
        parts + 1
    }
}

/// Whether the numbers of the parts of a union are not negative, and different.
pub open spec fn are_type_ids(ids: Seq<i32>) -> bool {
    &&& forall|i: int| 0 <= i < ids.len() ==> 0 <= type_id(#[trigger] ids[i])
    &&& forall|i: int, j: int|
        0 <= i < j < ids.len() ==> type_id(#[trigger] ids[i]) != type_id(#[trigger] ids[j])
}

/// Whether a field has a name and a type that there is, with all its parts, and so have its
/// children.
pub open spec fn is_supported(field: MessageField) -> bool
    decreases field,
{
    let children = field.children;
    &&& field.has_name
    &&& field.index matches Some(index) ==> index matches Some((bits, _)) && is_int_width(bits)
    &&& has_supported_type(field)
    &&& has_children(field.kind) && children is Some ==> forall|i: int|
        0 <= i < children->0.len() ==> is_supported(#[trigger] children->0[i])
}

/// Whether the children of a field of this type are looked at.
pub open spec fn has_children(kind: u8) -> bool {
    kind == 12 || kind == 13 || kind == 14 || kind == 16 || kind == 17 || kind == 21 || kind == 22
}

/// Tests whether a number of bits is one that integers have.
fn has_int_width(bits: i32) -> (valid: bool)
    ensures
        valid == is_int_width(bits),
{
    bits == 8 || bits == 16 || bits == 32 || bits == 64
}

/// Gives the number of a part of a union.
fn to_type_id(id: i32) -> (number: i64)
    ensures
        number == type_id(id),
{
    let moved: u64 = (id as i64 + 0x80 + 0x1_0000_0000) as u64;
    let rest: u64 = moved % 0x100;
    assert(rest == (id + 0x80) % 0x100);
    rest as i64 - 0x80
}

/// Tests whether the numbers of the parts of a union are not negative, and different.
fn can_be_type_ids(ids: &Vec<i32>, used: usize) -> (valid: bool)
    requires
        used <= ids@.len(),
    ensures
        valid == are_type_ids(ids@.take(used as int)),
{
    let ghost taken = ids@.take(used as int);
    let mut i: usize = 0;
    while i < used
        invariant
            i <= used <= ids@.len(),
            taken == ids@.take(used as int),
            forall|k: int| 0 <= k < i ==> 0 <= type_id(#[trigger] taken[k]),
            forall|k: int, j: int|
                0 <= k < j < i ==> type_id(#[trigger] taken[k]) != type_id(#[trigger] taken[j]),
        decreases used - i,
    {
        assert(taken[i as int] == ids@[i as int]);
        let id: i64 = to_type_id(ids[i]);
        if id < 0 {
            return false;
        }
        let mut j: usize = 0;
        while j < i
            invariant
                j <= i < used <= ids@.len(),
                taken == ids@.take(used as int),
                id == type_id(taken[i as int]),
                forall|k: int| 0 <= k < j ==> type_id(#[trigger] taken[k]) != id,
            decreases i - j,
        {
            assert(taken[j as int] == ids@[j as int]);
            if to_type_id(ids[j]) == id {
                return false;
            }
            j += 1;
        }
        i += 1;
    }
    true
}

/// What the type of a field must be, leaving the types of its children aside.
pub open spec fn has_supported_type(field: MessageField) -> bool {
    let children = field.children;
    match field.kind {
        // Null, binary, text, truth values, large binary and large text.
        1 | 4 | 5 | 6 | 19 | 20 => true,
        2 => field.int matches Some((bits, _)) && is_int_width(bits),
        3 => field.precision matches Some(precision) && 0 <= precision <= 2,
        7 => field.decimal matches Some((bits, precision, scale)) && (bits == 128 || bits == 256)
            && 0 <= precision <= 255 && -128 <= scale <= 127,
        8 => field.date matches Some(unit) && 0 <= unit <= 1,
        9 => field.time matches Some((bits, unit)) && (bits == 32 && 0 <= unit <= 1 || bits == 64
            && 2 <= unit <= 3),
        10 => field.timestamp matches Some(unit) && 0 <= unit <= 3,
        11 => field.interval matches Some(unit) && 0 <= unit <= 2,
        // Lists and large lists.
        12 | 21 => children is Some && children->0.len() == 1,
        // Structs.
        13 => true,
        14 => field.union_mode matches Some(mode) && 0 <= mode <= 1 && (field.type_ids matches Some(
            ids,
        ) ==> are_type_ids(ids.take(num_used_ids(ids.len(), children)))),
        15 => field.has_fixed_size_binary,
        16 => children is Some && children->0.len() == 1 && field.has_fixed_size_list,
        17 => children is Some && children->0.len() == 1 && field.has_map,
        18 => field.duration matches Some(unit) && 0 <= unit <= 3,
        // Run-end encoded values.
        22 => children is Some && children->0.len() == 2,
        _ => false,
    }
}

/// Tests whether a number is there and within bounds.
fn is_within(number: Option<i16>, last: i16) -> (within: bool)
    ensures
        within == (number matches Some(n) && 0 <= n <= last),
{
    match number {
        Some(n) => 0 <= n && n <= last,
        None => false,
    }
}

/// Tests whether the type of a field is one that there is, leaving its children aside.
fn can_have_type(field: &arrow::ipc::Field<'_>) -> (supported: bool)
    ensures
        supported == has_supported_type(message_field(*field)),
{
    let children: usize = match num_children(field) {
        Some(n) => n,
        None => 0,
    };
    match kind(field) {
        1 | 4 | 5 | 6 | 19 | 20 => true,
        2 => match int_parts(field) {
            Some((bits, _)) => has_int_width(bits),
            None => false,
        },
        3 => is_within(precision(field), 2),
        7 => match decimal_parts(field) {
            Some((bits, precision, scale)) => (bits == 128 || bits == 256) && 0 <= precision
                && precision <= 255 && -128 <= scale && scale <= 127,
            None => false,
        },
        8 => is_within(date_unit(field), 1),
        9 => match time_parts(field) {
            Some((bits, unit)) => (bits == 32 && 0 <= unit && unit <= 1) || (bits == 64 && 2 <= unit
                && unit <= 3),
            None => false,
        },
        10 => is_within(timestamp_unit(field), 3),
        11 => is_within(interval_unit(field), 2),
        12 | 21 => children == 1,
        13 => true,
        14 => is_within(union_mode(field), 1) && match type_ids(field) {
            Some(ids) => {
                let used: usize = if ids.len() <= children {
                    ids.len()
                } else {
                    children + 1
                };
                can_be_type_ids(&ids, used)
            },
            None => true,
        },
        15 => has_fixed_size_binary(field),
        16 => children == 1 && has_fixed_size_list(field),
        17 => children == 1 && has_map(field),
        18 => is_within(duration_unit(field), 3),
        22 => children == 2,
        _ => false,
    }
}

/// Tests whether a field has a name and a type that there is, with all its parts, and so
/// have its children.
fn can_support(field: &arrow::ipc::Field<'_>) -> (supported: bool)
    ensures
        supported == is_supported(message_field(*field)),
    decreases message_field(*field),
{
    if !has_name(field) {
        return false;
    }
    if let Some(index) = index(field) {
        match index {
            Some((bits, _)) => {
                if !has_int_width(bits) {
                    return false;
                }
            },
            None => return false,
        }
    }
    if !can_have_type(field) {
        return false;
    }
    let kind: u8 = kind(field);
    let nested: bool = kind == 12 || kind == 13 || kind == 14 || kind == 16 || kind == 17 || kind
        == 21 || kind == 22;
    if nested {
        if let Some(n) = num_children(field) {
            let mut i: usize = 0;
            while i < n
                invariant
                    i <= n,
                    message_field(*field).children is Some,
                    n == message_field(*field).children->0.len(),
                    has_children(message_field(*field).kind),
                    forall|k: int|
                        0 <= k < i ==> is_supported(
                            #[trigger] message_field(*field).children->0[k],
                        ),
                decreases n - i,
            {
                let part: arrow::ipc::Field<'_> = child(field, i);
                if !can_support(&part) {
                    assert(!is_supported(message_field(*field).children->0[i as int]));
                    return false;
                }
                i += 1;
            }
        }
    }
    true
}

/// Whether a schema has fields, all of them are supported, and none is a decimal number
/// with its most significant byte first.
pub open spec fn is_supported_schema(schema: MessageSchema) -> bool {
    &&& schema.fields is Some
    &&& forall|i: int|
        0 <= i < schema.fields->0.len() ==> is_supported(#[trigger] schema.fields->0[i]) && !(
        schema.is_big_endian && schema.fields->0[i].kind == 7)
}

/// Tests whether a schema is one that can be decoded.
fn can_support_schema(schema: &arrow::ipc::Schema<'_>) -> (supported: bool)
    ensures
        supported == is_supported_schema(message_schema(*schema)),
{
    let big: bool = is_big_endian(schema);
    match num_fields(schema) {
        Some(n) => {
            let mut i: usize = 0;
            while i < n
                invariant
                    i <= n,
                    big == message_schema(*schema).is_big_endian,
                    message_schema(*schema).fields is Some,
                    n == message_schema(*schema).fields->0.len(),
                    forall|k: int|
                        0 <= k < i ==> is_supported(
                            #[trigger] message_schema(*schema).fields->0[k],
                        ) && !(big && message_schema(*schema).fields->0[k].kind == 7),
                decreases n - i,
            {
                let part: arrow::ipc::Field<'_> = field(schema, i);
                let ghost expected = message_schema(*schema).fields->0[i as int];
                if !can_support(&part) || (big && kind(&part) == 7) {
                    assert(!(is_supported(expected) && !(big && expected.kind == 7)));
                    return false;
                }
                i += 1;
            }
            true
        },
        None => false,
    }
}

/// The text that a writer put its schema into: the last value of its key.
pub open spec fn embedded_text(entries: Seq<(Seq<char>, Option<Seq<char>>)>) -> Option<Seq<char>>
    decreases entries.len(),
{
    if entries.len() == 0 {
        None
    } else if entries.last().0 == "ARROW:schema"@ && entries.last().1 is Some {
        entries.last().1
    } else {
        embedded_text(entries.drop_last())
    }
}

/// Finds the text that a writer put its schema into.
fn find_embedded(entries: &Vec<(String, Option<String>)>) -> (text: Option<&String>)
    ensures
        match embedded_text(key_values_view(entries@)) {
            Some(expected) => text is Some && text->0@ == expected,
            None => text is None,
        },
{
    let ghost view = key_values_view(entries@);
    let mut n: usize = entries.len();
    assert(view.subrange(0, n as int) =~= view);
    while n > 0
        invariant
            n <= entries@.len(),
            view == key_values_view(entries@),
            embedded_text(view) == embedded_text(view.subrange(0, n as int)),
        decreases n,
    {
        let ghost rest = view.subrange(0, n as int);
        assert(rest.last() == view[n - 1]);
        assert(rest.drop_last() =~= view.subrange(0, n - 1));
        n -= 1;
        if same_text(entries[n].0.as_str(), "ARROW:schema") {
            if let Some(value) = &entries[n].1 {
                return Some(value);
            }
        }
    }
    None
}

/// The bytes of a message in the bytes that a text stood for, which may start with a mark
/// of four bytes and a length.
pub open spec fn message_bytes(bytes: Seq<u8>) -> Seq<u8> {
    if bytes.len() > 8 && bytes.subrange(0, 4) == seq![255u8, 255u8, 255u8, 255u8] {
        bytes.subrange(8, bytes.len() as int)
    } else {
        bytes
    }
}

/// What becomes of the schema that a writer put into the metadata.
pub enum Embedded {
    /// There is none.
    Missing,
    /// It is no schema, which is an error.
    Broken,
    /// It is a schema.
    Found(MessageSchema),
}

/// What becomes of the schema that a writer put into the metadata.
pub open spec fn embedded(entries: Seq<(Seq<char>, Option<Seq<char>>)>) -> Embedded {
    match embedded_text(entries) {
        None => Embedded::Missing,
        Some(text) => match decoded_base64(text) {
            None => Embedded::Broken,
            Some(bytes) => match decoded_message(message_bytes(bytes)) {
                Some(Some(schema)) => Embedded::Found(schema),
                _ => Embedded::Broken,
            },
        },
    }
}

/// What becomes of an element of the tree of columns.
#[derive(Clone, Copy, Debug, PartialEq, Eq, Structural)]
pub enum Visit {
    /// Its children are next, which only hold the items where it is a map or a list.
    Children { hold_items: bool },
    /// It is refused.
    Refused,
    /// It leads to a panic.
    Panics,
}

/// Where so many elements end with all that lies in them, from this position on.
pub open spec fn elements_end(elements: Seq<TreeElement>, i: int, n: nat) -> int
    decreases elements.len() - i,
{
    if n == 0 || i >= elements.len() {
        i
    } else {
        let children: int = match elements[i].num_children {
            Some(children) => children as int,
            None => 0,
        };
        let more: nat = if children > 0 {
            children as nat
        } else {
            0
        };
        elements_end(elements, i + 1, (n - 1 + more) as nat)
    }
}

/// Whether the only child of a map, behind this position, is a repeated group of a required
/// key and a value that is not repeated.
pub open spec fn holds_entries(elements: Seq<TreeElement>, i: int) -> bool {
    let value = elements_end(elements, i + 2, 1);
    &&& i + 2 < elements.len()
    &&& elements[i + 1].repetition == Some(2i32)
    &&& elements[i + 1].num_children == Some(2i32)
    &&& elements[i + 2].repetition == Some(0i32)
    &&& value < elements.len()
    &&& elements[value].repetition != Some(2i32)
}

/// What becomes of a map at this position: it is not repeated, and its only child holds
/// entries. A repeated column in place of these leads to a panic.
pub open spec fn visit_map(elements: Seq<TreeElement>, i: int, level: u32) -> Visit {
    let map = elements[i];
    let has_child = map.num_children == Some(1i32) && i + 1 < elements.len();
    if map.repetition == Some(2i32) {
        Visit::Refused
    } else if level >= i16::MAX {
        Visit::Panics
    } else if has_child && elements[i + 1].repetition == Some(2i32) && elements[i
        + 1].num_children is None {
        Visit::Panics
    } else if has_child && holds_entries(elements, i) {
        Visit::Children { hold_items: true }
    } else {
        Visit::Refused
    }
}

/// What becomes of a list at this position: it is not repeated, and its only child is. A
/// list without a repetition leads to a panic.
pub open spec fn visit_list(elements: Seq<TreeElement>, i: int) -> Visit {
    let list = elements[i];
    if !(list.num_children == Some(1i32) && i + 1 < elements.len() && elements[i + 1].repetition
        == Some(2i32)) {
        Visit::Refused
    } else if list.repetition is None {
        Visit::Panics
    } else if list.repetition == Some(2i32) {
        Visit::Refused
    } else {
        Visit::Children { hold_items: true }
    }
}

/// What becomes of the element at this position, at this level. One that only holds the
/// items of a map or a list is taken as it is.
pub open spec fn visit(
    elements: Seq<TreeElement>,
    i: int,
    level: u32,
    only_holds_items: bool,
) -> Visit {
    let element = elements[i];
    if level > i16::MAX {
        Visit::Panics
    } else if only_holds_items || element.num_children is None {
        Visit::Children { hold_items: false }
    } else if element.converted_type == Some(1i32) || element.converted_type == Some(2i32) {
        visit_map(elements, i, level)
    } else if element.converted_type == Some(3i32) {
        visit_list(elements, i)
    } else {
        Visit::Children { hold_items: false }
    }
}

/// What becomes of the root, whose fields must be those of a schema. A map or a list that is
/// not refused leads to a panic, except that an embedded schema does not fit it, and so does
/// a repeated group of any children.
pub open spec fn visit_root(elements: Seq<TreeElement>, has_embedded: bool) -> Visit {
    let level = level_under(Seq::empty(), elements[0].repetition);
    match visit(elements, 0, level, false) {
        Visit::Children { hold_items } => if hold_items {
            if has_embedded {
                Visit::Refused
            } else {
                Visit::Panics
            }
        } else if elements[0].repetition == Some(2i32) && elements.len() > 1 {
            Visit::Panics
        } else {
            Visit::Children { hold_items }
        },
        other => other,
    }
}

/// Whether the elements from this position on can be turned into fields, or one of them is
/// refused. The children of these groups are still to come.
pub open spec fn are_fields(elements: Seq<TreeElement>, i: int, groups: Seq<OpenGroup>) -> bool
    decreases elements.len() - i,
{
    if i >= elements.len() || groups.len() == 0 {
        true
    } else {
        let level = level_under(groups, elements[i].repetition);
        match visit(elements, i, level, groups.last().holds_items) {
            Visit::Children { hold_items } => are_fields(
                elements,
                i + 1,
                after_node(groups, elements[i].num_children.unwrap_or(0), level, hold_items),
            ),
            Visit::Refused => true,
            Visit::Panics => false,
        }
    }
}

/// Whether the tree of columns can be turned into fields, or is refused.
pub open spec fn is_field_tree(elements: Seq<TreeElement>, has_embedded: bool) -> bool {
    elements.len() > 0 ==> match visit_root(elements, has_embedded) {
        Visit::Children { hold_items } => are_fields(
            elements,
            1,
            after_node(
                Seq::empty(),
                elements[0].num_children.unwrap_or(0),
                level_under(Seq::empty(), elements[0].repetition),
                hold_items,
            ),
        ),
        Visit::Refused => true,
        Visit::Panics => false,
    }
}

/// Whether the metadata of a file can be turned into a schema, or an error found in it.
pub open spec fn is_convertible(metadata: ParquetMetaData) -> bool {
    match embedded(metadata_key_values(metadata)) {
        Embedded::Missing => is_field_tree(metadata_elements(metadata), false),
        Embedded::Broken => true,
        Embedded::Found(schema) => is_supported_schema(schema) && is_field_tree(
            metadata_elements(metadata),
            true,
        ),
    }
}

/// Tests whether a number is there and this one.
fn is_number(number: Option<i32>, wanted: i32) -> (is: bool)
    ensures
        is == (number == Some(wanted)),
{
    match number {
        Some(n) => n == wanted,
        None => false,
    }
}

/// Gives the number of children of an element.
fn count_children(element: &TreeElement) -> (children: i32)
    ensures
        children == element.num_children.unwrap_or(0),
{
    match element.num_children {
        Some(children) => children,
        None => 0,
    }
}

/// Finds where an element ends with all that lies in it.
fn find_element_end(elements: &Vec<TreeElement>, start: usize) -> (end: usize)
    requires
        start <= elements@.len(),
    ensures
        end == elements_end(elements@, start as int, 1),
        end <= elements@.len(),
{
    let mut i: usize = start;
    let mut n: u128 = 1;
    while n > 0 && i < elements.len()
        invariant
            start <= i <= elements@.len(),
            n <= 1 + (i - start) * 0x8000_0000,
            elements_end(elements@, start as int, 1) == elements_end(
                elements@,
                i as int,
                n as nat,
            ),
        decreases elements@.len() - i,
    {
        let children: i32 = count_children(&elements[i]);
        proof {
            assert((i - start) * 0x8000_0000 <= 0xFFFF_FFFF_FFFF_FFFF * 0x8000_0000)
                by (nonlinear_arith)
                requires
                    i - start <= 0xFFFF_FFFF_FFFF_FFFF,
            ;
        }
        n = if children > 0 {
            n - 1 + children as u128
        } else {
            n - 1
        };
        i += 1;
    }
    i
}

/// Tests whether the only child of a map holds entries.
fn can_hold_entries(elements: &Vec<TreeElement>, i: usize) -> (holds: bool)
    requires
        i < elements@.len(),
    ensures
        holds == holds_entries(elements@, i as int),
{
    if elements.len() - i <= 2 {
        return false;
    }
    let value: usize = find_element_end(elements, i + 2);
    is_number(elements[i + 1].repetition, 2) && is_number(elements[i + 1].num_children, 2)
        && is_number(elements[i + 2].repetition, 0) && value < elements.len() && !is_number(
        elements[value].repetition,
        2,
    )
}

/// Says what becomes of a map.
fn find_visit_of_map(elements: &Vec<TreeElement>, i: usize, level: u32) -> (found: Visit)
    requires
        i < elements@.len(),
    ensures
        found == visit_map(elements@, i as int, level),
{
    let has_child: bool = is_number(elements[i].num_children, 1) && elements.len() - i > 1;
    if is_number(elements[i].repetition, 2) {
        Visit::Refused
    } else if level >= i16::MAX as u32 {
        Visit::Panics
    } else if has_child && is_number(elements[i + 1].repetition, 2)
        && elements[i + 1].num_children.is_none() {
        Visit::Panics
    } else if has_child && can_hold_entries(elements, i) {
        Visit::Children { hold_items: true }
    } else {
        Visit::Refused
    }
}

/// Says what becomes of a list.
fn find_visit_of_list(elements: &Vec<TreeElement>, i: usize) -> (found: Visit)
    requires
        i < elements@.len(),
    ensures
        found == visit_list(elements@, i as int),
{
    if !(is_number(elements[i].num_children, 1) && elements.len() - i > 1 && is_number(
        elements[i + 1].repetition,
        2,
    )) {
        Visit::Refused
    } else if elements[i].repetition.is_none() {
        Visit::Panics
    } else if is_number(elements[i].repetition, 2) {
        Visit::Refused
    } else {
        Visit::Children { hold_items: true }
    }
}

/// Says what becomes of an element.
fn find_visit(
    elements: &Vec<TreeElement>,
    i: usize,
    level: u32,
    only_holds_items: bool,
) -> (found: Visit)
    requires
        i < elements@.len(),
    ensures
        found == visit(elements@, i as int, level, only_holds_items),
{
    if level > i16::MAX as u32 {
        Visit::Panics
    } else if only_holds_items || elements[i].num_children.is_none() {
        Visit::Children { hold_items: false }
    } else if is_number(elements[i].converted_type, 1) || is_number(elements[i].converted_type, 2) {
        find_visit_of_map(elements, i, level)
    } else if is_number(elements[i].converted_type, 3) {
        find_visit_of_list(elements, i)
    } else {
        Visit::Children { hold_items: false }
    }
}

/// Says what becomes of the root.
fn find_visit_of_root(elements: &Vec<TreeElement>, level: u32, has_embedded: bool) -> (found: Visit)
    requires
        elements@.len() > 0,
        level == level_under(Seq::empty(), elements@[0].repetition),
    ensures
        found == visit_root(elements@, has_embedded),
{
    match find_visit(elements, 0, level, false) {
        Visit::Children { hold_items } => if hold_items {
            if has_embedded {
                Visit::Refused
            } else {
                Visit::Panics
            }
        } else if is_number(elements[0].repetition, 2) && elements.len() > 1 {
            Visit::Panics
        } else {
            Visit::Children { hold_items }
        },
        other => other,
    }
}

/// Tests whether the tree of columns can be turned into fields, or is refused.
fn can_be_field_tree(elements: &Vec<TreeElement>, has_embedded: bool) -> (valid: bool)
    ensures
        valid == is_field_tree(elements@, has_embedded),
{
    if elements.len() == 0 {
        return true;
    }
    let mut groups: Vec<OpenGroup> = Vec::new();
    assert(groups@ =~= Seq::<OpenGroup>::empty());
    let level: u32 = find_level(&groups, elements[0].repetition);
    match find_visit_of_root(elements, level, has_embedded) {
        Visit::Children { hold_items } => {
            take_node(&mut groups, count_children(&elements[0]), level, hold_items);
        },
        Visit::Refused => return true,
        Visit::Panics => return false,
    }
    let mut i: usize = 1;
    while i < elements.len() && groups.len() > 0
        invariant
            1 <= i <= elements@.len(),
            groups@.len() > 0 ==> groups@.last().left > 0,
            forall|k: int| 0 <= k < groups@.len() ==> (#[trigger] groups@[k]).level <= i16::MAX,
            is_field_tree(elements@, has_embedded) == are_fields(elements@, i as int, groups@),
        decreases elements@.len() - i,
    {
        let last: OpenGroup = groups[groups.len() - 1];
        let level: u32 = find_level(&groups, elements[i].repetition);
        match find_visit(elements, i, level, last.holds_items) {
            Visit::Children { hold_items } => {
                take_node(&mut groups, count_children(&elements[i]), level, hold_items);
            },
            Visit::Refused => return true,
            Visit::Panics => return false,
        }
        i += 1;
    }
    true
}

/// Tests whether the schema in bytes that a text stood for can be decoded, or is none.
fn can_support_bytes(bytes: &[u8]) -> (supported: Option<bool>)
    ensures
        match decoded_message(message_bytes(bytes@)) {
            Some(Some(schema)) => supported == Some(is_supported_schema(schema)),
            _ => supported is None,
        },
{
    let n: usize = bytes.len();
    let marked: bool = n > 8 && bytes[0] == 255 && bytes[1] == 255 && bytes[2] == 255 && bytes[3]
        == 255;
    proof {
        let mark = seq![255u8, 255u8, 255u8, 255u8];
        if marked {
            assert(bytes@.subrange(0, 4) =~= mark);
        } else if n > 8 {
            assert(bytes@.subrange(0, 4)[0] == bytes@[0]);
            assert(bytes@.subrange(0, 4)[1] == bytes@[1]);
            assert(bytes@.subrange(0, 4)[2] == bytes@[2]);
            assert(bytes@.subrange(0, 4)[3] == bytes@[3]);
            assert(mark[0] == 255 && mark[1] == 255 && mark[2] == 255 && mark[3] == 255);
        }
    }
    let message: &[u8] = if marked {
        slice_subrange(bytes, 8, n)
    } else {
        bytes
    };
    match decode_message(message) {
        Some(message) => match header_as_schema(&message) {
            Some(schema) => Some(can_support_schema(&schema)),
            None => None,
        },
        None => None,
    }
}

/// Tests whether the metadata of a file can be turned into a schema, or an error found in
/// it.
pub fn can_convert(metadata: &ParquetMetaData) -> (convertible: bool)
    ensures
        convertible == is_convertible(*metadata),
{
    let entries: Vec<(String, Option<String>)> = key_values(metadata);
    let mut has_embedded: bool = false;
    if let Some(text) = find_embedded(&entries) {
        has_embedded = true;
        match decode_base64(text.as_str()) {
            Some(bytes) => match can_support_bytes(bytes.as_slice()) {
                Some(supported) => {
                    if !supported {
                        return false;
                    }
                },
                None => return true,
            },
            None => return true,
        }
    }
    can_be_field_tree(&elements(metadata), has_embedded)
}

} // verus!
