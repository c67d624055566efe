//! The metadata of a file as a writer states it, and which of it can be decoded.
//!
//! The metadata is a structure of plain values here: a tree of columns, row groups of
//! column chunks, and what is said about the file. [`metadata_bytes`] is its encoding. It
//! holds nothing of how bytes are scanned, and [`law_written_metadata_is_decodable`] says
//! which metadata a scan of the encoding admits.

use vstd::prelude::*;
use crate::compact::{
    after_record, are_encodings, chunk_at, chunks_at, expected, field_in, group_at, groups_at,
    has_bound_lengths, has_column_orders, has_known_settings, has_known_width, has_logical_type,
    has_negative_nulls, int_in, is_decodable, is_union, length_in, list_header, node_at,
    nothing_seen, tree_at, whole_tree_at, Node, Outcome, Part, Record, Shape, Tree,
};
use crate::encoding::{
    encode, encode_items, fits, fits_slot, has_short_lists, is_at, is_skippable, is_small,
    law_cut_values_are_errors, law_fields_are_found, lemma_byte, lemma_fit_items,
    lemma_fit_slots, lemma_int, lemma_int_in, lemma_length_in, lemma_list_head, lemma_long,
    lemma_parts, lemma_record, lemma_seen, lemma_union, list_head, seen_in, Value,
};
use crate::tree::{after_node, level_under, still_open, with_child, OpenGroup};

verus! {

/// The unit of a time.
pub enum TimeUnit {
    Millis,
    Micros,
    Nanos,
}

/// What the values of a column mean.
pub enum LogicalType {
    Text,
    /// A map.
    KeyedValues,
    /// A list.
    Items,
    /// One of a set of texts.
    Choice,
    Decimal { scale: i32, precision: i32 },
    Date,
    Time { utc: bool, unit: TimeUnit },
    Timestamp { utc: bool, unit: TimeUnit },
    Integer { width: u8, signed: bool },
    Null,
    Json,
    Bson,
    Uuid,
}

/// What is said of a node of the tree of columns, whether column or group.
pub struct Labels {
    pub name: Seq<u8>,
    pub repetition: Option<i32>,
    pub converted: Option<i32>,
    pub scale: Option<i32>,
    pub precision: Option<i32>,
    pub field_id: Option<i32>,
    pub logical: Option<LogicalType>,
}

/// A node of the tree of columns.
pub enum SchemaNode {
    Column { labels: Labels, kind: i32, length: Option<i32> },
    Group { labels: Labels, parts: Seq<SchemaNode> },
}

/// A key with the value that it has, if any.
pub struct KeyValue {
    pub key: Seq<u8>,
    pub value: Option<Seq<u8>>,
}

/// A column by which rows are sorted.
pub struct SortingColumn {
    pub column: i32,
    pub descending: bool,
    pub nulls_first: bool,
}

/// How many pages of a type have an encoding.
pub struct PageEncoding {
    pub page: i32,
    pub encoding: i32,
    pub count: i32,
}

/// The statistics of a column chunk. The first two bounds are those of old writers.
pub struct WrittenStatistics {
    pub max: Option<Seq<u8>>,
    pub min: Option<Seq<u8>>,
    pub null_count: Option<i64>,
    pub distinct_count: Option<i64>,
    pub max_value: Option<Seq<u8>>,
    pub min_value: Option<Seq<u8>>,
    /// Fields that a newer writer has added.
    pub extra: Seq<Option<Value>>,
}

/// The key that a column chunk is encrypted with.
pub enum ChunkKey {
    OfFile,
    OfColumn { path: Seq<Seq<u8>>, key: Option<Seq<u8>> },
}

/// What is said of the data of a column chunk.
pub struct WrittenColumn {
    pub kind: i32,
    pub encodings: Seq<i32>,
    pub path: Seq<Seq<u8>>,
    pub codec: i32,
    pub num_values: i64,
    pub uncompressed_size: i64,
    pub compressed_size: i64,
    pub key_values: Option<Seq<KeyValue>>,
    pub data_page_offset: i64,
    pub index_page_offset: Option<i64>,
    pub dictionary_page_offset: Option<i64>,
    pub statistics: Option<WrittenStatistics>,
    pub page_encodings: Option<Seq<PageEncoding>>,
    pub bloom_filter_offset: Option<i64>,
    /// Fields that a newer writer has added.
    pub extra: Seq<Option<Value>>,
}

/// A column chunk.
pub struct WrittenChunk {
    pub file_path: Option<Seq<u8>>,
    pub file_offset: i64,
    pub column: WrittenColumn,
    pub offset_index_offset: Option<i64>,
    pub offset_index_length: Option<i32>,
    pub column_index_offset: Option<i64>,
    pub column_index_length: Option<i32>,
    pub key: Option<ChunkKey>,
    pub encrypted: Option<Seq<u8>>,
}

/// A row group.
pub struct WrittenGroup {
    pub chunks: Seq<WrittenChunk>,
    pub total_byte_size: i64,
    pub num_rows: i64,
    pub sorting: Option<Seq<SortingColumn>>,
    pub file_offset: Option<i64>,
    pub compressed_size: Option<i64>,
    pub ordinal: Option<i16>,
}

/// How a file is encrypted.
pub struct Cipher {
    pub is_counter: bool,
    pub prefix: Option<Seq<u8>>,
    pub unique: Option<Seq<u8>>,
    pub is_prefix_supplied: Option<bool>,
}

/// The metadata of a file.
pub struct WrittenFile {
    pub version: i32,
    /// What is said of the root of the tree of columns, and the nodes under it.
    pub root: Labels,
    pub schema: Seq<SchemaNode>,
    pub num_rows: i64,
    pub groups: Seq<WrittenGroup>,
    pub key_values: Option<Seq<KeyValue>>,
    pub created_by: Option<Seq<u8>>,
    /// How many columns an order is given for.
    pub orders: Option<nat>,
    pub cipher: Option<Cipher>,
    pub signing_key: Option<Seq<u8>>,
    /// Fields that a newer writer has added.
    pub extra: Seq<Option<Value>>,
}

/// A record without fields.
pub open spec fn nothing() -> Value {
    Value::Record(Seq::empty())
}

/// A record of one field, with this id.
pub open spec fn alone(id: nat, value: Value) -> Seq<Option<Value>> {
    Seq::new(
        id,
        |k: int|
            if k == id - 1 {
                Some(value)
            } else {
                None
            },
    )
}

/// A number, where there is one.
pub open spec fn int_slot(value: Option<i32>) -> Option<Value> {
    match value {
        Some(value) => Some(Value::Int(value)),
        None => None,
    }
}

/// A long number, where there is one.
pub open spec fn long_slot(value: Option<i64>) -> Option<Value> {
    match value {
        Some(value) => Some(Value::Long(value)),
        None => None,
    }
}

/// A string of bytes, where there is one.
pub open spec fn bytes_slot(value: Option<Seq<u8>>) -> Option<Value> {
    match value {
        Some(value) => Some(Value::Bytes(value)),
        None => None,
    }
}

/// A list of records.
pub open spec fn records(items: Seq<Value>) -> Value {
    Value::List { wire: 12, items }
}

/// A list of texts.
pub open spec fn texts_value(texts: Seq<Seq<u8>>) -> Value {
    Value::List { wire: 8, items: Seq::new(texts.len(), |k: int| Value::Bytes(texts[k])) }
}

/// The unit of a time, as it is encoded.
pub open spec fn unit_slots(unit: TimeUnit) -> Seq<Option<Value>> {
    match unit {
        TimeUnit::Millis => alone(1, nothing()),
        TimeUnit::Micros => alone(2, nothing()),
        TimeUnit::Nanos => alone(3, nothing()),
    }
}

/// A time, as it is encoded.
pub open spec fn time_value(utc: bool, unit: TimeUnit) -> Value {
    Value::Record(seq![Some(Value::Flag(utc)), Some(Value::Record(unit_slots(unit)))])
}

/// What the values of a column mean, as it is encoded.
pub open spec fn logical_slots(logical: LogicalType) -> Seq<Option<Value>> {
    match logical {
        LogicalType::Text => alone(1, nothing()),
        LogicalType::KeyedValues => alone(2, nothing()),
        LogicalType::Items => alone(3, nothing()),
        LogicalType::Choice => alone(4, nothing()),
        LogicalType::Decimal { scale, precision } => alone(
            5,
            Value::Record(seq![Some(Value::Int(scale)), Some(Value::Int(precision))]),
        ),
        LogicalType::Date => alone(6, nothing()),
        LogicalType::Time { utc, unit } => alone(7, time_value(utc, unit)),
        LogicalType::Timestamp { utc, unit } => alone(8, time_value(utc, unit)),
        LogicalType::Integer { width, signed } => alone(10, integer_value(width, signed)),
        LogicalType::Null => alone(11, nothing()),
        LogicalType::Json => alone(12, nothing()),
        LogicalType::Bson => alone(13, nothing()),
        LogicalType::Uuid => alone(14, nothing()),
    }
}

/// An integer of a width, as it is encoded.
pub open spec fn integer_value(width: u8, signed: bool) -> Value {
    Value::Record(seq![Some(Value::Byte(width)), Some(Value::Flag(signed))])
}

/// An element of the tree of columns, as it is encoded.
pub open spec fn element_slots(
    labels: Labels,
    kind: Option<i32>,
    length: Option<i32>,
    children: Option<i32>,
) -> Seq<Option<Value>> {
    seq![
        int_slot(kind),
        int_slot(length),
        int_slot(labels.repetition),
        Some(Value::Bytes(labels.name)),
        int_slot(children),
        int_slot(labels.converted),
        int_slot(labels.scale),
        int_slot(labels.precision),
        int_slot(labels.field_id),
        match labels.logical {
            Some(logical) => Some(Value::Record(logical_slots(logical))),
            None => None,
        },
    ]
}

/// The element of a column.
pub open spec fn column_element(labels: Labels, kind: i32, length: Option<i32>) -> Value {
    Value::Record(element_slots(labels, Some(kind), length, None))
}

/// The element of a group.
pub open spec fn group_element(labels: Labels, parts: nat) -> Value {
    Value::Record(element_slots(labels, None, None, Some(parts as i32)))
}

/// The elements of a node and of what is under it, with each node before its parts.
pub open spec fn listed(node: SchemaNode) -> Seq<Value>
    decreases node, 0nat,
{
    match node {
        SchemaNode::Column { labels, kind, length } => seq![column_element(labels, kind, length)],
        SchemaNode::Group { labels, parts } => seq![group_element(labels, parts.len())]
            + all_listed(parts, 0),
    }
}

/// The elements of the parts from the one at `k` on.
pub open spec fn all_listed(parts: Seq<SchemaNode>, k: int) -> Seq<Value>
    decreases parts, parts.len() - k,
{
    if 0 <= k < parts.len() {
        listed(parts[k]) + all_listed(parts, k + 1)
    } else {
        Seq::empty()
    }
}

/// How many columns a node has.
pub open spec fn columns_of(node: SchemaNode) -> nat
    decreases node, 0nat,
{
    match node {
        SchemaNode::Column { .. } => 1,
        SchemaNode::Group { parts, .. } => all_columns(parts, 0),
    }
}

/// How many columns the parts from the one at `k` on have.
pub open spec fn all_columns(parts: Seq<SchemaNode>, k: int) -> nat
    decreases parts, parts.len() - k,
{
    if 0 <= k < parts.len() {
        columns_of(parts[k]) + all_columns(parts, k + 1)
    } else {
        0
    }
}

/// The elements of a file.
pub open spec fn schema_items(file: WrittenFile) -> Seq<Value> {
    seq![group_element(file.root, file.schema.len())] + all_listed(file.schema, 0)
}

/// A key with its value, as they are encoded.
pub open spec fn key_value(entry: KeyValue) -> Value {
    Value::Record(seq![Some(Value::Bytes(entry.key)), bytes_slot(entry.value)])
}

/// Keys with their values, as they are encoded.
pub open spec fn key_values(entries: Option<Seq<KeyValue>>) -> Option<Value> {
    match entries {
        Some(entries) => Some(
            records(Seq::new(entries.len(), |k: int| key_value(entries[k]))),
        ),
        None => None,
    }
}

/// A column by which rows are sorted, as it is encoded.
pub open spec fn sorting_value(sorting: SortingColumn) -> Value {
    Value::Record(
        seq![
            Some(Value::Int(sorting.column)),
            Some(Value::Flag(sorting.descending)),
            Some(Value::Flag(sorting.nulls_first)),
        ],
    )
}

/// The encoding of pages, as it is encoded.
pub open spec fn page_encoding_value(pages: PageEncoding) -> Value {
    Value::Record(
        seq![
            Some(Value::Int(pages.page)),
            Some(Value::Int(pages.encoding)),
            Some(Value::Int(pages.count)),
        ],
    )
}

/// The statistics of a column chunk, as they are encoded.
pub open spec fn statistics_slots(statistics: WrittenStatistics) -> Seq<Option<Value>> {
    seq![
        bytes_slot(statistics.max),
        bytes_slot(statistics.min),
        long_slot(statistics.null_count),
        long_slot(statistics.distinct_count),
        bytes_slot(statistics.max_value),
        bytes_slot(statistics.min_value),
    ] + statistics.extra
}

/// The key of a column chunk, as it is encoded.
pub open spec fn chunk_key_value(key: ChunkKey) -> Value {
    Value::Record(
        match key {
            ChunkKey::OfFile => alone(1, nothing()),
            ChunkKey::OfColumn { path, key } => alone(
                2,
                Value::Record(seq![Some(texts_value(path)), bytes_slot(key)]),
            ),
        },
    )
}

/// The encodings of a column chunk, as they are encoded.
pub open spec fn encoding_items(encodings: Seq<i32>) -> Seq<Value> {
    Seq::new(encodings.len(), |k: int| Value::Int(encodings[k]))
}

/// What is said of the data of a column chunk, as it is encoded.
pub open spec fn column_slots(column: WrittenColumn) -> Seq<Option<Value>> {
    seq![
        Some(Value::Int(column.kind)),
        Some(Value::List { wire: 5, items: encoding_items(column.encodings) }),
        Some(texts_value(column.path)),
        Some(Value::Int(column.codec)),
        Some(Value::Long(column.num_values)),
        Some(Value::Long(column.uncompressed_size)),
        Some(Value::Long(column.compressed_size)),
        key_values(column.key_values),
        Some(Value::Long(column.data_page_offset)),
        long_slot(column.index_page_offset),
        long_slot(column.dictionary_page_offset),
        match column.statistics {
            Some(statistics) => Some(Value::Record(statistics_slots(statistics))),
            None => None,
        },
        match column.page_encodings {
            Some(pages) => Some(
                records(Seq::new(pages.len(), |k: int| page_encoding_value(pages[k]))),
            ),
            None => None,
        },
        long_slot(column.bloom_filter_offset),
    ] + column.extra
}

/// A column chunk, as it is encoded.
pub open spec fn chunk_slots(chunk: WrittenChunk) -> Seq<Option<Value>> {
    seq![
        bytes_slot(chunk.file_path),
        Some(Value::Long(chunk.file_offset)),
        Some(Value::Record(column_slots(chunk.column))),
        long_slot(chunk.offset_index_offset),
        int_slot(chunk.offset_index_length),
        long_slot(chunk.column_index_offset),
        int_slot(chunk.column_index_length),
        match chunk.key {
            Some(key) => Some(chunk_key_value(key)),
            None => None,
        },
        bytes_slot(chunk.encrypted),
    ]
}

/// Column chunks, as they are encoded.
pub open spec fn chunk_items(chunks: Seq<WrittenChunk>) -> Seq<Value> {
    Seq::new(chunks.len(), |k: int| Value::Record(chunk_slots(chunks[k])))
}

/// A row group, as it is encoded.
pub open spec fn group_slots(group: WrittenGroup) -> Seq<Option<Value>> {
    seq![
        Some(records(chunk_items(group.chunks))),
        Some(Value::Long(group.total_byte_size)),
        Some(Value::Long(group.num_rows)),
        match group.sorting {
            Some(sorting) => Some(
                records(Seq::new(sorting.len(), |k: int| sorting_value(sorting[k]))),
            ),
            None => None,
        },
        long_slot(group.file_offset),
        long_slot(group.compressed_size),
        match group.ordinal {
            Some(ordinal) => Some(Value::Short(ordinal)),
            None => None,
        },
    ]
}

/// Row groups, as they are encoded.
pub open spec fn group_items(groups: Seq<WrittenGroup>) -> Seq<Value> {
    Seq::new(groups.len(), |k: int| Value::Record(group_slots(groups[k])))
}

/// How a file is encrypted, as it is encoded.
pub open spec fn cipher_value(cipher: Cipher) -> Value {
    let details = Value::Record(
        seq![
            bytes_slot(cipher.prefix),
            bytes_slot(cipher.unique),
            match cipher.is_prefix_supplied {
                Some(supplied) => Some(Value::Flag(supplied)),
                None => None,
            },
        ],
    );
    Value::Record(
        if cipher.is_counter {
            alone(2, details)
        } else {
            alone(1, details)
        },
    )
}

/// The orders of columns, as they are encoded.
pub open spec fn order_items(n: nat) -> Seq<Value> {
    Seq::new(n, |k: int| Value::Record(alone(1, nothing())))
}

/// The metadata of a file, as it is encoded.
pub open spec fn file_slots(file: WrittenFile) -> Seq<Option<Value>> {
    seq![
        Some(Value::Int(file.version)),
        Some(records(schema_items(file))),
        Some(Value::Long(file.num_rows)),
        Some(records(group_items(file.groups))),
        key_values(file.key_values),
        bytes_slot(file.created_by),
        match file.orders {
            Some(n) => Some(records(order_items(n))),
            None => None,
        },
        match file.cipher {
            Some(cipher) => Some(cipher_value(cipher)),
            None => None,
        },
        bytes_slot(file.signing_key),
    ] + file.extra
}

/// The encoding of the metadata of a file.
pub open spec fn metadata_bytes(file: WrittenFile) -> Seq<u8> {
    encode(Value::Record(file_slots(file)))
}

/// Whether a text has a length that can be encoded.
pub open spec fn is_text(text: Seq<u8>) -> bool {
    text.len() <= u32::MAX
}

/// Whether a text, where there is one, has a length that can be encoded.
pub open spec fn is_optional_text(text: Option<Seq<u8>>) -> bool {
    text matches Some(text) ==> is_text(text)
}

/// Whether fields that a newer writer has added can be skipped.
pub open spec fn are_extra(extra: Seq<Option<Value>>) -> bool {
    &&& extra.len() <= 1000
    &&& forall|k: int|
        0 <= k < extra.len() ==> (#[trigger] extra[k] matches Some(value) ==> is_skippable(
            value,
            64,
        ))
}

/// A record of one field fits a union that knows it.
proof fn lemma_alone(id: nat, value: Value, record: Record, shape: Shape)
    requires
        1 <= id <= 14,
        is_union(record),
        expected(record, id as i16) == Some(shape),
        fits(value, shape),
    ensures
        fits(Value::Record(alone(id, value)), Shape::Record(record)),
{
    let slots = alone(id, value);
    assert forall|i: int| 0 <= i < slots.len() implies (#[trigger] slots[i] matches Some(
        value,
    ) ==> fits_slot(value, record, (i + 1) as i16)) by {}
    lemma_fit_slots(slots, 0, record);
    lemma_union(slots, record, id - 1);
}

/// A record without fields fits where none is needed.
proof fn lemma_nothing()
    ensures
        fits(nothing(), Shape::Record(Record::Plain)),
{
    let none: u16 = 0;
    assert(none & 0 == 0) by (bit_vector);
    assert(seen_in(Seq::empty(), 0, Record::Plain, nothing_seen()) == nothing_seen());
}

/// What the values of a column mean fits.
proof fn lemma_logical_fits(logical: LogicalType)
    ensures
        fits(Value::Record(logical_slots(logical)), Shape::Record(Record::LogicalType)),
{
    lemma_nothing();
    match logical {
        LogicalType::Text => lemma_alone_plain(1),
        LogicalType::KeyedValues => lemma_alone_plain(2),
        LogicalType::Items => lemma_alone_plain(3),
        LogicalType::Choice => lemma_alone_plain(4),
        LogicalType::Decimal { scale, precision } => {
            let value = Value::Record(seq![Some(Value::Int(scale)), Some(Value::Int(precision))]);
            lemma_decimal_fits(scale, precision);
            lemma_alone(5, value, Record::LogicalType, Shape::Record(Record::Decimal));
        },
        LogicalType::Date => lemma_alone_plain(6),
        LogicalType::Time { utc, unit } => {
            lemma_time_fits(utc, unit);
            lemma_alone(
                7,
                time_value(utc, unit),
                Record::LogicalType,
                Shape::Record(Record::Time),
            );
        },
        LogicalType::Timestamp { utc, unit } => {
            lemma_time_fits(utc, unit);
            lemma_alone(
                8,
                time_value(utc, unit),
                Record::LogicalType,
                Shape::Record(Record::Time),
            );
        },
        LogicalType::Integer { width, signed } => {
            lemma_integer_fits(width, signed);
            lemma_alone(
                10,
                integer_value(width, signed),
                Record::LogicalType,
                Shape::Record(Record::Integer),
            );
        },
        LogicalType::Null => lemma_alone_plain(11),
        LogicalType::Json => lemma_alone_plain(12),
        LogicalType::Bson => lemma_alone_plain(13),
        LogicalType::Uuid => lemma_alone_plain(14),
    }
}

/// A meaning without details fits.
proof fn lemma_alone_plain(id: nat)
    requires
        1 <= id <= 14,
        expected(Record::LogicalType, id as i16) == Some(Shape::Record(Record::Plain)),
    ensures
        fits(Value::Record(alone(id, nothing())), Shape::Record(Record::LogicalType)),
{
    lemma_nothing();
    lemma_alone(id, nothing(), Record::LogicalType, Shape::Record(Record::Plain));
}

/// The first two fields of a record have been seen where they are there.
proof fn lemma_two_seen(slots: Seq<Option<Value>>, record: Record)
    requires
        slots.len() >= 2,
        slots[0] is Some,
        slots[1] is Some,
    ensures
        seen_in(slots, 0, record, nothing_seen()).ids & 0x3 == 0x3,
{
    let ids = seen_in(slots, 0, record, nothing_seen()).ids;
    lemma_seen(slots, 0, record, nothing_seen(), 0);
    lemma_seen(slots, 0, record, nothing_seen(), 1);
    assert(ids & 0x3 == 0x3) by (bit_vector)
        requires
            ids & 0x1 == 0x1,
            ids & 0x2 == 0x2,
    ;
}

/// The first three fields of a record have been seen where they are there.
proof fn lemma_three_seen(slots: Seq<Option<Value>>, record: Record)
    requires
        slots.len() >= 3,
        slots[0] is Some,
        slots[1] is Some,
        slots[2] is Some,
    ensures
        seen_in(slots, 0, record, nothing_seen()).ids & 0x7 == 0x7,
{
    let ids = seen_in(slots, 0, record, nothing_seen()).ids;
    lemma_two_seen(slots, record);
    lemma_seen(slots, 0, record, nothing_seen(), 2);
    assert(ids & 0x7 == 0x7) by (bit_vector)
        requires
            ids & 0x3 == 0x3,
            ids & 0x4 == 0x4,
    ;
}

/// A decimal fits.
proof fn lemma_decimal_fits(scale: i32, precision: i32)
    ensures
        fits(
            Value::Record(seq![Some(Value::Int(scale)), Some(Value::Int(precision))]),
            Shape::Record(Record::Decimal),
        ),
{
    let slots = seq![Some(Value::Int(scale)), Some(Value::Int(precision))];
    lemma_fit_slots(slots, 0, Record::Decimal);
    lemma_two_seen(slots, Record::Decimal);
}

/// A time fits.
proof fn lemma_time_fits(utc: bool, unit: TimeUnit)
    ensures
        fits(time_value(utc, unit), Shape::Record(Record::Time)),
{
    let slots = seq![Some(Value::Flag(utc)), Some(Value::Record(unit_slots(unit)))];
    lemma_nothing();
    match unit {
        TimeUnit::Millis => lemma_alone(
            1,
            nothing(),
            Record::TimeUnit,
            Shape::Record(Record::Plain),
        ),
        TimeUnit::Micros => lemma_alone(
            2,
            nothing(),
            Record::TimeUnit,
            Shape::Record(Record::Plain),
        ),
        TimeUnit::Nanos => lemma_alone(
            3,
            nothing(),
            Record::TimeUnit,
            Shape::Record(Record::Plain),
        ),
    }
    lemma_fit_slots(slots, 0, Record::Time);
    lemma_two_seen(slots, Record::Time);
}

/// An integer of a width fits.
proof fn lemma_integer_fits(width: u8, signed: bool)
    ensures
        fits(integer_value(width, signed), Shape::Record(Record::Integer)),
{
    let slots = seq![Some(Value::Byte(width)), Some(Value::Flag(signed))];
    lemma_fit_slots(slots, 0, Record::Integer);
    lemma_two_seen(slots, Record::Integer);
}

/// An element fits.
proof fn lemma_element_fits(
    labels: Labels,
    kind: Option<i32>,
    length: Option<i32>,
    children: Option<i32>,
)
    requires
        is_text(labels.name),
    ensures
        fits(
            Value::Record(element_slots(labels, kind, length, children)),
            Shape::Record(Record::Element),
        ),
{
    let slots = element_slots(labels, kind, length, children);
    if let Some(logical) = labels.logical {
        lemma_logical_fits(logical);
    }
    lemma_fit_slots(slots, 0, Record::Element);
    lemma_seen(slots, 0, Record::Element, nothing_seen(), 3);
}

/// What comes of a part of the metadata.
pub enum Verdict {
    /// It is good.
    Good,
    /// It holds what there is not, which is an error.
    Wrong,
    /// It does not add up, which the decoder does not expect.
    Unsound,
}

/// What comes of two parts in a row: what is found first.
pub open spec fn first_of(a: Verdict, b: Verdict) -> Verdict {
    if a is Good {
        b
    } else {
        a
    }
}

/// Whether a node can be encoded. A group has something in it.
pub open spec fn is_node(node: SchemaNode) -> bool
    decreases node, 0nat,
{
    match node {
        SchemaNode::Column { labels, .. } => is_text(labels.name),
        SchemaNode::Group { labels, parts } => {
            &&& is_text(labels.name)
            &&& 1 <= parts.len() <= i32::MAX
            &&& are_nodes(parts, 0)
        },
    }
}

/// Whether the parts from the one at `k` on can be encoded.
pub open spec fn are_nodes(parts: Seq<SchemaNode>, k: int) -> bool
    decreases parts, parts.len() - k,
{
    0 <= k < parts.len() ==> is_node(parts[k]) && are_nodes(parts, k + 1)
}

/// Whether the integers of a node, if it is of integers, have a width that there is.
pub open spec fn has_width(labels: Labels) -> bool {
    labels.logical matches Some(LogicalType::Integer { width, .. }) ==> width == 8 || width == 16
        || width == 32 || width == 64
}

/// Whether a node has a repetition and a converted type that there are, as far as it has
/// them.
pub open spec fn are_labels(labels: Labels) -> bool {
    &&& labels.repetition matches Some(repetition) ==> 0 <= repetition <= 2
    &&& labels.converted matches Some(converted) ==> 0 <= converted <= 21
}

/// What comes of a column by itself. It has a repetition and a physical type that there is,
/// with a length where that needs one. Its integers have a width that there is, and its
/// decimals a length whose bits can be counted.
pub open spec fn column_verdict(labels: Labels, kind: i32, length: Option<i32>) -> Verdict {
    let is_decimal = labels.converted == Some(5i32) || labels.logical matches Some(
        LogicalType::Decimal { .. },
    );
    if !are_labels(labels) || labels.repetition is None {
        Verdict::Wrong
    } else if !(0 <= kind <= 7) || kind == 7 && !(length matches Some(n) && n >= 0) {
        Verdict::Wrong
    } else if !has_width(labels) || kind == 7 && is_decimal && length->0 > 0xFFF_FFFF {
        Verdict::Unsound
    } else {
        Verdict::Good
    }
}

/// What comes of a group by itself. Its integers, which it has none of, are not looked at
/// where it has a converted type.
pub open spec fn group_verdict(labels: Labels) -> Verdict {
    if !are_labels(labels) {
        Verdict::Wrong
    } else if labels.converted is None && !has_width(labels) {
        Verdict::Unsound
    } else {
        Verdict::Good
    }
}

/// What comes of a node and of what is under it.
pub open spec fn node_verdict(node: SchemaNode) -> Verdict
    decreases node, 0nat,
{
    match node {
        SchemaNode::Column { labels, kind, length } => column_verdict(labels, kind, length),
        SchemaNode::Group { labels, parts } => first_of(
            group_verdict(labels),
            parts_verdict(parts, 0),
        ),
    }
}

/// What comes of the parts from the one at `k` on.
pub open spec fn parts_verdict(parts: Seq<SchemaNode>, k: int) -> Verdict
    decreases parts, parts.len() - k,
{
    if 0 <= k < parts.len() {
        first_of(node_verdict(parts[k]), parts_verdict(parts, k + 1))
    } else {
        Verdict::Good
    }
}

/// The level of a node under one of this level: one more, where it is not required.
pub open spec fn level_of(labels: Labels, level: int) -> int {
    if labels.repetition matches Some(repetition) && repetition > 0 {
        level + 1
    } else {
        level
    }
}

/// Whether the levels of a node and of what is under it can be counted, and all groups
/// say how often they occur.
pub open spec fn has_levels(node: SchemaNode, level: int) -> bool
    decreases node, 0nat,
{
    match node {
        SchemaNode::Column { labels, .. } => level_of(labels, level) <= i16::MAX,
        SchemaNode::Group { labels, parts } => {
            &&& labels.repetition is Some
            &&& level_of(labels, level) <= i16::MAX
            &&& have_levels(parts, 0, level_of(labels, level))
        },
    }
}

/// Whether the levels of the parts from the one at `k` on can be counted.
pub open spec fn have_levels(parts: Seq<SchemaNode>, k: int, level: int) -> bool
    decreases parts, parts.len() - k,
{
    0 <= k < parts.len() ==> has_levels(parts[k], level) && have_levels(parts, k + 1, level)
}

/// What the values of a node mean is found in its element.
proof fn lemma_logical_found(
    bytes: Seq<u8>,
    p: int,
    labels: Labels,
    kind: Option<i32>,
    length: Option<i32>,
    children: Option<i32>,
)
    requires
        is_small(bytes),
        is_text(labels.name),
        is_at(bytes, p, encode(Value::Record(element_slots(labels, kind, length, children)))),
    ensures
        match labels.logical {
            Some(logical) => field_in(bytes, p, Record::Element, 10) matches Some(q) && is_at(
                bytes,
                q,
                encode(Value::Record(logical_slots(logical))),
            ),
            None => field_in(bytes, p, Record::Element, 10) is None,
        },
{
    let slots = element_slots(labels, kind, length, children);
    lemma_element_fits(labels, kind, length, children);
    law_fields_are_found(bytes, p, slots, Record::Element, 10);
}

/// Whether the values of a node are decimals is found in its element.
proof fn lemma_decimal_found(
    bytes: Seq<u8>,
    p: int,
    labels: Labels,
    kind: Option<i32>,
    length: Option<i32>,
    children: Option<i32>,
)
    requires
        is_small(bytes),
        is_text(labels.name),
        is_at(bytes, p, encode(Value::Record(element_slots(labels, kind, length, children)))),
    ensures
        has_logical_type(bytes, p, 5) <==> (labels.logical matches Some(
            LogicalType::Decimal { .. },
        )),
{
    lemma_logical_found(bytes, p, labels, kind, length, children);
    if let Some(logical) = labels.logical {
        let q = field_in(bytes, p, Record::Element, 10)->0;
        lemma_logical_fits(logical);
        law_fields_are_found(bytes, q, logical_slots(logical), Record::LogicalType, 5);
    }
}

/// The width of the integers of a node is found in its element.
#[verifier::rlimit(40)]
proof fn lemma_width_found(
    bytes: Seq<u8>,
    p: int,
    labels: Labels,
    kind: Option<i32>,
    length: Option<i32>,
    children: Option<i32>,
)
    requires
        is_small(bytes),
        is_text(labels.name),
        is_at(bytes, p, encode(Value::Record(element_slots(labels, kind, length, children)))),
    ensures
        has_known_width(bytes, p) == has_width(labels),
{
    lemma_logical_found(bytes, p, labels, kind, length, children);
    if let Some(logical) = labels.logical {
        let q = field_in(bytes, p, Record::Element, 10)->0;
        lemma_logical_fits(logical);
        law_fields_are_found(bytes, q, logical_slots(logical), Record::LogicalType, 10);
        if let LogicalType::Integer { width, signed } = logical {
            let r = field_in(bytes, q, Record::LogicalType, 10)->0;
            assert(is_at(bytes, r, encode(integer_value(width, signed))));
            lemma_width_read(bytes, r, width, signed);
        }
    }
}

/// A width is read back.
proof fn lemma_width_read(bytes: Seq<u8>, p: int, width: u8, signed: bool)
    requires
        is_small(bytes),
        is_at(bytes, p, encode(integer_value(width, signed))),
    ensures
        field_in(bytes, p, Record::Integer, 1) matches Some(w) && w < bytes.len() && bytes[w]
            == width,
{
    let fields = seq![Some(Value::Byte(width)), Some(Value::Flag(signed))];
    lemma_integer_fits(width, signed);
    law_fields_are_found(bytes, p, fields, Record::Integer, 1);
    let w = field_in(bytes, p, Record::Integer, 1)->0;
    lemma_byte(bytes, w, seq![width], 0);
}

/// The element of a column is read back.
#[verifier::rlimit(40)]
proof fn lemma_column_element(
    bytes: Seq<u8>,
    p: int,
    labels: Labels,
    kind: i32,
    length: Option<i32>,
)
    requires
        is_small(bytes),
        is_text(labels.name),
        is_at(bytes, p, encode(column_element(labels, kind, length))),
    ensures
        node_at(bytes, p) == (match column_verdict(labels, kind, length) {
            Verdict::Good => Node::Leaf { repetition: labels.repetition },
            Verdict::Wrong => Node::Fails,
            Verdict::Unsound => Node::Unclear,
        }),
{
    let slots = element_slots(labels, Some(kind), length, None);
    lemma_element_fits(labels, Some(kind), length, None);
    lemma_int_in(bytes, p, slots, Record::Element, 1);
    lemma_int_in(bytes, p, slots, Record::Element, 2);
    lemma_int_in(bytes, p, slots, Record::Element, 3);
    lemma_int_in(bytes, p, slots, Record::Element, 5);
    lemma_int_in(bytes, p, slots, Record::Element, 6);
    lemma_decimal_found(bytes, p, labels, Some(kind), length, None);
    lemma_width_found(bytes, p, labels, Some(kind), length, None);
}

/// The element of a group is read back.
proof fn lemma_group_element(bytes: Seq<u8>, p: int, labels: Labels, parts: nat)
    requires
        is_small(bytes),
        is_text(labels.name),
        1 <= parts <= i32::MAX,
        is_at(bytes, p, encode(group_element(labels, parts))),
    ensures
        node_at(bytes, p) == (match group_verdict(labels) {
            Verdict::Good => Node::Group {
                children: parts as i32,
                repetition: labels.repetition,
            },
            Verdict::Wrong => Node::Fails,
            Verdict::Unsound => Node::Unclear,
        }),
{
    let slots = element_slots(labels, None, None, Some(parts as i32));
    lemma_element_fits(labels, None, None, Some(parts as i32));
    lemma_int_in(bytes, p, slots, Record::Element, 3);
    lemma_int_in(bytes, p, slots, Record::Element, 5);
    lemma_int_in(bytes, p, slots, Record::Element, 6);
    lemma_width_found(bytes, p, labels, None, None, Some(parts as i32));
}

/// Whether a list holds these items at a place.
spec fn lists(items: Seq<Value>, k: int, part: Seq<Value>) -> bool {
    0 <= k && k + part.len() <= items.len() && items.subrange(k, k + part.len()) == part
}

/// What lists two parts in a row lists each of them.
proof fn lemma_lists(items: Seq<Value>, k: int, a: Seq<Value>, b: Seq<Value>)
    requires
        lists(items, k, a + b),
    ensures
        lists(items, k, a),
        lists(items, k + a.len(), b),
{
    let whole = items.subrange(k, k + (a + b).len());
    assert forall|i: int| 0 <= i < a.len() implies items[k + i] == a[i] by {
        assert(whole[i] == (a + b)[i]);
    }
    assert(items.subrange(k, k + a.len()) =~= a);
    assert forall|i: int| 0 <= i < b.len() implies items[k + a.len() + i] == b[i] by {
        assert(whole[a.len() + i] == (a + b)[a.len() + i]);
    }
    assert(items.subrange(k + a.len(), k + a.len() + b.len()) =~= b);
}

/// One item more of a list, and where the rest of the list is encoded.
proof fn lemma_item(bytes: Seq<u8>, p: int, items: Seq<Value>, k: int)
    requires
        is_at(bytes, p, encode_items(items, k)),
        0 <= k < items.len(),
    ensures
        is_at(bytes, p, encode(items[k])),
        is_at(bytes, p + encode(items[k]).len(), encode_items(items, k + 1)),
{
    lemma_parts(bytes, p, encode(items[k]), encode_items(items, k + 1));
}

/// What is found in the elements of a list, under the groups that are open.
#[verifier::opaque]
spec fn walked(
    bytes: Seq<u8>,
    p: int,
    n: nat,
    roots: int,
    groups: Seq<OpenGroup>,
    leaves: int,
    sound: bool,
) -> Tree {
    tree_at(bytes, p, n, roots, groups, leaves, sound)
}

/// A child leaves a group open where more are to come, and completes it otherwise.
proof fn lemma_child(groups: Seq<OpenGroup>)
    requires
        groups.len() > 0,
        groups.last().left > 0,
    ensures
        with_child(groups).len() == groups.len(),
        with_child(groups).drop_last() == groups.drop_last(),
        with_child(groups).last().level == groups.last().level,
        with_child(groups).last().left == groups.last().left - 1,
        still_open(with_child(groups)) == (if groups.last().left == 1 {
            still_open(groups.drop_last())
        } else {
            with_child(groups)
        }),
{
    assert(with_child(groups).drop_last() =~= groups.drop_last());
}

/// A node of the tree is walked through under the groups that are open, and is one child
/// more of the last one. Gives where what follows the node is encoded.
#[verifier::rlimit(40)]
proof fn lemma_walk(
    bytes: Seq<u8>,
    p: int,
    items: Seq<Value>,
    k: int,
    node: SchemaNode,
    roots: int,
    groups: Seq<OpenGroup>,
    leaves: int,
    sound: bool,
) -> (q: int)
    requires
        is_small(bytes),
        items.len() <= i32::MAX,
        is_at(bytes, p, encode_items(items, k)),
        lists(items, k, listed(node)),
        is_node(node),
        groups.len() > 0,
        groups.last().left > 0,
        groups.last().level <= k,
    ensures
        is_at(bytes, q, encode_items(items, k + listed(node).len())),
        walked(bytes, p, (items.len() - k) as nat, roots, groups, leaves, sound) == (
        match node_verdict(node) {
            Verdict::Good => walked(
                bytes,
                q,
                (items.len() - k - listed(node).len()) as nat,
                roots,
                still_open(with_child(groups)),
                leaves + columns_of(node),
                sound && has_levels(node, groups.last().level as int),
            ),
            Verdict::Wrong => Tree::Fails,
            Verdict::Unsound => Tree::Unclear,
        }),
    decreases node, 0nat,
{
    reveal(walked);
    let level = groups.last().level;
    match node {
        SchemaNode::Column { labels, kind, length } => {
            assert(items[k] == items.subrange(k, k + 1)[0]);
            lemma_item(bytes, p, items, k);
            lemma_element_fits(labels, Some(kind), length, None);
            lemma_record(
                bytes,
                p,
                element_slots(labels, Some(kind), length, None),
                Record::Element,
            );
            lemma_column_element(bytes, p, labels, kind, length);
            assert(level_under(groups, labels.repetition) == level_of(labels, level as int));
            p + encode(items[k]).len()
        },
        SchemaNode::Group { labels, parts } => {
            let element = group_element(labels, parts.len());
            lemma_lists(items, k, seq![element], all_listed(parts, 0));
            assert(items[k] == items.subrange(k, k + 1)[0]);
            lemma_item(bytes, p, items, k);
            lemma_element_fits(labels, None, None, Some(parts.len() as i32));
            lemma_record(
                bytes,
                p,
                element_slots(labels, None, None, Some(parts.len() as i32)),
                Record::Element,
            );
            lemma_group_element(bytes, p, labels, parts.len());
            let next_level = level_under(groups, labels.repetition);
            assert(next_level == level_of(labels, level as int));
            let open = after_node(groups, parts.len() as i32, next_level, false);
            assert(open == with_child(groups).push(
                OpenGroup { left: parts.len() as u32, level: next_level, holds_items: false },
            ));
            assert(open.drop_last() =~= with_child(groups));
            let q = p + encode(items[k]).len();
            lemma_walk_all(
                bytes,
                q,
                items,
                k + 1,
                parts,
                0,
                roots,
                open,
                leaves,
                sound && labels.repetition is Some && next_level <= i16::MAX,
            )
        },
    }
}

/// The parts of a group from the one at `j` on are walked through, with which the group
/// is complete.
#[verifier::rlimit(40)]
proof fn lemma_walk_all(
    bytes: Seq<u8>,
    p: int,
    items: Seq<Value>,
    k: int,
    parts: Seq<SchemaNode>,
    j: int,
    roots: int,
    groups: Seq<OpenGroup>,
    leaves: int,
    sound: bool,
) -> (q: int)
    requires
        is_small(bytes),
        items.len() <= i32::MAX,
        is_at(bytes, p, encode_items(items, k)),
        lists(items, k, all_listed(parts, j)),
        0 <= j < parts.len(),
        are_nodes(parts, j),
        groups.len() > 0,
        groups.last().left == parts.len() - j,
        groups.last().level <= k,
    ensures
        is_at(bytes, q, encode_items(items, k + all_listed(parts, j).len())),
        walked(bytes, p, (items.len() - k) as nat, roots, groups, leaves, sound) == (
        match parts_verdict(parts, j) {
            Verdict::Good => walked(
                bytes,
                q,
                (items.len() - k - all_listed(parts, j).len()) as nat,
                roots,
                still_open(groups.drop_last()),
                leaves + all_columns(parts, j),
                sound && have_levels(parts, j, groups.last().level as int),
            ),
            Verdict::Wrong => Tree::Fails,
            Verdict::Unsound => Tree::Unclear,
        }),
    decreases parts, parts.len() - j,
{
    let node = parts[j];
    lemma_lists(items, k, listed(node), all_listed(parts, j + 1));
    let r = lemma_walk(bytes, p, items, k, node, roots, groups, leaves, sound);
    let after = with_child(groups);
    let level = groups.last().level as int;
    lemma_child(groups);
    assert(all_listed(parts, j).len() == listed(node).len() + all_listed(parts, j + 1).len());
    assert(all_columns(parts, j) == columns_of(node) + all_columns(parts, j + 1));
    assert(parts_verdict(parts, j) == first_of(node_verdict(node), parts_verdict(parts, j + 1)));
    assert(have_levels(parts, j, level) == (has_levels(node, level) && have_levels(
        parts,
        j + 1,
        level,
    )));
    assert(items.len() - k - all_listed(parts, j).len() == items.len() - (k + listed(node).len())
        - all_listed(parts, j + 1).len());
    if j + 1 < parts.len() {
        lemma_walk_all(
            bytes,
            r,
            items,
            k + listed(node).len(),
            parts,
            j + 1,
            roots,
            after,
            leaves + columns_of(node),
            sound && has_levels(node, level),
        )
    } else {
        assert(parts_verdict(parts, j + 1) is Good && have_levels(parts, j + 1, level));
        assert(all_listed(parts, j + 1).len() == 0);
        r
    }
}

/// What comes of the tree of columns of a file. Its levels are looked at when all of its
/// nodes are good.
pub open spec fn schema_verdict(file: WrittenFile) -> Verdict {
    match first_of(group_verdict(file.root), parts_verdict(file.schema, 0)) {
        Verdict::Good => if have_levels(file.schema, 0, 0) {
            Verdict::Good
        } else {
            Verdict::Unsound
        },
        other => other,
    }
}

/// The tree of columns of a file is walked through: it has the columns that the file
/// states, or does not add up.
#[verifier::rlimit(40)]
proof fn lemma_whole_tree(bytes: Seq<u8>, p: int, file: WrittenFile)
    requires
        is_small(bytes),
        schema_items(file).len() <= i32::MAX,
        is_at(bytes, p, encode_items(schema_items(file), 0)),
        is_text(file.root.name),
        1 <= file.schema.len() <= i32::MAX,
        are_nodes(file.schema, 0),
    ensures
        whole_tree_at(bytes, p, schema_items(file).len()) == (match schema_verdict(file) {
            Verdict::Good => Tree::Columns(all_columns(file.schema, 0) as int),
            Verdict::Wrong => Tree::Fails,
            Verdict::Unsound => Tree::Unclear,
        }),
{
    let items = schema_items(file);
    let parts = file.schema;
    let labels = file.root;
    assert(items.subrange(0, items.len() as int) =~= items);
    lemma_lists(items, 0, seq![group_element(labels, parts.len())], all_listed(parts, 0));
    lemma_item(bytes, p, items, 0);
    lemma_element_fits(labels, None, None, Some(parts.len() as i32));
    lemma_record(
        bytes,
        p,
        element_slots(labels, None, None, Some(parts.len() as i32)),
        Record::Element,
    );
    lemma_group_element(bytes, p, labels, parts.len());
    let q = p + encode(items[0]).len();
    let open = after_node(Seq::empty(), parts.len() as i32, 0, false);
    assert(open.drop_last() =~= Seq::<OpenGroup>::empty());
    reveal(walked);
    let r = lemma_walk_all(bytes, q, items, 1, parts, 0, 1, open, 0, true);
}

/// Whether texts have lengths that can be encoded, and their number too.
pub open spec fn are_texts(texts: Seq<Seq<u8>>) -> bool {
    texts.len() <= i32::MAX && forall|k: int| 0 <= k < texts.len() ==> is_text(#[trigger] texts[k])
}

/// Whether keys and values have lengths that can be encoded, and their number too.
pub open spec fn are_key_values(entries: Option<Seq<KeyValue>>) -> bool {
    entries matches Some(entries) ==> {
        &&& entries.len() <= i32::MAX
        &&& forall|k: int|
            0 <= k < entries.len() ==> is_text((#[trigger] entries[k]).key) && is_optional_text(
                entries[k].value,
            )
    }
}

/// Whether the statistics of a column chunk can be encoded.
pub open spec fn are_statistics(statistics: WrittenStatistics) -> bool {
    &&& is_optional_text(statistics.max)
    &&& is_optional_text(statistics.min)
    &&& is_optional_text(statistics.max_value)
    &&& is_optional_text(statistics.min_value)
    &&& are_extra(statistics.extra)
}

/// Whether what is said of the data of a column chunk can be encoded.
pub open spec fn is_column(column: WrittenColumn) -> bool {
    &&& column.encodings.len() <= i32::MAX
    &&& are_texts(column.path)
    &&& are_key_values(column.key_values)
    &&& column.statistics matches Some(statistics) ==> are_statistics(statistics)
    &&& column.page_encodings matches Some(pages) ==> pages.len() <= i32::MAX
    &&& are_extra(column.extra)
}

/// Whether a column chunk can be encoded.
pub open spec fn is_chunk(chunk: WrittenChunk) -> bool {
    &&& is_optional_text(chunk.file_path)
    &&& is_column(chunk.column)
    &&& chunk.key matches Some(ChunkKey::OfColumn { path, key }) ==> are_texts(path)
        && is_optional_text(key)
    &&& is_optional_text(chunk.encrypted)
}

/// Whether a row group can be encoded.
pub open spec fn is_group(group: WrittenGroup) -> bool {
    &&& group.chunks.len() <= i32::MAX
    &&& forall|k: int| 0 <= k < group.chunks.len() ==> is_chunk(#[trigger] group.chunks[k])
    &&& group.sorting matches Some(sorting) ==> sorting.len() <= i32::MAX
}

/// Texts fit.
proof fn lemma_texts_fit(texts: Seq<Seq<u8>>)
    requires
        are_texts(texts),
    ensures
        fits(texts_value(texts), Shape::Texts),
{
    let items = Seq::new(texts.len(), |k: int| Value::Bytes(texts[k]));
    lemma_fit_items(items, 0, Shape::Bytes);
}

/// Keys with their values fit.
proof fn lemma_key_values_fit(entries: Seq<KeyValue>)
    requires
        are_key_values(Some(entries)),
    ensures
        fits(key_values(Some(entries))->0, Shape::Records(Record::KeyValue)),
{
    let items = Seq::new(entries.len(), |k: int| key_value(entries[k]));
    assert forall|k: int| 0 <= k < items.len() implies fits(
        #[trigger] items[k],
        Shape::Record(Record::KeyValue),
    ) by {
        let slots = seq![Some(Value::Bytes(entries[k].key)), bytes_slot(entries[k].value)];
        lemma_fit_slots(slots, 0, Record::KeyValue);
        lemma_seen(slots, 0, Record::KeyValue, nothing_seen(), 0);
    }
    lemma_fit_items(items, 0, Shape::Record(Record::KeyValue));
}

/// Columns by which rows are sorted fit.
proof fn lemma_sorting_fits(sorting: Seq<SortingColumn>)
    requires
        sorting.len() <= i32::MAX,
    ensures
        fits(
            records(Seq::new(sorting.len(), |k: int| sorting_value(sorting[k]))),
            Shape::Records(Record::SortingColumn),
        ),
{
    let items = Seq::new(sorting.len(), |k: int| sorting_value(sorting[k]));
    assert forall|k: int| 0 <= k < items.len() implies fits(
        #[trigger] items[k],
        Shape::Record(Record::SortingColumn),
    ) by {
        let slots = seq![
            Some(Value::Int(sorting[k].column)),
            Some(Value::Flag(sorting[k].descending)),
            Some(Value::Flag(sorting[k].nulls_first)),
        ];
        lemma_fit_slots(slots, 0, Record::SortingColumn);
        lemma_three_seen(slots, Record::SortingColumn);
    }
    lemma_fit_items(items, 0, Shape::Record(Record::SortingColumn));
}

/// The encodings of pages fit.
proof fn lemma_pages_fit(pages: Seq<PageEncoding>)
    requires
        pages.len() <= i32::MAX,
    ensures
        fits(
            records(Seq::new(pages.len(), |k: int| page_encoding_value(pages[k]))),
            Shape::Records(Record::PageEncoding),
        ),
{
    let items = Seq::new(pages.len(), |k: int| page_encoding_value(pages[k]));
    assert forall|k: int| 0 <= k < items.len() implies fits(
        #[trigger] items[k],
        Shape::Record(Record::PageEncoding),
    ) by {
        let slots = seq![
            Some(Value::Int(pages[k].page)),
            Some(Value::Int(pages[k].encoding)),
            Some(Value::Int(pages[k].count)),
        ];
        lemma_fit_slots(slots, 0, Record::PageEncoding);
        lemma_three_seen(slots, Record::PageEncoding);
    }
    lemma_fit_items(items, 0, Shape::Record(Record::PageEncoding));
}

/// The statistics of a column chunk fit.
proof fn lemma_statistics_fit(statistics: WrittenStatistics)
    requires
        are_statistics(statistics),
    ensures
        fits(Value::Record(statistics_slots(statistics)), Shape::Record(Record::Statistics)),
{
    let slots = statistics_slots(statistics);
    let ids = seen_in(slots, 0, Record::Statistics, nothing_seen()).ids;
    assert forall|i: int| 0 <= i < slots.len() implies (#[trigger] slots[i] matches Some(
        value,
    ) ==> fits_slot(value, Record::Statistics, (i + 1) as i16)) by {
        if i >= 6 {
            assert(slots[i] == statistics.extra[i - 6]);
        }
    }
    lemma_fit_slots(slots, 0, Record::Statistics);
    assert(ids & 0 == 0) by (bit_vector);
}

/// The key of a column chunk fits.
proof fn lemma_chunk_key_fits(key: ChunkKey)
    requires
        key matches ChunkKey::OfColumn { path, key } ==> are_texts(path) && is_optional_text(key),
    ensures
        fits(chunk_key_value(key), Shape::Record(Record::ColumnCrypto)),
{
    lemma_nothing();
    match key {
        ChunkKey::OfFile => lemma_alone(
            1,
            nothing(),
            Record::ColumnCrypto,
            Shape::Record(Record::Plain),
        ),
        ChunkKey::OfColumn { path, key } => {
            let slots = seq![Some(texts_value(path)), bytes_slot(key)];
            lemma_texts_fit(path);
            lemma_fit_slots(slots, 0, Record::ColumnKey);
            lemma_seen(slots, 0, Record::ColumnKey, nothing_seen(), 0);
            lemma_alone(
                2,
                Value::Record(slots),
                Record::ColumnCrypto,
                Shape::Record(Record::ColumnKey),
            );
        },
    }
}

/// The fields that a column chunk must have have been seen.
proof fn lemma_column_seen(column: WrittenColumn)
    ensures
        seen_in(column_slots(column), 0, Record::Column, nothing_seen()).ids & 0x17F == 0x17F,
{
    let slots = column_slots(column);
    let ids = seen_in(slots, 0, Record::Column, nothing_seen()).ids;
    lemma_three_seen(slots, Record::Column);
    lemma_seen(slots, 0, Record::Column, nothing_seen(), 3);
    lemma_seen(slots, 0, Record::Column, nothing_seen(), 4);
    lemma_seen(slots, 0, Record::Column, nothing_seen(), 5);
    lemma_seen(slots, 0, Record::Column, nothing_seen(), 6);
    lemma_seen(slots, 0, Record::Column, nothing_seen(), 8);
    assert(ids & 0x17F == 0x17F) by (bit_vector)
        requires
            ids & 0x7 == 0x7,
            ids & 0x8 == 0x8,
            ids & 0x10 == 0x10,
            ids & 0x20 == 0x20,
            ids & 0x40 == 0x40,
            ids & 0x100 == 0x100,
    ;
}

/// What is said of the data of a column chunk fits.
#[verifier::rlimit(40)]
proof fn lemma_column_fits(column: WrittenColumn)
    requires
        is_column(column),
    ensures
        fits(Value::Record(column_slots(column)), Shape::Record(Record::Column)),
{
    let slots = column_slots(column);
    lemma_fit_items(encoding_items(column.encodings), 0, Shape::Int);
    lemma_texts_fit(column.path);
    if let Some(entries) = column.key_values {
        lemma_key_values_fit(entries);
    }
    if let Some(statistics) = column.statistics {
        lemma_statistics_fit(statistics);
    }
    if let Some(pages) = column.page_encodings {
        lemma_pages_fit(pages);
    }
    assert forall|i: int| 0 <= i < slots.len() implies (#[trigger] slots[i] matches Some(
        value,
    ) ==> fits_slot(value, Record::Column, (i + 1) as i16)) by {
        if i >= 14 {
            assert(slots[i] == column.extra[i - 14]);
        }
    }
    lemma_fit_slots(slots, 0, Record::Column);
    lemma_column_seen(column);
}

/// A column chunk fits.
proof fn lemma_chunk_fits(chunk: WrittenChunk)
    requires
        is_chunk(chunk),
    ensures
        fits(Value::Record(chunk_slots(chunk)), Shape::Record(Record::Chunk)),
{
    let slots = chunk_slots(chunk);
    lemma_column_fits(chunk.column);
    if let Some(key) = chunk.key {
        lemma_chunk_key_fits(key);
    }
    lemma_fit_slots(slots, 0, Record::Chunk);
    lemma_seen(slots, 0, Record::Chunk, nothing_seen(), 1);
}

/// A row group fits.
proof fn lemma_group_fits(group: WrittenGroup)
    requires
        is_group(group),
    ensures
        fits(Value::Record(group_slots(group)), Shape::Record(Record::RowGroup)),
{
    let slots = group_slots(group);
    let chunks = chunk_items(group.chunks);
    assert forall|k: int| 0 <= k < chunks.len() implies fits(
        #[trigger] chunks[k],
        Shape::Record(Record::Chunk),
    ) by {
        lemma_chunk_fits(group.chunks[k]);
    }
    lemma_fit_items(chunks, 0, Shape::Record(Record::Chunk));
    if let Some(sorting) = group.sorting {
        lemma_sorting_fits(sorting);
    }
    lemma_fit_slots(slots, 0, Record::RowGroup);
    lemma_three_seen(slots, Record::RowGroup);
}

/// Whether a bound of a column chunk is as long as a value of its physical type is read.
pub open spec fn has_bound(kind: i32, bound: Option<Seq<u8>>) -> bool {
    bound matches Some(bound) ==> match kind {
        0 => bound.len() >= 1,
        1 => bound.len() >= 4,
        2 => bound.len() >= 8,
        3 => bound.len() == 12,
        4 => bound.len() >= 4,
        5 => bound.len() >= 8,
        _ => true,
    }
}

/// Whether the bounds of a column chunk that are read are as long as values of its
/// physical type. Those of old writers are read where there are no others.
pub open spec fn has_bounds(column: WrittenColumn) -> bool {
    column.statistics matches Some(statistics) ==> {
        if statistics.max_value is None && statistics.min_value is None {
            has_bound(column.kind, statistics.max) && has_bound(column.kind, statistics.min)
        } else {
            has_bound(column.kind, statistics.max_value) && has_bound(
                column.kind,
                statistics.min_value,
            )
        }
    }
}

/// Whether the encodings from the one at `k` on are such as there are.
pub open spec fn have_known_encodings(encodings: Seq<i32>, k: int) -> bool {
    forall|i: int|
        k <= i < encodings.len() ==> {
            ||| #[trigger] encodings[i] == 0
            ||| 2 <= encodings[i] <= 9
        }
}

/// What comes of a column chunk. Its physical type, its encodings and its codec are such as
/// there are, no number of nulls is negative, and its bounds can be read.
pub open spec fn chunk_verdict(column: WrittenColumn) -> Verdict {
    if !(0 <= column.kind <= 7) || !have_known_encodings(column.encodings, 0) || !(0
        <= column.codec <= 7) {
        Verdict::Wrong
    } else if column.statistics matches Some(statistics) && (
    statistics.null_count matches Some(count) && count < 0) {
        Verdict::Wrong
    } else if has_bounds(column) {
        Verdict::Good
    } else {
        Verdict::Unsound
    }
}

/// What comes of the chunks from the one at `k` on.
pub open spec fn chunks_verdict(chunks: Seq<WrittenChunk>, k: int) -> Verdict
    decreases chunks.len() - k,
{
    if 0 <= k < chunks.len() {
        first_of(chunk_verdict(chunks[k].column), chunks_verdict(chunks, k + 1))
    } else {
        Verdict::Good
    }
}

/// What comes of a row group in a file of so many columns: it has a chunk for each.
pub open spec fn row_group_verdict(group: WrittenGroup, columns: nat) -> Verdict {
    if group.chunks.len() != columns {
        Verdict::Unsound
    } else {
        chunks_verdict(group.chunks, 0)
    }
}

/// What comes of the row groups from the one at `k` on.
pub open spec fn groups_verdict(groups: Seq<WrittenGroup>, k: int, columns: nat) -> Verdict
    decreases groups.len() - k,
{
    if 0 <= k < groups.len() {
        first_of(row_group_verdict(groups[k], columns), groups_verdict(groups, k + 1, columns))
    } else {
        Verdict::Good
    }
}

/// What a scan says where a part comes to a verdict.
spec fn part_of(verdict: Verdict) -> Part {
    match verdict {
        Verdict::Good => Part::Fine,
        Verdict::Wrong => Part::Fails,
        Verdict::Unsound => Part::Unclear,
    }
}

/// The encodings of a column chunk are read back.
proof fn lemma_encodings(bytes: Seq<u8>, p: int, encodings: Seq<i32>, k: int)
    requires
        is_at(bytes, p, encode_items(encoding_items(encodings), k)),
        0 <= k <= encodings.len(),
    ensures
        are_encodings(bytes, p, (encodings.len() - k) as nat) == have_known_encodings(
            encodings,
            k,
        ),
    decreases encodings.len() - k,
{
    if k < encodings.len() {
        let items = encoding_items(encodings);
        lemma_item(bytes, p, items, k);
        lemma_int(bytes, p, encodings[k]);
        lemma_encodings(bytes, p + encode(items[k]).len(), encodings, k + 1);
        assert(have_known_encodings(encodings, k) == ((encodings[k] == 0 || 2 <= encodings[k]
            <= 9) && have_known_encodings(encodings, k + 1)));
    }
}

/// The length of a bound, where there is one.
spec fn length_of(bound: Option<Seq<u8>>) -> Option<int> {
    match bound {
        Some(bound) => Some(bound.len() as int),
        None => None,
    }
}

/// The bounds of a column chunk are read back.
proof fn lemma_bounds(bytes: Seq<u8>, p: int, statistics: WrittenStatistics)
    requires
        is_small(bytes),
        are_statistics(statistics),
        is_at(bytes, p, encode(Value::Record(statistics_slots(statistics)))),
    ensures
        length_in(bytes, p, Record::Statistics, 1) == length_of(statistics.max),
        length_in(bytes, p, Record::Statistics, 2) == length_of(statistics.min),
        length_in(bytes, p, Record::Statistics, 5) == length_of(statistics.max_value),
        length_in(bytes, p, Record::Statistics, 6) == length_of(statistics.min_value),
{
    let slots = statistics_slots(statistics);
    lemma_statistics_fit(statistics);
    lemma_length_in(bytes, p, slots, Record::Statistics, 1);
    lemma_length_in(bytes, p, slots, Record::Statistics, 2);
    lemma_length_in(bytes, p, slots, Record::Statistics, 5);
    lemma_length_in(bytes, p, slots, Record::Statistics, 6);
}

/// The number of nulls of a column chunk is read back.
proof fn lemma_nulls(bytes: Seq<u8>, p: int, statistics: WrittenStatistics)
    requires
        is_small(bytes),
        are_statistics(statistics),
        is_at(bytes, p, encode(Value::Record(statistics_slots(statistics)))),
    ensures
        has_negative_nulls(bytes, p) <==> (statistics.null_count matches Some(count) && count < 0),
{
    let slots = statistics_slots(statistics);
    lemma_statistics_fit(statistics);
    law_fields_are_found(bytes, p, slots, Record::Statistics, 3);
    if let Some(count) = statistics.null_count {
        lemma_long(bytes, field_in(bytes, p, Record::Statistics, 3)->0, count);
    }
}

/// The statistics of a column chunk are read back.
proof fn lemma_statistics(bytes: Seq<u8>, p: int, column: WrittenColumn)
    requires
        is_small(bytes),
        column.statistics matches Some(statistics) && are_statistics(statistics) && is_at(
            bytes,
            p,
            encode(Value::Record(statistics_slots(statistics))),
        ),
        0 <= column.kind <= 7,
    ensures
        has_bound_lengths(bytes, p, column.kind as int) == has_bounds(column),
{
    lemma_bounds(bytes, p, column.statistics->0);
}

/// The settings of a column chunk are read back.
#[verifier::rlimit(40)]
proof fn lemma_settings(bytes: Seq<u8>, p: int, column: WrittenColumn)
    requires
        is_small(bytes),
        is_column(column),
        is_at(bytes, p, encode(Value::Record(column_slots(column)))),
    ensures
        has_known_settings(bytes, p) <==> 0 <= column.kind <= 7 && have_known_encodings(
            column.encodings,
            0,
        ) && 0 <= column.codec <= 7,
        int_in(bytes, p, Record::Column, 1) == Some(column.kind as int),
{
    let slots = column_slots(column);
    let items = encoding_items(column.encodings);
    lemma_column_fits(column);
    lemma_int_in(bytes, p, slots, Record::Column, 1);
    lemma_int_in(bytes, p, slots, Record::Column, 4);
    law_fields_are_found(bytes, p, slots, Record::Column, 2);
    let q = field_in(bytes, p, Record::Column, 2)->0;
    lemma_parts(bytes, q, list_head(items.len(), 5), encode_items(items, 0));
    lemma_list_head(bytes, q, items.len(), 5);
    lemma_encodings(bytes, q + list_head(items.len(), 5).len(), column.encodings, 0);
}

/// The statistics of a column chunk are found.
proof fn lemma_statistics_found(bytes: Seq<u8>, p: int, column: WrittenColumn)
    requires
        is_small(bytes),
        is_column(column),
        is_at(bytes, p, encode(Value::Record(column_slots(column)))),
    ensures
        match column.statistics {
            Some(statistics) => field_in(bytes, p, Record::Column, 12) matches Some(q) && is_at(
                bytes,
                q,
                encode(Value::Record(statistics_slots(statistics))),
            ),
            None => field_in(bytes, p, Record::Column, 12) is None,
        },
{
    lemma_column_fits(column);
    law_fields_are_found(bytes, p, column_slots(column), Record::Column, 12);
}

/// What is said of the data of a column chunk is found.
proof fn lemma_column_found(bytes: Seq<u8>, p: int, chunk: WrittenChunk)
    requires
        is_small(bytes),
        is_chunk(chunk),
        is_at(bytes, p, encode(Value::Record(chunk_slots(chunk)))),
    ensures
        field_in(bytes, p, Record::Chunk, 3) matches Some(q) && is_at(
            bytes,
            q,
            encode(Value::Record(column_slots(chunk.column))),
        ),
{
    lemma_chunk_fits(chunk);
    law_fields_are_found(bytes, p, chunk_slots(chunk), Record::Chunk, 3);
}

/// A column chunk is read back.
#[verifier::rlimit(40)]
proof fn lemma_chunk(bytes: Seq<u8>, p: int, chunk: WrittenChunk)
    requires
        is_small(bytes),
        is_chunk(chunk),
        is_at(bytes, p, encode(Value::Record(chunk_slots(chunk)))),
    ensures
        chunk_at(bytes, p) == part_of(chunk_verdict(chunk.column)),
{
    let column = chunk.column;
    lemma_column_found(bytes, p, chunk);
    let q = field_in(bytes, p, Record::Chunk, 3)->0;
    lemma_settings(bytes, q, column);
    lemma_statistics_found(bytes, q, column);
    if let Some(statistics) = column.statistics {
        let r = field_in(bytes, q, Record::Column, 12)->0;
        lemma_nulls(bytes, r, statistics);
        if 0 <= column.kind <= 7 {
            lemma_statistics(bytes, r, column);
        }
    }
}

/// Column chunks are read back.
proof fn lemma_chunks(bytes: Seq<u8>, p: int, chunks: Seq<WrittenChunk>, k: int)
    requires
        is_small(bytes),
        0 <= k <= chunks.len(),
        forall|i: int| 0 <= i < chunks.len() ==> is_chunk(#[trigger] chunks[i]),
        is_at(bytes, p, encode_items(chunk_items(chunks), k)),
    ensures
        chunks_at(bytes, p, (chunks.len() - k) as nat) == part_of(chunks_verdict(chunks, k)),
    decreases chunks.len() - k,
{
    if k < chunks.len() {
        let items = chunk_items(chunks);
        lemma_item(bytes, p, items, k);
        lemma_chunk_fits(chunks[k]);
        lemma_record(bytes, p, chunk_slots(chunks[k]), Record::Chunk);
        lemma_chunk(bytes, p, chunks[k]);
        lemma_chunks(bytes, p + encode(items[k]).len(), chunks, k + 1);
    }
}

/// A row group is read back.
proof fn lemma_group(bytes: Seq<u8>, p: int, group: WrittenGroup, columns: nat)
    requires
        is_small(bytes),
        is_group(group),
        is_at(bytes, p, encode(Value::Record(group_slots(group)))),
    ensures
        group_at(bytes, p, columns as int) == part_of(row_group_verdict(group, columns)),
{
    let items = chunk_items(group.chunks);
    lemma_group_fits(group);
    law_fields_are_found(bytes, p, group_slots(group), Record::RowGroup, 1);
    let q = field_in(bytes, p, Record::RowGroup, 1)->0;
    lemma_parts(bytes, q, list_head(items.len(), 12), encode_items(items, 0));
    lemma_list_head(bytes, q, items.len(), 12);
    lemma_chunks(bytes, q + list_head(items.len(), 12).len(), group.chunks, 0);
}

/// Row groups are read back.
proof fn lemma_groups(bytes: Seq<u8>, p: int, groups: Seq<WrittenGroup>, k: int, columns: nat)
    requires
        is_small(bytes),
        0 <= k <= groups.len(),
        forall|i: int| 0 <= i < groups.len() ==> is_group(#[trigger] groups[i]),
        is_at(bytes, p, encode_items(group_items(groups), k)),
    ensures
        groups_at(bytes, p, (groups.len() - k) as nat, columns as int) == part_of(
            groups_verdict(groups, k, columns),
        ),
    decreases groups.len() - k,
{
    if k < groups.len() {
        let items = group_items(groups);
        lemma_item(bytes, p, items, k);
        lemma_group_fits(groups[k]);
        lemma_record(bytes, p, group_slots(groups[k]), Record::RowGroup);
        lemma_group(bytes, p, groups[k], columns);
        lemma_groups(bytes, p + encode(items[k]).len(), groups, k + 1, columns);
    }
}

/// Whether the metadata of a file can be encoded: its texts and lists have lengths that fit
/// 32 bits, and its tree of columns has something in each group.
pub open spec fn is_written(file: WrittenFile) -> bool {
    &&& is_text(file.root.name)
    &&& 1 <= file.schema.len() <= i32::MAX
    &&& are_nodes(file.schema, 0)
    &&& schema_items(file).len() <= i32::MAX
    &&& file.groups.len() <= i32::MAX
    &&& forall|k: int| 0 <= k < file.groups.len() ==> is_group(#[trigger] file.groups[k])
    &&& are_key_values(file.key_values)
    &&& is_optional_text(file.created_by)
    &&& file.orders matches Some(n) ==> n <= i32::MAX
    &&& file.cipher matches Some(cipher) ==> is_optional_text(cipher.prefix) && is_optional_text(
        cipher.unique,
    )
    &&& is_optional_text(file.signing_key)
    &&& are_extra(file.extra)
}

/// What comes of the metadata of a file: of its tree of columns, or else of its row groups,
/// or else of the orders of its columns, which are given for each column or for none.
pub open spec fn file_verdict(file: WrittenFile) -> Verdict {
    let columns = all_columns(file.schema, 0);
    first_of(
        schema_verdict(file),
        first_of(
            groups_verdict(file.groups, 0, columns),
            if file.orders matches Some(n) && n != columns {
                Verdict::Unsound
            } else {
                Verdict::Good
            },
        ),
    )
}

/// The elements of parts fit.
proof fn lemma_listed_fit(parts: Seq<SchemaNode>, j: int)
    requires
        are_nodes(parts, j),
    ensures
        forall|i: int|
            0 <= i < all_listed(parts, j).len() ==> fits(
                #[trigger] all_listed(parts, j)[i],
                Shape::Record(Record::Element),
            ),
    decreases parts, parts.len() - j,
{
    if 0 <= j < parts.len() {
        let part = listed(parts[j]);
        let rest = all_listed(parts, j + 1);
        assert(is_node(parts[j]));
        match parts[j] {
            SchemaNode::Column { labels, kind, length } => {
                lemma_element_fits(labels, Some(kind), length, None);
            },
            SchemaNode::Group { labels, parts: under } => {
                lemma_element_fits(labels, None, None, Some(under.len() as i32));
                lemma_listed_fit(under, 0);
                let element = group_element(labels, under.len());
                assert forall|i: int| 0 <= i < part.len() implies fits(
                    #[trigger] part[i],
                    Shape::Record(Record::Element),
                ) by {
                    if i > 0 {
                        assert(part[i] == all_listed(under, 0)[i - 1]);
                    }
                }
            },
        }
        lemma_listed_fit(parts, j + 1);
        assert forall|i: int| 0 <= i < all_listed(parts, j).len() implies fits(
            #[trigger] all_listed(parts, j)[i],
            Shape::Record(Record::Element),
        ) by {
            if i < part.len() {
                assert(all_listed(parts, j)[i] == part[i]);
            } else {
                assert(all_listed(parts, j)[i] == rest[i - part.len()]);
            }
        }
    }
}

/// The elements of a file fit.
proof fn lemma_schema_fits(file: WrittenFile)
    requires
        is_written(file),
    ensures
        fits(records(schema_items(file)), Shape::Records(Record::Element)),
{
    let items = schema_items(file);
    lemma_element_fits(file.root, None, None, Some(file.schema.len() as i32));
    lemma_listed_fit(file.schema, 0);
    assert forall|i: int| 0 <= i < items.len() implies fits(
        #[trigger] items[i],
        Shape::Record(Record::Element),
    ) by {
        if i > 0 {
            assert(items[i] == all_listed(file.schema, 0)[i - 1]);
        }
    }
    lemma_fit_items(items, 0, Shape::Record(Record::Element));
}

/// The row groups of a file fit.
proof fn lemma_groups_fit(file: WrittenFile)
    requires
        is_written(file),
    ensures
        fits(records(group_items(file.groups)), Shape::Records(Record::RowGroup)),
{
    let items = group_items(file.groups);
    assert forall|k: int| 0 <= k < items.len() implies fits(
        #[trigger] items[k],
        Shape::Record(Record::RowGroup),
    ) by {
        lemma_group_fits(file.groups[k]);
    }
    lemma_fit_items(items, 0, Shape::Record(Record::RowGroup));
}

/// The orders of columns fit.
proof fn lemma_orders_fit(n: nat)
    requires
        n <= i32::MAX,
    ensures
        fits(records(order_items(n)), Shape::Records(Record::ColumnOrder)),
{
    let items = order_items(n);
    lemma_nothing();
    lemma_alone(1, nothing(), Record::ColumnOrder, Shape::Record(Record::Plain));
    lemma_fit_items(items, 0, Shape::Record(Record::ColumnOrder));
}

/// How a file is encrypted fits.
proof fn lemma_cipher_fits(cipher: Cipher)
    requires
        is_optional_text(cipher.prefix),
        is_optional_text(cipher.unique),
    ensures
        fits(cipher_value(cipher), Shape::Record(Record::Encryption)),
{
    let slots = seq![
        bytes_slot(cipher.prefix),
        bytes_slot(cipher.unique),
        match cipher.is_prefix_supplied {
            Some(supplied) => Some(Value::Flag(supplied)),
            None => None,
        },
    ];
    let ids = seen_in(slots, 0, Record::Cipher, nothing_seen()).ids;
    lemma_fit_slots(slots, 0, Record::Cipher);
    assert(ids & 0 == 0) by (bit_vector);
    lemma_alone(1, Value::Record(slots), Record::Encryption, Shape::Record(Record::Cipher));
    lemma_alone(2, Value::Record(slots), Record::Encryption, Shape::Record(Record::Cipher));
}

/// The metadata of a file fits.
#[verifier::rlimit(40)]
proof fn lemma_file_fits(file: WrittenFile)
    requires
        is_written(file),
    ensures
        fits(Value::Record(file_slots(file)), Shape::Record(Record::File)),
{
    let slots = file_slots(file);
    let ids = seen_in(slots, 0, Record::File, nothing_seen()).ids;
    lemma_schema_fits(file);
    lemma_groups_fit(file);
    if let Some(entries) = file.key_values {
        lemma_key_values_fit(entries);
    }
    if let Some(n) = file.orders {
        lemma_orders_fit(n);
    }
    if let Some(cipher) = file.cipher {
        lemma_cipher_fits(cipher);
    }
    assert forall|i: int| 0 <= i < slots.len() implies (#[trigger] slots[i] matches Some(
        value,
    ) ==> fits_slot(value, Record::File, (i + 1) as i16)) by {
        if i >= 9 {
            assert(slots[i] == file.extra[i - 9]);
        }
    }
    lemma_fit_slots(slots, 0, Record::File);
    lemma_three_seen(slots, Record::File);
    lemma_seen(slots, 0, Record::File, nothing_seen(), 3);
    assert(ids & 0xF == 0xF) by (bit_vector)
        requires
            ids & 0x7 == 0x7,
            ids & 0x8 == 0x8,
    ;
}

/// A list of records in the metadata of a file is found, with where its items are encoded.
proof fn lemma_list_found(file: WrittenFile, wanted: i16, items: Seq<Value>) -> (p: int)
    requires
        is_written(file),
        is_small(metadata_bytes(file)),
        1 <= wanted <= 9,
        file_slots(file)[wanted - 1] == Some(records(items)),
        items.len() <= i32::MAX,
    ensures
        field_in(metadata_bytes(file), 0, Record::File, wanted) is Some,
        list_header(
            metadata_bytes(file),
            field_in(metadata_bytes(file), 0, Record::File, wanted)->0,
        ) == Some((items.len() as int, 12u8, p)),
        is_at(metadata_bytes(file), p, encode_items(items, 0)),
{
    let bytes = metadata_bytes(file);
    let slots = file_slots(file);
    assert(bytes.subrange(0, bytes.len() as int) =~= bytes);
    lemma_file_fits(file);
    law_fields_are_found(bytes, 0, slots, Record::File, wanted);
    let q = field_in(bytes, 0, Record::File, wanted)->0;
    lemma_parts(bytes, q, list_head(items.len(), 12), encode_items(items, 0));
    lemma_list_head(bytes, q, items.len(), 12);
    q + list_head(items.len(), 12).len()
}

/// The orders of columns in the metadata of a file are found.
proof fn lemma_orders_found(file: WrittenFile, columns: nat)
    requires
        is_written(file),
        is_small(metadata_bytes(file)),
    ensures
        has_column_orders(metadata_bytes(file), columns as int) <==> (file.orders matches Some(n)
            ==> n == columns),
{
    let bytes = metadata_bytes(file);
    match file.orders {
        Some(n) => {
            let p = lemma_list_found(file, 7, order_items(n));
        },
        None => {
            assert(bytes.subrange(0, bytes.len() as int) =~= bytes);
            lemma_file_fits(file);
            law_fields_are_found(bytes, 0, file_slots(file), Record::File, 7);
        },
    }
}

/// The metadata of a file is read through.
proof fn lemma_file_read(file: WrittenFile)
    requires
        is_written(file),
        is_small(metadata_bytes(file)),
    ensures
        after_record(metadata_bytes(file), 0, Record::File) == Outcome::At(
            metadata_bytes(file).len() as int,
        ),
{
    let bytes = metadata_bytes(file);
    assert(bytes.subrange(0, bytes.len() as int) =~= bytes);
    lemma_file_fits(file);
    lemma_record(bytes, 0, file_slots(file), Record::File);
}

/// Written metadata is decodable unless it does not add up before it holds what there is
/// not, which is an error that is returned. A scan of its encoding ends where the encoding
/// ends, whatever physical types and meanings its columns have, and whatever fields a newer
/// writer has added.
#[verifier::rlimit(40)]
pub proof fn law_written_metadata_is_decodable(file: WrittenFile)
    requires
        is_written(file),
        is_small(metadata_bytes(file)),
    ensures
        after_record(metadata_bytes(file), 0, Record::File) == Outcome::At(
            metadata_bytes(file).len() as int,
        ),
        is_decodable(metadata_bytes(file)) <==> !(file_verdict(file) is Unsound),
{
    let bytes = metadata_bytes(file);
    let columns = all_columns(file.schema, 0);
    lemma_file_read(file);
    let p = lemma_list_found(file, 2, schema_items(file));
    lemma_whole_tree(bytes, p, file);
    let q = lemma_list_found(file, 4, group_items(file.groups));
    lemma_groups(bytes, q, file.groups, 0, columns);
    lemma_orders_found(file, columns);
    reveal(is_decodable);
}

/// Whether a column is one that a writer makes: of a repetition, a physical type and a
/// converted type that there are, with a length where its physical type has one, and with
/// none or any one of the meanings of the format.
pub open spec fn is_well_formed_column(labels: Labels, kind: i32, length: Option<i32>) -> bool {
    &&& labels.repetition matches Some(repetition) && 0 <= repetition <= 2
    &&& labels.converted matches Some(converted) ==> 0 <= converted <= 21
    &&& 0 <= kind <= 7
    &&& kind == 7 ==> (length matches Some(n) && 0 <= n <= 0xFFF_FFFF)
    &&& match labels.logical {
        None => true,
        Some(LogicalType::Text) => true,
        Some(LogicalType::KeyedValues) => true,
        Some(LogicalType::Items) => true,
        Some(LogicalType::Choice) => true,
        Some(LogicalType::Decimal { .. }) => true,
        Some(LogicalType::Date) => true,
        Some(LogicalType::Time { .. }) => true,
        Some(LogicalType::Timestamp { .. }) => true,
        Some(LogicalType::Integer { width, .. }) => width == 8 || width == 16 || width == 32
            || width == 64,
        Some(LogicalType::Null) => true,
        Some(LogicalType::Json) => true,
        Some(LogicalType::Bson) => true,
        Some(LogicalType::Uuid) => true,
    }
}

/// Whether a node is one that a writer makes, at a level that can be counted.
pub open spec fn is_well_formed(node: SchemaNode, level: int) -> bool
    decreases node, 0nat,
{
    match node {
        SchemaNode::Column { labels, kind, length } => {
            &&& is_well_formed_column(labels, kind, length)
            &&& level_of(labels, level) <= i16::MAX
        },
        SchemaNode::Group { labels, parts } => {
            &&& labels.repetition matches Some(repetition) && 0 <= repetition <= 2
            &&& labels.converted matches Some(converted) ==> 0 <= converted <= 21
            &&& has_width(labels)
            &&& level_of(labels, level) <= i16::MAX
            &&& are_well_formed(parts, 0, level_of(labels, level))
        },
    }
}

/// Whether the parts from the one at `k` on are such as a writer makes.
pub open spec fn are_well_formed(parts: Seq<SchemaNode>, k: int, level: int) -> bool
    decreases parts, parts.len() - k,
{
    0 <= k < parts.len() ==> is_well_formed(parts[k], level) && are_well_formed(
        parts,
        k + 1,
        level,
    )
}

/// Whether a column chunk is one that a writer makes: with bounds that are as long as the
/// values of its physical type.
pub open spec fn is_well_formed_chunk(column: WrittenColumn) -> bool {
    &&& 0 <= column.kind <= 7
    &&& have_known_encodings(column.encodings, 0)
    &&& 0 <= column.codec <= 7
    &&& column.statistics matches Some(statistics) ==> {
        &&& statistics.null_count matches Some(count) ==> count >= 0
        &&& has_bound(column.kind, statistics.max)
        &&& has_bound(column.kind, statistics.min)
        &&& has_bound(column.kind, statistics.max_value)
        &&& has_bound(column.kind, statistics.min_value)
    }
}

/// Whether the metadata of a file is such as a writer makes: a tree of columns, row groups
/// with a chunk for each column, and an order for each column or for none.
pub open spec fn is_well_formed_file(file: WrittenFile) -> bool {
    let columns = all_columns(file.schema, 0);
    &&& is_written(file)
    &&& file.root.repetition is None
    &&& file.root.converted is None
    &&& file.root.logical is None
    &&& are_well_formed(file.schema, 0, 0)
    &&& forall|g: int|
        0 <= g < file.groups.len() ==> {
            &&& (#[trigger] file.groups[g]).chunks.len() == columns
            &&& forall|k: int|
                0 <= k < columns ==> is_well_formed_chunk(
                    (#[trigger] file.groups[g].chunks[k]).column,
                )
        }
    &&& file.orders matches Some(n) ==> n == columns
}

/// Nodes that a writer makes are good, and have levels that can be counted.
proof fn lemma_well_formed(parts: Seq<SchemaNode>, k: int, level: int)
    requires
        are_well_formed(parts, k, level),
    ensures
        parts_verdict(parts, k) is Good,
        have_levels(parts, k, level),
    decreases parts, parts.len() - k,
{
    if 0 <= k < parts.len() {
        assert(is_well_formed(parts[k], level));
        if let SchemaNode::Group { labels, parts: under } = parts[k] {
            lemma_well_formed(under, 0, level_of(labels, level));
        }
        lemma_well_formed(parts, k + 1, level);
        assert(node_verdict(parts[k]) is Good);
        assert(has_levels(parts[k], level));
    }
}

/// Chunks that a writer makes are good.
proof fn lemma_well_formed_chunks(chunks: Seq<WrittenChunk>, k: int)
    requires
        0 <= k,
        forall|i: int|
            0 <= i < chunks.len() ==> is_well_formed_chunk((#[trigger] chunks[i]).column),
    ensures
        chunks_verdict(chunks, k) is Good,
    decreases chunks.len() - k,
{
    if k < chunks.len() {
        lemma_well_formed_chunks(chunks, k + 1);
        assert(is_well_formed_chunk(chunks[k].column));
    }
}

/// Row groups that a writer makes are good.
proof fn lemma_well_formed_groups(file: WrittenFile, k: int)
    requires
        0 <= k,
        is_well_formed_file(file),
    ensures
        groups_verdict(file.groups, k, all_columns(file.schema, 0)) is Good,
    decreases file.groups.len() - k,
{
    if k < file.groups.len() {
        lemma_well_formed_groups(file, k + 1);
        assert(file.groups[k].chunks.len() == all_columns(file.schema, 0));
        lemma_well_formed_chunks(file.groups[k].chunks, 0);
    }
}

/// Metadata that a writer makes is decodable: a tree of columns of known physical types,
/// each column with none or any one of the meanings of the format, and row groups with one
/// chunk for each column.
pub proof fn law_well_formed_metadata_is_decodable(file: WrittenFile)
    requires
        is_well_formed_file(file),
        is_small(metadata_bytes(file)),
    ensures
        is_decodable(metadata_bytes(file)),
{
    law_written_metadata_is_decodable(file);
    lemma_well_formed(file.schema, 0, 0);
    lemma_well_formed_groups(file, 0);
}

/// Metadata that was cut is decodable: that it ends too early is an error, wherever it ends,
/// and no list in it is too long to be begun.
pub proof fn law_cut_metadata_is_an_error(file: WrittenFile, n: int)
    requires
        is_written(file),
        is_small(metadata_bytes(file)),
        has_short_lists(Value::Record(file_slots(file)), Shape::Record(Record::File)),
        0 <= n < metadata_bytes(file).len(),
    ensures
        after_record(metadata_bytes(file).take(n), 0, Record::File) == Outcome::Fails,
        is_decodable(metadata_bytes(file).take(n)),
{
    let bytes = metadata_bytes(file);
    let cut = bytes.take(n);
    assert(cut.subrange(0, n) =~= bytes.subrange(0, n));
    lemma_file_fits(file);
    law_cut_values_are_errors(
        cut,
        0,
        Value::Record(file_slots(file)),
        Shape::Record(Record::File),
    );
    reveal(is_decodable);
}

} // verus!
