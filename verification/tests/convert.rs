//! Metadata that is turned into a schema, and metadata that is not.

use std::sync::Arc;

use arrow::datatypes::{DataType, Field, Schema};
use arrow::ipc::{
    FieldBuilder, IntBuilder, ListBuilder, MessageBuilder, MessageHeader, SchemaBuilder, Type,
    UnionBuilder,
};
use base64::Engine;
use flatbuffers::{FlatBufferBuilder, WIPOffset};
use parquet::basic::{ConvertedType, Repetition};
use parquet::file::metadata::{FileMetaData, KeyValue, ParquetMetaData};
use parquet::schema::parser::parse_message_type;
use parquet::schema::types::{SchemaDescriptor, Type as SchemaType};
use parquet_format::embedded::can_convert;
use parquet_format::format::ParquetFormat;
use parquet_format::metadata::{checked_fetch_schema, checked_fetch_statistics};
use parquet_format::Error;

fn file(root: SchemaType, key_values: Vec<KeyValue>) -> ParquetMetaData {
    let schema = Arc::new(SchemaDescriptor::new(Arc::new(root)));
    ParquetMetaData::new(FileMetaData::new(1, 0, None, Some(key_values), schema, None), vec![])
}

fn plain() -> SchemaType {
    parse_message_type("message m { required int32 a; }").unwrap()
}

fn entry(value: Option<String>) -> KeyValue {
    KeyValue { key: "ARROW:schema".to_string(), value }
}

fn base64(bytes: &[u8]) -> Option<String> {
    Some(base64::engine::general_purpose::STANDARD.encode(bytes))
}

fn int_field<'a>(
    builder: &mut FlatBufferBuilder<'a>,
    bits: i32,
) -> WIPOffset<arrow::ipc::Field<'a>> {
    let name = builder.create_string("a");
    let mut int = IntBuilder::new(builder);
    int.add_bitWidth(bits);
    int.add_is_signed(true);
    let int = int.finish().as_union_value();
    let mut field = FieldBuilder::new(builder);
    field.add_name(name);
    field.add_type_type(Type::Int);
    field.add_type_(int);
    field.finish()
}

fn finish<'a>(
    mut builder: FlatBufferBuilder<'a>,
    field: WIPOffset<arrow::ipc::Field<'a>>,
) -> Vec<u8> {
    let fields = builder.create_vector(&[field]);
    let mut schema = SchemaBuilder::new(&mut builder);
    schema.add_fields(fields);
    let schema = schema.finish().as_union_value();
    let mut message = MessageBuilder::new(&mut builder);
    message.add_header_type(MessageHeader::Schema);
    message.add_header(schema);
    let message = message.finish();
    builder.finish(message, None);
    builder.finished_data().to_vec()
}

/// A message with a schema of one integer column of so many bits.
fn int_message(bits: i32) -> Vec<u8> {
    let mut builder = FlatBufferBuilder::new();
    let field = int_field(&mut builder, bits);
    finish(builder, field)
}

/// A message with a schema of one column of lists of integers of so many bits.
fn list_message(bits: i32) -> Vec<u8> {
    let mut builder = FlatBufferBuilder::new();
    let item = int_field(&mut builder, bits);
    let children = builder.create_vector(&[item]);
    let name = builder.create_string("a");
    let list = ListBuilder::new(&mut builder).finish().as_union_value();
    let mut field = FieldBuilder::new(&mut builder);
    field.add_name(name);
    field.add_type_type(Type::List);
    field.add_type_(list);
    field.add_children(children);
    let field = field.finish();
    finish(builder, field)
}

fn names(metadata: &ParquetMetaData) -> Vec<String> {
    let schema = checked_fetch_schema(metadata).unwrap().unwrap();
    schema.fields().iter().map(|f| format!("{}: {:?}", f.name(), f.data_type())).collect()
}

fn is_refused(metadata: &ParquetMetaData) -> bool {
    assert!(can_convert(metadata));
    matches!(checked_fetch_schema(metadata), Some(Err(Error::ParquetError(_))))
}

fn is_left_out(metadata: &ParquetMetaData) -> bool {
    let table = Schema::new(vec![Field::new("a", DataType::Int32, true)]);
    assert!(checked_fetch_schema(metadata).is_none() != can_convert(metadata));
    assert!(checked_fetch_statistics(metadata, &table).is_none() != can_convert(metadata));
    let statistics = ParquetFormat::new().checked_infer_stats(&table, metadata);
    assert!(statistics.is_none() != can_convert(metadata));
    !can_convert(metadata)
}

#[test]
fn a_schema_that_a_writer_put_into_a_file_is_used() {
    assert_eq!(names(&file(plain(), vec![])), ["a: Int32"]);
    for bits in [8, 16, 32, 64] {
        let metadata = file(plain(), vec![entry(base64(&int_message(bits)))]);
        assert!(!is_left_out(&metadata));
        assert_eq!(names(&metadata), ["a: Int32"]);
    }
    // A mark and a length may stand before the message.
    let mut marked = vec![255, 255, 255, 255, 0, 0, 0, 0];
    marked.extend_from_slice(&int_message(32));
    assert_eq!(names(&file(plain(), vec![entry(base64(&marked))])), ["a: Int32"]);
}

#[test]
fn a_schema_that_does_not_decode_is_refused() {
    assert!(is_refused(&file(plain(), vec![entry(Some("!".to_string()))])));
    assert!(is_refused(&file(plain(), vec![entry(base64(b"abc"))])));
    // A type that does not suit the column is of no account.
    assert_eq!(names(&file(plain(), vec![entry(base64(&list_message(32)))])), ["a: Int32"]);
}

#[test]
fn a_schema_of_types_that_there_are_not_is_left_out() {
    for bits in [0, 7, 128] {
        assert!(is_left_out(&file(plain(), vec![entry(base64(&int_message(bits)))])));
        assert!(is_left_out(&file(plain(), vec![entry(base64(&list_message(bits)))])));
    }
    let mut marked = vec![255, 255, 255, 255, 0, 0, 0, 0];
    marked.extend_from_slice(&int_message(7));
    assert!(is_left_out(&file(plain(), vec![entry(base64(&marked))])));
    // A field without a type.
    let mut builder = FlatBufferBuilder::new();
    let name = builder.create_string("a");
    let mut field = FieldBuilder::new(&mut builder);
    field.add_name(name);
    let field = field.finish();
    assert!(is_left_out(&file(plain(), vec![entry(base64(&finish(builder, field)))])));
}

#[test]
fn the_last_schema_of_a_file_counts() {
    let good = || entry(base64(&int_message(32)));
    let bad = || entry(base64(&int_message(7)));
    assert!(!is_left_out(&file(plain(), vec![bad(), good()])));
    assert!(is_left_out(&file(plain(), vec![good(), bad()])));
    assert!(is_left_out(&file(plain(), vec![bad(), entry(None)])));
    let other = KeyValue { key: "ARROW".to_string(), value: base64(&int_message(7)) };
    assert!(!is_left_out(&file(plain(), vec![other])));
}

#[test]
fn maps_and_lists_stand_where_they_can() {
    let tree = |text: &str| file(parse_message_type(text).unwrap(), vec![]);
    let map = "message m { required group a (MAP) { repeated group b { required int32 k; \
               required int32 v; } } }";
    assert!(!is_left_out(&tree(map)));
    assert_eq!(names(&tree(map)).len(), 1);
    assert!(is_left_out(&tree("message m { required group a (MAP) { repeated int32 b; } }")));
    assert!(is_refused(&tree("message m { required group a (MAP) { required int32 b; } }")));
    assert!(!is_left_out(&tree("message m { required group a (LIST) { repeated int32 b; } }")));
    // A map that is repeated is refused, and what holds the items of a list is no map.
    let repeated = "message m { repeated group a (MAP) { repeated int32 b; } }";
    assert!(is_refused(&tree(repeated)));
    let in_list = "message m { required group a (LIST) { repeated group b (MAP) { \
                   repeated int32 c; } } }";
    assert!(!is_left_out(&tree(in_list)));
    assert_eq!(names(&tree(in_list)).len(), 1);
}

#[test]
fn a_root_is_no_map_and_no_list() {
    let fields = |text: &str| parse_message_type(text).unwrap().get_fields().to_vec();
    let root = |converted, text: &str| {
        let builder = SchemaType::group_type_builder("m").with_converted_type(converted);
        builder.with_fields(fields(text)).build().unwrap()
    };
    let entries = "message m { repeated group a { required int32 k; required int32 v; } }";
    let items = "message m { repeated int32 a; }";
    let schema = || vec![entry(base64(&int_message(32)))];
    for converted in [ConvertedType::MAP, ConvertedType::MAP_KEY_VALUE] {
        assert!(is_left_out(&file(root(converted, entries), vec![])));
        assert!(is_left_out(&file(root(converted, items), vec![])));
        // A schema of the writer's does not fit, and other children do not.
        assert!(is_refused(&file(root(converted, entries), schema())));
        for text in [
            "message m { required int32 a; }",
            "message m { repeated int32 a; repeated int32 b; }",
            "message m { repeated group a { required int32 k; } }",
            "message m { repeated group a { optional int32 k; required int32 v; } }",
            "message m { repeated group a { required group k { required int32 x; } \
             repeated int32 v; } }",
        ] {
            assert!(is_refused(&file(root(converted, text), vec![])));
        }
    }
    assert!(is_left_out(&file(root(ConvertedType::LIST, items), vec![])));
    assert!(is_refused(&file(root(ConvertedType::LIST, "message m { required int32 a; }"), vec![])));
    let builder = || SchemaType::group_type_builder("m").with_repetition(Repetition::REPEATED);
    assert!(is_left_out(&file(builder().with_fields(fields(items)).build().unwrap(), vec![])));
    assert!(!is_left_out(&file(builder().build().unwrap(), vec![])));
    let list = builder().with_converted_type(ConvertedType::LIST).with_fields(fields(items));
    assert!(is_refused(&file(list.build().unwrap(), vec![])));
}

/// A message with a schema of one union of an integer column, with these numbers.
fn union_message(ids: &[i32]) -> Vec<u8> {
    let mut builder = FlatBufferBuilder::new();
    let item = int_field(&mut builder, 32);
    let children = builder.create_vector(&[item]);
    let name = builder.create_string("a");
    let ids = builder.create_vector(ids);
    let mut union = UnionBuilder::new(&mut builder);
    union.add_typeIds(ids);
    let union = union.finish().as_union_value();
    let mut field = FieldBuilder::new(&mut builder);
    field.add_name(name);
    field.add_type_type(Type::Union);
    field.add_type_(union);
    field.add_children(children);
    let field = field.finish();
    finish(builder, field)
}

#[test]
fn numbers_of_parts_of_a_union_are_different() {
    let metadata = |ids: &[i32]| file(plain(), vec![entry(base64(&union_message(ids)))]);
    for ids in [&[][..], &[5], &[256], &[5, 6], &[5, 6, 6], &[5, 6, -1]] {
        assert!(!is_left_out(&metadata(ids)));
        assert_eq!(names(&metadata(ids)), ["a: Int32"]);
    }
    for ids in [&[-1][..], &[128], &[5, 5], &[5, 261], &[5, -1]] {
        assert!(is_left_out(&metadata(ids)));
    }
}

#[test]
fn the_text_of_an_error_is_not_told_by_the_metadata() {
    // A list in place of a group, whose item has two keys.
    let notes = [("k".to_string(), "1".to_string()), ("l".to_string(), "2".to_string())];
    let item = Field::new("item", DataType::Int32, true).with_metadata(notes.into());
    let list = Schema::new(vec![Field::new("a", DataType::List(Arc::new(item)), true)]);
    let generator = arrow::ipc::writer::IpcDataGenerator::default();
    let options = arrow::ipc::writer::IpcWriteOptions::default();
    let message = generator.schema_to_bytes(&list, &options).ipc_message;
    let group = parse_message_type("message m { required group a { required int32 b; } }").unwrap();
    assert!(is_refused(&file(group, vec![entry(base64(&message))])));
}
