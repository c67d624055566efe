//! Clearing the metadata of schemas, and merging them.

use std::collections::HashMap;
use std::sync::Arc;

use arrow::datatypes::{DataType, Field, Fields, Schema, UnionFields, UnionMode};
use parquet_format::accumulator::DataKind;
use parquet_format::schema::{
    clear_metadata, column_names, merge_schemas, table_columns, TypeClass,
};
use parquet_format::Error;

fn entries(key: &str, value: &str) -> HashMap<String, String> {
    HashMap::from([(key.to_string(), value.to_string())])
}

fn schema(value: &str) -> Schema {
    let a = Field::new("a", DataType::Int32, false).with_metadata(entries("field", value));
    let b = Field::new("b", DataType::Utf8, true);
    Schema::new_with_metadata(vec![a, b], entries("schema", value))
}

#[test]
fn cleared_schemas_keep_all_but_metadata() {
    let dictionary = DataType::Dictionary(Box::new(DataType::Int32), Box::new(DataType::Utf8));
    let field = Field::new_dict("d", dictionary, true, 7, true).with_metadata(entries("k", "v"));
    let schemas = vec![schema("x"), Schema::new(vec![field]), Schema::empty()];
    let cleared = clear_metadata(schemas);
    assert_eq!(cleared.len(), 3);
    assert_eq!(
        cleared[0],
        Schema::new(vec![
            Field::new("a", DataType::Int32, false),
            Field::new("b", DataType::Utf8, true),
        ])
    );
    assert!(cleared[1].field(0).metadata().is_empty());
    assert_eq!(cleared[1].field(0).dict_id(), Some(7));
    assert_eq!(cleared[1].field(0).dict_is_ordered(), Some(true));
    assert!(cleared[1].field(0).is_nullable());
    assert_eq!(cleared[2], Schema::empty());
    // Clearing again changes nothing.
    assert_eq!(clear_metadata(cleared.clone()), cleared);
}

#[test]
fn skipped_metadata_does_not_conflict() {
    let schemas = vec![schema("x"), schema("y")];
    assert!(matches!(merge_schemas(schemas.clone(), false), Err(Error::ArrowError(_))));
    let merged = merge_schemas(schemas, true).unwrap();
    assert_eq!(vec![merged], clear_metadata(vec![schema("z")]));
}

#[test]
fn metadata_that_is_not_skipped_is_merged() {
    let other = Schema::new_with_metadata(
        vec![Field::new("a", DataType::Int32, true).with_metadata(entries("other", "1"))],
        entries("more", "2"),
    );
    let merged = merge_schemas(vec![schema("x"), other], false).unwrap();
    assert_eq!(merged.metadata()["schema"], "x");
    assert_eq!(merged.metadata()["more"], "2");
    assert_eq!(merged.metadata().len(), 2);
    assert_eq!(merged.field(0).metadata()["field"], "x");
    assert_eq!(merged.field(0).metadata()["other"], "1");
    assert_eq!(merged.field(0).metadata().len(), 2);
    assert!(merged.field(0).is_nullable());
}

#[test]
fn fields_are_merged_in_the_order_in_which_they_occur() {
    let second = Schema::new(vec![
        Field::new("c", DataType::Boolean, false),
        Field::new("a", DataType::Int32, false),
    ]);
    let merged = merge_schemas(vec![schema("x"), second], true).unwrap();
    assert_eq!(column_names(&merged), ["a", "b", "c"]);
    assert!(!merged.field(0).is_nullable());
}

#[test]
fn one_schema_merges_to_itself() {
    assert_eq!(merge_schemas(vec![schema("x")], false).unwrap(), schema("x"));
    assert_eq!(merge_schemas(vec![], false).unwrap(), Schema::empty());
}

#[test]
fn fields_of_different_types_do_not_merge() {
    let other = Schema::new(vec![Field::new("a", DataType::Int64, false)]);
    let merged = merge_schemas(vec![schema("x"), other], true);
    assert!(matches!(merged, Err(Error::ArrowError(_))));
}

#[test]
fn nested_fields_of_one_type_merge() {
    let item = |data_type| Arc::new(Field::new("item", data_type, true));
    let dictionary = DataType::Dictionary(Box::new(DataType::Int32), Box::new(DataType::Utf8));
    let parts: Fields = vec![
        Field::new("x", DataType::Int32, true).with_metadata(entries("k", "v")),
        Field::new("y", DataType::Struct(vec![Field::new("z", DataType::Utf8, true)].into()), true),
    ]
    .into();
    let entry = Field::new("entries", DataType::Struct(parts.clone()), false);
    let types = [
        DataType::List(item(DataType::Int32)),
        DataType::LargeList(item(DataType::Utf8)),
        DataType::FixedSizeList(item(DataType::Int32), 3),
        DataType::Map(Arc::new(entry), false),
        dictionary,
        DataType::RunEndEncoded(item(DataType::Int32), item(DataType::Utf8)),
        DataType::Struct(parts.clone()),
    ];
    for data_type in types {
        // The same type, by fields of their own.
        let schemas = ["x", "y"].map(|value| {
            let field = Field::new("a", data_type.clone(), true);
            Schema::new(vec![field.with_metadata(entries("field", value))])
        });
        let merged = merge_schemas(schemas.to_vec(), true).unwrap();
        assert_eq!(merged, Schema::new(vec![Field::new("a", data_type, true)]));
        assert!(merge_schemas(schemas.to_vec(), false).is_err());
    }
    // Different lists do not merge.
    let schemas = [DataType::Int32, DataType::Int64]
        .map(|t| Schema::new(vec![Field::new("a", DataType::List(item(t)), true)]));
    assert!(matches!(merge_schemas(schemas.to_vec(), true), Err(Error::ArrowError(_))));
}

#[test]
fn the_parts_of_structs_merge() {
    let structure = |parts: Vec<Field>| DataType::Struct(parts.into());
    let table = |parts: Vec<Field>| Schema::new(vec![Field::new("a", structure(parts), true)]);
    let text = |name: &str| Field::new(name, DataType::Utf8, true);
    let int = |nullable: bool| Field::new("x", DataType::Int32, nullable);
    let first = || table(vec![int(false), Field::new("y", structure(vec![text("p")]), false)]);
    let second = table(vec![
        text("z"),
        int(true),
        Field::new("y", structure(vec![text("q"), text("p")]), false),
    ]);
    let merged = table(vec![
        int(true),
        Field::new("y", structure(vec![text("p"), text("q")]), false),
        text("z"),
    ]);
    assert_eq!(merge_schemas(vec![first(), second, first()], false).unwrap(), merged);
    // Parts of one name have one type, and their metadata is never skipped.
    let other = table(vec![Field::new("x", DataType::Int64, true)]);
    assert!(merge_schemas(vec![first(), other], true).is_err());
    let noted = |value| table(vec![int(true).with_metadata(entries("k", value))]);
    assert!(merge_schemas(vec![noted("1"), noted("1")], true).is_ok());
    assert!(merge_schemas(vec![noted("1"), noted("2")], true).is_err());
    assert!(merge_schemas(vec![first(), Schema::new(vec![text("a")])], true).is_err());
}

#[test]
fn the_parts_of_unions_merge() {
    let union = |ids: Vec<i8>, parts: Vec<Field>| {
        DataType::Union(UnionFields::new(ids, parts), UnionMode::Dense)
    };
    let table = |data_type: DataType| Schema::new(vec![Field::new("a", data_type, true)]);
    let int = || Field::new("x", DataType::Int32, true);
    let text = || Field::new("x", DataType::Utf8, true);
    let first = || table(union(vec![3], vec![int()]));
    let second = table(union(vec![4, 3], vec![text(), int()]));
    let merged = table(union(vec![3, 4], vec![int(), text()]));
    assert_eq!(merge_schemas(vec![first(), second, first()], true).unwrap(), merged);
    // The mode is that of the first, and equal parts have one number.
    let fields = UnionFields::new(vec![3], vec![int()]);
    let sparse = table(DataType::Union(fields, UnionMode::Sparse));
    assert_eq!(merge_schemas(vec![first(), sparse], true).unwrap(), first());
    let other = table(union(vec![4], vec![int()]));
    assert!(merge_schemas(vec![first(), other], true).is_err());
}

#[test]
fn parts_of_one_name_merge() {
    let structure = |parts: Vec<Field>| DataType::Struct(parts.into());
    let table = |parts: Vec<Field>| Schema::new(vec![Field::new("a", structure(parts), true)]);
    let int = |nullable: bool| Field::new("x", DataType::Int32, nullable);
    let twice = || table(vec![int(false), int(true)]);
    assert_eq!(merge_schemas(vec![twice()], true).unwrap(), twice());
    assert_eq!(
        merge_schemas(vec![twice(), twice()], true).unwrap(),
        table(vec![int(true)])
    );
}

#[test]
fn columns_are_listed_with_their_kinds() {
    let schema = Schema::new(vec![
        Field::new("b", DataType::Boolean, true),
        Field::new("i", DataType::Int32, true),
        Field::new("l", DataType::Int64, true),
        Field::new("f", DataType::Float32, true),
        Field::new("d", DataType::Float64, true),
        Field::new("s", DataType::Utf8, true),
        Field::new("t", DataType::Date32, true),
        Field::new("n", DataType::Struct(vec![Field::new("x", DataType::Int32, true)].into()), true),
    ]);
    let columns = table_columns(&schema);
    let kinds: Vec<DataKind> = columns.iter().map(|column| column.kind).collect();
    assert_eq!(
        kinds,
        [
            DataKind::Boolean,
            DataKind::Int32,
            DataKind::Int64,
            DataKind::Float32,
            DataKind::Float64,
            DataKind::Other,
            DataKind::Other,
            DataKind::Other,
        ]
    );
    let names: Vec<&str> = columns.iter().map(|column| column.name.as_str()).collect();
    assert_eq!(names, column_names(&schema));
    assert_eq!(TypeClass::Int64.kind(), DataKind::Int64);
    assert_eq!(TypeClass::Struct.kind(), DataKind::Other);
}
