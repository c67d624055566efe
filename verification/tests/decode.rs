//! Metadata that decodes, that is refused, and that is not handed to the decoder.

use std::sync::Arc;

use arrow::array::{ArrayRef, BooleanArray, Float64Array, Int32Array, StringArray};
use arrow::record_batch::RecordBatch;
use parquet::arrow::ArrowWriter;
use parquet::file::metadata::ParquetMetaData;
use parquet::file::properties::WriterProperties;
use parquet::format::{
    ColumnChunk, ColumnMetaData, ColumnOrder, CompressionCodec, ConvertedType, DecimalType, Encoding,
    FieldRepetitionType, FileMetaData, IntType, LogicalType, RowGroup, SchemaElement, Statistics,
    Type, TypeDefinedOrder,
};
use parquet_format::compact::can_decode;
use parquet_format::footer::{begin_fetch, checked_fetch_parquet_metadata, FetchState, FetchStep};
use parquet_format::Error;
use thrift::protocol::{TCompactOutputProtocol, TSerializable};

fn encode(metadata: &FileMetaData) -> Vec<u8> {
    let mut bytes: Vec<u8> = Vec::new();
    metadata.write_to_out_protocol(&mut TCompactOutputProtocol::new(&mut bytes)).unwrap();
    bytes
}

/// A file that holds nothing but this metadata.
fn file(metadata: &[u8]) -> Vec<u8> {
    let mut bytes = metadata.to_vec();
    bytes.extend_from_slice(&(metadata.len() as u32).to_le_bytes());
    bytes.extend_from_slice(b"PAR1");
    bytes
}

/// Decodes metadata, or gives `None` where it is not handed to the decoder. Whether it was
/// read at once or in two parts does not matter.
fn decode(metadata: &[u8]) -> Option<Result<ParquetMetaData, Error>> {
    let file = file(metadata);
    let (range, state) = begin_fetch(file.len(), Some(file.len())).unwrap();
    let at_once = checked_fetch_parquet_metadata(state, file[range.start..range.end].to_vec());
    assert_eq!(at_once.is_some(), can_decode(metadata));
    if metadata.len() > 1 {
        let suffix = file[1..].to_vec();
        let state = FetchState::Remaining { length: metadata.len(), suffix };
        let in_parts = checked_fetch_parquet_metadata(state, file[..1].to_vec());
        assert_eq!(format!("{in_parts:?}"), format!("{at_once:?}"));
    }
    at_once.map(|step| match step {
        Ok(FetchStep::Done(metadata)) => Ok(metadata),
        Ok(step) => panic!("{step:?}"),
        Err(error) => Err(error),
    })
}

fn is_decoded(metadata: &FileMetaData) -> bool {
    matches!(decode(&encode(metadata)), Some(Ok(_)))
}

fn is_refused(metadata: &FileMetaData) -> bool {
    matches!(decode(&encode(metadata)), Some(Err(Error::ParquetError(_))))
}

fn is_left_out(metadata: &FileMetaData) -> bool {
    decode(&encode(metadata)).is_none()
}

fn root(num_children: i32) -> SchemaElement {
    SchemaElement {
        type_: None,
        type_length: None,
        repetition_type: None,
        name: "root".to_string(),
        num_children: Some(num_children),
        converted_type: None,
        scale: None,
        precision: None,
        field_id: None,
        logical_type: None,
    }
}

fn group(num_children: i32) -> SchemaElement {
    SchemaElement { repetition_type: Some(FieldRepetitionType::OPTIONAL), ..root(num_children) }
}

fn leaf() -> SchemaElement {
    SchemaElement {
        type_: Some(Type::INT32),
        repetition_type: Some(FieldRepetitionType::OPTIONAL),
        num_children: None,
        name: "a".to_string(),
        ..root(0)
    }
}

fn chunk() -> ColumnChunk {
    ColumnChunk {
        file_path: None,
        file_offset: 4,
        meta_data: Some(ColumnMetaData {
            type_: Type::INT32,
            encodings: vec![],
            path_in_schema: vec!["a".to_string()],
            codec: CompressionCodec::UNCOMPRESSED,
            num_values: 1,
            total_uncompressed_size: 10,
            total_compressed_size: 10,
            key_value_metadata: None,
            data_page_offset: 4,
            index_page_offset: None,
            dictionary_page_offset: None,
            statistics: None,
            encoding_stats: None,
            bloom_filter_offset: None,
        }),
        offset_index_offset: None,
        offset_index_length: None,
        column_index_offset: None,
        column_index_length: None,
        crypto_metadata: None,
        encrypted_column_metadata: None,
    }
}

fn with_schema(schema: Vec<SchemaElement>) -> FileMetaData {
    FileMetaData {
        version: 1,
        schema,
        num_rows: 1,
        row_groups: vec![],
        key_value_metadata: None,
        created_by: None,
        column_orders: None,
        encryption_algorithm: None,
        footer_signing_key_metadata: None,
    }
}

fn with_chunks(columns: Vec<ColumnChunk>) -> FileMetaData {
    let group = RowGroup {
        columns,
        total_byte_size: 10,
        num_rows: 1,
        sorting_columns: None,
        file_offset: None,
        total_compressed_size: None,
        ordinal: None,
    };
    FileMetaData { row_groups: vec![group], ..with_schema(vec![root(1), leaf()]) }
}

fn with_bounds(type_: Type, statistics: Statistics) -> FileMetaData {
    let mut chunk = chunk();
    if let Some(column) = &mut chunk.meta_data {
        column.type_ = type_;
        column.statistics = Some(statistics);
    }
    with_chunks(vec![chunk])
}

fn bounds(length: usize) -> Statistics {
    Statistics {
        max: None,
        min: None,
        null_count: None,
        distinct_count: None,
        max_value: Some(vec![1; length]),
        min_value: Some(vec![1; length]),
    }
}

fn typed_leaf(logical_type: LogicalType) -> SchemaElement {
    SchemaElement { logical_type: Some(logical_type), ..leaf() }
}

#[test]
fn metadata_whose_parts_agree_decodes() {
    assert!(is_decoded(&with_schema(vec![root(1), leaf()])));
    assert!(is_decoded(&with_schema(vec![root(2), group(1), leaf(), leaf()])));
    assert!(is_decoded(&with_schema(vec![root(-1)])));
    assert!(is_decoded(&with_chunks(vec![chunk()])));
    let orders = Some(vec![ColumnOrder::TYPEORDER(TypeDefinedOrder {})]);
    assert!(is_decoded(&FileMetaData { column_orders: orders, ..with_chunks(vec![chunk()]) }));
}

#[test]
fn a_tree_of_columns_that_ends_too_early_is_left_out() {
    assert!(is_left_out(&with_schema(vec![root(1)])));
    assert!(is_left_out(&with_schema(vec![root(2), leaf()])));
    assert!(is_left_out(&with_schema(vec![root(2), group(2), leaf(), leaf()])));
}

#[test]
fn a_tree_of_columns_has_one_root_that_is_a_group() {
    assert!(is_refused(&with_schema(vec![])));
    assert!(is_refused(&with_schema(vec![root(1), leaf(), leaf()])));
    assert!(is_refused(&with_schema(vec![leaf(), leaf()])));
    assert!(is_left_out(&with_schema(vec![leaf()])));
    assert!(is_left_out(&with_schema(vec![root(1), root(1), leaf()])));
}

#[test]
fn an_element_has_what_its_kind_needs() {
    let element = |element| with_schema(vec![root(1), element]);
    assert!(is_left_out(&element(SchemaElement { type_: None, ..leaf() })));
    assert!(is_refused(&element(SchemaElement { type_: Some(Type(8)), ..leaf() })));
    assert!(is_refused(&element(SchemaElement { type_: None, repetition_type: None, ..leaf() })));
    let unknown = Some(FieldRepetitionType(3));
    assert!(is_refused(&element(SchemaElement { repetition_type: unknown, ..leaf() })));
    let unknown = Some(ConvertedType(22));
    assert!(is_refused(&element(SchemaElement { converted_type: unknown, ..leaf() })));
}

#[test]
fn integers_have_widths_that_there_are() {
    let integer = |bit_width| {
        let logical_type = LogicalType::INTEGER(IntType { bit_width, is_signed: true });
        with_schema(vec![root(1), typed_leaf(logical_type)])
    };
    for bit_width in [8, 16, 32] {
        assert!(is_decoded(&integer(bit_width)));
    }
    assert!(is_refused(&integer(64)));
    for bit_width in [0, 12, 127, -8, -128] {
        assert!(is_left_out(&integer(bit_width)));
    }
}

#[test]
fn decimals_are_not_too_wide() {
    let decimal = |type_length| {
        let logical_type = LogicalType::DECIMAL(DecimalType { scale: 1, precision: 2 });
        let element = SchemaElement {
            type_: Some(Type::FIXED_LEN_BYTE_ARRAY),
            type_length: Some(type_length),
            scale: Some(1),
            precision: Some(2),
            ..typed_leaf(logical_type)
        };
        with_schema(vec![root(1), element])
    };
    assert!(is_decoded(&decimal(4)));
    assert!(is_left_out(&decimal(0x1000_0000)));
    assert!(is_left_out(&decimal(i32::MAX)));
}

#[test]
fn a_row_group_has_a_chunk_of_each_column() {
    assert!(is_left_out(&with_chunks(vec![])));
    assert!(is_left_out(&with_chunks(vec![chunk(), chunk()])));
    assert!(is_refused(&with_chunks(vec![ColumnChunk { meta_data: None, ..chunk() }])));
    assert!(is_refused(&with_bounds(Type(9), bounds(0))));
}

#[test]
fn column_orders_are_as_many_as_columns() {
    for n in [0, 2] {
        let orders = Some(vec![ColumnOrder::TYPEORDER(TypeDefinedOrder {}); n]);
        let metadata = FileMetaData { column_orders: orders, ..with_chunks(vec![chunk()]) };
        assert!(is_left_out(&metadata));
    }
}

#[test]
fn bounds_have_the_width_of_their_type() {
    for (type_, width) in [
        (Type::BOOLEAN, 1),
        (Type::INT32, 4),
        (Type::INT64, 8),
        (Type::FLOAT, 4),
        (Type::DOUBLE, 8),
    ] {
        assert!(is_decoded(&with_bounds(type_, bounds(width))));
        assert!(is_decoded(&with_bounds(type_, bounds(width + 1))));
        assert!(is_left_out(&with_bounds(type_, bounds(width - 1))));
        // The older fields count where both newer ones are missing.
        let older = |length| Statistics {
            max: Some(vec![0; length]),
            min: Some(vec![0; width]),
            max_value: None,
            min_value: None,
            ..bounds(0)
        };
        assert!(is_decoded(&with_bounds(type_, older(width))));
        assert!(is_left_out(&with_bounds(type_, older(width - 1))));
        let newer = Statistics { max_value: Some(vec![0; width]), ..older(width - 1) };
        assert!(is_decoded(&with_bounds(type_, newer)));
    }
    assert!(is_decoded(&with_bounds(Type::INT96, bounds(12))));
    assert!(is_left_out(&with_bounds(Type::INT96, bounds(11))));
    assert!(is_left_out(&with_bounds(Type::INT96, bounds(13))));
    assert!(is_decoded(&with_bounds(Type::BYTE_ARRAY, bounds(0))));
    assert!(is_decoded(&with_bounds(Type::FIXED_LEN_BYTE_ARRAY, bounds(0))));
}

#[test]
fn lists_have_sizes_that_space_can_be_set_aside_for() {
    // The list of elements of the tree of columns, with a size of its own.
    let list = |size: &[u8]| {
        let mut bytes = vec![0x29, 0xfc];
        bytes.extend_from_slice(size);
        bytes
    };
    // A size of -1, and one that is larger than the metadata could be.
    assert!(!can_decode(&list(&[0xff, 0xff, 0xff, 0xff, 0x0f])));
    assert!(!can_decode(&list(&[0xff, 0xff, 0xff, 0xff, 0x07])));
    assert!(matches!(decode(&list(&[0xff, 0x7f])), Some(Err(_))));
    // A number that does not end.
    assert!(matches!(decode(&list(&[0xff; 6])), Some(Err(_))));
}

#[test]
fn variants_that_are_not_known_are_left_out() {
    // An element whose logical type is of the ninth kind, which there is not, or a text.
    assert!(!can_decode(&[0x29, 0x1c, 0xac, 0x9c, 0, 0, 0, 0]));
    assert!(matches!(decode(&[0x29, 0x1c, 0xac, 0x1c, 0, 0, 0, 0]), Some(Err(_))));
    // Both of them, twice the one that there is not, and none at all.
    assert!(matches!(decode(&[0x29, 0x1c, 0xac, 0x1c, 0, 0x8c, 0, 0, 0, 0]), Some(Err(_))));
    assert!(matches!(decode(&[0x29, 0x1c, 0xac, 0x9c, 0, 0x6c, 0, 0, 0, 0]), Some(Err(_))));
    assert!(matches!(decode(&[0x29, 0x1c, 0xac, 0, 0, 0]), Some(Err(_))));
}

/// A chain of groups in each other, down to a column.
fn nested(repetitions: Vec<FieldRepetitionType>) -> Vec<u8> {
    let mut schema = vec![root(1)];
    for repetition in &repetitions {
        schema.push(SchemaElement { repetition_type: Some(*repetition), ..group(1) });
    }
    schema.push(SchemaElement {
        repetition_type: Some(FieldRepetitionType::REQUIRED),
        ..leaf()
    });
    encode(&with_schema(schema))
}

#[test]
fn a_tree_of_columns_that_is_too_deep_is_left_out() {
    let optional = FieldRepetitionType::OPTIONAL;
    assert!(matches!(decode(&nested(vec![optional; 50])), Some(Ok(_))));
    let deepest = i16::MAX as usize;
    assert!(can_decode(&nested(vec![optional; deepest])));
    assert!(!can_decode(&nested(vec![optional; deepest + 1])));
    assert!(!can_decode(&nested(vec![FieldRepetitionType::REPEATED; deepest + 1])));
    // Groups that are required do not count.
    assert!(can_decode(&nested(vec![FieldRepetitionType::REQUIRED; deepest + 1])));
    // Nor do groups that lie beside each other.
    let mut schema = vec![root(deepest as i32 + 1)];
    for _ in 0..deepest + 1 {
        schema.push(group(1));
        schema.push(leaf());
    }
    assert!(matches!(decode(&encode(&with_schema(schema))), Some(Ok(_))));
}

#[test]
fn errors_come_before_what_would_be_left_out() {
    let mut bad_bounds = with_bounds(Type::INT32, bounds(1));
    assert!(is_left_out(&bad_bounds));
    let mut column = |change: fn(&mut ColumnMetaData)| {
        let column = bad_bounds.row_groups[0].columns[0].meta_data.as_mut().unwrap();
        let before = column.clone();
        change(column);
        let changed = bad_bounds.clone();
        bad_bounds.row_groups[0].columns[0].meta_data = Some(before);
        changed
    };
    assert!(is_refused(&column(|column| column.codec = CompressionCodec(8))));
    assert!(is_refused(&column(|column| column.encodings = vec![Encoding(0), Encoding(1)])));
    assert!(is_left_out(&column(|column| column.encodings = vec![Encoding(0), Encoding(9)])));
    assert!(is_refused(&column(|column| {
        column.statistics = Some(Statistics { null_count: Some(-1), ..bounds(1) });
    })));
    // The version is missing.
    let valid = encode(&with_bounds(Type::INT32, bounds(1)));
    assert_eq!(valid[..3], [0x15, 2, 0x19]);
    assert!(!can_decode(&valid));
    let mut without_version = vec![0x29];
    without_version.extend_from_slice(&valid[3..]);
    assert!(matches!(decode(&without_version), Some(Err(_))));
    // A truth value in a byte of its own, in an element without a name.
    let element = [0x29, 0x1c, 0xac, 0xac, 0x13, 8, 0x13, 1, 0, 0, 0, 0];
    assert!(matches!(decode(&element), Some(Err(_))));
    // A group without a repetition, and a second root.
    assert!(is_refused(&with_schema(vec![root(1), root(1), leaf(), leaf()])));
    let short = SchemaElement { type_: Some(Type::FIXED_LEN_BYTE_ARRAY), ..leaf() };
    let logical_type = Some(LogicalType::INTEGER(IntType { bit_width: 7, is_signed: true }));
    assert!(is_refused(&with_schema(vec![root(1), SchemaElement { logical_type, ..short }])));
}

#[test]
fn fields_that_are_not_known_are_skipped() {
    let valid = encode(&with_chunks(vec![chunk()]));
    let with_more = |more: &[u8]| {
        let mut bytes = valid[..valid.len() - 1].to_vec();
        bytes.extend_from_slice(more);
        bytes.push(0);
        bytes
    };
    for more in [
        // Truth values, numbers, bytes, lists and sets, maps and records.
        vec![0xf1, 0xf2],
        vec![0xf3, 7, 0x14, 0x80, 0x01, 0x15, 9, 0x16, 9, 0x17, 1, 2, 3, 4, 5, 6, 7, 8],
        vec![0xf8, 3, 1, 2, 3],
        vec![0xf9, 0x21, 1, 2, 0x1a, 0x25, 1, 2],
        vec![0xfb, 0, 0x1b, 1, 0x58, 1, 1, 65],
        vec![0xfc, 0x11, 0x15, 3, 0],
        // A list and a map of a negative size.
        vec![0xf9, 0xf5, 0xff, 0xff, 0xff, 0xff, 0x0f],
        vec![0xfb, 0xff, 0xff, 0xff, 0xff, 0x0f, 0x55],
        // A number of its own.
        vec![0x05, 0xfe, 0xff, 0x03, 0],
    ] {
        assert!(matches!(decode(&with_more(&more)), Some(Ok(_))));
    }
    for more in [
        // A type that there is not, a truth value that is none, bytes that are missing.
        vec![0xfd],
        vec![0xf9, 0x11, 3],
        vec![0xf8, 0x7f],
        vec![0xf9, 0x12, 1],
        vec![0xfb, 0xff, 0xff, 0xff, 0xff, 0x0f, 0x52],
    ] {
        assert!(matches!(decode(&with_more(&more)), Some(Err(_))));
    }
    // Lists that lie in each other.
    let mut nested = vec![0xf9];
    nested.extend_from_slice(&[0x19; 100]);
    assert!(matches!(decode(&with_more(&nested)), Some(Err(_))));
    // The number of a field that is too large, and a truth value in place of a number.
    assert!(!can_decode(&with_more(&[0x05, 0xfe, 0xff, 0x03, 0, 0x15, 0])));
    assert!(!can_decode(&[0x11]));
}

/// The metadata of a file with columns of several types.
fn typed_metadata() -> Vec<u8> {
    let columns: Vec<(&str, ArrayRef)> = vec![
        ("b", Arc::new(BooleanArray::from(vec![Some(false), None]))),
        ("i", Arc::new(Int32Array::from(vec![3, -4]))),
        ("d", Arc::new(Float64Array::from(vec![-1.0f64, -7.5]))),
        ("s", Arc::new(StringArray::from(vec!["a", "b"]))),
    ];
    let batch = RecordBatch::try_from_iter(columns).unwrap();
    let mut file: Vec<u8> = Vec::new();
    let properties = WriterProperties::builder().build();
    let mut writer = ArrowWriter::try_new(&mut file, batch.schema(), Some(properties)).unwrap();
    writer.write(&batch).unwrap();
    writer.close().unwrap();
    let n = file.len();
    let length = u32::from_le_bytes([file[n - 8], file[n - 7], file[n - 6], file[n - 5]]) as usize;
    file[n - 8 - length..n - 8].to_vec()
}

#[test]
fn metadata_that_was_cut_or_changed_does_not_reach_a_panic() {
    let metadata = typed_metadata();
    assert!(matches!(decode(&metadata), Some(Ok(_))));
    for end in 0..metadata.len() {
        assert!(matches!(decode(&metadata[..end]), Some(Err(_))));
    }
    let mut refused = 0;
    let mut left_out = 0;
    for i in 0..metadata.len() {
        for value in [0x00, 0x01, 0x0c, 0x19, 0x7f, 0x80, 0xff] {
            for mask in [0xff, 0xf0, 0x0f] {
                let mut changed = metadata.clone();
                changed[i] = (changed[i] & !mask) | (value & mask);
                match decode(&changed) {
                    Some(Ok(_)) => {}
                    Some(Err(_)) => refused += 1,
                    None => left_out += 1,
                }
            }
        }
    }
    assert!(refused > 0);
    assert!(left_out > 0);
}
