//! Fetching the metadata of files, and what it says of a table.

use std::sync::Arc;

use arrow::array::{
    ArrayRef, BooleanArray, Float32Array, Float64Array, Int32Array, Int64Array, StringArray,
};
use arrow::datatypes::{DataType, Field, Schema};
use arrow::record_batch::RecordBatch;
use parquet::arrow::ArrowWriter;
use parquet::file::metadata::ParquetMetaData;
use parquet::file::properties::{EnabledStatistics, WriterProperties};
use parquet_format::accumulator::{DataKind, MaxAccumulator, MinAccumulator, ScalarValue};
use parquet_format::config::{ConfigOptions, ExecutionOptions, ParquetOptions};
use parquet_format::footer::{
    assemble_metadata, begin_fetch, fetch_parquet_metadata, locate_metadata, ByteRange, FetchState,
    FetchStep, MetadataLocation, FOOTER_SIZE,
};
use parquet_format::format::ParquetFormat;
use parquet_format::metadata::{
    checked_fetch_statistics, fetch_schema, fetch_statistics, read_row_groups,
};
use parquet_format::statistics::{
    find_column, gather_statistics, summarize_min_max, ChunkStatistics, ColumnBounds, RowGroup,
    TableColumn,
};
use parquet_format::Error;

fn config() -> ConfigOptions {
    ConfigOptions {
        execution: ExecutionOptions {
            parquet: ParquetOptions {
                pruning: true,
                metadata_size_hint: None,
                skip_metadata: true,
                data_pagesize_limit: 1024,
                write_batch_size: 1024,
                writer_version: "1.0".to_string(),
                compression: None,
                dictionary_enabled: None,
                dictionary_page_size_limit: 1024,
                statistics_enabled: None,
                max_statistics_size: None,
                max_row_group_size: 1024,
                created_by: "test".to_string(),
                column_index_truncate_length: None,
                data_page_row_count_limit: 1024,
                encoding: None,
                bloom_filter_enabled: false,
                bloom_filter_ndv: None,
            },
        },
    }
}

fn store_parquet(batch: &RecordBatch, properties: WriterProperties) -> Vec<u8> {
    let mut file: Vec<u8> = Vec::new();
    let mut writer = ArrowWriter::try_new(&mut file, batch.schema(), Some(properties)).unwrap();
    writer.write(batch).unwrap();
    writer.close().unwrap();
    file
}

/// Fetches metadata, and counts the requests that it takes.
fn fetch_from(
    file: &[u8],
    start: (ByteRange, FetchState),
) -> (Result<ParquetMetaData, Error>, usize) {
    let (mut range, mut state) = start;
    let mut requests = 0;
    loop {
        requests += 1;
        let bytes = file[range.start..range.end].to_vec();
        assert!(state.can_take(&bytes));
        match fetch_parquet_metadata(state, bytes) {
            Ok(FetchStep::Read(missing, next)) => {
                range = missing;
                state = next;
            }
            Ok(FetchStep::Done(metadata)) => return (Ok(metadata), requests),
            Err(error) => return (Err(error), requests),
        }
    }
}

fn fetch(file: &[u8], size_hint: Option<usize>) -> (ParquetMetaData, usize) {
    let (metadata, requests) = fetch_from(file, begin_fetch(file.len(), size_hint).unwrap());
    (metadata.unwrap(), requests)
}

fn fetch_error(file: &[u8], size_hint: Option<usize>) -> Error {
    match begin_fetch(file.len(), size_hint) {
        Ok(start) => fetch_from(file, start).0.unwrap_err(),
        Err(error) => error,
    }
}

fn infer_schema(format: &ParquetFormat, files: &[Vec<u8>]) -> Arc<Schema> {
    let schemas = files
        .iter()
        .map(|file| {
            let (metadata, _) = fetch_from(file, format.begin_infer(&config(), file.len()).unwrap());
            fetch_schema(&metadata.unwrap()).unwrap()
        })
        .collect();
    format.infer_schema(&config(), schemas).unwrap()
}

/// A file with column `c1` and one with column `c2`.
fn two_files() -> Vec<Vec<u8>> {
    let c1: ArrayRef = Arc::new(StringArray::from(vec![Some("Foo"), None, Some("bar")]));
    let c2: ArrayRef = Arc::new(Int64Array::from(vec![Some(1), Some(2), None]));
    let batch1 = RecordBatch::try_from_iter(vec![("c1", c1)]).unwrap();
    let batch2 = RecordBatch::try_from_iter(vec![("c2", c2)]).unwrap();
    vec![
        store_parquet(&batch1, WriterProperties::builder().build()),
        store_parquet(&batch2, WriterProperties::builder().build()),
    ]
}

#[test]
fn read_merged_batches() {
    let files = two_files();
    let format = ParquetFormat::default();
    let schema = infer_schema(&format, &files);

    let stats = fetch_statistics(&fetch(&files[0], None).0, &schema).unwrap();

    assert_eq!(stats.num_rows, Some(3));
    let c1_stats = &stats.column_statistics.as_ref().expect("missing c1 stats")[0];
    let c2_stats = &stats.column_statistics.as_ref().expect("missing c2 stats")[1];
    assert_eq!(c1_stats.null_count, Some(1));
    assert_eq!(c2_stats.null_count, Some(3));

    let stats = fetch_statistics(&fetch(&files[1], None).0, &schema).unwrap();
    assert_eq!(stats.num_rows, Some(3));
    let c1_stats = &stats.column_statistics.as_ref().expect("missing c1 stats")[0];
    let c2_stats = &stats.column_statistics.as_ref().expect("missing c2 stats")[1];
    assert_eq!(c1_stats.null_count, Some(3));
    assert_eq!(c2_stats.null_count, Some(1));
    assert_eq!(c2_stats.max_value, Some(ScalarValue::Int64(Some(2))));
    assert_eq!(c2_stats.min_value, Some(ScalarValue::Int64(Some(1))));
}

#[test]
fn fetch_metadata_with_size_hint() {
    let files = two_files();

    // A hint larger than the footer but smaller than the metadata takes a second request.
    assert_eq!(fetch(&files[0], Some(9)).1, 2);

    let format = ParquetFormat::default().with_metadata_size_hint(Some(9));
    let schema = infer_schema(&format, &files);
    let stats = fetch_statistics(&fetch(&files[0], Some(9)).0, &schema).unwrap();
    assert_eq!(stats.num_rows, Some(3));
    let c1_stats = &stats.column_statistics.as_ref().expect("missing c1 stats")[0];
    let c2_stats = &stats.column_statistics.as_ref().expect("missing c2 stats")[1];
    assert_eq!(c1_stats.null_count, Some(1));
    assert_eq!(c2_stats.null_count, Some(3));

    // The size of the file as the hint gets all of it at once.
    let size_hint = files[0].len();
    assert_eq!(fetch(&files[0], Some(size_hint)).1, 1);

    let format = ParquetFormat::default().with_metadata_size_hint(Some(size_hint));
    let schema = infer_schema(&format, &files);
    let stats = fetch_statistics(&fetch(&files[0], Some(size_hint)).0, &schema).unwrap();
    assert_eq!(stats.num_rows, Some(3));
    let c1_stats = &stats.column_statistics.as_ref().expect("missing c1 stats")[0];
    let c2_stats = &stats.column_statistics.as_ref().expect("missing c2 stats")[1];
    assert_eq!(c1_stats.null_count, Some(1));
    assert_eq!(c2_stats.null_count, Some(3));

    // So does a larger one.
    let size_hint = files[0].len() + 100;
    assert_eq!(fetch(&files[0], Some(size_hint)).1, 1);
}

#[test]
fn every_hint_finds_the_same_metadata() {
    let file = &two_files()[0];
    let (plain, requests) = fetch(file, None);
    assert_eq!(requests, 2);
    let n = file.len();
    let length = u32::from_le_bytes([file[n - 8], file[n - 7], file[n - 6], file[n - 5]]) as usize;
    for hint in 8..n + 3 {
        let (metadata, requests) = fetch(file, Some(hint));
        assert_eq!(format!("{metadata:?}"), format!("{plain:?}"));
        assert_eq!(requests, if hint >= length + FOOTER_SIZE { 1 } else { 2 });
    }
}

#[test]
fn a_fetch_starts_at_the_end_of_the_file() {
    let range = |size, hint| begin_fetch(size, hint).unwrap().0;
    assert_eq!(range(100, None), ByteRange { start: 92, end: 100 });
    assert_eq!(range(100, Some(30)), ByteRange { start: 70, end: 100 });
    assert_eq!(range(100, Some(100)), ByteRange { start: 0, end: 100 });
    assert_eq!(range(100, Some(1000)), ByteRange { start: 0, end: 100 });
    assert_eq!(range(8, None), ByteRange { start: 0, end: 8 });
}

#[test]
fn a_fetch_follows_the_hint_of_the_format_or_the_session() {
    let mut session = config();
    let format = ParquetFormat::new();
    assert_eq!(format.begin_infer(&session, 100).unwrap().0, ByteRange { start: 92, end: 100 });
    session.execution.parquet.metadata_size_hint = Some(30);
    assert_eq!(format.begin_infer(&session, 100).unwrap().0, ByteRange { start: 70, end: 100 });
    // A hint of the session that covers the file gets it in one request.
    session.execution.parquet.metadata_size_hint = Some(1 << 20);
    for file in two_files() {
        let start = format.begin_infer(&session, file.len()).unwrap();
        assert_eq!(start.0, ByteRange { start: 0, end: file.len() });
        assert_eq!(fetch_from(&file, start).1, 1);
    }
    let format = format.with_metadata_size_hint(Some(20));
    assert_eq!(format.begin_infer(&session, 100).unwrap().0, ByteRange { start: 80, end: 100 });
    assert!(format.begin_infer(&session, 3).is_err());
}

#[test]
fn a_file_without_footer_is_refused() {
    match fetch_error(&[0; 7], None) {
        Error::Execution(message) => assert_eq!(message, "file size of 7 is less than footer"),
        error => panic!("{error:?}"),
    }
    assert!(matches!(fetch_error(b"1234PAR2", None), Error::ParquetError(_)));
}

#[test]
fn a_file_without_its_metadata_is_refused() {
    let mut file = vec![0; 10];
    file.extend_from_slice(&[20, 1, 0, 0]);
    file.extend_from_slice(b"PAR1");
    for hint in [None, Some(10), Some(100)] {
        match fetch_error(&file, hint) {
            Error::Execution(message) => assert_eq!(
                message,
                "file size of 18 is less than footer + metadata 284"
            ),
            error => panic!("{error:?}"),
        }
    }
}

#[test]
fn metadata_that_does_not_decode_is_refused() {
    let mut file = vec![0xff; 10];
    file.extend_from_slice(&[4, 0, 0, 0]);
    file.extend_from_slice(b"PAR1");
    assert!(matches!(fetch_error(&file, None), Error::ParquetError(_)));
    assert!(matches!(fetch_error(&file, Some(18)), Error::ParquetError(_)));
}

#[test]
fn metadata_is_located_in_what_was_read() {
    let footer = [3, 0, 0, 0, b'P', b'A', b'R', b'1'];
    assert_eq!(
        locate_metadata(20, 12, &footer).unwrap(),
        MetadataLocation::Before { length: 3, missing: ByteRange { start: 9, end: 12 } }
    );
    let mut suffix = vec![7; 4];
    suffix.extend_from_slice(&footer);
    assert_eq!(
        locate_metadata(20, 8, &suffix).unwrap(),
        MetadataLocation::Within { start: 1, end: 4 }
    );
    assert_eq!(assemble_metadata(6, &[1, 2], &suffix).as_ref(), [1, 2, 7, 7, 7, 7]);
}

#[test]
fn bytes_that_are_no_end_of_the_file_are_not_taken() {
    let (_, state) = begin_fetch(100, None).unwrap();
    assert!(!state.can_take(&[0; 7]));
    assert!(state.can_take(&[0; 8]));
    let (_, state) = begin_fetch(100, Some(4)).unwrap();
    assert!(!state.can_take(&[0; 4]));
    // Metadata of 2 bytes before the footer of a file of 30 would start at 20, which is not
    // where the bytes were read.
    let (_, state) = begin_fetch(30, Some(10)).unwrap();
    let mut bytes = vec![0; 12];
    bytes.extend_from_slice(&[2, 0, 0, 0]);
    bytes.extend_from_slice(b"PAR1");
    assert!(state.can_take(&bytes[10..]));
    let state = FetchState::Suffix { size: 30, footer_start: 25 };
    assert!(!state.can_take(&bytes));
    let state = FetchState::Remaining { length: 4, suffix: vec![0; 7] };
    assert!(!state.can_take(&[]));
}

/// A file of all types whose bounds are used, in row groups of two rows.
fn typed_file() -> Vec<u8> {
    let columns: Vec<(&str, ArrayRef)> = vec![
        ("b", Arc::new(BooleanArray::from(vec![Some(false), None, Some(true), Some(false), None]))),
        ("i", Arc::new(Int32Array::from(vec![Some(3), Some(-4), None, Some(9), Some(0)]))),
        ("l", Arc::new(Int64Array::from(vec![Some(1 << 40), Some(5), Some(-6), None, Some(7)]))),
        ("f", Arc::new(Float32Array::from(vec![1.5f32, -2.5, 0.0, 8.25, -0.5]))),
        ("d", Arc::new(Float64Array::from(vec![-1.0f64, -7.5, 2.0, 3.0, 1e9]))),
        ("s", Arc::new(StringArray::from(vec!["a", "b", "c", "d", "e"]))),
    ];
    let batch = RecordBatch::try_from_iter(columns).unwrap();
    store_parquet(&batch, WriterProperties::builder().set_max_row_group_size(2).build())
}

fn field(name: &str, data_type: DataType) -> Field {
    Field::new(name, data_type, true)
}

#[test]
fn statistics_cover_all_row_groups() {
    let (metadata, _) = fetch(&typed_file(), None);
    assert_eq!(metadata.num_row_groups(), 3);
    let table = Schema::new(vec![
        field("d", DataType::Float64),
        field("f", DataType::Float32),
        field("l", DataType::Int64),
        field("i", DataType::Int32),
        field("b", DataType::Boolean),
        field("s", DataType::Utf8),
    ]);
    let stats = fetch_statistics(&metadata, &table).unwrap();
    assert_eq!(stats.num_rows, Some(5));
    let bytes: i64 = metadata.row_groups().iter().map(|group| group.total_byte_size()).sum();
    assert_eq!(stats.total_byte_size, Some(bytes as usize));
    assert!(stats.is_exact);
    let columns = stats.column_statistics.unwrap();
    let expected = [
        (
            0,
            ScalarValue::Float64(Some((-7.5f64).to_bits())),
            ScalarValue::Float64(Some(1e9f64.to_bits())),
        ),
        (
            0,
            ScalarValue::Float32(Some((-2.5f32).to_bits())),
            ScalarValue::Float32(Some(8.25f32.to_bits())),
        ),
        (1, ScalarValue::Int64(Some(-6)), ScalarValue::Int64(Some(1 << 40))),
        (1, ScalarValue::Int32(Some(-4)), ScalarValue::Int32(Some(9))),
    ];
    for (column, (nulls, min, max)) in columns.iter().zip(expected) {
        assert_eq!(column.null_count, Some(nulls));
        assert_eq!(column.min_value, Some(min));
        assert_eq!(column.max_value, Some(max));
        assert_eq!(column.distinct_count, None);
    }
    // The last row group has no value for `b`, and bounds of texts are not used.
    assert_eq!(columns[4].null_count, Some(2));
    assert_eq!(columns[4].max_value, None);
    assert_eq!(columns[4].min_value, None);
    assert_eq!(columns[5].null_count, Some(0));
    assert_eq!(columns[5].max_value, None);
}

#[test]
fn bounds_of_another_type_are_not_used() {
    let (metadata, _) = fetch(&typed_file(), None);
    let table = Schema::new(vec![field("i", DataType::Int64), field("l", DataType::Utf8)]);
    let columns = fetch_statistics(&metadata, &table).unwrap().column_statistics.unwrap();
    for column in columns {
        assert_eq!(column.null_count, Some(1));
        assert_eq!(column.max_value, None);
        assert_eq!(column.min_value, None);
    }
}

#[test]
fn a_missing_column_has_null_bounds() {
    let (metadata, _) = fetch(&two_files()[0], None);
    let table = Schema::new(vec![field("x", DataType::Int32), field("y", DataType::Utf8)]);
    let columns = fetch_statistics(&metadata, &table).unwrap().column_statistics.unwrap();
    assert_eq!(columns[0].null_count, Some(3));
    assert_eq!(columns[0].max_value, Some(ScalarValue::Int32(None)));
    assert_eq!(columns[0].min_value, Some(ScalarValue::Int32(None)));
    assert_eq!(columns[1].null_count, Some(3));
    assert_eq!(columns[1].max_value, Some(ScalarValue::Other));
}

#[test]
fn a_missing_column_counts_the_rows_so_far() {
    // After row groups of 2, 2 and 1 rows there were 2, 4 and 5 rows.
    let (metadata, _) = fetch(&typed_file(), None);
    let table = Schema::new(vec![field("x", DataType::Int32)]);
    let columns = fetch_statistics(&metadata, &table).unwrap().column_statistics.unwrap();
    assert_eq!(columns[0].null_count, Some(11));
}

#[test]
fn a_file_without_statistics_gives_none_of_columns() {
    let c1: ArrayRef = Arc::new(Int64Array::from(vec![1, 2]));
    let batch = RecordBatch::try_from_iter(vec![("c1", c1)]).unwrap();
    let properties =
        WriterProperties::builder().set_statistics_enabled(EnabledStatistics::None).build();
    let (metadata, _) = fetch(&store_parquet(&batch, properties), None);
    let stats = fetch_statistics(&metadata, &batch.schema()).unwrap();
    assert_eq!(stats.num_rows, Some(2));
    assert_eq!(stats.column_statistics, None);
    let stats = checked_fetch_statistics(&metadata, &batch.schema()).unwrap().unwrap();
    assert_eq!(stats.num_rows, Some(2));
    let stats = ParquetFormat::new().infer_stats(&batch.schema(), &metadata).unwrap();
    assert_eq!(stats.num_rows, Some(2));
    let stats = ParquetFormat::new().checked_infer_stats(&batch.schema(), &metadata);
    assert_eq!(stats.unwrap().unwrap().num_rows, Some(2));
}

#[test]
fn row_groups_are_read_from_metadata() {
    let (metadata, _) = fetch(&typed_file(), None);
    let groups = read_row_groups(&metadata);
    assert_eq!(groups.len(), 3);
    assert_eq!(groups[0].num_rows, 2);
    assert_eq!(groups[2].num_rows, 1);
    assert_eq!(groups[1].total_byte_size, metadata.row_group(1).total_byte_size());
    assert_eq!(groups[0].columns.len(), 6);
    assert_eq!(
        groups[0].columns[0],
        Some(ChunkStatistics { null_count: 1, bounds: ColumnBounds::Boolean(false, false) })
    );
    assert_eq!(
        groups[1].columns[1],
        Some(ChunkStatistics { null_count: 1, bounds: ColumnBounds::Int32(9, 9) })
    );
    assert_eq!(
        groups[0].columns[2],
        Some(ChunkStatistics { null_count: 0, bounds: ColumnBounds::Int64(5, 1 << 40) })
    );
    assert_eq!(
        groups[0].columns[3],
        Some(ChunkStatistics {
            null_count: 0,
            bounds: ColumnBounds::Float((-2.5f32).to_bits(), 1.5f32.to_bits()),
        })
    );
    assert_eq!(
        groups[1].columns[4],
        Some(ChunkStatistics {
            null_count: 0,
            bounds: ColumnBounds::Double(2f64.to_bits(), 3f64.to_bits()),
        })
    );
    assert_eq!(
        groups[0].columns[5],
        Some(ChunkStatistics { null_count: 0, bounds: ColumnBounds::ByteArray })
    );
    // No value of `b` in the last row group.
    assert_eq!(
        groups[2].columns[0],
        Some(ChunkStatistics { null_count: 1, bounds: ColumnBounds::Unknown })
    );
}

#[test]
fn the_schema_of_a_file_is_that_it_was_written_with() {
    let (metadata, _) = fetch(&typed_file(), None);
    let schema = fetch_schema(&metadata).unwrap();
    let columns: Vec<String> =
        schema.fields().iter().map(|f| format!("{}: {:?}", f.name(), f.data_type())).collect();
    assert_eq!(
        columns,
        ["b: Boolean", "i: Int32", "l: Int64", "f: Float32", "d: Float64", "s: Utf8"]
    );
}

fn group(num_rows: i64, columns: Vec<Option<ChunkStatistics>>) -> RowGroup {
    RowGroup { num_rows, total_byte_size: 10, columns }
}

fn chunk(null_count: u64, bounds: ColumnBounds) -> Option<ChunkStatistics> {
    Some(ChunkStatistics { null_count, bounds })
}

fn int_column() -> Vec<TableColumn> {
    vec![TableColumn { name: "a".to_string(), kind: DataKind::Int32 }]
}

#[test]
fn a_bound_that_became_unknown_stays_unknown() {
    let names = vec!["a".to_string(), "b".to_string()];
    let known = || group(1, vec![chunk(0, ColumnBounds::Int32(1, 2)), None]);
    for unknown in [
        // No statistics of the column, none of its type, or none at all.
        group(1, vec![None, chunk(0, ColumnBounds::Unknown)]),
        group(1, vec![chunk(0, ColumnBounds::Int64(0, 0)), None]),
        group(1, vec![chunk(0, ColumnBounds::Unknown), None]),
    ] {
        let groups = vec![known(), unknown, known()];
        let stats = gather_statistics(&int_column(), &names, &groups).unwrap();
        let column = stats.column_statistics.unwrap()[0];
        assert_eq!(column.max_value, None);
        assert_eq!(column.min_value, None);
    }
}

#[test]
fn row_groups_before_any_statistics_do_not_count_against_bounds() {
    let names = vec!["a".to_string()];
    let groups = vec![group(4, vec![None]), group(1, vec![chunk(1, ColumnBounds::Int32(1, 2))])];
    let stats = gather_statistics(&int_column(), &names, &groups).unwrap();
    assert_eq!(stats.num_rows, Some(5));
    assert_eq!(stats.total_byte_size, Some(20));
    let column = stats.column_statistics.unwrap()[0];
    assert_eq!(column.null_count, Some(1));
    assert_eq!(column.max_value, Some(ScalarValue::Int32(Some(2))));
    assert_eq!(column.min_value, Some(ScalarValue::Int32(Some(1))));
}

#[test]
fn counts_that_do_not_fit_give_no_statistics() {
    let names = vec!["a".to_string()];
    let bounds = ColumnBounds::Int32(1, 2);
    let fitting = vec![group(i64::MAX, vec![chunk(u64::MAX, bounds)])];
    assert!(gather_statistics(&int_column(), &names, &fitting).is_some());
    let rows = vec![group(i64::MAX, vec![]), group(1, vec![])];
    assert!(gather_statistics(&int_column(), &names, &rows).is_none());
    let nulls = vec![group(1, vec![chunk(u64::MAX, bounds)]), group(1, vec![chunk(1, bounds)])];
    assert!(gather_statistics(&int_column(), &names, &nulls).is_none());
}

#[test]
fn a_column_is_found_where_its_name_is_first() {
    let names = vec!["a".to_string(), "b".to_string(), "b".to_string()];
    assert_eq!(find_column(&names, &"b".to_string()), Some(1));
    assert_eq!(find_column(&names, &"B".to_string()), None);
}

#[test]
fn a_chunk_is_taken_into_its_column() {
    let columns = int_column();
    let mut max = vec![Some(MaxAccumulator::new(DataKind::Int32))];
    let mut min = vec![Some(MinAccumulator::new(DataKind::Int32))];
    summarize_min_max(&mut max, &mut min, &columns, 0, &ColumnBounds::Int32(4, 6));
    summarize_min_max(&mut max, &mut min, &columns, 0, &ColumnBounds::Int32(1, 5));
    assert_eq!(max[0].unwrap().evaluate(), ScalarValue::Int32(Some(6)));
    assert_eq!(min[0].unwrap().evaluate(), ScalarValue::Int32(Some(1)));
    summarize_min_max(&mut max, &mut min, &columns, 0, &ColumnBounds::Boolean(true, true));
    assert_eq!((max[0], min[0]), (None, None));
}

#[test]
fn accumulators_follow_the_total_order_of_floats() {
    let value = |x: f64| ScalarValue::Float64(Some(x.to_bits()));
    let mut values = [3.5, -0.0, f64::NAN, 0.0, f64::NEG_INFINITY, -2.0, f64::INFINITY, -f64::NAN];
    let mut max = MaxAccumulator::new(DataKind::Float64);
    let mut min = MinAccumulator::new(DataKind::Float64);
    for x in values {
        max.update(value(x)).unwrap();
        min.update(value(x)).unwrap();
    }
    values.sort_by(f64::total_cmp);
    assert_eq!(min.evaluate(), value(values[0]));
    assert_eq!(max.evaluate(), value(values[7]));
    let value = |x: f32| ScalarValue::Float32(Some(x.to_bits()));
    let mut max = MaxAccumulator::new(DataKind::Float32);
    for x in [-0.0f32, 0.0, -1.0] {
        max.update(value(x)).unwrap();
    }
    assert_eq!(max.evaluate(), value(0.0));
}

#[test]
fn accumulators_refuse_values_of_another_type() {
    let mut max = MaxAccumulator::new(DataKind::Int32);
    assert!(max.update(ScalarValue::Int64(Some(1))).is_err());
    assert_eq!(max.evaluate(), ScalarValue::Int32(None));
    assert!(max.update(ScalarValue::Int32(Some(-3))).is_ok());
    assert!(max.update(ScalarValue::Int32(None)).is_ok());
    assert_eq!(max.evaluate(), ScalarValue::Int32(Some(-3)));
    let mut min = MinAccumulator::new(DataKind::Boolean);
    assert!(min.update(ScalarValue::Other).is_err());
    assert!(min.update(ScalarValue::Boolean(Some(true))).is_ok());
    assert!(min.update(ScalarValue::Boolean(Some(false))).is_ok());
    assert_eq!(min.evaluate(), ScalarValue::Boolean(Some(false)));
}
