//! The files that a write goes to, and its course.

use std::sync::Arc;

use arrow::datatypes::{DataType, Field, Schema};
use object_store::path::Path;
use parquet_format::config::{ConfigOptions, ExecutionOptions, ParquetOptions};
use parquet_format::format::ParquetFormat;
use parquet_format::path::{part_path, DEFAULT_PARQUET_EXTENSION};
use parquet_format::sink::{part_files, FileSinkConfig, FileWriterMode, ParquetSink};
use parquet_format::write::{WriteAction, WriteEvent, WritePhase, WriteState};
use parquet_format::Error;

fn schema() -> Arc<Schema> {
    Arc::new(Schema::new(vec![Field::new("a", DataType::Int32, true)]))
}

fn config(writer_mode: FileWriterMode, per_thread_output: bool) -> FileSinkConfig {
    FileSinkConfig {
        object_store_url: "file://".to_string(),
        table_paths: vec![Path::from("data/table")],
        output_schema: schema(),
        writer_mode,
        per_thread_output,
        overwrite: false,
    }
}

fn sink(writer_mode: FileWriterMode, per_thread_output: bool) -> ParquetSink {
    ParquetSink::new(config(writer_mode, per_thread_output))
}

fn options() -> ParquetOptions {
    ParquetOptions {
        pruning: false,
        metadata_size_hint: Some(64),
        skip_metadata: false,
        data_pagesize_limit: 1024,
        write_batch_size: 1024,
        writer_version: "1.0".to_string(),
        compression: None,
        dictionary_enabled: None,
        dictionary_page_size_limit: 1024,
        statistics_enabled: None,
        max_statistics_size: None,
        max_row_group_size: 7,
        created_by: "test".to_string(),
        column_index_truncate_length: None,
        data_page_row_count_limit: 1024,
        encoding: None,
        bloom_filter_enabled: false,
        bloom_filter_ndv: None,
    }
}

fn session() -> ConfigOptions {
    ConfigOptions { execution: ExecutionOptions { parquet: options() } }
}

#[test]
fn the_extension_is_parquet() {
    assert_eq!(DEFAULT_PARQUET_EXTENSION, ".parquet");
}

#[test]
fn a_format_overrides_the_session() {
    let session = session();
    let format = ParquetFormat::new();
    assert!(!format.enable_pruning(&session));
    assert_eq!(format.metadata_size_hint(&session), Some(64));
    assert!(!format.skip_metadata(&session));
    let format = format
        .with_enable_pruning(Some(true))
        .with_metadata_size_hint(Some(9))
        .with_skip_metadata(Some(true));
    assert!(format.enable_pruning(&session));
    assert_eq!(format.metadata_size_hint(&session), Some(9));
    assert!(format.skip_metadata(&session));
    let format =
        format.with_enable_pruning(None).with_metadata_size_hint(None).with_skip_metadata(None);
    assert!(!format.enable_pruning(&session));
    assert_eq!(format.metadata_size_hint(&session), Some(64));
    assert!(!format.skip_metadata(&session));
}

#[test]
fn a_scan_has_a_predicate_only_where_pruning_is_enabled() {
    let plan = ParquetFormat::new().create_physical_plan(&session(), "conf", Some("filter"));
    assert_eq!(plan.base_config, "conf");
    assert_eq!(plan.predicate, None);
    assert_eq!(plan.metadata_size_hint, Some(64));
    let format =
        ParquetFormat::new().with_enable_pruning(Some(true)).with_metadata_size_hint(Some(9));
    let plan = format.create_physical_plan(&session(), "conf", Some("filter"));
    assert_eq!(plan.predicate, Some("filter"));
    assert_eq!(plan.metadata_size_hint, Some(9));
    let plan = format.create_physical_plan(&session(), "conf", None::<&str>);
    assert_eq!(plan.predicate, None);
}

#[test]
fn schemas_are_merged_as_the_format_says() {
    let fields = vec![Field::new("a", DataType::Int32, true)];
    let schemas = |metadata: [&str; 2]| -> Vec<Schema> {
        metadata
            .iter()
            .map(|value| {
                let entries = [("key".to_string(), value.to_string())];
                Schema::new_with_metadata(fields.clone(), entries.into())
            })
            .collect()
    };
    let format = ParquetFormat::new();
    let merged = format.infer_schema(&session(), schemas(["x", "x"])).unwrap();
    assert_eq!(merged.metadata()["key"], "x");
    let conflict = format.infer_schema(&session(), schemas(["x", "y"]));
    assert!(matches!(conflict, Err(Error::ArrowError(_))));
    let format = format.with_skip_metadata(Some(true));
    assert_eq!(format.infer_schema(&session(), schemas(["x", "y"])).unwrap(), schema());
}

#[test]
fn a_write_is_planned_unless_it_overwrites() {
    let format = ParquetFormat::new();
    let conf = config(FileWriterMode::PutMultipart, true);
    let plan = match format.create_writer_physical_plan("input", conf) {
        Ok(plan) => plan,
        Err(error) => panic!("{error:?}"),
    };
    assert_eq!(plan.input, "input");
    assert_eq!(plan.sink_schema, schema());
    assert_eq!(plan.sink.config.writer_mode, FileWriterMode::PutMultipart);
    let conf = FileSinkConfig { overwrite: true, ..config(FileWriterMode::PutMultipart, true) };
    match format.create_writer_physical_plan("input", conf) {
        Err(Error::NotImplemented(message)) => {
            assert_eq!(message, "Overwrites are not implemented yet for Parquet")
        }
        _ => panic!("not refused"),
    }
}

#[test]
fn a_sink_describes_itself() {
    let sink = sink(FileWriterMode::PutMultipart, true);
    assert_eq!(sink.fmt(), "ParquetSink");
    assert_eq!(
        sink.fmt_as("{1 group: [[a]]}"),
        "ParquetSink(writer_mode=PutMultipart, file_groups={1 group: [[a]]})"
    );
    for mode in [FileWriterMode::Append, FileWriterMode::Put, FileWriterMode::PutMultipart] {
        assert_eq!(mode.name(), format!("{mode:?}"));
    }
}

#[test]
fn properties_are_built_from_options() {
    let sink = sink(FileWriterMode::PutMultipart, true);
    let properties = sink.parquet_writer_props_from_context(&options()).unwrap();
    assert_eq!(properties.max_row_group_size(), 7);
    assert_eq!(sink.checked_writer_props(&options()).unwrap().unwrap().created_by(), "test");
    let unusable = ParquetOptions { max_row_group_size: 0, ..options() };
    assert!(sink.checked_writer_props(&unusable).is_none());
    let wrong = ParquetOptions { encoding: Some("e".to_string()), ..options() };
    assert!(matches!(sink.checked_writer_props(&wrong), Some(Err(Error::Plan(_)))));
}

#[test]
fn a_write_is_prepared_after_its_options_were_looked_at() {
    let wrong = ParquetOptions { encoding: Some("e".to_string()), ..options() };
    let unusable = ParquetOptions { max_row_group_size: 0, ..options() };
    for mode in [FileWriterMode::Append, FileWriterMode::Put, FileWriterMode::PutMultipart] {
        // The error of the options comes first, whatever the mode.
        let sink = sink(mode, true);
        assert!(matches!(sink.prepare_write(&wrong, 2), Err(Error::Plan(_))));
        assert!(matches!(sink.checked_prepare_write(&wrong, 2), Some(Err(Error::Plan(_)))));
        assert!(sink.checked_prepare_write(&unusable, 2).is_none());
        let (properties, files) = sink.prepare_write(&options(), 2).unwrap();
        assert_eq!(properties.max_row_group_size(), 7);
        match mode {
            FileWriterMode::Append => assert!(matches!(files, Err(Error::Plan(_)))),
            FileWriterMode::Put => assert!(matches!(files, Err(Error::NotImplemented(_)))),
            FileWriterMode::PutMultipart => assert_eq!(files.unwrap().len(), 2),
        }
    }
    let no_path = |mode| {
        ParquetSink::new(FileSinkConfig { table_paths: vec![], ..config(mode, true) })
    };
    let sink = no_path(FileWriterMode::PutMultipart);
    assert!(sink.checked_prepare_write(&options(), 2).is_none());
    assert!(matches!(sink.checked_prepare_write(&wrong, 2), Some(Err(Error::Plan(_)))));
    let sink = no_path(FileWriterMode::Append);
    let (_, files) = sink.checked_prepare_write(&options(), 2).unwrap().unwrap();
    assert!(matches!(files, Err(Error::Plan(_))));
}

#[test]
fn each_partition_has_a_file_of_its_own() {
    let files = sink(FileWriterMode::PutMultipart, true).plan_files(12).unwrap();
    assert_eq!(files.len(), 12);
    let text = files[0].location.to_string();
    let name = text.strip_prefix("data/table/").unwrap();
    let write_id = name.strip_suffix("_0.parquet").unwrap();
    assert_eq!(write_id.len(), 16);
    assert!(write_id.chars().all(|c| c.is_ascii_alphanumeric()));
    for (i, file) in files.iter().enumerate() {
        assert_eq!(file.location.to_string(), format!("data/table/{write_id}_{i}.parquet"));
        assert_eq!(file.size, 0);
        assert_eq!(file.e_tag, None);
        assert!(file.last_modified.seconds > 0);
        assert!(file.last_modified.nanos < 2_000_000_000);
    }
    // Another write has other files.
    let others = sink(FileWriterMode::PutMultipart, true).plan_files(1).unwrap();
    assert!(others[0].location != files[0].location);
    assert!(sink(FileWriterMode::PutMultipart, true).plan_files(0).unwrap().is_empty());
}

#[test]
fn all_partitions_share_a_file_otherwise() {
    for partitions in [0, 1, 5] {
        let files = sink(FileWriterMode::PutMultipart, false).plan_files(partitions).unwrap();
        assert_eq!(files.len(), 1);
        assert_eq!(files[0].location, Path::from("data/table"));
    }
}

#[test]
fn part_files_are_named_by_the_write() {
    let files = part_files(&Path::from("t"), "id", 2);
    let locations: Vec<&str> = files.iter().map(|file| file.location.as_ref()).collect();
    assert_eq!(locations, ["t/id_0.parquet", "t/id_1.parquet"]);
    assert_eq!(part_path(&Path::from(""), "id", 10).as_ref(), "id_10.parquet");
    // A name that paths do not have is written by its codes.
    assert_eq!(part_path(&Path::from("t"), "a/b", 0).as_ref(), "t/a%2Fb_0.parquet");
}

#[test]
fn only_multipart_writes_are_supported() {
    let plan = |mode| sink(mode, true).plan_files(1);
    match plan(FileWriterMode::Append) {
        Err(Error::Plan(message)) => assert_eq!(
            message,
            "Parquet format does not support appending to existing file!"
        ),
        _ => panic!("not refused"),
    }
    match plan(FileWriterMode::Put) {
        Err(Error::NotImplemented(message)) => {
            assert_eq!(message, "Put Mode is not implemented for ParquetSink yet")
        }
        _ => panic!("not refused"),
    }
    let file = || plan(FileWriterMode::PutMultipart).unwrap().remove(0);
    match sink(FileWriterMode::Append, true).create_writer(file()) {
        Err(Error::Plan(message)) => assert_eq!(
            message,
            "Appending to Parquet files is not supported by the file format!"
        ),
        _ => panic!("not refused"),
    }
    match sink(FileWriterMode::Put, true).create_writer(file()) {
        Err(Error::NotImplemented(message)) => {
            assert_eq!(message, "FileWriterMode::Put is not implemented for ParquetSink")
        }
        _ => panic!("not refused"),
    }
    let file = file();
    let location = file.location.clone();
    let request = sink(FileWriterMode::PutMultipart, true).create_writer(file).unwrap();
    assert_eq!(request.location, location);
    assert_eq!(request.schema, schema());
    assert_eq!(request.buffer_size, 10485760);
}

/// Writes partitions, given by the rows of their batches. Returns the rows that each writer
/// got, and the rows that were reported.
fn write(
    per_thread_output: bool,
    partitions: &[Vec<usize>],
    writers: usize,
) -> (Vec<Vec<usize>>, u64) {
    let sink = sink(FileWriterMode::PutMultipart, per_thread_output);
    let mut state = sink.begin_write(partitions.len());
    let mut next: Vec<usize> = vec![0; partitions.len()];
    let mut written: Vec<Vec<usize>> = vec![vec![]; writers];
    let mut opened: Vec<usize> = vec![];
    let mut closed: Vec<usize> = vec![];
    let mut batch = 0;
    loop {
        let event = match state.action() {
            WriteAction::Open { writer } => {
                opened.push(writer);
                WriteEvent::Opened
            }
            WriteAction::Read { partition } => match partitions[partition].get(next[partition]) {
                Some(rows) => {
                    next[partition] += 1;
                    batch = *rows;
                    WriteEvent::Batch { num_rows: *rows }
                }
                None => WriteEvent::End,
            },
            WriteAction::Write { writer } => {
                assert_eq!(opened.len(), writers);
                written[writer].push(batch);
                WriteEvent::Written
            }
            WriteAction::Close { writer } => {
                closed.push(writer);
                WriteEvent::Closed
            }
            WriteAction::Finish { row_count } => {
                assert_eq!(opened, (0..writers).collect::<Vec<usize>>());
                assert_eq!(closed, opened);
                return (written, row_count);
            }
        };
        assert!(state.can_take(&event));
        state.write_all(event);
    }
}

#[test]
fn every_batch_is_written_once() {
    let partitions = [vec![3, 4], vec![], vec![5, 0, 6]];
    let (written, rows) = write(true, &partitions, 3);
    assert_eq!(written, partitions);
    assert_eq!(rows, 18);
    let (written, rows) = write(false, &partitions, 1);
    assert_eq!(written, [vec![3, 4, 5, 0, 6]]);
    assert_eq!(rows, 18);
    assert_eq!(write(true, &[], 0), (vec![], 0));
    assert_eq!(write(false, &[], 1), (vec![vec![]], 0));
}

#[test]
fn no_writer_is_closed_before_all_was_read() {
    // The third partition is the last to be read, and fails.
    let mut state = sink(FileWriterMode::PutMultipart, true).begin_write(3);
    let mut actions: Vec<WriteAction> = vec![];
    loop {
        let event = match state.action() {
            WriteAction::Open { .. } => WriteEvent::Opened,
            WriteAction::Read { partition: 2 } => break,
            WriteAction::Read { partition } if !actions.contains(&WriteAction::Read { partition }) => {
                WriteEvent::Batch { num_rows: 1 }
            }
            WriteAction::Read { .. } => WriteEvent::End,
            WriteAction::Write { .. } => WriteEvent::Written,
            action => panic!("{action:?}"),
        };
        actions.push(state.action());
        state.write_all(event);
    }
    assert_eq!(state.phase, WritePhase::Reading { partition: 2 });
    assert_eq!(actions.len(), 9);
    assert!(!actions.iter().any(|action| matches!(action, WriteAction::Close { .. })));
}

#[test]
fn events_out_of_turn_are_not_taken() {
    let mut state = WriteState::new(1, true);
    assert_eq!(state.phase, WritePhase::Opening { writer: 0 });
    assert!(!state.can_take(&WriteEvent::End));
    state.write_all(WriteEvent::Opened);
    assert_eq!(state.phase, WritePhase::Reading { partition: 0 });
    assert!(!state.can_take(&WriteEvent::Opened));
    assert!(!state.can_take(&WriteEvent::Written));
    assert!(!state.can_take(&WriteEvent::Closed));
    assert!(state.can_take(&WriteEvent::Batch { num_rows: usize::MAX }));
    let state = WriteState { row_count: 1, ..state };
    assert!(!state.can_take(&WriteEvent::Batch { num_rows: usize::MAX }));
    let state = WriteState { phase: WritePhase::Finished, ..state };
    assert!(!state.can_take(&WriteEvent::End));
}
