//! Writing the output of a query to Parquet files.

use vstd::prelude::*;
use std::sync::Arc;
use arrow::datatypes::Schema;
use object_store::path::Path;
use parquet::file::properties::WriterProperties;
use rand::distributions::{Alphanumeric, DistString};
use crate::config::{ParquetOptions, ParquetOptionsView};
use crate::error::{outcome, Error, ErrorView};
use crate::path::{all_alphanumeric, file_name, joined, part_path, path_part, path_text};
use crate::properties::{
    ascii_lowering, can_use, has_ascii_texts, is_usable, properties_settings, unicode_lowering,
    writer_props_builder, writer_settings, PropertiesView,
};
use crate::text::concat3;
use crate::write::WriteState;
use vstd::string::StringExecFns;

verus! {

/// How a file is written.
#[derive(Clone, Copy, Debug, PartialEq, Eq, Structural)]
pub enum FileWriterMode {
    /// To the end of an existing file.
    Append,
    /// In one request.
    Put,
    /// In several requests.
    PutMultipart,
}

impl FileWriterMode {
    /// The name of a mode.
    pub open spec fn spec_name(self) -> Seq<char> {
        match self {
            FileWriterMode::Append => "Append"@,
            FileWriterMode::Put => "Put"@,
            FileWriterMode::PutMultipart => "PutMultipart"@,
        }
    }

    /// Returns the name of a mode.
    pub fn name(&self) -> (name: &'static str)
        ensures
            name@ == self.spec_name(),
    {
        match self {
            FileWriterMode::Append => "Append",
            FileWriterMode::Put => "Put",
            FileWriterMode::PutMultipart => "PutMultipart",
        }
    }
}

/// Where and how a query writes its output.
#[derive(Debug)]
pub struct FileSinkConfig {
    /// The object store that is written to.
    pub object_store_url: String,
    /// Where the files of the table lie.
    pub table_paths: Vec<Path>,
    pub output_schema: Arc<Schema>,
    pub writer_mode: FileWriterMode,
    /// Whether each partition is written to a file of its own.
    pub per_thread_output: bool,
    /// Whether existing files are replaced.
    pub overwrite: bool,
}

/// A sink that writes Parquet files.
pub struct ParquetSink {
    pub config: FileSinkConfig,
}

/// A point in time: seconds since the start of the year 1970 in UTC, and nanoseconds,
/// which pass 1,000,000,000 during a leap second.
#[derive(Clone, Copy, Debug, PartialEq, Eq, Structural)]
pub struct Timestamp {
    pub seconds: i64,
    pub nanos: u32,
}

/// What is known of a file in an object store.
#[derive(Debug)]
pub struct ObjectMeta {
    pub location: Path,
    pub last_modified: Timestamp,
    pub size: usize,
    pub e_tag: Option<String>,
}

/// What a writer of a file is to be opened with.
#[derive(Debug)]
pub struct WriterRequest {
    pub location: Path,
    pub schema: Arc<Schema>,
    /// How many bytes are kept before they are passed on.
    pub buffer_size: usize,
}

/// How many bytes a writer keeps before it passes them on.
pub const WRITER_BUFFER_SIZE: usize = 10485760;

/// How many characters identify a write.
pub const WRITE_ID_LENGTH: usize = 16;

/// `Arc::clone` gives another pointer to the same value.
#[verifier::external_body]
pub(crate) fn share(schema: &Arc<Schema>) -> (shared: Arc<Schema>)
    ensures
        shared == *schema,
{
    Arc::clone(schema)
}

/// `DistString::sample_string` for `Alphanumeric` draws a number of ASCII letters and
/// digits from the generator of the thread.
#[verifier::external_body]
fn sample_string(length: usize) -> (text: String)
    ensures
        text@.len() == length,
        all_alphanumeric(text@),
{
    Alphanumeric.sample_string(&mut rand::thread_rng(), length)
}

/// `Utc::now` reads the clock.
#[verifier::external_body]
fn now() -> (time: Timestamp)
    ensures
        time.nanos < 2000000000,
{
    let time = chrono::offset::Utc::now();
    Timestamp { seconds: time.timestamp(), nanos: time.timestamp_subsec_nanos() }
}

/// Whether a file is a new one, of which nothing is known but where it lies and when it
/// was made.
pub open spec fn is_new_file(meta: ObjectMeta, location: Seq<char>) -> bool {
    &&& path_text(meta.location) == location
    &&& meta.last_modified.nanos < 2000000000
    &&& meta.size == 0
    &&& meta.e_tag is None
}

/// Whether files are those of the partitions of a write, below a path.
pub open spec fn are_part_files(
    files: Seq<ObjectMeta>,
    base: Seq<char>,
    write_id: Seq<char>,
    num_partitions: nat,
) -> bool {
    &&& files.len() == num_partitions
    &&& forall|i: int|
        0 <= i < files.len() ==> is_new_file(
            #[trigger] files[i],
            joined(base, path_part(file_name(write_id, i as nat))),
        )
    &&& all_alphanumeric(write_id) ==> forall|i: int|
        0 <= i < files.len() ==> is_new_file(
            #[trigger] files[i],
            joined(base, file_name(write_id, i as nat)),
        )
}

/// A file that is about to be written.
fn new_file(location: Path) -> (meta: ObjectMeta)
    ensures
        is_new_file(meta, path_text(location)),
{
    ObjectMeta { location, last_modified: now(), size: 0, e_tag: None }
}

/// Lists the files that the partitions of a write go to.
pub fn part_files(base: &Path, write_id: &str, num_partitions: usize) -> (files: Vec<ObjectMeta>)
    ensures
        are_part_files(files@, path_text(*base), write_id@, num_partitions as nat),
{
    let mut files: Vec<ObjectMeta> = Vec::new();
    let mut part_idx: usize = 0;
    while part_idx < num_partitions
        invariant
            part_idx <= num_partitions,
            are_part_files(files@, path_text(*base), write_id@, part_idx as nat),
        decreases num_partitions - part_idx,
    {
        files.push(new_file(part_path(base, write_id, part_idx)));
        part_idx += 1;
    }
    files
}

/// Whether a result is the plan of a write: the error of a mode that is not supported, or
/// the files that the partitions go to.
pub open spec fn is_plan(
    config: FileSinkConfig,
    num_partitions: usize,
    result: Result<Vec<ObjectMeta>, Error>,
) -> bool {
    match config.writer_mode {
        FileWriterMode::Append => outcome(result) == Err::<Vec<ObjectMeta>, _>(
            ErrorView::Plan("Parquet format does not support appending to existing file!"@),
        ),
        FileWriterMode::Put => outcome(result) == Err::<Vec<ObjectMeta>, _>(
            ErrorView::NotImplemented("Put Mode is not implemented for ParquetSink yet"@),
        ),
        FileWriterMode::PutMultipart => {
            let base = path_text(config.table_paths@[0]);
            &&& result matches Ok(files)
            &&& files@.len() == WriteState::start(
                num_partitions,
                config.per_thread_output,
            ).num_writers()
            &&& if config.per_thread_output {
                exists|write_id: Seq<char>|
                    write_id.len() == WRITE_ID_LENGTH && all_alphanumeric(write_id)
                        && #[trigger] are_part_files(files@, base, write_id, num_partitions as nat)
            } else {
                is_new_file(files@[0], base)
            }
        },
    }
}

impl ParquetSink {
    /// Makes a sink.
    pub fn new(config: FileSinkConfig) -> (sink: ParquetSink)
        ensures
            sink.config == config,
    {
        ParquetSink { config }
    }

    /// Names the sink for programmers.
    pub fn fmt(&self) -> (text: String)
        ensures
            text@ == "ParquetSink"@,
    {
        "ParquetSink".to_owned()
    }

    /// Describes the sink in a plan, where `file_groups` describes its groups of files.
    pub fn fmt_as(&self, file_groups: &str) -> (text: String)
        ensures
            text@ == "ParquetSink(writer_mode="@ + self.config.writer_mode.spec_name()
                + ", file_groups="@ + file_groups@ + ")"@,
    {
        let text: String = concat3(
            "ParquetSink(writer_mode=",
            self.config.writer_mode.name(),
            ", file_groups=",
        );
        text.concat(file_groups).concat(")")
    }

    /// Makes the properties of writers from options, or finds the error in them.
    ///
    /// Options with a false positive probability of bloom filters go through
    /// [`writer_props_builder`], on whose result it is set.
    pub fn parquet_writer_props_from_context(&self, options: &ParquetOptions) -> (result: Result<
        WriterProperties,
        Error,
    >)
        requires
            is_usable(options@, unicode_lowering()),
        ensures
            settings_in(result) == writer_settings(options@, unicode_lowering()),
            has_ascii_texts(options@) ==> settings_in(result) == writer_settings(
                options@,
                ascii_lowering(),
            ),
    {
        match writer_props_builder(options) {
            Ok(builder) => Ok(builder.build()),
            Err(error) => Err(error),
        }
    }

    /// Makes the properties of writers from options, or finds the error in them, or
    /// returns `None` for options that writers cannot be made with.
    pub fn checked_writer_props(&self, options: &ParquetOptions) -> (result: Option<
        Result<WriterProperties, Error>,
    >)
        ensures
            result is Some <==> is_usable(options@, unicode_lowering()),
            result matches Some(made) ==> settings_in(made) == writer_settings(
                options@,
                unicode_lowering(),
            ),
            has_ascii_texts(options@) ==> {
                &&& result is Some <==> is_usable(options@, ascii_lowering())
                &&& result matches Some(made) ==> settings_in(made) == writer_settings(
                    options@,
                    ascii_lowering(),
                )
            },
    {
        if can_use(options) {
            Some(self.parquet_writer_props_from_context(options))
        } else {
            None
        }
    }

    /// Says what to open the writer of a file with.
    pub fn create_writer(&self, file_meta: ObjectMeta) -> (result: Result<WriterRequest, Error>)
        ensures
            match self.config.writer_mode {
                FileWriterMode::Append => outcome(result) == Err::<WriterRequest, _>(
                    ErrorView::Plan(
                        "Appending to Parquet files is not supported by the file format!"@,
                    ),
                ),
                FileWriterMode::Put => outcome(result) == Err::<WriterRequest, _>(
                    ErrorView::NotImplemented(
                        "FileWriterMode::Put is not implemented for ParquetSink"@,
                    ),
                ),
                FileWriterMode::PutMultipart => result == Ok::<_, Error>(
                    WriterRequest {
                        location: file_meta.location,
                        schema: self.config.output_schema,
                        buffer_size: WRITER_BUFFER_SIZE,
                    },
                ),
            },
            result matches Ok(request) ==> request.buffer_size == 10 * 1024 * 1024,
    {
        match self.config.writer_mode {
            FileWriterMode::Append => Err(
                Error::Plan(
                    "Appending to Parquet files is not supported by the file format!".to_owned(),
                ),
            ),
            FileWriterMode::Put => Err(
                Error::NotImplemented(
                    "FileWriterMode::Put is not implemented for ParquetSink".to_owned(),
                ),
            ),
            FileWriterMode::PutMultipart => Ok(
                WriterRequest {
                    location: file_meta.location,
                    schema: share(&self.config.output_schema),
                    buffer_size: WRITER_BUFFER_SIZE,
                },
            ),
        }
    }

    /// Lists the files that a write of a number of partitions goes to: one for each, named
    /// by what identifies the write, or one for all, at the path of the table.
    pub fn plan_files(&self, num_partitions: usize) -> (result: Result<Vec<ObjectMeta>, Error>)
        requires
            self.config.writer_mode is PutMultipart ==> self.config.table_paths@.len() > 0,
        ensures
            is_plan(self.config, num_partitions, result),
    {
        match self.config.writer_mode {
            FileWriterMode::Append => Err(
                Error::Plan(
                    "Parquet format does not support appending to existing file!".to_owned(),
                ),
            ),
            FileWriterMode::Put => Err(
                Error::NotImplemented("Put Mode is not implemented for ParquetSink yet".to_owned()),
            ),
            FileWriterMode::PutMultipart => {
                let base_path: &Path = &self.config.table_paths[0];
                if self.config.per_thread_output {
                    let write_id: String = sample_string(WRITE_ID_LENGTH);
                    Ok(part_files(base_path, write_id.as_str(), num_partitions))
                } else {
                    let mut files: Vec<ObjectMeta> = Vec::new();
                    files.push(new_file(base_path.clone()));
                    Ok(files)
                }
            },
        }
    }
}

impl ParquetSink {
    /// Prepares a write: makes the properties of its writers, and plans its files. An error
    /// in the options is found before the plan is made.
    pub fn prepare_write(&self, options: &ParquetOptions, num_partitions: usize) -> (result: Result<
        (WriterProperties, Result<Vec<ObjectMeta>, Error>),
        Error,
    >)
        requires
            can_be_prepared(self.config, options@, unicode_lowering()),
        ensures
            is_prepared(self.config, options@, unicode_lowering(), num_partitions, result),
            has_ascii_texts(options@) ==> is_prepared(
                self.config,
                options@,
                ascii_lowering(),
                num_partitions,
                result,
            ),
    {
        match self.parquet_writer_props_from_context(options) {
            Ok(properties) => Ok((properties, self.plan_files(num_partitions))),
            Err(error) => Err(error),
        }
    }

    /// Prepares a write, or returns `None` for options that writers cannot be made with,
    /// and for a table without a path where the options have no error.
    pub fn checked_prepare_write(&self, options: &ParquetOptions, num_partitions: usize) -> (result:
        Option<Result<(WriterProperties, Result<Vec<ObjectMeta>, Error>), Error>>)
        ensures
            result is Some <==> can_be_prepared(self.config, options@, unicode_lowering()),
            result matches Some(prepared) ==> is_prepared(
                self.config,
                options@,
                unicode_lowering(),
                num_partitions,
                prepared,
            ),
            has_ascii_texts(options@) ==> {
                &&& result is Some <==> can_be_prepared(self.config, options@, ascii_lowering())
                &&& result matches Some(prepared) ==> is_prepared(
                    self.config,
                    options@,
                    ascii_lowering(),
                    num_partitions,
                    prepared,
                )
            },
    {
        if !can_use(options) {
            return None;
        }
        let has_path: bool = match self.config.writer_mode {
            FileWriterMode::PutMultipart => self.config.table_paths.len() > 0,
            _ => true,
        };
        if has_path {
            return Some(self.prepare_write(options, num_partitions));
        }
        match self.parquet_writer_props_from_context(options) {
            Ok(_) => None,
            Err(error) => Some(Err(error)),
        }
    }

    /// Begins a write of a number of partitions to the files of
    /// [`ParquetSink::plan_files`], by whose order writers are numbered.
    pub fn begin_write(&self, num_partitions: usize) -> (state: WriteState)
        ensures
            state == WriteState::start(num_partitions, self.config.per_thread_output),
            state.wf(),
    {
        WriteState::new(num_partitions, self.config.per_thread_output)
    }
}

/// The settings of the properties that were made, or the error that was found.
pub open spec fn settings_in(result: Result<WriterProperties, Error>) -> Result<
    PropertiesView,
    ErrorView,
> {
    match result {
        Ok(properties) => Ok(properties_settings(properties)),
        Err(error) => Err(error@),
    }
}

/// Whether a write can be prepared, or an error found in the options: they are usable, and
/// without an error a table that is written to has a path. Texts are put into lower case
/// as this says.
pub open spec fn can_be_prepared(
    config: FileSinkConfig,
    options: ParquetOptionsView,
    lower: spec_fn(Seq<char>) -> Seq<char>,
) -> bool {
    &&& is_usable(options, lower)
    &&& writer_settings(options, lower) is Ok && config.writer_mode is PutMultipart
        ==> config.table_paths@.len() > 0
}

/// Whether a result is that of preparing a write: the error of the options where they have
/// one, whatever the mode, and else the properties of writers and the plan of the files.
/// Texts are put into lower case as this says.
pub open spec fn is_prepared(
    config: FileSinkConfig,
    options: ParquetOptionsView,
    lower: spec_fn(Seq<char>) -> Seq<char>,
    num_partitions: usize,
    result: Result<(WriterProperties, Result<Vec<ObjectMeta>, Error>), Error>,
) -> bool {
    match writer_settings(options, lower) {
        Ok(settings) => {
            &&& result matches Ok((properties, files))
            &&& properties_settings(properties) == settings
            &&& is_plan(config, num_partitions, files)
        },
        Err(error) => result matches Err(e) && e@ == error,
    }
}

/// The files of a write are different files.
pub proof fn law_part_files_differ(
    files: Seq<ObjectMeta>,
    base: Seq<char>,
    write_id: Seq<char>,
    i: int,
    j: int,
)
    requires
        all_alphanumeric(write_id),
        are_part_files(files, base, write_id, files.len()),
        0 <= i < files.len(),
        0 <= j < files.len(),
        path_text(files[i].location) == path_text(files[j].location),
    ensures
        i == j,
{
    crate::path::law_paths_are_unique(
        base,
        file_name(write_id, i as nat),
        file_name(write_id, j as nat),
    );
    crate::path::law_file_names_are_unique(write_id, i as nat, write_id, j as nat);
}

/// Which files a write produces: none where the mode is not supported, and else new ones,
/// of 0 bytes and without a tag. There is one for each partition, named after the write and
/// the partition, in the first path of the table, or one that is this path.
pub proof fn law_files_of_write(
    config: FileSinkConfig,
    num_partitions: usize,
    result: Result<Vec<ObjectMeta>, Error>,
    i: int,
)
    requires
        is_plan(config, num_partitions, result),
    ensures
        result is Ok <==> config.writer_mode is PutMultipart,
        config.writer_mode is Append ==> (result matches Err(Error::Plan(_))),
        config.writer_mode is Put ==> (result matches Err(Error::NotImplemented(_))),
        result matches Ok(files) ==> {
            let base = path_text(config.table_paths@[0]);
            &&& config.per_thread_output ==> files@.len() == num_partitions
            &&& !config.per_thread_output ==> files@.len() == 1
            &&& 0 <= i < files@.len() ==> {
                &&& files@[i].size == 0
                &&& files@[i].e_tag is None
                &&& !config.per_thread_output ==> path_text(files@[i].location) == base
                &&& config.per_thread_output ==> exists|write_id: Seq<char>|
                    {
                        &&& write_id.len() == 16
                        &&& path_text(files@[i].location) == joined(
                            base,
                            #[trigger] file_name(write_id, i as nat),
                        )
                    }
            }
        },
{
    if let Ok(files) = result {
        if config.per_thread_output && 0 <= i < files@.len() {
            let base = path_text(config.table_paths@[0]);
            let write_id = choose|write_id: Seq<char>|
                write_id.len() == WRITE_ID_LENGTH && all_alphanumeric(write_id)
                    && #[trigger] are_part_files(files@, base, write_id, num_partitions as nat);
            assert(is_new_file(files@[i], joined(base, file_name(write_id, i as nat))));
        }
    }
}

/// Preparing a write fails with the error of the options where they have one, and gives
/// the settings that they ask for and the files of the write otherwise.
pub proof fn law_prepared_write(
    config: FileSinkConfig,
    options: ParquetOptionsView,
    lower: spec_fn(Seq<char>) -> Seq<char>,
    num_partitions: usize,
    result: Result<(WriterProperties, Result<Vec<ObjectMeta>, Error>), Error>,
)
    requires
        is_prepared(config, options, lower, num_partitions, result),
    ensures
        result is Ok <==> writer_settings(options, lower) is Ok,
        result matches Err(error) ==> writer_settings(options, lower) == Err::<PropertiesView, _>(
            error@,
        ),
        result matches Ok((properties, files)) ==> {
            &&& writer_settings(options, lower) == Ok::<_, ErrorView>(
                properties_settings(properties),
            )
            &&& files is Ok <==> config.writer_mode is PutMultipart
            &&& properties_settings(properties).dictionary_enabled == options.dictionary_enabled
            &&& properties_settings(properties).max_row_group_size == options.max_row_group_size
            &&& properties_settings(properties).created_by == options.created_by
        },
{
}

/// What a plan calls the modes of writers.
pub proof fn law_names_of_modes()
    ensures
        FileWriterMode::Append.spec_name() == seq!['A', 'p', 'p', 'e', 'n', 'd'],
        FileWriterMode::Put.spec_name() == seq!['P', 'u', 't'],
        FileWriterMode::PutMultipart.spec_name() == seq!['P', 'u', 't'] + seq![
            'M',
            'u',
            'l',
            't',
            'i',
            'p',
            'a',
            'r',
            't',
        ],
{
    reveal_strlit("Append");
    reveal_strlit("Put");
    reveal_strlit("PutMultipart");
    assert("Append"@ =~= seq!['A', 'p', 'p', 'e', 'n', 'd']);
    assert("Put"@ =~= seq!['P', 'u', 't']);
    assert("PutMultipart"@ =~= seq!['P', 'u', 't'] + seq![
        'M',
        'u',
        'l',
        't',
        'i',
        'p',
        'a',
        'r',
        't',
    ]);
}

} // verus!
