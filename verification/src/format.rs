//! The Parquet file format, with what overrides the configuration of a session.

use vstd::prelude::*;
use std::sync::Arc;
use arrow::datatypes::Schema;
use parquet::file::metadata::ParquetMetaData;
use crate::config::{ConfigOptions, ParquetOptionsView};
use crate::error::{Error, ErrorView};
use crate::footer::{
    begin_fetch, first_read_start, too_small_for_footer, ByteRange, FetchState, FetchStateView,
    FOOTER_SIZE,
};
use crate::metadata::{
    can_fetch_statistics, fetch_statistics, is_countable, is_statistics_of,
};
use crate::schema::{
    all_fields, has_compatible_fields, has_consistent_metadata, is_merge, merge_schemas,
    schema_contents, schemas_contents, schemas_to_merge,
};
use crate::sink::{share, FileSinkConfig, ParquetSink};
use crate::statistics::Statistics;

verus! {

/// The number of files that are read at the same time when a schema is inferred.
pub const SCHEMA_INFERENCE_CONCURRENCY: usize = 32;

/// The Parquet file format.
///
/// Each field overrides an option of the session where it is set.
#[derive(Debug)]
pub struct ParquetFormat {
    enable_pruning: Option<bool>,
    metadata_size_hint: Option<usize>,
    skip_metadata: Option<bool>,
}

/// What a [`ParquetFormat`] overrides.
pub struct Overrides {
    pub enable_pruning: Option<bool>,
    pub metadata_size_hint: Option<usize>,
    pub skip_metadata: Option<bool>,
}

impl View for ParquetFormat {
    type V = Overrides;

    closed spec fn view(&self) -> Overrides {
        Overrides {
            enable_pruning: self.enable_pruning,
            metadata_size_hint: self.metadata_size_hint,
            skip_metadata: self.skip_metadata,
        }
    }
}

/// Whether row groups are skipped by their statistics.
pub open spec fn pruning_in(overrides: Overrides, options: ParquetOptionsView) -> bool {
    match overrides.enable_pruning {
        Some(enable) => enable,
        None => options.pruning,
    }
}

/// The hint at the size of the metadata of files.
pub open spec fn hint_in(overrides: Overrides, options: ParquetOptionsView) -> Option<usize> {
    match overrides.metadata_size_hint {
        Some(hint) => Some(hint),
        None => options.metadata_size_hint,
    }
}

/// Whether the metadata of schemas is skipped.
pub open spec fn skipping_in(overrides: Overrides, options: ParquetOptionsView) -> bool {
    match overrides.skip_metadata {
        Some(skip) => skip,
        None => options.skip_metadata,
    }
}

/// A plan that scans Parquet files.
#[derive(Debug)]
pub struct ParquetExec<C, P> {
    pub base_config: C,
    /// What rows must meet, where row groups may be skipped by it.
    pub predicate: Option<P>,
    pub metadata_size_hint: Option<usize>,
}

/// A plan that writes the output of another to files.
pub struct FileSinkExec<I> {
    pub input: I,
    pub sink: ParquetSink,
    pub sink_schema: Arc<Schema>,
}

impl Default for ParquetFormat {
    fn default() -> (format: ParquetFormat)
        ensures
            format@ == (Overrides {
                enable_pruning: None,
                metadata_size_hint: None,
                skip_metadata: None,
            }),
    {
        ParquetFormat { enable_pruning: None, metadata_size_hint: None, skip_metadata: None }
    }
}

impl ParquetFormat {
    /// Makes a format that overrides nothing.
    pub fn new() -> (format: ParquetFormat)
        ensures
            format@ == (Overrides {
                enable_pruning: None,
                metadata_size_hint: None,
                skip_metadata: None,
            }),
    {
        Self::default()
    }

    /// Turns skipping row groups by their statistics on or off, or leaves that to the
    /// session.
    pub fn with_enable_pruning(self, enable: Option<bool>) -> (format: ParquetFormat)
        ensures
            format@ == (Overrides { enable_pruning: enable, ..self@ }),
    {
        let mut format: ParquetFormat = self;
        format.enable_pruning = enable;
        format
    }

    /// Tells whether row groups are skipped by their statistics.
    pub fn enable_pruning(&self, config_options: &ConfigOptions) -> (enabled: bool)
        ensures
            enabled == pruning_in(self@, config_options.execution.parquet@),
            self@.enable_pruning matches Some(enable) ==> enabled == enable,
            self@.enable_pruning is None ==> enabled == config_options.execution.parquet.pruning,
    {
        self.enable_pruning.unwrap_or(config_options.execution.parquet.pruning)
    }

    /// Gives a hint at the size of the metadata of files, or leaves that to the session.
    ///
    /// With a hint, a reader tries to get that many bytes from the end of a file at once.
    /// Without one it takes two reads: one of the footer, and one of the metadata, whose
    /// length the footer holds.
    pub fn with_metadata_size_hint(self, size_hint: Option<usize>) -> (format: ParquetFormat)
        ensures
            format@ == (Overrides { metadata_size_hint: size_hint, ..self@ }),
    {
        let mut format: ParquetFormat = self;
        format.metadata_size_hint = size_hint;
        format
    }

    /// Returns the hint at the size of the metadata of files.
    pub fn metadata_size_hint(&self, config_options: &ConfigOptions) -> (hint: Option<usize>)
        ensures
            hint == hint_in(self@, config_options.execution.parquet@),
            self@.metadata_size_hint is Some ==> hint == self@.metadata_size_hint,
            self@.metadata_size_hint is None ==> hint
                == config_options.execution.parquet.metadata_size_hint,
    {
        let hint: Option<usize> = config_options.execution.parquet.metadata_size_hint;
        match self.metadata_size_hint {
            Some(hint) => Some(hint),
            None => hint,
        }
    }

    /// Has the metadata of the schemas of files skipped or not, or leaves that to the
    /// session. Skipping it avoids conflicts between files.
    pub fn with_skip_metadata(self, skip_metadata: Option<bool>) -> (format: ParquetFormat)
        ensures
            format@ == (Overrides { skip_metadata, ..self@ }),
    {
        let mut format: ParquetFormat = self;
        format.skip_metadata = skip_metadata;
        format
    }

    /// Tells whether the metadata of schemas is cleared before they are merged.
    pub fn skip_metadata(&self, config_options: &ConfigOptions) -> (skip: bool)
        ensures
            skip == skipping_in(self@, config_options.execution.parquet@),
            self@.skip_metadata matches Some(value) ==> skip == value,
            self@.skip_metadata is None ==> skip == config_options.execution.parquet.skip_metadata,
    {
        self.skip_metadata.unwrap_or(config_options.execution.parquet.skip_metadata)
    }
}

impl ParquetFormat {
    /// Starts to fetch the metadata of a file of `size` bytes, to infer its schema or its
    /// statistics.
    pub fn begin_infer(&self, config_options: &ConfigOptions, size: usize) -> (step: Result<
        (ByteRange, FetchState),
        Error,
    >)
        ensures
            step is Err <==> size < FOOTER_SIZE,
            step matches Err(error) ==> error@ == ErrorView::Execution(
                too_small_for_footer(size as nat),
            ),
            step matches Ok((range, state)) ==> {
                let footer_start = first_read_start(
                    size as int,
                    hint_in(self@, config_options.execution.parquet@),
                );
                &&& range.start == footer_start
                &&& range.end == size
                &&& state@ == (FetchStateView::Suffix { size: size as int, footer_start })
            },
    {
        begin_fetch(size, self.metadata_size_hint(config_options))
    }

    /// Infers the schema of a table from the schemas of its files, without their metadata
    /// where that is skipped.
    pub fn infer_schema(&self, config_options: &ConfigOptions, schemas: Vec<Schema>) -> (result:
        Result<Arc<Schema>, Error>)
        ensures
            ({
                let skip = skipping_in(self@, config_options.execution.parquet@);
                let merged = schemas_to_merge(schemas_contents(schemas@), skip);
                &&& result matches Ok(schema) ==> is_merge(merged, schema_contents(*schema))
                &&& result matches Err(error) ==> error is ArrowError && !(has_compatible_fields(
                    all_fields(merged),
                ) && has_consistent_metadata(merged))
            }),
    {
        match merge_schemas(schemas, self.skip_metadata(config_options)) {
            Ok(schema) => Ok(Arc::new(schema)),
            Err(error) => Err(error),
        }
    }

    /// Infers the statistics of a table from the metadata of a file. The metadata must be
    /// convertible, and the counts must fit the types that hold them.
    pub fn infer_stats(&self, table_schema: &Schema, metadata: &ParquetMetaData) -> (result: Result<
        Statistics,
        Error,
    >)
        requires
            is_countable(*metadata, schema_contents(*table_schema)),
        ensures
            is_statistics_of(result, *metadata, schema_contents(*table_schema)),
    {
        fetch_statistics(metadata, table_schema)
    }

    /// Infers the statistics of a table from the metadata of a file, or gives `None` where
    /// that is not possible.
    pub fn checked_infer_stats(&self, table_schema: &Schema, metadata: &ParquetMetaData) -> (result:
        Option<Result<Statistics, Error>>)
        ensures
            result is Some <==> is_countable(*metadata, schema_contents(*table_schema)),
            result matches Some(found) ==> is_statistics_of(
                found,
                *metadata,
                schema_contents(*table_schema),
            ),
    {
        if can_fetch_statistics(metadata, table_schema) {
            Some(self.infer_stats(table_schema, metadata))
        } else {
            None
        }
    }

    /// Plans a scan. Rows are filtered by their statistics where that is enabled.
    pub fn create_physical_plan<C, P>(
        &self,
        config_options: &ConfigOptions,
        conf: C,
        filters: Option<P>,
    ) -> (plan: ParquetExec<C, P>)
        ensures
            plan.base_config == conf,
            plan.predicate == (if pruning_in(self@, config_options.execution.parquet@) {
                filters
            } else {
                None
            }),
            plan.metadata_size_hint == hint_in(self@, config_options.execution.parquet@),
            self@.enable_pruning == Some(false) ==> plan.predicate is None,
            self@.enable_pruning == Some(true) ==> plan.predicate == filters,
            self@.metadata_size_hint is Some ==> plan.metadata_size_hint
                == self@.metadata_size_hint,
    {
        let predicate: Option<P> = if self.enable_pruning(config_options) {
            filters
        } else {
            None
        };
        ParquetExec {
            base_config: conf,
            predicate,
            metadata_size_hint: self.metadata_size_hint(config_options),
        }
    }

    /// Plans a write, which cannot replace existing files.
    pub fn create_writer_physical_plan<I>(&self, input: I, conf: FileSinkConfig) -> (result: Result<
        FileSinkExec<I>,
        Error,
    >)
        ensures
            result is Err <==> conf.overwrite,
            result matches Err(error) ==> error@ == ErrorView::NotImplemented(
                "Overwrites are not implemented yet for Parquet"@,
            ),
            result matches Ok(plan) ==> {
                &&& plan.input == input
                &&& plan.sink.config == conf
                &&& plan.sink_schema == conf.output_schema
            },
    {
        if conf.overwrite {
            return Err(
                Error::NotImplemented("Overwrites are not implemented yet for Parquet".to_owned()),
            );
        }
        let sink_schema: Arc<Schema> = share(&conf.output_schema);
        let sink: ParquetSink = ParquetSink::new(conf);
        Ok(FileSinkExec { input, sink, sink_schema })
    }
}

/// What a format sets holds whatever the session says, and what it does not set is as
/// the session says.
pub proof fn law_overrides(overrides: Overrides, a: ParquetOptionsView, b: ParquetOptionsView)
    ensures
        overrides.enable_pruning is Some ==> pruning_in(overrides, a) == pruning_in(overrides, b),
        overrides.enable_pruning is None ==> pruning_in(overrides, a) == a.pruning,
        overrides.metadata_size_hint is Some ==> hint_in(overrides, a) == hint_in(overrides, b),
        overrides.metadata_size_hint is None ==> hint_in(overrides, a) == a.metadata_size_hint,
        overrides.skip_metadata is Some ==> skipping_in(overrides, a) == skipping_in(overrides, b),
        overrides.skip_metadata is None ==> skipping_in(overrides, a) == a.skip_metadata,
{
}

/// What a format sets is what holds: the value that it overrides an option of the
/// session with is the value that is used, on as well as off.
pub proof fn law_overrides_are_used(
    overrides: Overrides,
    options: ParquetOptionsView,
    flag: bool,
    hint: usize,
)
    ensures
        overrides.enable_pruning == Some(flag) ==> pruning_in(overrides, options) == flag,
        overrides.metadata_size_hint == Some(hint) ==> hint_in(overrides, options) == Some(hint),
        overrides.skip_metadata == Some(flag) ==> skipping_in(overrides, options) == flag,
        pruning_in(Overrides { enable_pruning: Some(flag), ..overrides }, options) == flag,
        hint_in(Overrides { metadata_size_hint: Some(hint), ..overrides }, options) == Some(hint),
        skipping_in(Overrides { skip_metadata: Some(flag), ..overrides }, options) == flag,
        pruning_in(
            Overrides { enable_pruning: None, ..overrides },
            ParquetOptionsView { pruning: flag, ..options },
        ) == flag,
        hint_in(
            Overrides { metadata_size_hint: None, ..overrides },
            ParquetOptionsView { metadata_size_hint: Some(hint), ..options },
        ) == Some(hint),
        skipping_in(
            Overrides { skip_metadata: None, ..overrides },
            ParquetOptionsView { skip_metadata: flag, ..options },
        ) == flag,
{
}

} // verus!
