//! The configuration of a session, as far as Parquet files depend on it.

use vstd::prelude::*;

verus! {

/// The options of a session.
#[derive(Debug)]
pub struct ConfigOptions {
    pub execution: ExecutionOptions,
}

/// The options for executing queries.
#[derive(Debug)]
pub struct ExecutionOptions {
    pub parquet: ParquetOptions,
}

/// The options for reading and writing Parquet files.
///
/// The false positive probability of bloom filters is not among them: who has one
/// sets it on the builder that these options give.
#[derive(Debug)]
pub struct ParquetOptions {
    /// Whether row groups are skipped by their statistics.
    pub pruning: bool,
    /// How many bytes to read optimistically from the end of a file.
    pub metadata_size_hint: Option<usize>,
    /// Whether the metadata of the schemas of files is ignored.
    pub skip_metadata: bool,
    pub data_pagesize_limit: usize,
    pub write_batch_size: usize,
    pub writer_version: String,
    pub compression: Option<String>,
    pub dictionary_enabled: Option<bool>,
    pub dictionary_page_size_limit: usize,
    pub statistics_enabled: Option<String>,
    pub max_statistics_size: Option<usize>,
    pub max_row_group_size: usize,
    pub created_by: String,
    pub column_index_truncate_length: Option<usize>,
    pub data_page_row_count_limit: usize,
    pub encoding: Option<String>,
    pub bloom_filter_enabled: bool,
    pub bloom_filter_ndv: Option<u64>,
}

/// What contracts say of [`ParquetOptions`].
pub struct ParquetOptionsView {
    pub pruning: bool,
    pub metadata_size_hint: Option<usize>,
    pub skip_metadata: bool,
    pub data_pagesize_limit: usize,
    pub write_batch_size: usize,
    pub writer_version: Seq<char>,
    pub compression: Option<Seq<char>>,
    pub dictionary_enabled: Option<bool>,
    pub dictionary_page_size_limit: usize,
    pub statistics_enabled: Option<Seq<char>>,
    pub max_statistics_size: Option<usize>,
    pub max_row_group_size: usize,
    pub created_by: Seq<char>,
    pub column_index_truncate_length: Option<usize>,
    pub data_page_row_count_limit: usize,
    pub encoding: Option<Seq<char>>,
    pub bloom_filter_enabled: bool,
    pub bloom_filter_ndv: Option<u64>,
}

/// The view of an optional text.
pub open spec fn optional_text(text: Option<String>) -> Option<Seq<char>> {
    match text {
        Some(text) => Some(text@),
        None => None,
    }
}

impl View for ParquetOptions {
    type V = ParquetOptionsView;

    open spec fn view(&self) -> ParquetOptionsView {
        ParquetOptionsView {
            pruning: self.pruning,
            metadata_size_hint: self.metadata_size_hint,
            skip_metadata: self.skip_metadata,
            data_pagesize_limit: self.data_pagesize_limit,
            write_batch_size: self.write_batch_size,
            writer_version: self.writer_version@,
            compression: optional_text(self.compression),
            dictionary_enabled: self.dictionary_enabled,
            dictionary_page_size_limit: self.dictionary_page_size_limit,
            statistics_enabled: optional_text(self.statistics_enabled),
            max_statistics_size: self.max_statistics_size,
            max_row_group_size: self.max_row_group_size,
            created_by: self.created_by@,
            column_index_truncate_length: self.column_index_truncate_length,
            data_page_row_count_limit: self.data_page_row_count_limit,
            encoding: optional_text(self.encoding),
            bloom_filter_enabled: self.bloom_filter_enabled,
            bloom_filter_ndv: self.bloom_filter_ndv,
        }
    }
}

} // verus!
