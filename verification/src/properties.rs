//! The properties of a writer, from the options of a session.

use vstd::prelude::*;
use parquet::basic;
use parquet::file::properties;
use parquet::file::properties::{WriterProperties, WriterPropertiesBuilder};
use crate::config::{ParquetOptions, ParquetOptionsView};
use crate::error::{Error, ErrorView};
use crate::settings::{
    can_split, compression_named, compression_text, encoding_named, is_splittable,
    law_compression_is_read_back, law_compression_is_valid, law_encoding_names,
    law_statistics_names, law_version_names, parse_compression_string, parse_encoding_string,
    parse_statistics_string, parse_version_string, statistics_named, version_named, Compression,
    EnabledStatistics, Encoding, WriterVersion,
};
use crate::text::{all_ascii, ascii_lower, lowercase, to_lowercase};

verus! {

/// The builder of writer properties of the `parquet` crate.
#[verifier::external_type_specification]
#[verifier::external_body]
pub struct ExWriterPropertiesBuilder(WriterPropertiesBuilder);

/// The writer properties of the `parquet` crate.
#[verifier::external_type_specification]
#[verifier::external_body]
pub struct ExWriterProperties(WriterProperties);

/// The settings of writer properties. The first group is of the file. The second is of
/// its columns, where `None` leaves the choice to the writer; the number of distinct
/// values is that of bloom filters, which are not written where there is none.
pub struct PropertiesView {
    pub data_page_size_limit: usize,
    pub dictionary_page_size_limit: usize,
    pub data_page_row_count_limit: usize,
    pub write_batch_size: usize,
    pub max_row_group_size: usize,
    pub writer_version: WriterVersion,
    pub created_by: Seq<char>,
    pub column_index_truncate_length: Option<usize>,
    pub encoding: Option<Encoding>,
    pub compression: Option<Compression>,
    pub dictionary_enabled: Option<bool>,
    pub statistics_enabled: Option<EnabledStatistics>,
    pub max_statistics_size: Option<usize>,
    pub bloom_filter_ndv: Option<u64>,
}

/// The settings that a builder holds.
pub uninterp spec fn builder_settings(builder: WriterPropertiesBuilder) -> PropertiesView;

/// The settings that writer properties hold.
pub uninterp spec fn properties_settings(properties: WriterProperties) -> PropertiesView;

/// `WriterProperties::builder` gives a builder with default settings. The text that
/// names the writer is left open.
pub assume_specification[ WriterProperties::builder ]() -> (builder: WriterPropertiesBuilder)
    ensures
        builder_settings(builder) == (PropertiesView {
            data_page_size_limit: 1048576,
            dictionary_page_size_limit: 1048576,
            data_page_row_count_limit: usize::MAX,
            write_batch_size: 1024,
            max_row_group_size: 1048576,
            writer_version: WriterVersion::PARQUET_1_0,
            created_by: builder_settings(builder).created_by,
            column_index_truncate_length: Some(64),
            encoding: None,
            compression: None,
            dictionary_enabled: None,
            statistics_enabled: None,
            max_statistics_size: None,
            bloom_filter_ndv: None,
        }),
;

/// `WriterPropertiesBuilder::build` gives properties with the settings of the builder.
pub assume_specification[ WriterPropertiesBuilder::build ](
    builder: WriterPropertiesBuilder,
) -> (properties: WriterProperties)
    ensures
        properties_settings(properties) == builder_settings(builder),
;

/// `WriterPropertiesBuilder::set_data_page_size_limit` sets that limit alone.
pub assume_specification[ WriterPropertiesBuilder::set_data_page_size_limit ](
    builder: WriterPropertiesBuilder,
    value: usize,
) -> (set: WriterPropertiesBuilder)
    ensures
        builder_settings(set) == (PropertiesView {
            data_page_size_limit: value,
            ..builder_settings(builder)
        }),
;

/// `WriterPropertiesBuilder::set_write_batch_size` sets that size alone.
pub assume_specification[ WriterPropertiesBuilder::set_write_batch_size ](
    builder: WriterPropertiesBuilder,
    value: usize,
) -> (set: WriterPropertiesBuilder)
    ensures
        builder_settings(set) == (PropertiesView {
            write_batch_size: value,
            ..builder_settings(builder)
        }),
;

/// `WriterPropertiesBuilder::set_dictionary_page_size_limit` sets that limit alone.
pub assume_specification[ WriterPropertiesBuilder::set_dictionary_page_size_limit ](
    builder: WriterPropertiesBuilder,
    value: usize,
) -> (set: WriterPropertiesBuilder)
    ensures
        builder_settings(set) == (PropertiesView {
            dictionary_page_size_limit: value,
            ..builder_settings(builder)
        }),
;

/// `WriterPropertiesBuilder::set_max_row_group_size` sets that size alone. It panics on
/// 0.
pub assume_specification[ WriterPropertiesBuilder::set_max_row_group_size ](
    builder: WriterPropertiesBuilder,
    value: usize,
) -> (set: WriterPropertiesBuilder)
    requires
        value > 0,
    ensures
        builder_settings(set) == (PropertiesView {
            max_row_group_size: value,
            ..builder_settings(builder)
        }),
;

/// `WriterPropertiesBuilder::set_created_by` sets that text alone.
pub assume_specification[ WriterPropertiesBuilder::set_created_by ](
    builder: WriterPropertiesBuilder,
    value: String,
) -> (set: WriterPropertiesBuilder)
    ensures
        builder_settings(set) == (PropertiesView {
            created_by: value@,
            ..builder_settings(builder)
        }),
;

/// `WriterPropertiesBuilder::set_column_index_truncate_length` sets that length alone.
/// It panics on a length of 0.
pub assume_specification[ WriterPropertiesBuilder::set_column_index_truncate_length ](
    builder: WriterPropertiesBuilder,
    max_length: Option<usize>,
) -> (set: WriterPropertiesBuilder)
    requires
        max_length != Some(0usize),
    ensures
        builder_settings(set) == (PropertiesView {
            column_index_truncate_length: max_length,
            ..builder_settings(builder)
        }),
;

/// `WriterPropertiesBuilder::set_data_page_row_count_limit` sets that limit alone.
pub assume_specification[ WriterPropertiesBuilder::set_data_page_row_count_limit ](
    builder: WriterPropertiesBuilder,
    value: usize,
) -> (set: WriterPropertiesBuilder)
    ensures
        builder_settings(set) == (PropertiesView {
            data_page_row_count_limit: value,
            ..builder_settings(builder)
        }),
;

/// `WriterPropertiesBuilder::set_bloom_filter_enabled` turns bloom filters off, or on
/// with 1,000,000 distinct values where they are off. The false positive probability
/// that it sets with them is left open.
pub assume_specification[ WriterPropertiesBuilder::set_bloom_filter_enabled ](
    builder: WriterPropertiesBuilder,
    value: bool,
) -> (set: WriterPropertiesBuilder)
    ensures
        builder_settings(set) == (PropertiesView {
            bloom_filter_ndv: if !value {
                None
            } else if builder_settings(builder).bloom_filter_ndv is None {
                Some(1000000)
            } else {
                builder_settings(builder).bloom_filter_ndv
            },
            ..builder_settings(builder)
        }),
;

/// `WriterPropertiesBuilder::set_dictionary_enabled` sets that choice alone.
pub assume_specification[ WriterPropertiesBuilder::set_dictionary_enabled ](
    builder: WriterPropertiesBuilder,
    value: bool,
) -> (set: WriterPropertiesBuilder)
    ensures
        builder_settings(set) == (PropertiesView {
            dictionary_enabled: Some(value),
            ..builder_settings(builder)
        }),
;

/// `WriterPropertiesBuilder::set_max_statistics_size` sets that size alone.
pub assume_specification[ WriterPropertiesBuilder::set_max_statistics_size ](
    builder: WriterPropertiesBuilder,
    value: usize,
) -> (set: WriterPropertiesBuilder)
    ensures
        builder_settings(set) == (PropertiesView {
            max_statistics_size: Some(value),
            ..builder_settings(builder)
        }),
;

/// `WriterPropertiesBuilder::set_bloom_filter_ndv` sets the number of distinct values of
/// bloom filters, and turns them on.
pub assume_specification[ WriterPropertiesBuilder::set_bloom_filter_ndv ](
    builder: WriterPropertiesBuilder,
    value: u64,
) -> (set: WriterPropertiesBuilder)
    ensures
        builder_settings(set) == (PropertiesView {
            bloom_filter_ndv: Some(value),
            ..builder_settings(builder)
        }),
;

/// `WriterPropertiesBuilder::set_writer_version` sets the version alone.
#[verifier::external_body]
fn set_writer_version(builder: WriterPropertiesBuilder, value: WriterVersion) -> (set:
    WriterPropertiesBuilder)
    ensures
        builder_settings(set) == (PropertiesView {
            writer_version: value,
            ..builder_settings(builder)
        }),
{
    builder.set_writer_version(match value {
        WriterVersion::PARQUET_1_0 => properties::WriterVersion::PARQUET_1_0,
        WriterVersion::PARQUET_2_0 => properties::WriterVersion::PARQUET_2_0,
    })
}

/// `WriterPropertiesBuilder::set_encoding` sets the encoding alone. It panics on the
/// encodings by dictionary.
#[verifier::external_body]
fn set_encoding(builder: WriterPropertiesBuilder, value: Encoding) -> (set:
    WriterPropertiesBuilder)
    requires
        !is_dictionary(value),
    ensures
        builder_settings(set) == (PropertiesView {
            encoding: Some(value),
            ..builder_settings(builder)
        }),
{
    builder.set_encoding(match value {
        Encoding::PLAIN => basic::Encoding::PLAIN,
        Encoding::PLAIN_DICTIONARY => basic::Encoding::PLAIN_DICTIONARY,
        Encoding::RLE => basic::Encoding::RLE,
        #[allow(deprecated)]
        Encoding::BIT_PACKED => basic::Encoding::BIT_PACKED,
        Encoding::DELTA_BINARY_PACKED => basic::Encoding::DELTA_BINARY_PACKED,
        Encoding::DELTA_LENGTH_BYTE_ARRAY => basic::Encoding::DELTA_LENGTH_BYTE_ARRAY,
        Encoding::DELTA_BYTE_ARRAY => basic::Encoding::DELTA_BYTE_ARRAY,
        Encoding::RLE_DICTIONARY => basic::Encoding::RLE_DICTIONARY,
        Encoding::BYTE_STREAM_SPLIT => basic::Encoding::BYTE_STREAM_SPLIT,
    })
}

/// `WriterPropertiesBuilder::set_compression` sets the compression alone. A level is made
/// by `try_new` of its type, which accepts the valid ones.
#[verifier::external_body]
fn set_compression(builder: WriterPropertiesBuilder, value: Compression) -> (set:
    WriterPropertiesBuilder)
    requires
        value.is_valid(),
    ensures
        builder_settings(set) == (PropertiesView {
            compression: Some(value),
            ..builder_settings(builder)
        }),
{
    builder.set_compression(match value {
        Compression::UNCOMPRESSED => basic::Compression::UNCOMPRESSED,
        Compression::SNAPPY => basic::Compression::SNAPPY,
        Compression::GZIP(n) => basic::Compression::GZIP(basic::GzipLevel::try_new(n).unwrap()),
        Compression::LZO => basic::Compression::LZO,
        Compression::BROTLI(n) => basic::Compression::BROTLI(basic::BrotliLevel::try_new(n).unwrap()),
        Compression::LZ4 => basic::Compression::LZ4,
        Compression::ZSTD(n) => basic::Compression::ZSTD(basic::ZstdLevel::try_new(n).unwrap()),
        Compression::LZ4_RAW => basic::Compression::LZ4_RAW,
    })
}

/// `WriterPropertiesBuilder::set_statistics_enabled` sets the level of statistics alone.
#[verifier::external_body]
fn set_statistics_enabled(builder: WriterPropertiesBuilder, value: EnabledStatistics) -> (set:
    WriterPropertiesBuilder)
    ensures
        builder_settings(set) == (PropertiesView {
            statistics_enabled: Some(value),
            ..builder_settings(builder)
        }),
{
    builder.set_statistics_enabled(match value {
        EnabledStatistics::Disabled => properties::EnabledStatistics::None,
        EnabledStatistics::Chunk => properties::EnabledStatistics::Chunk,
        EnabledStatistics::Page => properties::EnabledStatistics::Page,
    })
}

/// Whether an encoding is by dictionary, which a writer turns on by another setting.
pub open spec fn is_dictionary(encoding: Encoding) -> bool {
    encoding is PLAIN_DICTIONARY || encoding is RLE_DICTIONARY
}

/// The settings that options ask for, where those given as text were read.
pub open spec fn settings_of(
    options: ParquetOptionsView,
    version: WriterVersion,
    encoding: Option<Encoding>,
    compression: Option<Compression>,
    statistics: Option<EnabledStatistics>,
) -> PropertiesView {
    PropertiesView {
        data_page_size_limit: options.data_pagesize_limit,
        dictionary_page_size_limit: options.dictionary_page_size_limit,
        data_page_row_count_limit: options.data_page_row_count_limit,
        write_batch_size: options.write_batch_size,
        max_row_group_size: options.max_row_group_size,
        writer_version: version,
        created_by: options.created_by,
        column_index_truncate_length: options.column_index_truncate_length,
        encoding,
        compression,
        dictionary_enabled: options.dictionary_enabled,
        statistics_enabled: statistics,
        max_statistics_size: options.max_statistics_size,
        bloom_filter_ndv: match options.bloom_filter_ndv {
            Some(ndv) => Some(ndv),
            None => if options.bloom_filter_enabled {
                Some(1000000)
            } else {
                None
            },
        },
    }
}

/// Whether a builder takes the sizes of options. It takes none of 0 rows or 0 bytes.
pub open spec fn has_valid_sizes(options: ParquetOptionsView) -> bool {
    options.max_row_group_size > 0 && options.column_index_truncate_length != Some(0usize)
}

/// Makes a builder with the settings of options, where those given as text were read.
pub fn configure_builder(
    options: &ParquetOptions,
    version: WriterVersion,
    encoding: Option<Encoding>,
    compression: Option<Compression>,
    statistics: Option<EnabledStatistics>,
) -> (builder: WriterPropertiesBuilder)
    requires
        has_valid_sizes(options@),
        encoding matches Some(encoding) ==> !is_dictionary(encoding),
        compression matches Some(compression) ==> compression.is_valid(),
    ensures
        builder_settings(builder) == settings_of(
            options@,
            version,
            encoding,
            compression,
            statistics,
        ),
        builder_settings(builder).data_page_size_limit == options.data_pagesize_limit,
        builder_settings(builder).dictionary_page_size_limit == options.dictionary_page_size_limit,
        builder_settings(builder).data_page_row_count_limit == options.data_page_row_count_limit,
        builder_settings(builder).write_batch_size == options.write_batch_size,
        builder_settings(builder).max_row_group_size == options.max_row_group_size,
        builder_settings(builder).created_by == options.created_by@,
        builder_settings(builder).column_index_truncate_length == options.column_index_truncate_length,
        builder_settings(builder).dictionary_enabled == options.dictionary_enabled,
        builder_settings(builder).max_statistics_size == options.max_statistics_size,
        options.bloom_filter_ndv is Some ==> builder_settings(builder).bloom_filter_ndv
            == options.bloom_filter_ndv,
        options.bloom_filter_ndv is None && options.bloom_filter_enabled
            ==> builder_settings(builder).bloom_filter_ndv == Some(1000000u64),
        options.bloom_filter_ndv is None && !options.bloom_filter_enabled
            ==> builder_settings(builder).bloom_filter_ndv is None,
        builder_settings(builder).writer_version == version,
        builder_settings(builder).encoding == encoding,
        builder_settings(builder).compression == compression,
        builder_settings(builder).statistics_enabled == statistics,
{
    let mut builder: WriterPropertiesBuilder = WriterProperties::builder().set_data_page_size_limit(
        options.data_pagesize_limit,
    ).set_write_batch_size(options.write_batch_size);
    builder = set_writer_version(builder, version);
    builder = builder.set_dictionary_page_size_limit(
        options.dictionary_page_size_limit,
    ).set_max_row_group_size(options.max_row_group_size).set_created_by(
        options.created_by.clone(),
    ).set_column_index_truncate_length(
        options.column_index_truncate_length,
    ).set_data_page_row_count_limit(
        options.data_page_row_count_limit,
    ).set_bloom_filter_enabled(options.bloom_filter_enabled);
    if let Some(encoding) = encoding {
        builder = set_encoding(builder, encoding);
    }
    if let Some(enabled) = options.dictionary_enabled {
        builder = builder.set_dictionary_enabled(enabled);
    }
    if let Some(compression) = compression {
        builder = set_compression(builder, compression);
    }
    if let Some(statistics) = statistics {
        builder = set_statistics_enabled(builder, statistics);
    }
    if let Some(size) = options.max_statistics_size {
        builder = builder.set_max_statistics_size(size);
    }
    if let Some(ndv) = options.bloom_filter_ndv {
        builder = builder.set_bloom_filter_ndv(ndv);
    }
    builder
}

/// Lower case as Unicode has it.
pub open spec fn unicode_lowering() -> spec_fn(Seq<char>) -> Seq<char> {
    |text: Seq<char>| lowercase(text)
}

/// Lower case in ASCII.
pub open spec fn ascii_lowering() -> spec_fn(Seq<char>) -> Seq<char> {
    |text: Seq<char>| ascii_lower(text)
}

/// What the version means, in lower case as `lower` gives it.
pub open spec fn version_of(
    options: ParquetOptionsView,
    lower: spec_fn(Seq<char>) -> Seq<char>,
) -> Result<WriterVersion, ErrorView> {
    version_named(lower(options.writer_version), options.writer_version)
}

/// What the encoding means, where one is set.
pub open spec fn encoding_of(
    options: ParquetOptionsView,
    lower: spec_fn(Seq<char>) -> Seq<char>,
) -> Result<Option<Encoding>, ErrorView> {
    match options.encoding {
        Some(text) => match encoding_named(lower(text), text) {
            Ok(encoding) => Ok(Some(encoding)),
            Err(error) => Err(error),
        },
        None => Ok(None),
    }
}

/// What the compression means, where one is set.
pub open spec fn compression_of(
    options: ParquetOptionsView,
    lower: spec_fn(Seq<char>) -> Seq<char>,
) -> Result<Option<Compression>, ErrorView> {
    match options.compression {
        Some(text) => match compression_named(lower(text), text) {
            Ok(compression) => Ok(Some(compression)),
            Err(error) => Err(error),
        },
        None => Ok(None),
    }
}

/// What the level of statistics means, where one is set.
pub open spec fn statistics_of(
    options: ParquetOptionsView,
    lower: spec_fn(Seq<char>) -> Seq<char>,
) -> Result<Option<EnabledStatistics>, ErrorView> {
    match options.statistics_enabled {
        Some(text) => match statistics_named(lower(text), text) {
            Ok(statistics) => Ok(Some(statistics)),
            Err(error) => Err(error),
        },
        None => Ok(None),
    }
}

/// The settings that options ask for, or the error of the first text that means
/// nothing: version, encoding, compression, and level of statistics, in this order.
pub open spec fn writer_settings(
    options: ParquetOptionsView,
    lower: spec_fn(Seq<char>) -> Seq<char>,
) -> Result<PropertiesView, ErrorView> {
    match version_of(options, lower) {
        Err(error) => Err(error),
        Ok(version) => match encoding_of(options, lower) {
            Err(error) => Err(error),
            Ok(encoding) => match compression_of(options, lower) {
                Err(error) => Err(error),
                Ok(compression) => match statistics_of(options, lower) {
                    Err(error) => Err(error),
                    Ok(statistics) => Ok(
                        settings_of(options, version, encoding, compression, statistics),
                    ),
                },
            },
        },
    }
}

/// Whether a builder can be made of options, or an error found in them. Up to the first
/// text that means nothing, sizes are valid, the encoding is not by dictionary, and the
/// compression can be split into codec and level.
pub open spec fn is_usable(
    options: ParquetOptionsView,
    lower: spec_fn(Seq<char>) -> Seq<char>,
) -> bool {
    version_of(options, lower) is Ok ==> {
        &&& has_valid_sizes(options)
        &&& encoding_of(options, lower) matches Ok(encoding) ==> {
            &&& encoding matches Some(encoding) ==> !is_dictionary(encoding)
            &&& options.compression matches Some(text) ==> is_splittable(lower(text))
        }
    }
}

/// Whether all texts that are read are ASCII.
pub open spec fn has_ascii_texts(options: ParquetOptionsView) -> bool {
    &&& all_ascii(options.writer_version)
    &&& options.encoding matches Some(text) ==> all_ascii(text)
    &&& options.compression matches Some(text) ==> all_ascii(text)
    &&& options.statistics_enabled matches Some(text) ==> all_ascii(text)
}

/// Tests whether a builder can be made of options, or an error found in them.
pub fn can_use(options: &ParquetOptions) -> (usable: bool)
    ensures
        usable == is_usable(options@, unicode_lowering()),
        has_ascii_texts(options@) ==> usable == is_usable(options@, ascii_lowering()),
{
    if parse_version_string(options.writer_version.as_str()).is_err() {
        return true;
    }
    if options.max_row_group_size == 0 {
        return false;
    }
    if let Some(length) = options.column_index_truncate_length {
        if length == 0 {
            return false;
        }
    }
    if let Some(text) = &options.encoding {
        match parse_encoding_string(text.as_str()) {
            Ok(Encoding::PLAIN_DICTIONARY) => return false,
            Ok(Encoding::RLE_DICTIONARY) => return false,
            Ok(_) => {},
            Err(_) => return true,
        }
    }
    match &options.compression {
        Some(text) => {
            let lower: String = to_lowercase(text.as_str());
            can_split(lower.as_str())
        },
        None => true,
    }
}

/// Makes a builder with the settings that options ask for. A false positive probability
/// of bloom filters can be set on it.
pub fn writer_props_builder(options: &ParquetOptions) -> (result: Result<
    WriterPropertiesBuilder,
    Error,
>)
    requires
        is_usable(options@, unicode_lowering()),
    ensures
        match result {
            Ok(builder) => writer_settings(options@, unicode_lowering()) == Ok::<_, ErrorView>(
                builder_settings(builder),
            ),
            Err(error) => writer_settings(options@, unicode_lowering()) == Err::<
                PropertiesView,
                _,
            >(error@),
        },
        has_ascii_texts(options@) ==> writer_settings(options@, ascii_lowering())
            == writer_settings(options@, unicode_lowering()),
{
    let version: WriterVersion = match parse_version_string(options.writer_version.as_str()) {
        Ok(version) => version,
        Err(error) => return Err(error),
    };
    let encoding: Option<Encoding> = match &options.encoding {
        Some(text) => match parse_encoding_string(text.as_str()) {
            Ok(encoding) => Some(encoding),
            Err(error) => return Err(error),
        },
        None => None,
    };
    let compression: Option<Compression> = match &options.compression {
        Some(text) => {
            proof {
                law_compression_is_valid(lowercase(text@), text@);
            }
            match parse_compression_string(text.as_str()) {
                Ok(compression) => Some(compression),
                Err(error) => return Err(error),
            }
        },
        None => None,
    };
    let statistics: Option<EnabledStatistics> = match &options.statistics_enabled {
        Some(text) => match parse_statistics_string(text.as_str()) {
            Ok(statistics) => Some(statistics),
            Err(error) => return Err(error),
        },
        None => None,
    };
    Ok(configure_builder(options, version, encoding, compression, statistics))
}

/// Options that spell valid settings, in whatever case, get them.
pub proof fn law_settings_are_those_asked_for(
    options: ParquetOptionsView,
    version: WriterVersion,
    encoding: Option<Encoding>,
    compression: Option<Compression>,
    statistics: Option<EnabledStatistics>,
)
    requires
        options.max_row_group_size > 0,
        options.column_index_truncate_length != Some(0usize),
        ascii_lower(options.writer_version) == version.name(),
        match encoding {
            Some(encoding) => {
                &&& options.encoding matches Some(text)
                &&& ascii_lower(text) == encoding.name()
                &&& !(encoding is PLAIN_DICTIONARY)
                &&& !(encoding is RLE_DICTIONARY)
            },
            None => options.encoding is None,
        },
        match compression {
            Some(compression) => {
                &&& options.compression matches Some(text)
                &&& ascii_lower(text) == compression_text(compression)
                &&& compression.is_valid()
            },
            None => options.compression is None,
        },
        match statistics {
            Some(statistics) => {
                &&& options.statistics_enabled matches Some(text)
                &&& ascii_lower(text) == statistics.name()
            },
            None => options.statistics_enabled is None,
        },
    ensures
        is_usable(options, ascii_lowering()),
        writer_settings(options, ascii_lowering()) == Ok::<_, ErrorView>(
            settings_of(options, version, encoding, compression, statistics),
        ),
        writer_settings(options, ascii_lowering()) matches Ok(settings) ==> {
            &&& settings.writer_version == version
            &&& settings.encoding == encoding
            &&& settings.compression == compression
            &&& settings.statistics_enabled == statistics
        },
{
    law_version_names(version, options.writer_version);
    if let Some(encoding) = encoding {
        law_encoding_names(encoding, options.encoding->0);
    }
    if let Some(compression) = compression {
        law_compression_is_read_back(compression, options.compression->0);
    }
    if let Some(statistics) = statistics {
        law_statistics_names(statistics, options.statistics_enabled->0);
    }
}

/// Each setting is the option of its name, whatever the other options say. Those given
/// as text are set where the text is there, and bloom filters are written where their
/// number of distinct values is given or where they are turned on, in which case the
/// number is 1,000,000 unless it is given.
pub proof fn law_each_setting_is_its_option(
    options: ParquetOptionsView,
    lower: spec_fn(Seq<char>) -> Seq<char>,
    settings: PropertiesView,
)
    requires
        writer_settings(options, lower) == Ok::<_, ErrorView>(settings),
    ensures
        settings.data_page_size_limit == options.data_pagesize_limit,
        settings.dictionary_page_size_limit == options.dictionary_page_size_limit,
        settings.data_page_row_count_limit == options.data_page_row_count_limit,
        settings.write_batch_size == options.write_batch_size,
        settings.max_row_group_size == options.max_row_group_size,
        settings.created_by == options.created_by,
        settings.column_index_truncate_length == options.column_index_truncate_length,
        settings.dictionary_enabled == options.dictionary_enabled,
        settings.max_statistics_size == options.max_statistics_size,
        options.bloom_filter_ndv is Some ==> settings.bloom_filter_ndv
            == options.bloom_filter_ndv,
        options.bloom_filter_ndv is None && options.bloom_filter_enabled
            ==> settings.bloom_filter_ndv == Some(1000000u64),
        options.bloom_filter_ndv is None && !options.bloom_filter_enabled
            ==> settings.bloom_filter_ndv is None,
        version_named(lower(options.writer_version), options.writer_version) == Ok::<_, ErrorView>(
            settings.writer_version,
        ),
        settings.encoding is Some <==> options.encoding is Some,
        options.encoding matches Some(text) ==> encoding_named(lower(text), text) == Ok::<
            _,
            ErrorView,
        >(settings.encoding->0),
        settings.compression is Some <==> options.compression is Some,
        options.compression matches Some(text) ==> compression_named(lower(text), text) == Ok::<
            _,
            ErrorView,
        >(settings.compression->0),
        settings.statistics_enabled is Some <==> options.statistics_enabled is Some,
        options.statistics_enabled matches Some(text) ==> statistics_named(lower(text), text)
            == Ok::<_, ErrorView>(settings.statistics_enabled->0),
{
}

/// The first text that means nothing is the error: the version, or else the encoding, or
/// else the compression, or else the level of statistics. Where all of them mean
/// something, there is none.
pub proof fn law_first_unknown_text_is_the_error(
    options: ParquetOptionsView,
    lower: spec_fn(Seq<char>) -> Seq<char>,
    encoding: Seq<char>,
    compression: Seq<char>,
    statistics: Seq<char>,
)
    requires
        options.encoding == Some(encoding),
        options.compression == Some(compression),
        options.statistics_enabled == Some(statistics),
    ensures
        match version_named(lower(options.writer_version), options.writer_version) {
            Err(error) => writer_settings(options, lower) == Err::<PropertiesView, _>(error),
            Ok(_) => match encoding_named(lower(encoding), encoding) {
                Err(error) => writer_settings(options, lower) == Err::<PropertiesView, _>(error),
                Ok(_) => match compression_named(lower(compression), compression) {
                    Err(error) => writer_settings(options, lower) == Err::<PropertiesView, _>(
                        error,
                    ),
                    Ok(_) => match statistics_named(lower(statistics), statistics) {
                        Err(error) => writer_settings(options, lower) == Err::<PropertiesView, _>(
                            error,
                        ),
                        Ok(_) => writer_settings(options, lower) is Ok,
                    },
                },
            },
        },
{
}

} // verus!
