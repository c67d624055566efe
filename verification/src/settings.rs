//! The settings of a writer that are given as text: encoding, compression, version
//! of the format, and level of statistics.

use vstd::prelude::*;
use crate::error::{outcome, Error, ErrorView};
use crate::text::{
    all_ascii, ascii_lower, concat3, decimal, law_decimal_is_parsed, lowercase,
    parse_u32, parsed_u32, same_text, split_once, to_lowercase, without_last,
};
use vstd::string::{StrSliceExecFns, StringExecFns};

verus! {

/// How the values of a column are encoded.
#[allow(non_camel_case_types)]
#[derive(Clone, Copy, Debug, PartialEq, Eq, Structural)]
pub enum Encoding {
    PLAIN,
    PLAIN_DICTIONARY,
    RLE,
    BIT_PACKED,
    DELTA_BINARY_PACKED,
    DELTA_LENGTH_BYTE_ARRAY,
    DELTA_BYTE_ARRAY,
    RLE_DICTIONARY,
    BYTE_STREAM_SPLIT,
}

/// How the pages of a column are compressed.
#[allow(non_camel_case_types)]
#[derive(Clone, Copy, Debug, PartialEq, Eq, Structural)]
pub enum Compression {
    UNCOMPRESSED,
    SNAPPY,
    GZIP(u32),
    LZO,
    BROTLI(u32),
    LZ4,
    ZSTD(i32),
    LZ4_RAW,
}

/// The version of the format that is written.
#[allow(non_camel_case_types)]
#[derive(Clone, Copy, Debug, PartialEq, Eq, Structural)]
pub enum WriterVersion {
    PARQUET_1_0,
    PARQUET_2_0,
}

/// For what statistics are written.
#[derive(Clone, Copy, Debug, PartialEq, Eq, Structural)]
pub enum EnabledStatistics {
    Disabled,
    Chunk,
    Page,
}

impl Encoding {
    /// The name of an encoding.
    pub open spec fn name(self) -> Seq<char> {
        match self {
            Encoding::PLAIN => "plain"@,
            Encoding::PLAIN_DICTIONARY => "plain_dictionary"@,
            Encoding::RLE => "rle"@,
            Encoding::BIT_PACKED => "bit_packed"@,
            Encoding::DELTA_BINARY_PACKED => "delta_binary_packed"@,
            Encoding::DELTA_LENGTH_BYTE_ARRAY => "delta_length_byte_array"@,
            Encoding::DELTA_BYTE_ARRAY => "delta_byte_array"@,
            Encoding::RLE_DICTIONARY => "rle_dictionary"@,
            Encoding::BYTE_STREAM_SPLIT => "byte_stream_split"@,
        }
    }
}

/// What is said of a text that names no encoding.
pub open spec fn unknown_encoding(setting: Seq<char>) -> Seq<char> {
    "Unknown or unsupported parquet encoding: "@ + setting
        + ". Valid values are: plain, plain_dictionary, rle, /// bit_packed, delta_binary_packed, delta_length_byte_array, /// delta_byte_array, rle_dictionary, and byte_stream_split."@
}

/// What a setting means, where `lower` is its text in lower case: the encoding of that
/// name, or an error that quotes the setting.
pub open spec fn encoding_named(lower: Seq<char>, setting: Seq<char>) -> Result<
    Encoding,
    ErrorView,
> {
    if lower == Encoding::PLAIN.name() {
        Ok(Encoding::PLAIN)
    } else if lower == Encoding::PLAIN_DICTIONARY.name() {
        Ok(Encoding::PLAIN_DICTIONARY)
    } else if lower == Encoding::RLE.name() {
        Ok(Encoding::RLE)
    } else if lower == Encoding::BIT_PACKED.name() {
        Ok(Encoding::BIT_PACKED)
    } else if lower == Encoding::DELTA_BINARY_PACKED.name() {
        Ok(Encoding::DELTA_BINARY_PACKED)
    } else if lower == Encoding::DELTA_LENGTH_BYTE_ARRAY.name() {
        Ok(Encoding::DELTA_LENGTH_BYTE_ARRAY)
    } else if lower == Encoding::DELTA_BYTE_ARRAY.name() {
        Ok(Encoding::DELTA_BYTE_ARRAY)
    } else if lower == Encoding::RLE_DICTIONARY.name() {
        Ok(Encoding::RLE_DICTIONARY)
    } else if lower == Encoding::BYTE_STREAM_SPLIT.name() {
        Ok(Encoding::BYTE_STREAM_SPLIT)
    } else {
        Err(ErrorView::Plan(unknown_encoding(setting)))
    }
}

/// Reads an encoding from a setting and its text in lower case.
pub fn parse_lower_encoding(lower: &str, setting: &str) -> (result: Result<Encoding, Error>)
    ensures
        outcome(result) == encoding_named(lower@, setting@),
{
    if same_text(lower, "plain") {
        Ok(Encoding::PLAIN)
    } else if same_text(lower, "plain_dictionary") {
        Ok(Encoding::PLAIN_DICTIONARY)
    } else if same_text(lower, "rle") {
        Ok(Encoding::RLE)
    } else if same_text(lower, "bit_packed") {
        Ok(Encoding::BIT_PACKED)
    } else if same_text(lower, "delta_binary_packed") {
        Ok(Encoding::DELTA_BINARY_PACKED)
    } else if same_text(lower, "delta_length_byte_array") {
        Ok(Encoding::DELTA_LENGTH_BYTE_ARRAY)
    } else if same_text(lower, "delta_byte_array") {
        Ok(Encoding::DELTA_BYTE_ARRAY)
    } else if same_text(lower, "rle_dictionary") {
        Ok(Encoding::RLE_DICTIONARY)
    } else if same_text(lower, "byte_stream_split") {
        Ok(Encoding::BYTE_STREAM_SPLIT)
    } else {
        Err(
            Error::Plan(
                concat3(
                    "Unknown or unsupported parquet encoding: ",
                    setting,
                    ". Valid values are: plain, plain_dictionary, rle, /// bit_packed, delta_binary_packed, delta_length_byte_array, /// delta_byte_array, rle_dictionary, and byte_stream_split.",
                ),
            ),
        )
    }
}

/// Reads an encoding from a setting, in which case does not matter.
pub fn parse_encoding_string(str_setting: &str) -> (result: Result<Encoding, Error>)
    ensures
        outcome(result) == encoding_named(lowercase(str_setting@), str_setting@),
        all_ascii(str_setting@) ==> outcome(result) == encoding_named(
            ascii_lower(str_setting@),
            str_setting@,
        ),
{
    let lower: String = to_lowercase(str_setting);
    parse_lower_encoding(lower.as_str(), str_setting)
}

impl Compression {
    /// The name of the codec.
    pub open spec fn codec(self) -> Seq<char> {
        match self {
            Compression::UNCOMPRESSED => "uncompressed"@,
            Compression::SNAPPY => "snappy"@,
            Compression::GZIP(_) => "gzip"@,
            Compression::LZO => "lzo"@,
            Compression::BROTLI(_) => "brotli"@,
            Compression::LZ4 => "lz4"@,
            Compression::ZSTD(_) => "zstd"@,
            Compression::LZ4_RAW => "lz4_raw"@,
        }
    }

    /// The level, for a codec that has levels.
    pub open spec fn level(self) -> Option<int> {
        match self {
            Compression::GZIP(level) => Some(level as int),
            Compression::BROTLI(level) => Some(level as int),
            Compression::ZSTD(level) => Some(level as int),
            _ => None,
        }
    }

    /// Whether the level is one that the codec has.
    pub open spec fn is_valid(self) -> bool {
        match self {
            Compression::GZIP(level) => level <= 10,
            Compression::BROTLI(level) => level <= 11,
            Compression::ZSTD(level) => 1 <= level <= 22,
            _ => true,
        }
    }
}

impl Compression {
    /// The error for a level that the codec does not have.
    pub open spec fn level_error(self) -> ErrorView {
        match self {
            Compression::GZIP(level) => ErrorView::ParquetError(gzip_level_error(level)),
            Compression::BROTLI(level) => ErrorView::ParquetError(brotli_level_error(level)),
            Compression::ZSTD(level) => ErrorView::ParquetError(zstd_level_error(level)),
            _ => ErrorView::Plan(unsupported_level(self.codec())),
        }
    }
}

/// What is said of a level that is no number.
pub open spec fn unknown_level(codec: Seq<char>, setting: Seq<char>) -> Seq<char> {
    "Could not parse compression string. Got codec: "@ + codec + " and unknown level from "@
        + setting
}

/// What is said of a level for a codec without levels.
pub open spec fn unsupported_level(codec: Seq<char>) -> Seq<char> {
    "Compression "@ + codec + " does not support specifying a level"@
}

/// What is said where a codec with levels is given none.
pub open spec fn missing_level(codec: Seq<char>) -> Seq<char> {
    codec + " compression requires specifying a level such as "@ + codec + "(4)"@
}

/// What is said of a text that names no codec.
pub open spec fn unknown_compression(setting: Seq<char>) -> Seq<char> {
    "Unknown or unsupported parquet compression: "@ + setting
        + ". Valid values are: uncompressed, snappy, gzip(level), lzo, brotli(level), lz4, zstd(level), and lz4_raw."@
}

/// Whether a setting can be split into codec and level: an opening bracket is not its
/// last character, and then its last character is ASCII.
pub open spec fn is_splittable(setting: Seq<char>) -> bool {
    match setting.index_of_first('(') {
        Some(i) => i + 1 < setting.len() && (setting.last() as int) < 128,
        None => true,
    }
}

/// The codec and the level of a setting: the codec stands before the first opening
/// bracket, and the level behind it, up to the last character.
pub open spec fn split_setting(setting: Seq<char>) -> Result<
    (Seq<char>, Option<u32>),
    ErrorView,
> {
    match setting.index_of_first('(') {
        Some(i) => {
            let codec = setting.subrange(0, i);
            match parsed_u32(setting.subrange(i + 1, setting.len() - 1)) {
                Some(level) => Ok((codec, Some(level))),
                None => Err(ErrorView::Plan(unknown_level(codec, setting))),
            }
        },
        None => Ok((setting, None)),
    }
}

/// A compression without levels, which refuses one.
pub open spec fn if_level_is_none(compression: Compression, level: Option<u32>) -> Result<
    Compression,
    ErrorView,
> {
    match level {
        Some(_) => Err(ErrorView::Plan(unsupported_level(compression.codec()))),
        None => Ok(compression),
    }
}

/// A compression with levels, which needs a valid one.
pub open spec fn if_level_is_valid(
    codec: Seq<char>,
    level: Option<u32>,
    with_level: spec_fn(u32) -> Compression,
) -> Result<Compression, ErrorView> {
    match level {
        Some(level) => if with_level(level).is_valid() {
            Ok(with_level(level))
        } else {
            Err(with_level(level).level_error())
        },
        None => Err(ErrorView::Plan(missing_level(codec))),
    }
}

/// What a setting means, where `lower` is its text in lower case.
pub open spec fn compression_named(lower: Seq<char>, setting: Seq<char>) -> Result<
    Compression,
    ErrorView,
> {
    match split_setting(lower) {
        Err(error) => Err(error),
        Ok((codec, level)) => {
            if codec == "uncompressed"@ {
                if_level_is_none(Compression::UNCOMPRESSED, level)
            } else if codec == "snappy"@ {
                if_level_is_none(Compression::SNAPPY, level)
            } else if codec == "gzip"@ {
                if_level_is_valid(codec, level, |n: u32| Compression::GZIP(n))
            } else if codec == "lzo"@ {
                if_level_is_none(Compression::LZO, level)
            } else if codec == "brotli"@ {
                if_level_is_valid(codec, level, |n: u32| Compression::BROTLI(n))
            } else if codec == "lz4"@ {
                if_level_is_none(Compression::LZ4, level)
            } else if codec == "zstd"@ {
                if_level_is_valid(codec, level, |n: u32| Compression::ZSTD(n as i32))
            } else if codec == "lz4_raw"@ {
                if_level_is_none(Compression::LZ4_RAW, level)
            } else {
                Err(ErrorView::Plan(unknown_compression(setting)))
            }
        },
    }
}

/// Tests whether a setting can be split into codec and level.
pub fn can_split(setting: &str) -> (splittable: bool)
    ensures
        splittable == is_splittable(setting@),
{
    proof {
        setting@.index_of_first_ensures('(');
    }
    match split_once(setting, '(') {
        Some((_, rest)) => {
            let n: usize = rest.unicode_len();
            n > 0 && (rest.get_char(n - 1) as u32) < 128
        },
        None => true,
    }
}

/// Splits a setting into codec and level, if it has a level: `gzip(2)` into `gzip` and
/// 2.
pub fn split_compression_string(str_setting: &str) -> (result: Result<
    (&str, Option<u32>),
    Error,
>)
    requires
        is_splittable(str_setting@),
    ensures
        match result {
            Ok((codec, level)) => split_setting(str_setting@) == Ok::<_, ErrorView>((codec@, level)),
            Err(error) => split_setting(str_setting@) == Err::<(Seq<char>, Option<u32>), _>(error@),
        },
{
    proof {
        str_setting@.index_of_first_ensures('(');
    }
    match split_once(str_setting, '(') {
        Some((codec, rest)) => {
            let level_text: &str = without_last(rest);
            proof {
                let i = str_setting@.index_of_first('(')->0;
                assert(level_text@ =~= str_setting@.subrange(i + 1, str_setting@.len() - 1));
            }
            match parse_u32(level_text) {
                Some(level) => Ok((codec, Some(level))),
                None => {
                    let mut message: String = concat3(
                        "Could not parse compression string. Got codec: ",
                        codec,
                        " and unknown level from ",
                    );
                    message.append(str_setting);
                    Err(Error::Plan(message))
                },
            }
        },
        None => Ok((str_setting, None)),
    }
}

/// Refuses a level for a codec that has none: `snappy(2)` is not valid.
pub fn check_level_is_none(codec: &str, level: &Option<u32>) -> (result: Result<(), Error>)
    ensures
        outcome(result) == (match level {
            Some(_) => Err(ErrorView::Plan(unsupported_level(codec@))),
            None => Ok(()),
        }),
{
    if level.is_some() {
        return Err(
            Error::Plan(concat3("Compression ", codec, " does not support specifying a level")),
        );
    }
    Ok(())
}

/// Demands a level for a codec that has them: `zstd` is not valid, `zstd(3)` is.
pub fn require_level(codec: &str, level: Option<u32>) -> (result: Result<u32, Error>)
    ensures
        outcome(result) == (match level {
            Some(level) => Ok(level),
            None => Err(ErrorView::Plan(missing_level(codec@))),
        }),
{
    match level {
        Some(level) => Ok(level),
        None => {
            let mut message: String = concat3(
                codec,
                " compression requires specifying a level such as ",
                codec,
            );
            message.append("(4)");
            Err(Error::Plan(message))
        },
    }
}

/// The error of the `parquet` crate for a level that gzip does not have.
pub uninterp spec fn gzip_level_error(level: u32) -> parquet::errors::ParquetError;

/// `parquet::basic::GzipLevel::try_new` accepts the levels 0 to 10, and
/// `compression_level` gives the level back.
#[verifier::external_body]
fn gzip_level(level: u32) -> (checked: Result<u32, parquet::errors::ParquetError>)
    ensures
        checked is Ok <==> level <= 10,
        checked is Ok ==> checked->Ok_0 == level,
        checked is Err ==> checked->Err_0 == gzip_level_error(level),
{
    parquet::basic::GzipLevel::try_new(level).map(|valid| valid.compression_level())
}

/// The error of the `parquet` crate for a level that brotli does not have.
pub uninterp spec fn brotli_level_error(level: u32) -> parquet::errors::ParquetError;

/// `parquet::basic::BrotliLevel::try_new` accepts the levels 0 to 11, and
/// `compression_level` gives the level back.
#[verifier::external_body]
fn brotli_level(level: u32) -> (checked: Result<u32, parquet::errors::ParquetError>)
    ensures
        checked is Ok <==> level <= 11,
        checked is Ok ==> checked->Ok_0 == level,
        checked is Err ==> checked->Err_0 == brotli_level_error(level),
{
    parquet::basic::BrotliLevel::try_new(level).map(|valid| valid.compression_level())
}

/// The error of the `parquet` crate for a level that zstd does not have.
pub uninterp spec fn zstd_level_error(level: i32) -> parquet::errors::ParquetError;

/// `parquet::basic::ZstdLevel::try_new` accepts the levels 1 to 22, and
/// `compression_level` gives the level back.
#[verifier::external_body]
fn zstd_level(level: i32) -> (checked: Result<i32, parquet::errors::ParquetError>)
    ensures
        checked is Ok <==> 1 <= level <= 22,
        checked is Ok ==> checked->Ok_0 == level,
        checked is Err ==> checked->Err_0 == zstd_level_error(level),
{
    parquet::basic::ZstdLevel::try_new(level).map(|valid| valid.compression_level())
}

/// A compression without levels, for a codec and the level that was given.
fn without_levels(compression: Compression, codec: &str, level: Option<u32>) -> (result: Result<
    Compression,
    Error,
>)
    requires
        codec@ == compression.codec(),
    ensures
        outcome(result) == if_level_is_none(compression, level),
{
    match check_level_is_none(codec, &level) {
        Ok(_) => Ok(compression),
        Err(error) => Err(error),
    }
}

/// Reads a compression from a setting and its text in lower case.
pub fn parse_lower_compression(lower: &str, setting: &str) -> (result: Result<Compression, Error>)
    requires
        is_splittable(lower@),
    ensures
        outcome(result) == compression_named(lower@, setting@),
{
    let (codec, level): (&str, Option<u32>) = match split_compression_string(lower) {
        Ok(parts) => parts,
        Err(error) => return Err(error),
    };
    if same_text(codec, "uncompressed") {
        without_levels(Compression::UNCOMPRESSED, codec, level)
    } else if same_text(codec, "snappy") {
        without_levels(Compression::SNAPPY, codec, level)
    } else if same_text(codec, "gzip") {
        match require_level(codec, level) {
            Ok(level) => match gzip_level(level) {
                Ok(level) => Ok(Compression::GZIP(level)),
                Err(error) => Err(Error::ParquetError(error)),
            },
            Err(error) => Err(error),
        }
    } else if same_text(codec, "lzo") {
        without_levels(Compression::LZO, codec, level)
    } else if same_text(codec, "brotli") {
        match require_level(codec, level) {
            Ok(level) => match brotli_level(level) {
                Ok(level) => Ok(Compression::BROTLI(level)),
                Err(error) => Err(Error::ParquetError(error)),
            },
            Err(error) => Err(error),
        }
    } else if same_text(codec, "lz4") {
        without_levels(Compression::LZ4, codec, level)
    } else if same_text(codec, "zstd") {
        match require_level(codec, level) {
            Ok(level) => match zstd_level(level as i32) {
                Ok(level) => Ok(Compression::ZSTD(level)),
                Err(error) => Err(Error::ParquetError(error)),
            },
            Err(error) => Err(error),
        }
    } else if same_text(codec, "lz4_raw") {
        without_levels(Compression::LZ4_RAW, codec, level)
    } else {
        Err(
            Error::Plan(
                concat3(
                    "Unknown or unsupported parquet compression: ",
                    setting,
                    ". Valid values are: uncompressed, snappy, gzip(level), lzo, brotli(level), lz4, zstd(level), and lz4_raw.",
                ),
            ),
        )
    }
}

/// Reads a compression from a setting, in which case does not matter.
pub fn parse_compression_string(str_setting: &str) -> (result: Result<Compression, Error>)
    requires
        is_splittable(lowercase(str_setting@)),
    ensures
        outcome(result) == compression_named(lowercase(str_setting@), str_setting@),
        all_ascii(str_setting@) ==> outcome(result) == compression_named(
            ascii_lower(str_setting@),
            str_setting@,
        ),
{
    let lower: String = to_lowercase(str_setting);
    parse_lower_compression(lower.as_str(), str_setting)
}

/// Reads a compression from a setting, or returns `None` for one that cannot be split
/// into codec and level, such as `gzip(`.
pub fn checked_parse_compression_string(str_setting: &str) -> (result: Option<
    Result<Compression, Error>,
>)
    ensures
        result is Some <==> is_splittable(lowercase(str_setting@)),
        result is Some ==> outcome(result->0) == compression_named(
            lowercase(str_setting@),
            str_setting@,
        ),
        all_ascii(str_setting@) ==> {
            &&& result is Some <==> is_splittable(ascii_lower(str_setting@))
            &&& result is Some ==> outcome(result->0) == compression_named(
                ascii_lower(str_setting@),
                str_setting@,
            )
        },
{
    let lower: String = to_lowercase(str_setting);
    if can_split(lower.as_str()) {
        Some(parse_compression_string(str_setting))
    } else {
        None
    }
}

impl WriterVersion {
    /// The name of a version.
    pub open spec fn name(self) -> Seq<char> {
        match self {
            WriterVersion::PARQUET_1_0 => "1.0"@,
            WriterVersion::PARQUET_2_0 => "2.0"@,
        }
    }
}

/// What is said of a text that names no version.
pub open spec fn unknown_version(setting: Seq<char>) -> Seq<char> {
    "Unknown or unsupported parquet writer version "@ + setting
        + " valid options are '1.0' and '2.0'"@
}

/// What a setting means, where `lower` is its text in lower case: the version of that
/// name, or an error that quotes the setting.
pub open spec fn version_named(lower: Seq<char>, setting: Seq<char>) -> Result<
    WriterVersion,
    ErrorView,
> {
    if lower == WriterVersion::PARQUET_1_0.name() {
        Ok(WriterVersion::PARQUET_1_0)
    } else if lower == WriterVersion::PARQUET_2_0.name() {
        Ok(WriterVersion::PARQUET_2_0)
    } else {
        Err(ErrorView::Plan(unknown_version(setting)))
    }
}

/// Reads a version of the format from a setting and its text in lower case.
pub fn parse_lower_version(lower: &str, setting: &str) -> (result: Result<WriterVersion, Error>)
    ensures
        outcome(result) == version_named(lower@, setting@),
{
    if same_text(lower, "1.0") {
        Ok(WriterVersion::PARQUET_1_0)
    } else if same_text(lower, "2.0") {
        Ok(WriterVersion::PARQUET_2_0)
    } else {
        Err(
            Error::Plan(
                concat3(
                    "Unknown or unsupported parquet writer version ",
                    setting,
                    " valid options are '1.0' and '2.0'",
                ),
            ),
        )
    }
}

/// Reads a version of the format from a setting.
pub fn parse_version_string(str_setting: &str) -> (result: Result<WriterVersion, Error>)
    ensures
        outcome(result) == version_named(lowercase(str_setting@), str_setting@),
        all_ascii(str_setting@) ==> outcome(result) == version_named(
            ascii_lower(str_setting@),
            str_setting@,
        ),
{
    let lower: String = to_lowercase(str_setting);
    parse_lower_version(lower.as_str(), str_setting)
}

impl EnabledStatistics {
    /// The name of a level of statistics.
    pub open spec fn name(self) -> Seq<char> {
        match self {
            EnabledStatistics::Disabled => "none"@,
            EnabledStatistics::Chunk => "chunk"@,
            EnabledStatistics::Page => "page"@,
        }
    }
}

/// What is said of a text that names no level of statistics.
pub open spec fn unknown_statistics(setting: Seq<char>) -> Seq<char> {
    "Unknown or unsupported parquet statistics setting "@ + setting
        + " valid options are 'none', 'page', and 'chunk'"@
}

/// What a setting means, where `lower` is its text in lower case: the level of
/// statistics of that name, or an error that quotes the setting.
pub open spec fn statistics_named(lower: Seq<char>, setting: Seq<char>) -> Result<
    EnabledStatistics,
    ErrorView,
> {
    if lower == EnabledStatistics::Disabled.name() {
        Ok(EnabledStatistics::Disabled)
    } else if lower == EnabledStatistics::Chunk.name() {
        Ok(EnabledStatistics::Chunk)
    } else if lower == EnabledStatistics::Page.name() {
        Ok(EnabledStatistics::Page)
    } else {
        Err(ErrorView::Plan(unknown_statistics(setting)))
    }
}

/// Reads a level of statistics from a setting and its text in lower case.
pub fn parse_lower_statistics(lower: &str, setting: &str) -> (result: Result<
    EnabledStatistics,
    Error,
>)
    ensures
        outcome(result) == statistics_named(lower@, setting@),
{
    if same_text(lower, "none") {
        Ok(EnabledStatistics::Disabled)
    } else if same_text(lower, "chunk") {
        Ok(EnabledStatistics::Chunk)
    } else if same_text(lower, "page") {
        Ok(EnabledStatistics::Page)
    } else {
        Err(
            Error::Plan(
                concat3(
                    "Unknown or unsupported parquet statistics setting ",
                    setting,
                    " valid options are 'none', 'page', and 'chunk'",
                ),
            ),
        )
    }
}

/// Reads a level of statistics from a setting, in which case does not matter.
pub fn parse_statistics_string(str_setting: &str) -> (result: Result<EnabledStatistics, Error>)
    ensures
        outcome(result) == statistics_named(lowercase(str_setting@), str_setting@),
        all_ascii(str_setting@) ==> outcome(result) == statistics_named(
            ascii_lower(str_setting@),
            str_setting@,
        ),
{
    let lower: String = to_lowercase(str_setting);
    parse_lower_statistics(lower.as_str(), str_setting)
}

/// A setting that is the name of an encoding means that encoding.
pub proof fn law_encoding_names(encoding: Encoding, setting: Seq<char>)
    ensures
        encoding_named(encoding.name(), setting) == Ok::<_, ErrorView>(encoding),
{
    reveal_strlit("plain");
    reveal_strlit("plain_dictionary");
    reveal_strlit("rle");
    reveal_strlit("bit_packed");
    reveal_strlit("delta_binary_packed");
    reveal_strlit("delta_length_byte_array");
    reveal_strlit("delta_byte_array");
    reveal_strlit("rle_dictionary");
    reveal_strlit("byte_stream_split");
    assert("plain"@.len() == 5);
    assert("plain_dictionary"@.len() == 16);
    assert("rle"@.len() == 3);
    assert("bit_packed"@.len() == 10);
    assert("delta_binary_packed"@.len() == 19);
    assert("delta_length_byte_array"@.len() == 23);
    assert("delta_byte_array"@.len() == 16);
    assert("rle_dictionary"@.len() == 14);
    assert("byte_stream_split"@.len() == 17);
    assert("plain_dictionary"@[0] != "delta_byte_array"@[0]);
}

/// A setting that is the name of a version means that version.
pub proof fn law_version_names(version: WriterVersion, setting: Seq<char>)
    ensures
        version_named(version.name(), setting) == Ok::<_, ErrorView>(version),
{
    reveal_strlit("1.0");
    reveal_strlit("2.0");
    assert("1.0"@[0] != "2.0"@[0]);
}

/// A setting that is the name of a level of statistics means that level.
pub proof fn law_statistics_names(statistics: EnabledStatistics, setting: Seq<char>)
    ensures
        statistics_named(statistics.name(), setting) == Ok::<_, ErrorView>(statistics),
{
    reveal_strlit("none");
    reveal_strlit("chunk");
    reveal_strlit("page");
    assert("none"@[0] != "page"@[0]);
}

/// A codec with a level, as settings write them.
pub open spec fn with_level(codec: Seq<char>, level: nat) -> Seq<char> {
    codec + "("@ + decimal(level) + ")"@
}

/// Splitting a codec with a level gives the two back.
pub proof fn law_split_with_level(codec: Seq<char>, level: u32)
    requires
        !codec.contains('('),
    ensures
        is_splittable(with_level(codec, level as nat)),
        split_setting(with_level(codec, level as nat)) == Ok::<_, ErrorView>((codec, Some(level))),
{
    let text = with_level(codec, level as nat);
    reveal_strlit("(");
    reveal_strlit(")");
    text.index_of_first_ensures('(');
    assert(text[codec.len() as int] == '(');
    assert(text.contains('('));
    let i = text.index_of_first('(')->0;
    if i < codec.len() {
        assert(codec[i] == '(');
    }
    assert(i == codec.len());
    assert(text.subrange(0, i) =~= codec);
    assert(text.subrange(i + 1, text.len() - 1) =~= decimal(level as nat));
    law_decimal_is_parsed(level);
}

/// The names of codecs differ from each other.
proof fn lemma_codec_names()
    ensures
        "uncompressed"@.len() == 12,
        "snappy"@.len() == 6,
        "gzip"@.len() == 4,
        "lzo"@.len() == 3,
        "brotli"@.len() == 6,
        "lz4"@.len() == 3,
        "zstd"@.len() == 4,
        "lz4_raw"@.len() == 7,
        "snappy"@ != "brotli"@,
        "gzip"@ != "zstd"@,
        "lzo"@ != "lz4"@,
{
    reveal_strlit("uncompressed");
    reveal_strlit("snappy");
    reveal_strlit("gzip");
    reveal_strlit("lzo");
    reveal_strlit("brotli");
    reveal_strlit("lz4");
    reveal_strlit("zstd");
    reveal_strlit("lz4_raw");
    assert("snappy"@[0] != "brotli"@[0]);
    assert("gzip"@[0] != "zstd"@[0]);
    assert("lzo"@[2] != "lz4"@[2]);
}

/// The name of a codec holds no bracket.
proof fn lemma_codec_without_bracket(compression: Compression)
    ensures
        !compression.codec().contains('('),
{
    reveal_strlit("uncompressed");
    reveal_strlit("snappy");
    reveal_strlit("gzip");
    reveal_strlit("lzo");
    reveal_strlit("brotli");
    reveal_strlit("lz4");
    reveal_strlit("zstd");
    reveal_strlit("lz4_raw");
}

/// A codec without levels is a setting by itself, and refuses every level.
pub proof fn law_codecs_without_levels(compression: Compression, level: u32, setting: Seq<char>)
    requires
        compression.level() is None,
    ensures
        compression_named(compression.codec(), setting) == Ok::<_, ErrorView>(compression),
        compression_named(with_level(compression.codec(), level as nat), setting) == Err::<
            Compression,
            _,
        >(ErrorView::Plan(unsupported_level(compression.codec()))),
{
    lemma_codec_names();
    lemma_codec_without_bracket(compression);
    compression.codec().index_of_first_ensures('(');
    law_split_with_level(compression.codec(), level);
}

/// A codec with levels is no setting by itself, and takes exactly the levels that it
/// has.
pub proof fn law_codecs_with_levels(level: u32, setting: Seq<char>)
    ensures
        forall|compression: Compression|
            compression.level() is Some ==> compression_named(
                #[trigger] compression.codec(),
                setting,
            ) == Err::<Compression, _>(ErrorView::Plan(missing_level(compression.codec()))),
        compression_named(with_level("gzip"@, level as nat), setting) == (if level <= 10 {
            Ok(Compression::GZIP(level))
        } else {
            Err(ErrorView::ParquetError(gzip_level_error(level)))
        }),
        compression_named(with_level("brotli"@, level as nat), setting) == (if level <= 11 {
            Ok(Compression::BROTLI(level))
        } else {
            Err(ErrorView::ParquetError(brotli_level_error(level)))
        }),
        compression_named(with_level("zstd"@, level as nat), setting) == (if 1 <= level <= 22 {
            Ok(Compression::ZSTD(level as i32))
        } else {
            Err(ErrorView::ParquetError(zstd_level_error(level as i32)))
        }),
{
    lemma_codec_names();
    assert forall|compression: Compression| compression.level() is Some implies compression_named(
        #[trigger] compression.codec(),
        setting,
    ) == Err::<Compression, _>(ErrorView::Plan(missing_level(compression.codec()))) by {
        lemma_codec_without_bracket(compression);
        compression.codec().index_of_first_ensures('(');
    }
    lemma_codec_without_bracket(Compression::GZIP(level));
    lemma_codec_without_bracket(Compression::BROTLI(level));
    lemma_codec_without_bracket(Compression::ZSTD(1));
    law_split_with_level("gzip"@, level);
    law_split_with_level("brotli"@, level);
    law_split_with_level("zstd"@, level);
    assert((1 <= (level as i32) && (level as i32) <= 22) == (1 <= level && level <= 22))
        by (bit_vector);
}

/// A compression as settings write it: the codec, with the level where it has levels.
pub open spec fn compression_text(compression: Compression) -> Seq<char> {
    match compression.level() {
        Some(level) => with_level(compression.codec(), level as nat),
        None => compression.codec(),
    }
}

/// A compression with a valid level is read back from its text.
pub proof fn law_compression_is_read_back(compression: Compression, setting: Seq<char>)
    requires
        compression.is_valid(),
    ensures
        is_splittable(compression_text(compression)),
        compression_named(compression_text(compression), setting) == Ok::<_, ErrorView>(
            compression,
        ),
{
    lemma_codec_without_bracket(compression);
    match compression.level() {
        Some(level) => {
            law_split_with_level(compression.codec(), level as u32);
            law_codecs_with_levels(level as u32, setting);
        },
        None => {
            compression.codec().index_of_first_ensures('(');
            law_codecs_without_levels(compression, 0, setting);
        },
    }
}

/// A setting never means a level that the codec does not have.
pub proof fn law_compression_is_valid(lower: Seq<char>, setting: Seq<char>)
    ensures
        compression_named(lower, setting) matches Ok(compression) ==> compression.is_valid(),
{
}

/// Which texts name an encoding, and which encoding they name. Any other text is an error
/// that quotes the setting.
pub proof fn law_texts_of_encodings(lower: Seq<char>, setting: Seq<char>)
    ensures
        encoding_named("plain"@, setting) == Ok::<_, ErrorView>(Encoding::PLAIN),
        encoding_named("plain_dictionary"@, setting) == Ok::<_, ErrorView>(Encoding::PLAIN_DICTIONARY),
        encoding_named("rle"@, setting) == Ok::<_, ErrorView>(Encoding::RLE),
        encoding_named("bit_packed"@, setting) == Ok::<_, ErrorView>(Encoding::BIT_PACKED),
        encoding_named("delta_binary_packed"@, setting) == Ok::<_, ErrorView>(Encoding::DELTA_BINARY_PACKED),
        encoding_named("delta_length_byte_array"@, setting) == Ok::<_, ErrorView>(Encoding::DELTA_LENGTH_BYTE_ARRAY),
        encoding_named("delta_byte_array"@, setting) == Ok::<_, ErrorView>(Encoding::DELTA_BYTE_ARRAY),
        encoding_named("rle_dictionary"@, setting) == Ok::<_, ErrorView>(Encoding::RLE_DICTIONARY),
        encoding_named("byte_stream_split"@, setting) == Ok::<_, ErrorView>(Encoding::BYTE_STREAM_SPLIT),
        encoding_named(lower, setting) is Ok ==> {
            ||| lower == "plain"@
            ||| lower == "plain_dictionary"@
            ||| lower == "rle"@
            ||| lower == "bit_packed"@
            ||| lower == "delta_binary_packed"@
            ||| lower == "delta_length_byte_array"@
            ||| lower == "delta_byte_array"@
            ||| lower == "rle_dictionary"@
            ||| lower == "byte_stream_split"@
        },
        encoding_named(lower, setting) matches Err(error) ==> {
            &&& error matches ErrorView::Plan(message)
            &&& exists|a: Seq<char>, b: Seq<char>| message == #[trigger] (a + setting + b)
        },
{
    law_encoding_names(Encoding::PLAIN, setting);
    law_encoding_names(Encoding::PLAIN_DICTIONARY, setting);
    law_encoding_names(Encoding::RLE, setting);
    law_encoding_names(Encoding::BIT_PACKED, setting);
    law_encoding_names(Encoding::DELTA_BINARY_PACKED, setting);
    law_encoding_names(Encoding::DELTA_LENGTH_BYTE_ARRAY, setting);
    law_encoding_names(Encoding::DELTA_BYTE_ARRAY, setting);
    law_encoding_names(Encoding::RLE_DICTIONARY, setting);
    law_encoding_names(Encoding::BYTE_STREAM_SPLIT, setting);
}

/// Which texts name a version, and which version they name. Any other text is an error
/// that quotes the setting.
pub proof fn law_texts_of_versions(lower: Seq<char>, setting: Seq<char>)
    ensures
        version_named("1.0"@, setting) == Ok::<_, ErrorView>(WriterVersion::PARQUET_1_0),
        version_named("2.0"@, setting) == Ok::<_, ErrorView>(WriterVersion::PARQUET_2_0),
        version_named(lower, setting) is Ok ==> {
            ||| lower == "1.0"@
            ||| lower == "2.0"@
        },
        version_named(lower, setting) matches Err(error) ==> {
            &&& error matches ErrorView::Plan(message)
            &&& exists|a: Seq<char>, b: Seq<char>| message == #[trigger] (a + setting + b)
        },
{
    law_version_names(WriterVersion::PARQUET_1_0, setting);
    law_version_names(WriterVersion::PARQUET_2_0, setting);
}

/// Which texts name a level of statistics, and which level they name. Any other text is an
/// error that quotes the setting.
pub proof fn law_texts_of_statistics(lower: Seq<char>, setting: Seq<char>)
    ensures
        statistics_named("none"@, setting) == Ok::<_, ErrorView>(EnabledStatistics::Disabled),
        statistics_named("chunk"@, setting) == Ok::<_, ErrorView>(EnabledStatistics::Chunk),
        statistics_named("page"@, setting) == Ok::<_, ErrorView>(EnabledStatistics::Page),
        statistics_named(lower, setting) is Ok ==> {
            ||| lower == "none"@
            ||| lower == "chunk"@
            ||| lower == "page"@
        },
        statistics_named(lower, setting) matches Err(error) ==> {
            &&& error matches ErrorView::Plan(message)
            &&& exists|a: Seq<char>, b: Seq<char>| message == #[trigger] (a + setting + b)
        },
{
    law_statistics_names(EnabledStatistics::Disabled, setting);
    law_statistics_names(EnabledStatistics::Chunk, setting);
    law_statistics_names(EnabledStatistics::Page, setting);
}

/// Which texts name a codec without levels, and which codec they name. A text without a
/// level that names no codec at all is an error that quotes the setting.
pub proof fn law_texts_of_codecs(lower: Seq<char>, setting: Seq<char>)
    ensures
        compression_named("uncompressed"@, setting) == Ok::<_, ErrorView>(
            Compression::UNCOMPRESSED,
        ),
        compression_named("snappy"@, setting) == Ok::<_, ErrorView>(Compression::SNAPPY),
        compression_named("lzo"@, setting) == Ok::<_, ErrorView>(Compression::LZO),
        compression_named("lz4"@, setting) == Ok::<_, ErrorView>(Compression::LZ4),
        compression_named("lz4_raw"@, setting) == Ok::<_, ErrorView>(Compression::LZ4_RAW),
        !lower.contains('(') && compression_named(lower, setting) is Ok ==> {
            ||| lower == "uncompressed"@
            ||| lower == "snappy"@
            ||| lower == "lzo"@
            ||| lower == "lz4"@
            ||| lower == "lz4_raw"@
        },
        !lower.contains('(') && lower != "gzip"@ && lower != "brotli"@ && lower != "zstd"@ ==> (
        compression_named(lower, setting) matches Err(error) ==> {
            &&& error matches ErrorView::Plan(message)
            &&& exists|a: Seq<char>, b: Seq<char>| message == #[trigger] (a + setting + b)
        }),
{
    law_codecs_without_levels(Compression::UNCOMPRESSED, 0, setting);
    law_codecs_without_levels(Compression::SNAPPY, 0, setting);
    law_codecs_without_levels(Compression::LZO, 0, setting);
    law_codecs_without_levels(Compression::LZ4, 0, setting);
    law_codecs_without_levels(Compression::LZ4_RAW, 0, setting);
    lower.index_of_first_ensures('(');
}

/// A text without a level is a codec by itself.
pub proof fn law_split_without_level(text: Seq<char>)
    requires
        !text.contains('('),
    ensures
        is_splittable(text),
        split_setting(text) == Ok::<_, ErrorView>((text, None::<u32>)),
{
    text.index_of_first_ensures('(');
}

/// What is said of a codec and its level names the codec, and the setting where the level is
/// no number.
pub proof fn law_messages_name_codecs(codec: Seq<char>, setting: Seq<char>)
    ensures
        exists|a: Seq<char>, b: Seq<char>| unsupported_level(codec) == #[trigger] (a + codec + b),
        exists|a: Seq<char>, b: Seq<char>|
            missing_level(codec) == #[trigger] (codec + a + codec + b),
        exists|a: Seq<char>, b: Seq<char>|
            unknown_level(codec, setting) == #[trigger] (a + codec + b + setting),
{
    assert(unsupported_level(codec) == "Compression "@ + codec
        + " does not support specifying a level"@);
    assert(missing_level(codec) == codec + " compression requires specifying a level such as "@
        + codec + "(4)"@);
    assert(unknown_level(codec, setting) == "Could not parse compression string. Got codec: "@
        + codec + " and unknown level from "@ + setting);
}

} // verus!
