//! Reading the settings of a writer, and the properties that options give.

use parquet::basic;
use parquet::file::properties;
use parquet::file::properties::WriterProperties;
use parquet::schema::types::ColumnPath;
use parquet_format::config::ParquetOptions;
use parquet_format::properties::{can_use, configure_builder, writer_props_builder};
use parquet_format::settings::{
    can_split, check_level_is_none, checked_parse_compression_string, parse_compression_string,
    parse_encoding_string, parse_lower_compression, parse_lower_encoding, parse_lower_statistics,
    parse_lower_version, parse_statistics_string, parse_version_string, require_level,
    split_compression_string, Compression, EnabledStatistics, Encoding, WriterVersion,
};
use parquet_format::text::{concat3, decimal_text, same_text, without_last};
use parquet_format::Error;

fn plan_message(error: Error) -> String {
    match error {
        Error::Plan(message) => message,
        error => panic!("{error:?}"),
    }
}

#[test]
fn encodings_are_read_by_name() {
    let names = [
        ("plain", Encoding::PLAIN),
        ("plain_dictionary", Encoding::PLAIN_DICTIONARY),
        ("rle", Encoding::RLE),
        ("bit_packed", Encoding::BIT_PACKED),
        ("delta_binary_packed", Encoding::DELTA_BINARY_PACKED),
        ("delta_length_byte_array", Encoding::DELTA_LENGTH_BYTE_ARRAY),
        ("delta_byte_array", Encoding::DELTA_BYTE_ARRAY),
        ("rle_dictionary", Encoding::RLE_DICTIONARY),
        ("byte_stream_split", Encoding::BYTE_STREAM_SPLIT),
    ];
    for (name, encoding) in names {
        assert_eq!(parse_encoding_string(name).unwrap(), encoding);
        assert_eq!(parse_encoding_string(&name.to_uppercase()).unwrap(), encoding);
        assert_eq!(parse_lower_encoding(name, "quoted").unwrap(), encoding);
    }
    assert_eq!(
        plan_message(parse_encoding_string("Plane").unwrap_err()),
        "Unknown or unsupported parquet encoding: Plane. Valid values are: plain, \
         plain_dictionary, rle, /// bit_packed, delta_binary_packed, \
         delta_length_byte_array, /// delta_byte_array, rle_dictionary, and byte_stream_split."
    );
    assert!(plan_message(parse_lower_encoding("x", "quoted").unwrap_err()).contains(": quoted."));
}

#[test]
fn lower_case_is_that_of_unicode() {
    // The Kelvin sign is a capital of `k`.
    assert_eq!(parse_statistics_string("chun\u{212a}").unwrap(), EnabledStatistics::Chunk);
}

#[test]
fn compressions_are_read_by_codec_and_level() {
    let texts = [
        ("uncompressed", Compression::UNCOMPRESSED),
        ("snappy", Compression::SNAPPY),
        ("gzip(0)", Compression::GZIP(0)),
        ("gzip(10)", Compression::GZIP(10)),
        ("lzo", Compression::LZO),
        ("brotli(0)", Compression::BROTLI(0)),
        ("brotli(11)", Compression::BROTLI(11)),
        ("lz4", Compression::LZ4),
        ("zstd(1)", Compression::ZSTD(1)),
        ("zstd(22)", Compression::ZSTD(22)),
        ("lz4_raw", Compression::LZ4_RAW),
        ("ZSTD(3)", Compression::ZSTD(3)),
        // The last character is dropped, whatever it is, and a plus sign is a sign.
        ("gzip(2]", Compression::GZIP(2)),
        ("gzip(+2)", Compression::GZIP(2)),
        ("gzip(002)", Compression::GZIP(2)),
    ];
    for (text, compression) in texts {
        assert_eq!(parse_compression_string(text).unwrap(), compression);
        assert_eq!(checked_parse_compression_string(text).unwrap().unwrap(), compression);
    }
    assert_eq!(parse_lower_compression("gzip(7)", "quoted").unwrap(), Compression::GZIP(7));
}

#[test]
fn compressions_with_a_wrong_level_are_refused() {
    for text in
        ["gzip(11)", "brotli(12)", "zstd(0)", "zstd(23)", "zstd(4294967295)", "zstd(2147483649)"]
    {
        assert!(matches!(parse_compression_string(text), Err(Error::ParquetError(_))));
    }
    for codec in ["uncompressed", "snappy", "lzo", "lz4", "lz4_raw"] {
        assert_eq!(
            plan_message(parse_compression_string(&format!("{codec}(2)")).unwrap_err()),
            format!("Compression {codec} does not support specifying a level")
        );
    }
    for codec in ["gzip", "brotli", "zstd"] {
        assert_eq!(
            plan_message(parse_compression_string(codec).unwrap_err()),
            format!("{codec} compression requires specifying a level such as {codec}(4)")
        );
    }
    for text in ["gzip()", "gzip(x)", "gzip(-1)", "gzip(4294967296)", "gzip(+)", "gzip( 2)"] {
        assert_eq!(
            plan_message(parse_compression_string(text).unwrap_err()),
            format!(
                "Could not parse compression string. Got codec: gzip and unknown level from {text}"
            )
        );
    }
    assert_eq!(
        plan_message(parse_compression_string("Gzip(A)").unwrap_err()),
        "Could not parse compression string. Got codec: gzip and unknown level from gzip(a)"
    );
}

#[test]
fn unknown_codecs_are_refused() {
    for text in ["Deflate", "Deflate(3)", ""] {
        assert_eq!(
            plan_message(parse_compression_string(text).unwrap_err()),
            format!(
                "Unknown or unsupported parquet compression: {text}. Valid values are: \
                 uncompressed, snappy, gzip(level), lzo, brotli(level), lz4, zstd(level), and \
                 lz4_raw."
            )
        );
    }
}

#[test]
fn settings_that_cannot_be_split_are_told_apart() {
    assert!(checked_parse_compression_string("gzip(").is_none());
    assert!(checked_parse_compression_string("gzip(2\u{e9}").is_none());
    assert!(!can_split("("));
    assert!(!can_split("gzip(\u{e9}"));
    assert!(can_split("gzip(\u{e9})"));
    assert!(can_split("\u{e9}"));
}

#[test]
fn settings_are_split_into_codec_and_level() {
    assert_eq!(split_compression_string("gzip(2)").unwrap(), ("gzip", Some(2)));
    assert_eq!(split_compression_string("gzip").unwrap(), ("gzip", None));
    assert_eq!(split_compression_string("(7)").unwrap(), ("", Some(7)));
    assert!(split_compression_string("a(1)(2)").is_err());
    assert_eq!(
        plan_message(split_compression_string("a(b(2)").unwrap_err()),
        "Could not parse compression string. Got codec: a and unknown level from a(b(2)"
    );
}

#[test]
fn levels_are_checked() {
    assert!(check_level_is_none("snappy", &None).is_ok());
    assert_eq!(
        plan_message(check_level_is_none("snappy", &Some(2)).unwrap_err()),
        "Compression snappy does not support specifying a level"
    );
    assert_eq!(require_level("zstd", Some(3)).unwrap(), 3);
    assert_eq!(
        plan_message(require_level("zstd", None).unwrap_err()),
        "zstd compression requires specifying a level such as zstd(4)"
    );
}

#[test]
fn versions_are_read_by_name() {
    assert_eq!(parse_version_string("1.0").unwrap(), WriterVersion::PARQUET_1_0);
    assert_eq!(parse_version_string("2.0").unwrap(), WriterVersion::PARQUET_2_0);
    assert_eq!(parse_lower_version("2.0", "quoted").unwrap(), WriterVersion::PARQUET_2_0);
    assert_eq!(
        plan_message(parse_version_string("V1").unwrap_err()),
        "Unknown or unsupported parquet writer version V1 valid options are '1.0' and '2.0'"
    );
}

#[test]
fn levels_of_statistics_are_read_by_name() {
    assert_eq!(parse_statistics_string("None").unwrap(), EnabledStatistics::Disabled);
    assert_eq!(parse_statistics_string("CHUNK").unwrap(), EnabledStatistics::Chunk);
    assert_eq!(parse_statistics_string("page").unwrap(), EnabledStatistics::Page);
    assert_eq!(parse_lower_statistics("page", "quoted").unwrap(), EnabledStatistics::Page);
    assert_eq!(
        plan_message(parse_statistics_string("Column").unwrap_err()),
        "Unknown or unsupported parquet statistics setting Column valid options are 'none', \
         'page', and 'chunk'"
    );
}

#[test]
fn numbers_are_written_in_decimal() {
    for n in [0, 7, 10, 1234567890, u64::MAX] {
        assert_eq!(decimal_text(n), n.to_string());
    }
    // And read back.
    for n in [0, 9, 10] {
        let text = concat3("gzip(", &decimal_text(n), ")");
        assert_eq!(parse_compression_string(&text).unwrap(), Compression::GZIP(n as u32));
    }
}

#[test]
fn texts_are_compared_and_cut() {
    assert!(same_text("\u{e9}a", "\u{e9}a"));
    assert!(!same_text("a", "A"));
    assert_eq!(without_last("ab\u{e9}"), "ab");
    assert_eq!(without_last("x"), "");
}

fn options() -> ParquetOptions {
    ParquetOptions {
        pruning: true,
        metadata_size_hint: None,
        skip_metadata: true,
        data_pagesize_limit: 11,
        write_batch_size: 12,
        writer_version: "2.0".to_string(),
        compression: None,
        dictionary_enabled: None,
        dictionary_page_size_limit: 13,
        statistics_enabled: None,
        max_statistics_size: None,
        max_row_group_size: 14,
        created_by: "me".to_string(),
        column_index_truncate_length: Some(15),
        data_page_row_count_limit: 16,
        encoding: None,
        bloom_filter_enabled: false,
        bloom_filter_ndv: None,
    }
}

fn properties(options: &ParquetOptions) -> WriterProperties {
    assert!(can_use(options));
    writer_props_builder(options).unwrap().build()
}

#[test]
fn options_of_files_reach_the_writer() {
    let properties = properties(&options());
    let column = ColumnPath::from("c");
    assert_eq!(properties.data_page_size_limit(), 11);
    assert_eq!(properties.write_batch_size(), 12);
    assert_eq!(properties.writer_version(), properties::WriterVersion::PARQUET_2_0);
    assert_eq!(properties.dictionary_page_size_limit(), 13);
    assert_eq!(properties.max_row_group_size(), 14);
    assert_eq!(properties.created_by(), "me");
    assert_eq!(properties.column_index_truncate_length(), Some(15));
    assert_eq!(properties.data_page_row_count_limit(), 16);
    // Nothing is set for columns.
    let plain = WriterProperties::builder().build();
    assert_eq!(properties.encoding(&column), None);
    assert_eq!(properties.compression(&column), plain.compression(&column));
    assert_eq!(properties.dictionary_enabled(&column), plain.dictionary_enabled(&column));
    assert_eq!(properties.statistics_enabled(&column), plain.statistics_enabled(&column));
    assert_eq!(properties.max_statistics_size(&column), plain.max_statistics_size(&column));
    assert!(properties.bloom_filter_properties(&column).is_none());
}

#[test]
fn options_of_columns_reach_the_writer() {
    let properties = properties(&ParquetOptions {
        writer_version: "1.0".to_string(),
        encoding: Some("Delta_Binary_Packed".to_string()),
        compression: Some("ZSTD(3)".to_string()),
        dictionary_enabled: Some(false),
        statistics_enabled: Some("none".to_string()),
        max_statistics_size: Some(17),
        bloom_filter_ndv: Some(18),
        column_index_truncate_length: None,
        ..options()
    });
    let column = ColumnPath::from("c");
    assert_eq!(properties.writer_version(), properties::WriterVersion::PARQUET_1_0);
    assert_eq!(properties.encoding(&column), Some(basic::Encoding::DELTA_BINARY_PACKED));
    assert_eq!(
        properties.compression(&column),
        basic::Compression::ZSTD(basic::ZstdLevel::try_new(3).unwrap())
    );
    assert!(!properties.dictionary_enabled(&column));
    assert_eq!(properties.statistics_enabled(&column), properties::EnabledStatistics::None);
    assert_eq!(properties.max_statistics_size(&column), 17);
    assert_eq!(properties.bloom_filter_properties(&column).unwrap().ndv, 18);
    assert_eq!(properties.column_index_truncate_length(), None);
}

#[test]
fn every_setting_has_its_counterpart() {
    let column = ColumnPath::from("c");
    let encodings = [
        (Encoding::PLAIN, basic::Encoding::PLAIN),
        (Encoding::RLE, basic::Encoding::RLE),
        (Encoding::DELTA_BINARY_PACKED, basic::Encoding::DELTA_BINARY_PACKED),
        (Encoding::DELTA_LENGTH_BYTE_ARRAY, basic::Encoding::DELTA_LENGTH_BYTE_ARRAY),
        (Encoding::DELTA_BYTE_ARRAY, basic::Encoding::DELTA_BYTE_ARRAY),
        (Encoding::BYTE_STREAM_SPLIT, basic::Encoding::BYTE_STREAM_SPLIT),
    ];
    for (encoding, counterpart) in encodings {
        let version = WriterVersion::PARQUET_1_0;
        let builder = configure_builder(&options(), version, Some(encoding), None, None);
        assert_eq!(builder.build().encoding(&column), Some(counterpart));
    }
    let compressions = [
        (Compression::UNCOMPRESSED, basic::Compression::UNCOMPRESSED),
        (Compression::SNAPPY, basic::Compression::SNAPPY),
        (
            Compression::GZIP(9),
            basic::Compression::GZIP(basic::GzipLevel::try_new(9).unwrap()),
        ),
        (Compression::LZO, basic::Compression::LZO),
        (
            Compression::BROTLI(8),
            basic::Compression::BROTLI(basic::BrotliLevel::try_new(8).unwrap()),
        ),
        (Compression::LZ4, basic::Compression::LZ4),
        (
            Compression::ZSTD(7),
            basic::Compression::ZSTD(basic::ZstdLevel::try_new(7).unwrap()),
        ),
        (Compression::LZ4_RAW, basic::Compression::LZ4_RAW),
    ];
    for (compression, counterpart) in compressions {
        let version = WriterVersion::PARQUET_2_0;
        let builder = configure_builder(&options(), version, None, Some(compression), None);
        assert_eq!(builder.build().compression(&column), counterpart);
    }
    let levels = [
        (EnabledStatistics::Disabled, properties::EnabledStatistics::None),
        (EnabledStatistics::Chunk, properties::EnabledStatistics::Chunk),
        (EnabledStatistics::Page, properties::EnabledStatistics::Page),
    ];
    for (level, counterpart) in levels {
        let version = WriterVersion::PARQUET_2_0;
        let builder = configure_builder(&options(), version, None, None, Some(level));
        assert_eq!(builder.build().statistics_enabled(&column), counterpart);
    }
}

#[test]
fn bloom_filters_are_on_by_either_option() {
    let column = ColumnPath::from("c");
    let ndv = |enabled, ndv| {
        let options =
            ParquetOptions { bloom_filter_enabled: enabled, bloom_filter_ndv: ndv, ..options() };
        properties(&options).bloom_filter_properties(&column).map(|filter| filter.ndv)
    };
    assert_eq!(ndv(false, None), None);
    assert_eq!(ndv(true, None), Some(1_000_000));
    assert_eq!(ndv(false, Some(5)), Some(5));
    assert_eq!(ndv(true, Some(6)), Some(6));
}

#[test]
fn the_first_wrong_option_is_reported() {
    let wrong = |text: &str| Some(text.to_string());
    let mut options = ParquetOptions {
        writer_version: "3.0".to_string(),
        encoding: wrong("e"),
        compression: wrong("c"),
        statistics_enabled: wrong("s"),
        ..options()
    };
    let message = |options: &ParquetOptions| {
        assert!(can_use(options));
        match writer_props_builder(options) {
            Ok(_) => panic!("no error"),
            Err(error) => plan_message(error),
        }
    };
    assert!(message(&options).contains("writer version 3.0"));
    options.writer_version = "1.0".to_string();
    assert!(message(&options).contains("encoding: e"));
    options.encoding = None;
    assert!(message(&options).contains("compression: c"));
    options.compression = None;
    assert!(message(&options).contains("statistics setting s"));
    options.statistics_enabled = None;
    assert!(can_use(&options));
    assert!(writer_props_builder(&options).is_ok());
}

#[test]
fn options_that_no_writer_takes_are_told_apart() {
    let text = |text: &str| Some(text.to_string());
    assert!(!can_use(&ParquetOptions { max_row_group_size: 0, ..options() }));
    assert!(!can_use(&ParquetOptions { column_index_truncate_length: Some(0), ..options() }));
    assert!(!can_use(&ParquetOptions { encoding: text("RLE_dictionary"), ..options() }));
    assert!(!can_use(&ParquetOptions { encoding: text("plain_dictionary"), ..options() }));
    assert!(!can_use(&ParquetOptions { compression: text("gzip("), ..options() }));
    // An error in an earlier option comes first.
    assert!(can_use(&ParquetOptions {
        writer_version: String::new(),
        max_row_group_size: 0,
        ..options()
    }));
    assert!(can_use(&ParquetOptions {
        encoding: text("e"),
        compression: text("gzip("),
        ..options()
    }));
}

#[test]
fn a_level_out_of_range_gets_the_error_of_its_codec() {
    let message = |text: &str| match parse_compression_string(text) {
        Err(Error::ParquetError(error)) => error.to_string(),
        other => panic!("{other:?}"),
    };
    let gzip = parquet::basic::GzipLevel::try_new(99).unwrap_err().to_string();
    let brotli = parquet::basic::BrotliLevel::try_new(99).unwrap_err().to_string();
    let zstd = parquet::basic::ZstdLevel::try_new(99).unwrap_err().to_string();
    assert_eq!(message("gzip(99)"), gzip);
    assert_eq!(message("brotli(99)"), brotli);
    assert_eq!(message("zstd(99)"), zstd);
    assert!(gzip != brotli && brotli != zstd);
}
