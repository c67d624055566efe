//! The schema and the statistics of a file, from its metadata.

use vstd::prelude::*;
use arrow::datatypes::Schema;
use parquet::errors::ParquetError;
use parquet::file::metadata::ParquetMetaData;
use parquet::file::statistics::Statistics as ParquetStatistics;
use crate::accumulator::ScalarValue;
use crate::embedded::{can_convert, is_convertible};
use crate::error::Error;
use crate::schema::{
    column_names, field_names, law_columns_of_schema, schema_columns, schema_contents,
    table_columns, SchemaView, TypeClass,
};
use crate::statistics::{
    counts_fit, gather_statistics, gathered, groups_view, law_bounds_of_one_chunk, law_totals,
    table_statistics, total_bytes, total_rows, ChunkStatistics, ColumnBounds, RowGroup,
    RowGroupView, Statistics, StatisticsView, TableColumn,
};

verus! {

/// The statistics of a column chunk, as the `parquet` crate holds them.
#[verifier::external_type_specification]
#[verifier::external_body]
pub struct ExParquetStatistics(ParquetStatistics);

/// What the statistics of a column chunk hold.
pub uninterp spec fn chunk_contents(statistics: ParquetStatistics) -> ChunkStatistics;

/// The row groups that the metadata of a file lists.
pub uninterp spec fn metadata_row_groups(metadata: ParquetMetaData) -> Seq<RowGroupView>;

/// The schema that the `parquet` crate gives for the metadata of a file, where it gives one.
pub uninterp spec fn metadata_schema(metadata: ParquetMetaData) -> Option<SchemaView>;

/// `ParquetMetaData::num_row_groups` counts the row groups.
pub assume_specification[ ParquetMetaData::num_row_groups ](metadata: &ParquetMetaData) -> (n:
    usize)
    ensures
        n == metadata_row_groups(*metadata).len(),
;

/// `RowGroupMetaData::num_rows` counts the rows of a row group.
#[verifier::external_body]
fn num_rows(metadata: &ParquetMetaData, i: usize) -> (n: i64)
    requires
        i < metadata_row_groups(*metadata).len(),
    ensures
        n == metadata_row_groups(*metadata)[i as int].num_rows,
{
    metadata.row_group(i).num_rows()
}

/// `RowGroupMetaData::total_byte_size` gives the size of a row group.
#[verifier::external_body]
fn total_byte_size(metadata: &ParquetMetaData, i: usize) -> (n: i64)
    requires
        i < metadata_row_groups(*metadata).len(),
    ensures
        n == metadata_row_groups(*metadata)[i as int].total_byte_size,
{
    metadata.row_group(i).total_byte_size()
}

/// `RowGroupMetaData::num_columns` counts the column chunks of a row group.
#[verifier::external_body]
fn num_columns(metadata: &ParquetMetaData, i: usize) -> (n: usize)
    requires
        i < metadata_row_groups(*metadata).len(),
    ensures
        n == metadata_row_groups(*metadata)[i as int].columns.len(),
{
    metadata.row_group(i).num_columns()
}

/// `ColumnChunkMetaData::statistics` gives the statistics of a column chunk, where it
/// has any.
#[verifier::external_body]
fn statistics(metadata: &ParquetMetaData, i: usize, j: usize) -> (found: Option<&ParquetStatistics>)
    requires
        i < metadata_row_groups(*metadata).len(),
        j < metadata_row_groups(*metadata)[i as int].columns.len(),
    ensures
        match metadata_row_groups(*metadata)[i as int].columns[j as int] {
            Some(chunk) => found is Some && chunk_contents(*found->0) == chunk,
            None => found is None,
        },
{
    metadata.row_group(i).column(j).statistics()
}

/// `Statistics::null_count` gives the number of nulls.
pub assume_specification[ ParquetStatistics::null_count ](statistics: &ParquetStatistics) -> (n: u64)
    ensures
        n == chunk_contents(*statistics).null_count,
;

/// `Statistics::has_min_max_set` tells whether there are a smallest and a largest value.
/// Without them, and only then, the bounds are unknown.
pub assume_specification[ ParquetStatistics::has_min_max_set ](
    statistics: &ParquetStatistics,
) -> (set: bool)
    ensures
        set == !(chunk_contents(*statistics).bounds is Unknown),
;

/// The variants of `Statistics` tell the physical type, and `ValueStatistics::min` and
/// `ValueStatistics::max` give the values. They panic where there are none. Floats are
/// given by their bits.
#[verifier::external_body]
fn bounds(statistics: &ParquetStatistics) -> (bounds: ColumnBounds)
    requires
        !(chunk_contents(*statistics).bounds is Unknown),
    ensures
        bounds == chunk_contents(*statistics).bounds,
{
    match statistics {
        ParquetStatistics::Boolean(s) => ColumnBounds::Boolean(*s.min(), *s.max()),
        ParquetStatistics::Int32(s) => ColumnBounds::Int32(*s.min(), *s.max()),
        ParquetStatistics::Int64(s) => ColumnBounds::Int64(*s.min(), *s.max()),
        ParquetStatistics::Int96(_) => ColumnBounds::Int96,
        ParquetStatistics::Float(s) => ColumnBounds::Float(s.min().to_bits(), s.max().to_bits()),
        ParquetStatistics::Double(s) => ColumnBounds::Double(s.min().to_bits(), s.max().to_bits()),
        ParquetStatistics::ByteArray(_) => ColumnBounds::ByteArray,
        ParquetStatistics::FixedLenByteArray(_) => ColumnBounds::FixedLenByteArray,
    }
}

/// Takes the statistics of a column chunk.
fn read_chunk(statistics: &ParquetStatistics) -> (chunk: ChunkStatistics)
    ensures
        chunk == chunk_contents(*statistics),
{
    let bounds: ColumnBounds = if statistics.has_min_max_set() {
        bounds(statistics)
    } else {
        ColumnBounds::Unknown
    };
    ChunkStatistics { null_count: statistics.null_count(), bounds }
}

/// Takes a row group.
fn read_row_group(metadata: &ParquetMetaData, i: usize) -> (group: RowGroup)
    requires
        i < metadata_row_groups(*metadata).len(),
    ensures
        group@ == metadata_row_groups(*metadata)[i as int],
{
    let ghost expected = metadata_row_groups(*metadata)[i as int];
    let n: usize = num_columns(metadata, i);
    let mut columns: Vec<Option<ChunkStatistics>> = Vec::new();
    let mut j: usize = 0;
    while j < n
        invariant
            i < metadata_row_groups(*metadata).len(),
            expected == metadata_row_groups(*metadata)[i as int],
            j <= n,
            n == expected.columns.len(),
            columns@.len() == j,
            forall|k: int| 0 <= k < j ==> #[trigger] columns@[k] == expected.columns[k],
        decreases n - j,
    {
        columns.push(
            match statistics(metadata, i, j) {
                Some(found) => Some(read_chunk(found)),
                None => None,
            },
        );
        j += 1;
    }
    assert(columns@ =~= expected.columns);
    RowGroup {
        num_rows: num_rows(metadata, i),
        total_byte_size: total_byte_size(metadata, i),
        columns,
    }
}

/// Takes the row groups that the metadata of a file lists.
pub fn read_row_groups(metadata: &ParquetMetaData) -> (groups: Vec<RowGroup>)
    ensures
        groups_view(groups@) == metadata_row_groups(*metadata),
{
    let n: usize = metadata.num_row_groups();
    let mut groups: Vec<RowGroup> = Vec::new();
    let mut i: usize = 0;
    while i < n
        invariant
            i <= n,
            n == metadata_row_groups(*metadata).len(),
            groups@.len() == i,
            forall|k: int|
                0 <= k < i ==> (#[trigger] groups@[k])@ == metadata_row_groups(*metadata)[k],
        decreases n - i,
    {
        groups.push(read_row_group(metadata, i));
        i += 1;
    }
    assert(groups_view(groups@) =~= metadata_row_groups(*metadata));
    groups
}

/// `parquet::arrow::parquet_to_arrow_schema` makes a schema of the columns of a file and
/// the key value metadata, in which a writer may have put a schema of its own. Whether it
/// succeeds, and the schema then, is determined by the metadata. The text of an error is not:
/// it may list entries of a hash map. It panics on a type that it does not know in a schema
/// of the writer's, and on maps and lists at odd places of the tree of columns. It calls
/// itself for each level of nested columns, so that the stack limits their depth.
#[verifier::external_body]
fn parquet_to_arrow_schema(metadata: &ParquetMetaData) -> (result: Result<Schema, ParquetError>)
    requires
        is_convertible(*metadata),
    ensures
        match result {
            Ok(schema) => metadata_schema(*metadata) == Some(schema_contents(schema)),
            Err(_) => metadata_schema(*metadata) is None,
        },
{
    let file = metadata.file_metadata();
    parquet::arrow::parquet_to_arrow_schema(file.schema_descr(), file.key_value_metadata())
}

/// Whether this is the schema of a file, or an error for a file that has none.
pub open spec fn is_schema_of(result: Result<Schema, Error>, metadata: ParquetMetaData) -> bool {
    match metadata_schema(metadata) {
        Some(contents) => result matches Ok(schema) && schema_contents(schema) == contents,
        None => result matches Err(Error::ParquetError(_)),
    }
}

/// Gives the schema of a file, whose metadata must be convertible.
pub fn fetch_schema(metadata: &ParquetMetaData) -> (result: Result<Schema, Error>)
    requires
        is_convertible(*metadata),
    ensures
        is_schema_of(result, *metadata),
{
    match parquet_to_arrow_schema(metadata) {
        Ok(schema) => Ok(schema),
        Err(error) => Err(Error::ParquetError(error)),
    }
}

/// Gives the schema of a file, or `None` where its metadata is not convertible.
pub fn checked_fetch_schema(metadata: &ParquetMetaData) -> (result: Option<Result<Schema, Error>>)
    ensures
        result is Some <==> is_convertible(*metadata),
        result matches Some(found) ==> is_schema_of(found, *metadata),
{
    if can_convert(metadata) {
        Some(fetch_schema(metadata))
    } else {
        None
    }
}

/// The statistics of a table from the metadata of a file with this schema.
pub open spec fn statistics_of_file(
    metadata: ParquetMetaData,
    file: SchemaView,
    table: SchemaView,
) -> StatisticsView {
    table_statistics(
        gathered(schema_columns(table), field_names(file), metadata_row_groups(metadata)),
    )
}

/// Whether the counts of the statistics of a table fit the types that hold them, if the
/// file has a schema.
pub open spec fn statistics_fit(metadata: ParquetMetaData, table: SchemaView) -> bool {
    metadata_schema(metadata) matches Some(file) ==> counts_fit(
        schema_columns(table),
        field_names(file),
        metadata_row_groups(metadata),
    )
}

/// Whether these are the statistics of a table from the metadata of a file, or an error
/// for a file that has no schema.
pub open spec fn is_statistics_of(
    result: Result<Statistics, Error>,
    metadata: ParquetMetaData,
    table: SchemaView,
) -> bool {
    match metadata_schema(metadata) {
        Some(file) => result matches Ok(statistics) && statistics@ == statistics_of_file(
            metadata,
            file,
            table,
        ),
        None => result matches Err(Error::ParquetError(_)),
    }
}

/// Gathers the statistics of a table from the metadata of a file with this schema, or
/// gives `None` where a count does not fit the type that holds it.
fn gather_from_file(
    metadata: &ParquetMetaData,
    file_schema: &Schema,
    table_schema: &Schema,
) -> (statistics: Option<Statistics>)
    ensures
        statistics is Some <==> counts_fit(
            schema_columns(schema_contents(*table_schema)),
            field_names(schema_contents(*file_schema)),
            metadata_row_groups(*metadata),
        ),
        statistics is Some ==> statistics->0@ == statistics_of_file(
            *metadata,
            schema_contents(*file_schema),
            schema_contents(*table_schema),
        ),
{
    let table: Vec<TableColumn> = table_columns(table_schema);
    let file: Vec<String> = column_names(file_schema);
    let groups: Vec<RowGroup> = read_row_groups(metadata);
    gather_statistics(&table, &file, &groups)
}

/// Tests whether the counts of the statistics of a table fit the types that hold them, if
/// the file has a schema.
fn can_count(metadata: &ParquetMetaData, table_schema: &Schema) -> (fits: bool)
    requires
        is_convertible(*metadata),
    ensures
        fits == statistics_fit(*metadata, schema_contents(*table_schema)),
{
    match fetch_schema(metadata) {
        Ok(file_schema) => gather_from_file(metadata, &file_schema, table_schema).is_some(),
        Err(_) => true,
    }
}

/// Whether the statistics of a table can be computed from the metadata of a file: it is
/// convertible, and the counts fit the types that hold them.
pub open spec fn is_countable(metadata: ParquetMetaData, table: SchemaView) -> bool {
    is_convertible(metadata) && statistics_fit(metadata, table)
}

/// Tests whether the statistics of a table can be computed from the metadata of a file.
pub fn can_fetch_statistics(metadata: &ParquetMetaData, table_schema: &Schema) -> (possible: bool)
    ensures
        possible == is_countable(*metadata, schema_contents(*table_schema)),
{
    can_convert(metadata) && can_count(metadata, table_schema)
}

/// Computes the statistics of a table from the metadata of a file. The metadata must be
/// convertible, and the counts must fit the types that hold them.
pub fn fetch_statistics(metadata: &ParquetMetaData, table_schema: &Schema) -> (result: Result<
    Statistics,
    Error,
>)
    requires
        is_countable(*metadata, schema_contents(*table_schema)),
    ensures
        is_statistics_of(result, *metadata, schema_contents(*table_schema)),
{
    match fetch_schema(metadata) {
        Ok(file_schema) => Ok(
            gather_from_file(metadata, &file_schema, table_schema).unwrap(),
        ),
        Err(error) => Err(error),
    }
}

/// Computes the statistics of a table from the metadata of a file, or gives `None` where
/// that is not possible.
pub fn checked_fetch_statistics(metadata: &ParquetMetaData, table_schema: &Schema) -> (result:
    Option<Result<Statistics, Error>>)
    ensures
        result is Some <==> is_countable(*metadata, schema_contents(*table_schema)),
        result matches Some(found) ==> is_statistics_of(
            found,
            *metadata,
            schema_contents(*table_schema),
        ),
{
    if can_fetch_statistics(metadata, table_schema) {
        Some(fetch_statistics(metadata, table_schema))
    } else {
        None
    }
}

/// The statistics of a file with one row group, in a column of a table that the file has:
/// the number of rows and bytes is that of the row group, and the bounds and nulls of the
/// column are those that the file holds for the chunk of the first column of its name.
pub proof fn law_statistics_of_one_group(
    metadata: ParquetMetaData,
    file: SchemaView,
    table: SchemaView,
    i: int,
    j: int,
    group: RowGroupView,
    chunk: ChunkStatistics,
)
    requires
        metadata_row_groups(metadata) == seq![group],
        0 <= group.num_rows <= usize::MAX,
        0 <= group.total_byte_size <= usize::MAX,
        0 <= i < table.fields.len(),
        0 <= j < file.fields.len(),
        file.fields[j].name == table.fields[i].name,
        forall|k: int| 0 <= k < j ==> (#[trigger] file.fields[k]).name != table.fields[i].name,
        j < group.columns.len(),
        group.columns[j] == Some(chunk),
        chunk.null_count <= usize::MAX,
    ensures
        ({
            let statistics = statistics_of_file(metadata, file, table);
            let column = statistics.column_statistics->0[i];
            &&& statistics.num_rows == Some(group.num_rows as usize)
            &&& statistics.total_byte_size == Some(group.total_byte_size as usize)
            &&& statistics.is_exact
            &&& statistics.column_statistics is Some
            &&& statistics.column_statistics->0.len() == table.fields.len()
            &&& column.null_count == Some(chunk.null_count as usize)
            &&& match (table.fields[i].class, chunk.bounds) {
                (TypeClass::Boolean, ColumnBounds::Boolean(min, max)) => {
                    &&& column.min_value == Some(ScalarValue::Boolean(Some(min)))
                    &&& column.max_value == Some(ScalarValue::Boolean(Some(max)))
                },
                (TypeClass::Int32, ColumnBounds::Int32(min, max)) => {
                    &&& column.min_value == Some(ScalarValue::Int32(Some(min)))
                    &&& column.max_value == Some(ScalarValue::Int32(Some(max)))
                },
                (TypeClass::Int64, ColumnBounds::Int64(min, max)) => {
                    &&& column.min_value == Some(ScalarValue::Int64(Some(min)))
                    &&& column.max_value == Some(ScalarValue::Int64(Some(max)))
                },
                (TypeClass::Float32, ColumnBounds::Float(min, max)) => {
                    &&& column.min_value == Some(ScalarValue::Float32(Some(min)))
                    &&& column.max_value == Some(ScalarValue::Float32(Some(max)))
                },
                (TypeClass::Float64, ColumnBounds::Double(min, max)) => {
                    &&& column.min_value == Some(ScalarValue::Float64(Some(min)))
                    &&& column.max_value == Some(ScalarValue::Float64(Some(max)))
                },
                _ => column.min_value is None && column.max_value is None,
            }
        }),
{
    let columns = schema_columns(table);
    let names = field_names(file);
    law_columns_of_schema(table, i);
    assert forall|k: int| 0 <= k <= j implies #[trigger] names[k] == file.fields[k].name by {
        law_columns_of_schema(file, k);
    }
    law_bounds_of_one_chunk(columns, names, group, i, j, chunk);
    law_totals(columns, names, seq![group]);
    reveal_with_fuel(total_rows, 2);
    reveal_with_fuel(total_bytes, 2);
    assert(seq![group].drop_last() =~= Seq::<RowGroupView>::empty());
}

/// What is fetched from metadata: the schema that the file has, or an error of the `parquet`
/// crate where it has none, and so for the statistics of a table.
pub proof fn law_what_is_fetched(
    metadata: ParquetMetaData,
    table: SchemaView,
    found: Result<Schema, Error>,
    counted: Result<Statistics, Error>,
)
    requires
        is_schema_of(found, metadata),
        is_statistics_of(counted, metadata, table),
    ensures
        found is Ok <==> metadata_schema(metadata) is Some,
        counted is Ok <==> metadata_schema(metadata) is Some,
        found matches Ok(schema) ==> metadata_schema(metadata) == Some(schema_contents(schema)),
        found matches Err(error) ==> error is ParquetError,
        counted matches Err(error) ==> error is ParquetError,
        counted matches Ok(statistics) ==> {
            &&& statistics@.is_exact
            &&& statistics@.num_rows is Some
            &&& statistics@.total_byte_size is Some
            &&& statistics@.column_statistics matches Some(columns) ==> columns.len()
                == table.fields.len()
        },
{
    if let Some(file) = metadata_schema(metadata) {
        law_totals(schema_columns(table), field_names(file), metadata_row_groups(metadata));
    }
}

} // verus!
