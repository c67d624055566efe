//! Statistics of a table from the metadata of a Parquet file.

use vstd::prelude::*;
use crate::accumulator::{
    is_below, larger, law_larger_smaller, smaller, DataKind, MaxAccumulator, MinAccumulator,
    ScalarValue,
};

verus! {

/// The smallest and the largest value of a column chunk, in this order, by the
/// physical type of the column. They are unknown where the file does not have them,
/// and are not held for the physical types whose values are not used.
#[derive(Clone, Copy, Debug, PartialEq, Eq)]
pub enum ColumnBounds {
    Boolean(bool, bool),
    Int32(i32, i32),
    Int64(i64, i64),
    /// By the bits of the floats.
    Float(u32, u32),
    /// By the bits of the doubles.
    Double(u64, u64),
    Int96,
    ByteArray,
    FixedLenByteArray,
    Unknown,
}

/// The statistics that a file holds for a column chunk.
#[derive(Clone, Copy, Debug, PartialEq, Eq)]
pub struct ChunkStatistics {
    pub null_count: u64,
    pub bounds: ColumnBounds,
}

impl ColumnBounds {
    /// Whether there are values.
    pub open spec fn has_values(self) -> bool {
        match self {
            ColumnBounds::Boolean(_, _) => true,
            ColumnBounds::Int32(_, _) => true,
            ColumnBounds::Int64(_, _) => true,
            ColumnBounds::Float(_, _) => true,
            ColumnBounds::Double(_, _) => true,
            ColumnBounds::Int96 => false,
            ColumnBounds::ByteArray => false,
            ColumnBounds::FixedLenByteArray => false,
            ColumnBounds::Unknown => false,
        }
    }

    /// The bounds that a column of type `kind` can take, the smallest first: none where
    /// the types differ.
    pub open spec fn values_for(self, kind: DataKind) -> Option<(ScalarValue, ScalarValue)> {
        match (self, kind) {
            (ColumnBounds::Boolean(min, max), DataKind::Boolean) => Some(
                (ScalarValue::Boolean(Some(min)), ScalarValue::Boolean(Some(max))),
            ),
            (ColumnBounds::Int32(min, max), DataKind::Int32) => Some(
                (ScalarValue::Int32(Some(min)), ScalarValue::Int32(Some(max))),
            ),
            (ColumnBounds::Int64(min, max), DataKind::Int64) => Some(
                (ScalarValue::Int64(Some(min)), ScalarValue::Int64(Some(max))),
            ),
            (ColumnBounds::Float(min, max), DataKind::Float32) => Some(
                (ScalarValue::Float32(Some(min)), ScalarValue::Float32(Some(max))),
            ),
            (ColumnBounds::Double(min, max), DataKind::Float64) => Some(
                (ScalarValue::Float64(Some(min)), ScalarValue::Float64(Some(max))),
            ),
            _ => None,
        }
    }

    /// Returns the bounds that a column of type `kind` can take.
    pub fn for_kind(&self, kind: DataKind) -> (values: Option<(ScalarValue, ScalarValue)>)
        ensures
            values == self.values_for(kind),
    {
        match (self, kind) {
            (ColumnBounds::Boolean(min, max), DataKind::Boolean) => Some(
                (ScalarValue::Boolean(Some(*min)), ScalarValue::Boolean(Some(*max))),
            ),
            (ColumnBounds::Int32(min, max), DataKind::Int32) => Some(
                (ScalarValue::Int32(Some(*min)), ScalarValue::Int32(Some(*max))),
            ),
            (ColumnBounds::Int64(min, max), DataKind::Int64) => Some(
                (ScalarValue::Int64(Some(*min)), ScalarValue::Int64(Some(*max))),
            ),
            (ColumnBounds::Float(min, max), DataKind::Float32) => Some(
                (ScalarValue::Float32(Some(*min)), ScalarValue::Float32(Some(*max))),
            ),
            (ColumnBounds::Double(min, max), DataKind::Float64) => Some(
                (ScalarValue::Float64(Some(*min)), ScalarValue::Float64(Some(*max))),
            ),
            _ => None,
        }
    }
}

/// A column of a table, as far as statistics depend on it.
#[derive(Debug)]
pub struct TableColumn {
    pub name: String,
    pub kind: DataKind,
}

/// The maximum of a column of type `kind` after a chunk with these bounds: it is
/// given up where the chunk has no bounds of that type, or the accumulator is of
/// another type, and stays given up.
pub open spec fn summarized_max(
    max: Option<MaxAccumulator>,
    kind: DataKind,
    bounds: ColumnBounds,
) -> Option<MaxAccumulator> {
    match (max, bounds.values_for(kind)) {
        (Some(accumulator), Some((_, value))) => if accumulator.max.spec_kind()
            == value.spec_kind() {
            Some(MaxAccumulator { max: larger(accumulator.max, value) })
        } else {
            None
        },
        _ => None,
    }
}

/// The minimum of a column of type `kind` after a chunk with these bounds.
pub open spec fn summarized_min(
    min: Option<MinAccumulator>,
    kind: DataKind,
    bounds: ColumnBounds,
) -> Option<MinAccumulator> {
    match (min, bounds.values_for(kind)) {
        (Some(accumulator), Some((value, _))) => if accumulator.min.spec_kind()
            == value.spec_kind() {
            Some(MinAccumulator { min: smaller(accumulator.min, value) })
        } else {
            None
        },
        _ => None,
    }
}

/// Takes the bounds of a column chunk into the maximum and the minimum of column
/// `i` of a table.
pub fn summarize_min_max(
    max_values: &mut Vec<Option<MaxAccumulator>>,
    min_values: &mut Vec<Option<MinAccumulator>>,
    columns: &Vec<TableColumn>,
    i: usize,
    bounds: &ColumnBounds,
)
    requires
        i < old(max_values)@.len(),
        i < old(min_values)@.len(),
        bounds.has_values() ==> i < columns@.len(),
    ensures
        final(max_values)@ == old(max_values)@.update(
            i as int,
            summarized_max(old(max_values)@[i as int], columns@[i as int].kind, *bounds),
        ),
        final(min_values)@ == old(min_values)@.update(
            i as int,
            summarized_min(old(min_values)@[i as int], columns@[i as int].kind, *bounds),
        ),
{
    let values: Option<(ScalarValue, ScalarValue)> = match bounds {
        ColumnBounds::Int96 => None,
        ColumnBounds::ByteArray => None,
        ColumnBounds::FixedLenByteArray => None,
        ColumnBounds::Unknown => None,
        _ => bounds.for_kind(columns[i].kind),
    };
    match values {
        Some((min, max)) => {
            let max_value: Option<MaxAccumulator> = match max_values[i] {
                Some(mut accumulator) => match accumulator.update(max) {
                    Ok(_) => Some(accumulator),
                    Err(_) => None,
                },
                None => None,
            };
            max_values.set(i, max_value);
            let min_value: Option<MinAccumulator> = match min_values[i] {
                Some(mut accumulator) => match accumulator.update(min) {
                    Ok(_) => Some(accumulator),
                    Err(_) => None,
                },
                None => None,
            };
            min_values.set(i, min_value);
        },
        None => {
            max_values.set(i, None);
            min_values.set(i, None);
        },
    }
}

/// A group of rows of a file: how many there are, their size in bytes, and the
/// statistics of each column chunk that has any.
#[derive(Debug)]
pub struct RowGroup {
    pub num_rows: i64,
    pub total_byte_size: i64,
    pub columns: Vec<Option<ChunkStatistics>>,
}

/// What contracts say of a [`RowGroup`].
pub struct RowGroupView {
    pub num_rows: i64,
    pub total_byte_size: i64,
    pub columns: Seq<Option<ChunkStatistics>>,
}

impl View for RowGroup {
    type V = RowGroupView;

    open spec fn view(&self) -> RowGroupView {
        RowGroupView {
            num_rows: self.num_rows,
            total_byte_size: self.total_byte_size,
            columns: self.columns@,
        }
    }
}

/// What contracts say of a [`TableColumn`].
pub struct TableColumnView {
    pub name: Seq<char>,
    pub kind: DataKind,
}

impl View for TableColumn {
    type V = TableColumnView;

    open spec fn view(&self) -> TableColumnView {
        TableColumnView { name: self.name@, kind: self.kind }
    }
}

/// Statistics of a column of a table.
#[derive(Clone, Copy, Debug, PartialEq, Eq)]
pub struct ColumnStatistics {
    pub null_count: Option<usize>,
    pub max_value: Option<ScalarValue>,
    pub min_value: Option<ScalarValue>,
    pub distinct_count: Option<usize>,
}

/// Statistics of a table.
#[derive(Debug, PartialEq, Eq)]
pub struct Statistics {
    pub num_rows: Option<usize>,
    pub total_byte_size: Option<usize>,
    pub column_statistics: Option<Vec<ColumnStatistics>>,
    pub is_exact: bool,
}

/// What contracts say of [`Statistics`].
pub struct StatisticsView {
    pub num_rows: Option<usize>,
    pub total_byte_size: Option<usize>,
    pub column_statistics: Option<Seq<ColumnStatistics>>,
    pub is_exact: bool,
}

impl View for Statistics {
    type V = StatisticsView;

    open spec fn view(&self) -> StatisticsView {
        StatisticsView {
            num_rows: self.num_rows,
            total_byte_size: self.total_byte_size,
            column_statistics: match self.column_statistics {
                Some(columns) => Some(columns@),
                None => None,
            },
            is_exact: self.is_exact,
        }
    }
}

/// What was gathered of a column of the table: its null count, and its maximum and
/// minimum as long as they are known.
pub struct ColumnTotals {
    pub nulls: int,
    pub max: Option<MaxAccumulator>,
    pub min: Option<MinAccumulator>,
}

/// What was gathered of a number of row groups.
pub struct Totals {
    pub num_rows: int,
    pub total_byte_size: int,
    pub has_statistics: bool,
    pub columns: Seq<ColumnTotals>,
}

/// The accumulators that a column of a type starts with.
pub open spec fn initial_column(kind: DataKind) -> ColumnTotals {
    ColumnTotals {
        nulls: 0,
        max: Some(MaxAccumulator { max: ScalarValue::spec_null(kind) }),
        min: Some(MinAccumulator { min: ScalarValue::spec_null(kind) }),
    }
}

/// What is gathered of no row group.
pub open spec fn initial_totals(table: Seq<TableColumnView>) -> Totals {
    Totals {
        num_rows: 0,
        total_byte_size: 0,
        has_statistics: false,
        columns: Seq::new(table.len(), |i: int| initial_column(table[i].kind)),
    }
}

/// Whether a row group has statistics for any of its columns.
pub open spec fn has_any_statistics(group: RowGroupView) -> bool {
    exists|j: int| 0 <= j < group.columns.len() && #[trigger] group.columns[j] is Some
}

/// The statistics of the chunk at a position, where there are any.
pub open spec fn chunk_at(group: RowGroupView, index: int) -> Option<ChunkStatistics> {
    if 0 <= index < group.columns.len() {
        group.columns[index]
    } else {
        None
    }
}

/// What a row group adds to a column of the table. A column that the file does not
/// have is null in every row read so far. A column without statistics has unknown
/// bounds.
pub open spec fn column_after(
    totals: ColumnTotals,
    column: TableColumnView,
    file: Seq<Seq<char>>,
    group: RowGroupView,
    num_rows: int,
) -> ColumnTotals {
    match file.index_of_first(column.name) {
        Some(index) => match chunk_at(group, index) {
            Some(chunk) => ColumnTotals {
                nulls: totals.nulls + (chunk.null_count as usize),
                max: summarized_max(totals.max, column.kind, chunk.bounds),
                min: summarized_min(totals.min, column.kind, chunk.bounds),
            },
            None => ColumnTotals { nulls: totals.nulls, max: None, min: None },
        },
        None => ColumnTotals { nulls: totals.nulls + (num_rows as i64 as usize), ..totals },
    }
}

/// What is gathered after one more row group. Columns are looked at as soon as a
/// row group has statistics for any of them.
pub open spec fn totals_after(
    totals: Totals,
    table: Seq<TableColumnView>,
    file: Seq<Seq<char>>,
    group: RowGroupView,
) -> Totals {
    let num_rows = totals.num_rows + group.num_rows;
    let has_statistics = totals.has_statistics || has_any_statistics(group);
    Totals {
        num_rows,
        total_byte_size: totals.total_byte_size + group.total_byte_size,
        has_statistics,
        columns: if has_statistics {
            Seq::new(
                totals.columns.len(),
                |i: int| column_after(totals.columns[i], table[i], file, group, num_rows),
            )
        } else {
            totals.columns
        },
    }
}

/// What is gathered of the row groups of a file, for the columns of a table.
pub open spec fn gathered(
    table: Seq<TableColumnView>,
    file: Seq<Seq<char>>,
    groups: Seq<RowGroupView>,
) -> Totals
    decreases groups.len(),
{
    if groups.len() == 0 {
        initial_totals(table)
    } else {
        totals_after(gathered(table, file, groups.drop_last()), table, file, groups.last())
    }
}

/// Whether the counts that were gathered fit the types that hold them.
pub open spec fn is_representable(totals: Totals) -> bool {
    &&& i64::MIN <= totals.num_rows <= i64::MAX
    &&& i64::MIN <= totals.total_byte_size <= i64::MAX
    &&& forall|i: int|
        0 <= i < totals.columns.len() ==> (#[trigger] totals.columns[i]).nulls <= usize::MAX
}

/// Whether the counts fit after each of the row groups.
pub open spec fn counts_fit(
    table: Seq<TableColumnView>,
    file: Seq<Seq<char>>,
    groups: Seq<RowGroupView>,
) -> bool
    decreases groups.len(),
{
    groups.len() == 0 || {
        &&& counts_fit(table, file, groups.drop_last())
        &&& is_representable(gathered(table, file, groups))
    }
}

/// The statistics of a column from what was gathered of it.
pub open spec fn column_statistics(totals: ColumnTotals) -> ColumnStatistics {
    ColumnStatistics {
        null_count: Some(totals.nulls as usize),
        max_value: match totals.max {
            Some(accumulator) => Some(accumulator.max),
            None => None,
        },
        min_value: match totals.min {
            Some(accumulator) => Some(accumulator.min),
            None => None,
        },
        distinct_count: None,
    }
}

/// The statistics of a table from what was gathered of the file. There are none of
/// the columns where the file has none.
pub open spec fn table_statistics(totals: Totals) -> StatisticsView {
    StatisticsView {
        num_rows: Some(totals.num_rows as i64 as usize),
        total_byte_size: Some(totals.total_byte_size as i64 as usize),
        column_statistics: if totals.has_statistics {
            Some(Seq::new(totals.columns.len(), |i: int| column_statistics(totals.columns[i])))
        } else {
            None
        },
        is_exact: true,
    }
}

/// The views of a list of texts.
pub open spec fn texts(list: Seq<String>) -> Seq<Seq<char>> {
    list.map_values(|text: String| text@)
}

/// The views of the columns of a table.
pub open spec fn columns_view(list: Seq<TableColumn>) -> Seq<TableColumnView> {
    list.map_values(|column: TableColumn| column@)
}

/// The views of row groups.
pub open spec fn groups_view(list: Seq<RowGroup>) -> Seq<RowGroupView> {
    list.map_values(|group: RowGroup| group@)
}

/// The statistics of the columns of a row group, by the position of the column, in
/// a map of the `hashbrown` crate.
#[verifier::external_body]
pub struct ColumnStatsMap {
    inner: hashbrown::HashMap<usize, (u64, ColumnBounds)>,
}

/// The entries of a [`ColumnStatsMap`].
pub uninterp spec fn column_stats(map: ColumnStatsMap) -> Map<usize, (u64, ColumnBounds)>;

impl ColumnStatsMap {
    /// `hashbrown::HashMap::new` gives a map without entries.
    #[verifier::external_body]
    fn new() -> (map: ColumnStatsMap)
        ensures
            column_stats(map).dom() == Set::<usize>::empty(),
    {
        ColumnStatsMap { inner: hashbrown::HashMap::new() }
    }

    /// `hashbrown::HashMap::insert` sets the value of a key and leaves the other
    /// entries as they are.
    #[verifier::external_body]
    fn insert(&mut self, key: usize, value: (u64, ColumnBounds))
        ensures
            column_stats(*final(self)) == column_stats(*old(self)).insert(key, value),
    {
        self.inner.insert(key, value);
    }

    /// `hashbrown::HashMap::get` returns the value of a key, where there is one.
    #[verifier::external_body]
    fn get(&self, key: usize) -> (value: Option<&(u64, ColumnBounds)>)
        ensures
            value is Some <==> column_stats(*self).contains_key(key),
            value is Some ==> column_stats(*self)[key] == *value->0,
    {
        self.inner.get(&key)
    }
}

/// Returns the position of the first name in a list that equals `name`.
pub fn find_column(file: &Vec<String>, name: &String) -> (index: Option<usize>)
    ensures
        match texts(file@).index_of_first(name@) {
            Some(i) => index is Some && index->0 == i,
            None => index is None,
        },
{
    let ghost names = texts(file@);
    proof {
        names.index_of_first_ensures(name@);
    }
    let mut i: usize = 0;
    while i < file.len()
        invariant
            i <= file@.len(),
            names == texts(file@),
            forall|j: int| 0 <= j < i ==> names[j] != name@,
            match names.index_of_first(name@) {
                Some(index) => {
                    &&& 0 <= index < names.len()
                    &&& names[index] == name@
                    &&& forall|j: int| 0 <= j < index ==> names[j] != name@
                },
                None => !names.contains(name@),
            },
        decreases file@.len() - i,
    {
        assert(names[i as int] == file@[i as int]@);
        if file[i] == *name {
            return Some(i);
        }
        i += 1;
    }
    None
}

/// Puts the statistics of a row group into a map by column, and tells whether there
/// are any.
fn index_columns(columns: &Vec<Option<ChunkStatistics>>) -> (indexed: (ColumnStatsMap, bool))
    ensures
        forall|j: usize| #[trigger]
            column_stats(indexed.0).contains_key(j) <==> j < columns@.len()
                && columns@[j as int] is Some,
        forall|j: usize| #[trigger]
            column_stats(indexed.0).contains_key(j) ==> column_stats(indexed.0)[j] == (
                columns@[j as int]->0.null_count,
                columns@[j as int]->0.bounds,
            ),
        indexed.1 == exists|j: int|
            0 <= j < columns@.len() && #[trigger] columns@[j] is Some,
{
    let mut map: ColumnStatsMap = ColumnStatsMap::new();
    let mut has_statistics: bool = false;
    let mut i: usize = 0;
    while i < columns.len()
        invariant
            i <= columns@.len(),
            forall|j: usize| #[trigger]
                column_stats(map).contains_key(j) <==> j < i && columns@[j as int] is Some,
            forall|j: usize| #[trigger]
                column_stats(map).contains_key(j) ==> column_stats(map)[j] == (
                    columns@[j as int]->0.null_count,
                    columns@[j as int]->0.bounds,
                ),
            has_statistics == exists|j: int| 0 <= j < i && #[trigger] columns@[j] is Some,
        decreases columns@.len() - i,
    {
        if let Some(chunk) = columns[i] {
            has_statistics = true;
            map.insert(i, (chunk.null_count, chunk.bounds));
            assert(columns@[i as int] is Some);
        }
        i += 1;
    }
    (map, has_statistics)
}

/// The counts and accumulators that a walk over row groups keeps.
struct Gathering {
    num_rows: i64,
    total_byte_size: i64,
    has_statistics: bool,
    null_counts: Vec<usize>,
    max_values: Vec<Option<MaxAccumulator>>,
    min_values: Vec<Option<MinAccumulator>>,
}

impl Gathering {
    spec fn totals(self) -> Totals {
        Totals {
            num_rows: self.num_rows as int,
            total_byte_size: self.total_byte_size as int,
            has_statistics: self.has_statistics,
            columns: Seq::new(self.null_counts@.len(), |i: int| self.column(i)),
        }
    }

    spec fn column(self, i: int) -> ColumnTotals {
        ColumnTotals {
            nulls: self.null_counts@[i] as int,
            max: self.max_values@[i],
            min: self.min_values@[i],
        }
    }

    spec fn covers(self, columns: nat) -> bool {
        &&& self.null_counts@.len() == columns
        &&& self.max_values@.len() == columns
        &&& self.min_values@.len() == columns
    }

    /// Starts with no rows and, for each column, the accumulators of its type.
    fn new(table: &Vec<TableColumn>) -> (gathering: Gathering)
        ensures
            gathering.covers(table@.len()),
            gathering.totals() == initial_totals(columns_view(table@)),
    {
        let mut gathering: Gathering = Gathering {
            num_rows: 0,
            total_byte_size: 0,
            has_statistics: false,
            null_counts: Vec::new(),
            max_values: Vec::new(),
            min_values: Vec::new(),
        };
        let mut i: usize = 0;
        while i < table.len()
            invariant
                i <= table@.len(),
                gathering.covers(i as nat),
                gathering.num_rows == 0,
                gathering.total_byte_size == 0,
                !gathering.has_statistics,
                forall|j: int|
                    0 <= j < i ==> #[trigger] gathering.column(j) == initial_column(table@[j].kind),
            decreases table@.len() - i,
        {
            let ghost before = gathering;
            gathering.null_counts.push(0);
            gathering.max_values.push(Some(MaxAccumulator::new(table[i].kind)));
            gathering.min_values.push(Some(MinAccumulator::new(table[i].kind)));
            i += 1;
            assert forall|j: int| 0 <= j < i implies #[trigger] gathering.column(j)
                == initial_column(table@[j].kind) by {
                if j < i - 1 {
                    assert(gathering.column(j) == before.column(j));
                }
            }
        }
        assert(gathering.totals().columns =~= initial_totals(columns_view(table@)).columns);
        gathering
    }

    /// Takes a row group into column `i` of the table. Returns whether the null count
    /// still fits.
    fn add_chunk(
        &mut self,
        table: &Vec<TableColumn>,
        file: &Vec<String>,
        map: &ColumnStatsMap,
        i: usize,
        Ghost(group): Ghost<RowGroupView>,
    ) -> (fits: bool)
        requires
            old(self).covers(table@.len()),
            i < table@.len(),
            forall|j: usize| #[trigger]
                column_stats(*map).contains_key(j) <==> j < group.columns.len()
                    && group.columns[j as int] is Some,
            forall|j: usize| #[trigger]
                column_stats(*map).contains_key(j) ==> column_stats(*map)[j] == (
                    group.columns[j as int]->0.null_count,
                    group.columns[j as int]->0.bounds,
                ),
        ensures
            final(self).covers(table@.len()),
            final(self).num_rows == old(self).num_rows,
            final(self).total_byte_size == old(self).total_byte_size,
            final(self).has_statistics == old(self).has_statistics,
            forall|j: int|
                0 <= j < table@.len() && j != i ==> #[trigger] final(self).column(j) == old(
                    self,
                ).column(j),
            ({
                let after = column_after(
                    old(self).column(i as int),
                    table@[i as int]@,
                    texts(file@),
                    group,
                    old(self).num_rows as int,
                );
                &&& fits <==> after.nulls <= usize::MAX
                &&& fits ==> final(self).column(i as int) == after
            }),
    {
        let nulls: usize = self.null_counts[i];
        match find_column(file, &table[i].name) {
            Some(index) => match map.get(index) {
                Some(entry) => {
                    match nulls.checked_add(entry.0 as usize) {
                        Some(sum) => self.null_counts.set(i, sum),
                        None => return false,
                    }
                    summarize_min_max(
                        &mut self.max_values,
                        &mut self.min_values,
                        table,
                        i,
                        &entry.1,
                    );
                },
                None => {
                    self.max_values.set(i, None);
                    self.min_values.set(i, None);
                },
            },
            None => match nulls.checked_add(self.num_rows as usize) {
                Some(sum) => self.null_counts.set(i, sum),
                None => return false,
            },
        }
        true
    }

    /// Takes a row group. Returns whether the counts still fit.
    fn add_group(&mut self, table: &Vec<TableColumn>, file: &Vec<String>, group: &RowGroup) -> (fits:
        bool)
        requires
            old(self).covers(table@.len()),
        ensures
            final(self).covers(table@.len()),
            ({
                let after = totals_after(
                    old(self).totals(),
                    columns_view(table@),
                    texts(file@),
                    group@,
                );
                &&& fits <==> is_representable(after)
                &&& fits ==> final(self).totals() == after
            }),
    {
        let ghost before = *self;
        let ghost view = columns_view(table@);
        let ghost names = texts(file@);
        let ghost after = totals_after(before.totals(), view, names, group@);
        match self.num_rows.checked_add(group.num_rows) {
            Some(sum) => {
                self.num_rows = sum;
            },
            None => return false,
        }
        match self.total_byte_size.checked_add(group.total_byte_size) {
            Some(sum) => {
                self.total_byte_size = sum;
            },
            None => return false,
        }
        let (map, any): (ColumnStatsMap, bool) = index_columns(&group.columns);
        if any {
            self.has_statistics = true;
        }
        assert(any == has_any_statistics(group@));
        if self.has_statistics {
            let mut i: usize = 0;
            while i < table.len()
                invariant
                    i <= table@.len(),
                    before == *old(self),
                    before.covers(table@.len()),
                    self.covers(table@.len()),
                    view == columns_view(table@),
                    names == texts(file@),
                    after == totals_after(before.totals(), view, names, group@),
                    self.num_rows == after.num_rows,
                    self.total_byte_size == after.total_byte_size,
                    self.has_statistics == after.has_statistics,
                    after.has_statistics,
                    forall|j: usize| #[trigger]
                        column_stats(map).contains_key(j) <==> j < group@.columns.len()
                            && group@.columns[j as int] is Some,
                    forall|j: usize| #[trigger]
                        column_stats(map).contains_key(j) ==> column_stats(map)[j] == (
                            group@.columns[j as int]->0.null_count,
                            group@.columns[j as int]->0.bounds,
                        ),
                    forall|j: int|
                        0 <= j < table@.len() ==> #[trigger] self.column(j) == (if j < i {
                            after.columns[j]
                        } else {
                            before.column(j)
                        }),
                decreases table@.len() - i,
            {
                assert(before.totals().columns[i as int] == before.column(i as int));
                assert(self.column(i as int) == before.column(i as int));
                let ghost last = *self;
                if !self.add_chunk(table, file, &map, i, Ghost(group@)) {
                    assert(after.columns[i as int].nulls > usize::MAX);
                    return false;
                }
                i += 1;
                assert forall|j: int| 0 <= j < table@.len() implies #[trigger] self.column(j) == (
                if j < i {
                    after.columns[j]
                } else {
                    before.column(j)
                }) by {
                    if j != i - 1 {
                        assert(self.column(j) == last.column(j));
                    }
                }
            }
        } else {
            assert forall|j: int| 0 <= j < table@.len() implies #[trigger] self.column(j)
                == before.column(j) by {}
        }
        assert(self.totals().columns =~= after.columns);
        assert forall|j: int| 0 <= j < after.columns.len() implies (
        #[trigger] after.columns[j]).nulls <= usize::MAX by {
            assert(self.totals().columns[j] == self.column(j));
        }
        true
    }

    /// Turns what was gathered into statistics.
    fn finish(self) -> (statistics: Statistics)
        requires
            self.covers(self.null_counts@.len()),
        ensures
            statistics@ == table_statistics(self.totals()),
    {
        let column_statistics: Option<Vec<ColumnStatistics>> = if self.has_statistics {
            Some(get_col_stats(&self.null_counts, &self.max_values, &self.min_values))
        } else {
            None
        };
        let statistics: Statistics = Statistics {
            num_rows: Some(self.num_rows as usize),
            total_byte_size: Some(self.total_byte_size as usize),
            column_statistics,
            is_exact: true,
        };
        proof {
            if self.has_statistics {
                assert(statistics@.column_statistics->0 =~= table_statistics(
                    self.totals(),
                ).column_statistics->0);
            }
        }
        statistics
    }
}

/// Evaluates the accumulators of each column.
fn get_col_stats(
    null_counts: &Vec<usize>,
    max_values: &Vec<Option<MaxAccumulator>>,
    min_values: &Vec<Option<MinAccumulator>>,
) -> (columns: Vec<ColumnStatistics>)
    requires
        max_values@.len() == null_counts@.len(),
        min_values@.len() == null_counts@.len(),
    ensures
        columns@.len() == null_counts@.len(),
        forall|i: int|
            0 <= i < columns@.len() ==> #[trigger] columns@[i] == column_statistics(
                ColumnTotals {
                    nulls: null_counts@[i] as int,
                    max: max_values@[i],
                    min: min_values@[i],
                },
            ),
{
    let mut columns: Vec<ColumnStatistics> = Vec::new();
    let mut i: usize = 0;
    while i < null_counts.len()
        invariant
            i <= null_counts@.len(),
            columns@.len() == i,
            max_values@.len() == null_counts@.len(),
            min_values@.len() == null_counts@.len(),
            forall|j: int|
                0 <= j < i ==> #[trigger] columns@[j] == column_statistics(
                    ColumnTotals {
                        nulls: null_counts@[j] as int,
                        max: max_values@[j],
                        min: min_values@[j],
                    },
                ),
        decreases null_counts@.len() - i,
    {
        let max_value: Option<ScalarValue> = match &max_values[i] {
            Some(accumulator) => Some(accumulator.evaluate()),
            None => None,
        };
        let min_value: Option<ScalarValue> = match &min_values[i] {
            Some(accumulator) => Some(accumulator.evaluate()),
            None => None,
        };
        columns.push(
            ColumnStatistics {
                null_count: Some(null_counts[i]),
                max_value,
                min_value,
                distinct_count: None,
            },
        );
        i += 1;
    }
    columns
}

/// Where the counts do not fit after some of the row groups, they do not fit for
/// all of them.
proof fn lemma_counts_fit_prefix(
    table: Seq<TableColumnView>,
    file: Seq<Seq<char>>,
    groups: Seq<RowGroupView>,
    n: int,
)
    requires
        0 <= n <= groups.len(),
        counts_fit(table, file, groups),
    ensures
        counts_fit(table, file, groups.subrange(0, n)),
    decreases groups.len(),
{
    if n < groups.len() {
        lemma_counts_fit_prefix(table, file, groups.drop_last(), n);
        assert(groups.drop_last().subrange(0, n) =~= groups.subrange(0, n));
    } else {
        assert(groups.subrange(0, n) =~= groups);
    }
}

/// Computes the statistics of a table from the row groups of a file, or `None` where
/// a count does not fit the type that holds it.
///
/// `table` holds the columns of the table and `file` the names of the columns of the
/// file, in the order in which row groups list them.
pub fn gather_statistics(
    table: &Vec<TableColumn>,
    file: &Vec<String>,
    groups: &Vec<RowGroup>,
) -> (statistics: Option<Statistics>)
    ensures
        statistics is Some <==> counts_fit(
            columns_view(table@),
            texts(file@),
            groups_view(groups@),
        ),
        statistics is Some ==> statistics->0@ == table_statistics(
            gathered(columns_view(table@), texts(file@), groups_view(groups@)),
        ),
{
    let ghost view = columns_view(table@);
    let ghost names = texts(file@);
    let ghost all = groups_view(groups@);
    let mut gathering: Gathering = Gathering::new(table);
    let mut i: usize = 0;
    assert(all.subrange(0, 0) =~= Seq::<RowGroupView>::empty());
    while i < groups.len()
        invariant
            i <= groups@.len(),
            view == columns_view(table@),
            names == texts(file@),
            all == groups_view(groups@),
            gathering.covers(table@.len()),
            gathering.totals() == gathered(view, names, all.subrange(0, i as int)),
            counts_fit(view, names, all.subrange(0, i as int)),
        decreases groups@.len() - i,
    {
        let ghost next = all.subrange(0, i + 1);
        proof {
            assert(next.drop_last() =~= all.subrange(0, i as int));
            assert(next.last() == groups@[i as int]@);
        }
        if !gathering.add_group(table, file, &groups[i]) {
            proof {
                assert(!counts_fit(view, names, next));
                if counts_fit(view, names, all) {
                    lemma_counts_fit_prefix(view, names, all, i + 1);
                }
            }
            return None;
        }
        i += 1;
    }
    assert(all.subrange(0, i as int) =~= all);
    Some(gathering.finish())
}

/// The rows of a number of row groups.
pub open spec fn total_rows(groups: Seq<RowGroupView>) -> int
    decreases groups.len(),
{
    if groups.len() == 0 {
        0
    } else {
        total_rows(groups.drop_last()) + groups.last().num_rows
    }
}

/// The bytes of a number of row groups.
pub open spec fn total_bytes(groups: Seq<RowGroupView>) -> int
    decreases groups.len(),
{
    if groups.len() == 0 {
        0
    } else {
        total_bytes(groups.drop_last()) + groups.last().total_byte_size
    }
}

/// The rows and the bytes of a table are those of all its row groups, there are
/// statistics of columns exactly when some row group has any, and they are of every
/// column of the table.
pub proof fn law_totals(
    table: Seq<TableColumnView>,
    file: Seq<Seq<char>>,
    groups: Seq<RowGroupView>,
)
    ensures
        gathered(table, file, groups).num_rows == total_rows(groups),
        gathered(table, file, groups).total_byte_size == total_bytes(groups),
        gathered(table, file, groups).has_statistics <==> exists|g: int|
            0 <= g < groups.len() && has_any_statistics(#[trigger] groups[g]),
        gathered(table, file, groups).columns.len() == table.len(),
    decreases groups.len(),
{
    if groups.len() > 0 {
        let init = groups.drop_last();
        law_totals(table, file, init);
        let last = groups.len() - 1;
        if exists|g: int| 0 <= g < groups.len() && has_any_statistics(#[trigger] groups[g]) {
            let g = choose|g: int| 0 <= g < groups.len() && has_any_statistics(#[trigger] groups[g]);
            if g < last {
                assert(has_any_statistics(init[g]));
            }
        }
        if gathered(table, file, init).has_statistics {
            let g = choose|g: int| 0 <= g < init.len() && has_any_statistics(#[trigger] init[g]);
            assert(has_any_statistics(groups[g]));
        }
    }
}

/// A bound of a column that became unknown stays unknown: no later row group brings
/// it back.
pub proof fn law_unknown_stays_unknown(
    table: Seq<TableColumnView>,
    file: Seq<Seq<char>>,
    groups: Seq<RowGroupView>,
    n: int,
    i: int,
)
    requires
        0 <= n <= groups.len(),
        0 <= i < table.len(),
    ensures
        gathered(table, file, groups.subrange(0, n)).columns[i].max is None ==> gathered(
            table,
            file,
            groups,
        ).columns[i].max is None,
        gathered(table, file, groups.subrange(0, n)).columns[i].min is None ==> gathered(
            table,
            file,
            groups,
        ).columns[i].min is None,
    decreases groups.len(),
{
    if n < groups.len() {
        law_unknown_stays_unknown(table, file, groups.drop_last(), n, i);
        assert(groups.drop_last().subrange(0, n) =~= groups.subrange(0, n));
        law_totals(table, file, groups.drop_last());
    } else {
        assert(groups.subrange(0, n) =~= groups);
    }
}

/// The bounds, the smallest first, that a row group has for a table column.
pub open spec fn group_values(
    column: TableColumnView,
    file: Seq<Seq<char>>,
    group: RowGroupView,
) -> Option<(ScalarValue, ScalarValue)> {
    match file.index_of_first(column.name) {
        Some(index) => match chunk_at(group, index) {
            Some(chunk) => chunk.bounds.values_for(column.kind),
            None => None,
        },
        None => None,
    }
}

/// The largest value that a row group has for a table column.
pub open spec fn group_max(
    column: TableColumnView,
    file: Seq<Seq<char>>,
    group: RowGroupView,
) -> Option<ScalarValue> {
    match group_values(column, file, group) {
        Some((_, max)) => Some(max),
        None => None,
    }
}

/// The smallest value that a row group has for a table column.
pub open spec fn group_min(
    column: TableColumnView,
    file: Seq<Seq<char>>,
    group: RowGroupView,
) -> Option<ScalarValue> {
    match group_values(column, file, group) {
        Some((min, _)) => Some(min),
        None => None,
    }
}

/// Where a table column that a file has keeps a maximum or a minimum, it bounds that
/// of every row group that has statistics for the column: each of these has values of
/// the column's type, no largest of them exceeds the maximum, and no smallest is below
/// the minimum.
pub proof fn law_bounds_cover_groups(
    table: Seq<TableColumnView>,
    file: Seq<Seq<char>>,
    groups: Seq<RowGroupView>,
    i: int,
    g: int,
)
    requires
        0 <= i < table.len(),
        0 <= g < groups.len(),
        file.index_of_first(table[i].name) is Some,
        chunk_at(groups[g], file.index_of_first(table[i].name)->0) is Some,
    ensures
        gathered(table, file, groups).columns[i].max matches Some(max) ==> {
            &&& group_max(table[i], file, groups[g]) matches Some(value)
            &&& max.max.spec_kind() == value.spec_kind()
            &&& max.max.rank() is Some
            &&& !is_below(max.max, value)
        },
        gathered(table, file, groups).columns[i].min matches Some(min) ==> {
            &&& group_min(table[i], file, groups[g]) matches Some(value)
            &&& min.min.spec_kind() == value.spec_kind()
            &&& min.min.rank() is Some
            &&& !is_below(value, min.min)
        },
    decreases groups.len(),
{
    let index = file.index_of_first(table[i].name)->0;
    let init = groups.drop_last();
    let last = groups.len() - 1;
    law_totals(table, file, init);
    lemma_column_kind(table, file, init, i);
    let before = gathered(table, file, init).columns[i];
    if let Some(chunk) = chunk_at(groups[last], index) {
        if let Some((low, high)) = chunk.bounds.values_for(table[i].kind) {
            if let Some(max) = before.max {
                law_larger_smaller(max.max, high);
            }
            if let Some(min) = before.min {
                law_larger_smaller(min.min, low);
            }
        }
    }
    if g == last {
        assert(groups[g].columns[index] is Some);
        assert(has_any_statistics(groups[g]));
    } else {
        law_bounds_cover_groups(table, file, init, i, g);
    }
}

/// The accumulators of a column have its type.
proof fn lemma_column_kind(
    table: Seq<TableColumnView>,
    file: Seq<Seq<char>>,
    groups: Seq<RowGroupView>,
    i: int,
)
    requires
        0 <= i < table.len(),
    ensures
        gathered(table, file, groups).columns[i].max matches Some(max) ==> max.max.spec_kind()
            == table[i].kind,
        gathered(table, file, groups).columns[i].min matches Some(min) ==> min.min.spec_kind()
            == table[i].kind,
    decreases groups.len(),
{
    if groups.len() > 0 {
        lemma_column_kind(table, file, groups.drop_last(), i);
        law_totals(table, file, groups.drop_last());
    }
}

/// The maximum and the minimum of a table column are attained: each is null, or that
/// of some row group.
pub proof fn law_bounds_are_attained(
    table: Seq<TableColumnView>,
    file: Seq<Seq<char>>,
    groups: Seq<RowGroupView>,
    i: int,
)
    requires
        0 <= i < table.len(),
    ensures
        gathered(table, file, groups).columns[i].max matches Some(max) ==> max.max.rank() is None
            || exists|g: int|
            0 <= g < groups.len() && #[trigger] group_max(table[i], file, groups[g]) == Some(
                max.max,
            ),
        gathered(table, file, groups).columns[i].min matches Some(min) ==> min.min.rank() is None
            || exists|g: int|
            0 <= g < groups.len() && #[trigger] group_min(table[i], file, groups[g]) == Some(
                min.min,
            ),
    decreases groups.len(),
{
    if groups.len() > 0 {
        let init = groups.drop_last();
        let last = groups.len() - 1;
        law_bounds_are_attained(table, file, init, i);
        law_totals(table, file, init);
        let before = gathered(table, file, init).columns[i];
        let column = gathered(table, file, groups).columns[i];
        if column.max is Some && column.max->0.max.rank() is Some {
            let max = column.max->0.max;
            if before.max == column.max {
                let g = choose|g: int|
                    0 <= g < init.len() && #[trigger] group_max(table[i], file, init[g]) == Some(max);
                assert(group_max(table[i], file, groups[g]) == Some(max));
            } else {
                assert(group_max(table[i], file, groups[last]) == Some(max));
            }
        }
        if column.min is Some && column.min->0.min.rank() is Some {
            let min = column.min->0.min;
            if before.min == column.min {
                let g = choose|g: int|
                    0 <= g < init.len() && #[trigger] group_min(table[i], file, init[g]) == Some(min);
                assert(group_min(table[i], file, groups[g]) == Some(min));
            } else {
                assert(group_min(table[i], file, groups[last]) == Some(min));
            }
        }
    }
}

/// The maximum and the minimum of a column are kept, and are values, where the file has
/// row groups and each of them has bounds of the column's type for it.
pub proof fn law_bounds_are_kept(
    table: Seq<TableColumnView>,
    file: Seq<Seq<char>>,
    groups: Seq<RowGroupView>,
    i: int,
)
    requires
        0 <= i < table.len(),
        groups.len() > 0,
        forall|g: int|
            0 <= g < groups.len() ==> group_values(table[i], file, #[trigger] groups[g]) is Some,
    ensures
        gathered(table, file, groups).columns[i].max matches Some(max) && max.max.rank() is Some,
        gathered(table, file, groups).columns[i].min matches Some(min) && min.min.rank() is Some,
    decreases groups.len(),
{
    let init = groups.drop_last();
    let index = file.index_of_first(table[i].name)->0;
    law_totals(table, file, init);
    lemma_column_kind(table, file, init, i);
    assert(group_values(table[i], file, groups[groups.len() - 1]) is Some);
    assert(groups.last().columns[index] is Some);
    if init.len() > 0 {
        assert forall|g: int| 0 <= g < init.len() implies group_values(
            table[i],
            file,
            #[trigger] init[g],
        ) is Some by {
            assert(init[g] == groups[g]);
        }
        law_bounds_are_kept(table, file, init, i);
    }
    let before = gathered(table, file, init).columns[i];
    if let Some((low, high)) = group_values(table[i], file, groups.last()) {
        law_larger_smaller(before.max->0.max, high);
        law_larger_smaller(before.min->0.min, low);
    }
}

/// The nulls that row groups count for the column at a position of the file.
pub open spec fn counted_nulls(groups: Seq<RowGroupView>, index: int) -> int
    decreases groups.len(),
{
    if groups.len() == 0 {
        0
    } else {
        counted_nulls(groups.drop_last(), index) + (match chunk_at(groups.last(), index) {
            Some(chunk) => chunk.null_count as usize as int,
            None => 0,
        })
    }
}

/// A column that a file has is null as often as its row groups count.
pub proof fn law_nulls_are_added(
    table: Seq<TableColumnView>,
    file: Seq<Seq<char>>,
    groups: Seq<RowGroupView>,
    i: int,
)
    requires
        0 <= i < table.len(),
        file.index_of_first(table[i].name) is Some,
    ensures
        gathered(table, file, groups).columns[i].nulls == counted_nulls(
            groups,
            file.index_of_first(table[i].name)->0,
        ),
    decreases groups.len(),
{
    if groups.len() > 0 {
        let index = file.index_of_first(table[i].name)->0;
        law_nulls_are_added(table, file, groups.drop_last(), i);
        law_totals(table, file, groups.drop_last());
        if chunk_at(groups.last(), index) is Some {
            assert(groups.last().columns[index] is Some);
        }
    }
}

/// A column that a file of one row group does not have is null in each of its rows,
/// and its bounds are null.
pub proof fn law_missing_column_is_null(
    table: Seq<TableColumnView>,
    file: Seq<Seq<char>>,
    group: RowGroupView,
    i: int,
)
    requires
        0 <= i < table.len(),
        has_any_statistics(group),
        file.index_of_first(table[i].name) is None,
        0 <= group.num_rows <= usize::MAX,
    ensures
        gathered(table, file, seq![group]).columns[i] == (ColumnTotals {
            nulls: group.num_rows as int,
            ..initial_column(table[i].kind)
        }),
{
    reveal_with_fuel(gathered, 2);
    assert(seq![group].drop_last() =~= Seq::<RowGroupView>::empty());
}

/// The rows of row groups.
pub open spec fn counted_rows(groups: Seq<RowGroupView>) -> int
    decreases groups.len(),
{
    if groups.len() == 0 {
        0
    } else {
        counted_rows(groups.drop_last()) + groups.last().num_rows
    }
}

/// A column that a file does not have is null at least as often as the file has rows, where
/// the first row group has statistics, and its bounds are null.
pub proof fn law_missing_column_is_null_in_each_row(
    table: Seq<TableColumnView>,
    file: Seq<Seq<char>>,
    groups: Seq<RowGroupView>,
    i: int,
)
    requires
        0 <= i < table.len(),
        groups.len() > 0,
        has_any_statistics(groups[0]),
        file.index_of_first(table[i].name) is None,
        forall|g: int| 0 <= g < groups.len() ==> 0 <= (#[trigger] groups[g]).num_rows,
        counted_rows(groups) <= i64::MAX,
        counted_rows(groups) <= usize::MAX,
    ensures
        gathered(table, file, groups).has_statistics,
        gathered(table, file, groups).num_rows == counted_rows(groups),
        gathered(table, file, groups).columns[i].nulls >= counted_rows(groups) >= 0,
        gathered(table, file, groups).columns[i].max == initial_column(table[i].kind).max,
        gathered(table, file, groups).columns[i].min == initial_column(table[i].kind).min,
    decreases groups.len(),
{
    let init = groups.drop_last();
    let last = groups[groups.len() - 1];
    law_totals(table, file, init);
    assert(last.num_rows >= 0);
    if init.len() == 0 {
        reveal_with_fuel(gathered, 2);
        reveal_with_fuel(counted_rows, 2);
        assert(groups.last() == groups[0]);
    } else {
        assert forall|g: int| 0 <= g < init.len() implies 0 <= (#[trigger] init[g]).num_rows by {
            assert(init[g] == groups[g]);
        }
        assert(init[0] == groups[0]);
        law_missing_column_is_null_in_each_row(table, file, init, i);
    }
}

/// The column of a file that a column of a table stands for is the first of its name.
proof fn lemma_first_of_its_name(file: Seq<Seq<char>>, name: Seq<char>, index: int)
    requires
        0 <= index < file.len(),
        file[index] == name,
        forall|k: int| 0 <= k < index ==> #[trigger] file[k] != name,
    ensures
        file.index_of_first(name) == Some(index),
{
    file.index_of_first_ensures(name);
    assert(file.contains(name));
}

/// A column of a table that gets one chunk has the bounds that the file holds for the
/// chunk: its smallest value is the smaller one of the stored pair, and its largest value
/// the larger one, for each physical type whose bounds are used. It has no bounds where
/// its type is another, and where the file holds none. Its nulls are those of the chunk.
pub proof fn law_bounds_of_one_chunk(
    table: Seq<TableColumnView>,
    file: Seq<Seq<char>>,
    group: RowGroupView,
    i: int,
    index: int,
    chunk: ChunkStatistics,
)
    requires
        0 <= i < table.len(),
        0 <= index < file.len(),
        file[index] == table[i].name,
        forall|k: int| 0 <= k < index ==> #[trigger] file[k] != table[i].name,
        index < group.columns.len(),
        group.columns[index] == Some(chunk),
        chunk.null_count <= usize::MAX,
    ensures
        ({
            let columns = table_statistics(gathered(table, file, seq![group])).column_statistics;
            let kind = table[i].kind;
            let min = columns->0[i].min_value;
            let max = columns->0[i].max_value;
            &&& columns is Some
            &&& columns->0.len() == table.len()
            &&& columns->0[i].null_count == Some(chunk.null_count as usize)
            &&& columns->0[i].distinct_count is None
            &&& match chunk.bounds {
                ColumnBounds::Boolean(low, high) => if kind == DataKind::Boolean {
                    &&& min == Some(ScalarValue::Boolean(Some(low)))
                    &&& max == Some(ScalarValue::Boolean(Some(high)))
                } else {
                    min is None && max is None
                },
                ColumnBounds::Int32(low, high) => if kind == DataKind::Int32 {
                    &&& min == Some(ScalarValue::Int32(Some(low)))
                    &&& max == Some(ScalarValue::Int32(Some(high)))
                } else {
                    min is None && max is None
                },
                ColumnBounds::Int64(low, high) => if kind == DataKind::Int64 {
                    &&& min == Some(ScalarValue::Int64(Some(low)))
                    &&& max == Some(ScalarValue::Int64(Some(high)))
                } else {
                    min is None && max is None
                },
                ColumnBounds::Float(low, high) => if kind == DataKind::Float32 {
                    &&& min == Some(ScalarValue::Float32(Some(low)))
                    &&& max == Some(ScalarValue::Float32(Some(high)))
                } else {
                    min is None && max is None
                },
                ColumnBounds::Double(low, high) => if kind == DataKind::Float64 {
                    &&& min == Some(ScalarValue::Float64(Some(low)))
                    &&& max == Some(ScalarValue::Float64(Some(high)))
                } else {
                    min is None && max is None
                },
                ColumnBounds::Int96 => min is None && max is None,
                ColumnBounds::ByteArray => min is None && max is None,
                ColumnBounds::FixedLenByteArray => min is None && max is None,
                ColumnBounds::Unknown => min is None && max is None,
            }
        }),
{
    lemma_first_of_its_name(file, table[i].name, index);
    assert(seq![group].drop_last() =~= Seq::<RowGroupView>::empty());
    assert(has_any_statistics(group));
    reveal_with_fuel(gathered, 2);
}

/// The bounds that `group_values` has for a group, from those that the file holds.
proof fn lemma_bounds_of_groups(
    table: Seq<TableColumnView>,
    file: Seq<Seq<char>>,
    groups: Seq<RowGroupView>,
    i: int,
    index: int,
)
    requires
        0 <= i < table.len(),
        groups.len() > 0,
        0 <= index < file.len(),
        file[index] == table[i].name,
        forall|k: int| 0 <= k < index ==> #[trigger] file[k] != table[i].name,
        forall|g: int|
            0 <= g < groups.len() ==> {
                &&& index < (#[trigger] groups[g]).columns.len()
                &&& groups[g].columns[index] matches Some(chunk)
                &&& chunk.bounds.values_for(table[i].kind) is Some
            },
    ensures
        ({
            let column = table_statistics(
                gathered(table, file, groups),
            ).column_statistics->0[i];
            let bounds = |g: int| groups[g].columns[index]->0.bounds.values_for(table[i].kind)->0;
            &&& table_statistics(gathered(table, file, groups)).column_statistics is Some
            &&& column.min_value is Some
            &&& column.max_value is Some
            &&& column.min_value->0.spec_kind() == table[i].kind
            &&& column.max_value->0.spec_kind() == table[i].kind
            &&& exists|g: int|
                0 <= g < groups.len() && (#[trigger] bounds(g)).0 == column.min_value->0
            &&& exists|g: int|
                0 <= g < groups.len() && (#[trigger] bounds(g)).1 == column.max_value->0
            &&& forall|g: int|
                0 <= g < groups.len() ==> {
                    &&& !is_below((#[trigger] bounds(g)).0, column.min_value->0)
                    &&& !is_below(column.max_value->0, bounds(g).1)
                }
        }),
{
    let bounds = |g: int| groups[g].columns[index]->0.bounds.values_for(table[i].kind)->0;
    let all = gathered(table, file, groups);
    lemma_first_of_its_name(file, table[i].name, index);
    assert forall|g: int| 0 <= g < groups.len() implies group_values(
        table[i],
        file,
        #[trigger] groups[g],
    ) == Some(bounds(g)) by {}
    law_totals(table, file, groups);
    assert(has_any_statistics(groups[0])) by {
        assert(groups[0].columns[index] is Some);
    }
    law_bounds_are_kept(table, file, groups, i);
    law_bounds_are_attained(table, file, groups, i);
    lemma_column_kind(table, file, groups, i);
    let max = all.columns[i].max->0.max;
    let min = all.columns[i].min->0.min;
    let a = choose|g: int|
        0 <= g < groups.len() && #[trigger] group_max(table[i], file, groups[g]) == Some(max);
    let b = choose|g: int|
        0 <= g < groups.len() && #[trigger] group_min(table[i], file, groups[g]) == Some(min);
    assert(group_values(table[i], file, groups[a]) == Some(bounds(a)));
    assert(group_values(table[i], file, groups[b]) == Some(bounds(b)));
    assert(bounds(a).1 == max);
    assert(bounds(b).0 == min);
    assert forall|g: int| 0 <= g < groups.len() implies {
        &&& !is_below((#[trigger] bounds(g)).0, min)
        &&& !is_below(max, bounds(g).1)
    } by {
        assert(groups[g].columns[index] is Some);
        law_bounds_cover_groups(table, file, groups, i, g);
        assert(group_values(table[i], file, groups[g]) == Some(bounds(g)));
    }
}

/// The bounds of a column of flags: its smallest value
/// is the least of the smallest values that the file holds for its chunks, and its
/// largest value the greatest of the largest ones.
pub proof fn law_bounds_of_flags(
    table: Seq<TableColumnView>,
    file: Seq<Seq<char>>,
    groups: Seq<RowGroupView>,
    i: int,
    index: int,
    lows: Seq<bool>,
    highs: Seq<bool>,
)
    requires
        0 <= i < table.len(),
        table[i].kind == DataKind::Boolean,
        groups.len() > 0,
        0 <= index < file.len(),
        file[index] == table[i].name,
        forall|k: int| 0 <= k < index ==> #[trigger] file[k] != table[i].name,
        lows.len() == groups.len(),
        highs.len() == groups.len(),
        forall|g: int|
            0 <= g < groups.len() ==> {
                &&& index < (#[trigger] groups[g]).columns.len()
                &&& groups[g].columns[index] matches Some(chunk)
                &&& chunk.bounds == ColumnBounds::Boolean(lows[g], highs[g])
            },
    ensures
        ({
            let columns = table_statistics(gathered(table, file, groups)).column_statistics;
            &&& columns is Some
            &&& exists|min: bool, max: bool|
                {
                    &&& columns->0[i].min_value == Some(ScalarValue::Boolean(Some(min)))
                    &&& columns->0[i].max_value == Some(ScalarValue::Boolean(Some(max)))
                    &&& #[trigger] lows.contains(min)
                    &&& #[trigger] highs.contains(max)
                    &&& forall|g: int|
                        0 <= g < groups.len() ==> (min ==> lows[g]) && (highs[g] ==> max)
                }
        }),
{
    let bounds = |g: int| groups[g].columns[index]->0.bounds.values_for(table[i].kind)->0;
    assert forall|g: int| 0 <= g < groups.len() implies {
        &&& index < (#[trigger] groups[g]).columns.len()
        &&& groups[g].columns[index] matches Some(chunk)
        &&& chunk.bounds.values_for(table[i].kind) == Some(
            (ScalarValue::Boolean(Some(lows[g])), ScalarValue::Boolean(Some(highs[g]))),
        )
    } by {}
    lemma_bounds_of_groups(table, file, groups, i, index);
    let column = table_statistics(gathered(table, file, groups)).column_statistics->0[i];
    let a = choose|g: int| 0 <= g < groups.len() && (#[trigger] bounds(g)).0 == column.min_value->0;
    let b = choose|g: int| 0 <= g < groups.len() && (#[trigger] bounds(g)).1 == column.max_value->0;
    assert(groups[a].columns[index] is Some && groups[b].columns[index] is Some);
    let min = lows[a];
    let max = highs[b];
    assert(column.min_value == Some(ScalarValue::Boolean(Some(min))));
    assert(column.max_value == Some(ScalarValue::Boolean(Some(max))));
    assert(lows.contains(min) && highs.contains(max));
    assert forall|g: int| 0 <= g < groups.len() implies (min ==> lows[g]) && (highs[g] ==> max) by {
        assert(groups[g].columns[index] is Some);
        let pair = bounds(g);
        assert(pair.0 == ScalarValue::Boolean(Some(lows[g])));
        assert(pair.1 == ScalarValue::Boolean(Some(highs[g])));
    }
}

/// The bounds of a column of 32-bit integers: its smallest value
/// is the least of the smallest values that the file holds for its chunks, and its
/// largest value the greatest of the largest ones.
pub proof fn law_bounds_of_int32s(
    table: Seq<TableColumnView>,
    file: Seq<Seq<char>>,
    groups: Seq<RowGroupView>,
    i: int,
    index: int,
    lows: Seq<i32>,
    highs: Seq<i32>,
)
    requires
        0 <= i < table.len(),
        table[i].kind == DataKind::Int32,
        groups.len() > 0,
        0 <= index < file.len(),
        file[index] == table[i].name,
        forall|k: int| 0 <= k < index ==> #[trigger] file[k] != table[i].name,
        lows.len() == groups.len(),
        highs.len() == groups.len(),
        forall|g: int|
            0 <= g < groups.len() ==> {
                &&& index < (#[trigger] groups[g]).columns.len()
                &&& groups[g].columns[index] matches Some(chunk)
                &&& chunk.bounds == ColumnBounds::Int32(lows[g], highs[g])
            },
    ensures
        ({
            let columns = table_statistics(gathered(table, file, groups)).column_statistics;
            &&& columns is Some
            &&& exists|min: i32, max: i32|
                {
                    &&& columns->0[i].min_value == Some(ScalarValue::Int32(Some(min)))
                    &&& columns->0[i].max_value == Some(ScalarValue::Int32(Some(max)))
                    &&& #[trigger] lows.contains(min)
                    &&& #[trigger] highs.contains(max)
                    &&& forall|g: int|
                        0 <= g < groups.len() ==> min <= lows[g] && highs[g] <= max
                }
        }),
{
    let bounds = |g: int| groups[g].columns[index]->0.bounds.values_for(table[i].kind)->0;
    assert forall|g: int| 0 <= g < groups.len() implies {
        &&& index < (#[trigger] groups[g]).columns.len()
        &&& groups[g].columns[index] matches Some(chunk)
        &&& chunk.bounds.values_for(table[i].kind) == Some(
            (ScalarValue::Int32(Some(lows[g])), ScalarValue::Int32(Some(highs[g]))),
        )
    } by {}
    lemma_bounds_of_groups(table, file, groups, i, index);
    let column = table_statistics(gathered(table, file, groups)).column_statistics->0[i];
    let a = choose|g: int| 0 <= g < groups.len() && (#[trigger] bounds(g)).0 == column.min_value->0;
    let b = choose|g: int| 0 <= g < groups.len() && (#[trigger] bounds(g)).1 == column.max_value->0;
    assert(groups[a].columns[index] is Some && groups[b].columns[index] is Some);
    let min = lows[a];
    let max = highs[b];
    assert(column.min_value == Some(ScalarValue::Int32(Some(min))));
    assert(column.max_value == Some(ScalarValue::Int32(Some(max))));
    assert(lows.contains(min) && highs.contains(max));
    assert forall|g: int| 0 <= g < groups.len() implies min <= lows[g] && highs[g] <= max by {
        assert(groups[g].columns[index] is Some);
        let pair = bounds(g);
        assert(pair.0 == ScalarValue::Int32(Some(lows[g])));
        assert(pair.1 == ScalarValue::Int32(Some(highs[g])));
    }
}

/// The bounds of a column of 64-bit integers: its smallest value
/// is the least of the smallest values that the file holds for its chunks, and its
/// largest value the greatest of the largest ones.
pub proof fn law_bounds_of_int64s(
    table: Seq<TableColumnView>,
    file: Seq<Seq<char>>,
    groups: Seq<RowGroupView>,
    i: int,
    index: int,
    lows: Seq<i64>,
    highs: Seq<i64>,
)
    requires
        0 <= i < table.len(),
        table[i].kind == DataKind::Int64,
        groups.len() > 0,
        0 <= index < file.len(),
        file[index] == table[i].name,
        forall|k: int| 0 <= k < index ==> #[trigger] file[k] != table[i].name,
        lows.len() == groups.len(),
        highs.len() == groups.len(),
        forall|g: int|
            0 <= g < groups.len() ==> {
                &&& index < (#[trigger] groups[g]).columns.len()
                &&& groups[g].columns[index] matches Some(chunk)
                &&& chunk.bounds == ColumnBounds::Int64(lows[g], highs[g])
            },
    ensures
        ({
            let columns = table_statistics(gathered(table, file, groups)).column_statistics;
            &&& columns is Some
            &&& exists|min: i64, max: i64|
                {
                    &&& columns->0[i].min_value == Some(ScalarValue::Int64(Some(min)))
                    &&& columns->0[i].max_value == Some(ScalarValue::Int64(Some(max)))
                    &&& #[trigger] lows.contains(min)
                    &&& #[trigger] highs.contains(max)
                    &&& forall|g: int|
                        0 <= g < groups.len() ==> min <= lows[g] && highs[g] <= max
                }
        }),
{
    let bounds = |g: int| groups[g].columns[index]->0.bounds.values_for(table[i].kind)->0;
    assert forall|g: int| 0 <= g < groups.len() implies {
        &&& index < (#[trigger] groups[g]).columns.len()
        &&& groups[g].columns[index] matches Some(chunk)
        &&& chunk.bounds.values_for(table[i].kind) == Some(
            (ScalarValue::Int64(Some(lows[g])), ScalarValue::Int64(Some(highs[g]))),
        )
    } by {}
    lemma_bounds_of_groups(table, file, groups, i, index);
    let column = table_statistics(gathered(table, file, groups)).column_statistics->0[i];
    let a = choose|g: int| 0 <= g < groups.len() && (#[trigger] bounds(g)).0 == column.min_value->0;
    let b = choose|g: int| 0 <= g < groups.len() && (#[trigger] bounds(g)).1 == column.max_value->0;
    assert(groups[a].columns[index] is Some && groups[b].columns[index] is Some);
    let min = lows[a];
    let max = highs[b];
    assert(column.min_value == Some(ScalarValue::Int64(Some(min))));
    assert(column.max_value == Some(ScalarValue::Int64(Some(max))));
    assert(lows.contains(min) && highs.contains(max));
    assert forall|g: int| 0 <= g < groups.len() implies min <= lows[g] && highs[g] <= max by {
        assert(groups[g].columns[index] is Some);
        let pair = bounds(g);
        assert(pair.0 == ScalarValue::Int64(Some(lows[g])));
        assert(pair.1 == ScalarValue::Int64(Some(highs[g])));
    }
}

/// The bounds of a column of floats, by the total order of their bits: its smallest value
/// is the least of the smallest values that the file holds for its chunks, and its
/// largest value the greatest of the largest ones.
pub proof fn law_bounds_of_floats(
    table: Seq<TableColumnView>,
    file: Seq<Seq<char>>,
    groups: Seq<RowGroupView>,
    i: int,
    index: int,
    lows: Seq<u32>,
    highs: Seq<u32>,
)
    requires
        0 <= i < table.len(),
        table[i].kind == DataKind::Float32,
        groups.len() > 0,
        0 <= index < file.len(),
        file[index] == table[i].name,
        forall|k: int| 0 <= k < index ==> #[trigger] file[k] != table[i].name,
        lows.len() == groups.len(),
        highs.len() == groups.len(),
        forall|g: int|
            0 <= g < groups.len() ==> {
                &&& index < (#[trigger] groups[g]).columns.len()
                &&& groups[g].columns[index] matches Some(chunk)
                &&& chunk.bounds == ColumnBounds::Float(lows[g], highs[g])
            },
    ensures
        ({
            let columns = table_statistics(gathered(table, file, groups)).column_statistics;
            &&& columns is Some
            &&& exists|min: u32, max: u32|
                {
                    &&& columns->0[i].min_value == Some(ScalarValue::Float32(Some(min)))
                    &&& columns->0[i].max_value == Some(ScalarValue::Float32(Some(max)))
                    &&& #[trigger] lows.contains(min)
                    &&& #[trigger] highs.contains(max)
                    &&& forall|g: int|
                        0 <= g < groups.len() ==> {
                            &&& !is_below(
                                ScalarValue::Float32(Some(lows[g])),
                                ScalarValue::Float32(Some(min)),
                            )
                            &&& !is_below(
                                ScalarValue::Float32(Some(max)),
                                ScalarValue::Float32(Some(highs[g])),
                            )
                        }
                }
        }),
{
    let bounds = |g: int| groups[g].columns[index]->0.bounds.values_for(table[i].kind)->0;
    assert forall|g: int| 0 <= g < groups.len() implies {
        &&& index < (#[trigger] groups[g]).columns.len()
        &&& groups[g].columns[index] matches Some(chunk)
        &&& chunk.bounds.values_for(table[i].kind) == Some(
            (ScalarValue::Float32(Some(lows[g])), ScalarValue::Float32(Some(highs[g]))),
        )
    } by {}
    lemma_bounds_of_groups(table, file, groups, i, index);
    let column = table_statistics(gathered(table, file, groups)).column_statistics->0[i];
    let a = choose|g: int| 0 <= g < groups.len() && (#[trigger] bounds(g)).0 == column.min_value->0;
    let b = choose|g: int| 0 <= g < groups.len() && (#[trigger] bounds(g)).1 == column.max_value->0;
    assert(groups[a].columns[index] is Some && groups[b].columns[index] is Some);
    let min = lows[a];
    let max = highs[b];
    assert(column.min_value == Some(ScalarValue::Float32(Some(min))));
    assert(column.max_value == Some(ScalarValue::Float32(Some(max))));
    assert(lows.contains(min) && highs.contains(max));
    assert forall|g: int| 0 <= g < groups.len() implies {
        &&& !is_below(ScalarValue::Float32(Some(lows[g])), ScalarValue::Float32(Some(min)))
        &&& !is_below(ScalarValue::Float32(Some(max)), ScalarValue::Float32(Some(highs[g])))
    } by {
        assert(groups[g].columns[index] is Some);
        let pair = bounds(g);
        assert(pair.0 == ScalarValue::Float32(Some(lows[g])));
        assert(pair.1 == ScalarValue::Float32(Some(highs[g])));
    }
}

/// The bounds of a column of doubles, by the total order of their bits: its smallest value
/// is the least of the smallest values that the file holds for its chunks, and its
/// largest value the greatest of the largest ones.
pub proof fn law_bounds_of_doubles(
    table: Seq<TableColumnView>,
    file: Seq<Seq<char>>,
    groups: Seq<RowGroupView>,
    i: int,
    index: int,
    lows: Seq<u64>,
    highs: Seq<u64>,
)
    requires
        0 <= i < table.len(),
        table[i].kind == DataKind::Float64,
        groups.len() > 0,
        0 <= index < file.len(),
        file[index] == table[i].name,
        forall|k: int| 0 <= k < index ==> #[trigger] file[k] != table[i].name,
        lows.len() == groups.len(),
        highs.len() == groups.len(),
        forall|g: int|
            0 <= g < groups.len() ==> {
                &&& index < (#[trigger] groups[g]).columns.len()
                &&& groups[g].columns[index] matches Some(chunk)
                &&& chunk.bounds == ColumnBounds::Double(lows[g], highs[g])
            },
    ensures
        ({
            let columns = table_statistics(gathered(table, file, groups)).column_statistics;
            &&& columns is Some
            &&& exists|min: u64, max: u64|
                {
                    &&& columns->0[i].min_value == Some(ScalarValue::Float64(Some(min)))
                    &&& columns->0[i].max_value == Some(ScalarValue::Float64(Some(max)))
                    &&& #[trigger] lows.contains(min)
                    &&& #[trigger] highs.contains(max)
                    &&& forall|g: int|
                        0 <= g < groups.len() ==> {
                            &&& !is_below(
                                ScalarValue::Float64(Some(lows[g])),
                                ScalarValue::Float64(Some(min)),
                            )
                            &&& !is_below(
                                ScalarValue::Float64(Some(max)),
                                ScalarValue::Float64(Some(highs[g])),
                            )
                        }
                }
        }),
{
    let bounds = |g: int| groups[g].columns[index]->0.bounds.values_for(table[i].kind)->0;
    assert forall|g: int| 0 <= g < groups.len() implies {
        &&& index < (#[trigger] groups[g]).columns.len()
        &&& groups[g].columns[index] matches Some(chunk)
        &&& chunk.bounds.values_for(table[i].kind) == Some(
            (ScalarValue::Float64(Some(lows[g])), ScalarValue::Float64(Some(highs[g]))),
        )
    } by {}
    lemma_bounds_of_groups(table, file, groups, i, index);
    let column = table_statistics(gathered(table, file, groups)).column_statistics->0[i];
    let a = choose|g: int| 0 <= g < groups.len() && (#[trigger] bounds(g)).0 == column.min_value->0;
    let b = choose|g: int| 0 <= g < groups.len() && (#[trigger] bounds(g)).1 == column.max_value->0;
    assert(groups[a].columns[index] is Some && groups[b].columns[index] is Some);
    let min = lows[a];
    let max = highs[b];
    assert(column.min_value == Some(ScalarValue::Float64(Some(min))));
    assert(column.max_value == Some(ScalarValue::Float64(Some(max))));
    assert(lows.contains(min) && highs.contains(max));
    assert forall|g: int| 0 <= g < groups.len() implies {
        &&& !is_below(ScalarValue::Float64(Some(lows[g])), ScalarValue::Float64(Some(min)))
        &&& !is_below(ScalarValue::Float64(Some(max)), ScalarValue::Float64(Some(highs[g])))
    } by {
        assert(groups[g].columns[index] is Some);
        let pair = bounds(g);
        assert(pair.0 == ScalarValue::Float64(Some(lows[g])));
        assert(pair.1 == ScalarValue::Float64(Some(highs[g])));
    }
}

/// The statistics of a table say how many rows and bytes its row groups have together,
/// and are exact. They are of columns where the file holds statistics for any chunk, and
/// are of each column of the table in its place: the nulls of a column that the file has
/// are those of its chunks together.
pub proof fn law_statistics_of_table(
    table: Seq<TableColumnView>,
    file: Seq<Seq<char>>,
    groups: Seq<RowGroupView>,
)
    requires
        0 <= total_rows(groups) <= i64::MAX,
        total_rows(groups) <= usize::MAX,
        0 <= total_bytes(groups) <= i64::MAX,
        total_bytes(groups) <= usize::MAX,
    ensures
        ({
            let statistics = table_statistics(gathered(table, file, groups));
            &&& statistics.num_rows is Some
            &&& statistics.num_rows->0 == total_rows(groups)
            &&& statistics.total_byte_size is Some
            &&& statistics.total_byte_size->0 == total_bytes(groups)
            &&& statistics.is_exact
            &&& statistics.column_statistics is Some <==> exists|g: int, j: int|
                0 <= g < groups.len() && 0 <= j < groups[g].columns.len()
                    && #[trigger] groups[g].columns[j] is Some
            &&& statistics.column_statistics matches Some(columns) ==> {
                &&& columns.len() == table.len()
                &&& forall|i: int|
                    0 <= i < columns.len() ==> {
                        &&& (#[trigger] columns[i]).null_count is Some
                        &&& columns[i].distinct_count is None
                        &&& file.contains(table[i].name) && counted_nulls(
                            groups,
                            file.index_of_first(table[i].name)->0,
                        ) <= usize::MAX ==> columns[i].null_count->0 == counted_nulls(
                            groups,
                            file.index_of_first(table[i].name)->0,
                        )
                    }
            }
        }),
{
    law_totals(table, file, groups);
    let totals = gathered(table, file, groups);
    let statistics = table_statistics(totals);
    if totals.has_statistics {
        let g = choose|g: int| 0 <= g < groups.len() && has_any_statistics(#[trigger] groups[g]);
        let j = choose|j: int|
            0 <= j < groups[g].columns.len() && #[trigger] groups[g].columns[j] is Some;
        assert(groups[g].columns[j] is Some);
    }
    if exists|g: int, j: int|
        0 <= g < groups.len() && 0 <= j < groups[g].columns.len()
            && #[trigger] groups[g].columns[j] is Some {
        let (g, j) = choose|g: int, j: int|
            0 <= g < groups.len() && 0 <= j < groups[g].columns.len()
                && #[trigger] groups[g].columns[j] is Some;
        assert(has_any_statistics(groups[g]));
    }
    if let Some(columns) = statistics.column_statistics {
        assert forall|i: int| 0 <= i < columns.len() implies {
            &&& (#[trigger] columns[i]).null_count is Some
            &&& columns[i].distinct_count is None
            &&& file.contains(table[i].name) && counted_nulls(
                groups,
                file.index_of_first(table[i].name)->0,
            ) <= usize::MAX ==> columns[i].null_count->0 == counted_nulls(
                groups,
                file.index_of_first(table[i].name)->0,
            )
        } by {
            file.index_of_first_ensures(table[i].name);
            if file.contains(table[i].name) {
                law_nulls_are_added(table, file, groups, i);
                lemma_nulls_are_counted(groups, file.index_of_first(table[i].name)->0);
            }
        }
    }
}

/// A number of nulls is not negative.
proof fn lemma_nulls_are_counted(groups: Seq<RowGroupView>, index: int)
    ensures
        counted_nulls(groups, index) >= 0,
        groups.len() > 0 ==> counted_nulls(groups.drop_last(), index) <= counted_nulls(
            groups,
            index,
        ),
    decreases groups.len(),
{
    if groups.len() > 0 {
        lemma_nulls_are_counted(groups.drop_last(), index);
    }
}

/// The rows read up to each row group, added up over the row groups.
pub open spec fn running_rows(groups: Seq<RowGroupView>) -> int
    decreases groups.len(),
{
    if groups.len() == 0 {
        0
    } else {
        running_rows(groups.drop_last()) + total_rows(groups)
    }
}

/// Where row groups have no negative counts, the rows up to each of them grow.
proof fn lemma_rows_grow(groups: Seq<RowGroupView>)
    requires
        forall|g: int| 0 <= g < groups.len() ==> 0 <= (#[trigger] groups[g]).num_rows,
    ensures
        0 <= total_rows(groups) <= running_rows(groups),
        groups.len() > 0 ==> {
            &&& total_rows(groups.drop_last()) <= total_rows(groups)
            &&& running_rows(groups.drop_last()) <= running_rows(groups)
        },
    decreases groups.len(),
{
    if groups.len() > 0 {
        let init = groups.drop_last();
        assert forall|g: int| 0 <= g < init.len() implies 0 <= (#[trigger] init[g]).num_rows by {
            assert(init[g] == groups[g]);
        }
        assert(groups[groups.len() - 1].num_rows >= 0);
        lemma_rows_grow(init);
    }
}

/// Where row groups have no negative sizes, their bytes grow.
proof fn lemma_bytes_grow(groups: Seq<RowGroupView>)
    requires
        forall|g: int| 0 <= g < groups.len() ==> 0 <= (#[trigger] groups[g]).total_byte_size,
    ensures
        0 <= total_bytes(groups),
        groups.len() > 0 ==> total_bytes(groups.drop_last()) <= total_bytes(groups),
    decreases groups.len(),
{
    if groups.len() > 0 {
        let init = groups.drop_last();
        assert forall|g: int| 0 <= g < init.len() implies 0 <= (
        #[trigger] init[g]).total_byte_size by {
            assert(init[g] == groups[g]);
        }
        assert(groups[groups.len() - 1].total_byte_size >= 0);
        lemma_bytes_grow(init);
    }
}

/// The nulls of a column that the file does not have are the rows up to each row group,
/// added up from the first one on where that has statistics, and no more than that
/// otherwise. The column has no bounds but null.
pub proof fn law_nulls_of_missing_column(
    table: Seq<TableColumnView>,
    file: Seq<Seq<char>>,
    groups: Seq<RowGroupView>,
    i: int,
)
    requires
        0 <= i < table.len(),
        !file.contains(table[i].name),
        forall|g: int| 0 <= g < groups.len() ==> 0 <= (#[trigger] groups[g]).num_rows,
        total_rows(groups) <= i64::MAX,
        total_rows(groups) <= usize::MAX,
    ensures
        0 <= gathered(table, file, groups).columns[i].nulls <= running_rows(groups),
        groups.len() > 0 && (exists|j: int|
            0 <= j < groups[0].columns.len() && #[trigger] groups[0].columns[j] is Some)
            ==> gathered(table, file, groups).columns[i].nulls == running_rows(groups),
        gathered(table, file, groups).columns[i].max == Some(
            MaxAccumulator { max: ScalarValue::spec_null(table[i].kind) },
        ),
        gathered(table, file, groups).columns[i].min == Some(
            MinAccumulator { min: ScalarValue::spec_null(table[i].kind) },
        ),
    decreases groups.len(),
{
    file.index_of_first_ensures(table[i].name);
    if groups.len() > 0 {
        let init = groups.drop_last();
        lemma_rows_grow(groups);
        assert forall|g: int| 0 <= g < init.len() implies 0 <= (#[trigger] init[g]).num_rows by {
            assert(init[g] == groups[g]);
        }
        law_nulls_of_missing_column(table, file, init, i);
        law_totals(table, file, init);
        law_totals(table, file, groups);
        if exists|j: int|
            0 <= j < groups[0].columns.len() && #[trigger] groups[0].columns[j] is Some {
            assert(has_any_statistics(groups[0]));
            if init.len() > 0 {
                assert(init[0] == groups[0]);
            }
        }
    }
}

/// The counts of a file fit wherever no row group has a negative count and the sums fit:
/// those of rows and bytes, the nulls of each column of the file, and the rows up to each
/// row group for a column that the file does not have.
pub proof fn law_small_counts_fit(
    table: Seq<TableColumnView>,
    file: Seq<Seq<char>>,
    groups: Seq<RowGroupView>,
)
    requires
        forall|g: int| 0 <= g < groups.len() ==> 0 <= (#[trigger] groups[g]).num_rows,
        forall|g: int| 0 <= g < groups.len() ==> 0 <= (#[trigger] groups[g]).total_byte_size,
        total_rows(groups) <= i64::MAX,
        total_bytes(groups) <= i64::MAX,
        forall|index: int|
            0 <= index < file.len() ==> #[trigger] counted_nulls(groups, index) <= usize::MAX,
        running_rows(groups) <= usize::MAX,
    ensures
        counts_fit(table, file, groups),
    decreases groups.len(),
{
    if groups.len() > 0 {
        let init = groups.drop_last();
        lemma_rows_grow(groups);
        lemma_bytes_grow(groups);
        assert forall|g: int| 0 <= g < init.len() implies 0 <= (#[trigger] init[g]).num_rows by {
            assert(init[g] == groups[g]);
        }
        assert forall|g: int| 0 <= g < init.len() implies 0 <= (
        #[trigger] init[g]).total_byte_size by {
            assert(init[g] == groups[g]);
        }
        assert forall|index: int| 0 <= index < file.len() implies #[trigger] counted_nulls(
            init,
            index,
        ) <= usize::MAX by {
            lemma_nulls_are_counted(groups, index);
            assert(counted_nulls(groups, index) <= usize::MAX);
        }
        law_small_counts_fit(table, file, init);
        law_totals(table, file, groups);
        let totals = gathered(table, file, groups);
        assert forall|i: int| 0 <= i < totals.columns.len() implies (
        #[trigger] totals.columns[i]).nulls <= usize::MAX by {
            file.index_of_first_ensures(table[i].name);
            if file.contains(table[i].name) {
                law_nulls_are_added(table, file, groups, i);
                let index = file.index_of_first(table[i].name)->0;
                assert(counted_nulls(groups, index) <= usize::MAX);
            } else {
                law_nulls_of_missing_column(table, file, groups, i);
            }
        }
    }
}

/// A column has no bounds where a row group has none for it that it can take, once any
/// chunk up to there has statistics: where its chunk has no statistics, is not there, or has
/// bounds of another type.
pub proof fn law_one_unknown_bound_is_enough(
    table: Seq<TableColumnView>,
    file: Seq<Seq<char>>,
    groups: Seq<RowGroupView>,
    i: int,
    index: int,
    g: int,
    h: int,
    j: int,
)
    requires
        0 <= i < table.len(),
        0 <= index < file.len(),
        file[index] == table[i].name,
        forall|k: int| 0 <= k < index ==> #[trigger] file[k] != table[i].name,
        0 <= h <= g < groups.len(),
        0 <= j < groups[h].columns.len(),
        groups[h].columns[j] is Some,
        index < groups[g].columns.len() ==> (groups[g].columns[index] matches Some(chunk) ==> {
            &&& table[i].kind == DataKind::Boolean ==> !(chunk.bounds is Boolean)
            &&& table[i].kind == DataKind::Int32 ==> !(chunk.bounds is Int32)
            &&& table[i].kind == DataKind::Int64 ==> !(chunk.bounds is Int64)
            &&& table[i].kind == DataKind::Float32 ==> !(chunk.bounds is Float)
            &&& table[i].kind == DataKind::Float64 ==> !(chunk.bounds is Double)
        }),
    ensures
        ({
            let columns = table_statistics(gathered(table, file, groups)).column_statistics;
            &&& columns is Some
            &&& columns->0[i].min_value is None
            &&& columns->0[i].max_value is None
        }),
{
    let some = groups.subrange(0, g + 1);
    let before = some.drop_last();
    lemma_first_of_its_name(file, table[i].name, index);
    assert(has_any_statistics(groups[h]));
    assert(some[h] == groups[h]);
    law_totals(table, file, some);
    law_totals(table, file, before);
    law_totals(table, file, groups);
    assert(some.last() == groups[g]);
    law_unknown_stays_unknown(table, file, groups, g + 1, i);
}

} // verus!
