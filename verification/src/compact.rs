//! Scanning the compact Thrift encoding of the metadata of a file.
//!
//! The decoder trusts more than it tests: it panics on a list of a negative size, on a
//! union of a variant that it does not know, on a tree of columns that ends too early or is
//! too deep, and where the parts of the metadata disagree. [`can_decode`] reads through the
//! encoded bytes beforehand and tells whether decoding them is known to return. It may say
//! no where the decoder would find an error first: a text that is no text, or a truth value
//! where there should be none.

use vstd::prelude::*;
use crate::tree::{after_node, find_level, level_under, take_node, OpenGroup};

verus! {

/// Where a scan has come to.
pub enum Outcome {
    /// It goes on at this position.
    At(int),
    /// The decoder ends with an error here.
    Fails,
    /// The decoder may panic.
    Unclear,
}

/// Where a scan of bytes has come to.
#[derive(Clone, Copy, Debug, PartialEq, Eq, Structural)]
pub enum Step {
    At(usize),
    Fails,
    Unclear,
}

impl View for Step {
    type V = Outcome;

    open spec fn view(&self) -> Outcome {
        match self {
            Step::At(p) => Outcome::At(*p as int),
            Step::Fails => Outcome::Fails,
            Step::Unclear => Outcome::Unclear,
        }
    }
}

/// A structure of the metadata.
#[derive(Clone, Copy, Debug, PartialEq, Eq, Structural)]
pub enum Record {
    /// One without known fields.
    Plain,
    File,
    Element,
    LogicalType,
    Decimal,
    Time,
    TimeUnit,
    Integer,
    RowGroup,
    Chunk,
    Column,
    Statistics,
    KeyValue,
    SortingColumn,
    PageEncoding,
    ColumnCrypto,
    ColumnKey,
    ColumnOrder,
    Encryption,
    Cipher,
}

/// What the decoder reads for a field.
#[derive(Clone, Copy, Debug, PartialEq, Eq, Structural)]
pub enum Shape {
    Flag,
    Byte,
    Short,
    Int,
    Long,
    /// A text or bytes.
    Bytes,
    Record(Record),
    /// Lists of integers, of texts and of records.
    Ints,
    Texts,
    Records(Record),
}

/// What the decoder reads for a field of a record, or `None` where it skips the field.
pub open spec fn expected(record: Record, id: i16) -> Option<Shape> {
    match record {
        Record::Plain => None,
        Record::File => match id {
            1 => Some(Shape::Int),
            2 => Some(Shape::Records(Record::Element)),
            3 => Some(Shape::Long),
            4 => Some(Shape::Records(Record::RowGroup)),
            5 => Some(Shape::Records(Record::KeyValue)),
            6 | 9 => Some(Shape::Bytes),
            7 => Some(Shape::Records(Record::ColumnOrder)),
            8 => Some(Shape::Record(Record::Encryption)),
            _ => None,
        },
        Record::Element => match id {
            1 | 2 | 3 | 5 | 6 | 7 | 8 | 9 => Some(Shape::Int),
            4 => Some(Shape::Bytes),
            10 => Some(Shape::Record(Record::LogicalType)),
            _ => None,
        },
        Record::LogicalType => match id {
            1 | 2 | 3 | 4 | 6 | 11 | 12 | 13 | 14 => Some(Shape::Record(Record::Plain)),
            5 => Some(Shape::Record(Record::Decimal)),
            7 | 8 => Some(Shape::Record(Record::Time)),
            10 => Some(Shape::Record(Record::Integer)),
            _ => None,
        },
        Record::Decimal => match id {
            1 | 2 => Some(Shape::Int),
            _ => None,
        },
        Record::Time => match id {
            1 => Some(Shape::Flag),
            2 => Some(Shape::Record(Record::TimeUnit)),
            _ => None,
        },
        Record::TimeUnit => match id {
            1 | 2 | 3 => Some(Shape::Record(Record::Plain)),
            _ => None,
        },
        Record::Integer => match id {
            1 => Some(Shape::Byte),
            2 => Some(Shape::Flag),
            _ => None,
        },
        Record::RowGroup => match id {
            1 => Some(Shape::Records(Record::Chunk)),
            2 | 3 | 5 | 6 => Some(Shape::Long),
            4 => Some(Shape::Records(Record::SortingColumn)),
            7 => Some(Shape::Short),
            _ => None,
        },
        Record::Chunk => match id {
            1 | 9 => Some(Shape::Bytes),
            2 | 4 | 6 => Some(Shape::Long),
            3 => Some(Shape::Record(Record::Column)),
            5 | 7 => Some(Shape::Int),
            8 => Some(Shape::Record(Record::ColumnCrypto)),
            _ => None,
        },
        Record::Column => match id {
            1 | 4 => Some(Shape::Int),
            2 => Some(Shape::Ints),
            3 => Some(Shape::Texts),
            5 | 6 | 7 | 9 | 10 | 11 | 14 => Some(Shape::Long),
            8 => Some(Shape::Records(Record::KeyValue)),
            12 => Some(Shape::Record(Record::Statistics)),
            13 => Some(Shape::Records(Record::PageEncoding)),
            _ => None,
        },
        Record::Statistics => match id {
            1 | 2 | 5 | 6 => Some(Shape::Bytes),
            3 | 4 => Some(Shape::Long),
            _ => None,
        },
        Record::KeyValue => match id {
            1 | 2 => Some(Shape::Bytes),
            _ => None,
        },
        Record::SortingColumn => match id {
            1 => Some(Shape::Int),
            2 | 3 => Some(Shape::Flag),
            _ => None,
        },
        Record::PageEncoding => match id {
            1 | 2 | 3 => Some(Shape::Int),
            _ => None,
        },
        Record::ColumnCrypto => match id {
            1 => Some(Shape::Record(Record::Plain)),
            2 => Some(Shape::Record(Record::ColumnKey)),
            _ => None,
        },
        Record::ColumnKey => match id {
            1 => Some(Shape::Texts),
            2 => Some(Shape::Bytes),
            _ => None,
        },
        Record::ColumnOrder => match id {
            1 => Some(Shape::Record(Record::Plain)),
            _ => None,
        },
        Record::Encryption => match id {
            1 | 2 => Some(Shape::Record(Record::Cipher)),
            _ => None,
        },
        Record::Cipher => match id {
            1 | 2 => Some(Shape::Bytes),
            3 => Some(Shape::Flag),
            _ => None,
        },
    }
}

/// Gives what the decoder reads for a field of a record.
fn find_expected(record: Record, id: i16) -> (shape: Option<Shape>)
    ensures
        shape == expected(record, id),
{
    match record {
        Record::Plain => None,
        Record::File => match id {
            1 => Some(Shape::Int),
            2 => Some(Shape::Records(Record::Element)),
            3 => Some(Shape::Long),
            4 => Some(Shape::Records(Record::RowGroup)),
            5 => Some(Shape::Records(Record::KeyValue)),
            6 | 9 => Some(Shape::Bytes),
            7 => Some(Shape::Records(Record::ColumnOrder)),
            8 => Some(Shape::Record(Record::Encryption)),
            _ => None,
        },
        Record::Element => match id {
            1 | 2 | 3 | 5 | 6 | 7 | 8 | 9 => Some(Shape::Int),
            4 => Some(Shape::Bytes),
            10 => Some(Shape::Record(Record::LogicalType)),
            _ => None,
        },
        Record::LogicalType => match id {
            1 | 2 | 3 | 4 | 6 | 11 | 12 | 13 | 14 => Some(Shape::Record(Record::Plain)),
            5 => Some(Shape::Record(Record::Decimal)),
            7 | 8 => Some(Shape::Record(Record::Time)),
            10 => Some(Shape::Record(Record::Integer)),
            _ => None,
        },
        Record::Decimal => match id {
            1 | 2 => Some(Shape::Int),
            _ => None,
        },
        Record::Time => match id {
            1 => Some(Shape::Flag),
            2 => Some(Shape::Record(Record::TimeUnit)),
            _ => None,
        },
        Record::TimeUnit => match id {
            1 | 2 | 3 => Some(Shape::Record(Record::Plain)),
            _ => None,
        },
        Record::Integer => match id {
            1 => Some(Shape::Byte),
            2 => Some(Shape::Flag),
            _ => None,
        },
        Record::RowGroup => match id {
            1 => Some(Shape::Records(Record::Chunk)),
            2 | 3 | 5 | 6 => Some(Shape::Long),
            4 => Some(Shape::Records(Record::SortingColumn)),
            7 => Some(Shape::Short),
            _ => None,
        },
        Record::Chunk => match id {
            1 | 9 => Some(Shape::Bytes),
            2 | 4 | 6 => Some(Shape::Long),
            3 => Some(Shape::Record(Record::Column)),
            5 | 7 => Some(Shape::Int),
            8 => Some(Shape::Record(Record::ColumnCrypto)),
            _ => None,
        },
        Record::Column => match id {
            1 | 4 => Some(Shape::Int),
            2 => Some(Shape::Ints),
            3 => Some(Shape::Texts),
            5 | 6 | 7 | 9 | 10 | 11 | 14 => Some(Shape::Long),
            8 => Some(Shape::Records(Record::KeyValue)),
            12 => Some(Shape::Record(Record::Statistics)),
            13 => Some(Shape::Records(Record::PageEncoding)),
            _ => None,
        },
        Record::Statistics => match id {
            1 | 2 | 5 | 6 => Some(Shape::Bytes),
            3 | 4 => Some(Shape::Long),
            _ => None,
        },
        Record::KeyValue => match id {
            1 | 2 => Some(Shape::Bytes),
            _ => None,
        },
        Record::SortingColumn => match id {
            1 => Some(Shape::Int),
            2 | 3 => Some(Shape::Flag),
            _ => None,
        },
        Record::PageEncoding => match id {
            1 | 2 | 3 => Some(Shape::Int),
            _ => None,
        },
        Record::ColumnCrypto => match id {
            1 => Some(Shape::Record(Record::Plain)),
            2 => Some(Shape::Record(Record::ColumnKey)),
            _ => None,
        },
        Record::ColumnKey => match id {
            1 => Some(Shape::Texts),
            2 => Some(Shape::Bytes),
            _ => None,
        },
        Record::ColumnOrder => match id {
            1 => Some(Shape::Record(Record::Plain)),
            _ => None,
        },
        Record::Encryption => match id {
            1 | 2 => Some(Shape::Record(Record::Cipher)),
            _ => None,
        },
        Record::Cipher => match id {
            1 | 2 => Some(Shape::Bytes),
            3 => Some(Shape::Flag),
            _ => None,
        },
    }
}

/// Whether a record is a union. The decoder refuses one that has no field or several, and
/// panics on one that has a single field which it does not know.
pub open spec fn is_union(record: Record) -> bool {
    record is LogicalType || record is TimeUnit || record is ColumnCrypto || record is ColumnOrder
        || record is Encryption
}

/// Tests whether a record is a union.
fn can_be_union(record: Record) -> (union: bool)
    ensures
        union == is_union(record),
{
    match record {
        Record::LogicalType => true,
        Record::TimeUnit => true,
        Record::ColumnCrypto => true,
        Record::ColumnOrder => true,
        Record::Encryption => true,
        _ => false,
    }
}

/// Where a number ends that has seven bits in each byte and at most `max` bytes: after the
/// first byte without the high bit.
pub open spec fn number_end(bytes: Seq<u8>, p: int, max: nat) -> Option<int>
    decreases max,
{
    if max == 0 || p >= bytes.len() {
        None
    } else if bytes[p] < 128 {
        Some(p + 1)
    } else {
        number_end(bytes, p + 1, (max - 1) as nat)
    }
}

/// The number in these bytes, the lowest seven bits first.
pub open spec fn raw_number(bytes: Seq<u8>, p: int, end: int) -> int
    decreases end - p,
{
    if p >= end {
        0
    } else {
        bytes[p] % 128 + 128 * raw_number(bytes, p + 1, end)
    }
}

/// The number that a raw number with its sign in the lowest bit stands for.
pub open spec fn signed(raw: int) -> int {
    if raw % 2 == 0 {
        raw / 2
    } else {
        -(raw / 2) - 1
    }
}

/// The number with the lowest 16 bits of this one.
pub open spec fn low16(number: int) -> int {
    (number + 0x8000) % 0x1_0000 - 0x8000
}

/// The number with the lowest 32 bits of this one.
pub open spec fn low32(number: int) -> int {
    (number + 0x8000_0000) % 0x1_0000_0000 - 0x8000_0000
}

/// Finds where a number ends.
fn find_number_end(bytes: &[u8], p: usize, max: usize) -> (end: Option<usize>)
    requires
        p <= bytes@.len(),
    ensures
        match number_end(bytes@, p as int, max as nat) {
            Some(q) => end is Some && end->0 == q && p < q <= bytes@.len() && q - p <= max,
            None => end is None,
        },
    decreases max,
{
    if max == 0 || p >= bytes.len() {
        None
    } else if bytes[p] < 128 {
        Some(p + 1)
    } else {
        find_number_end(bytes, p + 1, max - 1)
    }
}

/// Reads the number in at most five bytes.
fn read_raw(bytes: &[u8], p: usize, end: usize) -> (raw: u64)
    requires
        p <= end <= bytes@.len(),
        end - p <= 5,
    ensures
        raw == raw_number(bytes@, p as int, end as int),
        raw < 0x8_0000_0000,
{
    let mut i: usize = end;
    let mut raw: u64 = 0;
    while i > p
        invariant
            p <= i <= end <= bytes@.len(),
            end - p <= 5,
            raw == raw_number(bytes@, i as int, end as int),
            end - i == 0 ==> raw == 0,
            end - i == 1 ==> raw < 0x80,
            end - i == 2 ==> raw < 0x4000,
            end - i == 3 ==> raw < 0x20_0000,
            end - i == 4 ==> raw < 0x1000_0000,
            end - i == 5 ==> raw < 0x8_0000_0000,
        decreases i,
    {
        i -= 1;
        raw = (bytes[i] % 128) as u64 + 128 * raw;
    }
    raw
}

/// Gives the number that a raw number with its sign in the lowest bit stands for.
fn to_signed(raw: u64) -> (number: i64)
    requires
        raw < 0x8_0000_0000,
    ensures
        number == signed(raw as int),
        -0x4_0000_0000 <= number < 0x4_0000_0000,
{
    if raw % 2 == 0 {
        (raw / 2) as i64
    } else {
        -((raw / 2) as i64) - 1
    }
}

/// Gives the number with the lowest 16 bits of this one.
fn to_low16(number: i64) -> (low: i16)
    requires
        -0x4_0000_0000 <= number < 0x4_0000_0000,
    ensures
        low == low16(number as int),
{
    let moved: u64 = (number + 0x8000 + 0x10_0000_0000) as u64;
    let rest: u64 = moved % 0x1_0000;
    assert(rest == (number + 0x8000) % 0x1_0000);
    (rest as i64 - 0x8000) as i16
}

/// Gives the number with the lowest 32 bits of this one.
fn to_low32(number: i64) -> (low: i32)
    requires
        -0x4_0000_0000 <= number < 0x8_0000_0000,
    ensures
        low == low32(number as int),
{
    let moved: u64 = (number + 0x8000_0000 + 0x10_0000_0000) as u64;
    let rest: u64 = moved % 0x1_0000_0000;
    assert(rest == (number + 0x8000_0000) % 0x1_0000_0000);
    (rest as i64 - 0x8000_0000) as i32
}

/// After a number of at most `max` bytes.
pub open spec fn after_number(bytes: Seq<u8>, p: int, max: nat) -> Outcome {
    match number_end(bytes, p, max) {
        Some(q) => Outcome::At(q),
        None => Outcome::Fails,
    }
}

/// After a fixed number of bytes.
pub open spec fn after_width(bytes: Seq<u8>, p: int, width: int) -> Outcome {
    if p + width <= bytes.len() {
        Outcome::At(p + width)
    } else {
        Outcome::Fails
    }
}

/// After a truth value that takes a byte of its own.
pub open spec fn after_flag(bytes: Seq<u8>, p: int) -> Outcome {
    if p < bytes.len() && (bytes[p] == 1 || bytes[p] == 2) {
        Outcome::At(p + 1)
    } else {
        Outcome::Fails
    }
}

/// The number of bytes that a text or bytes announce, and where they start.
pub open spec fn bytes_header(bytes: Seq<u8>, p: int) -> Option<(int, int)> {
    match number_end(bytes, p, 5) {
        Some(q) => Some((raw_number(bytes, p, q) % 0x1_0000_0000, q)),
        None => None,
    }
}

/// After a text or bytes. Space for them is set aside before they are read.
pub open spec fn after_bytes(bytes: Seq<u8>, p: int) -> Outcome {
    match bytes_header(bytes, p) {
        Some((n, q)) => if q + n <= bytes.len() {
            Outcome::At(q + n)
        } else if n <= isize::MAX {
            Outcome::Fails
        } else {
            Outcome::Unclear
        },
        None => Outcome::Fails,
    }
}

/// The number of items that a list announces, their wire type, and where they start.
pub open spec fn list_header(bytes: Seq<u8>, p: int) -> Option<(int, u8, int)> {
    if p >= bytes.len() {
        None
    } else {
        let wire = bytes[p] % 16;
        let short = bytes[p] / 16;
        if wire == 2 || wire > 12 {
            None
        } else if short != 15 {
            Some((short as int, wire, p + 1))
        } else {
            match number_end(bytes, p + 1, 5) {
                Some(q) => Some((low32(raw_number(bytes, p + 1, q)), wire, q)),
                None => None,
            }
        }
    }
}

/// Scans a number of at most `max` bytes.
fn scan_number(bytes: &[u8], p: usize, max: usize) -> (step: Step)
    requires
        p <= bytes@.len(),
    ensures
        step@ == after_number(bytes@, p as int, max as nat),
        step matches Step::At(q) ==> p < q <= bytes@.len(),
{
    match find_number_end(bytes, p, max) {
        Some(q) => Step::At(q),
        None => Step::Fails,
    }
}

/// Scans a fixed number of bytes.
fn scan_width(bytes: &[u8], p: usize, width: usize) -> (step: Step)
    requires
        p <= bytes@.len(),
        0 < width,
    ensures
        step@ == after_width(bytes@, p as int, width as int),
        step matches Step::At(q) ==> p < q <= bytes@.len(),
{
    if width <= bytes.len() - p {
        Step::At(p + width)
    } else {
        Step::Fails
    }
}

/// Scans a truth value that takes a byte of its own.
fn scan_flag(bytes: &[u8], p: usize) -> (step: Step)
    requires
        p <= bytes@.len(),
    ensures
        step@ == after_flag(bytes@, p as int),
        step matches Step::At(q) ==> p < q <= bytes@.len(),
{
    if p < bytes.len() && (bytes[p] == 1 || bytes[p] == 2) {
        Step::At(p + 1)
    } else {
        Step::Fails
    }
}

/// Reads the number of bytes that a text or bytes announce, and where they start.
fn read_bytes_header(bytes: &[u8], p: usize) -> (header: Option<(u64, usize)>)
    requires
        p <= bytes@.len(),
    ensures
        match bytes_header(bytes@, p as int) {
            Some((n, q)) => header matches Some((m, r)) && m == n && r == q && p < r <= bytes@.len()
                && m < 0x1_0000_0000,
            None => header is None,
        },
{
    match find_number_end(bytes, p, 5) {
        Some(q) => Some((read_raw(bytes, p, q) % 0x1_0000_0000, q)),
        None => None,
    }
}

/// Scans a text or bytes.
fn scan_bytes(bytes: &[u8], p: usize) -> (step: Step)
    requires
        p <= bytes@.len(),
    ensures
        step@ == after_bytes(bytes@, p as int),
        step matches Step::At(q) ==> p < q <= bytes@.len(),
{
    match read_bytes_header(bytes, p) {
        Some((n, q)) => {
            let rest: u64 = (bytes.len() - q) as u64;
            if n <= rest {
                Step::At(q + n as usize)
            } else if n <= isize::MAX as u64 {
                Step::Fails
            } else {
                Step::Unclear
            }
        },
        None => Step::Fails,
    }
}

/// Reads the number of items that a list announces, their wire type, and where they start.
fn read_list_header(bytes: &[u8], p: usize) -> (header: Option<(i32, u8, usize)>)
    requires
        p <= bytes@.len(),
    ensures
        match list_header(bytes@, p as int) {
            Some((n, wire, q)) => header matches Some((m, w, r)) && m == n && w == wire && r == q
                && p < r <= bytes@.len(),
            None => header is None,
        },
{
    if p >= bytes.len() {
        return None;
    }
    let wire: u8 = bytes[p] % 16;
    let short: u8 = bytes[p] / 16;
    if wire == 2 || wire > 12 {
        None
    } else if short != 15 {
        Some((short as i32, wire, p + 1))
    } else {
        match find_number_end(bytes, p + 1, 5) {
            Some(q) => Some((to_low32(read_raw(bytes, p + 1, q) as i64), wire, q)),
            None => None,
        }
    }
}

/// The header of a field.
pub enum Header {
    /// The record ends before this position.
    Stop(int),
    /// The number of the field, its wire type, and where its value starts.
    Entry { id: i16, wire: u8, next: int },
    Fails,
    Unclear,
}

/// The header of a field of bytes.
#[derive(Clone, Copy, Debug, PartialEq, Eq, Structural)]
pub enum FieldHeader {
    Stop(usize),
    Entry { id: i16, wire: u8, next: usize },
    Fails,
    Unclear,
}

impl View for FieldHeader {
    type V = Header;

    open spec fn view(&self) -> Header {
        match self {
            FieldHeader::Stop(p) => Header::Stop(*p as int),
            FieldHeader::Entry { id, wire, next } => Header::Entry {
                id: *id,
                wire: *wire,
                next: *next as int,
            },
            FieldHeader::Fails => Header::Fails,
            FieldHeader::Unclear => Header::Unclear,
        }
    }
}

/// The header of a field. The number of a field is given by its distance from the last one
/// or on its own.
pub open spec fn header(bytes: Seq<u8>, p: int, last: i16) -> Header {
    if p >= bytes.len() {
        Header::Fails
    } else {
        let wire = bytes[p] % 16;
        let distance = bytes[p] / 16;
        if wire > 12 {
            Header::Fails
        } else if wire == 0 {
            Header::Stop(p + 1)
        } else if distance != 0 {
            if last + distance > i16::MAX {
                Header::Unclear
            } else {
                Header::Entry { id: (last + distance) as i16, wire, next: p + 1 }
            }
        } else {
            match number_end(bytes, p + 1, 3) {
                Some(q) => Header::Entry {
                    id: low16(signed(raw_number(bytes, p + 1, q))) as i16,
                    wire,
                    next: q,
                },
                None => Header::Fails,
            }
        }
    }
}

/// Reads the header of a field.
fn read_header(bytes: &[u8], p: usize, last: i16) -> (found: FieldHeader)
    requires
        p <= bytes@.len(),
    ensures
        found@ == header(bytes@, p as int, last),
        found matches FieldHeader::Stop(next) ==> p < next <= bytes@.len(),
        found matches FieldHeader::Entry { next, .. } ==> p < next <= bytes@.len(),
{
    if p >= bytes.len() {
        return FieldHeader::Fails;
    }
    let wire: u8 = bytes[p] % 16;
    let distance: u8 = bytes[p] / 16;
    if wire > 12 {
        FieldHeader::Fails
    } else if wire == 0 {
        FieldHeader::Stop(p + 1)
    } else if distance != 0 {
        if last as i32 + distance as i32 > i16::MAX as i32 {
            FieldHeader::Unclear
        } else {
            FieldHeader::Entry { id: last + distance as i16, wire, next: p + 1 }
        }
    } else {
        match find_number_end(bytes, p + 1, 3) {
            Some(q) => FieldHeader::Entry {
                id: to_low16(to_signed(read_raw(bytes, p + 1, q))),
                wire,
                next: q,
            },
            None => FieldHeader::Fails,
        }
    }
}

/// Whether this is a wire type that items of lists and maps can have.
pub open spec fn is_item_type(wire: u8) -> bool {
    wire != 2 && wire <= 12
}

/// After a value that is skipped by its wire type. A list or a map of a negative size has
/// no items. Values lie in each other at most as
/// deep as this.
pub open spec fn after_skipped(bytes: Seq<u8>, p: int, wire: u8, depth: nat) -> Outcome
    decreases bytes.len() - p, 1int,
{
    if depth == 0 {
        Outcome::Fails
    } else {
        match wire {
            1 => after_flag(bytes, p),
            3 => after_width(bytes, p, 1),
            4 => after_number(bytes, p, 3),
            5 => after_number(bytes, p, 5),
            6 => after_number(bytes, p, 10),
            7 => after_width(bytes, p, 8),
            8 => after_bytes(bytes, p),
            9 | 10 => match list_header(bytes, p) {
                Some((n, item, q)) => if n < 0 {
                    Outcome::At(q)
                } else if p < q <= bytes.len() {
                    after_skipped_items(bytes, q, n as nat, item, (depth - 1) as nat)
                } else {
                    Outcome::Fails
                },
                None => Outcome::Fails,
            },
            11 => match number_end(bytes, p, 5) {
                Some(q) => {
                    let n = low32(raw_number(bytes, p, q));
                    if n == 0 {
                        Outcome::At(q)
                    } else if !(p < q < bytes.len()) || !is_item_type(bytes[q] / 16)
                        || !is_item_type(bytes[q] % 16) {
                        Outcome::Fails
                    } else if n < 0 {
                        Outcome::At(q + 1)
                    } else {
                        after_skipped_pairs(
                            bytes,
                            q + 1,
                            n as nat,
                            bytes[q] / 16,
                            bytes[q] % 16,
                            (depth - 1) as nat,
                        )
                    }
                },
                None => Outcome::Fails,
            },
            12 => after_skipped_fields(bytes, p, 0, (depth - 1) as nat),
            _ => Outcome::Fails,
        }
    }
}

/// After the items of a list that is skipped.
pub open spec fn after_skipped_items(
    bytes: Seq<u8>,
    p: int,
    n: nat,
    wire: u8,
    depth: nat,
) -> Outcome
    decreases bytes.len() - p, 2int,
{
    if n == 0 {
        Outcome::At(p)
    } else {
        match after_skipped(bytes, p, wire, depth) {
            Outcome::At(q) => if p < q <= bytes.len() {
                after_skipped_items(bytes, q, (n - 1) as nat, wire, depth)
            } else {
                Outcome::Fails
            },
            other => other,
        }
    }
}

/// After the pairs of a map that is skipped.
pub open spec fn after_skipped_pairs(
    bytes: Seq<u8>,
    p: int,
    n: nat,
    key: u8,
    value: u8,
    depth: nat,
) -> Outcome
    decreases bytes.len() - p, 2int,
{
    if n == 0 {
        Outcome::At(p)
    } else {
        match after_skipped(bytes, p, key, depth) {
            Outcome::At(q) => if p < q <= bytes.len() {
                match after_skipped(bytes, q, value, depth) {
                    Outcome::At(r) => if q < r <= bytes.len() {
                        after_skipped_pairs(bytes, r, (n - 1) as nat, key, value, depth)
                    } else {
                        Outcome::Fails
                    },
                    other => other,
                }
            } else {
                Outcome::Fails
            },
            other => other,
        }
    }
}

/// After the fields of a record that is skipped.
pub open spec fn after_skipped_fields(bytes: Seq<u8>, p: int, last: i16, depth: nat) -> Outcome
    decreases bytes.len() - p, 0int,
{
    match header(bytes, p, last) {
        Header::Stop(q) => Outcome::At(q),
        Header::Entry { id, wire, next } => if p < next <= bytes.len() {
            match after_skipped_field(bytes, next, wire, depth) {
                Outcome::At(q) => if next <= q <= bytes.len() {
                    after_skipped_fields(bytes, q, id, depth)
                } else {
                    Outcome::Fails
                },
                other => other,
            }
        } else {
            Outcome::Fails
        },
        Header::Fails => Outcome::Fails,
        Header::Unclear => Outcome::Unclear,
    }
}

/// After the value of a field that is skipped. A truth value lies in the header.
pub open spec fn after_skipped_field(bytes: Seq<u8>, p: int, wire: u8, depth: nat) -> Outcome
    decreases bytes.len() - p, 2int,
{
    if depth > 0 && (wire == 1 || wire == 2) {
        Outcome::At(p)
    } else {
        after_skipped(bytes, p, wire, depth)
    }
}

/// Scans a value that is skipped by its wire type.
fn skip_value(bytes: &[u8], p: usize, wire: u8, depth: usize) -> (step: Step)
    requires
        p <= bytes@.len(),
    ensures
        step@ == after_skipped(bytes@, p as int, wire, depth as nat),
        step matches Step::At(q) ==> p < q <= bytes@.len(),
    decreases depth, 0int,
{
    if depth == 0 {
        return Step::Fails;
    }
    match wire {
        1 => scan_flag(bytes, p),
        3 => scan_width(bytes, p, 1),
        4 => scan_number(bytes, p, 3),
        5 => scan_number(bytes, p, 5),
        6 => scan_number(bytes, p, 10),
        7 => scan_width(bytes, p, 8),
        8 => scan_bytes(bytes, p),
        9 | 10 => match read_list_header(bytes, p) {
            Some((n, item, q)) => if n < 0 {
                Step::At(q)
            } else {
                skip_items(bytes, q, n as u32, item, depth - 1)
            },
            None => Step::Fails,
        },
        11 => match find_number_end(bytes, p, 5) {
            Some(q) => {
                let n: i32 = to_low32(read_raw(bytes, p, q) as i64);
                if n == 0 {
                    return Step::At(q);
                }
                if q >= bytes.len() {
                    return Step::Fails;
                }
                let key: u8 = bytes[q] / 16;
                let value: u8 = bytes[q] % 16;
                if key == 2 || key > 12 || value == 2 || value > 12 {
                    Step::Fails
                } else if n < 0 {
                    Step::At(q + 1)
                } else {
                    skip_pairs(bytes, q + 1, n as u32, key, value, depth - 1)
                }
            },
            None => Step::Fails,
        },
        12 => skip_fields(bytes, p, depth - 1),
        _ => Step::Fails,
    }
}

/// Scans the items of a list that is skipped.
fn skip_items(bytes: &[u8], start: usize, n: u32, wire: u8, depth: usize) -> (step: Step)
    requires
        start <= bytes@.len(),
    ensures
        step@ == after_skipped_items(bytes@, start as int, n as nat, wire, depth as nat),
        step matches Step::At(q) ==> start <= q <= bytes@.len(),
    decreases depth, 1int,
{
    let mut p: usize = start;
    let mut left: u32 = n;
    while left > 0
        invariant
            start <= p <= bytes@.len(),
            after_skipped_items(bytes@, start as int, n as nat, wire, depth as nat)
                == after_skipped_items(bytes@, p as int, left as nat, wire, depth as nat),
        decreases left,
    {
        match skip_value(bytes, p, wire, depth) {
            Step::At(q) => {
                p = q;
                left -= 1;
            },
            other => return other,
        }
    }
    Step::At(p)
}

/// Scans the pairs of a map that is skipped.
fn skip_pairs(bytes: &[u8], start: usize, n: u32, key: u8, value: u8, depth: usize) -> (step: Step)
    requires
        start <= bytes@.len(),
    ensures
        step@ == after_skipped_pairs(bytes@, start as int, n as nat, key, value, depth as nat),
        step matches Step::At(q) ==> start <= q <= bytes@.len(),
    decreases depth, 1int,
{
    let mut p: usize = start;
    let mut left: u32 = n;
    while left > 0
        invariant
            start <= p <= bytes@.len(),
            after_skipped_pairs(bytes@, start as int, n as nat, key, value, depth as nat)
                == after_skipped_pairs(bytes@, p as int, left as nat, key, value, depth as nat),
        decreases left,
    {
        match skip_value(bytes, p, key, depth) {
            Step::At(q) => match skip_value(bytes, q, value, depth) {
                Step::At(r) => {
                    p = r;
                    left -= 1;
                },
                other => return other,
            },
            other => return other,
        }
    }
    Step::At(p)
}

/// Scans the fields of a record that is skipped.
fn skip_fields(bytes: &[u8], start: usize, depth: usize) -> (step: Step)
    requires
        start <= bytes@.len(),
    ensures
        step@ == after_skipped_fields(bytes@, start as int, 0, depth as nat),
        step matches Step::At(q) ==> start < q <= bytes@.len(),
    decreases depth, 2int,
{
    let mut p: usize = start;
    let mut last: i16 = 0;
    loop
        invariant
            start <= p <= bytes@.len(),
            after_skipped_fields(bytes@, start as int, 0, depth as nat) == after_skipped_fields(
                bytes@,
                p as int,
                last,
                depth as nat,
            ),
        decreases bytes@.len() - p,
    {
        match read_header(bytes, p, last) {
            FieldHeader::Stop(q) => return Step::At(q),
            FieldHeader::Entry { id, wire, next } => match skip_field(bytes, next, wire, depth) {
                Step::At(q) => {
                    p = q;
                    last = id;
                },
                other => return other,
            },
            FieldHeader::Fails => return Step::Fails,
            FieldHeader::Unclear => return Step::Unclear,
        }
    }
}

/// Scans the value of a field that is skipped.
fn skip_field(bytes: &[u8], p: usize, wire: u8, depth: usize) -> (step: Step)
    requires
        p <= bytes@.len(),
    ensures
        step@ == after_skipped_field(bytes@, p as int, wire, depth as nat),
        step matches Step::At(q) ==> p <= q <= bytes@.len(),
    decreases depth, 1int,
{
    if depth > 0 && (wire == 1 || wire == 2) {
        Step::At(p)
    } else {
        skip_value(bytes, p, wire, depth)
    }
}

/// How deep values that are skipped lie in each other at most.
pub const SKIP_DEPTH: usize = 64;

/// Whether the decoder can set aside space for the items of a list before it reads them.
/// An item takes less than a kilobyte. A list of many items must at least have as many
/// bytes.
pub open spec fn has_list_size(n: int, rest: int) -> bool {
    &&& 0 <= n
    &&& n * 1024 <= isize::MAX
    &&& n <= 0xFFFF || n <= rest
}

/// The shape of the items of a list, where this is the shape of a list.
pub open spec fn item_shape(shape: Shape) -> Option<Shape> {
    match shape {
        Shape::Ints => Some(Shape::Int),
        Shape::Texts => Some(Shape::Bytes),
        Shape::Records(record) => Some(Shape::Record(record)),
        _ => None,
    }
}

/// After a value of this shape.
pub open spec fn after_value(bytes: Seq<u8>, p: int, shape: Shape) -> Outcome
    decreases bytes.len() - p, 1int,
{
    match shape {
        Shape::Flag => after_flag(bytes, p),
        Shape::Byte => after_width(bytes, p, 1),
        Shape::Short => after_number(bytes, p, 3),
        Shape::Int => after_number(bytes, p, 5),
        Shape::Long => after_number(bytes, p, 10),
        Shape::Bytes => after_bytes(bytes, p),
        Shape::Record(record) => after_fields(bytes, p, record, 0, nothing_seen()),
        _ => match list_header(bytes, p) {
            Some((n, _, q)) => if !has_list_size(n, bytes.len() - q) {
                Outcome::Unclear
            } else if p < q <= bytes.len() && item_shape(shape) is Some {
                after_items(bytes, q, n as nat, item_shape(shape)->0)
            } else {
                Outcome::Fails
            },
            None => Outcome::Fails,
        },
    }
}

/// After the items of a list.
pub open spec fn after_items(bytes: Seq<u8>, p: int, n: nat, shape: Shape) -> Outcome
    decreases bytes.len() - p, 2int,
{
    if n == 0 {
        Outcome::At(p)
    } else {
        match after_value(bytes, p, shape) {
            Outcome::At(q) => if p < q <= bytes.len() {
                after_items(bytes, q, (n - 1) as nat, shape)
            } else {
                Outcome::Fails
            },
            other => other,
        }
    }
}

/// After the value of a field of a record. A truth value lies in the header, or in a byte of
/// its own where the header is of another type. One in the header of a field of another type
/// would be taken for a later one.
pub open spec fn after_field(bytes: Seq<u8>, p: int, record: Record, id: i16, wire: u8) -> Outcome
    decreases bytes.len() - p, 2int,
{
    let is_flag = wire == 1 || wire == 2;
    match expected(record, id) {
        None => after_skipped_field(bytes, p, wire, SKIP_DEPTH as nat),
        Some(shape) => if !is_flag {
            after_value(bytes, p, shape)
        } else if shape is Flag {
            Outcome::At(p)
        } else {
            Outcome::Unclear
        },
    }
}

/// How many fields of a record were read.
#[derive(Clone, Copy, Debug, PartialEq, Eq, Structural)]
pub enum Count {
    Nothing,
    /// One field that the decoder knows.
    Known,
    /// One field that it does not know.
    Unknown,
    Several,
}

/// The fields of a record that were read: how many, and a bit for each number.
#[derive(Clone, Copy, Debug, PartialEq, Eq, Structural)]
pub struct Seen {
    pub count: Count,
    pub ids: u16,
}

/// The bit of a field.
pub open spec fn id_bit(id: i16) -> u16 {
    match id {
        1 => 0x1,
        2 => 0x2,
        3 => 0x4,
        4 => 0x8,
        5 => 0x10,
        6 => 0x20,
        7 => 0x40,
        8 => 0x80,
        9 => 0x100,
        _ => 0,
    }
}

/// The bits of the fields that a record must have.
pub open spec fn required_ids(record: Record) -> u16 {
    match record {
        Record::File => 0xF,
        Record::Element => 0x8,
        Record::Decimal => 0x3,
        Record::Time => 0x3,
        Record::Integer => 0x3,
        Record::RowGroup => 0x7,
        Record::Chunk => 0x2,
        Record::Column => 0x17F,
        Record::KeyValue => 0x1,
        Record::SortingColumn => 0x7,
        Record::PageEncoding => 0x7,
        Record::ColumnKey => 0x1,
        _ => 0,
    }
}

/// No field.
pub open spec fn nothing_seen() -> Seen {
    Seen { count: Count::Nothing, ids: 0 }
}

impl Seen {
    /// The fields with one more.
    pub open spec fn with(self, record: Record, id: i16) -> Seen {
        Seen {
            count: match self.count {
                Count::Nothing => if expected(record, id) is Some {
                    Count::Known
                } else {
                    Count::Unknown
                },
                _ => Count::Several,
            },
            ids: self.ids | id_bit(id),
        }
    }
}

/// After a record with these fields, which ends before a position.
pub open spec fn after_end(record: Record, seen: Seen, end: int) -> Outcome {
    if is_union(record) {
        match seen.count {
            Count::Known => Outcome::At(end),
            Count::Unknown => Outcome::Unclear,
            _ => Outcome::Fails,
        }
    } else if seen.ids & required_ids(record) == required_ids(record) {
        Outcome::At(end)
    } else {
        Outcome::Fails
    }
}

/// After the fields of a record from this position on. Before it were these fields, of which
/// the last one had this number.
pub open spec fn after_fields(
    bytes: Seq<u8>,
    p: int,
    record: Record,
    last: i16,
    seen: Seen,
) -> Outcome
    decreases bytes.len() - p, 0int,
{
    match header(bytes, p, last) {
        Header::Stop(q) => after_end(record, seen, q),
        Header::Entry { id, wire, next } => if p < next <= bytes.len() {
            match after_field(bytes, next, record, id, wire) {
                Outcome::At(q) => if next <= q <= bytes.len() {
                    after_fields(bytes, q, record, id, seen.with(record, id))
                } else {
                    Outcome::Fails
                },
                other => other,
            }
        } else {
            Outcome::Fails
        },
        Header::Fails => Outcome::Fails,
        Header::Unclear => Outcome::Unclear,
    }
}

/// After the record at this position.
pub open spec fn after_record(bytes: Seq<u8>, p: int, record: Record) -> Outcome {
    after_fields(bytes, p, record, 0, nothing_seen())
}

/// Tests whether the decoder can set aside space for the items of a list.
fn can_have_list_size(n: i32, rest: usize) -> (valid: bool)
    ensures
        valid == has_list_size(n as int, rest as int),
{
    0 <= n && n as i64 * 1024 <= isize::MAX as i64 && (n <= 0xFFFF || n as u64 <= rest as u64)
}

/// Gives the shape of the items of a list.
fn find_item_shape(shape: Shape) -> (item: Option<Shape>)
    ensures
        item == item_shape(shape),
{
    match shape {
        Shape::Ints => Some(Shape::Int),
        Shape::Texts => Some(Shape::Bytes),
        Shape::Records(record) => Some(Shape::Record(record)),
        _ => None,
    }
}

/// Scans a value of this shape.
fn scan_value(bytes: &[u8], p: usize, shape: Shape) -> (step: Step)
    requires
        p <= bytes@.len(),
    ensures
        step@ == after_value(bytes@, p as int, shape),
        step matches Step::At(q) ==> p < q <= bytes@.len(),
    decreases bytes@.len() - p, 1int,
{
    match shape {
        Shape::Flag => scan_flag(bytes, p),
        Shape::Byte => scan_width(bytes, p, 1),
        Shape::Short => scan_number(bytes, p, 3),
        Shape::Int => scan_number(bytes, p, 5),
        Shape::Long => scan_number(bytes, p, 10),
        Shape::Bytes => scan_bytes(bytes, p),
        Shape::Record(record) => scan_record(bytes, p, record),
        _ => match read_list_header(bytes, p) {
            Some((n, _, q)) => if !can_have_list_size(n, bytes.len() - q) {
                Step::Unclear
            } else {
                match find_item_shape(shape) {
                    Some(item) => scan_items(bytes, q, n as u32, item),
                    None => Step::Fails,
                }
            },
            None => Step::Fails,
        },
    }
}

/// Scans the items of a list.
fn scan_items(bytes: &[u8], start: usize, n: u32, shape: Shape) -> (step: Step)
    requires
        start <= bytes@.len(),
    ensures
        step@ == after_items(bytes@, start as int, n as nat, shape),
        step matches Step::At(q) ==> start <= q <= bytes@.len(),
    decreases bytes@.len() - start, 2int,
{
    let mut p: usize = start;
    let mut left: u32 = n;
    while left > 0
        invariant
            start <= p <= bytes@.len(),
            after_items(bytes@, start as int, n as nat, shape) == after_items(
                bytes@,
                p as int,
                left as nat,
                shape,
            ),
        decreases left,
    {
        match scan_value(bytes, p, shape) {
            Step::At(q) => {
                p = q;
                left -= 1;
            },
            other => return other,
        }
    }
    Step::At(p)
}

/// Scans the value of a field of a record.
fn scan_field(bytes: &[u8], p: usize, record: Record, id: i16, wire: u8) -> (step: Step)
    requires
        p <= bytes@.len(),
    ensures
        step@ == after_field(bytes@, p as int, record, id, wire),
        step matches Step::At(q) ==> p <= q <= bytes@.len(),
    decreases bytes@.len() - p, 2int,
{
    let is_flag: bool = wire == 1 || wire == 2;
    match find_expected(record, id) {
        None => skip_field(bytes, p, wire, SKIP_DEPTH),
        Some(shape) => {
            let expects_flag: bool = match shape {
                Shape::Flag => true,
                _ => false,
            };
            if !is_flag {
                scan_value(bytes, p, shape)
            } else if expects_flag {
                Step::At(p)
            } else {
                Step::Unclear
            }
        },
    }
}

/// Gives the bit of a field.
fn find_id_bit(id: i16) -> (bit: u16)
    ensures
        bit == id_bit(id),
{
    match id {
        1 => 0x1,
        2 => 0x2,
        3 => 0x4,
        4 => 0x8,
        5 => 0x10,
        6 => 0x20,
        7 => 0x40,
        8 => 0x80,
        9 => 0x100,
        _ => 0,
    }
}

/// Gives the bits of the fields that a record must have.
fn find_required_ids(record: Record) -> (ids: u16)
    ensures
        ids == required_ids(record),
{
    match record {
        Record::File => 0xF,
        Record::Element => 0x8,
        Record::Decimal => 0x3,
        Record::Time => 0x3,
        Record::Integer => 0x3,
        Record::RowGroup => 0x7,
        Record::Chunk => 0x2,
        Record::Column => 0x17F,
        Record::KeyValue => 0x1,
        Record::SortingColumn => 0x7,
        Record::PageEncoding => 0x7,
        Record::ColumnKey => 0x1,
        _ => 0,
    }
}

/// Adds a field to those that were read.
fn add_seen(seen: Seen, record: Record, id: i16) -> (more: Seen)
    ensures
        more == seen.with(record, id),
{
    let count: Count = match seen.count {
        Count::Nothing => if find_expected(record, id).is_some() {
            Count::Known
        } else {
            Count::Unknown
        },
        _ => Count::Several,
    };
    Seen { count, ids: seen.ids | find_id_bit(id) }
}

/// Scans the end of a record with these fields.
fn scan_end(record: Record, seen: Seen, end: usize) -> (step: Step)
    ensures
        step@ == after_end(record, seen, end as int),
        step matches Step::At(q) ==> q == end,
{
    if can_be_union(record) {
        match seen.count {
            Count::Known => Step::At(end),
            Count::Unknown => Step::Unclear,
            _ => Step::Fails,
        }
    } else if seen.ids & find_required_ids(record) == find_required_ids(record) {
        Step::At(end)
    } else {
        Step::Fails
    }
}

/// Scans a record.
fn scan_record(bytes: &[u8], start: usize, record: Record) -> (step: Step)
    requires
        start <= bytes@.len(),
    ensures
        step@ == after_record(bytes@, start as int, record),
        step matches Step::At(q) ==> start < q <= bytes@.len(),
    decreases bytes@.len() - start, 0int,
{
    let mut p: usize = start;
    let mut last: i16 = 0;
    let mut seen: Seen = Seen { count: Count::Nothing, ids: 0 };
    loop
        invariant
            start <= p <= bytes@.len(),
            after_record(bytes@, start as int, record) == after_fields(
                bytes@,
                p as int,
                record,
                last,
                seen,
            ),
        decreases bytes@.len() - p,
    {
        match read_header(bytes, p, last) {
            FieldHeader::Stop(q) => return scan_end(record, seen, q),
            FieldHeader::Entry { id, wire, next } => match scan_field(
                bytes,
                next,
                record,
                id,
                wire,
            ) {
                Step::At(q) => {
                    seen = add_seen(seen, record, id);
                    p = q;
                    last = id;
                },
                other => return other,
            },
            FieldHeader::Fails => return Step::Fails,
            FieldHeader::Unclear => return Step::Unclear,
        }
    }
}

/// Where the value of a field of a record starts, in the last occurrence of the field.
pub open spec fn field_after(
    bytes: Seq<u8>,
    p: int,
    record: Record,
    last: i16,
    wanted: i16,
) -> Option<int>
    decreases bytes.len() - p,
{
    match header(bytes, p, last) {
        Header::Entry { id, wire, next } => match after_field(bytes, next, record, id, wire) {
            Outcome::At(q) => if p < next <= q <= bytes.len() {
                match field_after(bytes, q, record, id, wanted) {
                    Some(later) => Some(later),
                    None => if id == wanted {
                        Some(next)
                    } else {
                        None
                    },
                }
            } else {
                None
            },
            _ => None,
        },
        _ => None,
    }
}

/// Where the value of a field of the record at this position starts.
pub open spec fn field_in(bytes: Seq<u8>, p: int, record: Record, wanted: i16) -> Option<int> {
    field_after(bytes, p, record, 0, wanted)
}

/// Finds where the value of a field of a record starts.
fn find_field(bytes: &[u8], start: usize, record: Record, wanted: i16) -> (found: Option<usize>)
    requires
        start <= bytes@.len(),
    ensures
        match field_in(bytes@, start as int, record, wanted) {
            Some(q) => found is Some && found->0 == q && start < q <= bytes@.len(),
            None => found is None,
        },
{
    let mut p: usize = start;
    let mut last: i16 = 0;
    let mut found: Option<usize> = None;
    loop
        invariant
            start <= p <= bytes@.len(),
            found matches Some(q) ==> start < q <= p,
            field_in(bytes@, start as int, record, wanted) == (match field_after(
                bytes@,
                p as int,
                record,
                last,
                wanted,
            ) {
                Some(later) => Some(later),
                None => match found {
                    Some(q) => Some(q as int),
                    None => None,
                },
            }),
        decreases bytes@.len() - p,
    {
        match read_header(bytes, p, last) {
            FieldHeader::Entry { id, wire, next } => match scan_field(
                bytes,
                next,
                record,
                id,
                wire,
            ) {
                Step::At(q) => {
                    if id == wanted {
                        found = Some(next);
                    }
                    p = q;
                    last = id;
                },
                _ => return found,
            },
            _ => return found,
        }
    }
}

/// The integer at a position.
pub open spec fn int_at(bytes: Seq<u8>, p: int) -> int {
    match number_end(bytes, p, 5) {
        Some(q) => low32(signed(raw_number(bytes, p, q))),
        None => 0,
    }
}

/// The value of an integer field of the record at this position.
pub open spec fn int_in(bytes: Seq<u8>, p: int, record: Record, wanted: i16) -> Option<int> {
    match field_in(bytes, p, record, wanted) {
        Some(q) => Some(int_at(bytes, q)),
        None => None,
    }
}

/// The length of a text or bytes in a field of the record at this position.
pub open spec fn length_in(bytes: Seq<u8>, p: int, record: Record, wanted: i16) -> Option<int> {
    match field_in(bytes, p, record, wanted) {
        Some(q) => match bytes_header(bytes, q) {
            Some((n, _)) => Some(n),
            None => Some(0),
        },
        None => None,
    }
}

/// Reads an integer field of a record.
fn read_int(bytes: &[u8], p: usize, record: Record, wanted: i16) -> (value: Option<i32>)
    requires
        p <= bytes@.len(),
    ensures
        match int_in(bytes@, p as int, record, wanted) {
            Some(v) => value is Some && value->0 == v,
            None => value is None,
        },
{
    match find_field(bytes, p, record, wanted) {
        Some(q) => match find_number_end(bytes, q, 5) {
            Some(end) => Some(to_low32(to_signed(read_raw(bytes, q, end)))),
            None => Some(0),
        },
        None => None,
    }
}

/// Reads the length of a text or bytes in a field of a record.
fn read_length(bytes: &[u8], p: usize, record: Record, wanted: i16) -> (length: Option<u64>)
    requires
        p <= bytes@.len(),
    ensures
        match length_in(bytes@, p as int, record, wanted) {
            Some(n) => length is Some && length->0 == n,
            None => length is None,
        },
{
    match find_field(bytes, p, record, wanted) {
        Some(q) => match read_bytes_header(bytes, q) {
            Some((n, _)) => Some(n),
            None => Some(0),
        },
        None => None,
    }
}

/// What the decoder makes of an element of the tree of columns.
#[derive(Clone, Copy, Debug, PartialEq, Eq, Structural)]
pub enum Node {
    /// A column.
    Leaf { repetition: Option<i32> },
    /// A group of this many children.
    Group { children: i32, repetition: Option<i32> },
    Fails,
    Unclear,
}

/// Whether the logical type of the element at this position is one of this number.
pub open spec fn has_logical_type(bytes: Seq<u8>, p: int, wanted: i16) -> bool {
    field_in(bytes, p, Record::Element, 10) matches Some(q) && field_in(
        bytes,
        q,
        Record::LogicalType,
        wanted,
    ) is Some
}

/// Whether the logical type of the element at this position is no integer of a width that
/// there is not.
pub open spec fn has_known_width(bytes: Seq<u8>, p: int) -> bool {
    field_in(bytes, p, Record::Element, 10) matches Some(q) ==> (field_in(
        bytes,
        q,
        Record::LogicalType,
        10,
    ) matches Some(r) ==> (field_in(bytes, r, Record::Integer, 1) matches Some(w) ==> w
        < bytes.len() && (bytes[w] == 8 || bytes[w] == 16 || bytes[w] == 32 || bytes[w] == 64)))
}

/// Whether an element is a decimal number of so many bytes that their bits cannot be
/// counted.
pub open spec fn is_oversized_decimal(bytes: Seq<u8>, p: int) -> bool {
    &&& int_in(bytes, p, Record::Element, 1) == Some(7int)
    &&& int_in(bytes, p, Record::Element, 2) matches Some(length) && length > 0xFFF_FFFF
    &&& int_in(bytes, p, Record::Element, 6) == Some(5int) || has_logical_type(bytes, p, 5)
}

/// What the decoder makes of a column in the tree of columns, at this position.
pub open spec fn leaf_at(bytes: Seq<u8>, p: int) -> Node {
    match int_in(bytes, p, Record::Element, 3) {
        None => Node::Fails,
        Some(repetition) => match int_in(bytes, p, Record::Element, 1) {
            None => Node::Unclear,
            Some(kind) => if !(0 <= kind <= 7) || kind == 7 && int_in(
                bytes,
                p,
                Record::Element,
                2,
            ).unwrap_or(-1) < 0 {
                Node::Fails
            } else if !has_known_width(bytes, p) || is_oversized_decimal(bytes, p) {
                Node::Unclear
            } else {
                Node::Leaf { repetition: Some(repetition as i32) }
            },
        },
    }
}

/// What the decoder makes of the element of the tree of columns at this position.
pub open spec fn node_at(bytes: Seq<u8>, p: int) -> Node {
    let repetition = int_in(bytes, p, Record::Element, 3);
    let converted = int_in(bytes, p, Record::Element, 6);
    let children = int_in(bytes, p, Record::Element, 5).unwrap_or(0);
    if converted matches Some(c) && !(0 <= c <= 21) {
        Node::Fails
    } else if repetition matches Some(r) && !(0 <= r <= 2) {
        Node::Fails
    } else if children == 0 {
        leaf_at(bytes, p)
    } else if converted is None && !has_known_width(bytes, p) {
        Node::Unclear
    } else {
        Node::Group {
            children: children as i32,
            repetition: match repetition {
                Some(r) => Some(r as i32),
                None => None,
            },
        }
    }
}

/// Tests whether the logical type of an element is one of this number.
fn can_have_logical_type(bytes: &[u8], p: usize, wanted: i16) -> (has: bool)
    requires
        p <= bytes@.len(),
    ensures
        has == has_logical_type(bytes@, p as int, wanted),
{
    match find_field(bytes, p, Record::Element, 10) {
        Some(q) => find_field(bytes, q, Record::LogicalType, wanted).is_some(),
        None => false,
    }
}

/// Tests whether the logical type of an element is no integer of a width that there is not.
fn can_have_known_width(bytes: &[u8], p: usize) -> (known: bool)
    requires
        p <= bytes@.len(),
    ensures
        known == has_known_width(bytes@, p as int),
{
    match find_field(bytes, p, Record::Element, 10) {
        Some(q) => match find_field(bytes, q, Record::LogicalType, 10) {
            Some(r) => match find_field(bytes, r, Record::Integer, 1) {
                Some(w) => w < bytes.len() && (bytes[w] == 8 || bytes[w] == 16 || bytes[w] == 32
                    || bytes[w] == 64),
                None => true,
            },
            None => true,
        },
        None => true,
    }
}

/// Tests whether an element is a decimal number of too many bytes.
fn can_be_oversized_decimal(bytes: &[u8], p: usize) -> (oversized: bool)
    requires
        p <= bytes@.len(),
    ensures
        oversized == is_oversized_decimal(bytes@, p as int),
{
    let fixed: bool = match read_int(bytes, p, Record::Element, 1) {
        Some(kind) => kind == 7,
        None => false,
    };
    let long: bool = match read_int(bytes, p, Record::Element, 2) {
        Some(length) => length > 0xFFF_FFFF,
        None => false,
    };
    let converted: bool = match read_int(bytes, p, Record::Element, 6) {
        Some(converted) => converted == 5,
        None => false,
    };
    fixed && long && (converted || can_have_logical_type(bytes, p, 5))
}

/// Reads what the decoder makes of a column in the tree of columns.
fn read_leaf(bytes: &[u8], p: usize) -> (node: Node)
    requires
        p <= bytes@.len(),
    ensures
        node == leaf_at(bytes@, p as int),
{
    let repetition: i32 = match read_int(bytes, p, Record::Element, 3) {
        Some(repetition) => repetition,
        None => return Node::Fails,
    };
    let kind: i32 = match read_int(bytes, p, Record::Element, 1) {
        Some(kind) => kind,
        None => return Node::Unclear,
    };
    let length: i32 = match read_int(bytes, p, Record::Element, 2) {
        Some(length) => length,
        None => -1,
    };
    if kind < 0 || kind > 7 || (kind == 7 && length < 0) {
        Node::Fails
    } else if !can_have_known_width(bytes, p) || can_be_oversized_decimal(bytes, p) {
        Node::Unclear
    } else {
        Node::Leaf { repetition: Some(repetition) }
    }
}

/// Reads what the decoder makes of an element of the tree of columns.
fn read_node(bytes: &[u8], p: usize) -> (node: Node)
    requires
        p <= bytes@.len(),
    ensures
        node == node_at(bytes@, p as int),
{
    let converted: Option<i32> = read_int(bytes, p, Record::Element, 6);
    if let Some(number) = converted {
        if number < 0 || number > 21 {
            return Node::Fails;
        }
    }
    let repetition: Option<i32> = read_int(bytes, p, Record::Element, 3);
    if let Some(number) = repetition {
        if number < 0 || number > 2 {
            return Node::Fails;
        }
    }
    let children: i32 = match read_int(bytes, p, Record::Element, 5) {
        Some(children) => children,
        None => 0,
    };
    if children == 0 {
        read_leaf(bytes, p)
    } else if converted.is_none() && !can_have_known_width(bytes, p) {
        Node::Unclear
    } else {
        Node::Group { children, repetition }
    }
}

/// What the decoder makes of the tree of columns.
pub enum Tree {
    /// A tree of this many columns.
    Columns(int),
    Fails,
    Unclear,
}

/// What the decoder makes of the rest of the elements of the tree of columns, `n` of them
/// from this position on. Before it were `roots` elements without a parent and `leaves`
/// columns, and the children of these groups are still to come. Exactly one element has no
/// parent. The tree is `sound` where that element is a group, the other groups have a
/// repetition, and levels can be counted. The level of an element without a parent does not
/// count.
pub open spec fn tree_at(
    bytes: Seq<u8>,
    p: int,
    n: nat,
    roots: int,
    groups: Seq<OpenGroup>,
    leaves: int,
    sound: bool,
) -> Tree
    decreases n,
{
    if n == 0 {
        if groups.len() > 0 {
            Tree::Unclear
        } else if roots != 1 {
            Tree::Fails
        } else if !sound {
            Tree::Unclear
        } else {
            Tree::Columns(leaves)
        }
    } else {
        let is_root = groups.len() == 0;
        let next_roots = if is_root {
            roots + 1
        } else {
            roots
        };
        match after_record(bytes, p, Record::Element) {
            Outcome::At(q) => match node_at(bytes, p) {
                Node::Leaf { repetition } => tree_at(
                    bytes,
                    q,
                    (n - 1) as nat,
                    next_roots,
                    after_node(groups, 0, 0, false),
                    leaves + 1,
                    sound && !is_root && level_under(groups, repetition) <= i16::MAX,
                ),
                Node::Group { children, repetition } => {
                    let level = if is_root {
                        0
                    } else {
                        level_under(groups, repetition)
                    };
                    tree_at(
                        bytes,
                        q,
                        (n - 1) as nat,
                        next_roots,
                        after_node(groups, children, level, false),
                        leaves,
                        sound && (is_root || repetition is Some) && level <= i16::MAX,
                    )
                },
                Node::Fails => Tree::Fails,
                Node::Unclear => Tree::Unclear,
            },
            Outcome::Fails => Tree::Fails,
            Outcome::Unclear => Tree::Unclear,
        }
    }
}

/// What the decoder makes of the tree of `n` elements at this position.
pub open spec fn whole_tree_at(bytes: Seq<u8>, p: int, n: nat) -> Tree {
    tree_at(bytes, p, n, 0, Seq::empty(), 0, true)
}

/// Counts the columns of the tree of `n` elements at this position, or gives the error or
/// the doubt that there is about it.
fn read_tree(bytes: &[u8], start: usize, n: u32) -> (columns: Result<u32, Step>)
    requires
        start <= bytes@.len(),
        n <= i32::MAX,
    ensures
        match whole_tree_at(bytes@, start as int, n as nat) {
            Tree::Columns(leaves) => columns is Ok && columns->Ok_0 == leaves,
            Tree::Fails => columns == Err::<u32, _>(Step::Fails),
            Tree::Unclear => columns == Err::<u32, _>(Step::Unclear),
        },
{
    let mut p: usize = start;
    let mut left: u32 = n;
    let mut roots: u32 = 0;
    let mut groups: Vec<OpenGroup> = Vec::new();
    let mut leaves: u32 = 0;
    let mut sound: bool = true;
    while left > 0
        invariant
            start <= p <= bytes@.len(),
            left <= n <= i32::MAX,
            roots <= n - left,
            leaves <= n - left,
            groups@.len() > 0 ==> groups@.last().left > 0,
            forall|k: int| 0 <= k < groups@.len() ==> (#[trigger] groups@[k]).level <= n - left,
            whole_tree_at(bytes@, start as int, n as nat) == tree_at(
                bytes@,
                p as int,
                left as nat,
                roots as int,
                groups@,
                leaves as int,
                sound,
            ),
        decreases left,
    {
        let is_root: bool = groups.len() == 0;
        let q: usize = match scan_record(bytes, p, Record::Element) {
            Step::At(q) => q,
            other => return Err(other),
        };
        match read_node(bytes, p) {
            Node::Leaf { repetition } => {
                let level: u32 = find_level(&groups, repetition);
                sound = sound && !is_root && level <= i16::MAX as u32;
                take_node(&mut groups, 0, 0, false);
                leaves += 1;
            },
            Node::Group { children, repetition } => {
                let level: u32 = if is_root {
                    0
                } else {
                    find_level(&groups, repetition)
                };
                sound = sound && (is_root || repetition.is_some()) && level <= i16::MAX as u32;
                take_node(&mut groups, children, level, false);
            },
            Node::Fails => return Err(Step::Fails),
            Node::Unclear => return Err(Step::Unclear),
        }
        if is_root {
            roots += 1;
        }
        p = q;
        left -= 1;
    }
    if groups.len() > 0 {
        Err(Step::Unclear)
    } else if roots != 1 {
        Err(Step::Fails)
    } else if !sound {
        Err(Step::Unclear)
    } else {
        Ok(leaves)
    }
}

/// What the decoder makes of a part of the metadata.
#[derive(Clone, Copy, Debug, PartialEq, Eq, Structural)]
pub enum Part {
    /// It goes on.
    Fine,
    Fails,
    Unclear,
}

/// Whether a bound of so many bytes can be read as a value of a physical type.
pub open spec fn has_bound_length(kind: int, length: Option<int>) -> bool {
    length matches Some(n) ==> {
        &&& kind == 0 ==> n >= 1
        &&& kind == 1 || kind == 4 ==> n >= 4
        &&& kind == 2 || kind == 5 ==> n >= 8
        &&& kind == 3 ==> n == 12
    }
}

/// Whether the bounds of statistics can be read as values of a physical type. The older
/// fields count only where both of the newer ones are missing.
pub open spec fn has_bound_lengths(bytes: Seq<u8>, p: int, kind: int) -> bool {
    let max = length_in(bytes, p, Record::Statistics, 5);
    let min = length_in(bytes, p, Record::Statistics, 6);
    if max is None && min is None {
        has_bound_length(kind, length_in(bytes, p, Record::Statistics, 1)) && has_bound_length(
            kind,
            length_in(bytes, p, Record::Statistics, 2),
        )
    } else {
        has_bound_length(kind, max) && has_bound_length(kind, min)
    }
}

/// Whether an encoding is one of those that there are.
pub open spec fn is_encoding(encoding: int) -> bool {
    encoding == 0 || 2 <= encoding <= 9
}

/// Whether the next `n` integers from this position on are encodings that there are.
pub open spec fn are_encodings(bytes: Seq<u8>, p: int, n: nat) -> bool
    decreases n,
{
    n == 0 || {
        &&& is_encoding(int_at(bytes, p))
        &&& number_end(bytes, p, 5) matches Some(q) && are_encodings(bytes, q, (n - 1) as nat)
    }
}

/// Whether the physical type, the encodings and the codec of a column are such that there
/// are.
pub open spec fn has_known_settings(bytes: Seq<u8>, p: int) -> bool {
    &&& int_in(bytes, p, Record::Column, 1) matches Some(kind) && 0 <= kind <= 7
    &&& field_in(bytes, p, Record::Column, 2) matches Some(q) && (list_header(bytes, q) matches Some(
        (n, _, r),
    ) && n >= 0 && are_encodings(bytes, r, n as nat))
    &&& int_in(bytes, p, Record::Column, 4) matches Some(codec) && 0 <= codec <= 7
}

/// Whether the null count of statistics is negative. The sign of a number is in its lowest
/// bit.
pub open spec fn has_negative_nulls(bytes: Seq<u8>, p: int) -> bool {
    field_in(bytes, p, Record::Statistics, 3) matches Some(q) && q < bytes.len() && bytes[q] % 2 == 1
}

/// What the decoder makes of the column chunk at this position.
pub open spec fn chunk_at(bytes: Seq<u8>, p: int) -> Part {
    match field_in(bytes, p, Record::Chunk, 3) {
        None => Part::Fails,
        Some(q) => if !has_known_settings(bytes, q) {
            Part::Fails
        } else {
            match field_in(bytes, q, Record::Column, 12) {
                None => Part::Fine,
                Some(r) => if has_negative_nulls(bytes, r) {
                    Part::Fails
                } else if has_bound_lengths(bytes, r, int_in(bytes, q, Record::Column, 1)->0) {
                    Part::Fine
                } else {
                    Part::Unclear
                },
            }
        },
    }
}

/// What the decoder makes of `n` column chunks from this position on.
pub open spec fn chunks_at(bytes: Seq<u8>, p: int, n: nat) -> Part
    decreases n,
{
    if n == 0 {
        Part::Fine
    } else {
        match after_record(bytes, p, Record::Chunk) {
            Outcome::At(q) => if chunk_at(bytes, p) is Fine {
                chunks_at(bytes, q, (n - 1) as nat)
            } else {
                chunk_at(bytes, p)
            },
            Outcome::Fails => Part::Fails,
            Outcome::Unclear => Part::Unclear,
        }
    }
}

/// What the decoder makes of the row group at this position, in a file of so many columns:
/// it has a chunk of each.
pub open spec fn group_at(bytes: Seq<u8>, p: int, columns: int) -> Part {
    match field_in(bytes, p, Record::RowGroup, 1) {
        None => Part::Fails,
        Some(q) => match list_header(bytes, q) {
            None => Part::Fails,
            Some((n, _, r)) => if n != columns || n < 0 {
                Part::Unclear
            } else {
                chunks_at(bytes, r, n as nat)
            },
        },
    }
}

/// What the decoder makes of `n` row groups from this position on, in a file of so many
/// columns.
pub open spec fn groups_at(bytes: Seq<u8>, p: int, n: nat, columns: int) -> Part
    decreases n,
{
    if n == 0 {
        Part::Fine
    } else {
        match after_record(bytes, p, Record::RowGroup) {
            Outcome::At(q) => if group_at(bytes, p, columns) is Fine {
                groups_at(bytes, q, (n - 1) as nat, columns)
            } else {
                group_at(bytes, p, columns)
            },
            Outcome::Fails => Part::Fails,
            Outcome::Unclear => Part::Unclear,
        }
    }
}

/// Whether the orders of columns of a file are as many as its columns, where it has any.
pub open spec fn has_column_orders(bytes: Seq<u8>, columns: int) -> bool {
    field_in(bytes, 0, Record::File, 7) matches Some(p) ==> (list_header(bytes, p) matches Some(
        (n, _, _),
    ) ==> n == columns)
}

/// Whether decoding these bytes as the metadata of a file is known to return: it ends with
/// an error, or the parts of the metadata agree with each other.
#[verifier::opaque]
pub open spec fn is_decodable(bytes: Seq<u8>) -> bool {
    match after_record(bytes, 0, Record::File) {
        Outcome::Fails => true,
        Outcome::Unclear => false,
        Outcome::At(_) => match (
            field_in(bytes, 0, Record::File, 2),
            field_in(bytes, 0, Record::File, 4),
        ) {
            (Some(schema), Some(groups)) => match (
                list_header(bytes, schema),
                list_header(bytes, groups),
            ) {
                (Some((n, _, p)), Some((m, _, q))) => n >= 0 && m >= 0 && match whole_tree_at(
                    bytes,
                    p,
                    n as nat,
                ) {
                    Tree::Columns(columns) => match groups_at(bytes, q, m as nat, columns) {
                        Part::Fine => has_column_orders(bytes, columns),
                        Part::Fails => true,
                        Part::Unclear => false,
                    },
                    Tree::Fails => true,
                    Tree::Unclear => false,
                },
                _ => true,
            },
            _ => true,
        },
    }
}

/// Tests whether a bound of so many bytes can be read as a value of a physical type.
fn can_have_bound_length(kind: i32, length: Option<u64>) -> (fits: bool)
    ensures
        fits == has_bound_length(
            kind as int,
            match length {
                Some(n) => Some(n as int),
                None => None,
            },
        ),
{
    match length {
        Some(n) => match kind {
            0 => n >= 1,
            1 | 4 => n >= 4,
            2 | 5 => n >= 8,
            3 => n == 12,
            _ => true,
        },
        None => true,
    }
}

/// Tests whether the bounds of statistics can be read as values of a physical type.
fn can_have_bound_lengths(bytes: &[u8], p: usize, kind: i32) -> (fits: bool)
    requires
        p <= bytes@.len(),
    ensures
        fits == has_bound_lengths(bytes@, p as int, kind as int),
{
    let max: Option<u64> = read_length(bytes, p, Record::Statistics, 5);
    let min: Option<u64> = read_length(bytes, p, Record::Statistics, 6);
    if max.is_none() && min.is_none() {
        can_have_bound_length(kind, read_length(bytes, p, Record::Statistics, 1))
            && can_have_bound_length(kind, read_length(bytes, p, Record::Statistics, 2))
    } else {
        can_have_bound_length(kind, max) && can_have_bound_length(kind, min)
    }
}

/// Tests whether the next `n` integers are encodings that there are.
fn can_be_encodings(bytes: &[u8], start: usize, n: u32) -> (known: bool)
    requires
        start <= bytes@.len(),
    ensures
        known == are_encodings(bytes@, start as int, n as nat),
{
    let mut p: usize = start;
    let mut left: u32 = n;
    while left > 0
        invariant
            start <= p <= bytes@.len(),
            are_encodings(bytes@, start as int, n as nat) == are_encodings(
                bytes@,
                p as int,
                left as nat,
            ),
        decreases left,
    {
        match find_number_end(bytes, p, 5) {
            Some(q) => {
                let encoding: i32 = to_low32(to_signed(read_raw(bytes, p, q)));
                if !(encoding == 0 || (2 <= encoding && encoding <= 9)) {
                    return false;
                }
                p = q;
                left -= 1;
            },
            None => return false,
        }
    }
    true
}

/// Reads the physical type of a column, if it, the encodings and the codec are such that
/// there are.
fn read_known_kind(bytes: &[u8], p: usize) -> (kind: Option<i32>)
    requires
        p <= bytes@.len(),
    ensures
        kind is Some <==> has_known_settings(bytes@, p as int),
        kind is Some ==> Some(kind->0 as int) == int_in(bytes@, p as int, Record::Column, 1),
{
    let kind: i32 = match read_int(bytes, p, Record::Column, 1) {
        Some(kind) => kind,
        None => return None,
    };
    let codec: i32 = match read_int(bytes, p, Record::Column, 4) {
        Some(codec) => codec,
        None => return None,
    };
    if kind < 0 || kind > 7 || codec < 0 || codec > 7 {
        return None;
    }
    match find_field(bytes, p, Record::Column, 2) {
        Some(q) => match read_list_header(bytes, q) {
            Some((n, _, r)) => if n >= 0 && can_be_encodings(bytes, r, n as u32) {
                Some(kind)
            } else {
                None
            },
            None => None,
        },
        None => None,
    }
}

/// Tests whether the null count of statistics is negative.
fn can_have_negative_nulls(bytes: &[u8], p: usize) -> (negative: bool)
    requires
        p <= bytes@.len(),
    ensures
        negative == has_negative_nulls(bytes@, p as int),
{
    match find_field(bytes, p, Record::Statistics, 3) {
        Some(q) => q < bytes.len() && bytes[q] % 2 == 1,
        None => false,
    }
}

/// Reads what the decoder makes of a column chunk.
fn read_chunk(bytes: &[u8], p: usize) -> (part: Part)
    requires
        p <= bytes@.len(),
    ensures
        part == chunk_at(bytes@, p as int),
{
    match find_field(bytes, p, Record::Chunk, 3) {
        None => Part::Fails,
        Some(q) => match read_known_kind(bytes, q) {
            None => Part::Fails,
            Some(kind) => match find_field(bytes, q, Record::Column, 12) {
                None => Part::Fine,
                Some(r) => if can_have_negative_nulls(bytes, r) {
                    Part::Fails
                } else if can_have_bound_lengths(bytes, r, kind) {
                    Part::Fine
                } else {
                    Part::Unclear
                },
            },
        },
    }
}

/// Reads what the decoder makes of `n` column chunks.
fn read_chunks(bytes: &[u8], start: usize, n: u32) -> (part: Part)
    requires
        start <= bytes@.len(),
    ensures
        part == chunks_at(bytes@, start as int, n as nat),
{
    let mut p: usize = start;
    let mut left: u32 = n;
    while left > 0
        invariant
            start <= p <= bytes@.len(),
            chunks_at(bytes@, start as int, n as nat) == chunks_at(bytes@, p as int, left as nat),
        decreases left,
    {
        match scan_record(bytes, p, Record::Chunk) {
            Step::At(q) => {
                match read_chunk(bytes, p) {
                    Part::Fine => {},
                    other => return other,
                }
                p = q;
                left -= 1;
            },
            Step::Fails => return Part::Fails,
            Step::Unclear => return Part::Unclear,
        }
    }
    Part::Fine
}

/// Reads what the decoder makes of a row group.
fn read_group(bytes: &[u8], p: usize, columns: u32) -> (part: Part)
    requires
        p <= bytes@.len(),
    ensures
        part == group_at(bytes@, p as int, columns as int),
{
    match find_field(bytes, p, Record::RowGroup, 1) {
        None => Part::Fails,
        Some(q) => match read_list_header(bytes, q) {
            None => Part::Fails,
            Some((n, _, r)) => if n < 0 || n as u32 != columns {
                Part::Unclear
            } else {
                read_chunks(bytes, r, n as u32)
            },
        },
    }
}

/// Reads what the decoder makes of `n` row groups.
fn read_groups(bytes: &[u8], start: usize, n: u32, columns: u32) -> (part: Part)
    requires
        start <= bytes@.len(),
    ensures
        part == groups_at(bytes@, start as int, n as nat, columns as int),
{
    let mut p: usize = start;
    let mut left: u32 = n;
    while left > 0
        invariant
            start <= p <= bytes@.len(),
            groups_at(bytes@, start as int, n as nat, columns as int) == groups_at(
                bytes@,
                p as int,
                left as nat,
                columns as int,
            ),
        decreases left,
    {
        match scan_record(bytes, p, Record::RowGroup) {
            Step::At(q) => {
                match read_group(bytes, p, columns) {
                    Part::Fine => {},
                    other => return other,
                }
                p = q;
                left -= 1;
            },
            Step::Fails => return Part::Fails,
            Step::Unclear => return Part::Unclear,
        }
    }
    Part::Fine
}

/// Tests whether the orders of columns of a file are as many as its columns.
fn can_have_column_orders(bytes: &[u8], columns: u32) -> (fits: bool)
    ensures
        fits == has_column_orders(bytes@, columns as int),
{
    match find_field(bytes, 0, Record::File, 7) {
        Some(p) => match read_list_header(bytes, p) {
            Some((n, _, _)) => n >= 0 && n as u32 == columns,
            None => true,
        },
        None => true,
    }
}

/// Tests whether decoding these bytes as the metadata of a file is known to return.
pub fn can_decode(bytes: &[u8]) -> (decodable: bool)
    ensures
        decodable == is_decodable(bytes@),
{
    proof {
        reveal(is_decodable);
    }
    match scan_record(bytes, 0, Record::File) {
        Step::Fails => return true,
        Step::Unclear => return false,
        Step::At(_) => {},
    }
    let schema: usize = match find_field(bytes, 0, Record::File, 2) {
        Some(p) => p,
        None => return true,
    };
    let groups: usize = match find_field(bytes, 0, Record::File, 4) {
        Some(p) => p,
        None => return true,
    };
    match (read_list_header(bytes, schema), read_list_header(bytes, groups)) {
        (Some((n, _, p)), Some((m, _, q))) => {
            if n < 0 || m < 0 {
                return false;
            }
            match read_tree(bytes, p, n as u32) {
                Ok(columns) => match read_groups(bytes, q, m as u32, columns) {
                    Part::Fine => can_have_column_orders(bytes, columns),
                    Part::Fails => true,
                    Part::Unclear => false,
                },
                Err(Step::Unclear) => false,
                Err(_) => true,
            }
        },
        _ => true,
    }
}

} // verus!
