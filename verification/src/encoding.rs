//! Values and their compact Thrift encoding.
//!
//! The encoding is stated from values to bytes, by itself. [`law_values_are_read_through`]
//! and what follows it say that a scan of encoded values finds them.

use vstd::prelude::*;
use crate::compact::{
    after_bytes, after_end, after_field, after_fields, after_items, after_number, after_record,
    after_skipped, after_skipped_field, after_skipped_fields, after_skipped_items,
    after_skipped_pairs, after_value, bytes_header, expected, field_after, field_in,
    has_list_size, header, id_bit, int_at, int_in, is_item_type, is_union, item_shape,
    length_in, list_header, low16, low32, nothing_seen, number_end, raw_number, required_ids,
    signed, Header, Outcome, Record, Seen, Shape, SKIP_DEPTH,
};

verus! {

/// A value of the compact Thrift encoding.
pub enum Value {
    Flag(bool),
    Byte(u8),
    Short(i16),
    Int(i32),
    Long(i64),
    /// By its 8 bytes.
    Double(Seq<u8>),
    Bytes(Seq<u8>),
    /// Items of one type, whose number in the encoding is `wire`.
    List { wire: u8, items: Seq<Value> },
    Unordered { wire: u8, items: Seq<Value> },
    Pairs { key: u8, value: u8, pairs: Seq<(Value, Value)> },
    /// A record of fields, of which the first has the id 1, and so on.
    Record(Seq<Option<Value>>),
}

impl Value {
    /// The number of the type of a field that holds the value.
    pub open spec fn wire(self) -> u8 {
        match self {
            Value::Flag(value) => if value {
                1
            } else {
                2
            },
            Value::Byte(_) => 3,
            Value::Short(_) => 4,
            Value::Int(_) => 5,
            Value::Long(_) => 6,
            Value::Double(_) => 7,
            Value::Bytes(_) => 8,
            Value::List { .. } => 9,
            Value::Unordered { .. } => 10,
            Value::Pairs { .. } => 11,
            Value::Record(_) => 12,
        }
    }

    /// The number of the type of a collection that holds the value.
    pub open spec fn item_wire(self) -> u8 {
        if self is Flag {
            1
        } else {
            self.wire()
        }
    }
}

/// A number, in groups of 7 bits from the lowest one on. All but the last have the high
/// bit set.
pub open spec fn number(n: nat) -> Seq<u8>
    decreases n,
{
    if n < 128 {
        seq![n as u8]
    } else {
        seq![(n % 128 + 128) as u8] + number(n / 128)
    }
}

/// The number that stands for a signed one: 0, -1, 1, -2, 2 and so on, in this order.
pub open spec fn zigzag(v: int) -> nat {
    if v >= 0 {
        (2 * v) as nat
    } else {
        (-2 * v - 1) as nat
    }
}

/// What stands before the items of a collection.
pub open spec fn list_head(n: nat, wire: u8) -> Seq<u8> {
    if n < 15 {
        seq![(16 * n + wire) as u8]
    } else {
        seq![(240 + wire) as u8] + number(n)
    }
}

/// What stands before a field, after one with the id `last`.
pub open spec fn field_head(last: int, id: int, wire: u8) -> Seq<u8> {
    if 0 < id - last <= 15 {
        seq![(16 * (id - last) + wire) as u8]
    } else {
        seq![wire] + number(zigzag(id))
    }
}

/// The encoding of a value.
pub open spec fn encode(value: Value) -> Seq<u8>
    decreases value, 0nat,
{
    match value {
        Value::Flag(value) => seq![
            if value {
                1u8
            } else {
                2u8
            },
        ],
        Value::Byte(value) => seq![value],
        Value::Short(value) => number(zigzag(value as int)),
        Value::Int(value) => number(zigzag(value as int)),
        Value::Long(value) => number(zigzag(value as int)),
        Value::Double(bytes) => bytes,
        Value::Bytes(bytes) => number(bytes.len()) + bytes,
        Value::List { wire, items } => list_head(items.len(), wire) + encode_items(items, 0),
        Value::Unordered { wire, items } => list_head(items.len(), wire) + encode_items(items, 0),
        Value::Pairs { key, value, pairs } => if pairs.len() == 0 {
            seq![0u8]
        } else {
            number(pairs.len()) + (seq![(16 * key + value) as u8] + encode_pairs(pairs, 0))
        },
        Value::Record(slots) => encode_slots(slots, 0, 0),
    }
}

/// The encodings of the items from `k` on.
pub open spec fn encode_items(items: Seq<Value>, k: int) -> Seq<u8>
    decreases items, items.len() - k,
{
    if !(0 <= k < items.len()) {
        Seq::empty()
    } else {
        encode(items[k]) + encode_items(items, k + 1)
    }
}

/// The encodings of the pairs from `k` on.
pub open spec fn encode_pairs(pairs: Seq<(Value, Value)>, k: int) -> Seq<u8>
    decreases pairs, pairs.len() - k,
{
    if !(0 <= k < pairs.len()) {
        Seq::empty()
    } else {
        encode(pairs[k].0) + (encode(pairs[k].1) + encode_pairs(pairs, k + 1))
    }
}

/// What a field holds after what stands before it, where a flag already is.
pub open spec fn content(value: Value) -> Seq<u8>
    decreases value, 1nat,
{
    if value is Flag {
        Seq::empty()
    } else {
        encode(value)
    }
}

/// The encodings of the fields from the one at `k` on, after one with the id `last`, and
/// of the end of the record.
pub open spec fn encode_slots(slots: Seq<Option<Value>>, k: int, last: int) -> Seq<u8>
    decreases slots, slots.len() - k,
{
    if !(0 <= k < slots.len()) {
        seq![0u8]
    } else {
        match slots[k] {
            Some(value) => field_head(last, k + 1, value.wire()) + (content(value) + encode_slots(
                slots,
                k + 1,
                k + 1,
            )),
            None => encode_slots(slots, k + 1, last),
        }
    }
}

/// Whether bytes hold a part at a place.
pub open spec fn is_at(bytes: Seq<u8>, p: int, part: Seq<u8>) -> bool {
    0 <= p && p + part.len() <= bytes.len() && bytes.subrange(p, p + part.len()) == part
}

/// What holds two parts in a row holds each of them.
pub proof fn lemma_parts(bytes: Seq<u8>, p: int, a: Seq<u8>, b: Seq<u8>)
    requires
        is_at(bytes, p, a + b),
    ensures
        is_at(bytes, p, a),
        is_at(bytes, p + a.len(), b),
{
    let whole = bytes.subrange(p, p + (a + b).len());
    assert forall|i: int| 0 <= i < a.len() implies bytes[p + i] == a[i] by {
        assert(whole[i] == (a + b)[i]);
    }
    assert(bytes.subrange(p, p + a.len()) =~= a);
    assert forall|i: int| 0 <= i < b.len() implies bytes[p + a.len() + i] == b[i] by {
        assert(whole[a.len() + i] == (a + b)[a.len() + i]);
    }
    assert(bytes.subrange(p + a.len(), p + a.len() + b.len()) =~= b);
}

/// A byte of a part.
pub proof fn lemma_byte(bytes: Seq<u8>, p: int, part: Seq<u8>, i: int)
    requires
        is_at(bytes, p, part),
        0 <= i < part.len(),
    ensures
        bytes[p + i] == part[i],
{
    assert(bytes.subrange(p, p + part.len())[i] == part[i]);
}

/// A number is read back.
proof fn lemma_number(bytes: Seq<u8>, p: int, n: nat, max: nat)
    requires
        is_at(bytes, p, number(n)),
        number(n).len() <= max,
    ensures
        number(n).len() >= 1,
        number_end(bytes, p, max) == Some(p + number(n).len()),
        raw_number(bytes, p, p + number(n).len()) == n,
    decreases n,
{
    lemma_number_width(n);
    lemma_byte(bytes, p, number(n), 0);
    if n < 128 {
        assert(raw_number(bytes, p + 1, p + 1) == 0);
    } else {
        lemma_parts(bytes, p, seq![(n % 128 + 128) as u8], number(n / 128));
        lemma_number(bytes, p + 1, n / 128, (max - 1) as nat);
        assert(bytes[p] == (n % 128 + 128) as u8);
        assert(bytes[p] % 128 == n % 128);
    }
}

/// A number takes a byte or more.
proof fn lemma_number_width(n: nat)
    ensures
        number(n).len() >= 1,
{
}

/// The first number that takes more than `k` bytes.
spec fn limit(k: nat) -> nat
    decreases k,
{
    if k == 0 {
        1
    } else {
        128 * limit((k - 1) as nat)
    }
}

/// A number below a limit takes no more bytes than that.
proof fn lemma_number_limit(n: nat, k: nat)
    requires
        k >= 1,
        n < limit(k),
    ensures
        1 <= number(n).len() <= k,
    decreases k,
{
    if n >= 128 {
        if k == 1 {
            reveal_with_fuel(limit, 2);
        }
        lemma_number_limit(n / 128, (k - 1) as nat);
    }
}

/// The limits of the widths that numbers have.
proof fn lemma_limits()
    ensures
        limit(3) == 0x20_0000,
        limit(5) == 0x8_0000_0000,
        limit(10) == 0x40_0000_0000_0000_0000,
{
    reveal_with_fuel(limit, 11);
}

/// A signed number is found again from the number that stands for it.
proof fn lemma_zigzag(v: int)
    ensures
        signed(zigzag(v) as int) == v,
        i16::MIN <= v <= i16::MAX ==> zigzag(v) < 0x1_0000 && low16(v) == v,
        i32::MIN <= v <= i32::MAX ==> zigzag(v) < 0x1_0000_0000 && low32(v) == v,
        i64::MIN <= v <= i64::MAX ==> zigzag(v) < 0x1_0000_0000_0000_0000,
{
}

/// A signed number of 16 bits is read through.
proof fn lemma_short(bytes: Seq<u8>, p: int, v: i16)
    requires
        is_at(bytes, p, number(zigzag(v as int))),
    ensures
        number(zigzag(v as int)).len() >= 1,
        after_number(bytes, p, 3) == Outcome::At(p + number(zigzag(v as int)).len()),
        number_end(bytes, p, 3) == Some(p + number(zigzag(v as int)).len()),
        low16(signed(raw_number(bytes, p, p + number(zigzag(v as int)).len()))) == v,
{
    lemma_zigzag(v as int);
    lemma_limits();
    lemma_number_limit(zigzag(v as int), 3);
    lemma_number(bytes, p, zigzag(v as int), 3);
}

/// A signed number of 32 bits is read back.
pub proof fn lemma_int(bytes: Seq<u8>, p: int, v: i32)
    requires
        is_at(bytes, p, number(zigzag(v as int))),
    ensures
        number(zigzag(v as int)).len() >= 1,
        after_number(bytes, p, 5) == Outcome::At(p + number(zigzag(v as int)).len()),
        number_end(bytes, p, 5) == Some(p + number(zigzag(v as int)).len()),
        int_at(bytes, p) == v,
{
    lemma_zigzag(v as int);
    lemma_limits();
    lemma_number_limit(zigzag(v as int), 5);
    lemma_number(bytes, p, zigzag(v as int), 5);
}

/// A signed number of 64 bits is read through. The low bit of its first byte is its sign.
pub proof fn lemma_long(bytes: Seq<u8>, p: int, v: i64)
    requires
        is_at(bytes, p, number(zigzag(v as int))),
    ensures
        number(zigzag(v as int)).len() >= 1,
        after_number(bytes, p, 10) == Outcome::At(p + number(zigzag(v as int)).len()),
        bytes[p] % 2 == 1 <==> v < 0,
{
    let n = zigzag(v as int);
    assert(1 <= number(n).len() <= 10) by {
        lemma_zigzag(v as int);
        lemma_limits();
        lemma_number_limit(n, 10);
    }
    assert(number_end(bytes, p, 10) == Some(p + number(n).len())) by {
        lemma_number(bytes, p, n, 10);
    }
    lemma_first_bit(bytes, p, n);
}

/// The low bit of the first byte of a number is that of the number.
proof fn lemma_first_bit(bytes: Seq<u8>, p: int, n: nat)
    requires
        is_at(bytes, p, number(n)),
    ensures
        bytes[p] % 2 == n % 2,
{
    lemma_number_width(n);
    lemma_byte(bytes, p, number(n), 0);
    if n >= 128 {
        assert(bytes[p] == (n % 128 + 128) as u8);
    }
}

/// A string of bytes is read back: its length, and where it ends.
pub proof fn lemma_bytes(bytes: Seq<u8>, p: int, part: Seq<u8>)
    requires
        is_at(bytes, p, number(part.len()) + part),
        part.len() <= u32::MAX,
    ensures
        number(part.len()).len() >= 1,
        bytes_header(bytes, p) == Some((part.len() as int, p + number(part.len()).len())),
        after_bytes(bytes, p) == Outcome::At(p + (number(part.len()) + part).len()),
{
    lemma_parts(bytes, p, number(part.len()), part);
    lemma_limits();
    lemma_number_limit(part.len(), 5);
    lemma_number(bytes, p, part.len(), 5);
}

/// What stands before the items of a collection is read back.
pub proof fn lemma_list_head(bytes: Seq<u8>, p: int, n: nat, wire: u8)
    requires
        is_at(bytes, p, list_head(n, wire)),
        is_item_type(wire),
        n <= i32::MAX,
    ensures
        list_head(n, wire).len() >= 1,
        list_header(bytes, p) == Some((n as int, wire, p + list_head(n, wire).len())),
{
    lemma_byte(bytes, p, list_head(n, wire), 0);
    if n < 15 {
        assert(bytes[p] == (16 * n + wire) as u8);
        assert(bytes[p] % 16 == wire);
        assert(bytes[p] / 16 == n);
    } else {
        assert(bytes[p] == (240 + wire) as u8);
        assert(bytes[p] % 16 == wire);
        assert(bytes[p] / 16 == 15);
        lemma_parts(bytes, p, seq![(240 + wire) as u8], number(n));
        lemma_limits();
        lemma_number_limit(n, 5);
        lemma_number(bytes, p + 1, n, 5);
    }
}

/// What stands before a field is read back.
proof fn lemma_field_head(bytes: Seq<u8>, p: int, last: int, id: int, wire: u8)
    requires
        is_at(bytes, p, field_head(last, id, wire)),
        0 <= last < id <= i16::MAX,
        1 <= wire <= 12,
    ensures
        field_head(last, id, wire).len() >= 1,
        header(bytes, p, last as i16) == (Header::Entry {
            id: id as i16,
            wire,
            next: p + field_head(last, id, wire).len(),
        }),
{
    lemma_byte(bytes, p, field_head(last, id, wire), 0);
    if id - last <= 15 {
        assert(bytes[p] == (16 * (id - last) + wire) as u8);
        assert(bytes[p] % 16 == wire);
        assert(bytes[p] / 16 == id - last);
    } else {
        assert(bytes[p] == wire);
        assert(bytes[p] % 16 == wire && bytes[p] / 16 == 0);
        lemma_parts(bytes, p, seq![wire], number(zigzag(id)));
        lemma_short(bytes, p + 1, id as i16);
    }
}

/// Whether a value can be skipped, where so many levels may be nested.
pub open spec fn is_skippable(value: Value, depth: nat) -> bool
    decreases value, 0nat,
{
    depth > 0 && match value {
        Value::Double(bytes) => bytes.len() == 8,
        Value::Bytes(bytes) => bytes.len() <= u32::MAX,
        Value::List { wire, items } => {
            &&& is_item_type(wire)
            &&& items.len() <= i32::MAX
            &&& are_items_skippable(items, 0, wire, (depth - 1) as nat)
        },
        Value::Unordered { wire, items } => {
            &&& is_item_type(wire)
            &&& items.len() <= i32::MAX
            &&& are_items_skippable(items, 0, wire, (depth - 1) as nat)
        },
        Value::Pairs { key, value, pairs } => {
            &&& is_item_type(key)
            &&& is_item_type(value)
            &&& pairs.len() <= i32::MAX
            &&& are_pairs_skippable(pairs, 0, key, value, (depth - 1) as nat)
        },
        Value::Record(slots) => slots.len() <= i16::MAX && are_slots_skippable(
            slots,
            0,
            (depth - 1) as nat,
        ),
        _ => true,
    }
}

/// Whether the items from `k` on can be skipped.
pub open spec fn are_items_skippable(items: Seq<Value>, k: int, wire: u8, depth: nat) -> bool
    decreases items, items.len() - k,
{
    0 <= k < items.len() ==> {
        &&& items[k].item_wire() == wire
        &&& is_skippable(items[k], depth)
        &&& are_items_skippable(items, k + 1, wire, depth)
    }
}

/// Whether the pairs from `k` on can be skipped.
pub open spec fn are_pairs_skippable(
    pairs: Seq<(Value, Value)>,
    k: int,
    key: u8,
    value: u8,
    depth: nat,
) -> bool
    decreases pairs, pairs.len() - k,
{
    0 <= k < pairs.len() ==> {
        &&& pairs[k].0.item_wire() == key
        &&& is_skippable(pairs[k].0, depth)
        &&& pairs[k].1.item_wire() == value
        &&& is_skippable(pairs[k].1, depth)
        &&& are_pairs_skippable(pairs, k + 1, key, value, depth)
    }
}

/// Whether the fields from the one at `k` on can be skipped.
pub open spec fn are_slots_skippable(slots: Seq<Option<Value>>, k: int, depth: nat) -> bool
    decreases slots, slots.len() - k,
{
    0 <= k < slots.len() ==> {
        &&& slots[k] matches Some(value) ==> is_skippable(value, depth)
        &&& are_slots_skippable(slots, k + 1, depth)
    }
}

/// A value that can be skipped takes a byte or more.
proof fn lemma_skippable_width(value: Value, depth: nat)
    requires
        is_skippable(value, depth),
    ensures
        encode(value).len() >= 1,
{
    match value {
        Value::Short(v) => lemma_number_width(zigzag(v as int)),
        Value::Int(v) => lemma_number_width(zigzag(v as int)),
        Value::Long(v) => lemma_number_width(zigzag(v as int)),
        Value::Bytes(bytes) => lemma_number_width(bytes.len()),
        Value::Pairs { pairs, .. } => lemma_number_width(pairs.len()),
        Value::Record(slots) => lemma_slots_width(slots, 0, 0),
        _ => {},
    }
}

/// The fields of a record take a byte or more, with the end of the record.
proof fn lemma_slots_width(slots: Seq<Option<Value>>, k: int, last: int)
    ensures
        encode_slots(slots, k, last).len() >= 1,
    decreases slots.len() - k,
{
    if 0 <= k < slots.len() {
        lemma_slots_width(slots, k + 1, last);
        lemma_slots_width(slots, k + 1, k + 1);
    }
}

/// A value that can be skipped is skipped.
#[verifier::rlimit(30)]
proof fn lemma_skipped(bytes: Seq<u8>, p: int, value: Value, depth: nat)
    requires
        is_at(bytes, p, encode(value)),
        is_skippable(value, depth),
    ensures
        after_skipped(bytes, p, value.item_wire(), depth) == Outcome::At(p + encode(value).len()),
    decreases value, 0nat,
{
    match value {
        Value::Flag(_) => lemma_byte(bytes, p, encode(value), 0),
        Value::Byte(_) => {},
        Value::Short(v) => lemma_short(bytes, p, v),
        Value::Int(v) => lemma_int(bytes, p, v),
        Value::Long(v) => lemma_long(bytes, p, v),
        Value::Double(_) => {},
        Value::Bytes(part) => lemma_bytes(bytes, p, part),
        Value::List { wire, items } => {
            lemma_parts(bytes, p, list_head(items.len(), wire), encode_items(items, 0));
            lemma_list_head(bytes, p, items.len(), wire);
            let q = p + list_head(items.len(), wire).len();
            lemma_skipped_items(bytes, q, items, 0, wire, (depth - 1) as nat);
        },
        Value::Unordered { wire, items } => {
            lemma_parts(bytes, p, list_head(items.len(), wire), encode_items(items, 0));
            lemma_list_head(bytes, p, items.len(), wire);
            let q = p + list_head(items.len(), wire).len();
            lemma_skipped_items(bytes, q, items, 0, wire, (depth - 1) as nat);
        },
        Value::Pairs { key, value: wire, pairs } => {
            if pairs.len() == 0 {
                lemma_byte(bytes, p, seq![0u8], 0);
                assert(number(0) =~= seq![0u8]);
                lemma_number(bytes, p, 0, 5);
            } else {
                let types = seq![(16 * key + wire) as u8];
                let rest = encode_pairs(pairs, 0);
                lemma_parts(bytes, p, number(pairs.len()), types + rest);
                let q = p + number(pairs.len()).len();
                lemma_parts(bytes, q, types, rest);
                lemma_byte(bytes, q, types, 0);
                lemma_limits();
                lemma_number_limit(pairs.len(), 5);
                lemma_number(bytes, p, pairs.len(), 5);
                assert(bytes[q] == (16 * key + wire) as u8);
                assert(bytes[q] / 16 == key && bytes[q] % 16 == wire);
                lemma_skipped_pairs(bytes, q + 1, pairs, 0, key, wire, (depth - 1) as nat);
            }
        },
        Value::Record(slots) => {
            lemma_skipped_slots(bytes, p, slots, 0, 0, (depth - 1) as nat);
        },
    }
}

/// Items that can be skipped are skipped.
proof fn lemma_skipped_items(
    bytes: Seq<u8>,
    p: int,
    items: Seq<Value>,
    k: int,
    wire: u8,
    depth: nat,
)
    requires
        is_at(bytes, p, encode_items(items, k)),
        0 <= k <= items.len(),
        are_items_skippable(items, k, wire, depth),
    ensures
        after_skipped_items(bytes, p, (items.len() - k) as nat, wire, depth) == Outcome::At(
            p + encode_items(items, k).len(),
        ),
    decreases items, items.len() - k,
{
    if k < items.len() {
        let part = encode(items[k]);
        lemma_parts(bytes, p, part, encode_items(items, k + 1));
        lemma_skippable_width(items[k], depth);
        lemma_skipped(bytes, p, items[k], depth);
        lemma_skipped_items(bytes, p + part.len(), items, k + 1, wire, depth);
    }
}

/// Pairs that can be skipped are skipped.
proof fn lemma_skipped_pairs(
    bytes: Seq<u8>,
    p: int,
    pairs: Seq<(Value, Value)>,
    k: int,
    key: u8,
    value: u8,
    depth: nat,
)
    requires
        is_at(bytes, p, encode_pairs(pairs, k)),
        0 <= k <= pairs.len(),
        are_pairs_skippable(pairs, k, key, value, depth),
    ensures
        after_skipped_pairs(bytes, p, (pairs.len() - k) as nat, key, value, depth) == Outcome::At(
            p + encode_pairs(pairs, k).len(),
        ),
    decreases pairs, pairs.len() - k,
{
    if k < pairs.len() {
        let a = encode(pairs[k].0);
        let b = encode(pairs[k].1);
        let rest = encode_pairs(pairs, k + 1);
        lemma_parts(bytes, p, a, b + rest);
        lemma_parts(bytes, p + a.len(), b, rest);
        lemma_skippable_width(pairs[k].0, depth);
        lemma_skippable_width(pairs[k].1, depth);
        lemma_skipped(bytes, p, pairs[k].0, depth);
        lemma_skipped(bytes, p + a.len(), pairs[k].1, depth);
        lemma_skipped_pairs(bytes, p + a.len() + b.len(), pairs, k + 1, key, value, depth);
    }
}

/// Fields that can be skipped are skipped.
proof fn lemma_skipped_slots(
    bytes: Seq<u8>,
    p: int,
    slots: Seq<Option<Value>>,
    k: int,
    last: int,
    depth: nat,
)
    requires
        is_at(bytes, p, encode_slots(slots, k, last)),
        0 <= last <= k <= slots.len() <= i16::MAX,
        are_slots_skippable(slots, k, depth),
    ensures
        after_skipped_fields(bytes, p, last as i16, depth) == Outcome::At(
            p + encode_slots(slots, k, last).len(),
        ),
    decreases slots, slots.len() - k,
{
    if k >= slots.len() {
        lemma_byte(bytes, p, encode_slots(slots, k, last), 0);
    } else {
        match slots[k] {
            Some(value) => {
                let head = field_head(last, k + 1, value.wire());
                let rest = encode_slots(slots, k + 1, k + 1);
                let body = content(value);
                lemma_parts(bytes, p, head, body + rest);
                lemma_parts(bytes, p + head.len(), body, rest);
                lemma_field_head(bytes, p, last, k + 1, value.wire());
                if !(value is Flag) {
                    lemma_skipped(bytes, p + head.len(), value, depth);
                }
                assert(is_skippable(value, depth));
                assert(after_skipped_field(bytes, p + head.len(), value.wire(), depth)
                    == Outcome::At(p + head.len() + body.len()));
                lemma_skipped_slots(
                    bytes,
                    p + head.len() + body.len(),
                    slots,
                    k + 1,
                    k + 1,
                    depth,
                );
            },
            None => lemma_skipped_slots(bytes, p, slots, k + 1, last, depth),
        }
    }
}

/// Whether a value is of a shape, to be read in a record that expects it.
pub open spec fn fits(value: Value, shape: Shape) -> bool
    decreases value, 0nat,
{
    match (value, shape) {
        (Value::Byte(_), Shape::Byte) => true,
        (Value::Short(_), Shape::Short) => true,
        (Value::Int(_), Shape::Int) => true,
        (Value::Long(_), Shape::Long) => true,
        (Value::Bytes(bytes), Shape::Bytes) => bytes.len() <= u32::MAX,
        (Value::Record(slots), Shape::Record(record)) => {
            &&& slots.len() <= i16::MAX
            &&& fit_slots(slots, 0, record)
            &&& after_end(record, seen_in(slots, 0, record, nothing_seen()), 0) is At
        },
        (Value::List { wire, items }, _) => {
            &&& is_item_type(wire)
            &&& items.len() <= i32::MAX
            &&& item_shape(shape) is Some
            &&& fit_items(items, 0, item_shape(shape)->0)
        },
        _ => false,
    }
}

/// Whether the items from `k` on are of a shape.
pub open spec fn fit_items(items: Seq<Value>, k: int, shape: Shape) -> bool
    decreases items, items.len() - k,
{
    0 <= k < items.len() ==> fits(items[k], shape) && fit_items(items, k + 1, shape)
}

/// Whether the fields from the one at `k` on are as a record expects them. Those that it
/// does not know are skipped.
pub open spec fn fit_slots(slots: Seq<Option<Value>>, k: int, record: Record) -> bool
    decreases slots, slots.len() - k,
{
    0 <= k < slots.len() ==> {
        &&& slots[k] matches Some(value) ==> match expected(record, (k + 1) as i16) {
            Some(shape) => if value is Flag {
                shape is Flag
            } else {
                fits(value, shape)
            },
            None => is_skippable(value, SKIP_DEPTH as nat),
        }
        &&& fit_slots(slots, k + 1, record)
    }
}

/// What has been seen of a record after the fields from the one at `k` on.
pub open spec fn seen_in(slots: Seq<Option<Value>>, k: int, record: Record, seen: Seen) -> Seen
    decreases slots.len() - k,
{
    if !(0 <= k < slots.len()) {
        seen
    } else if slots[k] is Some {
        seen_in(slots, k + 1, record, seen.with(record, (k + 1) as i16))
    } else {
        seen_in(slots, k + 1, record, seen)
    }
}

/// Whether there is memory for a list of as many items as there are bytes.
pub open spec fn is_small(bytes: Seq<u8>) -> bool {
    bytes.len() * 1024 <= isize::MAX
}

/// A value of a shape takes a byte or more.
proof fn lemma_width(value: Value, shape: Shape)
    requires
        fits(value, shape),
    ensures
        encode(value).len() >= 1,
{
    match value {
        Value::Short(v) => lemma_number_width(zigzag(v as int)),
        Value::Int(v) => lemma_number_width(zigzag(v as int)),
        Value::Long(v) => lemma_number_width(zigzag(v as int)),
        Value::Bytes(bytes) => lemma_number_width(bytes.len()),
        Value::Record(slots) => lemma_slots_width(slots, 0, 0),
        _ => {},
    }
}

/// Items of a shape take a byte or more each.
proof fn lemma_items_width(items: Seq<Value>, k: int, shape: Shape)
    requires
        0 <= k <= items.len(),
        fit_items(items, k, shape),
    ensures
        encode_items(items, k).len() >= items.len() - k,
    decreases items.len() - k,
{
    if k < items.len() {
        lemma_width(items[k], shape);
        lemma_items_width(items, k + 1, shape);
    }
}

/// A value of a shape is read through: the scan of its encoding ends where that ends.
#[verifier::rlimit(30)]
pub proof fn law_values_are_read_through(bytes: Seq<u8>, p: int, value: Value, shape: Shape)
    requires
        is_small(bytes),
        is_at(bytes, p, encode(value)),
        fits(value, shape),
    ensures
        encode(value).len() >= 1,
        after_value(bytes, p, shape) == Outcome::At(p + encode(value).len()),
    decreases value, 0nat, 0nat,
{
    lemma_width(value, shape);
    match value {
        Value::Short(v) => lemma_short(bytes, p, v),
        Value::Int(v) => lemma_int(bytes, p, v),
        Value::Long(v) => lemma_long(bytes, p, v),
        Value::Bytes(part) => lemma_bytes(bytes, p, part),
        Value::List { wire, items } => {
            let head = list_head(items.len(), wire);
            let item = item_shape(shape)->0;
            lemma_parts(bytes, p, head, encode_items(items, 0));
            lemma_list_head(bytes, p, items.len(), wire);
            lemma_items_width(items, 0, item);
            lemma_items(bytes, p + head.len(), items, 0, item);
            assert(has_list_size(items.len() as int, bytes.len() - (p + head.len())));
        },
        Value::Record(slots) => {
            if let Shape::Record(record) = shape {
                lemma_slots(bytes, p, slots, 0, 0, record, nothing_seen());
            }
        },
        _ => {},
    }
}

/// Items of a shape are read through.
proof fn lemma_items(bytes: Seq<u8>, p: int, items: Seq<Value>, k: int, shape: Shape)
    requires
        is_small(bytes),
        is_at(bytes, p, encode_items(items, k)),
        0 <= k <= items.len(),
        fit_items(items, k, shape),
    ensures
        after_items(bytes, p, (items.len() - k) as nat, shape) == Outcome::At(
            p + encode_items(items, k).len(),
        ),
    decreases items, items.len() - k, 0nat,
{
    if k < items.len() {
        let part = encode(items[k]);
        lemma_parts(bytes, p, part, encode_items(items, k + 1));
        law_values_are_read_through(bytes, p, items[k], shape);
        lemma_items(bytes, p + part.len(), items, k + 1, shape);
    }
}

/// A field is read through.
proof fn lemma_field(
    bytes: Seq<u8>,
    p: int,
    slots: Seq<Option<Value>>,
    k: int,
    record: Record,
)
    requires
        is_small(bytes),
        0 <= k < slots.len(),
        slots[k] is Some,
        is_at(bytes, p, content(slots[k]->0)),
        fit_slots(slots, k, record),
    ensures
        after_field(bytes, p, record, (k + 1) as i16, slots[k]->0.wire()) == Outcome::At(
            p + content(slots[k]->0).len(),
        ),
    decreases slots, slots.len() - k, 0nat,
{
    let value = slots[k]->0;
    match expected(record, (k + 1) as i16) {
        Some(shape) => {
            if !(value is Flag) {
                law_values_are_read_through(bytes, p, value, shape);
            }
        },
        None => {
            if !(value is Flag) {
                lemma_skipped(bytes, p, value, SKIP_DEPTH as nat);
            }
        },
    }
}

/// The fields of a record are read through.
#[verifier::rlimit(30)]
proof fn lemma_slots(
    bytes: Seq<u8>,
    p: int,
    slots: Seq<Option<Value>>,
    k: int,
    last: int,
    record: Record,
    seen: Seen,
)
    requires
        is_small(bytes),
        is_at(bytes, p, encode_slots(slots, k, last)),
        0 <= last <= k <= slots.len() <= i16::MAX,
        fit_slots(slots, k, record),
    ensures
        after_fields(bytes, p, record, last as i16, seen) == after_end(
            record,
            seen_in(slots, k, record, seen),
            p + encode_slots(slots, k, last).len(),
        ),
    decreases slots, slots.len() - k, 1nat,
{
    if k >= slots.len() {
        lemma_byte(bytes, p, encode_slots(slots, k, last), 0);
    } else {
        match slots[k] {
            Some(value) => {
                let head = field_head(last, k + 1, value.wire());
                let rest = encode_slots(slots, k + 1, k + 1);
                let body = content(value);
                lemma_parts(bytes, p, head, body + rest);
                lemma_parts(bytes, p + head.len(), body, rest);
                lemma_field_head(bytes, p, last, k + 1, value.wire());
                lemma_field(bytes, p + head.len(), slots, k, record);
                lemma_slots(
                    bytes,
                    p + head.len() + body.len(),
                    slots,
                    k + 1,
                    k + 1,
                    record,
                    seen.with(record, (k + 1) as i16),
                );
            },
            None => lemma_slots(bytes, p, slots, k + 1, last, record, seen),
        }
    }
}

/// A field is found where it is.
#[verifier::rlimit(30)]
proof fn lemma_find(
    bytes: Seq<u8>,
    p: int,
    slots: Seq<Option<Value>>,
    k: int,
    last: int,
    record: Record,
    wanted: i16,
)
    requires
        is_small(bytes),
        is_at(bytes, p, encode_slots(slots, k, last)),
        0 <= last <= k <= slots.len() <= i16::MAX,
        fit_slots(slots, k, record),
    ensures
        match field_after(bytes, p, record, last as i16, wanted) {
            Some(q) => {
                &&& k < wanted <= slots.len()
                &&& slots[wanted - 1] matches Some(value)
                &&& is_at(bytes, q, content(value))
            },
            None => !(k < wanted <= slots.len() && slots[wanted - 1] is Some),
        },
    decreases slots.len() - k,
{
    if k >= slots.len() {
        lemma_byte(bytes, p, encode_slots(slots, k, last), 0);
    } else {
        match slots[k] {
            Some(value) => {
                let head = field_head(last, k + 1, value.wire());
                let rest = encode_slots(slots, k + 1, k + 1);
                let body = content(value);
                lemma_parts(bytes, p, head, body + rest);
                lemma_parts(bytes, p + head.len(), body, rest);
                lemma_field_head(bytes, p, last, k + 1, value.wire());
                lemma_field(bytes, p + head.len(), slots, k, record);
                lemma_find(bytes, p + head.len() + body.len(), slots, k + 1, k + 1, record, wanted);
            },
            None => lemma_find(bytes, p, slots, k + 1, last, record, wanted),
        }
    }
}

/// The fields of an encoded record are found in it: a field that it has, where the value
/// of the field is, and no other.
pub proof fn law_fields_are_found(
    bytes: Seq<u8>,
    p: int,
    slots: Seq<Option<Value>>,
    record: Record,
    wanted: i16,
)
    requires
        is_small(bytes),
        is_at(bytes, p, encode(Value::Record(slots))),
        fits(Value::Record(slots), Shape::Record(record)),
    ensures
        match field_in(bytes, p, record, wanted) {
            Some(q) => {
                &&& 0 < wanted <= slots.len()
                &&& slots[wanted - 1] matches Some(value)
                &&& is_at(bytes, q, content(value))
            },
            None => !(0 < wanted <= slots.len() && slots[wanted - 1] is Some),
        },
{
    lemma_find(bytes, p, slots, 0, 0, record, wanted);
}

/// A number is read out of a record.
pub proof fn lemma_int_in(
    bytes: Seq<u8>,
    p: int,
    slots: Seq<Option<Value>>,
    record: Record,
    wanted: i16,
)
    requires
        is_small(bytes),
        is_at(bytes, p, encode(Value::Record(slots))),
        fits(Value::Record(slots), Shape::Record(record)),
        0 < wanted <= slots.len(),
        slots[wanted - 1] matches Some(value) ==> value is Int,
    ensures
        int_in(bytes, p, record, wanted) == (match slots[wanted - 1] {
            Some(value) => Some(value->Int_0 as int),
            None => None,
        }),
{
    law_fields_are_found(bytes, p, slots, record, wanted);
    if let Some(value) = slots[wanted - 1] {
        lemma_int(bytes, field_in(bytes, p, record, wanted)->0, value->Int_0);
    }
}

/// The length of a string of bytes is read out of a record.
pub proof fn lemma_length_in(
    bytes: Seq<u8>,
    p: int,
    slots: Seq<Option<Value>>,
    record: Record,
    wanted: i16,
)
    requires
        is_small(bytes),
        is_at(bytes, p, encode(Value::Record(slots))),
        fits(Value::Record(slots), Shape::Record(record)),
        0 < wanted <= slots.len(),
        slots[wanted - 1] matches Some(value) ==> value is Bytes && value->Bytes_0.len()
            <= u32::MAX,
    ensures
        length_in(bytes, p, record, wanted) == (match slots[wanted - 1] {
            Some(value) => Some(value->Bytes_0.len() as int),
            None => None,
        }),
{
    law_fields_are_found(bytes, p, slots, record, wanted);
    if let Some(value) = slots[wanted - 1] {
        lemma_bytes(bytes, field_in(bytes, p, record, wanted)->0, value->Bytes_0);
    }
}

/// An encoded record is read through.
pub proof fn lemma_record(bytes: Seq<u8>, p: int, slots: Seq<Option<Value>>, record: Record)
    requires
        is_small(bytes),
        is_at(bytes, p, encode(Value::Record(slots))),
        fits(Value::Record(slots), Shape::Record(record)),
    ensures
        encode(Value::Record(slots)).len() >= 1,
        after_record(bytes, p, record) == Outcome::At(p + encode(Value::Record(slots)).len()),
{
    law_values_are_read_through(bytes, p, Value::Record(slots), Shape::Record(record));
}

/// What has been seen stays seen.
proof fn lemma_seen_stays(slots: Seq<Option<Value>>, k: int, record: Record, seen: Seen, bit: u16)
    requires
        seen.ids & bit == bit,
    ensures
        seen_in(slots, k, record, seen).ids & bit == bit,
    decreases slots.len() - k,
{
    if 0 <= k < slots.len() {
        if slots[k] is Some {
            let ids = seen.ids;
            let more = id_bit((k + 1) as i16);
            assert((ids | more) & bit == bit) by (bit_vector)
                requires
                    ids & bit == bit,
            ;
            lemma_seen_stays(slots, k + 1, record, seen.with(record, (k + 1) as i16), bit);
        } else {
            lemma_seen_stays(slots, k + 1, record, seen, bit);
        }
    }
}

/// A field that is there has been seen.
pub proof fn lemma_seen(slots: Seq<Option<Value>>, k: int, record: Record, seen: Seen, j: int)
    requires
        0 <= k <= j < slots.len(),
        slots[j] is Some,
    ensures
        seen_in(slots, k, record, seen).ids & id_bit((j + 1) as i16) == id_bit((j + 1) as i16),
    decreases slots.len() - k,
{
    if k == j {
        let ids = seen.ids;
        let bit = id_bit((j + 1) as i16);
        assert((ids | bit) & bit == bit) by (bit_vector);
        lemma_seen_stays(slots, k + 1, record, seen.with(record, (j + 1) as i16), bit);
    } else if slots[k] is Some {
        lemma_seen(slots, k + 1, record, seen.with(record, (k + 1) as i16), j);
    } else {
        lemma_seen(slots, k + 1, record, seen, j);
    }
}

/// One known field is all that a union takes.
pub proof fn lemma_union(slots: Seq<Option<Value>>, record: Record, j: int)
    requires
        0 <= j < slots.len(),
        slots[j] is Some,
        forall|k: int| 0 <= k < slots.len() && k != j ==> #[trigger] slots[k] is None,
        expected(record, (j + 1) as i16) is Some,
    ensures
        seen_in(slots, 0, record, nothing_seen()).count is Known,
{
    lemma_nothing_before(slots, 0, record, j);
    lemma_nothing_after(
        slots,
        j + 1,
        record,
        nothing_seen().with(record, (j + 1) as i16),
    );
}

/// Fields that are not there are not seen, up to one that is.
proof fn lemma_nothing_before(slots: Seq<Option<Value>>, k: int, record: Record, j: int)
    requires
        0 <= k <= j < slots.len(),
        slots[j] is Some,
        forall|i: int| k <= i < j ==> #[trigger] slots[i] is None,
    ensures
        seen_in(slots, k, record, nothing_seen()) == seen_in(
            slots,
            j + 1,
            record,
            nothing_seen().with(record, (j + 1) as i16),
        ),
    decreases j - k,
{
    if k < j {
        lemma_nothing_before(slots, k + 1, record, j);
    }
}

/// Fields that are not there are not seen.
proof fn lemma_nothing_after(slots: Seq<Option<Value>>, k: int, record: Record, seen: Seen)
    requires
        0 <= k <= slots.len(),
        forall|i: int| k <= i < slots.len() ==> #[trigger] slots[i] is None,
    ensures
        seen_in(slots, k, record, seen) == seen,
    decreases slots.len() - k,
{
    if k < slots.len() {
        lemma_nothing_after(slots, k + 1, record, seen);
    }
}

/// Items that are of a shape each are of it together.
pub proof fn lemma_fit_items(items: Seq<Value>, k: int, shape: Shape)
    requires
        0 <= k <= items.len(),
        forall|i: int| 0 <= i < items.len() ==> fits(#[trigger] items[i], shape),
    ensures
        fit_items(items, k, shape),
    decreases items.len() - k,
{
    if k < items.len() {
        lemma_fit_items(items, k + 1, shape);
    }
}

/// Whether a value can stand in the field of a record with this id.
pub open spec fn fits_slot(value: Value, record: Record, id: i16) -> bool {
    match expected(record, id) {
        Some(shape) => if value is Flag {
            shape is Flag
        } else {
            fits(value, shape)
        },
        None => is_skippable(value, SKIP_DEPTH as nat),
    }
}

/// Fields that fit each fit together.
pub proof fn lemma_fit_slots(slots: Seq<Option<Value>>, k: int, record: Record)
    requires
        0 <= k <= slots.len(),
        forall|i: int|
            0 <= i < slots.len() ==> (#[trigger] slots[i] matches Some(value) ==> fits_slot(
                value,
                record,
                (i + 1) as i16,
            )),
    ensures
        fit_slots(slots, k, record),
    decreases slots.len() - k,
{
    if k < slots.len() {
        lemma_fit_slots(slots, k + 1, record);
    }
}

/// A list says how many items it has. It is not read where that number is negative or its
/// items cannot be held in memory, and where there are more of them than bytes that follow,
/// unless there are few.
pub proof fn law_lists_that_are_not_read(bytes: Seq<u8>, p: int, n: nat, wire: u8, shape: Shape)
    requires
        shape is Ints || shape is Texts || shape is Records,
        is_item_type(wire),
        is_at(bytes, p, seq![(240 + wire) as u8] + number(n)),
        n <= u32::MAX,
        n > i32::MAX || n * 1024 > isize::MAX || n > 65535 && n > bytes.len() - p - 1 - number(
            n,
        ).len(),
    ensures
        after_value(bytes, p, shape) == Outcome::Unclear,
{
    let head = seq![(240 + wire) as u8] + number(n);
    lemma_byte(bytes, p, head, 0);
    assert(bytes[p] == (240 + wire) as u8);
    assert(bytes[p] % 16 == wire);
    assert(bytes[p] / 16 == 15);
    lemma_parts(bytes, p, seq![(240 + wire) as u8], number(n));
    lemma_limits();
    lemma_number_limit(n, 5);
    lemma_number(bytes, p + 1, n, 5);
}

/// A field that is not there has not been seen, where none of the others has its bit.
proof fn lemma_unseen(slots: Seq<Option<Value>>, k: int, record: Record, seen: Seen, j: int)
    requires
        0 <= k,
        slots.len() <= i16::MAX,
        0 <= j < 9,
        j >= slots.len() || slots[j] is None,
        seen.ids & id_bit((j + 1) as i16) == 0,
    ensures
        seen_in(slots, k, record, seen).ids & id_bit((j + 1) as i16) == 0,
    decreases slots.len() - k,
{
    if k < slots.len() {
        if slots[k] is Some {
            let ids = seen.ids;
            let more = id_bit((k + 1) as i16);
            let bit = id_bit((j + 1) as i16);
            lemma_bits_differ((k + 1) as i16, (j + 1) as i16);
            assert((ids | more) & bit == 0) by (bit_vector)
                requires
                    ids & bit == 0,
                    more & bit == 0,
            ;
            lemma_unseen(slots, k + 1, record, seen.with(record, (k + 1) as i16), j);
        } else {
            lemma_unseen(slots, k + 1, record, seen, j);
        }
    }
}

/// Two ids have no bit in common.
proof fn lemma_bits_differ(a: i16, b: i16)
    requires
        a != b,
    ensures
        id_bit(a) & id_bit(b) == 0,
{
    let x = id_bit(a);
    let y = id_bit(b);
    assert(x == 0 || y == 0 || x != y);
    assert(x & y == 0) by (bit_vector)
        requires
            x == 0 || x == 0x1 || x == 0x2 || x == 0x4 || x == 0x8 || x == 0x10 || x == 0x20 || x
                == 0x40 || x == 0x80 || x == 0x100,
            y == 0 || y == 0x1 || y == 0x2 || y == 0x4 || y == 0x8 || y == 0x10 || y == 0x20 || y
                == 0x40 || y == 0x80 || y == 0x100,
            x == 0 || y == 0 || x != y,
    ;
}

/// Whether a record has a field.
pub open spec fn has_field(slots: Seq<Option<Value>>, id: int) -> bool {
    0 < id <= slots.len() && slots[id - 1] is Some
}

/// Whether a record has the fields that it needs.
pub open spec fn has_needed_fields(slots: Seq<Option<Value>>, record: Record) -> bool {
    match record {
        Record::File => has_field(slots, 1) && has_field(slots, 2) && has_field(slots, 3)
            && has_field(slots, 4),
        Record::Element => has_field(slots, 4),
        Record::Decimal => has_field(slots, 1) && has_field(slots, 2),
        Record::Time => has_field(slots, 1) && has_field(slots, 2),
        Record::Integer => has_field(slots, 1) && has_field(slots, 2),
        Record::RowGroup => has_field(slots, 1) && has_field(slots, 2) && has_field(slots, 3),
        Record::Chunk => has_field(slots, 2),
        Record::Column => {
            &&& has_field(slots, 1) && has_field(slots, 2) && has_field(slots, 3)
            &&& has_field(slots, 4) && has_field(slots, 5) && has_field(slots, 6)
            &&& has_field(slots, 7) && has_field(slots, 9)
        },
        Record::KeyValue => has_field(slots, 1),
        Record::SortingColumn => has_field(slots, 1) && has_field(slots, 2) && has_field(slots, 3),
        Record::PageEncoding => has_field(slots, 1) && has_field(slots, 2) && has_field(slots, 3),
        Record::ColumnKey => has_field(slots, 1),
        _ => true,
    }
}

/// Whether a field has been seen is whether it is there.
proof fn lemma_seen_or_not(slots: Seq<Option<Value>>, record: Record, id: i16)
    requires
        slots.len() <= i16::MAX,
        1 <= id <= 9,
    ensures
        ({
            let ids = seen_in(slots, 0, record, nothing_seen()).ids;
            ids & id_bit(id) == (if has_field(slots, id as int) {
                id_bit(id)
            } else {
                0
            })
        }),
{
    if has_field(slots, id as int) {
        lemma_seen(slots, 0, record, nothing_seen(), id - 1);
    } else {
        let bit = id_bit(id);
        assert(0 & bit == 0) by (bit_vector);
        lemma_unseen(slots, 0, record, nothing_seen(), id - 1);
    }
}

/// The fields that a record needs are those whose bits must have been seen.
proof fn lemma_needed(slots: Seq<Option<Value>>, record: Record)
    requires
        slots.len() <= i16::MAX,
        !is_union(record),
    ensures
        ({
            let ids = seen_in(slots, 0, record, nothing_seen()).ids;
            ids & required_ids(record) == required_ids(record) <==> has_needed_fields(
                slots,
                record,
            )
        }),
{
    let ids = seen_in(slots, 0, record, nothing_seen()).ids;
    let needed = required_ids(record);
    lemma_seen_or_not(slots, record, 1);
    lemma_seen_or_not(slots, record, 2);
    lemma_seen_or_not(slots, record, 3);
    lemma_seen_or_not(slots, record, 4);
    lemma_seen_or_not(slots, record, 5);
    lemma_seen_or_not(slots, record, 6);
    lemma_seen_or_not(slots, record, 7);
    lemma_seen_or_not(slots, record, 9);
    assert(ids & 0 == 0) by (bit_vector);
    assert(ids & 0xF == 0xF <==> ids & 0x1 == 0x1 && ids & 0x2 == 0x2 && ids & 0x4 == 0x4 && ids
        & 0x8 == 0x8) by (bit_vector);
    assert(ids & 0x3 == 0x3 <==> ids & 0x1 == 0x1 && ids & 0x2 == 0x2) by (bit_vector);
    assert(ids & 0x7 == 0x7 <==> ids & 0x1 == 0x1 && ids & 0x2 == 0x2 && ids & 0x4 == 0x4)
        by (bit_vector);
    assert(ids & 0x17F == 0x17F <==> ids & 0x1 == 0x1 && ids & 0x2 == 0x2 && ids & 0x4 == 0x4
        && ids & 0x8 == 0x8 && ids & 0x10 == 0x10 && ids & 0x20 == 0x20 && ids & 0x40 == 0x40
        && ids & 0x100 == 0x100) by (bit_vector);
}

/// A record is read through where it has the fields that it needs, and is an error where
/// one of them is missing.
pub proof fn law_records_need_fields(
    bytes: Seq<u8>,
    p: int,
    slots: Seq<Option<Value>>,
    record: Record,
)
    requires
        is_small(bytes),
        is_at(bytes, p, encode(Value::Record(slots))),
        slots.len() <= i16::MAX,
        fit_slots(slots, 0, record),
        !(record is LogicalType),
        !(record is TimeUnit),
        !(record is ColumnCrypto),
        !(record is ColumnOrder),
        !(record is Encryption),
    ensures
        after_record(bytes, p, record) == (if has_needed_fields(slots, record) {
            Outcome::At(p + encode(Value::Record(slots)).len())
        } else {
            Outcome::Fails
        }),
{
    lemma_slots(bytes, p, slots, 0, 0, record, nothing_seen());
    lemma_needed(slots, record);
}

/// Several fields are more than a union takes.
proof fn lemma_several(slots: Seq<Option<Value>>, k: int, record: Record, seen: Seen)
    requires
        seen.count is Several,
    ensures
        seen_in(slots, k, record, seen).count is Several,
    decreases slots.len() - k,
{
    if 0 <= k < slots.len() {
        lemma_several(slots, k + 1, record, seen.with(record, (k + 1) as i16));
        lemma_several(slots, k + 1, record, seen);
    }
}

/// Two fields are several.
proof fn lemma_two_are_several(
    slots: Seq<Option<Value>>,
    k: int,
    record: Record,
    seen: Seen,
    i: int,
    j: int,
)
    requires
        0 <= k <= i < j < slots.len(),
        slots[i] is Some,
        slots[j] is Some,
    ensures
        seen_in(slots, k, record, seen).count is Several,
    decreases slots.len() - k,
{
    if k < i {
        lemma_two_are_several(
            slots,
            k + 1,
            record,
            if slots[k] is Some {
                seen.with(record, (k + 1) as i16)
            } else {
                seen
            },
            i,
            j,
        );
    } else {
        lemma_one_is_several(slots, k + 1, record, seen.with(record, (k + 1) as i16), j);
    }
}

/// One field more than any is several.
proof fn lemma_one_is_several(
    slots: Seq<Option<Value>>,
    k: int,
    record: Record,
    seen: Seen,
    j: int,
)
    requires
        0 <= k <= j < slots.len(),
        slots[j] is Some,
        !(seen.count is Nothing),
    ensures
        seen_in(slots, k, record, seen).count is Several,
    decreases slots.len() - k,
{
    if slots[k] is Some {
        lemma_several(slots, k + 1, record, seen.with(record, (k + 1) as i16));
    } else {
        lemma_one_is_several(slots, k + 1, record, seen, j);
    }
}

/// A union is read through where it has one field and this is known to it. It is an error
/// where it has none or several, and is not read where its one field is not known, which
/// the decoder does not expect.
pub proof fn law_unions_have_one_field(
    bytes: Seq<u8>,
    p: int,
    slots: Seq<Option<Value>>,
    record: Record,
    i: int,
    j: int,
)
    requires
        is_small(bytes),
        is_at(bytes, p, encode(Value::Record(slots))),
        slots.len() <= i16::MAX,
        fit_slots(slots, 0, record),
        record is LogicalType || record is TimeUnit || record is ColumnCrypto
            || record is ColumnOrder || record is Encryption,
    ensures
        (forall|k: int| 0 <= k < slots.len() ==> #[trigger] slots[k] is None) ==> after_record(
            bytes,
            p,
            record,
        ) == Outcome::Fails,
        0 <= i < j < slots.len() && slots[i] is Some && slots[j] is Some ==> after_record(
            bytes,
            p,
            record,
        ) == Outcome::Fails,
        0 <= i < slots.len() && slots[i] is Some && (forall|k: int|
            0 <= k < slots.len() && k != i ==> #[trigger] slots[k] is None) ==> after_record(
            bytes,
            p,
            record,
        ) == (if is_known_variant(record, i + 1) {
            Outcome::At(p + encode(Value::Record(slots)).len())
        } else {
            Outcome::Unclear
        }),
{
    lemma_slots(bytes, p, slots, 0, 0, record, nothing_seen());
    if forall|k: int| 0 <= k < slots.len() ==> #[trigger] slots[k] is None {
        lemma_nothing_after(slots, 0, record, nothing_seen());
    }
    if 0 <= i < j < slots.len() && slots[i] is Some && slots[j] is Some {
        lemma_two_are_several(slots, 0, record, nothing_seen(), i, j);
    }
    if 0 <= i < slots.len() && slots[i] is Some && (forall|k: int|
        0 <= k < slots.len() && k != i ==> #[trigger] slots[k] is None) {
        lemma_nothing_before(slots, 0, record, i);
        lemma_nothing_after(slots, i + 1, record, nothing_seen().with(record, (i + 1) as i16));
    }
}

/// Whether a union knows a field: 13 meanings of columns, 3 units of time, 2 keys of
/// chunks, 1 order of columns, and 2 ciphers.
pub open spec fn is_known_variant(record: Record, id: int) -> bool {
    match record {
        Record::LogicalType => 1 <= id <= 8 || 10 <= id <= 14,
        Record::TimeUnit => 1 <= id <= 3,
        Record::ColumnCrypto => 1 <= id <= 2,
        Record::ColumnOrder => id == 1,
        Record::Encryption => 1 <= id <= 2,
        _ => false,
    }
}

/// Whether bytes end within a part that starts at a place.
pub open spec fn is_cut(bytes: Seq<u8>, p: int, part: Seq<u8>) -> bool {
    &&& 0 <= p <= bytes.len() < p + part.len()
    &&& bytes.subrange(p, bytes.len() as int) == part.subrange(0, bytes.len() - p)
}

/// What ends within two parts in a row ends within one of them.
proof fn lemma_cut_parts(bytes: Seq<u8>, p: int, a: Seq<u8>, b: Seq<u8>)
    requires
        is_cut(bytes, p, a + b),
    ensures
        is_cut(bytes, p, a) || is_at(bytes, p, a) && is_cut(bytes, p + a.len(), b),
{
    let left = bytes.subrange(p, bytes.len() as int);
    let whole = (a + b).subrange(0, bytes.len() - p);
    assert forall|i: int| 0 <= i < bytes.len() - p implies bytes[p + i] == (a + b)[i] by {
        assert(left[i] == whole[i]);
    }
    if bytes.len() < p + a.len() {
        assert(left =~= a.subrange(0, bytes.len() - p));
    } else {
        assert(bytes.subrange(p, p + a.len()) =~= a);
        let q = p + a.len();
        assert forall|i: int| 0 <= i < bytes.len() - q implies bytes[q + i] == b[i] by {
            assert(bytes[p + (a.len() + i)] == (a + b)[a.len() + i]);
        }
        assert(bytes.subrange(q, bytes.len() as int) =~= b.subrange(0, bytes.len() - q));
    }
}

/// A byte of a part that is cut.
proof fn lemma_cut_byte(bytes: Seq<u8>, p: int, part: Seq<u8>)
    requires
        is_cut(bytes, p, part),
        p < bytes.len(),
    ensures
        bytes[p] == part[0],
{
    assert(bytes.subrange(p, bytes.len() as int)[0] == part.subrange(0, bytes.len() - p)[0]);
}

/// A number that is cut has no end.
proof fn lemma_cut_number(bytes: Seq<u8>, p: int, n: nat, max: nat)
    requires
        is_cut(bytes, p, number(n)),
    ensures
        number_end(bytes, p, max) is None,
    decreases n,
{
    if p < bytes.len() && max > 0 {
        lemma_cut_byte(bytes, p, number(n));
        if n >= 128 {
            let head = seq![(n % 128 + 128) as u8];
            lemma_cut_parts(bytes, p, head, number(n / 128));
            lemma_cut_number(bytes, p + 1, n / 128, (max - 1) as nat);
        }
    }
}

/// A string of bytes that is cut is an error.
proof fn lemma_cut_bytes(bytes: Seq<u8>, p: int, part: Seq<u8>)
    requires
        is_cut(bytes, p, number(part.len()) + part),
        part.len() <= isize::MAX,
        part.len() <= u32::MAX,
    ensures
        after_bytes(bytes, p) == Outcome::Fails,
{
    lemma_cut_parts(bytes, p, number(part.len()), part);
    if is_cut(bytes, p, number(part.len())) {
        lemma_cut_number(bytes, p, part.len(), 5);
    } else {
        lemma_limits();
        lemma_number_limit(part.len(), 5);
        lemma_number(bytes, p, part.len(), 5);
    }
}

/// What stands before the items of a collection is an error where it is cut.
proof fn lemma_cut_list_head(bytes: Seq<u8>, p: int, n: nat, wire: u8)
    requires
        is_cut(bytes, p, list_head(n, wire)),
        is_item_type(wire),
    ensures
        list_header(bytes, p) is None,
{
    if p < bytes.len() {
        lemma_cut_byte(bytes, p, list_head(n, wire));
        let head = seq![(240 + wire) as u8];
        assert(n >= 15);
        assert(bytes[p] == (240 + wire) as u8);
        assert(bytes[p] / 16 == 15);
        lemma_cut_parts(bytes, p, head, number(n));
        lemma_cut_number(bytes, p + 1, n, 5);
    }
}

/// What stands before a field is an error where it is cut.
proof fn lemma_cut_field_head(bytes: Seq<u8>, p: int, last: int, id: int, wire: u8)
    requires
        is_cut(bytes, p, field_head(last, id, wire)),
        0 <= last < id <= i16::MAX,
        1 <= wire <= 12,
    ensures
        header(bytes, p, last as i16) == Header::Fails,
{
    if p < bytes.len() {
        lemma_cut_byte(bytes, p, field_head(last, id, wire));
        assert(id - last > 15);
        assert(bytes[p] % 16 == wire && bytes[p] / 16 == 0);
        lemma_cut_parts(bytes, p, seq![wire], number(zigzag(id)));
        lemma_cut_number(bytes, p + 1, zigzag(id), 3);
    }
}

/// A value that is cut is an error where it is skipped.
#[verifier::rlimit(30)]
proof fn lemma_cut_skipped(bytes: Seq<u8>, p: int, value: Value, depth: nat)
    requires
        is_cut(bytes, p, encode(value)),
        encode(value).len() <= isize::MAX,
        is_skippable(value, depth),
    ensures
        after_skipped(bytes, p, value.item_wire(), depth) == Outcome::Fails,
    decreases value, 0nat,
{
    match value {
        Value::Flag(_) => {},
        Value::Byte(_) => {},
        Value::Short(v) => lemma_cut_number(bytes, p, zigzag(v as int), 3),
        Value::Int(v) => lemma_cut_number(bytes, p, zigzag(v as int), 5),
        Value::Long(v) => lemma_cut_number(bytes, p, zigzag(v as int), 10),
        Value::Double(_) => {},
        Value::Bytes(part) => lemma_cut_bytes(bytes, p, part),
        Value::List { wire, items } => {
            lemma_cut_skipped_list(bytes, p, items, wire, (depth - 1) as nat);
        },
        Value::Unordered { wire, items } => {
            lemma_cut_skipped_list(bytes, p, items, wire, (depth - 1) as nat);
        },
        Value::Pairs { key, value: wire, pairs } => {
            if pairs.len() == 0 {
                assert(number(0) =~= seq![0u8]);
                lemma_cut_number(bytes, p, 0, 5);
            } else {
                let types = seq![(16 * key + wire) as u8];
                let rest = encode_pairs(pairs, 0);
                lemma_cut_parts(bytes, p, number(pairs.len()), types + rest);
                if is_cut(bytes, p, number(pairs.len())) {
                    lemma_cut_number(bytes, p, pairs.len(), 5);
                } else {
                    let q = p + number(pairs.len()).len();
                    lemma_limits();
                    lemma_number_limit(pairs.len(), 5);
                    lemma_number(bytes, p, pairs.len(), 5);
                    lemma_cut_parts(bytes, q, types, rest);
                    if !is_cut(bytes, q, types) {
                        lemma_byte(bytes, q, types, 0);
                        assert(bytes[q] == (16 * key + wire) as u8);
                        assert(bytes[q] / 16 == key && bytes[q] % 16 == wire);
                        lemma_cut_skipped_pairs(
                            bytes,
                            q + 1,
                            pairs,
                            0,
                            key,
                            wire,
                            (depth - 1) as nat,
                        );
                    }
                }
            }
        },
        Value::Record(slots) => {
            lemma_cut_skipped_slots(bytes, p, slots, 0, 0, (depth - 1) as nat);
        },
    }
}

/// A collection that is cut is an error where it is skipped.
proof fn lemma_cut_skipped_list(
    bytes: Seq<u8>,
    p: int,
    items: Seq<Value>,
    wire: u8,
    depth: nat,
)
    requires
        is_cut(bytes, p, list_head(items.len(), wire) + encode_items(items, 0)),
        (list_head(items.len(), wire) + encode_items(items, 0)).len() <= isize::MAX,
        is_item_type(wire),
        items.len() <= i32::MAX,
        are_items_skippable(items, 0, wire, depth),
    ensures
        after_skipped(bytes, p, 9, depth + 1) == Outcome::Fails,
        after_skipped(bytes, p, 10, depth + 1) == Outcome::Fails,
    decreases items, items.len() + 1,
{
    let head = list_head(items.len(), wire);
    lemma_cut_parts(bytes, p, head, encode_items(items, 0));
    if is_cut(bytes, p, head) {
        lemma_cut_list_head(bytes, p, items.len(), wire);
    } else {
        lemma_list_head(bytes, p, items.len(), wire);
        lemma_cut_skipped_items(bytes, p + head.len(), items, 0, wire, depth);
    }
}

/// Items that are cut are an error where they are skipped.
proof fn lemma_cut_skipped_items(
    bytes: Seq<u8>,
    p: int,
    items: Seq<Value>,
    k: int,
    wire: u8,
    depth: nat,
)
    requires
        is_cut(bytes, p, encode_items(items, k)),
        encode_items(items, k).len() <= isize::MAX,
        0 <= k <= items.len(),
        are_items_skippable(items, k, wire, depth),
    ensures
        after_skipped_items(bytes, p, (items.len() - k) as nat, wire, depth) == Outcome::Fails,
    decreases items, items.len() - k,
{
    if k < items.len() {
        let part = encode(items[k]);
        lemma_cut_parts(bytes, p, part, encode_items(items, k + 1));
        if is_cut(bytes, p, part) {
            lemma_cut_skipped(bytes, p, items[k], depth);
        } else {
            lemma_skippable_width(items[k], depth);
            lemma_skipped(bytes, p, items[k], depth);
            lemma_cut_skipped_items(bytes, p + part.len(), items, k + 1, wire, depth);
        }
    }
}

/// Pairs that are cut are an error where they are skipped.
proof fn lemma_cut_skipped_pairs(
    bytes: Seq<u8>,
    p: int,
    pairs: Seq<(Value, Value)>,
    k: int,
    key: u8,
    value: u8,
    depth: nat,
)
    requires
        is_cut(bytes, p, encode_pairs(pairs, k)),
        encode_pairs(pairs, k).len() <= isize::MAX,
        0 <= k <= pairs.len(),
        are_pairs_skippable(pairs, k, key, value, depth),
    ensures
        after_skipped_pairs(bytes, p, (pairs.len() - k) as nat, key, value, depth)
            == Outcome::Fails,
    decreases pairs, pairs.len() - k,
{
    if k < pairs.len() {
        let a = encode(pairs[k].0);
        let b = encode(pairs[k].1);
        let rest = encode_pairs(pairs, k + 1);
        lemma_cut_parts(bytes, p, a, b + rest);
        if is_cut(bytes, p, a) {
            lemma_cut_skipped(bytes, p, pairs[k].0, depth);
        } else {
            lemma_skippable_width(pairs[k].0, depth);
            lemma_skipped(bytes, p, pairs[k].0, depth);
            lemma_cut_parts(bytes, p + a.len(), b, rest);
            if is_cut(bytes, p + a.len(), b) {
                lemma_cut_skipped(bytes, p + a.len(), pairs[k].1, depth);
            } else {
                lemma_skippable_width(pairs[k].1, depth);
                lemma_skipped(bytes, p + a.len(), pairs[k].1, depth);
                lemma_cut_skipped_pairs(
                    bytes,
                    p + a.len() + b.len(),
                    pairs,
                    k + 1,
                    key,
                    value,
                    depth,
                );
            }
        }
    }
}

/// Fields that are cut are an error where they are skipped.
proof fn lemma_cut_skipped_slots(
    bytes: Seq<u8>,
    p: int,
    slots: Seq<Option<Value>>,
    k: int,
    last: int,
    depth: nat,
)
    requires
        is_cut(bytes, p, encode_slots(slots, k, last)),
        encode_slots(slots, k, last).len() <= isize::MAX,
        0 <= last <= k <= slots.len() <= i16::MAX,
        are_slots_skippable(slots, k, depth),
    ensures
        after_skipped_fields(bytes, p, last as i16, depth) == Outcome::Fails,
    decreases slots, slots.len() - k,
{
    if k < slots.len() {
        match slots[k] {
            Some(value) => {
                let head = field_head(last, k + 1, value.wire());
                let rest = encode_slots(slots, k + 1, k + 1);
                let body = content(value);
                lemma_cut_parts(bytes, p, head, body + rest);
                if is_cut(bytes, p, head) {
                    lemma_cut_field_head(bytes, p, last, k + 1, value.wire());
                } else {
                    let q = p + head.len();
                    lemma_field_head(bytes, p, last, k + 1, value.wire());
                    lemma_cut_parts(bytes, q, body, rest);
                    if is_cut(bytes, q, body) {
                        lemma_cut_skipped(bytes, q, value, depth);
                        assert(after_skipped_field(bytes, q, value.wire(), depth)
                            == Outcome::Fails);
                    } else {
                        if !(value is Flag) {
                            lemma_skipped(bytes, q, value, depth);
                        }
                        assert(is_skippable(value, depth));
                        assert(after_skipped_field(bytes, q, value.wire(), depth) == Outcome::At(
                            q + body.len(),
                        ));
                        lemma_cut_skipped_slots(
                            bytes,
                            q + body.len(),
                            slots,
                            k + 1,
                            k + 1,
                            depth,
                        );
                    }
                }
            },
            None => lemma_cut_skipped_slots(bytes, p, slots, k + 1, last, depth),
        }
    }
}

/// Whether no list in a value that a record expects has more items than are read whatever
/// the number of bytes that follow.
pub open spec fn has_short_lists(value: Value, shape: Shape) -> bool
    decreases value, 0nat,
{
    match (value, shape) {
        (Value::List { items, .. }, _) => items.len() <= 65535 && item_shape(shape) is Some
            && have_short_lists(items, 0, item_shape(shape)->0),
        (Value::Record(slots), Shape::Record(record)) => slots_have_short_lists(slots, 0, record),
        _ => true,
    }
}

/// Whether no list in the items from `k` on is longer.
pub open spec fn have_short_lists(items: Seq<Value>, k: int, shape: Shape) -> bool
    decreases items, items.len() - k,
{
    0 <= k < items.len() ==> has_short_lists(items[k], shape) && have_short_lists(
        items,
        k + 1,
        shape,
    )
}

/// Whether no list in the fields from the one at `k` on is longer.
pub open spec fn slots_have_short_lists(slots: Seq<Option<Value>>, k: int, record: Record) -> bool
    decreases slots, slots.len() - k,
{
    0 <= k < slots.len() ==> {
        &&& slots[k] matches Some(value) ==> (expected(record, (k + 1) as i16) matches Some(shape)
            ==> has_short_lists(value, shape))
        &&& slots_have_short_lists(slots, k + 1, record)
    }
}

/// A value that is cut is an error: the scan of bytes that end before its encoding does
/// fails.
#[verifier::rlimit(30)]
pub proof fn law_cut_values_are_errors(bytes: Seq<u8>, p: int, value: Value, shape: Shape)
    requires
        is_cut(bytes, p, encode(value)),
        is_small(bytes),
        is_small(encode(value)),
        fits(value, shape),
        has_short_lists(value, shape),
    ensures
        after_value(bytes, p, shape) == Outcome::Fails,
    decreases value, 0nat, 0nat,
{
    match value {
        Value::Short(v) => lemma_cut_number(bytes, p, zigzag(v as int), 3),
        Value::Int(v) => lemma_cut_number(bytes, p, zigzag(v as int), 5),
        Value::Long(v) => lemma_cut_number(bytes, p, zigzag(v as int), 10),
        Value::Bytes(part) => lemma_cut_bytes(bytes, p, part),
        Value::List { wire, items } => {
            let head = list_head(items.len(), wire);
            let item = item_shape(shape)->0;
            lemma_cut_parts(bytes, p, head, encode_items(items, 0));
            if is_cut(bytes, p, head) {
                lemma_cut_list_head(bytes, p, items.len(), wire);
            } else {
                let q = p + head.len();
                lemma_list_head(bytes, p, items.len(), wire);
                lemma_items_width(items, 0, item);
                lemma_cut_items(bytes, q, items, 0, item);
                assert(has_list_size(items.len() as int, bytes.len() - q));
            }
        },
        Value::Record(slots) => {
            if let Shape::Record(record) = shape {
                lemma_cut_slots(bytes, p, slots, 0, 0, record, nothing_seen());
            }
        },
        _ => {},
    }
}

/// Items that are cut are an error.
proof fn lemma_cut_items(bytes: Seq<u8>, p: int, items: Seq<Value>, k: int, shape: Shape)
    requires
        is_cut(bytes, p, encode_items(items, k)),
        is_small(bytes),
        is_small(encode_items(items, k)),
        0 <= k <= items.len(),
        fit_items(items, k, shape),
        have_short_lists(items, k, shape),
    ensures
        after_items(bytes, p, (items.len() - k) as nat, shape) == Outcome::Fails,
    decreases items, items.len() - k, 0nat,
{
    if k < items.len() {
        let part = encode(items[k]);
        lemma_cut_parts(bytes, p, part, encode_items(items, k + 1));
        if is_cut(bytes, p, part) {
            law_cut_values_are_errors(bytes, p, items[k], shape);
        } else {
            law_values_are_read_through(bytes, p, items[k], shape);
            lemma_cut_items(bytes, p + part.len(), items, k + 1, shape);
        }
    }
}

/// Fields that are cut are an error.
#[verifier::rlimit(30)]
proof fn lemma_cut_slots(
    bytes: Seq<u8>,
    p: int,
    slots: Seq<Option<Value>>,
    k: int,
    last: int,
    record: Record,
    seen: Seen,
)
    requires
        is_cut(bytes, p, encode_slots(slots, k, last)),
        is_small(bytes),
        is_small(encode_slots(slots, k, last)),
        0 <= last <= k <= slots.len() <= i16::MAX,
        fit_slots(slots, k, record),
        slots_have_short_lists(slots, k, record),
    ensures
        after_fields(bytes, p, record, last as i16, seen) == Outcome::Fails,
    decreases slots, slots.len() - k, 1nat,
{
    if k < slots.len() {
        match slots[k] {
            Some(value) => {
                let head = field_head(last, k + 1, value.wire());
                let rest = encode_slots(slots, k + 1, k + 1);
                let body = content(value);
                lemma_cut_parts(bytes, p, head, body + rest);
                if is_cut(bytes, p, head) {
                    lemma_cut_field_head(bytes, p, last, k + 1, value.wire());
                } else {
                    let q = p + head.len();
                    lemma_field_head(bytes, p, last, k + 1, value.wire());
                    lemma_cut_parts(bytes, q, body, rest);
                    if is_cut(bytes, q, body) {
                        lemma_cut_field(bytes, q, slots, k, record);
                    } else {
                        lemma_field(bytes, q, slots, k, record);
                        lemma_cut_slots(
                            bytes,
                            q + body.len(),
                            slots,
                            k + 1,
                            k + 1,
                            record,
                            seen.with(record, (k + 1) as i16),
                        );
                    }
                }
            },
            None => lemma_cut_slots(bytes, p, slots, k + 1, last, record, seen),
        }
    }
}

/// A field that is cut is an error.
proof fn lemma_cut_field(
    bytes: Seq<u8>,
    p: int,
    slots: Seq<Option<Value>>,
    k: int,
    record: Record,
)
    requires
        0 <= k < slots.len(),
        slots[k] is Some,
        is_cut(bytes, p, content(slots[k]->0)),
        is_small(bytes),
        is_small(content(slots[k]->0)),
        fit_slots(slots, k, record),
        slots_have_short_lists(slots, k, record),
    ensures
        after_field(bytes, p, record, (k + 1) as i16, slots[k]->0.wire()) == Outcome::Fails,
    decreases slots, slots.len() - k, 0nat,
{
    let value = slots[k]->0;
    match expected(record, (k + 1) as i16) {
        Some(shape) => law_cut_values_are_errors(bytes, p, value, shape),
        None => {
            lemma_cut_skipped(bytes, p, value, SKIP_DEPTH as nat);
            assert(after_skipped_field(bytes, p, value.wire(), SKIP_DEPTH as nat)
                == Outcome::Fails);
        },
    }
}

/// Whether a value is a string of bytes of a length that can be encoded.
pub open spec fn is_short_text(value: Value) -> bool {
    value matches Value::Bytes(bytes) && bytes.len() <= u32::MAX
}

/// Whether a value is such as the field of a record with this id holds, flags aside.
pub open spec fn is_of_field(record: Record, id: i16, value: Value) -> bool {
    match record {
        Record::Plain => false,
        Record::File => match id {
            1 => value is Int,
            2 => fits(value, Shape::Records(Record::Element)),
            3 => value is Long,
            4 => fits(value, Shape::Records(Record::RowGroup)),
            5 => fits(value, Shape::Records(Record::KeyValue)),
            6 | 9 => is_short_text(value),
            7 => fits(value, Shape::Records(Record::ColumnOrder)),
            8 => fits(value, Shape::Record(Record::Encryption)),
            _ => false,
        },
        Record::Element => match id {
            1 | 2 | 3 | 5 | 6 | 7 | 8 | 9 => value is Int,
            4 => is_short_text(value),
            10 => fits(value, Shape::Record(Record::LogicalType)),
            _ => false,
        },
        Record::LogicalType => match id {
            1 | 2 | 3 | 4 | 6 | 11 | 12 | 13 | 14 => fits(value, Shape::Record(Record::Plain)),
            5 => fits(value, Shape::Record(Record::Decimal)),
            7 | 8 => fits(value, Shape::Record(Record::Time)),
            10 => fits(value, Shape::Record(Record::Integer)),
            _ => false,
        },
        Record::Decimal => match id {
            1 | 2 => value is Int,
            _ => false,
        },
        Record::Time => match id {
            2 => fits(value, Shape::Record(Record::TimeUnit)),
            _ => false,
        },
        Record::TimeUnit => match id {
            1 | 2 | 3 => fits(value, Shape::Record(Record::Plain)),
            _ => false,
        },
        Record::Integer => match id {
            1 => value is Byte,
            _ => false,
        },
        Record::RowGroup => match id {
            1 => fits(value, Shape::Records(Record::Chunk)),
            2 | 3 | 5 | 6 => value is Long,
            4 => fits(value, Shape::Records(Record::SortingColumn)),
            7 => value is Short,
            _ => false,
        },
        Record::Chunk => match id {
            1 | 9 => is_short_text(value),
            2 | 4 | 6 => value is Long,
            3 => fits(value, Shape::Record(Record::Column)),
            5 | 7 => value is Int,
            8 => fits(value, Shape::Record(Record::ColumnCrypto)),
            _ => false,
        },
        Record::Column => match id {
            1 | 4 => value is Int,
            2 => fits(value, Shape::Ints),
            3 => fits(value, Shape::Texts),
            5 | 6 | 7 | 9 | 10 | 11 | 14 => value is Long,
            8 => fits(value, Shape::Records(Record::KeyValue)),
            12 => fits(value, Shape::Record(Record::Statistics)),
            13 => fits(value, Shape::Records(Record::PageEncoding)),
            _ => false,
        },
        Record::Statistics => match id {
            1 | 2 | 5 | 6 => is_short_text(value),
            3 | 4 => value is Long,
            _ => false,
        },
        Record::KeyValue => match id {
            1 | 2 => is_short_text(value),
            _ => false,
        },
        Record::SortingColumn => match id {
            1 => value is Int,
            _ => false,
        },
        Record::PageEncoding => match id {
            1 | 2 | 3 => value is Int,
            _ => false,
        },
        Record::ColumnCrypto => match id {
            1 => fits(value, Shape::Record(Record::Plain)),
            2 => fits(value, Shape::Record(Record::ColumnKey)),
            _ => false,
        },
        Record::ColumnKey => match id {
            1 => fits(value, Shape::Texts),
            2 => is_short_text(value),
            _ => false,
        },
        Record::ColumnOrder => match id {
            1 => fits(value, Shape::Record(Record::Plain)),
            _ => false,
        },
        Record::Encryption => match id {
            1 | 2 => fits(value, Shape::Record(Record::Cipher)),
            _ => false,
        },
        Record::Cipher => match id {
            1 | 2 => is_short_text(value),
            _ => false,
        },
    }
}

/// What a field holds is read by its id, whatever the type that stands before it says,
/// except that a flag is in what stands before it: one is taken only where one is expected,
/// and where the field is not known.
pub proof fn law_fields_are_read_by_their_ids(
    bytes: Seq<u8>,
    p: int,
    record: Record,
    id: i16,
    wire: u8,
    value: Value,
)
    requires
        is_small(bytes),
        is_at(bytes, p, encode(value)),
        is_of_field(record, id, value),
    ensures
        wire != 1 && wire != 2 ==> after_field(bytes, p, record, id, wire) == Outcome::At(
            p + encode(value).len(),
        ),
        wire == 1 || wire == 2 ==> after_field(bytes, p, record, id, wire) == Outcome::Unclear,
{
    let shape = expected(record, id)->0;
    assert(expected(record, id) is Some && fits(value, shape));
    law_values_are_read_through(bytes, p, value, shape);
}

/// Flags are taken where they are expected: whether a time is in UTC, whether an integer has
/// a sign, how rows are sorted, and whether a prefix is supplied.
pub proof fn law_flags_are_taken(bytes: Seq<u8>, p: int, wire: u8)
    requires
        wire == 1 || wire == 2,
    ensures
        after_field(bytes, p, Record::Time, 1, wire) == Outcome::At(p),
        after_field(bytes, p, Record::Integer, 2, wire) == Outcome::At(p),
        after_field(bytes, p, Record::SortingColumn, 2, wire) == Outcome::At(p),
        after_field(bytes, p, Record::SortingColumn, 3, wire) == Outcome::At(p),
        after_field(bytes, p, Record::Cipher, 3, wire) == Outcome::At(p),
{
}

/// A type that there is not is an error, before a field as well as before items. Items are
/// never said to be flags that are off.
pub proof fn law_types_that_are_not(bytes: Seq<u8>, p: int, last: i16)
    requires
        0 <= p < bytes.len(),
    ensures
        bytes[p] % 16 > 12 ==> header(bytes, p, last) == Header::Fails,
        bytes[p] % 16 > 12 ==> list_header(bytes, p) is None,
        bytes[p] % 16 == 2 ==> list_header(bytes, p) is None,
        bytes[p] == 0 ==> header(bytes, p, last) == Header::Stop(p + 1),
        p + 1 == bytes.len() && bytes[p] % 16 != 0 && bytes[p] / 16 == 0 ==> header(bytes, p, last)
            == Header::Fails,
{
}

/// A number in the field of a record is read through, and what follows the field is looked
/// at first.
proof fn lemma_number_field(
    bytes: Seq<u8>,
    p: int,
    record: Record,
    last: i16,
    id: i16,
    next: int,
    value: i32,
    wanted: i16,
)
    requires
        header(bytes, p, last) == (Header::Entry { id, wire: 5, next }),
        0 <= p < next,
        is_at(bytes, next, number(zigzag(value as int))),
        expected(record, id) == Some(Shape::Int),
    ensures
        field_after(bytes, p, record, last, wanted) == (match field_after(
            bytes,
            next + number(zigzag(value as int)).len(),
            record,
            id,
            wanted,
        ) {
            Some(later) => Some(later),
            None => if id == wanted {
                Some(next)
            } else {
                None
            },
        }),
{
    lemma_int(bytes, next, value);
    assert(after_field(bytes, next, record, id, 5) == after_value(bytes, next, Shape::Int));
}

/// Where a record has a field twice, the second one counts.
pub proof fn law_last_field_counts(
    bytes: Seq<u8>,
    p: int,
    record: Record,
    id: i16,
    a: i32,
    b: i32,
)
    requires
        record is Element && 1 <= id <= 9 && id != 4 || record is PageEncoding && 1 <= id <= 3
            || record is Column && (id == 1 || id == 4),
        is_at(
            bytes,
            p,
            field_head(0, id as int, 5) + (number(zigzag(a as int)) + (field_head(
                id as int,
                id as int,
                5,
            ) + (number(zigzag(b as int)) + seq![0u8]))),
        ),
    ensures
        int_in(bytes, p, record, id) == Some(b as int),
{
    let first = field_head(0, id as int, 5);
    let x = number(zigzag(a as int));
    let second = field_head(id as int, id as int, 5);
    let y = number(zigzag(b as int));
    let end = seq![0u8];
    lemma_parts(bytes, p, first, x + (second + (y + end)));
    let q = p + first.len();
    lemma_parts(bytes, q, x, second + (y + end));
    let r = q + x.len();
    lemma_parts(bytes, r, second, y + end);
    let t = r + second.len();
    lemma_parts(bytes, t, y, end);
    let u = t + y.len();
    lemma_field_head(bytes, p, 0, id as int, 5);
    lemma_byte(bytes, r, second, 0);
    assert(bytes[r] == 5);
    lemma_parts(bytes, r, seq![5u8], number(zigzag(id as int)));
    lemma_short(bytes, r + 1, id);
    assert(header(bytes, r, id) == (Header::Entry { id, wire: 5, next: t }));
    lemma_byte(bytes, u, end, 0);
    assert(header(bytes, u, id) == Header::Stop(u + 1));
    assert(field_after(bytes, u, record, id, id) is None);
    lemma_number_field(bytes, r, record, id, id, t, b, id);
    lemma_number_field(bytes, p, record, 0, id, q, a, id);
    lemma_int(bytes, t, b);
}

} // verus!
