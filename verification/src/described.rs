//! Which schemas that writers describe can be turned into fields.
//!
//! A schema is described twice in a file: by the tree of its columns, and where the writer
//! added one by a message. The laws here say which of them [`can_convert`] admits.
//!
//! [`can_convert`]: crate::embedded::can_convert

use vstd::prelude::*;
use crate::embedded::{
    are_fields, elements_end, embedded_text, holds_entries, is_field_tree, is_supported,
    is_supported_schema, message_bytes, num_used_ids, type_id, visit, MessageField,
    MessageSchema, TreeElement, Visit,
};
use crate::tree::{after_node, level_under, still_open, with_child, OpenGroup};

verus! {

/// Types without parts are supported, and numbers of types that there are not are none.
pub proof fn law_types_without_parts(field: MessageField)
    requires
        field.has_name,
        field.index is None,
    ensures
        is_supported(MessageField { kind: 1, ..field }),
        is_supported(MessageField { kind: 4, ..field }),
        is_supported(MessageField { kind: 5, ..field }),
        is_supported(MessageField { kind: 6, ..field }),
        is_supported(MessageField { kind: 19, ..field }),
        is_supported(MessageField { kind: 20, ..field }),
        field.kind == 0 || field.kind > 22 ==> !is_supported(field),
{
}

/// Integers have 8, 16, 32 or 64 bits, whether they have a sign or not, and so has the
/// index of a dictionary, of whatever type its values are.
pub proof fn law_integers(field: MessageField, bits: i32, signed: bool)
    requires
        field.has_name,
        field.index is None,
    ensures
        is_supported(MessageField { kind: 2, int: Some((bits, signed)), ..field }) <==> bits == 8
            || bits == 16 || bits == 32 || bits == 64,
        !is_supported(MessageField { kind: 2, int: None, ..field }),
        is_supported(field) ==> (is_supported(
            MessageField { index: Some(Some((bits, signed))), ..field },
        ) <==> bits == 8 || bits == 16 || bits == 32 || bits == 64),
        !is_supported(MessageField { index: Some(None), ..field }),
        !is_supported(MessageField { has_name: false, ..field }),
{
    let indexed = MessageField { index: Some(Some((bits, signed))), ..field };
    assert(indexed.children == field.children && indexed.kind == field.kind);
    reveal_with_fuel(is_supported, 2);
}

/// Numbers, dates and times have a precision or a unit that there is. Times in seconds and
/// milliseconds have 32 bits, and those in microseconds and nanoseconds have 64.
pub proof fn law_units(field: MessageField, unit: i16)
    requires
        field.has_name,
        field.index is None,
    ensures
        is_supported(MessageField { kind: 3, precision: Some(unit), ..field }) <==> 0 <= unit < 3,
        is_supported(MessageField { kind: 8, date: Some(unit), ..field }) <==> 0 <= unit < 2,
        is_supported(MessageField { kind: 9, time: Some((32, unit)), ..field }) <==> unit == 0
            || unit == 1,
        is_supported(MessageField { kind: 9, time: Some((64, unit)), ..field }) <==> unit == 2
            || unit == 3,
        is_supported(MessageField { kind: 10, timestamp: Some(unit), ..field }) <==> 0 <= unit < 4,
        is_supported(MessageField { kind: 11, interval: Some(unit), ..field }) <==> 0 <= unit < 3,
        is_supported(MessageField { kind: 18, duration: Some(unit), ..field }) <==> 0 <= unit < 4,
        !is_supported(MessageField { kind: 3, precision: None, ..field }),
        !is_supported(MessageField { kind: 8, date: None, ..field }),
        !is_supported(MessageField { kind: 9, time: None, ..field }),
        !is_supported(MessageField { kind: 10, timestamp: None, ..field }),
        !is_supported(MessageField { kind: 11, interval: None, ..field }),
        !is_supported(MessageField { kind: 18, duration: None, ..field }),
{
}

/// Decimal numbers have 128 or 256 bits, and a precision and a scale of a byte each.
/// Binary values of a fixed size have that size.
pub proof fn law_sized_types(field: MessageField, bits: i32, precision: i32, scale: i32)
    requires
        field.has_name,
        field.index is None,
    ensures
        is_supported(
            MessageField { kind: 7, decimal: Some((bits, precision, scale)), ..field },
        ) <==> (bits == 128 || bits == 256) && 0 <= precision < 256 && -128 <= scale < 128,
        !is_supported(MessageField { kind: 7, decimal: None, ..field }),
        is_supported(MessageField { kind: 15, has_fixed_size_binary: true, ..field }),
        !is_supported(MessageField { kind: 15, has_fixed_size_binary: false, ..field }),
{
}

/// Lists, large lists, lists of a fixed size and maps have one child, and are supported
/// where that is. They are not without a child or with more than one.
pub proof fn law_lists(field: MessageField, child: MessageField, children: Seq<MessageField>)
    requires
        field.has_name,
        field.index is None,
    ensures
        is_supported(MessageField { kind: 12, children: Some(seq![child]), ..field })
            <==> is_supported(child),
        is_supported(MessageField { kind: 21, children: Some(seq![child]), ..field })
            <==> is_supported(child),
        is_supported(
            MessageField {
                kind: 16,
                children: Some(seq![child]),
                has_fixed_size_list: true,
                ..field
            },
        ) <==> is_supported(child),
        is_supported(
            MessageField { kind: 17, children: Some(seq![child]), has_map: true, ..field },
        ) <==> is_supported(child),
        children.len() != 1 ==> {
            &&& !is_supported(MessageField { kind: 12, children: Some(children), ..field })
            &&& !is_supported(MessageField { kind: 21, children: Some(children), ..field })
            &&& !is_supported(MessageField { kind: 16, children: Some(children), ..field })
            &&& !is_supported(MessageField { kind: 17, children: Some(children), ..field })
        },
        !is_supported(MessageField { kind: 12, children: None, ..field }),
        !is_supported(MessageField { kind: 21, children: None, ..field }),
        !is_supported(MessageField { kind: 16, children: None, ..field }),
        !is_supported(MessageField { kind: 17, children: None, ..field }),
        !is_supported(MessageField { kind: 16, has_fixed_size_list: false, ..field }),
        !is_supported(MessageField { kind: 17, has_map: false, ..field }),
{
    reveal_with_fuel(is_supported, 2);
    assert(seq![child][0] == child);
}

/// Structs are supported where all their children are, and run-end encoded values where
/// their two children are.
pub proof fn law_structs(
    field: MessageField,
    children: Seq<MessageField>,
    ends: MessageField,
    values: MessageField,
)
    requires
        field.has_name,
        field.index is None,
    ensures
        is_supported(MessageField { kind: 13, children: Some(children), ..field }) <==> forall|
            i: int,
        |
            0 <= i < children.len() ==> is_supported(#[trigger] children[i]),
        is_supported(MessageField { kind: 13, children: None, ..field }),
        is_supported(MessageField { kind: 22, children: Some(seq![ends, values]), ..field })
            <==> is_supported(ends) && is_supported(values),
        children.len() != 2 ==> !is_supported(
            MessageField { kind: 22, children: Some(children), ..field },
        ),
{
    let pair = seq![ends, values];
    let record = MessageField { kind: 13, children: Some(children), ..field };
    assert(pair[0] == ends && pair[1] == values);
    assert(is_supported(record) == (forall|i: int|
        0 <= i < record.children->0.len() ==> is_supported(#[trigger] record.children->0[i])));
    assert(record.children->0 == children);
}

/// Unions are sparse or dense. They are supported where all their children are and, if
/// these have numbers, the numbers are different ones from 0 to 127.
pub proof fn law_unions(
    field: MessageField,
    mode: i16,
    children: Seq<MessageField>,
    ids: Seq<i32>,
    i: int,
    j: int,
)
    requires
        field.has_name,
        field.index is None,
        ids.len() == children.len(),
        forall|k: int| 0 <= k < children.len() ==> is_supported(#[trigger] children[k]),
    ensures
        is_supported(
            MessageField {
                kind: 14,
                union_mode: Some(mode),
                type_ids: None,
                children: Some(children),
                ..field
            },
        ) <==> mode == 0 || mode == 1,
        (forall|k: int| 0 <= k < ids.len() ==> 0 <= #[trigger] ids[k] < 128) && (forall|
            k: int,
            l: int,
        |
            0 <= k < l < ids.len() ==> #[trigger] ids[k] != #[trigger] ids[l]) && 0 <= mode < 2
            ==> is_supported(
            MessageField {
                kind: 14,
                union_mode: Some(mode),
                type_ids: Some(ids),
                children: Some(children),
                ..field
            },
        ),
        0 <= i < j < ids.len() && ids[i] == ids[j] ==> !is_supported(
            MessageField {
                kind: 14,
                union_mode: Some(mode),
                type_ids: Some(ids),
                children: Some(children),
                ..field
            },
        ),
        0 <= i < ids.len() && -128 <= ids[i] < 0 ==> !is_supported(
            MessageField {
                kind: 14,
                union_mode: Some(mode),
                type_ids: Some(ids),
                children: Some(children),
                ..field
            },
        ),
        !is_supported(MessageField { kind: 14, union_mode: None, ..field }),
{
    reveal_with_fuel(is_supported, 2);
    let used = ids.take(num_used_ids(ids.len(), Some(children)));
    assert(used =~= ids);
    if 0 <= i < j < ids.len() && ids[i] == ids[j] {
        assert(type_id(used[i]) == type_id(used[j]));
    }
    if 0 <= i < ids.len() && -128 <= ids[i] < 0 {
        assert(type_id(used[i]) < 0);
    }
}

/// A schema is supported where all its fields are, except that none may be a decimal
/// number whose most significant byte comes first.
pub proof fn law_schemas_of_messages(fields: Seq<MessageField>)
    ensures
        is_supported_schema(MessageSchema { is_big_endian: false, fields: Some(fields) })
            <==> forall|i: int| 0 <= i < fields.len() ==> is_supported(#[trigger] fields[i]),
        is_supported_schema(MessageSchema { is_big_endian: true, fields: Some(fields) })
            <==> forall|i: int|
            0 <= i < fields.len() ==> is_supported(#[trigger] fields[i]) && fields[i].kind != 7,
        !is_supported_schema(MessageSchema { is_big_endian: false, fields: None }),
        !is_supported_schema(MessageSchema { is_big_endian: true, fields: None }),
{
}

/// The text of a schema is the last value of the key `ARROW:schema`. There is none where
/// the key is not there, or never has a value.
pub proof fn law_embedded_text(entries: Seq<(Seq<char>, Option<Seq<char>>)>, k: int)
    requires
        -1 <= k < entries.len(),
        k >= 0 ==> entries[k].0 == "ARROW:schema"@ && entries[k].1 is Some,
        forall|i: int|
            k < i < entries.len() ==> !((#[trigger] entries[i]).0 == "ARROW:schema"@
                && entries[i].1 is Some),
    ensures
        embedded_text(entries) == (if k >= 0 {
            entries[k].1
        } else {
            None
        }),
    decreases entries.len(),
{
    if entries.len() > 0 && k < entries.len() - 1 {
        let init = entries.drop_last();
        assert(!(entries[entries.len() - 1].0 == "ARROW:schema"@ && entries[entries.len()
            - 1].1 is Some));
        assert forall|i: int| k < i < init.len() implies !((#[trigger] init[i]).0
            == "ARROW:schema"@ && init[i].1 is Some) by {
            assert(init[i] == entries[i]);
        }
        law_embedded_text(init, k);
    }
}

/// A message comes behind a mark of four bytes of 255 and its length in four bytes, or is
/// all that there is.
pub proof fn law_message_bytes(length: Seq<u8>, message: Seq<u8>)
    requires
        length.len() == 4,
        message.len() > 0,
    ensures
        message_bytes(seq![255u8, 255u8, 255u8, 255u8] + length + message) == message,
        message.len() >= 4 && !(message[0] == 255 && message[1] == 255 && message[2] == 255
            && message[3] == 255) ==> message_bytes(message) == message,
        message.len() <= 8 ==> message_bytes(message) == message,
{
    let mark = seq![255u8, 255u8, 255u8, 255u8];
    let bytes = mark + length + message;
    assert(bytes.subrange(0, 4) =~= mark);
    assert(bytes.subrange(8, bytes.len() as int) =~= message);
    if message.len() > 8 && message.subrange(0, 4) == mark {
        assert(message.subrange(0, 4)[0] == 255 && message.subrange(0, 4)[1] == 255
            && message.subrange(0, 4)[2] == 255 && message.subrange(0, 4)[3] == 255);
    }
}

/// A node of the tree of columns, as writers of nested schemas state it.
pub enum FieldNode {
    Column { repetition: i32, converted: Option<i32> },
    Group { repetition: i32, converted: Option<i32>, parts: Seq<FieldNode> },
    /// A list, whose items are held by a repeated column, or by a repeated group of parts.
    Items { repetition: i32, held_by: Option<i32>, parts: Option<Seq<FieldNode>> },
    /// A map, whose entries are held by a repeated group of the two parts.
    Entries { repetition: i32, converted: i32, held_by: Option<i32>, parts: Seq<FieldNode> },
}

/// How often a node occurs.
pub open spec fn repetition_of(node: FieldNode) -> i32 {
    match node {
        FieldNode::Column { repetition, .. } => repetition,
        FieldNode::Group { repetition, .. } => repetition,
        FieldNode::Items { repetition, .. } => repetition,
        FieldNode::Entries { repetition, .. } => repetition,
    }
}

/// An element of the tree of columns.
pub open spec fn element(
    num_children: Option<i32>,
    converted: Option<i32>,
    repetition: i32,
) -> TreeElement {
    TreeElement { num_children, converted_type: converted, repetition: Some(repetition) }
}

/// The elements of a node and of what is under it.
pub open spec fn elements_of(node: FieldNode) -> Seq<TreeElement>
    decreases node, 0nat,
{
    match node {
        FieldNode::Column { repetition, converted } => seq![element(None, converted, repetition)],
        FieldNode::Group { repetition, converted, parts } => seq![
            element(Some(parts.len() as i32), converted, repetition),
        ] + all_elements(parts, 0),
        FieldNode::Items { repetition, held_by, parts } => seq![
            element(Some(1), Some(3), repetition),
        ] + (match parts {
            Some(parts) => seq![element(Some(parts.len() as i32), held_by, 2)] + all_elements(
                parts,
                0,
            ),
            None => seq![element(None, held_by, 2)],
        }),
        FieldNode::Entries { repetition, converted, held_by, parts } => seq![
            element(Some(1), Some(converted), repetition),
        ] + (seq![element(Some(2), held_by, 2)] + all_elements(parts, 0)),
    }
}

/// The elements of the parts from the one at `k` on.
pub open spec fn all_elements(parts: Seq<FieldNode>, k: int) -> Seq<TreeElement>
    decreases parts, parts.len() - k,
{
    if 0 <= k < parts.len() {
        elements_of(parts[k]) + all_elements(parts, k + 1)
    } else {
        Seq::empty()
    }
}

/// Whether a node is as writers state it, and no level under it is too deep to be counted:
/// lists and maps are not repeated, and a map has a required key and a value that is not
/// repeated.
pub open spec fn is_field(node: FieldNode, level: int) -> bool
    decreases node, 0nat,
{
    let next = if repetition_of(node) > 0 {
        level + 1
    } else {
        level
    };
    &&& 0 <= repetition_of(node) <= 2
    &&& next <= i16::MAX
    &&& match node {
        FieldNode::Column { .. } => true,
        FieldNode::Group { converted, parts, .. } => {
            &&& converted != Some(1i32) && converted != Some(2i32) && converted != Some(3i32)
            &&& parts.len() <= i32::MAX
            &&& are_all_fields(parts, 0, next)
        },
        FieldNode::Items { repetition, parts, .. } => {
            &&& repetition < 2
            &&& next < i16::MAX
            &&& parts matches Some(parts) ==> parts.len() <= i32::MAX && are_all_fields(
                parts,
                0,
                next + 1,
            )
        },
        FieldNode::Entries { repetition, converted, parts, .. } => {
            &&& repetition < 2
            &&& converted == 1 || converted == 2
            &&& next < i16::MAX
            &&& parts.len() == 2
            &&& repetition_of(parts[0]) == 0
            &&& repetition_of(parts[1]) < 2
            &&& are_all_fields(parts, 0, next + 1)
        },
    }
}

/// Whether the parts from the one at `k` on are as writers state them.
pub open spec fn are_all_fields(parts: Seq<FieldNode>, k: int, level: int) -> bool
    decreases parts, parts.len() - k,
{
    0 <= k < parts.len() ==> is_field(parts[k], level) && are_all_fields(parts, k + 1, level)
}

/// Whether elements hold a part at a place.
spec fn holds(elements: Seq<TreeElement>, i: int, part: Seq<TreeElement>) -> bool {
    0 <= i && i + part.len() <= elements.len() && elements.subrange(i, i + part.len()) == part
}

/// What holds two parts in a row holds each of them.
proof fn lemma_holds(
    elements: Seq<TreeElement>,
    i: int,
    a: Seq<TreeElement>,
    b: Seq<TreeElement>,
)
    requires
        holds(elements, i, a + b),
    ensures
        holds(elements, i, a),
        holds(elements, i + a.len(), b),
{
    let whole = elements.subrange(i, i + (a + b).len());
    assert forall|k: int| 0 <= k < a.len() implies elements[i + k] == a[k] by {
        assert(whole[k] == (a + b)[k]);
    }
    assert(elements.subrange(i, i + a.len()) =~= a);
    assert forall|k: int| 0 <= k < b.len() implies elements[i + a.len() + k] == b[k] by {
        assert(whole[a.len() + k] == (a + b)[a.len() + k]);
    }
    assert(elements.subrange(i + a.len(), i + a.len() + b.len()) =~= b);
}

/// The first element of a part.
proof fn lemma_first(elements: Seq<TreeElement>, i: int, part: Seq<TreeElement>)
    requires
        holds(elements, i, part),
        part.len() > 0,
    ensures
        elements[i] == part[0],
{
    assert(elements.subrange(i, i + part.len())[0] == part[0]);
}

/// A node starts with an element of its repetition.
proof fn lemma_node_starts(node: FieldNode)
    ensures
        elements_of(node).len() > 0,
        elements_of(node)[0].repetition == Some(repetition_of(node)),
{
}

/// Where a node ends.
#[verifier::rlimit(30)]
proof fn lemma_node_end(elements: Seq<TreeElement>, i: int, node: FieldNode, level: int, n: nat)
    requires
        holds(elements, i, elements_of(node)),
        is_field(node, level),
        n > 0,
    ensures
        elements_end(elements, i, n) == elements_end(
            elements,
            i + elements_of(node).len(),
            (n - 1) as nat,
        ),
    decreases node, 0nat,
{
    let next = if repetition_of(node) > 0 {
        level + 1
    } else {
        level
    };
    lemma_node_starts(node);
    lemma_first(elements, i, elements_of(node));
    match node {
        FieldNode::Column { repetition, converted } => {},
        FieldNode::Group { repetition, converted, parts } => {
            let head = seq![element(Some(parts.len() as i32), converted, repetition)];
            lemma_holds(elements, i, head, all_elements(parts, 0));
            lemma_parts_end(elements, i + 1, parts, 0, next, (n - 1) as nat);
        },
        FieldNode::Items { repetition, held_by, parts } => {
            let head = seq![element(Some(1), Some(3), repetition)];
            match parts {
                Some(parts) => {
                    let holder = seq![element(Some(parts.len() as i32), held_by, 2)];
                    lemma_holds(elements, i, head, holder + all_elements(parts, 0));
                    lemma_holds(elements, i + 1, holder, all_elements(parts, 0));
                    lemma_first(elements, i + 1, holder);
                    lemma_parts_end(elements, i + 2, parts, 0, next + 1, (n - 1) as nat);
                    assert(elements_end(elements, i + 1, n) == elements_end(
                        elements,
                        i + 2,
                        (n - 1 + parts.len()) as nat,
                    ));
                },
                None => {
                    let holder = seq![element(None, held_by, 2)];
                    lemma_holds(elements, i, head, holder);
                    lemma_first(elements, i + 1, holder);
                    assert(elements_end(elements, i + 1, n) == elements_end(
                        elements,
                        i + 2,
                        (n - 1) as nat,
                    ));
                },
            }
        },
        FieldNode::Entries { repetition, converted, held_by, parts } => {
            let head = seq![element(Some(1), Some(converted), repetition)];
            let holder = seq![element(Some(2), held_by, 2)];
            lemma_holds(elements, i, head, holder + all_elements(parts, 0));
            lemma_holds(elements, i + 1, holder, all_elements(parts, 0));
            lemma_first(elements, i + 1, holder);
            lemma_parts_end(elements, i + 2, parts, 0, next + 1, (n - 1) as nat);
            assert(elements_end(elements, i + 1, n) == elements_end(
                elements,
                i + 2,
                (n + 1) as nat,
            ));
        },
    }
}

/// Where parts end.
proof fn lemma_parts_end(
    elements: Seq<TreeElement>,
    i: int,
    parts: Seq<FieldNode>,
    k: int,
    level: int,
    n: nat,
)
    requires
        holds(elements, i, all_elements(parts, k)),
        0 <= k <= parts.len(),
        are_all_fields(parts, k, level),
    ensures
        elements_end(elements, i, (n + parts.len() - k) as nat) == elements_end(
            elements,
            i + all_elements(parts, k).len(),
            n,
        ),
    decreases parts, parts.len() - k,
{
    if k < parts.len() {
        let part = elements_of(parts[k]);
        lemma_holds(elements, i, part, all_elements(parts, k + 1));
        lemma_node_end(elements, i, parts[k], level, (n + parts.len() - k) as nat);
        lemma_parts_end(elements, i + part.len(), parts, k + 1, level, n);
    }
}

/// A child leaves a group open where more are to come, and completes it otherwise.
proof fn lemma_child(groups: Seq<OpenGroup>)
    requires
        groups.len() > 0,
        groups.last().left > 0,
    ensures
        with_child(groups).len() == groups.len(),
        with_child(groups).drop_last() == groups.drop_last(),
        with_child(groups).last() == (OpenGroup {
            left: (groups.last().left - 1) as u32,
            ..groups.last()
        }),
        still_open(with_child(groups)) == (if groups.last().left == 1 {
            still_open(groups.drop_last())
        } else {
            with_child(groups)
        }),
{
    assert(with_child(groups).drop_last() =~= groups.drop_last());
}

/// The elements that are visited, under the groups that are open.
#[verifier::opaque]
spec fn visited(elements: Seq<TreeElement>, i: int, groups: Seq<OpenGroup>) -> bool {
    are_fields(elements, i, groups)
}

/// A group with parts is visited with them, and is one child more of the last group.
proof fn lemma_group_visited(
    elements: Seq<TreeElement>,
    i: int,
    groups: Seq<OpenGroup>,
    parts: Seq<FieldNode>,
    level: u32,
)
    requires
        holds(elements, i, all_elements(parts, 0)),
        groups.len() > 0,
        groups.last().left > 0,
        parts.len() <= i32::MAX,
        level <= i16::MAX,
        are_all_fields(parts, 0, level as int),
    ensures
        visited(elements, i, after_node(groups, parts.len() as i32, level, false)) == visited(
            elements,
            i + all_elements(parts, 0).len(),
            still_open(with_child(groups)),
        ),
    decreases parts, parts.len() + 1,
{
    if parts.len() > 0 {
        let open = after_node(groups, parts.len() as i32, level, false);
        assert(open.drop_last() =~= with_child(groups));
        lemma_parts_visited(elements, i, parts, 0, open);
    }
}

/// The parts of a group from the one at `k` on are visited, with which it is complete.
proof fn lemma_parts_visited(
    elements: Seq<TreeElement>,
    i: int,
    parts: Seq<FieldNode>,
    k: int,
    groups: Seq<OpenGroup>,
)
    requires
        holds(elements, i, all_elements(parts, k)),
        0 <= k < parts.len(),
        groups.len() > 0,
        groups.last().left == parts.len() - k,
        !groups.last().holds_items,
        groups.last().level <= i16::MAX,
        are_all_fields(parts, k, groups.last().level as int),
    ensures
        visited(elements, i, groups) == visited(
            elements,
            i + all_elements(parts, k).len(),
            still_open(groups.drop_last()),
        ),
    decreases parts, parts.len() - k,
{
    let part = elements_of(parts[k]);
    let after = with_child(groups);
    lemma_holds(elements, i, part, all_elements(parts, k + 1));
    lemma_visited(elements, i, parts[k], groups);
    lemma_child(groups);
    if k + 1 < parts.len() {
        lemma_parts_visited(elements, i + part.len(), parts, k + 1, after);
    } else {
        assert(all_elements(parts, k + 1).len() == 0);
    }
}

/// A group that holds the items of a list or the entries of a map is visited with them.
proof fn lemma_holder_visited(
    elements: Seq<TreeElement>,
    i: int,
    groups: Seq<OpenGroup>,
    level: u32,
    held_by: Option<i32>,
    parts: Seq<FieldNode>,
)
    requires
        groups.len() > 0,
        groups.last().left > 0,
        level < i16::MAX,
        parts.len() <= i32::MAX,
        are_all_fields(parts, 0, level + 1),
        holds(
            elements,
            i,
            seq![element(Some(parts.len() as i32), held_by, 2)] + all_elements(parts, 0),
        ),
    ensures
        visited(elements, i, after_node(groups, 1, level, true)) == visited(
            elements,
            i + 1 + all_elements(parts, 0).len(),
            still_open(with_child(groups)),
        ),
    decreases parts, parts.len() + 2,
{
    reveal(visited);
    let open = after_node(groups, 1, level, true);
    let under = level_under(open, Some(2i32));
    let holder = seq![element(Some(parts.len() as i32), held_by, 2)];
    assert(under == level + 1);
    assert(open.drop_last() =~= with_child(groups));
    lemma_child(open);
    lemma_holds(elements, i, holder, all_elements(parts, 0));
    lemma_first(elements, i, holder);
    lemma_group_visited(elements, i + 1, open, parts, under);
}

/// A column that holds the items of a list is visited.
proof fn lemma_column_visited(
    elements: Seq<TreeElement>,
    i: int,
    groups: Seq<OpenGroup>,
    level: u32,
    held_by: Option<i32>,
)
    requires
        groups.len() > 0,
        groups.last().left > 0,
        level < i16::MAX,
        holds(elements, i, seq![element(None, held_by, 2)]),
    ensures
        visited(elements, i, after_node(groups, 1, level, true)) == visited(
            elements,
            i + 1,
            still_open(with_child(groups)),
        ),
{
    reveal(visited);
    let open = after_node(groups, 1, level, true);
    assert(level_under(open, Some(2i32)) == level + 1);
    assert(open.drop_last() =~= with_child(groups));
    lemma_child(open);
    lemma_first(elements, i, seq![element(None, held_by, 2)]);
}

/// A node is visited, and is one child more of the last group.
#[verifier::rlimit(30)]
proof fn lemma_visited(
    elements: Seq<TreeElement>,
    i: int,
    node: FieldNode,
    groups: Seq<OpenGroup>,
)
    requires
        holds(elements, i, elements_of(node)),
        groups.len() > 0,
        groups.last().left > 0,
        !groups.last().holds_items,
        groups.last().level <= i16::MAX,
        is_field(node, groups.last().level as int),
    ensures
        visited(elements, i, groups) == visited(
            elements,
            i + elements_of(node).len(),
            still_open(with_child(groups)),
        ),
    decreases node, 0nat,
{
    reveal(visited);
    let level = level_under(groups, Some(repetition_of(node)));
    lemma_node_starts(node);
    lemma_first(elements, i, elements_of(node));
    match node {
        FieldNode::Column { repetition, converted } => {},
        FieldNode::Group { repetition, converted, parts } => {
            let head = seq![element(Some(parts.len() as i32), converted, repetition)];
            lemma_holds(elements, i, head, all_elements(parts, 0));
            lemma_group_visited(elements, i + 1, groups, parts, level);
        },
        FieldNode::Items { repetition, held_by, parts } => {
            let head = seq![element(Some(1), Some(3), repetition)];
            match parts {
                Some(parts) => {
                    let holder = seq![element(Some(parts.len() as i32), held_by, 2)];
                    lemma_holds(elements, i, head, holder + all_elements(parts, 0));
                    lemma_first(elements, i + 1, holder + all_elements(parts, 0));
                    lemma_holder_visited(elements, i + 1, groups, level, held_by, parts);
                },
                None => {
                    lemma_holds(elements, i, head, seq![element(None, held_by, 2)]);
                    lemma_first(elements, i + 1, seq![element(None, held_by, 2)]);
                    lemma_column_visited(elements, i + 1, groups, level, held_by);
                },
            }
        },
        FieldNode::Entries { repetition, converted, held_by, parts } => {
            let head = seq![element(Some(1), Some(converted), repetition)];
            let holder = seq![element(Some(2), held_by, 2)];
            lemma_holds(elements, i, head, holder + all_elements(parts, 0));
            lemma_entries(elements, i, held_by, parts, level);
            lemma_holder_visited(elements, i + 1, groups, level, held_by, parts);
        },
    }
}

/// A map holds its entries.
proof fn lemma_entries(
    elements: Seq<TreeElement>,
    i: int,
    held_by: Option<i32>,
    parts: Seq<FieldNode>,
    level: u32,
)
    requires
        holds(elements, i + 1, seq![element(Some(2), held_by, 2)] + all_elements(parts, 0)),
        level < i16::MAX,
        parts.len() == 2,
        repetition_of(parts[0]) == 0,
        repetition_of(parts[1]) < 2,
        are_all_fields(parts, 0, level + 1),
    ensures
        holds_entries(elements, i),
        elements[i + 1].num_children == Some(2i32),
{
    let holder = seq![element(Some(2), held_by, 2)];
    let key = elements_of(parts[0]);
    let value = elements_of(parts[1]);
    lemma_holds(elements, i + 1, holder, all_elements(parts, 0));
    lemma_first(elements, i + 1, holder);
    lemma_holds(elements, i + 2, key, all_elements(parts, 1));
    lemma_holds(elements, i + 2 + key.len(), value, all_elements(parts, 2));
    lemma_node_starts(parts[0]);
    lemma_node_starts(parts[1]);
    lemma_first(elements, i + 2, key);
    lemma_first(elements, i + 2 + key.len(), value);
    lemma_node_end(elements, i + 2, parts[0], level + 1, 1);
    assert(elements_end(elements, i + 2 + key.len(), 0) == i + 2 + key.len());
}

/// Nested schemas are admitted: columns and groups of whatever depth can be counted, lists
/// whose items are held by a repeated column or group, and maps of required keys to values,
/// in whatever order and nesting, with or without a schema in a message.
pub proof fn law_nested_schemas_are_admitted(
    root: TreeElement,
    parts: Seq<FieldNode>,
    has_embedded: bool,
)
    requires
        parts.len() <= i32::MAX,
        root.num_children == Some(parts.len() as i32),
        root.repetition is None || root.repetition == Some(0i32) || root.repetition == Some(1i32),
        root.converted_type is None,
        are_all_fields(
            parts,
            0,
            if root.repetition == Some(1i32) {
                1
            } else {
                0
            },
        ),
    ensures
        is_field_tree(seq![root] + all_elements(parts, 0), has_embedded),
{
    let elements = seq![root] + all_elements(parts, 0);
    let level = level_under(Seq::empty(), root.repetition);
    let open = after_node(Seq::empty(), parts.len() as i32, level, false);
    assert(elements.subrange(0, elements.len() as int) =~= elements);
    lemma_holds(elements, 0, seq![root], all_elements(parts, 0));
    assert(elements[0] == root);
    if parts.len() > 0 {
        assert(open.drop_last() =~= Seq::<OpenGroup>::empty());
        lemma_parts_visited(elements, 1, parts, 0, open);
    }
    reveal(visited);
}

/// What leads to a panic is not admitted, whatever follows it: a map whose entries are held
/// by a repeated column, a list that does not say how often it occurs, a repeated root with
/// fields, and without a schema in a message a list in place of the root.
pub proof fn law_panics_are_not_admitted(
    root: TreeElement,
    first: TreeElement,
    second: TreeElement,
    rest: Seq<TreeElement>,
    has_embedded: bool,
)
    requires
        root.num_children matches Some(children) && children > 0,
    ensures
        ({
            let elements = seq![root, first, second] + rest;
            &&& root.converted_type is None && root.repetition is None && (first.converted_type
                == Some(1i32) || first.converted_type == Some(2i32)) && first.num_children == Some(
                1i32,
            ) && first.repetition != Some(2i32) && second.repetition == Some(2i32)
                && second.num_children is None ==> !is_field_tree(elements, has_embedded)
            &&& root.converted_type is None && root.repetition is None && first.converted_type
                == Some(3i32) && first.num_children == Some(1i32) && first.repetition is None
                && second.repetition == Some(2i32) ==> !is_field_tree(elements, has_embedded)
            &&& root.converted_type is None && root.repetition == Some(2i32) ==> !is_field_tree(
                elements,
                has_embedded,
            )
            &&& root.converted_type == Some(3i32) && root.num_children == Some(1i32)
                && root.repetition == Some(0i32) && first.repetition == Some(2i32) ==> (
            is_field_tree(elements, has_embedded) <==> has_embedded)
        }),
{
    let elements = seq![root, first, second] + rest;
    assert(elements[0] == root && elements[1] == first && elements[2] == second);
    let children = root.num_children->0;
    let level = level_under(Seq::empty(), root.repetition);
    let open = after_node(Seq::empty(), children, level, false);
    assert(open.len() == 1);
}

/// Of the numbers of the parts of a union, as many are looked at as it has parts, and one
/// more. What comes behind does not matter.
pub proof fn law_unions_with_more_numbers(
    field: MessageField,
    mode: i16,
    children: Seq<MessageField>,
    ids: Seq<i32>,
    i: int,
    j: int,
)
    requires
        field.has_name,
        field.index is None,
        ids.len() > children.len(),
        forall|k: int| 0 <= k < children.len() ==> is_supported(#[trigger] children[k]),
    ensures
        (forall|k: int| 0 <= k <= children.len() ==> 0 <= #[trigger] ids[k] < 128) && (forall|
            k: int,
            l: int,
        |
            0 <= k < l <= children.len() ==> #[trigger] ids[k] != #[trigger] ids[l]) && 0 <= mode
            < 2 ==> is_supported(
            MessageField {
                kind: 14,
                union_mode: Some(mode),
                type_ids: Some(ids),
                children: Some(children),
                ..field
            },
        ),
        0 <= i < j <= children.len() && ids[i] == ids[j] ==> !is_supported(
            MessageField {
                kind: 14,
                union_mode: Some(mode),
                type_ids: Some(ids),
                children: Some(children),
                ..field
            },
        ),
{
    reveal_with_fuel(is_supported, 2);
    let used = ids.take(num_used_ids(ids.len(), Some(children)));
    assert(used =~= ids.take(children.len() as int + 1));
    if 0 <= i < j <= children.len() && ids[i] == ids[j] {
        assert(type_id(used[i]) == type_id(used[j]));
    }
}

/// What is refused is admitted, since that is an error which is returned, whatever follows
/// it: a list that is repeated, or that has not one child, or one that is not repeated, and
/// a map that is repeated, that has not one child, or whose child is no repeated group of
/// two.
pub proof fn law_refused_nodes_are_admitted(
    root: TreeElement,
    first: TreeElement,
    second: TreeElement,
    rest: Seq<TreeElement>,
    has_embedded: bool,
)
    requires
        root.num_children matches Some(children) && children > 0,
        root.converted_type is None,
        root.repetition is None,
        first.num_children is Some,
    ensures
        ({
            let elements = seq![root, first, second] + rest;
            let is_list = first.converted_type == Some(3i32);
            let is_map = first.converted_type == Some(1i32) || first.converted_type == Some(2i32);
            &&& is_list && first.num_children != Some(1i32) ==> is_field_tree(
                elements,
                has_embedded,
            )
            &&& is_list && second.repetition != Some(2i32) ==> is_field_tree(
                elements,
                has_embedded,
            )
            &&& is_list && first.repetition == Some(2i32) ==> is_field_tree(elements, has_embedded)
            &&& is_map && first.repetition == Some(2i32) ==> is_field_tree(elements, has_embedded)
            &&& is_map && first.num_children != Some(1i32) ==> is_field_tree(
                elements,
                has_embedded,
            )
            &&& is_map && second.repetition != Some(2i32) ==> is_field_tree(
                elements,
                has_embedded,
            )
            &&& is_map && second.num_children is Some && second.num_children != Some(2i32)
                ==> is_field_tree(elements, has_embedded)
        }),
{
    let elements = seq![root, first, second] + rest;
    assert(elements[0] == root && elements[1] == first && elements[2] == second);
    let children = root.num_children->0;
    let level = level_under(Seq::empty(), root.repetition);
    let open = after_node(Seq::empty(), children, level, false);
    assert(open.len() == 1);
}

/// No node is deeper than levels can be counted, and no map is as deep as that, since its
/// entries are one level deeper.
pub proof fn law_depth_of_nodes(elements: Seq<TreeElement>, i: int, level: u32, holder: bool)
    requires
        0 <= i < elements.len(),
    ensures
        level > i16::MAX ==> visit(elements, i, level, holder) is Panics,
        level == i16::MAX && !holder && elements[i].num_children is Some && (
        elements[i].converted_type == Some(1i32) || elements[i].converted_type == Some(2i32))
            && elements[i].repetition != Some(2i32) ==> visit(elements, i, level, holder) is Panics,
        level <= i16::MAX && (holder || elements[i].num_children is None) ==> visit(
            elements,
            i,
            level,
            holder,
        ) == (Visit::Children { hold_items: false }),
        level <= i16::MAX && elements[i].converted_type is None ==> visit(
            elements,
            i,
            level,
            holder,
        ) == (Visit::Children { hold_items: false }),
{
}

} // verus!
