//! Walking a tree that is listed with each node before its children.

use vstd::prelude::*;

verus! {

/// A group of which children are still to come.
#[derive(Clone, Copy, Debug, PartialEq, Eq, Structural)]
pub struct OpenGroup {
    /// How many are still to come.
    pub left: u32,
    /// How many of the nodes down to the group are optional or repeated.
    pub level: u32,
    /// Whether the group is a map or a list, whose child only holds the items.
    pub holds_items: bool,
}

/// The groups without those at the end that have no more children to come.
pub open spec fn still_open(groups: Seq<OpenGroup>) -> Seq<OpenGroup>
    decreases groups.len(),
{
    if groups.len() > 0 && groups.last().left == 0 {
        still_open(groups.drop_last())
    } else {
        groups
    }
}

/// The groups after a child of the last one.
pub open spec fn with_child(groups: Seq<OpenGroup>) -> Seq<OpenGroup> {
    if groups.len() == 0 {
        groups
    } else {
        let last = groups.last();
        groups.drop_last().push(OpenGroup { left: (last.left - 1) as u32, ..last })
    }
}

/// The groups after a node with so many children under the last one.
pub open spec fn after_node(
    groups: Seq<OpenGroup>,
    children: i32,
    level: u32,
    holds_items: bool,
) -> Seq<OpenGroup> {
    if children > 0 {
        with_child(groups).push(OpenGroup { left: children as u32, level, holds_items })
    } else {
        still_open(with_child(groups))
    }
}

/// The level of a node of this repetition under the last of these groups.
pub open spec fn level_under(groups: Seq<OpenGroup>, repetition: Option<i32>) -> u32 {
    let level = if groups.len() == 0 {
        0
    } else {
        groups.last().level
    };
    if repetition matches Some(r) && r > 0 {
        (level + 1) as u32
    } else {
        level
    }
}

/// Takes away the groups at the end that have no more children to come.
fn close_groups(groups: &mut Vec<OpenGroup>)
    ensures
        final(groups)@ == still_open(old(groups)@),
        final(groups)@.len() <= old(groups)@.len(),
        forall|k: int|
            0 <= k < final(groups)@.len() ==> #[trigger] final(groups)@[k] == old(groups)@[k],
        final(groups)@.len() > 0 ==> final(groups)@.last().left > 0,
{
    while groups.len() > 0 && groups[groups.len() - 1].left == 0
        invariant
            still_open(groups@) == still_open(old(groups)@),
            groups@.len() <= old(groups)@.len(),
            forall|k: int| 0 <= k < groups@.len() ==> #[trigger] groups@[k] == old(groups)@[k],
        decreases groups@.len(),
    {
        let ghost before = groups@;
        groups.pop();
        assert(groups@ =~= before.drop_last());
    }
}

/// Counts a node with so many children under the last of these groups.
pub(crate) fn take_node(
    groups: &mut Vec<OpenGroup>,
    children: i32,
    level: u32,
    holds_items: bool,
)
    requires
        old(groups)@.len() > 0 ==> old(groups)@.last().left > 0,
    ensures
        final(groups)@ == after_node(old(groups)@, children, level, holds_items),
        final(groups)@.len() > 0 ==> final(groups)@.last().left > 0,
        forall|k: int|
            0 <= k < final(groups)@.len() ==> (#[trigger] final(groups)@[k]).level == level || (k
                < old(groups)@.len() && final(groups)@[k].level == old(groups)@[k].level),
{
    let n: usize = groups.len();
    if n > 0 {
        let last: OpenGroup = groups[n - 1];
        let left: u32 = last.left - 1;
        groups.set(n - 1, OpenGroup { left, level: last.level, holds_items: last.holds_items });
        assert(groups@ =~= with_child(old(groups)@));
    }
    if children > 0 {
        groups.push(OpenGroup { left: children as u32, level, holds_items });
    } else {
        close_groups(groups);
    }
}

/// Gives the level of a node of this repetition under the last of these groups.
pub(crate) fn find_level(groups: &Vec<OpenGroup>, repetition: Option<i32>) -> (level: u32)
    requires
        groups@.len() > 0 ==> groups@.last().level < u32::MAX,
    ensures
        level == level_under(groups@, repetition),
{
    let n: usize = groups.len();
    let level: u32 = if n == 0 {
        0
    } else {
        groups[n - 1].level
    };
    match repetition {
        Some(r) => if r > 0 {
            level + 1
        } else {
            level
        },
        None => level,
    }
}

} // verus!
