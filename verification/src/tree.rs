//! Flat row model for the tree list.
//!
//! Rows are rebuilt from [`crate::groups::Group`] + expansion state every time
//! one of them changes. Cheap because group counts are small; no need for a
//! persistent tree structure.

use std::collections::HashSet;
use vstd::prelude::*;

use crate::digest::{
    attr_lines_of, attribute_lines_are_few, digest_attrs_public, MAX_ATTRS_PER_RESOURCE,
};
use crate::groups::{group_label, group_views, Group, GroupView};
use crate::plan::{glyph_of, Action, ResourceChange, ResourceChangeView};
use crate::sequences::{first, flat, flat_grows, flat_locate, flat_singles, flat_split, flat_take};
use crate::text::texts;

verus! {

/// One line of the tree.
#[derive(Debug)]
pub struct Row {
    pub depth: usize,
    pub label: String,
    pub kind: RowKind,
    pub action: Action,
}

/// What a row shows.
#[derive(Debug, Clone, Copy, PartialEq, Eq, Structural)]
pub enum RowKind {
    Group { group_idx: usize },
    Resource { group_idx: usize, resource_idx: usize },
    Attr { group_idx: usize, resource_idx: usize, attr_idx: usize },
}

/// What a [`Row`] stands for.
pub struct RowView {
    pub depth: usize,
    pub label: Seq<char>,
    pub kind: RowKind,
    pub action: Action,
}

impl View for Row {
    type V = RowView;

    open spec fn view(&self) -> RowView {
        RowView { depth: self.depth, label: self.label@, kind: self.kind, action: self.action }
    }
}

impl Clone for Row {
    fn clone(&self) -> (r: Self)
        ensures
            r@ == self@,
    {
        Row {
            depth: self.depth,
            label: self.label.clone(),
            kind: self.kind,
            action: self.action,
        }
    }
}

/// What a vector of rows stands for.
pub open spec fn row_views(rows: Seq<Row>) -> Seq<RowView> {
    rows.map_values(|r: Row| r@)
}

// ---------------------------------------------------------------------------
// Style
// ---------------------------------------------------------------------------

/// The colour of a row.
#[derive(Debug, Clone, Copy, PartialEq, Eq, Structural)]
pub enum RowColor {
    Red,
    Magenta,
    Yellow,
    Green,
    Cyan,
    Gray,
}

/// How a row is drawn.
#[derive(Debug, Clone, Copy, PartialEq, Eq, Structural)]
pub struct RowStyle {
    pub fg: RowColor,
    pub bold: bool,
}

/// The colour of an action.
pub open spec fn color_of(a: Action) -> RowColor {
    match a {
        Action::Delete => RowColor::Red,
        Action::Replace => RowColor::Magenta,
        Action::Update => RowColor::Yellow,
        Action::Create => RowColor::Green,
        Action::Read => RowColor::Cyan,
        Action::NoOp => RowColor::Gray,
    }
}

impl Row {
    /// The colour of the row's action; group rows are bold.
    pub fn style(&self) -> (r: RowStyle)
        ensures
            r.fg == color_of(self.action),
            r.bold == (self.kind is Group),
    {
        let fg = match self.action {
            Action::Delete => RowColor::Red,
            Action::Replace => RowColor::Magenta,
            Action::Update => RowColor::Yellow,
            Action::Create => RowColor::Green,
            Action::Read => RowColor::Cyan,
            Action::NoOp => RowColor::Gray,
        };
        let bold = match self.kind {
            RowKind::Group { .. } => true,
            _ => false,
        };
        RowStyle { fg, bold }
    }
}

// ---------------------------------------------------------------------------
// The rows of a tree
// ---------------------------------------------------------------------------

/// The row of a group.
pub open spec fn group_row(gi: int, g: GroupView) -> RowView {
    RowView {
        depth: 0,
        label: group_label(g),
        kind: RowKind::Group { group_idx: gi as usize },
        action: g.action,
    }
}

/// The row of a change.
pub open spec fn resource_row(gi: int, ri: int, action: Action, rc: ResourceChangeView) -> RowView {
    RowView {
        depth: 1,
        label: glyph_of(action) + " "@ + rc.address,
        kind: RowKind::Resource { group_idx: gi as usize, resource_idx: ri as usize },
        action,
    }
}

/// A row below a change.
pub open spec fn attr_row(gi: int, ri: int, ai: int, action: Action, label: Seq<char>) -> RowView {
    RowView {
        depth: 2,
        label,
        kind: RowKind::Attr {
            group_idx: gi as usize,
            resource_idx: ri as usize,
            attr_idx: ai as usize,
        },
        action,
    }
}

/// The rows below an expanded change: its attribute lines, or a remark that
/// there are none.
pub open spec fn attr_rows(gi: int, ri: int, action: Action, rc: ResourceChangeView) -> Seq<
    RowView,
> {
    let lines = first(
        attr_lines_of(rc.change.actions, rc.change),
        MAX_ATTRS_PER_RESOURCE as nat,
    );
    if lines.len() == 0 {
        seq![attr_row(gi, ri, 0, action, "(no diffed attributes)"@)]
    } else {
        Seq::new(lines.len(), |ai: int| attr_row(gi, ri, ai, action, lines[ai]))
    }
}

/// The row of a change, and those below it where it is expanded.
pub open spec fn resource_rows(
    gi: int,
    ri: int,
    action: Action,
    rc: ResourceChangeView,
    expanded_resources: Set<(usize, usize)>,
) -> Seq<RowView> {
    if expanded_resources.contains((gi as usize, ri as usize)) {
        seq![resource_row(gi, ri, action, rc)] + attr_rows(gi, ri, action, rc)
    } else {
        seq![resource_row(gi, ri, action, rc)]
    }
}

/// The rows of a group's changes.
pub open spec fn member_rows(
    gi: int,
    g: GroupView,
    expanded_resources: Set<(usize, usize)>,
) -> Seq<Seq<RowView>> {
    Seq::new(
        g.changes.len(),
        |ri: int| resource_rows(gi, ri, g.action, g.changes[ri], expanded_resources),
    )
}

/// The row of a group, and those below it where it is expanded.
pub open spec fn group_rows(
    gi: int,
    g: GroupView,
    expanded_groups: Set<usize>,
    expanded_resources: Set<(usize, usize)>,
) -> Seq<RowView> {
    if expanded_groups.contains(gi as usize) {
        seq![group_row(gi, g)] + flat(member_rows(gi, g, expanded_resources))
    } else {
        seq![group_row(gi, g)]
    }
}

/// The rows of each group.
pub open spec fn rows_by_group(
    groups: Seq<GroupView>,
    expanded_groups: Set<usize>,
    expanded_resources: Set<(usize, usize)>,
) -> Seq<Seq<RowView>> {
    Seq::new(
        groups.len(),
        |gi: int| group_rows(gi, groups[gi], expanded_groups, expanded_resources),
    )
}

/// The rows of the tree: groups always shown; resources shown if group
/// expanded; attrs shown if resource expanded.
pub open spec fn tree_rows(
    groups: Seq<GroupView>,
    expanded_groups: Set<usize>,
    expanded_resources: Set<(usize, usize)>,
) -> Seq<RowView> {
    flat(rows_by_group(groups, expanded_groups, expanded_resources))
}

/// Whether a place is among the expanded ones.
pub fn contains_place(places: &Vec<(usize, usize)>, gi: usize, ri: usize) -> (r: bool)
    ensures
        r == places@.to_set().contains((gi, ri)),
{
    let mut i: usize = 0;
    while i < places.len()
        invariant
            i <= places@.len(),
            forall|k: int| 0 <= k < i ==> places@[k] != (gi, ri),
        decreases places@.len() - i,
    {
        if places[i].0 == gi && places[i].1 == ri {
            assert(places@[i as int] == (gi, ri));
            return true;
        }
        i += 1;
    }
    false
}

/// Adds the rows below an expanded change.
fn push_attr_rows(
    rows: &mut Vec<Row>,
    gi: usize,
    ri: usize,
    action: Action,
    rc: &ResourceChange,
)
    ensures
        row_views(final(rows)@) == row_views(old(rows)@) + attr_rows(
            gi as int,
            ri as int,
            action,
            rc@,
        ),
{
    let lines = digest_attrs_public(rc.change.actions.as_slice(), &rc.change);
    let ghost start = row_views(rows@);
    let ghost all = attr_lines_of(rc@.change.actions, rc@.change);
    let ghost shown = first(all, MAX_ATTRS_PER_RESOURCE as nat);
    let ghost wanted = attr_rows(gi as int, ri as int, action, rc@);
    if lines.len() == 0 {
        let row = Row {
            depth: 2,
            label: "(no diffed attributes)".to_owned(),
            kind: RowKind::Attr { group_idx: gi, resource_idx: ri, attr_idx: 0 },
            action,
        };
        assert(texts(lines@).len() == 0);
        rows.push(row);
        assert(row_views(rows@) =~= start + wanted);
        return;
    }
    let mut ai: usize = 0;
    assert(row_views(rows@) =~= start + wanted.take(0));
    while ai < lines.len() && ai < MAX_ATTRS_PER_RESOURCE
        invariant
            ai <= lines@.len(),
            ai <= MAX_ATTRS_PER_RESOURCE,
            lines@.len() > 0,
            all == texts(lines@),
            shown == first(all, MAX_ATTRS_PER_RESOURCE as nat),
            wanted == Seq::new(
                shown.len(),
                |ai: int| attr_row(gi as int, ri as int, ai, action, shown[ai]),
            ),
            row_views(rows@) == start + wanted.take(ai as int),
        decreases lines@.len() - ai,
    {
        let ghost before = row_views(rows@);
        assert(shown[ai as int] == lines@[ai as int]@);
        let row = Row {
            depth: 2,
            label: lines[ai].clone(),
            kind: RowKind::Attr { group_idx: gi, resource_idx: ri, attr_idx: ai },
            action,
        };
        assert(row@ == wanted[ai as int]);
        rows.push(row);
        assert(row_views(rows@) =~= before.push(wanted[ai as int]));
        ai += 1;
        assert(row_views(rows@) =~= start + wanted.take(ai as int));
    }
    assert(wanted.take(ai as int) =~= wanted);
}

/// Adds the rows of a group's changes.
fn push_member_rows(
    rows: &mut Vec<Row>,
    gi: usize,
    g: &Group,
    expanded_resources: &Vec<(usize, usize)>,
)
    ensures
        row_views(final(rows)@) == row_views(old(rows)@) + flat(
            member_rows(gi as int, g@, expanded_resources@.to_set()),
        ),
{
    let ghost start = row_views(rows@);
    let ghost parts = member_rows(gi as int, g@, expanded_resources@.to_set());
    let mut ri: usize = 0;
    assert(row_views(rows@) =~= start + flat(parts.take(0)));
    while ri < g.changes.len()
        invariant
            ri <= g.changes@.len(),
            parts == member_rows(gi as int, g@, expanded_resources@.to_set()),
            row_views(rows@) == start + flat(parts.take(ri as int)),
        decreases g.changes@.len() - ri,
    {
        let rc = &g.changes[ri];
        let ghost before = row_views(rows@);
        assert(g@.changes[ri as int] == rc@);
        let mut label = g.action.glyph().to_owned();
        label.append(" ");
        label.append(rc.address.as_str());
        let row = Row {
            depth: 1,
            label,
            kind: RowKind::Resource { group_idx: gi, resource_idx: ri },
            action: g.action,
        };
        let ghost head = resource_row(gi as int, ri as int, g.action, rc@);
        assert(row@ == head);
        rows.push(row);
        assert(row_views(rows@) =~= before + seq![head]);
        if contains_place(expanded_resources, gi, ri) {
            push_attr_rows(rows, gi, ri, g.action, rc);
            assert(row_views(rows@) =~= before + (seq![head] + attr_rows(
                gi as int,
                ri as int,
                g.action,
                rc@,
            )));
        }
        assert(row_views(rows@) == before + parts[ri as int]);
        proof {
            flat_take(parts, ri as int);
        }
        assert(before + parts[ri as int] =~= start + (flat(parts.take(ri as int))
            + parts[ri as int]));
        ri += 1;
    }
    assert(parts.take(ri as int) =~= parts);
}

/// Build the flat row list. Groups always shown; resources shown if group
/// expanded; attrs shown if resource expanded.
pub fn build_rows(
    groups: &[Group],
    expanded_groups: &HashSet<usize>,
    expanded_resources: &Vec<(usize, usize)>,
) -> (r: Vec<Row>)
    ensures
        row_views(r@) == tree_rows(group_views(groups@), expanded_groups@, expanded_resources@.to_set()),
{
    let ghost views = group_views(groups@);
    let ghost parts = rows_by_group(views, expanded_groups@, expanded_resources@.to_set());
    let mut rows: Vec<Row> = Vec::new();
    let mut gi: usize = 0;
    assert(row_views(rows@) =~= flat(parts.take(0)));
    while gi < groups.len()
        invariant
            gi <= groups@.len(),
            views == group_views(groups@),
            parts == rows_by_group(views, expanded_groups@, expanded_resources@.to_set()),
            row_views(rows@) == flat(parts.take(gi as int)),
        decreases groups@.len() - gi,
    {
        let g = &groups[gi];
        let ghost before = row_views(rows@);
        assert(views[gi as int] == g@);
        let row = Row {
            depth: 0,
            label: g.label(),
            kind: RowKind::Group { group_idx: gi },
            action: g.action,
        };
        let ghost head = group_row(gi as int, g@);
        assert(row@ == head);
        rows.push(row);
        assert(row_views(rows@) =~= before + seq![head]);
        if expanded_groups.contains(&gi) {
            push_member_rows(&mut rows, gi, g, expanded_resources);
            assert(row_views(rows@) =~= before + (seq![head] + flat(
                member_rows(gi as int, g@, expanded_resources@.to_set()),
            )));
        }
        assert(row_views(rows@) == before + parts[gi as int]);
        proof {
            flat_take(parts, gi as int);
        }
        gi += 1;
    }
    assert(parts.take(gi as int) =~= parts);
    rows
}

// ---------------------------------------------------------------------------
// Laws
// ---------------------------------------------------------------------------

/// With nothing expanded the tree is one row per group, in order.
pub proof fn collapsed_tree_shows_only_groups(groups: Seq<GroupView>)
    ensures
        tree_rows(groups, Set::empty(), Set::empty()).len() == groups.len(),
        forall|i: int|
            0 <= i < groups.len() ==> #[trigger] tree_rows(groups, Set::empty(), Set::empty())[i]
                == group_row(i, groups[i]),
{
    let parts = rows_by_group(groups, Set::empty(), Set::empty());
    flat_singles(parts);
    assert forall|i: int| 0 <= i < groups.len() implies #[trigger] tree_rows(
        groups,
        Set::empty(),
        Set::empty(),
    )[i] == group_row(i, groups[i]) by {
        assert(flat(parts)[i] == parts[i][0]);
    }
}

/// Whether every index into the groups fits a machine integer.
pub open spec fn indexable(groups: Seq<GroupView>) -> bool {
    &&& groups.len() <= usize::MAX
    &&& forall|gi: int|
        0 <= gi < groups.len() ==> (#[trigger] groups[gi]).changes.len() <= usize::MAX
}

/// Where the row of a group stands.
pub open spec fn group_start(
    groups: Seq<GroupView>,
    expanded_groups: Set<usize>,
    expanded_resources: Set<(usize, usize)>,
    gi: int,
) -> nat {
    flat(rows_by_group(groups, expanded_groups, expanded_resources).take(gi)).len()
}

/// Where the row of a change of an expanded group stands.
pub open spec fn resource_start(
    groups: Seq<GroupView>,
    expanded_groups: Set<usize>,
    expanded_resources: Set<(usize, usize)>,
    gi: int,
    ri: int,
) -> nat {
    group_start(groups, expanded_groups, expanded_resources, gi) + 1 + flat(
        member_rows(gi, groups[gi], expanded_resources).take(ri),
    ).len()
}

/// A row tells what it shows: the group or change that it names exists, is
/// reached through expanded ones, and has its own row where it belongs.
pub proof fn rows_name_what_they_show(
    groups: Seq<GroupView>,
    expanded_groups: Set<usize>,
    expanded_resources: Set<(usize, usize)>,
    idx: int,
)
    requires
        indexable(groups),
        0 <= idx < tree_rows(groups, expanded_groups, expanded_resources).len(),
    ensures
        match tree_rows(groups, expanded_groups, expanded_resources)[idx].kind {
            RowKind::Group { group_idx } => {
                &&& group_idx < groups.len()
                &&& idx == group_start(
                    groups,
                    expanded_groups,
                    expanded_resources,
                    group_idx as int,
                )
            },
            RowKind::Resource { group_idx, resource_idx } => {
                &&& group_idx < groups.len()
                &&& resource_idx < groups[group_idx as int].changes.len()
                &&& expanded_groups.contains(group_idx)
                &&& idx == resource_start(
                    groups,
                    expanded_groups,
                    expanded_resources,
                    group_idx as int,
                    resource_idx as int,
                )
            },
            RowKind::Attr { group_idx, resource_idx, attr_idx } => {
                &&& group_idx < groups.len()
                &&& resource_idx < groups[group_idx as int].changes.len()
                &&& expanded_groups.contains(group_idx)
                &&& expanded_resources.contains((group_idx, resource_idx))
                &&& idx == resource_start(
                    groups,
                    expanded_groups,
                    expanded_resources,
                    group_idx as int,
                    resource_idx as int,
                ) + 1 + attr_idx
                &&& attr_idx < MAX_ATTRS_PER_RESOURCE
            },
        },
{
    let parts = rows_by_group(groups, expanded_groups, expanded_resources);
    let gi = flat_locate(parts, idx);
    let start = flat(parts.take(gi)).len();
    let g = groups[gi];
    assert(parts[gi] == group_rows(gi, g, expanded_groups, expanded_resources));
    let off = idx - start;
    if off > 0 {
        let members = member_rows(gi, g, expanded_resources);
        assert(expanded_groups.contains(gi as usize));
        assert(parts[gi] == seq![group_row(gi, g)] + flat(members));
        let ri = flat_locate(members, off - 1);
        assert(g.changes.len() <= usize::MAX);
        assert(members[ri] == resource_rows(gi, ri, g.action, g.changes[ri], expanded_resources));
    }
}

/// Expanding a group leaves the rows down to its own as they are, and those
/// below it in their order; it adds the group's changes between them.
pub proof fn expanding_a_group_keeps_other_rows(
    groups: Seq<GroupView>,
    expanded_groups: Set<usize>,
    expanded_resources: Set<(usize, usize)>,
    gi: usize,
)
    requires
        indexable(groups),
        gi < groups.len(),
        !expanded_groups.contains(gi),
    ensures
        ({
            let rows = tree_rows(groups, expanded_groups, expanded_resources);
            let more = tree_rows(groups, expanded_groups.insert(gi), expanded_resources);
            let at = group_start(groups, expanded_groups, expanded_resources, gi as int) as int;
            &&& at < rows.len()
            &&& more == rows.take(at + 1) + flat(
                member_rows(gi as int, groups[gi as int], expanded_resources),
            ) + rows.skip(at + 1)
        }),
{
    let parts = rows_by_group(groups, expanded_groups, expanded_resources);
    let more = rows_by_group(groups, expanded_groups.insert(gi), expanded_resources);
    let k = gi as int;
    assert(parts.take(k) =~= more.take(k)) by {
        assert forall|j: int| 0 <= j < k implies parts[j] == more[j] by {
            assert(j as usize != gi);
        }
    }
    assert(parts.skip(k + 1) =~= more.skip(k + 1)) by {
        assert forall|j: int| k < j < parts.len() implies parts[j] == more[j] by {
            assert(j as usize != gi);
        }
    }
    flat_split(parts, k);
    flat_split(more, k);
    let head = seq![group_row(k, groups[k])];
    assert(parts[k] == head);
    assert(more[k] == head + flat(member_rows(k, groups[k], expanded_resources)));
    let rows = flat(parts);
    let at = flat(parts.take(k)).len() as int;
    assert(rows.take(at + 1) =~= flat(parts.take(k)) + head);
    assert(rows.skip(at + 1) =~= flat(parts.skip(k + 1)));
    assert(flat(more) =~= rows.take(at + 1) + flat(
        member_rows(k, groups[k], expanded_resources),
    ) + rows.skip(at + 1));
}

/// Expanding a change of an expanded group leaves the rows down to its own as
/// they are, and those below it in their order; it adds the change's attributes
/// between them.
pub proof fn expanding_a_change_keeps_other_rows(
    groups: Seq<GroupView>,
    expanded_groups: Set<usize>,
    expanded_resources: Set<(usize, usize)>,
    gi: usize,
    ri: usize,
)
    requires
        indexable(groups),
        gi < groups.len(),
        ri < groups[gi as int].changes.len(),
        expanded_groups.contains(gi),
        !expanded_resources.contains((gi, ri)),
    ensures
        ({
            let g = groups[gi as int];
            let rows = tree_rows(groups, expanded_groups, expanded_resources);
            let more = tree_rows(groups, expanded_groups, expanded_resources.insert((gi, ri)));
            let at = resource_start(
                groups,
                expanded_groups,
                expanded_resources,
                gi as int,
                ri as int,
            ) as int;
            &&& at < rows.len()
            &&& more == rows.take(at + 1) + attr_rows(
                gi as int,
                ri as int,
                g.action,
                g.changes[ri as int],
            ) + rows.skip(at + 1)
        }),
{
    let wider = expanded_resources.insert((gi, ri));
    let parts = rows_by_group(groups, expanded_groups, expanded_resources);
    let more = rows_by_group(groups, expanded_groups, wider);
    let k = gi as int;
    let r = ri as int;
    let g = groups[k];
    other_groups_keep_rows(groups, expanded_groups, expanded_resources, gi, ri);
    flat_split(parts, k);
    flat_split(more, k);
    let members = member_rows(k, g, expanded_resources);
    expanded_member(gi, g, expanded_resources, ri);
    assert(parts[k] == seq![group_row(k, g)] + flat(members));
    assert(more[k] == seq![group_row(k, g)] + flat(member_rows(k, g, wider)));
    regroup(
        flat(parts.take(k)),
        seq![group_row(k, g)],
        flat(members.take(r)),
        seq![resource_row(k, r, g.action, g.changes[r])],
        attr_rows(k, r, g.action, g.changes[r]),
        flat(members.skip(r + 1)),
        flat(parts.skip(k + 1)),
    );
}

/// The rows of the other groups do not depend on whether a change is expanded.
proof fn other_groups_keep_rows(
    groups: Seq<GroupView>,
    expanded_groups: Set<usize>,
    expanded_resources: Set<(usize, usize)>,
    gi: usize,
    ri: usize,
)
    requires
        indexable(groups),
        gi < groups.len(),
    ensures
        ({
            let parts = rows_by_group(groups, expanded_groups, expanded_resources);
            let more = rows_by_group(groups, expanded_groups, expanded_resources.insert((gi, ri)));
            &&& parts.take(gi as int) == more.take(gi as int)
            &&& parts.skip(gi + 1) == more.skip(gi + 1)
        }),
{
    let wider = expanded_resources.insert((gi, ri));
    let parts = rows_by_group(groups, expanded_groups, expanded_resources);
    let more = rows_by_group(groups, expanded_groups, wider);
    assert forall|j: int| 0 <= j < parts.len() && j != gi implies #[trigger] parts[j]
        == more[j] by {
        assert(j as usize != gi);
        assert(member_rows(j, groups[j], expanded_resources) =~= member_rows(j, groups[j], wider));
    }
    assert(parts.take(gi as int) =~= more.take(gi as int));
    assert(parts.skip(gi + 1) =~= more.skip(gi + 1));
}

/// The rows of a group's changes before and after one of them is expanded.
proof fn expanded_member(
    gi: usize,
    g: GroupView,
    expanded_resources: Set<(usize, usize)>,
    ri: usize,
)
    requires
        g.changes.len() <= usize::MAX,
        ri < g.changes.len(),
        !expanded_resources.contains((gi, ri)),
    ensures
        ({
            let r = ri as int;
            let members = member_rows(gi as int, g, expanded_resources);
            let wide = member_rows(gi as int, g, expanded_resources.insert((gi, ri)));
            let head = seq![resource_row(gi as int, r, g.action, g.changes[r])];
            let added = attr_rows(gi as int, r, g.action, g.changes[r]);
            &&& flat(members) == flat(members.take(r)) + head + flat(members.skip(r + 1))
            &&& flat(wide) == flat(members.take(r)) + (head + added) + flat(members.skip(r + 1))
        }),
{
    let r = ri as int;
    let members = member_rows(gi as int, g, expanded_resources);
    let wide = member_rows(gi as int, g, expanded_resources.insert((gi, ri)));
    assert forall|j: int| 0 <= j < members.len() && j != r implies #[trigger] members[j]
        == wide[j] by {
        assert(j as usize != ri);
    }
    assert(members.take(r) =~= wide.take(r));
    assert(members.skip(r + 1) =~= wide.skip(r + 1));
    flat_split(members, r);
    flat_split(wide, r);
}

/// Rows `added` below `head`, seen from the whole.
proof fn regroup(
    above: Seq<RowView>,
    top: Seq<RowView>,
    before: Seq<RowView>,
    head: Seq<RowView>,
    added: Seq<RowView>,
    after: Seq<RowView>,
    below: Seq<RowView>,
)
    requires
        top.len() == 1,
        head.len() == 1,
    ensures
        ({
            let rows = above + (top + (before + head + after)) + below;
            let more = above + (top + (before + (head + added) + after)) + below;
            let at = above.len() + 1 + before.len() as int;
            &&& at < rows.len()
            &&& more == rows.take(at + 1) + added + rows.skip(at + 1)
        }),
{
    let rows = above + (top + (before + head + after)) + below;
    let more = above + (top + (before + (head + added) + after)) + below;
    let at = above.len() + 1 + before.len() as int;
    assert(rows.take(at + 1) =~= above + (top + (before + head)));
    assert(rows.skip(at + 1) =~= after + below);
    assert(more =~= above + (top + (before + head)) + added + (after + below));
}

/// An expanded change shows at least one and at most the allowed number of
/// rows.
pub proof fn attribute_rows_are_few(gi: int, ri: int, action: Action, rc: ResourceChangeView)
    ensures
        1 <= attr_rows(gi, ri, action, rc).len() <= MAX_ATTRS_PER_RESOURCE,
{
}

/// What a row says is true of what it names. A group's row bears its label; a
/// change's row the glyph of the action and the address, and it is there only
/// below an expanded group; an attribute's row is there only below an expanded
/// change, and bears one of its attribute lines or a remark that there are none.
pub proof fn rows_say_what_they_show(
    groups: Seq<GroupView>,
    expanded_groups: Set<usize>,
    expanded_resources: Set<(usize, usize)>,
    idx: int,
)
    requires
        indexable(groups),
        0 <= idx < tree_rows(groups, expanded_groups, expanded_resources).len(),
    ensures
        ({
            let row = tree_rows(groups, expanded_groups, expanded_resources)[idx];
            match row.kind {
                RowKind::Group { group_idx } => {
                    let g = groups[group_idx as int];
                    &&& group_idx < groups.len()
                    &&& row.depth == 0
                    &&& row.label == group_label(g)
                    &&& row.action == g.action
                },
                RowKind::Resource { group_idx, resource_idx } => {
                    let g = groups[group_idx as int];
                    &&& group_idx < groups.len()
                    &&& resource_idx < g.changes.len()
                    &&& expanded_groups.contains(group_idx)
                    &&& row.depth == 1
                    &&& row.label == glyph_of(g.action) + " "@ + g.changes[resource_idx as int].address
                    &&& row.action == g.action
                },
                RowKind::Attr { group_idx, resource_idx, attr_idx } => {
                    let g = groups[group_idx as int];
                    let rc = g.changes[resource_idx as int];
                    let lines = attr_lines_of(rc.change.actions, rc.change);
                    &&& group_idx < groups.len()
                    &&& resource_idx < g.changes.len()
                    &&& expanded_groups.contains(group_idx)
                    &&& expanded_resources.contains((group_idx, resource_idx))
                    &&& row.depth == 2
                    &&& row.action == g.action
                    &&& lines.len() == 0 ==> attr_idx == 0 && row.label == "(no diffed attributes)"@
                    &&& lines.len() > 0 ==> attr_idx < lines.len() && row.label
                        == lines[attr_idx as int]
                },
            }
        }),
{
    let parts = rows_by_group(groups, expanded_groups, expanded_resources);
    let gi = flat_locate(parts, idx);
    let g = groups[gi];
    assert(parts[gi] == group_rows(gi, g, expanded_groups, expanded_resources));
    let off = idx - flat(parts.take(gi)).len();
    if off > 0 {
        let members = member_rows(gi, g, expanded_resources);
        assert(parts[gi] == seq![group_row(gi, g)] + flat(members));
        let ri = flat_locate(members, off - 1);
        assert(g.changes.len() <= usize::MAX);
        assert(members[ri] == resource_rows(gi, ri, g.action, g.changes[ri], expanded_resources));
    }
}

/// Every group has a row, whatever is expanded.
pub proof fn every_group_has_a_row(
    groups: Seq<GroupView>,
    expanded_groups: Set<usize>,
    expanded_resources: Set<(usize, usize)>,
    gi: usize,
) -> (idx: int)
    requires
        gi < groups.len(),
    ensures
        0 <= idx < tree_rows(groups, expanded_groups, expanded_resources).len(),
        tree_rows(groups, expanded_groups, expanded_resources)[idx].kind == (RowKind::Group {
            group_idx: gi,
        }),
{
    let parts = rows_by_group(groups, expanded_groups, expanded_resources);
    flat_split(parts, gi as int);
    let idx = flat(parts.take(gi as int)).len() as int;
    assert(parts[gi as int] == group_rows(
        gi as int,
        groups[gi as int],
        expanded_groups,
        expanded_resources,
    ));
    assert(flat(parts)[idx] == parts[gi as int][0]);
    idx
}

/// Every change of an expanded group has a row.
pub proof fn changes_of_expanded_groups_have_rows(
    groups: Seq<GroupView>,
    expanded_groups: Set<usize>,
    expanded_resources: Set<(usize, usize)>,
    gi: usize,
    ri: usize,
) -> (idx: int)
    requires
        gi < groups.len(),
        ri < groups[gi as int].changes.len(),
        expanded_groups.contains(gi),
    ensures
        0 <= idx < tree_rows(groups, expanded_groups, expanded_resources).len(),
        tree_rows(groups, expanded_groups, expanded_resources)[idx].kind == (RowKind::Resource {
            group_idx: gi,
            resource_idx: ri,
        }),
{
    let g = groups[gi as int];
    let (idx, rows) = place_of_change(groups, expanded_groups, expanded_resources, gi, ri);
    assert(rows == resource_rows(
        gi as int,
        ri as int,
        g.action,
        g.changes[ri as int],
        expanded_resources,
    ));
    assert(tree_rows(groups, expanded_groups, expanded_resources)[idx + 0] == rows[0]);
    idx
}

/// Every attribute line of an expanded change in an expanded group has a row,
/// or one row says that there are none.
pub proof fn attributes_of_expanded_changes_have_rows(
    groups: Seq<GroupView>,
    expanded_groups: Set<usize>,
    expanded_resources: Set<(usize, usize)>,
    gi: usize,
    ri: usize,
    ai: usize,
) -> (idx: int)
    requires
        gi < groups.len(),
        ri < groups[gi as int].changes.len(),
        expanded_groups.contains(gi),
        expanded_resources.contains((gi, ri)),
        ({
            let rc = groups[gi as int].changes[ri as int];
            let n = attr_lines_of(rc.change.actions, rc.change).len();
            ai < n || (ai == 0 && n == 0)
        }),
    ensures
        0 <= idx < tree_rows(groups, expanded_groups, expanded_resources).len(),
        tree_rows(groups, expanded_groups, expanded_resources)[idx].kind == (RowKind::Attr {
            group_idx: gi,
            resource_idx: ri,
            attr_idx: ai,
        }),
{
    let g = groups[gi as int];
    let rc = g.changes[ri as int];
    attribute_lines_are_few(rc.change.actions, rc.change);
    let (start, rows) = place_of_change(groups, expanded_groups, expanded_resources, gi, ri);
    let below = attr_rows(gi as int, ri as int, g.action, rc);
    assert(rows == seq![resource_row(gi as int, ri as int, g.action, rc)] + below);
    assert(rows[1 + ai] == below[ai as int]);
    assert(tree_rows(groups, expanded_groups, expanded_resources)[start + (1 + ai)] == rows[1 + ai]);
    start + 1 + ai
}

proof fn place_of_change(
    groups: Seq<GroupView>,
    expanded_groups: Set<usize>,
    expanded_resources: Set<(usize, usize)>,
    gi: usize,
    ri: usize,
) -> (r: (int, Seq<RowView>))
    requires
        gi < groups.len(),
        ri < groups[gi as int].changes.len(),
        expanded_groups.contains(gi),
    ensures
        r.1 == resource_rows(
            gi as int,
            ri as int,
            groups[gi as int].action,
            groups[gi as int].changes[ri as int],
            expanded_resources,
        ),
        0 <= r.0,
        r.0 + r.1.len() <= tree_rows(groups, expanded_groups, expanded_resources).len(),
        forall|k: int|
            0 <= k < r.1.len() ==> #[trigger] tree_rows(
                groups,
                expanded_groups,
                expanded_resources,
            )[r.0 + k] == r.1[k],
{
    let parts = rows_by_group(groups, expanded_groups, expanded_resources);
    let g = groups[gi as int];
    let members = member_rows(gi as int, g, expanded_resources);
    flat_split(parts, gi as int);
    flat_split(members, ri as int);
    assert(parts[gi as int] == seq![group_row(gi as int, g)] + flat(members));
    let rows = members[ri as int];
    let before = flat(members.take(ri as int)).len();
    let at = flat(parts.take(gi as int)).len() + 1 + before;
    assert forall|k: int| 0 <= k < rows.len() implies #[trigger] flat(parts)[at + k] == rows[k] by {
        assert(parts[gi as int][1 + before + k] == flat(members)[before + k]);
    }
    (at as int, rows)
}

/// Whether a row of kind `a` belongs above a row of kind `b`: groups in their
/// order, each above its changes, and each change above its attributes.
pub open spec fn belongs_above(a: RowKind, b: RowKind) -> bool {
    match (a, b) {
        (RowKind::Group { group_idx: g }, RowKind::Group { group_idx: h }) => g < h,
        (RowKind::Group { group_idx: g }, RowKind::Resource { group_idx: h, .. }) => g <= h,
        (RowKind::Group { group_idx: g }, RowKind::Attr { group_idx: h, .. }) => g <= h,
        (RowKind::Resource { group_idx: g, .. }, RowKind::Group { group_idx: h }) => g < h,
        (RowKind::Attr { group_idx: g, .. }, RowKind::Group { group_idx: h }) => g < h,
        (
            RowKind::Resource { group_idx: g, resource_idx: r },
            RowKind::Resource { group_idx: h, resource_idx: s },
        ) => g < h || (g == h && r < s),
        (
            RowKind::Resource { group_idx: g, resource_idx: r },
            RowKind::Attr { group_idx: h, resource_idx: s, .. },
        ) => g < h || (g == h && r <= s),
        (
            RowKind::Attr { group_idx: g, resource_idx: r, .. },
            RowKind::Resource { group_idx: h, resource_idx: s },
        ) => g < h || (g == h && r < s),
        (
            RowKind::Attr { group_idx: g, resource_idx: r, attr_idx: x },
            RowKind::Attr { group_idx: h, resource_idx: s, attr_idx: y },
        ) => g < h || (g == h && (r < s || (r == s && x < y))),
    }
}

/// The group that a row stands in, and the change below which it stands.
proof fn locate_row(
    groups: Seq<GroupView>,
    expanded_groups: Set<usize>,
    expanded_resources: Set<(usize, usize)>,
    idx: int,
) -> (r: (int, int))
    requires
        indexable(groups),
        0 <= idx < tree_rows(groups, expanded_groups, expanded_resources).len(),
    ensures
        ({
            let parts = rows_by_group(groups, expanded_groups, expanded_resources);
            let (gi, ri) = r;
            let x = idx - flat(parts.take(gi)).len();
            let members = member_rows(gi, groups[gi], expanded_resources);
            let y = x - 1 - flat(members.take(ri)).len();
            let kind = tree_rows(groups, expanded_groups, expanded_resources)[idx].kind;
            &&& 0 <= gi < parts.len() <= usize::MAX
            &&& 0 <= x && idx < flat(parts.take(gi + 1)).len()
            &&& x == 0 ==> kind == RowKind::Group { group_idx: gi as usize }
            &&& x > 0 ==> {
                &&& 0 <= ri < members.len() <= usize::MAX
                &&& 0 <= y && x - 1 < flat(members.take(ri + 1)).len()
                &&& y == 0 ==> kind == RowKind::Resource {
                    group_idx: gi as usize,
                    resource_idx: ri as usize,
                }
                &&& y > 0 ==> y <= usize::MAX && kind == RowKind::Attr {
                    group_idx: gi as usize,
                    resource_idx: ri as usize,
                    attr_idx: (y - 1) as usize,
                }
            }
        }),
{
    let parts = rows_by_group(groups, expanded_groups, expanded_resources);
    let gi = flat_locate(parts, idx);
    flat_take(parts, gi);
    let g = groups[gi];
    assert(parts[gi] == group_rows(gi, g, expanded_groups, expanded_resources));
    let x = idx - flat(parts.take(gi)).len();
    if x > 0 {
        let members = member_rows(gi, g, expanded_resources);
        let ri = flat_locate(members, x - 1);
        flat_take(members, ri);
        assert(g.changes.len() <= usize::MAX);
        assert(members[ri] == resource_rows(gi, ri, g.action, g.changes[ri], expanded_resources));
        attribute_rows_are_few(gi, ri, g.action, g.changes[ri]);
        (gi, ri)
    } else {
        (gi, 0)
    }
}

/// The rows are in the order of the tree, and nothing is shown twice.
pub proof fn rows_are_in_order(
    groups: Seq<GroupView>,
    expanded_groups: Set<usize>,
    expanded_resources: Set<(usize, usize)>,
    i: int,
    j: int,
)
    requires
        indexable(groups),
        0 <= i < j < tree_rows(groups, expanded_groups, expanded_resources).len(),
    ensures
        belongs_above(
            tree_rows(groups, expanded_groups, expanded_resources)[i].kind,
            tree_rows(groups, expanded_groups, expanded_resources)[j].kind,
        ),
{
    let parts = rows_by_group(groups, expanded_groups, expanded_resources);
    let (gi, ri) = locate_row(groups, expanded_groups, expanded_resources, i);
    let (gj, rj) = locate_row(groups, expanded_groups, expanded_resources, j);
    if gj < gi {
        flat_grows(parts, gj + 1, gi);
    }
    if gi == gj {
        let members = member_rows(gi, groups[gi], expanded_resources);
        let x = i - flat(parts.take(gi)).len();
        if x > 0 && rj < ri {
            flat_grows(members, rj + 1, ri);
        }
    }
}

/// The colour of a row tells what is done: red destroys, magenta replaces,
/// yellow updates, green creates; no two actions have one colour.
pub proof fn colors_tell_actions_apart(a: Action, b: Action)
    ensures
        a == b <==> color_of(a) == color_of(b),
        color_of(a) is Red <==> a is Delete,
        color_of(a) is Magenta <==> a is Replace,
        color_of(a) is Yellow <==> a is Update,
        color_of(a) is Green <==> a is Create,
        color_of(a) is Cyan <==> a is Read,
{
}

/// A row is seen as it is, in its place.
pub proof fn rows_are_seen_whole(rows: Seq<Row>, i: int)
    requires
        0 <= i < rows.len(),
    ensures
        row_views(rows).len() == rows.len(),
        row_views(rows)[i].depth == rows[i].depth,
        row_views(rows)[i].label == rows[i].label@,
        row_views(rows)[i].kind == rows[i].kind,
        row_views(rows)[i].action == rows[i].action,
{
}

} // verus!
