//! Group resource changes by (resource_type, action) for tree rendering.
//!
//! Ordering: actions sorted by destructive-potential priority (Delete first,
//! then Replace, Update, Create, Read, NoOp). Within an action, resource types
//! sorted alphabetically for stable rendering; within a group, changes sorted
//! by address.

use vstd::prelude::*;

use crate::plan::{
    action_of, acts, adds, change_views, clone_changes, destroys, footer_line, glyph_of,
    plan_footer, Action, Plan, PlanView, ResourceChange, ResourceChangeView,
};
use crate::sequences::{filter_agree, filter_both, filter_concat, filter_none, filter_push};
use crate::text::{
    comes_before, decimal, decimal_text, decimals_read_back, has_prefix, number_written,
    prefixes_come_first, same, text_lt, text_lt_irreflexive, text_lt_total, text_lt_transitive,
};

verus! {

/// The changes of one resource type that have one action.
#[derive(Debug)]
pub struct Group {
    pub resource_type: String,
    pub action: Action,
    pub changes: Vec<ResourceChange>,
}

/// What a [`Group`] stands for.
pub struct GroupView {
    pub resource_type: Seq<char>,
    pub action: Action,
    pub changes: Seq<ResourceChangeView>,
}

impl View for Group {
    type V = GroupView;

    open spec fn view(&self) -> GroupView {
        GroupView {
            resource_type: self.resource_type@,
            action: self.action,
            changes: change_views(self.changes@),
        }
    }
}

impl Clone for Group {
    fn clone(&self) -> (r: Self)
        ensures
            r@ == self@,
    {
        Group {
            resource_type: self.resource_type.clone(),
            action: self.action,
            changes: clone_changes(&self.changes),
        }
    }
}

/// What a vector of groups stands for.
pub open spec fn group_views(groups: Seq<Group>) -> Seq<GroupView> {
    groups.map_values(|g: Group| g@)
}

/// `{glyph} {resource type} ({number of changes})`.
pub open spec fn group_label(g: GroupView) -> Seq<char> {
    glyph_of(g.action) + " "@ + g.resource_type + " ("@ + decimal(g.changes.len()) + ")"@
}

impl Group {
    /// The number of changes in the group.
    pub fn count(&self) -> (r: usize)
        ensures
            r == self@.changes.len(),
    {
        self.changes.len()
    }

    /// The group as one line.
    pub fn label(&self) -> (r: String)
        ensures
            r@ == group_label(self@),
    {
        let mut out = self.action.glyph().to_owned();
        out.append(" ");
        out.append(self.resource_type.as_str());
        out.append(" (");
        out.append(decimal_text(self.count() as u128).as_str());
        out.append(")");
        out
    }
}

// ---------------------------------------------------------------------------
// What a grouping is
// ---------------------------------------------------------------------------

/// Lower number = higher priority = rendered first.
pub open spec fn priority(a: Action) -> int {
    match a {
        Action::Delete => 0,
        Action::Replace => 1,
        Action::Update => 2,
        Action::Create => 3,
        Action::Read => 4,
        Action::NoOp => 5,
    }
}

/// All changes of a plan: the planned ones, then the drift.
pub open spec fn all_changes(plan: PlanView) -> Seq<ResourceChangeView> {
    plan.resource_changes + plan.resource_drift
}

/// Whether a change is shown: its action is known, and no-ops only on request.
pub open spec fn shown(rc: ResourceChangeView, show_noops: bool) -> bool {
    action_of(rc.change.actions) matches Some(a) && (a != Action::NoOp || show_noops)
}

/// Whether the key `(a, s)` comes before the key `(b, t)`.
pub open spec fn key_before(a: Action, s: Seq<char>, b: Action, t: Seq<char>) -> bool {
    priority(a) < priority(b) || (a == b && text_lt(s, t))
}

/// The changes with this action and resource type.
pub open spec fn of_key(action: Action, resource_type: Seq<char>) -> spec_fn(
    ResourceChangeView,
) -> bool {
    |rc: ResourceChangeView|
        action_of(rc.change.actions) == Some(action) && rc.resource_type == resource_type
}

/// The changes at this address.
pub open spec fn at_address(address: Seq<char>) -> spec_fn(ResourceChangeView) -> bool {
    |rc: ResourceChangeView| rc.address == address
}

/// Whether the addresses never descend.
pub open spec fn address_ordered(changes: Seq<ResourceChangeView>) -> bool {
    forall|i: int, j: int|
        0 <= i < j < changes.len() ==> !text_lt(
            (#[trigger] changes[j]).address,
            (#[trigger] changes[i]).address,
        )
}

/// Whether `output` is `input` sorted by address, changes at one address in
/// the order they had.
pub open spec fn sorted_by_address(
    input: Seq<ResourceChangeView>,
    output: Seq<ResourceChangeView>,
) -> bool {
    &&& address_ordered(output)
    &&& forall|address: Seq<char>| #[trigger]
        output.filter(at_address(address)) == input.filter(at_address(address))
}

/// Whether `groups` is the grouping of `all`: the keys strictly ascend, every
/// shown change has a group, and each group holds the changes of its key,
/// sorted by address.
pub open spec fn grouped(
    all: Seq<ResourceChangeView>,
    show_noops: bool,
    groups: Seq<GroupView>,
) -> bool {
    &&& forall|i: int, j: int|
        0 <= i < j < groups.len() ==> key_before(
            (#[trigger] groups[i]).action,
            groups[i].resource_type,
            (#[trigger] groups[j]).action,
            groups[j].resource_type,
        )
    &&& forall|i: int|
        0 <= i < groups.len() ==> {
            &&& (#[trigger] groups[i]).changes.len() > 0
            &&& groups[i].action != Action::NoOp || show_noops
            &&& sorted_by_address(
                all.filter(of_key(groups[i].action, groups[i].resource_type)),
                groups[i].changes,
            )
        }
    &&& forall|k: int|
        0 <= k < all.len() && shown(#[trigger] all[k], show_noops) ==> has_group(groups, all[k])
}

/// Whether one of the groups has the key of `rc`.
pub open spec fn has_group(groups: Seq<GroupView>, rc: ResourceChangeView) -> bool {
    exists|i: int|
        0 <= i < groups.len() && action_of(rc.change.actions) == Some(
            (#[trigger] groups[i]).action,
        ) && groups[i].resource_type == rc.resource_type
}

// ---------------------------------------------------------------------------
// Adding one change
// ---------------------------------------------------------------------------

/// Putting `rc` behind every change whose address does not come after its own
/// keeps the sorting.
proof fn insert_keeps_sorting(
    input: Seq<ResourceChangeView>,
    output: Seq<ResourceChangeView>,
    rc: ResourceChangeView,
    q: int,
)
    requires
        sorted_by_address(input, output),
        0 <= q <= output.len(),
        q > 0 ==> !text_lt(rc.address, output[q - 1].address),
        forall|i: int| q <= i < output.len() ==> text_lt(rc.address, (#[trigger] output[i]).address),
    ensures
        sorted_by_address(input.push(rc), output.insert(q, rc)),
{
    let next = output.insert(q, rc);
    output.insert_ensures(q, rc);
    assert forall|i: int, j: int| 0 <= i < j < next.len() implies !text_lt(
        (#[trigger] next[j]).address,
        (#[trigger] next[i]).address,
    ) by {
        assert(i < q ==> next[i] == output[i]);
        assert(i > q ==> next[i] == output[i - 1]);
        assert(j < q ==> next[j] == output[j]);
        assert(j > q ==> next[j] == output[j - 1]);
        if i < q && j == q {
            if text_lt(rc.address, output[i].address) && i < q - 1 {
                text_lt_total(output[i].address, output[q - 1].address);
                assert(!text_lt(output[q - 1].address, output[i].address));
                if text_lt(output[i].address, output[q - 1].address) {
                    text_lt_transitive(rc.address, output[i].address, output[q - 1].address);
                }
            }
        } else if i == q && j > q {
            assert(text_lt(rc.address, output[j - 1].address));
            if text_lt(output[j - 1].address, rc.address) {
                text_lt_transitive(rc.address, output[j - 1].address, rc.address);
                text_lt_irreflexive(rc.address);
            }
        }
    }
    assert forall|address: Seq<char>| #[trigger] next.filter(at_address(address)) == input.push(
        rc,
    ).filter(at_address(address)) by {
        let p = at_address(address);
        let front = output.subrange(0, q);
        let back = output.subrange(q, output.len() as int);
        assert(output =~= front + back);
        assert(next =~= front.push(rc) + back);
        Seq::filter_distributes_over_add(front, back, p);
        Seq::filter_distributes_over_add(front.push(rc), back, p);
        filter_push(front, rc, p);
        filter_push(input, rc, p);
        assert(output.filter(p) == input.filter(p));
        if p(rc) {
            assert forall|i: int| 0 <= i < back.len() implies !p(#[trigger] back[i]) by {
                assert(back[i] == output[q + i]);
                text_lt_irreflexive(rc.address);
            }
            filter_none(back, p);
            assert(front.filter(p).push(rc) + Seq::<ResourceChangeView>::empty()
                =~= front.filter(p).push(rc));
            assert(front.filter(p) + Seq::<ResourceChangeView>::empty() =~= front.filter(p));
        }
    }
}

/// A key does not come before itself.
proof fn key_irreflexive(a: Action, s: Seq<char>)
    ensures
        !key_before(a, s, a, s),
{
    text_lt_irreflexive(s);
}

/// A change that is not shown changes no group.
proof fn hidden_keeps_grouping(
    all: Seq<ResourceChangeView>,
    show_noops: bool,
    groups: Seq<GroupView>,
    rc: ResourceChangeView,
)
    requires
        grouped(all, show_noops, groups),
        !shown(rc, show_noops),
    ensures
        grouped(all.push(rc), show_noops, groups),
{
    assert forall|i: int| 0 <= i < groups.len() implies sorted_by_address(
        all.push(rc).filter(of_key((#[trigger] groups[i]).action, groups[i].resource_type)),
        groups[i].changes,
    ) by {
        filter_push(all, rc, of_key(groups[i].action, groups[i].resource_type));
    }
    assert forall|k: int|
        0 <= k < all.push(rc).len() && shown(#[trigger] all.push(rc)[k], show_noops) implies has_group(
        groups,
        all.push(rc)[k],
    ) by {
        assert(k < all.len());
        assert(all.push(rc)[k] == all[k]);
    }
}

/// A shown change goes into the group of its key.
proof fn join_keeps_grouping(
    all: Seq<ResourceChangeView>,
    show_noops: bool,
    groups: Seq<GroupView>,
    rc: ResourceChangeView,
    p: int,
    q: int,
)
    requires
        grouped(all, show_noops, groups),
        0 <= p < groups.len(),
        action_of(rc.change.actions) == Some(groups[p].action),
        rc.resource_type == groups[p].resource_type,
        0 <= q <= groups[p].changes.len(),
        q > 0 ==> !text_lt(rc.address, groups[p].changes[q - 1].address),
        forall|i: int|
            q <= i < groups[p].changes.len() ==> text_lt(
                rc.address,
                (#[trigger] groups[p].changes[i]).address,
            ),
    ensures
        grouped(
            all.push(rc),
            show_noops,
            groups.update(
                p,
                GroupView { changes: groups[p].changes.insert(q, rc), ..groups[p] },
            ),
        ),
{
    let next = groups.update(
        p,
        GroupView { changes: groups[p].changes.insert(q, rc), ..groups[p] },
    );
    groups[p].changes.insert_ensures(q, rc);
    assert forall|i: int| 0 <= i < next.len() implies sorted_by_address(
        all.push(rc).filter(of_key((#[trigger] next[i]).action, next[i].resource_type)),
        next[i].changes,
    ) && next[i].changes.len() > 0 && (next[i].action != Action::NoOp || show_noops) by {
        let key = of_key(next[i].action, next[i].resource_type);
        assert(groups[i].changes.len() > 0);
        filter_push(all, rc, key);
        if i == p {
            insert_keeps_sorting(all.filter(key), groups[p].changes, rc, q);
        } else {
            key_irreflexive(groups[p].action, groups[p].resource_type);
            assert(!key(rc));
        }
    }
    assert forall|k: int|
        0 <= k < all.push(rc).len() && shown(#[trigger] all.push(rc)[k], show_noops) implies has_group(
        next,
        all.push(rc)[k],
    ) by {
        if k < all.len() {
            assert(all.push(rc)[k] == all[k]);
            assert(has_group(groups, all[k]));
            let i = choose|i: int|
                0 <= i < groups.len() && action_of(all[k].change.actions) == Some(
                    (#[trigger] groups[i]).action,
                ) && groups[i].resource_type == all[k].resource_type;
            assert(next[i].action == groups[i].action);
        } else {
            assert(next[p].action == groups[p].action);
        }
    }
    assert forall|i: int, j: int| 0 <= i < j < next.len() implies key_before(
        (#[trigger] next[i]).action,
        next[i].resource_type,
        (#[trigger] next[j]).action,
        next[j].resource_type,
    ) by {
        assert(groups[i].action == next[i].action && groups[j].action == next[j].action);
    }
}

/// A shown change whose key has no group yet opens one at its key's place.
proof fn open_keeps_grouping(
    all: Seq<ResourceChangeView>,
    show_noops: bool,
    groups: Seq<GroupView>,
    rc: ResourceChangeView,
    action: Action,
    p: int,
)
    requires
        grouped(all, show_noops, groups),
        shown(rc, show_noops),
        action_of(rc.change.actions) == Some(action),
        0 <= p <= groups.len(),
        forall|i: int|
            0 <= i < p ==> key_before(
                (#[trigger] groups[i]).action,
                groups[i].resource_type,
                action,
                rc.resource_type,
            ),
        forall|i: int|
            p <= i < groups.len() ==> key_before(
                action,
                rc.resource_type,
                (#[trigger] groups[i]).action,
                groups[i].resource_type,
            ),
    ensures
        grouped(
            all.push(rc),
            show_noops,
            groups.insert(
                p,
                GroupView { resource_type: rc.resource_type, action, changes: seq![rc] },
            ),
        ),
{
    let fresh = GroupView { resource_type: rc.resource_type, action, changes: seq![rc] };
    let next = groups.insert(p, fresh);
    groups.insert_ensures(p, fresh);
    key_irreflexive(action, rc.resource_type);
    assert forall|i: int| 0 <= i < next.len() implies sorted_by_address(
        all.push(rc).filter(of_key((#[trigger] next[i]).action, next[i].resource_type)),
        next[i].changes,
    ) && next[i].changes.len() > 0 && (next[i].action != Action::NoOp || show_noops) by {
        let key = of_key(next[i].action, next[i].resource_type);
        filter_push(all, rc, key);
        if i == p {
            assert forall|k: int| 0 <= k < all.len() implies !key(#[trigger] all[k]) by {
                if key(all[k]) {
                    assert(shown(all[k], show_noops));
                    assert(has_group(groups, all[k]));
                }
            }
            filter_none(all, key);
            assert(all.push(rc).filter(key) =~= seq![rc]);
        } else {
            let g = if i < p {
                groups[i]
            } else {
                groups[i - 1]
            };
            assert(next[i] == g);
            assert(g.changes.len() > 0);
            assert(!key(rc));
        }
    }
    assert forall|k: int|
        0 <= k < all.push(rc).len() && shown(#[trigger] all.push(rc)[k], show_noops) implies has_group(
        next,
        all.push(rc)[k],
    ) by {
        if k < all.len() {
            assert(all.push(rc)[k] == all[k]);
            assert(has_group(groups, all[k]));
            let i = choose|i: int|
                0 <= i < groups.len() && action_of(all[k].change.actions) == Some(
                    (#[trigger] groups[i]).action,
                ) && groups[i].resource_type == all[k].resource_type;
            if i < p {
                assert(next[i] == groups[i]);
            } else {
                assert(next[i + 1] == groups[i]);
            }
        } else {
            assert(next[p] == fresh);
        }
    }
    assert forall|i: int, j: int| 0 <= i < j < next.len() implies key_before(
        (#[trigger] next[i]).action,
        next[i].resource_type,
        (#[trigger] next[j]).action,
        next[j].resource_type,
    ) by {
        assert(i < p ==> next[i] == groups[i]);
        assert(i > p ==> next[i] == groups[i - 1]);
        assert(j < p ==> next[j] == groups[j]);
        assert(j > p ==> next[j] == groups[j - 1]);
    }
}

// ---------------------------------------------------------------------------
// Grouping
// ---------------------------------------------------------------------------

/// Lower number = higher priority = rendered first.
/// Destructive actions surface at the top so the user sees risk immediately.
pub fn action_priority(a: Action) -> (r: u8)
    ensures
        r == priority(a),
{
    match a {
        Action::Delete => 0,
        Action::Replace => 1,
        Action::Update => 2,
        Action::Create => 3,
        Action::Read => 4,
        Action::NoOp => 5,
    }
}

/// Puts a change behind those whose address does not come after its own.
fn insert_change(changes: &mut Vec<ResourceChange>, rc: ResourceChange) -> (q: usize)
    requires
        address_ordered(change_views(old(changes)@)),
    ensures
        q <= old(changes)@.len(),
        change_views(final(changes)@) == change_views(old(changes)@).insert(q as int, rc@),
        q > 0 ==> !text_lt(rc@.address, change_views(old(changes)@)[q - 1].address),
        forall|i: int|
            q <= i < old(changes)@.len() ==> text_lt(
                rc@.address,
                (#[trigger] change_views(old(changes)@)[i]).address,
            ),
{
    let ghost views = change_views(changes@);
    let mut q: usize = changes.len();
    while q > 0 && comes_before(rc.address.as_str(), changes[q - 1].address.as_str())
        invariant
            q <= changes@.len(),
            views == change_views(changes@),
            forall|i: int|
                q <= i < changes@.len() ==> text_lt(rc@.address, (#[trigger] views[i]).address),
        decreases q,
    {
        assert(views[q - 1] == changes@[q - 1]@);
        q -= 1;
    }
    assert(q > 0 ==> views[q - 1] == changes@[q - 1]@);
    let ghost v = rc@;
    changes.insert(q, rc);
    assert(change_views(changes@) =~= views.insert(q as int, v));
    q
}

/// Files one shown change under its key.
fn place(
    groups: &mut Vec<Group>,
    rc: ResourceChange,
    action: Action,
    Ghost(all): Ghost<Seq<ResourceChangeView>>,
    Ghost(show_noops): Ghost<bool>,
)
    requires
        grouped(all, show_noops, group_views(old(groups)@)),
        shown(rc@, show_noops),
        action_of(rc@.change.actions) == Some(action),
    ensures
        grouped(all.push(rc@), show_noops, group_views(final(groups)@)),
{
    let ghost views = group_views(groups@);
    let ghost v = rc@;
    let mut p: usize = 0;
    while p < groups.len() && (action_priority(groups[p].action) < action_priority(action) || (
    groups[p].action == action && comes_before(
        groups[p].resource_type.as_str(),
        rc.resource_type.as_str(),
    )))
        invariant
            p <= groups@.len(),
            views == group_views(groups@),
            v == rc@,
            forall|i: int|
                0 <= i < p ==> key_before(
                    (#[trigger] views[i]).action,
                    views[i].resource_type,
                    action,
                    v.resource_type,
                ),
        decreases groups@.len() - p,
    {
        assert(views[p as int] == groups@[p as int]@);
        p += 1;
    }
    assert(p < groups@.len() ==> views[p as int] == groups@[p as int]@);
    if p < groups.len() && groups[p].action == action && same(
        groups[p].resource_type.as_str(),
        rc.resource_type.as_str(),
    ) {
        let q = insert_change(&mut groups[p].changes, rc);
        proof {
            join_keeps_grouping(all, show_noops, views, v, p as int, q as int);
            assert(group_views(groups@) =~= views.update(
                p as int,
                GroupView {
                    changes: views[p as int].changes.insert(q as int, v),
                    ..views[p as int]
                },
            ));
        }
    } else {
        proof {
            if p < groups@.len() {
                text_lt_total(views[p as int].resource_type, v.resource_type);
                assert(key_before(
                    action,
                    v.resource_type,
                    views[p as int].action,
                    views[p as int].resource_type,
                ));
            }
            assert forall|i: int| p <= i < views.len() implies key_before(
                action,
                v.resource_type,
                (#[trigger] views[i]).action,
                views[i].resource_type,
            ) by {
                if i > p {
                    let mid = views[p as int];
                    if action == mid.action && mid.action == views[i].action {
                        text_lt_transitive(
                            v.resource_type,
                            mid.resource_type,
                            views[i].resource_type,
                        );
                    }
                }
            }
            open_keeps_grouping(all, show_noops, views, v, action, p as int);
        }
        let resource_type = rc.resource_type.clone();
        let mut changes: Vec<ResourceChange> = Vec::new();
        changes.push(rc);
        let fresh = Group { resource_type, action, changes };
        assert(fresh@.changes =~= seq![v]);
        groups.insert(p, fresh);
        assert(group_views(groups@) =~= views.insert(
            p as int,
            GroupView { resource_type: v.resource_type, action, changes: seq![v] },
        ));
    }
}

/// Files the shown changes among `changes`.
fn place_all(
    groups: &mut Vec<Group>,
    changes: &Vec<ResourceChange>,
    show_noops: bool,
    Ghost(all): Ghost<Seq<ResourceChangeView>>,
)
    requires
        grouped(all, show_noops, group_views(old(groups)@)),
    ensures
        grouped(all + change_views(changes@), show_noops, group_views(final(groups)@)),
{
    let ghost views = change_views(changes@);
    let mut i: usize = 0;
    assert(all + views.take(0) =~= all);
    while i < changes.len()
        invariant
            i <= changes@.len(),
            views == change_views(changes@),
            grouped(all + views.take(i as int), show_noops, group_views(groups@)),
        decreases changes@.len() - i,
    {
        let rc = &changes[i];
        let ghost before = all + views.take(i as int);
        assert(views[i as int] == rc@);
        assert(all + views.take(i + 1) =~= before.push(rc@));
        match Action::from_actions(rc.change.actions.as_slice()) {
            Ok(action) => {
                if action != Action::NoOp || show_noops {
                    place(groups, rc.clone(), action, Ghost(before), Ghost(show_noops));
                } else {
                    proof {
                        hidden_keeps_grouping(before, show_noops, group_views(groups@), rc@);
                    }
                }
            },
            Err(_) => {
                proof {
                    hidden_keeps_grouping(before, show_noops, group_views(groups@), rc@);
                }
            },
        }
        i += 1;
    }
    assert(views.take(i as int) =~= views);
}

/// Group a plan's changes. If `show_noops` is false, no-op entries are excluded.
pub fn group_plan(plan: &Plan, show_noops: bool) -> (r: Vec<Group>)
    ensures
        grouped(all_changes(plan@), show_noops, group_views(r@)),
{
    let mut groups: Vec<Group> = Vec::new();
    let ghost none = Seq::<ResourceChangeView>::empty();
    place_all(&mut groups, &plan.resource_changes, show_noops, Ghost(none));
    assert(none + plan@.resource_changes =~= plan@.resource_changes);
    place_all(&mut groups, &plan.resource_drift, show_noops, Ghost(plan@.resource_changes));
    groups
}

// ---------------------------------------------------------------------------
// Groupings of related changes
// ---------------------------------------------------------------------------

/// Whether two sequences of changes are related place by place.
pub open spec fn related(
    x: Seq<ResourceChangeView>,
    y: Seq<ResourceChangeView>,
    r: spec_fn(ResourceChangeView, ResourceChangeView) -> bool,
) -> bool {
    &&& x.len() == y.len()
    &&& forall|i: int| 0 <= i < x.len() ==> r(#[trigger] x[i], y[i])
}

/// Whether `r` relates only changes with the same address, resource type and
/// action words: all that a grouping looks at.
pub open spec fn keeps_place(r: spec_fn(ResourceChangeView, ResourceChangeView) -> bool) -> bool {
    forall|a: ResourceChangeView, b: ResourceChangeView| #[trigger]
        r(a, b) ==> a.address == b.address && a.resource_type == b.resource_type
            && a.change.actions == b.change.actions
}

/// Whether two groupings have the same keys and related changes.
pub open spec fn groups_related(
    x: Seq<GroupView>,
    y: Seq<GroupView>,
    r: spec_fn(ResourceChangeView, ResourceChangeView) -> bool,
) -> bool {
    &&& x.len() == y.len()
    &&& forall|i: int|
        0 <= i < x.len() ==> (#[trigger] x[i]).action == y[i].action && x[i].resource_type
            == y[i].resource_type && related(x[i].changes, y[i].changes, r)
}

/// Filtering by what related changes share keeps them related.
proof fn filter_related(
    x: Seq<ResourceChangeView>,
    y: Seq<ResourceChangeView>,
    r: spec_fn(ResourceChangeView, ResourceChangeView) -> bool,
    p: spec_fn(ResourceChangeView) -> bool,
)
    requires
        related(x, y, r),
        forall|a: ResourceChangeView, b: ResourceChangeView| #[trigger] r(a, b) ==> p(a) == p(b),
    ensures
        related(x.filter(p), y.filter(p), r),
    decreases x.len(),
{
    reveal(Seq::filter);
    if x.len() > 0 {
        let xs = x.drop_last();
        let ys = y.drop_last();
        assert forall|i: int| 0 <= i < xs.len() implies r(#[trigger] xs[i], ys[i]) by {
            assert(r(x[i], y[i]));
        }
        filter_related(xs, ys, r, p);
        assert(r(x[x.len() - 1], y[y.len() - 1]));
    }
}

/// A change that a filter accepts is left by it.
proof fn filter_keeps(
    s: Seq<ResourceChangeView>,
    p: spec_fn(ResourceChangeView) -> bool,
    i: int,
)
    requires
        0 <= i < s.len(),
        p(s[i]),
    ensures
        s.filter(p).len() > 0,
{
    broadcast use vstd::seq_lib::group_filter_ensures;

    assert(s.filter(p).contains(s[i]));
}

/// A change at `address` occurs where filtering by it leaves one.
proof fn address_occurs(s: Seq<ResourceChangeView>, address: Seq<char>)
    requires
        s.filter(at_address(address)).len() > 0,
    ensures
        exists|i: int| 0 <= i < s.len() && (#[trigger] s[i]).address == address,
{
    if forall|i: int| 0 <= i < s.len() ==> (#[trigger] s[i]).address != address {
        filter_none(s, at_address(address));
    }
}

/// A change with the key occurs where filtering by it leaves one.
proof fn key_occurs(s: Seq<ResourceChangeView>, action: Action, resource_type: Seq<char>)
    requires
        s.filter(of_key(action, resource_type)).len() > 0,
    ensures
        exists|i: int| 0 <= i < s.len() && of_key(action, resource_type)(#[trigger] s[i]),
{
    if forall|i: int| 0 <= i < s.len() ==> !of_key(action, resource_type)(#[trigger] s[i]) {
        filter_none(s, of_key(action, resource_type));
    }
}

/// Address-ordered sequences whose changes at each address are related are
/// related as a whole.
proof fn sorting_related(
    x: Seq<ResourceChangeView>,
    y: Seq<ResourceChangeView>,
    r: spec_fn(ResourceChangeView, ResourceChangeView) -> bool,
)
    requires
        keeps_place(r),
        address_ordered(x),
        address_ordered(y),
        forall|address: Seq<char>|
            related(#[trigger] x.filter(at_address(address)), y.filter(at_address(address)), r),
    ensures
        related(x, y, r),
    decreases x.len(),
{
    reveal(Seq::filter);
    if x.len() == 0 {
        if y.len() > 0 {
            let p = at_address(y[0].address);
            filter_keeps(y, p, 0);
            assert(related(x.filter(p), y.filter(p), r));
        }
    } else {
        let a = x.last().address;
        filter_keeps(x, at_address(a), x.len() - 1);
        assert(related(x.filter(at_address(a)), y.filter(at_address(a)), r));
        address_occurs(y, a);
        let b = y.last().address;
        filter_keeps(y, at_address(b), y.len() - 1);
        assert(related(x.filter(at_address(b)), y.filter(at_address(b)), r));
        address_occurs(x, b);
        let i = choose|i: int| 0 <= i < x.len() && (#[trigger] x[i]).address == b;
        let j = choose|j: int| 0 <= j < y.len() && (#[trigger] y[j]).address == a;
        assert(!text_lt(a, b)) by {
            text_lt_irreflexive(a);
            assert(x[i].address == b && x[x.len() - 1].address == a);
        }
        assert(!text_lt(b, a)) by {
            text_lt_irreflexive(a);
            assert(y[j].address == a && y[y.len() - 1].address == b);
        }
        text_lt_total(a, b);
        let n = x.filter(at_address(a)).len() - 1;
        assert(x.filter(at_address(a))[n] == x.last());
        assert(y.filter(at_address(a))[n] == y.last());
        assert(r(x.last(), y.last()));
        let xs = x.drop_last();
        let ys = y.drop_last();
        assert forall|address: Seq<char>|
            related(#[trigger] xs.filter(at_address(address)), ys.filter(at_address(address)), r) by {
            let p = at_address(address);
            let fx = x.filter(p);
            let fy = y.filter(p);
            assert(related(fx, fy, r));
            if p(x.last()) {
                assert(fx.drop_last() =~= xs.filter(p));
                assert(fy.drop_last() =~= ys.filter(p));
                assert forall|k: int| 0 <= k < xs.filter(p).len() implies r(
                    #[trigger] xs.filter(p)[k],
                    ys.filter(p)[k],
                ) by {
                    assert(r(fx[k], fy[k]));
                }
            }
        }
        sorting_related(xs, ys, r);
        assert forall|k: int| 0 <= k < x.len() implies r(#[trigger] x[k], y[k]) by {
            if k < xs.len() {
                assert(r(xs[k], ys[k]));
            }
        }
    }
}

/// The key of a group of one grouping is the key of a group of the other.
proof fn key_shared(
    all: Seq<ResourceChangeView>,
    others: Seq<ResourceChangeView>,
    show_noops: bool,
    x: Seq<GroupView>,
    y: Seq<GroupView>,
    r: spec_fn(ResourceChangeView, ResourceChangeView) -> bool,
    i: int,
) -> (m: int)
    requires
        keeps_place(r),
        related(all, others, r) || related(others, all, r),
        grouped(all, show_noops, x),
        grouped(others, show_noops, y),
        0 <= i < x.len(),
    ensures
        0 <= m < y.len(),
        y[m].action == x[i].action,
        y[m].resource_type == x[i].resource_type,
{
    let key = of_key(x[i].action, x[i].resource_type);
    let p = at_address(x[i].changes[0].address);
    assert(x[i].changes.len() > 0);
    filter_keeps(x[i].changes, p, 0);
    assert(x[i].changes.filter(p) == all.filter(key).filter(p));
    assert(all.filter(key).len() > 0) by {
        reveal(Seq::filter);
    }
    key_occurs(all, x[i].action, x[i].resource_type);
    let k = choose|k: int| 0 <= k < all.len() && key(#[trigger] all[k]);
    assert(r(all[k], others[k]) || r(others[k], all[k]));
    assert(shown(others[k], show_noops));
    assert(has_group(y, others[k]));
    choose|m: int|
        0 <= m < y.len() && action_of(others[k].change.actions) == Some((#[trigger] y[m]).action)
            && y[m].resource_type == others[k].resource_type
}

/// No two keys each come before the other.
proof fn key_asymmetric(a: Action, s: Seq<char>, b: Action, t: Seq<char>)
    requires
        key_before(a, s, b, t),
    ensures
        !key_before(b, t, a, s),
{
    if a == b && text_lt(t, s) {
        text_lt_transitive(s, t, s);
        text_lt_irreflexive(s);
    }
}

/// Groupings of related changes have the same keys up to any place.
proof fn keys_agree(
    all: Seq<ResourceChangeView>,
    others: Seq<ResourceChangeView>,
    show_noops: bool,
    x: Seq<GroupView>,
    y: Seq<GroupView>,
    r: spec_fn(ResourceChangeView, ResourceChangeView) -> bool,
    n: int,
)
    requires
        keeps_place(r),
        related(all, others, r),
        grouped(all, show_noops, x),
        grouped(others, show_noops, y),
        0 <= n <= x.len(),
        n <= y.len(),
    ensures
        forall|i: int|
            0 <= i < n ==> (#[trigger] x[i]).action == y[i].action && x[i].resource_type
                == y[i].resource_type,
    decreases n,
{
    if n > 0 {
        keys_agree(all, others, show_noops, x, y, r, n - 1);
        let i = n - 1;
        let m = key_shared(all, others, show_noops, x, y, r, i);
        let k = key_shared(others, all, show_noops, y, x, r, i);
        key_irreflexive(x[i].action, x[i].resource_type);
        key_irreflexive(y[i].action, y[i].resource_type);
        if m < i {
            assert(x[m].action == y[m].action);
            assert(false);
        }
        if k < i {
            assert(x[k].action == y[k].action);
            assert(false);
        }
        if m > i && k > i {
            key_asymmetric(x[i].action, x[i].resource_type, y[i].action, y[i].resource_type);
        }
    }
}

/// Groupings of related changes are related: a grouping looks at nothing but
/// addresses, resource types and action words.
pub proof fn groupings_of_related_changes(
    all: Seq<ResourceChangeView>,
    others: Seq<ResourceChangeView>,
    show_noops: bool,
    x: Seq<GroupView>,
    y: Seq<GroupView>,
    r: spec_fn(ResourceChangeView, ResourceChangeView) -> bool,
)
    requires
        keeps_place(r),
        related(all, others, r),
        grouped(all, show_noops, x),
        grouped(others, show_noops, y),
    ensures
        groups_related(x, y, r),
{
    let n = if x.len() <= y.len() {
        x.len() as int
    } else {
        y.len() as int
    };
    keys_agree(all, others, show_noops, x, y, r, n);
    if x.len() > n {
        let m = key_shared(all, others, show_noops, x, y, r, n);
        key_irreflexive(x[n].action, x[n].resource_type);
        assert(x[m].action == y[m].action);
        assert(false);
    }
    if y.len() > n {
        let m = key_shared(others, all, show_noops, y, x, r, n);
        key_irreflexive(y[n].action, y[n].resource_type);
        assert(x[m].action == y[m].action);
        assert(false);
    }
    assert forall|i: int| 0 <= i < x.len() implies related(
        (#[trigger] x[i]).changes,
        y[i].changes,
        r,
    ) by {
        assert(x[i].action == y[i].action && x[i].resource_type == y[i].resource_type);
        let key = of_key(x[i].action, x[i].resource_type);
        assert(sorted_by_address(all.filter(key), x[i].changes));
        assert(sorted_by_address(others.filter(key), y[i].changes));
        filter_related(all, others, r, key);
        assert forall|address: Seq<char>|
            related(
                #[trigger] x[i].changes.filter(at_address(address)),
                y[i].changes.filter(at_address(address)),
                r,
            ) by {
            let p = at_address(address);
            assert(x[i].changes.filter(p) == all.filter(key).filter(p));
            assert(y[i].changes.filter(p) == others.filter(key).filter(p));
            filter_related(all.filter(key), others.filter(key), r, p);
        }
        sorting_related(x[i].changes, y[i].changes, r);
    }
}

// ---------------------------------------------------------------------------
// Laws
// ---------------------------------------------------------------------------

/// A plan has exactly one grouping: the order of the groups, the order of the
/// changes in each, and what each holds are all determined.
pub proof fn grouping_is_unique(
    all: Seq<ResourceChangeView>,
    show_noops: bool,
    x: Seq<GroupView>,
    y: Seq<GroupView>,
)
    requires
        grouped(all, show_noops, x),
        grouped(all, show_noops, y),
    ensures
        x == y,
{
    let r = |a: ResourceChangeView, b: ResourceChangeView| a == b;
    groupings_of_related_changes(all, all, show_noops, x, y, r);
    assert forall|i: int| 0 <= i < x.len() implies x[i] == y[i] by {
        assert(related(x[i].changes, y[i].changes, r));
        assert forall|k: int| 0 <= k < x[i].changes.len() implies x[i].changes[k]
            == y[i].changes[k] by {
            assert(r(x[i].changes[k], y[i].changes[k]));
        }
        assert(x[i].changes =~= y[i].changes);
    }
    assert(x =~= y);
}

/// Destructive actions surface first: no group comes behind one of lower
/// priority.
pub proof fn destructive_groups_come_first(
    all: Seq<ResourceChangeView>,
    show_noops: bool,
    groups: Seq<GroupView>,
    i: int,
    j: int,
)
    requires
        grouped(all, show_noops, groups),
        0 <= i < j < groups.len(),
    ensures
        priority(groups[i].action) <= priority(groups[j].action),
{
}

/// Every change in a group is a shown change of the plan, with the group's
/// action and resource type.
pub proof fn grouped_changes_come_from_the_plan(
    all: Seq<ResourceChangeView>,
    show_noops: bool,
    groups: Seq<GroupView>,
    i: int,
    k: int,
)
    requires
        grouped(all, show_noops, groups),
        0 <= i < groups.len(),
        0 <= k < groups[i].changes.len(),
    ensures
        all.contains(groups[i].changes[k]),
        shown(groups[i].changes[k], show_noops),
        action_of(groups[i].changes[k].change.actions) == Some(groups[i].action),
        groups[i].changes[k].resource_type == groups[i].resource_type,
{
    let key = of_key(groups[i].action, groups[i].resource_type);
    let rc = groups[i].changes[k];
    let p = at_address(rc.address);
    filter_contains(groups[i].changes, p, k);
    assert(groups[i].changes.filter(p) == all.filter(key).filter(p));
    let m = choose|m: int|
        0 <= m < all.filter(key).filter(p).len() && all.filter(key).filter(p)[m] == rc;
    filter_source(all.filter(key), p, m);
    let n = choose|n: int| 0 <= n < all.filter(key).len() && all.filter(key)[n] == rc;
    filter_source(all, key, n);
}

/// Every shown change of the plan is in the group of its action and resource
/// type.
pub proof fn shown_changes_are_grouped(
    all: Seq<ResourceChangeView>,
    show_noops: bool,
    groups: Seq<GroupView>,
    k: int,
) -> (i: int)
    requires
        grouped(all, show_noops, groups),
        0 <= k < all.len(),
        shown(all[k], show_noops),
    ensures
        0 <= i < groups.len(),
        action_of(all[k].change.actions) == Some(groups[i].action),
        all[k].resource_type == groups[i].resource_type,
        groups[i].changes.contains(all[k]),
{
    assert(has_group(groups, all[k]));
    let i = choose|i: int|
        0 <= i < groups.len() && action_of(all[k].change.actions) == Some(
            (#[trigger] groups[i]).action,
        ) && groups[i].resource_type == all[k].resource_type;
    let key = of_key(groups[i].action, groups[i].resource_type);
    let p = at_address(all[k].address);
    filter_contains(all, key, k);
    let n = choose|n: int| 0 <= n < all.filter(key).len() && all.filter(key)[n] == all[k];
    filter_contains(all.filter(key), p, n);
    assert(groups[i].changes.filter(p) == all.filter(key).filter(p));
    let m = choose|m: int|
        0 <= m < groups[i].changes.filter(p).len() && groups[i].changes.filter(p)[m] == all[k];
    filter_source(groups[i].changes, p, m);
    i
}

/// What a filter accepts is among what it leaves.
proof fn filter_contains(
    s: Seq<ResourceChangeView>,
    p: spec_fn(ResourceChangeView) -> bool,
    i: int,
)
    requires
        0 <= i < s.len(),
        p(s[i]),
    ensures
        s.filter(p).contains(s[i]),
{
    broadcast use vstd::seq_lib::group_filter_ensures;

}

/// What a filter leaves was there, and is accepted.
proof fn filter_source(
    s: Seq<ResourceChangeView>,
    p: spec_fn(ResourceChangeView) -> bool,
    i: int,
)
    requires
        0 <= i < s.filter(p).len(),
    ensures
        s.contains(s.filter(p)[i]),
        p(s.filter(p)[i]),
    decreases s.len(),
{
    reveal(Seq::filter);
    if s.len() > 0 {
        let rest = s.drop_last();
        if i < rest.filter(p).len() {
            filter_source(rest, p, i);
            assert(s.filter(p)[i] == rest.filter(p)[i]);
            let k = choose|k: int| 0 <= k < rest.len() && rest[k] == rest.filter(p)[i];
            assert(s[k] == s.filter(p)[i]);
        } else {
            assert(s[s.len() - 1] == s.filter(p)[i]);
        }
    }
}

/// How many changes the groups hold together.
pub open spec fn group_total(groups: Seq<GroupView>) -> nat
    decreases groups.len(),
{
    if groups.len() == 0 {
        0
    } else {
        group_total(groups.drop_last()) + groups.last().changes.len()
    }
}

/// How many changes of `all` have the key of one of the groups, counted group
/// by group.
spec fn key_total(all: Seq<ResourceChangeView>, groups: Seq<GroupView>) -> nat
    decreases groups.len(),
{
    if groups.len() == 0 {
        0
    } else {
        key_total(all, groups.drop_last()) + all.filter(
            of_key(groups.last().action, groups.last().resource_type),
        ).len()
    }
}

/// Whether no two groups have the same key.
spec fn keys_distinct(groups: Seq<GroupView>) -> bool {
    forall|i: int, j: int|
        0 <= i < j < groups.len() ==> (#[trigger] groups[i]).action != (#[trigger] groups[j]).action
            || groups[i].resource_type != groups[j].resource_type
}

/// One change more adds one to the total where a group has its key.
proof fn key_total_step(
    all: Seq<ResourceChangeView>,
    rc: ResourceChangeView,
    groups: Seq<GroupView>,
)
    requires
        keys_distinct(groups),
    ensures
        key_total(all.push(rc), groups) == key_total(all, groups) + (if has_group(groups, rc) {
            1nat
        } else {
            0nat
        }),
    decreases groups.len(),
{
    if groups.len() > 0 {
        let rest = groups.drop_last();
        let last = groups.last();
        key_total_step(all, rc, rest);
        filter_push(all, rc, of_key(last.action, last.resource_type));
        if has_group(rest, rc) {
            let i = choose|i: int|
                0 <= i < rest.len() && action_of(rc.change.actions) == Some(
                    (#[trigger] rest[i]).action,
                ) && rest[i].resource_type == rc.resource_type;
            assert(groups[i] == rest[i]);
            assert(groups[groups.len() - 1] == last);
        }
        if has_group(groups, rc) {
            let i = choose|i: int|
                0 <= i < groups.len() && action_of(rc.change.actions) == Some(
                    (#[trigger] groups[i]).action,
                ) && groups[i].resource_type == rc.resource_type;
            if i < rest.len() {
                assert(rest[i] == groups[i]);
            }
        }
        if of_key(last.action, last.resource_type)(rc) {
            assert(groups[groups.len() - 1] == last);
            assert(has_group(groups, rc));
        }
    }
}

proof fn key_total_empty(groups: Seq<GroupView>)
    ensures
        key_total(Seq::empty(), groups) == 0,
    decreases groups.len(),
{
    reveal(Seq::filter);
    if groups.len() > 0 {
        key_total_empty(groups.drop_last());
    }
}

/// The groups' keys count exactly the shown changes of any part of the plan.
proof fn key_total_counts_shown(
    part: Seq<ResourceChangeView>,
    show_noops: bool,
    groups: Seq<GroupView>,
)
    requires
        keys_distinct(groups),
        forall|i: int|
            0 <= i < groups.len() ==> (#[trigger] groups[i]).action != Action::NoOp || show_noops,
        forall|k: int|
            0 <= k < part.len() && shown(#[trigger] part[k], show_noops) ==> has_group(
                groups,
                part[k],
            ),
    ensures
        key_total(part, groups) == part.filter(
            |rc: ResourceChangeView| shown(rc, show_noops),
        ).len(),
    decreases part.len(),
{
    let p = |rc: ResourceChangeView| shown(rc, show_noops);
    if part.len() == 0 {
        reveal(Seq::filter);
        assert(part =~= Seq::empty());
        key_total_empty(groups);
    } else {
        let rest = part.drop_last();
        let last = part.last();
        assert(part =~= rest.push(last));
        assert forall|k: int|
            0 <= k < rest.len() && shown(#[trigger] rest[k], show_noops) implies has_group(
            groups,
            rest[k],
        ) by {
            assert(rest[k] == part[k]);
        }
        key_total_counts_shown(rest, show_noops, groups);
        key_total_step(rest, last, groups);
        filter_push(rest, last, p);
        assert(part[part.len() - 1] == last);
        if has_group(groups, last) {
            assert(shown(last, show_noops));
        }
    }
}

/// Sorting by address loses and adds nothing.
proof fn sorting_keeps_len(input: Seq<ResourceChangeView>, output: Seq<ResourceChangeView>)
    requires
        forall|address: Seq<char>| #[trigger]
            output.filter(at_address(address)) == input.filter(at_address(address)),
    ensures
        output.len() == input.len(),
    decreases output.len(),
{
    reveal(Seq::filter);
    if output.len() == 0 {
        if input.len() > 0 {
            let p = at_address(input[0].address);
            filter_keeps(input, p, 0);
            assert(output.filter(p) == input.filter(p));
        }
    } else {
        let last = output.last();
        let a = last.address;
        filter_keeps(output, at_address(a), output.len() - 1);
        assert(output.filter(at_address(a)) == input.filter(at_address(a)));
        address_occurs(input, a);
        let k = last_at(input, a);
        let front = input.subrange(0, k);
        let back = input.subrange(k + 1, input.len() as int);
        let rest = front + back;
        assert(input =~= front.push(input[k]) + back);
        assert forall|address: Seq<char>| #[trigger] output.drop_last().filter(at_address(address))
            == rest.filter(at_address(address)) by {
            let p = at_address(address);
            assert(output.filter(p) == input.filter(p));
            Seq::filter_distributes_over_add(front.push(input[k]), back, p);
            Seq::filter_distributes_over_add(front, back, p);
            filter_push(front, input[k], p);
            if address == a {
                assert forall|m: int| 0 <= m < back.len() implies !p(#[trigger] back[m]) by {
                    assert(back[m] == input[k + 1 + m]);
                }
                filter_none(back, p);
                assert(input.filter(p) =~= front.filter(p).push(input[k]));
                assert(output.filter(p).drop_last() =~= output.drop_last().filter(p));
                assert(rest.filter(p) =~= front.filter(p));
            }
        }
        sorting_keeps_len(rest, output.drop_last());
    }
}

/// The last place at which a change has this address.
proof fn last_at(s: Seq<ResourceChangeView>, address: Seq<char>) -> (k: int)
    requires
        exists|i: int| 0 <= i < s.len() && (#[trigger] s[i]).address == address,
    ensures
        0 <= k < s.len(),
        s[k].address == address,
        forall|i: int| k < i < s.len() ==> (#[trigger] s[i]).address != address,
    decreases s.len(),
{
    if s.last().address == address {
        s.len() - 1
    } else {
        let rest = s.drop_last();
        let i = choose|i: int| 0 <= i < s.len() && (#[trigger] s[i]).address == address;
        assert(rest[i] == s[i]);
        let k = last_at(rest, address);
        assert forall|m: int| k < m < s.len() implies (#[trigger] s[m]).address != address by {
            if m < rest.len() {
                assert(rest[m] == s[m]);
            }
        }
        k
    }
}

/// The first groups hold as many changes as have their keys.
proof fn group_total_is_key_total(
    all: Seq<ResourceChangeView>,
    show_noops: bool,
    groups: Seq<GroupView>,
    n: int,
)
    requires
        grouped(all, show_noops, groups),
        0 <= n <= groups.len(),
    ensures
        group_total(groups.take(n)) == key_total(all, groups.take(n)),
    decreases n,
{
    if n > 0 {
        group_total_is_key_total(all, show_noops, groups, n - 1);
        assert(groups.take(n).drop_last() =~= groups.take(n - 1));
        let g = groups[n - 1];
        assert(sorted_by_address(all.filter(of_key(g.action, g.resource_type)), g.changes));
        sorting_keeps_len(all.filter(of_key(g.action, g.resource_type)), g.changes);
    }
}

/// The groups hold each shown change once: their counts add up to the number
/// of shown changes.
pub proof fn group_counts_add_up(
    all: Seq<ResourceChangeView>,
    show_noops: bool,
    groups: Seq<GroupView>,
)
    requires
        grouped(all, show_noops, groups),
    ensures
        group_total(groups) == all.filter(|rc: ResourceChangeView| shown(rc, show_noops)).len(),
{
    assert(groups.take(groups.len() as int) =~= groups);
    group_total_is_key_total(all, show_noops, groups, groups.len() as int);
    assert forall|i: int, j: int| 0 <= i < j < groups.len() implies (#[trigger] groups[i]).action
        != (#[trigger] groups[j]).action || groups[i].resource_type != groups[j].resource_type by {
        key_irreflexive(groups[i].action, groups[i].resource_type);
    }
    key_total_counts_shown(all, show_noops, groups);
}

/// A plan whose changes are all no-ops, without drift, shows no group by
/// default, and has nothing to add, change or destroy.
pub proof fn empty_plan_shows_nothing(plan: PlanView, groups: Seq<GroupView>)
    requires
        plan.resource_drift.len() == 0,
        forall|i: int|
            0 <= i < plan.resource_changes.len() ==> action_of(
                (#[trigger] plan.resource_changes[i]).change.actions,
            ) == Some(Action::NoOp),
        grouped(all_changes(plan), false, groups),
    ensures
        groups.len() == 0,
        plan_footer(plan) == footer_line(0, 0, 0),
{
    if groups.len() > 0 {
        assert(groups[0].changes.len() > 0);
        grouped_changes_come_from_the_plan(all_changes(plan), false, groups, 0, 0);
        let rc = groups[0].changes[0];
        let n = all_changes(plan).index_of(rc);
        assert(plan.resource_changes[n] == rc);
    }
    let changes = plan.resource_changes;
    let add = |a: Action| adds(a);
    let change = |a: Action| a is Update;
    let destroy = |a: Action| destroys(a);
    filter_none(changes, |rc: ResourceChangeView| acts(rc, add));
    filter_none(changes, |rc: ResourceChangeView| acts(rc, change));
    filter_none(changes, |rc: ResourceChangeView| acts(rc, destroy));
}

/// The digits at the end of a text.
pub open spec fn trailing_digits(s: Seq<char>) -> Seq<char>
    decreases s.len(),
{
    if s.len() > 0 && '0' <= s.last() <= '9' {
        trailing_digits(s.drop_last()).push(s.last())
    } else {
        Seq::empty()
    }
}

/// The number in round brackets at the end of a label.
pub open spec fn number_in(label: Seq<char>) -> Option<nat> {
    number_written(trailing_digits(label.drop_last()))
}

proof fn digits_end_the_text(front: Seq<char>, digits: Seq<char>)
    requires
        front.len() > 0 ==> !('0' <= front.last() <= '9'),
        forall|i: int| 0 <= i < digits.len() ==> '0' <= #[trigger] digits[i] <= '9',
    ensures
        trailing_digits(front + digits) == digits,
    decreases digits.len(),
{
    let s = front + digits;
    if digits.len() == 0 {
        assert(s =~= front);
        assert(digits =~= Seq::empty());
    } else {
        let less = digits.drop_last();
        assert forall|i: int| 0 <= i < less.len() implies '0' <= #[trigger] less[i] <= '9' by {
            assert(less[i] == digits[i]);
        }
        assert(s.last() == digits[digits.len() - 1]);
        assert(s.drop_last() =~= front + less);
        digits_end_the_text(front, less);
        assert(less.push(digits.last()) =~= digits);
    }
}

/// A label tells what the group is: the glyph of its action, its resource type,
/// and in round brackets the number of its changes, whatever the action.
pub proof fn labels_tell_the_number_of_changes(g: GroupView)
    ensures
        has_prefix(group_label(g), glyph_of(g.action) + " "@ + g.resource_type + " ("@),
        group_label(g).last() == ')',
        number_in(group_label(g)) == Some(g.changes.len()),
        group_label(g).len() == (glyph_of(g.action) + " "@ + g.resource_type + " ("@).len()
            + decimal(g.changes.len()).len() + 1,
{
    reveal_strlit(" (");
    reveal_strlit(")");
    let front = glyph_of(g.action) + " "@ + g.resource_type + " ("@;
    let digits = decimal(g.changes.len());
    let label = group_label(g);
    prefixes_come_first(label, front, digits + ")"@);
    assert(label =~= front + (digits + ")"@));
    assert(label.drop_last() =~= front + digits);
    assert(front.last() == '(');
    decimals_read_back(g.changes.len());
    digits_end_the_text(front, digits);
}

/// The numbers in the labels of groups, added up.
pub open spec fn label_total(groups: Seq<GroupView>) -> nat
    decreases groups.len(),
{
    if groups.len() == 0 {
        0
    } else {
        label_total(groups.drop_last()) + (match number_in(group_label(groups.last())) {
            Some(n) => n,
            None => 0,
        })
    }
}

proof fn label_total_is_group_total(groups: Seq<GroupView>)
    ensures
        label_total(groups) == group_total(groups),
    decreases groups.len(),
{
    if groups.len() > 0 {
        label_total_is_group_total(groups.drop_last());
        labels_tell_the_number_of_changes(groups.last());
    }
}

/// Whether a change has an action that is to be shown: any, but `no-op` only on
/// demand.
pub open spec fn to_be_shown(show_noops: bool) -> spec_fn(ResourceChangeView) -> bool {
    |rc: ResourceChangeView|
        match action_of(rc.change.actions) {
            Some(a) => a != Action::NoOp || show_noops,
            None => false,
        }
}

/// The numbers in the labels add up to the number of changes that are to be
/// shown, drift included.
pub proof fn labels_add_up(plan: PlanView, show_noops: bool, groups: Seq<GroupView>)
    requires
        grouped(all_changes(plan), show_noops, groups),
    ensures
        label_total(groups) == plan.resource_changes.filter(to_be_shown(show_noops)).len()
            + plan.resource_drift.filter(to_be_shown(show_noops)).len(),
{
    let all = all_changes(plan);
    label_total_is_group_total(groups);
    group_counts_add_up(all, show_noops, groups);
    filter_agree(
        all,
        |rc: ResourceChangeView| shown(rc, show_noops),
        to_be_shown(show_noops),
    );
    filter_concat(plan.resource_changes, plan.resource_drift, to_be_shown(show_noops));
}

/// Whether a change has this action, this resource type and this address.
pub open spec fn identified(action: Action, resource_type: Seq<char>, address: Seq<char>) -> spec_fn(
    ResourceChangeView,
) -> bool {
    |rc: ResourceChangeView|
        action_of(rc.change.actions) == Some(action) && rc.resource_type == resource_type
            && rc.address == address
}

/// A group holds the plan's changes of its action and resource type, each as
/// often as the plan does and those with one address in the plan's order, drift
/// after the rest.
pub proof fn groups_hold_the_changes_of_their_key(
    plan: PlanView,
    show_noops: bool,
    groups: Seq<GroupView>,
    i: int,
    address: Seq<char>,
)
    requires
        grouped(all_changes(plan), show_noops, groups),
        0 <= i < groups.len(),
    ensures
        ({
            let p = identified(groups[i].action, groups[i].resource_type, address);
            groups[i].changes.filter(|rc: ResourceChangeView| rc.address == address)
                == plan.resource_changes.filter(p) + plan.resource_drift.filter(p)
        }),
{
    let all = all_changes(plan);
    let g = groups[i];
    let key = of_key(g.action, g.resource_type);
    let there = at_address(address);
    let p = identified(g.action, g.resource_type, address);
    assert(sorted_by_address(all.filter(key), g.changes));
    assert(g.changes.filter(there) == all.filter(key).filter(there));
    filter_both(all, key, there);
    filter_agree(all, |rc: ResourceChangeView| key(rc) && there(rc), p);
    filter_agree(g.changes, there, |rc: ResourceChangeView| rc.address == address);
    filter_concat(plan.resource_changes, plan.resource_drift, p);
}

/// A change of the plan that is to be shown, drift included, is in a group of
/// its action and resource type; there is one such group.
pub proof fn every_change_is_in_one_group(
    plan: PlanView,
    show_noops: bool,
    groups: Seq<GroupView>,
    rc: ResourceChangeView,
    action: Action,
)
    requires
        grouped(all_changes(plan), show_noops, groups),
        plan.resource_changes.contains(rc) || plan.resource_drift.contains(rc),
        action_of(rc.change.actions) == Some(action),
        action != Action::NoOp || show_noops,
    ensures
        exists|i: int|
            0 <= i < groups.len() && (#[trigger] groups[i]).action == action
                && groups[i].resource_type == rc.resource_type && groups[i].changes.contains(rc),
        forall|i: int, j: int|
            0 <= i < j < groups.len() ==> !((#[trigger] groups[i]).action == (
            #[trigger] groups[j]).action && groups[i].resource_type == groups[j].resource_type),
{
    let all = all_changes(plan);
    let k = if plan.resource_changes.contains(rc) {
        plan.resource_changes.index_of(rc)
    } else {
        plan.resource_changes.len() + plan.resource_drift.index_of(rc)
    };
    assert(all[k] == rc);
    let i = shown_changes_are_grouped(all, show_noops, groups, k);
    assert(groups[i].changes.contains(rc));
    assert forall|i: int, j: int| 0 <= i < j < groups.len() implies !((
    #[trigger] groups[i]).action == (#[trigger] groups[j]).action && groups[i].resource_type
        == groups[j].resource_type) by {
        key_irreflexive(groups[i].action, groups[i].resource_type);
    }
}

/// What a group holds comes from the plan, and has the group's action and
/// resource type; a group of no-ops is there only on demand, and none is empty.
pub proof fn groups_hold_nothing_else(
    plan: PlanView,
    show_noops: bool,
    groups: Seq<GroupView>,
    i: int,
    k: int,
)
    requires
        grouped(all_changes(plan), show_noops, groups),
        0 <= i < groups.len(),
        0 <= k < groups[i].changes.len(),
    ensures
        ({
            let rc = groups[i].changes[k];
            &&& plan.resource_changes.contains(rc) || plan.resource_drift.contains(rc)
            &&& action_of(rc.change.actions) == Some(groups[i].action)
            &&& rc.resource_type == groups[i].resource_type
            &&& groups[i].action == Action::NoOp ==> show_noops
        }),
{
    let all = all_changes(plan);
    grouped_changes_come_from_the_plan(all, show_noops, groups, i, k);
    let rc = groups[i].changes[k];
    let n = all.index_of(rc);
    if n < plan.resource_changes.len() {
        assert(plan.resource_changes[n] == rc);
    } else {
        assert(plan.resource_drift[n - plan.resource_changes.len()] == rc);
    }
}

/// The tree is in order: groups of one action by resource type, the changes of
/// a group by address; deletions stand before replacements, then updates,
/// creations, reads and no-ops.
pub proof fn groups_are_in_order(
    all: Seq<ResourceChangeView>,
    show_noops: bool,
    groups: Seq<GroupView>,
    i: int,
    j: int,
    k: int,
    m: int,
)
    requires
        grouped(all, show_noops, groups),
        0 <= i < j < groups.len(),
    ensures
        groups[i].action == groups[j].action ==> text_lt(
            groups[i].resource_type,
            groups[j].resource_type,
        ),
        groups[j].action is Delete ==> groups[i].action is Delete,
        groups[j].action is Replace ==> groups[i].action is Delete || groups[i].action is Replace,
        groups[i].action is NoOp ==> groups[j].action is NoOp,
        groups[i].action is Read ==> groups[j].action is NoOp || groups[j].action is Read,
        groups[i].action is Create ==> !(groups[j].action is Update),
        0 <= k < m < groups[i].changes.len() ==> !text_lt(
            groups[i].changes[m].address,
            groups[i].changes[k].address,
        ),
{
    assert(key_before(
        groups[i].action,
        groups[i].resource_type,
        groups[j].action,
        groups[j].resource_type,
    ));
    let g = groups[i];
    assert(sorted_by_address(all.filter(of_key(g.action, g.resource_type)), g.changes));
    assert(address_ordered(g.changes));
}

/// A view leaves nothing out: each group is seen in its place, and each of its
/// changes.
pub proof fn groups_are_seen_whole(groups: Seq<Group>, i: int, k: int)
    requires
        0 <= i < groups.len(),
    ensures
        group_views(groups).len() == groups.len(),
        group_views(groups)[i].resource_type == groups[i].resource_type@,
        group_views(groups)[i].action == groups[i].action,
        group_views(groups)[i].changes.len() == groups[i].changes@.len(),
        0 <= k < groups[i].changes@.len() ==> group_views(groups)[i].changes[k]
            == groups[i].changes@[k]@,
{
}

/// Priorities put actions in the order of the tree, from 0 for deletions to 5
/// for no-ops; no two actions share one.
pub proof fn priorities_order_actions(a: Action, b: Action)
    ensures
        0 <= priority(a) <= 5,
        priority(a) == priority(b) ==> a == b,
        a is Delete && !(b is Delete) ==> priority(a) < priority(b),
        a is Replace && !(b is Delete || b is Replace) ==> priority(a) < priority(b),
        a is Update && (b is Create || b is Read || b is NoOp) ==> priority(a) < priority(b),
        a is Create && (b is Read || b is NoOp) ==> priority(a) < priority(b),
        a is Read && b is NoOp ==> priority(a) < priority(b),
{
}

} // verus!
