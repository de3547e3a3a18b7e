//! What the digest and the tree can tell of masked values: nothing but that they are there
//! and whether they change.

use vstd::prelude::*;

use crate::digest::{
    attr_lines_of, attributes, budgeted_digest, change_digest, change_line, diff_lines,
    differs_from, digest_header, group_digest, hidden, masked, missing_in, plain_line, plain_lines,
    plan_digest, removal_line, MAX_ATTRS_PER_RESOURCE,
};
use crate::groups::{
    all_changes, group_label, grouped, groupings_of_related_changes, related, GroupView,
};
use crate::json::{has_key, lookup, JsonView};
use crate::plan::{
    acts, adds, destroys, tally, Action, ChangeView, PlanView, ResourceChangeView,
};
use crate::sequences::first;
use crate::text::concat_all;
use crate::tree::{group_rows, member_rows, resource_rows, rows_by_group, tree_rows};

verus! {

/// Whether two objects have the same keys, and the same values at all keys
/// that are not masked.
pub open spec fn members_alike(
    x: Seq<(Seq<char>, JsonView)>,
    y: Seq<(Seq<char>, JsonView)>,
    sensitive: Option<JsonView>,
    unknown: Option<JsonView>,
) -> bool {
    &&& x.len() == y.len()
    &&& forall|i: int|
        0 <= i < x.len() ==> (#[trigger] x[i]).0 == y[i].0 && (hidden(x[i].0, sensitive, unknown)
            || x[i].1 == y[i].1)
}

/// Whether two changes differ in masked values alone: the same actions and
/// flags, the same unmasked values, and the same attributes that change.
pub open spec fn change_alike(c: ChangeView, d: ChangeView) -> bool {
    &&& c.actions == d.actions
    &&& c.before_sensitive == d.before_sensitive
    &&& c.after_sensitive == d.after_sensitive
    &&& c.after_unknown == d.after_unknown
    &&& members_alike(attributes(c.before), attributes(d.before), c.before_sensitive, None)
    &&& members_alike(attributes(c.after), attributes(d.after), c.after_sensitive, c.after_unknown)
    &&& forall|i: int|
        0 <= i < attributes(c.after).len() ==> differs_from(attributes(c.before))(
            #[trigger] attributes(c.after)[i],
        ) == differs_from(attributes(d.before))(attributes(d.after)[i])
}

/// Whether two resource changes differ in masked values alone.
pub open spec fn alike() -> spec_fn(ResourceChangeView, ResourceChangeView) -> bool {
    |a: ResourceChangeView, b: ResourceChangeView|
        {
            &&& a.address == b.address
            &&& a.resource_type == b.resource_type
            &&& change_alike(a.change, b.change)
        }
}

/// Whether two plans differ in masked values alone.
pub open spec fn plans_alike(p: PlanView, q: PlanView) -> bool {
    &&& related(p.resource_changes, q.resource_changes, alike())
    &&& related(p.resource_drift, q.resource_drift, alike())
}

/// Two sequences that agree on what is kept and on its text give the same
/// texts.
proof fn texts_agree<A>(
    x: Seq<A>,
    y: Seq<A>,
    p: spec_fn(A) -> bool,
    q: spec_fn(A) -> bool,
    f: spec_fn(A) -> Seq<char>,
    g: spec_fn(A) -> Seq<char>,
)
    requires
        x.len() == y.len(),
        forall|i: int| 0 <= i < x.len() ==> p(#[trigger] x[i]) == q(y[i]),
        forall|i: int| 0 <= i < x.len() && p(#[trigger] x[i]) ==> f(x[i]) == g(y[i]),
    ensures
        x.filter(p).map_values(f) == y.filter(q).map_values(g),
    decreases x.len(),
{
    reveal(Seq::filter);
    if x.len() > 0 {
        let xs = x.drop_last();
        let ys = y.drop_last();
        assert forall|i: int| 0 <= i < xs.len() implies p(#[trigger] xs[i]) == q(ys[i]) by {
            assert(xs[i] == x[i] && ys[i] == y[i]);
        }
        assert forall|i: int| 0 <= i < xs.len() && p(#[trigger] xs[i]) implies f(xs[i]) == g(
            ys[i],
        ) by {
            assert(xs[i] == x[i] && ys[i] == y[i]);
        }
        texts_agree(xs, ys, p, q, f, g);
        let n = x.len() - 1;
        assert(p(x[n]) == q(y[n]));
        if p(x[n]) {
            assert(x.filter(p).map_values(f) =~= xs.filter(p).map_values(f).push(f(x[n])));
            assert(y.filter(q).map_values(g) =~= ys.filter(q).map_values(g).push(g(y[n])));
        }
    } else {
        assert(x.filter(p).map_values(f) =~= y.filter(q).map_values(g));
    }
}

/// Objects alike give alike values at every key that is not masked.
proof fn lookup_alike(
    x: Seq<(Seq<char>, JsonView)>,
    y: Seq<(Seq<char>, JsonView)>,
    sensitive: Option<JsonView>,
    unknown: Option<JsonView>,
    key: Seq<char>,
)
    requires
        members_alike(x, y, sensitive, unknown),
    ensures
        hidden(key, sensitive, unknown) || lookup(x, key) == lookup(y, key),
    decreases x.len(),
{
    if x.len() > 0 {
        assert(x[0].0 == y[0].0);
        let xs = x.drop_first();
        let ys = y.drop_first();
        assert forall|i: int| 0 <= i < xs.len() implies (#[trigger] xs[i]).0 == ys[i].0 && (hidden(
            xs[i].0,
            sensitive,
            unknown,
        ) || xs[i].1 == ys[i].1) by {
            assert(xs[i] == x[i + 1] && ys[i] == y[i + 1]);
        }
        lookup_alike(xs, ys, sensitive, unknown, key);
    }
}

/// Objects alike have the same keys.
proof fn keys_alike(
    x: Seq<(Seq<char>, JsonView)>,
    y: Seq<(Seq<char>, JsonView)>,
    sensitive: Option<JsonView>,
    unknown: Option<JsonView>,
    key: Seq<char>,
)
    requires
        members_alike(x, y, sensitive, unknown),
    ensures
        has_key(x, key) == has_key(y, key),
{
    if has_key(x, key) {
        let i = choose|i: int| 0 <= i < x.len() && (#[trigger] x[i]).0 == key;
        assert(y[i].0 == key);
    }
    if has_key(y, key) {
        let i = choose|i: int| 0 <= i < y.len() && (#[trigger] y[i]).0 == key;
        assert(x[i].0 == y[i].0);
    }
}

/// Masked values do not show in attribute lines: changes that differ in masked
/// values alone have the same lines.
pub proof fn masked_values_do_not_show(c: ChangeView, d: ChangeView)
    requires
        change_alike(c, d),
    ensures
        attr_lines_of(c.actions, c) == attr_lines_of(d.actions, d),
{
    let cb = attributes(c.before);
    let db = attributes(d.before);
    let ca = attributes(c.after);
    let da = attributes(d.after);
    let n = MAX_ATTRS_PER_RESOURCE as nat;
    assert(plain_lines(ca, c.after_sensitive, c.after_unknown) =~= plain_lines(
        da,
        d.after_sensitive,
        d.after_unknown,
    )) by {
        assert forall|i: int| 0 <= i < first(ca, n).len() implies plain_line(
            first(ca, n)[i],
            c.after_sensitive,
            c.after_unknown,
        ) == plain_line(first(da, n)[i], d.after_sensitive, d.after_unknown) by {
            assert(first(ca, n)[i] == ca[i] && first(da, n)[i] == da[i]);
        }
    }
    assert(plain_lines(cb, c.before_sensitive, None) =~= plain_lines(db, d.before_sensitive, None))
        by {
        assert forall|i: int| 0 <= i < first(cb, n).len() implies plain_line(
            first(cb, n)[i],
            c.before_sensitive,
            None,
        ) == plain_line(first(db, n)[i], d.before_sensitive, None) by {
            assert(first(cb, n)[i] == cb[i] && first(db, n)[i] == db[i]);
        }
    }
    assert(diff_lines(c) == diff_lines(d)) by {
        let cf = |m: (Seq<char>, JsonView)| change_line(m, c);
        let df = |m: (Seq<char>, JsonView)| change_line(m, d);
        assert forall|i: int| 0 <= i < ca.len() implies cf(#[trigger] ca[i]) == df(da[i]) by {
            lookup_alike(cb, db, c.before_sensitive, None, ca[i].0);
        }
        texts_agree(ca, da, differs_from(cb), differs_from(db), cf, df);
        let cg = |m: (Seq<char>, JsonView)| removal_line(m, c);
        let dg = |m: (Seq<char>, JsonView)| removal_line(m, d);
        assert forall|i: int| 0 <= i < cb.len() implies missing_in(ca)(#[trigger] cb[i])
            == missing_in(da)(db[i]) && cg(cb[i]) == dg(db[i]) by {
            keys_alike(ca, da, c.after_sensitive, c.after_unknown, cb[i].0);
        }
        texts_agree(cb, db, missing_in(ca), missing_in(da), cg, dg);
    }
}

/// The same texts, one by one, are the same text together.
proof fn concat_agree<A, B>(
    x: Seq<A>,
    y: Seq<B>,
    f: spec_fn(A) -> Seq<char>,
    g: spec_fn(B) -> Seq<char>,
)
    requires
        x.len() == y.len(),
        forall|i: int| 0 <= i < x.len() ==> f(#[trigger] x[i]) == g(y[i]),
    ensures
        concat_all(x.map_values(f)) == concat_all(y.map_values(g)),
{
    assert(x.map_values(f) =~= y.map_values(g));
}

/// How many changes have an action of a kind depends on the actions alone.
proof fn tally_alike(
    x: Seq<ResourceChangeView>,
    y: Seq<ResourceChangeView>,
    kind: spec_fn(Action) -> bool,
)
    requires
        related(x, y, alike()),
    ensures
        tally(x, kind) == tally(y, kind),
{
    let p = |rc: ResourceChangeView| acts(rc, kind);
    let f = |rc: ResourceChangeView| Seq::<char>::empty();
    assert forall|i: int| 0 <= i < x.len() implies p(#[trigger] x[i]) == p(y[i]) by {
        assert(alike()(x[i], y[i]));
    }
    texts_agree(x, y, p, p, f, f);
    assert(x.filter(p).map_values(f).len() == y.filter(p).map_values(f).len());
}

/// Plans that differ in masked values alone have changes that do.
proof fn all_changes_alike(p: PlanView, q: PlanView)
    requires
        plans_alike(p, q),
    ensures
        related(all_changes(p), all_changes(q), alike()),
{
    let r = alike();
    assert forall|i: int| 0 <= i < all_changes(p).len() implies r(
        #[trigger] all_changes(p)[i],
        all_changes(q)[i],
    ) by {
        let n = p.resource_changes.len();
        if i < n {
            assert(r(p.resource_changes[i], q.resource_changes[i]));
        } else {
            assert(r(p.resource_drift[i - n], q.resource_drift[i - n]));
        }
    }
}

/// Masked values do not show in the digest of a plan: plans that differ in
/// masked values alone, grouped, have the same digest, cut to the budget or
/// not.
pub proof fn digests_disclose_no_masked_value(
    p: PlanView,
    q: PlanView,
    show_noops: bool,
    x: Seq<GroupView>,
    y: Seq<GroupView>,
)
    requires
        plans_alike(p, q),
        grouped(all_changes(p), show_noops, x),
        grouped(all_changes(q), show_noops, y),
    ensures
        plan_digest(p, x) == plan_digest(q, y),
        budgeted_digest(p, x) == budgeted_digest(q, y),
{
    let r = alike();
    all_changes_alike(p, q);
    groupings_of_related_changes(all_changes(p), all_changes(q), show_noops, x, y, r);
    tally_alike(p.resource_changes, q.resource_changes, |a: Action| adds(a));
    tally_alike(p.resource_changes, q.resource_changes, |a: Action| a is Update);
    tally_alike(p.resource_changes, q.resource_changes, |a: Action| destroys(a));
    assert(digest_header(p, x) == digest_header(q, y));
    assert forall|i: int| 0 <= i < x.len() implies group_digest(#[trigger] x[i]) == group_digest(
        y[i],
    ) by {
        assert(related(x[i].changes, y[i].changes, r));
        let f = |rc: ResourceChangeView| change_digest(rc);
        assert forall|k: int| 0 <= k < x[i].changes.len() implies f(#[trigger] x[i].changes[k])
            == f(y[i].changes[k]) by {
            assert(r(x[i].changes[k], y[i].changes[k]));
            masked_values_do_not_show(x[i].changes[k].change, y[i].changes[k].change);
        }
        concat_agree(x[i].changes, y[i].changes, f, f);
    }
    concat_agree(x, y, |g: GroupView| group_digest(g), |g: GroupView| group_digest(g));
    assert forall|i: int| 0 <= i < x.len() implies (|g: GroupView|
        group_label(g) + "\n"@)(#[trigger] x[i]) == (|g: GroupView|
        group_label(g) + "\n"@)(y[i]) by {
        assert(related(x[i].changes, y[i].changes, r));
    }
    concat_agree(
        x,
        y,
        |g: GroupView| group_label(g) + "\n"@,
        |g: GroupView| group_label(g) + "\n"@,
    );
}

/// Masked values do not show in the tree either: plans that differ in masked
/// values alone, grouped, have the same rows, whatever is expanded.
pub proof fn trees_disclose_no_masked_value(
    p: PlanView,
    q: PlanView,
    show_noops: bool,
    x: Seq<GroupView>,
    y: Seq<GroupView>,
    expanded_groups: Set<usize>,
    expanded_resources: Set<(usize, usize)>,
)
    requires
        plans_alike(p, q),
        grouped(all_changes(p), show_noops, x),
        grouped(all_changes(q), show_noops, y),
    ensures
        tree_rows(x, expanded_groups, expanded_resources) == tree_rows(
            y,
            expanded_groups,
            expanded_resources,
        ),
{
    let r = alike();
    all_changes_alike(p, q);
    groupings_of_related_changes(all_changes(p), all_changes(q), show_noops, x, y, r);
    assert forall|gi: int| 0 <= gi < x.len() implies group_rows(
        gi,
        #[trigger] x[gi],
        expanded_groups,
        expanded_resources,
    ) == group_rows(gi, y[gi], expanded_groups, expanded_resources) by {
        let g = x[gi];
        let h = y[gi];
        assert(related(g.changes, h.changes, r));
        assert forall|ri: int| 0 <= ri < g.changes.len() implies resource_rows(
            gi,
            ri,
            g.action,
            #[trigger] g.changes[ri],
            expanded_resources,
        ) == resource_rows(gi, ri, h.action, h.changes[ri], expanded_resources) by {
            assert(r(g.changes[ri], h.changes[ri]));
            masked_values_do_not_show(g.changes[ri].change, h.changes[ri].change);
        }
        assert(member_rows(gi, g, expanded_resources) =~= member_rows(gi, h, expanded_resources));
    }
    assert(rows_by_group(x, expanded_groups, expanded_resources) =~= rows_by_group(
        y,
        expanded_groups,
        expanded_resources,
    ));
}

} // verus!
