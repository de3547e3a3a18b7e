//! Synthetic plans for load testing.
//!
//! Resources cycle through ten types. A tenth of them is replaced, the others
//! are created; a fifth has a sensitive attribute. Good enough to exercise the
//! group-counts fallback and mask paths without hitting a real cloud.

use vstd::prelude::*;

use crate::digest::{attributes, hidden};
use crate::json::{
    has_key, lookup, member_views, members_are_found, object_view, Json, JsonView,
};
use crate::plan::{
    action_of, Action, Change, ChangeView, Plan, ResourceChange, ResourceChangeView,
};
use crate::text::{
    concat2, decimal, decimal_text, decimals_read_back, has_prefix, number_written,
    prefixes_come_first, texts,
};

verus! {

/// How many resources there are where no number is given.
pub const DEFAULT_COUNT: usize = 800;

/// The type of the resource with a number.
pub open spec fn fixture_type(i: nat) -> Seq<char> {
    seq![
        "aws_dynamodb_table"@,
        "aws_s3_bucket"@,
        "aws_iam_role"@,
        "aws_lambda_function"@,
        "aws_security_group"@,
        "aws_rds_cluster"@,
        "aws_instance"@,
        "aws_cloudwatch_log_group"@,
        "aws_sqs_queue"@,
        "aws_kms_key"@,
    ][(i % 10) as int]
}

/// An object of two string attributes.
pub open spec fn two_strings(
    first: Seq<char>,
    first_text: Seq<char>,
    second: Seq<char>,
    second_text: Seq<char>,
) -> JsonView {
    JsonView::Object(
        seq![(first, JsonView::Str(first_text)), (second, JsonView::Str(second_text))],
    )
}

/// An object without attributes.
pub open spec fn no_members() -> JsonView {
    JsonView::Object(Seq::empty())
}

/// An object that flags one attribute.
pub open spec fn one_flag(key: Seq<char>) -> JsonView {
    JsonView::Object(seq![(key, JsonView::Bool(true))])
}

/// What happens to the resource with a number.
pub open spec fn fixture_body(i: nat) -> ChangeView {
    let name = "res-"@ + decimal(i);
    if i % 10 == 0 {
        ChangeView {
            actions: seq!["delete"@, "create"@],
            before: Some(two_strings("id"@, "old-"@ + decimal(i), "name"@, name)),
            after: Some(two_strings("id"@, "new-"@ + decimal(i), "name"@, name)),
            after_unknown: None,
            before_sensitive: Some(one_flag("id"@)),
            after_sensitive: Some(one_flag("id"@)),
        }
    } else if i % 5 == 0 {
        ChangeView {
            actions: seq!["create"@],
            before: Some(JsonView::Null),
            after: Some(two_strings("name"@, name, "password"@, "redacted"@)),
            after_unknown: None,
            before_sensitive: Some(no_members()),
            after_sensitive: Some(one_flag("password"@)),
        }
    } else {
        ChangeView {
            actions: seq!["create"@],
            before: Some(JsonView::Null),
            after: Some(two_strings("name"@, name, "tier"@, "standard"@)),
            after_unknown: None,
            before_sensitive: Some(no_members()),
            after_sensitive: Some(no_members()),
        }
    }
}

/// The resource with a number.
pub open spec fn fixture_change(i: nat) -> ResourceChangeView {
    ResourceChangeView {
        address: fixture_type(i) + ".r"@ + decimal(i),
        resource_type: fixture_type(i),
        change: fixture_body(i),
        name: None,
        provider_name: None,
        module_address: None,
    }
}

/// The type of the resource with a number.
fn resource_type(i: usize) -> (r: &'static str)
    ensures
        r@ == fixture_type(i as nat),
{
    match i % 10 {
        0 => "aws_dynamodb_table",
        1 => "aws_s3_bucket",
        2 => "aws_iam_role",
        3 => "aws_lambda_function",
        4 => "aws_security_group",
        5 => "aws_rds_cluster",
        6 => "aws_instance",
        7 => "aws_cloudwatch_log_group",
        8 => "aws_sqs_queue",
        _ => "aws_kms_key",
    }
}

/// A text followed by a number.
fn numbered(prefix: &str, i: usize) -> (r: String)
    ensures
        r@ == prefix@ + decimal(i as nat),
{
    concat2(prefix, decimal_text(i as u128).as_str())
}

fn string_pair(first: &str, first_text: String, second: &str, second_text: String) -> (r: Json)
    ensures
        r@ == two_strings(first@, first_text@, second@, second_text@),
{
    let mut members: Vec<(String, Json)> = Vec::new();
    members.push((first.to_owned(), Json::Str(first_text)));
    members.push((second.to_owned(), Json::Str(second_text)));
    proof {
        object_view(members);
        assert(member_views(members@) =~= seq![
            (first@, JsonView::Str(first_text@)),
            (second@, JsonView::Str(second_text@)),
        ]);
    }
    Json::Object(members)
}

fn empty_object() -> (r: Json)
    ensures
        r@ == no_members(),
{
    let members: Vec<(String, Json)> = Vec::new();
    proof {
        object_view(members);
        assert(member_views(members@) =~= Seq::empty());
    }
    Json::Object(members)
}

fn flagged(key: &str) -> (r: Json)
    ensures
        r@ == one_flag(key@),
{
    let mut members: Vec<(String, Json)> = Vec::new();
    members.push((key.to_owned(), Json::Bool(true)));
    proof {
        object_view(members);
        assert(member_views(members@) =~= seq![(key@, JsonView::Bool(true))]);
    }
    Json::Object(members)
}

/// What happens to the resource with a number.
fn change_body(i: usize) -> (r: Change)
    ensures
        r@ == fixture_body(i as nat),
{
    let name = numbered("res-", i);
    let mut actions: Vec<String> = Vec::new();
    if i % 10 == 0 {
        actions.push("delete".to_owned());
        actions.push("create".to_owned());
        assert(texts(actions@) =~= seq!["delete"@, "create"@]);
        Change {
            actions,
            before: Some(string_pair("id", numbered("old-", i), "name", name.clone())),
            after: Some(string_pair("id", numbered("new-", i), "name", name)),
            after_unknown: None,
            before_sensitive: Some(flagged("id")),
            after_sensitive: Some(flagged("id")),
        }
    } else {
        actions.push("create".to_owned());
        assert(texts(actions@) =~= seq!["create"@]);
        let sensitive = i % 5 == 0;
        let after = if sensitive {
            string_pair("name", name, "password", "redacted".to_owned())
        } else {
            string_pair("name", name, "tier", "standard".to_owned())
        };
        let after_sensitive = if sensitive {
            flagged("password")
        } else {
            empty_object()
        };
        Change {
            actions,
            before: Some(Json::Null),
            after: Some(after),
            after_unknown: None,
            before_sensitive: Some(empty_object()),
            after_sensitive: Some(after_sensitive),
        }
    }
}

/// A plan that touches `count` resources.
pub fn mega_plan(count: usize) -> (r: Plan)
    ensures
        r@.format_version == "1.2"@,
        r@.resource_changes == Seq::new(count as nat, |i: int| fixture_change(i as nat)),
        r@.resource_drift == Seq::<ResourceChangeView>::empty(),
{
    let mut changes: Vec<ResourceChange> = Vec::new();
    let mut i: usize = 0;
    while i < count
        invariant
            i <= count,
            changes@.len() == i,
            forall|k: int| 0 <= k < i ==> (#[trigger] changes@[k])@ == fixture_change(k as nat),
        decreases count - i,
    {
        let kind = resource_type(i);
        let mut address = concat2(kind, ".r");
        address.append(decimal_text(i as u128).as_str());
        changes.push(
            ResourceChange {
                address,
                resource_type: kind.to_owned(),
                change: change_body(i),
                name: None,
                provider_name: None,
                module_address: None,
            },
        );
        i += 1;
    }
    let plan = Plan {
        format_version: "1.2".to_owned(),
        resource_changes: changes,
        resource_drift: Vec::new(),
    };
    assert(plan@.resource_changes =~= Seq::new(
        count as nat,
        |i: int| fixture_change(i as nat),
    ));
    assert(plan@.resource_drift =~= Seq::empty());
    plan
}

/// The attribute that is flagged in every fifth resource.
pub open spec fn masked_attribute(i: nat) -> Seq<char> {
    if i % 10 == 0 {
        "id"@
    } else {
        "password"@
    }
}

/// Every tenth resource is replaced, and every other is created; every fifth
/// has an attribute that is masked, on both sides where it is replaced.
pub proof fn fixtures_exercise_the_mask(i: nat)
    ensures
        action_of(fixture_change(i).change.actions) == Some(
            if i % 10 == 0 {
                Action::Replace
            } else {
                Action::Create
            },
        ),
        i % 5 == 0 ==> has_key(
            attributes(fixture_change(i).change.after),
            masked_attribute(i),
        ) && hidden(masked_attribute(i), fixture_change(i).change.after_sensitive, None),
        i % 10 == 0 ==> has_key(
            attributes(fixture_change(i).change.before),
            masked_attribute(i),
        ) && hidden(masked_attribute(i), fixture_change(i).change.before_sensitive, None),
{
    let words = fixture_change(i).change.actions;
    if i % 10 == 0 {
        assert(words.len() == 2);
        assert(seq!["create"@].len() == 1);
        assert(seq!["update"@].len() == 1);
        assert(seq!["delete"@].len() == 1);
    }
    if i % 5 == 0 {
        let change = fixture_change(i).change;
        let key = masked_attribute(i);
        let flags = seq![(key, JsonView::Bool(true))];
        assert(change.after_sensitive == Some(JsonView::Object(flags)));
        assert(flags[0].0 == key);
        let at: int = if i % 10 == 0 {
            0
        } else {
            1
        };
        assert(attributes(change.after)[at].0 == key);
        if i % 10 == 0 {
            assert(change.before_sensitive == Some(JsonView::Object(flags)));
            assert(attributes(change.before)[0].0 == key);
        }
    }
}

/// Resources cycle through ten types: those with numbers that differ by a
/// multiple of ten have one type.
pub proof fn fixture_types_recur(i: nat, times: nat)
    ensures
        fixture_type(i + 10 * times) == fixture_type(i),
{
    assert((i + 10 * times) % 10 == i % 10) by (nonlinear_arith);
}

/// Every resource is named after its number: its address is its type, a dot and
/// `r` with the number, and its attribute `name` ends in the number as well.
pub proof fn fixtures_are_numbered(i: nat)
    ensures
        ({
            let rc = fixture_change(i);
            let n = rc.resource_type.len() as int;
            let name = lookup(attributes(rc.change.after), "name"@);
            &&& rc.resource_type == fixture_type(i)
            &&& has_prefix(rc.address, rc.resource_type + ".r"@)
            &&& number_written(rc.address.skip(n + 2)) == Some(i)
            &&& name matches JsonView::Str(t) && has_prefix(t, "res-"@) && number_written(t.skip(4))
                == Some(i)
        }),
{
    reveal_strlit(".r");
    reveal_strlit("res-");
    reveal_strlit("id");
    reveal_strlit("name");
    let rc = fixture_change(i);
    let kind = fixture_type(i);
    let front = kind + ".r"@;
    decimals_read_back(i);
    prefixes_come_first(front, front, decimal(i));
    assert(rc.address.skip(kind.len() as int + 2) =~= decimal(i));
    let t = "res-"@ + decimal(i);
    prefixes_come_first(t, "res-"@, decimal(i));
    assert(t.skip(4) =~= decimal(i));
    let members = attributes(rc.change.after);
    assert("id"@.len() == 2 && "name"@.len() == 4);
    if i % 10 == 0 {
        assert(members[0].0 == "id"@ && members[1].0 == "name"@);
        members_are_found(members, 1, "name"@);
        assert(members[1].1 == JsonView::Str(t));
    } else {
        assert(members[0].0 == "name"@);
        members_are_found(members, 0, "name"@);
    }
}

/// A replaced resource gets another `id` and keeps its `name`; a created one
/// was not there before.
pub proof fn fixtures_differ_where_they_should(i: nat)
    ensures
        ({
            let c = fixture_change(i).change;
            let before = attributes(c.before);
            let after = attributes(c.after);
            &&& after.len() == 2
            &&& i % 10 == 0 ==> {
                &&& before.len() == 2
                &&& before[0].0 == "id"@ && after[0].0 == "id"@ && before[0].1 != after[0].1
                &&& before[1] == after[1]
            }
            &&& i % 10 != 0 ==> c.before == Some(JsonView::Null)
            &&& c.after_unknown is None
        }),
{
    reveal_strlit("old-");
    reveal_strlit("new-");
    let old = "old-"@ + decimal(i);
    let new = "new-"@ + decimal(i);
    assert(old[0] == 'o' && new[0] == 'n');
}

} // verus!
