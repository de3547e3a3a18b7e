//! Pre-digest the plan to compact text for the LLM prompt.
//!
//! Strategy:
//! - For plans with < [`FULL_DIGEST_LIMIT`] resources: one line per resource change,
//!   with up to [`MAX_ATTRS_PER_RESOURCE`] changed/notable attributes.
//! - For bigger plans: summary-of-summaries — just group counts, no individual resources.
//!
//! Sensitive values (anything flagged via `before_sensitive`/`after_sensitive` or
//! `after_unknown`) are replaced with `<sensitive>` before the line is emitted.
//! Sensitive data MUST NEVER be sent to an external LLM.

use vstd::prelude::*;

use crate::groups::{group_label, group_views, Group, GroupView};
use crate::json::{
    equality_separates_what_differs, find, has_key, json_eq, lookup, member_views, members_are_found,
    members_of, object_view, without_float_zeros, Json, JsonView,
};
use crate::plan::{
    action_of, change_views, glyph_of, json_opt, plan_footer, Action, Change, ChangeView, Plan,
    PlanView, ResourceChangeView,
};
use crate::sequences::{filter_agree, filter_take, first};
use crate::text::{
    byte_count, byte_cut, byte_len, concat_all, concatenation_adds_up, cut_bytes,
    cut_is_a_beginning, cut_is_as_long_as_it_may_be, decimal, decimal_text, decimals_read_back,
    has_prefix, join, joined, joining_separates_neighbours, number_written, prefixes_come_first,
    same, splits_at, texts,
};

verus! {

pub const FULL_DIGEST_LIMIT: usize = 500;

pub const MAX_ATTRS_PER_RESOURCE: usize = 5;

pub const MAX_DIGEST_TOKENS: usize = 4000;

// ---------------------------------------------------------------------------
// What is masked
// ---------------------------------------------------------------------------

/// Whether `key` is flagged in a sensitive-values document: a flag of `true`
/// or an object of flags at the key. A bare `true` flags the key `*`.
pub open spec fn sensitive_flag(flags: Option<JsonView>, key: Seq<char>) -> bool {
    match flags {
        Some(JsonView::Object(members)) => exists|i: int|
            0 <= i < members.len() && (#[trigger] members[i]).0 == key && (members[i].1
                == JsonView::Bool(true) || members[i].1 is Object),
        Some(JsonView::Bool(true)) => key == "*"@,
        _ => false,
    }
}

/// Whether `key` is flagged in an unknown-values document: a flag of `true`, or
/// an object or a list of flags at the key. A bare `true` flags every key.
pub open spec fn unknown_flag(flags: Option<JsonView>, key: Seq<char>) -> bool {
    match flags {
        Some(JsonView::Object(members)) => exists|i: int|
            0 <= i < members.len() && (#[trigger] members[i]).0 == key && (members[i].1
                == JsonView::Bool(true) || members[i].1 is Object || members[i].1 is Array),
        Some(JsonView::Bool(true)) => true,
        _ => false,
    }
}

/// Whether the value of the attribute `key` must not be shown: it, or every
/// attribute (`*`), is flagged sensitive, or it is flagged unknown.
pub open spec fn hidden(
    key: Seq<char>,
    sensitive: Option<JsonView>,
    unknown: Option<JsonView>,
) -> bool {
    sensitive_flag(sensitive, key) || sensitive_flag(sensitive, "*"@) || unknown_flag(unknown, key)
}

/// Collect attribute names flagged in a sensitive-values object.
pub fn sensitive_key_set(v: &Option<Json>) -> (r: Vec<String>)
    ensures
        forall|key: Seq<char>| #[trigger]
            texts(r@).contains(key) <==> sensitive_flag(json_opt(*v), key),
{
    let mut out: Vec<String> = Vec::new();
    match v {
        Some(Json::Object(members)) => {
            let ghost views = member_views(members@);
            proof {
                object_view(*members);
            }
            let mut i: usize = 0;
            while i < members.len()
                invariant
                    i <= members@.len(),
                    views == member_views(members@),
                    forall|key: Seq<char>| #[trigger]
                        texts(out@).contains(key) <==> sensitive_flag(
                            Some(JsonView::Object(views.take(i as int))),
                            key,
                        ),
                decreases members@.len() - i,
            {
                let ghost before = out@;
                let ghost front = views.take(i as int);
                let ghost next = views.take(i + 1);
                let flagged = match &members[i].1 {
                    Json::Bool(b) => *b,
                    Json::Object(_) => true,
                    _ => false,
                };
                if flagged {
                    out.push(members[i].0.clone());
                }
                proof {
                    assert(views[i as int] == (members@[i as int].0@, members@[i as int].1@));
                    assert(next =~= front.push(views[i as int]));
                    assert forall|key: Seq<char>| #[trigger]
                        texts(out@).contains(key) <==> sensitive_flag(
                            Some(JsonView::Object(next)),
                            key,
                        ) by {
                        flag_step(front, views[i as int], key);
                        if flagged {
                            contains_push(texts(before), members@[i as int].0@, key);
                            assert(texts(out@) =~= texts(before).push(members@[i as int].0@));
                        }
                    }
                }
                i += 1;
            }
            assert(views.take(i as int) =~= views);
        },
        Some(Json::Bool(true)) => {
            out.push("*".to_owned());
            proof {
                only_star(out@);
            }
        },
        _ => {},
    }
    out
}

proof fn contains_push(s: Seq<Seq<char>>, x: Seq<char>, key: Seq<char>)
    ensures
        s.push(x).contains(key) <==> s.contains(key) || x == key,
{
    if s.contains(key) {
        let i = choose|i: int| 0 <= i < s.len() && s[i] == key;
        assert(s.push(x)[i] == key);
    }
    if x == key {
        assert(s.push(x)[s.len() as int] == key);
    }
}

proof fn only_star(names: Seq<String>)
    requires
        names.len() == 1,
        names[0]@ == "*"@,
    ensures
        forall|key: Seq<char>| #[trigger] texts(names).contains(key) <==> key == "*"@,
{
    assert(texts(names)[0] == "*"@);
}

/// Whether this member's value flags its key as sensitive.
spec fn flags(m: (Seq<char>, JsonView)) -> bool {
    m.1 == JsonView::Bool(true) || m.1 is Object
}

proof fn flag_step(front: Seq<(Seq<char>, JsonView)>, m: (Seq<char>, JsonView), key: Seq<char>)
    ensures
        sensitive_flag(Some(JsonView::Object(front.push(m))), key) <==> sensitive_flag(
            Some(JsonView::Object(front)),
            key,
        ) || (m.0 == key && flags(m)),
{
    let next = front.push(m);
    if sensitive_flag(Some(JsonView::Object(front)), key) {
        let i = choose|i: int|
            0 <= i < front.len() && (#[trigger] front[i]).0 == key && flags(front[i]);
        assert(next[i] == front[i]);
    }
    if m.0 == key && flags(m) {
        assert(next[front.len() as int] == m);
    }
}

/// Whether this member's value flags its key as unknown.
spec fn flags_unknown(m: (Seq<char>, JsonView)) -> bool {
    m.1 == JsonView::Bool(true) || m.1 is Object || m.1 is Array
}

proof fn unknown_step(front: Seq<(Seq<char>, JsonView)>, m: (Seq<char>, JsonView), key: Seq<char>)
    ensures
        unknown_flag(Some(JsonView::Object(front.push(m))), key) <==> unknown_flag(
            Some(JsonView::Object(front)),
            key,
        ) || (m.0 == key && flags_unknown(m)),
{
    let next = front.push(m);
    if unknown_flag(Some(JsonView::Object(front)), key) {
        let i = choose|i: int|
            0 <= i < front.len() && (#[trigger] front[i]).0 == key && flags_unknown(front[i]);
        assert(next[i] == front[i]);
    }
    if m.0 == key && flags_unknown(m) {
        assert(next[front.len() as int] == m);
    }
}

/// The attributes that are unknown: all of them, or those that are named.
pub struct UnknownKeys {
    pub all: bool,
    pub names: Vec<String>,
}

impl UnknownKeys {
    /// Whether the attribute `key` is unknown.
    pub open spec fn holds(self, key: Seq<char>) -> bool {
        self.all || texts(self.names@).contains(key)
    }

    /// No attribute.
    pub fn none() -> (r: UnknownKeys)
        ensures
            forall|key: Seq<char>| !#[trigger] r.holds(key),
    {
        let names: Vec<String> = Vec::new();
        assert(texts(names@) =~= Seq::<Seq<char>>::empty());
        UnknownKeys { all: false, names }
    }

    /// Whether the attribute `key` is unknown.
    pub fn contains(&self, key: &str) -> (r: bool)
        ensures
            r == self.holds(key@),
    {
        self.all || contains_text(&self.names, key)
    }
}

/// Collect attribute names flagged unknown in `after_unknown`.
pub fn unknown_key_set(v: &Option<Json>) -> (r: UnknownKeys)
    ensures
        forall|key: Seq<char>| #[trigger] r.holds(key) <==> unknown_flag(json_opt(*v), key),
{
    let mut all = false;
    let mut out: Vec<String> = Vec::new();
    match v {
        Some(Json::Object(members)) => {
            let ghost views = member_views(members@);
            proof {
                object_view(*members);
            }
            let mut i: usize = 0;
            while i < members.len()
                invariant
                    i <= members@.len(),
                    views == member_views(members@),
                    forall|key: Seq<char>| #[trigger]
                        texts(out@).contains(key) <==> unknown_flag(
                            Some(JsonView::Object(views.take(i as int))),
                            key,
                        ),
                decreases members@.len() - i,
            {
                let ghost before = out@;
                let ghost front = views.take(i as int);
                let ghost next = views.take(i + 1);
                let flagged = match &members[i].1 {
                    Json::Bool(b) => *b,
                    Json::Object(_) | Json::Array(_) => true,
                    _ => false,
                };
                if flagged {
                    out.push(members[i].0.clone());
                }
                proof {
                    let m = views[i as int];
                    assert(m == (members@[i as int].0@, members@[i as int].1@));
                    assert(next =~= front.push(m));
                    assert forall|key: Seq<char>| #[trigger]
                        texts(out@).contains(key) <==> unknown_flag(
                            Some(JsonView::Object(next)),
                            key,
                        ) by {
                        unknown_step(front, m, key);
                        if flagged {
                            contains_push(texts(before), m.0, key);
                            assert(texts(out@) =~= texts(before).push(m.0));
                        }
                    }
                }
                i += 1;
            }
            assert(views.take(i as int) =~= views);
        },
        Some(Json::Bool(true)) => {
            all = true;
        },
        _ => {},
    }
    UnknownKeys { all, names: out }
}

/// Whether `key` is among `names`.
fn contains_text(names: &Vec<String>, key: &str) -> (r: bool)
    ensures
        r == texts(names@).contains(key@),
{
    let mut i: usize = 0;
    while i < names.len()
        invariant
            i <= names@.len(),
            forall|k: int| 0 <= k < i ==> (#[trigger] texts(names@)[k]) != key@,
        decreases names@.len() - i,
    {
        assert(texts(names@)[i as int] == names@[i as int]@);
        if same(names[i].as_str(), key) {
            return true;
        }
        i += 1;
    }
    false
}

// ---------------------------------------------------------------------------
// Values
// ---------------------------------------------------------------------------

/// Longest string, in bytes, that is shown whole.
pub const LONGEST_WHOLE_STRING: usize = 40;

/// How many bytes of a longer string are shown, at most.
pub const SHOWN_PREFIX: usize = 37;

/// A JSON value as a compact text.
pub open spec fn rendered(v: JsonView) -> Seq<char> {
    match v {
        JsonView::Null => "null"@,
        JsonView::Bool(b) => if b {
            "true"@
        } else {
            "false"@
        },
        JsonView::Number(t) => t,
        JsonView::Str(s) => if byte_len(s) > LONGEST_WHOLE_STRING {
            "\""@ + byte_cut(s, SHOWN_PREFIX as nat) + "...\""@
        } else {
            "\""@ + s + "\""@
        },
        JsonView::Array(items) => "["@ + decimal(items.len()) + " items]"@,
        JsonView::Object(members) => "{"@ + decimal(members.len()) + " keys}"@,
    }
}

/// Render a JSON value as a compact string, truncating long strings.
pub fn render_value(v: &Json) -> (r: String)
    ensures
        r@ == rendered(v@),
{
    match v {
        Json::Null => "null".to_owned(),
        Json::Bool(b) => if *b {
            "true".to_owned()
        } else {
            "false".to_owned()
        },
        Json::Number(t) => t.clone(),
        Json::Str(s) => {
            let mut out = "\"".to_owned();
            if byte_count(s.as_str()) > LONGEST_WHOLE_STRING {
                out.append(cut_bytes(s.as_str(), SHOWN_PREFIX));
                out.append("...\"");
            } else {
                out.append(s.as_str());
                out.append("\"");
            }
            out
        },
        Json::Array(items) => {
            let mut out = "[".to_owned();
            out.append(decimal_text(items.len() as u128).as_str());
            out.append(" items]");
            out
        },
        Json::Object(members) => {
            proof {
                object_view(*members);
            }
            let mut out = "{".to_owned();
            out.append(decimal_text(members.len() as u128).as_str());
            out.append(" keys}");
            out
        },
    }
}

/// The text of an attribute's value, masked where it must not be shown.
pub open spec fn masked(
    key: Seq<char>,
    v: JsonView,
    sensitive: Option<JsonView>,
    unknown: Option<JsonView>,
) -> Seq<char> {
    if hidden(key, sensitive, unknown) {
        "<sensitive>"@
    } else {
        rendered(v)
    }
}

/// Whether what was collected from two flag documents hides `key`.
pub open spec fn names_hide(key: Seq<char>, sensitive: Seq<Seq<char>>, unknown: UnknownKeys) -> bool {
    sensitive.contains(key) || sensitive.contains("*"@) || unknown.holds(key)
}

/// The text of an attribute's value: the placeholder where what was collected
/// hides it, else the value rendered.
pub fn masked_value(key: &str, v: &Json, sensitive: &Vec<String>, unknown: &UnknownKeys) -> (r:
    String)
    ensures
        r@ == (if names_hide(key@, texts(sensitive@), *unknown) {
            "<sensitive>"@
        } else {
            rendered(v@)
        }),
{
    if contains_text(sensitive, key) || contains_text(sensitive, "*") || unknown.contains(key) {
        return "<sensitive>".to_owned();
    }
    render_value(v)
}

// ---------------------------------------------------------------------------
// Attribute lines
// ---------------------------------------------------------------------------

/// `{key}={value}`.
pub open spec fn plain_line(
    m: (Seq<char>, JsonView),
    sensitive: Option<JsonView>,
    unknown: Option<JsonView>,
) -> Seq<char> {
    m.0 + "="@ + masked(m.0, m.1, sensitive, unknown)
}

/// The lines of an object's first attributes.
pub open spec fn plain_lines(
    members: Seq<(Seq<char>, JsonView)>,
    sensitive: Option<JsonView>,
    unknown: Option<JsonView>,
) -> Seq<Seq<char>> {
    first(members, MAX_ATTRS_PER_RESOURCE as nat).map_values(
        |m: (Seq<char>, JsonView)| plain_line(m, sensitive, unknown),
    )
}

/// The attributes of an object; none where the value is no object.
pub open spec fn attributes(v: Option<JsonView>) -> Seq<(Seq<char>, JsonView)> {
    match members_of(v) {
        Some(members) => members,
        None => Seq::empty(),
    }
}

/// The attributes whose value differs from the one before.
pub open spec fn differs_from(before: Seq<(Seq<char>, JsonView)>) -> spec_fn(
    (Seq<char>, JsonView),
) -> bool {
    |m: (Seq<char>, JsonView)| !json_eq(lookup(before, m.0), m.1)
}

/// The attributes that are no longer there.
pub open spec fn missing_in(after: Seq<(Seq<char>, JsonView)>) -> spec_fn(
    (Seq<char>, JsonView),
) -> bool {
    |m: (Seq<char>, JsonView)| !has_key(after, m.0)
}

/// `{key}: {old} -> {new}`.
pub open spec fn change_line(m: (Seq<char>, JsonView), c: ChangeView) -> Seq<char> {
    m.0 + ": "@ + masked(m.0, lookup(attributes(c.before), m.0), c.before_sensitive, None) + " -> "@
        + masked(m.0, m.1, c.after_sensitive, c.after_unknown)
}

/// `{key}: {old} -> (removed)`.
pub open spec fn removal_line(m: (Seq<char>, JsonView), c: ChangeView) -> Seq<char> {
    m.0 + ": "@ + masked(m.0, m.1, c.before_sensitive, None) + " -> (removed)"@
}

/// All lines of an update: what changed or came, then what went.
pub open spec fn diff_lines(c: ChangeView) -> Seq<Seq<char>> {
    let before = attributes(c.before);
    let after = attributes(c.after);
    after.filter(differs_from(before)).map_values(|m: (Seq<char>, JsonView)| change_line(m, c))
        + before.filter(missing_in(after)).map_values(
        |m: (Seq<char>, JsonView)| removal_line(m, c),
    )
}

/// The attribute lines of a change with these action words.
pub open spec fn attr_lines_of(words: Seq<Seq<char>>, c: ChangeView) -> Seq<Seq<char>> {
    match action_of(words) {
        None => seq!["(unknown action)"@],
        Some(Action::Create) => plain_lines(
            attributes(c.after),
            c.after_sensitive,
            c.after_unknown,
        ),
        Some(Action::Delete) => plain_lines(attributes(c.before), c.before_sensitive, None),
        Some(Action::Update) | Some(Action::Replace) => first(
            diff_lines(c),
            MAX_ATTRS_PER_RESOURCE as nat,
        ),
        Some(Action::Read) | Some(Action::NoOp) => Seq::empty(),
    }
}

/// The members of an object.
fn object_of(v: &Option<Json>) -> (r: Option<&Vec<(String, Json)>>)
    ensures
        match r {
            Some(members) => members_of(json_opt(*v)) == Some(member_views(members@)),
            None => members_of(json_opt(*v)) is None,
        },
{
    match v {
        Some(Json::Object(members)) => {
            proof {
                object_view(*members);
            }
            Some(members)
        },
        _ => None,
    }
}

/// The `{key}={value}` lines of an object's first attributes.
fn list_attributes(
    members: &Vec<(String, Json)>,
    sensitive: &Vec<String>,
    unknown: &UnknownKeys,
    Ghost(sensitive_flags): Ghost<Option<JsonView>>,
    Ghost(unknown_flags): Ghost<Option<JsonView>>,
) -> (r: Vec<String>)
    requires
        forall|key: Seq<char>| #[trigger]
            texts(sensitive@).contains(key) <==> sensitive_flag(sensitive_flags, key),
        forall|key: Seq<char>| #[trigger] unknown.holds(key) <==> unknown_flag(unknown_flags, key),
    ensures
        texts(r@) == plain_lines(member_views(members@), sensitive_flags, unknown_flags),
{
    let ghost views = member_views(members@);
    let mut out: Vec<String> = Vec::new();
    let mut i: usize = 0;
    while i < members.len() && i < MAX_ATTRS_PER_RESOURCE
        invariant
            i <= members@.len(),
            i <= MAX_ATTRS_PER_RESOURCE,
            views == member_views(members@),
            forall|key: Seq<char>| #[trigger]
                texts(sensitive@).contains(key) <==> sensitive_flag(sensitive_flags, key),
            forall|key: Seq<char>| #[trigger]
                unknown.holds(key) <==> unknown_flag(unknown_flags, key),
            out@.len() == i,
            forall|k: int|
                0 <= k < i ==> (#[trigger] out@[k])@ == plain_line(
                    views[k],
                    sensitive_flags,
                    unknown_flags,
                ),
        decreases members@.len() - i,
    {
        assert(views[i as int] == (members@[i as int].0@, members@[i as int].1@));
        let mut line = members[i].0.clone();
        line.append("=");
        line.append(
            masked_value(members[i].0.as_str(), &members[i].1, sensitive, unknown).as_str(),
        );
        out.push(line);
        i += 1;
    }
    assert(texts(out@) =~= plain_lines(views, sensitive_flags, unknown_flags));
    out
}

/// At most the first [`MAX_ATTRS_PER_RESOURCE`] lines.
fn cut_lines(lines: Vec<String>) -> (r: Vec<String>)
    ensures
        texts(r@) == first(texts(lines@), MAX_ATTRS_PER_RESOURCE as nat),
{
    let mut out = lines;
    out.truncate(MAX_ATTRS_PER_RESOURCE);
    assert(texts(out@) =~= first(texts(lines@), MAX_ATTRS_PER_RESOURCE as nat));
    out
}

/// All lines of an update.
fn list_differences(change: &Change) -> (r: Vec<String>)
    ensures
        texts(r@) == diff_lines(change@),
{
    let ghost c = change@;
    let ghost before = attributes(c.before);
    let ghost after = attributes(c.after);
    let ghost old_line = |m: (Seq<char>, JsonView)| removal_line(m, c);
    let ghost new_line = |m: (Seq<char>, JsonView)| change_line(m, c);
    let none: Vec<(String, Json)> = Vec::new();
    let no_names = UnknownKeys::none();
    assert(member_views(none@) =~= Seq::<(Seq<char>, JsonView)>::empty());
    let b = match object_of(&change.before) {
        Some(members) => members,
        None => &none,
    };
    let a = match object_of(&change.after) {
        Some(members) => members,
        None => &none,
    };
    let null = Json::Null;
    let sensitive_before = sensitive_key_set(&change.before_sensitive);
    let sensitive_after = sensitive_key_set(&change.after_sensitive);
    let unknown_after = unknown_key_set(&change.after_unknown);
    let mut out: Vec<String> = Vec::new();
    let mut i: usize = 0;
    assert(after.take(0).filter(differs_from(before)) =~= Seq::empty()) by {
        reveal(Seq::filter);
    }
    assert(texts(out@) =~= after.take(0).filter(differs_from(before)).map_values(new_line));
    while i < a.len()
        invariant
            i <= a@.len(),
            c == change@,
            before == attributes(c.before),
            after == attributes(c.after),
            before == member_views(b@),
            after == member_views(a@),
            null@ == JsonView::Null,
            new_line == |m: (Seq<char>, JsonView)| change_line(m, c),
            forall|key: Seq<char>| !#[trigger] no_names.holds(key),
            forall|key: Seq<char>| #[trigger]
                texts(sensitive_before@).contains(key) <==> sensitive_flag(c.before_sensitive, key),
            forall|key: Seq<char>| #[trigger]
                texts(sensitive_after@).contains(key) <==> sensitive_flag(c.after_sensitive, key),
            forall|key: Seq<char>| #[trigger]
                unknown_after.holds(key) <==> unknown_flag(c.after_unknown, key),
            texts(out@) == after.take(i as int).filter(differs_from(before)).map_values(new_line),
        decreases a@.len() - i,
    {
        let ghost m = after[i as int];
        let ghost sofar = after.take(i as int).filter(differs_from(before));
        let ghost written = texts(out@);
        assert(m == (a@[i as int].0@, a@[i as int].1@));
        proof {
            filter_take(after, i as int, differs_from(before));
        }
        let key = a[i].0.as_str();
        let bv = match find(b, key) {
            Some(v) => v,
            None => &null,
        };
        if !bv.equals(&a[i].1) {
            let mut line = a[i].0.clone();
            line.append(": ");
            line.append(masked_value(key, bv, &sensitive_before, &no_names).as_str());
            line.append(" -> ");
            line.append(masked_value(key, &a[i].1, &sensitive_after, &unknown_after).as_str());
            assert(line@ == change_line(m, c));
            out.push(line);
            assert(texts(out@) =~= written.push(change_line(m, c)));
            assert(sofar.push(m).map_values(new_line) =~= sofar.map_values(new_line).push(
                new_line(m),
            ));
        }
        i += 1;
    }
    assert(after.take(i as int) =~= after);
    let ghost changed = texts(out@);
    let mut j: usize = 0;
    assert(before.take(0).filter(missing_in(after)) =~= Seq::empty()) by {
        reveal(Seq::filter);
    }
    assert(texts(out@) =~= changed + before.take(0).filter(missing_in(after)).map_values(old_line));
    while j < b.len()
        invariant
            j <= b@.len(),
            c == change@,
            before == attributes(c.before),
            after == attributes(c.after),
            before == member_views(b@),
            after == member_views(a@),
            old_line == |m: (Seq<char>, JsonView)| removal_line(m, c),
            forall|key: Seq<char>| !#[trigger] no_names.holds(key),
            forall|key: Seq<char>| #[trigger]
                texts(sensitive_before@).contains(key) <==> sensitive_flag(c.before_sensitive, key),
            texts(out@) == changed + before.take(j as int).filter(missing_in(after)).map_values(
                old_line,
            ),
        decreases b@.len() - j,
    {
        let ghost m = before[j as int];
        let ghost sofar = before.take(j as int).filter(missing_in(after));
        let ghost written = texts(out@);
        assert(m == (b@[j as int].0@, b@[j as int].1@));
        proof {
            filter_take(before, j as int, missing_in(after));
        }
        let key = b[j].0.as_str();
        if find(a, key).is_none() {
            let mut line = b[j].0.clone();
            line.append(": ");
            line.append(masked_value(key, &b[j].1, &sensitive_before, &no_names).as_str());
            line.append(" -> (removed)");
            assert(line@ == removal_line(m, c));
            out.push(line);
            assert(texts(out@) =~= written.push(removal_line(m, c)));
            assert(changed + sofar.push(m).map_values(old_line) =~= (changed + sofar.map_values(
                old_line,
            )).push(old_line(m)));
        }
        j += 1;
    }
    assert(before.take(j as int) =~= before);
    out
}

/// Shared attribute-line construction used by both the LLM digest and the UI tree.
pub fn attr_lines(actions: &[String], change: &Change) -> (r: Vec<String>)
    ensures
        texts(r@) == attr_lines_of(texts(actions@), change@),
{
    match Action::from_actions(actions) {
        Err(_) => {
            let mut out: Vec<String> = Vec::new();
            out.push("(unknown action)".to_owned());
            assert(texts(out@) =~= seq!["(unknown action)"@]);
            out
        },
        Ok(Action::Create) => match object_of(&change.after) {
            Some(members) => list_attributes(
                members,
                &sensitive_key_set(&change.after_sensitive),
                &unknown_key_set(&change.after_unknown),
                Ghost(change@.after_sensitive),
                Ghost(change@.after_unknown),
            ),
            None => {
                let out: Vec<String> = Vec::new();
                assert(texts(out@) =~= attr_lines_of(texts(actions@), change@));
                out
            },
        },
        Ok(Action::Delete) => match object_of(&change.before) {
            Some(members) => {
                list_attributes(
                    members,
                    &sensitive_key_set(&change.before_sensitive),
                    &UnknownKeys::none(),
                    Ghost(change@.before_sensitive),
                    Ghost(None),
                )
            },
            None => {
                let out: Vec<String> = Vec::new();
                assert(texts(out@) =~= attr_lines_of(texts(actions@), change@));
                out
            },
        },
        Ok(Action::Update) | Ok(Action::Replace) => cut_lines(list_differences(change)),
        Ok(Action::Read) | Ok(Action::NoOp) => {
            let out: Vec<String> = Vec::new();
            assert(texts(out@) =~= Seq::<Seq<char>>::empty());
            out
        },
    }
}

/// Public wrapper used by the UI tree: returns the attr lines as a `Vec<String>`.
/// Each line is already sensitive/unknown-masked and truncated; limit to
/// [`MAX_ATTRS_PER_RESOURCE`] in the caller.
pub fn digest_attrs_public(actions: &[String], change: &Change) -> (r: Vec<String>)
    ensures
        texts(r@) == attr_lines_of(texts(actions@), change@),
{
    attr_lines(actions, change)
}

/// The lines in round brackets; nothing where there are none.
pub open spec fn attrs_text(lines: Seq<Seq<char>>) -> Seq<char> {
    if lines.len() == 0 {
        Seq::empty()
    } else {
        "("@ + joined(lines, ", "@) + ")"@
    }
}

/// Digest the change body into a compact `(attr: old -> new, ...)` fragment
/// for a single resource.
pub fn digest_attrs(actions: &[String], change: &Change) -> (r: String)
    ensures
        r@ == attrs_text(attr_lines_of(texts(actions@), change@)),
{
    let parts = attr_lines(actions, change);
    if parts.len() == 0 {
        String::new()
    } else {
        let mut out = "(".to_owned();
        out.append(join(&parts, ", ").as_str());
        out.append(")");
        out
    }
}

// ---------------------------------------------------------------------------
// Digests
// ---------------------------------------------------------------------------

/// The number of changes in a plan, drift included.
pub open spec fn plan_size(plan: PlanView) -> nat {
    plan.resource_changes.len() + plan.resource_drift.len()
}

/// The digest's first line: the plan footer and the number of groups.
pub open spec fn digest_header(plan: PlanView, groups: Seq<GroupView>) -> Seq<char> {
    "Plan: "@ + plan_footer(plan) + ". "@ + decimal(groups.len()) + " group(s) by type/action.\n\n"@
}

/// One line per group.
pub open spec fn group_lines(groups: Seq<GroupView>) -> Seq<char> {
    concat_all(groups.map_values(|g: GroupView| group_label(g) + "\n"@))
}

/// The line of one change: `{glyph} {address} {attributes}`.
pub open spec fn change_digest(rc: ResourceChangeView) -> Seq<char> {
    let action = match action_of(rc.change.actions) {
        Some(a) => a,
        None => Action::NoOp,
    };
    glyph_of(action) + " "@ + rc.address + " "@ + attrs_text(
        attr_lines_of(rc.change.actions, rc.change),
    ) + "\n"@
}

/// A group's heading, then the lines of its changes.
pub open spec fn group_digest(g: GroupView) -> Seq<char> {
    "\n## "@ + group_label(g) + "\n"@ + concat_all(
        g.changes.map_values(|rc: ResourceChangeView| change_digest(rc)),
    )
}

/// The digest of a plan and its groups.
pub open spec fn plan_digest(plan: PlanView, groups: Seq<GroupView>) -> Seq<char> {
    if plan_size(plan) >= FULL_DIGEST_LIMIT {
        digest_header(plan, groups)
            + "# Group summary (detailed per-resource digest omitted due to size)\n"@ + group_lines(
            groups,
        )
    } else {
        digest_header(plan, groups) + concat_all(
            groups.map_values(|g: GroupView| group_digest(g)),
        )
    }
}

/// Writes one line per group.
fn append_group_lines(out: &mut String, groups: &[Group])
    ensures
        final(out)@ == old(out)@ + group_lines(group_views(groups@)),
{
    let ghost start = out@;
    let ghost views = group_views(groups@);
    let ghost lines = views.map_values(|g: GroupView| group_label(g) + "\n"@);
    let mut i: usize = 0;
    assert(start + concat_all(lines.take(0)) =~= start);
    while i < groups.len()
        invariant
            i <= groups@.len(),
            views == group_views(groups@),
            lines == views.map_values(|g: GroupView| group_label(g) + "\n"@),
            out@ == start + concat_all(lines.take(i as int)),
        decreases groups@.len() - i,
    {
        assert(views[i as int] == groups@[i as int]@);
        out.append(groups[i].label().as_str());
        out.append("\n");
        assert(lines.take(i + 1).drop_last() =~= lines.take(i as int));
        assert(out@ =~= start + concat_all(lines.take(i + 1)));
        i += 1;
    }
    assert(lines.take(i as int) =~= lines);
}

/// Writes the lines of a group's changes.
fn append_changes(out: &mut String, g: &Group)
    ensures
        final(out)@ == old(out)@ + concat_all(
            g@.changes.map_values(|rc: ResourceChangeView| change_digest(rc)),
        ),
{
    let ghost start = out@;
    let ghost views = change_views(g.changes@);
    let ghost lines = views.map_values(|rc: ResourceChangeView| change_digest(rc));
    let mut i: usize = 0;
    assert(start + concat_all(lines.take(0)) =~= start);
    while i < g.changes.len()
        invariant
            i <= g.changes@.len(),
            views == change_views(g.changes@),
            lines == views.map_values(|rc: ResourceChangeView| change_digest(rc)),
            out@ == start + concat_all(lines.take(i as int)),
        decreases g.changes@.len() - i,
    {
        let rc = &g.changes[i];
        assert(views[i as int] == rc@);
        let attrs = digest_attrs(rc.change.actions.as_slice(), &rc.change);
        let action = match Action::from_actions(rc.change.actions.as_slice()) {
            Ok(a) => a,
            Err(_) => Action::NoOp,
        };
        out.append(action.glyph());
        out.append(" ");
        out.append(rc.address.as_str());
        out.append(" ");
        out.append(attrs.as_str());
        out.append("\n");
        assert(lines.take(i + 1).drop_last() =~= lines.take(i as int));
        assert(out@ =~= start + concat_all(lines.take(i + 1)));
        i += 1;
    }
    assert(lines.take(i as int) =~= lines);
}

/// Produce pre-digest text from a plan + its groups.
pub fn digest_plan(plan: &Plan, groups: &[Group]) -> (r: String)
    requires
        plan.countable(),
    ensures
        r@ == plan_digest(plan@, group_views(groups@)),
{
    let ghost views = group_views(groups@);
    let mut out = "Plan: ".to_owned();
    out.append(plan.change_counts().footer().as_str());
    out.append(". ");
    out.append(decimal_text(groups.len() as u128).as_str());
    out.append(" group(s) by type/action.\n\n");
    let ghost head = out@;
    assert(head == digest_header(plan@, views));
    if plan.total_changes() >= FULL_DIGEST_LIMIT {
        out.append("# Group summary (detailed per-resource digest omitted due to size)\n");
        append_group_lines(&mut out, groups);
        return out;
    }
    let ghost parts = views.map_values(|g: GroupView| group_digest(g));
    let mut i: usize = 0;
    assert(head + concat_all(parts.take(0)) =~= head);
    while i < groups.len()
        invariant
            i <= groups@.len(),
            views == group_views(groups@),
            parts == views.map_values(|g: GroupView| group_digest(g)),
            out@ == head + concat_all(parts.take(i as int)),
        decreases groups@.len() - i,
    {
        assert(views[i as int] == groups@[i as int]@);
        let ghost before = out@;
        out.append("\n## ");
        out.append(groups[i].label().as_str());
        out.append("\n");
        append_changes(&mut out, &groups[i]);
        assert(out@ =~= before + group_digest(views[i as int]));
        assert(parts.take(i + 1).drop_last() =~= parts.take(i as int));
        assert(out@ =~= head + concat_all(parts.take(i + 1)));
        i += 1;
    }
    assert(parts.take(i as int) =~= parts);
    out
}

/// Rough token estimate: ~4 bytes/token (OpenAI BPE average for English/code),
/// rounded up.
pub fn estimate_tokens(text: &str) -> (r: usize)
    ensures
        r == (byte_len(text@) + 3) / 4,
{
    let n = byte_count(text);
    n / 4 + (if n % 4 == 0 {
        0
    } else {
        1
    })
}

/// The digest that lists group counts alone.
pub open spec fn counts_digest(plan: PlanView, groups: Seq<GroupView>) -> Seq<char> {
    "Plan with "@ + decimal(plan_size(plan))
        + " resource change(s). Group counts only (full digest exceeded budget).\n\n"@
        + group_lines(groups)
}

/// The plan with its group counts and no individual resources.
pub fn group_counts_only(plan: &Plan, groups: &[Group]) -> (r: String)
    requires
        plan.countable(),
    ensures
        r@ == counts_digest(plan@, group_views(groups@)),
{
    let mut out = "Plan with ".to_owned();
    out.append(decimal_text(plan.total_changes() as u128).as_str());
    out.append(" resource change(s). Group counts only (full digest exceeded budget).\n\n");
    append_group_lines(&mut out, groups);
    out
}

/// The full digest where it fits the token budget, else the group counts.
pub open spec fn budgeted_digest(plan: PlanView, groups: Seq<GroupView>) -> Seq<char> {
    let full = plan_digest(plan, groups);
    if (byte_len(full) + 3) / 4 <= MAX_DIGEST_TOKENS {
        full
    } else {
        counts_digest(plan, groups)
    }
}

/// Digest, falling back to group-counts-only if the full version exceeds the token budget.
pub fn digest_with_budget(plan: &Plan, groups: &[Group]) -> (r: String)
    requires
        plan.countable(),
    ensures
        r@ == budgeted_digest(plan@, group_views(groups@)),
{
    let full = digest_plan(plan, groups);
    if estimate_tokens(full.as_str()) <= MAX_DIGEST_TOKENS {
        full
    } else {
        group_counts_only(plan, groups)
    }
}

// ---------------------------------------------------------------------------
// Laws
// ---------------------------------------------------------------------------

/// No change has more attribute lines than are allowed.
pub proof fn attribute_lines_are_few(words: Seq<Seq<char>>, c: ChangeView)
    ensures
        attr_lines_of(words, c).len() <= MAX_ATTRS_PER_RESOURCE,
{
}

/// Everything under `after_unknown` is masked: every attribute where it is a
/// bare `true`, and else each attribute that it flags or holds flags for.
pub proof fn unknown_values_are_masked(
    key: Seq<char>,
    v: JsonView,
    sensitive: Option<JsonView>,
    flags: Seq<(Seq<char>, JsonView)>,
    i: int,
)
    ensures
        masked(key, v, sensitive, Some(JsonView::Bool(true))) == "<sensitive>"@,
        0 <= i < flags.len() && flags[i].0 == key && (flags[i].1 == JsonView::Bool(true)
            || flags[i].1 is Object || flags[i].1 is Array) ==> masked(
            key,
            v,
            sensitive,
            Some(JsonView::Object(flags)),
        ) == "<sensitive>"@,
{
}

/// The digest begins with the plan footer; so does what is sent, where the
/// digest fits the budget.
pub proof fn digest_begins_with_the_footer(plan: PlanView, groups: Seq<GroupView>)
    ensures
        has_prefix(plan_digest(plan, groups), "Plan: "@ + plan_footer(plan) + ". "@),
        (byte_len(plan_digest(plan, groups)) + 3) / 4 <= MAX_DIGEST_TOKENS ==> has_prefix(
            budgeted_digest(plan, groups),
            "Plan: "@ + plan_footer(plan) + ". "@,
        ),
{
    let footer = "Plan: "@ + plan_footer(plan) + ". "@;
    let digest = plan_digest(plan, groups);
    assert(digest.subrange(0, footer.len() as int) =~= footer);
}

/// The digest of a big plan tells nothing of individual resources: it is the
/// same for two plans with the same footer and the same group labels.
pub proof fn big_digests_name_no_resource(
    p: PlanView,
    q: PlanView,
    x: Seq<GroupView>,
    y: Seq<GroupView>,
)
    requires
        plan_size(p) >= FULL_DIGEST_LIMIT,
        plan_size(q) >= FULL_DIGEST_LIMIT,
        plan_footer(p) == plan_footer(q),
        x.len() == y.len(),
        forall|i: int| 0 <= i < x.len() ==> group_label(#[trigger] x[i]) == group_label(y[i]),
    ensures
        plan_digest(p, x) == plan_digest(q, y),
{
    assert(x.map_values(|g: GroupView| group_label(g) + "\n"@) =~= y.map_values(
        |g: GroupView| group_label(g) + "\n"@,
    ));
}

/// Whether `v` is what an object holds under `key`: the value of the first
/// member of that name, or null where there is none.
pub open spec fn holds_value(
    members: Seq<(Seq<char>, JsonView)>,
    key: Seq<char>,
    v: JsonView,
) -> bool {
    ||| exists|j: int|
        {
            &&& 0 <= j < members.len()
            &&& (#[trigger] members[j]).0 == key
            &&& members[j].1 == v
            &&& forall|k: int| 0 <= k < j ==> (#[trigger] members[k]).0 != key
        }
    ||| {
        &&& v is Null
        &&& forall|j: int| 0 <= j < members.len() ==> (#[trigger] members[j]).0 != key
    }
}

proof fn held_value_is_looked_up(
    members: Seq<(Seq<char>, JsonView)>,
    key: Seq<char>,
    v: JsonView,
)
    ensures
        holds_value(members, key, v) <==> v == lookup(members, key),
    decreases members.len(),
{
    members_are_found(members, 0, key);
    if forall|j: int| 0 <= j < members.len() ==> (#[trigger] members[j]).0 != key {
    } else {
        let i = first_place(members, key);
        members_are_found(members, i, key);
    }
}

proof fn first_place(members: Seq<(Seq<char>, JsonView)>, key: Seq<char>) -> (i: int)
    requires
        exists|j: int| 0 <= j < members.len() && (#[trigger] members[j]).0 == key,
    ensures
        0 <= i < members.len(),
        members[i].0 == key,
        forall|k: int| 0 <= k < i ==> (#[trigger] members[k]).0 != key,
    decreases members.len(),
{
    let j = choose|j: int| 0 <= j < members.len() && (#[trigger] members[j]).0 == key;
    if exists|k: int| 0 <= k < j && (#[trigger] members[k]).0 == key {
        let k = choose|k: int| 0 <= k < j && (#[trigger] members[k]).0 == key;
        let front = members.take(j);
        assert(front[k].0 == key);
        let i = first_place(front, key);
        assert(front[i] == members[i]);
        assert forall|n: int| 0 <= n < i implies (#[trigger] members[n]).0 != key by {
            assert(front[n] == members[n]);
        }
        i
    } else {
        j
    }
}

proof fn kept_is_contained<A>(s: Seq<A>, p: spec_fn(A) -> bool, i: int)
    requires
        0 <= i < s.len(),
        p(s[i]),
    ensures
        s.filter(p).contains(s[i]),
    decreases s.len(),
{
    reveal(Seq::filter);
    let last = s.last();
    let rest = s.drop_last();
    if i == s.len() - 1 {
        let f = rest.filter(p);
        assert(f.push(last)[f.len() as int] == last);
    } else {
        kept_is_contained(rest, p, i);
        assert(rest[i] == s[i]);
        let k = choose|k: int| 0 <= k < rest.filter(p).len() && rest.filter(p)[k] == s[i];
        assert(s.filter(p)[k] == s[i]);
    }
}

/// What an update shows of one attribute of `after`: if its value before was
/// another, there is a line with its name, the old value and the new one. What
/// is not there before counts as null.
pub proof fn changed_attributes_have_a_line(
    c: ChangeView,
    before: Seq<(Seq<char>, JsonView)>,
    after: Seq<(Seq<char>, JsonView)>,
    i: int,
    old: JsonView,
)
    requires
        c.before == Some(JsonView::Object(before)) || (before.len() == 0 && !(c.before matches Some(
            JsonView::Object(_),
        ))),
        c.after == Some(JsonView::Object(after)),
        0 <= i < after.len(),
        holds_value(before, after[i].0, old),
        without_float_zeros(old),
        old != after[i].1,
    ensures
        diff_lines(c).contains(
            after[i].0 + ": "@ + masked(after[i].0, old, c.before_sensitive, None) + " -> "@
                + masked(after[i].0, after[i].1, c.after_sensitive, c.after_unknown),
        ),
{
    let b = attributes(c.before);
    assert(b =~= before);
    held_value_is_looked_up(before, after[i].0, old);
    equality_separates_what_differs(old, after[i].1);
    let kept = after.filter(differs_from(b));
    kept_is_contained(after, differs_from(b), i);
    let k = choose|k: int| 0 <= k < kept.len() && kept[k] == after[i];
    assert(diff_lines(c)[k] == change_line(after[i], c));
}

/// An attribute that was there before and is there no more has a line, whatever
/// its value was.
pub proof fn removed_attributes_have_a_line(
    c: ChangeView,
    before: Seq<(Seq<char>, JsonView)>,
    after: Seq<(Seq<char>, JsonView)>,
    i: int,
)
    requires
        c.before == Some(JsonView::Object(before)),
        c.after == Some(JsonView::Object(after)) || (after.len() == 0 && !(c.after matches Some(
            JsonView::Object(_),
        ))),
        0 <= i < before.len(),
        forall|j: int| 0 <= j < after.len() ==> (#[trigger] after[j]).0 != before[i].0,
    ensures
        diff_lines(c).contains(
            before[i].0 + ": "@ + masked(before[i].0, before[i].1, c.before_sensitive, None)
                + " -> (removed)"@,
        ),
{
    let a = attributes(c.after);
    assert(a =~= after);
    let came = a.filter(differs_from(before));
    let went = before.filter(missing_in(a));
    kept_is_contained(before, missing_in(a), i);
    let k = choose|k: int| 0 <= k < went.len() && went[k] == before[i];
    assert(diff_lines(c)[came.len() + k] == removal_line(before[i], c));
}

/// An update has no other lines: as many as attributes of `after` whose value
/// is not the one before, and attributes of `before` that `after` has not. The
/// former come first.
pub proof fn unchanged_attributes_have_no_line(
    c: ChangeView,
    before: Seq<(Seq<char>, JsonView)>,
    after: Seq<(Seq<char>, JsonView)>,
    k: int,
)
    requires
        c.before == Some(JsonView::Object(before)),
        c.after == Some(JsonView::Object(after)),
        forall|j: int| 0 <= j < before.len() ==> without_float_zeros((#[trigger] before[j]).1),
        0 <= k < diff_lines(c).len(),
    ensures
        ({
            let came = after.filter(
                |m: (Seq<char>, JsonView)| !holds_value(before, m.0, m.1),
            ).len();
            let went = before.filter(
                |m: (Seq<char>, JsonView)|
                    forall|j: int| 0 <= j < after.len() ==> (#[trigger] after[j]).0 != m.0,
            ).len();
            &&& diff_lines(c).len() == came + went
            &&& k < came ==> exists|i: int|
                0 <= i < after.len() && !holds_value(
                    before,
                    (#[trigger] after[i]).0,
                    after[i].1,
                ) && has_prefix(diff_lines(c)[k], after[i].0 + ": "@)
            &&& k >= came ==> exists|i: int|
                0 <= i < before.len() && has_prefix(
                    diff_lines(c)[k],
                    (#[trigger] before[i]).0 + ": "@,
                ) && forall|j: int| 0 <= j < after.len() ==> (#[trigger] after[j]).0 != before[i].0
        }),
{
    let changed = |m: (Seq<char>, JsonView)| !holds_value(before, m.0, m.1);
    let gone = |m: (Seq<char>, JsonView)|
        forall|j: int| 0 <= j < after.len() ==> (#[trigger] after[j]).0 != m.0;
    assert forall|i: int| 0 <= i < after.len() implies differs_from(before)(#[trigger] after[i])
        == changed(after[i]) by {
        let old = lookup(before, after[i].0);
        held_value_is_looked_up(before, after[i].0, after[i].1);
        looked_up_has_no_float_zeros(before, after[i].0);
        equality_separates_what_differs(old, after[i].1);
    }
    filter_agree(after, differs_from(before), changed);
    assert forall|i: int| 0 <= i < before.len() implies missing_in(after)(#[trigger] before[i])
        == gone(before[i]) by {
        members_are_found(after, 0, before[i].0);
    }
    filter_agree(before, missing_in(after), gone);
    let came = after.filter(changed);
    let went = before.filter(gone);
    if k < came.len() {
        let m = came[k];
        kept_comes_from(after, changed, k);
        let tail = masked(m.0, lookup(before, m.0), c.before_sensitive, None) + " -> "@ + masked(
            m.0,
            m.1,
            c.after_sensitive,
            c.after_unknown,
        );
        assert(diff_lines(c)[k] == change_line(m, c));
        assert(change_line(m, c) =~= (m.0 + ": "@) + tail);
        prefixes_come_first(m.0, m.0 + ": "@, tail);
    } else {
        let m = went[k - came.len()];
        kept_comes_from(before, gone, k - came.len());
        let tail = masked(m.0, m.1, c.before_sensitive, None) + " -> (removed)"@;
        assert(diff_lines(c)[k] == removal_line(m, c));
        assert(removal_line(m, c) =~= (m.0 + ": "@) + tail);
        prefixes_come_first(m.0, m.0 + ": "@, tail);
    }
}

proof fn looked_up_has_no_float_zeros(members: Seq<(Seq<char>, JsonView)>, key: Seq<char>)
    requires
        forall|j: int| 0 <= j < members.len() ==> without_float_zeros((#[trigger] members[j]).1),
    ensures
        without_float_zeros(lookup(members, key)),
    decreases members.len(),
{
    if members.len() > 0 {
        assert(without_float_zeros(members[0].1));
        let rest = members.drop_first();
        assert forall|j: int| 0 <= j < rest.len() implies without_float_zeros(
            (#[trigger] rest[j]).1,
        ) by {
            assert(rest[j] == members[j + 1]);
        }
        looked_up_has_no_float_zeros(rest, key);
    }
}

proof fn kept_comes_from<A>(s: Seq<A>, p: spec_fn(A) -> bool, k: int)
    requires
        0 <= k < s.filter(p).len(),
    ensures
        exists|i: int| 0 <= i < s.len() && #[trigger] s[i] == s.filter(p)[k],
        p(s.filter(p)[k]),
    decreases s.len(),
{
    reveal(Seq::filter);
    if s.len() > 0 {
        let rest = s.drop_last();
        if k < rest.filter(p).len() {
            kept_comes_from(rest, p, k);
            let i = choose|i: int| 0 <= i < rest.len() && #[trigger] rest[i] == rest.filter(p)[k];
            assert(s[i] == s.filter(p)[k]);
        } else {
            assert(s[s.len() - 1] == s.filter(p)[k]);
        }
    }
}

/// Which lines a change has. An update and a replacement have those of their
/// differences, a creation one for each attribute after it and a deletion one
/// for each before it, all up to the fifth; reads and no-ops have none.
pub proof fn lines_go_by_the_action(words: Seq<Seq<char>>, c: ChangeView, k: int)
    ensures
        ({
            let lines = attr_lines_of(words, c);
            &&& action_of(words) == Some(Action::Update) || action_of(words) == Some(
                Action::Replace,
            ) ==> {
                &&& lines.len() == if diff_lines(c).len() < 5 {
                    diff_lines(c).len()
                } else {
                    5nat
                }
                &&& 0 <= k < lines.len() ==> lines[k] == diff_lines(c)[k]
            }
            &&& action_of(words) == Some(Action::Create) ==> (c.after matches Some(
                JsonView::Object(after),
            ) ==> {
                &&& lines.len() == if after.len() < 5 {
                    after.len()
                } else {
                    5nat
                }
                &&& 0 <= k < lines.len() ==> lines[k] == after[k].0 + "="@ + masked(
                    after[k].0,
                    after[k].1,
                    c.after_sensitive,
                    c.after_unknown,
                )
            })
            &&& action_of(words) == Some(Action::Delete) ==> (c.before matches Some(
                JsonView::Object(before),
            ) ==> {
                &&& lines.len() == if before.len() < 5 {
                    before.len()
                } else {
                    5nat
                }
                &&& 0 <= k < lines.len() ==> lines[k] == before[k].0 + "="@ + masked(
                    before[k].0,
                    before[k].1,
                    c.before_sensitive,
                    None,
                )
            })
            &&& action_of(words) == Some(Action::Create) && !(c.after matches Some(
                JsonView::Object(_),
            )) ==> lines.len() == 0
            &&& action_of(words) == Some(Action::Delete) && !(c.before matches Some(
                JsonView::Object(_),
            )) ==> lines.len() == 0
            &&& action_of(words) == Some(Action::Read) || action_of(words) == Some(Action::NoOp)
                ==> lines.len() == 0
            &&& action_of(words) is None ==> lines == seq!["(unknown action)"@]
        }),
{
}

/// A value flagged as sensitive is masked: every attribute where the flags are
/// a bare `true`, and else each attribute that is flagged `true` or has an
/// object of flags.
pub proof fn sensitive_values_are_masked(
    key: Seq<char>,
    v: JsonView,
    flags: Seq<(Seq<char>, JsonView)>,
    unknown: Option<JsonView>,
    i: int,
)
    ensures
        masked(key, v, Some(JsonView::Bool(true)), unknown) == "<sensitive>"@,
        0 <= i < flags.len() && flags[i].0 == key && (flags[i].1 == JsonView::Bool(true)
            || flags[i].1 is Object) ==> masked(
            key,
            v,
            Some(JsonView::Object(flags)),
            unknown,
        ) == "<sensitive>"@,
{
}

/// Whether flags say nothing of an attribute: there are none, or they are an
/// object with no member of its name or named `*`, or one that is `false`.
pub open spec fn silent_on(flags: Option<JsonView>, key: Seq<char>) -> bool {
    match flags {
        None => true,
        Some(JsonView::Bool(all)) => !all,
        Some(JsonView::Object(members)) => forall|i: int|
            0 <= i < members.len() ==> {
                ||| (#[trigger] members[i]).0 != key && members[i].0 != "*"@
                ||| members[i].1 == JsonView::Bool(false)
            },
        Some(JsonView::Null) => true,
        _ => false,
    }
}

/// A value is shown unless it is flagged.
pub proof fn other_values_are_shown(
    key: Seq<char>,
    v: JsonView,
    sensitive: Option<JsonView>,
    unknown: Option<JsonView>,
)
    requires
        silent_on(sensitive, key),
        silent_on(unknown, key),
    ensures
        masked(key, v, sensitive, unknown) == rendered(v),
{
}

/// How values are shown: a short string whole between quotation marks, of a
/// longer one a beginning of at most 37 bytes that no character boundary
/// separates from that limit, and of lists and objects how many items or keys
/// they have.
pub proof fn values_are_shown_in_short(v: JsonView, m: nat)
    ensures
        v is Null ==> rendered(v) == "null"@,
        v == JsonView::Bool(true) ==> rendered(v) == "true"@,
        v == JsonView::Bool(false) ==> rendered(v) == "false"@,
        v matches JsonView::Number(t) ==> rendered(v) == t,
        v matches JsonView::Str(s) ==> {
            let r = rendered(v);
            &&& r.len() >= 2 && r[0] == '"' && r.last() == '"'
            &&& byte_len(s) <= 40 ==> r.subrange(1, r.len() - 1) == s
            &&& byte_len(s) > 40 ==> {
                &&& r.len() >= 5 && r[r.len() - 2] == '.' && r[r.len() - 3] == '.' && r[r.len() - 4]
                    == '.'
                &&& has_prefix(s, r.subrange(1, r.len() - 4))
                &&& byte_len(r.subrange(1, r.len() - 4)) <= 37
                &&& splits_at(s, m as int) && m <= 37 ==> m <= byte_len(
                    r.subrange(1, r.len() - 4),
                )
            }
        },
        v matches JsonView::Array(items) ==> {
            let r = rendered(v);
            &&& r.len() > 8 && r[0] == '[' && r.skip(r.len() - 7) == " items]"@
            &&& number_written(r.subrange(1, r.len() - 7)) == Some(items.len())
        },
        v matches JsonView::Object(members) ==> {
            let r = rendered(v);
            &&& r.len() > 7 && r[0] == '{' && r.skip(r.len() - 6) == " keys}"@
            &&& number_written(r.subrange(1, r.len() - 6)) == Some(members.len())
        },
{
    reveal_strlit("\"");
    reveal_strlit("...\"");
    reveal_strlit("[");
    reveal_strlit("{");
    reveal_strlit(" items]");
    reveal_strlit(" keys}");
    let r = rendered(v);
    match v {
        JsonView::Str(s) => if byte_len(s) > 40 {
            cut_is_a_beginning(s, 37);
            cut_is_as_long_as_it_may_be(s, 37, m);
            assert(r.subrange(1, r.len() - 4) =~= byte_cut(s, 37));
        } else {
            assert(r.subrange(1, r.len() - 1) =~= s);
        },
        JsonView::Array(items) => {
            decimals_read_back(items.len());
            assert(r.subrange(1, r.len() - 7) =~= decimal(items.len()));
            assert(r.skip(r.len() - 7) =~= " items]"@);
        },
        JsonView::Object(members) => {
            decimals_read_back(members.len());
            assert(r.subrange(1, r.len() - 6) =~= decimal(members.len()));
            assert(r.skip(r.len() - 6) =~= " keys}"@);
        },
        _ => {},
    }
}

/// Attribute lines stand in round brackets with a comma and a space between
/// them; where there are none, there are no brackets.
pub proof fn attributes_stand_in_brackets(lines: Seq<Seq<char>>, more: Seq<Seq<char>>)
    ensures
        attrs_text(Seq::empty()).len() == 0,
        lines.len() == 1 ==> attrs_text(lines) == "("@ + lines[0] + ")"@,
        lines.len() > 0 && more.len() > 0 ==> attrs_text(lines + more).len() >= 2 && attrs_text(
            lines + more,
        ) == attrs_text(lines).drop_last() + ", "@ + attrs_text(more).drop_first(),
{
    reveal_strlit("(");
    reveal_strlit(")");
    joining_separates_neighbours(lines, more, ", "@);
    if lines.len() > 0 && more.len() > 0 {
        assert(attrs_text(lines).drop_last() =~= "("@ + joined(lines, ", "@));
        assert(attrs_text(more).drop_first() =~= joined(more, ", "@) + ")"@);
        assert(attrs_text(lines + more) =~= attrs_text(lines).drop_last() + ", "@ + attrs_text(
            more,
        ).drop_first());
    }
}

/// What follows the heading in the digest of a plan.
pub open spec fn digest_body(plan: PlanView, groups: Seq<GroupView>) -> Seq<char> {
    let heading = "Plan: "@ + plan_footer(plan) + ". "@ + decimal(groups.len())
        + " group(s) by type/action.\n\n"@;
    plan_digest(plan, groups).skip(heading.len() as int)
}

/// What follows the heading of a group in a digest.
pub open spec fn group_body(g: GroupView) -> Seq<char> {
    group_digest(g).skip(("\n## "@ + group_label(g) + "\n"@).len() as int)
}

/// The digest begins with the footer and the number of groups, and tells of the
/// groups in their order. For a plan of fewer than 500 changes each group has
/// its heading and a line for each of its changes; for others each group has
/// the line of its label alone.
pub proof fn digests_tell_of_every_group(plan: PlanView, groups: Seq<GroupView>, g: GroupView)
    ensures
        has_prefix(
            plan_digest(plan, groups),
            "Plan: "@ + plan_footer(plan) + ". "@ + decimal(groups.len())
                + " group(s) by type/action.\n\n"@,
        ),
        plan.resource_changes.len() + plan.resource_drift.len() < 500 ==> {
            &&& digest_body(plan, Seq::empty()).len() == 0
            &&& digest_body(plan, groups.push(g)) == digest_body(plan, groups) + "\n## "@
                + group_label(g) + "\n"@ + group_body(g)
        },
        plan.resource_changes.len() + plan.resource_drift.len() >= 500 ==> {
            &&& digest_body(plan, Seq::empty())
                == "# Group summary (detailed per-resource digest omitted due to size)\n"@
            &&& digest_body(plan, groups.push(g)) == digest_body(plan, groups) + group_label(g)
                + "\n"@
        },
{
    body_is_the_rest(plan, Seq::empty());
    body_is_the_rest(plan, groups);
    body_is_the_rest(plan, groups.push(g));
    if plan_size(plan) < 500 {
        one_section_more(groups, g);
    } else {
        one_label_more(groups, g);
        let note = "# Group summary (detailed per-resource digest omitted due to size)\n"@;
        assert(note + group_lines(Seq::empty()) =~= note);
        assert(note + (group_lines(groups) + group_label(g) + "\n"@) =~= note + group_lines(groups)
            + group_label(g) + "\n"@);
    }
}

proof fn one_section_more(groups: Seq<GroupView>, g: GroupView)
    ensures
        ({
            let f = |g: GroupView| group_digest(g);
            let front = concat_all(groups.map_values(f));
            &&& concat_all(Seq::<GroupView>::empty().map_values(f)).len() == 0
            &&& concat_all(groups.push(g).map_values(f)) == front + "\n## "@ + group_label(g)
                + "\n"@ + group_body(g)
        }),
{
    let f = |g: GroupView| group_digest(g);
    let front = concat_all(groups.map_values(f));
    assert(groups.push(g).map_values(f) =~= groups.map_values(f) + seq![group_digest(g)]);
    concatenation_adds_up(groups.map_values(f), seq![group_digest(g)], group_digest(g));
    group_body_is_the_rest(g);
    assert(front + group_digest(g) =~= front + "\n## "@ + group_label(g) + "\n"@ + group_body(g));
}

proof fn one_label_more(groups: Seq<GroupView>, g: GroupView)
    ensures
        group_lines(Seq::empty()).len() == 0,
        group_lines(groups.push(g)) == group_lines(groups) + group_label(g) + "\n"@,
{
    let f = |g: GroupView| group_label(g) + "\n"@;
    let line = group_label(g) + "\n"@;
    assert(groups.push(g).map_values(f) =~= groups.map_values(f) + seq![line]);
    concatenation_adds_up(groups.map_values(f), seq![line], line);
    assert(group_lines(groups) + line =~= group_lines(groups) + group_label(g) + "\n"@);
}

proof fn body_is_the_rest(plan: PlanView, groups: Seq<GroupView>)
    ensures
        has_prefix(plan_digest(plan, groups), digest_header(plan, groups)),
        plan_size(plan) < 500 ==> digest_body(plan, groups) == concat_all(
            groups.map_values(|g: GroupView| group_digest(g)),
        ),
        plan_size(plan) >= 500 ==> digest_body(plan, groups)
            == "# Group summary (detailed per-resource digest omitted due to size)\n"@
            + group_lines(groups),
{
    let head = digest_header(plan, groups);
    let note = "# Group summary (detailed per-resource digest omitted due to size)\n"@;
    let rest = if plan_size(plan) >= 500 {
        note + group_lines(groups)
    } else {
        concat_all(groups.map_values(|g: GroupView| group_digest(g)))
    };
    assert(plan_digest(plan, groups) =~= head + rest);
    prefixes_come_first(head, head, rest);
    assert((head + rest).skip(head.len() as int) =~= rest);
}

/// Under the heading of a group stands a line for each of its changes, in their
/// order: the glyph of its action, its address and its attributes.
pub proof fn groups_tell_of_every_change(g: GroupView, rc: ResourceChangeView, a: Action)
    ensures
        has_prefix(group_digest(g), "\n## "@ + group_label(g) + "\n"@),
        group_body(GroupView { changes: Seq::empty(), ..g }).len() == 0,
        action_of(rc.change.actions) == Some(a) || (action_of(rc.change.actions) is None && a
            is NoOp) ==> group_body(
            GroupView { changes: g.changes.push(rc), ..g },
        ) == group_body(g) + glyph_of(a) + " "@ + rc.address + " "@ + attrs_text(
            attr_lines_of(rc.change.actions, rc.change),
        ) + "\n"@,
{
    group_body_is_the_rest(g);
    group_body_is_the_rest(GroupView { changes: Seq::empty(), ..g });
    group_body_is_the_rest(GroupView { changes: g.changes.push(rc), ..g });
    one_change_more(g.changes, rc, a);
}

proof fn one_change_more(changes: Seq<ResourceChangeView>, rc: ResourceChangeView, a: Action)
    ensures
        ({
            let f = |rc: ResourceChangeView| change_digest(rc);
            let front = concat_all(changes.map_values(f));
            &&& concat_all(Seq::<ResourceChangeView>::empty().map_values(f)).len() == 0
            &&& action_of(rc.change.actions) == Some(a) || (action_of(rc.change.actions) is None
                && a is NoOp) ==> concat_all(changes.push(rc).map_values(f)) == front + glyph_of(a)
                + " "@ + rc.address + " "@ + attrs_text(
                attr_lines_of(rc.change.actions, rc.change),
            ) + "\n"@
        }),
{
    let f = |rc: ResourceChangeView| change_digest(rc);
    let front = concat_all(changes.map_values(f));
    let line = change_digest(rc);
    assert(changes.push(rc).map_values(f) =~= changes.map_values(f) + seq![line]);
    concatenation_adds_up(changes.map_values(f), seq![line], line);
    let glyph = glyph_of(a);
    let attrs = attrs_text(attr_lines_of(rc.change.actions, rc.change));
    five_are_appended(front, glyph, " "@, rc.address, attrs, "\n"@);
}

proof fn five_are_appended(
    front: Seq<char>,
    a: Seq<char>,
    space: Seq<char>,
    b: Seq<char>,
    c: Seq<char>,
    end: Seq<char>,
)
    ensures
        front + (a + space + b + space + c + end) == front + a + space + b + space + c + end,
{
    assert(front + (a + space + b + space + c + end) =~= front + a + space + b + space + c + end);
}

proof fn group_body_is_the_rest(g: GroupView)
    ensures
        has_prefix(group_digest(g), "\n## "@ + group_label(g) + "\n"@),
        group_body(g) == concat_all(
            g.changes.map_values(|rc: ResourceChangeView| change_digest(rc)),
        ),
{
    let head = "\n## "@ + group_label(g) + "\n"@;
    let rest = concat_all(g.changes.map_values(|rc: ResourceChangeView| change_digest(rc)));
    assert(group_digest(g) =~= head + rest);
    prefixes_come_first(head, head, rest);
    assert((head + rest).skip(head.len() as int) =~= rest);
}

/// What is sent is the digest where that has at most 16000 bytes. Otherwise it
/// is the number of changes, and the label of each group on a line.
pub proof fn long_digests_are_replaced_by_counts(
    plan: PlanView,
    groups: Seq<GroupView>,
    g: GroupView,
)
    ensures
        byte_len(plan_digest(plan, groups)) <= 16000 ==> budgeted_digest(plan, groups)
            == plan_digest(plan, groups),
        byte_len(plan_digest(plan, groups)) > 16000 ==> budgeted_digest(plan, groups)
            == counts_digest(plan, groups),
        counts_digest(plan, Seq::empty()) == "Plan with "@ + decimal(
            plan.resource_changes.len() + plan.resource_drift.len(),
        ) + " resource change(s). Group counts only (full digest exceeded budget).\n\n"@,
        counts_digest(plan, groups.push(g)) == counts_digest(plan, groups) + group_label(g)
            + "\n"@,
{
    let none = Seq::<GroupView>::empty();
    one_label_more(groups, g);
    assert(counts_digest(plan, none) =~= "Plan with "@ + decimal(plan_size(plan))
        + " resource change(s). Group counts only (full digest exceeded budget).\n\n"@);
    assert(counts_digest(plan, groups.push(g)) =~= counts_digest(plan, groups) + group_label(g)
        + "\n"@);
}

} // verus!
