//! Terraform plans: the document, its resource changes and their actions.
//!
//! Format versions 1.0, 1.1 and 1.2 are supported (the schema is stable since
//! Terraform 1.0).

use vstd::prelude::*;

use crate::json::{Json, JsonView};
use crate::sequences::filter_take;
use crate::text::{
    debug_text, decimal, decimal_text, join, joined, joining_separates_neighbours, quoted, same,
    texts,
};

verus! {

// ---------------------------------------------------------------------------
// The document
// ---------------------------------------------------------------------------

/// A decoded plan document.
#[derive(Debug)]
pub struct Plan {
    pub format_version: String,
    pub resource_changes: Vec<ResourceChange>,
    pub resource_drift: Vec<ResourceChange>,
}

/// One resource that the plan touches.
#[derive(Debug)]
pub struct ResourceChange {
    pub address: String,
    pub resource_type: String,
    pub change: Change,
    pub name: Option<String>,
    pub provider_name: Option<String>,
    pub module_address: Option<String>,
}

/// What happens to a resource: the action words, the attributes before and
/// after, and which of them are unknown or sensitive.
#[derive(Debug)]
pub struct Change {
    pub actions: Vec<String>,
    pub before: Option<Json>,
    pub after: Option<Json>,
    pub after_unknown: Option<Json>,
    pub before_sensitive: Option<Json>,
    pub after_sensitive: Option<Json>,
}

/// What a [`Plan`] stands for.
pub struct PlanView {
    pub format_version: Seq<char>,
    pub resource_changes: Seq<ResourceChangeView>,
    pub resource_drift: Seq<ResourceChangeView>,
}

/// What a [`ResourceChange`] stands for.
pub struct ResourceChangeView {
    pub address: Seq<char>,
    pub resource_type: Seq<char>,
    pub change: ChangeView,
    pub name: Option<Seq<char>>,
    pub provider_name: Option<Seq<char>>,
    pub module_address: Option<Seq<char>>,
}

/// What a [`Change`] stands for.
pub struct ChangeView {
    pub actions: Seq<Seq<char>>,
    pub before: Option<JsonView>,
    pub after: Option<JsonView>,
    pub after_unknown: Option<JsonView>,
    pub before_sensitive: Option<JsonView>,
    pub after_sensitive: Option<JsonView>,
}

/// The text in an optional string.
pub open spec fn text_opt(s: Option<String>) -> Option<Seq<char>> {
    match s {
        Some(t) => Some(t@),
        None => None,
    }
}

/// The value in an optional JSON value.
pub open spec fn json_opt(v: Option<Json>) -> Option<JsonView> {
    match v {
        Some(j) => Some(j@),
        None => None,
    }
}

impl View for Change {
    type V = ChangeView;

    open spec fn view(&self) -> ChangeView {
        ChangeView {
            actions: texts(self.actions@),
            before: json_opt(self.before),
            after: json_opt(self.after),
            after_unknown: json_opt(self.after_unknown),
            before_sensitive: json_opt(self.before_sensitive),
            after_sensitive: json_opt(self.after_sensitive),
        }
    }
}

impl View for ResourceChange {
    type V = ResourceChangeView;

    open spec fn view(&self) -> ResourceChangeView {
        ResourceChangeView {
            address: self.address@,
            resource_type: self.resource_type@,
            change: self.change@,
            name: text_opt(self.name),
            provider_name: text_opt(self.provider_name),
            module_address: text_opt(self.module_address),
        }
    }
}

/// What a vector of changes stands for.
pub open spec fn change_views(changes: Seq<ResourceChange>) -> Seq<ResourceChangeView> {
    changes.map_values(|rc: ResourceChange| rc@)
}

impl View for Plan {
    type V = PlanView;

    open spec fn view(&self) -> PlanView {
        PlanView {
            format_version: self.format_version@,
            resource_changes: change_views(self.resource_changes@),
            resource_drift: change_views(self.resource_drift@),
        }
    }
}

/// A copy of a vector of strings.
pub fn clone_texts(v: &Vec<String>) -> (r: Vec<String>)
    ensures
        texts(r@) == texts(v@),
        r@ == v@,
{
    let r = v.clone();
    assert(r@ =~= v@);
    r
}

fn clone_json_opt(v: &Option<Json>) -> (r: Option<Json>)
    ensures
        json_opt(r) == json_opt(*v),
{
    match v {
        Some(j) => Some(j.clone()),
        None => None,
    }
}

/// A copy of an optional string.
pub fn clone_text_opt(v: &Option<String>) -> (r: Option<String>)
    ensures
        r == *v,
{
    match v {
        Some(t) => Some(t.clone()),
        None => None,
    }
}

impl Clone for Change {
    fn clone(&self) -> (r: Self)
        ensures
            r@ == self@,
    {
        Change {
            actions: clone_texts(&self.actions),
            before: clone_json_opt(&self.before),
            after: clone_json_opt(&self.after),
            after_unknown: clone_json_opt(&self.after_unknown),
            before_sensitive: clone_json_opt(&self.before_sensitive),
            after_sensitive: clone_json_opt(&self.after_sensitive),
        }
    }
}

impl Clone for ResourceChange {
    fn clone(&self) -> (r: Self)
        ensures
            r@ == self@,
    {
        ResourceChange {
            address: self.address.clone(),
            resource_type: self.resource_type.clone(),
            change: self.change.clone(),
            name: clone_text_opt(&self.name),
            provider_name: clone_text_opt(&self.provider_name),
            module_address: clone_text_opt(&self.module_address),
        }
    }
}

/// A copy of a vector of changes.
pub fn clone_changes(changes: &Vec<ResourceChange>) -> (r: Vec<ResourceChange>)
    ensures
        change_views(r@) == change_views(changes@),
{
    let mut out: Vec<ResourceChange> = Vec::new();
    let mut i: usize = 0;
    while i < changes.len()
        invariant
            i <= changes@.len(),
            out@.len() == i,
            forall|k: int| 0 <= k < i ==> (#[trigger] out@[k])@ == changes@[k]@,
        decreases changes@.len() - i,
    {
        out.push(changes[i].clone());
        i += 1;
    }
    assert(change_views(out@) =~= change_views(changes@));
    out
}

impl Clone for Plan {
    fn clone(&self) -> (r: Self)
        ensures
            r@ == self@,
    {
        Plan {
            format_version: self.format_version.clone(),
            resource_changes: clone_changes(&self.resource_changes),
            resource_drift: clone_changes(&self.resource_drift),
        }
    }
}

// ---------------------------------------------------------------------------
// Actions
// ---------------------------------------------------------------------------

/// High-level action derived from the `actions` array.
#[derive(Debug, Clone, Copy, PartialEq, Eq, Hash, PartialOrd, Ord, Structural)]
pub enum Action {
    Create,
    Update,
    Delete,
    Replace,
    Read,
    NoOp,
}

/// An `actions` array that stands for no action.
#[derive(Debug)]
pub struct ActionError {
    pub actions: Vec<String>,
}

/// The action that an `actions` array stands for.
pub open spec fn action_of(words: Seq<Seq<char>>) -> Option<Action> {
    if words == seq!["create"@] {
        Some(Action::Create)
    } else if words == seq!["update"@] {
        Some(Action::Update)
    } else if words == seq!["delete"@] {
        Some(Action::Delete)
    } else if words == seq!["delete"@, "create"@] || words == seq!["create"@, "delete"@] {
        Some(Action::Replace)
    } else if words == seq!["read"@] {
        Some(Action::Read)
    } else if words == seq!["no-op"@] {
        Some(Action::NoOp)
    } else {
        None
    }
}

/// The glyph of an action.
pub open spec fn glyph_of(a: Action) -> Seq<char> {
    match a {
        Action::Create => "+"@,
        Action::Update => "~"@,
        Action::Delete => "-"@,
        Action::Replace => "-/+"@,
        Action::Read => ">"@,
        Action::NoOp => " "@,
    }
}

/// The name of an action.
pub open spec fn label_of(a: Action) -> Seq<char> {
    match a {
        Action::Create => "create"@,
        Action::Update => "update"@,
        Action::Delete => "delete"@,
        Action::Replace => "replace"@,
        Action::Read => "read"@,
        Action::NoOp => "no-op"@,
    }
}

/// Whether `words` is exactly the one word `word`.
fn is_word(words: &[String], word: &str) -> (r: bool)
    ensures
        r == (texts(words@) == seq![word@]),
{
    let r = words.len() == 1 && same(words[0].as_str(), word);
    proof {
        let t = texts(words@);
        if r {
            assert(t =~= seq![word@]);
        } else if t == seq![word@] {
            assert(t.len() == 1 && t[0] == word@);
            assert(t[0] == words@[0]@);
        }
    }
    r
}

/// Whether `words` is exactly `first`, then `second`.
fn is_pair(words: &[String], first: &str, second: &str) -> (r: bool)
    ensures
        r == (texts(words@) == seq![first@, second@]),
{
    let r = words.len() == 2 && same(words[0].as_str(), first) && same(words[1].as_str(), second);
    proof {
        let t = texts(words@);
        if r {
            assert(t =~= seq![first@, second@]);
        } else if t == seq![first@, second@] {
            assert(t.len() == 2 && t[0] == first@ && t[1] == second@);
            assert(t[0] == words@[0]@ && t[1] == words@[1]@);
        }
    }
    r
}

impl Action {
    /// Maps the string array from terraform JSON to a single high-level action.
    /// - `["create"]` -> Create
    /// - `["update"]` -> Update
    /// - `["delete"]` -> Delete
    /// - `["delete", "create"]` / `["create", "delete"]` -> Replace
    /// - `["read"]` -> Read
    /// - `["no-op"]` -> NoOp
    pub fn from_actions(actions: &[String]) -> (r: Result<Action, ActionError>)
        ensures
            match action_of(texts(actions@)) {
                Some(a) => r == Ok::<Action, ActionError>(a),
                None => r matches Err(e) && e.actions@ == actions@,
            },
    {
        if is_word(actions, "create") {
            Ok(Action::Create)
        } else if is_word(actions, "update") {
            Ok(Action::Update)
        } else if is_word(actions, "delete") {
            Ok(Action::Delete)
        } else if is_pair(actions, "delete", "create") || is_pair(actions, "create", "delete") {
            Ok(Action::Replace)
        } else if is_word(actions, "read") {
            Ok(Action::Read)
        } else if is_word(actions, "no-op") {
            Ok(Action::NoOp)
        } else {
            let mut words: Vec<String> = Vec::new();
            let mut i: usize = 0;
            while i < actions.len()
                invariant
                    i <= actions@.len(),
                    words@ == actions@.take(i as int),
                decreases actions@.len() - i,
            {
                words.push(actions[i].clone());
                i += 1;
                assert(actions@.take(i as int) =~= actions@.take(i - 1).push(actions@[i - 1]));
            }
            assert(words@ =~= actions@);
            Err(ActionError { actions: words })
        }
    }

    /// Compact glyph used in digests and tree labels.
    pub fn glyph(&self) -> (r: &'static str)
        ensures
            r@ == glyph_of(*self),
    {
        match self {
            Action::Create => "+",
            Action::Update => "~",
            Action::Delete => "-",
            Action::Replace => "-/+",
            Action::Read => ">",
            Action::NoOp => " ",
        }
    }

    /// The action's name.
    pub fn label(&self) -> (r: &'static str)
        ensures
            r@ == label_of(*self),
    {
        match self {
            Action::Create => "create",
            Action::Update => "update",
            Action::Delete => "delete",
            Action::Replace => "replace",
            Action::Read => "read",
            Action::NoOp => "no-op",
        }
    }
}

/// What is said of an `actions` array that stands for no action, given its
/// words in quotes.
pub open spec fn unrecognized_text(quoted_words: Seq<Seq<char>>) -> Seq<char> {
    "unrecognized action set: ["@ + joined(quoted_words, ", "@) + "]"@
}

/// What is said of an `actions` array that stands for no action, given its
/// words in quotes.
pub fn unrecognized_message(quoted_words: &Vec<String>) -> (r: String)
    ensures
        r@ == unrecognized_text(texts(quoted_words@)),
{
    let mut out = "unrecognized action set: [".to_owned();
    out.append(join(quoted_words, ", ").as_str());
    out.append("]");
    out
}

impl ActionError {
    /// The error as a line of text.
    pub fn message(&self) -> (r: String)
        ensures
            r@ == unrecognized_text(
                texts(self.actions@).map_values(|w: Seq<char>| debug_text(w)),
            ),
    {
        let mut words: Vec<String> = Vec::new();
        let mut i: usize = 0;
        while i < self.actions.len()
            invariant
                i <= self.actions@.len(),
                words@.len() == i,
                forall|k: int| 0 <= k < i ==> (#[trigger] words@[k])@ == debug_text(self.actions@[k]@),
            decreases self.actions@.len() - i,
        {
            words.push(quoted(self.actions[i].as_str()));
            i += 1;
        }
        assert(texts(words@) =~= texts(self.actions@).map_values(|w: Seq<char>| debug_text(w)));
        unrecognized_message(&words)
    }
}

// ---------------------------------------------------------------------------
// Plans
// ---------------------------------------------------------------------------

/// Why a document is no plan that can be shown.
#[derive(Debug)]
pub enum PlanError {
    /// The text is not a plan document; the decoder's message.
    Decode(String),
    /// The document has a format version that is not supported.
    UnsupportedFormat(String),
}

/// The format versions that are supported.
pub open spec fn supported(version: Seq<char>) -> bool {
    version == "1.0"@ || version == "1.1"@ || version == "1.2"@
}

/// What is said of a format version that is not supported, given it in quotes.
pub open spec fn unsupported_text(quoted_version: Seq<char>) -> Seq<char> {
    "unsupported plan format_version "@ + quoted_version + " (supported: 1.0, 1.1, 1.2)"@
}

/// What is said of a format version that is not supported, given it in quotes.
pub fn unsupported_message(quoted_version: &str) -> (r: String)
    ensures
        r@ == unsupported_text(quoted_version@),
{
    let mut out = "unsupported plan format_version ".to_owned();
    out.append(quoted_version);
    out.append(" (supported: 1.0, 1.1, 1.2)");
    out
}

impl PlanError {
    /// The text of the error.
    pub open spec fn text(self) -> Seq<char> {
        match self {
            PlanError::Decode(m) => m@,
            PlanError::UnsupportedFormat(v) => unsupported_text(debug_text(v@)),
        }
    }

    /// The error as a line of text.
    pub fn message(&self) -> (r: String)
        ensures
            r@ == self.text(),
    {
        match self {
            PlanError::Decode(m) => m.clone(),
            PlanError::UnsupportedFormat(v) => unsupported_message(quoted(v.as_str()).as_str()),
        }
    }
}

/// How many resources a plan adds, changes and destroys.
#[derive(Debug, Clone, Copy, PartialEq, Eq, Structural)]
pub struct ChangeCounts {
    pub add: usize,
    pub change: usize,
    pub destroy: usize,
}

/// Whether a change has an action that `kind` accepts.
pub open spec fn acts(rc: ResourceChangeView, kind: spec_fn(Action) -> bool) -> bool {
    action_of(rc.change.actions) matches Some(a) && kind(a)
}

/// How many of `changes` have an action that `kind` accepts.
pub open spec fn tally(changes: Seq<ResourceChangeView>, kind: spec_fn(Action) -> bool) -> nat {
    changes.filter(|rc: ResourceChangeView| acts(rc, kind)).len()
}

/// A resource is added where it is created or replaced.
pub open spec fn adds(a: Action) -> bool {
    a is Create || a is Replace
}

/// A resource is destroyed where it is deleted or replaced.
pub open spec fn destroys(a: Action) -> bool {
    a is Delete || a is Replace
}

proof fn tally_step(changes: Seq<ResourceChangeView>, i: int, kind: spec_fn(Action) -> bool)
    requires
        0 <= i < changes.len(),
    ensures
        tally(changes.take(i + 1), kind) == tally(changes.take(i), kind) + (if acts(
            changes[i],
            kind,
        ) {
            1nat
        } else {
            0nat
        }),
{
    filter_take(changes, i, |rc: ResourceChangeView| acts(rc, kind));
}

/// The footer line of a plan.
pub open spec fn plan_footer(plan: PlanView) -> Seq<char> {
    footer_line(
        tally(plan.resource_changes, |a: Action| adds(a)),
        tally(plan.resource_changes, |a: Action| a is Update),
        tally(plan.resource_changes, |a: Action| destroys(a)),
    )
}

/// `{add} to add, {change} to change, {destroy} to destroy`.
pub open spec fn footer_line(add: nat, change: nat, destroy: nat) -> Seq<char> {
    decimal(add) + " to add, "@ + decimal(change) + " to change, "@ + decimal(destroy)
        + " to destroy"@
}

impl ChangeCounts {
    /// The counts as one line: `2 to add, 1 to change, 0 to destroy`.
    pub fn footer(&self) -> (r: String)
        ensures
            r@ == footer_line(self.add as nat, self.change as nat, self.destroy as nat),
    {
        let mut out = decimal_text(self.add as u128);
        out.append(" to add, ");
        out.append(decimal_text(self.change as u128).as_str());
        out.append(" to change, ");
        out.append(decimal_text(self.destroy as u128).as_str());
        out.append(" to destroy");
        out
    }
}

impl Plan {
    /// Accepts a decoded document whose format version is supported. `decoded`
    /// is what the decoder made of the text: the document, or its message.
    pub fn parse(decoded: Result<Plan, String>) -> (r: Result<Plan, PlanError>)
        ensures
            match decoded {
                Err(m) => r matches Err(PlanError::Decode(t)) && t == m,
                Ok(plan) => if supported(plan.format_version@) {
                    r == Ok::<Plan, PlanError>(plan)
                } else {
                    r matches Err(PlanError::UnsupportedFormat(v)) && v == plan.format_version
                },
            },
    {
        match decoded {
            Err(m) => Err(PlanError::Decode(m)),
            Ok(plan) => {
                let version = plan.format_version.as_str();
                if same(version, "1.0") || same(version, "1.1") || same(version, "1.2") {
                    Ok(plan)
                } else {
                    Err(PlanError::UnsupportedFormat(plan.format_version))
                }
            },
        }
    }

    /// Whether the number of changes fits a machine integer.
    pub open spec fn countable(self) -> bool {
        self.resource_changes@.len() + self.resource_drift@.len() <= usize::MAX
    }

    /// Total resource changes (resource_changes + resource_drift).
    pub fn total_changes(&self) -> (r: usize)
        requires
            self.countable(),
        ensures
            r == self@.resource_changes.len() + self@.resource_drift.len(),
    {
        self.resource_changes.len() + self.resource_drift.len()
    }

    /// True if every change is a no-op (what `terraform show -json` emits
    /// for a plan with no pending changes).
    pub fn is_empty_plan(&self) -> (r: bool)
        ensures
            r == (self@.resource_drift.len() == 0 && forall|i: int|
                0 <= i < self@.resource_changes.len() ==> action_of(
                    (#[trigger] self@.resource_changes[i]).change.actions,
                ) == Some(Action::NoOp)),
    {
        if self.resource_drift.len() > 0 {
            return false;
        }
        let mut i: usize = 0;
        while i < self.resource_changes.len()
            invariant
                i <= self.resource_changes@.len(),
                forall|k: int|
                    0 <= k < i ==> action_of((#[trigger] self@.resource_changes[k]).change.actions)
                        == Some(Action::NoOp),
            decreases self.resource_changes@.len() - i,
        {
            assert(self@.resource_changes[i as int] == self.resource_changes@[i as int]@);
            match Action::from_actions(self.resource_changes[i].change.actions.as_slice()) {
                Ok(Action::NoOp) => {},
                _ => {
                    return false;
                },
            }
            i += 1;
        }
        true
    }

    /// How many resources the plan adds, changes and destroys. A replacement
    /// counts as one to add and one to destroy; drift is not counted.
    pub fn change_counts(&self) -> (r: ChangeCounts)
        ensures
            r.add == tally(self@.resource_changes, |a: Action| adds(a)),
            r.change == tally(self@.resource_changes, |a: Action| a is Update),
            r.destroy == tally(self@.resource_changes, |a: Action| destroys(a)),
    {
        let ghost all = self@.resource_changes;
        let ghost add_kind = |a: Action| adds(a);
        let ghost change_kind = |a: Action| a is Update;
        let ghost destroy_kind = |a: Action| destroys(a);
        let mut add: usize = 0;
        let mut change: usize = 0;
        let mut destroy: usize = 0;
        let mut i: usize = 0;
        proof {
            reveal(Seq::filter);
        }
        while i < self.resource_changes.len()
            invariant
                i <= self.resource_changes@.len(),
                all == self@.resource_changes,
                add_kind == |a: Action| adds(a),
                change_kind == |a: Action| a is Update,
                destroy_kind == |a: Action| destroys(a),
                add <= i,
                change <= i,
                destroy <= i,
                add == tally(all.take(i as int), add_kind),
                change == tally(all.take(i as int), change_kind),
                destroy == tally(all.take(i as int), destroy_kind),
            decreases self.resource_changes@.len() - i,
        {
            assert(all[i as int] == self.resource_changes@[i as int]@);
            proof {
                tally_step(all, i as int, add_kind);
                tally_step(all, i as int, change_kind);
                tally_step(all, i as int, destroy_kind);
            }
            match Action::from_actions(self.resource_changes[i].change.actions.as_slice()) {
                Ok(Action::Create) => {
                    add += 1;
                },
                Ok(Action::Update) => {
                    change += 1;
                },
                Ok(Action::Delete) => {
                    destroy += 1;
                },
                Ok(Action::Replace) => {
                    add += 1;
                    destroy += 1;
                },
                _ => {},
            }
            i += 1;
        }
        assert(all.take(i as int) =~= all);
        ChangeCounts { add, change, destroy }
    }
}

// ---------------------------------------------------------------------------
// Laws
// ---------------------------------------------------------------------------

/// An action goes by its name: one word stands for the action that is called by
/// it, in two words only `delete` and `create` stand for one, in either order,
/// and no other number of words does.
pub proof fn actions_go_by_their_names(words: Seq<Seq<char>>, a: Action)
    ensures
        action_of(words) == Some(a) ==> (if a is Replace {
            words.len() == 2 && ((words[0] == "delete"@ && words[1] == "create"@) || (words[0]
                == "create"@ && words[1] == "delete"@))
        } else {
            words.len() == 1 && words[0] == label_of(a)
        }),
        !(a is Replace) ==> action_of(seq![label_of(a)]) == Some(a),
        action_of(seq!["delete"@, "create"@]) == Some(Action::Replace),
        action_of(seq!["create"@, "delete"@]) == Some(Action::Replace),
{
    reveal_strlit("create");
    reveal_strlit("update");
    reveal_strlit("delete");
    reveal_strlit("read");
    reveal_strlit("no-op");
    assert("create"@[0] == 'c' && "update"@[0] == 'u' && "delete"@[0] == 'd' && "read"@[0] == 'r'
        && "no-op"@[0] == 'n');
    let one = seq![label_of(a)];
    assert(one[0] == label_of(a) && one.len() == 1);
    assert(seq!["create"@][0] == "create"@);
    assert(seq!["update"@][0] == "update"@);
    assert(seq!["delete"@][0] == "delete"@);
    assert(seq!["read"@][0] == "read"@);
    assert(seq!["no-op"@][0] == "no-op"@);
    let dc = seq!["delete"@, "create"@];
    let cd = seq!["create"@, "delete"@];
    assert(dc.len() == 2 && cd.len() == 2);
    assert(dc[0] == "delete"@ && dc[1] == "create"@);
    assert(cd[0] == "create"@ && cd[1] == "delete"@);
}

/// Glyphs tell the actions apart: a minus begins those of what is destroyed, a
/// plus ends those of what is created, and a replacement has both.
pub proof fn glyphs_tell_actions_apart(a: Action, b: Action)
    ensures
        glyph_of(a) == glyph_of(b) ==> a == b,
        glyph_of(a).len() > 0,
        glyph_of(a)[0] == '-' <==> a is Delete || a is Replace,
        glyph_of(a).last() == '+' <==> a is Create || a is Replace,
        glyph_of(a) == seq!['~'] <==> a is Update,
        glyph_of(a) == seq!['>'] <==> a is Read,
        glyph_of(a) == seq![' '] <==> a is NoOp,
{
    reveal_strlit("+");
    reveal_strlit("~");
    reveal_strlit("-");
    reveal_strlit("-/+");
    reveal_strlit(">");
    reveal_strlit(" ");
    assert("+"@[0] == '+' && "~"@[0] == '~' && "-"@[0] == '-' && ">"@[0] == '>' && " "@[0] == ' ');
    assert("-/+"@.len() == 3 && "-/+"@[0] == '-' && "-/+"@[2] == '+');
    assert("~"@ =~= seq!['~']);
    assert(">"@ =~= seq!['>']);
    assert(" "@ =~= seq![' ']);
}

/// Exactly the versions 1.0, 1.1 and 1.2 are supported.
pub proof fn three_versions_are_supported(version: Seq<char>)
    ensures
        supported(version) <==> version.len() == 3 && version[0] == '1' && version[1] == '.' && (
        version[2] == '0' || version[2] == '1' || version[2] == '2'),
{
    reveal_strlit("1.0");
    reveal_strlit("1.1");
    reveal_strlit("1.2");
    if version.len() == 3 && version[0] == '1' && version[1] == '.' {
        if version[2] == '0' {
            assert(version =~= "1.0"@);
        }
        if version[2] == '1' {
            assert(version =~= "1.1"@);
        }
        if version[2] == '2' {
            assert(version =~= "1.2"@);
        }
    }
}

proof fn tally_one_more(changes: Seq<ResourceChangeView>, rc: ResourceChangeView, kind: spec_fn(
    Action,
) -> bool)
    ensures
        tally(changes.push(rc), kind) == tally(changes, kind) + (if acts(rc, kind) {
            1nat
        } else {
            0nat
        }),
{
    let all = changes.push(rc);
    tally_step(all, changes.len() as int, kind);
    assert(all.take(changes.len() as int + 1) =~= all);
    assert(all.take(changes.len() as int) =~= changes);
}

/// The footer counts each change for what it does: a plan without changes has
/// nothing to add, change or destroy, and each change more adds one to what its
/// action says, a replacement to both what is added and what is destroyed. Drift
/// does not count.
pub proof fn footer_counts_each_change(plan: PlanView, more: PlanView, rc: ResourceChangeView)
    requires
        more.resource_changes == plan.resource_changes.push(rc),
    ensures
        plan.resource_changes.len() == 0 ==> plan_footer(plan) == footer_line(0, 0, 0),
        exists|add: nat, change: nat, destroy: nat|
            #![trigger footer_line(add, change, destroy)]
            plan_footer(plan) == footer_line(add, change, destroy) && plan_footer(more) == (
            match action_of(rc.change.actions) {
                Some(Action::Create) => footer_line(add + 1, change, destroy),
                Some(Action::Update) => footer_line(add, change + 1, destroy),
                Some(Action::Delete) => footer_line(add, change, destroy + 1),
                Some(Action::Replace) => footer_line(add + 1, change, destroy + 1),
                _ => footer_line(add, change, destroy),
            }),
{
    let add_kind = |a: Action| adds(a);
    let change_kind = |a: Action| a is Update;
    let destroy_kind = |a: Action| destroys(a);
    let changes = plan.resource_changes;
    tally_one_more(changes, rc, add_kind);
    tally_one_more(changes, rc, change_kind);
    tally_one_more(changes, rc, destroy_kind);
    let add = tally(changes, add_kind);
    let change = tally(changes, change_kind);
    let destroy = tally(changes, destroy_kind);
    assert(plan_footer(plan) == footer_line(add, change, destroy));
    if changes.len() == 0 {
        reveal(Seq::filter);
    }
}

/// The footer says how many there are of each, in this order.
pub proof fn footer_says_how_many(add: nat, change: nat, destroy: nat)
    ensures
        footer_line(add, change, destroy) == decimal(add) + (" to add, "@ + decimal(change)) + (
        " to change, "@ + decimal(destroy)) + " to destroy"@,
{
    assert(footer_line(add, change, destroy) =~= decimal(add) + (" to add, "@ + decimal(change)) + (
    " to change, "@ + decimal(destroy)) + " to destroy"@);
}

/// An error says what was wrong: the decoder's own message; the version that is
/// not supported, in quotes; and of an unknown action each of its words, in
/// order, with a comma and a space between them.
pub proof fn errors_say_what_was_wrong(
    message: String,
    version: String,
    words: Seq<Seq<char>>,
    more: Seq<Seq<char>>,
)
    ensures
        PlanError::Decode(message).text() == message@,
        ({
            let text = PlanError::UnsupportedFormat(version).text();
            let shown = debug_text(version@);
            let front = "unsupported plan format_version "@;
            &&& text.len() >= front.len() + shown.len()
            &&& text.take(front.len() as int) == front
            &&& text.subrange(front.len() as int, (front.len() + shown.len()) as int) == shown
            &&& text.skip((front.len() + shown.len()) as int) == " (supported: 1.0, 1.1, 1.2)"@
        }),
        words.len() == 0 ==> unrecognized_text(words) == "unrecognized action set: []"@,
        words.len() == 1 ==> unrecognized_text(words) == "unrecognized action set: ["@ + words[0]
            + "]"@,
        words.len() > 0 && more.len() > 0 ==> {
            let front = "unrecognized action set: ["@;
            &&& unrecognized_text(words).len() > 0
            &&& unrecognized_text(words + more) == unrecognized_text(words).drop_last() + ", "@
                + unrecognized_text(more).skip(front.len() as int)
        },
{
    let front = "unsupported plan format_version "@;
    let shown = debug_text(version@);
    let back = " (supported: 1.0, 1.1, 1.2)"@;
    let text = PlanError::UnsupportedFormat(version).text();
    assert(text == front + shown + back);
    assert(text.take(front.len() as int) =~= front);
    assert(text.subrange(front.len() as int, (front.len() + shown.len()) as int) =~= shown);
    assert(text.skip((front.len() + shown.len()) as int) =~= back);
    reveal_strlit("unrecognized action set: []");
    reveal_strlit("unrecognized action set: [");
    reveal_strlit("]");
    joining_separates_neighbours(words, more, ", "@);
    let open = "unrecognized action set: ["@;
    if words.len() == 0 {
        assert(unrecognized_text(words) =~= "unrecognized action set: []"@);
    }
    if words.len() > 0 && more.len() > 0 {
        assert(unrecognized_text(words).drop_last() =~= open + joined(words, ", "@));
        assert(unrecognized_text(more).skip(open.len() as int) =~= joined(more, ", "@) + "]"@);
        assert(unrecognized_text(words + more) =~= unrecognized_text(words).drop_last() + ", "@
            + unrecognized_text(more).skip(open.len() as int));
    }
}

/// A view leaves nothing out: each change of a plan, drift included, is seen in
/// its place, and each field of a change as it is.
pub proof fn plans_are_seen_whole(plan: Plan, rc: ResourceChange, i: int)
    ensures
        plan@.format_version == plan.format_version@,
        plan@.resource_changes.len() == plan.resource_changes@.len(),
        plan@.resource_drift.len() == plan.resource_drift@.len(),
        0 <= i < plan.resource_changes@.len() ==> plan@.resource_changes[i]
            == plan.resource_changes@[i]@,
        0 <= i < plan.resource_drift@.len() ==> plan@.resource_drift[i] == plan.resource_drift@[i]@,
        rc@.address == rc.address@,
        rc@.resource_type == rc.resource_type@,
        rc@.change.actions.len() == rc.change.actions@.len(),
        0 <= i < rc.change.actions@.len() ==> rc@.change.actions[i] == rc.change.actions@[i]@,
        rc.change.before matches Some(v) ==> rc@.change.before == Some(v@),
        rc.change.after matches Some(v) ==> rc@.change.after == Some(v@),
        rc.change.after_unknown matches Some(v) ==> rc@.change.after_unknown == Some(v@),
        rc.change.before_sensitive matches Some(v) ==> rc@.change.before_sensitive == Some(v@),
        rc.change.after_sensitive matches Some(v) ==> rc@.change.after_sensitive == Some(v@),
        rc.change.before is None ==> rc@.change.before is None,
        rc.change.after is None ==> rc@.change.after is None,
        rc.change.after_unknown is None ==> rc@.change.after_unknown is None,
        rc.change.before_sensitive is None ==> rc@.change.before_sensitive is None,
        rc.change.after_sensitive is None ==> rc@.change.after_sensitive is None,
{
}

} // verus!
