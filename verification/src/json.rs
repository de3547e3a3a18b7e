//! JSON values as the digest reads them.

use vstd::prelude::*;

use serde_json::Value;

use crate::text::{same, text_lt};

verus! {

/// A JSON value. A number is held as the text it is shown as; the members of
/// an object are held in the order in which they are walked.
#[derive(Debug)]
pub enum Json {
    Null,
    Bool(bool),
    Number(String),
    Str(String),
    Array(Vec<Json>),
    Object(Vec<(String, Json)>),
}

/// What a [`Json`] value stands for.
pub enum JsonView {
    Null,
    Bool(bool),
    Number(Seq<char>),
    Str(Seq<char>),
    Array(Seq<JsonView>),
    Object(Seq<(Seq<char>, JsonView)>),
}

impl View for Json {
    type V = JsonView;

    open spec fn view(&self) -> JsonView
        decreases self,
    {
        match self {
            Json::Null => JsonView::Null,
            Json::Bool(b) => JsonView::Bool(*b),
            Json::Number(t) => JsonView::Number(t@),
            Json::Str(t) => JsonView::Str(t@),
            Json::Array(items) => JsonView::Array(
                Seq::new(
                    items@.len(),
                    |i: int|
                        if 0 <= i < items@.len() {
                            items@[i].view()
                        } else {
                            JsonView::Null
                        },
                ),
            ),
            Json::Object(members) => JsonView::Object(
                Seq::new(
                    members@.len(),
                    |i: int|
                        if 0 <= i < members@.len() {
                            (members@[i].0@, members@[i].1.view())
                        } else {
                            (Seq::<char>::empty(), JsonView::Null)
                        },
                ),
            ),
        }
    }
}

// ---------------------------------------------------------------------------
// Reading what serde_json parsed
// ---------------------------------------------------------------------------

/// `serde_json::Value`, carried through and read by [`open_value`] alone.
#[verifier::external_type_specification]
#[verifier::external_body]
pub struct ExValue(Value);

/// What a `serde_json::Value` holds: a number by the text that its `Display`
/// gives, an object by its members in the order in which its map is walked.
pub uninterp spec fn value_view(v: Value) -> JsonView;

/// One level of a `serde_json::Value`.
pub enum Node {
    Null,
    Bool(bool),
    Number(String),
    Str(String),
    Array(Vec<Value>),
    Object(Vec<(String, Value)>),
}

/// What one level stands for, given what the values below it hold.
pub open spec fn node_view(n: Node) -> JsonView {
    match n {
        Node::Null => JsonView::Null,
        Node::Bool(b) => JsonView::Bool(b),
        Node::Number(t) => JsonView::Number(t@),
        Node::Str(t) => JsonView::Str(t@),
        Node::Array(items) => JsonView::Array(items@.map_values(|v: Value| value_view(v))),
        Node::Object(members) => JsonView::Object(
            members@.map_values(|m: (String, Value)| (m.0@, value_view(m.1))),
        ),
    }
}

/// Whether the keys of `members` ascend, so that none occurs twice.
pub open spec fn ascending(members: Seq<(Seq<char>, JsonView)>) -> bool {
    forall|i: int, j: int|
        0 <= i < j < members.len() ==> text_lt(#[trigger] members[i].0, #[trigger] members[j].0)
}

/// Takes a `serde_json::Value` apart: the variants of the enum, `Number`'s
/// `to_string`, and `Map`'s `into_iter`, which walks the members by ascending
/// key and meets no key twice.
#[verifier::external_body]
fn open_value(v: Value) -> (r: Node)
    ensures
        node_view(r) == value_view(v),
        node_view(r) matches JsonView::Object(members) ==> ascending(members),
{
    match v {
        Value::Null => Node::Null,
        Value::Bool(b) => Node::Bool(b),
        Value::Number(n) => Node::Number(n.to_string()),
        Value::String(s) => Node::Str(s),
        Value::Array(items) => Node::Array(items),
        Value::Object(members) => Node::Object(members.into_iter().collect()),
    }
}

/// Whether the keys of every object in `v` ascend.
pub open spec fn well_formed(v: JsonView) -> bool
    decreases v,
{
    match v {
        JsonView::Array(items) => forall|i: int|
            0 <= i < items.len() ==> well_formed(#[trigger] items[i]),
        JsonView::Object(members) => {
            &&& ascending(members)
            &&& forall|i: int| 0 <= i < members.len() ==> well_formed((#[trigger] members[i]).1)
        },
        _ => true,
    }
}

impl Json {
    /// The value that `serde_json` holds, in the library's own form.
    pub fn from_value(v: Value) -> (r: Json)
        ensures
            r@ == value_view(v),
            well_formed(r@),
        decreases value_view(v),
    {
        let ghost whole = value_view(v);
        match open_value(v) {
            Node::Null => Json::Null,
            Node::Bool(b) => Json::Bool(b),
            Node::Number(t) => Json::Number(t),
            Node::Str(t) => Json::Str(t),
            Node::Array(items) => {
                let ghost all = items@;
                let mut out: Vec<Json> = Vec::new();
                for item in it: items
                    invariant
                        whole == value_view(v),
                        whole == JsonView::Array(all.map_values(|v: Value| value_view(v))),
                        it.seq() == all,
                        out@.len() == it.index(),
                        forall|i: int|
                            0 <= i < out@.len() ==> (#[trigger] out@[i])@ == value_view(all[i])
                                && well_formed(out@[i]@),
                {
                    assert(whole->Array_0[it.index()] == value_view(item));
                    assert(decreases_to!(whole => whole->Array_0[it.index()]));
                    out.push(Json::from_value(item));
                }
                let r = Json::Array(out);
                assert(r@->Array_0 =~= whole->Array_0);
                r
            },
            Node::Object(members) => {
                let ghost all = members@;
                let mut out: Vec<(String, Json)> = Vec::new();
                for member in it: members
                    invariant
                        whole == value_view(v),
                        whole == JsonView::Object(
                            all.map_values(|m: (String, Value)| (m.0@, value_view(m.1))),
                        ),
                        it.seq() == all,
                        out@.len() == it.index(),
                        forall|i: int|
                            0 <= i < out@.len() ==> (#[trigger] out@[i]).0@ == all[i].0@
                                && out@[i].1@ == value_view(all[i].1) && well_formed(out@[i].1@),
                {
                    assert(whole->Object_0[it.index()] == (member.0@, value_view(member.1)));
                    assert(decreases_to!(whole => whole->Object_0[it.index()].1));
                    out.push((member.0, Json::from_value(member.1)));
                }
                let r = Json::Object(out);
                assert(r@->Object_0 =~= whole->Object_0);
                r
            },
        }
    }
}

/// What the members of an object stand for.
pub open spec fn member_views(members: Seq<(String, Json)>) -> Seq<(Seq<char>, JsonView)> {
    members.map_values(|m: (String, Json)| (m.0@, m.1@))
}

/// An object is viewed member by member.
pub proof fn object_view(members: Vec<(String, Json)>)
    ensures
        Json::Object(members)@ == JsonView::Object(member_views(members@)),
{
    reveal_with_fuel(<Json as View>::view, 2);
    assert(Json::Object(members)@->Object_0 =~= member_views(members@));
}

impl Clone for Json {
    fn clone(&self) -> (r: Self)
        ensures
            r@ == self@,
        decreases self,
    {
        match self {
            Json::Null => Json::Null,
            Json::Bool(b) => Json::Bool(*b),
            Json::Number(t) => Json::Number(t.clone()),
            Json::Str(t) => Json::Str(t.clone()),
            Json::Array(items) => {
                let mut out: Vec<Json> = Vec::new();
                let mut i: usize = 0;
                while i < items.len()
                    invariant
                        *self == Json::Array(*items),
                        i <= items@.len(),
                        out@.len() == i,
                        forall|k: int| 0 <= k < i ==> (#[trigger] out@[k])@ == items@[k]@,
                    decreases items@.len() - i,
                {
                    assert(decreases_to!(*self => self->Array_0));
                    assert(decreases_to!(self->Array_0 => self->Array_0@));
                    assert(decreases_to!(self->Array_0@ => self->Array_0@[i as int]));
                    out.push(items[i].clone());
                    i += 1;
                }
                let r = Json::Array(out);
                assert(r@->Array_0 =~= self@->Array_0);
                r
            },
            Json::Object(members) => {
                let mut out: Vec<(String, Json)> = Vec::new();
                let mut i: usize = 0;
                while i < members.len()
                    invariant
                        *self == Json::Object(*members),
                        i <= members@.len(),
                        out@.len() == i,
                        forall|k: int|
                            0 <= k < i ==> (#[trigger] out@[k]).0@ == members@[k].0@ && out@[k].1@
                                == members@[k].1@,
                    decreases members@.len() - i,
                {
                    assert(decreases_to!(*self => self->Object_0));
                    assert(decreases_to!(self->Object_0@ => self->Object_0@[i as int].1));
                    out.push((members[i].0.clone(), members[i].1.clone()));
                    i += 1;
                }
                let r = Json::Object(out);
                proof {
                    object_view(out);
                    object_view(*members);
                }
                assert(r@->Object_0 =~= self@->Object_0);
                r
            },
        }
    }
}

// ---------------------------------------------------------------------------
// Equality
// ---------------------------------------------------------------------------

/// Whether `t` shows a floating-point zero, of either sign.
pub open spec fn shows_zero(t: Seq<char>) -> bool {
    t == "0.0"@ || t == "-0.0"@
}

/// Whether two numbers are equal, by the texts they are shown as. The text
/// determines the number, and only the two floating-point zeros are equal under
/// different texts.
pub open spec fn number_eq(a: Seq<char>, b: Seq<char>) -> bool {
    a == b || (shows_zero(a) && shows_zero(b))
}

/// Equality of JSON values.
pub open spec fn json_eq(a: JsonView, b: JsonView) -> bool
    decreases a,
{
    match (a, b) {
        (JsonView::Null, JsonView::Null) => true,
        (JsonView::Bool(x), JsonView::Bool(y)) => x == y,
        (JsonView::Number(x), JsonView::Number(y)) => number_eq(x, y),
        (JsonView::Str(x), JsonView::Str(y)) => x == y,
        (JsonView::Array(x), JsonView::Array(y)) => {
            &&& x.len() == y.len()
            &&& forall|i: int| 0 <= i < x.len() ==> json_eq(#[trigger] x[i], y[i])
        },
        (JsonView::Object(x), JsonView::Object(y)) => {
            &&& x.len() == y.len()
            &&& forall|i: int|
                0 <= i < x.len() ==> (#[trigger] x[i]).0 == y[i].0 && json_eq(x[i].1, y[i].1)
        },
        _ => false,
    }
}

fn number_equals(a: &String, b: &String) -> (r: bool)
    ensures
        r == number_eq(a@, b@),
{
    same(a.as_str(), b.as_str()) || ((same(a.as_str(), "0.0") || same(a.as_str(), "-0.0")) && (same(
        b.as_str(),
        "0.0",
    ) || same(b.as_str(), "-0.0")))
}

impl Json {
    /// Whether two values are equal.
    pub fn equals(&self, other: &Json) -> (r: bool)
        ensures
            r == json_eq(self@, other@),
        decreases self,
    {
        match (self, other) {
            (Json::Null, Json::Null) => true,
            (Json::Bool(x), Json::Bool(y)) => *x == *y,
            (Json::Number(x), Json::Number(y)) => number_equals(x, y),
            (Json::Str(x), Json::Str(y)) => same(x.as_str(), y.as_str()),
            (Json::Array(x), Json::Array(y)) => {
                if x.len() != y.len() {
                    return false;
                }
                let mut i: usize = 0;
                while i < x.len()
                    invariant
                        *self == Json::Array(*x),
                        *other == Json::Array(*y),
                        i <= x@.len(),
                        x@.len() == y@.len(),
                        forall|k: int| 0 <= k < i ==> json_eq((#[trigger] x@[k])@, y@[k]@),
                    decreases x@.len() - i,
                {
                    if !x[i].equals(&y[i]) {
                        assert(!json_eq(self@->Array_0[i as int], other@->Array_0[i as int]));
                        return false;
                    }
                    i += 1;
                }
                true
            },
            (Json::Object(x), Json::Object(y)) => {
                proof {
                    object_view(*x);
                    object_view(*y);
                }
                if x.len() != y.len() {
                    return false;
                }
                let mut i: usize = 0;
                while i < x.len()
                    invariant
                        self@ == Json::Object(*x)@,
                        other@ == Json::Object(*y)@,
                        *self == Json::Object(*x),
                        i <= x@.len(),
                        x@.len() == y@.len(),
                        forall|k: int|
                            0 <= k < i ==> (#[trigger] x@[k]).0@ == y@[k].0@ && json_eq(
                                x@[k].1@,
                                y@[k].1@,
                            ),
                    decreases x@.len() - i,
                {
                    if !same(x[i].0.as_str(), y[i].0.as_str()) || !x[i].1.equals(&y[i].1) {
                        proof {
                            object_view(*x);
                            object_view(*y);
                        }
                        assert(self@->Object_0[i as int] == (x@[i as int].0@, x@[i as int].1@));
                        return false;
                    }
                    i += 1;
                }
                true
            },
            _ => false,
        }
    }
}

// ---------------------------------------------------------------------------
// Objects
// ---------------------------------------------------------------------------

/// The members of an object; none for any other value, or for no value.
pub open spec fn members_of(v: Option<JsonView>) -> Option<Seq<(Seq<char>, JsonView)>> {
    match v {
        Some(JsonView::Object(members)) => Some(members),
        _ => None,
    }
}

/// Whether a member named `key` occurs.
pub open spec fn has_key(members: Seq<(Seq<char>, JsonView)>, key: Seq<char>) -> bool {
    exists|i: int| 0 <= i < members.len() && (#[trigger] members[i]).0 == key
}

/// The value of the first member named `key`; null where there is none.
pub open spec fn lookup(members: Seq<(Seq<char>, JsonView)>, key: Seq<char>) -> JsonView
    decreases members.len(),
{
    if members.len() == 0 {
        JsonView::Null
    } else if members[0].0 == key {
        members[0].1
    } else {
        lookup(members.drop_first(), key)
    }
}

/// The value of the first member named `key`, if there is one.
pub fn find<'a>(members: &'a Vec<(String, Json)>, key: &str) -> (r: Option<&'a Json>)
    ensures
        r is Some <==> has_key(member_views(members@), key@),
        r is None ==> lookup(member_views(members@), key@) == JsonView::Null,
        r matches Some(v) ==> v@ == lookup(member_views(members@), key@),
{
    let ghost views = member_views(members@);
    let mut i: usize = 0;
    assert(views.skip(0) =~= views);
    while i < members.len()
        invariant
            i <= members@.len(),
            views == member_views(members@),
            lookup(views, key@) == lookup(views.skip(i as int), key@),
            forall|k: int| 0 <= k < i ==> (#[trigger] views[k]).0 != key@,
        decreases members@.len() - i,
    {
        assert(views.skip(i as int)[0] == views[i as int]);
        if same(members[i].0.as_str(), key) {
            return Some(&members[i].1);
        }
        assert(views.skip(i as int).drop_first() =~= views.skip(i + 1));
        i += 1;
    }
    None
}

// ---------------------------------------------------------------------------
// Laws
// ---------------------------------------------------------------------------

/// Whether no number in a value shows a floating-point zero.
pub open spec fn without_float_zeros(v: JsonView) -> bool
    decreases v,
{
    match v {
        JsonView::Number(t) => t != "0.0"@ && t != "-0.0"@,
        JsonView::Array(items) => forall|i: int|
            0 <= i < items.len() ==> without_float_zeros(#[trigger] items[i]),
        JsonView::Object(members) => forall|i: int|
            0 <= i < members.len() ==> without_float_zeros((#[trigger] members[i]).1),
        _ => true,
    }
}

/// Every value equals itself.
pub proof fn equality_is_reflexive(a: JsonView)
    ensures
        json_eq(a, a),
    decreases a,
{
    match a {
        JsonView::Array(x) => {
            assert forall|i: int| 0 <= i < x.len() implies json_eq(#[trigger] x[i], x[i]) by {
                equality_is_reflexive(x[i]);
            }
        },
        JsonView::Object(x) => {
            assert forall|i: int| 0 <= i < x.len() implies (#[trigger] x[i]).0 == x[i].0
                && json_eq(x[i].1, x[i].1) by {
                equality_is_reflexive(x[i].1);
            }
        },
        _ => {},
    }
}

/// Equality separates what differs: but for floating-point zeros, values are
/// equal if and only if they are the same.
pub proof fn equality_separates_what_differs(a: JsonView, b: JsonView)
    requires
        without_float_zeros(a),
    ensures
        json_eq(a, b) <==> a == b,
    decreases a,
{
    equality_is_reflexive(a);
    if json_eq(a, b) {
        match (a, b) {
            (JsonView::Array(x), JsonView::Array(y)) => {
                assert forall|i: int| 0 <= i < x.len() implies x[i] == y[i] by {
                    equality_separates_what_differs(x[i], y[i]);
                }
                assert(x =~= y);
            },
            (JsonView::Object(x), JsonView::Object(y)) => {
                assert forall|i: int| 0 <= i < x.len() implies x[i] == y[i] by {
                    equality_separates_what_differs(x[i].1, y[i].1);
                }
                assert(x =~= y);
            },
            _ => {},
        }
    }
}

/// Floating-point zeros are equal to each other, and to nothing else.
pub proof fn zeros_are_equal(t: Seq<char>)
    ensures
        json_eq(JsonView::Number("0.0"@), JsonView::Number("-0.0"@)),
        json_eq(JsonView::Number("-0.0"@), JsonView::Number("0.0"@)),
        t != "0.0"@ && t != "-0.0"@ ==> !json_eq(
            JsonView::Number("0.0"@),
            JsonView::Number(t),
        ) && !json_eq(JsonView::Number("-0.0"@), JsonView::Number(t)),
{
}

/// A member is found by its key wherever it stands, and where no member has the
/// key, null is.
pub proof fn members_are_found(members: Seq<(Seq<char>, JsonView)>, i: int, key: Seq<char>)
    ensures
        0 <= i < members.len() && members[i].0 == key && (forall|j: int|
            0 <= j < i ==> (#[trigger] members[j]).0 != key) ==> lookup(members, key)
            == members[i].1 && has_key(members, key),
        (forall|j: int| 0 <= j < members.len() ==> (#[trigger] members[j]).0 != key) ==> lookup(
            members,
            key,
        ) == JsonView::Null && !has_key(members, key),
    decreases members.len(),
{
    if members.len() > 0 {
        let rest = members.drop_first();
        members_are_found(rest, i - 1, key);
        if (forall|j: int| 0 <= j < i ==> (#[trigger] members[j]).0 != key) && 0 < i < members.len()
            && members[i].0 == key {
            assert(members[0].0 != key);
            assert forall|j: int| 0 <= j < i - 1 implies (#[trigger] rest[j]).0 != key by {
                assert(rest[j] == members[j + 1]);
            }
            assert(rest[i - 1] == members[i]);
        }
        if forall|j: int| 0 <= j < members.len() ==> (#[trigger] members[j]).0 != key {
            assert(members[0].0 != key);
            assert forall|j: int| 0 <= j < rest.len() implies (#[trigger] rest[j]).0 != key by {
                assert(rest[j] == members[j + 1]);
            }
        }
    }
}

} // verus!
