//! JSON documents as plain values.
//!
//! `serde_json` reads a document; what it read is turned, level by level, into a
//! tree of the library's own, on which all further logic works.

use crate::binary64::{is_finite, of_whole, Binary64, INFINITY, SIGN};
use crate::text::same;
use vstd::prelude::*;

verus! {

/// A number of a document: as a `u64` where it is one, and as a binary64 number.
#[derive(Debug, Clone, Copy, PartialEq, Eq, Structural)]
pub struct JsonNumber {
    pub whole: Option<u64>,
    pub float: Binary64,
}

/// A document.
#[derive(Debug)]
pub enum Json {
    Null,
    Bool(bool),
    Number(JsonNumber),
    Text(String),
    Array(Vec<Json>),
    /// The members of an object, each with its key.
    Object(Vec<(String, Json)>),
}

/// What a document says.
pub enum JsonView {
    Null,
    Bool(bool),
    Number(JsonNumber),
    Text(Seq<char>),
    Array(Seq<JsonView>),
    Object(Seq<(Seq<char>, JsonView)>),
}

impl View for Json {
    type V = JsonView;

    open spec fn view(&self) -> JsonView {
        tree(*self)
    }
}

/// What a document says.
pub open spec fn tree(j: Json) -> JsonView
    decreases j,
{
    match j {
        Json::Null => JsonView::Null,
        Json::Bool(b) => JsonView::Bool(b),
        Json::Number(n) => JsonView::Number(n),
        Json::Text(s) => JsonView::Text(s@),
        Json::Array(items) => JsonView::Array(
            Seq::new(
                items@.len(),
                |i: int|
                    if 0 <= i < items@.len() {
                        tree(items@[i])
                    } else {
                        JsonView::Null
                    },
            ),
        ),
        Json::Object(members) => JsonView::Object(
            Seq::new(
                members@.len(),
                |i: int|
                    if 0 <= i < members@.len() {
                        (members@[i].0@, tree(members@[i].1))
                    } else {
                        (Seq::empty(), JsonView::Null)
                    },
            ),
        ),
    }
}

// ---------------------------------------------------------------------------
// Reading text
// ---------------------------------------------------------------------------

/// A value that `serde_json` holds.
#[verifier::external_type_specification]
#[verifier::external_body]
pub struct ExValue(serde_json::Value);

/// What a `serde_json::Value` holds.
pub uninterp spec fn value_tree(v: serde_json::Value) -> JsonView;

/// What `serde_json::from_str` makes of a text read as a `Value`: a document, or
/// the message of its error.
pub uninterp spec fn document(text: Seq<char>) -> Result<JsonView, Seq<char>>;

/// What `serde_json::from_str` makes of a text read as a list of values: the
/// list, or the message of its error.
pub uninterp spec fn document_list(text: Seq<char>) -> Result<Seq<JsonView>, Seq<char>>;

/// The trees of some values.
pub open spec fn trees(values: Seq<serde_json::Value>) -> Seq<JsonView> {
    values.map_values(|v: serde_json::Value| value_tree(v))
}

/// The keys and trees of some members.
pub open spec fn member_trees(members: Seq<(String, serde_json::Value)>) -> Seq<
    (Seq<char>, JsonView),
> {
    members.map_values(|m: (String, serde_json::Value)| (m.0@, value_tree(m.1)))
}

/// One level of a document: its kind, with the values below it as they are.
enum Level {
    Null,
    Bool(bool),
    Number(JsonNumber),
    Text(String),
    Array(Vec<serde_json::Value>),
    Object(Vec<(String, serde_json::Value)>),
}

/// What a level says.
spec fn level_tree(l: Level) -> JsonView {
    match l {
        Level::Null => JsonView::Null,
        Level::Bool(b) => JsonView::Bool(b),
        Level::Number(n) => JsonView::Number(n),
        Level::Text(s) => JsonView::Text(s@),
        Level::Array(items) => JsonView::Array(trees(items@)),
        Level::Object(members) => JsonView::Object(member_trees(members@)),
    }
}

/// Calls `serde_json::from_str` for a `Value`. The outcome is the one named
/// `document`; an error is handed on as its message.
#[verifier::external_body]
fn read_value(text: &str) -> (r: Result<serde_json::Value, String>)
    ensures
        match r {
            Ok(v) => document(text@) == Ok::<JsonView, Seq<char>>(value_tree(v)),
            Err(e) => document(text@) == Err::<JsonView, Seq<char>>(e@),
        },
{
    serde_json::from_str(text).map_err(|e| e.to_string())
}

/// Calls `serde_json::from_str` for a list of `Value`s. The outcome is the one
/// named `document_list`; an error is handed on as its message.
#[verifier::external_body]
fn read_values(text: &str) -> (r: Result<Vec<serde_json::Value>, String>)
    ensures
        match r {
            Ok(v) => document_list(text@) == Ok::<Seq<JsonView>, Seq<char>>(trees(v@)),
            Err(e) => document_list(text@) == Err::<Seq<JsonView>, Seq<char>>(e@),
        },
{
    serde_json::from_str(text).map_err(|e| e.to_string())
}

/// Takes a `serde_json::Value` apart, one level deep. Its variants and their
/// fields are handed on as they are; a number gives `Number::as_u64` and the
/// encoding of `Number::as_f64`, and an object the entries of its map.
#[verifier::external_body]
fn open_value(v: serde_json::Value) -> (l: Level)
    ensures
        level_tree(l) == value_tree(v),
{
    match v {
        serde_json::Value::Null => Level::Null,
        serde_json::Value::Bool(b) => Level::Bool(b),
        serde_json::Value::Number(n) => Level::Number(JsonNumber {
            whole: n.as_u64(),
            float: Binary64 { bits: n.as_f64().unwrap_or_default().to_bits() },
        }),
        serde_json::Value::String(s) => Level::Text(s),
        serde_json::Value::Array(items) => Level::Array(items),
        serde_json::Value::Object(map) => Level::Object(map.into_iter().collect()),
    }
}

/// The library's tree of a value.
fn convert(v: serde_json::Value) -> (j: Json)
    ensures
        j@ == value_tree(v),
    decreases value_tree(v),
{
    let ghost whole = value_tree(v);
    match open_value(v) {
        Level::Null => Json::Null,
        Level::Bool(b) => Json::Bool(b),
        Level::Number(n) => Json::Number(n),
        Level::Text(s) => Json::Text(s),
        Level::Array(items) => {
            let ghost all = items@;
            assert(whole == JsonView::Array(trees(all)));
            let mut rest = items;
            let mut out: Vec<Json> = Vec::new();
            while rest.len() > 0
                invariant
                    whole == value_tree(v),
                    whole == JsonView::Array(trees(all)),
                    out@.len() + rest@.len() == all.len(),
                    rest@ == all.skip(out@.len() as int),
                    forall|i: int| 0 <= i < out@.len() ==> tree(#[trigger] out@[i]) == value_tree(
                        all[i],
                    ),
                decreases rest@.len(),
            {
                let ghost k = out@.len() as int;
                let item = rest.remove(0);
                proof {
                    assert(item == all[k]);
                    assert(whole->Array_0[k] == value_tree(item));
                    assert(decreases_to!(whole => whole->Array_0[k]));
                    assert(all.skip(k).remove(0) =~= all.skip(k + 1));
                }
                let j = convert(item);
                out.push(j);
            }
            let r = Json::Array(out);
            assert(tree(r)->Array_0 =~= trees(all));
            r
        },
        Level::Object(members) => {
            let ghost all = members@;
            assert(whole == JsonView::Object(member_trees(all)));
            let mut rest = members;
            let mut out: Vec<(String, Json)> = Vec::new();
            while rest.len() > 0
                invariant
                    whole == value_tree(v),
                    whole == JsonView::Object(member_trees(all)),
                    out@.len() + rest@.len() == all.len(),
                    rest@ == all.skip(out@.len() as int),
                    forall|i: int|
                        0 <= i < out@.len() ==> (#[trigger] out@[i]).0@ == all[i].0@ && tree(
                            out@[i].1,
                        ) == value_tree(all[i].1),
                decreases rest@.len(),
            {
                let ghost k = out@.len() as int;
                let (key, value) = rest.remove(0);
                proof {
                    assert(value == all[k].1);
                    assert(whole->Object_0[k].1 == value_tree(value));
                    assert(decreases_to!(whole => whole->Object_0[k].1));
                    assert(all.skip(k).remove(0) =~= all.skip(k + 1));
                }
                let j = convert(value);
                out.push((key, j));
            }
            let r = Json::Object(out);
            assert(tree(r)->Object_0 =~= member_trees(all));
            r
        },
    }
}

/// Reads a document.
pub fn parse_json(text: &str) -> (r: Result<Json, String>)
    ensures
        match r {
            Ok(j) => document(text@) == Ok::<JsonView, Seq<char>>(j@),
            Err(e) => document(text@) == Err::<JsonView, Seq<char>>(e@),
        },
{
    match read_value(text) {
        Ok(v) => Ok(convert(v)),
        Err(e) => Err(e),
    }
}

/// The trees of some documents.
pub open spec fn views(list: Seq<Json>) -> Seq<JsonView> {
    list.map_values(|j: Json| j@)
}

/// Reads a list of documents.
pub fn parse_json_list(text: &str) -> (r: Result<Vec<Json>, String>)
    ensures
        match r {
            Ok(l) => document_list(text@) == Ok::<Seq<JsonView>, Seq<char>>(views(l@)),
            Err(e) => document_list(text@) == Err::<Seq<JsonView>, Seq<char>>(e@),
        },
{
    match read_values(text) {
        Ok(values) => {
            let ghost all = values@;
            let mut rest = values;
            let mut out: Vec<Json> = Vec::new();
            while rest.len() > 0
                invariant
                    out@.len() + rest@.len() == all.len(),
                    rest@ == all.skip(out@.len() as int),
                    forall|i: int| 0 <= i < out@.len() ==> tree(#[trigger] out@[i]) == value_tree(
                        all[i],
                    ),
                decreases rest@.len(),
            {
                let ghost k = out@.len() as int;
                let item = rest.remove(0);
                assert(all.skip(k).remove(0) =~= all.skip(k + 1));
                out.push(convert(item));
            }
            assert(views(out@) =~= trees(all));
            Ok(out)
        },
        Err(e) => Err(e),
    }
}

// ---------------------------------------------------------------------------
// Looking inside
// ---------------------------------------------------------------------------

/// The value of the first member with this key.
pub open spec fn lookup(members: Seq<(Seq<char>, JsonView)>, key: Seq<char>) -> Option<JsonView>
    decreases members.len(),
{
    if members.len() == 0 {
        None
    } else if members[0].0 == key {
        Some(members[0].1)
    } else {
        lookup(members.skip(1), key)
    }
}

/// The member of an object; nothing else has one.
pub open spec fn field(j: JsonView, key: Seq<char>) -> Option<JsonView> {
    match j {
        JsonView::Object(members) => lookup(members, key),
        _ => None,
    }
}

/// The item of an array; nothing else has one.
pub open spec fn item(j: JsonView, i: int) -> Option<JsonView> {
    match j {
        JsonView::Array(items) => if 0 <= i < items.len() {
            Some(items[i])
        } else {
            None
        },
        _ => None,
    }
}

/// The member of a value that may be missing.
pub open spec fn field_of(j: Option<JsonView>, key: Seq<char>) -> Option<JsonView> {
    match j {
        Some(x) => field(x, key),
        None => None,
    }
}

/// The item of a value that may be missing.
pub open spec fn item_of(j: Option<JsonView>, i: int) -> Option<JsonView> {
    match j {
        Some(x) => item(x, i),
        None => None,
    }
}

/// The text of a value that may be missing; only a text has one.
pub open spec fn text_of(j: Option<JsonView>) -> Option<Seq<char>> {
    match j {
        Some(JsonView::Text(s)) => Some(s),
        _ => None,
    }
}

/// The `u64` of a value that may be missing; only a number that is one has one.
pub open spec fn whole_of(j: Option<JsonView>) -> Option<u64> {
    match j {
        Some(JsonView::Number(n)) => n.whole,
        _ => None,
    }
}

/// The binary64 number of a value that may be missing; only a number has one.
pub open spec fn float_of(j: Option<JsonView>) -> Option<Binary64> {
    match j {
        Some(JsonView::Number(n)) => Some(n.float),
        _ => None,
    }
}

/// The items of a value that may be missing; only an array has some.
pub open spec fn items_of(j: Option<JsonView>) -> Option<Seq<JsonView>> {
    match j {
        Some(JsonView::Array(items)) => Some(items),
        _ => None,
    }
}

/// The tree of a document that may be missing.
pub open spec fn opt_tree(j: Option<&Json>) -> Option<JsonView> {
    match j {
        Some(x) => Some(x@),
        None => None,
    }
}

/// The member of a document that may be missing.
pub fn get<'a>(j: Option<&'a Json>, key: &str) -> (r: Option<&'a Json>)
    ensures
        opt_tree(r) == field_of(opt_tree(j), key@),
{
    match j {
        Some(x) => match x {
            Json::Object(members) => {
                let ghost all = tree(*x)->Object_0;
                assert(all.skip(0) =~= all);
                for i in 0..members.len()
                    invariant
                        j == Some(x),
                        *x == Json::Object(*members),
                        all == tree(*x)->Object_0,
                        all.len() == members@.len(),
                        lookup(all, key@) == lookup(all.skip(i as int), key@),
                {
                    let (k, v) = &members[i];
                    assert(all.skip(i as int)[0] == (k@, v@));
                    assert(all.skip(i as int).skip(1) =~= all.skip(i + 1));
                    if same(k.as_str(), key) {
                        return Some(v);
                    }
                }
                None
            },
            _ => None,
        },
        None => None,
    }
}

/// The item of a document that may be missing.
pub fn at<'a>(j: Option<&'a Json>, i: usize) -> (r: Option<&'a Json>)
    ensures
        opt_tree(r) == item_of(opt_tree(j), i as int),
{
    match j {
        Some(x) => match x {
            Json::Array(items) => if i < items.len() {
                Some(&items[i])
            } else {
                None
            },
            _ => None,
        },
        None => None,
    }
}

/// The text of a document that may be missing.
pub fn as_text<'a>(j: Option<&'a Json>) -> (r: Option<&'a String>)
    ensures
        match r {
            Some(s) => text_of(opt_tree(j)) == Some(s@),
            None => text_of(opt_tree(j)) is None,
        },
{
    match j {
        Some(x) => match x {
            Json::Text(s) => Some(s),
            _ => None,
        },
        None => None,
    }
}

/// The `u64` of a document that may be missing.
pub fn as_whole(j: Option<&Json>) -> (r: Option<u64>)
    ensures
        r == whole_of(opt_tree(j)),
{
    match j {
        Some(x) => match x {
            Json::Number(n) => n.whole,
            _ => None,
        },
        None => None,
    }
}

/// The binary64 number of a document that may be missing.
pub fn as_float(j: Option<&Json>) -> (r: Option<Binary64>)
    ensures
        r == float_of(opt_tree(j)),
{
    match j {
        Some(x) => match x {
            Json::Number(n) => Some(n.float),
            _ => None,
        },
        None => None,
    }
}

/// The items of a document that may be missing.
pub fn as_items<'a>(j: Option<&'a Json>) -> (r: Option<&'a Vec<Json>>)
    ensures
        match r {
            Some(v) => items_of(opt_tree(j)) == Some(views(v@)),
            None => items_of(opt_tree(j)) is None,
        },
{
    match j {
        Some(x) => match x {
            Json::Array(items) => {
                assert(tree(*x)->Array_0 =~= views(items@));
                Some(items)
            },
            _ => None,
        },
        None => None,
    }
}

// ---------------------------------------------------------------------------
// Building documents
// ---------------------------------------------------------------------------

/// The keys and trees of some members.
pub open spec fn member_views(members: Seq<(String, Json)>) -> Seq<(Seq<char>, JsonView)> {
    members.map_values(|m: (String, Json)| (m.0@, m.1@))
}

/// An object says what its members say.
pub proof fn lemma_object(members: Vec<(String, Json)>)
    ensures
        Json::Object(members)@ == JsonView::Object(member_views(members@)),
{
    assert(tree(Json::Object(members))->Object_0 =~= member_views(members@));
}

/// An array says what its items say.
pub proof fn lemma_array(items: Vec<Json>)
    ensures
        Json::Array(items)@ == JsonView::Array(views(items@)),
{
    assert(tree(Json::Array(items))->Array_0 =~= views(items@));
}

/// A whole number as a document.
pub open spec fn whole_view(n: u64) -> JsonView {
    JsonView::Number(JsonNumber { whole: Some(n), float: of_whole(n as nat) })
}

/// A binary64 number as a document; one that is not finite is null.
pub open spec fn float_view(x: Binary64) -> JsonView {
    if is_finite(x) {
        JsonView::Number(JsonNumber { whole: None, float: x })
    } else {
        JsonView::Null
    }
}

/// A whole number as a document.
pub fn json_whole(n: u64) -> (j: Json)
    ensures
        j@ == whole_view(n),
{
    Json::Number(JsonNumber { whole: Some(n), float: Binary64::of(n) })
}

/// A binary64 number as a document.
pub fn json_float(x: Binary64) -> (j: Json)
    ensures
        j@ == float_view(x),
{
    if x.bits % SIGN < INFINITY {
        Json::Number(JsonNumber { whole: None, float: x })
    } else {
        Json::Null
    }
}

/// A text as a document.
pub fn json_text(s: &str) -> (j: Json)
    ensures
        j@ == JsonView::Text(s@),
{
    Json::Text(String::from_str(s))
}

/// Adds a member to an object.
pub fn push_member(members: &mut Vec<(String, Json)>, key: &str, value: Json)
    ensures
        member_views(final(members)@) == member_views(old(members)@).push((key@, value@)),
{
    let ghost before = members@;
    members.push((String::from_str(key), value));
    assert(member_views(members@) =~= member_views(before).push((key@, value@)));
}

// ---------------------------------------------------------------------------
// Laws
// ---------------------------------------------------------------------------

/// A key has the value of the first member with it.
pub proof fn law_first_member_counts(
    members: Seq<(Seq<char>, JsonView)>,
    key: Seq<char>,
    i: int,
)
    requires
        0 <= i < members.len(),
        members[i].0 == key,
        forall|j: int| 0 <= j < i ==> (#[trigger] members[j]).0 != key,
    ensures
        field(JsonView::Object(members), key) == Some(members[i].1),
        lookup(members, key) == Some(members[i].1),
    decreases i,
{
    if i > 0 {
        let rest = members.skip(1);
        assert(members[0].0 != key);
        assert forall|j: int| 0 <= j < i - 1 implies (#[trigger] rest[j]).0 != key by {
            assert(rest[j] == members[j + 1]);
        }
        law_first_member_counts(rest, key, i - 1);
    }
}

/// A key that no member has has no value.
pub proof fn law_missing_member_is_none(members: Seq<(Seq<char>, JsonView)>, key: Seq<char>)
    requires
        forall|j: int| 0 <= j < members.len() ==> (#[trigger] members[j]).0 != key,
    ensures
        field(JsonView::Object(members), key) is None,
        lookup(members, key) is None,
    decreases members.len(),
{
    if members.len() > 0 {
        let rest = members.skip(1);
        assert(members[0].0 != key);
        assert forall|j: int| 0 <= j < rest.len() implies (#[trigger] rest[j]).0 != key by {
            assert(rest[j] == members[j + 1]);
        }
        law_missing_member_is_none(rest, key);
    }
}

/// The members of two parts: those of the first part come first.
pub proof fn law_members_add_up(
    a: Seq<(Seq<char>, JsonView)>,
    b: Seq<(Seq<char>, JsonView)>,
    key: Seq<char>,
)
    ensures
        lookup(a, key) is Some ==> lookup(a + b, key) == lookup(a, key),
        lookup(a, key) is None ==> lookup(a + b, key) == lookup(b, key),
    decreases a.len(),
{
    let all = a + b;
    if a.len() == 0 {
        assert(all =~= b);
    } else {
        assert(all[0] == a[0]);
        assert(all.skip(1) =~= a.skip(1) + b);
        law_members_add_up(a.skip(1), b, key);
    }
}

/// What is inside values of the wrong kind: nothing. Only an object has members and
/// only an array items; a text, a number and a list are read only as what they are.
pub proof fn law_values_are_read_as_what_they_are(s: Seq<char>, n: JsonNumber, b: bool, i: int)
    ensures
        text_of(Some(JsonView::Text(s))) == Some(s),
        text_of(Some(JsonView::Number(n))) is None,
        text_of(Some(JsonView::Null)) is None,
        text_of(Some(JsonView::Bool(b))) is None,
        text_of(None) is None,
        whole_of(Some(JsonView::Number(n))) == n.whole,
        whole_of(Some(JsonView::Text(s))) is None,
        whole_of(None) is None,
        float_of(Some(JsonView::Number(n))) == Some(n.float),
        float_of(Some(JsonView::Text(s))) is None,
        field(JsonView::Text(s), s) is None,
        field(JsonView::Null, s) is None,
        item(JsonView::Text(s), i) is None,
        item(JsonView::Null, i) is None,
{
}

} // verus!
