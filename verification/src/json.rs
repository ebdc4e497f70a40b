//! JSON documents as trees of plain values, read and written by `serde_json`.

use vstd::prelude::*;

verus! {

/// A JSON document as plain values.
pub enum Document {
    Null,
    Bool(bool),
    /// A number that is an integer of 64 bits with a sign.
    Int(i64),
    /// Any other number: one with a fraction or an exponent, or an integer
    /// beyond the 64 bits. Its value is not kept.
    Real,
    Str(Seq<char>),
    Array(Seq<Document>),
    /// The members of an object, each a key and its value.
    Object(Seq<(Seq<char>, Document)>),
}

/// One member of a JSON object.
#[derive(Debug, PartialEq, Eq)]
pub struct Member {
    pub key: String,
    pub value: Json,
}

/// A JSON document.
#[derive(Debug, PartialEq, Eq)]
pub enum Json {
    Null,
    Bool(bool),
    /// A number that is an integer of 64 bits with a sign.
    Int(i64),
    /// Any other number. Its value is not kept, so a tree that holds one
    /// cannot be written out again.
    Real,
    Str(String),
    Array(Vec<Json>),
    Object(Vec<Member>),
}

impl View for Json {
    type V = Document;

    // The bounds in the two closures are what shows that the recursion ends.
    open spec fn view(&self) -> Document
        decreases self,
    {
        match self {
            Json::Null => Document::Null,
            Json::Bool(b) => Document::Bool(*b),
            Json::Int(i) => Document::Int(*i),
            Json::Real => Document::Real,
            Json::Str(s) => Document::Str(s@),
            Json::Array(items) => Document::Array(
                Seq::new(
                    items.len() as nat,
                    |i: int|
                        if 0 <= i < items.len() {
                            items[i]@
                        } else {
                            Document::Null
                        },
                ),
            ),
            Json::Object(members) => Document::Object(
                Seq::new(
                    members.len() as nat,
                    |i: int|
                        if 0 <= i < members.len() {
                            (members[i].key@, members[i].value@)
                        } else {
                            (Seq::empty(), Document::Null)
                        },
                ),
            ),
        }
    }
}

/// The value of the first member of `members` whose key is `key`.
pub open spec fn first_member(members: Seq<(Seq<char>, Document)>, key: Seq<char>) -> Option<
    Document,
>
    decreases members.len(),
{
    if members.len() == 0 {
        None
    } else if members[0].0 == key {
        Some(members[0].1)
    } else {
        first_member(members.drop_first(), key)
    }
}

/// What `tree` holds under `key`: the value of its first member with that
/// key where `tree` is an object, and nothing otherwise.
pub open spec fn lookup(tree: Document, key: Seq<char>) -> Option<Document> {
    match tree {
        Document::Object(members) => first_member(members, key),
        _ => None,
    }
}

/// No number in `tree` is a `Real`.
pub open spec fn is_exact(tree: Document) -> bool
    decreases tree,
{
    match tree {
        Document::Real => false,
        Document::Array(items) => forall|i: int|
            0 <= i < items.len() ==> is_exact(#[trigger] items[i]),
        Document::Object(members) => forall|i: int|
            0 <= i < members.len() ==> is_exact((#[trigger] members[i]).1),
        _ => true,
    }
}

/// The tree that `serde_json` reads from `text`, or `None` where it reports
/// an error.
pub uninterp spec fn json_parse(text: Seq<char>) -> Option<Document>;

/// The text that `serde_json` writes for `tree`, or `None` where it reports
/// an error.
pub uninterp spec fn json_text(tree: Document) -> Option<Seq<char>>;

/// `serde_json::Value`, of which nothing is known here but that it exists.
#[verifier::external_type_specification]
#[verifier::external_body]
pub struct ExValue(serde_json::Value);

/// `serde_json::Error`, of which nothing is known here but that it exists.
#[verifier::external_type_specification]
#[verifier::external_body]
pub struct ExError(serde_json::Error);

/// What `serde_json` reported when it refused a text or a tree, in its words.
#[derive(Debug, PartialEq, Eq)]
pub struct JsonError {
    pub message: String,
}

/// Copies a `serde_json::Value` into a tree, variant by variant. A number
/// becomes `Int` where `serde_json::Number::as_i64` gives its value and
/// `Real` where it gives none. The members of an object come in the order
/// in which the `Value` walks them.
#[verifier::external_body]
fn tree_of(value: &serde_json::Value) -> Json {
    match value {
        serde_json::Value::Null => Json::Null,
        serde_json::Value::Bool(b) => Json::Bool(*b),
        serde_json::Value::Number(n) => n.as_i64().map_or(Json::Real, Json::Int),
        serde_json::Value::String(s) => Json::Str(s.clone()),
        serde_json::Value::Array(items) => Json::Array(items.iter().map(tree_of).collect()),
        serde_json::Value::Object(members) => Json::Object(
            members.iter().map(|(k, v)| Member { key: k.clone(), value: tree_of(v) }).collect(),
        ),
    }
}

/// Copies a tree into a `serde_json::Value`, variant by variant; an `Int`
/// goes through `serde_json::Value::from`. Of several members with one key
/// the `Value` keeps the last. A `Real` has no value to copy, so trees with
/// one are left out.
#[verifier::external_body]
fn value_of(tree: &Json) -> serde_json::Value
    requires
        is_exact(tree@),
{
    match tree {
        Json::Null | Json::Real => serde_json::Value::Null,
        Json::Bool(b) => serde_json::Value::Bool(*b),
        Json::Int(i) => serde_json::Value::from(*i),
        Json::Str(s) => serde_json::Value::String(s.clone()),
        Json::Array(items) => serde_json::Value::Array(items.iter().map(value_of).collect()),
        Json::Object(members) => serde_json::Value::Object(
            members.iter().map(|m| (m.key.clone(), value_of(&m.value))).collect(),
        ),
    }
}

/// Calls `serde_json::from_str` for a `serde_json::Value` and copies the
/// value into a tree. The contract claims that the outcome depends on the
/// characters of `text` alone: it is what `json_parse` names.
#[verifier::external_body]
fn read_tree(text: &str) -> (read: Result<Json, serde_json::Error>)
    ensures
        match read {
            Ok(tree) => json_parse(text@) == Some(tree@),
            Err(_) => json_parse(text@).is_none(),
        },
{
    match serde_json::from_str::<serde_json::Value>(text) {
        Ok(value) => Ok(tree_of(&value)),
        Err(error) => Err(error),
    }
}

/// Copies a tree into a `serde_json::Value` and calls
/// `serde_json::to_string` on it. The contract claims that the outcome,
/// a text or an error, depends on the tree alone: it is what `json_text`
/// names. It does not claim which of the two comes back.
#[verifier::external_body]
fn write_tree(tree: &Json) -> (written: Result<String, serde_json::Error>)
    requires
        is_exact(tree@),
    ensures
        match written {
            Ok(text) => json_text(tree@) == Some(text@),
            Err(_) => json_text(tree@).is_none(),
        },
{
    serde_json::to_string(&value_of(tree))
}

/// Calls `to_string` on a `serde_json::Error` for its message. Nothing is
/// claimed of the message.
#[verifier::external_body]
fn message_of(error: &serde_json::Error) -> String {
    error.to_string()
}

impl Json {
    /// Reads a JSON text.
    pub fn parse(text: &str) -> (parsed: Result<Json, JsonError>)
        ensures
            match parsed {
                Ok(tree) => json_parse(text@) == Some(tree@),
                Err(_) => json_parse(text@).is_none(),
            },
    {
        match read_tree(text) {
            Ok(tree) => Ok(tree),
            Err(error) => Err(JsonError { message: message_of(&error) }),
        }
    }

    /// Writes the tree as JSON text.
    pub fn render(&self) -> (rendered: Result<String, JsonError>)
        requires
            is_exact(self@),
        ensures
            match rendered {
                Ok(text) => json_text(self@) == Some(text@),
                Err(_) => json_text(self@).is_none(),
            },
    {
        match write_tree(self) {
            Ok(text) => Ok(text),
            Err(error) => Err(JsonError { message: message_of(&error) }),
        }
    }

    /// The value under `key`: that of the first member with this key where
    /// the tree is an object, and nothing otherwise.
    pub fn get(&self, key: &str) -> (found: Option<&Json>)
        ensures
            match found {
                Some(value) => lookup(self@, key@) == Some(value@),
                None => lookup(self@, key@).is_none(),
            },
    {
        match self {
            Json::Object(members) => {
                let wanted = key.to_owned();
                let ghost all = self@->Object_0;
                let mut i: usize = 0;
                proof {
                    lemma_object_view(*self);
                }
                assert(all.skip(0) == all);
                while i < members.len()
                    invariant
                        i <= members.len(),
                        wanted@ == key@,
                        self@ == Document::Object(all),
                        all.len() == members.len(),
                        forall|j: int|
                            0 <= j < members.len() ==> all[j] == (
                                members[j].key@,
                                members[j].value@,
                            ),
                        first_member(all, key@) == first_member(all.skip(i as int), key@),
                    decreases members.len() - i,
                {
                    assert(all.skip(i as int)[0] == all[i as int]);
                    assert(all.skip(i as int).drop_first() == all.skip(i as int + 1));
                    if members[i].key == wanted {
                        return Some(&members[i].value);
                    }
                    i += 1;
                }
                None
            },
            _ => None,
        }
    }
}

/// The view of an array holds the views of its items, place by place.
pub proof fn lemma_array_view(tree: Json)
    requires
        tree is Array,
    ensures
        tree@ is Array,
        tree@->Array_0.len() == tree->Array_0.len(),
        forall|i: int| 0 <= i < tree->Array_0.len() ==> tree@->Array_0[i] == tree->Array_0[i]@,
{
    reveal_with_fuel(<Json as View>::view, 2);
}

/// The view of an object holds the keys and the views of the values of its
/// members, place by place.
pub proof fn lemma_object_view(tree: Json)
    requires
        tree is Object,
    ensures
        tree@ is Object,
        tree@->Object_0.len() == tree->Object_0.len(),
        forall|i: int|
            0 <= i < tree->Object_0.len() ==> tree@->Object_0[i] == (
                tree->Object_0[i].key@,
                tree->Object_0[i].value@,
            ),
{
    reveal_with_fuel(<Json as View>::view, 2);
}

} // verus!
