//! JSON, as read by `serde_json`.

use vstd::prelude::*;

verus! {

/// A `serde_json::Value`.
#[verifier::external_type_specification]
#[verifier::external_body]
pub struct ExJsonValue(serde_json::Value);

/// What a JSON document says.
pub enum Tree {
    Null,
    Bool(bool),
    Number,
    Text(Seq<char>),
    Array(Seq<Tree>),
    Object(Seq<(Seq<char>, Tree)>),
}

/// What a `serde_json::Value` holds. What a number is worth is left out.
pub uninterp spec fn tree_of(value: serde_json::Value) -> Tree;

/// What `serde_json::from_str` makes of text: the document, or its
/// complaint.
pub uninterp spec fn parsed(text: Seq<char>) -> Result<Tree, Seq<char>>;

/// A value, opened by one level.
pub enum Json {
    Null,
    Bool(bool),
    Number,
    Text(String),
    Array(Vec<serde_json::Value>),
    Object(Vec<(String, serde_json::Value)>),
}

impl View for Json {
    type V = Tree;

    open spec fn view(&self) -> Tree {
        match *self {
            Json::Null => Tree::Null,
            Json::Bool(b) => Tree::Bool(b),
            Json::Number => Tree::Number,
            Json::Text(s) => Tree::Text(s@),
            Json::Array(items) => Tree::Array(items@.map_values(|v: serde_json::Value| tree_of(v))),
            Json::Object(members) => Tree::Object(
                members@.map_values(|m: (String, serde_json::Value)| (m.0@, tree_of(m.1))),
            ),
        }
    }
}

/// `serde_json::from_str` into a `serde_json::Value`, with its error as the
/// text that the error displays. The same text always gives the same.
#[verifier::external_body]
pub(crate) fn parse(text: &str) -> (r: Result<serde_json::Value, String>)
    ensures
        r is Ok ==> parsed(text@) == Ok::<Tree, Seq<char>>(tree_of(r->Ok_0)),
        r is Err ==> parsed(text@) == Err::<Tree, Seq<char>>(r->Err_0@),
{
    serde_json::from_str::<serde_json::Value>(text).map_err(|e| e.to_string())
}

/// Which variant of `serde_json::Value` a value is, with what it holds: the
/// items of an array in order, the members of an object in the order in
/// which the map is walked.
#[verifier::external_body]
pub(crate) fn open(value: serde_json::Value) -> (r: Json)
    ensures
        r@ == tree_of(value),
{
    match value {
        serde_json::Value::Null => Json::Null,
        serde_json::Value::Bool(b) => Json::Bool(b),
        serde_json::Value::Number(_) => Json::Number,
        serde_json::Value::String(s) => Json::Text(s),
        serde_json::Value::Array(items) => Json::Array(items),
        serde_json::Value::Object(members) => Json::Object(members.into_iter().collect()),
    }
}

/// The first member of a name, from `from` on.
pub open spec fn member_from(members: Seq<(Seq<char>, Tree)>, name: Seq<char>, from: int) -> Option<Tree>
    decreases members.len() - from,
{
    if from < 0 || from >= members.len() {
        None
    } else if members[from].0 == name {
        Some(members[from].1)
    } else {
        member_from(members, name, from + 1)
    }
}

/// A member of an object. Nothing else has members.
pub open spec fn member(tree: Tree, name: Seq<char>) -> Option<Tree> {
    match tree {
        Tree::Object(members) => member_from(members, name, 0),
        _ => None,
    }
}

/// The text that a document is, if it is text.
pub open spec fn text_of(tree: Option<Tree>) -> Option<Seq<char>> {
    match tree {
        Some(Tree::Text(s)) => Some(s),
        _ => None,
    }
}

/// The items of a document, if it is an array.
pub open spec fn items_of(tree: Option<Tree>) -> Option<Seq<Tree>> {
    match tree {
        Some(Tree::Array(items)) => Some(items),
        _ => None,
    }
}

/// A member is found by its name: the first of that name. What is no object
/// has no members.
pub proof fn law_a_member_is_found_by_its_name(members: Seq<(Seq<char>, Tree)>, name: Seq<char>)
    ensures
        match member(Tree::Object(members), name) {
            Some(value) => exists|i: int|
                {
                    &&& 0 <= i < members.len()
                    &&& #[trigger] members[i] == (name, value)
                    &&& forall|j: int| 0 <= j < i ==> (#[trigger] members[j]).0 != name
                },
            None => forall|i: int| 0 <= i < members.len() ==> (#[trigger] members[i]).0 != name,
        },
        forall|tree: Tree| !(tree is Object) ==> (#[trigger] member(tree, name)) is None,
{
    lemma_member_from(members, name, 0);
}

proof fn lemma_member_from(members: Seq<(Seq<char>, Tree)>, name: Seq<char>, from: int)
    requires
        0 <= from <= members.len(),
    ensures
        match member_from(members, name, from) {
            Some(value) => exists|i: int|
                {
                    &&& from <= i < members.len()
                    &&& #[trigger] members[i] == (name, value)
                    &&& forall|j: int| from <= j < i ==> (#[trigger] members[j]).0 != name
                },
            None => forall|i: int| from <= i < members.len() ==> (#[trigger] members[i]).0 != name,
        },
    decreases members.len() - from,
{
    if from < members.len() {
        if members[from].0 == name {
            assert(members[from] == (name, members[from].1));
        } else {
            lemma_member_from(members, name, from + 1);
        }
    }
}

} // verus!
