//! JSON values as trees, and their text. Reading and writing the text is the
//! work of `serde_json`; the trees are what the rest of the library builds and
//! takes apart.

use vstd::prelude::*;

verus! {

/// A JSON value.
#[derive(Debug, PartialEq, Eq)]
pub enum Json {
    Null,
    Bool(bool),
    /// A whole number from 0 to 2^64 - 1.
    Number(u64),
    /// Any other number: a negative one, a fraction, one beyond 2^64 - 1. No
    /// message of this library holds one; the text of this value is `null`.
    OtherNumber,
    Text(String),
    List(Vec<Json>),
    /// The members of an object, in the order of the text.
    Record(Vec<(String, Json)>),
}

pub enum JsonView {
    Null,
    Bool(bool),
    Number(u64),
    OtherNumber,
    Text(Seq<char>),
    List(Seq<JsonView>),
    Record(Seq<(Seq<char>, JsonView)>),
}

impl View for Json {
    type V = JsonView;

    open spec fn view(&self) -> JsonView {
        json_view(*self)
    }
}

pub open spec fn json_view(j: Json) -> JsonView
    decreases j, 0nat,
{
    match j {
        Json::Null => JsonView::Null,
        Json::Bool(b) => JsonView::Bool(b),
        Json::Number(n) => JsonView::Number(n),
        Json::OtherNumber => JsonView::OtherNumber,
        Json::Text(s) => JsonView::Text(s@),
        Json::List(items) => JsonView::List(item_views(items@, items@.len())),
        Json::Record(members) => JsonView::Record(member_views(members@, members@.len())),
    }
}

/// The views of the first `n` items.
pub open spec fn item_views(items: Seq<Json>, n: nat) -> Seq<JsonView>
    decreases items, n,
{
    if n == 0 || n > items.len() {
        Seq::empty()
    } else {
        item_views(items, (n - 1) as nat).push(json_view(items[n - 1]))
    }
}

/// The views of the first `n` members.
pub open spec fn member_views(members: Seq<(String, Json)>, n: nat) -> Seq<(Seq<char>, JsonView)>
    decreases members, n,
{
    if n == 0 || n > members.len() {
        Seq::empty()
    } else {
        member_views(members, (n - 1) as nat).push(
            (members[n - 1].0@, json_view(members[n - 1].1)),
        )
    }
}

/// The view of a list holds the views of its items, in order.
pub proof fn lemma_item_views(items: Seq<Json>, n: nat)
    requires
        n <= items.len(),
    ensures
        item_views(items, n).len() == n,
        forall|i: int| 0 <= i < n ==> #[trigger] item_views(items, n)[i] == items[i]@,
    decreases n,
{
    if n > 0 {
        lemma_item_views(items, (n - 1) as nat);
    }
}

/// The view of an object holds the names and the views of its members, in
/// order.
pub proof fn lemma_member_views(members: Seq<(String, Json)>, n: nat)
    requires
        n <= members.len(),
    ensures
        member_views(members, n).len() == n,
        forall|i: int|
            0 <= i < n ==> #[trigger] member_views(members, n)[i] == (members[i].0@, members[i].1@),
    decreases n,
{
    if n > 0 {
        lemma_member_views(members, (n - 1) as nat);
    }
}

/// `serde_json::Value`, the tree that `serde_json` reads and writes.
#[verifier::external_type_specification]
#[verifier::external_body]
pub struct ExValue(serde_json::Value);

/// The text that `serde_json::to_string` writes for a JSON value: the compact
/// form, with the members of an object in their order and one member for each
/// name.
pub uninterp spec fn json_text(j: JsonView) -> Seq<char>;

/// The JSON value that `serde_json::from_str` reads from a text, if the text is
/// JSON.
pub uninterp spec fn json_parsed(text: Seq<char>) -> Option<JsonView>;

/// Builds the `serde_json::Value` with the same content, node by node. A number
/// that the tree does not hold becomes `null`.
#[verifier::external_body]
fn to_value(j: &Json) -> serde_json::Value {
    match j {
        Json::Null | Json::OtherNumber => serde_json::Value::Null,
        Json::Bool(b) => serde_json::Value::Bool(*b),
        Json::Number(n) => serde_json::Value::Number(serde_json::Number::from(*n)),
        Json::Text(s) => serde_json::Value::String(s.clone()),
        Json::List(items) => serde_json::Value::Array(items.iter().map(to_value).collect()),
        Json::Record(members) => serde_json::Value::Object(
            members.iter().map(|m| (m.0.clone(), to_value(&m.1))).collect(),
        ),
    }
}

/// Builds the tree with the same content as a `serde_json::Value`, node by node.
#[verifier::external_body]
fn from_value(v: serde_json::Value) -> Json {
    match v {
        serde_json::Value::Null => Json::Null,
        serde_json::Value::Bool(b) => Json::Bool(b),
        serde_json::Value::Number(n) => match n.as_u64() {
            Some(u) => Json::Number(u),
            None => Json::OtherNumber,
        },
        serde_json::Value::String(s) => Json::Text(s),
        serde_json::Value::Array(items) => Json::List(items.into_iter().map(from_value).collect()),
        serde_json::Value::Object(members) => Json::Record(
            members.into_iter().map(|m| (m.0, from_value(m.1))).collect(),
        ),
    }
}

/// Writes a tree as text with `serde_json::to_string`. The text is what that
/// function writes for the value; no more is claimed of it.
#[verifier::external_body]
fn write_text(j: &Json) -> (s: String)
    ensures
        s@ == json_text(j@),
{
    serde_json::to_string(&to_value(j)).unwrap_or_default()
}

/// Reads a text with `serde_json::from_str`. The tree is what that function
/// reads, and there is none where it reports an error.
#[verifier::external_body]
fn read_text(text: &str) -> (r: Option<Json>)
    ensures
        match r {
            Some(j) => json_parsed(text@) == Some(j@),
            None => json_parsed(text@) is None,
        },
{
    match serde_json::from_str::<serde_json::Value>(text) {
        Ok(v) => Some(from_value(v)),
        Err(_) => None,
    }
}

impl Json {
    /// The JSON text of the value.
    pub fn render(&self) -> (s: String)
        ensures
            s@ == json_text(self@),
    {
        write_text(self)
    }

    /// The value that a JSON text stands for.
    pub fn parse(text: &str) -> (r: Option<Json>)
        ensures
            match r {
                Some(j) => json_parsed(text@) == Some(j@),
                None => json_parsed(text@) is None,
            },
    {
        read_text(text)
    }
}

impl Json {
    /// The JSON list of the given items.
    pub fn list(items: Vec<Json>) -> (j: Json)
        ensures
            j@ is List,
            j@->List_0.len() == items@.len(),
            forall|i: int| 0 <= i < items@.len() ==> #[trigger] j@->List_0[i] == items@[i]@,
    {
        proof {
            lemma_item_views(items@, items@.len());
        }
        Json::List(items)
    }

    /// The JSON object of the given members.
    pub fn record(members: Vec<(String, Json)>) -> (j: Json)
        ensures
            j@ is Record,
            j@->Record_0.len() == members@.len(),
            forall|i: int|
                0 <= i < members@.len() ==> #[trigger] j@->Record_0[i] == (
                    members@[i].0@,
                    members@[i].1@,
                ),
    {
        proof {
            lemma_member_views(members@, members@.len());
        }
        Json::Record(members)
    }

    /// The items, where the value is a list.
    pub fn items(&self) -> (r: Option<&Vec<Json>>)
        ensures
            match r {
                Some(items) => {
                    &&& self@ is List
                    &&& self@->List_0.len() == items@.len()
                    &&& forall|i: int|
                        0 <= i < items@.len() ==> #[trigger] self@->List_0[i] == items@[i]@
                },
                None => !(self@ is List),
            },
    {
        match self {
            Json::List(items) => {
                proof {
                    lemma_item_views(items@, items@.len());
                }
                Some(items)
            },
            _ => None,
        }
    }

    /// The members, where the value is an object.
    pub fn members(&self) -> (r: Option<&Vec<(String, Json)>>)
        ensures
            match r {
                Some(members) => {
                    &&& self@ is Record
                    &&& self@->Record_0.len() == members@.len()
                    &&& forall|i: int|
                        0 <= i < members@.len() ==> #[trigger] self@->Record_0[i] == (
                            members@[i].0@,
                            members@[i].1@,
                        )
                },
                None => !(self@ is Record),
            },
    {
        match self {
            Json::Record(members) => {
                proof {
                    lemma_member_views(members@, members@.len());
                }
                Some(members)
            },
            _ => None,
        }
    }

    /// The text, where the value is a string.
    pub fn as_text(&self) -> (r: Option<&String>)
        ensures
            match r {
                Some(s) => self@ == JsonView::Text(s@),
                None => !(self@ is Text),
            },
    {
        match self {
            Json::Text(s) => Some(s),
            _ => None,
        }
    }

    /// The number, where the value is a whole number.
    pub fn as_number(&self) -> (r: Option<u64>)
        ensures
            match r {
                Some(n) => self@ == JsonView::Number(n),
                None => !(self@ is Number),
            },
    {
        match self {
            Json::Number(n) => Some(*n),
            _ => None,
        }
    }

    /// The truth value, where the value is one.
    pub fn as_bool(&self) -> (r: Option<bool>)
        ensures
            match r {
                Some(b) => self@ == JsonView::Bool(b),
                None => !(self@ is Bool),
            },
    {
        match self {
            Json::Bool(b) => Some(*b),
            _ => None,
        }
    }
}

} // verus!
