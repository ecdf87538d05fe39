//! The wire form of messages: each message, variable and result is a tagged
//! record, written as JSON. A unit variant is its name; a variant with fields is
//! an object with one member, named after the variant, whose value is the field
//! or the list of the fields.

use vstd::prelude::*;
use crate::ident::{Address, ResourceId, Timestamp};
use crate::json::{Json, JsonView, json_parsed, json_text};
use crate::message_serialisation::{InvokeOp, Message, MessageView, ReturnVar, ReturnVarView};
use crate::variable::{Variable, VariableView, variables_view};

verus! {

/// A record with the single member `tag`.
pub open spec fn tagged(tag: Seq<char>, body: JsonView) -> JsonView {
    JsonView::Record(seq![(tag, body)])
}

/// The tag and the body of a record with a single member.
pub open spec fn untagged(j: JsonView) -> Option<(Seq<char>, JsonView)> {
    match j {
        JsonView::Record(members) => if members.len() == 1 {
            Some(members[0])
        } else {
            None
        },
        _ => None,
    }
}

pub open spec fn timestamp_json(t: Timestamp) -> JsonView {
    JsonView::Record(
        seq![
            ("secs_since_epoch"@, JsonView::Number(t.secs)),
            ("nanos_since_epoch"@, JsonView::Number(t.nanos as u64)),
        ],
    )
}

/// A time is an object of two members: the seconds, then the nanoseconds.
pub open spec fn json_timestamp(j: JsonView) -> Option<Timestamp> {
    match j {
        JsonView::Record(members) => if members.len() == 2 && members[0].0 == "secs_since_epoch"@
            && members[1].0 == "nanos_since_epoch"@ {
            match (members[0].1, members[1].1) {
                (JsonView::Number(secs), JsonView::Number(nanos)) => if nanos <= u32::MAX {
                    Some(Timestamp { secs, nanos: nanos as u32 })
                } else {
                    None
                },
                _ => None,
            }
        } else {
            None
        },
        _ => None,
    }
}

pub open spec fn id_json(id: ResourceId) -> JsonView {
    JsonView::List(seq![timestamp_json(id.time), JsonView::Number(id.counter as u64)])
}

pub open spec fn json_id(j: JsonView) -> Option<ResourceId> {
    match j {
        JsonView::List(items) => if items.len() == 2 {
            match (json_timestamp(items[0]), items[1]) {
                (Some(time), JsonView::Number(counter)) => if counter <= usize::MAX {
                    Some(ResourceId { time, counter: counter as usize })
                } else {
                    None
                },
                _ => None,
            }
        } else {
            None
        },
        _ => None,
    }
}

/// Whether a text is the same as a literal.
pub fn is_text(s: &String, literal: &str) -> (b: bool)
    ensures
        b == (s@ == literal@),
{
    *s == literal.to_owned()
}

/// The JSON string with the given text.
pub fn text(s: &str) -> (j: Json)
    ensures
        j@ == JsonView::Text(s@),
{
    Json::Text(s.to_owned())
}

/// The JSON object with the single member `name`.
pub fn tag(name: &str, body: Json) -> (j: Json)
    ensures
        j@ == tagged(name@, body@),
{
    let mut members: Vec<(String, Json)> = Vec::new();
    members.push((name.to_owned(), body));
    let j = Json::record(members);
    assert(j@->Record_0 =~= seq![(name@, body@)]);
    j
}

/// The tag and the body, where the value is an object with a single member.
pub fn untag(j: &Json) -> (r: Option<(&String, &Json)>)
    ensures
        match r {
            Some((name, body)) => untagged(j@) == Some((name@, body@)),
            None => untagged(j@) is None,
        },
{
    match j.members() {
        Some(members) => {
            if members.len() == 1 {
                Some((&members[0].0, &members[0].1))
            } else {
                None
            }
        },
        None => None,
    }
}

pub fn timestamp_to_json(t: &Timestamp) -> (j: Json)
    ensures
        j@ == timestamp_json(*t),
{
    let mut members: Vec<(String, Json)> = Vec::new();
    members.push(("secs_since_epoch".to_owned(), Json::Number(t.secs)));
    members.push(("nanos_since_epoch".to_owned(), Json::Number(t.nanos as u64)));
    let j = Json::record(members);
    assert(j@->Record_0 =~= timestamp_json(*t)->Record_0);
    j
}

pub fn id_to_json(id: &ResourceId) -> (j: Json)
    ensures
        j@ == id_json(*id),
{
    let mut items: Vec<Json> = Vec::new();
    items.push(timestamp_to_json(&id.time));
    items.push(Json::Number(id.counter as u64));
    let j = Json::list(items);
    assert(j@->List_0 =~= id_json(*id)->List_0);
    j
}

pub fn timestamp_from_json(j: &Json) -> (r: Option<Timestamp>)
    ensures
        r == json_timestamp(j@),
{
    match j.members() {
        Some(members) => {
            if members.len() != 2 {
                return None;
            }
            if !is_text(&members[0].0, "secs_since_epoch") || !is_text(
                &members[1].0,
                "nanos_since_epoch",
            ) {
                return None;
            }
            match (members[0].1.as_number(), members[1].1.as_number()) {
                (Some(secs), Some(nanos)) => {
                    if nanos <= u32::MAX as u64 {
                        Some(Timestamp { secs, nanos: nanos as u32 })
                    } else {
                        None
                    }
                },
                _ => None,
            }
        },
        None => None,
    }
}

pub fn id_from_json(j: &Json) -> (r: Option<ResourceId>)
    ensures
        r == json_id(j@),
{
    match j.items() {
        Some(items) => {
            if items.len() != 2 {
                return None;
            }
            let time = match timestamp_from_json(&items[0]) {
                Some(time) => time,
                None => {
                    return None;
                },
            };
            match items[1].as_number() {
                Some(counter) => {
                    if counter <= usize::MAX as u64 {
                        Some(ResourceId { time, counter: counter as usize })
                    } else {
                        None
                    }
                },
                None => None,
            }
        },
        None => None,
    }
}

/// A time that is written and read again is the same time.
pub proof fn lemma_timestamp_round_trip(t: Timestamp)
    ensures
        json_timestamp(timestamp_json(t)) == Some(t),
{
}

/// A JSON form that is read as a time is the form of that time.
pub proof fn lemma_timestamp_form(j: JsonView)
    requires
        json_timestamp(j) is Some,
    ensures
        timestamp_json(json_timestamp(j)->0) == j,
{
    assert(j->Record_0 =~= timestamp_json(json_timestamp(j)->0)->Record_0);
}

/// A JSON form that is read as an id is the form of that id.
pub proof fn lemma_id_form(j: JsonView)
    requires
        json_id(j) is Some,
    ensures
        id_json(json_id(j)->0) == j,
{
    lemma_timestamp_form(j->List_0[0]);
    assert(j->List_0 =~= id_json(json_id(j)->0)->List_0);
}

/// An id that is written and read again is the same id.
pub proof fn lemma_id_round_trip(id: ResourceId)
    ensures
        json_id(id_json(id)) == Some(id),
{
    lemma_timestamp_round_trip(id.time);
}

/// The body of a variant that names a remote resource: the proxy's encoding,
/// the address, and the id.
pub open spec fn remote_json(s: Seq<char>, a: Seq<char>, id: ResourceId) -> JsonView {
    JsonView::List(seq![JsonView::Text(s), JsonView::Text(a), id_json(id)])
}

pub open spec fn json_remote(j: JsonView) -> Option<(Seq<char>, Seq<char>, ResourceId)> {
    match j {
        JsonView::List(items) => if items.len() == 3 {
            match (items[0], items[1], json_id(items[2])) {
                (JsonView::Text(s), JsonView::Text(a), Some(id)) => Some((s, a, id)),
                _ => None,
            }
        } else {
            None
        },
        _ => None,
    }
}

pub open spec fn variable_json(v: VariableView) -> JsonView {
    match v {
        VariableView::OwnedLocal(s) => tagged("OwnedLocal"@, JsonView::Text(s)),
        VariableView::OwnedRemote(s, a, id) => tagged("OwnedRemote"@, remote_json(s, a, id)),
        VariableView::RefRemote(s, a, id) => tagged("RefRemote"@, remote_json(s, a, id)),
        VariableView::MutRefRemote(s, a, id) => tagged("MutRefRemote"@, remote_json(s, a, id)),
    }
}

pub open spec fn json_variable(j: JsonView) -> Option<VariableView> {
    match untagged(j) {
        Some((name, body)) => if name == "OwnedLocal"@ {
            match body {
                JsonView::Text(s) => Some(VariableView::OwnedLocal(s)),
                _ => None,
            }
        } else {
            match json_remote(body) {
                Some((s, a, id)) => if name == "OwnedRemote"@ {
                    Some(VariableView::OwnedRemote(s, a, id))
                } else if name == "RefRemote"@ {
                    Some(VariableView::RefRemote(s, a, id))
                } else if name == "MutRefRemote"@ {
                    Some(VariableView::MutRefRemote(s, a, id))
                } else {
                    None
                },
                None => None,
            }
        },
        None => None,
    }
}

pub open spec fn op_json(op: InvokeOp) -> JsonView {
    match op {
        InvokeOp::Owned => JsonView::Text("Owned"@),
        InvokeOp::Ref => JsonView::Text("Ref"@),
        InvokeOp::MutRef => JsonView::Text("MutRef"@),
        InvokeOp::Init => JsonView::Text("Init"@),
    }
}

pub open spec fn json_op(j: JsonView) -> Option<InvokeOp> {
    match j {
        JsonView::Text(s) => if s == "Owned"@ {
            Some(InvokeOp::Owned)
        } else if s == "Ref"@ {
            Some(InvokeOp::Ref)
        } else if s == "MutRef"@ {
            Some(InvokeOp::MutRef)
        } else if s == "Init"@ {
            Some(InvokeOp::Init)
        } else {
            None
        },
        _ => None,
    }
}

pub open spec fn return_json(r: ReturnVarView) -> JsonView {
    match r {
        ReturnVarView::Owned(s) => tagged("Owned"@, JsonView::Text(s)),
        ReturnVarView::OwnedInit(a, id, owner) => tagged(
            "OwnedInit"@,
            JsonView::List(seq![JsonView::Text(a), id_json(id), JsonView::Bool(owner)]),
        ),
        ReturnVarView::RefOwned(a, id) => tagged(
            "RefOwned"@,
            JsonView::List(seq![JsonView::Text(a), id_json(id)]),
        ),
        ReturnVarView::RefBorrow(s) => tagged("RefBorrow"@, JsonView::Text(s)),
        ReturnVarView::MutRefOwned(a, id) => tagged(
            "MutRefOwned"@,
            JsonView::List(seq![JsonView::Text(a), id_json(id)]),
        ),
        ReturnVarView::MutRefBorrow(s) => tagged("MutRefBorrow"@, JsonView::Text(s)),
    }
}

/// The body of a result that the endpoint stored: the address and the id.
pub open spec fn json_stored(j: JsonView) -> Option<(Seq<char>, ResourceId)> {
    match j {
        JsonView::List(items) => if items.len() == 2 {
            match (items[0], json_id(items[1])) {
                (JsonView::Text(a), Some(id)) => Some((a, id)),
                _ => None,
            }
        } else {
            None
        },
        _ => None,
    }
}

/// The body of the result of an initialisation: address, id and owner flag.
pub open spec fn json_init(j: JsonView) -> Option<(Seq<char>, ResourceId, bool)> {
    match j {
        JsonView::List(items) => if items.len() == 3 {
            match (items[0], json_id(items[1]), items[2]) {
                (JsonView::Text(a), Some(id), JsonView::Bool(owner)) => Some((a, id, owner)),
                _ => None,
            }
        } else {
            None
        },
        _ => None,
    }
}

pub open spec fn json_return(j: JsonView) -> Option<ReturnVarView> {
    match untagged(j) {
        Some((name, body)) => if name == "Owned"@ || name == "RefBorrow"@ || name
            == "MutRefBorrow"@ {
            match body {
                JsonView::Text(s) => if name == "Owned"@ {
                    Some(ReturnVarView::Owned(s))
                } else if name == "RefBorrow"@ {
                    Some(ReturnVarView::RefBorrow(s))
                } else {
                    Some(ReturnVarView::MutRefBorrow(s))
                },
                _ => None,
            }
        } else if name == "OwnedInit"@ {
            match json_init(body) {
                Some((a, id, owner)) => Some(ReturnVarView::OwnedInit(a, id, owner)),
                None => None,
            }
        } else if name == "RefOwned"@ || name == "MutRefOwned"@ {
            match json_stored(body) {
                Some((a, id)) => if name == "RefOwned"@ {
                    Some(ReturnVarView::RefOwned(a, id))
                } else {
                    Some(ReturnVarView::MutRefOwned(a, id))
                },
                None => None,
            }
        } else {
            None
        },
        None => None,
    }
}

pub open spec fn variables_json(vars: Seq<VariableView>) -> Seq<JsonView> {
    Seq::new(vars.len(), |i: int| variable_json(vars[i]))
}

pub open spec fn json_variables(items: Seq<JsonView>) -> Option<Seq<VariableView>> {
    if forall|i: int| 0 <= i < items.len() ==> (#[trigger] json_variable(items[i])) is Some {
        Some(Seq::new(items.len(), |i: int| json_variable(items[i])->0))
    } else {
        None
    }
}

pub open spec fn message_json(m: MessageView) -> JsonView {
    match m {
        MessageView::Invoke(name, vars, op) => tagged(
            "Invoke"@,
            JsonView::List(
                seq![JsonView::Text(name), JsonView::List(variables_json(vars)), op_json(op)],
            ),
        ),
        MessageView::Return(r) => tagged("Return"@, return_json(r)),
        MessageView::Drop(id) => tagged("Drop"@, id_json(id)),
    }
}

pub open spec fn json_invoke(j: JsonView) -> Option<MessageView> {
    match j {
        JsonView::List(items) => if items.len() == 3 {
            match (items[0], items[1], json_op(items[2])) {
                (JsonView::Text(name), JsonView::List(vars), Some(op)) => match json_variables(vars) {
                    Some(vars) => Some(MessageView::Invoke(name, vars, op)),
                    None => None,
                },
                _ => None,
            }
        } else {
            None
        },
        _ => None,
    }
}

pub open spec fn json_message(j: JsonView) -> Option<MessageView> {
    match untagged(j) {
        Some((name, body)) => if name == "Invoke"@ {
            json_invoke(body)
        } else if name == "Return"@ {
            match json_return(body) {
                Some(r) => Some(MessageView::Return(r)),
                None => None,
            }
        } else if name == "Drop"@ {
            match json_id(body) {
                Some(id) => Some(MessageView::Drop(id)),
                None => None,
            }
        } else {
            None
        },
        None => None,
    }
}

/// The names of the variants of one type differ from each other.
pub proof fn lemma_names_differ()
    ensures
        "OwnedLocal"@ != "OwnedRemote"@,
        "OwnedLocal"@ != "RefRemote"@,
        "OwnedLocal"@ != "MutRefRemote"@,
        "OwnedRemote"@ != "RefRemote"@,
        "OwnedRemote"@ != "MutRefRemote"@,
        "RefRemote"@ != "MutRefRemote"@,
        "Owned"@ != "Ref"@,
        "Owned"@ != "MutRef"@,
        "Owned"@ != "Init"@,
        "Ref"@ != "MutRef"@,
        "Ref"@ != "Init"@,
        "MutRef"@ != "Init"@,
        "Owned"@ != "OwnedInit"@,
        "Owned"@ != "RefOwned"@,
        "Owned"@ != "RefBorrow"@,
        "Owned"@ != "MutRefOwned"@,
        "Owned"@ != "MutRefBorrow"@,
        "OwnedInit"@ != "RefOwned"@,
        "OwnedInit"@ != "RefBorrow"@,
        "OwnedInit"@ != "MutRefOwned"@,
        "OwnedInit"@ != "MutRefBorrow"@,
        "RefOwned"@ != "RefBorrow"@,
        "RefOwned"@ != "MutRefOwned"@,
        "RefOwned"@ != "MutRefBorrow"@,
        "RefBorrow"@ != "MutRefOwned"@,
        "RefBorrow"@ != "MutRefBorrow"@,
        "MutRefOwned"@ != "MutRefBorrow"@,
        "Invoke"@ != "Return"@,
        "Invoke"@ != "Drop"@,
        "Return"@ != "Drop"@,
        "secs_since_epoch"@ != "nanos_since_epoch"@,
{
    reveal_strlit("OwnedLocal");
    reveal_strlit("OwnedRemote");
    reveal_strlit("RefRemote");
    reveal_strlit("MutRefRemote");
    reveal_strlit("Owned");
    reveal_strlit("Ref");
    reveal_strlit("MutRef");
    reveal_strlit("Init");
    reveal_strlit("OwnedInit");
    reveal_strlit("RefOwned");
    reveal_strlit("RefBorrow");
    reveal_strlit("MutRefOwned");
    reveal_strlit("MutRefBorrow");
    reveal_strlit("Invoke");
    reveal_strlit("Return");
    reveal_strlit("Drop");
    reveal_strlit("secs_since_epoch");
    reveal_strlit("nanos_since_epoch");
    assert("OwnedLocal"@.len() == 10);
    assert("OwnedRemote"@.len() == 11);
    assert("RefRemote"@.len() == 9);
    assert("MutRefRemote"@.len() == 12);
    assert("Owned"@.len() == 5);
    assert("Ref"@.len() == 3);
    assert("MutRef"@.len() == 6);
    assert("Init"@.len() == 4);
    assert("OwnedInit"@.len() == 9);
    assert("RefOwned"@.len() == 8);
    assert("RefBorrow"@.len() == 9);
    assert("MutRefOwned"@.len() == 11);
    assert("MutRefBorrow"@.len() == 12);
    assert("Invoke"@.len() == 6);
    assert("Return"@.len() == 6);
    assert("Drop"@.len() == 4);
    assert("secs_since_epoch"@.len() == 16);
    assert("nanos_since_epoch"@.len() == 17);
    assert("OwnedInit"@[0] != "RefBorrow"@[0]);
    assert("Invoke"@[0] != "Return"@[0]);
}

/// A variable that is written and read again is the same variable.
pub proof fn lemma_variable_round_trip(v: VariableView)
    ensures
        json_variable(variable_json(v)) == Some(v),
{
    lemma_names_differ();
    match v {
        VariableView::OwnedLocal(s) => {},
        VariableView::OwnedRemote(s, a, id) => {
            lemma_id_round_trip(id);
        },
        VariableView::RefRemote(s, a, id) => {
            lemma_id_round_trip(id);
        },
        VariableView::MutRefRemote(s, a, id) => {
            lemma_id_round_trip(id);
        },
    }
}

/// A way of treating the result that is written and read again is the same.
pub proof fn lemma_op_round_trip(op: InvokeOp)
    ensures
        json_op(op_json(op)) == Some(op),
{
    lemma_names_differ();
}

/// A result that is written and read again is the same result.
pub proof fn lemma_return_round_trip(r: ReturnVarView)
    ensures
        json_return(return_json(r)) == Some(r),
{
    lemma_names_differ();
    match r {
        ReturnVarView::OwnedInit(a, id, owner) => {
            lemma_id_round_trip(id);
        },
        ReturnVarView::RefOwned(a, id) => {
            lemma_id_round_trip(id);
        },
        ReturnVarView::MutRefOwned(a, id) => {
            lemma_id_round_trip(id);
        },
        _ => {},
    }
}

/// A message that is written and read again is the same message.
pub proof fn lemma_message_round_trip(m: MessageView)
    ensures
        json_message(message_json(m)) == Some(m),
{
    lemma_names_differ();
    match m {
        MessageView::Invoke(name, vars, op) => {
            lemma_op_round_trip(op);
            let items = variables_json(vars);
            assert forall|i: int| 0 <= i < items.len() implies (#[trigger] json_variable(
                items[i],
            )) == Some(vars[i]) by {
                lemma_variable_round_trip(vars[i]);
            }
            assert(json_variables(items)->0 =~= vars);
        },
        MessageView::Return(r) => {
            lemma_return_round_trip(r);
        },
        MessageView::Drop(id) => {
            lemma_id_round_trip(id);
        },
    }
}

fn remote_to_json(s: &String, a: &Address, id: &ResourceId) -> (j: Json)
    ensures
        j@ == remote_json(s@, a@, *id),
{
    let mut items: Vec<Json> = Vec::new();
    items.push(text(s.as_str()));
    items.push(text(a.as_str()));
    items.push(id_to_json(id));
    let j = Json::list(items);
    assert(j@->List_0 =~= remote_json(s@, a@, *id)->List_0);
    j
}

fn remote_from_json(j: &Json) -> (r: Option<(String, Address, ResourceId)>)
    ensures
        match r {
            Some((s, a, id)) => json_remote(j@) == Some((s@, a@, id)),
            None => json_remote(j@) is None,
        },
{
    let items = match j.items() {
        Some(items) => items,
        None => {
            return None;
        },
    };
    if items.len() != 3 {
        return None;
    }
    match (items[0].as_text(), items[1].as_text(), id_from_json(&items[2])) {
        (Some(s), Some(a), Some(id)) => Some((s.clone(), Address::from_text(a.as_str()), id)),
        _ => None,
    }
}

fn stored_to_json(a: &Address, id: &ResourceId) -> (j: Json)
    ensures
        j@ == JsonView::List(seq![JsonView::Text(a@), id_json(*id)]),
{
    let mut items: Vec<Json> = Vec::new();
    items.push(text(a.as_str()));
    items.push(id_to_json(id));
    let j = Json::list(items);
    assert(j@->List_0 =~= seq![JsonView::Text(a@), id_json(*id)]);
    j
}

fn stored_from_json(j: &Json) -> (r: Option<(Address, ResourceId)>)
    ensures
        match r {
            Some((a, id)) => json_stored(j@) == Some((a@, id)),
            None => json_stored(j@) is None,
        },
{
    let items = match j.items() {
        Some(items) => items,
        None => {
            return None;
        },
    };
    if items.len() != 2 {
        return None;
    }
    match (items[0].as_text(), id_from_json(&items[1])) {
        (Some(a), Some(id)) => Some((Address::from_text(a.as_str()), id)),
        _ => None,
    }
}

pub fn init_to_json(a: &Address, id: &ResourceId, owner: bool) -> (j: Json)
    ensures
        j@ == JsonView::List(seq![JsonView::Text(a@), id_json(*id), JsonView::Bool(owner)]),
{
    let mut items: Vec<Json> = Vec::new();
    items.push(text(a.as_str()));
    items.push(id_to_json(id));
    items.push(Json::Bool(owner));
    let j = Json::list(items);
    assert(j@->List_0 =~= seq![JsonView::Text(a@), id_json(*id), JsonView::Bool(owner)]);
    j
}

pub fn init_from_json(j: &Json) -> (r: Option<(Address, ResourceId, bool)>)
    ensures
        match r {
            Some((a, id, owner)) => json_init(j@) == Some((a@, id, owner)),
            None => json_init(j@) is None,
        },
{
    let items = match j.items() {
        Some(items) => items,
        None => {
            return None;
        },
    };
    if items.len() != 3 {
        return None;
    }
    match (items[0].as_text(), id_from_json(&items[1]), items[2].as_bool()) {
        (Some(a), Some(id), Some(owner)) => Some((Address::from_text(a.as_str()), id, owner)),
        _ => None,
    }
}

/// The wire form of a variable.
pub fn variable_to_json(v: &Variable) -> (j: Json)
    ensures
        j@ == variable_json(v@),
{
    match v {
        Variable::OwnedLocal(s) => tag("OwnedLocal", text(s.as_str())),
        Variable::OwnedRemote(s, a, id) => tag("OwnedRemote", remote_to_json(s, a, id)),
        Variable::RefRemote(s, a, id) => tag("RefRemote", remote_to_json(s, a, id)),
        Variable::MutRefRemote(s, a, id) => tag("MutRefRemote", remote_to_json(s, a, id)),
    }
}

/// The variable that a wire form stands for, if it is the wire form of one.
pub fn variable_from_json(j: &Json) -> (r: Option<Variable>)
    ensures
        match r {
            Some(v) => json_variable(j@) == Some(v@),
            None => json_variable(j@) is None,
        },
{
    let (name, body) = match untag(j) {
        Some(pair) => pair,
        None => {
            return None;
        },
    };
    if is_text(name, "OwnedLocal") {
        return match body.as_text() {
            Some(s) => Some(Variable::OwnedLocal(s.clone())),
            None => None,
        };
    }
    let (s, a, id) = match remote_from_json(body) {
        Some(triple) => triple,
        None => {
            return None;
        },
    };
    if is_text(name, "OwnedRemote") {
        Some(Variable::OwnedRemote(s, a, id))
    } else if is_text(name, "RefRemote") {
        Some(Variable::RefRemote(s, a, id))
    } else if is_text(name, "MutRefRemote") {
        Some(Variable::MutRefRemote(s, a, id))
    } else {
        None
    }
}

pub fn op_to_json(op: InvokeOp) -> (j: Json)
    ensures
        j@ == op_json(op),
{
    match op {
        InvokeOp::Owned => text("Owned"),
        InvokeOp::Ref => text("Ref"),
        InvokeOp::MutRef => text("MutRef"),
        InvokeOp::Init => text("Init"),
    }
}

pub fn op_from_json(j: &Json) -> (r: Option<InvokeOp>)
    ensures
        r == json_op(j@),
{
    match j.as_text() {
        Some(s) => {
            if is_text(s, "Owned") {
                Some(InvokeOp::Owned)
            } else if is_text(s, "Ref") {
                Some(InvokeOp::Ref)
            } else if is_text(s, "MutRef") {
                Some(InvokeOp::MutRef)
            } else if is_text(s, "Init") {
                Some(InvokeOp::Init)
            } else {
                None
            }
        },
        None => None,
    }
}

/// The wire form of a result.
pub fn return_to_json(r: &ReturnVar) -> (j: Json)
    ensures
        j@ == return_json(r@),
{
    match r {
        ReturnVar::Owned(s) => tag("Owned", text(s.as_str())),
        ReturnVar::OwnedInit(a, id, owner) => tag("OwnedInit", init_to_json(a, id, *owner)),
        ReturnVar::RefOwned(a, id) => tag("RefOwned", stored_to_json(a, id)),
        ReturnVar::RefBorrow(s) => tag("RefBorrow", text(s.as_str())),
        ReturnVar::MutRefOwned(a, id) => tag("MutRefOwned", stored_to_json(a, id)),
        ReturnVar::MutRefBorrow(s) => tag("MutRefBorrow", text(s.as_str())),
    }
}

/// The result that a wire form stands for, if it is the wire form of one.
pub fn return_from_json(j: &Json) -> (r: Option<ReturnVar>)
    ensures
        match r {
            Some(v) => json_return(j@) == Some(v@),
            None => json_return(j@) is None,
        },
{
    let (name, body) = match untag(j) {
        Some(pair) => pair,
        None => {
            return None;
        },
    };
    let owned = is_text(name, "Owned");
    let ref_borrow = is_text(name, "RefBorrow");
    let mut_ref_borrow = is_text(name, "MutRefBorrow");
    if owned || ref_borrow || mut_ref_borrow {
        match body.as_text() {
            Some(s) => {
                if owned {
                    Some(ReturnVar::Owned(s.clone()))
                } else if ref_borrow {
                    Some(ReturnVar::RefBorrow(s.clone()))
                } else {
                    Some(ReturnVar::MutRefBorrow(s.clone()))
                }
            },
            None => None,
        }
    } else if is_text(name, "OwnedInit") {
        match init_from_json(body) {
            Some((a, id, owner)) => Some(ReturnVar::OwnedInit(a, id, owner)),
            None => None,
        }
    } else {
        let ref_owned = is_text(name, "RefOwned");
        if ref_owned || is_text(name, "MutRefOwned") {
            match stored_from_json(body) {
                Some((a, id)) => {
                    if ref_owned {
                        Some(ReturnVar::RefOwned(a, id))
                    } else {
                        Some(ReturnVar::MutRefOwned(a, id))
                    }
                },
                None => None,
            }
        } else {
            None
        }
    }
}

fn variables_to_json(vars: &Vec<Variable>) -> (j: Json)
    ensures
        j@ == JsonView::List(variables_json(variables_view(vars@))),
{
    let mut items: Vec<Json> = Vec::new();
    let mut k: usize = 0;
    while k < vars.len()
        invariant
            k <= vars@.len(),
            items@.len() == k,
            forall|i: int| 0 <= i < k ==> (#[trigger] items@[i])@ == variable_json(vars@[i]@),
        decreases vars@.len() - k,
    {
        items.push(variable_to_json(&vars[k]));
        k += 1;
    }
    let j = Json::list(items);
    assert(j@->List_0 =~= variables_json(variables_view(vars@)));
    j
}

fn variables_from_json(j: &Json) -> (r: Option<Vec<Variable>>)
    ensures
        match r {
            Some(vars) => j@ is List && json_variables(j@->List_0) == Some(variables_view(vars@)),
            None => !(j@ is List) || json_variables(j@->List_0) is None,
        },
{
    let items = match j.items() {
        Some(items) => items,
        None => {
            return None;
        },
    };
    let mut vars: Vec<Variable> = Vec::new();
    let mut k: usize = 0;
    while k < items.len()
        invariant
            k <= items@.len(),
            vars@.len() == k,
            j@ is List,
            j@->List_0.len() == items@.len(),
            forall|i: int| 0 <= i < items@.len() ==> #[trigger] j@->List_0[i] == items@[i]@,
            forall|i: int|
                0 <= i < k ==> (#[trigger] json_variable(j@->List_0[i])) == Some(vars@[i]@),
        decreases items@.len() - k,
    {
        match variable_from_json(&items[k]) {
            Some(v) => {
                vars.push(v);
            },
            None => {
                assert(json_variable(j@->List_0[k as int]) is None);
                return None;
            },
        }
        k += 1;
    }
    assert(json_variables(j@->List_0)->0 =~= variables_view(vars@));
    Some(vars)
}

/// The wire form of a message.
pub fn message_to_json(m: &Message) -> (j: Json)
    ensures
        j@ == message_json(m@),
{
    match m {
        Message::Invoke(name, vars, op) => {
            let mut items: Vec<Json> = Vec::new();
            items.push(text(name.as_str()));
            items.push(variables_to_json(vars));
            items.push(op_to_json(*op));
            let body = Json::list(items);
            assert(body@->List_0 =~= seq![
                JsonView::Text(name@),
                JsonView::List(variables_json(variables_view(vars@))),
                op_json(*op),
            ]);
            tag("Invoke", body)
        },
        Message::Return(r) => tag("Return", return_to_json(r)),
        Message::Drop(id) => tag("Drop", id_to_json(id)),
    }
}

fn invoke_from_json(j: &Json) -> (r: Option<Message>)
    ensures
        match r {
            Some(m) => json_invoke(j@) == Some(m@),
            None => json_invoke(j@) is None,
        },
{
    let items = match j.items() {
        Some(items) => items,
        None => {
            return None;
        },
    };
    if items.len() != 3 {
        return None;
    }
    let name = match items[0].as_text() {
        Some(name) => name.clone(),
        None => {
            return None;
        },
    };
    let op = match op_from_json(&items[2]) {
        Some(op) => op,
        None => {
            return None;
        },
    };
    match variables_from_json(&items[1]) {
        Some(vars) => Some(Message::Invoke(name, vars, op)),
        None => None,
    }
}

/// The message that a wire form stands for, if it is the wire form of one.
pub fn message_from_json(j: &Json) -> (r: Option<Message>)
    ensures
        match r {
            Some(m) => json_message(j@) == Some(m@),
            None => json_message(j@) is None,
        },
{
    let (name, body) = match untag(j) {
        Some(pair) => pair,
        None => {
            return None;
        },
    };
    if is_text(name, "Invoke") {
        invoke_from_json(body)
    } else if is_text(name, "Return") {
        match return_from_json(body) {
            Some(r) => Some(Message::Return(r)),
            None => None,
        }
    } else if is_text(name, "Drop") {
        match id_from_json(body) {
            Some(id) => Some(Message::Drop(id)),
            None => None,
        }
    } else {
        None
    }
}

/// A type of values that travel by their encoding: each value has a JSON form,
/// and a JSON form is read back to a value.
pub trait Wire: Sized {
    /// The JSON form of the value.
    spec fn json(&self) -> JsonView;

    /// Whether `j` is read as a value of this type.
    spec fn accepts(j: JsonView) -> bool;

    fn to_json(&self) -> (j: Json)
        ensures
            j@ == self.json(),
    ;

    /// Reads a value from its JSON form. What is read has that form.
    fn from_json(j: &Json) -> (r: Option<Self>)
        ensures
            match r {
                Some(v) => v.json() == j@,
                None => !Self::accepts(j@),
            },
    ;

    /// The JSON form of every value is read as a value.
    proof fn lemma_accepts_own(&self)
        ensures
            Self::accepts(self.json()),
    ;
}

impl Wire for () {
    open spec fn json(&self) -> JsonView {
        JsonView::Null
    }

    open spec fn accepts(j: JsonView) -> bool {
        j is Null
    }

    fn to_json(&self) -> (j: Json) {
        Json::Null
    }

    fn from_json(j: &Json) -> (r: Option<Self>) {
        match j {
            Json::Null => Some(()),
            _ => None,
        }
    }

    proof fn lemma_accepts_own(&self) {
    }
}

impl Wire for bool {
    open spec fn json(&self) -> JsonView {
        JsonView::Bool(*self)
    }

    open spec fn accepts(j: JsonView) -> bool {
        j is Bool
    }

    fn to_json(&self) -> (j: Json) {
        Json::Bool(*self)
    }

    fn from_json(j: &Json) -> (r: Option<Self>) {
        j.as_bool()
    }

    proof fn lemma_accepts_own(&self) {
    }
}

impl Wire for u32 {
    open spec fn json(&self) -> JsonView {
        JsonView::Number(*self as u64)
    }

    open spec fn accepts(j: JsonView) -> bool {
        j matches JsonView::Number(n) && n <= u32::MAX
    }

    fn to_json(&self) -> (j: Json) {
        Json::Number(*self as u64)
    }

    fn from_json(j: &Json) -> (r: Option<Self>) {
        match j.as_number() {
            Some(n) => if n <= u32::MAX as u64 {
                Some(n as u32)
            } else {
                None
            },
            None => None,
        }
    }

    proof fn lemma_accepts_own(&self) {
    }
}

impl Wire for usize {
    open spec fn json(&self) -> JsonView {
        JsonView::Number(*self as u64)
    }

    open spec fn accepts(j: JsonView) -> bool {
        j matches JsonView::Number(n) && n <= usize::MAX
    }

    fn to_json(&self) -> (j: Json) {
        Json::Number(*self as u64)
    }

    fn from_json(j: &Json) -> (r: Option<Self>) {
        match j.as_number() {
            Some(n) => if n <= usize::MAX as u64 {
                Some(n as usize)
            } else {
                None
            },
            None => None,
        }
    }

    proof fn lemma_accepts_own(&self) {
    }
}

impl Wire for String {
    open spec fn json(&self) -> JsonView {
        JsonView::Text(self@)
    }

    open spec fn accepts(j: JsonView) -> bool {
        j is Text
    }

    fn to_json(&self) -> (j: Json) {
        text(self.as_str())
    }

    fn from_json(j: &Json) -> (r: Option<Self>) {
        match j.as_text() {
            Some(s) => Some(s.clone()),
            None => None,
        }
    }

    proof fn lemma_accepts_own(&self) {
    }
}

impl Wire for Timestamp {
    open spec fn json(&self) -> JsonView {
        timestamp_json(*self)
    }

    open spec fn accepts(j: JsonView) -> bool {
        json_timestamp(j) is Some
    }

    fn to_json(&self) -> (j: Json) {
        timestamp_to_json(self)
    }

    fn from_json(j: &Json) -> (r: Option<Self>) {
        let r = timestamp_from_json(j);
        proof {
            if r is Some {
                assert(j@->Record_0 =~= timestamp_json(r->0)->Record_0);
            }
        }
        r
    }

    proof fn lemma_accepts_own(&self) {
        lemma_timestamp_round_trip(*self);
    }
}

impl<T: Wire> Wire for Option<T> {
    open spec fn json(&self) -> JsonView {
        match self {
            Some(v) => v.json(),
            None => JsonView::Null,
        }
    }

    open spec fn accepts(j: JsonView) -> bool {
        j is Null || T::accepts(j)
    }

    fn to_json(&self) -> (j: Json) {
        match self {
            Some(v) => v.to_json(),
            None => Json::Null,
        }
    }

    fn from_json(j: &Json) -> (r: Option<Self>) {
        match j {
            Json::Null => Some(None),
            _ => match T::from_json(j) {
                Some(v) => Some(Some(v)),
                None => None,
            },
        }
    }

    proof fn lemma_accepts_own(&self) {
        match self {
            Some(v) => {
                v.lemma_accepts_own();
            },
            None => {},
        }
    }
}

/// The JSON forms of the items of a list, in order.
pub open spec fn jsons<T: Wire>(items: Seq<T>) -> Seq<JsonView> {
    Seq::new(items.len(), |i: int| items[i].json())
}

impl<T: Wire> Wire for Vec<T> {
    open spec fn json(&self) -> JsonView {
        JsonView::List(jsons(self@))
    }

    open spec fn accepts(j: JsonView) -> bool {
        j matches JsonView::List(items) && forall|i: int|
            0 <= i < items.len() ==> T::accepts(#[trigger] items[i])
    }

    fn to_json(&self) -> (j: Json) {
        let mut items: Vec<Json> = Vec::new();
        let mut k: usize = 0;
        while k < self.len()
            invariant
                k <= self@.len(),
                items@.len() == k,
                forall|i: int| 0 <= i < k ==> (#[trigger] items@[i])@ == self@[i].json(),
            decreases self@.len() - k,
        {
            items.push(self[k].to_json());
            k += 1;
        }
        let j = Json::list(items);
        assert(j@->List_0 =~= jsons(self@));
        j
    }

    fn from_json(j: &Json) -> (r: Option<Self>) {
        let items = match j.items() {
            Some(items) => items,
            None => {
                return None;
            },
        };
        let mut values: Vec<T> = Vec::new();
        let mut k: usize = 0;
        while k < items.len()
            invariant
                k <= items@.len(),
                values@.len() == k,
                j@ is List,
                j@->List_0.len() == items@.len(),
                forall|i: int| 0 <= i < items@.len() ==> #[trigger] j@->List_0[i] == items@[i]@,
                forall|i: int| 0 <= i < k ==> (#[trigger] values@[i]).json() == j@->List_0[i],
            decreases items@.len() - k,
        {
            match T::from_json(&items[k]) {
                Some(v) => {
                    values.push(v);
                },
                None => {
                    assert(!T::accepts(j@->List_0[k as int]));
                    return None;
                },
            }
            k += 1;
        }
        assert(jsons(values@) =~= j@->List_0);
        Some(values)
    }

    proof fn lemma_accepts_own(&self) {
        assert forall|i: int| 0 <= i < jsons(self@).len() implies T::accepts(
            #[trigger] jsons(self@)[i],
        ) by {
            self@[i].lemma_accepts_own();
        }
    }
}

/// The text of a value: the JSON text of its JSON form.
pub fn encode<T: Wire>(value: &T) -> (s: String)
    ensures
        s@ == json_text(value.json()),
{
    value.to_json().render()
}

/// The value that a text stands for: the text must be JSON, and the JSON must
/// be read as a value of the type.
pub fn decode<T: Wire>(text: &str) -> (r: Option<T>)
    ensures
        match r {
            Some(v) => json_parsed(text@) == Some(v.json()),
            None => json_parsed(text@) matches Some(j) ==> !T::accepts(j),
        },
{
    match Json::parse(text) {
        Some(j) => T::from_json(&j),
        None => None,
    }
}

/// Writing a value and reading its JSON form again gives a value with the same
/// JSON form: nothing is lost on the way.
pub fn round_trip<T: Wire>(value: &T) -> (r: Option<T>)
    ensures
        r matches Some(v) && v.json() == value.json(),
{
    proof {
        value.lemma_accepts_own();
    }
    T::from_json(&value.to_json())
}

} // verus!
