//! Proxies: values that are either an object itself or a handle on an object
//! at another endpoint, the calls that a handle turns into, and what comes back.

use vstd::prelude::*;
use crate::ident::{Address, ResourceId, Timestamp};
use crate::json::{Json, JsonView, json_parsed, json_text};
use crate::message_serialisation::{InvokeOp, Message, MessageView, ReturnVar, ReturnVarView};
use crate::variable::{Variable, VariableView, variables_view};
use crate::wire::{
    Wire, encode, id_json, init_from_json, init_to_json, is_text, json_init, lemma_id_round_trip,
    tag, tagged, untag, untagged,
};

verus! {

/// A handle on a resource at another endpoint. The handle that owns the
/// resource releases it when it is destroyed.
pub struct RemoteView {
    pub address: Seq<char>,
    pub id: ResourceId,
    pub is_owner: bool,
}

/// The JSON form of a handle.
pub open spec fn handle_json(h: RemoteView) -> JsonView {
    tagged(
        "Remote"@,
        JsonView::List(seq![JsonView::Text(h.address), id_json(h.id), JsonView::Bool(h.is_owner)]),
    )
}

pub open spec fn json_handle(j: JsonView) -> Option<RemoteView> {
    match untagged(j) {
        Some((name, body)) => if name == "Remote"@ {
            match json_init(body) {
                Some((address, id, is_owner)) => Some(RemoteView { address, id, is_owner }),
                None => None,
            }
        } else {
            None
        },
        None => None,
    }
}

/// A handle that is written and read again is the same handle.
pub proof fn lemma_handle_round_trip(h: RemoteView)
    ensures
        json_handle(handle_json(h)) == Some(h),
{
    lemma_id_round_trip(h.id);
}

/// A JSON form that is read as a handle is the form of that handle.
pub proof fn lemma_handle_form(j: JsonView)
    requires
        json_handle(j) is Some,
    ensures
        handle_json(json_handle(j)->0) == j,
{
    let h = json_handle(j)->0;
    let pair = untagged(j)->0;
    let body = pair.1;
    crate::wire::lemma_id_form(body->List_0[1]);
    assert(body->List_0 =~= seq![
        JsonView::Text(h.address),
        id_json(h.id),
        JsonView::Bool(h.is_owner),
    ]);
    assert(j->Record_0 =~= handle_json(h)->Record_0);
}

/// The same handle without ownership: what a borrower holds, and what travels
/// inside an argument.
pub open spec fn disowned(h: RemoteView) -> RemoteView {
    RemoteView { is_owner: false, ..h }
}

/// The text by which a handle travels inside an argument. It never carries
/// ownership.
pub open spec fn lent_text(h: RemoteView) -> Seq<char> {
    json_text(handle_json(disowned(h)))
}

pub fn handle_to_json(address: &Address, id: &ResourceId, is_owner: bool) -> (j: Json)
    ensures
        j@ == handle_json(RemoteView { address: address@, id: *id, is_owner }),
{
    tag("Remote", init_to_json(address, id, is_owner))
}

pub fn handle_from_json(j: &Json) -> (r: Option<(Address, ResourceId, bool)>)
    ensures
        match r {
            Some((address, id, is_owner)) => json_handle(j@) == Some(
                RemoteView { address: address@, id, is_owner },
            ),
            None => json_handle(j@) is None,
        },
{
    match untag(j) {
        Some((name, body)) => {
            if is_text(name, "Remote") {
                init_from_json(body)
            } else {
                None
            }
        },
        None => None,
    }
}

/// The argument for an owning proxy that is handed over.
pub fn owned_remote(address: &Address, id: &ResourceId) -> (v: Variable)
    ensures
        v@ == VariableView::OwnedRemote(
            lent_text(RemoteView { address: address@, id: *id, is_owner: false }),
            address@,
            *id,
        ),
{
    Variable::OwnedRemote(handle_to_json(address, id, false).render(), address.duplicate(), *id)
}

/// The argument for a proxy that is lent.
pub fn ref_remote(address: &Address, id: &ResourceId) -> (v: Variable)
    ensures
        v@ == VariableView::RefRemote(
            lent_text(RemoteView { address: address@, id: *id, is_owner: false }),
            address@,
            *id,
        ),
{
    Variable::RefRemote(handle_to_json(address, id, false).render(), address.duplicate(), *id)
}

/// The argument for a proxy that is lent exclusively.
pub fn mut_ref_remote(address: &Address, id: &ResourceId) -> (v: Variable)
    ensures
        v@ == VariableView::MutRefRemote(
            lent_text(RemoteView { address: address@, id: *id, is_owner: false }),
            address@,
            *id,
        ),
{
    Variable::MutRefRemote(handle_to_json(address, id, false).render(), address.duplicate(), *id)
}

/// A type whose values are either the object itself or a handle on one.
pub trait Proxy: Sized {
    /// The handle, where the value is one.
    spec fn remote(&self) -> Option<RemoteView>;

    fn construct_remote(addr: Address, id: ResourceId, is_owner: bool) -> (p: Self)
        ensures
            p.remote() == Some(RemoteView { address: addr@, id, is_owner }),
    ;

    /// The parts of the handle, where the value is one.
    fn as_remote(&self) -> (r: Option<(Address, ResourceId, bool)>)
        ensures
            match r {
                Some((address, id, is_owner)) => self.remote() == Some(
                    RemoteView { address: address@, id, is_owner },
                ),
                None => self.remote() is None,
            },
    ;
}

pub trait IsLocal: Proxy {
    /// Whether the value is the object itself.
    fn is_local(&self) -> (b: bool)
        ensures
            b == (self.remote() is None),
    ;
}

pub trait IsProxyType {
    /// Whether the values of the type can be handles.
    fn is_proxy_type(&self) -> bool;
}

pub trait SerializeTag: Proxy {
    /// The JSON form of the value. A handle has the form of a handle.
    spec fn form(&self) -> JsonView;

    /// The text of the value, and whether the value is the object itself.
    fn tagged_string(&self) -> (r: (String, bool))
        ensures
            r.0@ == json_text(self.form()),
            r.1 == (self.remote() is None),
            self.remote() matches Some(h) ==> self.form() == handle_json(h),
    ;
}

/// The argument that stands for a value that is handed over: the value by its
/// text, or the handle, which then owns nothing.
pub open spec fn handed_over(remote: Option<RemoteView>, form: JsonView) -> VariableView {
    match remote {
        Some(h) => VariableView::OwnedRemote(lent_text(h), h.address, h.id),
        None => VariableView::OwnedLocal(json_text(form)),
    }
}

pub trait ToVariable: SerializeTag {
    /// The argument for this value as it is handed over. The value is used up:
    /// a handle that owned the resource is gone without releasing it.
    fn to_variable(self) -> (v: Variable)
        ensures
            v@ == handed_over(self.remote(), self.form()),
    ;

    /// The argument for this value as it is handed over, where the value stays
    /// behind: a handle gives its ownership up before the argument leaves, and
    /// an object that is here is left as it is.
    fn give(&mut self) -> (v: Variable)
        ensures
            v@ == handed_over(old(self).remote(), old(self).form()),
            final(self).remote() == match old(self).remote() {
                Some(h) => Some(disowned(h)),
                None => None,
            },
            old(self).remote() is None ==> final(self).form() == old(self).form(),
    ;
}

pub trait ToVariableRef: Proxy {
    /// The argument for a shared borrow of the resource behind this handle.
    fn to_variable(&self) -> (v: Variable)
        requires
            self.remote() is Some,
        ensures
            v@ == VariableView::RefRemote(
                lent_text(self.remote()->0),
                self.remote()->0.address,
                self.remote()->0.id,
            ),
    ;
}

pub trait ToVariableMut: Proxy {
    /// The argument for an exclusive borrow of the resource behind this handle.
    fn to_variable(&mut self) -> (v: Variable)
        requires
            old(self).remote() is Some,
        ensures
            final(self).remote() == old(self).remote(),
            v@ == VariableView::MutRefRemote(
                lent_text(old(self).remote()->0),
                old(self).remote()->0.address,
                old(self).remote()->0.id,
            ),
    ;
}

pub trait BorrowRemote: Proxy {
    /// A handle on the same resource that owns nothing.
    fn borrow_remote(&self) -> (b: Self)
        requires
            self.remote() is Some,
        ensures
            b.remote() == Some(disowned(self.remote()->0)),
    ;
}

pub trait BorrowRemoteMarker {

}

/// The message that the destruction of a value sends: a handle that owns its
/// resource releases it at the endpoint that holds it, and nothing else sends
/// anything.
pub open spec fn released(remote: Option<RemoteView>) -> Option<(Seq<char>, MessageView)> {
    match remote {
        Some(h) => if h.is_owner {
            Some((h.address, MessageView::Drop(h.id)))
        } else {
            None
        },
        None => None,
    }
}

/// The message to send when a handle with these parts is destroyed, and where
/// to send it.
pub fn drop_message(address: &Address, id: &ResourceId, is_owner: bool) -> (r: Option<
    (Address, Message),
>)
    ensures
        match r {
            Some((to, msg)) => released(
                Some(RemoteView { address: address@, id: *id, is_owner }),
            ) == Some((to@, msg@)),
            None => released(Some(RemoteView { address: address@, id: *id, is_owner })) is None,
        },
{
    if is_owner {
        Some((address.duplicate(), Message::Drop(*id)))
    } else {
        None
    }
}

pub trait DropMarker: Proxy {
    /// What to send when this value is destroyed.
    fn release(&self) -> (r: Option<(Address, Message)>)
        ensures
            match r {
                Some((to, msg)) => released(self.remote()) == Some((to@, msg@)),
                None => released(self.remote()) is None,
            },
    ;
}

pub trait Retrieve: Sized {
    fn retrieve(&self) -> Self;
}

/// Values of the library's own types as arguments.
pub trait ToVariableL {
    /// The JSON form by which the value travels.
    spec fn travels_as(&self) -> JsonView;

    fn to_variable(self) -> (v: Variable)
        ensures
            v@ == VariableView::OwnedLocal(json_text(self.travels_as())),
    ;
}

pub trait ToVariableRefL {
    fn to_variable(&self) -> Variable;
}

pub trait ToVariableMutL {
    fn to_variable(&mut self) -> Variable;
}

impl ToVariableL for Timestamp {
    open spec fn travels_as(&self) -> JsonView {
        self.json()
    }

    fn to_variable(self) -> (v: Variable) {
        Variable::OwnedLocal(encode(&self))
    }
}

impl<T: Wire> ToVariableL for Option<T> {
    open spec fn travels_as(&self) -> JsonView {
        self.json()
    }

    fn to_variable(self) -> (v: Variable) {
        Variable::OwnedLocal(encode(&self))
    }
}

impl ToVariableL for u32 {
    open spec fn travels_as(&self) -> JsonView {
        self.json()
    }

    fn to_variable(self) -> (v: Variable) {
        Variable::OwnedLocal(encode(&self))
    }
}

impl ToVariableL for String {
    open spec fn travels_as(&self) -> JsonView {
        self.json()
    }

    fn to_variable(self) -> (v: Variable) {
        Variable::OwnedLocal(encode(&self))
    }
}

impl ToVariableL for bool {
    open spec fn travels_as(&self) -> JsonView {
        self.json()
    }

    fn to_variable(self) -> (v: Variable) {
        Variable::OwnedLocal(encode(&self))
    }
}

/// Results of the library's own types: their text, and that they live in this
/// process.
pub trait SerializeTagL {
    spec fn travels_as(&self) -> JsonView;

    fn tagged_string(&self) -> (r: (String, bool))
        ensures
            r.0@ == json_text(self.travels_as()),
            r.1,
    ;
}

impl SerializeTagL for () {
    open spec fn travels_as(&self) -> JsonView {
        self.json()
    }

    fn tagged_string(&self) -> (r: (String, bool)) {
        (encode(self), true)
    }
}

impl<T: Wire> SerializeTagL for Option<T> {
    open spec fn travels_as(&self) -> JsonView {
        self.json()
    }

    fn tagged_string(&self) -> (r: (String, bool)) {
        (encode(self), true)
    }
}

impl SerializeTagL for bool {
    open spec fn travels_as(&self) -> JsonView {
        self.json()
    }

    fn tagged_string(&self) -> (r: (String, bool)) {
        (encode(self), true)
    }
}

/// A proxy for values of type `T`: such a value itself, or a handle on one at
/// another endpoint, with the address of the endpoint, the id of the resource,
/// and whether this handle owns the resource.
#[derive(Debug, PartialEq, Eq)]
pub enum ProxyHandle<T> {
    Local(T),
    Remote(Address, ResourceId, bool),
}

impl<T> ProxyHandle<T> {
    /// The value, where it is here.
    pub fn local(&self) -> (r: Option<&T>)
        ensures
            match r {
                Some(v) => *self == ProxyHandle::Local(*v),
                None => self is Remote,
            },
    {
        match self {
            ProxyHandle::Local(v) => Some(v),
            ProxyHandle::Remote(..) => None,
        }
    }
}

impl<T> Proxy for ProxyHandle<T> {
    open spec fn remote(&self) -> Option<RemoteView> {
        match *self {
            ProxyHandle::Local(_) => None,
            ProxyHandle::Remote(address, id, is_owner) => Some(
                RemoteView { address: address@, id, is_owner },
            ),
        }
    }

    fn construct_remote(addr: Address, id: ResourceId, is_owner: bool) -> (p: Self) {
        ProxyHandle::Remote(addr, id, is_owner)
    }

    fn as_remote(&self) -> (r: Option<(Address, ResourceId, bool)>) {
        match self {
            ProxyHandle::Local(_) => None,
            ProxyHandle::Remote(address, id, is_owner) => Some(
                (address.duplicate(), *id, *is_owner),
            ),
        }
    }
}

impl<T> IsLocal for ProxyHandle<T> {
    fn is_local(&self) -> (b: bool) {
        match self {
            ProxyHandle::Remote(..) => false,
            _ => true,
        }
    }
}

impl<T> IsProxyType for ProxyHandle<T> {
    /// A proxy is of a type whose values can be handles, whichever it is.
    fn is_proxy_type(&self) -> (b: bool)
        ensures
            b,
    {
        true
    }
}

/// The JSON form of a proxy: a value that is here under the name `Local`, a
/// handle under the name `Remote`.
pub open spec fn proxy_json<T: Wire>(p: ProxyHandle<T>) -> JsonView {
    match p {
        ProxyHandle::Local(v) => tagged("Local"@, v.json()),
        ProxyHandle::Remote(address, id, is_owner) => handle_json(
            RemoteView { address: address@, id, is_owner },
        ),
    }
}

proof fn lemma_local_and_remote_differ()
    ensures
        "Local"@ != "Remote"@,
{
    reveal_strlit("Local");
    reveal_strlit("Remote");
    assert("Local"@.len() == 5);
    assert("Remote"@.len() == 6);
}

impl<T: Wire> Wire for ProxyHandle<T> {
    open spec fn json(&self) -> JsonView {
        proxy_json(*self)
    }

    open spec fn accepts(j: JsonView) -> bool {
        ||| json_handle(j) is Some
        ||| untagged(j) matches Some((name, body)) && name == "Local"@ && T::accepts(body)
    }

    fn to_json(&self) -> (j: Json) {
        match self {
            ProxyHandle::Local(v) => tag("Local", v.to_json()),
            ProxyHandle::Remote(address, id, is_owner) => handle_to_json(address, id, *is_owner),
        }
    }

    fn from_json(j: &Json) -> (r: Option<Self>) {
        proof {
            lemma_local_and_remote_differ();
        }
        match untag(j) {
            Some((name, body)) => {
                if is_text(name, "Local") {
                    match T::from_json(body) {
                        Some(v) => {
                            assert(j@->Record_0 =~= seq![("Local"@, v.json())]);
                            Some(ProxyHandle::Local(v))
                        },
                        None => None,
                    }
                } else {
                    match handle_from_json(j) {
                        Some((address, id, is_owner)) => {
                            proof {
                                lemma_handle_form(j@);
                            }
                            Some(ProxyHandle::Remote(address, id, is_owner))
                        },
                        None => None,
                    }
                }
            },
            None => None,
        }
    }

    proof fn lemma_accepts_own(&self) {
        match *self {
            ProxyHandle::Local(v) => {
                v.lemma_accepts_own();
            },
            ProxyHandle::Remote(address, id, is_owner) => {
                lemma_handle_round_trip(RemoteView { address: address@, id, is_owner });
            },
        }
    }
}

impl<T: Wire> SerializeTag for ProxyHandle<T> {
    open spec fn form(&self) -> JsonView {
        proxy_json(*self)
    }

    fn tagged_string(&self) -> (r: (String, bool)) {
        (encode(self), self.is_local())
    }
}

impl<T: Wire> ToVariable for ProxyHandle<T> {
    fn to_variable(self) -> (v: Variable) {
        match self {
            ProxyHandle::Local(_) => Variable::OwnedLocal(encode(&self)),
            ProxyHandle::Remote(address, id, _) => owned_remote(&address, &id),
        }
    }

    fn give(&mut self) -> (v: Variable) {
        match self {
            ProxyHandle::Local(_) => Variable::OwnedLocal(encode(&*self)),
            ProxyHandle::Remote(address, id, is_owner) => {
                *is_owner = false;
                owned_remote(address, id)
            },
        }
    }
}

impl<T> ToVariableRef for ProxyHandle<T> {
    fn to_variable(&self) -> (v: Variable) {
        match self {
            ProxyHandle::Remote(address, id, _) => ref_remote(address, id),
            ProxyHandle::Local(_) => vstd::pervasive::unreached(),
        }
    }
}

impl<T> ToVariableMut for ProxyHandle<T> {
    fn to_variable(&mut self) -> (v: Variable) {
        match self {
            ProxyHandle::Remote(address, id, _) => mut_ref_remote(address, id),
            ProxyHandle::Local(_) => vstd::pervasive::unreached(),
        }
    }
}

impl<T> BorrowRemote for ProxyHandle<T> {
    fn borrow_remote(&self) -> (b: Self) {
        match self {
            ProxyHandle::Remote(address, id, _) => ProxyHandle::Remote(
                address.duplicate(),
                *id,
                false,
            ),
            ProxyHandle::Local(_) => vstd::pervasive::unreached(),
        }
    }
}

impl<T> BorrowRemoteMarker for ProxyHandle<T> {

}

impl<T> DropMarker for ProxyHandle<T> {
    fn release(&self) -> (r: Option<(Address, Message)>) {
        match self {
            ProxyHandle::Remote(address, id, is_owner) => drop_message(address, id, *is_owner),
            ProxyHandle::Local(_) => None,
        }
    }
}

/// What a method gives back, as its stub sees it.
#[derive(Clone, Copy, Debug, PartialEq, Eq, Structural)]
pub enum ReturnTypeOptions {
    /// Nothing.
    Default,
    /// A value.
    Owned,
    /// A shared reference.
    Ref,
    /// An exclusive reference.
    MutRef,
}

impl ReturnTypeOptions {
    /// The treatment of the result that the stub asks for.
    pub open spec fn op(self) -> InvokeOp {
        match self {
            ReturnTypeOptions::Default | ReturnTypeOptions::Owned => InvokeOp::Owned,
            ReturnTypeOptions::Ref => InvokeOp::Ref,
            ReturnTypeOptions::MutRef => InvokeOp::MutRef,
        }
    }

    pub fn invoke_op(&self) -> (op: InvokeOp)
        ensures
            op == self.op(),
    {
        match self {
            ReturnTypeOptions::Default => InvokeOp::Owned,
            ReturnTypeOptions::Owned => InvokeOp::Owned,
            ReturnTypeOptions::Ref => InvokeOp::Ref,
            ReturnTypeOptions::MutRef => InvokeOp::MutRef,
        }
    }
}

/// The call that a method on a handle turns into: the registered name of the
/// method, the receiver first among the arguments, and the treatment that fits
/// what the method gives back.
pub fn method_invoke(name: &str, receiver: Variable, args: Vec<Variable>, result: ReturnTypeOptions) -> (m:
    Message)
    ensures
        m@ == MessageView::Invoke(
            name@,
            seq![receiver@] + variables_view(args@),
            result.op(),
        ),
{
    let mut all: Vec<Variable> = Vec::new();
    all.push(receiver);
    let mut args = args;
    let ghost rest = args@;
    all.append(&mut args);
    assert(variables_view(all@) =~= seq![receiver@] + variables_view(rest));
    Message::Invoke(name.to_owned(), all, result.invoke_op())
}

/// The call that makes a new resource at an endpoint.
pub fn init_invoke(name: &str, args: Vec<Variable>) -> (m: Message)
    ensures
        m@ == MessageView::Invoke(name@, variables_view(args@), InvokeOp::Init),
{
    Message::Invoke(name.to_owned(), args, InvokeOp::Init)
}

/// What a stub has received.
#[derive(Clone, Debug, PartialEq, Eq)]
pub enum Received {
    /// A value, by its text.
    Value(String),
    /// A handle to hold: address, id, and whether it owns the resource.
    Handle(Address, ResourceId, bool),
}

pub enum ReceivedView {
    Value(Seq<char>),
    Handle(RemoteView),
}

impl View for Received {
    type V = ReceivedView;

    open spec fn view(&self) -> ReceivedView {
        match *self {
            Received::Value(s) => ReceivedView::Value(s@),
            Received::Handle(address, id, is_owner) => ReceivedView::Handle(
                RemoteView { address: address@, id, is_owner },
            ),
        }
    }
}

/// Why a stub could not use a reply.
#[derive(Clone, Copy, Debug, PartialEq, Eq, Structural)]
pub enum StubError {
    /// The reply is not a `Return`.
    NotAReturn,
    /// The result has a shape that does not fit the call.
    WrongReturn,
    /// A reference to a resource elsewhere did not come as a handle.
    NotAProxy,
    /// The text of the result is not that of a value of the expected type.
    BadValue,
}

/// What a method of a proxy comes to: the result, where the object is here, or
/// the call to make and the endpoint to make it at.
#[derive(Debug, PartialEq, Eq)]
pub enum Stub<T> {
    Done(T),
    Call(Address, Message),
}

/// The value in the reply to a call that gives a value back.
pub open spec fn replied_value<T: Wire>(reply: MessageView, r: Result<T, StubError>) -> bool {
    match received(InvokeOp::Owned, reply) {
        Ok(ReceivedView::Value(text)) => match r {
            Ok(v) => json_parsed(text) == Some(v.json()),
            Err(e) => e == StubError::BadValue && (json_parsed(text) matches Some(j)
                ==> !T::accepts(j)),
        },
        Ok(ReceivedView::Handle(_)) => r == Err::<T, _>(StubError::WrongReturn),
        Err(e) => r == Err::<T, _>(e),
    }
}

/// Takes the value out of the reply to a call that gives a value back.
pub fn receive_value<T: Wire>(reply: Message) -> (r: Result<T, StubError>)
    ensures
        replied_value(reply@, r),
{
    match receive(InvokeOp::Owned, reply) {
        Ok(Received::Value(text)) => match crate::wire::decode::<T>(text.as_str()) {
            Some(v) => Ok(v),
            None => Err(StubError::BadValue),
        },
        Ok(Received::Handle(_, _, _)) => Err(StubError::WrongReturn),
        Err(e) => Err(e),
    }
}

/// The handle that a borrowed reference to a resource elsewhere stands for: the
/// text must be that of a handle, and the handle that the caller then holds
/// owns nothing.
pub open spec fn borrowed_handle(text: Seq<char>) -> Result<ReceivedView, StubError> {
    match json_parsed(text) {
        Some(j) => match json_handle(j) {
            Some(h) => Ok(ReceivedView::Handle(disowned(h))),
            None => Err(StubError::NotAProxy),
        },
        None => Err(StubError::NotAProxy),
    }
}

/// What a stub makes of a reply to a call that asked for treatment `op`.
pub open spec fn received(op: InvokeOp, reply: MessageView) -> Result<ReceivedView, StubError> {
    match reply {
        MessageView::Return(r) => match (op, r) {
            (InvokeOp::Owned, ReturnVarView::Owned(s)) => Ok(ReceivedView::Value(s)),
            (InvokeOp::Init, ReturnVarView::Owned(s)) => Ok(ReceivedView::Value(s)),
            (InvokeOp::Init, ReturnVarView::OwnedInit(address, id, is_owner)) => Ok(
                ReceivedView::Handle(RemoteView { address, id, is_owner }),
            ),
            (InvokeOp::Ref, ReturnVarView::RefOwned(address, id)) => Ok(
                ReceivedView::Handle(RemoteView { address, id, is_owner: true }),
            ),
            (InvokeOp::Ref, ReturnVarView::RefBorrow(s)) => borrowed_handle(s),
            (InvokeOp::MutRef, ReturnVarView::MutRefOwned(address, id)) => Ok(
                ReceivedView::Handle(RemoteView { address, id, is_owner: true }),
            ),
            (InvokeOp::MutRef, ReturnVarView::MutRefBorrow(s)) => borrowed_handle(s),
            _ => Err(StubError::WrongReturn),
        },
        _ => Err(StubError::NotAReturn),
    }
}

/// What came back, with the received value or handle by its view.
pub open spec fn received_view(r: Result<Received, StubError>) -> Result<ReceivedView, StubError> {
    match r {
        Ok(v) => Ok(v@),
        Err(e) => Err(e),
    }
}

fn receive_borrowed(text: &String) -> (r: Result<Received, StubError>)
    ensures
        received_view(r) == borrowed_handle(text@),
{
    match Json::parse(text.as_str()) {
        Some(j) => match handle_from_json(&j) {
            Some((address, id, _)) => Ok(Received::Handle(address, id, false)),
            None => Err(StubError::NotAProxy),
        },
        None => Err(StubError::NotAProxy),
    }
}

/// Takes the result out of the reply to a call that asked for treatment `op`.
/// A value comes as its text. A result that the endpoint stored comes as a
/// handle that owns it. A reference to a resource elsewhere comes as a handle
/// that owns nothing.
pub fn receive(op: InvokeOp, reply: Message) -> (r: Result<Received, StubError>)
    ensures
        received_view(r) == received(op, reply@),
{
    let result = match reply {
        Message::Return(result) => result,
        _ => {
            return Err(StubError::NotAReturn);
        },
    };
    match op {
        InvokeOp::Owned => match result {
            ReturnVar::Owned(s) => Ok(Received::Value(s)),
            _ => Err(StubError::WrongReturn),
        },
        InvokeOp::Init => match result {
            ReturnVar::Owned(s) => Ok(Received::Value(s)),
            ReturnVar::OwnedInit(address, id, is_owner) => Ok(
                Received::Handle(address, id, is_owner),
            ),
            _ => Err(StubError::WrongReturn),
        },
        InvokeOp::Ref => match result {
            ReturnVar::RefOwned(address, id) => Ok(Received::Handle(address, id, true)),
            ReturnVar::RefBorrow(s) => receive_borrowed(&s),
            _ => Err(StubError::WrongReturn),
        },
        InvokeOp::MutRef => match result {
            ReturnVar::MutRefOwned(address, id) => Ok(Received::Handle(address, id, true)),
            ReturnVar::MutRefBorrow(s) => receive_borrowed(&s),
            _ => Err(StubError::WrongReturn),
        },
    }
}

/// A value that came back by value takes the resource over: where it is a
/// handle, the caller now owns the resource.
pub fn adopt<T: Proxy>(value: T) -> (r: T)
    ensures
        match value.remote() {
            Some(h) => r.remote() == Some(RemoteView { is_owner: true, ..h }),
            None => r == value,
        },
{
    match value.as_remote() {
        Some((address, id, _)) => T::construct_remote(address, id, true),
        None => value,
    }
}

/// The place where a stub keeps the handles behind the references that it has
/// given out. What is kept stays, in the order in which it came.
pub struct BorrowSlots<T> {
    held: Vec<T>,
}

impl<T> View for BorrowSlots<T> {
    type V = Seq<T>;

    closed spec fn view(&self) -> Seq<T> {
        self.held@
    }
}

impl<T> BorrowSlots<T> {
    pub fn new() -> (s: BorrowSlots<T>)
        ensures
            s@ == Seq::<T>::empty(),
    {
        BorrowSlots { held: Vec::new() }
    }

    pub fn len(&self) -> (n: usize)
        ensures
            n == self@.len(),
    {
        self.held.len()
    }

    /// Keeps `item` and gives its place.
    pub fn hold(&mut self, item: T) -> (place: usize)
        ensures
            place == old(self)@.len(),
            final(self)@ == old(self)@.push(item),
    {
        let place = self.held.len();
        self.held.push(item);
        place
    }

    /// What is kept at `place`.
    pub fn get(&self, place: usize) -> (r: Option<&T>)
        ensures
            match r {
                Some(item) => place < self@.len() && *item == self@[place as int],
                None => place >= self@.len(),
            },
    {
        if place < self.held.len() {
            Some(&self.held[place])
        } else {
            None
        }
    }

    /// What is kept at `place`, to be changed there.
    pub fn get_mut(&mut self, place: usize) -> (r: Option<&mut T>)
        ensures
            match r {
                Some(item) => place < old(self)@.len() && *item == old(self)@[place as int]
                    && final(self)@ == old(self)@.update(place as int, *final(item)),
                None => place >= old(self)@.len() && final(self)@ == old(self)@,
            },
    {
        if place < self.held.len() {
            Some(&mut self.held[place])
        } else {
            None
        }
    }
}

/// How many of the handles own the resource `id` at `address`.
pub open spec fn owners(handles: Seq<RemoteView>, address: Seq<char>, id: ResourceId) -> nat
    decreases handles.len(),
{
    if handles.len() == 0 {
        0
    } else {
        let rest = owners(handles.drop_last(), address, id);
        if owns(handles.last(), address, id) {
            rest + 1
        } else {
            rest
        }
    }
}

pub open spec fn owns(h: RemoteView, address: Seq<char>, id: ResourceId) -> bool {
    h.is_owner && h.address == address && h.id == id
}

/// How many `Drop`s for `id` the endpoint at `address` gets when all the
/// handles are destroyed.
pub open spec fn drops(handles: Seq<RemoteView>, address: Seq<char>, id: ResourceId) -> nat
    decreases handles.len(),
{
    if handles.len() == 0 {
        0
    } else {
        let rest = drops(handles.drop_last(), address, id);
        if released(Some(handles.last())) == Some((address, MessageView::Drop(id))) {
            rest + 1
        } else {
            rest
        }
    }
}

/// When handles are destroyed, the endpoint gets one `Drop` of a resource for
/// each handle that owns it: exactly one where one handle owns it, none where
/// none does.
pub proof fn lemma_one_drop_per_owner(handles: Seq<RemoteView>, address: Seq<char>, id: ResourceId)
    ensures
        drops(handles, address, id) == owners(handles, address, id),
    decreases handles.len(),
{
    if handles.len() > 0 {
        lemma_one_drop_per_owner(handles.drop_last(), address, id);
    }
}

/// A new handle that owns nothing leaves the number of owners as it was:
/// borrowing a proxy, or receiving one inside an argument, makes no owner.
pub proof fn lemma_borrow_makes_no_owner(
    handles: Seq<RemoteView>,
    h: RemoteView,
    address: Seq<char>,
    id: ResourceId,
)
    ensures
        owners(handles.push(disowned(h)), address, id) == owners(handles, address, id),
{
    assert(handles.push(disowned(h)).drop_last() =~= handles);
}

/// Replacing a handle by the same handle without ownership lowers the number
/// of owners of its resource by one if it was an owner, and changes no other
/// count.
pub proof fn lemma_disown(handles: Seq<RemoteView>, i: int, address: Seq<char>, id: ResourceId)
    requires
        0 <= i < handles.len(),
    ensures
        owners(handles.update(i, disowned(handles[i])), address, id) == owners(
            handles,
            address,
            id,
        ) - (if owns(handles[i], address, id) {
            1int
        } else {
            0int
        }),
    decreases handles.len(),
{
    let after = handles.update(i, disowned(handles[i]));
    if i == handles.len() - 1 {
        assert(after.drop_last() =~= handles.drop_last());
    } else {
        assert(after.drop_last() =~= handles.drop_last().update(i, disowned(handles[i])));
        lemma_disown(handles.drop_last(), i, address, id);
    }
}

/// Handing a proxy over as an argument never makes a second owner: the sender's
/// handle gives its ownership up, and the handle that travels owns nothing. So
/// where at most one handle owned the resource before, at most one does after.
pub proof fn lemma_move_keeps_owner_unique(
    handles: Seq<RemoteView>,
    i: int,
    address: Seq<char>,
    id: ResourceId,
)
    requires
        0 <= i < handles.len(),
        owners(handles, address, id) <= 1,
    ensures
        owners(
            handles.update(i, disowned(handles[i])).push(disowned(handles[i])),
            address,
            id,
        ) <= 1,
{
    lemma_disown(handles, i, address, id);
    lemma_borrow_makes_no_owner(
        handles.update(i, disowned(handles[i])),
        handles[i],
        address,
        id,
    );
}

/// The handle that an initialisation gives is the one owner of the new
/// resource, where no handle on that resource was there before.
pub proof fn lemma_init_makes_one_owner(
    handles: Seq<RemoteView>,
    address: Seq<char>,
    id: ResourceId,
)
    requires
        owners(handles, address, id) == 0,
    ensures
        owners(handles.push(RemoteView { address, id, is_owner: true }), address, id) == 1,
{
    assert(handles.push(RemoteView { address, id, is_owner: true }).drop_last() =~= handles);
}

} // verus!
