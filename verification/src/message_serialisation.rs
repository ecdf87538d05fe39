//! The messages that endpoints exchange.

use vstd::prelude::*;
use crate::ident::{Address, ResourceId};
use vstd::string::{StrSliceExecFns, StringExecFns};
use crate::json::{Json, json_parsed, json_text};
use crate::variable::{Variable, VariableView, variables_view};
use crate::wire::{json_message, message_from_json, message_json, message_to_json};

verus! {

/// The result of an invocation, as it travels back.
#[derive(Clone, Debug, PartialEq, Eq)]
pub enum ReturnVar {
    /// A value by its encoding; it may be the encoding of a proxy.
    Owned(String),
    /// A proxy for a resource that the endpoint has just made and stored:
    /// address, id, and whether the receiver owns it.
    OwnedInit(Address, ResourceId, bool),
    /// A shared reference that the endpoint stored under the given id.
    RefOwned(Address, ResourceId),
    /// A shared reference to a resource elsewhere, by the proxy's encoding.
    RefBorrow(String),
    /// An exclusive reference that the endpoint stored under the given id.
    MutRefOwned(Address, ResourceId),
    /// An exclusive reference to a resource elsewhere, by the proxy's encoding.
    MutRefBorrow(String),
}

/// How the caller wants the result of an invocation treated.
#[derive(Clone, Copy, Debug, PartialEq, Eq, Structural)]
pub enum InvokeOp {
    /// The result is passed by copy or move.
    Owned,
    /// The result is passed by shared reference.
    Ref,
    /// The result is passed by exclusive reference.
    MutRef,
    /// The call makes a resource that stays at the endpoint.
    Init,
}

#[derive(Clone, Debug, PartialEq, Eq)]
pub enum Message {
    /// Function name, arguments, treatment of the result.
    Invoke(String, Vec<Variable>, InvokeOp),
    Return(ReturnVar),
    /// Release the resource with this id.
    Drop(ResourceId),
}

pub enum ReturnVarView {
    Owned(Seq<char>),
    OwnedInit(Seq<char>, ResourceId, bool),
    RefOwned(Seq<char>, ResourceId),
    RefBorrow(Seq<char>),
    MutRefOwned(Seq<char>, ResourceId),
    MutRefBorrow(Seq<char>),
}

pub enum MessageView {
    Invoke(Seq<char>, Seq<VariableView>, InvokeOp),
    Return(ReturnVarView),
    Drop(ResourceId),
}

impl View for ReturnVar {
    type V = ReturnVarView;

    open spec fn view(&self) -> ReturnVarView {
        match *self {
            ReturnVar::Owned(s) => ReturnVarView::Owned(s@),
            ReturnVar::OwnedInit(a, id, owner) => ReturnVarView::OwnedInit(a@, id, owner),
            ReturnVar::RefOwned(a, id) => ReturnVarView::RefOwned(a@, id),
            ReturnVar::RefBorrow(s) => ReturnVarView::RefBorrow(s@),
            ReturnVar::MutRefOwned(a, id) => ReturnVarView::MutRefOwned(a@, id),
            ReturnVar::MutRefBorrow(s) => ReturnVarView::MutRefBorrow(s@),
        }
    }
}

impl View for Message {
    type V = MessageView;

    open spec fn view(&self) -> MessageView {
        match *self {
            Message::Invoke(name, vars, op) => MessageView::Invoke(name@, variables_view(vars@), op),
            Message::Return(r) => MessageView::Return(r@),
            Message::Drop(id) => MessageView::Drop(id),
        }
    }
}

/// The text of a message: the JSON text of its wire form.
pub open spec fn message_text(m: MessageView) -> Seq<char> {
    json_text(message_json(m))
}

/// The message that a text stands for: the text must be JSON, and the JSON the
/// wire form of a message.
pub open spec fn text_message(text: Seq<char>) -> Option<MessageView> {
    match json_parsed(text) {
        Some(j) => json_message(j),
        None => None,
    }
}

/// What a line holds before the newline that ends it. There is nothing where
/// the line is empty, where no newline ends it, or where a newline stands
/// before its end: that is more than one line.
pub open spec fn line_body(line: Seq<char>) -> Option<Seq<char>> {
    if line.len() > 0 && line.last() == '\n' && !line.drop_last().contains('\n') {
        Some(line.drop_last())
    } else {
        None
    }
}

/// A text without a newline that is framed as a line is found again in the
/// line.
pub proof fn lemma_line_round_trip(text: Seq<char>)
    requires
        !text.contains('\n'),
    ensures
        line_body(text.push('\n')) == Some(text),
{
    assert(text.push('\n').drop_last() =~= text);
}

/// Whether a text holds a newline.
pub fn has_newline(s: &str) -> (b: bool)
    ensures
        b == s@.contains('\n'),
{
    let mut found = false;
    for c in it: s.chars()
        invariant
            it.seq() == s@,
            found == (exists|i: int| 0 <= i < it.index() && s@[i] == '\n'),
    {
        if c == '\n' {
            found = true;
        }
    }
    found
}

impl Message {
    /// The text of the message.
    pub fn encode(&self) -> (s: String)
        ensures
            s@ == message_text(self@),
    {
        message_to_json(self).render()
    }

    /// The message that a text stands for, if it stands for one.
    pub fn decode(text: &str) -> (r: Option<Message>)
        ensures
            match r {
                Some(m) => text_message(text@) == Some(m@),
                None => text_message(text@) is None,
            },
    {
        match Json::parse(text) {
            Some(j) => message_from_json(&j),
            None => None,
        }
    }

    /// The message as it is sent: its text, ended by a newline.
    pub fn to_line(&self) -> (s: String)
        ensures
            s@ == message_text(self@).push('\n'),
    {
        let mut s = self.encode();
        proof {
            reveal_strlit("\n");
        }
        s.append("\n");
        assert(s@ =~= message_text(self@).push('\n'));
        s
    }

    /// The message in a line as it was received. A line that no newline ends is
    /// not a whole message, and is refused; so is what holds more than one
    /// line.
    pub fn from_line(line: &str) -> (r: Option<Message>)
        ensures
            match line_body(line@) {
                Some(body) => match r {
                    Some(m) => text_message(body) == Some(m@),
                    None => text_message(body) is None,
                },
                None => r is None,
            },
    {
        let n = line.unicode_len();
        if n == 0 || line.get_char(n - 1) != '\n' {
            return None;
        }
        let body = line.substring_char(0, n - 1);
        assert(body@ =~= line@.drop_last());
        if has_newline(body) {
            return None;
        }
        Message::decode(body)
    }
}

/// Why a call over the transport failed.
#[derive(Clone, Copy, Debug, PartialEq, Eq, Structural)]
pub enum TransportError {
    ConnectFailed,
    WriteFailed,
    ReadFailed,
}

pub type BadResponseError = String;

impl TransportError {
    /// The reason as a text, as a caller of the transport gets it.
    pub fn reason(&self) -> (s: BadResponseError)
        ensures
            s@ == match *self {
                TransportError::ConnectFailed => "Connection Failure"@,
                TransportError::WriteFailed => "Unable to send data to server"@,
                TransportError::ReadFailed => "Unable to receive data from server"@,
            },
    {
        match self {
            TransportError::ConnectFailed => "Connection Failure".to_owned(),
            TransportError::WriteFailed => "Unable to send data to server".to_owned(),
            TransportError::ReadFailed => "Unable to receive data from server".to_owned(),
        }
    }
}

} // verus!
