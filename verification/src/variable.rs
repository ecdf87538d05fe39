//! The shapes in which an argument travels: a value by its encoding, or a proxy
//! that is moved, lent or lent exclusively.

use vstd::prelude::*;
use crate::ident::{Address, ResourceId};

verus! {

/// An argument on the wire.
#[derive(Clone, Debug, PartialEq, Eq)]
pub enum Variable {
    /// A value, by its encoding.
    OwnedLocal(String),
    /// An owning proxy that is handed over: its encoding, the endpoint that
    /// holds the resource, and the resource's id.
    OwnedRemote(String, Address, ResourceId),
    /// A shared borrow of a remote resource.
    RefRemote(String, Address, ResourceId),
    /// An exclusive borrow of a remote resource.
    MutRefRemote(String, Address, ResourceId),
}

/// What a `Variable` holds, as mathematical values.
pub enum VariableView {
    OwnedLocal(Seq<char>),
    OwnedRemote(Seq<char>, Seq<char>, ResourceId),
    RefRemote(Seq<char>, Seq<char>, ResourceId),
    MutRefRemote(Seq<char>, Seq<char>, ResourceId),
}

impl View for Variable {
    type V = VariableView;

    open spec fn view(&self) -> VariableView {
        match *self {
            Variable::OwnedLocal(s) => VariableView::OwnedLocal(s@),
            Variable::OwnedRemote(s, a, id) => VariableView::OwnedRemote(s@, a@, id),
            Variable::RefRemote(s, a, id) => VariableView::RefRemote(s@, a@, id),
            Variable::MutRefRemote(s, a, id) => VariableView::MutRefRemote(s@, a@, id),
        }
    }
}

impl VariableView {
    /// Whether the variable stands for a borrow.
    pub open spec fn is_ref(self) -> bool {
        self is RefRemote || self is MutRefRemote
    }
}

impl Variable {
    /// Whether the variable stands for a borrow, shared or exclusive.
    pub fn is_ref(&self) -> (b: bool)
        ensures
            b == self@.is_ref(),
    {
        match self {
            Variable::OwnedLocal(..) | Variable::OwnedRemote(..) => false,
            _ => true,
        }
    }
}

/// The views of a list of variables, in order.
pub open spec fn variables_view(vars: Seq<Variable>) -> Seq<VariableView> {
    Seq::new(vars.len(), |i: int| vars[i]@)
}

} // verus!
