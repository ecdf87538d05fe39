//! The registry: the adapters of the functions that an endpoint offers, each
//! under the function's name, and the arguments that an adapter is called with.

use vstd::prelude::*;
use crate::assoc::{assoc, distinct, lemma_absent, lemma_at, lemma_dom, lemma_empty, lemma_push, lemma_remove_at};

verus! {

/// An argument as an adapter receives it.
pub enum Argument<R> {
    /// The encoding of a value, or of a proxy for a resource elsewhere.
    Serialised(String),
    /// A resource that was moved out of the endpoint's table.
    Owned(R),
    /// A shared borrow of a resource of this endpoint: its place among the lent
    /// objects, and whether the object is a stored reference.
    Ref(usize, bool),
    /// An exclusive borrow of a resource of this endpoint: its place among the
    /// lent objects, and whether the object is a stored reference.
    MutRef(usize, bool),
    /// A shared borrow of a resource elsewhere, by the proxy's encoding.
    RemoteRef(String),
    /// An exclusive borrow of a resource elsewhere, by the proxy's encoding.
    RemoteMutRef(String),
}

pub enum ArgumentView<R> {
    Serialised(Seq<char>),
    Owned(R),
    Ref(usize, bool),
    MutRef(usize, bool),
    RemoteRef(Seq<char>),
    RemoteMutRef(Seq<char>),
}

impl<R> View for Argument<R> {
    type V = ArgumentView<R>;

    open spec fn view(&self) -> ArgumentView<R> {
        match *self {
            Argument::Serialised(s) => ArgumentView::Serialised(s@),
            Argument::Owned(object) => ArgumentView::Owned(object),
            Argument::Ref(k, is_ref) => ArgumentView::Ref(k, is_ref),
            Argument::MutRef(k, is_ref) => ArgumentView::MutRef(k, is_ref),
            Argument::RemoteRef(s) => ArgumentView::RemoteRef(s@),
            Argument::RemoteMutRef(s) => ArgumentView::RemoteMutRef(s@),
        }
    }
}

/// The views of a list of arguments, in order.
pub open spec fn arguments_view<R>(args: Seq<Argument<R>>) -> Seq<ArgumentView<R>> {
    Seq::new(args.len(), |i: int| args[i]@)
}

/// How an adapter gets at the typed value behind an argument.
#[derive(Clone, Copy, Debug, PartialEq, Eq, Structural)]
pub enum Access {
    /// Decode the text to the parameter's type.
    Decode,
    /// The object is the value itself: downcast it.
    Value,
    /// The object is a stored reference: downcast it to the pointer that was
    /// stored, and follow that.
    Pointer,
    /// Decode the text to a proxy and take a borrow of it that owns nothing; the
    /// borrow is kept alive beyond the call.
    BorrowRemote,
}

/// How a value is handed to the function: owned, by shared reference or by
/// exclusive reference.
#[derive(Clone, Copy, Debug, PartialEq, Eq, Structural)]
pub enum Passing {
    Owned,
    Ref,
    MutRef,
}

impl<R> ArgumentView<R> {
    pub open spec fn access(self) -> Access {
        match self {
            ArgumentView::Serialised(_) => Access::Decode,
            ArgumentView::Owned(_) => Access::Value,
            ArgumentView::Ref(_, is_ref) | ArgumentView::MutRef(_, is_ref) => if is_ref {
                Access::Pointer
            } else {
                Access::Value
            },
            ArgumentView::RemoteRef(_) | ArgumentView::RemoteMutRef(_) => Access::BorrowRemote,
        }
    }

    pub open spec fn passing(self) -> Passing {
        match self {
            ArgumentView::Serialised(_) | ArgumentView::Owned(_) => Passing::Owned,
            ArgumentView::Ref(..) | ArgumentView::RemoteRef(_) => Passing::Ref,
            ArgumentView::MutRef(..) | ArgumentView::RemoteMutRef(_) => Passing::MutRef,
        }
    }
}

impl<R> Argument<R> {
    /// The branch that an adapter takes to get at the typed value.
    pub fn access(&self) -> (a: Access)
        ensures
            a == self@.access(),
    {
        match self {
            Argument::Serialised(_) => Access::Decode,
            Argument::Owned(_) => Access::Value,
            Argument::Ref(_, is_ref) => if *is_ref {
                Access::Pointer
            } else {
                Access::Value
            },
            Argument::MutRef(_, is_ref) => if *is_ref {
                Access::Pointer
            } else {
                Access::Value
            },
            Argument::RemoteRef(_) => Access::BorrowRemote,
            Argument::RemoteMutRef(_) => Access::BorrowRemote,
        }
    }

    /// How the typed value is handed to the function.
    pub fn passing(&self) -> (p: Passing)
        ensures
            p == self@.passing(),
    {
        match self {
            Argument::Serialised(_) => Passing::Owned,
            Argument::Owned(_) => Passing::Owned,
            Argument::Ref(..) => Passing::Ref,
            Argument::RemoteRef(_) => Passing::Ref,
            Argument::MutRef(..) => Passing::MutRef,
            Argument::RemoteMutRef(_) => Passing::MutRef,
        }
    }
}

/// A typed argument on its way into the function.
pub enum WrapArg<'a, T> {
    Owned(T),
    Ref(&'a T),
    MutRef(&'a mut T),
}

/// Taking the argument out of its wrapper, in the form that the function's
/// parameter has.
pub trait Extract<T>: Sized {
    /// The argument in this form, where the wrapper holds it so.
    spec fn held(self) -> Option<T>;

    /// Whether `r` is what the wrapper holds: the same value, or a reference to
    /// the same value.
    spec fn yields(self, r: T) -> bool;

    fn extract(self) -> (r: T)
        requires
            self.held() is Some,
        ensures
            self.yields(r),
    ;
}

impl<'a, T> Extract<T> for WrapArg<'a, T> {
    open spec fn held(self) -> Option<T> {
        match self {
            WrapArg::Owned(v) => Some(v),
            _ => None,
        }
    }

    open spec fn yields(self, r: T) -> bool {
        self matches WrapArg::Owned(v) && r == v
    }

    fn extract(self) -> (r: T) {
        match self {
            WrapArg::Owned(b) => b,
            _ => vstd::pervasive::unreached(),
        }
    }
}

impl<'a, T> Extract<&'a T> for WrapArg<'a, T> {
    open spec fn held(self) -> Option<&'a T> {
        match self {
            WrapArg::Ref(v) => Some(v),
            _ => None,
        }
    }

    open spec fn yields(self, r: &'a T) -> bool {
        self matches WrapArg::Ref(v) && r == v
    }

    fn extract(self) -> (r: &'a T) {
        match self {
            WrapArg::Ref(b) => b,
            _ => vstd::pervasive::unreached(),
        }
    }
}

impl<'a, T> Extract<&'a mut T> for WrapArg<'a, T> {
    open spec fn held(self) -> Option<&'a mut T> {
        match self {
            WrapArg::MutRef(v) => Some(v),
            _ => None,
        }
    }

    open spec fn yields(self, r: &'a mut T) -> bool {
        self matches WrapArg::MutRef(v) && *r == *v
    }

    fn extract(self) -> (r: &'a mut T) {
        match self {
            WrapArg::MutRef(b) => b,
            _ => vstd::pervasive::unreached(),
        }
    }
}

/// How a registered function gives its result.
#[derive(Clone, Copy, Debug, PartialEq, Eq, Structural)]
pub enum ResultOp {
    Ref,
    MutRef,
    Owned,
}

/// The result of a call, with its text by its view.
pub open spec fn outcome_view<R>(r: ((String, bool), R)) -> ((Seq<char>, bool), R) {
    let (tagged, boxed) = r;
    let (text, is_local) = tagged;
    ((text@, is_local), boxed)
}

/// An adapter: it knows one function's signature, turns the wire arguments into
/// typed values, calls the function and gives back the result's encoding,
/// whether the result lives in this process, and the result as an object fit
/// for the resource table. `lent` holds the objects that the arguments borrow;
/// the adapter may change them in place. Adapters are shared between the
/// threads that serve an endpoint.
pub trait GenCall<R>: Send + Sync {
    /// Whether the adapter may answer a call with the arguments `args`, made
    /// while it is lent `lent`, by `result`, leaving `left` in place of what it
    /// was lent. The relation is the adapter's own: it describes the function
    /// behind the adapter. An adapter that says nothing of itself may answer
    /// in any way.
    open spec fn answers(
        &self,
        args: Seq<ArgumentView<R>>,
        lent: Seq<R>,
        result: ((Seq<char>, bool), R),
        left: Seq<R>,
    ) -> bool {
        true
    }

    fn call(&self, args: Vec<Argument<R>>, lent: &mut Vec<R>) -> (r: ((String, bool), R))
        ensures
            self.answers(arguments_view(args@), old(lent)@, outcome_view(r), final(lent)@),
    ;
}

/// An adapter of any kind, behind a box.
#[verifier::reject_recursive_types(R)]
pub struct Adapter<R> {
    pub inner: Box<dyn GenCall<R>>,
}

impl<R> Adapter<R> {
    /// The adapter that holds `inner`.
    pub fn new(inner: Box<dyn GenCall<R>>) -> (a: Adapter<R>)
        ensures
            a == (Adapter { inner }),
    {
        Adapter { inner }
    }
}

impl<R> GenCall<R> for Adapter<R> {
    /// The adapter answers as the adapter that it holds does.
    open spec fn answers(
        &self,
        args: Seq<ArgumentView<R>>,
        lent: Seq<R>,
        result: ((Seq<char>, bool), R),
        left: Seq<R>,
    ) -> bool {
        self.inner.answers(args, lent, result, left)
    }

    /// Calls the adapter that this one holds.
    fn call(&self, args: Vec<Argument<R>>, lent: &mut Vec<R>) -> (r: ((String, bool), R)) {
        self.inner.call(args, lent)
    }
}

/// Copying an adapter into a box.
pub trait GenCallClone<R> {
    fn clone_box(&self) -> Adapter<R>;
}

impl<R, T> GenCallClone<R> for T where T: 'static + GenCall<R> + Clone {
    /// The adapter that holds a clone of this one in a box.
    fn clone_box(&self) -> (copy: Adapter<R>)
        ensures
            exists|c: T| cloned(*self, c) && copy == (Adapter::<R> { inner: Box::new(c) }),
    {
        let c = self.clone();
        let copy = Adapter { inner: Box::new(c) };
        assert(cloned(*self, c) && copy == (Adapter::<R> { inner: Box::new(c) }));
        copy
    }
}

/// One entry of the registry.
#[verifier::reject_recursive_types(R)]
struct Registered<R> {
    name: String,
    adapter: Adapter<R>,
}

/// The functions that an endpoint offers: for each name, its adapter.
#[verifier::reject_recursive_types(R)]
pub struct RegistryTable<R> {
    entries: Vec<Registered<R>>,
}

spec fn entry_names<R>(entries: Seq<Registered<R>>) -> Seq<Seq<char>> {
    Seq::new(entries.len(), |i: int| entries[i].name@)
}

spec fn entry_adapters<R>(entries: Seq<Registered<R>>) -> Seq<Adapter<R>> {
    Seq::new(entries.len(), |i: int| entries[i].adapter)
}

impl<R> View for RegistryTable<R> {
    type V = Map<Seq<char>, Adapter<R>>;

    closed spec fn view(&self) -> Map<Seq<char>, Adapter<R>> {
        assoc(entry_names(self.entries@), entry_adapters(self.entries@))
    }
}

impl<R> RegistryTable<R> {
    /// No name is registered twice.
    pub closed spec fn wf(&self) -> bool {
        distinct(entry_names(self.entries@))
    }

    pub fn new() -> (t: RegistryTable<R>)
        ensures
            t.wf(),
            t@ == Map::<Seq<char>, Adapter<R>>::empty(),
    {
        let t = RegistryTable { entries: Vec::new() };
        proof {
            lemma_empty(entry_names(t.entries@), entry_adapters(t.entries@));
        }
        t
    }

    /// How many functions are registered.
    pub fn len(&self) -> (n: usize)
        requires
            self.wf(),
        ensures
            n == self@.dom().len(),
            self@.dom().finite(),
    {
        proof {
            lemma_dom(entry_names(self.entries@), entry_adapters(self.entries@));
        }
        self.entries.len()
    }

    fn find(&self, name: &String) -> (r: Option<usize>)
        requires
            self.wf(),
        ensures
            match r {
                Some(i) => {
                    &&& i < self.entries@.len()
                    &&& self.entries@[i as int].name@ == name@
                    &&& self@.contains_key(name@)
                    &&& self@[name@] == self.entries@[i as int].adapter
                },
                None => !self@.contains_key(name@),
            },
    {
        let mut i: usize = 0;
        while i < self.entries.len()
            invariant
                self.wf(),
                i <= self.entries@.len(),
                forall|j: int| 0 <= j < i ==> (#[trigger] self.entries@[j]).name@ != name@,
            decreases self.entries@.len() - i,
        {
            if self.entries[i].name == *name {
                proof {
                    lemma_at(entry_names(self.entries@), entry_adapters(self.entries@), i as int);
                }
                return Some(i);
            }
            i += 1;
        }
        proof {
            assert forall|j: int| 0 <= j < entry_names(self.entries@).len() implies #[trigger] entry_names(
                self.entries@,
            )[j] != name@ by {
                assert(self.entries@[j].name@ != name@);
            }
            lemma_absent(entry_names(self.entries@), entry_adapters(self.entries@), name@);
        }
        None
    }

    /// The adapter registered under `name`.
    pub fn get(&self, name: &str) -> (r: Option<&Adapter<R>>)
        requires
            self.wf(),
        ensures
            match r {
                Some(adapter) => self@.contains_key(name@) && *adapter == self@[name@],
                None => !self@.contains_key(name@),
            },
    {
        let key = name.to_owned();
        match self.find(&key) {
            Some(i) => Some(&self.entries[i].adapter),
            None => None,
        }
    }

    /// Registers `adapter` under `name`, in place of what was registered there.
    pub fn insert(&mut self, name: String, adapter: Adapter<R>)
        requires
            old(self).wf(),
        ensures
            final(self).wf(),
            final(self)@ == old(self)@.insert(name@, adapter),
    {
        match self.find(&name) {
            Some(i) => {
                let _ = self.entries.remove(i);
                proof {
                    let before = old(self).entries@;
                    assert(entry_names(self.entries@) =~= entry_names(before).remove(i as int));
                    assert(entry_adapters(self.entries@) =~= entry_adapters(before).remove(
                        i as int,
                    ));
                    lemma_remove_at(entry_names(before), entry_adapters(before), i as int);
                }
            },
            None => {
                proof {
                    assert(old(self)@.remove(name@) =~= old(self)@);
                }
            },
        }
        let ghost before = self.entries@;
        assert(!self@.contains_key(name@));
        self.entries.push(Registered { name, adapter });
        proof {
            assert(entry_names(self.entries@) =~= entry_names(before).push(name@));
            assert(entry_adapters(self.entries@) =~= entry_adapters(before).push(adapter));
            lemma_push(entry_names(before), entry_adapters(before), name@, adapter);
            assert(old(self)@.remove(name@).insert(name@, adapter) =~= old(self)@.insert(
                name@,
                adapter,
            ));
        }
    }

    /// Registers a function: installs its adapter under its name.
    pub fn register<A: GenCall<R> + 'static>(&mut self, name: &str, adapter: A)
        requires
            old(self).wf(),
        ensures
            final(self).wf(),
            final(self)@.dom() == old(self)@.dom().insert(name@),
            forall|other: Seq<char>|
                other != name@ && old(self)@.contains_key(other) ==> final(self)@[other] == old(
                    self,
                )@[other],
    {
        self.insert(name.to_owned(), Adapter::new(Box::new(adapter)));
    }
}

/// Looking a name up is a function of the registry's contents and the name:
/// equal registries send equal names to the same adapter, however often and in
/// whatever order they are asked.
pub proof fn lemma_lookup_is_stable<R>(a: RegistryTable<R>, b: RegistryTable<R>, name: Seq<char>)
    requires
        a@ == b@,
    ensures
        a@.contains_key(name) == b@.contains_key(name),
        a@.contains_key(name) ==> a@[name] == b@[name],
{
}

/// Registering one name leaves the adapter of every other name as it was, and
/// the name itself then leads to the adapter just registered.
pub proof fn lemma_register_then_lookup<R>(
    table: Map<Seq<char>, Adapter<R>>,
    name: Seq<char>,
    adapter: Adapter<R>,
    other: Seq<char>,
)
    ensures
        table.insert(name, adapter).contains_key(name),
        table.insert(name, adapter)[name] == adapter,
        other != name ==> table.insert(name, adapter).contains_key(other) == table.contains_key(
            other,
        ),
        other != name && table.contains_key(other) ==> table.insert(name, adapter)[other]
            == table[other],
{
}

} // verus!
