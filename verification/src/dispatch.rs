//! The dispatcher: what an endpoint does with one message. It turns the wire
//! arguments into the arguments of an adapter, taking from its table what they
//! move and lending what they borrow, calls the adapter, takes the lent objects
//! back, and shapes the reply.

use vstd::prelude::*;
use crate::assoc::{distinct, lemma_at, position, present};
use crate::endpoint::{IDGen, ResourceTable};
use crate::message_serialisation::{InvokeOp, Message, MessageView, ReturnVar, ReturnVarView};
use crate::registry::{
    Adapter, Argument, ArgumentView, GenCall, RegistryTable, arguments_view, outcome_view,
};
use crate::ident::{Address, ResourceId, Timestamp};
use crate::variable::{Variable, VariableView, variables_view};

verus! {

/// What a claim does with the resource.
#[derive(Clone, Copy, Debug, PartialEq, Eq, Structural)]
pub enum ClaimKind {
    /// The resource leaves the table for good.
    Move,
    /// The resource is lent, and may be lent again in the same way.
    Shared,
    /// The resource is lent to one argument alone.
    Exclusive,
}

/// What one argument claims of the endpoint's table.
#[derive(Clone, Copy, Debug, PartialEq, Eq, Structural)]
pub struct Claim {
    pub id: ResourceId,
    pub kind: ClaimKind,
}

/// Why the dispatcher refused a message.
#[derive(Clone, Copy, Debug, PartialEq, Eq, Structural)]
pub enum DispatchError {
    /// A `Return` arrived where a request was expected.
    UnexpectedReturn,
    /// No function is registered under the name.
    UnknownFunction,
    /// An argument names a resource of this endpoint that the table does not
    /// hold.
    UnknownResource(ResourceId),
    /// Two arguments of one request claim the same resource, and at least one of
    /// them moves it or borrows it exclusively.
    BorrowConflict(ResourceId),
    /// The result needs an id, and the endpoint has none left.
    IdsExhausted,
    /// The adapter did not leave as many lent objects as it was given.
    LentNotReturned,
}

/// What a variable claims at the endpoint with address `local`: nothing, unless
/// it names a resource there.
pub open spec fn claim_of(v: VariableView, local: Seq<char>) -> Option<Claim> {
    match v {
        VariableView::OwnedLocal(_) => None,
        VariableView::OwnedRemote(_, a, id) => if a == local {
            Some(Claim { id, kind: ClaimKind::Move })
        } else {
            None
        },
        VariableView::RefRemote(_, a, id) => if a == local {
            Some(Claim { id, kind: ClaimKind::Shared })
        } else {
            None
        },
        VariableView::MutRefRemote(_, a, id) => if a == local {
            Some(Claim { id, kind: ClaimKind::Exclusive })
        } else {
            None
        },
    }
}

pub open spec fn claims_of(vars: Seq<VariableView>, local: Seq<char>) -> Seq<Option<Claim>> {
    Seq::new(vars.len(), |i: int| claim_of(vars[i], local))
}

/// Two claims on one resource go together only if both are shared borrows.
pub open spec fn compatible(a: ClaimKind, b: ClaimKind) -> bool {
    a == ClaimKind::Shared && b == ClaimKind::Shared
}

/// Whether the claim at `j` is on a resource that an earlier claim holds in a
/// way that does not go together with it.
pub open spec fn clashes(claims: Seq<Option<Claim>>, j: int) -> bool {
    claims[j] matches Some(c) && exists|i: int|
        0 <= i < j && claim_clash(#[trigger] claims[i], c)
}

pub open spec fn claim_clash(earlier: Option<Claim>, c: Claim) -> bool {
    earlier matches Some(d) && d.id == c.id && !compatible(d.kind, c.kind)
}

/// What is wrong with the claim at `j`, given the ids that the table holds.
pub open spec fn fault_at(claims: Seq<Option<Claim>>, held: Set<ResourceId>, j: int) -> Option<
    DispatchError,
> {
    match claims[j] {
        None => None,
        Some(c) => if !held.contains(c.id) {
            Some(DispatchError::UnknownResource(c.id))
        } else if clashes(claims, j) {
            Some(DispatchError::BorrowConflict(c.id))
        } else {
            None
        },
    }
}

/// The fault of the first faulty claim among the first `n`.
pub open spec fn first_fault(claims: Seq<Option<Claim>>, held: Set<ResourceId>, n: int) -> Option<
    DispatchError,
>
    decreases n,
{
    if n <= 0 {
        None
    } else {
        match first_fault(claims, held, n - 1) {
            Some(e) => Some(e),
            None => fault_at(claims, held, n - 1),
        }
    }
}

/// A fault, once found, stays the first fault however many more claims follow.
pub proof fn lemma_first_fault_stays(
    claims: Seq<Option<Claim>>,
    held: Set<ResourceId>,
    m: int,
    n: int,
)
    requires
        first_fault(claims, held, m) is Some,
        m <= n,
    ensures
        first_fault(claims, held, n) == first_fault(claims, held, m),
    decreases n - m,
{
    if m < n {
        lemma_first_fault_stays(claims, held, m, n - 1);
    }
}

/// The claim of one variable.
pub fn claim(v: &Variable, local: &Address) -> (c: Option<Claim>)
    ensures
        c == claim_of(v@, local@),
{
    match v {
        Variable::OwnedLocal(_) => None,
        Variable::OwnedRemote(_, a, id) => if a.same(local) {
            Some(Claim { id: *id, kind: ClaimKind::Move })
        } else {
            None
        },
        Variable::RefRemote(_, a, id) => if a.same(local) {
            Some(Claim { id: *id, kind: ClaimKind::Shared })
        } else {
            None
        },
        Variable::MutRefRemote(_, a, id) => if a.same(local) {
            Some(Claim { id: *id, kind: ClaimKind::Exclusive })
        } else {
            None
        },
    }
}

fn clash_before(claims: &Vec<Option<Claim>>, c: Claim) -> (b: bool)
    ensures
        b == exists|i: int| 0 <= i < claims@.len() && claim_clash(#[trigger] claims@[i], c),
{
    let mut i: usize = 0;
    while i < claims.len()
        invariant
            i <= claims@.len(),
            forall|k: int| 0 <= k < i ==> !claim_clash(#[trigger] claims@[k], c),
        decreases claims@.len() - i,
    {
        match claims[i] {
            Some(d) => {
                if d.id == c.id && !(d.kind == ClaimKind::Shared && c.kind == ClaimKind::Shared) {
                    assert(claim_clash(claims@[i as int], c));
                    return true;
                }
            },
            None => {},
        }
        i += 1;
    }
    false
}

/// Checks the claims of a request against the table, before anything is taken
/// from it: each claimed resource must be there, and no resource may be claimed
/// twice unless both claims are shared borrows. Gives the claims, or the fault
/// of the first argument that has one.
pub fn check_claims<R>(vars: &Vec<Variable>, local: &Address, table: &ResourceTable<R>) -> (r:
    Result<Vec<Option<Claim>>, DispatchError>)
    requires
        table.wf(),
    ensures
        match r {
            Ok(claims) => {
                &&& claims@ == claims_of(variables_view(vars@), local@)
                &&& first_fault(claims@, table@.dom(), vars@.len() as int) is None
            },
            Err(e) => first_fault(
                claims_of(variables_view(vars@), local@),
                table@.dom(),
                vars@.len() as int,
            ) == Some(e),
        },
{
    let ghost all = claims_of(variables_view(vars@), local@);
    let mut claims: Vec<Option<Claim>> = Vec::new();
    let mut j: usize = 0;
    while j < vars.len()
        invariant
            table.wf(),
            all == claims_of(variables_view(vars@), local@),
            j <= vars@.len(),
            claims@ == all.take(j as int),
            first_fault(all, table@.dom(), j as int) is None,
        decreases vars@.len() - j,
    {
        let next = claim(&vars[j], local);
        assert(next == all[j as int]);
        match next {
            Some(c) => {
                if !table.contains(&c.id) {
                    proof {
                        assert(first_fault(all, table@.dom(), j + 1) == Some(
                            DispatchError::UnknownResource(c.id),
                        ));
                        lemma_first_fault_stays(all, table@.dom(), j + 1, vars@.len() as int);
                    }
                    return Err(DispatchError::UnknownResource(c.id));
                }
                let clash = clash_before(&claims, c);
                proof {
                    if clash {
                        let i = choose|i: int|
                            0 <= i < claims@.len() && claim_clash(#[trigger] claims@[i], c);
                        assert(claim_clash(all[i], c));
                    }
                    if clashes(all, j as int) {
                        let i = choose|i: int| 0 <= i < j && claim_clash(#[trigger] all[i], c);
                        assert(claim_clash(claims@[i], c));
                    }
                }
                if clash {
                    proof {
                        assert(first_fault(all, table@.dom(), j + 1) == Some(
                            DispatchError::BorrowConflict(c.id),
                        ));
                        lemma_first_fault_stays(all, table@.dom(), j + 1, vars@.len() as int);
                    }
                    return Err(DispatchError::BorrowConflict(c.id));
                }
            },
            None => {},
        }
        claims.push(next);
        j += 1;
        assert(claims@ =~= all.take(j as int));
    }
    assert(claims@ =~= all);
    Ok(claims)
}

/// A resource that is lent for the time of one call.
#[derive(Clone, Copy, Debug, PartialEq, Eq, Structural)]
pub struct Loan {
    pub id: ResourceId,
    /// Whether the object is a stored reference.
    pub is_ref: bool,
}

/// What an adapter is called with: the arguments, the objects that they borrow,
/// and for each of these objects the resource that it is.
pub struct Invocation<R> {
    pub args: Vec<Argument<R>>,
    pub lent: Vec<R>,
    pub loans: Vec<Loan>,
}

/// The ids that the first `n` claims borrow, each once, in the order in which
/// they are first borrowed.
pub open spec fn lent_ids(claims: Seq<Option<Claim>>, n: int) -> Seq<ResourceId>
    decreases n,
{
    if n <= 0 {
        Seq::empty()
    } else {
        let before = lent_ids(claims, n - 1);
        match claims[n - 1] {
            Some(c) => if c.kind != ClaimKind::Move && !present(before, c.id) {
                before.push(c.id)
            } else {
                before
            },
            None => before,
        }
    }
}

/// The ids that the first `n` claims move or borrow.
pub open spec fn claimed(claims: Seq<Option<Claim>>, n: int) -> Set<ResourceId> {
    Set::new(|id: ResourceId| exists|i: int| 0 <= i < n && claims_id(#[trigger] claims[i], id))
}

/// Whether the claim borrows its resource.
pub open spec fn borrows(claim: Option<Claim>) -> bool {
    claim matches Some(c) && c.kind != ClaimKind::Move
}

pub open spec fn claims_id(claim: Option<Claim>, id: ResourceId) -> bool {
    claim matches Some(c) && c.id == id
}

/// The argument that an adapter gets for a variable: `lent` lists the ids that
/// the request borrows, and a borrow names its resource by the place in that
/// list.
pub open spec fn argument_of<R>(
    v: VariableView,
    local: Seq<char>,
    table: Map<ResourceId, (R, bool)>,
    lent: Seq<ResourceId>,
) -> ArgumentView<R> {
    match v {
        VariableView::OwnedLocal(s) => ArgumentView::Serialised(s),
        VariableView::OwnedRemote(s, a, id) => if a == local {
            ArgumentView::Owned(table[id].0)
        } else {
            ArgumentView::Serialised(s)
        },
        VariableView::RefRemote(s, a, id) => if a == local {
            ArgumentView::Ref(position(lent, id) as usize, table[id].1)
        } else {
            ArgumentView::RemoteRef(s)
        },
        VariableView::MutRefRemote(s, a, id) => if a == local {
            ArgumentView::MutRef(position(lent, id) as usize, table[id].1)
        } else {
            ArgumentView::RemoteMutRef(s)
        },
    }
}

/// The arguments of a whole request.
pub open spec fn arguments_of<R>(
    vars: Seq<VariableView>,
    local: Seq<char>,
    table: Map<ResourceId, (R, bool)>,
) -> Seq<ArgumentView<R>> {
    let lent = lent_ids(claims_of(vars, local), vars.len() as int);
    Seq::new(vars.len(), |i: int| argument_of(vars[i], local, table, lent))
}

/// The loans of a whole request.
pub open spec fn loans_of<R>(
    vars: Seq<VariableView>,
    local: Seq<char>,
    table: Map<ResourceId, (R, bool)>,
) -> Seq<Loan> {
    let lent = lent_ids(claims_of(vars, local), vars.len() as int);
    Seq::new(lent.len(), |k: int| Loan { id: lent[k], is_ref: table[lent[k]].1 })
}

/// The objects that a whole request borrows.
pub open spec fn lent_of<R>(
    vars: Seq<VariableView>,
    local: Seq<char>,
    table: Map<ResourceId, (R, bool)>,
) -> Seq<R> {
    let lent = lent_ids(claims_of(vars, local), vars.len() as int);
    Seq::new(lent.len(), |k: int| table[lent[k]].0)
}

/// What the table holds while the call runs: all but what the request claims.
pub open spec fn table_during<R>(
    vars: Seq<VariableView>,
    local: Seq<char>,
    table: Map<ResourceId, (R, bool)>,
) -> Map<ResourceId, (R, bool)> {
    table.remove_keys(claimed(claims_of(vars, local), vars.len() as int))
}

/// Where no claim is faulty, each claimed resource is held and clashes with no
/// earlier claim.
pub proof fn lemma_no_fault(claims: Seq<Option<Claim>>, held: Set<ResourceId>, n: int, j: int)
    requires
        first_fault(claims, held, n) is None,
        0 <= j < n,
    ensures
        fault_at(claims, held, j) is None,
    decreases n,
{
    if j < n - 1 {
        lemma_no_fault(claims, held, n - 1, j);
    }
}

proof fn lemma_position_after_push(keys: Seq<ResourceId>, k: ResourceId, id: ResourceId)
    requires
        distinct(keys),
        !present(keys, k),
        present(keys, id),
    ensures
        position(keys.push(k), id) == position(keys, id),
{
    let i = position(keys, id);
    let more = keys.push(k);
    assert(more[i] == id);
    let j = position(more, id);
    assert(0 <= j < more.len() && more[j] == id);
    if j == keys.len() {
        assert(more[j] == k);
    } else {
        assert(keys[j] == keys[i]);
    }
}

fn find_loan(loans: &Vec<Loan>, id: ResourceId) -> (r: Option<usize>)
    ensures
        match r {
            Some(k) => k < loans@.len() && loans@[k as int].id == id,
            None => forall|k: int| 0 <= k < loans@.len() ==> (#[trigger] loans@[k]).id != id,
        },
{
    let mut k: usize = 0;
    while k < loans.len()
        invariant
            k <= loans@.len(),
            forall|i: int| 0 <= i < k ==> (#[trigger] loans@[i]).id != id,
        decreases loans@.len() - k,
    {
        if loans[k].id == id {
            return Some(k);
        }
        k += 1;
    }
    None
}

/// The state of the loop that turns variables into arguments, after `j` of them.
spec fn progress<R>(
    vars: Seq<VariableView>,
    local: Seq<char>,
    before: Map<ResourceId, (R, bool)>,
    j: int,
    now: Map<ResourceId, (R, bool)>,
    args: Seq<ArgumentView<R>>,
    lent: Seq<R>,
    loans: Seq<Loan>,
) -> bool {
    let claims = claims_of(vars, local);
    let ids = lent_ids(claims, j);
    &&& now == before.remove_keys(claimed(claims, j))
    &&& distinct(ids)
    &&& loans.len() == ids.len()
    &&& lent.len() == ids.len()
    &&& forall|k: int|
        0 <= k < ids.len() ==> (#[trigger] loans[k]) == (Loan {
            id: ids[k],
            is_ref: before[ids[k]].1,
        })
    &&& forall|k: int| 0 <= k < ids.len() ==> #[trigger] lent[k] == before[ids[k]].0
    &&& forall|k: int| 0 <= k < ids.len() ==> claimed(claims, j).contains(#[trigger] ids[k])
    &&& forall|i: int| 0 <= i < j && borrows(#[trigger] claims[i]) ==> present(ids, claims[i]->0.id)
    &&& args.len() == j
    &&& forall|i: int| 0 <= i < j ==> #[trigger] args[i] == argument_of(vars[i], local, before, ids)
}

proof fn lemma_unclaimed(
    claims: Seq<Option<Claim>>,
    held: Set<ResourceId>,
    n: int,
    j: int,
    ids: Seq<ResourceId>,
)
    requires
        first_fault(claims, held, n) is None,
        0 <= j < n,
        claims[j] is Some,
        forall|i: int| 0 <= i < j && borrows(#[trigger] claims[i]) ==> present(ids, claims[i]->0.id),
        claims[j]->0.kind == ClaimKind::Shared ==> !present(ids, claims[j]->0.id),
    ensures
        held.contains(claims[j]->0.id),
        !claimed(claims, j).contains(claims[j]->0.id),
{
    lemma_no_fault(claims, held, n, j);
    let c = claims[j]->0;
    if claimed(claims, j).contains(c.id) {
        let i = choose|i: int| 0 <= i < j && claims_id(#[trigger] claims[i], c.id);
        let d = claims[i]->0;
        if compatible(d.kind, c.kind) {
            assert(borrows(claims[i]));
            assert(present(ids, d.id));
        } else {
            assert(claim_clash(claims[i], c));
        }
    }
}

proof fn lemma_claimed_step(claims: Seq<Option<Claim>>, j: int)
    requires
        0 <= j < claims.len(),
    ensures
        claims[j] is None ==> claimed(claims, j + 1) == claimed(claims, j),
        claims[j] is Some ==> claimed(claims, j + 1) == claimed(claims, j).insert(claims[j]->0.id),
{
    if claims[j] is None {
        assert forall|id: ResourceId| claimed(claims, j + 1).contains(id) implies claimed(
            claims,
            j,
        ).contains(id) by {
            let i = choose|i: int| 0 <= i < j + 1 && claims_id(#[trigger] claims[i], id);
            assert(claims_id(claims[i], id) && i < j);
        }
        assert forall|id: ResourceId| claimed(claims, j).contains(id) implies claimed(
            claims,
            j + 1,
        ).contains(id) by {
            let i = choose|i: int| 0 <= i < j && claims_id(#[trigger] claims[i], id);
            assert(claims_id(claims[i], id) && i < j + 1);
        }
        assert(claimed(claims, j + 1) =~= claimed(claims, j));
    } else {
        let c = claims[j]->0;
        assert forall|id: ResourceId| claimed(claims, j + 1).contains(id) implies claimed(
            claims,
            j,
        ).insert(c.id).contains(id) by {
            let i = choose|i: int| 0 <= i < j + 1 && claims_id(#[trigger] claims[i], id);
            if i < j {
                assert(claims_id(claims[i], id));
            }
        }
        assert forall|id: ResourceId| claimed(claims, j).insert(c.id).contains(id) implies claimed(
            claims,
            j + 1,
        ).contains(id) by {
            if id == c.id {
                assert(claims_id(claims[j], id));
            } else {
                let i = choose|i: int| 0 <= i < j && claims_id(#[trigger] claims[i], id);
                assert(claims_id(claims[i], id) && i < j + 1);
            }
        }
        assert(claimed(claims, j + 1) =~= claimed(claims, j).insert(c.id));
    }
}

fn pass_through<R>(v: &Variable, Ghost(local): Ghost<Seq<char>>) -> (arg: Argument<R>)
    requires
        claim_of(v@, local) is None,
    ensures
        forall|table: Map<ResourceId, (R, bool)>, lent: Seq<ResourceId>|
            arg@ == #[trigger] argument_of(v@, local, table, lent),
{
    match v {
        Variable::OwnedLocal(s) => Argument::Serialised(s.clone()),
        Variable::OwnedRemote(s, _, _) => Argument::Serialised(s.clone()),
        Variable::RefRemote(s, _, _) => Argument::RemoteRef(s.clone()),
        Variable::MutRefRemote(s, _, _) => Argument::RemoteMutRef(s.clone()),
    }
}

/// Takes from the table what the claims of a request name, and makes the
/// arguments. The claims are known to be sound.
fn lend<R>(
    table: &mut ResourceTable<R>,
    vars: &Vec<Variable>,
    local: &Address,
    claims: Vec<Option<Claim>>,
) -> (inv: Invocation<R>)
    requires
        old(table).wf(),
        claims@ == claims_of(variables_view(vars@), local@),
        first_fault(claims@, old(table)@.dom(), vars@.len() as int) is None,
    ensures
        final(table).wf(),
        arguments_view(inv.args@) == arguments_of(variables_view(vars@), local@, old(table)@),
        inv.loans@ == loans_of(variables_view(vars@), local@, old(table)@),
        inv.lent@ == lent_of(variables_view(vars@), local@, old(table)@),
        final(table)@ == table_during(variables_view(vars@), local@, old(table)@),
{
    let ghost vv = variables_view(vars@);
    let ghost all = claims@;
    let ghost before = table@;
    let ghost held = before.dom();
    let ghost n = vars@.len() as int;
    let mut args: Vec<Argument<R>> = Vec::new();
    let mut lent: Vec<R> = Vec::new();
    let mut loans: Vec<Loan> = Vec::new();
    let mut j: usize = 0;
    proof {
        assert(claimed(all, 0) =~= Set::<ResourceId>::empty());
        assert(before.remove_keys(claimed(all, 0)) =~= before);
    }
    while j < vars.len()
        invariant
            table.wf(),
            j <= vars@.len(),
            n == vars@.len(),
            vv == variables_view(vars@),
            all == claims_of(vv, local@),
            claims@ == all,
            held == before.dom(),
            first_fault(all, held, n) is None,
            progress(vv, local@, before, j as int, table@, arguments_view(args@), lent@, loans@),
        decreases vars@.len() - j,
    {
        let ghost ids = lent_ids(all, j as int);
        let ghost old_args = arguments_view(args@);
        let ghost old_lent = lent@;
        let ghost old_loans = loans@;
        proof {
            lemma_claimed_step(all, j as int);
        }
        match claims[j] {
            None => {
                let arg = pass_through(&vars[j], Ghost(local@));
                args.push(arg);
                proof {
                    assert(lent_ids(all, j + 1) == ids);
                    assert(arguments_view(args@) =~= old_args.push(arg@));
                    assert(arg@ == argument_of::<R>(vv[j as int], local@, before, ids));
                }
            },
            Some(c) => {
                let found = match c.kind {
                    ClaimKind::Shared => find_loan(&loans, c.id),
                    _ => None,
                };
                match found {
                    Some(k) => {
                        let is_ref = loans[k].is_ref;
                        args.push(Argument::Ref(k, is_ref));
                        proof {
                            assert(ids[k as int] == c.id);
                            lemma_at(ids, ids, k as int);
                            assert(lent_ids(all, j + 1) == ids);
                            assert(claimed(all, j as int).contains(ids[k as int]));
                            assert(claimed(all, j + 1) =~= claimed(all, j as int));
                            assert(arguments_view(args@) =~= old_args.push(
                                ArgumentView::Ref(k, is_ref),
                            ));
                        }
                    },
                    None => {
                        proof {
                            if c.kind == ClaimKind::Shared {
                                if present(ids, c.id) {
                                    let k = position(ids, c.id);
                                    assert(old_loans[k].id == c.id);
                                }
                            }
                            lemma_unclaimed(all, held, n, j as int, ids);
                            assert(table@.contains_key(c.id));
                            assert(table@[c.id] == before[c.id]);
                        }
                        let entry = table.take(&c.id);
                        proof {
                            assert(table@ =~= before.remove_keys(claimed(all, j + 1)));
                        }
                        match entry {
                            Some((object, is_ref)) => {
                                match c.kind {
                                    ClaimKind::Move => {
                                        args.push(Argument::Owned(object));
                                        proof {
                                            assert(lent_ids(all, j + 1) == ids);
                                            assert(arguments_view(args@) =~= old_args.push(
                                                ArgumentView::Owned(object),
                                            ));
                                        }
                                    },
                                    _ => {
                                        let k = lent.len();
                                        lent.push(object);
                                        loans.push(Loan { id: c.id, is_ref });
                                        let arg = if c.kind == ClaimKind::Shared {
                                            Argument::Ref(k, is_ref)
                                        } else {
                                            Argument::MutRef(k, is_ref)
                                        };
                                        args.push(arg);
                                        proof {
                                            let more = ids.push(c.id);
                                            assert(!present(ids, c.id)) by {
                                                if present(ids, c.id) {
                                                    let q = position(ids, c.id);
                                                    assert(claimed(all, j as int).contains(ids[q]));
                                                }
                                            }
                                            assert(lent_ids(all, j + 1) == more);
                                            crate::assoc::lemma_push(ids, ids, c.id, c.id);
                                            lemma_at(more, more, k as int);
                                            assert(arguments_view(args@) =~= old_args.push(arg@));
                                            assert forall|i: int| 0 <= i < j implies (
                                            #[trigger] old_args[i]) == argument_of(
                                                vv[i],
                                                local@,
                                                before,
                                                more,
                                            ) by {
                                                if borrows(all[i]) {
                                                    lemma_position_after_push(
                                                        ids,
                                                        c.id,
                                                        all[i]->0.id,
                                                    );
                                                }
                                            }
                                            assert forall|i: int|
                                                0 <= i < j + 1 && borrows(
                                                    #[trigger] all[i],
                                                ) implies present(more, all[i]->0.id) by {
                                                if i < j {
                                                    let q = position(ids, all[i]->0.id);
                                                    assert(more[q] == all[i]->0.id);
                                                } else {
                                                    assert(more[k as int] == c.id);
                                                }
                                            }
                                            assert forall|q: int|
                                                0 <= q < more.len() implies claimed(
                                                all,
                                                j + 1,
                                            ).contains(#[trigger] more[q]) by {
                                                if q < ids.len() {
                                                    assert(claimed(all, j as int).contains(ids[q]));
                                                }
                                            }
                                        }
                                    },
                                }
                            },
                            None => {
                                vstd::pervasive::unreached::<()>();
                            },
                        }
                    },
                }
            },
        }
        j += 1;
    }
    proof {
        assert(arguments_view(args@) =~= arguments_of(vv, local@, before));
        assert(loans@ =~= loans_of(vv, local@, before));
        assert(lent@ =~= lent_of(vv, local@, before));
    }
    Invocation { args, lent, loans }
}

/// Turns the variables of a request into the arguments of an adapter. A
/// variable that names a resource of another endpoint, or none, is passed on by
/// its text. One that names a resource of this endpoint takes it from the
/// table: for good where it is moved, for the time of the call where it is
/// borrowed. Nothing is taken where a claim is faulty.
pub fn materialise<R>(table: &mut ResourceTable<R>, vars: &Vec<Variable>, local: &Address) -> (r:
    Result<Invocation<R>, DispatchError>)
    requires
        old(table).wf(),
    ensures
        final(table).wf(),
        match r {
            Ok(inv) => {
                &&& first_fault(
                    claims_of(variables_view(vars@), local@),
                    old(table)@.dom(),
                    vars@.len() as int,
                ) is None
                &&& arguments_view(inv.args@) == arguments_of(
                    variables_view(vars@),
                    local@,
                    old(table)@,
                )
                &&& inv.loans@ == loans_of(variables_view(vars@), local@, old(table)@)
                &&& inv.lent@ == lent_of(variables_view(vars@), local@, old(table)@)
                &&& final(table)@ == table_during(variables_view(vars@), local@, old(table)@)
            },
            Err(e) => {
                &&& first_fault(
                    claims_of(variables_view(vars@), local@),
                    old(table)@.dom(),
                    vars@.len() as int,
                ) == Some(e)
                &&& final(table)@ == old(table)@
            },
        },
{
    let claims = match check_claims(vars, local, table) {
        Ok(claims) => claims,
        Err(e) => {
            return Err(e);
        },
    };
    match check_claims(vars, local, table) {
        Ok(claims) => Ok(lend(table, vars, local, claims)),
        Err(e) => Err(e),
    }
}

/// The table after the lent objects are put back, from the last to the first,
/// each under the id and with the flag of its loan.
pub open spec fn restored<R>(table: Map<ResourceId, (R, bool)>, loans: Seq<Loan>, lent: Seq<R>) -> Map<
    ResourceId,
    (R, bool),
>
    decreases loans.len(),
{
    if loans.len() == 0 || lent.len() == 0 {
        table
    } else {
        restored(
            table.insert(loans.last().id, (lent.last(), loans.last().is_ref)),
            loans.drop_last(),
            lent.drop_last(),
        )
    }
}

/// Whether the endpoint stores the result of a call, and with what flag: the
/// result of an initialisation is stored as a value, a reference to something
/// in this process is stored as a reference, and nothing else is stored.
pub open spec fn stored_as(op: InvokeOp, is_local: bool) -> Option<bool> {
    match op {
        InvokeOp::Owned => None,
        InvokeOp::Init => Some(false),
        InvokeOp::Ref | InvokeOp::MutRef => if is_local {
            Some(true)
        } else {
            None
        },
    }
}

/// The reply to a call, for the treatment that the caller asked for. `id` is
/// the id under which the result was stored, where it was stored.
pub open spec fn reply_for(
    op: InvokeOp,
    is_local: bool,
    encoded: Seq<char>,
    address: Seq<char>,
    id: ResourceId,
) -> ReturnVarView {
    match op {
        InvokeOp::Owned => ReturnVarView::Owned(encoded),
        InvokeOp::Init => ReturnVarView::OwnedInit(address, id, true),
        InvokeOp::Ref => if is_local {
            ReturnVarView::RefOwned(address, id)
        } else {
            ReturnVarView::RefBorrow(encoded)
        },
        InvokeOp::MutRef => if is_local {
            ReturnVarView::MutRefOwned(address, id)
        } else {
            ReturnVarView::MutRefBorrow(encoded)
        },
    }
}

/// The state of a dispatcher, as mathematical values.
pub struct DispatcherView<R> {
    pub address: Seq<char>,
    /// The counter of the next id.
    pub counter: nat,
    pub resources: Map<ResourceId, (R, bool)>,
}

/// What the endpoint answers, with messages by their views.
pub open spec fn answer_view(r: Result<Message, DispatchError>) -> Result<MessageView, DispatchError> {
    match r {
        Ok(m) => Ok(m@),
        Err(e) => Err(e),
    }
}

/// The answer and the state after a call has returned: the lent objects `back`
/// are restored, and the result is stored and answered as `op` asks.
pub open spec fn settled<R>(
    s: DispatcherView<R>,
    loans: Seq<Loan>,
    back: Seq<R>,
    op: InvokeOp,
    encoded: Seq<char>,
    is_local: bool,
    boxed: R,
    now: Timestamp,
) -> (Result<MessageView, DispatchError>, DispatcherView<R>) {
    let table = restored(s.resources, loans, back);
    match stored_as(op, is_local) {
        None => (
            Ok(
                MessageView::Return(
                    reply_for(op, is_local, encoded, s.address, ResourceId { time: now, counter: 0 }),
                ),
            ),
            DispatcherView { resources: table, ..s },
        ),
        Some(flag) => if s.counter >= usize::MAX {
            (Err(DispatchError::IdsExhausted), DispatcherView { resources: table, ..s })
        } else {
            let id = ResourceId { time: now, counter: s.counter as usize };
            (
                Ok(MessageView::Return(reply_for(op, is_local, encoded, s.address, id))),
                DispatcherView {
                    resources: table.insert(id, (boxed, flag)),
                    counter: s.counter + 1,
                    ..s
                },
            )
        },
    }
}

/// The answer to a `Drop`: an owned result that carries the encoding of the
/// unit value.
pub open spec fn acknowledgement() -> MessageView {
    MessageView::Return(ReturnVarView::Owned("null"@))
}

/// The answer and the state after an adapter has answered a call and left
/// `back` of what it was lent: the call is settled, unless the adapter did not
/// leave as many objects as it was lent, which is reported.
pub open spec fn concluded<R>(
    during: DispatcherView<R>,
    loans: Seq<Loan>,
    back: Seq<R>,
    op: InvokeOp,
    encoded: Seq<char>,
    is_local: bool,
    boxed: R,
    now: Timestamp,
) -> (Result<MessageView, DispatchError>, DispatcherView<R>) {
    if back.len() == loans.len() {
        settled(during, loans, back, op, encoded, is_local, boxed, now)
    } else {
        (Err(DispatchError::LentNotReturned), during)
    }
}

/// Whether answer `r` and state `after` are what a dispatcher in state `s`
/// makes of `msg` at time `now`, where `adapters` are the registered adapters.
/// A call that reaches an adapter is concluded from an answer of that adapter
/// to the arguments made for it.
pub open spec fn handled<R>(
    s: DispatcherView<R>,
    adapters: Map<Seq<char>, Adapter<R>>,
    msg: MessageView,
    now: Timestamp,
    r: Result<MessageView, DispatchError>,
    after: DispatcherView<R>,
) -> bool {
    match msg {
        MessageView::Return(_) => r == Err::<MessageView, _>(DispatchError::UnexpectedReturn) && after
            == s,
        MessageView::Drop(id) => r == Ok::<_, DispatchError>(acknowledgement()) && after == (
        DispatcherView { resources: s.resources.remove(id), ..s }),
        MessageView::Invoke(name, vars, op) => {
            let fault = first_fault(claims_of(vars, s.address), s.resources.dom(), vars.len() as int);
            if fault is Some {
                r == Err::<MessageView, _>(fault->0) && after == s
            } else if !adapters.contains_key(name) {
                r == Err::<MessageView, _>(DispatchError::UnknownFunction) && after == s
            } else {
                let during = DispatcherView {
                    resources: table_during(vars, s.address, s.resources),
                    ..s
                };
                let loans = loans_of(vars, s.address, s.resources);
                exists|encoded: Seq<char>, is_local: bool, boxed: R, back: Seq<R>|
                    #[trigger] adapters[name].answers(
                        arguments_of(vars, s.address, s.resources),
                        lent_of(vars, s.address, s.resources),
                        ((encoded, is_local), boxed),
                        back,
                    ) && (r, after) == concluded(
                        during,
                        loans,
                        back,
                        op,
                        encoded,
                        is_local,
                        boxed,
                        now,
                    )
            }
        },
    }
}

/// An endpoint's dispatcher: its address, its source of ids and its table of
/// resources.
pub struct Dispatcher<R> {
    address: Address,
    ids: IDGen,
    table: ResourceTable<R>,
}

impl<R> View for Dispatcher<R> {
    type V = DispatcherView<R>;

    closed spec fn view(&self) -> DispatcherView<R> {
        DispatcherView {
            address: self.address@,
            counter: self.ids.count(),
            resources: self.table@,
        }
    }
}

impl<R> Dispatcher<R> {
    pub closed spec fn wf(&self) -> bool {
        self.table.wf()
    }

    /// A dispatcher for the endpoint at `address`, with no resources yet.
    pub fn new(address: Address) -> (d: Dispatcher<R>)
        ensures
            d.wf(),
            d@ == (DispatcherView {
                address: address@,
                counter: 0,
                resources: Map::<ResourceId, (R, bool)>::empty(),
            }),
    {
        Dispatcher { address, ids: IDGen::new(), table: ResourceTable::new() }
    }

    /// A dispatcher for the endpoint at `address` that starts with `table`.
    pub fn with_table(address: Address, table: ResourceTable<R>) -> (d: Dispatcher<R>)
        requires
            table.wf(),
        ensures
            d.wf(),
            d@ == (DispatcherView { address: address@, counter: 0, resources: table@ }),
    {
        Dispatcher { address, ids: IDGen::new(), table }
    }

    /// A dispatcher for the endpoint at `address` that starts with `table` and
    /// takes the counters of its ids from `ids`.
    pub fn with_state(address: Address, table: ResourceTable<R>, ids: IDGen) -> (d: Dispatcher<R>)
        requires
            table.wf(),
        ensures
            d.wf(),
            d@ == (DispatcherView { address: address@, counter: ids.count(), resources: table@ }),
    {
        Dispatcher { address, ids, table }
    }

    pub fn local_address(&self) -> (a: &Address)
        ensures
            a@ == self@.address,
    {
        &self.address
    }

    /// The table of resources.
    pub fn table(&self) -> (t: &ResourceTable<R>)
        requires
            self.wf(),
        ensures
            t.wf(),
            t@ == self@.resources,
    {
        &self.table
    }

    /// A new id: the time `now` and the next counter.
    pub fn fresh_id(&mut self, now: Timestamp) -> (id: ResourceId)
        requires
            old(self).wf(),
            old(self)@.counter < usize::MAX,
        ensures
            final(self).wf(),
            id == (ResourceId { time: now, counter: old(self)@.counter as usize }),
            final(self)@ == (DispatcherView { counter: old(self)@.counter + 1, ..old(self)@ }),
    {
        let counter = self.ids.next();
        ResourceId { time: now, counter }
    }

    /// Ends a call: puts the lent objects back, stores the result where the
    /// caller asked for a proxy or a reference to something in this process,
    /// and shapes the reply. Where there are not as many lent objects as loans,
    /// nothing is put back or stored.
    pub fn settle(
        &mut self,
        loans: Vec<Loan>,
        lent: Vec<R>,
        op: InvokeOp,
        encoded: String,
        is_local: bool,
        boxed: R,
        now: Timestamp,
    ) -> (r: Result<Message, DispatchError>)
        requires
            old(self).wf(),
        ensures
            final(self).wf(),
            (answer_view(r), final(self)@) == concluded(
                old(self)@,
                loans@,
                lent@,
                op,
                encoded@,
                is_local,
                boxed,
                now,
            ),
    {
        if lent.len() != loans.len() {
            return Err(DispatchError::LentNotReturned);
        }
        let mut lent = lent;
        let ghost all_lent = lent@;
        let mut k: usize = loans.len();
        proof {
            assert(loans@.take(k as int) =~= loans@);
            assert(all_lent.take(k as int) =~= all_lent);
        }
        while k > 0
            invariant
                self.table.wf(),
                k == lent@.len(),
                k <= loans@.len(),
                k <= all_lent.len(),
                lent@ == all_lent.take(k as int),
                self.address == old(self).address,
                self.ids == old(self).ids,
                restored(self.table@, loans@.take(k as int), lent@) == restored(
                    old(self).table@,
                    loans@,
                    all_lent,
                ),
            decreases k,
        {
            let ghost prev_lent = lent@;
            let ghost prev_table = self.table@;
            let object = lent.pop().unwrap();
            k -= 1;
            let loan = loans[k];
            self.table.insert(loan.id, object, loan.is_ref);
            proof {
                assert(prev_lent == all_lent.take(k + 1));
                assert(lent@ =~= prev_lent.drop_last());
                assert(lent@ =~= all_lent.take(k as int));
                assert(object == prev_lent.last());
                assert(loans@.take(k + 1).last() == loan);
                assert(loans@.take(k + 1).drop_last() =~= loans@.take(k as int));
            }
        }
        proof {
            assert(loans@.take(0).len() == 0);
            assert(loans@.take(loans@.len() as int) =~= loans@);
        }
        let stores = match op {
            InvokeOp::Owned => None,
            InvokeOp::Init => Some(false),
            InvokeOp::Ref => if is_local {
                Some(true)
            } else {
                None
            },
            InvokeOp::MutRef => if is_local {
                Some(true)
            } else {
                None
            },
        };
        match stores {
            None => {
                let reply = match op {
                    InvokeOp::Ref => ReturnVar::RefBorrow(encoded),
                    InvokeOp::MutRef => ReturnVar::MutRefBorrow(encoded),
                    _ => ReturnVar::Owned(encoded),
                };
                Ok(Message::Return(reply))
            },
            Some(flag) => {
                if self.ids.exhausted() {
                    return Err(DispatchError::IdsExhausted);
                }
                let id = self.fresh_id(now);
                self.table.insert(id, boxed, flag);
                let address = self.address.duplicate();
                let reply = match op {
                    InvokeOp::Ref => ReturnVar::RefOwned(address, id),
                    InvokeOp::MutRef => ReturnVar::MutRefOwned(address, id),
                    _ => ReturnVar::OwnedInit(address, id, true),
                };
                Ok(Message::Return(reply))
            },
        }
    }

    /// Handles one message at time `now`. A `Return` is refused. A `Drop`
    /// releases the resource and is acknowledged. An `Invoke` whose claims are
    /// sound and whose function is registered is carried out: the arguments are
    /// made, the adapter is called, and the call is settled. A refused message
    /// leaves the dispatcher as it was.
    pub fn handle(&mut self, registry: &RegistryTable<R>, msg: Message, now: Timestamp) -> (r: Result<
        Message,
        DispatchError,
    >)
        requires
            old(self).wf(),
            registry.wf(),
        ensures
            final(self).wf(),
            handled(old(self)@, registry@, msg@, now, answer_view(r), final(self)@),
    {
        match msg {
            Message::Return(_) => Err(DispatchError::UnexpectedReturn),
            Message::Drop(id) => {
                self.table.remove(&id);
                Ok(Message::Return(ReturnVar::Owned("null".to_owned())))
            },
            Message::Invoke(name, vars, op) => {
                let ghost vv = variables_view(vars@);
                let claims = match check_claims(&vars, &self.address, &self.table) {
                    Ok(claims) => claims,
                    Err(e) => {
                        return Err(e);
                    },
                };
                let adapter = match registry.get(name.as_str()) {
                    Some(adapter) => adapter,
                    None => {
                        return Err(DispatchError::UnknownFunction);
                    },
                };
                let inv = lend(&mut self.table, &vars, &self.address, claims);
                let mut lent = inv.lent;
                let ghost args = arguments_view(inv.args@);
                let ghost lent_before = lent@;
                let answer = adapter.call(inv.args, &mut lent);
                let ghost answered = outcome_view(answer);
                let ((encoded, is_local), boxed) = answer;
                let ghost during = self@;
                let ghost back = lent@;
                let r = self.settle(inv.loans, lent, op, encoded, is_local, boxed, now);
                proof {
                    assert(answered == ((encoded@, is_local), boxed));
                    assert(registry@[name@].answers(
                        arguments_of(vv, old(self)@.address, old(self)@.resources),
                        lent_of(vv, old(self)@.address, old(self)@.resources),
                        ((encoded@, is_local), boxed),
                        back,
                    ));
                    assert((answer_view(r), self@) == concluded(
                        during,
                        loans_of(vv, old(self)@.address, old(self)@.resources),
                        back,
                        op,
                        encoded@,
                        is_local,
                        boxed,
                        now,
                    ));
                }
                r
            },
        }
    }

    /// Handles one message at the time that the system clock gives.
    pub fn dispatch(&mut self, registry: &RegistryTable<R>, msg: Message) -> (r: Result<
        Message,
        DispatchError,
    >)
        requires
            old(self).wf(),
            registry.wf(),
        ensures
            final(self).wf(),
            exists|now: Timestamp| #[trigger]
                handled(old(self)@, registry@, msg@, now, answer_view(r), final(self)@),
    {
        let now = Timestamp::now();
        self.handle(registry, msg, now)
    }
}

/// The ids that a request borrows: each borrowed id is among them, none is
/// there twice, and there are no more of them than claims.
pub proof fn lemma_lent_ids(claims: Seq<Option<Claim>>, n: int)
    requires
        0 <= n <= claims.len(),
    ensures
        distinct(lent_ids(claims, n)),
        lent_ids(claims, n).len() <= n,
        forall|i: int|
            0 <= i < n && borrows(#[trigger] claims[i]) ==> present(
                lent_ids(claims, n),
                claims[i]->0.id,
            ),
    decreases n,
{
    if n > 0 {
        lemma_lent_ids(claims, n - 1);
        let before = lent_ids(claims, n - 1);
        let after = lent_ids(claims, n);
        if borrows(claims[n - 1]) && !present(before, claims[n - 1]->0.id) {
            let id = claims[n - 1]->0.id;
            crate::assoc::lemma_push(before, before, id, id);
            assert forall|i: int| 0 <= i < n && borrows(#[trigger] claims[i]) implies present(
                after,
                claims[i]->0.id,
            ) by {
                if i < n - 1 {
                    let q = position(before, claims[i]->0.id);
                    assert(after[q] == claims[i]->0.id);
                } else {
                    assert(after[after.len() - 1] == id);
                }
            }
        } else {
            assert(after == before);
        }
    }
}

/// The lent object that an argument refers to, where it borrows one.
pub open spec fn borrowed_place<R>(arg: ArgumentView<R>) -> Option<usize> {
    match arg {
        ArgumentView::Ref(k, _) => Some(k),
        ArgumentView::MutRef(k, _) => Some(k),
        _ => None,
    }
}

/// Within one request, an exclusive borrow has its lent object to itself: no
/// other argument of the request refers to the same object, so that no call
/// gets two references to one resource of which one is exclusive.
pub proof fn lemma_exclusive_is_alone<R>(
    vars: Seq<VariableView>,
    local: Seq<char>,
    table: Map<ResourceId, (R, bool)>,
    i: int,
    j: int,
)
    requires
        vars.len() <= usize::MAX,
        first_fault(claims_of(vars, local), table.dom(), vars.len() as int) is None,
        0 <= i < vars.len(),
        0 <= j < vars.len(),
        i != j,
        arguments_of(vars, local, table)[i] is MutRef,
    ensures
        borrowed_place(arguments_of(vars, local, table)[j]) != borrowed_place(
            arguments_of(vars, local, table)[i],
        ),
{
    let claims = claims_of(vars, local);
    let n = vars.len() as int;
    let ids = lent_ids(claims, n);
    lemma_lent_ids(claims, n);
    let a = arguments_of(vars, local, table)[i];
    let b = arguments_of(vars, local, table)[j];
    assert(claims[i] is Some && claims[i]->0.kind == ClaimKind::Exclusive);
    if borrowed_place(b) is Some {
        assert(borrows(claims[i]));
        assert(borrows(claims[j]));
        let x = claims[i]->0.id;
        let y = claims[j]->0.id;
        let p = position(ids, x);
        let q = position(ids, y);
        assert(0 <= p < ids.len() && ids[p] == x);
        assert(0 <= q < ids.len() && ids[q] == y);
        if p == q {
            if i < j {
                lemma_no_fault(claims, table.dom(), n, j);
                assert(claim_clash(claims[i], claims[j]->0));
            } else {
                lemma_no_fault(claims, table.dom(), n, i);
                assert(claim_clash(claims[j], claims[i]->0));
            }
        }
    }
}

/// The table after the resources `ids` are released, one after the other.
pub open spec fn after_drops<R>(table: Map<ResourceId, (R, bool)>, ids: Seq<ResourceId>) -> Map<
    ResourceId,
    (R, bool),
>
    decreases ids.len(),
{
    if ids.len() == 0 {
        table
    } else {
        after_drops(table, ids.drop_last()).remove(ids.last())
    }
}

proof fn lemma_after_drops<R>(
    table: Map<ResourceId, (R, bool)>,
    ids: Seq<ResourceId>,
    id: ResourceId,
)
    ensures
        after_drops(table, ids).contains_key(id) <==> table.contains_key(id) && !present(ids, id),
    decreases ids.len(),
{
    if ids.len() > 0 {
        let front = ids.drop_last();
        lemma_after_drops(table, front, id);
        if present(ids, id) {
            let i = position(ids, id);
            if i < front.len() {
                assert(front[i] == id);
            }
        }
        if present(front, id) {
            let i = position(front, id);
            assert(ids[i] == id);
        }
        if id == ids.last() {
            assert(ids[ids.len() - 1] == id);
        }
    }
}

/// Once every resource that the table holds has been released, the table is
/// empty: what a client made and gave up leaves nothing behind.
pub proof fn lemma_all_released_leaves_nothing<R>(
    table: Map<ResourceId, (R, bool)>,
    ids: Seq<ResourceId>,
)
    requires
        forall|id: ResourceId| table.contains_key(id) ==> present(ids, id),
    ensures
        after_drops(table, ids) == Map::<ResourceId, (R, bool)>::empty(),
{
    assert forall|id: ResourceId| !after_drops(table, ids).contains_key(id) by {
        lemma_after_drops(table, ids, id);
    }
    assert(after_drops(table, ids) =~= Map::<ResourceId, (R, bool)>::empty());
}

/// Handling a `Drop` releases the one resource, and releases add up: what the
/// dispatcher holds after a run of `Drop`s is what `after_drops` gives for the
/// ids of the run.
pub proof fn lemma_drops_add_up<R>(
    s: DispatcherView<R>,
    adapters: Map<Seq<char>, Adapter<R>>,
    before: Seq<ResourceId>,
    id: ResourceId,
    now: Timestamp,
    r: Result<MessageView, DispatchError>,
    after: DispatcherView<R>,
)
    requires
        handled(
            DispatcherView { resources: after_drops(s.resources, before), ..s },
            adapters,
            MessageView::Drop(id),
            now,
            r,
            after,
        ),
    ensures
        after == (DispatcherView { resources: after_drops(s.resources, before.push(id)), ..s }),
{
    assert(before.push(id).drop_last() =~= before);
}

/// Releasing a resource undoes storing it: a table that did not hold `id` is
/// the same again after `id` was stored and released.
pub proof fn lemma_release_undoes_store<R>(
    s: DispatcherView<R>,
    adapters: Map<Seq<char>, Adapter<R>>,
    id: ResourceId,
    entry: (R, bool),
    now: Timestamp,
    r: Result<MessageView, DispatchError>,
    after: DispatcherView<R>,
)
    requires
        !s.resources.contains_key(id),
        handled(
            DispatcherView { resources: s.resources.insert(id, entry), ..s },
            adapters,
            MessageView::Drop(id),
            now,
            r,
            after,
        ),
    ensures
        after == s,
        r == Ok::<MessageView, DispatchError>(acknowledgement()),
{
    assert(s.resources.insert(id, entry).remove(id) =~= s.resources);
}

/// An id that an endpoint makes later differs from each id that it made
/// before, whatever the clock said: the counters differ.
pub proof fn lemma_later_id_differs(first: ResourceId, earlier: nat, later: ResourceId, counter: nat)
    requires
        earlier < counter <= usize::MAX,
        first.counter == earlier,
        later.counter == counter,
    ensures
        first != later,
{
}

} // verus!
