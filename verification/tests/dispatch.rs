use umi::dispatch::{check_claims, claim, materialise, Claim, ClaimKind, DispatchError, Dispatcher, Loan};
use umi::endpoint::ResourceTable;
use umi::ident::{Address, ResourceId, Timestamp};
use umi::message_serialisation::{InvokeOp, Message, ReturnVar};
use umi::registry::{Access, Argument, Extract, GenCall, Passing, RegistryTable, WrapArg};
use umi::variable::Variable;

fn id(counter: usize) -> ResourceId {
    ResourceId::new(Timestamp::new(10, 0), counter)
}

fn here() -> Address {
    Address::from_text("127.0.0.1:3334")
}

fn elsewhere() -> Address {
    Address::from_text("127.0.0.1:9999")
}

fn table() -> ResourceTable<String> {
    let mut t = ResourceTable::new();
    t.insert(id(0), "zero".to_string(), false);
    t.insert(id(1), "one".to_string(), true);
    t.insert(id(2), "two".to_string(), false);
    t
}

#[test]
fn variables_claim_only_what_is_here() {
    assert_eq!(claim(&Variable::OwnedLocal("1".to_string()), &here()), None);
    assert_eq!(
        claim(&Variable::OwnedRemote("p".to_string(), here(), id(0)), &here()),
        Some(Claim { id: id(0), kind: ClaimKind::Move })
    );
    assert_eq!(
        claim(&Variable::RefRemote("p".to_string(), here(), id(1)), &here()),
        Some(Claim { id: id(1), kind: ClaimKind::Shared })
    );
    assert_eq!(
        claim(&Variable::MutRefRemote("p".to_string(), here(), id(2)), &here()),
        Some(Claim { id: id(2), kind: ClaimKind::Exclusive })
    );
    assert_eq!(claim(&Variable::OwnedRemote("p".to_string(), elsewhere(), id(0)), &here()), None);
    assert_eq!(claim(&Variable::RefRemote("p".to_string(), elsewhere(), id(0)), &here()), None);
    assert_eq!(claim(&Variable::MutRefRemote("p".to_string(), elsewhere(), id(0)), &here()), None);
}

#[test]
fn variables_tell_whether_they_borrow() {
    assert!(!Variable::OwnedLocal("1".to_string()).is_ref());
    assert!(!Variable::OwnedRemote("p".to_string(), here(), id(0)).is_ref());
    assert!(Variable::RefRemote("p".to_string(), here(), id(0)).is_ref());
    assert!(Variable::MutRefRemote("p".to_string(), here(), id(0)).is_ref());
}

#[test]
fn arguments_are_made_in_order() {
    let mut t = table();
    let vars = vec![
        Variable::OwnedLocal("\"v\"".to_string()),
        Variable::RefRemote("a".to_string(), here(), id(1)),
        Variable::OwnedRemote("b".to_string(), here(), id(0)),
        Variable::MutRefRemote("c".to_string(), here(), id(2)),
        Variable::RefRemote("a".to_string(), here(), id(1)),
        Variable::OwnedRemote("d".to_string(), elsewhere(), id(0)),
        Variable::RefRemote("e".to_string(), elsewhere(), id(1)),
        Variable::MutRefRemote("f".to_string(), elsewhere(), id(2)),
    ];
    let inv = materialise(&mut t, &vars, &here()).unwrap();
    assert_eq!(inv.args.len(), 8);
    assert!(matches!(&inv.args[0], Argument::Serialised(s) if s == "\"v\""));
    assert!(matches!(&inv.args[1], Argument::Ref(0, true)));
    assert!(matches!(&inv.args[2], Argument::Owned(s) if s == "zero"));
    assert!(matches!(&inv.args[3], Argument::MutRef(1, false)));
    assert!(matches!(&inv.args[4], Argument::Ref(0, true)));
    assert!(matches!(&inv.args[5], Argument::Serialised(s) if s == "d"));
    assert!(matches!(&inv.args[6], Argument::RemoteRef(s) if s == "e"));
    assert!(matches!(&inv.args[7], Argument::RemoteMutRef(s) if s == "f"));
    assert_eq!(inv.lent, vec!["one".to_string(), "two".to_string()]);
    assert_eq!(inv.loans, vec![Loan { id: id(1), is_ref: true }, Loan { id: id(2), is_ref: false }]);
    assert_eq!(t.len(), 0);
}

#[test]
fn a_missing_resource_is_a_fault() {
    let mut t = table();
    let vars = vec![Variable::RefRemote("a".to_string(), here(), id(7))];
    assert_eq!(check_claims(&vars, &here(), &t), Err(DispatchError::UnknownResource(id(7))));
    assert!(matches!(materialise(&mut t, &vars, &here()), Err(DispatchError::UnknownResource(r)) if r == id(7)));
    assert_eq!(t.len(), 3);
}

fn conflict(first: Variable, second: Variable) -> Result<usize, DispatchError> {
    let mut t = table();
    let vars = vec![Variable::RefRemote("x".to_string(), here(), id(2)), first, second];
    let r = materialise(&mut t, &vars, &here()).map(|inv| inv.lent.len());
    if r.is_err() {
        assert_eq!(t.len(), 3);
    }
    r
}

#[test]
fn two_claims_on_one_resource_go_together_only_if_both_are_shared() {
    let shared = || Variable::RefRemote("a".to_string(), here(), id(1));
    let exclusive = || Variable::MutRefRemote("a".to_string(), here(), id(1));
    let moved = || Variable::OwnedRemote("a".to_string(), here(), id(1));
    assert_eq!(conflict(shared(), shared()), Ok(2));
    assert_eq!(conflict(shared(), exclusive()), Err(DispatchError::BorrowConflict(id(1))));
    assert_eq!(conflict(exclusive(), shared()), Err(DispatchError::BorrowConflict(id(1))));
    assert_eq!(conflict(exclusive(), exclusive()), Err(DispatchError::BorrowConflict(id(1))));
    assert_eq!(conflict(moved(), shared()), Err(DispatchError::BorrowConflict(id(1))));
    assert_eq!(conflict(shared(), moved()), Err(DispatchError::BorrowConflict(id(1))));
    assert_eq!(conflict(moved(), moved()), Err(DispatchError::BorrowConflict(id(1))));
    assert_eq!(conflict(moved(), exclusive()), Err(DispatchError::BorrowConflict(id(1))));
}

#[test]
fn the_first_fault_is_reported() {
    let t = table();
    let vars = vec![
        Variable::MutRefRemote("a".to_string(), here(), id(1)),
        Variable::MutRefRemote("a".to_string(), here(), id(1)),
        Variable::RefRemote("b".to_string(), here(), id(9)),
    ];
    assert_eq!(check_claims(&vars, &here(), &t), Err(DispatchError::BorrowConflict(id(1))));
    let vars = vec![
        Variable::RefRemote("b".to_string(), here(), id(9)),
        Variable::MutRefRemote("a".to_string(), here(), id(1)),
        Variable::MutRefRemote("a".to_string(), here(), id(1)),
    ];
    assert_eq!(check_claims(&vars, &here(), &t), Err(DispatchError::UnknownResource(id(9))));
}

struct Append;

impl GenCall<String> for Append {
    fn call(&self, args: Vec<Argument<String>>, lent: &mut Vec<String>) -> ((String, bool), String) {
        let mut result = String::new();
        for arg in args {
            match arg {
                Argument::Serialised(s) => result.push_str(&s),
                Argument::Owned(object) => result.push_str(&object),
                Argument::Ref(k, _) => result.push_str(&lent[k]),
                Argument::MutRef(k, _) => {
                    lent[k].push('!');
                    result.push_str(&lent[k]);
                },
                Argument::RemoteRef(s) => result.push_str(&s),
                Argument::RemoteMutRef(s) => result.push_str(&s),
            }
        }
        let is_local = !result.starts_with("remote");
        ((result.clone(), is_local), result)
    }
}

struct Lose;

impl GenCall<String> for Lose {
    fn call(&self, _args: Vec<Argument<String>>, lent: &mut Vec<String>) -> ((String, bool), String) {
        lent.clear();
        (("".to_string(), true), String::new())
    }
}

fn registry() -> RegistryTable<String> {
    let mut r = RegistryTable::new();
    r.register("append", Append);
    r.register("lose", Lose);
    r
}

fn run(vars: Vec<Variable>, op: InvokeOp) -> (Result<Message, DispatchError>, Dispatcher<String>) {
    let mut d = Dispatcher::with_table(here(), table());
    let r = d.handle(&registry(), Message::Invoke("append".to_string(), vars, op), Timestamp::new(20, 1));
    (r, d)
}

#[test]
fn the_reply_follows_the_treatment_asked_for() {
    let local = || vec![Variable::MutRefRemote("a".to_string(), here(), id(0))];
    let remote = || vec![Variable::OwnedLocal("remote".to_string())];
    let new = ResourceId::new(Timestamp::new(20, 1), 0);

    let (r, d) = run(local(), InvokeOp::Owned);
    assert_eq!(r, Ok(Message::Return(ReturnVar::Owned("zero!".to_string()))));
    assert_eq!(d.table().len(), 3);
    assert_eq!(d.table().borrow(&id(0)), Some(&"zero!".to_string()));

    let (r, d) = run(local(), InvokeOp::Init);
    assert_eq!(r, Ok(Message::Return(ReturnVar::OwnedInit(here(), new, true))));
    assert_eq!(d.table().len(), 4);
    assert_eq!(d.table().is_ref(&new), Some(false));
    assert_eq!(d.table().borrow(&new), Some(&"zero!".to_string()));

    let (r, d) = run(remote(), InvokeOp::Init);
    assert_eq!(r, Ok(Message::Return(ReturnVar::OwnedInit(here(), new, true))));
    assert_eq!(d.table().is_ref(&new), Some(false));

    let (r, d) = run(local(), InvokeOp::Ref);
    assert_eq!(r, Ok(Message::Return(ReturnVar::RefOwned(here(), new))));
    assert_eq!(d.table().is_ref(&new), Some(true));

    let (r, d) = run(remote(), InvokeOp::Ref);
    assert_eq!(r, Ok(Message::Return(ReturnVar::RefBorrow("remote".to_string()))));
    assert_eq!(d.table().len(), 3);

    let (r, d) = run(local(), InvokeOp::MutRef);
    assert_eq!(r, Ok(Message::Return(ReturnVar::MutRefOwned(here(), new))));
    assert_eq!(d.table().is_ref(&new), Some(true));

    let (r, d) = run(remote(), InvokeOp::MutRef);
    assert_eq!(r, Ok(Message::Return(ReturnVar::MutRefBorrow("remote".to_string()))));
    assert_eq!(d.table().len(), 3);
}

#[test]
fn moved_resources_leave_and_lent_ones_come_back() {
    let vars = vec![
        Variable::OwnedRemote("a".to_string(), here(), id(0)),
        Variable::RefRemote("b".to_string(), here(), id(1)),
        Variable::MutRefRemote("c".to_string(), here(), id(2)),
        Variable::RefRemote("b".to_string(), here(), id(1)),
    ];
    let (r, d) = run(vars, InvokeOp::Owned);
    assert_eq!(r, Ok(Message::Return(ReturnVar::Owned("zeroonetwo!one".to_string()))));
    assert_eq!(d.table().len(), 2);
    assert!(!d.table().contains(&id(0)));
    assert_eq!(d.table().borrow(&id(1)), Some(&"one".to_string()));
    assert_eq!(d.table().is_ref(&id(1)), Some(true));
    assert_eq!(d.table().borrow(&id(2)), Some(&"two!".to_string()));
    assert_eq!(d.table().is_ref(&id(2)), Some(false));
}

#[test]
fn refused_messages_leave_the_table_alone() {
    let (r, d) = run(vec![Variable::MutRefRemote("a".to_string(), here(), id(5))], InvokeOp::Owned);
    assert_eq!(r, Err(DispatchError::UnknownResource(id(5))));
    assert_eq!(d.table().len(), 3);

    let mut d = Dispatcher::with_table(here(), table());
    let vars = vec![Variable::OwnedRemote("a".to_string(), here(), id(0))];
    let r = d.handle(&registry(), Message::Invoke("nothing".to_string(), vars, InvokeOp::Owned), Timestamp::new(1, 1));
    assert_eq!(r, Err(DispatchError::UnknownFunction));
    assert_eq!(d.table().len(), 3);

    let r = d.handle(&registry(), Message::Return(ReturnVar::Owned("x".to_string())), Timestamp::new(1, 1));
    assert_eq!(r, Err(DispatchError::UnexpectedReturn));
    assert_eq!(d.table().len(), 3);
}

#[test]
fn an_adapter_that_loses_what_it_was_lent_is_reported() {
    let mut d = Dispatcher::with_table(here(), table());
    let vars = vec![Variable::RefRemote("a".to_string(), here(), id(0))];
    let r = d.handle(&registry(), Message::Invoke("lose".to_string(), vars, InvokeOp::Owned), Timestamp::new(1, 1));
    assert_eq!(r, Err(DispatchError::LentNotReturned));
    assert_eq!(d.table().len(), 2);
}

#[test]
fn drop_releases_and_is_acknowledged() {
    let mut d = Dispatcher::with_table(here(), table());
    let r = d.handle(&registry(), Message::Drop(id(1)), Timestamp::new(1, 1));
    assert_eq!(r, Ok(Message::Return(ReturnVar::Owned("null".to_string()))));
    assert_eq!(d.table().len(), 2);
    let r = d.handle(&registry(), Message::Drop(id(1)), Timestamp::new(1, 1));
    assert_eq!(r, Ok(Message::Return(ReturnVar::Owned("null".to_string()))));
    assert_eq!(d.table().len(), 2);
    for k in [0, 2] {
        d.handle(&registry(), Message::Drop(id(k)), Timestamp::new(1, 1)).unwrap();
    }
    assert_eq!(d.table().len(), 0);
}

#[test]
fn fresh_ids_count_up() {
    let mut d: Dispatcher<String> = Dispatcher::new(here());
    assert_eq!(d.fresh_id(Timestamp::new(3, 4)), ResourceId::new(Timestamp::new(3, 4), 0));
    assert_eq!(d.fresh_id(Timestamp::new(3, 4)), ResourceId::new(Timestamp::new(3, 4), 1));
    assert_eq!(d.fresh_id(Timestamp::new(1, 0)), ResourceId::new(Timestamp::new(1, 0), 2));
}

#[test]
fn settle_puts_back_and_stores() {
    let mut d: Dispatcher<String> = Dispatcher::new(here());
    let loans = vec![Loan { id: id(4), is_ref: false }, Loan { id: id(5), is_ref: true }];
    let lent = vec!["four".to_string(), "five".to_string()];
    let r = d.settle(loans, lent, InvokeOp::Init, "ignored".to_string(), false, "new".to_string(), Timestamp::new(8, 8));
    let new = ResourceId::new(Timestamp::new(8, 8), 0);
    assert_eq!(r, Ok(Message::Return(ReturnVar::OwnedInit(here(), new, true))));
    assert_eq!(d.table().len(), 3);
    assert_eq!(d.table().borrow(&id(4)), Some(&"four".to_string()));
    assert_eq!(d.table().is_ref(&id(5)), Some(true));
    assert_eq!(d.table().borrow(&new), Some(&"new".to_string()));
}

#[test]
fn lookup_is_stable() {
    let r = registry();
    assert_eq!(r.len(), 2);
    let mut none = Vec::new();
    for _ in 0..3 {
        let a = r.get("append").unwrap();
        assert_eq!(a.call(vec![Argument::Serialised("x".to_string())], &mut none).0, ("x".to_string(), true));
        assert!(r.get("missing").is_none());
    }
    let mut r = r;
    r.register("append", Lose);
    assert_eq!(r.len(), 2);
    assert_eq!(r.get("append").unwrap().call(vec![], &mut none).0, ("".to_string(), true));
}

#[test]
fn arguments_tell_how_they_are_used() {
    let cases: Vec<(Argument<String>, Access, Passing)> = vec![
        (Argument::Serialised("s".to_string()), Access::Decode, Passing::Owned),
        (Argument::Owned("o".to_string()), Access::Value, Passing::Owned),
        (Argument::Ref(0, false), Access::Value, Passing::Ref),
        (Argument::Ref(0, true), Access::Pointer, Passing::Ref),
        (Argument::MutRef(0, false), Access::Value, Passing::MutRef),
        (Argument::MutRef(0, true), Access::Pointer, Passing::MutRef),
        (Argument::RemoteRef("p".to_string()), Access::BorrowRemote, Passing::Ref),
        (Argument::RemoteMutRef("p".to_string()), Access::BorrowRemote, Passing::MutRef),
    ];
    for (arg, access, passing) in cases {
        assert_eq!(arg.access(), access);
        assert_eq!(arg.passing(), passing);
    }
}

#[test]
fn wrapped_arguments_come_out_in_their_form() {
    let owned: String = WrapArg::Owned("a".to_string()).extract();
    assert_eq!(owned, "a");
    let b = "b".to_string();
    let shared: &String = WrapArg::Ref(&b).extract();
    assert_eq!(shared, "b");
    let mut c = "c".to_string();
    let exclusive: &mut String = WrapArg::MutRef(&mut c).extract();
    exclusive.push('!');
    assert_eq!(c, "c!");
}

#[test]
fn a_result_that_needs_an_id_is_refused_when_none_is_left() {
    let ids = || umi::endpoint::IDGen::starting_at(usize::MAX);
    let lent = || vec![Variable::MutRefRemote("a".to_string(), here(), id(0))];
    let call = |vars, op| Message::Invoke("append".to_string(), vars, op);

    let mut d = Dispatcher::with_state(here(), table(), ids());
    let r = d.handle(&registry(), call(lent(), InvokeOp::Init), Timestamp::new(1, 1));
    assert_eq!(r, Err(DispatchError::IdsExhausted));
    assert_eq!(d.table().len(), 3);
    assert_eq!(d.table().borrow(&id(0)), Some(&"zero!".to_string()));

    let r = d.handle(&registry(), call(lent(), InvokeOp::Ref), Timestamp::new(1, 1));
    assert_eq!(r, Err(DispatchError::IdsExhausted));
    let r = d.handle(&registry(), call(lent(), InvokeOp::Owned), Timestamp::new(1, 1));
    assert_eq!(r, Ok(Message::Return(ReturnVar::Owned("zero!!!".to_string()))));
    let r = d.handle(&registry(), call(vec![Variable::OwnedLocal("remote".to_string())], InvokeOp::MutRef), Timestamp::new(1, 1));
    assert_eq!(r, Ok(Message::Return(ReturnVar::MutRefBorrow("remote".to_string()))));

    let mut d: Dispatcher<String> = Dispatcher::with_state(here(), ResourceTable::new(), umi::endpoint::IDGen::starting_at(usize::MAX - 1));
    let r = d.handle(&registry(), call(vec![], InvokeOp::Init), Timestamp::new(1, 1));
    assert_eq!(r, Ok(Message::Return(ReturnVar::OwnedInit(here(), ResourceId::new(Timestamp::new(1, 1), usize::MAX - 1), true))));
    let r = d.handle(&registry(), call(vec![], InvokeOp::Init), Timestamp::new(1, 1));
    assert_eq!(r, Err(DispatchError::IdsExhausted));
    assert_eq!(d.table().len(), 1);
}

#[test]
fn settle_refuses_loans_without_their_objects() {
    let mut d: Dispatcher<String> = Dispatcher::new(here());
    let loans = vec![Loan { id: id(4), is_ref: false }, Loan { id: id(5), is_ref: true }];
    let r = d.settle(loans, vec!["four".to_string()], InvokeOp::Init, "x".to_string(), true, "new".to_string(), Timestamp::new(8, 8));
    assert_eq!(r, Err(DispatchError::LentNotReturned));
    assert_eq!(d.table().len(), 0);
    assert_eq!(d.fresh_id(Timestamp::new(1, 1)).counter, 0);
}
