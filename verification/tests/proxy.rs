use umi::ident::{Address, ResourceId, Timestamp};
use umi::message_serialisation::{InvokeOp, Message, ReturnVar};
use umi::proxy_lib::{
    adopt, drop_message, handle_from_json, handle_to_json, init_invoke, method_invoke, mut_ref_remote, owned_remote,
    receive, receive_value, ref_remote, BorrowRemote, BorrowSlots, DropMarker, IsLocal, IsProxyType, Proxy,
    ProxyHandle, Received, ReturnTypeOptions, SerializeTag, SerializeTagL, Stub, StubError, ToVariable, ToVariableL,
    ToVariableMut, ToVariableRef,
};
use umi::students::StudentRecord;

type Record = ProxyHandle<StudentRecord>;

fn local(names: &[&str]) -> Record {
    let mut record = StudentRecord::new();
    for name in names {
        record.add_student(name.to_string());
    }
    ProxyHandle::Local(record)
}
use umi::variable::Variable;

fn id() -> ResourceId {
    ResourceId::new(Timestamp::new(30, 40), 5)
}

fn at() -> Address {
    Address::from_text("127.0.0.1:3334")
}

const OWNING: &str = "{\"Remote\":[\"127.0.0.1:3334\",[{\"secs_since_epoch\":30,\"nanos_since_epoch\":40},5],true]}";
const LENT: &str = "{\"Remote\":[\"127.0.0.1:3334\",[{\"secs_since_epoch\":30,\"nanos_since_epoch\":40},5],false]}";

#[test]
fn handles_have_their_text() {
    assert_eq!(handle_to_json(&at(), &id(), true).render(), OWNING);
    assert_eq!(handle_to_json(&at(), &id(), false).render(), LENT);
    let j = umi::json::Json::parse(OWNING).unwrap();
    assert_eq!(handle_from_json(&j), Some((at(), id(), true)));
    assert_eq!(handle_from_json(&umi::json::Json::parse("{\"Local\":{\"students\":[]}}").unwrap()), None);
}

#[test]
fn a_proxy_travels_without_ownership() {
    assert_eq!(owned_remote(&at(), &id()), Variable::OwnedRemote(LENT.to_string(), at(), id()));
    assert_eq!(ref_remote(&at(), &id()), Variable::RefRemote(LENT.to_string(), at(), id()));
    assert_eq!(mut_ref_remote(&at(), &id()), Variable::MutRefRemote(LENT.to_string(), at(), id()));
    let owner = Record::construct_remote(at(), id(), true);
    assert_eq!(ToVariableRef::to_variable(&owner), Variable::RefRemote(LENT.to_string(), at(), id()));
    let mut owner = owner;
    assert_eq!(ToVariableMut::to_variable(&mut owner), Variable::MutRefRemote(LENT.to_string(), at(), id()));
    assert_eq!(owner.as_remote(), Some((at(), id(), true)));
    assert_eq!(ToVariable::to_variable(owner), Variable::OwnedRemote(LENT.to_string(), at(), id()));
}

#[test]
fn a_local_record_travels_by_its_text() {
    let record = local(&["Jane", "John"]);
    assert!(record.is_local());
    assert!(record.is_proxy_type());
    assert_eq!(record.as_remote(), None);
    assert_eq!(
        SerializeTag::tagged_string(&record),
        ("{\"Local\":{\"students\":[\"Jane\",\"John\"]}}".to_string(), true)
    );
    assert_eq!(record.release(), None);
    assert_eq!(
        ToVariable::to_variable(record),
        Variable::OwnedLocal("{\"Local\":{\"students\":[\"Jane\",\"John\"]}}".to_string())
    );
}

#[test]
fn a_handle_is_tagged_as_remote() {
    let handle = Record::construct_remote(at(), id(), true);
    assert!(!handle.is_local());
    assert_eq!(SerializeTag::tagged_string(&handle), (OWNING.to_string(), false));
}

#[test]
fn calls_ask_for_the_treatment_that_fits_the_result() {
    assert_eq!(ReturnTypeOptions::Default.invoke_op(), InvokeOp::Owned);
    assert_eq!(ReturnTypeOptions::Owned.invoke_op(), InvokeOp::Owned);
    assert_eq!(ReturnTypeOptions::Ref.invoke_op(), InvokeOp::Ref);
    assert_eq!(ReturnTypeOptions::MutRef.invoke_op(), InvokeOp::MutRef);
    let receiver = ref_remote(&at(), &id());
    let m = method_invoke("f", receiver.clone(), vec![Variable::OwnedLocal("1".to_string())], ReturnTypeOptions::MutRef);
    assert_eq!(
        m,
        Message::Invoke("f".to_string(), vec![receiver, Variable::OwnedLocal("1".to_string())], InvokeOp::MutRef)
    );
    assert_eq!(
        init_invoke("new", vec![Variable::OwnedLocal("2".to_string())]),
        Message::Invoke("new".to_string(), vec![Variable::OwnedLocal("2".to_string())], InvokeOp::Init)
    );
}

#[test]
fn results_are_taken_out_of_replies() {
    let ret = |r: ReturnVar| Message::Return(r);
    assert_eq!(receive(InvokeOp::Owned, ret(ReturnVar::Owned("1".to_string()))), Ok(Received::Value("1".to_string())));
    assert_eq!(receive(InvokeOp::Init, ret(ReturnVar::Owned("1".to_string()))), Ok(Received::Value("1".to_string())));
    assert_eq!(
        receive(InvokeOp::Init, ret(ReturnVar::OwnedInit(at(), id(), true))),
        Ok(Received::Handle(at(), id(), true))
    );
    assert_eq!(
        receive(InvokeOp::Init, ret(ReturnVar::OwnedInit(at(), id(), false))),
        Ok(Received::Handle(at(), id(), false))
    );
    assert_eq!(receive(InvokeOp::Ref, ret(ReturnVar::RefOwned(at(), id()))), Ok(Received::Handle(at(), id(), true)));
    assert_eq!(
        receive(InvokeOp::Ref, ret(ReturnVar::RefBorrow(OWNING.to_string()))),
        Ok(Received::Handle(at(), id(), false))
    );
    assert_eq!(
        receive(InvokeOp::MutRef, ret(ReturnVar::MutRefOwned(at(), id()))),
        Ok(Received::Handle(at(), id(), true))
    );
    assert_eq!(
        receive(InvokeOp::MutRef, ret(ReturnVar::MutRefBorrow(LENT.to_string()))),
        Ok(Received::Handle(at(), id(), false))
    );
}

#[test]
fn replies_that_do_not_fit_are_errors() {
    let ret = |r: ReturnVar| Message::Return(r);
    assert_eq!(receive(InvokeOp::Owned, Message::Drop(id())), Err(StubError::NotAReturn));
    assert_eq!(
        receive(InvokeOp::Owned, Message::Invoke("f".to_string(), vec![], InvokeOp::Owned)),
        Err(StubError::NotAReturn)
    );
    assert_eq!(receive(InvokeOp::Owned, ret(ReturnVar::RefOwned(at(), id()))), Err(StubError::WrongReturn));
    assert_eq!(receive(InvokeOp::Owned, ret(ReturnVar::OwnedInit(at(), id(), true))), Err(StubError::WrongReturn));
    assert_eq!(receive(InvokeOp::Init, ret(ReturnVar::RefBorrow("x".to_string()))), Err(StubError::WrongReturn));
    assert_eq!(receive(InvokeOp::Ref, ret(ReturnVar::Owned("1".to_string()))), Err(StubError::WrongReturn));
    assert_eq!(receive(InvokeOp::Ref, ret(ReturnVar::MutRefOwned(at(), id()))), Err(StubError::WrongReturn));
    assert_eq!(receive(InvokeOp::MutRef, ret(ReturnVar::RefOwned(at(), id()))), Err(StubError::WrongReturn));
    assert_eq!(
        receive(InvokeOp::Ref, ret(ReturnVar::RefBorrow("{\"Local\":{\"students\":[]}}".to_string()))),
        Err(StubError::NotAProxy)
    );
    assert_eq!(receive(InvokeOp::MutRef, ret(ReturnVar::MutRefBorrow("not json".to_string()))), Err(StubError::NotAProxy));
    assert_eq!(receive_value::<bool>(ret(ReturnVar::Owned("7".to_string()))), Err(StubError::BadValue));
    assert_eq!(receive_value::<bool>(ret(ReturnVar::Owned("tru".to_string()))), Err(StubError::BadValue));
    assert_eq!(receive_value::<bool>(ret(ReturnVar::RefOwned(at(), id()))), Err(StubError::WrongReturn));
    assert_eq!(receive_value::<bool>(Message::Drop(id())), Err(StubError::NotAReturn));
    assert_eq!(receive_value::<u32>(ret(ReturnVar::Owned("7".to_string()))), Ok(7));
    assert_eq!(Record::has_student_reply(ret(ReturnVar::Owned("true".to_string()))), Ok(true));
    assert_eq!(Record::add_student_reply(ret(ReturnVar::Owned("true".to_string()))), Err(StubError::BadValue));
}

#[test]
fn only_the_owner_releases() {
    assert_eq!(drop_message(&at(), &id(), true), Some((at(), Message::Drop(id()))));
    assert_eq!(drop_message(&at(), &id(), false), None);
    let owner = Record::construct_remote(at(), id(), true);
    let borrower = owner.borrow_remote();
    assert_eq!(borrower.as_remote(), Some((at(), id(), false)));
    assert_eq!(borrower.release(), None);
    assert_eq!(owner.release(), Some((at(), Message::Drop(id()))));
}

#[test]
fn a_move_leaves_one_release_at_most() {
    let owner = Record::construct_remote(at(), id(), true);
    let borrowed = owner.borrow_remote();
    let passed = ToVariable::to_variable(owner);
    let text = match &passed {
        Variable::OwnedRemote(text, _, _) => text.clone(),
        other => panic!("unexpected variable {:?}", other),
    };
    let (a, i, o) = handle_from_json(&umi::json::Json::parse(&text).unwrap()).unwrap();
    let arrived = Record::construct_remote(a, i, o);
    let live = vec![borrowed, arrived];
    assert_eq!(live.iter().filter(|h| h.release().is_some()).count(), 0);
    let live: Vec<Record> = live.into_iter().enumerate().map(|(k, h)| if k == 1 { adopt(h) } else { h }).collect();
    let releases: Vec<(Address, Message)> = live.iter().filter_map(|h| h.release()).collect();
    assert_eq!(releases, vec![(at(), Message::Drop(id()))]);
}

#[test]
fn adopting_makes_an_owner_of_a_handle_only() {
    let handle = adopt(Record::construct_remote(at(), id(), false));
    assert_eq!(handle.as_remote(), Some((at(), id(), true)));
    let same = adopt(local(&["Jane"]));
    assert_eq!(same.has_student("Jane".to_string()), Stub::Done(true));
}

#[test]
fn borrow_slots_keep_what_they_hold() {
    let mut slots: BorrowSlots<String> = BorrowSlots::new();
    assert_eq!(slots.len(), 0);
    assert_eq!(slots.get(0), None);
    assert_eq!(slots.hold("a".to_string()), 0);
    assert_eq!(slots.hold("b".to_string()), 1);
    assert_eq!(slots.len(), 2);
    slots.get_mut(0).unwrap().push('!');
    assert!(slots.get_mut(2).is_none());
    assert_eq!(slots.get(0), Some(&"a!".to_string()));
    assert_eq!(slots.get(1), Some(&"b".to_string()));
    assert_eq!(slots.hold("c".to_string()), 2);
    assert_eq!(slots.get(0), Some(&"a!".to_string()));
}

#[test]
fn library_values_travel_by_their_text() {
    assert_eq!(ToVariableL::to_variable(7u32), Variable::OwnedLocal("7".to_string()));
    assert_eq!(ToVariableL::to_variable("x".to_string()), Variable::OwnedLocal("\"x\"".to_string()));
    assert_eq!(ToVariableL::to_variable(true), Variable::OwnedLocal("true".to_string()));
    assert_eq!(ToVariableL::to_variable(Some(1u32)), Variable::OwnedLocal("1".to_string()));
    assert_eq!(
        ToVariableL::to_variable(Timestamp::new(1, 2)),
        Variable::OwnedLocal("{\"secs_since_epoch\":1,\"nanos_since_epoch\":2}".to_string())
    );
    assert_eq!(SerializeTagL::tagged_string(&()), ("null".to_string(), true));
    assert_eq!(SerializeTagL::tagged_string(&false), ("false".to_string(), true));
    assert_eq!(SerializeTagL::tagged_string(&None::<bool>), ("null".to_string(), true));
}

#[test]
fn records_are_read_back_from_their_text() {
    let record = local(&["Jane"]);
    let text = umi::wire::encode(&record);
    assert_eq!(text, "{\"Local\":{\"students\":[\"Jane\"]}}");
    assert_eq!(umi::wire::decode::<Record>(&text), Some(record));
    assert_eq!(umi::wire::encode(record_of(&local(&["Jane"]))), "{\"students\":[\"Jane\"]}");
    assert_eq!(
        umi::wire::decode::<StudentRecord>("{\"students\":[\"Jane\"]}").as_ref(),
        Some(record_of(&local(&["Jane"])))
    );
    assert_eq!(SerializeTagL::tagged_string(record_of(&local(&[]))), ("{\"students\":[]}".to_string(), true));
    let handle = Record::construct_remote(at(), id(), true);
    assert_eq!(umi::wire::encode(&handle), OWNING);
    assert_eq!(umi::wire::decode::<Record>(OWNING), Some(handle));
    assert_eq!(umi::wire::decode::<Record>("{\"Local\":{\"students\":[1]}}"), None);
    assert_eq!(umi::wire::decode::<Record>("{\"Local\":{\"pupils\":[]}}"), None);
    assert_eq!(umi::wire::decode::<Record>("{\"Nowhere\":[]}"), None);
    assert_eq!(
        receive_value::<Record>(Message::Return(ReturnVar::Owned(LENT.to_string()))).map(adopt),
        Ok(Record::construct_remote(at(), id(), true))
    );
}

#[test]
fn giving_a_proxy_clears_its_ownership() {
    let mut owner = Record::construct_remote(at(), id(), true);
    assert_eq!(owner.give(), Variable::OwnedRemote(LENT.to_string(), at(), id()));
    assert_eq!(owner.as_remote(), Some((at(), id(), false)));
    assert_eq!(owner.release(), None);
    assert_eq!(owner.give(), Variable::OwnedRemote(LENT.to_string(), at(), id()));

    let mut record = local(&["Jane"]);
    assert_eq!(record.give(), Variable::OwnedLocal("{\"Local\":{\"students\":[\"Jane\"]}}".to_string()));
    assert_eq!(record.has_student("Jane".to_string()), Stub::Done(true));
}

fn record_of(proxy: &Record) -> &StudentRecord {
    proxy.local().unwrap()
}
