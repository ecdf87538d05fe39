use umi::ident::{Address, ResourceId, Timestamp};
use umi::json::Json;
use umi::message_serialisation::{InvokeOp, Message, ReturnVar, TransportError};
use umi::reminder::Entry;
use umi::variable::Variable;
use umi::wire::{decode, encode, message_from_json, message_to_json, round_trip};

fn id(secs: u64, nanos: u32, counter: usize) -> ResourceId {
    ResourceId::new(Timestamp::new(secs, nanos), counter)
}

#[test]
fn invoke_has_the_tagged_form() {
    let m = Message::Invoke(
        "f".to_string(),
        vec![
            Variable::OwnedLocal("\"Jane\"".to_string()),
            Variable::RefRemote("x".to_string(), Address::from_text("127.0.0.1:3334"), id(1, 2, 3)),
        ],
        InvokeOp::Owned,
    );
    assert_eq!(
        m.encode(),
        "{\"Invoke\":[\"f\",[{\"OwnedLocal\":\"\\\"Jane\\\"\"},{\"RefRemote\":[\"x\",\"127.0.0.1:3334\",[{\"secs_since_epoch\":1,\"nanos_since_epoch\":2},3]]}],\"Owned\"]}"
    );
}

#[test]
fn return_and_drop_have_the_tagged_form() {
    let r = Message::Return(ReturnVar::OwnedInit(Address::from_text("127.0.0.1:3334"), id(7, 8, 9), true));
    assert_eq!(
        r.encode(),
        "{\"Return\":{\"OwnedInit\":[\"127.0.0.1:3334\",[{\"secs_since_epoch\":7,\"nanos_since_epoch\":8},9],true]}}"
    );
    let d = Message::Drop(id(1, 0, 0));
    assert_eq!(d.encode(), "{\"Drop\":[{\"secs_since_epoch\":1,\"nanos_since_epoch\":0},0]}");
    let o = Message::Return(ReturnVar::Owned("null".to_string()));
    assert_eq!(o.encode(), "{\"Return\":{\"Owned\":\"null\"}}");
}

fn samples() -> Vec<Message> {
    let a = Address::from_text("10.0.0.1:80");
    vec![
        Message::Invoke("name".to_string(), vec![], InvokeOp::Init),
        Message::Invoke(
            "g".to_string(),
            vec![
                Variable::OwnedLocal("1".to_string()),
                Variable::OwnedRemote("p".to_string(), a.clone(), id(1, 1, 1)),
                Variable::RefRemote("q".to_string(), a.clone(), id(2, 2, 2)),
                Variable::MutRefRemote("r\n\"".to_string(), a.clone(), id(3, 3, 3)),
            ],
            InvokeOp::MutRef,
        ),
        Message::Invoke("h".to_string(), vec![], InvokeOp::Ref),
        Message::Return(ReturnVar::Owned("true".to_string())),
        Message::Return(ReturnVar::OwnedInit(a.clone(), id(4, 4, 4), false)),
        Message::Return(ReturnVar::RefOwned(a.clone(), id(5, 5, 5))),
        Message::Return(ReturnVar::RefBorrow("b".to_string())),
        Message::Return(ReturnVar::MutRefOwned(a.clone(), id(6, 6, 6))),
        Message::Return(ReturnVar::MutRefBorrow("c".to_string())),
        Message::Drop(id(u64::MAX, u32::MAX, usize::MAX)),
    ]
}

#[test]
fn every_message_is_read_back_from_its_text() {
    for m in samples() {
        assert_eq!(Message::decode(&m.encode()), Some(m));
    }
}

#[test]
fn every_message_is_read_back_from_its_wire_form() {
    for m in samples() {
        assert_eq!(message_from_json(&message_to_json(&m)), Some(m));
    }
}

#[test]
fn every_message_is_read_back_from_its_line() {
    for m in samples() {
        let line = m.to_line();
        assert!(line.ends_with('\n'));
        assert_eq!(line.matches('\n').count(), 1);
        assert_eq!(Message::from_line(&line), Some(m));
    }
}

#[test]
fn a_line_without_its_newline_is_refused() {
    let m = Message::Drop(id(1, 0, 0));
    assert_eq!(Message::from_line(&m.encode()), None);
    assert_eq!(Message::from_line(""), None);
}

#[test]
fn more_than_one_line_is_refused() {
    let m = Message::Drop(id(1, 0, 0));
    let two = format!("{}{}", m.to_line(), m.to_line());
    assert_eq!(Message::from_line(&two), None);
    assert_eq!(Message::from_line("{\"Drop\":\n[{\"secs_since_epoch\":1,\"nanos_since_epoch\":0},0]}\n"), None);
    assert_eq!(Message::from_line("\n"), None);
    assert!(umi::message_serialisation::has_newline("a\nb"));
    assert!(!umi::message_serialisation::has_newline("ab"));
}

#[test]
fn malformed_texts_are_refused() {
    assert_eq!(Message::decode(""), None);
    assert_eq!(Message::decode("{"), None);
    assert_eq!(Message::decode("null"), None);
    assert_eq!(Message::decode("{\"Invoke\":[\"f\",[],\"Sometimes\"]}"), None);
    assert_eq!(Message::decode("{\"Invoke\":[\"f\",[]]}"), None);
    assert_eq!(Message::decode("{\"Jump\":[]}"), None);
    assert_eq!(Message::decode("{\"Drop\":[{\"secs_since_epoch\":1,\"nanos_since_epoch\":-2},3]}"), None);
    assert_eq!(Message::decode("{\"Drop\":[{\"secs_since_epoch\":1,\"nanos_since_epoch\":4294967296},3]}"), None);
    assert_eq!(Message::decode("{\"Drop\":[{\"secs_since_epoch\":1.5,\"nanos_since_epoch\":2},3]}"), None);
    assert_eq!(Message::decode("{\"Return\":{\"Owned\":1}}"), None);
    assert_eq!(
        Message::decode("{\"Return\":{\"Owned\":\"a\"},\"Drop\":[{\"secs_since_epoch\":1,\"nanos_since_epoch\":2},3]}"),
        None
    );
}

#[test]
fn spaces_between_the_parts_do_not_matter() {
    assert_eq!(
        Message::decode(" { \"Return\" : { \"Owned\" : \"a\" } } "),
        Some(Message::Return(ReturnVar::Owned("a".to_string())))
    );
}

#[test]
fn values_have_their_json_text() {
    assert_eq!(encode(&true), "true");
    assert_eq!(encode(&false), "false");
    assert_eq!(encode(&()), "null");
    assert_eq!(encode(&7u32), "7");
    assert_eq!(encode(&"Jane \"J\" Doe".to_string()), "\"Jane \\\"J\\\" Doe\"");
    assert_eq!(encode(&Some(3u32)), "3");
    assert_eq!(encode(&None::<u32>), "null");
    assert_eq!(encode(&vec!["a".to_string(), "b".to_string()]), "[\"a\",\"b\"]");
    assert_eq!(encode(&Timestamp::new(5, 6)), "{\"secs_since_epoch\":5,\"nanos_since_epoch\":6}");
    assert_eq!(
        encode(&Entry::new("Hello World!".to_string(), Timestamp::new(5, 6))),
        "{\"content\":\"Hello World!\",\"time\":{\"secs_since_epoch\":5,\"nanos_since_epoch\":6}}"
    );
}

#[test]
fn values_are_read_back_from_their_text() {
    assert_eq!(decode::<bool>("true"), Some(true));
    assert_eq!(decode::<bool>("1"), None);
    assert_eq!(decode::<()>("null"), Some(()));
    assert_eq!(decode::<u32>("4294967295"), Some(u32::MAX));
    assert_eq!(decode::<u32>("4294967296"), None);
    assert_eq!(decode::<u32>("-1"), None);
    assert_eq!(decode::<String>("\"a\\nb\""), Some("a\nb".to_string()));
    assert_eq!(decode::<String>("a"), None);
    assert_eq!(decode::<Option<String>>("null"), Some(None));
    assert_eq!(decode::<Option<String>>("\"x\""), Some(Some("x".to_string())));
    assert_eq!(decode::<Vec<u32>>("[1,2,3]"), Some(vec![1, 2, 3]));
    assert_eq!(decode::<Vec<u32>>("[1,\"2\"]"), None);
    assert_eq!(decode::<Timestamp>("{\"secs_since_epoch\":5,\"nanos_since_epoch\":6}"), Some(Timestamp::new(5, 6)));
    assert_eq!(decode::<Timestamp>("{\"nanos_since_epoch\":6,\"secs_since_epoch\":5}"), None);
    let e = Entry::new("Goodbye World!".to_string(), Timestamp::new(9, 1));
    assert_eq!(decode::<Entry>(&encode(&e)), Some(e));
}

#[test]
fn round_trip_gives_the_value_back() {
    assert_eq!(round_trip(&true), Some(true));
    assert_eq!(round_trip(&41u32), Some(41));
    assert_eq!(round_trip(&"text".to_string()), Some("text".to_string()));
    assert_eq!(round_trip(&Some(Timestamp::new(1, 2))), Some(Some(Timestamp::new(1, 2))));
    assert_eq!(round_trip(&vec![Some(1u32), None]), Some(vec![Some(1), None]));
    for v in [0usize, 1, usize::MAX] {
        assert_eq!(decode::<usize>(&encode(&v)), Some(v));
    }
}

#[test]
fn json_text_is_parsed_to_the_same_tree() {
    let tree = Json::Record(vec![
        ("b".to_string(), Json::List(vec![Json::Null, Json::Bool(true), Json::Number(u64::MAX)])),
        ("a".to_string(), Json::Text("x".to_string())),
    ]);
    assert_eq!(tree.render(), "{\"b\":[null,true,18446744073709551615],\"a\":\"x\"}");
    assert_eq!(Json::parse(&tree.render()), Some(tree));
    assert_eq!(Json::parse("[-1, 0.5]"), Some(Json::List(vec![Json::OtherNumber, Json::OtherNumber])));
    assert_eq!(Json::parse("[1,"), None);
}

#[test]
fn transport_errors_have_their_reasons() {
    assert_eq!(TransportError::ConnectFailed.reason(), "Connection Failure");
    assert_eq!(TransportError::WriteFailed.reason(), "Unable to send data to server");
    assert_eq!(TransportError::ReadFailed.reason(), "Unable to receive data from server");
}
