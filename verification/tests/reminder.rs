use std::time::{Duration, SystemTime, UNIX_EPOCH};
use umi::ident::Timestamp;
use umi::reminder::{Entry, ReadyReminderServer};

fn at(time: SystemTime) -> Timestamp {
    let since = time.duration_since(UNIX_EPOCH).unwrap();
    Timestamp::new(since.as_secs(), since.subsec_nanos())
}

#[test]
fn gt_works() {
    let e1 = Entry::new("Hello World!".to_string(), at(SystemTime::now() + Duration::new(1, 0)));
    let e2 = Entry::new("Goodbye World!".to_string(), at(SystemTime::now() + Duration::new(3, 0)));
    assert!(e1 > e2);
}

#[test]
fn cmp_works() {
    let e1 = Entry::new("Hello World!".to_string(), at(SystemTime::now() + Duration::new(1, 0)));
    let e2 = Entry::new("Goodbye World!".to_string(), at(SystemTime::now() + Duration::new(2, 0)));
    assert_eq!(e1.cmp(&e2), std::cmp::Ordering::Greater);
}

#[test]
fn heap_works() {
    let mut h = ReadyReminderServer::new();
    let e1 = Entry::new("Hello World!".to_string(), at(SystemTime::now() + Duration::new(1, 0)));
    let e2 = Entry::new("Goodbye World!".to_string(), at(SystemTime::now() + Duration::new(3, 0)));
    h.submit_event(e2.get_content().clone(), *e2.get_time());
    h.submit_event(e1.get_content().clone(), *e1.get_time());
    assert!(h.peek().unwrap().get_content() == "Hello World!");
}

#[test]
fn can_submit() {
    let mut server = ReadyReminderServer::new();
    server.submit_event("Hello World!".to_string(), at(SystemTime::now() + Duration::new(0, 0)));
    match server.extract_event() {
        Some(e) => {
            assert!(e.get_content() == "Hello World!");
        },
        None => {
            panic!("Should have returned an event");
        },
    }
}

#[test]
fn events_come_out_earliest_first() {
    let mut server = ReadyReminderServer::new();
    server.submit_event("c".to_string(), Timestamp::new(30, 0));
    server.submit_event("a".to_string(), Timestamp::new(10, 0));
    server.submit_event("b".to_string(), Timestamp::new(20, 0));
    server.submit_event("b2".to_string(), Timestamp::new(20, 0));
    assert_eq!(server.len(), 4);
    assert_eq!(server.extract_ready(Timestamp::new(9, 999_999_999)), None);
    assert_eq!(server.len(), 4);
    assert_eq!(server.extract_ready(Timestamp::new(10, 0)), Some(Entry::new("a".to_string(), Timestamp::new(10, 0))));
    assert_eq!(server.extract_ready(Timestamp::new(10, 0)), None);
    assert_eq!(server.extract_ready(Timestamp::new(25, 0)), Some(Entry::new("b".to_string(), Timestamp::new(20, 0))));
    assert_eq!(server.extract_ready(Timestamp::new(25, 0)), Some(Entry::new("b2".to_string(), Timestamp::new(20, 0))));
    assert_eq!(server.extract_ready(Timestamp::new(25, 0)), None);
    assert_eq!(server.peek(), Some(&Entry::new("c".to_string(), Timestamp::new(30, 0))));
    assert_eq!(server.extract_ready(Timestamp::new(31, 0)), Some(Entry::new("c".to_string(), Timestamp::new(30, 0))));
    assert_eq!(server.len(), 0);
    assert_eq!(server.peek(), None);
    assert_eq!(server.extract_event(), None);
}

#[test]
fn an_event_in_the_future_is_not_handed_out() {
    let mut server = ReadyReminderServer::new();
    server.submit_event("later".to_string(), at(SystemTime::now() + Duration::new(3600, 0)));
    assert_eq!(server.extract_event(), None);
    assert_eq!(server.len(), 1);
}

#[test]
fn entries_are_ordered_against_their_times() {
    let early = Entry::new("x".to_string(), Timestamp::new(1, 0));
    let late = Entry::new("x".to_string(), Timestamp::new(1, 1));
    assert_eq!(early.cmp(&late), std::cmp::Ordering::Greater);
    assert_eq!(late.cmp(&early), std::cmp::Ordering::Less);
    assert_eq!(early.cmp(&early), std::cmp::Ordering::Equal);
    assert!(late < early && early >= late && !(early < late));
    assert_eq!(early.partial_cmp(&late), Some(std::cmp::Ordering::Greater));
    assert!(early == Entry::new("x".to_string(), Timestamp::new(1, 0)));
    assert!(early != late);
    assert!(early != Entry::new("y".to_string(), Timestamp::new(1, 0)));
    assert_eq!(early.get_content(), "x");
    assert_eq!(early.get_time(), &Timestamp::new(1, 0));
}
