use msgx::model::{Message, MessageStore, NewMessage, StoreError};
use msgx::time::Timestamp;

fn new_message(sender: &str, receiver: &str, content: &str) -> NewMessage {
    NewMessage {
        sender: sender.to_owned(),
        receiver: receiver.to_owned(),
        content: content.to_owned(),
    }
}

fn send(store: &mut MessageStore, sender: &str, receiver: &str, content: &str) -> Message {
    let at = Timestamp { nanos: 1_700_000_000_000_000_000 + store.len() as i64 };
    store.insert(new_message(sender, receiver, content), at).unwrap()
}

fn ids(messages: &[Message]) -> Vec<u64> {
    messages.iter().map(|message| message.id).collect()
}

fn row(id: u64, sender: &str, receiver: &str) -> Message {
    Message {
        id,
        sender: sender.to_owned(),
        receiver: receiver.to_owned(),
        content: format!("message {id}"),
        sent_at: Timestamp { nanos: 0 },
        read_at: None,
    }
}

/// alice and bob exchange messages 1, 3, 4, 7; alice and carol 2, 6;
/// bob and carol 5; alice writes 8 to herself.
fn sample() -> MessageStore {
    let mut store = MessageStore::new();
    send(&mut store, "alice", "bob", "one");
    send(&mut store, "carol", "alice", "two");
    send(&mut store, "bob", "alice", "three");
    send(&mut store, "alice", "bob", "four");
    send(&mut store, "bob", "carol", "five");
    send(&mut store, "alice", "carol", "six");
    send(&mut store, "bob", "alice", "seven");
    send(&mut store, "alice", "alice", "eight");
    store
}

#[test]
fn insert_assigns_ids_from_one() {
    let mut store = MessageStore::new();
    assert_eq!(store.len(), 0);
    let first = store
        .insert(new_message("alice", "bob", "hi"), Timestamp { nanos: 5 })
        .unwrap();
    assert_eq!(first.id, 1);
    assert_eq!(first.sender, "alice");
    assert_eq!(first.receiver, "bob");
    assert_eq!(first.content, "hi");
    assert_eq!(first.sent_at, Timestamp { nanos: 5 });
    assert_eq!(first.read_at, None);
    let second = store
        .insert(new_message("bob", "alice", "hey"), Timestamp { nanos: 6 })
        .unwrap();
    assert_eq!(second.id, 2);
    assert_eq!(store.len(), 2);
}

#[test]
fn insert_continues_after_the_last_id() {
    let mut store = MessageStore::from_rows(vec![row(3, "a", "b"), row(10, "b", "a")]).unwrap();
    let stored = send(&mut store, "a", "b", "next");
    assert_eq!(stored.id, 11);
    assert_eq!(ids(&Message::all(&store)), vec![11, 10, 3]);
}

#[test]
fn insert_fails_when_ids_are_exhausted() {
    let mut store = MessageStore::from_rows(vec![row(u64::MAX, "a", "b")]).unwrap();
    let res = store.insert(new_message("a", "b", "late"), Timestamp { nanos: 0 });
    assert_eq!(res.err(), Some(StoreError::IdsExhausted));
    assert_eq!(store.len(), 1);
    assert_eq!(ids(&Message::all(&store)), vec![u64::MAX]);
}

#[test]
fn from_rows_accepts_growing_ids() {
    let store = MessageStore::from_rows(vec![row(1, "a", "b"), row(2, "b", "a"), row(9, "a", "c")]);
    assert_eq!(store.unwrap().len(), 3);
    assert_eq!(MessageStore::from_rows(Vec::new()).unwrap().len(), 0);
}

#[test]
fn from_rows_rejects_bad_ids() {
    assert!(MessageStore::from_rows(vec![row(0, "a", "b")]).is_none());
    assert!(MessageStore::from_rows(vec![row(2, "a", "b"), row(2, "b", "a")]).is_none());
    assert!(MessageStore::from_rows(vec![row(2, "a", "b"), row(1, "b", "a")]).is_none());
    assert!(MessageStore::from_rows(vec![row(1, "a", "b"), row(3, "b", "a"), row(2, "b", "a")])
        .is_none());
}

#[test]
fn all_is_newest_first() {
    let store = sample();
    assert_eq!(ids(&Message::all(&store)), vec![8, 7, 6, 5, 4, 3, 2, 1]);
    assert!(Message::all(&MessageStore::new()).is_empty());
}

#[test]
fn clone_keeps_every_field() {
    let message = Message {
        id: 4,
        sender: "a".to_owned(),
        receiver: "b".to_owned(),
        content: "text".to_owned(),
        sent_at: Timestamp { nanos: 12 },
        read_at: Some(Timestamp { nanos: 13 }),
    };
    let copy = message.clone();
    assert_eq!(copy.id, 4);
    assert_eq!(copy.sender, "a");
    assert_eq!(copy.receiver, "b");
    assert_eq!(copy.content, "text");
    assert_eq!(copy.sent_at, Timestamp { nanos: 12 });
    assert_eq!(copy.read_at, Some(Timestamp { nanos: 13 }));
}

#[test]
fn is_between_takes_either_direction() {
    let message = row(1, "alice", "bob");
    assert!(message.is_between(("alice", "bob")));
    assert!(message.is_between(("bob", "alice")));
    assert!(!message.is_between(("alice", "carol")));
    assert!(!message.is_between(("alice", "alice")));
    assert!(!message.is_between(("Alice", "bob")));
    let own = row(2, "alice", "alice");
    assert!(own.is_between(("alice", "alice")));
    assert!(!own.is_between(("alice", "bob")));
}

#[test]
fn two_messages_between_two_users() {
    let mut store = MessageStore::new();
    let first = send(&mut store, "A", "B", "hi");
    let second = send(&mut store, "B", "A", "hey");
    assert_eq!((first.id, second.id), (1, 2));

    let inbox = Message::most_recent(&store, "A");
    assert_eq!(ids(&inbox), vec![2]);
    assert_eq!(inbox[0].sender, "B");
    assert_eq!(inbox[0].content, "hey");

    let conversation = Message::between(&store, ("A", "B"));
    assert_eq!(ids(&conversation), vec![2, 1]);
    assert_eq!(conversation[1].content, "hi");

    assert_eq!(ids(&Message::after(&store, ("A", "B"), 1)), vec![2]);
}

#[test]
fn between_is_symmetric() {
    let store = sample();
    let one = Message::between(&store, ("alice", "bob"));
    let other = Message::between(&store, ("bob", "alice"));
    assert_eq!(ids(&one), vec![7, 4, 3, 1]);
    assert_eq!(ids(&other), vec![7, 4, 3, 1]);
    assert_eq!(ids(&Message::between(&store, ("carol", "alice"))), vec![6, 2]);
    assert_eq!(ids(&Message::between(&store, ("alice", "alice"))), vec![8]);
    assert!(Message::between(&store, ("alice", "dave")).is_empty());
}

#[test]
fn limited_takes_the_newest() {
    let store = sample();
    assert_eq!(ids(&Message::limited(&store, ("alice", "bob"), 2)), vec![7, 4]);
    assert_eq!(ids(&Message::limited(&store, ("alice", "bob"), 4)), vec![7, 4, 3, 1]);
    assert_eq!(ids(&Message::limited(&store, ("alice", "bob"), 9)), vec![7, 4, 3, 1]);
    assert!(Message::limited(&store, ("alice", "bob"), 0).is_empty());
}

#[test]
fn after_lies_within_between() {
    let store = sample();
    let conversation = ids(&Message::between(&store, ("alice", "bob")));
    for id0 in 0..10 {
        let newer = ids(&Message::after(&store, ("alice", "bob"), id0));
        assert!(newer.iter().all(|id| *id > id0 && conversation.contains(id)));
        let expected: Vec<u64> = conversation.iter().copied().filter(|id| *id > id0).collect();
        assert_eq!(newer, expected);
    }
    assert_eq!(ids(&Message::after(&store, ("alice", "bob"), 0)), conversation);
    assert_eq!(ids(&Message::after(&store, ("alice", "bob"), 3)), vec![7, 4]);
    assert!(Message::after(&store, ("alice", "bob"), 7).is_empty());
    assert!(Message::after(&store, ("alice", "bob"), u64::MAX).is_empty());
}

#[test]
fn before_and_windows() {
    let store = sample();
    assert_eq!(ids(&Message::before(&store, ("alice", "bob"), 7)), vec![4, 3, 1]);
    assert_eq!(ids(&Message::before(&store, ("alice", "bob"), 4)), vec![3, 1]);
    assert!(Message::before(&store, ("alice", "bob"), 1).is_empty());
    assert_eq!(ids(&Message::before_limited(&store, ("bob", "alice"), 7, 2)), vec![4, 3]);
    assert_eq!(ids(&Message::before_limited(&store, ("bob", "alice"), 3, 2)), vec![1]);
    assert_eq!(ids(&Message::after_limited(&store, ("bob", "alice"), 1, 2)), vec![7, 4]);
    assert_eq!(ids(&Message::after_limited(&store, ("bob", "alice"), 4, 2)), vec![7]);
    assert!(Message::after_limited(&store, ("bob", "alice"), 1, 0).is_empty());
}

#[test]
fn most_recent_has_one_row_per_peer() {
    let store = sample();
    let inbox = Message::most_recent(&store, "alice");
    assert_eq!(ids(&inbox), vec![8, 7, 6]);
    let peers: Vec<&str> = inbox
        .iter()
        .map(|m| if m.sender == "alice" { m.receiver.as_str() } else { m.sender.as_str() })
        .collect();
    assert_eq!(peers, vec!["alice", "bob", "carol"]);
    for (message, peer) in inbox.iter().zip(peers) {
        let newest = Message::between(&store, ("alice", peer));
        assert_eq!(newest[0].id, message.id);
    }
    assert_eq!(ids(&Message::most_recent(&store, "bob")), vec![7, 5]);
    assert_eq!(ids(&Message::most_recent(&store, "carol")), vec![6, 5]);
}

#[test]
fn most_recent_of_a_stranger_is_empty() {
    let store = sample();
    assert!(Message::most_recent(&store, "dave").is_empty());
    assert!(Message::most_recent(&MessageStore::new(), "alice").is_empty());
}

#[test]
fn most_recent_with_only_a_note_to_self() {
    let mut store = MessageStore::new();
    send(&mut store, "alice", "alice", "note");
    send(&mut store, "alice", "alice", "another");
    assert_eq!(ids(&Message::most_recent(&store, "alice")), vec![2]);
    assert_eq!(ids(&Message::between(&store, ("alice", "alice"))), vec![2, 1]);
}

#[test]
fn paging_backward_restores_the_conversation() {
    let mut store = MessageStore::new();
    for i in 0..23 {
        if i % 3 == 0 {
            send(&mut store, "alice", "carol", "noise");
        }
        if i % 2 == 0 {
            send(&mut store, "alice", "bob", "ping");
        } else {
            send(&mut store, "bob", "alice", "pong");
        }
    }
    let whole = ids(&Message::between(&store, ("alice", "bob")));
    assert_eq!(whole.len(), 23);
    for limit in 1..30usize {
        let mut page = ids(&Message::limited(&store, ("alice", "bob"), limit));
        let mut joined = page.clone();
        while page.len() == limit {
            let cursor = *page.last().unwrap();
            page = ids(&Message::before_limited(&store, ("alice", "bob"), cursor, limit));
            joined.extend(page.iter().copied());
        }
        assert_eq!(joined, whole, "limit {limit}");
    }
}
