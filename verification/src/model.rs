//! The message table and the queries over it.
//!
//! A conversation is no entity of its own: it is the set of messages whose
//! sender and receiver are a given pair of users, in either direction.

pub mod laws;
pub mod lemmas;

use vstd::prelude::*;

use crate::model::lemmas::{lemma_filter_agree, lemma_filter_twice};
use crate::text::str_eq;
use crate::time::Timestamp;

verus! {

/// A message that has not been stored yet.
pub struct NewMessage {
    pub sender: String,
    pub receiver: String,
    pub content: String,
}

/// A stored message.
#[derive(Debug)]
pub struct Message {
    pub id: u64,
    pub sender: String,
    pub receiver: String,
    pub content: String,
    pub sent_at: Timestamp,
    pub read_at: Option<Timestamp>,
}

/// What a stored message holds, as plain values.
pub struct Row {
    pub id: u64,
    pub sender: Seq<char>,
    pub receiver: Seq<char>,
    pub content: Seq<char>,
    pub sent_at: Timestamp,
    pub read_at: Option<Timestamp>,
}

impl View for Message {
    type V = Row;

    open spec fn view(&self) -> Row {
        Row {
            id: self.id,
            sender: self.sender@,
            receiver: self.receiver@,
            content: self.content@,
            sent_at: self.sent_at,
            read_at: self.read_at,
        }
    }
}

impl Clone for Message {
    fn clone(&self) -> (res: Self)
        ensures
            res@ == self@,
    {
        Message {
            id: self.id,
            sender: self.sender.clone(),
            receiver: self.receiver.clone(),
            content: self.content.clone(),
            sent_at: self.sent_at,
            read_at: self.read_at,
        }
    }
}

/// The rows that a sequence of messages holds, in the same order.
pub open spec fn rows_of(messages: Seq<Message>) -> Seq<Row> {
    messages.map_values(|m: Message| m@)
}

/// Whether `row` belongs to the conversation of `peer1` and `peer2`.
pub open spec fn is_between(row: Row, peer1: Seq<char>, peer2: Seq<char>) -> bool {
    (row.sender == peer1 && row.receiver == peer2) || (row.sender == peer2 && row.receiver
        == peer1)
}

/// Whether `table` can be the content of a message store: the ids start
/// above zero and grow strictly from each row to the next.
pub open spec fn is_table(table: Seq<Row>) -> bool {
    &&& forall|i: int| 0 <= i < table.len() ==> (#[trigger] table[i]).id > 0
    &&& forall|i: int, j: int|
        0 <= i < j < table.len() ==> (#[trigger] table[i]).id < (#[trigger] table[j]).id
}

/// The id that the store gives to the next message.
pub open spec fn next_id(table: Seq<Row>) -> int {
    if table.len() == 0 {
        1
    } else {
        table.last().id + 1
    }
}

/// Every row, newest first.
pub open spec fn all(table: Seq<Row>) -> Seq<Row> {
    table.reverse()
}

/// The rows of the conversation of `peer1` and `peer2`, newest first.
pub open spec fn between(table: Seq<Row>, peer1: Seq<char>, peer2: Seq<char>) -> Seq<Row> {
    all(table).filter(|row: Row| is_between(row, peer1, peer2))
}

/// The first `limit` of `rows`, or all of them where there are fewer.
pub open spec fn first_n(rows: Seq<Row>, limit: nat) -> Seq<Row> {
    if limit < rows.len() {
        rows.take(limit as int)
    } else {
        rows
    }
}

/// The newest `limit` rows of a conversation, newest first.
pub open spec fn limited(table: Seq<Row>, peer1: Seq<char>, peer2: Seq<char>, limit: nat) -> Seq<
    Row,
> {
    first_n(between(table, peer1, peer2), limit)
}

/// The rows of a conversation with an id above `id`, newest first.
pub open spec fn after(table: Seq<Row>, peer1: Seq<char>, peer2: Seq<char>, id: u64) -> Seq<Row> {
    between(table, peer1, peer2).filter(|row: Row| row.id > id)
}

/// The rows of a conversation with an id below `id`, newest first.
pub open spec fn before(table: Seq<Row>, peer1: Seq<char>, peer2: Seq<char>, id: u64) -> Seq<Row> {
    between(table, peer1, peer2).filter(|row: Row| row.id < id)
}

/// The newest `limit` rows of a conversation with an id above `id`.
pub open spec fn after_limited(
    table: Seq<Row>,
    peer1: Seq<char>,
    peer2: Seq<char>,
    id: u64,
    limit: nat,
) -> Seq<Row> {
    first_n(after(table, peer1, peer2, id), limit)
}

/// The newest `limit` rows of a conversation with an id below `id`.
pub open spec fn before_limited(
    table: Seq<Row>,
    peer1: Seq<char>,
    peer2: Seq<char>,
    id: u64,
    limit: nat,
) -> Seq<Row> {
    first_n(before(table, peer1, peer2, id), limit)
}

/// The id of the first of `rows`, which is the greatest where they stand
/// newest first.
pub open spec fn newest_id(rows: Seq<Row>) -> Option<u64> {
    if rows.len() > 0 {
        Some(rows[0].id)
    } else {
        None
    }
}

/// Whether `user` sent or received `row`.
pub open spec fn takes_part(row: Row, user: Seq<char>) -> bool {
    row.sender == user || row.receiver == user
}

/// The other participant of `row`, seen from `user`; `user` where the
/// message went from `user` to `user`.
pub open spec fn peer_of(row: Row, user: Seq<char>) -> Seq<char> {
    if row.sender == user {
        row.receiver
    } else {
        row.sender
    }
}

/// Whether `table` holds a row of the conversation of `user` and `peer`
/// with an id above `id`.
pub open spec fn has_later(table: Seq<Row>, user: Seq<char>, peer: Seq<char>, id: u64) -> bool {
    exists|j: int|
        0 <= j < table.len() && is_between(#[trigger] table[j], user, peer) && table[j].id > id
}

/// Whether `row` is the newest message that `user` has exchanged with the
/// peer of `row`.
pub open spec fn is_most_recent(table: Seq<Row>, row: Row, user: Seq<char>) -> bool {
    takes_part(row, user) && !has_later(table, user, peer_of(row, user), row.id)
}

/// For each peer of `user`, the newest row of their conversation; the rows
/// newest first.
pub open spec fn most_recent(table: Seq<Row>, user: Seq<char>) -> Seq<Row> {
    all(table).filter(|row: Row| is_most_recent(table, row, user))
}

/// Why the store did not take a message.
#[derive(Clone, Copy, Debug, PartialEq, Eq, Structural)]
pub enum StoreError {
    /// Every id has been given out.
    IdsExhausted,
}

/// The message table: append-only, each message with an id above all
/// earlier ones.
pub struct MessageStore {
    rows: Vec<Message>,
}

impl View for MessageStore {
    type V = Seq<Row>;

    closed spec fn view(&self) -> Seq<Row> {
        rows_of(self.rows@)
    }
}

impl MessageStore {
    /// The invariant of the store: it holds a table.
    pub open spec fn wf(&self) -> bool {
        is_table(self@)
    }

    /// An empty store.
    pub fn new() -> (store: Self)
        ensures
            store.wf(),
            store@ == Seq::<Row>::empty(),
    {
        let store = MessageStore { rows: Vec::new() };
        assert(store@ =~= Seq::<Row>::empty());
        store
    }

    /// A store with the given rows, oldest first; `None` where their ids
    /// do not start above zero or do not grow strictly.
    pub fn from_rows(rows: Vec<Message>) -> (res: Option<Self>)
        ensures
            res is Some <==> is_table(rows_of(rows@)),
            res matches Some(store) ==> store.wf() && store@ == rows_of(rows@),
    {
        let ghost table = rows_of(rows@);
        let mut i: usize = 0;
        while i < rows.len()
            invariant
                i <= rows.len(),
                table == rows_of(rows@),
                is_table(table.take(i as int)),
            decreases rows.len() - i,
        {
            let low: u64 = if i == 0 {
                0
            } else {
                rows[i - 1].id
            };
            if rows[i].id <= low {
                proof {
                    if i > 0 {
                        assert(table[i - 1].id >= table[i as int].id);
                    } else {
                        assert(table[0].id == 0);
                    }
                }
                return None;
            }
            proof {
                let next = table.take(i + 1);
                assert forall|a: int, b: int| 0 <= a < b < next.len() implies (
                #[trigger] next[a]).id < (#[trigger] next[b]).id by {
                    if b < i {
                        assert(table.take(i as int)[a].id < table.take(i as int)[b].id);
                    } else if a < i - 1 {
                        assert(table.take(i as int)[a].id < table.take(i as int)[i - 1].id);
                    }
                }
                assert forall|a: int| 0 <= a < next.len() implies (#[trigger] next[a]).id > 0 by {
                    if a < i {
                        assert(table.take(i as int)[a].id > 0);
                    }
                }
            }
            i += 1;
        }
        assert(table.take(i as int) =~= table);
        Some(MessageStore { rows })
    }

    /// The number of stored messages.
    pub fn len(&self) -> (n: usize)
        ensures
            n == self@.len(),
    {
        self.rows.len()
    }

    /// Whether a row behind the one at `at` belongs to the conversation of
    /// `user` and `peer`: those are the rows with a greater id.
    fn has_later_from(&self, at: usize, user: &str, peer: &str) -> (res: bool)
        requires
            self.wf(),
            at < self@.len(),
        ensures
            res == has_later(self@, user@, peer@, self@[at as int].id),
    {
        let n = self.rows.len();
        let ghost table = self@;
        let mut j: usize = at + 1;
        while j < n
            invariant
                at < j <= n,
                n == self.rows.len(),
                table == self@,
                is_table(table),
                forall|i: int| at < i < j ==> !is_between(#[trigger] table[i], user@, peer@),
            decreases n - j,
        {
            if self.rows[j].is_between((user, peer)) {
                assert(is_between(table[j as int], user@, peer@) && table[j as int].id
                    > table[at as int].id);
                return true;
            }
            j += 1;
        }
        proof {
            assert forall|i: int|
                0 <= i < table.len() && is_between(#[trigger] table[i], user@, peer@) implies
                table[i].id <= table[at as int].id by {
                if i < at {
                    assert(table[i].id < table[at as int].id);
                }
            }
        }
        false
    }

    /// Stores `message` as sent at `sent_at` and returns the stored row,
    /// whose id lies above every id given out before. Nothing is stored
    /// where no id is left.
    pub fn insert(&mut self, message: NewMessage, sent_at: Timestamp) -> (res: Result<
        Message,
        StoreError,
    >)
        requires
            old(self).wf(),
        ensures
            final(self).wf(),
            match res {
                Ok(stored) => {
                    &&& next_id(old(self)@) <= u64::MAX
                    &&& stored@ == (Row {
                        id: next_id(old(self)@) as u64,
                        sender: message.sender@,
                        receiver: message.receiver@,
                        content: message.content@,
                        sent_at: sent_at,
                        read_at: None,
                    })
                    &&& final(self)@ == old(self)@.push(stored@)
                },
                Err(e) => {
                    &&& e == StoreError::IdsExhausted
                    &&& next_id(old(self)@) > u64::MAX
                    &&& final(self)@ == old(self)@
                },
            },
    {
        let n = self.rows.len();
        let last: u64 = if n == 0 {
            0
        } else {
            self.rows[n - 1].id
        };
        if last == u64::MAX {
            return Err(StoreError::IdsExhausted);
        }
        let stored = Message {
            id: last + 1,
            sender: message.sender,
            receiver: message.receiver,
            content: message.content,
            sent_at,
            read_at: None,
        };
        let copy = stored.clone();
        let ghost before = self@;
        self.rows.push(stored);
        proof {
            assert(self@ =~= before.push(copy@));
            assert forall|a: int, b: int| 0 <= a < b < self@.len() implies (#[trigger] self@[a]).id
                < (#[trigger] self@[b]).id by {
                if b < n {
                    assert(before[a].id < before[b].id);
                } else if a < n - 1 {
                    assert(before[a].id < before[n - 1].id);
                }
            }
            assert forall|a: int| 0 <= a < self@.len() implies (#[trigger] self@[a]).id > 0 by {
                if a < n {
                    assert(before[a].id > 0);
                }
            }
        }
        Ok(copy)
    }
}

/// Whether `id` lies above `lower` and below `upper`, where they are set.
spec fn in_window(id: u64, lower: Option<u64>, upper: Option<u64>) -> bool {
    &&& lower matches Some(low) ==> id > low
    &&& upper matches Some(high) ==> id < high
}

/// The rows of a conversation whose ids lie in a window, newest first.
spec fn window(
    table: Seq<Row>,
    peer1: Seq<char>,
    peer2: Seq<char>,
    lower: Option<u64>,
    upper: Option<u64>,
) -> Seq<Row> {
    all(table).filter(|row: Row| is_between(row, peer1, peer2) && in_window(row.id, lower, upper))
}

proof fn lemma_window_is_between(table: Seq<Row>, peer1: Seq<char>, peer2: Seq<char>)
    ensures
        window(table, peer1, peer2, None, None) == between(table, peer1, peer2),
{
    lemma_filter_agree(
        all(table),
        |row: Row| is_between(row, peer1, peer2) && in_window(row.id, None, None),
        |row: Row| is_between(row, peer1, peer2),
    );
}

proof fn lemma_window_is_after(table: Seq<Row>, peer1: Seq<char>, peer2: Seq<char>, id: u64)
    ensures
        window(table, peer1, peer2, Some(id), None) == after(table, peer1, peer2, id),
{
    lemma_filter_twice(
        all(table),
        |row: Row| is_between(row, peer1, peer2),
        |row: Row| row.id > id,
        |row: Row| is_between(row, peer1, peer2) && in_window(row.id, Some(id), None),
    );
}

proof fn lemma_window_is_before(table: Seq<Row>, peer1: Seq<char>, peer2: Seq<char>, id: u64)
    ensures
        window(table, peer1, peer2, None, Some(id)) == before(table, peer1, peer2, id),
{
    lemma_filter_twice(
        all(table),
        |row: Row| is_between(row, peer1, peer2),
        |row: Row| row.id < id,
        |row: Row| is_between(row, peer1, peer2) && in_window(row.id, None, Some(id)),
    );
}

/// The newest `limit` rows of a conversation whose ids lie in a window.
fn select(
    store: &MessageStore,
    peers: (&str, &str),
    lower: Option<u64>,
    upper: Option<u64>,
    limit: usize,
) -> (res: Vec<Message>)
    ensures
        rows_of(res@) == first_n(window(store@, peers.0@, peers.1@, lower, upper), limit as nat),
{
    let n = store.rows.len();
    let ghost newest_first = all(store@);
    let ghost keep = |row: Row|
        is_between(row, peers.0@, peers.1@) && in_window(row.id, lower, upper);
    let mut out: Vec<Message> = Vec::new();
    let mut k: usize = 0;
    proof {
        reveal(Seq::filter);
        assert(newest_first.take(0).filter(keep) =~= rows_of(out@));
    }
    while k < n && out.len() < limit
        invariant
            k <= n,
            n == store.rows.len(),
            newest_first == all(store@),
            keep == (|row: Row|
                is_between(row, peers.0@, peers.1@) && in_window(row.id, lower, upper)),
            rows_of(out@) == newest_first.take(k as int).filter(keep),
            out.len() <= limit,
            out.len() <= k,
        decreases n - k,
    {
        let message = &store.rows[n - 1 - k];
        let above = match lower {
            Some(low) => message.id > low,
            None => true,
        };
        let below = match upper {
            Some(high) => message.id < high,
            None => true,
        };
        let ghost kept = rows_of(out@);
        proof {
            reveal(Seq::filter);
            let next = newest_first.take(k + 1);
            assert(next.drop_last() =~= newest_first.take(k as int));
            assert(next.last() == message@);
        }
        if above && below && message.is_between(peers) {
            out.push(message.clone());
            assert(rows_of(out@) =~= kept.push(message@));
        }
        k += 1;
    }
    proof {
        let found = newest_first.take(k as int).filter(keep);
        let rest = newest_first.skip(k as int).filter(keep);
        assert(newest_first =~= newest_first.take(k as int) + newest_first.skip(k as int));
        Seq::filter_distributes_over_add(
            newest_first.take(k as int),
            newest_first.skip(k as int),
            keep,
        );
        assert(newest_first.filter(keep) == found + rest);
        if k == n {
            reveal(Seq::filter);
            assert(newest_first.skip(k as int) =~= Seq::<Row>::empty());
            assert(found + rest =~= found);
        } else {
            assert((found + rest).take(limit as int) =~= found);
        }
    }
    out
}

impl Message {
    /// Every message, newest first.
    pub fn all(store: &MessageStore) -> (res: Vec<Message>)
        ensures
            rows_of(res@) == all(store@),
    {
        let n = store.rows.len();
        let mut out: Vec<Message> = Vec::new();
        let mut k: usize = 0;
        while k < n
            invariant
                k <= n,
                n == store.rows.len(),
                rows_of(out@) == all(store@).take(k as int),
            decreases n - k,
        {
            let ghost taken = rows_of(out@);
            out.push(store.rows[n - 1 - k].clone());
            assert(rows_of(out@) =~= taken.push(all(store@)[k as int]));
            k += 1;
            assert(rows_of(out@) =~= all(store@).take(k as int));
        }
        assert(all(store@).take(k as int) =~= all(store@));
        out
    }

    /// The messages of the conversation of the two peers, newest first.
    pub fn between(store: &MessageStore, peers: (&str, &str)) -> (res: Vec<Message>)
        ensures
            rows_of(res@) == between(store@, peers.0@, peers.1@),
    {
        proof {
            lemma_window_is_between(store@, peers.0@, peers.1@);
            all(store@).lemma_filter_len(|row: Row| is_between(row, peers.0@, peers.1@));
        }
        let n = store.rows.len();
        select(store, peers, None, None, n)
    }

    /// The newest `limit` messages of a conversation, newest first.
    pub fn limited(store: &MessageStore, peers: (&str, &str), limit: usize) -> (res: Vec<
        Message,
    >)
        ensures
            rows_of(res@) == limited(store@, peers.0@, peers.1@, limit as nat),
    {
        proof {
            lemma_window_is_between(store@, peers.0@, peers.1@);
        }
        select(store, peers, None, None, limit)
    }

    /// The messages of a conversation with an id above `id`, newest first.
    pub fn after(store: &MessageStore, peers: (&str, &str), id: u64) -> (res: Vec<Message>)
        ensures
            rows_of(res@) == after(store@, peers.0@, peers.1@, id),
    {
        proof {
            lemma_window_is_after(store@, peers.0@, peers.1@, id);
            all(store@).lemma_filter_len(
                |row: Row|
                    is_between(row, peers.0@, peers.1@) && in_window(row.id, Some(id), None),
            );
        }
        let n = store.rows.len();
        select(store, peers, Some(id), None, n)
    }

    /// The messages of a conversation with an id below `id`, newest first.
    pub fn before(store: &MessageStore, peers: (&str, &str), id: u64) -> (res: Vec<Message>)
        ensures
            rows_of(res@) == before(store@, peers.0@, peers.1@, id),
    {
        proof {
            lemma_window_is_before(store@, peers.0@, peers.1@, id);
            all(store@).lemma_filter_len(
                |row: Row|
                    is_between(row, peers.0@, peers.1@) && in_window(row.id, None, Some(id)),
            );
        }
        let n = store.rows.len();
        select(store, peers, None, Some(id), n)
    }

    /// The newest `limit` messages of a conversation with an id above
    /// `id`, newest first.
    pub fn after_limited(store: &MessageStore, peers: (&str, &str), id: u64, limit: usize) -> (res:
        Vec<Message>)
        ensures
            rows_of(res@) == after_limited(store@, peers.0@, peers.1@, id, limit as nat),
    {
        proof {
            lemma_window_is_after(store@, peers.0@, peers.1@, id);
        }
        select(store, peers, Some(id), None, limit)
    }

    /// The newest `limit` messages of a conversation with an id below
    /// `id`, newest first.
    pub fn before_limited(store: &MessageStore, peers: (&str, &str), id: u64, limit: usize) -> (res:
        Vec<Message>)
        ensures
            rows_of(res@) == before_limited(store@, peers.0@, peers.1@, id, limit as nat),
    {
        proof {
            lemma_window_is_before(store@, peers.0@, peers.1@, id);
        }
        select(store, peers, None, Some(id), limit)
    }

    /// For each peer that `user` has exchanged messages with, the newest
    /// message of their conversation; the messages newest first.
    pub fn most_recent(store: &MessageStore, user: &str) -> (res: Vec<Message>)
        requires
            store.wf(),
        ensures
            rows_of(res@) == most_recent(store@, user@),
    {
        let n = store.rows.len();
        let ghost table = store@;
        let ghost newest_first = all(table);
        let ghost keep = |row: Row| is_most_recent(table, row, user@);
        let mut out: Vec<Message> = Vec::new();
        let mut k: usize = 0;
        proof {
            reveal(Seq::filter);
            assert(newest_first.take(0).filter(keep) =~= rows_of(out@));
        }
        while k < n
            invariant
                k <= n,
                n == store.rows.len(),
                store.wf(),
                table == store@,
                newest_first == all(table),
                keep == (|row: Row| is_most_recent(table, row, user@)),
                rows_of(out@) == newest_first.take(k as int).filter(keep),
            decreases n - k,
        {
            let at = n - 1 - k;
            let message = &store.rows[at];
            let ghost kept = rows_of(out@);
            proof {
                reveal(Seq::filter);
                let next = newest_first.take(k + 1);
                assert(next.drop_last() =~= newest_first.take(k as int));
                assert(next.last() == message@);
            }
            let sent = str_eq(message.sender.as_str(), user);
            let received = str_eq(message.receiver.as_str(), user);
            if sent || received {
                let peer = if sent {
                    message.receiver.as_str()
                } else {
                    message.sender.as_str()
                };
                if !store.has_later_from(at, user, peer) {
                    out.push(message.clone());
                    assert(rows_of(out@) =~= kept.push(message@));
                }
            }
            k += 1;
        }
        assert(newest_first.take(k as int) =~= newest_first);
        out
    }

    /// Whether this message belongs to the conversation of the two peers.
    pub fn is_between(&self, peers: (&str, &str)) -> (res: bool)
        ensures
            res == is_between(self@, peers.0@, peers.1@),
    {
        (str_eq(self.sender.as_str(), peers.0) && str_eq(self.receiver.as_str(), peers.1)) || (
        str_eq(self.sender.as_str(), peers.1) && str_eq(self.receiver.as_str(), peers.0))
    }
}

} // verus!
