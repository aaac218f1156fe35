//! The list of conversations: for each peer the newest message, searched
//! by the peer's name and ordered by recency or by name.

use vstd::prelude::*;

use crate::api::login::{valid_username, Username};
use crate::api::StatusCode;
use crate::model::{
    is_between,
    most_recent,
    newest_id,
    peer_of,
    rows_of,
    takes_part,
    Message as DbMessage,
    MessageStore,
    Row,
};
use crate::text::{contains, lex_lt, occurs_in, str_eq, str_lt};
use crate::time::timestamp_text;

verus! {

/// One conversation in the list.
#[derive(Debug, Clone)]
pub struct ConversationPreview {
    pub peer: String,
    pub date: String,
    pub preview: String,
    pub selected: bool,
}

/// What an entry of the list holds, as plain values.
pub struct Preview {
    pub peer: Seq<char>,
    pub date: Seq<char>,
    pub preview: Seq<char>,
    pub selected: bool,
}

impl View for ConversationPreview {
    type V = Preview;

    open spec fn view(&self) -> Preview {
        Preview {
            peer: self.peer@,
            date: self.date@,
            preview: self.preview@,
            selected: self.selected,
        }
    }
}

/// What a sequence of entries holds, in the same order.
pub open spec fn previews_of(entries: Seq<ConversationPreview>) -> Seq<Preview> {
    entries.map_values(|entry: ConversationPreview| entry@)
}

/// The entry for the conversation whose newest message is `row`, as
/// `user` sees it, with `date` as the text of the time it was sent.
pub open spec fn preview_with_date(
    row: Row,
    user: Seq<char>,
    selected: bool,
    date: Seq<char>,
) -> Preview {
    Preview { peer: peer_of(row, user), date, preview: row.content, selected }
}

/// The entry for the conversation whose newest message is `row`, as
/// `user` sees it.
pub open spec fn preview(row: Row, user: Seq<char>, selected: bool) -> Preview {
    preview_with_date(row, user, selected, timestamp_text(row.sent_at.nanos))
}

impl ConversationPreview {
    /// The entry for the conversation whose newest message is `message`,
    /// with `date` as the text of the time it was sent.
    pub fn with_date(message: DbMessage, username: &str, selected: bool, date: String) -> (entry:
        Self)
        ensures
            entry@ == preview_with_date(message@, username@, selected, date@),
    {
        let peer = if str_eq(message.sender.as_str(), username) {
            message.receiver
        } else {
            message.sender
        };
        ConversationPreview { peer, date, preview: message.content, selected }
    }

    /// The entry for the conversation whose newest message is `message`.
    pub fn new(message: DbMessage, username: &str, selected: bool) -> (entry: Self)
        ensures
            entry@ == preview(message@, username@, selected),
    {
        let date = message.sent_at.to_string();
        ConversationPreview::with_date(message, username, selected, date)
    }
}

/// The list of conversations and what stands around it.
#[derive(Debug, Clone, Default)]
pub struct ConversationItems {
    pub conversations: Vec<ConversationPreview>,
    /// The open conversation, where the list does not show it.
    pub hidden_selected: Option<String>,
    /// The user that a new conversation can be started with.
    pub start_new: Option<String>,
    /// The mark up to which the client has seen the list.
    pub last_seen_id: Option<u64>,
}

/// Why the list is asked for.
#[derive(Debug, Clone, Copy, PartialEq, Eq, Structural)]
pub enum RequestType {
    Poll,
    Search,
}

/// How the list is ordered.
#[derive(Debug, Clone, Copy, PartialEq, Eq, Structural)]
pub enum ListOrder {
    Alphabetically,
    MostRecent,
}

/// The query of a request for the list.
#[derive(Debug, Clone)]
pub struct GetConversationPreviewsQuery {
    pub last_seen_id: Option<u64>,
    pub selected_conversation: Option<String>,
    pub search_needle: String,
    pub ordering: ListOrder,
}

/// Whether `row` is found by a search for `needle` in the names of the
/// peers of `user`.
pub open spec fn matches_search(row: Row, user: Seq<char>, needle: Seq<char>) -> bool {
    (row.sender == user && occurs_in(needle, row.receiver)) || (row.receiver == user && occurs_in(
        needle,
        row.sender,
    ))
}

/// The rows that a search for `needle` finds; all rows where the needle
/// is empty.
pub open spec fn searched(rows: Seq<Row>, user: Seq<char>, needle: Seq<char>) -> Seq<Row> {
    if needle.len() == 0 {
        rows
    } else {
        rows.filter(|row: Row| matches_search(row, user, needle))
    }
}

/// Whether a request has nothing to show: it is a poll, and either the
/// list is empty or the client has seen its newest message.
pub open spec fn nothing_new(
    request_type: RequestType,
    newest: Option<u64>,
    last_seen: Option<u64>,
) -> bool {
    request_type == RequestType::Poll && match newest {
        None => true,
        Some(newest_id) => match last_seen {
            Some(last_seen_id) => last_seen_id >= newest_id,
            None => false,
        },
    }
}

/// The mark of a client that had seen the list up to `last_seen` and is
/// shown a list whose newest message is `newest`: the greater of the two.
pub open spec fn raised_mark(last_seen: Option<u64>, newest: Option<u64>) -> Option<u64> {
    match last_seen {
        Some(last_seen_id) => match newest {
            Some(newest_id) => Some(
                if last_seen_id >= newest_id {
                    last_seen_id
                } else {
                    newest_id
                },
            ),
            None => last_seen,
        },
        None => newest,
    }
}

/// Whether `rows` hold a message of the conversation of `peer1` and
/// `peer2`.
pub open spec fn shows_conversation(rows: Seq<Row>, peer1: Seq<char>, peer2: Seq<char>) -> bool {
    exists|i: int| 0 <= i < rows.len() && is_between(#[trigger] rows[i], peer1, peer2)
}

/// What an optional string holds.
pub open spec fn text_of(value: Option<String>) -> Option<Seq<char>> {
    match value {
        Some(text) => Some(text@),
        None => None,
    }
}

/// The open conversation, where the list of `rows` does not show it.
pub open spec fn hidden_selected(
    rows: Seq<Row>,
    user: Seq<char>,
    selected: Option<Seq<char>>,
) -> Option<Seq<char>> {
    match selected {
        Some(peer) => if shows_conversation(rows, peer, user) {
            None
        } else {
            selected
        },
        None => None,
    }
}

/// The user that a new conversation can be started with: the needle,
/// where it can name a user and the list of `rows` shows no conversation
/// with that user.
pub open spec fn start_new(rows: Seq<Row>, user: Seq<char>, needle: Seq<char>) -> Option<
    Seq<char>,
> {
    if valid_username(needle) && !shows_conversation(rows, user, needle) {
        Some(needle)
    } else {
        None
    }
}

/// Whether `row` belongs to the open conversation.
pub open spec fn is_selected(row: Row, user: Seq<char>, selected: Option<Seq<char>>) -> bool {
    match selected {
        Some(peer) => is_between(row, peer, user),
        None => false,
    }
}

/// `sorted` with `row` put in behind the last row whose peer does not
/// come after the peer of `row`.
pub open spec fn insert_by_peer(sorted: Seq<Row>, row: Row, user: Seq<char>) -> Seq<Row>
    decreases sorted.len(),
{
    if sorted.len() > 0 && lex_lt(peer_of(row, user), peer_of(sorted.last(), user)) {
        insert_by_peer(sorted.drop_last(), row, user).push(sorted.last())
    } else {
        sorted.push(row)
    }
}

/// `rows` ordered by the names of the peers of `user`; rows of one peer
/// keep the order they had.
pub open spec fn alphabetical(rows: Seq<Row>, user: Seq<char>) -> Seq<Row>
    decreases rows.len(),
{
    if rows.len() == 0 {
        rows
    } else {
        insert_by_peer(alphabetical(rows.drop_last(), user), rows.last(), user)
    }
}

/// `rows` in the order asked for: as they come, or by the names of the
/// peers.
pub open spec fn ordered(rows: Seq<Row>, user: Seq<char>, ordering: ListOrder) -> Seq<Row> {
    match ordering {
        ListOrder::Alphabetically => alphabetical(rows, user),
        ListOrder::MostRecent => rows,
    }
}

/// The entries for `rows`, each marked where it is the open conversation.
pub open spec fn listed(rows: Seq<Row>, user: Seq<char>, selected: Option<Seq<char>>) -> Seq<
    Preview,
> {
    rows.map_values(|row: Row| preview(row, user, is_selected(row, user, selected)))
}

/// Whether `items` is the answer to a request for the list of `user`,
/// given the newest message of each conversation that the search found.
pub open spec fn lists(
    items: ConversationItems,
    found: Seq<Row>,
    user: Seq<char>,
    query: GetConversationPreviewsQuery,
) -> bool {
    &&& previews_of(items.conversations@) == listed(
        ordered(found, user, query.ordering),
        user,
        text_of(query.selected_conversation),
    )
    &&& text_of(items.hidden_selected) == hidden_selected(
        found,
        user,
        text_of(query.selected_conversation),
    )
    &&& text_of(items.start_new) == start_new(found, user, query.search_needle@)
    &&& items.last_seen_id == raised_mark(query.last_seen_id, newest_id(found))
}

/// The name of the peer of `user` in `message`.
fn peer_name<'a>(message: &'a DbMessage, user: &str) -> (peer: &'a str)
    ensures
        peer@ == peer_of(message@, user@),
{
    if str_eq(message.sender.as_str(), user) {
        message.receiver.as_str()
    } else {
        message.sender.as_str()
    }
}

/// The messages that a search for `needle` finds.
fn search(messages: Vec<DbMessage>, user: &str, needle: &str) -> (found: Vec<DbMessage>)
    ensures
        rows_of(found@) == searched(rows_of(messages@), user@, needle@),
{
    if needle.is_empty() {
        return messages;
    }
    let ghost rows = rows_of(messages@);
    let ghost keep = |row: Row| matches_search(row, user@, needle@);
    let mut found: Vec<DbMessage> = Vec::new();
    let mut i: usize = 0;
    proof {
        reveal(Seq::filter);
        assert(rows.take(0).filter(keep) =~= rows_of(found@));
    }
    while i < messages.len()
        invariant
            i <= messages.len(),
            rows == rows_of(messages@),
            keep == (|row: Row| matches_search(row, user@, needle@)),
            rows_of(found@) == rows.take(i as int).filter(keep),
        decreases messages.len() - i,
    {
        let message = &messages[i];
        let ghost kept = rows_of(found@);
        proof {
            reveal(Seq::filter);
            assert(rows.take(i + 1).drop_last() =~= rows.take(i as int));
            assert(rows.take(i + 1).last() == message@);
        }
        if (str_eq(message.sender.as_str(), user) && contains(message.receiver.as_str(), needle))
            || (str_eq(message.receiver.as_str(), user) && contains(
            message.sender.as_str(),
            needle,
        )) {
            found.push(message.clone());
            assert(rows_of(found@) =~= kept.push(message@));
        }
        i += 1;
    }
    assert(rows.take(i as int) =~= rows);
    found
}

/// Where `insert_by_peer` puts a row: behind the rows from `at` on, all
/// of whose peers come after its peer, and before the row ahead of `at`,
/// whose peer does not.
proof fn lemma_insert_at(sorted: Seq<Row>, row: Row, user: Seq<char>, at: int)
    requires
        0 <= at <= sorted.len(),
        forall|k: int|
            at <= k < sorted.len() ==> lex_lt(
                peer_of(row, user),
                peer_of(#[trigger] sorted[k], user),
            ),
        at > 0 ==> !lex_lt(peer_of(row, user), peer_of(sorted[at - 1], user)),
    ensures
        insert_by_peer(sorted, row, user) == sorted.insert(at, row),
    decreases sorted.len(),
{
    if at == sorted.len() {
        assert(sorted.push(row) =~= sorted.insert(at, row));
    } else {
        let rest = sorted.drop_last();
        assert(lex_lt(peer_of(row, user), peer_of(sorted[sorted.len() - 1], user)));
        assert forall|k: int| at <= k < rest.len() implies lex_lt(
            peer_of(row, user),
            peer_of(#[trigger] rest[k], user),
        ) by {
            assert(rest[k] == sorted[k]);
        }
        lemma_insert_at(rest, row, user, at);
        assert(rest.insert(at, row).push(sorted.last()) =~= sorted.insert(at, row));
    }
}

/// The messages ordered by the names of the peers of `user`.
fn sort_by_peer(messages: Vec<DbMessage>, user: &str) -> (sorted: Vec<DbMessage>)
    ensures
        rows_of(sorted@) == alphabetical(rows_of(messages@), user@),
{
    let ghost rows = rows_of(messages@);
    let mut sorted: Vec<DbMessage> = Vec::new();
    let mut i: usize = 0;
    assert(rows.take(0) =~= Seq::<Row>::empty());
    assert(rows_of(sorted@) =~= Seq::<Row>::empty());
    while i < messages.len()
        invariant
            i <= messages.len(),
            rows == rows_of(messages@),
            rows_of(sorted@) == alphabetical(rows.take(i as int), user@),
            sorted.len() == i,
        decreases messages.len() - i,
    {
        let message = messages[i].clone();
        let ghost done = rows_of(sorted@);
        let mut at: usize = sorted.len();
        while at > 0 && str_lt(peer_name(&message, user), peer_name(&sorted[at - 1], user))
            invariant
                at <= sorted.len(),
                done == rows_of(sorted@),
                forall|k: int|
                    at <= k < done.len() ==> lex_lt(
                        peer_of(message@, user@),
                        peer_of(#[trigger] done[k], user@),
                    ),
            decreases at,
        {
            at -= 1;
        }
        proof {
            lemma_insert_at(done, message@, user@, at as int);
            assert(rows.take(i + 1).drop_last() =~= rows.take(i as int));
            assert(rows.take(i + 1).last() == message@);
        }
        sorted.insert(at, message);
        assert(rows_of(sorted@) =~= done.insert(at as int, rows[i as int]));
        i += 1;
    }
    assert(rows.take(i as int) =~= rows);
    sorted
}

/// Whether `messages` hold one of the conversation of the two peers.
fn any_between(messages: &Vec<DbMessage>, peer1: &str, peer2: &str) -> (res: bool)
    ensures
        res == shows_conversation(rows_of(messages@), peer1@, peer2@),
{
    let mut i: usize = 0;
    while i < messages.len()
        invariant
            i <= messages.len(),
            forall|k: int|
                0 <= k < i ==> !is_between(#[trigger] rows_of(messages@)[k], peer1@, peer2@),
        decreases messages.len() - i,
    {
        if messages[i].is_between((peer1, peer2)) {
            assert(is_between(rows_of(messages@)[i as int], peer1@, peer2@));
            return true;
        }
        i += 1;
    }
    false
}

/// The entries for `messages`, each marked where it is the open
/// conversation.
fn list(messages: &Vec<DbMessage>, user: &str, selected: &Option<String>) -> (entries: Vec<
    ConversationPreview,
>)
    ensures
        previews_of(entries@) == listed(rows_of(messages@), user@, text_of(*selected)),
{
    let ghost rows = rows_of(messages@);
    let mut entries: Vec<ConversationPreview> = Vec::new();
    let mut i: usize = 0;
    while i < messages.len()
        invariant
            i <= messages.len(),
            rows == rows_of(messages@),
            previews_of(entries@) == listed(rows.take(i as int), user@, text_of(*selected)),
        decreases messages.len() - i,
    {
        let ghost before = previews_of(entries@);
        let is_open = match selected {
            Some(peer) => messages[i].is_between((peer.as_str(), user)),
            None => false,
        };
        entries.push(ConversationPreview::new(messages[i].clone(), user, is_open));
        assert(previews_of(entries@) =~= before.push(
            preview(rows[i as int], user@, is_selected(rows[i as int], user@, text_of(*selected))),
        ));
        i += 1;
        assert(previews_of(entries@) =~= listed(rows.take(i as int), user@, text_of(*selected)));
    }
    assert(rows.take(i as int) =~= rows);
    entries
}

/// The list of conversations of the user, given the newest message of
/// each, newest first. The search keeps the conversations whose peer's
/// name holds the needle. A poll that finds nothing, or nothing newer than
/// the client has seen, is answered with the status that says so. A needle
/// that can name a user with whom the list shows no conversation is
/// offered for starting one.
pub fn conversation_items(
    most_recent_messages: Vec<DbMessage>,
    request_type: RequestType,
    query: GetConversationPreviewsQuery,
    username: &Username,
) -> (res: Result<ConversationItems, StatusCode>)
    ensures
        match res {
            Ok(items) => {
                &&& !nothing_new(
                    request_type,
                    newest_id(
                        searched(rows_of(most_recent_messages@), username@, query.search_needle@),
                    ),
                    query.last_seen_id,
                )
                &&& lists(
                    items,
                    searched(rows_of(most_recent_messages@), username@, query.search_needle@),
                    username@,
                    query,
                )
            },
            Err(code) => {
                &&& code == StatusCode::NoContent
                &&& nothing_new(
                    request_type,
                    newest_id(
                        searched(rows_of(most_recent_messages@), username@, query.search_needle@),
                    ),
                    query.last_seen_id,
                )
            },
        },
{
    let user = username.as_str();
    let found = search(most_recent_messages, user, query.search_needle.as_str());
    let ghost rows = rows_of(found@);
    let newest_id = if found.len() > 0 {
        Some(found[0].id)
    } else {
        None
    };
    match request_type {
        RequestType::Poll => {
            match newest_id {
                None => {
                    return Err(StatusCode::NoContent);
                },
                Some(newest_id) => {
                    match query.last_seen_id {
                        Some(last_seen_id) => {
                            if last_seen_id >= newest_id {
                                return Err(StatusCode::NoContent);
                            }
                        },
                        None => {},
                    }
                },
            }
        },
        RequestType::Search => {},
    }
    let hidden_selected = match &query.selected_conversation {
        Some(peer) => {
            if any_between(&found, peer.as_str(), user) {
                None
            } else {
                Some(peer.clone())
            }
        },
        None => None,
    };
    let start_new = match Username::new(query.search_needle.as_str()) {
        Some(peer) => {
            if any_between(&found, user, peer.as_str()) {
                None
            } else {
                Some(peer.into_inner())
            }
        },
        None => None,
    };
    let last_seen_id = match query.last_seen_id {
        Some(last_seen_id) => match newest_id {
            Some(newest_id) => Some(
                if last_seen_id >= newest_id {
                    last_seen_id
                } else {
                    newest_id
                },
            ),
            None => Some(last_seen_id),
        },
        None => newest_id,
    };
    let shown = match query.ordering {
        ListOrder::Alphabetically => sort_by_peer(found, user),
        ListOrder::MostRecent => found,
    };
    Ok(
        ConversationItems {
            conversations: list(&shown, user, &query.selected_conversation),
            start_new,
            hidden_selected,
            last_seen_id,
        },
    )
}

/// The list of conversations of the user: for each peer the newest
/// message that the two have exchanged, searched and ordered as the query
/// asks.
pub fn get_conversation_previews(
    store: &MessageStore,
    request_type: RequestType,
    query: GetConversationPreviewsQuery,
    username: &Username,
) -> (res: Result<ConversationItems, StatusCode>)
    requires
        store.wf(),
    ensures
        match res {
            Ok(items) => {
                &&& !nothing_new(
                    request_type,
                    newest_id(
                        searched(most_recent(store@, username@), username@, query.search_needle@),
                    ),
                    query.last_seen_id,
                )
                &&& lists(
                    items,
                    searched(most_recent(store@, username@), username@, query.search_needle@),
                    username@,
                    query,
                )
            },
            Err(code) => {
                &&& code == StatusCode::NoContent
                &&& nothing_new(
                    request_type,
                    newest_id(
                        searched(most_recent(store@, username@), username@, query.search_needle@),
                    ),
                    query.last_seen_id,
                )
            },
        },
{
    let most_recent_messages = DbMessage::most_recent(store, username.as_str());
    conversation_items(most_recent_messages, request_type, query, username)
}

} // verus!
