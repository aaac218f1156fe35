//! One conversation: its newest messages, polling for new ones, sending,
//! and paging through its history.

use vstd::prelude::*;

use crate::api::conversations::MessagesPage;
use crate::api::login::{valid_username, Username};
use crate::api::{is_event, Content, Either, HtmxRequest, HxTrigger, Root, StatusCode};
use crate::model::{
    after,
    after_limited,
    before_limited,
    between,
    limited,
    newest_id,
    next_id,
    rows_of,
    Message as DbMessage,
    MessageStore,
    NewMessage,
    Row,
};
use crate::text::str_eq;
use crate::time::{timestamp_text, Timestamp};

verus! {

/// The number of messages that one answer holds at most.
pub const MESSAGE_LIMIT: usize = 10;

/// The path of a request for a conversation.
#[derive(Debug, Clone)]
pub struct GetConversation {
    pub peer: String,
}

/// A message as the conversation shows it.
#[derive(Debug)]
pub struct Message {
    pub yours: bool,
    pub id: u64,
    pub content: String,
    pub date: String,
}

/// What a shown message holds, as plain values.
pub struct Bubble {
    pub yours: bool,
    pub id: u64,
    pub content: Seq<char>,
    pub date: Seq<char>,
}

impl View for Message {
    type V = Bubble;

    open spec fn view(&self) -> Bubble {
        Bubble { yours: self.yours, id: self.id, content: self.content@, date: self.date@ }
    }
}

/// What a sequence of shown messages holds, in the same order.
pub open spec fn bubbles_of(messages: Seq<Message>) -> Seq<Bubble> {
    messages.map_values(|m: Message| m@)
}

/// How `row` is shown with `date` as the text of the time it was sent.
pub open spec fn bubble_with_date(yours: bool, row: Row, date: Seq<char>) -> Bubble {
    Bubble { yours, id: row.id, content: row.content, date }
}

/// How `row` is shown to `user`: as the user's own where the user sent it.
pub open spec fn bubble(row: Row, user: Seq<char>) -> Bubble {
    bubble_with_date(row.sender == user, row, timestamp_text(row.sent_at.nanos))
}

/// How `rows` are shown to `user`.
pub open spec fn bubbles(rows: Seq<Row>, user: Seq<char>) -> Seq<Bubble> {
    rows.map_values(|row: Row| bubble(row, user))
}

impl Message {
    /// The message as shown, with `date` as the text of the time it was
    /// sent.
    pub fn with_date(yours: bool, msg: DbMessage, date: String) -> (shown: Self)
        ensures
            shown@ == bubble_with_date(yours, msg@, date@),
    {
        Message { yours, id: msg.id, content: msg.content, date }
    }
}

impl Message {
    /// The message as shown to its sender (`yours`) or to its receiver.
    pub fn from(pair: (bool, DbMessage)) -> (shown: Self)
        ensures
            shown@ == bubble_with_date(pair.0, pair.1@, timestamp_text(pair.1.sent_at.nanos)),
    {
        let date = pair.1.sent_at.to_string();
        Message::with_date(pair.0, pair.1, date)
    }
}

/// What a refresh of a conversation holds for `user`, given the `rows`
/// that are new, newest first: the rows as shown, the id of the newest as
/// the mark up to which the client has seen the conversation, and the
/// peer.
pub open spec fn refreshes(
    refresh: AutoRefreshMessages,
    rows: Seq<Row>,
    user: Seq<char>,
    peer: Seq<char>,
) -> bool {
    &&& bubbles_of(refresh.messages@) == bubbles(rows, user)
    &&& refresh.last_seen_message_id == newest_id(rows)
    &&& refresh.peer@ == peer
}

/// The messages that are new to a client, and the mark for its next poll.
#[derive(Default)]
pub struct AutoRefreshMessages {
    pub messages: Vec<Message>,
    pub last_seen_message_id: Option<u64>,
    pub peer: String,
}

impl AutoRefreshMessages {
    /// The refresh that shows `messages` to `user` in the conversation
    /// with `peer`.
    pub fn new(messages: Vec<DbMessage>, user: &str, peer: &str) -> (refresh: Self)
        ensures
            refreshes(refresh, rows_of(messages@), user@, peer@),
    {
        let last_seen_message_id = if messages.len() > 0 {
            Some(messages[0].id)
        } else {
            None
        };
        AutoRefreshMessages {
            peer: peer.to_owned(),
            messages: show(&messages, user),
            last_seen_message_id,
        }
    }
}

/// The messages as shown to `user`.
fn show(messages: &Vec<DbMessage>, user: &str) -> (shown: Vec<Message>)
    ensures
        bubbles_of(shown@) == bubbles(rows_of(messages@), user@),
{
    let mut shown: Vec<Message> = Vec::new();
    let mut i: usize = 0;
    while i < messages.len()
        invariant
            i <= messages.len(),
            bubbles_of(shown@) == bubbles(rows_of(messages@).take(i as int), user@),
        decreases messages.len() - i,
    {
        let ghost before = bubbles_of(shown@);
        let yours = str_eq(messages[i].sender.as_str(), user);
        shown.push(Message::from((yours, messages[i].clone())));
        assert(bubbles_of(shown@) =~= before.push(bubble(messages@[i as int]@, user@)));
        i += 1;
        assert(bubbles_of(shown@) =~= bubbles(rows_of(messages@).take(i as int), user@));
    }
    assert(rows_of(messages@).take(i as int) =~= rows_of(messages@));
    shown
}

/// A conversation as first opened: its newest messages, and the way to
/// the ones before them.
#[derive(Default)]
pub struct ConversationView {
    pub messages: AutoRefreshMessages,
    pub lazy_load: Option<LoadMore>,
}

/// The direction in which more of a conversation is asked for.
#[derive(Debug, Clone, Copy, PartialEq, Eq, Structural)]
pub enum LoadDirection {
    Earlier,
    Later,
}

impl LoadDirection {
    /// The direction as it stands in a path.
    pub fn to_string(&self) -> (text: String)
        ensures
            text@ == match *self {
                LoadDirection::Earlier => "earlier"@,
                LoadDirection::Later => "later"@,
            },
    {
        match self {
            LoadDirection::Earlier => "earlier".to_owned(),
            LoadDirection::Later => "later".to_owned(),
        }
    }
}

/// The place from which more of a conversation can be asked for.
#[derive(Debug, Clone)]
pub struct LoadMore {
    pub peer: String,
    pub id: u64,
    pub direction: LoadDirection,
}

/// The cursor that a page leaves in `direction`: where the page holds
/// exactly `MESSAGE_LIMIT` rows, the id of its oldest row for earlier ones
/// and of its newest row for later ones; otherwise none, as nothing more
/// is expected in that direction. A full page leaves a cursor also where
/// nothing lies beyond it: the page that the cursor then leads to is
/// empty.
pub open spec fn cursor_of(direction: LoadDirection, rows: Seq<Row>) -> Option<u64> {
    if rows.len() == MESSAGE_LIMIT {
        Some(
            match direction {
                LoadDirection::Earlier => rows.last().id,
                LoadDirection::Later => rows.first().id,
            },
        )
    } else {
        None
    }
}

/// Whether `more` is the way on from `rows` in `direction` in the
/// conversation with `peer`.
pub open spec fn leads_on(
    more: Option<LoadMore>,
    direction: LoadDirection,
    rows: Seq<Row>,
    peer: Seq<char>,
) -> bool {
    match more {
        Some(more) => cursor_of(direction, rows) == Some(more.id) && more.peer@ == peer
            && more.direction == direction,
        None => cursor_of(direction, rows) is None,
    }
}

impl LoadMore {
    /// The way on from a page of `messages`, newest first, where there is
    /// one.
    pub fn new(direction: LoadDirection, messages: &[DbMessage], peer: String) -> (res: Option<
        Self,
    >)
        ensures
            leads_on(res, direction, rows_of(messages@), peer@),
    {
        if messages.len() != MESSAGE_LIMIT {
            return None;
        }
        let id = match direction {
            LoadDirection::Earlier => messages[messages.len() - 1].id,
            LoadDirection::Later => messages[0].id,
        };
        Some(LoadMore { peer, id, direction })
    }
}

/// The event that tells the page of new messages in the open
/// conversation.
pub const NEW_MESSAGE_EVENT: &'static str = "new-message-in-active-conversation";

/// The newest messages of the conversation with the peer in `path`, and
/// the way to earlier ones. A request that the page's script did not make,
/// or one for a page that it had cached and lost, gets the whole page
/// with that conversation selected.
pub fn get_conversation(
    store: &MessageStore,
    htmx: Option<HtmxRequest>,
    path: GetConversation,
    username: &Username,
) -> (res: Either<Root, ConversationView>)
    ensures
        match res {
            Either::E1(page) => {
                &&& htmx matches Some(request) ==> request.restore
                &&& match page.content {
                    Content::Messages(messages) => match messages.selected {
                        Some(selected) => selected@ == path.peer@,
                        None => false,
                    },
                    Content::Login(_) => false,
                }
            },
            Either::E2(conversation) => {
                &&& htmx matches Some(request) && !request.restore
                &&& refreshes(
                    conversation.messages,
                    limited(store@, path.peer@, username@, MESSAGE_LIMIT as nat),
                    username@,
                    path.peer@,
                )
                &&& leads_on(
                    conversation.lazy_load,
                    LoadDirection::Earlier,
                    limited(store@, path.peer@, username@, MESSAGE_LIMIT as nat),
                    path.peer@,
                )
            },
        },
{
    let peer = path.peer;
    let whole_page = match htmx {
        None => true,
        Some(request) => request.restore,
    };
    if whole_page {
        return Either::E1(
            Root { content: Content::Messages(MessagesPage { selected: Some(peer) }) },
        );
    }
    let messages_in_convo = DbMessage::limited(
        store,
        (peer.as_str(), username.as_str()),
        MESSAGE_LIMIT,
    );
    let lazy_load = LoadMore::new(
        LoadDirection::Earlier,
        messages_in_convo.as_slice(),
        peer.clone(),
    );
    Either::E2(
        ConversationView {
            messages: AutoRefreshMessages::new(messages_in_convo, username.as_str(), peer.as_str()),
            lazy_load,
        },
    )
}

/// The path of a request to send a message.
#[derive(Debug, Clone)]
pub struct SendMessagePath {
    pub peer: String,
}

/// What the form for a new message sends.
#[derive(Debug, Clone)]
pub struct SendMessageForm {
    pub new_message_content: String,
    pub last_seen_message_id: Option<u64>,
}

/// The rows of a conversation that a client has not seen: those above its
/// mark, or all where it has none; newest first.
pub open spec fn new_messages(
    table: Seq<Row>,
    peer: Seq<char>,
    user: Seq<char>,
    last_seen: Option<u64>,
) -> Seq<Row> {
    match last_seen {
        Some(id) => after(table, peer, user, id),
        None => between(table, peer, user),
    }
}

fn load_new_messages(store: &MessageStore, peer: &str, user: &str, last_seen: Option<u64>) -> (res:
    Vec<DbMessage>)
    ensures
        rows_of(res@) == new_messages(store@, peer@, user@, last_seen),
{
    match last_seen {
        Some(last_seen_id) => DbMessage::after(store, (peer, user), last_seen_id),
        None => DbMessage::between(store, (peer, user)),
    }
}

/// Whether a message with `content` can be sent to `peer`: the peer can
/// name a user, and there is content.
pub open spec fn can_send(peer: Seq<char>, content: Seq<char>) -> bool {
    valid_username(peer) && content.len() > 0
}

/// The message that the form asks to send from the user to the peer in
/// `path`. A form without content, and a peer that cannot name a user,
/// are refused as a bad request.
pub fn new_message(path: &SendMessagePath, username: &Username, form: &SendMessageForm) -> (res:
    Result<NewMessage, StatusCode>)
    ensures
        match res {
            Ok(message) => {
                &&& can_send(path.peer@, form.new_message_content@)
                &&& message.sender@ == username@
                &&& message.receiver@ == path.peer@
                &&& message.content@ == form.new_message_content@
            },
            Err(code) => !can_send(path.peer@, form.new_message_content@) && code
                == StatusCode::BadRequest,
        },
{
    if form.new_message_content.as_str().is_empty() || Username::new(path.peer.as_str()).is_none() {
        return Err(StatusCode::BadRequest);
    }
    Ok(
        NewMessage {
            sender: username.as_str().to_owned(),
            receiver: path.peer.clone(),
            content: form.new_message_content.clone(),
        },
    )
}

/// The mark of a client that had seen a conversation up to `last_seen`
/// and is sent `rows`, newest first: the id of the newest of them, or the
/// mark it had where there are none.
pub open spec fn mark_after(rows: Seq<Row>, last_seen: Option<u64>) -> Option<u64> {
    match newest_id(rows) {
        Some(id) => Some(id),
        None => last_seen,
    }
}

/// What is sent back once a message is stored: what the sender has not
/// seen of the conversation with `peer`, with the event that tells the
/// page of it. Where that is nothing, the sender keeps the mark it sent.
pub fn sent_answer(
    store: &MessageStore,
    peer: &str,
    username: &Username,
    last_seen: Option<u64>,
) -> (answer: (HxTrigger, AutoRefreshMessages))
    ensures
        is_event(answer.0, NEW_MESSAGE_EVENT@),
        bubbles_of(answer.1.messages@) == bubbles(
            new_messages(store@, peer@, username@, last_seen),
            username@,
        ),
        answer.1.last_seen_message_id == mark_after(
            new_messages(store@, peer@, username@, last_seen),
            last_seen,
        ),
        answer.1.peer@ == peer@,
{
    let new_messages = load_new_messages(store, peer, username.as_str(), last_seen);
    let mut refresh = AutoRefreshMessages::new(new_messages, username.as_str(), peer);
    if refresh.last_seen_message_id.is_none() {
        refresh.last_seen_message_id = last_seen;
    }
    (HxTrigger::NameOnly(NEW_MESSAGE_EVENT.to_owned()), refresh)
}

/// The row that the store makes of a message from `user` to `peer`.
pub open spec fn sent_row(
    table: Seq<Row>,
    user: Seq<char>,
    peer: Seq<char>,
    content: Seq<char>,
    sent_at: Timestamp,
) -> Row {
    Row {
        id: next_id(table) as u64,
        sender: user,
        receiver: peer,
        content,
        sent_at,
        read_at: None,
    }
}

/// Sends the message of the form to the peer in `path`, as sent at
/// `sent_at`, and answers with what the sender has not seen of the
/// conversation, the new message included, and the sender's new mark. A message without content or
/// to a peer that cannot name a user is refused as a bad request, and one
/// that the store cannot take as a failure of the server; the store then
/// stays as it was.
pub fn send_message(
    store: &mut MessageStore,
    path: SendMessagePath,
    username: &Username,
    form: SendMessageForm,
    sent_at: Timestamp,
) -> (res: Result<(HxTrigger, AutoRefreshMessages), StatusCode>)
    requires
        old(store).wf(),
    ensures
        final(store).wf(),
        match res {
            Ok(answer) => {
                &&& can_send(path.peer@, form.new_message_content@)
                &&& next_id(old(store)@) <= u64::MAX
                &&& final(store)@ == old(store)@.push(
                    sent_row(
                        old(store)@,
                        username@,
                        path.peer@,
                        form.new_message_content@,
                        sent_at,
                    ),
                )
                &&& is_event(answer.0, NEW_MESSAGE_EVENT@)
                &&& bubbles_of(answer.1.messages@) == bubbles(
                    new_messages(final(store)@, path.peer@, username@, form.last_seen_message_id),
                    username@,
                )
                &&& answer.1.last_seen_message_id == mark_after(
                    new_messages(final(store)@, path.peer@, username@, form.last_seen_message_id),
                    form.last_seen_message_id,
                )
                &&& answer.1.peer@ == path.peer@
            },
            Err(code) => {
                &&& final(store)@ == old(store)@
                &&& if !can_send(path.peer@, form.new_message_content@) {
                    code == StatusCode::BadRequest
                } else {
                    code == StatusCode::InternalServerError && next_id(old(store)@) > u64::MAX
                }
            },
        },
{
    let message = match new_message(&path, username, &form) {
        Ok(message) => message,
        Err(code) => {
            return Err(code);
        },
    };
    match store.insert(message, sent_at) {
        Ok(_) => {},
        Err(_) => {
            return Err(StatusCode::InternalServerError);
        },
    }
    Ok(sent_answer(store, path.peer.as_str(), username, form.last_seen_message_id))
}

/// The path of a poll for new messages.
#[derive(Debug, Clone)]
pub struct GetNewMessagesPath {
    pub peer: String,
}

/// The query of a poll for new messages.
#[derive(Debug, Clone)]
pub struct GetNewMessagesQuery {
    pub last_seen_message_id: Option<u64>,
}

/// What a client has not seen of the conversation with the peer in
/// `path`; where that is nothing, the status that says so.
pub fn get_new_messages(
    store: &MessageStore,
    path: GetNewMessagesPath,
    query: GetNewMessagesQuery,
    username: &Username,
) -> (res: Result<(HxTrigger, AutoRefreshMessages), StatusCode>)
    ensures
        match res {
            Ok(answer) => {
                &&& new_messages(store@, path.peer@, username@, query.last_seen_message_id).len()
                    > 0
                &&& is_event(answer.0, NEW_MESSAGE_EVENT@)
                &&& refreshes(
                    answer.1,
                    new_messages(store@, path.peer@, username@, query.last_seen_message_id),
                    username@,
                    path.peer@,
                )
            },
            Err(code) => {
                &&& new_messages(store@, path.peer@, username@, query.last_seen_message_id).len()
                    == 0
                &&& code == StatusCode::NoContent
            },
        },
{
    let peer = path.peer;
    let new_messages = load_new_messages(
        store,
        peer.as_str(),
        username.as_str(),
        query.last_seen_message_id,
    );
    if new_messages.len() == 0 {
        return Err(StatusCode::NoContent);
    }
    Ok(
        (
            HxTrigger::NameOnly(NEW_MESSAGE_EVENT.to_owned()),
            AutoRefreshMessages::new(new_messages, username.as_str(), peer.as_str()),
        ),
    )
}

/// The path of a request for more of a conversation.
#[derive(Debug, Clone)]
pub struct LoadMorePath {
    pub peer: String,
    pub direction: LoadDirection,
}

/// The query of a request for more of a conversation: the cursor.
#[derive(Debug, Clone)]
pub struct LoadMoreQuery {
    pub id: u64,
}

/// More of a conversation, and the way on from there.
pub struct LazyLoaded {
    pub messages: Vec<Message>,
    pub lazy_load: Option<LoadMore>,
}

/// The page of a conversation that lies beyond the cursor `id` in
/// `direction`: at most `MESSAGE_LIMIT` rows, the newest of them.
pub open spec fn more_rows(
    table: Seq<Row>,
    user: Seq<char>,
    peer: Seq<char>,
    direction: LoadDirection,
    id: u64,
) -> Seq<Row> {
    match direction {
        LoadDirection::Earlier => before_limited(table, user, peer, id, MESSAGE_LIMIT as nat),
        LoadDirection::Later => after_limited(table, user, peer, id, MESSAGE_LIMIT as nat),
    }
}

/// The messages beyond the cursor of `query` in the direction of `path`,
/// and the way on from them where the page came out full.
pub fn load_more(
    store: &MessageStore,
    path: LoadMorePath,
    query: LoadMoreQuery,
    username: &Username,
) -> (res: LazyLoaded)
    ensures
        bubbles_of(res.messages@) == bubbles(
            more_rows(store@, username@, path.peer@, path.direction, query.id),
            username@,
        ),
        leads_on(
            res.lazy_load,
            path.direction,
            more_rows(store@, username@, path.peer@, path.direction, query.id),
            path.peer@,
        ),
{
    let peer = path.peer;
    let direction = path.direction;
    let messages = match direction {
        LoadDirection::Earlier => DbMessage::before_limited(
            store,
            (username.as_str(), peer.as_str()),
            query.id,
            MESSAGE_LIMIT,
        ),
        LoadDirection::Later => DbMessage::after_limited(
            store,
            (username.as_str(), peer.as_str()),
            query.id,
            MESSAGE_LIMIT,
        ),
    };
    let lazy_load = LoadMore::new(direction, messages.as_slice(), peer.clone());
    LazyLoaded { messages: show(&messages, username.as_str()), lazy_load }
}

} // verus!
