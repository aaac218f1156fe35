//! What holds of the answers on every table.

use vstd::prelude::*;
use vstd::seq_lib::{to_multiset_build, to_multiset_insert};

use crate::api::conversations::direct::new_messages;
use crate::api::conversations::list::{
    alphabetical,
    insert_by_peer,
    matches_search,
    nothing_new,
    raised_mark,
    RequestType,
};
use crate::model::laws::{law_after_within_between, law_results_newest_first, newest_first};
use crate::model::lemmas::lemma_filter_none;
use crate::model::{after, between, is_table, newest_id, peer_of, takes_part, Row};
use crate::text::{lemma_lex_lt_total, lemma_lex_lt_transitive, lex_lt, occurs_in};

verus! {

/// A poll of a conversation finds nothing new where no message of the
/// conversation lies above the mark that the client sends; so it does
/// however often it is made, as long as no such message arrives.
pub proof fn law_poll_finds_nothing_new(
    table: Seq<Row>,
    peer: Seq<char>,
    user: Seq<char>,
    last_seen: u64,
)
    requires
        is_table(table),
        forall|k: int|
            0 <= k < between(table, peer, user).len() ==> (#[trigger] between(
                table,
                peer,
                user,
            )[k]).id <= last_seen,
    ensures
        new_messages(table, peer, user, Some(last_seen)).len() == 0,
{
    let conversation = between(table, peer, user);
    let newer = after(table, peer, user, last_seen);
    law_after_within_between(table, peer, user, last_seen);
    if newer.len() > 0 {
        assert(conversation.contains(newer[0]));
        let j = choose|j: int| 0 <= j < conversation.len() && conversation[j] == newer[0];
        assert(conversation[j].id <= last_seen);
    }
}

/// A poll with the mark that the answer to the last poll gave finds
/// nothing new, as long as no message of the conversation has arrived.
pub proof fn law_poll_settles(
    table: Seq<Row>,
    peer: Seq<char>,
    user: Seq<char>,
    last_seen: Option<u64>,
)
    requires
        is_table(table),
        new_messages(table, peer, user, last_seen).len() > 0,
    ensures
        newest_id(new_messages(table, peer, user, last_seen)) matches Some(mark) && new_messages(
            table,
            peer,
            user,
            Some(mark),
        ).len() == 0,
{
    let conversation = between(table, peer, user);
    let rows = new_messages(table, peer, user, last_seen);
    if let Some(id) = last_seen {
        law_after_within_between(table, peer, user, id);
    }
    assert(rows[0] == conversation[0]);
    law_results_newest_first(table, peer, user, user, 0, 0);
    assert forall|k: int| 0 <= k < conversation.len() implies (#[trigger] conversation[k]).id
        <= rows[0].id by {
        if k > 0 {
            assert(conversation[0].id > conversation[k].id);
        }
    }
    law_poll_finds_nothing_new(table, peer, user, rows[0].id);
}

/// A poll of the list finds nothing new where the client has seen its
/// newest message; and it has, once it sends the mark that the last
/// answer gave.
pub proof fn law_list_poll_settles(newest: Option<u64>, last_seen: Option<u64>)
    ensures
        last_seen matches Some(seen) && newest matches Some(id) && seen >= id ==> nothing_new(
            RequestType::Poll,
            newest,
            last_seen,
        ),
        nothing_new(RequestType::Poll, newest, raised_mark(last_seen, newest)),
{
}

/// Whether the peers of `rows` stand in the order of their names.
pub open spec fn ordered_by_peer(rows: Seq<Row>, user: Seq<char>) -> bool {
    forall|i: int, j: int|
        0 <= i < j < rows.len() ==> !lex_lt(
            peer_of(#[trigger] rows[j], user),
            peer_of(#[trigger] rows[i], user),
        )
}

/// Where `insert_by_peer` puts a row.
proof fn lemma_insert_position(sorted: Seq<Row>, row: Row, user: Seq<char>) -> (at: int)
    ensures
        0 <= at <= sorted.len(),
        forall|k: int|
            at <= k < sorted.len() ==> lex_lt(
                peer_of(row, user),
                peer_of(#[trigger] sorted[k], user),
            ),
        at > 0 ==> !lex_lt(peer_of(row, user), peer_of(sorted[at - 1], user)),
        insert_by_peer(sorted, row, user) == sorted.insert(at, row),
    decreases sorted.len(),
{
    if sorted.len() > 0 && lex_lt(peer_of(row, user), peer_of(sorted.last(), user)) {
        let rest = sorted.drop_last();
        let at = lemma_insert_position(rest, row, user);
        assert forall|k: int| at <= k < sorted.len() implies lex_lt(
            peer_of(row, user),
            peer_of(#[trigger] sorted[k], user),
        ) by {
            if k < rest.len() {
                assert(rest[k] == sorted[k]);
            }
        }
        assert(rest.insert(at, row).push(sorted.last()) =~= sorted.insert(at, row));
        at
    } else {
        assert(sorted.push(row) =~= sorted.insert(sorted.len() as int, row));
        sorted.len() as int
    }
}

/// The rows of `rows` whose peer is `peer`, in the order they have.
pub open spec fn rows_with_peer(rows: Seq<Row>, user: Seq<char>, peer: Seq<char>) -> Seq<Row> {
    rows.filter(|row: Row| peer_of(row, user) == peer)
}

/// A search of the list by a needle keeps the conversations whose peer's
/// name holds the needle, among the rows that the user takes part in.
pub proof fn law_search_is_by_peer(row: Row, user: Seq<char>, needle: Seq<char>)
    requires
        takes_part(row, user),
    ensures
        matches_search(row, user, needle) <==> occurs_in(needle, peer_of(row, user)),
{
}

/// The list in the order of names keeps, for each peer, the rows of that
/// peer in the order they had.
pub proof fn law_alphabetical_is_stable(rows: Seq<Row>, user: Seq<char>, peer: Seq<char>)
    ensures
        rows_with_peer(alphabetical(rows, user), user, peer) == rows_with_peer(rows, user, peer),
    decreases rows.len(),
{
    reveal(Seq::filter);
    if rows.len() > 0 {
        let this = |row: Row| peer_of(row, user) == peer;
        let rest = rows.drop_last();
        let row = rows.last();
        let sorted = alphabetical(rest, user);
        law_alphabetical_is_stable(rest, user, peer);
        let at = lemma_insert_position(sorted, row, user);
        let head = sorted.take(at);
        let tail = sorted.skip(at);
        assert(sorted =~= head + tail);
        assert(sorted.insert(at, row) =~= head.push(row) + tail);
        Seq::filter_distributes_over_add(head, tail, this);
        Seq::filter_distributes_over_add(head.push(row), tail, this);
        head.lemma_filter_push(row, this);
        if this(row) {
            assert forall|k: int| 0 <= k < tail.len() implies !this(#[trigger] tail[k]) by {
                assert(tail[k] == sorted[at + k]);
                lemma_lex_lt_total(peer, peer);
            }
            lemma_filter_none(tail, this);
            assert(head.filter(this) + tail.filter(this) =~= head.filter(this));
            assert(head.filter(this).push(row) + tail.filter(this) =~= head.filter(this).push(
                row,
            ));
        } else {
            assert(head.push(row).filter(this) == head.filter(this));
        }
    }
}

/// The list in the order of names holds the rows it was given, each as
/// often as it was given, with the names of the peers never falling from
/// one row to the next.
pub proof fn law_alphabetical_sorts(rows: Seq<Row>, user: Seq<char>)
    ensures
        alphabetical(rows, user).to_multiset() == rows.to_multiset(),
        alphabetical(rows, user).len() == rows.len(),
        ordered_by_peer(alphabetical(rows, user), user),
    decreases rows.len(),
{
    if rows.len() > 0 {
        let rest = rows.drop_last();
        let row = rows.last();
        let sorted = alphabetical(rest, user);
        law_alphabetical_sorts(rest, user);
        let at = lemma_insert_position(sorted, row, user);
        let result = sorted.insert(at, row);
        to_multiset_insert(sorted, at, row);
        to_multiset_build(rest, row);
        assert(rest.push(row) =~= rows);
        assert forall|i: int, j: int| 0 <= i < j < result.len() implies !lex_lt(
            peer_of(#[trigger] result[j], user),
            peer_of(#[trigger] result[i], user),
        ) by {
            let name = peer_of(row, user);
            if i == at {
                assert(result[j] == sorted[j - 1]);
                lemma_lex_lt_total(name, peer_of(sorted[j - 1], user));
            } else if j == at {
                assert(result[i] == sorted[i]);
                let ahead = peer_of(sorted[at - 1], user);
                let other = peer_of(sorted[i], user);
                if lex_lt(name, other) {
                    if i < at - 1 {
                        lemma_lex_lt_total(other, ahead);
                        if other != ahead {
                            lemma_lex_lt_transitive(name, other, ahead);
                        }
                    }
                }
            } else {
                let a = if i < at { i } else { i - 1 };
                let b = if j < at { j } else { j - 1 };
                assert(result[i] == sorted[a] && result[j] == sorted[b]);
            }
        }
    }
}

} // verus!
