//! What holds of the queries on every table.

use vstd::prelude::*;

use crate::model::lemmas::{
    lemma_filter_agree,
    lemma_filter_all,
    lemma_filter_positions,
};
use crate::model::{
    after,
    all,
    before,
    before_limited,
    between,
    first_n,
    has_later,
    is_between,
    is_most_recent,
    is_table,
    limited,
    most_recent,
    peer_of,
    takes_part,
    Row,
};

verus! {

/// Whether the ids of `rows` fall strictly from each row to the next.
pub open spec fn newest_first(rows: Seq<Row>) -> bool {
    forall|i: int, j: int|
        0 <= i < j < rows.len() ==> (#[trigger] rows[i]).id > (#[trigger] rows[j]).id
}

proof fn lemma_all_newest_first(table: Seq<Row>)
    requires
        is_table(table),
    ensures
        newest_first(all(table)),
        forall|k: int| 0 <= k < table.len() ==> table.contains(#[trigger] all(table)[k]),
{
    let rev = all(table);
    assert forall|i: int, j: int| 0 <= i < j < rev.len() implies (#[trigger] rev[i]).id
        > (#[trigger] rev[j]).id by {
        assert(table[table.len() - 1 - j].id < table[table.len() - 1 - i].id);
    }
    assert forall|k: int| 0 <= k < table.len() implies table.contains(#[trigger] rev[k]) by {
        assert(table[table.len() - 1 - k] == rev[k]);
    }
}

proof fn lemma_filter_newest_first(rows: Seq<Row>, keep: spec_fn(Row) -> bool)
    requires
        newest_first(rows),
    ensures
        newest_first(rows.filter(keep)),
{
    let at = lemma_filter_positions(rows, keep);
    let kept = rows.filter(keep);
    assert forall|i: int, j: int| 0 <= i < j < kept.len() implies (#[trigger] kept[i]).id
        > (#[trigger] kept[j]).id by {
        assert(at[i] < at[j]);
        assert(rows[at[i]].id > rows[at[j]].id);
    }
}

/// The rows that a filter keeps are rows of the sequence it was given.
proof fn lemma_filter_within(rows: Seq<Row>, keep: spec_fn(Row) -> bool)
    ensures
        forall|k: int|
            0 <= k < rows.filter(keep).len() ==> rows.contains(#[trigger] rows.filter(keep)[k])
                && keep(rows.filter(keep)[k]),
{
    let at = lemma_filter_positions(rows, keep);
    let kept = rows.filter(keep);
    assert forall|k: int| 0 <= k < kept.len() implies rows.contains(#[trigger] kept[k]) && keep(
        kept[k],
    ) by {
        assert(rows[at[k]] == kept[k]);
    }
}

/// In rows that stand newest first, those with an id below `id` are the
/// rows from some place on, and those with an id of `id` or more are the
/// rows before that place.
proof fn lemma_split_at_id(rows: Seq<Row>, id: u64) -> (m: int)
    requires
        newest_first(rows),
    ensures
        0 <= m <= rows.len(),
        forall|i: int| 0 <= i < m ==> (#[trigger] rows[i]).id >= id,
        forall|i: int| m <= i < rows.len() ==> (#[trigger] rows[i]).id < id,
        rows.filter(|row: Row| row.id < id) == rows.skip(m),
    decreases rows.len(),
{
    reveal(Seq::filter);
    let below = |row: Row| row.id < id;
    if rows.len() == 0 {
        assert(rows.skip(0) =~= rows);
        0
    } else {
        let rest = rows.drop_last();
        assert forall|i: int, j: int| 0 <= i < j < rest.len() implies (#[trigger] rest[i]).id
            > (#[trigger] rest[j]).id by {
            assert(rows[i].id > rows[j].id);
        }
        let inner = lemma_split_at_id(rest, id);
        assert forall|i: int| 0 <= i < inner implies (#[trigger] rows[i]).id >= id by {
            assert(rest[i].id >= id);
        }
        if rows.last().id < id {
            assert(rest.skip(inner).push(rows.last()) =~= rows.skip(inner));
            assert forall|i: int| inner <= i < rows.len() implies (#[trigger] rows[i]).id < id by {
                if i < rest.len() {
                    assert(rest[i].id < id);
                }
            }
            inner
        } else {
            if inner < rest.len() {
                assert(rest[inner].id < id);
                assert(rows[inner].id > rows[rows.len() - 1].id);
            }
            assert(rest.skip(inner) =~= rows.skip(rows.len() as int));
            assert forall|i: int| 0 <= i < rows.len() implies (#[trigger] rows[i]).id >= id by {
                if i < rows.len() - 1 {
                    assert(rows[i].id > rows[rows.len() - 1].id);
                }
            }
            rows.len() as int
        }
    }
}

/// In rows that stand newest first, those with an id above `id` are the
/// rows up to some place.
proof fn lemma_above_is_prefix(rows: Seq<Row>, id: u64) -> (m: int)
    requires
        newest_first(rows),
    ensures
        0 <= m <= rows.len(),
        forall|i: int| 0 <= i < m ==> (#[trigger] rows[i]).id > id,
        forall|i: int| m <= i < rows.len() ==> (#[trigger] rows[i]).id <= id,
        rows.filter(|row: Row| row.id > id) == rows.take(m),
    decreases rows.len(),
{
    reveal(Seq::filter);
    if rows.len() == 0 {
        assert(rows.take(0) =~= rows);
        0
    } else {
        let rest = rows.drop_last();
        assert forall|i: int, j: int| 0 <= i < j < rest.len() implies (#[trigger] rest[i]).id
            > (#[trigger] rest[j]).id by {
            assert(rows[i].id > rows[j].id);
        }
        let inner = lemma_above_is_prefix(rest, id);
        assert forall|i: int| inner <= i < rows.len() - 1 implies (#[trigger] rows[i]).id
            <= id by {
            assert(rest[i].id <= id);
        }
        assert forall|i: int| 0 <= i < inner implies (#[trigger] rows[i]).id > id by {
            assert(rest[i].id > id);
        }
        if rows.last().id > id {
            if inner < rest.len() {
                assert(rest[inner].id <= id);
                assert(rows[inner].id > rows[rows.len() - 1].id);
            }
            assert(rest.take(inner).push(rows.last()) =~= rows.take(rows.len() as int));
            rows.len() as int
        } else {
            assert(rest.take(inner) =~= rows.take(inner));
            inner
        }
    }
}

/// Every query hands its rows out newest first: the ids fall strictly
/// from each row to the next.
pub proof fn law_results_newest_first(
    table: Seq<Row>,
    peer1: Seq<char>,
    peer2: Seq<char>,
    user: Seq<char>,
    id: u64,
    limit: nat,
)
    requires
        is_table(table),
    ensures
        newest_first(all(table)),
        newest_first(between(table, peer1, peer2)),
        newest_first(limited(table, peer1, peer2, limit)),
        newest_first(after(table, peer1, peer2, id)),
        newest_first(before(table, peer1, peer2, id)),
        newest_first(crate::model::after_limited(table, peer1, peer2, id, limit)),
        newest_first(before_limited(table, peer1, peer2, id, limit)),
        newest_first(most_recent(table, user)),
{
    lemma_all_newest_first(table);
    let conversation = between(table, peer1, peer2);
    lemma_filter_newest_first(all(table), |row: Row| is_between(row, peer1, peer2));
    lemma_filter_newest_first(conversation, |row: Row| row.id > id);
    lemma_filter_newest_first(conversation, |row: Row| row.id < id);
    lemma_filter_newest_first(all(table), |row: Row| is_most_recent(table, row, user));
}

/// A conversation is the same whichever of its two participants is named
/// first.
pub proof fn law_between_symmetric(table: Seq<Row>, peer1: Seq<char>, peer2: Seq<char>)
    ensures
        between(table, peer1, peer2) == between(table, peer2, peer1),
{
    lemma_filter_agree(
        all(table),
        |row: Row| is_between(row, peer1, peer2),
        |row: Row| is_between(row, peer2, peer1),
    );
}

/// The rows of a conversation are the rows of the table that the two
/// participants exchanged, each once.
pub proof fn law_between_exact(table: Seq<Row>, peer1: Seq<char>, peer2: Seq<char>)
    requires
        is_table(table),
    ensures
        forall|row: Row|
            between(table, peer1, peer2).contains(row) <==> table.contains(row) && is_between(
                row,
                peer1,
                peer2,
            ),
        newest_first(between(table, peer1, peer2)),
{
    let keep = |row: Row| is_between(row, peer1, peer2);
    let rev = all(table);
    let conversation = between(table, peer1, peer2);
    lemma_all_newest_first(table);
    lemma_filter_newest_first(rev, keep);
    lemma_filter_within(rev, keep);
    assert forall|row: Row| conversation.contains(row) implies table.contains(row) && is_between(
        row,
        peer1,
        peer2,
    ) by {
        let k = choose|k: int| 0 <= k < conversation.len() && conversation[k] == row;
        assert(rev.contains(conversation[k]));
        let j = choose|j: int| 0 <= j < rev.len() && rev[j] == row;
        assert(table.contains(rev[j]));
    }
    assert forall|row: Row| table.contains(row) && is_between(row, peer1, peer2) implies
        conversation.contains(row) by {
        let j = choose|j: int| 0 <= j < table.len() && table[j] == row;
        assert(rev[table.len() - 1 - j] == row);
        rev.lemma_filter_contains(keep, table.len() - 1 - j);
    }
}

/// Polling from a known id gives rows of the conversation only, each with
/// an id above that id: the newest rows of the conversation, none left
/// out. From id zero it gives the whole conversation.
pub proof fn law_after_within_between(
    table: Seq<Row>,
    peer1: Seq<char>,
    peer2: Seq<char>,
    id: u64,
)
    requires
        is_table(table),
    ensures
        forall|k: int|
            0 <= k < after(table, peer1, peer2, id).len() ==> between(
                table,
                peer1,
                peer2,
            ).contains(#[trigger] after(table, peer1, peer2, id)[k]) && after(
                table,
                peer1,
                peer2,
                id,
            )[k].id > id,
        after(table, peer1, peer2, id).is_prefix_of(between(table, peer1, peer2)),
        forall|k: int|
            after(table, peer1, peer2, id).len() <= k < between(table, peer1, peer2).len()
                ==> (#[trigger] between(table, peer1, peer2)[k]).id <= id,
        after(table, peer1, peer2, 0) == between(table, peer1, peer2),
{
    let conversation = between(table, peer1, peer2);
    lemma_all_newest_first(table);
    lemma_filter_newest_first(all(table), |row: Row| is_between(row, peer1, peer2));
    let m = lemma_above_is_prefix(conversation, id);
    assert(after(table, peer1, peer2, id) == conversation.take(m));
    assert forall|k: int| 0 <= k < conversation.take(m).len() implies conversation.contains(
        #[trigger] conversation.take(m)[k],
    ) by {
        assert(conversation[k] == conversation.take(m)[k]);
    }
    lemma_filter_within(all(table), |row: Row| is_between(row, peer1, peer2));
    assert forall|i: int| 0 <= i < conversation.len() implies (#[trigger] conversation[i]).id
        > 0 by {
        assert(all(table).contains(conversation[i]));
        let j = choose|j: int| 0 <= j < all(table).len() && all(table)[j] == conversation[i];
        assert(table[table.len() - 1 - j].id > 0);
    }
    lemma_filter_all(conversation, |row: Row| row.id > 0);
}

/// The last row of the table that belongs to the conversation of `user`
/// and `peer`, given that some row does.
proof fn lemma_last_between(table: Seq<Row>, user: Seq<char>, peer: Seq<char>, j: int) -> (best:
    int)
    requires
        0 <= j < table.len(),
        is_between(table[j], user, peer),
    ensures
        j <= best < table.len(),
        is_between(table[best], user, peer),
        forall|i: int| best < i < table.len() ==> !is_between(#[trigger] table[i], user, peer),
    decreases table.len() - j,
{
    if exists|i: int| j < i < table.len() && is_between(#[trigger] table[i], user, peer) {
        let i = choose|i: int| j < i < table.len() && is_between(#[trigger] table[i], user, peer);
        lemma_last_between(table, user, peer, i)
    } else {
        j
    }
}

/// The inbox of a user holds exactly one row for each peer that the user
/// has exchanged messages with, and that row is the one with the greatest
/// id among all messages between the two.
pub proof fn law_most_recent_one_row_per_peer(table: Seq<Row>, user: Seq<char>)
    requires
        is_table(table),
    ensures
        forall|k: int|
            0 <= k < most_recent(table, user).len() ==> table.contains(
                #[trigger] most_recent(table, user)[k],
            ) && takes_part(most_recent(table, user)[k], user),
        forall|k: int, j: int|
            0 <= k < most_recent(table, user).len() && 0 <= j < table.len() && is_between(
                #[trigger] table[j],
                user,
                peer_of(#[trigger] most_recent(table, user)[k], user),
            ) ==> table[j].id <= most_recent(table, user)[k].id,
        forall|k: int, l: int|
            0 <= k < l < most_recent(table, user).len() ==> peer_of(
                #[trigger] most_recent(table, user)[k],
                user,
            ) != peer_of(#[trigger] most_recent(table, user)[l], user),
        forall|j: int|
            0 <= j < table.len() && takes_part(#[trigger] table[j], user) ==> exists|k: int|
                0 <= k < most_recent(table, user).len() && peer_of(
                    #[trigger] most_recent(table, user)[k],
                    user,
                ) == peer_of(table[j], user),
{
    let keep = |row: Row| is_most_recent(table, row, user);
    let rev = all(table);
    let inbox = most_recent(table, user);
    lemma_all_newest_first(table);
    lemma_filter_newest_first(rev, keep);
    lemma_filter_within(rev, keep);
    assert forall|k: int| 0 <= k < inbox.len() implies table.contains(#[trigger] inbox[k])
        && takes_part(inbox[k], user) by {
        assert(rev.contains(inbox[k]) && keep(inbox[k]));
        let j = choose|j: int| 0 <= j < rev.len() && rev[j] == inbox[k];
        assert(table.contains(rev[j]));
    }
    assert forall|k: int, j: int|
        0 <= k < inbox.len() && 0 <= j < table.len() && is_between(
            #[trigger] table[j],
            user,
            peer_of(#[trigger] inbox[k], user),
        ) implies table[j].id <= inbox[k].id by {
        assert(keep(inbox[k]));
    }
    assert forall|k: int, l: int| 0 <= k < l < inbox.len() implies peer_of(
        #[trigger] inbox[k],
        user,
    ) != peer_of(#[trigger] inbox[l], user) by {
        assert(keep(inbox[k]) && keep(inbox[l]));
        assert(inbox[k].id > inbox[l].id);
        if peer_of(inbox[k], user) == peer_of(inbox[l], user) {
            assert(table.contains(inbox[k]));
            let j = choose|j: int| 0 <= j < table.len() && table[j] == inbox[k];
            assert(is_between(table[j], user, peer_of(inbox[l], user)));
            assert(has_later(table, user, peer_of(inbox[l], user), inbox[l].id));
        }
    }
    assert forall|j: int| 0 <= j < table.len() && takes_part(#[trigger] table[j], user) implies (
    exists|k: int|
        0 <= k < inbox.len() && peer_of(#[trigger] inbox[k], user) == peer_of(table[j], user)) by {
        let peer = peer_of(table[j], user);
        let best = lemma_last_between(table, user, peer, j);
        let row = table[best];
        assert(peer_of(row, user) == peer);
        assert(!has_later(table, user, peer, row.id)) by {
            if has_later(table, user, peer, row.id) {
                let i = choose|i: int|
                    0 <= i < table.len() && is_between(#[trigger] table[i], user, peer)
                        && table[i].id > row.id;
                if i < best {
                    assert(table[i].id < table[best].id);
                }
            }
        }
        assert(keep(row));
        assert(rev[table.len() - 1 - best] == row);
        rev.lemma_filter_contains(keep, table.len() - 1 - best);
        let k = choose|k: int| 0 <= k < inbox.len() && inbox[k] == row;
        assert(peer_of(inbox[k], user) == peer);
    }
}

/// The page that a cursor asks for: without a cursor the newest `limit`
/// rows of the conversation, with one the newest `limit` rows below it.
pub open spec fn page(
    table: Seq<Row>,
    peer1: Seq<char>,
    peer2: Seq<char>,
    cursor: Option<u64>,
    limit: nat,
) -> Seq<Row> {
    match cursor {
        None => limited(table, peer1, peer2, limit),
        Some(id) => before_limited(table, peer1, peer2, id, limit),
    }
}

/// The cursor that a page of at most `limit` rows leaves for the rows
/// before it: the id of its oldest row where the page is full, none where
/// it is not.
pub open spec fn cursor_behind(rows: Seq<Row>, limit: nat) -> Option<u64> {
    if rows.len() == limit && rows.len() > 0 {
        Some(rows.last().id)
    } else {
        None
    }
}

/// How far a cursor stands from the end of all pages.
pub open spec fn cursor_rank(cursor: Option<u64>) -> int {
    match cursor {
        None => u64::MAX + 1,
        Some(id) => id as int,
    }
}

/// The pages from `cursor` back to the oldest row, one behind the other:
/// each page is followed by the pages from the cursor that it leaves.
pub open spec fn pages_joined(
    table: Seq<Row>,
    peer1: Seq<char>,
    peer2: Seq<char>,
    cursor: Option<u64>,
    limit: nat,
) -> Seq<Row>
    decreases cursor_rank(cursor),
    via pages_joined_decreases
{
    let rows = page(table, peer1, peer2, cursor, limit);
    match cursor_behind(rows, limit) {
        None => rows,
        Some(next) => rows + pages_joined(table, peer1, peer2, Some(next), limit),
    }
}

#[via_fn]
proof fn pages_joined_decreases(
    table: Seq<Row>,
    peer1: Seq<char>,
    peer2: Seq<char>,
    cursor: Option<u64>,
    limit: nat,
) {
    let rows = page(table, peer1, peer2, cursor, limit);
    if let Some(id) = cursor {
        if rows.len() > 0 {
            lemma_page_below_cursor(table, peer1, peer2, id, limit);
        }
    }
}

proof fn lemma_page_below_cursor(
    table: Seq<Row>,
    peer1: Seq<char>,
    peer2: Seq<char>,
    id: u64,
    limit: nat,
)
    ensures
        forall|k: int|
            0 <= k < before_limited(table, peer1, peer2, id, limit).len() ==> (
            #[trigger] before_limited(table, peer1, peer2, id, limit)[k]).id < id,
{
    let older = before(table, peer1, peer2, id);
    lemma_filter_within(between(table, peer1, peer2), |row: Row| row.id < id);
    let rows = before_limited(table, peer1, peer2, id, limit);
    assert forall|k: int| 0 <= k < rows.len() implies (#[trigger] rows[k]).id < id by {
        assert(rows[k] == older[k]);
    }
}

proof fn lemma_pages_from_cursor(
    table: Seq<Row>,
    peer1: Seq<char>,
    peer2: Seq<char>,
    id: u64,
    limit: nat,
)
    requires
        is_table(table),
        limit >= 1,
    ensures
        pages_joined(table, peer1, peer2, Some(id), limit) == before(table, peer1, peer2, id),
    decreases id,
{
    let conversation = between(table, peer1, peer2);
    lemma_all_newest_first(table);
    lemma_filter_newest_first(all(table), |row: Row| is_between(row, peer1, peer2));
    let m = lemma_split_at_id(conversation, id);
    let older = before(table, peer1, peer2, id);
    assert(older == conversation.skip(m));
    let rows = page(table, peer1, peer2, Some(id), limit);
    if rows.len() == limit {
        let next = rows.last().id;
        assert(rows.last() == conversation[m + limit - 1]);
        lemma_page_below_cursor(table, peer1, peer2, id, limit);
        lemma_pages_from_cursor(table, peer1, peer2, next, limit);
        let m2 = lemma_split_at_id(conversation, next);
        if m2 < m + limit {
            assert(conversation[m2].id < next);
            if m2 < m + limit - 1 {
                assert(conversation[m2].id > conversation[m + limit - 1].id);
            }
        }
        if m2 > m + limit {
            assert(conversation[m + limit].id >= next);
            assert(conversation[m + limit - 1].id > conversation[m + limit].id);
        }
        assert(rows + conversation.skip(m + limit) =~= conversation.skip(m));
    }
}

/// Paging backward restores the conversation: the newest `limit` rows,
/// then for as long as a page is full the `limit` rows below its oldest
/// row, put one behind the other, are the conversation, each row once and
/// none left out, whatever `limit` of one or more is used.
pub proof fn law_pages_restore_conversation(
    table: Seq<Row>,
    peer1: Seq<char>,
    peer2: Seq<char>,
    limit: nat,
)
    requires
        is_table(table),
        limit >= 1,
    ensures
        pages_joined(table, peer1, peer2, None, limit) == between(table, peer1, peer2),
        newest_first(between(table, peer1, peer2)),
{
    let conversation = between(table, peer1, peer2);
    lemma_all_newest_first(table);
    lemma_filter_newest_first(all(table), |row: Row| is_between(row, peer1, peer2));
    let rows = page(table, peer1, peer2, None, limit);
    if rows.len() == limit {
        let next = rows.last().id;
        assert(rows.last() == conversation[limit - 1]);
        lemma_pages_from_cursor(table, peer1, peer2, next, limit);
        let m = lemma_split_at_id(conversation, next);
        if m < limit {
            assert(conversation[m].id < next);
            if m < limit - 1 {
                assert(conversation[m].id > conversation[limit - 1].id);
            }
        }
        if m > limit {
            assert(conversation[limit as int].id >= next);
            assert(conversation[limit - 1].id > conversation[limit as int].id);
        }
        assert(rows + conversation.skip(limit as int) =~= conversation);
    }
}

} // verus!
