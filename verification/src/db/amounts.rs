//! How much is noted, how much goes when the database is full, and how the
//! memory counts.

use vstd::prelude::*;
use vstd::set_lib::*;

use crate::db::chats;
use crate::db::chats::ChatRowView;
use crate::db::chats::UserRowView;
use crate::db::guides;
use crate::db::guides::GuideRowView;
use crate::db::keeping;
use crate::db::MemoryView;
use crate::rows;
use crate::sort;
use crate::strings;
use crate::text;

verus! {

/// As many rows survive as there are places that are kept.
proof fn lemma_survivors_count<R>(all: Seq<R>, k: int, keep: spec_fn(int) -> bool)
    requires
        0 <= k <= all.len(),
    ensures
        rows::survivors(all, k, keep).len() == set_int_range(0, k).filter(keep).len(),
        set_int_range(0, k).filter(keep).finite(),
    decreases k,
{
    lemma_int_range(0, k);
    let now = set_int_range(0, k).filter(keep);
    if k > 0 {
        lemma_survivors_count(all, k - 1, keep);
        lemma_int_range(0, k - 1);
        let before = set_int_range(0, k - 1).filter(keep);
        if keep(k - 1) {
            assert(now =~= before.insert(k - 1));
        } else {
            assert(now =~= before);
        }
    } else {
        assert(now =~= Set::empty());
    }
}

/// The places from `a` to `b` of an order are as many as there are.
proof fn lemma_part_of_order(order: Seq<int>, a: int, b: int, chosen: Set<int>)
    requires
        order.no_duplicates(),
        0 <= a <= b <= order.len(),
        forall|x: int| #[trigger] chosen.contains(x) <==> order.subrange(a, b).contains(x),
    ensures
        chosen.len() == b - a,
{
    let part = order.subrange(a, b);
    assert(part.no_duplicates());
    part.unique_seq_to_set();
    assert(chosen =~= part.to_set());
}

/// Just as many users stay as there is room for, in their order.
pub proof fn law_room_for_users(users: Seq<UserRowView>, n: int)
    requires
        chats::distinct_users(users),
        n >= 0,
    ensures
        ({
            let after = chats::active_users(users, n);
            &&& after.len() == if n < users.len() {
                n
            } else {
                users.len() as int
            }
            &&& after == users.filter(|u: UserRowView| after.contains(u))
        }),
{
    let count = users.len() as int;
    let before = sort::score_before(chats::activity(users));
    let order = sort::ranked(count, before);
    let keep = chats::lately_active(users, n);
    let after = chats::active_users(users, n);
    let m = if n < count {
        n
    } else {
        count
    };
    sort::law_ranked_permutation(count, before);
    lemma_survivors_count(users, count, keep);
    let kept = set_int_range(0, count).filter(keep);
    assert forall|x: int| #[trigger] kept.contains(x) <==> order.subrange(0, m).contains(x) by {
        let part = order.subrange(0, m);
        if kept.contains(x) {
            let p = choose|p: int| 0 <= p < n && p < users.len() && #[trigger] order[p] == x;
            assert(part[p] == x);
        }
        if part.contains(x) {
            let p = part.index_of(x);
            assert(part[p] == x && order[p] == x);
            assert(keep(x));
        }
    }
    lemma_part_of_order(order, 0, m, kept);
    let fine = |u: UserRowView| after.contains(u);
    assert forall|i: int| 0 <= i < users.len() implies #[trigger] keep(i) == fine(users[i]) by {
        keeping::lemma_survivors_contain(users, count, keep, users[i]);
        if after.contains(users[i]) {
            let k = choose|k: int| 0 <= k < count && #[trigger] users[k] == users[i] && keep(k);
            if k < i {
                assert(users[k].user_id != users[i].user_id);
            } else if i < k {
                assert(users[i].user_id != users[k].user_id);
            }
        }
    }
    keeping::lemma_survivors_filter(users, count, keep, fine);
    assert(users.take(count) =~= users);
}

/// A user is dropped who is known and does not stay.
pub proof fn law_dropped_users(users: Seq<UserRowView>, n: int, i: int, user_id: i64)
    requires
        chats::distinct_users(users),
        n >= 0,
    ensures
        0 <= i < users.len() ==> (chats::dropped_user(users, n, users[i].user_id)
            <==> !chats::active_users(users, n).contains(users[i])),
        (forall|j: int| 0 <= j < users.len() ==> (#[trigger] users[j]).user_id != user_id)
            ==> !chats::dropped_user(users, n, user_id),
{
    if 0 <= i < users.len() {
        let count = users.len() as int;
        let keep = chats::lately_active(users, n);
        let after = chats::active_users(users, n);
        keeping::lemma_survivors_contain(users, count, keep, users[i]);
        if after.contains(users[i]) {
            let k = choose|k: int| 0 <= k < count && #[trigger] users[k] == users[i] && keep(k);
            if k < i {
                assert(users[k].user_id != users[i].user_id);
            } else if i < k {
                assert(users[i].user_id != users[k].user_id);
            }
            assert(keep(i));
            assert forall|j: int|
                0 <= j < count && (#[trigger] users[j]).user_id == users[i].user_id implies keep(
                j,
            ) by {
                if j < i {
                    assert(users[j].user_id != users[i].user_id);
                } else if i < j {
                    assert(users[i].user_id != users[j].user_id);
                }
            }
        } else {
            assert(!keep(i));
        }
    }
}

/// Just as many guides go as have to, the oldest first; the others stay in their
/// order.
pub proof fn law_number_of_old_guides(rows: Seq<GuideRowView>, n: int, i: int, j: int)
    requires
        guides::rising_ids(rows),
        0 <= n <= rows.len(),
        0 <= i < rows.len(),
        0 <= j < rows.len(),
    ensures
        ({
            let after = guides::without_oldest(rows, n);
            &&& after.len() == rows.len() - n
            &&& after == rows.filter(|g: GuideRowView| after.contains(g))
            &&& after.contains(rows[i]) && !after.contains(rows[j]) ==> rows[j].created_at
                <= rows[i].created_at
        }),
{
    let count = rows.len() as int;
    let before = sort::score_before(guides::ages(rows));
    let order = sort::ranked(count, before);
    let keep = |i: int| !guides::among_oldest(rows, n, i);
    let after = guides::without_oldest(rows, n);
    assert(after == rows::survivors(rows, count, keep));
    sort::law_ranked_permutation(count, before);
    lemma_survivors_count(rows, count, keep);
    let kept = set_int_range(0, count).filter(keep);
    assert forall|x: int| #[trigger] kept.contains(x) <==> order.subrange(n, count).contains(x) by {
        let part = order.subrange(n, count);
        if kept.contains(x) {
            assert(order.contains(x));
            let p = order.index_of(x);
            assert(order[p] == x);
            assert(p >= n);
            assert(part[p - n] == x);
        }
        if part.contains(x) {
            let p = part.index_of(x);
            assert(part[p] == x && order[p + n] == x);
            if guides::among_oldest(rows, n, x) {
                let q = choose|q: int| 0 <= q < n && q < rows.len() && #[trigger] order[q] == x;
                assert(order[q] != order[p + n]);
            }
            assert(keep(x));
        }
    }
    lemma_part_of_order(order, n, count, kept);
    let fine = |g: GuideRowView| after.contains(g);
    assert forall|k: int| 0 <= k < rows.len() implies #[trigger] keep(k) == fine(rows[k]) by {
        keeping::lemma_survivors_contain(rows, count, keep, rows[k]);
        if after.contains(rows[k]) {
            let q = choose|q: int| 0 <= q < count && #[trigger] rows[q] == rows[k] && keep(q);
            if q < k {
                assert(rows[q].guide_id < rows[k].guide_id);
            } else if k < q {
                assert(rows[k].guide_id < rows[q].guide_id);
            }
        }
    }
    keeping::lemma_survivors_filter(rows, count, keep, fine);
    assert(rows.take(count) =~= rows);
    if after.contains(rows[i]) && !after.contains(rows[j]) {
        assert(keep(i) && !keep(j));
        guides::law_oldest_go_first(rows, n, j, i);
    }
}

/// A chat is as long as its messages together.
pub proof fn law_length_of_a_chat(messages: Seq<ChatRowView>, m: ChatRowView)
    ensures
        chats::length_of_rows(Seq::empty()) == 0,
        chats::length_of_rows(messages.push(m)) == chats::length_of_rows(messages)
            + m.content.len(),
{
    assert(messages.push(m).drop_last() =~= messages);
}

/// A message is noted with its author, its chat, its role, its text and its time,
/// behind all others, and changes neither guides nor settings.
pub proof fn law_message_is_noted(
    m: MemoryView,
    user_id: i64,
    chat_id: i64,
    name: Seq<char>,
    role: Seq<char>,
    content: Seq<char>,
    now: i64,
)
    ensures
        ({
            let after = m.with_message(user_id, chat_id, name, role, content, now);
            let row = after.chats.messages.last();
            &&& after.chats.messages.len() == m.chats.messages.len() + 1
            &&& after.chats.messages.drop_last() == m.chats.messages
            &&& row.user_id == user_id && row.chat_id == chat_id && row.role == role && row.content
                == content && row.created_at == now
            &&& after.chats.users == chats::touched(m.chats.users, user_id, name, now)
            &&& after.guides == m.guides
            &&& after.settings == m.settings
        }),
{
    let after = m.with_message(user_id, chat_id, name, role, content, now);
    assert(after.chats.messages.drop_last() =~= m.chats.messages);
}

/// A guide is noted behind all others under the next id, in fragments of about
/// 1200 and at most 2000 characters, and its id is not given again.
pub proof fn law_guide_is_noted(
    m: MemoryView,
    title: Seq<char>,
    added_by: i64,
    content: Seq<char>,
    now: i64,
)
    requires
        m.guides.last_id < i64::MAX,
    ensures
        ({
            let after = m.with_guide(title, added_by, content, now);
            let row = after.guides.rows.last();
            &&& after.guides.rows.len() == m.guides.rows.len() + 1
            &&& after.guides.rows.drop_last() == m.guides.rows
            &&& row.guide_id == m.guides.last_id + 1 && after.guides.last_id == row.guide_id
            &&& row.title == strings::trim(title)
            &&& row.chunks == text::guide_chunks(content, 1200, 2000)
            &&& after.chats == m.chats
            &&& after.settings == m.settings
        }),
{
    let after = m.with_guide(title, added_by, content, now);
    assert(after.guides.rows.drop_last() =~= m.guides.rows);
}

} // verus!
