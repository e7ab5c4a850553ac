//! What the memory of chats keeps and what it lets go, told row by row.

use vstd::prelude::*;

use crate::db;
use crate::db::chats;
use crate::db::chats::ChatRowView;
use crate::db::chats::UserRowView;
use crate::db::guides;
use crate::db::guides::GuideRowView;
use crate::db::LimitStep;
use crate::db::MemoryView;
use crate::rows;
use crate::sort;

verus! {

/// A row in which someone wrote in a chat.
pub open spec fn wrote(all: Seq<ChatRowView>, chat_id: i64, user_id: i64, i: int) -> bool {
    &&& 0 <= i < all.len()
    &&& all[i].chat_id == chat_id
    &&& all[i].role == "user"@
    &&& all[i].user_id == user_id
}

/// The participants of a chat are just those who wrote in it themselves.
pub proof fn law_participants(all: Seq<ChatRowView>, chat_id: i64, user_id: i64)
    ensures
        chats::participants(all, chat_id).contains(user_id) <==> exists|i: int| #[trigger]
            wrote(all, chat_id, user_id, i),
        chats::participants(all, chat_id).finite(),
    decreases all.len(),
{
    if all.len() > 0 {
        let init = all.drop_last();
        law_participants(init, chat_id, user_id);
        let n = all.len() - 1;
        assert(all[n] == all.last());
        if wrote(all, chat_id, user_id, n) {
            assert(chats::participants(all, chat_id).contains(user_id));
        }
        if chats::participants(init, chat_id).contains(user_id) {
            let i = choose|i: int| #[trigger] wrote(init, chat_id, user_id, i);
            assert(wrote(all, chat_id, user_id, i));
        }
        if exists|i: int| #[trigger] wrote(all, chat_id, user_id, i) {
            let i = choose|i: int| #[trigger] wrote(all, chat_id, user_id, i);
            if i < n {
                assert(wrote(init, chat_id, user_id, i));
            }
        }
    } else {
        assert(forall|i: int| !wrote(all, chat_id, user_id, i));
    }
}

/// The characters of a chat, row by row from either end.
proof fn lemma_chars_push(all: Seq<ChatRowView>, k: int, chat_id: i64)
    requires
        all.len() > 0,
        0 <= k < all.len(),
    ensures
        chats::chars_from(all, k, chat_id) == chats::chars_from(all.drop_last(), k, chat_id) + (
        if all.last().chat_id == chat_id {
            all.last().content.len()
        } else {
            0
        }),
    decreases all.len() - k,
{
    if k < all.len() - 1 {
        lemma_chars_push(all, k + 1, chat_id);
    } else {
        assert(chats::chars_from(all, k + 1, chat_id) == 0);
    }
}

/// The size of a chat is that of its messages.
pub proof fn law_chat_size(all: Seq<ChatRowView>, chat_id: i64)
    ensures
        chats::chars_from(all, 0, chat_id) == chats::length_of_rows(
            chats::chat_rows(all, chat_id),
        ),
    decreases all.len(),
{
    if all.len() > 0 {
        law_chat_size(all.drop_last(), chat_id);
        lemma_chars_push(all, 0, chat_id);
        let rest = chats::chat_rows(all.drop_last(), chat_id);
        assert(rest.push(all.last()).drop_last() =~= rest);
    }
}

/// The messages of a chat are those with its id, in their order.
pub proof fn law_chat_rows(all: Seq<ChatRowView>, chat_id: i64)
    ensures
        chats::chat_rows(all, chat_id) == all.filter(|m: ChatRowView| m.chat_id == chat_id),
    decreases all.len(),
{
    reveal(Seq::filter);
    if all.len() > 0 {
        law_chat_rows(all.drop_last(), chat_id);
    }
}

/// Rows kept for what they are.
pub proof fn lemma_survivors_filter<R>(
    all: Seq<R>,
    k: int,
    keep: spec_fn(int) -> bool,
    fine: spec_fn(R) -> bool,
)
    requires
        0 <= k <= all.len(),
        forall|i: int| 0 <= i < all.len() ==> #[trigger] keep(i) == fine(all[i]),
    ensures
        rows::survivors(all, k, keep) == all.take(k).filter(fine),
    decreases k,
{
    reveal(Seq::filter);
    if k > 0 {
        lemma_survivors_filter(all, k - 1, keep, fine);
        assert(all.take(k).drop_last() =~= all.take(k - 1));
        assert(keep(k - 1) == fine(all[k - 1]));
    } else {
        assert(all.take(0) =~= Seq::<R>::empty());
    }
}

/// A reset takes just the messages of the chat and leaves the others in order.
pub proof fn law_reset_takes_one_chat(all: Seq<ChatRowView>, chat_id: i64)
    ensures
        chats::without_chat(all, chat_id) == all.filter(|m: ChatRowView| m.chat_id != chat_id),
{
    lemma_survivors_filter(
        all,
        all.len() as int,
        |i: int| all[i].chat_id != chat_id,
        |m: ChatRowView| m.chat_id != chat_id,
    );
    assert(all.take(all.len() as int) =~= all);
}

/// A message makes its author known: their last activity is its time, their
/// name is the one given unless that is empty, and they are first seen when they
/// first wrote. Nobody else changes.
pub proof fn law_writing_makes_known(
    users: Seq<UserRowView>,
    user_id: i64,
    display_name: Seq<char>,
    now: i64,
    i: int,
)
    requires
        chats::distinct_users(users),
        0 <= i < users.len(),
    ensures
        ({
            let after = chats::touched(users, user_id, display_name, now);
            &&& users[i].user_id != user_id ==> after[i] == users[i]
            &&& users[i].user_id == user_id ==> {
                &&& after.len() == users.len()
                &&& after[i].user_id == user_id && after[i].last_activity == now
                &&& after[i].first_seen == users[i].first_seen
                &&& display_name.len() > 0 ==> after[i].display_name == display_name
                &&& display_name.len() == 0 ==> after[i].display_name == users[i].display_name
            }
        }),
{
    chats::lemma_user_at(users, user_id);
    match chats::user_at(users, user_id) {
        Some(k) => {
            if users[i].user_id == user_id && k != i {
                if k < i {
                    assert(users[k].user_id != users[i].user_id);
                } else {
                    assert(users[i].user_id != users[k].user_id);
                }
            }
        },
        None => {},
    }
}

/// Someone who was not known is added with the time of their message.
pub proof fn law_new_users(
    users: Seq<UserRowView>,
    user_id: i64,
    display_name: Seq<char>,
    now: i64,
)
    requires
        forall|i: int| 0 <= i < users.len() ==> (#[trigger] users[i]).user_id != user_id,
    ensures
        chats::touched(users, user_id, display_name, now) == users.push(
            (UserRowView {
                user_id: user_id,
                first_seen: now,
                last_activity: now,
                display_name: display_name,
            }),
        ),
{
    chats::lemma_user_at(users, user_id);
}

/// The messages of a chat among the first `k` that trimming all chats leaves.
proof fn lemma_trim_all(all: Seq<ChatRowView>, k: int, chat_id: i64, budget: int)
    requires
        0 <= k <= all.len(),
    ensures
        chats::chat_rows(
            rows::survivors(all, k, chats::within_budget(all, None, budget)),
            chat_id,
        ) == chats::newest(
            chats::chat_rows(all.take(k), chat_id),
            chats::chars_from(all, k, chat_id) as int,
            budget,
        ),
    decreases k,
{
    let keep = chats::within_budget(all, None, budget);
    if k > 0 {
        lemma_trim_all(all, k - 1, chat_id, budget);
        let rest = rows::survivors(all, k - 1, keep);
        assert(rest.push(all[k - 1]).drop_last() =~= rest);
        assert(all.take(k).drop_last() =~= all.take(k - 1));
        assert(all.take(k).last() == all[k - 1]);
        if all[k - 1].chat_id == chat_id {
            let d0 = chats::chat_rows(all.take(k - 1), chat_id);
            assert(d0.push(all[k - 1]).drop_last() =~= d0);
        }
    } else {
        assert(all.take(0) =~= Seq::<ChatRowView>::empty());
    }
}

/// What is left of a chat fits: it is the newest part; without its oldest
/// message it is shorter than `budget` characters; and messages are gone only if
/// what is left reaches that.
pub open spec fn fitted(
    before: Seq<ChatRowView>,
    after: Seq<ChatRowView>,
    budget: int,
) -> bool {
    &&& after.is_suffix_of(before)
    &&& after.len() > 0 ==> chats::length_of_rows(after.drop_first()) < budget
    &&& after.len() < before.len() ==> chats::length_of_rows(after) >= budget
}

/// Trimming all chats leaves of each its newest messages.
proof fn lemma_trim_all_fits(all: Seq<ChatRowView>, chat_id: i64, budget: int)
    ensures
        fitted(
            chats::chat_rows(all, chat_id),
            chats::chat_rows(chats::trimmed(all, None, budget), chat_id),
            budget,
        ),
{
    let n = all.len() as int;
    lemma_trim_all(all, n, chat_id, budget);
    assert(all.take(n) =~= all);
    chats::law_newest_within_budget(chats::chat_rows(all, chat_id), budget);
}

/// What survives is what was kept.
pub proof fn lemma_survivors_contain<R>(all: Seq<R>, k: int, keep: spec_fn(int) -> bool, x: R)
    requires
        0 <= k <= all.len(),
    ensures
        rows::survivors(all, k, keep).contains(x) ==> exists|i: int|
            0 <= i < k && #[trigger] all[i] == x && keep(i),
        forall|i: int|
            0 <= i < k && #[trigger] keep(i) ==> rows::survivors(all, k, keep).contains(all[i]),
    decreases k,
{
    if k > 0 {
        lemma_survivors_contain(all, k - 1, keep, x);
        let rest = rows::survivors(all, k - 1, keep);
        let r = rows::survivors(all, k, keep);
        assert forall|i: int| 0 <= i < k && #[trigger] keep(i) implies r.contains(all[i]) by {
            if i < k - 1 {
                let p = rest.index_of(all[i]);
                assert(rest.contains(all[i]));
                assert(r[p] == all[i]);
            } else {
                assert(r[rest.len() as int] == all[i]);
            }
        }
        if r.contains(x) {
            let p = r.index_of(x);
            if p < rest.len() {
                assert(rest[p] == x);
            } else {
                assert(all[k - 1] == x);
            }
        }
    }
}

/// Of the users those stay who wrote last, as many as there is room for: whoever
/// goes did not write after anyone who stays.
pub proof fn law_last_writers_stay(users: Seq<UserRowView>, n: int, i: int, j: int)
    requires
        chats::distinct_users(users),
        n >= 0,
        0 <= i < users.len(),
        0 <= j < users.len(),
    ensures
        ({
            let after = chats::active_users(users, n);
            &&& n >= users.len() ==> after.contains(users[i])
            &&& after.contains(users[i]) && !after.contains(users[j]) ==> users[j].last_activity
                <= users[i].last_activity
        }),
{
    let count = users.len() as int;
    let keys = chats::activity(users);
    let before = sort::score_before(keys);
    let order = sort::ranked(count, before);
    let keep = chats::lately_active(users, n);
    sort::lemma_score_by_key(keys);
    sort::law_ranked_permutation(count, before);
    sort::law_ranked_sorted(count, before);
    lemma_survivors_contain(users, count, keep, users[i]);
    lemma_survivors_contain(users, count, keep, users[j]);
    let after = chats::active_users(users, n);
    assert(order.contains(i) && order.contains(j));
    let p = order.index_of(i);
    let q = order.index_of(j);
    assert(order[p] == i && order[q] == j);
    if n >= users.len() {
        assert(keep(i));
    }
    if after.contains(users[i]) && !after.contains(users[j]) {
        let k = choose|k: int| 0 <= k < count && #[trigger] users[k] == users[i] && keep(k);
        if k < i {
            assert(users[k].user_id != users[i].user_id);
        } else if i < k {
            assert(users[i].user_id != users[k].user_id);
        }
        assert(keep(i));
        assert(!keep(j));
        let a = choose|a: int| 0 <= a < n && a < users.len() && #[trigger] order[a] == i;
        assert(a == p);
        assert(!(q < n)) by {
            if q < n {
                assert(order[q] == j);
                assert(keep(j));
            }
        }
        assert(p < q);
        assert(!before(j, i));
        assert(keys[i] == (users[i].last_activity as i128, users[i].user_id));
        assert(keys[j] == (users[j].last_activity as i128, users[j].user_id));
    }
}

/// The messages of those who stay are all kept, in their order; those of anyone
/// who goes are gone.
pub proof fn law_messages_of_dropped_users(
    all: Seq<ChatRowView>,
    users: Seq<UserRowView>,
    n: int,
)
    ensures
        chats::active_messages(all, users, n) == all.filter(
            |m: ChatRowView| !chats::dropped_user(users, n, m.user_id),
        ),
{
    lemma_survivors_filter(
        all,
        all.len() as int,
        |i: int| !chats::dropped_user(users, n, all[i].user_id),
        |m: ChatRowView| !chats::dropped_user(users, n, m.user_id),
    );
    assert(all.take(all.len() as int) =~= all);
}

/// A database within 95 per cent of its limit is left alone, and the stage at
/// which it fits is told. Beyond that the stages come in order: first every chat
/// keeps its newest 3000 characters, then 300, then the 500 users who wrote last
/// stay, then the 50 oldest guides go. Settings are never touched.
pub proof fn law_limit_stages(
    m: MemoryView,
    stage: u8,
    disk: u64,
    limit: u64,
    chat_id: i64,
)
    requires
        stage <= 4,
    ensures
        ({
            let (after, step) = m.limited(stage, disk, limit);
            let before_chat = chats::chat_rows(m.chats.messages, chat_id);
            let after_chat = chats::chat_rows(after.chats.messages, chat_id);
            let fits = step == LimitStep::Done(stage) && after == m;
            let full = 20 * disk > 19 * limit + 19;
            &&& after.settings == m.settings
            &&& 20 * disk <= 19 * limit ==> fits
            &&& full && stage == 0 ==> step == LimitStep::Vacuum(1) && fitted(
                before_chat,
                after_chat,
                3000,
            ) && after.guides == m.guides && after.chats.users == m.chats.users
            &&& full && stage == 1 ==> step == LimitStep::Vacuum(2) && fitted(
                before_chat,
                after_chat,
                300,
            ) && after.guides == m.guides && after.chats.users == m.chats.users
            &&& full && stage == 2 ==> step == LimitStep::Vacuum(3) && after.chats.users
                == chats::active_users(m.chats.users, 500) && after.chats.messages
                == chats::active_messages(m.chats.messages, m.chats.users, 500) && after.guides
                == m.guides
            &&& full && stage == 3 ==> after.chats == m.chats && after.guides.rows
                == guides::without_oldest(m.guides.rows, 50) && after.guides.last_id
                == m.guides.last_id
            &&& full && stage == 4 ==> step == LimitStep::Done(5) && after == m
        }),
{
    lemma_trim_all_fits(m.chats.messages, chat_id, 3000);
    lemma_trim_all_fits(m.chats.messages, chat_id, 300);
}

/// The guide is one of the oldest.
proof fn lemma_oldest_flags(guides: Seq<GuideRowView>, n: int, i: int)
    requires
        0 <= i < guides.len(),
        n >= guides.len(),
    ensures
        guides::among_oldest(guides, n, i),
{
    let count = guides.len() as int;
    let before = sort::score_before(guides::ages(guides));
    sort::law_ranked_permutation(count, before);
    let order = sort::ranked(count, before);
    assert(order.contains(i));
    let p = order.index_of(i);
    assert(order[p] == i);
}

/// If there are no more guides than have to go, none is left; if none has to go,
/// all are left.
pub proof fn law_oldest_guides_go(guides: Seq<GuideRowView>, n: int)
    ensures
        n >= guides.len() ==> guides::without_oldest(guides, n).len() == 0,
        n <= 0 ==> guides::without_oldest(guides, n) == guides,
{
    let keep = |i: int| !guides::among_oldest(guides, n, i);
    let count = guides.len() as int;
    if n >= guides.len() {
        let r = guides::without_oldest(guides, n);
        if r.len() > 0 {
            lemma_survivors_contain(guides, count, keep, r[0]);
            assert(r.contains(r[0]));
            let i = choose|i: int| 0 <= i < count && #[trigger] guides[i] == r[0] && keep(i);
            lemma_oldest_flags(guides, n, i);
        }
    }
    if n <= 0 {
        rows::lemma_survivors_all(guides, count, keep);
        assert(guides.take(count) =~= guides);
    }
}

/// Three characters make a token, as far as the machine can count.
pub proof fn law_token_budget(tokens: nat)
    ensures
        3 * tokens <= usize::MAX ==> db::char_budget(tokens) == 3 * tokens,
        3 * tokens > usize::MAX ==> db::char_budget(tokens) == usize::MAX,
{
}

/// A message is told as it was kept, with the name of the user who wrote it.
pub proof fn law_told(users: Seq<UserRowView>, messages: Seq<ChatRowView>, i: int, k: int)
    requires
        0 <= i < messages.len(),
        0 <= k < users.len(),
        users[k].user_id == messages[i].user_id,
        forall|j: int| 0 <= j < users.len() && j != k ==> (#[trigger] users[j]).user_id != users[k].user_id,
    ensures
        ({
            let told = chats::all_told(users, messages);
            &&& told.len() == messages.len()
            &&& told[i].role == messages[i].role
            &&& told[i].content == messages[i].content
            &&& told[i].display_name == Some(users[k].display_name)
        }),
{
    chats::lemma_user_at(users, messages[i].user_id);
}

} // verus!
