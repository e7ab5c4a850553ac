//! What of a model's answer reaches the chat, told by the words of the answer.

use vstd::prelude::*;

use crate::bot::handlers_chat;
use crate::bot::AppView;
use crate::storage::UserStateView;
use crate::strings;
use crate::utils::chunking;
use crate::utils::mentions;
use crate::utils::sanitizer;
use crate::utils::text;

verus! {

/// Nothing that holds no white space comes about when words are joined anew.
proof fn lemma_respacing_brings_nothing(s: Seq<char>, p: Seq<char>)
    requires
        !strings::occurs(s, p),
        p.len() > 0,
        strings::no_white(p),
    ensures
        !strings::occurs(strings::join(strings::words(s), seq![' ']), p),
{
    let ws = strings::words(s);
    if strings::occurs(strings::join(ws, seq![' ']), p) {
        assert forall|k: int| 0 <= k < p.len() implies #[trigger] p[k] != ' ' by {
            assert(!strings::is_white(p[k]));
        }
        let i = sanitizer::lemma_occurs_in_line(ws, ' ', p);
        let w = ws[i];
        mentions::law_words_hold_the_text(s);
        assert(ws.contains(w));
        let cut = |c: char| strings::is_white(c);
        let a = choose|a: int| #[trigger] strings::run_at(s, cut, a, w);
        sanitizer::lemma_part_at(w, s, a);
        sanitizer::lemma_occurs_in_part(w, s, p);
    }
}

/// An answer without tags and without mentions of the bot reaches the chat
/// with all its words in their order; if it has any, the messages together
/// hold every character of the answer but white space.
pub proof fn law_plain_answer_reaches_the_chat(a: AppView, raw: Seq<char>)
    requires
        !strings::occurs(raw, "<user:"@),
        a.bot_username.len() > 0 ==> !strings::occurs(raw, mentions::mention(a.bot_username)),
        a.bot_username.len() > 0 ==> !strings::occurs(
            raw,
            mentions::mention(strings::lowercase(a.bot_username)),
        ),
        mentions::lacks(a.bot_username, '\n'),
        mentions::lacks(strings::lowercase(a.bot_username), '\n'),
    ensures
        strings::words(handlers_chat::clean_answer(a, raw)) == strings::words(raw),
        strings::words(raw).len() > 0 ==> strings::solid(
            handlers_chat::answer_messages(a, raw).flatten(),
        ) == strings::solid(raw),
        strings::words(raw).len() > 0 && (forall|i: int|
            0 <= i < strings::words(raw).len() ==> (#[trigger] strings::words(raw)[i]).len() < 3900)
            ==> strings::words(
            strings::join(handlers_chat::answer_messages(a, raw), seq![' ']),
        ) == strings::words(raw),
{
    reveal_strlit("<user:");
    let bot = a.bot_username;
    let tag = sanitizer::tag_open();
    sanitizer::law_plain_answer_is_kept(raw);
    let tidy = sanitizer::tidy(raw);
    sanitizer::lemma_tidy_brings_nothing(raw, tag);
    if bot.len() > 0 {
        let p = mentions::mention(bot);
        assert forall|k: int| 0 <= k < p.len() implies #[trigger] p[k] != '\n' by {
            if k > 0 {
                assert(p[k] == bot[k - 1]);
            }
        }
        sanitizer::lemma_tidy_brings_nothing(raw, p);
        let lower = strings::lowercase(bot);
        let q = mentions::mention(lower);
        assert forall|k: int| 0 <= k < q.len() implies #[trigger] q[k] != '\n' by {
            if k > 0 {
                assert(q[k] == lower[k - 1]);
            }
        }
        sanitizer::lemma_tidy_brings_nothing(raw, q);
    }
    mentions::law_unmentioned_text_keeps_words(tidy, bot);
    mentions::lemma_words_tidy(raw);
    lemma_respacing_brings_nothing(tidy, tag);
    let clean = handlers_chat::clean_answer(a, raw);
    assert(strings::words(clean) == strings::words(raw));
    mentions::law_words_hold_the_text(clean);
    mentions::law_words_hold_the_text(raw);
    mentions::lemma_words_trim(clean);
    mentions::lemma_no_words();
    if strings::blank(clean) {
        assert(strings::trim(clean) =~= Seq::empty());
    }
    text::law_message_chunks_keep_text(clean, 3900);
    if forall|i: int|
        0 <= i < strings::words(raw).len() ==> (#[trigger] strings::words(raw)[i]).len() < 3900 {
        chunking::law_words_are_not_cut(clean, 3900);
    }
}

/// A tag is taken out whole and what stands around it stays; the states that a
/// text tells of are that of the tag and those of what follows it.
pub proof fn law_tag_goes(before: Seq<char>, inner: Seq<char>, after: Seq<char>)
    requires
        mentions::lacks(before, '<'),
        mentions::lacks(inner, '>'),
    ensures
        ({
            let s = before + "<user:"@ + inner + seq!['>'] + after;
            &&& mentions::lacks(after, '<') ==> sanitizer::strip_tags(s) == before + after
            &&& sanitizer::tag_states(s) == (match sanitizer::tag_state(inner) {
                Some(st) => seq![st],
                None => Seq::<UserStateView>::empty(),
            }) + sanitizer::tag_states(after)
        }),
{
    reveal_strlit("<user:");
    let tag = sanitizer::tag_open();
    let s = before + "<user:"@ + inner + seq!['>'] + after;
    let n = before.len() as int;
    let m = inner.len() as int;
    strings::lemma_find_from(s, tag, 0);
    assert(s.subrange(n, n + tag.len()) =~= tag);
    assert(strings::find(s, tag) == Some(n)) by {
        let k = strings::find(s, tag)->0;
        assert(k <= n);
        if k < n {
            assert(s.subrange(k, k + 6)[0] == before[k]);
        }
    }
    let rest = s.skip(n);
    strings::lemma_find_from(rest, seq!['>'], 0);
    let close = seq!['>'];
    assert(rest.subrange(6 + m, 6 + m + close.len()) =~= close);
    assert(strings::find(rest, seq!['>']) == Some(6 + m)) by {
        let k = strings::find(rest, seq!['>'])->0;
        assert(k <= 6 + m);
        if k < 6 + m {
            assert(rest.subrange(k, k + 1)[0] == rest[k]);
            if k < 6 {
                assert(rest[k] == tag[k]);
            } else {
                assert(rest[k] == inner[k - 6]);
            }
        }
    }
    assert(s.skip(n + 6 + m + 1) =~= after);
    assert(s.subrange(n + 6, n + 6 + m) =~= inner);
    assert(s.take(n) =~= before);
    let tail = sanitizer::tag_states(after);
    assert(Seq::<UserStateView>::empty() + tail =~= tail);
    if mentions::lacks(after, '<') {
        mentions::lemma_lacks_occurs(after, tag);
        sanitizer::law_plain_answer_is_kept(after);
        assert(strings::find(after, tag) is None);
        assert(sanitizer::strip_once(after) == after);
        assert(sanitizer::strip_once(s) == before + after);
        let left = before + after;
        assert(mentions::lacks(left, '<')) by {
            assert forall|i: int| 0 <= i < left.len() implies #[trigger] left[i] != '<' by {
                if i < n {
                    assert(left[i] == before[i]);
                } else {
                    assert(left[i] == after[i - n]);
                }
            }
        }
        mentions::lemma_lacks_occurs(left, tag);
        sanitizer::law_plain_answer_is_kept(left);
    }
}

/// A tag that is never closed is cut off with all that follows it, and what
/// stands before it stays.
pub proof fn law_unclosed_tag_is_cut_off(before: Seq<char>, inner: Seq<char>)
    requires
        mentions::lacks(before, '<'),
        mentions::lacks(inner, '>'),
    ensures
        sanitizer::strip_tags(before + "<user:"@ + inner) == before,
        sanitizer::tag_states(before + "<user:"@ + inner) == Seq::<UserStateView>::empty(),
{
    reveal_strlit("<user:");
    let tag = sanitizer::tag_open();
    let s = before + "<user:"@ + inner;
    let n = before.len() as int;
    strings::lemma_find_from(s, tag, 0);
    assert(s.subrange(n, n + tag.len()) =~= tag);
    assert(strings::find(s, tag) == Some(n)) by {
        let k = strings::find(s, tag)->0;
        assert(k <= n);
        if k < n {
            assert(s.subrange(k, k + 6)[0] == before[k]);
        }
    }
    let rest = s.skip(n);
    strings::lemma_find_from(rest, seq!['>'], 0);
    assert(strings::find(rest, seq!['>']) is None) by {
        if strings::find(rest, seq!['>']) is Some {
            let k = strings::find(rest, seq!['>'])->0;
            assert(rest.subrange(k, k + 1)[0] == rest[k]);
            if k < 6 {
                assert(rest[k] == tag[k]);
            } else {
                assert(rest[k] == inner[k - 6]);
            }
        }
    }
    assert(s.take(n) =~= before);
    mentions::lemma_lacks_occurs(before, tag);
    sanitizer::law_plain_answer_is_kept(before);
}

} // verus!
