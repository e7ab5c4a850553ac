//! Which messages of a group the bot answers and what question it takes from
//! them, word by word.

use vstd::prelude::*;

use crate::db::titles;
use crate::handlers::replies;
use crate::strings;
use crate::strings::basics;
use crate::telegram::IncomingView;
use crate::telegram::RepliedView;
use crate::telegram::SenderView;
use crate::utils::mentions;

verus! {

/// The word mentions the bot: it is `@` and the name in whatever case of the
/// Latin letters, or it starts so in lower case.
pub open spec fn mentions_bot(word: Seq<char>, username: Seq<char>) -> bool {
    let tag = mentions::mention(username);
    titles::same_letters(word, tag) || strings::lowercase(tag).is_prefix_of(
        strings::lowercase(word),
    )
}

/// A word of the text mentions the bot.
pub open spec fn mentioned_at(text: Seq<char>, username: Seq<char>, i: int) -> bool {
    0 <= i < strings::words(text).len() && mentions_bot(strings::words(text)[i], username)
}

/// What tells a tag from another word.
proof fn lemma_tags(word: Seq<char>, username: Seq<char>)
    ensures
        replies::is_tag(word, replies::tag_of(username)) <==> titles::same_letters(
            word,
            mentions::mention(username),
        ),
        mentions_bot(word, username) <==> replies::is_tag(word, replies::tag_of(username))
            || replies::has_tag(word, replies::tag_of(username)),
{
    reveal_strlit("@");
    assert(replies::tag_of(username) =~= mentions::mention(username));
    titles::lemma_fold_same(word, mentions::mention(username));
}

/// A tag among words is found.
proof fn lemma_found(ws: Seq<Seq<char>>, username: Seq<char>)
    ensures
        replies::without_tag(ws, replies::tag_of(username)).0 <==> exists|i: int|
            0 <= i < ws.len() && #[trigger] mentions_bot(ws[i], username),
    decreases ws.len(),
{
    if ws.len() > 0 {
        let init = ws.drop_last();
        lemma_found(init, username);
        lemma_tags(ws.last(), username);
        let n = ws.len() - 1;
        assert(ws[n] == ws.last());
        if exists|i: int| 0 <= i < init.len() && #[trigger] mentions_bot(init[i], username) {
            let i = choose|i: int| 0 <= i < init.len() && #[trigger] mentions_bot(
                init[i],
                username,
            );
            assert(mentions_bot(ws[i], username));
        }
        if exists|i: int| 0 <= i < ws.len() && #[trigger] mentions_bot(ws[i], username) {
            let i = choose|i: int| 0 <= i < ws.len() && #[trigger] mentions_bot(ws[i], username);
            if i < n {
                assert(mentions_bot(init[i], username));
            } else {
                assert(mentions_bot(ws.last(), username));
            }
        }
    }
}

/// The message is one of the bot: its author is the bot by id or by name in
/// whatever case of the Latin letters, it was sent through the bot, or in its
/// name.
pub open spec fn from_bot(r: RepliedView, bot_id: u64, bot: Option<Seq<char>>) -> bool {
    ||| r.from is Some && r.from->0.id == bot_id
    ||| r.from is Some && r.from->0.username is Some && bot is Some && titles::same_letters(
        r.from->0.username->0,
        bot->0,
    )
    ||| r.via_bot is Some && r.via_bot->0 == bot_id
    ||| r.sender_chat is Some && r.sender_chat->0 == bot_id as i64
}

/// In groups the bot answers a message if and only if a word of it mentions the
/// bot or it replies to a message of the bot that is not the head of the topic.
/// In private chats it never does.
pub proof fn law_answered(
    msg: IncomingView,
    bot_id: u64,
    bot: Option<Seq<char>>,
    text: Seq<char>,
)
    ensures
        ({
            let named = bot is Some && exists|i: int| #[trigger] mentioned_at(text, bot->0, i);
            let replied = msg.reply is Some && !msg.reply->0.topic_created && msg.thread_id != Some(
                msg.reply->0.message_id,
            ) && from_bot(msg.reply->0, bot_id, bot);
            replies::answered(msg, bot_id, bot, text).0 <==> !msg.private && (named || replied)
        }),
{
    if bot is Some {
        let ws = strings::words(text);
        lemma_found(ws, bot->0);
        if exists|i: int| 0 <= i < ws.len() && #[trigger] mentions_bot(ws[i], bot->0) {
            let i = choose|i: int| 0 <= i < ws.len() && #[trigger] mentions_bot(ws[i], bot->0);
            assert(mentioned_at(text, bot->0, i));
        }
        if exists|i: int| #[trigger] mentioned_at(text, bot->0, i) {
            let i = choose|i: int| #[trigger] mentioned_at(text, bot->0, i);
            assert(mentions_bot(ws[i], bot->0));
        }
    }
    if msg.reply is Some {
        let r = msg.reply->0;
        if r.from is Some && r.from->0.username is Some && bot is Some {
            titles::lemma_fold_same(r.from->0.username->0, bot->0);
        }
    }
}

/// Words that are no tag stay.
proof fn lemma_other_words_stay(ws: Seq<Seq<char>>, username: Seq<char>)
    requires
        forall|i: int|
            0 <= i < ws.len() ==> titles::same_letters(
                #[trigger] ws[i],
                mentions::mention(username),
            ) || !mentions_bot(ws[i], username),
    ensures
        replies::without_tag(ws, replies::tag_of(username)).1 == ws.filter(
            |w: Seq<char>| !mentions_bot(w, username),
        ),
    decreases ws.len(),
{
    reveal(Seq::filter);
    if ws.len() > 0 {
        let init = ws.drop_last();
        assert forall|i: int| 0 <= i < init.len() implies titles::same_letters(
            #[trigger] init[i],
            mentions::mention(username),
        ) || !mentions_bot(init[i], username) by {
            assert(init[i] == ws[i]);
        }
        lemma_other_words_stay(init, username);
        lemma_tags(ws.last(), username);
        assert(ws[ws.len() - 1] == ws.last());
    }
}

/// The question is made of the words of the message in their order, without
/// those that are the tag of the bot; a message without the tag is taken whole.
pub proof fn law_question_keeps_the_words(
    msg: IncomingView,
    bot_id: u64,
    username: Seq<char>,
    text: Seq<char>,
)
    requires
        !msg.private,
        forall|i: int|
            0 <= i < strings::words(text).len() ==> titles::same_letters(
                #[trigger] strings::words(text)[i],
                mentions::mention(username),
            ) || !mentions_bot(strings::words(text)[i], username),
    ensures
        strings::words(replies::answered(msg, bot_id, Some(username), text).1) == strings::words(
            text,
        ).filter(|w: Seq<char>| !mentions_bot(w, username)),
        strings::words(replies::answered(msg, bot_id, None, text).1) == strings::words(text),
{
    let ws = strings::words(text);
    let other = |w: Seq<char>| !mentions_bot(w, username);
    lemma_other_words_stay(ws, username);
    let kept = ws.filter(other);
    assert forall|i: int| 0 <= i < kept.len() implies (#[trigger] kept[i]).len() > 0
        && strings::no_white(kept[i]) by {
        ws.lemma_filter_contains_rev(other, kept[i]);
        let k = ws.index_of(kept[i]);
        assert(ws.contains(kept[i]));
        mentions::lemma_word_is_solid(text, k);
    }
    mentions::lemma_words_join(kept);
    mentions::lemma_words_join(strings::words(strings::join(kept, " "@)));
    mentions::lemma_words_respaced(text);
}

/// Characters take their room one after the other.
proof fn lemma_cut_behind(a: Seq<char>, b: Seq<char>)
    ensures
        strings::byte_cut(a + b, strings::byte_len(a) as int) == Some(a.len() as int),
    decreases a.len(),
{
    if a.len() > 0 {
        let s = a + b;
        let rest = a.drop_first();
        lemma_cut_behind(rest, b);
        strings::lemma_byte_len_add(seq![a[0]], rest);
        assert(seq![a[0]] + rest =~= a);
        assert(seq![a[0]].drop_last() =~= Seq::<char>::empty());
        reveal_with_fuel(strings::byte_len, 2);
        assert(strings::byte_len(seq![a[0]]) == strings::char_width(a[0]));
        assert(s.drop_first() =~= rest + b);
        assert(s[0] == a[0]);
    }
}

/// What is written right behind the name of the bot is left of the word.
pub proof fn law_tag_is_cut_off(username: Seq<char>, rest: Seq<char>)
    ensures
        replies::untagged(mentions::mention(username) + rest, replies::tag_of(username)) == rest,
{
    reveal_strlit("@");
    let tag = mentions::mention(username);
    assert(replies::tag_of(username) =~= tag);
    lemma_cut_behind(tag, rest);
    assert((tag + rest).skip(tag.len() as int) =~= rest);
}

/// Users go by their first and last name, else by their user name behind `@`,
/// else by their id behind `User`.
pub proof fn law_names(u: SenderView)
    ensures
        ({
            let full = match u.last_name {
                Some(last) => u.first_name + seq![' '] + last,
                None => u.first_name,
            };
            let name = replies::display_name(u);
            &&& !basics::all_white(full) ==> name == strings::trim(full)
            &&& basics::all_white(full) && u.username is Some ==> name == seq!['@'] + u.username->0
            &&& basics::all_white(full) && u.username is None ==> name == "User"@
                + strings::decimal(u.id as nat)
        }),
{
    reveal_strlit(" ");
    reveal_strlit("@");
    assert(" "@ =~= seq![' ']);
    assert("@"@ =~= seq!['@']);
    titles::lemma_blank_is_white(u.full_name());
}

/// The first 400 characters of a text.
pub open spec fn quoted(text: Seq<char>) -> Seq<char> {
    if text.len() > 400 {
        text.take(400)
    } else {
        text
    }
}

/// The message that is replied to is told: it is not the head of the topic, not
/// one of the bot, and it has a text.
pub open spec fn tells_reply(msg: IncomingView, bot_id: u64) -> bool {
    &&& msg.reply is Some
    &&& !msg.reply->0.topic_created
    &&& msg.thread_id != Some(msg.reply->0.message_id)
    &&& !(msg.reply->0.from is Some && msg.reply->0.from->0.id == bot_id)
    &&& msg.reply->0.text is Some || msg.reply->0.caption is Some
}

/// What comes last in a text comes last in a longer one.
proof fn lemma_suffix(head: Seq<char>, s: Seq<char>)
    ensures
        s.is_suffix_of(head + s),
{
    let t = head + s;
    assert(t.subrange(t.len() - s.len(), t.len() as int) =~= s);
}

/// What occurs in a text occurs in it with something in front.
proof fn lemma_occurs_behind(head: Seq<char>, s: Seq<char>, p: Seq<char>)
    requires
        strings::occurs(s, p),
    ensures
        strings::occurs(head + s, p),
{
    basics::law_occurs(s, p, Seq::empty());
    let k = strings::find(s, p)->0;
    let a = head + s.take(k);
    let b = s.skip(k + p.len());
    assert(head + s =~= a + p + b);
    basics::law_occurs(a, p, b);
}

/// See [`law_question`].
proof fn lemma_reply_in_front(msg: IncomingView, bot_id: u64, asked: Seq<char>) -> (head: Seq<char>)
    ensures
        replies::with_reply(msg, bot_id, asked) == head + asked,
        !tells_reply(msg, bot_id) ==> head.len() == 0,
        tells_reply(msg, bot_id) ==> {
            let r = msg.reply->0;
            let body = if r.text is Some {
                r.text->0
            } else {
                r.caption->0
            };
            &&& strings::occurs(head + asked, quoted(body))
            &&& r.from is Some ==> strings::occurs(
                head + asked,
                replies::display_name(r.from->0),
            )
        },
{
    let told = replies::with_reply(msg, bot_id, asked);
    if tells_reply(msg, bot_id) {
        let r = msg.reply->0;
        let body = r.body()->0;
        let author = match r.from {
            Some(u) => replies::display_name(u),
            None => "Собеседник"@,
        };
        let a = "[В ответ на сообщение от "@;
        let b = ": \""@;
        let c = "\"]\n"@;
        let start = strings::take_chars(body, 400);
        assert(start == quoted(body));
        let head = a + author + b + start + c;
        assert(told == head + asked);
        assert(head + asked =~= a + author + (b + start + c + asked));
        basics::law_occurs(a, author, b + start + c + asked);
        assert(head + asked =~= (a + author + b) + start + (c + asked));
        basics::law_occurs(a + author + b, start, c + asked);
        head
    } else {
        let e = Seq::<char>::empty();
        assert(e + asked =~= asked);
        e
    }
}

/// See [`law_question`].
proof fn lemma_quote_in_front(quote: Option<Seq<char>>, inner: Seq<char>) -> (head: Seq<char>)
    ensures
        replies::with_quote(quote, inner) == head + inner,
        quote is None ==> head.len() == 0,
        quote is Some ==> strings::occurs(head + inner, quoted(quote->0)),
{
    let e = Seq::<char>::empty();
    assert(e + inner =~= inner);
    match quote {
        Some(text) => {
            let start = strings::take_chars(text, 400);
            assert(start == quoted(text));
            if strings::occurs(inner, text) {
                basics::law_occurs(inner, text, e);
                let k = strings::find(inner, text)->0;
                let rest = text.skip(start.len() as int);
                assert(text =~= start + rest);
                let behind = inner.skip(k + text.len());
                assert(inner =~= inner.take(k) + start + (rest + behind));
                basics::law_occurs(inner.take(k), start, rest + behind);
                e
            } else {
                let a = "[Цитата: \""@;
                let c = "\"]\n"@;
                assert(a + start + c + inner =~= a + start + (c + inner));
                basics::law_occurs(a, start, c + inner);
                a + start + c
            }
        },
        None => e,
    }
}

/// A question ends with what was asked, a greeting if nothing was. In front stands
/// the start of the message that is replied to with the name of its author,
/// unless that is the head of the topic, a message of the bot or no text, and
/// the start of the quotation, unless the question holds it already.
pub proof fn law_question(msg: IncomingView, bot_id: u64, clean: Seq<char>)
    ensures
        ({
            let q = replies::question(msg, bot_id, clean);
            let asked = if clean.len() == 0 {
                "Привет!"@
            } else {
                clean
            };
            let body = if msg.reply->0.text is Some {
                msg.reply->0.text->0
            } else {
                msg.reply->0.caption->0
            };
            &&& asked.is_suffix_of(q)
            &&& !tells_reply(msg, bot_id) && msg.quote is None ==> q == asked
            &&& tells_reply(msg, bot_id) ==> strings::occurs(q, quoted(body))
            &&& tells_reply(msg, bot_id) && msg.reply->0.from is Some ==> strings::occurs(
                q,
                replies::display_name(msg.reply->0.from->0),
            )
            &&& msg.quote is Some ==> strings::occurs(q, quoted(msg.quote->0))
        }),
{
    let asked = if clean.len() == 0 {
        "Привет!"@
    } else {
        clean
    };
    let first = lemma_reply_in_front(msg, bot_id, asked);
    let inner = first + asked;
    let second = lemma_quote_in_front(msg.quote, inner);
    let q = replies::question(msg, bot_id, clean);
    assert(q == second + inner);
    assert(q =~= (second + first) + asked);
    lemma_suffix(second + first, asked);
    if tells_reply(msg, bot_id) {
        let r = msg.reply->0;
        let body = if r.text is Some {
            r.text->0
        } else {
            r.caption->0
        };
        lemma_occurs_behind(second, inner, quoted(body));
        if r.from is Some {
            lemma_occurs_behind(second, inner, replies::display_name(r.from->0));
        }
    }
}

} // verus!
