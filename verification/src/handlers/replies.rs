//! Which messages the bot answers, and what it is asked.

use vstd::prelude::*;
use vstd::slice::slice_subrange;

use crate::handlers::AppState;
use crate::handlers::AppStateView;
use crate::strings;
use crate::telegram::Incoming;
use crate::telegram::IncomingView;
use crate::telegram::Replied;
use crate::telegram::RepliedView;
use crate::telegram::Sender;
use crate::telegram::SenderView;

verus! {

/// How many characters of another message go into a question.
pub const QUOTE_CHARS: usize = 400;

/// A word is the tag itself.
pub open spec fn is_tag(word: Seq<char>, tag: Seq<char>) -> bool {
    strings::fold(word) == strings::fold(tag)
}

/// A word starts with the tag.
pub open spec fn has_tag(word: Seq<char>, tag: Seq<char>) -> bool {
    strings::lowercase(tag).is_prefix_of(strings::lowercase(word))
}

/// The tag can be cut off a word that starts with it: its bytes make up whole
/// characters of the word.
pub open spec fn tag_cuts(word: Seq<char>, tag: Seq<char>) -> bool {
    !is_tag(word, tag) && has_tag(word, tag) ==> strings::byte_cut(
        word,
        strings::byte_len(tag) as int,
    ) is Some
}

/// The tag can be cut off all words that start with it.
pub open spec fn all_tags_cut(words: Seq<Seq<char>>, tag: Seq<char>) -> bool {
    forall|i: int| 0 <= i < words.len() ==> tag_cuts(#[trigger] words[i], tag)
}

/// What is left of a word without its tag.
pub open spec fn untagged(word: Seq<char>, tag: Seq<char>) -> Seq<char> {
    match strings::byte_cut(word, strings::byte_len(tag) as int) {
        Some(k) => word.skip(k),
        None => word,
    }
}

/// Words without the tag, and whether the tag was there.
pub open spec fn without_tag(words: Seq<Seq<char>>, tag: Seq<char>) -> (bool, Seq<Seq<char>>)
    decreases words.len(),
{
    if words.len() == 0 {
        (false, Seq::empty())
    } else {
        let (mentioned, rest) = without_tag(words.drop_last(), tag);
        let word = words.last();
        if is_tag(word, tag) {
            (true, rest)
        } else if has_tag(word, tag) {
            let left = untagged(word, tag);
            (
                true,
                if left.len() > 0 {
                    rest.push(left)
                } else {
                    rest
                },
            )
        } else {
            (mentioned, rest.push(word))
        }
    }
}

/// The tag of the bot.
pub open spec fn tag_of(username: Seq<char>) -> Seq<char> {
    "@"@ + username
}

/// The question without the tag of the bot, and whether the tag was there.
pub open spec fn addressed(text: Seq<char>, bot: Option<Seq<char>>) -> (bool, Seq<char>) {
    match bot {
        Some(username) => {
            let (mentioned, rest) = without_tag(strings::words(text), tag_of(username));
            (mentioned, strings::join(rest, " "@))
        },
        None => (false, text),
    }
}

/// The tag of the bot can be cut off the words of a text.
pub open spec fn addressable(text: Seq<char>, bot: Option<Seq<char>>) -> bool {
    match bot {
        Some(username) => all_tags_cut(strings::words(text), tag_of(username)),
        None => true,
    }
}

/// The bot can tell whether a message is addressed to it.
pub open spec fn readable(msg: IncomingView, text: Seq<char>, bot: Option<Seq<char>>) -> bool {
    msg.private || addressable(text, bot)
}

/// The message was sent by the bot, through it or in its name.
pub open spec fn by_bot(r: RepliedView, bot_id: u64, bot: Option<Seq<char>>) -> bool {
    ||| match r.from {
        Some(u) => u.id == bot_id || match (bot, u.username) {
            (Some(b), Some(name)) => strings::fold(name) == strings::fold(b),
            _ => false,
        },
        None => false,
    }
    ||| r.via_bot == Some(bot_id)
    ||| r.sender_chat == Some(bot_id as i64)
}

/// The message replies to one of the bot.
pub open spec fn replies_to_bot(msg: IncomingView, bot_id: u64, bot: Option<Seq<char>>) -> bool {
    match msg.reply {
        Some(r) => !msg.replies_to_topic() && by_bot(r, bot_id, bot),
        None => false,
    }
}

/// Whether the bot answers a message, and the question without its tag. It
/// does not answer in private chats.
pub open spec fn answered(
    msg: IncomingView,
    bot_id: u64,
    bot: Option<Seq<char>>,
    text: Seq<char>,
) -> (bool, Seq<char>) {
    if msg.private {
        (false, Seq::empty())
    } else {
        let (mentioned, clean) = addressed(text, bot);
        (
            mentioned || replies_to_bot(msg, bot_id, bot),
            strings::join(strings::words(clean), " "@),
        )
    }
}

/// A word without its tag: whether the tag was there, and what is left.
fn cut_tag(word: &str, tag: &str) -> (r: (bool, Option<String>))
    requires
        tag_cuts(word@, tag@),
    ensures
        r.0 == (is_tag(word@, tag@) || has_tag(word@, tag@)),
        match r.1 {
            Some(left) => if is_tag(word@, tag@) {
                false
            } else if has_tag(word@, tag@) {
                left@ == untagged(word@, tag@) && left@.len() > 0
            } else {
                left@ == word@
            },
            None => is_tag(word@, tag@) || (has_tag(word@, tag@) && untagged(
                word@,
                tag@,
            ).len() == 0),
        },
{
    if strings::eq_folded(word, tag) {
        return (true, None);
    }
    let lower = word.to_lowercase();
    let lower_tag = tag.to_lowercase();
    if strings::starts_with(lower.as_str(), lower_tag.as_str()) {
        let cs = strings::chars_of(word);
        let n: usize = cs.len();
        match strings::slice_byte_cut(cs.as_slice(), strings::len_bytes(tag)) {
            Some(k) => {
                let left = slice_subrange(cs.as_slice(), k, n);
                assert(left@ =~= word@.skip(k as int));
                if left.len() > 0 {
                    (true, Some(strings::string_of(left)))
                } else {
                    (true, None)
                }
            },
            None => (true, None),
        }
    } else {
        (false, Some(word.to_owned()))
    }
}

/// The tag can be cut off all words that start with it.
fn are_cut(words: &Vec<String>, tag: &str) -> (r: bool)
    ensures
        r == all_tags_cut(strings::views(words@), tag@),
{
    let ghost all = strings::views(words@);
    let lower_tag = tag.to_lowercase();
    let size: usize = strings::len_bytes(tag);
    let mut i: usize = 0;
    while i < words.len()
        invariant
            i <= words@.len(),
            all == strings::views(words@),
            lower_tag@ == strings::lowercase(tag@),
            size == strings::byte_len(tag@),
            forall|k: int| 0 <= k < i ==> tag_cuts(#[trigger] all[k], tag@),
        decreases words@.len() - i,
    {
        assert(all[i as int] == words@[i as int]@);
        let word = words[i].as_str();
        if !strings::eq_folded(word, tag) {
            let lower = word.to_lowercase();
            if strings::starts_with(lower.as_str(), lower_tag.as_str()) {
                let cs = strings::chars_of(word);
                match strings::slice_byte_cut(cs.as_slice(), size) {
                    Some(_) => {},
                    None => {
                        assert(!tag_cuts(all[i as int], tag@));
                        return false;
                    },
                }
            }
        }
        i += 1;
    }
    true
}

/// The tag of the bot: see [`tag_of`].
fn tag_for(username: &str) -> (r: String)
    ensures
        r@ == tag_of(username@),
{
    let mut tag = "@".to_owned();
    tag.append(username);
    tag
}

/// See [`addressed`].
fn address(text: &str, bot: &Option<String>) -> (r: (bool, String))
    requires
        addressable(text@, strings::optional(*bot)),
    ensures
        (r.0, r.1@) == addressed(text@, strings::optional(*bot)),
{
    match bot {
        Some(username) => {
            let tag = tag_for(username.as_str());
            let words = strings::split_words(text);
            let ghost all = strings::views(words@);
            let mut mentioned: bool = false;
            let mut out: Vec<String> = Vec::new();
            let mut i: usize = 0;
            assert(all.take(0) =~= Seq::<Seq<char>>::empty());
            assert(strings::views(out@) =~= Seq::<Seq<char>>::empty());
            while i < words.len()
                invariant
                    i <= words@.len(),
                    all == strings::views(words@),
                    all_tags_cut(all, tag@),
                    (mentioned, strings::views(out@)) == without_tag(all.take(i as int), tag@),
                decreases words@.len() - i,
            {
                proof {
                    assert(all.take(i + 1).drop_last() =~= all.take(i as int));
                    assert(all.take(i + 1).last() == words@[i as int]@);
                    assert(tag_cuts(all[i as int], tag@));
                }
                let (found, left) = cut_tag(words[i].as_str(), tag.as_str());
                if found {
                    mentioned = true;
                }
                match left {
                    Some(w) => {
                        proof {
                            strings::lemma_views_push(out@, w);
                        }
                        out.push(w);
                    },
                    None => {},
                }
                i += 1;
            }
            assert(all.take(all.len() as int) =~= all);
            (mentioned, strings::join_all(&out, " "))
        },
        None => (false, text.to_owned()),
    }
}

/// See [`by_bot`].
fn is_by_bot(r: &Replied, bot_id: u64, bot: &Option<String>) -> (b: bool)
    ensures
        b == by_bot(r@, bot_id, strings::optional(*bot)),
{
    let from_bot: bool = match &r.from {
        Some(u) => u.id == bot_id || match (bot, &u.username) {
            (Some(b), Some(name)) => strings::eq_folded(name.as_str(), b.as_str()),
            _ => false,
        },
        None => false,
    };
    let via_bot: bool = match r.via_bot {
        Some(id) => id == bot_id,
        None => false,
    };
    let in_its_name: bool = match r.sender_chat {
        Some(id) => id == bot_id as i64,
        None => false,
    };
    from_bot || via_bot || in_its_name
}

/// Whether the bot answers a message, and the question without its tag. In
/// groups it answers when it is mentioned or when one of its messages is
/// replied to; in private chats it does not.
pub fn should_reply(msg: &Incoming, state: &AppState, text: &str) -> (r: (bool, String))
    requires
        readable(msg@, text@, state@.bot_username),
    ensures
        (r.0, r.1@) == answered(msg@, state@.bot_id, state@.bot_username, text@),
{
    if msg.private {
        let none = String::new();
        assert(none@ =~= Seq::<char>::empty());
        return (false, none);
    }
    let (mentioned, clean) = address(text, &state.bot_username);
    let replied: bool = match &msg.reply {
        Some(r) => !msg.replies_to_topic() && is_by_bot(r, state.bot_id, &state.bot_username),
        None => false,
    };
    let words = strings::split_words(clean.as_str());
    (mentioned || replied, strings::join_all(&words, " "))
}

/// Whether the bot answers a message, and the question without its tag; nothing
/// if the tag cannot be cut off a word.
pub fn try_should_reply(msg: &Incoming, state: &AppState, text: &str) -> (r: Option<(bool, String)>)
    ensures
        match r {
            Some((yes, clean)) => readable(msg@, text@, state@.bot_username) && (yes, clean@)
                == answered(msg@, state@.bot_id, state@.bot_username, text@),
            None => !readable(msg@, text@, state@.bot_username),
        },
{
    let cut: bool = msg.private || match &state.bot_username {
        Some(username) => {
            let words = strings::split_words(text);
            are_cut(&words, tag_for(username.as_str()).as_str())
        },
        None => true,
    };
    if cut {
        Some(should_reply(msg, state, text))
    } else {
        None
    }
}

/// The name by which a user goes: the first and the last name, else the user
/// name, else the id.
pub open spec fn display_name(u: SenderView) -> Seq<char> {
    let name = strings::trim(u.full_name());
    if name.len() > 0 {
        name
    } else {
        match u.username {
            Some(n) => "@"@ + n,
            None => "User"@ + strings::decimal(u.id as nat),
        }
    }
}

/// See [`display_name`].
pub fn extract_display_name(u: &Sender) -> (r: String)
    ensures
        r@ == display_name(u@),
{
    let full = u.full_name();
    let name = strings::trimmed(full.as_str());
    if !name.as_str().is_empty() {
        return name;
    }
    match &u.username {
        Some(n) => {
            let mut out = "@".to_owned();
            out.append(n.as_str());
            out
        },
        None => {
            let mut out = "User".to_owned();
            out.append(strings::decimal_u64(u.id).as_str());
            out
        },
    }
}

/// A question with the start of the message that it replies to in front, unless
/// that is the head of a topic, a message of the bot or no text.
pub open spec fn with_reply(msg: IncomingView, bot_id: u64, question: Seq<char>) -> Seq<char> {
    match msg.reply {
        Some(r) => {
            let of_bot = match r.from {
                Some(u) => u.id == bot_id,
                None => false,
            };
            match r.body() {
                Some(body) => if msg.replies_to_topic() || of_bot {
                    question
                } else {
                    let author = match r.from {
                        Some(u) => display_name(u),
                        None => "Собеседник"@,
                    };
                    "[В ответ на сообщение от "@ + author + ": \""@ + strings::take_chars(
                        body,
                        QUOTE_CHARS as int,
                    ) + "\"]\n"@ + question
                },
                None => question,
            }
        },
        None => question,
    }
}

/// A question with the start of a quotation in front, unless it holds the
/// quotation already.
pub open spec fn with_quote(quote: Option<Seq<char>>, question: Seq<char>) -> Seq<char> {
    match quote {
        Some(q) => if strings::occurs(question, q) {
            question
        } else {
            "[Цитата: \""@ + strings::take_chars(q, QUOTE_CHARS as int) + "\"]\n"@ + question
        },
        None => question,
    }
}

/// The question that a message asks; a bare mention is a greeting.
pub open spec fn question(msg: IncomingView, bot_id: u64, clean: Seq<char>) -> Seq<char> {
    let start = if clean.len() == 0 {
        "Привет!"@
    } else {
        clean
    };
    with_quote(msg.quote, with_reply(msg, bot_id, start))
}

/// See [`with_reply`].
fn put_reply(msg: &Incoming, bot_id: u64, text: String) -> (r: String)
    ensures
        r@ == with_reply(msg@, bot_id, text@),
{
    match &msg.reply {
        Some(r) => {
            let of_bot: bool = match &r.from {
                Some(u) => u.id == bot_id,
                None => false,
            };
            if msg.replies_to_topic() || of_bot {
                return text;
            }
            match r.body() {
                Some(body) => {
                    let author = match &r.from {
                        Some(u) => extract_display_name(u),
                        None => "Собеседник".to_owned(),
                    };
                    let mut out = "[В ответ на сообщение от ".to_owned();
                    out.append(author.as_str());
                    out.append(": \"");
                    out.append(strings::first_chars(body, QUOTE_CHARS).as_str());
                    out.append("\"]\n");
                    out.append(text.as_str());
                    out
                },
                None => text,
            }
        },
        None => text,
    }
}

/// See [`with_quote`].
fn put_quote(quote: &Option<String>, text: String) -> (r: String)
    ensures
        r@ == with_quote(strings::optional(*quote), text@),
{
    match quote {
        Some(q) => if strings::contains(text.as_str(), q.as_str()) {
            text
        } else {
            let mut out = "[Цитата: \"".to_owned();
            out.append(strings::first_chars(q.as_str(), QUOTE_CHARS).as_str());
            out.append("\"]\n");
            out.append(text.as_str());
            out
        },
        None => text,
    }
}

/// See [`question`].
pub fn compose_question(msg: &Incoming, bot_id: u64, clean: String) -> (r: String)
    ensures
        r@ == question(msg@, bot_id, clean@),
{
    let start = if clean.as_str().is_empty() {
        "Привет!".to_owned()
    } else {
        clean
    };
    put_quote(&msg.quote, put_reply(msg, bot_id, start))
}

/// In private chats the bot does not answer.
pub proof fn law_silent_in_private(s: AppStateView, msg: IncomingView, text: Seq<char>)
    requires
        msg.private,
    ensures
        !answered(msg, s.bot_id, s.bot_username, text).0,
{
}

/// In groups the bot answers a message of the form of its tag, in whatever case
/// its Latin letters are, and nothing is left of the question.
pub proof fn law_bare_mention_is_answered(msg: IncomingView, bot_id: u64, username: Seq<char>, word: Seq<char>)
    requires
        !msg.private,
        is_tag(word, tag_of(username)),
        strings::no_white(word),
        word.len() > 0,
    ensures
        answered(msg, bot_id, Some(username), word) == (true, Seq::<char>::empty()),
{
    strings::lemma_words_single(word);
    let tag = tag_of(username);
    assert(seq![word].drop_last() =~= Seq::<Seq<char>>::empty());
    assert(without_tag(Seq::<Seq<char>>::empty(), tag) == (false, Seq::<Seq<char>>::empty()));
    assert(without_tag(seq![word], tag) == (true, Seq::<Seq<char>>::empty()));
    let none = Seq::<char>::empty();
    strings::lemma_words_single(none);
    assert(strings::join(Seq::<Seq<char>>::empty(), " "@) =~= none);
}

} // verus!
