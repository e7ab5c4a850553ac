//! The form of commands: `/name@bot arguments`.

use vstd::prelude::*;
use vstd::slice::slice_subrange;

use crate::db::titles;
use crate::strings;

verus! {

/// Why a text is not a command.
#[derive(Debug)]
pub enum ParseError {
    /// The command is for another bot.
    WrongBotName(String),
    /// There is no such command.
    UnknownCommand(String),
}

/// What a [`ParseError`] holds.
pub enum ParseErrorView {
    WrongBotName(Seq<char>),
    UnknownCommand(Seq<char>),
}

impl View for ParseError {
    type V = ParseErrorView;

    open spec fn view(&self) -> ParseErrorView {
        match self {
            ParseError::WrongBotName(n) => ParseErrorView::WrongBotName(n@),
            ParseError::UnknownCommand(c) => ParseErrorView::UnknownCommand(c@),
        }
    }
}

/// What stands before and behind the first place of a character; nothing
/// behind it if it does not occur.
pub open spec fn cut_at(s: Seq<char>, c: char) -> (Seq<char>, Option<Seq<char>>) {
    match strings::find(s, seq![c]) {
        Some(i) => (s.take(i), Some(s.skip(i + 1))),
        None => (s, None),
    }
}

/// See [`cut_at`].
fn cut(s: &str, c: char) -> (r: (String, Option<String>))
    ensures
        (r.0@, strings::optional(r.1)) == cut_at(s@, c),
{
    let cs = strings::chars_of(s);
    let mark: Vec<char> = vec![c];
    assert(mark@ =~= seq![c] && mark@.len() == 1);
    let n: usize = cs.len();
    match strings::slice_find(cs.as_slice(), mark.as_slice()) {
        Some(i) => {
            let head = slice_subrange(cs.as_slice(), 0, i);
            let tail = slice_subrange(cs.as_slice(), i + 1, n);
            assert(head@ =~= s@.take(i as int));
            assert(tail@ =~= s@.skip(i + 1));
            (strings::string_of(head), Some(strings::string_of(tail)))
        },
        None => (s.to_owned(), None),
    }
}

/// The name of a command and its arguments, or the other bot that it is for.
/// The case of Latin letters in the name of the bot does not count.
pub open spec fn parts(text: Seq<char>, bot_name: Seq<char>) -> Result<
    (Seq<char>, Seq<char>),
    ParseErrorView,
> {
    let (head, rest) = cut_at(text, ' ');
    let (name, behind) = cut_at(head, '@');
    let args = match rest {
        Some(a) => a,
        None => Seq::empty(),
    };
    match behind {
        None => Ok((name, args)),
        Some(b) => {
            let bot = cut_at(b, '@').0;
            if strings::fold(bot) == strings::fold(bot_name) {
                Ok((name, args))
            } else {
                Err(ParseErrorView::WrongBotName(bot))
            }
        },
    }
}

/// See [`parts`].
pub fn split_command(text: &str, bot_name: &str) -> (r: Result<(String, String), ParseError>)
    ensures
        match r {
            Ok((name, args)) => parts(text@, bot_name@) == Ok::<
                (Seq<char>, Seq<char>),
                ParseErrorView,
            >((name@, args@)),
            Err(e) => parts(text@, bot_name@) == Err::<(Seq<char>, Seq<char>), ParseErrorView>(
                e@,
            ),
        },
{
    let (head, rest) = cut(text, ' ');
    let (name, behind) = cut(head.as_str(), '@');
    match behind {
        None => {},
        Some(b) => {
            let (bot, _) = cut(b.as_str(), '@');
            if !strings::eq_folded(bot.as_str(), bot_name) {
                return Err(ParseError::WrongBotName(bot));
            }
        },
    }
    let args = match rest {
        Some(a) => a,
        None => {
            let none = String::new();
            assert(none@ =~= Seq::<char>::empty());
            none
        },
    };
    Ok((name, args))
}

/// A text without the character is not cut, and one that goes on behind it is
/// cut there.
proof fn lemma_cut(s: Seq<char>, c: char, rest: Seq<char>)
    requires
        forall|i: int| 0 <= i < s.len() ==> s[i] != c,
    ensures
        cut_at(s, c) == (s, None::<Seq<char>>),
        cut_at(s + seq![c] + rest, c) == (s, Some(rest)),
{
    let mark = seq![c];
    strings::lemma_find_from(s, mark, 0);
    match strings::find(s, mark) {
        Some(k) => {
            assert(s.subrange(k, k + 1)[0] == s[k]);
        },
        None => {},
    }
    let t = s + mark + rest;
    let n = s.len() as int;
    strings::lemma_find_from(t, mark, 0);
    assert(t.subrange(n, n + 1) =~= mark);
    match strings::find(t, mark) {
        Some(k) => {
            if k < n {
                assert(t.subrange(k, k + 1)[0] == s[k]);
            }
            assert(k == n);
            assert(t.take(n) =~= s);
            assert(t.skip(n + 1) =~= rest);
        },
        None => {},
    }
}

/// The case of Latin letters in the name of the bot does not count; a command for
/// another bot is refused with its name.
pub proof fn law_command_names_its_bot(
    name: Seq<char>,
    bot: Seq<char>,
    other: Seq<char>,
    args: Seq<char>,
)
    requires
        forall|i: int| 0 <= i < name.len() ==> name[i] != ' ' && name[i] != '@',
        forall|i: int| 0 <= i < other.len() ==> other[i] != ' ' && other[i] != '@',
    ensures
        titles::same_letters(other, bot) ==> parts(
            name + seq!['@'] + other + seq![' '] + args,
            bot,
        ) == Ok::<(Seq<char>, Seq<char>), ParseErrorView>((name, args)),
        !titles::same_letters(other, bot) ==> parts(
            name + seq!['@'] + other + seq![' '] + args,
            bot,
        ) == Err::<(Seq<char>, Seq<char>), ParseErrorView>(ParseErrorView::WrongBotName(other)),
        parts(name, bot) == Ok::<(Seq<char>, Seq<char>), ParseErrorView>((name, Seq::empty())),
{
    titles::lemma_fold_same(other, bot);
    lemma_cut(name, '@', other);
    lemma_cut(other, '@', Seq::empty());
    lemma_cut(name, ' ', Seq::empty());
    let head = name + seq!['@'] + other;
    assert forall|i: int| 0 <= i < head.len() implies head[i] != ' ' by {
        if i > name.len() {
            assert(head[i] == other[i - name.len() - 1]);
        }
    }
    lemma_cut(head, ' ', args);
}

/// A command and its arguments are read as they were written, with or without
/// the name of the bot.
pub proof fn law_command_reads_back(name: Seq<char>, bot: Seq<char>, args: Seq<char>)
    requires
        forall|i: int| 0 <= i < name.len() ==> name[i] != ' ' && name[i] != '@',
        forall|i: int| 0 <= i < bot.len() ==> bot[i] != ' ' && bot[i] != '@',
    ensures
        parts(name + seq![' '] + args, bot) == Ok::<(Seq<char>, Seq<char>), ParseErrorView>(
            (name, args),
        ),
        parts(name + seq!['@'] + bot + seq![' '] + args, bot) == Ok::<
            (Seq<char>, Seq<char>),
            ParseErrorView,
        >((name, args)),
{
    lemma_cut(name, ' ', args);
    lemma_cut(name, '@', bot);
    lemma_cut(bot, '@', Seq::empty());
    let head = name + seq!['@'] + bot;
    assert forall|i: int| 0 <= i < head.len() implies head[i] != ' ' by {
        if i > name.len() {
            assert(head[i] == bot[i - name.len() - 1]);
        }
    }
    lemma_cut(head, ' ', args);
}

} // verus!
