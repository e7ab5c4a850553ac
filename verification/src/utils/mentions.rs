//! What cleaning keeps of an answer and what it takes out, word by word.

use vstd::prelude::*;

use crate::strings;
use crate::utils::sanitizer;

verus! {

/// The character is not in the text.
pub open spec fn lacks(s: Seq<char>, c: char) -> bool {
    forall|i: int| 0 <= i < s.len() ==> #[trigger] s[i] != c
}

/// How a name is mentioned in a chat.
pub open spec fn mention(name: Seq<char>) -> Seq<char> {
    seq!['@'] + name
}

/// Any white character separates words.
pub proof fn lemma_words_cut(a: Seq<char>, c: char, b: Seq<char>)
    requires
        strings::is_white(c),
    ensures
        strings::words(a.push(c) + b) == strings::words(a) + strings::words(b),
{
    strings::lemma_split_concat(a, c, b, strings::Separator::White);
    Seq::filter_distributes_over_add(
        strings::split(a, strings::Separator::White),
        strings::split(b, strings::Separator::White),
        |w: Seq<char>| w.len() >= 1,
    );
}

/// The empty text has no words.
pub proof fn lemma_no_words()
    ensures
        strings::words(Seq::empty()) == Seq::<Seq<char>>::empty(),
{
    strings::lemma_words_single(Seq::empty());
}

/// White space at the end makes no words.
pub proof fn lemma_words_trim_end(s: Seq<char>)
    ensures
        strings::words(strings::trim_end(s)) == strings::words(s),
    decreases s.len(),
{
    if s.len() > 0 && strings::is_white(s.last()) {
        let t = s.drop_last();
        lemma_words_trim_end(t);
        lemma_words_cut(t, s.last(), Seq::empty());
        lemma_no_words();
        assert(t.push(s.last()) + Seq::<char>::empty() =~= s);
        assert(strings::words(t) + Seq::<Seq<char>>::empty() =~= strings::words(t));
    }
}

/// White space at the start makes no words.
proof fn lemma_words_trim_start(s: Seq<char>)
    ensures
        strings::words(strings::trim_start(s)) == strings::words(s),
    decreases s.len(),
{
    if s.len() > 0 && strings::is_white(s[0]) {
        let t = s.drop_first();
        lemma_words_trim_start(t);
        let e = Seq::<char>::empty();
        lemma_words_cut(e, s[0], t);
        lemma_no_words();
        assert(e.push(s[0]) + t =~= s);
        assert(Seq::<Seq<char>>::empty() + strings::words(t) =~= strings::words(t));
    }
}

/// Trimming keeps the words.
pub proof fn lemma_words_trim(s: Seq<char>)
    ensures
        strings::words(strings::trim(s)) == strings::words(s),
{
    lemma_words_trim_start(s);
    lemma_words_trim_end(strings::trim_start(s));
}

/// Trimming the ends of lines keeps the words.
proof fn lemma_words_lines(lines: Seq<Seq<char>>)
    ensures
        strings::words(strings::join(sanitizer::trimmed_lines(lines), "\n"@)) == strings::words(
            strings::join(lines, "\n"@),
        ),
    decreases lines.len(),
{
    reveal_strlit("\n");
    let short = sanitizer::trimmed_lines(lines);
    if lines.len() == 1 {
        lemma_words_trim_end(lines[0]);
        assert(short[0] == strings::trim_end(lines[0]));
    } else if lines.len() > 1 {
        let init = lines.drop_last();
        lemma_words_lines(init);
        lemma_words_trim_end(lines.last());
        assert(short.drop_last() =~= sanitizer::trimmed_lines(init));
        assert(short.last() == strings::trim_end(lines.last()));
        let a = strings::join(init, "\n"@);
        let b = strings::join(short.drop_last(), "\n"@);
        lemma_words_cut(a, '\n', lines.last());
        lemma_words_cut(b, '\n', short.last());
        assert(a + "\n"@ + lines.last() =~= a.push('\n') + lines.last());
        assert(b + "\n"@ + short.last() =~= b.push('\n') + short.last());
    }
}

/// Tidying keeps the words.
pub proof fn lemma_words_tidy(s: Seq<char>)
    ensures
        strings::words(sanitizer::tidy(s)) == strings::words(s),
{
    reveal_strlit("\n");
    assert("\n"@ =~= seq!['\n']);
    let lines = strings::split_str(s, seq!['\n']);
    strings::lemma_join_split_str(s, seq!['\n']);
    lemma_words_lines(lines);
    lemma_words_trim(strings::join(sanitizer::trimmed_lines(lines), "\n"@));
}

/// Words are not empty and hold no white space.
pub proof fn lemma_word_is_solid(s: Seq<char>, i: int)
    requires
        0 <= i < strings::words(s).len(),
    ensures
        strings::words(s)[i].len() > 0,
        strings::no_white(strings::words(s)[i]),
{
    let w = strings::words(s)[i];
    let cut = |c: char| strings::Separator::White.cuts(c);
    assert(strings::words(s).contains(w));
    strings::lemma_split_min_runs(s, strings::Separator::White, 1, w);
    let a = choose|a: int| #[trigger] strings::run_at(s, cut, a, w);
    assert forall|k: int| 0 <= k < w.len() implies !strings::is_white(#[trigger] w[k]) by {
        assert(!cut(w[k]));
    }
}

/// Words joined by spaces are those words.
pub proof fn lemma_words_join(ws: Seq<Seq<char>>)
    requires
        forall|i: int|
            0 <= i < ws.len() ==> (#[trigger] ws[i]).len() > 0 && strings::no_white(ws[i]),
    ensures
        strings::words(strings::join(ws, " "@)) == ws,
    decreases ws.len(),
{
    reveal_strlit(" ");
    if ws.len() == 0 {
        lemma_no_words();
        assert(ws =~= Seq::empty());
    } else if ws.len() == 1 {
        strings::lemma_words_single(ws[0]);
        assert(ws =~= seq![ws[0]]);
    } else {
        let init = ws.drop_last();
        assert forall|i: int| 0 <= i < init.len() implies (#[trigger] init[i]).len() > 0
            && strings::no_white(init[i]) by {
            assert(init[i] == ws[i]);
        }
        lemma_words_join(init);
        let a = strings::join(init, " "@);
        strings::lemma_words_concat(a, ws.last());
        assert(ws[ws.len() - 1] == ws.last());
        strings::lemma_words_single(ws.last());
        assert(a + " "@ + ws.last() =~= a.push(' ') + ws.last());
        assert(init + seq![ws.last()] =~= ws);
    }
}

/// Joining the words of a text anew keeps them.
pub proof fn lemma_words_respaced(s: Seq<char>)
    ensures
        strings::words(strings::join(strings::words(s), " "@)) == strings::words(s),
{
    let ws = strings::words(s);
    assert forall|i: int| 0 <= i < ws.len() implies (#[trigger] ws[i]).len() > 0
        && strings::no_white(ws[i]) by {
        lemma_word_is_solid(s, i);
    }
    lemma_words_join(ws);
}

/// Empty parts add nothing.
proof fn lemma_flatten_nonempty(parts: Seq<Seq<char>>)
    ensures
        parts.filter(|w: Seq<char>| w.len() >= 1).flatten() == parts.flatten(),
    decreases parts.len(),
{
    reveal(Seq::filter);
    let f = |w: Seq<char>| w.len() >= 1;
    if parts.len() > 0 {
        let init = parts.drop_last();
        let last = parts.last();
        lemma_flatten_nonempty(init);
        assert(init.push(last) =~= parts);
        strings::lemma_flatten_push(init, last);
        if last.len() >= 1 {
            assert(parts.filter(f) == init.filter(f).push(last));
            strings::lemma_flatten_push(init.filter(f), last);
        } else {
            assert(parts.filter(f) == init.filter(f));
            assert(init.flatten() + last =~= init.flatten());
        }
    }
}

/// The parts between white space hold all other characters.
proof fn lemma_split_solid(s: Seq<char>)
    ensures
        strings::split(s, strings::Separator::White).flatten() == strings::solid(s),
    decreases s.len(),
{
    reveal(Seq::filter);
    let sep = strings::Separator::White;
    let parts = strings::split(s, sep);
    let e = Seq::<char>::empty();
    if s.len() == 0 {
        seq![e].lemma_flatten_one_element();
        assert(strings::solid(s) =~= e);
    } else {
        let t = s.drop_last();
        lemma_split_solid(t);
        let before = strings::split(t, sep);
        strings::lemma_split_nonempty(t, sep);
        if sep.cuts(s.last()) {
            strings::lemma_flatten_push(before, e);
            assert(before.flatten() + e =~= before.flatten());
        } else {
            assert(before.drop_last().push(before.last()) =~= before);
            strings::lemma_flatten_push(before.drop_last(), before.last());
            strings::lemma_flatten_push(before.drop_last(), before.last().push(s.last()));
            assert(before.drop_last().flatten() + before.last().push(s.last())
                =~= before.flatten().push(s.last()));
        }
    }
}

/// The words of a text, one after the other, are the text without its white
/// space; each is a longest stretch without white space.
pub proof fn law_words_hold_the_text(s: Seq<char>)
    ensures
        strings::words(s).flatten() == s.filter(|c: char| !strings::is_white(c)),
        forall|w: Seq<char>| #[trigger]
            strings::words(s).contains(w) <==> w.len() > 0 && strings::is_run(
                s,
                |c: char| strings::is_white(c),
                w,
            ),
{
    lemma_split_solid(s);
    lemma_flatten_nonempty(strings::split(s, strings::Separator::White));
    assert forall|w: Seq<char>| #[trigger]
        strings::words(s).contains(w) <==> w.len() > 0 && strings::is_run(
            s,
            |c: char| strings::is_white(c),
            w,
        ) by {
        strings::lemma_split_min_runs(s, strings::Separator::White, 1, w);
        assert((|c: char| strings::Separator::White.cuts(c)) =~= (|c: char| strings::is_white(c)));
    }
}

/// A part grows as long as the separator is not completed.
proof fn lemma_split_grow(s: Seq<char>, x: Seq<char>, p: Seq<char>)
    requires
        p.len() > 0,
        ({
            let last = strings::split_str(s, p).last();
            forall|k: int|
                0 < k <= x.len() ==> !p.is_suffix_of(last + #[trigger] x.take(k))
        }),
    ensures
        strings::split_str(s, p).len() >= 1,
        strings::split_str(s + x, p) == strings::split_str(s, p).drop_last().push(
            strings::split_str(s, p).last() + x,
        ),
    decreases x.len(),
{
    let parts = strings::split_str(s, p);
    let last = parts.last();
    strings::lemma_join_split_str(s, p);
    if x.len() == 0 {
        assert(s + x =~= s);
        assert(last + x =~= last);
        assert(parts.drop_last().push(last) =~= parts);
    } else {
        let y = x.drop_last();
        assert forall|k: int| 0 < k <= y.len() implies !p.is_suffix_of(
            last + #[trigger] y.take(k),
        ) by {
            assert(y.take(k) =~= x.take(k));
        }
        lemma_split_grow(s, y, p);
        let t = s + x;
        assert(t.drop_last() =~= s + y);
        assert(t.last() == x.last());
        let grown = parts.drop_last().push(last + y);
        assert(grown.drop_last() =~= parts.drop_last());
        assert((last + y).push(x.last()) =~= last + x);
        assert(x.take(x.len() as int) =~= x);
        assert(strings::extend_last(grown, x.last()) =~= parts.drop_last().push(last + x));
    }
}

/// What does not occur is not split at.
pub proof fn lemma_nothing_to_split(s: Seq<char>, p: Seq<char>)
    requires
        p.len() > 0,
        !strings::occurs(s, p),
    ensures
        strings::split_str(s, p) == seq![s],
{
    let e = Seq::<char>::empty();
    strings::lemma_find_from(s, p, 0);
    assert forall|k: int| 0 < k <= s.len() implies !p.is_suffix_of(e + #[trigger] s.take(k)) by {
        if p.is_suffix_of(e + s.take(k)) {
            assert(e + s.take(k) =~= s.take(k));
            assert(s.subrange(k - p.len(), k - p.len() + p.len()) =~= p) by {
                let t = s.take(k);
                assert(p =~= t.subrange(t.len() - p.len(), t.len() as int));
            }
        }
    }
    assert(strings::split_str(e, p).last() == e);
    lemma_split_grow(e, s, p);
    assert(e + s =~= s);
    assert(strings::split_str(e, p).drop_last() =~= Seq::<Seq<char>>::empty());
    assert(Seq::<Seq<char>>::empty().push(s) =~= seq![s]);
}

/// A separator whose first character stands nowhere else cuts exactly where
/// it was put.
pub proof fn lemma_split_joined(parts: Seq<Seq<char>>, p: Seq<char>)
    requires
        parts.len() > 0,
        p.len() > 0,
        forall|k: int| 0 < k < p.len() ==> #[trigger] p[k] != p[0],
        forall|i: int| 0 <= i < parts.len() ==> lacks(#[trigger] parts[i], p[0]),
    ensures
        strings::split_str(strings::join(parts, p), p) == parts,
    decreases parts.len(),
{
    let e = Seq::<char>::empty();
    let x = parts.last();
    assert(lacks(parts[parts.len() - 1], p[0]));
    if parts.len() == 1 {
        assert(strings::split_str(e, p).last() == e);
        assert forall|k: int| 0 < k <= x.len() implies !p.is_suffix_of(e + #[trigger] x.take(k)) by {
            let t = e + x.take(k);
            if p.is_suffix_of(t) {
                assert(t.subrange(t.len() - p.len(), t.len() as int)[0] == x[t.len() - p.len()]);
            }
        }
        lemma_split_grow(e, x, p);
        assert(e + x =~= x);
        assert(strings::split_str(e, p).drop_last().push(x) =~= parts);
    } else {
        let init = parts.drop_last();
        assert forall|i: int| 0 <= i < init.len() implies lacks(#[trigger] init[i], p[0]) by {
            assert(init[i] == parts[i]);
        }
        lemma_split_joined(init, p);
        let s = strings::join(init, p);
        let last = init.last();
        assert(lacks(init[init.len() - 1], p[0]));
        let head = p.drop_last();
        assert forall|k: int| 0 < k <= head.len() implies !p.is_suffix_of(
            last + #[trigger] head.take(k),
        ) by {
            let t = last + head.take(k);
            if p.is_suffix_of(t) {
                let a = t.len() - p.len();
                assert(t.subrange(a, t.len() as int)[0] == t[a]);
                assert(a < last.len());
                assert(t[a] == last[a]);
            }
        }
        lemma_split_grow(s, head, p);
        let t = s + p;
        assert(t.drop_last() =~= s + head);
        let grown = init.drop_last().push(last + head);
        assert(grown.drop_last() =~= init.drop_last());
        assert((last + head).push(p.last()) =~= last + p);
        assert(strings::extend_last(grown, p.last()) =~= init.drop_last().push(last + p));
        assert(p.is_suffix_of(last + p)) by {
            let u = last + p;
            assert(u.subrange(u.len() - p.len(), u.len() as int) =~= p);
        }
        assert((last + p).take((last + p).len() - p.len()) =~= last);
        let cut = init.push(e);
        assert(strings::split_str(t, p) =~= cut) by {
            let longer = init.drop_last().push(last + p);
            assert(longer.drop_last() =~= init.drop_last());
            assert(init.drop_last().push(last) =~= init);
        }
        assert forall|k: int| 0 < k <= x.len() implies !p.is_suffix_of(e + #[trigger] x.take(k)) by {
            let u = e + x.take(k);
            if p.is_suffix_of(u) {
                assert(u.subrange(u.len() - p.len(), u.len() as int)[0] == x[u.len() - p.len()]);
            }
        }
        lemma_split_grow(t, x, p);
        assert(cut.drop_last() =~= init);
        assert(e + x =~= x);
        assert(init.push(x) =~= parts);
        assert(strings::join(parts, p) =~= t + x);
    }
}

/// Texts joined without a separator lack what each of them lacks.
proof fn lemma_joined_lacks(parts: Seq<Seq<char>>, c: char)
    requires
        forall|i: int| 0 <= i < parts.len() ==> lacks(#[trigger] parts[i], c),
    ensures
        lacks(strings::join(parts, ""@), c),
    decreases parts.len(),
{
    reveal_strlit("");
    if parts.len() == 1 {
        assert(lacks(parts[0], c));
    } else if parts.len() > 1 {
        let init = parts.drop_last();
        assert forall|i: int| 0 <= i < init.len() implies lacks(#[trigger] init[i], c) by {
            assert(init[i] == parts[i]);
        }
        lemma_joined_lacks(init, c);
        assert(lacks(parts[parts.len() - 1], c));
    }
}

/// A text without the character that starts a pattern does not hold it.
pub proof fn lemma_lacks_occurs(s: Seq<char>, p: Seq<char>)
    requires
        p.len() > 0,
        lacks(s, p[0]),
    ensures
        !strings::occurs(s, p),
{
    strings::lemma_find_from(s, p, 0);
    if strings::occurs(s, p) {
        let k = strings::find(s, p)->0;
        assert(s.subrange(k, k + p.len())[0] == s[k]);
    }
}

/// A text that does not mention the bot, neither by its name nor by its name
/// in lower case, keeps every word: the result holds the words of the text in
/// their order, all characters but white space among them, with one space
/// between two words. Without a name nothing changes.
pub proof fn law_unmentioned_text_keeps_words(text: Seq<char>, bot: Seq<char>)
    requires
        bot.len() > 0 ==> !strings::occurs(text, mention(bot)),
        bot.len() > 0 ==> !strings::occurs(text, mention(strings::lowercase(bot))),
    ensures
        strings::words(sanitizer::without_mention(text, bot)) == strings::words(text),
        bot.len() == 0 ==> sanitizer::without_mention(text, bot) == text,
        bot.len() > 0 ==> sanitizer::without_mention(text, bot) == strings::join(
            strings::words(text),
            seq![' '],
        ),
{
    reveal_strlit("@");
    reveal_strlit(" ");
    if bot.len() > 0 {
        assert("@"@ + bot =~= mention(bot));
        assert("@"@ + strings::lowercase(bot) =~= mention(strings::lowercase(bot)));
        assert(" "@ =~= seq![' ']);
        lemma_nothing_to_split(text, mention(bot));
        lemma_nothing_to_split(text, mention(strings::lowercase(bot)));
        lemma_words_respaced(text);
    }
}

/// Every mention of the bot by its name goes, and what stands around the
/// mentions stays, word by word.
pub proof fn law_mentions_go(parts: Seq<Seq<char>>, bot: Seq<char>)
    requires
        parts.len() > 0,
        bot.len() > 0,
        lacks(bot, '@'),
        forall|i: int| 0 <= i < parts.len() ==> lacks(#[trigger] parts[i], '@'),
    ensures
        strings::words(sanitizer::without_mention(strings::join(parts, mention(bot)), bot))
            == strings::words(strings::join(parts, Seq::empty())),
{
    reveal_strlit("@");
    reveal_strlit("");
    assert(""@ =~= Seq::<char>::empty());
    assert("@"@ + bot =~= mention(bot));
    assert("@"@ + strings::lowercase(bot) =~= mention(strings::lowercase(bot)));
    let p = mention(bot);
    assert forall|k: int| 0 < k < p.len() implies #[trigger] p[k] != p[0] by {
        assert(p[k] == bot[k - 1]);
    }
    lemma_split_joined(parts, p);
    lemma_joined_lacks(parts, '@');
    let bare = strings::join(parts, ""@);
    lemma_lacks_occurs(bare, mention(strings::lowercase(bot)));
    lemma_nothing_to_split(bare, mention(strings::lowercase(bot)));
    lemma_words_respaced(bare);
}

/// A mention of the bot by its name in lower case goes as one by its name does.
pub proof fn law_lower_case_mentions_go(parts: Seq<Seq<char>>, bot: Seq<char>)
    requires
        parts.len() > 0,
        bot.len() > 0,
        lacks(strings::lowercase(bot), '@'),
        forall|i: int| 0 <= i < parts.len() ==> lacks(#[trigger] parts[i], '@'),
        !strings::occurs(strings::join(parts, mention(strings::lowercase(bot))), mention(bot)),
    ensures
        strings::words(
            sanitizer::without_mention(
                strings::join(parts, mention(strings::lowercase(bot))),
                bot,
            ),
        ) == strings::words(strings::join(parts, Seq::empty())),
{
    reveal_strlit("@");
    reveal_strlit("");
    let lower = strings::lowercase(bot);
    assert(""@ =~= Seq::<char>::empty());
    assert("@"@ + bot =~= mention(bot));
    assert("@"@ + lower =~= mention(lower));
    let p = mention(lower);
    assert forall|k: int| 0 < k < p.len() implies #[trigger] p[k] != p[0] by {
        assert(p[k] == lower[k - 1]);
    }
    let text = strings::join(parts, p);
    lemma_nothing_to_split(text, mention(bot));
    lemma_split_joined(parts, p);
    lemma_words_respaced(strings::join(parts, ""@));
}

} // verus!
