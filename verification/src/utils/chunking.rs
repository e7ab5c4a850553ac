//! That splitting into messages cuts no word that fits and fills the messages.

use vstd::prelude::*;

use crate::strings;
use crate::utils::mentions;
use crate::utils::text;

verus! {

/// A stretch without white space and at most one white character behind it.
pub open spec fn is_piece(p: Seq<char>) -> bool {
    p.len() > 0 && strings::no_white(p.drop_last())
}

/// The pieces of a text: all but the last end with white space.
spec fn are_pieces(ps: Seq<Seq<char>>) -> bool {
    &&& forall|i: int| 0 <= i < ps.len() ==> is_piece(#[trigger] ps[i])
    &&& forall|i: int| 0 <= i < ps.len() - 1 ==> strings::is_white((#[trigger] ps[i]).last())
}

/// A text is split behind each white character.
proof fn lemma_pieces(s: Seq<char>)
    ensures
        are_pieces(strings::split_inclusive(s)),
        s.len() > 0 ==> strings::split_inclusive(s).len() > 0
            && strings::split_inclusive(s).last().last() == s.last(),
    decreases s.len(),
{
    if s.len() > 0 {
        let init = s.drop_last();
        lemma_pieces(init);
        let before = strings::split_inclusive(init);
        let c = s.last();
        let r = strings::split_inclusive(s);
        if before.len() == 0 || strings::is_white(s[s.len() - 2]) {
            assert(r == before.push(seq![c]));
            assert(seq![c].drop_last() =~= Seq::<char>::empty());
            assert forall|i: int| 0 <= i < r.len() implies is_piece(#[trigger] r[i]) by {
                if i < before.len() {
                    assert(r[i] == before[i]);
                }
            }
            assert forall|i: int| 0 <= i < r.len() - 1 implies strings::is_white(
                (#[trigger] r[i]).last(),
            ) by {
                assert(r[i] == before[i]);
                if i == before.len() - 1 {
                    assert(before.last().last() == init.last());
                }
            }
        } else {
            let last = before.last();
            assert(r == before.drop_last().push(last.push(c)));
            assert(last.push(c).drop_last() =~= last);
            assert(strings::no_white(last)) by {
                assert(is_piece(before[before.len() - 1]));
                assert(last.last() == init.last());
                assert forall|k: int| 0 <= k < last.len() implies !strings::is_white(
                    #[trigger] last[k],
                ) by {
                    if k < last.len() - 1 {
                        assert(last.drop_last()[k] == last[k]);
                    }
                }
            }
            assert forall|i: int| 0 <= i < r.len() implies is_piece(#[trigger] r[i]) by {
                if i < before.len() - 1 {
                    assert(r[i] == before[i]);
                }
            }
            assert forall|i: int| 0 <= i < r.len() - 1 implies strings::is_white(
                (#[trigger] r[i]).last(),
            ) by {
                assert(r[i] == before[i]);
            }
        }
    }
}

/// A text ends with white space, or is empty.
spec fn open_end(s: Seq<char>) -> bool {
    s.len() == 0 || strings::is_white(s.last())
}

/// Behind white space a new word starts.
proof fn lemma_words_behind(a: Seq<char>, b: Seq<char>)
    requires
        open_end(a),
    ensures
        strings::words(a + b) == strings::words(a) + strings::words(b),
{
    mentions::lemma_no_words();
    if a.len() == 0 {
        assert(a =~= Seq::empty());
        assert(a + b =~= b);
        assert(Seq::<Seq<char>>::empty() + strings::words(b) =~= strings::words(b));
    } else {
        let init = a.drop_last();
        let e = Seq::<char>::empty();
        mentions::lemma_words_cut(init, a.last(), b);
        mentions::lemma_words_cut(init, a.last(), e);
        assert(init.push(a.last()) =~= a);
        assert(a + e =~= a);
        assert(strings::words(init) + Seq::<Seq<char>>::empty() =~= strings::words(init));
    }
}

/// One more message has its own words.
proof fn lemma_words_joined(done: Seq<Seq<char>>, m: Seq<char>)
    ensures
        strings::words(strings::join(done.push(m), " "@)) == strings::words(
            strings::join(done, " "@),
        ) + strings::words(m),
{
    reveal_strlit(" ");
    strings::lemma_join_push(done, m, " "@);
    if done.len() == 0 {
        mentions::lemma_no_words();
        assert(strings::join(done, " "@) =~= Seq::<char>::empty());
        assert(Seq::<Seq<char>>::empty() + strings::words(m) =~= strings::words(m));
    } else {
        let a = strings::join(done, " "@);
        strings::lemma_words_concat(a, m);
        assert(a + " "@ + m =~= a.push(' ') + m);
    }
}

/// Filling messages keeps the words.
proof fn lemma_fill_words(ps: Seq<Seq<char>>, limit: int)
    requires
        are_pieces(ps),
        forall|i: int| 0 <= i < ps.len() ==> (#[trigger] ps[i]).len() <= limit,
    ensures
        ({
            let f = text::fill(ps, limit);
            &&& strings::words(strings::join(f.done, " "@)) + strings::words(f.current)
                == strings::words(ps.flatten())
            &&& ps.len() > 0 ==> f.current.len() > 0 && f.current.last() == ps.last().last()
                && ps.flatten().len() > 0 && ps.flatten().last() == ps.last().last()
            &&& ps.len() == 0 ==> f.current.len() == 0 && ps.flatten().len() == 0
        }),
    decreases ps.len(),
{
    mentions::lemma_no_words();
    if ps.len() == 0 {
        assert(ps =~= Seq::empty());
        assert(Seq::<Seq<char>>::empty().flatten() =~= Seq::<char>::empty());
        let none = Seq::<Seq<char>>::empty();
        assert(strings::join(none, " "@) =~= Seq::<char>::empty());
        assert(none + none =~= none);
    } else {
        let init = ps.drop_last();
        let word = ps.last();
        assert forall|i: int| 0 <= i < init.len() implies is_piece(#[trigger] init[i])
            && init[i].len() <= limit && strings::is_white(init[i].last()) by {
            assert(init[i] == ps[i]);
        }
        lemma_fill_words(init, limit);
        let before = text::fill(init, limit);
        let f = text::fill(ps, limit);
        assert(ps[ps.len() - 1] == word);
        if init.len() > 0 {
            assert(init[init.len() - 1] == init.last());
        }
        strings::lemma_flatten_push(init, word);
        assert(init.push(word) =~= ps);
        assert(open_end(init.flatten()));
        assert(open_end(before.current));
        lemma_words_behind(init.flatten(), word);
        let a = strings::words(strings::join(before.done, " "@));
        let b = strings::words(before.current);
        let c = strings::words(word);
        assert(ps.flatten().last() == word.last());
        if before.current.len() + word.len() > limit && before.current.len() > 0 {
            let m = strings::trim_end(before.current);
            mentions::lemma_words_trim_end(before.current);
            lemma_words_joined(before.done, m);
        } else {
            lemma_words_behind(before.current, word);
            assert((before.current + word).last() == word.last());
            assert(a + (b + c) =~= (a + b) + c);
        }
    }
}

/// A word of a piece is a word of the text.
proof fn lemma_words_of_piece(ps: Seq<Seq<char>>, i: int)
    requires
        are_pieces(ps),
        0 <= i < ps.len(),
    ensures
        forall|w: Seq<char>| #[trigger]
            strings::words(ps[i]).contains(w) ==> strings::words(ps.flatten()).contains(w),
        ps.len() > 0 ==> ps.flatten().len() > 0 && ps.flatten().last() == ps.last().last(),
    decreases ps.len(),
{
    let init = ps.drop_last();
    let word = ps.last();
    assert forall|k: int| 0 <= k < init.len() implies is_piece(#[trigger] init[k])
        && strings::is_white(init[k].last()) by {
        assert(init[k] == ps[k]);
    }
    strings::lemma_flatten_push(init, word);
    assert(init.push(word) =~= ps);
    assert(ps[ps.len() - 1] == word);
    assert(ps.flatten().last() == word.last());
    if init.len() > 0 {
        lemma_words_of_piece(init, 0);
        assert(init[init.len() - 1] == init.last());
    } else {
        assert(init =~= Seq::empty());
        assert(Seq::<Seq<char>>::empty().flatten() =~= Seq::<char>::empty());
    }
    lemma_words_behind(init.flatten(), word);
    let a = strings::words(init.flatten());
    let b = strings::words(word);
    let all = strings::words(ps.flatten());
    if i < ps.len() - 1 {
        lemma_words_of_piece(init, i);
        assert(init[i] == ps[i]);
    }
    assert forall|w: Seq<char>| #[trigger] strings::words(ps[i]).contains(w) implies all.contains(
        w,
    ) by {
        if i < ps.len() - 1 {
            let k = a.index_of(w);
            assert(a.contains(w));
            assert(all[k] == w);
        } else {
            let k = b.index_of(w);
            assert(all[a.len() + k] == w);
        }
    }
}

/// A piece is no longer than its word and one white character.
proof fn lemma_piece_length(p: Seq<char>)
    requires
        is_piece(p),
        p.len() > 1,
    ensures
        exists|w: Seq<char>| #[trigger] strings::words(p).contains(w) && p.len() <= w.len() + 1,
{
    let w = p.drop_last();
    let c = p.last();
    let e = Seq::<char>::empty();
    if strings::is_white(c) {
        mentions::lemma_words_cut(w, c, e);
        mentions::lemma_no_words();
        strings::lemma_words_single(w);
        assert(w.push(c) + e =~= p);
        assert(seq![w] + Seq::<Seq<char>>::empty() =~= seq![w]);
        assert(seq![w][0] == w);
        assert(strings::words(p).contains(w));
    } else {
        assert forall|k: int| 0 <= k < p.len() implies !strings::is_white(#[trigger] p[k]) by {
            if k < w.len() {
                assert(w[k] == p[k]);
            }
        }
        strings::lemma_words_single(p);
        assert(seq![p][0] == p);
        assert(strings::words(p).contains(p));
    }
}

/// Words shorter than a message are neither cut nor lost: the messages of a text,
/// one after the other, have its words in their order.
pub proof fn law_words_are_not_cut(s: Seq<char>, limit: int)
    requires
        forall|i: int|
            0 <= i < strings::words(s).len() ==> (#[trigger] strings::words(s)[i]).len() < limit,
    ensures
        strings::words(strings::join(text::message_chunks(s, limit), seq![' '])) == strings::words(
            s,
        ),
{
    reveal_strlit(" ");
    assert(" "@ =~= seq![' ']);
    let l = text::effective_limit(limit);
    let none = Seq::<Seq<char>>::empty();
    mentions::lemma_no_words();
    if s.len() <= l {
        assert(seq![s][0] == s);
    } else {
        let ps = strings::split_inclusive(s);
        lemma_pieces(s);
        strings::lemma_split_inclusive_flatten(s);
        assert forall|i: int| 0 <= i < ps.len() implies (#[trigger] ps[i]).len() <= l by {
            if ps[i].len() > 1 {
                lemma_piece_length(ps[i]);
                let w = choose|w: Seq<char>| #[trigger]
                    strings::words(ps[i]).contains(w) && ps[i].len() <= w.len() + 1;
                lemma_words_of_piece(ps, i);
                let k = strings::words(s).index_of(w);
                assert(strings::words(s).contains(w));
                assert(strings::words(s)[k].len() < limit);
            }
        }
        lemma_fill_words(ps, l);
        let f = text::fill(ps, l);
        let a = strings::words(strings::join(f.done, " "@));
        let chunks = f.flushed();
        if strings::blank(f.current) {
            mentions::lemma_words_trim(f.current);
            assert(strings::trim(f.current) =~= Seq::empty());
            assert(a + none =~= a);
        } else {
            let m = strings::trim_end(f.current);
            mentions::lemma_words_trim_end(f.current);
            lemma_words_joined(f.done, m);
        }
        if chunks.len() == 0 {
            assert(strings::join(chunks, " "@) =~= Seq::<char>::empty());
            let e = Seq::<char>::empty();
            assert(seq![e][0] == e);
        }
    }
}

/// No white space at the start of the text, and no two white characters in a row.
pub open spec fn single_spaced(s: Seq<char>) -> bool {
    &&& s.len() > 0 ==> !strings::is_white(s[0])
    &&& forall|i: int|
        0 <= i < s.len() - 1 && strings::is_white(#[trigger] s[i]) ==> !strings::is_white(s[i + 1])
}

/// Every piece starts with a solid character.
spec fn tight(ps: Seq<Seq<char>>) -> bool {
    forall|i: int| 0 <= i < ps.len() ==> !strings::is_white((#[trigger] ps[i])[0])
}

/// The pieces of a text with single spaces start with its words.
proof fn lemma_tight(s: Seq<char>)
    requires
        single_spaced(s),
    ensures
        tight(strings::split_inclusive(s)),
    decreases s.len(),
{
    if s.len() > 0 {
        let init = s.drop_last();
        assert(single_spaced(init)) by {
            assert forall|i: int|
                0 <= i < init.len() - 1 && strings::is_white(#[trigger] init[i]) implies !strings::is_white(
                init[i + 1],
            ) by {
                assert(s[i] == init[i] && s[i + 1] == init[i + 1]);
            }
        }
        lemma_tight(init);
        lemma_pieces(init);
        let before = strings::split_inclusive(init);
        let c = s.last();
        let r = strings::split_inclusive(s);
        assert forall|i: int| 0 <= i < r.len() implies !strings::is_white((#[trigger] r[i])[0]) by {
            if before.len() == 0 || strings::is_white(s[s.len() - 2]) {
                if i < before.len() {
                    assert(r[i] == before[i]);
                } else if s.len() > 1 && before.len() > 0 {
                    assert(s[s.len() - 2 + 1] == c);
                } else {
                    assert(init.len() == 0);
                }
            } else if i < before.len() - 1 {
                assert(r[i] == before[i]);
            } else {
                assert(r[i] == before.last().push(c));
                assert(before[before.len() - 1].len() > 0);
            }
        }
    }
}

/// The text ends with at most one white character.
spec fn ends_once(s: Seq<char>) -> bool {
    s.len() > 0 && (strings::is_white(s.last()) ==> s.len() >= 2 && !strings::is_white(
        s[s.len() - 2],
    ))
}

/// Such a text loses at most one character at its end.
proof fn lemma_ends_once(s: Seq<char>)
    requires
        ends_once(s),
    ensures
        s.len() - 1 <= strings::trim_end(s).len() <= s.len(),
{
    if strings::is_white(s.last()) {
        let init = s.drop_last();
        assert(init.last() == s[s.len() - 2]);
        assert(strings::trim_end(init) == init);
    }
}

/// The message behind a finished one.
spec fn next_message(f: text::Filling, i: int) -> Seq<char> {
    if i + 1 < f.done.len() {
        f.done[i + 1]
    } else {
        strings::trim_end(f.current)
    }
}

/// Filling messages leaves none that has room for the next.
proof fn lemma_fill_full(ps: Seq<Seq<char>>, limit: int)
    requires
        are_pieces(ps),
        tight(ps),
        forall|i: int| 0 <= i < ps.len() ==> (#[trigger] ps[i]).len() <= limit,
    ensures
        ({
            let f = text::fill(ps, limit);
            &&& ps.len() > 0 ==> ends_once(f.current)
            &&& ps.len() == 0 ==> f.done.len() == 0 && f.current.len() == 0
            &&& forall|i: int|
                0 <= i < f.done.len() ==> (#[trigger] f.done[i]).len() + next_message(f, i).len() + 2
                    > limit
        }),
    decreases ps.len(),
{
    if ps.len() > 0 {
        let init = ps.drop_last();
        assert forall|i: int| 0 <= i < init.len() implies is_piece(#[trigger] init[i])
            && !strings::is_white(init[i][0]) && init[i].len() <= limit by {
            assert(init[i] == ps[i]);
        }
        assert forall|i: int| 0 <= i < init.len() - 1 implies strings::is_white(
            (#[trigger] init[i]).last(),
        ) by {
            assert(init[i] == ps[i]);
        }
        lemma_fill_full(init, limit);
        let g = text::fill(init, limit);
        let w = ps.last();
        assert(w == ps[ps.len() - 1]);
        let f = text::fill(ps, limit);
        assert(ends_once(w)) by {
            if strings::is_white(w.last()) {
                if w.len() == 1 {
                    assert(w.last() == w[0]);
                }
                assert(w.drop_last()[w.len() - 2] == w[w.len() - 2]);
            }
        }
        lemma_ends_once(w);
        if g.current.len() > 0 {
            lemma_ends_once(g.current);
        }
        if g.current.len() + w.len() > limit && g.current.len() > 0 {
            assert forall|i: int| 0 <= i < f.done.len() implies (#[trigger] f.done[i]).len()
                + next_message(f, i).len() + 2 > limit by {
                if i < g.done.len() {
                    assert(f.done[i] == g.done[i]);
                    assert(next_message(f, i) == next_message(g, i));
                }
            }
        } else {
            assert(f.current == g.current + w);
            assert(ends_once(f.current)) by {
                assert(f.current.last() == w.last());
                if strings::is_white(w.last()) {
                    assert(f.current[f.current.len() - 2] == w[w.len() - 2]);
                }
            }
            lemma_ends_once(f.current);
            if g.current.len() == 0 {
                assert(init.len() == 0);
            }
            assert forall|i: int| 0 <= i < f.done.len() implies (#[trigger] f.done[i]).len()
                + next_message(f, i).len() + 2 > limit by {
                assert(f.done[i] == g.done[i]);
                if i + 1 < f.done.len() {
                    assert(next_message(f, i) == next_message(g, i));
                }
            }
        }
    }
}

/// Messages are filled with words: if words stand one space apart and none is
/// longer than a message, two messages in a row have no room in one, with a space
/// between them and one behind them.
pub proof fn law_messages_are_full(t: Seq<char>, limit: int, i: int)
    requires
        single_spaced(t),
        forall|k: int|
            0 <= k < strings::split_inclusive(t).len() ==> (#[trigger] strings::split_inclusive(
                t,
            )[k]).len() <= limit,
        limit >= 64,
        0 <= i < text::message_chunks(t, limit).len() - 1,
    ensures
        text::message_chunks(t, limit)[i].len() + 1 + text::message_chunks(t, limit)[i + 1].len()
            + 1 > limit,
{
    let ps = strings::split_inclusive(t);
    lemma_pieces(t);
    lemma_tight(t);
    lemma_fill_full(ps, limit);
    let f = text::fill(ps, limit);
    let r = text::message_chunks(t, limit);
    assert(r == f.flushed());
    assert(r[i] == f.done[i]);
    assert(r[i + 1] == next_message(f, i));
}

/// The slices of a word.
proof fn lemma_slices(w: Seq<char>, limit: int)
    requires
        limit > 0,
    ensures
        text::full_slices(w, limit).flatten() + text::last_slice(w, limit) == w,
        text::last_slice(w, limit).len() < limit,
        forall|i: int|
            0 <= i < text::full_slices(w, limit).len() ==> (#[trigger] text::full_slices(
                w,
                limit,
            )[i]).len() == limit,
    decreases w.len(),
{
    if limit <= w.len() {
        let rest = w.skip(limit);
        lemma_slices(rest, limit);
        let more = text::full_slices(rest, limit);
        let r = text::full_slices(w, limit);
        assert(r == seq![w.take(limit)] + more);
        assert(r.drop_first() =~= more);
        assert(r.flatten() =~= w.take(limit) + more.flatten());
        assert(w.take(limit) + more.flatten() + text::last_slice(rest, limit) =~= w.take(limit) + (
        more.flatten() + text::last_slice(rest, limit)));
        assert(w.take(limit) + rest =~= w);
        assert forall|i: int| 0 <= i < r.len() implies (#[trigger] r[i]).len() == limit by {
            if i > 0 {
                assert(r[i] == more[i - 1]);
            }
        }
    } else {
        assert(Seq::<Seq<char>>::empty().flatten() =~= Seq::<char>::empty());
        assert(Seq::<char>::empty() + w =~= w);
    }
}

/// A word that is longer than a message is cut into messages that are full, but
/// for the last, and keeps its characters.
pub proof fn law_long_words_are_cut(word: Seq<char>, limit: int)
    requires
        limit >= 64,
        word.len() > limit,
        strings::no_white(word),
    ensures
        ({
            let r = text::message_chunks(word, limit);
            &&& r.flatten() == word
            &&& 0 < r.last().len() <= limit
            &&& forall|i: int| 0 <= i < r.len() - 1 ==> (#[trigger] r[i]).len() == limit
        }),
{
    let ps = strings::split_inclusive(word);
    lemma_one_piece(word);
    let none = text::Filling { done: Seq::empty(), current: Seq::empty() };
    assert(ps.drop_last() =~= Seq::empty());
    assert(text::fill(ps.drop_last(), limit) == none);
    assert(ps.last() == word);
    assert(!strings::is_white(word[word.len() - 1]));
    assert(strings::trim_end(word) == word);
    assert(none.flushed() =~= Seq::<Seq<char>>::empty());
    lemma_slices(word, limit);
    let full = text::full_slices(word, limit);
    let last = text::last_slice(word, limit);
    let f = text::fill(ps, limit);
    assert(f.done =~= full);
    assert(f.current == last);
    let r = text::message_chunks(word, limit);
    assert(full.len() > 0);
    if last.len() == 0 {
        assert(strings::blank(last));
        assert(r == full);
        assert(full.flatten() + last =~= full.flatten());
        assert(r.last() == full[full.len() - 1]);
    } else {
        let k = word.len() - last.len();
        assert(last[0] == word[k]) by {
            assert((full.flatten() + last)[full.flatten().len() as int] == last[0]);
        }
        lemma_solid_kept(last, word, k);
        assert(r == full.push(last));
        assert(r.drop_last() =~= full);
        full.lemma_flatten_push(last);
    }
}

/// A text without white space is one piece.
proof fn lemma_one_piece(s: Seq<char>)
    requires
        strings::no_white(s),
        s.len() > 0,
    ensures
        strings::split_inclusive(s) == seq![s],
    decreases s.len(),
{
    let init = s.drop_last();
    if init.len() > 0 {
        assert(strings::no_white(init)) by {
            assert forall|k: int| 0 <= k < init.len() implies !strings::is_white(
                #[trigger] init[k],
            ) by {
                assert(s[k] == init[k]);
            }
        }
        lemma_one_piece(init);
        assert(!strings::is_white(s[s.len() - 2]));
        assert(init.push(s.last()) =~= s);
        assert(strings::split_inclusive(s) =~= seq![s]);
    } else {
        assert(strings::split_inclusive(init) =~= Seq::empty());
        assert(seq![s.last()] =~= s);
        assert(strings::split_inclusive(s) =~= seq![s]);
    }
}

/// The end of a text without white space is not blank and stays as it is.
proof fn lemma_solid_kept(last: Seq<char>, word: Seq<char>, k: int)
    requires
        strings::no_white(word),
        0 <= k < word.len(),
        last.len() == word.len() - k,
        forall|i: int| 0 <= i < last.len() ==> #[trigger] last[i] == word[k + i],
    ensures
        !strings::blank(last),
        strings::trim_end(last) == last,
{
    assert(!strings::is_white(last[0]));
    assert(!strings::is_white(last[last.len() - 1]));
}

/// A limit below 64 characters counts as 64.
pub proof fn law_smallest_limit(t: Seq<char>, limit: int)
    requires
        limit < 64,
    ensures
        text::message_chunks(t, limit) == text::message_chunks(t, 64),
        t.len() <= 64 ==> text::message_chunks(t, limit) == seq![t],
{
}

} // verus!
