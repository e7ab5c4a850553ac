//! Which cards a question finds, in terms of its words and of the keys and
//! contents of the cards.

use vstd::prelude::*;

use crate::knowledge::loader::KnowledgeCardView;
use crate::knowledge::matcher;
use crate::sort;
use crate::strings;
use crate::strings::Separator;

verus! {

/// The text holds the word as a maximal run of letters and digits, and the word
/// has at least the given number of characters.
pub open spec fn has_word(s: Seq<char>, w: Seq<char>, least: int) -> bool {
    w.len() >= least && strings::is_run(s, |c: char| !strings::alphanumeric(c), w)
}

/// What a key stands for: the whole key in lower case, or one of its words of at
/// least two characters, trimmed.
pub open spec fn key_word(key: Seq<char>, w: Seq<char>) -> bool {
    let lower = strings::lowercase(strings::trim(key));
    w == lower || exists|v: Seq<char>| #[trigger] has_word(lower, v, 2) && strings::trim(v) == w
}

/// A word of the question, whatever its case, is a key of the card or a word of
/// one.
pub open spec fn asks_for_key(query: Seq<char>, c: KnowledgeCardView, w: Seq<char>, j: int) -> bool {
    &&& 0 <= j < c.keys.len()
    &&& has_word(strings::lowercase(query), w, 2)
    &&& key_word(c.keys[j], w)
}

/// A word of the question and a word of a text have the same stem.
pub open spec fn same_stem(query: Seq<char>, s: Seq<char>, w: Seq<char>, v: Seq<char>) -> bool {
    &&& has_word(strings::lowercase(query), w, 3)
    &&& has_word(s, v, 3)
    &&& matcher::stem(w) == matcher::stem(strings::lowercase(v))
}

/// The question and a text share a stem.
pub open spec fn shares_stem(query: Seq<char>, s: Seq<char>, x: Seq<char>) -> bool {
    exists|w: Seq<char>, v: Seq<char>|
        #[trigger] same_stem(query, s, w, v) && matcher::stem(w) == x
}

/// There is room for all cards.
pub open spec fn room_for_all(cards: Seq<KnowledgeCardView>, top_n: int, max: int) -> bool {
    &&& top_n >= cards.len()
    &&& forall|k: int|
        0 <= k < cards.len() ==> ((#[trigger] cards[k]).title.len() + cards[k].content.len())
            * cards.len() <= max
}

/// Both closures say the same.
proof fn lemma_cuts(s: Seq<char>, w: Seq<char>)
    ensures
        strings::is_run(s, |c: char| Separator::NonAlphanumeric.cuts(c), w) == strings::is_run(
            s,
            |c: char| !strings::alphanumeric(c),
            w,
        ),
{
    let sep = Separator::NonAlphanumeric;
    let f = |c: char| sep.cuts(c);
    let g = |c: char| !strings::alphanumeric(c);
    assert(f =~= g);
}

/// The words of a question are the words that it has.
proof fn lemma_tokens(query: Seq<char>, w: Seq<char>)
    ensures
        matcher::tokens(query).contains(w) <==> has_word(strings::lowercase(query), w, 2),
        matcher::long_tokens(matcher::tokens(query)).contains(w) <==> has_word(
            strings::lowercase(query),
            w,
            3,
        ),
{
    strings::lemma_split_min_runs(
        strings::lowercase(query),
        Separator::NonAlphanumeric,
        2,
        w,
    );
    lemma_cuts(strings::lowercase(query), w);
    lemma_long_tokens(matcher::tokens(query), w);
}

/// The long words are those of at least three characters.
proof fn lemma_long_tokens(words: Seq<Seq<char>>, w: Seq<char>)
    ensures
        matcher::long_tokens(words).contains(w) <==> words.contains(w) && w.len() >= 3,
    decreases words.len(),
{
    if words.len() > 0 {
        let init = words.drop_last();
        lemma_long_tokens(init, w);
        let rest = matcher::long_tokens(init);
        let r = matcher::long_tokens(words);
        if rest.contains(w) {
            let k = rest.index_of(w);
            assert(r[k] == w);
        }
        if init.contains(w) {
            let k = init.index_of(w);
            assert(words[k] == w);
        }
        if words.last() == w {
            assert(words[words.len() - 1] == w);
            if w.len() >= 3 {
                assert(r[r.len() - 1] == w);
            }
        }
        if words.contains(w) && words.last() != w {
            let k = words.index_of(w);
            assert(init[k] == w);
        }
        if r.contains(w) && words.last() != w {
            let k = r.index_of(w);
            if k < rest.len() {
                assert(rest[k] == w);
            }
        }
    }
}

/// The long words of a text are the words that it has, in lower case.
proof fn lemma_long_words(s: Seq<char>, x: Seq<char>)
    ensures
        matcher::long_words(s).contains(x) <==> exists|v: Seq<char>|
            #[trigger] has_word(s, v, 3) && strings::lowercase(v) == x,
{
    let words = strings::split_min(s, Separator::NonAlphanumeric, 3);
    let low = matcher::long_words(s);
    if low.contains(x) {
        let k = low.index_of(x);
        let v = words[k];
        assert(words.contains(v));
        strings::lemma_split_min_runs(s, Separator::NonAlphanumeric, 3, v);
        lemma_cuts(s, v);
        assert(has_word(s, v, 3));
    }
    if exists|v: Seq<char>| #[trigger] has_word(s, v, 3) && strings::lowercase(v) == x {
        let v = choose|v: Seq<char>| #[trigger] has_word(s, v, 3) && strings::lowercase(v) == x;
        strings::lemma_split_min_runs(s, Separator::NonAlphanumeric, 3, v);
        lemma_cuts(s, v);
        let k = words.index_of(v);
        assert(low[k] == x);
    }
}

/// The long words of keys are those of each key.
proof fn lemma_long_words_of_keys(keys: Seq<Seq<char>>, x: Seq<char>)
    ensures
        matcher::long_words_of_keys(keys).contains(x) <==> exists|j: int|
            0 <= j < keys.len() && #[trigger] matcher::long_words(keys[j]).contains(x),
    decreases keys.len(),
{
    let all = matcher::long_words_of_keys(keys);
    if keys.len() > 0 {
        let init = keys.drop_last();
        lemma_long_words_of_keys(init, x);
        let a = matcher::long_words_of_keys(init);
        let b = matcher::long_words(keys.last());
        assert(all == a + b);
        if all.contains(x) {
            let k = all.index_of(x);
            if k < a.len() {
                assert(a[k] == x);
                let j = choose|j: int|
                    0 <= j < init.len() && #[trigger] matcher::long_words(init[j]).contains(x);
                assert(init[j] == keys[j]);
            } else {
                assert(b[k - a.len()] == x);
                assert(matcher::long_words(keys[keys.len() - 1]).contains(x));
            }
        }
        if exists|j: int|
            0 <= j < keys.len() && #[trigger] matcher::long_words(keys[j]).contains(x) {
            let j = choose|j: int|
                0 <= j < keys.len() && #[trigger] matcher::long_words(keys[j]).contains(x);
            if j < init.len() {
                assert(matcher::long_words(init[j]).contains(x));
                let k = a.index_of(x);
                assert(all[k] == x);
            } else {
                let k = b.index_of(x);
                assert(all[a.len() + k] == x);
            }
        }
    }
}

/// The stems are those of the words.
proof fn lemma_stems(words: Seq<Seq<char>>, x: Seq<char>)
    ensures
        matcher::stems(words).finite(),
        matcher::stems(words).contains(x) <==> exists|w: Seq<char>|
            #[trigger] words.contains(w) && matcher::stem(w) == x,
    decreases words.len(),
{
    if words.len() > 0 {
        let init = words.drop_last();
        lemma_stems(init, x);
        if exists|w: Seq<char>| #[trigger] init.contains(w) && matcher::stem(w) == x {
            let w = choose|w: Seq<char>| #[trigger] init.contains(w) && matcher::stem(w) == x;
            let k = init.index_of(w);
            assert(words[k] == w);
            assert(words.contains(w));
        }
        if matcher::stem(words.last()) == x {
            assert(words[words.len() - 1] == words.last());
            assert(words.contains(words.last()));
        }
        if exists|w: Seq<char>| #[trigger] words.contains(w) && matcher::stem(w) == x {
            let w = choose|w: Seq<char>| #[trigger] words.contains(w) && matcher::stem(w) == x;
            let k = words.index_of(w);
            if k < init.len() {
                assert(init[k] == w);
                assert(init.contains(w));
            }
        }
    }
}

/// The exact keys of a card are its keys and their words, in lower case.
proof fn lemma_key_parts(parts: Seq<Seq<char>>, w: Seq<char>)
    ensures
        matcher::key_parts(parts).contains(w) <==> w.len() >= 2 && exists|k: int|
            0 <= k < parts.len() && strings::trim(#[trigger] parts[k]) == w,
    decreases parts.len(),
{
    if parts.len() > 0 {
        let init = parts.drop_last();
        lemma_key_parts(init, w);
        if exists|k: int| 0 <= k < init.len() && strings::trim(#[trigger] init[k]) == w {
            let k = choose|k: int| 0 <= k < init.len() && strings::trim(#[trigger] init[k]) == w;
            assert(parts[k] == init[k]);
        }
        if exists|k: int| 0 <= k < parts.len() && strings::trim(#[trigger] parts[k]) == w {
            let k = choose|k: int| 0 <= k < parts.len() && strings::trim(#[trigger] parts[k]) == w;
            if k < init.len() {
                assert(init[k] == parts[k]);
            }
        }
        assert(parts[parts.len() - 1] == parts.last());
    }
}

/// Trimming does not make a text longer.
proof fn lemma_trim_len(s: Seq<char>)
    ensures
        strings::trim(s).len() <= s.len(),
{
    lemma_trim_start_len(s);
    lemma_trim_end_len(strings::trim_start(s));
}

/// Trimming does not make a text longer.
proof fn lemma_trim_start_len(s: Seq<char>)
    ensures
        strings::trim_start(s).len() <= s.len(),
    decreases s.len(),
{
    if s.len() > 0 && strings::is_white(s[0]) {
        lemma_trim_start_len(s.drop_first());
    }
}

/// Trimming does not make a text longer.
proof fn lemma_trim_end_len(s: Seq<char>)
    ensures
        strings::trim_end(s).len() <= s.len(),
    decreases s.len(),
{
    if s.len() > 0 && strings::is_white(s.last()) {
        lemma_trim_end_len(s.drop_last());
    }
}

/// The exact keys are what the key stands for.
proof fn lemma_exact_key(key: Seq<char>, w: Seq<char>)
    requires
        w.len() >= 2,
    ensures
        matcher::exact_key(key).contains(w) <==> key_word(key, w),
{
    let lower = strings::lowercase(strings::trim(key));
    let parts = strings::split(lower, Separator::NonAlphanumeric);
    let p = |x: Seq<char>| x.len() >= 2;
    lemma_key_parts(parts, w);
    if key_word(key, w) && w != lower {
        let v = choose|v: Seq<char>| #[trigger] has_word(lower, v, 2) && strings::trim(v) == w;
        strings::lemma_split_min_runs(lower, Separator::NonAlphanumeric, 2, v);
        lemma_cuts(lower, v);
        let kept = parts.filter(p);
        let i = kept.index_of(v);
        parts.lemma_filter_contains_rev(p, v);
        let k = parts.index_of(v);
        assert(strings::trim(parts[k]) == w);
    }
    if matcher::key_parts(parts).contains(w) {
        let k = choose|k: int| 0 <= k < parts.len() && strings::trim(#[trigger] parts[k]) == w;
        let v = parts[k];
        lemma_trim_len(v);
        parts.lemma_filter_contains(p, k);
        strings::lemma_split_min_runs(lower, Separator::NonAlphanumeric, 2, v);
        lemma_cuts(lower, v);
        assert(has_word(lower, v, 2));
    }
}

/// What is an exact key of one key is one of the card.
proof fn lemma_exact_keys(keys: Seq<Seq<char>>, w: Seq<char>)
    ensures
        matcher::exact_keys(keys).contains(w) <==> exists|j: int|
            0 <= j < keys.len() && #[trigger] matcher::exact_key(keys[j]).contains(w),
    decreases keys.len(),
{
    if keys.len() > 0 {
        let init = keys.drop_last();
        lemma_exact_keys(init, w);
        if exists|j: int| 0 <= j < init.len() && #[trigger] matcher::exact_key(init[j]).contains(w) {
            let j = choose|j: int|
                0 <= j < init.len() && #[trigger] matcher::exact_key(init[j]).contains(w);
            assert(matcher::exact_key(keys[j]).contains(w));
        }
        if exists|j: int| 0 <= j < keys.len() && #[trigger] matcher::exact_key(keys[j]).contains(w) {
            let j = choose|j: int|
                0 <= j < keys.len() && #[trigger] matcher::exact_key(keys[j]).contains(w);
            if j < init.len() {
                assert(matcher::exact_key(init[j]).contains(w));
            }
        }
        assert(keys[keys.len() - 1] == keys.last());
    }
}

/// A word that is in the set is counted.
proof fn lemma_count_in(words: Seq<Seq<char>>, set: Set<Seq<char>>)
    ensures
        matcher::count_in(words, set) > 0 <==> exists|w: Seq<char>|
            #[trigger] words.contains(w) && set.contains(w),
    decreases words.len(),
{
    if words.len() > 0 {
        let init = words.drop_last();
        lemma_count_in(init, set);
        if exists|w: Seq<char>| #[trigger] init.contains(w) && set.contains(w) {
            let w = choose|w: Seq<char>| #[trigger] init.contains(w) && set.contains(w);
            let k = init.index_of(w);
            assert(words[k] == w);
            assert(words.contains(w));
        }
        if set.contains(words.last()) {
            assert(words[words.len() - 1] == words.last());
            assert(words.contains(words.last()));
        }
        if exists|w: Seq<char>| #[trigger] words.contains(w) && set.contains(w) {
            let w = choose|w: Seq<char>| #[trigger] words.contains(w) && set.contains(w);
            let k = words.index_of(w);
            if k < init.len() {
                assert(init[k] == w);
                assert(init.contains(w));
            }
        }
    }
}

/// A card with a score of at least three half points is considered.
proof fn lemma_considered(scores: Seq<nat>, x: int)
    requires
        0 <= x < scores.len(),
    ensures
        matcher::best_first(scores).len() <= scores.len(),
        matcher::best_first(scores).contains(x) <==> scores[x] >= 3,
        forall|p: int|
            0 <= p < matcher::best_first(scores).len() ==> 0 <= #[trigger] matcher::best_first(
                scores,
            )[p] < scores.len(),
{
    let n = scores.len() as int;
    let found = matcher::candidates(scores, n);
    let keys = matcher::candidate_keys(scores, found);
    let before = sort::score_before(keys);
    let order = sort::ranked(found.len() as int, before);
    let r = matcher::best_first(scores);
    lemma_candidates(scores, n);
    sort::law_ranked_permutation(found.len() as int, before);
    if r.contains(x) {
        let i = r.index_of(x);
        assert(0 <= order[i] < found.len());
        assert(found[order[i]] == x);
    }
    if scores[x] >= 3 {
        let p = found.index_of(x);
        assert(order.contains(p));
        let i = order.index_of(p);
        assert(r[i] == x);
    }
    assert forall|p: int| 0 <= p < r.len() implies 0 <= #[trigger] r[p] < n by {
        assert(0 <= order[p] < found.len());
        assert(r[p] == found[order[p]]);
    }
}

/// The candidates are the cards with at least three half points.
proof fn lemma_candidates(scores: Seq<nat>, n: int)
    requires
        0 <= n <= scores.len(),
    ensures
        matcher::candidates(scores, n).len() <= n,
        forall|i: int|
            0 <= i < matcher::candidates(scores, n).len() ==> 0 <= #[trigger] matcher::candidates(
                scores,
                n,
            )[i] < n && scores[matcher::candidates(scores, n)[i]] >= 3,
        forall|x: int|
            0 <= x < n && #[trigger] scores[x] >= 3 ==> matcher::candidates(scores, n).contains(x),
    decreases n,
{
    if n > 0 {
        lemma_candidates(scores, n - 1);
        let before = matcher::candidates(scores, n - 1);
        let r = matcher::candidates(scores, n);
        assert forall|x: int| 0 <= x < n && #[trigger] scores[x] >= 3 implies r.contains(x) by {
            if x == n - 1 {
                assert(r[r.len() - 1] == x);
            } else {
                let k = before.index_of(x);
                assert(r[k] == x);
            }
        }
    }
}

/// With room for all, every card that is considered is given.
proof fn lemma_all_chosen(
    cards: Seq<KnowledgeCardView>,
    order: Seq<int>,
    i: int,
    used: int,
    top_n: int,
    max: int,
    b: int,
)
    requires
        0 <= i <= order.len() <= cards.len() <= top_n,
        used <= i * b,
        0 <= b,
        b * cards.len() <= max,
        forall|k: int|
            0 <= k < order.len() ==> 0 <= #[trigger] order[k] < cards.len()
                && cards[order[k]].title.len() + cards[order[k]].content.len() <= b,
    ensures
        ({
            let r = matcher::chosen(cards, order, i, used, i, top_n, max);
            &&& r.len() == order.len() - i
            &&& forall|k: int|
                0 <= k < r.len() ==> #[trigger] r[k] == (
                    cards[order[i + k]].title,
                    cards[order[i + k]].content,
                )
        }),
    decreases order.len() - i,
{
    if i < order.len() {
        let c = cards[order[i]];
        let filled = used + c.title.len() + c.content.len();
        assert(filled <= (i + 1) * b) by (nonlinear_arith)
            requires
                used <= i * b,
                filled <= used + b,
        ;
        assert((i + 1) * b <= b * cards.len()) by (nonlinear_arith)
            requires
                i + 1 <= cards.len(),
                0 <= b,
        ;
        lemma_all_chosen(cards, order, i + 1, filled, top_n, max, b);
        let rest = matcher::chosen(cards, order, i + 1, filled, i + 1, top_n, max);
        let r = matcher::chosen(cards, order, i, used, i, top_n, max);
        assert(r == seq![(c.title, c.content)] + rest);
        assert forall|k: int| 0 <= k < r.len() implies #[trigger] r[k] == (
            cards[order[i + k]].title,
            cards[order[i + k]].content,
        ) by {
            if k > 0 {
                assert(r[k] == rest[k - 1]);
            }
        }
    }
}

/// The largest card.
spec fn largest(cards: Seq<KnowledgeCardView>) -> int
    decreases cards.len(),
{
    if cards.len() == 0 {
        0
    } else {
        let m = largest(cards.drop_last());
        let c = (cards.last().title.len() + cards.last().content.len()) as int;
        if c > m {
            c
        } else {
            m
        }
    }
}

/// The largest card is one of the cards, and none is larger.
proof fn lemma_largest(cards: Seq<KnowledgeCardView>)
    ensures
        0 <= largest(cards),
        forall|k: int|
            0 <= k < cards.len() ==> (#[trigger] cards[k]).title.len() + cards[k].content.len()
                <= largest(cards),
        largest(cards) == 0 || exists|k: int|
            0 <= k < cards.len() && (#[trigger] cards[k]).title.len() + cards[k].content.len()
                == largest(cards),
    decreases cards.len(),
{
    if cards.len() > 0 {
        let init = cards.drop_last();
        lemma_largest(init);
        assert forall|k: int| 0 <= k < cards.len() implies (#[trigger] cards[k]).title.len()
            + cards[k].content.len() <= largest(cards) by {
            if k < init.len() {
                assert(init[k] == cards[k]);
            }
        }
        if largest(cards) == largest(init) {
            if largest(init) != 0 {
                let k = choose|k: int|
                    0 <= k < init.len() && (#[trigger] init[k]).title.len() + init[k].content.len()
                        == largest(init);
                assert(cards[k].title.len() + cards[k].content.len() == largest(cards));
            }
        } else {
            let k = cards.len() - 1;
            assert(cards[k].title.len() + cards[k].content.len() == largest(cards));
        }
    }
}

/// With room for all, a card is given just if it has at least three half
/// points.
proof fn lemma_given(
    cards: Seq<KnowledgeCardView>,
    query: Seq<char>,
    x: int,
    top_n: int,
    max: int,
)
    requires
        0 <= x < cards.len(),
        room_for_all(cards, top_n, max),
        matcher::scores(query, cards)[x] >= 3,
    ensures
        matcher::matches_for(cards, query, top_n, max).contains(
            (cards[x].title, cards[x].content),
        ),
{
    let scores = matcher::scores(query, cards);
    let order = matcher::best_first(scores);
    lemma_considered(scores, x);
    lemma_largest(cards);
    let b = largest(cards);
    if b > 0 {
        let k = choose|k: int|
            0 <= k < cards.len() && (#[trigger] cards[k]).title.len() + cards[k].content.len()
                == b;
        assert((cards[k].title.len() + cards[k].content.len()) * cards.len() <= max);
    } else {
        assert((cards[x].title.len() + cards[x].content.len()) * cards.len() <= max);
        assert(b * cards.len() == 0) by (nonlinear_arith)
            requires
                b == 0,
        ;
        assert((cards[x].title.len() + cards[x].content.len()) * cards.len() >= 0)
            by (nonlinear_arith);
    }
    lemma_all_chosen(cards, order, 0, 0, top_n, max, b);
    let p = order.index_of(x);
    let r = matcher::matches_for(cards, query, top_n, max);
    assert(r[p] == (cards[x].title, cards[x].content));
}

/// The case of a question does not count: two questions that are the same in
/// lower case find the same cards. So does a question in lower case, as far as
/// lowering it again changes nothing.
pub proof fn law_case_does_not_count(
    cards: Seq<KnowledgeCardView>,
    query: Seq<char>,
    other: Seq<char>,
    top_n: int,
    max: int,
)
    ensures
        strings::lowercase(query) == strings::lowercase(other) ==> matcher::matches_for(
            cards,
            query,
            top_n,
            max,
        ) == matcher::matches_for(cards, other, top_n, max),
        strings::lowercase(strings::lowercase(query)) == strings::lowercase(query)
            ==> matcher::matches_for(cards, strings::lowercase(query), top_n, max)
            == matcher::matches_for(cards, query, top_n, max),
{
}

/// A card is found by each of its keys and by each word of a key, whatever the
/// case: it gets at least six half points, and is given if there is room.
pub proof fn law_found_by_key(
    cards: Seq<KnowledgeCardView>,
    query: Seq<char>,
    x: int,
    w: Seq<char>,
    j: int,
    top_n: int,
    max: int,
)
    requires
        0 <= x < cards.len(),
        asks_for_key(query, cards[x], w, j),
    ensures
        matcher::scores(query, cards)[x] >= 6,
        room_for_all(cards, top_n, max) ==> matcher::matches_for(
            cards,
            query,
            top_n,
            max,
        ).contains((cards[x].title, cards[x].content)),
{
    let c = cards[x];
    let words = matcher::tokens(query);
    lemma_tokens(query, w);
    lemma_exact_key(c.keys[j], w);
    lemma_exact_keys(c.keys, w);
    lemma_count_in(words, matcher::exact_keys(c.keys));
    assert(words.contains(w));
    let n = matcher::count_in(words, matcher::exact_keys(c.keys));
    assert(n >= 1);
    assert(n * 6 >= 6);
    if room_for_all(cards, top_n, max) {
        lemma_given(cards, query, x, top_n, max);
    }
}

/// A stem that the question shares with a text is among the stems of both.
proof fn lemma_shared_stem(query: Seq<char>, s: Seq<char>, x: Seq<char>)
    ensures
        shares_stem(query, s, x) <==> matcher::stems(
            matcher::long_tokens(matcher::tokens(query)),
        ).contains(x) && matcher::stems(matcher::long_words(s)).contains(x),
{
    let asked = matcher::long_tokens(matcher::tokens(query));
    let low = matcher::long_words(s);
    lemma_stems(asked, x);
    lemma_stems(low, x);
    if shares_stem(query, s, x) {
        let (w, v) = choose|w: Seq<char>, v: Seq<char>|
            #[trigger] same_stem(query, s, w, v) && matcher::stem(w) == x;
        lemma_tokens(query, w);
        lemma_long_words(s, strings::lowercase(v));
        assert(asked.contains(w));
        assert(has_word(s, v, 3));
        assert(low.contains(strings::lowercase(v)));
    }
    if matcher::stems(asked).contains(x) && matcher::stems(low).contains(x) {
        let w = choose|w: Seq<char>| #[trigger] asked.contains(w) && matcher::stem(w) == x;
        let y = choose|y: Seq<char>| #[trigger] low.contains(y) && matcher::stem(y) == x;
        lemma_tokens(query, w);
        lemma_long_words(s, y);
        let v = choose|v: Seq<char>| #[trigger] has_word(s, v, 3) && strings::lowercase(v) == y;
        assert(same_stem(query, s, w, v));
    }
}

/// The stems of keys are those of each key.
proof fn lemma_key_stems(keys: Seq<Seq<char>>, x: Seq<char>)
    ensures
        matcher::stems(matcher::long_words_of_keys(keys)).contains(x) <==> exists|j: int|
            0 <= j < keys.len() && matcher::stems(
                #[trigger] matcher::long_words(keys[j]),
            ).contains(x),
{
    let all = matcher::long_words_of_keys(keys);
    lemma_stems(all, x);
    if matcher::stems(all).contains(x) {
        let w = choose|w: Seq<char>| #[trigger] all.contains(w) && matcher::stem(w) == x;
        lemma_long_words_of_keys(keys, w);
        let j = choose|j: int|
            0 <= j < keys.len() && #[trigger] matcher::long_words(keys[j]).contains(w);
        lemma_stems(matcher::long_words(keys[j]), x);
    }
    if exists|j: int|
        0 <= j < keys.len() && matcher::stems(#[trigger] matcher::long_words(keys[j])).contains(
            x,
        ) {
        let j = choose|j: int|
            0 <= j < keys.len() && matcher::stems(
                #[trigger] matcher::long_words(keys[j]),
            ).contains(x);
        lemma_stems(matcher::long_words(keys[j]), x);
        let w = choose|w: Seq<char>|
            #[trigger] matcher::long_words(keys[j]).contains(w) && matcher::stem(w) == x;
        lemma_long_words_of_keys(keys, w);
        assert(all.contains(w));
    }
}

/// A card is found by a word of a key in another form: the stems are the same,
/// whatever the case.
pub proof fn law_found_by_key_stem(
    cards: Seq<KnowledgeCardView>,
    query: Seq<char>,
    x: int,
    j: int,
    w: Seq<char>,
    v: Seq<char>,
    top_n: int,
    max: int,
)
    requires
        0 <= x < cards.len(),
        0 <= j < cards[x].keys.len(),
        same_stem(query, cards[x].keys[j], w, v),
    ensures
        matcher::scores(query, cards)[x] >= 4,
        room_for_all(cards, top_n, max) ==> matcher::matches_for(
            cards,
            query,
            top_n,
            max,
        ).contains((cards[x].title, cards[x].content)),
{
    let c = cards[x];
    let st = matcher::stem(w);
    assert(shares_stem(query, c.keys[j], st));
    lemma_shared_stem(query, c.keys[j], st);
    lemma_key_stems(c.keys, st);
    let asked = matcher::stems(matcher::long_tokens(matcher::tokens(query)));
    let known = matcher::stems(matcher::long_words_of_keys(c.keys));
    lemma_stems(matcher::long_tokens(matcher::tokens(query)), st);
    assert(matcher::stems(matcher::long_words(c.keys[j])).contains(st));
    let both = asked.intersect(known);
    assert(both.contains(st));
    assert(both.len() >= 1);
    assert(both.len() * 4 >= 4);
    if room_for_all(cards, top_n, max) {
        lemma_given(cards, query, x, top_n, max);
    }
}

/// Three different members make a set of at least three.
proof fn lemma_three(s: Set<Seq<char>>, a: Seq<char>, b: Seq<char>, c: Seq<char>)
    requires
        s.finite(),
        s.contains(a) && s.contains(b) && s.contains(c),
        a != b && b != c && a != c,
    ensures
        s.len() >= 3,
{
    assert(s.remove(a).contains(b));
    assert(s.remove(a).remove(b).contains(c));
    assert(s.remove(a).remove(b).len() >= 1);
}

/// A set of at least three has three different members.
proof fn lemma_three_of(s: Set<Seq<char>>) -> (r: (Seq<char>, Seq<char>, Seq<char>))
    requires
        s.finite(),
        s.len() >= 3,
    ensures
        s.contains(r.0) && s.contains(r.1) && s.contains(r.2),
        r.0 != r.1 && r.1 != r.2 && r.0 != r.2,
{
    let a = s.choose();
    let t = s.remove(a);
    assert(s.contains(a));
    let b = t.choose();
    let u = t.remove(b);
    assert(t.contains(b));
    let c = u.choose();
    assert(u.contains(c));
    (a, b, c)
}

/// A card is found by three different words of its content, whatever their form
/// and case.
pub proof fn law_found_by_content(
    cards: Seq<KnowledgeCardView>,
    query: Seq<char>,
    x: int,
    a: Seq<char>,
    b: Seq<char>,
    c: Seq<char>,
    top_n: int,
    max: int,
)
    requires
        0 <= x < cards.len(),
        a != b && b != c && a != c,
        shares_stem(query, cards[x].content, a),
        shares_stem(query, cards[x].content, b),
        shares_stem(query, cards[x].content, c),
    ensures
        matcher::scores(query, cards)[x] >= 3,
        room_for_all(cards, top_n, max) ==> matcher::matches_for(
            cards,
            query,
            top_n,
            max,
        ).contains((cards[x].title, cards[x].content)),
{
    let content = cards[x].content;
    lemma_shared_stem(query, content, a);
    lemma_shared_stem(query, content, b);
    lemma_shared_stem(query, content, c);
    let asked = matcher::stems(matcher::long_tokens(matcher::tokens(query)));
    let known = matcher::stems(matcher::long_words(content));
    lemma_stems(matcher::long_tokens(matcher::tokens(query)), a);
    lemma_three(asked.intersect(known), a, b, c);
    if room_for_all(cards, top_n, max) {
        lemma_given(cards, query, x, top_n, max);
    }
}

/// A card has to do with a question: they share a key, a word of a key but for
/// its ending, or three different words of the content but for their endings.
pub open spec fn has_to_do(query: Seq<char>, c: KnowledgeCardView) -> bool {
    ||| exists|w: Seq<char>, j: int| asks_for_key(query, c, w, j)
    ||| exists|j: int, x: Seq<char>|
        0 <= j < c.keys.len() && #[trigger] shares_stem(query, c.keys[j], x)
    ||| exists|x: Seq<char>, y: Seq<char>, z: Seq<char>|
        x != y && y != z && x != z && #[trigger] shares_stem(query, c.content, x)
            && #[trigger] shares_stem(query, c.content, y) && #[trigger] shares_stem(
            query,
            c.content,
            z,
        )
}

/// What is found is a card of the base that has to do with the question.
pub proof fn law_matches_are_relevant(
    cards: Seq<KnowledgeCardView>,
    query: Seq<char>,
    top_n: nat,
    max: nat,
    k: int,
)
    requires
        0 <= k < matcher::matches_for(cards, query, top_n as int, max as int).len(),
    ensures
        exists|x: int|
            0 <= x < cards.len() && matcher::matches_for(
                cards,
                query,
                top_n as int,
                max as int,
            )[k] == ((#[trigger] cards[x]).title, cards[x].content) && has_to_do(query, cards[x]),
{
    let scores = matcher::scores(query, cards);
    let order = matcher::best_first(scores);
    matcher::law_matches_fit(cards, query, top_n, max);
    let x = order[k];
    if cards.len() == 0 {
        assert(matcher::candidates(scores, 0).len() == 0);
    }
    lemma_considered(scores, 0);
    lemma_considered(scores, x);
    assert(order.contains(x));
    let c = cards[x];
    let words = matcher::tokens(query);
    let asked = matcher::stems(matcher::long_tokens(words));
    let exact = matcher::exact_keys(c.keys);
    let keys = matcher::stems(matcher::long_words_of_keys(c.keys));
    let content = matcher::stems(matcher::long_words(c.content));
    assert(scores[x] == matcher::score(words, asked, matcher::index_of(c)));
    lemma_stems(matcher::long_tokens(words), Seq::empty());
    let n = matcher::count_in(words, exact);
    let both = asked.intersect(keys);
    let told = asked.intersect(content);
    lemma_count_in(words, exact);
    if n > 0 {
        let w = choose|w: Seq<char>| #[trigger] words.contains(w) && exact.contains(w);
        lemma_tokens(query, w);
        lemma_exact_keys(c.keys, w);
        let j = choose|j: int|
            0 <= j < c.keys.len() && #[trigger] matcher::exact_key(c.keys[j]).contains(w);
        lemma_exact_key(c.keys[j], w);
        assert(asks_for_key(query, c, w, j));
    } else if both.len() > 0 {
        let st = both.choose();
        assert(both.contains(st));
        lemma_key_stems(c.keys, st);
        let j = choose|j: int|
            0 <= j < c.keys.len() && matcher::stems(
                #[trigger] matcher::long_words(c.keys[j]),
            ).contains(st);
        lemma_shared_stem(query, c.keys[j], st);
        assert(shares_stem(query, c.keys[j], st));
    } else {
        assert(n == 0 && both.len() == 0);
        assert(n * matcher::KEY_SCORE as nat == 0) by (nonlinear_arith)
            requires
                n == 0,
        ;
        assert(told.len() >= 3);
        let (a, b, d) = lemma_three_of(told);
        lemma_shared_stem(query, c.content, a);
        lemma_shared_stem(query, c.content, b);
        lemma_shared_stem(query, c.content, d);
        assert(shares_stem(query, c.content, a) && shares_stem(query, c.content, b)
            && shares_stem(query, c.content, d));
    }
}

/// A key counts six half points each time that the question has it, a stem of
/// the keys four and a stem of the content one.
pub proof fn law_weights(cards: Seq<KnowledgeCardView>, query: Seq<char>, x: int)
    requires
        0 <= x < cards.len(),
    ensures
        ({
            let words = matcher::tokens(query);
            let asked = matcher::stems(matcher::long_tokens(words));
            let in_keys = asked.intersect(
                matcher::stems(matcher::long_words_of_keys(cards[x].keys)),
            );
            let in_content = asked.intersect(matcher::stems(matcher::long_words(cards[x].content)));
            matcher::scores(query, cards)[x] == 6 * matcher::count_in(
                words,
                matcher::exact_keys(cards[x].keys),
            ) + 4 * in_keys.len() + in_content.len()
        }),
{
}

/// The words of a question are its pieces of two characters or more in lower
/// case between what is neither a letter nor a number. Each counts as often as
/// it stands there.
pub proof fn law_words_count_each_time(query: Seq<char>, set: Set<Seq<char>>)
    ensures
        matcher::tokens(query) == strings::split_min(
            strings::lowercase(query),
            Separator::NonAlphanumeric,
            2,
        ),
        matcher::count_in(matcher::tokens(query), set) == matcher::tokens(query).filter(
            |w: Seq<char>| set.contains(w),
        ).len(),
{
    lemma_counted(matcher::tokens(query), set);
}

/// Counting is picking.
proof fn lemma_counted(words: Seq<Seq<char>>, set: Set<Seq<char>>)
    ensures
        matcher::count_in(words, set) == words.filter(|w: Seq<char>| set.contains(w)).len(),
    decreases words.len(),
{
    reveal(Seq::filter);
    if words.len() > 0 {
        lemma_counted(words.drop_last(), set);
    }
}

/// A card is a candidate from three half points on.
pub proof fn law_candidates(scores: Seq<nat>, x: int)
    requires
        forall|i: int| 0 <= i < scores.len() ==> #[trigger] scores[i] <= i128::MAX,
        0 <= x < scores.len(),
    ensures
        matcher::best_first(scores).contains(x) <==> scores[x] >= 3,
{
    matcher::law_best_first(scores);
}

} // verus!
