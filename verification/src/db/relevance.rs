//! Which fragments of guides a search finds, in terms of the words of titles and
//! texts.

use vstd::prelude::*;

use crate::db::guides;
use crate::db::guides::ChunkView;
use crate::db::guides::GuideRowView;
use crate::sort;
use crate::strings;
use crate::text;

verus! {

/// The word is asked for, and the text in lower case holds it as a maximal run of
/// at least three letters and digits.
pub open spec fn asked_in(s: Seq<char>, words: Set<Seq<char>>, w: Seq<char>) -> bool {
    &&& words.contains(w)
    &&& w.len() >= 3
    &&& strings::is_run(strings::lowercase(s), |c: char| !strings::alphanumeric(c), w)
}

/// The words of a text that are asked for.
pub open spec fn shared_words(s: Seq<char>, words: Set<Seq<char>>) -> Set<Seq<char>> {
    Set::new(|w: Seq<char>| asked_in(s, words, w))
}

/// There is room for all fragments.
pub open spec fn room_for_all(rows: Seq<GuideRowView>, budget: int) -> bool {
    forall|g: int, j: int|
        0 <= g < rows.len() && 0 <= j < rows[g].chunks.len() ==> (#[trigger] rows[g].chunks[j]).len()
            * guides::all_chunks(rows).len() < budget
}

/// The words of a text that are asked for are those that it shares.
proof fn lemma_shared(s: Seq<char>, words: Set<Seq<char>>)
    ensures
        text::significant_words(s).intersect(words) == shared_words(s, words),
        text::significant_words(s).finite(),
        shared_words(s, words).finite(),
{
    assert forall|w: Seq<char>|
        text::significant_words(s).intersect(words).contains(w) == #[trigger] shared_words(
            s,
            words,
        ).contains(w) by {
        text::law_words_are_runs(s, w);
    }
    assert(text::significant_words(s).intersect(words) =~= shared_words(s, words));
    vstd::seq_lib::seq_to_set_is_finite(
        strings::split_min(
            strings::lowercase(s),
            strings::Separator::NonAlphanumeric,
            3,
        ),
    );
}

/// The word is asked for, and the fragment holds it in its title or in its text.
pub open spec fn asked_of(c: ChunkView, words: Set<Seq<char>>, w: Seq<char>) -> bool {
    asked_in(c.title, words, w) || asked_in(c.content, words, w)
}

/// How well a fragment answers: two points for each word of the title that is
/// asked for and one for each word of the text.
pub open spec fn points(c: ChunkView, words: Set<Seq<char>>) -> nat {
    2 * shared_words(c.title, words).len() + shared_words(c.content, words).len()
}

/// The score is the number of points.
proof fn lemma_points(c: ChunkView, words: Set<Seq<char>>)
    ensures
        guides::score(c, words) == points(c, words),
        guides::score(c, words) > 0 <==> exists|w: Seq<char>| #[trigger] asked_of(c, words, w),
{
    let a = shared_words(c.title, words);
    let b = shared_words(c.content, words);
    lemma_shared(c.title, words);
    lemma_shared(c.content, words);
    if exists|w: Seq<char>| #[trigger] asked_of(c, words, w) {
        let w = choose|w: Seq<char>| #[trigger] asked_of(c, words, w);
        if asked_in(c.title, words, w) {
            assert(a.contains(w));
            assert(a.len() > 0);
        } else {
            assert(b.contains(w));
            assert(b.len() > 0);
        }
    }
    if a.len() > 0 {
        assert(a.contains(a.choose()));
        assert(asked_of(c, words, a.choose()));
    }
    if b.len() > 0 {
        assert(b.contains(b.choose()));
        assert(asked_of(c, words, b.choose()));
    }
}

/// The fragment at a place.
pub open spec fn fragment(rows: Seq<GuideRowView>, g: int, j: int) -> ChunkView {
    ChunkView { title: rows[g].title, index: j, content: rows[g].chunks[j] }
}

/// A fragment of one of the guides.
pub open spec fn is_fragment(rows: Seq<GuideRowView>, c: ChunkView) -> bool {
    exists|g: int, j: int|
        0 <= g < rows.len() && 0 <= j < rows[g].chunks.len() && c == #[trigger] fragment(rows, g, j)
}

/// The fragments of a guide are its chunks in order.
proof fn lemma_chunks_of(g: GuideRowView, k: int)
    requires
        0 <= k <= g.chunks.len(),
    ensures
        guides::chunks_of(g, k).len() == k,
        forall|j: int|
            0 <= j < k ==> #[trigger] guides::chunks_of(g, k)[j] == (ChunkView {
                title: g.title,
                index: j,
                content: g.chunks[j],
            }),
    decreases k,
{
    if k > 0 {
        lemma_chunks_of(g, k - 1);
    }
}

/// Every fragment of every guide is there, and nothing else.
proof fn lemma_all_chunks(rows: Seq<GuideRowView>)
    ensures
        forall|g: int, j: int|
            0 <= g < rows.len() && 0 <= j < rows[g].chunks.len() ==> guides::all_chunks(
                rows,
            ).contains(#[trigger] fragment(rows, g, j)),
        forall|p: int|
            0 <= p < guides::all_chunks(rows).len() ==> is_fragment(
                rows,
                #[trigger] guides::all_chunks(rows)[p],
            ),
    decreases rows.len(),
{
    if rows.len() > 0 {
        let init = rows.drop_last();
        let last = rows.last();
        lemma_all_chunks(init);
        lemma_chunks_of(last, last.chunks.len() as int);
        let a = guides::all_chunks(init);
        let b = guides::chunks_of(last, last.chunks.len() as int);
        let all = guides::all_chunks(rows);
        assert(all == a + b);
        assert forall|g: int, j: int|
            0 <= g < rows.len() && 0 <= j < rows[g].chunks.len() implies all.contains(
            #[trigger] fragment(rows, g, j),
        ) by {
            let c = fragment(rows, g, j);
            if g < init.len() {
                assert(c == fragment(init, g, j));
                let p = a.index_of(c);
                assert(all[p] == c);
            } else {
                assert(b[j] == c);
                assert(all[a.len() + j] == c);
            }
        }
        assert forall|p: int| 0 <= p < all.len() implies is_fragment(rows, #[trigger] all[p]) by {
            if p < a.len() {
                assert(all[p] == a[p]);
                assert(is_fragment(init, a[p]));
                let (g, j) = choose|g: int, j: int|
                    0 <= g < init.len() && 0 <= j < init[g].chunks.len() && a[p]
                        == #[trigger] fragment(init, g, j);
                assert(fragment(rows, g, j) == all[p]);
            } else {
                assert(all[p] == b[p - a.len()]);
                assert(fragment(rows, rows.len() - 1, p - a.len()) == all[p]);
            }
        }
    }
}

/// The hits are the fragments with points.
proof fn lemma_hits(chunks: Seq<ChunkView>, words: Set<Seq<char>>, c: ChunkView)
    ensures
        guides::hits(chunks, words).len() <= chunks.len(),
        guides::hits(chunks, words).contains(c) <==> chunks.contains(c) && guides::score(c, words)
            > 0,
    decreases chunks.len(),
{
    if chunks.len() > 0 {
        let init = chunks.drop_last();
        lemma_hits(init, words, c);
        let rest = guides::hits(init, words);
        let r = guides::hits(chunks, words);
        if rest.contains(c) {
            let k = rest.index_of(c);
            assert(r[k] == c);
        }
        if init.contains(c) {
            let k = init.index_of(c);
            assert(chunks[k] == c);
        }
        if chunks.last() == c {
            assert(chunks[chunks.len() - 1] == c);
            if guides::score(c, words) > 0 {
                assert(r[r.len() - 1] == c);
            }
        }
        if chunks.contains(c) && chunks.last() != c {
            let k = chunks.index_of(c);
            assert(init[k] == c);
        }
        if r.contains(c) && chunks.last() != c {
            let k = r.index_of(c);
            if k < rest.len() {
                assert(rest[k] == c);
            }
        }
    }
}

/// Ordering fragments loses none and brings none in.
proof fn lemma_best_first(chunks: Seq<ChunkView>, words: Set<Seq<char>>, c: ChunkView)
    ensures
        guides::best_first(chunks, words).len() == chunks.len(),
        guides::best_first(chunks, words).contains(c) <==> chunks.contains(c),
{
    let n = chunks.len() as int;
    let before = sort::score_before(guides::ranks(chunks, words));
    let order = sort::ranked(n, before);
    let r = guides::best_first(chunks, words);
    sort::law_ranked_permutation(n, before);
    if chunks.contains(c) {
        let k = chunks.index_of(c);
        assert(order.contains(k));
        let p = order.index_of(k);
        assert(r[p] == c);
    }
    if r.contains(c) {
        let p = r.index_of(c);
        assert(0 <= order[p] < n);
        assert(chunks[order[p]] == c);
    }
}

/// The pair is one of the fragments from `i` on.
spec fn one_of(chunks: Seq<ChunkView>, i: int, x: (Seq<char>, Seq<char>)) -> bool {
    exists|p: int|
        i <= p < chunks.len() && x == ((#[trigger] chunks[p]).title, chunks[p].content)
}

/// What is picked are fragments in order; with room for all, all of them.
proof fn lemma_picked(
    chunks: Seq<ChunkView>,
    i: int,
    used: int,
    budget: int,
    b: int,
    room: bool,
    n: int,
)
    requires
        0 <= i <= chunks.len() <= n,
        room ==> 0 <= b && used <= i * b && b * n < budget && forall|k: int|
            0 <= k < chunks.len() ==> (#[trigger] chunks[k]).content.len() <= b,
    ensures
        ({
            let r = guides::picked(chunks, i, used, budget);
            &&& forall|k: int| 0 <= k < r.len() ==> one_of(chunks, i, #[trigger] r[k])
            &&& room ==> forall|p: int|
                i <= p < chunks.len() ==> r.contains(((#[trigger] chunks[p]).title, chunks[p].content))
        }),
    decreases chunks.len() - i,
{
    if i < chunks.len() {
        let c = chunks[i];
        let filled = used + c.content.len();
        let r = guides::picked(chunks, i, used, budget);
        if room {
            assert(filled <= (i + 1) * b) by (nonlinear_arith)
                requires
                    used <= i * b,
                    filled <= used + b,
            ;
            assert((i + 1) * b <= b * n) by (nonlinear_arith)
                requires
                    i + 1 <= n,
                    0 <= b,
            ;
        }
        if filled > budget {
            lemma_picked(chunks, i + 1, used, budget, b, false, n);
            let rest = guides::picked(chunks, i + 1, used, budget);
            assert(r == rest);
            assert forall|k: int| 0 <= k < r.len() implies one_of(chunks, i, #[trigger] r[k]) by {
                assert(one_of(chunks, i + 1, rest[k]));
            }
        } else if filled >= budget {
            assert(r[0] == (chunks[i].title, chunks[i].content));
            assert(one_of(chunks, i, r[0]));
        } else {
            lemma_picked(chunks, i + 1, filled, budget, b, room, n);
            let rest = guides::picked(chunks, i + 1, filled, budget);
            assert forall|k: int| 0 <= k < r.len() implies one_of(chunks, i, #[trigger] r[k]) by {
                if k == 0 {
                    assert(r[0] == (chunks[i].title, chunks[i].content));
                } else {
                    assert(r[k] == rest[k - 1]);
                    assert(one_of(chunks, i + 1, rest[k - 1]));
                    let p = choose|p: int|
                        i + 1 <= p < chunks.len() && rest[k - 1] == (
                            (#[trigger] chunks[p]).title,
                            chunks[p].content,
                        );
                    assert(r[k] == (chunks[p].title, chunks[p].content));
                }
            }
            if room {
                assert forall|p: int| i <= p < chunks.len() implies r.contains(
                    ((#[trigger] chunks[p]).title, chunks[p].content),
                ) by {
                    let x = (chunks[p].title, chunks[p].content);
                    if p == i {
                        assert(r[0] == x);
                    } else {
                        let k = rest.index_of(x);
                        assert(rest.contains(x));
                        assert(r[k + 1] == x);
                    }
                }
            }
        }
    }
}

/// The longest fragment.
spec fn longest(chunks: Seq<ChunkView>) -> int
    decreases chunks.len(),
{
    if chunks.len() == 0 {
        0
    } else {
        let m = longest(chunks.drop_last());
        if chunks.last().content.len() > m {
            chunks.last().content.len() as int
        } else {
            m
        }
    }
}

/// The longest fragment is one of them, and none is longer.
proof fn lemma_longest(chunks: Seq<ChunkView>)
    ensures
        0 <= longest(chunks),
        forall|k: int|
            0 <= k < chunks.len() ==> (#[trigger] chunks[k]).content.len() <= longest(chunks),
        chunks.len() > 0 ==> exists|k: int|
            0 <= k < chunks.len() && (#[trigger] chunks[k]).content.len() == longest(chunks),
    decreases chunks.len(),
{
    if chunks.len() > 0 {
        let init = chunks.drop_last();
        lemma_longest(init);
        assert forall|k: int| 0 <= k < chunks.len() implies (#[trigger] chunks[k]).content.len()
            <= longest(chunks) by {
            if k < init.len() {
                assert(init[k] == chunks[k]);
            }
        }
        if chunks.last().content.len() > longest(init) || init.len() == 0 {
            assert(chunks[chunks.len() - 1].content.len() == longest(chunks));
        } else {
            let k = choose|k: int|
                0 <= k < init.len() && (#[trigger] init[k]).content.len() == longest(init);
            assert(chunks[k].content.len() == longest(chunks));
        }
    }
}

/// A fragment is found by a word of the title of its guide and by a word of its
/// text, whatever their case, if there is room.
pub proof fn law_found_by_word(
    rows: Seq<GuideRowView>,
    words: Set<Seq<char>>,
    g: int,
    j: int,
    w: Seq<char>,
    budget: int,
)
    requires
        words.finite(),
        0 <= g < rows.len(),
        0 <= j < rows[g].chunks.len(),
        asked_in(rows[g].title, words, w) || asked_in(rows[g].chunks[j], words, w),
    ensures
        guides::hits(guides::all_chunks(rows), words).contains(fragment(rows, g, j)),
        room_for_all(rows, budget) ==> guides::found(rows, words, budget).contains(
            (rows[g].title, rows[g].chunks[j]),
        ),
{
    let c = fragment(rows, g, j);
    let all = guides::all_chunks(rows);
    lemma_all_chunks(rows);
    lemma_points(c, words);
    lemma_hits(all, words, c);
    assert(asked_of(c, words, w));
    assert(words.contains(w));
    if room_for_all(rows, budget) {
        let h = guides::hits(all, words);
        let order = guides::best_first(h, words);
        lemma_best_first(h, words, c);
        lemma_longest(order);
        let p = order.index_of(c);
        let k = choose|k: int|
            0 <= k < order.len() && (#[trigger] order[k]).content.len() == longest(order);
        assert(order.contains(order[k]));
        lemma_best_first(h, words, order[k]);
        lemma_hits(all, words, order[k]);
        let q = all.index_of(order[k]);
        assert(is_fragment(rows, all[q]));
        let (a, b) = choose|a: int, b: int|
            0 <= a < rows.len() && 0 <= b < rows[a].chunks.len() && all[q] == #[trigger] fragment(
                rows,
                a,
                b,
            );
        assert(rows[a].chunks[b].len() * all.len() < budget);
        lemma_picked(order, 0, 0, budget, longest(order), true, all.len() as int);
        assert(guides::found(rows, words, budget).contains((order[p].title, order[p].content)));
    }
}

/// What is found is a fragment of a guide that holds a word that is asked for, in
/// its title or in its text.
pub proof fn law_found_is_asked_for(
    rows: Seq<GuideRowView>,
    words: Set<Seq<char>>,
    budget: int,
    k: int,
)
    requires
        0 <= k < guides::found(rows, words, budget).len(),
    ensures
        exists|g: int, j: int, w: Seq<char>|
            0 <= g < rows.len() && 0 <= j < rows[g].chunks.len() && guides::found(
                rows,
                words,
                budget,
            )[k] == (rows[g].title, rows[g].chunks[j]) && #[trigger] asked_of(
                fragment(rows, g, j),
                words,
                w,
            ),
{
    let all = guides::all_chunks(rows);
    let h = guides::hits(all, words);
    let order = guides::best_first(h, words);
    let r = guides::found(rows, words, budget);
    lemma_picked(order, 0, 0, budget, 0, false, order.len() as int);
    assert(one_of(order, 0, r[k]));
    let p = choose|p: int|
        0 <= p < order.len() && r[k] == ((#[trigger] order[p]).title, order[p].content);
    let c = order[p];
    assert(order.contains(c));
    lemma_best_first(h, words, c);
    lemma_hits(all, words, c);
    lemma_points(c, words);
    lemma_all_chunks(rows);
    let q = all.index_of(c);
    assert(is_fragment(rows, all[q]));
    let (g, j) = choose|g: int, j: int|
        0 <= g < rows.len() && 0 <= j < rows[g].chunks.len() && all[q] == #[trigger] fragment(
            rows,
            g,
            j,
        );
    let w = choose|w: Seq<char>| #[trigger] asked_of(c, words, w);
    assert(asked_of(fragment(rows, g, j), words, w));
}

/// Fragments are considered by their points: a word of the title that is asked
/// for counts two, one of the text counts one. Equal ones are considered by
/// their places.
pub proof fn law_points_decide(chunks: Seq<ChunkView>, words: Set<Seq<char>>, i: int, j: int)
    requires
        forall|k: int|
            0 <= k < chunks.len() ==> points(#[trigger] chunks[k], words) <= i128::MAX && 0
                <= chunks[k].index <= i64::MAX,
        0 <= i < j < chunks.len(),
    ensures
        ({
            let a = guides::best_first(chunks, words)[i];
            let b = guides::best_first(chunks, words)[j];
            points(a, words) > points(b, words) || (points(a, words) == points(b, words) && a.index
                <= b.index)
        }),
{
    assert forall|k: int| 0 <= k < chunks.len() implies guides::score(#[trigger] chunks[k], words)
        <= i128::MAX && 0 <= chunks[k].index <= i64::MAX by {
        lemma_points(chunks[k], words);
    }
    guides::law_search_best_first(chunks, words);
    lemma_points(guides::best_first(chunks, words)[i], words);
    lemma_points(guides::best_first(chunks, words)[j], words);
}

/// What is picked, and what is passed over for want of room.
proof fn lemma_passed_over(chunks: Seq<ChunkView>, i: int, used: int, budget: int, p: int)
    requires
        0 <= i <= p < chunks.len(),
    ensures
        ({
            let r = guides::picked(chunks, i, used, budget);
            let filled = used + guides::found_chars(r);
            ||| r.contains((chunks[p].title, chunks[p].content))
            ||| filled >= budget
            ||| filled + chunks[p].content.len() > budget
        }),
    decreases chunks.len() - i,
{
    let c = chunks[i];
    let first = (c.title, c.content);
    let filled = used + c.content.len();
    let r = guides::picked(chunks, i, used, budget);
    if filled > budget {
        if p > i {
            lemma_passed_over(chunks, i + 1, used, budget, p);
        }
    } else if filled >= budget {
        let none = Seq::<(Seq<char>, Seq<char>)>::empty();
        assert(r =~= seq![first]);
        assert(r.drop_first() =~= none);
        assert(guides::found_chars(none) == 0);
    } else {
        let rest = guides::picked(chunks, i + 1, filled, budget);
        assert(r =~= seq![first] + rest);
        assert(r.drop_first() =~= rest);
        if p > i {
            lemma_passed_over(chunks, i + 1, filled, budget, p);
            let x = (chunks[p].title, chunks[p].content);
            if rest.contains(x) {
                let k = rest.index_of(x);
                assert(r[k + 1] == x);
            }
        } else {
            assert(r[0] == first);
        }
    }
}

/// A fragment that holds a word that is asked for, in its title or in its text,
/// is left out only for want of room: the search has filled its budget, or what
/// it found and the fragment together exceed it.
pub proof fn law_left_out_for_want_of_room(
    rows: Seq<GuideRowView>,
    words: Set<Seq<char>>,
    g: int,
    j: int,
    w: Seq<char>,
    budget: int,
)
    requires
        words.finite(),
        0 <= g < rows.len(),
        0 <= j < rows[g].chunks.len(),
        asked_in(rows[g].title, words, w) || asked_in(rows[g].chunks[j], words, w),
    ensures
        ({
            let r = guides::found(rows, words, budget);
            ||| r.contains((rows[g].title, rows[g].chunks[j]))
            ||| guides::found_chars(r) >= budget
            ||| guides::found_chars(r) + rows[g].chunks[j].len() > budget
        }),
{
    let c = fragment(rows, g, j);
    let h = guides::hits(guides::all_chunks(rows), words);
    let order = guides::best_first(h, words);
    law_found_by_word(rows, words, g, j, w, budget);
    lemma_best_first(h, words, c);
    assert(words.contains(w));
    let p = order.index_of(c);
    lemma_passed_over(order, 0, 0, budget, p);
}

/// With room for all, the search gives every fragment that holds a word that is
/// asked for, the best first.
proof fn lemma_all_picked(chunks: Seq<ChunkView>, i: int, used: int, budget: int, b: int, n: int)
    requires
        0 <= i <= chunks.len() <= n,
        0 <= b,
        used <= i * b,
        b * n < budget,
        forall|k: int| 0 <= k < chunks.len() ==> (#[trigger] chunks[k]).content.len() <= b,
    ensures
        guides::picked(chunks, i, used, budget) == chunks.skip(i).map_values(
            |c: ChunkView| (c.title, c.content),
        ),
    decreases chunks.len() - i,
{
    if i < chunks.len() {
        let c = chunks[i];
        let filled = used + c.content.len();
        assert(filled <= (i + 1) * b) by (nonlinear_arith)
            requires
                used <= i * b,
                filled <= used + b,
        ;
        assert((i + 1) * b <= b * n) by (nonlinear_arith)
            requires
                i + 1 <= n,
                0 <= b,
        ;
        lemma_all_picked(chunks, i + 1, filled, budget, b, n);
        assert(chunks.skip(i).map_values(|c: ChunkView| (c.title, c.content)) =~= seq![
            (c.title, c.content),
        ] + chunks.skip(i + 1).map_values(|c: ChunkView| (c.title, c.content)));
    } else {
        assert(chunks.skip(i).map_values(|c: ChunkView| (c.title, c.content)) =~= Seq::empty());
    }
}

/// The search gives fragments in the order in which they are considered: with
/// room for all, every one.
pub proof fn law_found_in_order(rows: Seq<GuideRowView>, words: Set<Seq<char>>, budget: int, b: int)
    requires
        words.len() > 0,
        0 <= b,
        forall|k: int|
            0 <= k < guides::hits(guides::all_chunks(rows), words).len()
                ==> (#[trigger] guides::hits(guides::all_chunks(rows), words)[k]).content.len() <= b,
        b * guides::hits(guides::all_chunks(rows), words).len() < budget,
    ensures
        guides::found(rows, words, budget) == guides::best_first(
            guides::hits(guides::all_chunks(rows), words),
            words,
        ).map_values(|c: ChunkView| (c.title, c.content)),
{
    let hits = guides::hits(guides::all_chunks(rows), words);
    let best = guides::best_first(hits, words);
    let count = hits.len() as int;
    let order = sort::ranked(count, sort::score_before(guides::ranks(hits, words)));
    sort::law_ranked_permutation(count, sort::score_before(guides::ranks(hits, words)));
    assert forall|k: int| 0 <= k < best.len() implies (#[trigger] best[k]).content.len() <= b by {
        assert(0 <= order[k] < count);
        assert(best[k] == hits[order[k]]);
    }
    lemma_all_picked(best, 0, 0, budget, b, count);
    assert(best.skip(0) =~= best);
}

} // verus!
