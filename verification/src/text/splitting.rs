//! How texts are split, told by neighbouring pieces, and how sizes are written.

use vstd::prelude::*;

use crate::strings;
use crate::text;
use crate::utils::mentions;

verus! {

/// A text that fits into one message is sent as one, without the white space
/// around it.
pub proof fn law_short_texts(text: Seq<char>, limit: int)
    requires
        strings::byte_len(strings::trim(text)) <= limit,
    ensures
        text::telegram_chunks(text, limit) == seq![strings::trim(text)],
{
}

/// The last white space of a text is white, and none stands behind it.
proof fn lemma_last_white(s: Seq<char>)
    ensures
        match text::last_white(s) {
            Some(w) => 0 <= w < s.len() && strings::is_white(s[w]) && forall|i: int|
                w < i < s.len() ==> !strings::is_white(#[trigger] s[i]),
            None => forall|i: int| 0 <= i < s.len() ==> !strings::is_white(#[trigger] s[i]),
        },
    decreases s.len(),
{
    if s.len() > 0 && !strings::is_white(s.last()) {
        let init = s.drop_last();
        lemma_last_white(init);
        match text::last_white(init) {
            Some(w) => {
                assert(init[w] == s[w]);
                assert forall|i: int| w < i < s.len() implies !strings::is_white(#[trigger] s[i]) by {
                    if i < init.len() {
                        assert(init[i] == s[i]);
                    }
                }
            },
            None => {
                assert forall|i: int| 0 <= i < s.len() implies !strings::is_white(#[trigger] s[i]) by {
                    if i < init.len() {
                        assert(init[i] == s[i]);
                    }
                }
            },
        }
    }
}

/// As much as fits.
proof fn lemma_fitting(s: Seq<char>, limit: int)
    requires
        limit >= 0,
    ensures
        0 <= text::fitting(s, limit) <= s.len(),
        strings::byte_len(s.take(text::fitting(s, limit))) <= limit,
        text::fitting(s, limit) < s.len() ==> strings::byte_len(
            s.take(text::fitting(s, limit) + 1),
        ) > limit,
    decreases s.len(),
{
    assert(s.take(s.len() as int) =~= s);
    if s.len() > 0 && strings::byte_len(s) > limit {
        let init = s.drop_last();
        lemma_fitting(init, limit);
        let k = text::fitting(init, limit);
        assert(init.take(k) =~= s.take(k));
        if k < init.len() {
            assert(init.take(k + 1) =~= s.take(k + 1));
        } else {
            assert(s.take(k + 1) =~= s);
        }
    }
}

/// A paragraph that is too long is cut before white space, unless there is none in
/// the second half of what fits: then as much is taken as fits.
pub proof fn law_cuts_between_words(s: Seq<char>, limit: int)
    requires
        limit >= 0,
        strings::byte_len(s) > limit,
    ensures
        ({
            let k = text::cut_point(s, limit);
            let most = text::fitting(s, limit);
            &&& 0 <= k <= most < s.len()
            &&& strings::byte_len(s.take(most)) <= limit < strings::byte_len(s.take(most + 1))
            &&& k < most ==> strings::is_white(s[k]) && strings::byte_len(s.take(k)) >= limit / 2
                && forall|i: int| k < i < most ==> !strings::is_white(#[trigger] s[i])
            &&& k == most ==> forall|i: int|
                0 <= i < most && strings::byte_len(s.take(i)) >= limit / 2 ==> !strings::is_white(
                    #[trigger] s[i],
                )
        }),
{
    lemma_fitting(s, limit);
    let most = text::fitting(s, limit);
    assert(most < s.len()) by {
        assert(s.take(s.len() as int) =~= s);
    }
    let head = s.take(most);
    lemma_last_white(head);
    let k = text::cut_point(s, limit);
    match text::last_white(head) {
        Some(w) => {
            assert(head.take(w) =~= s.take(w));
            assert(head[w] == s[w]);
            if strings::byte_len(s.take(w)) >= limit / 2 {
                assert(k == w);
                assert forall|i: int| k < i < most implies !strings::is_white(#[trigger] s[i]) by {
                    assert(head[i] == s[i]);
                }
            } else {
                assert(k == most);
                assert forall|i: int|
                    0 <= i < most && strings::byte_len(s.take(i)) >= limit
                        / 2 implies !strings::is_white(#[trigger] s[i]) by {
                    assert(head[i] == s[i]);
                    if i <= w {
                        lemma_shorter(s, i, w);
                    }
                }
            }
        },
        None => {
            assert forall|i: int| 0 <= i < most implies !strings::is_white(#[trigger] s[i]) by {
                assert(head[i] == s[i]);
            }
        },
    }
}

/// A shorter start takes no more room.
proof fn lemma_shorter(s: Seq<char>, i: int, j: int)
    requires
        0 <= i <= j <= s.len(),
    ensures
        strings::byte_len(s.take(i)) <= strings::byte_len(s.take(j)),
{
    let rest = s.subrange(i, j);
    assert(s.take(j) =~= s.take(i) + rest);
    strings::lemma_byte_len_add(s.take(i), rest);
}

/// The message under construction or finished after the `i`th.
pub open spec fn next_message(p: text::Packing, i: int) -> Seq<char> {
    if i + 1 < p.done.len() {
        p.done[i + 1]
    } else {
        p.current
    }
}

/// Pieces are put together as long as they fit.
proof fn lemma_packed(pieces: Seq<Seq<char>>, limit: int)
    ensures
        ({
            let p = text::pack(pieces, limit);
            forall|i: int|
                0 <= i < p.done.len() ==> strings::byte_len(#[trigger] p.done[i]) + 2
                    + strings::byte_len(next_message(p, i)) > limit
        }),
    decreases pieces.len(),
{
    if pieces.len() > 0 {
        let before = text::pack(pieces.drop_last(), limit);
        lemma_packed(pieces.drop_last(), limit);
        let piece = pieces.last();
        let p = text::pack(pieces, limit);
        assert forall|i: int| 0 <= i < p.done.len() implies strings::byte_len(#[trigger] p.done[i])
            + 2 + strings::byte_len(next_message(p, i)) > limit by {
            if i < before.done.len() {
                assert(p.done[i] == before.done[i]);
                if i + 1 < before.done.len() {
                    assert(next_message(p, i) == next_message(before, i));
                } else if before.current.len() == 0 {
                    strings::lemma_byte_len_add(before.current, piece);
                    assert(before.current + piece =~= piece);
                } else if p.done.len() == before.done.len() {
                    let longer = before.current + text::paragraph_break() + piece;
                    strings::lemma_byte_len_add(before.current, text::paragraph_break() + piece);
                    assert(longer =~= before.current + (text::paragraph_break() + piece));
                } else {
                    assert(next_message(p, i) == before.current);
                }
            }
        }
    }
}

/// No message is split for nothing: two messages in a row with a blank line
/// between them would not fit into one.
pub proof fn law_messages_are_full(text: Seq<char>, limit: int, i: int)
    requires
        0 <= i < text::telegram_chunks(text, limit).len() - 1,
    ensures
        strings::byte_len(text::telegram_chunks(text, limit)[i]) + 2 + strings::byte_len(
            text::telegram_chunks(text, limit)[i + 1],
        ) > limit,
{
    let t = strings::trim(text);
    let pieces = text::all_pieces(strings::split_str(t, text::paragraph_break()), limit);
    let p = text::pack(pieces, limit);
    lemma_packed(pieces, limit);
    let r = text::telegram_chunks(text, limit);
    assert(r == p.finish());
    assert(r[i] == p.done[i]);
    assert(r[i + 1] == next_message(p, i));
}

/// The fragment under construction or finished after the `i`th.
pub open spec fn next_fragment(g: text::Fragments, i: int) -> Seq<char> {
    if i + 1 < g.done.len() {
        g.done[i + 1]
    } else {
        g.current
    }
}

/// Two fragments in a row belong apart.
pub open spec fn apart(a: Seq<char>, b: Seq<char>, target: int, hard: int) -> bool {
    a.len() + b.len() > target || a.len() + 2 + b.len() > hard
}

/// Paragraphs are put together as long as they fit.
proof fn lemma_gathered(paragraphs: Seq<Seq<char>>, target: int, hard: int)
    requires
        forall|i: int|
            0 <= i < paragraphs.len() ==> strings::trim(#[trigger] paragraphs[i]).len() <= hard,
    ensures
        ({
            let g = text::gather(paragraphs, target, hard);
            forall|i: int|
                0 <= i < g.done.len() ==> apart(
                    #[trigger] g.done[i],
                    next_fragment(g, i),
                    target,
                    hard,
                )
        }),
    decreases paragraphs.len(),
{
    if paragraphs.len() > 0 {
        let init = paragraphs.drop_last();
        assert forall|i: int| 0 <= i < init.len() implies strings::trim(#[trigger] init[i]).len()
            <= hard by {
            assert(init[i] == paragraphs[i]);
        }
        lemma_gathered(init, target, hard);
        let before = text::gather(init, target, hard);
        let p = strings::trim(paragraphs.last());
        assert(paragraphs[paragraphs.len() - 1] == paragraphs.last());
        assert(text::hard_heads(p, target, hard) =~= Seq::empty());
        assert(text::hard_tail(p, target, hard) == p);
        let g = text::gather(paragraphs, target, hard);
        assert(before.done + Seq::<Seq<char>>::empty() =~= before.done);
        assert forall|i: int| 0 <= i < g.done.len() implies apart(
            #[trigger] g.done[i],
            next_fragment(g, i),
            target,
            hard,
        ) by {
            if i < before.done.len() {
                assert(g.done[i] == before.done[i]);
                assert(apart(before.done[i], next_fragment(before, i), target, hard));
                if i + 1 < before.done.len() {
                    assert(next_fragment(g, i) == next_fragment(before, i));
                }
            }
        }
    }
}

/// Paragraphs within the hard limit are put together in one fragment as long as
/// they do not exceed the length aimed at: two fragments in a row together do, or
/// exceed the hard limit.
pub proof fn law_fragments_are_full(text: Seq<char>, target: int, hard: int, i: int)
    requires
        text::paragraphs_within(text, hard),
        0 <= i < text::guide_chunks(text, target, hard).len() - 1,
    ensures
        apart(
            text::guide_chunks(text, target, hard)[i],
            text::guide_chunks(text, target, hard)[i + 1],
            target,
            hard,
        ),
{
    let paragraphs = strings::split_str(strings::trim(text), text::paragraph_break());
    lemma_gathered(paragraphs, target, hard);
    let g = text::gather(paragraphs, target, hard);
    let r = text::guide_chunks(text, target, hard);
    assert(r == g.finish());
    assert(r[i] == g.done[i]);
    assert(r[i + 1] == next_fragment(g, i));
}

/// The number is the nearest to a quotient.
pub open spec fn nearest(t: nat, num: nat, den: nat) -> bool {
    -(den as int) < 2 * (t * den - num) < den
}

/// The nearest number is what rounding gives.
proof fn lemma_rounded(t: nat, num: nat, den: nat)
    requires
        den > 0,
        nearest(t, num, den),
    ensures
        text::round_half_even(num, den) == t,
{
    let q = num / den;
    let r = num % den;
    vstd::arithmetic::div_mod::lemma_fundamental_div_mod(num as int, den as int);
    assert(num == den * q + r);
    assert(t * den == den * t) by (nonlinear_arith);
    if 2 * r > den {
        assert(t == q + 1) by (nonlinear_arith)
            requires
                -(den as int) < 2 * (den * t - num) < den,
                num == den * q + r,
                2 * r > den,
                r < den,
                den > 0,
        ;
    } else if 2 * r < den {
        assert(t == q) by (nonlinear_arith)
            requires
                -(den as int) < 2 * (den * t - num) < den,
                num == den * q + r,
                2 * r < den,
                den > 0,
        ;
    } else {
        assert(false) by (nonlinear_arith)
            requires
                -(den as int) < 2 * (den * t - num) < den,
                num == den * q + r,
                2 * r == den,
                den > 0,
        ;
    }
}

/// A size below 1024 is written in bytes, one below 1024 times that in kibibytes
/// and so on up to tebibytes, with one digit behind the point, rounded to the
/// nearest.
pub proof fn law_sizes(n: nat, t: nat)
    requires
        n < 0x20_0000_0000_0000,
    ensures
        n < 1024 ==> text::size_text(n) == strings::decimal(n) + "."@ + strings::decimal(0) + " "@
            + "Б"@,
        1024 <= n < 0x10_0000 && nearest(t, 10 * n, 1024) ==> text::size_text(n)
            == strings::decimal(t / 10) + "."@ + strings::decimal(t % 10) + " "@ + "КБ"@,
        0x10_0000 <= n < 0x4000_0000 && nearest(t, 10 * n, 0x10_0000) ==> text::size_text(n)
            == strings::decimal(t / 10) + "."@ + strings::decimal(t % 10) + " "@ + "МБ"@,
        0x4000_0000 <= n < 0x100_0000_0000 && nearest(t, 10 * n, 0x4000_0000) ==> text::size_text(n)
            == strings::decimal(t / 10) + "."@ + strings::decimal(t % 10) + " "@ + "ГБ"@,
        0x100_0000_0000 <= n && nearest(t, 10 * n, 0x100_0000_0000) ==> text::size_text(n)
            == strings::decimal(t / 10) + "."@ + strings::decimal(t % 10) + " "@ + "ТБ"@,
{
    reveal_with_fuel(text::size_unit, 6);
    assert(text::granule(n) == 1);
    assert(text::round_half_even(n, 1) == n);
    assert(text::nearest_double(n) == n);
    if n < 1024 {
        assert(text::round_half_even(n * 10, 1) == n * 10);
        assert((n * 10) / 10 == n && (n * 10) % 10 == 0);
    } else if n < 0x10_0000 {
        if nearest(t, 10 * n, 1024) {
            lemma_rounded(t, n * 10, 1024);
        }
    } else if n < 0x4000_0000 {
        if nearest(t, 10 * n, 0x10_0000) {
            lemma_rounded(t, n * 10, 0x10_0000);
        }
    } else if n < 0x100_0000_0000 {
        if nearest(t, 10 * n, 0x4000_0000) {
            lemma_rounded(t, n * 10, 0x4000_0000);
        }
    } else {
        if nearest(t, 10 * n, 0x100_0000_0000) {
            lemma_rounded(t, n * 10, 0x100_0000_0000);
        }
    }
}

/// What is cut off a long paragraph, and what is left.
proof fn lemma_long_paragraph(p: Seq<char>, target: int, hard: int)
    requires
        0 < target <= hard,
    ensures
        ({
            let heads = text::hard_heads(p, target, hard);
            let tail = text::hard_tail(p, target, hard);
            &&& heads.flatten() + tail == p
            &&& p.len() > 0 ==> 0 < tail.len()
            &&& tail.len() <= hard
            &&& heads.len() > 0 ==> tail.len() > hard - target
            &&& heads.len() == 0 <==> p.len() <= hard
            &&& forall|i: int| 0 <= i < heads.len() ==> (#[trigger] heads[i]).len() == target
        }),
    decreases p.len(),
{
    let heads = text::hard_heads(p, target, hard);
    if p.len() > hard {
        let rest = p.skip(target);
        assert(text::skip_chars(p, target) == rest);
        lemma_long_paragraph(rest, target, hard);
        let more = text::hard_heads(rest, target, hard);
        let tail = text::hard_tail(rest, target, hard);
        let first = strings::take_chars(p, target);
        assert(first =~= p.take(target));
        assert(heads == seq![first] + more);
        assert(heads.drop_first() =~= more);
        assert(heads.flatten() =~= first + more.flatten());
        assert(first + more.flatten() + tail =~= first + (more.flatten() + tail));
        assert(first + rest =~= p);
        assert forall|i: int| 0 <= i < heads.len() implies (#[trigger] heads[i]).len() == target by {
            if i > 0 {
                assert(heads[i] == more[i - 1]);
            }
        }
        if more.len() == 0 {
            assert(tail == rest);
        }
    } else {
        assert(heads.flatten() =~= Seq::<char>::empty());
        assert(Seq::<char>::empty() + p =~= p);
    }
}

/// A paragraph that exceeds the hard limit is cut into fragments of the length
/// aimed at; what is left is the last fragment, and goes beyond the hard limit if
/// it is put behind one more such fragment. A paragraph within the hard limit is
/// one fragment.
pub proof fn law_long_paragraphs(p: Seq<char>, target: int, hard: int)
    requires
        0 < target <= hard,
        p.len() > 0,
        strings::trim(p) == p,
        !strings::occurs(p, seq!['\n', '\n']),
    ensures
        ({
            let r = text::guide_chunks(p, target, hard);
            &&& r.flatten() == p
            &&& p.len() <= hard ==> r == seq![p]
            &&& p.len() > hard ==> r.len() > 1 && hard - target < r.last().len() <= hard
            &&& forall|i: int| 0 <= i < r.len() - 1 ==> (#[trigger] r[i]).len() == target
        }),
{
    let paragraphs = strings::split_str(p, text::paragraph_break());
    mentions::lemma_nothing_to_split(p, text::paragraph_break());
    let none = text::Fragments { done: Seq::empty(), current: Seq::empty() };
    assert(paragraphs.drop_last() =~= Seq::empty());
    assert(text::gather(paragraphs.drop_last(), target, hard) == none);
    lemma_long_paragraph(p, target, hard);
    let heads = text::hard_heads(p, target, hard);
    let tail = text::hard_tail(p, target, hard);
    let g = text::gather(paragraphs, target, hard);
    assert(g == none.add(p, target, hard));
    assert(g.done =~= heads);
    let r = text::guide_chunks(p, target, hard);
    assert(r == heads.push(tail));
    heads.lemma_flatten_push(tail);
    if p.len() <= hard {
        assert(heads =~= Seq::empty());
        assert(r =~= seq![p]);
    }
}

} // verus!
