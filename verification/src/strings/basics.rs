//! What the text primitives give back, told by texts put together from parts.

use vstd::prelude::*;

use crate::strings;
use crate::strings::is_white;

verus! {

/// All characters are white space.
pub open spec fn all_white(s: Seq<char>) -> bool {
    forall|i: int| 0 <= i < s.len() ==> is_white(#[trigger] s[i])
}

/// All characters are the same one.
pub open spec fn all_same(s: Seq<char>, c: char) -> bool {
    forall|i: int| 0 <= i < s.len() ==> #[trigger] s[i] == c
}

/// The text does not start with white space and does not end with it.
pub open spec fn solid_ends(s: Seq<char>) -> bool {
    s.len() > 0 ==> !is_white(s[0]) && !is_white(s.last())
}

/// Trimming the end takes off the white space there.
pub proof fn law_trim_end(s: Seq<char>, b: Seq<char>)
    requires
        all_white(b),
        s.len() > 0 ==> !is_white(s.last()),
    ensures
        strings::trim_end(s + b) == s,
    decreases b.len(),
{
    let t = s + b;
    if b.len() > 0 {
        assert(t.last() == b.last());
        assert(t.drop_last() =~= s + b.drop_last());
        law_trim_end(s, b.drop_last());
    } else {
        assert(t =~= s);
    }
}

/// Trimming the start takes off the white space there.
pub proof fn law_trim_start(a: Seq<char>, s: Seq<char>)
    requires
        all_white(a),
        s.len() > 0 ==> !is_white(s[0]),
    ensures
        strings::trim_start(a + s) == s,
    decreases a.len(),
{
    let t = a + s;
    if a.len() > 0 {
        assert(t[0] == a[0]);
        assert(t.drop_first() =~= a.drop_first() + s);
        law_trim_start(a.drop_first(), s);
    } else {
        assert(t =~= s);
    }
}

/// Trimming takes off the white space before and behind a text, and nothing
/// else.
pub proof fn law_trim(a: Seq<char>, s: Seq<char>, b: Seq<char>)
    requires
        all_white(a),
        all_white(b),
        solid_ends(s),
    ensures
        strings::trim(a + s + b) == s,
        strings::blank(a),
{
    assert(a + Seq::<char>::empty() =~= a);
    law_trim_start(a, Seq::empty());
    assert(a + s + b =~= a + (s + b));
    if s.len() > 0 {
        assert((s + b)[0] == s[0]);
        law_trim_start(a, s + b);
        law_trim_end(s, b);
    } else {
        let all = a + b;
        assert forall|i: int| 0 <= i < all.len() implies is_white(#[trigger] all[i]) by {
            if i < a.len() {
                assert(all[i] == a[i]);
            } else {
                assert(all[i] == b[i - a.len()]);
            }
        }
        assert(all + Seq::<char>::empty() =~= all);
        law_trim_start(all, Seq::empty());
        assert(a + s + b =~= all);
        assert(s =~= Seq::empty());
    }
}

/// Trimming a character takes it off before and behind a text as often as it
/// stands there.
pub proof fn law_trim_char(a: Seq<char>, s: Seq<char>, b: Seq<char>, c: char)
    requires
        all_same(a, c),
        all_same(b, c),
        s.len() > 0,
        s[0] != c,
        s.last() != c,
    ensures
        strings::trim_char(a + s + b, c) == s,
        strings::trim_end_char(s + b, c) == s,
    decreases a.len() + b.len(),
{
    let t = a + s + b;
    if a.len() > 0 {
        assert(t[0] == a[0]);
        assert(t.drop_first() =~= a.drop_first() + s + b);
        law_trim_char(a.drop_first(), s, b, c);
    } else {
        assert(t =~= s + b);
        assert(t[0] == s[0]);
        if b.len() > 0 {
            assert(t.last() == b.last());
            assert(t.drop_last() =~= s + b.drop_last());
            law_trim_char(a, s, b.drop_last(), c);
            assert((a + s + b.drop_last()) =~= s + b.drop_last());
        } else {
            assert(t =~= s);
        }
    }
}

/// A text with the pattern inside.
proof fn lemma_occurs_inside(a: Seq<char>, p: Seq<char>, b: Seq<char>)
    ensures
        strings::occurs(a + p + b, p),
{
    let s = a + p + b;
    let n = a.len() as int;
    assert(s.subrange(n, n + p.len()) =~= p);
    strings::lemma_find_from(s, p, 0);
}

/// The place where a pattern was found.
proof fn lemma_found_at(s: Seq<char>, p: Seq<char>)
    ensures
        match strings::find(s, p) {
            Some(k) => 0 <= k && k + p.len() <= s.len() && s.subrange(k, k + p.len()) == p,
            None => true,
        },
{
    strings::lemma_find_from(s, p, 0);
}

/// A pattern occurs in a text if and only if the text can be put together with
/// the pattern inside.
pub proof fn law_occurs(a: Seq<char>, p: Seq<char>, b: Seq<char>)
    ensures
        strings::occurs(a + p + b, p),
        match strings::find(a, p) {
            Some(k) => 0 <= k && k + p.len() <= a.len() && a == a.take(k) + p + a.skip(k + p.len()),
            None => true,
        },
{
    lemma_occurs_inside(a, p, b);
    lemma_found_at(a, p);
    match strings::find(a, p) {
        Some(k) => {
            assert(a =~= a.take(k) + a.subrange(k, k + p.len()) + a.skip(k + p.len()));
        },
        None => {},
    }
}

/// The first characters of a text: its start, as long as asked for or the whole
/// text.
pub proof fn law_take_chars(s: Seq<char>, n: int)
    requires
        n >= 0,
    ensures
        strings::take_chars(s, n).is_prefix_of(s),
        strings::take_chars(s, n).len() == (if s.len() < n {
            s.len() as int
        } else {
            n
        }),
{
}

/// Folding changes the 26 Latin capitals to small letters and nothing else.
pub proof fn law_fold(s: Seq<char>, i: int)
    requires
        0 <= i < s.len(),
    ensures
        strings::fold(s).len() == s.len(),
        65 <= s[i] as u32 <= 90 ==> strings::fold(s)[i] as u32 == s[i] as u32 + 32,
        !(65 <= s[i] as u32 <= 90) ==> strings::fold(s)[i] == s[i],
{
}

/// Folding twice is folding once.
pub proof fn law_fold_twice(s: Seq<char>)
    ensures
        strings::fold(strings::fold(s)) == strings::fold(s),
{
    assert forall|i: int| 0 <= i < s.len() implies #[trigger] strings::fold(strings::fold(s))[i]
        == strings::fold(s)[i] by {
        law_fold(s, i);
        law_fold(strings::fold(s), i);
    }
    assert(strings::fold(strings::fold(s)) =~= strings::fold(s));
}

/// A number is read from digits behind a sign or no sign; leading zeros do not
/// count. It is refused if it is too large or if there are no digits.
pub proof fn law_numbers_are_read(digits: Seq<char>)
    requires
        strings::all_digits(digits),
        digits.len() > 0,
    ensures
        ({
            let v = strings::digits_value(digits) as int;
            &&& v <= i64::MAX ==> strings::parse_signed(digits) == Some(v)
            &&& v <= i64::MAX ==> strings::parse_signed(seq!['+'] + digits) == Some(v)
            &&& -v >= i64::MIN ==> strings::parse_signed(seq!['-'] + digits) == Some(-v)
            &&& v > i64::MAX ==> strings::parse_signed(digits) is None
            &&& v > i64::MAX ==> strings::parse_signed(seq!['+'] + digits) is None
            &&& -v < i64::MIN ==> strings::parse_signed(seq!['-'] + digits) is None
            &&& strings::digits_value(seq!['0'] + digits) == v
        }),
{
    assert(strings::is_digit(digits[0]));
    assert((seq!['+'] + digits).drop_first() =~= digits);
    assert((seq!['-'] + digits).drop_first() =~= digits);
    lemma_leading_zero(digits);
}

/// A zero in front does not change a number.
proof fn lemma_leading_zero(digits: Seq<char>)
    ensures
        strings::digits_value(seq!['0'] + digits) == strings::digits_value(digits),
    decreases digits.len(),
{
    let s = seq!['0'] + digits;
    if digits.len() == 0 {
        assert(s.drop_last() =~= Seq::<char>::empty());
        assert(s.last() == '0');
        assert('0' as u32 == 48);
        assert(strings::digits_value(s.drop_last()) == 0);
    } else {
        lemma_leading_zero(digits.drop_last());
        assert(s.drop_last() =~= seq!['0'] + digits.drop_last());
        assert(s.last() == digits.last());
    }
}

/// The digits of a number count ones, tens, hundreds and so on.
pub proof fn law_digits_count(digits: Seq<char>, d: int)
    requires
        0 <= d <= 9,
    ensures
        strings::digits_value(digits.push((48 + d) as char)) == 10 * strings::digits_value(digits)
            + d,
{
    assert(digits.push((48 + d) as char).drop_last() =~= digits);
}

/// A text with anything but digits behind its first character, or with a first
/// character that is neither a digit nor a sign, is no number; nor is the empty
/// text or a sign alone.
pub proof fn law_other_texts_are_no_numbers(s: Seq<char>, i: int)
    requires
        s.len() == 0 || (s.len() == 1 && !strings::is_digit(s[0])) || (0 <= i < s.len()
            && !strings::is_digit(s[i]) && (i > 0 || (s[0] != '+' && s[0] != '-'))),
    ensures
        strings::parse_signed(s) is None,
        s.len() > 0 && s[0] == '-' ==> strings::parse_unsigned(s, u64::MAX as nat) is None,
{
    if s.len() > 1 && i > 0 {
        assert(s.drop_first()[i - 1] == s[i]);
    }
}

/// What stands between two places of a separator is given back as it is:
/// replacing puts something else in the place of each.
pub proof fn law_replace_nothing(s: Seq<char>, from: Seq<char>, to: Seq<char>)
    requires
        from.len() > 0,
        !strings::occurs(s, from),
    ensures
        strings::replace(s, from, to) == s,
{
    crate::utils::mentions::lemma_nothing_to_split(s, from);
}

/// Replacing a text by itself changes nothing.
pub proof fn law_replace_by_itself(s: Seq<char>, from: Seq<char>)
    ensures
        strings::replace(s, from, from) == s,
{
    strings::lemma_join_split_str(s, from);
}

/// A text is cut at every separator: the pieces on both sides of one are the
/// pieces of what stands there, in their order and as often as they stand there.
/// A text without separators is one piece, if it is long enough.
pub proof fn law_pieces(a: Seq<char>, c: char, b: Seq<char>, sep: strings::Separator, least: int)
    requires
        sep.cuts(c),
    ensures
        strings::split_min(a + seq![c] + b, sep, least) == strings::split_min(a, sep, least)
            + strings::split_min(b, sep, least),
        (forall|i: int| 0 <= i < a.len() ==> !sep.cuts(#[trigger] a[i])) ==> strings::split_min(
            a,
            sep,
            least,
        ) == if a.len() >= least {
            seq![a]
        } else {
            Seq::empty()
        },
        sep == strings::Separator::White ==> is_white(c),
        sep == strings::Separator::NonAlphanumeric ==> !strings::alphanumeric(c),
{
    let long = |w: Seq<char>| w.len() >= least;
    strings::lemma_split_concat(a, c, b, sep);
    assert(a.push(c) + b =~= a + seq![c] + b);
    lemma_filter_both(strings::split(a, sep), strings::split(b, sep), long);
    if forall|i: int| 0 <= i < a.len() ==> !sep.cuts(#[trigger] a[i]) {
        strings::lemma_split_single(a, sep);
        reveal(Seq::filter);
        let one = seq![a];
        assert(one.drop_last() =~= Seq::empty());
        assert(one.drop_last().filter(long) =~= Seq::empty());
        assert(one.last() == a);
        assert(one.filter(long) =~= if a.len() >= least {
            seq![a]
        } else {
            Seq::empty()
        });
    }
}

/// What is picked of two lists.
proof fn lemma_filter_both(a: Seq<Seq<char>>, b: Seq<Seq<char>>, p: spec_fn(Seq<char>) -> bool)
    ensures
        (a + b).filter(p) == a.filter(p) + b.filter(p),
    decreases b.len(),
{
    reveal(Seq::filter);
    if b.len() == 0 {
        assert(a + b =~= a);
        assert(b.filter(p) =~= Seq::empty());
        assert(a.filter(p) + b.filter(p) =~= a.filter(p));
    } else {
        lemma_filter_both(a, b.drop_last(), p);
        assert((a + b).drop_last() =~= a + b.drop_last());
        assert((a + b).last() == b.last());
        let x = b.last();
        let rest = b.drop_last().filter(p);
        assert((a.filter(p) + rest).push(x) =~= a.filter(p) + rest.push(x));
    }
}

/// A number without a sign is read from digits, behind a plus or not, up to the
/// largest that is allowed; a text with anything else in it is none.
pub proof fn law_counts_are_read(digits: Seq<char>, s: Seq<char>, i: int, most: nat)
    requires
        strings::all_digits(digits),
        digits.len() > 0,
        s.len() == 0 || s == seq!['+'] || (0 <= i < s.len() && !strings::is_digit(s[i]) && (i > 0
            || s[0] != '+')),
    ensures
        strings::digits_value(digits) <= most ==> strings::parse_unsigned(digits, most) == Some(
            strings::digits_value(digits),
        ),
        strings::digits_value(digits) <= most ==> strings::parse_unsigned(seq!['+'] + digits, most)
            == Some(strings::digits_value(digits)),
        strings::digits_value(digits) > most ==> strings::parse_unsigned(digits, most) is None,
        strings::parse_unsigned(s, most) is None,
{
    assert(strings::is_digit(digits[0]));
    assert((seq!['+'] + digits).drop_first() =~= digits);
    if 0 < i < s.len() {
        assert(s.drop_first()[i - 1] == s[i]);
    }
}

/// A pattern is found at the first place where it stands.
pub proof fn law_first_place(s: Seq<char>, p: Seq<char>, k: int, j: int)
    requires
        0 <= j < k,
        k + p.len() <= s.len(),
    ensures
        strings::find(s, p) == Some(k) ==> s.subrange(j, j + p.len()) != p,
        strings::find(s, p) is None ==> s.subrange(j, j + p.len()) != p && s.subrange(
            k,
            k + p.len(),
        ) != p,
{
    strings::lemma_find_from(s, p, 0);
}

/// A text takes as many bytes as its characters together: one for each of the
/// first 128, two up to the 2048th, three up to the 65536th, four beyond.
pub proof fn law_bytes(a: Seq<char>, b: Seq<char>, c: char)
    ensures
        strings::byte_len(a + b) == strings::byte_len(a) + strings::byte_len(b),
        strings::byte_len(seq![c]) == if (c as u32) < 128 {
            1nat
        } else if (c as u32) < 2048 {
            2
        } else if (c as u32) < 65536 {
            3
        } else {
            4
        },
    decreases b.len(),
{
    assert(seq![c].drop_last() =~= Seq::empty());
    assert(seq![c].last() == c);
    assert(strings::byte_len(seq![c].drop_last()) == 0);
    if b.len() == 0 {
        assert(a + b =~= a);
    } else {
        law_bytes(a, b.drop_last(), c);
        assert((a + b).drop_last() =~= a + b.drop_last());
        assert((a + b).last() == b.last());
    }
}

} // verus!
