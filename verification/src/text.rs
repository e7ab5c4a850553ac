//! Text utilities of the guide base: sizes, message splitting, word sets.

pub mod splitting;

use vstd::prelude::*;
use vstd::slice::slice_subrange;

use crate::strings;

verus! {

// ---------------------------------------------------------------------------
// Sizes

/// `num / den` rounded to the nearest integer, ties to the even one.
pub open spec fn round_half_even(num: nat, den: nat) -> nat {
    let q = num / den;
    let r = num % den;
    if 2 * r > den || (2 * r == den && q % 2 == 1) {
        q + 1
    } else {
        q
    }
}

/// The distance between neighbouring double-precision numbers near `n`, for
/// integers: one up to 2^53, then doubling with every further binary digit.
pub open spec fn granule(n: nat) -> nat
    decreases n,
{
    if n < 0x20_0000_0000_0000 {
        1
    } else {
        2 * granule(n / 2)
    }
}

/// The double-precision number nearest to `n`, ties to the even mantissa.
pub open spec fn nearest_double(n: nat) -> nat {
    round_half_even(n, granule(n)) * granule(n)
}

/// The power of 1024 by which `v` is shown, at most the fourth, counting on
/// from the power `u`, whose value is `d`.
pub open spec fn size_unit(v: nat, d: nat, u: int) -> (int, nat)
    decreases 4 - u,
{
    if u < 4 && v >= 1024 * d {
        size_unit(v, 1024 * d, u + 1)
    } else {
        (u, d)
    }
}

/// The name of a unit of size.
pub open spec fn unit_name(u: int) -> Seq<char> {
    if u == 0 {
        "Б"@
    } else if u == 1 {
        "КБ"@
    } else if u == 2 {
        "МБ"@
    } else if u == 3 {
        "ГБ"@
    } else {
        "ТБ"@
    }
}

/// A size with one decimal and its unit.
pub open spec fn size_text(bytes: nat) -> Seq<char> {
    let v = nearest_double(bytes);
    let (u, d) = size_unit(v, 1, 0);
    let tenths = round_half_even(v * 10, d);
    strings::decimal(tenths / 10) + "."@ + strings::decimal(tenths % 10) + " "@ + unit_name(u)
}

/// See [`round_half_even`].
fn round_half_even_u128(num: u128, den: u128) -> (r: u128)
    requires
        0 < den <= 0x1_0000_0000_0000_0000_0000,
        num <= 0x1_0000_0000_0000_0000_0000,
    ensures
        r == round_half_even(num as nat, den as nat),
        r <= num + 1,
{
    let q: u128 = num / den;
    let m: u128 = num % den;
    assert(q <= num) by (nonlinear_arith)
        requires
            q == num / den,
            den > 0,
    ;
    if 2 * m > den || (2 * m == den && q % 2 == 1) {
        q + 1
    } else {
        q
    }
}

/// See [`granule`].
fn granule_u64(n: u64) -> (r: u64)
    ensures
        r == granule(n as nat),
        1 <= r <= 0x1000,
{
    let mut m: u64 = n;
    let mut g: u64 = 1;
    while m >= 0x20_0000_0000_0000
        invariant
            1 <= g <= 0x1000,
            g == 1 || m >= 0x10_0000_0000_0000,
            m * g <= n,
            g * granule(m as nat) == granule(n as nat),
        decreases m,
    {
        let ghost h = granule((m / 2) as nat);
        assert(g < 0x800) by (nonlinear_arith)
            requires
                m * g <= n,
                m >= 0x20_0000_0000_0000,
                n <= 0xffff_ffff_ffff_ffff,
        ;
        assert((m / 2) * (2 * g) <= m * g) by (nonlinear_arith)
            requires
                g >= 1,
        ;
        assert(g * (2 * h) == (2 * g) * h) by (nonlinear_arith);
        g = 2 * g;
        m = m / 2;
    }
    assert(g * granule(m as nat) == g) by (nonlinear_arith)
        requires
            granule(m as nat) == 1,
    ;
    g
}

/// Human-readable size in bytes.
pub fn fmt_bytes(bytes: u64) -> (r: String)
    ensures
        r@ == size_text(bytes as nat),
{
    let g: u128 = granule_u64(bytes) as u128;
    let q: u128 = round_half_even_u128(bytes as u128, g);
    assert(q * g <= 0x1_0000_0000_0000_0000 * 0x1001) by (nonlinear_arith)
        requires
            q <= bytes + 1,
            bytes <= 0xffff_ffff_ffff_ffff,
            g <= 0x1000,
    ;
    let v: u128 = q * g;
    let mut u: usize = 0;
    let mut d: u128 = 1;
    while u < 4 && v >= 1024 * d
        invariant
            u <= 4,
            u == 0 ==> d == 1,
            u == 1 ==> d == 1024,
            u == 2 ==> d == 1048576,
            u == 3 ==> d == 1073741824,
            u == 4 ==> d == 1099511627776,
            v <= 0x1_0000_0000_0000_0000 * 0x1001,
            size_unit(v as nat, 1, 0) == size_unit(v as nat, d as nat, u as int),
        decreases 4 - u,
    {
        d = 1024 * d;
        u += 1;
    }
    let tenths: u128 = round_half_even_u128(v * 10, d);
    let mut out = strings::decimal_u128(tenths / 10);
    out.append(".");
    out.append(strings::decimal_u128(tenths % 10).as_str());
    out.append(" ");
    if u == 0 {
        out.append("Б");
    } else if u == 1 {
        out.append("КБ");
    } else if u == 2 {
        out.append("МБ");
    } else if u == 3 {
        out.append("ГБ");
    } else {
        out.append("ТБ");
    }
    out
}

/// The blank line between paragraphs.
pub open spec fn paragraph_break() -> Seq<char> {
    seq!['\n', '\n']
}

// ---------------------------------------------------------------------------
// Texts with blank lines between them

/// Blank lines in a row.
pub open spec fn breaks(n: nat) -> Seq<char>
    decreases n,
{
    if n == 0 {
        Seq::empty()
    } else {
        breaks((n - 1) as nat) + paragraph_break()
    }
}

/// Texts one after another, each behind a number of blank lines.
pub open spec fn laid_out(parts: Seq<Seq<char>>, gaps: Seq<nat>) -> Seq<char>
    decreases parts.len(),
{
    if parts.len() == 0 {
        Seq::empty()
    } else {
        laid_out(parts.drop_last(), gaps.drop_last()) + breaks(gaps.last()) + parts.last()
    }
}

/// The parts are slices of a text in order. The first begins it, the last ends
/// it, and between neighbours nothing stands but blank lines, if anything.
pub open spec fn slices_of(parts: Seq<Seq<char>>, text: Seq<char>) -> bool {
    exists|gaps: Seq<nat>|
        gaps.len() == parts.len() && (gaps.len() > 0 ==> gaps[0] == 0) && #[trigger] laid_out(
            parts,
            gaps,
        ) == text
}

/// A text is what was finished and what is under construction, with blank
/// lines between them.
spec fn built_with(
    done: Seq<Seq<char>>,
    current: Seq<char>,
    gaps: Seq<nat>,
    gap: nat,
    text: Seq<char>,
) -> bool {
    gaps.len() == done.len() && laid_out(done, gaps) + breaks(gap) + current == text
}

/// See [`built_with`].
spec fn built(done: Seq<Seq<char>>, current: Seq<char>, text: Seq<char>) -> bool {
    exists|gaps: Seq<nat>, gap: nat| #[trigger] built_with(done, current, gaps, gap, text)
}

/// Building goes on with another piece, behind a blank line or at once.
proof fn lemma_built_more(
    done: Seq<Seq<char>>,
    current: Seq<char>,
    text: Seq<char>,
    piece: Seq<char>,
    gap: nat,
)
    requires
        built(done, current, text),
        gap <= 1,
    ensures
        current.len() == 0 ==> built(done, piece, text + breaks(gap) + piece),
        built(done.push(current), piece, text + breaks(gap) + piece),
        gap == 1 ==> built(
            done,
            current + paragraph_break() + piece,
            text + breaks(gap) + piece,
        ),
{
    reveal_with_fuel(breaks, 2);
    let (gaps, g) = choose|gaps: Seq<nat>, g: nat|
        #[trigger] built_with(done, current, gaps, g, text);
    let more = text + breaks(gap) + piece;
    let head = laid_out(done, gaps);
    if current.len() == 0 {
        assert(breaks(g) + breaks(gap) =~= breaks(g + gap));
        assert(head + breaks(g + gap) + piece =~= more);
        assert(built_with(done, piece, gaps, g + gap, more));
    }
    assert(done.push(current).drop_last() =~= done);
    assert(gaps.push(g).drop_last() =~= gaps);
    assert(laid_out(done.push(current), gaps.push(g)) == text);
    assert(built_with(done.push(current), piece, gaps.push(g), gap, more));
    if gap == 1 {
        let longer = current + paragraph_break() + piece;
        assert(breaks(1) =~= paragraph_break());
        assert(head + breaks(g) + longer =~= more);
        assert(built_with(done, longer, gaps, g, more));
    }
}

/// Blank lines in a row begin and end with a line feed.
proof fn lemma_breaks_ends(n: nat)
    ensures
        breaks(n).len() == 2 * n,
        n > 0 ==> breaks(n)[0] == '\n' && breaks(n).last() == '\n',
    decreases n,
{
    if n > 0 {
        lemma_breaks_ends((n - 1) as nat);
    }
}

/// If blank lines stand before the first part, the text begins with one.
proof fn lemma_laid_out_first(parts: Seq<Seq<char>>, gaps: Seq<nat>)
    requires
        gaps.len() == parts.len() > 0,
        gaps[0] > 0,
    ensures
        laid_out(parts, gaps).len() > 0,
        laid_out(parts, gaps)[0] == '\n',
    decreases parts.len(),
{
    lemma_breaks_ends(gaps.last());
    if parts.len() > 1 {
        lemma_laid_out_first(parts.drop_last(), gaps.drop_last());
    } else {
        assert(laid_out(parts.drop_last(), gaps.drop_last()) =~= Seq::<char>::empty());
    }
}

/// What was built of a text without white space at its ends are its slices.
proof fn lemma_built_slices(done: Seq<Seq<char>>, current: Seq<char>, text: Seq<char>)
    requires
        built(done, current, text),
        text.len() > 0 ==> !strings::is_white(text[0]) && !strings::is_white(text.last()),
    ensures
        slices_of(
            if current.len() == 0 {
                done
            } else {
                done.push(current)
            },
            text,
        ),
{
    let (gaps, g) = choose|gaps: Seq<nat>, g: nat|
        #[trigger] built_with(done, current, gaps, g, text);
    lemma_breaks_ends(g);
    if current.len() == 0 {
        if g > 0 {
            assert(text.last() == breaks(g).last());
        }
        assert(laid_out(done, gaps) =~= text);
        if gaps.len() > 0 && gaps[0] > 0 {
            lemma_laid_out_first(done, gaps);
        }
    } else {
        let parts = done.push(current);
        let all = gaps.push(g);
        assert(parts.drop_last() =~= done);
        assert(all.drop_last() =~= gaps);
        assert(laid_out(parts, all) == text);
        if all[0] > 0 {
            lemma_laid_out_first(parts, all);
        }
    }
}

// ---------------------------------------------------------------------------
// Messages of a bounded size in bytes

/// The number of characters in the longest prefix of at most `limit` bytes.
pub open spec fn fitting(s: Seq<char>, limit: int) -> int
    decreases s.len(),
{
    if s.len() == 0 || strings::byte_len(s) <= limit {
        s.len() as int
    } else {
        fitting(s.drop_last(), limit)
    }
}

/// The position of the last white space.
pub open spec fn last_white(s: Seq<char>) -> Option<int>
    decreases s.len(),
{
    if s.len() == 0 {
        None
    } else if strings::is_white(s.last()) {
        Some(s.len() - 1)
    } else {
        last_white(s.drop_last())
    }
}

/// Where a text of more than `limit` bytes is cut: at the last white space of
/// its longest fitting prefix if that lies in the prefix's second half, else
/// at the end of the prefix.
pub open spec fn cut_point(s: Seq<char>, limit: int) -> int {
    let k = fitting(s, limit);
    match last_white(s.take(k)) {
        Some(w) if strings::byte_len(s.take(w)) >= limit / 2 => w,
        _ => k,
    }
}

/// The pieces into which a paragraph is cut. A cut that would take nothing
/// ends the list.
pub open spec fn paragraph_pieces(s: Seq<char>, limit: int) -> Seq<Seq<char>>
    decreases s.len(),
{
    if strings::byte_len(s) <= limit || !(0 < cut_point(s, limit) <= s.len()) {
        seq![s]
    } else {
        let k = cut_point(s, limit);
        seq![s.take(k)] + paragraph_pieces(s.skip(k), limit)
    }
}

/// Cutting the paragraph makes progress until the rest fits.
pub open spec fn divisible(s: Seq<char>, limit: int) -> bool
    decreases s.len(),
{
    strings::byte_len(s) <= limit || {
        &&& 0 < cut_point(s, limit) <= s.len()
        &&& divisible(s.skip(cut_point(s, limit)), limit)
    }
}

/// Every paragraph of the text can be cut.
pub open spec fn all_divisible(text: Seq<char>, limit: int) -> bool {
    let paragraphs = strings::split_str(strings::trim(text), paragraph_break());
    forall|i: int| 0 <= i < paragraphs.len() ==> divisible(#[trigger] paragraphs[i], limit)
}

/// The pieces of all paragraphs.
pub open spec fn all_pieces(paragraphs: Seq<Seq<char>>, limit: int) -> Seq<Seq<char>>
    decreases paragraphs.len(),
{
    if paragraphs.len() == 0 {
        Seq::empty()
    } else {
        all_pieces(paragraphs.drop_last(), limit) + paragraph_pieces(paragraphs.last(), limit)
    }
}

/// Finished messages and the message under construction.
pub struct Packing {
    pub done: Seq<Seq<char>>,
    pub current: Seq<char>,
}

impl Packing {
    /// Nothing packed yet.
    pub open spec fn start() -> Packing {
        Packing { done: Seq::empty(), current: Seq::empty() }
    }

    /// One more piece: joined to the current message if the two fit with a
    /// blank line between them, else the start of a new message.
    pub open spec fn add(self, piece: Seq<char>, limit: int) -> Packing {
        if self.current.len() == 0 {
            Packing { done: self.done, current: piece }
        } else if strings::byte_len(self.current) + 2 + strings::byte_len(piece) > limit {
            Packing { done: self.done.push(self.current), current: piece }
        } else {
            Packing { done: self.done, current: self.current + paragraph_break() + piece }
        }
    }

    /// The messages, the last one included if it holds anything.
    pub open spec fn finish(self) -> Seq<Seq<char>> {
        if self.current.len() == 0 {
            self.done
        } else {
            self.done.push(self.current)
        }
    }
}

/// Packs the pieces in order.
pub open spec fn pack(pieces: Seq<Seq<char>>, limit: int) -> Packing
    decreases pieces.len(),
{
    if pieces.len() == 0 {
        Packing::start()
    } else {
        pack(pieces.drop_last(), limit).add(pieces.last(), limit)
    }
}

/// The messages into which a text is split.
pub open spec fn telegram_chunks(text: Seq<char>, limit: int) -> Seq<Seq<char>> {
    let t = strings::trim(text);
    if strings::byte_len(t) <= limit {
        seq![t]
    } else {
        pack(all_pieces(strings::split_str(t, paragraph_break()), limit), limit).finish()
    }
}

/// A longer prefix has no fewer bytes.
proof fn lemma_byte_len_take(s: Seq<char>, i: int, j: int)
    requires
        0 <= i <= j <= s.len(),
    ensures
        strings::byte_len(s.take(i)) <= strings::byte_len(s.take(j)),
        strings::byte_len(s.take(i)) <= strings::byte_len(s),
        strings::byte_len(s) == strings::byte_len(s.take(i)) + strings::byte_len(s.skip(i)),
{
    assert(s.take(j) =~= s.take(i) + s.subrange(i, j));
    strings::lemma_byte_len_add(s.take(i), s.subrange(i, j));
    assert(s =~= s.take(i) + s.skip(i));
    strings::lemma_byte_len_add(s.take(i), s.skip(i));
}

/// The longest fitting prefix fits, and one more character would not.
proof fn lemma_fitting(s: Seq<char>, limit: int)
    requires
        limit >= 0,
    ensures
        0 <= fitting(s, limit) <= s.len(),
        strings::byte_len(s.take(fitting(s, limit))) <= limit,
        fitting(s, limit) < s.len() ==> strings::byte_len(s.take(fitting(s, limit) + 1)) > limit,
    decreases s.len(),
{
    assert(s.take(s.len() as int) =~= s);
    if s.len() == 0 || strings::byte_len(s) <= limit {
    } else {
        let t = s.drop_last();
        lemma_fitting(t, limit);
        let k = fitting(t, limit);
        assert(t.take(k) =~= s.take(k));
        if k < t.len() {
            assert(t.take(k + 1) =~= s.take(k + 1));
        } else {
            assert(s.take(k + 1) =~= s);
        }
    }
}

/// The last white space is one, and lies inside the text.
proof fn lemma_last_white(s: Seq<char>)
    ensures
        match last_white(s) {
            Some(w) => 0 <= w < s.len() && strings::is_white(s[w]),
            None => true,
        },
    decreases s.len(),
{
    if s.len() > 0 && !strings::is_white(s.last()) {
        lemma_last_white(s.drop_last());
    }
}

/// What is cut off fits.
proof fn lemma_cut_point(s: Seq<char>, limit: int)
    requires
        limit >= 0,
    ensures
        0 <= cut_point(s, limit) <= s.len(),
        strings::byte_len(s.take(cut_point(s, limit))) <= limit,
{
    lemma_fitting(s, limit);
    let k = fitting(s, limit);
    lemma_last_white(s.take(k));
    lemma_byte_len_take(s, cut_point(s, limit), k);
}

/// With a limit of at least four bytes every paragraph can be cut.
pub proof fn lemma_divisible(s: Seq<char>, limit: int)
    requires
        limit >= 4,
    ensures
        divisible(s, limit),
    decreases s.len(),
{
    if strings::byte_len(s) > limit {
        lemma_fitting(s, limit);
        lemma_cut_point(s, limit);
        let k = fitting(s, limit);
        let c = cut_point(s, limit);
        assert(s.take(0) =~= Seq::<char>::empty());
        if k == 0 {
            assert(s.len() > 0);
            assert(s.take(1).drop_last() =~= Seq::<char>::empty());
            reveal_with_fuel(strings::byte_len, 2);
            assert(strings::byte_len(s.take(1)) <= 4);
        }
        assert(c > 0);
        lemma_divisible(s.skip(c), limit);
    }
}

/// See [`cut_point`].
fn find_cut(s: &[char], limit: usize) -> (r: usize)
    requires
        strings::byte_len(s@) > limit,
    ensures
        r == cut_point(s@, limit as int),
        r <= s@.len(),
{
    let n: usize = s.len();
    let mut k: usize = 0;
    let mut bytes: usize = 0;
    let mut white: Option<usize> = None;
    let mut white_bytes: usize = 0;
    assert(s@.take(0) =~= Seq::<char>::empty());
    while k < n && strings::width_of(s[k]) <= limit - bytes
        invariant
            k <= n == s@.len(),
            bytes <= limit,
            bytes == strings::byte_len(s@.take(k as int)),
            match white {
                Some(w) => last_white(s@.take(k as int)) == Some(w as int) && w < k && white_bytes
                    == strings::byte_len(s@.take(w as int)),
                None => last_white(s@.take(k as int)) is None,
            },
        decreases n - k,
    {
        assert(s@.take(k + 1).drop_last() =~= s@.take(k as int));
        if s[k].is_whitespace() {
            white = Some(k);
            white_bytes = bytes;
        }
        bytes = bytes + strings::width_of(s[k]);
        k += 1;
    }
    proof {
        lemma_fitting(s@, limit as int);
        let f = fitting(s@, limit as int);
        assert(s@.take(n as int) =~= s@);
        if k < n {
            assert(s@.take(k + 1).drop_last() =~= s@.take(k as int));
        }
        if f < k {
            lemma_byte_len_take(s@, f + 1, k as int);
        }
        if k < f {
            lemma_byte_len_take(s@, k + 1, f);
        }
        assert(f == k);
    }
    match white {
        Some(w) => {
            if white_bytes >= limit / 2 {
                w
            } else {
                k
            }
        },
        None => k,
    }
}

/// Appends the pieces of one paragraph.
fn push_pieces(out: &mut Vec<String>, s: &[char], limit: usize)
    requires
        divisible(s@, limit as int),
    ensures
        strings::views(final(out)@) == strings::views(old(out)@) + paragraph_pieces(
            s@,
            limit as int,
        ),
{
    let n: usize = s.len();
    let mut from: usize = 0;
    assert(s@.skip(0) =~= s@);
    while strings::slice_byte_len_exceeds(slice_subrange(s, from, n), limit)
        invariant
            from <= n == s@.len(),
            divisible(s@.skip(from as int), limit as int),
            strings::views(old(out)@) + paragraph_pieces(s@, limit as int) == strings::views(out@)
                + paragraph_pieces(s@.skip(from as int), limit as int),
        decreases n - from,
    {
        let rest = slice_subrange(s, from, n);
        assert(rest@ =~= s@.skip(from as int));
        let k: usize = find_cut(rest, limit);
        let piece = strings::string_of(slice_subrange(rest, 0, k));
        proof {
            strings::lemma_views_push(out@, piece);
            assert(piece@ =~= rest@.take(k as int));
            assert(rest@.skip(k as int) =~= s@.skip(from + k));
            let tail = paragraph_pieces(s@.skip(from + k), limit as int);
            assert(strings::views(out@) + (seq![rest@.take(k as int)] + tail) =~= strings::views(
                out@,
            ).push(piece@) + tail);
        }
        out.push(piece);
        from = from + k;
    }
    let rest = slice_subrange(s, from, n);
    assert(rest@ =~= s@.skip(from as int));
    let piece = strings::string_of(rest);
    proof {
        strings::lemma_views_push(out@, piece);
        assert(strings::views(out@) + seq![piece@] =~= strings::views(out@).push(piece@));
    }
    out.push(piece);
}

/// Splits a text into messages of at most `limit` bytes, at blank lines and
/// white space where that is possible.
///
/// A limit below four bytes serves only the texts that can be cut by it.
pub fn split_telegram(text: &str, limit: usize) -> (r: Vec<String>)
    requires
        limit >= 4 || strings::byte_len(strings::trim(text@)) <= limit || all_divisible(
            text@,
            limit as int,
        ),
    ensures
        strings::views(r@) == telegram_chunks(text@, limit as int),
{
    let t = strings::trimmed(text);
    if strings::len_bytes(t.as_str()) <= limit {
        let mut one: Vec<String> = Vec::new();
        one.push(t);
        assert(strings::views(one@) =~= seq![t@]);
        return one;
    }
    assert("\n\n"@ =~= paragraph_break()) by {
        reveal_strlit("\n\n");
    }
    let paragraphs = strings::split_by(t.as_str(), "\n\n");
    let ghost pv = strings::views(paragraphs@);
    let mut pieces: Vec<String> = Vec::new();
    let mut i: usize = 0;
    assert(strings::views(pieces@) =~= all_pieces(pv.take(0), limit as int));
    while i < paragraphs.len()
        invariant
            i <= paragraphs@.len(),
            pv == strings::views(paragraphs@),
            pv == strings::split_str(strings::trim(text@), paragraph_break()),
            limit >= 4 || all_divisible(text@, limit as int),
            strings::views(pieces@) == all_pieces(pv.take(i as int), limit as int),
        decreases paragraphs@.len() - i,
    {
        let p = strings::chars_of(paragraphs[i].as_str());
        proof {
            assert(p@ == pv[i as int]);
            if limit >= 4 {
                lemma_divisible(p@, limit as int);
            }
            assert(pv.take(i + 1).drop_last() =~= pv.take(i as int));
        }
        push_pieces(&mut pieces, p.as_slice(), limit);
        i += 1;
    }
    assert(pv.take(pv.len() as int) =~= pv);

    let mut chunks: Vec<String> = Vec::new();
    let mut current = String::new();
    let ghost qv = strings::views(pieces@);
    let mut j: usize = 0;
    assert(strings::views(chunks@) =~= Seq::<Seq<char>>::empty());
    while j < pieces.len()
        invariant
            j <= pieces@.len(),
            qv == strings::views(pieces@),
            "\n\n"@ == paragraph_break(),
            pack(qv.take(j as int), limit as int) == (Packing {
                done: strings::views(chunks@),
                current: current@,
            }),
        decreases pieces@.len() - j,
    {
        let piece = pieces[j].clone();
        assert(qv.take(j + 1).drop_last() =~= qv.take(j as int));
        let ghost before = current@;
        if !current.as_str().is_empty() {
            let size: u128 = strings::len_bytes(current.as_str()) as u128 + 2
                + strings::len_bytes(piece.as_str()) as u128;
            if size > limit as u128 {
                proof {
                    strings::lemma_views_push(chunks@, current);
                }
                chunks.push(current);
                current = piece;
            } else {
                current.append("\n\n");
                current.append(piece.as_str());
            }
        } else {
            current = piece;
        }
        j += 1;
    }
    assert(qv.take(qv.len() as int) =~= qv);
    if !current.as_str().is_empty() {
        proof {
            strings::lemma_views_push(chunks@, current);
        }
        chunks.push(current);
    }
    chunks
}

/// Every piece of a paragraph fits.
proof fn lemma_pieces_fit(s: Seq<char>, limit: int, i: int)
    requires
        limit >= 0,
        divisible(s, limit),
        0 <= i < paragraph_pieces(s, limit).len(),
    ensures
        strings::byte_len(paragraph_pieces(s, limit)[i]) <= limit,
    decreases s.len(),
{
    if strings::byte_len(s) > limit {
        lemma_cut_point(s, limit);
        let k = cut_point(s, limit);
        if i > 0 {
            lemma_pieces_fit(s.skip(k), limit, i - 1);
        }
    }
}

/// Every piece of every paragraph fits.
proof fn lemma_all_pieces_fit(paragraphs: Seq<Seq<char>>, limit: int, i: int)
    requires
        limit >= 0,
        forall|j: int| 0 <= j < paragraphs.len() ==> divisible(#[trigger] paragraphs[j], limit),
        0 <= i < all_pieces(paragraphs, limit).len(),
    ensures
        strings::byte_len(all_pieces(paragraphs, limit)[i]) <= limit,
    decreases paragraphs.len(),
{
    let before = all_pieces(paragraphs.drop_last(), limit);
    if i < before.len() {
        lemma_all_pieces_fit(paragraphs.drop_last(), limit, i);
    } else {
        lemma_pieces_fit(paragraphs.last(), limit, i - before.len());
    }
}

/// Packing keeps to the limit.
proof fn lemma_pack_fits(pieces: Seq<Seq<char>>, limit: int)
    requires
        limit >= 0,
        forall|i: int| 0 <= i < pieces.len() ==> strings::byte_len(#[trigger] pieces[i]) <= limit,
    ensures
        strings::byte_len(pack(pieces, limit).current) <= limit,
        forall|i: int|
            0 <= i < pack(pieces, limit).done.len() ==> strings::byte_len(
                #[trigger] pack(pieces, limit).done[i],
            ) <= limit,
    decreases pieces.len(),
{
    if pieces.len() > 0 {
        let before = pack(pieces.drop_last(), limit);
        lemma_pack_fits(pieces.drop_last(), limit);
        let piece = pieces.last();
        strings::lemma_byte_len_add(before.current, paragraph_break());
        strings::lemma_byte_len_add(before.current + paragraph_break(), piece);
        assert(strings::byte_len(paragraph_break()) == 2) by {
            reveal_with_fuel(strings::byte_len, 3);
            assert(paragraph_break().drop_last() =~= seq!['\n']);
            assert(seq!['\n'].drop_last() =~= Seq::<char>::empty());
        }
    }
}

/// No message is longer than the limit.
pub proof fn law_telegram_chunks_fit(text: Seq<char>, limit: int)
    requires
        limit >= 0,
        limit >= 4 || strings::byte_len(strings::trim(text)) <= limit || all_divisible(text, limit),
    ensures
        forall|i: int|
            0 <= i < telegram_chunks(text, limit).len() ==> strings::byte_len(
                #[trigger] telegram_chunks(text, limit)[i],
            ) <= limit,
{
    let t = strings::trim(text);
    if strings::byte_len(t) > limit {
        let paragraphs = strings::split_str(t, paragraph_break());
        assert forall|i: int| 0 <= i < paragraphs.len() implies divisible(
            #[trigger] paragraphs[i],
            limit,
        ) by {
            if limit >= 4 {
                lemma_divisible(paragraphs[i], limit);
            }
        }
        let pieces = all_pieces(paragraphs, limit);
        assert forall|i: int| 0 <= i < pieces.len() implies strings::byte_len(
            #[trigger] pieces[i],
        ) <= limit by {
            lemma_all_pieces_fit(paragraphs, limit, i);
        }
        lemma_pack_fits(pieces, limit);
    }
}

/// The characters of a text other than line feeds.
pub open spec fn without_breaks(s: Seq<char>) -> Seq<char> {
    s.filter(|c: char| c != '\n')
}

/// Dropping line feeds works on each of two texts in a row.
proof fn lemma_without_breaks_add(a: Seq<char>, b: Seq<char>)
    ensures
        without_breaks(a + b) == without_breaks(a) + without_breaks(b),
{
    Seq::filter_distributes_over_add(a, b, |c: char| c != '\n');
}

/// A blank line holds nothing but line feeds.
proof fn lemma_break_is_empty()
    ensures
        without_breaks(paragraph_break()) == Seq::<char>::empty(),
{
    paragraph_break().lemma_all_neg_filter_empty(|c: char| c != '\n');
}

/// The paragraphs hold everything but line feeds, in order.
proof fn lemma_paragraphs_keep(s: Seq<char>)
    ensures
        without_breaks(strings::split_str(s, paragraph_break()).flatten()) == without_breaks(s),
{
    strings::lemma_split_str_keeps(s, paragraph_break(), |c: char| c != '\n');
}

/// The pieces of a paragraph are the paragraph.
proof fn lemma_pieces_keep(s: Seq<char>, limit: int)
    ensures
        paragraph_pieces(s, limit).flatten() == s,
    decreases s.len(),
{
    if strings::byte_len(s) <= limit || !(0 < cut_point(s, limit) <= s.len()) {
        assert(seq![s] =~= Seq::<Seq<char>>::empty().push(s));
        strings::lemma_flatten_push(Seq::empty(), s);
        assert(Seq::<Seq<char>>::empty().flatten() + s =~= s);
    } else {
        let k = cut_point(s, limit);
        lemma_pieces_keep(s.skip(k), limit);
        vstd::seq_lib::lemma_flatten_concat(seq![s.take(k)], paragraph_pieces(s.skip(k), limit));
        seq![s.take(k)].lemma_flatten_one_element();
        assert(s.take(k) + s.skip(k) =~= s);
    }
}

/// The pieces of all paragraphs are the paragraphs.
proof fn lemma_all_pieces_keep(paragraphs: Seq<Seq<char>>, limit: int)
    ensures
        all_pieces(paragraphs, limit).flatten() == paragraphs.flatten(),
    decreases paragraphs.len(),
{
    if paragraphs.len() == 0 {
        assert(paragraphs =~= Seq::empty());
    } else {
        lemma_all_pieces_keep(paragraphs.drop_last(), limit);
        lemma_pieces_keep(paragraphs.last(), limit);
        vstd::seq_lib::lemma_flatten_concat(
            all_pieces(paragraphs.drop_last(), limit),
            paragraph_pieces(paragraphs.last(), limit),
        );
        assert(paragraphs =~= paragraphs.drop_last().push(paragraphs.last()));
        strings::lemma_flatten_push(paragraphs.drop_last(), paragraphs.last());
    }
}

/// Packing keeps everything but line feeds.
proof fn lemma_pack_keeps(pieces: Seq<Seq<char>>, limit: int)
    ensures
        without_breaks(pack(pieces, limit).done.flatten()) + without_breaks(
            pack(pieces, limit).current,
        ) == without_breaks(pieces.flatten()),
    decreases pieces.len(),
{
    if pieces.len() == 0 {
        assert(pieces =~= Seq::empty());
        reveal_with_fuel(Seq::filter, 1);
    } else {
        let before = pack(pieces.drop_last(), limit);
        lemma_pack_keeps(pieces.drop_last(), limit);
        let piece = pieces.last();
        assert(pieces =~= pieces.drop_last().push(piece));
        strings::lemma_flatten_push(pieces.drop_last(), piece);
        lemma_without_breaks_add(pieces.drop_last().flatten(), piece);
        let d = before.done.flatten();
        let c = before.current;
        if c.len() == 0 {
            assert(c =~= Seq::<char>::empty());
            assert(without_breaks(c) =~= Seq::<char>::empty()) by {
                reveal_with_fuel(Seq::filter, 1);
            }
            assert(without_breaks(d) + without_breaks(c) =~= without_breaks(d));
        } else if strings::byte_len(c) + 2 + strings::byte_len(piece) > limit {
            strings::lemma_flatten_push(before.done, c);
            lemma_without_breaks_add(d, c);
        } else {
            lemma_without_breaks_add(c, paragraph_break());
            lemma_without_breaks_add(c + paragraph_break(), piece);
            lemma_break_is_empty();
            assert(without_breaks(d) + ((without_breaks(c) + Seq::<char>::empty())
                + without_breaks(piece)) =~= (without_breaks(d) + without_breaks(c))
                + without_breaks(piece));
        }
    }
}

/// Two neighbours among the pieces of a paragraph do not fit into one message
/// with a blank line between them.
proof fn lemma_neighbours_apart(s: Seq<char>, limit: int, j: int)
    requires
        1 <= j < paragraph_pieces(s, limit).len(),
    ensures
        strings::byte_len(paragraph_pieces(s, limit)[j - 1]) + 2 + strings::byte_len(
            paragraph_pieces(s, limit)[j],
        ) > limit,
    decreases s.len(),
{
    let k = cut_point(s, limit);
    let rest = s.skip(k);
    let pieces = paragraph_pieces(s, limit);
    let others = paragraph_pieces(rest, limit);
    assert(pieces[j] == others[j - 1]);
    if j > 1 {
        assert(pieces[j - 1] == others[j - 2]);
        lemma_neighbours_apart(rest, limit, j - 1);
    } else if limit >= 2 {
        lemma_fitting(s, limit);
        lemma_byte_len_take(s, k, s.len() as int);
        let second = others[0];
        if second != rest {
            let l = cut_point(rest, limit);
            assert(second == rest.take(l));
            lemma_fitting(rest, limit);
            lemma_byte_len_take(rest, l, rest.len() as int);
            let full = fitting(s, limit);
            if k == full {
                assert(s.take(k + 1) =~= s.take(k) + rest.take(1));
                strings::lemma_byte_len_add(s.take(k), rest.take(1));
                lemma_byte_len_take(rest, 1, l);
            } else {
                lemma_first_bytes(rest, l);
                let m = fitting(rest, limit);
                if l == m {
                    lemma_first_bytes(rest, m);
                }
            }
        }
    }
}

/// A character has from one to four bytes.
proof fn lemma_first_bytes(s: Seq<char>, k: int)
    requires
        0 < k <= s.len(),
    ensures
        strings::byte_len(s.take(k)) >= 1,
        k < s.len() ==> strings::byte_len(s.take(k + 1)) <= strings::byte_len(s.take(k)) + 4,
{
    assert(s.take(k).last() == s[k - 1]);
    if k < s.len() {
        assert(s.take(k + 1).drop_last() =~= s.take(k));
    }
}

/// Packing the pieces of one more paragraph builds the text with the paragraph,
/// behind a blank line unless it is the first.
proof fn lemma_pack_paragraph(
    earlier: Seq<Seq<char>>,
    text: Seq<char>,
    s: Seq<char>,
    limit: int,
    gap: nat,
    j: int,
)
    requires
        built(pack(earlier, limit).done, pack(earlier, limit).current, text),
        gap == 1 || (gap == 0 && pack(earlier, limit).current.len() == 0),
        1 <= j <= paragraph_pieces(s, limit).len(),
    ensures
        ({
            let pieces = paragraph_pieces(s, limit);
            let p = pack(earlier + pieces.take(j), limit);
            &&& built(p.done, p.current, text + breaks(gap) + pieces.take(j).flatten())
            &&& strings::byte_len(p.current) >= strings::byte_len(pieces[j - 1])
        }),
    decreases j,
{
    let pieces = paragraph_pieces(s, limit);
    let piece = pieces[j - 1];
    let before = earlier + pieces.take(j - 1);
    let now = earlier + pieces.take(j);
    assert(now.drop_last() =~= before);
    assert(now.last() == piece);
    assert(pieces.take(j) =~= pieces.take(j - 1).push(piece));
    strings::lemma_flatten_push(pieces.take(j - 1), piece);
    let p = pack(before, limit);
    let c = p.current;
    strings::lemma_byte_len_add(c, paragraph_break());
    strings::lemma_byte_len_add(c + paragraph_break(), piece);
    if j == 1 {
        assert(before =~= earlier);
        assert(pieces.take(0) =~= Seq::empty());
        assert(Seq::<Seq<char>>::empty().flatten() + piece =~= piece);
        lemma_built_more(p.done, c, text, piece, gap);
    } else {
        lemma_pack_paragraph(earlier, text, s, limit, gap, j - 1);
        lemma_neighbours_apart(s, limit, j - 1);
        let so_far = text + breaks(gap) + pieces.take(j - 1).flatten();
        lemma_built_more(p.done, c, so_far, piece, 0);
        assert(so_far + breaks(0) + piece =~= text + breaks(gap) + pieces.take(j).flatten());
    }
}

/// Packing the pieces of paragraphs builds the text that they are.
proof fn lemma_pack_text(paragraphs: Seq<Seq<char>>, limit: int)
    ensures
        ({
            let p = pack(all_pieces(paragraphs, limit), limit);
            built(p.done, p.current, strings::join(paragraphs, paragraph_break()))
        }),
    decreases paragraphs.len(),
{
    reveal_with_fuel(breaks, 2);
    let none = Seq::<Seq<char>>::empty();
    if paragraphs.len() == 0 {
        let gaps = Seq::<nat>::empty();
        assert(laid_out(none, gaps) + breaks(0) + Seq::<char>::empty() =~= Seq::<char>::empty());
        assert(built_with(none, Seq::empty(), gaps, 0, Seq::empty()));
    } else {
        let init = paragraphs.drop_last();
        let s = paragraphs.last();
        lemma_pack_text(init, limit);
        let earlier = all_pieces(init, limit);
        let text = strings::join(init, paragraph_break());
        let pieces = paragraph_pieces(s, limit);
        let m = pieces.len() as int;
        let gap: nat = if init.len() == 0 {
            0
        } else {
            1
        };
        assert(m >= 1);
        lemma_pack_paragraph(earlier, text, s, limit, gap, m);
        assert(pieces.take(m) =~= pieces);
        lemma_pieces_keep(s, limit);
        assert(paragraphs =~= init.push(s));
        strings::lemma_join_push(init, s, paragraph_break());
        assert(breaks(1) =~= paragraph_break());
        assert(text + breaks(gap) + s =~= strings::join(paragraphs, paragraph_break()));
    }
}

/// The messages are slices of the trimmed text in order, and nothing of it is
/// lost but blank lines between them. So what is not a line feed is kept, in
/// order.
pub proof fn law_telegram_chunks_keep_text(text: Seq<char>, limit: int)
    ensures
        slices_of(telegram_chunks(text, limit), strings::trim(text)),
        without_breaks(telegram_chunks(text, limit).flatten()) == without_breaks(
            strings::trim(text),
        ),
{
    let t = strings::trim(text);
    strings::lemma_trim_twice(text);
    if strings::byte_len(t) <= limit {
        seq![t].lemma_flatten_one_element();
        let gaps: Seq<nat> = seq![0nat];
        assert(laid_out(seq![t].drop_last(), gaps.drop_last()) =~= Seq::<char>::empty());
        assert(laid_out(seq![t], gaps) =~= t);
    } else {
        let paragraphs = strings::split_str(t, paragraph_break());
        strings::lemma_join_split_str(t, paragraph_break());
        lemma_pack_text(paragraphs, limit);
        let whole = pack(all_pieces(paragraphs, limit), limit);
        lemma_built_slices(whole.done, whole.current, t);
        let pieces = all_pieces(paragraphs, limit);
        lemma_paragraphs_keep(t);
        lemma_all_pieces_keep(paragraphs, limit);
        lemma_pack_keeps(pieces, limit);
        let p = pack(pieces, limit);
        if p.current.len() == 0 {
            assert(p.current =~= Seq::<char>::empty());
            assert(without_breaks(p.current) =~= Seq::<char>::empty()) by {
                reveal_with_fuel(Seq::filter, 1);
            }
            assert(without_breaks(p.done.flatten()) + without_breaks(p.current) =~= without_breaks(
                p.done.flatten(),
            ));
        } else {
            strings::lemma_flatten_push(p.done, p.current);
            lemma_without_breaks_add(p.done.flatten(), p.current);
        }
    }
}

// ---------------------------------------------------------------------------
// Fragments of a guide

/// Text without its first `n` characters.
pub open spec fn skip_chars(s: Seq<char>, n: int) -> Seq<char> {
    if n < s.len() {
        s.skip(n)
    } else {
        Seq::empty()
    }
}

/// What is cut off the front of an overlong paragraph, `target` characters at
/// a time.
pub open spec fn hard_heads(p: Seq<char>, target: int, hard: int) -> Seq<Seq<char>>
    decreases p.len(),
{
    if p.len() > hard && target > 0 && p.len() > 0 {
        seq![strings::take_chars(p, target)] + hard_heads(skip_chars(p, target), target, hard)
    } else {
        Seq::empty()
    }
}

/// What is left of an overlong paragraph.
pub open spec fn hard_tail(p: Seq<char>, target: int, hard: int) -> Seq<char>
    decreases p.len(),
{
    if p.len() > hard && target > 0 && p.len() > 0 {
        hard_tail(skip_chars(p, target), target, hard)
    } else {
        p
    }
}

/// Finished fragments and the fragment under construction.
pub struct Fragments {
    pub done: Seq<Seq<char>>,
    pub current: Seq<char>,
}

impl Fragments {
    /// One more paragraph. What is cut off an overlong one is finished at
    /// once; the rest joins the current fragment if their lengths together
    /// stay within the target, and with the break between them within the hard
    /// limit.
    pub open spec fn add(self, paragraph: Seq<char>, target: int, hard: int) -> Fragments {
        let p = strings::trim(paragraph);
        let done = self.done + hard_heads(p, target, hard);
        let tail = hard_tail(p, target, hard);
        if self.current.len() == 0 {
            Fragments { done, current: tail }
        } else if self.current.len() + tail.len() <= target && self.current.len() + 2 + tail.len()
            <= hard {
            Fragments { done, current: self.current + paragraph_break() + tail }
        } else {
            Fragments { done: done.push(self.current), current: tail }
        }
    }

    /// The fragments, the last one included if it holds anything.
    pub open spec fn finish(self) -> Seq<Seq<char>> {
        if self.current.len() == 0 {
            self.done
        } else {
            self.done.push(self.current)
        }
    }
}

/// The fragments of the paragraphs, taken in order.
pub open spec fn gather(paragraphs: Seq<Seq<char>>, target: int, hard: int) -> Fragments
    decreases paragraphs.len(),
{
    if paragraphs.len() == 0 {
        Fragments { done: Seq::empty(), current: Seq::empty() }
    } else {
        gather(paragraphs.drop_last(), target, hard).add(paragraphs.last(), target, hard)
    }
}

/// The fragments of a guide.
pub open spec fn guide_chunks(text: Seq<char>, target: int, hard: int) -> Seq<Seq<char>> {
    let t = strings::trim(text);
    if t.len() == 0 {
        Seq::empty()
    } else {
        gather(strings::split_str(t, paragraph_break()), target, hard).finish()
    }
}

/// No paragraph of the text has to be cut.
pub open spec fn paragraphs_within(text: Seq<char>, hard: int) -> bool {
    let paragraphs = strings::split_str(strings::trim(text), paragraph_break());
    forall|i: int|
        0 <= i < paragraphs.len() ==> strings::trim(#[trigger] paragraphs[i]).len() <= hard
}

/// Splits a guide into fragments of about `target` and at most `hard_limit`
/// characters, cutting paragraphs that are longer.
///
/// A target of zero serves only the texts of which no paragraph has to be cut.
pub fn split_chunks(text: &str, target: usize, hard_limit: usize) -> (r: Vec<String>)
    requires
        target > 0 || paragraphs_within(text@, hard_limit as int),
    ensures
        strings::views(r@) == guide_chunks(text@, target as int, hard_limit as int),
{
    let t = strings::trimmed(text);
    let mut chunks: Vec<String> = Vec::new();
    assert(strings::views(chunks@) =~= Seq::<Seq<char>>::empty());
    if t.as_str().is_empty() {
        return chunks;
    }
    assert("\n\n"@ =~= paragraph_break()) by {
        reveal_strlit("\n\n");
    }
    let paragraphs = strings::split_by(t.as_str(), "\n\n");
    let ghost pv = strings::views(paragraphs@);
    let mut current: Vec<char> = Vec::new();
    let mut i: usize = 0;
    while i < paragraphs.len()
        invariant
            i <= paragraphs@.len(),
            pv == strings::views(paragraphs@),
            pv == strings::split_str(strings::trim(text@), paragraph_break()),
            target > 0 || paragraphs_within(text@, hard_limit as int),
            gather(pv.take(i as int), target as int, hard_limit as int) == (Fragments {
                done: strings::views(chunks@),
                current: current@,
            }),
        decreases paragraphs@.len() - i,
    {
        let whole = strings::chars_of(paragraphs[i].as_str());
        let ghost before = strings::views(chunks@);
        let p = strings::slice_trim(whole.as_slice());
        let n: usize = p.len();
        proof {
            assert(whole@ == pv[i as int]);
            assert(pv.take(i + 1).drop_last() =~= pv.take(i as int));
            assert(p@.skip(0) =~= p@);
            assert(before + hard_heads(p@, target as int, hard_limit as int) =~= before
                + hard_heads(p@.skip(0), target as int, hard_limit as int));
        }
        let mut from: usize = 0;
        while n - from > hard_limit
            invariant
                from <= n == p@.len(),
                target > 0 || n <= hard_limit,
                before + hard_heads(p@, target as int, hard_limit as int) == strings::views(chunks@)
                    + hard_heads(p@.skip(from as int), target as int, hard_limit as int),
                hard_tail(p@, target as int, hard_limit as int) == hard_tail(
                    p@.skip(from as int),
                    target as int,
                    hard_limit as int,
                ),
            decreases n - from,
        {
            let rest_len: usize = n - from;
            let k: usize = if target < rest_len {
                target
            } else {
                rest_len
            };
            let head = strings::string_of(slice_subrange(p, from, from + k));
            proof {
                let rest = p@.skip(from as int);
                assert(head@ =~= strings::take_chars(rest, target as int));
                assert(skip_chars(rest, target as int) =~= p@.skip(from + k));
                strings::lemma_views_push(chunks@, head);
                let tail = hard_heads(p@.skip(from + k), target as int, hard_limit as int);
                assert(strings::views(chunks@) + (seq![head@] + tail) =~= strings::views(
                    chunks@,
                ).push(head@) + tail);
            }
            chunks.push(head);
            from = from + k;
        }
        let tail = slice_subrange(p, from, n);
        proof {
            assert(tail@ =~= p@.skip(from as int));
            assert(strings::views(chunks@) =~= before + hard_heads(
                p@,
                target as int,
                hard_limit as int,
            ));
        }
        if current.len() == 0 {
            current = strings::vec_of(tail);
        } else if current.len() as u128 + tail.len() as u128 <= target as u128 && current.len()
            as u128 + 2 + tail.len() as u128 <= hard_limit as u128 {
            let ghost c = current@;
            current.push('\n');
            current.push('\n');
            strings::extend_slice(&mut current, tail);
            assert(current@ =~= c + paragraph_break() + tail@);
        } else {
            let done = strings::string_of(current.as_slice());
            proof {
                strings::lemma_views_push(chunks@, done);
            }
            chunks.push(done);
            current = strings::vec_of(tail);
        }
        i += 1;
    }
    assert(pv.take(pv.len() as int) =~= pv);
    if current.len() != 0 {
        let done = strings::string_of(current.as_slice());
        proof {
            strings::lemma_views_push(chunks@, done);
        }
        chunks.push(done);
    }
    chunks
}

/// The heads are no longer than the target, the tail no longer than the hard
/// limit.
proof fn lemma_hard_split_fits(p: Seq<char>, target: int, hard: int)
    requires
        target > 0 || p.len() <= hard,
        hard >= 0,
    ensures
        hard_tail(p, target, hard).len() <= hard,
        forall|i: int|
            0 <= i < hard_heads(p, target, hard).len() ==> 1 <= (#[trigger] hard_heads(
                p,
                target,
                hard,
            )[i]).len() <= target,
    decreases p.len(),
{
    if p.len() > hard && target > 0 {
        let rest = skip_chars(p, target);
        lemma_hard_split_fits(rest, target, hard);
        assert forall|i: int| 0 <= i < hard_heads(p, target, hard).len() implies 1 <= (
        #[trigger] hard_heads(p, target, hard)[i]).len() <= target by {
            if i > 0 {
                assert(hard_heads(p, target, hard)[i] == hard_heads(rest, target, hard)[i - 1]);
            }
        }
    }
}

/// Gathering keeps to the hard limit and finishes no empty fragment.
proof fn lemma_gather_fits(paragraphs: Seq<Seq<char>>, target: int, hard: int)
    requires
        0 <= target <= hard,
        target > 0 || forall|i: int|
            0 <= i < paragraphs.len() ==> strings::trim(#[trigger] paragraphs[i]).len() <= hard,
    ensures
        ({
            let g = gather(paragraphs, target, hard);
            &&& g.current.len() <= hard
            &&& forall|i: int| 0 <= i < g.done.len() ==> 1 <= (#[trigger] g.done[i]).len() <= hard
        }),
    decreases paragraphs.len(),
{
    if paragraphs.len() > 0 {
        lemma_gather_fits(paragraphs.drop_last(), target, hard);
        if target == 0 {
            assert(strings::trim(paragraphs[paragraphs.len() - 1]).len() <= hard);
        }
        lemma_hard_split_fits(strings::trim(paragraphs.last()), target, hard);
    }
}

/// No fragment is empty or holds more characters than the hard limit, if the
/// target lies within it. There are no fragments only if there is no text.
pub proof fn law_guide_chunks_fit(text: Seq<char>, target: int, hard: int)
    requires
        0 <= target <= hard,
        target > 0 || paragraphs_within(text, hard),
    ensures
        guide_chunks(text, target, hard).len() == 0 <==> strings::blank(text),
        forall|i: int|
            0 <= i < guide_chunks(text, target, hard).len() ==> 1 <= (#[trigger] guide_chunks(
                text,
                target,
                hard,
            )[i]).len() <= hard,
{
    let t = strings::trim(text);
    lemma_gather_fits(strings::split_str(t, paragraph_break()), target, hard);
    if t.len() > 0 && guide_chunks(text, target, hard).len() == 0 {
        strings::lemma_trim_twice(text);
        strings::lemma_trim_solid(text);
        t.lemma_filter_contains_rev(|c: char| !strings::is_white(c), t[0]);
        law_guide_chunks_keep_text(text, target, hard);
        assert(guide_chunks(text, target, hard) =~= Seq::empty());
        lemma_solid_counts_empty();
        strings::solid(text).to_multiset_ensures();
    }
}

/// How often each character other than white space occurs.
pub open spec fn solid_counts(s: Seq<char>) -> vstd::multiset::Multiset<char> {
    strings::solid(s).to_multiset()
}

/// The counts of two texts in a row add up.
proof fn lemma_solid_counts_add(a: Seq<char>, b: Seq<char>)
    ensures
        solid_counts(a + b) == solid_counts(a).add(solid_counts(b)),
{
    strings::lemma_solid_add(a, b);
    vstd::seq_lib::lemma_multiset_commutative(strings::solid(a), strings::solid(b));
}

/// An empty text counts nothing.
proof fn lemma_solid_counts_empty()
    ensures
        solid_counts(Seq::empty()) == vstd::multiset::Multiset::<char>::empty(),
{
    let e = Seq::<char>::empty();
    e.lemma_all_neg_filter_empty(|c: char| !strings::is_white(c));
    assert(strings::solid(e) =~= e);
    e.to_multiset_ensures();
    assert(e.to_multiset() =~= vstd::multiset::Multiset::empty());
}

/// The parts of an overlong paragraph are the paragraph.
proof fn lemma_hard_split_keeps(p: Seq<char>, target: int, hard: int)
    ensures
        hard_heads(p, target, hard).flatten() + hard_tail(p, target, hard) == p,
    decreases p.len(),
{
    if p.len() > hard && target > 0 && p.len() > 0 {
        let head = strings::take_chars(p, target);
        let rest = skip_chars(p, target);
        lemma_hard_split_keeps(rest, target, hard);
        vstd::seq_lib::lemma_flatten_concat(seq![head], hard_heads(rest, target, hard));
        seq![head].lemma_flatten_one_element();
        assert(head + rest =~= p);
        let h = hard_heads(rest, target, hard).flatten();
        let t = hard_tail(rest, target, hard);
        assert((head + h) + t =~= head + (h + t));
    } else {
        assert(Seq::<Seq<char>>::empty().flatten() + p =~= p);
    }
}

/// Gathering keeps the counts.
proof fn lemma_gather_keeps(paragraphs: Seq<Seq<char>>, target: int, hard: int)
    ensures
        solid_counts(gather(paragraphs, target, hard).done.flatten()).add(
            solid_counts(gather(paragraphs, target, hard).current),
        ) == solid_counts(paragraphs.flatten()),
    decreases paragraphs.len(),
{
    lemma_solid_counts_empty();
    let e = Seq::<char>::empty();
    if paragraphs.len() == 0 {
        assert(paragraphs =~= Seq::empty());
        assert(solid_counts(e).add(solid_counts(e)) =~= solid_counts(e));
        assert(Seq::<Seq<char>>::empty().flatten() =~= e);
    } else {
        let before = gather(paragraphs.drop_last(), target, hard);
        lemma_gather_keeps(paragraphs.drop_last(), target, hard);
        let last = paragraphs.last();
        assert(paragraphs =~= paragraphs.drop_last().push(last));
        strings::lemma_flatten_push(paragraphs.drop_last(), last);
        lemma_solid_counts_add(paragraphs.drop_last().flatten(), last);
        let p = strings::trim(last);
        strings::lemma_trim_solid(last);
        let heads = hard_heads(p, target, hard);
        let tail = hard_tail(p, target, hard);
        lemma_hard_split_keeps(p, target, hard);
        lemma_solid_counts_add(heads.flatten(), tail);
        let done = before.done + heads;
        vstd::seq_lib::lemma_flatten_concat(before.done, heads);
        lemma_solid_counts_add(before.done.flatten(), heads.flatten());
        let c = before.current;
        let total = solid_counts(paragraphs.flatten());
        assert(solid_counts(done.flatten()).add(solid_counts(c)).add(solid_counts(tail)) =~= total);
        if c.len() == 0 {
            assert(c =~= e);
            assert(solid_counts(done.flatten()).add(solid_counts(tail)) =~= total);
        } else if c.len() + tail.len() <= target && c.len() + 2 + tail.len() <= hard {
            let b = paragraph_break();
            lemma_solid_counts_add(c, b);
            lemma_solid_counts_add(c + b, tail);
            b.lemma_all_neg_filter_empty(|x: char| !strings::is_white(x));
            e.lemma_all_neg_filter_empty(|x: char| !strings::is_white(x));
            assert(strings::solid(b) =~= strings::solid(e));
            assert(solid_counts(done.flatten()).add(solid_counts(c + b + tail)) =~= total);
        } else {
            strings::lemma_flatten_push(done, c);
            lemma_solid_counts_add(done.flatten(), c);
            assert(solid_counts(done.push(c).flatten()).add(solid_counts(tail)) =~= total);
        }
    }
}

/// The paragraphs of a guide, each trimmed.
pub open spec fn trimmed_paragraphs(text: Seq<char>) -> Seq<Seq<char>> {
    strings::split_str(strings::trim(text), paragraph_break()).map_values(
        |p: Seq<char>| strings::trim(p),
    )
}

/// No paragraph of the guide is blank.
pub open spec fn no_blank_paragraph(text: Seq<char>) -> bool {
    forall|i: int|
        0 <= i < trimmed_paragraphs(text).len() ==> (#[trigger] trimmed_paragraphs(text)[i]).len()
            > 0
}

/// Gathering paragraphs that need no cut builds the text that they are.
proof fn lemma_gather_text(paragraphs: Seq<Seq<char>>, target: int, hard: int)
    requires
        forall|i: int|
            0 <= i < paragraphs.len() ==> strings::trim(#[trigger] paragraphs[i]).len() <= hard,
    ensures
        ({
            let g = gather(paragraphs, target, hard);
            let trimmed = paragraphs.map_values(|p: Seq<char>| strings::trim(p));
            let text = strings::join(trimmed, paragraph_break());
            &&& built(g.done, g.current, text)
            &&& paragraphs.len() > 0 && strings::trim(paragraphs.last()).len() > 0
                ==> g.current.len() > 0
            &&& paragraphs.len() > 0 && (forall|i: int|
                0 <= i < trimmed.len() ==> (#[trigger] trimmed[i]).len() > 0) ==> strings::join(
                g.done.push(g.current),
                paragraph_break(),
            ) == text
        }),
    decreases paragraphs.len(),
{
    reveal_with_fuel(breaks, 2);
    let f = |p: Seq<char>| strings::trim(p);
    let trimmed = paragraphs.map_values(f);
    if paragraphs.len() == 0 {
        let none = Seq::<Seq<char>>::empty();
        let gaps = Seq::<nat>::empty();
        assert(trimmed =~= none);
        assert(laid_out(none, gaps) + breaks(0) + Seq::<char>::empty() =~= Seq::<char>::empty());
        assert(built_with(none, Seq::empty(), gaps, 0, Seq::empty()));
    } else {
        let init = paragraphs.drop_last();
        assert forall|i: int| 0 <= i < init.len() implies strings::trim(#[trigger] init[i]).len()
            <= hard by {
            assert(init[i] == paragraphs[i]);
        }
        lemma_gather_text(init, target, hard);
        let n = paragraphs.len() - 1;
        let p = strings::trim(paragraphs[n]);
        let before = gather(init, target, hard);
        let c = before.current;
        let first = init.map_values(f);
        let text = strings::join(first, paragraph_break());
        let gap: nat = if init.len() == 0 {
            0
        } else {
            1
        };
        assert(trimmed =~= first.push(p));
        strings::lemma_join_push(first, p, paragraph_break());
        assert(breaks(1) =~= paragraph_break());
        assert(text + breaks(gap) + p =~= strings::join(trimmed, paragraph_break()));
        lemma_built_more(before.done, c, text, p, gap);
        assert(before.done + Seq::<Seq<char>>::empty() =~= before.done);
        if forall|i: int| 0 <= i < trimmed.len() ==> (#[trigger] trimmed[i]).len() > 0 {
            assert forall|i: int| 0 <= i < first.len() implies (#[trigger] first[i]).len() > 0 by {
                assert(first[i] == trimmed[i]);
            }
            strings::lemma_join_push(before.done, c, paragraph_break());
            strings::lemma_join_push(before.done, c + paragraph_break() + p, paragraph_break());
            strings::lemma_join_push(before.done.push(c), p, paragraph_break());
            if init.len() > 0 {
                assert(first[n - 1].len() > 0);
                assert(init.last() == init[n - 1]);
                if before.done.len() > 0 {
                    let head = strings::join(before.done, paragraph_break()) + paragraph_break();
                    assert(head + (c + paragraph_break() + p) =~= (head + c) + paragraph_break()
                        + p);
                }
            } else {
                assert(before.done.len() == 0 && c.len() == 0);
                strings::lemma_join_push(before.done, p, paragraph_break());
            }
        }
    }
}

/// A text with something other than white space is not blank.
proof fn lemma_not_blank(s: Seq<char>, i: int)
    requires
        0 <= i < s.len(),
        !strings::is_white(s[i]),
    ensures
        strings::trim(s).len() > 0,
{
    strings::lemma_trim_solid(s);
    s.lemma_filter_contains(|c: char| !strings::is_white(c), i);
    if strings::trim(s).len() == 0 {
        strings::trim(s).lemma_all_neg_filter_empty(|c: char| !strings::is_white(c));
    }
}

/// Joined texts begin like the first of them, and if it is empty and others
/// follow, like the separator.
proof fn lemma_join_first(parts: Seq<Seq<char>>, sep: Seq<char>)
    requires
        parts.len() > 0,
        sep.len() > 0,
    ensures
        parts[0].len() > 0 ==> strings::join(parts, sep).len() > 0 && strings::join(parts, sep)[0]
            == parts[0][0],
        parts[0].len() == 0 && parts.len() > 1 ==> strings::join(parts, sep).len() > 0
            && strings::join(parts, sep)[0] == sep[0],
    decreases parts.len(),
{
    if parts.len() > 1 {
        let init = parts.drop_last();
        lemma_join_first(init, sep);
        if init.len() == 1 {
            assert(strings::join(init, sep) == parts[0]);
        }
    }
}

/// The first and the last paragraph of a text that is not blank are not blank.
proof fn lemma_outer_paragraphs(text: Seq<char>)
    requires
        !strings::blank(text),
    ensures
        ({
            let paragraphs = strings::split_str(strings::trim(text), paragraph_break());
            &&& paragraphs.len() > 0
            &&& strings::trim(paragraphs[0]).len() > 0
            &&& strings::trim(paragraphs.last()).len() > 0
        }),
{
    let t = strings::trim(text);
    let paragraphs = strings::split_str(t, paragraph_break());
    strings::lemma_trim_twice(text);
    strings::lemma_join_split_str(t, paragraph_break());
    lemma_join_first(paragraphs, paragraph_break());
    let n = paragraphs.len() as int;
    if paragraphs[0].len() == 0 {
        assert(n > 1);
        assert(t[0] == '\n');
    }
    lemma_not_blank(paragraphs[0], 0);
    let last = paragraphs.last();
    if n > 1 {
        let head = strings::join(paragraphs.drop_last(), paragraph_break()) + paragraph_break();
        assert(t == head + last);
        if last.len() == 0 {
            assert(t.last() == '\n');
        } else {
            assert(t.last() == last.last());
        }
    }
    lemma_not_blank(last, last.len() - 1);
}

/// Where no paragraph has to be cut, the fragments are slices of the trimmed
/// paragraphs in order, with nothing lost but blank lines between them. Without
/// blank paragraphs the fragments joined by blank lines are the paragraphs
/// joined so.
pub proof fn law_guide_chunks_keep_order(text: Seq<char>, target: int, hard: int)
    requires
        paragraphs_within(text, hard),
    ensures
        slices_of(
            guide_chunks(text, target, hard),
            strings::join(trimmed_paragraphs(text), paragraph_break()),
        ),
        no_blank_paragraph(text) ==> strings::join(
            guide_chunks(text, target, hard),
            paragraph_break(),
        ) == strings::join(trimmed_paragraphs(text), paragraph_break()),
{
    let t = strings::trim(text);
    let paragraphs = strings::split_str(t, paragraph_break());
    let trimmed = trimmed_paragraphs(text);
    let whole = strings::join(trimmed, paragraph_break());
    if t.len() == 0 {
        let e = Seq::<char>::empty();
        assert(t =~= e);
        assert(trimmed[0] =~= e) by {
            assert(paragraphs[0] == e);
        }
        assert(laid_out(Seq::<Seq<char>>::empty(), Seq::<nat>::empty()) =~= e);
        assert(whole =~= e);
    } else {
        lemma_outer_paragraphs(text);
        lemma_gather_text(paragraphs, target, hard);
        let g = gather(paragraphs, target, hard);
        let first = trimmed[0];
        let last = trimmed.last();
        assert(first == strings::trim(paragraphs[0]));
        assert(last == strings::trim(paragraphs.last()));
        strings::lemma_trim_twice(paragraphs[0]);
        strings::lemma_trim_twice(paragraphs.last());
        lemma_join_first(trimmed, paragraph_break());
        assert(whole.last() == last.last());
        lemma_built_slices(g.done, g.current, whole);
    }
}

/// Splitting a guide loses nothing but white space: every other character
/// occurs as often in the fragments as in the guide.
pub proof fn law_guide_chunks_keep_text(text: Seq<char>, target: int, hard: int)
    ensures
        solid_counts(guide_chunks(text, target, hard).flatten()) == solid_counts(text),
{
    let t = strings::trim(text);
    let e = Seq::<char>::empty();
    strings::lemma_trim_solid(text);
    lemma_solid_counts_empty();
    if t.len() == 0 {
        assert(t =~= e);
        assert(Seq::<Seq<char>>::empty().flatten() =~= e);
    } else {
        let paragraphs = strings::split_str(t, paragraph_break());
        strings::lemma_split_str_keeps(t, paragraph_break(), |c: char| !strings::is_white(c));
        lemma_gather_keeps(paragraphs, target, hard);
        let g = gather(paragraphs, target, hard);
        if g.current.len() == 0 {
            assert(g.current =~= e);
            assert(solid_counts(g.done.flatten()).add(solid_counts(e)) =~= solid_counts(
                g.done.flatten(),
            ));
        } else {
            strings::lemma_flatten_push(g.done, g.current);
            lemma_solid_counts_add(g.done.flatten(), g.current);
        }
    }
}

// ---------------------------------------------------------------------------
// Sets of words

/// A set of words, held as a list: the specification of hash sets reaches keys
/// such as integers, not texts.
pub struct WordSet {
    words: Vec<String>,
}

impl View for WordSet {
    type V = Set<Seq<char>>;

    closed spec fn view(&self) -> Set<Seq<char>> {
        strings::views(self.words@).to_set()
    }
}

impl WordSet {
    /// No word is held twice.
    #[verifier::type_invariant]
    spec fn distinct(self) -> bool {
        strings::views(self.words@).no_duplicates()
    }

    /// The set without words.
    pub fn new() -> (r: WordSet)
        ensures
            r@ == Set::<Seq<char>>::empty(),
    {
        let r = WordSet { words: Vec::new() };
        assert(r@ =~= Set::empty());
        r
    }

    /// The word is in the set.
    pub fn contains(&self, word: &str) -> (r: bool)
        ensures
            r == self@.contains(word@),
    {
        let ghost v = strings::views(self.words@);
        let mut i: usize = 0;
        while i < self.words.len()
            invariant
                i <= self.words@.len(),
                v == strings::views(self.words@),
                forall|j: int| 0 <= j < i ==> #[trigger] v[j] != word@,
            decreases self.words@.len() - i,
        {
            if strings::str_eq(self.words[i].as_str(), word) {
                assert(v[i as int] == word@);
                return true;
            }
            i += 1;
        }
        false
    }

    /// Adds a word.
    pub fn insert(&mut self, word: String)
        ensures
            final(self)@ == old(self)@.insert(word@),
    {
        proof {
            use_type_invariant(&*self);
        }
        let ghost v = strings::views(self.words@);
        if self.contains(word.as_str()) {
            assert(self@.insert(word@) =~= self@);
            return;
        }
        let mut words: Vec<String> = Vec::new();
        std::mem::swap(&mut words, &mut self.words);
        proof {
            strings::lemma_views_push(words@, word);
            v.lemma_push_to_set_commute(word@);
        }
        words.push(word);
        self.words = words;
    }

    /// The number of words.
    pub fn len(&self) -> (r: usize)
        ensures
            r == self@.len(),
            self@.finite(),
    {
        proof {
            use_type_invariant(self);
            strings::views(self.words@).unique_seq_to_set();
        }
        self.words.len()
    }

    /// The number of words that two sets share.
    pub fn shared(&self, other: &WordSet) -> (r: usize)
        ensures
            r == self@.intersect(other@).len(),
    {
        proof {
            use_type_invariant(self);
        }
        let ghost v = strings::views(self.words@);
        let mut count: usize = 0;
        let mut i: usize = 0;
        assert(v.take(0).to_set().intersect(other@) =~= Set::empty());
        while i < self.words.len()
            invariant
                i <= self.words@.len(),
                v == strings::views(self.words@),
                v.no_duplicates(),
                count <= i,
                v.take(i as int).to_set().intersect(other@).finite(),
                count == v.take(i as int).to_set().intersect(other@).len(),
            decreases self.words@.len() - i,
        {
            let ghost before = v.take(i as int);
            let ghost w = v[i as int];
            proof {
                assert(v.take(i + 1) =~= before.push(w));
                before.lemma_push_to_set_commute(w);
                assert(!before.to_set().contains(w));
            }
            if other.contains(self.words[i].as_str()) {
                assert(before.to_set().insert(w).intersect(other@) =~= before.to_set().intersect(
                    other@,
                ).insert(w));
                count += 1;
            } else {
                assert(before.to_set().insert(w).intersect(other@) =~= before.to_set().intersect(
                    other@,
                ));
            }
            i += 1;
        }
        assert(v.take(v.len() as int) =~= v);
        count
    }
}

/// The words of at least three letters or digits in the lower-case text.
pub open spec fn significant_words(text: Seq<char>) -> Set<Seq<char>> {
    strings::split_min(
        strings::lowercase(text),
        strings::Separator::NonAlphanumeric,
        3,
    ).to_set()
}

/// The words of a text are just the maximal runs of letters and digits in the
/// lower-case text that are at least three characters long.
pub proof fn law_words_are_runs(text: Seq<char>, w: Seq<char>)
    ensures
        significant_words(text).contains(w) <==> w.len() >= 3 && strings::is_run(
            strings::lowercase(text),
            |c: char| !strings::alphanumeric(c),
            w,
        ),
{
    let s = strings::lowercase(text);
    let sep = strings::Separator::NonAlphanumeric;
    strings::lemma_split_min_runs(s, sep, 3, w);
    let f = |c: char| sep.cuts(c);
    let g = |c: char| !strings::alphanumeric(c);
    assert(f =~= g);
}

/// Lowering a text first does not change its words, as far as lowering it twice
/// is lowering it once.
pub proof fn law_lowered_words(text: Seq<char>)
    ensures
        strings::lowercase(strings::lowercase(text)) == strings::lowercase(text)
            ==> significant_words(strings::lowercase(text)) == significant_words(text),
{
}

/// The set of the given words.
pub fn word_set(words: Vec<String>) -> (r: WordSet)
    ensures
        r@ == strings::views(words@).to_set(),
{
    let ghost v = strings::views(words@);
    let mut out = WordSet::new();
    let mut i: usize = 0;
    assert(v.take(0).to_set() =~= Set::empty());
    while i < words.len()
        invariant
            i <= words@.len(),
            v == strings::views(words@),
            out@ == v.take(i as int).to_set(),
        decreases words@.len() - i,
    {
        proof {
            assert(v.take(i + 1) =~= v.take(i as int).push(v[i as int]));
            v.take(i as int).lemma_push_to_set_commute(v[i as int]);
        }
        out.insert(words[i].clone());
        i += 1;
    }
    assert(v.take(v.len() as int) =~= v);
    out
}

/// Significant words (lower case, at least three characters) of a text.
pub fn meaningful_words(text: &str) -> (r: WordSet)
    ensures
        r@ == significant_words(text@),
{
    let lower = text.to_lowercase();
    let cs = strings::chars_of(lower.as_str());
    let words = strings::slice_split_min(
        cs.as_slice(),
        &strings::Separator::NonAlphanumeric,
        3,
    );
    word_set(words)
}

} // verus!
