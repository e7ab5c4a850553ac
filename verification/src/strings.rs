//! Text primitives over sequences of characters.
//!
//! Every function that takes or returns text is specified over `Seq<char>`,
//! the view of `str` and `String`.

pub mod basics;

use vstd::prelude::*;
use vstd::slice::slice_subrange;
use vstd::utf8::*;

verus! {

/// The Unicode `White_Space` property.
pub open spec fn is_white(c: char) -> bool {
    ||| 0x09 <= c as u32 <= 0x0d
    ||| c as u32 == 0x20
    ||| c as u32 == 0x85
    ||| c as u32 == 0xa0
    ||| c as u32 == 0x1680
    ||| 0x2000 <= c as u32 <= 0x200a
    ||| c as u32 == 0x2028
    ||| c as u32 == 0x2029
    ||| c as u32 == 0x202f
    ||| c as u32 == 0x205f
    ||| c as u32 == 0x3000
}

/// `char::is_whitespace`: true exactly for the characters with the Unicode
/// `White_Space` property.
pub assume_specification[ char::is_whitespace ](c: char) -> (r: bool)
    ensures
        r == is_white(c),
;

/// Whether a character is a letter or a number in the sense of
/// `char::is_alphanumeric`.
pub uninterp spec fn alphanumeric(c: char) -> bool;

/// `char::is_alphanumeric`: a function of the character alone.
pub assume_specification[ char::is_alphanumeric ](c: char) -> (r: bool)
    ensures
        r == alphanumeric(c),
;

/// The text that `str::to_lowercase` returns for a text.
pub uninterp spec fn lowercase(s: Seq<char>) -> Seq<char>;

/// `str::to_lowercase`: a function of the text alone.
pub assume_specification[ str::to_lowercase ](s: &str) -> (r: String)
    ensures
        r@ == lowercase(s@),
;

/// `String::push`: appends one character.
pub assume_specification[ String::push ](s: &mut String, c: char)
    ensures
        final(s)@ == old(s)@.push(c),
;

/// The text that `String::from_utf8_lossy` makes of bytes.
pub uninterp spec fn decoded(bytes: Seq<u8>) -> Seq<char>;

/// Calls `String::from_utf8_lossy`. Claims that the text is decided by the
/// bytes alone, names it [`decoded`], and claims that valid UTF-8 is decoded
/// as such.
#[verifier::external_body]
pub(crate) fn lossy_text(bytes: &[u8]) -> (r: String)
    ensures
        r@ == decoded(bytes@),
        vstd::utf8::valid_utf8(bytes@) ==> r@ == vstd::utf8::decode_utf8(bytes@),
{
    String::from_utf8_lossy(bytes).into_owned()
}

/// The characters of a text.
pub fn chars_of(s: &str) -> (r: Vec<char>)
    ensures
        r@ == s@,
{
    let mut out: Vec<char> = Vec::new();
    for c in it: s.chars()
        invariant
            out@ == it.seq().take(it.index()),
            it.seq() == s@,
    {
        out.push(c);
    }
    out
}

/// The text made of the given characters.
pub fn string_of(s: &[char]) -> (r: String)
    ensures
        r@ == s@,
{
    let mut out = String::new();
    let n: usize = s.len();
    let mut i: usize = 0;
    while i < n
        invariant
            i <= n,
            n == s@.len(),
            out@ == s@.take(i as int),
        decreases n - i,
    {
        out.push(s[i]);
        i += 1;
    }
    out
}

/// Appends characters.
pub fn extend_slice(out: &mut Vec<char>, s: &[char])
    ensures
        final(out)@ == old(out)@ + s@,
{
    let n: usize = s.len();
    let mut i: usize = 0;
    assert(old(out)@ + s@.take(0) =~= old(out)@);
    while i < n
        invariant
            i <= n == s@.len(),
            out@ == old(out)@ + s@.take(i as int),
        decreases n - i,
    {
        assert((old(out)@ + s@.take(i as int)).push(s@[i as int]) =~= old(out)@ + s@.take(i + 1));
        out.push(s[i]);
        i += 1;
    }
    assert(s@.take(n as int) =~= s@);
}

/// The characters of a slice.
pub fn vec_of(s: &[char]) -> (r: Vec<char>)
    ensures
        r@ == s@,
{
    let mut out: Vec<char> = Vec::new();
    extend_slice(&mut out, s);
    assert(out@ =~= s@);
    out
}

/// Two texts are equal.
pub fn str_eq(a: &str, b: &str) -> (r: bool)
    ensures
        r == (a@ == b@),
{
    let x = a.to_owned();
    let y = b.to_owned();
    x == y
}

/// Two slices of characters are equal.
pub fn slice_eq(a: &[char], b: &[char]) -> (r: bool)
    ensures
        r == (a@ == b@),
{
    if a.len() != b.len() {
        return false;
    }
    let mut i: usize = 0;
    while i < a.len()
        invariant
            i <= a@.len(),
            a@.len() == b@.len(),
            forall|j: int| 0 <= j < i ==> a@[j] == b@[j],
        decreases a@.len() - i,
    {
        if a[i] != b[i] {
            return false;
        }
        i += 1;
    }
    assert(a@ =~= b@);
    true
}

// ---------------------------------------------------------------------------
// Trimming

/// Text without its leading white space.
pub open spec fn trim_start(s: Seq<char>) -> Seq<char>
    decreases s.len(),
{
    if s.len() > 0 && is_white(s[0]) {
        trim_start(s.drop_first())
    } else {
        s
    }
}

/// Text without its trailing white space.
pub open spec fn trim_end(s: Seq<char>) -> Seq<char>
    decreases s.len(),
{
    if s.len() > 0 && is_white(s.last()) {
        trim_end(s.drop_last())
    } else {
        s
    }
}

/// Text without leading and trailing white space.
pub open spec fn trim(s: Seq<char>) -> Seq<char> {
    trim_end(trim_start(s))
}

/// A text that holds nothing but white space.
pub open spec fn blank(s: Seq<char>) -> bool {
    trim(s).len() == 0
}

/// Text without the copies of `c` at its end.
pub open spec fn trim_end_char(s: Seq<char>, c: char) -> Seq<char>
    decreases s.len(),
{
    if s.len() > 0 && s.last() == c {
        trim_end_char(s.drop_last(), c)
    } else {
        s
    }
}

/// Text without the copies of `c` at its start.
pub open spec fn trim_start_char(s: Seq<char>, c: char) -> Seq<char>
    decreases s.len(),
{
    if s.len() > 0 && s[0] == c {
        trim_start_char(s.drop_first(), c)
    } else {
        s
    }
}

/// Text without the copies of `c` at either end.
pub open spec fn trim_char(s: Seq<char>, c: char) -> Seq<char> {
    trim_end_char(trim_start_char(s, c), c)
}

/// See [`trim_start`].
pub fn slice_trim_start(s: &[char]) -> (r: &[char])
    ensures
        r@ == trim_start(s@),
{
    let n: usize = s.len();
    let mut i: usize = 0;
    assert(s@.skip(0) =~= s@);
    while i < n && s[i].is_whitespace()
        invariant
            i <= n == s@.len(),
            trim_start(s@) == trim_start(s@.skip(i as int)),
        decreases n - i,
    {
        assert(s@.skip(i as int).drop_first() =~= s@.skip(i + 1));
        i += 1;
    }
    slice_subrange(s, i, n)
}

/// See [`trim_end`].
pub fn slice_trim_end(s: &[char]) -> (r: &[char])
    ensures
        r@ == trim_end(s@),
{
    let mut n: usize = s.len();
    assert(s@.take(n as int) =~= s@);
    while n > 0 && s[n - 1].is_whitespace()
        invariant
            n <= s@.len(),
            trim_end(s@) == trim_end(s@.take(n as int)),
        decreases n,
    {
        assert(s@.take(n as int).drop_last() =~= s@.take(n - 1));
        n -= 1;
    }
    slice_subrange(s, 0, n)
}

/// Trimming again changes nothing.
pub proof fn lemma_trim_twice(s: Seq<char>)
    ensures
        trim(trim(s)) == trim(s),
        trim(s).len() > 0 ==> !is_white(trim(s)[0]) && !is_white(trim(s).last()),
{
    lemma_trim_start_ends(s);
    lemma_trim_end_ends(trim_start(s));
}

/// What is left does not start with white space.
proof fn lemma_trim_start_ends(s: Seq<char>)
    ensures
        trim_start(s).len() > 0 ==> !is_white(trim_start(s)[0]),
    decreases s.len(),
{
    if s.len() > 0 && is_white(s[0]) {
        lemma_trim_start_ends(s.drop_first());
    }
}

/// What is left does not end with white space and starts as before.
proof fn lemma_trim_end_ends(s: Seq<char>)
    ensures
        trim_end(s).len() > 0 ==> !is_white(trim_end(s).last()) && trim_end(s)[0] == s[0],
    decreases s.len(),
{
    if s.len() > 0 && is_white(s.last()) {
        lemma_trim_end_ends(s.drop_last());
    }
}

/// See [`trim`].
pub fn slice_trim(s: &[char]) -> (r: &[char])
    ensures
        r@ == trim(s@),
{
    slice_trim_end(slice_trim_start(s))
}

/// See [`trim_end_char`].
pub fn slice_trim_end_char(s: &[char], c: char) -> (r: &[char])
    ensures
        r@ == trim_end_char(s@, c),
{
    let mut n: usize = s.len();
    assert(s@.take(n as int) =~= s@);
    while n > 0 && s[n - 1] == c
        invariant
            n <= s@.len(),
            trim_end_char(s@, c) == trim_end_char(s@.take(n as int), c),
        decreases n,
    {
        assert(s@.take(n as int).drop_last() =~= s@.take(n - 1));
        n -= 1;
    }
    slice_subrange(s, 0, n)
}

/// See [`trim_char`].
pub fn slice_trim_char(s: &[char], c: char) -> (r: &[char])
    ensures
        r@ == trim_char(s@, c),
{
    let n: usize = s.len();
    let mut i: usize = 0;
    assert(s@.skip(0) =~= s@);
    while i < n && s[i] == c
        invariant
            i <= n == s@.len(),
            trim_start_char(s@, c) == trim_start_char(s@.skip(i as int), c),
        decreases n - i,
    {
        assert(s@.skip(i as int).drop_first() =~= s@.skip(i + 1));
        i += 1;
    }
    slice_trim_end_char(slice_subrange(s, i, n), c)
}

/// See [`trim`].
pub fn trimmed(s: &str) -> (r: String)
    ensures
        r@ == trim(s@),
{
    let cs = chars_of(s);
    string_of(slice_trim(cs.as_slice()))
}

/// See [`blank`].
pub fn is_blank(s: &str) -> (r: bool)
    ensures
        r == blank(s@),
{
    let cs = chars_of(s);
    slice_trim(cs.as_slice()).len() == 0
}

/// The first `n` characters of a text, or all of it if it is shorter.
pub open spec fn take_chars(s: Seq<char>, n: int) -> Seq<char> {
    if n < s.len() {
        s.take(n)
    } else {
        s
    }
}

/// See [`take_chars`].
pub fn first_chars(s: &str, n: usize) -> (r: String)
    ensures
        r@ == take_chars(s@, n as int),
{
    let cs = chars_of(s);
    if n < cs.len() {
        string_of(slice_subrange(cs.as_slice(), 0, n))
    } else {
        string_of(cs.as_slice())
    }
}

// ---------------------------------------------------------------------------
// Prefixes, suffixes and search

/// `p` starts `s`.
pub fn slice_starts_with(s: &[char], p: &[char]) -> (r: bool)
    ensures
        r == p@.is_prefix_of(s@),
{
    if s.len() < p.len() {
        return false;
    }
    let r = slice_eq(slice_subrange(s, 0, p.len()), p);
    r
}

/// `p` ends `s`.
pub fn slice_ends_with(s: &[char], p: &[char]) -> (r: bool)
    ensures
        r == p@.is_suffix_of(s@),
{
    if s.len() < p.len() {
        return false;
    }
    let r = slice_eq(slice_subrange(s, s.len() - p.len(), s.len()), p);
    r
}

/// `p` starts `s`.
pub fn starts_with(s: &str, p: &str) -> (r: bool)
    ensures
        r == p@.is_prefix_of(s@),
{
    let a = chars_of(s);
    let b = chars_of(p);
    slice_starts_with(a.as_slice(), b.as_slice())
}

/// `p` ends `s`.
pub fn ends_with(s: &str, p: &str) -> (r: bool)
    ensures
        r == p@.is_suffix_of(s@),
{
    let a = chars_of(s);
    let b = chars_of(p);
    slice_ends_with(a.as_slice(), b.as_slice())
}

/// The first position from `i` on at which `p` occurs in `s`.
pub open spec fn find_from(s: Seq<char>, p: Seq<char>, i: int) -> Option<int>
    decreases s.len() - i + 1,
{
    if i < 0 || i + p.len() > s.len() {
        None
    } else if s.subrange(i, i + p.len()) == p {
        Some(i)
    } else {
        find_from(s, p, i + 1)
    }
}

/// The first position at which `p` occurs in `s`.
pub open spec fn find(s: Seq<char>, p: Seq<char>) -> Option<int> {
    find_from(s, p, 0)
}

/// What [`find_from`] says of the positions that it passes over.
pub proof fn lemma_find_from(s: Seq<char>, p: Seq<char>, i: int)
    requires
        0 <= i,
    ensures
        match find_from(s, p, i) {
            Some(k) => i <= k && k + p.len() <= s.len() && s.subrange(k, k + p.len()) == p
                && forall|j: int|
                i <= j < k ==> #[trigger] s.subrange(j, j + p.len()) != p,
            None => forall|j: int|
                i <= j && j + p.len() <= s.len() ==> #[trigger] s.subrange(j, j + p.len()) != p,
        },
    decreases s.len() - i + 1,
{
    if i + p.len() > s.len() {
    } else if s.subrange(i, i + p.len()) == p {
    } else {
        lemma_find_from(s, p, i + 1);
    }
}

/// See [`find`].
pub fn slice_find(s: &[char], p: &[char]) -> (r: Option<usize>)
    ensures
        match r {
            Some(i) => find(s@, p@) == Some(i as int) && i + p@.len() <= s@.len(),
            None => find(s@, p@) is None,
        },
{
    let n: usize = s.len();
    let m: usize = p.len();
    if m > n {
        return None;
    }
    let mut i: usize = 0;
    while i <= n - m
        invariant
            m <= n,
            n == s@.len(),
            m == p@.len(),
            i <= n - m + 1,
            find(s@, p@) == find_from(s@, p@, i as int),
        decreases n - i,
    {
        if slice_eq(slice_subrange(s, i, i + m), p) {
            return Some(i);
        }
        if i == n - m {
            assert(find_from(s@, p@, i + 1) is None);
            return None;
        }
        i += 1;
    }
    None
}

/// `p` occurs in `s`.
pub open spec fn occurs(s: Seq<char>, p: Seq<char>) -> bool {
    find(s, p) is Some
}

/// See [`occurs`].
pub fn contains(s: &str, p: &str) -> (r: bool)
    ensures
        r == occurs(s@, p@),
{
    let a = chars_of(s);
    let b = chars_of(p);
    slice_find(a.as_slice(), b.as_slice()).is_some()
}

// ---------------------------------------------------------------------------
// Splitting and joining

/// The views of a list of texts.
pub open spec fn views(v: Seq<String>) -> Seq<Seq<char>> {
    v.map_values(|t: String| t@)
}

/// Appending one text appends its view.
pub proof fn lemma_views_push(v: Seq<String>, t: String)
    ensures
        views(v.push(t)) == views(v).push(t@),
{
    assert(views(v.push(t)) =~= views(v).push(t@));
}

/// The characters at which a text is cut.
#[derive(Clone, Copy)]
pub enum Separator {
    /// White space.
    White,
    /// Everything that is neither a letter nor a number.
    NonAlphanumeric,
}

impl Separator {
    /// `c` is one of the characters at which a text is cut.
    pub open spec fn cuts(self, c: char) -> bool {
        match self {
            Separator::White => is_white(c),
            Separator::NonAlphanumeric => !alphanumeric(c),
        }
    }

    /// See [`Separator::cuts`].
    pub fn cuts_at(&self, c: char) -> (r: bool)
        ensures
            r == self.cuts(c),
    {
        match self {
            Separator::White => c.is_whitespace(),
            Separator::NonAlphanumeric => !c.is_alphanumeric(),
        }
    }
}

/// The list with `c` appended to its last text.
pub open spec fn extend_last(parts: Seq<Seq<char>>, c: char) -> Seq<Seq<char>> {
    parts.drop_last().push(parts.last().push(c))
}

/// The pieces of a text between separators, empty pieces included.
pub open spec fn split(s: Seq<char>, sep: Separator) -> Seq<Seq<char>>
    decreases s.len(),
{
    if s.len() == 0 {
        seq![Seq::<char>::empty()]
    } else if sep.cuts(s.last()) {
        split(s.drop_last(), sep).push(Seq::empty())
    } else {
        extend_last(split(s.drop_last(), sep), s.last())
    }
}

/// The pieces that hold at least `min` characters.
pub open spec fn split_min(s: Seq<char>, sep: Separator, min: int) -> Seq<Seq<char>> {
    split(s, sep).filter(|w: Seq<char>| w.len() >= min)
}

/// The words of a text: its maximal runs without white space.
pub open spec fn words(s: Seq<char>) -> Seq<Seq<char>> {
    split_min(s, Separator::White, 1)
}

/// A text has at least one piece.
pub proof fn lemma_split_nonempty(s: Seq<char>, sep: Separator)
    ensures
        split(s, sep).len() >= 1,
    decreases s.len(),
{
    if s.len() > 0 {
        lemma_split_nonempty(s.drop_last(), sep);
    }
}

/// The pieces of two texts with a separator between them are the pieces of
/// the one and of the other.
pub proof fn lemma_split_concat(a: Seq<char>, c: char, b: Seq<char>, sep: Separator)
    requires
        sep.cuts(c),
    ensures
        split(a.push(c) + b, sep) == split(a, sep) + split(b, sep),
    decreases b.len(),
{
    if b.len() == 0 {
        assert(a.push(c) + b =~= a.push(c));
        assert(a.push(c).drop_last() =~= a);
        assert(split(a, sep).push(Seq::empty()) =~= split(a, sep) + split(b, sep));
    } else {
        let t = b.drop_last();
        lemma_split_concat(a, c, t, sep);
        lemma_split_nonempty(t, sep);
        assert((a.push(c) + b).drop_last() =~= a.push(c) + t);
        let left = split(a, sep);
        let right = split(t, sep);
        if sep.cuts(b.last()) {
            assert((left + right).push(Seq::empty()) =~= left + right.push(Seq::empty()));
        } else {
            assert(extend_last(left + right, b.last()) =~= left + extend_last(right, b.last()));
        }
    }
}

/// A text without separators is its only piece.
pub proof fn lemma_split_single(s: Seq<char>, sep: Separator)
    requires
        forall|i: int| 0 <= i < s.len() ==> !sep.cuts(#[trigger] s[i]),
    ensures
        split(s, sep) == seq![s],
    decreases s.len(),
{
    if s.len() > 0 {
        let t = s.drop_last();
        assert forall|i: int| 0 <= i < t.len() implies !sep.cuts(#[trigger] t[i]) by {
            assert(t[i] == s[i]);
        }
        lemma_split_single(t, sep);
        assert(!sep.cuts(s[s.len() - 1]));
        assert(t.push(s.last()) =~= s);
        assert(extend_last(seq![t], s.last()) =~= seq![s]);
    } else {
        assert(s =~= Seq::<char>::empty());
    }
}

/// A text that stands at `a` in another one and is as long as it can be without
/// a separator.
pub open spec fn run_at(s: Seq<char>, cut: spec_fn(char) -> bool, a: int, w: Seq<char>) -> bool {
    &&& 0 <= a && a + w.len() <= s.len()
    &&& s.subrange(a, a + w.len()) == w
    &&& forall|i: int| 0 <= i < w.len() ==> !cut(#[trigger] w[i])
    &&& a == 0 || cut(s[a - 1])
    &&& a + w.len() == s.len() || cut(s[a + w.len()])
}

/// A maximal run of a text without separators.
pub open spec fn is_run(s: Seq<char>, cut: spec_fn(char) -> bool, w: Seq<char>) -> bool {
    exists|a: int| #[trigger] run_at(s, cut, a, w)
}

/// A run that ends before the end of the text.
spec fn earlier_run(s: Seq<char>, cut: spec_fn(char) -> bool, w: Seq<char>) -> bool {
    exists|a: int| #[trigger] run_at(s, cut, a, w) && a + w.len() < s.len()
}

/// The texts are the runs of a text in order: the last one stands at its end,
/// the others before it, and there are no others.
spec fn are_runs(parts: Seq<Seq<char>>, s: Seq<char>, cut: spec_fn(char) -> bool) -> bool {
    &&& parts.len() >= 1
    &&& run_at(s, cut, s.len() - parts.last().len(), parts.last())
    &&& forall|k: int|
        0 <= k < parts.len() - 1 ==> earlier_run(s, cut, #[trigger] parts[k])
    &&& forall|a: int, w: Seq<char>|
        #[trigger] run_at(s, cut, a, w) && a + w.len() < s.len() ==> parts.drop_last().contains(w)
}

/// Only one run stands at the end of a text.
proof fn lemma_last_run(
    s: Seq<char>,
    cut: spec_fn(char) -> bool,
    a: int,
    w: Seq<char>,
    b: int,
    x: Seq<char>,
)
    requires
        run_at(s, cut, a, w),
        run_at(s, cut, b, x),
        a + w.len() == s.len() == b + x.len(),
    ensures
        w == x,
{
    if a < b {
        assert(s.subrange(a, a + w.len())[b - 1 - a] == s[b - 1]);
        assert(!cut(w[b - 1 - a]));
    } else if b < a {
        assert(s.subrange(b, b + x.len())[a - 1 - b] == s[a - 1]);
        assert(!cut(x[a - 1 - b]));
    }
}

/// A run that ends before the last character is one of the shorter text.
proof fn lemma_run_shorter(s: Seq<char>, cut: spec_fn(char) -> bool, a: int, w: Seq<char>)
    requires
        s.len() > 0,
        a + w.len() < s.len(),
        a + w.len() < s.len() - 1 || cut(s.last()),
    ensures
        run_at(s, cut, a, w) <==> run_at(s.drop_last(), cut, a, w),
{
    let t = s.drop_last();
    if 0 <= a {
        assert(s.subrange(a, a + w.len()) =~= t.subrange(a, a + w.len()));
    }
}

/// One more character: a separator begins a new run, another one lengthens the
/// last.
proof fn lemma_runs_step(parts: Seq<Seq<char>>, s: Seq<char>, cut: spec_fn(char) -> bool)
    requires
        s.len() > 0,
        are_runs(parts, s.drop_last(), cut),
    ensures
        cut(s.last()) ==> are_runs(parts.push(Seq::empty()), s, cut),
        !cut(s.last()) ==> are_runs(extend_last(parts, s.last()), s, cut),
{
    let t = s.drop_last();
    let n = t.len() as int;
    let c = s.last();
    let last = parts.last();
    let e = Seq::<char>::empty();
    if cut(c) {
        let more = parts.push(e);
        assert(s.subrange(n + 1, n + 1) =~= e);
        assert(more.last() == e);
        assert(run_at(s, cut, s.len() - e.len(), e));
        assert(more.drop_last() =~= parts);
        assert forall|k: int| 0 <= k < more.len() - 1 implies earlier_run(
            s,
            cut,
            #[trigger] more[k],
        ) by {
            let w = parts[k];
            if k < parts.len() - 1 {
                assert(earlier_run(t, cut, parts[k]));
                let a = choose|a: int| #[trigger] run_at(t, cut, a, w) && a + w.len() < t.len();
                lemma_run_shorter(s, cut, a, w);
                assert(run_at(s, cut, a, more[k]));
            } else {
                lemma_run_shorter(s, cut, n - w.len(), w);
                assert(run_at(s, cut, n - w.len(), more[k]));
            }
        }
        assert forall|a: int, w: Seq<char>|
            #[trigger] run_at(s, cut, a, w) && a + w.len() < s.len() implies more.drop_last().contains(
            w,
        ) by {
            lemma_run_shorter(s, cut, a, w);
            if a + w.len() == n {
                lemma_last_run(t, cut, a, w, n - last.len(), last);
                assert(parts[parts.len() - 1] == w);
            } else {
                let k = parts.drop_last().index_of(w);
                assert(parts.drop_last()[k] == w);
                assert(parts[k] == w);
            }
        }
    } else {
        let more = extend_last(parts, c);
        let longer = last.push(c);
        let a0 = n - last.len();
        assert(t.subrange(a0, n) =~= last);
        assert(s.subrange(a0, n + 1) =~= longer);
        assert forall|i: int| 0 <= i < longer.len() implies !cut(#[trigger] longer[i]) by {
            if i < last.len() {
                assert(longer[i] == last[i]);
            }
        }
        assert(more.last() == longer);
        assert(s.len() - longer.len() == a0);
        assert(s.subrange(a0, a0 + longer.len()) == longer);
        assert(run_at(s, cut, a0, longer));
        assert(more.drop_last() =~= parts.drop_last());
        assert forall|k: int| 0 <= k < more.len() - 1 implies earlier_run(
            s,
            cut,
            #[trigger] more[k],
        ) by {
            let w = parts[k];
            assert(earlier_run(t, cut, parts[k]));
            let a = choose|a: int| #[trigger] run_at(t, cut, a, w) && a + w.len() < t.len();
            lemma_run_shorter(s, cut, a, w);
            assert(run_at(s, cut, a, more[k]));
        }
        assert forall|a: int, w: Seq<char>|
            #[trigger] run_at(s, cut, a, w) && a + w.len() < s.len() implies more.drop_last().contains(
            w,
        ) by {
            assert(a + w.len() < n);
            lemma_run_shorter(s, cut, a, w);
        }
    }
}

/// The pieces of a text are its runs without separators.
proof fn lemma_split_runs(s: Seq<char>, sep: Separator)
    ensures
        are_runs(split(s, sep), s, |c: char| sep.cuts(c)),
    decreases s.len(),
{
    let cut = |c: char| sep.cuts(c);
    if s.len() == 0 {
        let e = Seq::<char>::empty();
        assert(s.subrange(0, 0) =~= e);
        assert(run_at(s, cut, 0, e));
    } else {
        lemma_split_runs(s.drop_last(), sep);
        lemma_runs_step(split(s.drop_last(), sep), s, cut);
    }
}

/// What is among runs in order is a run, and the other way round.
proof fn lemma_among_runs(
    parts: Seq<Seq<char>>,
    s: Seq<char>,
    cut: spec_fn(char) -> bool,
    w: Seq<char>,
)
    requires
        are_runs(parts, s, cut),
    ensures
        parts.contains(w) <==> is_run(s, cut, w),
{
    let last = parts.last();
    if parts.contains(w) {
        let k = parts.index_of(w);
        if k < parts.len() - 1 {
            assert(earlier_run(s, cut, parts[k]));
            let a = choose|a: int|
                #[trigger] run_at(s, cut, a, parts[k]) && a + parts[k].len() < s.len();
            assert(run_at(s, cut, a, w));
        } else {
            assert(run_at(s, cut, s.len() - last.len(), w));
        }
    }
    if is_run(s, cut, w) {
        let a = choose|a: int| #[trigger] run_at(s, cut, a, w);
        if a + w.len() < s.len() {
            let k = parts.drop_last().index_of(w);
            assert(parts.drop_last()[k] == w);
            assert(parts[k] == w);
        } else {
            lemma_last_run(s, cut, a, w, s.len() - last.len(), last);
            assert(parts[parts.len() - 1] == w);
        }
    }
}

/// The pieces of at least `min` characters are just the maximal runs of that
/// length without separators.
pub proof fn lemma_split_min_runs(s: Seq<char>, sep: Separator, min: int, w: Seq<char>)
    ensures
        split_min(s, sep, min).contains(w) <==> w.len() >= min && is_run(
            s,
            |c: char| sep.cuts(c),
            w,
        ),
{
    let parts = split(s, sep);
    let p = |w: Seq<char>| w.len() >= min;
    lemma_split_runs(s, sep);
    lemma_among_runs(parts, s, |c: char| sep.cuts(c), w);
    if parts.filter(p).contains(w) {
        let i = parts.filter(p).index_of(w);
        parts.lemma_filter_pred(p, i);
        parts.lemma_filter_contains_rev(p, w);
    }
    if parts.contains(w) && p(w) {
        let k = parts.index_of(w);
        parts.lemma_filter_contains(p, k);
    }
}

/// The words of two texts with a space between them are the words of the one
/// and of the other.
pub proof fn lemma_words_concat(a: Seq<char>, b: Seq<char>)
    ensures
        words(a.push(' ') + b) == words(a) + words(b),
{
    lemma_split_concat(a, ' ', b, Separator::White);
    Seq::filter_distributes_over_add(
        split(a, Separator::White),
        split(b, Separator::White),
        |w: Seq<char>| w.len() >= 1,
    );
}

/// No character is white space.
pub open spec fn no_white(s: Seq<char>) -> bool {
    forall|i: int| 0 <= i < s.len() ==> !is_white(#[trigger] s[i])
}

/// A text without white space is one word, or none if it is empty.
pub proof fn lemma_words_single(s: Seq<char>)
    requires
        no_white(s),
    ensures
        s.len() > 0 ==> words(s) == seq![s],
        s.len() == 0 ==> words(s) == Seq::<Seq<char>>::empty(),
{
    lemma_split_single(s, Separator::White);
    assert(seq![s].drop_last() =~= Seq::<Seq<char>>::empty());
    reveal_with_fuel(Seq::filter, 2);
    let f = seq![s].filter(|w: Seq<char>| w.len() >= 1);
    if s.len() > 0 {
        assert(f =~= seq![s]);
    } else {
        assert(f =~= Seq::<Seq<char>>::empty());
    }
}

/// See [`split`].
pub fn slice_split(s: &[char], sep: &Separator) -> (r: Vec<String>)
    ensures
        views(r@) == split(s@, *sep),
{
    let n: usize = s.len();
    let mut out: Vec<String> = Vec::new();
    let mut cur = String::new();
    let mut i: usize = 0;
    while i < n
        invariant
            i <= n == s@.len(),
            split(s@.take(i as int), *sep) == views(out@).push(cur@),
        decreases n - i,
    {
        let c = s[i];
        let ghost before = s@.take(i as int);
        assert(s@.take(i + 1).drop_last() =~= before);
        if sep.cuts_at(c) {
            proof {
                lemma_views_push(out@, cur);
            }
            out.push(cur);
            cur = String::new();
        } else {
            cur.push(c);
            assert(extend_last(split(before, *sep), c) =~= views(out@).push(cur@));
        }
        i += 1;
    }
    assert(s@.take(n as int) =~= s@);
    proof {
        lemma_views_push(out@, cur);
    }
    out.push(cur);
    out
}

/// See [`split_min`].
pub fn slice_split_min(s: &[char], sep: &Separator, min: usize) -> (r: Vec<String>)
    ensures
        views(r@) == split_min(s@, *sep, min as int),
{
    let all = slice_split(s, sep);
    let ghost p = |w: Seq<char>| w.len() >= min as int;
    let mut out: Vec<String> = Vec::new();
    let mut i: usize = 0;
    assert(views(out@) =~= views(all@).take(0).filter(p)) by {
        reveal(Seq::filter);
    }
    while i < all.len()
        invariant
            i <= all@.len(),
            p == (|w: Seq<char>| w.len() >= min as int),
            views(out@) == views(all@).take(i as int).filter(p),
        decreases all@.len() - i,
    {
        let w = all[i].clone();
        proof {
            reveal(Seq::filter);
            assert(views(all@).take(i + 1).drop_last() =~= views(all@).take(i as int));
            lemma_views_push(out@, w);
        }
        if w.as_str().unicode_len() >= min {
            out.push(w);
        }
        i += 1;
    }
    assert(views(all@).take(all@.len() as int) =~= views(all@));
    out
}

/// See [`words`].
pub fn split_words(s: &str) -> (r: Vec<String>)
    ensures
        views(r@) == words(s@),
{
    let cs = chars_of(s);
    slice_split_min(cs.as_slice(), &Separator::White, 1)
}

/// The texts one after another, with `sep` between neighbours.
pub open spec fn join(parts: Seq<Seq<char>>, sep: Seq<char>) -> Seq<char>
    decreases parts.len(),
{
    if parts.len() == 0 {
        Seq::empty()
    } else if parts.len() == 1 {
        parts[0]
    } else {
        join(parts.drop_last(), sep) + sep + parts.last()
    }
}

/// See [`join`].
pub fn join_all(parts: &Vec<String>, sep: &str) -> (r: String)
    ensures
        r@ == join(views(parts@), sep@),
{
    let mut out = String::new();
    let mut i: usize = 0;
    while i < parts.len()
        invariant
            i <= parts@.len(),
            out@ == join(views(parts@).take(i as int), sep@),
        decreases parts@.len() - i,
    {
        let ghost v = views(parts@);
        assert(v.take(i + 1).drop_last() =~= v.take(i as int));
        if i > 0 {
            out.append(sep);
        }
        out.append(parts[i].as_str());
        assert(out@ =~= join(v.take(i + 1), sep@));
        i += 1;
    }
    assert(views(parts@).take(parts@.len() as int) =~= views(parts@));
    out
}

/// The pieces of a text between the occurrences of `p`, which are found from
/// left to right and do not overlap.
pub open spec fn split_str(s: Seq<char>, p: Seq<char>) -> Seq<Seq<char>>
    decreases s.len(),
{
    if s.len() == 0 {
        seq![Seq::<char>::empty()]
    } else {
        let parts = extend_last(split_str(s.drop_last(), p), s.last());
        if p.is_suffix_of(parts.last()) {
            parts.drop_last().push(parts.last().take(parts.last().len() - p.len())).push(Seq::empty())
        } else {
            parts
        }
    }
}

/// See [`split_str`].
pub fn slice_split_str(s: &[char], p: &[char]) -> (r: Vec<String>)
    ensures
        views(r@) == split_str(s@, p@),
        r@.len() >= 1,
{
    let n: usize = s.len();
    let mut out: Vec<String> = Vec::new();
    let mut cur: Vec<char> = Vec::new();
    let mut i: usize = 0;
    while i < n
        invariant
            i <= n == s@.len(),
            split_str(s@.take(i as int), p@) == views(out@).push(cur@),
        decreases n - i,
    {
        let ghost before = s@.take(i as int);
        let ghost done = views(out@);
        assert(s@.take(i + 1).drop_last() =~= before);
        cur.push(s[i]);
        assert(extend_last(split_str(before, p@), s@[i as int]) =~= done.push(cur@));
        if slice_ends_with(cur.as_slice(), p) {
            let k: usize = cur.len() - p.len();
            let piece = string_of(slice_subrange(cur.as_slice(), 0, k));
            proof {
                lemma_views_push(out@, piece);
                assert(piece@ =~= cur@.take(cur@.len() - p@.len()));
                assert(done.push(cur@).drop_last() =~= done);
            }
            out.push(piece);
            cur = Vec::new();
        }
        i += 1;
    }
    assert(s@.take(n as int) =~= s@);
    let last = string_of(cur.as_slice());
    proof {
        lemma_views_push(out@, last);
    }
    out.push(last);
    out
}

/// See [`split_str`].
pub fn split_by(s: &str, p: &str) -> (r: Vec<String>)
    ensures
        views(r@) == split_str(s@, p@),
        r@.len() >= 1,
{
    let a = chars_of(s);
    let b = chars_of(p);
    slice_split_str(a.as_slice(), b.as_slice())
}

/// Text with every occurrence of `from` replaced by `to`.
pub open spec fn replace(s: Seq<char>, from: Seq<char>, to: Seq<char>) -> Seq<char> {
    join(split_str(s, from), to)
}

/// The pieces between the occurrences of a character are the runs without it.
proof fn lemma_split_char_runs(s: Seq<char>, c: char)
    ensures
        are_runs(split_str(s, seq![c]), s, |x: char| x == c),
    decreases s.len(),
{
    let cut = |x: char| x == c;
    if s.len() == 0 {
        let e = Seq::<char>::empty();
        assert(s.subrange(0, 0) =~= e);
        assert(run_at(s, cut, 0, e));
    } else {
        let t = s.drop_last();
        lemma_split_char_runs(t, c);
        let before = split_str(t, seq![c]);
        lemma_runs_step(before, s, cut);
        let parts = extend_last(before, s.last());
        let last = parts.last();
        if s.last() == c {
            assert(last.subrange(last.len() - 1, last.len() as int) =~= seq![c]);
            assert(seq![c].is_suffix_of(last));
            assert(last.take(last.len() - 1) =~= before.last());
            assert(split_str(s, seq![c]) =~= before.push(Seq::empty()));
        } else if seq![c].is_suffix_of(last) {
            assert(last.subrange(last.len() - 1, last.len() as int)[0] == s.last());
            assert(seq![c][0] == s.last());
        }
    }
}

/// What is between the occurrences of a character is a run without it.
pub proof fn lemma_split_char(s: Seq<char>, c: char, w: Seq<char>)
    ensures
        split_str(s, seq![c]).len() >= 1,
        split_str(s, seq![c]).contains(w) <==> is_run(s, |x: char| x == c, w),
{
    lemma_split_char_runs(s, c);
    lemma_among_runs(split_str(s, seq![c]), s, |x: char| x == c, w);
}

/// The pieces of a text joined again are the text.
pub proof fn lemma_join_split_str(s: Seq<char>, p: Seq<char>)
    ensures
        split_str(s, p).len() >= 1,
        join(split_str(s, p), p) == s,
    decreases s.len(),
{
    if s.len() == 0 {
        assert(s =~= Seq::<char>::empty());
    } else {
        let t = s.drop_last();
        lemma_join_split_str(t, p);
        let before = split_str(t, p);
        let init = before.drop_last();
        let last = before.last().push(s.last());
        let parts = extend_last(before, s.last());
        lemma_join_push(init, before.last(), p);
        lemma_join_push(init, last, p);
        assert(before =~= init.push(before.last()));
        assert(parts == init.push(last));
        assert(t.push(s.last()) =~= s);
        if init.len() > 0 {
            assert(join(init, p) + p + last =~= (join(init, p) + p + before.last()).push(s.last()));
        }
        assert(join(parts, p) == s);
        assert(parts.drop_last() =~= init);
        assert(parts.last() == last);
        if p.is_suffix_of(last) {
            let cut = last.take(last.len() - p.len());
            assert(cut + p =~= last);
            let kept = init.push(cut);
            lemma_join_push(init, cut, p);
            lemma_join_push(kept, Seq::empty(), p);
            if init.len() > 0 {
                assert(join(init, p) + p + cut + p + Seq::<char>::empty() =~= join(init, p) + p
                    + last);
            } else {
                assert(cut + p + Seq::<char>::empty() =~= last);
            }
            assert(split_str(s, p) == kept.push(Seq::empty()));
        } else {
            assert(split_str(s, p) == parts);
        }
    }
}

/// One more part comes behind a separator, unless it is the first.
pub proof fn lemma_join_push(parts: Seq<Seq<char>>, x: Seq<char>, sep: Seq<char>)
    ensures
        join(parts.push(x), sep) == (if parts.len() == 0 {
            x
        } else {
            join(parts, sep) + sep + x
        }),
{
    assert(parts.push(x).drop_last() =~= parts);
}

/// A text without the character is its only piece.
pub proof fn lemma_split_str_single(s: Seq<char>, c: char)
    requires
        forall|i: int| 0 <= i < s.len() ==> #[trigger] s[i] != c,
    ensures
        split_str(s, seq![c]) == seq![s],
    decreases s.len(),
{
    if s.len() > 0 {
        let t = s.drop_last();
        assert forall|i: int| 0 <= i < t.len() implies #[trigger] t[i] != c by {
            assert(t[i] == s[i]);
        }
        lemma_split_str_single(t, c);
        let parts = extend_last(seq![t], s.last());
        assert(t.push(s.last()) =~= s);
        assert(parts =~= seq![s]);
        if seq![c].is_suffix_of(s) {
            assert(s.subrange(s.len() - 1, s.len() as int)[0] == s[s.len() - 1]);
            assert(seq![c][0] == s[s.len() - 1]);
        }
    } else {
        assert(s =~= Seq::<char>::empty());
    }
}

/// See [`replace`].
pub fn replaced(s: &str, from: &str, to: &str) -> (r: String)
    ensures
        r@ == replace(s@, from@, to@),
{
    let parts = split_by(s, from);
    join_all(&parts, to)
}

/// The pieces of a text, each with the white space that ends it.
pub open spec fn split_inclusive(s: Seq<char>) -> Seq<Seq<char>>
    decreases s.len(),
{
    if s.len() == 0 {
        Seq::empty()
    } else {
        let parts = split_inclusive(s.drop_last());
        if parts.len() == 0 || is_white(s[s.len() - 2]) {
            parts.push(seq![s.last()])
        } else {
            extend_last(parts, s.last())
        }
    }
}

/// The pieces put together again are the text.
pub proof fn lemma_split_inclusive_flatten(s: Seq<char>)
    ensures
        split_inclusive(s).flatten() == s,
        s.len() > 0 ==> split_inclusive(s).len() > 0,
    decreases s.len(),
{
    if s.len() == 0 {
        assert(Seq::<Seq<char>>::empty().flatten() =~= s);
    } else {
        let t = s.drop_last();
        let c = s.last();
        let parts = split_inclusive(t);
        lemma_split_inclusive_flatten(t);
        assert(s =~= t + seq![c]);
        if parts.len() == 0 || is_white(s[s.len() - 2]) {
            lemma_flatten_push(parts, seq![c]);
        } else {
            assert(parts =~= parts.drop_last().push(parts.last()));
            lemma_flatten_push(parts.drop_last(), parts.last());
            lemma_flatten_push(parts.drop_last(), parts.last().push(c));
            assert(parts.drop_last().flatten() + parts.last().push(c) =~= t + seq![c]);
        }
    }
}

/// See [`split_inclusive`].
pub fn slice_split_inclusive(s: &[char]) -> (r: Vec<String>)
    ensures
        views(r@) == split_inclusive(s@),
{
    let n: usize = s.len();
    let mut out: Vec<String> = Vec::new();
    if n == 0 {
        assert(views(out@) =~= Seq::<Seq<char>>::empty());
        return out;
    }
    let mut cur = String::new();
    cur.push(s[0]);
    let mut i: usize = 1;
    proof {
        assert(s@.take(1).drop_last() =~= Seq::<char>::empty());
        reveal_with_fuel(split_inclusive, 2);
        assert(split_inclusive(s@.take(1)) =~= views(out@).push(cur@));
    }
    while i < n
        invariant
            1 <= i <= n == s@.len(),
            split_inclusive(s@.take(i as int)) == views(out@).push(cur@),
        decreases n - i,
    {
        let ghost before = views(out@).push(cur@);
        assert(s@.take(i + 1).drop_last() =~= s@.take(i as int));
        if s[i - 1].is_whitespace() {
            proof {
                lemma_views_push(out@, cur);
            }
            out.push(cur);
            cur = String::new();
            cur.push(s[i]);
            assert(cur@ =~= seq![s@[i as int]]);
        } else {
            cur.push(s[i]);
            assert(extend_last(before, s@[i as int]) =~= views(out@).push(cur@));
        }
        i += 1;
    }
    assert(s@.take(n as int) =~= s@);
    proof {
        lemma_views_push(out@, cur);
    }
    out.push(cur);
    out
}

/// Flattening a longer list appends.
pub proof fn lemma_flatten_push(parts: Seq<Seq<char>>, s: Seq<char>)
    ensures
        parts.push(s).flatten() == parts.flatten() + s,
{
    parts.lemma_flatten_push(s);
}

/// Cutting at a pattern loses only characters of the pattern: the pieces hold
/// the characters of any class that the pattern has none of, in order.
pub proof fn lemma_split_str_keeps(s: Seq<char>, p: Seq<char>, keep: spec_fn(char) -> bool)
    requires
        forall|i: int| 0 <= i < p.len() ==> !keep(#[trigger] p[i]),
    ensures
        split_str(s, p).flatten().filter(keep) == s.filter(keep),
        split_str(s, p).len() >= 1,
    decreases s.len(),
{
    if s.len() == 0 {
        let e = Seq::<char>::empty();
        assert(seq![e] =~= Seq::<Seq<char>>::empty().push(e));
        lemma_flatten_push(Seq::empty(), e);
        assert(Seq::<Seq<char>>::empty().flatten() + e =~= s);
    } else {
        let t = s.drop_last();
        let c = s.last();
        lemma_split_str_keeps(t, p, keep);
        let before = split_str(t, p);
        let parts = extend_last(before, c);
        assert(before =~= before.drop_last().push(before.last()));
        lemma_flatten_push(before.drop_last(), before.last());
        lemma_flatten_push(before.drop_last(), before.last().push(c));
        assert(before.drop_last().flatten() + before.last().push(c) =~= before.flatten() + seq![c]);
        Seq::filter_distributes_over_add(before.flatten(), seq![c], keep);
        Seq::filter_distributes_over_add(t, seq![c], keep);
        assert(s =~= t + seq![c]);
        assert(parts.flatten().filter(keep) == s.filter(keep));
        if p.is_suffix_of(parts.last()) {
            let last = parts.last();
            let head = last.take(last.len() - p.len());
            let e = Seq::<char>::empty();
            let init = parts.drop_last();
            assert(last =~= head + p);
            p.lemma_all_neg_filter_empty(keep);
            assert(parts =~= init.push(last));
            lemma_flatten_push(init, last);
            lemma_flatten_push(init, head);
            lemma_flatten_push(init.push(head), e);
            assert(init.flatten() + last =~= (init.flatten() + head) + p);
            Seq::filter_distributes_over_add(init.flatten() + head, p, keep);
            assert(init.push(head).flatten() + e =~= init.flatten() + head);
            assert((init.flatten() + head).filter(keep) + e =~= (init.flatten() + head).filter(keep));
        }
    }
}

/// The characters other than white space.
pub open spec fn solid(s: Seq<char>) -> Seq<char> {
    s.filter(|c: char| !is_white(c))
}

/// Dropping white space works on each of two texts in a row.
pub proof fn lemma_solid_add(a: Seq<char>, b: Seq<char>)
    ensures
        solid(a + b) == solid(a) + solid(b),
{
    Seq::filter_distributes_over_add(a, b, |c: char| !is_white(c));
}

/// Trimming removes only white space.
pub proof fn lemma_trim_end_solid(s: Seq<char>)
    ensures
        solid(trim_end(s)) == solid(s),
    decreases s.len(),
{
    if s.len() > 0 && is_white(s.last()) {
        lemma_trim_end_solid(s.drop_last());
        assert(s =~= s.drop_last() + seq![s.last()]);
        lemma_solid_add(s.drop_last(), seq![s.last()]);
        seq![s.last()].lemma_all_neg_filter_empty(|c: char| !is_white(c));
        assert(solid(s.drop_last()) + Seq::<char>::empty() =~= solid(s.drop_last()));
    }
}

/// Trimming removes only white space.
pub proof fn lemma_trim_solid(s: Seq<char>)
    ensures
        solid(trim(s)) == solid(s),
{
    lemma_trim_end_solid(trim_start(s));
    lemma_trim_start_solid(s);
}

/// Trimming removes only white space.
proof fn lemma_trim_start_solid(s: Seq<char>)
    ensures
        solid(trim_start(s)) == solid(s),
    decreases s.len(),
{
    if s.len() > 0 && is_white(s[0]) {
        lemma_trim_start_solid(s.drop_first());
        assert(s =~= seq![s[0]] + s.drop_first());
        lemma_solid_add(seq![s[0]], s.drop_first());
        seq![s[0]].lemma_all_neg_filter_empty(|c: char| !is_white(c));
        assert(Seq::<char>::empty() + solid(s.drop_first()) =~= solid(s.drop_first()));
    }
}

// ---------------------------------------------------------------------------
// Numbers

/// The character of a decimal digit.
pub open spec fn digit(d: int) -> char {
    (48 + d) as char
}

/// A natural number in decimal notation.
pub open spec fn decimal(n: nat) -> Seq<char>
    decreases n,
{
    if n < 10 {
        seq![digit(n as int)]
    } else {
        decimal(n / 10).push(digit((n % 10) as int))
    }
}

/// An integer in decimal notation.
pub open spec fn decimal_int(n: int) -> Seq<char> {
    if n < 0 {
        seq!['-'] + decimal((-n) as nat)
    } else {
        decimal(n as nat)
    }
}

/// Appends a number in decimal notation.
fn push_decimal(out: &mut String, n: u128)
    ensures
        final(out)@ == old(out)@ + decimal(n as nat),
    decreases n,
{
    if n >= 10 {
        push_decimal(out, n / 10);
    }
    out.push((48u8 + (n % 10) as u8) as char);
    assert(out@ =~= old(out)@ + decimal(n as nat));
}

/// See [`decimal`].
pub fn decimal_u128(n: u128) -> (r: String)
    ensures
        r@ == decimal(n as nat),
{
    let mut out = String::new();
    push_decimal(&mut out, n);
    assert(out@ =~= decimal(n as nat));
    out
}

/// See [`decimal`].
pub fn decimal_u64(n: u64) -> (r: String)
    ensures
        r@ == decimal(n as nat),
{
    decimal_u128(n as u128)
}

/// See [`decimal_int`].
pub fn decimal_i64(n: i64) -> (r: String)
    ensures
        r@ == decimal_int(n as int),
{
    let mut out = String::new();
    if n < 0 {
        out.push('-');
        let m: u128 = (-(n as i128)) as u128;
        push_decimal(&mut out, m);
    } else {
        push_decimal(&mut out, n as u128);
    }
    assert(out@ =~= decimal_int(n as int));
    out
}

/// `c` is an ASCII digit.
pub open spec fn is_digit(c: char) -> bool {
    48 <= c as u32 <= 57
}

/// Every character is an ASCII digit.
pub open spec fn all_digits(s: Seq<char>) -> bool {
    forall|i: int| 0 <= i < s.len() ==> is_digit(#[trigger] s[i])
}

/// The number that a row of decimal digits stands for.
pub open spec fn digits_value(s: Seq<char>) -> nat
    decreases s.len(),
{
    if s.len() == 0 {
        0
    } else {
        digits_value(s.drop_last()) * 10 + (s.last() as u32 - 48) as nat
    }
}

/// The number of at most `max` that a text stands for when it is a row of
/// digits.
pub open spec fn parse_digits(s: Seq<char>, max: nat) -> Option<nat> {
    if s.len() > 0 && all_digits(s) && digits_value(s) <= max {
        Some(digits_value(s))
    } else {
        None
    }
}

/// The unsigned number of at most `max` that a text stands for: digits with an
/// optional plus sign.
pub open spec fn parse_unsigned(s: Seq<char>, max: nat) -> Option<nat> {
    if s.len() > 0 && s[0] == '+' {
        parse_digits(s.drop_first(), max)
    } else {
        parse_digits(s, max)
    }
}

/// The 64-bit signed number that a text stands for: digits with an optional
/// sign.
pub open spec fn parse_signed(s: Seq<char>) -> Option<int> {
    if s.len() > 0 && s[0] == '-' {
        match parse_digits(s.drop_first(), 0x8000_0000_0000_0000) {
            Some(v) => Some(-(v as int)),
            None => None,
        }
    } else {
        match parse_unsigned(s, 0x7fff_ffff_ffff_ffff) {
            Some(v) => Some(v as int),
            None => None,
        }
    }
}

/// The value of a longer row of digits is no smaller.
proof fn lemma_digits_value_prefix(s: Seq<char>, i: int)
    requires
        0 <= i <= s.len(),
        all_digits(s),
    ensures
        digits_value(s.take(i)) <= digits_value(s),
    decreases s.len() - i,
{
    if i == s.len() {
        assert(s.take(i) =~= s);
    } else {
        assert(s.take(i + 1).drop_last() =~= s.take(i));
        assert(is_digit(s[i]));
        lemma_digits_value_prefix(s, i + 1);
    }
}

/// See [`parse_digits`].
fn slice_parse_digits(s: &[char], max: u64) -> (r: Option<u64>)
    ensures
        match r {
            Some(v) => parse_digits(s@, max as nat) == Some(v as nat),
            None => parse_digits(s@, max as nat) is None,
        },
{
    let n: usize = s.len();
    if n == 0 {
        return None;
    }
    let mut acc: u128 = 0;
    let mut i: usize = 0;
    while i < n
        invariant
            i <= n == s@.len(),
            acc <= max,
            acc == digits_value(s@.take(i as int)),
            forall|j: int| 0 <= j < i ==> is_digit(#[trigger] s@[j]),
        decreases n - i,
    {
        let c = s[i] as u32;
        if c < 48 || c > 57 {
            assert(!is_digit(s@[i as int]));
            return None;
        }
        acc = acc * 10 + (c - 48) as u128;
        assert(s@.take(i + 1).drop_last() =~= s@.take(i as int));
        if acc > max as u128 {
            proof {
                if all_digits(s@) {
                    lemma_digits_value_prefix(s@, i + 1);
                }
            }
            return None;
        }
        i += 1;
    }
    assert(s@.take(n as int) =~= s@);
    Some(acc as u64)
}

/// See [`parse_unsigned`].
pub fn parse_u64(s: &str, max: u64) -> (r: Option<u64>)
    ensures
        match r {
            Some(v) => parse_unsigned(s@, max as nat) == Some(v as nat),
            None => parse_unsigned(s@, max as nat) is None,
        },
{
    let cs = chars_of(s);
    let n: usize = cs.len();
    if n > 0 && cs[0] == '+' {
        assert(cs@.subrange(1, n as int) =~= cs@.drop_first());
        slice_parse_digits(slice_subrange(cs.as_slice(), 1, n), max)
    } else {
        slice_parse_digits(cs.as_slice(), max)
    }
}

/// See [`parse_signed`].
pub fn parse_i64(s: &str) -> (r: Option<i64>)
    ensures
        match r {
            Some(v) => parse_signed(s@) == Some(v as int),
            None => parse_signed(s@) is None,
        },
{
    let cs = chars_of(s);
    let n: usize = cs.len();
    if n > 0 && cs[0] == '-' {
        assert(cs@.subrange(1, n as int) =~= cs@.drop_first());
        match slice_parse_digits(slice_subrange(cs.as_slice(), 1, n), 0x8000_0000_0000_0000) {
            Some(v) => Some((-(v as i128)) as i64),
            None => None,
        }
    } else {
        match parse_u64(s, 0x7fff_ffff_ffff_ffff) {
            Some(v) => Some(v as i64),
            None => None,
        }
    }
}

/// The digits of a number stand for the number.
pub proof fn lemma_decimal_value(n: nat)
    ensures
        decimal(n).len() > 0,
        all_digits(decimal(n)),
        digits_value(decimal(n)) == n,
    decreases n,
{
    if n < 10 {
        let d = decimal(n);
        assert(d.drop_last() =~= Seq::<char>::empty());
        reveal_with_fuel(digits_value, 2);
    } else {
        lemma_decimal_value(n / 10);
        let d = decimal(n);
        let init = decimal(n / 10);
        assert(d.drop_last() =~= init);
        assert forall|i: int| 0 <= i < d.len() implies is_digit(#[trigger] d[i]) by {
            if i < init.len() {
                assert(d[i] == init[i]);
            }
        }
    }
}

/// Reading the decimal notation of a 64-bit number gives the number back.
pub proof fn law_parse_decimal(n: i64)
    ensures
        parse_signed(decimal_int(n as int)) == Some(n as int),
{
    let s = decimal_int(n as int);
    if n < 0 {
        lemma_decimal_value((-n) as nat);
        assert(s.drop_first() =~= decimal((-n) as nat));
    } else {
        lemma_decimal_value(n as nat);
        assert(is_digit(s[0]));
    }
}

/// Reading the decimal notation of an unsigned number gives the number back.
pub proof fn law_parse_unsigned_decimal(n: nat, max: nat)
    requires
        n <= max,
    ensures
        parse_unsigned(decimal(n), max) == Some(n),
{
    lemma_decimal_value(n);
    assert(is_digit(decimal(n)[0]));
}

// ---------------------------------------------------------------------------
// Lengths in bytes

/// The number of bytes of a character in UTF-8.
pub open spec fn char_width(c: char) -> nat {
    if c as u32 <= 0x7f {
        1
    } else if c as u32 <= 0x7ff {
        2
    } else if c as u32 <= 0xffff {
        3
    } else {
        4
    }
}

/// The number of bytes of a text in UTF-8.
pub open spec fn byte_len(s: Seq<char>) -> nat
    decreases s.len(),
{
    if s.len() == 0 {
        0
    } else {
        byte_len(s.drop_last()) + char_width(s.last())
    }
}

/// The length of two texts in a row is the sum of their lengths.
pub proof fn lemma_byte_len_add(a: Seq<char>, b: Seq<char>)
    ensures
        byte_len(a + b) == byte_len(a) + byte_len(b),
    decreases b.len(),
{
    if b.len() == 0 {
        assert(a + b =~= a);
    } else {
        assert((a + b).drop_last() =~= a + b.drop_last());
        lemma_byte_len_add(a, b.drop_last());
    }
}

/// The length of a text in bytes is that of its encoding.
pub proof fn lemma_byte_len_encoding(s: Seq<char>)
    ensures
        byte_len(s) == encode_utf8(s).len(),
    decreases s.len(),
{
    if s.len() > 0 {
        let head = seq![s[0]];
        assert(s =~= head + s.drop_first());
        lemma_byte_len_add(head, s.drop_first());
        assert(head.drop_last() =~= Seq::empty());
        assert(byte_len(head) == char_width(s[0])) by {
            reveal_with_fuel(byte_len, 2);
        }
        char_is_scalar(s[0]);
        lemma_byte_len_encoding(s.drop_first());
    }
}

/// See [`byte_len`].
pub fn len_bytes(s: &str) -> (r: usize)
    ensures
        r == byte_len(s@),
{
    proof {
        lemma_byte_len_encoding(s@);
    }
    s.as_bytes().len()
}

/// The text has more than `limit` bytes.
pub fn slice_byte_len_exceeds(s: &[char], limit: usize) -> (r: bool)
    ensures
        r == (byte_len(s@) > limit),
{
    let n: usize = s.len();
    let mut i: usize = 0;
    let mut bytes: usize = 0;
    while i < n
        invariant
            i <= n == s@.len(),
            bytes <= limit,
            bytes == byte_len(s@.take(i as int)),
        decreases n - i,
    {
        let w: usize = width_of(s[i]);
        assert(s@.take(i + 1).drop_last() =~= s@.take(i as int));
        if w > limit - bytes {
            proof {
                assert(s@ =~= s@.take(i + 1) + s@.skip(i + 1));
                lemma_byte_len_add(s@.take(i + 1), s@.skip(i + 1));
            }
            return true;
        }
        bytes = bytes + w;
        i += 1;
    }
    assert(s@.take(n as int) =~= s@);
    false
}

/// See [`char_width`].
pub fn width_of(c: char) -> (r: usize)
    ensures
        r == char_width(c),
{
    let v = c as u32;
    if v <= 0x7f {
        1
    } else if v <= 0x7ff {
        2
    } else if v <= 0xffff {
        3
    } else {
        4
    }
}

/// How many characters make up the first `n` bytes of a text, if they make up
/// whole characters.
pub open spec fn byte_cut(s: Seq<char>, n: int) -> Option<int>
    decreases s.len(),
{
    if n == 0 {
        Some(0)
    } else if s.len() == 0 || n < char_width(s[0]) {
        None
    } else {
        match byte_cut(s.drop_first(), n - char_width(s[0])) {
            Some(k) => Some(k + 1),
            None => None,
        }
    }
}

/// See [`byte_cut`].
pub fn slice_byte_cut(s: &[char], n: usize) -> (r: Option<usize>)
    ensures
        match r {
            Some(k) => k <= s@.len() && byte_cut(s@, n as int) == Some(k as int),
            None => byte_cut(s@, n as int) is None,
        },
{
    let mut i: usize = 0;
    let mut left: usize = n;
    assert(s@.skip(0) =~= s@);
    while left > 0
        invariant
            i <= s@.len(),
            match byte_cut(s@.skip(i as int), left as int) {
                Some(k) => byte_cut(s@, n as int) == Some(i + k),
                None => byte_cut(s@, n as int) is None,
            },
        decreases left,
    {
        if i >= s.len() {
            return None;
        }
        let w: usize = width_of(s[i]);
        assert(s@.skip(i as int)[0] == s@[i as int]);
        assert(s@.skip(i as int).drop_first() =~= s@.skip(i + 1));
        if left < w {
            return None;
        }
        left = left - w;
        i += 1;
    }
    Some(i)
}

/// A Latin letter in lower case; other characters stay.
pub open spec fn fold_char(c: char) -> char {
    if 'A' <= c && c <= 'Z' {
        (c as u8 + 32) as char
    } else {
        c
    }
}

/// See [`fold_char`].
pub fn folded(c: char) -> (r: char)
    ensures
        r == fold_char(c),
{
    if 'A' <= c && c <= 'Z' {
        (c as u8 + 32) as char
    } else {
        c
    }
}

/// A text with its Latin letters in lower case.
pub open spec fn fold(s: Seq<char>) -> Seq<char> {
    s.map_values(|c: char| fold_char(c))
}

/// Two texts are equal but for the case of Latin letters.
pub fn slice_eq_folded(x: &[char], y: &[char]) -> (r: bool)
    ensures
        r == (fold(x@) == fold(y@)),
{
    let ghost fx = fold(x@);
    let ghost fy = fold(y@);
    if x.len() != y.len() {
        assert(fx.len() != fy.len());
        return false;
    }
    let mut i: usize = 0;
    while i < x.len()
        invariant
            i <= x@.len() == y@.len(),
            fx == fold(x@),
            fy == fold(y@),
            forall|k: int| 0 <= k < i ==> #[trigger] fx[k] == fy[k],
        decreases x@.len() - i,
    {
        assert(fx[i as int] == fold_char(x@[i as int]));
        assert(fy[i as int] == fold_char(y@[i as int]));
        if folded(x[i]) != folded(y[i]) {
            return false;
        }
        i += 1;
    }
    assert(fx =~= fy);
    true
}

/// Two texts are equal but for the case of Latin letters.
pub fn eq_folded(a: &str, b: &str) -> (r: bool)
    ensures
        r == (fold(a@) == fold(b@)),
{
    let x = chars_of(a);
    let y = chars_of(b);
    slice_eq_folded(x.as_slice(), y.as_slice())
}

/// An optional text as a mathematical value.
pub open spec fn optional(s: Option<String>) -> Option<Seq<char>> {
    match s {
        Some(t) => Some(t@),
        None => None,
    }
}

} // verus!
