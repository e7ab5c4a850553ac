//! How guides are named, found and taken in, told letter by letter.

use vstd::prelude::*;

use crate::db::guides;
use crate::db::guides::AddGuideKind;
use crate::db::guides::GuideRowView;
use crate::db::guides::GuidesView;
use crate::rows;
use crate::strings;
use crate::strings::basics;
use crate::text;

verus! {

/// The same character, or the same Latin letter in the other case.
pub open spec fn same_letter(a: char, b: char) -> bool {
    ||| a == b
    ||| 65 <= a as u32 <= 90 && b as u32 == a as u32 + 32
    ||| 65 <= b as u32 <= 90 && a as u32 == b as u32 + 32
}

/// The texts are the same but for the case of Latin letters.
pub open spec fn same_letters(a: Seq<char>, b: Seq<char>) -> bool {
    a.len() == b.len() && forall|i: int| 0 <= i < a.len() ==> same_letter(#[trigger] a[i], b[i])
}

/// The text holds no null character.
pub open spec fn plain(s: Seq<char>) -> bool {
    forall|i: int| 0 <= i < s.len() ==> #[trigger] s[i] != '\0'
}

/// Without a null character nothing is cut off.
proof fn lemma_plain(s: Seq<char>)
    requires
        plain(s),
    ensures
        rows::before_nul(s) == s,
    decreases s.len(),
{
    if s.len() > 0 {
        assert(plain(s.drop_first()));
        lemma_plain(s.drop_first());
        assert(s[0] != '\0');
        assert(seq![s[0]] + s.drop_first() =~= s);
    }
}

/// Letters of either case take the same room.
proof fn lemma_same_room(a: Seq<char>, b: Seq<char>)
    requires
        same_letters(a, b),
    ensures
        strings::byte_len(a) == strings::byte_len(b),
    decreases a.len(),
{
    if a.len() > 0 {
        assert(same_letters(a.drop_last(), b.drop_last())) by {
            assert forall|i: int| 0 <= i < a.drop_last().len() implies same_letter(
                #[trigger] a.drop_last()[i],
                b.drop_last()[i],
            ) by {
                assert(same_letter(a[i], b[i]));
            }
        }
        lemma_same_room(a.drop_last(), b.drop_last());
        assert(same_letter(a[a.len() - 1], b[a.len() - 1]));
    }
}

/// Folded texts are equal if the texts have the same letters.
pub proof fn lemma_fold_same(a: Seq<char>, b: Seq<char>)
    ensures
        strings::fold(a) == strings::fold(b) <==> same_letters(a, b),
{
    let x = strings::fold(a);
    let y = strings::fold(b);
    if x == y {
        assert(x.len() == a.len() && y.len() == b.len());
        assert forall|i: int| 0 <= i < a.len() implies same_letter(#[trigger] a[i], b[i]) by {
            basics::law_fold(a, i);
            basics::law_fold(b, i);
            assert(x[i] == y[i]);
        }
    }
    if same_letters(a, b) {
        assert forall|i: int| 0 <= i < x.len() implies #[trigger] x[i] == y[i] by {
            assert(same_letter(a[i], b[i]));
            basics::law_fold(a, i);
            basics::law_fold(b, i);
        }
        assert(x =~= y);
    }
}

/// Two titles are the same if and only if they have the same letters; the case
/// of Latin letters does not count.
pub proof fn law_same_titles(a: Seq<char>, b: Seq<char>)
    requires
        plain(a),
        plain(b),
    ensures
        guides::same_title(a, b) <==> same_letters(a, b),
{
    lemma_plain(a);
    lemma_plain(b);
    lemma_fold_same(a, b);
    if same_letters(a, b) {
        lemma_same_room(a, b);
    }
}

/// A title starts like a query if and only if its first letters are those of
/// the query; the case of Latin letters does not count.
pub proof fn law_starts(title: Seq<char>, query: Seq<char>)
    ensures
        guides::starts_like(title, query) <==> query.len() <= title.len() && same_letters(
            title.take(query.len() as int),
            query,
        ),
{
    if query.len() <= title.len() {
        lemma_fold_same(title.take(query.len() as int), query);
    }
}

/// A guide is named by its id in decimal digits, with or without white space
/// around them.
pub proof fn law_named_by_id(g: GuidesView, i: int, a: Seq<char>, b: Seq<char>)
    requires
        g.wf(),
        0 <= i < g.rows.len(),
        basics::all_white(a),
        basics::all_white(b),
    ensures
        guides::named(g.rows, a + strings::decimal_int(g.rows[i].guide_id as int) + b) == Some(i),
{
    let id = g.rows[i].guide_id;
    let digits = strings::decimal_int(id as int);
    lemma_decimal_solid(id as int);
    basics::law_trim(a, digits, b);
    strings::law_parse_decimal(id);
    guides::lemma_by_id(g.rows, id);
    let k = guides::by_id(g.rows, id)->0;
    if k < i {
        assert(g.rows[k].guide_id < g.rows[i].guide_id);
    } else if i < k {
        assert(g.rows[i].guide_id < g.rows[k].guide_id);
    }
}

/// A number is written without white space.
proof fn lemma_decimal_solid(n: int)
    ensures
        strings::decimal_int(n).len() > 0,
        basics::solid_ends(strings::decimal_int(n)),
{
    if n < 0 {
        strings::lemma_decimal_value((-n) as nat);
        let d = strings::decimal((-n) as nat);
        let s = strings::decimal_int(n);
        assert(s[0] == '-');
        assert(s.last() == d.last());
        assert(strings::is_digit(d[d.len() - 1]));
    } else {
        strings::lemma_decimal_value(n as nat);
        let d = strings::decimal(n as nat);
        assert(strings::is_digit(d[0]));
        assert(strings::is_digit(d[d.len() - 1]));
    }
}

/// The text is not the id of a guide.
pub open spec fn no_id(rows: Seq<GuideRowView>, query: Seq<char>) -> bool {
    strings::parse_signed(query) matches Some(n) ==> forall|i: int|
        0 <= i < rows.len() ==> (#[trigger] rows[i]).guide_id != n
}

/// Without the id nothing is named by it.
proof fn lemma_no_id(rows: Seq<GuideRowView>, query: Seq<char>)
    requires
        no_id(rows, query),
    ensures
        strings::parse_signed(query) matches Some(n) ==> guides::by_id(rows, n as i64) is None,
{
    match strings::parse_signed(query) {
        Some(n) => {
            guides::lemma_by_id(rows, n as i64);
            lemma_signed_bounds(query);
            if guides::by_id(rows, n as i64) is Some {
                let k = guides::by_id(rows, n as i64)->0;
                assert(rows[k].guide_id == n);
            }
        },
        None => {},
    }
}

/// A number that was read fits.
proof fn lemma_signed_bounds(s: Seq<char>)
    ensures
        strings::parse_signed(s) matches Some(n) ==> i64::MIN <= n <= i64::MAX,
{
}

/// A guide is named by its title in any case of the Latin letters, with or
/// without white space around it, unless that is the id of a guide.
pub proof fn law_named_by_title(
    g: GuidesView,
    i: int,
    a: Seq<char>,
    query: Seq<char>,
    b: Seq<char>,
)
    requires
        g.wf(),
        0 <= i < g.rows.len(),
        forall|k: int| 0 <= k < g.rows.len() ==> plain((#[trigger] g.rows[k]).title),
        plain(query),
        query.len() > 0,
        basics::solid_ends(query),
        basics::all_white(a),
        basics::all_white(b),
        same_letters(g.rows[i].title, query),
        no_id(g.rows, query),
    ensures
        guides::named(g.rows, a + query + b) == Some(i),
{
    basics::law_trim(a, query, b);
    lemma_no_id(g.rows, query);
    law_same_titles(g.rows[i].title, query);
    guides::lemma_by_title(g.rows, query);
    let k = guides::by_title(g.rows, query)->0;
    if k != i {
        law_same_titles(g.rows[k].title, query);
        let x = g.rows[i].title;
        let y = g.rows[k].title;
        lemma_fold_same(x, query);
        lemma_fold_same(y, query);
        lemma_fold_same(x, y);
        lemma_fold_same(y, x);
        law_same_titles(x, y);
        law_same_titles(y, x);
        if k < i {
            assert(!guides::same_title(g.rows[k].title, g.rows[i].title));
        } else {
            assert(!guides::same_title(g.rows[i].title, g.rows[k].title));
        }
    }
}

/// A guide is named by the start of its title if no other title starts so,
/// unless that is the id or the title of a guide; a start that two titles share
/// names none.
pub proof fn law_named_by_start(
    g: GuidesView,
    i: int,
    a: Seq<char>,
    query: Seq<char>,
    b: Seq<char>,
)
    requires
        query.len() > 0,
        basics::solid_ends(query),
        basics::all_white(a),
        basics::all_white(b),
        plain(query),
        forall|k: int|
            0 <= k < g.rows.len() ==> plain((#[trigger] g.rows[k]).title) && !same_letters(
                g.rows[k].title,
                query,
            ),
        no_id(g.rows, query),
        0 <= i < g.rows.len(),
        query.len() <= g.rows[i].title.len(),
        same_letters(g.rows[i].title.take(query.len() as int), query),
    ensures
        (forall|k: int|
            0 <= k < g.rows.len() && k != i && query.len() <= (#[trigger] g.rows[k]).title.len()
                ==> !same_letters(g.rows[k].title.take(query.len() as int), query)) ==> guides::named(
            g.rows,
            a + query + b,
        ) == Some(i),
        forall|k: int|
            0 <= k < g.rows.len() && k != i && query.len() <= (#[trigger] g.rows[k]).title.len()
                && same_letters(g.rows[k].title.take(query.len() as int), query) ==> guides::named(
                g.rows,
                a + query + b,
            ) is None,
{
    let rows = g.rows;
    basics::law_trim(a, query, b);
    lemma_no_id(rows, query);
    guides::lemma_by_title(rows, query);
    if guides::by_title(rows, query) is Some {
        let k = guides::by_title(rows, query)->0;
        law_same_titles(rows[k].title, query);
    }
    law_starts(rows[i].title, query);
    if forall|k: int|
        0 <= k < rows.len() && k != i && query.len() <= (#[trigger] rows[k]).title.len()
            ==> !same_letters(rows[k].title.take(query.len() as int), query) {
        assert forall|j: int| 0 <= j < rows.len() implies (guides::starts_like(
            #[trigger] rows[j].title,
            query,
        ) <==> j == i) by {
            law_starts(rows[j].title, query);
        }
        guides::law_unique_start_is_found(rows, query, i);
    }
    assert forall|k: int|
        0 <= k < rows.len() && k != i && query.len() <= (#[trigger] rows[k]).title.len()
            && same_letters(rows[k].title.take(query.len() as int), query) implies guides::named(
        rows,
        a + query + b,
    ) is None by {
        law_starts(rows[k].title, query);
        if k < i {
            guides::law_shared_start_names_nothing(rows, query, k, i);
        } else {
            guides::law_shared_start_names_nothing(rows, query, i, k);
        }
        strings::lemma_trim_twice(a + query + b);
    }
}

/// White space names no guide.
pub proof fn law_blank_names_nothing(rows: Seq<GuideRowView>, query: Seq<char>)
    requires
        basics::all_white(query),
    ensures
        guides::named(rows, query) is None,
{
    basics::law_trim(query, Seq::empty(), Seq::empty());
}

/// A guide is refused for want of a title or a text, then because another one
/// has its title in whatever case of the Latin letters, and for no other reason
/// but that no id is left.
pub proof fn law_refusals(g: GuidesView, title: Seq<char>, content: Seq<char>)
    requires
        forall|k: int| 0 <= k < g.rows.len() ==> plain((#[trigger] g.rows[k]).title),
        plain(strings::trim(title)),
    ensures
        ({
            let blank = basics::all_white(title) || basics::all_white(content);
            let taken = exists|k: int|
                0 <= k < g.rows.len() && same_letters(
                    (#[trigger] g.rows[k]).title,
                    strings::trim(title),
                );
            &&& blank <==> g.refusal(title, content) == Some(AddGuideKind::Empty)
            &&& !blank && taken <==> g.refusal(title, content) == Some(AddGuideKind::Duplicate)
            &&& !blank && !taken && g.last_id < i64::MAX ==> g.refusal(title, content) is None
        }),
{
    lemma_blank_is_white(title);
    lemma_blank_is_white(content);
    let name = strings::trim(title);
    guides::lemma_by_title(g.rows, name);
    match guides::by_title(g.rows, name) {
        Some(k) => {
            law_same_titles(g.rows[k].title, name);
        },
        None => {
            assert forall|k: int| 0 <= k < g.rows.len() implies !same_letters(
                (#[trigger] g.rows[k]).title,
                name,
            ) by {
                law_same_titles(g.rows[k].title, name);
            }
        },
    }
}

/// A blank text is white space alone.
pub proof fn lemma_blank_is_white(s: Seq<char>)
    ensures
        strings::blank(s) <==> basics::all_white(s),
{
    if basics::all_white(s) {
        basics::law_trim(s, Seq::empty(), Seq::empty());
    }
    if strings::blank(s) {
        let f = |c: char| !strings::is_white(c);
        strings::lemma_trim_solid(s);
        assert(strings::trim(s) =~= Seq::empty());
        assert(strings::solid(strings::trim(s)).len() == 0) by {
            reveal(Seq::filter);
        }
        assert forall|i: int| 0 <= i < s.len() implies strings::is_white(#[trigger] s[i]) by {
            if !strings::is_white(s[i]) {
                s.lemma_filter_contains(f, i);
                assert(strings::solid(s).contains(s[i]));
            }
        }
    }
}

/// A new guide has an id above all others, its title without the white space
/// around it, its author and its time, and fragments of 1 to 2000 characters
/// that together hold every character of the text but white space.
pub proof fn law_new_guide(
    g: GuidesView,
    title: Seq<char>,
    added_by: i64,
    content: Seq<char>,
    now: i64,
)
    requires
        g.wf(),
        g.refusal(title, content) is None,
    ensures
        ({
            let row = g.new_row(title, added_by, content, now);
            &&& forall|k: int|
                0 <= k < g.rows.len() ==> (#[trigger] g.rows[k]).guide_id < row.guide_id
            &&& row.title == strings::trim(title) && row.title.len() > 0
            &&& row.added_by == added_by && row.created_at == now
            &&& row.chunks.len() > 0
            &&& forall|k: int|
                0 <= k < row.chunks.len() ==> 1 <= (#[trigger] row.chunks[k]).len() <= 2000
            &&& strings::solid(row.chunks.flatten()).to_multiset() == strings::solid(
                content,
            ).to_multiset()
        }),
{
    text::law_guide_chunks_fit(content, 1200, 2000);
    text::law_guide_chunks_keep_text(content, 1200, 2000);
}

/// The length of a guide is that of all its fragments together.
pub proof fn law_guide_length(chunks: Seq<Seq<char>>)
    ensures
        guides::chunk_chars(chunks) == chunks.flatten().len(),
    decreases chunks.len(),
{
    if chunks.len() > 0 {
        law_guide_length(chunks.drop_last());
        strings::lemma_flatten_push(chunks.drop_last(), chunks.last());
        assert(chunks.drop_last().push(chunks.last()) =~= chunks);
    } else {
        assert(chunks =~= Seq::empty());
        assert(Seq::<Seq<char>>::empty().flatten() =~= Seq::<char>::empty());
    }
}

/// The list tells of each guide its number, its title and its length.
pub proof fn law_told_of_a_guide(g: GuideRowView)
    ensures
        guides::info(g).id == g.guide_id,
        guides::info(g).title == g.title,
        guides::chunk_chars(g.chunks) <= usize::MAX ==> guides::info(g).chars == guides::chunk_chars(
            g.chunks,
        ),
{
}

} // verus!
