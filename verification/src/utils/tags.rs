//! How the attributes of a tag are read, and how the lines of an answer are
//! tidied.

use vstd::prelude::*;

use crate::storage::UserStateView;
use crate::strings;
use crate::strings::basics;
use crate::utils::mentions;
use crate::utils::sanitizer;

verus! {

/// A token is cut at its first equals sign; quotation marks around the key do not
/// count.
pub proof fn law_keys_and_values(key: Seq<char>, value: Seq<char>)
    requires
        key.len() > 0,
        mentions::lacks(key, '='),
        mentions::lacks(key, '"'),
    ensures
        sanitizer::key_value(key + seq!['='] + value) == Some((key, value)),
        sanitizer::key_value(seq!['"'] + key + seq!['"', '='] + value) == Some((key, value)),
        sanitizer::key_value(key) is None,
        sanitizer::key_value(seq!['='] + value) is None,
{
    let e = Seq::<char>::empty();
    lemma_first_sign(key, value);
    assert(key[0] != '"' && key[key.len() - 1] != '"');
    basics::law_trim_char(e, key, e, '"');
    assert(e + key + e =~= key);
    let quoted = seq!['"'] + key + seq!['"'];
    assert(mentions::lacks(quoted, '=')) by {
        assert forall|i: int| 0 <= i < quoted.len() implies #[trigger] quoted[i] != '=' by {
            if 0 < i <= key.len() {
                assert(quoted[i] == key[i - 1]);
            }
        }
    }
    lemma_first_sign(quoted, value);
    basics::law_trim_char(seq!['"'], key, seq!['"'], '"');
    assert(seq!['"'] + key + seq!['"', '='] + value =~= quoted + seq!['='] + value);
    mentions::lemma_lacks_occurs(key, seq!['=']);
    lemma_first_sign(e, value);
    assert(e + seq!['='] + value =~= seq!['='] + value);
    assert(strings::trim_char(e, '"').len() == 0);
}

/// The first equals sign of a text.
proof fn lemma_first_sign(key: Seq<char>, value: Seq<char>)
    requires
        mentions::lacks(key, '='),
    ensures
        strings::find(key + seq!['='] + value, seq!['=']) == Some(key.len() as int),
        (key + seq!['='] + value).take(key.len() as int) == key,
        (key + seq!['='] + value).skip(key.len() as int + 1) == value,
{
    let sign = seq!['='];
    let t = key + sign + value;
    let n = key.len() as int;
    assert(t.subrange(n, n + sign.len()) =~= sign);
    strings::lemma_find_from(t, sign, 0);
    let k = strings::find(t, sign)->0;
    if k < n {
        assert(t.subrange(k, k + sign.len())[0] == key[k]);
    }
    assert(t.take(n) =~= key);
    assert(t.skip(n + 1) =~= value);
}

/// A token `@` and a name gives the name, without commas behind it.
pub proof fn law_name_of_a_tag(
    tokens: Seq<Seq<char>>,
    i: int,
    st: UserStateView,
    name: Seq<char>,
    commas: Seq<char>,
)
    requires
        0 <= i < tokens.len(),
        tokens[i] == seq!['@'] + name + commas,
        basics::all_same(commas, ','),
        name.len() > 0,
        name[0] != ',',
        name.last() != ',',
    ensures
        sanitizer::read_tokens(tokens, i, st) == sanitizer::read_tokens(
            tokens,
            i + 1,
            UserStateView { display_name: name, ..st },
        ),
{
    let token = tokens[i];
    assert(token[0] == '@');
    assert(token.skip(1) =~= name + commas);
    basics::law_trim_char(Seq::empty(), name, commas, ',');
}

/// The state with an attribute that a key stands for: `id`, `goal` or `current`.
/// Other keys do not count.
pub open spec fn with_attribute(st: UserStateView, key: Seq<char>, value: Seq<char>) -> UserStateView {
    if key == "id"@ {
        UserStateView {
            user_id: match strings::parse_signed(value) {
                Some(n) => n as i64,
                None => 0,
            },
            ..st
        }
    } else if key == "goal"@ {
        UserStateView { goal: value, ..st }
    } else if key == "current"@ {
        UserStateView { current: value, ..st }
    } else {
        st
    }
}

/// A token with a key and a value without quotation marks sets the attribute.
pub proof fn law_bare_attributes(
    tokens: Seq<Seq<char>>,
    i: int,
    st: UserStateView,
    key: Seq<char>,
    value: Seq<char>,
)
    requires
        0 <= i < tokens.len(),
        tokens[i] == key + seq!['='] + value,
        key.len() > 0,
        key[0] != '@',
        mentions::lacks(key, '='),
        mentions::lacks(key, '"'),
        mentions::lacks(value, '"'),
    ensures
        sanitizer::read_tokens(tokens, i, st) == sanitizer::read_tokens(
            tokens,
            i + 1,
            with_attribute(st, key, value),
        ),
{
    law_keys_and_values(key, value);
    assert(tokens[i][0] == key[0]);
    lemma_unquoted(value);
    if value.len() > 0 {
        assert(value[0] != '"');
    }
}

/// A text without quotation marks is not cut.
proof fn lemma_unquoted(value: Seq<char>)
    requires
        mentions::lacks(value, '"'),
    ensures
        strings::trim_char(value, '"') == value,
{
    let e = Seq::<char>::empty();
    if value.len() > 0 {
        assert(value[0] != '"' && value[value.len() - 1] != '"');
        basics::law_trim_char(e, value, e, '"');
        assert(e + value + e =~= value);
    }
}

/// A value in quotation marks within one token sets the attribute to what stands
/// between them.
pub proof fn law_quoted_attributes(
    tokens: Seq<Seq<char>>,
    i: int,
    st: UserStateView,
    key: Seq<char>,
    value: Seq<char>,
)
    requires
        0 <= i < tokens.len(),
        tokens[i] == key + seq!['='] + (seq!['"'] + value + seq!['"']),
        key.len() > 0,
        key[0] != '@',
        mentions::lacks(key, '='),
        mentions::lacks(key, '"'),
        mentions::lacks(value, '"'),
        value.len() > 0,
    ensures
        sanitizer::read_tokens(tokens, i, st) == sanitizer::read_tokens(
            tokens,
            i + 1,
            with_attribute(st, key, value),
        ),
{
    let raw = seq!['"'] + value + seq!['"'];
    law_keys_and_values(key, raw);
    assert(tokens[i][0] == key[0]);
    assert(raw.last() == '"');
    assert(value[0] != '"' && value[value.len() - 1] != '"');
    basics::law_trim_char(seq!['"'], value, seq!['"'], '"');
}

/// The text ends with a quotation mark.
pub open spec fn closes(s: Seq<char>) -> bool {
    s.len() > 0 && s[s.len() - 1] == '"'
}

/// What is gathered of a value that goes on through the tokens up to `j`.
proof fn lemma_gathered(tokens: Seq<Seq<char>>, i: int, j: int, start: Seq<char>)
    requires
        0 <= i <= j < tokens.len(),
        forall|k: int| i <= k < j ==> !closes(#[trigger] tokens[k]),
        closes(tokens[j]),
    ensures
        sanitizer::gather_quoted(tokens, i, start) == (
            start + seq![' '] + strings::join(tokens.subrange(i, j + 1), seq![' ']),
            j + 1,
        ),
    decreases j - i,
{
    let part = tokens.subrange(i, j + 1);
    let longer = start.push(' ') + tokens[i];
    assert(longer =~= start + seq![' '] + tokens[i]);
    if i == j {
        assert(part =~= seq![tokens[i]]);
        assert(strings::join(part, seq![' ']) == tokens[i]);
    } else {
        lemma_gathered(tokens, i + 1, j, longer);
        let rest = tokens.subrange(i + 1, j + 1);
        lemma_join_first(tokens[i], rest);
        assert(part =~= seq![tokens[i]] + rest);
        assert(longer + seq![' '] + strings::join(rest, seq![' ']) =~= start + seq![' '] + (
        tokens[i] + seq![' '] + strings::join(rest, seq![' '])));
    }
}

/// The first of joined texts comes first.
proof fn lemma_join_first(x: Seq<char>, rest: Seq<Seq<char>>)
    requires
        rest.len() > 0,
    ensures
        strings::join(seq![x] + rest, seq![' ']) == x + seq![' '] + strings::join(rest, seq![' ']),
    decreases rest.len(),
{
    let all = seq![x] + rest;
    let sep = seq![' '];
    if rest.len() == 1 {
        assert(all.drop_last() =~= seq![x]);
        assert(all.last() == rest[0]);
        assert(strings::join(seq![x], sep) == x);
    } else {
        lemma_join_first(x, rest.drop_last());
        assert(all.drop_last() =~= seq![x] + rest.drop_last());
        assert(all.last() == rest.last());
        assert(x + sep + strings::join(rest.drop_last(), sep) + sep + rest.last() =~= x + sep + (
        strings::join(rest.drop_last(), sep) + sep + rest.last()));
    }
}

/// A value in quotation marks may go on through several words: the attribute is
/// set to all of them, with single spaces between them and without the quotation
/// marks around them.
pub proof fn law_values_of_many_words(
    tokens: Seq<Seq<char>>,
    i: int,
    j: int,
    st: UserStateView,
    key: Seq<char>,
    first: Seq<char>,
    value: Seq<char>,
)
    requires
        0 <= i < j < tokens.len(),
        tokens[i] == key + seq!['='] + (seq!['"'] + first),
        key.len() > 0,
        key[0] != '@',
        mentions::lacks(key, '='),
        mentions::lacks(key, '"'),
        first.len() > 0,
        mentions::lacks(first, '"'),
        forall|k: int| i < k < j ==> !closes(#[trigger] tokens[k]),
        closes(tokens[j]),
        value.len() > 0,
        value[0] != '"',
        value.last() != '"',
        seq!['"'] + first + seq![' '] + strings::join(tokens.subrange(i + 1, j + 1), seq![' '])
            == seq!['"'] + value + seq!['"'],
    ensures
        sanitizer::read_tokens(tokens, i, st) == sanitizer::read_tokens(
            tokens,
            j + 1,
            with_attribute(st, key, value),
        ),
{
    let raw = seq!['"'] + first;
    law_keys_and_values(key, raw);
    assert(tokens[i][0] == key[0]);
    assert(raw[0] == '"');
    assert(raw.last() == first[first.len() - 1]);
    lemma_gathered(tokens, i + 1, j, raw);
    basics::law_trim_char(seq!['"'], value, seq!['"'], '"');
}

/// A tag without an id, or with the id zero, tells of nobody.
pub proof fn law_tags_need_an_id(inner: Seq<char>)
    ensures
        ({
            let st = sanitizer::read_tokens(strings::words(inner), 0, UserStateView::empty());
            &&& st.user_id == 0 ==> sanitizer::tag_state(inner) is None
            &&& st.user_id != 0 ==> sanitizer::tag_state(inner) == Some(st)
            &&& UserStateView::empty().user_id == 0
        }),
{
}

/// Tidying keeps the lines: each loses the white space at its end and nothing
/// else, if the first starts with a solid character and the last is not blank.
pub proof fn law_tidy_keeps_lines(lines: Seq<Seq<char>>)
    requires
        lines.len() > 0,
        forall|i: int| 0 <= i < lines.len() ==> mentions::lacks(#[trigger] lines[i], '\n'),
        lines[0].len() > 0,
        !strings::is_white(lines[0][0]),
        !basics::all_white(lines.last()),
    ensures
        sanitizer::tidy(strings::join(lines, seq!['\n'])) == strings::join(
            lines.map_values(|l: Seq<char>| strings::trim_end(l)),
            seq!['\n'],
        ),
{
    reveal_strlit("\n");
    assert("\n"@ =~= seq!['\n']);
    let feed = seq!['\n'];
    mentions::lemma_split_joined(lines, feed);
    let short = sanitizer::trimmed_lines(lines);
    assert(short =~= lines.map_values(|l: Seq<char>| strings::trim_end(l)));
    let joined = strings::join(short, feed);
    lemma_solid_start(lines[0]);
    assert(short[0] == strings::trim_end(lines[0]));
    lemma_first_of_joined(short, feed);
    lemma_solid_end(lines.last());
    assert(short.last() == strings::trim_end(lines.last()));
    lemma_last_of_joined(short, feed);
    let e = Seq::<char>::empty();
    basics::law_trim(e, joined, e);
    assert(e + joined + e =~= joined);
}

/// The first character of joined texts.
proof fn lemma_first_of_joined(parts: Seq<Seq<char>>, sep: Seq<char>)
    requires
        parts.len() > 0,
        parts[0].len() > 0,
    ensures
        strings::join(parts, sep).len() > 0,
        strings::join(parts, sep)[0] == parts[0][0],
    decreases parts.len(),
{
    if parts.len() > 1 {
        lemma_first_of_joined(parts.drop_last(), sep);
    }
}

/// The last character of joined texts.
proof fn lemma_last_of_joined(parts: Seq<Seq<char>>, sep: Seq<char>)
    requires
        parts.len() > 0,
        parts.last().len() > 0,
    ensures
        strings::join(parts, sep).len() > 0,
        strings::join(parts, sep).last() == parts.last().last(),
{
    if parts.len() == 1 {
        assert(parts.last() == parts[0]);
    }
}

/// A text that starts with a solid character still does without the white space
/// at its end.
proof fn lemma_solid_start(s: Seq<char>)
    requires
        s.len() > 0,
        !strings::is_white(s[0]),
    ensures
        strings::trim_end(s).len() > 0,
        strings::trim_end(s)[0] == s[0],
    decreases s.len(),
{
    if strings::is_white(s.last()) {
        assert(s.len() > 1);
        lemma_solid_start(s.drop_last());
    }
}

/// A text that is not blank ends with a solid character without the white space at
/// its end.
proof fn lemma_solid_end(s: Seq<char>)
    requires
        !basics::all_white(s),
    ensures
        strings::trim_end(s).len() > 0,
        !strings::is_white(strings::trim_end(s).last()),
    decreases s.len(),
{
    let i = choose|i: int| 0 <= i < s.len() && !strings::is_white(#[trigger] s[i]);
    if strings::is_white(s.last()) {
        assert(i < s.len() - 1);
        assert(!strings::is_white(s.drop_last()[i]));
        lemma_solid_end(s.drop_last());
    }
}

} // verus!
