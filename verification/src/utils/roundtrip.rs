//! Tags written for a prompt are read back unchanged.

use vstd::prelude::*;

use crate::storage::UserStateView;
use crate::strings;
use crate::utils::sanitizer;

verus! {

/// The character occurs nowhere in the text.
pub open spec fn lacks(s: Seq<char>, c: char) -> bool {
    forall|i: int| 0 <= i < s.len() ==> #[trigger] s[i] != c
}

/// A name that fits into a tag: one word that neither closes the tag nor ends
/// with a comma.
pub open spec fn plain_name(s: Seq<char>) -> bool {
    &&& strings::no_white(s)
    &&& lacks(s, '>')
    &&& s.len() > 0 ==> s.last() != ','
}

/// A value that fits into a tag: words with single spaces between them,
/// without quotation marks and without the character that closes the tag.
pub open spec fn plain_value(s: Seq<char>) -> bool {
    &&& lacks(s, '>')
    &&& lacks(s, '"')
    &&& strings::join(strings::words(s), " "@) == s
}

/// A state that a tag can carry.
pub open spec fn plain_state(st: UserStateView) -> bool {
    &&& st.user_id != 0
    &&& plain_name(st.display_name)
    &&& plain_value(st.goal)
    &&& plain_value(st.current)
}

/// Words hold no white space and are not empty.
proof fn lemma_words_plain(s: Seq<char>)
    ensures
        forall|i: int|
            0 <= i < strings::words(s).len() ==> strings::no_white(#[trigger] strings::words(s)[i])
                && strings::words(s)[i].len() > 0,
{
    let parts = strings::split(s, strings::Separator::White);
    let p = |w: Seq<char>| w.len() >= 1;
    lemma_split_plain(s);
    assert forall|i: int| 0 <= i < strings::words(s).len() implies strings::no_white(
        #[trigger] strings::words(s)[i],
    ) && strings::words(s)[i].len() > 0 by {
        parts.lemma_filter_pred(p, i);
        parts.lemma_filter_contains_rev(p, strings::words(s)[i]);
    }
}

/// The pieces between white space hold none.
proof fn lemma_split_plain(s: Seq<char>)
    ensures
        forall|i: int|
            0 <= i < strings::split(s, strings::Separator::White).len() ==> strings::no_white(
                #[trigger] strings::split(s, strings::Separator::White)[i],
            ),
    decreases s.len(),
{
    if s.len() > 0 {
        lemma_split_plain(s.drop_last());
        strings::lemma_split_nonempty(s.drop_last(), strings::Separator::White);
    }
}

/// The words of a prefix glued to a list of joined words.
proof fn lemma_words_of_join(p: Seq<char>, ws: Seq<Seq<char>>)
    requires
        strings::no_white(p),
        p.len() > 0,
        ws.len() > 0,
        forall|i: int|
            0 <= i < ws.len() ==> strings::no_white(#[trigger] ws[i]) && ws[i].len() > 0,
    ensures
        strings::words(p + strings::join(ws, " "@)) == ws.update(0, p + ws[0]),
    decreases ws.len(),
{
    reveal_strlit(" ");
    if ws.len() == 1 {
        let w = p + ws[0];
        strings::lemma_words_single(w);
        assert(seq![w] =~= ws.update(0, w));
    } else {
        let init = ws.drop_last();
        let last = ws.last();
        assert forall|i: int| 0 <= i < init.len() implies strings::no_white(#[trigger] init[i])
            && init[i].len() > 0 by {
            assert(init[i] == ws[i]);
        }
        lemma_words_of_join(p, init);
        assert(strings::no_white(ws[ws.len() - 1]));
        strings::lemma_words_single(last);
        let left = p + strings::join(init, " "@);
        assert(p + strings::join(ws, " "@) =~= left.push(' ') + last);
        strings::lemma_words_concat(left, last);
        assert(init.update(0, p + ws[0]) + seq![last] =~= ws.update(0, p + ws[0]));
    }
}

/// The tokens of a quoted field.
spec fn field_tokens(name: Seq<char>, ws: Seq<Seq<char>>) -> Seq<Seq<char>> {
    let opened = ws.update(0, name + "=\""@ + ws[0]);
    opened.update(ws.len() - 1, opened[ws.len() - 1].push('"'))
}

/// The words of a quoted field.
proof fn lemma_field_words(name: Seq<char>, value: Seq<char>)
    requires
        strings::no_white(name),
        plain_value(value),
        value.len() > 0,
    ensures
        strings::words(value).len() > 0,
        strings::words(name + "=\""@ + value + "\""@) == field_tokens(name, strings::words(value)),
{
    reveal_strlit("=\"");
    reveal_strlit("\"");
    reveal_strlit(" ");
    let ws = strings::words(value);
    lemma_words_plain(value);
    if ws.len() == 0 {
        assert(strings::join(ws, " "@) =~= Seq::<char>::empty());
    }
    let p = name + "=\""@;
    let n = ws.len() as int;
    if n == 1 {
        let w = p + ws[0] + "\""@;
        assert(strings::no_white(ws[0]));
        strings::lemma_words_single(w);
        assert(value == ws[0]);
        assert(w =~= (name + "=\""@ + ws[0]).push('"'));
        assert(seq![w] =~= field_tokens(name, ws));
    } else {
        let init = ws.drop_last();
        let last = ws.last().push('"');
        assert forall|i: int| 0 <= i < init.len() implies strings::no_white(#[trigger] init[i])
            && init[i].len() > 0 by {
            assert(init[i] == ws[i]);
        }
        lemma_words_of_join(p, init);
        assert(strings::no_white(ws[n - 1]));
        strings::lemma_words_single(last);
        let left = p + strings::join(init, " "@);
        assert(name + "=\""@ + value + "\""@ =~= left.push(' ') + last);
        strings::lemma_words_concat(left, last);
        assert(init.update(0, p + ws[0]) + seq![last] =~= field_tokens(name, ws));
    }
}

/// Reading on from the second word of a quoted value collects the rest of it.
proof fn lemma_gather_field(
    tokens: Seq<Seq<char>>,
    at: int,
    ws: Seq<Seq<char>>,
    k: int,
    value: Seq<char>,
)
    requires
        0 <= at,
        1 <= k < ws.len(),
        at + ws.len() <= tokens.len(),
        forall|i: int| 0 <= i < ws.len() ==> lacks(#[trigger] ws[i], '"') && ws[i].len() > 0,
        forall|i: int| k <= i < ws.len() - 1 ==> tokens[at + i] == #[trigger] ws[i],
        tokens[at + ws.len() - 1] == ws.last().push('"'),
        value == seq!['"'] + strings::join(ws.take(k), " "@),
    ensures
        sanitizer::gather_quoted(tokens, at + k, value) == (
            (seq!['"'] + strings::join(ws, " "@)).push('"'),
            at + ws.len(),
        ),
    decreases ws.len() - k,
{
    reveal_strlit(" ");
    let longer = value.push(' ') + tokens[at + k];
    assert(ws.take(k + 1).drop_last() =~= ws.take(k));
    if k == ws.len() - 1 {
        assert(ws.take(k + 1) =~= ws);
        assert(longer =~= (seq!['"'] + strings::join(ws, " "@)).push('"'));
        assert(tokens[at + k].last() == '"');
    } else {
        assert(tokens[at + k] == ws[k]);
        assert(ws[k][ws[k].len() - 1] != '"');
        assert(longer =~= seq!['"'] + strings::join(ws.take(k + 1), " "@));
        lemma_gather_field(tokens, at, ws, k + 1, longer);
    }
}

/// A value loses its quotation marks and nothing else.
proof fn lemma_unquote(v: Seq<char>)
    requires
        lacks(v, '"'),
        v.len() > 0,
    ensures
        strings::trim_char((seq!['"'] + v).push('"'), '"') == v,
{
    let q = (seq!['"'] + v).push('"');
    assert(q.drop_first() =~= v.push('"'));
    assert(v.push('"')[0] == v[0]);
    reveal_with_fuel(strings::trim_start_char, 2);
    assert(strings::trim_start_char(q, '"') == v.push('"'));
    assert(v.push('"').drop_last() =~= v);
    assert(v[v.len() - 1] != '"');
    reveal_with_fuel(strings::trim_end_char, 2);
}

/// The key of a token that starts with a plain key and an equals sign.
proof fn lemma_key_value(key: Seq<char>, raw: Seq<char>)
    requires
        key.len() > 0,
        lacks(key, '='),
        lacks(key, '"'),
    ensures
        sanitizer::key_value(key.push('=') + raw) == Some((key, raw)),
{
    let token = key.push('=') + raw;
    let eq = seq!['='];
    strings::lemma_find_from(token, eq, 0);
    assert(token.subrange(key.len() as int, key.len() as int + 1) =~= eq);
    let f = strings::find(token, eq);
    assert(f is Some);
    let k = f->0;
    assert(token.subrange(k, k + 1)[0] == token[k]);
    assert(eq[0] == '=');
    if k < key.len() {
        assert(token[k] == key[k]);
    }
    assert(k == key.len());
    assert(token.take(k) =~= key);
    assert(token.skip(k + 1) =~= raw);
    assert(key[0] != '"' && key[key.len() - 1] != '"');
}

/// Reading the tokens of a quoted field sets the attribute.
proof fn lemma_read_field(
    tokens: Seq<Seq<char>>,
    at: int,
    name: Seq<char>,
    value: Seq<char>,
    st: UserStateView,
)
    requires
        0 <= at,
        name.len() > 0,
        name[0] != '@',
        lacks(name, '='),
        lacks(name, '"'),
        strings::no_white(name),
        plain_value(value),
        value.len() > 0,
        at + strings::words(value).len() <= tokens.len(),
        forall|i: int|
            0 <= i < strings::words(value).len() ==> tokens[at + i] == #[trigger] field_tokens(
                name,
                strings::words(value),
            )[i],
        strings::words(value).len() > 0,
    ensures
        sanitizer::read_tokens(tokens, at, st) == sanitizer::read_tokens(
            tokens,
            at + strings::words(value).len(),
            sanitizer::set_attribute(st, name, value),
        ),
{
    reveal_strlit("=\"");
    reveal_strlit(" ");
    let ws = strings::words(value);
    let n = ws.len() as int;
    let ft = field_tokens(name, ws);
    lemma_words_plain(value);
    lemma_words_lack(value, '"');
    let raw = if n == 1 {
        seq!['"'] + ws[0].push('"')
    } else {
        seq!['"'] + ws[0]
    };
    assert(tokens[at + 0] == ft[0]);
    assert(ft[0] =~= name.push('=') + raw);
    assert(ft[0][0] == name[0]);
    lemma_key_value(name, raw);
    let full = (seq!['"'] + value).push('"');
    assert(strings::join(ws.take(1), " "@) =~= ws[0]);
    if n == 1 {
        assert(value == ws[0]);
        assert(raw =~= full);
    } else {
        assert(strings::no_white(ws[0]) && ws[0].len() > 0);
        assert(ws[0][ws[0].len() - 1] != '"');
        assert forall|i: int| 1 <= i < n - 1 implies tokens[at + i] == #[trigger] ws[i] by {
            assert(tokens[at + i] == ft[i]);
        }
        assert(tokens[at + (n - 1)] == ft[n - 1]);
        lemma_gather_field(tokens, at, ws, 1, raw);
    }
    lemma_unquote(value);
}

/// The words of a text hold none of the characters that it lacks.
proof fn lemma_words_lack(s: Seq<char>, c: char)
    requires
        lacks(s, c),
    ensures
        forall|i: int| 0 <= i < strings::words(s).len() ==> lacks(#[trigger] strings::words(s)[i], c),
{
    let parts = strings::split(s, strings::Separator::White);
    let p = |w: Seq<char>| w.len() >= 1;
    lemma_split_lacks(s, c);
    assert forall|i: int| 0 <= i < strings::words(s).len() implies lacks(
        #[trigger] strings::words(s)[i],
        c,
    ) by {
        parts.lemma_filter_contains_rev(p, strings::words(s)[i]);
    }
}

/// The pieces of a text hold none of the characters that it lacks.
proof fn lemma_split_lacks(s: Seq<char>, c: char)
    requires
        lacks(s, c),
    ensures
        forall|i: int|
            0 <= i < strings::split(s, strings::Separator::White).len() ==> lacks(
                #[trigger] strings::split(s, strings::Separator::White)[i],
                c,
            ),
    decreases s.len(),
{
    if s.len() > 0 {
        let t = s.drop_last();
        assert(lacks(t, c)) by {
            assert forall|i: int| 0 <= i < t.len() implies #[trigger] t[i] != c by {
                assert(t[i] == s[i]);
            }
        }
        assert(s[s.len() - 1] != c);
        lemma_split_lacks(t, c);
        strings::lemma_split_nonempty(t, strings::Separator::White);
    }
}

/// The inside of the tag of a state.
spec fn tag_inner(st: UserStateView) -> Seq<char> {
    "@"@ + st.display_name + UserStateView::field("goal"@, st.goal) + UserStateView::field(
        "current"@,
        st.current,
    ) + " id="@ + strings::decimal_int(st.user_id as int)
}

/// The words that a field adds to the inside of a tag.
proof fn lemma_append_field(left: Seq<char>, name: Seq<char>, value: Seq<char>)
    requires
        strings::no_white(name),
        plain_value(value),
    ensures
        value.len() == 0 ==> left + UserStateView::field(name, value) == left,
        value.len() > 0 ==> strings::words(value).len() > 0 && strings::words(
            left + UserStateView::field(name, value),
        ) == strings::words(left) + field_tokens(name, strings::words(value)),
{
    reveal_strlit("=\"");
    reveal_strlit("\"");
    reveal_strlit("'");
    reveal_strlit(" ");
    if value.len() == 0 {
        assert(left + UserStateView::field(name, value) =~= left);
    } else {
        strings::lemma_split_str_single(value, '"');
        assert("\""@ =~= seq!['"']);
        assert(strings::replace(value, "\""@, "'"@) == value);
        lemma_field_words(name, value);
        let field = name + "=\""@ + value + "\""@;
        assert(left + UserStateView::field(name, value) =~= left.push(' ') + field);
        strings::lemma_words_concat(left, field);
    }
}

/// The digits of an id hold neither white space nor quotation marks nor the
/// character that closes a tag.
proof fn lemma_id_plain(n: i64)
    ensures
        strings::decimal_int(n as int).len() > 0,
        strings::no_white(strings::decimal_int(n as int)),
        lacks(strings::decimal_int(n as int), '"'),
        lacks(strings::decimal_int(n as int), '>'),
{
    let m: nat = if n < 0 {
        (-n) as nat
    } else {
        n as nat
    };
    let d = strings::decimal(m);
    strings::lemma_decimal_value(m);
    let s = strings::decimal_int(n as int);
    assert forall|i: int| 0 <= i < s.len() implies !strings::is_white(#[trigger] s[i]) && s[i]
        != '"' && s[i] != '>' by {
        if n < 0 {
            if i > 0 {
                assert(s[i] == d[i - 1]);
                assert(strings::is_digit(d[i - 1]));
            }
        } else {
            assert(strings::is_digit(d[i]));
        }
    }
}

/// The inside of the tag of a plain state describes the state.
proof fn lemma_inner_reads_back(st: UserStateView)
    requires
        plain_state(st),
    ensures
        sanitizer::tag_state(tag_inner(st)) == Some(st),
{
    reveal_strlit("@");
    reveal_strlit("goal");
    reveal_strlit("current");
    reveal_strlit("id");
    reveal_strlit(" id=");
    let id = strings::decimal_int(st.user_id as int);
    lemma_id_plain(st.user_id);
    strings::law_parse_decimal(st.user_id);
    let a = "@"@ + st.display_name;
    strings::lemma_words_single(a);
    let b = a + UserStateView::field("goal"@, st.goal);
    lemma_append_field(a, "goal"@, st.goal);
    let c = b + UserStateView::field("current"@, st.current);
    lemma_append_field(b, "current"@, st.current);
    let idtok = "id"@.push('=') + id;
    assert(tag_inner(st) =~= c.push(' ') + idtok);
    strings::lemma_words_concat(c, idtok);
    assert(strings::no_white(idtok)) by {
        assert forall|i: int| 0 <= i < idtok.len() implies !strings::is_white(
            #[trigger] idtok[i],
        ) by {
            if i >= 3 {
                assert(idtok[i] == id[i - 3]);
            }
        }
    }
    strings::lemma_words_single(idtok);

    let tokens = strings::words(tag_inner(st));
    let gw = strings::words(st.goal);
    let cw = strings::words(st.current);
    let gn: int = if st.goal.len() > 0 {
        gw.len() as int
    } else {
        0
    };
    let cn: int = if st.current.len() > 0 {
        cw.len() as int
    } else {
        0
    };
    assert(tokens == strings::words(c) + seq![idtok]);
    assert(strings::words(b).len() == 1 + gn);
    assert(strings::words(c).len() == 1 + gn + cn);

    // The name.
    let s0 = UserStateView::empty();
    let s1 = UserStateView { display_name: st.display_name, ..s0 };
    assert(tokens[0] == a);
    assert(a.skip(1) =~= st.display_name);
    assert(sanitizer::read_tokens(tokens, 0, s0) == sanitizer::read_tokens(tokens, 1, s1));

    // The goal.
    let s2 = UserStateView { goal: st.goal, ..s1 };
    if st.goal.len() > 0 {
        assert forall|i: int| 0 <= i < gw.len() implies tokens[1 + i] == #[trigger] field_tokens(
            "goal"@,
            gw,
        )[i] by {
            assert(strings::words(b)[1 + i] == field_tokens("goal"@, gw)[i]);
            assert(strings::words(c)[1 + i] == strings::words(b)[1 + i]);
        }
        lemma_read_field(tokens, 1, "goal"@, st.goal, s1);
        assert("goal"@[0] != "id"@[0]);
    } else {
        assert(st.goal =~= s1.goal);
    }
    assert(sanitizer::read_tokens(tokens, 1, s1) == sanitizer::read_tokens(tokens, 1 + gn, s2));

    // The current step.
    let s3 = UserStateView { current: st.current, ..s2 };
    if st.current.len() > 0 {
        assert forall|i: int| 0 <= i < cw.len() implies tokens[(1 + gn) + i]
            == #[trigger] field_tokens("current"@, cw)[i] by {
            assert(strings::words(c)[1 + gn + i] == field_tokens("current"@, cw)[i]);
        }
        lemma_read_field(tokens, 1 + gn, "current"@, st.current, s2);
        assert("current"@[0] != "id"@[0]);
        assert("current"@[0] != "goal"@[0]);
    } else {
        assert(st.current =~= s2.current);
    }
    assert(sanitizer::read_tokens(tokens, 1 + gn, s2) == sanitizer::read_tokens(
        tokens,
        1 + gn + cn,
        s3,
    ));

    // The id.
    let at = 1 + gn + cn;
    assert(tokens[at] == idtok);
    assert(tokens.len() == at + 1);
    lemma_key_value("id"@, id);
    assert(id[0] != '"' && id[id.len() - 1] != '"');
    assert(strings::trim_char(id, '"') == id);
    let s4 = UserStateView { user_id: st.user_id, ..s3 };
    assert(sanitizer::set_attribute(s3, "id"@, id) == s4);
    assert(sanitizer::read_tokens(tokens, at, s3) == sanitizer::read_tokens(tokens, at + 1, s4));
    assert(sanitizer::read_tokens(tokens, at + 1, s4) == s4);
    assert(s4 == st);
}

/// The inside of the tag of a plain state does not close the tag.
proof fn lemma_inner_stays_open(st: UserStateView)
    requires
        plain_state(st),
    ensures
        lacks(tag_inner(st), '>'),
{
    reveal_strlit("@");
    reveal_strlit("goal");
    reveal_strlit("current");
    reveal_strlit(" id=");
    lemma_id_plain(st.user_id);
    lemma_field_lacks("goal"@, st.goal);
    lemma_field_lacks("current"@, st.current);
}

/// A field of the tag does not close the tag.
proof fn lemma_field_lacks(name: Seq<char>, value: Seq<char>)
    requires
        lacks(name, '>'),
        plain_value(value),
    ensures
        lacks(UserStateView::field(name, value), '>'),
{
    reveal_strlit("=\"");
    reveal_strlit("\"");
    reveal_strlit("'");
    reveal_strlit(" ");
    if value.len() > 0 {
        strings::lemma_split_str_single(value, '"');
        assert("\""@ =~= seq!['"']);
        assert(strings::replace(value, "\""@, "'"@) == value);
    }
}

/// The first occurrence of the start of a tag after a text without one is at
/// the end of that text.
proof fn lemma_find_open(pre: Seq<char>, rest: Seq<char>)
    requires
        !strings::occurs(pre, sanitizer::tag_open()),
    ensures
        strings::find(pre + sanitizer::tag_open() + rest, sanitizer::tag_open()) == Some(
            pre.len() as int,
        ),
{
    reveal_strlit("<user:");
    let p = sanitizer::tag_open();
    let s = pre + p + rest;
    let n = pre.len() as int;
    strings::lemma_find_from(s, p, 0);
    strings::lemma_find_from(pre, p, 0);
    assert(s.subrange(n, n + p.len()) =~= p);
    let k = strings::find(s, p)->0;
    assert(k <= n);
    if k < n {
        assert forall|i: int| 0 <= i < 6 implies s[k + i] == #[trigger] p[i] by {
            assert(s.subrange(k, k + 6)[i] == s[k + i]);
        }
        if k + 6 <= n {
            assert(pre.subrange(k, k + 6) =~= p);
        } else {
            assert(s[n] == p[0]);
            assert(s[k + (n - k)] == p[n - k]);
        }
    }
}

/// What was written into a prompt as a tag is read back: after any text that
/// holds no tag, the tag of a plain state gives that state and leaves the text
/// alone.
pub proof fn law_tag_roundtrip(pre: Seq<char>, st: UserStateView)
    requires
        !strings::occurs(pre, sanitizer::tag_open()),
        plain_state(st),
    ensures
        sanitizer::tag_states(pre + st.tag()) == seq![st],
        sanitizer::strip_tags(pre + st.tag()) == pre,
{
    reveal_strlit("<user:@");
    reveal_strlit("<user:");
    reveal_strlit("@");
    reveal_strlit(">");
    let p = sanitizer::tag_open();
    let inner = tag_inner(st);
    let s = pre + st.tag();
    let n = pre.len() as int;
    assert(s =~= pre + p + inner.push('>'));
    lemma_find_open(pre, inner.push('>'));
    lemma_inner_stays_open(st);
    lemma_inner_reads_back(st);
    let after = s.skip(n);
    assert(after =~= p + inner.push('>'));
    let close = seq!['>'];
    let e = 6 + inner.len() as int;
    strings::lemma_find_from(after, close, 0);
    assert(after.subrange(e, e + 1) =~= close);
    let k = strings::find(after, close)->0;
    assert(after.subrange(k, k + 1)[0] == after[k]);
    assert(close[0] == '>');
    assert(k <= e);
    if k < e {
        if k < 6 {
            assert(after[k] == p[k]);
        } else {
            assert(after[k] == inner[k - 6]);
        }
    }
    assert(s.subrange(n + 6, n + e) =~= inner);
    assert(s.skip(n + e + 1) =~= Seq::<char>::empty());
    let rest = Seq::<char>::empty();
    strings::lemma_find_from(rest, p, 0);
    assert(strings::find(rest, p) is None);
    assert(sanitizer::tag_states(rest) == Seq::<UserStateView>::empty());
    assert(sanitizer::strip_once(rest) == rest);
    assert(strings::find(s, p) == Some(n));
    assert(strings::find(after, close) == Some(e));
    assert(seq![st] + Seq::<UserStateView>::empty() =~= seq![st]);
    assert(s.take(n) + rest =~= pre);
    assert(sanitizer::strip_once(s) == pre);
    sanitizer::law_plain_answer_is_kept(pre);
}

} // verus!
