//! Cleaning of model output: participant tags and mentions of the bot.

use vstd::prelude::*;
use vstd::slice::slice_subrange;

use crate::storage;
use crate::storage::UserState;
use crate::storage::UserStateView;
use crate::strings;

verus! {

/// A token cut at its first equals sign, with the quotation marks around the
/// key removed; nothing if there is no sign or no key.
pub open spec fn key_value(token: Seq<char>) -> Option<(Seq<char>, Seq<char>)> {
    match strings::find(token, seq!['=']) {
        Some(i) => {
            let key = strings::trim_char(token.take(i), '"');
            if key.len() == 0 {
                None
            } else {
                Some((key, token.skip(i + 1)))
            }
        },
        None => None,
    }
}

/// See [`key_value`].
pub fn split_kv(token: &str) -> (r: Option<(String, String)>)
    ensures
        match r {
            Some((k, v)) => key_value(token@) == Some((k@, v@)),
            None => key_value(token@) is None,
        },
{
    let cs = strings::chars_of(token);
    let sign: Vec<char> = vec!['='];
    assert(sign@ =~= seq!['=']);
    match strings::slice_find(cs.as_slice(), sign.as_slice()) {
        Some(i) => {
            let n: usize = cs.len();
            assert(i + sign@.len() <= n);
            proof {
                strings::lemma_find_from(cs@, seq!['='], 0);
            }
            let key = strings::slice_trim_char(slice_subrange(cs.as_slice(), 0, i), '"');
            if key.len() == 0 {
                return None;
            }
            let value = slice_subrange(cs.as_slice(), i + 1, n);
            Some((strings::string_of(key), strings::string_of(value)))
        },
        None => None,
    }
}

/// The text ends with a quotation mark.
pub open spec fn ends_quoted(s: Seq<char>) -> bool {
    s.len() > 0 && s.last() == '"'
}

/// The text starts with a quotation mark.
pub open spec fn starts_quoted(s: Seq<char>) -> bool {
    s.len() > 0 && s[0] == '"'
}

/// A quoted value goes on through the tokens from `i` up to the first that
/// ends with a quotation mark. Gives the value and the index of the token
/// after it.
pub open spec fn gather_quoted(tokens: Seq<Seq<char>>, i: int, value: Seq<char>) -> (
    Seq<char>,
    int,
)
    decreases tokens.len() - i,
{
    if i < 0 || i >= tokens.len() {
        (value, i)
    } else {
        let longer = value.push(' ') + tokens[i];
        if ends_quoted(tokens[i]) {
            (longer, i + 1)
        } else {
            gather_quoted(tokens, i + 1, longer)
        }
    }
}

/// Reading a value never steps back.
pub proof fn lemma_gather_quoted(tokens: Seq<Seq<char>>, i: int, value: Seq<char>)
    requires
        0 <= i <= tokens.len(),
    ensures
        i <= gather_quoted(tokens, i, value).1 <= tokens.len(),
    decreases tokens.len() - i,
{
    if i < tokens.len() && !ends_quoted(tokens[i]) {
        lemma_gather_quoted(tokens, i + 1, value.push(' ') + tokens[i]);
    }
}

/// The number that an id stands for, or zero.
pub open spec fn id_value(s: Seq<char>) -> i64 {
    match strings::parse_signed(s) {
        Some(v) => v as i64,
        None => 0,
    }
}

/// The state with one attribute set; other keys change nothing.
pub open spec fn set_attribute(st: UserStateView, key: Seq<char>, value: Seq<char>) -> UserStateView {
    if key == "id"@ {
        UserStateView { user_id: id_value(value), ..st }
    } else if key == "goal"@ {
        UserStateView { goal: value, ..st }
    } else if key == "current"@ {
        UserStateView { current: value, ..st }
    } else {
        st
    }
}

/// The value that belongs to a key whose token ends in `raw`, and the index of
/// the token after it.
pub open spec fn read_value(tokens: Seq<Seq<char>>, next: int, raw: Seq<char>) -> (Seq<char>, int) {
    if starts_quoted(raw) && !ends_quoted(raw) {
        gather_quoted(tokens, next, raw)
    } else {
        (raw, next)
    }
}

/// The state that the tokens from `i` on describe.
pub open spec fn read_tokens(tokens: Seq<Seq<char>>, i: int, st: UserStateView) -> UserStateView
    decreases tokens.len() - i,
{
    if i < 0 || i >= tokens.len() {
        st
    } else if tokens[i].len() > 0 && tokens[i][0] == '@' {
        let name = strings::trim_end_char(tokens[i].skip(1), ',');
        read_tokens(tokens, i + 1, UserStateView { display_name: name, ..st })
    } else {
        match key_value(tokens[i]) {
            None => read_tokens(tokens, i + 1, st),
            Some((key, raw)) => {
                let (value, next) = read_value(tokens, i + 1, raw);
                if i < next <= tokens.len() {
                    read_tokens(
                        tokens,
                        next,
                        set_attribute(st, key, strings::trim_char(value, '"')),
                    )
                } else {
                    st
                }
            },
        }
    }
}

/// The state that the inside of a tag describes; nothing without an id.
pub open spec fn tag_state(inner: Seq<char>) -> Option<UserStateView> {
    let st = read_tokens(strings::words(inner), 0, UserStateView::empty());
    if st.user_id == 0 {
        None
    } else {
        Some(st)
    }
}

/// See [`tag_state`].
pub fn parse_tag_inner(inner: &str) -> (r: Option<UserState>)
    ensures
        match r {
            Some(st) => tag_state(inner@) == Some(st@),
            None => tag_state(inner@) is None,
        },
{
    let tokens = strings::split_words(inner);
    let ghost tv = strings::views(tokens@);
    let mut state = UserState::default();
    let mut i: usize = 0;
    while i < tokens.len()
        invariant
            i <= tokens@.len(),
            tv == strings::views(tokens@),
            read_tokens(tv, 0, UserStateView::empty()) == read_tokens(tv, i as int, state@),
        decreases tokens@.len() - i,
    {
        let token = strings::chars_of(tokens[i].as_str());
        assert(token@ == tv[i as int]);
        if token.len() > 0 && token[0] == '@' {
            let nick = slice_subrange(token.as_slice(), 1, token.len());
            assert(nick@ =~= token@.skip(1));
            state.display_name = strings::string_of(strings::slice_trim_end_char(nick, ','));
            i += 1;
        } else {
            match split_kv(tokens[i].as_str()) {
                None => {
                    i += 1;
                },
                Some((key, raw)) => {
                    let mut value = strings::chars_of(raw.as_str());
                    let mut next: usize = i + 1;
                    if value.len() > 0 && value[0] == '"' && value[value.len() - 1] != '"' {
                        let ghost goal = gather_quoted(tv, i + 1, raw@);
                        let mut open: bool = true;
                        while open && next < tokens.len()
                            invariant
                                i < next <= tokens@.len(),
                                tv == strings::views(tokens@),
                                open ==> goal == gather_quoted(tv, next as int, value@),
                                !open ==> goal == (value@, next as int),
                            decreases tokens@.len() - next,
                        {
                            let t = strings::chars_of(tokens[next].as_str());
                            assert(t@ == tv[next as int]);
                            value.push(' ');
                            strings::extend_slice(&mut value, t.as_slice());
                            if t.len() > 0 && t[t.len() - 1] == '"' {
                                open = false;
                            }
                            next += 1;
                        }
                    }
                    proof {
                        assert(read_value(tv, i + 1, raw@) == (value@, next as int));
                        lemma_gather_quoted(tv, i + 1, raw@);
                    }
                    let text = strings::string_of(
                        strings::slice_trim_char(value.as_slice(), '"'),
                    );
                    if strings::str_eq(key.as_str(), "id") {
                        state.user_id = match strings::parse_i64(text.as_str()) {
                            Some(v) => v,
                            None => 0,
                        };
                    } else if strings::str_eq(key.as_str(), "goal") {
                        state.goal = text;
                    } else if strings::str_eq(key.as_str(), "current") {
                        state.current = text;
                    }
                    i = next;
                },
            }
        }
    }
    if state.user_id == 0 {
        return None;
    }
    Some(state)
}

/// The start of a tag.
pub open spec fn tag_open() -> Seq<char> {
    "<user:"@
}

/// A text without the tags that are found in it from its start to its end. An
/// unclosed tag is cut off with all that follows.
pub open spec fn strip_once(s: Seq<char>) -> Seq<char>
    decreases s.len(),
{
    match strings::find(s, tag_open()) {
        None => s,
        Some(i) => match strings::find(s.skip(i), seq!['>']) {
            None => s.take(i),
            Some(e) => if 0 <= i && 0 <= e && i + e + 1 <= s.len() {
                s.take(i) + strip_once(s.skip(i + e + 1))
            } else {
                s
            },
        },
    }
}

/// A text without tags: what is left where a tag stood is looked at again
/// until no tag is found.
pub open spec fn strip_tags(s: Seq<char>) -> Seq<char>
    decreases s.len(),
{
    let once = strip_once(s);
    if once.len() < s.len() {
        strip_tags(once)
    } else {
        s
    }
}

/// The states that the tags of a text describe, in order.
pub open spec fn tag_states(s: Seq<char>) -> Seq<UserStateView>
    decreases s.len(),
{
    match strings::find(s, tag_open()) {
        None => Seq::empty(),
        Some(i) => match strings::find(s.skip(i), seq!['>']) {
            None => Seq::empty(),
            Some(e) => if 0 <= i && 0 <= e && i + e + 1 <= s.len() {
                let rest = tag_states(s.skip(i + e + 1));
                match tag_state(s.subrange(i + 6, i + e)) {
                    Some(st) => seq![st] + rest,
                    None => rest,
                }
            } else {
                Seq::empty()
            },
        },
    }
}

/// Every line without its trailing white space.
pub open spec fn trimmed_lines(lines: Seq<Seq<char>>) -> Seq<Seq<char>> {
    lines.map_values(|l: Seq<char>| strings::trim_end(l))
}

/// A text without white space at the ends of its lines, at its start and at
/// its end.
pub open spec fn tidy(s: Seq<char>) -> Seq<char> {
    strings::trim(strings::join(trimmed_lines(strings::split_str(s, seq!['\n'])), "\n"@))
}

/// See [`tidy`].
fn tidied(s: &[char]) -> (r: String)
    ensures
        r@ == tidy(s@),
{
    let feed: Vec<char> = vec!['\n'];
    assert(feed@ =~= seq!['\n']);
    let lines = strings::slice_split_str(s, feed.as_slice());
    let ghost lv = strings::views(lines@);
    let mut out: Vec<String> = Vec::new();
    let mut i: usize = 0;
    assert(strings::views(out@) =~= trimmed_lines(lv.take(0)));
    while i < lines.len()
        invariant
            i <= lines@.len(),
            lv == strings::views(lines@),
            strings::views(out@) == trimmed_lines(lv.take(i as int)),
        decreases lines@.len() - i,
    {
        let cs = strings::chars_of(lines[i].as_str());
        let line = strings::string_of(strings::slice_trim_end(cs.as_slice()));
        proof {
            strings::lemma_views_push(out@, line);
            assert(trimmed_lines(lv.take(i + 1)) =~= trimmed_lines(lv.take(i as int)).push(line@));
        }
        out.push(line);
        i += 1;
    }
    assert(lv.take(lv.len() as int) =~= lv);
    let joined = strings::join_all(&out, "\n");
    strings::trimmed(joined.as_str())
}

/// See [`strip_once`] and [`tag_states`].
fn strip(cs: &[char]) -> (r: (Vec<char>, Vec<UserState>))
    ensures
        r.0@ == strip_once(cs@),
        storage::state_views(r.1@) == tag_states(cs@),
{
    let n: usize = cs.len();
    let open = strings::chars_of("<user:");
    let close: Vec<char> = vec!['>'];
    proof {
        reveal_strlit("<user:");
        assert(close@ =~= seq!['>']);
        assert(open@ == tag_open() && open@.len() == 6);
    }
    let mut states: Vec<UserState> = Vec::new();
    let mut clean: Vec<char> = Vec::new();
    let mut from: usize = 0;
    let mut more: bool = true;
    proof {
        assert(cs@.skip(0) =~= cs@);
        assert(storage::state_views(states@) =~= Seq::<UserStateView>::empty());
        assert(clean@ + strip_once(cs@) =~= strip_once(cs@));
        assert(storage::state_views(states@) + tag_states(cs@) =~= tag_states(cs@));
    }
    while more
        invariant
            from <= n == cs@.len(),
            open@ == tag_open(),
            open@.len() == 6,
            open@[0] == '<' && open@[1] == 'u' && open@[2] == 's' && open@[3] == 'e' && open@[4]
                == 'r' && open@[5] == ':',
            close@ == seq!['>'],
            more ==> strip_once(cs@) == clean@ + strip_once(cs@.skip(from as int)),
            more ==> tag_states(cs@) == storage::state_views(states@) + tag_states(cs@.skip(from as int)),
            !more ==> strip_once(cs@) == clean@,
            !more ==> tag_states(cs@) == storage::state_views(states@),
        decreases n - from, (if more { 1int } else { 0int }),
    {
        let rest = slice_subrange(cs, from, n);
        assert(rest@ =~= cs@.skip(from as int));
        match strings::slice_find(rest, open.as_slice()) {
            None => {
                strings::extend_slice(&mut clean, rest);
                more = false;
                assert(storage::state_views(states@) + Seq::<UserStateView>::empty() =~= storage::state_views(
                    states@,
                ));
            },
            Some(i) => {
                proof {
                    strings::lemma_find_from(rest@, tag_open(), 0);
                }
                let head = slice_subrange(rest, 0, i);
                assert(head@ =~= rest@.take(i as int));
                let ghost before = clean@;
                strings::extend_slice(&mut clean, head);
                let after = slice_subrange(rest, i, rest.len());
                assert(after@ =~= rest@.skip(i as int));
                match strings::slice_find(after, close.as_slice()) {
                    None => {
                        more = false;
                        assert(storage::state_views(states@) + Seq::<UserStateView>::empty()
                            =~= storage::state_views(states@));
                    },
                    Some(e) => {
                        proof {
                            strings::lemma_find_from(after@, seq!['>'], 0);
                            assert(after@.subrange(e as int, e + 1)[0] == '>');
                            assert(rest@.subrange(i as int, i + 6) == tag_open());
                            assert forall|k: int| 0 <= k < 6 implies after@[k] == #[trigger] tag_open()[k] by {
                                assert(rest@.subrange(i as int, i + 6)[k] == after@[k]);
                            }
                            if e < 6 {
                                assert(after@[e as int] == tag_open()[e as int]);
                            }
                        }
                        let inner = slice_subrange(after, 6, e);
                        assert(inner@ =~= rest@.subrange(i + 6, i + e));
                        let ghost tail = rest@.skip(i + e + 1);
                        let ghost known = storage::state_views(states@);
                        assert(tail =~= cs@.skip(from + i + e + 1));
                        match parse_tag_inner(strings::string_of(inner).as_str()) {
                            Some(st) => {
                                states.push(st);
                                assert(storage::state_views(states@) =~= known.push(st@));
                                assert(known + (seq![st@] + tag_states(tail)) =~= known.push(st@)
                                    + tag_states(tail));
                            },
                            None => {},
                        }
                        assert(before + (head@ + strip_once(tail)) =~= (before + head@)
                            + strip_once(tail));
                        from = from + i + e + 1;
                    },
                }
            },
        }
    }
    (clean, states)
}

/// Takes the tags out of a model's answer: the cleaned text, which holds no
/// tag, and the states that the tags of the answer describe.
pub fn extract_user_tags(text: &str) -> (r: (String, Vec<UserState>))
    ensures
        r.0@ == tidy(strip_tags(text@)),
        !strings::occurs(r.0@, tag_open()),
        storage::state_views(r.1@) == tag_states(text@),
{
    let cs = strings::chars_of(text);
    let mut size: usize = cs.len();
    let (first, states) = strip(cs.as_slice());
    let mut clean: Vec<char> = first;
    proof {
        lemma_strip_once(cs@);
    }
    while clean.len() < size
        invariant
            clean@.len() <= size,
            clean@.len() < size ==> strip_tags(clean@) == strip_tags(cs@),
            clean@.len() == size ==> clean@ == strip_tags(cs@),
        decreases size,
    {
        size = clean.len();
        proof {
            lemma_strip_once(clean@);
        }
        clean = strip(clean.as_slice()).0;
    }
    proof {
        law_no_tag_is_left(text@);
    }
    (tidied(clean.as_slice()), states)
}

/// A text without mentions of the bot, its words separated by single spaces.
pub open spec fn without_mention(text: Seq<char>, bot: Seq<char>) -> Seq<char> {
    if bot.len() == 0 {
        text
    } else {
        let once = strings::replace(text, "@"@ + bot, ""@);
        let twice = strings::replace(once, "@"@ + strings::lowercase(bot), ""@);
        strings::join(strings::words(twice), " "@)
    }
}

/// Removes the mentions of the bot from a text.
pub fn remove_bot_mention(text: &str, bot_username: &str) -> (r: String)
    ensures
        r@ == without_mention(text@, bot_username@),
{
    if bot_username.is_empty() {
        return text.to_owned();
    }
    let mut target = "@".to_owned();
    target.append(bot_username);
    let once = strings::replaced(text, target.as_str(), "");
    let mut lower = "@".to_owned();
    lower.append(bot_username.to_lowercase().as_str());
    let twice = strings::replaced(once.as_str(), lower.as_str(), "");
    let words = strings::split_words(twice.as_str());
    strings::join_all(&words, " ")
}

/// One pass makes a text with a tag shorter and leaves another as it is.
proof fn lemma_strip_once(s: Seq<char>)
    ensures
        strip_once(s).len() <= s.len(),
        strip_once(s).len() < s.len() <==> strings::occurs(s, tag_open()),
        !strings::occurs(s, tag_open()) ==> strip_once(s) == s,
    decreases s.len(),
{
    reveal_strlit("<user:");
    strings::lemma_find_from(s, tag_open(), 0);
    match strings::find(s, tag_open()) {
        None => {},
        Some(i) => {
            strings::lemma_find_from(s.skip(i), seq!['>'], 0);
            match strings::find(s.skip(i), seq!['>']) {
                None => {},
                Some(e) => {
                    lemma_strip_once(s.skip(i + e + 1));
                },
            }
        },
    }
}

/// Passes are made until no tag is left.
proof fn lemma_strip_tags(s: Seq<char>)
    ensures
        !strings::occurs(strip_tags(s), tag_open()),
    decreases s.len(),
{
    lemma_strip_once(s);
    if strip_once(s).len() < s.len() {
        lemma_strip_tags(strip_once(s));
    }
}

/// A part of a text.
pub open spec fn part_of(x: Seq<char>, s: Seq<char>) -> bool {
    exists|a: int|
        0 <= a && a + x.len() <= s.len() && #[trigger] s.subrange(a, a + x.len()) == x
}

/// The text at a place is a part.
pub proof fn lemma_part_at(x: Seq<char>, s: Seq<char>, a: int)
    requires
        0 <= a,
        a + x.len() <= s.len(),
        s.subrange(a, a + x.len()) == x,
    ensures
        part_of(x, s),
{
}

/// What occurs in a part of a text occurs in the text.
pub proof fn lemma_occurs_in_part(x: Seq<char>, s: Seq<char>, p: Seq<char>)
    requires
        part_of(x, s),
        strings::occurs(x, p),
    ensures
        strings::occurs(s, p),
{
    let a = choose|a: int|
        0 <= a && a + x.len() <= s.len() && #[trigger] s.subrange(a, a + x.len()) == x;
    strings::lemma_find_from(x, p, 0);
    strings::lemma_find_from(s, p, 0);
    let k = strings::find(x, p)->0;
    assert(s.subrange(a + k, a + k + p.len()) =~= x.subrange(k, k + p.len()));
}

/// The lines of a text are parts of it, the last one is its end.
proof fn lemma_lines_are_parts(s: Seq<char>)
    ensures
        ({
            let lines = strings::split_str(s, seq!['\n']);
            &&& lines.len() >= 1
            &&& lines.last().is_suffix_of(s)
            &&& forall|i: int| 0 <= i < lines.len() ==> part_of(#[trigger] lines[i], s)
        }),
    decreases s.len(),
{
    let lines = strings::split_str(s, seq!['\n']);
    let e = Seq::<char>::empty();
    let n = s.len() as int;
    if n == 0 {
        assert(s.subrange(0, 0) =~= e);
        lemma_part_at(e, s, 0);
    } else {
        let t = s.drop_last();
        lemma_lines_are_parts(t);
        let before = strings::split_str(t, seq!['\n']);
        let last = before.last();
        let longer = last.push(s.last());
        assert(longer =~= s.subrange(n - longer.len(), n)) by {
            assert(last =~= t.subrange(t.len() - last.len(), t.len() as int));
        }
        assert forall|i: int| 0 <= i < before.len() implies part_of(#[trigger] before[i], s) by {
            let x = before[i];
            let a = choose|a: int|
                0 <= a && a + x.len() <= t.len() && #[trigger] t.subrange(a, a + x.len()) == x;
            assert(s.subrange(a, a + x.len()) =~= x);
        }
        lemma_part_at(longer, s, n - longer.len());
        assert(s.subrange(n, n) =~= e);
        lemma_part_at(e, s, n);
        assert(longer.take(longer.len() - 1) =~= last);
        let m = before.len() as int;
        if seq!['\n'].is_suffix_of(longer) {
            assert(lines.len() == m + 1);
            assert forall|i: int| 0 <= i < lines.len() implies part_of(#[trigger] lines[i], s) by {
                if i < m - 1 {
                    assert(lines[i] == before[i]);
                } else if i == m - 1 {
                    assert(lines[i] == before[m - 1]);
                }
            }
        } else {
            assert(lines.len() == m);
            assert forall|i: int| 0 <= i < lines.len() implies part_of(#[trigger] lines[i], s) by {
                if i < m - 1 {
                    assert(lines[i] == before[i]);
                }
            }
        }
    }
}

/// What occurs in lines joined by a character and does not itself hold that
/// character occurs in one of them.
pub proof fn lemma_occurs_in_line(lines: Seq<Seq<char>>, feed: char, p: Seq<char>) -> (i: int)
    requires
        strings::occurs(strings::join(lines, seq![feed]), p),
        p.len() > 0,
        forall|k: int| 0 <= k < p.len() ==> #[trigger] p[k] != feed,
    ensures
        0 <= i < lines.len() && strings::occurs(lines[i], p),
    decreases lines.len(),
{
    let text = strings::join(lines, seq![feed]);
    strings::lemma_find_from(text, p, 0);
    let k = strings::find(text, p)->0;
    if lines.len() <= 1 {
        0
    } else {
        let a = strings::join(lines.drop_last(), seq![feed]);
        let b = lines.last();
        let n = a.len() as int;
        if k + p.len() <= n {
            assert(a.subrange(k, k + p.len()) =~= p) by {
                assert(a.subrange(k, k + p.len()) =~= text.subrange(k, k + p.len()));
            }
            strings::lemma_find_from(a, p, 0);
            let i = lemma_occurs_in_line(lines.drop_last(), feed, p);
            assert(lines.drop_last()[i] == lines[i]);
            i
        } else if k > n {
            assert(b.subrange(k - n - 1, k - n - 1 + p.len()) =~= text.subrange(k, k + p.len()));
            strings::lemma_find_from(b, p, 0);
            lines.len() - 1
        } else {
            assert(text[n] == feed);
            assert(text.subrange(k, k + p.len())[n - k] == text[n]);
            assert(p[n - k] == feed);
            0
        }
    }
}

/// A trimmed text is a part of the text.
proof fn lemma_trim_is_part(s: Seq<char>)
    ensures
        part_of(strings::trim(s), s),
        part_of(strings::trim_end(s), s),
{
    lemma_trim_start_ends(s);
    lemma_trim_end_starts(s);
    let t = strings::trim_start(s);
    lemma_trim_end_starts(t);
    let r = strings::trim_end(t);
    let a = s.len() - t.len();
    assert(s.subrange(a, a + r.len()) =~= r);
    lemma_part_at(r, s, a);
    let e = strings::trim_end(s);
    assert(s.subrange(0, e.len() as int) =~= e);
    lemma_part_at(e, s, 0);
}

/// Trimming the start leaves the end.
proof fn lemma_trim_start_ends(s: Seq<char>)
    ensures
        strings::trim_start(s).len() <= s.len(),
        strings::trim_start(s) == s.skip(s.len() - strings::trim_start(s).len()),
    decreases s.len(),
{
    if s.len() > 0 && strings::is_white(s[0]) {
        lemma_trim_start_ends(s.drop_first());
        let r = strings::trim_start(s);
        assert(s.drop_first().skip(s.len() - 1 - r.len()) =~= s.skip(s.len() - r.len()));
    } else {
        assert(s.skip(0) =~= s);
    }
}

/// Trimming the end leaves the start.
proof fn lemma_trim_end_starts(s: Seq<char>)
    ensures
        strings::trim_end(s).len() <= s.len(),
        strings::trim_end(s) == s.take(strings::trim_end(s).len() as int),
    decreases s.len(),
{
    if s.len() > 0 && strings::is_white(s.last()) {
        lemma_trim_end_starts(s.drop_last());
        let r = strings::trim_end(s);
        assert(s.drop_last().take(r.len() as int) =~= s.take(r.len() as int));
    } else {
        assert(s.take(s.len() as int) =~= s);
    }
}

/// Tidying brings nothing about that does not break a line.
pub proof fn lemma_tidy_brings_nothing(s: Seq<char>, p: Seq<char>)
    requires
        !strings::occurs(s, p),
        p.len() > 0,
        forall|k: int| 0 <= k < p.len() ==> #[trigger] p[k] != '\n',
    ensures
        !strings::occurs(tidy(s), p),
{
    if strings::occurs(tidy(s), p) {
        reveal_strlit("\n");
        assert("\n"@ =~= seq!['\n']);
        let lines = strings::split_str(s, seq!['\n']);
        let joined = strings::join(trimmed_lines(lines), "\n"@);
        lemma_trim_is_part(joined);
        lemma_occurs_in_part(strings::trim(joined), joined, p);
        let i = lemma_occurs_in_line(trimmed_lines(lines), '\n', p);
        lemma_trim_is_part(lines[i]);
        lemma_occurs_in_part(strings::trim_end(lines[i]), lines[i], p);
        lemma_lines_are_parts(s);
        lemma_occurs_in_part(lines[i], s, p);
    }
}

/// Tidying brings no tag about.
proof fn lemma_tidy_brings_no_tag(s: Seq<char>)
    requires
        !strings::occurs(s, tag_open()),
    ensures
        !strings::occurs(tidy(s), tag_open()),
{
    reveal_strlit("<user:");
    lemma_tidy_brings_nothing(s, tag_open());
}

/// Whatever an answer holds, no tag is left in it once it is cleaned.
pub proof fn law_no_tag_is_left(text: Seq<char>)
    ensures
        !strings::occurs(strip_tags(text), tag_open()),
        !strings::occurs(tidy(strip_tags(text)), tag_open()),
{
    lemma_strip_tags(text);
    lemma_tidy_brings_no_tag(strip_tags(text));
}

/// Before a line feed stands another one or no white space.
spec fn clean_line_ends(s: Seq<char>) -> bool {
    forall|i: int|
        0 <= i < s.len() - 1 && #[trigger] s[i + 1] == '\n' ==> s[i] == '\n' || !strings::is_white(
            s[i],
        )
}

/// A line without a line feed or trailing white space.
spec fn clean_line(l: Seq<char>) -> bool {
    &&& forall|i: int| 0 <= i < l.len() ==> #[trigger] l[i] != '\n'
    &&& l.len() > 0 ==> !strings::is_white(l.last())
}

/// Clean lines joined have clean ends.
proof fn lemma_clean_lines_join(lines: Seq<Seq<char>>)
    requires
        forall|i: int| 0 <= i < lines.len() ==> clean_line(#[trigger] lines[i]),
    ensures
        ({
            let s = strings::join(lines, "\n"@);
            &&& clean_line_ends(s)
            &&& s.len() > 0 ==> s.last() == '\n' || !strings::is_white(s.last())
        }),
    decreases lines.len(),
{
    reveal_strlit("\n");
    if lines.len() == 1 {
        let l = lines[0];
        assert(clean_line(l));
        assert forall|i: int| 0 <= i < l.len() - 1 && #[trigger] l[i + 1] == '\n' implies l[i]
            == '\n' || !strings::is_white(l[i]) by {
            assert(l[i + 1] != '\n');
        }
    } else if lines.len() > 1 {
        let init = lines.drop_last();
        assert forall|i: int| 0 <= i < init.len() implies clean_line(#[trigger] init[i]) by {
            assert(init[i] == lines[i]);
        }
        lemma_clean_lines_join(init);
        let a = strings::join(init, "\n"@);
        let l = lines.last();
        assert(clean_line(lines[lines.len() - 1]));
        let s = strings::join(lines, "\n"@);
        let n = a.len() as int;
        assert forall|i: int| 0 <= i < s.len() - 1 && #[trigger] s[i + 1] == '\n' implies s[i]
            == '\n' || !strings::is_white(s[i]) by {
            if i + 1 < n {
                assert(a[i + 1] == s[i + 1]);
            } else if i + 1 == n {
                assert(s[i] == a.last());
            } else {
                assert(l[i + 1 - n - 1] == s[i + 1]);
            }
        }
        if l.len() == 0 {
            assert(s.last() == '\n');
        } else {
            assert(s.last() == l.last());
        }
    }
}

/// A line that does not end with white space is its own trimmed form.
proof fn lemma_trim_end_same(l: Seq<char>)
    requires
        l.len() > 0 ==> !strings::is_white(l.last()),
    ensures
        strings::trim_end(l) == l,
{
}

/// Tidying a tidy text changes nothing.
proof fn lemma_tidy_twice(s: Seq<char>)
    ensures
        tidy(tidy(s)) == tidy(s),
{
    reveal_strlit("\n");
    let feed = |x: char| x == '\n';
    let lines = strings::split_str(s, seq!['\n']);
    let short = trimmed_lines(lines);
    assert forall|i: int| 0 <= i < short.len() implies clean_line(#[trigger] short[i]) by {
        let l = lines[i];
        strings::lemma_split_char(s, '\n', l);
        let a = choose|a: int| #[trigger] strings::run_at(s, feed, a, l);
        lemma_trim_end_starts(l);
        lemma_trim_end_solid_end(l);
        assert forall|k: int| 0 <= k < short[i].len() implies #[trigger] short[i][k] != '\n' by {
            assert(!feed(l[k]));
        }
    }
    lemma_clean_lines_join(short);
    let joined = strings::join(short, "\n"@);
    let r = tidy(s);
    strings::lemma_trim_twice(joined);
    lemma_trim_is_part(joined);
    let a = choose|a: int|
        0 <= a && a + r.len() <= joined.len() && #[trigger] joined.subrange(a, a + r.len()) == r;
    assert(clean_line_ends(r)) by {
        assert forall|i: int| 0 <= i < r.len() - 1 && #[trigger] r[i + 1] == '\n' implies r[i]
            == '\n' || !strings::is_white(r[i]) by {
            assert(joined.subrange(a, a + r.len())[i] == joined[a + i]);
            assert(joined.subrange(a, a + r.len())[i + 1] == joined[a + i + 1]);
        }
    }
    let again = strings::split_str(r, seq!['\n']);
    assert forall|i: int| 0 <= i < again.len() implies strings::trim_end(#[trigger] again[i])
        == again[i] by {
        let l = again[i];
        strings::lemma_split_char(r, '\n', l);
        let b = choose|b: int| #[trigger] strings::run_at(r, feed, b, l);
        if l.len() > 0 {
            let e = b + l.len();
            assert(r.subrange(b, e)[l.len() - 1] == r[e - 1]);
            assert(!feed(l[l.len() - 1]));
            if e < r.len() {
                assert(feed(r[e]));
                assert(r[e - 1 + 1] == '\n');
            }
        }
        lemma_trim_end_same(l);
    }
    assert(trimmed_lines(again) =~= again);
    strings::lemma_join_split_str(r, seq!['\n']);
    assert("\n"@ =~= seq!['\n']);
}

/// What is left after trimming does not end with white space.
proof fn lemma_trim_end_solid_end(s: Seq<char>)
    ensures
        strings::trim_end(s).len() > 0 ==> !strings::is_white(strings::trim_end(s).last()),
    decreases s.len(),
{
    if s.len() > 0 && strings::is_white(s.last()) {
        lemma_trim_end_solid_end(s.drop_last());
    }
}

/// Cleaning a cleaned answer changes nothing and finds no more states.
pub proof fn law_cleaning_again_changes_nothing(text: Seq<char>)
    ensures
        ({
            let clean = tidy(strip_tags(text));
            &&& tidy(strip_tags(clean)) == clean
            &&& tag_states(clean) == Seq::<UserStateView>::empty()
        }),
{
    law_no_tag_is_left(text);
    law_plain_answer_is_kept(tidy(strip_tags(text)));
    lemma_tidy_twice(strip_tags(text));
}

/// A state that a tag describes belongs to someone: its id is not zero.
pub proof fn law_states_have_ids(text: Seq<char>)
    ensures
        forall|i: int|
            0 <= i < tag_states(text).len() ==> (#[trigger] tag_states(text)[i]).user_id != 0,
    decreases text.len(),
{
    match strings::find(text, tag_open()) {
        None => {},
        Some(i) => match strings::find(text.skip(i), seq!['>']) {
            None => {},
            Some(e) => if 0 <= i && 0 <= e && i + e + 1 <= text.len() {
                law_states_have_ids(text.skip(i + e + 1));
                let rest = tag_states(text.skip(i + e + 1));
                let all = tag_states(text);
                assert forall|k: int| 0 <= k < all.len() implies (#[trigger] all[k]).user_id != 0 by {
                    if tag_state(text.subrange(i + 6, i + e)) is Some {
                        if k > 0 {
                            assert(all[k] == rest[k - 1]);
                        }
                    } else {
                        assert(all[k] == rest[k]);
                    }
                }
            },
        },
    }
}

/// An answer without a tag describes no states, and nothing of it is cut off.
pub proof fn law_plain_answer_is_kept(text: Seq<char>)
    requires
        !strings::occurs(text, tag_open()),
    ensures
        strip_tags(text) == text,
        tag_states(text) == Seq::<UserStateView>::empty(),
{
    lemma_strip_once(text);
}

} // verus!
