//! What the clients of the model keep to, told by statuses, addresses and the
//! lines of a stream.

use vstd::prelude::*;

use crate::json;
use crate::json::Json;
use crate::llm;
use crate::llm::client;
use crate::llm::client::CallStep;
use crate::llm::client::LlmError;
use crate::llm::sse;
use crate::llm::sse::SseStepView;
use crate::strings;

verus! {

/// A status is a success from 200 to 299, and calls for another try if it is an
/// error of the server from 500 to 599, 429, 403 or 408; no status does both.
/// A request is sent again at most four times, after 1.5, 3, 6 and 12 seconds.
pub proof fn law_statuses(status: u16, attempt: u32)
    ensures
        llm::success(status) <==> 200 <= status <= 299,
        500 <= status <= 599 ==> llm::transient(status),
        llm::transient(429) && llm::transient(403) && llm::transient(408),
        status < 500 && status != 429 && status != 403 && status != 408 ==> !llm::transient(status),
        status >= 600 ==> !llm::transient(status),
        !(llm::success(status) && llm::transient(status)),
        llm::MAX_RETRIES == 4,
        llm::backoff_ms(1) == 1500,
        1 <= attempt < u32::MAX ==> llm::backoff_ms((attempt + 1) as u32) == 2 * llm::backoff_ms(
            attempt,
        ),
        llm::CONNECT_TIMEOUT_SECS == 15 && llm::TIMEOUT_SECS == 180,
{
}

/// A failed stream is started anew at most twice, after 1.5 and 3 seconds, and
/// only if the network failed, the server did (500 to 599) or there were too
/// many requests (429). Any other failure is final at once, and every failure is
/// after two retries.
pub proof fn law_failed_streams(
    retries: u32,
    e: LlmError,
    step: CallStep,
    later: u32,
)
    requires
        client::after_failure(retries, e, step, later),
    ensures
        ({
            let passing = match e {
                LlmError::Http(_) => true,
                LlmError::Api { status, body } => status == 429 || 500 <= status <= 599,
                LlmError::Empty => false,
            };
            &&& retries == 0 && passing ==> step == CallStep::Retry(1500) && later == 1
            &&& retries == 1 && passing ==> step == CallStep::Retry(3000) && later == 2
            &&& retries >= 2 || !passing ==> step == CallStep::Fail(e) && later == retries
        }),
{
    reveal_with_fuel(client::backoff_ms, 3);
}

/// This many slashes.
pub open spec fn slashes(n: nat) -> Seq<char> {
    Seq::new(n, |i: int| '/')
}

/// Slashes at the end do not count.
proof fn lemma_slashes_go(base: Seq<char>, n: nat)
    requires
        base.len() > 0 ==> base.last() != '/',
    ensures
        strings::trim_end_char(base + slashes(n), '/') == base,
    decreases n,
{
    let s = base + slashes(n);
    if n == 0 {
        assert(s =~= base);
    } else {
        lemma_slashes_go(base, (n - 1) as nat);
        assert(s.last() == '/');
        assert(s.drop_last() =~= base + slashes((n - 1) as nat));
    }
}

/// The address of the endpoint: `/chat/completions` behind the base address,
/// whatever slashes end it, and the base address itself if it ends so already.
pub proof fn law_endpoint_address(base: Seq<char>, n: nat)
    requires
        base.len() > 0,
        base.last() != '/',
    ensures
        ({
            let url = llm::endpoint(strings::trim_end_char(base + slashes(n), '/'));
            &&& "/chat/completions"@.is_suffix_of(base) ==> url == base
            &&& !"/chat/completions"@.is_suffix_of(base) ==> url == base + "/chat/completions"@
        }),
{
    lemma_slashes_go(base, n);
}

/// What an error tells: the message of the provider where there is one, else
/// the start of the answer, at most 300 characters.
pub proof fn law_explanations(
    first: Option<Seq<char>>,
    second: Option<Seq<char>>,
    body: Seq<char>,
)
    ensures
        first is Some ==> llm::explanation(first, second, body) == first->0
            && client::explanation(first, second, body) == first->0,
        first is None && second is Some ==> llm::explanation(first, second, body) == second->0
            && client::explanation(first, second, body) == second->0,
        first is None && second is None ==> {
            let text = llm::explanation(first, second, body);
            &&& text.is_prefix_of(body)
            &&& text.len() == (if body.len() < 300 {
                body.len()
            } else {
                300
            })
            &&& client::explanation(first, second, body) == text
        },
{
    if body.len() <= 300 {
        assert(body.take(body.len() as int) =~= body);
    }
}

/// Where the texts stand: that of an event under the first choice, `delta` and
/// `content`; that of an answer under the first choice, `message` and
/// `content`; that of an error under `error` and `message`, or under `error`
/// alone or `message` alone. What else is there does not count.
pub proof fn law_places_of_texts(
    text: Seq<char>,
    more: Seq<Json>,
    outer: Map<Seq<char>, Json>,
    inner: Map<Seq<char>, Json>,
    deep: Map<Seq<char>, Json>,
)
    ensures
        ({
            let content = Json::Object(deep.insert("content"@, Json::Text(text)));
            let message = Json::Object(deep.insert("message"@, Json::Text(text)));
            let delta = Json::Object(inner.insert("delta"@, content));
            let told = Json::Object(inner.insert("message"@, content));
            &&& client::event_piece(
                Some(Json::Object(outer.insert("choices"@, Json::List(seq![delta] + more)))),
            ) == Some(text)
            &&& client::answer_text(
                Some(Json::Object(outer.insert("choices"@, Json::List(seq![told] + more)))),
            ) == Some(text)
            &&& client::error_fields(Some(Json::Object(outer.insert("error"@, message)))).0 == Some(
                text,
            )
            &&& client::error_fields(
                Some(Json::Object(outer.insert("message"@, Json::Text(text)))),
            ).1 == Some(text)
            &&& llm::error_fields(Some(Json::Object(outer.insert("error"@, message)))).0 == Some(
                text,
            )
            &&& llm::error_fields(
                Some(Json::Object(outer.insert("error"@, Json::Text(text)))),
            ).1 == Some(text)
            &&& client::event_piece(None) is None && client::answer_text(None) is None
        }),
{
    let content = Json::Object(deep.insert("content"@, Json::Text(text)));
    let delta = Json::Object(inner.insert("delta"@, content));
    let told = Json::Object(inner.insert("message"@, content));
    assert((seq![delta] + more)[0] == delta);
    assert((seq![told] + more)[0] == told);
}

/// White space before and behind a text is trimmed.
proof fn lemma_trim_around(a: Seq<char>, s: Seq<char>, b: Seq<char>)
    requires
        forall|i: int| 0 <= i < a.len() ==> strings::is_white(#[trigger] a[i]),
        forall|i: int| 0 <= i < b.len() ==> strings::is_white(#[trigger] b[i]),
        s.len() > 0,
        !strings::is_white(s[0]),
        !strings::is_white(s.last()),
    ensures
        strings::trim(a + s + b) == s,
    decreases a.len() + b.len(),
{
    let t = a + s + b;
    if a.len() > 0 {
        assert(t[0] == a[0]);
        assert(t.drop_first() =~= a.drop_first() + s + b);
        lemma_trim_around(a.drop_first(), s, b);
    } else {
        assert(t =~= s + b);
        assert(t[0] == s[0]);
        lemma_trim_end_behind(s, b);
    }
}

/// White space behind a text is trimmed.
proof fn lemma_trim_end_behind(s: Seq<char>, b: Seq<char>)
    requires
        forall|i: int| 0 <= i < b.len() ==> strings::is_white(#[trigger] b[i]),
        s.len() > 0 ==> !strings::is_white(s.last()),
    ensures
        strings::trim_end(s + b) == s,
    decreases b.len(),
{
    let t = s + b;
    if b.len() > 0 {
        assert(t.last() == b.last());
        assert(t.drop_last() =~= s + b.drop_last());
        lemma_trim_end_behind(s, b.drop_last());
    } else {
        assert(t =~= s);
    }
}

/// A text that is complete up to its last character, a line feed.
proof fn lemma_first_feed(line: Seq<char>, rest: Seq<char>)
    requires
        forall|i: int| 0 <= i < line.len() ==> #[trigger] line[i] != '\n',
    ensures
        strings::find(line + seq!['\n'] + rest, seq!['\n']) == Some(line.len() as int),
        strings::find(line, seq!['\n']) is None,
        (line + seq!['\n'] + rest).take(line.len() as int + 1) == line + seq!['\n'],
        (line + seq!['\n'] + rest).skip(line.len() as int + 1) == rest,
{
    let feed = seq!['\n'];
    let t = line + feed + rest;
    let n = line.len() as int;
    strings::lemma_find_from(line, feed, 0);
    if strings::find(line, feed) is Some {
        let k = strings::find(line, feed)->0;
        assert(line.subrange(k, k + 1)[0] == line[k]);
    }
    strings::lemma_find_from(t, feed, 0);
    assert(t.subrange(n, n + feed.len()) =~= feed);
    let k = strings::find(t, feed)->0;
    if k < n {
        assert(t.subrange(k, k + 1)[0] == line[k]);
    }
    assert(t.take(n + 1) =~= line + feed);
    assert(t.skip(n + 1) =~= rest);
}

/// A line `data:` with a text is read as that text, with or without white space
/// around it, and `data: [DONE]` as the end; what follows the line is left.
pub proof fn law_data_lines_are_read(
    gap: Seq<char>,
    data: Seq<char>,
    end: Seq<char>,
    rest: Seq<char>,
)
    requires
        forall|i: int|
            0 <= i < gap.len() ==> strings::is_white(#[trigger] gap[i]) && gap[i] != '\n',
        forall|i: int|
            0 <= i < end.len() ==> strings::is_white(#[trigger] end[i]) && end[i] != '\n',
        forall|i: int| 0 <= i < data.len() ==> #[trigger] data[i] != '\n',
        data.len() > 0,
        !strings::is_white(data[0]),
        !strings::is_white(data.last()),
    ensures
        sse::sse_next("data:"@ + gap + data + end + seq!['\n'] + rest) == (
            if data == "[DONE]"@ {
                SseStepView::Done
            } else {
                SseStepView::Data(data)
            },
            rest,
        ),
{
    reveal_strlit("data:");
    let mark = "data:"@;
    let line = mark + gap + data + end;
    assert forall|i: int| 0 <= i < line.len() implies #[trigger] line[i] != '\n' by {
        if i >= 5 + gap.len() + data.len() {
            assert(line[i] == end[i - 5 - gap.len() - data.len()]);
        } else if i >= 5 + gap.len() {
            assert(line[i] == data[i - 5 - gap.len()]);
        } else if i >= 5 {
            assert(line[i] == gap[i - 5]);
        }
    }
    lemma_first_feed(line, rest);
    let feed = seq!['\n'];
    let full = line + feed;
    let core = mark + gap + data;
    let e = Seq::<char>::empty();
    let tail = end + feed;
    assert forall|i: int| 0 <= i < tail.len() implies strings::is_white(#[trigger] tail[i]) by {
        if i < end.len() {
            assert(tail[i] == end[i]);
        }
    }
    assert(core[0] == 'd');
    assert(core.last() == data.last());
    lemma_trim_around(e, core, tail);
    assert(e + core + tail =~= full);
    assert(mark.is_prefix_of(core)) by {
        assert(core.subrange(0, 5) =~= mark);
    }
    assert(core.skip(5) =~= gap + data + e);
    lemma_trim_around(gap, data, e);
    assert(sse::line_data(full) == Some(data));
}

/// A complete line that is no line of data is passed over, and a line that is
/// not complete waits as it is.
pub proof fn law_other_lines_are_passed_over(line: Seq<char>, rest: Seq<char>)
    requires
        forall|i: int| 0 <= i < line.len() ==> #[trigger] line[i] != '\n',
    ensures
        sse::sse_next(line) == (SseStepView::Wait, line),
        line.len() == 0 || (!strings::is_white(line[0]) && !"data:"@.is_prefix_of(line))
            ==> sse::sse_next(line + seq!['\n'] + rest) == sse::sse_next(rest),
{
    reveal_strlit("data:");
    lemma_first_feed(line, rest);
    let full = line + seq!['\n'];
    if line.len() == 0 {
        assert(full =~= seq!['\n']);
        assert(full.drop_first() =~= Seq::<char>::empty());
        assert(strings::trim_start(full) == strings::trim_start(full.drop_first()));
        assert(strings::trim(full).len() == 0);
    } else if !strings::is_white(line[0]) && !"data:"@.is_prefix_of(line) {
        assert(full[0] == line[0]);
        assert(strings::trim_start(full) == full);
        assert(full.last() == '\n' && full.drop_last() =~= line);
        lemma_trim_end_is_start(line);
        let t = strings::trim(full);
        if "data:"@.is_prefix_of(t) {
            assert(line.subrange(0, 5) =~= t.subrange(0, 5));
        }
    }
}

/// Trimming the end leaves the start.
proof fn lemma_trim_end_is_start(s: Seq<char>)
    ensures
        strings::trim_end(s).len() <= s.len(),
        strings::trim_end(s) == s.take(strings::trim_end(s).len() as int),
    decreases s.len(),
{
    if s.len() > 0 && strings::is_white(s.last()) {
        lemma_trim_end_is_start(s.drop_last());
        let r = strings::trim_end(s);
        assert(s.drop_last().take(r.len() as int) =~= s.take(r.len() as int));
    } else {
        assert(s.take(s.len() as int) =~= s);
    }
}

/// A line of data gives the piece of text of its event, if there is one and it is
/// not empty; the mark `[DONE]` ends the reading.
pub proof fn law_pieces_of_a_stream(data: Seq<char>, rest: Seq<char>)
    requires
        forall|i: int| 0 <= i < data.len() ==> #[trigger] data[i] != '\n',
        data.len() > 0,
        !strings::is_white(data[0]),
        !strings::is_white(data.last()),
    ensures
        ({
            let r = client::stream_pieces("data: "@ + data + seq!['\n'] + rest);
            let piece = client::event_piece(json::parsed(data));
            let (more, left, done) = client::stream_pieces(rest);
            &&& data == "[DONE]"@ ==> r == (Seq::<Seq<char>>::empty(), rest, true)
            &&& data != "[DONE]"@ && piece is Some && piece->0.len() > 0 ==> r == (
                seq![piece->0] + more,
                left,
                done,
            )
            &&& data != "[DONE]"@ && (piece is None || piece->0.len() == 0) ==> r == (
                more,
                left,
                done,
            )
        }),
{
    reveal_strlit("data:");
    reveal_strlit("data: ");
    let e = Seq::<char>::empty();
    let gap = seq![' '];
    law_data_lines_are_read(gap, data, e, rest);
    assert("data:"@ + gap + data + e + seq!['\n'] + rest =~= "data: "@ + data + seq!['\n'] + rest);
}

/// The pieces of an event come in their order, without those that are not there
/// and those that are empty.
pub proof fn law_solid_pieces(pieces: Seq<Option<Seq<char>>>, p: Seq<char>)
    ensures
        p.len() > 0 ==> llm::solid_pieces(pieces.push(Some(p))) == llm::solid_pieces(pieces).push(
            p,
        ),
        p.len() == 0 ==> llm::solid_pieces(pieces.push(Some(p))) == llm::solid_pieces(pieces),
        llm::solid_pieces(pieces.push(None)) == llm::solid_pieces(pieces),
        llm::solid_pieces(Seq::empty()) == Seq::<Seq<char>>::empty(),
{
    assert(pieces.push(Some(p)).drop_last() =~= pieces);
    assert(pieces.push(None).drop_last() =~= pieces);
}

/// What the errors of a request say.
pub proof fn law_error_messages(e: llm::LlmError, f: LlmError, status: u16)
    ensures
        e matches llm::LlmError::Http(m) ==> e.message() == "сетевая ошибка: "@ + m@,
        e matches llm::LlmError::Api { status, body } ==> ({
            let (message, error) = llm::error_fields(json::parsed(body@));
            e.message() == "API вернул ошибку "@ + strings::decimal(status as nat) + ": "@
                + llm::explanation(message, error, body@)
        }),
        e matches llm::LlmError::Parse(m) ==> e.message() == "не удалось разобрать ответ: "@ + m@,
        e is Empty ==> e.message() == "модель вернула пустой ответ"@,
        f matches LlmError::Http(m) ==> f.message() == "сеть/транспорт: "@ + m@,
        f matches LlmError::Api { status, body } ==> f.message() == "API вернул "@
            + strings::decimal(status as nat) + ": "@ + body@,
        f is Empty ==> f.message() == "модель вернула пустой ответ"@,
{
}

} // verus!
