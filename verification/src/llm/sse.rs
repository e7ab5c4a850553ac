//! Lines of a stream of server-sent events.

use vstd::prelude::*;
use vstd::slice::slice_subrange;

use crate::strings;

verus! {

/// What the lines that are complete so far ask for.
#[derive(Debug)]
pub enum SseStep {
    /// No complete line is left: wait for more.
    Wait,
    /// The end mark was read.
    Done,
    /// Data was read.
    Data(String),
}

/// What an [`SseStep`] holds.
pub enum SseStepView {
    Wait,
    Done,
    Data(Seq<char>),
}

impl View for SseStep {
    type V = SseStepView;

    open spec fn view(&self) -> SseStepView {
        match self {
            SseStep::Wait => SseStepView::Wait,
            SseStep::Done => SseStepView::Done,
            SseStep::Data(d) => SseStepView::Data(d@),
        }
    }
}

/// The data of a line, if it is a line of data.
pub open spec fn line_data(line: Seq<char>) -> Option<Seq<char>> {
    let t = strings::trim(line);
    if "data:"@.is_prefix_of(t) {
        Some(strings::trim(t.skip(5)))
    } else {
        None
    }
}

/// Reads the complete lines of a text up to the first one with data: what was
/// read and what is left of the text.
pub open spec fn sse_next(text: Seq<char>) -> (SseStepView, Seq<char>)
    decreases text.len(),
{
    match strings::find(text, seq!['\n']) {
        None => (SseStepView::Wait, text),
        Some(p) => if 0 <= p < text.len() {
            let rest = text.skip(p + 1);
            match line_data(text.take(p + 1)) {
                None => sse_next(rest),
                Some(d) => if d == "[DONE]"@ {
                    (SseStepView::Done, rest)
                } else {
                    (SseStepView::Data(d), rest)
                },
            }
        } else {
            (SseStepView::Wait, text)
        },
    }
}

/// Reading takes something off the text unless it has to wait.
pub proof fn lemma_sse_next(text: Seq<char>)
    ensures
        sse_next(text).0 is Wait || sse_next(text).1.len() < text.len(),
        sse_next(text).1.len() <= text.len(),
    decreases text.len(),
{
    strings::lemma_find_from(text, seq!['\n'], 0);
    match strings::find(text, seq!['\n']) {
        None => {},
        Some(p) => {
            if line_data(text.take(p + 1)) is None {
                lemma_sse_next(text.skip(p + 1));
            }
        },
    }
}

/// The part of a stream that was received and not read.
#[derive(Debug)]
pub struct SseBuffer {
    pending: Vec<char>,
}

impl View for SseBuffer {
    type V = Seq<char>;

    closed spec fn view(&self) -> Seq<char> {
        self.pending@
    }
}

/// See [`line_data`].
fn data_of(line: &[char]) -> (r: Option<String>)
    ensures
        match r {
            Some(d) => line_data(line@) == Some(d@),
            None => line_data(line@) is None,
        },
{
    let t = strings::slice_trim(line);
    let mark = strings::chars_of("data:");
    proof {
        reveal_strlit("data:");
    }
    if strings::slice_starts_with(t, mark.as_slice()) {
        let rest = slice_subrange(t, 5, t.len());
        assert(rest@ =~= t@.skip(5));
        Some(strings::string_of(strings::slice_trim(rest)))
    } else {
        None
    }
}

impl SseBuffer {
    /// Nothing received yet.
    pub fn new() -> (r: SseBuffer)
        ensures
            r@ == Seq::<char>::empty(),
    {
        SseBuffer { pending: Vec::new() }
    }

    /// Receives a text.
    pub fn push_text(&mut self, text: &str)
        ensures
            final(self)@ == old(self)@ + text@,
    {
        let cs = strings::chars_of(text);
        strings::extend_slice(&mut self.pending, cs.as_slice());
    }

    /// Receives bytes. Bytes that are no text are replaced.
    pub fn push(&mut self, bytes: &[u8])
        ensures
            final(self)@ == old(self)@ + strings::decoded(bytes@),
    {
        let text = strings::lossy_text(bytes);
        self.push_text(text.as_str());
    }

    /// Reads up to the next line with data: see [`sse_next`].
    pub fn next(&mut self) -> (r: SseStep)
        ensures
            (r@, final(self)@) == sse_next(old(self)@),
    {
        let ghost all = self.pending@;
        let n: usize = self.pending.len();
        let feed: Vec<char> = vec!['\n'];
        assert(feed@ =~= seq!['\n']);
        let mut from: usize = 0;
        let mut step: SseStep = SseStep::Wait;
        let mut more: bool = true;
        assert(all.skip(0) =~= all);
        while more
            invariant
                from <= n == all.len(),
                self.pending@ == all,
                feed@ == seq!['\n'],
                more ==> step is Wait,
                more ==> sse_next(all) == sse_next(all.skip(from as int)),
                !more ==> sse_next(all) == (step@, all.skip(from as int)),
            decreases n - from, (if more { 1int } else { 0int }),
        {
            let rest = slice_subrange(self.pending.as_slice(), from, n);
            assert(rest@ =~= all.skip(from as int));
            proof {
                strings::lemma_find_from(rest@, seq!['\n'], 0);
            }
            match strings::slice_find(rest, feed.as_slice()) {
                None => {
                    more = false;
                },
                Some(p) => {
                    let line = slice_subrange(rest, 0, p + 1);
                    proof {
                        assert(line@ =~= rest@.take(p + 1));
                        assert(rest@.skip(p + 1) =~= all.skip(from + p + 1));
                    }
                    match data_of(line) {
                        None => {},
                        Some(d) => {
                            more = false;
                            if strings::str_eq(d.as_str(), "[DONE]") {
                                step = SseStep::Done;
                            } else {
                                step = SseStep::Data(d);
                            }
                        },
                    }
                    from = from + p + 1;
                },
            }
        }
        let left = strings::vec_of(slice_subrange(self.pending.as_slice(), from, n));
        assert(left@ =~= all.skip(from as int));
        self.pending = left;
        step
    }
}

} // verus!
