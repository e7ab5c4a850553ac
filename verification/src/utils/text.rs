//! Messages of a bounded number of characters.

use vstd::prelude::*;
use vstd::slice::slice_subrange;

use crate::strings;

verus! {

/// The full slices of `limit` characters of a word.
pub open spec fn full_slices(w: Seq<char>, limit: int) -> Seq<Seq<char>>
    decreases w.len(),
{
    if 0 < limit <= w.len() {
        seq![w.take(limit)] + full_slices(w.skip(limit), limit)
    } else {
        Seq::empty()
    }
}

/// What is left of a word after its full slices.
pub open spec fn last_slice(w: Seq<char>, limit: int) -> Seq<char>
    decreases w.len(),
{
    if 0 < limit <= w.len() {
        last_slice(w.skip(limit), limit)
    } else {
        w
    }
}

/// Finished messages and the message under construction.
pub struct Filling {
    pub done: Seq<Seq<char>>,
    pub current: Seq<char>,
}

impl Filling {
    /// The finished messages with the current one among them if it holds more
    /// than white space.
    pub open spec fn flushed(self) -> Seq<Seq<char>> {
        if strings::blank(self.current) {
            self.done
        } else {
            self.done.push(strings::trim_end(self.current))
        }
    }

    /// One more word with the white space that ends it. A word that alone
    /// exceeds the limit is cut into slices; a word that does not fit starts a
    /// new message.
    pub open spec fn add(self, word: Seq<char>, limit: int) -> Filling {
        if word.len() > limit {
            let w = strings::trim_end(word);
            Filling {
                done: self.flushed() + full_slices(w, limit),
                current: last_slice(w, limit),
            }
        } else if self.current.len() + word.len() > limit && self.current.len() > 0 {
            Filling { done: self.done.push(strings::trim_end(self.current)), current: word }
        } else {
            Filling { done: self.done, current: self.current + word }
        }
    }
}

/// Fills messages with the words in order.
pub open spec fn fill(words: Seq<Seq<char>>, limit: int) -> Filling
    decreases words.len(),
{
    if words.len() == 0 {
        Filling { done: Seq::empty(), current: Seq::empty() }
    } else {
        fill(words.drop_last(), limit).add(words.last(), limit)
    }
}

/// The limit that is kept: never below 64 characters.
pub open spec fn effective_limit(limit: int) -> int {
    if limit < 64 {
        64
    } else {
        limit
    }
}

/// The messages into which a text is split.
pub open spec fn message_chunks(text: Seq<char>, limit: int) -> Seq<Seq<char>> {
    let l = effective_limit(limit);
    if text.len() <= l {
        seq![text]
    } else {
        let chunks = fill(strings::split_inclusive(text), l).flushed();
        if chunks.len() == 0 {
            seq![Seq::<char>::empty()]
        } else {
            chunks
        }
    }
}

/// Splits a text into messages of at most `limit` characters between words;
/// a word longer than the limit is cut.
pub fn split_telegram(text: &str, limit: usize) -> (r: Vec<String>)
    ensures
        strings::views(r@) == message_chunks(text@, limit as int),
{
    let limit: usize = if limit < 64 {
        64
    } else {
        limit
    };
    let cs = strings::chars_of(text);
    let mut chunks: Vec<String> = Vec::new();
    assert(strings::views(chunks@) =~= Seq::<Seq<char>>::empty());
    if cs.len() <= limit {
        chunks.push(text.to_owned());
        assert(strings::views(chunks@) =~= seq![text@]);
        return chunks;
    }
    let words = strings::slice_split_inclusive(cs.as_slice());
    let ghost wv = strings::views(words@);
    let mut current: Vec<char> = Vec::new();
    let mut i: usize = 0;
    while i < words.len()
        invariant
            i <= words@.len(),
            wv == strings::views(words@),
            64 <= limit,
            fill(wv.take(i as int), limit as int) == (Filling {
                done: strings::views(chunks@),
                current: current@,
            }),
        decreases words@.len() - i,
    {
        let word = strings::chars_of(words[i].as_str());
        let ghost before = Filling { done: strings::views(chunks@), current: current@ };
        proof {
            assert(word@ == wv[i as int]);
            assert(wv.take(i + 1).drop_last() =~= wv.take(i as int));
        }
        if word.len() > limit {
            if strings::slice_trim(current.as_slice()).len() != 0 {
                let done = strings::string_of(strings::slice_trim_end(current.as_slice()));
                proof {
                    strings::lemma_views_push(chunks@, done);
                }
                chunks.push(done);
            }
            let w = strings::slice_trim_end(word.as_slice());
            let ghost flushed = strings::views(chunks@);
            let n: usize = w.len();
            let mut from: usize = 0;
            proof {
                assert(w@.skip(0) =~= w@);
                assert(flushed == before.flushed());
            }
            while n - from >= limit
                invariant
                    from <= n == w@.len(),
                    64 <= limit,
                    flushed + full_slices(w@, limit as int) == strings::views(chunks@)
                        + full_slices(w@.skip(from as int), limit as int),
                    last_slice(w@, limit as int) == last_slice(w@.skip(from as int), limit as int),
                decreases n - from,
            {
                let piece = strings::string_of(slice_subrange(w, from, from + limit));
                proof {
                    let rest = w@.skip(from as int);
                    assert(piece@ =~= rest.take(limit as int));
                    assert(rest.skip(limit as int) =~= w@.skip(from + limit));
                    strings::lemma_views_push(chunks@, piece);
                    let tail = full_slices(w@.skip(from + limit), limit as int);
                    assert(strings::views(chunks@) + (seq![piece@] + tail) =~= strings::views(
                        chunks@,
                    ).push(piece@) + tail);
                }
                chunks.push(piece);
                from = from + limit;
            }
            let tail = slice_subrange(w, from, n);
            proof {
                assert(tail@ =~= w@.skip(from as int));
                assert(strings::views(chunks@) =~= flushed + full_slices(w@, limit as int));
            }
            current = strings::vec_of(tail);
        } else if current.len() != 0 && current.len() as u128 + word.len() as u128 > limit as u128 {
            let done = strings::string_of(strings::slice_trim_end(current.as_slice()));
            proof {
                strings::lemma_views_push(chunks@, done);
            }
            chunks.push(done);
            current = word;
        } else {
            strings::extend_slice(&mut current, word.as_slice());
        }
        i += 1;
    }
    assert(wv.take(wv.len() as int) =~= wv);
    if strings::slice_trim(current.as_slice()).len() != 0 {
        let done = strings::string_of(strings::slice_trim_end(current.as_slice()));
        proof {
            strings::lemma_views_push(chunks@, done);
        }
        chunks.push(done);
    }
    if chunks.len() == 0 {
        chunks.push(String::new());
        assert(strings::views(chunks@) =~= seq![Seq::<char>::empty()]);
    }
    chunks
}

/// Trimming never lengthens a text.
proof fn lemma_trim_end_len(s: Seq<char>)
    ensures
        strings::trim_end(s).len() <= s.len(),
    decreases s.len(),
{
    if s.len() > 0 && strings::is_white(s.last()) {
        lemma_trim_end_len(s.drop_last());
    }
}

/// Full slices hold exactly `limit` characters, the last one fewer.
proof fn lemma_slices_fit(w: Seq<char>, limit: int)
    requires
        limit > 0,
    ensures
        last_slice(w, limit).len() < limit,
        forall|i: int|
            0 <= i < full_slices(w, limit).len() ==> (#[trigger] full_slices(w, limit)[i]).len()
                == limit,
    decreases w.len(),
{
    if limit <= w.len() {
        let rest = w.skip(limit);
        lemma_slices_fit(rest, limit);
        assert forall|i: int| 0 <= i < full_slices(w, limit).len() implies (#[trigger] full_slices(
            w,
            limit,
        )[i]).len() == limit by {
            if i > 0 {
                assert(full_slices(w, limit)[i] == full_slices(rest, limit)[i - 1]);
            }
        }
    }
}

/// Filling keeps to the limit.
proof fn lemma_fill_fits(words: Seq<Seq<char>>, limit: int)
    requires
        limit > 0,
    ensures
        fill(words, limit).current.len() <= limit,
        forall|i: int|
            0 <= i < fill(words, limit).done.len() ==> (#[trigger] fill(words, limit).done[i]).len()
                <= limit,
    decreases words.len(),
{
    if words.len() > 0 {
        let before = fill(words.drop_last(), limit);
        let word = words.last();
        lemma_fill_fits(words.drop_last(), limit);
        lemma_trim_end_len(before.current);
        lemma_slices_fit(strings::trim_end(word), limit);
    }
}

/// No message holds more characters than the limit.
pub proof fn law_message_chunks_fit(text: Seq<char>, limit: int)
    ensures
        forall|i: int|
            0 <= i < message_chunks(text, limit).len() ==> (#[trigger] message_chunks(
                text,
                limit,
            )[i]).len() <= effective_limit(limit),
{
    let l = effective_limit(limit);
    let words = strings::split_inclusive(text);
    lemma_fill_fits(words, l);
    lemma_trim_end_len(fill(words, l).current);
}

/// The slices of a word are the word.
proof fn lemma_slices_keep(w: Seq<char>, limit: int)
    ensures
        full_slices(w, limit).flatten() + last_slice(w, limit) == w,
    decreases w.len(),
{
    if 0 < limit <= w.len() {
        let head = w.take(limit);
        let rest = w.skip(limit);
        lemma_slices_keep(rest, limit);
        vstd::seq_lib::lemma_flatten_concat(seq![head], full_slices(rest, limit));
        seq![head].lemma_flatten_one_element();
        assert(head + rest =~= w);
        let f = full_slices(rest, limit).flatten();
        let t = last_slice(rest, limit);
        assert((head + f) + t =~= head + (f + t));
    } else {
        assert(Seq::<Seq<char>>::empty().flatten() + w =~= w);
    }
}

/// Flushing keeps everything but white space.
proof fn lemma_flushed_keeps(f: Filling)
    ensures
        strings::solid(f.flushed().flatten()) == strings::solid(f.done.flatten()) + strings::solid(
            f.current,
        ),
{
    let c = f.current;
    if strings::blank(c) {
        strings::lemma_trim_solid(c);
        strings::trim(c).lemma_all_neg_filter_empty(|x: char| !strings::is_white(x));
        assert(strings::solid(c) =~= Seq::<char>::empty());
        assert(strings::solid(f.done.flatten()) + Seq::<char>::empty() =~= strings::solid(
            f.done.flatten(),
        ));
    } else {
        strings::lemma_trim_end_solid(c);
        strings::lemma_flatten_push(f.done, strings::trim_end(c));
        strings::lemma_solid_add(f.done.flatten(), strings::trim_end(c));
    }
}

/// Filling keeps everything but white space.
proof fn lemma_fill_keeps(words: Seq<Seq<char>>, limit: int)
    ensures
        strings::solid(fill(words, limit).done.flatten()) + strings::solid(
            fill(words, limit).current,
        ) == strings::solid(words.flatten()),
    decreases words.len(),
{
    if words.len() == 0 {
        assert(words =~= Seq::empty());
        Seq::<char>::empty().lemma_all_neg_filter_empty(|x: char| !strings::is_white(x));
        assert(Seq::<Seq<char>>::empty().flatten() =~= Seq::<char>::empty());
    } else {
        let before = fill(words.drop_last(), limit);
        let word = words.last();
        lemma_fill_keeps(words.drop_last(), limit);
        assert(words =~= words.drop_last().push(word));
        strings::lemma_flatten_push(words.drop_last(), word);
        strings::lemma_solid_add(words.drop_last().flatten(), word);
        let d = before.done.flatten();
        let c = before.current;
        if word.len() > limit {
            let w = strings::trim_end(word);
            lemma_flushed_keeps(before);
            lemma_slices_keep(w, limit);
            strings::lemma_trim_end_solid(word);
            let full = full_slices(w, limit);
            let tail = last_slice(w, limit);
            strings::lemma_solid_add(full.flatten(), tail);
            vstd::seq_lib::lemma_flatten_concat(before.flushed(), full);
            strings::lemma_solid_add(before.flushed().flatten(), full.flatten());
            let a = strings::solid(before.flushed().flatten());
            let b = strings::solid(full.flatten());
            let e = strings::solid(tail);
            assert((a + b) + e =~= a + (b + e));
        } else if c.len() + word.len() > limit && c.len() > 0 {
            strings::lemma_trim_end_solid(c);
            strings::lemma_flatten_push(before.done, strings::trim_end(c));
            strings::lemma_solid_add(d, strings::trim_end(c));
        } else {
            strings::lemma_solid_add(c, word);
            let a = strings::solid(d);
            let b = strings::solid(c);
            let e = strings::solid(word);
            assert(a + (b + e) =~= (a + b) + e);
        }
    }
}

/// Splitting loses nothing but white space, and keeps the order.
pub proof fn law_message_chunks_keep_text(text: Seq<char>, limit: int)
    ensures
        strings::solid(message_chunks(text, limit).flatten()) == strings::solid(text),
{
    let l = effective_limit(limit);
    if text.len() <= l {
        seq![text].lemma_flatten_one_element();
    } else {
        let words = strings::split_inclusive(text);
        strings::lemma_split_inclusive_flatten(text);
        lemma_fill_keeps(words, l);
        lemma_flushed_keeps(fill(words, l));
        let chunks = fill(words, l).flushed();
        if chunks.len() == 0 {
            assert(chunks =~= Seq::empty());
            seq![Seq::<char>::empty()].lemma_flatten_one_element();
            assert(Seq::<Seq<char>>::empty().flatten() =~= Seq::<char>::empty());
        }
    }
}

/// The number of characters that a number of tokens stands for.
pub fn tokens_to_chars(tokens: usize) -> (r: usize)
    requires
        tokens * 3 <= usize::MAX,
    ensures
        r == tokens * 3,
{
    tokens * 3
}

} // verus!
