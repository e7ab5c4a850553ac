//! Search in the knowledge base by words without their endings and by exact
//! keys.

use rust_stemmers::Algorithm;
use rust_stemmers::Stemmer;
use vstd::prelude::*;

use crate::knowledge::loader;
use crate::knowledge::loader::KnowledgeBase;
use crate::knowledge::loader::KnowledgeCardView;
use crate::sort;
use crate::strings;
use crate::strings::Separator;
use crate::text::WordSet;

verus! {

/// The least length of a word that counts as a key.
pub const MIN_WORD_LEN: usize = 2;

/// The least length of a word whose ending is cut.
pub const MIN_STEM_LEN: usize = 3;

/// The least score of a card that is given, in half points.
pub const MIN_SCORE: u128 = 3;

/// What a word in the question counts that is a key of the card.
pub const KEY_SCORE: u128 = 6;

/// What a word counts that is a key of the card but for its ending.
pub const KEY_STEM_SCORE: u128 = 4;

/// What a word counts that is in the content of the card but for its ending.
pub const CONTENT_STEM_SCORE: u128 = 1;

/// The longest word in bytes that the stemmer takes.
pub const MAX_STEM_BYTES: usize = 0x7fff_ffff;

/// What the Russian Snowball stemmer leaves of a word.
pub uninterp spec fn stem(word: Seq<char>) -> Seq<char>;

/// Calls `Stemmer::stem` of `rust_stemmers` with the Russian algorithm. Claims
/// that the stem is decided by the word alone and names it [`stem`]. The
/// stemmer counts bytes in 32 bits, so longer words are left out.
#[verifier::external_body]
fn russian_stem(word: &str) -> (r: String)
    requires
        strings::byte_len(word@) <= MAX_STEM_BYTES,
    ensures
        r@ == stem(word@),
{
    Stemmer::create(Algorithm::Russian).stem(word).into_owned()
}

/// The word is not too long for the stemmer.
pub open spec fn stemmable(word: Seq<char>) -> bool {
    strings::byte_len(word) <= MAX_STEM_BYTES
}

/// No word is too long for the stemmer.
pub open spec fn all_stemmable(words: Seq<Seq<char>>) -> bool {
    forall|i: int| 0 <= i < words.len() ==> stemmable(#[trigger] words[i])
}

/// See [`all_stemmable`].
fn are_stemmable(words: &Vec<String>) -> (r: bool)
    ensures
        r == all_stemmable(strings::views(words@)),
{
    let ghost all = strings::views(words@);
    let mut i: usize = 0;
    while i < words.len()
        invariant
            i <= words@.len(),
            all == strings::views(words@),
            forall|k: int| 0 <= k < i ==> stemmable(#[trigger] all[k]),
        decreases words@.len() - i,
    {
        assert(all[i as int] == words@[i as int]@);
        if strings::len_bytes(words[i].as_str()) > MAX_STEM_BYTES {
            assert(!stemmable(all[i as int]));
            return false;
        }
        i += 1;
    }
    true
}

/// The stems of a list of words.
pub open spec fn stems(words: Seq<Seq<char>>) -> Set<Seq<char>>
    decreases words.len(),
{
    if words.len() == 0 {
        Set::empty()
    } else {
        stems(words.drop_last()).insert(stem(words.last()))
    }
}

/// See [`stems`].
fn stem_set(words: &Vec<String>) -> (r: WordSet)
    requires
        all_stemmable(strings::views(words@)),
    ensures
        r@ == stems(strings::views(words@)),
{
    let ghost all = strings::views(words@);
    let mut r = WordSet::new();
    let mut i: usize = 0;
    assert(all.take(0) =~= Seq::<Seq<char>>::empty());
    while i < words.len()
        invariant
            i <= words@.len(),
            all == strings::views(words@),
            all_stemmable(all),
            r@ == stems(all.take(i as int)),
        decreases words@.len() - i,
    {
        proof {
            assert(all.take(i + 1).drop_last() =~= all.take(i as int));
            assert(all.take(i + 1).last() == words@[i as int]@);
            assert(stemmable(all[i as int]));
        }
        r.insert(russian_stem(words[i].as_str()));
        i += 1;
    }
    assert(all.take(all.len() as int) =~= all);
    r
}

/// The lower-case words of a text that are long enough to have their endings
/// cut.
pub open spec fn long_words(s: Seq<char>) -> Seq<Seq<char>> {
    strings::split_min(s, Separator::NonAlphanumeric, MIN_STEM_LEN as int).map_values(
        |w: Seq<char>| strings::lowercase(w),
    )
}

/// See [`long_words`].
fn long_words_of(s: &str) -> (r: Vec<String>)
    ensures
        strings::views(r@) == long_words(s@),
{
    let cs = strings::chars_of(s);
    let words = strings::slice_split_min(
        cs.as_slice(),
        &Separator::NonAlphanumeric,
        MIN_STEM_LEN,
    );
    let ghost all = strings::views(words@);
    let ghost goal = long_words(s@);
    let mut r: Vec<String> = Vec::new();
    let mut i: usize = 0;
    assert(strings::views(r@) =~= goal.take(0));
    while i < words.len()
        invariant
            i <= words@.len(),
            all == strings::views(words@),
            goal == all.map_values(|w: Seq<char>| strings::lowercase(w)),
            strings::views(r@) == goal.take(i as int),
        decreases words@.len() - i,
    {
        let w = words[i].as_str().to_lowercase();
        proof {
            strings::lemma_views_push(r@, w);
            assert(goal[i as int] == strings::lowercase(all[i as int]));
            assert(goal.take(i as int).push(w@) =~= goal.take(i + 1));
        }
        r.push(w);
        i += 1;
    }
    assert(goal.take(goal.len() as int) =~= goal);
    r
}

/// The long words of a list of keys.
pub open spec fn long_words_of_keys(keys: Seq<Seq<char>>) -> Seq<Seq<char>>
    decreases keys.len(),
{
    if keys.len() == 0 {
        Seq::empty()
    } else {
        long_words_of_keys(keys.drop_last()) + long_words(keys.last())
    }
}

/// See [`long_words_of_keys`].
fn long_key_words(keys: &Vec<String>) -> (r: Vec<String>)
    ensures
        strings::views(r@) == long_words_of_keys(strings::views(keys@)),
{
    let ghost all = strings::views(keys@);
    let mut r: Vec<String> = Vec::new();
    let mut i: usize = 0;
    assert(all.take(0) =~= Seq::<Seq<char>>::empty());
    assert(strings::views(r@) =~= long_words_of_keys(all.take(0)));
    while i < keys.len()
        invariant
            i <= keys@.len(),
            all == strings::views(keys@),
            strings::views(r@) == long_words_of_keys(all.take(i as int)),
        decreases keys@.len() - i,
    {
        proof {
            assert(all.take(i + 1).drop_last() =~= all.take(i as int));
            assert(all.take(i + 1).last() == keys@[i as int]@);
        }
        let words = long_words_of(keys[i].as_str());
        let ghost before = strings::views(r@);
        let ghost more = strings::views(words@);
        let mut j: usize = 0;
        assert(before + more.take(0) =~= before);
        while j < words.len()
            invariant
                j <= words@.len(),
                more == strings::views(words@),
                strings::views(r@) == before + more.take(j as int),
            decreases words@.len() - j,
        {
            let w = words[j].clone();
            proof {
                strings::lemma_views_push(r@, w);
                assert((before + more.take(j as int)).push(w@) =~= before + more.take(j + 1));
            }
            r.push(w);
            j += 1;
        }
        assert(more.take(more.len() as int) =~= more);
        i += 1;
    }
    assert(all.take(all.len() as int) =~= all);
    r
}

/// The words of a key: the parts between separators that are long enough.
pub open spec fn key_parts(parts: Seq<Seq<char>>) -> Set<Seq<char>>
    decreases parts.len(),
{
    if parts.len() == 0 {
        Set::empty()
    } else {
        let rest = key_parts(parts.drop_last());
        let w = strings::trim(parts.last());
        if w.len() >= MIN_WORD_LEN {
            rest.insert(w)
        } else {
            rest
        }
    }
}

/// What a key stands for exactly: the key in lower case and its words.
pub open spec fn exact_key(key: Seq<char>) -> Set<Seq<char>> {
    let lower = strings::lowercase(strings::trim(key));
    let parts = key_parts(strings::split(lower, Separator::NonAlphanumeric));
    if lower.len() > 0 {
        parts.insert(lower)
    } else {
        parts
    }
}

/// What a list of keys stands for exactly.
pub open spec fn exact_keys(keys: Seq<Seq<char>>) -> Set<Seq<char>>
    decreases keys.len(),
{
    if keys.len() == 0 {
        Set::empty()
    } else {
        exact_keys(keys.drop_last()).union(exact_key(keys.last()))
    }
}

/// See [`exact_keys`].
fn exact_set(keys: &Vec<String>) -> (r: WordSet)
    ensures
        r@ == exact_keys(strings::views(keys@)),
{
    let ghost all = strings::views(keys@);
    let mut r = WordSet::new();
    let mut i: usize = 0;
    assert(all.take(0) =~= Seq::<Seq<char>>::empty());
    while i < keys.len()
        invariant
            i <= keys@.len(),
            all == strings::views(keys@),
            r@ == exact_keys(all.take(i as int)),
        decreases keys@.len() - i,
    {
        proof {
            assert(all.take(i + 1).drop_last() =~= all.take(i as int));
            assert(all.take(i + 1).last() == keys@[i as int]@);
        }
        let ghost before = r@;
        let lower = strings::trimmed(keys[i].as_str()).as_str().to_lowercase();
        let cs = strings::chars_of(lower.as_str());
        let parts = strings::slice_split(cs.as_slice(), &Separator::NonAlphanumeric);
        let ghost pv = strings::views(parts@);
        let mut j: usize = 0;
        assert(pv.take(0) =~= Seq::<Seq<char>>::empty());
        assert(before.union(key_parts(pv.take(0))) =~= before);
        while j < parts.len()
            invariant
                j <= parts@.len(),
                pv == strings::views(parts@),
                r@ == before.union(key_parts(pv.take(j as int))),
            decreases parts@.len() - j,
        {
            proof {
                assert(pv.take(j + 1).drop_last() =~= pv.take(j as int));
                assert(pv.take(j + 1).last() == parts@[j as int]@);
            }
            let w = strings::trimmed(parts[j].as_str());
            if w.as_str().unicode_len() >= MIN_WORD_LEN {
                r.insert(w);
            }
            assert(r@ =~= before.union(key_parts(pv.take(j + 1))));
            j += 1;
        }
        assert(pv.take(pv.len() as int) =~= pv);
        if !lower.as_str().is_empty() {
            r.insert(lower);
        }
        assert(r@ =~= before.union(exact_key(all[i as int])));
        i += 1;
    }
    assert(all.take(all.len() as int) =~= all);
    r
}

/// What is known of a card for the search.
pub struct CardIndexView {
    /// The keys as they are.
    pub exact: Set<Seq<char>>,
    /// The keys without their endings.
    pub key_stems: Set<Seq<char>>,
    /// The content without its endings.
    pub content_stems: Set<Seq<char>>,
}

/// The index of a card.
pub open spec fn index_of(c: KnowledgeCardView) -> CardIndexView {
    CardIndexView {
        exact: exact_keys(c.keys),
        key_stems: stems(long_words_of_keys(c.keys)),
        content_stems: stems(long_words(c.content)),
    }
}

/// The words of a card are not too long for the stemmer.
pub open spec fn card_stemmable(c: KnowledgeCardView) -> bool {
    all_stemmable(long_words_of_keys(c.keys)) && all_stemmable(long_words(c.content))
}

/// The words of all cards are not too long for the stemmer.
pub open spec fn base_stemmable(cards: Seq<KnowledgeCardView>) -> bool {
    forall|i: int| 0 <= i < cards.len() ==> card_stemmable(#[trigger] cards[i])
}

/// The words of a question.
pub open spec fn tokens(query: Seq<char>) -> Seq<Seq<char>> {
    strings::split_min(
        strings::lowercase(query),
        Separator::NonAlphanumeric,
        MIN_WORD_LEN as int,
    )
}

/// The words that are long enough to have their endings cut.
pub open spec fn long_tokens(words: Seq<Seq<char>>) -> Seq<Seq<char>>
    decreases words.len(),
{
    if words.len() == 0 {
        Seq::empty()
    } else {
        let rest = long_tokens(words.drop_last());
        if words.last().len() >= MIN_STEM_LEN {
            rest.push(words.last())
        } else {
            rest
        }
    }
}

/// How many of the words are in the set.
pub open spec fn count_in(words: Seq<Seq<char>>, set: Set<Seq<char>>) -> nat
    decreases words.len(),
{
    if words.len() == 0 {
        0
    } else {
        count_in(words.drop_last(), set) + if set.contains(words.last()) {
            1nat
        } else {
            0nat
        }
    }
}

/// The score of a card for the words of a question and their stems, in half
/// points.
pub open spec fn score(words: Seq<Seq<char>>, word_stems: Set<Seq<char>>, c: CardIndexView) -> nat {
    count_in(words, c.exact) * KEY_SCORE as nat + word_stems.intersect(c.key_stems).len()
        * KEY_STEM_SCORE as nat + word_stems.intersect(c.content_stems).len()
        * CONTENT_STEM_SCORE as nat
}

/// The scores of all cards.
pub open spec fn scores(query: Seq<char>, cards: Seq<KnowledgeCardView>) -> Seq<nat> {
    cards.map_values(
        |c: KnowledgeCardView|
            score(tokens(query), stems(long_tokens(tokens(query))), index_of(c)),
    )
}

/// The cards among the first `n` whose score is high enough.
pub open spec fn candidates(scores: Seq<nat>, n: int) -> Seq<int>
    decreases n,
{
    if n <= 0 {
        Seq::empty()
    } else if scores[n - 1] >= MIN_SCORE {
        candidates(scores, n - 1).push(n - 1)
    } else {
        candidates(scores, n - 1)
    }
}

/// The keys by which candidates are ordered.
pub open spec fn candidate_keys(scores: Seq<nat>, found: Seq<int>) -> Seq<(i128, i64)> {
    found.map_values(|i: int| (scores[i] as i128, 0i64))
}

/// The candidates, the best first.
pub open spec fn best_first(scores: Seq<nat>) -> Seq<int> {
    let found = candidates(scores, scores.len() as int);
    sort::ranked(found.len() as int, sort::score_before(candidate_keys(scores, found))).map_values(
        |p: int| found[p],
    )
}

/// The size of a card in characters.
pub open spec fn cost(c: KnowledgeCardView) -> nat {
    c.content.len() + c.title.len()
}

/// The cards from the `i`th on that are given as long as there are fewer than
/// `top_n`. The first is given whatever its size, the others if they fit.
pub open spec fn chosen(
    cards: Seq<KnowledgeCardView>,
    order: Seq<int>,
    i: int,
    used: int,
    taken: int,
    top_n: int,
    max: int,
) -> Seq<(Seq<char>, Seq<char>)>
    decreases order.len() - i,
{
    if i < 0 || i >= order.len() || taken >= top_n {
        Seq::empty()
    } else {
        let c = cards[order[i]];
        let filled = used + cost(c);
        if filled > max && taken > 0 {
            Seq::empty()
        } else {
            seq![(c.title, c.content)] + chosen(
                cards,
                order,
                i + 1,
                filled,
                taken + 1,
                top_n,
                max,
            )
        }
    }
}

/// The cards that answer a question.
pub open spec fn matches_for(
    cards: Seq<KnowledgeCardView>,
    query: Seq<char>,
    top_n: int,
    max: int,
) -> Seq<(Seq<char>, Seq<char>)> {
    chosen(cards, best_first(scores(query, cards)), 0, 0, 0, top_n, max)
}

/// The views of titled texts.
pub open spec fn pair_views(v: Seq<(String, String)>) -> Seq<(Seq<char>, Seq<char>)> {
    v.map_values(|p: (String, String)| (p.0@, p.1@))
}

/// The index of a card.
struct CardIndex {
    exact: WordSet,
    key_stems: WordSet,
    content_stems: WordSet,
}

impl View for CardIndex {
    type V = CardIndexView;

    closed spec fn view(&self) -> CardIndexView {
        CardIndexView {
            exact: self.exact@,
            key_stems: self.key_stems@,
            content_stems: self.content_stems@,
        }
    }
}

/// A search in a knowledge base.
pub struct Matcher {
    base: KnowledgeBase,
    index: Vec<CardIndex>,
}

impl View for Matcher {
    type V = Seq<KnowledgeCardView>;

    closed spec fn view(&self) -> Seq<KnowledgeCardView> {
        self.base@
    }
}

impl Matcher {
    /// Every card has its index.
    pub closed spec fn wf(&self) -> bool {
        &&& self.index@.len() == self.base.cards@.len()
        &&& forall|i: int|
            0 <= i < self.index@.len() ==> (#[trigger] self.index@[i])@ == index_of(
                self.base.cards@[i]@,
            )
    }

    /// Makes the index of all cards.
    pub fn new(base: KnowledgeBase) -> (r: Matcher)
        requires
            base_stemmable(base@),
        ensures
            r.wf(),
            r@ == base@,
    {
        let mut index: Vec<CardIndex> = Vec::new();
        let mut i: usize = 0;
        while i < base.cards.len()
            invariant
                i <= base.cards@.len(),
                base_stemmable(base@),
                index@.len() == i,
                forall|k: int|
                    0 <= k < i ==> (#[trigger] index@[k])@ == index_of(base.cards@[k]@),
            decreases base.cards@.len() - i,
        {
            let c = &base.cards[i];
            assert(card_stemmable(base@[i as int]));
            let key_words = long_key_words(&c.keys);
            let content_words = long_words_of(c.content.as_str());
            let entry = CardIndex {
                exact: exact_set(&c.keys),
                key_stems: stem_set(&key_words),
                content_stems: stem_set(&content_words),
            };
            assert(entry@ == index_of(c@));
            index.push(entry);
            i += 1;
        }
        Matcher { base: base, index: index }
    }

    /// Makes the index of all cards, unless a word is too long for the
    /// stemmer.
    pub fn try_new(base: KnowledgeBase) -> (r: Option<Matcher>)
        ensures
            match r {
                Some(m) => base_stemmable(base@) && m.wf() && m@ == base@,
                None => !base_stemmable(base@),
            },
    {
        let mut i: usize = 0;
        while i < base.cards.len()
            invariant
                i <= base.cards@.len(),
                forall|k: int| 0 <= k < i ==> card_stemmable(#[trigger] base@[k]),
            decreases base.cards@.len() - i,
        {
            let c = &base.cards[i];
            assert(base@[i as int] == c@);
            let key_words = long_key_words(&c.keys);
            let content_words = long_words_of(c.content.as_str());
            if !are_stemmable(&key_words) || !are_stemmable(&content_words) {
                assert(!card_stemmable(base@[i as int]));
                return None;
            }
            i += 1;
        }
        Some(Matcher::new(base))
    }

    /// The cards that the search knows.
    pub fn cards(&self) -> (r: &Vec<loader::KnowledgeCard>)
        ensures
            loader::card_views(r@) == self@,
    {
        &self.base.cards
    }

    /// The score of every card for the words of a question and their stems.
    fn keyword_scores(&self, words: &Vec<String>, word_stems: &WordSet) -> (r: Vec<u128>)
        requires
            self.wf(),
        ensures
            r@.len() == self@.len(),
            forall|i: int|
                0 <= i < r@.len() ==> #[trigger] r@[i] == score(
                    strings::views(words@),
                    word_stems@,
                    index_of(self@[i]),
                ),
            forall|i: int| 0 <= i < r@.len() ==> #[trigger] r@[i] <= 0x100_0000_0000_0000_0000,
    {
        let mut r: Vec<u128> = Vec::new();
        let mut i: usize = 0;
        while i < self.index.len()
            invariant
                self.wf(),
                i <= self.index@.len(),
                r@.len() == i,
                forall|k: int|
                    0 <= k < i ==> #[trigger] r@[k] == score(
                        strings::views(words@),
                        word_stems@,
                        index_of(self@[k]),
                    ),
                forall|k: int| 0 <= k < i ==> #[trigger] r@[k] <= 0x100_0000_0000_0000_0000,
            decreases self.index@.len() - i,
        {
            let entry = &self.index[i];
            assert(entry@ == index_of(self.base.cards@[i as int]@));
            assert(self@[i as int] == self.base.cards@[i as int]@);
            let hits: usize = count_hits(words, &entry.exact);
            let key_hits: usize = word_stems.shared(&entry.key_stems);
            let content_hits: usize = word_stems.shared(&entry.content_stems);
            let value: u128 = hits as u128 * KEY_SCORE + key_hits as u128 * KEY_STEM_SCORE
                + content_hits as u128 * CONTENT_STEM_SCORE;
            r.push(value);
            i += 1;
        }
        r
    }

    /// The cards that answer a question: at most `top_n` of them and at most
    /// `max_chars` characters (but for the first), the best first. Gives titles
    /// and contents.
    pub fn match_query(&self, query: &str, top_n: usize, max_chars: usize) -> (r: Vec<
        (String, String),
    >)
        requires
            self.wf(),
            all_stemmable(long_tokens(tokens(query@))),
        ensures
            pair_views(r@) == matches_for(self@, query@, top_n as int, max_chars as int),
    {
        let words = tokens_of(query);
        let long = long_tokens_of(&words);
        let word_stems = stem_set(&long);
        let values = self.keyword_scores(&words, &word_stems);
        proof {
            let s = scores(query@, self@);
            assert(s.len() == values@.len());
            assert forall|i: int| 0 <= i < values@.len() implies #[trigger] values@[i] == s[i] by {
                assert(values@[i] == score(
                    strings::views(words@),
                    word_stems@,
                    index_of(self@[i]),
                ));
            }
        }
        self.select(values, top_n, max_chars, Ghost(scores(query@, self@)))
    }

    /// The cards that answer a question, unless one of its words is too long
    /// for the stemmer.
    pub fn try_match_query(&self, query: &str, top_n: usize, max_chars: usize) -> (r: Option<
        Vec<(String, String)>,
    >)
        requires
            self.wf(),
        ensures
            match r {
                Some(hits) => all_stemmable(long_tokens(tokens(query@))) && pair_views(hits@)
                    == matches_for(self@, query@, top_n as int, max_chars as int),
                None => !all_stemmable(long_tokens(tokens(query@))),
            },
    {
        if is_stemmable_query(query) {
            Some(self.match_query(query, top_n, max_chars))
        } else {
            None
        }
    }

    /// The cards that the scores select.
    fn select(
        &self,
        values: Vec<u128>,
        top_n: usize,
        max_chars: usize,
        Ghost(s): Ghost<Seq<nat>>,
    ) -> (r: Vec<(String, String)>)
        requires
            values@.len() == self@.len(),
            s.len() == values@.len(),
            forall|i: int| 0 <= i < values@.len() ==> #[trigger] values@[i] == s[i],
            forall|i: int|
                0 <= i < values@.len() ==> #[trigger] values@[i] <= 0x100_0000_0000_0000_0000,
        ensures
            pair_views(r@) == chosen(
                self@,
                best_first(s),
                0,
                0,
                0,
                top_n as int,
                max_chars as int,
            ),
    {
        let mut found: Vec<usize> = Vec::new();
        let mut keys: Vec<(i128, i64)> = Vec::new();
        let mut i: usize = 0;
        assert(sort::positions(found@) =~= candidates(s, 0));
        assert(keys@ =~= candidate_keys(s, candidates(s, 0)));
        while i < values.len()
            invariant
                i <= values@.len(),
                s.len() == values@.len(),
                forall|k: int| 0 <= k < values@.len() ==> #[trigger] values@[k] == s[k],
                forall|k: int|
                    0 <= k < values@.len() ==> #[trigger] values@[k] <= 0x100_0000_0000_0000_0000,
                sort::positions(found@) == candidates(s, i as int),
                keys@ == candidate_keys(s, candidates(s, i as int)),
                forall|k: int| 0 <= k < found@.len() ==> #[trigger] found@[k] < i,
            decreases values@.len() - i,
        {
            let ghost known = candidates(s, i as int);
            assert(values@[i as int] == s[i as int]);
            if values[i] >= MIN_SCORE {
                found.push(i);
                keys.push((values[i] as i128, 0));
                assert(sort::positions(found@) =~= known.push(i as int));
                assert(keys@ =~= candidate_keys(s, known.push(i as int)));
            }
            i += 1;
        }
        let ghost all = candidates(s, s.len() as int);
        let order = sort::rank_scores(&keys);
        let ghost best = best_first(s);
        let ghost goal = chosen(self@, best, 0, 0, 0, top_n as int, max_chars as int);
        let count: usize = order.len();
        let mut out: Vec<(String, String)> = Vec::new();
        let mut used: u128 = 0;
        let mut more: bool = true;
        let mut p: usize = 0;
        proof {
            assert(all.len() == found@.len());
            assert(keys@.len() == all.len());
            assert(pair_views(out@) + goal =~= goal);
        }
        while more && p < count && out.len() < top_n
            invariant
                p <= count == order@.len(),
                count == found@.len(),
                all == candidates(s, s.len() as int),
                all == sort::positions(found@),
                best == best_first(s),
                sort::positions(order@) == sort::ranked(
                    all.len() as int,
                    sort::score_before(candidate_keys(s, all)),
                ),
                forall|k: int| 0 <= k < order@.len() ==> #[trigger] order@[k] < found@.len(),
                forall|k: int| 0 <= k < found@.len() ==> #[trigger] found@[k] < self@.len(),
                used <= 0x2_0000_0000_0000_0000,
                out@.len() == 0 ==> used == 0,
                out@.len() == p || !more,
                out@.len() <= top_n,
                more ==> goal == pair_views(out@) + chosen(
                    self@,
                    best,
                    p as int,
                    used as int,
                    out@.len() as int,
                    top_n as int,
                    max_chars as int,
                ),
                !more ==> goal == pair_views(out@),
            decreases count - p, (if more { 1int } else { 0int }),
        {
            let at: usize = found[order[p]];
            proof {
                assert(sort::positions(order@)[p as int] == order@[p as int] as int);
                assert(sort::positions(found@)[order@[p as int] as int] == at as int);
                assert(best[p as int] == at as int);
                assert(found@[order@[p as int] as int] < self@.len());
                assert(self@[at as int] == self.base.cards@[at as int]@);
            }
            let card = &self.base.cards[at];
            let size: u128 = card.content.as_str().unicode_len() as u128
                + card.title.as_str().unicode_len() as u128;
            let ghost before = pair_views(out@);
            if used + size > max_chars as u128 && out.len() > 0 {
                more = false;
                assert(before + Seq::<(Seq<char>, Seq<char>)>::empty() =~= before);
            } else {
                used = used + size;
                let pair = (card.title.clone(), card.content.clone());
                let ghost pv = (card.title@, card.content@);
                out.push(pair);
                assert(pair_views(out@) =~= before.push(pv));
                proof {
                    let rest = chosen(
                        self@,
                        best,
                        p + 1,
                        used as int,
                        out@.len() as int,
                        top_n as int,
                        max_chars as int,
                    );
                    assert(before + (seq![pv] + rest) =~= pair_views(out@) + rest);
                }
                p += 1;
            }
        }
        assert(more ==> pair_views(out@) + Seq::<(Seq<char>, Seq<char>)>::empty() =~= pair_views(
            out@,
        ));
        out
    }
}

/// See [`tokens`].
fn tokens_of(query: &str) -> (r: Vec<String>)
    ensures
        strings::views(r@) == tokens(query@),
{
    let lower = query.to_lowercase();
    let cs = strings::chars_of(lower.as_str());
    strings::slice_split_min(cs.as_slice(), &Separator::NonAlphanumeric, MIN_WORD_LEN)
}

/// See [`long_tokens`].
fn long_tokens_of(words: &Vec<String>) -> (r: Vec<String>)
    ensures
        strings::views(r@) == long_tokens(strings::views(words@)),
{
    let ghost all = strings::views(words@);
    let mut r: Vec<String> = Vec::new();
    let mut i: usize = 0;
    assert(all.take(0) =~= Seq::<Seq<char>>::empty());
    assert(strings::views(r@) =~= long_tokens(all.take(0)));
    while i < words.len()
        invariant
            i <= words@.len(),
            all == strings::views(words@),
            strings::views(r@) == long_tokens(all.take(i as int)),
        decreases words@.len() - i,
    {
        proof {
            assert(all.take(i + 1).drop_last() =~= all.take(i as int));
            assert(all.take(i + 1).last() == words@[i as int]@);
        }
        if words[i].as_str().unicode_len() >= MIN_STEM_LEN {
            let w = words[i].clone();
            proof {
                strings::lemma_views_push(r@, w);
            }
            r.push(w);
        }
        i += 1;
    }
    assert(all.take(all.len() as int) =~= all);
    r
}

/// No word of a question is too long for the stemmer.
pub fn is_stemmable_query(query: &str) -> (r: bool)
    ensures
        r == all_stemmable(long_tokens(tokens(query@))),
{
    let words = tokens_of(query);
    are_stemmable(&long_tokens_of(&words))
}

/// See [`count_in`].
fn count_hits(words: &Vec<String>, set: &WordSet) -> (r: usize)
    ensures
        r == count_in(strings::views(words@), set@),
        r <= words@.len(),
{
    let ghost all = strings::views(words@);
    let mut r: usize = 0;
    let mut i: usize = 0;
    assert(all.take(0) =~= Seq::<Seq<char>>::empty());
    while i < words.len()
        invariant
            i <= words@.len(),
            r <= i,
            all == strings::views(words@),
            r == count_in(all.take(i as int), set@),
        decreases words@.len() - i,
    {
        proof {
            assert(all.take(i + 1).drop_last() =~= all.take(i as int));
            assert(all.take(i + 1).last() == words@[i as int]@);
        }
        if set.contains(words[i].as_str()) {
            r += 1;
        }
        i += 1;
    }
    assert(all.take(all.len() as int) =~= all);
    r
}

/// The total size of titled texts in characters.
pub open spec fn total_cost(hits: Seq<(Seq<char>, Seq<char>)>) -> nat
    decreases hits.len(),
{
    if hits.len() == 0 {
        0
    } else {
        hits[0].1.len() + hits[0].0.len() + total_cost(hits.drop_first())
    }
}

/// See [`law_matches_fit`].
proof fn lemma_chosen_fits(
    cards: Seq<KnowledgeCardView>,
    order: Seq<int>,
    i: int,
    used: int,
    taken: int,
    top_n: int,
    max: int,
)
    requires
        0 <= i,
        0 <= taken <= top_n,
    ensures
        ({
            let r = chosen(cards, order, i, used, taken, top_n, max);
            &&& taken + r.len() <= top_n
            &&& i + r.len() <= order.len() || r.len() == 0
            &&& forall|k: int|
                0 <= k < r.len() ==> #[trigger] r[k] == (
                    cards[order[i + k]].title,
                    cards[order[i + k]].content,
                )
            &&& taken > 0 && used <= max ==> used + total_cost(r) <= max
            &&& taken > 0 && used > max ==> r.len() == 0
            &&& taken == 0 && r.len() > 1 ==> used + total_cost(r) <= max
        }),
    decreases order.len() - i,
{
    if i < order.len() && taken < top_n {
        let c = cards[order[i]];
        let pair = (c.title, c.content);
        let filled = used + cost(c);
        let none = Seq::<(Seq<char>, Seq<char>)>::empty();
        assert(seq![pair].drop_first() =~= none);
        assert(total_cost(none) == 0);
        if !(filled > max && taken > 0) {
            let rest = chosen(cards, order, i + 1, filled, taken + 1, top_n, max);
            lemma_chosen_fits(cards, order, i + 1, filled, taken + 1, top_n, max);
            assert((seq![pair] + rest).drop_first() =~= rest);
            if rest.len() == 0 {
                assert(rest =~= none);
            }
            let r = seq![pair] + rest;
            assert forall|k: int| 0 <= k < r.len() implies #[trigger] r[k] == (
                cards[order[i + k]].title,
                cards[order[i + k]].content,
            ) by {
                if k > 0 {
                    assert(r[k] == rest[k - 1]);
                }
            }
        }
    }
}

/// A search gives the best cards, at most as many as asked for, and more than
/// one only if they fit into the budget.
pub proof fn law_matches_fit(
    cards: Seq<KnowledgeCardView>,
    query: Seq<char>,
    top_n: nat,
    max: nat,
)
    ensures
        ({
            let r = matches_for(cards, query, top_n as int, max as int);
            let order = best_first(scores(query, cards));
            &&& r.len() <= top_n
            &&& r.len() <= order.len()
            &&& r.len() > 1 ==> total_cost(r) <= max
            &&& forall|k: int|
                0 <= k < r.len() ==> #[trigger] r[k] == (
                    cards[order[k]].title,
                    cards[order[k]].content,
                )
        }),
{
    lemma_chosen_fits(
        cards,
        best_first(scores(query, cards)),
        0,
        0,
        0,
        top_n as int,
        max as int,
    );
}

/// The candidates are the cards with a high score.
proof fn lemma_candidates(scores: Seq<nat>, n: int)
    requires
        0 <= n <= scores.len(),
    ensures
        forall|i: int|
            0 <= i < candidates(scores, n).len() ==> 0 <= #[trigger] candidates(scores, n)[i] < n
                && scores[candidates(scores, n)[i]] >= MIN_SCORE,
        forall|i: int, j: int|
            0 <= i < j < candidates(scores, n).len() ==> #[trigger] candidates(scores, n)[i]
                < #[trigger] candidates(scores, n)[j],
        forall|x: int|
            0 <= x < n && #[trigger] scores[x] >= MIN_SCORE ==> candidates(scores, n).contains(x),
    decreases n,
{
    if n > 0 {
        lemma_candidates(scores, n - 1);
        let before = candidates(scores, n - 1);
        let r = candidates(scores, n);
        assert forall|x: int| 0 <= x < n && #[trigger] scores[x] >= MIN_SCORE implies r.contains(
            x,
        ) by {
            if x == n - 1 {
                assert(r[r.len() - 1] == x);
            } else {
                let k = before.index_of(x);
                assert(before.contains(x));
                assert(r[k] == x);
            }
        }
    }
}

/// Cards are considered from the best to the worst, those with equal scores
/// in the order of the knowledge base; all cards with a high score are.
pub proof fn law_best_first(scores: Seq<nat>)
    requires
        forall|i: int| 0 <= i < scores.len() ==> #[trigger] scores[i] <= i128::MAX,
    ensures
        forall|i: int, j: int|
            0 <= i < j < best_first(scores).len() ==> {
                let a = #[trigger] best_first(scores)[i];
                let b = #[trigger] best_first(scores)[j];
                scores[a] > scores[b] || (scores[a] == scores[b] && a < b)
            },
        forall|x: int|
            0 <= x < scores.len() ==> (best_first(scores).contains(x) <==> #[trigger] scores[x]
                >= MIN_SCORE),
{
    let found = candidates(scores, scores.len() as int);
    let n = found.len() as int;
    let keys = candidate_keys(scores, found);
    let before = sort::score_before(keys);
    let order = sort::ranked(n, before);
    let r = best_first(scores);
    lemma_candidates(scores, scores.len() as int);
    sort::lemma_score_by_key(keys);
    sort::law_ranked_permutation(n, before);
    sort::law_ranked_sorted(n, before);
    assert forall|i: int, j: int| 0 <= i < j < r.len() implies ({
        let a = #[trigger] r[i];
        let b = #[trigger] r[j];
        scores[a] > scores[b] || (scores[a] == scores[b] && a < b)
    }) by {
        let p = order[i];
        let q = order[j];
        assert(0 <= p < n && 0 <= q < n);
        assert(!before(q, p));
        assert(before(p, q) || p < q);
        assert(keys[p].0 == scores[found[p]] && keys[q].0 == scores[found[q]]);
        assert(keys[p].1 == keys[q].1);
    }
    assert forall|x: int| 0 <= x < scores.len() implies (r.contains(x) <==> #[trigger] scores[x]
        >= MIN_SCORE) by {
        if r.contains(x) {
            let i = r.index_of(x);
            assert(0 <= order[i] < n);
            assert(found[order[i]] == x);
        }
        if scores[x] >= MIN_SCORE {
            let p = found.index_of(x);
            assert(found.contains(x));
            assert(order.contains(p));
            let i = order.index_of(p);
            assert(r[i] == x);
        }
    }
}

} // verus!
