//! Guides: titled texts cut into fragments that can be searched.

use vstd::prelude::*;

use crate::rows;
use crate::sort;
use crate::strings;
use crate::text;
use crate::text::WordSet;

verus! {

/// The length that a fragment should reach.
pub const CHUNK_TARGET_CHARS: usize = 1200;

/// The length that no fragment exceeds; longer paragraphs are cut.
pub const CHUNK_HARD_LIMIT_CHARS: usize = 2000;

/// A guide with its fragments.
#[derive(Debug)]
pub struct GuideRow {
    pub guide_id: i64,
    pub title: String,
    pub added_by: i64,
    pub created_at: i64,
    pub chunks: Vec<String>,
}

/// What a [`GuideRow`] holds.
pub struct GuideRowView {
    pub guide_id: i64,
    pub title: Seq<char>,
    pub added_by: i64,
    pub created_at: i64,
    pub chunks: Seq<Seq<char>>,
}

impl View for GuideRow {
    type V = GuideRowView;

    open spec fn view(&self) -> GuideRowView {
        GuideRowView {
            guide_id: self.guide_id,
            title: self.title@,
            added_by: self.added_by,
            created_at: self.created_at,
            chunks: strings::views(self.chunks@),
        }
    }
}

/// What a list of guides tells of a guide.
#[derive(Debug)]
pub struct GuideInfo {
    pub id: i64,
    pub title: String,
    pub chars: usize,
}

/// What a [`GuideInfo`] holds.
pub struct GuideInfoView {
    pub id: i64,
    pub title: Seq<char>,
    pub chars: int,
}

impl View for GuideInfo {
    type V = GuideInfoView;

    open spec fn view(&self) -> GuideInfoView {
        GuideInfoView { id: self.id, title: self.title@, chars: self.chars as int }
    }
}

/// Why a guide was not added.
#[derive(Debug)]
pub enum AddGuideError {
    /// There is a guide with this title.
    Duplicate,
    /// The title or the text is blank.
    Empty,
    /// The database refused.
    Db(String),
}

impl AddGuideError {
    /// The message for the user.
    pub open spec fn message(self) -> Seq<char> {
        match self {
            AddGuideError::Duplicate => "гайд с таким названием уже существует"@,
            AddGuideError::Empty => "текст гайда пуст"@,
            AddGuideError::Db(e) => "ошибка базы данных: "@ + e@,
        }
    }

    /// See [`AddGuideError::message`].
    pub fn to_string(&self) -> (r: String)
        ensures
            r@ == self.message(),
    {
        match self {
            AddGuideError::Duplicate => "гайд с таким названием уже существует".to_owned(),
            AddGuideError::Empty => "текст гайда пуст".to_owned(),
            AddGuideError::Db(e) => {
                let mut out = "ошибка базы данных: ".to_owned();
                out.append(e.as_str());
                out
            },
        }
    }
}

/// The views of a list of guides.
pub open spec fn guide_views(v: Seq<GuideRow>) -> Seq<GuideRowView> {
    v.map_values(|g: GuideRow| g@)
}

/// The views of a list of guide summaries.
pub open spec fn info_views(v: Seq<GuideInfo>) -> Seq<GuideInfoView> {
    v.map_values(|g: GuideInfo| g@)
}

/// Two titles that the database holds for the same: the case of Latin letters
/// does not count, nor does what follows a null character but for its size.
pub open spec fn same_title(a: Seq<char>, b: Seq<char>) -> bool {
    strings::byte_len(a) == strings::byte_len(b) && strings::fold(rows::before_nul(a)) == strings::fold(
        rows::before_nul(b),
    )
}

/// See [`same_title`].
pub fn is_same_title(a: &str, b: &str) -> (r: bool)
    ensures
        r == same_title(a@, b@),
{
    if strings::len_bytes(a) != strings::len_bytes(b) {
        return false;
    }
    let x0 = strings::chars_of(a);
    let y0 = strings::chars_of(b);
    let x = rows::slice_before_nul(x0.as_slice());
    let y = rows::slice_before_nul(y0.as_slice());
    strings::slice_eq_folded(x, y)
}

/// A title starts like the query; the case of Latin letters does not count.
pub open spec fn starts_like(title: Seq<char>, query: Seq<char>) -> bool {
    query.len() <= title.len() && strings::fold(title.take(query.len() as int)) == strings::fold(
        query,
    )
}

/// See [`starts_like`].
fn does_start_like(title: &str, query: &[char]) -> (r: bool)
    ensures
        r == starts_like(title@, query@),
{
    let cs = strings::chars_of(title);
    if query.len() > cs.len() {
        return false;
    }
    let start = vstd::slice::slice_subrange(cs.as_slice(), 0, query.len());
    assert(start@ =~= title@.take(query@.len() as int));
    strings::slice_eq_folded(start, query)
}

/// The guide with an id.
pub open spec fn by_id(guides: Seq<GuideRowView>, id: i64) -> Option<int>
    decreases guides.len(),
{
    if guides.len() == 0 {
        None
    } else if guides.last().guide_id == id {
        Some(guides.len() - 1)
    } else {
        by_id(guides.drop_last(), id)
    }
}

/// The guide with a title.
pub open spec fn by_title(guides: Seq<GuideRowView>, title: Seq<char>) -> Option<int>
    decreases guides.len(),
{
    if guides.len() == 0 {
        None
    } else if same_title(guides.last().title, title) {
        Some(guides.len() - 1)
    } else {
        by_title(guides.drop_last(), title)
    }
}

/// The guide at a place is the only one whose title starts like the query.
pub open spec fn only_start(guides: Seq<GuideRowView>, query: Seq<char>, i: int) -> bool {
    &&& 0 <= i < guides.len()
    &&& forall|j: int|
        0 <= j < guides.len() ==> (starts_like(#[trigger] guides[j].title, query) <==> j == i)
}

/// The guide whose title starts like the query, if there is just one.
pub open spec fn by_start(guides: Seq<GuideRowView>, query: Seq<char>) -> Option<int> {
    if exists|i: int| only_start(guides, query, i) {
        Some(choose|i: int| only_start(guides, query, i))
    } else {
        None
    }
}

/// The guide that a query names: by its id, else by its title, else by the
/// start of its title, if no other title starts so.
pub open spec fn named(guides: Seq<GuideRowView>, text: Seq<char>) -> Option<int> {
    let query = strings::trim(text);
    if query.len() == 0 {
        None
    } else {
        let id = match strings::parse_signed(query) {
            Some(id) => by_id(guides, id as i64),
            None => None,
        };
        if id is Some {
            id
        } else if by_title(guides, query) is Some {
            by_title(guides, query)
        } else {
            by_start(guides, query)
        }
    }
}

/// The total length of a list of fragments.
pub open spec fn chunk_chars(chunks: Seq<Seq<char>>) -> nat
    decreases chunks.len(),
{
    if chunks.len() == 0 {
        0
    } else {
        chunk_chars(chunks.drop_last()) + chunks.last().len()
    }
}

/// A number that does not exceed what the machine can count.
pub open spec fn counted(n: nat) -> int {
    if n <= usize::MAX {
        n as int
    } else {
        usize::MAX as int
    }
}

/// What the list of guides tells of a guide.
pub open spec fn info(g: GuideRowView) -> GuideInfoView {
    GuideInfoView { id: g.guide_id, title: g.title, chars: counted(chunk_chars(g.chunks)) }
}

/// A fragment with the title of its guide and its place in it.
pub struct ChunkView {
    pub title: Seq<char>,
    pub index: int,
    pub content: Seq<char>,
}

/// The first `k` fragments of a guide.
pub open spec fn chunks_of(g: GuideRowView, k: int) -> Seq<ChunkView>
    decreases k,
{
    if k <= 0 {
        Seq::empty()
    } else {
        chunks_of(g, k - 1).push(
            ChunkView { title: g.title, index: k - 1, content: g.chunks[k - 1] },
        )
    }
}

/// The fragments of all guides.
pub open spec fn all_chunks(guides: Seq<GuideRowView>) -> Seq<ChunkView>
    decreases guides.len(),
{
    if guides.len() == 0 {
        Seq::empty()
    } else {
        let g = guides.last();
        all_chunks(guides.drop_last()) + chunks_of(g, g.chunks.len() as int)
    }
}

/// How well a fragment answers a question: a word in the title counts twice.
pub open spec fn score(c: ChunkView, words: Set<Seq<char>>) -> nat {
    text::significant_words(c.title).intersect(words).len() * 2 + text::significant_words(
        c.content,
    ).intersect(words).len()
}

/// The fragments that share a word with the question.
pub open spec fn hits(chunks: Seq<ChunkView>, words: Set<Seq<char>>) -> Seq<ChunkView>
    decreases chunks.len(),
{
    if chunks.len() == 0 {
        Seq::empty()
    } else {
        let rest = hits(chunks.drop_last(), words);
        if score(chunks.last(), words) > 0 {
            rest.push(chunks.last())
        } else {
            rest
        }
    }
}

/// The order of fragments: the better score first, then the earlier place.
pub open spec fn ranks(chunks: Seq<ChunkView>, words: Set<Seq<char>>) -> Seq<(i128, i64)> {
    chunks.map_values(|c: ChunkView| (score(c, words) as i128, c.index as i64))
}

/// The fragments in the order in which they are considered.
pub open spec fn best_first(chunks: Seq<ChunkView>, words: Set<Seq<char>>) -> Seq<ChunkView> {
    sort::ranked(chunks.len() as int, sort::score_before(ranks(chunks, words))).map_values(
        |i: int| chunks[i],
    )
}

/// The fragments from `i` on that fit into what is left of a budget of
/// characters. One that does not fit is passed over; nothing is considered
/// after the budget is full.
pub open spec fn picked(
    chunks: Seq<ChunkView>,
    i: int,
    used: int,
    budget: int,
) -> Seq<(Seq<char>, Seq<char>)>
    decreases chunks.len() - i,
{
    if i < 0 || i >= chunks.len() {
        Seq::empty()
    } else {
        let c = chunks[i];
        let filled = used + c.content.len();
        if filled > budget {
            picked(chunks, i + 1, used, budget)
        } else if filled >= budget {
            seq![(c.title, c.content)]
        } else {
            seq![(c.title, c.content)] + picked(chunks, i + 1, filled, budget)
        }
    }
}

/// The fragments that answer a question within a budget of characters.
pub open spec fn found(
    guides: Seq<GuideRowView>,
    words: Set<Seq<char>>,
    budget: int,
) -> Seq<(Seq<char>, Seq<char>)> {
    if words.len() == 0 {
        Seq::empty()
    } else {
        picked(best_first(hits(all_chunks(guides), words), words), 0, 0, budget)
    }
}

/// The views of a list of titled fragments.
pub open spec fn pair_views(v: Seq<(String, String)>) -> Seq<(Seq<char>, Seq<char>)> {
    v.map_values(|p: (String, String)| (p.0@, p.1@))
}

/// The order of guides by age, the oldest first.
pub open spec fn ages(guides: Seq<GuideRowView>) -> Seq<(i128, i64)> {
    guides.map_values(|g: GuideRowView| (-(g.created_at as i128) as i128, g.guide_id))
}

/// The guide is among the `n` oldest.
pub open spec fn among_oldest(guides: Seq<GuideRowView>, n: int, i: int) -> bool {
    exists|p: int|
        0 <= p < n && p < guides.len() && #[trigger] sort::ranked(
            guides.len() as int,
            sort::score_before(ages(guides)),
        )[p] == i
}

/// The guides without the `n` oldest.
pub open spec fn without_oldest(guides: Seq<GuideRowView>, n: int) -> Seq<GuideRowView> {
    rows::survivors(guides, guides.len() as int, |i: int| !among_oldest(guides, n, i))
}

/// Ids that rise.
pub open spec fn rising_ids(guides: Seq<GuideRowView>) -> bool {
    forall|i: int, j: int|
        0 <= i < j < guides.len() ==> #[trigger] guides[i].guide_id < #[trigger] guides[j].guide_id
}

/// No title occurs twice.
pub open spec fn distinct_titles(guides: Seq<GuideRowView>) -> bool {
    forall|i: int, j: int|
        0 <= i < j < guides.len() ==> !same_title(
            #[trigger] guides[i].title,
            #[trigger] guides[j].title,
        )
}

/// Guides by id.
#[derive(Debug)]
pub struct Guides {
    rows: Vec<GuideRow>,
    last_id: i64,
}

/// What [`Guides`] holds: the guides in the order of their ids, and the
/// largest id that was ever given.
pub struct GuidesView {
    pub rows: Seq<GuideRowView>,
    pub last_id: i64,
}

impl View for Guides {
    type V = GuidesView;

    closed spec fn view(&self) -> GuidesView {
        GuidesView { rows: guide_views(self.rows@), last_id: self.last_id }
    }
}

impl GuidesView {
    /// Ids rise and do not exceed the largest one; titles differ.
    pub open spec fn wf(self) -> bool {
        &&& rising_ids(self.rows)
        &&& distinct_titles(self.rows)
        &&& forall|i: int|
            0 <= i < self.rows.len() ==> #[trigger] self.rows[i].guide_id <= self.last_id
    }

    /// The guide that adding makes.
    pub open spec fn new_row(
        self,
        title: Seq<char>,
        added_by: i64,
        content: Seq<char>,
        now: i64,
    ) -> GuideRowView {
        GuideRowView {
            guide_id: (self.last_id + 1) as i64,
            title: strings::trim(title),
            added_by: added_by,
            created_at: now,
            chunks: text::guide_chunks(
                content,
                CHUNK_TARGET_CHARS as int,
                CHUNK_HARD_LIMIT_CHARS as int,
            ),
        }
    }

    /// What comes of adding a guide.
    pub open spec fn refusal(self, title: Seq<char>, content: Seq<char>) -> Option<AddGuideKind> {
        if strings::blank(title) || strings::blank(content) {
            Some(AddGuideKind::Empty)
        } else if by_title(self.rows, strings::trim(title)) is Some {
            Some(AddGuideKind::Duplicate)
        } else if self.last_id == i64::MAX {
            Some(AddGuideKind::Full)
        } else {
            None
        }
    }
}

/// The reasons to refuse a guide.
pub enum AddGuideKind {
    Empty,
    Duplicate,
    Full,
}

impl AddGuideKind {
    /// The message about the refusal.
    pub open spec fn message(self) -> Seq<char> {
        match self {
            AddGuideKind::Empty => "текст гайда пуст"@,
            AddGuideKind::Duplicate => "гайд с таким названием уже существует"@,
            AddGuideKind::Full => "ошибка базы данных: "@ + "database or disk is full"@,
        }
    }
}

/// The error that a refusal gives.
pub open spec fn refused_with(reason: Option<AddGuideKind>, e: AddGuideError) -> bool {
    match reason {
        Some(AddGuideKind::Empty) => e is Empty,
        Some(AddGuideKind::Duplicate) => e is Duplicate,
        Some(AddGuideKind::Full) => e matches AddGuideError::Db(m) && m@
            == "database or disk is full"@,
        None => false,
    }
}

/// The guide with a title is one that has it.
pub proof fn lemma_by_title(guides: Seq<GuideRowView>, title: Seq<char>)
    ensures
        match by_title(guides, title) {
            Some(i) => 0 <= i < guides.len() && same_title(guides[i].title, title),
            None => forall|i: int|
                0 <= i < guides.len() ==> !same_title(#[trigger] guides[i].title, title),
        },
    decreases guides.len(),
{
    if guides.len() > 0 && !same_title(guides.last().title, title) {
        lemma_by_title(guides.drop_last(), title);
        if by_title(guides.drop_last(), title) is None {
            assert forall|i: int| 0 <= i < guides.len() implies !same_title(
                #[trigger] guides[i].title,
                title,
            ) by {
                if i < guides.len() - 1 {
                    assert(guides.drop_last()[i] == guides[i]);
                }
            }
        }
    }
}

/// A guide that is the only one is the one that is found.
proof fn lemma_only_start(guides: Seq<GuideRowView>, query: Seq<char>, i: int)
    requires
        only_start(guides, query, i),
    ensures
        by_start(guides, query) == Some(i),
{
    let k = choose|k: int| only_start(guides, query, k);
    assert(only_start(guides, query, k));
    assert(starts_like(guides[k].title, query));
}

/// With two guides that start like the query, neither is the only one.
proof fn lemma_shared_start(guides: Seq<GuideRowView>, query: Seq<char>, i: int, k: int)
    requires
        0 <= i < k < guides.len(),
        starts_like(guides[i].title, query),
        starts_like(guides[k].title, query),
    ensures
        by_start(guides, query) is None,
{
    if exists|j: int| only_start(guides, query, j) {
        let j = choose|j: int| only_start(guides, query, j);
        assert(starts_like(guides[i].title, query) <==> i == j);
        assert(starts_like(guides[k].title, query) <==> k == j);
    }
}

/// The guide with an id is one that has it.
pub proof fn lemma_by_id(guides: Seq<GuideRowView>, id: i64)
    ensures
        match by_id(guides, id) {
            Some(i) => 0 <= i < guides.len() && guides[i].guide_id == id,
            None => forall|i: int| 0 <= i < guides.len() ==> #[trigger] guides[i].guide_id != id,
        },
    decreases guides.len(),
{
    if guides.len() > 0 && guides.last().guide_id != id {
        lemma_by_id(guides.drop_last(), id);
        if by_id(guides.drop_last(), id) is None {
            assert forall|i: int| 0 <= i < guides.len() implies #[trigger] guides[i].guide_id
                != id by {
                if i < guides.len() - 1 {
                    assert(guides.drop_last()[i] == guides[i]);
                }
            }
        }
    }
}

impl Guides {
    /// No guides.
    pub fn new() -> (r: Guides)
        ensures
            r@.wf(),
            r@.rows == Seq::<GuideRowView>::empty(),
            r@.last_id == 0,
    {
        let r = Guides { rows: Vec::new(), last_id: 0 };
        assert(r@.rows =~= Seq::<GuideRowView>::empty());
        r
    }

    /// The guide with an id.
    fn find_id(&self, id: i64) -> (r: Option<usize>)
        ensures
            match r {
                Some(i) => i < self.rows@.len() && by_id(self@.rows, id) == Some(i as int),
                None => by_id(self@.rows, id) is None,
            },
    {
        let ghost all = guide_views(self.rows@);
        let mut i: usize = self.rows.len();
        assert(all.take(i as int) =~= all);
        while i > 0
            invariant
                i <= self.rows@.len(),
                all == guide_views(self.rows@),
                by_id(all, id) == by_id(all.take(i as int), id),
            decreases i,
        {
            assert(all.take(i as int).last() == self.rows@[i - 1]@);
            assert(all.take(i as int).drop_last() =~= all.take(i - 1));
            if self.rows[i - 1].guide_id == id {
                return Some(i - 1);
            }
            i -= 1;
        }
        None
    }

    /// The guide with a title.
    fn find_title(&self, title: &str) -> (r: Option<usize>)
        ensures
            match r {
                Some(i) => i < self.rows@.len() && by_title(self@.rows, title@) == Some(i as int),
                None => by_title(self@.rows, title@) is None,
            },
    {
        let ghost all = guide_views(self.rows@);
        let mut i: usize = self.rows.len();
        assert(all.take(i as int) =~= all);
        while i > 0
            invariant
                i <= self.rows@.len(),
                all == guide_views(self.rows@),
                by_title(all, title@) == by_title(all.take(i as int), title@),
            decreases i,
        {
            assert(all.take(i as int).last() == self.rows@[i - 1]@);
            assert(all.take(i as int).drop_last() =~= all.take(i - 1));
            if is_same_title(self.rows[i - 1].title.as_str(), title) {
                return Some(i - 1);
            }
            i -= 1;
        }
        None
    }

    /// The only guide whose title starts like the query.
    fn find_start(&self, query: &str) -> (r: Option<usize>)
        ensures
            match r {
                Some(i) => i < self.rows@.len() && by_start(self@.rows, query@) == Some(i as int),
                None => by_start(self@.rows, query@) is None,
            },
    {
        let ghost all = guide_views(self.rows@);
        let start = strings::chars_of(query);
        let mut only: Option<usize> = None;
        let mut i: usize = 0;
        while i < self.rows.len()
            invariant
                i <= self.rows@.len(),
                all == guide_views(self.rows@),
                start@ == query@,
                match only {
                    Some(k) => k < i && forall|j: int|
                        0 <= j < i ==> (starts_like(#[trigger] all[j].title, query@) <==> j == k),
                    None => forall|j: int|
                        0 <= j < i ==> !starts_like(#[trigger] all[j].title, query@),
                },
            decreases self.rows@.len() - i,
        {
            assert(all[i as int] == self.rows@[i as int]@);
            if does_start_like(self.rows[i].title.as_str(), start.as_slice()) {
                match only {
                    Some(k) => {
                        proof {
                            assert(starts_like(all[k as int].title, query@));
                            lemma_shared_start(all, query@, k as int, i as int);
                        }
                        return None;
                    },
                    None => {
                        only = Some(i);
                    },
                }
            }
            i += 1;
        }
        proof {
            match only {
                Some(k) => {
                    assert(only_start(all, query@, k as int));
                    lemma_only_start(all, query@, k as int);
                },
                None => {
                    if exists|k: int| only_start(all, query@, k) {
                        let k = choose|k: int| only_start(all, query@, k);
                        assert(starts_like(all[k].title, query@));
                    }
                },
            }
        }
        only
    }

    /// The id of the guide that a query names.
    pub fn find(&self, query: &str) -> (r: Option<i64>)
        ensures
            match r {
                Some(id) => match named(self@.rows, query@) {
                    Some(i) => 0 <= i < self@.rows.len() && id == self@.rows[i].guide_id,
                    None => false,
                },
                None => named(self@.rows, query@) is None,
            },
    {
        let ghost all = self@.rows;
        let text = strings::trimmed(query);
        if text.as_str().is_empty() {
            return None;
        }
        match strings::parse_i64(text.as_str()) {
            Some(id) => {
                match self.find_id(id) {
                    Some(i) => {
                        assert(all[i as int] == self.rows@[i as int]@);
                        return Some(self.rows[i].guide_id);
                    },
                    None => {},
                }
            },
            None => {},
        }
        match self.find_title(text.as_str()) {
            Some(i) => {
                assert(all[i as int] == self.rows@[i as int]@);
                return Some(self.rows[i].guide_id);
            },
            None => {},
        }
        match self.find_start(text.as_str()) {
            Some(i) => {
                assert(all[i as int] == self.rows@[i as int]@);
                Some(self.rows[i].guide_id)
            },
            None => None,
        }
    }

    /// The row that a new guide takes, if nothing speaks against it.
    pub fn plan(&self, title: &str, added_by: i64, content: &str, now: i64) -> (r: Result<
        GuideRow,
        AddGuideError,
    >)
        ensures
            match r {
                Ok(row) => self@.refusal(title@, content@) is None && row@ == self@.new_row(
                    title@,
                    added_by,
                    content@,
                    now,
                ),
                Err(e) => refused_with(self@.refusal(title@, content@), e),
            },
    {
        if strings::is_blank(title) || strings::is_blank(content) {
            return Err(AddGuideError::Empty);
        }
        let name = strings::trimmed(title);
        match self.find_title(name.as_str()) {
            Some(_) => {
                return Err(AddGuideError::Duplicate);
            },
            None => {},
        }
        if self.last_id == i64::MAX {
            return Err(AddGuideError::Db("database or disk is full".to_owned()));
        }
        let chunks = text::split_chunks(content, CHUNK_TARGET_CHARS, CHUNK_HARD_LIMIT_CHARS);
        let row = GuideRow {
            guide_id: self.last_id + 1,
            title: name,
            added_by: added_by,
            created_at: now,
            chunks: chunks,
        };
        assert(row@ == self@.new_row(title@, added_by, content@, now));
        Ok(row)
    }

    /// Adds a guide at the given time. Gives the number of its fragments.
    pub fn add(&mut self, title: &str, added_by: i64, content: &str, now: i64) -> (r: Result<
        usize,
        AddGuideError,
    >)
        requires
            old(self)@.wf(),
        ensures
            final(self)@.wf(),
            match r {
                Ok(n) => {
                    let row = old(self)@.new_row(title@, added_by, content@, now);
                    &&& old(self)@.refusal(title@, content@) is None
                    &&& final(self)@.rows == old(self)@.rows.push(row)
                    &&& final(self)@.last_id == old(self)@.last_id + 1
                    &&& n == row.chunks.len()
                },
                Err(e) => {
                    &&& final(self)@ == old(self)@
                    &&& refused_with(old(self)@.refusal(title@, content@), e)
                },
            },
    {
        let ghost before = self@;
        let row = match self.plan(title, added_by, content, now) {
            Ok(row) => row,
            Err(e) => {
                return Err(e);
            },
        };
        proof {
            lemma_by_title(before.rows, strings::trim(title@));
        }
        let count: usize = row.chunks.len();
        self.rows.push(row);
        self.last_id = self.last_id + 1;
        assert(self@.rows =~= before.rows.push(row@));
        assert(distinct_titles(self@.rows)) by {
            assert forall|i: int, j: int| 0 <= i < j < self@.rows.len() implies !same_title(
                #[trigger] self@.rows[i].title,
                #[trigger] self@.rows[j].title,
            ) by {
                assert(self@.rows[i] == before.rows[i]);
                if j < before.rows.len() {
                    assert(self@.rows[j] == before.rows[j]);
                }
            }
        }
        Ok(count)
    }

    /// The number of guides.
    pub fn len(&self) -> (r: usize)
        ensures
            r == self@.rows.len(),
    {
        self.rows.len()
    }

    /// What there is to tell of each guide.
    pub fn list(&self) -> (r: Vec<GuideInfo>)
        ensures
            info_views(r@) == self@.rows.map_values(|g: GuideRowView| info(g)),
    {
        let ghost all = guide_views(self.rows@);
        let ghost goal = all.map_values(|g: GuideRowView| info(g));
        let mut r: Vec<GuideInfo> = Vec::new();
        let mut i: usize = 0;
        assert(info_views(r@) =~= goal.take(0));
        while i < self.rows.len()
            invariant
                i <= self.rows@.len(),
                all == guide_views(self.rows@),
                goal == all.map_values(|g: GuideRowView| info(g)),
                info_views(r@) == goal.take(i as int),
            decreases self.rows@.len() - i,
        {
            let g = &self.rows[i];
            let ghost before = info_views(r@);
            let row = GuideInfo {
                id: g.guide_id,
                title: g.title.clone(),
                chars: count_chars(&g.chunks),
            };
            assert(row@ == info(g@));
            assert(goal[i as int] == info(all[i as int]));
            r.push(row);
            assert(info_views(r@) =~= before.push(row@));
            assert(goal.take(i as int).push(row@) =~= goal.take(i + 1));
            i += 1;
        }
        assert(goal.take(goal.len() as int) =~= goal);
        r
    }

    /// The fragments that share a word with the question, by guide and place,
    /// with their keys for ordering.
    fn matching(&self, words: &WordSet) -> (r: (Vec<(usize, usize)>, Vec<(i128, i64)>))
        ensures
            ({
                let h = hits(all_chunks(self@.rows), words@);
                &&& places_are(r.0@, self@.rows, h)
                &&& r.1@ == ranks(h, words@)
            }),
    {
        let ghost all = guide_views(self.rows@);
        let mut places: Vec<(usize, usize)> = Vec::new();
        let mut keys: Vec<(i128, i64)> = Vec::new();
        let mut i: usize = 0;
        assert(all_chunks(all.take(0)) =~= Seq::<ChunkView>::empty());
        assert(keys@ =~= ranks(Seq::<ChunkView>::empty(), words@));
        while i < self.rows.len()
            invariant
                i <= self.rows@.len(),
                all == guide_views(self.rows@),
                places_are(places@, all, hits(all_chunks(all.take(i as int)), words@)),
                keys@ == ranks(hits(all_chunks(all.take(i as int)), words@), words@),
            decreases self.rows@.len() - i,
        {
            let g = &self.rows[i];
            let ghost gv = all[i as int];
            let ghost earlier = all_chunks(all.take(i as int));
            proof {
                assert(gv == g@);
                assert(all.take(i + 1).drop_last() =~= all.take(i as int));
                assert(all.take(i + 1).last() == gv);
                assert(earlier + chunks_of(gv, 0) =~= earlier);
            }
            let title_words = text::meaningful_words(g.title.as_str());
            let in_title: usize = title_words.shared(words);
            let mut j: usize = 0;
            while j < g.chunks.len()
                invariant
                    i < self.rows@.len(),
                    all == guide_views(self.rows@),
                    *g == self.rows@[i as int],
                    gv == all[i as int],
                    gv == g@,
                    j <= g.chunks@.len(),
                    in_title == text::significant_words(gv.title).intersect(words@).len(),
                    places_are(places@, all, hits(earlier + chunks_of(gv, j as int), words@)),
                    keys@ == ranks(hits(earlier + chunks_of(gv, j as int), words@), words@),
                decreases g.chunks@.len() - j,
            {
                let ghost c = ChunkView {
                    title: gv.title,
                    index: j as int,
                    content: gv.chunks[j as int],
                };
                let ghost so_far = earlier + chunks_of(gv, j as int);
                let ghost h = hits(so_far, words@);
                proof {
                    assert(gv.chunks[j as int] == g.chunks@[j as int]@);
                    assert(earlier + chunks_of(gv, j + 1) =~= so_far.push(c));
                    assert(so_far.push(c).drop_last() =~= so_far);
                }
                let chunk_words = text::meaningful_words(g.chunks[j].as_str());
                let in_chunk: usize = chunk_words.shared(words);
                let value: i128 = in_title as i128 * 2 + in_chunk as i128;
                assert(value == score(c, words@));
                if value > 0 {
                    places.push((i, j));
                    keys.push((value, j as i64));
                    assert(keys@ =~= ranks(h.push(c), words@));
                }
                j += 1;
            }
            i += 1;
        }
        assert(all.take(all.len() as int) =~= all);
        (places, keys)
    }

    /// The fragments that answer a question, with the titles of their guides,
    /// within a budget of characters.
    pub fn search(&self, words: &WordSet, budget: usize) -> (r: Vec<(String, String)>)
        ensures
            pair_views(r@) == found(self@.rows, words@, budget as int),
    {
        let mut out: Vec<(String, String)> = Vec::new();
        if words.len() == 0 {
            assert(pair_views(out@) =~= found(self@.rows, words@, budget as int));
            return out;
        }
        let (places, keys) = self.matching(words);
        let ghost h = hits(all_chunks(self@.rows), words@);
        let ghost best = best_first(h, words@);
        let ghost goal = picked(best, 0, 0, budget as int);
        let order = sort::rank_scores(&keys);
        let mut used: usize = 0;
        let mut more: bool = true;
        let mut i: usize = 0;
        assert(pair_views(out@) + goal =~= goal);
        while more && i < order.len()
            invariant
                i <= order@.len() == h.len(),
                places_are(places@, self@.rows, h),
                best == best_first(h, words@),
                sort::positions(order@) == sort::ranked(
                    h.len() as int,
                    sort::score_before(ranks(h, words@)),
                ),
                forall|k: int| 0 <= k < order@.len() ==> #[trigger] order@[k] < h.len(),
                used <= budget,
                more ==> goal == pair_views(out@) + picked(
                    best,
                    i as int,
                    used as int,
                    budget as int,
                ),
                !more ==> goal == pair_views(out@),
            decreases order@.len() - i, (if more { 1int } else { 0int }),
        {
            let at: usize = order[i];
            let (gi, ci) = places[at];
            let ghost c = h[at as int];
            proof {
                assert(place_is(places@[at as int], self@.rows, c));
                assert(sort::positions(order@)[i as int] == at as int);
                assert(best[i as int] == c);
                assert(self@.rows[gi as int] == self.rows@[gi as int]@);
            }
            let title = &self.rows[gi].title;
            assert(self@.rows[gi as int].chunks[ci as int] == self.rows@[gi as int].chunks@[ci as int]@);
            let content = &self.rows[gi].chunks[ci];
            let size: usize = content.as_str().unicode_len();
            let ghost before = pair_views(out@);
            if used as u128 + size as u128 > budget as u128 {
                i += 1;
            } else {
                let pair = (title.clone(), content.clone());
                used = used + size;
                out.push(pair);
                assert(pair_views(out@) =~= before.push((c.title, c.content)));
                if used >= budget {
                    more = false;
                    assert(before + seq![(c.title, c.content)] =~= pair_views(out@));
                } else {
                    let ghost rest = picked(best, i + 1, used as int, budget as int);
                    assert(before + (seq![(c.title, c.content)] + rest) =~= pair_views(out@)
                        + rest);
                }
                i += 1;
            }
        }
        assert(more ==> pair_views(out@) + Seq::<(Seq<char>, Seq<char>)>::empty() =~= pair_views(
            out@,
        ));
        out
    }

    /// Removes the `n` oldest guides. Gives the number of guides removed.
    pub fn drop_oldest(&mut self, n: usize) -> (r: usize)
        requires
            old(self)@.wf(),
        ensures
            final(self)@.wf(),
            final(self)@.last_id == old(self)@.last_id,
            final(self)@.rows == without_oldest(old(self)@.rows, n as int),
            r == old(self)@.rows.len() - final(self)@.rows.len(),
    {
        let ghost all = self@.rows;
        let count: usize = self.rows.len();
        let mut keys: Vec<(i128, i64)> = Vec::new();
        let mut marks: Vec<bool> = Vec::new();
        let mut i: usize = 0;
        while i < count
            invariant
                i <= count == self.rows@.len(),
                all == guide_views(self.rows@),
                keys@ == ages(all).take(i as int),
                marks@.len() == i,
                forall|k: int| 0 <= k < i ==> !#[trigger] marks@[k],
            decreases count - i,
        {
            let key = (-(self.rows[i].created_at as i128), self.rows[i].guide_id);
            assert(ages(all)[i as int] == key);
            assert(ages(all).take(i as int).push(key) =~= ages(all).take(i + 1));
            keys.push(key);
            marks.push(false);
            i += 1;
        }
        assert(ages(all).take(count as int) =~= ages(all));
        let order = sort::rank_scores(&keys);
        let ghost ranking = sort::ranked(count as int, sort::score_before(ages(all)));
        let mut p: usize = 0;
        while p < order.len() && p < n
            invariant
                p <= order@.len() == count,
                p <= n,
                marks@.len() == count,
                ranking == sort::positions(order@),
                forall|k: int| 0 <= k < order@.len() ==> #[trigger] order@[k] < count,
                forall|k: int|
                    0 <= k < count ==> (#[trigger] marks@[k] <==> exists|q: int|
                        0 <= q < p && #[trigger] ranking[q] == k),
            decreases order@.len() - p,
        {
            let ghost was = marks@;
            marks.set(order[p], true);
            assert(ranking[p as int] == order@[p as int]);
            assert forall|k: int| 0 <= k < count implies (#[trigger] marks@[k] <==> exists|q: int|
                0 <= q < p + 1 && #[trigger] ranking[q] == k) by {
                assert(was[k] <==> exists|q: int| 0 <= q < p && #[trigger] ranking[q] == k);
                if k == order@[p as int] {
                    assert(ranking[p as int] == k);
                }
            }
            p += 1;
        }
        assert forall|k: int| 0 <= k < count implies #[trigger] marks@[k] == among_oldest(
            all,
            n as int,
            k,
        ) by {
            assert(marks@[k] <==> exists|q: int| 0 <= q < p && #[trigger] ranking[q] == k);
        }
        let ghost keep = |i: int| !among_oldest(all, n as int, i);
        let ghost goal = rows::survivors(all, all.len() as int, keep);
        let mut kept: Vec<GuideRow> = Vec::new();
        assert(all.take(all.len() as int) =~= all);
        assert(goal + guide_views(kept@).reverse() =~= goal);
        while self.rows.len() > 0
            invariant
                self.rows@.len() + kept@.len() <= all.len() == marks@.len(),
                all.len() == count,
                guide_views(self.rows@) == all.take(self.rows@.len() as int),
                keep == |i: int| !among_oldest(all, n as int, i),
                forall|k: int|
                    0 <= k < count ==> #[trigger] marks@[k] == among_oldest(all, n as int, k),
                goal == rows::survivors(all, self.rows@.len() as int, keep) + guide_views(
                    kept@,
                ).reverse(),
                self.last_id == old(self).last_id,
            decreases self.rows@.len(),
        {
            let ghost k = self.rows@.len() as int;
            let ghost before = guide_views(kept@).reverse();
            let at: usize = self.rows.len() - 1;
            match self.rows.pop() {
                Some(row) => {
                    assert(all.take(k).last() == row@);
                    assert(all[k - 1] == row@);
                    assert(guide_views(self.rows@) =~= all.take(k - 1));
                    if !marks[at] {
                        assert(keep(k - 1));
                        kept.push(row);
                        assert(guide_views(kept@).reverse() =~= seq![row@] + before);
                        assert(rows::survivors(all, k - 1, keep).push(row@) + before
                            =~= rows::survivors(all, k - 1, keep) + (seq![row@] + before));
                    } else {
                        assert(!keep(k - 1));
                    }
                },
                None => {},
            }
        }
        let ghost newest_first = kept@;
        self.rows = rows::reversed(kept);
        proof {
            assert(guide_views(self.rows@) =~= guide_views(newest_first).reverse());
            assert(goal =~= guide_views(self.rows@));
            lemma_survivors_wf(all, all.len() as int, keep, self.last_id);
        }
        count - self.rows.len()
    }

    /// The table with the given rows and the largest id that was ever given,
    /// if the rows are in the order of their ids and no title occurs twice.
    pub fn restore(rows: Vec<GuideRow>, last_id: i64) -> (r: Option<Guides>)
        ensures
            ({
                let v = GuidesView { rows: guide_views(rows@), last_id: last_id };
                match r {
                    Some(g) => g@ == v && v.wf(),
                    None => !v.wf(),
                }
            }),
    {
        let ghost v = GuidesView { rows: guide_views(rows@), last_id: last_id };
        let ghost all = v.rows;
        let mut i: usize = 0;
        while i < rows.len()
            invariant
                i <= rows@.len(),
                all == guide_views(rows@),
                v == (GuidesView { rows: all, last_id: last_id }),
                forall|k: int| 0 <= k < i ==> #[trigger] all[k].guide_id <= last_id,
                forall|a: int, b: int|
                    0 <= a < b < i ==> #[trigger] all[a].guide_id < #[trigger] all[b].guide_id,
                forall|a: int, b: int|
                    0 <= a < b < i ==> !same_title(
                        #[trigger] all[a].title,
                        #[trigger] all[b].title,
                    ),
            decreases rows@.len() - i,
        {
            assert(all[i as int] == rows@[i as int]@);
            if rows[i].guide_id > last_id {
                assert(!(v.rows[i as int].guide_id <= v.last_id));
                return None;
            }
            if i > 0 && rows[i - 1].guide_id >= rows[i].guide_id {
                assert(all[i - 1] == rows@[i - 1]@);
                assert(!(v.rows[i - 1].guide_id < v.rows[i as int].guide_id));
                return None;
            }
            assert forall|a: int| 0 <= a < i implies #[trigger] all[a].guide_id
                < all[i as int].guide_id by {
                assert(all[i - 1] == rows@[i - 1]@);
                if a < i - 1 {
                    assert(all[a].guide_id < all[i - 1].guide_id);
                }
            }
            let mut j: usize = 0;
            while j < i
                invariant
                    j <= i < rows@.len(),
                    all == guide_views(rows@),
                    v == (GuidesView { rows: all, last_id: last_id }),
                    forall|a: int|
                        0 <= a < j ==> !same_title(#[trigger] all[a].title, all[i as int].title),
                decreases i - j,
            {
                assert(all[j as int] == rows@[j as int]@);
                assert(all[i as int] == rows@[i as int]@);
                if is_same_title(rows[j].title.as_str(), rows[i].title.as_str()) {
                    assert(same_title(all[j as int].title, all[i as int].title));
                    return None;
                }
                j += 1;
            }
            i += 1;
        }
        Some(Guides { rows: rows, last_id: last_id })
    }

    /// Removes a guide. Tells whether it was there.
    pub fn delete(&mut self, guide_id: i64) -> (r: bool)
        requires
            old(self)@.wf(),
        ensures
            final(self)@.wf(),
            final(self)@.last_id == old(self)@.last_id,
            match by_id(old(self)@.rows, guide_id) {
                Some(i) => r && final(self)@.rows == old(self)@.rows.remove(i),
                None => !r && final(self)@.rows == old(self)@.rows,
            },
    {
        let ghost before = self@.rows;
        proof {
            lemma_by_id(before, guide_id);
        }
        match self.find_id(guide_id) {
            Some(i) => {
                let _ = self.rows.remove(i);
                proof {
                    assert(self@.rows =~= before.remove(i as int));
                    assert forall|a: int, b: int| 0 <= a < b < self@.rows.len() implies #[trigger] self@.rows[a].guide_id
                        < #[trigger] self@.rows[b].guide_id && !same_title(
                        self@.rows[a].title,
                        self@.rows[b].title,
                    ) by {
                        let x = if a < i { a } else { a + 1 };
                        let y = if b < i { b } else { b + 1 };
                        assert(self@.rows[a] == before[x] && self@.rows[b] == before[y]);
                        assert(before[x].guide_id < before[y].guide_id);
                        assert(!same_title(before[x].title, before[y].title));
                    }
                    assert forall|a: int| 0 <= a < self@.rows.len() implies #[trigger] self@.rows[a].guide_id
                        <= self@.last_id by {
                        let x = if a < i { a } else { a + 1 };
                        assert(self@.rows[a] == before[x]);
                    }
                    assert(rising_ids(self@.rows));
                    assert(distinct_titles(self@.rows));
                }
                true
            },
            None => false,
        }
    }
}

/// The total length of a list of fragments.
fn count_chars(chunks: &Vec<String>) -> (r: usize)
    ensures
        r == counted(chunk_chars(strings::views(chunks@))),
{
    let ghost all = strings::views(chunks@);
    let n: usize = chunks.len();
    let mut total: u128 = 0;
    let mut i: usize = 0;
    assert(chunk_chars(all.take(0)) == 0);
    while i < n
        invariant
            i <= n == chunks@.len(),
            all == strings::views(chunks@),
            total == chunk_chars(all.take(i as int)),
            total <= i * 0x1_0000_0000_0000_0000,
        decreases n - i,
    {
        assert(all.take(i + 1).drop_last() =~= all.take(i as int));
        assert(all.take(i + 1).last() == chunks@[i as int]@);
        total = total + chunks[i].as_str().unicode_len() as u128;
        i += 1;
    }
    assert(all.take(n as int) =~= all);
    if total <= usize::MAX as u128 {
        total as usize
    } else {
        usize::MAX
    }
}

/// The place of a fragment.
spec fn place_is(place: (usize, usize), guides: Seq<GuideRowView>, c: ChunkView) -> bool {
    &&& place.0 < guides.len()
    &&& place.1 < guides[place.0 as int].chunks.len()
    &&& c.title == guides[place.0 as int].title
    &&& c.index == place.1
    &&& c.content == guides[place.0 as int].chunks[place.1 as int]
}

/// The places of a list of fragments.
spec fn places_are(
    places: Seq<(usize, usize)>,
    guides: Seq<GuideRowView>,
    chunks: Seq<ChunkView>,
) -> bool {
    &&& places.len() == chunks.len()
    &&& forall|i: int| 0 <= i < places.len() ==> place_is(#[trigger] places[i], guides, chunks[i])
}

/// Guides that stay are in order and distinct.
proof fn lemma_survivors_wf(
    guides: Seq<GuideRowView>,
    k: int,
    keep: spec_fn(int) -> bool,
    last_id: i64,
)
    requires
        0 <= k <= guides.len(),
        rising_ids(guides),
        distinct_titles(guides),
        forall|i: int| 0 <= i < guides.len() ==> #[trigger] guides[i].guide_id <= last_id,
    ensures
        rising_ids(rows::survivors(guides, k, keep)),
        distinct_titles(rows::survivors(guides, k, keep)),
        forall|i: int|
            0 <= i < rows::survivors(guides, k, keep).len() ==> among(
                guides,
                k,
                #[trigger] rows::survivors(guides, k, keep)[i],
            ),
        forall|i: int|
            0 <= i < rows::survivors(guides, k, keep).len() ==> (
            #[trigger] rows::survivors(guides, k, keep)[i]).guide_id <= last_id,
    decreases k,
{
    if k > 0 {
        lemma_survivors_wf(guides, k - 1, keep, last_id);
        let rest = rows::survivors(guides, k - 1, keep);
        let r = rows::survivors(guides, k, keep);
        assert forall|i: int| 0 <= i < r.len() implies among(guides, k, #[trigger] r[i])
            && r[i].guide_id <= last_id by {
            if i < rest.len() {
                assert(r[i] == rest[i]);
                assert(among(guides, k - 1, rest[i]));
            } else {
                assert(guides[k - 1] == r[i]);
            }
        }
        assert forall|a: int, b: int| 0 <= a < b < r.len() implies #[trigger] r[a].guide_id
            < #[trigger] r[b].guide_id && !same_title(r[a].title, r[b].title) by {
            assert(r[a] == rest[a]);
            if b < rest.len() {
                assert(r[b] == rest[b]);
                assert(rest[a].guide_id < rest[b].guide_id);
                assert(!same_title(rest[a].title, rest[b].title));
            } else {
                assert(among(guides, k - 1, rest[a]));
                let j = choose|j: int| 0 <= j < k - 1 && #[trigger] guides[j] == rest[a];
                assert(guides[j].guide_id < guides[k - 1].guide_id);
                assert(!same_title(guides[j].title, guides[k - 1].title));
            }
        }
    }
}

/// The guide is one of the first `k`.
spec fn among(guides: Seq<GuideRowView>, k: int, g: GuideRowView) -> bool {
    exists|j: int| 0 <= j < k && #[trigger] guides[j] == g
}

/// The total length of titled fragments.
pub open spec fn found_chars(found: Seq<(Seq<char>, Seq<char>)>) -> nat
    decreases found.len(),
{
    if found.len() == 0 {
        0
    } else {
        found[0].1.len() + found_chars(found.drop_first())
    }
}

/// See [`law_search_fits`].
proof fn lemma_picked_fits(chunks: Seq<ChunkView>, i: int, used: int, budget: int)
    requires
        0 <= i,
        used <= budget,
    ensures
        used + found_chars(picked(chunks, i, used, budget)) <= budget,
    decreases chunks.len() - i,
{
    if i < chunks.len() {
        let c = chunks[i];
        let filled = used + c.content.len();
        if filled > budget {
            lemma_picked_fits(chunks, i + 1, used, budget);
        } else {
            let first = (c.title, c.content);
            if filled >= budget {
                let none = Seq::<(Seq<char>, Seq<char>)>::empty();
                assert(seq![first].drop_first() =~= none);
                assert(found_chars(none) == 0);
            } else {
                let rest = picked(chunks, i + 1, filled, budget);
                lemma_picked_fits(chunks, i + 1, filled, budget);
                assert((seq![first] + rest).drop_first() =~= rest);
            }
        }
    }
}

/// What a search finds never exceeds its budget.
pub proof fn law_search_fits(guides: Seq<GuideRowView>, words: Set<Seq<char>>, budget: nat)
    ensures
        found_chars(found(guides, words, budget as int)) <= budget,
{
    if words.len() > 0 {
        lemma_picked_fits(
            best_first(hits(all_chunks(guides), words), words),
            0,
            0,
            budget as int,
        );
    }
}

/// A guide that was added is found by its title, unless the title is the id
/// of another guide.
pub proof fn law_added_guide_is_found(
    guides: GuidesView,
    title: Seq<char>,
    added_by: i64,
    content: Seq<char>,
    now: i64,
)
    requires
        guides.wf(),
        guides.refusal(title, content) is None,
        strings::parse_signed(strings::trim(title)) matches Some(id) ==> by_id(
            guides.rows,
            id as i64,
        ) is None,
    ensures
        named(
            guides.rows.push(guides.new_row(title, added_by, content, now)),
            strings::trim(title),
        ) == Some(guides.rows.len() as int),
{
    let row = guides.new_row(title, added_by, content, now);
    let after = guides.rows.push(row);
    strings::lemma_trim_twice(title);
    assert(after.last() == row);
    assert(after.drop_last() =~= guides.rows);
    assert(same_title(row.title, strings::trim(title)));
}

/// A guide that was removed is gone, and the others are still found by their
/// ids.
pub proof fn law_removed_guide_is_gone(guides: GuidesView, i: int, other: int)
    requires
        guides.wf(),
        0 <= i < guides.rows.len(),
        0 <= other < guides.rows.len(),
        other != i,
    ensures
        by_id(guides.rows.remove(i), guides.rows[i].guide_id) is None,
        by_id(guides.rows.remove(i), guides.rows[other].guide_id) is Some,
{
    let rows = guides.rows;
    let left = rows.remove(i);
    lemma_by_id(left, rows[i].guide_id);
    lemma_by_id(left, rows[other].guide_id);
    match by_id(left, rows[i].guide_id) {
        Some(k) => {
            if k < i {
                assert(left[k] == rows[k]);
            } else {
                assert(left[k] == rows[k + 1]);
            }
        },
        None => {},
    }
    if other < i {
        assert(left[other] == rows[other]);
    } else {
        assert(left[other - 1] == rows[other]);
    }
}

/// The only guide whose title starts like a query is the one that its start
/// names.
pub proof fn law_unique_start_is_found(guides: Seq<GuideRowView>, query: Seq<char>, i: int)
    requires
        only_start(guides, query, i),
    ensures
        by_start(guides, query) == Some(i),
{
    lemma_only_start(guides, query, i);
}

/// A query that two titles start like names no guide, unless it is an id or a
/// whole title.
pub proof fn law_shared_start_names_nothing(
    guides: Seq<GuideRowView>,
    query: Seq<char>,
    i: int,
    k: int,
)
    requires
        0 <= i < k < guides.len(),
        starts_like(guides[i].title, strings::trim(query)),
        starts_like(guides[k].title, strings::trim(query)),
    ensures
        by_start(guides, strings::trim(query)) is None,
        by_title(guides, strings::trim(query)) is None && (strings::parse_signed(
            strings::trim(query),
        ) matches Some(id) ==> by_id(guides, id as i64) is None) ==> named(guides, query) is None,
{
    lemma_shared_start(guides, strings::trim(query), i, k);
}

/// Fragments are considered from the best to the worst, those with equal
/// scores by their places in their guides.
pub proof fn law_search_best_first(chunks: Seq<ChunkView>, words: Set<Seq<char>>)
    requires
        forall|i: int|
            0 <= i < chunks.len() ==> score(#[trigger] chunks[i], words) <= i128::MAX && 0
                <= chunks[i].index <= i64::MAX,
    ensures
        forall|i: int, j: int|
            0 <= i < j < chunks.len() ==> {
                let a = #[trigger] best_first(chunks, words)[i];
                let b = #[trigger] best_first(chunks, words)[j];
                score(a, words) > score(b, words) || (score(a, words) == score(b, words)
                    && a.index <= b.index)
            },
{
    let n = chunks.len() as int;
    let keys = ranks(chunks, words);
    let before = sort::score_before(keys);
    let order = sort::ranked(n, before);
    let r = best_first(chunks, words);
    sort::lemma_score_by_key(keys);
    sort::law_ranked_permutation(n, before);
    sort::law_ranked_sorted(n, before);
    assert forall|i: int, j: int| 0 <= i < j < n implies ({
        let a = #[trigger] r[i];
        let b = #[trigger] r[j];
        score(a, words) > score(b, words) || (score(a, words) == score(b, words) && a.index
            <= b.index)
    }) by {
        let p = order[i];
        let q = order[j];
        assert(0 <= p < n && 0 <= q < n);
        assert(!before(q, p));
        assert(keys[p].0 == score(chunks[p], words) && keys[q].0 == score(chunks[q], words));
        assert(keys[p].1 == chunks[p].index && keys[q].1 == chunks[q].index);
    }
}

/// The guides that have to go are not younger than those that stay.
pub proof fn law_oldest_go_first(guides: Seq<GuideRowView>, n: int, gone: int, kept: int)
    requires
        0 <= gone < guides.len(),
        0 <= kept < guides.len(),
        among_oldest(guides, n, gone),
        !among_oldest(guides, n, kept),
    ensures
        guides[gone].created_at <= guides[kept].created_at,
{
    let count = guides.len() as int;
    let keys = ages(guides);
    let before = sort::score_before(keys);
    let order = sort::ranked(count, before);
    sort::lemma_score_by_key(keys);
    sort::law_ranked_permutation(count, before);
    sort::law_ranked_sorted(count, before);
    let p = choose|p: int| 0 <= p < n && p < guides.len() && #[trigger] order[p] == gone;
    assert(order.contains(kept));
    let q = order.index_of(kept);
    assert(order[q] == kept);
    assert(!(q < n));
    assert(p < q);
    assert(!before(kept, gone));
    assert(keys[gone].0 == -guides[gone].created_at && keys[kept].0
        == -guides[kept].created_at);
}

} // verus!
