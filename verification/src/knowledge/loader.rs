//! Cards of the knowledge base.

use vstd::prelude::*;

use crate::sort;
use crate::strings;

verus! {

/// A card of the knowledge base.
#[derive(Debug)]
pub struct KnowledgeCard {
    pub title: String,
    pub keys: Vec<String>,
    pub content: String,
}

/// What a [`KnowledgeCard`] holds.
pub struct KnowledgeCardView {
    pub title: Seq<char>,
    pub keys: Seq<Seq<char>>,
    pub content: Seq<char>,
}

impl View for KnowledgeCard {
    type V = KnowledgeCardView;

    open spec fn view(&self) -> KnowledgeCardView {
        KnowledgeCardView {
            title: self.title@,
            keys: strings::views(self.keys@),
            content: self.content@,
        }
    }
}

/// A copy of a list of texts.
fn copied(v: &Vec<String>) -> (r: Vec<String>)
    ensures
        strings::views(r@) == strings::views(v@),
{
    let ghost all = strings::views(v@);
    let mut r: Vec<String> = Vec::new();
    let mut i: usize = 0;
    assert(strings::views(r@) =~= all.take(0));
    while i < v.len()
        invariant
            i <= v@.len(),
            all == strings::views(v@),
            strings::views(r@) == all.take(i as int),
        decreases v@.len() - i,
    {
        let t = v[i].clone();
        proof {
            strings::lemma_views_push(r@, t);
            assert(all.take(i as int).push(t@) =~= all.take(i + 1));
        }
        r.push(t);
        i += 1;
    }
    assert(all.take(all.len() as int) =~= all);
    r
}

impl Clone for KnowledgeCard {
    fn clone(&self) -> (r: KnowledgeCard)
        ensures
            r@ == self@,
    {
        KnowledgeCard {
            title: self.title.clone(),
            keys: copied(&self.keys),
            content: self.content.clone(),
        }
    }
}

/// The content of a card as it is written: a text or a list of lines.
#[derive(Debug)]
pub enum RawContent {
    Single(String),
    Lines(Vec<String>),
}

impl RawContent {
    /// The content as one text.
    pub open spec fn text(self) -> Seq<char> {
        match self {
            RawContent::Single(s) => s@,
            RawContent::Lines(lines) => strings::join(strings::views(lines@), "\n"@),
        }
    }

    /// See [`RawContent::text`].
    pub fn into_text(self) -> (r: String)
        ensures
            r@ == self.text(),
    {
        match self {
            RawContent::Single(s) => s,
            RawContent::Lines(lines) => strings::join_all(&lines, "\n"),
        }
    }
}

/// The cards of the knowledge base.
#[derive(Debug)]
pub struct KnowledgeBase {
    pub cards: Vec<KnowledgeCard>,
}

/// The views of a list of cards.
pub open spec fn card_views(v: Seq<KnowledgeCard>) -> Seq<KnowledgeCardView> {
    v.map_values(|c: KnowledgeCard| c@)
}

impl View for KnowledgeBase {
    type V = Seq<KnowledgeCardView>;

    open spec fn view(&self) -> Seq<KnowledgeCardView> {
        card_views(self.cards@)
    }
}

impl Default for KnowledgeBase {
    fn default() -> (r: KnowledgeBase)
        ensures
            r@ == Seq::<KnowledgeCardView>::empty(),
    {
        let r = KnowledgeBase { cards: Vec::new() };
        assert(r@ =~= Seq::<KnowledgeCardView>::empty());
        r
    }
}

/// Why the knowledge base could not be loaded.
#[derive(Debug)]
pub enum KnowledgeError {
    /// There is no such directory.
    MissingDir(String),
    /// A file or the directory could not be read.
    Io { path: String, source: String },
    /// A file holds no card.
    Parse { path: String, source: String },
}

impl KnowledgeError {
    /// The message about the error.
    pub open spec fn message(self) -> Seq<char> {
        match self {
            KnowledgeError::MissingDir(dir) => "папка базы знаний «"@ + dir@ + "» не найдена"@,
            KnowledgeError::Io { path, source } => "ошибка чтения "@ + path@ + ": "@ + source@,
            KnowledgeError::Parse { path, source } => "битый JSON в "@ + path@ + ": "@ + source@,
        }
    }

    /// See [`KnowledgeError::message`].
    pub fn to_string(&self) -> (r: String)
        ensures
            r@ == self.message(),
    {
        match self {
            KnowledgeError::MissingDir(dir) => {
                let mut out = "папка базы знаний «".to_owned();
                out.append(dir.as_str());
                out.append("» не найдена");
                out
            },
            KnowledgeError::Io { path, source } => {
                let mut out = "ошибка чтения ".to_owned();
                out.append(path.as_str());
                out.append(": ");
                out.append(source.as_str());
                out
            },
            KnowledgeError::Parse { path, source } => {
                let mut out = "битый JSON в ".to_owned();
                out.append(path.as_str());
                out.append(": ");
                out.append(source.as_str());
                out
            },
        }
    }
}

/// What came of reading a file of cards.
#[derive(Debug)]
pub enum FileReading {
    /// The cards of the file.
    Cards(Vec<KnowledgeCard>),
    /// The file could not be read.
    Unreadable(String),
    /// The file holds no card.
    Broken(String),
}

/// What came of reading an entry of the directory.
#[derive(Debug)]
pub enum EntryReading {
    /// The entry could not be read.
    Failed(String),
    /// A file: its path, the extension of its name and what it holds.
    File { path: String, extension: Option<String>, reading: FileReading },
}

/// What came of reading the directory.
#[derive(Debug)]
pub enum DirReading {
    /// There is no such directory.
    Missing,
    /// The directory could not be read.
    Failed(String),
    /// The entries of the directory.
    Entries(Vec<EntryReading>),
}

/// A file with this extension holds cards.
pub open spec fn card_file(extension: Option<Seq<char>>) -> bool {
    extension == Some("json"@)
}

/// See [`card_file`].
pub fn is_card_file(extension: Option<&str>) -> (r: bool)
    ensures
        r == card_file(
            match extension {
                Some(e) => Some(e@),
                None => None,
            },
        ),
{
    match extension {
        Some(e) => strings::str_eq(e, "json"),
        None => false,
    }
}

/// The card has a title and a content.
pub open spec fn usable(c: KnowledgeCardView) -> bool {
    !strings::blank(c.title) && !strings::blank(c.content)
}

/// The usable ones of a list of cards.
pub open spec fn usable_cards(cards: Seq<KnowledgeCardView>) -> Seq<KnowledgeCardView>
    decreases cards.len(),
{
    if cards.len() == 0 {
        Seq::empty()
    } else {
        let rest = usable_cards(cards.drop_last());
        if usable(cards.last()) {
            rest.push(cards.last())
        } else {
            rest
        }
    }
}

/// The usable cards of an entry of the directory, or the error that it gives.
pub open spec fn entry_cards(dir: Seq<char>, e: EntryReading) -> Result<
    Seq<KnowledgeCardView>,
    (Seq<char>, Seq<char>, bool),
> {
    match e {
        EntryReading::Failed(source) => Err((dir, source@, false)),
        EntryReading::File { path, extension, reading } => if !card_file(
            match extension {
                Some(x) => Some(x@),
                None => None,
            },
        ) {
            Ok(Seq::empty())
        } else {
            match reading {
                FileReading::Cards(cards) => Ok(usable_cards(card_views(cards@))),
                FileReading::Unreadable(source) => Err((path@, source@, false)),
                FileReading::Broken(source) => Err((path@, source@, true)),
            }
        },
    }
}

/// The usable cards of the entries, or the first error: the path, the cause
/// and whether the file is broken.
pub open spec fn all_cards(dir: Seq<char>, entries: Seq<EntryReading>) -> Result<
    Seq<KnowledgeCardView>,
    (Seq<char>, Seq<char>, bool),
>
    decreases entries.len(),
{
    if entries.len() == 0 {
        Ok(Seq::empty())
    } else {
        match all_cards(dir, entries.drop_last()) {
            Err(e) => Err(e),
            Ok(before) => match entry_cards(dir, entries.last()) {
                Err(e) => Err(e),
                Ok(cards) => Ok(before + cards),
            },
        }
    }
}

/// The keys by which cards are ordered.
pub open spec fn card_order(cards: Seq<KnowledgeCardView>) -> Seq<Seq<char>> {
    cards.map_values(|c: KnowledgeCardView| strings::lowercase(c.title))
}

/// The cards in the order of their lower-case titles.
pub open spec fn by_title(cards: Seq<KnowledgeCardView>) -> Seq<KnowledgeCardView> {
    sort::ranked(cards.len() as int, sort::text_before(card_order(cards))).map_values(
        |i: int| cards[i],
    )
}

/// The error is about the path with the cause.
pub open spec fn error_is(e: KnowledgeError, path: Seq<char>, source: Seq<char>, broken: bool) -> bool {
    match e {
        KnowledgeError::MissingDir(_) => false,
        KnowledgeError::Io { path: p, source: s } => !broken && p@ == path && s@ == source,
        KnowledgeError::Parse { path: p, source: s } => broken && p@ == path && s@ == source,
    }
}

/// Adds the usable ones of a list of cards.
fn push_usable(out: &mut Vec<KnowledgeCard>, cards: &Vec<KnowledgeCard>)
    ensures
        card_views(final(out)@) == card_views(old(out)@) + usable_cards(card_views(cards@)),
{
    let ghost all = card_views(cards@);
    let ghost before = card_views(out@);
    let mut i: usize = 0;
    assert(all.take(0) =~= Seq::<KnowledgeCardView>::empty());
    assert(before + usable_cards(all.take(0)) =~= before);
    while i < cards.len()
        invariant
            i <= cards@.len(),
            all == card_views(cards@),
            card_views(out@) == before + usable_cards(all.take(i as int)),
        decreases cards@.len() - i,
    {
        let ghost known = card_views(out@);
        let c = &cards[i];
        proof {
            assert(all.take(i + 1).drop_last() =~= all.take(i as int));
            assert(all.take(i + 1).last() == c@);
        }
        if !strings::is_blank(c.title.as_str()) && !strings::is_blank(c.content.as_str()) {
            let card = c.clone();
            out.push(card);
            assert(card_views(out@) =~= known.push(card@));
        }
        assert(card_views(out@) =~= before + usable_cards(all.take(i + 1)));
        i += 1;
    }
    assert(all.take(all.len() as int) =~= all);
}

/// Puts cards into the order of their lower-case titles: see [`by_title`].
fn sorted(cards: &Vec<KnowledgeCard>) -> (r: Vec<KnowledgeCard>)
    ensures
        card_views(r@) == by_title(card_views(cards@)),
{
    let ghost all = card_views(cards@);
    let mut keys: Vec<String> = Vec::new();
    let mut i: usize = 0;
    assert(strings::views(keys@) =~= card_order(all).take(0));
    while i < cards.len()
        invariant
            i <= cards@.len(),
            all == card_views(cards@),
            strings::views(keys@) == card_order(all).take(i as int),
        decreases cards@.len() - i,
    {
        let key = cards[i].title.as_str().to_lowercase();
        proof {
            strings::lemma_views_push(keys@, key);
            assert(card_order(all)[i as int] == key@);
            assert(card_order(all).take(i as int).push(key@) =~= card_order(all).take(i + 1));
        }
        keys.push(key);
        i += 1;
    }
    assert(card_order(all).take(all.len() as int) =~= card_order(all));
    assert(keys@.len() == strings::views(keys@).len());
    let order = sort::rank_texts(&keys);
    let ghost ranking = sort::positions(order@);
    let ghost goal = by_title(all);
    let mut r: Vec<KnowledgeCard> = Vec::new();
    let mut p: usize = 0;
    assert(card_views(r@) =~= goal.take(0));
    while p < order.len()
        invariant
            p <= order@.len() == cards@.len(),
            all == card_views(cards@),
            ranking == sort::positions(order@),
            goal == ranking.map_values(|i: int| all[i]),
            forall|k: int| 0 <= k < order@.len() ==> #[trigger] order@[k] < cards@.len(),
            card_views(r@) == goal.take(p as int),
        decreases order@.len() - p,
    {
        let at: usize = order[p];
        let card = cards[at].clone();
        let ghost known = card_views(r@);
        r.push(card);
        proof {
            assert(card_views(r@) =~= known.push(card@));
            assert(ranking[p as int] == at as int);
            assert(goal[p as int] == all[at as int]);
            assert(goal.take(p as int).push(card@) =~= goal.take(p + 1));
        }
        p += 1;
    }
    assert(goal.take(goal.len() as int) =~= goal);
    r
}

impl KnowledgeBase {
    /// The knowledge base out of what came of reading a directory: the usable
    /// cards of its files in the order of their titles, or the first error.
    pub fn load(dir: &str, reading: DirReading) -> (r: Result<KnowledgeBase, KnowledgeError>)
        ensures
            match reading {
                DirReading::Missing => r matches Err(KnowledgeError::MissingDir(d)) && d@ == dir@,
                DirReading::Failed(source) => r matches Err(e) && error_is(
                    e,
                    dir@,
                    source@,
                    false,
                ),
                DirReading::Entries(entries) => match all_cards(dir@, entries@) {
                    Ok(cards) => r matches Ok(base) && base@ == by_title(cards),
                    Err((path, source, broken)) => r matches Err(e) && error_is(
                        e,
                        path,
                        source,
                        broken,
                    ),
                },
            },
    {
        match reading {
            DirReading::Missing => Err(KnowledgeError::MissingDir(dir.to_owned())),
            DirReading::Failed(source) => Err(
                KnowledgeError::Io { path: dir.to_owned(), source: source },
            ),
            DirReading::Entries(entries) => KnowledgeBase::from_entries(dir, &entries),
        }
    }

    /// The knowledge base out of the entries of a directory.
    fn from_entries(dir: &str, entries: &Vec<EntryReading>) -> (r: Result<
        KnowledgeBase,
        KnowledgeError,
    >)
        ensures
            match all_cards(dir@, entries@) {
                Ok(cards) => r matches Ok(base) && base@ == by_title(cards),
                Err((path, source, broken)) => r matches Err(e) && error_is(
                    e,
                    path,
                    source,
                    broken,
                ),
            },
    {
        let mut cards: Vec<KnowledgeCard> = Vec::new();
        let mut i: usize = 0;
        assert(entries@.take(0) =~= Seq::<EntryReading>::empty());
        assert(card_views(cards@) =~= Seq::<KnowledgeCardView>::empty());
        while i < entries.len()
            invariant
                i <= entries@.len(),
                all_cards(dir@, entries@.take(i as int)) == Ok::<
                    Seq<KnowledgeCardView>,
                    (Seq<char>, Seq<char>, bool),
                >(card_views(cards@)),
            decreases entries@.len() - i,
        {
            let ghost known = card_views(cards@);
            proof {
                assert(entries@.take(i + 1).drop_last() =~= entries@.take(i as int));
                assert(entries@.take(i + 1).last() == entries@[i as int]);
            }
            match &entries[i] {
                EntryReading::Failed(source) => {
                    proof {
                        lemma_first_error(dir@, entries@, i + 1);
                    }
                    return Err(
                        KnowledgeError::Io { path: dir.to_owned(), source: source.clone() },
                    );
                },
                EntryReading::File { path, extension, reading } => {
                    let wanted: bool = match extension {
                        Some(e) => is_card_file(Some(e.as_str())),
                        None => false,
                    };
                    if !wanted {
                        assert(known + Seq::<KnowledgeCardView>::empty() =~= known);
                    } else {
                        match reading {
                            FileReading::Cards(list) => {
                                push_usable(&mut cards, list);
                            },
                            FileReading::Unreadable(source) => {
                                proof {
                                    lemma_first_error(dir@, entries@, i + 1);
                                }
                                return Err(
                                    KnowledgeError::Io {
                                        path: path.clone(),
                                        source: source.clone(),
                                    },
                                );
                            },
                            FileReading::Broken(source) => {
                                proof {
                                    lemma_first_error(dir@, entries@, i + 1);
                                }
                                return Err(
                                    KnowledgeError::Parse {
                                        path: path.clone(),
                                        source: source.clone(),
                                    },
                                );
                            },
                        }
                    }
                },
            }
            i += 1;
        }
        assert(entries@.take(entries@.len() as int) =~= entries@);
        Ok(KnowledgeBase { cards: sorted(&cards) })
    }
}

/// An error among the first entries is the error of all.
proof fn lemma_first_error(dir: Seq<char>, entries: Seq<EntryReading>, k: int)
    requires
        0 <= k <= entries.len(),
        all_cards(dir, entries.take(k)) is Err,
    ensures
        all_cards(dir, entries) == all_cards(dir, entries.take(k)),
    decreases entries.len(),
{
    if k < entries.len() {
        let init = entries.drop_last();
        assert(init.take(k) =~= entries.take(k));
        lemma_first_error(dir, init, k);
    } else {
        assert(entries.take(k) =~= entries);
    }
}

/// All cards of a list are usable.
pub open spec fn all_usable(cards: Seq<KnowledgeCardView>) -> bool {
    forall|i: int| 0 <= i < cards.len() ==> usable(#[trigger] cards[i])
}

/// What is left of a list is usable.
proof fn lemma_usable_cards(cards: Seq<KnowledgeCardView>)
    ensures
        all_usable(usable_cards(cards)),
    decreases cards.len(),
{
    if cards.len() > 0 {
        lemma_usable_cards(cards.drop_last());
        let rest = usable_cards(cards.drop_last());
        let r = usable_cards(cards);
        assert forall|i: int| 0 <= i < r.len() implies usable(#[trigger] r[i]) by {
            if i < rest.len() {
                assert(r[i] == rest[i]);
            }
        }
    }
}

/// What the entries of a directory give is usable.
proof fn lemma_all_cards_usable(dir: Seq<char>, entries: Seq<EntryReading>)
    ensures
        match all_cards(dir, entries) {
            Ok(cards) => all_usable(cards),
            Err(_) => true,
        },
    decreases entries.len(),
{
    if entries.len() > 0 {
        lemma_all_cards_usable(dir, entries.drop_last());
        match entries.last() {
            EntryReading::File { path, extension, reading } => match reading {
                FileReading::Cards(cards) => {
                    lemma_usable_cards(card_views(cards@));
                },
                _ => {},
            },
            _ => {},
        }
    }
}

/// Every card of a knowledge base that was loaded has a title and a content.
pub proof fn law_loaded_cards_usable(dir: Seq<char>, entries: Seq<EntryReading>)
    ensures
        match all_cards(dir, entries) {
            Ok(cards) => all_usable(by_title(cards)),
            Err(_) => true,
        },
{
    lemma_all_cards_usable(dir, entries);
    match all_cards(dir, entries) {
        Ok(cards) => {
            let n = cards.len() as int;
            let before = sort::text_before(card_order(cards));
            sort::law_ranked_permutation(n, before);
            assert forall|i: int| 0 <= i < by_title(cards).len() implies usable(
                #[trigger] by_title(cards)[i],
            ) by {
                let x = sort::ranked(n, before)[i];
                assert(0 <= x < n);
                assert(by_title(cards)[i] == cards[x]);
            }
        },
        Err(_) => {},
    }
}

/// The first cards in any order are the first cards.
proof fn lemma_ranked_cards(
    cards: Seq<KnowledgeCardView>,
    k: int,
    before: spec_fn(int, int) -> bool,
)
    requires
        0 <= k <= cards.len(),
    ensures
        sort::ranked(k, before).map_values(|i: int| cards[i]).to_multiset() == cards.take(
            k,
        ).to_multiset(),
    decreases k,
{
    let card = |i: int| cards[i];
    if k == 0 {
        assert(sort::ranked(0, before).map_values(card) =~= cards.take(0));
    } else {
        lemma_ranked_cards(cards, k - 1, before);
        let order = sort::ranked(k - 1, before);
        let p = sort::slot(order, k - 1, before);
        sort::lemma_slot_bounds(order, k - 1, before);
        let c = cards[k - 1];
        let fewer = order.map_values(card);
        let all = sort::ranked(k, before).map_values(card);
        assert(all =~= fewer.insert(p, c));
        assert(all.remove(p) =~= fewer);
        assert(all[p] == c);
        all.to_multiset_ensures();
        assert(all.contains(c));
        assert(all.to_multiset() =~= fewer.to_multiset().insert(c));
        cards.take(k - 1).to_multiset_ensures();
        assert(cards.take(k) =~= cards.take(k - 1).push(c));
    }
}

/// Loading keeps the cards, each as often as it is there, and puts the titles in
/// order.
pub proof fn law_cards_sorted(cards: Seq<KnowledgeCardView>)
    ensures
        by_title(cards).len() == cards.len(),
        by_title(cards).to_multiset() == cards.to_multiset(),
        forall|i: int, j: int|
            0 <= i < j < cards.len() ==> !sort::text_less(
                strings::lowercase((#[trigger] by_title(cards)[j]).title),
                strings::lowercase((#[trigger] by_title(cards)[i]).title),
            ),
{
    let n = cards.len() as int;
    let keys = card_order(cards);
    let before = sort::text_before(keys);
    let order = sort::ranked(n, before);
    sort::lemma_text_by_key(keys);
    sort::law_ranked_permutation(n, before);
    sort::law_ranked_sorted(n, before);
    lemma_ranked_cards(cards, n, before);
    assert(cards.take(n) =~= cards);
    assert(by_title(cards) =~= order.map_values(|i: int| cards[i]));
    assert forall|i: int, j: int| 0 <= i < j < cards.len() implies !sort::text_less(
        strings::lowercase((#[trigger] by_title(cards)[j]).title),
        strings::lowercase((#[trigger] by_title(cards)[i]).title),
    ) by {
        assert(0 <= order[i] < n && 0 <= order[j] < n);
        assert(!before(order[j], order[i]));
        assert(by_title(cards)[j] == cards[order[j]]);
        assert(by_title(cards)[i] == cards[order[i]]);
    }
}

} // verus!
