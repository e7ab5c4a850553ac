//! That loading leaves no card out and that a search stops only for a reason.

use vstd::prelude::*;

use crate::db::titles;
use crate::knowledge::loader;
use crate::knowledge::loader::EntryReading;
use crate::knowledge::loader::FileReading;
use crate::knowledge::loader::KnowledgeCardView;
use crate::knowledge::loader::KnowledgeError;
use crate::knowledge::loader::RawContent;
use crate::knowledge::matcher;
use crate::strings;
use crate::strings::basics;
use crate::utils::mentions;

verus! {

/// A file whose name ends in `.json`.
pub open spec fn named_json(extension: Option<String>) -> bool {
    match extension {
        Some(e) => e@ == "json"@,
        None => false,
    }
}

/// The entry keeps the knowledge base from being loaded: it could not be looked
/// at, or it is a `.json` file that could not be read or holds no cards.
pub open spec fn stops_loading(e: EntryReading) -> bool {
    match e {
        EntryReading::Failed(_) => true,
        EntryReading::File { path, extension, reading } => named_json(extension) && !(
        reading is Cards),
    }
}

/// The cards of the entry, if it is a `.json` file that was read.
pub open spec fn held_by(e: EntryReading) -> Seq<KnowledgeCardView> {
    match e {
        EntryReading::Failed(_) => Seq::empty(),
        EntryReading::File { path, extension, reading } => match reading {
            FileReading::Cards(cards) => if named_json(extension) {
                loader::card_views(cards@)
            } else {
                Seq::empty()
            },
            _ => Seq::empty(),
        },
    }
}

/// The card has a title and a content that are not white space alone.
pub open spec fn full_card(c: KnowledgeCardView) -> bool {
    !basics::all_white(c.title) && !basics::all_white(c.content)
}

/// A card of one of the entries.
pub open spec fn held(entries: Seq<EntryReading>, c: KnowledgeCardView) -> bool {
    exists|e: int|
        0 <= e < entries.len() && held_by(#[trigger] entries[e]).contains(c)
}

/// Just the full cards of a list are used.
proof fn lemma_usable(cards: Seq<KnowledgeCardView>, c: KnowledgeCardView)
    ensures
        loader::usable_cards(cards).contains(c) <==> cards.contains(c) && full_card(c),
    decreases cards.len(),
{
    titles::lemma_blank_is_white(c.title);
    titles::lemma_blank_is_white(c.content);
    if cards.len() > 0 {
        let init = cards.drop_last();
        lemma_usable(init, c);
        let rest = loader::usable_cards(init);
        let r = loader::usable_cards(cards);
        if cards.contains(c) {
            let k = cards.index_of(c);
            if k < init.len() {
                assert(init[k] == c);
            }
        }
        if init.contains(c) {
            let k = init.index_of(c);
            assert(cards[k] == c);
        }
        if rest.contains(c) {
            let k = rest.index_of(c);
            assert(r[k] == c);
        }
        if loader::usable(cards.last()) {
            assert(r[rest.len() as int] == cards.last());
            assert(cards[cards.len() - 1] == cards.last());
        }
        if r.contains(c) {
            let k = r.index_of(c);
            if k < rest.len() {
                assert(rest[k] == c);
            } else {
                assert(c == cards.last());
                assert(cards[cards.len() - 1] == c);
            }
        }
    }
}

/// What the entries give.
proof fn lemma_all_cards(dir: Seq<char>, entries: Seq<EntryReading>, c: KnowledgeCardView)
    ensures
        loader::all_cards(dir, entries) is Ok <==> forall|e: int|
            0 <= e < entries.len() ==> !stops_loading(#[trigger] entries[e]),
        loader::all_cards(dir, entries) matches Ok(cards) ==> (cards.contains(c) <==> held(
            entries,
            c,
        ) && full_card(c)),
    decreases entries.len(),
{
    if entries.len() > 0 {
        let init = entries.drop_last();
        let last = entries.last();
        lemma_all_cards(dir, init, c);
        assert(entries[entries.len() - 1] == last);
        if forall|e: int| 0 <= e < init.len() ==> !stops_loading(#[trigger] init[e]) {
            assert forall|e: int| 0 <= e < entries.len() - 1 implies !stops_loading(
                #[trigger] entries[e],
            ) by {
                assert(init[e] == entries[e]);
            }
        } else {
            let e = choose|e: int| 0 <= e < init.len() && stops_loading(#[trigger] init[e]);
            assert(entries[e] == init[e]);
        }
        match loader::all_cards(dir, entries) {
            Ok(cards) => {
                let before = loader::all_cards(dir, init)->Ok_0;
                let own = loader::entry_cards(dir, last)->Ok_0;
                assert(cards == before + own);
                lemma_usable(held_by(last), c);
                assert(own =~= loader::usable_cards(held_by(last)));
                if held(init, c) {
                    let e = choose|e: int|
                        0 <= e < init.len() && held_by(#[trigger] init[e]).contains(c);
                    assert(entries[e] == init[e]);
                    assert(held(entries, c));
                }
                if held_by(last).contains(c) {
                    assert(held(entries, c));
                }
                if held(entries, c) {
                    let e = choose|e: int|
                        0 <= e < entries.len() && held_by(#[trigger] entries[e]).contains(c);
                    if e < init.len() {
                        assert(init[e] == entries[e]);
                        assert(held(init, c));
                    }
                }
                if before.contains(c) {
                    let k = before.index_of(c);
                    assert(cards[k] == c);
                }
                if own.contains(c) {
                    let k = own.index_of(c);
                    assert(cards[before.len() + k] == c);
                }
                if cards.contains(c) {
                    let k = cards.index_of(c);
                    if k < before.len() {
                        assert(before[k] == c);
                    } else {
                        assert(own[k - before.len()] == c);
                    }
                }
            },
            Err(_) => {},
        }
    } else {
        assert(!held(entries, c));
    }
}

/// The knowledge base is loaded unless an entry could not be looked at or a
/// `.json` file could not be read as cards. It then holds just the cards of
/// `.json` files that have a title and a content.
pub proof fn law_loaded_cards(dir: Seq<char>, entries: Seq<EntryReading>, c: KnowledgeCardView)
    ensures
        loader::all_cards(dir, entries) is Ok <==> forall|e: int|
            0 <= e < entries.len() ==> !stops_loading(#[trigger] entries[e]),
        loader::all_cards(dir, entries) matches Ok(cards) ==> (loader::by_title(cards).contains(c)
            <==> held(entries, c) && full_card(c)),
{
    lemma_all_cards(dir, entries, c);
    match loader::all_cards(dir, entries) {
        Ok(cards) => {
            loader::law_cards_sorted(cards);
            let r = loader::by_title(cards);
            cards.to_multiset_ensures();
            r.to_multiset_ensures();
            assert(cards.contains(c) <==> cards.to_multiset().count(c) > 0);
            assert(r.contains(c) <==> r.to_multiset().count(c) > 0);
        },
        Err(_) => {},
    }
}

/// The lines of a content are those that it was put together from.
pub proof fn law_lines_of_a_content(lines: Vec<String>)
    requires
        lines@.len() > 0,
        forall|i: int|
            0 <= i < lines@.len() ==> mentions::lacks((#[trigger] strings::views(lines@)[i]), '\n'),
    ensures
        strings::split_str(RawContent::Lines(lines).text(), seq!['\n']) == strings::views(lines@),
{
    reveal_strlit("\n");
    assert("\n"@ =~= seq!['\n']);
    mentions::lemma_split_joined(strings::views(lines@), seq!['\n']);
}

/// What is given is as long as it can be.
proof fn lemma_chosen_stops(
    cards: Seq<KnowledgeCardView>,
    order: Seq<int>,
    i: int,
    used: int,
    taken: int,
    top_n: int,
    max: int,
)
    requires
        0 <= i <= order.len(),
        taken >= 0,
    ensures
        ({
            let r = matcher::chosen(cards, order, i, used, taken, top_n, max);
            i + r.len() < order.len() && taken + r.len() < top_n ==> {
                let next = cards[order[i + r.len()]];
                taken + r.len() > 0 && used + matcher::total_cost(r) + next.title.len()
                    + next.content.len() > max
            }
        }),
    decreases order.len() - i,
{
    if i < order.len() && taken < top_n {
        let c = cards[order[i]];
        let filled = used + matcher::cost(c);
        if !(filled > max && taken > 0) {
            lemma_chosen_stops(cards, order, i + 1, filled, taken + 1, top_n, max);
            let rest = matcher::chosen(cards, order, i + 1, filled, taken + 1, top_n, max);
            let r = matcher::chosen(cards, order, i, used, taken, top_n, max);
            let first = (c.title, c.content);
            assert(r =~= seq![first] + rest);
            assert(r.drop_first() =~= rest);
        } else {
            assert(matcher::total_cost(Seq::empty()) == 0);
        }
    } else {
        assert(matcher::total_cost(Seq::empty()) == 0);
    }
}

/// A search gives the cards from the best on and stops only if it has given as
/// many as asked for, if there is no other candidate, or if the next one does
/// not fit: title and content count. The first is given whatever its size.
pub proof fn law_search_stops_for_a_reason(
    cards: Seq<KnowledgeCardView>,
    query: Seq<char>,
    top_n: int,
    max: int,
)
    ensures
        ({
            let r = matcher::matches_for(cards, query, top_n, max);
            let order = matcher::best_first(matcher::scores(query, cards));
            r.len() < order.len() && r.len() < top_n ==> {
                let next = cards[order[r.len() as int]];
                r.len() > 0 && matcher::total_cost(r) + next.title.len() + next.content.len() > max
            }
        }),
{
    lemma_chosen_stops(
        cards,
        matcher::best_first(matcher::scores(query, cards)),
        0,
        0,
        0,
        top_n,
        max,
    );
}

/// The size of what is given counts every character of titles and contents.
pub proof fn law_sizes_count_all(hits: Seq<(Seq<char>, Seq<char>)>)
    ensures
        matcher::total_cost(hits) == hits.map_values(
            |p: (Seq<char>, Seq<char>)| p.0 + p.1,
        ).flatten().len(),
    decreases hits.len(),
{
    let f = |p: (Seq<char>, Seq<char>)| p.0 + p.1;
    let all = hits.map_values(f);
    if hits.len() == 0 {
        assert(all =~= Seq::<Seq<char>>::empty());
        assert(Seq::<Seq<char>>::empty().flatten() =~= Seq::<char>::empty());
    } else {
        law_sizes_count_all(hits.drop_first());
        assert(hits.drop_first().map_values(f) =~= all.drop_first());
        assert(all =~= seq![all[0]] + all.drop_first());
        vstd::seq_lib::lemma_flatten_concat(seq![all[0]], all.drop_first());
        seq![all[0]].lemma_flatten_one_element();
    }
}

/// Entries that can be read do not stop the loading.
proof fn lemma_read_so_far(dir: Seq<char>, entries: Seq<EntryReading>)
    requires
        forall|e: int| 0 <= e < entries.len() ==> !stops_loading(#[trigger] entries[e]),
    ensures
        loader::all_cards(dir, entries) is Ok,
    decreases entries.len(),
{
    if entries.len() > 0 {
        let init = entries.drop_last();
        assert forall|e: int| 0 <= e < init.len() implies !stops_loading(#[trigger] init[e]) by {
            assert(init[e] == entries[e]);
        }
        lemma_read_so_far(dir, init);
        assert(!stops_loading(entries[entries.len() - 1]));
    }
}

/// The first entry that stops the loading is the one that is told of: the
/// directory with the reason if the entry could not be looked at, the path with
/// the reason if the file could not be read or held no cards, and which of the
/// two it was.
pub proof fn law_first_failure(
    dir: Seq<char>,
    before: Seq<EntryReading>,
    e: EntryReading,
    after: Seq<EntryReading>,
)
    requires
        forall|i: int| 0 <= i < before.len() ==> !stops_loading(#[trigger] before[i]),
        stops_loading(e),
    ensures
        loader::all_cards(dir, before + seq![e] + after) == Err::<
            Seq<KnowledgeCardView>,
            (Seq<char>, Seq<char>, bool),
        >(
            match e {
                EntryReading::Failed(source) => (dir, source@, false),
                EntryReading::File { path, extension, reading } => match reading {
                    FileReading::Cards(_) => (path@, Seq::empty(), false),
                    FileReading::Unreadable(source) => (path@, source@, false),
                    FileReading::Broken(source) => (path@, source@, true),
                },
            },
        ),
    decreases after.len(),
{
    let all = before + seq![e] + after;
    if after.len() == 0 {
        assert(all.drop_last() =~= before);
        assert(all.last() == e);
        lemma_read_so_far(dir, before);
    } else {
        law_first_failure(dir, before, e, after.drop_last());
        assert(all.drop_last() =~= before + seq![e] + after.drop_last());
    }
}

/// What the errors of loading say.
pub proof fn law_loading_errors(e: KnowledgeError)
    ensures
        e matches KnowledgeError::MissingDir(dir) ==> e.message() == "папка базы знаний «"@ + dir@
            + "» не найдена"@,
        e matches KnowledgeError::Io { path, source } ==> e.message() == "ошибка чтения "@ + path@
            + ": "@ + source@,
        e matches KnowledgeError::Parse { path, source } ==> e.message() == "битый JSON в "@ + path@
            + ": "@ + source@,
{
}

} // verus!
