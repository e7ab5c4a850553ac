//! What stands in a request to the model, and where.

use vstd::prelude::*;

use crate::llm::prompt;
use crate::storage::Role;
use crate::storage::StoredMessageView;
use crate::storage::UserStateView;
use crate::strings;
use crate::strings::basics;

verus! {

/// The tag of every participant stands on a line of its own.
proof fn lemma_tag_lines(states: Seq<UserStateView>, i: int) -> (parts: (Seq<char>, Seq<char>))
    requires
        0 <= i < states.len(),
    ensures
        prompt::tag_lines(states) == parts.0 + states[i].tag().push('\n') + parts.1,
    decreases states.len(),
{
    let init = states.drop_last();
    let own = states.last().tag().push('\n');
    assert(prompt::tag_lines(states) =~= prompt::tag_lines(init) + own);
    if i == states.len() - 1 {
        let e = Seq::<char>::empty();
        assert(prompt::tag_lines(init) + own + e =~= prompt::tag_lines(init) + own);
        (prompt::tag_lines(init), e)
    } else {
        let (a, b) = lemma_tag_lines(init, i);
        assert(init[i] == states[i]);
        let mine = states[i].tag().push('\n');
        assert(a + mine + b + own =~= a + mine + (b + own));
        (a, b + own)
    }
}

/// The system message starts with the prompt, without the white space around it.
/// It holds what the knowledge base has to say and the tag of every participant.
/// If there is neither, it is the prompt alone.
pub proof fn law_system_message(
    system_prompt: Seq<char>,
    knowledge: Seq<char>,
    states: Seq<UserStateView>,
    i: int,
)
    ensures
        ({
            let s = prompt::system_text(system_prompt, knowledge, states);
            &&& strings::trim(system_prompt).is_prefix_of(s)
            &&& strings::blank(knowledge) && states.len() == 0 ==> s == strings::trim(system_prompt)
            &&& !strings::blank(knowledge) ==> strings::occurs(
                s,
                "\n\n— База знаний —\n"@ + strings::trim(knowledge) + "\n— Конец базы знаний —"@,
            )
            &&& 0 <= i < states.len() ==> strings::occurs(s, states[i].tag())
            &&& states.len() > 0 ==> strings::occurs(
                s,
                "Учитывай текущие мета-состояния участников выше. При ответе актуализируй служебный тег <user:...> в самом конце ответа."@,
            )
        }),
{
    let head = strings::trim(system_prompt);
    let middle = prompt::knowledge_part(knowledge);
    let end = prompt::states_part(states);
    let s = prompt::system_text(system_prompt, knowledge, states);
    let e = Seq::<char>::empty();
    assert(s == head + middle + end);
    assert(s.subrange(0, head.len() as int) =~= head);
    if strings::blank(knowledge) && states.len() == 0 {
        assert(head + e + e =~= head);
    }
    if !strings::blank(knowledge) {
        basics::law_occurs(head, middle, end);
    }
    if states.len() > 0 {
        let note =
            "Учитывай текущие мета-состояния участников выше. При ответе актуализируй служебный тег <user:...> в самом конце ответа."@;
        let title = "\n\n— Контекст участников (user context) —\n"@;
        let lines = prompt::tag_lines(states);
        assert(end == title + lines + note);
        assert(s =~= (head + middle + title + lines) + note + e);
        basics::law_occurs(head + middle + title + lines, note, e);
        if 0 <= i < states.len() {
            let (a, b) = lemma_tag_lines(states, i);
            let tag = states[i].tag();
            let feed = seq!['\n'];
            assert(tag.push('\n') =~= tag + feed);
            assert(s =~= (head + middle + title + a) + tag + (feed + b + note));
            basics::law_occurs(head + middle + title + a, tag, feed + b + note);
        }
    }
}

/// The text of the knowledge base holds the title and the content of every card.
pub proof fn law_knowledge_text(hits: Seq<(Seq<char>, Seq<char>)>, i: int)
    requires
        0 <= i < hits.len(),
    ensures
        strings::occurs(
            prompt::knowledge_text(hits),
            "▪ "@ + hits[i].0 + "\n"@ + hits[i].1 + "\n"@,
        ),
    decreases hits.len(),
{
    let init = hits.drop_last();
    let before = prompt::knowledge_text(init);
    let gap = if before.len() > 0 {
        before.push('\n')
    } else {
        before
    };
    let e = Seq::<char>::empty();
    let last = "▪ "@ + hits.last().0 + "\n"@ + hits.last().1 + "\n"@;
    let all = prompt::knowledge_text(hits);
    assert(all =~= gap + last + e);
    if i == hits.len() - 1 {
        basics::law_occurs(gap, last, e);
    } else {
        law_knowledge_text(init, i);
        assert(init[i] == hits[i]);
        let mine = "▪ "@ + hits[i].0 + "\n"@ + hits[i].1 + "\n"@;
        basics::law_occurs(before, mine, e);
        let k = strings::find(before, mine)->0;
        let behind = before.skip(k + mine.len());
        assert(before == before.take(k) + mine + behind);
        if before.len() > 0 {
            let more = behind + seq!['\n'] + last;
            assert(all =~= before.take(k) + mine + more);
            basics::law_occurs(before.take(k), mine, more);
        } else {
            let more = behind + last;
            assert(all =~= before.take(k) + mine + more);
            basics::law_occurs(before.take(k), mine, more);
        }
    }
}

/// A message of the history reaches the model under its role: an answer as it is,
/// a message of a user behind the name and, where it is known, the id of its
/// author.
pub proof fn law_history_messages(m: StoredMessageView)
    ensures
        ({
            let said = prompt::history_message(m);
            let id = strings::decimal_int(m.user_id as int);
            &&& m.role == Role::Assistant ==> said.role == "assistant"@ && said.content == m.content
            &&& m.role == Role::User ==> said.role == "user"@
            &&& m.role == Role::User && m.display_name.len() > 0 && m.user_id != 0 ==> said.content
                == m.display_name + " (id="@ + id + "): "@ + m.content
            &&& m.role == Role::User && m.display_name.len() > 0 && m.user_id == 0 ==> said.content
                == m.display_name + ": "@ + m.content
            &&& m.role == Role::User && m.display_name.len() == 0 ==> said.content == m.content
        }),
{
}

/// What stands between the prompt and the end of the system message: the block
/// of the knowledge base alone if nothing is known of the participants, the tags
/// of the participants, each in its line, if there is no knowledge.
pub proof fn law_parts_of_the_system_message(
    system_prompt: Seq<char>,
    knowledge: Seq<char>,
    states: Seq<UserStateView>,
    st: UserStateView,
)
    ensures
        !strings::blank(knowledge) ==> prompt::system_text(system_prompt, knowledge, Seq::empty())
            == strings::trim(system_prompt) + "\n\n— База знаний —\n"@ + strings::trim(knowledge)
            + "\n— Конец базы знаний —"@,
        strings::blank(knowledge) ==> prompt::system_text(system_prompt, knowledge, seq![st])
            == strings::trim(system_prompt) + "\n\n— Контекст участников (user context) —\n"@ + st.tag()
            + seq!['\n'] + prompt::META_INSTRUCTION@,
        prompt::tag_lines(states.push(st)) == prompt::tag_lines(states) + st.tag() + seq!['\n'],
{
    let start = strings::trim(system_prompt);
    if !strings::blank(knowledge) {
        assert(prompt::system_text(system_prompt, knowledge, Seq::empty()) =~= start
            + "\n\n— База знаний —\n"@ + strings::trim(knowledge) + "\n— Конец базы знаний —"@);
    } else {
        let one = seq![st];
        assert(one.drop_last() =~= Seq::empty());
        assert(prompt::tag_lines(Seq::<UserStateView>::empty()) =~= Seq::<char>::empty());
        assert(prompt::tag_lines(one) =~= st.tag() + seq!['\n']);
        assert(prompt::system_text(system_prompt, knowledge, one) =~= start
            + "\n\n— Контекст участников (user context) —\n"@ + st.tag() + seq!['\n']
            + prompt::META_INSTRUCTION@);
    }
    assert(states.push(st).drop_last() =~= states);
}

/// The cards stand in the order in which they were found, one empty line apart.
pub proof fn law_cards_in_order(hits: Seq<(Seq<char>, Seq<char>)>, h: (Seq<char>, Seq<char>))
    ensures
        prompt::knowledge_text(Seq::empty()) == Seq::<char>::empty(),
        prompt::knowledge_text(seq![h]) == "▪ "@ + h.0 + "\n"@ + h.1 + "\n"@,
        hits.len() > 0 ==> prompt::knowledge_text(hits.push(h)) == prompt::knowledge_text(hits) + seq![
            '\n',
        ] + "▪ "@ + h.0 + "\n"@ + h.1 + "\n"@,
{
    reveal_strlit("\n");
    let e = Seq::<char>::empty();
    let one = seq![h];
    assert(one.drop_last() =~= Seq::empty());
    assert(prompt::knowledge_text(Seq::<(Seq<char>, Seq<char>)>::empty()) =~= e);
    assert(e + "▪ "@ =~= "▪ "@);
    assert(hits.push(h).drop_last() =~= hits);
    if hits.len() > 0 {
        let before = prompt::knowledge_text(hits);
        assert(before.len() > 0) by {
            let (title, content) = hits.last();
            assert("\n"@.len() == 1);
        }
        assert(before.push('\n') =~= before + seq!['\n']);
    }
}

} // verus!
