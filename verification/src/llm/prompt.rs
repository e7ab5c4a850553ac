//! Composition of a request from its parts.

use vstd::prelude::*;

use crate::llm::client::ChatMessage;
use crate::llm::client::ChatMessageView;
use crate::storage;
use crate::storage::Role;
use crate::storage::StoredMessage;
use crate::storage::StoredMessageView;
use crate::storage::UserState;
use crate::storage::UserStateView;
use crate::strings;

verus! {

/// What the model is told about the states of the participants.
pub const META_INSTRUCTION: &'static str = "Учитывай текущие мета-состояния участников выше. При ответе актуализируй служебный тег <user:...> в самом конце ответа.";

/// All that a request is made of.
pub struct PromptParts<'a> {
    pub system_prompt: &'a str,
    /// What the knowledge base has to say; may be blank.
    pub knowledge: &'a str,
    pub user_states: &'a [UserState],
    pub history: &'a [StoredMessage],
    pub user_message: &'a str,
}

/// The part of the system message about the knowledge base.
pub open spec fn knowledge_part(knowledge: Seq<char>) -> Seq<char> {
    if strings::blank(knowledge) {
        Seq::empty()
    } else {
        "\n\n— База знаний —\n"@ + strings::trim(knowledge) + "\n— Конец базы знаний —"@
    }
}

/// The tags of the participants, one on a line.
pub open spec fn tag_lines(states: Seq<UserStateView>) -> Seq<char>
    decreases states.len(),
{
    if states.len() == 0 {
        Seq::empty()
    } else {
        (tag_lines(states.drop_last()) + states.last().tag()).push('\n')
    }
}

/// The part of the system message about the participants.
pub open spec fn states_part(states: Seq<UserStateView>) -> Seq<char> {
    if states.len() == 0 {
        Seq::empty()
    } else {
        "\n\n— Контекст участников (user context) —\n"@ + tag_lines(states) + META_INSTRUCTION@
    }
}

/// The system message.
pub open spec fn system_text(
    system_prompt: Seq<char>,
    knowledge: Seq<char>,
    states: Seq<UserStateView>,
) -> Seq<char> {
    strings::trim(system_prompt) + knowledge_part(knowledge) + states_part(states)
}

/// A message signed with the name and the id of its author, as far as they
/// are known.
pub open spec fn signed(user_id: i64, display_name: Seq<char>, content: Seq<char>) -> Seq<char> {
    if user_id != 0 && display_name.len() > 0 {
        display_name + " (id="@ + strings::decimal_int(user_id as int) + "): "@ + content
    } else if display_name.len() > 0 {
        display_name + ": "@ + content
    } else {
        content
    }
}

/// See [`signed`].
pub fn signed_text(user_id: i64, display_name: &str, content: &str) -> (r: String)
    ensures
        r@ == signed(user_id, display_name@, content@),
{
    if display_name.is_empty() {
        return content.to_owned();
    }
    let mut out = display_name.to_owned();
    if user_id != 0 {
        out.append(" (id=");
        out.append(strings::decimal_i64(user_id).as_str());
        out.append("): ");
    } else {
        out.append(": ");
    }
    out.append(content);
    out
}

/// A message of the history as the model sees it.
pub open spec fn history_message(m: StoredMessageView) -> ChatMessageView {
    match m.role {
        Role::Assistant => ChatMessageView::of_assistant(m.content),
        Role::User => ChatMessageView::of_user(signed(m.user_id, m.display_name, m.content)),
    }
}

/// The messages of a request: the system message, the history, the question.
pub open spec fn composed(
    system_prompt: Seq<char>,
    knowledge: Seq<char>,
    states: Seq<UserStateView>,
    history: Seq<StoredMessageView>,
    user_message: Seq<char>,
) -> Seq<ChatMessageView> {
    seq![ChatMessageView::of_system(system_text(system_prompt, knowledge, states))]
        + history.map_values(|m: StoredMessageView| history_message(m)) + seq![
        ChatMessageView::of_user(user_message),
    ]
}

/// Appends the tags of the participants.
fn push_tags(out: &mut String, states: &[UserState])
    ensures
        final(out)@ == old(out)@ + tag_lines(storage::state_views(states@)),
{
    let ghost all = storage::state_views(states@);
    let ghost before = out@;
    let mut i: usize = 0;
    assert(all.take(0) =~= Seq::<UserStateView>::empty());
    assert(before + tag_lines(all.take(0)) =~= before);
    while i < states.len()
        invariant
            i <= states@.len(),
            all == storage::state_views(states@),
            out@ == before + tag_lines(all.take(i as int)),
        decreases states@.len() - i,
    {
        proof {
            assert(all.take(i + 1).drop_last() =~= all.take(i as int));
            assert(all.take(i + 1).last() == states@[i as int]@);
        }
        let tag = states[i].to_tag();
        out.append(tag.as_str());
        out.push('\n');
        assert(out@ =~= before + tag_lines(all.take(i + 1)));
        i += 1;
    }
    assert(all.take(all.len() as int) =~= all);
}

/// Composes a request: `[system, knowledge, participants] [history] [question]`.
/// The history has been cut to its budget before.
pub fn build_messages(parts: PromptParts<'_>) -> (r: Vec<ChatMessage>)
    ensures
        ChatMessage::views(r@) == composed(
            parts.system_prompt@,
            parts.knowledge@,
            storage::state_views(parts.user_states@),
            storage::message_views(parts.history@),
            parts.user_message@,
        ),
{
    let mut system = strings::trimmed(parts.system_prompt);
    let ghost head = system@;
    if !strings::is_blank(parts.knowledge) {
        system.append("\n\n— База знаний —\n");
        system.append(strings::trimmed(parts.knowledge).as_str());
        system.append("\n— Конец базы знаний —");
    }
    assert(system@ =~= head + knowledge_part(parts.knowledge@));
    let ghost middle = system@;
    if parts.user_states.len() > 0 {
        system.append("\n\n— Контекст участников (user context) —\n");
        push_tags(&mut system, parts.user_states);
        system.append(META_INSTRUCTION);
    }
    assert(system@ =~= middle + states_part(storage::state_views(parts.user_states@)));

    let ghost history = storage::message_views(parts.history@);
    let ghost told = history.map_values(|m: StoredMessageView| history_message(m));
    let ghost first = ChatMessageView::of_system(system@);
    let mut messages: Vec<ChatMessage> = Vec::new();
    messages.push(ChatMessage::system(system));
    let mut i: usize = 0;
    assert(ChatMessage::views(messages@) =~= seq![first] + told.take(0));
    while i < parts.history.len()
        invariant
            i <= parts.history@.len(),
            history == storage::message_views(parts.history@),
            told == history.map_values(|m: StoredMessageView| history_message(m)),
            ChatMessage::views(messages@) == seq![first] + told.take(i as int),
        decreases parts.history@.len() - i,
    {
        let m = &parts.history[i];
        let ghost before = ChatMessage::views(messages@);
        let line = match m.role {
            Role::Assistant => ChatMessage::assistant(m.content.clone()),
            Role::User => ChatMessage::user(
                signed_text(m.user_id, m.display_name.as_str(), m.content.as_str()),
            ),
        };
        proof {
            assert(told[i as int] == history_message(history[i as int]));
            assert(line@ == told[i as int]);
        }
        messages.push(line);
        proof {
            assert(ChatMessage::views(messages@) =~= before.push(line@));
            assert((seq![first] + told.take(i as int)).push(line@) =~= seq![first] + told.take(
                i + 1,
            ));
        }
        i += 1;
    }
    assert(told.take(told.len() as int) =~= told);
    let ghost before = ChatMessage::views(messages@);
    let question = ChatMessage::user(parts.user_message.to_owned());
    messages.push(question);
    assert(ChatMessage::views(messages@) =~= before + seq![question@]);
    messages
}

/// The views of titled texts.
pub open spec fn hit_views(v: Seq<(&str, &str)>) -> Seq<(Seq<char>, Seq<char>)> {
    v.map_values(|p: (&str, &str)| (p.0@, p.1@))
}

/// Titled texts of the knowledge base as one text for a prompt.
pub open spec fn knowledge_text(hits: Seq<(Seq<char>, Seq<char>)>) -> Seq<char>
    decreases hits.len(),
{
    if hits.len() == 0 {
        Seq::empty()
    } else {
        let before = knowledge_text(hits.drop_last());
        let (title, content) = hits.last();
        (if before.len() > 0 {
            before.push('\n')
        } else {
            before
        }) + "▪ "@ + title + "\n"@ + content + "\n"@
    }
}

/// See [`knowledge_text`].
pub fn format_knowledge(hits: &[(&str, &str)]) -> (r: String)
    ensures
        r@ == knowledge_text(hit_views(hits@)),
{
    let ghost all = hit_views(hits@);
    let mut out = String::new();
    let mut i: usize = 0;
    assert(all.take(0) =~= Seq::<(Seq<char>, Seq<char>)>::empty());
    assert(out@ =~= Seq::<char>::empty());
    while i < hits.len()
        invariant
            i <= hits@.len(),
            all == hit_views(hits@),
            out@ == knowledge_text(all.take(i as int)),
        decreases hits@.len() - i,
    {
        proof {
            assert(all.take(i + 1).drop_last() =~= all.take(i as int));
            assert(all.take(i + 1).last() == (hits@[i as int].0@, hits@[i as int].1@));
        }
        if !out.as_str().is_empty() {
            out.push('\n');
        }
        out.append("▪ ");
        out.append(hits[i].0);
        out.append("\n");
        out.append(hits[i].1);
        out.append("\n");
        i += 1;
    }
    assert(all.take(all.len() as int) =~= all);
    out
}

/// A request starts with the system message, ends with the question, and holds
/// the whole history in between.
pub proof fn law_composition_frame(
    system_prompt: Seq<char>,
    knowledge: Seq<char>,
    states: Seq<UserStateView>,
    history: Seq<StoredMessageView>,
    user_message: Seq<char>,
)
    ensures
        ({
            let m = composed(system_prompt, knowledge, states, history, user_message);
            &&& m.len() == history.len() + 2
            &&& m.first() == ChatMessageView::of_system(
                system_text(system_prompt, knowledge, states),
            )
            &&& m.last() == ChatMessageView::of_user(user_message)
            &&& forall|i: int|
                0 <= i < history.len() ==> #[trigger] m[i + 1] == history_message(history[i])
        }),
{
}

} // verus!
