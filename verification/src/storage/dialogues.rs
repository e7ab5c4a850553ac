//! Dialogues, states and tags, told row by row.

use vstd::prelude::*;

use crate::storage;
use crate::storage::DialogueRowView;
use crate::storage::Role;
use crate::storage::StateRowView;
use crate::storage::StoredMessageView;
use crate::storage::UserStateView;
use crate::strings;
use crate::utils::mentions;

verus! {

/// A dialogue is made of the messages in one topic of one chat, in their order.
pub proof fn law_dialogue(all: Seq<DialogueRowView>, chat_id: i64, thread_id: i64)
    ensures
        storage::dialogue(all, chat_id, thread_id) == all.filter(
            |r: DialogueRowView| r.chat_id == chat_id && r.thread_id == thread_id,
        ).map_values(|r: DialogueRowView| r.message),
    decreases all.len(),
{
    reveal(Seq::filter);
    let mine = |r: DialogueRowView| r.chat_id == chat_id && r.thread_id == thread_id;
    let said = |r: DialogueRowView| r.message;
    if all.len() > 0 {
        let init = all.drop_last();
        law_dialogue(init, chat_id, thread_id);
        let kept = init.filter(mine);
        if mine(all.last()) {
            assert(all.filter(mine) == kept.push(all.last()));
            assert(kept.push(all.last()).map_values(said) =~= kept.map_values(said).push(
                all.last().message,
            ));
        }
    } else {
        assert(all.filter(mine).map_values(said) =~= storage::dialogue(all, chat_id, thread_id));
    }
}

/// The states that are asked for are those that are known, in the order of the
/// ids.
pub proof fn law_states_of(states: Map<i64, StateRowView>, ids: Seq<i64>)
    ensures
        storage::states_of(states, ids) == ids.filter(|id: i64| states.contains_key(id)).map_values(
            |id: i64|
                UserStateView {
                    user_id: id,
                    display_name: states[id].state.display_name,
                    goal: states[id].state.goal,
                    current: states[id].state.current,
                },
        ),
    decreases ids.len(),
{
    reveal(Seq::filter);
    let known = |id: i64| states.contains_key(id);
    let state = |id: i64|
        UserStateView {
            user_id: id,
            display_name: states[id].state.display_name,
            goal: states[id].state.goal,
            current: states[id].state.current,
        };
    if ids.len() > 0 {
        let init = ids.drop_last();
        law_states_of(states, init);
        let kept = init.filter(known);
        if known(ids.last()) {
            assert(kept.push(ids.last()).map_values(state) =~= kept.map_values(state).push(
                state(ids.last()),
            ));
        }
    } else {
        assert(ids.filter(known).map_values(state) =~= storage::states_of(states, ids));
    }
}

/// The new state of a participant takes the place of the older one with its own
/// time; only the name is kept if the new one has none.
pub proof fn law_new_state_replaces(
    older: Option<StateRowView>,
    new: UserStateView,
    now: i64,
)
    ensures
        ({
            let row = storage::merged(older, new, now);
            &&& row.updated_at == now
            &&& row.state.user_id == new.user_id
            &&& row.state.goal == new.goal
            &&& row.state.current == new.current
            &&& new.display_name.len() > 0 || older is None ==> row.state.display_name
                == new.display_name
            &&& new.display_name.len() == 0 && older is Some ==> row.state.display_name
                == older->0.state.display_name
        }),
{
}

/// An attribute of a tag.
pub open spec fn attribute(name: Seq<char>, value: Seq<char>) -> Seq<char> {
    if value.len() == 0 {
        Seq::empty()
    } else {
        seq![' '] + name + seq!['=', '"'] + value + seq!['"']
    }
}

/// The tag of a state without quotation marks: the name behind `@`, the goal and
/// what is going on where they are known, the id.
pub proof fn law_tag(st: UserStateView)
    requires
        mentions::lacks(st.goal, '"'),
        mentions::lacks(st.current, '"'),
    ensures
        st.tag() == "<user:@"@ + st.display_name + attribute("goal"@, st.goal) + attribute(
            "current"@,
            st.current,
        ) + " id="@ + strings::decimal_int(st.user_id as int) + ">"@,
{
    lemma_field("goal"@, st.goal);
    lemma_field("current"@, st.current);
}

/// A value without quotation marks stands in its field as it is.
proof fn lemma_field(name: Seq<char>, value: Seq<char>)
    requires
        mentions::lacks(value, '"'),
    ensures
        UserStateView::field(name, value) == attribute(name, value),
{
    reveal_strlit(" ");
    reveal_strlit("=\"");
    reveal_strlit("\"");
    let quote = "\""@;
    assert(quote =~= seq!['"']);
    mentions::lemma_lacks_occurs(value, quote);
    mentions::lemma_nothing_to_split(value, quote);
    assert(strings::replace(value, quote, "'"@) == value);
    assert(" "@ =~= seq![' ']);
    assert("=\""@ =~= seq!['=', '"']);
}

/// Every quotation mark in a value becomes an apostrophe.
pub proof fn law_quotation_marks(name: Seq<char>, parts: Seq<Seq<char>>)
    requires
        parts.len() > 1,
        forall|i: int| 0 <= i < parts.len() ==> mentions::lacks(#[trigger] parts[i], '"'),
    ensures
        UserStateView::field(name, strings::join(parts, seq!['"'])) == attribute(
            name,
            strings::join(parts, seq!['\'']),
        ),
{
    reveal_strlit(" ");
    reveal_strlit("=\"");
    reveal_strlit("\"");
    reveal_strlit("'");
    let quote = "\""@;
    assert(quote =~= seq!['"']);
    assert("'"@ =~= seq!['\'']);
    mentions::lemma_split_joined(parts, quote);
    assert(" "@ =~= seq![' ']);
    assert("=\""@ =~= seq!['=', '"']);
    assert(strings::join(parts, seq!['"']).len() > 0);
    assert(strings::join(parts, seq!['\'']).len() > 0);
}

/// A role is read back from its name; any other name is a user's.
pub proof fn law_roles(role: Role, name: Seq<char>)
    ensures
        Role::of_name(role.name()) == role,
        Role::User.name() == "user"@,
        Role::Assistant.name() == "assistant"@,
        Role::of_name(name) == Role::Assistant <==> name == "assistant"@,
{
    reveal_strlit("user");
    reveal_strlit("assistant");
    assert("user"@.len() != "assistant"@.len());
}

/// A dialogue is as long as its messages together.
pub proof fn law_length_of_a_dialogue(messages: Seq<StoredMessageView>, m: StoredMessageView)
    ensures
        storage::chars_in(Seq::empty()) == 0,
        storage::chars_in(messages.push(m)) == storage::chars_in(messages) + m.content.len(),
{
    assert(messages.push(m).drop_last() =~= messages);
}

} // verus!
