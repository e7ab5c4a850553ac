//! Who may do what, and where.

use std::collections::HashSet;
use vstd::prelude::*;

use crate::config::Config;
use crate::config::ConfigView;
use crate::handlers::AppState;
use crate::handlers::AppStateView;
use crate::telegram::Incoming;
use crate::telegram::IncomingView;

verus! {

/// The set is empty or has the id.
pub open spec fn open_to(set: Set<i64>, id: i64) -> bool {
    set.len() == 0 || set.contains(id)
}

/// See [`open_to`].
fn is_open_to(set: &HashSet<i64>, id: i64) -> (r: bool)
    ensures
        r == open_to(set@, id),
{
    set.len() == 0 || set.contains(&id)
}

/// The user is an administrator; everyone is if none is listed.
pub fn is_admin(state: &AppState, user_id: i64) -> (r: bool)
    ensures
        r == open_to(state@.cfg.admins, user_id),
{
    is_open_to(&state.cfg.admins, user_id)
}

/// The bot works in the chat: it is listed, or none is, or it is the private
/// chat of an administrator.
pub open spec fn chat_is_open(cfg: ConfigView, msg: IncomingView) -> bool {
    ||| open_to(cfg.allowed_chats, msg.chat_id)
    ||| msg.private && open_to(cfg.admins, msg.user_id())
}

/// See [`chat_is_open`].
pub fn chat_allowed(cfg: &Config, msg: &Incoming) -> (r: bool)
    ensures
        r == chat_is_open(cfg@, msg@),
{
    is_open_to(&cfg.allowed_chats, msg.chat_id) || (msg.private && is_open_to(
        &cfg.admins,
        msg.user_id(),
    ))
}

/// The bot works in the topic: it is listed, or none is, or the chat has no
/// topics.
pub open spec fn thread_is_open(cfg: ConfigView, msg: IncomingView) -> bool {
    ||| cfg.allowed_threads.len() == 0
    ||| !msg.forum
    ||| match msg.thread_id {
        Some(t) => cfg.allowed_threads.contains(t as i64),
        None => false,
    }
}

/// See [`thread_is_open`].
pub fn thread_allowed(cfg: &Config, msg: &Incoming) -> (r: bool)
    ensures
        r == thread_is_open(cfg@, msg@),
{
    cfg.allowed_threads.len() == 0 || !msg.forum || match msg.thread_id {
        Some(t) => cfg.allowed_threads.contains(&(t as i64)),
        None => false,
    }
}

/// The bot works in the chat and in the topic.
pub open spec fn is_open(cfg: ConfigView, msg: IncomingView) -> bool {
    chat_is_open(cfg, msg) && thread_is_open(cfg, msg)
}

/// See [`is_open`].
pub fn is_allowed(cfg: &Config, msg: &Incoming) -> (r: bool)
    ensures
        r == is_open(cfg@, msg@),
{
    chat_allowed(cfg, msg) && thread_allowed(cfg, msg)
}

/// An administrator can always reach the bot in private, whatever chats are
/// listed.
pub proof fn law_admins_get_in(s: AppStateView, msg: IncomingView)
    requires
        msg.private,
        !msg.forum,
        open_to(s.cfg.admins, msg.user_id()),
    ensures
        is_open(s.cfg, msg),
{
}

} // verus!
