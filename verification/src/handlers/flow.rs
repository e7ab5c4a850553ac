//! What becomes of a message, from where it was sent to what it asks.

use vstd::prelude::*;

use crate::config::ConfigView;
use crate::handlers::access;
use crate::handlers::addressing;
use crate::handlers::guides;
use crate::handlers::messages;
use crate::handlers::messages::MessageStepView;
use crate::handlers::replies;
use crate::handlers::AppStateView;
use crate::strings;
use crate::telegram::IncomingView;

verus! {

/// The bot works where the message was sent: the chat is listed, or none is, or
/// it is the private chat of an administrator; and in a group with topics the
/// topic is listed, or none is.
pub open spec fn in_place(cfg: ConfigView, msg: IncomingView) -> bool {
    let chat = cfg.allowed_chats.len() == 0 || cfg.allowed_chats.contains(msg.chat_id) || (
    msg.private && (cfg.admins.len() == 0 || cfg.admins.contains(msg.user_id())));
    let topic = cfg.allowed_threads.len() == 0 || !msg.forum || (msg.thread_id is Some
        && cfg.allowed_threads.contains(msg.thread_id->0 as i64));
    chat && topic
}

/// The places where the bot works.
pub proof fn law_places(cfg: ConfigView, msg: IncomingView)
    ensures
        access::is_open(cfg, msg) <==> in_place(cfg, msg),
{
}

/// The message is addressed to the bot by a mention or by a reply.
pub open spec fn to_bot(s: AppStateView, msg: IncomingView, text: Seq<char>) -> bool {
    ||| s.bot_username is Some && exists|i: int| #[trigger]
        addressing::mentioned_at(text, s.bot_username->0, i)
    ||| msg.reply is Some && !msg.reply->0.topic_created && msg.thread_id != Some(
        msg.reply->0.message_id,
    ) && addressing::from_bot(msg.reply->0, s.bot_id, s.bot_username)
}

/// The text of a message, or the caption of what it holds.
pub open spec fn said(msg: IncomingView) -> Option<Seq<char>> {
    if msg.text is Some {
        msg.text
    } else {
        msg.caption
    }
}

/// What becomes of a message: nothing where the bot does not work; a file goes its
/// own way; a command in a group gets a hint, one in private is left to the
/// commands; any other text of a group leads to a question if it is addressed to
/// the bot, or to a note that there are too many, and to nothing otherwise.
pub proof fn law_steps(s: AppStateView, msg: IncomingView, now: u64)
    ensures
        ({
            let step = messages::received(s, msg, now).1;
            let text = said(msg);
            let plain = in_place(s.cfg, msg) && msg.document is None && text is Some;
            let slash = text is Some && text->0.len() > 0 && text->0[0] == '/';
            let asked = plain && !slash && !msg.private && replies::readable(
                msg,
                text->0,
                s.bot_username,
            ) && to_bot(s, msg, text->0);
            let allowed = s.mgr.rate_limiter.allows(msg.user_id(), now);
            &&& !in_place(s.cfg, msg) ==> step is Ignore
            &&& in_place(s.cfg, msg) && msg.document is Some ==> step == MessageStepView::Document(
                guides::document_step(s, msg, msg.document->0),
            )
            &&& plain && slash && msg.private ==> step is Ignore
            &&& plain && slash && !msg.private && s.bot_username is Some ==> step
                == MessageStepView::Send(
                "ℹ️ Команды и настройки бота доступны только в личных сообщениях: @"@
                    + s.bot_username->0,
            )
            &&& asked && allowed ==> step == (MessageStepView::Ask {
                user_id: msg.user_id(),
                chat_id: msg.chat_id,
                display_name: match msg.from {
                    Some(u) => replies::display_name(u),
                    None => Seq::empty(),
                },
                question: replies::question(
                    msg,
                    s.bot_id,
                    replies::answered(msg, s.bot_id, s.bot_username, text->0).1,
                ),
            })
            &&& asked && !allowed ==> step == MessageStepView::TooOften(
                s.mgr.cfg.rate_limit_requests,
                s.mgr.cfg.rate_limit_window_secs,
            )
            &&& plain && !slash && !msg.private && !to_bot(s, msg, text->0) ==> !(step is Ask)
                && !(step is TooOften) && !(step is Send)
            &&& plain && !slash && msg.private ==> step is Ignore
            &&& step is Ask ==> asked && allowed
        }),
{
    law_places(s.cfg, msg);
    if said(msg) is Some {
        addressing::law_answered(msg, s.bot_id, s.bot_username, said(msg)->0);
    }
}

/// The window of the limit is told in seconds below a minute and in minutes if it
/// is a whole number of them.
pub proof fn law_windows(seconds: u64, minutes: Seq<char>)
    ensures
        seconds < 60 ==> messages::window_text(seconds, minutes) == strings::decimal(seconds as nat)
            + " сек."@,
        1 <= seconds <= u64::MAX / 60 ==> messages::window_text((60 * seconds) as u64, minutes)
            == strings::decimal(seconds as nat) + " мин."@,
{
}

} // verus!
