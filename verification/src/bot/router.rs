//! Where updates go.

use vstd::prelude::*;

use crate::bot::handlers_admin;
use crate::bot::handlers_admin::Command;
use crate::commands;
use crate::telegram::Incoming;
use crate::telegram::IncomingView;

verus! {

/// Who deals with a message.
#[derive(Debug, Clone, Copy, PartialEq, Eq, Structural)]
pub enum Route {
    /// It is a command.
    Admin(Command),
    /// It is a message of a chat.
    Chat,
}

/// The text of a message is a command to the bot.
pub open spec fn is_command(msg: IncomingView, bot_name: Seq<char>) -> bool {
    match msg.body() {
        Some(text) => match commands::parts(text, bot_name) {
            Ok((name, args)) => handlers_admin::is_known(name),
            Err(_) => false,
        },
        None => false,
    }
}

/// Decides who deals with a message.
pub fn route(msg: &Incoming, bot_name: &str) -> (r: Route)
    ensures
        match r {
            Route::Admin(cmd) => is_command(msg@, bot_name@) && cmd.name() == (commands::parts(
                msg@.body()->0,
                bot_name@,
            )->Ok_0).0,
            Route::Chat => !is_command(msg@, bot_name@),
        },
{
    match msg.body() {
        Some(text) => match Command::parse(text, bot_name) {
            Ok(cmd) => Route::Admin(cmd),
            Err(_) => Route::Chat,
        },
        None => Route::Chat,
    }
}

} // verus!
