//! What the bot does about commands and messages.

pub mod access;
pub mod addressing;
pub mod commands;
pub mod effects;
pub mod files;
pub mod flow;
pub mod guides;
pub mod messages;
pub mod replies;
pub mod reports;
pub mod settings;
pub mod wording;
pub mod writes;

use vstd::prelude::*;

use crate::config::Config;
use crate::config::ConfigView;
use crate::memory::MemoryManager;
use crate::memory::MemoryManagerView;
use crate::strings;

pub use crate::handlers::access::is_admin;
pub use crate::handlers::commands::bot_commands;
pub use crate::handlers::commands::cmd_handler;
pub use crate::handlers::commands::Command;
pub use crate::handlers::messages::on_message;
pub use crate::handlers::replies::should_reply;
pub use crate::handlers::settings::mask_key;

verus! {

/// The bot and what it knows.
#[derive(Debug)]
pub struct AppState {
    pub mgr: MemoryManager,
    pub bot_id: u64,
    pub bot_username: Option<String>,
    pub cfg: Config,
}

/// What an [`AppState`] holds.
pub struct AppStateView {
    pub mgr: MemoryManagerView,
    pub bot_id: u64,
    pub bot_username: Option<Seq<char>>,
    pub cfg: ConfigView,
}

impl View for AppState {
    type V = AppStateView;

    open spec fn view(&self) -> AppStateView {
        AppStateView {
            mgr: self.mgr@,
            bot_id: self.bot_id,
            bot_username: strings::optional(self.bot_username),
            cfg: self.cfg@,
        }
    }
}

} // verus!
