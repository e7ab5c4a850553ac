//! The administration of the bot in private chats.

use vstd::prelude::*;

use crate::bot::App;
use crate::bot::AppView;
use crate::commands;
use crate::commands::ParseError;
use crate::commands::ParseErrorView;
use crate::llm::state::ModelStateView;
use crate::strings;
use crate::telegram::Incoming;
use crate::telegram::IncomingView;

verus! {

/// A command.
#[derive(Debug, Clone, Copy, PartialEq, Eq, Structural)]
pub enum Command {
    /// The state of the bot and a short help.
    Start,
    /// The help.
    Help,
    /// The choice of the model.
    Model,
    /// The choice of streaming.
    Stream,
}

/// There is a command with this name.
pub open spec fn is_known(name: Seq<char>) -> bool {
    name == "/start"@ || name == "/help"@ || name == "/model"@ || name == "/stream"@
}

impl Command {
    /// The name of the command.
    pub open spec fn name(self) -> Seq<char> {
        match self {
            Command::Start => "/start"@,
            Command::Help => "/help"@,
            Command::Model => "/model"@,
            Command::Stream => "/stream"@,
        }
    }

    /// Reads a command to the bot.
    pub fn parse(text: &str, bot_name: &str) -> (r: Result<Command, ParseError>)
        ensures
            match (r, commands::parts(text@, bot_name@)) {
                (Ok(cmd), Ok((name, args))) => is_known(name) && cmd.name() == name,
                (Err(e), Ok((name, args))) => !is_known(name) && e@
                    == ParseErrorView::UnknownCommand(name),
                (Err(e), Err(reason)) => e@ == reason,
                (Ok(_), Err(_)) => false,
            },
    {
        let (name, args) = match commands::split_command(text, bot_name) {
            Ok(parts) => parts,
            Err(e) => {
                return Err(e);
            },
        };
        if strings::str_eq(name.as_str(), "/start") {
            Ok(Command::Start)
        } else if strings::str_eq(name.as_str(), "/help") {
            Ok(Command::Help)
        } else if strings::str_eq(name.as_str(), "/model") {
            Ok(Command::Model)
        } else if strings::str_eq(name.as_str(), "/stream") {
            Ok(Command::Stream)
        } else {
            Err(ParseError::UnknownCommand(name))
        }
    }
}

/// The commands of the menu with their descriptions.
pub open spec fn menu() -> Seq<(Seq<char>, Seq<char>)> {
    seq![
        ("/start"@, "запуск: статус и краткая помощь"@),
        ("/help"@, "помощь"@),
        ("/model"@, "переключить модель (inline-кнопки)"@),
        ("/stream"@, "переключить стриминг ответов (вкл/выкл)"@),
    ]
}

/// The views of pairs of texts.
pub open spec fn pair_views(v: Seq<(String, String)>) -> Seq<(Seq<char>, Seq<char>)> {
    v.map_values(|p: (String, String)| (p.0@, p.1@))
}

/// See [`menu`].
pub fn bot_commands() -> (r: Vec<(String, String)>)
    ensures
        pair_views(r@) == menu(),
{
    let mut r: Vec<(String, String)> = Vec::new();
    r.push(("/start".to_owned(), "запуск: статус и краткая помощь".to_owned()));
    r.push(("/help".to_owned(), "помощь".to_owned()));
    r.push(("/model".to_owned(), "переключить модель (inline-кнопки)".to_owned()));
    r.push(("/stream".to_owned(), "переключить стриминг ответов (вкл/выкл)".to_owned()));
    assert(pair_views(r@) =~= menu());
    r
}

/// The text above the choice of the model.
pub open spec fn models_message(m: ModelStateView) -> Seq<char> {
    "Активная модель: "@ + m.name()
        + "\n\nВыбери модель — переключение применяется сразу ко всем чатам."@
}

/// See [`models_message`].
fn models_text(app: &App) -> (r: String)
    ensures
        r@ == models_message(app@.models),
{
    let mut out = "Активная модель: ".to_owned();
    out.append(app.models.current().as_str());
    out.append("\n\nВыбери модель — переключение применяется сразу ко всем чатам.");
    out
}

/// The buttons for the first `k` models, one in a row: the label and what the
/// button sends. The active one is marked.
pub open spec fn model_buttons(models: Seq<Seq<char>>, active: int, k: int) -> Seq<
    (Seq<char>, Seq<char>),
>
    decreases k,
{
    if k <= 0 {
        Seq::empty()
    } else {
        let name = models[k - 1];
        let label = if k - 1 == active {
            "✔ "@ + name
        } else {
            name
        };
        model_buttons(models, active, k - 1).push(
            (label, "model:"@ + strings::decimal((k - 1) as nat)),
        )
    }
}

/// The model that a menu marks: the given one, or else the one in use.
pub open spec fn marked(m: ModelStateView, active: Option<usize>) -> int {
    match active {
        Some(i) => i as int,
        None => m.current,
    }
}

/// The buttons for the choice of the model: see [`model_buttons`].
fn models_keyboard(app: &App, active: Option<usize>) -> (r: Vec<(String, String)>)
    ensures
        pair_views(r@) == model_buttons(
            app@.models.models,
            marked(app@.models, active),
            app@.models.models.len() as int,
        ),
{
    let mark: usize = match active {
        Some(i) => i,
        None => app.models.active_index(),
    };
    let models = app.models.list();
    let ghost all = app@.models.models;
    assert(strings::views(models@) == all);
    let mut rows: Vec<(String, String)> = Vec::new();
    let mut i: usize = 0;
    assert(pair_views(rows@) =~= model_buttons(all, mark as int, 0));
    while i < models.len()
        invariant
            i <= models@.len(),
            strings::views(models@) == all,
            pair_views(rows@) == model_buttons(all, mark as int, i as int),
        decreases models@.len() - i,
    {
        let ghost before = pair_views(rows@);
        assert(all[i as int] == models@[i as int]@);
        let label = if i == mark {
            let mut l = "✔ ".to_owned();
            l.append(models[i].as_str());
            l
        } else {
            models[i].clone()
        };
        let mut data = "model:".to_owned();
        data.append(strings::decimal_u64(i as u64).as_str());
        let ghost pair = (label@, data@);
        rows.push((label, data));
        assert(pair_views(rows@) =~= before.push(pair));
        i += 1;
    }
    assert(all.len() == models@.len());
    rows
}

/// The text above the choice of streaming.
pub open spec fn stream_message(enabled: bool) -> Seq<char> {
    "Режим стриминга ответов: "@ + (if enabled {
        "ВКЛЮЧЁН (SSE + живой вывод текста в чат)"@
    } else {
        "ВЫКЛЮЧЕН (отправка ответа целиком после генерации)"@
    }) + "\n\nНажми кнопку ниже, чтобы переключить режим на лету:"@
}

/// See [`stream_message`].
fn stream_text(enabled: bool) -> (r: String)
    ensures
        r@ == stream_message(enabled),
{
    let mut out = "Режим стриминга ответов: ".to_owned();
    if enabled {
        out.append("ВКЛЮЧЁН (SSE + живой вывод текста в чат)");
    } else {
        out.append("ВЫКЛЮЧЕН (отправка ответа целиком после генерации)");
    }
    out.append("\n\nНажми кнопку ниже, чтобы переключить режим на лету:");
    out
}

/// The button for the choice of streaming.
pub open spec fn stream_buttons(enabled: bool) -> Seq<(Seq<char>, Seq<char>)> {
    seq![
        (
            if enabled {
                "🟢 Стриминг: ВКЛ (нажми, чтобы выключить)"@
            } else {
                "🔴 Стриминг: ВЫКЛ (нажми, чтобы включить)"@
            },
            "stream:toggle"@,
        ),
    ]
}

/// See [`stream_buttons`].
fn stream_keyboard(enabled: bool) -> (r: Vec<(String, String)>)
    ensures
        pair_views(r@) == stream_buttons(enabled),
{
    let label = if enabled {
        "🟢 Стриминг: ВКЛ (нажми, чтобы выключить)".to_owned()
    } else {
        "🔴 Стриминг: ВЫКЛ (нажми, чтобы включить)".to_owned()
    };
    let mut r: Vec<(String, String)> = Vec::new();
    r.push((label, "stream:toggle".to_owned()));
    assert(pair_views(r@) =~= stream_buttons(enabled));
    r
}

/// The answer to everyone but administrators.
pub const STUB_TEXT: &'static str = "Этот бот отвечает только в группах. Управление — у администраторов.";

/// The help.
pub const HELP_TEXT: &'static str = "Память: бот держит краткий контекст диалога и мета-блоки участников (цель, текущий шаг).\nБаза знаний подключается автоматически по смыслу запроса.\n/model — переключение модели (действует сразу на все чаты).\n/stream — управление стримингом ответов (вкл/выкл на лету).";

/// The answer if the choice of the model could not be sent.
pub const MENU_FAILED_TEXT: &'static str = "Не удалось открыть меню моделей.";

/// The greeting.
pub open spec fn start_message(a: AppView) -> Seq<char> {
    "KostubetAI 2.0\nАктивная модель: "@ + a.models.name() + "\nСтриминг: "@ + (if a.streaming {
        "включен"@
    } else {
        "выключен"@
    })
        + "\n\nКоманды:\n/model — сменить модель\n/stream — переключить стриминг ответов\n/help — помощь\n\nВ группах бот отвечает на @"@
        + a.bot_username + " и reply к его сообщениям."@
}

/// See [`start_message`].
fn start_text(app: &App) -> (r: String)
    ensures
        r@ == start_message(app@),
{
    let mut out = "KostubetAI 2.0\nАктивная модель: ".to_owned();
    out.append(app.models.current().as_str());
    out.append("\nСтриминг: ");
    if app.is_streaming() {
        out.append("включен");
    } else {
        out.append("выключен");
    }
    out.append(
        "\n\nКоманды:\n/model — сменить модель\n/stream — переключить стриминг ответов\n/help — помощь\n\nВ группах бот отвечает на @",
    );
    out.append(app.bot_username.as_str());
    out.append(" и reply к его сообщениям.");
    out
}

/// What to do about a command.
#[derive(Debug)]
pub enum CommandStep {
    /// Nothing.
    Ignore,
    /// Send a message.
    Send(String),
    /// Send a message with buttons, one in a row: labels and what they send.
    Menu(String, Vec<(String, String)>),
}

/// What a [`CommandStep`] holds.
pub enum CommandStepView {
    Ignore,
    Send(Seq<char>),
    Menu(Seq<char>, Seq<(Seq<char>, Seq<char>)>),
}

impl View for CommandStep {
    type V = CommandStepView;

    open spec fn view(&self) -> CommandStepView {
        match self {
            CommandStep::Ignore => CommandStepView::Ignore,
            CommandStep::Send(t) => CommandStepView::Send(t@),
            CommandStep::Menu(t, rows) => CommandStepView::Menu(t@, pair_views(rows@)),
        }
    }
}

/// What to do about a command: nothing in groups, and the command itself only
/// for administrators.
pub open spec fn commanded(a: AppView, msg: IncomingView, cmd: Command) -> CommandStepView {
    if !msg.private || msg.from is None {
        CommandStepView::Ignore
    } else if !a.cfg.admins.contains(msg.user_id()) {
        CommandStepView::Send(STUB_TEXT@)
    } else {
        match cmd {
            Command::Start => CommandStepView::Send(start_message(a)),
            Command::Help => CommandStepView::Send(HELP_TEXT@),
            Command::Model => CommandStepView::Menu(
                models_message(a.models),
                model_buttons(
                    a.models.models,
                    a.models.current,
                    a.models.models.len() as int,
                ),
            ),
            Command::Stream => CommandStepView::Menu(
                stream_message(a.streaming),
                stream_buttons(a.streaming),
            ),
        }
    }
}

/// Decides about a command: see [`commanded`].
pub fn command(app: &App, msg: &Incoming, cmd: Command) -> (r: CommandStep)
    ensures
        r@ == commanded(app@, msg@, cmd),
{
    if !msg.private {
        return CommandStep::Ignore;
    }
    match &msg.from {
        Some(_) => {},
        None => {
            return CommandStep::Ignore;
        },
    }
    if !app.cfg.is_admin(msg.user_id()) {
        return CommandStep::Send(STUB_TEXT.to_owned());
    }
    match cmd {
        Command::Start => CommandStep::Send(start_text(app)),
        Command::Help => CommandStep::Send(HELP_TEXT.to_owned()),
        Command::Model => CommandStep::Menu(models_text(app), models_keyboard(app, None)),
        Command::Stream => {
            let enabled: bool = app.is_streaming();
            CommandStep::Menu(stream_text(enabled), stream_keyboard(enabled))
        },
    }
}

/// What to do about a button.
#[derive(Debug)]
pub enum CallbackStep {
    /// Nothing.
    Ignore,
    /// Answer with a note.
    Note(String),
    /// Put the menu anew, with a text and buttons, and answer with a note.
    Refresh(String, Vec<(String, String)>, String),
}

/// What a [`CallbackStep`] holds.
pub enum CallbackStepView {
    Ignore,
    Note(Seq<char>),
    Refresh(Seq<char>, Seq<(Seq<char>, Seq<char>)>, Seq<char>),
}

impl View for CallbackStep {
    type V = CallbackStepView;

    open spec fn view(&self) -> CallbackStepView {
        match self {
            CallbackStep::Ignore => CallbackStepView::Ignore,
            CallbackStep::Note(t) => CallbackStepView::Note(t@),
            CallbackStep::Refresh(t, rows, n) => CallbackStepView::Refresh(
                t@,
                pair_views(rows@),
                n@,
            ),
        }
    }
}

/// What choosing a model does: the state after it and what to do.
pub open spec fn model_chosen(a: AppView, index: Seq<char>) -> (AppView, CallbackStepView) {
    match strings::parse_unsigned(index, usize::MAX as nat) {
        Some(i) => if i < a.models.models.len() {
            let models = ModelStateView { current: i as int, ..a.models };
            (
                AppView { models: models, ..a },
                CallbackStepView::Refresh(
                    models_message(models),
                    model_buttons(models.models, i as int, models.models.len() as int),
                    "Модель: "@ + models.name(),
                ),
            )
        } else {
            (a, CallbackStepView::Note("Такой модели нет в списке."@))
        },
        None => (a, CallbackStepView::Note("Такой модели нет в списке."@)),
    }
}

/// What a button does: the state after it and what to do.
pub open spec fn pressed(a: AppView, user_id: i64, data: Option<Seq<char>>) -> (
    AppView,
    CallbackStepView,
) {
    if !a.cfg.admins.contains(user_id) {
        (a, CallbackStepView::Note("Только для админов."@))
    } else {
        match data {
            None => (a, CallbackStepView::Ignore),
            Some(d) => if "model:"@.is_prefix_of(d) {
                model_chosen(a, d.skip(6))
            } else if d == "stream:toggle"@ {
                let on = !a.streaming;
                (
                    AppView { streaming: on, ..a },
                    CallbackStepView::Refresh(
                        stream_message(on),
                        stream_buttons(on),
                        if on {
                            "Стриминг включён"@
                        } else {
                            "Стриминг выключен"@
                        },
                    ),
                )
            } else {
                (a, CallbackStepView::Ignore)
            },
        }
    }
}

/// Chooses a model: see [`model_chosen`].
fn choose_model(app: &mut App, index: &str) -> (r: CallbackStep)
    ensures
        final(app).wf() == old(app).wf(),
        (final(app)@, r@) == model_chosen(old(app)@, index@),
{
    let ghost before = app@;
    match strings::parse_u64(index, usize::MAX as u64) {
        Some(i) => match app.models.set_index(i as usize) {
            Ok(model) => {
                assert(app@.models == (ModelStateView { current: i as int, ..before.models }));
                let active: usize = app.models.active_index();
                let keyboard = models_keyboard(app, Some(active));
                let mut note = "Модель: ".to_owned();
                note.append(model.as_str());
                CallbackStep::Refresh(models_text(app), keyboard, note)
            },
            Err(_) => CallbackStep::Note("Такой модели нет в списке.".to_owned()),
        },
        None => CallbackStep::Note("Такой модели нет в списке.".to_owned()),
    }
}

/// Decides about a button: see [`pressed`].
pub fn callback(app: &mut App, user_id: i64, data: Option<&str>) -> (r: CallbackStep)
    ensures
        final(app).wf() == old(app).wf(),
        (final(app)@, r@) == pressed(
            old(app)@,
            user_id,
            match data {
                Some(d) => Some(d@),
                None => None,
            },
        ),
{
    if !app.cfg.is_admin(user_id) {
        return CallbackStep::Note("Только для админов.".to_owned());
    }
    match data {
        None => CallbackStep::Ignore,
        Some(d) => {
            proof {
                reveal_strlit("model:");
            }
            if strings::starts_with(d, "model:") {
                let cs = strings::chars_of(d);
                let rest = vstd::slice::slice_subrange(cs.as_slice(), 6, cs.len());
                assert(rest@ =~= d@.skip(6));
                let index = strings::string_of(rest);
                choose_model(app, index.as_str())
            } else if strings::str_eq(d, "stream:toggle") {
                let enabled: bool = app.toggle_streaming();
                let note = if enabled {
                    "Стриминг включён".to_owned()
                } else {
                    "Стриминг выключен".to_owned()
                };
                CallbackStep::Refresh(stream_text(enabled), stream_keyboard(enabled), note)
            } else {
                CallbackStep::Ignore
            }
        },
    }
}

/// Only administrators change anything.
pub proof fn law_only_admins_press(a: AppView, user_id: i64, data: Option<Seq<char>>)
    requires
        !a.cfg.admins.contains(user_id),
    ensures
        pressed(a, user_id, data) == (a, CallbackStepView::Note("Только для админов."@)),
{
}

/// A button of the menu chooses the model that it is labelled with.
pub proof fn law_button_chooses_its_model(a: AppView, user_id: i64, i: usize)
    requires
        a.cfg.admins.contains(user_id),
        i < a.models.models.len(),
    ensures
        pressed(a, user_id, Some("model:"@ + strings::decimal(i as nat))).0.models
            == (ModelStateView { current: i as int, ..a.models }),
{
    reveal_strlit("model:");
    let d = "model:"@ + strings::decimal(i as nat);
    assert("model:"@ =~= d.subrange(0, 6));
    assert(d.skip(6) =~= strings::decimal(i as nat));
    strings::law_parse_unsigned_decimal(i as nat, usize::MAX as nat);
}

} // verus!
