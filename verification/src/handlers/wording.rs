//! What commands, files and notes are answered with.

use vstd::prelude::*;

use crate::db;
use crate::db::guides::AddGuideKind;
use crate::handlers::addressing;
use crate::handlers::commands;
use crate::handlers::commands::Command;
use crate::handlers::commands::Figures;
use crate::handlers::effects;
use crate::handlers::files;
use crate::handlers::flow;
use crate::handlers::guides;
use crate::handlers::guides::DocumentStepView;
use crate::handlers::messages;
use crate::handlers::messages::MessageStepView;
use crate::handlers::replies;
use crate::handlers::reports;
use crate::handlers::settings;
use crate::handlers::writes;
use crate::handlers::writes::WriteView;
use crate::handlers::AppStateView;
use crate::memory;
use crate::strings;
use crate::telegram::AttachmentView;
use crate::telegram::IncomingView;
use crate::utils::mentions;

verus! {

/// The error of the first write, if there was one.
pub open spec fn first_error(errors: Seq<Option<Seq<char>>>) -> Option<Seq<char>> {
    if errors.len() > 0 {
        errors[0]
    } else {
        None
    }
}

/// What an administrator is told who sets the model: its new name, the reason why
/// it is as it was, or its name if none is given.
pub proof fn law_model_answers(
    s: AppStateView,
    msg: IncomingView,
    v: String,
    f: Figures,
    errors: Seq<Option<Seq<char>>>,
    now: i64,
)
    requires
        effects::manages(s, msg),
    ensures
        ({
            let text = commands::answer(s, msg, Command::SetModel(v), f, errors, now);
            let value = strings::trim(v@);
            let e = first_error(errors);
            let used = memory::settings_in_use(s.mgr.store.settings, s.mgr.cfg);
            &&& value.len() == 0 ==> reports::shows(text, "\n\nТекущая модель: "@, used.model)
            &&& value.len() > 256 ==> text
                == "⚠️ Название модели слишком длинное (максимум 256 символов)."@
            &&& 1 <= value.len() <= 256 && e is Some ==> text
                == "⚠️ Не удалось сохранить модель: "@ + e->0
            &&& 1 <= value.len() <= 256 && e is None ==> text == "✅ Модель успешно изменена на «"@
                + value + "»."@
        }),
{
    let used = memory::settings_in_use(s.mgr.store.settings, s.mgr.cfg);
    reveal_strlit(
        "🤖 Укажи модель: /set_model <название>\nНапример: /set_model gpt-4o-mini или /set_model deepseek/deepseek-chat\n\nТекущая модель: ",
    );
    reveal_strlit(
        "🤖 Укажи модель: /set_model <название>\nНапример: /set_model gpt-4o-mini или /set_model deepseek/deepseek-chat",
    );
    reveal_strlit("\n\nТекущая модель: ");
    let a = "🤖 Укажи модель: /set_model <название>\nНапример: /set_model gpt-4o-mini или /set_model deepseek/deepseek-chat"@;
    let start = "🤖 Укажи модель: /set_model <название>\nНапример: /set_model gpt-4o-mini или /set_model deepseek/deepseek-chat\n\nТекущая модель: "@;
    assert(start =~= a + "\n\nТекущая модель: "@);
    reports::lemma_ends(a, "\n\nТекущая модель: "@, used.model);
    reports::lemma_longer(
        start + used.model,
        "\nСбросить к значению из .env: /reset_setting model"@,
    );
}

/// What an administrator is told who sets the address.
pub proof fn law_address_answers(
    s: AppStateView,
    msg: IncomingView,
    v: String,
    f: Figures,
    errors: Seq<Option<Seq<char>>>,
    now: i64,
)
    requires
        effects::manages(s, msg),
    ensures
        ({
            let text = commands::answer(s, msg, Command::SetApi(v), f, errors, now);
            let value = strings::trim(v@);
            let web = "http://"@.is_prefix_of(value) || "https://"@.is_prefix_of(value);
            let e = first_error(errors);
            let used = memory::settings_in_use(s.mgr.store.settings, s.mgr.cfg);
            &&& value.len() == 0 ==> reports::shows(text, "\n\nТекущий адрес API: "@, used.base_url)
            &&& value.len() > 512 ==> text
                == "⚠️ Адрес API слишком длинный (максимум 512 символов)."@
            &&& 1 <= value.len() <= 512 && !web ==> text
                == "⚠️ Адрес API должен начинаться с http:// или https://"@
            &&& 1 <= value.len() <= 512 && web && e is Some ==> text
                == "⚠️ Не удалось сохранить адрес API: "@ + e->0
            &&& 1 <= value.len() <= 512 && web && e is None ==> text
                == "✅ Адрес API успешно изменён на «"@ + value + "»."@
        }),
{
    let used = memory::settings_in_use(s.mgr.store.settings, s.mgr.cfg);
    reveal_strlit(
        "🌐 Укажи адрес API: /set_api <base_url>\nНапример: /set_api https://api.openai.com/v1 или /set_api http://localhost:11434/v1\n\nТекущий адрес API: ",
    );
    reveal_strlit(
        "🌐 Укажи адрес API: /set_api <base_url>\nНапример: /set_api https://api.openai.com/v1 или /set_api http://localhost:11434/v1",
    );
    reveal_strlit("\n\nТекущий адрес API: ");
    let a = "🌐 Укажи адрес API: /set_api <base_url>\nНапример: /set_api https://api.openai.com/v1 или /set_api http://localhost:11434/v1"@;
    let start = "🌐 Укажи адрес API: /set_api <base_url>\nНапример: /set_api https://api.openai.com/v1 или /set_api http://localhost:11434/v1\n\nТекущий адрес API: "@;
    assert(start =~= a + "\n\nТекущий адрес API: "@);
    reports::lemma_ends(a, "\n\nТекущий адрес API: "@, used.base_url);
    reports::lemma_longer(
        start + used.base_url,
        "\nСбросить к значению из .env: /reset_setting api"@,
    );
}

/// What an administrator is told who sets the key: whatever the answer shows of a
/// key is masked.
pub proof fn law_key_answers(
    s: AppStateView,
    msg: IncomingView,
    v: String,
    f: Figures,
    errors: Seq<Option<Seq<char>>>,
    now: i64,
)
    requires
        effects::manages(s, msg),
    ensures
        ({
            let text = commands::answer(s, msg, Command::SetKey(v), f, errors, now);
            let value = strings::trim(v@);
            let e = first_error(errors);
            let used = memory::settings_in_use(s.mgr.store.settings, s.mgr.cfg);
            &&& value.len() == 0 ==> text
                == "🔑 Укажи API-ключ: /set_key <ключ>\nНапример: /set_key sk-...\n\nТекущий ключ: "@
                + (if used.api_key.len() == 0 {
                "<пусто / без авторизации>"@
            } else {
                settings::masked(used.api_key)
            }) + "\nСбросить к значению из .env: /reset_setting key"@
            &&& value.len() > 512 ==> text == "⚠️ Ключ слишком длинный (максимум 512 символов)."@
            &&& 1 <= value.len() <= 512 && e is Some ==> text
                == "⚠️ Не удалось сохранить API-ключ: "@ + e->0
            &&& 1 <= value.len() <= 512 && e is None ==> text == "✅ API-ключ успешно сохранён: "@
                + settings::masked(value)
        }),
{
}

/// What an administrator is told who sets the prompt, by either command.
pub proof fn law_prompt_answers(
    s: AppStateView,
    msg: IncomingView,
    v: String,
    f: Figures,
    errors: Seq<Option<Seq<char>>>,
    now: i64,
)
    requires
        effects::manages(s, msg),
    ensures
        ({
            let text = commands::answer(s, msg, Command::SetPrompt(v), f, errors, now);
            let value = strings::trim(v@);
            let e = first_error(errors);
            &&& value.len() > 4000 ==> text
                == "⚠️ Системный промпт слишком длинный (максимум 4000 символов)."@
            &&& 1 <= value.len() <= 4000 && e is Some ==> text
                == "⚠️ Не удалось сохранить системный промпт: "@ + e->0
            &&& 1 <= value.len() <= 4000 && e is None ==> text
                == "✅ Системный промпт успешно сохранён."@
            &&& value.len() == 0 ==> strings::occurs(
                text,
                memory::prompt_in_use(s.mgr.store.settings, s.mgr.cfg),
            )
            &&& commands::answer(s, msg, Command::SetSystemPrompt(v), f, errors, now) == text
        }),
{
    let prompt = memory::prompt_in_use(s.mgr.store.settings, s.mgr.cfg);
    let a = "📝 Укажи системный промпт: /set_prompt <текст>\nНапример: /set_prompt Ты — эксперт по Rust. Отвечай кратко и емко.\n\nТекущий системный промпт:\n«"@;
    strings::basics::law_occurs(
        a,
        prompt,
        "»\n\nСбросить к дефолту из .env: /reset_setting prompt"@,
    );
}

/// How a setting is called in answers.
pub open spec fn called(i: int) -> Seq<char> {
    if i == 0 {
        "модель"@
    } else if i == 1 {
        "API"@
    } else if i == 2 {
        "ключ"@
    } else {
        "системный промпт"@
    }
}

/// Under which name a setting is stored.
pub open spec fn stored_as(i: int) -> Seq<char> {
    if i == 0 {
        "llm_model"@
    } else if i == 1 {
        "llm_base_url"@
    } else if i == 2 {
        "llm_api_key"@
    } else {
        "system_prompt"@
    }
}

/// The names under which settings are stored are of different lengths.
proof fn lemma_stored_names()
    ensures
        "llm_model"@.len() == 9,
        "llm_base_url"@.len() == 12,
        "llm_api_key"@.len() == 11,
        "system_prompt"@.len() == 13,
{
    reveal_strlit("llm_model");
    reveal_strlit("llm_base_url");
    reveal_strlit("llm_api_key");
    reveal_strlit("system_prompt");
}

/// What an administrator is told who resets a setting: whether it was set, the
/// error, or which words there are.
pub proof fn law_reset_answers(
    s: AppStateView,
    msg: IncomingView,
    q: String,
    f: Figures,
    errors: Seq<Option<Seq<char>>>,
    now: i64,
)
    requires
        effects::manages(s, msg),
    ensures
        ({
            let text = commands::answer(s, msg, Command::ResetSetting(q), f, errors, now);
            let query = strings::lowercase(strings::trim(q@));
            let word = effects::meant(query);
            let e = first_error(errors);
            let store = s.mgr.store.settings;
            &&& word is None && query.len() > 0 ==> text
                == "⚠️ Неизвестная настройка. Доступно: model, api, key, prompt, all."@
            &&& word is Some && word != Some(4int) && e is Some ==> text
                == "⚠️ Не удалось сбросить: "@ + e->0
            &&& word is Some && word != Some(4int) && e is None && store.contains_key(
                stored_as(word->0),
            ) ==> text == "♻️ Настройка «"@ + called(word->0) + "» сброшена к значению из .env."@
            &&& word is Some && word != Some(4int) && e is None && !store.contains_key(
                stored_as(word->0),
            ) ==> text == "Настройка «"@ + called(word->0) + "» и так использует значение из .env."@
        }),
{
    lemma_stored_names();
    lemma_words_have_letters();
    effects::lemma_words_differ(strings::lowercase(strings::trim(q@)));
}

/// The words for settings are not empty.
proof fn lemma_words_have_letters()
    ensures
        "model"@.len() == 5,
        "модель"@.len() == 6,
        "api"@.len() == 3,
        "url"@.len() == 3,
        "base_url"@.len() == 8,
        "адрес"@.len() == 5,
        "key"@.len() == 3,
        "ключ"@.len() == 4,
        "prompt"@.len() == 6,
        "system_prompt"@.len() == 13,
        "промпт"@.len() == 6,
        "all"@.len() == 3,
        "всё"@.len() == 3,
        "все"@.len() == 3,
{
    reveal_strlit("model");
    reveal_strlit("модель");
    reveal_strlit("api");
    reveal_strlit("url");
    reveal_strlit("base_url");
    reveal_strlit("адрес");
    reveal_strlit("key");
    reveal_strlit("ключ");
    reveal_strlit("prompt");
    reveal_strlit("system_prompt");
    reveal_strlit("промпт");
    reveal_strlit("all");
    reveal_strlit("всё");
    reveal_strlit("все");
}

/// The word for all removes the four settings one by one: each is the default
/// again if and only if its own removal ended without an error, and the answer
/// tells whether any was set.
pub proof fn law_reset_all(
    s: AppStateView,
    msg: IncomingView,
    q: String,
    f: Figures,
    errors: Seq<Option<Seq<char>>>,
    now: i64,
    i: int,
)
    requires
        effects::manages(s, msg),
        effects::meant(strings::lowercase(strings::trim(q@))) == Some(4int),
        errors.len() == 4,
        0 <= i < 4,
    ensures
        ({
            let cmd = Command::ResetSetting(q);
            let before = s.mgr.store.settings;
            let after = commands::after_command(s, msg, cmd, errors, now).settings;
            let text = commands::answer(s, msg, cmd, f, errors, now);
            &&& writes::writes_for(s, msg, cmd, now) == seq![
                WriteView::DropSetting("llm_model"@),
                WriteView::DropSetting("llm_base_url"@),
                WriteView::DropSetting("llm_api_key"@),
                WriteView::DropSetting("system_prompt"@),
            ]
            &&& errors[i] is None ==> !after.contains_key(stored_as(i))
            &&& errors[i] is Some ==> after.get(stored_as(i)) == before.get(stored_as(i))
            &&& errors[i] is None && before.contains_key(stored_as(i)) ==> text
                == "♻️ Все настройки сброшены к значениям по умолчанию из .env."@
            &&& (forall|k: int|
                0 <= k < 4 ==> !before.contains_key(#[trigger] stored_as(k))) ==> text
                == "Настройки и так используют значения по умолчанию из .env."@
        }),
{
    lemma_stored_names();
    lemma_words_have_letters();
    let before = s.mgr.store.settings;
    if forall|k: int| 0 <= k < 4 ==> !before.contains_key(#[trigger] stored_as(k)) {
        assert(!before.contains_key(stored_as(0)) && !before.contains_key(stored_as(1))
            && !before.contains_key(stored_as(2)) && !before.contains_key(stored_as(3)));
    }
}

/// Why a guide is refused, in words.
pub open spec fn refused_as(reason: AddGuideKind) -> Seq<char> {
    match reason {
        AddGuideKind::Empty => "⚠️ "@ + "текст гайда пуст"@,
        AddGuideKind::Duplicate => "⚠️ "@ + "гайд с таким названием уже существует"@,
        AddGuideKind::Full => "⚠️ "@ + ("ошибка базы данных: "@ + "database or disk is full"@),
    }
}

/// What an administrator is told who adds a guide: its title and the number of its
/// fragments, or what is missing or wrong.
pub proof fn law_add_answers(
    s: AppStateView,
    msg: IncomingView,
    title: String,
    f: Figures,
    errors: Seq<Option<Seq<char>>>,
    now: i64,
)
    requires
        effects::manages(s, msg),
    ensures
        ({
            let answer = commands::answer(s, msg, Command::GuideAdd(title), f, errors, now);
            let name = strings::trim(title@);
            let text = files::replied_text(msg);
            let g = s.mgr.store.guides;
            let reason = g.refusal(name, text->0);
            let e = first_error(errors);
            &&& name.len() == 0 ==> answer
                == "Укажи название: /guide_add Моё название — и ответь этой командой на сообщение с текстом гайда."@
            &&& name.len() > 0 && text is None ==> answer
                == "Ответь этой командой на сообщение, текст которого нужно сохранить как гайд."@
            &&& name.len() > 0 && text is Some && reason is Some ==> answer == refused_as(reason->0)
            &&& name.len() > 0 && text is Some && reason is None && e is Some ==> answer
                == "⚠️ ошибка базы данных: "@ + e->0
            &&& name.len() > 0 && text is Some && reason is None && e is None ==> answer
                == "📚 Гайд «"@ + name + "» сохранён ("@ + strings::decimal(
                g.new_row(name, msg.user_id(), text->0, now).chunks.len(),
            ) + " фрагментов)."@
        }),
{
}

/// What an administrator is told who removes a guide.
pub proof fn law_delete_answers(
    s: AppStateView,
    msg: IncomingView,
    query: String,
    f: Figures,
    errors: Seq<Option<Seq<char>>>,
    now: i64,
)
    requires
        effects::manages(s, msg),
        s.mgr.store.guides.wf(),
    ensures
        ({
            let answer = commands::answer(s, msg, Command::GuideDel(query), f, errors, now);
            let name = strings::trim(query@);
            let found = db::guides::named(s.mgr.store.guides.rows, name);
            let e = first_error(errors);
            &&& name.len() == 0 ==> answer
                == "Укажи гайд: /guide_del <название или id>. Список: /guides"@
            &&& name.len() > 0 && (found is None || e is Some) ==> answer
                == "Гайд не найден. Список: /guides"@
            &&& name.len() > 0 && found is Some && e is None ==> answer == "🗑 Гайд удалён."@
        }),
{
    let rows = s.mgr.store.guides.rows;
    let found = db::guides::named(rows, strings::trim(query@));
    if found is Some {
        files::lemma_named_place(rows, strings::trim(query@));
        db::guides::lemma_by_id(rows, rows[found->0].guide_id);
    }
}

/// What a file that is not fetched is answered with: the first thing that is wrong
/// with it.
pub proof fn law_why_files_are_refused(s: AppStateView, msg: IncomingView, d: AttachmentView)
    requires
        msg.from is Some,
    ensures
        ({
            let step = guides::document_step(s, msg, d);
            let manages = effects::manages(s, msg);
            let large = d.size > 5 * 1024 * 1024;
            &&& !msg.private && s.bot_username is Some ==> step == DocumentStepView::Reply(
                "ℹ️ Команды и настройки бота доступны только в личных сообщениях: @"@
                    + s.bot_username->0,
            )
            &&& !msg.private && s.bot_username is None ==> step == DocumentStepView::Reply(
                "ℹ️ Команды и настройки бота доступны только в личных сообщениях с ботом."@,
            )
            &&& msg.private && !manages ==> step == DocumentStepView::Reply(
                "🔒 Загружать гайды может только администратор бота."@,
            )
            &&& msg.private && manages && large ==> step == DocumentStepView::Reply(
                "⚠️ Файл слишком большой, лимит — 5 МБ."@,
            )
            &&& msg.private && manages && !large && !guides::text_document(d) ==> step
                == DocumentStepView::Reply(
                "⚠️ Принимаю только текстовые файлы: .txt, .md, .csv, .json, .log, .yaml и похожие."@,
            )
        }),
{
}

/// What is said about a fetched file: as about a guide that is added, under the
/// title of the file.
pub proof fn law_file_answers(
    s: AppStateView,
    msg: IncomingView,
    d: AttachmentView,
    content: Seq<char>,
    error: Option<Seq<char>>,
    now: i64,
)
    ensures
        ({
            let answer = guides::document_saved(s, msg, d, content, error, now).1;
            let title = guides::document_title(msg.caption, d.file_name);
            let g = s.mgr.store.guides;
            let reason = g.refusal(title, content);
            &&& strings::blank(title) ==> answer
                == "Укажи название гайда в подписи к файлу (первая строка) и пришли файл ещё раз."@
            &&& !strings::blank(title) && reason is Some ==> answer == refused_as(reason->0)
            &&& !strings::blank(title) && reason is None && error is Some ==> answer
                == "⚠️ ошибка базы данных: "@ + error->0
            &&& !strings::blank(title) && reason is None && error is None ==> answer == "📚 Гайд «"@
                + title + "» сохранён ("@ + strings::decimal(
                g.new_row(title, msg.user_id(), content, now).chunks.len(),
            ) + " фрагментов)."@
        }),
{
}

/// What the other commands are answered with: the help depends on who asks, the
/// reports are about this chat and this bot, a reset tells whether it was done.
pub proof fn law_other_answers(
    s: AppStateView,
    msg: IncomingView,
    f: Figures,
    errors: Seq<Option<Seq<char>>>,
    now: i64,
)
    ensures
        ({
            let admin = effects::manages(s, msg);
            let e = first_error(errors);
            let start = commands::answer(s, msg, Command::Start, f, errors, now);
            let reset = commands::answer(s, msg, Command::Reset, f, errors, now);
            let summary = commands::answer(s, msg, Command::Summary, f, errors, now);
            &&& start == commands::answer(s, msg, Command::Help, f, errors, now)
            &&& admin ==> start == commands::HELP_ADMIN_TEXT@
            &&& !admin ==> start == commands::HELP_USER_TEXT@
            &&& admin && e is Some ==> reset == "⚠️ Не удалось очистить память."@
            &&& admin && e is None ==> reset
                == "🧠 Готово: память чата очищена. Гайды сохранены — список: /guides"@
            &&& admin ==> commands::answer(s, msg, Command::Memory, f, errors, now)
                == commands::memory_report(s, msg.chat_id, f)
            &&& admin ==> commands::answer(s, msg, Command::Settings, f, errors, now)
                == settings::settings_report(s.mgr.store.settings, s.mgr.cfg)
            &&& admin ==> commands::answer(s, msg, Command::Guides, f, errors, now)
                == guides::guide_list(
                s.mgr.store.guides.rows.map_values(
                    |g: db::guides::GuideRowView| db::guides::info(g),
                ),
            )
            &&& admin ==> summary
                == "🧠 Команда /summary не требуется — KostubetAI помнит историю сообщений дословно, без искажающих пересказов.\n\nСтатистика памяти: /memory"@
            &&& !admin ==> summary
                == "🧠 Я помню контекст нашей беседы дословно. Просто продолжай диалог!"@
        }),
{
}

/// Who asks too often is told the limit and its window.
pub proof fn law_too_often(max: usize, seconds: u64, minutes: Seq<char>)
    ensures
        reports::shows(
            messages::too_often(max, seconds, minutes),
            "⏳ Слишком частые запросы! Лимит — "@,
            strings::decimal(max as nat),
        ),
        reports::shows(
            messages::too_often(max, seconds, minutes),
            " сообщений за "@,
            messages::window_text(seconds, minutes),
        ),
        seconds >= 60 && seconds % 60 != 0 ==> messages::window_text(seconds, minutes) == minutes
            + " мин."@,
{
    let e = Seq::<char>::empty();
    let first = "⏳ Слишком частые запросы! Лимит — "@;
    let number = strings::decimal(max as nat);
    let window = messages::window_text(seconds, minutes);
    let r1 = first + number;
    reports::lemma_ends(e, first, number);
    assert(e + first + number =~= r1);
    let r2 = r1 + " сообщений за "@;
    reports::lemma_longer(r1, " сообщений за "@);
    reports::lemma_ends(r1, " сообщений за "@, window);
    reports::lemma_longer(r2, window);
    reports::lemma_longer(r2 + window, " Подожди немного и попробуй снова."@);
}

/// A word that starts with the tag of the bot addresses the bot, and what stands
/// right behind the tag is the question.
pub proof fn law_text_behind_the_tag(
    msg: IncomingView,
    bot_id: u64,
    username: Seq<char>,
    rest: Seq<char>,
)
    requires
        !msg.private,
        strings::no_white(mentions::mention(username) + rest),
        rest.len() > 0,
        strings::lowercase(mentions::mention(username)).is_prefix_of(
            strings::lowercase(mentions::mention(username) + rest),
        ),
    ensures
        replies::answered(msg, bot_id, Some(username), mentions::mention(username) + rest) == (
            true,
            rest,
        ),
{
    reveal_strlit("@");
    reveal_strlit(" ");
    let tag = mentions::mention(username);
    let word = tag + rest;
    assert(replies::tag_of(username) =~= tag);
    strings::lemma_words_single(word);
    let words = strings::words(word);
    assert(words =~= seq![word]);
    assert(words.drop_last() =~= Seq::empty());
    assert(words.last() == word);
    if replies::is_tag(word, tag) {
        assert(strings::fold(word).len() == word.len());
        assert(strings::fold(tag).len() == tag.len());
    }
    addressing::law_tag_is_cut_off(username, rest);
    assert(replies::without_tag(words.drop_last(), tag) == (false, Seq::<Seq<char>>::empty()));
    assert(replies::without_tag(words, tag).1 =~= seq![rest]);
    assert(strings::join(seq![rest], " "@) == rest);
    assert(strings::no_white(rest)) by {
        assert forall|i: int| 0 <= i < rest.len() implies !strings::is_white(
            #[trigger] rest[i],
        ) by {
            assert(word[tag.len() + i] == rest[i]);
        }
    }
    strings::lemma_words_single(rest);
    assert(strings::words(rest) =~= seq![rest]);
}

/// A command in a group is answered with a hint at private chats, whether the name
/// of the bot is known or not.
pub proof fn law_hints_at_private_chats(s: AppStateView, msg: IncomingView, now: u64)
    requires
        flow::in_place(s.cfg, msg),
        msg.document is None,
        !msg.private,
        flow::said(msg) is Some,
        flow::said(msg)->0.len() > 0,
        flow::said(msg)->0[0] == '/',
    ensures
        messages::received(s, msg, now) == (
            s,
            MessageStepView::Send(
                match s.bot_username {
                    Some(name) =>
                        "ℹ️ Команды и настройки бота доступны только в личных сообщениях: @"@ + name,
                    None =>
                        "ℹ️ Команды и настройки бота доступны только в личных сообщениях с ботом."@,
                },
            ),
        ),
{
    flow::law_places(s.cfg, msg);
}

/// A fetched file is written as one guide, unless it is refused.
pub proof fn law_file_writes(
    s: AppStateView,
    msg: IncomingView,
    d: AttachmentView,
    content: Seq<char>,
    now: i64,
)
    ensures
        ({
            let title = guides::document_title(msg.caption, d.file_name);
            let g = s.mgr.store.guides;
            let list = writes::document_writes_for(s, msg, d, content, now);
            &&& g.refusal(title, content) is None ==> list == seq![
                WriteView::AddGuide(g.new_row(title, msg.user_id(), content, now)),
            ]
            &&& g.refusal(title, content) is Some ==> list == Seq::<WriteView>::empty()
        }),
{
}

/// The author of a message goes by their own id, and zero stands for nobody; the
/// text of a message, or else its caption, is what it says.
pub proof fn law_authors_and_texts(msg: IncomingView)
    ensures
        msg.from is None ==> msg.user_id() == 0,
        msg.from is Some && msg.from->0.id <= i64::MAX ==> msg.user_id() == msg.from->0.id,
        msg.text is Some ==> msg.body() == msg.text,
        msg.text is None ==> msg.body() == msg.caption,
        msg.reply matches Some(r) ==> r.body() == if r.text is Some {
            r.text
        } else {
            r.caption
        },
        msg.replies_to_topic() <==> msg.reply is Some && (msg.reply->0.topic_created || (
        msg.thread_id is Some && msg.thread_id->0 == msg.reply->0.message_id)),
{
}

} // verus!
