//! The settings of the API, the model and the prompt.

use vstd::prelude::*;

use crate::db::MemoryView;
use crate::handlers::access;
use crate::handlers::writes;
use crate::handlers::AppState;
use crate::handlers::AppStateView;
use crate::memory;
use crate::memory::MemoryConfig;
use crate::memory::MemoryManager;
use crate::memory::MemoryManagerView;
use crate::memory::SettingsSnapshot;
use crate::memory::SETTING_API_KEY;
use crate::memory::SETTING_BASE_URL;
use crate::memory::SETTING_MODEL;
use crate::memory::SETTING_SYSTEM_PROMPT;
use crate::strings;

verus! {

/// The answer to everyone but administrators.
pub const SETTINGS_LOCKED: &'static str = "🔒 Настройки доступны только администратору бота.";

/// The state with other settings.
pub open spec fn with_settings(
    s: AppStateView,
    settings: Map<Seq<char>, Seq<char>>,
) -> AppStateView {
    AppStateView {
        mgr: MemoryManagerView {
            store: MemoryView { settings: settings, ..s.mgr.store },
            ..s.mgr
        },
        ..s
    }
}

/// A key that is not to be shown: its first three and last two characters and
/// its length. A short key is not shown at all.
pub open spec fn masked(key: Seq<char>) -> Seq<char> {
    if key.len() <= 6 {
        "••••"@
    } else {
        key.take(3) + "…"@ + key.skip(key.len() - 2) + " (скрыт, "@ + strings::decimal(key.len())
            + " симв.)"@
    }
}

/// See [`masked`].
pub fn mask_key(key: &str) -> (r: String)
    ensures
        r@ == masked(key@),
{
    let cs = strings::chars_of(key);
    let n: usize = cs.len();
    if n <= 6 {
        return "••••".to_owned();
    }
    let head = vstd::slice::slice_subrange(cs.as_slice(), 0, 3);
    let tail = vstd::slice::slice_subrange(cs.as_slice(), n - 2, n);
    proof {
        assert(head@ =~= key@.take(3));
        assert(tail@ =~= key@.skip(n - 2));
    }
    let mut out = strings::string_of(head);
    out.append("…");
    out.append(strings::string_of(tail).as_str());
    out.append(" (скрыт, ");
    out.append(strings::decimal_u64(n as u64).as_str());
    out.append(" симв.)");
    out
}

/// The middle of a key does not show: keys that differ only there look the
/// same.
pub proof fn law_mask_hides_middle(a: Seq<char>, b: Seq<char>)
    requires
        a.len() == b.len(),
        a.len() > 6 ==> a.take(3) == b.take(3) && a.skip(a.len() - 2) == b.skip(b.len() - 2),
    ensures
        masked(a) == masked(b),
{
}

/// The start of a text, with dots if there is more of it.
pub open spec fn preview(text: Seq<char>, n: int) -> Seq<char> {
    if text.len() > n {
        strings::take_chars(text, n) + "..."@
    } else {
        text
    }
}

/// See [`preview`].
fn preview_of(text: &str, n: usize) -> (r: String)
    ensures
        r@ == preview(text@, n as int),
{
    if text.unicode_len() > n {
        let mut out = strings::first_chars(text, n);
        out.append("...");
        out
    } else {
        text.to_owned()
    }
}

/// Where the value of a setting comes from.
pub open spec fn origin(settings: Map<Seq<char>, Seq<char>>, key: Seq<char>) -> Seq<char> {
    if settings.contains_key(key) {
        "✏️ переопределено в БД"@
    } else {
        "по умолчанию (.env)"@
    }
}

/// Where the value of a setting in a snapshot comes from.
fn origin_of(s: &SettingsSnapshot, key: &str) -> (r: &'static str)
    ensures
        strings::views(s.overridden@).contains(key@) ==> r@ == "✏️ переопределено в БД"@,
        !strings::views(s.overridden@).contains(key@) ==> r@ == "по умолчанию (.env)"@,
{
    if s.is_overridden(key) {
        "✏️ переопределено в БД"
    } else {
        "по умолчанию (.env)"
    }
}

/// The report about the settings.
pub open spec fn settings_report(
    settings: Map<Seq<char>, Seq<char>>,
    cfg: MemoryConfig,
) -> Seq<char> {
    let used = memory::settings_in_use(settings, cfg);
    let key = if used.api_key.len() == 0 {
        "<пусто / без ключа>"@
    } else {
        masked(used.api_key)
    };
    "⚙️ Текущие настройки LLM\n\nМодель: "@ + used.model + "\n  → "@ + origin(
        settings,
        SETTING_MODEL@,
    ) + "\nAPI: "@ + used.base_url + "\n  → "@ + origin(settings, SETTING_BASE_URL@)
        + "\nКлюч: "@ + key + "\n  → "@ + origin(settings, SETTING_API_KEY@) + "\nПромпт: «"@
        + preview(memory::prompt_in_use(settings, cfg), 80) + "»\n  → "@ + origin(
        settings,
        SETTING_SYSTEM_PROMPT@,
    ) + "\n\nДефолт из .env: модель «"@ + cfg.llm_model@ + "», API «"@ + cfg.llm_base_url@
        + "»\nДефолтный промпт: «"@ + preview(cfg.default_system_prompt@, 60)
        + "»\n\nКоманды изменения:\n/set_model <модель>\n/set_api <base_url>\n/set_key <ключ>\n/set_prompt <текст>\n/reset_setting <model|api|key|prompt|all>"@
}

/// The report about the settings: see [`settings_report`].
pub fn format_settings(mgr: &MemoryManager) -> (r: String)
    requires
        mgr.wf(),
    ensures
        r@ == settings_report(mgr@.store.settings, mgr@.cfg),
{
    let s = mgr.settings_snapshot();
    let key = if s.api_key.as_str().is_empty() {
        "<пусто / без ключа>".to_owned()
    } else {
        mask_key(s.api_key.as_str())
    };
    let mut out = "⚙️ Текущие настройки LLM\n\nМодель: ".to_owned();
    out.append(s.model.as_str());
    out.append("\n  → ");
    out.append(origin_of(&s, SETTING_MODEL));
    out.append("\nAPI: ");
    out.append(s.base_url.as_str());
    out.append("\n  → ");
    out.append(origin_of(&s, SETTING_BASE_URL));
    out.append("\nКлюч: ");
    out.append(key.as_str());
    out.append("\n  → ");
    out.append(origin_of(&s, SETTING_API_KEY));
    out.append("\nПромпт: «");
    out.append(preview_of(s.system_prompt.as_str(), 80).as_str());
    out.append("»\n  → ");
    out.append(origin_of(&s, SETTING_SYSTEM_PROMPT));
    out.append("\n\nДефолт из .env: модель «");
    out.append(s.default_model.as_str());
    out.append("», API «");
    out.append(s.default_base_url.as_str());
    out.append("»\nДефолтный промпт: «");
    out.append(preview_of(s.default_system_prompt.as_str(), 60).as_str());
    out.append(
        "»\n\nКоманды изменения:\n/set_model <модель>\n/set_api <base_url>\n/set_key <ключ>\n/set_prompt <текст>\n/reset_setting <model|api|key|prompt|all>",
    );
    out
}

/// What setting the model does once the value has been written, or could not be:
/// the settings after it and the answer.
pub open spec fn set_model(
    s: AppStateView,
    user_id: i64,
    text: Seq<char>,
    error: Option<Seq<char>>,
) -> (Map<Seq<char>, Seq<char>>, Seq<char>) {
    let settings = s.mgr.store.settings;
    let value = strings::trim(text);
    if !access::open_to(s.cfg.admins, user_id) {
        (settings, SETTINGS_LOCKED@)
    } else if value.len() == 0 {
        (
            settings,
            "🤖 Укажи модель: /set_model <название>\nНапример: /set_model gpt-4o-mini или /set_model deepseek/deepseek-chat\n\nТекущая модель: "@
                + memory::settings_in_use(settings, s.mgr.cfg).model
                + "\nСбросить к значению из .env: /reset_setting model"@,
        )
    } else if value.len() > 256 {
        (settings, "⚠️ Название модели слишком длинное (максимум 256 символов)."@)
    } else {
        match error {
            Some(e) => (settings, "⚠️ Не удалось сохранить модель: "@ + e),
            None => (
                settings.insert(SETTING_MODEL@, value),
                "✅ Модель успешно изменена на «"@ + value + "»."@,
            ),
        }
    }
}

/// Sets the model, unless its write ended with an error.
pub fn handle_set_model(
    state: &mut AppState,
    user_id: i64,
    value: &str,
    error: &Option<String>,
) -> (r: String)
    requires
        old(state).mgr.wf(),
    ensures
        final(state).mgr.wf(),
        ({
            let (settings, text) = set_model(
                old(state)@,
                user_id,
                value@,
                strings::optional(*error),
            );
            &&& final(state)@ == with_settings(old(state)@, settings)
            &&& r@ == text
        }),
{
    if !access::is_admin(state, user_id) {
        return SETTINGS_LOCKED.to_owned();
    }
    let value = strings::trimmed(value);
    if value.as_str().is_empty() {
        let mut out =
            "🤖 Укажи модель: /set_model <название>\nНапример: /set_model gpt-4o-mini или /set_model deepseek/deepseek-chat\n\nТекущая модель: ".to_owned();
        out.append(state.mgr.effective_settings().model.as_str());
        out.append("\nСбросить к значению из .env: /reset_setting model");
        return out;
    }
    if value.as_str().unicode_len() > 256 {
        return "⚠️ Название модели слишком длинное (максимум 256 символов).".to_owned();
    }
    match error {
        Some(e) => {
            let mut out = "⚠️ Не удалось сохранить модель: ".to_owned();
            out.append(e.as_str());
            return out;
        },
        None => {},
    }
    state.mgr.set_setting(SETTING_MODEL, value.as_str());
    let mut out = "✅ Модель успешно изменена на «".to_owned();
    out.append(value.as_str());
    out.append("».");
    out
}

/// What setting the address of the API does once the value has been written, or
/// could not be: the settings after it and the answer.
pub open spec fn set_api(
    s: AppStateView,
    user_id: i64,
    text: Seq<char>,
    error: Option<Seq<char>>,
) -> (Map<Seq<char>, Seq<char>>, Seq<char>) {
    let settings = s.mgr.store.settings;
    let value = strings::trim(text);
    if !access::open_to(s.cfg.admins, user_id) {
        (settings, SETTINGS_LOCKED@)
    } else if value.len() == 0 {
        (
            settings,
            "🌐 Укажи адрес API: /set_api <base_url>\nНапример: /set_api https://api.openai.com/v1 или /set_api http://localhost:11434/v1\n\nТекущий адрес API: "@
                + memory::settings_in_use(settings, s.mgr.cfg).base_url
                + "\nСбросить к значению из .env: /reset_setting api"@,
        )
    } else if value.len() > 512 {
        (settings, "⚠️ Адрес API слишком длинный (максимум 512 символов)."@)
    } else if !"http://"@.is_prefix_of(value) && !"https://"@.is_prefix_of(value) {
        (settings, "⚠️ Адрес API должен начинаться с http:// или https://"@)
    } else {
        match error {
            Some(e) => (settings, "⚠️ Не удалось сохранить адрес API: "@ + e),
            None => (
                settings.insert(SETTING_BASE_URL@, value),
                "✅ Адрес API успешно изменён на «"@ + value + "»."@,
            ),
        }
    }
}

/// Sets the address of the API, unless its write ended with an error.
pub fn handle_set_api(
    state: &mut AppState,
    user_id: i64,
    value: &str,
    error: &Option<String>,
) -> (r: String)
    requires
        old(state).mgr.wf(),
    ensures
        final(state).mgr.wf(),
        ({
            let (settings, text) = set_api(
                old(state)@,
                user_id,
                value@,
                strings::optional(*error),
            );
            &&& final(state)@ == with_settings(old(state)@, settings)
            &&& r@ == text
        }),
{
    if !access::is_admin(state, user_id) {
        return SETTINGS_LOCKED.to_owned();
    }
    let value = strings::trimmed(value);
    if value.as_str().is_empty() {
        let mut out =
            "🌐 Укажи адрес API: /set_api <base_url>\nНапример: /set_api https://api.openai.com/v1 или /set_api http://localhost:11434/v1\n\nТекущий адрес API: ".to_owned();
        out.append(state.mgr.effective_settings().base_url.as_str());
        out.append("\nСбросить к значению из .env: /reset_setting api");
        return out;
    }
    if value.as_str().unicode_len() > 512 {
        return "⚠️ Адрес API слишком длинный (максимум 512 символов).".to_owned();
    }
    if !strings::starts_with(value.as_str(), "http://") && !strings::starts_with(
        value.as_str(),
        "https://",
    ) {
        return "⚠️ Адрес API должен начинаться с http:// или https://".to_owned();
    }
    match error {
        Some(e) => {
            let mut out = "⚠️ Не удалось сохранить адрес API: ".to_owned();
            out.append(e.as_str());
            return out;
        },
        None => {},
    }
    state.mgr.set_setting(SETTING_BASE_URL, value.as_str());
    let mut out = "✅ Адрес API успешно изменён на «".to_owned();
    out.append(value.as_str());
    out.append("».");
    out
}

/// What setting the key does once the value has been written, or could not be:
/// the settings after it and the answer.
pub open spec fn set_key(
    s: AppStateView,
    user_id: i64,
    text: Seq<char>,
    error: Option<Seq<char>>,
) -> (Map<Seq<char>, Seq<char>>, Seq<char>) {
    let settings = s.mgr.store.settings;
    let value = strings::trim(text);
    if !access::open_to(s.cfg.admins, user_id) {
        (settings, SETTINGS_LOCKED@)
    } else if value.len() == 0 {
        let current = memory::settings_in_use(settings, s.mgr.cfg).api_key;
        (
            settings,
            "🔑 Укажи API-ключ: /set_key <ключ>\nНапример: /set_key sk-...\n\nТекущий ключ: "@ + (
            if current.len() == 0 {
                "<пусто / без авторизации>"@
            } else {
                masked(current)
            }) + "\nСбросить к значению из .env: /reset_setting key"@,
        )
    } else if value.len() > 512 {
        (settings, "⚠️ Ключ слишком длинный (максимум 512 символов)."@)
    } else {
        match error {
            Some(e) => (settings, "⚠️ Не удалось сохранить API-ключ: "@ + e),
            None => (
                settings.insert(SETTING_API_KEY@, value),
                "✅ API-ключ успешно сохранён: "@ + masked(value),
            ),
        }
    }
}

/// Sets the key of the API, unless its write ended with an error.
pub fn handle_set_key(
    state: &mut AppState,
    user_id: i64,
    value: &str,
    error: &Option<String>,
) -> (r: String)
    requires
        old(state).mgr.wf(),
    ensures
        final(state).mgr.wf(),
        ({
            let (settings, text) = set_key(
                old(state)@,
                user_id,
                value@,
                strings::optional(*error),
            );
            &&& final(state)@ == with_settings(old(state)@, settings)
            &&& r@ == text
        }),
{
    if !access::is_admin(state, user_id) {
        return SETTINGS_LOCKED.to_owned();
    }
    let value = strings::trimmed(value);
    if value.as_str().is_empty() {
        let current = state.mgr.effective_settings().api_key;
        let mut out =
            "🔑 Укажи API-ключ: /set_key <ключ>\nНапример: /set_key sk-...\n\nТекущий ключ: ".to_owned();
        if current.as_str().is_empty() {
            out.append("<пусто / без авторизации>");
        } else {
            out.append(mask_key(current.as_str()).as_str());
        }
        out.append("\nСбросить к значению из .env: /reset_setting key");
        return out;
    }
    if value.as_str().unicode_len() > 512 {
        return "⚠️ Ключ слишком длинный (максимум 512 символов).".to_owned();
    }
    match error {
        Some(e) => {
            let mut out = "⚠️ Не удалось сохранить API-ключ: ".to_owned();
            out.append(e.as_str());
            return out;
        },
        None => {},
    }
    state.mgr.set_setting(SETTING_API_KEY, value.as_str());
    let mut out = "✅ API-ключ успешно сохранён: ".to_owned();
    out.append(mask_key(value.as_str()).as_str());
    out
}

/// What setting the system prompt does once the value has been written, or could
/// not be: the settings after it and the answer.
pub open spec fn set_prompt(
    s: AppStateView,
    user_id: i64,
    text: Seq<char>,
    error: Option<Seq<char>>,
) -> (Map<Seq<char>, Seq<char>>, Seq<char>) {
    let settings = s.mgr.store.settings;
    let value = strings::trim(text);
    if !access::open_to(s.cfg.admins, user_id) {
        (settings, SETTINGS_LOCKED@)
    } else if value.len() == 0 {
        (
            settings,
            "📝 Укажи системный промпт: /set_prompt <текст>\nНапример: /set_prompt Ты — эксперт по Rust. Отвечай кратко и емко.\n\nТекущий системный промпт:\n«"@
                + memory::prompt_in_use(settings, s.mgr.cfg)
                + "»\n\nСбросить к дефолту из .env: /reset_setting prompt"@,
        )
    } else if value.len() > 4000 {
        (settings, "⚠️ Системный промпт слишком длинный (максимум 4000 символов)."@)
    } else {
        match error {
            Some(e) => (settings, "⚠️ Не удалось сохранить системный промпт: "@ + e),
            None => (
                settings.insert(SETTING_SYSTEM_PROMPT@, value),
                "✅ Системный промпт успешно сохранён."@,
            ),
        }
    }
}

/// Sets the system prompt, unless its write ended with an error.
pub fn handle_set_prompt(
    state: &mut AppState,
    user_id: i64,
    value: &str,
    error: &Option<String>,
) -> (r: String)
    requires
        old(state).mgr.wf(),
    ensures
        final(state).mgr.wf(),
        ({
            let (settings, text) = set_prompt(
                old(state)@,
                user_id,
                value@,
                strings::optional(*error),
            );
            &&& final(state)@ == with_settings(old(state)@, settings)
            &&& r@ == text
        }),
{
    if !access::is_admin(state, user_id) {
        return SETTINGS_LOCKED.to_owned();
    }
    let value = strings::trimmed(value);
    if value.as_str().is_empty() {
        let mut out =
            "📝 Укажи системный промпт: /set_prompt <текст>\nНапример: /set_prompt Ты — эксперт по Rust. Отвечай кратко и емко.\n\nТекущий системный промпт:\n«".to_owned();
        out.append(state.mgr.effective_system_prompt().as_str());
        out.append("»\n\nСбросить к дефолту из .env: /reset_setting prompt");
        return out;
    }
    if value.as_str().unicode_len() > 4000 {
        return "⚠️ Системный промпт слишком длинный (максимум 4000 символов).".to_owned();
    }
    match error {
        Some(e) => {
            let mut out = "⚠️ Не удалось сохранить системный промпт: ".to_owned();
            out.append(e.as_str());
            return out;
        },
        None => {},
    }
    state.mgr.set_setting(SETTING_SYSTEM_PROMPT, value.as_str());
    "✅ Системный промпт успешно сохранён.".to_owned()
}

/// The name of a setting for the user.
pub open spec fn label(key: Seq<char>) -> Seq<char> {
    if key == SETTING_MODEL@ {
        "модель"@
    } else if key == SETTING_BASE_URL@ {
        "API"@
    } else if key == SETTING_API_KEY@ {
        "ключ"@
    } else if key == SETTING_SYSTEM_PROMPT@ {
        "системный промпт"@
    } else {
        "настройка"@
    }
}

/// See [`label`].
pub fn setting_label(key: &str) -> (r: &'static str)
    ensures
        r@ == label(key@),
{
    if strings::str_eq(key, SETTING_MODEL) {
        "модель"
    } else if strings::str_eq(key, SETTING_BASE_URL) {
        "API"
    } else if strings::str_eq(key, SETTING_API_KEY) {
        "ключ"
    } else if strings::str_eq(key, SETTING_SYSTEM_PROMPT) {
        "системный промпт"
    } else {
        "настройка"
    }
}

/// A value that can be set: an administrator's, not empty, not too long, and an
/// address where one is asked for.
pub open spec fn accepted(
    s: AppStateView,
    user_id: i64,
    text: Seq<char>,
    most: int,
    address: bool,
) -> bool {
    let value = strings::trim(text);
    &&& access::open_to(s.cfg.admins, user_id)
    &&& 0 < value.len() <= most
    &&& address ==> "http://"@.is_prefix_of(value) || "https://"@.is_prefix_of(value)
}

/// See [`accepted`].
pub fn is_accepted(state: &AppState, user_id: i64, text: &str, most: usize, address: bool) -> (r:
    bool)
    ensures
        r == accepted(state@, user_id, text@, most as int, address),
{
    let value = strings::trimmed(text);
    access::is_admin(state, user_id) && !value.as_str().is_empty() && value.as_str().unicode_len()
        <= most && (!address || strings::starts_with(value.as_str(), "http://")
        || strings::starts_with(value.as_str(), "https://"))
}

/// The query means all settings.
pub open spec fn means_all(query: Seq<char>) -> bool {
    query == "all"@ || query == "всё"@ || query == "все"@
}

/// The setting that a query names.
pub open spec fn named_setting(query: Seq<char>) -> Option<Seq<char>> {
    if query == "model"@ || query == "модель"@ {
        Some(SETTING_MODEL@)
    } else if query == "api"@ || query == "url"@ || query == "base_url"@ || query == "адрес"@ {
        Some(SETTING_BASE_URL@)
    } else if query == "key"@ || query == "ключ"@ {
        Some(SETTING_API_KEY@)
    } else if query == "prompt"@ || query == "system_prompt"@ || query == "промпт"@ {
        Some(SETTING_SYSTEM_PROMPT@)
    } else {
        None
    }
}

/// See [`named_setting`].
pub(crate) fn setting_named(query: &str) -> (r: Option<&'static str>)
    ensures
        match r {
            Some(k) => named_setting(query@) == Some(k@),
            None => named_setting(query@) is None,
        },
{
    if strings::str_eq(query, "model") || strings::str_eq(query, "модель") {
        Some(SETTING_MODEL)
    } else if strings::str_eq(query, "api") || strings::str_eq(query, "url") || strings::str_eq(
        query,
        "base_url",
    ) || strings::str_eq(query, "адрес") {
        Some(SETTING_BASE_URL)
    } else if strings::str_eq(query, "key") || strings::str_eq(query, "ключ") {
        Some(SETTING_API_KEY)
    } else if strings::str_eq(query, "prompt") || strings::str_eq(query, "system_prompt")
        || strings::str_eq(query, "промпт") {
        Some(SETTING_SYSTEM_PROMPT)
    } else {
        None
    }
}

/// The settings without one, unless its removal ended with an error.
pub open spec fn dropped(
    settings: Map<Seq<char>, Seq<char>>,
    key: Seq<char>,
    error: Option<Seq<char>>,
) -> Map<Seq<char>, Seq<char>> {
    if error is None {
        settings.remove(key)
    } else {
        settings
    }
}

/// The settings without those of the four that could be removed.
pub open spec fn defaults(
    settings: Map<Seq<char>, Seq<char>>,
    errors: Seq<Option<Seq<char>>>,
) -> Map<Seq<char>, Seq<char>> {
    let a = dropped(settings, SETTING_MODEL@, writes::error_at(errors, 0));
    let b = dropped(a, SETTING_BASE_URL@, writes::error_at(errors, 1));
    let c = dropped(b, SETTING_API_KEY@, writes::error_at(errors, 2));
    dropped(c, SETTING_SYSTEM_PROMPT@, writes::error_at(errors, 3))
}

/// One of the four settings is set and could be removed.
pub open spec fn any_dropped(
    settings: Map<Seq<char>, Seq<char>>,
    errors: Seq<Option<Seq<char>>>,
) -> bool {
    ||| writes::error_at(errors, 0) is None && settings.contains_key(SETTING_MODEL@)
    ||| writes::error_at(errors, 1) is None && settings.contains_key(SETTING_BASE_URL@)
    ||| writes::error_at(errors, 2) is None && settings.contains_key(SETTING_API_KEY@)
    ||| writes::error_at(errors, 3) is None && settings.contains_key(SETTING_SYSTEM_PROMPT@)
}

/// What resetting a setting does once the removals have ended, with errors or
/// without: the settings after it and the answer, for a query in lower case.
pub open spec fn reset_named(
    settings: Map<Seq<char>, Seq<char>>,
    query: Seq<char>,
    errors: Seq<Option<Seq<char>>>,
) -> (Map<Seq<char>, Seq<char>>, Seq<char>) {
    if query.len() == 0 {
        (
            settings,
            "Укажи, какую настройку сбросить: /reset_setting <model|api|key|prompt|all>\n• model — сбросить модель к значению из .env\n• api — сбросить адрес API к значению из .env\n• key — сбросить API-ключ к значению из .env\n• prompt — сбросить системный промпт к значению по умолчанию\n• all — сбросить все переопределённые настройки\n\nТекущие настройки: /settings"@,
        )
    } else if means_all(query) {
        (
            defaults(settings, errors),
            if any_dropped(settings, errors) {
                "♻️ Все настройки сброшены к значениям по умолчанию из .env."@
            } else {
                "Настройки и так используют значения по умолчанию из .env."@
            },
        )
    } else {
        match named_setting(query) {
            Some(key) => match writes::error_at(errors, 0) {
                Some(e) => (settings, "⚠️ Не удалось сбросить: "@ + e),
                None => (
                    settings.remove(key),
                    if settings.contains_key(key) {
                        "♻️ Настройка «"@ + label(key) + "» сброшена к значению из .env."@
                    } else {
                        "Настройка «"@ + label(key) + "» и так использует значение из .env."@
                    },
                ),
            },
            None => (
                settings,
                "⚠️ Неизвестная настройка. Доступно: model, api, key, prompt, all."@,
            ),
        }
    }
}

/// What resetting a setting does once the removals have ended: the settings
/// after it and the answer.
pub open spec fn reset_setting(
    s: AppStateView,
    user_id: i64,
    text: Seq<char>,
    errors: Seq<Option<Seq<char>>>,
) -> (Map<Seq<char>, Seq<char>>, Seq<char>) {
    if !access::open_to(s.cfg.admins, user_id) {
        (s.mgr.store.settings, SETTINGS_LOCKED@)
    } else {
        reset_named(s.mgr.store.settings, strings::lowercase(strings::trim(text)), errors)
    }
}

/// Returns a setting to its default, unless its removal ended with an error.
fn drop_setting(state: &mut AppState, key: &str, error: &Option<String>) -> (r: bool)
    requires
        old(state).mgr.wf(),
    ensures
        final(state).mgr.wf(),
        final(state)@ == with_settings(
            old(state)@,
            dropped(old(state)@.mgr.store.settings, key@, strings::optional(*error)),
        ),
        r == (error is None && old(state)@.mgr.store.settings.contains_key(key@)),
{
    match error {
        Some(_) => false,
        None => state.mgr.reset_setting(key),
    }
}

/// Returns a setting to its default, for a query in lower case.
pub fn reset_by_query(state: &mut AppState, query: &str, errors: &Vec<Option<String>>) -> (r:
    String)
    requires
        old(state).mgr.wf(),
    ensures
        final(state).mgr.wf(),
        ({
            let (settings, text) = reset_named(
                old(state)@.mgr.store.settings,
                query@,
                writes::error_views(errors@),
            );
            &&& final(state)@ == with_settings(old(state)@, settings)
            &&& r@ == text
        }),
{
    if query.is_empty() {
        return "Укажи, какую настройку сбросить: /reset_setting <model|api|key|prompt|all>\n• model — сбросить модель к значению из .env\n• api — сбросить адрес API к значению из .env\n• key — сбросить API-ключ к значению из .env\n• prompt — сбросить системный промпт к значению по умолчанию\n• all — сбросить все переопределённые настройки\n\nТекущие настройки: /settings".to_owned();
    }
    if strings::str_eq(query, "all") || strings::str_eq(query, "всё") || strings::str_eq(
        query,
        "все",
    ) {
        proof {
            reveal_strlit("llm_model");
            reveal_strlit("llm_base_url");
            reveal_strlit("llm_api_key");
            reveal_strlit("system_prompt");
            assert(SETTING_MODEL@.len() == 9);
            assert(SETTING_BASE_URL@.len() == 12);
            assert(SETTING_API_KEY@.len() == 11);
            assert(SETTING_SYSTEM_PROMPT@.len() == 13);
        }
        let model: bool = drop_setting(state, SETTING_MODEL, &writes::error_of(errors, 0));
        let url: bool = drop_setting(state, SETTING_BASE_URL, &writes::error_of(errors, 1));
        let key: bool = drop_setting(state, SETTING_API_KEY, &writes::error_of(errors, 2));
        let prompt: bool = drop_setting(state, SETTING_SYSTEM_PROMPT, &writes::error_of(errors, 3));
        return if model || url || key || prompt {
            "♻️ Все настройки сброшены к значениям по умолчанию из .env.".to_owned()
        } else {
            "Настройки и так используют значения по умолчанию из .env.".to_owned()
        };
    }
    match setting_named(query) {
        Some(key) => {
            match writes::error_of(errors, 0) {
                Some(e) => {
                    let mut out = "⚠️ Не удалось сбросить: ".to_owned();
                    out.append(e.as_str());
                    return out;
                },
                None => {},
            }
            let name = setting_label(key);
            if state.mgr.reset_setting(key) {
                let mut out = "♻️ Настройка «".to_owned();
                out.append(name);
                out.append("» сброшена к значению из .env.");
                out
            } else {
                let mut out = "Настройка «".to_owned();
                out.append(name);
                out.append("» и так использует значение из .env.");
                out
            }
        },
        None => "⚠️ Неизвестная настройка. Доступно: model, api, key, prompt, all.".to_owned(),
    }
}

/// Returns settings to their defaults, as far as their removals ended without an
/// error.
pub fn handle_reset_setting(
    state: &mut AppState,
    user_id: i64,
    query: &str,
    errors: &Vec<Option<String>>,
) -> (r: String)
    requires
        old(state).mgr.wf(),
    ensures
        final(state).mgr.wf(),
        ({
            let (settings, text) = reset_setting(
                old(state)@,
                user_id,
                query@,
                writes::error_views(errors@),
            );
            &&& final(state)@ == with_settings(old(state)@, settings)
            &&& r@ == text
        }),
{
    if !access::is_admin(state, user_id) {
        return SETTINGS_LOCKED.to_owned();
    }
    let lower = strings::trimmed(query).as_str().to_lowercase();
    reset_by_query(state, lower.as_str(), errors)
}

/// Only administrators change settings: for everyone else the settings stay as
/// they are.
pub proof fn law_settings_locked(
    s: AppStateView,
    user_id: i64,
    text: Seq<char>,
    error: Option<Seq<char>>,
    errors: Seq<Option<Seq<char>>>,
)
    requires
        !access::open_to(s.cfg.admins, user_id),
    ensures
        set_model(s, user_id, text, error) == (s.mgr.store.settings, SETTINGS_LOCKED@),
        set_api(s, user_id, text, error) == (s.mgr.store.settings, SETTINGS_LOCKED@),
        set_key(s, user_id, text, error) == (s.mgr.store.settings, SETTINGS_LOCKED@),
        set_prompt(s, user_id, text, error) == (s.mgr.store.settings, SETTINGS_LOCKED@),
        reset_setting(s, user_id, text, errors) == (s.mgr.store.settings, SETTINGS_LOCKED@),
{
}

/// After all settings have been reset without an error, the defaults are in
/// use.
pub proof fn law_reset_all_restores_defaults(
    s: AppStateView,
    query: Seq<char>,
    errors: Seq<Option<Seq<char>>>,
)
    requires
        means_all(query),
        query.len() > 0,
        forall|i: int| 0 <= i < errors.len() ==> #[trigger] errors[i] is None,
    ensures
        ({
            let after = reset_named(s.mgr.store.settings, query, errors).0;
            let used = memory::settings_in_use(after, s.mgr.cfg);
            &&& used.model == s.mgr.cfg.llm_model@
            &&& used.base_url == s.mgr.cfg.llm_base_url@
            &&& used.api_key == s.mgr.cfg.llm_api_key@
            &&& memory::prompt_in_use(after, s.mgr.cfg) == s.mgr.cfg.default_system_prompt@
        }),
{
}

} // verus!
