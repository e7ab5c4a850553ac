//! What the reports about the settings and about the memory show.

use vstd::prelude::*;

use crate::db;
use crate::db::chats;
use crate::handlers::commands;
use crate::handlers::commands::Figures;
use crate::handlers::settings;
use crate::handlers::AppStateView;
use crate::memory;
use crate::memory::MemoryConfig;
use crate::strings;
use crate::strings::basics;
use crate::text;

verus! {

/// A text holds a value behind its label.
pub open spec fn shows(report: Seq<char>, label: Seq<char>, value: Seq<char>) -> bool {
    strings::occurs(report, label + value)
}

/// What a text holds, a longer text holds.
pub proof fn lemma_longer(s: Seq<char>, t: Seq<char>)
    ensures
        forall|p: Seq<char>| strings::occurs(s, p) ==> #[trigger] strings::occurs(s + t, p),
{
    assert forall|p: Seq<char>| strings::occurs(s, p) implies #[trigger] strings::occurs(
        s + t,
        p,
    ) by {
        basics::law_occurs(s, p, t);
        let k = strings::find(s, p)->0;
        let b = s.skip(k + p.len());
        basics::law_occurs(s.take(k), p, b + t);
        assert(s.take(k) + p + (b + t) =~= s + t);
    }
}

/// A label and its value at the end of a text.
pub proof fn lemma_ends(s: Seq<char>, label: Seq<char>, value: Seq<char>)
    ensures
        shows(s + label + value, label, value),
{
    let e = Seq::<char>::empty();
    basics::law_occurs(s, label + value, e);
    assert(s + (label + value) + e =~= s + label + value);
}

/// A key of six characters or fewer does not show at all. Of a longer one the
/// first three characters, the last two and the length show.
pub proof fn law_masked_keys(key: Seq<char>)
    ensures
        key.len() <= 6 ==> settings::masked(key) == "••••"@,
        key.len() > 6 ==> settings::masked(key) == key.subrange(0, 3) + "…"@ + key.subrange(
            key.len() - 2,
            key.len() as int,
        ) + " (скрыт, "@ + strings::decimal(key.len()) + " симв.)"@,
{
    if key.len() > 6 {
        assert(key.take(3) =~= key.subrange(0, 3));
        assert(key.skip(key.len() - 2) =~= key.subrange(key.len() - 2, key.len() as int));
    }
}

/// A preview is the whole text, or its first characters with dots behind them.
pub proof fn law_preview(t: Seq<char>, n: int)
    requires
        n >= 0,
    ensures
        t.len() <= n ==> settings::preview(t, n) == t,
        t.len() > n ==> settings::preview(t, n) == t.subrange(0, n) + seq!['.', '.', '.'],
{
    reveal_strlit("...");
    assert("..."@ =~= seq!['.', '.', '.']);
    basics::law_take_chars(t, n);
    if t.len() > n {
        assert(t.take(n) =~= t.subrange(0, n));
    }
}

/// How the key shows in the report.
pub open spec fn shown_key(key: Seq<char>) -> Seq<char> {
    if key.len() == 0 {
        "<пусто / без ключа>"@
    } else {
        settings::masked(key)
    }
}

/// How the source of a setting shows in the report.
pub open spec fn shown_source(stored: bool) -> Seq<char> {
    if stored {
        "✏️ переопределено в БД"@
    } else {
        "по умолчанию (.env)"@
    }
}

/// The report about the settings shows the model, the address and the start of
/// the prompt that are in use, the masked key, and whether each was set by an
/// administrator.
pub proof fn law_settings_report(store: Map<Seq<char>, Seq<char>>, cfg: MemoryConfig)
    ensures
        ({
            let report = settings::settings_report(store, cfg);
            let used = memory::settings_in_use(store, cfg);
            let prompt = memory::prompt_in_use(store, cfg);
            &&& shows(report, "⚙️ Текущие настройки LLM\n\nМодель: "@, used.model)
            &&& shows(report, "\nAPI: "@, used.base_url)
            &&& shows(report, "\nКлюч: "@, shown_key(used.api_key))
            &&& shows(report, "\nПромпт: «"@, settings::preview(prompt, 80))
            &&& shows(report, "\n\nДефолт из .env: модель «"@, cfg.llm_model@)
            &&& shows(report, "», API «"@, cfg.llm_base_url@)
            &&& shows(report, "»\nДефолтный промпт: «"@, settings::preview(cfg.default_system_prompt@, 60))
            &&& shows(report, "\n  → "@, shown_source(store.contains_key("llm_model"@)))
            &&& shows(report, "\n  → "@, shown_source(store.contains_key("llm_base_url"@)))
            &&& shows(report, "\n  → "@, shown_source(store.contains_key("llm_api_key"@)))
            &&& shows(report, "»\n  → "@, shown_source(store.contains_key("system_prompt"@)))
        }),
{
    let used = memory::settings_in_use(store, cfg);
    let prompt = memory::prompt_in_use(store, cfg);
    let r0 = "⚙️ Текущие настройки LLM\n\nМодель: "@;
    let x1 = used.model;
    let r1 = r0 + x1;
    lemma_longer(r0, x1);
    let e = Seq::<char>::empty();
    lemma_ends(e, r0, x1);
    assert(e + r0 + x1 =~= r1);
    let x2 = "\n  → "@;
    let r2 = r1 + x2;
    lemma_longer(r1, x2);
    let x3 = settings::origin(store, "llm_model"@);
    let r3 = r2 + x3;
    lemma_longer(r2, x3);
    lemma_ends(r1, x2, x3);
    let x4 = "\nAPI: "@;
    let r4 = r3 + x4;
    lemma_longer(r3, x4);
    let x5 = used.base_url;
    let r5 = r4 + x5;
    lemma_longer(r4, x5);
    lemma_ends(r3, x4, x5);
    let x6 = "\n  → "@;
    let r6 = r5 + x6;
    lemma_longer(r5, x6);
    let x7 = settings::origin(store, "llm_base_url"@);
    let r7 = r6 + x7;
    lemma_longer(r6, x7);
    lemma_ends(r5, x6, x7);
    let x8 = "\nКлюч: "@;
    let r8 = r7 + x8;
    lemma_longer(r7, x8);
    let x9 = shown_key(used.api_key);
    let r9 = r8 + x9;
    lemma_longer(r8, x9);
    lemma_ends(r7, x8, x9);
    let x10 = "\n  → "@;
    let r10 = r9 + x10;
    lemma_longer(r9, x10);
    let x11 = settings::origin(store, "llm_api_key"@);
    let r11 = r10 + x11;
    lemma_longer(r10, x11);
    lemma_ends(r9, x10, x11);
    let x12 = "\nПромпт: «"@;
    let r12 = r11 + x12;
    lemma_longer(r11, x12);
    let x13 = settings::preview(prompt, 80);
    let r13 = r12 + x13;
    lemma_longer(r12, x13);
    lemma_ends(r11, x12, x13);
    let x14 = "»\n  → "@;
    let r14 = r13 + x14;
    lemma_longer(r13, x14);
    let x15 = settings::origin(store, "system_prompt"@);
    let r15 = r14 + x15;
    lemma_longer(r14, x15);
    lemma_ends(r13, x14, x15);
    let x16 = "\n\nДефолт из .env: модель «"@;
    let r16 = r15 + x16;
    lemma_longer(r15, x16);
    let x17 = cfg.llm_model@;
    let r17 = r16 + x17;
    lemma_longer(r16, x17);
    lemma_ends(r15, x16, x17);
    let x18 = "», API «"@;
    let r18 = r17 + x18;
    lemma_longer(r17, x18);
    let x19 = cfg.llm_base_url@;
    let r19 = r18 + x19;
    lemma_longer(r18, x19);
    lemma_ends(r17, x18, x19);
    let x20 = "»\nДефолтный промпт: «"@;
    let r20 = r19 + x20;
    lemma_longer(r19, x20);
    let x21 = settings::preview(cfg.default_system_prompt@, 60);
    let r21 = r20 + x21;
    lemma_longer(r20, x21);
    lemma_ends(r19, x20, x21);
    let x22 = "»\n\nКоманды изменения:\n/set_model <модель>\n/set_api <base_url>\n/set_key <ключ>\n/set_prompt <текст>\n/reset_setting <model|api|key|prompt|all>"@;
    let r22 = r21 + x22;
    lemma_longer(r21, x22);
    assert(r22 == settings::settings_report(store, cfg));
}

/// The report about the memory shows the number of messages and participants of
/// the chat, its tokens, a third of its characters rounded up, and its budget,
/// the size of the database and its limit, and the number of all messages, users
/// and guides.
pub proof fn law_memory_report(s: AppStateView, chat_id: i64, f: Figures)
    requires
        s.mgr.store.chats.messages.len() <= i64::MAX,
        s.mgr.store.chats.users.len() <= i64::MAX,
        s.mgr.store.guides.rows.len() <= i64::MAX,
        chats::chat_rows(s.mgr.store.chats.messages, chat_id).len() <= i64::MAX,
        chats::chars_from(s.mgr.store.chats.messages, 0, chat_id) <= usize::MAX,
    ensures
        ({
            let report = commands::memory_report(s, chat_id, f);
            let m = s.mgr.store;
            let rows = chats::chat_rows(m.chats.messages, chat_id);
            let chars = chats::chars_from(m.chats.messages, 0, chat_id);
            let people = chats::participants(m.chats.messages, chat_id).len();
            &&& shows(report, "💬 Память чата: "@, strings::decimal_int(rows.len() as int))
            &&& shows(report, " сообщений, ~"@, strings::decimal(((chars + 2) / 3) as nat))
            &&& shows(report, " из "@, strings::decimal(s.mgr.budget(people)))
            &&& shows(report, " токенов ("@, f.percent_chat@)
            &&& shows(report, "%)\n👥 Участников диалога: "@, strings::decimal(people))
            &&& shows(report, "\n💾 База всего: "@, text::size_text(f.disk_size as nat))
            &&& shows(report, " из "@, text::size_text(s.mgr.cfg.memory_limit_bytes as nat))
            &&& shows(report, " ("@, f.percent_db@)
            &&& shows(
                report,
                "%), сообщений: "@,
                strings::decimal_int(m.chats.messages.len() as int),
            )
            &&& shows(report, ", пользователей: "@, strings::decimal_int(m.chats.users.len() as int))
            &&& shows(report, ", гайдов: "@, strings::decimal_int(m.guides.rows.len() as int))
        }),
{
    let m = s.mgr.store;
    let tokens = (db::guides::counted(chats::chars_from(m.chats.messages, 0, chat_id)) + 2) / 3;
    let people = chats::participants(m.chats.messages, chat_id).len();
    let r0 = "💬 Память чата: "@;
    let x1 = strings::decimal_int((chats::chat_rows(m.chats.messages, chat_id).len() as i64) as int);
    let r1 = r0 + x1;
    lemma_longer(r0, x1);
    let e = Seq::<char>::empty();
    lemma_ends(e, r0, x1);
    assert(e + r0 + x1 =~= r1);
    let x2 = " сообщений, ~"@;
    let r2 = r1 + x2;
    lemma_longer(r1, x2);
    let x3 = strings::decimal(tokens as nat);
    let r3 = r2 + x3;
    lemma_longer(r2, x3);
    lemma_ends(r1, x2, x3);
    let x4 = " из "@;
    let r4 = r3 + x4;
    lemma_longer(r3, x4);
    let x5 = strings::decimal(s.mgr.budget(people));
    let r5 = r4 + x5;
    lemma_longer(r4, x5);
    lemma_ends(r3, x4, x5);
    let x6 = " токенов ("@;
    let r6 = r5 + x6;
    lemma_longer(r5, x6);
    let x7 = f.percent_chat@;
    let r7 = r6 + x7;
    lemma_longer(r6, x7);
    lemma_ends(r5, x6, x7);
    let x8 = "%)\n👥 Участников диалога: "@;
    let r8 = r7 + x8;
    lemma_longer(r7, x8);
    let x9 = strings::decimal(people);
    let r9 = r8 + x9;
    lemma_longer(r8, x9);
    lemma_ends(r7, x8, x9);
    let x10 = "\n💾 База всего: "@;
    let r10 = r9 + x10;
    lemma_longer(r9, x10);
    let x11 = text::size_text(f.disk_size as nat);
    let r11 = r10 + x11;
    lemma_longer(r10, x11);
    lemma_ends(r9, x10, x11);
    let x12 = " из "@;
    let r12 = r11 + x12;
    lemma_longer(r11, x12);
    let x13 = text::size_text(s.mgr.cfg.memory_limit_bytes as nat);
    let r13 = r12 + x13;
    lemma_longer(r12, x13);
    lemma_ends(r11, x12, x13);
    let x14 = " ("@;
    let r14 = r13 + x14;
    lemma_longer(r13, x14);
    let x15 = f.percent_db@;
    let r15 = r14 + x15;
    lemma_longer(r14, x15);
    lemma_ends(r13, x14, x15);
    let x16 = "%), сообщений: "@;
    let r16 = r15 + x16;
    lemma_longer(r15, x16);
    let x17 = strings::decimal_int((m.chats.messages.len() as i64) as int);
    let r17 = r16 + x17;
    lemma_longer(r16, x17);
    lemma_ends(r15, x16, x17);
    let x18 = ", пользователей: "@;
    let r18 = r17 + x18;
    lemma_longer(r17, x18);
    let x19 = strings::decimal_int((m.chats.users.len() as i64) as int);
    let r19 = r18 + x19;
    lemma_longer(r18, x19);
    lemma_ends(r17, x18, x19);
    let x20 = ", гайдов: "@;
    let r20 = r19 + x20;
    lemma_longer(r19, x20);
    let x21 = strings::decimal_int((m.guides.rows.len() as i64) as int);
    let r21 = r20 + x21;
    lemma_longer(r20, x21);
    lemma_ends(r19, x20, x21);
    let x22 = "\n\nИстория хранится дословно, без искажающих суммаризаций."@;
    let r22 = r21 + x22;
    lemma_longer(r21, x22);
    assert(r22 == commands::memory_report(s, chat_id, f));
}

} // verus!
