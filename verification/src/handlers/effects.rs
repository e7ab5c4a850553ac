//! What commands bring about, told by the settings in use after them and by
//! what is written.

use vstd::prelude::*;

use crate::db::MemoryView;
use crate::handlers::commands;
use crate::handlers::commands::Command;
use crate::handlers::writes;
use crate::handlers::writes::WriteView;
use crate::handlers::AppStateView;
use crate::memory;
use crate::memory::MemoryConfig;
use crate::strings;
use crate::telegram::IncomingView;

verus! {

/// The sender is listed as an administrator, or nobody is.
pub open spec fn manages(s: AppStateView, msg: IncomingView) -> bool {
    s.cfg.admins.len() == 0 || s.cfg.admins.contains(msg.user_id())
}

/// The first write ended without an error.
pub open spec fn written(errors: Seq<Option<Seq<char>>>) -> bool {
    errors.len() > 0 ==> errors[0] is None
}

/// The model, the address, the key and the prompt in use.
pub open spec fn in_use(m: MemoryView, cfg: MemoryConfig) -> (
    Seq<char>,
    Seq<char>,
    Seq<char>,
    Seq<char>,
) {
    let used = memory::settings_in_use(m.settings, cfg);
    (used.model, used.base_url, used.api_key, memory::prompt_in_use(m.settings, cfg))
}

/// The names under which settings are stored differ.
proof fn lemma_names_differ()
    ensures
        "llm_model"@.len() == 9,
        "llm_base_url"@.len() == 12,
        "llm_api_key"@.len() == 11,
        "system_prompt"@.len() == 13,
{
    reveal_strlit("llm_model");
    reveal_strlit("llm_base_url");
    reveal_strlit("llm_api_key");
    reveal_strlit("system_prompt");
}

/// A stored setting is in use as it stands if it holds anything but white
/// space; without it the default is. A stored key is in use even if it is blank,
/// any other blank setting is as if it were not there.
pub proof fn law_stored_settings_count(
    store: Map<Seq<char>, Seq<char>>,
    cfg: MemoryConfig,
    value: Seq<char>,
    i: int,
)
    requires
        0 <= i < value.len(),
        !strings::is_white(value[i]),
    ensures
        memory::settings_in_use(store.insert("llm_model"@, value), cfg).model == value,
        memory::settings_in_use(store.insert("llm_base_url"@, value), cfg).base_url == value,
        memory::settings_in_use(store.insert("llm_api_key"@, value), cfg).api_key == value,
        memory::prompt_in_use(store.insert("system_prompt"@, value), cfg) == value,
        memory::settings_in_use(store.remove("llm_model"@), cfg).model == cfg.llm_model@,
        memory::settings_in_use(store.remove("llm_base_url"@), cfg).base_url == cfg.llm_base_url@,
        memory::settings_in_use(store.remove("llm_api_key"@), cfg).api_key == cfg.llm_api_key@,
        memory::prompt_in_use(store.remove("system_prompt"@), cfg) == cfg.default_system_prompt@,
{
    lemma_trim_keeps_solid(value, i);
}

/// A text with a solid character is not blank.
proof fn lemma_trim_keeps_solid(s: Seq<char>, i: int)
    requires
        0 <= i < s.len(),
        !strings::is_white(s[i]),
    ensures
        !strings::blank(s),
{
    strings::lemma_trim_solid(s);
    let f = |c: char| !strings::is_white(c);
    s.lemma_filter_contains(f, i);
    if strings::trim(s).len() == 0 {
        assert(strings::trim(s) =~= Seq::empty());
        assert(Seq::<char>::empty().filter(f).len() == 0) by {
            reveal(Seq::filter);
        }
        assert(strings::solid(s).contains(s[i]));
    }
}

/// A blank setting other than the key leaves the default in use; a blank key is
/// in use.
pub proof fn law_blank_settings(
    store: Map<Seq<char>, Seq<char>>,
    cfg: MemoryConfig,
    value: Seq<char>,
)
    requires
        forall|i: int| 0 <= i < value.len() ==> strings::is_white(#[trigger] value[i]),
    ensures
        memory::settings_in_use(store.insert("llm_model"@, value), cfg).model == cfg.llm_model@,
        memory::settings_in_use(store.insert("llm_base_url"@, value), cfg).base_url
            == cfg.llm_base_url@,
        memory::settings_in_use(store.insert("llm_api_key"@, value), cfg).api_key == value,
        memory::prompt_in_use(store.insert("system_prompt"@, value), cfg)
            == cfg.default_system_prompt@,
{
    lemma_white_is_blank(value);
}

/// White space alone is blank.
proof fn lemma_white_is_blank(s: Seq<char>)
    requires
        forall|i: int| 0 <= i < s.len() ==> strings::is_white(#[trigger] s[i]),
    ensures
        strings::trim_start(s).len() == 0,
        strings::blank(s),
    decreases s.len(),
{
    if s.len() > 0 {
        lemma_white_is_blank(s.drop_first());
    }
}

/// Setting the address: an administrator's value of 1 to 512 characters that
/// starts with `http://` or `https://` is written as it stands, without the
/// white space around it, and is the address in use once it is written. Any
/// other value, and anyone else's, is not written and changes nothing. Nothing
/// but the address changes.
pub proof fn law_address_command(
    s: AppStateView,
    msg: IncomingView,
    v: String,
    errors: Seq<Option<Seq<char>>>,
    now: i64,
)
    ensures
        ({
            let cmd = Command::SetApi(v);
            let value = strings::trim(v@);
            let fine = manages(s, msg) && 1 <= value.len() <= 512 && ("http://"@.is_prefix_of(value)
                || "https://"@.is_prefix_of(value));
            let before = in_use(s.mgr.store, s.mgr.cfg);
            let store = commands::after_command(s, msg, cmd, errors, now);
            let after = in_use(store, s.mgr.cfg);
            &&& fine ==> writes::writes_for(s, msg, cmd, now) == seq![
                WriteView::PutSetting("llm_base_url"@, value),
            ]
            &&& !fine ==> writes::writes_for(s, msg, cmd, now) == Seq::<WriteView>::empty()
            &&& fine && written(errors) ==> after == (before.0, value, before.2, before.3)
            &&& !(fine && written(errors)) ==> store == s.mgr.store
            &&& store.chats == s.mgr.store.chats && store.guides == s.mgr.store.guides
        }),
{
    lemma_names_differ();
    strings::lemma_trim_twice(v@);
}

/// Setting the model: an administrator's value of 1 to 256 characters, without
/// the white space around it, is written and is the model in use once it is.
/// Nothing else changes, and nothing at all for another value or another user.
pub proof fn law_model_command(
    s: AppStateView,
    msg: IncomingView,
    v: String,
    errors: Seq<Option<Seq<char>>>,
    now: i64,
)
    ensures
        ({
            let cmd = Command::SetModel(v);
            let value = strings::trim(v@);
            let fine = manages(s, msg) && 1 <= value.len() <= 256;
            let before = in_use(s.mgr.store, s.mgr.cfg);
            let store = commands::after_command(s, msg, cmd, errors, now);
            let after = in_use(store, s.mgr.cfg);
            &&& fine ==> writes::writes_for(s, msg, cmd, now) == seq![
                WriteView::PutSetting("llm_model"@, value),
            ]
            &&& !fine ==> writes::writes_for(s, msg, cmd, now) == Seq::<WriteView>::empty()
            &&& fine && written(errors) ==> after == (value, before.1, before.2, before.3)
            &&& !(fine && written(errors)) ==> store == s.mgr.store
            &&& store.chats == s.mgr.store.chats && store.guides == s.mgr.store.guides
        }),
{
    lemma_names_differ();
    strings::lemma_trim_twice(v@);
}

/// Setting the key: an administrator's value of 1 to 512 characters, without
/// the white space around it, is written and is the key in use once it is.
/// Nothing else changes, and nothing at all for another value or another user.
pub proof fn law_key_command(
    s: AppStateView,
    msg: IncomingView,
    v: String,
    errors: Seq<Option<Seq<char>>>,
    now: i64,
)
    ensures
        ({
            let cmd = Command::SetKey(v);
            let value = strings::trim(v@);
            let fine = manages(s, msg) && 1 <= value.len() <= 512;
            let before = in_use(s.mgr.store, s.mgr.cfg);
            let store = commands::after_command(s, msg, cmd, errors, now);
            let after = in_use(store, s.mgr.cfg);
            &&& fine ==> writes::writes_for(s, msg, cmd, now) == seq![
                WriteView::PutSetting("llm_api_key"@, value),
            ]
            &&& !fine ==> writes::writes_for(s, msg, cmd, now) == Seq::<WriteView>::empty()
            &&& fine && written(errors) ==> after == (before.0, before.1, value, before.3)
            &&& !(fine && written(errors)) ==> store == s.mgr.store
            &&& store.chats == s.mgr.store.chats && store.guides == s.mgr.store.guides
        }),
{
    lemma_names_differ();
    strings::lemma_trim_twice(v@);
}

/// Setting the prompt, by either command: an administrator's text of 1 to 4000
/// characters, without the white space around it, is written and is the prompt
/// in use once it is. Nothing else changes, and nothing at all for another text
/// or another user.
pub proof fn law_prompt_command(
    s: AppStateView,
    msg: IncomingView,
    v: String,
    errors: Seq<Option<Seq<char>>>,
    now: i64,
)
    ensures
        ({
            let cmd = Command::SetPrompt(v);
            let value = strings::trim(v@);
            let fine = manages(s, msg) && 1 <= value.len() <= 4000;
            let before = in_use(s.mgr.store, s.mgr.cfg);
            let store = commands::after_command(s, msg, cmd, errors, now);
            let after = in_use(store, s.mgr.cfg);
            &&& fine ==> writes::writes_for(s, msg, cmd, now) == seq![
                WriteView::PutSetting("system_prompt"@, value),
            ]
            &&& !fine ==> writes::writes_for(s, msg, cmd, now) == Seq::<WriteView>::empty()
            &&& fine && written(errors) ==> after == (before.0, before.1, before.2, value)
            &&& !(fine && written(errors)) ==> store == s.mgr.store
            &&& store.chats == s.mgr.store.chats && store.guides == s.mgr.store.guides
            &&& commands::after_command(s, msg, Command::SetSystemPrompt(v), errors, now) == store
            &&& writes::writes_for(s, msg, Command::SetSystemPrompt(v), now) == writes::writes_for(
                s,
                msg,
                cmd,
                now,
            )
        }),
{
    lemma_names_differ();
    strings::lemma_trim_twice(v@);
}

/// The setting that a word in lower case stands for: 0 is the model, 1 the
/// address, 2 the key, 3 the prompt, 4 all of them.
pub open spec fn meant(word: Seq<char>) -> Option<int> {
    if word == "model"@ || word == "модель"@ {
        Some(0)
    } else if word == "api"@ || word == "url"@ || word == "base_url"@ || word == "адрес"@ {
        Some(1)
    } else if word == "key"@ || word == "ключ"@ {
        Some(2)
    } else if word == "prompt"@ || word == "system_prompt"@ || word == "промпт"@ {
        Some(3)
    } else if word == "all"@ || word == "всё"@ || word == "все"@ {
        Some(4)
    } else {
        None
    }
}

/// No write ended with an error.
pub open spec fn all_written(errors: Seq<Option<Seq<char>>>) -> bool {
    forall|i: int| 0 <= i < errors.len() ==> #[trigger] errors[i] is None
}

/// The words differ in length or in a letter.
pub proof fn lemma_words_differ(word: Seq<char>)
    ensures
        word == "all"@ || word == "всё"@ || word == "все"@ ==> word.len() == 3 && word != "api"@
            && word != "url"@ && word != "key"@,
{
    reveal_strlit("all");
    reveal_strlit("всё");
    reveal_strlit("все");
    reveal_strlit("api");
    reveal_strlit("url");
    reveal_strlit("key");
    if word == "all"@ || word == "всё"@ || word == "все"@ {
        assert("all"@[1] == 'l');
        assert("api"@[1] == 'p');
        assert("url"@[0] == 'u');
        assert("key"@[0] == 'k');
    }
}

/// Resetting: an administrator's word for a setting, in any case and with white
/// space around it, returns just that setting to its default once its removal is
/// written, and the word for all returns every one. Another word, and anyone
/// else's, writes nothing and changes nothing.
pub proof fn law_reset_command(
    s: AppStateView,
    msg: IncomingView,
    q: String,
    errors: Seq<Option<Seq<char>>>,
    now: i64,
)
    ensures
        ({
            let cmd = Command::ResetSetting(q);
            let cfg = s.mgr.cfg;
            let word = meant(strings::lowercase(strings::trim(q@)));
            let before = in_use(s.mgr.store, cfg);
            let store = commands::after_command(s, msg, cmd, errors, now);
            let after = in_use(store, cfg);
            let list = writes::writes_for(s, msg, cmd, now);
            let model = cfg.llm_model@;
            let address = cfg.llm_base_url@;
            let key = cfg.llm_api_key@;
            let prompt = cfg.default_system_prompt@;
            &&& !manages(s, msg) || word is None ==> store == s.mgr.store && list == Seq::<
                WriteView,
            >::empty()
            &&& manages(s, msg) && word == Some(0int) ==> list == seq![
                WriteView::DropSetting("llm_model"@),
            ] && (written(errors) ==> after == (model, before.1, before.2, before.3))
            &&& manages(s, msg) && word == Some(1int) ==> list == seq![
                WriteView::DropSetting("llm_base_url"@),
            ] && (written(errors) ==> after == (before.0, address, before.2, before.3))
            &&& manages(s, msg) && word == Some(2int) ==> list == seq![
                WriteView::DropSetting("llm_api_key"@),
            ] && (written(errors) ==> after == (before.0, before.1, key, before.3))
            &&& manages(s, msg) && word == Some(3int) ==> list == seq![
                WriteView::DropSetting("system_prompt"@),
            ] && (written(errors) ==> after == (before.0, before.1, before.2, prompt))
            &&& manages(s, msg) && word == Some(4int) && all_written(errors) ==> after == (
                model,
                address,
                key,
                prompt,
            )
            &&& word is Some && word != Some(4int) && !written(errors) ==> store == s.mgr.store
            &&& store.chats == s.mgr.store.chats && store.guides == s.mgr.store.guides
        }),
{
    lemma_names_differ();
    let word = strings::lowercase(strings::trim(q@));
    lemma_words_differ(word);
    reveal_strlit("model");
    reveal_strlit("модель");
    reveal_strlit("base_url");
    reveal_strlit("адрес");
    reveal_strlit("ключ");
    reveal_strlit("prompt");
    reveal_strlit("промпт");
    reveal_strlit("api");
    reveal_strlit("url");
    reveal_strlit("key");
    reveal_strlit("all");
    reveal_strlit("всё");
    reveal_strlit("все");
}

} // verus!
