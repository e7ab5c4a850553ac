//! What the configuration reads from each variable.

use vstd::prelude::*;

use crate::config;
use crate::config::ConfigView;
use crate::db::titles;
use crate::strings;
use crate::strings::basics;
use crate::utils::mentions;

verus! {

/// A variable that is set has its last value; the others do not change it.
pub proof fn law_last_value_counts(
    env: Seq<(Seq<char>, Seq<char>)>,
    name: Seq<char>,
    text: Seq<char>,
    other: Seq<char>,
)
    ensures
        config::value(env.push((name, text)), name) == Some(text),
        other != name ==> config::value(env.push((name, text)), other) == config::value(env, other),
        config::value(Seq::empty(), name) is None,
{
    assert(env.push((name, text)).drop_last() =~= env);
}

/// The nearest number within bounds.
pub open spec fn nearest(n: nat, min: nat, max: nat) -> nat {
    if min <= n <= max {
        n
    } else if n < min {
        min
    } else {
        max
    }
}

/// A number in digits is read with white space around it.
proof fn lemma_number_reads(a: Seq<char>, n: nat, b: Seq<char>, top: nat)
    requires
        basics::all_white(a),
        basics::all_white(b),
        n <= top,
    ensures
        config::number(Some(a + strings::decimal(n) + b), top) == Some(n),
{
    strings::lemma_decimal_value(n);
    let d = strings::decimal(n);
    assert(strings::is_digit(d[0]));
    assert(strings::is_digit(d[d.len() - 1]));
    basics::law_trim(a, d, b);
    strings::law_parse_unsigned_decimal(n, top);
}

/// Each number of the configuration is the one that its variable gives in
/// digits, moved into its bounds, or its default if the variable is not set.
pub proof fn law_numbers(
    env: Seq<(Seq<char>, Seq<char>)>,
    cfg: ConfigView,
    a: Seq<char>,
    n: nat,
    b: Seq<char>,
)
    requires
        config::configured(env) == Ok::<ConfigView, Seq<char>>(cfg),
        basics::all_white(a),
        basics::all_white(b),
        n <= usize::MAX,
    ensures
        ({
            let text = Some(a + strings::decimal(n) + b);
            &&& config::value(env, "MESSAGE_WINDOW_TOKENS"@) == text ==> cfg.message_window_tokens
                == nearest(n, 500, 100_000)
            &&& config::value(env, "MESSAGE_WINDOW_TOKENS"@) is None ==> cfg.message_window_tokens
                == 4000
            &&& config::value(env, "USER_META_CHARS"@) == text ==> cfg.user_meta_chars == nearest(
                n,
                100,
                4000,
            )
            &&& config::value(env, "USER_META_CHARS"@) is None ==> cfg.user_meta_chars == 600
            &&& config::value(env, "MAX_REPLY_TOKENS"@) == text ==> cfg.max_reply_tokens == nearest(
                n,
                100,
                8000,
            )
            &&& config::value(env, "MAX_REPLY_TOKENS"@) is None ==> cfg.max_reply_tokens == 1200
            &&& config::value(env, "MAX_CONCURRENT_REQUESTS"@) == text
                ==> cfg.max_concurrent_requests == nearest(n, 1, 100)
            &&& config::value(env, "MAX_CONCURRENT_REQUESTS"@) is None
                ==> cfg.max_concurrent_requests == 5
            &&& config::value(env, "RATE_LIMIT_REQUESTS"@) == text ==> cfg.rate_limit_requests
                == nearest(n, 1, 1000)
            &&& config::value(env, "RATE_LIMIT_REQUESTS"@) is None ==> cfg.rate_limit_requests == 30
            &&& config::value(env, "RATE_LIMIT_WINDOW_SECS"@) == text
                ==> cfg.rate_limit_window_secs == nearest(n, 1, 3600)
            &&& config::value(env, "RATE_LIMIT_WINDOW_SECS"@) is None
                ==> cfg.rate_limit_window_secs == 60
        }),
{
    lemma_number_reads(a, n, b, usize::MAX as nat);
    lemma_number_reads(a, n, b, u64::MAX as nat);
}

/// The numbers of the knowledge base are read from their variables, and from
/// those with their older names if the newer ones are not set.
pub proof fn law_knowledge_numbers(
    env: Seq<(Seq<char>, Seq<char>)>,
    cfg: ConfigView,
    a: Seq<char>,
    n: nat,
    b: Seq<char>,
)
    requires
        config::configured(env) == Ok::<ConfigView, Seq<char>>(cfg),
        basics::all_white(a),
        basics::all_white(b),
        n <= usize::MAX,
    ensures
        ({
            let text = Some(a + strings::decimal(n) + b);
            let count = config::value(env, "KNOWLEDGE_TOP_N"@);
            let older_count = config::value(env, "LOREBOOK_TOP_N"@);
            let chars = config::value(env, "KNOWLEDGE_MAX_CHARS"@);
            let older_chars = config::value(env, "LOREBOOK_MAX_CHARS"@);
            &&& count == text || (count is None && older_count == text) ==> cfg.knowledge_top_n
                == nearest(n, 1, 20)
            &&& count is None && older_count is None ==> cfg.knowledge_top_n == 4
            &&& chars == text || (chars is None && older_chars == text) ==> cfg.knowledge_max_chars
                == nearest(n, 200, 50_000)
            &&& chars is None && older_chars is None ==> cfg.knowledge_max_chars == 4000
        }),
{
    lemma_number_reads(a, n, b, usize::MAX as nat);
}

/// The variable is not set, or set to white space alone.
pub open spec fn unset(v: Option<Seq<char>>) -> bool {
    v is None || basics::all_white(v->0)
}

/// Each text of the configuration is the one that its variable gives, or its
/// default if that is not set or blank. The token and the key are what their
/// variables give.
pub proof fn law_texts(env: Seq<(Seq<char>, Seq<char>)>, cfg: ConfigView)
    requires
        config::configured(env) == Ok::<ConfigView, Seq<char>>(cfg),
    ensures
        config::value(env, "BOT_TOKEN"@) == Some(cfg.bot_token),
        config::value(env, "LLM_API_KEY"@) == Some(cfg.llm_api_key),
        unset(config::value(env, "LLM_BASE_URL"@)) ==> cfg.llm_base_url
            == "https://api.openai.com/v1"@,
        !unset(config::value(env, "LLM_BASE_URL"@)) ==> config::value(env, "LLM_BASE_URL"@) == Some(
            cfg.llm_base_url,
        ),
        unset(config::value(env, "DB_PATH"@)) ==> cfg.db_path == "data/kostubetai.db"@,
        !unset(config::value(env, "DB_PATH"@)) ==> config::value(env, "DB_PATH"@) == Some(
            cfg.db_path,
        ),
        unset(config::value(env, "MODELS_CACHE_DIR"@)) ==> cfg.models_cache_dir == "data/models"@,
        !unset(config::value(env, "MODELS_CACHE_DIR"@)) ==> config::value(env, "MODELS_CACHE_DIR"@)
            == Some(cfg.models_cache_dir),
        !unset(config::value(env, "KNOWLEDGE_DIR"@)) ==> config::value(env, "KNOWLEDGE_DIR"@)
            == Some(cfg.knowledge_dir),
        config::value(env, "KNOWLEDGE_DIR"@) is None && !unset(config::value(env, "LOREBOOK_DIR"@))
            ==> config::value(env, "LOREBOOK_DIR"@) == Some(cfg.knowledge_dir),
        unset(config::value(env, "KNOWLEDGE_DIR"@)) && (config::value(env, "KNOWLEDGE_DIR"@) is Some
            || unset(config::value(env, "LOREBOOK_DIR"@))) ==> cfg.knowledge_dir == "knowledge"@,
{
    lemma_solid_or(config::value(env, "LLM_BASE_URL"@), "https://api.openai.com/v1"@);
    lemma_solid_or(config::value(env, "DB_PATH"@), "data/kostubetai.db"@);
    lemma_solid_or(config::value(env, "MODELS_CACHE_DIR"@), "data/models"@);
    lemma_solid_or(config::value(env, "KNOWLEDGE_DIR"@), "knowledge"@);
    lemma_solid_or(config::value(env, "LOREBOOK_DIR"@), "knowledge"@);
}

/// A value that is not blank counts.
proof fn lemma_solid_or(v: Option<Seq<char>>, default: Seq<char>)
    ensures
        unset(v) ==> config::solid_or(v, default) == default,
        !unset(v) ==> Some(config::solid_or(v, default)) == v,
{
    if v is Some {
        titles::lemma_blank_is_white(v->0);
    }
}

/// The configuration is refused for want of the token, then of the key, then of
/// a model, each with its message, and for nothing else.
pub proof fn law_what_is_required(env: Seq<(Seq<char>, Seq<char>)>)
    ensures
        ({
            let token = config::value(env, "BOT_TOKEN"@) is Some;
            let key = config::value(env, "LLM_API_KEY"@) is Some;
            let models = config::name_list(config::value(env, "LLM_MODELS"@)).len() > 0;
            let r = config::configured(env);
            &&& r is Ok <==> token && key && models
            &&& !token ==> r->Err_0 == "Отсутствует обязательная переменная "@ + "BOT_TOKEN"@
            &&& token && !key ==> r->Err_0 == "Отсутствует обязательная переменная "@
                + "LLM_API_KEY"@
            &&& token && key && !models ==> r->Err_0
                == "LLM_MODELS: укажи хотя бы одну модель через запятую"@
        }),
{
}

/// The part of a list stands for the id.
pub open spec fn means_id(parts: Seq<Seq<char>>, id: i64, i: int) -> bool {
    0 <= i < parts.len() && strings::parse_signed(strings::trim(parts[i])) == Some(id as int)
}

/// The ids of a list are those that its parts stand for.
proof fn lemma_ids(parts: Seq<Seq<char>>, id: i64)
    ensures
        config::ids(parts).contains(id) <==> exists|i: int| #[trigger] means_id(parts, id, i),
    decreases parts.len(),
{
    if parts.len() > 0 {
        let init = parts.drop_last();
        lemma_ids(init, id);
        let n = parts.len() - 1;
        assert(parts[n] == parts.last());
        if means_id(parts, id, n) {
            assert(config::ids(parts).contains(id));
        }
        if config::ids(init).contains(id) {
            let i = choose|i: int| #[trigger] means_id(init, id, i);
            assert(means_id(parts, id, i));
        }
        if exists|i: int| #[trigger] means_id(parts, id, i) {
            let i = choose|i: int| #[trigger] means_id(parts, id, i);
            if i < n {
                assert(means_id(init, id, i));
            }
        }
    } else {
        assert(forall|i: int| !means_id(parts, id, i));
    }
}

/// A list of ids holds the numbers between its commas, with or without white
/// space around them; what is no number is passed over. Without the variable the
/// list is empty.
pub proof fn law_id_lists(parts: Seq<Seq<char>>, id: i64)
    requires
        parts.len() > 0,
        forall|i: int| 0 <= i < parts.len() ==> mentions::lacks(#[trigger] parts[i], ','),
    ensures
        config::id_list(Some(strings::join(parts, seq![',']))).contains(id) <==> exists|i: int|
            #[trigger] means_id(parts, id, i),
        config::id_list(None) == Set::<i64>::empty(),
{
    reveal_strlit(",");
    assert(","@ =~= seq![',']);
    mentions::lemma_split_joined(parts, seq![',']);
    lemma_ids(parts, id);
}

/// A list of names holds what stands between its commas, without the white space
/// around it and in its order; what is blank is passed over.
pub proof fn law_name_lists(parts: Seq<Seq<char>>)
    requires
        parts.len() > 0,
        forall|i: int| 0 <= i < parts.len() ==> mentions::lacks(#[trigger] parts[i], ','),
    ensures
        config::name_list(Some(strings::join(parts, seq![',']))) == parts.map_values(
            |p: Seq<char>| strings::trim(p),
        ).filter(|p: Seq<char>| p.len() > 0),
        config::name_list(None) == Seq::<Seq<char>>::empty(),
{
    reveal_strlit(",");
    assert(","@ =~= seq![',']);
    mentions::lemma_split_joined(parts, seq![',']);
    lemma_names(parts);
}

/// See [`law_name_lists`].
proof fn lemma_names(parts: Seq<Seq<char>>)
    ensures
        config::names(parts) == parts.map_values(|p: Seq<char>| strings::trim(p)).filter(
            |p: Seq<char>| p.len() > 0,
        ),
    decreases parts.len(),
{
    reveal(Seq::filter);
    let short = |p: Seq<char>| strings::trim(p);
    if parts.len() > 0 {
        lemma_names(parts.drop_last());
        let all = parts.map_values(short);
        assert(all.drop_last() =~= parts.drop_last().map_values(short));
        assert(all.last() == strings::trim(parts.last()));
    } else {
        assert(parts.map_values(short).len() == 0);
    }
}

/// The lists of the configuration come from their own variables.
pub proof fn law_lists(env: Seq<(Seq<char>, Seq<char>)>, cfg: ConfigView)
    requires
        config::configured(env) == Ok::<ConfigView, Seq<char>>(cfg),
    ensures
        cfg.admins == config::id_list(config::value(env, "ADMINS"@)),
        cfg.allowed_chats == config::id_list(config::value(env, "ALLOWED_CHATS"@)),
        cfg.allowed_threads == config::id_list(config::value(env, "ALLOWED_THREADS"@)),
        cfg.models == config::name_list(config::value(env, "LLM_MODELS"@)),
        cfg.models.len() > 0,
{
}

/// A listed chat or topic is allowed, and any one is if none is listed.
pub proof fn law_listed_places(cfg: ConfigView, id: i64)
    ensures
        cfg.allowed_chats.contains(id) ==> cfg.allows_chat(id),
        cfg.allowed_chats == Set::<i64>::empty() ==> cfg.allows_chat(id),
        cfg.allowed_chats.finite() && cfg.allowed_chats != Set::<i64>::empty()
            && !cfg.allowed_chats.contains(id) ==> !cfg.allows_chat(id),
        cfg.allowed_threads.contains(id) ==> cfg.allows_thread(id),
        cfg.allowed_threads == Set::<i64>::empty() ==> cfg.allows_thread(id),
        cfg.allowed_threads.finite() && cfg.allowed_threads != Set::<i64>::empty()
            && !cfg.allowed_threads.contains(id) ==> !cfg.allows_thread(id),
{
    if cfg.allowed_chats.finite() && cfg.allowed_chats.len() == 0 {
        cfg.allowed_chats.lemma_len0_is_empty();
    }
    if cfg.allowed_threads.finite() && cfg.allowed_threads.len() == 0 {
        cfg.allowed_threads.lemma_len0_is_empty();
    }
}

/// The variable is not set, or what it gives is no number.
pub open spec fn no_number(v: Option<Seq<char>>) -> bool {
    v is None || strings::parse_unsigned(strings::trim(v->0), u64::MAX as nat) is None
        && strings::parse_unsigned(strings::trim(v->0), usize::MAX as nat) is None
}

/// A value that is no number counts as one that is not set: the default stands,
/// or what the variable with the older name gives.
pub proof fn law_unreadable_numbers(env: Seq<(Seq<char>, Seq<char>)>, cfg: ConfigView)
    requires
        config::configured(env) == Ok::<ConfigView, Seq<char>>(cfg),
    ensures
        no_number(config::value(env, "MESSAGE_WINDOW_TOKENS"@)) ==> cfg.message_window_tokens
            == 4000,
        no_number(config::value(env, "USER_META_CHARS"@)) ==> cfg.user_meta_chars == 600,
        no_number(config::value(env, "MAX_REPLY_TOKENS"@)) ==> cfg.max_reply_tokens == 1200,
        no_number(config::value(env, "MAX_CONCURRENT_REQUESTS"@)) ==> cfg.max_concurrent_requests
            == 5,
        no_number(config::value(env, "RATE_LIMIT_REQUESTS"@)) ==> cfg.rate_limit_requests == 30,
        no_number(config::value(env, "RATE_LIMIT_WINDOW_SECS"@)) ==> cfg.rate_limit_window_secs
            == 60,
        no_number(config::value(env, "KNOWLEDGE_TOP_N"@)) && no_number(
            config::value(env, "LOREBOOK_TOP_N"@),
        ) ==> cfg.knowledge_top_n == 4,
        no_number(config::value(env, "KNOWLEDGE_MAX_CHARS"@)) && no_number(
            config::value(env, "LOREBOOK_MAX_CHARS"@),
        ) ==> cfg.knowledge_max_chars == 4000,
        ({
            let newer = config::value(env, "KNOWLEDGE_TOP_N"@);
            let older = config::value(env, "LOREBOOK_TOP_N"@);
            let n = strings::parse_unsigned(strings::trim(older->0), usize::MAX as nat);
            no_number(newer) && older is Some && n is Some ==> cfg.knowledge_top_n == nearest(
                n->0,
                1,
                20,
            )
        }),
        ({
            let newer = config::value(env, "KNOWLEDGE_MAX_CHARS"@);
            let older = config::value(env, "LOREBOOK_MAX_CHARS"@);
            let n = strings::parse_unsigned(strings::trim(older->0), usize::MAX as nat);
            no_number(newer) && older is Some && n is Some ==> cfg.knowledge_max_chars == nearest(
                n->0,
                200,
                50_000,
            )
        }),
{
}

} // verus!
