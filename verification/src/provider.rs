//! Model providers: API protocol types, `provider::model` references, the
//! primary/fallback model chain, API key masking, proxy and shortcut settings.
use vstd::prelude::*;
use crate::text::{
    chars_of, contains, ends_with, extend_str, find, find_exec, is_ws, char_is_ws, occurs_at,
    slice_of, string_of,
};

verus! {

// ───────────────────────────── API types ─────────────────────────────

/// Wire protocol spoken by a provider.
#[derive(Debug, Clone, Copy, PartialEq, Eq, Structural)]
pub enum ApiType {
    /// Anthropic Messages API.
    Anthropic,
    /// OpenAI Chat Completions API.
    OpenaiChat,
    /// OpenAI Responses API.
    OpenaiResponses,
    /// Built-in Codex sign-in (ChatGPT subscription).
    Codex,
}

pub open spec fn base_url_of(t: ApiType) -> Seq<char> {
    match t {
        ApiType::Anthropic => "https://api.anthropic.com"@,
        ApiType::OpenaiChat => "https://api.openai.com"@,
        ApiType::OpenaiResponses => "https://api.openai.com"@,
        ApiType::Codex => "https://chatgpt.com/backend-api/codex"@,
    }
}

pub open spec fn display_name_of(t: ApiType) -> Seq<char> {
    match t {
        ApiType::Anthropic => "Anthropic"@,
        ApiType::OpenaiChat => "OpenAI Chat Completions"@,
        ApiType::OpenaiResponses => "OpenAI Responses"@,
        ApiType::Codex => "OpenAI Codex (OAuth)"@,
    }
}

impl ApiType {
    /// The default base URL of this protocol.
    pub fn default_base_url(&self) -> (r: &'static str)
        ensures
            r@ == base_url_of(*self),
    {
        match self {
            ApiType::Anthropic => "https://api.anthropic.com",
            ApiType::OpenaiChat => "https://api.openai.com",
            ApiType::OpenaiResponses => "https://api.openai.com",
            ApiType::Codex => "https://chatgpt.com/backend-api/codex",
        }
    }

    /// The name shown in the UI.
    pub fn display_name(&self) -> (r: &'static str)
        ensures
            r@ == display_name_of(*self),
    {
        match self {
            ApiType::Anthropic => "Anthropic",
            ApiType::OpenaiChat => "OpenAI Chat Completions",
            ApiType::OpenaiResponses => "OpenAI Responses",
            ApiType::Codex => "OpenAI Codex (OAuth)",
        }
    }
}

// ───────────────────────────── providers ─────────────────────────────

/// A model offered by a provider (its prices are kept by the caller).
#[derive(Debug, Clone)]
pub struct ModelCore {
    pub id: String,
    pub name: String,
    /// `text`, `image`, `video`.
    pub input_types: Vec<String>,
    pub context_window: u32,
    pub max_tokens: u32,
    pub reasoning: bool,
}

/// A configured provider (its models' prices are kept by the caller).
#[derive(Debug, Clone)]
pub struct ProviderCore {
    pub id: String,
    pub name: String,
    pub api_type: ApiType,
    pub base_url: String,
    pub api_key: String,
    pub models: Vec<ModelCore>,
    pub enabled: bool,
    pub user_agent: String,
    pub thinking_style: ThinkingStyle,
}

/// A model by its id, name, input types, context window, output limit and reasoning.
pub open spec fn model_core_view(m: ModelCore) -> (Seq<char>, Seq<char>, Seq<Seq<char>>, u32, u32, bool) {
    (m.id@, m.name@, crate::text::strs_of(m.input_types@), m.context_window, m.max_tokens, m.reasoning)
}

pub open spec fn codex_model(id: Seq<char>, name: Seq<char>) -> (Seq<char>, Seq<char>, Seq<Seq<char>>, u32, u32, bool) {
    (id, name, seq!["text"@], 200000u32, 16384u32, true)
}

/// The models of the built-in Codex provider: text input, a 200 000-token
/// window, 16 384 output tokens and reasoning each.
pub open spec fn codex_models() -> Seq<(Seq<char>, Seq<char>, Seq<Seq<char>>, u32, u32, bool)> {
    seq![
        codex_model("gpt-5.4"@, "GPT-5.4"@),
        codex_model("gpt-5.3-codex"@, "GPT-5.3 Codex"@),
        codex_model("gpt-5.3-codex-spark"@, "GPT-5.3 Codex Spark"@),
        codex_model("gpt-5.2"@, "GPT-5.2"@),
        codex_model("gpt-5.2-codex"@, "GPT-5.2 Codex"@),
        codex_model("gpt-5.1"@, "GPT-5.1"@),
        codex_model("gpt-5.1-codex-max"@, "GPT-5.1 Codex Max"@),
        codex_model("gpt-5.1-codex-mini"@, "GPT-5.1 Codex Mini"@),
    ]
}

/// `p` is the built-in Codex provider with id `id`: named `ChatGPT (Codex)`,
/// the Codex protocol and base URL, no API key (it signs in), the Codex
/// models, enabled, the given user agent and the OpenAI thinking style.
pub open spec fn is_codex_provider(p: ProviderCore, id: Seq<char>, user_agent: Seq<char>) -> bool {
    &&& p.id@ == id
    &&& p.name@ == "ChatGPT (Codex)"@
    &&& p.api_type == ApiType::Codex
    &&& p.base_url@ == base_url_of(ApiType::Codex)
    &&& p.api_key@.len() == 0
    &&& p.models@.map_values(|m: ModelCore| model_core_view(m)) == codex_models()
    &&& p.enabled
    &&& p.user_agent@ == user_agent
    &&& p.thinking_style == ThinkingStyle::Openai
}

/// The position of the first Codex provider.
pub open spec fn first_codex(ps: Seq<ProviderCore>) -> Option<int>
    decreases ps.len(),
{
    if ps.len() == 0 {
        None
    } else {
        match first_codex(ps.drop_last()) {
            Some(i) => Some(i),
            None => if ps.last().api_type == ApiType::Codex {
                Some(ps.len() - 1)
            } else {
                None
            },
        }
    }
}

fn push_model(v: &mut Vec<ModelCore>, id: &str, name: &str)
    ensures
        final(v)@.map_values(|m: ModelCore| model_core_view(m)) == old(v)@.map_values(
            |m: ModelCore| model_core_view(m),
        ).push(codex_model(id@, name@)),
{
    let mut types: Vec<String> = Vec::new();
    types.push(crate::text::owned_str("text"));
    assert(crate::text::strs_of(types@) =~= seq!["text"@]);
    let m = ModelCore {
        id: crate::text::owned_str(id),
        name: crate::text::owned_str(name),
        input_types: types,
        context_window: 200000,
        max_tokens: 16384,
        reasoning: true,
    };
    let ghost before = old(v)@.map_values(|m: ModelCore| model_core_view(m));
    v.push(m);
    assert(v@.map_values(|m: ModelCore| model_core_view(m)) =~= before.push(codex_model(id@, name@)));
}

fn codex_models_exec() -> (r: Vec<ModelCore>)
    ensures
        r@.map_values(|m: ModelCore| model_core_view(m)) == codex_models(),
{
    let mut v: Vec<ModelCore> = Vec::new();
    assert(v@.map_values(|m: ModelCore| model_core_view(m)) =~= Seq::empty());
    push_model(&mut v, "gpt-5.4", "GPT-5.4");
    push_model(&mut v, "gpt-5.3-codex", "GPT-5.3 Codex");
    push_model(&mut v, "gpt-5.3-codex-spark", "GPT-5.3 Codex Spark");
    push_model(&mut v, "gpt-5.2", "GPT-5.2");
    push_model(&mut v, "gpt-5.2-codex", "GPT-5.2 Codex");
    push_model(&mut v, "gpt-5.1", "GPT-5.1");
    push_model(&mut v, "gpt-5.1-codex-max", "GPT-5.1 Codex Max");
    push_model(&mut v, "gpt-5.1-codex-mini", "GPT-5.1 Codex Mini");
    assert(v@.map_values(|m: ModelCore| model_core_view(m)) =~= codex_models());
    v
}

/// The id of the Codex provider: the first one configured, leaving the list
/// as it is; else a new Codex provider (see `is_codex_provider`) with a random
/// UUID as its id and the configuration's default user agent, added at the end.
pub fn ensure_codex_provider(providers: &mut Vec<ProviderCore>, default_user_agent: &str) -> (id: String)
    ensures
        match first_codex(old(providers)@) {
            Some(i) => id@ == old(providers)@[i].id@ && final(providers)@ == old(providers)@,
            None => {
                &&& final(providers)@.len() == old(providers)@.len() + 1
                &&& final(providers)@.take(old(providers)@.len() as int) == old(providers)@
                &&& is_codex_provider(final(providers)@.last(), id@, default_user_agent@)
                &&& id@.len() == 36
            },
        },
{
    let mut i: usize = 0;
    while i < providers.len()
        invariant
            i <= providers@.len(),
            providers@ == old(providers)@,
            first_codex(providers@.take(i as int)) is None,
        decreases providers@.len() - i,
    {
        assert(providers@.take(i + 1).drop_last() =~= providers@.take(i as int));
        if providers[i].api_type == ApiType::Codex {
            proof {
                lemma_first_codex_prefix(providers@, (i + 1) as int);
            }
            return crate::text::owned_str(providers[i].id.as_str());
        }
        i += 1;
    }
    assert(providers@.take(providers@.len() as int) =~= providers@);
    let id = crate::process::uuid_v4_text();
    let p = ProviderCore {
        id: crate::text::owned_str(id.as_str()),
        name: crate::text::owned_str("ChatGPT (Codex)"),
        api_type: ApiType::Codex,
        base_url: crate::text::owned_str(ApiType::Codex.default_base_url()),
        api_key: String::new(),
        models: codex_models_exec(),
        enabled: true,
        user_agent: crate::text::owned_str(default_user_agent),
        thinking_style: ThinkingStyle::Openai,
    };
    let ghost before = providers@;
    providers.push(p);
    assert(providers@.take(before.len() as int) =~= before);
    id
}

proof fn lemma_first_codex_prefix(ps: Seq<ProviderCore>, k: int)
    requires
        0 < k <= ps.len(),
        first_codex(ps.take(k - 1)) is None,
        ps[k - 1].api_type == ApiType::Codex,
    ensures
        first_codex(ps) == Some(k - 1),
{
    assert(ps.take(k).drop_last() =~= ps.take(k - 1));
    assert(first_codex(ps.take(k)) == Some(k - 1));
    lemma_first_codex_grows(ps, k, ps.len() as int);
    assert(ps.take(ps.len() as int) =~= ps);
}

proof fn lemma_first_codex_grows(ps: Seq<ProviderCore>, k: int, m: int)
    requires
        0 < k <= m <= ps.len(),
        first_codex(ps.take(k)) == Some(k - 1),
    ensures
        first_codex(ps.take(m)) == Some(k - 1),
    decreases m - k,
{
    if m > k {
        lemma_first_codex_grows(ps, k, m - 1);
        assert(ps.take(m).drop_last() =~= ps.take(m - 1));
    }
}

/// How reasoning ("thinking") is requested from a provider.
#[derive(Debug, Clone, Copy, PartialEq, Eq, Structural)]
pub enum ThinkingStyle {
    /// `reasoning_effort: "low" | "medium" | "high"`.
    Openai,
    /// `thinking: { type: "enabled", budget_tokens: N }`.
    Anthropic,
    /// As Anthropic.
    Zai,
    /// `enable_thinking: true`.
    Qwen,
    /// No reasoning parameters (stored as `none`).
    Off,
}

impl Default for ThinkingStyle {
    fn default() -> (r: Self)
        ensures
            r == ThinkingStyle::Openai,
    {
        ThinkingStyle::Openai
    }
}

// ───────────────────────────── model references ─────────────────────────────

/// The model in use: a provider and one of its models.
#[derive(Debug, Clone)]
pub struct ActiveModel {
    pub provider_id: String,
    pub model_id: String,
}

impl View for ActiveModel {
    type V = (Seq<char>, Seq<char>);

    open spec fn view(&self) -> (Seq<char>, Seq<char>) {
        (self.provider_id@, self.model_id@)
    }
}

impl ActiveModel {
    /// A copy of this model reference.
    pub fn copy(&self) -> (r: Self)
        ensures
            r@ == self@,
    {
        ActiveModel {
            provider_id: string_of(chars_of(self.provider_id.as_str()).as_slice()),
            model_id: string_of(chars_of(self.model_id.as_str()).as_slice()),
        }
    }
}

/// `provider_id::model_id`, split at the first `::`; both parts non-empty.
pub open spec fn model_ref(s: Seq<char>) -> Option<(Seq<char>, Seq<char>)> {
    match find(s, "::"@) {
        Some(i) => {
            let a = s.take(i);
            let b = s.skip(i + 2);
            if a.len() > 0 && b.len() > 0 {
                Some((a, b))
            } else {
                None
            }
        },
        None => None,
    }
}

/// Parses `provider_id::model_id` (see `model_ref`).
pub fn parse_model_ref(ref_str: &str) -> (r: Option<ActiveModel>)
    ensures
        match r {
            Some(m) => model_ref(ref_str@) == Some(m@),
            None => model_ref(ref_str@) is None,
        },
{
    let s = chars_of(ref_str);
    let sep = chars_of("::");
    proof {
        reveal_strlit("::");
    }
    assert(sep@.len() == 2);
    match find_exec(s.as_slice(), sep.as_slice()) {
        Some(i) => {
            assert(occurs_at(s@, sep@, i as int));
            let n = s.len();
            assert(i + 2 <= n);
            let a = slice_of(s.as_slice(), 0, i);
            let b = slice_of(s.as_slice(), i + 2, n);
            assert(a@ =~= s@.take(i as int));
            assert(b@ =~= s@.skip(i + 2));
            if a.len() > 0 && b.len() > 0 {
                Some(ActiveModel { provider_id: string_of(a.as_slice()), model_id: string_of(b.as_slice()) })
            } else {
                None
            }
        },
        None => None,
    }
}

/// `provider_id::model_id`.
pub fn format_model_ref(model: &ActiveModel) -> (r: String)
    ensures
        r@ == model.provider_id@ + "::"@ + model.model_id@,
{
    let mut out: Vec<char> = Vec::new();
    extend_str(&mut out, model.provider_id.as_str());
    extend_str(&mut out, "::");
    extend_str(&mut out, model.model_id.as_str());
    string_of(out.as_slice())
}

proof fn lemma_no_earlier_sep(p: Seq<char>, m: Seq<char>, j: int)
    requires
        0 <= j < p.len(),
        !contains(p, "::"@),
        !ends_with(p, ":"@),
    ensures
        !occurs_at(p + "::"@ + m, "::"@, j),
{
    reveal_strlit("::");
    reveal_strlit(":");
    let s = p + "::"@ + m;
    if occurs_at(s, "::"@, j) {
        let w = s.subrange(j, j + 2);
        assert(w == "::"@);
        assert(w[0] == s[j] && w[1] == s[j + 1]);
        if j + 1 < p.len() {
            assert(p.subrange(j, j + 2) =~= w);
            assert(occurs_at(p, "::"@, j));
        } else {
            assert(s[j] == p[j]);
            assert(p.skip(p.len() - 1) =~= ":"@);
        }
    }
}

/// A formatted reference parses back to the same provider and model, when both
/// are non-empty and the provider id neither contains `::` nor ends with `:`.
pub proof fn lemma_model_ref_roundtrip(p: Seq<char>, m: Seq<char>)
    requires
        p.len() > 0,
        m.len() > 0,
        !contains(p, "::"@),
        !ends_with(p, ":"@),
    ensures
        model_ref(p + "::"@ + m) == Some((p, m)),
{
    reveal_strlit("::");
    let s = p + "::"@ + m;
    let k = p.len() as int;
    assert(s.subrange(k, k + 2) =~= "::"@);
    assert(occurs_at(s, "::"@, k));
    assert forall|j: int| 0 <= j < k implies !occurs_at(s, "::"@, j) by {
        lemma_no_earlier_sep(p, m, j);
    }
    let w = choose|w: int| occurs_at(s, "::"@, w) && forall|j: int| 0 <= j < w ==> !occurs_at(s, "::"@, j);
    assert(w == k) by {
        if w < k {
        } else if w > k {
            assert(!occurs_at(s, "::"@, k));
        }
    }
    assert(s.take(k) =~= p);
    assert(s.skip(k + 2) =~= m);
}

/// The primary model: the agent's own when it parses, else the global active one.
pub open spec fn primary_model(
    agent_primary: Option<Seq<char>>,
    active: Option<(Seq<char>, Seq<char>)>,
) -> Option<(Seq<char>, Seq<char>)> {
    match agent_primary {
        Some(s) => match model_ref(s) {
            Some(x) => Some(x),
            None => active,
        },
        None => active,
    }
}

/// The references among the first `n` that parse, in order.
pub open spec fn parsed_refs(refs: Seq<Seq<char>>, n: int) -> Seq<(Seq<char>, Seq<char>)>
    decreases n,
{
    if n <= 0 {
        seq![]
    } else {
        let rest = parsed_refs(refs, n - 1);
        match model_ref(refs[n - 1]) {
            Some(x) => rest.push(x),
            None => rest,
        }
    }
}

pub open spec fn opt_model(m: Option<ActiveModel>) -> Option<(Seq<char>, Seq<char>)> {
    match m {
        Some(a) => Some(a@),
        None => None,
    }
}

pub open spec fn model_views(v: Seq<ActiveModel>) -> Seq<(Seq<char>, Seq<char>)> {
    Seq::new(v.len(), |i: int| v[i]@)
}

/// Resolves the models to try for an agent: its own primary (when it parses)
/// else `active`; its own fallbacks (those that parse) when it lists any, else
/// the global fallbacks.
#[verifier::spinoff_prover]
pub fn resolve_model_chain(
    agent_primary: &Option<String>,
    agent_fallbacks: &Vec<String>,
    active: &Option<ActiveModel>,
    global_fallbacks: &Vec<ActiveModel>,
) -> (r: (Option<ActiveModel>, Vec<ActiveModel>))
    ensures
        match r.0 {
            Some(m) => primary_model(agent_primary.deep_view(), opt_model(*active))
                == Some(m@),
            None => primary_model(agent_primary.deep_view(), opt_model(*active)) is None,
        },
        model_views(r.1@) == if agent_fallbacks@.len() > 0 {
            parsed_refs(crate::text::strs_of(agent_fallbacks@), agent_fallbacks@.len() as int)
        } else {
            model_views(global_fallbacks@)
        },
{
    let from_agent = match agent_primary {
        Some(s) => parse_model_ref(s.as_str()),
        None => None,
    };
    let primary = match from_agent {
        Some(m) => Some(m),
        None => match active {
            Some(a) => Some(a.copy()),
            None => None,
        },
    };
    let mut out: Vec<ActiveModel> = Vec::new();
    if agent_fallbacks.len() > 0 {
        let ghost refs = crate::text::strs_of(agent_fallbacks@);
        let mut i: usize = 0;
        while i < agent_fallbacks.len()
            invariant
                i <= agent_fallbacks@.len(),
                refs == crate::text::strs_of(agent_fallbacks@),
                model_views(out@) == parsed_refs(refs, i as int),
            decreases agent_fallbacks@.len() - i,
        {
            let ghost before = model_views(out@);
            match parse_model_ref(agent_fallbacks[i].as_str()) {
                Some(m) => {
                    out.push(m);
                    assert(model_views(out@) =~= before.push(out@.last()@));
                },
                None => {},
            }
            i += 1;
        }
    } else {
        let mut i: usize = 0;
        while i < global_fallbacks.len()
            invariant
                i <= global_fallbacks@.len(),
                model_views(out@) == model_views(global_fallbacks@).take(i as int),
            decreases global_fallbacks@.len() - i,
        {
            let ghost before = model_views(out@);
            out.push(global_fallbacks[i].copy());
            assert(model_views(out@) =~= before.push(global_fallbacks@[i as int]@));
            assert(model_views(global_fallbacks@).take(i + 1) =~= model_views(global_fallbacks@).take(
                i as int,
            ).push(global_fallbacks@[i as int]@));
            i += 1;
        }
        assert(model_views(global_fallbacks@).take(global_fallbacks@.len() as int) =~= model_views(
            global_fallbacks@,
        ));
    }
    (primary, out)
}

/// A model offered in the model selector.
#[derive(Debug, Clone)]
pub struct AvailableModel {
    pub provider_id: String,
    pub provider_name: String,
    pub api_type: ApiType,
    pub model_id: String,
    pub model_name: String,
    pub input_types: Vec<String>,
    pub context_window: u32,
    pub max_tokens: u32,
    pub reasoning: bool,
}

// ───────────────────────────── API keys ─────────────────────────────

/// An API key as shown in the UI: first and last four characters around `...`
/// when longer than eight characters, `****` when shorter but not empty.
pub open spec fn masked_key(k: Seq<char>) -> Seq<char> {
    if k.len() > 8 {
        k.take(4) + "..."@ + k.skip(k.len() - 4)
    } else if k.len() > 0 {
        "****"@
    } else {
        seq![]
    }
}

/// Masks an API key for display (see `masked_key`); counts characters, so
/// multi-byte keys are cut on character boundaries.
pub fn mask_api_key(key: &str) -> (r: String)
    ensures
        r@ == masked_key(key@),
{
    let c = chars_of(key);
    if c.len() > 8 {
        let mut out = slice_of(c.as_slice(), 0, 4);
        extend_str(&mut out, "...");
        let tail = slice_of(c.as_slice(), c.len() - 4, c.len());
        crate::text::extend_chars(&mut out, tail.as_slice());
        assert(out@ =~= key@.take(4) + "..."@ + key@.skip(key@.len() - 4));
        string_of(out.as_slice())
    } else if c.len() > 0 {
        "****".to_string()
    } else {
        String::new()
    }
}

// ───────────────────────────── proxy ─────────────────────────────

/// How outgoing HTTP requests are proxied.
#[derive(Debug, Clone, Copy, PartialEq, Eq, Structural)]
pub enum ProxyMode {
    /// The system proxy (environment variables, or the OS setting).
    System,
    /// Direct connections (stored as `none`).
    Direct,
    /// The proxy URL in the configuration.
    Custom,
}

impl Default for ProxyMode {
    fn default() -> (r: Self)
        ensures
            r == ProxyMode::System,
    {
        ProxyMode::System
    }
}

/// Proxy settings for all outgoing HTTP requests.
#[derive(Debug, Clone)]
pub struct ProxyConfig {
    pub mode: ProxyMode,
    /// Used when the mode is `Custom`, e.g. `http://127.0.0.1:7890`.
    pub url: Option<String>,
}

impl Default for ProxyConfig {
    fn default() -> (r: Self)
        ensures
            r.mode == ProxyMode::System,
            r.url is None,
    {
        ProxyConfig { mode: ProxyMode::System, url: None }
    }
}

/// What to do with an HTTP client's proxy setting.
#[derive(Debug, Clone)]
pub enum ProxyChoice {
    /// Leave the client as it is (its own reading of the proxy environment variables).
    Unchanged,
    /// Connect directly.
    Direct,
    /// Route through this proxy URL (left unchanged should the URL not be accepted).
    Via(String),
}

/// The proxy environment variables read for the system mode, in order.
pub open spec fn proxy_env_names() -> Seq<Seq<char>> {
    seq!["HTTPS_PROXY"@, "HTTP_PROXY"@, "ALL_PROXY"@, "https_proxy"@, "http_proxy"@, "all_proxy"@]
}

/// Some value among `vals` is set and not empty.
pub open spec fn any_set(vals: Seq<Option<Seq<char>>>) -> bool {
    exists|i: int| 0 <= i < vals.len() && (#[trigger] vals[i] matches Some(v) && v.len() > 0)
}

/// The choice as values: `None` leaves the client as it is; `Some(None)` connects
/// directly; `Some(Some(url))` routes through `url`.
pub open spec fn choice_view(c: ProxyChoice) -> Option<Option<Seq<char>>> {
    match c {
        ProxyChoice::Unchanged => None,
        ProxyChoice::Direct => Some(None),
        ProxyChoice::Via(u) => Some(Some(u@)),
    }
}

/// The proxy for a configuration, given the values of the proxy environment
/// variables (`env`, see `proxy_env_names`) and the proxy found in the OS
/// settings (`system`): the system mode uses the OS proxy only when no
/// variable is set; the direct mode connects directly; the custom mode uses
/// its URL when there is a non-empty one.
pub open spec fn proxy_choice_of(
    mode: ProxyMode,
    url: Option<Seq<char>>,
    env: Seq<Option<Seq<char>>>,
    system: Option<Seq<char>>,
) -> Option<Option<Seq<char>>> {
    match mode {
        ProxyMode::System => if !any_set(env) && system is Some {
            Some(system)
        } else {
            None
        },
        ProxyMode::Direct => Some(None),
        ProxyMode::Custom => match url {
            Some(u) => if u.len() > 0 {
                Some(Some(u))
            } else {
                None
            },
            None => None,
        },
    }
}

/// The proxy setting for outgoing requests (see `proxy_choice_of`).
pub fn proxy_choice(config: &ProxyConfig, env: &Vec<Option<String>>, system: &Option<String>) -> (r:
    ProxyChoice)
    ensures
        choice_view(r) == proxy_choice_of(
            config.mode,
            config.url.deep_view(),
            crate::proxy::opt_views(env@),
            system.deep_view(),
        ),
{
    match config.mode {
        ProxyMode::System => {
            let mut i: usize = 0;
            let ghost ev = crate::proxy::opt_views(env@);
            while i < env.len()
                invariant
                    i <= env@.len(),
                    config.mode == ProxyMode::System,
                    ev == crate::proxy::opt_views(env@),
                    forall|j: int| 0 <= j < i ==> !(#[trigger] ev[j] matches Some(v) && v.len() > 0),
                decreases env@.len() - i,
            {
                match &env[i] {
                    Some(v) => {
                        if !v.as_str().is_empty() {
                            assert(ev[i as int] == Some(v@));
                            assert(v@.len() > 0);
                            assert(any_set(ev));
                            return ProxyChoice::Unchanged;
                        }
                    },
                    None => {},
                }
                i += 1;
            }
            match system {
                Some(u) => ProxyChoice::Via(crate::text::owned_str(u.as_str())),
                None => ProxyChoice::Unchanged,
            }
        },
        ProxyMode::Direct => ProxyChoice::Direct,
        ProxyMode::Custom => match &config.url {
            Some(u) => {
                if !u.as_str().is_empty() {
                    ProxyChoice::Via(crate::text::owned_str(u.as_str()))
                } else {
                    ProxyChoice::Unchanged
                }
            },
            None => ProxyChoice::Unchanged,
        },
    }
}

/// The proxy setting for a request to `target_url`: direct for a loopback
/// destination, else as `proxy_choice` decides.
pub fn proxy_choice_for_url(
    target_url: &str,
    config: &ProxyConfig,
    env: &Vec<Option<String>>,
    system: &Option<String>,
) -> (r: ProxyChoice)
    ensures
        choice_view(r) == if crate::proxy::loopback_host(crate::proxy::url_host(target_url@)) {
            Some(None)
        } else {
            proxy_choice_of(
                config.mode,
                config.url.deep_view(),
                crate::proxy::opt_views(env@),
                system.deep_view(),
            )
        },
{
    if crate::proxy::should_bypass_proxy(target_url) {
        ProxyChoice::Direct
    } else {
        proxy_choice(config, env, system)
    }
}

// ───────────────────────────── shortcuts ─────────────────────────────

/// One keyboard shortcut.
#[derive(Debug, Clone)]
pub struct ShortcutBinding {
    /// The action bound.
    pub id: String,
    /// The key combination, e.g. `Alt+Space`; a chord is two combinations
    /// separated by whitespace. Empty means disabled.
    pub keys: String,
    pub enabled: bool,
}

impl ShortcutBinding {
    /// The key combinations of this binding, in order (one for a plain shortcut).
    pub fn chord_parts(&self) -> (r: Vec<String>)
        ensures
            crate::text::strs_of(r@) == crate::text::words(self.keys@),
    {
        crate::text::split_whitespace(self.keys.as_str())
    }

    /// A chord: more than one key combination.
    pub fn is_chord(&self) -> (r: bool)
        ensures
            r == (crate::text::words(self.keys@).len() > 1),
    {
        let parts = self.chord_parts();
        assert(crate::text::strs_of(parts@).len() == parts@.len());
        parts.len() > 1
    }
}

/// All keyboard shortcuts.
#[derive(Debug, Clone)]
pub struct ShortcutConfig {
    pub bindings: Vec<ShortcutBinding>,
}

impl Default for ShortcutConfig {
    /// One binding: quick chat on `Alt+Space`.
    fn default() -> (r: Self)
        ensures
            r.bindings@.len() == 1,
            r.bindings@[0].id@ == "quickChat"@,
            r.bindings@[0].keys@ == "Alt+Space"@,
            r.bindings@[0].enabled,
    {
        let mut bindings: Vec<ShortcutBinding> = Vec::new();
        bindings.push(
            ShortcutBinding {
                id: string_of(chars_of("quickChat").as_slice()),
                keys: string_of(chars_of("Alt+Space").as_slice()),
                enabled: true,
            },
        );
        ShortcutConfig { bindings }
    }
}

/// Desktop notification settings.
#[derive(Debug, Clone)]
pub struct NotificationConfig {
    pub enabled: bool,
}

impl Default for NotificationConfig {
    fn default() -> (r: Self)
        ensures
            r.enabled,
    {
        NotificationConfig { enabled: true }
    }
}

/// Deferred tool loading: only core tools are sent per request, the others are
/// found through tool search.
#[derive(Debug, Clone)]
pub struct DeferredToolsConfig {
    pub enabled: bool,
}

impl Default for DeferredToolsConfig {
    fn default() -> (r: Self)
        ensures
            !r.enabled,
    {
        DeferredToolsConfig { enabled: false }
    }
}

} // verus!
