//! Embedding settings: provider kinds, the built-in API presets and local
//! models, per-model input limits and input truncation.
use vstd::prelude::*;
use crate::text::{chars_of, fit_len, starts_with_str, str_eq, string_of, strs_of, truncate_utf8};

verus! {

/// Where embeddings come from.
#[derive(Debug, Clone, Copy, PartialEq, Eq, Structural)]
pub enum EmbeddingProviderType {
    /// An OpenAI-compatible `/v1/embeddings` API (OpenAI, Jina, Cohere, ...).
    OpenaiCompatible,
    /// The Google Gemini embedding API.
    Google,
    /// A local ONNX model.
    Local,
    /// The best available: local first, then an API whose key is already set.
    Auto,
}

impl Default for EmbeddingProviderType {
    fn default() -> (r: Self)
        ensures
            r == EmbeddingProviderType::OpenaiCompatible,
    {
        EmbeddingProviderType::OpenaiCompatible
    }
}

/// Embedding (vector search) settings.
#[derive(Debug, Clone)]
pub struct EmbeddingConfig {
    pub enabled: bool,
    pub provider_type: EmbeddingProviderType,
    pub api_base_url: Option<String>,
    pub api_key: Option<String>,
    pub api_model: Option<String>,
    /// Output dimensions, for APIs that accept them.
    pub api_dimensions: Option<u32>,
    pub local_model_id: Option<String>,
    /// Used when the primary provider fails.
    pub fallback_provider_type: Option<EmbeddingProviderType>,
    pub fallback_api_base_url: Option<String>,
    pub fallback_api_key: Option<String>,
    pub fallback_api_model: Option<String>,
    pub fallback_api_dimensions: Option<u32>,
}

impl Default for EmbeddingConfig {
    /// Disabled, OpenAI-compatible, nothing else set.
    fn default() -> (r: Self)
        ensures
            !r.enabled,
            r.provider_type == EmbeddingProviderType::OpenaiCompatible,
            r.api_base_url is None && r.api_key is None && r.api_model is None,
            r.api_dimensions is None && r.local_model_id is None,
            r.fallback_provider_type is None && r.fallback_api_base_url is None,
            r.fallback_api_key is None && r.fallback_api_model is None,
            r.fallback_api_dimensions is None,
    {
        EmbeddingConfig {
            enabled: false,
            provider_type: EmbeddingProviderType::OpenaiCompatible,
            api_base_url: None,
            api_key: None,
            api_model: None,
            api_dimensions: None,
            local_model_id: None,
            fallback_provider_type: None,
            fallback_api_base_url: None,
            fallback_api_key: None,
            fallback_api_model: None,
            fallback_api_dimensions: None,
        }
    }
}

/// A built-in local embedding model.
#[derive(Debug, Clone)]
pub struct LocalEmbeddingModel {
    pub id: String,
    pub name: String,
    pub dimensions: u32,
    pub size_mb: u32,
    pub min_ram_gb: u32,
    pub languages: Vec<String>,
    /// Whether the model files are in the model cache.
    pub downloaded: bool,
}

/// A built-in API preset.
#[derive(Debug, Clone)]
pub struct EmbeddingPreset {
    pub name: String,
    pub provider_type: EmbeddingProviderType,
    pub base_url: String,
    pub default_model: String,
    pub default_dimensions: u32,
}

/// Contents of a preset: name, provider type, base URL, default model, dimensions.
pub type PresetView = (Seq<char>, EmbeddingProviderType, Seq<char>, Seq<char>, u32);

pub open spec fn preset_view(p: EmbeddingPreset) -> PresetView {
    (p.name@, p.provider_type, p.base_url@, p.default_model@, p.default_dimensions)
}

/// The built-in API presets, in menu order.
pub open spec fn preset_table() -> Seq<PresetView> {
    seq![
        ("OpenAI"@, EmbeddingProviderType::OpenaiCompatible, "https://api.openai.com"@, "text-embedding-3-small"@, 1536u32),
        ("Google Gemini"@, EmbeddingProviderType::Google, "https://generativelanguage.googleapis.com"@, "gemini-embedding-001"@, 768u32),
        ("Jina AI"@, EmbeddingProviderType::OpenaiCompatible, "https://api.jina.ai"@, "jina-embeddings-v3"@, 1024u32),
        ("Cohere"@, EmbeddingProviderType::OpenaiCompatible, "https://api.cohere.com"@, "embed-multilingual-v3.0"@, 1024u32),
        ("SiliconFlow"@, EmbeddingProviderType::OpenaiCompatible, "https://api.siliconflow.cn"@, "BAAI/bge-m3"@, 1024u32),
        ("Voyage AI"@, EmbeddingProviderType::OpenaiCompatible, "https://api.voyageai.com"@, "voyage-3"@, 1024u32),
        ("Mistral"@, EmbeddingProviderType::OpenaiCompatible, "https://api.mistral.ai"@, "mistral-embed"@, 1024u32),
        ("Ollama"@, EmbeddingProviderType::OpenaiCompatible, "http://localhost:11434"@, "nomic-embed-text"@, 768u32),
    ]
}

fn preset(name: &str, t: EmbeddingProviderType, url: &str, model: &str, dims: u32) -> (r: EmbeddingPreset)
    ensures
        preset_view(r) == (name@, t, url@, model@, dims),
{
    EmbeddingPreset {
        name: string_of(chars_of(name).as_slice()),
        provider_type: t,
        base_url: string_of(chars_of(url).as_slice()),
        default_model: string_of(chars_of(model).as_slice()),
        default_dimensions: dims,
    }
}

/// The built-in API presets (see `preset_table`).
pub fn embedding_presets() -> (r: Vec<EmbeddingPreset>)
    ensures
        r@.len() == preset_table().len(),
        forall|i: int| 0 <= i < r@.len() ==> preset_view(#[trigger] r@[i]) == preset_table()[i],
{
    let mut v: Vec<EmbeddingPreset> = Vec::new();
    v.push(preset("OpenAI", EmbeddingProviderType::OpenaiCompatible, "https://api.openai.com", "text-embedding-3-small", 1536));
    v.push(preset("Google Gemini", EmbeddingProviderType::Google, "https://generativelanguage.googleapis.com", "gemini-embedding-001", 768));
    v.push(preset("Jina AI", EmbeddingProviderType::OpenaiCompatible, "https://api.jina.ai", "jina-embeddings-v3", 1024));
    v.push(preset("Cohere", EmbeddingProviderType::OpenaiCompatible, "https://api.cohere.com", "embed-multilingual-v3.0", 1024));
    v.push(preset("SiliconFlow", EmbeddingProviderType::OpenaiCompatible, "https://api.siliconflow.cn", "BAAI/bge-m3", 1024));
    v.push(preset("Voyage AI", EmbeddingProviderType::OpenaiCompatible, "https://api.voyageai.com", "voyage-3", 1024));
    v.push(preset("Mistral", EmbeddingProviderType::OpenaiCompatible, "https://api.mistral.ai", "mistral-embed", 1024));
    v.push(preset("Ollama", EmbeddingProviderType::OpenaiCompatible, "http://localhost:11434", "nomic-embed-text", 768));
    v
}

/// Contents of a local model: id, name, dimensions, size (MB), RAM (GB), languages.
pub type LocalModelView = (Seq<char>, Seq<char>, u32, u32, u32, Seq<Seq<char>>);

pub open spec fn local_model_view(m: LocalEmbeddingModel) -> LocalModelView {
    (m.id@, m.name@, m.dimensions, m.size_mb, m.min_ram_gb, strs_of(m.languages@))
}

/// The built-in local models.
pub open spec fn local_model_table() -> Seq<LocalModelView> {
    seq![
        ("bge-small-en-v1.5"@, "BGE Small English v1.5"@, 384u32, 33u32, 4u32, seq!["en"@]),
        ("bge-small-zh-v1.5"@, "BGE Small Chinese v1.5"@, 384u32, 33u32, 4u32, seq!["zh"@]),
        ("multilingual-e5-small"@, "Multilingual E5 Small"@, 384u32, 90u32, 8u32, seq!["multilingual"@]),
        ("bge-large-en-v1.5"@, "BGE Large English v1.5"@, 1024u32, 335u32, 16u32, seq!["en"@]),
    ]
}

fn local_model(id: &str, name: &str, dims: u32, size: u32, ram: u32, lang: &str) -> (r: LocalEmbeddingModel)
    ensures
        local_model_view(r) == (id@, name@, dims, size, ram, seq![lang@]),
        !r.downloaded,
{
    let mut languages: Vec<String> = Vec::new();
    languages.push(string_of(chars_of(lang).as_slice()));
    assert(strs_of(languages@) =~= seq![lang@]);
    LocalEmbeddingModel {
        id: string_of(chars_of(id).as_slice()),
        name: string_of(chars_of(name).as_slice()),
        dimensions: dims,
        size_mb: size,
        min_ram_gb: ram,
        languages,
        downloaded: false,
    }
}

/// The built-in local models (see `local_model_table`), none marked downloaded.
pub fn local_embedding_models() -> (r: Vec<LocalEmbeddingModel>)
    ensures
        r@.len() == local_model_table().len(),
        forall|i: int|
            0 <= i < r@.len() ==> local_model_view(#[trigger] r@[i]) == local_model_table()[i]
                && !r@[i].downloaded,
{
    let mut v: Vec<LocalEmbeddingModel> = Vec::new();
    v.push(local_model("bge-small-en-v1.5", "BGE Small English v1.5", 384, 33, 4, "en"));
    v.push(local_model("bge-small-zh-v1.5", "BGE Small Chinese v1.5", 384, 33, 4, "zh"));
    v.push(local_model("multilingual-e5-small", "Multilingual E5 Small", 384, 90, 8, "multilingual"));
    v.push(local_model("bge-large-en-v1.5", "BGE Large English v1.5", 1024, 335, 16, "en"));
    v
}

/// Where each built-in local model lives in the model cache, in table
/// order: `<cache_dir>/<model id>`. Entry `i` is the directory whose presence
/// gives flag `i` of `list_local_models_with_status`.
pub fn local_model_dirs(cache_dir: &str) -> (r: Vec<String>)
    ensures
        r@.len() == local_model_table().len(),
        forall|i: int|
            0 <= i < r@.len() ==> (#[trigger] r@[i])@ == crate::paths::path_join(
                cache_dir@,
                local_model_table()[i].0,
            ),
{
    let models = local_embedding_models();
    let mut out: Vec<String> = Vec::new();
    let mut i: usize = 0;
    while i < models.len()
        invariant
            i <= models@.len(),
            models@.len() == local_model_table().len(),
            forall|k: int|
                0 <= k < models@.len() ==> local_model_view(#[trigger] models@[k])
                    == local_model_table()[k],
            out@.len() == i,
            forall|k: int|
                0 <= k < i ==> (#[trigger] out@[k])@ == crate::paths::path_join(
                    cache_dir@,
                    local_model_table()[k].0,
                ),
        decreases models@.len() - i,
    {
        proof {
            assert(local_model_view(models@[i as int]) == local_model_table()[i as int]);
        }
        out.push(crate::paths::join_path(cache_dir, models[i].id.as_str()));
        i += 1;
    }
    out
}

/// The built-in local models, each marked downloaded as `present` says (one
/// flag per model, in order: whether its directory is in the model cache).
pub fn list_local_models_with_status(present: &Vec<bool>) -> (r: Vec<LocalEmbeddingModel>)
    requires
        present@.len() == local_model_table().len(),
    ensures
        r@.len() == local_model_table().len(),
        forall|i: int|
            0 <= i < r@.len() ==> local_model_view(#[trigger] r@[i]) == local_model_table()[i]
                && r@[i].downloaded == present@[i],
{
    let models = local_embedding_models();
    let mut out: Vec<LocalEmbeddingModel> = Vec::new();
    let mut rest = models;
    let mut rev: Vec<LocalEmbeddingModel> = Vec::new();
    let ghost all = rest@;
    while rest.len() > 0
        invariant
            rest@.len() + rev@.len() == all.len(),
            rest@ == all.take(rest@.len() as int),
            forall|k: int| 0 <= k < rev@.len() ==> #[trigger] rev@[k] == all[all.len() - 1 - k],
        decreases rest@.len(),
    {
        let m = rest.pop().unwrap();
        rev.push(m);
    }
    while rev.len() > 0
        invariant
            rev@.len() <= all.len(),
            all.len() == local_model_table().len(),
            present@.len() == all.len(),
            forall|k: int| 0 <= k < rev@.len() ==> #[trigger] rev@[k] == all[all.len() - 1 - k],
            out@.len() + rev@.len() == all.len(),
            forall|i: int|
                0 <= i < out@.len() ==> local_model_view(#[trigger] out@[i]) == local_model_view(all[i])
                    && out@[i].downloaded == present@[i],
        decreases rev@.len(),
    {
        let mut m = rev.pop().unwrap();
        let k = out.len();
        m.downloaded = present[k];
        out.push(m);
    }
    out
}

// ───────────────────────────── input limits ─────────────────────────────

/// The input limit (tokens) of known embedding models; 8192 otherwise.
pub open spec fn max_tokens_of(model: Seq<char>) -> nat {
    if model == "text-embedding-3-small"@ || model == "text-embedding-3-large"@ || model
        == "text-embedding-ada-002"@ {
        8191
    } else if model == "gemini-embedding-001"@ || model == "text-embedding-004"@ {
        2048
    } else if model == "gemini-embedding-2-preview"@ {
        8192
    } else if model == "voyage-3"@ || model == "voyage-code-3"@ || model == "voyage-4-large"@ {
        32000
    } else if model == "voyage-3-lite"@ {
        16000
    } else if model == "mistral-embed"@ || model == "jina-embeddings-v3"@ || model
        == "nomic-embed-text"@ {
        8192
    } else if model == "embed-multilingual-v3.0"@ {
        512
    } else if crate::text::starts_with(model, "BAAI/bge"@) {
        512
    } else {
        8192
    }
}

/// The input limit, in tokens, of an embedding model (see `max_tokens_of`).
pub fn max_input_tokens(model: &str) -> (r: usize)
    ensures
        r == max_tokens_of(model@),
{
    if str_eq(model, "text-embedding-3-small") || str_eq(model, "text-embedding-3-large") || str_eq(
        model,
        "text-embedding-ada-002",
    ) {
        8191
    } else if str_eq(model, "gemini-embedding-001") || str_eq(model, "text-embedding-004") {
        2048
    } else if str_eq(model, "gemini-embedding-2-preview") {
        8192
    } else if str_eq(model, "voyage-3") || str_eq(model, "voyage-code-3") || str_eq(model, "voyage-4-large") {
        32000
    } else if str_eq(model, "voyage-3-lite") {
        16000
    } else if str_eq(model, "mistral-embed") || str_eq(model, "jina-embeddings-v3") || str_eq(
        model,
        "nomic-embed-text",
    ) {
        8192
    } else if str_eq(model, "embed-multilingual-v3.0") {
        512
    } else if starts_with_str(chars_of(model).as_slice(), "BAAI/bge") {
        512
    } else {
        8192
    }
}

/// Each text cut to the model's limit at about four bytes per token, on a
/// character boundary.
pub fn truncate_for_model(texts: &Vec<String>, model: &str) -> (r: Vec<String>)
    ensures
        r@.len() == texts@.len(),
        forall|i: int|
            0 <= i < texts@.len() ==> (#[trigger] r@[i])@ == texts@[i]@.take(
                fit_len(texts@[i]@, 4 * max_tokens_of(model@)) as int,
            ),
{
    let max_bytes = max_input_tokens(model) * 4;
    let mut out: Vec<String> = Vec::new();
    let mut i: usize = 0;
    while i < texts.len()
        invariant
            i <= texts@.len(),
            out@.len() == i,
            max_bytes == 4 * max_tokens_of(model@),
            forall|j: int|
                0 <= j < i ==> (#[trigger] out@[j])@ == texts@[j]@.take(
                    fit_len(texts@[j]@, max_bytes as nat) as int,
                ),
        decreases texts@.len() - i,
    {
        out.push(truncate_utf8(texts[i].as_str(), max_bytes));
        i += 1;
    }
    out
}

/// An image or audio file to embed.
#[derive(Debug, Clone)]
pub struct MultimodalInput {
    /// A description, e.g. `Image file: photo.jpg`.
    pub label: String,
    /// Media type, e.g. `image/jpeg`.
    pub mime_type: String,
    /// The file's bytes.
    pub file_data: Vec<u8>,
}

/// A stored memory as re-embedding sees it: its row id and whether it
/// carries an attachment path and an attachment media type.
#[derive(Debug, Clone, Copy, PartialEq, Eq, Structural)]
pub struct ReembedEntry {
    pub id: i64,
    pub has_attachment_path: bool,
    pub has_attachment_mime: bool,
}

/// How one entry is embedded on its own.
#[derive(Debug, Clone, Copy, PartialEq, Eq, Structural)]
pub enum EmbedKind {
    /// From its text alone.
    Text,
    /// From its text and its attached file.
    Multimodal,
}

/// What a re-embedding run does.
#[derive(Debug, Clone, PartialEq, Eq)]
pub enum ReembedPlan {
    /// The text-only entries go to the provider's batch API, keyed by id;
    /// each entry with an attachment is then embedded on its own from its
    /// file.
    Batch { batch_ids: Vec<i64>, multimodal_ids: Vec<i64> },
    /// Every entry, in order, is embedded on its own, in the given way.
    Sequential { kinds: Vec<EmbedKind> },
}

/// The ids, in order, of the entries whose attachment path is present
/// (`attached`) or absent (`!attached`).
pub open spec fn ids_where(s: Seq<ReembedEntry>, attached: bool) -> Seq<i64>
    decreases s.len(),
{
    if s.len() == 0 {
        Seq::empty()
    } else {
        let rest = ids_where(s.drop_last(), attached);
        if s.last().has_attachment_path == attached {
            rest.push(s.last().id)
        } else {
            rest
        }
    }
}

/// An entry alone is embedded from its file when it has both an attachment
/// path and a media type.
pub open spec fn kind_of(e: ReembedEntry) -> EmbedKind {
    if e.has_attachment_path && e.has_attachment_mime {
        EmbedKind::Multimodal
    } else {
        EmbedKind::Text
    }
}

/// The batch API is used when the provider offers it, at least ten entries
/// are to be embedded, and at least one of them is text-only.
pub open spec fn uses_batch(s: Seq<ReembedEntry>, supports_batch: bool) -> bool {
    supports_batch && s.len() >= 10 && ids_where(s, false).len() > 0
}

/// Every entry falls on exactly one side of the batch split: text-only
/// entries are batched, the others embedded singly.
pub proof fn lemma_batch_split_covers_all(s: Seq<ReembedEntry>)
    ensures
        ids_where(s, false).len() + ids_where(s, true).len() == s.len(),
    decreases s.len(),
{
    if s.len() > 0 {
        lemma_batch_split_covers_all(s.drop_last());
    }
}

fn ids_with_attachment(entries: &Vec<ReembedEntry>, attached: bool) -> (r: Vec<i64>)
    ensures
        r@ == ids_where(entries@, attached),
{
    let mut out: Vec<i64> = Vec::new();
    let mut i: usize = 0;
    while i < entries.len()
        invariant
            i <= entries@.len(),
            out@ == ids_where(entries@.take(i as int), attached),
        decreases entries@.len() - i,
    {
        assert(entries@.take(i as int + 1).drop_last() == entries@.take(i as int));
        if entries[i].has_attachment_path == attached {
            out.push(entries[i].id);
        }
        i += 1;
    }
    assert(entries@.take(entries@.len() as int) == entries@);
    out
}

/// Decides how a set of memories is re-embedded. With batch support and at
/// least ten entries, of which one or more is text-only, the text-only ids
/// go to the batch API and the entries with an attachment are embedded one
/// by one; otherwise every entry is embedded on its own. A failed batch
/// request falls back to the plan for `supports_batch == false`.
pub fn reembed_plan(entries: &Vec<ReembedEntry>, supports_batch: bool) -> (r: ReembedPlan)
    ensures
        match r {
            ReembedPlan::Batch { batch_ids, multimodal_ids } => {
                &&& uses_batch(entries@, supports_batch)
                &&& batch_ids@ == ids_where(entries@, false)
                &&& multimodal_ids@ == ids_where(entries@, true)
            },
            ReembedPlan::Sequential { kinds } => {
                &&& !uses_batch(entries@, supports_batch)
                &&& kinds@.len() == entries@.len()
                &&& forall|i: int| 0 <= i < entries@.len() ==> #[trigger] kinds@[i] == kind_of(entries@[i])
            },
        },
{
    if supports_batch && entries.len() >= 10 {
        let batch_ids = ids_with_attachment(entries, false);
        if batch_ids.len() > 0 {
            let multimodal_ids = ids_with_attachment(entries, true);
            return ReembedPlan::Batch { batch_ids, multimodal_ids };
        }
    }
    let mut kinds: Vec<EmbedKind> = Vec::new();
    let mut i: usize = 0;
    while i < entries.len()
        invariant
            i <= entries@.len(),
            kinds@.len() == i,
            forall|j: int| 0 <= j < i ==> #[trigger] kinds@[j] == kind_of(entries@[j]),
        decreases entries@.len() - i,
    {
        let e = entries[i];
        if e.has_attachment_path && e.has_attachment_mime {
            kinds.push(EmbedKind::Multimodal);
        } else {
            kinds.push(EmbedKind::Text);
        }
        i += 1;
    }
    ReembedPlan::Sequential { kinds }
}

} // verus!
