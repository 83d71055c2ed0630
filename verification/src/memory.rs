//! Long-term memory: entry types and scopes, import of exported markdown,
//! full-text query sanitizing, prompt-injection screening of memory text, and
//! attachment media types.
use vstd::prelude::*;
use crate::failover::{lowercase, to_lowercase};
use crate::text::{
    chars_of, contains, contains_str, extend_chars, extend_str, find, find_exec, lines, occurs_at,
    lines_exec, seqs_of, slice_of, split_char, split_char_exec, starts_with, starts_with_str,
    str_eq, string_of, strs_of, trim, trim_exec, words, split_whitespace,
};
use crate::plan::trim_start_matches;

verus! {

// ───────────────────────────── memory types ─────────────────────────────

/// What a memory is about.
#[derive(Debug, Clone, Copy, PartialEq, Eq, Structural)]
pub enum MemoryType {
    /// The end user.
    User,
    /// The user's feedback on and preferences for the agent's behaviour.
    Feedback,
    /// Project knowledge.
    Project,
    /// Pointers to reference material.
    Reference,
}

pub open spec fn memory_type_name(t: MemoryType) -> Seq<char> {
    match t {
        MemoryType::User => "user"@,
        MemoryType::Feedback => "feedback"@,
        MemoryType::Project => "project"@,
        MemoryType::Reference => "reference"@,
    }
}

/// The type a stored name denotes; anything unknown is `User`.
pub open spec fn memory_type_from(s: Seq<char>) -> MemoryType {
    if s == "feedback"@ {
        MemoryType::Feedback
    } else if s == "project"@ {
        MemoryType::Project
    } else if s == "reference"@ {
        MemoryType::Reference
    } else {
        MemoryType::User
    }
}

/// The section heading of a type in prompt summaries and exports.
pub open spec fn memory_heading(t: MemoryType) -> Seq<char> {
    match t {
        MemoryType::User => "About the User"@,
        MemoryType::Feedback => "Preferences & Feedback"@,
        MemoryType::Project => "Project Context"@,
        MemoryType::Reference => "References"@,
    }
}

impl MemoryType {
    pub fn as_str(&self) -> (r: &'static str)
        ensures
            r@ == memory_type_name(*self),
    {
        match self {
            MemoryType::User => "user",
            MemoryType::Feedback => "feedback",
            MemoryType::Project => "project",
            MemoryType::Reference => "reference",
        }
    }

    pub fn from_str(s: &str) -> (r: Self)
        ensures
            r == memory_type_from(s@),
    {
        if str_eq(s, "feedback") {
            MemoryType::Feedback
        } else if str_eq(s, "project") {
            MemoryType::Project
        } else if str_eq(s, "reference") {
            MemoryType::Reference
        } else {
            MemoryType::User
        }
    }

    pub fn heading(&self) -> (r: &'static str)
        ensures
            r@ == memory_heading(*self),
    {
        match self {
            MemoryType::User => "About the User",
            MemoryType::Feedback => "Preferences & Feedback",
            MemoryType::Project => "Project Context",
            MemoryType::Reference => "References",
        }
    }
}

/// Reading back the stored name of a memory type gives the type.
pub proof fn lemma_memory_type_roundtrip(t: MemoryType)
    ensures
        memory_type_from(memory_type_name(t)) == t,
{
    reveal_strlit("user");
    reveal_strlit("feedback");
    reveal_strlit("project");
    reveal_strlit("reference");
    assert("user"@[0] == 'u' && "feedback"@[0] == 'f' && "project"@[0] == 'p' && "reference"@[0]
        == 'r');
}

/// Who can see a memory: every agent, or one agent.
#[derive(Debug, Clone, PartialEq, Eq)]
pub enum MemoryScope {
    Global,
    Agent { id: String },
}

/// A memory to store.
#[derive(Debug, Clone)]
pub struct NewMemory {
    pub memory_type: MemoryType,
    pub scope: MemoryScope,
    pub content: String,
    pub tags: Vec<String>,
    /// `user` (typed in), `auto` (extracted by the agent) or `import`.
    pub source: String,
    pub source_session_id: Option<String>,
    /// Pinned memories come first in the prompt.
    pub pinned: bool,
    /// An attached image or audio file.
    pub attachment_path: Option<String>,
    pub attachment_mime: Option<String>,
}

/// A memory search.
#[derive(Debug, Clone)]
pub struct MemorySearchQuery {
    pub query: String,
    pub types: Option<Vec<MemoryType>>,
    pub scope: Option<MemoryScope>,
    /// Global memories plus this agent's.
    pub agent_id: Option<String>,
    /// At most this many results (20 when absent).
    pub limit: Option<usize>,
}

/// Counts shown on the memory dashboard.
#[derive(Debug, Clone)]
pub struct MemoryStats {
    pub total: usize,
    pub by_type: std::collections::HashMap<String, usize>,
    pub with_embedding: usize,
    pub oldest: Option<String>,
    pub newest: Option<String>,
}

/// Automatic memory extraction settings.
#[derive(Debug, Clone)]
pub struct MemoryExtractConfig {
    pub auto_extract: bool,
    pub extract_min_turns: usize,
    pub extract_provider_id: Option<String>,
    pub extract_model_id: Option<String>,
    /// Extract before the context is compacted.
    pub flush_before_compact: bool,
}

impl Default for MemoryExtractConfig {
    fn default() -> (r: Self)
        ensures
            !r.auto_extract,
            r.extract_min_turns == 3,
            r.extract_provider_id is None,
            r.extract_model_id is None,
            !r.flush_before_compact,
    {
        MemoryExtractConfig {
            auto_extract: false,
            extract_min_turns: 3,
            extract_provider_id: None,
            extract_model_id: None,
            flush_before_compact: false,
        }
    }
}

/// Caching of computed embeddings.
#[derive(Debug, Clone)]
pub struct EmbeddingCacheConfig {
    pub enabled: bool,
    pub max_entries: usize,
}

impl Default for EmbeddingCacheConfig {
    fn default() -> (r: Self)
        ensures
            r.enabled,
            r.max_entries == 10000,
    {
        EmbeddingCacheConfig { enabled: true, max_entries: 10000 }
    }
}

/// Embedding of images and audio.
#[derive(Debug, Clone)]
pub struct MultimodalConfig {
    pub enabled: bool,
    /// `image`, `audio`.
    pub modalities: Vec<String>,
    pub max_file_bytes: u64,
}

impl Default for MultimodalConfig {
    /// Off; images and audio; 10 MiB files.
    fn default() -> (r: Self)
        ensures
            !r.enabled,
            strs_of(r.modalities@) == seq!["image"@, "audio"@],
            r.max_file_bytes == 10485760,
    {
        let mut modalities: Vec<String> = Vec::new();
        modalities.push(string_of(chars_of("image").as_slice()));
        modalities.push(string_of(chars_of("audio").as_slice()));
        assert(strs_of(modalities@) =~= seq!["image"@, "audio"@]);
        MultimodalConfig { enabled: false, modalities, max_file_bytes: 10485760 }
    }
}

/// Outcome of a batch import.
#[derive(Debug, Clone)]
pub struct ImportResult {
    pub created: usize,
    pub skipped_duplicate: usize,
    pub failed: usize,
    pub errors: Vec<String>,
}

// ───────────────────────────── attachments ─────────────────────────────

/// The text after the last `c` (all of `s` when there is none).
pub open spec fn after_last(s: Seq<char>, c: char) -> Seq<char>
    decreases s.len(),
{
    if s.len() == 0 {
        s
    } else if s.last() == c {
        seq![]
    } else {
        after_last(s.drop_last(), c).push(s.last())
    }
}

/// The media type of a supported image or audio extension.
pub open spec fn mime_of_ext(e: Seq<char>) -> Option<Seq<char>> {
    if e == "jpg"@ || e == "jpeg"@ {
        Some("image/jpeg"@)
    } else if e == "png"@ {
        Some("image/png"@)
    } else if e == "webp"@ {
        Some("image/webp"@)
    } else if e == "gif"@ {
        Some("image/gif"@)
    } else if e == "heic"@ {
        Some("image/heic"@)
    } else if e == "heif"@ {
        Some("image/heif"@)
    } else if e == "mp3"@ {
        Some("audio/mpeg"@)
    } else if e == "wav"@ {
        Some("audio/wav"@)
    } else if e == "ogg"@ {
        Some("audio/ogg"@)
    } else if e == "opus"@ {
        Some("audio/opus"@)
    } else if e == "m4a"@ {
        Some("audio/mp4"@)
    } else if e == "aac"@ {
        Some("audio/aac"@)
    } else if e == "flac"@ {
        Some("audio/flac"@)
    } else {
        None
    }
}

fn after_last_exec(s: &[char], c: char) -> (r: Vec<char>)
    ensures
        r@ == after_last(s@, c),
{
    let mut i: usize = s.len();
    assert(s@.take(s@.len() as int) =~= s@);
    assert(s@.skip(s@.len() as int) =~= Seq::<char>::empty());
    assert(after_last(s@, c) =~= after_last(s@, c) + Seq::<char>::empty());
    while i > 0 && s[i - 1] != c
        invariant
            i <= s@.len(),
            after_last(s@, c) == after_last(s@.take(i as int), c) + s@.skip(i as int),
        decreases i,
    {
        assert(s@.take(i as int).drop_last() =~= s@.take(i - 1));
        assert(s@.skip(i - 1) =~= seq![s@[i - 1]] + s@.skip(i as int));
        assert(after_last(s@.take(i as int), c) =~= after_last(s@.take(i - 1), c).push(s@[i - 1]));
        i -= 1;
    }
    proof {
        if i == 0 {
            assert(s@.take(0) =~= Seq::<char>::empty());
        } else {
            assert(s@.take(i as int).last() == c);
        }
    }
    let r = slice_of(s, i, s.len());
    assert(r@ =~= s@.skip(i as int));
    assert(after_last(s@.take(i as int), c) =~= Seq::<char>::empty());
    r
}

/// The media type of an attachment by its (case-insensitive) extension, the
/// text after the last `.`; none for a name without a `.`.
pub fn mime_from_extension(path: &str) -> (r: Option<String>)
    ensures
        r.deep_view() == if crate::text::has_char(lowercase(path@), '.') {
            mime_of_ext(after_last(lowercase(path@), '.'))
        } else {
            None
        },
{
    let lower = to_lowercase(path);
    let lc = chars_of(lower.as_str());
    if !crate::text::has_char_exec(lc.as_slice(), '.') {
        return None;
    }
    let e = after_last_exec(lc.as_slice(), '.');
    let s = string_of(e.as_slice());
    let es = s.as_str();
    let m: Option<&str> = if str_eq(es, "jpg") || str_eq(es, "jpeg") {
        Some("image/jpeg")
    } else if str_eq(es, "png") {
        Some("image/png")
    } else if str_eq(es, "webp") {
        Some("image/webp")
    } else if str_eq(es, "gif") {
        Some("image/gif")
    } else if str_eq(es, "heic") {
        Some("image/heic")
    } else if str_eq(es, "heif") {
        Some("image/heif")
    } else if str_eq(es, "mp3") {
        Some("audio/mpeg")
    } else if str_eq(es, "wav") {
        Some("audio/wav")
    } else if str_eq(es, "ogg") {
        Some("audio/ogg")
    } else if str_eq(es, "opus") {
        Some("audio/opus")
    } else if str_eq(es, "m4a") {
        Some("audio/mp4")
    } else if str_eq(es, "aac") {
        Some("audio/aac")
    } else if str_eq(es, "flac") {
        Some("audio/flac")
    } else {
        None
    };
    match m {
        Some(t) => Some(string_of(chars_of(t).as_slice())),
        None => None,
    }
}

pub open spec fn modality_of(mime: Seq<char>) -> Seq<char> {
    if starts_with(mime, "image/"@) {
        "image"@
    } else if starts_with(mime, "audio/"@) {
        "audio"@
    } else {
        "file"@
    }
}

/// `image`, `audio` or `file` by media type.
pub fn modality_label(mime: &str) -> (r: &'static str)
    ensures
        r@ == modality_of(mime@),
{
    let c = chars_of(mime);
    if starts_with_str(c.as_slice(), "image/") {
        "image"
    } else if starts_with_str(c.as_slice(), "audio/") {
        "audio"
    } else {
        "file"
    }
}

// ───────────────────────────── markdown import ─────────────────────────────

/// One imported memory: type, content, tags.
pub struct ImportView {
    pub ty: MemoryType,
    pub content: Seq<char>,
    pub tags: Seq<Seq<char>>,
}

/// Import progress: the memories found so far and the one being read.
pub struct ImportFold {
    pub entries: Seq<ImportView>,
    pub ty: MemoryType,
    pub content: Seq<char>,
    pub tags: Seq<Seq<char>>,
    pub in_entry: bool,
}

/// The memory being read has content.
pub open spec fn can_flush(st: ImportFold) -> bool {
    st.in_entry && trim(st.content).len() > 0
}

/// The memory being read is stored; content and tags start afresh.
pub open spec fn flushed(st: ImportFold) -> ImportFold {
    ImportFold {
        entries: st.entries.push(ImportView { ty: st.ty, content: trim(st.content), tags: st.tags }),
        content: seq![],
        tags: seq![],
        ..st
    }
}

/// The memory type a `## ` section heading names (anything else is `User`).
pub open spec fn heading_type(h: Seq<char>) -> MemoryType {
    if h == "Preferences & Feedback"@ {
        MemoryType::Feedback
    } else if h == "Project Context"@ {
        MemoryType::Project
    } else if h == "References"@ {
        MemoryType::Reference
    } else {
        MemoryType::User
    }
}

/// The trimmed, non-empty pieces.
pub open spec fn nonempty_trimmed(ps: Seq<Seq<char>>) -> Seq<Seq<char>>
    decreases ps.len(),
{
    if ps.len() == 0 {
        seq![]
    } else {
        let rest = nonempty_trimmed(ps.drop_last());
        if trim(ps.last()).len() > 0 {
            rest.push(trim(ps.last()))
        } else {
            rest
        }
    }
}

/// The tags of a `Tags: a, b` line.
pub open spec fn tag_list(t: Seq<char>) -> Seq<Seq<char>> {
    nonempty_trimmed(split_char(trim_start_matches(t, "Tags:"@), ','))
}

/// One line of the export read: `## ` sets the type, `### ` starts a memory,
/// `Tags:` sets the tags, `Scope:` and `---` are skipped, and other lines inside
/// a memory are its content (leading blank lines dropped).
pub open spec fn import_step(st: ImportFold, line: Seq<char>) -> ImportFold {
    let t = trim(line);
    if starts_with(t, "## "@) {
        let st2 = if can_flush(st) {
            ImportFold { in_entry: false, ..flushed(st) }
        } else {
            st
        };
        ImportFold { ty: heading_type(trim(trim_start_matches(t, "## "@))), ..st2 }
    } else if starts_with(t, "### "@) {
        let st2 = if can_flush(st) {
            flushed(st)
        } else {
            st
        };
        ImportFold { in_entry: true, ..st2 }
    } else if starts_with(t, "Tags:"@) {
        ImportFold { tags: tag_list(t), ..st }
    } else if starts_with(t, "Scope:"@) || t == "---"@ {
        st
    } else if st.in_entry && (st.content.len() > 0 || t.len() > 0) {
        ImportFold { content: st.content + line + seq!['\n'], ..st }
    } else {
        st
    }
}

pub open spec fn import_start() -> ImportFold {
    ImportFold { entries: seq![], ty: MemoryType::User, content: seq![], tags: seq![], in_entry: false }
}

pub open spec fn import_fold(ls: Seq<Seq<char>>, n: int) -> ImportFold
    decreases n,
{
    if n <= 0 {
        import_start()
    } else {
        import_step(import_fold(ls, n - 1), ls[n - 1])
    }
}

/// The memories of an exported markdown file, in order.
pub open spec fn import_entries(md: Seq<char>) -> Seq<ImportView> {
    let ls = lines(md);
    let st = import_fold(ls, ls.len() as int);
    if can_flush(st) {
        flushed(st).entries
    } else {
        st.entries
    }
}

/// A memory as the import creates it: global, from `import`, unpinned, no attachment.
pub open spec fn imported(m: NewMemory) -> bool {
    &&& m.scope == MemoryScope::Global
    &&& m.source@ == "import"@
    &&& m.source_session_id is None
    &&& !m.pinned
    &&& m.attachment_path is None
    &&& m.attachment_mime is None
}

pub open spec fn import_views(v: Seq<NewMemory>) -> Seq<ImportView> {
    Seq::new(v.len(), |i: int| ImportView { ty: v[i].memory_type, content: v[i].content@, tags: strs_of(v[i].tags@) })
}

fn heading_type_exec(h: &[char]) -> (r: MemoryType)
    ensures
        r == heading_type(h@),
{
    let s = string_of(h);
    if str_eq(s.as_str(), "Preferences & Feedback") {
        MemoryType::Feedback
    } else if str_eq(s.as_str(), "Project Context") {
        MemoryType::Project
    } else if str_eq(s.as_str(), "References") {
        MemoryType::Reference
    } else {
        MemoryType::User
    }
}

fn tag_list_exec(t: &[char]) -> (r: Vec<String>)
    ensures
        strs_of(r@) == tag_list(t@),
{
    let rest = crate::plan::trim_start_matches_exec(t, "Tags:");
    let pieces = split_char_exec(rest.as_slice(), ',');
    let ghost ps = seqs_of(pieces@);
    let mut out: Vec<String> = Vec::new();
    let mut i: usize = 0;
    while i < pieces.len()
        invariant
            i <= pieces@.len(),
            ps == seqs_of(pieces@),
            strs_of(out@) == nonempty_trimmed(ps.take(i as int)),
        decreases pieces@.len() - i,
    {
        assert(ps.take(i + 1).drop_last() =~= ps.take(i as int));
        assert(ps.take(i + 1).last() == pieces@[i as int]@);
        let tp = trim_exec(pieces[i].as_slice());
        if tp.len() > 0 {
            let ghost before = strs_of(out@);
            out.push(string_of(tp.as_slice()));
            assert(strs_of(out@) =~= before.push(tp@));
        }
        i += 1;
    }
    assert(ps.take(pieces@.len() as int) =~= ps);
    out
}

fn import_memory(ty: MemoryType, content: &[char], tags: Vec<String>) -> (r: NewMemory)
    ensures
        imported(r),
        r.memory_type == ty,
        r.content@ == trim(content@),
        r.tags@ == tags@,
{
    let c = trim_exec(content);
    NewMemory {
        memory_type: ty,
        scope: MemoryScope::Global,
        content: string_of(c.as_slice()),
        tags,
        source: string_of(chars_of("import").as_slice()),
        source_session_id: None,
        pinned: false,
        attachment_path: None,
        attachment_mime: None,
    }
}

/// Parses an exported memory markdown file (see `import_entries`). Never fails.
pub fn parse_import_markdown(md_str: &str) -> (r: Vec<NewMemory>)
    ensures
        import_views(r@) == import_entries(md_str@),
        forall|i: int| 0 <= i < r@.len() ==> imported(#[trigger] r@[i]),
{
    let text = chars_of(md_str);
    let ls = lines_exec(text.as_slice());
    let ghost all = seqs_of(ls@);
    let mut entries: Vec<NewMemory> = Vec::new();
    let mut ty = MemoryType::User;
    let mut content: Vec<char> = Vec::new();
    let mut tags: Vec<String> = Vec::new();
    let mut in_entry = false;
    let mut i: usize = 0;
    assert(import_views(entries@) =~= Seq::<ImportView>::empty());
    assert(strs_of(tags@) =~= Seq::<Seq<char>>::empty());
    assert(content@ =~= Seq::<char>::empty());
    while i < ls.len()
        invariant
            i <= ls@.len(),
            all == seqs_of(ls@),
            all == lines(md_str@),
            import_fold(all, i as int) == (ImportFold {
                entries: import_views(entries@),
                ty,
                content: content@,
                tags: strs_of(tags@),
                in_entry,
            }),
            forall|j: int| 0 <= j < entries@.len() ==> imported(#[trigger] entries@[j]),
        decreases ls@.len() - i,
    {
        assert(all[i as int] == ls@[i as int]@);
        let line = ls[i].as_slice();
        let t = trim_exec(line);
        let ghost st = import_fold(all, i as int);
        let flushable = in_entry && trim_exec(content.as_slice()).len() > 0;
        assert(flushable == can_flush(st));
        let ghost nxt = import_step(st, all[i as int]);
        if starts_with_str(t.as_slice(), "## ") {
            if flushable {
                let mut taken: Vec<String> = Vec::new();
                std::mem::swap(&mut taken, &mut tags);
                let m = import_memory(ty, content.as_slice(), taken);
                entries.push(m);
                assert(import_views(entries@) =~= flushed(st).entries);
                assert(strs_of(tags@) =~= Seq::<Seq<char>>::empty());
                content = Vec::new();
                assert(content@ =~= Seq::<char>::empty());
                in_entry = false;
            }
            let rest = crate::plan::trim_start_matches_exec(t.as_slice(), "## ");
            let h = trim_exec(rest.as_slice());
            ty = heading_type_exec(h.as_slice());
            assert(import_views(entries@) == nxt.entries);
            assert(content@ == nxt.content);
            assert(strs_of(tags@) == nxt.tags);
            assert(in_entry == nxt.in_entry);
            assert(ty == nxt.ty);
        } else if starts_with_str(t.as_slice(), "### ") {
            if flushable {
                let mut taken: Vec<String> = Vec::new();
                std::mem::swap(&mut taken, &mut tags);
                let m = import_memory(ty, content.as_slice(), taken);
                entries.push(m);
                assert(import_views(entries@) =~= flushed(st).entries);
                assert(strs_of(tags@) =~= Seq::<Seq<char>>::empty());
                content = Vec::new();
                assert(content@ =~= Seq::<char>::empty());
            }
            in_entry = true;
            assert(import_views(entries@) == nxt.entries);
            assert(content@ == nxt.content);
            assert(strs_of(tags@) == nxt.tags);
            assert(in_entry == nxt.in_entry);
            assert(ty == nxt.ty);
        } else if starts_with_str(t.as_slice(), "Tags:") {
            tags = tag_list_exec(t.as_slice());
            assert(strs_of(tags@) == nxt.tags);
        } else if starts_with_str(t.as_slice(), "Scope:") || crate::text::eq_str(t.as_slice(), "---") {
        } else if in_entry && (content.len() > 0 || t.len() > 0) {
            crate::text::extend_chars(&mut content, line);
            content.push('\n');
            assert(content@ =~= nxt.content);
        }
        assert(import_fold(all, i + 1) == nxt);
        i += 1;
    }
    assert(all.take(ls@.len() as int) =~= all);
    let flushable = in_entry && trim_exec(content.as_slice()).len() > 0;
    if flushable {
        let m = import_memory(ty, content.as_slice(), tags);
        entries.push(m);
        assert(import_views(entries@) =~= flushed(import_fold(all, all.len() as int)).entries);
    }
    entries
}

// ───────────────────────────── full-text queries ─────────────────────────────

/// `char::is_alphanumeric` (Unicode `Alphabetic` or `Numeric`).
pub uninterp spec fn alphanumeric(c: char) -> bool;

/// `char::is_alphanumeric`: the result is named by `alphanumeric`; the Unicode
/// tables behind it stay unsaid here.
#[verifier::external_body]
fn char_is_alphanumeric(c: char) -> (r: bool)
    ensures
        r == alphanumeric(c),
{
    c.is_alphanumeric()
}

/// A character kept in a search term.
pub open spec fn term_char(c: char) -> bool {
    alphanumeric(c) || c == '_' || c == '-'
}

/// The characters of `w` kept in a search term.
pub open spec fn term_chars(w: Seq<char>) -> Seq<char>
    decreases w.len(),
{
    if w.len() == 0 {
        seq![]
    } else if term_char(w.last()) {
        term_chars(w.drop_last()).push(w.last())
    } else {
        term_chars(w.drop_last())
    }
}

/// The quoted terms of the first `n` words (words with nothing left are dropped).
pub open spec fn fts_terms(ws: Seq<Seq<char>>, n: int) -> Seq<Seq<char>>
    decreases n,
{
    if n <= 0 {
        seq![]
    } else {
        let rest = fts_terms(ws, n - 1);
        let c = term_chars(ws[n - 1]);
        if c.len() > 0 {
            rest.push("\""@ + c + "\""@)
        } else {
            rest
        }
    }
}

/// A full-text query: each word, reduced to letters, digits, `_` and `-`, quoted
/// as a literal term and joined by ` OR `; `"*"` when no term is left.
pub open spec fn fts_query(q: Seq<char>) -> Seq<char> {
    let ws = words(q);
    let ts = fts_terms(ws, ws.len() as int);
    if ts.len() == 0 {
        "\"*\""@
    } else {
        crate::text::join(ts, " OR "@)
    }
}

fn term_chars_exec(w: &[char]) -> (r: Vec<char>)
    ensures
        r@ == term_chars(w@),
{
    let mut out: Vec<char> = Vec::new();
    let mut i: usize = 0;
    while i < w.len()
        invariant
            i <= w@.len(),
            out@ == term_chars(w@.take(i as int)),
        decreases w@.len() - i,
    {
        assert(w@.take(i + 1).drop_last() =~= w@.take(i as int));
        let c = w[i];
        if char_is_alphanumeric(c) || c == '_' || c == '-' {
            out.push(c);
        }
        i += 1;
    }
    assert(w@.take(w@.len() as int) =~= w@);
    out
}

/// Turns a user query into a full-text `MATCH` expression (see `fts_query`).
pub fn sanitize_fts_query(query: &str) -> (r: String)
    ensures
        r@ == fts_query(query@),
{
    let ws = split_whitespace(query);
    let ghost wv = strs_of(ws@);
    let mut terms: Vec<Vec<char>> = Vec::new();
    let mut i: usize = 0;
    while i < ws.len()
        invariant
            i <= ws@.len(),
            wv == strs_of(ws@),
            seqs_of(terms@) == fts_terms(wv, i as int),
        decreases ws@.len() - i,
    {
        let c = term_chars_exec(chars_of(ws[i].as_str()).as_slice());
        if c.len() > 0 {
            let mut t: Vec<char> = Vec::new();
            t.push('"');
            extend_chars(&mut t, c.as_slice());
            t.push('"');
            proof {
                reveal_strlit("\"");
            }
            assert(t@ =~= "\""@ + c@ + "\""@);
            let ghost before = seqs_of(terms@);
            terms.push(t);
            assert(seqs_of(terms@) =~= before.push("\""@ + c@ + "\""@));
        }
        i += 1;
    }
    if terms.len() == 0 {
        return string_of(chars_of("\"*\"").as_slice());
    }
    let joined = crate::text::join_prefix(&terms, terms.len(), " OR ");
    assert(seqs_of(terms@).take(terms@.len() as int) =~= seqs_of(terms@));
    string_of(joined.as_slice())
}

// ───────────────────────────── prompt safety ─────────────────────────────

/// Every occurrence of `p` in `s`, left to right, replaced by `r`.
#[verifier::opaque]
pub open spec fn replace_all(s: Seq<char>, p: Seq<char>, r: Seq<char>) -> Seq<char>
    decreases s.len(),
{
    if p.len() == 0 {
        s
    } else {
        match find(s, p) {
            Some(i) => if 0 <= i && i + p.len() <= s.len() {
                s.take(i) + r + replace_all(s.skip(i + p.len()), p, r)
            } else {
                s
            },
            None => s,
        }
    }
}

proof fn lemma_replace_step(s: Seq<char>, p: Seq<char>, r: Seq<char>, i: int)
    requires
        p.len() > 0,
        find(s, p) == Some(i),
        occurs_at(s, p, i),
    ensures
        replace_all(s, p, r) == s.take(i) + r + replace_all(s.skip(i + p.len()), p, r),
{
    reveal(replace_all);
}

proof fn lemma_replace_none(s: Seq<char>, p: Seq<char>, r: Seq<char>)
    requires
        p.len() > 0,
        find(s, p) is None,
    ensures
        replace_all(s, p, r) == s,
{
    reveal(replace_all);
}

/// `str::replace` (for a non-empty pattern).
pub fn replace_str(s: &[char], p: &str, r: &str) -> (out: Vec<char>)
    requires
        p@.len() > 0,
    ensures
        out@ == replace_all(s@, p@, r@),
{
    let pv = chars_of(p);
    let mut rest: Vec<char> = slice_of(s, 0, s.len());
    assert(rest@ =~= s@);
    let mut out: Vec<char> = Vec::new();
    loop
        invariant
            pv@ == p@,
            p@.len() > 0,
            out@ + replace_all(rest@, p@, r@) == replace_all(s@, p@, r@),
        decreases rest@.len(),
    {
        match find_exec(rest.as_slice(), pv.as_slice()) {
            Some(i) => {
                let ghost r0 = rest@;
                let n = rest.len();
                assert(i + pv@.len() <= n);
                let head = slice_of(rest.as_slice(), 0, i);
                let tail = slice_of(rest.as_slice(), i + pv.len(), n);
                assert(head@ =~= r0.take(i as int));
                assert(tail@ =~= r0.skip(i + p@.len()));
                proof {
                    lemma_replace_step(r0, p@, r@, i as int);
                }
                let ghost o0 = out@;
                let ghost x = replace_all(tail@, p@, r@);
                extend_chars(&mut out, head.as_slice());
                extend_str(&mut out, r);
                assert(out@ + x =~= o0 + (head@ + r@ + x));
                rest = tail;
            },
            None => {
                proof {
                    lemma_replace_none(rest@, p@, r@);
                }
                extend_chars(&mut out, rest.as_slice());
                return out;
            },
        }
    }
}

/// Lowercased text that looks like an attempt to override instructions.
pub open spec fn injection_suspect(lower: Seq<char>) -> bool {
    ||| contains(lower, "ignore previous instructions"@)
    ||| contains(lower, "ignore all instructions"@)
    ||| contains(lower, "ignore above instructions"@)
    ||| contains(lower, "disregard previous"@)
    ||| contains(lower, "disregard all previous"@)
    ||| contains(lower, "you are now"@)
    ||| contains(lower, "new instructions:"@)
    ||| contains(lower, "system prompt:"@)
    ||| contains(lower, "<<sys>>"@)
    ||| contains(lower, "<|im_start|>"@)
    ||| contains(lower, "<|endoftext|>"@)
    ||| contains(lower, "<|system|>"@)
}

/// Memory text made safe for the system prompt: replaced by a notice when it
/// looks like a prompt injection (case-insensitively), else with special tokens
/// escaped (`<|`, `|>`, `<<sys>>`).
pub open spec fn prompt_safe(content: Seq<char>) -> Seq<char> {
    if injection_suspect(lowercase(content)) {
        "[Content filtered: potential prompt injection detected]"@
    } else {
        replace_all(
            replace_all(replace_all(content, "<|"@, "&lt;|"@), "|>"@, "|&gt;"@),
            "<<sys>>"@,
            "&lt;&lt;sys&gt;&gt;"@,
        )
    }
}

/// Makes memory text safe for the system prompt (see `prompt_safe`).
pub fn sanitize_for_prompt(content: &str) -> (r: String)
    ensures
        r@ == prompt_safe(content@),
{
    let lower = to_lowercase(content);
    let l = chars_of(lower.as_str());
    let ls = l.as_slice();
    if contains_str(ls, "ignore previous instructions") || contains_str(ls, "ignore all instructions")
        || contains_str(ls, "ignore above instructions") || contains_str(ls, "disregard previous")
        || contains_str(ls, "disregard all previous") || contains_str(ls, "you are now")
        || contains_str(ls, "new instructions:") || contains_str(ls, "system prompt:")
        || contains_str(ls, "<<sys>>") || contains_str(ls, "<|im_start|>") || contains_str(
        ls,
        "<|endoftext|>",
    ) || contains_str(ls, "<|system|>") {
        return string_of(chars_of("[Content filtered: potential prompt injection detected]").as_slice());
    }
    proof {
        reveal_strlit("<|");
        reveal_strlit("|>");
        reveal_strlit("<<sys>>");
    }
    let c = chars_of(content);
    let a = replace_str(c.as_slice(), "<|", "&lt;|");
    let b = replace_str(a.as_slice(), "|>", "|&gt;");
    let d = replace_str(b.as_slice(), "<<sys>>", "&lt;&lt;sys&gt;&gt;");
    string_of(d.as_slice())
}

// ───────────────────────────── scope filters ─────────────────────────────

/// The SQL condition of `scope_where` and its parameter.
pub open spec fn scope_condition(scope: Option<MemoryScope>, agent_id: Option<Seq<char>>) -> (Seq<char>, Option<Seq<char>>) {
    match scope {
        Some(MemoryScope::Global) => ("scope_type = 'global'"@, None),
        Some(MemoryScope::Agent { id }) => ("scope_type = 'agent' AND scope_agent_id = ?"@, Some(id@)),
        None => match agent_id {
            Some(a) => ("(scope_type = 'global' OR (scope_type = 'agent' AND scope_agent_id = ?))"@, Some(a)),
            None => ("1=1"@, None),
        },
    }
}

/// The SQL condition selecting memories in a scope, and its one parameter
/// (an agent id) when it has one: an explicit scope wins over the agent
/// shorthand (global plus that agent's); with neither, everything.
pub fn scope_where(scope: &Option<MemoryScope>, agent_id: &Option<String>) -> (r: (String, Option<String>))
    ensures
        (r.0@, r.1.deep_view()) == scope_condition(*scope, agent_id.deep_view()),
        match scope {
            Some(MemoryScope::Global) => r.0@ == "scope_type = 'global'"@ && r.1 is None,
            Some(MemoryScope::Agent { id }) => r.0@ == "scope_type = 'agent' AND scope_agent_id = ?"@
                && r.1.deep_view() == Some(id@),
            None => match agent_id {
                Some(a) => r.0@ == "(scope_type = 'global' OR (scope_type = 'agent' AND scope_agent_id = ?))"@
                    && r.1.deep_view() == Some(a@),
                None => r.0@ == "1=1"@ && r.1 is None,
            },
        },
{
    match scope {
        Some(MemoryScope::Global) => (string_of(chars_of("scope_type = 'global'").as_slice()), None),
        Some(MemoryScope::Agent { id }) => (
            string_of(chars_of("scope_type = 'agent' AND scope_agent_id = ?").as_slice()),
            Some(string_of(chars_of(id.as_str()).as_slice())),
        ),
        None => match agent_id {
            Some(a) => (
                string_of(
                    chars_of(
                        "(scope_type = 'global' OR (scope_type = 'agent' AND scope_agent_id = ?))",
                    ).as_slice(),
                ),
                Some(string_of(chars_of(a.as_str()).as_slice())),
            ),
            None => (string_of(chars_of("1=1").as_slice()), None),
        },
    }
}

// ───────────────────────────── JSON import ─────────────────────────────

/// One object of a JSON import, as the import reads it.
#[derive(Debug, Clone)]
pub struct ImportItem {
    /// `content`, when it is a string.
    pub content: Option<String>,
    /// `type`, when it is a string.
    pub memory_type: Option<String>,
    /// `scope`, when it is a string.
    pub scope: Option<String>,
    /// `agentId`, when it is a string.
    pub agent_id: Option<String>,
    /// `tags`, when it is an array: each element's string, or `None` for one that is not a string.
    pub tags: Option<Vec<Option<String>>>,
}

/// Why a JSON import was refused.
#[derive(Debug, Clone, Copy, PartialEq, Eq, Structural)]
pub enum ImportError {
    /// An object has no string `content`.
    MissingContent,
}

/// The memory an import object gives: its content; its type (`user` when
/// absent); scope `agent` with its `agentId` (`default` when absent) or else
/// global; its string tags; from `import`, unpinned, with no attachment.
pub open spec fn item_imported(it: ImportItem, m: NewMemory) -> bool {
    &&& it.content matches Some(c) && m.content@ == c@
    &&& m.memory_type == memory_type_from(
        match it.memory_type {
            Some(t) => t@,
            None => "user"@,
        },
    )
    &&& (match it.scope {
        Some(sc) => sc@ == "agent"@,
        None => false,
    }) ==> (m.scope matches MemoryScope::Agent { id } && id@ == match it.agent_id {
        Some(a) => a@,
        None => "default"@,
    })
    &&& !(match it.scope {
        Some(sc) => sc@ == "agent"@,
        None => false,
    }) ==> m.scope == MemoryScope::Global
    &&& strs_of(m.tags@) == match it.tags {
        Some(ts) => crate::extract::string_tags(ts@),
        None => seq![],
    }
    &&& m.source@ == "import"@
    &&& m.source_session_id is None
    &&& !m.pinned
    &&& m.attachment_path is None
    &&& m.attachment_mime is None
}

fn copy_text(s: &String) -> (r: String)
    ensures
        r@ == s@,
{
    string_of(chars_of(s.as_str()).as_slice())
}

fn import_item(it: &ImportItem) -> (r: Option<NewMemory>)
    ensures
        it.content is None ==> r is None,
        it.content is Some ==> (r matches Some(m) && item_imported(*it, m)),
{
    let content = match &it.content {
        Some(c) => copy_text(c),
        None => {
            return None;
        },
    };
    let memory_type = match &it.memory_type {
        Some(t) => MemoryType::from_str(t.as_str()),
        None => MemoryType::from_str("user"),
    };
    let is_agent = match &it.scope {
        Some(sc) => str_eq(sc.as_str(), "agent"),
        None => false,
    };
    let scope = if is_agent {
        let id = match &it.agent_id {
            Some(a) => copy_text(a),
            None => string_of(chars_of("default").as_slice()),
        };
        MemoryScope::Agent { id }
    } else {
        MemoryScope::Global
    };
    let mut tags: Vec<String> = Vec::new();
    match &it.tags {
        Some(ts) => {
            let mut i: usize = 0;
            while i < ts.len()
                invariant
                    i <= ts@.len(),
                    strs_of(tags@) == crate::extract::string_tags(ts@.take(i as int)),
                decreases ts@.len() - i,
            {
                assert(ts@.take(i + 1).drop_last() =~= ts@.take(i as int));
                match &ts[i] {
                    Some(t) => {
                        let ghost before = strs_of(tags@);
                        tags.push(copy_text(t));
                        assert(strs_of(tags@) =~= before.push(t@));
                    },
                    None => {},
                }
                i += 1;
            }
            assert(ts@.take(ts@.len() as int) =~= ts@);
        },
        None => {
            assert(strs_of(tags@) =~= Seq::<Seq<char>>::empty());
        },
    }
    Some(NewMemory {
        memory_type,
        scope,
        content,
        tags,
        source: string_of(chars_of("import").as_slice()),
        source_session_id: None,
        pinned: false,
        attachment_path: None,
        attachment_mime: None,
    })
}

/// The memories of a JSON import's objects, in order (see `item_imported`);
/// refused when an object has no string `content`.
pub fn import_items(items: &Vec<ImportItem>) -> (r: Result<Vec<NewMemory>, ImportError>)
    ensures
        (exists|i: int| 0 <= i < items@.len() && (#[trigger] items@[i]).content is None) <==> r is Err,
        r matches Ok(ms) ==> ms@.len() == items@.len() && forall|i: int|
            0 <= i < items@.len() ==> item_imported(#[trigger] items@[i], ms@[i]),
{
    let mut out: Vec<NewMemory> = Vec::new();
    let mut i: usize = 0;
    while i < items.len()
        invariant
            i <= items@.len(),
            out@.len() == i,
            forall|j: int| 0 <= j < i ==> items@[j].content is Some,
            forall|j: int| 0 <= j < i ==> item_imported(#[trigger] items@[j], out@[j]),
        decreases items@.len() - i,
    {
        match import_item(&items[i]) {
            Some(m) => {
                out.push(m);
            },
            None => {
                assert(items@[i as int].content is None);
                return Err(ImportError::MissingContent);
            },
        }
        i += 1;
    }
    Ok(out)
}

// ───────────────────────────── similarity tokens ─────────────────────────────

/// A character of a CJK block: unified ideographs, extension A, hiragana,
/// katakana, hangul syllables.
pub open spec fn cjk(c: char) -> bool {
    ('\u{4E00}' <= c && c <= '\u{9FFF}') || ('\u{3400}' <= c && c <= '\u{4DBF}') || ('\u{3040}' <= c
        && c <= '\u{309F}') || ('\u{30A0}' <= c && c <= '\u{30FF}') || ('\u{AC00}' <= c && c
        <= '\u{D7AF}')
}

/// Whether `c` is in a CJK block (see `cjk`).
pub fn is_cjk(c: char) -> (r: bool)
    ensures
        r == cjk(c),
{
    ('\u{4E00}' <= c && c <= '\u{9FFF}') || ('\u{3400}' <= c && c <= '\u{4DBF}') || ('\u{3040}' <= c
        && c <= '\u{309F}') || ('\u{30A0}' <= c && c <= '\u{30FF}') || ('\u{AC00}' <= c && c
        <= '\u{D7AF}')
}

/// A character of an ASCII word: letter, digit, `_` or `-`.
pub open spec fn word_char(c: char) -> bool {
    ('a' <= c && c <= 'z') || ('A' <= c && c <= 'Z') || ('0' <= c && c <= '9') || c == '_' || c == '-'
}

/// Reading the first `n` characters: the finished words longer than one
/// character, and the run of word characters being read.
pub open spec fn word_fold(s: Seq<char>, n: int) -> (Seq<Seq<char>>, Seq<char>)
    decreases n,
{
    if n <= 0 {
        (seq![], seq![])
    } else {
        let (ws, cur) = word_fold(s, n - 1);
        if word_char(s[n - 1]) {
            (ws, cur.push(s[n - 1]))
        } else if cur.len() > 1 {
            (ws.push(cur), seq![])
        } else {
            (ws, seq![])
        }
    }
}

/// The maximal runs of word characters of `s` longer than one character, in order.
pub open spec fn long_words(s: Seq<char>) -> Seq<Seq<char>> {
    let (ws, cur) = word_fold(s, s.len() as int);
    if cur.len() > 1 {
        ws.push(cur)
    } else {
        ws
    }
}

/// The CJK characters of `s`, in order.
pub open spec fn cjk_chars(s: Seq<char>) -> Seq<char>
    decreases s.len(),
{
    if s.len() == 0 {
        seq![]
    } else if cjk(s.last()) {
        cjk_chars(s.drop_last()).push(s.last())
    } else {
        cjk_chars(s.drop_last())
    }
}

/// Each character of `cj` on its own.
pub open spec fn unigrams(cj: Seq<char>) -> Seq<Seq<char>> {
    Seq::new(cj.len(), |i: int| seq![cj[i]])
}

/// Each pair of neighbours in `cj`.
pub open spec fn bigrams(cj: Seq<char>) -> Seq<Seq<char>> {
    if cj.len() == 0 {
        seq![]
    } else {
        Seq::new((cj.len() - 1) as nat, |i: int| seq![cj[i], cj[i + 1]])
    }
}

/// The similarity tokens of lowercased text `l`, repeats included: its long
/// ASCII words, then each CJK character, then each two CJK characters that
/// follow each other among its CJK characters.
pub open spec fn token_list(l: Seq<char>) -> Seq<Seq<char>> {
    long_words(l) + unigrams(cjk_chars(l)) + bigrams(cjk_chars(l))
}

fn push_unique(out: &mut Vec<String>, t: &[char])
    ensures
        strs_of(final(out)@).to_set() == strs_of(old(out)@).to_set().insert(t@),
        strs_of(old(out)@).no_duplicates() ==> strs_of(final(out)@).no_duplicates(),
{
    let s = string_of(t);
    if !crate::text::vec_contains_str(out, s.as_str()) {
        let ghost before = strs_of(out@);
        out.push(s);
        assert(strs_of(out@) =~= before.push(t@));
        proof {
            before.lemma_push_to_set_commute(t@);
        }
    } else {
        proof {
            assert(strs_of(out@).to_set().contains(t@));
            assert(strs_of(out@).to_set().insert(t@) =~= strs_of(out@).to_set());
        }
    }
}

fn push_chars(v: &mut Vec<String>, t: &[char])
    ensures
        strs_of(final(v)@) == strs_of(old(v)@).push(t@),
{
    let s = string_of(t);
    v.push(s);
    assert(strs_of(v@) =~= strs_of(old(v)@).push(t@));
}

/// The distinct similarity tokens of a text (see `token_list`), from its lowercase form.
pub fn tokenize(text: &str) -> (r: Vec<String>)
    ensures
        strs_of(r@).no_duplicates(),
        strs_of(r@).to_set() == token_list(lowercase(text@)).to_set(),
{
    let lower = to_lowercase(text);
    let l = chars_of(lower.as_str());
    let ghost lv = l@;
    let mut cand: Vec<String> = Vec::new();
    let mut word: Vec<char> = Vec::new();
    let mut i: usize = 0;
    while i < l.len()
        invariant
            i <= l@.len(),
            lv == l@,
            word_fold(lv, i as int).1 == word@,
            word_fold(lv, i as int).0 == strs_of(cand@),
        decreases l@.len() - i,
    {
        let c = l[i];
        if ('a' <= c && c <= 'z') || ('A' <= c && c <= 'Z') || ('0' <= c && c <= '9') || c == '_'
            || c == '-' {
            word.push(c);
        } else {
            if word.len() > 1 {
                push_chars(&mut cand, word.as_slice());
            }
            word = Vec::new();
        }
        i += 1;
    }
    if word.len() > 1 {
        push_chars(&mut cand, word.as_slice());
    }
    let ghost lw = strs_of(cand@);
    assert(lw == long_words(lv));
    let mut cj: Vec<char> = Vec::new();
    let mut j: usize = 0;
    while j < l.len()
        invariant
            j <= l@.len(),
            lv == l@,
            cj@ == cjk_chars(lv.take(j as int)),
        decreases l@.len() - j,
    {
        assert(lv.take(j + 1).drop_last() =~= lv.take(j as int));
        if is_cjk(l[j]) {
            cj.push(l[j]);
        }
        j += 1;
    }
    assert(lv.take(lv.len() as int) =~= lv);
    let mut k: usize = 0;
    while k < cj.len()
        invariant
            k <= cj@.len(),
            cj@ == cjk_chars(lv),
            strs_of(cand@) == lw + unigrams(cj@).take(k as int),
        decreases cj@.len() - k,
    {
        let mut one: Vec<char> = Vec::new();
        one.push(cj[k]);
        push_chars(&mut cand, one.as_slice());
        assert(unigrams(cj@).take(k + 1) =~= unigrams(cj@).take(k as int).push(one@));
        k += 1;
    }
    assert(unigrams(cj@).take(cj@.len() as int) =~= unigrams(cj@));
    let ghost lu = strs_of(cand@);
    let mut p: usize = 1;
    while p < cj.len()
        invariant
            1 <= p,
            p <= cj@.len() || p == 1,
            cj@ == cjk_chars(lv),
            lu == lw + unigrams(cj@),
            strs_of(cand@) == lu + bigrams(cj@).take(p - 1),
        decreases cj@.len() - p,
    {
        let mut two: Vec<char> = Vec::new();
        two.push(cj[p - 1]);
        two.push(cj[p]);
        push_chars(&mut cand, two.as_slice());
        assert(two@ =~= seq![cj@[p - 1], cj@[p as int]]);
        assert(bigrams(cj@)[p - 1] == two@);
        assert(bigrams(cj@).take(p as int) =~= bigrams(cj@).take(p - 1).push(two@));
        p += 1;
    }
    proof {
        if cj@.len() == 0 {
            assert(bigrams(cj@) =~= Seq::<Seq<char>>::empty());
        } else {
            assert(p == cj@.len());
            assert(bigrams(cj@).len() == p - 1);
        }
        assert(bigrams(cj@).take(p - 1) =~= bigrams(cj@));
    }
    assert(strs_of(cand@) =~= token_list(lv));
    let mut out: Vec<String> = Vec::new();
    let mut q: usize = 0;
    assert(strs_of(out@).to_set() =~= strs_of(cand@).take(0).to_set());
    while q < cand.len()
        invariant
            q <= cand@.len(),
            strs_of(out@).no_duplicates(),
            strs_of(out@).to_set() == strs_of(cand@).take(q as int).to_set(),
        decreases cand@.len() - q,
    {
        let t = chars_of(cand[q].as_str());
        push_unique(&mut out, t.as_slice());
        proof {
            assert(strs_of(cand@).take(q + 1) =~= strs_of(cand@).take(q as int).push(t@));
            strs_of(cand@).take(q as int).lemma_push_to_set_commute(t@);
        }
        q += 1;
    }
    assert(strs_of(cand@).take(cand@.len() as int) =~= strs_of(cand@));
    out
}

} // verus!
