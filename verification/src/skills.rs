//! Skills: SKILL.md frontmatter parsing (name, description, `requires:` and
//! `install:` blocks, command options), requirement checks, the skills section
//! of the system prompt, slash-command names and health status.
use vstd::prelude::*;
use crate::failover::{lowercase, to_lowercase};
use crate::text::{
    blen, blen_capped, chars_of, ends_with, eq_str, has_char, lines, lines_exec, prefix_chars_for_bytes,
    push_all, push_char, seqs_of, slice_of, split_char, split_char_exec, starts_with, starts_with_exec,
    starts_with_str, ends_with_exec, string_of, strs_of, suffix_chars_for_bytes, trim, trim_exec,
    contains, contains_str, utf8_width, lemma_blen_take_step, lemma_blen_split, blen_le, dec, dec_exec,
    extend_chars, extend_str, join, join_prefix, lemma_join_prefix_grows,
};

verus! {

// ───────────────────────────── defaults ─────────────────────────────

pub const DEFAULT_MAX_SKILLS_IN_PROMPT: usize = 150;

pub const DEFAULT_MAX_SKILLS_PROMPT_CHARS: usize = 30000;

pub const DEFAULT_MAX_SKILL_FILE_BYTES: u64 = 262144;

pub const DEFAULT_MAX_CANDIDATES_PER_ROOT: usize = 300;

/// Limits for skill discovery and prompt generation.
#[derive(Debug, Clone, Copy)]
pub struct SkillPromptBudget {
    /// Maximum number of skills listed in the system prompt.
    pub max_count: usize,
    /// Maximum length (bytes) of the skills prompt section.
    pub max_chars: usize,
    /// Maximum size of a SKILL.md file in bytes.
    pub max_file_bytes: u64,
    /// Maximum subdirectories scanned per skills root.
    pub max_candidates_per_root: usize,
}

pub fn default_max_count() -> (r: usize)
    ensures
        r == DEFAULT_MAX_SKILLS_IN_PROMPT,
{
    DEFAULT_MAX_SKILLS_IN_PROMPT
}

pub fn default_max_chars() -> (r: usize)
    ensures
        r == DEFAULT_MAX_SKILLS_PROMPT_CHARS,
{
    DEFAULT_MAX_SKILLS_PROMPT_CHARS
}

pub fn default_max_file_bytes() -> (r: u64)
    ensures
        r == DEFAULT_MAX_SKILL_FILE_BYTES,
{
    DEFAULT_MAX_SKILL_FILE_BYTES
}

pub fn default_max_candidates() -> (r: usize)
    ensures
        r == DEFAULT_MAX_CANDIDATES_PER_ROOT,
{
    DEFAULT_MAX_CANDIDATES_PER_ROOT
}

impl Default for SkillPromptBudget {
    fn default() -> (r: Self)
        ensures
            r.max_count == DEFAULT_MAX_SKILLS_IN_PROMPT,
            r.max_chars == DEFAULT_MAX_SKILLS_PROMPT_CHARS,
            r.max_file_bytes == DEFAULT_MAX_SKILL_FILE_BYTES,
            r.max_candidates_per_root == DEFAULT_MAX_CANDIDATES_PER_ROOT,
    {
        SkillPromptBudget {
            max_count: DEFAULT_MAX_SKILLS_IN_PROMPT,
            max_chars: DEFAULT_MAX_SKILLS_PROMPT_CHARS,
            max_file_bytes: DEFAULT_MAX_SKILL_FILE_BYTES,
            max_candidates_per_root: DEFAULT_MAX_CANDIDATES_PER_ROOT,
        }
    }
}

// ───────────────────────────── quoting and scalars ─────────────────────────────

/// The value is wrapped in a pair of matching quote characters (or is a lone quote).
pub open spec fn is_quoted(t: Seq<char>) -> bool {
    t.len() >= 1 && ((t[0] == '"' && t.last() == '"') || (t[0] == '\'' && t.last() == '\''))
}

/// `unquote` does not slice out of range: the trimmed value is not a lone quote.
pub open spec fn unquote_ok(s: Seq<char>) -> bool {
    !(is_quoted(trim(s)) && trim(s).len() == 1)
}

/// The trimmed value without one pair of surrounding quotes.
pub open spec fn unquote_spec(s: Seq<char>) -> Seq<char> {
    let t = trim(s);
    if is_quoted(t) {
        t.subrange(1, t.len() - 1)
    } else {
        t
    }
}

/// Removes surrounding quotes from a YAML scalar (after trimming).
pub fn unquote(s: &str) -> (r: String)
    requires
        unquote_ok(s@),
    ensures
        r@ == unquote_spec(s@),
{
    let v = chars_of(s);
    unquote_chars(v.as_slice())
}

pub fn unquote_chars(s: &[char]) -> (r: String)
    requires
        unquote_ok(s@),
    ensures
        r@ == unquote_spec(s@),
{
    let t = trim_exec(s);
    let n = t.len();
    if n >= 1 && ((t[0] == '"' && t[n - 1] == '"') || (t[0] == '\'' && t[n - 1] == '\'')) {
        let inner = slice_of(t.as_slice(), 1, n - 1);
        string_of(inner.as_slice())
    } else {
        string_of(t.as_slice())
    }
}

/// Boolean-ish YAML words: true/yes/1/on and false/no/0/off.
pub open spec fn bool_word(l: Seq<char>) -> Option<bool> {
    if l == "true"@ || l == "yes"@ || l == "1"@ || l == "on"@ {
        Some(true)
    } else if l == "false"@ || l == "no"@ || l == "0"@ || l == "off"@ {
        Some(false)
    } else {
        None
    }
}

pub open spec fn parse_bool_spec(s: Seq<char>) -> Option<bool> {
    bool_word(lowercase(unquote_spec(s)))
}

/// Classifies an already lowercased word as a YAML boolean.
pub fn bool_from_word(l: &str) -> (r: Option<bool>)
    ensures
        r == bool_word(l@),
{
    let v = chars_of(l);
    let v = v.as_slice();
    if eq_str(v, "true") || eq_str(v, "yes") || eq_str(v, "1") || eq_str(v, "on") {
        Some(true)
    } else if eq_str(v, "false") || eq_str(v, "no") || eq_str(v, "0") || eq_str(v, "off") {
        Some(false)
    } else {
        None
    }
}

/// Parses a boolean-ish YAML value (quotes removed, compared case-insensitively).
pub fn parse_bool_value(s: &str) -> (r: Option<bool>)
    requires
        unquote_ok(s@),
    ensures
        r == parse_bool_spec(s@),
{
    let u = unquote(s);
    let lower = to_lowercase(u.as_str());
    bool_from_word(lower.as_str())
}

// ───────────────────────────── masking ─────────────────────────────

pub proof fn lemma_blen_pos(s: Seq<char>)
    requires
        s.len() > 0,
    ensures
        blen(s) >= 1,
{
    assert(utf8_width(s.last()) >= 1);
}

pub proof fn lemma_blen_strict(s: Seq<char>, a: int, b: int)
    requires
        0 <= a < b <= s.len(),
    ensures
        blen(s.take(a)) < blen(s.take(b)),
{
    let t = s.take(b);
    lemma_blen_split(t, a);
    assert(t.take(a) =~= s.take(a));
    lemma_blen_pos(t.skip(a));
}

/// The first `n` bytes of `s`, when byte `n` falls on a character boundary.
pub open spec fn byte_prefix(s: Seq<char>, n: nat) -> Seq<char> {
    s.take(choose|k: int| 0 <= k <= s.len() && blen(s.take(k)) == n)
}

/// The last `n` bytes of `s`, when that position falls on a character boundary.
pub open spec fn byte_suffix(s: Seq<char>, n: nat) -> Seq<char> {
    s.skip(s.len() - choose|k: int| 0 <= k <= s.len() && suffix_blen(s, k) == n)
}

/// Byte length of the last `k` characters.
pub open spec fn suffix_blen(s: Seq<char>, k: int) -> nat {
    blen(s.skip(s.len() - k))
}

pub open spec fn has_byte_prefix(s: Seq<char>, n: nat) -> bool {
    exists|k: int| 0 <= k <= s.len() && blen(s.take(k)) == n
}

pub open spec fn has_byte_suffix(s: Seq<char>, n: nat) -> bool {
    exists|k: int| 0 <= k <= s.len() && suffix_blen(s, k) == n
}

pub proof fn lemma_byte_prefix(s: Seq<char>, n: nat, k: int)
    requires
        0 <= k <= s.len(),
        blen(s.take(k)) == n,
    ensures
        byte_prefix(s, n) == s.take(k),
{
    let c = choose|j: int| 0 <= j <= s.len() && blen(s.take(j)) == n;
    if c < k {
        lemma_blen_strict(s, c, k);
    } else if c > k {
        lemma_blen_strict(s, k, c);
    }
}

proof fn lemma_blen_skip_strict(s: Seq<char>, a: int, b: int)
    requires
        0 <= a < b <= s.len(),
    ensures
        blen(s.skip(b)) < blen(s.skip(a)),
{
    let t = s.skip(a);
    lemma_blen_split(t, b - a);
    assert(t.skip(b - a) =~= s.skip(b));
    assert(t.take(b - a).len() > 0);
    lemma_blen_pos(t.take(b - a));
}

pub proof fn lemma_byte_suffix(s: Seq<char>, n: nat, k: int)
    requires
        0 <= k <= s.len(),
        blen(s.skip(s.len() - k)) == n,
    ensures
        byte_suffix(s, n) == s.skip(s.len() - k),
{
    assert(suffix_blen(s, k) == n);
    let c = choose|j: int| 0 <= j <= s.len() && suffix_blen(s, j) == n;
    if c < k {
        lemma_blen_skip_strict(s, s.len() - k, s.len() - c);
    } else if c > k {
        lemma_blen_skip_strict(s, s.len() - c, s.len() - k);
    }
}

/// The masked form of a secret, as provider API keys are masked: the first and
/// last four characters around `...` when it is longer than eight characters,
/// `****` when shorter but not empty, empty otherwise.
pub open spec fn mask_spec(v: Seq<char>) -> Seq<char> {
    if v.len() > 8 {
        v.take(4) + "..."@ + v.skip(v.len() - 4)
    } else if v.len() > 0 {
        "****"@
    } else {
        Seq::empty()
    }
}

/// Masks a secret value for display (see `mask_spec`).
pub fn mask_value(v: &str) -> (r: String)
    ensures
        r@ == mask_spec(v@),
{
    crate::provider::mask_api_key(v)
}

pub open spec fn is_masked_spec(v: Seq<char>) -> bool {
    v == "****"@ || (blen(v) > 7 && contains(v, "..."@))
}

proof fn lemma_blen_at_least_len(s: Seq<char>)
    ensures
        blen(s) >= s.len(),
    decreases s.len(),
{
    if s.len() > 0 {
        lemma_blen_at_least_len(s.drop_last());
        assert(utf8_width(s.last()) >= 1);
    }
}

/// A masked secret is recognized as masked, so saving it back never overwrites
/// the real value.
pub proof fn lemma_mask_recognized(v: Seq<char>)
    requires
        v.len() > 0,
    ensures
        is_masked_spec(mask_spec(v)),
{
    reveal_strlit("...");
    reveal_strlit("****");
    if v.len() > 8 {
        let a = v.take(4);
        let b = v.skip(v.len() - 4);
        let m = a + "..."@ + b;
        lemma_blen_at_least_len(m);
        assert(m.len() == 11);
        assert(m.subrange(4, 7) =~= "..."@);
        assert(crate::text::occurs_at(m, "..."@, 4));
    }
}

/// Whether a value is a masked placeholder (and must not overwrite the real one).
pub fn is_masked_value(v: &str) -> (r: bool)
    ensures
        r == is_masked_spec(v@),
{
    let c = chars_of(v);
    let s = c.as_slice();
    eq_str(s, "****") || (blen_capped(s, 8) > 7 && contains_str(s, "..."))
}

// ───────────────────────────── inline lists ─────────────────────────────

/// The non-empty unquoted items among `pieces` (each trimmed, then unquoted).
pub open spec fn unquoted_items(pieces: Seq<Seq<char>>) -> Seq<Seq<char>>
    decreases pieces.len(),
{
    if pieces.len() == 0 {
        seq![]
    } else {
        let rest = unquoted_items(pieces.drop_last());
        let u = unquote_spec(trim(pieces.last()));
        if u.len() > 0 {
            rest.push(u)
        } else {
            rest
        }
    }
}

pub open spec fn items_ok(pieces: Seq<Seq<char>>) -> bool {
    forall|i: int| 0 <= i < pieces.len() ==> unquote_ok(trim(#[trigger] pieces[i]))
}

/// The text between the brackets of an inline list, if the value is bracketed.
pub open spec fn bracket_inner(s: Seq<char>) -> Option<Seq<char>> {
    let t = trim(s);
    if t.len() >= 2 && t[0] == '[' && t.last() == ']' {
        Some(t.subrange(1, t.len() - 1))
    } else {
        None
    }
}

pub open spec fn inline_list_ok(s: Seq<char>) -> bool {
    match bracket_inner(s) {
        Some(inner) => items_ok(split_char(inner, ',')),
        None => true,
    }
}

/// Items of a YAML inline list `[a, "b"]`; empty when the value is not bracketed.
pub open spec fn inline_list_spec(s: Seq<char>) -> Seq<Seq<char>> {
    match bracket_inner(s) {
        Some(inner) => unquoted_items(split_char(inner, ',')),
        None => seq![],
    }
}

fn collect_items(pieces: &Vec<Vec<char>>) -> (r: Vec<String>)
    requires
        items_ok(seqs_of(pieces@)),
    ensures
        strs_of(r@) == unquoted_items(seqs_of(pieces@)),
{
    let mut out: Vec<String> = Vec::new();
    let mut i: usize = 0;
    while i < pieces.len()
        invariant
            i <= pieces@.len(),
            items_ok(seqs_of(pieces@)),
            strs_of(out@) == unquoted_items(seqs_of(pieces@).take(i as int)),
        decreases pieces@.len() - i,
    {
        let ghost ps = seqs_of(pieces@);
        assert(ps.take(i + 1).drop_last() =~= ps.take(i as int));
        assert(ps[i as int] == pieces@[i as int]@);
        let t = trim_exec(pieces[i].as_slice());
        assert(unquote_ok(trim(ps[i as int])));
        let u = unquote_chars(t.as_slice());
        if !u.as_str().is_empty() {
            let ghost before = strs_of(out@);
            out.push(u);
            assert(strs_of(out@) =~= before.push(u@));
        }
        i += 1;
    }
    assert(seqs_of(pieces@).take(pieces@.len() as int) =~= seqs_of(pieces@));
    out
}

/// Inner text of a bracketed value.
fn bracket_inner_exec(s: &[char]) -> (r: Option<Vec<char>>)
    ensures
        r matches Some(v) ==> bracket_inner(s@) == Some(v@),
        r is None <==> bracket_inner(s@) is None,
{
    let t = trim_exec(s);
    let n = t.len();
    if n >= 2 && t[0] == '[' && t[n - 1] == ']' {
        Some(slice_of(t.as_slice(), 1, n - 1))
    } else {
        None
    }
}

/// Parses a YAML inline list like `[git, gh]` or `["git", "gh"]`.
pub fn parse_yaml_inline_list(s: &str) -> (r: Vec<String>)
    requires
        inline_list_ok(s@),
    ensures
        strs_of(r@) == inline_list_spec(s@),
{
    let v = chars_of(s);
    parse_yaml_inline_list_chars(v.as_slice())
}

pub fn parse_yaml_inline_list_chars(s: &[char]) -> (r: Vec<String>)
    requires
        inline_list_ok(s@),
    ensures
        strs_of(r@) == inline_list_spec(s@),
{
    match bracket_inner_exec(s) {
        Some(inner) => {
            let pieces = split_char_exec(inner.as_slice(), ',');
            collect_items(&pieces)
        },
        None => Vec::new(),
    }
}

pub open spec fn inline_array_spec(s: Seq<char>) -> Option<Seq<Seq<char>>> {
    match bracket_inner(s) {
        Some(inner) => {
            let items = unquoted_items(split_char(inner, ','));
            if items.len() == 0 {
                None
            } else {
                Some(items)
            }
        },
        None => None,
    }
}

/// Parses an inline array `[opt1, opt2, "opt 3"]`; `None` when the value is not
/// bracketed or holds no non-empty item.
pub fn parse_inline_string_array(s: &str) -> (r: Option<Vec<String>>)
    requires
        inline_list_ok(s@),
    ensures
        r matches Some(v) ==> inline_array_spec(s@) == Some(strs_of(v@)),
        r is None <==> inline_array_spec(s@) is None,
{
    let v = chars_of(s);
    parse_inline_string_array_chars(v.as_slice())
}

pub fn parse_inline_string_array_chars(s: &[char]) -> (r: Option<Vec<String>>)
    requires
        inline_list_ok(s@),
    ensures
        r matches Some(v) ==> inline_array_spec(s@) == Some(strs_of(v@)),
        r is None <==> inline_array_spec(s@) is None,
{
    match bracket_inner_exec(s) {
        Some(inner) => {
            let pieces = split_char_exec(inner.as_slice(), ',');
            let items = collect_items(&pieces);
            if items.len() == 0 {
                None
            } else {
                Some(items)
            }
        },
        None => None,
    }
}


// ───────────────────────────── indentation ─────────────────────────────

/// Bytes of leading whitespace (`line.len() - line.trim_start().len()`).
pub open spec fn indent(line: Seq<char>) -> nat {
    blen(line.take(crate::text::lead_ws(line) as int))
}

/// `min(indent(line), 4)`: enough to tell 0, 1, 2–3 and 4-or-more apart.
pub fn indent_capped(line: &[char]) -> (r: usize)
    ensures
        r == if indent(line@) < 4 { indent(line@) } else { 4 },
{
    let k = crate::text::lead_ws_exec(line);
    proof {
        crate::text::lemma_lead_ws_bound(line@);
    }
    let pre = slice_of(line, 0, k);
    assert(pre@ == line@.take(k as int));
    blen_capped(pre.as_slice(), 4)
}

// ───────────────────────────── requirements ─────────────────────────────

/// Environment requirements from the `requires:` block of a SKILL.md frontmatter.
#[derive(Debug, Clone)]
pub struct SkillRequires {
    /// Binaries that must all be in PATH.
    pub bins: Vec<String>,
    /// Binaries of which at least one must be in PATH.
    pub any_bins: Vec<String>,
    /// Environment variables that must be set.
    pub env: Vec<String>,
    /// Supported OS identifiers; empty means all.
    pub os: Vec<String>,
    /// Config paths that must be truthy.
    pub config: Vec<String>,
    /// Skip all checks: always eligible.
    pub always: bool,
    /// Env var that the skill's configured API key can satisfy.
    pub primary_env: Option<String>,
}

/// The contents of a `SkillRequires`.
pub struct RequiresView {
    pub bins: Seq<Seq<char>>,
    pub any_bins: Seq<Seq<char>>,
    pub env: Seq<Seq<char>>,
    pub os: Seq<Seq<char>>,
    pub config: Seq<Seq<char>>,
    pub always: bool,
    pub primary_env: Option<Seq<char>>,
}

impl View for SkillRequires {
    type V = RequiresView;

    open spec fn view(&self) -> RequiresView {
        RequiresView {
            bins: strs_of(self.bins@),
            any_bins: strs_of(self.any_bins@),
            env: strs_of(self.env@),
            os: strs_of(self.os@),
            config: strs_of(self.config@),
            always: self.always,
            primary_env: self.primary_env.deep_view(),
        }
    }
}

pub open spec fn empty_requires() -> RequiresView {
    RequiresView {
        bins: seq![],
        any_bins: seq![],
        env: seq![],
        os: seq![],
        config: seq![],
        always: false,
        primary_env: None,
    }
}

impl Default for SkillRequires {
    fn default() -> (r: Self)
        ensures
            r@ == empty_requires(),
    {
        let r = SkillRequires {
            bins: Vec::new(),
            any_bins: Vec::new(),
            env: Vec::new(),
            os: Vec::new(),
            config: Vec::new(),
            always: false,
            primary_env: None,
        };
        assert(r@.bins =~= Seq::<Seq<char>>::empty());
        assert(r@.any_bins =~= Seq::<Seq<char>>::empty());
        assert(r@.env =~= Seq::<Seq<char>>::empty());
        assert(r@.os =~= Seq::<Seq<char>>::empty());
        assert(r@.config =~= Seq::<Seq<char>>::empty());
        r
    }
}

/// Items appended to the list that `key` names (`bins`, `anyBins`/`any_bins`,
/// `env`, `os`, `config`); other keys leave the requirements unchanged.
pub open spec fn push_items_spec(r: RequiresView, key: Seq<char>, items: Seq<Seq<char>>) -> RequiresView {
    if key == "bins"@ {
        RequiresView { bins: r.bins + items, ..r }
    } else if key == "anyBins"@ || key == "any_bins"@ {
        RequiresView { any_bins: r.any_bins + items, ..r }
    } else if key == "env"@ {
        RequiresView { env: r.env + items, ..r }
    } else if key == "os"@ {
        RequiresView { os: r.os + items, ..r }
    } else if key == "config"@ {
        RequiresView { config: r.config + items, ..r }
    } else {
        r
    }
}

/// Appends `items` to the requirement list that `key` names.
pub fn push_requires_items(req: &mut SkillRequires, key: &str, items: Vec<String>)
    ensures
        final(req)@ == push_items_spec(old(req)@, key@, strs_of(items@)),
{
    let k = chars_of(key);
    push_requires_items_chars(req, k.as_slice(), items)
}

pub fn push_requires_items_chars(req: &mut SkillRequires, key: &[char], items: Vec<String>)
    ensures
        final(req)@ == push_items_spec(old(req)@, key@, strs_of(items@)),
{
    if eq_str(key, "bins") {
        push_all(&mut req.bins, items);
    } else if eq_str(key, "anyBins") || eq_str(key, "any_bins") {
        push_all(&mut req.any_bins, items);
    } else if eq_str(key, "env") {
        push_all(&mut req.env, items);
    } else if eq_str(key, "os") {
        push_all(&mut req.os, items);
    } else if eq_str(key, "config") {
        push_all(&mut req.config, items);
    }
}

/// State of the `requires:` scan after some lines.
pub struct ReqFold {
    pub req: RequiresView,
    pub in_req: bool,
    pub key: Seq<char>,
}

pub open spec fn req_init() -> ReqFold {
    ReqFold { req: empty_requires(), in_req: false, key: seq![] }
}

/// A blank or comment line (skipped by the block scanners).
pub open spec fn is_blank_or_comment(line: Seq<char>) -> bool {
    trim(line).len() == 0 || starts_with(trim(line), "#"@)
}

/// One line of the `requires:` block scan: a root-level line opens or closes the
/// block; inside it, a sub-key line (indent 2–3) sets the current key and may carry
/// an inline list, and a deeper `- item` line adds one item to the current key.
#[verifier::opaque]
pub open spec fn req_line(st: ReqFold, line: Seq<char>) -> ReqFold {
    let t = trim(line);
    let ind = indent(line);
    if is_blank_or_comment(line) {
        st
    } else if ind == 0 {
        ReqFold { in_req: starts_with(t, "requires:"@), key: seq![], ..st }
    } else if !st.in_req {
        st
    } else if 2 <= ind && ind < 4 {
        match crate::text::split_once(t, ':') {
            Some(kv) => {
                let k = trim(kv.0);
                let v = trim(kv.1);
                ReqFold {
                    key: k,
                    req: if v.len() > 0 {
                        push_items_spec(st.req, k, inline_list_spec(v))
                    } else {
                        st.req
                    },
                    ..st
                }
            },
            None => st,
        }
    } else if ind >= 4 {
        match crate::text::strip_prefix(t, "- "@) {
            Some(item) => {
                let u = unquote_spec(trim(item));
                if u.len() > 0 {
                    ReqFold { req: push_items_spec(st.req, st.key, seq![u]), ..st }
                } else {
                    st
                }
            },
            None => st,
        }
    } else {
        st
    }
}

/// The values that a line of the `requires:` scan unquotes are not lone quotes.
#[verifier::opaque]
pub open spec fn req_line_ok(st: ReqFold, line: Seq<char>) -> bool {
    let t = trim(line);
    let ind = indent(line);
    if is_blank_or_comment(line) || ind == 0 || !st.in_req {
        true
    } else if 2 <= ind && ind < 4 {
        match crate::text::split_once(t, ':') {
            Some(kv) => trim(kv.1).len() == 0 || inline_list_ok(trim(kv.1)),
            None => true,
        }
    } else if ind >= 4 {
        match crate::text::strip_prefix(t, "- "@) {
            Some(item) => unquote_ok(trim(item)),
            None => true,
        }
    } else {
        true
    }
}

pub open spec fn req_fold(ls: Seq<Seq<char>>) -> ReqFold
    decreases ls.len(),
{
    if ls.len() == 0 {
        req_init()
    } else {
        req_line(req_fold(ls.drop_last()), ls.last())
    }
}

/// The value after `a` or, failing that, after `b`.
pub open spec fn strip_either(t: Seq<char>, a: Seq<char>, b: Seq<char>) -> Option<Seq<char>> {
    match crate::text::strip_prefix(t, a) {
        Some(r) => Some(r),
        None => crate::text::strip_prefix(t, b),
    }
}

/// One root-level line of the second pass: `always:` and `primaryEnv:`/`primary_env:`.
#[verifier::opaque]
pub open spec fn root_line(r: RequiresView, line: Seq<char>) -> RequiresView {
    let t = trim(line);
    if indent(line) != 0 {
        r
    } else {
        match crate::text::strip_prefix(t, "always:"@) {
            Some(rest) => match parse_bool_spec(trim(rest)) {
                Some(v) => RequiresView { always: v, ..r },
                None => r,
            },
            None => match strip_either(t, "primaryEnv:"@, "primary_env:"@) {
                Some(rest) => {
                    let v = unquote_spec(trim(rest));
                    if v.len() > 0 {
                        RequiresView { primary_env: Some(v), ..r }
                    } else {
                        r
                    }
                },
                None => r,
            },
        }
    }
}

#[verifier::opaque]
pub open spec fn root_line_ok(line: Seq<char>) -> bool {
    let t = trim(line);
    if indent(line) != 0 {
        true
    } else {
        match crate::text::strip_prefix(t, "always:"@) {
            Some(rest) => unquote_ok(trim(rest)),
            None => match strip_either(t, "primaryEnv:"@, "primary_env:"@) {
                Some(rest) => unquote_ok(trim(rest)),
                None => true,
            },
        }
    }
}

pub open spec fn root_fold(r: RequiresView, ls: Seq<Seq<char>>) -> RequiresView
    decreases ls.len(),
{
    if ls.len() == 0 {
        r
    } else {
        root_line(root_fold(r, ls.drop_last()), ls.last())
    }
}

/// The requirements a YAML block declares: the `requires:` block scan, then the
/// root-level `always:` and `primaryEnv:` keys.
pub open spec fn requires_spec(yaml: Seq<char>) -> RequiresView {
    let ls = lines(yaml);
    root_fold(req_fold(ls).req, ls)
}

pub open spec fn requires_ok(yaml: Seq<char>) -> bool {
    let ls = lines(yaml);
    forall|i: int|
        0 <= i < ls.len() ==> req_line_ok(req_fold(ls.take(i)), #[trigger] ls[i]) && root_line_ok(
            ls[i],
        )
}

/// `strip_prefix(a)` or else `strip_prefix(b)`.
fn strip_either_exec(t: &[char], a: &str, b: &str) -> (r: Option<Vec<char>>)
    ensures
        r matches Some(v) ==> strip_either(t@, a@, b@) == Some(v@),
        r is None <==> strip_either(t@, a@, b@) is None,
{
    match crate::text::strip_prefix_str(t, a) {
        Some(v) => Some(v),
        None => crate::text::strip_prefix_str(t, b),
    }
}

/// Parses the `requires:` block (inline `[a, b]` lists and `- item` lists) and
/// the root-level `always:` / `primaryEnv:` keys of a YAML frontmatter block.
pub fn parse_requires(yaml_block: &str) -> (r: SkillRequires)
    requires
        requires_ok(yaml_block@),
    ensures
        r@ == requires_spec(yaml_block@),
{
    let y = chars_of(yaml_block);
    parse_requires_chars(y.as_slice())
}

fn req_step(req: &mut SkillRequires, in_req: &mut bool, key: &mut Vec<char>, line: &[char])
    requires
        req_line_ok(ReqFold { req: old(req)@, in_req: *old(in_req), key: old(key)@ }, line@),
    ensures
        (ReqFold { req: final(req)@, in_req: *final(in_req), key: final(key)@ }) == req_line(
            ReqFold { req: old(req)@, in_req: *old(in_req), key: old(key)@ },
            line@,
        ),
{
    reveal(req_line);
    reveal(req_line_ok);
    let t = trim_exec(line);
    let ts = t.as_slice();
    if t.len() == 0 || starts_with_str(ts, "#") {
        return;
    }
    let ind = indent_capped(line);
    if ind == 0 {
        *in_req = starts_with_str(ts, "requires:");
        *key = Vec::new();
        proof {
            assert(key@ =~= Seq::<char>::empty());
        }
        return;
    }
    if !*in_req {
        return;
    }
    if ind >= 2 && ind < 4 {
        match crate::text::split_once_exec(ts, ':') {
            Some(kv) => {
                let k = trim_exec(kv.0.as_slice());
                let v = trim_exec(kv.1.as_slice());
                if v.len() > 0 {
                    let items = parse_yaml_inline_list_chars(v.as_slice());
                    push_requires_items_chars(req, k.as_slice(), items);
                }
                *key = k;
            },
            None => {},
        }
    } else if ind >= 4 {
        match crate::text::strip_prefix_str(ts, "- ") {
            Some(item) => {
                let it = trim_exec(item.as_slice());
                let u = unquote_chars(it.as_slice());
                if !u.as_str().is_empty() {
                    let mut one: Vec<String> = Vec::new();
                    one.push(u);
                    assert(strs_of(one@) =~= seq![u@]);
                    push_requires_items_chars(req, key.as_slice(), one);
                }
            },
            None => {},
        }
    }
}

fn root_step(req: &mut SkillRequires, line: &[char])
    requires
        root_line_ok(line@),
    ensures
        final(req)@ == root_line(old(req)@, line@),
{
    reveal(root_line);
    reveal(root_line_ok);
    if indent_capped(line) == 0 {
        let t = trim_exec(line);
        let ts = t.as_slice();
        match crate::text::strip_prefix_str(ts, "always:") {
            Some(rest) => {
                let rt = trim_exec(rest.as_slice());
                let rs = string_of(rt.as_slice());
                match parse_bool_value(rs.as_str()) {
                    Some(v) => {
                        req.always = v;
                    },
                    None => {},
                }
            },
            None => match strip_either_exec(ts, "primaryEnv:", "primary_env:") {
                Some(rest) => {
                    let rt = trim_exec(rest.as_slice());
                    let v = unquote_chars(rt.as_slice());
                    if !v.as_str().is_empty() {
                        req.primary_env = Some(v);
                    }
                },
                None => {},
            },
        }
    }
}

#[verifier::spinoff_prover]
#[verifier::rlimit(50)]
pub fn parse_requires_chars(yaml: &[char]) -> (r: SkillRequires)
    requires
        requires_ok(yaml@),
    ensures
        r@ == requires_spec(yaml@),
{
    let ls = lines_exec(yaml);
    let ghost lsv = seqs_of(ls@);
    let mut req = SkillRequires::default();
    let mut in_req = false;
    let mut key: Vec<char> = Vec::new();
    let mut i: usize = 0;
    assert(key@ =~= Seq::<char>::empty());
    while i < ls.len()
        invariant
            i <= ls@.len(),
            lsv == seqs_of(ls@),
            lsv == lines(yaml@),
            requires_ok(yaml@),
            (ReqFold { req: req@, in_req: in_req, key: key@ }) == req_fold(lsv.take(i as int)),
        decreases ls@.len() - i,
    {
        assert(lsv.take(i + 1).drop_last() =~= lsv.take(i as int));
        assert(lsv[i as int] == ls@[i as int]@);
        assert(req_line_ok(req_fold(lsv.take(i as int)), lsv[i as int]));
        req_step(&mut req, &mut in_req, &mut key, ls[i].as_slice());
        i += 1;
    }
    assert(lsv.take(ls@.len() as int) =~= lsv);
    let ghost base = req@;
    let mut j: usize = 0;
    while j < ls.len()
        invariant
            j <= ls@.len(),
            lsv == seqs_of(ls@),
            lsv == lines(yaml@),
            requires_ok(yaml@),
            req@ == root_fold(base, lsv.take(j as int)),
        decreases ls@.len() - j,
    {
        assert(lsv.take(j + 1).drop_last() =~= lsv.take(j as int));
        assert(lsv[j as int] == ls@[j as int]@);
        assert(root_line_ok(lsv[j as int]));
        root_step(&mut req, ls[j].as_slice());
        j += 1;
    }
    assert(lsv.take(ls@.len() as int) =~= lsv);
    req
}

// ───────────────────────────── install specs ─────────────────────────────

/// How a skill dependency is installed.
#[derive(Debug, Clone)]
pub struct SkillInstallSpec {
    /// Install method: brew, node, go, uv or download.
    pub kind: String,
    /// Brew formula name.
    pub formula: Option<String>,
    /// npm/uv package name.
    pub package: Option<String>,
    /// Go module path.
    pub go_module: Option<String>,
    /// Binaries to verify after installation.
    pub bins: Vec<String>,
    /// Label of the install action.
    pub label: Option<String>,
    /// OS constraints for this install method.
    pub os: Vec<String>,
}

pub struct InstallView {
    pub kind: Seq<char>,
    pub formula: Option<Seq<char>>,
    pub package: Option<Seq<char>>,
    pub go_module: Option<Seq<char>>,
    pub bins: Seq<Seq<char>>,
    pub label: Option<Seq<char>>,
    pub os: Seq<Seq<char>>,
}

impl View for SkillInstallSpec {
    type V = InstallView;

    open spec fn view(&self) -> InstallView {
        InstallView {
            kind: self.kind@,
            formula: self.formula.deep_view(),
            package: self.package.deep_view(),
            go_module: self.go_module.deep_view(),
            bins: strs_of(self.bins@),
            label: self.label.deep_view(),
            os: strs_of(self.os@),
        }
    }
}

/// The views of a sequence of install specs.
pub open spec fn installs_of(v: Seq<SkillInstallSpec>) -> Seq<InstallView> {
    Seq::new(v.len(), |i: int| v[i]@)
}

/// An install spec under construction.
pub struct InstallSpecBuilder {
    pub kind: Option<String>,
    pub formula: Option<String>,
    pub package: Option<String>,
    pub go_module: Option<String>,
    pub bins: Vec<String>,
    pub label: Option<String>,
    pub os: Vec<String>,
}

pub struct BuilderView {
    pub kind: Option<Seq<char>>,
    pub formula: Option<Seq<char>>,
    pub package: Option<Seq<char>>,
    pub go_module: Option<Seq<char>>,
    pub bins: Seq<Seq<char>>,
    pub label: Option<Seq<char>>,
    pub os: Seq<Seq<char>>,
}

impl View for InstallSpecBuilder {
    type V = BuilderView;

    open spec fn view(&self) -> BuilderView {
        BuilderView {
            kind: self.kind.deep_view(),
            formula: self.formula.deep_view(),
            package: self.package.deep_view(),
            go_module: self.go_module.deep_view(),
            bins: strs_of(self.bins@),
            label: self.label.deep_view(),
            os: strs_of(self.os@),
        }
    }
}

pub open spec fn empty_builder() -> BuilderView {
    BuilderView {
        kind: None,
        formula: None,
        package: None,
        go_module: None,
        bins: seq![],
        label: None,
        os: seq![],
    }
}

impl Default for InstallSpecBuilder {
    fn default() -> (r: Self)
        ensures
            r@ == empty_builder(),
    {
        let r = InstallSpecBuilder {
            kind: None,
            formula: None,
            package: None,
            go_module: None,
            bins: Vec::new(),
            label: None,
            os: Vec::new(),
        };
        assert(r@.bins =~= Seq::<Seq<char>>::empty());
        assert(r@.os =~= Seq::<Seq<char>>::empty());
        r
    }
}

/// `key: val` applied to a builder (the value unquoted; `bins`/`os` as inline lists).
pub open spec fn set_spec(b: BuilderView, key: Seq<char>, val: Seq<char>) -> BuilderView {
    let u = unquote_spec(val);
    if key == "kind"@ {
        BuilderView { kind: Some(u), ..b }
    } else if key == "formula"@ {
        BuilderView { formula: Some(u), ..b }
    } else if key == "package"@ {
        BuilderView { package: Some(u), ..b }
    } else if key == "module"@ {
        BuilderView { go_module: Some(u), ..b }
    } else if key == "label"@ {
        BuilderView { label: Some(u), ..b }
    } else if key == "bins"@ {
        BuilderView { bins: inline_list_spec(u), ..b }
    } else if key == "os"@ {
        BuilderView { os: inline_list_spec(u), ..b }
    } else {
        b
    }
}

pub open spec fn set_ok(key: Seq<char>, val: Seq<char>) -> bool {
    unquote_ok(val) && ((key == "bins"@ || key == "os"@) ==> inline_list_ok(unquote_spec(val)))
}

pub open spec fn valid_install_kind(k: Seq<char>) -> bool {
    k == "brew"@ || k == "node"@ || k == "go"@ || k == "uv"@ || k == "download"@
}

/// A finished spec: needs a kind among brew, node, go, uv, download.
pub open spec fn build_spec(b: BuilderView) -> Option<InstallView> {
    match b.kind {
        Some(k) => if valid_install_kind(k) {
            Some(
                InstallView {
                    kind: k,
                    formula: b.formula,
                    package: b.package,
                    go_module: b.go_module,
                    bins: b.bins,
                    label: b.label,
                    os: b.os,
                },
            )
        } else {
            None
        },
        None => None,
    }
}

impl InstallSpecBuilder {
    /// Applies one `key: val` line to the builder.
    pub fn set(&mut self, key: &str, val: &str)
        requires
            set_ok(key@, val@),
        ensures
            final(self)@ == set_spec(old(self)@, key@, val@),
    {
        let k = chars_of(key);
        let v = chars_of(val);
        self.set_chars(k.as_slice(), v.as_slice())
    }

    pub fn set_chars(&mut self, key: &[char], val: &[char])
        requires
            set_ok(key@, val@),
        ensures
            final(self)@ == set_spec(old(self)@, key@, val@),
    {
        let u = unquote_chars(val);
        if eq_str(key, "kind") {
            self.kind = Some(u);
        } else if eq_str(key, "formula") {
            self.formula = Some(u);
        } else if eq_str(key, "package") {
            self.package = Some(u);
        } else if eq_str(key, "module") {
            self.go_module = Some(u);
        } else if eq_str(key, "label") {
            self.label = Some(u);
        } else if eq_str(key, "bins") {
            self.bins = parse_yaml_inline_list(u.as_str());
        } else if eq_str(key, "os") {
            self.os = parse_yaml_inline_list(u.as_str());
        }
    }

    /// The finished spec, when the kind is present and valid.
    pub fn build(self) -> (r: Option<SkillInstallSpec>)
        ensures
            r matches Some(sp) ==> build_spec(self@) == Some(sp@),
            r is None <==> build_spec(self@) is None,
    {
        match self.kind {
            Some(kind) => {
                let kc = chars_of(kind.as_str());
                let ks = kc.as_slice();
                if eq_str(ks, "brew") || eq_str(ks, "node") || eq_str(ks, "go") || eq_str(ks, "uv")
                    || eq_str(ks, "download") {
                    Some(
                        SkillInstallSpec {
                            kind,
                            formula: self.formula,
                            package: self.package,
                            go_module: self.go_module,
                            bins: self.bins,
                            label: self.label,
                            os: self.os,
                        },
                    )
                } else {
                    None
                }
            },
            None => None,
        }
    }
}

/// State of the `install:` block scan.
pub struct InstallFold {
    pub specs: Seq<InstallView>,
    pub in_install: bool,
    pub cur: Option<BuilderView>,
}

pub open spec fn flush_spec(specs: Seq<InstallView>, cur: Option<BuilderView>) -> Seq<InstallView> {
    match cur {
        Some(b) => match build_spec(b) {
            Some(sp) => specs.push(sp),
            None => specs,
        },
        None => specs,
    }
}

/// One line of the `install:` scan: `install:` opens the block, another root key
/// closes it; `- key: val` at indent 2 starts a new spec, deeper `key: val` lines
/// continue the current one; a finished spec is kept when its kind is valid.
#[verifier::opaque]
pub open spec fn install_line(st: InstallFold, line: Seq<char>) -> InstallFold {
    let t = trim(line);
    let ind = indent(line);
    if is_blank_or_comment(line) {
        st
    } else if ind == 0 {
        if t == "install:"@ {
            InstallFold { specs: flush_spec(st.specs, st.cur), in_install: true, cur: None }
        } else if st.in_install {
            InstallFold { specs: flush_spec(st.specs, st.cur), in_install: false, cur: None }
        } else {
            InstallFold { in_install: false, ..st }
        }
    } else if !st.in_install {
        st
    } else if ind == 2 && starts_with(t, "- "@) {
        let rest = t.skip(2);
        let b = match crate::text::split_once(rest, ':') {
            Some(kv) => set_spec(empty_builder(), trim(kv.0), trim(kv.1)),
            None => empty_builder(),
        };
        InstallFold { specs: flush_spec(st.specs, st.cur), cur: Some(b), ..st }
    } else if ind >= 4 {
        match st.cur {
            Some(b) => match crate::text::split_once(t, ':') {
                Some(kv) => InstallFold { cur: Some(set_spec(b, trim(kv.0), trim(kv.1))), ..st },
                None => st,
            },
            None => st,
        }
    } else {
        st
    }
}

#[verifier::opaque]
pub open spec fn install_line_ok(st: InstallFold, line: Seq<char>) -> bool {
    let t = trim(line);
    let ind = indent(line);
    if is_blank_or_comment(line) || ind == 0 || !st.in_install {
        true
    } else if ind == 2 && starts_with(t, "- "@) {
        match crate::text::split_once(t.skip(2), ':') {
            Some(kv) => set_ok(trim(kv.0), trim(kv.1)),
            None => true,
        }
    } else if ind >= 4 && st.cur is Some {
        match crate::text::split_once(t, ':') {
            Some(kv) => set_ok(trim(kv.0), trim(kv.1)),
            None => true,
        }
    } else {
        true
    }
}

pub open spec fn install_fold(ls: Seq<Seq<char>>) -> InstallFold
    decreases ls.len(),
{
    if ls.len() == 0 {
        InstallFold { specs: seq![], in_install: false, cur: None }
    } else {
        install_line(install_fold(ls.drop_last()), ls.last())
    }
}

/// The install specs a YAML block declares, in order.
pub open spec fn install_specs_spec(yaml: Seq<char>) -> Seq<InstallView> {
    let f = install_fold(lines(yaml));
    flush_spec(f.specs, f.cur)
}

pub open spec fn install_ok(yaml: Seq<char>) -> bool {
    let ls = lines(yaml);
    forall|i: int| 0 <= i < ls.len() ==> install_line_ok(install_fold(ls.take(i)), #[trigger] ls[i])
}

fn flush(specs: &mut Vec<SkillInstallSpec>, cur: Option<InstallSpecBuilder>)
    ensures
        installs_of(final(specs)@) == flush_spec(
            installs_of(old(specs)@),
            match cur {
                Some(b) => Some(b@),
                None => None,
            },
        ),
{
    match cur {
        Some(b) => match b.build() {
            Some(sp) => {
                let ghost before = installs_of(specs@);
                specs.push(sp);
                assert(installs_of(specs@) =~= before.push(sp@));
            },
            None => {},
        },
        None => {},
    }
}

pub open spec fn opt_builder(o: Option<InstallSpecBuilder>) -> Option<BuilderView> {
    match o {
        Some(b) => Some(b@),
        None => None,
    }
}

/// Parses the `install:` block of a YAML frontmatter block.
pub fn parse_install_specs(yaml_block: &str) -> (r: Vec<SkillInstallSpec>)
    requires
        install_ok(yaml_block@),
    ensures
        installs_of(r@) == install_specs_spec(yaml_block@),
{
    let y = chars_of(yaml_block);
    parse_install_specs_chars(y.as_slice())
}

fn install_step(
    specs: &mut Vec<SkillInstallSpec>,
    in_install: &mut bool,
    cur: &mut Option<InstallSpecBuilder>,
    line: &[char],
)
    requires
        install_line_ok(
            InstallFold {
                specs: installs_of(old(specs)@),
                in_install: *old(in_install),
                cur: opt_builder(*old(cur)),
            },
            line@,
        ),
    ensures
        (InstallFold {
            specs: installs_of(final(specs)@),
            in_install: *final(in_install),
            cur: opt_builder(*final(cur)),
        }) == install_line(
            InstallFold {
                specs: installs_of(old(specs)@),
                in_install: *old(in_install),
                cur: opt_builder(*old(cur)),
            },
            line@,
        ),
{
    reveal(install_line);
    reveal(install_line_ok);
    let t = trim_exec(line);
    let ts = t.as_slice();
    if t.len() == 0 || starts_with_str(ts, "#") {
        return;
    }
    let ind = indent_capped(line);
    if ind == 0 {
        if eq_str(ts, "install:") {
            let c = cur.take();
            flush(specs, c);
            *in_install = true;
        } else {
            if *in_install {
                let c = cur.take();
                flush(specs, c);
            }
            *in_install = false;
        }
        return;
    }
    if !*in_install {
        return;
    }
    if ind == 2 && starts_with_str(ts, "- ") {
        proof {
            reveal_strlit("- ");
        }
        let c = cur.take();
        flush(specs, c);
        let rest = slice_of(ts, 2, ts.len());
        assert(rest@ == trim(line@).skip(2));
        let mut b = InstallSpecBuilder::default();
        match crate::text::split_once_exec(rest.as_slice(), ':') {
            Some(kv) => {
                let k = trim_exec(kv.0.as_slice());
                let v = trim_exec(kv.1.as_slice());
                b.set_chars(k.as_slice(), v.as_slice());
            },
            None => {},
        }
        *cur = Some(b);
    } else if ind >= 4 {
        let c = cur.take();
        match c {
            Some(mut b) => {
                match crate::text::split_once_exec(ts, ':') {
                    Some(kv) => {
                        let k = trim_exec(kv.0.as_slice());
                        let v = trim_exec(kv.1.as_slice());
                        b.set_chars(k.as_slice(), v.as_slice());
                    },
                    None => {},
                }
                *cur = Some(b);
            },
            None => {},
        }
    }
}

#[verifier::spinoff_prover]
#[verifier::rlimit(50)]
pub fn parse_install_specs_chars(yaml: &[char]) -> (r: Vec<SkillInstallSpec>)
    requires
        install_ok(yaml@),
    ensures
        installs_of(r@) == install_specs_spec(yaml@),
{
    let ls = lines_exec(yaml);
    let ghost lsv = seqs_of(ls@);
    let mut specs: Vec<SkillInstallSpec> = Vec::new();
    let mut in_install = false;
    let mut cur: Option<InstallSpecBuilder> = None;
    let mut i: usize = 0;
    assert(installs_of(specs@) =~= Seq::<InstallView>::empty());
    while i < ls.len()
        invariant
            i <= ls@.len(),
            lsv == seqs_of(ls@),
            lsv == lines(yaml@),
            install_ok(yaml@),
            (InstallFold { specs: installs_of(specs@), in_install: in_install, cur: opt_builder(cur) })
                == install_fold(lsv.take(i as int)),
        decreases ls@.len() - i,
    {
        assert(lsv.take(i + 1).drop_last() =~= lsv.take(i as int));
        assert(lsv[i as int] == ls@[i as int]@);
        assert(install_line_ok(install_fold(lsv.take(i as int)), lsv[i as int]));
        install_step(&mut specs, &mut in_install, &mut cur, ls[i].as_slice());
        i += 1;
    }
    assert(lsv.take(ls@.len() as int) =~= lsv);
    flush(&mut specs, cur);
    specs
}


// ───────────────────────────── frontmatter ─────────────────────────────

/// A SKILL.md frontmatter with all its recognized fields.
pub struct ParsedFrontmatter {
    pub name: String,
    pub description: String,
    pub requires: SkillRequires,
    pub body: String,
    pub skill_key: Option<String>,
    pub user_invocable: Option<bool>,
    pub disable_model_invocation: Option<bool>,
    pub command_dispatch: Option<String>,
    pub command_tool: Option<String>,
    pub command_arg_mode: Option<String>,
    pub command_arg_placeholder: Option<String>,
    pub command_arg_options: Option<Vec<String>>,
    pub command_prompt_template: Option<String>,
    pub install: Vec<SkillInstallSpec>,
    pub allowed_tools: Vec<String>,
    pub context_mode: Option<String>,
}

/// Root-level scalar fields gathered from the frontmatter lines.
pub struct FmFields {
    pub name: Option<Seq<char>>,
    pub description: Option<Seq<char>>,
    pub skill_key: Option<Seq<char>>,
    pub user_invocable: Option<bool>,
    pub disable_model_invocation: Option<bool>,
    pub command_dispatch: Option<Seq<char>>,
    pub command_tool: Option<Seq<char>>,
    pub command_arg_mode: Option<Seq<char>>,
    pub command_arg_placeholder: Option<Seq<char>>,
    pub command_arg_options: Option<Seq<Seq<char>>>,
    pub command_prompt_template: Option<Seq<char>>,
    pub allowed_tools: Seq<Seq<char>>,
    pub context_mode: Option<Seq<char>>,
}

pub open spec fn fm_init() -> FmFields {
    FmFields {
        name: None,
        description: None,
        skill_key: None,
        user_invocable: None,
        disable_model_invocation: None,
        command_dispatch: None,
        command_tool: None,
        command_arg_mode: None,
        command_arg_placeholder: None,
        command_arg_options: None,
        command_prompt_template: None,
        allowed_tools: seq![],
        context_mode: None,
    }
}

pub open spec fn sp(t: Seq<char>, p: &str) -> Option<Seq<char>> {
    crate::text::strip_prefix(t, p@)
}

pub open spec fn sp2(t: Seq<char>, a: &str, b: &str) -> Option<Seq<char>> {
    strip_either(t, a@, b@)
}

/// One line of the frontmatter: a root-level `key: value` line sets its field
/// (a later line overrides an earlier one); indented lines are ignored.
#[verifier::opaque]
pub open spec fn fm_line(f: FmFields, line: Seq<char>) -> FmFields {
    let t = trim(line);
    if indent(line) > 0 {
        f
    } else if let Some(rest) = sp(t, "name:") {
        FmFields { name: Some(unquote_spec(trim(rest))), ..f }
    } else if let Some(rest) = sp(t, "description:") {
        FmFields { description: Some(unquote_spec(trim(rest))), ..f }
    } else if let Some(rest) = sp2(t, "skillKey:", "skill_key:") {
        FmFields { skill_key: Some(unquote_spec(trim(rest))), ..f }
    } else if let Some(rest) = sp2(t, "user-invocable:", "user_invocable:") {
        FmFields { user_invocable: parse_bool_spec(trim(rest)), ..f }
    } else if let Some(rest) = sp2(t, "disable-model-invocation:", "disable_model_invocation:") {
        FmFields { disable_model_invocation: parse_bool_spec(trim(rest)), ..f }
    } else if let Some(rest) = sp2(t, "command-dispatch:", "command_dispatch:") {
        FmFields { command_dispatch: Some(unquote_spec(trim(rest))), ..f }
    } else if let Some(rest) = sp2(t, "command-tool:", "command_tool:") {
        FmFields { command_tool: Some(unquote_spec(trim(rest))), ..f }
    } else if let Some(rest) = sp2(t, "command-arg-mode:", "command_arg_mode:") {
        FmFields { command_arg_mode: Some(unquote_spec(trim(rest))), ..f }
    } else if let Some(rest) = sp2(t, "command-arg-placeholder:", "command_arg_placeholder:") {
        FmFields { command_arg_placeholder: Some(unquote_spec(trim(rest))), ..f }
    } else if let Some(rest) = sp2(t, "command-arg-options:", "command_arg_options:") {
        FmFields { command_arg_options: inline_array_spec(trim(rest)), ..f }
    } else if let Some(rest) = sp2(t, "command-prompt-template:", "command_prompt_template:") {
        let v = unquote_spec(trim(rest));
        if v.len() > 0 {
            FmFields { command_prompt_template: Some(v), ..f }
        } else {
            f
        }
    } else if let Some(rest) = sp2(t, "allowed-tools:", "allowed_tools:") {
        match inline_array_spec(trim(rest)) {
            Some(arr) => FmFields { allowed_tools: arr, ..f },
            None => f,
        }
    } else if let Some(rest) = sp(t, "context:") {
        let v = unquote_spec(trim(rest));
        if v.len() > 0 {
            FmFields { context_mode: Some(v), ..f }
        } else {
            f
        }
    } else {
        f
    }
}

/// The values a frontmatter line unquotes are not lone quotes.
#[verifier::opaque]
pub open spec fn fm_line_ok(line: Seq<char>) -> bool {
    let t = trim(line);
    if indent(line) > 0 {
        true
    } else if let Some(rest) = sp(t, "name:") {
        unquote_ok(trim(rest))
    } else if let Some(rest) = sp(t, "description:") {
        unquote_ok(trim(rest))
    } else if let Some(rest) = sp2(t, "skillKey:", "skill_key:") {
        unquote_ok(trim(rest))
    } else if let Some(rest) = sp2(t, "user-invocable:", "user_invocable:") {
        unquote_ok(trim(rest))
    } else if let Some(rest) = sp2(t, "disable-model-invocation:", "disable_model_invocation:") {
        unquote_ok(trim(rest))
    } else if let Some(rest) = sp2(t, "command-dispatch:", "command_dispatch:") {
        unquote_ok(trim(rest))
    } else if let Some(rest) = sp2(t, "command-tool:", "command_tool:") {
        unquote_ok(trim(rest))
    } else if let Some(rest) = sp2(t, "command-arg-mode:", "command_arg_mode:") {
        unquote_ok(trim(rest))
    } else if let Some(rest) = sp2(t, "command-arg-placeholder:", "command_arg_placeholder:") {
        unquote_ok(trim(rest))
    } else if let Some(rest) = sp2(t, "command-arg-options:", "command_arg_options:") {
        inline_list_ok(trim(rest))
    } else if let Some(rest) = sp2(t, "command-prompt-template:", "command_prompt_template:") {
        unquote_ok(trim(rest))
    } else if let Some(rest) = sp2(t, "allowed-tools:", "allowed_tools:") {
        inline_list_ok(trim(rest))
    } else if let Some(rest) = sp(t, "context:") {
        unquote_ok(trim(rest))
    } else {
        true
    }
}

pub open spec fn fm_fold(ls: Seq<Seq<char>>) -> FmFields
    decreases ls.len(),
{
    if ls.len() == 0 {
        fm_init()
    } else {
        fm_line(fm_fold(ls.drop_last()), ls.last())
    }
}

/// The YAML block and the body of a document that opens with `---` (after
/// leading whitespace) and has a later line starting with `---`.
pub open spec fn fm_split(content: Seq<char>) -> Option<(Seq<char>, Seq<char>)> {
    let tr = crate::text::trim_start(content);
    if !starts_with(tr, "---"@) {
        None
    } else {
        let after = tr.skip(3);
        match crate::text::find(after, "\n---"@) {
            Some(e) => Some((after.take(e), after.skip(e + 4))),
            None => None,
        }
    }
}

pub open spec fn frontmatter_ok(content: Seq<char>) -> bool {
    match fm_split(content) {
        Some(parts) => {
            let yaml = parts.0;
            &&& requires_ok(yaml)
            &&& install_ok(yaml)
            &&& forall|i: int| 0 <= i < lines(yaml).len() ==> fm_line_ok(#[trigger] lines(yaml)[i])
        },
        None => true,
    }
}

pub struct FrontmatterView {
    pub name: Seq<char>,
    pub description: Seq<char>,
    pub requires: RequiresView,
    pub body: Seq<char>,
    pub skill_key: Option<Seq<char>>,
    pub user_invocable: Option<bool>,
    pub disable_model_invocation: Option<bool>,
    pub command_dispatch: Option<Seq<char>>,
    pub command_tool: Option<Seq<char>>,
    pub command_arg_mode: Option<Seq<char>>,
    pub command_arg_placeholder: Option<Seq<char>>,
    pub command_arg_options: Option<Seq<Seq<char>>>,
    pub command_prompt_template: Option<Seq<char>>,
    pub install: Seq<InstallView>,
    pub allowed_tools: Seq<Seq<char>>,
    pub context_mode: Option<Seq<char>>,
}

pub open spec fn opt_strs(o: Option<Vec<String>>) -> Option<Seq<Seq<char>>> {
    match o {
        Some(v) => Some(strs_of(v@)),
        None => None,
    }
}

impl View for ParsedFrontmatter {
    type V = FrontmatterView;

    open spec fn view(&self) -> FrontmatterView {
        FrontmatterView {
            name: self.name@,
            description: self.description@,
            requires: self.requires@,
            body: self.body@,
            skill_key: self.skill_key.deep_view(),
            user_invocable: self.user_invocable,
            disable_model_invocation: self.disable_model_invocation,
            command_dispatch: self.command_dispatch.deep_view(),
            command_tool: self.command_tool.deep_view(),
            command_arg_mode: self.command_arg_mode.deep_view(),
            command_arg_placeholder: self.command_arg_placeholder.deep_view(),
            command_arg_options: opt_strs(self.command_arg_options),
            command_prompt_template: self.command_prompt_template.deep_view(),
            install: installs_of(self.install@),
            allowed_tools: strs_of(self.allowed_tools@),
            context_mode: self.context_mode.deep_view(),
        }
    }
}

/// The parsed frontmatter: present when the document has a frontmatter block
/// with a non-empty `name`; the description defaults to empty; with
/// `command-dispatch: prompt` and no template, the trimmed body (if not empty)
/// becomes the template.
pub open spec fn frontmatter_spec(content: Seq<char>) -> Option<FrontmatterView> {
    match fm_split(content) {
        Some(parts) => {
            let yaml = parts.0;
            let body = parts.1;
            let f = fm_fold(lines(yaml));
            match f.name {
                Some(name) => if name.len() == 0 {
                    None
                } else {
                    let bt = trim(body);
                    let template = if f.command_dispatch == Some("prompt"@)
                        && f.command_prompt_template is None && bt.len() > 0 {
                        Some(bt)
                    } else {
                        f.command_prompt_template
                    };
                    Some(
                        FrontmatterView {
                            name: name,
                            description: match f.description {
                                Some(d) => d,
                                None => seq![],
                            },
                            requires: requires_spec(yaml),
                            body: body,
                            skill_key: f.skill_key,
                            user_invocable: f.user_invocable,
                            disable_model_invocation: f.disable_model_invocation,
                            command_dispatch: f.command_dispatch,
                            command_tool: f.command_tool,
                            command_arg_mode: f.command_arg_mode,
                            command_arg_placeholder: f.command_arg_placeholder,
                            command_arg_options: f.command_arg_options,
                            command_prompt_template: template,
                            install: install_specs_spec(yaml),
                            allowed_tools: f.allowed_tools,
                            context_mode: f.context_mode,
                        },
                    )
                },
                None => None,
            }
        },
        None => None,
    }
}

/// A frontmatter line that, once trimmed, begins with the prompt-template key.
pub open spec fn declares_template(line: Seq<char>) -> bool {
    starts_with(trim(line), "command-prompt-template:"@) || starts_with(
        trim(line),
        "command_prompt_template:"@,
    )
}

proof fn lemma_fold_template(ls: Seq<Seq<char>>)
    ensures
        fm_fold(ls).command_prompt_template matches Some(t) ==> t.len() > 0,
        (forall|i: int| 0 <= i < ls.len() ==> !declares_template(#[trigger] ls[i]))
            ==> fm_fold(ls).command_prompt_template is None,
    decreases ls.len(),
{
    if ls.len() > 0 {
        let p = ls.drop_last();
        lemma_fold_template(p);
        reveal(fm_line);
        if forall|i: int| 0 <= i < ls.len() ==> !declares_template(#[trigger] ls[i]) {
            assert forall|i: int| 0 <= i < p.len() implies !declares_template(#[trigger] p[i]) by {
                assert(p[i] == ls[i]);
            }
            assert(!declares_template(ls[ls.len() - 1]));
        }
    }
}

/// What a parsed skill looks like: its name is never empty; a prompt
/// template, when present, is never empty; and a skill dispatched as a prompt
/// (`command-dispatch: prompt`) whose body has text always has a template.
/// When no frontmatter line declares a template, that template is the
/// trimmed body.
pub proof fn lemma_parsed_skill_shape(content: Seq<char>)
    ensures
        frontmatter_spec(content) matches Some(v) ==> v.name.len() > 0,
        frontmatter_spec(content) matches Some(v) ==> (v.command_prompt_template matches Some(t)
            ==> t.len() > 0),
        frontmatter_spec(content) matches Some(v) ==> (v.command_dispatch == Some("prompt"@)
            && trim(v.body).len() > 0 ==> v.command_prompt_template is Some),
        frontmatter_spec(content) matches Some(v) ==> (fm_split(content) matches Some(parts) && (
        v.body == parts.1)),
        frontmatter_spec(content) matches Some(v) ==> (fm_split(content) matches Some(parts) && (
        (forall|i: int| 0 <= i < lines(parts.0).len() ==> !declares_template(#[trigger] lines(parts.0)[i]))
            && v.command_dispatch == Some("prompt"@) && trim(v.body).len() > 0
            ==> v.command_prompt_template == Some(trim(v.body)))),
{
    match fm_split(content) {
        Some(parts) => {
            lemma_fold_template(lines(parts.0));
        },
        None => {},
    }
}

/// A pattern whose first character occurs nowhere else in it, placed after
/// text that does not contain it, is first found right after that text.
proof fn lemma_find_after_clean_prefix(y: Seq<char>, d: Seq<char>, rest: Seq<char>)
    requires
        d.len() > 0,
        !crate::text::contains(y, d),
        forall|i: int| 0 < i < d.len() ==> #[trigger] d[i] != d[0],
    ensures
        crate::text::find(y + d + rest, d) == Some(y.len() as int),
{
    let after = y + d + rest;
    let n = y.len() as int;
    assert(after.subrange(n, n + d.len()) =~= d);
    assert(crate::text::occurs_at(after, d, n));
    assert forall|p: int| #[trigger] crate::text::occurs_at(after, d, p) implies p >= n by {
        if p < n {
            let w = after.subrange(p, p + d.len());
            if p + d.len() <= n {
                assert(y.subrange(p, p + d.len()) =~= w);
                assert(crate::text::occurs_at(y, d, p));
            } else {
                assert(w[n - p] == after[n]);
                assert(after[n] == d[0]);
            }
        }
    }
}

/// The frontmatter block of `---<y>\n---<body>` is `y` and the body is
/// `body`, whenever `y` itself holds no line starting with `---` (no `\n---`).
#[verifier::spinoff_prover]
#[verifier::rlimit(50)]
pub proof fn lemma_frontmatter_split(y: Seq<char>, body: Seq<char>)
    requires
        !crate::text::contains(y, seq!['\n', '-', '-', '-']),
    ensures
        fm_split(seq!['-', '-', '-'] + y + seq!['\n', '-', '-', '-'] + body) == Some((y, body)),
{
    let c = seq!['-', '-', '-'] + y + seq!['\n', '-', '-', '-'] + body;
    let d = seq!['\n', '-', '-', '-'];
    assert(crate::text::trim_start(c) == c) by {
        assert(c[0] == '-');
        assert(!crate::text::is_ws('-'));
        assert(crate::text::lead_ws(c) == 0);
        assert(c.skip(0) =~= c);
    }
    assert(starts_with(c, "---"@)) by {
        reveal_strlit("---");
        assert(c.take(3) =~= "---"@);
    }
    let after = c.skip(3);
    assert(after =~= y + d + body);
    assert("\n---"@ == d) by {
        reveal_strlit("\n---");
        assert("\n---"@ =~= d);
    }
    assert forall|i: int| 0 < i < d.len() implies #[trigger] d[i] != d[0] by {}
    lemma_find_after_clean_prefix(y, d, body);
    assert(after.take(y.len() as int) =~= y);
    assert(after.skip(y.len() + 4int) =~= body);
}

/// Every field of a parsed skill comes from its frontmatter block: the name
/// (non-empty, else nothing is parsed) and the other keys from the block's
/// root lines, the description defaulting to empty, the requirements and
/// install specs from the block, the body from what follows it; only a
/// prompt-dispatched skill without a template takes its trimmed body as one.
pub proof fn lemma_parsed_fields(content: Seq<char>)
    ensures
        frontmatter_spec(content) is None <==> (match fm_split(content) {
            Some(parts) => match fm_fold(lines(parts.0)).name {
                Some(n) => n.len() == 0,
                None => true,
            },
            None => true,
        }),
        frontmatter_spec(content) matches Some(v) ==> (fm_split(content) matches Some(parts) && ({
            let f = fm_fold(lines(parts.0));
            &&& Some(v.name) == f.name
            &&& v.description == (match f.description {
                Some(d) => d,
                None => seq![],
            })
            &&& v.requires == requires_spec(parts.0)
            &&& v.install == install_specs_spec(parts.0)
            &&& v.body == parts.1
            &&& v.skill_key == f.skill_key
            &&& v.user_invocable == f.user_invocable
            &&& v.disable_model_invocation == f.disable_model_invocation
            &&& v.command_dispatch == f.command_dispatch
            &&& v.command_tool == f.command_tool
            &&& v.command_arg_mode == f.command_arg_mode
            &&& v.command_arg_placeholder == f.command_arg_placeholder
            &&& v.command_arg_options == f.command_arg_options
            &&& v.allowed_tools == f.allowed_tools
            &&& v.context_mode == f.context_mode
            &&& (f.command_prompt_template is Some ==> v.command_prompt_template == f.command_prompt_template)
            &&& (v.command_dispatch != Some("prompt"@) ==> v.command_prompt_template == f.command_prompt_template)
        })),
{
}

/// The mutable field set of the frontmatter scan.
pub struct FmState {
    pub name: Option<String>,
    pub description: Option<String>,
    pub skill_key: Option<String>,
    pub user_invocable: Option<bool>,
    pub disable_model_invocation: Option<bool>,
    pub command_dispatch: Option<String>,
    pub command_tool: Option<String>,
    pub command_arg_mode: Option<String>,
    pub command_arg_placeholder: Option<String>,
    pub command_arg_options: Option<Vec<String>>,
    pub command_prompt_template: Option<String>,
    pub allowed_tools: Vec<String>,
    pub context_mode: Option<String>,
}

impl View for FmState {
    type V = FmFields;

    open spec fn view(&self) -> FmFields {
        FmFields {
            name: self.name.deep_view(),
            description: self.description.deep_view(),
            skill_key: self.skill_key.deep_view(),
            user_invocable: self.user_invocable,
            disable_model_invocation: self.disable_model_invocation,
            command_dispatch: self.command_dispatch.deep_view(),
            command_tool: self.command_tool.deep_view(),
            command_arg_mode: self.command_arg_mode.deep_view(),
            command_arg_placeholder: self.command_arg_placeholder.deep_view(),
            command_arg_options: opt_strs(self.command_arg_options),
            command_prompt_template: self.command_prompt_template.deep_view(),
            allowed_tools: strs_of(self.allowed_tools@),
            context_mode: self.context_mode.deep_view(),
        }
    }
}

fn trimmed_unquote(rest: &Vec<char>) -> (r: String)
    requires
        unquote_ok(trim(rest@)),
    ensures
        r@ == unquote_spec(trim(rest@)),
{
    let t = trim_exec(rest.as_slice());
    unquote_chars(t.as_slice())
}

fn trimmed_bool(rest: &Vec<char>) -> (r: Option<bool>)
    requires
        unquote_ok(trim(rest@)),
    ensures
        r == parse_bool_spec(trim(rest@)),
{
    let t = trim_exec(rest.as_slice());
    let ts = string_of(t.as_slice());
    parse_bool_value(ts.as_str())
}

fn trimmed_array(rest: &Vec<char>) -> (r: Option<Vec<String>>)
    requires
        inline_list_ok(trim(rest@)),
    ensures
        opt_strs(r) == inline_array_spec(trim(rest@)),
{
    let t = trim_exec(rest.as_slice());
    parse_inline_string_array_chars(t.as_slice())
}

fn fm_step(st: &mut FmState, line: &[char])
    requires
        fm_line_ok(line@),
    ensures
        final(st)@ == fm_line(old(st)@, line@),
{
    reveal(fm_line);
    reveal(fm_line_ok);
    if indent_capped(line) > 0 {
        return;
    }
    let t = trim_exec(line);
    let ts = t.as_slice();
    if let Some(rest) = crate::text::strip_prefix_str(ts, "name:") {
        st.name = Some(trimmed_unquote(&rest));
    } else if let Some(rest) = crate::text::strip_prefix_str(ts, "description:") {
        st.description = Some(trimmed_unquote(&rest));
    } else if let Some(rest) = strip_either_exec(ts, "skillKey:", "skill_key:") {
        st.skill_key = Some(trimmed_unquote(&rest));
    } else if let Some(rest) = strip_either_exec(ts, "user-invocable:", "user_invocable:") {
        st.user_invocable = trimmed_bool(&rest);
    } else if let Some(rest) = strip_either_exec(
        ts,
        "disable-model-invocation:",
        "disable_model_invocation:",
    ) {
        st.disable_model_invocation = trimmed_bool(&rest);
    } else if let Some(rest) = strip_either_exec(ts, "command-dispatch:", "command_dispatch:") {
        st.command_dispatch = Some(trimmed_unquote(&rest));
    } else if let Some(rest) = strip_either_exec(ts, "command-tool:", "command_tool:") {
        st.command_tool = Some(trimmed_unquote(&rest));
    } else if let Some(rest) = strip_either_exec(ts, "command-arg-mode:", "command_arg_mode:") {
        st.command_arg_mode = Some(trimmed_unquote(&rest));
    } else if let Some(rest) = strip_either_exec(
        ts,
        "command-arg-placeholder:",
        "command_arg_placeholder:",
    ) {
        st.command_arg_placeholder = Some(trimmed_unquote(&rest));
    } else if let Some(rest) = strip_either_exec(ts, "command-arg-options:", "command_arg_options:") {
        st.command_arg_options = trimmed_array(&rest);
    } else if let Some(rest) = strip_either_exec(
        ts,
        "command-prompt-template:",
        "command_prompt_template:",
    ) {
        let v = trimmed_unquote(&rest);
        if !v.as_str().is_empty() {
            st.command_prompt_template = Some(v);
        }
    } else if let Some(rest) = strip_either_exec(ts, "allowed-tools:", "allowed_tools:") {
        if let Some(arr) = trimmed_array(&rest) {
            st.allowed_tools = arr;
        }
    } else if let Some(rest) = crate::text::strip_prefix_str(ts, "context:") {
        let v = trimmed_unquote(&rest);
        if !v.as_str().is_empty() {
            st.context_mode = Some(v);
        }
    }
}

/// Splits a document into its frontmatter YAML block and body.
pub fn split_frontmatter(content: &[char]) -> (r: Option<(Vec<char>, Vec<char>)>)
    ensures
        r matches Some(p) ==> fm_split(content@) == Some((p.0@, p.1@)),
        r is None <==> fm_split(content@) is None,
{
    let tr = crate::text::trim_start_exec(content);
    let trs = tr.as_slice();
    if !starts_with_str(trs, "---") {
        return None;
    }
    proof {
        reveal_strlit("---");
        reveal_strlit("\n---");
    }
    let after = slice_of(trs, 3, trs.len());
    assert(after@ == tr@.skip(3));
    let sep = chars_of("\n---");
    let end_idx = match crate::text::find_exec(after.as_slice(), sep.as_slice()) {
        Some(e) => e,
        None => {
            return None;
        },
    };
    let yaml = slice_of(after.as_slice(), 0, end_idx);
    let body = slice_of(after.as_slice(), end_idx + 4, after.len());
    assert(yaml@ == after@.take(end_idx as int));
    assert(body@ == after@.skip(end_idx + 4));
    Some((yaml, body))
}

/// Scans the root-level fields of a frontmatter YAML block.
pub fn frontmatter_fields(yaml: &[char]) -> (r: FmState)
    requires
        forall|k: int| 0 <= k < lines(yaml@).len() ==> fm_line_ok(#[trigger] lines(yaml@)[k]),
    ensures
        r@ == fm_fold(lines(yaml@)),
{
    let ls = lines_exec(yaml);
    let ghost lsv = seqs_of(ls@);
    let mut st = FmState {
        name: None,
        description: None,
        skill_key: None,
        user_invocable: None,
        disable_model_invocation: None,
        command_dispatch: None,
        command_tool: None,
        command_arg_mode: None,
        command_arg_placeholder: None,
        command_arg_options: None,
        command_prompt_template: None,
        allowed_tools: Vec::new(),
        context_mode: None,
    };
    assert(st@.allowed_tools =~= Seq::<Seq<char>>::empty());
    assert(st@ == fm_init());
    let mut i: usize = 0;
    while i < ls.len()
        invariant
            i <= ls@.len(),
            lsv == seqs_of(ls@),
            lsv == lines(yaml@),
            forall|k: int| 0 <= k < lines(yaml@).len() ==> fm_line_ok(#[trigger] lines(yaml@)[k]),
            st@ == fm_fold(lsv.take(i as int)),
        decreases ls@.len() - i,
    {
        assert(lsv.take(i + 1).drop_last() =~= lsv.take(i as int));
        assert(lsv[i as int] == ls@[i as int]@);
        assert(fm_line_ok(lines(yaml@)[i as int]));
        fm_step(&mut st, ls[i].as_slice());
        i += 1;
    }
    assert(lsv.take(ls@.len() as int) =~= lsv);
    st
}

/// Extracts the YAML frontmatter of a SKILL.md document.
pub fn parse_frontmatter(content: &str) -> (r: Option<ParsedFrontmatter>)
    requires
        frontmatter_ok(content@),
    ensures
        r matches Some(p) ==> frontmatter_spec(content@) == Some(p@),
        r is None <==> frontmatter_spec(content@) is None,
{
    let c = chars_of(content);
    let (yaml, body) = match split_frontmatter(c.as_slice()) {
        Some(p) => p,
        None => {
            return None;
        },
    };
    let reqs = parse_requires_chars(yaml.as_slice());
    let install = parse_install_specs_chars(yaml.as_slice());
    let st = frontmatter_fields(yaml.as_slice());
    let name = match st.name {
        Some(n) => {
            if n.as_str().is_empty() {
                return None;
            }
            n
        },
        None => {
            return None;
        },
    };
    let description = match st.description {
        Some(d) => d,
        None => String::new(),
    };
    let mut template = st.command_prompt_template;
    let is_prompt = match &st.command_dispatch {
        Some(d) => crate::text::str_eq(d.as_str(), "prompt"),
        None => false,
    };
    if is_prompt && template.is_none() {
        let bt = trim_exec(body.as_slice());
        if bt.len() > 0 {
            template = Some(string_of(bt.as_slice()));
        }
    }
    let body_s = string_of(body.as_slice());
    let r = ParsedFrontmatter {
        name,
        description,
        requires: reqs,
        body: body_s,
        skill_key: st.skill_key,
        user_invocable: st.user_invocable,
        disable_model_invocation: st.disable_model_invocation,
        command_dispatch: st.command_dispatch,
        command_tool: st.command_tool,
        command_arg_mode: st.command_arg_mode,
        command_arg_placeholder: st.command_arg_placeholder,
        command_arg_options: st.command_arg_options,
        command_prompt_template: template,
        install,
        allowed_tools: st.allowed_tools,
        context_mode: st.context_mode,
    };
    Some(r)
}


// ───────────────────────────── slash-command names ─────────────────────────────

pub open spec fn is_ascii_alnum(c: char) -> bool {
    ('a' <= c && c <= 'z') || ('A' <= c && c <= 'Z') || ('0' <= c && c <= '9')
}

/// Each character kept when ASCII alphanumeric, else replaced by `_`.
pub open spec fn cmd_chars(l: Seq<char>) -> Seq<char> {
    Seq::new(l.len(), |i: int| if is_ascii_alnum(l[i]) { l[i] } else { '_' })
}

/// Underscore runs collapsed to one, leading underscores dropped; the flag tells
/// whether the last character seen was an underscore (start counts as one).
pub open spec fn collapse(m: Seq<char>) -> (Seq<char>, bool)
    decreases m.len(),
{
    if m.len() == 0 {
        (seq![], true)
    } else {
        let (r, prev) = collapse(m.drop_last());
        let c = m.last();
        if c == '_' {
            if !prev {
                (r.push(c), true)
            } else {
                (r, true)
            }
        } else {
            (r.push(c), false)
        }
    }
}

pub open spec fn strip_trailing_us(r: Seq<char>) -> Seq<char>
    decreases r.len(),
{
    if r.len() > 0 && r.last() == '_' {
        strip_trailing_us(r.drop_last())
    } else {
        r
    }
}

/// The slash-command name of a skill: lowercased, non-alphanumerics turned into
/// `_`, underscore runs collapsed, underscores trimmed at both ends, cut to 32
/// characters, and `skill` when nothing is left.
pub open spec fn command_name_spec(name: Seq<char>) -> Seq<char> {
    let r = strip_trailing_us(collapse(cmd_chars(lowercase(name))).0);
    let r2 = if r.len() > 32 {
        r.take(32)
    } else {
        r
    };
    if r2.len() == 0 {
        "skill"@
    } else {
        r2
    }
}

fn is_ascii_alnum_exec(c: char) -> (r: bool)
    ensures
        r == is_ascii_alnum(c),
{
    ('a' <= c && c <= 'z') || ('A' <= c && c <= 'Z') || ('0' <= c && c <= '9')
}

/// A character a slash-command name may hold: `a`–`z`, `0`–`9` or `_`.
pub open spec fn command_char(c: char) -> bool {
    ('a' <= c && c <= 'z') || ('0' <= c && c <= '9') || c == '_'
}

/// Normalizes a skill name into a slash-command name: lowercase ASCII letters,
/// digits and underscores only.
pub fn normalize_skill_command_name(name: &str) -> (r: String)
    ensures
        r@ == command_name_spec(name@),
        r@.len() <= 32,
        r@.len() > 0,
        forall|i: int| 0 <= i < r@.len() ==> command_char(#[trigger] r@[i]),
{
    let lower = to_lowercase(name);
    let l = chars_of(lower.as_str());
    let mut m: Vec<char> = Vec::new();
    let mut i: usize = 0;
    while i < l.len()
        invariant
            i <= l@.len(),
            m@ == cmd_chars(l@).take(i as int),
        decreases l@.len() - i,
    {
        let c = l[i];
        let d = if is_ascii_alnum_exec(c) {
            c
        } else {
            '_'
        };
        assert(cmd_chars(l@).take(i + 1) =~= cmd_chars(l@).take(i as int).push(d));
        m.push(d);
        i += 1;
    }
    assert(cmd_chars(l@).take(l@.len() as int) =~= cmd_chars(l@));
    let mut res: Vec<char> = Vec::new();
    let mut prev = true;
    let mut j: usize = 0;
    while j < m.len()
        invariant
            j <= m@.len(),
            (res@, prev) == collapse(m@.take(j as int)),
            forall|k: int| 0 <= k < m@.len() ==> command_char(#[trigger] m@[k]),
            forall|k: int| 0 <= k < res@.len() ==> command_char(#[trigger] res@[k]),
        decreases m@.len() - j,
    {
        assert(m@.take(j + 1).drop_last() =~= m@.take(j as int));
        let c = m[j];
        if c == '_' {
            if !prev {
                res.push(c);
            }
            prev = true;
        } else {
            res.push(c);
            prev = false;
        }
        j += 1;
    }
    assert(m@.take(m@.len() as int) =~= m@);
    let ghost collapsed = res@;
    while res.len() > 0 && res[res.len() - 1] == '_'
        invariant
            strip_trailing_us(res@) == strip_trailing_us(collapsed),
            forall|k: int| 0 <= k < res@.len() ==> command_char(#[trigger] res@[k]),
        decreases res@.len(),
    {
        res.pop();
    }
    if res.len() > 32 {
        res.truncate(32);
    }
    if res.len() == 0 {
        proof {
            reveal_strlit("skill");
        }
        "skill".to_string()
    } else {
        string_of(res.as_slice())
    }
}

// ───────────────────────────── skill entries ─────────────────────────────

/// A parsed skill.
#[derive(Debug, Clone)]
pub struct SkillEntry {
    /// Identifier (frontmatter `name`).
    pub name: String,
    /// Description (frontmatter `description`).
    pub description: String,
    /// Source category: bundled, managed, project or an extra directory label.
    pub source: String,
    /// Path of the SKILL.md file.
    pub file_path: String,
    /// Directory holding the skill.
    pub base_dir: String,
    pub requires: SkillRequires,
    /// Config lookup key overriding the name.
    pub skill_key: Option<String>,
    /// Whether users may invoke it as a /command (default yes).
    pub user_invocable: Option<bool>,
    /// When true the skill is hidden from the model's catalog.
    pub disable_model_invocation: Option<bool>,
    pub command_dispatch: Option<String>,
    pub command_tool: Option<String>,
    pub command_arg_mode: Option<String>,
    pub command_arg_placeholder: Option<String>,
    pub command_arg_options: Option<Vec<String>>,
    pub command_prompt_template: Option<String>,
    pub install: Vec<SkillInstallSpec>,
    /// Only these tools are available while the skill runs (when non-empty).
    pub allowed_tools: Vec<String>,
    /// `fork` runs the skill in a sub-agent, `inline` in the main conversation.
    pub context_mode: Option<String>,
}

/// Lightweight summary for the frontend.
#[derive(Debug, Clone)]
pub struct SkillSummary {
    pub name: String,
    pub description: String,
    pub source: String,
    pub base_dir: String,
    pub enabled: bool,
    pub requires_env: Vec<String>,
    pub skill_key: Option<String>,
    pub user_invocable: Option<bool>,
    pub disable_model_invocation: Option<bool>,
    pub has_install: bool,
    pub any_bins: Vec<String>,
    pub always: bool,
    pub allowed_tools: Vec<String>,
    pub context_mode: Option<String>,
}

/// A file inside a skill directory.
#[derive(Debug, Clone)]
pub struct FileInfo {
    pub name: String,
    pub size: u64,
    pub is_dir: bool,
}

/// Full skill content for the detail view.
#[derive(Debug, Clone)]
pub struct SkillDetail {
    pub name: String,
    pub description: String,
    pub source: String,
    pub file_path: String,
    pub base_dir: String,
    pub content: String,
    pub enabled: bool,
    pub files: Vec<FileInfo>,
    pub requires: SkillRequires,
    pub skill_key: Option<String>,
    pub user_invocable: Option<bool>,
    pub disable_model_invocation: Option<bool>,
    pub command_dispatch: Option<String>,
    pub command_tool: Option<String>,
    pub install: Vec<SkillInstallSpec>,
    pub allowed_tools: Vec<String>,
    pub context_mode: Option<String>,
}

/// Health status of a skill.
#[derive(Debug, Clone)]
pub struct SkillStatusEntry {
    pub name: String,
    pub source: String,
    pub eligible: bool,
    pub disabled: bool,
    pub blocked_by_allowlist: bool,
    pub missing_bins: Vec<String>,
    pub missing_any_bins: Vec<String>,
    pub missing_env: Vec<String>,
    pub missing_config: Vec<String>,
    pub has_install: bool,
    pub always: bool,
}

/// Missing requirements found by a detailed check.
#[derive(Debug, Clone)]
pub struct RequirementsDetail {
    pub eligible: bool,
    pub missing_bins: Vec<String>,
    pub missing_any_bins: Vec<String>,
    pub missing_env: Vec<String>,
    pub missing_config: Vec<String>,
}

/// What the environment answers for one skill's requirements: the running OS,
/// and for each listed binary / env var whether it was found.
#[derive(Debug, Clone)]
pub struct RequirementFacts {
    /// `std::env::consts::OS` (`macos`, `linux`, `windows`, ...).
    pub current_os: String,
    /// For each of `requires.bins`, whether it is in PATH.
    pub bins_found: Vec<bool>,
    /// For each of `requires.any_bins`, whether it is in PATH.
    pub any_bins_found: Vec<bool>,
    /// For each of `requires.env`, whether the user configured a non-empty value.
    pub env_configured: Vec<bool>,
    /// Whether the skill's `__apiKey__` is configured with a non-empty value.
    pub api_key_configured: bool,
    /// For each of `requires.env`, whether the process environment has it non-empty.
    pub env_in_system: Vec<bool>,
}

/// A configured key has a non-empty value (configured values are given as
/// key/value pairs with distinct keys).
pub open spec fn configured_nonempty(pairs: Seq<(String, String)>, k: Seq<char>) -> bool {
    exists|i: int| 0 <= i < pairs.len() && pairs[i].0@ == k && pairs[i].1@.len() > 0
}

fn configured_nonempty_exec(pairs: &Vec<(String, String)>, k: &str) -> (r: bool)
    ensures
        r == configured_nonempty(pairs@, k@),
{
    let mut i: usize = 0;
    while i < pairs.len()
        invariant
            i <= pairs@.len(),
            forall|j: int| 0 <= j < i ==> !(pairs@[j].0@ == k@ && pairs@[j].1@.len() > 0),
        decreases pairs@.len() - i,
    {
        let (key, val) = (&pairs[i].0, &pairs[i].1);
        if crate::text::str_eq(key.as_str(), k) && chars_of(val.as_str()).len() > 0 {
            return true;
        }
        i += 1;
    }
    false
}

/// The requirement facts for `req`, from what the environment answered: the OS,
/// which bins and any-bins were found, the skill's configured values (the API
/// key under `__apiKey__`), and which env vars the process environment has.
pub fn requirement_facts(
    req: &SkillRequires,
    current_os: String,
    bins_found: Vec<bool>,
    any_bins_found: Vec<bool>,
    configured: &Vec<(String, String)>,
    env_in_system: Vec<bool>,
) -> (r: RequirementFacts)
    requires
        bins_found@.len() == req.bins@.len(),
        any_bins_found@.len() == req.any_bins@.len(),
        env_in_system@.len() == req.env@.len(),
    ensures
        facts_fit(req@, r),
        r.current_os == current_os,
        r.bins_found == bins_found,
        r.any_bins_found == any_bins_found,
        r.env_in_system == env_in_system,
        r.api_key_configured == configured_nonempty(configured@, "__apiKey__"@),
        forall|i: int| 0 <= i < req.env@.len() ==> #[trigger] r.env_configured@[i] == configured_nonempty(
            configured@,
            req.env@[i]@,
        ),
{
    let mut flags: Vec<bool> = Vec::new();
    let mut i: usize = 0;
    while i < req.env.len()
        invariant
            i <= req.env@.len(),
            flags@.len() == i,
            forall|j: int| 0 <= j < i ==> #[trigger] flags@[j] == configured_nonempty(configured@, req.env@[j]@),
        decreases req.env@.len() - i,
    {
        flags.push(configured_nonempty_exec(configured, req.env[i].as_str()));
        i += 1;
    }
    let api = configured_nonempty_exec(configured, "__apiKey__");
    RequirementFacts {
        current_os,
        bins_found,
        any_bins_found,
        env_configured: flags,
        api_key_configured: api,
        env_in_system,
    }
}

pub open spec fn facts_fit(req: RequiresView, f: RequirementFacts) -> bool {
    &&& f.bins_found@.len() == req.bins.len()
    &&& f.any_bins_found@.len() == req.any_bins.len()
    &&& f.env_configured@.len() == req.env.len()
    &&& f.env_in_system@.len() == req.env.len()
}

/// An OS entry matches the running OS (`darwin` and `mac` mean `macos`).
pub open spec fn os_entry_matches(os: Seq<char>, current: Seq<char>) -> bool {
    os == current || (os == "darwin"@ && current == "macos"@) || (os == "mac"@ && current == "macos"@)
}

pub open spec fn os_ok(req: RequiresView, current: Seq<char>) -> bool {
    req.os.len() == 0 || exists|i: int| 0 <= i < req.os.len() && os_entry_matches(#[trigger] req.os[i], current)
}

/// An env requirement is met by a configured value, by the configured API key when
/// it is the primary env var, or by the process environment.
pub open spec fn env_met(req: RequiresView, f: RequirementFacts, i: int) -> bool {
    f.env_configured@[i] || (req.primary_env == Some(req.env[i]) && f.api_key_configured)
        || f.env_in_system@[i]
}

/// Requirements are met: `always`, or OS, all bins, one of the any-bins (when
/// listed) and every env var are satisfied.
pub open spec fn requirements_met(req: RequiresView, f: RequirementFacts) -> bool {
    req.always || (os_ok(req, f.current_os@) && (forall|i: int|
        0 <= i < req.bins.len() ==> #[trigger] f.bins_found@[i]) && (req.any_bins.len() == 0
        || exists|i: int| 0 <= i < req.any_bins.len() && #[trigger] f.any_bins_found@[i]) && (
    forall|i: int| 0 <= i < req.env.len() ==> #[trigger] env_met(req, f, i)))
}

/// The entries of `items` whose flag is false, in order.
pub open spec fn missing(items: Seq<Seq<char>>, found: Seq<bool>) -> Seq<Seq<char>>
    decreases items.len(),
{
    if items.len() == 0 {
        seq![]
    } else {
        let rest = missing(items.drop_last(), found.take(found.len() - 1));
        if found.last() {
            rest
        } else {
            rest.push(items.last())
        }
    }
}

pub open spec fn env_flags(req: RequiresView, f: RequirementFacts) -> Seq<bool> {
    Seq::new(req.env.len(), |i: int| env_met(req, f, i))
}

pub open spec fn any_bins_missing(req: RequiresView, f: RequirementFacts) -> bool {
    req.any_bins.len() > 0 && forall|i: int| 0 <= i < req.any_bins.len() ==> !#[trigger] f.any_bins_found@[i]
}

/// The OS list alone: with `always` unset and no binary, any-binary or env
/// requirements, a skill is eligible exactly when it lists no OS, lists the
/// running OS by name, or the running OS is `macos` and it lists `darwin` or
/// `mac`.
pub proof fn lemma_os_requirement(req: RequiresView, f: RequirementFacts)
    requires
        facts_fit(req, f),
        !req.always,
        req.bins.len() == 0,
        req.any_bins.len() == 0,
        req.env.len() == 0,
    ensures
        requirements_met(req, f) <==> (req.os.len() == 0 || req.os.contains(f.current_os@) || (
        f.current_os@ == "macos"@ && (req.os.contains("darwin"@) || req.os.contains("mac"@)))),
{
    let cur = f.current_os@;
    if req.os.contains(cur) {
        let i = choose|i: int| 0 <= i < req.os.len() && req.os[i] == cur;
        assert(os_entry_matches(req.os[i], cur));
    }
    if cur == "macos"@ && req.os.contains("darwin"@) {
        let i = choose|i: int| 0 <= i < req.os.len() && req.os[i] == "darwin"@;
        assert(os_entry_matches(req.os[i], cur));
    }
    if cur == "macos"@ && req.os.contains("mac"@) {
        let i = choose|i: int| 0 <= i < req.os.len() && req.os[i] == "mac"@;
        assert(os_entry_matches(req.os[i], cur));
    }
    if os_ok(req, cur) && req.os.len() > 0 {
        let i = choose|i: int| 0 <= i < req.os.len() && os_entry_matches(#[trigger] req.os[i], cur);
        assert(req.os[i] == cur || req.os[i] == "darwin"@ || req.os[i] == "mac"@);
    }
}

/// What keeps a skill from being eligible: with `always` set it is always
/// eligible; otherwise a required binary that was not found, an any-binary
/// list of which none was found, or a required env var that is neither
/// configured, nor the primary env var backed by a configured API key, nor set
/// in the process environment, each makes it ineligible; and when the OS, all
/// binaries, one of the any-binaries (if listed) and every env var are
/// satisfied, it is eligible.
pub proof fn lemma_requirement_parts(req: RequiresView, f: RequirementFacts)
    requires
        facts_fit(req, f),
    ensures
        req.always ==> requirements_met(req, f),
        !req.always && (exists|i: int| 0 <= i < req.bins.len() && !f.bins_found@[i])
            ==> !requirements_met(req, f),
        !req.always && req.any_bins.len() > 0 && (forall|i: int|
            0 <= i < req.any_bins.len() ==> !f.any_bins_found@[i]) ==> !requirements_met(req, f),
        !req.always && (exists|i: int|
            0 <= i < req.env.len() && !f.env_configured@[i] && !f.env_in_system@[i] && !(
            req.primary_env == Some(req.env[i]) && f.api_key_configured))
            ==> !requirements_met(req, f),
        (req.os.len() == 0 || req.os.contains(f.current_os@)) && (forall|i: int|
            0 <= i < req.bins.len() ==> f.bins_found@[i]) && (req.any_bins.len() == 0 || exists|i: int|
            0 <= i < req.any_bins.len() && f.any_bins_found@[i]) && (forall|i: int|
            0 <= i < req.env.len() ==> f.env_configured@[i] || f.env_in_system@[i] || (
            req.primary_env == Some(req.env[i]) && f.api_key_configured))
            ==> requirements_met(req, f),
{
    if !req.always && (exists|i: int| 0 <= i < req.bins.len() && !f.bins_found@[i]) {
        let i = choose|i: int| 0 <= i < req.bins.len() && !f.bins_found@[i];
        assert(!f.bins_found@[i]);
    }
    if !req.always && (exists|i: int|
        0 <= i < req.env.len() && !f.env_configured@[i] && !f.env_in_system@[i] && !(
        req.primary_env == Some(req.env[i]) && f.api_key_configured)) {
        let i = choose|i: int|
            0 <= i < req.env.len() && !f.env_configured@[i] && !f.env_in_system@[i] && !(
            req.primary_env == Some(req.env[i]) && f.api_key_configured);
        assert(!env_met(req, f, i));
    }
    if req.os.contains(f.current_os@) {
        let i = choose|i: int| 0 <= i < req.os.len() && req.os[i] == f.current_os@;
        assert(os_entry_matches(req.os[i], f.current_os@));
    }
    if (req.any_bins.len() > 0 && exists|i: int| 0 <= i < req.any_bins.len() && f.any_bins_found@[i]) {
        let i = choose|i: int| 0 <= i < req.any_bins.len() && f.any_bins_found@[i];
        assert(f.any_bins_found@[i]);
    }
}

fn os_matches(req: &SkillRequires, current: &str) -> (r: bool)
    ensures
        r == os_ok(req@, current@),
{
    if req.os.len() == 0 {
        return true;
    }
    let mut i: usize = 0;
    while i < req.os.len()
        invariant
            i <= req.os@.len(),
            forall|j: int| 0 <= j < i ==> !os_entry_matches(#[trigger] req@.os[j], current@),
        decreases req.os@.len() - i,
    {
        let o = req.os[i].as_str();
        assert(req@.os[i as int] == o@);
        if crate::text::str_eq(o, current) || (crate::text::str_eq(o, "darwin")
            && crate::text::str_eq(current, "macos")) || (crate::text::str_eq(o, "mac")
            && crate::text::str_eq(current, "macos")) {
            return true;
        }
        i += 1;
    }
    false
}

fn env_ok_at(req: &SkillRequires, f: &RequirementFacts, i: usize) -> (r: bool)
    requires
        facts_fit(req@, *f),
        i < req.env@.len(),
    ensures
        r == env_met(req@, *f, i as int),
{
    let primary = match &req.primary_env {
        Some(pe) => crate::text::str_eq(pe.as_str(), req.env[i].as_str()),
        None => false,
    };
    f.env_configured[i] || (primary && f.api_key_configured) || f.env_in_system[i]
}

/// Whether a skill's requirements are met, given what the environment answered.
pub fn check_requirements(req: &SkillRequires, facts: &RequirementFacts) -> (r: bool)
    requires
        facts_fit(req@, *facts),
    ensures
        r == requirements_met(req@, *facts),
{
    if req.always {
        return true;
    }
    if !os_matches(req, facts.current_os.as_str()) {
        return false;
    }
    let mut i: usize = 0;
    while i < req.bins.len()
        invariant
            facts_fit(req@, *facts),
            !req.always,
            i <= req.bins@.len(),
            forall|j: int| 0 <= j < i ==> #[trigger] facts.bins_found@[j],
        decreases req.bins@.len() - i,
    {
        if !facts.bins_found[i] {
            assert(!facts.bins_found@[i as int]);
            return false;
        }
        i += 1;
    }
    if req.any_bins.len() > 0 {
        let mut any = false;
        let mut k: usize = 0;
        while k < req.any_bins.len()
            invariant
                facts_fit(req@, *facts),
                k <= req.any_bins@.len(),
                any == exists|j: int| 0 <= j < k && #[trigger] facts.any_bins_found@[j],
            decreases req.any_bins@.len() - k,
        {
            if facts.any_bins_found[k] {
                assert(facts.any_bins_found@[k as int]);
                any = true;
            }
            k += 1;
        }
        if !any {
            assert(!requirements_met(req@, *facts));
            return false;
        }
    }
    let mut e: usize = 0;
    while e < req.env.len()
        invariant
            facts_fit(req@, *facts),
            !req.always,
            e <= req.env@.len(),
            forall|j: int| 0 <= j < e ==> #[trigger] env_met(req@, *facts, j),
        decreases req.env@.len() - e,
    {
        if !env_ok_at(req, facts, e) {
            assert(!env_met(req@, *facts, e as int));
            return false;
        }
        e += 1;
    }
    true
}

/// The contents of a `RequirementsDetail`.
pub open spec fn detail_spec(req: RequiresView, f: RequirementFacts) -> (bool, Seq<Seq<char>>, Seq<Seq<char>>, Seq<Seq<char>>) {
    if req.always {
        (true, seq![], seq![], seq![])
    } else {
        (
            requirements_met(req, f),
            missing(req.bins, f.bins_found@),
            if any_bins_missing(req, f) { req.any_bins } else { seq![] },
            missing(req.env, env_flags(req, f)),
        )
    }
}

fn missing_of(items: &Vec<String>, found: &Vec<bool>) -> (r: Vec<String>)
    requires
        found@.len() == items@.len(),
    ensures
        strs_of(r@) == missing(strs_of(items@), found@),
{
    let mut out: Vec<String> = Vec::new();
    let mut i: usize = 0;
    while i < items.len()
        invariant
            i <= items@.len(),
            found@.len() == items@.len(),
            strs_of(out@) == missing(strs_of(items@).take(i as int), found@.take(i as int)),
        decreases items@.len() - i,
    {
        let ghost its = strs_of(items@);
        assert(its.take(i + 1).drop_last() =~= its.take(i as int));
        assert(found@.take(i + 1).take(i as int) =~= found@.take(i as int));
        assert(its.take(i + 1).last() == items@[i as int]@);
        if !found[i] {
            let ghost before = strs_of(out@);
            out.push(items[i].clone());
            assert(strs_of(out@) =~= before.push(items@[i as int]@));
        }
        i += 1;
    }
    assert(strs_of(items@).take(items@.len() as int) =~= strs_of(items@));
    assert(found@.take(items@.len() as int) =~= found@);
    out
}

fn clone_strs(v: &Vec<String>) -> (r: Vec<String>)
    ensures
        strs_of(r@) == strs_of(v@),
{
    let mut out: Vec<String> = Vec::new();
    let mut i: usize = 0;
    while i < v.len()
        invariant
            i <= v@.len(),
            strs_of(out@) == strs_of(v@).take(i as int),
        decreases v@.len() - i,
    {
        let ghost before = strs_of(out@);
        out.push(v[i].clone());
        assert(strs_of(out@) =~= before.push(v@[i as int]@));
        assert(strs_of(v@).take(i + 1) =~= strs_of(v@).take(i as int).push(v@[i as int]@));
        i += 1;
    }
    assert(strs_of(v@).take(v@.len() as int) =~= strs_of(v@));
    out
}

/// Detailed requirement check: eligibility and the missing bins, any-bins and env vars.
pub fn check_requirements_detail(req: &SkillRequires, facts: &RequirementFacts) -> (r: RequirementsDetail)
    requires
        facts_fit(req@, *facts),
    ensures
        (r.eligible, strs_of(r.missing_bins@), strs_of(r.missing_any_bins@), strs_of(
            r.missing_env@,
        )) == detail_spec(req@, *facts),
        strs_of(r.missing_config@) == Seq::<Seq<char>>::empty(),
        r.eligible == requirements_met(req@, *facts),
{
    if req.always {
        let r = RequirementsDetail {
            eligible: true,
            missing_bins: Vec::new(),
            missing_any_bins: Vec::new(),
            missing_env: Vec::new(),
            missing_config: Vec::new(),
        };
        assert(strs_of(r.missing_bins@) =~= Seq::<Seq<char>>::empty());
        assert(strs_of(r.missing_any_bins@) =~= Seq::<Seq<char>>::empty());
        assert(strs_of(r.missing_env@) =~= Seq::<Seq<char>>::empty());
        assert(strs_of(r.missing_config@) =~= Seq::<Seq<char>>::empty());
        return r;
    }
    let eligible = check_requirements(req, facts);
    let missing_bins = missing_of(&req.bins, &facts.bins_found);
    let mut any_missing = req.any_bins.len() > 0;
    let mut k: usize = 0;
    while k < req.any_bins.len()
        invariant
            facts_fit(req@, *facts),
            k <= req.any_bins@.len(),
            any_missing == (req.any_bins@.len() > 0 && forall|j: int|
                0 <= j < k ==> !#[trigger] facts.any_bins_found@[j]),
        decreases req.any_bins@.len() - k,
    {
        if facts.any_bins_found[k] {
            any_missing = false;
        }
        k += 1;
    }
    let missing_any_bins = if any_missing {
        clone_strs(&req.any_bins)
    } else {
        Vec::new()
    };
    let mut flags: Vec<bool> = Vec::new();
    let mut e: usize = 0;
    while e < req.env.len()
        invariant
            facts_fit(req@, *facts),
            e <= req.env@.len(),
            flags@ == env_flags(req@, *facts).take(e as int),
        decreases req.env@.len() - e,
    {
        let b = env_ok_at(req, facts, e);
        assert(env_flags(req@, *facts).take(e + 1) =~= env_flags(req@, *facts).take(e as int).push(b));
        flags.push(b);
        e += 1;
    }
    assert(env_flags(req@, *facts).take(req.env@.len() as int) =~= env_flags(req@, *facts));
    let missing_env = missing_of(&req.env, &flags);
    let r = RequirementsDetail {
        eligible,
        missing_bins,
        missing_any_bins,
        missing_env,
        missing_config: Vec::new(),
    };
    assert(strs_of(r.missing_config@) =~= Seq::<Seq<char>>::empty());
    assert(!any_missing ==> strs_of(r.missing_any_bins@) =~= Seq::<Seq<char>>::empty());
    r
}

// ───────────────────────────── inputs the parser accepts ─────────────────────────────

/// Whether `unquote` accepts the value (see `unquote_ok`).
pub fn unquote_ok_exec(s: &[char]) -> (r: bool)
    ensures
        r == unquote_ok(s@),
{
    let t = trim_exec(s);
    !(t.len() == 1 && (t[0] == '"' || t[0] == '\''))
}

fn inline_list_ok_exec(s: &[char]) -> (r: bool)
    ensures
        r == inline_list_ok(s@),
{
    match bracket_inner_exec(s) {
        Some(inner) => {
            let pieces = crate::text::split_char_exec(inner.as_slice(), ',');
            let ghost ps = seqs_of(pieces@);
            let mut i: usize = 0;
            while i < pieces.len()
                invariant
                    i <= pieces@.len(),
                    ps == seqs_of(pieces@),
                    bracket_inner(s@) == Some(inner@),
                    ps == split_char(inner@, ','),
                    forall|j: int| 0 <= j < i ==> unquote_ok(trim(#[trigger] ps[j])),
                decreases pieces@.len() - i,
            {
                let t = trim_exec(pieces[i].as_slice());
                assert(ps[i as int] == pieces@[i as int]@);
                if !unquote_ok_exec(t.as_slice()) {
                    assert(!unquote_ok(trim(ps[i as int])));
                    assert(!items_ok(ps));
                    return false;
                }
                i += 1;
            }
            true
        },
        None => true,
    }
}

fn set_ok_exec(key: &[char], val: &[char]) -> (r: bool)
    ensures
        r == set_ok(key@, val@),
{
    if !unquote_ok_exec(val) {
        return false;
    }
    let ks = string_of(key);
    if crate::text::str_eq(ks.as_str(), "bins") || crate::text::str_eq(ks.as_str(), "os") {
        let u = unquote_chars(val);
        let uc = chars_of(u.as_str());
        inline_list_ok_exec(uc.as_slice())
    } else {
        true
    }
}

fn blank_or_comment_exec(line: &[char]) -> (r: bool)
    ensures
        r == is_blank_or_comment(line@),
{
    let t = trim_exec(line);
    t.len() == 0 || starts_with_str(t.as_slice(), "#")
}

fn req_line_ok_exec(in_req: bool, line: &[char]) -> (r: bool)
    ensures
        forall|st: ReqFold| st.in_req == in_req ==> r == #[trigger] req_line_ok(st, line@),
{
    proof {
        reveal(req_line_ok);
    }
    let ind = indent_capped(line);
    if blank_or_comment_exec(line) || ind == 0 || !in_req {
        return true;
    }
    let t = trim_exec(line);
    if 2 <= ind && ind < 4 {
        match crate::text::split_once_exec(t.as_slice(), ':') {
            Some(kv) => {
                let v = trim_exec(kv.1.as_slice());
                v.len() == 0 || inline_list_ok_exec(v.as_slice())
            },
            None => true,
        }
    } else if ind >= 4 {
        match crate::text::strip_prefix_str(t.as_slice(), "- ") {
            Some(item) => {
                let it = trim_exec(item.as_slice());
                unquote_ok_exec(it.as_slice())
            },
            None => true,
        }
    } else {
        true
    }
}

fn root_line_ok_exec(line: &[char]) -> (r: bool)
    ensures
        r == root_line_ok(line@),
{
    proof {
        reveal(root_line_ok);
    }
    if indent_capped(line) != 0 {
        return true;
    }
    let t = trim_exec(line);
    match crate::text::strip_prefix_str(t.as_slice(), "always:") {
        Some(rest) => unquote_ok_exec(trim_exec(rest.as_slice()).as_slice()),
        None => match strip_either_exec(t.as_slice(), "primaryEnv:", "primary_env:") {
            Some(rest) => unquote_ok_exec(trim_exec(rest.as_slice()).as_slice()),
            None => true,
        },
    }
}

/// Whether `parse_requires` accepts the block (see `requires_ok`).
#[verifier::rlimit(60)]
pub fn requires_ok_exec(yaml: &[char]) -> (r: bool)
    ensures
        r == requires_ok(yaml@),
{
    let ls = lines_exec(yaml);
    let ghost lsv = seqs_of(ls@);
    let mut req = SkillRequires::default();
    let mut in_req = false;
    let mut key: Vec<char> = Vec::new();
    let mut i: usize = 0;
    assert(key@ =~= Seq::<char>::empty());
    while i < ls.len()
        invariant
            i <= ls@.len(),
            lsv == seqs_of(ls@),
            lsv == lines(yaml@),
            (ReqFold { req: req@, in_req: in_req, key: key@ }) == req_fold(lsv.take(i as int)),
            forall|j: int|
                0 <= j < i ==> req_line_ok(req_fold(lsv.take(j)), #[trigger] lsv[j]) && root_line_ok(lsv[j]),
        decreases ls@.len() - i,
    {
        assert(lsv.take(i + 1).drop_last() =~= lsv.take(i as int));
        assert(lsv[i as int] == ls@[i as int]@);
        let st_ok = req_line_ok_exec(in_req, ls[i].as_slice());
        let root_ok = root_line_ok_exec(ls[i].as_slice());
        assert(st_ok == req_line_ok(req_fold(lsv.take(i as int)), lsv[i as int]));
        if !st_ok || !root_ok {
            assert(!(req_line_ok(req_fold(lsv.take(i as int)), lsv[i as int]) && root_line_ok(lsv[i as int])));
            return false;
        }
        req_step(&mut req, &mut in_req, &mut key, ls[i].as_slice());
        i += 1;
    }
    true
}

fn install_line_ok_exec(in_install: bool, has_cur: bool, line: &[char]) -> (r: bool)
    ensures
        forall|st: InstallFold|
            st.in_install == in_install && (st.cur is Some) == has_cur ==> r == #[trigger] install_line_ok(
                st,
                line@,
            ),
{
    proof {
        reveal(install_line_ok);
    }
    let ind = indent_capped(line);
    if blank_or_comment_exec(line) || ind == 0 || !in_install {
        return true;
    }
    let t = trim_exec(line);
    proof {
        reveal_strlit("- ");
    }
    if ind == 2 && starts_with_str(t.as_slice(), "- ") {
        let rest = slice_of(t.as_slice(), 2, t.len());
        assert(rest@ == t@.skip(2));
        match crate::text::split_once_exec(rest.as_slice(), ':') {
            Some(kv) => set_ok_exec(trim_exec(kv.0.as_slice()).as_slice(), trim_exec(kv.1.as_slice()).as_slice()),
            None => true,
        }
    } else if ind >= 4 && has_cur {
        match crate::text::split_once_exec(t.as_slice(), ':') {
            Some(kv) => set_ok_exec(trim_exec(kv.0.as_slice()).as_slice(), trim_exec(kv.1.as_slice()).as_slice()),
            None => true,
        }
    } else {
        true
    }
}

/// Whether `parse_install_specs` accepts the block (see `install_ok`).
#[verifier::rlimit(60)]
pub fn install_ok_exec(yaml: &[char]) -> (r: bool)
    ensures
        r == install_ok(yaml@),
{
    let ls = lines_exec(yaml);
    let ghost lsv = seqs_of(ls@);
    let mut specs: Vec<SkillInstallSpec> = Vec::new();
    let mut in_install = false;
    let mut cur: Option<InstallSpecBuilder> = None;
    let mut i: usize = 0;
    assert(installs_of(specs@) =~= Seq::<InstallView>::empty());
    proof {
        reveal(install_prefix_ok);
    }
    while i < ls.len()
        invariant
            i <= ls@.len(),
            lsv == seqs_of(ls@),
            lsv == lines(yaml@),
            (InstallFold { specs: installs_of(specs@), in_install: in_install, cur: opt_builder(cur) })
                == install_fold(lsv.take(i as int)),
            install_prefix_ok(lsv, i as int),
        decreases ls@.len() - i,
    {
        assert(lsv.take(i + 1).drop_last() =~= lsv.take(i as int));
        assert(lsv[i as int] == ls@[i as int]@);
        let ghost st = install_fold(lsv.take(i as int));
        let ok = install_line_ok_exec(in_install, cur.is_some(), ls[i].as_slice());
        assert(st.in_install == in_install && (st.cur is Some) == cur.is_some());
        assert(ok == install_line_ok(st, lsv[i as int]));
        if !ok {
            proof {
                reveal(install_prefix_ok);
            }
            return false;
        }
        proof {
            lemma_install_prefix_step(lsv, i as int);
        }
        install_step(&mut specs, &mut in_install, &mut cur, ls[i].as_slice());
        i += 1;
    }
    proof {
        reveal(install_prefix_ok);
    }
    true
}

/// The first `n` lines are accepted by the install scan.
#[verifier::opaque]
pub open spec fn install_prefix_ok(ls: Seq<Seq<char>>, n: int) -> bool {
    forall|j: int| 0 <= j < n ==> install_line_ok(install_fold(ls.take(j)), #[trigger] ls[j])
}

proof fn lemma_install_prefix_step(ls: Seq<Seq<char>>, n: int)
    requires
        0 <= n < ls.len(),
        install_prefix_ok(ls, n),
        install_line_ok(install_fold(ls.take(n)), ls[n]),
    ensures
        install_prefix_ok(ls, n + 1),
{
    reveal(install_prefix_ok);
}

fn value_ok(t: &[char], p: &str) -> (r: Option<bool>)
    ensures
        match sp(t@, p) {
            Some(rest) => r == Some(unquote_ok(trim(rest))),
            None => r is None,
        },
{
    match crate::text::strip_prefix_str(t, p) {
        Some(rest) => Some(unquote_ok_exec(trim_exec(rest.as_slice()).as_slice())),
        None => None,
    }
}

fn value_ok2(t: &[char], a: &str, b: &str) -> (r: Option<bool>)
    ensures
        match sp2(t@, a, b) {
            Some(rest) => r == Some(unquote_ok(trim(rest))),
            None => r is None,
        },
{
    match strip_either_exec(t, a, b) {
        Some(rest) => Some(unquote_ok_exec(trim_exec(rest.as_slice()).as_slice())),
        None => None,
    }
}

fn list_ok2(t: &[char], a: &str, b: &str) -> (r: Option<bool>)
    ensures
        match sp2(t@, a, b) {
            Some(rest) => r == Some(inline_list_ok(trim(rest))),
            None => r is None,
        },
{
    match strip_either_exec(t, a, b) {
        Some(rest) => Some(inline_list_ok_exec(trim_exec(rest.as_slice()).as_slice())),
        None => None,
    }
}

fn fm_line_ok_exec(line: &[char]) -> (r: bool)
    ensures
        r == fm_line_ok(line@),
{
    proof {
        reveal(fm_line_ok);
    }
    if indent_capped(line) > 0 {
        return true;
    }
    let tv = trim_exec(line);
    let t = tv.as_slice();
    if let Some(b) = value_ok(t, "name:") {
        b
    } else if let Some(b) = value_ok(t, "description:") {
        b
    } else if let Some(b) = value_ok2(t, "skillKey:", "skill_key:") {
        b
    } else if let Some(b) = value_ok2(t, "user-invocable:", "user_invocable:") {
        b
    } else if let Some(b) = value_ok2(t, "disable-model-invocation:", "disable_model_invocation:") {
        b
    } else if let Some(b) = value_ok2(t, "command-dispatch:", "command_dispatch:") {
        b
    } else if let Some(b) = value_ok2(t, "command-tool:", "command_tool:") {
        b
    } else if let Some(b) = value_ok2(t, "command-arg-mode:", "command_arg_mode:") {
        b
    } else if let Some(b) = value_ok2(t, "command-arg-placeholder:", "command_arg_placeholder:") {
        b
    } else if let Some(b) = list_ok2(t, "command-arg-options:", "command_arg_options:") {
        b
    } else if let Some(b) = value_ok2(t, "command-prompt-template:", "command_prompt_template:") {
        b
    } else if let Some(b) = list_ok2(t, "allowed-tools:", "allowed_tools:") {
        b
    } else if let Some(b) = value_ok(t, "context:") {
        b
    } else {
        true
    }
}

fn fm_lines_ok_exec(yaml: &[char]) -> (r: bool)
    ensures
        r == (forall|k: int| 0 <= k < lines(yaml@).len() ==> fm_line_ok(#[trigger] lines(yaml@)[k])),
{
    let ls = lines_exec(yaml);
    let ghost lsv = seqs_of(ls@);
    let mut i: usize = 0;
    while i < ls.len()
        invariant
            i <= ls@.len(),
            lsv == seqs_of(ls@),
            lsv == lines(yaml@),
            forall|k: int| 0 <= k < i ==> fm_line_ok(#[trigger] lsv[k]),
        decreases ls@.len() - i,
    {
        assert(lsv[i as int] == ls@[i as int]@);
        if !fm_line_ok_exec(ls[i].as_slice()) {
            return false;
        }
        i += 1;
    }
    true
}

/// Whether `parse_frontmatter` accepts the document (see `frontmatter_ok`):
/// none of the values it unquotes is a lone quote.
pub fn frontmatter_ok_exec(content: &str) -> (r: bool)
    ensures
        r == frontmatter_ok(content@),
{
    let c = chars_of(content);
    match split_frontmatter(c.as_slice()) {
        Some(parts) => {
            let yaml = parts.0;
            if !requires_ok_exec(yaml.as_slice()) || !install_ok_exec(yaml.as_slice()) {
                return false;
            }
            fm_lines_ok_exec(yaml.as_slice())
        },
        None => true,
    }
}

} // verus!
