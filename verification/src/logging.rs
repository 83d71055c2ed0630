//! Application logging: log records and settings, level filtering, log file
//! names, tails of log files, and redaction of secrets before they are logged.
use vstd::prelude::*;
use crate::paths::{at_root, PathError};
use crate::text::{
    blen, dec, fit_len, seq_lt, str_lt, strip_prefix, strip_prefix_str, truncate_utf8, chars_of, extend_chars, extend_str, find, find_exec, has_char, has_char_exec, contains,
    contains_str, join, join_prefix, lines, lines_exec, occurs_at, seqs_of, slice_of, str_eq,
    string_of, strs_of,
};

verus! {

// ───────────────────────────── records ─────────────────────────────

/// A stored log record.
#[derive(Debug, Clone)]
pub struct LogEntry {
    pub id: i64,
    pub timestamp: String,
    pub level: String,
    pub category: String,
    pub source: String,
    pub message: String,
    pub details: Option<String>,
    pub session_id: Option<String>,
    pub agent_id: Option<String>,
}

/// Which records a log query selects.
#[derive(Debug, Clone)]
pub struct LogFilter {
    pub levels: Option<Vec<String>>,
    pub categories: Option<Vec<String>>,
    pub keyword: Option<String>,
    pub session_id: Option<String>,
    pub start_time: Option<String>,
    pub end_time: Option<String>,
}

impl Default for LogFilter {
    /// Selects everything.
    fn default() -> (r: Self)
        ensures
            r.levels is None && r.categories is None && r.keyword is None,
            r.session_id is None && r.start_time is None && r.end_time is None,
    {
        LogFilter {
            levels: None,
            categories: None,
            keyword: None,
            session_id: None,
            start_time: None,
            end_time: None,
        }
    }
}

/// Logging settings.
#[derive(Debug, Clone)]
pub struct LogConfig {
    pub enabled: bool,
    /// The most detailed level recorded: `error`, `warn`, `info` or `debug`.
    pub level: String,
    pub max_age_days: u32,
    pub max_size_mb: u32,
    /// Also write plain-text log files.
    pub file_enabled: bool,
    /// Size of one log file before it rotates.
    pub file_max_size_mb: u32,
}

impl Default for LogConfig {
    /// On, `info`, 30 days, 100 MB, files on at 10 MB.
    fn default() -> (r: Self)
        ensures
            r.enabled,
            r.level@ == "info"@,
            r.max_age_days == 30,
            r.max_size_mb == 100,
            r.file_enabled,
            r.file_max_size_mb == 10,
    {
        LogConfig {
            enabled: true,
            level: string_of(chars_of("info").as_slice()),
            max_age_days: 30,
            max_size_mb: 100,
            file_enabled: true,
            file_max_size_mb: 10,
        }
    }
}

/// Counts for the log viewer.
#[derive(Debug, Clone)]
pub struct LogStats {
    pub total: u64,
    pub by_level: std::collections::HashMap<String, u64>,
    pub by_category: std::collections::HashMap<String, u64>,
    pub db_size_bytes: u64,
}

/// A page of log records and the number of matching records.
#[derive(Debug, Clone)]
pub struct LogQueryResult {
    pub logs: Vec<LogEntry>,
    pub total: u64,
}

/// A record waiting to be written.
#[derive(Debug, Clone)]
pub struct PendingLog {
    pub timestamp: String,
    pub level: String,
    pub category: String,
    pub source: String,
    pub message: String,
    pub details: Option<String>,
    pub session_id: Option<String>,
    pub agent_id: Option<String>,
}

/// A plain-text log file.
#[derive(Debug, Clone)]
pub struct LogFileInfo {
    pub name: String,
    pub size_bytes: u64,
    pub modified: String,
}

// ───────────────────────────── levels ─────────────────────────────

/// Rank of a level: `error` 0, `warn` 1, `info` 2, `debug` 3, anything else 4.
pub open spec fn level_rank(level: Seq<char>) -> u8 {
    if level == "error"@ {
        0
    } else if level == "warn"@ {
        1
    } else if level == "info"@ {
        2
    } else if level == "debug"@ {
        3
    } else {
        4
    }
}

/// The rank of a level (see `level_rank`).
pub fn level_priority(level: &str) -> (r: u8)
    ensures
        r == level_rank(level@),
{
    if str_eq(level, "error") {
        0
    } else if str_eq(level, "warn") {
        1
    } else if str_eq(level, "info") {
        2
    } else if str_eq(level, "debug") {
        3
    } else {
        4
    }
}

/// A record is kept when its level is at most as detailed as the configured one.
pub fn should_log(entry_level: &str, config_level: &str) -> (r: bool)
    ensures
        r == (level_rank(entry_level@) <= level_rank(config_level@)),
{
    level_priority(entry_level) <= level_priority(config_level)
}

// ───────────────────────────── files ─────────────────────────────

/// Log database: `~/.opencomputer/logs.db`.
pub fn db_path() -> (r: Result<String, PathError>)
    ensures
        at_root(r, "logs.db"@),
{
    crate::paths::logs_db_path()
}

/// The log database for a given home directory: `<home>/.opencomputer/logs.db`.
pub fn db_path_for(home: &Option<String>) -> (r: Result<String, PathError>)
    ensures
        match home {
            Some(h) => r matches Ok(p) && p@ == crate::paths::data_path(h@, "logs.db"@),
            None => r == Err::<String, PathError>(PathError::NoHomeDir),
        },
{
    crate::paths::data_path_for(home, "logs.db")
}

/// A log file name names no other directory: no `/`, `\` or `..`.
pub open spec fn plain_file_name(name: Seq<char>) -> bool {
    !has_char(name, '/') && !has_char(name, '\\') && !contains(name, ".."@)
}

/// Whether a requested log file name stays inside the log directory.
pub fn is_plain_file_name(name: &str) -> (r: bool)
    ensures
        r == plain_file_name(name@),
{
    let c = chars_of(name);
    !has_char_exec(c.as_slice(), '/') && !has_char_exec(c.as_slice(), '\\') && !contains_str(
        c.as_slice(),
        "..",
    )
}

/// The last `n` lines of a text, joined by `\n` (all lines when there are fewer).
pub open spec fn tail_text(content: Seq<char>, n: nat) -> Seq<char> {
    let ls = lines(content);
    let start = if ls.len() > n {
        ls.len() - n
    } else {
        0
    };
    join(ls.skip(start), "\n"@)
}

/// The last `n` lines of a log file's text (see `tail_text`).
pub fn tail_lines(content: &str, n: u32) -> (r: String)
    ensures
        r@ == tail_text(content@, n as nat),
{
    let c = chars_of(content);
    let ls = lines_exec(c.as_slice());
    let start: usize = if ls.len() > n as usize {
        ls.len() - n as usize
    } else {
        0
    };
    let mut kept: Vec<Vec<char>> = Vec::new();
    let mut i: usize = start;
    while i < ls.len()
        invariant
            start <= i <= ls@.len(),
            seqs_of(kept@) == seqs_of(ls@).subrange(start as int, i as int),
        decreases ls@.len() - i,
    {
        let ghost before = seqs_of(kept@);
        kept.push(slice_of(ls[i].as_slice(), 0, ls[i].len()));
        assert(ls@[i as int]@.subrange(0, ls@[i as int]@.len() as int) =~= ls@[i as int]@);
        assert(seqs_of(kept@) =~= before.push(ls@[i as int]@));
        assert(seqs_of(ls@).subrange(start as int, i + 1) =~= seqs_of(ls@).subrange(
            start as int,
            i as int,
        ).push(ls@[i as int]@));
        i += 1;
    }
    assert(seqs_of(ls@).subrange(start as int, ls@.len() as int) =~= seqs_of(ls@).skip(
        start as int,
    ));
    let joined = join_prefix(&kept, kept.len(), "\n");
    assert(seqs_of(kept@).take(kept@.len() as int) =~= seqs_of(kept@));
    string_of(joined.as_slice())
}

/// The name of the day's log file: `opencomputer-<date>.log`.
pub fn log_file_name(date: &str) -> (r: String)
    ensures
        r@ == "opencomputer-"@ + date@ + ".log"@,
{
    let mut out: Vec<char> = Vec::new();
    extend_str(&mut out, "opencomputer-");
    extend_str(&mut out, date);
    extend_str(&mut out, ".log");
    string_of(out.as_slice())
}

// ───────────────────────────── redaction ─────────────────────────────

/// Keys whose values are never logged.
pub open spec fn secret_keys() -> Seq<Seq<char>> {
    seq![
        "api_key"@, "apiKey"@, "api-key"@, "access_token"@, "accessToken"@, "refresh_token"@,
        "refreshToken"@, "authorization"@, "Authorization"@, "x-api-key"@, "bearer"@, "password"@,
        "secret"@,
    ]
}

/// The replacement for a secret value.
pub open spec fn redacted() -> Seq<char> {
    "[REDACTED]"@
}

/// Index of the first `c` in `s`, if any.
pub open spec fn index_of(s: Seq<char>, c: char) -> Option<int> {
    if exists|i: int| 0 <= i < s.len() && s[i] == c {
        Some(choose|i: int| 0 <= i < s.len() && s[i] == c && forall|j: int| 0 <= j < i ==> s[j] != c)
    } else {
        None
    }
}

/// A character that ends a URL parameter value.
pub open spec fn url_value_end(c: char) -> bool {
    c == '&' || c == ' ' || c == '"' || c == '\n'
}

/// Length of the URL parameter value at the start of `s`.
pub open spec fn url_value_len(s: Seq<char>) -> nat
    decreases s.len(),
{
    if s.len() == 0 {
        0
    } else if url_value_end(s[0]) {
        0
    } else {
        1 + url_value_len(s.skip(1))
    }
}

/// Every JSON string value after `pat` (`"key":"`) replaced, left to right; an
/// unterminated value ends the scan.
#[verifier::opaque]
pub open spec fn redact_json(s: Seq<char>, pat: Seq<char>) -> Seq<char>
    decreases s.len(),
{
    if pat.len() == 0 {
        s
    } else {
        match find(s, pat) {
            Some(i) => {
                let vs = i + pat.len();
                if 0 <= i && vs <= s.len() {
                    match index_of(s.skip(vs), '"') {
                        Some(e) => if 0 <= e < s.len() - vs {
                            s.take(vs) + redacted() + redact_json(s.skip(vs + e), pat)
                        } else {
                            s
                        },
                        None => s,
                    }
                } else {
                    s
                }
            },
            None => s,
        }
    }
}

/// Every URL parameter value after `pat` (`?key=` or `&key=`) replaced, left to right.
#[verifier::opaque]
pub open spec fn redact_url(s: Seq<char>, pat: Seq<char>) -> Seq<char>
    decreases s.len(),
{
    if pat.len() == 0 {
        s
    } else {
        match find(s, pat) {
            Some(i) => {
                let vs = i + pat.len();
                if 0 <= i && vs <= s.len() {
                    proof {
                        lemma_url_value_len(s.skip(vs));
                    }
                    s.take(vs) + redacted() + redact_url(
                        s.skip(vs + url_value_len(s.skip(vs))),
                        pat,
                    )
                } else {
                    s
                }
            },
            None => s,
        }
    }
}

pub proof fn lemma_url_value_len(s: Seq<char>)
    ensures
        url_value_len(s) <= s.len(),
        forall|j: int| 0 <= j < url_value_len(s) ==> !url_value_end(#[trigger] s[j]),
        url_value_len(s) < s.len() ==> url_value_end(s[url_value_len(s) as int]),
    decreases s.len(),
{
    if s.len() > 0 && !url_value_end(s[0]) {
        lemma_url_value_len(s.skip(1));
        assert forall|j: int| 0 <= j < url_value_len(s) implies !url_value_end(#[trigger] s[j]) by {
            if j > 0 {
                assert(s[j] == s.skip(1)[j - 1]);
            }
        }
        if url_value_len(s) < s.len() {
            assert(s[url_value_len(s) as int] == s.skip(1)[url_value_len(s.skip(1)) as int]);
        }
    }
}

/// One key redacted: both JSON spellings, then both URL spellings.
pub open spec fn redact_key(s: Seq<char>, key: Seq<char>) -> Seq<char> {
    let a = redact_json(s, "\""@ + key + "\":\""@);
    let b = redact_json(a, "\""@ + key + "\": \""@);
    let c = redact_url(b, "?"@ + key + "="@);
    redact_url(c, "&"@ + key + "="@)
}

/// The first `n` keys redacted in turn.
pub open spec fn redact_keys(s: Seq<char>, keys: Seq<Seq<char>>, n: int) -> Seq<char>
    decreases n,
{
    if n <= 0 {
        s
    } else {
        redact_key(redact_keys(s, keys, n - 1), keys[n - 1])
    }
}

/// Text with the values of secret keys (`api_key`, tokens, passwords, ...) replaced
/// by `[REDACTED]`, in JSON string fields and URL query parameters.
pub open spec fn redacted_text(s: Seq<char>) -> Seq<char> {
    redact_keys(s, secret_keys(), secret_keys().len() as int)
}

proof fn lemma_redact_json_step(s: Seq<char>, pat: Seq<char>, i: int, e: int)
    requires
        pat.len() > 0,
        find(s, pat) == Some(i),
        occurs_at(s, pat, i),
        index_of(s.skip(i + pat.len()), '"') == Some(e),
        0 <= e < s.len() - (i + pat.len()),
    ensures
        redact_json(s, pat) == s.take(i + pat.len()) + redacted() + redact_json(
            s.skip(i + pat.len() + e),
            pat,
        ),
{
    reveal(redact_json);
}

proof fn lemma_redact_json_stop(s: Seq<char>, pat: Seq<char>)
    requires
        pat.len() > 0,
        find(s, pat) is None || (find(s, pat) matches Some(i) && occurs_at(s, pat, i) && index_of(
            s.skip(i + pat.len()),
            '"',
        ) is None),
    ensures
        redact_json(s, pat) == s,
{
    reveal(redact_json);
}

proof fn lemma_redact_url_step(s: Seq<char>, pat: Seq<char>, i: int)
    requires
        pat.len() > 0,
        find(s, pat) == Some(i),
        occurs_at(s, pat, i),
    ensures
        redact_url(s, pat) == s.take(i + pat.len()) + redacted() + redact_url(
            s.skip(i + pat.len() + url_value_len(s.skip(i + pat.len()))),
            pat,
        ),
{
    reveal(redact_url);
}

proof fn lemma_redact_url_stop(s: Seq<char>, pat: Seq<char>)
    requires
        pat.len() > 0,
        find(s, pat) is None,
    ensures
        redact_url(s, pat) == s,
{
    reveal(redact_url);
}

// ───────────────────────────── what redaction guarantees ─────────────────────────────

/// Text with no `"`, `?` or `&`: it can neither open nor close a JSON string
/// nor start a URL parameter.
pub open spec fn inert(s: Seq<char>) -> bool {
    forall|i: int| 0 <= i < s.len() ==> s[i] != '"' && s[i] != '?' && s[i] != '&'
}

/// A key that may name a JSON field: not empty, with no `"`, `:`, `?` or `&`.
pub open spec fn field_key(k: Seq<char>) -> bool {
    &&& k.len() > 0
    &&& forall|i: int| 0 <= i < k.len() ==> k[i] != '"' && k[i] != ':' && k[i] != '?' && k[i] != '&'
}

/// The two ways a JSON field is written: `:` or `: ` between key and value.
pub open spec fn field_sep(sep: Seq<char>) -> bool {
    sep == seq![':'] || sep == seq![':', ' ']
}

/// `a"k"<sep>"v"b`: the JSON string field `k` with value `v`, inside other text.
pub open spec fn field_shape(a: Seq<char>, k: Seq<char>, sep: Seq<char>, v: Seq<char>, b: Seq<char>) -> Seq<char> {
    a + seq!['"'] + k + seq!['"'] + sep + seq!['"'] + v + seq!['"'] + b
}

/// `a"k":"v"b`.
pub open spec fn json_field_in(a: Seq<char>, k: Seq<char>, v: Seq<char>, b: Seq<char>) -> Seq<char> {
    field_shape(a, k, seq![':'], v, b)
}

/// `a"k": "v"b`.
pub open spec fn json_field_spaced_in(a: Seq<char>, k: Seq<char>, v: Seq<char>, b: Seq<char>) -> Seq<char> {
    field_shape(a, k, seq![':', ' '], v, b)
}

/// `s` holds no `c`.
pub open spec fn free_of(s: Seq<char>, c: char) -> bool
    decreases s.len(),
{
    s.len() == 0 || (s.last() != c && free_of(s.drop_last(), c))
}

proof fn lemma_free_of(s: Seq<char>, c: char)
    requires
        free_of(s, c),
    ensures
        forall|i: int| 0 <= i < s.len() ==> s[i] != c,
    decreases s.len(),
{
    if s.len() > 0 {
        lemma_free_of(s.drop_last(), c);
        assert forall|i: int| 0 <= i < s.len() implies s[i] != c by {
            if i < s.len() - 1 {
                assert(s[i] == s.drop_last()[i]);
            }
        }
    }
}

proof fn lemma_field_key_of(k: Seq<char>)
    requires
        k.len() > 0,
        free_of(k, '"'),
        free_of(k, ':'),
        free_of(k, '?'),
        free_of(k, '&'),
    ensures
        field_key(k),
{
    lemma_free_of(k, '"');
    lemma_free_of(k, ':');
    lemma_free_of(k, '?');
    lemma_free_of(k, '&');
}

/// Where the quotes of `a"k"<sep>"v"b` are, and what stands between them.
proof fn lemma_field_chars(a: Seq<char>, k: Seq<char>, sep: Seq<char>, v: Seq<char>, b: Seq<char>)
    requires
        inert(a),
        inert(v),
        inert(b),
        field_key(k),
        field_sep(sep),
    ensures
        ({
            let s = field_shape(a, k, sep, v, b);
            let q0 = a.len() as int;
            let q1 = q0 + k.len() + 1;
            let q2 = q1 + sep.len() + 1;
            let q3 = q2 + v.len() + 1;
            &&& s.len() == q3 + 1 + b.len()
            &&& s[q0] == '"' && s[q1] == '"' && s[q1 + 1] == ':' && s[q2] == '"' && s[q3] == '"'
            &&& (sep.len() == 2 ==> s[q1 + 2] == ' ')
            &&& forall|i: int| 0 <= i < k.len() ==> s[q0 + 1 + i] == k[i]
            &&& forall|q: int| 0 <= q < s.len() && s[q] == '"' ==> q == q0 || q == q1 || q == q2 || q == q3
            &&& forall|q: int| 0 <= q < s.len() ==> s[q] != '?' && s[q] != '&'
            &&& s.skip(q3) == seq!['"'] + b
            &&& s.skip(q2 + 1) == v + seq!['"'] + b
        }),
{
    let s = field_shape(a, k, sep, v, b);
    let q0 = a.len() as int;
    let q1 = q0 + k.len() + 1;
    let q2 = q1 + sep.len() + 1;
    let q3 = q2 + v.len() + 1;
    assert forall|q: int| 0 <= q < s.len() implies (s[q] == '"' ==> q == q0 || q == q1 || q == q2 || q == q3)
        && s[q] != '?' && s[q] != '&' by {
        if q < q0 {
            assert(s[q] == a[q]);
        } else if q == q0 {
        } else if q < q1 {
            assert(s[q] == k[q - q0 - 1]);
        } else if q == q1 {
        } else if q < q2 {
            assert(s[q] == sep[q - q1 - 1]);
        } else if q == q2 {
        } else if q < q3 {
            assert(s[q] == v[q - q2 - 1]);
        } else if q == q3 {
        } else {
            assert(s[q] == b[q - q3 - 1]);
        }
    }
    assert(s[q1 + 1] == sep[0]);
    if sep.len() == 2 {
        assert(s[q1 + 2] == sep[1]);
    }
    assert forall|i: int| 0 <= i < k.len() implies s[q0 + 1 + i] == k[i] by {}
    assert(s.skip(q3) =~= seq!['"'] + b);
    assert(s.skip(q2 + 1) =~= v + seq!['"'] + b);
}

/// In `a"k"<sep>"v"b`, a field pattern `"kj":"` or `"kj": "` occurs only as
/// the field itself: at its opening quote, with `kj` equal to `k` and the
/// field's own separator.
proof fn lemma_json_pattern_at(
    a: Seq<char>,
    k: Seq<char>,
    sep: Seq<char>,
    v: Seq<char>,
    b: Seq<char>,
    kj: Seq<char>,
    tsep: Seq<char>,
    p: int,
)
    requires
        inert(a),
        inert(v),
        inert(b),
        field_key(k),
        field_key(kj),
        field_sep(sep),
        field_sep(tsep),
        occurs_at(field_shape(a, k, sep, v, b), seq!['"'] + kj + (seq!['"'] + tsep + seq!['"']), p),
    ensures
        p == a.len(),
        kj == k,
        tsep == sep,
{
    lemma_field_chars(a, k, sep, v, b);
    let s = field_shape(a, k, sep, v, b);
    let pat = seq!['"'] + kj + (seq!['"'] + tsep + seq!['"']);
    let n = pat.len() as int;
    let w = s.subrange(p, p + n);
    let q0 = a.len() as int;
    let q1 = q0 + k.len() + 1;
    let q2 = q1 + sep.len() + 1;
    let q3 = q2 + v.len() + 1;
    let m = kj.len() as int;
    let e = p + m + 1;
    assert(w == pat);
    assert(s[p] == '"') by {
        assert(w[0] == s[p]);
    }
    assert(s[e] == '"') by {
        assert(pat[m + 1] == '"');
        assert(w[m + 1] == s[e]);
    }
    assert(s[p + n - 1] == '"') by {
        assert(pat[n - 1] == '"');
        assert(w[n - 1] == s[p + n - 1]);
    }
    assert(s[p + 1] == kj[0]) by {
        assert(pat[1] == kj[0]);
        assert(w[1] == s[p + 1]);
    }
    if p == q0 {
        if e == q1 {
            assert forall|i: int| 0 <= i < kj.len() implies kj[i] == k[i] by {
                assert(pat[1 + i] == kj[i]);
                assert(w[1 + i] == s[p + 1 + i]);
            }
            assert(kj =~= k);
            assert(pat[m + 3] == tsep[1] || (tsep.len() == 1 && pat[m + 3] == '"'));
            assert(w[m + 3] == s[q1 + 2]);
            if tsep.len() == 2 && sep.len() == 1 {
                assert(pat[m + 3] == ' ');
            }
            if tsep.len() == 1 && sep.len() == 2 {
                assert(pat[m + 3] == '"');
            }
        } else {
            assert(kj[k.len() as int] == '"') by {
                assert(pat[k.len() + 1int] == kj[k.len() as int]);
                assert(w[k.len() + 1int] == s[q1]);
            }
        }
    } else if p == q1 {
    } else if p == q2 {
    } else {
    }
}

proof fn lemma_json_pattern_absent(
    a: Seq<char>,
    k: Seq<char>,
    sep: Seq<char>,
    v: Seq<char>,
    b: Seq<char>,
    kj: Seq<char>,
    tsep: Seq<char>,
)
    requires
        inert(a),
        inert(v),
        inert(b),
        field_key(k),
        field_key(kj),
        field_sep(sep),
        field_sep(tsep),
        !(kj == k && tsep == sep),
    ensures
        find(field_shape(a, k, sep, v, b), seq!['"'] + kj + (seq!['"'] + tsep + seq!['"'])) is None,
{
    let s = field_shape(a, k, sep, v, b);
    let pat = seq!['"'] + kj + (seq!['"'] + tsep + seq!['"']);
    if contains(s, pat) {
        let p = choose|p: int| occurs_at(s, pat, p);
        lemma_json_pattern_at(a, k, sep, v, b, kj, tsep, p);
    }
}

/// A pattern whose first character never occurs in `s` does not occur in it.
proof fn lemma_first_char_absent(s: Seq<char>, pat: Seq<char>)
    requires
        pat.len() > 0,
        forall|q: int| 0 <= q < s.len() ==> s[q] != pat[0],
    ensures
        find(s, pat) is None,
{
    if contains(s, pat) {
        let p = choose|p: int| occurs_at(s, pat, p);
        assert(s.subrange(p, p + pat.len())[0] == s[p]);
    }
}

/// `"` followed by quote-free text holds no field pattern `"kj"<sep>"`.
proof fn lemma_closing_quote_only(b: Seq<char>, kj: Seq<char>, tsep: Seq<char>)
    requires
        inert(b),
    ensures
        find(seq!['"'] + b, seq!['"'] + kj + (seq!['"'] + tsep + seq!['"'])) is None,
{
    let u = seq!['"'] + b;
    let pat = seq!['"'] + kj + (seq!['"'] + tsep + seq!['"']);
    if contains(u, pat) {
        let p = choose|p: int| occurs_at(u, pat, p);
        let w = u.subrange(p, p + pat.len());
        assert(w == pat);
        assert(w[0] == u[p]);
        assert(pat[kj.len() + 1int] == '"');
        assert(w[kj.len() + 1int] == u[p + kj.len() + 1]);
        if p > 0 {
            assert(u[p] == b[p - 1]);
        }
        assert(u[kj.len() + 1int] == b[kj.len() as int]);
    }
}

proof fn lemma_patterns_as_seqs(k: Seq<char>)
    ensures
        "\""@ + k + "\":\""@ == seq!['"'] + k + (seq!['"'] + seq![':'] + seq!['"']),
        "\""@ + k + "\": \""@ == seq!['"'] + k + (seq!['"'] + seq![':', ' '] + seq!['"']),
        ("?"@ + k + "="@).len() > 0 && ("?"@ + k + "="@)[0] == '?',
        ("&"@ + k + "="@).len() > 0 && ("&"@ + k + "="@)[0] == '&',
{
    reveal_strlit("\"");
    reveal_strlit("\":\"");
    reveal_strlit("\": \"");
    reveal_strlit("?");
    reveal_strlit("&");
    reveal_strlit("=");
    assert("\""@ + k + "\":\""@ =~= seq!['"'] + k + (seq!['"'] + seq![':'] + seq!['"']));
    assert("\""@ + k + "\": \""@ =~= seq!['"'] + k + (seq!['"'] + seq![':', ' '] + seq!['"']));
}

proof fn lemma_redacted_inert()
    ensures
        inert(redacted()),
{
    reveal_strlit("[REDACTED]");
    reveal_with_fuel(free_of, 11);
    assert(free_of(redacted(), '"'));
    assert(free_of(redacted(), '?'));
    assert(free_of(redacted(), '&'));
    lemma_free_of(redacted(), '"');
    lemma_free_of(redacted(), '?');
    lemma_free_of(redacted(), '&');
}

/// A JSON spelling that is not the field's own leaves the text as it is.
proof fn lemma_json_spelling_keeps(
    a: Seq<char>,
    k: Seq<char>,
    sep: Seq<char>,
    v: Seq<char>,
    b: Seq<char>,
    kj: Seq<char>,
    tsep: Seq<char>,
)
    requires
        inert(a),
        inert(v),
        inert(b),
        field_key(k),
        field_key(kj),
        field_sep(sep),
        field_sep(tsep),
        !(kj == k && tsep == sep),
    ensures
        redact_json(field_shape(a, k, sep, v, b), seq!['"'] + kj + (seq!['"'] + tsep + seq!['"']))
            == field_shape(a, k, sep, v, b),
{
    lemma_json_pattern_absent(a, k, sep, v, b, kj, tsep);
    lemma_redact_json_stop(field_shape(a, k, sep, v, b), seq!['"'] + kj + (seq!['"'] + tsep + seq!['"']));
}

/// The field's own JSON spelling replaces its value by `[REDACTED]`.
proof fn lemma_own_spelling_redacts(a: Seq<char>, k: Seq<char>, sep: Seq<char>, v: Seq<char>, b: Seq<char>)
    requires
        inert(a),
        inert(v),
        inert(b),
        field_key(k),
        field_sep(sep),
    ensures
        redact_json(field_shape(a, k, sep, v, b), seq!['"'] + k + (seq!['"'] + sep + seq!['"']))
            == field_shape(a, k, sep, redacted(), b),
{
    let s = field_shape(a, k, sep, v, b);
    let t = field_shape(a, k, sep, redacted(), b);
    let pat = seq!['"'] + k + (seq!['"'] + sep + seq!['"']);
    lemma_field_chars(a, k, sep, v, b);
    let q0 = a.len() as int;
    let q1 = q0 + k.len() + 1;
    let q2 = q1 + sep.len() + 1;
    assert(s.subrange(q0, q0 + pat.len()) =~= pat);
    assert(occurs_at(s, pat, q0));
    assert forall|j: int| #[trigger] occurs_at(s, pat, j) implies j == q0 by {
        lemma_json_pattern_at(a, k, sep, v, b, k, sep, j);
    }
    assert(find(s, pat) == Some(q0));
    let u = s.skip(q2 + 1);
    assert(u == v + seq!['"'] + b);
    assert(u[v.len() as int] == '"');
    assert forall|j: int| 0 <= j < v.len() implies u[j] != '"' by {
        assert(u[j] == v[j]);
    }
    assert(index_of(u, '"') == Some(v.len() as int));
    assert(q0 + pat.len() == q2 + 1);
    lemma_redact_json_step(s, pat, q0, v.len() as int);
    lemma_closing_quote_only(b, k, sep);
    lemma_redact_json_stop(seq!['"'] + b, pat);
    assert(s.skip(q2 + 1 + v.len()) == seq!['"'] + b);
    assert(s.take(q2 + 1) + redacted() + (seq!['"'] + b) =~= t);
}

proof fn lemma_no_url_keys(a: Seq<char>, k: Seq<char>, sep: Seq<char>, v: Seq<char>, b: Seq<char>, kj: Seq<char>)
    requires
        inert(a),
        inert(v),
        inert(b),
        field_key(k),
        field_sep(sep),
    ensures
        redact_url(field_shape(a, k, sep, v, b), "?"@ + kj + "="@) == field_shape(a, k, sep, v, b),
        redact_url(field_shape(a, k, sep, v, b), "&"@ + kj + "="@) == field_shape(a, k, sep, v, b),
{
    let s = field_shape(a, k, sep, v, b);
    lemma_patterns_as_seqs(kj);
    lemma_field_chars(a, k, sep, v, b);
    lemma_first_char_absent(s, "?"@ + kj + "="@);
    lemma_first_char_absent(s, "&"@ + kj + "="@);
    lemma_redact_url_stop(s, "?"@ + kj + "="@);
    lemma_redact_url_stop(s, "&"@ + kj + "="@);
}

/// Redacting another key leaves `a"k"<sep>"v"b` as it is.
proof fn lemma_other_key_keeps(a: Seq<char>, k: Seq<char>, sep: Seq<char>, v: Seq<char>, b: Seq<char>, kj: Seq<char>)
    requires
        inert(a),
        inert(v),
        inert(b),
        field_key(k),
        field_key(kj),
        field_sep(sep),
        kj != k,
    ensures
        redact_key(field_shape(a, k, sep, v, b), kj) == field_shape(a, k, sep, v, b),
{
    lemma_patterns_as_seqs(kj);
    lemma_json_spelling_keeps(a, k, sep, v, b, kj, seq![':']);
    lemma_json_spelling_keeps(a, k, sep, v, b, kj, seq![':', ' ']);
    lemma_no_url_keys(a, k, sep, v, b, kj);
}

/// Redacting the field's own key replaces its value by `[REDACTED]`.
proof fn lemma_own_key_redacts(a: Seq<char>, k: Seq<char>, sep: Seq<char>, v: Seq<char>, b: Seq<char>)
    requires
        inert(a),
        inert(v),
        inert(b),
        field_key(k),
        field_sep(sep),
    ensures
        redact_key(field_shape(a, k, sep, v, b), k) == field_shape(a, k, sep, redacted(), b),
{
    let s = field_shape(a, k, sep, v, b);
    let t = field_shape(a, k, sep, redacted(), b);
    lemma_redacted_inert();
    lemma_patterns_as_seqs(k);
    assert(seq![':'] != seq![':', ' ']) by {
        assert(seq![':'].len() != seq![':', ' '].len());
    }
    if sep == seq![':'] {
        lemma_own_spelling_redacts(a, k, sep, v, b);
        lemma_json_spelling_keeps(a, k, sep, redacted(), b, k, seq![':', ' ']);
    } else {
        lemma_json_spelling_keeps(a, k, sep, v, b, k, seq![':']);
        lemma_own_spelling_redacts(a, k, sep, v, b);
    }
    lemma_no_url_keys(a, k, sep, redacted(), b, k);
}

proof fn lemma_keys_fold(
    a: Seq<char>,
    k: Seq<char>,
    sep: Seq<char>,
    v: Seq<char>,
    b: Seq<char>,
    keys: Seq<Seq<char>>,
    n: int,
)
    requires
        inert(a),
        inert(v),
        inert(b),
        field_key(k),
        field_sep(sep),
        0 <= n <= keys.len(),
        forall|j: int| 0 <= j < keys.len() ==> field_key(#[trigger] keys[j]),
    ensures
        redact_keys(field_shape(a, k, sep, v, b), keys, n) == if exists|j: int|
            0 <= j < n && #[trigger] keys[j] == k {
            field_shape(a, k, sep, redacted(), b)
        } else {
            field_shape(a, k, sep, v, b)
        },
    decreases n,
{
    if n > 0 {
        lemma_keys_fold(a, k, sep, v, b, keys, n - 1);
        lemma_redacted_inert();
        let kj = keys[n - 1];
        assert(field_key(kj));
        if kj == k {
            lemma_own_key_redacts(a, k, sep, v, b);
            lemma_own_key_redacts(a, k, sep, redacted(), b);
        } else {
            lemma_other_key_keeps(a, k, sep, v, b, kj);
            lemma_other_key_keeps(a, k, sep, redacted(), b, kj);
        }
    }
}

proof fn lemma_secret_keys_are_field_keys()
    ensures
        forall|j: int| 0 <= j < secret_keys().len() ==> field_key(#[trigger] secret_keys()[j]),
{
    assert(field_key(secret_keys()[0])) by {
        reveal_strlit("api_key");
        reveal_with_fuel(free_of, 14);
        lemma_field_key_of("api_key"@);
    }
    assert(field_key(secret_keys()[1])) by {
        reveal_strlit("apiKey");
        reveal_with_fuel(free_of, 14);
        lemma_field_key_of("apiKey"@);
    }
    assert(field_key(secret_keys()[2])) by {
        reveal_strlit("api-key");
        reveal_with_fuel(free_of, 14);
        lemma_field_key_of("api-key"@);
    }
    assert(field_key(secret_keys()[3])) by {
        reveal_strlit("access_token");
        reveal_with_fuel(free_of, 14);
        lemma_field_key_of("access_token"@);
    }
    assert(field_key(secret_keys()[4])) by {
        reveal_strlit("accessToken");
        reveal_with_fuel(free_of, 14);
        lemma_field_key_of("accessToken"@);
    }
    assert(field_key(secret_keys()[5])) by {
        reveal_strlit("refresh_token");
        reveal_with_fuel(free_of, 14);
        lemma_field_key_of("refresh_token"@);
    }
    assert(field_key(secret_keys()[6])) by {
        reveal_strlit("refreshToken");
        reveal_with_fuel(free_of, 14);
        lemma_field_key_of("refreshToken"@);
    }
    assert(field_key(secret_keys()[7])) by {
        reveal_strlit("authorization");
        reveal_with_fuel(free_of, 14);
        lemma_field_key_of("authorization"@);
    }
    assert(field_key(secret_keys()[8])) by {
        reveal_strlit("Authorization");
        reveal_with_fuel(free_of, 14);
        lemma_field_key_of("Authorization"@);
    }
    assert(field_key(secret_keys()[9])) by {
        reveal_strlit("x-api-key");
        reveal_with_fuel(free_of, 14);
        lemma_field_key_of("x-api-key"@);
    }
    assert(field_key(secret_keys()[10])) by {
        reveal_strlit("bearer");
        reveal_with_fuel(free_of, 14);
        lemma_field_key_of("bearer"@);
    }
    assert(field_key(secret_keys()[11])) by {
        reveal_strlit("password");
        reveal_with_fuel(free_of, 14);
        lemma_field_key_of("password"@);
    }
    assert(field_key(secret_keys()[12])) by {
        reveal_strlit("secret");
        reveal_with_fuel(free_of, 14);
        lemma_field_key_of("secret"@);
    }
    assert forall|j: int| 0 <= j < secret_keys().len() implies field_key(#[trigger] secret_keys()[j]) by {
        assert(secret_keys().len() == 13);
    }
}

proof fn lemma_secret_field_redacted(a: Seq<char>, k: Seq<char>, sep: Seq<char>, v: Seq<char>, b: Seq<char>)
    requires
        k == "api_key"@
            || k == "apiKey"@
            || k == "api-key"@
            || k == "access_token"@
            || k == "accessToken"@
            || k == "refresh_token"@
            || k == "refreshToken"@
            || k == "authorization"@
            || k == "Authorization"@
            || k == "x-api-key"@
            || k == "bearer"@
            || k == "password"@
            || k == "secret"@,
        inert(a),
        inert(v),
        inert(b),
        field_sep(sep),
    ensures
        redacted_text(field_shape(a, k, sep, v, b)) == field_shape(a, k, sep, "[REDACTED]"@, b),
{
    let keys = secret_keys();
    lemma_secret_keys_are_field_keys();
    assert(exists|j: int| 0 <= j < keys.len() && #[trigger] keys[j] == k) by {
        if k == "api_key"@ {
            assert(keys[0] == k);
        } else if k == "apiKey"@ {
            assert(keys[1] == k);
        } else if k == "api-key"@ {
            assert(keys[2] == k);
        } else if k == "access_token"@ {
            assert(keys[3] == k);
        } else if k == "accessToken"@ {
            assert(keys[4] == k);
        } else if k == "refresh_token"@ {
            assert(keys[5] == k);
        } else if k == "refreshToken"@ {
            assert(keys[6] == k);
        } else if k == "authorization"@ {
            assert(keys[7] == k);
        } else if k == "Authorization"@ {
            assert(keys[8] == k);
        } else if k == "x-api-key"@ {
            assert(keys[9] == k);
        } else if k == "bearer"@ {
            assert(keys[10] == k);
        } else if k == "password"@ {
            assert(keys[11] == k);
        } else if k == "secret"@ {
            assert(keys[12] == k);
        } else {
        }
    }
    let j = choose|j: int| 0 <= j < keys.len() && #[trigger] keys[j] == k;
    assert(field_key(keys[j]));
    lemma_keys_fold(a, k, sep, v, b, keys, keys.len() as int);
}

/// Secrets in JSON never reach the log: in any text `a"k":"v"b` or
/// `a"k": "v"b` whose key `k` is one of `api_key`, `apiKey`, `api-key`,
/// `access_token`, `accessToken`, `refresh_token`, `refreshToken`,
/// `authorization`, `Authorization`, `x-api-key`, `bearer`, `password` or
/// `secret`, and where `a`, `v` and `b` hold no `"`, `?` or `&`, the value
/// `v` is replaced by `[REDACTED]` and the rest of the text is kept.
pub proof fn lemma_secret_json_values_redacted(a: Seq<char>, k: Seq<char>, v: Seq<char>, b: Seq<char>)
    requires
        k == "api_key"@
            || k == "apiKey"@
            || k == "api-key"@
            || k == "access_token"@
            || k == "accessToken"@
            || k == "refresh_token"@
            || k == "refreshToken"@
            || k == "authorization"@
            || k == "Authorization"@
            || k == "x-api-key"@
            || k == "bearer"@
            || k == "password"@
            || k == "secret"@,
        inert(a),
        inert(v),
        inert(b),
    ensures
        redacted_text(json_field_in(a, k, v, b)) == json_field_in(a, k, "[REDACTED]"@, b),
        redacted_text(json_field_spaced_in(a, k, v, b)) == json_field_spaced_in(a, k, "[REDACTED]"@, b),
{
    lemma_secret_field_redacted(a, k, seq![':'], v, b);
    lemma_secret_field_redacted(a, k, seq![':', ' '], v, b);
}

/// A key that may name a URL parameter: a field key with no `=` either.
pub open spec fn url_key(k: Seq<char>) -> bool {
    field_key(k) && forall|i: int| 0 <= i < k.len() ==> k[i] != '='
}

/// A URL parameter value that runs to its end: no `"`, `?`, `&`, space or
/// newline.
pub open spec fn url_value(v: Seq<char>) -> bool {
    inert(v) && forall|i: int| 0 <= i < v.len() ==> v[i] != ' ' && v[i] != '\n'
}

/// What may follow a URL parameter value: nothing, or a space or newline and
/// then text with no `"`, `?` or `&`.
pub open spec fn url_tail(b: Seq<char>) -> bool {
    inert(b) && (b.len() == 0 || b[0] == ' ' || b[0] == '\n')
}

/// `a?k=vb` or `a&k=vb`: the URL parameter `k` with value `v`, inside other
/// text (`c` is `?` or `&`).
pub open spec fn url_param_in(a: Seq<char>, c: char, k: Seq<char>, v: Seq<char>, b: Seq<char>) -> Seq<char> {
    a + seq![c] + k + seq!['='] + v + b
}

proof fn lemma_url_chars(a: Seq<char>, c: char, k: Seq<char>, v: Seq<char>, b: Seq<char>)
    requires
        inert(a),
        url_value(v),
        url_tail(b),
        url_key(k),
        c == '?' || c == '&',
    ensures
        ({
            let s = url_param_in(a, c, k, v, b);
            let q0 = a.len() as int;
            &&& s.len() == q0 + k.len() + 2 + v.len() + b.len()
            &&& s[q0] == c
            &&& s[q0 + k.len() + 1] == '='
            &&& forall|i: int| 0 <= i < k.len() ==> s[q0 + 1 + i] == k[i]
            &&& forall|q: int| 0 <= q < s.len() && (s[q] == '?' || s[q] == '&') ==> q == q0
            &&& forall|q: int| 0 <= q < s.len() ==> s[q] != '"'
            &&& s.skip(q0 + k.len() + 2) == v + b
        }),
{
    let s = url_param_in(a, c, k, v, b);
    let q0 = a.len() as int;
    let q1 = q0 + k.len() + 1;
    assert forall|q: int| 0 <= q < s.len() implies ((s[q] == '?' || s[q] == '&') ==> q == q0) && s[q] != '"' by {
        if q < q0 {
            assert(s[q] == a[q]);
        } else if q == q0 {
        } else if q < q1 {
            assert(s[q] == k[q - q0 - 1]);
        } else if q == q1 {
        } else if q < q1 + 1 + v.len() {
            assert(s[q] == v[q - q1 - 1]);
        } else {
            assert(s[q] == b[q - q1 - 1 - v.len()]);
        }
    }
    assert forall|i: int| 0 <= i < k.len() implies s[q0 + 1 + i] == k[i] by {}
    assert(s.skip(q1 + 1) =~= v + b);
}

proof fn lemma_url_pattern_at(a: Seq<char>, c: char, k: Seq<char>, v: Seq<char>, b: Seq<char>, c2: char, kj: Seq<char>, p: int)
    requires
        inert(a),
        url_value(v),
        url_tail(b),
        url_key(k),
        url_key(kj),
        c == '?' || c == '&',
        c2 == '?' || c2 == '&',
        occurs_at(url_param_in(a, c, k, v, b), seq![c2] + kj + seq!['='], p),
    ensures
        p == a.len(),
        c2 == c,
        kj == k,
{
    lemma_url_chars(a, c, k, v, b);
    let s = url_param_in(a, c, k, v, b);
    let pat = seq![c2] + kj + seq!['='];
    let w = s.subrange(p, p + pat.len());
    let q0 = a.len() as int;
    let m = kj.len() as int;
    assert(w == pat);
    assert(w[0] == s[p]);
    assert(pat[0] == c2);
    assert(p == q0);
    assert(pat[m + 1] == '=');
    assert(w[m + 1] == s[p + m + 1]);
    if m < k.len() {
        assert(s[q0 + 1 + m] == k[m]);
    } else if m > k.len() {
        assert(pat[k.len() + 1int] == kj[k.len() as int]);
        assert(w[k.len() + 1int] == s[q0 + k.len() + 1]);
    } else {
        assert forall|i: int| 0 <= i < kj.len() implies kj[i] == k[i] by {
            assert(pat[1 + i] == kj[i]);
            assert(w[1 + i] == s[p + 1 + i]);
        }
        assert(kj =~= k);
    }
}

proof fn lemma_url_value_len_of(v: Seq<char>, b: Seq<char>)
    requires
        url_value(v),
        url_tail(b),
    ensures
        url_value_len(v + b) == v.len(),
    decreases v.len(),
{
    if v.len() == 0 {
        assert(v + b =~= b);
    } else {
        let r = v.skip(1);
        assert((v + b).skip(1) =~= r + b);
        assert((v + b)[0] == v[0]);
        assert forall|i: int| 0 <= i < r.len() implies r[i] != '"' && r[i] != '?' && r[i] != '&' && r[i] != ' '
            && r[i] != '\n' by {
            assert(r[i] == v[i + 1]);
        }
        lemma_url_value_len_of(r, b);
    }
}

proof fn lemma_url_patterns_as_seqs(k: Seq<char>)
    ensures
        "?"@ + k + "="@ == seq!['?'] + k + seq!['='],
        "&"@ + k + "="@ == seq!['&'] + k + seq!['='],
        ("\""@ + k + "\":\""@)[0] == '"',
        ("\""@ + k + "\": \""@)[0] == '"',
{
    reveal_strlit("?");
    reveal_strlit("&");
    reveal_strlit("=");
    reveal_strlit("\"");
    assert("?"@ + k + "="@ =~= seq!['?'] + k + seq!['=']);
    assert("&"@ + k + "="@ =~= seq!['&'] + k + seq!['=']);
}

proof fn lemma_redacted_url_value()
    ensures
        url_value(redacted()),
{
    lemma_redacted_inert();
    reveal_strlit("[REDACTED]");
    reveal_with_fuel(free_of, 11);
    assert(free_of(redacted(), ' '));
    assert(free_of(redacted(), '\n'));
    lemma_free_of(redacted(), ' ');
    lemma_free_of(redacted(), '\n');
}

/// A URL spelling that is not the parameter's own leaves the text as it is.
proof fn lemma_url_spelling_keeps(a: Seq<char>, c: char, k: Seq<char>, v: Seq<char>, b: Seq<char>, c2: char, kj: Seq<char>)
    requires
        inert(a),
        url_value(v),
        url_tail(b),
        url_key(k),
        url_key(kj),
        c == '?' || c == '&',
        c2 == '?' || c2 == '&',
        !(c2 == c && kj == k),
    ensures
        redact_url(url_param_in(a, c, k, v, b), seq![c2] + kj + seq!['=']) == url_param_in(a, c, k, v, b),
{
    let s = url_param_in(a, c, k, v, b);
    let pat = seq![c2] + kj + seq!['='];
    if contains(s, pat) {
        let p = choose|p: int| occurs_at(s, pat, p);
        lemma_url_pattern_at(a, c, k, v, b, c2, kj, p);
    }
    lemma_redact_url_stop(s, pat);
}

/// The parameter's own URL spelling replaces its value by `[REDACTED]`.
#[verifier::spinoff_prover]
#[verifier::rlimit(50)]
proof fn lemma_own_url_redacts(a: Seq<char>, c: char, k: Seq<char>, v: Seq<char>, b: Seq<char>)
    requires
        inert(a),
        url_value(v),
        url_tail(b),
        url_key(k),
        c == '?' || c == '&',
    ensures
        redact_url(url_param_in(a, c, k, v, b), seq![c] + k + seq!['=']) == url_param_in(a, c, k, redacted(), b),
{
    let s = url_param_in(a, c, k, v, b);
    let pat = seq![c] + k + seq!['='];
    lemma_url_chars(a, c, k, v, b);
    let q0 = a.len() as int;
    let vs = q0 + k.len() + 2;
    assert(s.subrange(q0, q0 + pat.len()) =~= pat);
    assert(occurs_at(s, pat, q0));
    assert forall|j: int| #[trigger] occurs_at(s, pat, j) implies j == q0 by {
        lemma_url_pattern_at(a, c, k, v, b, c, k, j);
    }
    assert(find(s, pat) == Some(q0));
    lemma_redact_url_step(s, pat, q0);
    lemma_url_value_len_of(v, b);
    assert(s.skip(vs) == v + b);
    assert(s.skip(vs + v.len()) =~= b);
    assert forall|q: int| 0 <= q < b.len() implies b[q] != pat[0] by {}
    lemma_first_char_absent(b, pat);
    lemma_redact_url_stop(b, pat);
    assert(s.take(vs) + redacted() + b =~= url_param_in(a, c, k, redacted(), b));
}

/// Redacting key `kj` in `a?k=vb` (or `a&k=vb`): the parameter's own key
/// replaces its value, any other key changes nothing.
proof fn lemma_url_key_step(a: Seq<char>, c: char, k: Seq<char>, v: Seq<char>, b: Seq<char>, kj: Seq<char>)
    requires
        inert(a),
        url_value(v),
        url_tail(b),
        url_key(k),
        url_key(kj),
        c == '?' || c == '&',
    ensures
        redact_key(url_param_in(a, c, k, v, b), kj) == if kj == k {
            url_param_in(a, c, k, redacted(), b)
        } else {
            url_param_in(a, c, k, v, b)
        },
{
    let s = url_param_in(a, c, k, v, b);
    let t = url_param_in(a, c, k, redacted(), b);
    lemma_redacted_url_value();
    lemma_url_patterns_as_seqs(kj);
    lemma_url_chars(a, c, k, v, b);
    lemma_first_char_absent(s, "\""@ + kj + "\":\""@);
    lemma_first_char_absent(s, "\""@ + kj + "\": \""@);
    lemma_redact_json_stop(s, "\""@ + kj + "\":\""@);
    lemma_redact_json_stop(s, "\""@ + kj + "\": \""@);
    if kj == k {
        if c == '?' {
            lemma_own_url_redacts(a, c, k, v, b);
            lemma_url_spelling_keeps(a, c, k, redacted(), b, '&', k);
        } else {
            lemma_url_spelling_keeps(a, c, k, v, b, '?', k);
            lemma_own_url_redacts(a, c, k, v, b);
        }
    } else {
        lemma_url_spelling_keeps(a, c, k, v, b, '?', kj);
        lemma_url_spelling_keeps(a, c, k, v, b, '&', kj);
    }
}

proof fn lemma_url_keys_fold(a: Seq<char>, c: char, k: Seq<char>, v: Seq<char>, b: Seq<char>, keys: Seq<Seq<char>>, n: int)
    requires
        inert(a),
        url_value(v),
        url_tail(b),
        url_key(k),
        c == '?' || c == '&',
        0 <= n <= keys.len(),
        forall|j: int| 0 <= j < keys.len() ==> url_key(#[trigger] keys[j]),
    ensures
        redact_keys(url_param_in(a, c, k, v, b), keys, n) == if exists|j: int|
            0 <= j < n && #[trigger] keys[j] == k {
            url_param_in(a, c, k, redacted(), b)
        } else {
            url_param_in(a, c, k, v, b)
        },
    decreases n,
{
    if n > 0 {
        lemma_url_keys_fold(a, c, k, v, b, keys, n - 1);
        lemma_redacted_url_value();
        let kj = keys[n - 1];
        assert(url_key(kj));
        lemma_url_key_step(a, c, k, v, b, kj);
        lemma_url_key_step(a, c, k, redacted(), b, kj);
    }
}

proof fn lemma_secret_keys_are_url_keys()
    ensures
        forall|j: int| 0 <= j < secret_keys().len() ==> url_key(#[trigger] secret_keys()[j]),
{
    assert(url_key(secret_keys()[0])) by {
        reveal_strlit("api_key");
        reveal_with_fuel(free_of, 14);
        lemma_field_key_of("api_key"@);
        lemma_free_of("api_key"@, '=');
    }
    assert(url_key(secret_keys()[1])) by {
        reveal_strlit("apiKey");
        reveal_with_fuel(free_of, 14);
        lemma_field_key_of("apiKey"@);
        lemma_free_of("apiKey"@, '=');
    }
    assert(url_key(secret_keys()[2])) by {
        reveal_strlit("api-key");
        reveal_with_fuel(free_of, 14);
        lemma_field_key_of("api-key"@);
        lemma_free_of("api-key"@, '=');
    }
    assert(url_key(secret_keys()[3])) by {
        reveal_strlit("access_token");
        reveal_with_fuel(free_of, 14);
        lemma_field_key_of("access_token"@);
        lemma_free_of("access_token"@, '=');
    }
    assert(url_key(secret_keys()[4])) by {
        reveal_strlit("accessToken");
        reveal_with_fuel(free_of, 14);
        lemma_field_key_of("accessToken"@);
        lemma_free_of("accessToken"@, '=');
    }
    assert(url_key(secret_keys()[5])) by {
        reveal_strlit("refresh_token");
        reveal_with_fuel(free_of, 14);
        lemma_field_key_of("refresh_token"@);
        lemma_free_of("refresh_token"@, '=');
    }
    assert(url_key(secret_keys()[6])) by {
        reveal_strlit("refreshToken");
        reveal_with_fuel(free_of, 14);
        lemma_field_key_of("refreshToken"@);
        lemma_free_of("refreshToken"@, '=');
    }
    assert(url_key(secret_keys()[7])) by {
        reveal_strlit("authorization");
        reveal_with_fuel(free_of, 14);
        lemma_field_key_of("authorization"@);
        lemma_free_of("authorization"@, '=');
    }
    assert(url_key(secret_keys()[8])) by {
        reveal_strlit("Authorization");
        reveal_with_fuel(free_of, 14);
        lemma_field_key_of("Authorization"@);
        lemma_free_of("Authorization"@, '=');
    }
    assert(url_key(secret_keys()[9])) by {
        reveal_strlit("x-api-key");
        reveal_with_fuel(free_of, 14);
        lemma_field_key_of("x-api-key"@);
        lemma_free_of("x-api-key"@, '=');
    }
    assert(url_key(secret_keys()[10])) by {
        reveal_strlit("bearer");
        reveal_with_fuel(free_of, 14);
        lemma_field_key_of("bearer"@);
        lemma_free_of("bearer"@, '=');
    }
    assert(url_key(secret_keys()[11])) by {
        reveal_strlit("password");
        reveal_with_fuel(free_of, 14);
        lemma_field_key_of("password"@);
        lemma_free_of("password"@, '=');
    }
    assert(url_key(secret_keys()[12])) by {
        reveal_strlit("secret");
        reveal_with_fuel(free_of, 14);
        lemma_field_key_of("secret"@);
        lemma_free_of("secret"@, '=');
    }
    assert forall|j: int| 0 <= j < secret_keys().len() implies url_key(#[trigger] secret_keys()[j]) by {
        assert(secret_keys().len() == 13);
    }
}

/// Secrets in URLs never reach the log: in any text `a?k=vb` or `a&k=vb`
/// whose key `k` is one of the secret keys (`api_key`, `apiKey`, `api-key`,
/// `access_token`, `accessToken`, `refresh_token`, `refreshToken`,
/// `authorization`, `Authorization`, `x-api-key`, `bearer`, `password`,
/// `secret`), where `a` holds no `"`, `?` or `&`, the value `v` holds none of
/// them nor a space or newline, and `b` is empty or starts with a space or a
/// newline and holds no `"`, `?` or `&`, the value is replaced by
/// `[REDACTED]` and the rest of the text is kept.
pub proof fn lemma_secret_url_values_redacted(a: Seq<char>, c: char, k: Seq<char>, v: Seq<char>, b: Seq<char>)
    requires
        k == "api_key"@
            || k == "apiKey"@
            || k == "api-key"@
            || k == "access_token"@
            || k == "accessToken"@
            || k == "refresh_token"@
            || k == "refreshToken"@
            || k == "authorization"@
            || k == "Authorization"@
            || k == "x-api-key"@
            || k == "bearer"@
            || k == "password"@
            || k == "secret"@,
        c == '?' || c == '&',
        inert(a),
        url_value(v),
        url_tail(b),
    ensures
        redacted_text(url_param_in(a, c, k, v, b)) == url_param_in(a, c, k, "[REDACTED]"@, b),
{
    let keys = secret_keys();
    lemma_secret_keys_are_url_keys();
    assert(exists|j: int| 0 <= j < keys.len() && #[trigger] keys[j] == k) by {
        if k == "api_key"@ {
            assert(keys[0] == k);
        } else if k == "apiKey"@ {
            assert(keys[1] == k);
        } else if k == "api-key"@ {
            assert(keys[2] == k);
        } else if k == "access_token"@ {
            assert(keys[3] == k);
        } else if k == "accessToken"@ {
            assert(keys[4] == k);
        } else if k == "refresh_token"@ {
            assert(keys[5] == k);
        } else if k == "refreshToken"@ {
            assert(keys[6] == k);
        } else if k == "authorization"@ {
            assert(keys[7] == k);
        } else if k == "Authorization"@ {
            assert(keys[8] == k);
        } else if k == "x-api-key"@ {
            assert(keys[9] == k);
        } else if k == "bearer"@ {
            assert(keys[10] == k);
        } else if k == "password"@ {
            assert(keys[11] == k);
        } else if k == "secret"@ {
            assert(keys[12] == k);
        } else {
        }
    }
    let j = choose|j: int| 0 <= j < keys.len() && #[trigger] keys[j] == k;
    assert(url_key(keys[j]));
    lemma_url_keys_fold(a, c, k, v, b, keys, keys.len() as int);
}

fn index_of_exec(s: &[char], c: char) -> (r: Option<usize>)
    ensures
        match r {
            Some(i) => index_of(s@, c) == Some(i as int) && i < s@.len(),
            None => index_of(s@, c) is None,
        },
{
    let mut i: usize = 0;
    while i < s.len()
        invariant
            i <= s@.len(),
            forall|j: int| 0 <= j < i ==> s@[j] != c,
        decreases s@.len() - i,
    {
        if s[i] == c {
            let ghost w = choose|k: int|
                0 <= k < s@.len() && s@[k] == c && forall|j: int| 0 <= j < k ==> s@[j] != c;
            assert(0 <= i < s@.len() && s@[i as int] == c && forall|j: int|
                0 <= j < i ==> s@[j] != c);
            assert(w == i) by {
                if w < i {
                } else if w > i {
                }
            }
            return Some(i);
        }
        i += 1;
    }
    None
}

fn url_value_len_exec(s: &[char]) -> (r: usize)
    ensures
        r == url_value_len(s@),
        r <= s@.len(),
{
    proof {
        lemma_url_value_len(s@);
    }
    let mut i: usize = 0;
    while i < s.len() && !(s[i] == '&' || s[i] == ' ' || s[i] == '"' || s[i] == '\n')
        invariant
            i <= s@.len(),
            i <= url_value_len(s@),
            url_value_len(s@) <= s@.len(),
            forall|j: int| 0 <= j < url_value_len(s@) ==> !url_value_end(#[trigger] s@[j]),
            url_value_len(s@) < s@.len() ==> url_value_end(s@[url_value_len(s@) as int]),
        decreases s@.len() - i,
    {
        i += 1;
    }
    i
}

fn redact_json_exec(s: &[char], pat: &[char]) -> (r: Vec<char>)
    requires
        pat@.len() > 0,
    ensures
        r@ == redact_json(s@, pat@),
{
    let mut rest: Vec<char> = slice_of(s, 0, s.len());
    assert(rest@ =~= s@);
    let mut out: Vec<char> = Vec::new();
    loop
        invariant
            pat@.len() > 0,
            out@ + redact_json(rest@, pat@) == redact_json(s@, pat@),
        decreases rest@.len(),
    {
        let ghost r0 = rest@;
        match find_exec(rest.as_slice(), pat) {
            Some(i) => {
                let n = rest.len();
                let vs = i + pat.len();
                assert(vs <= n);
                let after = slice_of(rest.as_slice(), vs, n);
                assert(after@ =~= r0.skip(vs as int));
                match index_of_exec(after.as_slice(), '"') {
                    Some(e) => {
                        proof {
                            lemma_redact_json_step(r0, pat@, i as int, e as int);
                        }
                        let head = slice_of(rest.as_slice(), 0, vs);
                        assert(head@ =~= r0.take(vs as int));
                        let tail = slice_of(rest.as_slice(), vs + e, n);
                        assert(tail@ =~= r0.skip(vs + e));
                        let ghost o0 = out@;
                        let ghost x = redact_json(tail@, pat@);
                        extend_chars(&mut out, head.as_slice());
                        extend_str(&mut out, "[REDACTED]");
                        assert(out@ + x =~= o0 + (head@ + redacted() + x));
                        rest = tail;
                    },
                    None => {
                        proof {
                            lemma_redact_json_stop(r0, pat@);
                        }
                        extend_chars(&mut out, rest.as_slice());
                        return out;
                    },
                }
            },
            None => {
                proof {
                    lemma_redact_json_stop(r0, pat@);
                }
                extend_chars(&mut out, rest.as_slice());
                return out;
            },
        }
    }
}

fn redact_url_exec(s: &[char], pat: &[char]) -> (r: Vec<char>)
    requires
        pat@.len() > 0,
    ensures
        r@ == redact_url(s@, pat@),
{
    let mut rest: Vec<char> = slice_of(s, 0, s.len());
    assert(rest@ =~= s@);
    let mut out: Vec<char> = Vec::new();
    loop
        invariant
            pat@.len() > 0,
            out@ + redact_url(rest@, pat@) == redact_url(s@, pat@),
        decreases rest@.len(),
    {
        let ghost r0 = rest@;
        match find_exec(rest.as_slice(), pat) {
            Some(i) => {
                let n = rest.len();
                let vs = i + pat.len();
                assert(vs <= n);
                let after = slice_of(rest.as_slice(), vs, n);
                assert(after@ =~= r0.skip(vs as int));
                let e = url_value_len_exec(after.as_slice());
                proof {
                    lemma_redact_url_step(r0, pat@, i as int);
                }
                let head = slice_of(rest.as_slice(), 0, vs);
                assert(head@ =~= r0.take(vs as int));
                let tail = slice_of(rest.as_slice(), vs + e, n);
                assert(tail@ =~= r0.skip(vs + e));
                let ghost o0 = out@;
                let ghost x = redact_url(tail@, pat@);
                extend_chars(&mut out, head.as_slice());
                extend_str(&mut out, "[REDACTED]");
                assert(out@ + x =~= o0 + (head@ + redacted() + x));
                rest = tail;
            },
            None => {
                proof {
                    lemma_redact_url_stop(r0, pat@);
                }
                extend_chars(&mut out, rest.as_slice());
                return out;
            },
        }
    }
}

fn pattern(a: &str, key: &str, b: &str) -> (r: Vec<char>)
    ensures
        r@ == a@ + key@ + b@,
{
    let mut out: Vec<char> = Vec::new();
    extend_str(&mut out, a);
    extend_str(&mut out, key);
    extend_str(&mut out, b);
    out
}

fn redact_key_exec(s: &[char], key: &str) -> (r: Vec<char>)
    ensures
        r@ == redact_key(s@, key@),
{
    proof {
        reveal_strlit("\"");
        reveal_strlit("?");
        reveal_strlit("&");
    }
    let p1 = pattern("\"", key, "\":\"");
    let a = redact_json_exec(s, p1.as_slice());
    let p2 = pattern("\"", key, "\": \"");
    let b = redact_json_exec(a.as_slice(), p2.as_slice());
    let p3 = pattern("?", key, "=");
    let c = redact_url_exec(b.as_slice(), p3.as_slice());
    let p4 = pattern("&", key, "=");
    redact_url_exec(c.as_slice(), p4.as_slice())
}

/// Redacts secret values from text about to be logged (see `redacted_text`).
pub fn redact_sensitive(input: &str) -> (r: String)
    ensures
        r@ == redacted_text(input@),
{
    let mut keys: Vec<&str> = Vec::new();
    keys.push("api_key");
    keys.push("apiKey");
    keys.push("api-key");
    keys.push("access_token");
    keys.push("accessToken");
    keys.push("refresh_token");
    keys.push("refreshToken");
    keys.push("authorization");
    keys.push("Authorization");
    keys.push("x-api-key");
    keys.push("bearer");
    keys.push("password");
    keys.push("secret");
    let ghost kv = keys@.map_values(|k: &str| k@);
    assert(kv =~= secret_keys());
    let mut cur = chars_of(input);
    let mut i: usize = 0;
    while i < keys.len()
        invariant
            i <= keys@.len(),
            kv == keys@.map_values(|k: &str| k@),
            kv == secret_keys(),
            cur@ == redact_keys(input@, kv, i as int),
        decreases keys@.len() - i,
    {
        cur = redact_key_exec(cur.as_slice(), keys[i]);
        i += 1;
    }
    string_of(cur.as_slice())
}

// ───────────────────────────── queries ─────────────────────────────

/// One condition of a log query: its SQL text and the values bound to its `?`s.
pub type QueryPart = (Seq<char>, Seq<Seq<char>>);

/// `?` placeholders for `n` values, separated by commas.
pub open spec fn qmarks(n: nat) -> Seq<char> {
    join(Seq::new(n, |i: int| "?"@), ","@)
}

/// `col IN (?, …)` over the values of a non-empty list; nothing for an
/// absent or empty list.
pub open spec fn list_part(col: Seq<char>, vals: Option<Vec<String>>) -> Seq<QueryPart> {
    if vals is Some && vals->0@.len() > 0 {
        seq![(col + " IN ("@ + qmarks(vals->0@.len()) + ")"@, strs_of(vals->0@))]
    } else {
        seq![]
    }
}

/// `clause` bound to `arg` applied to a non-empty value; nothing otherwise.
pub open spec fn value_part(clause: Seq<char>, val: Option<String>, arg: spec_fn(Seq<char>) -> Seq<char>) -> Seq<QueryPart> {
    if val is Some && val->0@.len() > 0 {
        seq![(clause, seq![arg(val->0@)])]
    } else {
        seq![]
    }
}

/// The conditions a filter puts on log records, in order: levels,
/// categories, keyword (a substring of the message), session, first and last time.
pub open spec fn filter_parts(f: LogFilter) -> Seq<QueryPart> {
    list_part("level"@, f.levels) + list_part("category"@, f.categories) + value_part(
        "message LIKE ?"@,
        f.keyword,
        |k: Seq<char>| "%"@ + k + "%"@,
    ) + value_part("session_id = ?"@, f.session_id, |v: Seq<char>| v) + value_part(
        "timestamp >= ?"@,
        f.start_time,
        |v: Seq<char>| v,
    ) + value_part("timestamp <= ?"@, f.end_time, |v: Seq<char>| v)
}

/// The values bound by the parts, in order.
pub open spec fn part_params(ps: Seq<QueryPart>) -> Seq<Seq<char>>
    decreases ps.len(),
{
    if ps.len() == 0 {
        seq![]
    } else {
        part_params(ps.drop_last()) + ps.last().1
    }
}

/// `WHERE` and the conditions joined by ` AND `, or nothing when there is none.
pub open spec fn where_sql(ps: Seq<QueryPart>) -> Seq<char> {
    if ps.len() == 0 {
        seq![]
    } else {
        "WHERE "@ + join(ps.map_values(|p: QueryPart| p.0), " AND "@)
    }
}

/// A part binds one value per `?` of its text.
pub open spec fn part_ok(p: QueryPart) -> bool {
    crate::text::marks(p.0) == p.1.len()
}

pub open spec fn parts_ok(ps: Seq<QueryPart>) -> bool {
    forall|i: int| 0 <= i < ps.len() ==> part_ok(#[trigger] ps[i])
}

proof fn lemma_where_marks(ps: Seq<QueryPart>)
    requires
        parts_ok(ps),
    ensures
        crate::text::marks(join(ps.map_values(|p: QueryPart| p.0), " AND "@)) == part_params(ps).len(),
    decreases ps.len(),
{
    reveal_strlit(" AND ");
    let m = ps.map_values(|p: QueryPart| p.0);
    if ps.len() == 0 {
        assert(crate::text::marks(Seq::<char>::empty()) == 0);
    } else if ps.len() == 1 {
        assert(part_ok(ps[0]));
        assert(ps.drop_last() =~= Seq::<QueryPart>::empty());
        assert(part_params(ps.drop_last()) =~= Seq::<Seq<char>>::empty());
    } else {
        let init = ps.drop_last();
        assert(m.drop_last() =~= init.map_values(|p: QueryPart| p.0));
        assert forall|i: int| 0 <= i < init.len() implies part_ok(#[trigger] init[i]) by {
            assert(init[i] == ps[i]);
        }
        lemma_where_marks(init);
        assert(part_ok(ps[ps.len() - 1]));
        let sep = " AND "@;
        assert forall|i: int| 0 <= i < sep.len() implies sep[i] != '?' by {}
        crate::text::lemma_no_marks(sep);
        crate::text::lemma_marks_concat(join(m.drop_last(), sep), sep);
        crate::text::lemma_marks_concat(join(m.drop_last(), sep) + sep, m.last());
    }
}

proof fn lemma_parts_concat(a: Seq<QueryPart>, b: Seq<QueryPart>)
    requires
        parts_ok(a),
        parts_ok(b),
    ensures
        parts_ok(a + b),
{
    assert forall|i: int| 0 <= i < (a + b).len() implies part_ok(#[trigger] (a + b)[i]) by {
        if i < a.len() {
            assert((a + b)[i] == a[i]);
        } else {
            assert((a + b)[i] == b[i - a.len()]);
        }
    }
}

proof fn lemma_list_part_ok(col: Seq<char>, vals: Option<Vec<String>>)
    requires
        forall|i: int| 0 <= i < col.len() ==> col[i] != '?',
    ensures
        parts_ok(list_part(col, vals)),
{
    if vals is Some && vals->0@.len() > 0 {
        reveal_strlit(" IN (");
        reveal_strlit(")");
        reveal_strlit(",");
        let n = vals->0@.len();
        let open_ = " IN ("@;
        assert forall|i: int| 0 <= i < open_.len() implies open_[i] != '?' by {}
        assert forall|i: int| 0 <= i < ")"@.len() implies ")"@[i] != '?' by {}
        assert forall|i: int| 0 <= i < ","@.len() implies ","@[i] != '?' by {}
        crate::text::lemma_no_marks(col);
        crate::text::lemma_no_marks(open_);
        crate::text::lemma_no_marks(")"@);
        crate::text::lemma_no_marks(","@);
        crate::memory_sql::lemma_placeholder_marks(n, ","@);
        assert(qmarks(n) == crate::memory_sql::placeholders(n, ","@));
        crate::text::lemma_marks_concat(col, open_);
        crate::text::lemma_marks_concat(col + open_, qmarks(n));
        crate::text::lemma_marks_concat(col + open_ + qmarks(n), ")"@);
        let p = list_part(col, vals)[0];
        assert(part_ok(p));
    }
}

proof fn lemma_value_part_ok(clause: Seq<char>, val: Option<String>, arg: spec_fn(Seq<char>) -> Seq<char>)
    requires
        clause.len() > 0,
        clause.last() == '?',
        forall|i: int| 0 <= i < clause.len() - 1 ==> clause[i] != '?',
    ensures
        parts_ok(value_part(clause, val, arg)),
{
    crate::text::lemma_one_mark(clause, clause.len() - 1);
}

/// Every `?` of a log query has its value and every value its `?`: the count
/// holds as many marks as the filter binds values, and the page two more, for
/// the limit and the offset.
pub proof fn lemma_log_query_marks(f: LogFilter)
    ensures
        crate::text::marks("SELECT COUNT(*) FROM logs "@ + where_sql(filter_parts(f))) == part_params(filter_parts(f)).len(),
        crate::text::marks(page_select(where_sql(filter_parts(f)))) == part_params(filter_parts(f)).len() + 2,
{
    reveal_strlit("level");
    reveal_strlit("category");
    reveal_strlit("message LIKE ?");
    reveal_strlit("session_id = ?");
    reveal_strlit("timestamp >= ?");
    reveal_strlit("timestamp <= ?");
    assert forall|i: int| 0 <= i < "level"@.len() implies "level"@[i] != '?' by {}
    assert forall|i: int| 0 <= i < "category"@.len() implies "category"@[i] != '?' by {}
    lemma_list_part_ok("level"@, f.levels);
    lemma_list_part_ok("category"@, f.categories);
    lemma_value_part_ok("message LIKE ?"@, f.keyword, |k: Seq<char>| "%"@ + k + "%"@);
    lemma_value_part_ok("session_id = ?"@, f.session_id, |v: Seq<char>| v);
    lemma_value_part_ok("timestamp >= ?"@, f.start_time, |v: Seq<char>| v);
    lemma_value_part_ok("timestamp <= ?"@, f.end_time, |v: Seq<char>| v);
    let a = list_part("level"@, f.levels);
    let b = list_part("category"@, f.categories);
    let c = value_part("message LIKE ?"@, f.keyword, |k: Seq<char>| "%"@ + k + "%"@);
    let d = value_part("session_id = ?"@, f.session_id, |v: Seq<char>| v);
    let e = value_part("timestamp >= ?"@, f.start_time, |v: Seq<char>| v);
    let g = value_part("timestamp <= ?"@, f.end_time, |v: Seq<char>| v);
    lemma_parts_concat(a, b);
    lemma_parts_concat(a + b, c);
    lemma_parts_concat(a + b + c, d);
    lemma_parts_concat(a + b + c + d, e);
    lemma_parts_concat(a + b + c + d + e, g);
    let ps = filter_parts(f);
    assert(ps == a + b + c + d + e + g);
    lemma_where_marks(ps);
    let w = where_sql(ps);
    reveal_strlit("WHERE ");
    reveal_strlit("SELECT COUNT(*) FROM logs ");
    reveal_strlit("SELECT id, timestamp, level, category, source, message, details, session_id, agent_id\n             FROM logs ");
    reveal_strlit(" ORDER BY id DESC LIMIT ? OFFSET ?");
    let wh = "WHERE "@;
    assert forall|i: int| 0 <= i < wh.len() implies wh[i] != '?' by {}
    crate::text::lemma_no_marks(wh);
    if ps.len() == 0 {
        assert(part_params(ps) =~= Seq::<Seq<char>>::empty());
        assert(crate::text::marks(Seq::<char>::empty()) == 0);
    } else {
        crate::text::lemma_marks_concat(wh, join(ps.map_values(|p: QueryPart| p.0), " AND "@));
    }
    let c1 = "SELECT COUNT(*) FROM logs "@;
    assert forall|i: int| 0 <= i < c1.len() implies c1[i] != '?' by {}
    crate::text::lemma_no_marks(c1);
    crate::text::lemma_marks_concat(c1, w);
    let p1 = "SELECT id, timestamp, level, category, source, message, details, session_id, agent_id\n             FROM logs "@;
    let p2 = " ORDER BY id DESC LIMIT ? OFFSET ?"@;
    assert forall|i: int| 0 <= i < p1.len() implies p1[i] != '?' by {}
    crate::text::lemma_no_marks(p1);
    let l = p2.len() as int;
    let t1 = p2.take(l - 9);
    let t2 = p2.skip(l - 9);
    assert forall|i: int| 0 <= i < t1.len() && i != l - 10 implies t1[i] != '?' by {}
    crate::text::lemma_one_mark(t1, l - 10);
    assert forall|i: int| 0 <= i < t2.len() && i != 8 implies t2[i] != '?' by {}
    crate::text::lemma_one_mark(t2, 8);
    crate::text::lemma_marks_split(p2, l - 9);
    crate::text::lemma_marks_concat(p1, w);
    crate::text::lemma_marks_concat(p1 + w, p2);
}

/// The SQL of one page of a log query and of its count, and their values.
#[derive(Debug, Clone)]
pub struct LogQuery {
    /// Counts the matching records.
    pub count_sql: String,
    /// Selects one page of them, newest first; its last two `?`s are `limit` and `offset`.
    pub page_sql: String,
    /// Values for the filter's `?`s, in order (both statements).
    pub params: Vec<String>,
    pub limit: i64,
    pub offset: i64,
}

pub open spec fn page_select(w: Seq<char>) -> Seq<char> {
    "SELECT id, timestamp, level, category, source, message, details, session_id, agent_id\n             FROM logs "@
        + w + " ORDER BY id DESC LIMIT ? OFFSET ?"@
}

pub open spec fn page_offset(page: u32, page_size: u32) -> int {
    if page == 0 {
        0
    } else {
        (page - 1) * page_size
    }
}

fn add_part(
    clauses: &mut Vec<Vec<char>>,
    params: &mut Vec<String>,
    parts: Ghost<Seq<QueryPart>>,
    clause: Vec<char>,
    vals: Vec<String>,
) -> (r: Ghost<Seq<QueryPart>>)
    requires
        seqs_of(old(clauses)@) == parts@.map_values(|p: QueryPart| p.0),
        strs_of(old(params)@) == part_params(parts@),
    ensures
        r@ == parts@.push((clause@, strs_of(vals@))),
        seqs_of(final(clauses)@) == r@.map_values(|p: QueryPart| p.0),
        strs_of(final(params)@) == part_params(r@),
{
    let ghost np = parts@.push((clause@, strs_of(vals@)));
    assert(np.drop_last() =~= parts@);
    crate::text::push_all(params, vals);
    let ghost c0 = seqs_of(clauses@);
    let ghost cl = clause@;
    clauses.push(clause);
    assert(seqs_of(clauses@) =~= c0.push(cl));
    assert(np.map_values(|p: QueryPart| p.0) =~= parts@.map_values(|p: QueryPart| p.0).push(cl));
    Ghost(np)
}

fn qmarks_exec(n: usize) -> (r: Vec<char>)
    ensures
        r@ == qmarks(n as nat),
{
    let mut pieces: Vec<Vec<char>> = Vec::new();
    let mut i: usize = 0;
    while i < n
        invariant
            i <= n,
            seqs_of(pieces@) == Seq::new(i as nat, |j: int| "?"@),
        decreases n - i,
    {
        let ghost p0 = seqs_of(pieces@);
        pieces.push(chars_of("?"));
        assert(seqs_of(pieces@) =~= p0.push("?"@));
        assert(seqs_of(pieces@) =~= Seq::new((i + 1) as nat, |j: int| "?"@));
        i += 1;
    }
    assert(seqs_of(pieces@).take(n as int) =~= seqs_of(pieces@));
    join_prefix(&pieces, n, ",")
}

fn list_clause(
    clauses: &mut Vec<Vec<char>>,
    params: &mut Vec<String>,
    parts: Ghost<Seq<QueryPart>>,
    col: &str,
    vals: &Option<Vec<String>>,
) -> (r: Ghost<Seq<QueryPart>>)
    requires
        seqs_of(old(clauses)@) == parts@.map_values(|p: QueryPart| p.0),
        strs_of(old(params)@) == part_params(parts@),
    ensures
        r@ == parts@ + list_part(col@, *vals),
        seqs_of(final(clauses)@) == r@.map_values(|p: QueryPart| p.0),
        strs_of(final(params)@) == part_params(r@),
{
    match vals {
        Some(v) => {
            if v.len() > 0 {
                let mut c = chars_of(col);
                extend_str(&mut c, " IN (");
                let q = qmarks_exec(v.len());
                extend_chars(&mut c, q.as_slice());
                extend_str(&mut c, ")");
                let r = add_part(clauses, params, parts, c, crate::text::copy_strings(v));
                assert(r@ =~= parts@ + list_part(col@, *vals));
                r
            } else {
                assert(parts@ + list_part(col@, *vals) =~= parts@);
                parts
            }
        },
        None => {
            assert(parts@ + list_part(col@, *vals) =~= parts@);
            parts
        },
    }
}

/// The SQL that selects page `page` (counted from 1; 0 reads as 1) of
/// `page_size` log records matching `filter`, and the SQL that counts them.
pub fn build_log_query(filter: &LogFilter, page: u32, page_size: u32) -> (r: LogQuery)
    requires
        page_offset(page, page_size) <= u32::MAX,
    ensures
        r.count_sql@ == "SELECT COUNT(*) FROM logs "@ + where_sql(filter_parts(*filter)),
        r.page_sql@ == page_select(where_sql(filter_parts(*filter))),
        strs_of(r.params@) == part_params(filter_parts(*filter)),
        r.limit == page_size,
        r.offset == page_offset(page, page_size),
{
    let mut clauses: Vec<Vec<char>> = Vec::new();
    let mut params: Vec<String> = Vec::new();
    let ghost f = *filter;
    let parts: Ghost<Seq<QueryPart>> = Ghost(Seq::empty());
    assert(seqs_of(clauses@) =~= parts@.map_values(|p: QueryPart| p.0));
    assert(strs_of(params@) =~= part_params(parts@));
    let parts = list_clause(&mut clauses, &mut params, parts, "level", &filter.levels);
    let parts = list_clause(&mut clauses, &mut params, parts, "category", &filter.categories);
    let ghost after_lists = parts@;
    let parts = match &filter.keyword {
        Some(k) => {
            if !k.as_str().is_empty() {
                let mut v = chars_of("%");
                extend_str(&mut v, k.as_str());
                extend_str(&mut v, "%");
                let mut vals: Vec<String> = Vec::new();
                vals.push(string_of(v.as_slice()));
                assert(strs_of(vals@) =~= seq![v@]);
                add_part(&mut clauses, &mut params, parts, chars_of("message LIKE ?"), vals)
            } else {
                parts
            }
        },
        None => parts,
    };
    assert(parts@ =~= after_lists + value_part("message LIKE ?"@, f.keyword, |k: Seq<char>| "%"@ + k + "%"@));
    let parts = value_clause(&mut clauses, &mut params, parts, "session_id = ?", &filter.session_id);
    let parts = value_clause(&mut clauses, &mut params, parts, "timestamp >= ?", &filter.start_time);
    let parts = value_clause(&mut clauses, &mut params, parts, "timestamp <= ?", &filter.end_time);
    assert(parts@ =~= filter_parts(f));
    let mut w: Vec<char> = Vec::new();
    if clauses.len() > 0 {
        w = chars_of("WHERE ");
        let j = join_prefix(&clauses, clauses.len(), " AND ");
        assert(seqs_of(clauses@).take(clauses@.len() as int) =~= seqs_of(clauses@));
        extend_chars(&mut w, j.as_slice());
    } else {
        assert(w@ =~= where_sql(parts@));
    }
    let mut count = chars_of("SELECT COUNT(*) FROM logs ");
    extend_chars(&mut count, w.as_slice());
    let mut sel = chars_of(
        "SELECT id, timestamp, level, category, source, message, details, session_id, agent_id\n             FROM logs ",
    );
    extend_chars(&mut sel, w.as_slice());
    extend_str(&mut sel, " ORDER BY id DESC LIMIT ? OFFSET ?");
    let before = page.saturating_sub(1);
    let offset = before * page_size;
    LogQuery {
        count_sql: string_of(count.as_slice()),
        page_sql: string_of(sel.as_slice()),
        params,
        limit: page_size as i64,
        offset: offset as i64,
    }
}

fn value_clause(
    clauses: &mut Vec<Vec<char>>,
    params: &mut Vec<String>,
    parts: Ghost<Seq<QueryPart>>,
    clause: &str,
    val: &Option<String>,
) -> (r: Ghost<Seq<QueryPart>>)
    requires
        seqs_of(old(clauses)@) == parts@.map_values(|p: QueryPart| p.0),
        strs_of(old(params)@) == part_params(parts@),
    ensures
        r@ == parts@ + value_part(clause@, *val, |v: Seq<char>| v),
        seqs_of(final(clauses)@) == r@.map_values(|p: QueryPart| p.0),
        strs_of(final(params)@) == part_params(r@),
{
    match val {
        Some(v) => {
            if !v.as_str().is_empty() {
                let mut vals: Vec<String> = Vec::new();
                vals.push(string_of(chars_of(v.as_str()).as_slice()));
                assert(strs_of(vals@) =~= seq![v@]);
                let r = add_part(clauses, params, parts, chars_of(clause), vals);
                assert(r@ =~= parts@ + value_part(clause@, *val, |v: Seq<char>| v));
                r
            } else {
                assert(parts@ + value_part(clause@, *val, |v: Seq<char>| v) =~= parts@);
                parts
            }
        },
        None => {
            assert(parts@ + value_part(clause@, *val, |v: Seq<char>| v) =~= parts@);
            parts
        },
    }
}

// ───────────────────────────── log files ─────────────────────────────

/// The uppercase form of a string as `str::to_uppercase` computes it (Unicode
/// `Uppercase` mapping).
pub uninterp spec fn uppercase(s: Seq<char>) -> Seq<char>;

/// `str::to_uppercase`: the result is the Unicode uppercase mapping of `s`;
/// which mapping that is stays unsaid here, it is named by `uppercase`.
#[verifier::external_body]
fn to_uppercase(s: &str) -> (r: String)
    ensures
        r@ == uppercase(s@),
{
    s.to_uppercase()
}

/// A record as a line of a log file:
/// `[timestamp] LEVEL [category] source — message | details`.
pub open spec fn log_line_of(e: PendingLog) -> Seq<char> {
    "["@ + e.timestamp@ + "] "@ + uppercase(e.level@) + " ["@ + e.category@ + "] "@ + e.source@
        + " \u{2014} "@ + e.message@ + (match e.details {
        Some(d) => " | "@ + d@,
        None => seq![],
    }) + "\n"@
}

/// The line a record adds to a log file (see `log_line_of`).
pub fn log_line(e: &PendingLog) -> (r: String)
    ensures
        r@ == log_line_of(*e),
{
    let mut v = chars_of("[");
    extend_str(&mut v, e.timestamp.as_str());
    extend_str(&mut v, "] ");
    let up = to_uppercase(e.level.as_str());
    extend_str(&mut v, up.as_str());
    extend_str(&mut v, " [");
    extend_str(&mut v, e.category.as_str());
    extend_str(&mut v, "] ");
    extend_str(&mut v, e.source.as_str());
    extend_str(&mut v, " \u{2014} ");
    extend_str(&mut v, e.message.as_str());
    match &e.details {
        Some(d) => {
            extend_str(&mut v, " | ");
            extend_str(&mut v, d.as_str());
        },
        None => {
            assert(v@ + Seq::<char>::empty() =~= v@);
        },
    }
    extend_str(&mut v, "\n");
    string_of(v.as_slice())
}

impl LogConfig {
    /// Whether a record at `level` is kept: logging is on and the level is at
    /// most as detailed as the configured one.
    pub fn admits(&self, level: &str) -> (r: bool)
        ensures
            r == (self.enabled && level_rank(level@) <= level_rank(self.level@)),
    {
        self.enabled && should_log(level, self.level.as_str())
    }
}

/// The size in bytes at which a log file rotates, from its setting in megabytes.
pub fn file_max_bytes(max_size_mb: u32) -> (r: u64)
    ensures
        r == max_size_mb * 1048576,
{
    (max_size_mb as u64) * 1024 * 1024
}

/// The first ten bytes of a timestamp fall on a character boundary.
pub open spec fn date_cut_ok(ts: Seq<char>) -> bool {
    blen(ts.take(fit_len(ts, 10) as int)) == 10
}

/// The date of an RFC 3339 timestamp: its first ten bytes.
pub fn log_date(timestamp: &str) -> (r: String)
    requires
        date_cut_ok(timestamp@),
    ensures
        r@ == timestamp@.take(fit_len(timestamp@, 10) as int),
        blen(r@) == 10,
{
    truncate_utf8(timestamp, 10)
}

/// A record dated `date` goes to a new file: the date changed, or the open
/// file reached its size limit.
pub fn needs_new_file(date: &str, current_date: &str, current_size: u64, max_bytes: u64) -> (r: bool)
    ensures
        r == (date@ != current_date@ || current_size >= max_bytes),
{
    !str_eq(date, current_date) || current_size >= max_bytes
}

/// `opencomputer-<date>.<n>.log`: the `n`th extra file of a day.
pub open spec fn numbered_log_name(date: Seq<char>, n: nat) -> Seq<char> {
    "opencomputer-"@ + date + "."@ + dec(n) + ".log"@
}

/// Scanning the extra files of a day from the `k`th (counted from 0), whose
/// sizes are `sizes` (`None` when the file does not exist; beyond the list no
/// file exists): the first that does not exist or is below `max_bytes`, and
/// its size.
pub open spec fn pick_numbered(date: Seq<char>, max_bytes: u64, sizes: Seq<Option<u64>>, k: nat) -> (
    Seq<char>,
    u64,
)
    decreases sizes.len() - k,
{
    if k >= sizes.len() {
        (numbered_log_name(date, k + 1), 0)
    } else {
        match sizes[k as int] {
            None => (numbered_log_name(date, k + 1), 0),
            Some(sz) => if sz < max_bytes {
                (numbered_log_name(date, k + 1), sz)
            } else {
                pick_numbered(date, max_bytes, sizes, k + 1)
            },
        }
    }
}

/// The file a day's records go to, and its size: the day's file unless it
/// reached `max_bytes` (`base` is its size, `None` when it does not exist);
/// then the first extra file that does not exist or is below the limit.
pub open spec fn pick_log_file_of(
    date: Seq<char>,
    max_bytes: u64,
    base: Option<u64>,
    sizes: Seq<Option<u64>>,
) -> (Seq<char>, u64) {
    match base {
        None => ("opencomputer-"@ + date + ".log"@, 0),
        Some(sz) => if sz < max_bytes {
            ("opencomputer-"@ + date + ".log"@, sz)
        } else {
            pick_numbered(date, max_bytes, sizes, 0)
        },
    }
}

/// The name of the `n`th extra log file of a day (see `numbered_log_name`).
pub fn numbered_log_file_name(date: &str, n: u64) -> (r: String)
    ensures
        r@ == numbered_log_name(date@, n as nat),
{
    let mut v = chars_of("opencomputer-");
    extend_str(&mut v, date);
    extend_str(&mut v, ".");
    let d = crate::text::dec_exec(n);
    extend_chars(&mut v, d.as_slice());
    extend_str(&mut v, ".log");
    string_of(v.as_slice())
}

/// Chooses the file for a day's records (see `pick_log_file_of`).
pub fn pick_log_file(date: &str, max_bytes: u64, base: Option<u64>, sizes: &Vec<Option<u64>>) -> (r: (
    String,
    u64,
))
    requires
        sizes@.len() < usize::MAX,
    ensures
        (r.0@, r.1) == pick_log_file_of(date@, max_bytes, base, sizes@),
{
    match base {
        None => (log_file_name(date), 0),
        Some(sz) => {
            if sz < max_bytes {
                return (log_file_name(date), sz);
            }
            let mut k: usize = 0;
            while k < sizes.len()
                invariant
                    k <= sizes@.len() < usize::MAX,
                    pick_log_file_of(date@, max_bytes, base, sizes@) == pick_numbered(
                        date@,
                        max_bytes,
                        sizes@,
                        0,
                    ),
                    pick_numbered(date@, max_bytes, sizes@, k as nat) == pick_numbered(
                        date@,
                        max_bytes,
                        sizes@,
                        0,
                    ),
                decreases sizes@.len() - k,
            {
                match sizes[k] {
                    None => {
                        return (numbered_log_file_name(date, (k + 1) as u64), 0);
                    },
                    Some(s) => {
                        if s < max_bytes {
                            return (numbered_log_file_name(date, (k + 1) as u64), s);
                        }
                    },
                }
                k += 1;
            }
            (numbered_log_file_name(date, (k + 1) as u64), 0)
        },
    }
}

/// The date part of a log file name cuts on a character boundary: the name
/// does not start with `opencomputer-`, or what follows is at most ten bytes
/// long or has a boundary after ten bytes.
pub open spec fn name_cut_ok(name: Seq<char>) -> bool {
    match strip_prefix(name, "opencomputer-"@) {
        Some(r) => blen(r) <= 10 || blen(r.take(fit_len(r, 10) as int)) == 10,
        None => true,
    }
}

/// A log file of a day before `cutoff` (`YYYY-MM-DD`): its name starts with
/// `opencomputer-` and the (up to) ten bytes that follow sort before `cutoff`.
pub open spec fn expired_log_name(name: Seq<char>, cutoff: Seq<char>) -> bool {
    match strip_prefix(name, "opencomputer-"@) {
        Some(r) => seq_lt(r.take(fit_len(r, 10) as int), cutoff),
        None => false,
    }
}

/// Whether the log file `name` is from a day before `cutoff` (see `expired_log_name`).
pub fn is_expired_log_name(name: &str, cutoff: &str) -> (r: bool)
    requires
        name_cut_ok(name@),
    ensures
        r == expired_log_name(name@, cutoff@),
{
    let n = chars_of(name);
    match strip_prefix_str(n.as_slice(), "opencomputer-") {
        Some(rest) => {
            let rs = string_of(rest.as_slice());
            let date = truncate_utf8(rs.as_str(), 10);
            str_lt(date.as_str(), cutoff)
        },
        None => false,
    }
}

/// Where `x` goes among files listed by name, last name first: before the
/// first file whose name sorts before its own.
pub open spec fn file_pos(s: Seq<LogFileInfo>, x: LogFileInfo) -> int
    decreases s.len(),
{
    if s.len() == 0 {
        0
    } else if seq_lt(s[0].name@, x.name@) {
        0
    } else {
        1 + file_pos(s.skip(1), x)
    }
}

/// The files listed by name, last name first (the newest day first), equal
/// names in their first order.
pub open spec fn names_descending(s: Seq<LogFileInfo>) -> Seq<LogFileInfo>
    decreases s.len(),
{
    if s.len() == 0 {
        seq![]
    } else {
        let t = names_descending(s.drop_last());
        t.insert(file_pos(t, s.last()), s.last())
    }
}

proof fn lemma_file_pos(s: Seq<LogFileInfo>, x: LogFileInfo, k: int)
    requires
        0 <= k <= s.len(),
        forall|j: int| 0 <= j < k ==> !seq_lt(#[trigger] s[j].name@, x.name@),
        k == s.len() || seq_lt(s[k].name@, x.name@),
    ensures
        file_pos(s, x) == k,
    decreases k,
{
    if k > 0 {
        assert forall|j: int| 0 <= j < k - 1 implies !seq_lt(#[trigger] s.skip(1)[j].name@, x.name@) by {
            assert(s.skip(1)[j] == s[j + 1]);
        }
        if k < s.len() {
            assert(s.skip(1)[k - 1] == s[k]);
        }
        lemma_file_pos(s.skip(1), x, k - 1);
    }
}

proof fn lemma_file_pos_first(s: Seq<LogFileInfo>, x: LogFileInfo)
    ensures
        0 <= file_pos(s, x) <= s.len(),
        forall|j: int| 0 <= j < file_pos(s, x) ==> !seq_lt(#[trigger] s[j].name@, x.name@),
        file_pos(s, x) < s.len() ==> seq_lt(s[file_pos(s, x)].name@, x.name@),
    decreases s.len(),
{
    if s.len() > 0 && !seq_lt(s[0].name@, x.name@) {
        lemma_file_pos_first(s.skip(1), x);
        assert forall|j: int| 0 <= j < file_pos(s, x) implies !seq_lt(#[trigger] s[j].name@, x.name@) by {
            if j > 0 {
                assert(s[j] == s.skip(1)[j - 1]);
            }
        }
        if file_pos(s, x) < s.len() {
            assert(s[file_pos(s, x)] == s.skip(1)[file_pos(s.skip(1), x)]);
        }
    }
}

/// Log files are listed newest first: no name sorts before a later one's,
/// and no file is lost or added.
pub proof fn lemma_names_descending(s: Seq<LogFileInfo>)
    ensures
        forall|i: int, j: int|
            0 <= i < j < names_descending(s).len() ==> !seq_lt(
                #[trigger] names_descending(s)[i].name@,
                #[trigger] names_descending(s)[j].name@,
            ),
        names_descending(s).len() == s.len(),
        names_descending(s).to_multiset() == s.to_multiset(),
    decreases s.len(),
{
    if s.len() > 0 {
        let d = s.drop_last();
        lemma_names_descending(d);
        let t = names_descending(d);
        let x = s.last();
        let p = file_pos(t, x);
        lemma_file_pos_first(t, x);
        let r = t.insert(p, x);
        assert forall|i: int, j: int| 0 <= i < j < r.len() implies !seq_lt(
            #[trigger] r[i].name@,
            #[trigger] r[j].name@,
        ) by {
            if j < p {
                assert(r[i] == t[i] && r[j] == t[j]);
            } else if j == p {
                assert(r[j] == x && r[i] == t[i]);
            } else if i == p {
                assert(r[i] == x && r[j] == t[j - 1]);
                // t[p] sorts before x; were x before t[j - 1], so would t[p] be.
                if seq_lt(x.name@, t[j - 1].name@) {
                    crate::text::lemma_seq_lt_trans(t[p].name@, x.name@, t[j - 1].name@);
                    if j - 1 == p {
                        crate::text::lemma_seq_lt_irrefl(t[p].name@);
                    } else {
                        assert(!seq_lt(t[p].name@, t[j - 1].name@));
                    }
                }
            } else if i < p {
                assert(r[i] == t[i] && r[j] == t[j - 1]);
            } else {
                assert(r[i] == t[i - 1] && r[j] == t[j - 1]);
            }
        }
        assert(s =~= d.push(x));
        vstd::seq_lib::to_multiset_insert(t, p, x);
        vstd::seq_lib::to_multiset_build(d, x);
        assert(names_descending(s) == r);
    } else {
        assert(s =~= Seq::<LogFileInfo>::empty());
        assert(names_descending(s) =~= Seq::<LogFileInfo>::empty());
    }
}

/// Lists log files newest first (see `names_descending`).
pub fn sort_log_files(files: Vec<LogFileInfo>) -> (r: Vec<LogFileInfo>)
    ensures
        r@ == names_descending(files@),
{
    let ghost all = files@;
    let mut rest = files;
    let n = rest.len();
    let mut out: Vec<LogFileInfo> = Vec::new();
    let mut j: usize = 0;
    assert(all.take(0) =~= Seq::<LogFileInfo>::empty());
    assert(all.skip(0) =~= all);
    while rest.len() > 0
        invariant
            j + rest@.len() == all.len(),
            all.len() == n,
            rest@ == all.skip(j as int),
            out@ == names_descending(all.take(j as int)),
        decreases rest@.len(),
    {
        let x = rest.remove(0);
        assert(x == all[j as int]);
        assert(rest@ =~= all.skip(j + 1));
        let ghost cur = out@;
        let mut k: usize = 0;
        while k < out.len() && !str_lt(out[k].name.as_str(), x.name.as_str())
            invariant
                k <= out@.len(),
                cur == out@,
                forall|m: int| 0 <= m < k ==> !seq_lt(#[trigger] cur[m].name@, x.name@),
            decreases out@.len() - k,
        {
            k += 1;
        }
        proof {
            lemma_file_pos(cur, x, k as int);
            assert(all.take(j + 1).drop_last() =~= all.take(j as int));
            assert(all.take(j + 1).last() == x);
        }
        out.insert(k, x);
        j += 1;
    }
    assert(all.take(j as int) =~= all);
    out
}

// ───────────────────────────── the background writer ─────────────────────────────

/// What the background log writer heard from its queue.
#[derive(Debug, Clone, Copy, PartialEq, Eq)]
pub enum QueueNews {
    /// A record arrived (and was added to the batch).
    Record,
    /// No record was ready.
    NothingReady,
    /// Waiting for a record timed out.
    TimedOut,
    /// The queue is closed.
    Closed,
}

/// The background log writer's next move.
#[derive(Debug, Clone, Copy, PartialEq, Eq)]
pub enum WriterStep {
    /// Wait up to 200 ms for the next record.
    Wait,
    /// Take a record that is ready, without waiting.
    TakeReady,
    /// Write the batch (to the database, and to the log file when enabled),
    /// empty it, and wait again.
    Flush,
    /// Write the batch, then stop.
    FlushAndStop,
    /// Stop.
    Stop,
}

/// The largest batch written at once.
pub open spec fn batch_limit() -> nat {
    100
}

/// The writer's decision, given the batch size after the news and whether
/// the news came from waiting (else from taking a ready record): after a
/// record it takes more ready records until the batch holds a hundred, then
/// writes; when no more are ready, or waiting timed out, it writes what it
/// has; when the queue closes it writes what it has and stops.
pub open spec fn writer_decision(batched: nat, waited: bool, news: QueueNews) -> WriterStep {
    if news == QueueNews::Record {
        if batched < batch_limit() {
            WriterStep::TakeReady
        } else {
            WriterStep::Flush
        }
    } else if news == QueueNews::Closed && waited {
        if batched > 0 {
            WriterStep::FlushAndStop
        } else {
            WriterStep::Stop
        }
    } else if batched > 0 {
        WriterStep::Flush
    } else {
        WriterStep::Wait
    }
}

/// The writer's next move (see `writer_decision`).
pub fn writer_next(batched: usize, waited: bool, news: QueueNews) -> (r: WriterStep)
    ensures
        r == writer_decision(batched as nat, waited, news),
{
    match news {
        QueueNews::Record => if batched < 100 {
            WriterStep::TakeReady
        } else {
            WriterStep::Flush
        },
        QueueNews::Closed if waited => if batched > 0 {
            WriterStep::FlushAndStop
        } else {
            WriterStep::Stop
        },
        _ => if batched > 0 {
            WriterStep::Flush
        } else {
            WriterStep::Wait
        },
    }
}

/// The writer takes another ready record only while its batch holds fewer
/// than a hundred, and when the queue closes with records batched, they are
/// written.
pub proof fn lemma_writer_batches(batched: nat, waited: bool, news: QueueNews)
    ensures
        writer_decision(batched, waited, news) == WriterStep::TakeReady ==> batched < batch_limit(),
        news == QueueNews::Closed && batched > 0 ==> (writer_decision(batched, waited, news) == WriterStep::Flush
            || writer_decision(batched, waited, news) == WriterStep::FlushAndStop),
{
}

} // verus!
