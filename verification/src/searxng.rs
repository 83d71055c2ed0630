//! The local search container: its settings file, the progress messages and
//! log of a deployment, the deployment itself as a sequence of decisions
//! between Docker calls, and the status report assembled from Docker's answers;
//! and the settings of the container that runs commands in a sandbox.
use vstd::prelude::*;
use crate::plan::{trim_end_matches, trim_end_matches_exec, trim_start_matches, trim_start_matches_exec};
use crate::text::{
    chars_of, copy_strings, dec, dec_exec, extend_chars, extend_str, has_char, is_ws, lemma_lead_ws,
    lemma_trail_ws, lines, lines_exec, owned_str, seqs_of, string_of, strip_cr, strip_prefix,
    strip_prefix_str, strs_of, trim, trim_end, trim_exec, trim_start,
};

verus! {

// ───────────────────────────── progress messages ─────────────────────────────

/// A progress message of a deployment: a new step, or a log line.
#[derive(Debug, Clone)]
pub enum ProgressNote {
    Step(String),
    Log(String),
}

pub enum NoteView {
    Step(Seq<char>),
    Log(Seq<char>),
}

impl View for ProgressNote {
    type V = NoteView;

    open spec fn view(&self) -> NoteView {
        match self {
            ProgressNote::Step(s) => NoteView::Step(s@),
            ProgressNote::Log(s) => NoteView::Log(s@),
        }
    }
}

pub open spec fn notes_view(v: Seq<ProgressNote>) -> Seq<NoteView> {
    Seq::new(v.len(), |i: int| v[i]@)
}

/// One character inside a JSON string: `\` and `"` get a backslash.
pub open spec fn escaped_char(c: char) -> Seq<char> {
    if c == '\\' {
        seq!['\\', '\\']
    } else if c == '"' {
        seq!['\\', '"']
    } else {
        seq![c]
    }
}

/// The text with every `\` doubled and every `"` preceded by `\`.
pub open spec fn escaped(s: Seq<char>) -> Seq<char>
    decreases s.len(),
{
    if s.len() == 0 {
        seq![]
    } else {
        escaped(s.drop_last()) + escaped_char(s.last())
    }
}

/// The JSON message handed to the progress callback: `{"step":"<step>"}` (the
/// step name as it is) or `{"log":"<line>"}` (the line escaped).
pub open spec fn note_json(n: NoteView) -> Seq<char> {
    match n {
        NoteView::Step(s) => "{\"step\":\""@ + s + "\"}"@,
        NoteView::Log(m) => "{\"log\":\""@ + escaped(m) + "\"}"@,
    }
}

fn escape_exec(s: &str) -> (r: Vec<char>)
    ensures
        r@ == escaped(s@),
{
    let c = chars_of(s);
    let mut out: Vec<char> = Vec::new();
    let mut i: usize = 0;
    while i < c.len()
        invariant
            i <= c@.len(),
            c@ == s@,
            out@ == escaped(c@.take(i as int)),
        decreases c@.len() - i,
    {
        let ch = c[i];
        assert(c@.take(i + 1).drop_last() =~= c@.take(i as int));
        if ch == '\\' {
            out.push('\\');
            out.push('\\');
        } else if ch == '"' {
            out.push('\\');
            out.push('"');
        } else {
            out.push(ch);
        }
        assert(out@ =~= escaped(c@.take(i + 1)));
        i += 1;
    }
    assert(c@.take(c@.len() as int) =~= c@);
    out
}

/// The JSON message of a progress note (see `note_json`).
pub fn progress_json(note: &ProgressNote) -> (r: String)
    ensures
        r@ == note_json(note@),
{
    let mut out: Vec<char> = Vec::new();
    match note {
        ProgressNote::Step(s) => {
            extend_str(&mut out, "{\"step\":\"");
            extend_str(&mut out, s.as_str());
            extend_str(&mut out, "\"}");
        },
        ProgressNote::Log(m) => {
            extend_str(&mut out, "{\"log\":\"");
            let e = escape_exec(m.as_str());
            extend_chars(&mut out, e.as_slice());
            extend_str(&mut out, "\"}");
        },
    }
    string_of(out.as_slice())
}

/// The last `n` items (all of them when there are fewer).
pub open spec fn keep_last<T>(s: Seq<T>, n: nat) -> Seq<T> {
    if s.len() > n {
        s.skip(s.len() - n)
    } else {
        s
    }
}

/// What a running deployment has reported so far: its current step and its
/// last hundred log lines.
#[derive(Debug, Clone)]
pub struct DeployProgress {
    pub step: Option<String>,
    pub logs: Vec<String>,
}

impl DeployProgress {
    /// At most a hundred lines are held.
    pub open spec fn wf(&self) -> bool {
        self.logs@.len() <= 100
    }

    /// No step and no lines.
    pub fn new() -> (r: Self)
        ensures
            r.wf(),
            r.step is None,
            r.logs@.len() == 0,
    {
        DeployProgress { step: None, logs: Vec::new() }
    }

    /// Records a note: a step replaces the current step; a log line is
    /// appended, and only the last hundred lines are kept.
    pub fn record(&mut self, note: ProgressNote)
        requires
            old(self).wf(),
        ensures
            final(self).wf(),
            match note {
                ProgressNote::Step(s) => {
                    &&& final(self).step == Some(s)
                    &&& final(self).logs@ == old(self).logs@
                },
                ProgressNote::Log(m) => {
                    &&& final(self).step == old(self).step
                    &&& final(self).logs@ == keep_last(old(self).logs@.push(m), 100)
                },
            },
    {
        match note {
            ProgressNote::Step(s) => {
                self.step = Some(s);
            },
            ProgressNote::Log(m) => {
                let ghost before = self.logs@.push(m);
                self.logs.push(m);
                if self.logs.len() > 100 {
                    let _ = self.logs.remove(0);
                    assert(self.logs@ =~= keep_last(before, 100));
                }
            },
        }
    }
}

// ───────────────────────────── settings.yml ─────────────────────────────

/// The `outgoing` section that routes the engines through `proxy`.
pub open spec fn proxy_section(proxy: Option<Seq<char>>) -> Seq<char> {
    match proxy {
        Some(u) => "outgoing:\n  proxies:\n    all://:\n      - "@ + u + "\n  request_timeout: 10.0\n"@,
        None => seq![],
    }
}

/// The mounted `settings.yml`: default settings, the secret key, no limiter,
/// HTML and JSON output, and the proxy section.
pub open spec fn settings_text(secret: Seq<char>, proxy: Option<Seq<char>>) -> Seq<char> {
    "use_default_settings: true\nserver:\n  secret_key: \""@ + secret
        + "\"\n  limiter: false\nsearch:\n  formats:\n    - html\n    - json\n"@ + proxy_section(proxy)
}

/// The text of `settings.yml` (see `settings_text`).
pub fn settings_yaml(secret: &str, proxy: &Option<String>) -> (r: String)
    ensures
        r@ == settings_text(secret@, proxy.deep_view()),
{
    let mut out: Vec<char> = Vec::new();
    extend_str(&mut out, "use_default_settings: true\nserver:\n  secret_key: \"");
    extend_str(&mut out, secret);
    extend_str(&mut out, "\"\n  limiter: false\nsearch:\n  formats:\n    - html\n    - json\n");
    match proxy {
        Some(u) => {
            extend_str(&mut out, "outgoing:\n  proxies:\n    all://:\n      - ");
            extend_str(&mut out, u.as_str());
            extend_str(&mut out, "\n  request_timeout: 10.0\n");
        },
        None => {},
    }
    string_of(out.as_slice())
}

/// The secret key a line of an existing `settings.yml` gives: after trimming,
/// the text behind `secret_key:`, trimmed, stripped of surrounding `"` and then
/// `'` quotes and trimmed again, when that is not empty.
pub open spec fn secret_in_line(line: Seq<char>) -> Option<Seq<char>> {
    match strip_prefix(trim(line), "secret_key:"@) {
        Some(rest) => {
            let a = trim(rest);
            let b = trim_end_matches(trim_start_matches(a, "\""@), "\""@);
            let c = trim(trim_end_matches(trim_start_matches(b, "'"@), "'"@));
            if c.len() > 0 {
                Some(c)
            } else {
                None
            }
        },
        None => None,
    }
}

/// The secret key of the first line that gives one.
pub open spec fn secret_in_lines(ls: Seq<Seq<char>>) -> Option<Seq<char>>
    decreases ls.len(),
{
    if ls.len() == 0 {
        None
    } else {
        match secret_in_line(ls[0]) {
            Some(v) => Some(v),
            None => secret_in_lines(ls.skip(1)),
        }
    }
}

fn secret_in_line_exec(line: &[char]) -> (r: Option<Vec<char>>)
    ensures
        r.deep_view() == secret_in_line(line@),
{
    let t = trim_exec(line);
    match strip_prefix_str(t.as_slice(), "secret_key:") {
        Some(rest) => {
            let a = trim_exec(rest.as_slice());
            let b1 = trim_start_matches_exec(a.as_slice(), "\"");
            let b = trim_end_matches_exec(b1.as_slice(), "\"");
            let c1 = trim_start_matches_exec(b.as_slice(), "'");
            let c2 = trim_end_matches_exec(c1.as_slice(), "'");
            let c = trim_exec(c2.as_slice());
            if c.len() > 0 {
                Some(c)
            } else {
                None
            }
        },
        None => None,
    }
}

/// The secret key already written in a `settings.yml` text, if any line gives
/// one (see `secret_in_line`).
pub fn existing_secret_key(text: &str) -> (r: Option<String>)
    ensures
        r.deep_view() == secret_in_lines(lines(text@)),
{
    let c = chars_of(text);
    let ls = lines_exec(c.as_slice());
    let ghost all = seqs_of(ls@);
    let mut i: usize = 0;
    assert(all.skip(0) =~= all);
    while i < ls.len()
        invariant
            i <= ls@.len(),
            all == seqs_of(ls@),
            all == lines(text@),
            secret_in_lines(all) == secret_in_lines(all.skip(i as int)),
        decreases ls@.len() - i,
    {
        assert(all.skip(i as int).skip(1) =~= all.skip(i + 1));
        assert(all.skip(i as int)[0] == ls@[i as int]@);
        match secret_in_line_exec(ls[i].as_slice()) {
            Some(v) => {
                return Some(string_of(v.as_slice()));
            },
            None => {},
        }
        i += 1;
    }
    assert(all.skip(i as int) =~= Seq::<Seq<char>>::empty());
    None
}

/// A lowercase hexadecimal digit.
pub open spec fn hex_digit(d: nat) -> char {
    if d < 10 {
        crate::text::digit(d)
    } else if d == 10 {
        'a'
    } else if d == 11 {
        'b'
    } else if d == 12 {
        'c'
    } else if d == 13 {
        'd'
    } else if d == 14 {
        'e'
    } else {
        'f'
    }
}

/// The last `k` lowercase hexadecimal digits of `n` (as `{:0k$x}` writes `n`
/// when it has at most `k` digits).
pub open spec fn hex_fixed(n: nat, k: nat) -> Seq<char>
    decreases k,
{
    if k == 0 {
        seq![]
    } else {
        hex_fixed(n / 16, (k - 1) as nat).push(hex_digit(n % 16))
    }
}

fn hex_digit_exec(d: u8) -> (r: char)
    requires
        d < 16,
    ensures
        r == hex_digit(d as nat),
{
    if d < 10 {
        let v = dec_exec(d as u64);
        proof {
            reveal_with_fuel(dec, 2);
        }
        v[0]
    } else if d == 10 {
        'a'
    } else if d == 11 {
        'b'
    } else if d == 12 {
        'c'
    } else if d == 13 {
        'd'
    } else if d == 14 {
        'e'
    } else {
        'f'
    }
}

fn hex_fixed_exec(n: u128, k: usize) -> (r: Vec<char>)
    ensures
        r@ == hex_fixed(n as nat, k as nat),
    decreases k,
{
    if k == 0 {
        Vec::new()
    } else {
        let mut v = hex_fixed_exec(n / 16, k - 1);
        v.push(hex_digit_exec((n % 16) as u8));
        v
    }
}

/// `n` as 32 lowercase hexadecimal digits (`{:032x}`).
pub fn secret_key_hex(n: u128) -> (r: String)
    ensures
        r@ == hex_fixed(n as nat, 32),
{
    let v = hex_fixed_exec(n, 32);
    string_of(v.as_slice())
}

/// Nanoseconds since the Unix epoch by the system clock (0 if the clock is set
/// before the epoch). It depends on the clock, so nothing is stated of it.
#[verifier::external_body]
fn epoch_nanos() -> u128 {
    std::time::SystemTime::now().duration_since(std::time::UNIX_EPOCH).unwrap_or_default().as_nanos()
}

/// A fresh secret key: the clock's nanoseconds since the epoch in hexadecimal.
pub fn generate_secret_key() -> (r: String)
    ensures
        exists|n: u128| r@ == hex_fixed(n as nat, 32),
        plain_secret(r@),
{
    let n = epoch_nanos();
    proof {
        lemma_hex_secret_plain(n as nat);
    }
    secret_key_hex(n)
}

/// The secret key to write: the one the existing settings give, else a fresh one.
pub fn choose_secret_key(existing: &Option<String>) -> (r: String)
    ensures
        match existing {
            Some(t) => match secret_in_lines(lines(t@)) {
                Some(k) => r@ == k,
                None => exists|n: u128| r@ == hex_fixed(n as nat, 32),
            },
            None => exists|n: u128| r@ == hex_fixed(n as nat, 32),
        },
{
    match existing {
        Some(t) => match existing_secret_key(t.as_str()) {
            Some(k) => k,
            None => generate_secret_key(),
        },
        None => generate_secret_key(),
    }
}

/// A key that reads back as itself from `settings.yml`: not empty, on one
/// line, and neither starting nor ending with whitespace or a quote.
pub open spec fn plain_secret(k: Seq<char>) -> bool {
    &&& k.len() > 0
    &&& !has_char(k, '\n')
    &&& !is_ws(k[0]) && !is_ws(k.last())
    &&& k[0] != '"' && k.last() != '"'
    &&& k[0] != '\'' && k.last() != '\''
}

proof fn lemma_trim_plain(s: Seq<char>)
    requires
        s.len() > 0,
        !is_ws(s[0]),
        !is_ws(s.last()),
    ensures
        trim_start(s) == s,
        trim_end(s) == s,
        trim(s) == s,
{
    lemma_lead_ws(s, 0);
    assert(s.skip(0) =~= s);
    lemma_trail_ws(s, 0);
    assert(s.take(s.len() as int) =~= s);
}

proof fn lemma_secret_line_trim(k: Seq<char>)
    requires
        plain_secret(k),
    ensures
        strip_prefix(trim("  secret_key: \""@ + k + "\""@), "secret_key:"@) == Some(" \""@ + k + "\""@),
{
    reveal_strlit("  secret_key: \"");
    reveal_strlit("secret_key: \"");
    reveal_strlit("secret_key:");
    reveal_strlit("\"");
    let line = "  secret_key: \""@ + k + "\""@;
    let t = "secret_key: \""@ + k + "\""@;
    assert(is_ws(line[0]) && is_ws(line[1]));
    lemma_lead_ws(line, 2);
    assert(line.skip(2) =~= t);
    lemma_trim_plain(t);
    assert(t.take(11) =~= "secret_key:"@);
    assert(t.skip(11) =~= " \""@ + k + "\""@) by {
        reveal_strlit(" \"");
    }
}

proof fn lemma_secret_quotes(k: Seq<char>)
    requires
        plain_secret(k),
    ensures
        trim_end_matches(trim_start_matches(trim(" \""@ + k + "\""@), "\""@), "\""@) == k,
{
    reveal_strlit(" \"");
    reveal_strlit("\"");
    let rest = " \""@ + k + "\""@;
    let q = "\""@ + k + "\""@;
    assert(is_ws(rest[0]));
    lemma_lead_ws(rest, 1);
    assert(rest.skip(1) =~= q);
    lemma_trim_plain(q);
    let kq = k + "\""@;
    assert(q.take(1) =~= "\""@);
    assert(q.skip(1) =~= kq);
    assert(kq.take(1) =~= seq![k[0]]);
    assert(kq.take(1)[0] != "\""@[0]);
    assert(trim_start_matches(kq, "\""@) == kq);
    assert(trim_start_matches(q, "\""@) == kq);
    assert(kq.skip(kq.len() - 1) =~= "\""@);
    assert(kq.take(kq.len() - 1) =~= k);
    assert(k.skip(k.len() - 1) =~= seq![k.last()]);
    assert(k.skip(k.len() - 1)[0] != "\""@[0]);
    assert(trim_end_matches(k, "\""@) == k);
}

proof fn lemma_secret_line(k: Seq<char>)
    requires
        plain_secret(k),
    ensures
        secret_in_line("  secret_key: \""@ + k + "\""@) == Some(k),
{
    lemma_secret_line_trim(k);
    lemma_secret_quotes(k);
    assert(trim_start_matches(k, "'"@) == k) by {
        reveal_strlit("'");
        assert(k.take(1) =~= seq![k[0]]);
        assert(k.take(1)[0] != "'"@[0]);
    }
    assert(trim_end_matches(k, "'"@) == k) by {
        reveal_strlit("'");
        assert(k.skip(k.len() - 1) =~= seq![k.last()]);
        assert(k.skip(k.len() - 1)[0] != "'"@[0]);
    }
    lemma_trim_plain(k);
}

proof fn lemma_no_secret(l: Seq<char>)
    requires
        l.len() > 0,
        !is_ws(l[0]),
        !is_ws(l.last()),
        l[0] != 's' || l.len() < 11,
    ensures
        secret_in_line(l) is None,
{
    reveal_strlit("secret_key:");
    lemma_trim_plain(l);
    if l.len() >= 11 {
        assert(l.take(11)[0] != "secret_key:"@[0]);
    }
}

/// A key written into `settings.yml` is the key read back from it (so a
/// deployment keeps the key of the previous one): for every key that is not
/// empty, is on one line and neither starts nor ends with whitespace or a
/// quote, whatever the proxy section.
pub proof fn lemma_settings_secret_roundtrip(k: Seq<char>, proxy: Option<Seq<char>>)
    requires
        plain_secret(k),
    ensures
        secret_in_lines(lines(settings_text(k, proxy))) == Some(k),
{
    reveal_strlit("use_default_settings: true\nserver:\n  secret_key: \"");
    reveal_strlit("\"\n  limiter: false\nsearch:\n  formats:\n    - html\n    - json\n");
    reveal_strlit("use_default_settings: true\n");
    reveal_strlit("server:\n");
    reveal_strlit("  secret_key: \"");
    reveal_strlit("\"\n");
    reveal_strlit("\"");
    reveal_strlit("\n");
    reveal_strlit("use_default_settings: true");
    reveal_strlit("server:");
    let a = "use_default_settings: true\n"@;
    let b = "server:\n"@;
    let x = "  secret_key: \""@ + k + "\""@;
    let c = x + "\n"@;
    let r0 = "  limiter: false\nsearch:\n  formats:\n    - html\n    - json\n"@;
    reveal_strlit("  limiter: false\nsearch:\n  formats:\n    - html\n    - json\n");
    let r = r0 + proxy_section(proxy);
    let t = settings_text(k, proxy);
    assert(t =~= a + (b + (c + r)));
    crate::memory_export::lemma_lines_concat(a, b + (c + r));
    crate::memory_export::lemma_lines_concat(b, c + r);
    crate::memory_export::lemma_lines_concat(c, r);
    let a1 = "use_default_settings: true"@;
    let b1 = "server:"@;
    assert(a =~= a1 + "\n"@);
    assert(b =~= b1 + "\n"@);
    assert(!has_char(a1, '\n')) by {
        assert forall|i: int| 0 <= i < a1.len() implies a1[i] != '\n' by {}
    }
    assert(!has_char(b1, '\n')) by {
        assert forall|i: int| 0 <= i < b1.len() implies b1[i] != '\n' by {}
    }
    assert(!has_char(x, '\n')) by {
        assert forall|i: int| 0 <= i < x.len() implies x[i] != '\n' by {
            if 15 <= i < 15 + k.len() {
                assert(x[i] == k[i - 15]);
                if k[i - 15] == '\n' {
                    assert(has_char(k, '\n'));
                }
            }
        }
    }
    crate::memory_export::lemma_lines_one(a1);
    crate::memory_export::lemma_lines_one(b1);
    crate::memory_export::lemma_lines_one(x);
    assert(strip_cr(a1) == a1);
    assert(strip_cr(b1) == b1);
    assert(strip_cr(x) == x);
    let ls = lines(t);
    assert(ls =~= seq![a1, b1, x] + lines(r));
    lemma_no_secret(a1);
    lemma_no_secret(b1);
    lemma_secret_line(k);
    assert(ls.skip(1) =~= seq![b1, x] + lines(r));
    assert(ls.skip(1).skip(1) =~= seq![x] + lines(r));
    assert(secret_in_lines(ls.skip(1).skip(1)) == Some(k));
    assert(secret_in_lines(ls.skip(1)) == Some(k));
}

/// A key of 32 hexadecimal digits, as generated, is plain (see `plain_secret`).
pub proof fn lemma_hex_secret_plain(n: nat)
    ensures
        plain_secret(hex_fixed(n, 32)),
{
    lemma_hex_chars(n, 32);
    let h = hex_fixed(n, 32);
    assert(!has_char(h, '\n')) by {
        assert forall|i: int| 0 <= i < h.len() implies h[i] != '\n' by {
            assert(hex_char(h[i]));
        }
    }
    assert(hex_char(h[0]));
    assert(hex_char(h.last()));
}

pub open spec fn hex_char(c: char) -> bool {
    ('0' <= c && c <= '9') || ('a' <= c && c <= 'f')
}

proof fn lemma_hex_chars(n: nat, k: nat)
    ensures
        hex_fixed(n, k).len() == k,
        forall|i: int| 0 <= i < k ==> hex_char(#[trigger] hex_fixed(n, k)[i]),
    decreases k,
{
    if k > 0 {
        lemma_hex_chars(n / 16, (k - 1) as nat);
        let d = n % 16;
        assert(hex_char(hex_digit(d))) by {
            reveal_with_fuel(crate::text::digit, 1);
        }
        let prev = hex_fixed(n / 16, (k - 1) as nat);
        assert(hex_fixed(n, k) == prev.push(hex_digit(d)));
        assert forall|i: int| 0 <= i < k implies hex_char(#[trigger] hex_fixed(n, k)[i]) by {
            if i < k - 1 {
                assert(hex_fixed(n, k)[i] == prev[i]);
            }
        }
    }
}

// ───────────────────────────── the container ─────────────────────────────

/// The arguments of `docker run` for the search container on host port `port`,
/// with `settings` mounted read-only as its `settings.yml` and, when a proxy is
/// given, the four proxy variables set to it.
pub open spec fn run_args(port: u16, settings: Seq<char>, proxy: Option<Seq<char>>) -> Seq<Seq<char>> {
    let base = seq![
        "run"@,
        "-d"@,
        "--name"@,
        "opencomputer-searxng"@,
        "-p"@,
        dec(port as nat) + ":8080"@,
        "-v"@,
        settings + ":/etc/searxng/settings.yml:ro"@,
        "-e"@,
        "SEARXNG_BASE_URL=http://localhost:8080"@,
    ];
    let with_proxy = match proxy {
        Some(u) => base + seq![
            "-e"@,
            "HTTP_PROXY="@ + u,
            "-e"@,
            "HTTPS_PROXY="@ + u,
            "-e"@,
            "http_proxy="@ + u,
            "-e"@,
            "https_proxy="@ + u,
        ],
        None => base,
    };
    with_proxy.push("searxng/searxng"@)
}

fn joined(a: &str, b: &str) -> (r: String)
    ensures
        r@ == a@ + b@,
{
    let mut v = chars_of(a);
    extend_str(&mut v, b);
    string_of(v.as_slice())
}

fn push_str(v: &mut Vec<String>, s: String)
    ensures
        strs_of(final(v)@) == strs_of(old(v)@).push(s@),
{
    let ghost before = strs_of(v@);
    v.push(s);
    assert(strs_of(v@) =~= before.push(s@));
}

/// The `docker run` arguments (see `run_args`).
pub fn docker_run_args(port: u16, settings: &str, proxy: &Option<String>) -> (r: Vec<String>)
    ensures
        strs_of(r@) == run_args(port, settings@, proxy.deep_view()),
{
    let mut v: Vec<String> = Vec::new();
    push_str(&mut v, owned_str("run"));
    push_str(&mut v, owned_str("-d"));
    push_str(&mut v, owned_str("--name"));
    push_str(&mut v, owned_str("opencomputer-searxng"));
    push_str(&mut v, owned_str("-p"));
    let mut p = dec_exec(port as u64);
    extend_str(&mut p, ":8080");
    push_str(&mut v, string_of(p.as_slice()));
    push_str(&mut v, owned_str("-v"));
    push_str(&mut v, joined(settings, ":/etc/searxng/settings.yml:ro"));
    push_str(&mut v, owned_str("-e"));
    push_str(&mut v, owned_str("SEARXNG_BASE_URL=http://localhost:8080"));
    let ghost base = strs_of(v@);
    match proxy {
        Some(u) => {
            push_str(&mut v, owned_str("-e"));
            push_str(&mut v, joined("HTTP_PROXY=", u.as_str()));
            push_str(&mut v, owned_str("-e"));
            push_str(&mut v, joined("HTTPS_PROXY=", u.as_str()));
            push_str(&mut v, owned_str("-e"));
            push_str(&mut v, joined("http_proxy=", u.as_str()));
            push_str(&mut v, owned_str("-e"));
            push_str(&mut v, joined("https_proxy=", u.as_str()));
        },
        None => {},
    }
    push_str(&mut v, owned_str("searxng/searxng"));
    assert(strs_of(v@) =~= run_args(port, settings@, proxy.deep_view()));
    v
}

/// The container's recent output for a report: both streams, labelled, when
/// both said something; else whichever did; each trimmed.
pub open spec fn logs_text(out: Seq<char>, err: Seq<char>) -> Seq<char> {
    if out.len() > 0 && err.len() > 0 {
        "[stdout]\n"@ + trim(out) + "\n[stderr]\n"@ + trim(err)
    } else if err.len() > 0 {
        trim(err)
    } else {
        trim(out)
    }
}

/// The container's recent output from `docker logs` (see `logs_text`).
pub fn container_logs_text(stdout: &str, stderr: &str) -> (r: String)
    ensures
        r@ == logs_text(stdout@, stderr@),
{
    let o = chars_of(stdout);
    let e = chars_of(stderr);
    if o.len() > 0 && e.len() > 0 {
        let mut v: Vec<char> = Vec::new();
        extend_str(&mut v, "[stdout]\n");
        extend_chars(&mut v, trim_exec(o.as_slice()).as_slice());
        extend_str(&mut v, "\n[stderr]\n");
        extend_chars(&mut v, trim_exec(e.as_slice()).as_slice());
        string_of(v.as_slice())
    } else if e.len() > 0 {
        string_of(trim_exec(e.as_slice()).as_slice())
    } else {
        string_of(trim_exec(o.as_slice()).as_slice())
    }
}

/// The index of the first `true`.
pub open spec fn first_true(s: Seq<bool>) -> Option<int>
    decreases s.len(),
{
    if s.len() == 0 {
        None
    } else if s[0] {
        Some(0)
    } else {
        match first_true(s.skip(1)) {
            Some(i) => Some(i + 1),
            None => None,
        }
    }
}

/// The host port for the container, given which of the ports 8080, 8081, …
/// were found free (in that order, as far as they were probed): the first free
/// one, else 8080.
pub fn choose_port(free: &Vec<bool>) -> (r: u16)
    requires
        free@.len() <= 10,
    ensures
        r == match first_true(free@) {
            Some(i) => 8080 + i,
            None => 8080,
        },
{
    let mut i: usize = 0;
    assert(free@.skip(0) =~= free@);
    while i < free.len()
        invariant
            i <= free@.len() <= 10,
            forall|j: int| 0 <= j < i ==> !free@[j],
            first_true(free@) == match first_true(free@.skip(i as int)) {
                Some(k) => Some(k + i),
                None => None,
            },
        decreases free@.len() - i,
    {
        assert(free@.skip(i as int).skip(1) =~= free@.skip(i + 1));
        if free[i] {
            return 8080 + i as u16;
        }
        i += 1;
    }
    assert(free@.skip(i as int) =~= Seq::<bool>::empty());
    8080
}

/// The next move of a health check after attempt `attempt` of `max_attempts`.
#[derive(Debug, Clone, Copy, PartialEq, Eq)]
pub enum HealthStep {
    /// The service answered: healthy.
    Healthy,
    /// Wait, then make this attempt.
    Retry(u32),
    /// Wait, then report the service unhealthy.
    GiveUp,
}

/// The health check's move after an attempt: done when it passed, another
/// attempt while attempts are left, else giving up.
pub fn health_step(attempt: u32, max_attempts: u32, passed: bool) -> (r: HealthStep)
    requires
        1 <= attempt <= max_attempts,
    ensures
        passed ==> r == HealthStep::Healthy,
        !passed && attempt < max_attempts ==> r == HealthStep::Retry((attempt + 1) as u32),
        !passed && attempt == max_attempts ==> r == HealthStep::GiveUp,
{
    if passed {
        HealthStep::Healthy
    } else if attempt < max_attempts {
        HealthStep::Retry(attempt + 1)
    } else {
        HealthStep::GiveUp
    }
}

/// An engine that failed during the test search, and its reason when given.
#[derive(Debug, Clone)]
pub struct EngineReport {
    pub engine: String,
    pub reason: Option<String>,
}

pub open spec fn report_views(v: Seq<Option<EngineReport>>) -> Seq<Option<(Seq<char>, Option<Seq<char>>)>> {
    Seq::new(
        v.len(),
        |i: int|
            match v[i] {
                Some(e) => Some((e.engine@, e.reason.deep_view())),
                None => None,
            },
    )
}

/// `engine: reason` for each well-formed report (reason `unknown` when missing),
/// skipping the others.
pub open spec fn engine_lines(v: Seq<Option<(Seq<char>, Option<Seq<char>>)>>) -> Seq<Seq<char>>
    decreases v.len(),
{
    if v.len() == 0 {
        seq![]
    } else {
        let prev = engine_lines(v.drop_last());
        match v.last() {
            Some((e, r)) => prev.push(
                e + ": "@ + match r {
                    Some(x) => x,
                    None => "unknown"@,
                },
            ),
            None => prev,
        }
    }
}

/// The result of a test search.
#[derive(Debug, Clone)]
pub struct SearchTest {
    /// The search returned results.
    pub ok: bool,
    pub result_count: usize,
    /// Engines that failed, as `engine: reason`.
    pub unresponsive: Vec<String>,
}

impl SearchTest {
    /// A test search that got no usable answer.
    pub fn failed() -> (r: Self)
        ensures
            !r.ok,
            r.result_count == 0,
            r.unresponsive@.len() == 0,
    {
        SearchTest { ok: false, result_count: 0, unresponsive: Vec::new() }
    }

    /// The result of a test search that returned `result_count` results and the
    /// given failure reports: it passed when there were results.
    pub fn from_answer(result_count: usize, engines: &Vec<Option<EngineReport>>) -> (r: Self)
        ensures
            r.ok == (result_count > 0),
            r.result_count == result_count,
            strs_of(r.unresponsive@) == engine_lines(report_views(engines@)),
    {
        let mut out: Vec<String> = Vec::new();
        let ghost ev = report_views(engines@);
        let mut i: usize = 0;
        while i < engines.len()
            invariant
                i <= engines@.len(),
                ev == report_views(engines@),
                strs_of(out@) == engine_lines(ev.take(i as int)),
            decreases engines@.len() - i,
        {
            assert(ev.take(i + 1).drop_last() =~= ev.take(i as int));
            match &engines[i] {
                Some(e) => {
                    let mut line = chars_of(e.engine.as_str());
                    extend_str(&mut line, ": ");
                    match &e.reason {
                        Some(x) => extend_str(&mut line, x.as_str()),
                        None => extend_str(&mut line, "unknown"),
                    }
                    push_str(&mut out, string_of(line.as_slice()));
                },
                None => {},
            }
            i += 1;
        }
        assert(ev.take(engines@.len() as int) =~= ev);
        SearchTest { ok: result_count > 0, result_count, unresponsive: out }
    }
}

// ───────────────────────────── status ─────────────────────────────

/// A Docker-side status of the search service.
#[derive(Debug, Clone)]
pub struct SearxngDockerStatus {
    pub docker_installed: bool,
    /// The Docker CLI exists but its daemon is not running.
    pub docker_not_running: bool,
    pub container_exists: bool,
    pub container_running: bool,
    pub port: Option<u16>,
    pub health_ok: bool,
    /// A deployment is in progress.
    pub deploying: bool,
    pub deploy_step: Option<String>,
    pub deploy_logs: Vec<String>,
    /// A real search returned results.
    pub search_ok: bool,
    /// Number of results of the test search.
    pub search_result_count: usize,
    /// Engines that failed in the test search.
    pub unresponsive_engines: Vec<String>,
}

/// What Docker said of the search container.
#[derive(Debug, Clone)]
pub struct ContainerProbe {
    /// The Docker CLI answers.
    pub installed: bool,
    /// The Docker daemon answers.
    pub daemon_running: bool,
    pub exists: bool,
    pub running: bool,
    /// The published host port, when asked and known.
    pub port: Option<u16>,
    /// The service answered a health check, when one was made.
    pub health_ok: bool,
}

/// Whether a cached status taken `elapsed_secs` ago is still used.
pub fn status_cache_fresh(elapsed_secs: u64) -> (r: bool)
    ensures
        r == (elapsed_secs < 5),
{
    elapsed_secs < 5
}

/// The status report: the deployment's progress while one runs; nothing more
/// without Docker; only the daemon's absence without its daemon; else the
/// container's state, its port when it exists, its health when it runs on a
/// known port, and the test search when it is healthy.
pub fn docker_status_report(probe: &ContainerProbe, deploying: bool, progress: &DeployProgress, search: &SearchTest) -> (r: SearxngDockerStatus)
    ensures
        r.deploying == deploying,
        deploying ==> r.deploy_step.deep_view() == progress.step.deep_view()
            && strs_of(r.deploy_logs@) == strs_of(progress.logs@),
        !deploying ==> r.deploy_step is None && r.deploy_logs@.len() == 0,
        r.docker_installed == probe.installed,
        r.docker_not_running == (probe.installed && !probe.daemon_running),
        r.container_exists == (probe.installed && probe.daemon_running && probe.exists),
        r.container_running == (probe.installed && probe.daemon_running && probe.running),
        r.port == (if probe.installed && probe.daemon_running && probe.exists { probe.port } else { None }),
        r.health_ok == (probe.installed && probe.daemon_running && probe.running && r.port is Some && probe.health_ok),
        r.search_ok == (r.health_ok && search.ok),
        r.search_result_count == (if r.health_ok { search.result_count } else { 0 }),
        r.health_ok ==> strs_of(r.unresponsive_engines@) == strs_of(search.unresponsive@),
        !r.health_ok ==> r.unresponsive_engines@.len() == 0,
{
    let (step, logs) = if deploying {
        let s = match &progress.step {
            Some(x) => Some(owned_str(x.as_str())),
            None => None,
        };
        (s, copy_strings(&progress.logs))
    } else {
        (None, Vec::new())
    };
    if !probe.installed || !probe.daemon_running {
        return SearxngDockerStatus {
            docker_installed: probe.installed,
            docker_not_running: probe.installed,
            container_exists: false,
            container_running: false,
            port: None,
            health_ok: false,
            deploying,
            deploy_step: step,
            deploy_logs: logs,
            search_ok: false,
            search_result_count: 0,
            unresponsive_engines: Vec::new(),
        };
    }
    let port = if probe.exists {
        probe.port
    } else {
        None
    };
    let health_ok = probe.running && port.is_some() && probe.health_ok;
    let (search_ok, count, engines) = if health_ok {
        (search.ok, search.result_count, copy_strings(&search.unresponsive))
    } else {
        (false, 0, Vec::new())
    };
    SearxngDockerStatus {
        docker_installed: true,
        docker_not_running: false,
        container_exists: probe.exists,
        container_running: probe.running,
        port,
        health_ok,
        deploying,
        deploy_step: step,
        deploy_logs: logs,
        search_ok,
        search_result_count: count,
        unresponsive_engines: engines,
    }
}

/// Whether `docker inspect` says the container runs: its trimmed output is `true`.
pub fn running_from_inspect(stdout: &str) -> (r: bool)
    ensures
        r == (trim(stdout@) == "true"@),
{
    let t = trim_exec(chars_of(stdout).as_slice());
    crate::text::eq_str(t.as_slice(), "true")
}

/// The host port `docker inspect` printed: its trimmed output read as a `u16`.
pub fn port_from_inspect(stdout: &str) -> (r: Option<u16>)
    ensures
        r == match crate::plan::parse_u32_spec(trim(stdout@)) {
            Some(v) => if v <= 65535 {
                Some(v as u16)
            } else {
                None
            },
            None => None,
        },
{
    let t = trim_exec(chars_of(stdout).as_slice());
    match crate::plan::parse_u32(t.as_slice()) {
        Some(v) => if v <= 65535 {
            Some(v as u16)
        } else {
            None
        },
        None => None,
    }
}

/// A lifecycle command (start, stop, remove) is refused while a deployment runs.
pub fn lifecycle_check(deploying: bool) -> (r: Result<(), String>)
    ensures
        deploying <==> r is Err,
        r matches Err(e) ==> e@ == "A deploy operation is in progress"@,
{
    if deploying {
        Err(owned_str("A deploy operation is in progress"))
    } else {
        Ok(())
    }
}

/// What to do about the search container when the application starts.
#[derive(Debug, Clone, Copy, PartialEq, Eq)]
pub enum AutoStart {
    /// The container is not managed here, or the search provider is off.
    NotWanted,
    /// Docker is missing or its daemon is down: log a warning and skip.
    DockerUnavailable,
    /// Already running and healthy.
    AlreadyRunning,
    /// The container exists but is stopped: start it.
    StartContainer,
    /// Nothing to start (no container, or running but not yet healthy).
    Nothing,
}

/// The start-up decision: only for a managed container of an enabled search
/// provider; then by the status: skip without Docker, leave a healthy running
/// container, start a stopped one, else do nothing.
pub fn auto_start_decision(docker_managed: Option<bool>, searxng_enabled: bool, status: &SearxngDockerStatus) -> (r: AutoStart)
    ensures
        !(docker_managed == Some(true) && searxng_enabled) ==> r == AutoStart::NotWanted,
        docker_managed == Some(true) && searxng_enabled ==> r == (
            if !status.docker_installed || status.docker_not_running {
                AutoStart::DockerUnavailable
            } else if status.container_running && status.health_ok {
                AutoStart::AlreadyRunning
            } else if status.container_exists && !status.container_running {
                AutoStart::StartContainer
            } else {
                AutoStart::Nothing
            }
        ),
{
    let managed = match docker_managed {
        Some(b) => b,
        None => false,
    };
    if !managed || !searxng_enabled {
        AutoStart::NotWanted
    } else if !status.docker_installed || status.docker_not_running {
        AutoStart::DockerUnavailable
    } else if status.container_running && status.health_ok {
        AutoStart::AlreadyRunning
    } else if status.container_exists && !status.container_running {
        AutoStart::StartContainer
    } else {
        AutoStart::Nothing
    }
}

// ───────────────────────────── deployment ─────────────────────────────

/// Where a deployment stands.
#[derive(Debug, Clone)]
pub enum DeployPhase {
    /// Not started.
    Idle,
    /// Waiting to learn whether the Docker daemon runs.
    CheckingDocker,
    /// The image is being pulled.
    Pulling,
    /// A stale container is being removed.
    RemovingOld,
    /// `settings.yml` is being written.
    PreparingConfig,
    /// A free host port is sought; the settings file and the container's proxy are known.
    FindingPort { settings: String, proxy: Option<String> },
    /// The container is being started on `port`.
    Starting { port: u16 },
    /// The service on `port` is being health-checked.
    HealthChecking { port: u16 },
    /// The health check failed; the container's logs are being fetched.
    FetchingLogs,
    /// The deployment ended.
    Finished,
}

pub enum PhaseView {
    Idle,
    CheckingDocker,
    Pulling,
    RemovingOld,
    PreparingConfig,
    FindingPort(Seq<char>, Option<Seq<char>>),
    Starting(u16),
    HealthChecking(u16),
    FetchingLogs,
    Finished,
}

impl View for DeployPhase {
    type V = PhaseView;

    open spec fn view(&self) -> PhaseView {
        match self {
            DeployPhase::Idle => PhaseView::Idle,
            DeployPhase::CheckingDocker => PhaseView::CheckingDocker,
            DeployPhase::Pulling => PhaseView::Pulling,
            DeployPhase::RemovingOld => PhaseView::RemovingOld,
            DeployPhase::PreparingConfig => PhaseView::PreparingConfig,
            DeployPhase::FindingPort { settings, proxy } => PhaseView::FindingPort(settings@, proxy.deep_view()),
            DeployPhase::Starting { port } => PhaseView::Starting(*port),
            DeployPhase::HealthChecking { port } => PhaseView::HealthChecking(*port),
            DeployPhase::FetchingLogs => PhaseView::FetchingLogs,
            DeployPhase::Finished => PhaseView::Finished,
        }
    }
}

/// What the caller reports of the work it did.
#[derive(Debug)]
pub enum DeployEvent {
    /// The deployment is asked for.
    Begin,
    /// Whether the Docker daemon answers.
    DockerChecked(bool),
    /// A line the image pull printed.
    PullOutput(String),
    /// The pull ended; on failure, what it printed on its error stream.
    PullFinished { ok: bool, stderr: String },
    /// Whether a stale container was removed.
    OldRemoved(bool),
    /// `settings.yml` was written (the file's path, and the proxy it routes through), or
    /// why it could not be.
    ConfigPrepared(Result<(String, Option<String>), String>),
    /// The host port chosen.
    PortFound(u16),
    /// `docker run` ended, with its output streams.
    RunFinished { ok: bool, stdout: String, stderr: String },
    /// Whether the health check passed.
    HealthChecked(bool),
    /// The container's recent logs.
    LogsFetched(String),
}

pub enum EventView {
    Begin,
    DockerChecked(bool),
    PullOutput(Seq<char>),
    PullFinished(bool, Seq<char>),
    OldRemoved(bool),
    ConfigPrepared(Result<(Seq<char>, Option<Seq<char>>), Seq<char>>),
    PortFound(u16),
    RunFinished(bool, Seq<char>, Seq<char>),
    HealthChecked(bool),
    LogsFetched(Seq<char>),
}

impl View for DeployEvent {
    type V = EventView;

    open spec fn view(&self) -> EventView {
        match self {
            DeployEvent::Begin => EventView::Begin,
            DeployEvent::DockerChecked(b) => EventView::DockerChecked(*b),
            DeployEvent::PullOutput(l) => EventView::PullOutput(l@),
            DeployEvent::PullFinished { ok, stderr } => EventView::PullFinished(*ok, stderr@),
            DeployEvent::OldRemoved(b) => EventView::OldRemoved(*b),
            DeployEvent::ConfigPrepared(r) => EventView::ConfigPrepared(
                match r {
                    Ok((p, x)) => Ok((p@, x.deep_view())),
                    Err(e) => Err(e@),
                },
            ),
            DeployEvent::PortFound(p) => EventView::PortFound(*p),
            DeployEvent::RunFinished { ok, stdout, stderr } => EventView::RunFinished(*ok, stdout@, stderr@),
            DeployEvent::HealthChecked(b) => EventView::HealthChecked(*b),
            DeployEvent::LogsFetched(l) => EventView::LogsFetched(l@),
        }
    }
}

/// The work the caller does next.
#[derive(Debug)]
pub enum DeployAction {
    /// Ask whether the Docker daemon runs.
    CheckDocker,
    /// Start `docker pull searxng/searxng`, then report its lines and its end.
    StartPull,
    /// Report the pull's next line, or its end.
    ReadPull,
    /// Run `docker rm -f opencomputer-searxng`.
    RemoveOld,
    /// Write `settings.yml`.
    PrepareConfig,
    /// Find a free host port.
    FindPort,
    /// Run `docker` with these arguments.
    RunContainer(Vec<String>),
    /// Health-check the service on this port: up to 30 attempts, a second apart.
    HealthCheck(u16),
    /// Fetch the container's last 50 log lines.
    FetchLogs,
    /// The deployment ends: the service's URL, or the error.
    Finish(Result<String, String>),
    /// The event does not belong to this phase: nothing to do.
    Ignore,
}

pub enum ActionView {
    CheckDocker,
    StartPull,
    ReadPull,
    RemoveOld,
    PrepareConfig,
    FindPort,
    RunContainer(Seq<Seq<char>>),
    HealthCheck(u16),
    FetchLogs,
    Finish(Result<Seq<char>, Seq<char>>),
    Ignore,
}

impl View for DeployAction {
    type V = ActionView;

    open spec fn view(&self) -> ActionView {
        match self {
            DeployAction::CheckDocker => ActionView::CheckDocker,
            DeployAction::StartPull => ActionView::StartPull,
            DeployAction::ReadPull => ActionView::ReadPull,
            DeployAction::RemoveOld => ActionView::RemoveOld,
            DeployAction::PrepareConfig => ActionView::PrepareConfig,
            DeployAction::FindPort => ActionView::FindPort,
            DeployAction::RunContainer(a) => ActionView::RunContainer(strs_of(a@)),
            DeployAction::HealthCheck(p) => ActionView::HealthCheck(*p),
            DeployAction::FetchLogs => ActionView::FetchLogs,
            DeployAction::Finish(r) => ActionView::Finish(
                match r {
                    Ok(u) => Ok(u@),
                    Err(e) => Err(e@),
                },
            ),
            DeployAction::Ignore => ActionView::Ignore,
        }
    }
}

/// One move of a deployment: the next phase, the progress notes to report (in
/// order), and the work to do.
#[derive(Debug)]
pub struct DeployStep {
    pub phase: DeployPhase,
    pub notes: Vec<ProgressNote>,
    pub action: DeployAction,
}

pub open spec fn log(m: Seq<char>) -> NoteView {
    NoteView::Log(m)
}

pub open spec fn step(s: Seq<char>) -> NoteView {
    NoteView::Step(s)
}

/// The first 12 bytes of a container id (all of it when shorter).
pub open spec fn short_id(id: Seq<char>) -> Seq<char> {
    if crate::text::blen(id) <= 12 {
        id
    } else {
        crate::skills::byte_prefix(id, 12)
    }
}

/// The container id can be cut at its 12th byte.
pub open spec fn event_ok(e: EventView) -> bool {
    match e {
        EventView::RunFinished(true, out, _) => crate::text::blen(trim(out)) > 12
            ==> crate::skills::has_byte_prefix(trim(out), 12),
        _ => true,
    }
}

/// The deployment's decisions. From `Idle`, on `Begin`: check Docker. Without
/// a daemon, fail; else pull the image, logging each non-empty trimmed line it
/// prints. A failed pull fails with its error output; else the stale container
/// is removed, `settings.yml` written (failing with its error), a port found,
/// and the container run with `run_args`. A failed run fails with its error
/// output; else the service is health-checked: when healthy the deployment
/// ends with its URL `http://127.0.0.1:<port>`, else the container's logs are
/// fetched and it fails with them. An event that does not belong to the phase
/// changes nothing.
pub open spec fn deploy_transition(p: PhaseView, e: EventView) -> (PhaseView, Seq<NoteView>, ActionView) {
    let ignore = (p, seq![], ActionView::Ignore);
    match p {
        PhaseView::Idle => match e {
            EventView::Begin => (PhaseView::CheckingDocker, seq![step("checking_docker"@)], ActionView::CheckDocker),
            _ => ignore,
        },
        PhaseView::CheckingDocker => match e {
            EventView::DockerChecked(false) => (
                PhaseView::Finished,
                seq![log("ERROR: Docker daemon is not running"@)],
                ActionView::Finish(Err("Docker daemon is not running. Please start Docker Desktop first."@)),
            ),
            EventView::DockerChecked(true) => (
                PhaseView::Pulling,
                seq![
                    log("Docker daemon is available"@),
                    step("pulling_image"@),
                    log("docker pull searxng/searxng"@),
                ],
                ActionView::StartPull,
            ),
            _ => ignore,
        },
        PhaseView::Pulling => match e {
            EventView::PullOutput(l) => (
                PhaseView::Pulling,
                if trim(l).len() > 0 {
                    seq![log(trim(l))]
                } else {
                    seq![]
                },
                ActionView::ReadPull,
            ),
            EventView::PullFinished(false, err) => (
                PhaseView::Finished,
                seq![log("ERROR: "@ + err)],
                ActionView::Finish(Err("docker pull failed: "@ + err)),
            ),
            EventView::PullFinished(true, _) => (
                PhaseView::RemovingOld,
                seq![
                    log("Image pulled successfully"@),
                    step("removing_old"@),
                    log("docker rm -f opencomputer-searxng"@),
                ],
                ActionView::RemoveOld,
            ),
            _ => ignore,
        },
        PhaseView::RemovingOld => match e {
            EventView::OldRemoved(removed) => (
                PhaseView::PreparingConfig,
                if removed {
                    seq![log("Removed old container"@), step("injecting_config"@)]
                } else {
                    seq![step("injecting_config"@)]
                },
                ActionView::PrepareConfig,
            ),
            _ => ignore,
        },
        PhaseView::PreparingConfig => match e {
            EventView::ConfigPrepared(Err(msg)) => (PhaseView::Finished, seq![], ActionView::Finish(Err(msg))),
            EventView::ConfigPrepared(Ok((path, proxy))) => (
                PhaseView::FindingPort(path, proxy),
                seq![log("Config: "@ + path)],
                ActionView::FindPort,
            ),
            _ => ignore,
        },
        PhaseView::FindingPort(path, proxy) => match e {
            EventView::PortFound(port) => (
                PhaseView::Starting(port),
                seq![log("Selected port: "@ + dec(port as nat)), step("starting_container"@)] + match proxy {
                    Some(u) => seq![log("Proxy: "@ + u)],
                    None => seq![],
                } + seq![
                    log("docker run -d --name opencomputer-searxng -p "@ + dec(port as nat) + ":8080 ..."@),
                ],
                ActionView::RunContainer(run_args(port, path, proxy)),
            ),
            _ => ignore,
        },
        PhaseView::Starting(port) => match e {
            EventView::RunFinished(false, _, err) => (
                PhaseView::Finished,
                seq![log("ERROR: "@ + err)],
                ActionView::Finish(Err("docker run failed: "@ + err)),
            ),
            EventView::RunFinished(true, out, _) => (
                PhaseView::HealthChecking(port),
                seq![
                    log("Container started ("@ + short_id(trim(out)) + ")"@),
                    step("health_check"@),
                    log("Waiting for health check on port "@ + dec(port as nat) + "..."@),
                ],
                ActionView::HealthCheck(port),
            ),
            _ => ignore,
        },
        PhaseView::HealthChecking(port) => match e {
            EventView::HealthChecked(true) => (
                PhaseView::Finished,
                seq![
                    log("Health check passed"@),
                    step("done"@),
                    log("Deployed at http://127.0.0.1:"@ + dec(port as nat)),
                ],
                ActionView::Finish(Ok("http://127.0.0.1:"@ + dec(port as nat))),
            ),
            EventView::HealthChecked(false) => (PhaseView::FetchingLogs, seq![], ActionView::FetchLogs),
            _ => ignore,
        },
        PhaseView::FetchingLogs => match e {
            EventView::LogsFetched(logs) => (
                PhaseView::Finished,
                seq![log("ERROR: Health check timed out. Logs:\n"@ + logs)],
                ActionView::Finish(Err("Health check timed out (30s). Container logs:\n"@ + logs)),
            ),
            _ => ignore,
        },
        PhaseView::Finished => ignore,
    }
}

fn copy_opt(o: &Option<String>) -> (r: Option<String>)
    ensures
        r.deep_view() == o.deep_view(),
{
    match o {
        Some(x) => Some(owned_str(x.as_str())),
        None => None,
    }
}

fn copy_phase(p: &DeployPhase) -> (r: DeployPhase)
    ensures
        r@ == p@,
{
    match p {
        DeployPhase::Idle => DeployPhase::Idle,
        DeployPhase::CheckingDocker => DeployPhase::CheckingDocker,
        DeployPhase::Pulling => DeployPhase::Pulling,
        DeployPhase::RemovingOld => DeployPhase::RemovingOld,
        DeployPhase::PreparingConfig => DeployPhase::PreparingConfig,
        DeployPhase::FindingPort { settings, proxy } => DeployPhase::FindingPort {
            settings: owned_str(settings.as_str()),
            proxy: copy_opt(proxy),
        },
        DeployPhase::Starting { port } => DeployPhase::Starting { port: *port },
        DeployPhase::HealthChecking { port } => DeployPhase::HealthChecking { port: *port },
        DeployPhase::FetchingLogs => DeployPhase::FetchingLogs,
        DeployPhase::Finished => DeployPhase::Finished,
    }
}

fn add_note(v: &mut Vec<ProgressNote>, n: ProgressNote)
    ensures
        notes_view(final(v)@) == notes_view(old(v)@).push(n@),
{
    let ghost before = notes_view(v@);
    v.push(n);
    assert(notes_view(v@) =~= before.push(n@));
}

fn log_str(s: &str) -> (r: ProgressNote)
    ensures
        r@ == log(s@),
{
    ProgressNote::Log(owned_str(s))
}

fn step_str(s: &str) -> (r: ProgressNote)
    ensures
        r@ == step(s@),
{
    ProgressNote::Step(owned_str(s))
}

fn log_cat(a: &str, b: &str) -> (r: ProgressNote)
    ensures
        r@ == log(a@ + b@),
{
    ProgressNote::Log(joined(a, b))
}

fn port_text(port: u16) -> (r: String)
    ensures
        r@ == dec(port as nat),
{
    string_of(dec_exec(port as u64).as_slice())
}

fn short_id_exec(id: &[char]) -> (r: Vec<char>)
    requires
        crate::text::blen(id@) > 12 ==> crate::skills::has_byte_prefix(id@, 12),
    ensures
        r@ == short_id(id@),
{
    if crate::text::blen_capped(id, 13) <= 12 {
        return crate::text::slice_of(id, 0, id.len());
    }
    let k = match crate::text::prefix_chars_for_bytes(id, 12) {
        Some(k) => k,
        None => {
            assert(false);
            0
        },
    };
    proof {
        crate::skills::lemma_byte_prefix(id@, 12, k as int);
    }
    crate::text::slice_of(id, 0, k)
}

fn finish_err(a: &str, b: &str) -> (r: DeployAction)
    ensures
        r@ == ActionView::Finish(Err(a@ + b@)),
{
    DeployAction::Finish(Err(joined(a, b)))
}

/// The next move of a deployment (see `deploy_transition`).
pub fn deploy_next(phase: &DeployPhase, event: &DeployEvent) -> (r: DeployStep)
    requires
        event_ok(event@),
    ensures
        (r.phase@, notes_view(r.notes@), r.action@) == deploy_transition(phase@, event@),
{
    let mut notes: Vec<ProgressNote> = Vec::new();
    let ghost t = deploy_transition(phase@, event@);
    match (phase, event) {
        (DeployPhase::Idle, DeployEvent::Begin) => {
            add_note(&mut notes, step_str("checking_docker"));
            assert(notes_view(notes@) =~= t.1);
            DeployStep { phase: DeployPhase::CheckingDocker, notes, action: DeployAction::CheckDocker }
        },
        (DeployPhase::CheckingDocker, DeployEvent::DockerChecked(running)) => {
            if *running {
                add_note(&mut notes, log_str("Docker daemon is available"));
                add_note(&mut notes, step_str("pulling_image"));
                add_note(&mut notes, log_str("docker pull searxng/searxng"));
                assert(notes_view(notes@) =~= t.1);
                DeployStep { phase: DeployPhase::Pulling, notes, action: DeployAction::StartPull }
            } else {
                add_note(&mut notes, log_str("ERROR: Docker daemon is not running"));
                assert(notes_view(notes@) =~= t.1);
                DeployStep {
                    phase: DeployPhase::Finished,
                    notes,
                    action: DeployAction::Finish(
                        Err(owned_str("Docker daemon is not running. Please start Docker Desktop first.")),
                    ),
                }
            }
        },
        (DeployPhase::Pulling, DeployEvent::PullOutput(line)) => {
            let tl = trim_exec(chars_of(line.as_str()).as_slice());
            if tl.len() > 0 {
                add_note(&mut notes, ProgressNote::Log(string_of(tl.as_slice())));
            }
            assert(notes_view(notes@) =~= t.1);
            DeployStep { phase: DeployPhase::Pulling, notes, action: DeployAction::ReadPull }
        },
        (DeployPhase::Pulling, DeployEvent::PullFinished { ok, stderr }) => {
            if *ok {
                add_note(&mut notes, log_str("Image pulled successfully"));
                add_note(&mut notes, step_str("removing_old"));
                add_note(&mut notes, log_str("docker rm -f opencomputer-searxng"));
                assert(notes_view(notes@) =~= t.1);
                DeployStep { phase: DeployPhase::RemovingOld, notes, action: DeployAction::RemoveOld }
            } else {
                add_note(&mut notes, log_cat("ERROR: ", stderr.as_str()));
                assert(notes_view(notes@) =~= t.1);
                DeployStep {
                    phase: DeployPhase::Finished,
                    notes,
                    action: finish_err("docker pull failed: ", stderr.as_str()),
                }
            }
        },
        (DeployPhase::RemovingOld, DeployEvent::OldRemoved(removed)) => {
            if *removed {
                add_note(&mut notes, log_str("Removed old container"));
            }
            add_note(&mut notes, step_str("injecting_config"));
            assert(notes_view(notes@) =~= t.1);
            DeployStep { phase: DeployPhase::PreparingConfig, notes, action: DeployAction::PrepareConfig }
        },
        (DeployPhase::PreparingConfig, DeployEvent::ConfigPrepared(res)) => {
            match res {
                Ok((path, proxy)) => {
                    add_note(&mut notes, log_cat("Config: ", path.as_str()));
                    assert(notes_view(notes@) =~= t.1);
                    DeployStep {
                        phase: DeployPhase::FindingPort { settings: owned_str(path.as_str()), proxy: copy_opt(proxy) },
                        notes,
                        action: DeployAction::FindPort,
                    }
                },
                Err(msg) => {
                    assert(notes_view(notes@) =~= t.1);
                    DeployStep {
                        phase: DeployPhase::Finished,
                        notes,
                        action: DeployAction::Finish(Err(owned_str(msg.as_str()))),
                    }
                },
            }
        },
        (DeployPhase::FindingPort { settings, proxy }, DeployEvent::PortFound(port)) => {
            let pt = port_text(*port);
            add_note(&mut notes, log_cat("Selected port: ", pt.as_str()));
            add_note(&mut notes, step_str("starting_container"));
            match proxy {
                Some(u) => add_note(&mut notes, log_cat("Proxy: ", u.as_str())),
                None => {},
            }
            let mut line = chars_of("docker run -d --name opencomputer-searxng -p ");
            extend_str(&mut line, pt.as_str());
            extend_str(&mut line, ":8080 ...");
            add_note(&mut notes, ProgressNote::Log(string_of(line.as_slice())));
            assert(notes_view(notes@) =~= t.1);
            let args = docker_run_args(*port, settings.as_str(), proxy);
            DeployStep {
                phase: DeployPhase::Starting { port: *port },
                notes,
                action: DeployAction::RunContainer(args),
            }
        },
        (DeployPhase::Starting { port }, DeployEvent::RunFinished { ok, stdout, stderr }) => {
            if *ok {
                let id = trim_exec(chars_of(stdout.as_str()).as_slice());
                let short = short_id_exec(id.as_slice());
                let mut line = chars_of("Container started (");
                extend_chars(&mut line, short.as_slice());
                extend_str(&mut line, ")");
                add_note(&mut notes, ProgressNote::Log(string_of(line.as_slice())));
                add_note(&mut notes, step_str("health_check"));
                let pt = port_text(*port);
                let mut w = chars_of("Waiting for health check on port ");
                extend_str(&mut w, pt.as_str());
                extend_str(&mut w, "...");
                add_note(&mut notes, ProgressNote::Log(string_of(w.as_slice())));
                assert(notes_view(notes@) =~= t.1);
                DeployStep {
                    phase: DeployPhase::HealthChecking { port: *port },
                    notes,
                    action: DeployAction::HealthCheck(*port),
                }
            } else {
                add_note(&mut notes, log_cat("ERROR: ", stderr.as_str()));
                assert(notes_view(notes@) =~= t.1);
                DeployStep {
                    phase: DeployPhase::Finished,
                    notes,
                    action: finish_err("docker run failed: ", stderr.as_str()),
                }
            }
        },
        (DeployPhase::HealthChecking { port }, DeployEvent::HealthChecked(healthy)) => {
            if *healthy {
                let pt = port_text(*port);
                add_note(&mut notes, log_str("Health check passed"));
                add_note(&mut notes, step_str("done"));
                add_note(&mut notes, log_cat("Deployed at http://127.0.0.1:", pt.as_str()));
                assert(notes_view(notes@) =~= t.1);
                DeployStep {
                    phase: DeployPhase::Finished,
                    notes,
                    action: DeployAction::Finish(Ok(joined("http://127.0.0.1:", pt.as_str()))),
                }
            } else {
                assert(notes_view(notes@) =~= t.1);
                DeployStep { phase: DeployPhase::FetchingLogs, notes, action: DeployAction::FetchLogs }
            }
        },
        (DeployPhase::FetchingLogs, DeployEvent::LogsFetched(logs)) => {
            add_note(&mut notes, log_cat("ERROR: Health check timed out. Logs:\n", logs.as_str()));
            assert(notes_view(notes@) =~= t.1);
            DeployStep {
                phase: DeployPhase::Finished,
                notes,
                action: finish_err("Health check timed out (30s). Container logs:\n", logs.as_str()),
            }
        },
        _ => {
            assert(notes_view(notes@) =~= t.1);
            DeployStep { phase: copy_phase(phase), notes, action: DeployAction::Ignore }
        },
    }
}

/// A deployment ends exactly when its phase becomes `Finished`, and it ends
/// with the service's URL only on a passed health check, the URL being
/// `http://127.0.0.1:` and the checked port.
pub proof fn lemma_deploy_ends_well(p: PhaseView, e: EventView)
    requires
        !(p is Finished),
    ensures
        (deploy_transition(p, e).0 is Finished) <==> (deploy_transition(p, e).2 is Finish),
        deploy_transition(p, e).2 matches ActionView::Finish(Ok(u)) ==> (p matches PhaseView::HealthChecking(port)
            && e == EventView::HealthChecked(true) && u == "http://127.0.0.1:"@ + dec(port as nat)),
{
}

// ───────────────────────────── the command sandbox ─────────────────────────────

/// Output of a command run in the sandbox container.
#[derive(Debug, Clone)]
pub struct SandboxResult {
    pub stdout: String,
    pub stderr: String,
    pub exit_code: i64,
    pub timed_out: bool,
}

/// An entry of the environment asked for: its name, and its value when that
/// is a string.
#[derive(Debug, Clone)]
pub struct EnvEntry {
    pub key: String,
    pub text: Option<String>,
}

pub open spec fn env_views(v: Seq<EnvEntry>) -> Seq<(Seq<char>, Option<Seq<char>>)> {
    Seq::new(v.len(), |i: int| (v[i].key@, v[i].text.deep_view()))
}

/// `KEY=value` for each entry whose value is a string, in order.
pub open spec fn env_assignments(v: Seq<(Seq<char>, Option<Seq<char>>)>) -> Seq<Seq<char>>
    decreases v.len(),
{
    if v.len() == 0 {
        seq![]
    } else {
        let prev = env_assignments(v.drop_last());
        match v.last().1 {
            Some(x) => prev.push(v.last().0 + "="@ + x),
            None => prev,
        }
    }
}

/// The container's environment: the `KEY=value` assignments, none at all when
/// there are none.
pub fn sandbox_env(entries: &Vec<EnvEntry>) -> (r: Option<Vec<String>>)
    ensures
        match r {
            Some(v) => strs_of(v@) == env_assignments(env_views(entries@)) && v@.len() > 0,
            None => env_assignments(env_views(entries@)).len() == 0,
        },
{
    let mut out: Vec<String> = Vec::new();
    let ghost ev = env_views(entries@);
    let mut i: usize = 0;
    while i < entries.len()
        invariant
            i <= entries@.len(),
            ev == env_views(entries@),
            strs_of(out@) == env_assignments(ev.take(i as int)),
        decreases entries@.len() - i,
    {
        assert(ev.take(i + 1).drop_last() =~= ev.take(i as int));
        match &entries[i].text {
            Some(x) => {
                let mut a = chars_of(entries[i].key.as_str());
                extend_str(&mut a, "=");
                extend_str(&mut a, x.as_str());
                push_str(&mut out, string_of(a.as_slice()));
            },
            None => {},
        }
        i += 1;
    }
    assert(ev.take(entries@.len() as int) =~= ev);
    if out.len() == 0 {
        None
    } else {
        Some(out)
    }
}

/// The container's command: `sh -c <command>`.
pub fn sandbox_command(command: &str) -> (r: Vec<String>)
    ensures
        strs_of(r@) == seq!["sh"@, "-c"@, command@],
{
    let mut v: Vec<String> = Vec::new();
    push_str(&mut v, owned_str("sh"));
    push_str(&mut v, owned_str("-c"));
    push_str(&mut v, owned_str(command));
    assert(strs_of(v@) =~= seq!["sh"@, "-c"@, command@]);
    v
}

/// The bind mount of the working directory at `/workspace`.
pub fn sandbox_bind(host_dir: &str) -> (r: String)
    ensures
        r@ == host_dir@ + ":/workspace"@,
{
    joined(host_dir, ":/workspace")
}

/// The user the container runs as, `uid:gid`, when the host's ids are known.
pub fn sandbox_user(ids: Option<(u32, u32)>) -> (r: Option<String>)
    ensures
        match ids {
            Some((u, g)) => r matches Some(s) && s@ == dec(u as nat) + ":"@ + dec(g as nat),
            None => r is None,
        },
{
    match ids {
        Some((u, g)) => {
            let mut v = dec_exec(u as u64);
            extend_str(&mut v, ":");
            extend_chars(&mut v, dec_exec(g as u64).as_slice());
            Some(string_of(v.as_slice()))
        },
        None => None,
    }
}

/// The sandbox container's name for a UUID text: `opencomputer-sandbox-` and
/// the text before its first `-`.
pub open spec fn sandbox_name(id: Seq<char>) -> Seq<char> {
    "opencomputer-sandbox-"@ + id.take(crate::text::first_index(id, '-') as int)
}

/// The sandbox container's name for a UUID text (see `sandbox_name`).
pub fn sandbox_container_name_of(id: &str) -> (r: String)
    ensures
        r@ == sandbox_name(id@),
{
    let c = chars_of(id);
    let k = crate::text::first_index_exec(c.as_slice(), '-');
    proof {
        crate::text::lemma_first_index_bound(c@, '-');
    }
    let mut v = chars_of("opencomputer-sandbox-");
    extend_chars(&mut v, crate::text::slice_of(c.as_slice(), 0, k).as_slice());
    string_of(v.as_slice())
}

/// A fresh sandbox container name: `opencomputer-sandbox-` and the first group
/// of a random UUID (eight hexadecimal digits).
pub fn sandbox_container_name() -> (r: String)
    ensures
        exists|id: Seq<char>| #![auto] id.len() == 8 && r@ == "opencomputer-sandbox-"@ + id
            && forall|i: int| 0 <= i < 8 ==> crate::process::uuid_char(#[trigger] id[i]) && id[i] != '-',
{
    let u = crate::process::uuid_v4_text();
    let ghost us = u@;
    proof {
        assert(us[8] == '-');
        assert forall|i: int| 0 <= i < 8 implies us[i] != '-' by {
            assert(us[i] == '-' <==> (i == 8 || i == 13 || i == 18 || i == 23));
        }
        lemma_first_hyphen(us);
        assert(uuid_head(us).len() == 8);
    }
    sandbox_container_name_of(u.as_str())
}

spec fn uuid_head(u: Seq<char>) -> Seq<char> {
    u.take(crate::text::first_index(u, '-') as int)
}

proof fn lemma_first_hyphen(u: Seq<char>)
    requires
        u.len() > 8,
        u[8] == '-',
        forall|i: int| 0 <= i < 8 ==> u[i] != '-',
    ensures
        crate::text::first_index(u, '-') == 8,
{
    crate::text::lemma_first_index(u, '-', 8);
}

/// How waiting for the sandbox container ended.
#[derive(Debug, Clone)]
pub enum WaitOutcome {
    /// It exited with this code.
    Exited(i64),
    /// Waiting failed with this error.
    Failed(String),
    /// The time allowed ran out.
    TimedOut,
}

/// The exit code and whether the command timed out (`-1` then), or, when
/// waiting failed, the error to report.
pub fn settle_wait(w: &WaitOutcome) -> (r: Result<(i64, bool), String>)
    ensures
        match w {
            WaitOutcome::Exited(c) => r == Ok::<(i64, bool), String>((*c, false)),
            WaitOutcome::TimedOut => r == Ok::<(i64, bool), String>((-1i64, true)),
            WaitOutcome::Failed(e) => r matches Err(m) && m@ == "Container execution failed: "@ + e@,
        },
{
    match w {
        WaitOutcome::Exited(c) => Ok((*c, false)),
        WaitOutcome::TimedOut => Ok((-1, true)),
        WaitOutcome::Failed(e) => Err(joined("Container execution failed: ", e.as_str())),
    }
}

} // verus!
