//! Bookkeeping for background shell processes: their output (capped aggregate,
//! rolling tail, pending chunks for draining), exit state and expiry.
use vstd::prelude::*;
use crate::keyed::{
    find_key, lemma_find_key, lemma_find_key_unique, lemma_store_then_get, lemma_update_keeps_keys, lookup, stored,
    unique_keys, Keyed,
};
use crate::skills::{byte_prefix, byte_suffix, has_byte_prefix, has_byte_suffix};
use crate::text::{
    blen, blen_capped, chars_of, prefix_chars_for_bytes, slice_of, str_eq, string_of,
    suffix_chars_for_bytes, trim, trim_exec,
};

verus! {

/// Run state of a background process.
#[derive(Debug, Clone, Copy, PartialEq, Eq, Structural)]
pub enum ProcessStatus {
    Running,
    Completed,
    Failed,
}

pub open spec fn process_status_name(s: ProcessStatus) -> Seq<char> {
    match s {
        ProcessStatus::Running => "running"@,
        ProcessStatus::Completed => "completed"@,
        ProcessStatus::Failed => "failed"@,
    }
}

impl ProcessStatus {
    /// The status as displayed.
    pub fn as_str(&self) -> (r: &'static str)
        ensures
            r@ == process_status_name(*self),
    {
        match self {
            ProcessStatus::Running => "running",
            ProcessStatus::Completed => "completed",
            ProcessStatus::Failed => "failed",
        }
    }
}

/// A background process and its output.
#[derive(Debug, Clone)]
pub struct ProcessSession {
    pub id: String,
    pub command: String,
    pub pid: Option<u32>,
    pub cwd: String,
    /// Start time, milliseconds since the Unix epoch.
    pub started_at: u64,
    pub exited: bool,
    pub exit_code: Option<i32>,
    pub exit_signal: Option<String>,
    pub status: ProcessStatus,
    pub backgrounded: bool,
    /// All output, up to `max_output_chars` bytes.
    pub aggregated_output: String,
    /// The last `TAIL_BYTES` bytes of output.
    pub tail: String,
    /// Whether output was cut off at `max_output_chars`.
    pub truncated: bool,
    pub max_output_chars: usize,
    /// Standard output since the last drain.
    pub pending_stdout: String,
    /// Standard error since the last drain.
    pub pending_stderr: String,
}

/// How many bytes of output the tail keeps.
pub const TAIL_BYTES: usize = 2000;

/// Byte slicing in `append_output` stays on character boundaries: the cut of the
/// aggregate at the cap, and the cut of the tail at its last `TAIL_BYTES` bytes.
pub open spec fn append_ok(s: ProcessSession, data: Seq<char>) -> bool {
    let agg = blen(s.aggregated_output@);
    let t = s.tail@ + data;
    &&& (agg < s.max_output_chars && blen(data) > s.max_output_chars - agg) ==> has_byte_prefix(
        data,
        (s.max_output_chars - agg) as nat,
    )
    &&& blen(t) > TAIL_BYTES ==> has_byte_suffix(t, TAIL_BYTES as nat)
}

/// `n` is `s` after `data` arrived on `stream`: the aggregate grows up to the
/// cap (marking truncation when cut), the tail keeps the last `TAIL_BYTES` bytes,
/// and `stdout` / `stderr` data is queued for draining.
pub open spec fn appended(s: ProcessSession, n: ProcessSession, stream: Seq<char>, data: Seq<char>) -> bool {
    let agg = blen(s.aggregated_output@);
    let t = s.tail@ + data;
    &&& if agg < s.max_output_chars {
        if blen(data) <= s.max_output_chars - agg {
            n.aggregated_output@ == s.aggregated_output@ + data && n.truncated == s.truncated
        } else {
            n.aggregated_output@ == s.aggregated_output@ + byte_prefix(
                data,
                (s.max_output_chars - agg) as nat,
            ) && n.truncated
        }
    } else {
        n.aggregated_output@ == s.aggregated_output@ && n.truncated == s.truncated
    }
    &&& n.tail@ == if blen(t) > TAIL_BYTES {
        byte_suffix(t, TAIL_BYTES as nat)
    } else {
        t
    }
    &&& n.pending_stdout@ == if stream == "stdout"@ {
        s.pending_stdout@ + data
    } else {
        s.pending_stdout@
    }
    &&& n.pending_stderr@ == if stream == "stderr"@ {
        s.pending_stderr@ + data
    } else {
        s.pending_stderr@
    }
    &&& n.id == s.id
    &&& n.command == s.command
    &&& n.pid == s.pid
    &&& n.cwd == s.cwd
    &&& n.started_at == s.started_at
    &&& n.exited == s.exited
    &&& n.exit_code == s.exit_code
    &&& n.exit_signal == s.exit_signal
    &&& n.status == s.status
    &&& n.backgrounded == s.backgrounded
    &&& n.max_output_chars == s.max_output_chars
}

/// The collected output never outgrows its cap, nor the tail `TAIL_BYTES`:
/// appending to a session within its cap keeps it within its cap, and leaves
/// a tail of at most `TAIL_BYTES` bytes.
pub proof fn lemma_output_bounded(s: ProcessSession, n: ProcessSession, stream: Seq<char>, data: Seq<char>)
    requires
        append_ok(s, data),
        appended(s, n, stream, data),
        blen(s.aggregated_output@) <= s.max_output_chars,
    ensures
        blen(n.aggregated_output@) <= n.max_output_chars,
        blen(n.tail@) <= TAIL_BYTES,
{
    let agg = blen(s.aggregated_output@);
    if agg < s.max_output_chars {
        if blen(data) <= s.max_output_chars - agg {
            crate::text::lemma_blen_concat(s.aggregated_output@, data);
        } else {
            let m = (s.max_output_chars - agg) as nat;
            let k = choose|k: int| 0 <= k <= data.len() && blen(data.take(k)) == m;
            crate::skills::lemma_byte_prefix(data, m, k);
            crate::text::lemma_blen_concat(s.aggregated_output@, data.take(k));
        }
    }
    let t = s.tail@ + data;
    if blen(t) > TAIL_BYTES {
        let k = choose|k: int| 0 <= k <= t.len() && crate::skills::suffix_blen(t, k) == TAIL_BYTES as nat;
        crate::skills::lemma_byte_suffix(t, TAIL_BYTES as nat, k);
    }
}

/// `n` is `s` with its pending standard output and error taken: both empty,
/// every other field as it was.
pub open spec fn drained(s: ProcessSession, n: ProcessSession) -> bool {
    &&& n.pending_stdout@.len() == 0
    &&& n.pending_stderr@.len() == 0
    &&& n.id == s.id
    &&& n.command == s.command
    &&& n.pid == s.pid
    &&& n.cwd == s.cwd
    &&& n.started_at == s.started_at
    &&& n.exited == s.exited
    &&& n.exit_code == s.exit_code
    &&& n.exit_signal == s.exit_signal
    &&& n.status == s.status
    &&& n.backgrounded == s.backgrounded
    &&& n.aggregated_output == s.aggregated_output
    &&& n.tail == s.tail
    &&& n.truncated == s.truncated
    &&& n.max_output_chars == s.max_output_chars
}

/// Draining session `id` of `v` gives `n` and returns `out` and `err`: the
/// session's pending output and error are returned and emptied in place,
/// everything else kept; an unknown id returns two empty strings and changes
/// nothing.
pub open spec fn drain_step(v: Entries, id: Seq<char>, n: Entries, out: Seq<char>, err: Seq<char>) -> bool {
    match find_key(v, id) {
        Some(i) => {
            &&& out == v[i].1.pending_stdout@
            &&& err == v[i].1.pending_stderr@
            &&& n.len() == v.len()
            &&& n[i].0 == v[i].0
            &&& drained(v[i].1, n[i].1)
            &&& forall|j: int| 0 <= j < v.len() && j != i ==> #[trigger] n[j] == v[j]
        },
        None => out.len() == 0 && err.len() == 0 && n == v,
    }
}

/// Draining the same session twice in a row: the second drain returns two
/// empty strings.
pub proof fn lemma_second_drain_empty(
    a: Entries,
    id: Seq<char>,
    b: Entries,
    out1: Seq<char>,
    err1: Seq<char>,
    c: Entries,
    out2: Seq<char>,
    err2: Seq<char>,
)
    requires
        drain_step(a, id, b, out1, err1),
        drain_step(b, id, c, out2, err2),
    ensures
        out2.len() == 0,
        err2.len() == 0,
{
    lemma_find_key(a, id);
    lemma_find_key(b, id);
    match find_key(a, id) {
        Some(i) => {
            assert(b[i].0 == id);
            match find_key(b, id) {
                Some(k) => {
                    if k < i {
                        assert(b[i].0 == a[i].0);
                    } else if k > i {
                        assert(b[k] == a[k]);
                    }
                },
                None => {},
            }
        },
        None => {},
    }
}

/// What `list_running` and `list_finished` return together is what `list_all`
/// returns: every session is in exactly one of the two lists (as multisets,
/// running plus finished equals all), so their lengths add up to the count.
pub proof fn lemma_running_and_finished(v: Entries)
    ensures
        with_exited(v, false).len() + with_exited(v, true).len() == sessions_of(v).len(),
        with_exited(v, false).to_multiset().add(with_exited(v, true).to_multiset())
            =~= sessions_of(v).to_multiset(),
    decreases v.len(),
{
    if v.len() > 0 {
        let p = v.drop_last();
        let x = v.last().1;
        lemma_running_and_finished(p);
        assert(sessions_of(v) =~= sessions_of(p).push(x));
        vstd::seq_lib::to_multiset_build(sessions_of(p), x);
        vstd::seq_lib::to_multiset_build(with_exited(p, x.exited), x);
    } else {
        assert(sessions_of(v) =~= Seq::<ProcessSession>::empty());
        Seq::<ProcessSession>::empty().to_multiset_ensures();
        assert(with_exited(v, false) =~= Seq::<ProcessSession>::empty());
        assert(with_exited(v, true) =~= Seq::<ProcessSession>::empty());
        assert(with_exited(v, false).to_multiset() =~= vstd::multiset::Multiset::<ProcessSession>::empty());
        assert(with_exited(v, true).to_multiset() =~= vstd::multiset::Multiset::<ProcessSession>::empty());
        assert(sessions_of(v).to_multiset() =~= vstd::multiset::Multiset::<ProcessSession>::empty());
    }
}

/// Appends `data`, received on `stream`, to a session's output (see `appended`).
pub fn append_to_session(s: &mut ProcessSession, stream: &str, data: &str)
    requires
        append_ok(*old(s), data@),
    ensures
        appended(*old(s), *final(s), stream@, data@),
{
    let ghost s0 = *s;
    let dc = chars_of(data);
    let agg = chars_of(s.aggregated_output.as_str());
    let agg_len = blen_capped(agg.as_slice(), usize::MAX);
    if agg_len < s.max_output_chars {
        let remaining = s.max_output_chars - agg_len;
        if crate::text::blen_le(dc.as_slice(), remaining) {
            s.aggregated_output.append(data);
        } else {
            let k = match prefix_chars_for_bytes(dc.as_slice(), remaining) {
                Some(k) => k,
                None => {
                    assert(false);
                    0
                },
            };
            proof {
                crate::skills::lemma_byte_prefix(dc@, remaining as nat, k as int);
            }
            let head = string_of(slice_of(dc.as_slice(), 0, k).as_slice());
            assert(dc@.subrange(0, k as int) =~= dc@.take(k as int));
            s.aggregated_output.append(head.as_str());
            s.truncated = true;
        }
    }
    let mut t = chars_of(s.tail.as_str());
    let mut i: usize = 0;
    let ghost t0 = t@;
    while i < dc.len()
        invariant
            i <= dc@.len(),
            t@ == t0 + dc@.take(i as int),
        decreases dc@.len() - i,
    {
        assert(dc@.take(i + 1) =~= dc@.take(i as int).push(dc@[i as int]));
        t.push(dc[i]);
        assert(t@ =~= t0 + dc@.take(i + 1));
        i += 1;
    }
    assert(dc@.take(dc@.len() as int) =~= dc@);
    if blen_capped(t.as_slice(), TAIL_BYTES + 1) > TAIL_BYTES {
        let k = match suffix_chars_for_bytes(t.as_slice(), TAIL_BYTES) {
            Some(k) => k,
            None => {
                assert(false);
                0
            },
        };
        proof {
            crate::skills::lemma_byte_suffix(t@, TAIL_BYTES as nat, k as int);
        }
        let kept = slice_of(t.as_slice(), t.len() - k, t.len());
        assert(kept@ =~= t@.skip(t@.len() - k));
        s.tail = string_of(kept.as_slice());
    } else {
        s.tail = string_of(t.as_slice());
    }
    if str_eq(stream, "stdout") {
        s.pending_stdout.append(data);
    } else if str_eq(stream, "stderr") {
        s.pending_stderr.append(data);
    }
    proof {
        reveal_strlit("stdout");
        reveal_strlit("stderr");
        assert("stdout"@ != "stderr"@) by {
            assert("stdout"@[3] != "stderr"@[3]);
        }
        let t = s0.tail@ + data@;
        assert(s.tail@ == if blen(t) > TAIL_BYTES {
            byte_suffix(t, TAIL_BYTES as nat)
        } else {
            t
        });
        assert(s.pending_stdout@ == if stream@ == "stdout"@ {
            s0.pending_stdout@ + data@
        } else {
            s0.pending_stdout@
        });
        assert(s.pending_stderr@ == if stream@ == "stderr"@ {
            s0.pending_stderr@ + data@
        } else {
            s0.pending_stderr@
        });
    }
}

// ───────────────────────────── the registry ─────────────────────────────

/// Sessions keyed by id, in the order they were first added.
pub type Entries = Keyed<ProcessSession>;

/// The entries after storing `s` under its id (replacing a session stored there).
pub open spec fn added(v: Entries, s: ProcessSession) -> Entries {
    stored(v, s.id@, s)
}

/// A stored session is found under its id, and storing it leaves every other
/// id's session as it was; keys stay unique.
pub proof fn lemma_add_then_get(v: Entries, s: ProcessSession, k: Seq<char>)
    requires
        unique_keys(v),
    ensures
        unique_keys(added(v, s)),
        lookup(added(v, s), s.id@) == Some(s),
        k != s.id@ ==> lookup(added(v, s), k) == lookup(v, k),
{
    lemma_store_then_get(v, s.id@, s, k);
}

/// Registry of background processes by id.
pub struct ProcessRegistry {
    ids: Vec<String>,
    sessions: Vec<ProcessSession>,
}

impl View for ProcessRegistry {
    type V = Entries;

    closed spec fn view(&self) -> Entries {
        Seq::new(self.ids@.len(), |i: int| (self.ids@[i]@, self.sessions@[i]))
    }
}

/// The sessions of the entries, in order.
pub open spec fn sessions_of(v: Entries) -> Seq<ProcessSession> {
    Seq::new(v.len(), |i: int| v[i].1)
}

/// The sessions whose `exited` flag is `exited`, in order.
pub open spec fn with_exited(v: Entries, exited: bool) -> Seq<ProcessSession>
    decreases v.len(),
{
    if v.len() == 0 {
        seq![]
    } else {
        let rest = with_exited(v.drop_last(), exited);
        if v.last().1.exited == exited {
            rest.push(v.last().1)
        } else {
            rest
        }
    }
}

/// The age of a session at `now`, in milliseconds (0 when stamped after `now`).
pub open spec fn age(s: ProcessSession, now: u64) -> int {
    if now >= s.started_at {
        now - s.started_at
    } else {
        0
    }
}

/// A finished session older than `ttl_ms` at `now`.
pub open spec fn expired(s: ProcessSession, now: u64, ttl_ms: u64) -> bool {
    s.exited && age(s, now) > ttl_ms
}

/// The entries that survive a cleanup at `now`, in order.
pub open spec fn survivors(v: Entries, now: u64, ttl_ms: u64) -> Entries
    decreases v.len(),
{
    if v.len() == 0 {
        seq![]
    } else {
        let rest = survivors(v.drop_last(), now, ttl_ms);
        if expired(v.last().1, now, ttl_ms) {
            rest
        } else {
            rest.push(v.last())
        }
    }
}

impl ProcessRegistry {
    /// Ids and sessions line up and ids are unique.
    pub closed spec fn wf(&self) -> bool {
        &&& self.ids@.len() == self.sessions@.len()
        &&& unique_keys(self@)
    }

    pub proof fn lemma_wf(&self)
        requires
            self.wf(),
        ensures
            unique_keys(self@),
    {
    }

    /// An empty registry.
    pub fn new() -> (r: Self)
        ensures
            r.wf(),
            r@ == Seq::<(Seq<char>, ProcessSession)>::empty(),
    {
        let r = ProcessRegistry { ids: Vec::new(), sessions: Vec::new() };
        assert(r@ =~= Seq::<(Seq<char>, ProcessSession)>::empty());
        r
    }

    fn index_of(&self, id: &str) -> (r: Option<usize>)
        requires
            self.wf(),
        ensures
            match r {
                Some(i) => find_key(self@, id@) == Some(i as int) && i < self.ids@.len() && i
                    < self.sessions@.len(),
                None => find_key(self@, id@) is None,
            },
    {
        let mut i: usize = 0;
        while i < self.ids.len()
            invariant
                self.wf(),
                i <= self.ids@.len(),
                forall|j: int| 0 <= j < i ==> self@[j].0 != id@,
            decreases self.ids@.len() - i,
        {
            if str_eq(self.ids[i].as_str(), id) {
                proof {
                    lemma_find_key_unique(self@, id@, i as int);
                }
                return Some(i);
            }
            i += 1;
        }
        proof {
            lemma_find_key(self@, id@);
        }
        None
    }

    /// Stores a session under its id, replacing one already stored there.
    pub fn add_session(&mut self, session: ProcessSession)
        requires
            old(self).wf(),
        ensures
            final(self).wf(),
            final(self)@ == added(old(self)@, session),
    {
        let ghost s0 = session;
        match self.index_of(session.id.as_str()) {
            Some(i) => {
                proof {
                    lemma_find_key(old(self)@, s0.id@);
                }
                self.sessions.set(i, session);
                assert(self@ =~= old(self)@.update(i as int, (s0.id@, s0)));
            },
            None => {
                proof {
                    lemma_find_key(old(self)@, s0.id@);
                }
                let key = string_of(chars_of(session.id.as_str()).as_slice());
                self.ids.push(key);
                self.sessions.push(session);
                assert(self@ =~= old(self)@.push((s0.id@, s0)));
            },
        }
    }

    /// The session stored under `id`.
    pub fn get_session(&self, id: &str) -> (r: Option<&ProcessSession>)
        requires
            self.wf(),
        ensures
            match lookup(self@, id@) {
                Some(s) => r matches Some(x) && *x == s,
                None => r is None,
            },
    {
        match self.index_of(id) {
            Some(i) => Some(&self.sessions[i]),
            None => None,
        }
    }

    /// Mutable access to the session stored under `id`; its key stays as it was.
    pub fn get_session_mut(&mut self, id: &str) -> (r: Option<&mut ProcessSession>)
        requires
            old(self).wf(),
        ensures
            match find_key(old(self)@, id@) {
                Some(i) => r matches Some(x) && *x == old(self)@[i].1 && final(self)@ == old(
                    self,
                )@.update(i, (old(self)@[i].0, *final(x))) && final(self).wf(),
                None => r is None && final(self)@ == old(self)@ && final(self).wf(),
            },
    {
        match self.index_of(id) {
            Some(i) => {
                proof {
                    lemma_update_keeps_keys(self@, i as int);
                }
                Some(&mut self.sessions[i])
            },
            None => None,
        }
    }

    /// The sessions still running.
    pub fn list_running(&self) -> (r: Vec<&ProcessSession>)
        requires
            self.wf(),
        ensures
            r@.map_values(|s: &ProcessSession| *s) == with_exited(self@, false),
    {
        self.list_with(false)
    }

    /// The sessions that have exited.
    pub fn list_finished(&self) -> (r: Vec<&ProcessSession>)
        requires
            self.wf(),
        ensures
            r@.map_values(|s: &ProcessSession| *s) == with_exited(self@, true),
    {
        self.list_with(true)
    }

    fn list_with(&self, exited: bool) -> (r: Vec<&ProcessSession>)
        requires
            self.wf(),
        ensures
            r@.map_values(|s: &ProcessSession| *s) == with_exited(self@, exited),
    {
        let mut out: Vec<&ProcessSession> = Vec::new();
        let mut i: usize = 0;
        while i < self.sessions.len()
            invariant
                self.wf(),
                i <= self.sessions@.len(),
                out@.map_values(|s: &ProcessSession| *s) == with_exited(self@.take(i as int), exited),
            decreases self.sessions@.len() - i,
        {
            assert(self@.take(i + 1).drop_last() =~= self@.take(i as int));
            let ghost before = out@.map_values(|s: &ProcessSession| *s);
            if self.sessions[i].exited == exited {
                out.push(&self.sessions[i]);
                assert(out@.map_values(|s: &ProcessSession| *s) =~= before.push(self@[i as int].1));
            }
            i += 1;
        }
        assert(self@.take(self.sessions@.len() as int) =~= self@);
        out
    }

    /// All sessions.
    pub fn list_all(&self) -> (r: Vec<&ProcessSession>)
        requires
            self.wf(),
        ensures
            r@.map_values(|s: &ProcessSession| *s) == sessions_of(self@),
    {
        let mut out: Vec<&ProcessSession> = Vec::new();
        let mut i: usize = 0;
        while i < self.sessions.len()
            invariant
                self.wf(),
                i <= self.sessions@.len(),
                out@.map_values(|s: &ProcessSession| *s) == sessions_of(self@).take(i as int),
            decreases self.sessions@.len() - i,
        {
            let ghost before = out@.map_values(|s: &ProcessSession| *s);
            out.push(&self.sessions[i]);
            assert(out@.map_values(|s: &ProcessSession| *s) =~= before.push(self@[i as int].1));
            assert(sessions_of(self@).take(i + 1) =~= sessions_of(self@).take(i as int).push(
                self@[i as int].1,
            ));
            i += 1;
        }
        assert(sessions_of(self@).take(self.sessions@.len() as int) =~= sessions_of(self@));
        out
    }

    /// Records that the session `id` exited; nothing happens for an unknown id.
    pub fn mark_exited(
        &mut self,
        id: &str,
        exit_code: Option<i32>,
        exit_signal: Option<String>,
        status: ProcessStatus,
    )
        requires
            old(self).wf(),
        ensures
            final(self).wf(),
            match find_key(old(self)@, id@) {
                Some(i) => final(self)@ == old(self)@.update(
                    i,
                    (
                        old(self)@[i].0,
                        ProcessSession {
                            exited: true,
                            exit_code: exit_code,
                            exit_signal: exit_signal,
                            status: status,
                            ..old(self)@[i].1
                        },
                    ),
                ),
                None => final(self)@ == old(self)@,
            },
    {
        match self.index_of(id) {
            Some(i) => {
                let mut s = self.sessions.remove(i);
                s.exited = true;
                s.exit_code = exit_code;
                s.exit_signal = exit_signal;
                s.status = status;
                self.sessions.insert(i, s);
                assert(self@ =~= old(self)@.update(
                    i as int,
                    (
                        old(self)@[i as int].0,
                        ProcessSession {
                            exited: true,
                            exit_code: exit_code,
                            exit_signal: exit_signal,
                            status: status,
                            ..old(self)@[i as int].1
                        },
                    ),
                ));
            },
            None => {},
        }
    }

    /// Appends output to the session `id` (see `appended`); nothing happens for
    /// an unknown id.
    pub fn append_output(&mut self, id: &str, stream: &str, data: &str)
        requires
            old(self).wf(),
            match lookup(old(self)@, id@) {
                Some(s) => append_ok(s, data@),
                None => true,
            },
        ensures
            final(self).wf(),
            match find_key(old(self)@, id@) {
                Some(i) => final(self)@.len() == old(self)@.len() && final(self)@[i].0 == old(
                    self,
                )@[i].0 && appended(old(self)@[i].1, final(self)@[i].1, stream@, data@)
                    && forall|j: int|
                    0 <= j < old(self)@.len() && j != i ==> #[trigger] final(self)@[j] == old(
                        self,
                    )@[j],
                None => final(self)@ == old(self)@,
            },
    {
        match self.index_of(id) {
            Some(i) => {
                let mut s = self.sessions.remove(i);
                append_to_session(&mut s, stream, data);
                self.sessions.insert(i, s);
                proof {
                    assert forall|j: int|
                        0 <= j < old(self)@.len() && j != i implies #[trigger] self@[j] == old(
                        self,
                    )@[j] by {}
                    assert forall|a: int, b: int| 0 <= a < b < self@.len() implies self@[a].0
                        != self@[b].0 by {
                        assert(self@[a].0 == old(self)@[a].0);
                        assert(self@[b].0 == old(self)@[b].0);
                    }
                }
            },
            None => {},
        }
    }

    /// Takes the pending standard output and error of session `id`, leaving
    /// them empty; two empty strings for an unknown id.
    pub fn drain_output(&mut self, id: &str) -> (r: (String, String))
        requires
            old(self).wf(),
        ensures
            final(self).wf(),
            drain_step(old(self)@, id@, final(self)@, r.0@, r.1@),
    {
        match self.index_of(id) {
            Some(i) => {
                let mut s = self.sessions.remove(i);
                let mut out = String::new();
                let mut err = String::new();
                std::mem::swap(&mut out, &mut s.pending_stdout);
                std::mem::swap(&mut err, &mut s.pending_stderr);
                self.sessions.insert(i, s);
                proof {
                    assert forall|j: int|
                        0 <= j < old(self)@.len() && j != i implies #[trigger] self@[j] == old(
                        self,
                    )@[j] by {}
                    assert forall|a: int, b: int| 0 <= a < b < self@.len() implies self@[a].0
                        != self@[b].0 by {
                        assert(self@[a].0 == old(self)@[a].0);
                        assert(self@[b].0 == old(self)@[b].0);
                    }
                }
                (out, err)
            },
            None => (String::new(), String::new()),
        }
    }

    /// Removes and returns the session `id`.
    pub fn remove_session(&mut self, id: &str) -> (r: Option<ProcessSession>)
        requires
            old(self).wf(),
        ensures
            final(self).wf(),
            r == lookup(old(self)@, id@),
            match find_key(old(self)@, id@) {
                Some(i) => final(self)@ == old(self)@.remove(i),
                None => final(self)@ == old(self)@,
            },
    {
        match self.index_of(id) {
            Some(i) => {
                self.ids.remove(i);
                let s = self.sessions.remove(i);
                assert(self@ =~= old(self)@.remove(i as int));
                Some(s)
            },
            None => None,
        }
    }

    /// Drops the exited sessions older than `ttl_ms` at time `now` (milliseconds
    /// since the Unix epoch); the others keep their order.
    pub fn cleanup_old_sessions_at(&mut self, now: u64, ttl_ms: u64)
        requires
            old(self).wf(),
        ensures
            final(self).wf(),
            final(self)@ == survivors(old(self)@, now, ttl_ms),
    {
        let mut ids: Vec<String> = Vec::new();
        let mut sessions: Vec<ProcessSession> = Vec::new();
        std::mem::swap(&mut ids, &mut self.ids);
        std::mem::swap(&mut sessions, &mut self.sessions);
        let ghost all = old(self)@;
        let ghost n = all.len();
        assert(self@ =~= survivors(all.take(0), now, ttl_ms));
        assert(Seq::new(ids@.len(), |k: int| (ids@[k]@, sessions@[k])) =~= all.skip(0));
        while ids.len() > 0
            invariant
                ids@.len() == sessions@.len(),
                ids@.len() <= n,
                n == all.len(),
                unique_keys(all),
                Seq::new(ids@.len(), |k: int| (ids@[k]@, sessions@[k])) == all.skip(n - ids@.len()),
                self.ids@.len() == self.sessions@.len(),
                self@ == survivors(all.take(n - ids@.len()), now, ttl_ms),
            decreases ids@.len(),
        {
            let ghost c = n - ids@.len();
            let ghost rest = Seq::new(ids@.len(), |k: int| (ids@[k]@, sessions@[k]));
            let ghost oi = ids@;
            let ghost os = sessions@;
            assert(rest[0] == all[c]);
            let a = ids.remove(0);
            let b = sessions.remove(0);
            assert(ids@ =~= oi.subrange(1, oi.len() as int));
            assert(sessions@ =~= os.subrange(1, os.len() as int));
            assert forall|k: int| 0 <= k < ids@.len() implies (ids@[k]@, sessions@[k]) == all.skip(
                c + 1,
            )[k] by {
                assert(rest[k + 1] == all.skip(c)[k + 1]);
            }
            assert(Seq::new(ids@.len(), |k: int| (ids@[k]@, sessions@[k])) =~= all.skip(c + 1));
            assert(all.take(c + 1).drop_last() =~= all.take(c));
            assert(all.take(c + 1).last() == all[c]);
            let stale = if b.exited {
                let age_ms = if now >= b.started_at {
                    now - b.started_at
                } else {
                    0
                };
                age_ms > ttl_ms
            } else {
                false
            };
            if !stale {
                let ghost before = self@;
                self.ids.push(a);
                self.sessions.push(b);
                assert(self@ =~= before.push(all[c]));
            }
        }
        assert(all.take(n as int) =~= all);
        proof {
            lemma_survivors_unique(all, now, ttl_ms);
        }
    }

    /// Drops the exited sessions older than `ttl_ms`, by the system clock.
    pub fn cleanup_old_sessions(&mut self, ttl_ms: u64)
        requires
            old(self).wf(),
        ensures
            final(self).wf(),
            exists|now: u64| final(self)@ == survivors(old(self)@, now, ttl_ms),
    {
        let now = now_ms();
        self.cleanup_old_sessions_at(now, ttl_ms);
    }
}

/// Every survivor comes from the entries, and keys stay unique.
pub proof fn lemma_survivors_unique(v: Entries, now: u64, ttl_ms: u64)
    requires
        unique_keys(v),
    ensures
        unique_keys(survivors(v, now, ttl_ms)),
        forall|j: int|
            0 <= j < survivors(v, now, ttl_ms).len() ==> exists|k: int|
                0 <= k < v.len() && #[trigger] survivors(v, now, ttl_ms)[j] == v[k],
    decreases v.len(),
{
    if v.len() > 0 {
        let d = v.drop_last();
        assert(unique_keys(d));
        lemma_survivors_unique(d, now, ttl_ms);
        let s = survivors(d, now, ttl_ms);
        assert forall|j: int| 0 <= j < s.len() implies exists|k: int|
            0 <= k < v.len() && #[trigger] s[j] == v[k] by {
            let k = choose|k: int| 0 <= k < d.len() && s[j] == d[k];
            assert(s[j] == v[k]);
        }
        if !expired(v.last().1, now, ttl_ms) {
            let t = s.push(v.last());
            assert forall|a: int, b: int| 0 <= a < b < t.len() implies t[a].0 != t[b].0 by {
                if b == t.len() - 1 {
                    let k = choose|k: int| 0 <= k < d.len() && s[a] == d[k];
                    assert(v[k].0 != v[v.len() - 1].0);
                }
            }
            assert forall|j: int| 0 <= j < t.len() implies exists|k: int|
                0 <= k < v.len() && #[trigger] t[j] == v[k] by {
                if j == t.len() - 1 {
                    assert(t[j] == v[v.len() - 1]);
                } else {
                    let k = choose|k: int| 0 <= k < v.len() && s[j] == v[k];
                    assert(t[j] == v[k]);
                }
            }
        }
    }
}

// ───────────────────────────── helpers ─────────────────────────────

/// Milliseconds since the Unix epoch by the system clock (0 if the clock is set
/// before the epoch). It depends on the clock, so nothing is stated of it.
#[verifier::external_body]
pub fn now_ms() -> u64 {
    std::time::SystemTime::now().duration_since(std::time::UNIX_EPOCH).unwrap_or_default().as_millis() as u64
}

/// A display name for a command: the trimmed command, cut to its first 57 bytes
/// followed by `…` when longer than 60 bytes.
pub open spec fn session_name(command: Seq<char>) -> Seq<char> {
    let t = trim(command);
    if blen(t) <= 60 {
        t
    } else {
        byte_prefix(t, 57) + "\u{2026}"@
    }
}

/// The cut at 57 bytes falls on a character boundary.
pub open spec fn session_name_ok(command: Seq<char>) -> bool {
    blen(trim(command)) > 60 ==> has_byte_prefix(trim(command), 57)
}

/// A short display name for a command (see `session_name`).
pub fn derive_session_name(command: &str) -> (r: String)
    requires
        session_name_ok(command@),
    ensures
        r@ == session_name(command@),
{
    let c = chars_of(command);
    let t = trim_exec(c.as_slice());
    if blen_capped(t.as_slice(), 61) <= 60 {
        return string_of(t.as_slice());
    }
    let k = match prefix_chars_for_bytes(t.as_slice(), 57) {
        Some(k) => k,
        None => {
            assert(false);
            0
        },
    };
    proof {
        crate::skills::lemma_byte_prefix(t@, 57, k as int);
    }
    let head = slice_of(t.as_slice(), 0, k);
    assert(head@ =~= t@.take(k as int));
    let mut r = string_of(head.as_slice());
    r.append("\u{2026}");
    r
}

/// Hexadecimal digit or hyphen, as in the text form of a UUID.
pub open spec fn uuid_char(c: char) -> bool {
    ('0' <= c && c <= '9') || ('a' <= c && c <= 'f') || c == '-'
}

/// A random (version 4) UUID in hyphenated lowercase text (`Uuid::new_v4()`
/// shown with `to_string`): 36 characters, hexadecimal digits with hyphens at
/// positions 8, 13, 18 and 23 only. Which UUID comes out is random.
#[verifier::external_body]
pub(crate) fn uuid_v4_text() -> (r: String)
    ensures
        r@.len() == 36,
        forall|i: int| 0 <= i < 36 ==> uuid_char(#[trigger] r@[i]),
        forall|i: int| 0 <= i < 36 ==> (#[trigger] r@[i] == '-' <==> (i == 8 || i == 13 || i == 18 || i == 23)),
{
    uuid::Uuid::new_v4().to_string()
}

/// A short random session id: the first 8 characters of a random UUID, which
/// are hexadecimal digits.
pub fn create_session_id() -> (r: String)
    ensures
        r@.len() == 8,
        forall|i: int| 0 <= i < 8 ==> uuid_char(#[trigger] r@[i]) && r@[i] != '-',
{
    let u = uuid_v4_text();
    let c = chars_of(u.as_str());
    let head = slice_of(c.as_slice(), 0, 8);
    string_of(head.as_slice())
}

} // verus!
