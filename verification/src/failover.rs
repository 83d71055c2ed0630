//! Model failover: classifies API error messages to decide whether to retry the
//! same model, fall back to the next one, or compact the context; and computes
//! exponential back-off delays with jitter.
use vstd::prelude::*;
use crate::text::{chars_of, contains, contains_str};

verus! {

/// Why a model request failed; drives retry and fallback decisions.
#[derive(Debug, Clone, Copy, PartialEq, Eq, Structural)]
pub enum FailoverReason {
    /// 429 Too Many Requests: retried on the same model.
    RateLimit,
    /// 503 / overloaded: retried on the same model.
    Overloaded,
    /// Timeout or connection error: retried on the same model.
    Timeout,
    /// 401 / invalid key: skip to the next model.
    Auth,
    /// 402 / quota exhausted: skip to the next model.
    Billing,
    /// 404 model not found: skip to the next model.
    ModelNotFound,
    /// Context window exceeded: never falls back to another model.
    ContextOverflow,
    /// Unrecognized error: skip to the next model.
    Unknown,
}

impl FailoverReason {
    /// Whether the request is retried on the same model (with back-off).
    pub fn is_retryable(&self) -> (r: bool)
        ensures
            r == (*self == FailoverReason::RateLimit || *self == FailoverReason::Overloaded
                || *self == FailoverReason::Timeout),
    {
        match self {
            FailoverReason::RateLimit | FailoverReason::Overloaded | FailoverReason::Timeout => true,
            _ => false,
        }
    }

    /// Whether the error surfaces to the user without trying fallback models:
    /// a context overflow never falls back (a smaller window would be worse).
    pub fn is_terminal(&self) -> (r: bool)
        ensures
            r == (*self == FailoverReason::ContextOverflow),
    {
        match self {
            FailoverReason::ContextOverflow => true,
            _ => false,
        }
    }

    /// Whether context compaction runs before the retry.
    pub fn needs_compaction(&self) -> (r: bool)
        ensures
            r == (*self == FailoverReason::ContextOverflow),
    {
        match self {
            FailoverReason::ContextOverflow => true,
            _ => false,
        }
    }
}

// ───────────────────────────── classification ─────────────────────────────

/// The lowercase form of a string as `str::to_lowercase` computes it (Unicode
/// `Lowercase` mapping).
pub uninterp spec fn lowercase(s: Seq<char>) -> Seq<char>;

/// Every character is ASCII.
pub open spec fn ascii_text(s: Seq<char>) -> bool {
    forall|i: int| 0 <= i < s.len() ==> (s[i] as u32) < 128
}

/// `A`–`Z` lowered, every other character kept.
pub open spec fn ascii_lowered(s: Seq<char>) -> Seq<char> {
    Seq::new(s.len(), |i: int| crate::proxy::ascii_lower(s[i]))
}

/// `a`–`z` raised, every other character kept (`str::to_ascii_uppercase`).
pub open spec fn ascii_raised(s: Seq<char>) -> Seq<char> {
    Seq::new(s.len(), |i: int| if 'a' <= s[i] && s[i] <= 'z' { ((s[i] as u32) - 32) as char } else { s[i] })
}

/// `str::to_lowercase`: the result is the Unicode lowercase mapping of `s`,
/// named by `lowercase`; on ASCII text that mapping lowers `A`–`Z` and keeps
/// every other character (Unicode's lowercase of an ASCII letter is its ASCII
/// lowercase, and other ASCII characters have no case). Its result holds no
/// `A`–`Z`: the lowercase mapping of every character is a lowercase or
/// caseless character, and `A`–`Z` map to `a`–`z`.
#[verifier::external_body]
pub(crate) fn to_lowercase(s: &str) -> (r: String)
    ensures
        r@ == lowercase(s@),
        ascii_text(s@) ==> r@ == ascii_lowered(s@),
        forall|i: int| 0 <= i < r@.len() ==> !('A' <= #[trigger] r@[i] && r@[i] <= 'Z'),
{
    s.to_lowercase()
}

pub open spec fn has(s: Seq<char>, lit: &str) -> bool {
    contains(s, lit@)
}

/// The message (already lowercased) reports a context-window overflow.
pub open spec fn is_context_overflow_spec(l: Seq<char>) -> bool {
    has(l, "context length exceeded") || has(l, "context_length_exceeded") || has(
        l,
        "context window",
    ) || has(l, "maximum context length") || has(l, "prompt is too long") || has(
        l,
        "token limit",
    ) || (has(l, "max_tokens") && (has(l, "exceed") || has(l, "too large"))) || has(
        l,
        "input too long",
    ) || has(l, "request too large")
}

pub open spec fn is_rate_limit_spec(l: Seq<char>) -> bool {
    has(l, "429") || has(l, "rate limit") || has(l, "rate_limit") || has(l, "too many requests")
        || has(l, "resource_exhausted") || has(l, "throttl")
}

pub open spec fn is_overloaded_spec(l: Seq<char>) -> bool {
    has(l, "503") || has(l, "overloaded") || has(l, "service unavailable") || has(
        l,
        "temporarily unavailable",
    ) || has(l, "502") || has(l, "521") || has(l, "522") || has(l, "524")
}

pub open spec fn is_timeout_spec(l: Seq<char>) -> bool {
    has(l, "timeout") || has(l, "timed out") || has(l, "etimedout") || has(l, "econnreset")
        || has(l, "econnrefused") || has(l, "econnaborted") || has(l, "enetunreach") || has(
        l,
        "connection reset",
    ) || has(l, "connection refused") || has(l, "broken pipe")
}

pub open spec fn is_auth_spec(l: Seq<char>) -> bool {
    has(l, "401") || has(l, "unauthorized") || has(l, "invalid api key") || has(
        l,
        "invalid_api_key",
    ) || has(l, "authentication") || has(l, "403") || has(l, "forbidden") || has(
        l,
        "permission denied",
    )
}

pub open spec fn is_billing_spec(l: Seq<char>) -> bool {
    has(l, "402") || has(l, "payment required") || has(l, "billing") || has(l, "quota") || has(
        l,
        "insufficient_quota",
    ) || has(l, "exceeded your current quota")
}

pub open spec fn is_model_not_found_spec(l: Seq<char>) -> bool {
    has(l, "404") || has(l, "model not found") || has(l, "model_not_found") || has(
        l,
        "does not exist",
    ) || has(l, "not_found_error")
}

/// Classification of an already lowercased message: the first matching class in
/// the order context overflow, rate limit, overloaded, timeout, auth, billing,
/// model not found; otherwise unknown.
pub open spec fn classification(l: Seq<char>) -> FailoverReason {
    if is_context_overflow_spec(l) {
        FailoverReason::ContextOverflow
    } else if is_rate_limit_spec(l) {
        FailoverReason::RateLimit
    } else if is_overloaded_spec(l) {
        FailoverReason::Overloaded
    } else if is_timeout_spec(l) {
        FailoverReason::Timeout
    } else if is_auth_spec(l) {
        FailoverReason::Auth
    } else if is_billing_spec(l) {
        FailoverReason::Billing
    } else if is_model_not_found_spec(l) {
        FailoverReason::ModelNotFound
    } else {
        FailoverReason::Unknown
    }
}

/// The markers of each class, as a lowered message may contain them, and the
/// order in which they win: a context-overflow marker beats everything; a
/// rate-limit marker beats all but overflow; then overload; then network
/// timeouts and dropped or refused connections; then authentication; then
/// billing; then a missing model; a message with none of them is unknown.
/// Messages are compared case-insensitively: `classify_error` applies this to
/// the lowercase form of the message.
pub proof fn lemma_classification_by_markers(l: Seq<char>)
    ensures
        ({
            let overflow = contains(l, "context length exceeded"@) || contains(l, "context_length_exceeded"@)
                || contains(l, "context window"@) || contains(l, "maximum context length"@)
                || contains(l, "prompt is too long"@) || contains(l, "token limit"@)
                || (contains(l, "max_tokens"@) && (contains(l, "exceed"@) || contains(l, "too large"@)))
                || contains(l, "input too long"@) || contains(l, "request too large"@);
            let rate = contains(l, "429"@) || contains(l, "rate limit"@) || contains(l, "rate_limit"@)
                || contains(l, "too many requests"@) || contains(l, "resource_exhausted"@)
                || contains(l, "throttl"@);
            let overload = contains(l, "503"@) || contains(l, "overloaded"@)
                || contains(l, "service unavailable"@) || contains(l, "temporarily unavailable"@)
                || contains(l, "502"@) || contains(l, "521"@) || contains(l, "522"@)
                || contains(l, "524"@);
            let timeout = contains(l, "timeout"@) || contains(l, "timed out"@) || contains(l, "etimedout"@)
                || contains(l, "econnreset"@) || contains(l, "econnrefused"@)
                || contains(l, "econnaborted"@) || contains(l, "enetunreach"@)
                || contains(l, "connection reset"@) || contains(l, "connection refused"@)
                || contains(l, "broken pipe"@);
            let auth = contains(l, "401"@) || contains(l, "unauthorized"@) || contains(l, "invalid api key"@)
                || contains(l, "invalid_api_key"@) || contains(l, "authentication"@)
                || contains(l, "403"@) || contains(l, "forbidden"@) || contains(l, "permission denied"@);
            let billing = contains(l, "402"@) || contains(l, "payment required"@) || contains(l, "billing"@)
                || contains(l, "quota"@) || contains(l, "insufficient_quota"@)
                || contains(l, "exceeded your current quota"@);
            let missing = contains(l, "404"@) || contains(l, "model not found"@)
                || contains(l, "model_not_found"@) || contains(l, "does not exist"@)
                || contains(l, "not_found_error"@);
            &&& overflow ==> classification(l) == FailoverReason::ContextOverflow
            &&& !overflow && rate ==> classification(l) == FailoverReason::RateLimit
            &&& !overflow && !rate && overload ==> classification(l) == FailoverReason::Overloaded
            &&& !overflow && !rate && !overload && timeout ==> classification(l) == FailoverReason::Timeout
            &&& !overflow && !rate && !overload && !timeout && auth ==> classification(l) == FailoverReason::Auth
            &&& !overflow && !rate && !overload && !timeout && !auth && billing ==> classification(l)
                == FailoverReason::Billing
            &&& !overflow && !rate && !overload && !timeout && !auth && !billing && missing
                ==> classification(l) == FailoverReason::ModelNotFound
            &&& !overflow && !rate && !overload && !timeout && !auth && !billing && !missing
                ==> classification(l) == FailoverReason::Unknown
        }),
{
}

/// Whether an (already lowercased) message reports a context-window overflow.
pub fn is_context_overflow(lower: &str) -> (r: bool)
    ensures
        r == is_context_overflow_spec(lower@),
{
    let l = chars_of(lower);
    let l = l.as_slice();
    contains_str(l, "context length exceeded") || contains_str(l, "context_length_exceeded")
        || contains_str(l, "context window") || contains_str(l, "maximum context length")
        || contains_str(l, "prompt is too long") || contains_str(l, "token limit") || (
    contains_str(l, "max_tokens") && (contains_str(l, "exceed") || contains_str(l, "too large")))
        || contains_str(l, "input too long") || contains_str(l, "request too large")
}

/// Classifies a message that is already in lowercase.
pub fn classify_lowercase(lower: &str) -> (r: FailoverReason)
    ensures
        r == classification(lower@),
{
    let l = chars_of(lower);
    let l = l.as_slice();
    if is_context_overflow(lower) {
        return FailoverReason::ContextOverflow;
    }
    if contains_str(l, "429") || contains_str(l, "rate limit") || contains_str(l, "rate_limit")
        || contains_str(l, "too many requests") || contains_str(l, "resource_exhausted")
        || contains_str(l, "throttl") {
        return FailoverReason::RateLimit;
    }
    if contains_str(l, "503") || contains_str(l, "overloaded") || contains_str(
        l,
        "service unavailable",
    ) || contains_str(l, "temporarily unavailable") || contains_str(l, "502") || contains_str(
        l,
        "521",
    ) || contains_str(l, "522") || contains_str(l, "524") {
        return FailoverReason::Overloaded;
    }
    if contains_str(l, "timeout") || contains_str(l, "timed out") || contains_str(l, "etimedout")
        || contains_str(l, "econnreset") || contains_str(l, "econnrefused") || contains_str(
        l,
        "econnaborted",
    ) || contains_str(l, "enetunreach") || contains_str(l, "connection reset") || contains_str(
        l,
        "connection refused",
    ) || contains_str(l, "broken pipe") {
        return FailoverReason::Timeout;
    }
    if contains_str(l, "401") || contains_str(l, "unauthorized") || contains_str(
        l,
        "invalid api key",
    ) || contains_str(l, "invalid_api_key") || contains_str(l, "authentication")
        || contains_str(l, "403") || contains_str(l, "forbidden") || contains_str(
        l,
        "permission denied",
    ) {
        return FailoverReason::Auth;
    }
    if contains_str(l, "402") || contains_str(l, "payment required") || contains_str(l, "billing")
        || contains_str(l, "quota") || contains_str(l, "insufficient_quota") || contains_str(
        l,
        "exceeded your current quota",
    ) {
        return FailoverReason::Billing;
    }
    if contains_str(l, "404") || contains_str(l, "model not found") || contains_str(
        l,
        "model_not_found",
    ) || contains_str(l, "does not exist") || contains_str(l, "not_found_error") {
        return FailoverReason::ModelNotFound;
    }
    FailoverReason::Unknown
}

/// Classifies an API error message (compared case-insensitively).
pub fn classify_error(error_msg: &str) -> (r: FailoverReason)
    ensures
        r == classification(lowercase(error_msg@)),
        ascii_text(error_msg@) ==> r == classification(ascii_lowered(error_msg@)),
{
    let lower = to_lowercase(error_msg);
    classify_lowercase(lower.as_str())
}

/// Classification ignores ASCII case: an ASCII message and its uppercase form
/// lower to the same text, so they are classified alike.
pub proof fn lemma_classification_ignores_case(s: Seq<char>)
    requires
        ascii_text(s),
    ensures
        ascii_text(ascii_raised(s)),
        classification(ascii_lowered(s)) == classification(ascii_lowered(ascii_raised(s))),
{
    let u = ascii_raised(s);
    assert forall|i: int| 0 <= i < u.len() implies (u[i] as u32) < 128 by {
        assert((s[i] as u32) < 128);
    }
    assert(ascii_lowered(s) =~= ascii_lowered(u));
}

// ───────────────────────────── back-off ─────────────────────────────

pub open spec fn pow2(n: nat) -> nat
    decreases n,
{
    if n == 0 {
        1
    } else {
        2 * pow2((n - 1) as nat)
    }
}

pub open spec fn sat(x: int) -> int {
    if x > u64::MAX {
        u64::MAX as int
    } else {
        x
    }
}

/// `base * 2^attempt` (saturating at `u64::MAX`), clamped to `max`.
pub open spec fn backoff(attempt: u32, base_ms: u64, max_ms: u64) -> int {
    let d = sat(base_ms * sat(pow2(attempt as nat) as int));
    if d < max_ms {
        d
    } else {
        max_ms as int
    }
}

/// The delay for a given noise value: the clamped back-off `c` shifted by
/// `noise % (2*(c/10) + 1) - c/10` (so within `c - c/10 ..= c + c/10`), kept
/// at most `u64::MAX`; `c` itself when `c/10 == 0`.
pub open spec fn jittered(attempt: u32, base_ms: u64, max_ms: u64, noise: u64) -> int {
    let c = backoff(attempt, base_ms, max_ms);
    let j = c / 10;
    if j == 0 {
        c
    } else {
        sat(c + (noise as int % (2 * j + 1)) - j)
    }
}

proof fn lemma_pow2_pos(n: nat)
    ensures
        pow2(n) >= 1,
    decreases n,
{
    if n > 0 {
        lemma_pow2_pos((n - 1) as nat);
    }
}

proof fn lemma_pow2_grows(a: nat, b: nat)
    requires
        a <= b,
    ensures
        pow2(a) <= pow2(b),
    decreases b,
{
    if b > a {
        lemma_pow2_grows(a, (b - 1) as nat);
        lemma_pow2_pos((b - 1) as nat);
    }
}

/// `2u64.saturating_pow(attempt)`.
fn sat_pow2(attempt: u32) -> (r: u64)
    ensures
        r == sat(pow2(attempt as nat) as int),
{
    let mut p: u64 = 1;
    let mut i: u32 = 0;
    while i < attempt
        invariant
            i <= attempt,
            p == pow2(i as nat),
        decreases attempt - i,
    {
        if p > u64::MAX / 2 {
            proof {
                lemma_pow2_grows((i + 1) as nat, attempt as nat);
            }
            return u64::MAX;
        }
        p = p * 2;
        i = i + 1;
    }
    p
}

/// Exponential back-off with the jitter taken from `noise`.
pub fn retry_delay_with_noise(attempt: u32, base_ms: u64, max_ms: u64, noise: u64) -> (r: u64)
    ensures
        r == jittered(attempt, base_ms, max_ms, noise),
{
    let p = sat_pow2(attempt);
    let delay: u64 = match base_ms.checked_mul(p) {
        Some(d) => d,
        None => u64::MAX,
    };
    let clamped: u64 = if delay < max_ms {
        delay
    } else {
        max_ms
    };
    let jitter_range = clamped / 10;
    if jitter_range == 0 {
        return clamped;
    }
    let pick = noise % (jitter_range * 2 + 1);
    let v: u128 = clamped as u128 + pick as u128 - jitter_range as u128;
    if v > u64::MAX as u128 {
        u64::MAX
    } else {
        v as u64
    }
}

/// Nanoseconds within the current second of the system clock.
#[verifier::external_body]
fn clock_subsec_nanos() -> (r: u64)
    ensures
        r < 1_000_000_000,
{
    std::time::SystemTime::now().duration_since(std::time::SystemTime::UNIX_EPOCH).unwrap_or_default().subsec_nanos() as u64
}

/// Delay for retry `attempt` (0-based): `base * 2^attempt`, clamped to `max`,
/// with up to ±10% jitter taken from the clock.
pub fn retry_delay_ms(attempt: u32, base_ms: u64, max_ms: u64) -> (r: u64)
    ensures
        exists|noise: u64| r == jittered(attempt, base_ms, max_ms, noise),
        backoff(attempt, base_ms, max_ms) - backoff(attempt, base_ms, max_ms) / 10 <= r
            <= backoff(attempt, base_ms, max_ms) + backoff(attempt, base_ms, max_ms) / 10,
        backoff(attempt, base_ms, max_ms) < 10 ==> r == backoff(attempt, base_ms, max_ms),
{
    let noise = clock_subsec_nanos();
    let r = retry_delay_with_noise(attempt, base_ms, max_ms, noise);
    proof {
        let c = backoff(attempt, base_ms, max_ms);
        let j = c / 10;
        if j != 0 {
            assert(0 <= noise as int % (2 * j + 1) < 2 * j + 1);
        }
    }
    r
}

} // verus!
