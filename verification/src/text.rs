//! Character-sequence model of the string operations the library relies on
//! (trimming, prefixes, searching, splitting, line breaking) together with
//! executable versions proved against that model.
use vstd::prelude::*;

verus! {

broadcast use vstd::string::group_string_axioms;

// ───────────────────────────── whitespace ─────────────────────────────

/// Unicode `White_Space` property (the set used by `char::is_whitespace`).
pub open spec fn is_ws(c: char) -> bool {
    let u = c as u32;
    (0x09 <= u && u <= 0x0D) || u == 0x20 || u == 0x85 || u == 0xA0 || u == 0x1680 || (0x2000
        <= u && u <= 0x200A) || u == 0x2028 || u == 0x2029 || u == 0x202F || u == 0x205F || u
        == 0x3000
}

pub fn char_is_ws(c: char) -> (r: bool)
    ensures
        r == is_ws(c),
{
    let u = c as u32;
    (0x09 <= u && u <= 0x0D) || u == 0x20 || u == 0x85 || u == 0xA0 || u == 0x1680 || (0x2000
        <= u && u <= 0x200A) || u == 0x2028 || u == 0x2029 || u == 0x202F || u == 0x205F || u
        == 0x3000
}

/// Number of leading whitespace characters.
pub open spec fn lead_ws(s: Seq<char>) -> nat
    decreases s.len(),
{
    if s.len() > 0 && is_ws(s[0]) {
        1 + lead_ws(s.drop_first())
    } else {
        0
    }
}

/// Number of trailing whitespace characters.
pub open spec fn trail_ws(s: Seq<char>) -> nat
    decreases s.len(),
{
    if s.len() > 0 && is_ws(s.last()) {
        1 + trail_ws(s.drop_last())
    } else {
        0
    }
}

pub proof fn lemma_lead_ws(s: Seq<char>, k: int)
    requires
        0 <= k <= s.len(),
        forall|j: int| 0 <= j < k ==> is_ws(#[trigger] s[j]),
        k == s.len() || !is_ws(s[k]),
    ensures
        lead_ws(s) == k,
    decreases k,
{
    if k > 0 {
        let t = s.drop_first();
        assert forall|j: int| 0 <= j < k - 1 implies is_ws(#[trigger] t[j]) by {
            assert(t[j] == s[j + 1]);
        }
        if k - 1 < t.len() {
            assert(t[k - 1] == s[k]);
        }
        lemma_lead_ws(t, k - 1);
    }
}

pub proof fn lemma_trail_ws(s: Seq<char>, k: int)
    requires
        0 <= k <= s.len(),
        forall|j: int| s.len() - k <= j < s.len() ==> is_ws(#[trigger] s[j]),
        k == s.len() || !is_ws(s[s.len() - k - 1]),
    ensures
        trail_ws(s) == k,
    decreases k,
{
    if k > 0 {
        let t = s.drop_last();
        assert forall|j: int| t.len() - (k - 1) <= j < t.len() implies is_ws(#[trigger] t[j]) by {
            assert(t[j] == s[j]);
        }
        if k - 1 < t.len() {
            assert(t[t.len() - (k - 1) - 1] == s[s.len() - k - 1]);
        }
        assert(is_ws(s[s.len() - 1]));
        lemma_trail_ws(t, k - 1);
    }
}

pub open spec fn trim_start(s: Seq<char>) -> Seq<char> {
    s.skip(lead_ws(s) as int)
}

pub open spec fn trim_end(s: Seq<char>) -> Seq<char> {
    s.take(s.len() - trail_ws(s))
}

/// `str::trim`: whitespace removed at both ends.
pub open spec fn trim(s: Seq<char>) -> Seq<char> {
    trim_end(trim_start(s))
}

// ───────────────────────────── basic predicates ─────────────────────────────

pub open spec fn starts_with(s: Seq<char>, p: Seq<char>) -> bool {
    p.len() <= s.len() && s.take(p.len() as int) == p
}

pub open spec fn ends_with(s: Seq<char>, p: Seq<char>) -> bool {
    p.len() <= s.len() && s.skip(s.len() - p.len()) == p
}

/// `p` occurs in `s` starting at index `i`.
pub open spec fn occurs_at(s: Seq<char>, p: Seq<char>, i: int) -> bool {
    0 <= i && i + p.len() <= s.len() && s.subrange(i, i + p.len()) == p
}

pub open spec fn contains(s: Seq<char>, p: Seq<char>) -> bool {
    exists|i: int| occurs_at(s, p, i)
}

pub open spec fn has_char(s: Seq<char>, c: char) -> bool {
    exists|i: int| 0 <= i < s.len() && s[i] == c
}

pub open spec fn strip_prefix(s: Seq<char>, p: Seq<char>) -> Option<Seq<char>> {
    if starts_with(s, p) {
        Some(s.skip(p.len() as int))
    } else {
        None
    }
}

/// Index of the first occurrence of `c`, or `s.len()` when absent.
pub open spec fn first_index(s: Seq<char>, c: char) -> nat
    decreases s.len(),
{
    if s.len() == 0 {
        0
    } else if s[0] == c {
        0
    } else {
        1 + first_index(s.drop_first(), c)
    }
}

pub proof fn lemma_first_index(s: Seq<char>, c: char, k: int)
    requires
        0 <= k <= s.len(),
        forall|j: int| 0 <= j < k ==> #[trigger] s[j] != c,
        k == s.len() || s[k] == c,
    ensures
        first_index(s, c) == k,
    decreases k,
{
    if k > 0 {
        let t = s.drop_first();
        assert forall|j: int| 0 <= j < k - 1 implies #[trigger] t[j] != c by {
            assert(t[j] == s[j + 1]);
        }
        if k - 1 < t.len() {
            assert(t[k - 1] == s[k]);
        }
        lemma_first_index(t, c, k - 1);
    }
}

/// Index of the first occurrence of `p` in `s`, if any.
pub open spec fn find(s: Seq<char>, p: Seq<char>) -> Option<int> {
    if contains(s, p) {
        Some(choose|i: int| occurs_at(s, p, i) && forall|j: int| 0 <= j < i ==> !occurs_at(s, p, j))
    } else {
        None
    }
}

// ───────────────────────────── splitting ─────────────────────────────

/// `str::split(c)`: the pieces between occurrences of `c` (always at least one piece).
pub open spec fn split_char(s: Seq<char>, c: char) -> Seq<Seq<char>>
    decreases s.len(),
{
    let i = first_index(s, c);
    if i < s.len() {
        seq![s.take(i as int)] + split_char(s.skip(i as int + 1), c)
    } else {
        seq![s]
    }
}

/// `str::split_once(c)`.
pub open spec fn split_once(s: Seq<char>, c: char) -> Option<(Seq<char>, Seq<char>)> {
    let i = first_index(s, c);
    if i < s.len() {
        Some((s.take(i as int), s.skip(i as int + 1)))
    } else {
        None
    }
}

/// A line as `str::lines` yields it: a `\r` is dropped only before the `\n`.
pub open spec fn strip_cr(line: Seq<char>) -> Seq<char> {
    if line.len() > 0 && line.last() == '\r' {
        line.drop_last()
    } else {
        line
    }
}

/// `str::lines`: split at `\n` (with an optional `\r` before it); the final line
/// ending is optional.
pub open spec fn lines(s: Seq<char>) -> Seq<Seq<char>>
    decreases s.len(),
{
    if s.len() == 0 {
        seq![]
    } else {
        let i = first_index(s, '\n');
        if i < s.len() {
            seq![strip_cr(s.take(i as int))] + lines(s.skip(i as int + 1))
        } else {
            seq![s]
        }
    }
}

pub proof fn lemma_first_index_bound(s: Seq<char>, c: char)
    ensures
        first_index(s, c) <= s.len(),
        first_index(s, c) < s.len() ==> s[first_index(s, c) as int] == c,
        forall|j: int| 0 <= j < first_index(s, c) ==> #[trigger] s[j] != c,
    decreases s.len(),
{
    if s.len() > 0 && s[0] != c {
        let t = s.drop_first();
        lemma_first_index_bound(t, c);
        assert forall|j: int| 0 <= j < first_index(s, c) implies #[trigger] s[j] != c by {
            if j > 0 {
                assert(s[j] == t[j - 1]);
            }
        }
    }
}

pub proof fn lemma_lead_ws_bound(s: Seq<char>)
    ensures
        lead_ws(s) <= s.len(),
        forall|j: int| 0 <= j < lead_ws(s) ==> is_ws(#[trigger] s[j]),
        lead_ws(s) < s.len() ==> !is_ws(s[lead_ws(s) as int]),
    decreases s.len(),
{
    if s.len() > 0 && is_ws(s[0]) {
        let t = s.drop_first();
        lemma_lead_ws_bound(t);
        assert forall|j: int| 0 <= j < lead_ws(s) implies is_ws(#[trigger] s[j]) by {
            if j > 0 {
                assert(s[j] == t[j - 1]);
            }
        }
    }
}

pub proof fn lemma_trail_ws_bound(s: Seq<char>)
    ensures
        trail_ws(s) <= s.len(),
    decreases s.len(),
{
    if s.len() > 0 && is_ws(s.last()) {
        lemma_trail_ws_bound(s.drop_last());
    }
}

/// The character sequences held by a vector of character vectors.
pub open spec fn seqs_of(v: Seq<Vec<char>>) -> Seq<Seq<char>> {
    Seq::new(v.len(), |i: int| v[i]@)
}

/// The character sequences held by a vector of strings.
pub open spec fn strs_of(v: Seq<String>) -> Seq<Seq<char>> {
    Seq::new(v.len(), |i: int| v[i]@)
}


// ───────────────────────────── UTF-8 byte lengths ─────────────────────────────

/// Number of bytes in the UTF-8 encoding of `c`.
pub open spec fn utf8_width(c: char) -> nat {
    let u = c as u32;
    if u < 0x80 {
        1
    } else if u < 0x800 {
        2
    } else if u < 0x10000 {
        3
    } else {
        4
    }
}

/// Number of bytes in the UTF-8 encoding of `s` (what `str::len` reports).
pub open spec fn blen(s: Seq<char>) -> nat
    decreases s.len(),
{
    if s.len() == 0 {
        0
    } else {
        blen(s.drop_last()) + utf8_width(s.last())
    }
}

pub proof fn lemma_blen_concat(a: Seq<char>, b: Seq<char>)
    ensures
        blen(a + b) == blen(a) + blen(b),
    decreases b.len(),
{
    if b.len() > 0 {
        assert((a + b).drop_last() =~= a + b.drop_last());
        lemma_blen_concat(a, b.drop_last());
    } else {
        assert(a + b =~= a);
    }
}

pub proof fn lemma_blen_take_step(s: Seq<char>, k: int)
    requires
        0 <= k < s.len(),
    ensures
        blen(s.take(k + 1)) == blen(s.take(k)) + utf8_width(s[k]),
{
    assert(s.take(k + 1).drop_last() =~= s.take(k));
}

pub proof fn lemma_blen_skip_step(s: Seq<char>, k: int)
    requires
        0 < k <= s.len(),
    ensures
        blen(s.skip(k - 1)) == utf8_width(s[k - 1]) + blen(s.skip(k)),
{
    assert(s.skip(k - 1) =~= seq![s[k - 1]] + s.skip(k));
    lemma_blen_concat(seq![s[k - 1]], s.skip(k));
    assert(seq![s[k - 1]].drop_last() =~= Seq::<char>::empty());
    assert(blen(Seq::<char>::empty()) == 0);
    assert(blen(seq![s[k - 1]]) == utf8_width(s[k - 1]));
}

pub proof fn lemma_blen_split(s: Seq<char>, k: int)
    requires
        0 <= k <= s.len(),
    ensures
        blen(s) == blen(s.take(k)) + blen(s.skip(k)),
{
    assert(s =~= s.take(k) + s.skip(k));
    lemma_blen_concat(s.take(k), s.skip(k));
}

pub fn utf8_width_exec(c: char) -> (r: usize)
    ensures
        r == utf8_width(c),
{
    let u = c as u32;
    if u < 0x80 {
        1
    } else if u < 0x800 {
        2
    } else if u < 0x10000 {
        3
    } else {
        4
    }
}

/// `min(blen(s), cap)`: the byte length, counted no further than `cap`.
pub fn blen_capped(s: &[char], cap: usize) -> (r: usize)
    ensures
        r == if blen(s@) < cap { blen(s@) } else { cap as nat },
{
    if cap == 0 {
        return 0;
    }
    let mut i: usize = 0;
    let mut acc: usize = 0;
    while i < s.len()
        invariant
            i <= s@.len(),
            acc == blen(s@.take(i as int)),
            acc < cap,
        decreases s@.len() - i,
    {
        proof {
            lemma_blen_take_step(s@, i as int);
        }
        let w = utf8_width_exec(s[i]);
        if w >= cap - acc {
            proof {
                lemma_blen_split(s@, i + 1);
            }
            return cap;
        }
        acc = acc + w;
        i += 1;
    }
    assert(s@.take(s@.len() as int) =~= s@);
    acc
}

/// The number of characters whose encoding fills exactly the first `n` bytes of
/// `s`, when byte `n` is a character boundary.
pub fn prefix_chars_for_bytes(s: &[char], n: usize) -> (r: Option<usize>)
    ensures
        r matches Some(k) ==> k <= s@.len() && blen(s@.take(k as int)) == n,
        r is None ==> forall|k: int| 0 <= k <= s@.len() ==> blen(#[trigger] s@.take(k)) != n,
{
    let mut i: usize = 0;
    let mut acc: usize = 0;
    loop
        invariant
            i <= s@.len(),
            acc == blen(s@.take(i as int)),
            acc <= n,
            forall|k: int| 0 <= k < i ==> blen(#[trigger] s@.take(k)) < acc,
        decreases s@.len() - i,
    {
        if acc == n {
            return Some(i);
        }
        if i == s.len() {
            assert forall|k: int| 0 <= k <= s@.len() implies blen(#[trigger] s@.take(k)) != n by {
                if k == i {
                }
            }
            return None;
        }
        proof {
            lemma_blen_take_step(s@, i as int);
        }
        let w = utf8_width_exec(s[i]);
        if w > n - acc {
            proof {
                assert forall|k: int| 0 <= k <= s@.len() implies blen(#[trigger] s@.take(k)) != n by {
                    if k > i {
                        lemma_blen_mono(s@, i + 1, k);
                    }
                }
            }
            return None;
        }
        acc = acc + w;
        i += 1;
    }
}

pub proof fn lemma_blen_mono(s: Seq<char>, a: int, b: int)
    requires
        0 <= a <= b <= s.len(),
    ensures
        blen(s.take(a)) <= blen(s.take(b)),
{
    lemma_blen_split(s.take(b), a);
    assert(s.take(b).take(a) =~= s.take(a));
}

/// The number of characters whose encoding fills exactly the last `n` bytes of
/// `s`, when that position is a character boundary.
pub fn suffix_chars_for_bytes(s: &[char], n: usize) -> (r: Option<usize>)
    ensures
        r matches Some(k) ==> k <= s@.len() && blen(s@.skip(s@.len() - k)) == n,
        r is None ==> forall|k: int| 0 <= k <= s@.len() ==> blen(#[trigger] s@.skip(s@.len() - k)) != n,
{
    let mut i: usize = 0;
    let mut acc: usize = 0;
    let len = s.len();
    assert(s@.skip(len as int) =~= Seq::<char>::empty());
    loop
        invariant
            len == s@.len(),
            i <= len,
            acc == blen(s@.skip(len - i)),
            acc <= n,
            forall|k: int| 0 <= k < i ==> blen(#[trigger] s@.skip(len - k)) < acc,
        decreases len - i,
    {
        if acc == n {
            return Some(i);
        }
        if i == len {
            return None;
        }
        proof {
            lemma_blen_skip_step(s@, len - i);
        }
        let w = utf8_width_exec(s[len - 1 - i]);
        if w > n - acc {
            proof {
                assert forall|k: int| 0 <= k <= s@.len() implies blen(#[trigger] s@.skip(len - k)) != n by {
                    if k > i {
                        lemma_blen_skip_mono(s@, len - k, len - i - 1);
                    }
                }
            }
            return None;
        }
        acc = acc + w;
        i += 1;
    }
}

pub proof fn lemma_blen_skip_mono(s: Seq<char>, a: int, b: int)
    requires
        0 <= a <= b <= s.len(),
    ensures
        blen(s.skip(b)) <= blen(s.skip(a)),
{
    lemma_blen_split(s.skip(a), b - a);
    assert(s.skip(a).skip(b - a) =~= s.skip(b));
}

/// Appends all strings of `src` to `dst`.
pub fn push_all(dst: &mut Vec<String>, src: Vec<String>)
    ensures
        strs_of(final(dst)@) == strs_of(old(dst)@) + strs_of(src@),
{
    let mut i: usize = 0;
    let ghost d0 = strs_of(dst@);
    while i < src.len()
        invariant
            i <= src@.len(),
            strs_of(dst@) == d0 + strs_of(src@).take(i as int),
        decreases src@.len() - i,
    {
        let ghost before = strs_of(dst@);
        dst.push(src[i].clone());
        assert(strs_of(dst@) =~= before.push(src@[i as int]@));
        assert(strs_of(src@).take(i + 1) =~= strs_of(src@).take(i as int).push(src@[i as int]@));
        i += 1;
    }
    assert(strs_of(src@).take(src@.len() as int) =~= strs_of(src@));
}

/// Whether `v` holds a string equal to `s`.
pub fn vec_contains_str(v: &Vec<String>, s: &str) -> (r: bool)
    ensures
        r == strs_of(v@).contains(s@),
{
    let mut i: usize = 0;
    while i < v.len()
        invariant
            i <= v@.len(),
            forall|j: int| 0 <= j < i ==> v@[j]@ != s@,
        decreases v@.len() - i,
    {
        if str_eq(v[i].as_str(), s) {
            assert(strs_of(v@)[i as int] == s@);
            return true;
        }
        i += 1;
    }
    assert(!strs_of(v@).contains(s@)) by {
        if strs_of(v@).contains(s@) {
            let j = choose|j: int| 0 <= j < strs_of(v@).len() && strs_of(v@)[j] == s@;
            assert(v@[j]@ == s@);
        }
    }
    false
}

// ───────────────────────────── executable helpers ─────────────────────────────

/// Appends one character to a `String` (`String::push`).
#[verifier::external_body]
pub(crate) fn push_char(s: &mut String, c: char)
    ensures
        final(s)@ == old(s)@.push(c),
{
    s.push(c);
}

/// The characters of `s`, in order.
pub fn chars_of(s: &str) -> (r: Vec<char>)
    ensures
        r@ == s@,
{
    let mut r: Vec<char> = Vec::new();
    for c in it: s.chars()
        invariant
            it.seq() == s@,
            r@ == s@.take(it.index() as int),
    {
        assert(s@.take(it.index() + 1) == s@.take(it.index() as int).push(c));
        r.push(c);
    }
    assert(s@.take(s@.len() as int) == s@);
    r
}

/// A `String` holding exactly the given characters.
pub fn string_of(v: &[char]) -> (r: String)
    ensures
        r@ == v@,
{
    let mut r = String::new();
    let mut i: usize = 0;
    while i < v.len()
        invariant
            i <= v@.len(),
            r@ == v@.take(i as int),
        decreases v@.len() - i,
    {
        assert(v@.take(i + 1) == v@.take(i as int).push(v@[i as int]));
        push_char(&mut r, v[i]);
        i += 1;
    }
    assert(v@.take(v@.len() as int) == v@);
    r
}

/// Copy of `v[a..b]`.
pub fn slice_of(v: &[char], a: usize, b: usize) -> (r: Vec<char>)
    requires
        a <= b <= v@.len(),
    ensures
        r@ == v@.subrange(a as int, b as int),
{
    let mut r: Vec<char> = Vec::new();
    let mut i: usize = a;
    while i < b
        invariant
            a <= i <= b <= v@.len(),
            r@ == v@.subrange(a as int, i as int),
        decreases b - i,
    {
        assert(v@.subrange(a as int, i + 1) == v@.subrange(a as int, i as int).push(v@[i as int]));
        r.push(v[i]);
        i += 1;
    }
    r
}

/// Equality of two character slices.
pub fn eq(a: &[char], b: &[char]) -> (r: bool)
    ensures
        r == (a@ == b@),
{
    if a.len() != b.len() {
        return false;
    }
    let mut i: usize = 0;
    while i < a.len()
        invariant
            a@.len() == b@.len(),
            i <= a@.len(),
            forall|j: int| 0 <= j < i ==> a@[j] == b@[j],
        decreases a@.len() - i,
    {
        if a[i] != b[i] {
            return false;
        }
        i += 1;
    }
    assert(a@ =~= b@);
    true
}

/// Equality of a character slice with a string.
pub fn eq_str(a: &[char], b: &str) -> (r: bool)
    ensures
        r == (a@ == b@),
{
    let bv = chars_of(b);
    eq(a, bv.as_slice())
}

/// Equality of two strings.
pub fn str_eq(a: &str, b: &str) -> (r: bool)
    ensures
        r == (a@ == b@),
{
    let av = chars_of(a);
    let bv = chars_of(b);
    eq(av.as_slice(), bv.as_slice())
}

/// `p` occurs in `s` at index `i`.
pub fn occurs_at_exec(s: &[char], p: &[char], i: usize) -> (r: bool)
    ensures
        r == occurs_at(s@, p@, i as int),
{
    if p.len() > s.len() || i > s.len() - p.len() {
        return false;
    }
    let mut k: usize = 0;
    let n = s.len();
    while k < p.len()
        invariant
            n == s@.len(),
            i + p@.len() <= s@.len(),
            k <= p@.len(),
            forall|j: int| 0 <= j < k ==> s@[i + j] == p@[j],
        decreases p@.len() - k,
    {
        assert(i + k < s@.len());
        if s[i + k] != p[k] {
            assert(s@.subrange(i as int, i + p@.len())[k as int] != p@[k as int]);
            return false;
        }
        k += 1;
    }
    assert(s@.subrange(i as int, i + p@.len()) =~= p@);
    true
}

pub fn starts_with_exec(s: &[char], p: &[char]) -> (r: bool)
    ensures
        r == starts_with(s@, p@),
{
    let r = occurs_at_exec(s, p, 0);
    assert(s@.subrange(0, p@.len() as int) == s@.take(p@.len() as int));
    r
}

pub fn ends_with_exec(s: &[char], p: &[char]) -> (r: bool)
    ensures
        r == ends_with(s@, p@),
{
    if p.len() > s.len() {
        return false;
    }
    let r = occurs_at_exec(s, p, s.len() - p.len());
    assert(s@.subrange(s@.len() - p@.len(), s@.len() as int) == s@.skip(s@.len() - p@.len()));
    r
}

pub fn starts_with_str(s: &[char], p: &str) -> (r: bool)
    ensures
        r == starts_with(s@, p@),
{
    let pv = chars_of(p);
    starts_with_exec(s, pv.as_slice())
}

pub fn ends_with_str(s: &[char], p: &str) -> (r: bool)
    ensures
        r == ends_with(s@, p@),
{
    let pv = chars_of(p);
    ends_with_exec(s, pv.as_slice())
}

/// Index of the first occurrence of `p` in `s`.
pub fn find_exec(s: &[char], p: &[char]) -> (r: Option<usize>)
    ensures
        r matches Some(i) ==> find(s@, p@) == Some(i as int) && occurs_at(s@, p@, i as int) && (
        forall|j: int| 0 <= j < i ==> !occurs_at(s@, p@, j)),
        r is None ==> find(s@, p@) is None,
        r is None <==> !contains(s@, p@),
{
    if p.len() > s.len() {
        assert(!contains(s@, p@));
        return None;
    }
    let mut i: usize = 0;
    while i <= s.len() - p.len()
        invariant
            p@.len() <= s@.len(),
            i <= s@.len() - p@.len() + 1,
            forall|j: int| 0 <= j < i ==> !occurs_at(s@, p@, j),
        decreases s@.len() - p@.len() + 1 - i,
    {
        if occurs_at_exec(s, p, i) {
            assert(contains(s@, p@));
            let ghost w = choose|w: int|
                occurs_at(s@, p@, w) && forall|j: int| 0 <= j < w ==> !occurs_at(s@, p@, j);
            assert(occurs_at(s@, p@, i as int) && forall|j: int|
                0 <= j < i ==> !occurs_at(s@, p@, j));
            proof {
                if w < i as int {
                } else if w > i as int {
                    assert(!occurs_at(s@, p@, i as int));
                }
            }
            return Some(i);
        }
        if i == s.len() - p.len() {
            assert(!contains(s@, p@));
            return None;
        }
        i += 1;
    }
    assert(!contains(s@, p@));
    None
}

pub fn contains_exec(s: &[char], p: &[char]) -> (r: bool)
    ensures
        r == contains(s@, p@),
{
    find_exec(s, p).is_some()
}

pub fn contains_str(s: &[char], p: &str) -> (r: bool)
    ensures
        r == contains(s@, p@),
{
    let pv = chars_of(p);
    contains_exec(s, pv.as_slice())
}

pub fn has_char_exec(s: &[char], c: char) -> (r: bool)
    ensures
        r == has_char(s@, c),
{
    let mut i: usize = 0;
    while i < s.len()
        invariant
            i <= s@.len(),
            forall|j: int| 0 <= j < i ==> s@[j] != c,
        decreases s@.len() - i,
    {
        if s[i] == c {
            return true;
        }
        i += 1;
    }
    false
}

/// Index of the first `c`, or the length when absent.
pub fn first_index_exec(s: &[char], c: char) -> (r: usize)
    ensures
        r == first_index(s@, c),
{
    let mut i: usize = 0;
    while i < s.len() && s[i] != c
        invariant
            i <= s@.len(),
            forall|j: int| 0 <= j < i ==> #[trigger] s@[j] != c,
        decreases s@.len() - i,
    {
        i += 1;
    }
    proof {
        lemma_first_index(s@, c, i as int);
    }
    i
}

pub fn trim_start_exec(s: &[char]) -> (r: Vec<char>)
    ensures
        r@ == trim_start(s@),
{
    let mut i: usize = 0;
    while i < s.len() && char_is_ws(s[i])
        invariant
            i <= s@.len(),
            forall|j: int| 0 <= j < i ==> is_ws(#[trigger] s@[j]),
        decreases s@.len() - i,
    {
        i += 1;
    }
    proof {
        lemma_lead_ws(s@, i as int);
    }
    slice_of(s, i, s.len())
}

pub fn trim_end_exec(s: &[char]) -> (r: Vec<char>)
    ensures
        r@ == trim_end(s@),
{
    let mut k: usize = 0;
    while k < s.len() && char_is_ws(s[s.len() - 1 - k])
        invariant
            k <= s@.len(),
            forall|j: int| s@.len() - k <= j < s@.len() ==> is_ws(#[trigger] s@[j]),
        decreases s@.len() - k,
    {
        k += 1;
    }
    proof {
        lemma_trail_ws(s@, k as int);
    }
    slice_of(s, 0, s.len() - k)
}

/// `str::trim`.
pub fn trim_exec(s: &[char]) -> (r: Vec<char>)
    ensures
        r@ == trim(s@),
{
    let a = trim_start_exec(s);
    trim_end_exec(a.as_slice())
}

/// Number of leading whitespace characters.
pub fn lead_ws_exec(s: &[char]) -> (r: usize)
    ensures
        r == lead_ws(s@),
{
    let mut i: usize = 0;
    while i < s.len() && char_is_ws(s[i])
        invariant
            i <= s@.len(),
            forall|j: int| 0 <= j < i ==> is_ws(#[trigger] s@[j]),
        decreases s@.len() - i,
    {
        i += 1;
    }
    proof {
        lemma_lead_ws(s@, i as int);
    }
    i
}

/// `str::strip_prefix` for a literal prefix.
pub fn strip_prefix_str(s: &[char], p: &str) -> (r: Option<Vec<char>>)
    ensures
        r matches Some(v) ==> strip_prefix(s@, p@) == Some(v@),
        r is None <==> strip_prefix(s@, p@) is None,
{
    let pv = chars_of(p);
    if starts_with_exec(s, pv.as_slice()) {
        Some(slice_of(s, pv.len(), s.len()))
    } else {
        None
    }
}

/// `str::lines`.
pub fn lines_exec(s: &[char]) -> (r: Vec<Vec<char>>)
    ensures
        seqs_of(r@) == lines(s@),
{
    let mut out: Vec<Vec<char>> = Vec::new();
    let mut start: usize = 0;
    assert(s@.skip(0) =~= s@);
    assert(seqs_of(out@) + lines(s@) =~= lines(s@));
    while start < s.len()
        invariant
            start <= s@.len(),
            seqs_of(out@) + lines(s@.skip(start as int)) == lines(s@),
        decreases s@.len() - start,
    {
        let ghost rest = s@.skip(start as int);
        let mut i: usize = start;
        while i < s.len() && s[i] != '\n'
            invariant
                start <= i <= s@.len(),
                rest == s@.skip(start as int),
                forall|j: int| 0 <= j < i - start ==> #[trigger] rest[j] != '\n',
            decreases s@.len() - i,
        {
            i += 1;
        }
        proof {
            lemma_first_index(rest, '\n', i - start);
        }
        let mut end = i;
        if i < s.len() && end > start && s[end - 1] == '\r' {
            end = end - 1;
        }
        let line = slice_of(s, start, end);
        let ghost k = i - start;
        proof {
            if i < s@.len() {
                assert(rest.take(k) =~= s@.subrange(start as int, i as int));
                assert(line@ =~= strip_cr(rest.take(k)));
                assert(rest.skip(k + 1) =~= s@.skip(i + 1));
                assert(lines(rest) == seq![line@] + lines(s@.skip(i + 1)));
            } else {
                assert(rest =~= s@.subrange(start as int, i as int));
                assert(lines(rest) == seq![line@]);
                assert(s@.skip(i as int) =~= Seq::<char>::empty());
                assert(lines(s@.skip(i as int)) =~= Seq::<Seq<char>>::empty());
            }
        }
        let ghost old_dv = seqs_of(out@);
        out.push(line);
        assert(seqs_of(out@) =~= old_dv.push(line@));
        proof {
            let nxt = if i < s@.len() { s@.skip(i + 1) } else { s@.skip(i as int) };
            assert(old_dv.push(line@) + lines(nxt) =~= old_dv + (seq![line@] + lines(nxt)));
        }
        if i < s.len() {
            start = i + 1;
        } else {
            start = i;
        }
    }
    assert(s@.skip(start as int) =~= Seq::<char>::empty());
    assert(seqs_of(out@) + Seq::<Seq<char>>::empty() =~= seqs_of(out@));
    out
}

/// `str::split(c)`.
pub fn split_char_exec(s: &[char], c: char) -> (r: Vec<Vec<char>>)
    ensures
        seqs_of(r@) == split_char(s@, c),
{
    let mut out: Vec<Vec<char>> = Vec::new();
    let mut start: usize = 0;
    assert(s@.skip(0) =~= s@);
    assert(seqs_of(out@) + split_char(s@, c) =~= split_char(s@, c));
    loop
        invariant
            start <= s@.len(),
            seqs_of(out@) + split_char(s@.skip(start as int), c) == split_char(s@, c),
        decreases s@.len() - start,
    {
        let ghost rest = s@.skip(start as int);
        let mut i: usize = start;
        while i < s.len() && s[i] != c
            invariant
                start <= i <= s@.len(),
                rest == s@.skip(start as int),
                forall|j: int| 0 <= j < i - start ==> #[trigger] rest[j] != c,
            decreases s@.len() - i,
        {
            i += 1;
        }
        proof {
            lemma_first_index(rest, c, i - start);
        }
        let piece = slice_of(s, start, i);
        let ghost old_dv = seqs_of(out@);
        out.push(piece);
        assert(seqs_of(out@) =~= old_dv.push(piece@));
        if i < s.len() {
            proof {
                assert(rest.take(i - start) == s@.subrange(start as int, i as int));
                assert(rest.skip(i - start + 1) == s@.skip(i + 1));
            }
            start = i + 1;
        } else {
            proof {
                assert(rest == s@.subrange(start as int, i as int));
                assert(seqs_of(out@) == seqs_of(out@) + Seq::<Seq<char>>::empty());
            }
            return out;
        }
    }
}

/// `str::split_once(c)`.
pub fn split_once_exec(s: &[char], c: char) -> (r: Option<(Vec<char>, Vec<char>)>)
    ensures
        r matches Some(p) ==> split_once(s@, c) == Some((p.0@, p.1@)),
        r is None <==> split_once(s@, c) is None,
{
    let i = first_index_exec(s, c);
    if i < s.len() {
        Some((slice_of(s, 0, i), slice_of(s, i + 1, s.len())))
    } else {
        None
    }
}


/// `blen(s) <= m`.
pub fn blen_le(s: &[char], m: usize) -> (r: bool)
    ensures
        r == (blen(s@) <= m),
{
    let mut i: usize = 0;
    let mut acc: usize = 0;
    while i < s.len()
        invariant
            i <= s@.len(),
            acc == blen(s@.take(i as int)),
            acc <= m,
        decreases s@.len() - i,
    {
        proof {
            lemma_blen_take_step(s@, i as int);
        }
        let w = utf8_width_exec(s[i]);
        if w > m - acc {
            proof {
                lemma_blen_split(s@, i + 1);
            }
            return false;
        }
        acc = acc + w;
        i += 1;
    }
    assert(s@.take(s@.len() as int) =~= s@);
    true
}

/// Decimal digits of `n` (as `{}` formats an unsigned integer).
pub open spec fn dec(n: nat) -> Seq<char>
    decreases n,
{
    if n < 10 {
        seq![digit(n)]
    } else {
        dec(n / 10).push(digit(n % 10))
    }
}

pub open spec fn digit(d: nat) -> char {
    if d == 0 {
        '0'
    } else if d == 1 {
        '1'
    } else if d == 2 {
        '2'
    } else if d == 3 {
        '3'
    } else if d == 4 {
        '4'
    } else if d == 5 {
        '5'
    } else if d == 6 {
        '6'
    } else if d == 7 {
        '7'
    } else if d == 8 {
        '8'
    } else {
        '9'
    }
}

fn digit_exec(d: u64) -> (r: char)
    requires
        d < 10,
    ensures
        r == digit(d as nat),
{
    if d == 0 {
        '0'
    } else if d == 1 {
        '1'
    } else if d == 2 {
        '2'
    } else if d == 3 {
        '3'
    } else if d == 4 {
        '4'
    } else if d == 5 {
        '5'
    } else if d == 6 {
        '6'
    } else if d == 7 {
        '7'
    } else if d == 8 {
        '8'
    } else {
        '9'
    }
}

/// Decimal representation of `n`.
pub fn dec_exec(n: u64) -> (r: Vec<char>)
    ensures
        r@ == dec(n as nat),
    decreases n,
{
    if n < 10 {
        let mut v: Vec<char> = Vec::new();
        v.push(digit_exec(n));
        assert(v@ =~= seq![digit(n as nat)]);
        v
    } else {
        let mut v = dec_exec(n / 10);
        v.push(digit_exec(n % 10));
        v
    }
}

/// An owned copy of a string slice.
pub fn owned_str(s: &str) -> (r: String)
    ensures
        r@ == s@,
{
    string_of(chars_of(s).as_slice())
}

/// A copy of a list of strings.
pub fn copy_strings(v: &Vec<String>) -> (r: Vec<String>)
    ensures
        strs_of(r@) == strs_of(v@),
{
    let mut r: Vec<String> = Vec::new();
    push_all(&mut r, v.clone());
    assert(strs_of(r@) =~= strs_of(v@));
    r
}

/// Appends characters to a vector.
pub fn extend_chars(dst: &mut Vec<char>, src: &[char])
    ensures
        final(dst)@ == old(dst)@ + src@,
{
    let mut i: usize = 0;
    while i < src.len()
        invariant
            i <= src@.len(),
            dst@ == old(dst)@ + src@.take(i as int),
        decreases src@.len() - i,
    {
        assert(src@.take(i + 1) =~= src@.take(i as int).push(src@[i as int]));
        dst.push(src[i]);
        assert(dst@ =~= old(dst)@ + src@.take(i + 1));
        i += 1;
    }
    assert(src@.take(src@.len() as int) =~= src@);
}

/// Appends the characters of a string to a vector.
pub fn extend_str(dst: &mut Vec<char>, src: &str)
    ensures
        final(dst)@ == old(dst)@ + src@,
{
    let v = chars_of(src);
    extend_chars(dst, v.as_slice());
}

/// The pieces joined by `sep` (`[a, b, c].join(sep)`).
pub open spec fn join(ls: Seq<Seq<char>>, sep: Seq<char>) -> Seq<char>
    decreases ls.len(),
{
    if ls.len() == 0 {
        seq![]
    } else if ls.len() == 1 {
        ls[0]
    } else {
        join(ls.drop_last(), sep) + sep + ls.last()
    }
}

/// `pieces[..k].join(sep)`.
pub fn join_prefix(pieces: &Vec<Vec<char>>, k: usize, sep: &str) -> (r: Vec<char>)
    requires
        k <= pieces@.len(),
    ensures
        r@ == join(seqs_of(pieces@).take(k as int), sep@),
{
    let mut out: Vec<char> = Vec::new();
    let mut i: usize = 0;
    let ghost ps = seqs_of(pieces@);
    while i < k
        invariant
            i <= k <= pieces@.len(),
            ps == seqs_of(pieces@),
            out@ == join(ps.take(i as int), sep@),
        decreases k - i,
    {
        assert(ps.take(i + 1).drop_last() =~= ps.take(i as int));
        assert(ps[i as int] == pieces@[i as int]@);
        if i > 0 {
            extend_str(&mut out, sep);
        } else {
            assert(out@ =~= Seq::<char>::empty());
        }
        extend_chars(&mut out, pieces[i].as_slice());
        proof {
            if i == 0 {
                assert(out@ =~= ps.take(1)[0]);
            } else {
                assert(out@ =~= join(ps.take(i as int), sep@) + sep@ + ps.take(i + 1).last());
            }
        }
        i += 1;
    }
    out
}

pub proof fn lemma_join_prefix_grows(ls: Seq<Seq<char>>, sep: Seq<char>, a: int, b: int)
    requires
        0 <= a <= b <= ls.len(),
    ensures
        blen(join(ls.take(a), sep)) <= blen(join(ls.take(b), sep)),
    decreases b - a,
{
    if a < b {
        lemma_join_prefix_grows(ls, sep, a, b - 1);
        let x = join(ls.take(b - 1), sep);
        assert(ls.take(b).drop_last() =~= ls.take(b - 1));
        if b - 1 == 0 {
            assert(x =~= Seq::<char>::empty());
        } else {
            lemma_blen_concat(x + sep, ls.take(b).last());
            lemma_blen_concat(x, sep);
        }
    }
}

// ───────────────────────────── words ─────────────────────────────

/// The words of `s` for the first `n` characters: finished words and the word
/// being read.
pub open spec fn words_fold(s: Seq<char>, n: int) -> (Seq<Seq<char>>, Seq<char>)
    decreases n,
{
    if n <= 0 {
        (seq![], seq![])
    } else {
        let (ws, cur) = words_fold(s, n - 1);
        if is_ws(s[n - 1]) {
            if cur.len() > 0 {
                (ws.push(cur), seq![])
            } else {
                (ws, seq![])
            }
        } else {
            (ws, cur.push(s[n - 1]))
        }
    }
}

/// `str::split_whitespace`: the maximal runs of non-whitespace characters.
pub open spec fn words(s: Seq<char>) -> Seq<Seq<char>> {
    let (ws, cur) = words_fold(s, s.len() as int);
    if cur.len() > 0 {
        ws.push(cur)
    } else {
        ws
    }
}

/// The words of `s` (`str::split_whitespace`).
pub fn split_whitespace(s: &str) -> (r: Vec<String>)
    ensures
        strs_of(r@) == words(s@),
{
    let c = chars_of(s);
    let mut out: Vec<String> = Vec::new();
    let mut cur: Vec<char> = Vec::new();
    let mut i: usize = 0;
    while i < c.len()
        invariant
            i <= c@.len(),
            c@ == s@,
            words_fold(s@, i as int) == (strs_of(out@), cur@),
        decreases c@.len() - i,
    {
        let ch = c[i];
        if char_is_ws(ch) {
            if cur.len() > 0 {
                let ghost before = strs_of(out@);
                out.push(string_of(cur.as_slice()));
                assert(strs_of(out@) =~= before.push(cur@));
                cur = Vec::new();
            }
        } else {
            cur.push(ch);
        }
        i += 1;
    }
    if cur.len() > 0 {
        let ghost before = strs_of(out@);
        out.push(string_of(cur.as_slice()));
        assert(strs_of(out@) =~= before.push(cur@));
    }
    out
}

// ───────────────────────────── byte-bounded prefixes ─────────────────────────────

/// The number of leading characters whose encoding fits in `n` bytes (the longest such prefix).
pub open spec fn fit_len(s: Seq<char>, n: nat) -> nat
    decreases s.len(),
{
    if s.len() == 0 {
        0
    } else if blen(s) <= n {
        s.len()
    } else {
        fit_len(s.drop_last(), n)
    }
}

pub proof fn lemma_fit_len(s: Seq<char>, n: nat, k: int)
    requires
        0 <= k <= s.len(),
        blen(s.take(k)) <= n,
        k == s.len() || blen(s.take(k + 1)) > n,
    ensures
        fit_len(s, n) == k,
    decreases s.len(),
{
    if s.len() == k {
        assert(s.take(k) =~= s);
    } else {
        lemma_blen_mono(s, k + 1, s.len() as int);
        assert(s.take(s.len() as int) =~= s);
        let d = s.drop_last();
        assert(d.take(k) =~= s.take(k));
        if k < d.len() {
            assert(d.take(k + 1) =~= s.take(k + 1));
        }
        lemma_fit_len(d, n, k);
    }
}

/// The prefix kept by `fit_len` fits in the byte budget.
pub proof fn lemma_fit_len_fits(s: Seq<char>, n: nat)
    ensures
        fit_len(s, n) <= s.len(),
        blen(s.take(fit_len(s, n) as int)) <= n,
    decreases s.len(),
{
    if s.len() > 0 {
        if blen(s) <= n {
            assert(s.take(s.len() as int) =~= s);
        } else {
            let d = s.drop_last();
            lemma_fit_len_fits(d, n);
            assert(d.take(fit_len(d, n) as int) =~= s.take(fit_len(d, n) as int));
        }
    } else {
        assert(s.take(0) =~= Seq::<char>::empty());
    }
}

/// The longest prefix of `s` of at most `max_bytes` bytes, cut on a character boundary.
pub fn truncate_utf8(s: &str, max_bytes: usize) -> (r: String)
    ensures
        r@ == s@.take(fit_len(s@, max_bytes as nat) as int),
{
    let c = chars_of(s);
    let mut i: usize = 0;
    let mut acc: usize = 0;
    let mut full = false;
    while i < c.len() && !full
        invariant
            i <= c@.len(),
            c@ == s@,
            acc == blen(c@.take(i as int)),
            acc <= max_bytes,
            full ==> i < c@.len() && acc + utf8_width(c@[i as int]) > max_bytes,
        decreases c@.len() - i, if full { 0int } else { 1int },
    {
        proof {
            lemma_blen_take_step(c@, i as int);
        }
        let w = utf8_width_exec(c[i]);
        if w > max_bytes - acc {
            full = true;
        } else {
            acc = acc + w;
            i += 1;
        }
    }
    proof {
        if i < c@.len() {
            lemma_blen_take_step(c@, i as int);
        }
        lemma_fit_len(c@, max_bytes as nat, i as int);
    }
    string_of(slice_of(c.as_slice(), 0, i).as_slice())
}

// ───────────────────────────── ordering ─────────────────────────────

/// Lexicographic order of character sequences by code point: the order of
/// `String`'s `Ord` (UTF-8 bytes compare in code point order).
pub open spec fn seq_lt(a: Seq<char>, b: Seq<char>) -> bool
    decreases a.len(),
{
    if a.len() == 0 {
        b.len() > 0
    } else if b.len() == 0 {
        false
    } else if a[0] != b[0] {
        a[0] < b[0]
    } else {
        seq_lt(a.skip(1), b.skip(1))
    }
}

/// `a < b` for strings.
pub fn str_lt(a: &str, b: &str) -> (r: bool)
    ensures
        r == seq_lt(a@, b@),
{
    let x = chars_of(a);
    let y = chars_of(b);
    let mut i: usize = 0;
    assert(a@.skip(0) =~= a@);
    assert(b@.skip(0) =~= b@);
    while i < x.len() && i < y.len() && x[i] == y[i]
        invariant
            i <= x@.len(),
            i <= y@.len(),
            x@ == a@,
            y@ == b@,
            seq_lt(a@, b@) == seq_lt(a@.skip(i as int), b@.skip(i as int)),
        decreases x@.len() - i,
    {
        assert(a@.skip(i as int).skip(1) =~= a@.skip(i + 1));
        assert(b@.skip(i as int).skip(1) =~= b@.skip(i + 1));
        i += 1;
    }
    if i == x.len() {
        i < y.len()
    } else if i == y.len() {
        false
    } else {
        x[i] < y[i]
    }
}

pub proof fn lemma_seq_lt_irrefl(a: Seq<char>)
    ensures
        !seq_lt(a, a),
    decreases a.len(),
{
    if a.len() > 0 {
        lemma_seq_lt_irrefl(a.skip(1));
    }
}

pub proof fn lemma_seq_lt_asym(a: Seq<char>, b: Seq<char>)
    requires
        seq_lt(a, b),
    ensures
        !seq_lt(b, a),
    decreases a.len(),
{
    if a.len() > 0 && b.len() > 0 && a[0] == b[0] {
        lemma_seq_lt_asym(a.skip(1), b.skip(1));
    }
}

pub proof fn lemma_seq_lt_trans(a: Seq<char>, b: Seq<char>, c: Seq<char>)
    requires
        seq_lt(a, b),
        seq_lt(b, c),
    ensures
        seq_lt(a, c),
    decreases a.len(),
{
    if a.len() > 0 && b.len() > 0 && c.len() > 0 && a[0] == b[0] && b[0] == c[0] {
        lemma_seq_lt_trans(a.skip(1), b.skip(1), c.skip(1));
    }
}

pub proof fn lemma_seq_lt_total(a: Seq<char>, b: Seq<char>)
    requires
        a != b,
    ensures
        seq_lt(a, b) || seq_lt(b, a),
    decreases a.len(),
{
    if a.len() == 0 {
        if b.len() == 0 {
            assert(a =~= b);
        }
    } else if b.len() == 0 {
    } else if a[0] != b[0] {
    } else {
        if a.skip(1) == b.skip(1) {
            assert(a =~= seq![a[0]] + a.skip(1));
            assert(b =~= seq![b[0]] + b.skip(1));
            assert(false);
        }
        lemma_seq_lt_total(a.skip(1), b.skip(1));
    }
}

// ───────────────────────────── query marks ─────────────────────────────

/// How many `?` marks a text holds.
pub open spec fn marks(s: Seq<char>) -> nat
    decreases s.len(),
{
    if s.len() == 0 {
        0
    } else {
        marks(s.drop_last()) + if s.last() == '?' {
            1nat
        } else {
            0nat
        }
    }
}

pub proof fn lemma_marks_concat(a: Seq<char>, b: Seq<char>)
    ensures
        marks(a + b) == marks(a) + marks(b),
    decreases b.len(),
{
    if b.len() > 0 {
        assert((a + b).drop_last() =~= a + b.drop_last());
        lemma_marks_concat(a, b.drop_last());
    } else {
        assert(a + b =~= a);
    }
}

pub proof fn lemma_no_marks(s: Seq<char>)
    requires
        forall|i: int| 0 <= i < s.len() ==> s[i] != '?',
    ensures
        marks(s) == 0,
    decreases s.len(),
{
    if s.len() > 0 {
        lemma_no_marks(s.drop_last());
    }
}

pub proof fn lemma_one_mark(c: Seq<char>, j: int)
    requires
        0 <= j < c.len(),
        c[j] == '?',
        forall|i: int| 0 <= i < c.len() && i != j ==> c[i] != '?',
    ensures
        marks(c) == 1,
{
    let head = c.take(j);
    let tail = c.skip(j + 1);
    assert forall|i: int| 0 <= i < head.len() implies head[i] != '?' by {
        assert(head[i] == c[i]);
    }
    assert forall|i: int| 0 <= i < tail.len() implies tail[i] != '?' by {
        assert(tail[i] == c[i + j + 1]);
    }
    lemma_no_marks(head);
    lemma_no_marks(tail);
    let q = seq![c[j]];
    assert(marks(Seq::<char>::empty()) == 0);
    assert(q.drop_last() =~= Seq::<char>::empty());
    assert(marks(q) == 1);
    assert(c =~= head + q + tail);
    lemma_marks_concat(head, q);
    lemma_marks_concat(head + q, tail);
}

pub proof fn lemma_marks_split(c: Seq<char>, j: int)
    requires
        0 <= j <= c.len(),
    ensures
        marks(c) == marks(c.take(j)) + marks(c.skip(j)),
{
    assert(c =~= c.take(j) + c.skip(j));
    lemma_marks_concat(c.take(j), c.skip(j));
}

} // verus!
