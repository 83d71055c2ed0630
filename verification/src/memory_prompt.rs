//! The memory section of the system prompt: memories grouped by type, pinned
//! and recently updated ones first, one line each, within a byte budget.
use vstd::prelude::*;
use crate::memory::{memory_heading, prompt_safe, sanitize_for_prompt, MemoryType};
use crate::text::{
    blen, blen_capped, blen_le, chars_of, extend_chars, extend_str, lines, lines_exec, seq_lt,
    starts_with, starts_with_str, str_lt, string_of,
};

verus! {

/// What the summary reads of a stored memory.
#[derive(Debug, Clone)]
pub struct SummaryEntry {
    pub memory_type: MemoryType,
    pub pinned: bool,
    /// RFC 3339 time of the last update.
    pub updated_at: String,
    pub attachment_path: Option<String>,
    pub attachment_mime: Option<String>,
    pub content: String,
}

// ───────────────────────────── ordering ─────────────────────────────

/// `a` is listed before `b`: pinned first, then the later update first.
pub open spec fn goes_before(a: SummaryEntry, b: SummaryEntry) -> bool {
    (a.pinned && !b.pinned) || (a.pinned == b.pinned && seq_lt(b.updated_at@, a.updated_at@))
}

/// Where `x` is inserted: before the first entry it goes before.
pub open spec fn ins_pos(s: Seq<SummaryEntry>, x: SummaryEntry) -> int
    decreases s.len(),
{
    if s.len() == 0 {
        0
    } else if goes_before(x, s[0]) {
        0
    } else {
        1 + ins_pos(s.skip(1), x)
    }
}

/// The stable sort of `s` by `goes_before` (insertion of each entry, in
/// order, after every entry it does not go before).
pub open spec fn stable_sort(s: Seq<SummaryEntry>) -> Seq<SummaryEntry>
    decreases s.len(),
{
    if s.len() == 0 {
        seq![]
    } else {
        let t = stable_sort(s.drop_last());
        t.insert(ins_pos(t, s.last()), s.last())
    }
}

/// The entries of type `t`, in order.
pub open spec fn of_type(s: Seq<SummaryEntry>, t: MemoryType) -> Seq<SummaryEntry>
    decreases s.len(),
{
    if s.len() == 0 {
        seq![]
    } else {
        let rest = of_type(s.drop_last(), t);
        if s.last().memory_type == t {
            rest.push(s.last())
        } else {
            rest
        }
    }
}

proof fn lemma_ins_pos(s: Seq<SummaryEntry>, x: SummaryEntry, k: int)
    requires
        0 <= k <= s.len(),
        forall|j: int| 0 <= j < k ==> !goes_before(x, #[trigger] s[j]),
        k == s.len() || goes_before(x, s[k]),
    ensures
        ins_pos(s, x) == k,
    decreases k,
{
    if k > 0 {
        assert forall|j: int| 0 <= j < k - 1 implies !goes_before(x, #[trigger] s.skip(1)[j]) by {
            assert(s.skip(1)[j] == s[j + 1]);
        }
        if k < s.len() {
            assert(s.skip(1)[k - 1] == s[k]);
        }
        lemma_ins_pos(s.skip(1), x, k - 1);
    }
}

proof fn lemma_ins_pos_bound(s: Seq<SummaryEntry>, x: SummaryEntry)
    ensures
        0 <= ins_pos(s, x) <= s.len(),
    decreases s.len(),
{
    if s.len() > 0 && !goes_before(x, s[0]) {
        lemma_ins_pos_bound(s.skip(1), x);
    }
}

proof fn lemma_goes_before_order(a: SummaryEntry, b: SummaryEntry, c: SummaryEntry)
    ensures
        goes_before(a, b) ==> !goes_before(b, a),
        goes_before(a, b) && goes_before(b, c) ==> goes_before(a, c),
{
    if goes_before(a, b) && a.pinned == b.pinned {
        crate::text::lemma_seq_lt_asym(b.updated_at@, a.updated_at@);
    }
    if goes_before(a, b) && goes_before(b, c) && a.pinned == b.pinned && b.pinned == c.pinned {
        crate::text::lemma_seq_lt_trans(c.updated_at@, b.updated_at@, a.updated_at@);
    }
}

/// Sorted: no entry goes before an earlier one.
pub open spec fn summary_sorted(s: Seq<SummaryEntry>) -> bool {
    forall|i: int, j: int| 0 <= i < j < s.len() ==> !goes_before(#[trigger] s[j], #[trigger] s[i])
}

/// Within a section, entries are listed pinned first, then most recently
/// updated first: the sort leaves no entry before one it should follow, and it
/// keeps every entry.
pub proof fn lemma_stable_sort_sorted(s: Seq<SummaryEntry>)
    ensures
        summary_sorted(stable_sort(s)),
        stable_sort(s).len() == s.len(),
        stable_sort(s).to_multiset() == s.to_multiset(),
    decreases s.len(),
{
    if s.len() > 0 {
        let d = s.drop_last();
        lemma_stable_sort_sorted(d);
        let t = stable_sort(d);
        let x = s.last();
        let p = ins_pos(t, x);
        lemma_ins_pos_bound(t, x);
        lemma_ins_pos_first(t, x);
        let r = t.insert(p, x);
        assert forall|i: int, j: int| 0 <= i < j < r.len() implies !goes_before(#[trigger] r[j], #[trigger] r[i]) by {
            if j < p {
                assert(r[i] == t[i] && r[j] == t[j]);
            } else if j == p {
                assert(r[j] == x && r[i] == t[i]);
            } else if i == p {
                assert(r[i] == x && r[j] == t[j - 1]);
                if goes_before(t[j - 1], x) {
                    if j - 1 == p {
                        lemma_goes_before_order(x, t[p], t[p]);
                    } else {
                        assert(!goes_before(t[j - 1], t[p]));
                        lemma_goes_before_order(t[j - 1], x, t[p]);
                    }
                }
            } else if i < p {
                assert(r[i] == t[i] && r[j] == t[j - 1]);
            } else {
                assert(r[i] == t[i - 1] && r[j] == t[j - 1]);
            }
        }
        assert(s =~= d.push(x));
        vstd::seq_lib::to_multiset_insert(t, p, x);
        vstd::seq_lib::to_multiset_build(d, x);
        assert(stable_sort(s) == r);
    } else {
        assert(s =~= Seq::<SummaryEntry>::empty());
        assert(stable_sort(s) =~= Seq::<SummaryEntry>::empty());
    }
}

proof fn lemma_ins_pos_first(s: Seq<SummaryEntry>, x: SummaryEntry)
    ensures
        forall|j: int| 0 <= j < ins_pos(s, x) ==> !goes_before(x, #[trigger] s[j]),
        ins_pos(s, x) < s.len() ==> goes_before(x, s[ins_pos(s, x)]),
    decreases s.len(),
{
    lemma_ins_pos_bound(s, x);
    if s.len() > 0 && !goes_before(x, s[0]) {
        lemma_ins_pos_first(s.skip(1), x);
        lemma_ins_pos_bound(s.skip(1), x);
        assert forall|j: int| 0 <= j < ins_pos(s, x) implies !goes_before(x, #[trigger] s[j]) by {
            if j > 0 {
                assert(s[j] == s.skip(1)[j - 1]);
            }
        }
        if ins_pos(s, x) < s.len() {
            assert(s[ins_pos(s, x)] == s.skip(1)[ins_pos(s.skip(1), x)]);
        }
    }
}

fn goes_before_exec(a: &SummaryEntry, b: &SummaryEntry) -> (r: bool)
    ensures
        r == goes_before(*a, *b),
{
    (a.pinned && !b.pinned) || (a.pinned == b.pinned && str_lt(b.updated_at.as_str(), a.updated_at.as_str()))
}

pub open spec fn derefs(v: Seq<&SummaryEntry>) -> Seq<SummaryEntry> {
    v.map_values(|e: &SummaryEntry| *e)
}

/// The entries of one type, stably sorted.
fn sorted_of_type<'a>(entries: &'a Vec<SummaryEntry>, t: MemoryType) -> (r: Vec<&'a SummaryEntry>)
    ensures
        derefs(r@) == stable_sort(of_type(entries@, t)),
{
    let mut typed: Vec<&SummaryEntry> = Vec::new();
    let mut i: usize = 0;
    while i < entries.len()
        invariant
            i <= entries@.len(),
            derefs(typed@) == of_type(entries@.take(i as int), t),
        decreases entries@.len() - i,
    {
        assert(entries@.take(i + 1).drop_last() =~= entries@.take(i as int));
        if entries[i].memory_type == t {
            let ghost before = derefs(typed@);
            typed.push(&entries[i]);
            assert(derefs(typed@) =~= before.push(entries@[i as int]));
        }
        i += 1;
    }
    assert(entries@.take(entries@.len() as int) =~= entries@);
    let ghost all = derefs(typed@);
    let mut sorted: Vec<&SummaryEntry> = Vec::new();
    let mut j: usize = 0;
    assert(all.take(0) =~= Seq::<SummaryEntry>::empty());
    assert(derefs(sorted@) =~= Seq::<SummaryEntry>::empty());
    while j < typed.len()
        invariant
            j <= typed@.len(),
            all == derefs(typed@),
            derefs(sorted@) == stable_sort(all.take(j as int)),
            sorted@.len() == j,
        decreases typed@.len() - j,
    {
        let x = typed[j];
        let ghost cur = derefs(sorted@);
        let mut k: usize = 0;
        while k < sorted.len() && !goes_before_exec(x, sorted[k])
            invariant
                k <= sorted@.len(),
                cur == derefs(sorted@),
                forall|m: int| 0 <= m < k ==> !goes_before(*x, #[trigger] cur[m]),
            decreases sorted@.len() - k,
        {
            k += 1;
        }
        proof {
            lemma_ins_pos(cur, *x, k as int);
            assert(all.take(j + 1).drop_last() =~= all.take(j as int));
            assert(all.take(j + 1).last() == *x);
        }
        sorted.insert(k, x);
        assert(derefs(sorted@) =~= cur.insert(k as int, *x));
        j += 1;
    }
    assert(all.take(typed@.len() as int) =~= all);
    sorted
}

// ───────────────────────────── lines ─────────────────────────────

/// `[img] ` or `[audio] ` for an attached image or audio file.
pub open spec fn attachment_tag(e: SummaryEntry) -> Seq<char> {
    match (e.attachment_path, e.attachment_mime) {
        (Some(_), Some(m)) => if starts_with(m@, "image/"@) {
            "[img] "@
        } else if starts_with(m@, "audio/"@) {
            "[audio] "@
        } else {
            seq![]
        },
        _ => seq![],
    }
}

/// The first line of a memory's text (the text itself when it has no lines).
pub open spec fn first_line(c: Seq<char>) -> Seq<char> {
    if lines(c).len() > 0 {
        lines(c)[0]
    } else {
        c
    }
}

/// `- ★ [img] text` (star when pinned), the first line made prompt-safe.
pub open spec fn entry_line(e: SummaryEntry) -> Seq<char> {
    "- "@ + (if e.pinned {
        "\u{2605} "@
    } else {
        seq![]
    }) + attachment_tag(e) + prompt_safe(first_line(e.content@)) + "\n"@
}

/// The summary being written, the budget left, and whether anything was listed
/// or the budget ran out.
pub struct SumState {
    pub text: Seq<char>,
    pub remaining: nat,
    pub has_content: bool,
    pub exhausted: bool,
}

/// The first `n` entries of a section written while they fit; the flag says
/// whether any was written.
pub open spec fn entries_fold(st: SumState, es: Seq<SummaryEntry>, n: int) -> (SumState, bool)
    decreases n,
{
    if n <= 0 {
        (st, false)
    } else {
        let (s1, has) = entries_fold(st, es, n - 1);
        if s1.exhausted {
            (s1, has)
        } else {
            let line = entry_line(es[n - 1]);
            if blen(line) > s1.remaining {
                (SumState { exhausted: true, ..s1 }, has)
            } else {
                (SumState { text: s1.text + line, remaining: (s1.remaining - blen(line)) as nat, ..s1 }, true)
            }
        }
    }
}

/// The section of one type: its heading and entries when they fit, and a
/// blank line after a non-empty section when budget is left.
pub open spec fn type_step(st: SumState, entries: Seq<SummaryEntry>, t: MemoryType) -> SumState {
    if st.exhausted {
        st
    } else {
        let typed = stable_sort(of_type(entries, t));
        if typed.len() == 0 {
            st
        } else {
            let heading = "## "@ + memory_heading(t) + "\n"@;
            if blen(heading) > st.remaining {
                SumState { exhausted: true, ..st }
            } else {
                let s1 = SumState { text: st.text + heading, remaining: (st.remaining - blen(heading)) as nat, ..st };
                let (s2, has) = entries_fold(s1, typed, typed.len() as int);
                if has {
                    if s2.remaining > 1 {
                        SumState { text: s2.text + "\n"@, remaining: (s2.remaining - 1) as nat, has_content: true, ..s2 }
                    } else {
                        SumState { has_content: true, ..s2 }
                    }
                } else {
                    s2
                }
            }
        }
    }
}

/// The memory section: `# Memory`, then the user, feedback, project and
/// reference sections in that order, each entry on one line, within `budget`
/// bytes less 31 (the header and the truncation marker); the marker is added
/// when the budget ran out. Empty when nothing could be listed.
pub open spec fn prompt_summary(entries: Seq<SummaryEntry>, budget: nat) -> Seq<char> {
    if entries.len() == 0 {
        seq![]
    } else {
        let st0 = SumState {
            text: "# Memory\n\n"@,
            remaining: if budget > 31 { (budget - 31) as nat } else { 0 },
            has_content: false,
            exhausted: false,
        };
        let s1 = type_step(st0, entries, MemoryType::User);
        let s2 = type_step(s1, entries, MemoryType::Feedback);
        let s3 = type_step(s2, entries, MemoryType::Project);
        let s4 = type_step(s3, entries, MemoryType::Reference);
        if !s4.has_content {
            seq![]
        } else if s4.exhausted {
            s4.text + "\n\n[... truncated ...]"@
        } else {
            s4.text
        }
    }
}

fn entry_line_exec(e: &SummaryEntry) -> (r: Vec<char>)
    ensures
        r@ == entry_line(*e),
{
    let mut out: Vec<char> = Vec::new();
    extend_str(&mut out, "- ");
    if e.pinned {
        extend_str(&mut out, "\u{2605} ");
    }
    match (&e.attachment_path, &e.attachment_mime) {
        (Some(_), Some(m)) => {
            let mc = chars_of(m.as_str());
            if starts_with_str(mc.as_slice(), "image/") {
                extend_str(&mut out, "[img] ");
            } else if starts_with_str(mc.as_slice(), "audio/") {
                extend_str(&mut out, "[audio] ");
            }
        },
        _ => {},
    }
    let c = chars_of(e.content.as_str());
    let ls = lines_exec(c.as_slice());
    assert(crate::text::seqs_of(ls@).len() == ls@.len());
    let first = if ls.len() > 0 {
        string_of(ls[0].as_slice())
    } else {
        string_of(c.as_slice())
    };
    let safe = sanitize_for_prompt(first.as_str());
    extend_str(&mut out, safe.as_str());
    extend_str(&mut out, "\n");
    assert(out@ =~= entry_line(*e));
    out
}

fn heading_exec(t: MemoryType) -> (r: Vec<char>)
    ensures
        r@ == "## "@ + memory_heading(t) + "\n"@,
{
    let mut out: Vec<char> = Vec::new();
    extend_str(&mut out, "## ");
    extend_str(&mut out, t.heading());
    extend_str(&mut out, "\n");
    out
}

/// Writes one type's section (see `type_step`).
fn type_step_exec(
    text: &mut Vec<char>,
    remaining: &mut usize,
    has_content: &mut bool,
    exhausted: &mut bool,
    entries: &Vec<SummaryEntry>,
    t: MemoryType,
)
    ensures
        (SumState {
            text: final(text)@,
            remaining: *final(remaining) as nat,
            has_content: *final(has_content),
            exhausted: *final(exhausted),
        }) == type_step(
            SumState {
                text: old(text)@,
                remaining: *old(remaining) as nat,
                has_content: *old(has_content),
                exhausted: *old(exhausted),
            },
            entries@,
            t,
        ),
{
    let ghost st0 = SumState { text: text@, remaining: *remaining as nat, has_content: *has_content, exhausted: *exhausted };
    if *exhausted {
        return;
    }
    let typed = sorted_of_type(entries, t);
    if typed.len() == 0 {
        return;
    }
    let heading = heading_exec(t);
    if !blen_le(heading.as_slice(), *remaining) {
        *exhausted = true;
        return;
    }
    let hl = blen_capped(heading.as_slice(), *remaining);
    assert(hl == blen(heading@));
    *remaining = *remaining - hl;
    extend_chars(text, heading.as_slice());
    let ghost s1 = SumState { text: text@, remaining: *remaining as nat, has_content: *has_content, exhausted: *exhausted };
    let ghost es = derefs(typed@);
    let mut has = false;
    let mut i: usize = 0;
    assert(entries_fold(s1, es, 0) == (s1, false));
    while i < typed.len()
        invariant
            i <= typed@.len(),
            es == derefs(typed@),
            entries_fold(s1, es, i as int) == (SumState { text: text@, remaining: *remaining as nat, has_content: *has_content, exhausted: *exhausted }, has),
        decreases typed@.len() - i,
    {
        if !*exhausted {
            let line = entry_line_exec(typed[i]);
            if !blen_le(line.as_slice(), *remaining) {
                *exhausted = true;
            } else {
                let ll = blen_capped(line.as_slice(), *remaining);
                *remaining = *remaining - ll;
                extend_chars(text, line.as_slice());
                has = true;
            }
        }
        i += 1;
    }
    proof {
        let typed_spec = stable_sort(of_type(entries@, t));
        assert(es == typed_spec);
        let h = "## "@ + memory_heading(t) + "\n"@;
        assert(heading@ == h);
        let s1spec = SumState { text: st0.text + h, remaining: (st0.remaining - blen(h)) as nat, ..st0 };
        assert(s1 == s1spec);
    }
    let ghost s2 = SumState { text: text@, remaining: *remaining as nat, has_content: *has_content, exhausted: *exhausted };
    if has {
        *has_content = true;
        if *remaining > 1 {
            text.push('\n');
            *remaining = *remaining - 1;
            proof {
                reveal_strlit("\n");
            }
            assert(text@ =~= s2.text + "\n"@);
        }
    }
}

/// The memory section of the system prompt (see `prompt_summary`).
pub fn format_prompt_summary(entries: &Vec<SummaryEntry>, budget: usize) -> (r: String)
    ensures
        r@ == prompt_summary(entries@, budget as nat),
{
    if entries.len() == 0 {
        return String::new();
    }
    let mut text = chars_of("# Memory\n\n");
    let mut remaining: usize = if budget > 31 {
        budget - 31
    } else {
        0
    };
    let mut has_content = false;
    let mut exhausted = false;
    type_step_exec(&mut text, &mut remaining, &mut has_content, &mut exhausted, entries, MemoryType::User);
    type_step_exec(&mut text, &mut remaining, &mut has_content, &mut exhausted, entries, MemoryType::Feedback);
    type_step_exec(&mut text, &mut remaining, &mut has_content, &mut exhausted, entries, MemoryType::Project);
    type_step_exec(&mut text, &mut remaining, &mut has_content, &mut exhausted, entries, MemoryType::Reference);
    if !has_content {
        return String::new();
    }
    if exhausted {
        extend_str(&mut text, "\n\n[... truncated ...]");
    }
    string_of(text.as_slice())
}

} // verus!
