//! The skills catalog: which skills the model is told about, the skills section
//! of the system prompt, which skills users may invoke, and per-skill health.
use vstd::prelude::*;
use crate::paths::home_dir_text;
use crate::skills::{
    check_requirements, check_requirements_detail, detail_spec, facts_fit, requirements_met,
    FileInfo, SkillDetail, RequirementFacts, RequirementsDetail, SkillEntry, SkillPromptBudget, SkillStatusEntry,
};
use crate::text::{
    seq_lt, str_lt, blen, blen_le, chars_of, dec, dec_exec, extend_chars, extend_str, join, join_prefix,
    lemma_join_prefix_grows, seqs_of, starts_with, starts_with_str, str_eq, string_of, strs_of,
    vec_contains_str,
};

verus! {

// ───────────────────────────── which skills are offered ─────────────────────────────

/// The key a skill is configured under: its `skill_key`, else its name.
pub open spec fn skill_key_of(s: SkillEntry) -> Seq<char> {
    match s.skill_key {
        Some(k) => k@,
        None => s.name@,
    }
}

/// The bundled-skill allowlist lets `s` through: the list is empty, the skill is
/// not bundled, or the list names its key or its name.
pub open spec fn allowlisted(s: SkillEntry, allow: Seq<Seq<char>>) -> bool {
    allow.len() == 0 || s.source@ != "bundled"@ || allow.contains(skill_key_of(s)) || allow.contains(
        s.name@,
    )
}

/// Not disabled, not hidden from the model, and allowlisted.
pub open spec fn offered(s: SkillEntry, disabled: Seq<Seq<char>>, allow: Seq<Seq<char>>) -> bool {
    &&& !disabled.contains(s.name@)
    &&& s.disable_model_invocation != Some(true)
    &&& allowlisted(s, allow)
}

/// One fact record per skill, fitting its requirements (needed only when the
/// environment is checked).
pub open spec fn facts_for(skills: Seq<SkillEntry>, facts: Seq<RequirementFacts>) -> bool {
    &&& facts.len() == skills.len()
    &&& forall|i: int| 0 <= i < skills.len() ==> facts_fit(#[trigger] skills[i].requires@, facts[i])
}

/// Skill `i` goes into the prompt.
pub open spec fn in_prompt(
    skills: Seq<SkillEntry>,
    facts: Seq<RequirementFacts>,
    env_check: bool,
    disabled: Seq<Seq<char>>,
    allow: Seq<Seq<char>>,
    i: int,
) -> bool {
    offered(skills[i], disabled, allow) && (!env_check || requirements_met(
        skills[i].requires@,
        facts[i],
    ))
}

/// The skills among the first `n` that go into the prompt, in order.
pub open spec fn active_skills(
    skills: Seq<SkillEntry>,
    facts: Seq<RequirementFacts>,
    env_check: bool,
    disabled: Seq<Seq<char>>,
    allow: Seq<Seq<char>>,
    n: int,
) -> Seq<SkillEntry>
    decreases n,
{
    if n <= 0 {
        seq![]
    } else {
        let rest = active_skills(skills, facts, env_check, disabled, allow, n - 1);
        if in_prompt(skills, facts, env_check, disabled, allow, n - 1) {
            rest.push(skills[n - 1])
        } else {
            rest
        }
    }
}

/// Every skill listed in the prompt is offered: not disabled, not hidden from
/// the model, and allowlisted.
pub proof fn lemma_listed_skills_offered(
    skills: Seq<SkillEntry>,
    facts: Seq<RequirementFacts>,
    env_check: bool,
    disabled: Seq<Seq<char>>,
    allow: Seq<Seq<char>>,
    n: int,
)
    ensures
        forall|j: int|
            0 <= j < active_skills(skills, facts, env_check, disabled, allow, n).len() ==> offered(
                #[trigger] active_skills(skills, facts, env_check, disabled, allow, n)[j],
                disabled,
                allow,
            ),
    decreases n,
{
    if n > 0 {
        lemma_listed_skills_offered(skills, facts, env_check, disabled, allow, n - 1);
        let prev = active_skills(skills, facts, env_check, disabled, allow, n - 1);
        let cur = active_skills(skills, facts, env_check, disabled, allow, n);
        assert forall|j: int| 0 <= j < cur.len() implies offered(#[trigger] cur[j], disabled, allow) by {
            if j < prev.len() {
                assert(cur[j] == prev[j]);
            }
        }
    }
}

// ───────────────────────────── prompt text ─────────────────────────────

/// A path under the home directory written as `~/...`; other paths unchanged.
pub open spec fn compact_path_spec(path: Seq<char>, home: Option<Seq<char>>) -> Seq<char> {
    match home {
        Some(h) => if starts_with(path, h) && path.len() > h.len() && (path[h.len() as int] == '/'
            || path[h.len() as int] == '\\') {
            seq!['~'] + path.skip(h.len() as int)
        } else {
            path
        },
        None => path,
    }
}

/// `- name: description (read: path)`.
pub open spec fn full_line(s: SkillEntry, home: Option<Seq<char>>) -> Seq<char> {
    "- "@ + s.name@ + ": "@ + s.description@ + " (read: "@ + compact_path_spec(s.file_path@, home)
        + ")"@
}

/// `- name (read: path)`.
pub open spec fn compact_line(s: SkillEntry, home: Option<Seq<char>>) -> Seq<char> {
    "- "@ + s.name@ + " (read: "@ + compact_path_spec(s.file_path@, home) + ")"@
}

pub open spec fn full_lines(act: Seq<SkillEntry>, home: Option<Seq<char>>) -> Seq<Seq<char>> {
    Seq::new(act.len(), |i: int| full_line(act[i], home))
}

pub open spec fn compact_lines(act: Seq<SkillEntry>, home: Option<Seq<char>>) -> Seq<Seq<char>> {
    Seq::new(act.len(), |i: int| compact_line(act[i], home))
}

/// The header of the skills section.
pub open spec fn header() -> Seq<char> {
    "\n\nThe following skills provide specialized instructions for specific tasks.\nUse the `read` tool to load a skill's file when the task matches its name.\nWhen a skill file references a relative path, resolve it against the skill directory (parent of SKILL.md) and use that absolute path in tool commands.\nOnly read the skill most relevant to the current task \u{2014} do not read more than one skill up front."@
}

/// The header, a newline, and the lines joined by newlines.
pub open spec fn section(lines: Seq<Seq<char>>) -> Seq<char> {
    header() + "\n"@ + join(lines, "\n"@)
}

/// Note appended when descriptions were dropped.
pub open spec fn compact_note(n: nat) -> Seq<char> {
    "\n\n\u{26a0}\u{fe0f} Skills catalog using compact format (descriptions omitted). "@ + dec(n)
        + " skills available."@
}

/// Note appended when only the first `k` of `n` skills fit.
pub open spec fn truncated_note(k: nat, n: nat) -> Seq<char> {
    "\n\n\u{26a0}\u{fe0f} Skills truncated: showing "@ + dec(k) + " of "@ + dec(n)
        + " (compact format, descriptions omitted)."@
}

/// The first `k` compact lines fit with room (120 bytes) for the truncation note.
pub open spec fn prefix_fits(lines: Seq<Seq<char>>, k: int, max_chars: nat) -> bool {
    blen(section(lines.take(k))) + 120 <= max_chars
}

/// The largest `k <= n` whose prefix fits, or 0.
pub open spec fn best_prefix(lines: Seq<Seq<char>>, n: int, max_chars: nat) -> int
    decreases n,
{
    if n <= 0 {
        0
    } else if prefix_fits(lines, n, max_chars) {
        n
    } else {
        best_prefix(lines, n - 1, max_chars)
    }
}

/// The skills section for the given active skills (already cut to the budget's count).
pub open spec fn section_for(act: Seq<SkillEntry>, home: Option<Seq<char>>, max_chars: nat) -> Seq<
    char,
> {
    let full = section(full_lines(act, home));
    let cl = compact_lines(act, home);
    let compact = section(cl);
    if blen(full) <= max_chars {
        full
    } else if blen(compact) <= max_chars {
        compact + compact_note(act.len())
    } else {
        let k = best_prefix(cl, act.len() as int, max_chars);
        if k > 0 {
            section(cl.take(k)) + truncated_note(k as nat, act.len())
        } else {
            header()
        }
    }
}

/// The whole skills section of the system prompt: empty when no skill is active.
pub open spec fn skills_prompt(
    skills: Seq<SkillEntry>,
    facts: Seq<RequirementFacts>,
    env_check: bool,
    disabled: Seq<Seq<char>>,
    allow: Seq<Seq<char>>,
    budget: SkillPromptBudget,
    home: Option<Seq<char>>,
) -> Seq<char> {
    let act = active_skills(skills, facts, env_check, disabled, allow, skills.len() as int);
    if act.len() == 0 {
        seq![]
    } else {
        let n = if budget.max_count < act.len() {
            budget.max_count as int
        } else {
            act.len() as int
        };
        section_for(act.take(n), home, budget.max_chars as nat)
    }
}

// ───────────────────────────── executable parts ─────────────────────────────

/// `path` with the home directory written as `~`, for a given home directory.
pub fn compact_path_with(path: &str, home: &Option<String>) -> (r: String)
    ensures
        r@ == compact_path_spec(path@, home.deep_view()),
{
    match home {
        Some(h) => {
            let p = chars_of(path);
            let hc = chars_of(h.as_str());
            if starts_with_str(p.as_slice(), h.as_str()) && p.len() > hc.len() && (p[hc.len()] == '/'
                || p[hc.len()] == '\\') {
                let mut out: Vec<char> = Vec::new();
                out.push('~');
                let rest = crate::text::slice_of(p.as_slice(), hc.len(), p.len());
                extend_chars(&mut out, rest.as_slice());
                assert(rest@ =~= path@.skip(h@.len() as int));
                assert(out@ =~= seq!['~'] + path@.skip(h@.len() as int));
                string_of(out.as_slice())
            } else {
                string_of(p.as_slice())
            }
        },
        None => string_of(chars_of(path).as_slice()),
    }
}

/// `path` with the user's home directory written as `~`.
pub fn compact_path(path: &str) -> (r: String)
    ensures
        exists|home: Option<Seq<char>>| r@ == compact_path_spec(path@, home),
{
    let home = home_dir_text();
    compact_path_with(path, &home)
}

fn allowlisted_exec(s: &SkillEntry, allow: &Vec<String>) -> (r: bool)
    ensures
        r == allowlisted(*s, strs_of(allow@)),
{
    if allow.len() == 0 || !str_eq(s.source.as_str(), "bundled") {
        return true;
    }
    let key = match &s.skill_key {
        Some(k) => k.as_str(),
        None => s.name.as_str(),
    };
    vec_contains_str(allow, key) || vec_contains_str(allow, s.name.as_str())
}

fn offered_exec(s: &SkillEntry, disabled: &Vec<String>, allow: &Vec<String>) -> (r: bool)
    ensures
        r == offered(*s, strs_of(disabled@), strs_of(allow@)),
{
    if vec_contains_str(disabled, s.name.as_str()) {
        return false;
    }
    let hidden = match s.disable_model_invocation {
        Some(b) => b,
        None => false,
    };
    if hidden {
        return false;
    }
    allowlisted_exec(s, allow)
}

/// Indices of the skills that go into the prompt, in order.
fn active_indices(
    skills: &Vec<SkillEntry>,
    disabled: &Vec<String>,
    env_check: bool,
    facts: &Vec<RequirementFacts>,
    allow: &Vec<String>,
) -> (r: Vec<usize>)
    requires
        env_check ==> facts_for(skills@, facts@),
    ensures
        r@.len() == active_skills(
            skills@,
            facts@,
            env_check,
            strs_of(disabled@),
            strs_of(allow@),
            skills@.len() as int,
        ).len(),
        forall|j: int|
            0 <= j < r@.len() ==> #[trigger] r@[j] < skills@.len() && skills@[r@[j] as int]
                == active_skills(
                skills@,
                facts@,
                env_check,
                strs_of(disabled@),
                strs_of(allow@),
                skills@.len() as int,
            )[j],
{
    let ghost d = strs_of(disabled@);
    let ghost a = strs_of(allow@);
    let mut out: Vec<usize> = Vec::new();
    let mut i: usize = 0;
    while i < skills.len()
        invariant
            i <= skills@.len(),
            d == strs_of(disabled@),
            a == strs_of(allow@),
            env_check ==> facts_for(skills@, facts@),
            out@.len() == active_skills(skills@, facts@, env_check, d, a, i as int).len(),
            forall|j: int|
                0 <= j < out@.len() ==> #[trigger] out@[j] < skills@.len() && skills@[out@[j] as int]
                    == active_skills(skills@, facts@, env_check, d, a, i as int)[j],
        decreases skills@.len() - i,
    {
        let ghost prev = active_skills(skills@, facts@, env_check, d, a, i as int);
        let mut take = offered_exec(&skills[i], disabled, allow);
        if take && env_check {
            assert(facts_fit(skills@[i as int].requires@, facts@[i as int]));
            take = check_requirements(&skills[i].requires, &facts[i]);
        }
        assert(take == in_prompt(skills@, facts@, env_check, d, a, i as int));
        if take {
            out.push(i);
            assert(active_skills(skills@, facts@, env_check, d, a, i + 1) == prev.push(
                skills@[i as int],
            ));
        }
        i += 1;
    }
    out
}

/// The text of a skill's full line.
fn full_line_exec(s: &SkillEntry, home: &Option<String>) -> (r: Vec<char>)
    ensures
        r@ == full_line(*s, home.deep_view()),
{
    let mut out: Vec<char> = Vec::new();
    extend_str(&mut out, "- ");
    extend_str(&mut out, s.name.as_str());
    extend_str(&mut out, ": ");
    extend_str(&mut out, s.description.as_str());
    extend_str(&mut out, " (read: ");
    let p = compact_path_with(s.file_path.as_str(), home);
    extend_str(&mut out, p.as_str());
    extend_str(&mut out, ")");
    out
}

/// The text of a skill's compact line.
fn compact_line_exec(s: &SkillEntry, home: &Option<String>) -> (r: Vec<char>)
    ensures
        r@ == compact_line(*s, home.deep_view()),
{
    let mut out: Vec<char> = Vec::new();
    extend_str(&mut out, "- ");
    extend_str(&mut out, s.name.as_str());
    extend_str(&mut out, " (read: ");
    let p = compact_path_with(s.file_path.as_str(), home);
    extend_str(&mut out, p.as_str());
    extend_str(&mut out, ")");
    out
}

fn header_exec() -> (r: &'static str)
    ensures
        r@ == header(),
{
    "\n\nThe following skills provide specialized instructions for specific tasks.\nUse the `read` tool to load a skill's file when the task matches its name.\nWhen a skill file references a relative path, resolve it against the skill directory (parent of SKILL.md) and use that absolute path in tool commands.\nOnly read the skill most relevant to the current task \u{2014} do not read more than one skill up front."
}

/// `section(lines[..k])`.
fn section_exec(lines: &Vec<Vec<char>>, k: usize) -> (r: Vec<char>)
    requires
        k <= lines@.len(),
    ensures
        r@ == section(seqs_of(lines@).take(k as int)),
{
    let mut out: Vec<char> = Vec::new();
    extend_str(&mut out, header_exec());
    extend_str(&mut out, "\n");
    let body = join_prefix(lines, k, "\n");
    extend_chars(&mut out, body.as_slice());
    out
}

proof fn lemma_best_prefix(lines: Seq<Seq<char>>, n: int, max_chars: nat, lo: int)
    requires
        0 <= lo <= n,
        lo == 0 || prefix_fits(lines, lo, max_chars),
        forall|j: int| lo < j <= n ==> !#[trigger] prefix_fits(lines, j, max_chars),
    ensures
        best_prefix(lines, n, max_chars) == lo,
    decreases n,
{
    if n > lo {
        lemma_best_prefix(lines, n - 1, max_chars, lo);
    }
}

proof fn lemma_fits_mono(lines: Seq<Seq<char>>, a: int, b: int, max_chars: nat)
    requires
        0 <= a <= b <= lines.len(),
        prefix_fits(lines, b, max_chars),
    ensures
        prefix_fits(lines, a, max_chars),
{
    lemma_join_prefix_grows(lines, "\n"@, a, b);
    crate::text::lemma_blen_concat(header() + "\n"@, join(lines.take(a), "\n"@));
    crate::text::lemma_blen_concat(header() + "\n"@, join(lines.take(b), "\n"@));
}

/// `section(lines[..k])` plus the 120-byte reserve fits in `max_chars`.
fn prefix_fits_exec(lines: &Vec<Vec<char>>, k: usize, max_chars: usize) -> (r: bool)
    requires
        k <= lines@.len(),
    ensures
        r == prefix_fits(seqs_of(lines@), k as int, max_chars as nat),
{
    if max_chars < 120 {
        return false;
    }
    let cand = section_exec(lines, k);
    blen_le(cand.as_slice(), max_chars - 120)
}

/// The largest prefix of compact lines that fits, by binary search.
fn best_prefix_exec(lines: &Vec<Vec<char>>, max_chars: usize) -> (r: usize)
    ensures
        r as int == best_prefix(seqs_of(lines@), lines@.len() as int, max_chars as nat),
        r <= lines@.len(),
{
    let ghost ls = seqs_of(lines@);
    let mut lo: usize = 0;
    let mut hi: usize = lines.len();
    while lo < hi
        invariant
            ls == seqs_of(lines@),
            lo <= hi <= lines@.len(),
            lo == 0 || prefix_fits(ls, lo as int, max_chars as nat),
            forall|j: int| hi < j <= lines@.len() ==> !#[trigger] prefix_fits(ls, j, max_chars as nat),
        decreases hi - lo,
    {
        let d = hi - lo;
        let mid = lo + d / 2 + d % 2;
        if prefix_fits_exec(lines, mid, max_chars) {
            lo = mid;
        } else {
            assert forall|j: int| mid <= j <= lines@.len() implies !#[trigger] prefix_fits(
                ls,
                j,
                max_chars as nat,
            ) by {
                if prefix_fits(ls, j, max_chars as nat) {
                    lemma_fits_mono(ls, mid as int, j, max_chars as nat);
                }
            }
            hi = mid - 1;
        }
    }
    proof {
        lemma_best_prefix(ls, lines@.len() as int, max_chars as nat, lo as int);
    }
    lo
}

/// The skills section for the chosen skills and a given home directory.
fn section_for_exec(act: &Vec<&SkillEntry>, home: &Option<String>, max_chars: usize) -> (r: Vec<char>)
    ensures
        r@ == section_for(act@.map_values(|s: &SkillEntry| *s), home.deep_view(), max_chars as nat),
{
    let ghost acts = act@.map_values(|s: &SkillEntry| *s);
    let ghost hv = home.deep_view();
    let mut full: Vec<Vec<char>> = Vec::new();
    let mut compact: Vec<Vec<char>> = Vec::new();
    let mut i: usize = 0;
    while i < act.len()
        invariant
            i <= act@.len(),
            acts == act@.map_values(|s: &SkillEntry| *s),
            hv == home.deep_view(),
            seqs_of(full@) == full_lines(acts, hv).take(i as int),
            seqs_of(compact@) == compact_lines(acts, hv).take(i as int),
        decreases act@.len() - i,
    {
        let f = full_line_exec(act[i], home);
        let c = compact_line_exec(act[i], home);
        let ghost f0 = seqs_of(full@);
        let ghost c0 = seqs_of(compact@);
        full.push(f);
        compact.push(c);
        assert(seqs_of(full@) =~= f0.push(full_line(acts[i as int], hv)));
        assert(seqs_of(compact@) =~= c0.push(compact_line(acts[i as int], hv)));
        assert(full_lines(acts, hv).take(i + 1) =~= full_lines(acts, hv).take(i as int).push(
            full_line(acts[i as int], hv),
        ));
        assert(compact_lines(acts, hv).take(i + 1) =~= compact_lines(acts, hv).take(i as int).push(
            compact_line(acts[i as int], hv),
        ));
        i += 1;
    }
    assert(full_lines(acts, hv).take(act@.len() as int) =~= full_lines(acts, hv));
    assert(compact_lines(acts, hv).take(act@.len() as int) =~= compact_lines(acts, hv));
    assert(seqs_of(full@).take(full@.len() as int) =~= seqs_of(full@));
    assert(seqs_of(compact@).take(compact@.len() as int) =~= seqs_of(compact@));
    let full_text = section_exec(&full, full.len());
    if blen_le(full_text.as_slice(), max_chars) {
        return full_text;
    }
    let compact_text = section_exec(&compact, compact.len());
    let n = act.len() as u64;
    if blen_le(compact_text.as_slice(), max_chars) {
        let mut out = compact_text;
        extend_str(&mut out, "\n\n\u{26a0}\u{fe0f} Skills catalog using compact format (descriptions omitted). ");
        let digits = dec_exec(n);
        extend_chars(&mut out, digits.as_slice());
        extend_str(&mut out, " skills available.");
        return out;
    }
    let k = best_prefix_exec(&compact, max_chars);
    if k > 0 {
        let mut out = section_exec(&compact, k);
        extend_str(&mut out, "\n\n\u{26a0}\u{fe0f} Skills truncated: showing ");
        let kd = dec_exec(k as u64);
        extend_chars(&mut out, kd.as_slice());
        extend_str(&mut out, " of ");
        let nd = dec_exec(n);
        extend_chars(&mut out, nd.as_slice());
        extend_str(&mut out, " (compact format, descriptions omitted).");
        out
    } else {
        chars_of(header_exec())
    }
}

/// The skills section of the system prompt for a given home directory.
///
/// A skill is listed when it is not disabled, not hidden from the model, passes
/// the bundled allowlist, and (with `env_check`) its requirements are met by its
/// entry in `facts`. At most `budget.max_count` skills are listed, in full
/// format when it fits in `budget.max_chars` bytes, else in compact format, else
/// the longest prefix of compact lines that leaves room for a truncation note.
pub fn build_skills_prompt_with_home(
    skills: &Vec<SkillEntry>,
    disabled: &Vec<String>,
    env_check: bool,
    facts: &Vec<RequirementFacts>,
    budget: &SkillPromptBudget,
    allow_bundled: &Vec<String>,
    home: &Option<String>,
) -> (r: String)
    requires
        env_check ==> facts_for(skills@, facts@),
    ensures
        r@ == skills_prompt(
            skills@,
            facts@,
            env_check,
            strs_of(disabled@),
            strs_of(allow_bundled@),
            *budget,
            home.deep_view(),
        ),
{
    let ghost all = active_skills(
        skills@,
        facts@,
        env_check,
        strs_of(disabled@),
        strs_of(allow_bundled@),
        skills@.len() as int,
    );
    let idx = active_indices(skills, disabled, env_check, facts, allow_bundled);
    if idx.len() == 0 {
        return String::new();
    }
    let n = if budget.max_count < idx.len() {
        budget.max_count
    } else {
        idx.len()
    };
    let mut act: Vec<&SkillEntry> = Vec::new();
    let mut j: usize = 0;
    while j < n
        invariant
            j <= n <= idx@.len(),
            idx@.len() == all.len(),
            forall|t: int|
                0 <= t < idx@.len() ==> #[trigger] idx@[t] < skills@.len() && skills@[idx@[t] as int]
                    == all[t],
            act@.map_values(|s: &SkillEntry| *s) == all.take(j as int),
        decreases n - j,
    {
        let s = &skills[idx[j]];
        let ghost before = act@.map_values(|s: &SkillEntry| *s);
        act.push(s);
        assert(act@.map_values(|s: &SkillEntry| *s) =~= before.push(all[j as int]));
        assert(all.take(j + 1) =~= all.take(j as int).push(all[j as int]));
        j += 1;
    }
    let text = section_for_exec(&act, home, budget.max_chars);
    string_of(text.as_slice())
}

/// The skills section of the system prompt, with paths under the user's home
/// directory written as `~/...` (see `build_skills_prompt_with_home`).
pub fn build_skills_prompt(
    skills: &Vec<SkillEntry>,
    disabled: &Vec<String>,
    env_check: bool,
    facts: &Vec<RequirementFacts>,
    budget: &SkillPromptBudget,
    allow_bundled: &Vec<String>,
) -> (r: String)
    requires
        env_check ==> facts_for(skills@, facts@),
    ensures
        exists|home: Option<Seq<char>>|
            r@ == skills_prompt(
                skills@,
                facts@,
                env_check,
                strs_of(disabled@),
                strs_of(allow_bundled@),
                *budget,
                home,
            ),
{
    let home = home_dir_text();
    build_skills_prompt_with_home(skills, disabled, env_check, facts, budget, allow_bundled, &home)
}

// ───────────────────────────── health status ─────────────────────────────

/// `st` is the health status of skill `s`: disabled, blocked by the bundled
/// allowlist, and (with `env_check`) what its requirements miss according to `f`.
pub open spec fn status_of(
    st: SkillStatusEntry,
    s: SkillEntry,
    disabled: Seq<Seq<char>>,
    env_check: bool,
    f: RequirementFacts,
    allow: Seq<Seq<char>>,
) -> bool {
    let is_disabled = disabled.contains(s.name@);
    let blocked = !allowlisted(s, allow);
    let det = if env_check {
        detail_spec(s.requires@, f)
    } else {
        (true, seq![], seq![], seq![])
    };
    &&& st.name@ == s.name@
    &&& st.source@ == s.source@
    &&& st.disabled == is_disabled
    &&& st.blocked_by_allowlist == blocked
    &&& st.eligible == (!is_disabled && !blocked && det.0)
    &&& strs_of(st.missing_bins@) == det.1
    &&& strs_of(st.missing_any_bins@) == det.2
    &&& strs_of(st.missing_env@) == det.3
    &&& strs_of(st.missing_config@) == Seq::<Seq<char>>::empty()
    &&& st.has_install == (s.install@.len() > 0)
    &&& st.always == s.requires.always
}

fn status_one(
    s: &SkillEntry,
    disabled: &Vec<String>,
    env_check: bool,
    f: &RequirementFacts,
    allow: &Vec<String>,
) -> (r: SkillStatusEntry)
    requires
        env_check ==> facts_fit(s.requires@, *f),
    ensures
        status_of(r, *s, strs_of(disabled@), env_check, *f, strs_of(allow@)),
{
    let is_disabled = vec_contains_str(disabled, s.name.as_str());
    let blocked = !allowlisted_exec(s, allow);
    let detail = if env_check {
        check_requirements_detail(&s.requires, f)
    } else {
        let d = RequirementsDetail {
            eligible: true,
            missing_bins: Vec::new(),
            missing_any_bins: Vec::new(),
            missing_env: Vec::new(),
            missing_config: Vec::new(),
        };
        assert(strs_of(d.missing_bins@) =~= Seq::<Seq<char>>::empty());
        assert(strs_of(d.missing_any_bins@) =~= Seq::<Seq<char>>::empty());
        assert(strs_of(d.missing_env@) =~= Seq::<Seq<char>>::empty());
        assert(strs_of(d.missing_config@) =~= Seq::<Seq<char>>::empty());
        d
    };
    let eligible = !is_disabled && !blocked && detail.eligible;
    SkillStatusEntry {
        name: crate::text::owned_str(s.name.as_str()),
        source: crate::text::owned_str(s.source.as_str()),
        eligible,
        disabled: is_disabled,
        blocked_by_allowlist: blocked,
        missing_bins: detail.missing_bins,
        missing_any_bins: detail.missing_any_bins,
        missing_env: detail.missing_env,
        missing_config: detail.missing_config,
        has_install: s.install.len() > 0,
        always: s.requires.always,
    }
}

/// Health status of every skill, in order.
pub fn check_all_skills_status(
    skills: &Vec<SkillEntry>,
    disabled: &Vec<String>,
    env_check: bool,
    facts: &Vec<RequirementFacts>,
    allow_bundled: &Vec<String>,
) -> (r: Vec<SkillStatusEntry>)
    requires
        env_check ==> facts_for(skills@, facts@),
    ensures
        r@.len() == skills@.len(),
        forall|i: int|
            0 <= i < skills@.len() ==> status_of(
                #[trigger] r@[i],
                skills@[i],
                strs_of(disabled@),
                env_check,
                facts@[i],
                strs_of(allow_bundled@),
            ),
{
    let mut out: Vec<SkillStatusEntry> = Vec::new();
    let mut i: usize = 0;
    while i < skills.len()
        invariant
            i <= skills@.len(),
            out@.len() == i,
            env_check ==> facts_for(skills@, facts@),
            forall|j: int|
                0 <= j < i ==> status_of(
                    #[trigger] out@[j],
                    skills@[j],
                    strs_of(disabled@),
                    env_check,
                    facts@[j],
                    strs_of(allow_bundled@),
                ),
        decreases skills@.len() - i,
    {
        let st = if env_check {
            assert(facts_fit(skills@[i as int].requires@, facts@[i as int]));
            status_one(&skills[i], disabled, env_check, &facts[i], allow_bundled)
        } else {
            let none = RequirementFacts {
                current_os: String::new(),
                bins_found: Vec::new(),
                any_bins_found: Vec::new(),
                env_configured: Vec::new(),
                api_key_configured: false,
                env_in_system: Vec::new(),
            };
            status_one(&skills[i], disabled, env_check, &none, allow_bundled)
        };
        out.push(st);
        i += 1;
    }
    out
}

// ───────────────────────────── user-invocable skills ─────────────────────────────

/// A skill users may run as a slash command: not disabled and not marked
/// `user-invocable: false`.
pub open spec fn invocable(s: SkillEntry, disabled: Seq<Seq<char>>) -> bool {
    !disabled.contains(s.name@) && s.user_invocable != Some(false)
}

/// The invocable skills of `skills`, in order.
pub open spec fn keep_invocable(skills: Seq<SkillEntry>, disabled: Seq<Seq<char>>) -> Seq<SkillEntry>
    decreases skills.len(),
{
    if skills.len() == 0 {
        seq![]
    } else {
        let rest = keep_invocable(skills.drop_last(), disabled);
        if invocable(skills.last(), disabled) {
            rest.push(skills.last())
        } else {
            rest
        }
    }
}

/// The skills to register as slash commands, from the loaded skills.
pub fn get_invocable_skills(skills: Vec<SkillEntry>, disabled: &Vec<String>) -> (r: Vec<SkillEntry>)
    ensures
        r@ == keep_invocable(skills@, strs_of(disabled@)),
{
    let ghost all = skills@;
    let ghost d = strs_of(disabled@);
    let mut rest = skills;
    let mut rev: Vec<SkillEntry> = Vec::new();
    while rest.len() > 0
        invariant
            rest@.len() + rev@.len() == all.len(),
            rest@ == all.take(rest@.len() as int),
            forall|k: int| 0 <= k < rev@.len() ==> #[trigger] rev@[k] == all[all.len() - 1 - k],
        decreases rest@.len(),
    {
        let s = rest.pop().unwrap();
        rev.push(s);
    }
    let mut out: Vec<SkillEntry> = Vec::new();
    while rev.len() > 0
        invariant
            rev@.len() <= all.len(),
            d == strs_of(disabled@),
            forall|k: int| 0 <= k < rev@.len() ==> #[trigger] rev@[k] == all[all.len() - 1 - k],
            out@ == keep_invocable(all.take(all.len() - rev@.len()), d),
        decreases rev@.len(),
    {
        let ghost c = all.len() - rev@.len();
        let s = rev.pop().unwrap();
        assert(s == all[c]);
        assert(all.take(c + 1).drop_last() =~= all.take(c));
        assert(all.take(c + 1).last() == all[c]);
        let keep = !vec_contains_str(disabled, s.name.as_str()) && match s.user_invocable {
            Some(b) => b,
            None => true,
        };
        if keep {
            out.push(s);
        }
    }
    assert(all.take(all.len() as int) =~= all);
    out
}

// ───────────────────────────── skill cache ─────────────────────────────

#[verifier::external_type_specification]
#[verifier::external_body]
pub struct ExInstant(std::time::Instant);

/// Milliseconds since `t` (`Instant::elapsed`, read as whole milliseconds).
/// It depends on the clock, so nothing is stated of it.
#[verifier::external_body]
fn millis_since(t: &std::time::Instant) -> u128 {
    t.elapsed().as_millis()
}

/// Skills loaded from disk, with the cache version and extra directories they
/// were loaded for.
pub struct SkillCache {
    pub entries: Vec<SkillEntry>,
    pub version: u64,
    pub loaded_at: std::time::Instant,
    pub extra_dirs: Vec<String>,
}

/// The version of the skill lists on disk: cached lists made at another
/// version are stale.
pub struct SkillCacheVersion {
    value: u64,
}

/// The version after a bump (wrapping, as `fetch_add` does).
pub open spec fn bumped(v: u64) -> u64 {
    if v == u64::MAX {
        0
    } else {
        (v + 1) as u64
    }
}

impl SkillCacheVersion {
    pub closed spec fn value(&self) -> u64 {
        self.value
    }

    /// Version 0.
    pub fn new() -> (r: Self)
        ensures
            r.value() == 0,
    {
        SkillCacheVersion { value: 0 }
    }

    /// Invalidates the cached skill lists.
    pub fn bump(&mut self)
        ensures
            final(self).value() == bumped(old(self).value()),
    {
        self.value = self.value.wrapping_add(1);
    }

    /// The current version.
    pub fn current(&self) -> (r: u64)
        ensures
            r == self.value(),
    {
        self.value
    }
}

/// A cache's validity given its freshness, the extra directories asked for and
/// the current version.
pub open spec fn cache_valid(c: SkillCache, fresh: bool, extra_dirs: Seq<String>, current_version: u64) -> bool {
    fresh && c.version == current_version && strs_of(c.extra_dirs@) == strs_of(extra_dirs)
}

/// A bump invalidates every cache made before it: a cache built at version `v`
/// is stale once the version has been bumped from `v`, whatever its freshness
/// and directories.
pub proof fn lemma_bump_invalidates(c: SkillCache, fresh: bool, extra_dirs: Seq<String>)
    ensures
        !cache_valid(c, fresh, extra_dirs, bumped(c.version)),
{
}

/// How long cached skills stay fresh, in milliseconds.
pub const SKILL_CACHE_TTL_MS: u128 = 30000;

impl SkillCache {
    /// Valid when fresh, loaded at `current_version`, and for the same extra directories.
    pub fn is_valid_given(&self, fresh: bool, extra_dirs: &Vec<String>, current_version: u64) -> (r: bool)
        ensures
            r == cache_valid(*self, fresh, extra_dirs@, current_version),
    {
        if !fresh || self.version != current_version || self.extra_dirs.len() != extra_dirs.len() {
            assert(self.extra_dirs@.len() != extra_dirs@.len() ==> strs_of(self.extra_dirs@).len()
                != strs_of(extra_dirs@).len());
            return false;
        }
        let mut i: usize = 0;
        while i < extra_dirs.len()
            invariant
                i <= extra_dirs@.len(),
                self.extra_dirs@.len() == extra_dirs@.len(),
                forall|j: int| 0 <= j < i ==> self.extra_dirs@[j]@ == extra_dirs@[j]@,
            decreases extra_dirs@.len() - i,
        {
            if !str_eq(self.extra_dirs[i].as_str(), extra_dirs[i].as_str()) {
                assert(strs_of(self.extra_dirs@)[i as int] != strs_of(extra_dirs@)[i as int]);
                return false;
            }
            i += 1;
        }
        assert(strs_of(self.extra_dirs@) =~= strs_of(extra_dirs@));
        true
    }

    /// Valid when loaded `elapsed_ms` milliseconds ago, that is less than
    /// `SKILL_CACHE_TTL_MS` (30 seconds), at `current_version`, for the same
    /// extra directories.
    pub fn is_valid_after(&self, elapsed_ms: u128, extra_dirs: &Vec<String>, current_version: u64) -> (r: bool)
        ensures
            r == cache_valid(*self, elapsed_ms < SKILL_CACHE_TTL_MS, extra_dirs@, current_version),
    {
        self.is_valid_given(elapsed_ms < SKILL_CACHE_TTL_MS, extra_dirs, current_version)
    }

    /// Valid when loaded less than 30 seconds ago (see `is_valid_after`, which
    /// gets the milliseconds elapsed since `loaded_at` from the clock), at
    /// `current_version`, for the same extra directories.
    pub fn is_valid(&self, extra_dirs: &Vec<String>, current_version: u64) -> (r: bool)
        ensures
            r ==> self.version == current_version && strs_of(self.extra_dirs@) == strs_of(
                extra_dirs@,
            ),
    {
        let elapsed_ms = millis_since(&self.loaded_at);
        self.is_valid_after(elapsed_ms, extra_dirs, current_version)
    }
}

// ───────────────────────────── loading ─────────────────────────────

/// A skill from a parsed SKILL.md: the frontmatter fields plus where it was found.
pub fn skill_from_parsed(parsed: crate::skills::ParsedFrontmatter, source: &str, file_path: &str, base_dir: &str) -> (r: SkillEntry)
    ensures
        r.name@ == parsed.name@,
        r.description@ == parsed.description@,
        r.source@ == source@,
        r.file_path@ == file_path@,
        r.base_dir@ == base_dir@,
        r.requires == parsed.requires,
        r.skill_key == parsed.skill_key,
        r.user_invocable == parsed.user_invocable,
        r.disable_model_invocation == parsed.disable_model_invocation,
        r.command_dispatch == parsed.command_dispatch,
        r.command_tool == parsed.command_tool,
        r.command_arg_mode == parsed.command_arg_mode,
        r.command_arg_placeholder == parsed.command_arg_placeholder,
        r.command_arg_options == parsed.command_arg_options,
        r.command_prompt_template == parsed.command_prompt_template,
        r.install == parsed.install,
        r.allowed_tools == parsed.allowed_tools,
        r.context_mode == parsed.context_mode,
{
    SkillEntry {
        name: parsed.name,
        description: parsed.description,
        source: string_of(chars_of(source).as_slice()),
        file_path: string_of(chars_of(file_path).as_slice()),
        base_dir: string_of(chars_of(base_dir).as_slice()),
        requires: parsed.requires,
        skill_key: parsed.skill_key,
        user_invocable: parsed.user_invocable,
        disable_model_invocation: parsed.disable_model_invocation,
        command_dispatch: parsed.command_dispatch,
        command_tool: parsed.command_tool,
        command_arg_mode: parsed.command_arg_mode,
        command_arg_placeholder: parsed.command_arg_placeholder,
        command_arg_options: parsed.command_arg_options,
        command_prompt_template: parsed.command_prompt_template,
        install: parsed.install,
        allowed_tools: parsed.allowed_tools,
        context_mode: parsed.context_mode,
    }
}

/// A skill from the text of its SKILL.md, given the file's size when known:
/// none when the file is larger than `max_file_bytes` or has no valid frontmatter.
pub fn load_single_skill_from(
    content: &str,
    file_len: Option<u64>,
    max_file_bytes: u64,
    source: &str,
    file_path: &str,
    base_dir: &str,
) -> (r: Option<SkillEntry>)
    requires
        crate::skills::frontmatter_ok(content@),
    ensures
        (file_len matches Some(n) && n > max_file_bytes) ==> r is None,
        !(file_len matches Some(n) && n > max_file_bytes) ==> (r is Some <==> crate::skills::frontmatter_spec(
            content@,
        ) is Some),
        match (r, crate::skills::frontmatter_spec(content@)) {
            (Some(e), Some(f)) => e.source@ == source@ && e.file_path@ == file_path@ && e.base_dir@
                == base_dir@ && e.name@ == f.name && e.description@ == f.description && e.requires@
                == f.requires,
            (Some(_), None) => false,
            _ => true,
        },
{
    match file_len {
        Some(n) => {
            if n > max_file_bytes {
                return None;
            }
        },
        None => {},
    }
    match crate::skills::parse_frontmatter(content) {
        Some(p) => Some(skill_from_parsed(p, source, file_path, base_dir)),
        None => None,
    }
}

/// The last entry named `n`, if any.
pub open spec fn last_named(es: Seq<SkillEntry>, n: Seq<char>) -> Option<SkillEntry>
    decreases es.len(),
{
    if es.len() == 0 {
        None
    } else if es.last().name@ == n {
        Some(es.last())
    } else {
        last_named(es.drop_last(), n)
    }
}

/// Names strictly increase.
pub open spec fn names_sorted(r: Seq<SkillEntry>) -> bool {
    forall|i: int, j: int| 0 <= i < j < r.len() ==> seq_lt(#[trigger] r[i].name@, #[trigger] r[j].name@)
}

/// `r` is the merge of `es`: sorted by name, one entry per name, each the last
/// entry of that name in `es` (later sources override earlier ones).
pub open spec fn merged(es: Seq<SkillEntry>, r: Seq<SkillEntry>) -> bool {
    &&& names_sorted(r)
    &&& forall|i: int| 0 <= i < r.len() ==> last_named(es, #[trigger] r[i].name@) == Some(r[i])
    &&& forall|j: int| 0 <= j < es.len() ==> exists|i: int| 0 <= i < r.len() && #[trigger] r[i].name@ == #[trigger] es[j].name@
}

proof fn lemma_last_named_push(es: Seq<SkillEntry>, x: SkillEntry, n: Seq<char>)
    ensures
        last_named(es.push(x), n) == if x.name@ == n {
            Some(x)
        } else {
            last_named(es, n)
        },
{
    assert(es.push(x).drop_last() =~= es);
}

/// Merges skills listed from the lowest- to the highest-precedence source (see `merged`).
pub fn merge_skills(entries: Vec<SkillEntry>) -> (r: Vec<SkillEntry>)
    ensures
        merged(entries@, r@),
{
    let ghost all = entries@;
    let mut rest = entries;
    let mut rev: Vec<SkillEntry> = Vec::new();
    while rest.len() > 0
        invariant
            rest@.len() + rev@.len() == all.len(),
            rest@ == all.take(rest@.len() as int),
            forall|k: int| 0 <= k < rev@.len() ==> #[trigger] rev@[k] == all[all.len() - 1 - k],
        decreases rest@.len(),
    {
        let s = rest.pop().unwrap();
        rev.push(s);
    }
    let mut out: Vec<SkillEntry> = Vec::new();
    assert(merged(all.take(0), out@));
    while rev.len() > 0
        invariant
            rev@.len() <= all.len(),
            forall|k: int| 0 <= k < rev@.len() ==> #[trigger] rev@[k] == all[all.len() - 1 - k],
            merged(all.take(all.len() - rev@.len()), out@),
        decreases rev@.len(),
    {
        let ghost c = all.len() - rev@.len();
        let ghost pre = all.take(c);
        let x = rev.pop().unwrap();
        assert(x == all[c]);
        assert(all.take(c + 1) =~= pre.push(x));
        let ghost o = out@;
        let mut k: usize = 0;
        while k < out.len() && str_lt(out[k].name.as_str(), x.name.as_str())
            invariant
                k <= out@.len(),
                o == out@,
                forall|m: int| 0 <= m < k ==> seq_lt(#[trigger] o[m].name@, x.name@),
            decreases out@.len() - k,
        {
            k += 1;
        }
        let same = k < out.len() && str_eq(out[k].name.as_str(), x.name.as_str());
        let ghost xv = x;
        if same {
            out.set(k, x);
            proof {
                let np = pre.push(xv);
                assert forall|i: int| 0 <= i < out@.len() implies last_named(np, #[trigger] out@[i].name@) == Some(out@[i]) by {
                    lemma_last_named_push(pre, xv, out@[i].name@);
                    if i != k {
                        assert(out@[i] == o[i]);
                        if o[i].name@ == xv.name@ {
                            if i < k {
                                assert(seq_lt(o[i].name@, o[k as int].name@));
                            } else {
                                assert(seq_lt(o[k as int].name@, o[i].name@));
                            }
                            crate::text::lemma_seq_lt_irrefl(xv.name@);
                        }
                    }
                }
                assert forall|j: int| 0 <= j < np.len() implies exists|i: int| 0 <= i < out@.len() && #[trigger] out@[i].name@ == #[trigger] np[j].name@ by {
                    if j < pre.len() {
                        assert(np[j] == pre[j]);
                        let i = choose|i: int| 0 <= i < o.len() && #[trigger] o[i].name@ == #[trigger] pre[j].name@;
                        assert(out@[i].name@ == o[i].name@);
                    } else {
                        assert(out@[k as int].name@ == np[j].name@);
                    }
                }
                assert(names_sorted(out@)) by {
                    assert forall|a: int, b: int| 0 <= a < b < out@.len() implies seq_lt(#[trigger] out@[a].name@, #[trigger] out@[b].name@) by {
                        assert(out@[a].name@ == o[a].name@);
                        assert(out@[b].name@ == o[b].name@);
                    }
                }
            }
        } else {
            proof {
                if k < o.len() {
                    crate::text::lemma_seq_lt_total(o[k as int].name@, xv.name@);
                }
            }
            out.insert(k, x);
            proof {
                let np = pre.push(xv);
                assert forall|m: int| 0 <= m < o.len() implies o[m].name@ != xv.name@ by {
                    if m < k {
                        crate::text::lemma_seq_lt_irrefl(xv.name@);
                    } else {
                        if m > k {
                            crate::text::lemma_seq_lt_trans(xv.name@, o[k as int].name@, o[m].name@);
                        }
                        crate::text::lemma_seq_lt_irrefl(xv.name@);
                    }
                }
                assert(names_sorted(out@)) by {
                    assert forall|a: int, b: int| 0 <= a < b < out@.len() implies seq_lt(#[trigger] out@[a].name@, #[trigger] out@[b].name@) by {
                        if b < k {
                            assert(out@[a] == o[a] && out@[b] == o[b]);
                        } else if b == k {
                            assert(out@[a] == o[a] && out@[b] == xv);
                        } else if a == k {
                            assert(out@[a] == xv && out@[b] == o[b - 1]);
                            if b - 1 > k {
                                crate::text::lemma_seq_lt_trans(xv.name@, o[k as int].name@, o[b - 1].name@);
                            }
                        } else if a < k {
                            assert(out@[a] == o[a] && out@[b] == o[b - 1]);
                        } else {
                            assert(out@[a] == o[a - 1] && out@[b] == o[b - 1]);
                        }
                    }
                }
                assert forall|i: int| 0 <= i < out@.len() implies last_named(np, #[trigger] out@[i].name@) == Some(out@[i]) by {
                    lemma_last_named_push(pre, xv, out@[i].name@);
                    if i < k {
                        assert(out@[i] == o[i]);
                    } else if i > k {
                        assert(out@[i] == o[i - 1]);
                    }
                }
                assert forall|j: int| 0 <= j < np.len() implies exists|i: int| 0 <= i < out@.len() && #[trigger] out@[i].name@ == #[trigger] np[j].name@ by {
                    if j < pre.len() {
                        assert(np[j] == pre[j]);
                        let i = choose|i: int| 0 <= i < o.len() && #[trigger] o[i].name@ == #[trigger] pre[j].name@;
                        if i < k {
                            assert(out@[i] == o[i]);
                        } else {
                            assert(out@[i + 1] == o[i]);
                        }
                    } else {
                        assert(out@[k as int] == xv);
                    }
                }
            }
        }
    }
    assert(all.take(all.len() as int) =~= all);
    out
}

// ───────────────────────────── skill details ─────────────────────────────

/// `a` is listed before `b` among a skill's files: directories first, then by name.
pub open spec fn file_before(a: FileInfo, b: FileInfo) -> bool {
    (a.is_dir && !b.is_dir) || (a.is_dir == b.is_dir && seq_lt(a.name@, b.name@))
}

/// Where `x` is inserted: before the first file it is listed before.
pub open spec fn file_ins_pos(s: Seq<FileInfo>, x: FileInfo) -> int
    decreases s.len(),
{
    if s.len() == 0 {
        0
    } else if file_before(x, s[0]) {
        0
    } else {
        1 + file_ins_pos(s.skip(1), x)
    }
}

/// A skill's files in listing order, equal ones in their first order.
pub open spec fn files_listed(s: Seq<FileInfo>) -> Seq<FileInfo>
    decreases s.len(),
{
    if s.len() == 0 {
        seq![]
    } else {
        let t = files_listed(s.drop_last());
        t.insert(file_ins_pos(t, s.last()), s.last())
    }
}

proof fn lemma_file_ins_pos(s: Seq<FileInfo>, x: FileInfo, k: int)
    requires
        0 <= k <= s.len(),
        forall|j: int| 0 <= j < k ==> !file_before(x, #[trigger] s[j]),
        k == s.len() || file_before(x, s[k]),
    ensures
        file_ins_pos(s, x) == k,
    decreases k,
{
    if k > 0 {
        assert forall|j: int| 0 <= j < k - 1 implies !file_before(x, #[trigger] s.skip(1)[j]) by {
            assert(s.skip(1)[j] == s[j + 1]);
        }
        if k < s.len() {
            assert(s.skip(1)[k - 1] == s[k]);
        }
        lemma_file_ins_pos(s.skip(1), x, k - 1);
    }
}

proof fn lemma_file_ins_pos_first(s: Seq<FileInfo>, x: FileInfo)
    ensures
        0 <= file_ins_pos(s, x) <= s.len(),
        forall|j: int| 0 <= j < file_ins_pos(s, x) ==> !file_before(x, #[trigger] s[j]),
        file_ins_pos(s, x) < s.len() ==> file_before(x, s[file_ins_pos(s, x)]),
    decreases s.len(),
{
    if s.len() > 0 && !file_before(x, s[0]) {
        lemma_file_ins_pos_first(s.skip(1), x);
        assert forall|j: int| 0 <= j < file_ins_pos(s, x) implies !file_before(x, #[trigger] s[j]) by {
            if j > 0 {
                assert(s[j] == s.skip(1)[j - 1]);
            }
        }
        if file_ins_pos(s, x) < s.len() {
            assert(s[file_ins_pos(s, x)] == s.skip(1)[file_ins_pos(s.skip(1), x)]);
        }
    }
}

proof fn lemma_file_before_order(a: FileInfo, b: FileInfo, c: FileInfo)
    ensures
        file_before(a, b) ==> !file_before(b, a),
        file_before(a, b) && file_before(b, c) ==> file_before(a, c),
{
    if file_before(a, b) && a.is_dir == b.is_dir {
        crate::text::lemma_seq_lt_asym(a.name@, b.name@);
    }
    if file_before(a, b) && file_before(b, c) && a.is_dir == b.is_dir && b.is_dir == c.is_dir {
        crate::text::lemma_seq_lt_trans(a.name@, b.name@, c.name@);
    }
}

/// A skill's files are listed directories first, then by name, and none is
/// lost or added.
pub proof fn lemma_files_listed(s: Seq<FileInfo>)
    ensures
        forall|i: int, j: int|
            0 <= i < j < files_listed(s).len() ==> !file_before(
                #[trigger] files_listed(s)[j],
                #[trigger] files_listed(s)[i],
            ),
        files_listed(s).len() == s.len(),
        files_listed(s).to_multiset() == s.to_multiset(),
    decreases s.len(),
{
    if s.len() > 0 {
        let d = s.drop_last();
        lemma_files_listed(d);
        let t = files_listed(d);
        let x = s.last();
        let p = file_ins_pos(t, x);
        lemma_file_ins_pos_first(t, x);
        let r = t.insert(p, x);
        assert forall|i: int, j: int| 0 <= i < j < r.len() implies !file_before(
            #[trigger] r[j],
            #[trigger] r[i],
        ) by {
            if j < p {
                assert(r[i] == t[i] && r[j] == t[j]);
            } else if j == p {
                assert(r[j] == x && r[i] == t[i]);
            } else if i == p {
                assert(r[i] == x && r[j] == t[j - 1]);
                if file_before(t[j - 1], x) {
                    if j - 1 == p {
                        lemma_file_before_order(x, t[p], t[p]);
                    } else {
                        assert(!file_before(t[j - 1], t[p]));
                        lemma_file_before_order(t[j - 1], x, t[p]);
                    }
                }
            } else if i < p {
                assert(r[i] == t[i] && r[j] == t[j - 1]);
            } else {
                assert(r[i] == t[i - 1] && r[j] == t[j - 1]);
            }
        }
        assert(s =~= d.push(x));
        vstd::seq_lib::to_multiset_insert(t, p, x);
        vstd::seq_lib::to_multiset_build(d, x);
        assert(files_listed(s) == r);
    } else {
        assert(s =~= Seq::<FileInfo>::empty());
        assert(files_listed(s) =~= Seq::<FileInfo>::empty());
    }
}

fn file_before_exec(a: &FileInfo, b: &FileInfo) -> (r: bool)
    ensures
        r == file_before(*a, *b),
{
    (a.is_dir && !b.is_dir) || (a.is_dir == b.is_dir && str_lt(a.name.as_str(), b.name.as_str()))
}

/// Orders a skill's files for display (see `files_listed`).
pub fn sort_skill_files(files: Vec<FileInfo>) -> (r: Vec<FileInfo>)
    ensures
        r@ == files_listed(files@),
{
    let ghost all = files@;
    let mut rest = files;
    let n = rest.len();
    let mut out: Vec<FileInfo> = Vec::new();
    let mut j: usize = 0;
    assert(all.take(0) =~= Seq::<FileInfo>::empty());
    assert(all.skip(0) =~= all);
    while rest.len() > 0
        invariant
            j + rest@.len() == all.len(),
            all.len() == n,
            rest@ == all.skip(j as int),
            out@ == files_listed(all.take(j as int)),
        decreases rest@.len(),
    {
        let x = rest.remove(0);
        assert(x == all[j as int]);
        assert(rest@ =~= all.skip(j + 1));
        let ghost cur = out@;
        let mut k: usize = 0;
        while k < out.len() && !file_before_exec(&x, &out[k])
            invariant
                k <= out@.len(),
                cur == out@,
                forall|m: int| 0 <= m < k ==> !file_before(x, #[trigger] cur[m]),
            decreases out@.len() - k,
        {
            k += 1;
        }
        proof {
            lemma_file_ins_pos(cur, x, k as int);
            assert(all.take(j + 1).drop_last() =~= all.take(j as int));
            assert(all.take(j + 1).last() == x);
        }
        out.insert(k, x);
        j += 1;
    }
    assert(all.take(j as int) =~= all);
    out
}

/// The first skill named `name`.
pub open spec fn first_named(skills: Seq<SkillEntry>, name: Seq<char>) -> Option<SkillEntry>
    decreases skills.len(),
{
    if skills.len() == 0 {
        None
    } else if skills[0].name@ == name {
        Some(skills[0])
    } else {
        first_named(skills.skip(1), name)
    }
}

/// The first skill named `name` among the loaded skills.
pub fn find_skill(skills: Vec<SkillEntry>, name: &str) -> (r: Option<SkillEntry>)
    ensures
        r == first_named(skills@, name@),
{
    let ghost all = skills@;
    let mut rest = skills;
    let n = rest.len();
    let mut j: usize = 0;
    assert(all.skip(0) =~= all);
    while rest.len() > 0
        invariant
            j + rest@.len() == all.len(),
            all.len() == n,
            all == skills@,
            rest@ == all.skip(j as int),
            first_named(all, name@) == first_named(all.skip(j as int), name@),
        decreases rest@.len(),
    {
        let x = rest.remove(0);
        assert(x == all.skip(j as int)[0]);
        assert(all.skip(j as int).skip(1) =~= all.skip(j + 1));
        if str_eq(x.name.as_str(), name) {
            return Some(x);
        }
        j += 1;
    }
    None
}

/// The detail view of a skill: its entry, the text of its SKILL.md, its files
/// (listed by `sort_skill_files`), and whether it is enabled (not in `disabled`).
pub fn skill_detail(entry: SkillEntry, content: String, files: Vec<FileInfo>, disabled: &Vec<String>) -> (r:
    SkillDetail)
    ensures
        r.name == entry.name && r.description == entry.description && r.source == entry.source,
        r.file_path == entry.file_path && r.base_dir == entry.base_dir,
        r.content == content,
        r.enabled == !strs_of(disabled@).contains(entry.name@),
        r.files@ == files_listed(files@),
        r.requires == entry.requires && r.skill_key == entry.skill_key,
        r.user_invocable == entry.user_invocable,
        r.disable_model_invocation == entry.disable_model_invocation,
        r.command_dispatch == entry.command_dispatch && r.command_tool == entry.command_tool,
        r.install == entry.install && r.allowed_tools == entry.allowed_tools,
        r.context_mode == entry.context_mode,
{
    let enabled = !vec_contains_str(disabled, entry.name.as_str());
    SkillDetail {
        name: entry.name,
        description: entry.description,
        source: entry.source,
        file_path: entry.file_path,
        base_dir: entry.base_dir,
        content,
        enabled,
        files: sort_skill_files(files),
        requires: entry.requires,
        skill_key: entry.skill_key,
        user_invocable: entry.user_invocable,
        disable_model_invocation: entry.disable_model_invocation,
        command_dispatch: entry.command_dispatch,
        command_tool: entry.command_tool,
        install: entry.install,
        allowed_tools: entry.allowed_tools,
        context_mode: entry.context_mode,
    }
}

} // verus!
