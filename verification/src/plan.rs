//! Plan mode: the states a planning session moves through, plan steps and their
//! statuses, the markdown checklist parser, which files may be written while
//! planning, and the execution-result report.
use vstd::prelude::*;
use crate::keyed::{
    find_key, lemma_find_key, lemma_find_key_unique, lemma_remove_then_get, lemma_store_then_get,
    lookup, stored, unique_keys, Keyed,
};
use crate::paths::{path_join, is_root, root_dir, join_path, PathError};
use crate::text::{
    chars_of, contains, contains_str, dec, dec_exec, extend_chars, extend_str, lines, lines_exec,
    seqs_of, slice_of, starts_with, starts_with_str, str_eq, string_of, strip_prefix,
    strip_prefix_str, trim, trim_exec,
};

verus! {

// ───────────────────────────── plan mode state ─────────────────────────────

/// Where a session is in plan mode.
#[derive(Debug, Clone, Copy, PartialEq, Eq, Structural)]
pub enum PlanModeState {
    Off,
    Planning,
    Review,
    Executing,
    Paused,
    Completed,
}

impl Default for PlanModeState {
    fn default() -> (r: Self)
        ensures
            r == PlanModeState::Off,
    {
        PlanModeState::Off
    }
}

/// The stored name of a plan mode state.
pub open spec fn mode_name(s: PlanModeState) -> Seq<char> {
    match s {
        PlanModeState::Off => "off"@,
        PlanModeState::Planning => "planning"@,
        PlanModeState::Review => "review"@,
        PlanModeState::Executing => "executing"@,
        PlanModeState::Paused => "paused"@,
        PlanModeState::Completed => "completed"@,
    }
}

/// The state a stored name denotes; anything unknown is `Off`.
pub open spec fn mode_from(s: Seq<char>) -> PlanModeState {
    if s == "planning"@ {
        PlanModeState::Planning
    } else if s == "review"@ {
        PlanModeState::Review
    } else if s == "executing"@ {
        PlanModeState::Executing
    } else if s == "paused"@ {
        PlanModeState::Paused
    } else if s == "completed"@ {
        PlanModeState::Completed
    } else {
        PlanModeState::Off
    }
}

impl PlanModeState {
    pub fn as_str(&self) -> (r: &'static str)
        ensures
            r@ == mode_name(*self),
    {
        match self {
            PlanModeState::Off => "off",
            PlanModeState::Planning => "planning",
            PlanModeState::Review => "review",
            PlanModeState::Executing => "executing",
            PlanModeState::Paused => "paused",
            PlanModeState::Completed => "completed",
        }
    }

    pub fn from_str(s: &str) -> (r: Self)
        ensures
            r == mode_from(s@),
    {
        if str_eq(s, "planning") {
            PlanModeState::Planning
        } else if str_eq(s, "review") {
            PlanModeState::Review
        } else if str_eq(s, "executing") {
            PlanModeState::Executing
        } else if str_eq(s, "paused") {
            PlanModeState::Paused
        } else if str_eq(s, "completed") {
            PlanModeState::Completed
        } else {
            PlanModeState::Off
        }
    }
}

/// Reading back the stored name of a state gives the state.
pub proof fn lemma_mode_roundtrip(s: PlanModeState)
    ensures
        mode_from(mode_name(s)) == s,
{
    reveal_strlit("off");
    reveal_strlit("planning");
    reveal_strlit("review");
    reveal_strlit("executing");
    reveal_strlit("paused");
    reveal_strlit("completed");
    assert("off"@[0] == 'o' && "planning"@[0] == 'p' && "review"@[0] == 'r' && "executing"@[0]
        == 'e' && "paused"@[0] == 'p' && "completed"@[0] == 'c');
    assert("planning"@.len() == 8 && "paused"@.len() == 6);
}

// ───────────────────────────── plan steps ─────────────────────────────

/// Progress of one plan step.
#[derive(Debug, Clone, Copy, PartialEq, Eq, Structural)]
pub enum PlanStepStatus {
    Pending,
    InProgress,
    Completed,
    Skipped,
    Failed,
}

pub open spec fn status_name(s: PlanStepStatus) -> Seq<char> {
    match s {
        PlanStepStatus::Pending => "pending"@,
        PlanStepStatus::InProgress => "in_progress"@,
        PlanStepStatus::Completed => "completed"@,
        PlanStepStatus::Skipped => "skipped"@,
        PlanStepStatus::Failed => "failed"@,
    }
}

/// The status a stored name denotes; anything unknown is `Pending`.
pub open spec fn status_from(s: Seq<char>) -> PlanStepStatus {
    if s == "in_progress"@ {
        PlanStepStatus::InProgress
    } else if s == "completed"@ {
        PlanStepStatus::Completed
    } else if s == "skipped"@ {
        PlanStepStatus::Skipped
    } else if s == "failed"@ {
        PlanStepStatus::Failed
    } else {
        PlanStepStatus::Pending
    }
}

/// Completed, skipped and failed steps are finished.
pub open spec fn terminal(s: PlanStepStatus) -> bool {
    s == PlanStepStatus::Completed || s == PlanStepStatus::Skipped || s == PlanStepStatus::Failed
}

impl PlanStepStatus {
    pub fn as_str(&self) -> (r: &'static str)
        ensures
            r@ == status_name(*self),
    {
        match self {
            PlanStepStatus::Pending => "pending",
            PlanStepStatus::InProgress => "in_progress",
            PlanStepStatus::Completed => "completed",
            PlanStepStatus::Skipped => "skipped",
            PlanStepStatus::Failed => "failed",
        }
    }

    pub fn from_str(s: &str) -> (r: Self)
        ensures
            r == status_from(s@),
    {
        if str_eq(s, "in_progress") {
            PlanStepStatus::InProgress
        } else if str_eq(s, "completed") {
            PlanStepStatus::Completed
        } else if str_eq(s, "skipped") {
            PlanStepStatus::Skipped
        } else if str_eq(s, "failed") {
            PlanStepStatus::Failed
        } else {
            PlanStepStatus::Pending
        }
    }

    pub fn is_terminal(&self) -> (r: bool)
        ensures
            r == terminal(*self),
    {
        match self {
            PlanStepStatus::Completed | PlanStepStatus::Skipped | PlanStepStatus::Failed => true,
            _ => false,
        }
    }
}

/// Reading back the stored name of a step status gives the status.
pub proof fn lemma_status_roundtrip(s: PlanStepStatus)
    ensures
        status_from(status_name(s)) == s,
{
    reveal_strlit("pending");
    reveal_strlit("in_progress");
    reveal_strlit("completed");
    reveal_strlit("skipped");
    reveal_strlit("failed");
    assert("pending"@[0] == 'p' && "in_progress"@[0] == 'i' && "completed"@[0] == 'c'
        && "skipped"@[0] == 's' && "failed"@[0] == 'f');
}

/// One step of a plan.
#[derive(Debug, Clone)]
pub struct PlanStep {
    /// Position among the plan's steps, from 0.
    pub index: usize,
    /// The `###` heading the step stands under.
    pub phase: String,
    pub title: String,
    pub description: String,
    pub status: PlanStepStatus,
    pub duration_ms: Option<u64>,
}

/// The contents of a `PlanStep`.
pub struct StepView {
    pub index: nat,
    pub phase: Seq<char>,
    pub title: Seq<char>,
    pub description: Seq<char>,
    pub status: PlanStepStatus,
    pub duration_ms: Option<u64>,
}

impl View for PlanStep {
    type V = StepView;

    open spec fn view(&self) -> StepView {
        StepView {
            index: self.index as nat,
            phase: self.phase@,
            title: self.title@,
            description: self.description@,
            status: self.status,
            duration_ms: self.duration_ms,
        }
    }
}

pub open spec fn step_views(steps: Seq<PlanStep>) -> Seq<StepView> {
    Seq::new(steps.len(), |i: int| steps[i]@)
}

/// A plan held for one session.
#[derive(Debug, Clone)]
pub struct PlanMeta {
    pub session_id: String,
    pub title: Option<String>,
    pub file_path: String,
    pub state: PlanModeState,
    pub steps: Vec<PlanStep>,
    pub created_at: String,
    pub updated_at: String,
    /// Step where execution was paused (in the `Paused` state).
    pub paused_at_step: Option<usize>,
    /// Plan version, raised on each save or edit.
    pub version: u32,
    /// Git checkpoint branch created before execution.
    pub checkpoint_ref: Option<String>,
}

/// The number of finished steps among the first `n`.
pub open spec fn finished_count(steps: Seq<PlanStep>, n: int) -> nat
    decreases n,
{
    if n <= 0 {
        0
    } else {
        finished_count(steps, n - 1) + if terminal(steps[n - 1].status) {
            1nat
        } else {
            0nat
        }
    }
}

/// The first step whose status is `st`, if any.
pub open spec fn first_with(steps: Seq<PlanStep>, st: PlanStepStatus) -> Option<nat> {
    if exists|i: int| 0 <= i < steps.len() && steps[i].status == st {
        let i = choose|i: int|
            0 <= i < steps.len() && steps[i].status == st && forall|j: int|
                0 <= j < i ==> steps[j].status != st;
        Some(i as nat)
    } else {
        None
    }
}

/// Where a paused plan resumes: the first step in progress, else the first pending one.
pub open spec fn resume_point(steps: Seq<PlanStep>) -> Option<nat> {
    match first_with(steps, PlanStepStatus::InProgress) {
        Some(i) => Some(i),
        None => first_with(steps, PlanStepStatus::Pending),
    }
}

fn first_with_exec(steps: &Vec<PlanStep>, st: PlanStepStatus) -> (r: Option<usize>)
    ensures
        match r {
            Some(i) => first_with(steps@, st) == Some(i as nat),
            None => first_with(steps@, st) is None,
        },
{
    let mut i: usize = 0;
    while i < steps.len()
        invariant
            i <= steps@.len(),
            forall|j: int| 0 <= j < i ==> steps@[j].status != st,
        decreases steps@.len() - i,
    {
        if steps[i].status == st {
            let ghost c = choose|k: int|
                0 <= k < steps@.len() && steps@[k].status == st && forall|j: int|
                    0 <= j < k ==> steps@[j].status != st;
            assert(0 <= i < steps@.len() && steps@[i as int].status == st && forall|j: int|
                0 <= j < i ==> steps@[j].status != st);
            assert(c == i) by {
                if c < i {
                } else if c > i {
                }
            }
            return Some(i);
        }
        i += 1;
    }
    None
}

impl PlanMeta {
    /// The number of finished (completed, skipped or failed) steps.
    pub fn completed_count(&self) -> (r: usize)
        ensures
            r == finished_count(self.steps@, self.steps@.len() as int),
    {
        let mut n: usize = 0;
        let mut i: usize = 0;
        while i < self.steps.len()
            invariant
                i <= self.steps@.len(),
                n == finished_count(self.steps@, i as int),
                n <= i,
            decreases self.steps@.len() - i,
        {
            if self.steps[i].status.is_terminal() {
                n += 1;
            }
            i += 1;
        }
        n
    }

    /// There are steps and all of them are finished.
    pub fn all_terminal(&self) -> (r: bool)
        ensures
            r == (self.steps@.len() > 0 && forall|i: int|
                0 <= i < self.steps@.len() ==> terminal(#[trigger] self.steps@[i].status)),
    {
        if self.steps.len() == 0 {
            return false;
        }
        let mut i: usize = 0;
        while i < self.steps.len()
            invariant
                i <= self.steps@.len(),
                forall|j: int| 0 <= j < i ==> terminal(#[trigger] self.steps@[j].status),
            decreases self.steps@.len() - i,
        {
            if !self.steps[i].status.is_terminal() {
                return false;
            }
            i += 1;
        }
        true
    }

    /// Where execution resumes after a pause (see `resume_point`).
    pub fn resume_step(&self) -> (r: Option<usize>)
        ensures
            match r {
                Some(i) => resume_point(self.steps@) == Some(i as nat),
                None => resume_point(self.steps@) is None,
            },
    {
        match first_with_exec(&self.steps, PlanStepStatus::InProgress) {
            Some(i) => Some(i),
            None => first_with_exec(&self.steps, PlanStepStatus::Pending),
        }
    }

    /// Moves the plan to `state` (other than `Off`, which drops the plan):
    /// pausing records where to resume, executing clears it, and the update
    /// time becomes `now`.
    pub fn apply_state(&mut self, state: PlanModeState, now: String)
        ensures
            final(self).state == state,
            final(self).updated_at@ == now@,
            state == PlanModeState::Paused ==> match final(self).paused_at_step {
                Some(i) => resume_point(old(self).steps@) == Some(i as nat),
                None => resume_point(old(self).steps@) is None,
            },
            state == PlanModeState::Executing ==> final(self).paused_at_step is None,
            state != PlanModeState::Paused && state != PlanModeState::Executing
                ==> final(self).paused_at_step == old(self).paused_at_step,
            final(self).steps@ == old(self).steps@,
            final(self).session_id == old(self).session_id,
            final(self).title == old(self).title,
            final(self).file_path == old(self).file_path,
            final(self).created_at == old(self).created_at,
            final(self).version == old(self).version,
            final(self).checkpoint_ref == old(self).checkpoint_ref,
    {
        if state == PlanModeState::Paused {
            self.paused_at_step = self.resume_step();
        } else if state == PlanModeState::Executing {
            self.paused_at_step = None;
        }
        self.state = state;
        self.updated_at = now;
    }

    /// A new plan for a session, with no steps, at version 1.
    pub fn new_for(session_id: String, file_path: String, state: PlanModeState, now: String) -> (r: Self)
        ensures
            r.session_id@ == session_id@,
            r.file_path@ == file_path@,
            r.state == state,
            r.steps@.len() == 0,
            r.created_at@ == now@,
            r.updated_at@ == now@,
            r.title is None,
            r.paused_at_step is None,
            r.version == 1,
            r.checkpoint_ref is None,
    {
        let updated = string_of(chars_of(now.as_str()).as_slice());
        PlanMeta {
            session_id,
            title: None,
            file_path,
            state,
            steps: Vec::new(),
            created_at: now,
            updated_at: updated,
            paused_at_step: None,
            version: 1,
            checkpoint_ref: None,
        }
    }

    /// Sets the status (and, when given, the duration) of step `index`; the
    /// update time becomes `now`. Returns whether the step exists; when it does
    /// not, nothing changes.
    pub fn set_step_status(
        &mut self,
        index: usize,
        status: PlanStepStatus,
        duration_ms: Option<u64>,
        now: String,
    ) -> (r: bool)
        ensures
            r == (index < old(self).steps@.len()),
            !r ==> *final(self) == *old(self),
            r ==> final(self).steps@.len() == old(self).steps@.len(),
            r ==> final(self).updated_at@ == now@,
            r ==> forall|j: int|
                0 <= j < old(self).steps@.len() && j != index ==> #[trigger] final(self).steps@[j]
                    == old(self).steps@[j],
            r ==> final(self).steps@[index as int].status == status,
            r ==> final(self).steps@[index as int].duration_ms == (if duration_ms is Some {
                duration_ms
            } else {
                old(self).steps@[index as int].duration_ms
            }),
            r ==> final(self).steps@[index as int].index == old(self).steps@[index as int].index,
            r ==> final(self).steps@[index as int].phase == old(self).steps@[index as int].phase,
            r ==> final(self).steps@[index as int].title == old(self).steps@[index as int].title,
            r ==> final(self).steps@[index as int].description == old(
                self,
            ).steps@[index as int].description,
            final(self).state == old(self).state,
            final(self).paused_at_step == old(self).paused_at_step,
            final(self).session_id == old(self).session_id,
            final(self).title == old(self).title,
            final(self).file_path == old(self).file_path,
            final(self).created_at == old(self).created_at,
            final(self).version == old(self).version,
            final(self).checkpoint_ref == old(self).checkpoint_ref,
    {
        if index >= self.steps.len() {
            return false;
        }
        let mut step = self.steps.remove(index);
        step.status = status;
        if duration_ms.is_some() {
            step.duration_ms = duration_ms;
        }
        self.steps.insert(index, step);
        self.updated_at = now;
        true
    }
}

/// Steps of a finished plan are all counted as finished.
pub proof fn lemma_all_terminal_count(steps: Seq<PlanStep>, n: int)
    requires
        0 <= n <= steps.len(),
        forall|i: int| 0 <= i < n ==> terminal(#[trigger] steps[i].status),
    ensures
        finished_count(steps, n) == n,
    decreases n,
{
    if n > 0 {
        lemma_all_terminal_count(steps, n - 1);
    }
}

/// At most every step is finished.
pub proof fn lemma_count_bound(steps: Seq<PlanStep>, n: int)
    requires
        0 <= n,
    ensures
        finished_count(steps, n) <= n,
    decreases n,
{
    if n > 0 {
        lemma_count_bound(steps, n - 1);
    }
}

// ───────────────────────────── markdown checklist ─────────────────────────────

/// `str::trim_start_matches` with a string pattern: every leading copy of `p` removed.
pub open spec fn trim_start_matches(s: Seq<char>, p: Seq<char>) -> Seq<char>
    decreases s.len(),
{
    if p.len() > 0 && starts_with(s, p) {
        trim_start_matches(s.skip(p.len() as int), p)
    } else {
        s
    }
}

/// A checklist line `- [ ] text` or `- [x] text` (`X` too): whether it is
/// checked, and its text.
pub open spec fn checklist_item(t: Seq<char>) -> Option<(bool, Seq<char>)> {
    match strip_prefix(t, "- ["@) {
        Some(rest) => match strip_prefix(rest, "x] "@) {
            Some(x) => Some((true, x)),
            None => match strip_prefix(rest, "X] "@) {
                Some(x) => Some((true, x)),
                None => match strip_prefix(rest, " ] "@) {
                    Some(x) => Some((false, x)),
                    None => None,
                },
            },
        },
        None => None,
    }
}

/// Checklist lines: `- [ ] x` is an open item with text `x`, `- [x] x` and
/// `- [X] x` are done items with text `x`, and a line that does not begin
/// with `- [` followed by ` ] `, `x] ` or `X] ` is no item.
pub proof fn lemma_checklist_lines(x: Seq<char>, t: Seq<char>)
    ensures
        checklist_item(seq!['-', ' ', '[', ' ', ']', ' '] + x) == Some((false, x)),
        checklist_item(seq!['-', ' ', '[', 'x', ']', ' '] + x) == Some((true, x)),
        checklist_item(seq!['-', ' ', '[', 'X', ']', ' '] + x) == Some((true, x)),
        !(t.len() >= 6 && t[0] == '-' && t[1] == ' ' && t[2] == '[' && (t[3] == ' ' || t[3] == 'x'
            || t[3] == 'X') && t[4] == ']' && t[5] == ' ') ==> checklist_item(t) is None,
{
    reveal_strlit("- [");
    reveal_strlit("x] ");
    reveal_strlit("X] ");
    reveal_strlit(" ] ");
    let o = seq!['-', ' ', '[', ' ', ']', ' '] + x;
    let c = seq!['-', ' ', '[', 'x', ']', ' '] + x;
    let cu = seq!['-', ' ', '[', 'X', ']', ' '] + x;
    assert(o.take(3) =~= "- ["@);
    assert(o.skip(3).take(3) =~= " ] "@);
    assert(o.skip(3).skip(3) =~= x);
    assert(o.skip(3).take(3)[0] == ' ' && "x] "@[0] == 'x' && "X] "@[0] == 'X');
    assert(o.skip(3).take(3) != "x] "@);
    assert(o.skip(3).take(3) != "X] "@);
    assert(c.take(3) =~= "- ["@);
    assert(c.skip(3).take(3) =~= "x] "@);
    assert(c.skip(3).skip(3) =~= x);
    assert(cu.take(3) =~= "- ["@);
    assert(cu.skip(3).take(3) =~= "X] "@);
    assert(cu.skip(3).skip(3) =~= x);
    assert(cu.skip(3).take(3)[0] == 'X');
    assert(cu.skip(3).take(3) != "x] "@);
    if checklist_item(t) is Some {
        assert(t.take(3) == "- ["@);
        assert(t[0] == t.take(3)[0] && t[1] == t.take(3)[1] && t[2] == t.take(3)[2]);
        let r = t.skip(3);
        assert(r.take(3) == "x] "@ || r.take(3) == "X] "@ || r.take(3) == " ] "@);
        assert(t[3] == r.take(3)[0] && t[4] == r.take(3)[1] && t[5] == r.take(3)[2]);
    }
}

/// A heading `### x`, where `x` does not itself begin with `### `, names the
/// phase `x`.
pub proof fn lemma_heading_text(x: Seq<char>)
    requires
        !starts_with(x, seq!['#', '#', '#', ' ']),
    ensures
        trim_start_matches(seq!['#', '#', '#', ' '] + x, "### "@) == x,
{
    reveal_strlit("### ");
    let h = seq!['#', '#', '#', ' '] + x;
    assert("### "@ =~= seq!['#', '#', '#', ' ']);
    assert(h.take(4) =~= "### "@);
    assert(h.skip(4) =~= x);
    reveal_with_fuel(trim_start_matches, 2);
}

/// The current phase and the steps found in the given lines.
pub open spec fn plan_fold(ls: Seq<Seq<char>>) -> (Seq<char>, Seq<StepView>)
    decreases ls.len(),
{
    if ls.len() == 0 {
        (seq![], seq![])
    } else {
        let prev = plan_fold(ls.drop_last());
        let t = trim(ls.last());
        if starts_with(t, "### "@) {
            (trim_start_matches(t, "### "@), prev.1)
        } else {
            match checklist_item(t) {
                Some(item) => (
                    prev.0,
                    prev.1.push(
                        StepView {
                            index: prev.1.len(),
                            phase: prev.0,
                            title: item.1,
                            description: seq![],
                            status: if item.0 {
                                PlanStepStatus::Completed
                            } else {
                                PlanStepStatus::Pending
                            },
                            duration_ms: None,
                        },
                    ),
                ),
                None => prev,
            }
        }
    }
}

/// The text of the latest line that is a `### ` heading once trimmed, with
/// the leading `### ` removed; empty when no line is a heading.
pub open spec fn latest_heading(ls: Seq<Seq<char>>) -> Seq<char>
    decreases ls.len(),
{
    if ls.len() == 0 {
        seq![]
    } else if starts_with(trim(ls.last()), "### "@) {
        trim_start_matches(trim(ls.last()), "### "@)
    } else {
        latest_heading(ls.drop_last())
    }
}

/// A line that is neither a heading nor a checklist item.
pub open spec fn plain_plan_line(x: Seq<char>) -> bool {
    !starts_with(trim(x), "### "@) && checklist_item(trim(x)) is None
}

/// The current phase after any lines is the latest heading among them: lines
/// that are neither headings nor checklist items, blank lines included, never
/// change it, nor the steps found so far.
pub proof fn lemma_phase_is_latest_heading(ls: Seq<Seq<char>>, x: Seq<char>)
    ensures
        plan_fold(ls).0 == latest_heading(ls),
        plain_plan_line(x) ==> plan_fold(ls.push(x)) == plan_fold(ls),
    decreases ls.len(),
{
    if ls.len() > 0 {
        lemma_phase_is_latest_heading(ls.drop_last(), x);
    }
    assert(ls.push(x).drop_last() =~= ls);
}

/// Step `st`, found `k`-th, comes from line `j` of `ls`: that line is a
/// checklist item (not a heading) whose text and checked state it carries,
/// its index is `k`, it has no description or duration, and its phase is the
/// latest heading above line `j`.
pub open spec fn step_from_line(st: StepView, k: int, ls: Seq<Seq<char>>, j: int) -> bool {
    &&& 0 <= j < ls.len()
    &&& !starts_with(trim(ls[j]), "### "@)
    &&& match checklist_item(trim(ls[j])) {
        Some(item) => {
            &&& st.index == k
            &&& st.title == item.1
            &&& st.phase == latest_heading(ls.take(j))
            &&& st.status == (if item.0 {
                PlanStepStatus::Completed
            } else {
                PlanStepStatus::Pending
            })
            &&& st.description.len() == 0
            &&& st.duration_ms is None
        },
        None => false,
    }
}

proof fn lemma_step_origin(ls: Seq<Seq<char>>, k: int) -> (j: int)
    requires
        0 <= k < plan_fold(ls).1.len(),
    ensures
        step_from_line(plan_fold(ls).1[k], k, ls, j),
    decreases ls.len(),
{
    let p = ls.drop_last();
    lemma_phase_is_latest_heading(p, ls.last());
    assert(ls.take(p.len() as int) =~= p);
    if k < plan_fold(p).1.len() {
        let j = lemma_step_origin(p, k);
        assert(plan_fold(ls).1[k] == plan_fold(p).1[k]);
        assert(ls[j] == p[j]);
        assert(ls.take(j) =~= p.take(j));
        j
    } else {
        let j = p.len() as int;
        assert(ls[j] == ls.last());
        j
    }
}

/// Every step comes from a checklist line (see `step_from_line`): step `k`
/// has index `k`, that line's text and checked state, and as its phase the
/// latest heading above that line (empty when there is none).
pub proof fn lemma_steps_from_checklist_lines(ls: Seq<Seq<char>>, k: int)
    requires
        0 <= k < plan_fold(ls).1.len(),
    ensures
        exists|j: int| step_from_line(plan_fold(ls).1[k], k, ls, j),
{
    let j = lemma_step_origin(ls, k);
}

/// The steps of a markdown plan: each `- [ ]` / `- [x]` line (after trimming)
/// under the latest `### ` heading.
pub open spec fn plan_steps_of(md: Seq<char>) -> Seq<StepView> {
    plan_fold(lines(md)).1
}

pub fn trim_start_matches_exec(s: &[char], p: &str) -> (r: Vec<char>)
    ensures
        r@ == trim_start_matches(s@, p@),
{
    let pv = chars_of(p);
    let mut cur: Vec<char> = slice_of(s, 0, s.len());
    assert(s@.subrange(0, s@.len() as int) =~= s@);
    while pv.len() > 0 && starts_with_str(cur.as_slice(), p)
        invariant
            pv@ == p@,
            trim_start_matches(cur@, p@) == trim_start_matches(s@, p@),
        decreases cur@.len(),
    {
        let next = slice_of(cur.as_slice(), pv.len(), cur.len());
        assert(next@ =~= cur@.skip(p@.len() as int));
        cur = next;
    }
    cur
}

/// Parsed steps are numbered 0, 1, 2, ... in order, and each starts pending or completed.
pub proof fn lemma_plan_steps_numbered(ls: Seq<Seq<char>>)
    ensures
        forall|i: int|
            0 <= i < plan_fold(ls).1.len() ==> (#[trigger] plan_fold(ls).1[i]).index == i && (
            plan_fold(ls).1[i].status == PlanStepStatus::Pending || plan_fold(ls).1[i].status
                == PlanStepStatus::Completed),
    decreases ls.len(),
{
    if ls.len() > 0 {
        lemma_plan_steps_numbered(ls.drop_last());
        let prev = plan_fold(ls.drop_last()).1;
        let cur = plan_fold(ls).1;
        assert forall|i: int| 0 <= i < cur.len() implies (#[trigger] cur[i]).index == i && (cur[i].status
            == PlanStepStatus::Pending || cur[i].status == PlanStepStatus::Completed) by {
            if i < prev.len() {
                assert(cur[i] == prev[i]);
            }
        }
    }
}

/// Parses a markdown plan into steps (see `plan_steps_of`).
pub fn parse_plan_steps(markdown: &str) -> (r: Vec<PlanStep>)
    ensures
        step_views(r@) == plan_steps_of(markdown@),
{
    let text = chars_of(markdown);
    let ls = lines_exec(text.as_slice());
    let ghost all = seqs_of(ls@);
    let mut steps: Vec<PlanStep> = Vec::new();
    let mut phase: Vec<char> = Vec::new();
    let mut i: usize = 0;
    assert(all.take(0) =~= Seq::<Seq<char>>::empty());
    assert(step_views(steps@) =~= Seq::<StepView>::empty());
    while i < ls.len()
        invariant
            i <= ls@.len(),
            all == seqs_of(ls@),
            all == lines(markdown@),
            plan_fold(all.take(i as int)) == (phase@, step_views(steps@)),
        decreases ls@.len() - i,
    {
        assert(all.take(i + 1).drop_last() =~= all.take(i as int));
        assert(all.take(i + 1).last() == ls@[i as int]@);
        let t = trim_exec(ls[i].as_slice());
        if starts_with_str(t.as_slice(), "### ") {
            phase = trim_start_matches_exec(t.as_slice(), "### ");
        } else {
            match strip_prefix_str(t.as_slice(), "- [") {
                Some(rest) => {
                    let mut item: Option<(bool, Vec<char>)> = None;
                    match strip_prefix_str(rest.as_slice(), "x] ") {
                        Some(x) => {
                            item = Some((true, x));
                        },
                        None => match strip_prefix_str(rest.as_slice(), "X] ") {
                            Some(x) => {
                                item = Some((true, x));
                            },
                            None => match strip_prefix_str(rest.as_slice(), " ] ") {
                                Some(x) => {
                                    item = Some((false, x));
                                },
                                None => {},
                            },
                        },
                    }
                    assert(match item {
                        Some(it) => checklist_item(t@) == Some((it.0, it.1@)),
                        None => checklist_item(t@) is None,
                    });
                    if let Some(it) = item {
                        let status = if it.0 {
                            PlanStepStatus::Completed
                        } else {
                            PlanStepStatus::Pending
                        };
                        let ghost before = step_views(steps@);
                        let step = PlanStep {
                            index: steps.len(),
                            phase: string_of(phase.as_slice()),
                            title: string_of(it.1.as_slice()),
                            description: String::new(),
                            status,
                            duration_ms: None,
                        };
                        steps.push(step);
                        assert(step_views(steps@) =~= before.push(step_views(steps@).last()));
                    }
                },
                None => {},
            }
        }
        i += 1;
    }
    assert(all.take(ls@.len() as int) =~= all);
    steps
}

// ───────────────────────────── writes allowed while planning ─────────────────────────────

/// The extension of a path as `Path::extension` computes it (the file name's
/// text after its last dot, when that dot does not start the name).
pub uninterp spec fn file_extension(path: Seq<char>) -> Option<Seq<char>>;

/// The text after the last `/` (all of it when there is none).
pub open spec fn last_segment(p: Seq<char>) -> Seq<char>
    decreases p.len(),
{
    if p.len() == 0 {
        p
    } else if p.last() == '/' {
        Seq::empty()
    } else {
        last_segment(p.drop_last()).push(p.last())
    }
}

/// The text after the last `.`, if there is one.
pub open spec fn after_last_dot(name: Seq<char>) -> Option<Seq<char>>
    decreases name.len(),
{
    if name.len() == 0 {
        None
    } else if name.last() == '.' {
        Some(Seq::empty())
    } else {
        match after_last_dot(name.drop_last()) {
            Some(t) => Some(t.push(name.last())),
            None => None,
        }
    }
}

/// The extension of a file name: the text after its last dot, unless there
/// is no dot or the only dot starts the name.
pub open spec fn name_extension(name: Seq<char>) -> Option<Seq<char>> {
    match after_last_dot(name) {
        Some(t) => if t.len() + 1 == name.len() {
            None
        } else {
            Some(t)
        },
        None => None,
    }
}

/// A path that every platform splits the same way at `/` and whose file name
/// is its last segment: no `\` or `:`, no leading `//`, and a last segment
/// that is neither empty nor `.` nor `..`.
pub open spec fn plain_path(p: Seq<char>) -> bool {
    let l = last_segment(p);
    &&& !crate::text::has_char(p, '\\')
    &&& !crate::text::has_char(p, ':')
    &&& !(p.len() >= 2 && p[0] == '/' && p[1] == '/')
    &&& l.len() > 0
    &&& l != "."@
    &&& l != ".."@
}

/// `Path::new(path).extension()`, read as text: the result is named by
/// `file_extension`. For a plain path the file name is its last segment, and
/// the result follows the documented rule (`name_extension`); how other
/// paths (prefixes, trailing `.` or `..`, backslashes) are split is left to
/// the name.
#[verifier::external_body]
fn extension_of(path: &str) -> (r: Option<String>)
    ensures
        r.deep_view() == file_extension(path@),
        plain_path(path@) ==> r.deep_view() == name_extension(last_segment(path@)),
{
    match std::path::Path::new(path).extension() {
        Some(e) => Some(e.to_string_lossy().into_owned()),
        None => None,
    }
}

/// Backslashes written as slashes.
pub open spec fn with_slashes(s: Seq<char>) -> Seq<char> {
    Seq::new(s.len(), |i: int| if s[i] == '\\' { '/' } else { s[i] })
}

/// A path may be written while planning: a `.md` file under a `.opencomputer/plans/`
/// directory, or under the plans directory `plans` when it is known.
pub open spec fn plan_path_allowed(
    ext: Option<Seq<char>>,
    path: Seq<char>,
    plans: Option<Seq<char>>,
) -> bool {
    let p = with_slashes(path);
    &&& ext == Some("md"@)
    &&& (contains(p, ".opencomputer/plans/"@) || contains(p, ".opencomputer\\plans\\"@) || (
    plans matches Some(d) && starts_with(p, with_slashes(d))))
}

fn with_slashes_exec(s: &[char]) -> (r: Vec<char>)
    ensures
        r@ == with_slashes(s@),
{
    let mut out: Vec<char> = Vec::new();
    let mut i: usize = 0;
    while i < s.len()
        invariant
            i <= s@.len(),
            out@ == with_slashes(s@).take(i as int),
        decreases s@.len() - i,
    {
        let c = if s[i] == '\\' {
            '/'
        } else {
            s[i]
        };
        out.push(c);
        assert(out@ =~= with_slashes(s@).take(i + 1));
        i += 1;
    }
    assert(with_slashes(s@).take(s@.len() as int) =~= with_slashes(s@));
    out
}

/// Whether a write to `file_path` is allowed while planning, given its
/// extension and the plans directory.
pub fn plan_path_allowed_given(ext: &Option<String>, file_path: &str, plans: &Option<String>) -> (r:
    bool)
    ensures
        r == plan_path_allowed(ext.deep_view(), file_path@, plans.deep_view()),
{
    let is_md = match ext {
        Some(e) => str_eq(e.as_str(), "md"),
        None => false,
    };
    if !is_md {
        return false;
    }
    let p = with_slashes_exec(chars_of(file_path).as_slice());
    if contains_str(p.as_slice(), ".opencomputer/plans/") || contains_str(
        p.as_slice(),
        ".opencomputer\\plans\\",
    ) {
        return true;
    }
    match plans {
        Some(d) => {
            let dn = with_slashes_exec(chars_of(d.as_str()).as_slice());
            crate::text::starts_with_exec(p.as_slice(), dn.as_slice())
        },
        None => false,
    }
}

/// Whether a write to `file_path` is allowed while planning (see `plan_path_allowed`;
/// the plans directory is `~/.opencomputer/plans` when the home directory is known).
pub fn is_plan_mode_path_allowed(file_path: &str) -> (r: bool)
    ensures
        exists|plans: Option<Seq<char>>|
            r == plan_path_allowed(file_extension(file_path@), file_path@, plans),
        plain_path(file_path@) ==> exists|plans: Option<Seq<char>>|
            r == plan_path_allowed(name_extension(last_segment(file_path@)), file_path@, plans),
{
    let ext = extension_of(file_path);
    let plans = match crate::paths::plans_dir() {
        Ok(d) => Some(d),
        Err(_) => None,
    };
    plan_path_allowed_given(&ext, file_path, &plans)
}

// ───────────────────────────── questions during planning ─────────────────────────────

/// One choice offered to the user.
#[derive(Debug, Clone)]
pub struct PlanQuestionOption {
    pub value: String,
    pub label: String,
    pub description: Option<String>,
    /// Whether this option is suggested as the default.
    pub recommended: bool,
}

/// A question the model asks the user while planning.
#[derive(Debug, Clone)]
pub struct PlanQuestion {
    pub question_id: String,
    pub text: String,
    pub options: Vec<PlanQuestionOption>,
    /// Whether a free-form answer is accepted (default true).
    pub allow_custom: bool,
    pub multi_select: bool,
    /// Category (such as `scope` or `tech_choice`) that styles the question.
    pub template: Option<String>,
}

/// Questions sent together.
#[derive(Debug, Clone)]
pub struct PlanQuestionGroup {
    pub request_id: String,
    pub session_id: String,
    pub questions: Vec<PlanQuestion>,
    pub context: Option<String>,
}

/// The user's answer to one question.
#[derive(Debug, Clone)]
pub struct PlanQuestionAnswer {
    pub question_id: String,
    pub selected: Vec<String>,
    pub custom_input: Option<String>,
}

/// A stored version of a plan file.
#[derive(Debug, Clone)]
pub struct PlanVersionInfo {
    pub version: u32,
    pub file_path: String,
    pub modified_at: String,
    pub is_current: bool,
}

// ───────────────────────────── execution report ─────────────────────────────

/// The marker shown before a step in the report.
pub open spec fn status_icon(s: PlanStepStatus) -> Seq<char> {
    match s {
        PlanStepStatus::Completed => "\u{2705}"@,
        PlanStepStatus::Failed => "\u{274c}"@,
        PlanStepStatus::Skipped => "\u{23ed}\u{fe0f}"@,
        PlanStepStatus::InProgress => "\u{1f504}"@,
        PlanStepStatus::Pending => "\u{2b55}"@,
    }
}

fn status_icon_exec(s: PlanStepStatus) -> (r: &'static str)
    ensures
        r@ == status_icon(s),
{
    match s {
        PlanStepStatus::Completed => "\u{2705}",
        PlanStepStatus::Failed => "\u{274c}",
        PlanStepStatus::Skipped => "\u{23ed}\u{fe0f}",
        PlanStepStatus::InProgress => "\u{1f504}",
        PlanStepStatus::Pending => "\u{2b55}",
    }
}

/// ` (Nms)` when a duration is known.
pub open spec fn duration_text(d: Option<u64>) -> Seq<char> {
    match d {
        Some(ms) => " ("@ + dec(ms as nat) + "ms)"@,
        None => seq![],
    }
}

/// The report lines for the first `n` steps, and the phase heading last written.
pub open spec fn report_steps(steps: Seq<PlanStep>, n: int) -> (Seq<char>, Seq<char>)
    decreases n,
{
    if n <= 0 {
        (seq![], seq![])
    } else {
        let (text, phase) = report_steps(steps, n - 1);
        let st = steps[n - 1];
        let (text2, phase2) = if st.phase@ != phase {
            (text + "### "@ + st.phase@ + "\n\n"@, st.phase@)
        } else {
            (text, phase)
        };
        (
            text2 + "- "@ + status_icon(st.status) + " "@ + st.title@ + duration_text(st.duration_ms)
                + "\n"@,
            phase2,
        )
    }
}

/// The number of steps among the first `n` with status `st`.
pub open spec fn count_status(steps: Seq<PlanStep>, st: PlanStepStatus, n: int) -> nat
    decreases n,
{
    if n <= 0 {
        0
    } else {
        count_status(steps, st, n - 1) + if steps[n - 1].status == st {
            1nat
        } else {
            0nat
        }
    }
}

/// The execution report of a plan: title, time, each step under its phase with a
/// status marker and duration, the counts, and the summary when there is one.
pub open spec fn result_report(
    title: Seq<char>,
    time: Seq<char>,
    steps: Seq<PlanStep>,
    summary: Seq<char>,
) -> Seq<char> {
    let n = steps.len() as int;
    "# \u{6267}\u{884c}\u{7ed3}\u{679c}: "@ + title + "\n\n"@ + "> \u{6267}\u{884c}\u{65f6}\u{95f4}: "@ + time
        + "\n\n"@ + "## \u{6b65}\u{9aa4}\u{6267}\u{884c}\u{60c5}\u{51b5}\n\n"@ + report_steps(steps, n).0
        + "\n## \u{7edf}\u{8ba1}\n\n- \u{5b8c}\u{6210}: "@ + dec(count_status(steps, PlanStepStatus::Completed, n))
        + "\n- \u{5931}\u{8d25}: "@ + dec(count_status(steps, PlanStepStatus::Failed, n)) + "\n- \u{8df3}\u{8fc7}: "@
        + dec(count_status(steps, PlanStepStatus::Skipped, n)) + "\n- \u{603b}\u{8ba1}: "@ + dec(n as nat) + "\n"@
        + if summary.len() > 0 {
        "\n## \u{603b}\u{7ed3}\n\n"@ + summary + "\n"@
    } else {
        seq![]
    }
}

fn push_count(out: &mut Vec<char>, label: &str, n: usize)
    ensures
        final(out)@ == old(out)@ + label@ + dec(n as nat),
{
    extend_str(out, label);
    let d = dec_exec(n as u64);
    extend_chars(out, d.as_slice());
}

/// The markdown execution report (see `result_report`); `time` is the
/// formatted execution time.
pub fn result_markdown(title: &str, time: &str, steps: &Vec<PlanStep>, summary: &str) -> (r: String)
    ensures
        r@ == result_report(title@, time@, steps@, summary@),
{
    let mut out: Vec<char> = Vec::new();
    extend_str(&mut out, "# \u{6267}\u{884c}\u{7ed3}\u{679c}: ");
    extend_str(&mut out, title);
    extend_str(&mut out, "\n\n");
    extend_str(&mut out, "> \u{6267}\u{884c}\u{65f6}\u{95f4}: ");
    extend_str(&mut out, time);
    extend_str(&mut out, "\n\n");
    extend_str(&mut out, "## \u{6b65}\u{9aa4}\u{6267}\u{884c}\u{60c5}\u{51b5}\n\n");
    let ghost head = out@;
    let mut body: Vec<char> = Vec::new();
    let mut phase: Vec<char> = Vec::new();
    let mut completed: usize = 0;
    let mut failed: usize = 0;
    let mut skipped: usize = 0;
    let mut i: usize = 0;
    while i < steps.len()
        invariant
            i <= steps@.len(),
            report_steps(steps@, i as int) == (body@, phase@),
            completed == count_status(steps@, PlanStepStatus::Completed, i as int),
            failed == count_status(steps@, PlanStepStatus::Failed, i as int),
            skipped == count_status(steps@, PlanStepStatus::Skipped, i as int),
            completed <= i && failed <= i && skipped <= i,
        decreases steps@.len() - i,
    {
        let st = &steps[i];
        if !crate::text::eq_str(phase.as_slice(), st.phase.as_str()) {
            phase = chars_of(st.phase.as_str());
            extend_str(&mut body, "### ");
            extend_str(&mut body, st.phase.as_str());
            extend_str(&mut body, "\n\n");
        }
        extend_str(&mut body, "- ");
        extend_str(&mut body, status_icon_exec(st.status));
        extend_str(&mut body, " ");
        extend_str(&mut body, st.title.as_str());
        match st.duration_ms {
            Some(ms) => {
                extend_str(&mut body, " (");
                let d = dec_exec(ms);
                extend_chars(&mut body, d.as_slice());
                extend_str(&mut body, "ms)");
            },
            None => {},
        }
        extend_str(&mut body, "\n");
        match st.status {
            PlanStepStatus::Completed => {
                completed += 1;
            },
            PlanStepStatus::Failed => {
                failed += 1;
            },
            PlanStepStatus::Skipped => {
                skipped += 1;
            },
            _ => {},
        }
        i += 1;
    }
    assert(report_steps(steps@, steps@.len() as int).0 == body@);
    extend_chars(&mut out, body.as_slice());
    push_count(&mut out, "\n## \u{7edf}\u{8ba1}\n\n- \u{5b8c}\u{6210}: ", completed);
    push_count(&mut out, "\n- \u{5931}\u{8d25}: ", failed);
    push_count(&mut out, "\n- \u{8df3}\u{8fc7}: ", skipped);
    push_count(&mut out, "\n- \u{603b}\u{8ba1}: ", steps.len());
    extend_str(&mut out, "\n");
    let sc = chars_of(summary);
    if sc.len() > 0 {
        extend_str(&mut out, "\n## \u{603b}\u{7ed3}\n\n");
        extend_str(&mut out, summary);
        extend_str(&mut out, "\n");
    }
    assert(out@ =~= result_report(title@, time@, steps@, summary@));
    string_of(out.as_slice())
}

// ───────────────────────────── plan files ─────────────────────────────

/// The first eight bytes' worth of a session id, as used in file and branch names.
pub open spec fn short_id(session_id: Seq<char>) -> Seq<char> {
    session_id.take(crate::text::fit_len(session_id, 8) as int)
}

/// `plan-{short id}-{stamp}.md`.
pub open spec fn plan_file_name_of(session_id: Seq<char>, stamp: Seq<char>) -> Seq<char> {
    "plan-"@ + short_id(session_id) + "-"@ + stamp + ".md"@
}

/// `result-{short id}-{stamp}.md`.
pub open spec fn result_file_name_of(session_id: Seq<char>, stamp: Seq<char>) -> Seq<char> {
    "result-"@ + short_id(session_id) + "-"@ + stamp + ".md"@
}

/// `opencomputer/checkpoint-{short id}-{stamp}`.
pub open spec fn checkpoint_branch_of(session_id: Seq<char>, stamp: Seq<char>) -> Seq<char> {
    "opencomputer/checkpoint-"@ + short_id(session_id) + "-"@ + stamp
}

fn short_id_then(prefix: &str, session_id: &str, stamp: &str, suffix: &str) -> (r: String)
    ensures
        r@ == prefix@ + short_id(session_id@) + "-"@ + stamp@ + suffix@,
{
    let short = crate::text::truncate_utf8(session_id, 8);
    let mut v = chars_of(prefix);
    extend_str(&mut v, short.as_str());
    extend_str(&mut v, "-");
    extend_str(&mut v, stamp);
    extend_str(&mut v, suffix);
    string_of(v.as_slice())
}

/// The name of a new plan file for a session, `stamp` being the local time
/// as `%Y%m%d-%H%M%S`.
pub fn plan_file_name(session_id: &str, stamp: &str) -> (r: String)
    ensures
        r@ == plan_file_name_of(session_id@, stamp@),
{
    short_id_then("plan-", session_id, stamp, ".md")
}

/// The name of an execution-result file, `stamp` as for `plan_file_name`.
pub fn result_file_name(session_id: &str, stamp: &str) -> (r: String)
    ensures
        r@ == result_file_name_of(session_id@, stamp@),
{
    short_id_then("result-", session_id, stamp, ".md")
}

/// The git branch that marks the state before a plan runs, `stamp` being the
/// local time as `%Y%m%d%H%M%S`.
pub fn checkpoint_branch_name(session_id: &str, stamp: &str) -> (r: String)
    ensures
        r@ == checkpoint_branch_of(session_id@, stamp@),
{
    let r = short_id_then("opencomputer/checkpoint-", session_id, stamp, "");
    proof {
        reveal_strlit("");
    }
    assert(r@ =~= checkpoint_branch_of(session_id@, stamp@));
    r
}

/// `{stem}-v{version}.md`: the copy of version `version` kept when a plan is saved again.
pub open spec fn backup_file_name_of(stem: Seq<char>, version: u32) -> Seq<char> {
    stem + "-v"@ + dec(version as nat) + ".md"@
}

/// The name of the copy of version `version` of the plan file with stem `stem`.
pub fn backup_file_name(stem: &str, version: u32) -> (r: String)
    ensures
        r@ == backup_file_name_of(stem@, version),
{
    let mut v = chars_of(stem);
    extend_str(&mut v, "-v");
    let d = dec_exec(version as u64);
    extend_chars(&mut v, d.as_slice());
    extend_str(&mut v, ".md");
    string_of(v.as_slice())
}

/// `str::trim_end_matches` with a string pattern: every trailing copy of `p` removed.
pub open spec fn trim_end_matches(s: Seq<char>, p: Seq<char>) -> Seq<char>
    decreases s.len(),
{
    if p.len() > 0 && crate::text::ends_with(s, p) {
        trim_end_matches(s.take(s.len() - p.len()), p)
    } else {
        s
    }
}

pub fn trim_end_matches_exec(s: &[char], p: &str) -> (r: Vec<char>)
    ensures
        r@ == trim_end_matches(s@, p@),
{
    let pv = chars_of(p);
    let mut cur: Vec<char> = slice_of(s, 0, s.len());
    assert(s@.subrange(0, s@.len() as int) =~= s@);
    while pv.len() > 0 && crate::text::ends_with_str(cur.as_slice(), p)
        invariant
            pv@ == p@,
            trim_end_matches(cur@, p@) == trim_end_matches(s@, p@),
        decreases cur@.len(),
    {
        let next = slice_of(cur.as_slice(), 0, cur.len() - pv.len());
        assert(next@ =~= cur@.take(cur@.len() - p@.len()));
        cur = next;
    }
    cur
}

/// A decimal digit.
pub open spec fn is_digit(c: char) -> bool {
    '0' <= c && c <= '9'
}

/// The value of a run of decimal digits.
pub open spec fn digits_value(s: Seq<char>) -> nat
    decreases s.len(),
{
    if s.len() == 0 {
        0
    } else {
        digits_value(s.drop_last()) * 10 + ((s.last() as u32) - ('0' as u32)) as nat
    }
}

/// `s` without one leading `+`.
pub open spec fn unsigned_part(s: Seq<char>) -> Seq<char> {
    if s.len() > 0 && s[0] == '+' {
        s.skip(1)
    } else {
        s
    }
}

/// Every character is a decimal digit.
pub open spec fn all_digits(d: Seq<char>) -> bool {
    forall|i: int| 0 <= i < d.len() ==> is_digit(#[trigger] d[i])
}

/// `str::parse::<u32>`: an optional `+`, then one or more decimal digits whose
/// value fits in 32 bits.
pub open spec fn parse_u32_spec(s: Seq<char>) -> Option<u32> {
    let d = unsigned_part(s);
    if d.len() > 0 && all_digits(d) && digits_value(d) <= u32::MAX {
        Some(digits_value(d) as u32)
    } else {
        None
    }
}

proof fn lemma_digits_value_step(s: Seq<char>, k: int)
    requires
        0 <= k < s.len(),
    ensures
        digits_value(s.take(k + 1)) == digits_value(s.take(k)) * 10 + ((s[k] as u32) - ('0' as u32)) as nat,
{
    assert(s.take(k + 1).drop_last() =~= s.take(k));
}

proof fn lemma_digits_value_mono(s: Seq<char>, a: int, b: int)
    requires
        0 <= a <= b <= s.len(),
        forall|i: int| 0 <= i < s.len() ==> is_digit(#[trigger] s[i]),
    ensures
        digits_value(s.take(a)) <= digits_value(s.take(b)),
    decreases b - a,
{
    if a < b {
        lemma_digits_value_mono(s, a, b - 1);
        lemma_digits_value_step(s, b - 1);
        assert(is_digit(s[b - 1]));
    }
}

/// Reads a `u32` as `str::parse::<u32>` does (see `parse_u32_spec`).
pub fn parse_u32(s: &[char]) -> (r: Option<u32>)
    ensures
        r == parse_u32_spec(s@),
{
    let start: usize = if s.len() > 0 && s[0] == '+' {
        1
    } else {
        0
    };
    let ghost d = unsigned_part(s@);
    assert(d =~= s@.skip(start as int));
    if start >= s.len() {
        return None;
    }
    let mut v: u32 = 0;
    let mut i: usize = start;
    let mut fits = true;
    while i < s.len()
        invariant
            start <= i <= s@.len(),
            start < s@.len(),
            d == s@.skip(start as int),
            d == unsigned_part(s@),
            forall|j: int| 0 <= j < i - start ==> is_digit(#[trigger] d[j]),
            fits ==> v == digits_value(d.take(i - start)),
            !fits ==> digits_value(d.take(i - start)) > u32::MAX,
        decreases s@.len() - i,
    {
        let c = s[i];
        if !('0' <= c && c <= '9') {
            assert(!is_digit(d[i - start]));
            assert(!all_digits(d));
            return None;
        }
        proof {
            lemma_digits_value_step(d, i - start);
        }
        let dv = ((c as u32) - ('0' as u32)) as u32;
        if fits {
            match v.checked_mul(10) {
                Some(m) => match m.checked_add(dv) {
                    Some(n) => {
                        v = n;
                    },
                    None => {
                        fits = false;
                    },
                },
                None => {
                    fits = false;
                },
            }
        }
        i += 1;
    }
    assert(d.take(d.len() as int) =~= d);
    if fits {
        Some(v)
    } else {
        None
    }
}

/// The version of a backup copy named `name` of the plan file with stem `stem`:
/// the name starts with `{stem}-v` and ends with `.md`, and what is left
/// between (every leading `{stem}-v` and trailing `.md` removed) reads as a `u32`.
pub open spec fn backup_version_of(name: Seq<char>, stem: Seq<char>) -> Option<u32> {
    let p = stem + "-v"@;
    if starts_with(name, p) && crate::text::ends_with(name, ".md"@) {
        parse_u32_spec(trim_end_matches(trim_start_matches(name, p), ".md"@))
    } else {
        None
    }
}

/// The version of a backup copy named `name`, if it is one (see `backup_version_of`).
pub fn backup_version(name: &str, stem: &str) -> (r: Option<u32>)
    ensures
        r == backup_version_of(name@, stem@),
{
    let mut p = chars_of(stem);
    extend_str(&mut p, "-v");
    let n = chars_of(name);
    if crate::text::starts_with_exec(n.as_slice(), p.as_slice()) && crate::text::ends_with_str(
        n.as_slice(),
        ".md",
    ) {
        let ps = string_of(p.as_slice());
        let a = trim_start_matches_exec(n.as_slice(), ps.as_str());
        let b = trim_end_matches_exec(a.as_slice(), ".md");
        parse_u32(b.as_slice())
    } else {
        None
    }
}

proof fn lemma_dec_digits(n: nat)
    ensures
        dec(n).len() > 0,
        all_digits(dec(n)),
        digits_value(dec(n)) == n,
    decreases n,
{
    let d = (n % 10) as nat;
    assert(('0' as u32) == 48 && ('1' as u32) == 49 && ('2' as u32) == 50 && ('3' as u32) == 51
        && ('4' as u32) == 52 && ('5' as u32) == 53 && ('6' as u32) == 54 && ('7' as u32) == 55
        && ('8' as u32) == 56 && ('9' as u32) == 57);
    assert(is_digit(crate::text::digit(d)));
    assert((crate::text::digit(d) as u32) - ('0' as u32) == d);
    if n < 10 {
        assert(n % 10 == n);
        assert(dec(n).drop_last() =~= Seq::<char>::empty());
        assert(digits_value(dec(n).drop_last()) == 0);
        assert(dec(n).last() == crate::text::digit(d));
    } else {
        assert((n / 10) * 10 + n % 10 == n) by (nonlinear_arith);
        lemma_dec_digits(n / 10);
        let t = dec(n / 10);
        assert(dec(n) == t.push(crate::text::digit(d)));
        assert(dec(n).drop_last() =~= t);
        assert(dec(n).last() == crate::text::digit(d));
        assert(digits_value(dec(n)) == digits_value(t) * 10 + d);
        assert forall|i: int| 0 <= i < dec(n).len() implies is_digit(#[trigger] dec(n)[i]) by {
            if i < t.len() {
                assert(dec(n)[i] == t[i]);
            }
        }
    }
}

/// The version in the name of a backup copy reads back as the version it was
/// made for.
pub proof fn lemma_backup_version_roundtrip(stem: Seq<char>, version: u32)
    ensures
        backup_version_of(backup_file_name_of(stem, version), stem) == Some(version),
{
    reveal_strlit("-v");
    reveal_strlit(".md");
    let ds = dec(version as nat);
    lemma_dec_digits(version as nat);
    let p = stem + "-v"@;
    let name = backup_file_name_of(stem, version);
    let rest = ds + ".md"@;
    assert(name =~= p + rest);
    assert(name.take(p.len() as int) =~= p);
    assert(name.skip(name.len() - 3) =~= ".md"@);
    assert(name.skip(p.len() as int) =~= rest);
    // `rest` holds no `-`, so it does not start with `{stem}-v`.
    assert(!starts_with(rest, p)) by {
        if p.len() <= rest.len() {
            assert(p[stem.len() as int] == '-');
            if stem.len() < ds.len() {
                assert(rest[stem.len() as int] == ds[stem.len() as int]);
                assert(is_digit(ds[stem.len() as int]));
            } else {
                assert(rest[stem.len() as int] == ".md"@[stem.len() - ds.len()]);
            }
            assert(rest.take(p.len() as int)[stem.len() as int] != p[stem.len() as int]);
        }
    }
    assert(trim_start_matches(name, p) == trim_start_matches(rest, p));
    assert(trim_start_matches(rest, p) == rest);
    assert(rest.take(rest.len() - 3) =~= ds);
    assert(rest.skip(rest.len() - 3) =~= ".md"@);
    assert(!crate::text::ends_with(ds, ".md"@)) by {
        if 3 <= ds.len() {
            assert(is_digit(ds[ds.len() - 1]));
            assert(ds.skip(ds.len() - 3)[2] == ds[ds.len() - 1]);
        }
    }
    assert(trim_end_matches(rest, ".md"@) == trim_end_matches(ds, ".md"@));
    assert(trim_end_matches(ds, ".md"@) == ds);
    assert(is_digit(ds[0]));
    assert(unsigned_part(ds) == ds);
}

// ───────────────────────────── plan versions ─────────────────────────────

/// Where `x` is inserted among versions listed newest first: before the first
/// older version.
pub open spec fn version_pos(s: Seq<PlanVersionInfo>, x: PlanVersionInfo) -> int
    decreases s.len(),
{
    if s.len() == 0 {
        0
    } else if x.version > s[0].version {
        0
    } else {
        1 + version_pos(s.skip(1), x)
    }
}

/// The versions listed newest first, those with equal numbers in their first order.
pub open spec fn newest_first(s: Seq<PlanVersionInfo>) -> Seq<PlanVersionInfo>
    decreases s.len(),
{
    if s.len() == 0 {
        seq![]
    } else {
        let t = newest_first(s.drop_last());
        t.insert(version_pos(t, s.last()), s.last())
    }
}

proof fn lemma_version_pos(s: Seq<PlanVersionInfo>, x: PlanVersionInfo, k: int)
    requires
        0 <= k <= s.len(),
        forall|j: int| 0 <= j < k ==> x.version <= #[trigger] s[j].version,
        k == s.len() || x.version > s[k].version,
    ensures
        version_pos(s, x) == k,
    decreases k,
{
    if k > 0 {
        assert forall|j: int| 0 <= j < k - 1 implies x.version <= #[trigger] s.skip(1)[j].version by {
            assert(s.skip(1)[j] == s[j + 1]);
        }
        if k < s.len() {
            assert(s.skip(1)[k - 1] == s[k]);
        }
        lemma_version_pos(s.skip(1), x, k - 1);
    }
}

proof fn lemma_version_pos_first(s: Seq<PlanVersionInfo>, x: PlanVersionInfo)
    ensures
        0 <= version_pos(s, x) <= s.len(),
        forall|j: int| 0 <= j < version_pos(s, x) ==> x.version <= #[trigger] s[j].version,
        version_pos(s, x) < s.len() ==> x.version > s[version_pos(s, x)].version,
    decreases s.len(),
{
    if s.len() > 0 && x.version <= s[0].version {
        lemma_version_pos_first(s.skip(1), x);
        assert forall|j: int| 0 <= j < version_pos(s, x) implies x.version <= #[trigger] s[j].version by {
            if j > 0 {
                assert(s[j] == s.skip(1)[j - 1]);
            }
        }
        if version_pos(s, x) < s.len() {
            assert(s[version_pos(s, x)] == s.skip(1)[version_pos(s.skip(1), x)]);
        }
    }
}

/// Versions are listed newest first, and none is lost or added.
pub proof fn lemma_newest_first(s: Seq<PlanVersionInfo>)
    ensures
        forall|i: int, j: int| 0 <= i < j < newest_first(s).len() ==> #[trigger] newest_first(s)[i].version
            >= #[trigger] newest_first(s)[j].version,
        newest_first(s).len() == s.len(),
        newest_first(s).to_multiset() == s.to_multiset(),
    decreases s.len(),
{
    if s.len() > 0 {
        let d = s.drop_last();
        lemma_newest_first(d);
        let t = newest_first(d);
        let x = s.last();
        let p = version_pos(t, x);
        lemma_version_pos_first(t, x);
        let r = t.insert(p, x);
        assert forall|i: int, j: int| 0 <= i < j < r.len() implies #[trigger] r[i].version >= #[trigger] r[j].version by {
            if j < p {
                assert(r[i] == t[i] && r[j] == t[j]);
            } else if j == p {
                assert(r[j] == x && r[i] == t[i]);
            } else if i == p {
                assert(r[i] == x && r[j] == t[j - 1]);
                assert(t[p].version >= t[j - 1].version);
            } else if i < p {
                assert(r[i] == t[i] && r[j] == t[j - 1]);
            } else {
                assert(r[i] == t[i - 1] && r[j] == t[j - 1]);
            }
        }
        assert(s =~= d.push(x));
        vstd::seq_lib::to_multiset_insert(t, p, x);
        vstd::seq_lib::to_multiset_build(d, x);
        assert(newest_first(s) == r);
    } else {
        assert(s =~= Seq::<PlanVersionInfo>::empty());
        assert(newest_first(s) =~= Seq::<PlanVersionInfo>::empty());
    }
}

/// Lists plan versions newest first (see `newest_first`).
pub fn sort_versions(versions: Vec<PlanVersionInfo>) -> (r: Vec<PlanVersionInfo>)
    ensures
        r@ == newest_first(versions@),
{
    let ghost all = versions@;
    let mut rest = versions;
    let n = rest.len();
    let mut out: Vec<PlanVersionInfo> = Vec::new();
    let mut j: usize = 0;
    assert(all.take(0) =~= Seq::<PlanVersionInfo>::empty());
    assert(all.skip(0) =~= all);
    while rest.len() > 0
        invariant
            j + rest@.len() == all.len(),
            all.len() == n,
            rest@ == all.skip(j as int),
            out@ == newest_first(all.take(j as int)),
        decreases rest@.len(),
    {
        let x = rest.remove(0);
        assert(x == all[j as int]);
        assert(rest@ =~= all.skip(j + 1));
        let ghost cur = out@;
        let mut k: usize = 0;
        while k < out.len() && !(x.version > out[k].version)
            invariant
                k <= out@.len(),
                cur == out@,
                forall|m: int| 0 <= m < k ==> x.version <= #[trigger] cur[m].version,
            decreases out@.len() - k,
        {
            k += 1;
        }
        proof {
            lemma_version_pos(cur, x, k as int);
            assert(all.take(j + 1).drop_last() =~= all.take(j as int));
            assert(all.take(j + 1).last() == x);
        }
        out.insert(k, x);
        j += 1;
    }
    assert(all.take(j as int) =~= all);
    out
}

// ───────────────────────────── plans by session ─────────────────────────────

/// `n` is `m` moved to plan state `state` at time `now` (see `PlanMeta::apply_state`).
pub open spec fn state_applied(m: PlanMeta, n: PlanMeta, state: PlanModeState, now: Seq<char>) -> bool {
    &&& n.state == state
    &&& n.updated_at@ == now
    &&& state == PlanModeState::Paused ==> match n.paused_at_step {
        Some(i) => resume_point(m.steps@) == Some(i as nat),
        None => resume_point(m.steps@) is None,
    }
    &&& state == PlanModeState::Executing ==> n.paused_at_step is None
    &&& state != PlanModeState::Paused && state != PlanModeState::Executing ==> n.paused_at_step
        == m.paused_at_step
    &&& n.steps@ == m.steps@
    &&& n.session_id == m.session_id
    &&& n.title == m.title
    &&& n.file_path == m.file_path
    &&& n.created_at == m.created_at
    &&& n.version == m.version
    &&& n.checkpoint_ref == m.checkpoint_ref
}

/// `m` is a plan just started for session `sid` in state `state` at time `now`,
/// with steps `steps`, stored at `file_path`, at version 1.
pub open spec fn fresh_plan(
    m: PlanMeta,
    sid: Seq<char>,
    file_path: Seq<char>,
    state: PlanModeState,
    steps: Seq<PlanStep>,
    now: Seq<char>,
) -> bool {
    &&& m.session_id@ == sid
    &&& m.title is None
    &&& m.file_path@ == file_path
    &&& m.state == state
    &&& m.steps@ == steps
    &&& m.created_at@ == now
    &&& m.updated_at@ == now
    &&& m.paused_at_step is None
    &&& m.version == 1
    &&& m.checkpoint_ref is None
}

/// Every key other than `k` holds in `b` what it held in `a`.
pub open spec fn others_kept(a: Keyed<PlanMeta>, b: Keyed<PlanMeta>, k: Seq<char>) -> bool {
    forall|o: Seq<char>| o != k ==> #[trigger] lookup(b, o) == lookup(a, o)
}

/// The plan mode state of a session: that of its plan, else `Off`.
pub open spec fn state_of(v: Keyed<PlanMeta>, sid: Seq<char>) -> PlanModeState {
    match lookup(v, sid) {
        Some(m) => m.state,
        None => PlanModeState::Off,
    }
}

/// The plans of the sessions in plan mode.
pub struct PlanStore {
    ids: Vec<String>,
    metas: Vec<PlanMeta>,
}

impl View for PlanStore {
    type V = Keyed<PlanMeta>;

    closed spec fn view(&self) -> Keyed<PlanMeta> {
        Seq::new(self.ids@.len(), |i: int| (self.ids@[i]@, self.metas@[i]))
    }
}

proof fn lemma_stored_others(v: Keyed<PlanMeta>, k: Seq<char>, x: PlanMeta)
    requires
        unique_keys(v),
    ensures
        unique_keys(stored(v, k, x)),
        lookup(stored(v, k, x), k) == Some(x),
        others_kept(v, stored(v, k, x), k),
{
    lemma_store_then_get(v, k, x, k);
    assert forall|o: Seq<char>| o != k implies #[trigger] lookup(stored(v, k, x), o) == lookup(v, o) by {
        lemma_store_then_get(v, k, x, o);
    }
}

impl PlanStore {
    /// Ids and plans line up, ids are unique, and each plan is stored under its session id.
    pub closed spec fn wf(&self) -> bool {
        &&& self.ids@.len() == self.metas@.len()
        &&& unique_keys(self@)
        &&& forall|i: int| 0 <= i < self.ids@.len() ==> #[trigger] self.metas@[i].session_id@ == self.ids@[i]@
    }

    /// No session has a plan.
    pub fn new() -> (r: Self)
        ensures
            r.wf(),
            r@ == Seq::<(Seq<char>, PlanMeta)>::empty(),
    {
        let r = PlanStore { ids: Vec::new(), metas: Vec::new() };
        assert(r@ =~= Seq::<(Seq<char>, PlanMeta)>::empty());
        r
    }

    fn index_of(&self, sid: &str) -> (r: Option<usize>)
        requires
            self.wf(),
        ensures
            match r {
                Some(i) => find_key(self@, sid@) == Some(i as int) && i < self.ids@.len(),
                None => find_key(self@, sid@) is None,
            },
    {
        let mut i: usize = 0;
        while i < self.ids.len()
            invariant
                self.wf(),
                i <= self.ids@.len(),
                forall|j: int| 0 <= j < i ==> self@[j].0 != sid@,
            decreases self.ids@.len() - i,
        {
            if str_eq(self.ids[i].as_str(), sid) {
                proof {
                    lemma_find_key_unique(self@, sid@, i as int);
                }
                return Some(i);
            }
            i += 1;
        }
        proof {
            lemma_find_key(self@, sid@);
        }
        None
    }

    /// The plan mode state of session `sid` (`Off` when it has no plan).
    pub fn state(&self, sid: &str) -> (r: PlanModeState)
        requires
            self.wf(),
        ensures
            r == state_of(self@, sid@),
    {
        match self.index_of(sid) {
            Some(i) => self.metas[i].state,
            None => PlanModeState::Off,
        }
    }

    /// The plan of session `sid`.
    pub fn meta(&self, sid: &str) -> (r: Option<&PlanMeta>)
        requires
            self.wf(),
        ensures
            match lookup(self@, sid@) {
                Some(m) => r matches Some(x) && *x == m,
                None => r is None,
            },
    {
        match self.index_of(sid) {
            Some(i) => Some(&self.metas[i]),
            None => None,
        }
    }

    /// Moves session `sid` to plan state `state` at time `now`: `Off` drops its
    /// plan; a plan it has moves (see `PlanMeta::apply_state`); otherwise a new
    /// plan starts, stored at `file_path`.
    pub fn set_state(&mut self, sid: &str, state: PlanModeState, file_path: String, now: String)
        requires
            old(self).wf(),
        ensures
            final(self).wf(),
            others_kept(old(self)@, final(self)@, sid@),
            state_of(final(self)@, sid@) == state,
            state == PlanModeState::Off ==> lookup(final(self)@, sid@) is None,
            state != PlanModeState::Off ==> match lookup(old(self)@, sid@) {
                Some(m) => lookup(final(self)@, sid@) matches Some(n) && state_applied(m, n, state, now@),
                None => lookup(final(self)@, sid@) matches Some(n) && fresh_plan(
                    n,
                    sid@,
                    file_path@,
                    state,
                    seq![],
                    now@,
                ),
            },
    {
        match self.index_of(sid) {
            Some(i) => {
                proof {
                    lemma_find_key(old(self)@, sid@);
                    assert(old(self)@[i as int].0 == self.ids@[i as int]@);
                }
                if state == PlanModeState::Off {
                    self.remove_at(i);
                } else {
                    let mut m = self.metas.remove(i);
                    let ghost m0 = m;
                    m.apply_state(state, now);
                    let ghost m1 = m;
                    self.metas.insert(i, m);
                    assert(old(self)@[i as int].1 == m0);
                    assert(self@ =~= old(self)@.update(i as int, (sid@, m1)));
                    proof {
                        lemma_find_key_unique(old(self)@, sid@, i as int);
                        lemma_stored_others(old(self)@, sid@, m1);
                    }
                }
            },
            None => {
                proof {
                    lemma_find_key(old(self)@, sid@);
                }
                if state != PlanModeState::Off {
                    let key = string_of(chars_of(sid).as_slice());
                    let owner = string_of(chars_of(sid).as_slice());
                    let m = PlanMeta::new_for(owner, file_path, state, now);
                    let ghost m1 = m;
                    self.ids.push(key);
                    self.metas.push(m);
                    assert(self@ =~= old(self)@.push((sid@, m1)));
                    proof {
                        lemma_stored_others(old(self)@, sid@, m1);
                        assert(m1.steps@ =~= Seq::<PlanStep>::empty());
                    }
                }
            },
        }
    }

    /// Replaces the steps of session `sid`'s plan, at time `now`; returns whether it has a plan.
    pub fn update_steps(&mut self, sid: &str, steps: Vec<PlanStep>, now: String) -> (r: bool)
        requires
            old(self).wf(),
        ensures
            final(self).wf(),
            others_kept(old(self)@, final(self)@, sid@),
            r == lookup(old(self)@, sid@) is Some,
            !r ==> final(self)@ == old(self)@,
            r ==> (lookup(final(self)@, sid@) matches Some(n) && n == (PlanMeta {
                steps,
                updated_at: now,
                ..lookup(old(self)@, sid@)->0
            })),
    {
        match self.index_of(sid) {
            Some(i) => {
                proof {
                    lemma_find_key(old(self)@, sid@);
                }
                let mut m = self.metas.remove(i);
                m.steps = steps;
                m.updated_at = now;
                let ghost m1 = m;
                self.metas.insert(i, m);
                assert(self@ =~= old(self)@.update(i as int, (sid@, m1)));
                proof {
                    lemma_find_key_unique(old(self)@, sid@, i as int);
                    lemma_stored_others(old(self)@, sid@, m1);
                }
                true
            },
            None => false,
        }
    }

    /// Sets the status of step `index` of session `sid`'s plan at time `now`
    /// (see `PlanMeta::set_step_status`); returns whether the session has a plan.
    pub fn update_step_status(
        &mut self,
        sid: &str,
        index: usize,
        status: PlanStepStatus,
        duration_ms: Option<u64>,
        now: String,
    ) -> (r: bool)
        requires
            old(self).wf(),
        ensures
            final(self).wf(),
            others_kept(old(self)@, final(self)@, sid@),
            r == lookup(old(self)@, sid@) is Some,
            !r ==> final(self)@ == old(self)@,
            r ==> {
                let m = lookup(old(self)@, sid@)->0;
                let n = lookup(final(self)@, sid@)->0;
                &&& lookup(final(self)@, sid@) is Some
                &&& index >= m.steps@.len() ==> n == m
                &&& index < m.steps@.len() ==> {
                    &&& n.steps@.len() == m.steps@.len()
                    &&& n.updated_at@ == now@
                    &&& forall|j: int|
                        0 <= j < m.steps@.len() && j != index ==> #[trigger] n.steps@[j] == m.steps@[j]
                    &&& n.steps@[index as int].status == status
                    &&& n.steps@[index as int].duration_ms == (if duration_ms is Some {
                        duration_ms
                    } else {
                        m.steps@[index as int].duration_ms
                    })
                    &&& n.steps@[index as int]@ == (StepView {
                        status,
                        duration_ms: n.steps@[index as int].duration_ms,
                        ..m.steps@[index as int]@
                    })
                    &&& n.state == m.state
                    &&& n.paused_at_step == m.paused_at_step
                    &&& n.session_id == m.session_id
                }
            },
    {
        match self.index_of(sid) {
            Some(i) => {
                proof {
                    lemma_find_key(old(self)@, sid@);
                }
                let mut m = self.metas.remove(i);
                let ghost m0 = m;
                m.set_step_status(index, status, duration_ms, now);
                let ghost m1 = m;
                self.metas.insert(i, m);
                assert(old(self)@[i as int].1 == m0);
                assert(self@ =~= old(self)@.update(i as int, (sid@, m1)));
                proof {
                    lemma_find_key_unique(old(self)@, sid@, i as int);
                    lemma_stored_others(old(self)@, sid@, m1);
                }
                true
            },
            None => false,
        }
    }

    /// The version of session `sid`'s plan (1 when it has none).
    pub fn version(&self, sid: &str) -> (r: u32)
        requires
            self.wf(),
        ensures
            r == match lookup(self@, sid@) {
                Some(m) => m.version,
                None => 1,
            },
    {
        match self.index_of(sid) {
            Some(i) => self.metas[i].version,
            None => 1,
        }
    }

    /// Raises the version of session `sid`'s plan by one, after the old one was kept as a copy.
    pub fn bump_version(&mut self, sid: &str)
        requires
            old(self).wf(),
            lookup(old(self)@, sid@) matches Some(m) ==> m.version < u32::MAX,
        ensures
            final(self).wf(),
            others_kept(old(self)@, final(self)@, sid@),
            match lookup(old(self)@, sid@) {
                Some(m) => lookup(final(self)@, sid@) == Some(PlanMeta { version: (m.version + 1) as u32, ..m }),
                None => final(self)@ == old(self)@,
            },
    {
        match self.index_of(sid) {
            Some(i) => {
                proof {
                    lemma_find_key(old(self)@, sid@);
                }
                let mut m = self.metas.remove(i);
                m.version = m.version + 1;
                let ghost m1 = m;
                self.metas.insert(i, m);
                assert(self@ =~= old(self)@.update(i as int, (sid@, m1)));
                proof {
                    lemma_find_key_unique(old(self)@, sid@, i as int);
                    lemma_stored_others(old(self)@, sid@, m1);
                }
            },
            None => {},
        }
    }

    /// Records where session `sid`'s plan file was written.
    pub fn set_file_path(&mut self, sid: &str, path: String)
        requires
            old(self).wf(),
        ensures
            final(self).wf(),
            others_kept(old(self)@, final(self)@, sid@),
            match lookup(old(self)@, sid@) {
                Some(m) => lookup(final(self)@, sid@) == Some(PlanMeta { file_path: path, ..m }),
                None => final(self)@ == old(self)@,
            },
    {
        match self.index_of(sid) {
            Some(i) => {
                proof {
                    lemma_find_key(old(self)@, sid@);
                }
                let mut m = self.metas.remove(i);
                m.file_path = path;
                let ghost m1 = m;
                self.metas.insert(i, m);
                assert(self@ =~= old(self)@.update(i as int, (sid@, m1)));
                proof {
                    lemma_find_key_unique(old(self)@, sid@, i as int);
                    lemma_stored_others(old(self)@, sid@, m1);
                }
            },
            None => {},
        }
    }

    /// Records the git checkpoint branch made before session `sid`'s plan runs.
    pub fn set_checkpoint(&mut self, sid: &str, branch: String)
        requires
            old(self).wf(),
        ensures
            final(self).wf(),
            others_kept(old(self)@, final(self)@, sid@),
            match lookup(old(self)@, sid@) {
                Some(m) => lookup(final(self)@, sid@) == Some(PlanMeta { checkpoint_ref: Some(branch), ..m }),
                None => final(self)@ == old(self)@,
            },
    {
        match self.index_of(sid) {
            Some(i) => {
                proof {
                    lemma_find_key(old(self)@, sid@);
                }
                let mut m = self.metas.remove(i);
                m.checkpoint_ref = Some(branch);
                let ghost m1 = m;
                self.metas.insert(i, m);
                assert(self@ =~= old(self)@.update(i as int, (sid@, m1)));
                proof {
                    lemma_find_key_unique(old(self)@, sid@, i as int);
                    lemma_stored_others(old(self)@, sid@, m1);
                }
            },
            None => {},
        }
    }

    /// The git checkpoint branch of session `sid`'s plan, if one was made.
    pub fn checkpoint(&self, sid: &str) -> (r: Option<String>)
        requires
            self.wf(),
        ensures
            r == match lookup(self@, sid@) {
                Some(m) => m.checkpoint_ref,
                None => None,
            },
    {
        match self.index_of(sid) {
            Some(i) => self.metas[i].checkpoint_ref.clone(),
            None => None,
        }
    }

    /// Brings back session `sid`'s plan after a restart, in the mode named
    /// `mode` (nothing when that reads as `Off`): with the steps saved in the
    /// database, or, when there are none, those of the plan file's text.
    pub fn restore(
        &mut self,
        sid: &str,
        mode: &str,
        saved_steps: Vec<PlanStep>,
        plan_file: Option<String>,
        file_path: String,
        now: String,
    )
        requires
            old(self).wf(),
        ensures
            final(self).wf(),
            others_kept(old(self)@, final(self)@, sid@),
            mode_from(mode@) == PlanModeState::Off ==> final(self)@ == old(self)@,
            mode_from(mode@) != PlanModeState::Off ==> (lookup(final(self)@, sid@) matches Some(n)
                && fresh_plan(
                n,
                sid@,
                file_path@,
                mode_from(mode@),
                n.steps@,
                now@,
            ) && step_views(n.steps@) == (if saved_steps@.len() > 0 {
                step_views(saved_steps@)
            } else {
                match plan_file {
                    Some(c) => plan_steps_of(c@),
                    None => seq![],
                }
            })),
    {
        let state = PlanModeState::from_str(mode);
        if state == PlanModeState::Off {
            return;
        }
        let steps = if saved_steps.len() > 0 {
            saved_steps
        } else {
            match plan_file {
                Some(c) => parse_plan_steps(c.as_str()),
                None => Vec::new(),
            }
        };
        let ghost sv = steps@;
        let owner = string_of(chars_of(sid).as_slice());
        let mut m = PlanMeta::new_for(owner, file_path, state, now);
        m.steps = steps;
        let ghost m1 = m;
        match self.index_of(sid) {
            Some(i) => {
                proof {
                    lemma_find_key(old(self)@, sid@);
                }
                self.metas.set(i, m);
                assert(self@ =~= old(self)@.update(i as int, (sid@, m1)));
                proof {
                    lemma_find_key_unique(old(self)@, sid@, i as int);
                    lemma_stored_others(old(self)@, sid@, m1);
                }
            },
            None => {
                proof {
                    lemma_find_key(old(self)@, sid@);
                }
                let key = string_of(chars_of(sid).as_slice());
                self.ids.push(key);
                self.metas.push(m);
                assert(self@ =~= old(self)@.push((sid@, m1)));
                proof {
                    lemma_stored_others(old(self)@, sid@, m1);
                }
            },
        }
    }

    fn remove_at(&mut self, i: usize)
        requires
            old(self).wf(),
            i < old(self).ids@.len(),
        ensures
            final(self).wf(),
            lookup(final(self)@, old(self)@[i as int].0) is None,
            others_kept(old(self)@, final(self)@, old(self)@[i as int].0),
    {
        let ghost k = old(self)@[i as int].0;
        proof {
            lemma_find_key_unique(old(self)@, k, i as int);
            lemma_remove_then_get(old(self)@, k, k);
            assert forall|o: Seq<char>| o != k implies #[trigger] lookup(old(self)@.remove(i as int), o)
                == lookup(old(self)@, o) by {
                lemma_remove_then_get(old(self)@, k, o);
            }
        }
        self.ids.remove(i);
        self.metas.remove(i);
        assert(self@ =~= old(self)@.remove(i as int));
    }
}

} // verus!
