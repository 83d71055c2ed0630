//! Export of memories as markdown, grouped by type, in the form that the
//! markdown import reads back.
use vstd::prelude::*;
use crate::memory::{
    can_flush, flushed, heading_type, import_entries, import_fold, import_start, import_step,
    memory_heading, tag_list, ImportFold, ImportView, MemoryScope, MemoryType,
};
use crate::text::{
    first_index, has_char, is_ws, split_char, lead_ws, lemma_lead_ws, lemma_trail_ws, trail_ws, lemma_first_index, lemma_first_index_bound, starts_with, strip_cr, trim,
    chars_of, extend_chars, extend_str, join, join_prefix, lines, lines_exec, seqs_of, string_of,
    strs_of,
};

verus! {

/// What the export reads of a stored memory.
#[derive(Debug, Clone)]
pub struct ExportEntry {
    pub memory_type: MemoryType,
    pub scope: MemoryScope,
    pub content: String,
    pub tags: Vec<String>,
    /// `user`, `auto` or `import`.
    pub source: String,
    /// RFC 3339 time of the last update.
    pub updated_at: String,
}

/// `global`, or `agent:<id>`.
pub open spec fn scope_label(s: MemoryScope) -> Seq<char> {
    match s {
        MemoryScope::Global => "global"@,
        MemoryScope::Agent { id } => "agent:"@ + id@,
    }
}

/// The title of a memory: the first line of its text, else `Untitled`.
pub open spec fn title_of(content: Seq<char>) -> Seq<char> {
    if lines(content).len() > 0 {
        lines(content)[0]
    } else {
        "Untitled"@
    }
}

/// `Tags: a, b` and a line break, or nothing for a memory without tags.
pub open spec fn tags_text(tags: Seq<Seq<char>>) -> Seq<char> {
    if tags.len() > 0 {
        "Tags: "@ + join(tags, ", "@) + "\n"@
    } else {
        seq![]
    }
}

/// `### <title>` and a line break.
pub open spec fn title_line(content: Seq<char>) -> Seq<char> {
    "### "@ + title_of(content) + "\n"@
}

/// `Scope: <scope> | Source: <source> | Updated: <time>` and a blank line.
pub open spec fn scope_line(e: ExportEntry) -> Seq<char> {
    "Scope: "@ + scope_label(e.scope) + " | Source: "@ + e.source@ + " | Updated: "@ + e.updated_at@
        + "\n\n"@
}

/// One memory: its title as a `###` heading, its tags, a line with scope,
/// source and update time, a blank line, its text, and a `---` rule.
pub open spec fn entry_text(e: ExportEntry) -> Seq<char> {
    title_line(e.content@) + tags_text(strs_of(e.tags@)) + scope_line(e) + e.content@
        + "\n\n---\n\n"@
}

/// The memories one after the other.
pub open spec fn entries_text(es: Seq<ExportEntry>) -> Seq<char>
    decreases es.len(),
{
    if es.len() == 0 {
        seq![]
    } else {
        entries_text(es.drop_last()) + entry_text(es.last())
    }
}

/// The memories of type `t`, in order.
pub open spec fn export_of_type(es: Seq<ExportEntry>, t: MemoryType) -> Seq<ExportEntry>
    decreases es.len(),
{
    if es.len() == 0 {
        seq![]
    } else {
        let rest = export_of_type(es.drop_last(), t);
        if es.last().memory_type == t {
            rest.push(es.last())
        } else {
            rest
        }
    }
}

/// The section of type `t`: its heading and its memories; nothing when it has none.
pub open spec fn section_text(es: Seq<ExportEntry>, t: MemoryType) -> Seq<char> {
    if export_of_type(es, t).len() > 0 {
        "## "@ + memory_heading(t) + "\n\n"@ + entries_text(export_of_type(es, t))
    } else {
        seq![]
    }
}

/// The export: a `# Memories` title, then the sections of the user, feedback,
/// project and reference memories; a note when there is no memory.
pub open spec fn export_text(es: Seq<ExportEntry>) -> Seq<char> {
    if es.len() == 0 {
        "# Memories\n\nNo memories stored.\n"@
    } else {
        "# Memories\n\n"@ + section_text(es, MemoryType::User) + section_text(es, MemoryType::Feedback)
            + section_text(es, MemoryType::Project) + section_text(es, MemoryType::Reference)
    }
}

fn title_line_exec(e: &ExportEntry) -> (r: Vec<char>)
    ensures
        r@ == title_line(e.content@),
{
    let c = chars_of(e.content.as_str());
    let ls = lines_exec(c.as_slice());
    let mut v = chars_of("### ");
    if ls.len() > 0 {
        extend_chars(&mut v, ls[0].as_slice());
    } else {
        extend_str(&mut v, "Untitled");
    }
    extend_str(&mut v, "\n");
    v
}

fn tags_text_exec(e: &ExportEntry) -> (r: Vec<char>)
    ensures
        r@ == tags_text(strs_of(e.tags@)),
{
    if e.tags.len() == 0 {
        return Vec::new();
    }
    let mut pieces: Vec<Vec<char>> = Vec::new();
    let mut i: usize = 0;
    while i < e.tags.len()
        invariant
            i <= e.tags@.len(),
            seqs_of(pieces@) == strs_of(e.tags@).take(i as int),
        decreases e.tags@.len() - i,
    {
        let ghost before = seqs_of(pieces@);
        pieces.push(chars_of(e.tags[i].as_str()));
        assert(seqs_of(pieces@) =~= before.push(e.tags@[i as int]@));
        assert(strs_of(e.tags@).take(i + 1) =~= strs_of(e.tags@).take(i as int).push(
            e.tags@[i as int]@,
        ));
        i += 1;
    }
    assert(seqs_of(pieces@).take(pieces@.len() as int) =~= strs_of(e.tags@));
    let j = join_prefix(&pieces, pieces.len(), ", ");
    let mut v = chars_of("Tags: ");
    extend_chars(&mut v, j.as_slice());
    extend_str(&mut v, "\n");
    v
}

fn scope_line_exec(e: &ExportEntry) -> (r: Vec<char>)
    ensures
        r@ == scope_line(*e),
{
    let mut v = chars_of("Scope: ");
    match &e.scope {
        MemoryScope::Global => extend_str(&mut v, "global"),
        MemoryScope::Agent { id } => {
            extend_str(&mut v, "agent:");
            extend_str(&mut v, id.as_str());
        },
    }
    extend_str(&mut v, " | Source: ");
    extend_str(&mut v, e.source.as_str());
    extend_str(&mut v, " | Updated: ");
    extend_str(&mut v, e.updated_at.as_str());
    extend_str(&mut v, "\n\n");
    v
}

fn push_entry(md: &mut Vec<char>, e: &ExportEntry)
    ensures
        final(md)@ == old(md)@ + entry_text(*e),
{
    let a = title_line_exec(e);
    let b = tags_text_exec(e);
    let c = scope_line_exec(e);
    extend_chars(md, a.as_slice());
    extend_chars(md, b.as_slice());
    extend_chars(md, c.as_slice());
    extend_str(md, e.content.as_str());
    extend_str(md, "\n\n---\n\n");
    assert(final(md)@ =~= old(md)@ + entry_text(*e));
}

fn push_section(md: &mut Vec<char>, entries: &Vec<ExportEntry>, t: MemoryType)
    ensures
        final(md)@ == old(md)@ + section_text(entries@, t),
{
    let ghost start = md@;
    let mut typed: Vec<usize> = Vec::new();
    let mut i: usize = 0;
    while i < entries.len()
        invariant
            i <= entries@.len(),
            typed@.len() == export_of_type(entries@.take(i as int), t).len(),
            forall|k: int| 0 <= k < typed@.len() ==> #[trigger] typed@[k] < entries@.len() && entries@[typed@[k] as int]
                == export_of_type(entries@.take(i as int), t)[k],
        decreases entries@.len() - i,
    {
        assert(entries@.take(i + 1).drop_last() =~= entries@.take(i as int));
        if entries[i].memory_type == t {
            typed.push(i);
        }
        i += 1;
    }
    assert(entries@.take(entries@.len() as int) =~= entries@);
    let ghost te = export_of_type(entries@, t);
    if typed.len() == 0 {
        assert(md@ =~= start + section_text(entries@, t));
        return;
    }
    extend_str(md, "## ");
    extend_str(md, t.heading());
    extend_str(md, "\n\n");
    let ghost head = md@;
    let mut k: usize = 0;
    assert(te.take(0) =~= Seq::<ExportEntry>::empty());
    while k < typed.len()
        invariant
            k <= typed@.len() == te.len(),
            te == export_of_type(entries@, t),
            forall|m: int| 0 <= m < typed@.len() ==> #[trigger] typed@[m] < entries@.len() && entries@[typed@[m] as int]
                == te[m],
            md@ == head + entries_text(te.take(k as int)),
        decreases typed@.len() - k,
    {
        let idx = typed[k];
        assert(entries@[idx as int] == te[k as int]);
        push_entry(md, &entries[idx]);
        assert(te.take(k + 1).drop_last() =~= te.take(k as int));
        assert(md@ =~= head + entries_text(te.take(k + 1)));
        k += 1;
    }
    assert(te.take(te.len() as int) =~= te);
    assert(md@ =~= start + section_text(entries@, t));
}

/// The markdown export of the memories (see `export_text`).
pub fn export_markdown(entries: &Vec<ExportEntry>) -> (r: String)
    ensures
        r@ == export_text(entries@),
{
    if entries.len() == 0 {
        return string_of(chars_of("# Memories\n\nNo memories stored.\n").as_slice());
    }
    let mut md = chars_of("# Memories\n\n");
    push_section(&mut md, entries, MemoryType::User);
    push_section(&mut md, entries, MemoryType::Feedback);
    push_section(&mut md, entries, MemoryType::Project);
    push_section(&mut md, entries, MemoryType::Reference);
    string_of(md.as_slice())
}

// ───────────────────────────── reading an export back ─────────────────────────────

/// The import's reading of lines `ls` from state `st`, first line first.
pub open spec fn read_lines(st: ImportFold, ls: Seq<Seq<char>>) -> ImportFold
    decreases ls.len(),
{
    if ls.len() == 0 {
        st
    } else {
        read_lines(import_step(st, ls[0]), ls.skip(1))
    }
}

proof fn lemma_read_push(st: ImportFold, ls: Seq<Seq<char>>, x: Seq<char>)
    ensures
        read_lines(st, ls.push(x)) == import_step(read_lines(st, ls), x),
    decreases ls.len(),
{
    if ls.len() > 0 {
        assert(ls.push(x).skip(1) =~= ls.skip(1).push(x));
        assert(ls.push(x)[0] == ls[0]);
        lemma_read_push(import_step(st, ls[0]), ls.skip(1), x);
    } else {
        assert(ls.push(x).skip(1) =~= Seq::<Seq<char>>::empty());
        assert(ls.push(x)[0] == x);
        assert(read_lines(import_step(st, x), Seq::<Seq<char>>::empty()) == import_step(st, x));
    }
}

proof fn lemma_read_concat(st: ImportFold, a: Seq<Seq<char>>, b: Seq<Seq<char>>)
    ensures
        read_lines(st, a + b) == read_lines(read_lines(st, a), b),
    decreases a.len(),
{
    if a.len() > 0 {
        assert((a + b).skip(1) =~= a.skip(1) + b);
        assert((a + b)[0] == a[0]);
        lemma_read_concat(import_step(st, a[0]), a.skip(1), b);
    } else {
        assert(a + b =~= b);
    }
}

proof fn lemma_fold_is_read(ls: Seq<Seq<char>>, n: int)
    requires
        0 <= n <= ls.len(),
    ensures
        import_fold(ls, n) == read_lines(import_start(), ls.take(n)),
    decreases n,
{
    if n > 0 {
        lemma_fold_is_read(ls, n - 1);
        assert(ls.take(n) =~= ls.take(n - 1).push(ls[n - 1]));
        lemma_read_push(import_start(), ls.take(n - 1), ls[n - 1]);
    } else {
        assert(ls.take(0) =~= Seq::<Seq<char>>::empty());
    }
}

/// A text ending in a line break splits into lines independently of what follows.
pub(crate) proof fn lemma_lines_concat(a: Seq<char>, b: Seq<char>)
    requires
        a.len() > 0,
        a.last() == '\n',
    ensures
        lines(a + b) == lines(a) + lines(b),
    decreases a.len(),
{
    let ab = a + b;
    lemma_first_index_bound(a, '\n');
    let i = first_index(a, '\n');
    assert forall|j: int| 0 <= j < i implies #[trigger] ab[j] != '\n' by {
        assert(ab[j] == a[j]);
    }
    assert(ab[i as int] == a[i as int]);
    lemma_first_index(ab, '\n', i as int);
    assert(ab.take(i as int) =~= a.take(i as int));
    let ra = a.skip(i as int + 1);
    assert(ab.skip(i as int + 1) =~= ra + b);
    if ra.len() == 0 {
        assert(ra + b =~= b);
        assert(lines(ra) =~= Seq::<Seq<char>>::empty());
        assert(lines(a) =~= seq![strip_cr(a.take(i as int))]);
    } else {
        assert(ra.last() == a.last());
        lemma_lines_concat(ra, b);
        assert(lines(ab) =~= lines(a) + lines(b));
    }
}

/// A line without a break, and its break.
pub(crate) proof fn lemma_lines_one(x: Seq<char>)
    requires
        !has_char(x, '\n'),
    ensures
        lines(x + "\n"@) == seq![strip_cr(x)],
{
    reveal_strlit("\n");
    let s = x + "\n"@;
    assert forall|j: int| 0 <= j < x.len() implies #[trigger] s[j] != '\n' by {
        assert(s[j] == x[j]);
        if x[j] == '\n' {
            assert(has_char(x, '\n'));
        }
    }
    lemma_first_index(s, '\n', x.len() as int);
    assert(s.take(x.len() as int) =~= x);
    assert(s.skip(x.len() as int + 1) =~= Seq::<char>::empty());
    assert(lines(Seq::<char>::empty()) =~= Seq::<Seq<char>>::empty());
    assert(lines(s) =~= seq![strip_cr(x)]);
}

proof fn lemma_trail_ws_full(s: Seq<char>)
    ensures
        trail_ws(s) <= s.len(),
        forall|j: int| s.len() - trail_ws(s) <= j < s.len() ==> is_ws(#[trigger] s[j]),
        trail_ws(s) < s.len() ==> !is_ws(s[s.len() - trail_ws(s) - 1]),
    decreases s.len(),
{
    if s.len() > 0 && is_ws(s.last()) {
        let d = s.drop_last();
        lemma_trail_ws_full(d);
        assert forall|j: int| s.len() - trail_ws(s) <= j < s.len() implies is_ws(#[trigger] s[j]) by {
            if j < s.len() - 1 {
                assert(s[j] == d[j]);
            }
        }
        if trail_ws(s) < s.len() {
            assert(s[s.len() - trail_ws(s) - 1] == d[d.len() - trail_ws(d) - 1]);
        }
    }
}

/// Trimming keeps a text that starts and ends with a non-space.
proof fn lemma_trim_fixed(s: Seq<char>)
    requires
        s.len() > 0,
        !is_ws(s[0]),
        !is_ws(s.last()),
    ensures
        trim(s) == s,
{
    lemma_lead_ws(s, 0);
    assert(s.skip(0) =~= s);
    lemma_trail_ws(s, 0);
    assert(s.take(s.len() as int) =~= s);
}

/// Trimming keeps the first `k` characters when the first and the `k`th are not spaces.
proof fn lemma_trim_keeps_prefix(s: Seq<char>, k: int)
    requires
        0 < k <= s.len(),
        !is_ws(s[0]),
        !is_ws(s[k - 1]),
    ensures
        trim(s).len() >= k,
        trim(s).take(k) == s.take(k),
{
    lemma_lead_ws(s, 0);
    assert(s.skip(0) =~= s);
    lemma_trail_ws_full(s);
    if s.len() - trail_ws(s) <= k - 1 {
        assert(is_ws(s[k - 1]));
    }
    assert(trim(s).take(k) =~= s.take(k));
}

/// A trimmed text followed by spaces trims back to itself.
proof fn lemma_trim_padded(c: Seq<char>, w: Seq<char>)
    requires
        c.len() > 0,
        !is_ws(c[0]),
        !is_ws(c.last()),
        forall|j: int| 0 <= j < w.len() ==> is_ws(#[trigger] w[j]),
    ensures
        trim(c + w) == c,
{
    let s = c + w;
    lemma_lead_ws(s, 0);
    assert(s.skip(0) =~= s);
    assert forall|j: int| s.len() - w.len() <= j < s.len() implies is_ws(#[trigger] s[j]) by {
        assert(s[j] == w[j - c.len()]);
    }
    assert(s[s.len() - w.len() - 1] == c.last());
    lemma_trail_ws(s, w.len() as int);
    assert(s.take(s.len() - w.len()) =~= c);
}

/// A space before a trimmed text trims away.
proof fn lemma_trim_space_before(t: Seq<char>)
    requires
        t.len() > 0,
        !is_ws(t[0]),
        !is_ws(t.last()),
    ensures
        trim(seq![' '] + t) == t,
{
    let s = seq![' '] + t;
    assert(is_ws(' '));
    assert(s[1] == t[0]);
    lemma_lead_ws(s, 1);
    assert(s.skip(1) =~= t);
    lemma_trim_fixed(t);
}

/// The lines, each followed by a line break.
pub open spec fn with_breaks(ls: Seq<Seq<char>>) -> Seq<char>
    decreases ls.len(),
{
    if ls.len() == 0 {
        seq![]
    } else {
        ls[0] + seq!['\n'] + with_breaks(ls.skip(1))
    }
}

proof fn lemma_split_at_break(c: Seq<char>, i: int)
    requires
        i == first_index(c, '\n'),
        i < c.len(),
    ensures
        first_index(c + seq!['\n'], '\n') == i,
        (c + seq!['\n']).take(i) == c.take(i),
        (c + seq!['\n']).skip(i + 1) == c.skip(i + 1) + seq!['\n'],
        c[i] == '\n',
{
    let s = c + seq!['\n'];
    lemma_first_index_bound(c, '\n');
    assert forall|j: int| 0 <= j < i implies #[trigger] s[j] != '\n' by {
        assert(s[j] == c[j]);
    }
    assert(s[i] == c[i]);
    lemma_first_index(s, '\n', i);
    assert(s.take(i) =~= c.take(i));
    assert(s.skip(i + 1) =~= c.skip(i + 1) + seq!['\n']);
}

proof fn lemma_no_break(c: Seq<char>)
    requires
        first_index(c, '\n') >= c.len(),
    ensures
        first_index(c + seq!['\n'], '\n') == c.len(),
        (c + seq!['\n']).take(c.len() as int) == c,
        (c + seq!['\n']).skip(c.len() as int + 1) == Seq::<char>::empty(),
        !has_char(c, '\n'),
{
    let s = c + seq!['\n'];
    lemma_first_index_bound(c, '\n');
    assert forall|j: int| 0 <= j < c.len() implies #[trigger] s[j] != '\n' by {
        assert(s[j] == c[j]);
    }
    lemma_first_index(s, '\n', c.len() as int);
    assert(s.take(c.len() as int) =~= c);
    assert(s.skip(c.len() as int + 1) =~= Seq::<char>::empty());
}

proof fn lemma_no_cr_take(c: Seq<char>, i: int)
    requires
        0 <= i <= c.len(),
        !has_char(c, '\r'),
    ensures
        !has_char(c.take(i), '\r'),
        strip_cr(c.take(i)) == c.take(i),
{
    if has_char(c.take(i), '\r') {
        let j = choose|j: int| 0 <= j < c.take(i).len() && c.take(i)[j] == '\r';
        assert(c[j] == '\r');
    }
    if c.take(i).len() > 0 {
        assert(c.take(i).last() == c.take(i)[c.take(i).len() - 1]);
    }
}

proof fn lemma_no_cr_skip(c: Seq<char>, i: int)
    requires
        0 <= i <= c.len(),
        !has_char(c, '\r'),
    ensures
        !has_char(c.skip(i), '\r'),
{
    if has_char(c.skip(i), '\r') {
        let j = choose|j: int| 0 <= j < c.skip(i).len() && c.skip(i)[j] == '\r';
        assert(c[i + j] == '\r');
    }
}

/// The lines of a text without `\r`, each with its break, give the text back
/// with a final break.
proof fn lemma_lines_with_breaks(c: Seq<char>)
    requires
        !has_char(c, '\r'),
    ensures
        with_breaks(lines(c + seq!['\n'])) == c + seq!['\n'],
    decreases c.len(),
{
    let s = c + seq!['\n'];
    let i = first_index(c, '\n');
    lemma_first_index_bound(c, '\n');
    if i < c.len() {
        lemma_split_at_break(c, i as int);
        lemma_no_cr_take(c, i as int);
        lemma_no_cr_skip(c, i as int + 1);
        let rest = c.skip(i as int + 1);
        lemma_lines_with_breaks(rest);
        let ls = lines(s);
        assert(ls == seq![c.take(i as int)] + lines(rest + seq!['\n']));
        assert(ls[0] == c.take(i as int));
        assert(ls.skip(1) =~= lines(rest + seq!['\n']));
        assert(with_breaks(ls) == c.take(i as int) + seq!['\n'] + (rest + seq!['\n']));
        assert(c =~= c.take(i as int) + seq!['\n'] + rest);
        assert(with_breaks(ls) =~= s);
    } else {
        lemma_no_break(c);
        lemma_no_cr_take(c, c.len() as int);
        assert(c.take(c.len() as int) =~= c);
        let ls = lines(s);
        assert(lines(Seq::<char>::empty()) =~= Seq::<Seq<char>>::empty());
        assert(ls =~= seq![c]);
        assert(ls.skip(1) =~= Seq::<Seq<char>>::empty());
        assert(with_breaks(ls.skip(1)) =~= Seq::<char>::empty());
        assert(with_breaks(ls) == ls[0] + seq!['\n'] + with_breaks(ls.skip(1)));
        assert(with_breaks(ls) =~= s);
    }
}

/// A final line break adds no line to a text that does not end with one.
proof fn lemma_lines_final_break(c: Seq<char>)
    requires
        c.len() > 0,
        c.last() != '\n',
        !has_char(c, '\r'),
    ensures
        lines(c + seq!['\n']) == lines(c),
    decreases c.len(),
{
    let i = first_index(c, '\n');
    lemma_first_index_bound(c, '\n');
    if i < c.len() {
        lemma_split_at_break(c, i as int);
        let rest = c.skip(i as int + 1);
        if i == c.len() - 1 {
            assert(c[i as int] == c.last());
        }
        assert(rest.len() > 0);
        assert(rest.last() == c.last());
        lemma_no_cr_skip(c, i as int + 1);
        lemma_lines_final_break(rest);
    } else {
        lemma_no_break(c);
        lemma_no_cr_take(c, c.len() as int);
        assert(c.take(c.len() as int) =~= c);
        assert(lines(Seq::<char>::empty()) =~= Seq::<Seq<char>>::empty());
        assert(lines(c + seq!['\n']) =~= seq![c]);
    }
}

/// The first line of a text starting with a non-space.
proof fn lemma_first_line(c: Seq<char>)
    requires
        c.len() > 0,
        !is_ws(c[0]),
        !has_char(c, '\r'),
    ensures
        lines(c).len() > 0,
        lines(c)[0].len() > 0,
        lines(c)[0][0] == c[0],
        !has_char(lines(c)[0], '\n'),
        !has_char(lines(c)[0], '\r'),
{
    let i = first_index(c, '\n');
    lemma_first_index_bound(c, '\n');
    assert(is_ws('\n'));
    if i < c.len() {
        assert(i > 0);
        lemma_no_cr_take(c, i as int);
        assert(lines(c)[0] == c.take(i as int));
        if has_char(c.take(i as int), '\n') {
            let j = choose|j: int| 0 <= j < c.take(i as int).len() && c.take(i as int)[j] == '\n';
            assert(c[j] == '\n');
        }
    } else {
        assert(lines(c)[0] == c);
        if has_char(c, '\n') {
            let j = choose|j: int| 0 <= j < c.len() && c[j] == '\n';
            assert(c[j] == '\n');
        }
    }
}

/// A line the import takes as text of a memory: trimmed, it starts with none
/// of `## `, `### `, `Tags:` and `Scope:`, and it is not `---`.
pub open spec fn plain_line(l: Seq<char>) -> bool {
    let t = trim(l);
    !starts_with(t, "## "@) && !starts_with(t, "### "@) && !starts_with(t, "Tags:"@) && !starts_with(
        t,
        "Scope:"@,
    ) && t != "---"@
}

proof fn lemma_read_text(st: ImportFold, ls: Seq<Seq<char>>)
    requires
        st.in_entry,
        forall|i: int| 0 <= i < ls.len() ==> plain_line(#[trigger] ls[i]),
        st.content.len() > 0 || (ls.len() > 0 && trim(ls[0]).len() > 0),
    ensures
        read_lines(st, ls) == (ImportFold { content: st.content + with_breaks(ls), ..st }),
    decreases ls.len(),
{
    if ls.len() > 0 {
        assert(plain_line(ls[0]));
        let st1 = import_step(st, ls[0]);
        assert(st1 == (ImportFold { content: st.content + ls[0] + seq!['\n'], ..st }));
        assert forall|i: int| 0 <= i < ls.skip(1).len() implies plain_line(#[trigger] ls.skip(1)[i]) by {
            assert(ls.skip(1)[i] == ls[i + 1]);
        }
        lemma_read_text(st1, ls.skip(1));
        assert(st.content + ls[0] + seq!['\n'] + with_breaks(ls.skip(1)) =~= st.content + with_breaks(ls));
    } else {
        assert(st.content + with_breaks(ls) =~= st.content);
    }
}

/// The memories an import state holds once the one being read is stored.
pub open spec fn settled(st: ImportFold) -> Seq<ImportView> {
    if can_flush(st) {
        flushed(st).entries
    } else {
        st.entries
    }
}

/// Between memories, or inside one that has text.
pub open spec fn normal(st: ImportFold) -> bool {
    (!st.in_entry && st.content.len() == 0 && st.tags.len() == 0) || can_flush(st)
}

/// A fresh state with memories `es` found and type `ty`, inside a memory or not.
pub open spec fn fresh(es: Seq<ImportView>, ty: MemoryType, in_entry: bool) -> ImportFold {
    ImportFold { entries: es, ty, content: seq![], tags: seq![], in_entry }
}

proof fn lemma_trim_empty()
    ensures
        trim(Seq::<char>::empty()) == Seq::<char>::empty(),
{
    lemma_lead_ws(Seq::<char>::empty(), 0);
    lemma_trail_ws(Seq::<char>::empty(), 0);
    assert(Seq::<char>::empty().skip(0) =~= Seq::<char>::empty());
    assert(Seq::<char>::empty().take(0) =~= Seq::<char>::empty());
}

proof fn lemma_literals()
    ensures
        "## "@ == seq!['#', '#', ' '],
        "### "@ == seq!['#', '#', '#', ' '],
        "Tags:"@ == seq!['T', 'a', 'g', 's', ':'],
        "Scope:"@ == seq!['S', 'c', 'o', 'p', 'e', ':'],
        "---"@ == seq!['-', '-', '-'],
        "Tags: "@ == seq!['T', 'a', 'g', 's', ':', ' '],
        "Scope: "@ == seq!['S', 'c', 'o', 'p', 'e', ':', ' '],
        "# Memories"@ == seq!['#', ' ', 'M', 'e', 'm', 'o', 'r', 'i', 'e', 's'],
        !is_ws('#') && !is_ws('T') && !is_ws('S') && !is_ws(':') && !is_ws('-') && is_ws(' ')
            && is_ws('\n'),
{
    reveal_strlit("## ");
    reveal_strlit("### ");
    reveal_strlit("Tags:");
    reveal_strlit("Scope:");
    reveal_strlit("---");
    reveal_strlit("Tags: ");
    reveal_strlit("Scope: ");
    reveal_strlit("# Memories");
    assert("## "@ =~= seq!['#', '#', ' ']);
    assert("### "@ =~= seq!['#', '#', '#', ' ']);
    assert("Tags:"@ =~= seq!['T', 'a', 'g', 's', ':']);
    assert("Scope:"@ =~= seq!['S', 'c', 'o', 'p', 'e', ':']);
    assert("---"@ =~= seq!['-', '-', '-']);
    assert("Tags: "@ =~= seq!['T', 'a', 'g', 's', ':', ' ']);
    assert("Scope: "@ =~= seq!['S', 'c', 'o', 'p', 'e', ':', ' ']);
    assert("# Memories"@ =~= seq!['#', ' ', 'M', 'e', 'm', 'o', 'r', 'i', 'e', 's']);
}

/// A blank line changes nothing outside a memory or before its text.
proof fn lemma_step_blank(st: ImportFold)
    requires
        !(st.in_entry && st.content.len() > 0),
    ensures
        import_step(st, Seq::<char>::empty()) == st,
{
    lemma_trim_empty();
    lemma_literals();
}

/// A blank line inside a memory's text adds a line break.
proof fn lemma_step_blank_text(st: ImportFold)
    requires
        st.in_entry,
        st.content.len() > 0,
    ensures
        import_step(st, Seq::<char>::empty()) == (ImportFold { content: st.content + seq!['\n'], ..st }),
{
    lemma_trim_empty();
    lemma_literals();
    assert(st.content + Seq::<char>::empty() + seq!['\n'] =~= st.content + seq!['\n']);
}

/// A `---` rule changes nothing.
proof fn lemma_step_rule(st: ImportFold)
    ensures
        import_step(st, "---"@) == st,
{
    lemma_literals();
    lemma_trim_fixed("---"@);
}

/// A line starting `Scope:` changes nothing.
proof fn lemma_step_scope(st: ImportFold, x: Seq<char>)
    requires
        x.len() >= 6,
        x.take(6) == "Scope:"@,
    ensures
        import_step(st, x) == st,
{
    lemma_literals();
    assert(x[0] == 'S' && x[5] == ':');
    lemma_trim_keeps_prefix(x, 6);
    let t = trim(x);
    assert(t.take(6) == "Scope:"@);
    assert(t[0] == 'S');
    assert(starts_with(t, "Scope:"@));
}

/// A `### ` title line stores the memory being read and opens a new one.
proof fn lemma_step_title(st: ImportFold, title: Seq<char>)
    requires
        normal(st),
        title.len() > 0,
        !is_ws(title[0]),
    ensures
        import_step(st, "### "@ + title) == fresh(settled(st), st.ty, true),
{
    lemma_literals();
    let x = "### "@ + title;
    assert(x[4] == title[0]);
    lemma_trim_keeps_prefix(x, 5);
    let t = trim(x);
    assert(t.take(5) == x.take(5));
    assert(t.take(4) =~= "### "@);
    assert(t[2] == '#');
    assert(!starts_with(t, "## "@));
    if !can_flush(st) {
        assert(st.content =~= Seq::<char>::empty());
        assert(st.tags =~= Seq::<Seq<char>>::empty());
    }
}

/// The `## ` heading of a type stores the memory being read and switches to that type.
proof fn lemma_step_heading(st: ImportFold, t: MemoryType)
    requires
        normal(st),
    ensures
        import_step(st, "## "@ + memory_heading(t)) == fresh(settled(st), t, false),
{
    lemma_literals();
    reveal_strlit("About the User");
    reveal_strlit("Preferences & Feedback");
    reveal_strlit("Project Context");
    reveal_strlit("References");
    let h = memory_heading(t);
    let x = "## "@ + h;
    assert(h.len() > 3 && !is_ws(h[0]) && !is_ws(h.last()) && h[0] != '#');
    assert(x.last() == h.last());
    lemma_trim_fixed(x);
    assert(x.skip(3) =~= h);
    assert(x.take(3) =~= "## "@);
    assert(!starts_with(h, "## "@));
    assert(crate::plan::trim_start_matches(x, "## "@) == crate::plan::trim_start_matches(h, "## "@));
    lemma_trim_fixed(h);
    assert(heading_type(h) == t);
    if !can_flush(st) {
        assert(st.content =~= Seq::<char>::empty());
        assert(st.tags =~= Seq::<Seq<char>>::empty());
    }
}

/// Text without a comma is one piece.
proof fn lemma_split_none(b: Seq<char>)
    requires
        !has_char(b, ','),
    ensures
        split_char(b, ',') == seq![b],
{
    lemma_first_index_bound(b, ',');
    if first_index(b, ',') < b.len() {
        assert(b[first_index(b, ',') as int] == ',');
    }
}

proof fn lemma_split_append(a: Seq<char>, b: Seq<char>)
    requires
        !has_char(b, ','),
    ensures
        split_char(a + seq![','] + b, ',') == split_char(a, ',') + seq![b],
    decreases a.len(),
{
    let s = a + seq![','] + b;
    let i = first_index(a, ',');
    lemma_first_index_bound(a, ',');
    if i < a.len() {
        assert forall|j: int| 0 <= j < i implies #[trigger] s[j] != ',' by {
            assert(s[j] == a[j]);
        }
        assert(s[i as int] == a[i as int]);
        lemma_first_index(s, ',', i as int);
        assert(s.take(i as int) =~= a.take(i as int));
        let ra = a.skip(i as int + 1);
        assert(s.skip(i as int + 1) =~= ra + seq![','] + b);
        lemma_split_append(ra, b);
        assert(split_char(s, ',') =~= split_char(a, ',') + seq![b]);
    } else {
        assert forall|j: int| 0 <= j < a.len() implies #[trigger] s[j] != ',' by {
            assert(s[j] == a[j]);
        }
        assert(s[a.len() as int] == ',');
        lemma_first_index(s, ',', a.len() as int);
        assert(s.take(a.len() as int) =~= a);
        assert(s.skip(a.len() as int + 1) =~= b);
        lemma_split_none(b);
        assert(split_char(a, ',') == seq![a]);
        assert(split_char(s, ',') =~= split_char(a, ',') + seq![b]);
    }
}

/// A tag as it stands in a `Tags:` line: not empty, trimmed, without commas or line breaks.
pub open spec fn plain_tag(t: Seq<char>) -> bool {
    t.len() > 0 && !is_ws(t[0]) && !is_ws(t.last()) && !has_char(t, ',') && !has_char(t, '\n')
}

proof fn lemma_split_join(tags: Seq<Seq<char>>)
    requires
        tags.len() > 0,
        forall|i: int| 0 <= i < tags.len() ==> plain_tag(#[trigger] tags[i]),
    ensures
        split_char(seq![' '] + join(tags, ", "@), ',') == Seq::new(
            tags.len(),
            |i: int| seq![' '] + tags[i],
        ),
    decreases tags.len(),
{
    reveal_strlit(", ");
    assert(", "@ =~= seq![',', ' ']);
    let last = tags.last();
    assert(plain_tag(tags[tags.len() - 1]));
    if !(!has_char(seq![' '] + last, ',')) {
        let j = choose|j: int| 0 <= j < (seq![' '] + last).len() && (seq![' '] + last)[j] == ',';
        assert(j > 0 && last[j - 1] == ',');
    }
    if tags.len() == 1 {
        lemma_split_none(seq![' '] + last);
        assert(split_char(seq![' '] + join(tags, ", "@), ',') =~= Seq::new(
            tags.len(),
            |i: int| seq![' '] + tags[i],
        ));
    } else {
        let init = tags.drop_last();
        assert forall|i: int| 0 <= i < init.len() implies plain_tag(#[trigger] init[i]) by {
            assert(init[i] == tags[i]);
        }
        lemma_split_join(init);
        let a = seq![' '] + join(init, ", "@);
        assert(seq![' '] + join(tags, ", "@) =~= a + seq![','] + (seq![' '] + last));
        lemma_split_append(a, seq![' '] + last);
        assert(split_char(seq![' '] + join(tags, ", "@), ',') =~= Seq::new(
            tags.len(),
            |i: int| seq![' '] + tags[i],
        ));
    }
}

proof fn lemma_trimmed_pieces(tags: Seq<Seq<char>>)
    requires
        forall|i: int| 0 <= i < tags.len() ==> plain_tag(#[trigger] tags[i]),
    ensures
        crate::memory::nonempty_trimmed(Seq::new(tags.len(), |i: int| seq![' '] + tags[i])) == tags,
    decreases tags.len(),
{
    let ps = Seq::new(tags.len(), |i: int| seq![' '] + tags[i]);
    if tags.len() > 0 {
        let init = tags.drop_last();
        assert forall|i: int| 0 <= i < init.len() implies plain_tag(#[trigger] init[i]) by {
            assert(init[i] == tags[i]);
        }
        lemma_trimmed_pieces(init);
        assert(ps.drop_last() =~= Seq::new(init.len(), |i: int| seq![' '] + init[i]));
        assert(plain_tag(tags[tags.len() - 1]));
        lemma_trim_space_before(tags.last());
        assert(ps.last() == seq![' '] + tags.last());
        assert(crate::memory::nonempty_trimmed(ps) =~= tags);
    } else {
        assert(ps =~= Seq::<Seq<char>>::empty());
        assert(tags =~= Seq::<Seq<char>>::empty());
    }
}

proof fn lemma_join_last(ls: Seq<Seq<char>>, sep: Seq<char>)
    requires
        ls.len() > 0,
        ls.last().len() > 0,
    ensures
        join(ls, sep).len() > 0,
        join(ls, sep).last() == ls.last().last(),
{
}

/// A `Tags:` line reads back as the tags it lists.
proof fn lemma_step_tags(st: ImportFold, tags: Seq<Seq<char>>)
    requires
        tags.len() > 0,
        forall|i: int| 0 <= i < tags.len() ==> plain_tag(#[trigger] tags[i]),
    ensures
        import_step(st, "Tags: "@ + join(tags, ", "@)) == (ImportFold { tags, ..st }),
{
    lemma_literals();
    let j = join(tags, ", "@);
    let x = "Tags: "@ + j;
    assert(plain_tag(tags[tags.len() - 1]));
    lemma_join_last(tags, ", "@);
    assert(x.last() == j.last());
    lemma_trim_fixed(x);
    assert(x.take(5) =~= "Tags:"@);
    assert(x.skip(5) =~= seq![' '] + j);
    assert(!starts_with(seq![' '] + j, "Tags:"@)) by {
        assert((seq![' '] + j)[0] == ' ');
    }
    assert(starts_with(x, "Tags:"@));
    assert(crate::plan::trim_start_matches(seq![' '] + j, "Tags:"@) == seq![' '] + j);
    assert(crate::plan::trim_start_matches(x, "Tags:"@) == crate::plan::trim_start_matches(
        x.skip(5),
        "Tags:"@,
    ));
    assert(crate::plan::trim_start_matches(x, "Tags:"@) == seq![' '] + j);
    lemma_split_join(tags);
    lemma_trimmed_pieces(tags);
    assert(tag_list(x) == tags);
    assert(x[0] == 'T');
}

/// A memory the export writes so that the import reads it back as it was:
/// its text is not empty, begins and ends with a non-space, holds no `\r`,
/// and none of its lines is one the import takes for structure (see
/// `plain_line`); its tags are plain (see `plain_tag`); its source, update
/// time and agent id hold no line break.
pub open spec fn exportable(e: ExportEntry) -> bool {
    let c = e.content@;
    &&& c.len() > 0 && !is_ws(c[0]) && !is_ws(c.last())
    &&& !has_char(c, '\r')
    &&& forall|i: int| 0 <= i < lines(c).len() ==> plain_line(#[trigger] lines(c)[i])
    &&& forall|i: int| 0 <= i < strs_of(e.tags@).len() ==> plain_tag(#[trigger] strs_of(e.tags@)[i])
    &&& !has_char(e.source@, '\n')
    &&& !has_char(e.updated_at@, '\n')
    &&& match e.scope {
        MemoryScope::Agent { id } => !has_char(id@, '\n'),
        MemoryScope::Global => true,
    }
}

/// The state after reading one exported memory: its text (with the blank
/// lines that follow it) being read, its tags set.
pub open spec fn after_entry(st: ImportFold, e: ExportEntry) -> ImportFold {
    ImportFold {
        entries: settled(st),
        ty: st.ty,
        content: e.content@ + seq!['\n', '\n', '\n'],
        tags: strs_of(e.tags@),
        in_entry: true,
    }
}

proof fn lemma_no_break_concat(a: Seq<char>, b: Seq<char>)
    requires
        !has_char(a, '\n'),
        !has_char(b, '\n'),
    ensures
        !has_char(a + b, '\n'),
{
    if has_char(a + b, '\n') {
        let j = choose|j: int| 0 <= j < (a + b).len() && (a + b)[j] == '\n';
        if j < a.len() {
            assert(a[j] == '\n');
        } else {
            assert(b[j - a.len()] == '\n');
        }
    }
}

proof fn lemma_lit_no_break(s: Seq<char>)
    requires
        forall|j: int| 0 <= j < s.len() ==> #[trigger] s[j] != '\n',
    ensures
        !has_char(s, '\n'),
{
}

proof fn lemma_scope_line_lines(e: ExportEntry)
    requires
        exportable(e),
    ensures
        ({
            let x = scope_line(e).take(scope_line(e).len() - 2);
            &&& lines(scope_line(e)) == seq![strip_cr(x), Seq::<char>::empty()]
            &&& strip_cr(x).len() >= 6
            &&& strip_cr(x).take(6) == "Scope:"@
        }),
{
    lemma_literals();
    reveal_strlit(" | Source: ");
    reveal_strlit(" | Updated: ");
    reveal_strlit("\n\n");
    reveal_strlit("\n");
    reveal_strlit("global");
    reveal_strlit("agent:");
    let label = scope_label(e.scope);
    let x = "Scope: "@ + label + " | Source: "@ + e.source@ + " | Updated: "@ + e.updated_at@;
    assert(scope_line(e) =~= x + seq!['\n'] + seq!['\n']);
    assert(scope_line(e).take(scope_line(e).len() - 2) =~= x);
    lemma_lit_no_break("Scope: "@);
    lemma_lit_no_break(" | Source: "@);
    lemma_lit_no_break(" | Updated: "@);
    match e.scope {
        MemoryScope::Global => {
            lemma_lit_no_break("global"@);
        },
        MemoryScope::Agent { id } => {
            lemma_lit_no_break("agent:"@);
            lemma_no_break_concat("agent:"@, id@);
        },
    }
    lemma_no_break_concat("Scope: "@, label);
    lemma_no_break_concat("Scope: "@ + label, " | Source: "@);
    lemma_no_break_concat("Scope: "@ + label + " | Source: "@, e.source@);
    lemma_no_break_concat("Scope: "@ + label + " | Source: "@ + e.source@, " | Updated: "@);
    lemma_no_break_concat("Scope: "@ + label + " | Source: "@ + e.source@ + " | Updated: "@, e.updated_at@);
    assert("\n"@ =~= seq!['\n']);
    lemma_lines_one(x);
    lemma_lines_concat(x + seq!['\n'], seq!['\n']);
    lemma_lines_one(Seq::<char>::empty());
    assert(Seq::<char>::empty() + "\n"@ =~= seq!['\n']);
    assert(strip_cr(Seq::<char>::empty()) =~= Seq::<char>::empty());
    assert(x + "\n"@ =~= x + seq!['\n']);
    assert(lines(scope_line(e)) =~= seq![strip_cr(x), Seq::<char>::empty()]);
    assert(x.len() >= 7);
    assert(strip_cr(x).take(6) =~= "Scope:"@);
}

proof fn lemma_tail_lines()
    ensures
        lines("\n\n---\n\n"@.skip(1)) == seq![Seq::<char>::empty(), "---"@, Seq::<char>::empty()],
        "\n\n---\n\n"@ == seq!['\n'] + "\n\n---\n\n"@.skip(1),
{
    lemma_literals();
    reveal_strlit("\n\n---\n\n");
    let t = "\n\n---\n\n"@.skip(1);
    assert(t =~= seq!['\n'] + (seq!['-', '-', '-', '\n'] + seq!['\n']));
    lemma_lines_one(Seq::<char>::empty());
    lemma_lines_one(seq!['-', '-', '-']);
    reveal_strlit("\n");
    assert("\n"@ =~= seq!['\n']);
    assert(Seq::<char>::empty() + "\n"@ =~= seq!['\n']);
    assert(seq!['-', '-', '-'] + "\n"@ =~= seq!['-', '-', '-', '\n']);
    assert(strip_cr(Seq::<char>::empty()) =~= Seq::<char>::empty());
    assert(strip_cr(seq!['-', '-', '-']) =~= seq!['-', '-', '-']);
    lemma_lines_concat(seq!['-', '-', '-', '\n'], seq!['\n']);
    lemma_lines_concat(seq!['\n'], seq!['-', '-', '-', '\n'] + seq!['\n']);
    assert(lines(t) =~= seq![Seq::<char>::empty(), "---"@, Seq::<char>::empty()]);
    assert("\n\n---\n\n"@ =~= seq!['\n'] + t);
}

/// The lines of an exported memory, piece by piece.
proof fn lemma_entry_lines(e: ExportEntry)
    requires
        exportable(e),
    ensures
        lines(entry_text(e)) == lines(title_line(e.content@)) + (lines(tags_text(strs_of(e.tags@))) + (
        lines(scope_line(e)) + (lines(e.content@ + seq!['\n']) + lines("\n\n---\n\n"@.skip(1))))),
{
    reveal_strlit("\n");
    reveal_strlit("\n\n");
    assert("\n"@ =~= seq!['\n']);
    assert("\n\n"@ =~= seq!['\n', '\n']);
    let c = e.content@;
    let a = title_line(c);
    let b = tags_text(strs_of(e.tags@));
    let d = scope_line(e);
    lemma_tail_lines();
    let tail = "\n\n---\n\n"@.skip(1);
    let cn = c + seq!['\n'];
    assert(entry_text(e) =~= a + (b + (d + (cn + tail))));
    lemma_lines_concat(cn, tail);
    assert(d.last() == '\n');
    lemma_lines_concat(d, cn + tail);
    assert(a.last() == '\n');
    if b.len() > 0 {
        assert(b.last() == '\n');
        lemma_lines_concat(b, d + (cn + tail));
    } else {
        assert(b + (d + (cn + tail)) =~= d + (cn + tail));
        assert(lines(b) =~= Seq::<Seq<char>>::empty());
        assert(lines(b) + lines(d + (cn + tail)) =~= lines(d + (cn + tail)));
    }
    lemma_lines_concat(a, b + (d + (cn + tail)));
}

proof fn lemma_read_title(st: ImportFold, e: ExportEntry)
    requires
        normal(st),
        exportable(e),
    ensures
        read_lines(st, lines(title_line(e.content@))) == fresh(settled(st), st.ty, true),
{
    lemma_literals();
    reveal_strlit("\n");
    assert("\n"@ =~= seq!['\n']);
    let c = e.content@;
    lemma_first_line(c);
    let title = lines(c)[0];
    let a0 = "### "@ + title;
    lemma_lit_no_break("### "@);
    lemma_no_break_concat("### "@, title);
    lemma_lines_one(a0);
    assert(a0.last() == title.last());
    if title.last() == '\r' {
        assert(has_char(title, '\r'));
    }
    assert(strip_cr(a0) == a0);
    assert(title_line(c) =~= a0 + "\n"@);
    lemma_step_title(st, title);
    assert(seq![a0].skip(1) =~= Seq::<Seq<char>>::empty());
    assert(read_lines(st, seq![a0]) == read_lines(import_step(st, a0), seq![a0].skip(1)));
}

proof fn lemma_read_tags(s1: ImportFold, e: ExportEntry)
    requires
        exportable(e),
        s1.tags.len() == 0,
    ensures
        read_lines(s1, lines(tags_text(strs_of(e.tags@)))) == (ImportFold { tags: strs_of(e.tags@), ..s1 }),
{
    lemma_literals();
    reveal_strlit("\n");
    assert("\n"@ =~= seq!['\n']);
    let tags = strs_of(e.tags@);
    let b = tags_text(tags);
    if tags.len() > 0 {
        let j = join(tags, ", "@);
        let b0 = "Tags: "@ + j;
        assert(b =~= b0 + "\n"@);
        lemma_join_no_break(tags);
        assert(!has_char(b0, '\n')) by {
            if has_char(b0, '\n') {
                let k = choose|k: int| 0 <= k < b0.len() && b0[k] == '\n';
                assert(k >= 6);
                assert(j[k - 6] == '\n');
            }
        }
        lemma_lines_one(b0);
        assert(plain_tag(tags[tags.len() - 1]));
        lemma_join_last(tags, ", "@);
        assert(b0.last() == j.last());
        assert(strip_cr(b0) == b0);
        lemma_step_tags(s1, tags);
        assert(seq![b0].skip(1) =~= Seq::<Seq<char>>::empty());
        assert(read_lines(s1, seq![b0]) == read_lines(import_step(s1, b0), seq![b0].skip(1)));
        assert(lines(b) =~= seq![b0]);
    } else {
        assert(tags =~= Seq::<Seq<char>>::empty());
        assert(s1.tags =~= Seq::<Seq<char>>::empty());
        assert(lines(b) =~= Seq::<Seq<char>>::empty());
    }
}

proof fn lemma_read_scope(s2: ImportFold, e: ExportEntry)
    requires
        exportable(e),
        s2.in_entry,
        s2.content.len() == 0,
    ensures
        read_lines(s2, lines(scope_line(e))) == s2,
{
    let d = scope_line(e);
    lemma_scope_line_lines(e);
    let x = d.take(d.len() - 2);
    lemma_step_scope(s2, strip_cr(x));
    lemma_step_blank(s2);
    let ld = lines(d);
    assert(ld.skip(1) =~= seq![Seq::<char>::empty()]);
    assert(ld.skip(1).skip(1) =~= Seq::<Seq<char>>::empty());
    assert(ld[0] == strip_cr(x));
    assert(ld.skip(1)[0] == Seq::<char>::empty());
    assert(read_lines(s2, ld.skip(1).skip(1)) == s2);
    assert(read_lines(s2, ld.skip(1)) == read_lines(import_step(s2, Seq::<char>::empty()), ld.skip(1).skip(1)));
    assert(read_lines(s2, ld) == read_lines(import_step(s2, strip_cr(x)), ld.skip(1)));
}

proof fn lemma_read_body(s2: ImportFold, e: ExportEntry)
    requires
        exportable(e),
        s2.in_entry,
        s2.content.len() == 0,
    ensures
        read_lines(s2, lines(e.content@ + seq!['\n']) + lines("\n\n---\n\n"@.skip(1)))
            == (ImportFold { content: e.content@ + seq!['\n', '\n', '\n'], ..s2 }),
{
    let c = e.content@;
    let cn = c + seq!['\n'];
    lemma_tail_lines();
    let tail = "\n\n---\n\n"@.skip(1);
    lemma_read_concat(s2, lines(cn), lines(tail));
    lemma_lines_final_break(c);
    lemma_first_line(c);
    let title = lines(c)[0];
    assert(trim(title).len() > 0) by {
        lemma_trim_keeps_prefix(title, 1);
    }
    lemma_read_text(s2, lines(c));
    lemma_lines_with_breaks(c);
    let s3 = ImportFold { content: cn, ..s2 };
    assert(s2.content + with_breaks(lines(c)) =~= cn);
    assert(read_lines(s2, lines(cn)) == s3);
    lemma_step_blank_text(s3);
    let s4 = ImportFold { content: cn + seq!['\n'], ..s3 };
    lemma_step_rule(s4);
    lemma_step_blank_text(s4);
    let lt = lines(tail);
    assert(lt.skip(1) =~= seq!["---"@, Seq::<char>::empty()]);
    assert(lt.skip(1).skip(1) =~= seq![Seq::<char>::empty()]);
    assert(lt.skip(1).skip(1).skip(1) =~= Seq::<Seq<char>>::empty());
    let s5 = ImportFold { content: cn + seq!['\n'] + seq!['\n'], ..s4 };
    assert(read_lines(s5, lt.skip(1).skip(1).skip(1)) == s5);
    assert(read_lines(s4, lt.skip(1).skip(1)) == read_lines(import_step(s4, Seq::<char>::empty()), lt.skip(1).skip(1).skip(1)));
    assert(read_lines(s4, lt.skip(1)) == read_lines(import_step(s4, "---"@), lt.skip(1).skip(1)));
    assert(read_lines(s3, lt) == read_lines(import_step(s3, Seq::<char>::empty()), lt.skip(1)));
    assert(cn + seq!['\n'] + seq!['\n'] =~= c + seq!['\n', '\n', '\n']);
}

/// One exported memory reads back: the memory read before is stored, and
/// this one's text and tags are being read.
proof fn lemma_read_entry(st: ImportFold, e: ExportEntry)
    requires
        normal(st),
        exportable(e),
    ensures
        read_lines(st, lines(entry_text(e))) == after_entry(st, e),
{
    let c = e.content@;
    let la = lines(title_line(c));
    let lb = lines(tags_text(strs_of(e.tags@)));
    let ld = lines(scope_line(e));
    let lrest = lines(c + seq!['\n']) + lines("\n\n---\n\n"@.skip(1));
    lemma_entry_lines(e);
    lemma_read_concat(st, la, lb + (ld + lrest));
    lemma_read_title(st, e);
    let s1 = fresh(settled(st), st.ty, true);
    lemma_read_concat(s1, lb, ld + lrest);
    lemma_read_tags(s1, e);
    let s2 = ImportFold { tags: strs_of(e.tags@), ..s1 };
    lemma_read_concat(s2, ld, lrest);
    lemma_read_scope(s2, e);
    lemma_read_body(s2, e);
}

proof fn lemma_join_no_break(tags: Seq<Seq<char>>)
    requires
        forall|i: int| 0 <= i < tags.len() ==> plain_tag(#[trigger] tags[i]),
    ensures
        !has_char(join(tags, ", "@), '\n'),
    decreases tags.len(),
{
    reveal_strlit(", ");
    if tags.len() > 1 {
        let init = tags.drop_last();
        assert forall|i: int| 0 <= i < init.len() implies plain_tag(#[trigger] init[i]) by {
            assert(init[i] == tags[i]);
        }
        lemma_join_no_break(init);
        assert(plain_tag(tags[tags.len() - 1]));
        lemma_lit_no_break(", "@);
        lemma_no_break_concat(join(init, ", "@), ", "@);
        lemma_no_break_concat(join(init, ", "@) + ", "@, tags.last());
    } else if tags.len() == 1 {
        assert(plain_tag(tags[0]));
    }
}

/// The memories as the import reads them, typed `ty`.
pub open spec fn views_as(es: Seq<ExportEntry>, ty: MemoryType) -> Seq<ImportView> {
    Seq::new(es.len(), |i: int| ImportView { ty, content: es[i].content@, tags: strs_of(es[i].tags@) })
}

/// What an export holds, as the import reads it: the user, feedback, project
/// and reference memories, in that order, each group in its original order.
pub open spec fn export_views(es: Seq<ExportEntry>) -> Seq<ImportView> {
    views_as(export_of_type(es, MemoryType::User), MemoryType::User) + views_as(
        export_of_type(es, MemoryType::Feedback),
        MemoryType::Feedback,
    ) + views_as(export_of_type(es, MemoryType::Project), MemoryType::Project) + views_as(
        export_of_type(es, MemoryType::Reference),
        MemoryType::Reference,
    )
}

proof fn lemma_entry_text_ends(e: ExportEntry)
    ensures
        entry_text(e).len() > 0,
        entry_text(e).last() == '\n',
{
    reveal_strlit("\n\n---\n\n");
}

proof fn lemma_entries_text_ends(es: Seq<ExportEntry>)
    ensures
        entries_text(es).len() > 0 ==> entries_text(es).last() == '\n',
    decreases es.len(),
{
    if es.len() > 0 {
        lemma_entry_text_ends(es.last());
    }
}

proof fn lemma_after_entry(st: ImportFold, e: ExportEntry)
    requires
        exportable(e),
    ensures
        normal(after_entry(st, e)),
        after_entry(st, e).ty == st.ty,
        settled(after_entry(st, e)) == settled(st).push(
            ImportView { ty: st.ty, content: e.content@, tags: strs_of(e.tags@) },
        ),
{
    let c = e.content@;
    let w = seq!['\n', '\n', '\n'];
    assert forall|j: int| 0 <= j < w.len() implies is_ws(#[trigger] w[j]) by {
        lemma_literals();
    }
    lemma_trim_padded(c, w);
}

/// Exported memories of one type read back one after the other.
proof fn lemma_read_entries(st: ImportFold, es: Seq<ExportEntry>)
    requires
        normal(st),
        forall|i: int| 0 <= i < es.len() ==> exportable(#[trigger] es[i]),
    ensures
        normal(read_lines(st, lines(entries_text(es)))),
        read_lines(st, lines(entries_text(es))).ty == st.ty,
        settled(read_lines(st, lines(entries_text(es)))) == settled(st) + views_as(es, st.ty),
    decreases es.len(),
{
    if es.len() == 0 {
        assert(lines(Seq::<char>::empty()) =~= Seq::<Seq<char>>::empty());
        assert(settled(st) + views_as(es, st.ty) =~= settled(st));
    } else {
        let init = es.drop_last();
        let e = es.last();
        assert forall|i: int| 0 <= i < init.len() implies exportable(#[trigger] init[i]) by {
            assert(init[i] == es[i]);
        }
        assert(exportable(es[es.len() - 1]));
        lemma_read_entries(st, init);
        let s1 = read_lines(st, lines(entries_text(init)));
        lemma_entries_text_ends(init);
        if entries_text(init).len() > 0 {
            lemma_lines_concat(entries_text(init), entry_text(e));
        } else {
            assert(entries_text(init) + entry_text(e) =~= entry_text(e));
            assert(lines(entries_text(init)) =~= Seq::<Seq<char>>::empty());
            assert(lines(entries_text(init)) + lines(entry_text(e)) =~= lines(entry_text(e)));
        }
        lemma_read_concat(st, lines(entries_text(init)), lines(entry_text(e)));
        lemma_read_entry(s1, e);
        lemma_after_entry(s1, e);
        assert(settled(st) + views_as(es, st.ty) =~= (settled(st) + views_as(init, st.ty)).push(
            ImportView { ty: st.ty, content: e.content@, tags: strs_of(e.tags@) },
        ));
    }
}

proof fn lemma_of_type_exportable(es: Seq<ExportEntry>, t: MemoryType)
    requires
        forall|i: int| 0 <= i < es.len() ==> exportable(#[trigger] es[i]),
    ensures
        forall|i: int| 0 <= i < export_of_type(es, t).len() ==> exportable(#[trigger] export_of_type(es, t)[i]),
    decreases es.len(),
{
    if es.len() > 0 {
        let init = es.drop_last();
        assert forall|i: int| 0 <= i < init.len() implies exportable(#[trigger] init[i]) by {
            assert(init[i] == es[i]);
        }
        lemma_of_type_exportable(init, t);
        assert(exportable(es[es.len() - 1]));
        let r = export_of_type(es, t);
        let ri = export_of_type(init, t);
        assert forall|i: int| 0 <= i < r.len() implies exportable(#[trigger] r[i]) by {
            if i < ri.len() {
                assert(r[i] == ri[i]);
            } else {
                assert(r[i] == es.last());
            }
        }
    }
}

proof fn lemma_section_head(st: ImportFold, t: MemoryType)
    requires
        normal(st),
    ensures
        ({
            let head = "## "@ + memory_heading(t) + seq!['\n', '\n'];
            &&& head.last() == '\n'
            &&& read_lines(st, lines(head)) == fresh(settled(st), t, false)
        }),
{
    lemma_literals();
    reveal_strlit("\n");
    reveal_strlit("About the User");
    reveal_strlit("Preferences & Feedback");
    reveal_strlit("Project Context");
    reveal_strlit("References");
    assert("\n"@ =~= seq!['\n']);
    let h = "## "@ + memory_heading(t);
    lemma_lit_no_break(h);
    lemma_lines_one(h);
    lemma_lines_one(Seq::<char>::empty());
    assert(strip_cr(Seq::<char>::empty()) =~= Seq::<char>::empty());
    assert(strip_cr(h) == h);
    let head = h + seq!['\n', '\n'];
    assert(head =~= (h + seq!['\n']) + seq!['\n']);
    assert(Seq::<char>::empty() + "\n"@ =~= seq!['\n']);
    assert(h + "\n"@ =~= h + seq!['\n']);
    lemma_lines_concat(h + seq!['\n'], seq!['\n']);
    let lh = lines(head);
    assert(lh =~= seq![h, Seq::<char>::empty()]);
    lemma_step_heading(st, t);
    let s1 = fresh(settled(st), t, false);
    lemma_step_blank(s1);
    assert(lh.skip(1) =~= seq![Seq::<char>::empty()]);
    assert(lh.skip(1).skip(1) =~= Seq::<Seq<char>>::empty());
    assert(read_lines(s1, lh.skip(1).skip(1)) == s1);
    assert(read_lines(s1, lh.skip(1)) == read_lines(import_step(s1, Seq::<char>::empty()), lh.skip(1).skip(1)));
    assert(read_lines(st, lh) == read_lines(import_step(st, h), lh.skip(1)));
}

/// A section of the export reads back as its memories, typed by its heading.
proof fn lemma_read_section(st: ImportFold, es: Seq<ExportEntry>, t: MemoryType)
    requires
        normal(st),
        forall|i: int| 0 <= i < es.len() ==> exportable(#[trigger] es[i]),
    ensures
        normal(read_lines(st, lines(section_text(es, t)))),
        settled(read_lines(st, lines(section_text(es, t)))) == settled(st) + views_as(export_of_type(es, t), t),
{
    let te = export_of_type(es, t);
    lemma_of_type_exportable(es, t);
    if te.len() == 0 {
        assert(lines(Seq::<char>::empty()) =~= Seq::<Seq<char>>::empty());
        assert(settled(st) + views_as(te, t) =~= settled(st));
    } else {
        reveal_strlit("\n\n");
        assert("\n\n"@ =~= seq!['\n', '\n']);
        let head = "## "@ + memory_heading(t) + seq!['\n', '\n'];
        lemma_section_head(st, t);
        assert(section_text(es, t) =~= head + entries_text(te));
        lemma_lines_concat(head, entries_text(te));
        lemma_read_concat(st, lines(head), lines(entries_text(te)));
        let s1 = fresh(settled(st), t, false);
        assert(settled(s1) == settled(st));
        lemma_read_entries(s1, te);
    }
}

proof fn lemma_top_head()
    ensures
        ({
            let head = "# Memories"@ + seq!['\n', '\n'];
            &&& head.last() == '\n'
            &&& read_lines(import_start(), lines(head)) == import_start()
            &&& normal(import_start())
            &&& settled(import_start()) == Seq::<ImportView>::empty()
        }),
{
    lemma_literals();
    reveal_strlit("\n");
    assert("\n"@ =~= seq!['\n']);
    let st0 = import_start();
    let m = "# Memories"@;
    lemma_lit_no_break(m);
    lemma_lines_one(m);
    lemma_lines_one(Seq::<char>::empty());
    assert(strip_cr(m) == m);
    assert(strip_cr(Seq::<char>::empty()) =~= Seq::<char>::empty());
    assert(Seq::<char>::empty() + "\n"@ =~= seq!['\n']);
    lemma_trim_fixed(m);
    assert(!starts_with(m, "## "@) && !starts_with(m, "### "@) && !starts_with(m, "Tags:"@)) by {
        assert(m[1] == ' ' && m[0] == '#');
    }
    assert(import_step(st0, m) == st0);
    lemma_step_blank(st0);
    let head = m + seq!['\n', '\n'];
    assert(head =~= (m + seq!['\n']) + seq!['\n']);
    lemma_lines_concat(m + seq!['\n'], seq!['\n']);
    assert(m + "\n"@ =~= m + seq!['\n']);
    let lh = lines(head);
    assert(lh =~= seq![m, Seq::<char>::empty()]);
    assert(lh.skip(1) =~= seq![Seq::<char>::empty()]);
    assert(lh.skip(1).skip(1) =~= Seq::<Seq<char>>::empty());
    assert(read_lines(st0, lh.skip(1).skip(1)) == st0);
    assert(read_lines(st0, lh.skip(1)) == read_lines(import_step(st0, Seq::<char>::empty()), lh.skip(1).skip(1)));
    assert(read_lines(st0, lh) == read_lines(import_step(st0, m), lh.skip(1)));
    assert(settled(st0) =~= Seq::<ImportView>::empty());
}

proof fn lemma_export_empty()
    ensures
        settled(read_lines(import_start(), lines(export_text(Seq::<ExportEntry>::empty()))))
            == Seq::<ImportView>::empty(),
{
    lemma_literals();
    reveal_strlit("\n");
    reveal_strlit("# Memories\n\nNo memories stored.\n");
    reveal_strlit("No memories stored.");
    assert("\n"@ =~= seq!['\n']);
    let st0 = import_start();
    lemma_top_head();
    let head = "# Memories"@ + seq!['\n', '\n'];
    let n = "No memories stored."@;
    let md = export_text(Seq::<ExportEntry>::empty());
    assert(md =~= head + (n + seq!['\n']));
    lemma_lit_no_break(n);
    lemma_lines_one(n);
    assert(n + "\n"@ =~= n + seq!['\n']);
    assert(strip_cr(n) == n);
    lemma_lines_concat(head, n + seq!['\n']);
    lemma_read_concat(st0, lines(head), seq![n]);
    assert(n[0] == 'N' && n.last() == '.' && !is_ws('N') && !is_ws('.'));
    lemma_trim_fixed(n);
    assert(!starts_with(n, "## "@) && !starts_with(n, "### "@) && !starts_with(n, "Tags:"@)
        && !starts_with(n, "Scope:"@) && n != "---"@) by {
        assert(n[0] == 'N');
    }
    assert(import_step(st0, n) == st0);
    assert(seq![n].skip(1) =~= Seq::<Seq<char>>::empty());
    assert(read_lines(st0, seq![n]) == read_lines(import_step(st0, n), seq![n].skip(1)));
}

proof fn lemma_assoc5(a: Seq<char>, b: Seq<char>, c: Seq<char>, d: Seq<char>, e: Seq<char>)
    ensures
        a + b + c + d + e == a + (b + (c + (d + e))),
{
    assert(a + b + c + d + e =~= a + (b + (c + (d + e))));
}

proof fn lemma_export_shape(es: Seq<ExportEntry>)
    requires
        es.len() > 0,
    ensures
        export_text(es) == "# Memories"@ + seq!['\n', '\n'] + (section_text(es, MemoryType::User) + (
        section_text(es, MemoryType::Feedback) + (section_text(es, MemoryType::Project) + section_text(
            es,
            MemoryType::Reference,
        )))),
{
    reveal_strlit("# Memories\n\n");
    reveal_strlit("# Memories");
    assert("# Memories\n\n"@ =~= "# Memories"@ + seq!['\n', '\n']);
    lemma_assoc5(
        "# Memories\n\n"@,
        section_text(es, MemoryType::User),
        section_text(es, MemoryType::Feedback),
        section_text(es, MemoryType::Project),
        section_text(es, MemoryType::Reference),
    );
}

#[verifier::rlimit(40)]
proof fn lemma_export_lines(es: Seq<ExportEntry>)
    requires
        es.len() > 0,
    ensures
        lines(export_text(es)) == lines("# Memories"@ + seq!['\n', '\n']) + (lines(
            section_text(es, MemoryType::User),
        ) + (lines(section_text(es, MemoryType::Feedback)) + (lines(
            section_text(es, MemoryType::Project),
        ) + lines(section_text(es, MemoryType::Reference))))),
{
    lemma_top_head();
    let head = "# Memories"@ + seq!['\n', '\n'];
    let su = section_text(es, MemoryType::User);
    let sf = section_text(es, MemoryType::Feedback);
    let sp = section_text(es, MemoryType::Project);
    let sr = section_text(es, MemoryType::Reference);
    lemma_export_shape(es);
    lemma_section_ends(es, MemoryType::User);
    lemma_section_ends(es, MemoryType::Feedback);
    lemma_section_ends(es, MemoryType::Project);
    lemma_section_lines(sp, sr);
    lemma_section_lines(sf, sp + sr);
    lemma_section_lines(su, sf + (sp + sr));
    lemma_lines_concat(head, su + (sf + (sp + sr)));
}

proof fn lemma_export_sections(es: Seq<ExportEntry>)
    requires
        es.len() > 0,
        forall|i: int| 0 <= i < es.len() ==> exportable(#[trigger] es[i]),
    ensures
        settled(read_lines(import_start(), lines(export_text(es)))) == export_views(es),
{
    let st0 = import_start();
    lemma_top_head();
    lemma_export_lines(es);
    let lh = lines("# Memories"@ + seq!['\n', '\n']);
    let lu = lines(section_text(es, MemoryType::User));
    let lf = lines(section_text(es, MemoryType::Feedback));
    let lp = lines(section_text(es, MemoryType::Project));
    let lr = lines(section_text(es, MemoryType::Reference));
    lemma_read_concat(st0, lh, lu + (lf + (lp + lr)));
    lemma_read_concat(st0, lu, lf + (lp + lr));
    lemma_read_section(st0, es, MemoryType::User);
    let s1 = read_lines(st0, lu);
    lemma_read_concat(s1, lf, lp + lr);
    lemma_read_section(s1, es, MemoryType::Feedback);
    let s2 = read_lines(s1, lf);
    lemma_read_concat(s2, lp, lr);
    lemma_read_section(s2, es, MemoryType::Project);
    let s3 = read_lines(s2, lp);
    lemma_read_section(s3, es, MemoryType::Reference);
    let vu = views_as(export_of_type(es, MemoryType::User), MemoryType::User);
    let vf = views_as(export_of_type(es, MemoryType::Feedback), MemoryType::Feedback);
    let vp = views_as(export_of_type(es, MemoryType::Project), MemoryType::Project);
    let vr = views_as(export_of_type(es, MemoryType::Reference), MemoryType::Reference);
    assert(settled(st0) + vu =~= vu);
    assert(export_views(es) =~= vu + vf + vp + vr);
}

proof fn lemma_section_ends(es: Seq<ExportEntry>, t: MemoryType)
    ensures
        section_text(es, t).len() == 0 || section_text(es, t).last() == '\n',
{
    let te = export_of_type(es, t);
    if te.len() > 0 {
        lemma_entries_text_ends(te);
        lemma_entry_text_ends(te.last());
        assert(entries_text(te).len() > 0);
    }
}

/// Exporting memories and importing the export gives back each memory's
/// type, text and tags, grouped by type (user, feedback, project, reference)
/// and otherwise in order, for memories whose text and tags the export
/// writes unambiguously (see `exportable`).
pub proof fn lemma_export_then_import(es: Seq<ExportEntry>)
    requires
        forall|i: int| 0 <= i < es.len() ==> exportable(#[trigger] es[i]),
    ensures
        import_entries(export_text(es)) == export_views(es),
{
    let md = export_text(es);
    let ls = lines(md);
    lemma_fold_is_read(ls, ls.len() as int);
    assert(ls.take(ls.len() as int) =~= ls);
    if es.len() == 0 {
        lemma_export_empty();
        assert(es =~= Seq::<ExportEntry>::empty());
        assert(export_of_type(es, MemoryType::User) =~= Seq::<ExportEntry>::empty());
        assert(export_of_type(es, MemoryType::Feedback) =~= Seq::<ExportEntry>::empty());
        assert(export_of_type(es, MemoryType::Project) =~= Seq::<ExportEntry>::empty());
        assert(export_of_type(es, MemoryType::Reference) =~= Seq::<ExportEntry>::empty());
        assert(export_views(es) =~= Seq::<ImportView>::empty());
    } else {
        lemma_export_sections(es);
    }
}

/// A section is empty or ends with a line break, so its lines stand apart.
proof fn lemma_section_lines(a: Seq<char>, b: Seq<char>)
    requires
        a.len() == 0 || a.last() == '\n',
    ensures
        lines(a + b) == lines(a) + lines(b),
{
    if a.len() > 0 {
        lemma_lines_concat(a, b);
    } else {
        assert(a + b =~= b);
        assert(lines(a) =~= Seq::<Seq<char>>::empty());
        assert(lines(a) + lines(b) =~= lines(b));
    }
}

} // verus!
