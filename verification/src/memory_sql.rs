//! The SQL that reads stored memories: the type filter, and the queries that
//! list, count and summarize memories and fetch search hits, each with its
//! parameters in the order of its `?` marks.
use vstd::prelude::*;
use crate::memory::{memory_type_name, scope_condition, scope_where, MemoryScope, MemoryType};
use crate::text::{
    chars_of, extend_chars, extend_str, join, join_prefix, lemma_marks_concat, lemma_marks_split, lemma_no_marks,
    lemma_one_mark, marks, seqs_of, string_of,
};

verus! {

/// A value bound to a `?` of a query.
#[derive(Debug, Clone)]
pub enum SqlParam {
    Text(String),
    Int(i64),
}

pub enum SqlParamView {
    Text(Seq<char>),
    Int(i64),
}

impl View for SqlParam {
    type V = SqlParamView;

    open spec fn view(&self) -> SqlParamView {
        match self {
            SqlParam::Text(s) => SqlParamView::Text(s@),
            SqlParam::Int(i) => SqlParamView::Int(*i),
        }
    }
}

pub open spec fn params_view(v: Seq<SqlParam>) -> Seq<SqlParamView> {
    Seq::new(v.len(), |i: int| v[i]@)
}

/// `n` question marks separated by `sep`.
pub open spec fn placeholders(n: nat, sep: Seq<char>) -> Seq<char> {
    join(Seq::new(n, |i: int| "?"@), sep)
}

fn placeholders_exec(n: usize, sep: &str) -> (r: Vec<char>)
    ensures
        r@ == placeholders(n as nat, sep@),
{
    let mut pieces: Vec<Vec<char>> = Vec::new();
    let mut i: usize = 0;
    while i < n
        invariant
            i <= n,
            seqs_of(pieces@) == Seq::new(i as nat, |j: int| "?"@),
        decreases n - i,
    {
        let ghost p0 = seqs_of(pieces@);
        pieces.push(chars_of("?"));
        assert(seqs_of(pieces@) =~= p0.push("?"@));
        assert(seqs_of(pieces@) =~= Seq::new((i + 1) as nat, |j: int| "?"@));
        i += 1;
    }
    let r = join_prefix(&pieces, n, sep);
    assert(seqs_of(pieces@).take(n as int) =~= Seq::new(n as nat, |j: int| "?"@));
    r
}

fn push_param(v: &mut Vec<SqlParam>, p: SqlParam)
    ensures
        params_view(final(v)@) == params_view(old(v)@).push(p@),
{
    let ghost before = params_view(v@);
    v.push(p);
    assert(params_view(v@) =~= before.push(p@));
}

/// The parameter of a scope condition, if it has one.
pub open spec fn scope_params(p: Option<Seq<char>>) -> Seq<SqlParamView> {
    match p {
        Some(a) => seq![SqlParamView::Text(a)],
        None => seq![],
    }
}

/// The type names, as parameters.
pub open spec fn type_params(ts: Seq<MemoryType>) -> Seq<SqlParamView> {
    Seq::new(ts.len(), |i: int| SqlParamView::Text(memory_type_name(ts[i])))
}

/// The type condition: any type when no list or an empty list is given, else
/// `memory_type IN (?, …)` with one mark per listed type.
pub open spec fn type_condition(types: Option<Seq<MemoryType>>) -> Seq<char> {
    match types {
        Some(ts) => if ts.len() > 0 {
            "memory_type IN ("@ + placeholders(ts.len(), ", "@) + ")"@
        } else {
            "1=1"@
        },
        None => "1=1"@,
    }
}

/// The parameters of the type condition: the listed types' names.
pub open spec fn type_condition_params(types: Option<Seq<MemoryType>>) -> Seq<SqlParamView> {
    match types {
        Some(ts) => type_params(ts),
        None => seq![],
    }
}

pub open spec fn types_view(types: Option<Vec<MemoryType>>) -> Option<Seq<MemoryType>> {
    match types {
        Some(v) => Some(v@),
        None => None,
    }
}

fn type_condition_exec(types: &Option<Vec<MemoryType>>) -> (r: Vec<char>)
    ensures
        r@ == type_condition(types_view(*types)),
{
    match types {
        Some(ts) => if ts.len() > 0 {
            let mut v = chars_of("memory_type IN (");
            extend_chars(&mut v, placeholders_exec(ts.len(), ", ").as_slice());
            extend_str(&mut v, ")");
            v
        } else {
            chars_of("1=1")
        },
        None => chars_of("1=1"),
    }
}

fn push_scope(v: &mut Vec<SqlParam>, p: Option<String>)
    ensures
        params_view(final(v)@) == params_view(old(v)@) + scope_params(p.deep_view()),
{
    match p {
        Some(a) => {
            push_param(v, SqlParam::Text(a));
        },
        None => {
            assert(params_view(v@) + seq![] =~= params_view(v@));
        },
    }
}

fn push_types(v: &mut Vec<SqlParam>, types: &Option<Vec<MemoryType>>)
    ensures
        params_view(final(v)@) == params_view(old(v)@) + type_condition_params(types_view(*types)),
{
    match types {
        Some(ts) => {
            let ghost start = params_view(v@);
            let mut i: usize = 0;
            while i < ts.len()
                invariant
                    i <= ts@.len(),
                    params_view(v@) == start + type_params(ts@).take(i as int),
                decreases ts@.len() - i,
            {
                let name = ts[i].as_str();
                push_param(v, SqlParam::Text(string_of(chars_of(name).as_slice())));
                assert(type_params(ts@).take(i + 1) =~= type_params(ts@).take(i as int).push(
                    SqlParamView::Text(memory_type_name(ts@[i as int])),
                ));
                i += 1;
            }
            assert(type_params(ts@).take(ts@.len() as int) =~= type_params(ts@));
        },
        None => {
            assert(params_view(v@) + seq![] =~= params_view(v@));
        },
    }
}

/// The query listing memories of a scope and of the given types, pinned ones
/// first, then the most recently updated, a page of `limit` from `offset`.
pub open spec fn list_sql(scope: Option<MemoryScope>, types: Option<Seq<MemoryType>>) -> Seq<char> {
    "SELECT id, memory_type, scope_type, scope_agent_id, content, tags, source, source_session_id, pinned, created_at, updated_at\n             FROM memories\n             WHERE "@
        + scope_condition(scope, None).0 + " AND "@ + type_condition(types)
        + "\n             ORDER BY pinned DESC, updated_at DESC\n             LIMIT ? OFFSET ?"@
}

/// The listing query (see `list_sql`) with its parameters: the scope's, the
/// types', then the limit and the offset.
pub fn list_query(scope: &Option<MemoryScope>, types: &Option<Vec<MemoryType>>, limit: usize, offset: usize) -> (r: (String, Vec<SqlParam>))
    ensures
        r.0@ == list_sql(*scope, types_view(*types)),
        params_view(r.1@) == scope_params(scope_condition(*scope, None).1) + type_condition_params(types_view(*types))
            + seq![SqlParamView::Int(limit as i64), SqlParamView::Int(offset as i64)],
{
    let (sc, sp) = scope_where(scope, &None);
    let mut sql = chars_of(
        "SELECT id, memory_type, scope_type, scope_agent_id, content, tags, source, source_session_id, pinned, created_at, updated_at\n             FROM memories\n             WHERE ",
    );
    extend_str(&mut sql, sc.as_str());
    extend_str(&mut sql, " AND ");
    extend_chars(&mut sql, type_condition_exec(types).as_slice());
    extend_str(&mut sql, "\n             ORDER BY pinned DESC, updated_at DESC\n             LIMIT ? OFFSET ?");
    let mut params: Vec<SqlParam> = Vec::new();
    push_scope(&mut params, sp);
    push_types(&mut params, types);
    push_param(&mut params, SqlParam::Int(limit as i64));
    push_param(&mut params, SqlParam::Int(offset as i64));
    assert(params_view(params@) =~= scope_params(scope_condition(*scope, None).1) + type_condition_params(
        types_view(*types),
    ) + seq![SqlParamView::Int(limit as i64), SqlParamView::Int(offset as i64)]);
    (string_of(sql.as_slice()), params)
}

/// The query fetching the memories with the given ids that lie in the scope
/// (or the agent's view) and are of the given types.
pub open spec fn fetch_sql(n: nat, scope: Option<MemoryScope>, agent_id: Option<Seq<char>>, types: Option<Seq<MemoryType>>) -> Seq<char> {
    "SELECT id, memory_type, scope_type, scope_agent_id, content, tags,\n                    source, source_session_id, pinned, created_at, updated_at\n             FROM memories\n             WHERE id IN ("@
        + placeholders(n, ","@) + ") AND "@ + scope_condition(scope, agent_id).0 + " AND "@ + type_condition(types)
}

pub open spec fn id_params(ids: Seq<i64>) -> Seq<SqlParamView> {
    Seq::new(ids.len(), |i: int| SqlParamView::Int(ids[i]))
}

/// The query loading the search hits `ids` (see `fetch_sql`) with its
/// parameters: the ids, the scope's, then the types'.
pub fn search_fetch_query(
    ids: &Vec<i64>,
    scope: &Option<MemoryScope>,
    agent_id: &Option<String>,
    types: &Option<Vec<MemoryType>>,
) -> (r: (String, Vec<SqlParam>))
    ensures
        r.0@ == fetch_sql(ids@.len(), *scope, agent_id.deep_view(), types_view(*types)),
        params_view(r.1@) == id_params(ids@) + scope_params(scope_condition(*scope, agent_id.deep_view()).1)
            + type_condition_params(types_view(*types)),
{
    let (sc, sp) = scope_where(scope, agent_id);
    let mut sql = chars_of(
        "SELECT id, memory_type, scope_type, scope_agent_id, content, tags,\n                    source, source_session_id, pinned, created_at, updated_at\n             FROM memories\n             WHERE id IN (",
    );
    extend_chars(&mut sql, placeholders_exec(ids.len(), ",").as_slice());
    extend_str(&mut sql, ") AND ");
    extend_str(&mut sql, sc.as_str());
    extend_str(&mut sql, " AND ");
    extend_chars(&mut sql, type_condition_exec(types).as_slice());
    let mut params: Vec<SqlParam> = Vec::new();
    let mut i: usize = 0;
    while i < ids.len()
        invariant
            i <= ids@.len(),
            params_view(params@) == id_params(ids@).take(i as int),
        decreases ids@.len() - i,
    {
        push_param(&mut params, SqlParam::Int(ids[i]));
        assert(id_params(ids@).take(i + 1) =~= id_params(ids@).take(i as int).push(SqlParamView::Int(ids@[i as int])));
        i += 1;
    }
    assert(id_params(ids@).take(ids@.len() as int) =~= id_params(ids@));
    push_scope(&mut params, sp);
    push_types(&mut params, types);
    (string_of(sql.as_slice()), params)
}

/// The queries behind the statistics of a scope, all sharing the scope's
/// parameter: the total, the count per type, the count of memories with an
/// embedding, and the oldest and newest creation times.
#[derive(Debug, Clone)]
pub struct StatsQueries {
    pub total: String,
    pub by_type: String,
    pub with_embedding: String,
    pub oldest: String,
    pub newest: String,
    pub params: Vec<SqlParam>,
}

/// The statistics queries of a scope (see `StatsQueries`); the total is also
/// the memory count of the scope.
pub fn stats_queries(scope: &Option<MemoryScope>) -> (r: StatsQueries)
    ensures
        r.total@ == "SELECT COUNT(*) FROM memories WHERE "@ + scope_condition(*scope, None).0,
        r.by_type@ == "SELECT memory_type, COUNT(*) FROM memories WHERE "@ + scope_condition(*scope, None).0
            + " GROUP BY memory_type"@,
        r.with_embedding@ == "SELECT COUNT(*) FROM memories WHERE "@ + scope_condition(*scope, None).0
            + " AND id IN (SELECT rowid FROM memory_vec)"@,
        r.oldest@ == "SELECT MIN(created_at) FROM memories WHERE "@ + scope_condition(*scope, None).0,
        r.newest@ == "SELECT MAX(created_at) FROM memories WHERE "@ + scope_condition(*scope, None).0,
        params_view(r.params@) == scope_params(scope_condition(*scope, None).1),
{
    let (sc, sp) = scope_where(scope, &None);
    let c = chars_of(sc.as_str());
    let mut total = chars_of("SELECT COUNT(*) FROM memories WHERE ");
    extend_chars(&mut total, c.as_slice());
    let mut by_type = chars_of("SELECT memory_type, COUNT(*) FROM memories WHERE ");
    extend_chars(&mut by_type, c.as_slice());
    extend_str(&mut by_type, " GROUP BY memory_type");
    let mut with_embedding = chars_of("SELECT COUNT(*) FROM memories WHERE ");
    extend_chars(&mut with_embedding, c.as_slice());
    extend_str(&mut with_embedding, " AND id IN (SELECT rowid FROM memory_vec)");
    let mut oldest = chars_of("SELECT MIN(created_at) FROM memories WHERE ");
    extend_chars(&mut oldest, c.as_slice());
    let mut newest = chars_of("SELECT MAX(created_at) FROM memories WHERE ");
    extend_chars(&mut newest, c.as_slice());
    let mut params: Vec<SqlParam> = Vec::new();
    push_scope(&mut params, sp);
    assert(params_view(params@) =~= scope_params(scope_condition(*scope, None).1));
    StatsQueries {
        total: string_of(total.as_slice()),
        by_type: string_of(by_type.as_slice()),
        with_embedding: string_of(with_embedding.as_slice()),
        oldest: string_of(oldest.as_slice()),
        newest: string_of(newest.as_slice()),
        params,
    }
}

/// The scope of a stored row: an agent's (its id, empty when missing) when
/// the row's scope type is `agent`, else global.
pub fn scope_from_row(scope_type: &str, scope_agent_id: Option<String>) -> (r: MemoryScope)
    ensures
        scope_type@ == "agent"@ ==> (r matches MemoryScope::Agent { id } && id@ == match scope_agent_id {
            Some(a) => a@,
            None => Seq::<char>::empty(),
        }),
        scope_type@ != "agent"@ ==> r == MemoryScope::Global,
{
    if crate::text::str_eq(scope_type, "agent") {
        match scope_agent_id {
            Some(a) => MemoryScope::Agent { id: a },
            None => MemoryScope::Agent { id: String::new() },
        }
    } else {
        MemoryScope::Global
    }
}

// ───────────────────────────── marks and parameters ─────────────────────────────

pub(crate) proof fn lemma_placeholder_marks(n: nat, sep: Seq<char>)
    requires
        marks(sep) == 0,
    ensures
        marks(placeholders(n, sep)) == n,
    decreases n,
{
    reveal_strlit("?");
    lemma_one_mark("?"@, 0);
    let ls = Seq::new(n, |i: int| "?"@);
    if n == 0 {
        assert(marks(Seq::<char>::empty()) == 0);
    } else if n == 1 {
        assert(placeholders(1, sep) == ls[0]);
    } else {
        assert(ls.drop_last() =~= Seq::new((n - 1) as nat, |i: int| "?"@));
        lemma_placeholder_marks((n - 1) as nat, sep);
        lemma_marks_concat(placeholders((n - 1) as nat, sep), sep);
        lemma_marks_concat(placeholders((n - 1) as nat, sep) + sep, "?"@);
    }
}

proof fn lemma_scope_marks(scope: Option<MemoryScope>, agent_id: Option<Seq<char>>)
    ensures
        marks(scope_condition(scope, agent_id).0) == scope_params(scope_condition(scope, agent_id).1).len(),
{
    reveal_strlit("scope_type = 'global'");
    reveal_strlit("scope_type = 'agent' AND scope_agent_id = ?");
    reveal_strlit("(scope_type = 'global' OR (scope_type = 'agent' AND scope_agent_id = ?))");
    reveal_strlit("1=1");
    let c = scope_condition(scope, agent_id).0;
    let a = "scope_type = 'agent' AND scope_agent_id = ?"@;
    let b = "(scope_type = 'global' OR (scope_type = 'agent' AND scope_agent_id = ?))"@;
    if c == a {
        assert forall|i: int| 0 <= i < a.len() && i != a.len() - 1 implies a[i] != '?' by {}
        lemma_one_mark(a, a.len() - 1);
    } else if c == b {
        assert forall|i: int| 0 <= i < b.len() && i != b.len() - 3 implies b[i] != '?' by {}
        lemma_one_mark(b, b.len() - 3);
    } else {
        assert forall|i: int| 0 <= i < c.len() implies c[i] != '?' by {}
        lemma_no_marks(c);
    }
}

proof fn lemma_type_marks(types: Option<Seq<MemoryType>>)
    ensures
        marks(type_condition(types)) == type_condition_params(types).len(),
{
    reveal_strlit("memory_type IN (");
    reveal_strlit(")");
    reveal_strlit("1=1");
    reveal_strlit(", ");
    let a = "memory_type IN ("@;
    assert forall|i: int| 0 <= i < a.len() implies a[i] != '?' by {}
    lemma_no_marks(a);
    assert forall|i: int| 0 <= i < ")"@.len() implies ")"@[i] != '?' by {}
    lemma_no_marks(")"@);
    assert forall|i: int| 0 <= i < "1=1"@.len() implies "1=1"@[i] != '?' by {}
    lemma_no_marks("1=1"@);
    assert forall|i: int| 0 <= i < ", "@.len() implies ", "@[i] != '?' by {}
    lemma_no_marks(", "@);
    match types {
        Some(ts) => if ts.len() > 0 {
            lemma_placeholder_marks(ts.len(), ", "@);
            lemma_marks_concat(a, placeholders(ts.len(), ", "@));
            lemma_marks_concat(a + placeholders(ts.len(), ", "@), ")"@);
        },
        None => {},
    }
}

/// Every `?` of the listing query has its parameter and every parameter its
/// `?`: the query holds as many marks as `list_query` gives parameters (the
/// scope's, the types', the limit and the offset).
pub proof fn lemma_list_query_marks(scope: Option<MemoryScope>, types: Option<Seq<MemoryType>>)
    ensures
        marks(list_sql(scope, types)) == scope_params(scope_condition(scope, None).1).len()
            + type_condition_params(types).len() + 2,
{
    let head = "SELECT id, memory_type, scope_type, scope_agent_id, content, tags, source, source_session_id, pinned, created_at, updated_at\n             FROM memories\n             WHERE "@;
    let and = " AND "@;
    let tail = "\n             ORDER BY pinned DESC, updated_at DESC\n             LIMIT ? OFFSET ?"@;
    reveal_strlit("SELECT id, memory_type, scope_type, scope_agent_id, content, tags, source, source_session_id, pinned, created_at, updated_at\n             FROM memories\n             WHERE ");
    reveal_strlit(" AND ");
    reveal_strlit("\n             ORDER BY pinned DESC, updated_at DESC\n             LIMIT ? OFFSET ?");
    assert forall|i: int| 0 <= i < head.len() implies head[i] != '?' by {}
    lemma_no_marks(head);
    assert forall|i: int| 0 <= i < and.len() implies and[i] != '?' by {}
    lemma_no_marks(and);
    let l = tail.len() as int;
    let t1 = tail.take(l - 9);
    let t2 = tail.skip(l - 9);
    assert forall|i: int| 0 <= i < t1.len() && i != l - 10 implies t1[i] != '?' by {}
    lemma_one_mark(t1, l - 10);
    assert forall|i: int| 0 <= i < t2.len() && i != 8 implies t2[i] != '?' by {}
    lemma_one_mark(t2, 8);
    lemma_marks_split(tail, l - 9);
    lemma_scope_marks(scope, None);
    lemma_type_marks(types);
    let sc = scope_condition(scope, None).0;
    let tc = type_condition(types);
    lemma_marks_concat(head, sc);
    lemma_marks_concat(head + sc, and);
    lemma_marks_concat(head + sc + and, tc);
    lemma_marks_concat(head + sc + and + tc, tail);
}

/// Every `?` of the query that loads search hits has its parameter and every
/// parameter its `?`: one per id, then the scope's and the types'.
pub proof fn lemma_fetch_query_marks(n: nat, scope: Option<MemoryScope>, agent_id: Option<Seq<char>>, types: Option<Seq<MemoryType>>)
    ensures
        marks(fetch_sql(n, scope, agent_id, types)) == n + scope_params(scope_condition(scope, agent_id).1).len()
            + type_condition_params(types).len(),
{
    let head = "SELECT id, memory_type, scope_type, scope_agent_id, content, tags,\n                    source, source_session_id, pinned, created_at, updated_at\n             FROM memories\n             WHERE id IN ("@;
    let mid = ") AND "@;
    let and = " AND "@;
    reveal_strlit("SELECT id, memory_type, scope_type, scope_agent_id, content, tags,\n                    source, source_session_id, pinned, created_at, updated_at\n             FROM memories\n             WHERE id IN (");
    reveal_strlit(") AND ");
    reveal_strlit(" AND ");
    reveal_strlit(",");
    assert forall|i: int| 0 <= i < head.len() implies head[i] != '?' by {}
    lemma_no_marks(head);
    assert forall|i: int| 0 <= i < mid.len() implies mid[i] != '?' by {}
    lemma_no_marks(mid);
    assert forall|i: int| 0 <= i < and.len() implies and[i] != '?' by {}
    lemma_no_marks(and);
    assert forall|i: int| 0 <= i < ","@.len() implies ","@[i] != '?' by {}
    lemma_no_marks(","@);
    lemma_placeholder_marks(n, ","@);
    lemma_scope_marks(scope, agent_id);
    lemma_type_marks(types);
    let p = placeholders(n, ","@);
    let sc = scope_condition(scope, agent_id).0;
    let tc = type_condition(types);
    lemma_marks_concat(head, p);
    lemma_marks_concat(head + p, mid);
    lemma_marks_concat(head + p + mid, sc);
    lemma_marks_concat(head + p + mid + sc, and);
    lemma_marks_concat(head + p + mid + sc + and, tc);
}

proof fn lemma_plain_marks(lit: Seq<char>)
    requires
        forall|i: int| 0 <= i < lit.len() ==> lit[i] != '?',
    ensures
        marks(lit) == 0,
{
    lemma_no_marks(lit);
}

/// Every `?` of each statistics query is the scope's parameter, the one
/// parameter list they share.
pub proof fn lemma_stats_query_marks(scope: Option<MemoryScope>)
    ensures
        ({
            let sc = scope_condition(scope, None).0;
            let n = scope_params(scope_condition(scope, None).1).len();
            &&& marks("SELECT COUNT(*) FROM memories WHERE "@ + sc) == n
            &&& marks("SELECT memory_type, COUNT(*) FROM memories WHERE "@ + sc + " GROUP BY memory_type"@) == n
            &&& marks("SELECT COUNT(*) FROM memories WHERE "@ + sc + " AND id IN (SELECT rowid FROM memory_vec)"@) == n
            &&& marks("SELECT MIN(created_at) FROM memories WHERE "@ + sc) == n
            &&& marks("SELECT MAX(created_at) FROM memories WHERE "@ + sc) == n
        }),
{
    reveal_strlit("SELECT COUNT(*) FROM memories WHERE ");
    reveal_strlit("SELECT memory_type, COUNT(*) FROM memories WHERE ");
    reveal_strlit(" GROUP BY memory_type");
    reveal_strlit(" AND id IN (SELECT rowid FROM memory_vec)");
    reveal_strlit("SELECT MIN(created_at) FROM memories WHERE ");
    reveal_strlit("SELECT MAX(created_at) FROM memories WHERE ");
    let sc = scope_condition(scope, None).0;
    lemma_scope_marks(scope, None);
    let l1 = "SELECT COUNT(*) FROM memories WHERE "@;
    let l2 = "SELECT memory_type, COUNT(*) FROM memories WHERE "@;
    let l3 = " GROUP BY memory_type"@;
    let l4 = " AND id IN (SELECT rowid FROM memory_vec)"@;
    let l5 = "SELECT MIN(created_at) FROM memories WHERE "@;
    let l6 = "SELECT MAX(created_at) FROM memories WHERE "@;
    assert forall|i: int| 0 <= i < l1.len() implies l1[i] != '?' by {}
    assert forall|i: int| 0 <= i < l2.len() implies l2[i] != '?' by {}
    assert forall|i: int| 0 <= i < l3.len() implies l3[i] != '?' by {}
    assert forall|i: int| 0 <= i < l4.len() implies l4[i] != '?' by {}
    assert forall|i: int| 0 <= i < l5.len() implies l5[i] != '?' by {}
    assert forall|i: int| 0 <= i < l6.len() implies l6[i] != '?' by {}
    lemma_plain_marks(l1);
    lemma_plain_marks(l2);
    lemma_plain_marks(l3);
    lemma_plain_marks(l4);
    lemma_plain_marks(l5);
    lemma_plain_marks(l6);
    lemma_marks_concat(l1, sc);
    lemma_marks_concat(l2, sc);
    lemma_marks_concat(l2 + sc, l3);
    lemma_marks_concat(l1 + sc, l4);
    lemma_marks_concat(l5, sc);
    lemma_marks_concat(l6, sc);
}

} // verus!
