//! Chat sessions: message roles, stored session and message records, new
//! messages, and automatic session titles.
use vstd::prelude::*;
use crate::paths::{at_root, PathError};
use crate::text::{chars_of, extend_str, lines, lines_exec, seqs_of, slice_of, str_eq, string_of, trim, trim_exec};

verus! {

/// Who or what produced a message.
#[derive(Debug, Clone, Copy, PartialEq, Eq, Structural)]
pub enum MessageRole {
    User,
    Assistant,
    Event,
    Tool,
    /// Text emitted before tool calls, kept to preserve ordering.
    TextBlock,
}

pub open spec fn role_name(r: MessageRole) -> Seq<char> {
    match r {
        MessageRole::User => "user"@,
        MessageRole::Assistant => "assistant"@,
        MessageRole::Event => "event"@,
        MessageRole::Tool => "tool"@,
        MessageRole::TextBlock => "text_block"@,
    }
}

/// The role a stored name denotes; anything unknown is `User`.
pub open spec fn role_from(s: Seq<char>) -> MessageRole {
    if s == "user"@ {
        MessageRole::User
    } else if s == "assistant"@ {
        MessageRole::Assistant
    } else if s == "event"@ {
        MessageRole::Event
    } else if s == "tool"@ {
        MessageRole::Tool
    } else if s == "text_block"@ {
        MessageRole::TextBlock
    } else {
        MessageRole::User
    }
}

impl MessageRole {
    pub fn as_str(&self) -> (r: &'static str)
        ensures
            r@ == role_name(*self),
    {
        match self {
            MessageRole::User => "user",
            MessageRole::Assistant => "assistant",
            MessageRole::Event => "event",
            MessageRole::Tool => "tool",
            MessageRole::TextBlock => "text_block",
        }
    }

    pub fn from_str(s: &str) -> (r: Self)
        ensures
            r == role_from(s@),
    {
        if str_eq(s, "user") {
            MessageRole::User
        } else if str_eq(s, "assistant") {
            MessageRole::Assistant
        } else if str_eq(s, "event") {
            MessageRole::Event
        } else if str_eq(s, "tool") {
            MessageRole::Tool
        } else if str_eq(s, "text_block") {
            MessageRole::TextBlock
        } else {
            MessageRole::User
        }
    }
}

/// Reading back the stored name of a role gives the role.
pub proof fn lemma_role_roundtrip(r: MessageRole)
    ensures
        role_from(role_name(r)) == r,
{
    reveal_strlit("user");
    reveal_strlit("assistant");
    reveal_strlit("event");
    reveal_strlit("tool");
    reveal_strlit("text_block");
    assert("user"@[0] == 'u' && "assistant"@[0] == 'a' && "event"@[0] == 'e' && "tool"@[0] == 't'
        && "text_block"@[0] == 't');
    assert("tool"@.len() == 4 && "text_block"@.len() == 10);
}

/// A stored chat session.
#[derive(Debug, Clone)]
pub struct SessionMeta {
    pub id: String,
    pub title: Option<String>,
    pub agent_id: String,
    pub provider_id: Option<String>,
    pub provider_name: Option<String>,
    pub model_id: Option<String>,
    pub created_at: String,
    pub updated_at: String,
    pub message_count: i64,
    pub unread_count: i64,
    pub is_cron: bool,
    /// The session that spawned this one as a sub-agent.
    pub parent_session_id: Option<String>,
}

/// A stored message.
#[derive(Debug, Clone)]
pub struct SessionMessage {
    pub id: i64,
    pub session_id: String,
    pub role: MessageRole,
    pub content: String,
    pub timestamp: String,
    /// JSON list of attachment name, MIME type and size (user messages).
    pub attachments_meta: Option<String>,
    pub model: Option<String>,
    pub tokens_in: Option<i64>,
    pub tokens_out: Option<i64>,
    pub reasoning_effort: Option<String>,
    pub tool_call_id: Option<String>,
    pub tool_name: Option<String>,
    /// JSON arguments of a tool call.
    pub tool_arguments: Option<String>,
    pub tool_result: Option<String>,
    pub tool_duration_ms: Option<i64>,
    pub is_error: Option<bool>,
    pub thinking: Option<String>,
}

/// A message to insert (its id is assigned on insertion).
#[derive(Debug, Clone)]
pub struct NewMessage {
    pub role: MessageRole,
    pub content: String,
    pub timestamp: String,
    pub attachments_meta: Option<String>,
    pub model: Option<String>,
    pub tokens_in: Option<i64>,
    pub tokens_out: Option<i64>,
    pub reasoning_effort: Option<String>,
    pub tool_call_id: Option<String>,
    pub tool_name: Option<String>,
    pub tool_arguments: Option<String>,
    pub tool_result: Option<String>,
    pub tool_duration_ms: Option<i64>,
    pub is_error: Option<bool>,
    pub thinking: Option<String>,
}

/// The time stored with a message: its own timestamp, or `now` when it has none.
pub fn stored_timestamp(timestamp: &str, now: &str) -> (r: String)
    ensures
        r@ == if timestamp@.len() == 0 {
            now@
        } else {
            timestamp@
        },
{
    let t = crate::text::chars_of(timestamp);
    if t.len() == 0 {
        crate::text::owned_str(now)
    } else {
        crate::text::string_of(t.as_slice())
    }
}

/// The current UTC time in RFC 3339 form (`chrono::Utc::now().to_rfc3339()`).
/// It depends on the clock, so nothing is stated of it.
#[verifier::external_body]
pub(crate) fn utc_now_rfc3339() -> String {
    chrono::Utc::now().to_rfc3339()
}

/// A message with only role, content and the current time set.
pub open spec fn plain_message(m: NewMessage, role: MessageRole, content: Seq<char>) -> bool {
    &&& m.role == role
    &&& m.content@ == content
    &&& m.attachments_meta is None
    &&& m.model is None
    &&& m.tokens_in is None
    &&& m.tokens_out is None
    &&& m.reasoning_effort is None
    &&& m.tool_call_id is None
    &&& m.tool_name is None
    &&& m.tool_arguments is None
    &&& m.tool_result is None
    &&& m.tool_duration_ms is None
    &&& m.is_error is None
    &&& m.thinking is None
}

impl NewMessage {
    fn plain(role: MessageRole, content: &str) -> (r: Self)
        ensures
            plain_message(r, role, content@),
    {
        NewMessage {
            role,
            content: crate::text::owned_str(content),
            timestamp: utc_now_rfc3339(),
            attachments_meta: None,
            model: None,
            tokens_in: None,
            tokens_out: None,
            reasoning_effort: None,
            tool_call_id: None,
            tool_name: None,
            tool_arguments: None,
            tool_result: None,
            tool_duration_ms: None,
            is_error: None,
            thinking: None,
        }
    }

    /// A user message, stamped now.
    pub fn user(content: &str) -> (r: Self)
        ensures
            plain_message(r, MessageRole::User, content@),
    {
        Self::plain(MessageRole::User, content)
    }

    /// An assistant message, stamped now.
    pub fn assistant(content: &str) -> (r: Self)
        ensures
            plain_message(r, MessageRole::Assistant, content@),
    {
        Self::plain(MessageRole::Assistant, content)
    }

    /// Text emitted before tool calls, stamped now.
    pub fn text_block(content: &str) -> (r: Self)
        ensures
            plain_message(r, MessageRole::TextBlock, content@),
    {
        Self::plain(MessageRole::TextBlock, content)
    }

    /// An event (an error, a model fallback notice), stamped now.
    pub fn event(content: &str) -> (r: Self)
        ensures
            plain_message(r, MessageRole::Event, content@),
    {
        Self::plain(MessageRole::Event, content)
    }

    /// A tool call with its result, stamped now; the content is empty.
    pub fn tool(
        call_id: &str,
        name: &str,
        arguments: &str,
        result: &str,
        duration_ms: Option<i64>,
        is_error: bool,
    ) -> (r: Self)
        ensures
            r.role == MessageRole::Tool,
            r.content@.len() == 0,
            r.tool_call_id.deep_view() == Some(call_id@),
            r.tool_name.deep_view() == Some(name@),
            r.tool_arguments.deep_view() == Some(arguments@),
            r.tool_result.deep_view() == Some(result@),
            r.tool_duration_ms == duration_ms,
            r.is_error == Some(is_error),
            r.attachments_meta is None,
            r.model is None,
            r.tokens_in is None,
            r.tokens_out is None,
            r.reasoning_effort is None,
            r.thinking is None,
    {
        NewMessage {
            role: MessageRole::Tool,
            content: String::new(),
            timestamp: utc_now_rfc3339(),
            attachments_meta: None,
            model: None,
            tokens_in: None,
            tokens_out: None,
            reasoning_effort: None,
            tool_call_id: Some(crate::text::owned_str(call_id)),
            tool_name: Some(crate::text::owned_str(name)),
            tool_arguments: Some(crate::text::owned_str(arguments)),
            tool_result: Some(crate::text::owned_str(result)),
            tool_duration_ms: duration_ms,
            is_error: Some(is_error),
            thinking: None,
        }
    }
}

/// A session title from its first message: `New Chat` when blank; otherwise the
/// first line of the trimmed text, cut to 47 characters plus `...` when longer
/// than 50 characters.
pub open spec fn title_of(content: Seq<char>) -> Seq<char> {
    let t = trim(content);
    if t.len() == 0 {
        "New Chat"@
    } else {
        let first = lines(t)[0];
        if first.len() <= 50 {
            first
        } else {
            first.take(47) + "..."@
        }
    }
}

/// A title for a new session from its first message (see `title_of`).
pub fn auto_title(content: &str) -> (r: String)
    ensures
        r@ == title_of(content@),
{
    let c = chars_of(content);
    let t = trim_exec(c.as_slice());
    if t.len() == 0 {
        return "New Chat".to_string();
    }
    let ls = lines_exec(t.as_slice());
    proof {
        lemma_lines_nonempty(t@);
    }
    assert(seqs_of(ls@).len() == ls@.len());
    let first = &ls[0];
    assert(first@ == lines(t@)[0]);
    if first.len() <= 50 {
        string_of(first.as_slice())
    } else {
        let mut out = slice_of(first.as_slice(), 0, 47);
        extend_str(&mut out, "...");
        assert(out@ =~= first@.take(47) + "..."@);
        string_of(out.as_slice())
    }
}

/// A generated title is at most 50 characters long.
pub proof fn lemma_title_short(content: Seq<char>)
    ensures
        title_of(content).len() <= 50,
{
    reveal_strlit("New Chat");
    reveal_strlit("...");
}

proof fn lemma_lines_nonempty(s: Seq<char>)
    requires
        s.len() > 0,
    ensures
        lines(s).len() > 0,
{
}

/// Session database: `~/.opencomputer/sessions.db`.
pub fn db_path() -> (r: Result<String, PathError>)
    ensures
        at_root(r, "sessions.db"@),
{
    let root = crate::paths::root_dir()?;
    let p = crate::paths::join_path(root.as_str(), "sessions.db");
    assert(crate::paths::is_root(root@));
    Ok(p)
}

/// The session database for a given home directory:
/// `<home>/.opencomputer/sessions.db`.
pub fn db_path_for(home: &Option<String>) -> (r: Result<String, PathError>)
    ensures
        match home {
            Some(h) => r matches Ok(p) && p@ == crate::paths::data_path(h@, "sessions.db"@),
            None => r == Err::<String, PathError>(PathError::NoHomeDir),
        },
{
    crate::paths::data_path_for(home, "sessions.db")
}

/// For one home directory, the log and session databases sit under the same
/// data root, `<home>/.opencomputer`, each directly below it, and are never
/// the same file.
pub proof fn lemma_databases_apart(home: Seq<char>)
    ensures
        ({
            let root = crate::paths::path_join(home, ".opencomputer"@);
            &&& crate::paths::data_path(home, "logs.db"@) == crate::paths::path_join(root, "logs.db"@)
            &&& crate::paths::data_path(home, "sessions.db"@) == crate::paths::path_join(root, "sessions.db"@)
            &&& crate::paths::data_path(home, "logs.db"@).take(root.len() as int) == root
            &&& crate::paths::data_path(home, "sessions.db"@).take(root.len() as int) == root
        }),
        crate::paths::data_path(home, "logs.db"@) != crate::paths::data_path(home, "sessions.db"@),
{
    reveal_strlit("logs.db");
    reveal_strlit("sessions.db");
    let root = crate::paths::path_join(home, ".opencomputer"@);
    let l = crate::paths::data_path(home, "logs.db"@);
    let t = crate::paths::data_path(home, "sessions.db"@);
    assert(l.take(root.len() as int) =~= root);
    assert(t.take(root.len() as int) =~= root);
    assert(l.len() + 4 == t.len());
}

} // verus!
