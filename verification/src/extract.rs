//! Memories drawn from a conversation: the prompt that asks a model for new
//! facts, and the reading of the JSON array it answers with.
use vstd::prelude::*;
use crate::memory::{memory_type_from, replace_all, replace_str, MemoryType};
use crate::text::{
    blen, blen_le, chars_of, extend_chars, extend_str, find_exec, first_index, first_index_exec,
    fit_len, join, join_prefix, seqs_of, slice_of, str_eq, string_of, strs_of, trim, trim_exec,
    truncate_utf8,
};

verus! {

// ───────────────────────────── conversation messages ─────────────────────────────

/// A block of a message whose content is a list of blocks.
#[derive(Debug, Clone)]
pub struct ContentBlock {
    /// The block's `type`, when it is a string.
    pub kind: Option<String>,
    /// The block's `text`, when it is a string.
    pub text: Option<String>,
}

/// The `content` of a chat message.
#[derive(Debug, Clone)]
pub enum MessageContent {
    /// A string.
    Text(String),
    /// A list of blocks.
    Blocks(Vec<ContentBlock>),
    /// Anything else, or nothing.
    Other,
}

/// A chat message as the extraction reads it.
#[derive(Debug, Clone)]
pub struct ChatMessage {
    /// The `role`, when it is a string.
    pub role: Option<String>,
    pub content: MessageContent,
}

/// The texts of the `text` blocks, in order.
pub open spec fn block_texts(bs: Seq<ContentBlock>) -> Seq<Seq<char>>
    decreases bs.len(),
{
    if bs.len() == 0 {
        seq![]
    } else {
        let rest = block_texts(bs.drop_last());
        let b = bs.last();
        if b.kind matches Some(k) && k@ == "text"@ && b.text is Some {
            rest.push(b.text->0@)
        } else {
            rest
        }
    }
}

/// The text of a message: its string content, or its text blocks joined by
/// newlines when there is at least one.
pub open spec fn message_text(m: ChatMessage) -> Option<Seq<char>> {
    match m.content {
        MessageContent::Text(s) => Some(s@),
        MessageContent::Blocks(bs) => if block_texts(bs@).len() > 0 {
            Some(join(block_texts(bs@), "\n"@))
        } else {
            None
        },
        MessageContent::Other => None,
    }
}

/// The text of a message (see `message_text`).
pub fn extract_text_content(m: &ChatMessage) -> (r: Option<String>)
    ensures
        match message_text(*m) {
            Some(t) => r matches Some(s) && s@ == t,
            None => r is None,
        },
{
    match &m.content {
        MessageContent::Text(s) => Some(string_of(chars_of(s.as_str()).as_slice())),
        MessageContent::Blocks(bs) => {
            let mut texts: Vec<Vec<char>> = Vec::new();
            let mut i: usize = 0;
            while i < bs.len()
                invariant
                    i <= bs@.len(),
                    seqs_of(texts@) == block_texts(bs@.take(i as int)),
                decreases bs@.len() - i,
            {
                assert(bs@.take(i + 1).drop_last() =~= bs@.take(i as int));
                let b = &bs[i];
                match (&b.kind, &b.text) {
                    (Some(k), Some(t)) => {
                        if str_eq(k.as_str(), "text") {
                            let ghost before = seqs_of(texts@);
                            texts.push(chars_of(t.as_str()));
                            assert(seqs_of(texts@) =~= before.push(t@));
                        }
                    },
                    _ => {},
                }
                i += 1;
            }
            assert(bs@.take(bs@.len() as int) =~= bs@);
            if texts.len() > 0 {
                let j = join_prefix(&texts, texts.len(), "\n");
                assert(seqs_of(texts@).take(texts@.len() as int) =~= seqs_of(texts@));
                Some(string_of(j.as_slice()))
            } else {
                None
            }
        },
        MessageContent::Other => None,
    }
}

/// A long message text is cut at 500 bytes, which must fall between characters.
pub open spec fn cut_ok(t: Seq<char>) -> bool {
    blen(t) <= 500 || blen(t.take(fit_len(t, 500) as int)) == 500
}

/// A message text as shown to the model: beyond 500 bytes, its first 500 bytes and `...`.
pub open spec fn shortened(t: Seq<char>) -> Seq<char> {
    if blen(t) > 500 {
        t.take(fit_len(t, 500) as int) + "..."@
    } else {
        t
    }
}

/// `[role]: text` for a message with a role and a text.
pub open spec fn message_line(m: ChatMessage) -> Option<Seq<char>> {
    match (m.role, message_text(m)) {
        (Some(r), Some(t)) => Some("["@ + r@ + "]: "@ + shortened(t)),
        _ => None,
    }
}

/// The lines of the messages that have one, in order.
pub open spec fn message_lines(ms: Seq<ChatMessage>) -> Seq<Seq<char>>
    decreases ms.len(),
{
    if ms.len() == 0 {
        seq![]
    } else {
        let rest = message_lines(ms.drop_last());
        match message_line(ms.last()) {
            Some(l) => rest.push(l),
            None => rest,
        }
    }
}

/// The last six messages.
pub open spec fn last_six(ms: Seq<ChatMessage>) -> Seq<ChatMessage> {
    if ms.len() > 6 {
        ms.skip(ms.len() - 6)
    } else {
        ms
    }
}

/// Every message among the last six that gets a line has a text that can be cut.
pub open spec fn recent_cut_ok(ms: Seq<ChatMessage>) -> bool {
    forall|i: int|
        0 <= i < last_six(ms).len() ==> (#[trigger] last_six(ms)[i].role is Some && message_text(
            last_six(ms)[i],
        ) is Some ==> cut_ok(message_text(last_six(ms)[i])->0))
}

fn message_line_exec(m: &ChatMessage) -> (r: Option<String>)
    requires
        m.role is Some && message_text(*m) is Some ==> cut_ok(message_text(*m)->0),
    ensures
        match message_line(*m) {
            Some(l) => r matches Some(s) && s@ == l,
            None => r is None,
        },
{
    match &m.role {
        Some(role) => match extract_text_content(m) {
            Some(t) => {
                let tc = chars_of(t.as_str());
                let mut line = chars_of("[");
                extend_str(&mut line, role.as_str());
                extend_str(&mut line, "]: ");
                if blen_le(tc.as_slice(), 500) {
                    extend_chars(&mut line, tc.as_slice());
                } else {
                    let cut = truncate_utf8(t.as_str(), 500);
                    extend_str(&mut line, cut.as_str());
                    extend_str(&mut line, "...");
                }
                Some(string_of(line.as_slice()))
            },
            None => None,
        },
        None => None,
    }
}

/// The lines of the last six messages (see `message_lines`).
pub fn recent_message_lines(messages: &Vec<ChatMessage>) -> (r: Vec<String>)
    requires
        recent_cut_ok(messages@),
    ensures
        strs_of(r@) == message_lines(last_six(messages@)),
{
    let start: usize = if messages.len() > 6 {
        messages.len() - 6
    } else {
        0
    };
    let ghost recent = last_six(messages@);
    assert(recent =~= messages@.skip(start as int));
    let mut out: Vec<String> = Vec::new();
    let mut i: usize = start;
    assert(recent.take(0) =~= Seq::<ChatMessage>::empty());
    assert(strs_of(out@) =~= Seq::<Seq<char>>::empty());
    while i < messages.len()
        invariant
            start <= i <= messages@.len(),
            recent == messages@.skip(start as int),
            recent == last_six(messages@),
            recent_cut_ok(messages@),
            strs_of(out@) == message_lines(recent.take(i - start)),
        decreases messages@.len() - i,
    {
        assert(recent[i - start] == messages@[i as int]);
        assert(recent.take(i - start + 1).drop_last() =~= recent.take(i - start));
        assert(recent.take(i - start + 1).last() == messages@[i as int]);
        match message_line_exec(&messages[i]) {
            Some(l) => {
                let ghost before = strs_of(out@);
                let ghost lv = l@;
                out.push(l);
                assert(strs_of(out@) =~= before.push(lv));
            },
            None => {},
        }
        i += 1;
    }
    assert(recent.take(messages@.len() - start) =~= recent);
    out
}

// ───────────────────────────── the prompt ─────────────────────────────

/// The request sent to the model, with `{EXISTING}` and `{MESSAGES}` to fill in.
pub open spec fn extraction_template() -> Seq<char> {
    "Extract any new, memorable facts from the conversation below.\nReturn a JSON array. Each item: {\"content\":\"...\",\"type\":\"user|feedback|project|reference\",\"tags\":[\"...\"]}\n\nTypes:\n- \"user\": facts about the user (name, location, preferences, expertise, role)\n- \"feedback\": user preferences about AI behavior (response style, things to avoid)\n- \"project\": technical/project facts (tech stack, architecture, goals, deadlines)\n- \"reference\": URLs, docs, external resources mentioned\n\nRules:\n- Only extract NEW information not in \"Known memories\" below\n- Be concise \u{2014} each content should be 1-2 sentences\n- Return [] if nothing worth remembering\n- Maximum 5 items\n\nKnown memories:\n{EXISTING}\n\nConversation (recent):\n{MESSAGES}"@
}

/// The prompt for the memories `existing` already known and the message lines `lines`.
pub open spec fn extraction_prompt_of(existing: Seq<char>, lines: Seq<Seq<char>>) -> Seq<char> {
    replace_all(
        replace_all(extraction_template(), "{EXISTING}"@, existing),
        "{MESSAGES}"@,
        join(lines, "\n\n"@),
    )
}

/// The prompt that asks for new memories from the last six messages, given
/// the summary `existing` of the memories already known; `None` when none of
/// those messages has a role and a text.
pub fn build_extraction_prompt(existing: &str, messages: &Vec<ChatMessage>) -> (r: Option<String>)
    requires
        recent_cut_ok(messages@),
    ensures
        message_lines(last_six(messages@)).len() == 0 ==> r is None,
        message_lines(last_six(messages@)).len() > 0 ==> (r matches Some(p) && p@
            == extraction_prompt_of(existing@, message_lines(last_six(messages@)))),
{
    let lines = recent_message_lines(messages);
    if lines.len() == 0 {
        return None;
    }
    let mut pieces: Vec<Vec<char>> = Vec::new();
    let mut i: usize = 0;
    while i < lines.len()
        invariant
            i <= lines@.len(),
            seqs_of(pieces@) == strs_of(lines@).take(i as int),
        decreases lines@.len() - i,
    {
        let ghost before = seqs_of(pieces@);
        pieces.push(chars_of(lines[i].as_str()));
        assert(seqs_of(pieces@) =~= before.push(lines@[i as int]@));
        assert(strs_of(lines@).take(i + 1) =~= strs_of(lines@).take(i as int).push(lines@[i as int]@));
        i += 1;
    }
    let joined = join_prefix(&pieces, pieces.len(), "\n\n");
    assert(seqs_of(pieces@).take(pieces@.len() as int) =~= strs_of(lines@));
    let joined_s = string_of(joined.as_slice());
    proof {
        reveal_strlit("{EXISTING}");
        reveal_strlit("{MESSAGES}");
    }
    let template = chars_of(
        "Extract any new, memorable facts from the conversation below.\nReturn a JSON array. Each item: {\"content\":\"...\",\"type\":\"user|feedback|project|reference\",\"tags\":[\"...\"]}\n\nTypes:\n- \"user\": facts about the user (name, location, preferences, expertise, role)\n- \"feedback\": user preferences about AI behavior (response style, things to avoid)\n- \"project\": technical/project facts (tech stack, architecture, goals, deadlines)\n- \"reference\": URLs, docs, external resources mentioned\n\nRules:\n- Only extract NEW information not in \"Known memories\" below\n- Be concise \u{2014} each content should be 1-2 sentences\n- Return [] if nothing worth remembering\n- Maximum 5 items\n\nKnown memories:\n{EXISTING}\n\nConversation (recent):\n{MESSAGES}",
    );
    let a = replace_str(template.as_slice(), "{EXISTING}", existing);
    let b = replace_str(a.as_slice(), "{MESSAGES}", joined_s.as_str());
    Some(string_of(b.as_slice()))
}

// ───────────────────────────── reading the answer ─────────────────────────────

/// Whether text parses as a JSON array (`serde_json` reading a `Vec<Value>`).
pub uninterp spec fn json_array_text(s: Seq<char>) -> bool;

/// `serde_json::from_str::<Vec<serde_json::Value>>` succeeds on `s`.
/// Claimed: the answer is `json_array_text` of the text, a function of the
/// text alone; what that function is, serde_json's parser decides.
#[verifier::external_body]
fn parses_as_json_array(s: &str) -> (r: bool)
    ensures
        r == json_array_text(s@),
{
    serde_json::from_str::<Vec<serde_json::Value>>(s).is_ok()
}

/// Scanning from `i` with `depth` brackets open: the position just after the
/// `]` that closes the first one.
pub open spec fn closing_end(s: Seq<char>, i: int, depth: int) -> Option<int>
    decreases s.len() - i,
{
    if i < 0 || i >= s.len() {
        None
    } else if s[i] == '[' {
        closing_end(s, i + 1, depth + 1)
    } else if s[i] == ']' {
        if depth - 1 == 0 {
            Some(i + 1)
        } else {
            closing_end(s, i + 1, depth - 1)
        }
    } else {
        closing_end(s, i + 1, depth)
    }
}

/// The bracketed part found in an answer: from its first `[` to the `]` that closes it.
pub open spec fn bracketed(s: Seq<char>) -> Option<Seq<char>> {
    let start = first_index(s, '[');
    if start < s.len() {
        match closing_end(s, start as int, 0) {
            Some(end) => Some(s.subrange(start as int, end)),
            None => None,
        }
    } else {
        None
    }
}

/// The JSON array in a model's answer: the whole answer, trimmed, when it is
/// one; else its bracketed part when that is one.
pub open spec fn json_array_in(s: Seq<char>) -> Option<Seq<char>> {
    if json_array_text(trim(s)) {
        Some(trim(s))
    } else {
        match bracketed(s) {
            Some(c) => if json_array_text(c) {
                Some(c)
            } else {
                None
            },
            None => None,
        }
    }
}

/// The bracketed part of an answer (see `bracketed`).
pub fn find_bracketed(s: &[char]) -> (r: Option<Vec<char>>)
    ensures
        match bracketed(s@) {
            Some(c) => r matches Some(v) && v@ == c,
            None => r is None,
        },
{
    let start = first_index_exec(s, '[');
    if start >= s.len() {
        return None;
    }
    proof {
        crate::text::lemma_first_index_bound(s@, '[');
    }
    let mut depth: usize = 0;
    let mut i: usize = start;
    while i < s.len()
        invariant
            start <= i <= s@.len(),
            start < s@.len(),
            start == first_index(s@, '['),
            s@[start as int] == '[',
            depth <= i - start,
            i > start ==> depth > 0,
            closing_end(s@, i as int, depth as int) == closing_end(s@, start as int, 0),
        decreases s@.len() - i,
    {
        if s[i] == '[' {
            depth = depth + 1;
        } else if s[i] == ']' {
            if depth == 1 {
                return Some(slice_of(s, start, i + 1));
            }
            depth = depth - 1;
        }
        i += 1;
    }
    None
}

/// The choice between the trimmed answer and its bracketed part, given
/// whether each parses as a JSON array: the trimmed answer when it does, else
/// the bracketed part when there is one and it does, else nothing.
pub open spec fn array_choice(s: Seq<char>, trimmed_is_array: bool, bracketed_is_array: bool) -> Option<Seq<char>> {
    if trimmed_is_array {
        Some(trim(s))
    } else {
        match bracketed(s) {
            Some(c) => if bracketed_is_array {
                Some(c)
            } else {
                None
            },
            None => None,
        }
    }
}

/// Picks the JSON array of an answer (see `array_choice`), given whether its
/// trimmed text and its bracketed part parse as JSON arrays.
pub fn choose_json_array(text: &str, trimmed_is_array: bool, bracketed_is_array: bool) -> (r: Option<String>)
    ensures
        r.deep_view() == array_choice(text@, trimmed_is_array, bracketed_is_array),
{
    let t = chars_of(text);
    if trimmed_is_array {
        let tt = trim_exec(t.as_slice());
        return Some(string_of(tt.as_slice()));
    }
    match find_bracketed(t.as_slice()) {
        Some(c) => if bracketed_is_array {
            Some(string_of(c.as_slice()))
        } else {
            None
        },
        None => None,
    }
}

/// Finds the JSON array in a model's answer (see `json_array_in`).
pub fn extract_json_array(text: &str) -> (r: Option<String>)
    ensures
        match json_array_in(text@) {
            Some(c) => r matches Some(s) && s@ == c,
            None => r is None,
        },
{
    let t = chars_of(text);
    let tt = trim_exec(t.as_slice());
    let ts = string_of(tt.as_slice());
    let trimmed_ok = parses_as_json_array(ts.as_str());
    let bracketed_ok = if trimmed_ok {
        false
    } else {
        match find_bracketed(t.as_slice()) {
            Some(c) => {
                let cs = string_of(c.as_slice());
                parses_as_json_array(cs.as_str())
            },
            None => false,
        }
    };
    choose_json_array(text, trimmed_ok, bracketed_ok)
}

/// One item of the answer's array, as the extraction reads it.
#[derive(Debug, Clone)]
pub struct ExtractItem {
    /// `content`, when it is a string.
    pub content: Option<String>,
    /// `type`, when it is a string.
    pub memory_type: Option<String>,
    /// `tags`, when it is an array: each element's string, or `None` for one that is not a string.
    pub tags: Option<Vec<Option<String>>>,
}

/// A memory drawn from the conversation.
#[derive(Debug, Clone)]
pub struct ExtractedMemory {
    pub content: String,
    pub memory_type: MemoryType,
    pub tags: Vec<String>,
}

/// The strings among the tags, in order.
pub open spec fn string_tags(ts: Seq<Option<String>>) -> Seq<Seq<char>>
    decreases ts.len(),
{
    if ts.len() == 0 {
        seq![]
    } else {
        let rest = string_tags(ts.drop_last());
        match ts.last() {
            Some(t) => rest.push(t@),
            None => rest,
        }
    }
}

/// An item gives a memory when its content, trimmed, is not empty: that
/// content, its type (`user` when absent), and its string tags.
pub open spec fn item_memory(it: ExtractItem) -> Option<(Seq<char>, MemoryType, Seq<Seq<char>>)> {
    match it.content {
        Some(c) => if trim(c@).len() > 0 {
            Some(
                (
                    trim(c@),
                    memory_type_from(
                        match it.memory_type {
                            Some(t) => t@,
                            None => "user"@,
                        },
                    ),
                    match it.tags {
                        Some(ts) => string_tags(ts@),
                        None => seq![],
                    },
                ),
            )
        } else {
            None
        },
        None => None,
    }
}

/// The memories of the items, in order.
pub open spec fn item_memories(items: Seq<ExtractItem>) -> Seq<(Seq<char>, MemoryType, Seq<Seq<char>>)>
    decreases items.len(),
{
    if items.len() == 0 {
        seq![]
    } else {
        let rest = item_memories(items.drop_last());
        match item_memory(items.last()) {
            Some(m) => rest.push(m),
            None => rest,
        }
    }
}

pub open spec fn memory_view(m: ExtractedMemory) -> (Seq<char>, MemoryType, Seq<Seq<char>>) {
    (m.content@, m.memory_type, strs_of(m.tags@))
}

fn item_memory_exec(it: &ExtractItem) -> (r: Option<ExtractedMemory>)
    ensures
        match item_memory(*it) {
            Some(m) => r matches Some(x) && memory_view(x) == m,
            None => r is None,
        },
{
    match &it.content {
        Some(c) => {
            let t = trim_exec(chars_of(c.as_str()).as_slice());
            if t.len() == 0 {
                return None;
            }
            let ty = match &it.memory_type {
                Some(s) => MemoryType::from_str(s.as_str()),
                None => MemoryType::from_str("user"),
            };
            let mut tags: Vec<String> = Vec::new();
            match &it.tags {
                Some(ts) => {
                    let mut i: usize = 0;
                    while i < ts.len()
                        invariant
                            i <= ts@.len(),
                            strs_of(tags@) == string_tags(ts@.take(i as int)),
                        decreases ts@.len() - i,
                    {
                        assert(ts@.take(i + 1).drop_last() =~= ts@.take(i as int));
                        match &ts[i] {
                            Some(s) => {
                                let ghost before = strs_of(tags@);
                                tags.push(string_of(chars_of(s.as_str()).as_slice()));
                                assert(strs_of(tags@) =~= before.push(s@));
                            },
                            None => {},
                        }
                        i += 1;
                    }
                    assert(ts@.take(ts@.len() as int) =~= ts@);
                },
                None => {
                    assert(strs_of(tags@) =~= Seq::<Seq<char>>::empty());
                },
            }
            Some(ExtractedMemory { content: string_of(t.as_slice()), memory_type: ty, tags })
        },
        None => None,
    }
}

/// The memories given by the first five items of the answer's array (see `item_memory`).
pub fn extracted_memories(items: &Vec<ExtractItem>) -> (r: Vec<ExtractedMemory>)
    ensures
        r@.map_values(|m: ExtractedMemory| memory_view(m)) == item_memories(
            items@.take(if items@.len() < 5 { items@.len() as int } else { 5 }),
        ),
{
    let n: usize = if items.len() < 5 {
        items.len()
    } else {
        5
    };
    let mut out: Vec<ExtractedMemory> = Vec::new();
    let mut i: usize = 0;
    while i < n
        invariant
            i <= n <= items@.len(),
            out@.map_values(|m: ExtractedMemory| memory_view(m)) == item_memories(items@.take(i as int)),
        decreases n - i,
    {
        assert(items@.take(i + 1).drop_last() =~= items@.take(i as int));
        match item_memory_exec(&items[i]) {
            Some(m) => {
                let ghost before = out@;
                let ghost mv = memory_view(m);
                out.push(m);
                assert(out@.map_values(|m: ExtractedMemory| memory_view(m)) =~= before.map_values(
                    |m: ExtractedMemory| memory_view(m),
                ).push(mv));
            },
            None => {},
        }
        i += 1;
    }
    out
}

} // verus!
