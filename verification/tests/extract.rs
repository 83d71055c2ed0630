use hope_core::extract::choose_json_array;
use hope_core::extract::{
    build_extraction_prompt, extract_json_array, extract_text_content, extracted_memories,
    ChatMessage, ContentBlock, ExtractItem, MessageContent,
};
use hope_core::memory::MemoryType;

fn msg(role: &str, text: &str) -> ChatMessage {
    ChatMessage { role: Some(role.to_string()), content: MessageContent::Text(text.to_string()) }
}

#[test]
fn json_array_direct_and_embedded() {
    assert_eq!(extract_json_array("  [1, 2]  "), Some("[1, 2]".to_string()));
    assert_eq!(
        extract_json_array("Here you go:\n```json\n[{\"content\": \"x [y]\"}]\n```"),
        Some("[{\"content\": \"x [y]\"}]".to_string())
    );
    assert_eq!(extract_json_array("no array here"), None);
    assert_eq!(extract_json_array("broken [1, 2"), None);
    assert_eq!(extract_json_array("[not json]"), None);
}

#[test]
fn text_content_of_blocks() {
    let m = ChatMessage {
        role: Some("user".to_string()),
        content: MessageContent::Blocks(vec![
            ContentBlock { kind: Some("text".to_string()), text: Some("a".to_string()) },
            ContentBlock { kind: Some("image".to_string()), text: Some("img".to_string()) },
            ContentBlock { kind: Some("text".to_string()), text: Some("b".to_string()) },
        ]),
    };
    assert_eq!(extract_text_content(&m), Some("a\nb".to_string()));
    let empty = ChatMessage { role: None, content: MessageContent::Blocks(vec![]) };
    assert_eq!(extract_text_content(&empty), None);
    assert_eq!(extract_text_content(&ChatMessage { role: None, content: MessageContent::Other }), None);
}

#[test]
fn prompt_uses_last_six_messages() {
    let mut ms: Vec<ChatMessage> = (0..8).map(|i| msg("user", &format!("m{}", i))).collect();
    ms.push(ChatMessage { role: None, content: MessageContent::Text("no role".to_string()) });
    let p = build_extraction_prompt("- likes tea", &ms).unwrap();
    assert!(p.contains("Known memories:\n- likes tea\n"));
    assert!(!p.contains("[user]: m2"));
    assert!(p.contains("[user]: m3\n\n[user]: m4"));
    assert!(p.ends_with("[user]: m7"));
    assert!(!p.contains("{MESSAGES}") && !p.contains("{EXISTING}"));
    assert_eq!(build_extraction_prompt("", &vec![]), None);
}

#[test]
fn long_message_is_shortened() {
    let long = "x".repeat(600);
    let p = build_extraction_prompt("", &vec![msg("assistant", &long)]).unwrap();
    assert!(p.ends_with(&format!("[assistant]: {}...", "x".repeat(500))));
}

#[test]
fn items_become_memories() {
    let items = vec![
        ExtractItem { content: Some("  likes tea ".to_string()), memory_type: None, tags: Some(vec![Some("drink".to_string()), None]) },
        ExtractItem { content: Some("   ".to_string()), memory_type: Some("project".to_string()), tags: None },
        ExtractItem { content: None, memory_type: None, tags: None },
        ExtractItem { content: Some("uses rust".to_string()), memory_type: Some("project".to_string()), tags: None },
        ExtractItem { content: Some("four".to_string()), memory_type: Some("feedback".to_string()), tags: None },
        ExtractItem { content: Some("sixth is dropped".to_string()), memory_type: None, tags: None },
    ];
    let ms = extracted_memories(&items);
    assert_eq!(ms.len(), 3);
    assert_eq!(ms[0].content, "likes tea");
    assert_eq!(ms[0].memory_type, MemoryType::User);
    assert_eq!(ms[0].tags, vec!["drink".to_string()]);
    assert_eq!(ms[1].memory_type, MemoryType::Project);
    assert_eq!(ms[2].memory_type, MemoryType::Feedback);
}

#[test]
fn json_array_choice_prefers_trimmed_text() {
    assert_eq!(choose_json_array("  [1] ", true, false), Some("[1]".to_string()));
    assert_eq!(choose_json_array("  [1] ", true, true), Some("[1]".to_string()));
    assert_eq!(choose_json_array("note [1,2] end", false, true), Some("[1,2]".to_string()));
    assert_eq!(choose_json_array("no brackets", false, true), None);
    assert_eq!(choose_json_array("note [1,2] end", false, false), None);
}
