use hope_core::embedding::{reembed_plan, EmbedKind, ReembedEntry, ReembedPlan};

fn entry(id: i64, path: bool, mime: bool) -> ReembedEntry {
    ReembedEntry { id, has_attachment_path: path, has_attachment_mime: mime }
}

fn many(n: i64) -> Vec<ReembedEntry> {
    (1..=n).map(|i| entry(i, i % 4 == 0, i % 4 == 0)).collect()
}

#[test]
fn ten_entries_with_batch_support_split_by_attachment() {
    let entries = many(10);
    match reembed_plan(&entries, true) {
        ReembedPlan::Batch { batch_ids, multimodal_ids } => {
            assert_eq!(batch_ids, vec![1, 2, 3, 5, 6, 7, 9, 10]);
            assert_eq!(multimodal_ids, vec![4, 8]);
            assert_eq!(batch_ids.len() + multimodal_ids.len(), entries.len());
        }
        other => panic!("expected a batch plan, got {:?}", other),
    }
}

#[test]
fn nine_entries_are_embedded_one_by_one() {
    let entries = many(9);
    match reembed_plan(&entries, true) {
        ReembedPlan::Sequential { kinds } => {
            assert_eq!(kinds.len(), 9);
            assert_eq!(kinds[3], EmbedKind::Multimodal);
            assert_eq!(kinds[0], EmbedKind::Text);
        }
        other => panic!("expected a sequential plan, got {:?}", other),
    }
}

#[test]
fn no_batch_support_or_failed_batch_goes_one_by_one() {
    let entries = many(12);
    assert!(matches!(reembed_plan(&entries, false), ReembedPlan::Sequential { .. }));
}

#[test]
fn all_attachments_leave_nothing_to_batch() {
    let entries: Vec<ReembedEntry> = (1..=10).map(|i| entry(i, true, true)).collect();
    match reembed_plan(&entries, true) {
        ReembedPlan::Sequential { kinds } => {
            assert!(kinds.iter().all(|k| *k == EmbedKind::Multimodal));
        }
        other => panic!("expected a sequential plan, got {:?}", other),
    }
}

#[test]
fn attachment_without_media_type_is_embedded_as_text() {
    let entries = vec![entry(1, true, false), entry(2, false, true), entry(3, true, true)];
    match reembed_plan(&entries, true) {
        ReembedPlan::Sequential { kinds } => {
            assert_eq!(kinds, vec![EmbedKind::Text, EmbedKind::Text, EmbedKind::Multimodal]);
        }
        other => panic!("expected a sequential plan, got {:?}", other),
    }
}
