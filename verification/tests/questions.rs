use hope_core::questions::PendingQuestions;

#[test]
fn answers_reach_the_registered_channel_once() {
    let mut pending: PendingQuestions<u32> = PendingQuestions::new();
    pending.register_plan_question("r1".to_string(), 1);
    pending.register_plan_question("r2".to_string(), 2);
    pending.register_plan_question("r1".to_string(), 3);
    assert_eq!(pending.submit_plan_question_response("r1"), Ok(3));
    assert_eq!(
        pending.submit_plan_question_response("r1"),
        Err("No pending plan question request: r1".to_string())
    );
    pending.cancel_pending_plan_question("r2");
    assert_eq!(
        pending.submit_plan_question_response("r2"),
        Err("No pending plan question request: r2".to_string())
    );
    assert_eq!(pending.take("missing"), None);
}
