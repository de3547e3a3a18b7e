use pliny::llm::{
    chat_messages, disabled_reason, summarize, usable_key, ChatOutcome, Summary, SYSTEM_PROMPT,
};

#[test]
fn disabled_reason_with_flag() {
    assert!(disabled_reason(true).contains("--no-ai"));
}

#[test]
fn disabled_reason_without_flag() {
    assert!(disabled_reason(false).contains("OPENAI_API_KEY"));
}

#[test]
fn summary_text_accessor() {
    assert_eq!(Summary::Ready("ok".into()).text(), "ok");
    assert_eq!(Summary::Disabled("disabled").text(), "disabled");
    assert_eq!(Summary::Error("err".into()).text(), "err");
}

#[test]
fn clones_show_the_same() {
    for s in [
        Summary::Ready("ok".into()),
        Summary::Disabled("disabled"),
        Summary::Error("err".into()),
    ] {
        assert_eq!(s.clone().text(), s.text());
    }
    assert!(matches!(Summary::Error("e".into()).clone(), Summary::Error(_)));
}

#[test]
fn messages_are_instruction_and_digest() {
    let messages = chat_messages("Plan: 1 to add.");
    assert_eq!(messages.len(), 2);
    assert_eq!(messages[0].role, "system");
    assert_eq!(messages[0].content, SYSTEM_PROMPT);
    assert_eq!(messages[1].role, "user");
    assert_eq!(messages[1].content, "Plan: 1 to add.");
    assert!(SYSTEM_PROMPT.starts_with("You review terraform plans. The first line of the user"));
    assert!(SYSTEM_PROMPT.ends_with("instead of inventing risks. Be terse."));
}

#[test]
fn empty_keys_are_not_used() {
    assert_eq!(usable_key(None), None);
    assert_eq!(usable_key(Some(String::new())), None);
    assert_eq!(usable_key(Some("k".into())), Some("k".to_string()));
}

fn error_text(outcome: ChatOutcome) -> String {
    match summarize(outcome) {
        Summary::Error(e) => e,
        other => panic!("{other:?}"),
    }
}

#[test]
fn every_outcome_has_a_summary() {
    assert!(matches!(
        summarize(ChatOutcome::NoKey),
        Summary::Disabled(reason) if reason == disabled_reason(false)
    ));
    assert_eq!(
        error_text(ChatOutcome::ClientFailed("boom".into())),
        "http client init failed: boom"
    );
    assert_eq!(error_text(ChatOutcome::TimedOut), "AI summary timed out after 30s.");
    assert_eq!(
        error_text(ChatOutcome::RequestFailed("dns".into())),
        "AI summary request failed: dns"
    );
    assert_eq!(
        error_text(ChatOutcome::Unreadable("eof".into())),
        "AI summary response parse failed: eof"
    );
    assert_eq!(
        error_text(ChatOutcome::Replied(Vec::new())),
        "AI summary returned no choices."
    );
    assert!(matches!(
        summarize(ChatOutcome::Replied(vec![" \n fine. \n".into(), "other".into()])),
        Summary::Ready(text) if text == "fine."
    ));
}

#[test]
fn refusals_carry_a_hint_and_a_snippet() {
    let refused = |code: u16, status: &str, body: &str| {
        error_text(ChatOutcome::Refused {
            code,
            status: status.into(),
            body: body.into(),
        })
    };
    assert_eq!(
        refused(401, "401 Unauthorized", "no"),
        "AI summary returned HTTP 401 Unauthorized (check OPENAI_API_KEY): no"
    );
    assert_eq!(
        refused(403, "403 Forbidden", ""),
        "AI summary returned HTTP 403 Forbidden (check OPENAI_API_KEY): "
    );
    assert_eq!(
        refused(429, "429 Too Many Requests", "slow"),
        "AI summary returned HTTP 429 Too Many Requests (rate limited — try again in a moment): slow"
    );
    assert_eq!(
        refused(599, "599 <unknown status code>", "x"),
        "AI summary returned HTTP 599 <unknown status code> (OpenAI server error): x"
    );
    assert_eq!(
        refused(404, "404 Not Found", &"ü".repeat(300)),
        format!("AI summary returned HTTP 404 Not Found: {}", "ü".repeat(200))
    );
}
