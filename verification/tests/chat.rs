use tokamak::binary64::Binary64;
use tokamak::chat::{
    chat_request, chunk_delta, chunk_finish, clean_title, completions_url, extract_delta,
    extract_finish, pick_title, request_failed, sse_payload, title_from_reply, title_request,
    ChatMessage, ChatParams, ChatState, LineRead, StreamAction, StreamState,
};
use tokamak::json::{as_text, as_whole, at, get, parse_json, Json};

#[test]
fn cleans_up_model_titles() {
    // Plain answer.
    assert_eq!(clean_title("Todo app design"), "Todo app design");
    // Padding models add despite instructions.
    assert_eq!(clean_title("\"Todo app design\""), "Todo app design");
    assert_eq!(clean_title("Title: Todo app design."), "Todo app design");
    assert_eq!(clean_title("**Todo app design**"), "Todo app design");
    // Reasoning models emit a think block, then the title.
    assert_eq!(
        clean_title("<think>weighing options</think>
Todo app design"),
        "Todo app design"
    );
    // Preamble lines before the answer: trust the last one.
    assert_eq!(
        clean_title("Sure, here is a title:
Todo app design"),
        "Todo app design"
    );
    // Runaway output is capped without cutting mid-word.
    let long = clean_title(&"word ".repeat(40));
    assert!(long.chars().count() <= 70);
    assert!(!long.ends_with("wor"));
    // Nothing usable.
    assert_eq!(clean_title("   "), "");
}

#[test]
fn parses_sse_data_lines() {
    assert_eq!(sse_payload("data: {\"x\":1}").as_deref(), Some("{\"x\":1}"));
    assert_eq!(sse_payload("data:[DONE]").as_deref(), Some("[DONE]"));
    assert_eq!(sse_payload(": comment").as_deref(), None);
    assert_eq!(sse_payload("").as_deref(), None);
}

#[test]
fn extracts_content_delta() {
    let chunk = r#"{"choices":[{"delta":{"content":"Hel"},"index":0}]}"#;
    assert_eq!(extract_delta(chunk), Some(("Hel".to_string(), false)));
    // Reasoning models stream thinking under reasoning_content.
    let think = r#"{"choices":[{"delta":{"reasoning_content":"hmm"},"index":0}]}"#;
    assert_eq!(extract_delta(think), Some(("hmm".to_string(), true)));
    // Role-only first chunk carries no content.
    let role = r#"{"choices":[{"delta":{"role":"assistant"},"index":0}]}"#;
    assert_eq!(extract_delta(role), None);
    // Finish chunk with empty delta.
    let fin = r#"{"choices":[{"delta":{},"finish_reason":"stop"}]}"#;
    assert_eq!(extract_delta(fin), None);
}

#[test]
fn extracts_finish_reason() {
    // The reason rides on a chunk whose delta is empty — the one case
    // extract_delta ignores, which is exactly why it needs its own parse.
    let cut = r#"{"choices":[{"delta":{},"finish_reason":"length"}]}"#;
    assert_eq!(extract_finish(cut), Some("length".to_string()));
    assert_eq!(extract_delta(cut), None);

    let done = r#"{"choices":[{"delta":{},"finish_reason":"stop"}]}"#;
    assert_eq!(extract_finish(done), Some("stop".to_string()));

    // Ordinary content chunks carry no reason (it is JSON null until the end).
    let mid = r#"{"choices":[{"delta":{"content":"hi"},"finish_reason":null}]}"#;
    assert_eq!(extract_finish(mid), None);
    assert_eq!(extract_delta(mid), Some(("hi".to_string(), false)));
}

#[test]
fn a_long_title_loses_its_last_word() {
    let words = clean_title(&"word ".repeat(40));
    assert_eq!(words, "word ".repeat(14).trim());
    let one_word = clean_title(&"x".repeat(100));
    assert_eq!(one_word, "x".repeat(70));
    assert_eq!(clean_title("title: “Notes”"), "Notes");
    assert_eq!(clean_title("Title: \"Todo app\"."), "Todo app");
    assert_eq!(clean_title("**Title: **Todo app**"), "Todo app");
}

#[test]
fn one_generation_at_a_time() {
    let mut s = ChatState::default();
    s.cancel();
    let first = s.arm();
    assert!(!s.is_cancelled(first));
    let second = s.arm();
    assert!(s.is_cancelled(first));
    assert!(!s.is_cancelled(second));
    s.cancel();
    assert!(s.is_cancelled(second));
    let third = s.arm();
    assert!(s.is_cancelled(second));
    assert!(!s.is_cancelled(third));
}

#[test]
fn requests_hold_what_was_asked() {
    let messages =
        vec![ChatMessage { role: "user".to_string(), content: "hi".to_string() }];
    let plain = chat_request(&messages, &ChatParams::default());
    let first = at(get(Some(&plain), "messages"), 0);
    assert_eq!(as_text(get(first, "role")).map(String::as_str), Some("user"));
    assert_eq!(as_text(get(first, "content")).map(String::as_str), Some("hi"));
    assert!(matches!(get(Some(&plain), "stream"), Some(Json::Bool(true))));
    assert!(get(Some(&plain), "top_k").is_none());
    let params = ChatParams {
        temperature: Some(Binary64 { bits: 0.7f64.to_bits() }),
        top_k: Some(40),
        ..ChatParams::default()
    };
    let full = chat_request(&messages, &params);
    assert_eq!(as_whole(get(Some(&full), "top_k")), Some(40));
    match get(Some(&full), "temperature") {
        Some(Json::Number(n)) => assert_eq!(f64::from_bits(n.float.bits), 0.7),
        other => panic!("got {other:?}"),
    }
    let title = title_request("A: b");
    let prompt = as_text(get(at(get(Some(&title), "messages"), 0), "content")).unwrap();
    assert!(prompt.starts_with("Summarise this conversation") && prompt.ends_with("\n\nA: b"));
    assert_eq!(as_whole(get(Some(&title), "max_tokens")), Some(2000));
    match get(Some(&title), "temperature") {
        Some(Json::Number(n)) => assert_eq!(f64::from_bits(n.float.bits), 0.3),
        other => panic!("got {other:?}"),
    }
    assert_eq!(completions_url("http://h:1"), "http://h:1/v1/chat/completions");
}

#[test]
fn titles_come_from_the_content_or_the_reasoning() {
    let reply = r#"{"choices":[{"message":{"content":" \"Plans\" ","reasoning_content":"x"}}]}"#;
    assert_eq!(title_from_reply(reply), Ok("Plans".to_string()));
    let cut = r#"{"choices":[{"message":{"content":"  ","reasoning_content":"Plans"}}]}"#;
    assert_eq!(title_from_reply(cut), Ok("Plans".to_string()));
    let parsed = parse_json(cut).unwrap();
    assert_eq!(pick_title(&parsed), Ok("Plans".to_string()));
    assert_eq!(title_from_reply("{}"), Err("model returned no usable title".to_string()));
    assert!(title_from_reply("nonsense").is_err());
}

fn line(s: &str) -> LineRead {
    LineRead::Line(s.to_string())
}

#[test]
fn a_stream_is_read_to_its_end() {
    let mut s = StreamState::new();
    assert!(matches!(s.step(false, &line(": ping")), StreamAction::Continue));
    match s.step(false, &line(r#"data: {"choices":[{"delta":{"content":"He"}}]}"#)) {
        StreamAction::Emit { content, reasoning } => assert!(content == "He" && !reasoning),
        other => panic!("got {other:?}"),
    }
    s.step(false, &line(r#"data: {"choices":[{"delta":{"content":"y"}}]}"#));
    assert!(matches!(s.step(false, &line("data: not a document")), StreamAction::Continue));
    let fin = r#"data: {"choices":[{"delta":{},"finish_reason":"length"}]}"#;
    assert!(matches!(s.step(false, &line(fin)), StreamAction::Continue));
    assert!(matches!(s.step(false, &line("data: [DONE]")), StreamAction::End));
    let d = s.done(5, Binary64 { bits: 0.5f64.to_bits() });
    assert_eq!((d.id, d.tokens), (5, 2));
    assert_eq!(f64::from_bits(d.decode_tok_s.bits), 2.0);
    assert_eq!(d.finish.as_deref(), Some("length"));
    assert!(!d.stopped && d.error.is_none());
}

#[test]
fn a_broken_stream_never_looks_complete() {
    let mut s = StreamState::new();
    s.step(false, &line(r#"data: {"choices":[{"delta":{"content":"a"}}]}"#));
    assert!(matches!(s.step(false, &LineRead::Failed("reset".to_string())), StreamAction::End));
    let d = s.done(1, Binary64 { bits: 0 });
    assert_eq!(d.error.as_deref(), Some("stream interrupted after 1 tokens: reset"));
    assert_eq!(f64::from_bits(d.decode_tok_s.bits), 0.0);
    let mut c = StreamState::new();
    assert!(matches!(c.step(true, &line("data: [DONE]")), StreamAction::End));
    assert!(c.done(1, Binary64 { bits: 0 }).stopped);
    assert_eq!(request_failed(1, "refused").error.as_deref(), Some("request failed: refused"));
}

#[test]
fn chunks_that_were_read_say_the_same() {
    let j = parse_json(r#"{"choices":[{"delta":{"content":""},"finish_reason":"stop"}]}"#).unwrap();
    assert_eq!(chunk_finish(&j).as_deref(), Some("stop"));
    assert_eq!(chunk_delta(&j), None);
}
