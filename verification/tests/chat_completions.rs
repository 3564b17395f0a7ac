use chat_sse::chunk::{
    ChatChunk, ChatChunkChoice, ChatChunkDelta, ChatChunkFunctionDelta, ChatChunkToolCallDelta,
    ChatChunkUsage, ChatErrorDetail, ChatErrorPayload,
};
use chat_sse::error::{categorize_chat_error, ApiError};
use chat_sse::events::{ContentItem, MessagePhase, Outgoing, ResponseEvent, ResponseItem, TokenUsage};
use chat_sse::stream::{start_events_for, ChatStream, SseInput};
use chat_sse::text::is_done_marker;

// ── Helpers that build what the JSON of each SSE event decodes to ─────────

fn s(x: &str) -> Option<String> {
    Some(x.to_string())
}

fn delta(content: Option<&str>, reasoning: Option<&str>) -> ChatChunkDelta {
    ChatChunkDelta {
        content: content.map(|c| c.to_string()),
        reasoning_content: reasoning.map(|c| c.to_string()),
        tool_calls: None,
    }
}

fn empty_delta() -> ChatChunkDelta {
    delta(None, None)
}

fn choice(d: Option<ChatChunkDelta>, finish: Option<&str>) -> ChatChunkChoice {
    ChatChunkChoice { delta: d, finish_reason: finish.map(|f| f.to_string()) }
}

fn chunk(id: Option<&str>, choices: Vec<ChatChunkChoice>, usage: Option<ChatChunkUsage>) -> ChatChunk {
    ChatChunk { id: id.map(|i| i.to_string()), model: None, choices: Some(choices), usage }
}

fn usage(prompt: i64, completion: i64, total: i64) -> ChatChunkUsage {
    ChatChunkUsage { prompt_tokens: Some(prompt), completion_tokens: Some(completion), total_tokens: total }
}

fn tool_call(index: i32, id: Option<&str>, name: Option<&str>, args: Option<&str>) -> ChatChunkToolCallDelta {
    ChatChunkToolCallDelta {
        index,
        id: id.map(|i| i.to_string()),
        function: Some(ChatChunkFunctionDelta {
            name: name.map(|n| n.to_string()),
            arguments: args.map(|a| a.to_string()),
        }),
    }
}

/// An SSE event whose data decodes as a chunk (and as an error payload without `error`).
fn chunk_event(data: &str, c: ChatChunk) -> SseInput {
    SseInput::Event {
        data: data.to_string(),
        error_payload: Some(ChatErrorPayload { error: None }),
        chunk: Some(c),
    }
}

/// Runs a stream from its start (which emits `Created`) over the inputs, the way the
/// consumer of the stream sees it.
fn collect_events(inputs: Vec<SseInput>) -> Vec<Result<ResponseEvent, ApiError>> {
    let mut events: Vec<Result<ResponseEvent, ApiError>> =
        start_events_for(None).into_iter().map(|o| o.item).collect();
    let mut stream = ChatStream::new();
    for input in inputs {
        let step = stream.process_sse_event(input);
        events.extend(step.events.into_iter().map(|o: Outgoing| o.item));
        if step.finished {
            return events;
        }
    }
    let step = stream.process_sse_event(SseInput::Closed);
    events.extend(step.events.into_iter().map(|o| o.item));
    events
}

fn is_terminal(e: &Result<ResponseEvent, ApiError>) -> bool {
    matches!(e, Ok(ResponseEvent::Completed { .. }) | Err(_))
}

// ── The scenarios of the original ─────────────────────────────────────────

#[test]
fn parses_simple_text_chunks() {
    let c1 = chunk(s("chatcmpl-1").as_deref(), vec![choice(Some(delta(Some("Hello"), None)), None)], None);
    let c2 = chunk(Some("chatcmpl-1"), vec![choice(Some(delta(Some(" World"), None)), None)], None);
    let c3 = chunk(Some("chatcmpl-1"), vec![choice(Some(empty_delta()), Some("stop"))], Some(usage(10, 2, 12)));
    let events = collect_events(vec![
        chunk_event(r#"{"id":"chatcmpl-1","object":"chat.completion.chunk","choices":[{"delta":{"content":"Hello"},"finish_reason":null}]}"#, c1),
        chunk_event(r#"{"id":"chatcmpl-1","object":"chat.completion.chunk","choices":[{"delta":{"content":" World"},"finish_reason":null}]}"#, c2),
        chunk_event(r#"{"id":"chatcmpl-1","object":"chat.completion.chunk","choices":[{"delta":{},"finish_reason":"stop"}],"usage":{"prompt_tokens":10,"completion_tokens":2,"total_tokens":12}}"#, c3),
    ]);

    // Created + 2 OutputTextDelta + OutputItemDone(Message) + Completed
    assert_eq!(events.len(), 5);
}

#[test]
fn parses_reasoning_content_chunks() {
    let c1 = chunk(Some("chatcmpl-1"), vec![choice(Some(delta(None, Some("Let me think..."))), None)], None);
    let c2 = chunk(Some("chatcmpl-1"), vec![choice(Some(delta(Some("Answer"), None)), Some("stop"))], Some(usage(5, 1, 6)));
    let events = collect_events(vec![
        chunk_event(r#"{"id":"chatcmpl-1","choices":[{"delta":{"reasoning_content":"Let me think..."},"finish_reason":null}]}"#, c1),
        chunk_event(r#"{"id":"chatcmpl-1","choices":[{"delta":{"content":"Answer"},"finish_reason":"stop"}],"usage":{"prompt_tokens":5,"completion_tokens":1,"total_tokens":6}}"#, c2),
    ]);

    let has_reasoning = events
        .iter()
        .any(|e| matches!(e, Ok(ResponseEvent::ReasoningContentDelta { .. })));
    assert!(has_reasoning, "expected ReasoningContentDelta in {events:?}");
}

#[test]
fn handles_done_marker() {
    let events = collect_events(vec![SseInput::Event {
        data: "[DONE]".to_string(),
        error_payload: None,
        chunk: None,
    }]);

    assert_eq!(events.len(), 2); // Created + Completed
    assert!(matches!(&events[1], Ok(ResponseEvent::Completed { .. })));
}

#[test]
fn handles_error_chunk() {
    let payload = ChatErrorPayload {
        error: Some(ChatErrorDetail { code: s("context_length_exceeded"), message: s("Too long") }),
    };
    let events = collect_events(vec![SseInput::Event {
        data: r#"{"error":{"code":"context_length_exceeded","message":"Too long"}}"#.to_string(),
        error_payload: Some(payload),
        chunk: Some(ChatChunk { id: None, model: None, choices: None, usage: None }),
    }]);

    assert!(matches!(&events[1], Err(ApiError::ContextWindowExceeded)));
}

#[test]
fn handles_stream_without_completed() {
    // Stream ends without usage or [DONE]
    let c = chunk(Some("c1"), vec![choice(Some(delta(Some("Hi"), None)), None)], None);
    let mut events: Vec<Result<ResponseEvent, ApiError>> =
        start_events_for(None).into_iter().map(|o| o.item).collect();
    let mut stream = ChatStream::new();
    let step = stream.process_sse_event(chunk_event(
        r#"{"id":"c1","choices":[{"delta":{"content":"Hi"},"finish_reason":null}]}"#,
        c,
    ));
    assert!(!step.finished);
    events.extend(step.events.into_iter().map(|o| o.item));
    let step = stream.process_sse_event(SseInput::Closed);
    assert!(step.finished);
    events.extend(step.events.into_iter().map(|o| o.item));

    // Should end with a Completed event (synthesized on stream close)
    assert!(events.last().is_some_and(|e| matches!(e, Ok(ResponseEvent::Completed { .. }))));
}

#[test]
fn parses_tool_call_delta_chunks() {
    let mut d1 = empty_delta();
    d1.tool_calls = Some(vec![tool_call(0, Some("call_1"), Some("get_weather"), Some(""))]);
    let mut d2 = empty_delta();
    d2.tool_calls = Some(vec![tool_call(0, None, None, Some("{\"city\":\"NY\"}"))]);
    let events = collect_events(vec![
        chunk_event(
            r#"{"id":"c1","choices":[{"delta":{"tool_calls":[{"index":0,"id":"call_1","type":"function","function":{"name":"get_weather","arguments":""}}]},"finish_reason":null}]}"#,
            chunk(Some("c1"), vec![choice(Some(d1), None)], None),
        ),
        chunk_event(
            r#"{"id":"c1","choices":[{"delta":{"tool_calls":[{"index":0,"function":{"arguments":"{\"city\":\"NY\"}"}}]},"finish_reason":null}]}"#,
            chunk(Some("c1"), vec![choice(Some(d2), None)], None),
        ),
        chunk_event(
            r#"{"id":"c1","choices":[{"delta":{},"finish_reason":"tool_calls"}],"usage":{"prompt_tokens":10,"completion_tokens":3,"total_tokens":13}}"#,
            chunk(Some("c1"), vec![choice(Some(empty_delta()), Some("tool_calls"))], Some(usage(10, 3, 13))),
        ),
    ]);

    let has_tool_delta = events
        .iter()
        .any(|e| matches!(e, Ok(ResponseEvent::ToolCallInputDelta { .. })));
    assert!(has_tool_delta, "expected ToolCallInputDelta in {events:?}");
}

// ── Exact values ──────────────────────────────────────────────────────────

fn message(text: &str) -> ResponseEvent {
    ResponseEvent::OutputItemDone(ResponseItem::Message {
        id: None,
        role: "assistant".to_string(),
        content: vec![ContentItem::OutputText { text: text.to_string() }],
        phase: Some(MessagePhase::FinalAnswer),
    })
}

fn oks(events: &[Result<ResponseEvent, ApiError>]) -> Vec<ResponseEvent> {
    events.iter().map(|e| e.as_ref().unwrap().clone()).collect()
}

#[test]
fn simple_text_events_in_order() {
    let events = collect_events(vec![
        chunk_event("a", chunk(Some("chatcmpl-1"), vec![choice(Some(delta(Some("Hello"), None)), None)], None)),
        chunk_event("b", chunk(Some("chatcmpl-1"), vec![choice(Some(delta(Some(" World"), None)), None)], None)),
        chunk_event("c", chunk(Some("chatcmpl-1"), vec![choice(Some(empty_delta()), Some("stop"))], Some(usage(10, 2, 12)))),
    ]);
    assert_eq!(
        oks(&events),
        vec![
            ResponseEvent::Created,
            ResponseEvent::OutputTextDelta("Hello".to_string()),
            ResponseEvent::OutputTextDelta(" World".to_string()),
            message("Hello World"),
            ResponseEvent::Completed {
                response_id: "chatcmpl-1".to_string(),
                token_usage: Some(TokenUsage {
                    input_tokens: 10,
                    cached_input_tokens: 0,
                    output_tokens: 2,
                    reasoning_output_tokens: 0,
                    total_tokens: 12,
                }),
                end_turn: Some(true),
            },
        ]
    );
}

#[test]
fn message_carries_text_since_reasoning() {
    // Law: every message carries the text deltas since the last reasoning delta; text
    // flushed before reasoning is not sent again.
    let events = collect_events(vec![
        chunk_event("a", chunk(Some("x"), vec![choice(Some(delta(Some("ab"), None)), None)], None)),
        chunk_event("b", chunk(Some("x"), vec![choice(Some(delta(Some("c"), Some("hmm"))), None)], None)),
        chunk_event("c", chunk(Some("x"), vec![choice(Some(delta(Some("d"), None)), Some("length"))], None)),
    ]);
    let mut pending = String::new();
    let mut messages = 0;
    for e in &events {
        match e {
            Ok(ResponseEvent::OutputTextDelta(t)) => pending.push_str(t),
            Ok(ResponseEvent::ReasoningContentDelta { .. }) => pending.clear(),
            Ok(ResponseEvent::OutputItemDone(ResponseItem::Message { content, .. })) => {
                messages += 1;
                assert_eq!(content, &vec![ContentItem::OutputText { text: pending.clone() }]);
            }
            _ => {}
        }
    }
    assert_eq!(messages, 2);
    assert_eq!(
        oks(&events)[1..8].to_vec(),
        vec![
            ResponseEvent::OutputTextDelta("ab".to_string()),
            message("ab"),
            ResponseEvent::ReasoningContentDelta { delta: "hmm".to_string(), content_index: 0 },
            ResponseEvent::OutputTextDelta("c".to_string()),
            ResponseEvent::OutputTextDelta("d".to_string()),
            message("cd"),
            ResponseEvent::Completed { response_id: "x".to_string(), token_usage: None, end_turn: Some(true) },
        ]
    );
}

#[test]
fn reasoning_flush_is_not_repeated() {
    let events = collect_events(vec![
        chunk_event("1", chunk(Some("r"), vec![choice(Some(delta(Some("A"), None)), None)], None)),
        chunk_event("2", chunk(None, vec![choice(Some(delta(None, Some("t"))), None)], None)),
        chunk_event("3", chunk(None, vec![choice(Some(delta(Some("B"), None)), Some("stop"))], None)),
        SseInput::Event { data: "[DONE]".to_string(), error_payload: None, chunk: None },
    ]);
    assert_eq!(
        oks(&events),
        vec![
            ResponseEvent::Created,
            ResponseEvent::OutputTextDelta("A".to_string()),
            message("A"),
            ResponseEvent::ReasoningContentDelta { delta: "t".to_string(), content_index: 0 },
            ResponseEvent::OutputTextDelta("B".to_string()),
            message("B"),
            ResponseEvent::Completed { response_id: "r".to_string(), token_usage: None, end_turn: Some(true) },
        ]
    );
}

#[test]
fn error_is_sent_once_and_ends_the_stream() {
    // Law: an error comes only from a failing input, as the last event; later inputs are ignored.
    let payload = ChatErrorPayload {
        error: Some(ChatErrorDetail { code: s("insufficient_quota"), message: None }),
    };
    let events = collect_events(vec![
        chunk_event("a", chunk(Some("x"), vec![choice(Some(delta(Some("hi"), None)), None)], None)),
        SseInput::Event { data: "{\"error\":{}}".to_string(), error_payload: Some(payload), chunk: None },
        SseInput::IdleTimeout,
    ]);
    assert_eq!(events.len(), 3);
    assert!(matches!(events.last().unwrap(), Err(ApiError::QuotaExceeded)));
    assert_eq!(events.iter().filter(|e| e.is_err()).count(), 1);
}

#[test]
fn done_marker_wins_over_an_error_payload() {
    let payload = ChatErrorPayload { error: Some(ChatErrorDetail { code: None, message: None }) };
    let events = collect_events(vec![SseInput::Event {
        data: "[DONE]".to_string(),
        error_payload: Some(payload),
        chunk: None,
    }]);
    assert!(matches!(events[1], Ok(ResponseEvent::Completed { end_turn: Some(true), .. })));
    assert!(events.iter().all(|e| e.is_ok()));
}

#[test]
fn single_terminal_event_is_last() {
    let inputs = vec![
        chunk_event("a", chunk(Some("x"), vec![choice(Some(delta(Some("hi"), None)), Some("stop"))], Some(usage(1, 1, 2)))),
        chunk_event("b", chunk(Some("y"), vec![choice(Some(delta(Some("more"), None)), None)], None)),
    ];
    let events = collect_events(inputs);
    let terminals: Vec<usize> = events
        .iter()
        .enumerate()
        .filter(|(_, e)| is_terminal(e))
        .map(|(i, _)| i)
        .collect();
    assert_eq!(terminals, vec![events.len() - 1]);
    assert_eq!(events.len(), 4);
}

#[test]
fn done_marker_ignores_surrounding_whitespace() {
    assert!(is_done_marker("[DONE]"));
    assert!(is_done_marker("  [DONE]\n"));
    assert!(is_done_marker("\t[DONE]\u{3000}"));
    assert!(!is_done_marker("[DONE]x"));
    assert!(!is_done_marker("[done]"));
    assert!(!is_done_marker(""));
    assert!(!is_done_marker("[ DONE]"));
}

#[test]
fn done_marker_completes_with_known_id() {
    let events = collect_events(vec![
        chunk_event("a", chunk(Some("resp-7"), vec![], None)),
        SseInput::Event { data: " [DONE] ".to_string(), error_payload: None, chunk: None },
    ]);
    assert_eq!(
        oks(&events),
        vec![
            ResponseEvent::Created,
            ResponseEvent::Completed { response_id: "resp-7".to_string(), token_usage: None, end_turn: Some(true) },
        ]
    );
}

#[test]
fn response_id_comes_from_first_chunk_with_an_id() {
    // Law: once the response id is known it is kept.
    let events = collect_events(vec![
        chunk_event("a", chunk(None, vec![], None)),
        chunk_event("b", chunk(Some("first"), vec![], None)),
        chunk_event("c", chunk(Some("second"), vec![], None)),
    ]);
    assert_eq!(
        events.last().unwrap().as_ref().unwrap(),
        &ResponseEvent::Completed { response_id: "first".to_string(), token_usage: None, end_turn: Some(true) }
    );
}

#[test]
fn closed_without_chunks_completes_with_empty_id() {
    let events = collect_events(vec![]);
    assert_eq!(
        oks(&events),
        vec![
            ResponseEvent::Created,
            ResponseEvent::Completed { response_id: String::new(), token_usage: None, end_turn: Some(true) },
        ]
    );
}

#[test]
fn model_is_announced_when_it_changes() {
    let mut c1 = chunk(Some("x"), vec![], None);
    c1.model = s("gpt-a");
    let mut c2 = chunk(Some("x"), vec![], None);
    c2.model = s("gpt-a");
    let mut c3 = chunk(Some("x"), vec![], None);
    c3.model = s("gpt-b");
    let events = collect_events(vec![chunk_event("1", c1), chunk_event("2", c2), chunk_event("3", c3)]);
    assert_eq!(
        oks(&events),
        vec![
            ResponseEvent::Created,
            ResponseEvent::ServerModel("gpt-a".to_string()),
            ResponseEvent::ServerModel("gpt-b".to_string()),
            ResponseEvent::Completed { response_id: "x".to_string(), token_usage: None, end_turn: Some(true) },
        ]
    );
}

#[test]
fn start_events_announce_header_model_then_created() {
    let items: Vec<(ResponseEvent, bool)> = start_events_for(s("m1"))
        .into_iter()
        .map(|o| (o.item.unwrap(), o.stop_if_undelivered))
        .collect();
    assert_eq!(
        items,
        vec![(ResponseEvent::ServerModel("m1".to_string()), false), (ResponseEvent::Created, true)]
    );
}

#[test]
fn header_model_does_not_suppress_chunk_model() {
    let mut stream = ChatStream::new();
    let mut c = chunk(None, vec![], None);
    c.model = s("m1");
    let step = stream.process_sse_event(chunk_event("a", c));
    let items: Vec<ResponseEvent> = step.events.into_iter().map(|o| o.item.unwrap()).collect();
    assert_eq!(items, vec![ResponseEvent::ServerModel("m1".to_string())]);
}

#[test]
fn tool_calls_are_emitted_by_index_when_complete() {
    let mut d1 = empty_delta();
    d1.tool_calls = Some(vec![
        tool_call(2, Some("call_b"), Some("second"), Some("{}")),
        tool_call(1, Some("call_a"), Some("fir"), Some("{\"a\"")),
        tool_call(5, None, Some("nameless"), Some("x")),
    ]);
    let mut d2 = empty_delta();
    d2.tool_calls = Some(vec![tool_call(1, None, Some("st"), Some(":1}"))]);
    let events = collect_events(vec![
        chunk_event("a", chunk(Some("c"), vec![choice(Some(d1), None)], None)),
        chunk_event("b", chunk(Some("c"), vec![choice(Some(d2), Some("tool_calls"))], None)),
    ]);
    let items = oks(&events);
    assert_eq!(
        items[1..6].to_vec(),
        vec![
            ResponseEvent::ToolCallInputDelta { item_id: "call_b".to_string(), call_id: s("call_b"), delta: "{}".to_string() },
            ResponseEvent::ToolCallInputDelta { item_id: "call_a".to_string(), call_id: s("call_a"), delta: "{\"a\"".to_string() },
            ResponseEvent::ToolCallInputDelta { item_id: String::new(), call_id: Some(String::new()), delta: "x".to_string() },
            ResponseEvent::ToolCallInputDelta { item_id: "call_a".to_string(), call_id: s("call_a"), delta: ":1}".to_string() },
            ResponseEvent::OutputItemDone(ResponseItem::FunctionCall {
                id: None,
                name: "first".to_string(),
                namespace: None,
                arguments: "{\"a\":1}".to_string(),
                call_id: "call_a".to_string(),
            }),
        ]
    );
    assert_eq!(
        items[6],
        ResponseEvent::OutputItemDone(ResponseItem::FunctionCall {
            id: None,
            name: "second".to_string(),
            namespace: None,
            arguments: "{}".to_string(),
            call_id: "call_b".to_string(),
        })
    );
    assert!(matches!(items[7], ResponseEvent::Completed { .. }));
    assert_eq!(items.len(), 8);
}

#[test]
fn finish_reasons_that_emit_nothing() {
    for reason in ["", "null", "function_call", "STOP"] {
        let events = collect_events(vec![chunk_event(
            "a",
            chunk(Some("c"), vec![choice(Some(delta(Some("t"), None)), Some(reason))], None),
        )]);
        assert_eq!(events.len(), 3, "reason {reason:?}");
    }
    for reason in ["stop", "length", "content_filter"] {
        let events = collect_events(vec![chunk_event(
            "a",
            chunk(Some("c"), vec![choice(Some(delta(Some("t"), None)), Some(reason))], None),
        )]);
        assert_eq!(events[2].as_ref().unwrap(), &message("t"), "reason {reason:?}");
    }
}

#[test]
fn empty_text_emits_no_message() {
    let events = collect_events(vec![chunk_event(
        "a",
        chunk(Some("c"), vec![choice(None, Some("stop"))], None),
    )]);
    assert_eq!(events.len(), 2);
}

#[test]
fn every_choice_folds_into_one_accumulator() {
    let events = collect_events(vec![chunk_event(
        "a",
        chunk(
            Some("c"),
            vec![
                choice(Some(delta(Some("one "), None)), None),
                choice(Some(delta(Some("two"), None)), Some("stop")),
            ],
            None,
        ),
    )]);
    assert_eq!(events[3].as_ref().unwrap(), &message("one two"));
}

#[test]
fn usage_without_counts_reports_zero() {
    let u = ChatChunkUsage { prompt_tokens: None, completion_tokens: None, total_tokens: 9 };
    let events = collect_events(vec![chunk_event("a", chunk(None, vec![], Some(u)))]);
    assert_eq!(
        events.last().unwrap().as_ref().unwrap(),
        &ResponseEvent::Completed {
            response_id: String::new(),
            token_usage: Some(TokenUsage {
                input_tokens: 0,
                cached_input_tokens: 0,
                output_tokens: 0,
                reasoning_output_tokens: 0,
                total_tokens: 9,
            }),
            end_turn: Some(true),
        }
    );
}

#[test]
fn undecodable_data_is_skipped() {
    let events = collect_events(vec![
        SseInput::Event { data: "not json".to_string(), error_payload: None, chunk: None },
        chunk_event("a", chunk(Some("c"), vec![choice(Some(delta(Some("x"), None)), None)], None)),
    ]);
    assert_eq!(events.len(), 3);
    assert_eq!(events[1].as_ref().unwrap(), &ResponseEvent::OutputTextDelta("x".to_string()));
}

#[test]
fn error_payload_without_message() {
    let payload = ChatErrorPayload { error: Some(ChatErrorDetail { code: None, message: None }) };
    let events = collect_events(vec![SseInput::Event {
        data: "{\"error\":{}}".to_string(),
        error_payload: Some(payload),
        chunk: None,
    }]);
    assert!(matches!(&events[1], Err(ApiError::Stream(m)) if m == "chat completions error"));
    assert_eq!(events.len(), 2);
}

#[test]
fn transport_failure_and_idle_timeout() {
    let mut stream = ChatStream::new();
    let step = stream.process_sse_event(SseInput::Failed("Transport error: reset".to_string()));
    assert!(step.finished);
    assert!(matches!(&step.events[0].item, Err(ApiError::Stream(m)) if m == "Transport error: reset"));
    let mut stream = ChatStream::new();
    let step = stream.process_sse_event(SseInput::IdleTimeout);
    assert!(step.finished);
    assert!(matches!(&step.events[0].item, Err(ApiError::Stream(m)) if m == "idle timeout waiting for SSE"));
}

#[test]
fn delivery_failures_that_stop_the_stream() {
    let mut stream = ChatStream::new();
    let mut d = delta(Some("b"), Some("r"));
    d.tool_calls = Some(vec![tool_call(0, Some("i"), Some("n"), Some("a"))]);
    let step = stream.process_sse_event(chunk_event(
        "x",
        chunk(Some("c"), vec![choice(Some(delta(Some("a"), None)), None), choice(Some(d), Some("stop"))], None),
    ));
    let flags: Vec<bool> = step.events.iter().map(|o| o.stop_if_undelivered).collect();
    // text "a", message "a", reasoning, tool delta, text "b", message "ab"
    assert_eq!(flags, vec![true, false, true, true, true, false]);
}

#[test]
fn categorize_chat_error_codes() {
    assert!(matches!(categorize_chat_error(Some("context_length_exceeded"), "m"), ApiError::ContextWindowExceeded));
    assert!(matches!(categorize_chat_error(Some("insufficient_quota"), "m"), ApiError::QuotaExceeded));
    assert!(matches!(
        categorize_chat_error(Some("rate_limit_exceeded"), "slow down"),
        ApiError::Retryable { message, delay: None } if message == "slow down"
    ));
    assert!(matches!(
        categorize_chat_error(Some("server_error"), "oops"),
        ApiError::Retryable { message, delay: None } if message == "oops"
    ));
    assert!(matches!(
        categorize_chat_error(Some("invalid_request_error"), "bad"),
        ApiError::InvalidRequest { message } if message == "bad"
    ));
    assert!(matches!(categorize_chat_error(Some("other"), "msg"), ApiError::Stream(m) if m == "msg"));
    assert!(matches!(categorize_chat_error(None, "none"), ApiError::Stream(m) if m == "none"));
}
