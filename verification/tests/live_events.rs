use claude_sessions::double::Double;
use claude_sessions::json::Json;
use claude_sessions::live_state::{
    parse_channel_inbox_line, parse_hook_event, timestamp_ms, ChannelInboxEvent, HookEvent, LiveState, StatusSnapshot,
    Turn,
};
use serde_json::Value;

/// A JSON value from its text.
fn json(text: &str) -> serde_json::Value {
    serde_json::from_str(text).expect("the text is JSON")
}

fn value<T: serde::Serialize>(value: T) -> serde_json::Value {
    serde_json::to_value(value).expect("the value is JSON")
}

/// The same value as the library holds it.
fn held(value: serde_json::Value) -> Json {
    Json::parse(&value.to_string()).expect("a JSON value has a text")
}

fn float(value: Option<Double>) -> Option<f64> {
    value.map(|value| f64::from_bits(value.bits))
}

fn event(name: &str, received_at_ms: i64, extra: Value) -> HookEvent {
    let mut raw = extra;
    let object = raw.as_object_mut().expect("event extras are an object");
    object.insert("hook_event_name".into(), value(name));
    object
        .entry("session_id")
        .or_insert_with(|| json(r#""session-1""#));
    HookEvent {
        received_at_ms,
        name: name.to_string(),
        session_id: object
            .get("session_id")
            .and_then(Value::as_str)
            .unwrap_or("session-1")
            .to_string(),
        permission_mode: object
            .get("permission_mode")
            .and_then(Value::as_str)
            .map(str::to_string),
        tool_use_id: object
            .get("tool_use_id")
            .and_then(Value::as_str)
            .map(str::to_string),
        tool_name: object
            .get("tool_name")
            .and_then(Value::as_str)
            .map(str::to_string),
        tool_input: object
            .get("tool_input")
            .cloned()
            .filter(|value| !value.is_null())
            .map(held),
        raw: held(raw),
    }
}

fn apply_named(state: &mut LiveState, name: &str, received_at_ms: i64, extra: Value) {
    state.apply(&event(name, received_at_ms, extra));
}

#[test]
fn parse_hook_event_skips_blank_and_unshaped_lines() {
    assert!(parse_hook_event("").is_none());
    assert!(parse_hook_event("   \n").is_none());
    assert!(parse_hook_event("[]").is_none());
    assert!(parse_hook_event(r#"{"received_at_ms":1}"#).is_none());
    assert!(
        parse_hook_event(r#"{"received_at_ms":1,"event":{"hook_event_name":"Stop"}}"#)
            .is_none()
    );
    assert!(parse_hook_event(r#"{"received_at_ms":1,"event":{"session_id":"s"}}"#).is_none());
}

#[test]
fn parse_hook_event_reads_the_wrapper_and_defaults_received_at() {
    let parsed = parse_hook_event(
        r#"{"event":{"hook_event_name":"Stop","session_id":"s1","permission_mode":"auto","tool_use_id":"t","tool_name":"Read","tool_input":{"file_path":"a.rs"}}}"#,
    )
    .expect("a wrapped event parses");
    assert_eq!(parsed.received_at_ms, 0);
    assert_eq!(parsed.name, "Stop");
    assert_eq!(parsed.session_id, "s1");
    assert_eq!(parsed.permission_mode.as_deref(), Some("auto"));
    assert_eq!(parsed.tool_use_id.as_deref(), Some("t"));
    assert_eq!(parsed.tool_name.as_deref(), Some("Read"));
    assert_eq!(parsed.tool_input, Some(held(json(r#"{"file_path": "a.rs"}"#))));
    assert_eq!(parsed.raw.get("hook_event_name"), Some(&held(json(r#""Stop""#))));
}

#[test]
fn every_event_records_time_and_permission_mode() {
    let mut state = LiveState::default();
    apply_named(
        &mut state,
        "PostModelSwitch",
        42,
        json(r#"{"permission_mode": "plan"}"#),
    );
    assert_eq!(state.last_event_at_ms, 42);
    assert_eq!(state.permission_mode.as_deref(), Some("plan"));
    assert!(state.is_idle());
}

#[test]
fn user_prompt_submit_starts_a_turn_and_clears_live_work() {
    let mut state = LiveState::default();
    apply_named(
        &mut state,
        "PreToolUse",
        1,
        json(r#"{"tool_use_id": "old", "tool_name": "AskUserQuestion", "tool_input": {"questions": [{"question": "q"}]}}"#),
    );
    apply_named(
        &mut state,
        "PermissionRequest",
        2,
        json(r#"{"tool_use_id": "perm", "tool_name": "Bash"}"#),
    );
    apply_named(
        &mut state,
        "MessageDisplay",
        3,
        json(r#"{"index": 0, "delta": "hi", "final": false}"#),
    );
    state.session_ended = true;

    apply_named(&mut state, "UserPromptSubmit", 10, json(r#"{}"#));

    assert!(matches!(state.turn, Turn::Running { since_ms: 10 }));
    assert!(state.live_message.is_none());
    assert!(state.running_tools.is_empty());
    assert!(state.pending_permission.is_none());
    assert!(state.pending_question.is_none());
    assert!(!state.session_ended);
    assert!(!state.is_idle());
}

#[test]
fn message_display_starts_appends_and_treats_missing_index_as_unknown() {
    let mut state = LiveState::default();
    apply_named(
        &mut state,
        "MessageDisplay",
        1,
        json(r#"{"message_id": "m1", "index": 0, "delta": "Hel", "final": false}"#),
    );
    apply_named(
        &mut state,
        "MessageDisplay",
        2,
        json(r#"{"message_id": "m1", "index": 1, "delta": "lo", "final": false}"#),
    );
    let live = state.live_message.as_ref().expect("a message is open");
    assert_eq!(live.text, "Hello");
    assert!(!live.is_final);

    apply_named(
        &mut state,
        "MessageDisplay",
        3,
        json(r#"{"message_id": "m1", "delta": "!", "final": true}"#),
    );
    let live = state.live_message.as_ref().expect("unknown index appends");
    assert_eq!(live.text, "Hello!");
    assert!(live.is_final);
    assert_eq!(live.updated_at_ms, 3);

    apply_named(
        &mut state,
        "MessageDisplay",
        4,
        json(r#"{"message_id": "m2", "delta": "new", "final": false}"#),
    );
    let live = state.live_message.as_ref().expect("a new id starts over");
    assert_eq!(live.text, "new");
    assert_eq!(live.message_id.as_deref(), Some("m2"));

    apply_named(
        &mut state,
        "MessageDisplay",
        5,
        json(r#"{"message_id": "m2", "index": 0, "delta": "reset", "final": false}"#),
    );
    assert_eq!(
        state
            .live_message
            .as_ref()
            .map(|message| message.text.as_str()),
        Some("reset"),
        "index 0 starts a new message even when the id matches"
    );
}

#[test]
fn pre_tool_use_tracks_tools_questions_and_allowed_permissions() {
    let mut state = LiveState::default();
    apply_named(
        &mut state,
        "PermissionRequest",
        1,
        json(r#"{"tool_use_id": "t1", "tool_name": "Bash", "tool_input": {"command": "ls"}}"#),
    );
    apply_named(
        &mut state,
        "PreToolUse",
        2,
        json(r#"{"tool_use_id": "t1", "tool_name": "Bash", "tool_input": {"command": "ls"}}"#),
    );
    assert!(state.pending_permission.is_none());
    assert_eq!(state.running_tools.len(), 1);

    apply_named(
        &mut state,
        "PreToolUse",
        3,
        json(r#"{"tool_use_id": "q1", "tool_name": "AskUserQuestion", "tool_input": {"questions": [{"question": "Which?"}]}}"#),
    );
    assert_eq!(state.running_tools.len(), 2);
    assert_eq!(
        state
            .pending_question
            .as_ref()
            .map(|question| question.tool_use_id.as_str()),
        Some("q1")
    );
    assert_eq!(
        state
            .pending_question
            .as_ref()
            .map(|question| &question.questions),
        Some(&held(json(r#"[{"question": "Which?"}]"#)))
    );

    apply_named(
        &mut state,
        "PreToolUse",
        4,
        json(r#"{"tool_use_id": "t1", "tool_name": "Bash", "tool_input": {"command": "pwd"}}"#),
    );
    assert_eq!(state.running_tools.len(), 2);
    assert_eq!(state.running_tools[0].input, held(json(r#"{"command": "pwd"}"#)));
    assert_eq!(state.running_tools[0].started_at_ms, 4);
}

#[test]
fn post_tool_use_and_permission_denied_drop_matching_work() {
    let mut state = LiveState::default();
    apply_named(
        &mut state,
        "PreToolUse",
        1,
        json(r#"{"tool_use_id": "q1", "tool_name": "AskUserQuestion", "tool_input": {"questions": []}}"#),
    );
    apply_named(
        &mut state,
        "PermissionRequest",
        2,
        json(r#"{"tool_use_id": "p1", "tool_name": "Bash"}"#),
    );
    apply_named(
        &mut state,
        "PreToolUse",
        3,
        json(r#"{"tool_use_id": "p1", "tool_name": "Bash"}"#),
    );
    apply_named(&mut state, "PostToolUse", 4, json(r#"{"tool_use_id": "q1"}"#));
    assert!(state.pending_question.is_none());
    assert_eq!(
        state
            .running_tools
            .iter()
            .map(|tool| tool.tool_use_id.as_str())
            .collect::<Vec<_>>(),
        vec!["p1"]
    );

    apply_named(
        &mut state,
        "PermissionRequest",
        5,
        json(r#"{"tool_use_id": "p1", "tool_name": "Bash"}"#),
    );
    apply_named(
        &mut state,
        "PermissionDenied",
        6,
        json(r#"{"tool_use_id": "p1"}"#),
    );
    assert!(state.running_tools.is_empty());
    assert!(state.pending_permission.is_none());
}

#[test]
fn notification_does_not_create_a_permission_request() {
    let mut state = LiveState::default();
    apply_named(
        &mut state,
        "Notification",
        9,
        json(r#"{"notification_type": "permission_prompt"}"#),
    );
    assert_eq!(
        state.last_notification,
        Some(("permission_prompt".to_string(), 9))
    );
    assert!(state.pending_permission.is_none());
}

#[test]
fn stop_idles_and_clears_even_a_non_final_live_message() {
    let mut state = LiveState::default();
    apply_named(&mut state, "UserPromptSubmit", 1, json(r#"{}"#));
    apply_named(
        &mut state,
        "MessageDisplay",
        2,
        json(r#"{"index": 0, "delta": "partial", "final": false}"#),
    );
    apply_named(
        &mut state,
        "PreToolUse",
        3,
        json(r#"{"tool_use_id": "t", "tool_name": "Read"}"#),
    );
    apply_named(
        &mut state,
        "Stop",
        4,
        json(r#"{"last_assistant_message": "partial"}"#),
    );
    assert!(matches!(state.turn, Turn::Idle));
    assert!(state.live_message.is_none());
    assert!(state.running_tools.is_empty());
    assert!(state.is_idle());
}

#[test]
fn compact_session_end_and_transcript_notes() {
    let mut state = LiveState::default();
    apply_named(&mut state, "PreCompact", 1, json(r#"{}"#));
    assert!(state.compacting);
    apply_named(&mut state, "PostCompact", 2, json(r#"{}"#));
    assert!(!state.compacting);

    apply_named(
        &mut state,
        "MessageDisplay",
        10_000,
        json(r#"{"index": 0, "delta": "done", "final": true, "message_id": "m"}"#),
    );
    apply_named(
        &mut state,
        "PreToolUse",
        11,
        json(r#"{"tool_use_id": "t", "tool_name": "AskUserQuestion", "tool_input": {"questions": [1]}}"#),
    );
    apply_named(
        &mut state,
        "PermissionRequest",
        12,
        json(r#"{"tool_use_id": "p", "tool_name": "Bash"}"#),
    );
    state.note_transcript_assistant(7_999);
    assert!(
        state.live_message.is_some(),
        "a timestamp more than 2s before the message must not clear it"
    );
    apply_named(
        &mut state,
        "MessageDisplay",
        13,
        json(r#"{"message_id": "m", "delta": "x", "final": false}"#),
    );
    state.note_transcript_assistant(20);
    assert!(
        state.live_message.is_some(),
        "a non-final message is never cleared by the transcript"
    );

    apply_named(
        &mut state,
        "MessageDisplay",
        14,
        json(r#"{"message_id": "m2", "index": 0, "delta": "fin", "final": true}"#),
    );
    state.note_transcript_assistant(13);
    assert!(state.live_message.is_none());

    state.note_tool_result("t");
    assert!(
        state
            .running_tools
            .iter()
            .all(|tool| tool.tool_use_id != "t")
    );
    assert!(state.pending_question.is_none());

    apply_named(
        &mut state,
        "SessionEnd",
        30,
        json(r#"{"permission_mode": "auto"}"#),
    );
    assert!(state.session_ended);
    assert!(matches!(state.turn, Turn::Idle));
    assert!(state.live_message.is_none());
    assert!(state.running_tools.is_empty());
    assert!(state.pending_permission.is_none());
    assert!(state.pending_question.is_none());
    assert!(!state.compacting);
    assert!(state.last_notification.is_none());
    assert_eq!(state.permission_mode.as_deref(), Some("auto"));
}

#[test]
fn status_snapshot_parses_optional_and_null_fields() {
    assert!(StatusSnapshot::parse("[]").is_none());
    assert!(StatusSnapshot::parse("not json").is_none());

    let snapshot = StatusSnapshot::parse(
        r#"{
                "model": {"id": "maker-opus", "display_name": "Opus"},
                "context_window": {
                    "context_window_size": 200000,
                    "used_percentage": null,
                    "total_input_tokens": 10,
                    "total_output_tokens": 2
                },
                "cost": {"total_cost_usd": 1.5},
                "effort": {"level": "high"},
                "rate_limits": {
                    "five_hour": {"used_percentage": 12.5, "resets_at": 111},
                    "seven_day": {"used_percentage": 3, "resets_at": 222}
                },
                "exceeds_200k_tokens": false
            }"#,
    )
    .expect("an object parses");
    assert_eq!(snapshot.model_id.as_deref(), Some("maker-opus"));
    assert_eq!(snapshot.model_display_name.as_deref(), Some("Opus"));
    assert_eq!(snapshot.context_window_size, Some(200000));
    assert_eq!(float(snapshot.context_used_percentage), None);
    assert_eq!(snapshot.total_input_tokens, Some(10));
    assert_eq!(snapshot.total_output_tokens, Some(2));
    assert_eq!(float(snapshot.total_cost_usd), Some(1.5));
    assert_eq!(snapshot.effort.as_deref(), Some("high"));
    assert_eq!(float(snapshot.five_hour_used_percentage), Some(12.5));
    assert_eq!(snapshot.five_hour_resets_at, Some(111));
    assert_eq!(float(snapshot.seven_day_used_percentage), Some(3.0));
    assert_eq!(snapshot.seven_day_resets_at, Some(222));
    assert_eq!(snapshot.exceeds_200k_tokens, Some(false));
}

#[test]
fn timestamp_ms_reads_rfc3339() {
    let parsed = timestamp_ms("2026-09-13T15:11:12.113Z").expect("a RFC3339 timestamp");
    let expected = chrono::DateTime::parse_from_rfc3339("2026-09-13T15:11:12.113Z")
        .expect("fixture")
        .timestamp_millis();
    assert_eq!(parsed, expected);
    assert_eq!(timestamp_ms("not a time"), None);
}

/// A call the payload does not name cannot be tracked, and tracking it under the
/// empty id is worse than not tracking it: the PostToolUse that would end it carries
/// no id either, so nothing ever takes it off the activity line.
#[test]
fn a_tool_call_the_payload_does_not_name_is_not_tracked() {
    let mut state = LiveState::default();
    apply_named(
        &mut state,
        "PreToolUse",
        10,
        json(r#"{"tool_name": "Bash", "tool_input": {"command": "ls"}}"#),
    );
    apply_named(
        &mut state,
        "PreToolUse",
        11,
        json(r#"{"tool_name": "AskUserQuestion", "tool_input": {"questions": [{"question": "which?"}]}}"#),
    );
    apply_named(
        &mut state,
        "PermissionRequest",
        12,
        json(r#"{"tool_name": "Bash", "tool_input": {"command": "rm -rf /"}}"#),
    );
    apply_named(
        &mut state,
        "PreToolUse",
        13,
        json(r#"{"tool_use_id": 7, "tool_name": "Read", "tool_input": {"file_path": "/a"}}"#),
    );

    let running: Vec<&str> = state
        .running_tools
        .iter()
        .map(|tool| tool.tool_use_id.as_str())
        .collect();
    assert!(
        running.is_empty(),
        "a PreToolUse without a string tool_use_id must record nothing; expected no running tools, got ids {running:?}"
    );
    assert!(
        state.pending_question.is_none(),
        "an AskUserQuestion without a tool_use_id must not park a question; expected None, got id {:?}",
        state
            .pending_question
            .as_ref()
            .map(|question| question.tool_use_id.clone())
    );
    assert!(
        state.pending_permission.is_none(),
        "a PermissionRequest without a tool_use_id must not park a permission card; expected None, got id {:?}",
        state
            .pending_permission
            .as_ref()
            .map(|permission| permission.tool_use_id.clone())
    );
    assert_eq!(
        state.last_event_at_ms, 13,
        "rule 1 still applies to every one of them; expected last_event_at_ms 13, got {}",
        state.last_event_at_ms
    );
}

/// What the guard above must not reject: the ordinary events, which do name their
/// call and must go on being tracked exactly as before.
#[test]
fn a_named_tool_call_is_still_tracked() {
    let mut state = LiveState::default();
    apply_named(
        &mut state,
        "PreToolUse",
        10,
        json(r#"{"tool_use_id": "call-1", "tool_name": "Bash", "tool_input": {"command": "ls"}}"#),
    );
    apply_named(
        &mut state,
        "PermissionRequest",
        11,
        json(r#"{"tool_use_id": "call-2", "tool_name": "Write", "tool_input": {"file_path": "/a"}}"#),
    );
    apply_named(
        &mut state,
        "PreToolUse",
        12,
        json(r#"{"tool_use_id": "call-3", "tool_name": "AskUserQuestion", "tool_input": {"questions": [{"question": "which?"}]}}"#),
    );

    let running: Vec<&str> = state
        .running_tools
        .iter()
        .map(|tool| tool.tool_use_id.as_str())
        .collect();
    assert_eq!(
        running,
        vec!["call-1", "call-3"],
        "expected the two named calls to be running, got {running:?}"
    );
    assert_eq!(
        state
            .pending_permission
            .as_ref()
            .map(|permission| permission.tool_use_id.as_str()),
        Some("call-2"),
        "expected the named permission request to be pending, got {:?}",
        state
            .pending_permission
            .as_ref()
            .map(|permission| permission.tool_use_id.clone())
    );
    assert_eq!(
        state
            .pending_question
            .as_ref()
            .map(|question| question.tool_use_id.as_str()),
        Some("call-3"),
        "expected the named question to be pending, got {:?}",
        state
            .pending_question
            .as_ref()
            .map(|question| question.tool_use_id.clone())
    );
}

#[test]
fn parse_channel_inbox_line_keeps_known_kinds_and_never_drops_unknown() {
    assert_eq!(parse_channel_inbox_line("  "), None);
    assert_eq!(
        parse_channel_inbox_line(r#"{"kind":"ready","at_ms":1}"#),
        Some(ChannelInboxEvent::Ready { at_ms: 1 })
    );
    assert_eq!(
        parse_channel_inbox_line(
            r#"{"kind":"permission_request","at_ms":2,"request_id":"abcde","tool_name":"Bash","description":"run","input_preview":"ls"}"#
        ),
        Some(ChannelInboxEvent::PermissionRequest {
            at_ms: 2,
            request_id: "abcde".to_string(),
            tool_name: "Bash".to_string(),
            description: "run".to_string(),
            input_preview: "ls".to_string(),
        })
    );
    assert_eq!(
        parse_channel_inbox_line(
            r#"{"kind":"permission_answered","at_ms":3,"request_id":"abcde","behavior":"allow","source":"zed"}"#
        ),
        Some(ChannelInboxEvent::PermissionAnswered {
            at_ms: 3,
            request_id: "abcde".to_string(),
            behavior: "allow".to_string(),
        })
    );
    match parse_channel_inbox_line(r#"{"kind":"future_kind","at_ms":9}"#) {
        Some(ChannelInboxEvent::Unknown { raw }) => {
            assert!(raw.contains("future_kind"), "got {raw}");
        }
        other => panic!("unknown kinds must be kept, got {other:?}"),
    }
    match parse_channel_inbox_line("not json") {
        Some(ChannelInboxEvent::Unknown { raw }) => assert_eq!(raw, "not json"),
        other => panic!("unparseable lines must be kept, got {other:?}"),
    }
}

#[test]
fn parse_channel_inbox_line_accepts_string_and_float_at_ms_and_keeps_interrupt_kinds() {
    assert_eq!(
        parse_channel_inbox_line(r#"{"kind":"ready","at_ms":2.9}"#),
        Some(ChannelInboxEvent::Ready { at_ms: 2 }),
        "a float at_ms is a legal JSON number and must date the line, not be dropped"
    );
    assert_eq!(
        parse_channel_inbox_line(r#"{"kind":"ready","at_ms":"7"}"#),
        Some(ChannelInboxEvent::Ready { at_ms: 7 }),
        "a numeric string at_ms must date the line; expected Ready at_ms=7, got {:?}",
        parse_channel_inbox_line(r#"{"kind":"ready","at_ms":"7"}"#)
    );
    match parse_channel_inbox_line(r#"{"kind":"interrupt","reason":"user"}"#) {
        Some(ChannelInboxEvent::Unknown { raw }) => {
            assert!(raw.contains("interrupt"), "got {raw}");
        }
        other => panic!(
            "outbox interrupt kind on the inbox must become Unknown, not choke, got {other:?}"
        ),
    }
    assert_eq!(
        parse_channel_inbox_line(
            r#"{"kind":"interrupted","at_ms":9,"claude_pid":42,"reason":"user"}"#,
        ),
        Some(ChannelInboxEvent::Interrupted {
            at_ms: 9,
            claude_pid: 42,
            reason: "user".to_string(),
        }),
        "inbox interrupted is a known kind"
    );
    match parse_channel_inbox_line(
        r#"{"kind":"error","at_ms":1,"reason":"interrupt_throttled"}"#,
    ) {
        Some(ChannelInboxEvent::Error { reason, .. }) => {
            assert_eq!(reason, "interrupt_throttled");
        }
        other => panic!("error.reason is an open set, got {other:?}"),
    }
}

#[test]
fn note_interrupted_idles_and_clears_live_work() {
    let mut state = LiveState::default();
    apply_named(&mut state, "UserPromptSubmit", 1, json(r#"{}"#));
    apply_named(
        &mut state,
        "PreToolUse",
        2,
        json(r#"{"tool_use_id": "t", "tool_name": "Read"}"#),
    );
    apply_named(
        &mut state,
        "PreToolUse",
        3,
        json(r#"{"tool_use_id": "q", "tool_name": "AskUserQuestion", "tool_input": {"questions": [{"question": "which?"}]}}"#),
    );
    apply_named(
        &mut state,
        "PermissionRequest",
        4,
        json(r#"{"tool_use_id": "p", "tool_name": "Bash"}"#),
    );

    assert!(
        matches!(state.turn, Turn::Running { .. }),
        "the fixture must be mid-turn before note_interrupted"
    );
    assert!(
        !state.running_tools.is_empty(),
        "the fixture must have running tools before note_interrupted, got {}",
        state.running_tools.len()
    );
    assert!(
        state.pending_permission.is_some(),
        "the fixture must have a pending permission before note_interrupted"
    );
    assert!(
        state.pending_question.is_some(),
        "the fixture must have a pending question before note_interrupted"
    );

    state.note_interrupted();

    let turn = match state.turn {
        Turn::Idle => "Idle",
        Turn::Running { .. } => "Running",
    };
    assert_eq!(
        turn, "Idle",
        "note_interrupted must idle the turn, got {turn}"
    );
    assert_eq!(
        state.running_tools.len(),
        0,
        "note_interrupted must clear running tools, got {}",
        state.running_tools.len()
    );
    assert!(
        state.pending_permission.is_none(),
        "note_interrupted must clear pending_permission, still Some"
    );
    assert!(
        state.pending_question.is_none(),
        "note_interrupted must clear pending_question, still Some"
    );
    assert!(
        state.is_idle(),
        "note_interrupted must leave is_idle true, got false"
    );
}
