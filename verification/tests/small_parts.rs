use claude_sessions::double::Double;
use claude_sessions::json::Json;
use claude_sessions::live_state::{parse_channel_inbox_line, parse_hook_event, ChannelInboxEvent, LiveState, StatusSnapshot};
use claude_sessions::paths::path_starts_with;
use claude_sessions::session_registry::{
    liveness_given_start, registration_from_json, visible_sessions_given_starts, HookInstallOutcome, Liveness,
    RegisteredSession, RegistrationError, SlashCommandScope, TailState,
};
use claude_sessions::session_source::{
    agent_listing_from_proto, attachment_refusal, file_contents, hook_install_outcome_from_proto, path_to_wire,
    slash_command_scope, slash_commands_from_proto, subagents_by_session_from_proto, tail_request, WireAgent,
    WireHookOutcome, WireSlashCommand, WireSubagent, WireSubagentsOfSession,
};
use claude_sessions::session_store::TranscriptTarget;
use claude_sessions::terminal_anchors::{screen_rows, skeletons_match, AnchorGlyph};
use claude_sessions::text_map::TextMap;
use claude_sessions::transcript::{parse_record, parse_tokens_left, RecordError, Transcript};
use claude_sessions::usage::{rates_for_model, Usage};

fn double(value: f64) -> Double {
    Double { bits: value.to_bits() }
}

#[test]
fn doubles_are_read_as_integers_the_way_a_cast_reads_them() {
    for value in [
        0.0, -0.0, 0.5, -0.5, 1.0, -1.0, 2.9, -2.9, 1e15, -1e15, 4503599627370497.5, 9007199254740993.0, 1e19, -1e19,
        1e300, 5e-324, f64::INFINITY, f64::NEG_INFINITY, f64::NAN, 9.223372036854775e18,
    ] {
        assert_eq!(double(value).to_i64(), value as i64, "for {value}");
        assert_eq!(double(value).to_u64(), value as u64, "for {value}");
        assert_eq!(
            double(value).is_finite_and_at_least_zero(),
            value.is_finite() && value >= 0.0,
            "for {value}"
        );
    }
    assert!(double(0.0).equal(double(-0.0)));
    assert!(!double(f64::NAN).equal(double(f64::NAN)));
    assert!(!double(1.0).equal(double(2.0)));
}

#[test]
fn json_is_read_as_it_is_written() {
    let value = Json::parse(r#" {"a": [null, true, -3, 18446744073709551615, 2.5, "tÿ"], "b": {}} "#).expect("JSON");
    assert!(value.is_object());
    assert_eq!(value.get("c"), None);
    assert_eq!(value.get("b"), Some(&Json::Object(Vec::new())));
    let Some(Json::List(items)) = value.get("a") else {
        panic!("expected a list, got {value:?}");
    };
    assert!(items[0].is_null());
    assert_eq!(items[1].as_bool(), Some(true));
    assert_eq!(items[2].as_u64(), None);
    assert_eq!(items[3].as_u64(), Some(u64::MAX));
    assert_eq!(items[5].as_str(), Some("tÿ"));
    assert_eq!(value.clone(), value);
    assert_eq!(Json::parse("{"), None);
    assert_eq!(Json::parse(""), None);
}

#[test]
fn a_number_in_quotes_still_dates_a_line() {
    let at = |text: &str| match parse_channel_inbox_line(&format!(r#"{{"kind":"ready","at_ms":{text}}}"#)) {
        Some(ChannelInboxEvent::Ready { at_ms }) => at_ms,
        other => panic!("expected a line that is ready, got {other:?}"),
    };
    assert_eq!(at("1700000000000"), 1_700_000_000_000);
    assert_eq!(at(r#"" 1700000000000 ""#), 1_700_000_000_000);
    assert_eq!(at(r#""2.9""#), 2);
    assert_eq!(at(r#""soon""#), 0);
    assert_eq!(at("null"), 0);
}

#[test]
fn every_number_of_a_status_is_read_as_a_double() {
    let cost = |text: &str| {
        StatusSnapshot::parse(&format!(r#"{{"cost":{{"total_cost_usd":{text}}}}}"#))
            .expect("an object parses")
            .total_cost_usd
            .map(|cost| f64::from_bits(cost.bits))
    };
    assert_eq!(cost("1.5"), Some(1.5));
    assert_eq!(cost("3"), Some(3.0));
    assert_eq!(cost("-3"), Some(-3.0));
    assert_eq!(cost("18446744073709551615"), Some(18446744073709551615u64 as f64));
    assert_eq!(cost("null"), None);
}

fn registration(text: &str) -> Result<RegisteredSession, RegistrationError> {
    registration_from_json(&Json::parse(text).expect("the text is JSON"))
}

#[test]
fn a_registration_without_a_field_it_needs_is_an_error() {
    assert_eq!(registration("{}"), Err(RegistrationError));
    assert_eq!(registration("3"), Err(RegistrationError));
    assert_eq!(
        registration(r#"{"pid":-1,"sessionId":"s","cwd":"/","procStart":"p","version":"v","kind":"interactive"}"#),
        Err(RegistrationError)
    );
    assert_eq!(
        registration(
            r#"{"pid":1,"sessionId":"s","cwd":"/","procStart":"p","version":"v","kind":"interactive","name":7}"#
        ),
        Err(RegistrationError)
    );
}

#[test]
fn a_record_says_what_is_wrong_with_it() {
    assert_eq!(parse_record("{").err(), Some(RecordError::Json));
    assert_eq!(parse_record("{}").err(), Some(RecordError::Fields));
    assert_eq!(parse_record("[]").err(), Some(RecordError::Fields));
    assert_eq!(parse_record(r#"{"type":3}"#).err(), Some(RecordError::Fields));
}

#[test]
fn the_order_of_shown_sessions_does_not_depend_on_the_order_they_came_in() {
    let session = |pid: u32, cwd: &str| {
        registration(&format!(
            r#"{{"pid":{pid},"sessionId":"s{pid}","cwd":"{cwd}","procStart":"p","version":"v","kind":"interactive"}}"#
        ))
        .expect("a registration")
    };
    let given = vec![session(3, "/a"), session(1, "/b"), session(2, "/a/x")];
    let backwards = vec![session(2, "/a/x"), session(1, "/b"), session(3, "/a")];
    let starts = vec![Some("p".to_string()), Some("p".to_string()), Some("p".to_string())];
    let shown = visible_sessions_given_starts(given, &starts, Some("/a"), 0, 0);
    assert_eq!(
        shown.iter().map(|session| session.process_id).collect::<Vec<_>>(),
        vec![2, 3, 1]
    );
    assert_eq!(
        visible_sessions_given_starts(backwards, &starts, Some("/a"), 0, 0),
        shown
    );
    assert_eq!(
        liveness_given_start(&shown[0], 0, 0, &None),
        Liveness::ProcessGone
    );
}

#[test]
fn a_path_is_within_another_by_whole_components() {
    assert!(path_starts_with("/a/b", "/a/b"));
    assert!(path_starts_with("/a/b/c", "/a/b/"));
    assert!(path_starts_with("/a//b/./c", "/a/b"));
    assert!(!path_starts_with("/a/bc", "/a/b"));
    assert!(!path_starts_with("a/b", "/a"));
    assert!(!path_starts_with("/a", "/a/b"));
}

#[test]
fn usage_sums_in_any_order_and_costs_to_the_hundred_millionth() {
    let one = Usage {
        input_tokens: 1,
        cache_write_1h_tokens: 2,
        cache_write_5m_tokens: 3,
        cache_read_tokens: 4,
        output_tokens: 5,
        thinking_tokens: 6,
    };
    let other = Usage {
        input_tokens: 10,
        output_tokens: u64::MAX,
        ..Usage::default()
    };
    assert_eq!(one.add(other), other.add(one));
    assert_eq!(one.add(Usage::default()), one);
    assert_eq!(one.add(other).input_tokens, 11);
    assert_eq!(one.add(other).output_tokens, u64::MAX);
    let rates = rates_for_model("maker", "maker-haiku-4-5-20260101").expect("a dated snapshot is priced");
    assert_eq!(one.cost(rates), 100 + 2 * 200 + 3 * 125 + 4 * 10 + 5 * 500);
    assert_eq!(rates_for_model("maker", "other-haiku-4-5"), None);
    assert_eq!(rates_for_model("maker", "maker"), None);
}

#[test]
fn absorbing_in_pieces_is_absorbing_at_once() {
    let record = |line: &str| parse_record(line).expect("a record").expect("not blank");
    let lines = [
        r#"{"type":"user","uuid":"a"}"#,
        r#"{"type":"queue-operation","operation":"enqueue","content":"one"}"#,
        r#"{"type":"assistant","uuid":"b","parentUuid":"a"}"#,
        r#"{"type":"user","uuid":"a"}"#,
    ];
    let mut at_once = Transcript::new();
    at_once.absorb(lines.iter().map(|line| record(line)).collect());
    let mut in_pieces = Transcript::new();
    for line in lines {
        in_pieces.absorb(vec![record(line)]);
    }
    let uuids = |transcript: &Transcript| -> Vec<Option<String>> {
        transcript.full_path().iter().map(|record| record.uuid.clone()).collect()
    };
    assert_eq!(uuids(&at_once), uuids(&in_pieces));
    assert_eq!(at_once.queued_messages(), in_pieces.queued_messages());
    assert_eq!(at_once.overwritten_uuids(), in_pieces.overwritten_uuids());
    assert_eq!(at_once.overwritten_uuids(), ["a".to_string()]);
}

#[test]
fn one_tool_call_runs_once_and_a_session_that_ends_leaves_nothing_open() {
    let mut live = LiveState::default();
    let event = |name: &str, id: &str| {
        parse_hook_event(&format!(
            r#"{{"received_at_ms":7,"event":{{"hook_event_name":"{name}","session_id":"s","tool_use_id":"{id}","tool_name":"Bash"}}}}"#
        ))
        .expect("an event")
    };
    for id in ["a", "b", "a"] {
        live.apply(&event("PreToolUse", id));
    }
    live.apply(&event("PermissionRequest", "c"));
    assert_eq!(live.running_tools.len(), 2);
    live.note_tool_result("a");
    assert_eq!(live.running_tools.len(), 1);
    assert!(live.pending_permission.is_some());
    live.apply(&event("SessionEnd", "x"));
    assert!(live.is_idle());
    assert!(live.session_ended);
}

#[test]
fn skeletons_match_the_same_way_from_either_side() {
    let assistant = AnchorGlyph::Assistant;
    for (left, right, expected) in [("abcdef", "abcdefgh", true), ("abc", "abcd", false), ("", "", false)] {
        assert_eq!(skeletons_match(assistant, left, assistant, right), expected);
        assert_eq!(skeletons_match(assistant, right, assistant, left), expected);
    }
}

#[test]
fn a_text_map_holds_one_value_to_a_key() {
    let mut map = TextMap::new();
    assert!(map.is_empty());
    map.insert("a".to_string(), 1);
    map.insert("b".to_string(), 2);
    map.insert("a".to_string(), 3);
    assert_eq!(map.get("a"), Some(&3));
    map.remove("a");
    assert_eq!(map.get("a"), None);
    assert_eq!(map.keys(), vec![&"b".to_string()]);
}

fn wire_subagent(agent_id: &str) -> WireSubagent {
    WireSubagent {
        agent_id: agent_id.to_string(),
        workflow_run_id: None,
        agent_type: "general-purpose".to_string(),
        description: None,
        tool_use_id: None,
        spawn_depth: 1,
        model: None,
        workflow_phase: None,
        request_shape: None,
        transcript_path: None,
        size: 0,
        workflow_agent_finished: None,
        task_agent_finished: None,
    }
}

#[test]
fn every_session_asked_for_is_answered_for() {
    let subagents = subagents_by_session_from_proto(
        vec!["a".to_string(), "b".to_string()],
        vec![WireSubagentsOfSession {
            session_id: "b".to_string(),
            subagents: vec![wire_subagent("x"), wire_subagent("y")],
        }],
    );
    let agents = |session_id: &str| -> Option<Vec<String>> {
        subagents
            .get(session_id)
            .map(|found| found.iter().map(|subagent| subagent.agent_id.clone()).collect())
    };
    assert_eq!(agents("a"), Some(Vec::new()));
    assert_eq!(agents("b"), Some(vec!["x".to_string(), "y".to_string()]));
    assert_eq!(agents("c"), None);
}

#[test]
fn an_agents_conversation_is_asked_for_by_ids_alone() {
    let state = || TailState {
        path: Some("/somewhere".to_string()),
        offset: 7,
        pending: vec![1],
    };
    let main = tail_request(&TranscriptTarget::Main, "s".to_string(), state());
    assert_eq!(main.path.as_deref(), Some("/somewhere"));
    assert_eq!((main.agent_id, main.offset, main.pending), (None, 7, vec![1]));
    let target = TranscriptTarget::Subagent {
        agent_id: "x".to_string(),
        workflow_run_id: Some("w".to_string()),
    };
    let agent = tail_request(&target, "s".to_string(), state());
    assert_eq!(agent.path, None);
    assert_eq!(agent.session_id, "s");
    assert_eq!(agent.agent_id.as_deref(), Some("x"));
    assert_eq!(agent.workflow_run_id.as_deref(), Some("w"));
}

#[test]
fn the_small_wire_values_are_read() {
    let backup = Some("/backup".to_string());
    assert_eq!(
        hook_install_outcome_from_proto(WireHookOutcome::Installed, backup.clone()),
        HookInstallOutcome::Installed {
            backup_path: backup.clone()
        }
    );
    assert_eq!(
        hook_install_outcome_from_proto(WireHookOutcome::ScriptsRefreshed, None),
        HookInstallOutcome::ScriptsRefreshed
    );
    assert_eq!(
        hook_install_outcome_from_proto(WireHookOutcome::AlreadyCurrent, None),
        HookInstallOutcome::AlreadyCurrent
    );
    assert_eq!(
        hook_install_outcome_from_proto(WireHookOutcome::Other, backup),
        HookInstallOutcome::AlreadyCurrent
    );
    assert_eq!(slash_command_scope(0), SlashCommandScope::Builtin);
    assert_eq!(slash_command_scope(1), SlashCommandScope::Project);
    assert_eq!(slash_command_scope(2), SlashCommandScope::User);
    assert_eq!(slash_command_scope(3), SlashCommandScope::Builtin);
    assert_eq!(path_to_wire("/a b"), "/a b");
    let agent = agent_listing_from_proto(WireAgent {
        id: Some("1".to_string()),
        kind: "background".to_string(),
        state: None,
        status: Some("working".to_string()),
        waiting_for: None,
        pid: Some(9),
        session_id: None,
        name: None,
        cwd: Some("/w".to_string()),
        started_at: Some(5),
    });
    assert_eq!(agent.process_id, Some(9));
    assert_eq!(agent.working_directory.as_deref(), Some("/w"));
    assert_eq!(agent.started_at, Some(5));
}

#[test]
fn a_file_that_goes_on_past_the_cap_is_cut_and_said_to_be() {
    let whole = file_contents(vec![1, 2, 3], 3);
    assert_eq!((whole.bytes, whole.truncated), (vec![1, 2, 3], false));
    let cut = file_contents(vec![1, 2, 3], 2);
    assert_eq!((cut.bytes, cut.truncated), (vec![1, 2], true));
    let none = file_contents(Vec::new(), 0);
    assert_eq!((none.bytes, none.truncated), (Vec::new(), false));
}

#[test]
fn slash_commands_keep_their_order_and_their_scopes() {
    let command = |name: &str, scope: i32| WireSlashCommand {
        name: name.to_string(),
        description: Some(format!("what {name} does")),
        argument_hint: None,
        scope,
    };
    let commands = slash_commands_from_proto(vec![command("b", 2), command("a", 1), command("c", 9)]);
    let read: Vec<(&str, Option<&str>, SlashCommandScope)> = commands
        .iter()
        .map(|command| (command.name.as_str(), command.description.as_deref(), command.scope))
        .collect();
    assert_eq!(
        read,
        vec![
            ("b", Some("what b does"), SlashCommandScope::User),
            ("a", Some("what a does"), SlashCommandScope::Project),
            ("c", Some("what c does"), SlashCommandScope::Builtin),
        ]
    );
}

#[test]
fn a_file_outside_the_session_is_refused() {
    assert_eq!(
        attachment_refusal("s1", "/etc/hosts", false, true).as_deref(),
        Some("no session is registered as s1")
    );
    assert_eq!(
        attachment_refusal("s1", "/etc/hosts", true, false).as_deref(),
        Some("/etc/hosts is outside the working directory of session s1")
    );
    assert_eq!(attachment_refusal("s1", "/work/a.png", true, true), None);
}

#[test]
fn removing_a_queued_message_leaves_the_queue_as_it_was() {
    let record = |operation: &str, content: &str| {
        parse_record(&format!(
            r#"{{"type":"queue-operation","operation":"{operation}","content":"{content}"}}"#
        ))
        .expect("a record")
        .expect("not blank")
    };
    let mut transcript = Transcript::new();
    transcript.absorb(vec![record("enqueue", " first "), record("enqueue", "second")]);
    transcript.absorb(vec![record("enqueue", "third"), record("remove", "third ")]);
    assert_eq!(
        transcript.queued_messages().iter().collect::<Vec<_>>(),
        vec!["first", "second"]
    );
    transcript.absorb(vec![record("enqueue", "  "), record("dequeue", "")]);
    assert_eq!(transcript.queued_messages().iter().collect::<Vec<_>>(), vec!["second"]);
}

#[test]
fn a_session_that_sits_idle_is_still_live_where_no_silence_is_too_long() {
    let session = registration(
        r#"{"pid":13,"sessionId":"idle-session","cwd":"/tmp","procStart":"p","version":"2.1.267","kind":"interactive","name":"idle","status":"idle","updatedAt":0}"#,
    )
    .expect("a registration");
    let start = Some("p".to_string());
    assert_eq!(liveness_given_start(&session, i64::MAX, i64::MAX, &start), Liveness::Live);
    assert_eq!(liveness_given_start(&session, 3_600_000, i64::MAX, &start), Liveness::Live);
    assert_eq!(
        liveness_given_start(&session, 3_600_000, 60_000, &start),
        Liveness::StaleHeartbeat
    );
}

#[test]
fn a_wide_character_appears_once_and_its_other_column_is_skipped() {
    let text = |cells: &[(i32, usize, char)]| screen_rows(cells, 1).remove(0).text;
    assert_eq!(text(&[(0, 0, '中'), (0, 2, '文')]), "中文");
    assert_eq!(text(&[(0, 0, '✅'), (0, 2, ' '), (0, 3, 'o'), (0, 4, 'k')]), "✅ ok");
    assert_eq!(text(&[(0, 0, '🎉'), (0, 4, 'x')]), "🎉  x");
    assert_eq!(text(&[(0, 0, '⏺'), (0, 2, 'a')]), "⏺ a", "a narrow glyph has no other column");
    assert_eq!(text(&[(0, 0, '中'), (0, 1, 'x'), (0, 3, 'y')]), "中x y");
    assert_eq!(text(&[(0, 2, '中')]), "  中");
    assert_eq!(
        text(&[(0, 0, '\u{3248}'), (0, 2, 'a')]),
        "\u{3248} a",
        "a character of ambiguous width has no other column"
    );
    assert_eq!(text(&[(0, 0, '\u{3247}'), (0, 2, 'a')]), "\u{3247}a");
    assert_eq!(text(&[(0, 0, '\u{3250}'), (0, 2, 'a')]), "\u{3250}a");
}

#[test]
fn a_count_with_decimals_is_missing_rather_than_wrong() {
    assert_eq!(parse_tokens_left("<total_tokens>15000000. Keep going."), Some(15_000_000));
    assert_eq!(parse_tokens_left("<total_tokens>15."), Some(15));
    assert_eq!(parse_tokens_left("<total_tokens>1.5M tokens left</total_tokens>"), None);
    assert_eq!(parse_tokens_left("<total_tokens>15M tokens left</total_tokens>"), Some(15_000_000));
    assert_eq!(parse_tokens_left("<total_tokens>15</total_tokens>"), Some(15));
}
