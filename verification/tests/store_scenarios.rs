use claude_sessions::live_state::ChannelInboxEvent;
use claude_sessions::polling::{
    ChannelAction, ChannelPoll, EventsAction, EventsPoll, RegistryAction, RegistryPoll, StatusAction, StatusPoll,
    TranscriptAction, TranscriptPoll,
};
use claude_sessions::session_registry::{
    ChannelStatus, RegisteredSession, SessionSummary, SubagentMeta, SubagentSummary, TailProgress, TailState,
};
use claude_sessions::session_rows::EndedReason;
use claude_sessions::session_source::SessionListing;
use claude_sessions::session_store::{
    timeout_message, ChannelRequest, ClaudeSessionStore, TranscriptTarget, HIDDEN_POLL_INTERVAL_MS,
    REGISTRY_POLL_INTERVAL_MS, TRANSCRIPT_POLL_INTERVAL_MS,
};
use claude_sessions::text_map::TextMap;
use claude_sessions::transcript::Transcript;
use std::collections::HashMap;

const NOW: i64 = 1_000_000;
const FLAT_AGENT_ID: &str = "a0000e203ec41bc73";
const WORKFLOW_AGENT_ID: &str = "a1111e203ec41bc73";
const WORKFLOW_RUN_ID: &str = "wf_b529a29d-562";

/// A machine that sessions run on, with what they have written.
#[derive(Default)]
struct Machine {
    sessions: Vec<(u32, String)>,
    transcripts: HashMap<String, String>,
    agents: HashMap<String, Vec<(String, Option<String>, String)>>,
    events: HashMap<String, String>,
    inboxes: HashMap<u32, String>,
    live_channels: Vec<u32>,
}

/// Reads on in a file, as far as its complete lines go.
fn read_on(path: &str, contents: &str, state: TailState) -> TailProgress {
    let start_offset = state.offset;
    let length = contents.len() as u64;
    let restarted = length < state.offset;
    let (from, mut pending) = if restarted {
        (0, Vec::new())
    } else {
        (state.offset as usize, state.pending)
    };
    pending.extend_from_slice(&contents.as_bytes()[from..]);
    let mut lines = Vec::new();
    while let Some(end) = pending.iter().position(|byte| *byte == b'\n') {
        let rest = pending.split_off(end + 1);
        pending.pop();
        lines.push(String::from_utf8(pending).expect("the fixtures are text"));
        pending = rest;
    }
    TailProgress {
        path: Some(path.to_string()),
        start_offset,
        offset: length,
        pending,
        lines,
        restarted,
    }
}

fn nothing_to_read(state: TailState) -> TailProgress {
    TailProgress {
        path: None,
        start_offset: state.offset,
        offset: state.offset,
        pending: state.pending,
        lines: Vec::new(),
        restarted: false,
    }
}

fn transcript_path(session_id: &str) -> String {
    format!("/home/user/projects/-some-slug/{session_id}.jsonl")
}

fn agent_path(session_id: &str, agent_id: &str) -> String {
    format!("/home/user/projects/-some-slug/{session_id}/agent-{agent_id}.jsonl")
}

impl Machine {
    fn running(sessions: &[(u32, &str)]) -> Machine {
        let mut machine = Machine::default();
        machine.run(sessions);
        machine
    }

    fn run(&mut self, sessions: &[(u32, &str)]) {
        self.sessions = sessions.iter().map(|(pid, id)| (*pid, id.to_string())).collect();
    }

    fn writes(&mut self, session_id: &str, contents: &str) {
        self.transcripts.insert(session_id.to_string(), contents.to_string());
    }

    fn spawns(&mut self, session_id: &str, run_id: Option<&str>, agent_id: &str, contents: &str) {
        let agents = self.agents.entry(session_id.to_string()).or_default();
        agents.retain(|(id, _, _)| id != agent_id);
        agents.push((
            agent_id.to_string(),
            run_id.map(str::to_string),
            contents.to_string(),
        ));
    }

    fn listing(&self) -> SessionListing {
        SessionListing {
            sessions: self
                .sessions
                .iter()
                .map(|(process_id, session_id)| SessionSummary {
                    session: RegisteredSession {
                        process_id: *process_id,
                        session_id: session_id.clone(),
                        working_directory: "/tmp".to_string(),
                        process_start: "Thu Sep 10 02:27:23 2026".to_string(),
                        version: "2.1.267".to_string(),
                        kind: "interactive".to_string(),
                        name: Some("live".to_string()),
                        status: None,
                        updated_at: None,
                        tmux_target: None,
                        bridge_session_id: None,
                    },
                    transcript_path: self
                        .transcripts
                        .contains_key(session_id)
                        .then_some(transcript_path(session_id)),
                    spend: None,
                })
                .collect(),
            home_directory: "/home/user".to_string(),
            liveness_unavailable_reason: None,
        }
    }

    fn read(&self, target: &TranscriptTarget, session_id: &str, state: TailState) -> TailProgress {
        match target {
            TranscriptTarget::Main => match self.transcripts.get(session_id) {
                Some(contents) => read_on(&transcript_path(session_id), contents, state),
                None => nothing_to_read(state),
            },
            TranscriptTarget::Subagent { agent_id, .. } => {
                let agents = self.agents.get(session_id).map(Vec::as_slice).unwrap_or_default();
                match agents.iter().find(|(id, _, _)| id == agent_id) {
                    Some((_, _, contents)) => read_on(&agent_path(session_id, agent_id), contents, state),
                    None => nothing_to_read(state),
                }
            }
        }
    }

    fn scan(&self, store: &mut ClaudeSessionStore) {
        store.apply_registry_scan(Ok(self.listing()), NOW);
    }

    fn scan_agents(&self, store: &mut ClaudeSessionStore) {
        let mut found = TextMap::new();
        for session_id in store.listed_session_ids() {
            let agents = self.agents.get(&session_id).map(Vec::as_slice).unwrap_or_default();
            let summaries = agents
                .iter()
                .map(|(agent_id, run_id, contents)| SubagentSummary {
                    agent_id: agent_id.clone(),
                    workflow_run_id: run_id.clone(),
                    meta: SubagentMeta {
                        agent_type: "general-purpose".to_string(),
                        description: Some("round 2".to_string()),
                        tool_use_id: None,
                        spawn_depth: 1,
                        model: None,
                        workflow_phase: None,
                        request_shape: None,
                    },
                    transcript_path: agent_path(&session_id, agent_id),
                    size: contents.len() as u64,
                    workflow_agent_finished: None,
                    task_agent_finished: None,
                })
                .collect::<Vec<_>>();
            found.insert(session_id, summaries);
        }
        store.apply_subagent_scan(Ok(found));
    }

    /// One turn of the poll that follows conversations.
    fn poll_transcripts(&self, store: &mut ClaudeSessionStore) -> Vec<TranscriptTarget> {
        let mut poll = TranscriptPoll::new();
        let mut reads = Vec::new();
        loop {
            match poll.step(store) {
                TranscriptAction::Read { target, session_id, state } => {
                    let progress = self.read(&target, &session_id, state);
                    store.apply_tail_progress(&session_id, &target, Ok(progress), NOW);
                    reads.push(target);
                }
                TranscriptAction::Wait { .. } => return reads,
            }
        }
    }

    fn poll_events(&self, store: &mut ClaudeSessionStore) {
        let mut poll = EventsPoll::new();
        while let EventsAction::Read { session_id, state } = poll.step(store) {
            let offset = state.offset;
            let progress = match self.events.get(&session_id) {
                Some(contents) => read_on("/home/user/events", contents, state),
                None => nothing_to_read(state),
            };
            store.apply_events_progress(&session_id, offset, Ok(progress), NOW);
        }
    }

    fn poll_channel(&self, store: &mut ClaudeSessionStore) {
        let mut poll = ChannelPoll::new();
        loop {
            match poll.step(store) {
                ChannelAction::ReadStatus { claude_pid } => {
                    let live = self.live_channels.contains(&claude_pid);
                    store.apply_channel_status(
                        claude_pid,
                        Ok(ChannelStatus {
                            live,
                            heartbeat_at_ms: live.then_some(NOW),
                            server_pid: live.then_some(1),
                            features: Vec::new(),
                        }),
                        NOW,
                    );
                }
                ChannelAction::ReadInbox { claude_pid, state, generation } => {
                    let offset = state.offset;
                    let progress = match self.inboxes.get(&claude_pid) {
                        Some(contents) => read_on("/home/user/inbox", contents, state),
                        None => nothing_to_read(state),
                    };
                    store.apply_channel_inbox_progress(claude_pid, generation, offset, Ok(progress));
                }
                ChannelAction::Forget => {
                    store.forget_channel();
                }
                ChannelAction::Wait { .. } => return,
            }
        }
    }

    /// A store that has listed what runs here, with one of it selected.
    fn store_with_selection(&self, session_id: &str) -> ClaudeSessionStore {
        let mut store = ClaudeSessionStore::new("Maker", NOW);
        self.scan(&mut store);
        store.select(session_id, NOW);
        store
    }
}

fn uuids(transcript: &Transcript) -> Vec<Option<String>> {
    transcript
        .active_path()
        .iter()
        .map(|record| record.uuid.clone())
        .collect()
}

fn named(uuids: &[&str]) -> Vec<Option<String>> {
    uuids.iter().map(|uuid| Some(uuid.to_string())).collect()
}

fn reading_the_flat_agent() -> TranscriptTarget {
    TranscriptTarget::Subagent {
        agent_id: FLAT_AGENT_ID.to_string(),
        workflow_run_id: None,
    }
}

/// The paths a scan hands back were written by the machine it scanned, so the home
/// directory they sit under has to come from that scan.
#[test]
fn test_the_scanned_home_directory_is_unknown_until_a_scan_arrives() {
    let machine = Machine::running(&[(41, "listed-session")]);
    let mut store = ClaudeSessionStore::new("Maker", NOW);
    assert_eq!(
        store.home_directory(),
        None,
        "no scan has answered yet, so the store must report no home directory rather than a default"
    );

    machine.scan(&mut store);

    assert_eq!(store.home_directory(), Some("/home/user"));
    assert_eq!(store.sessions().len(), 1);
}

#[test]
fn test_stale_tail_progress_is_dropped_after_the_tail_restarts() {
    let mut machine = Machine::running(&[(31, "first-session"), (32, "second-session")]);
    machine.writes("first-session", "{\"type\":\"user\",\"uuid\":\"a\"}\n");
    let mut store = machine.store_with_selection("first-session");
    machine.poll_transcripts(&mut store);

    // The read the poll is about to perform, captured while it is still in flight.
    let (target, session_id, state) = store
        .tail_read_requests()
        .pop()
        .expect("the selected session must be tailed");
    assert!(
        state.offset > 0,
        "the first record must already have been read, so the in-flight read starts mid-file"
    );
    machine.writes(
        "first-session",
        "{\"type\":\"user\",\"uuid\":\"a\"}\n{\"type\":\"assistant\",\"uuid\":\"b\",\"parentUuid\":\"a\"}\n",
    );
    let progress = machine.read(&target, &session_id, state);

    // Meanwhile the user looks at another session and comes back, which starts the
    // conversation over from the beginning of the file.
    store.select("second-session", NOW);
    store.select("first-session", NOW);

    // The read that was in flight before the restart now lands.
    assert!(!store.apply_tail_progress(&session_id, &TranscriptTarget::Main, Ok(progress), NOW));

    machine.poll_transcripts(&mut store);
    assert_eq!(
        uuids(store.transcript()),
        named(&["a", "b"]),
        "a read from before the restart must not make the fresh tail skip the start of the file"
    );
}

#[test]
fn selecting_another_session_clears_the_old_sessions_live_state() {
    let mut machine = Machine::running(&[(31, "first-session"), (32, "second-session")]);
    let mut store = machine.store_with_selection("first-session");
    machine.events.insert(
        "first-session".to_string(),
        "{\"received_at_ms\":1,\"event\":{\"hook_event_name\":\"MessageDisplay\",\"session_id\":\"first-session\",\"index\":0,\"delta\":\"the first live message\",\"final\":false}}\n".to_string(),
    );
    machine.poll_events(&mut store);
    assert_eq!(
        store.live().live_message.as_ref().map(|message| message.text.as_str()),
        Some("the first live message"),
        "the events file of the selected session is what the store follows"
    );
    let progress = Some(Ok(Some(r#"{"model":{"id":"m"}}"#.to_string())));
    store.apply_status(&Some("first-session".to_string()), progress, NOW);
    assert!(store.status().is_some());

    store.select("second-session", NOW);

    let actual = (
        store.live().live_message.is_some(),
        store.live().pending_question.is_some(),
        store.status().is_some(),
    );
    assert_eq!(
        actual,
        (false, false, false),
        "the selected session changed, so live state and status belong to the one being left"
    );
}

#[test]
fn clear_replaces_the_session_and_clears_a_send_error() {
    let mut machine = Machine::running(&[(31, "before-clear")]);
    let mut store = machine.store_with_selection("before-clear");
    assert!(store.send_message("hello".to_string()).is_err());
    assert!(store.error().is_some());

    machine.run(&[(31, "after-clear")]);
    machine.scan(&mut store);

    assert_eq!(store.selected(), Some("after-clear"));
    assert_eq!(store.error(), None, "/clear clears the old session's send error");
}

#[test]
fn take_cleared_rebind_reports_a_selected_clear_once() {
    let mut machine = Machine::running(&[(31, "before-clear")]);
    let mut store = machine.store_with_selection("before-clear");
    assert_eq!(
        store.take_cleared_rebind(),
        None,
        "listing and selecting a session is not a /clear"
    );

    machine.run(&[(31, "after-clear")]);
    machine.scan(&mut store);

    assert_eq!(
        store.take_cleared_rebind(),
        Some(("before-clear".into(), "after-clear".into())),
        "the scan that replaced the selected session must hand the panel the pair"
    );
    assert_eq!(
        store.take_cleared_rebind(),
        None,
        "the pair is consumed; a second take must not replay it"
    );
}

#[test]
fn take_cleared_rebind_is_none_when_selection_merely_changes() {
    let machine = Machine::running(&[(41, "session-a"), (42, "session-b")]);
    let mut store = machine.store_with_selection("session-a");
    machine.scan(&mut store);
    assert_eq!(
        store.take_cleared_rebind(),
        None,
        "a scan that still lists the selected session must not look like /clear"
    );
    store.select("session-b", NOW);
    assert_eq!(
        store.take_cleared_rebind(),
        None,
        "the reader switching session is not a /clear"
    );
}

#[test]
fn one_scan_yields_one_pair_for_the_pid_the_reader_was_reading() {
    let mut machine = Machine::running(&[(41, "session-a"), (42, "session-b")]);
    let mut store = machine.store_with_selection("session-a");

    machine.run(&[(41, "session-b"), (42, "session-c")]);
    machine.scan(&mut store);

    assert_eq!(
        store.selected(),
        Some("session-b"),
        "selection follows the pid the reader was on, not another pid's /clear"
    );
    assert_eq!(
        store.take_cleared_rebinds(),
        vec![("session-a".to_string(), "session-b".to_string())],
        "one scan records only the selected pid's pair"
    );
    assert!(
        store.take_cleared_rebinds().is_empty(),
        "the pair is consumed; a second take must not replay it"
    );
}

#[test]
fn take_cleared_rebinds_accumulates_pairs_from_separate_scans() {
    let mut machine = Machine::running(&[(41, "session-a")]);
    let mut store = machine.store_with_selection("session-a");

    machine.run(&[(41, "session-b")]);
    machine.scan(&mut store);
    assert_eq!(
        store.selected(),
        Some("session-b"),
        "the first /clear must select the new id before the second scan"
    );
    store.select("session-b", NOW);

    machine.run(&[(41, "session-c")]);
    machine.scan(&mut store);

    assert_eq!(
        store.take_cleared_rebinds(),
        vec![
            ("session-a".to_string(), "session-b".to_string()),
            ("session-b".to_string(), "session-c".to_string()),
        ],
        "two scans without a take in between keep both pairs"
    );
    assert!(
        store.take_cleared_rebinds().is_empty(),
        "the chain is consumed; a second take must not replay it"
    );
}

/// Of several pairs that wait, the one from the last scan is the one taken.
#[test]
fn take_cleared_rebind_gives_the_pair_of_the_last_scan() {
    let mut machine = Machine::running(&[(41, "session-a")]);
    let mut store = machine.store_with_selection("session-a");
    machine.run(&[(41, "session-b")]);
    machine.scan(&mut store);
    machine.run(&[(41, "session-c")]);
    machine.scan(&mut store);
    assert_eq!(
        store.take_cleared_rebind(),
        Some(("session-b".to_string(), "session-c".to_string()))
    );
    assert_eq!(store.take_cleared_rebind(), None);
}

/// A seed is gone with everything else that the next scan does not list.
#[test]
fn a_scan_rebuilds_the_sessions_and_their_paths_from_itself() {
    let mut machine = Machine::running(&[(11, "listed")]);
    let seeded = Machine::running(&[(12, "seeded")]).listing().sessions.remove(0).session;
    let mut store = ClaudeSessionStore::new("Maker", NOW);
    store.seed_session(seeded, Some("/seeded.jsonl".to_string()));
    store.select("seeded", NOW);
    assert_eq!(store.transcript_path(), Some("/seeded.jsonl"));
    assert_eq!(store.sessions().len(), 1);

    machine.writes("listed", "");
    machine.scan(&mut store);

    let ids: Vec<&str> = store
        .sessions()
        .iter()
        .map(|live| live.session.session_id.as_str())
        .collect();
    assert_eq!(ids, vec!["listed"]);
    assert_eq!(
        store.transcript_path(),
        None,
        "the path that the seed gave is not held any more"
    );
    assert_eq!(
        store.ended_sessions()[0].transcript_path.as_deref(),
        Some("/seeded.jsonl"),
        "the ended row keeps where its transcript was"
    );
    store.select("listed", NOW);
    assert_eq!(store.transcript_path(), Some(transcript_path("listed").as_str()));
}

#[test]
fn no_more_than_twenty_ended_rows_are_kept_and_none_of_a_live_session() {
    let mut machine = Machine::running(&[]);
    let mut store = ClaudeSessionStore::new("Maker", NOW);
    for pid in 1..=30 {
        machine.run(&[(pid, &format!("session-{pid}"))]);
        machine.scan(&mut store);
    }
    machine.run(&[(29, "session-29")]);
    machine.scan(&mut store);
    let ids: Vec<&str> = store
        .ended_sessions()
        .iter()
        .map(|row| row.session_id.as_str())
        .collect();
    assert!(ids.len() <= 20, "got {ids:?}");
    assert_eq!(ids[0], "session-30");
    assert!(!ids.contains(&"session-29"), "got {ids:?}");
}

#[test]
fn hooks_are_known_to_be_installed_without_a_selection() {
    let machine = Machine::running(&[(31, "first-session")]);
    let mut store = ClaudeSessionStore::new("Maker", NOW);
    machine.scan(&mut store);
    assert!(!store.hooks_installed());

    store.apply_hooks_installed(Ok(true));

    assert_eq!((store.sessions().len(), store.selected()), (1, None));
    assert!(store.hooks_installed());
}

/// A read that reports a restart of its own accord, because the file it was following was
/// rewritten, still belongs to the tail that asked for it.
#[test]
fn test_a_read_that_restarts_itself_is_still_accepted() {
    let mut machine = Machine::running(&[(41, "only-session")]);
    machine.writes(
        "only-session",
        "{\"type\":\"user\",\"uuid\":\"a\"}\n{\"type\":\"assistant\",\"uuid\":\"b\",\"parentUuid\":\"a\"}\n",
    );
    let mut store = machine.store_with_selection("only-session");
    machine.poll_transcripts(&mut store);
    assert_eq!(uuids(store.transcript()), named(&["a", "b"]));

    // Shorter than what has been read, so the read itself reports a restart.
    machine.writes("only-session", "{\"type\":\"user\",\"uuid\":\"z\"}\n");
    machine.poll_transcripts(&mut store);
    assert_eq!(
        uuids(store.transcript()),
        named(&["z"]),
        "a rewritten file must still be absorbed, not rejected as stale"
    );
}

#[test]
fn test_selecting_another_session_follows_that_sessions_transcript() {
    let mut machine = Machine::running(&[(61, "session-a"), (62, "session-b")]);
    machine.writes("session-a", "{\"type\":\"user\",\"uuid\":\"a1\"}\n");
    machine.writes("session-b", "{\"type\":\"user\",\"uuid\":\"b1\"}\n");
    let mut store = machine.store_with_selection("session-a");
    machine.poll_transcripts(&mut store);
    assert_eq!(
        uuids(store.transcript()),
        named(&["a1"]),
        "the first selection has to be followed at all"
    );

    store.select("session-b", NOW);
    machine.poll_transcripts(&mut store);
    assert_eq!(
        uuids(store.transcript()),
        named(&["b1"]),
        "the second session's conversation must replace the first one's, not be \
         appended to it"
    );

    // The session that is now being read writes another turn.
    machine.writes(
        "session-b",
        "{\"type\":\"user\",\"uuid\":\"b1\"}\n{\"type\":\"assistant\",\"uuid\":\"b2\",\"parentUuid\":\"b1\"}\n",
    );
    machine.poll_transcripts(&mut store);
    assert_eq!(
        uuids(store.transcript()),
        named(&["b1", "b2"]),
        "the tail has to keep following the session that was switched to"
    );
}

#[test]
fn test_store_lists_sessions_and_follows_the_selected_transcript() {
    let process_id = 4242;
    let mut machine = Machine::running(&[(process_id, "first-conversation")]);
    let mut store = ClaudeSessionStore::new("Maker", NOW);
    machine.scan(&mut store);

    let process_ids: Vec<u32> = store
        .sessions()
        .iter()
        .map(|session| session.session.process_id)
        .collect();
    assert_eq!(process_ids, vec![process_id]);
    assert_eq!(store.error(), None);
    // No selection yet, so nothing is tailed.
    assert_eq!(store.selected(), None);
    assert_eq!(store.transcript_path(), None);
    assert!(store.tail_read_requests().is_empty());

    // A session with no transcript file is still listed and selectable.
    store.select("first-conversation", NOW);
    machine.poll_transcripts(&mut store);
    assert_eq!(store.selected(), Some("first-conversation"));
    assert_eq!(store.selected_process_id(), Some(process_id));
    assert_eq!(store.transcript_path(), None);
    assert!(store.transcript().active_path().is_empty());

    machine.writes("first-conversation", "{\"type\":\"user\",\"uuid\":\"a\"}\n");
    machine.poll_transcripts(&mut store);
    assert_eq!(
        store.transcript_path(),
        Some(transcript_path("first-conversation").as_str())
    );
    assert_eq!(uuids(store.transcript()), named(&["a"]));

    // A malformed line must not stop the lines after it from being absorbed.
    machine.writes(
        "first-conversation",
        "{\"type\":\"user\",\"uuid\":\"a\"}\n{not json\n{\"type\":\"assistant\",\"uuid\":\"b\",\"parentUuid\":\"a\"}\n",
    );
    machine.poll_transcripts(&mut store);
    assert_eq!(uuids(store.transcript()), named(&["a", "b"]));

    // `/clear` gives the same pid a new sessionId, which must reset the transcript.
    machine.run(&[(process_id, "second-conversation")]);
    machine.writes("second-conversation", "{\"type\":\"user\",\"uuid\":\"z\"}\n");
    machine.scan(&mut store);
    machine.poll_transcripts(&mut store);
    assert_eq!(
        uuids(store.transcript()),
        named(&["z"]),
        "the previous conversation must not survive a new sessionId"
    );
    assert!(store.transcript().compact_boundaries().is_empty());
    assert!(!store.transcript().is_empty());
    assert_eq!(store.transcript().full_path().len(), 1);
    assert_eq!(
        store
            .ended_sessions()
            .iter()
            .map(|ended| (ended.session_id.as_str(), ended.ended_reason))
            .collect::<Vec<_>>(),
        vec![("first-conversation", EndedReason::Cleared)],
        "the session id left behind by /clear is kept as an ended row"
    );
    assert_eq!(store.selected(), Some("second-conversation"));
}

#[test]
fn test_send_message_is_refused_when_the_channel_is_not_live() {
    let machine = Machine::running(&[(51, "no-channel-session")]);
    let mut store = machine.store_with_selection("no-channel-session");
    machine.poll_channel(&mut store);

    let refused = store
        .send_message("hello".to_string())
        .expect_err("a session without a live channel must not be sent to");

    assert!(!store.channel_live());
    let error = store.error().expect("the refusal must be reported");
    assert!(error.contains(&refused), "got {error:?}");
}

#[test]
fn test_send_message_reaches_the_channel_when_it_is_live() {
    let mut machine = Machine::running(&[(52, "channel-session")]);
    machine.live_channels.push(52);
    let mut store = machine.store_with_selection("channel-session");
    machine.poll_channel(&mut store);
    assert!(store.channel_live());

    assert_eq!(
        store.send_message("first line\nsecond line".to_string()),
        Ok(ChannelRequest::Message {
            claude_pid: 52,
            content: "first line\nsecond line".to_string(),
        })
    );
    assert_eq!(
        store.error(),
        None,
        "a send that worked must not report anything"
    );
}

#[test]
fn test_a_send_that_fails_is_reported() {
    let mut machine = Machine::running(&[(54, "failing-session"), (55, "another-session")]);
    machine.live_channels.push(54);
    let mut store = machine.store_with_selection("failing-session");
    machine.poll_channel(&mut store);
    let request = store
        .send_message("hello".to_string())
        .expect("the channel is live");
    store.channel_request_failed(&request, "disk is full");

    let error = store.error().expect("a failed send must be reported");
    assert!(
        error.contains("disk is full"),
        "the failure from the far end must reach the panel, got {error:?}"
    );

    for _ in 0..3 {
        machine.scan(&mut store);
    }
    let error = store
        .error()
        .expect("a scan that succeeded must not wipe the send failure");
    assert!(
        error.contains("disk is full"),
        "the send failure must survive the polls, got {error:?}"
    );

    store.select("another-session", NOW);
    assert_eq!(
        store.error(),
        None,
        "the failure must not follow the user to another session"
    );
}

fn asked_for(tool_use_id: &str, since_ms: i64) -> String {
    format!(
        r#"{{"received_at_ms":{since_ms},"event":{{"hook_event_name":"PermissionRequest","session_id":"s","tool_use_id":"{tool_use_id}","tool_name":"Bash","tool_input":{{"command":"ls"}}}}}}"#
    ) + "\n"
}

fn inbox_request(at_ms: i64, request_id: &str, tool_name: &str) -> String {
    format!(
        r#"{{"kind":"permission_request","at_ms":{at_ms},"request_id":"{request_id}","tool_name":"{tool_name}","description":"","input_preview":""}}"#
    ) + "\n"
}

/// A store whose selected session has asked for permission, with what its inbox says.
fn store_asking_for_permission(since_ms: i64, inbox: &str) -> (Machine, ClaudeSessionStore) {
    let mut machine = Machine::running(&[(61, "permission-session")]);
    machine
        .events
        .insert("permission-session".to_string(), asked_for("toolu_1", since_ms));
    machine.inboxes.insert(61, inbox.to_string());
    let mut store = machine.store_with_selection("permission-session");
    machine.poll_events(&mut store);
    machine.poll_channel(&mut store);
    assert!(store.live().pending_permission.is_some());
    (machine, store)
}

#[test]
fn test_open_permission_request_id_picks_the_newest_unanswered() {
    let asked = inbox_request(10, "aaaaa", "Bash") + &inbox_request(20, "bbbbb", "Bash");
    let (mut machine, mut store) = store_asking_for_permission(1, &asked);
    assert_eq!(
        store.open_permission_request_id().as_deref(),
        Some("bbbbb"),
        "the newest unanswered request is the one to answer"
    );

    let answered =
        asked + r#"{"kind":"permission_answered","at_ms":21,"request_id":"bbbbb","behavior":"allow"}"# + "\n";
    machine.inboxes.insert(61, answered);
    machine.poll_channel(&mut store);
    assert_eq!(
        store.open_permission_request_id().as_deref(),
        Some("aaaaa"),
        "answering the newest leaves the earlier unanswered request"
    );
    assert!(matches!(
        store.open_permission_inbox_event(),
        Some(ChannelInboxEvent::PermissionRequest { at_ms: 10, .. })
    ));

    machine.events.insert(
        "permission-session".to_string(),
        asked_for("toolu_1", 1)
            + r#"{"received_at_ms":2,"event":{"hook_event_name":"PermissionDenied","session_id":"s","tool_use_id":"toolu_1"}}"#
            + "\n",
    );
    machine.poll_events(&mut store);
    assert_eq!(
        store.open_permission_request_id(),
        None,
        "without a hook pending permission there is nothing to answer"
    );
}

#[test]
fn test_open_permission_request_id_ignores_a_line_from_another_prompt() {
    let asked_at_ms = 1_700_000_000_000;
    let old = inbox_request(asked_at_ms - 600_000, "aaaaa", "Bash");
    let (mut machine, mut store) = store_asking_for_permission(asked_at_ms, &old);
    assert_eq!(
        store.open_permission_request_id(),
        None,
        "a line written ten minutes before the prompt on screen belongs to another prompt"
    );

    machine
        .inboxes
        .insert(61, old + &inbox_request(asked_at_ms - 800, "bbbbb", "Bash"));
    machine.poll_channel(&mut store);
    assert_eq!(
        store.open_permission_request_id().as_deref(),
        Some("bbbbb"),
        "the line for the prompt on screen must stay answerable"
    );
}

#[test]
fn test_open_permission_request_id_ignores_a_line_for_a_different_tool() {
    let asked_at_ms = 1_700_000_000_000;
    let (_, store) = store_asking_for_permission(asked_at_ms, &inbox_request(asked_at_ms - 400, "aaaaa", "Read"));
    assert_eq!(
        store.open_permission_request_id(),
        None,
        "a line whose tool_name is not the hook's pending tool must not be answerable"
    );

    let both = inbox_request(asked_at_ms - 400, "bbbbb", "Bash") + &inbox_request(asked_at_ms - 200, "aaaaa", "Read");
    let (_, store) = store_asking_for_permission(asked_at_ms, &both);
    assert_eq!(
        store.open_permission_request_id().as_deref(),
        Some("bbbbb"),
        "the line for the tool on screen must stay answerable"
    );
}

#[test]
fn test_open_permission_request_id_still_answers_a_line_without_a_time() {
    let (_, store) = store_asking_for_permission(1_700_000_000_000, &inbox_request(0, "ccccc", "Bash"));
    assert_eq!(
        store.open_permission_request_id().as_deref(),
        Some("ccccc"),
        "a line with no time of its own must stay answerable"
    );

    let (_, store) = store_asking_for_permission(0, &inbox_request(1_700_000_000_000, "ddddd", "Bash"));
    assert_eq!(
        store.open_permission_request_id().as_deref(),
        Some("ddddd"),
        "a prompt the hook could not date must stay answerable"
    );
}

#[test]
fn an_answer_goes_to_the_open_request() {
    let (_, mut store) = store_asking_for_permission(1, "");
    assert_eq!(
        store.answer_permission(true),
        Err("No permission request is waiting to be answered.".to_string())
    );
    assert_eq!(
        store.error(),
        Some("No permission request is waiting to be answered.")
    );

    let (_, mut store) = store_asking_for_permission(1, &inbox_request(10, "aaaaa", "Bash"));
    let request = store
        .answer_permission(false)
        .expect("the request is open");
    assert_eq!(
        request,
        ChannelRequest::Permission {
            claude_pid: 61,
            request_id: "aaaaa".to_string(),
            allow: false,
        }
    );
    store.channel_request_failed(&request, "disk is full");
    assert_eq!(
        store.error(),
        Some("Answering the permission: disk is full")
    );
}

#[test]
fn an_interrupt_is_refused_until_a_turn_runs_on_a_server_that_can() {
    let mut machine = Machine::running(&[(66, "busy-session")]);
    let mut store = machine.store_with_selection("busy-session");
    assert!(store.interrupt().is_err());
    assert!(store.interrupt_disabled_reason().is_some());
    machine.events.insert(
        "busy-session".to_string(),
        "{\"received_at_ms\":5,\"event\":{\"hook_event_name\":\"UserPromptSubmit\",\"session_id\":\"busy-session\"}}\n".to_string(),
    );
    machine.poll_events(&mut store);
    let able = ChannelStatus {
        live: true,
        heartbeat_at_ms: Some(NOW),
        server_pid: Some(1),
        features: vec!["interrupt".to_string()],
    };
    store.apply_channel_status(66, Ok(able), NOW);
    assert!(store.can_interrupt());
    assert_eq!(store.interrupt_disabled_reason(), None);
    assert!(matches!(
        store.interrupt(),
        Ok(ChannelRequest::Interrupt { claude_pid: 66, .. })
    ));
}

#[test]
fn test_a_message_sent_inbox_event_marks_the_outbox_file() {
    let mut machine = Machine::running(&[(62, "inbox-session")]);
    machine.inboxes.insert(
        62,
        r#"{"kind":"message_sent","at_ms":50,"outbox_file":"0000000000050-0001.json","content_chars":5}"#.to_string()
            + "\n",
    );
    let mut store = machine.store_with_selection("inbox-session");
    machine.poll_channel(&mut store);
    assert!(
        store.channel_events().iter().any(|event| matches!(
            event,
            ChannelInboxEvent::MessageSent { outbox_file, .. }
                if outbox_file == "0000000000050-0001.json"
        )),
        "the inbox event is what a pending send is paired with"
    );
}

fn a_session_with_an_agent() -> Machine {
    let mut machine = Machine::running(&[(81, "agent-session")]);
    machine.writes("agent-session", "{\"type\":\"user\",\"uuid\":\"m1\"}\n");
    machine.spawns(
        "agent-session",
        None,
        FLAT_AGENT_ID,
        "{\"type\":\"user\",\"isSidechain\":true,\"uuid\":\"f1\"}\n",
    );
    machine
}

fn store_opened_onto_the_flat_agent() -> ClaudeSessionStore {
    let mut store = ClaudeSessionStore::new("Maker", NOW);
    store.select("agent-session", NOW);
    store.select_transcript_target(reading_the_flat_agent());
    store
}

#[test]
fn test_a_store_opened_onto_an_agent_keeps_it_through_the_first_scan() {
    let machine = a_session_with_an_agent();
    let mut store = store_opened_onto_the_flat_agent();
    machine.scan(&mut store);
    machine.poll_transcripts(&mut store);

    assert_eq!(
        store.transcript_target(),
        &reading_the_flat_agent(),
        "the first scan only named the session the store was already pointed at, \
         which is not the session changing"
    );
    assert_eq!(
        uuids(store.transcript()),
        named(&["f1"]),
        "so what is on screen is the agent's conversation, not its session's"
    );
}

#[test]
fn test_an_agents_conversation_outlives_the_session_that_spawned_it() {
    let mut machine = a_session_with_an_agent();
    let mut store = store_opened_onto_the_flat_agent();
    machine.scan(&mut store);
    machine.poll_transcripts(&mut store);
    assert_eq!(uuids(store.transcript()), named(&["f1"]));

    machine.run(&[]);
    machine.scan(&mut store);

    assert_eq!(
        store.selected(),
        Some("agent-session"),
        "the ended session stays selected so its transcript can still be read"
    );
    assert!(
        store.selected_is_ended(),
        "a session that has left the registry is kept as an ended row"
    );
    assert_eq!(
        store.transcript_target(),
        &reading_the_flat_agent(),
        "but what the tab was opened to read is still what it is reading"
    );
    assert_eq!(
        uuids(store.transcript()),
        named(&["f1"]),
        "and the records it had read are still on screen"
    );
}

#[test]
fn test_the_selected_sessions_subagents_are_listed_and_followed_on_their_own() {
    let mut machine = Machine::running(&[(71, "agent-session"), (72, "other-session")]);
    machine.writes("agent-session", "{\"type\":\"user\",\"uuid\":\"m1\"}\n");
    machine.writes("other-session", "{\"type\":\"user\",\"uuid\":\"o1\"}\n");
    let flat_agent_contents = "{\"type\":\"user\",\"isSidechain\":true,\"uuid\":\"f1\"}\n";
    machine.spawns("agent-session", None, FLAT_AGENT_ID, flat_agent_contents);
    machine.spawns(
        "agent-session",
        Some(WORKFLOW_RUN_ID),
        WORKFLOW_AGENT_ID,
        "{\"type\":\"user\",\"isSidechain\":true,\"uuid\":\"w1\"}\n",
    );
    let mut store = ClaudeSessionStore::new("Maker", NOW);
    machine.scan(&mut store);
    assert!(store.subagents().is_empty());
    assert_eq!(store.transcript_target(), &TranscriptTarget::Main);

    store.select("agent-session", NOW);
    machine.scan_agents(&mut store);
    machine.poll_transcripts(&mut store);
    let listed: Vec<(&str, Option<&str>)> = store
        .subagents()
        .iter()
        .map(|subagent| (subagent.agent_id.as_str(), subagent.workflow_run_id.as_deref()))
        .collect();
    assert_eq!(
        listed,
        vec![
            (FLAT_AGENT_ID, None),
            (WORKFLOW_AGENT_ID, Some(WORKFLOW_RUN_ID)),
        ]
    );
    assert_eq!(
        store.subagents()[0].meta.agent_type,
        "general-purpose",
        "the sidecar's fields must reach the store, not just the agent's id"
    );
    assert_eq!(uuids(store.transcript()), named(&["m1"]));
    let generation_on_main = store.transcript_generation();

    store.select_transcript_target(reading_the_flat_agent());
    let reads = machine.poll_transcripts(&mut store);
    assert!(
        reads.contains(&reading_the_flat_agent()),
        "the agent's conversation must be read as its own"
    );
    assert!(store.transcript_generation() > generation_on_main);
    let (_, session_id, state) = store
        .tail_read_requests()
        .into_iter()
        .find(|(target, _, _)| target == &reading_the_flat_agent())
        .expect("the agent's conversation must be being followed");
    assert_eq!(session_id, "agent-session");
    assert_eq!(
        state.path,
        Some(agent_path("agent-session", FLAT_AGENT_ID)),
        "the file being followed must be the agent's own"
    );
    assert_eq!(
        state.offset,
        flat_agent_contents.len() as u64,
        "the whole of the agent's transcript must have been read"
    );
    assert_eq!(uuids(store.transcript()), named(&["f1"]));

    store.select_transcript_target(TranscriptTarget::Main);
    machine.poll_transcripts(&mut store);
    assert_eq!(store.transcript_target(), &TranscriptTarget::Main);
    assert_eq!(uuids(store.transcript()), named(&["m1"]));
    assert_eq!(
        store.subagents().len(),
        2,
        "the agents of the session being read are still its agents"
    );

    store.select_transcript_target(TranscriptTarget::Subagent {
        agent_id: WORKFLOW_AGENT_ID.to_string(),
        workflow_run_id: Some(WORKFLOW_RUN_ID.to_string()),
    });
    store.select("other-session", NOW);
    machine.poll_transcripts(&mut store);
    assert_eq!(
        store.transcript_target(),
        &TranscriptTarget::Main,
        "selecting another session must go back to its own conversation rather \
         than look for an agent id that belongs to the session just left"
    );
    assert!(store.subagents().is_empty());
    assert_eq!(
        uuids(store.transcript()),
        named(&["o1"]),
        "the newly selected session's conversation is what must be followed"
    );
}

#[test]
fn test_the_sessions_own_conversation_is_still_read_while_an_agents_is_on_screen() {
    let mut machine = Machine::running(&[(101, "dual-session")]);
    machine.writes("dual-session", "{\"type\":\"user\",\"uuid\":\"m1\"}\n");
    machine.spawns(
        "dual-session",
        None,
        FLAT_AGENT_ID,
        "{\"type\":\"user\",\"isSidechain\":true,\"uuid\":\"f1\"}\n",
    );
    let mut store = machine.store_with_selection("dual-session");
    machine.poll_transcripts(&mut store);
    assert_eq!(uuids(store.main_transcript()), named(&["m1"]));
    let generation_on_main = store.transcript_generation();

    store.select_transcript_target(reading_the_flat_agent());
    machine.poll_transcripts(&mut store);
    assert_eq!(
        uuids(store.transcript()),
        named(&["f1"]),
        "an agent's transcript is a file of nothing but sidechain records, and \
         reading it as a main thread leaves the panel blank"
    );
    assert_eq!(uuids(store.main_transcript()), named(&["m1"]));
    assert_eq!(
        store.transcript_path(),
        Some(agent_path("dual-session", FLAT_AGENT_ID).as_str()),
        "the path reported must be the conversation on screen"
    );
    let generation_on_agent = store.transcript_generation();
    assert_ne!(generation_on_agent, generation_on_main);

    // Both files grow while the agent's conversation is the one on screen.
    machine.writes(
        "dual-session",
        "{\"type\":\"user\",\"uuid\":\"m1\"}\n\
         {\"type\":\"assistant\",\"uuid\":\"m2\",\"parentUuid\":\"m1\"}\n",
    );
    machine.spawns(
        "dual-session",
        None,
        FLAT_AGENT_ID,
        "{\"type\":\"user\",\"isSidechain\":true,\"uuid\":\"f1\"}\n\
         {\"type\":\"assistant\",\"isSidechain\":true,\"uuid\":\"f2\",\"parentUuid\":\"f1\"}\n",
    );
    machine.poll_transcripts(&mut store);
    assert_eq!(uuids(store.transcript()), named(&["f1", "f2"]));
    assert_eq!(
        uuids(store.main_transcript()),
        named(&["m1", "m2"]),
        "and the session's own must be followed at the same time, or a chip \
         stays pulsing after the agent it names has returned"
    );

    store.select_transcript_target(TranscriptTarget::Main);
    assert_eq!(
        uuids(store.transcript()),
        named(&["m1", "m2"]),
        "going back must show what the session wrote while the agent was on \
         screen, not read the file over again"
    );
    assert_eq!(
        store.transcript_path(),
        Some(transcript_path("dual-session").as_str()),
        "and the path reported goes back with it"
    );
    assert_ne!(store.transcript_generation(), generation_on_agent);
}

#[test]
fn test_a_main_conversation_read_that_lands_after_switching_to_an_agent_is_dropped() {
    let mut machine = Machine::running(&[(81, "switching-session")]);
    machine.writes("switching-session", "{\"type\":\"user\",\"uuid\":\"m1\"}\n");
    machine.spawns(
        "switching-session",
        None,
        FLAT_AGENT_ID,
        "{\"type\":\"user\",\"isSidechain\":true,\"uuid\":\"f1\"}\n",
    );
    let mut store = machine.store_with_selection("switching-session");
    let (target, session_id, state) = store
        .tail_read_requests()
        .pop()
        .expect("the selected session must be tailed");
    let progress = machine.read(&target, &session_id, state);
    assert_eq!(progress.lines.len(), 1);

    store.select_transcript_target(reading_the_flat_agent());
    store.apply_tail_progress(&session_id, &TranscriptTarget::Main, Ok(progress), NOW);

    assert_eq!(
        uuids(store.transcript()),
        named(&[]),
        "the session's own line must not reach the agent's transcript"
    );
    assert!(store.transcript().is_empty());
}

#[test]
fn test_a_failed_read_of_a_session_that_was_left_is_not_reported() {
    let mut machine = Machine::running(&[(91, "the-session-being-read")]);
    machine.writes("the-session-being-read", "{\"type\":\"user\",\"uuid\":\"m1\"}\n");
    let mut store = machine.store_with_selection("the-session-being-read");

    store.apply_tail_progress(
        "the-session-the-user-left",
        &TranscriptTarget::Main,
        Err("the connection dropped".to_string()),
        NOW,
    );
    assert_eq!(store.error(), None);

    store.apply_tail_progress(
        "the-session-being-read",
        &TranscriptTarget::Main,
        Err("the transcript could not be opened".to_string()),
        NOW,
    );
    assert_eq!(
        store.error(),
        Some("Reading transcript: the transcript could not be opened")
    );
}

#[test]
fn test_send_message_does_not_leave_an_agents_conversation() {
    let mut machine = Machine::running(&[(91, "typing-session")]);
    machine.live_channels.push(91);
    let mut store = machine.store_with_selection("typing-session");
    store.select_transcript_target(reading_the_flat_agent());
    machine.poll_channel(&mut store);

    assert_eq!(
        store.send_message("hello".to_string()),
        Ok(ChannelRequest::Message {
            claude_pid: 91,
            content: "hello".to_string(),
        })
    );
    assert_eq!(store.error(), None);
    assert_eq!(
        store.transcript_target(),
        &reading_the_flat_agent(),
        "sending must not move the user off the conversation being read"
    );
}

#[test]
fn a_new_pid_with_the_same_session_id_rebinds_without_resetting() {
    let mut machine = Machine::running(&[(81, "kept-session")]);
    machine.writes("kept-session", "{\"type\":\"user\",\"uuid\":\"keep\"}\n");
    let mut store = machine.store_with_selection("kept-session");
    machine.poll_transcripts(&mut store);
    assert_eq!(uuids(store.transcript()), named(&["keep"]));
    let generation_before = store.transcript_generation();

    machine.run(&[(82, "kept-session")]);
    machine.scan(&mut store);

    assert_eq!(store.selected(), Some("kept-session"));
    assert_eq!(store.selected_process_id(), Some(82));
    assert_eq!(store.transcript_generation(), generation_before);
    assert_eq!(
        uuids(store.transcript()),
        named(&["keep"]),
        "a rebound must keep the transcript already read"
    );
    assert!(
        store.notice().is_some_and(|notice| notice.contains("rebound")),
        "got {:?}",
        store.notice()
    );
    assert!(store.ended_sessions().is_empty());
}

#[test]
fn an_ended_session_reappearing_is_removed_from_ended() {
    let mut machine = Machine::running(&[(91, "reappear-session")]);
    machine.writes("reappear-session", "{\"type\":\"user\",\"uuid\":\"r1\"}\n");
    let mut store = machine.store_with_selection("reappear-session");
    machine.poll_transcripts(&mut store);

    machine.run(&[]);
    machine.scan(&mut store);
    assert!(store.selected_is_ended());
    assert_eq!(store.ended_sessions()[0].ended_reason, EndedReason::ProcessGone);

    machine.run(&[(91, "reappear-session")]);
    machine.scan(&mut store);
    assert!(!store.selected_is_ended());
    assert!(store.ended_sessions().is_empty());
    assert_eq!(store.selected_process_id(), Some(91));
}

#[test]
fn a_timed_out_transcript_read_is_reported_and_the_loop_continues() {
    let machine = Machine::running(&[(101, "timeout-session")]);
    let mut store = machine.store_with_selection("timeout-session");
    let mut poll = TranscriptPoll::new();
    let TranscriptAction::Read { target, session_id, .. } = poll.step(&store) else {
        panic!("the selected session must be read");
    };
    store.apply_tail_progress(&session_id, &target, Err(timeout_message("reading transcript")), NOW);

    let error = store.error().expect("the timeout must be reported");
    assert!(
        error.contains("reading transcript") && error.contains("has not answered"),
        "got {error:?}"
    );
    assert!(matches!(poll.step(&store), TranscriptAction::Wait { .. }));
    assert!(
        matches!(poll.step(&store), TranscriptAction::Read { .. }),
        "the poll must still be running after a timeout"
    );
}

#[test]
fn a_failing_subagent_scan_does_not_toggle_the_banner() {
    let machine = Machine::running(&[(111, "banner-session")]);
    let mut store = ClaudeSessionStore::new("Maker", NOW);
    machine.scan(&mut store);
    store.apply_subagent_scan(Err("subagents failed".to_string()));
    let first = store
        .error()
        .expect("the failing subagent scan must be reported")
        .to_string();
    assert!(first.contains("Listing subagents"), "got {first:?}");

    machine.scan(&mut store);
    assert_eq!(
        store.error(),
        Some(first.as_str()),
        "the banner must stay through a successful registry scan"
    );
    machine.scan_agents(&mut store);
    assert_eq!(store.error(), None);
}

#[test]
fn set_visible_false_lengthens_the_registry_interval() {
    let mut store = ClaudeSessionStore::new("Maker", NOW);
    assert_eq!(
        store.poll_interval_ms(REGISTRY_POLL_INTERVAL_MS),
        REGISTRY_POLL_INTERVAL_MS
    );
    store.set_visible(false);
    assert_eq!(
        store.poll_interval_ms(REGISTRY_POLL_INTERVAL_MS),
        HIDDEN_POLL_INTERVAL_MS,
        "a hidden store still polls, just more slowly"
    );
    assert_eq!(HIDDEN_POLL_INTERVAL_MS, 5_000);
}

#[test]
fn nothing_is_stale_while_no_session_is_selected() {
    let machine = Machine::running(&[(131, "unselected-session")]);
    let mut store = ClaudeSessionStore::new("Maker", NOW);
    machine.scan(&mut store);
    assert_eq!(
        store.stale_for(NOW as u64 + 60_000),
        Some(("registry", 55_000)),
        "the registry poll runs whether or not a session is selected, so its clock is the \
         one left to report"
    );
}

#[test]
fn a_followed_transcript_that_never_answers_is_still_reported_stale() {
    let machine = Machine::running(&[(132, "hung-session")]);
    let mut store = machine.store_with_selection("hung-session");
    store.apply_registry_scan(Ok(machine.listing()), NOW + 1_000);
    assert_eq!(
        store.stale_for(NOW as u64 + 60_000),
        Some(("transcript", 55_000)),
        "a followed transcript that never answers must still read as stale"
    );
}

#[test]
fn two_live_registrations_of_one_session_id_are_not_a_rebind() {
    let machine = Machine::running(&[(141, "shared-session"), (142, "shared-session")]);
    let mut store = machine.store_with_selection("shared-session");
    for _ in 0..4 {
        machine.scan(&mut store);
    }
    assert_eq!(
        store.notice(),
        None,
        "both processes were there before and are there still, so no scan may report a rebind"
    );
}

#[test]
fn an_agents_timeout_is_its_own_error_and_survives_a_registry_scan() {
    let machine = Machine::running(&[(141, "agents-timeout-session")]);
    let mut store = ClaudeSessionStore::new("Maker", NOW);
    machine.scan(&mut store);
    store.apply_agent_listings(Err("agents --json has not answered in 10 s".to_string()));
    for _ in 0..2 {
        let error = store.error().expect("the timeout must be reported");
        assert!(
            error.contains("Listing agents") && error.contains("has not answered"),
            "got {error:?}"
        );
        assert!(
            store.agents_unavailable_reason().is_none(),
            "a timeout is not the same as agents being unavailable"
        );
        machine.scan(&mut store);
    }
}

#[test]
fn set_visible_false_does_not_stop_the_agents_poll() {
    let machine = Machine::running(&[(142, "hidden-agents-session")]);
    let mut store = ClaudeSessionStore::new("Maker", NOW);
    machine.scan(&mut store);
    store.set_visible(false);
    let mut poll = RegistryPoll::new();
    let mut agents_listed = 0;
    let mut turns = 0;
    while turns < 6 {
        match poll.step(&mut store, NOW) {
            RegistryAction::Scan => {
                store.finish_registry_scan(Ok(machine.listing()), NOW);
            }
            RegistryAction::ListSubagents { session_ids } => {
                assert_eq!(session_ids, vec!["hidden-agents-session".to_string()]);
            }
            RegistryAction::ListAgents => agents_listed += 1,
            RegistryAction::Wait { interval_ms } => {
                assert_eq!(interval_ms, HIDDEN_POLL_INTERVAL_MS);
                turns += 1;
            }
        }
    }
    assert_eq!(agents_listed, 2, "the agents are listed on every third turn");
}

#[test]
fn an_ended_row_is_still_tailed_slowly() {
    let mut machine = Machine::running(&[(143, "ended-tail-session")]);
    let mut store = machine.store_with_selection("ended-tail-session");
    assert_eq!(store.transcript_interval_ms(), TRANSCRIPT_POLL_INTERVAL_MS);
    machine.run(&[]);
    machine.scan(&mut store);
    assert!(store.selected_is_ended(), "the row must have ended");
    assert_eq!(
        machine.poll_transcripts(&mut store),
        vec![TranscriptTarget::Main],
        "an ended row must still be tailed, just more slowly"
    );
    assert_eq!(store.transcript_interval_ms(), HIDDEN_POLL_INTERVAL_MS);
}

#[test]
fn a_registry_scan_that_does_not_answer_is_reported_and_another_is_not_begun() {
    let machine = Machine::running(&[(144, "slow-session")]);
    let mut store = ClaudeSessionStore::new("Maker", NOW);
    let mut poll = RegistryPoll::new();
    assert_eq!(poll.step(&mut store, NOW), RegistryAction::Scan);
    assert!(store.scan_in_flight());
    store.registry_scan_overdue();
    let error = store.error().expect("a scan that hangs must be reported");
    assert!(error.contains("has not answered"), "got {error:?}");
    loop {
        match poll.step(&mut store, NOW) {
            RegistryAction::Wait { .. } => break,
            RegistryAction::Scan => panic!("one scan at a time"),
            RegistryAction::ListSubagents { .. } | RegistryAction::ListAgents => {}
        }
    }
    assert_ne!(
        poll.step(&mut store, NOW),
        RegistryAction::Scan,
        "the first scan is still in flight"
    );
    store.finish_registry_scan(Ok(machine.listing()), NOW);
    assert!(!store.scan_in_flight());
    assert_eq!(store.error(), None, "the scan that answered after all clears its own report");
    assert_eq!(store.sessions().len(), 1);
}

#[test]
fn a_failed_scan_keeps_the_list_and_says_so() {
    let machine = Machine::running(&[(145, "kept-session")]);
    let mut store = ClaudeSessionStore::new("Maker", NOW);
    machine.scan(&mut store);
    store.apply_registry_scan(Err("permission denied".to_string()), NOW);
    assert_eq!(store.sessions().len(), 1);
    assert_eq!(store.error(), Some("Reading Maker sessions: permission denied"));
}

#[test]
fn the_status_of_the_selected_session_is_read_and_kept() {
    let machine = Machine::running(&[(146, "status-session")]);
    let mut store = machine.store_with_selection("status-session");
    let mut poll = StatusPoll::new();
    let session_id = match poll.step(&store) {
        StatusAction::Read { session_id } => session_id,
        StatusAction::Wait { .. } => panic!("the status of the selected session is due"),
    };
    assert_eq!(session_id, "status-session");
    let status = r#"{"model":{"id":"maker-opus-5"}}"#.to_string();
    assert!(store.apply_status(&Some(session_id), Some(Ok(Some(status))), NOW));
    assert_eq!(
        store.status().and_then(|status| status.model_id.as_deref()),
        Some("maker-opus-5")
    );
    assert_eq!(store.status_updated_at(), Some(NOW));
}

#[test]
fn more_inbox_lines_than_are_kept_push_the_oldest_out() {
    let mut machine = Machine::running(&[(147, "busy-inbox")]);
    let lines: String = (1..=250)
        .map(|at_ms| format!("{{\"kind\":\"ready\",\"at_ms\":{at_ms}}}\n"))
        .collect();
    machine.inboxes.insert(147, lines);
    let mut store = machine.store_with_selection("busy-inbox");
    machine.poll_channel(&mut store);
    assert_eq!(store.channel_events().len(), 200);
    assert_eq!(
        store.channel_events()[0],
        ChannelInboxEvent::Ready { at_ms: 51 }
    );
}

#[test]
fn an_ended_row_can_be_dismissed() {
    let mut machine = Machine::running(&[(148, "leaving"), (149, "staying")]);
    let mut store = ClaudeSessionStore::new("Maker", NOW);
    machine.scan(&mut store);
    machine.run(&[(149, "staying")]);
    machine.scan(&mut store);
    let ids = |store: &ClaudeSessionStore| -> Vec<String> {
        store
            .session_rows()
            .iter()
            .map(|row| row.session_id().to_string())
            .collect()
    };
    assert_eq!(ids(&store), vec!["staying".to_string(), "leaving".to_string()]);
    assert!(store.dismiss_ended("leaving"));
    assert_eq!(ids(&store), vec!["staying".to_string()]);
    assert!(!store.dismiss_ended("leaving"));
}

#[test]
fn a_scan_that_finds_what_was_listed_is_no_change() {
    let mut machine = Machine::running(&[(150, "steady")]);
    machine.writes("steady", "");
    let mut store = ClaudeSessionStore::new("Maker", NOW);
    assert!(store.apply_registry_scan(Ok(machine.listing()), NOW));
    assert!(!store.apply_registry_scan(Ok(machine.listing()), NOW + 1_000));
    machine.run(&[(150, "steady"), (151, "new")]);
    assert!(store.apply_registry_scan(Ok(machine.listing()), NOW + 2_000));
    machine.run(&[]);
    assert!(store.apply_registry_scan(Ok(machine.listing()), NOW + 3_000));
    assert!(!store.apply_registry_scan(Ok(machine.listing()), NOW + 4_000));
}
