//! Tracks the sessions that run on a machine and follows the transcript of the one the
//! user selected.
//!
//! The store is told what the polls read, and by whoever runs them also what time it is.
//! A method that changes something a view may have drawn says so in its result.
use crate::json::json_of_text;
use crate::live_notes::{note_transcript_into_live, with_transcript};
use crate::live_state::{
    event_of_wrapper, inbox_event_of, line_json, parse_channel_inbox_line, parse_hook_event, snapshot_of, snapshot_option,
    ChannelInboxEvent, ChannelInboxEventView, LiveState, LiveStateView, StatusSnapshot, StatusSnapshotView, Turn,
};
use crate::session_registry::{
    same_subagents, subagent_views, AgentListing, AgentListingView, ChannelStatus, ChannelStatusView,
    RegisteredSession, RegisteredSessionView, SessionSummary, SessionSummaryView, SubagentSummary, SubagentSummaryView,
    TailProgress, TailProgressView, TailState, TailStateView, TranscriptSpend,
};
use crate::session_rows::{
    any_live_process, any_process, drop_id, drop_live, ended_rows_are_kept, ended_views, ended_with_id, find_ended,
    find_live, has_ended, has_live, has_live_process, has_process, id_of_process, last_id_of_process,
    lemma_adding_keeps_rows, lemma_kept_rows, lemma_merging_keeps_rows, lemma_without_id_keeps_rows,
    live_and_ended_are_apart, listing_views, live_views, live_with_id, merge_listings, push_ended, row_views,
    same_live, with_ended, without_id, without_live, EndedReason, EndedSession, EndedSessionView, LiveSession,
    LiveSessionView, Rows, SessionRow, SessionRowView,
};
use crate::session_source::{SessionListing, SessionListingView};
use crate::store_laws::lemma_scan_keeps_rows;
use crate::text::{
    chars_of, copy_option, decimal_digits, decimal_text, find, joined, same_option, same_text, stands_at, text_option,
    trimmed,
};
use crate::text_map::TextMap;
use crate::transcript::{
    parse_record, record_of, record_views, str_option, text_at, texts, Transcript, TranscriptRecord, TranscriptRecordView,
    TranscriptView,
};
use vstd::prelude::*;

verus! {

pub const REGISTRY_POLL_INTERVAL_MS: u64 = 1000;

pub const TRANSCRIPT_POLL_INTERVAL_MS: u64 = 250;

pub const EVENTS_POLL_INTERVAL_MS: u64 = 250;

pub const STATUS_POLL_INTERVAL_MS: u64 = 1000;

pub const HOOKS_POLL_INTERVAL_MS: u64 = 30_000;

pub const CHANNEL_INBOX_POLL_INTERVAL_MS: u64 = 250;

pub const CHANNEL_STATUS_POLL_TICKS: u32 = 4;

pub const CHANNEL_INBOX_EVENTS_CAP: usize = 200;

/// How far apart the hook's `PermissionRequest` and the channel's `permission_request`
/// line may be written and still be one prompt; see `is_for_the_prompt`.
/// Wide enough for a hook script that took its time on a loaded machine, far short of the
/// half hour a line can outlive the prompt it was written for.
pub const CHANNEL_PERMISSION_MATCH_WINDOW_MS: u64 = 5_000;

pub const HIDDEN_POLL_INTERVAL_MS: u64 = 5_000;

pub const TRANSCRIPT_STALE_MS: u64 = 5_000;

pub const EVENTS_STALE_MS: u64 = 5_000;

pub const STATUS_STALE_MS: u64 = 15_000;

pub const REGISTRY_STALE_MS: u64 = 5_000;

/// How long one read may be in flight before a poll stops waiting on it.
///
/// A scan that is neither answered nor refused is the one failure the store had no
/// answer for: `error` stays empty, `sessions` stays empty, and every view built on it
/// draws its own initial state as though it were the host's answer. The bound turns that
/// into a refusal, which the store already reports and the next turn of the poll retries.
/// Generous enough that a host merely slow to walk its registry still gets to answer.
pub const REGISTRY_SCAN_TIMEOUT_SECONDS: u64 = 20;

/// What is said of a read that has not been answered in time.
pub fn timeout_message(what: &str) -> (message: String)
    ensures
        message@ == what@ + " has not answered in 20 s"@,
        message@ == timeout_text(what@),
{
    joined(what, " has not answered in 20 s")
}

pub open spec fn offers_interrupt(channel: ChannelStatusView) -> bool {
    exists|k: int| 0 <= k < channel.features.len() && #[trigger] channel.features[k] == "interrupt"@
}

fn has_interrupt_feature(channel: &ChannelStatus) -> (result: bool)
    ensures
        result == offers_interrupt(channel@),
{
    let ghost features = channel@.features;
    let mut i: usize = 0;
    while i < channel.features.len()
        invariant
            i <= channel.features@.len(),
            features == channel@.features,
            forall|k: int| 0 <= k < i ==> #[trigger] features[k] != "interrupt"@,
        decreases channel.features@.len() - i,
    {
        assert(features[i as int] == channel.features@[i as int]@);
        if same_text(channel.features[i].as_str(), "interrupt") {
            return true;
        }
        i = i + 1;
    }
    false
}

/// Why a turn cannot be interrupted. (Where nothing stands in the way but the missing
/// process, the channel is what is missing.)
pub open spec fn refusal(channel: Option<ChannelStatusView>, turn: Turn) -> Seq<char> {
    match channel {
        Some(status) if status.live => if !offers_interrupt(status) {
            "Interrupt: channel server is too old"@
        } else if !(turn is Running) {
            "Interrupt: session is idle"@
        } else {
            "Interrupt: channel not loaded"@
        },
        _ => "Interrupt: channel not loaded"@,
    }
}

pub fn interrupt_refusal_message(channel: Option<&ChannelStatus>, turn: &Turn) -> (message:
    &'static str)
    ensures
        message@ == refusal(channel_option(channel), *turn),
{
    match channel {
        Some(status) => {
            if !status.live {
                "Interrupt: channel not loaded"
            } else if !has_interrupt_feature(status) {
                "Interrupt: channel server is too old"
            } else if !matches!(turn, Turn::Running { .. }) {
                "Interrupt: session is idle"
            } else {
                "Interrupt: channel not loaded"
            }
        },
        None => "Interrupt: channel not loaded",
    }
}

pub open spec fn channel_option(channel: Option<&ChannelStatus>) -> Option<ChannelStatusView> {
    match channel {
        Some(channel) => Some(channel@),
        None => None,
    }
}

/// A turn can be interrupted through a live channel that offers it, while it runs.
pub open spec fn interruptible(channel: Option<ChannelStatusView>, turn: Turn) -> bool {
    match channel {
        Some(status) => status.live && offers_interrupt(status) && turn is Running,
        None => false,
    }
}

pub fn can_interrupt_now(channel: Option<&ChannelStatus>, turn: &Turn) -> (result: bool)
    ensures
        result == interruptible(channel_option(channel), *turn),
{
    match channel {
        Some(status) => status.live && has_interrupt_feature(status) && matches!(
            turn,
            Turn::Running { .. }
        ),
        None => false,
    }
}

/// What put the message in [`ClaudeSessionStore::error`]. A poll that succeeds clears the
/// error a previous poll left behind, and that must not also wipe the report of a send
/// the user has just watched fail: the polls run every second, so a send failure with no
/// source of its own would be gone before it could be read.
#[derive(PartialEq, Eq, Debug, Clone, Copy, Structural)]
pub enum ErrorSource {
    Poll,
    /// Kept apart from [`ErrorSource::Poll`] because the two polls run at the same
    /// interval: a registry scan that succeeds clears the source it shares, so a
    /// transcript that fails on every read was reported and wiped within the second,
    /// leaving a conversation that is empty for no stated reason.
    Transcript,
    Send,
    Subagents,
    Events,
    Status,
    Hooks,
    Channel,
    Agents,
}

#[derive(Clone, Copy, Debug, PartialEq, Eq, Structural)]
pub struct StoreClock {
    pub last_transcript_ok_ms: Option<u64>,
    pub last_events_ok_ms: Option<u64>,
    pub last_status_ok_ms: Option<u64>,
    pub last_registry_ok_ms: Option<u64>,
}

impl Default for StoreClock {
    fn default() -> (clock: Self)
        ensures
            clock == (StoreClock {
                last_transcript_ok_ms: None,
                last_events_ok_ms: None,
                last_status_ok_ms: None,
                last_registry_ok_ms: None,
            }),
    {
        StoreClock {
            last_transcript_ok_ms: None,
            last_events_ok_ms: None,
            last_status_ok_ms: None,
            last_registry_ok_ms: None,
        }
    }
}

/// How far a read is past the time it was due by; zero where it is not.
pub open spec fn overdue(last: Option<u64>, budget: u64, now_ms: u64) -> int {
    match last {
        Some(last) if now_ms - last > budget => now_ms - last - budget,
        _ => 0,
    }
}

fn overdue_ms(last: Option<u64>, budget: u64, now_ms: u64) -> (result: u64)
    ensures
        result == overdue(last, budget, now_ms),
{
    match last {
        Some(last) => {
            let elapsed: u64 = now_ms.saturating_sub(last);
            elapsed.saturating_sub(budget)
        },
        None => 0,
    }
}

impl StoreClock {
    /// How overdue each of the four reads is, in the order in which ties are settled.
    pub open spec fn overdues(self, now_ms: u64) -> (int, int, int, int) {
        (
            overdue(self.last_transcript_ok_ms, TRANSCRIPT_STALE_MS, now_ms),
            overdue(self.last_events_ok_ms, EVENTS_STALE_MS, now_ms),
            overdue(self.last_status_ok_ms, STATUS_STALE_MS, now_ms),
            overdue(self.last_registry_ok_ms, REGISTRY_STALE_MS, now_ms),
        )
    }

    /// The read that is overdue the most, and by how much; the first of equals.
    pub open spec fn most_overdue(self, now_ms: u64) -> Option<(Seq<char>, u64)> {
        let (transcript, events, status, registry) = self.overdues(now_ms);
        if transcript > 0 && transcript >= events && transcript >= status && transcript >= registry {
            Some(("transcript"@, transcript as u64))
        } else if events > 0 && events >= status && events >= registry {
            Some(("events"@, events as u64))
        } else if status > 0 && status >= registry {
            Some(("status"@, status as u64))
        } else if registry > 0 {
            Some(("registry"@, registry as u64))
        } else {
            None
        }
    }

    pub fn stale_for(&self, now_ms: u64) -> (stale: Option<(&'static str, u64)>)
        ensures
            stale_option(stale) == self.most_overdue(now_ms),
    {
        let mut name = "transcript";
        let mut most: u64 = overdue_ms(self.last_transcript_ok_ms, TRANSCRIPT_STALE_MS, now_ms);
        let events: u64 = overdue_ms(self.last_events_ok_ms, EVENTS_STALE_MS, now_ms);
        if events > most {
            name = "events";
            most = events;
        }
        let status: u64 = overdue_ms(self.last_status_ok_ms, STATUS_STALE_MS, now_ms);
        if status > most {
            name = "status";
            most = status;
        }
        let registry: u64 = overdue_ms(self.last_registry_ok_ms, REGISTRY_STALE_MS, now_ms);
        if registry > most {
            name = "registry";
            most = registry;
        }
        if most > 0 {
            Some((name, most))
        } else {
            None
        }
    }
}

pub open spec fn stale_option(stale: Option<(&str, u64)>) -> Option<(Seq<char>, u64)> {
    match stale {
        Some(stale) => Some((stale.0@, stale.1)),
        None => None,
    }
}

/// What is reported as stale is overdue, and nothing is overdue by more.
pub proof fn lemma_stale_is_the_most_overdue(clock: StoreClock, now_ms: u64)
    ensures
        ({
            let (transcript, events, status, registry) = clock.overdues(now_ms);
            match clock.most_overdue(now_ms) {
                Some(stale) => {
                    &&& stale.1 > 0
                    &&& stale.1 >= transcript && stale.1 >= events && stale.1 >= status && stale.1
                        >= registry
                },
                None => transcript <= 0 && events <= 0 && status <= 0 && registry <= 0,
            }
        }),
{
}

/// Which of the selected session's conversations is being followed.
///
/// A session's own conversation and each of its subagents' are separate files, and only
/// one of them is read at a time — the transcript the store holds is the one the panel
/// draws, so following a second file would mean interleaving two conversations into it.
#[derive(Clone, Debug, PartialEq, Eq)]
pub enum TranscriptTarget {
    Main,
    Subagent {
        agent_id: String,
        /// `Some` for an agent belonging to a `Workflow` run, whose transcript lives one
        /// directory deeper. The same agent id appears in both layouts, so the run id is
        /// part of naming the file rather than extra detail about it.
        workflow_run_id: Option<String>,
    },
}

impl Default for TranscriptTarget {
    fn default() -> (target: Self)
        ensures
            target@ == TranscriptTargetView::Main,
    {
        TranscriptTarget::Main
    }
}

/// What a [`TranscriptTarget`] says.
pub enum TranscriptTargetView {
    Main,
    Subagent { agent_id: Seq<char>, workflow_run_id: Option<Seq<char>> },
}

impl View for TranscriptTarget {
    type V = TranscriptTargetView;

    open spec fn view(&self) -> TranscriptTargetView {
        match *self {
            TranscriptTarget::Main => TranscriptTargetView::Main,
            TranscriptTarget::Subagent { agent_id, workflow_run_id } =>
                TranscriptTargetView::Subagent {
                agent_id: agent_id@,
                workflow_run_id: text_option(workflow_run_id),
            },
        }
    }
}

impl TranscriptTarget {
    pub fn same_as(&self, other: &TranscriptTarget) -> (result: bool)
        ensures
            result == (self@ == other@),
    {
        match (self, other) {
            (TranscriptTarget::Main, TranscriptTarget::Main) => true,
            (
                TranscriptTarget::Subagent { agent_id, workflow_run_id },
                TranscriptTarget::Subagent {
                    agent_id: other_agent_id,
                    workflow_run_id: other_run_id,
                },
            ) => same_text(agent_id.as_str(), other_agent_id.as_str()) && same_option(
                workflow_run_id,
                other_run_id,
            ),
            _ => false,
        }
    }

    pub fn duplicate(&self) -> (copy: TranscriptTarget)
        ensures
            copy@ == self@,
    {
        match self {
            TranscriptTarget::Main => TranscriptTarget::Main,
            TranscriptTarget::Subagent { agent_id, workflow_run_id } => TranscriptTarget::Subagent {
                agent_id: agent_id.clone(),
                workflow_run_id: copy_option(workflow_run_id),
            },
        }
    }
}

/// One conversation being followed: the records absorbed so far, and where reading of
/// the file has got to. Recreated from scratch whenever the file it names changes —
/// another session selected, `/clear`, another agent opened.
struct FollowedConversation {
    transcript: Transcript,
    /// The value [`ClaudeSessionStore::transcript_resets`] had when this transcript was
    /// started, which is what a caller caching anything derived from it keys on.
    generation: u64,
    /// `None` until the file appears. A session that has only just started is listed
    /// with no transcript rather than hidden.
    path: Option<String>,
    offset: u64,
    /// Bytes read after the last newline. Kept as bytes because a read can stop in the
    /// middle of a multi-byte character, which cannot be held as a `String`.
    pending: Vec<u8>,
}

/// A conversation that is followed, and how far it has been read.
#[verifier::ext_equal]
pub struct ConversationView {
    pub transcript: TranscriptView,
    pub generation: u64,
    pub path: Option<Seq<char>>,
    pub offset: u64,
    pub pending: Seq<u8>,
}

impl ConversationView {
    /// A conversation of which nothing has been read.
    pub open spec fn unread(reads_sidechain: bool, generation: u64) -> ConversationView {
        ConversationView {
            transcript: TranscriptView::unread(reads_sidechain),
            generation,
            path: None,
            offset: 0,
            pending: Seq::empty(),
        }
    }

    pub open spec fn state(self) -> TailStateView {
        TailStateView { path: self.path, offset: self.offset, pending: self.pending }
    }

    /// The conversation after a read: it goes on where the read stopped.
    pub open spec fn read_to(self, progress: TailProgressView) -> ConversationView {
        ConversationView {
            path: progress.path,
            offset: progress.offset,
            pending: progress.pending,
            ..self
        }
    }
}

impl FollowedConversation {
    pub closed spec fn view(&self) -> ConversationView {
        ConversationView {
            transcript: self.transcript@,
            generation: self.generation,
            path: text_option(self.path),
            offset: self.offset,
            pending: self.pending@,
        }
    }

    spec fn well_formed(&self) -> bool {
        self.transcript.well_formed()
    }

    fn new(transcript: Transcript, generation: u64) -> (conversation: Self)
        requires
            transcript.well_formed(),
        ensures
            conversation.well_formed(),
            conversation@ == (ConversationView {
                transcript: transcript@,
                generation,
                path: None,
                offset: 0,
                pending: Seq::empty(),
            }),
    {
        FollowedConversation { transcript, generation, path: None, offset: 0, pending: Vec::new() }
    }

    fn state(&self) -> (state: TailState)
        ensures
            state@ == self@.state(),
    {
        TailState {
            path: copy_option(&self.path),
            offset: self.offset,
            pending: copy_bytes(&self.pending),
        }
    }

    fn read_to(&mut self, path: Option<String>, offset: u64, pending: Vec<u8>)
        requires
            old(self).well_formed(),
        ensures
            final(self).well_formed(),
            final(self)@ == (ConversationView {
                path: text_option(path),
                offset,
                pending: pending@,
                ..old(self)@
            }),
    {
        self.path = path;
        self.offset = offset;
        self.pending = pending;
    }
}

fn copy_bytes(bytes: &Vec<u8>) -> (copy: Vec<u8>)
    ensures
        copy@ == bytes@,
{
    let mut copy: Vec<u8> = Vec::new();
    let mut i: usize = 0;
    while i < bytes.len()
        invariant
            i <= bytes@.len(),
            copy@ == bytes@.take(i as int),
        decreases bytes@.len() - i,
    {
        copy.push(bytes[i]);
        assert(bytes@.take(i + 1) =~= bytes@.take(i as int).push(bytes@[i as int]));
        i = i + 1;
    }
    assert(bytes@.take(i as int) =~= bytes@);
    copy
}

/// The sessions of a machine, and the conversation of one of them.
pub struct ClaudeSessionStore {
    /// The name of the assistant, as messages to the reader give it.
    product: String,
    live_sessions: Vec<LiveSession>,
    ended: Vec<EndedSession>,
    agent_listings: Vec<AgentListing>,
    /// The home directory of the machine the sessions were scanned on, as that machine
    /// reported it. `None` until the first scan arrives: the paths that have to be
    /// checked against it come from that machine too, and this process's own home is not
    /// an answer about a remote one.
    home_directory: Option<String>,
    /// What the last scan read off the end of each listed session's transcript, keyed by
    /// session id. Every listed session has one, not only the one being followed — a row
    /// says what its own session is carrying.
    session_spend: TextMap<TranscriptSpend>,
    /// Where the last scan found each listed session's transcript, keyed by session id.
    /// Only the machine a session runs on can locate its transcript, so this comes from
    /// the scan rather than being looked for here.
    transcript_paths: TextMap<String>,
    selected: Option<String>,
    /// The `/clear` old→new sessionId pairs from scans that replaced the session the
    /// reader was on when each scan started. One scan records at most one pair; pairs
    /// from separate scans accumulate until the panel takes them.
    cleared_rebinds: Vec<(String, String)>,
    /// The subagent conversations of every listed session, as the last scan found them,
    /// keyed by session id. Every session is scanned rather than only the selected one,
    /// because the list draws each session's agents under it.
    ///
    /// Keyed by session rather than held as one list so that switching sessions shows the
    /// agents of the one switched to straight away, and so that an agent id is only ever
    /// read back under the session whose directory it names.
    subagents_by_session: TextMap<Vec<SubagentSummary>>,
    /// What a session without subagents has.
    no_subagents: Vec<SubagentSummary>,
    transcript_target: TranscriptTarget,
    /// The `sessionId` both conversations are read under, or `None` while no session is
    /// selected — which is what keeps an unselected session from being read at all. It
    /// identifies the conversation rather than the process: a new `sessionId` is written
    /// when the user runs `/clear`, and that is the signal to start over.
    followed_session_id: Option<String>,
    /// The selected session's own conversation, followed whether or not it is the one on
    /// screen. An agent's transcript never records the agent returning, so the session's
    /// own thread is the only place the state of an agent can be read off, and it is
    /// also where a `/clear` becomes visible.
    main_conversation: FollowedConversation,
    /// The agent conversation followed beside the session's own, and `None` whenever
    /// [`Self::transcript_target`] is [`TranscriptTarget::Main`].
    subagent_conversation: Option<FollowedConversation>,
    /// Counts every time either transcript has been thrown away and started again. Both
    /// conversations take their generation from this one counter, so that switching
    /// between them always reads as a change to a caller caching by record uuid: a
    /// counter per conversation would hand out the same number for both the first time
    /// each was started.
    transcript_resets: u64,
    error: Option<(ErrorSource, String)>,
    notice: Option<String>,
    agents_unavailable_reason: Option<String>,
    liveness_unavailable_reason: Option<String>,
    clock: StoreClock,
    visible: bool,
    scan_in_flight: bool,
    registry_scan_started_ms: Option<u64>,
    live: LiveState,
    events: FollowedConversation,
    status: Option<StatusSnapshot>,
    status_updated_at: Option<i64>,
    hooks_are_installed: bool,
    channel: Option<ChannelStatus>,
    channel_checked_at_ms: Option<i64>,
    channel_inbox: FollowedConversation,
    channel_events: Vec<ChannelInboxEvent>,
}

/// What a [`ClaudeSessionStore`] holds.
#[verifier::ext_equal]
pub struct StoreView {
    pub product: Seq<char>,
    pub live_sessions: Seq<LiveSessionView>,
    pub ended: Seq<EndedSessionView>,
    pub agent_listings: Seq<AgentListingView>,
    pub home_directory: Option<Seq<char>>,
    pub session_spend: Map<Seq<char>, TranscriptSpend>,
    pub transcript_paths: Map<Seq<char>, Seq<char>>,
    pub selected: Option<Seq<char>>,
    pub cleared_rebinds: Seq<(Seq<char>, Seq<char>)>,
    pub subagents_by_session: Map<Seq<char>, Seq<SubagentSummaryView>>,
    pub transcript_target: TranscriptTargetView,
    pub followed: Option<Seq<char>>,
    pub main: ConversationView,
    pub subagent: Option<ConversationView>,
    pub transcript_resets: u64,
    pub error: Option<(ErrorSource, Seq<char>)>,
    pub notice: Option<Seq<char>>,
    pub agents_unavailable_reason: Option<Seq<char>>,
    pub liveness_unavailable_reason: Option<Seq<char>>,
    pub clock: StoreClock,
    pub visible: bool,
    pub scan_in_flight: bool,
    pub registry_scan_started_ms: Option<u64>,
    pub live: LiveStateView,
    pub events: ConversationView,
    pub status: Option<StatusSnapshotView>,
    pub status_updated_at: Option<i64>,
    pub hooks_are_installed: bool,
    pub channel: Option<ChannelStatusView>,
    pub channel_checked_at_ms: Option<i64>,
    pub channel_inbox: ConversationView,
    pub channel_events: Seq<ChannelInboxEventView>,
}

pub open spec fn path_map(paths: Map<Seq<char>, String>) -> Map<Seq<char>, Seq<char>> {
    paths.map_values(|path: String| path@)
}

pub open spec fn subagent_map(subagents: Map<Seq<char>, Vec<SubagentSummary>>) -> Map<
    Seq<char>,
    Seq<SubagentSummaryView>,
> {
    subagents.map_values(|subagents: Vec<SubagentSummary>| subagent_views(subagents@))
}

pub open spec fn pair_views(pairs: Seq<(String, String)>) -> Seq<(Seq<char>, Seq<char>)> {
    pairs.map_values(|pair: (String, String)| (pair.0@, pair.1@))
}

pub open spec fn event_views(events: Seq<ChannelInboxEvent>) -> Seq<ChannelInboxEventView> {
    events.map_values(|event: ChannelInboxEvent| event@)
}

pub open spec fn error_option(error: Option<(ErrorSource, String)>) -> Option<
    (ErrorSource, Seq<char>),
> {
    match error {
        Some(error) => Some((error.0, error.1@)),
        None => None,
    }
}

/// The clock that the reads are timed by: no time before the epoch.
pub open spec fn clock_ms(now_ms: i64) -> u64 {
    if now_ms < 0 {
        0
    } else {
        now_ms as u64
    }
}

fn clock_of(now_ms: i64) -> (clock: u64)
    ensures
        clock == clock_ms(now_ms),
{
    if now_ms < 0 {
        0
    } else {
        now_ms as u64
    }
}

impl StoreView {
    /// A store that has been told nothing.
    pub open spec fn fresh(product: Seq<char>, now_ms: i64) -> StoreView {
        StoreView {
            product,
            live_sessions: Seq::empty(),
            ended: Seq::empty(),
            agent_listings: Seq::empty(),
            home_directory: None,
            session_spend: Map::empty(),
            transcript_paths: Map::empty(),
            selected: None,
            cleared_rebinds: Seq::empty(),
            subagents_by_session: Map::empty(),
            transcript_target: TranscriptTargetView::Main,
            followed: None,
            main: ConversationView::unread(false, 0),
            subagent: None,
            transcript_resets: 0,
            error: None,
            notice: None,
            agents_unavailable_reason: None,
            liveness_unavailable_reason: None,
            clock: StoreClock {
                last_transcript_ok_ms: Some(clock_ms(now_ms)),
                last_events_ok_ms: Some(clock_ms(now_ms)),
                last_status_ok_ms: Some(clock_ms(now_ms)),
                last_registry_ok_ms: Some(clock_ms(now_ms)),
            },
            visible: true,
            scan_in_flight: false,
            registry_scan_started_ms: None,
            live: LiveStateView::quiet(),
            events: ConversationView::unread(false, 0),
            status: None,
            status_updated_at: None,
            hooks_are_installed: false,
            channel: None,
            channel_checked_at_ms: None,
            channel_inbox: ConversationView::unread(false, 0),
            channel_events: Seq::empty(),
        }
    }

    pub open spec fn selected_live(self) -> Option<LiveSessionView> {
        match self.selected {
            Some(id) => live_with_id(self.live_sessions, id),
            None => None,
        }
    }

    pub open spec fn selected_ended(self) -> Option<EndedSessionView> {
        match self.selected {
            Some(id) => ended_with_id(self.ended, id),
            None => None,
        }
    }

    /// Whether the selected session is among the ended ones.
    pub open spec fn is_selected_ended(self) -> bool {
        self.selected is Some && has_ended(self.ended, self.selected->0)
    }

    /// The process of the selected session; there is none where its id is zero.
    pub open spec fn selected_process(self) -> Option<u32> {
        match self.selected_live() {
            Some(live) if live.session.process_id != 0 => Some(live.session.process_id),
            _ => None,
        }
    }

    /// The error, unless it came from `source`.
    pub open spec fn without_error(self, source: ErrorSource) -> StoreView {
        StoreView {
            error: match self.error {
                Some(error) if error.0 == source => None,
                _ => self.error,
            },
            ..self
        }
    }

    pub open spec fn has_error(self, source: ErrorSource) -> bool {
        self.error is Some && (self.error->0).0 == source
    }

    pub open spec fn with_error(self, source: ErrorSource, message: Seq<char>) -> StoreView {
        StoreView { error: Some((source, message)), ..self }
    }

    /// Nothing is known of the activity of the session that is followed.
    pub open spec fn with_live_reset(self) -> StoreView {
        StoreView {
            live: LiveStateView::quiet(),
            events: ConversationView::unread(false, self.transcript_resets),
            status: None,
            status_updated_at: None,
            channel: None,
            channel_checked_at_ms: None,
            channel_events: Seq::empty(),
            channel_inbox: ConversationView::unread(false, self.transcript_resets),
            ..self
        }
    }

    /// The number of the next transcript that is started.
    pub open spec fn next_generation(self) -> u64 {
        if self.transcript_resets < u64::MAX {
            (self.transcript_resets + 1) as u64
        } else {
            u64::MAX
        }
    }

    /// The selected session's own conversation is followed from its beginning.
    pub open spec fn with_main_followed(self, now_ms: i64) -> StoreView {
        StoreView {
            transcript_target: TranscriptTargetView::Main,
            subagent: None,
            main: ConversationView::unread(false, self.next_generation()),
            transcript_resets: self.next_generation(),
            followed: self.selected,
            clock: StoreClock {
                last_transcript_ok_ms: Some(clock_ms(now_ms)),
                last_events_ok_ms: Some(clock_ms(now_ms)),
                last_status_ok_ms: Some(clock_ms(now_ms)),
                ..self.clock
            },
            ..self.with_live_reset()
        }
    }

    /// The conversation on screen.
    pub open spec fn viewed(self) -> ConversationView {
        match (self.transcript_target, self.subagent) {
            (TranscriptTargetView::Subagent { .. }, Some(subagent)) => subagent,
            _ => self.main,
        }
    }

    pub open spec fn conversation(self, target: TranscriptTargetView) -> Option<ConversationView> {
        match target {
            TranscriptTargetView::Main => Some(self.main),
            TranscriptTargetView::Subagent { .. } => self.subagent,
        }
    }

    pub open spec fn with_conversation(
        self,
        target: TranscriptTargetView,
        conversation: ConversationView,
    ) -> StoreView {
        match target {
            TranscriptTargetView::Main => StoreView { main: conversation, ..self },
            TranscriptTargetView::Subagent { .. } => StoreView {
                subagent: Some(conversation),
                ..self
            },
        }
    }
}

impl ClaudeSessionStore {
    pub closed spec fn view(&self) -> StoreView {
        StoreView {
            product: self.product@,
            live_sessions: live_views(self.live_sessions@),
            ended: ended_views(self.ended@),
            agent_listings: listing_views(self.agent_listings@),
            home_directory: text_option(self.home_directory),
            session_spend: self.session_spend@,
            transcript_paths: path_map(self.transcript_paths@),
            selected: text_option(self.selected),
            cleared_rebinds: pair_views(self.cleared_rebinds@),
            subagents_by_session: subagent_map(self.subagents_by_session@),
            transcript_target: self.transcript_target@,
            followed: text_option(self.followed_session_id),
            main: self.main_conversation@,
            subagent: match self.subagent_conversation {
                Some(conversation) => Some(conversation@),
                None => None,
            },
            transcript_resets: self.transcript_resets,
            error: error_option(self.error),
            notice: text_option(self.notice),
            agents_unavailable_reason: text_option(self.agents_unavailable_reason),
            liveness_unavailable_reason: text_option(self.liveness_unavailable_reason),
            clock: self.clock,
            visible: self.visible,
            scan_in_flight: self.scan_in_flight,
            registry_scan_started_ms: self.registry_scan_started_ms,
            live: self.live@,
            events: self.events@,
            status: snapshot_option(self.status),
            status_updated_at: self.status_updated_at,
            hooks_are_installed: self.hooks_are_installed,
            channel: match self.channel {
                Some(channel) => Some(channel@),
                None => None,
            },
            channel_checked_at_ms: self.channel_checked_at_ms,
            channel_inbox: self.channel_inbox@,
            channel_events: event_views(self.channel_events@),
        }
    }

    /// The indexes of the transcripts are in order, and the ended rows are few and each of
    /// another session.
    pub closed spec fn well_formed(&self) -> bool {
        &&& self.main_conversation.well_formed()
        &&& self.subagent_conversation is Some ==> self.subagent_conversation->0.well_formed()
        &&& self.events.well_formed()
        &&& self.channel_inbox.well_formed()
        &&& self.no_subagents@.len() == 0
        &&& ended_rows_are_kept(ended_views(self.ended@))
    }

    /// A store that has been told nothing yet, for the sessions of an assistant whose
    /// `product` name the messages to the reader give.
    pub fn new(product: &str, now_ms: i64) -> (store: Self)
        ensures
            store.well_formed(),
            store@ == StoreView::fresh(product@, now_ms),
    {
        let now: u64 = clock_of(now_ms);
        let store = ClaudeSessionStore {
            product: product.to_owned(),
            live_sessions: Vec::new(),
            ended: Vec::new(),
            agent_listings: Vec::new(),
            home_directory: None,
            session_spend: TextMap::new(),
            transcript_paths: TextMap::new(),
            selected: None,
            cleared_rebinds: Vec::new(),
            subagents_by_session: TextMap::new(),
            no_subagents: Vec::new(),
            transcript_target: TranscriptTarget::Main,
            followed_session_id: None,
            main_conversation: FollowedConversation::new(Transcript::new(), 0),
            subagent_conversation: None,
            transcript_resets: 0,
            error: None,
            notice: None,
            agents_unavailable_reason: None,
            liveness_unavailable_reason: None,
            clock: StoreClock {
                last_transcript_ok_ms: Some(now),
                last_events_ok_ms: Some(now),
                last_status_ok_ms: Some(now),
                last_registry_ok_ms: Some(now),
            },
            visible: true,
            scan_in_flight: false,
            registry_scan_started_ms: None,
            live: LiveState::default(),
            events: FollowedConversation::new(Transcript::new(), 0),
            status: None,
            status_updated_at: None,
            hooks_are_installed: false,
            channel: None,
            channel_checked_at_ms: None,
            channel_inbox: FollowedConversation::new(Transcript::new(), 0),
            channel_events: Vec::new(),
        };
        assert(store@ =~= StoreView::fresh(product@, now_ms));
        store
    }
}

impl StoreView {
    pub open spec fn rows(self) -> Seq<SessionRowView> {
        self.live_sessions.map_values(|live: LiveSessionView| SessionRowView::Live(live))
            + self.ended.map_values(|ended: EndedSessionView| SessionRowView::Ended(ended))
    }

    /// The read that was due and is overdue the most. While no session is followed, or the
    /// selected one has ended, only the registry is being read.
    pub open spec fn stale(self, now_ms: u64) -> Option<(Seq<char>, u64)> {
        if self.followed is None || self.is_selected_ended() {
            StoreClock {
                last_transcript_ok_ms: None,
                last_events_ok_ms: None,
                last_status_ok_ms: None,
                last_registry_ok_ms: self.clock.last_registry_ok_ms,
            }.most_overdue(now_ms)
        } else {
            self.clock.most_overdue(now_ms)
        }
    }

    /// The store without the ended row of a session; a selection of it goes too.
    pub open spec fn with_dismissed(self, id: Seq<char>) -> StoreView {
        if has_ended(self.ended, id) {
            StoreView {
                ended: without_id(self.ended, id),
                selected: if self.selected == Some(id) {
                    None
                } else {
                    self.selected
                },
                followed: if self.selected == Some(id) {
                    None
                } else {
                    self.followed
                },
                ..self
            }
        } else {
            self
        }
    }

    pub open spec fn with_seed(
        self,
        session: RegisteredSessionView,
        transcript_path: Option<Seq<char>>,
    ) -> StoreView {
        StoreView {
            transcript_paths: match transcript_path {
                Some(path) => self.transcript_paths.insert(session.session_id, path),
                None => self.transcript_paths,
            },
            live_sessions: if has_live(self.live_sessions, session.session_id) {
                self.live_sessions
            } else {
                self.live_sessions.push(LiveSessionView::registered(session))
            },
            ..self
        }
    }

    /// The store with another session selected. A send that failed for the session being
    /// left says nothing about this one.
    pub open spec fn with_selection(self, id: Seq<char>, now_ms: i64) -> StoreView {
        if self.selected == Some(id) {
            self
        } else {
            StoreView { selected: Some(id), ..self }.without_error(
                ErrorSource::Send,
            ).with_main_followed(now_ms)
        }
    }

    pub open spec fn with_target(self, target: TranscriptTargetView) -> StoreView {
        if self.transcript_target == target {
            self
        } else {
            match target {
                TranscriptTargetView::Main => StoreView {
                    transcript_target: target,
                    subagent: None,
                    ..self
                },
                TranscriptTargetView::Subagent { .. } => StoreView {
                    transcript_target: target,
                    subagent: Some(ConversationView::unread(true, self.next_generation())),
                    transcript_resets: self.next_generation(),
                    ..self
                },
            }
        }
    }

    pub open spec fn viewed_path(self) -> Option<Seq<char>> {
        match self.transcript_target {
            TranscriptTargetView::Main => match self.selected {
                Some(id) => if self.transcript_paths.contains_key(id) {
                    Some(self.transcript_paths[id])
                } else {
                    self.main.path
                },
                None => None,
            },
            TranscriptTargetView::Subagent { .. } => match self.subagent {
                Some(subagent) => subagent.path,
                None => None,
            },
        }
    }

    pub open spec fn subagents_under(self, id: Seq<char>) -> Seq<SubagentSummaryView> {
        if self.subagents_by_session.contains_key(id) {
            self.subagents_by_session[id]
        } else {
            Seq::empty()
        }
    }

    pub open spec fn is_channel_live(self) -> bool {
        self.channel is Some && self.channel->0.live
    }

    /// The session that a view opened onto the selected one can be told of: as it is
    /// listed, or as it was when it ended.
    pub open spec fn seed(self) -> Option<(RegisteredSessionView, Option<Seq<char>>)> {
        match self.selected_live() {
            Some(live) => Some((live.session, self.known_path(live.session.session_id))),
            None => match self.selected_ended() {
                Some(ended) => Some(
                    (
                        RegisteredSessionView {
                            process_id: 0,
                            session_id: ended.session_id,
                            working_directory: ended.cwd,
                            process_start: Seq::empty(),
                            version: Seq::empty(),
                            kind: "interactive"@,
                            name: ended.name,
                            status: None,
                            updated_at: Some(ended.last_seen_ms),
                            tmux_target: ended.tmux,
                            bridge_session_id: ended.bridge_session_id,
                        },
                        match ended.transcript_path {
                            Some(path) => Some(path),
                            None => self.known_path(ended.session_id),
                        },
                    ),
                ),
                None => None,
            },
        }
    }

    pub open spec fn known_path(self, id: Seq<char>) -> Option<Seq<char>> {
        if self.transcript_paths.contains_key(id) {
            Some(self.transcript_paths[id])
        } else {
            None
        }
    }
}

impl StoreView {
    /// The working directory of the selected session, live or ended.
    pub open spec fn directory(self) -> Option<Seq<char>> {
        match self.selected_live() {
            Some(live) => Some(live.session.working_directory),
            None => match self.selected_ended() {
                Some(ended) => Some(ended.cwd),
                None => None,
            },
        }
    }

    /// The registration of the selected live session.
    pub open spec fn selected_registration(self) -> Option<RegisteredSessionView> {
        match self.selected_live() {
            Some(live) => Some(live.session),
            None => None,
        }
    }

    /// The pane of the selected live session.
    pub open spec fn pane(self) -> Option<Seq<char>> {
        match self.selected_live() {
            Some(live) => live.session.tmux_target,
            None => None,
        }
    }

    /// The permission mode of the newest event, or else of the session's own transcript.
    pub open spec fn mode(self) -> Option<Seq<char>> {
        match self.live.permission_mode {
            Some(mode) => Some(mode),
            None => self.main.transcript.permission_mode(),
        }
    }

    /// What is reported.
    pub open spec fn message(self) -> Option<Seq<char>> {
        match self.error {
            Some(error) => Some(error.1),
            None => None,
        }
    }

    /// What a session spent, as far as the last scan found it.
    pub open spec fn spend_of(self, id: Seq<char>) -> Option<TranscriptSpend> {
        if self.session_spend.contains_key(id) {
            Some(self.session_spend[id])
        } else {
            None
        }
    }

    /// The subagents of the selected live session.
    pub open spec fn selected_subagents(self) -> Seq<SubagentSummaryView> {
        match self.selected_live() {
            Some(live) => self.subagents_under(live.session.session_id),
            None => Seq::empty(),
        }
    }

    /// Why the turn cannot be interrupted, if it cannot.
    pub open spec fn disabled_reason(self) -> Option<Seq<char>> {
        if interruptible(self.channel, self.live.turn) {
            None
        } else {
            Some(refusal(self.channel, self.live.turn))
        }
    }
}

/// What is said of a read that has not been answered in time.
pub open spec fn timeout_text(what: Seq<char>) -> Seq<char> {
    what + " has not answered in 20 s"@
}

/// What is said of a request that could not be written.
pub open spec fn failure_text(request: ChannelRequestView, error: Seq<char>) -> Seq<char> {
    (match request {
        ChannelRequestView::Interrupt { .. } => "Interrupting the session: "@,
        ChannelRequestView::Message { .. } => "Sending to the session: "@,
        ChannelRequestView::Permission { .. } => "Answering the permission: "@,
    }) + error
}

fn borrowed(text: &Option<String>) -> (result: Option<&str>)
    ensures
        str_option(result) == text_option(*text),
{
    match text {
        Some(text) => Some(text.as_str()),
        None => None,
    }
}

impl ClaudeSessionStore {
    pub fn sessions(&self) -> (sessions: &[LiveSession])
        ensures
            live_views(sessions@) == self@.live_sessions,
    {
        self.live_sessions.as_slice()
    }

    pub fn ended_sessions(&self) -> (sessions: &[EndedSession])
        ensures
            ended_views(sessions@) == self@.ended,
            self.well_formed() ==> ended_rows_are_kept(self@.ended),
    {
        self.ended.as_slice()
    }

    /// The rows of the list: the sessions that run, then those that have ended.
    pub fn session_rows(&self) -> (rows: Vec<SessionRow>)
        ensures
            row_views(rows@) == self@.rows(),
    {
        let ghost live = self@.live_sessions.map_values(
            |live: LiveSessionView| SessionRowView::Live(live),
        );
        let ghost ended = self@.ended.map_values(
            |ended: EndedSessionView| SessionRowView::Ended(ended),
        );
        let mut rows: Vec<SessionRow> = Vec::new();
        let mut i: usize = 0;
        assert(row_views(rows@) =~= live.take(0));
        while i < self.live_sessions.len()
            invariant
                i <= self.live_sessions@.len(),
                live == self@.live_sessions.map_values(
                    |live: LiveSessionView| SessionRowView::Live(live),
                ),
                row_views(rows@) == live.take(i as int),
            decreases self.live_sessions@.len() - i,
        {
            let ghost before = rows@;
            let row = SessionRow::Live(self.live_sessions[i].duplicate());
            assert(row@ == live[i as int]);
            rows.push(row);
            assert(row_views(rows@) =~= row_views(before).push(row@));
            assert(live.take(i + 1) =~= live.take(i as int).push(live[i as int]));
            i = i + 1;
        }
        assert(live.take(i as int) =~= live);
        assert(live + ended.take(0) =~= live);
        let mut k: usize = 0;
        while k < self.ended.len()
            invariant
                k <= self.ended@.len(),
                ended == self@.ended.map_values(
                    |ended: EndedSessionView| SessionRowView::Ended(ended),
                ),
                row_views(rows@) == live + ended.take(k as int),
            decreases self.ended@.len() - k,
        {
            let ghost before = rows@;
            let row = SessionRow::Ended(self.ended[k].duplicate());
            assert(row@ == ended[k as int]);
            rows.push(row);
            assert(row_views(rows@) =~= row_views(before).push(row@));
            assert(live + ended.take(k + 1) =~= (live + ended.take(k as int)).push(
                ended[k as int],
            ));
            k = k + 1;
        }
        assert(ended.take(k as int) =~= ended);
        rows
    }

    /// The home directory of the machine the listed sessions run on, or `None` while no
    /// scan has reported one yet. A caller checking a path the scan led to against a
    /// boundary under the home directory has nothing to check it against until then.
    pub fn home_directory(&self) -> (directory: Option<&str>)
        ensures
            str_option(directory) == self@.home_directory,
    {
        borrowed(&self.home_directory)
    }

    pub fn selected(&self) -> (id: Option<&str>)
        ensures
            str_option(id) == self@.selected,
    {
        borrowed(&self.selected)
    }

    /// The `/clear` old→new sessionId pair from the last scan that replaced the selected
    /// session, then `None` until another such scan. A scan that only changes which
    /// session is selected does not produce a pair.
    pub fn take_cleared_rebind(&mut self) -> (pair: Option<(String, String)>)
        requires
            old(self).well_formed(),
        ensures
            final(self).well_formed(),
            final(self)@ == (StoreView { cleared_rebinds: Seq::empty(), ..old(self)@ }),
            match pair {
                Some(pair) => old(self)@.cleared_rebinds.len() > 0 && (pair.0@, pair.1@)
                    == old(self)@.cleared_rebinds.last(),
                None => old(self)@.cleared_rebinds.len() == 0,
            },
    {
        let mut pairs = self.take_cleared_rebinds();
        pairs.pop()
    }

    /// Every `/clear` old→new pair since the last take, in the order they were recorded.
    /// Empty when no selected session was replaced. One scan records at most one pair;
    /// pairs from separate scans that land before the panel takes still accumulate.
    pub fn take_cleared_rebinds(&mut self) -> (pairs: Vec<(String, String)>)
        requires
            old(self).well_formed(),
        ensures
            final(self).well_formed(),
            pair_views(pairs@) == old(self)@.cleared_rebinds,
            final(self)@ == (StoreView { cleared_rebinds: Seq::empty(), ..old(self)@ }),
    {
        let mut pairs: Vec<(String, String)> = Vec::new();
        std::mem::swap(&mut pairs, &mut self.cleared_rebinds);
        assert(self@ =~= (StoreView { cleared_rebinds: Seq::empty(), ..old(self)@ }));
        pairs
    }

    fn selected_live(&self) -> (live: Option<&LiveSession>)
        ensures
            (match live {
                Some(live) => Some(live@),
                None => None,
            }) == self@.selected_live(),
    {
        match &self.selected {
            Some(id) => match find_live(&self.live_sessions, id.as_str()) {
                Some(at) => {
                    assert(self@.live_sessions[at as int] == self.live_sessions@[at as int]@);
                    Some(&self.live_sessions[at])
                },
                None => None,
            },
            None => None,
        }
    }

    fn selected_ended(&self) -> (ended: Option<&EndedSession>)
        ensures
            (match ended {
                Some(ended) => Some(ended@),
                None => None,
            }) == self@.selected_ended(),
    {
        match &self.selected {
            Some(id) => match find_ended(&self.ended, id.as_str()) {
                Some(at) => {
                    assert(self@.ended[at as int] == self.ended@[at as int]@);
                    Some(&self.ended[at])
                },
                None => None,
            },
            None => None,
        }
    }

    pub fn selected_process_id(&self) -> (process_id: Option<u32>)
        ensures
            process_id == self@.selected_process(),
    {
        match self.selected_live() {
            Some(live) => if live.session.process_id != 0 {
                Some(live.session.process_id)
            } else {
                None
            },
            None => None,
        }
    }

    pub fn selected_is_ended(&self) -> (result: bool)
        ensures
            result == self@.is_selected_ended(),
    {
        match &self.selected {
            Some(id) => find_ended(&self.ended, id.as_str()).is_some(),
            None => false,
        }
    }

    pub fn set_visible(&mut self, visible: bool)
        requires
            old(self).well_formed(),
        ensures
            final(self).well_formed(),
            final(self)@ == (StoreView { visible, ..old(self)@ }),
    {
        self.visible = visible;
    }

    /// The most overdue of the reads that were actually due, or `None` while none was.
    ///
    /// The transcript, events and status clocks belong to loops that only run while a
    /// session is being followed, and an ended row stops all three by design. Reporting
    /// them while nothing is followed lit the chip on an idle panel and left it lit.
    pub fn stale_for(&self, now_ms: u64) -> (stale: Option<(&'static str, u64)>)
        ensures
            stale_option(stale) == self@.stale(now_ms),
    {
        if self.followed_session_id.is_none() || self.selected_is_ended() {
            let clock = StoreClock {
                last_transcript_ok_ms: None,
                last_events_ok_ms: None,
                last_status_ok_ms: None,
                last_registry_ok_ms: self.clock.last_registry_ok_ms,
            };
            return clock.stale_for(now_ms);
        }
        self.clock.stale_for(now_ms)
    }

    pub fn notice(&self) -> (notice: Option<&str>)
        ensures
            str_option(notice) == self@.notice,
    {
        borrowed(&self.notice)
    }

    pub fn agents_unavailable_reason(&self) -> (reason: Option<&str>)
        ensures
            str_option(reason) == self@.agents_unavailable_reason,
    {
        borrowed(&self.agents_unavailable_reason)
    }

    pub fn liveness_unavailable_reason(&self) -> (reason: Option<&str>)
        ensures
            str_option(reason) == self@.liveness_unavailable_reason,
    {
        borrowed(&self.liveness_unavailable_reason)
    }

    /// Takes the row of an ended session out. Says whether there was one.
    pub fn dismiss_ended(&mut self, session_id: &str) -> (changed: bool)
        requires
            old(self).well_formed(),
        ensures
            final(self).well_formed(),
            final(self)@ == old(self)@.with_dismissed(session_id@),
            changed == has_ended(old(self)@.ended, session_id@),
    {
        if find_ended(&self.ended, session_id).is_none() {
            return false;
        }
        proof {
            lemma_without_id_keeps_rows(self@.ended, session_id@);
        }
        drop_id(&mut self.ended, session_id);
        let was_selected = match &self.selected {
            Some(selected) => same_text(selected.as_str(), session_id),
            None => false,
        };
        if was_selected {
            self.selected = None;
            self.followed_session_id = None;
        }
        true
    }

    /// Tells the store about a session a caller has already been told about, so that a
    /// view opened onto one can read it before its own first scan has landed — or
    /// without one ever landing.
    ///
    /// The seed is what the caller last saw rather than a second source of truth: the
    /// next scan that does land rebuilds `live_sessions` and `transcript_paths` from itself
    /// and the seed is gone with everything else the scan did not list. Must be called
    /// before [`Self::select`], which is what turns a session id into the conversation
    /// being followed.
    pub fn seed_session(&mut self, session: RegisteredSession, transcript_path: Option<String>)
        requires
            old(self).well_formed(),
        ensures
            final(self).well_formed(),
            final(self)@ == old(self)@.with_seed(session@, text_option(transcript_path)),
    {
        if let Some(path) = transcript_path {
            let ghost before = self.transcript_paths@;
            self.transcript_paths.insert(session.session_id.clone(), path);
            assert(path_map(self.transcript_paths@) =~= path_map(before).insert(
                session.session_id@,
                path@,
            ));
        }
        if find_live(&self.live_sessions, session.session_id.as_str()).is_none() {
            let ghost before = self.live_sessions@;
            let row = LiveSession::registered(session);
            self.live_sessions.push(row);
            assert(live_views(self.live_sessions@) =~= live_views(before).push(row@));
        }
        assert(self@ =~= old(self)@.with_seed(session@, text_option(transcript_path)));
    }

    /// Selects a session and starts over on its conversation. Says whether it was not
    /// selected already.
    pub fn select(&mut self, session_id: &str, now_ms: i64) -> (changed: bool)
        requires
            old(self).well_formed(),
        ensures
            final(self).well_formed(),
            final(self)@ == old(self)@.with_selection(session_id@, now_ms),
            changed == (old(self)@.selected != Some(session_id@)),
    {
        let already = match &self.selected {
            Some(selected) => same_text(selected.as_str(), session_id),
            None => false,
        };
        if already {
            return false;
        }
        self.selected = Some(session_id.to_owned());
        self.take_error_from(ErrorSource::Send);
        self.follow_this_sessions_main_conversation(now_ms);
        true
    }

    /// Drops the error if it came from `source`, reporting whether it did.
    fn take_error_from(&mut self, source: ErrorSource) -> (dropped: bool)
        requires
            old(self).well_formed(),
        ensures
            final(self).well_formed(),
            final(self)@ == old(self)@.without_error(source),
            dropped == old(self)@.has_error(source),
    {
        let matches = match &self.error {
            Some(error) => error.0 == source,
            None => false,
        };
        if matches {
            self.error = None;
        }
        matches
    }

    fn reset_live_follow(&mut self)
        requires
            old(self).well_formed(),
        ensures
            final(self).well_formed(),
            final(self)@ == old(self)@.with_live_reset(),
    {
        self.live = LiveState::default();
        self.events = FollowedConversation::new(Transcript::new(), self.transcript_resets);
        self.status = None;
        self.status_updated_at = None;
        self.channel = None;
        self.channel_checked_at_ms = None;
        self.channel_events = Vec::new();
        self.channel_inbox = FollowedConversation::new(Transcript::new(), self.transcript_resets);
        assert(self@ =~= old(self)@.with_live_reset());
    }

    /// The generation to give a transcript that is being started, counted across both
    /// conversations so that no two of them ever carry the same one.
    fn start_transcript(&mut self) -> (generation: u64)
        requires
            old(self).well_formed(),
        ensures
            final(self).well_formed(),
            generation == old(self)@.next_generation(),
            final(self)@ == (StoreView { transcript_resets: generation, ..old(self)@ }),
    {
        self.transcript_resets = self.transcript_resets.saturating_add(1);
        self.transcript_resets
    }

    /// Starts over on the session's own conversation, dropping what was known about
    /// another one.
    ///
    /// The agent conversation being followed goes with it: its ids name files under a
    /// session directory that is no longer the one being read. What the scan found is
    /// keyed by session and so stays — the session switched away from still has the
    /// agents it had, and the one switched to can draw its own without waiting a poll.
    fn follow_this_sessions_main_conversation(&mut self, now_ms: i64)
        requires
            old(self).well_formed(),
        ensures
            final(self).well_formed(),
            final(self)@ == old(self)@.with_main_followed(now_ms),
    {
        self.transcript_target = TranscriptTarget::Main;
        self.subagent_conversation = None;
        self.reset_live_follow();
        let generation: u64 = self.start_transcript();
        self.main_conversation = FollowedConversation::new(Transcript::new(), generation);
        self.followed_session_id = copy_option(&self.selected);
        // The loops that only run while a session is followed start counting from here,
        // rather than from wherever they were left while nothing was.
        let now: u64 = clock_of(now_ms);
        self.clock = StoreClock {
            last_transcript_ok_ms: Some(now),
            last_events_ok_ms: Some(now),
            last_status_ok_ms: Some(now),
            last_registry_ok_ms: self.clock.last_registry_ok_ms,
        };
        assert(self@ =~= old(self)@.with_main_followed(now_ms));
    }

    fn viewed_conversation(&self) -> (conversation: &FollowedConversation)
        requires
            self.well_formed(),
        ensures
            conversation@ == self@.viewed(),
            conversation.well_formed(),
    {
        match (&self.transcript_target, &self.subagent_conversation) {
            (TranscriptTarget::Subagent { .. }, Some(conversation)) => conversation,
            _ => &self.main_conversation,
        }
    }

    /// The conversation on screen: the selected session's own, or the agent's while one
    /// is being read.
    pub fn transcript(&self) -> (transcript: &Transcript)
        requires
            self.well_formed(),
        ensures
            transcript.well_formed(),
            transcript@ == self@.viewed().transcript,
    {
        &self.viewed_conversation().transcript
    }

    /// The selected session's own conversation, whichever one is on screen. Read by a
    /// caller asking something only the session's own thread answers — whether an agent
    /// it spawned has returned — rather than by one drawing the conversation.
    pub fn main_transcript(&self) -> (transcript: &Transcript)
        requires
            self.well_formed(),
        ensures
            transcript.well_formed(),
            transcript@ == self@.main.transcript,
    {
        &self.main_conversation.transcript
    }

    /// The subagent conversations of the selected session, ordered as the scan found
    /// them: by run id and then agent id, so rows do not move between polls.
    pub fn subagents(&self) -> (subagents: &[SubagentSummary])
        requires
            self.well_formed(),
        ensures
            subagent_views(subagents@) == (match self@.selected_live() {
                Some(live) => self@.subagents_under(live.session.session_id),
                None => Seq::empty(),
            }),
            subagent_views(subagents@) == self@.selected_subagents(),
    {
        match self.selected_live() {
            Some(live) => self.subagents_of(live.session.session_id.as_str()),
            None => {
                assert(subagent_views(self.no_subagents@) =~= Seq::empty());
                self.no_subagents.as_slice()
            },
        }
    }

    /// The same for any listed session, which is what lets the list draw the agents of a
    /// session the reader has not selected. Empty for a session the last scan found none
    /// for, and for one it did not cover.
    pub fn subagents_of(&self, session_id: &str) -> (subagents: &[SubagentSummary])
        requires
            self.well_formed(),
        ensures
            subagent_views(subagents@) == self@.subagents_under(session_id@),
    {
        match self.subagents_by_session.get(session_id) {
            Some(subagents) => subagents.as_slice(),
            None => {
                assert(subagent_views(self.no_subagents@) =~= Seq::empty());
                self.no_subagents.as_slice()
            },
        }
    }

    pub fn transcript_target(&self) -> (target: &TranscriptTarget)
        ensures
            target@ == self@.transcript_target,
    {
        &self.transcript_target
    }

    /// Follows another of the selected session's conversations. Says whether it was not
    /// followed already.
    ///
    /// An agent's conversation is started from scratch and read from the beginning of
    /// its file — the records of two agents must never end up in the same transcript,
    /// and a caller caching anything derived from it learns that its keys mean something
    /// else now from [`Self::transcript_generation`]. The session's own conversation is
    /// left alone, because it goes on being followed either way.
    pub fn select_transcript_target(&mut self, target: TranscriptTarget) -> (changed: bool)
        requires
            old(self).well_formed(),
        ensures
            final(self).well_formed(),
            final(self)@ == old(self)@.with_target(target@),
            changed == (old(self)@.transcript_target != target@),
    {
        if self.transcript_target.same_as(&target) {
            return false;
        }
        match &target {
            TranscriptTarget::Main => {
                self.subagent_conversation = None;
            },
            // Read as one agent's own conversation: every line of such a file carries
            // `isSidechain`, so the reading that keeps an agent out of a main thread
            // would leave nothing of it at all.
            TranscriptTarget::Subagent { .. } => {
                let generation: u64 = self.start_transcript();
                self.subagent_conversation = Some(
                    FollowedConversation::new(Transcript::for_sidechain(), generation),
                );
            },
        }
        self.transcript_target = target;
        assert(self@ =~= old(self)@.with_target(target@));
        true
    }

    /// The generation of the conversation on screen: another number whenever its
    /// transcript has been started again.
    pub fn transcript_generation(&self) -> (generation: u64)
        requires
            self.well_formed(),
        ensures
            generation == self@.viewed().generation,
    {
        self.viewed_conversation().generation
    }

    /// The file the conversation on screen is being read from, or `None` while there is
    /// none — no selection, or a session that has only just started and has not written
    /// its transcript yet.
    pub fn transcript_path(&self) -> (path: Option<&str>)
        ensures
            str_option(path) == self@.viewed_path(),
    {
        match &self.transcript_target {
            TranscriptTarget::Main => {
                // The scan's answer first, and the file this store has actually been
                // reading when the scan has not named one. Without the fallback a view
                // whose scan has not landed draws "no transcript yet" over a
                // conversation it has already read, which is the same answer an agent's
                // conversation has always given from the reads themselves.
                match &self.selected {
                    Some(id) => match self.transcript_paths.get(id.as_str()) {
                        Some(path) => Some(path.as_str()),
                        None => borrowed(&self.main_conversation.path),
                    },
                    None => None,
                }
            },
            // The scan reports the session's transcript, never an agent's, so the only
            // answer for an agent is the file its own reads have resolved.
            TranscriptTarget::Subagent { .. } => match &self.subagent_conversation {
                Some(conversation) => borrowed(&conversation.path),
                None => None,
            },
        }
    }

    pub fn error(&self) -> (message: Option<&str>)
        ensures
            str_option(message) == (match self@.error {
                Some(error) => Some(error.1),
                None => None,
            }),
            str_option(message) == self@.message(),
    {
        match &self.error {
            Some(error) => Some(error.1.as_str()),
            None => None,
        }
    }

    /// What the last scan read off the end of one session's transcript.
    pub fn session_spend(&self, session_id: &str) -> (spend: Option<TranscriptSpend>)
        ensures
            spend == (if self@.session_spend.contains_key(session_id@) {
                Some(self@.session_spend[session_id@])
            } else {
                None
            }),
            spend == self@.spend_of(session_id@),
    {
        match self.session_spend.get(session_id) {
            Some(spend) => Some(*spend),
            None => None,
        }
    }

    pub fn channel_live(&self) -> (result: bool)
        ensures
            result == self@.is_channel_live(),
    {
        match &self.channel {
            Some(status) => status.live,
            None => false,
        }
    }

    pub fn can_interrupt(&self) -> (result: bool)
        ensures
            result == interruptible(self@.channel, self@.live.turn),
    {
        can_interrupt_now(self.channel.as_ref(), &self.live.turn)
    }

    /// Why the Stop control is disabled, or `None` while interrupt is available.
    pub fn interrupt_disabled_reason(&self) -> (reason: Option<&'static str>)
        ensures
            str_option(reason) == (if interruptible(self@.channel, self@.live.turn) {
                None
            } else {
                Some(refusal(self@.channel, self@.live.turn))
            }),
            str_option(reason) == self@.disabled_reason(),
    {
        if self.can_interrupt() {
            None
        } else {
            Some(interrupt_refusal_message(self.channel.as_ref(), &self.live.turn))
        }
    }

    pub fn channel(&self) -> (channel: Option<&ChannelStatus>)
        ensures
            channel_option(channel) == self@.channel,
    {
        self.channel.as_ref()
    }

    pub fn channel_checked_at_ms(&self) -> (at_ms: Option<i64>)
        ensures
            at_ms == self@.channel_checked_at_ms,
    {
        self.channel_checked_at_ms
    }

    pub fn channel_events(&self) -> (events: &[ChannelInboxEvent])
        ensures
            event_views(events@) == self@.channel_events,
    {
        self.channel_events.as_slice()
    }

    /// The working directory of the selected session, on the machine it runs on. What
    /// `@` is resolved against, because a path is only a path where the session is.
    pub fn session_directory(&self) -> (directory: Option<String>)
        ensures
            text_option(directory) == (match self@.selected_live() {
                Some(live) => Some(live.session.working_directory),
                None => match self@.selected_ended() {
                    Some(ended) => Some(ended.cwd),
                    None => None,
                },
            }),
            text_option(directory) == self@.directory(),
    {
        if let Some(live) = self.selected_live() {
            return Some(live.session.working_directory.clone());
        }
        match self.selected_ended() {
            Some(ended) => Some(ended.cwd.clone()),
            None => None,
        }
    }

    fn path_of(&self, session_id: &str) -> (path: Option<String>)
        ensures
            text_option(path) == self@.known_path(session_id@),
    {
        match self.transcript_paths.get(session_id) {
            Some(path) => Some(path.clone()),
            None => None,
        }
    }

    /// What a view opened onto the selected session needs in order to read it before a
    /// scan of its own has landed: the session as this store last saw it, and the file
    /// the scan found for it.
    ///
    /// Handed over rather than looked up again because the caller opening the view is
    /// the one holding the answer; see [`Self::seed_session`].
    pub fn session_seed(&self) -> (seed: Option<(RegisteredSession, Option<String>)>)
        ensures
            (match seed {
                Some(seed) => Some((seed.0@, text_option(seed.1))),
                None => None,
            }) == self@.seed(),
    {
        if let Some(live) = self.selected_live() {
            let path = self.path_of(live.session.session_id.as_str());
            return Some((live.session.duplicate(), path));
        }
        match self.selected_ended() {
            Some(ended) => {
                let path = match &ended.transcript_path {
                    Some(path) => Some(path.clone()),
                    None => self.path_of(ended.session_id.as_str()),
                };
                let session = RegisteredSession {
                    process_id: 0,
                    session_id: ended.session_id.clone(),
                    working_directory: ended.cwd.clone(),
                    process_start: String::new(),
                    version: String::new(),
                    kind: "interactive".to_owned(),
                    name: copy_option(&ended.name),
                    status: None,
                    updated_at: Some(ended.last_seen_ms),
                    tmux_target: copy_option(&ended.tmux),
                    bridge_session_id: copy_option(&ended.bridge_session_id),
                };
                Some((session, path))
            },
            None => None,
        }
    }

    pub fn selected_session(&self) -> (session: Option<&RegisteredSession>)
        ensures
            (match session {
                Some(session) => Some(session@),
                None => None,
            }) == (match self@.selected_live() {
                Some(live) => Some(live.session),
                None => None,
            }),
            (match session {
                Some(session) => Some(session@),
                None => None,
            }) == self@.selected_registration(),
    {
        match self.selected_live() {
            Some(live) => Some(&live.session),
            None => None,
        }
    }

    /// The pane in which the selected live session runs, as its registration names it.
    pub fn attach_target(&self) -> (target: Option<&str>)
        ensures
            str_option(target) == (match self@.selected_live() {
                Some(live) => live.session.tmux_target,
                None => None,
            }),
            str_option(target) == self@.pane(),
    {
        match self.selected_live() {
            Some(live) => borrowed(&live.session.tmux_target),
            None => None,
        }
    }

    pub fn live(&self) -> (live: &LiveState)
        ensures
            live@ == self@.live,
    {
        &self.live
    }

    pub fn status(&self) -> (status: Option<&StatusSnapshot>)
        ensures
            (match status {
                Some(status) => Some(status@),
                None => None,
            }) == self@.status,
    {
        self.status.as_ref()
    }

    pub fn status_updated_at(&self) -> (at_ms: Option<i64>)
        ensures
            at_ms == self@.status_updated_at,
    {
        self.status_updated_at
    }

    /// The permission mode that the newest event carried, or else the one that the
    /// session's own transcript last recorded.
    pub fn permission_mode(&self) -> (mode: Option<String>)
        requires
            self.well_formed(),
        ensures
            text_option(mode) == (match self@.live.permission_mode {
                Some(mode) => Some(mode),
                None => {
                    let transcript = self@.main.transcript;
                    text_at(
                        transcript.records,
                        transcript.permission_mode_at,
                        "permission-mode"@,
                        "permissionMode"@,
                    )
                },
            }),
            text_option(mode) == self@.mode(),
    {
        if let Some(mode) = &self.live.permission_mode {
            return Some(mode.clone());
        }
        match self.main_transcript().permission_mode() {
            Some(mode) => Some(mode.to_owned()),
            None => None,
        }
    }

    pub fn hooks_installed(&self) -> (result: bool)
        ensures
            result == self@.hooks_are_installed,
    {
        self.hooks_are_installed
    }
}

/// Whether the line a channel wrote at `at_ms` is the prompt the hook recorded at
/// `asked_at_ms`: they lie no further apart than the window, or one of them has no time.
pub open spec fn is_for_the_prompt(at_ms: i64, asked_at_ms: i64) -> bool {
    ||| at_ms <= 0
    ||| asked_at_ms <= 0
    ||| -CHANNEL_PERMISSION_MATCH_WINDOW_MS <= at_ms - asked_at_ms
        <= CHANNEL_PERMISSION_MATCH_WINDOW_MS
}

/// A request id is answered by one of the events behind position `from`.
pub open spec fn answered_after(
    events: Seq<ChannelInboxEventView>,
    from: int,
    id: Seq<char>,
) -> bool {
    exists|k: int|
        from < k < events.len() && (#[trigger] events[k]) is PermissionAnswered
            && events[k]->PermissionAnswered_request_id == id
}

/// The event at `k` asks for the permission that the hook shows, and has no answer yet.
pub open spec fn asks_at(
    events: Seq<ChannelInboxEventView>,
    k: int,
    tool_name: Seq<char>,
    asked_at_ms: i64,
) -> bool {
    match events[k] {
        ChannelInboxEventView::PermissionRequest { at_ms, request_id, tool_name: asked, .. } => {
            &&& request_id.len() > 0
            &&& asked == tool_name
            &&& is_for_the_prompt(at_ms, asked_at_ms)
            &&& !answered_after(events, k, request_id)
        },
        _ => false,
    }
}

/// The newest event below `end` that asks for the permission that the hook shows.
pub open spec fn newest_ask(
    events: Seq<ChannelInboxEventView>,
    end: int,
    tool_name: Seq<char>,
    asked_at_ms: i64,
) -> Option<Seq<char>>
    decreases end,
{
    if end <= 0 {
        None
    } else if asks_at(events, end - 1, tool_name, asked_at_ms) {
        Some(events[end - 1]->PermissionRequest_request_id)
    } else {
        newest_ask(events, end - 1, tool_name, asked_at_ms)
    }
}

/// The newest permission request at all with this id.
pub open spec fn newest_request(events: Seq<ChannelInboxEventView>, id: Seq<char>) -> Option<
    ChannelInboxEventView,
>
    decreases events.len(),
{
    if events.len() == 0 {
        None
    } else if events.last() is PermissionRequest && events.last()->PermissionRequest_request_id
        == id {
        Some(events.last())
    } else {
        newest_request(events.drop_last(), id)
    }
}

/// What is to be written to the channel of a session.
#[derive(Debug, PartialEq, Eq)]
pub enum ChannelRequest {
    Interrupt { claude_pid: u32, reason: String },
    Message { claude_pid: u32, content: String },
    Permission { claude_pid: u32, request_id: String, allow: bool },
}

/// What a [`ChannelRequest`] says.
pub enum ChannelRequestView {
    Interrupt { claude_pid: u32, reason: Seq<char> },
    Message { claude_pid: u32, content: Seq<char> },
    Permission { claude_pid: u32, request_id: Seq<char>, allow: bool },
}

impl View for ChannelRequest {
    type V = ChannelRequestView;

    open spec fn view(&self) -> ChannelRequestView {
        match *self {
            ChannelRequest::Interrupt { claude_pid, reason } => ChannelRequestView::Interrupt {
                claude_pid,
                reason: reason@,
            },
            ChannelRequest::Message { claude_pid, content } => ChannelRequestView::Message {
                claude_pid,
                content: content@,
            },
            ChannelRequest::Permission { claude_pid, request_id, allow } =>
                ChannelRequestView::Permission { claude_pid, request_id: request_id@, allow },
        }
    }
}

impl StoreView {
    /// The id of the open permission request: the newest one that was written for the
    /// prompt the hook shows, while it shows one.
    pub open spec fn open_request(self) -> Option<Seq<char>> {
        match self.live.pending_permission {
            Some(pending) => newest_ask(
                self.channel_events,
                self.channel_events.len() as int,
                pending.tool_name,
                pending.since_ms,
            ),
            None => None,
        }
    }

    /// What an interrupt asks of the channel, or why it is refused.
    pub open spec fn interrupt_outcome(self) -> Result<ChannelRequestView, Seq<char>> {
        match self.selected_process() {
            Some(claude_pid) if interruptible(self.channel, self.live.turn) => Ok(
                ChannelRequestView::Interrupt { claude_pid, reason: "Stop requested from Zed"@ },
            ),
            _ => Err(refusal(self.channel, self.live.turn)),
        }
    }

    /// What a message asks of the channel, or why it is refused.
    pub open spec fn message_outcome(self, content: Seq<char>) -> Result<
        ChannelRequestView,
        Seq<char>,
    > {
        if self.is_selected_ended() || self.live.session_ended {
            Err("session ended"@)
        } else {
            match self.selected_process() {
                Some(claude_pid) if self.is_channel_live() => Ok(
                    ChannelRequestView::Message { claude_pid, content },
                ),
                _ => Err("Zed channel is not loaded in this session"@),
            }
        }
    }

    /// What an answer to the open permission asks of the channel, or why it is refused.
    pub open spec fn answer_outcome(self, allow: bool) -> Result<ChannelRequestView, Seq<char>> {
        match (self.open_request(), self.selected_process()) {
            (Some(request_id), Some(claude_pid)) => Ok(
                ChannelRequestView::Permission { claude_pid, request_id, allow },
            ),
            _ => Err("No permission request is waiting to be answered."@),
        }
    }

    /// The store after a request to the channel: the error of an earlier one is gone, and
    /// a refusal is reported.
    pub open spec fn with_outcome(self, outcome: Result<ChannelRequestView, Seq<char>>) -> StoreView {
        match outcome {
            Ok(_) => self.without_error(ErrorSource::Send),
            Err(message) => self.with_error(ErrorSource::Send, message),
        }
    }
}

pub open spec fn outcome_view(outcome: Result<ChannelRequest, String>) -> Result<
    ChannelRequestView,
    Seq<char>,
> {
    match outcome {
        Ok(request) => Ok(request@),
        Err(message) => Err(message@),
    }
}

fn within_window(at_ms: i64, asked_at_ms: i64) -> (result: bool)
    ensures
        result == is_for_the_prompt(at_ms, asked_at_ms),
{
    if at_ms <= 0 || asked_at_ms <= 0 {
        return true;
    }
    let apart: i64 = at_ms - asked_at_ms;
    apart >= -(CHANNEL_PERMISSION_MATCH_WINDOW_MS as i64) && apart
        <= CHANNEL_PERMISSION_MATCH_WINDOW_MS as i64
}

impl ClaudeSessionStore {
    fn is_answered(&self, from: usize, request_id: &str) -> (result: bool)
        requires
            from < self.channel_events@.len(),
        ensures
            result == answered_after(self@.channel_events, from as int, request_id@),
    {
        let ghost events = self@.channel_events;
        let count: usize = self.channel_events.len();
        assert(from < count);
        let mut i: usize = from + 1;
        while i < self.channel_events.len()
            invariant
                from < i <= self.channel_events@.len(),
                events == self@.channel_events,
                events.len() == self.channel_events@.len(),
                forall|k: int|
                    from < k < i ==> !((#[trigger] events[k]) is PermissionAnswered
                        && events[k]->PermissionAnswered_request_id == request_id@),
            decreases self.channel_events@.len() - i,
        {
            assert(events[i as int] == self.channel_events@[i as int]@);
            if let ChannelInboxEvent::PermissionAnswered { request_id: answered, .. } =
                &self.channel_events[i] {
                if same_text(answered.as_str(), request_id) {
                    return true;
                }
            }
            i = i + 1;
        }
        false
    }

    /// The newest unanswered channel `permission_request` written for the prompt the
    /// hook shows, and only while it shows one. Without an inbox line there is nothing
    /// to answer. The line's `tool_name` must equal the hook's `pending_permission.tool_name`
    /// (both are the CLI's own tool name); a mismatch is a different prompt.
    ///
    /// The two records still do not share an id: the hook carries a `tool_use_id` the
    /// channel never sees, and the line carries a `request_id` the hook never sees. Times
    /// tell two prompts of the same tool apart — both clocks are the session host's, and an
    /// open line can outlive its prompt by half an hour, because the server writes
    /// `permission_answered` only for verdicts that came from this side and holds a request
    /// it never heard the end of for its whole TTL. A time of `0` is a record that never
    /// carried one and cannot be placed against the other, so it is left to the ordering
    /// and the tool name.
    ///
    /// Residual: two prompts of the same tool name inside the 5 s window are still
    /// told apart only by order, because the channel's `permission_request` carries no
    /// `tool_use_id`.
    pub fn open_permission_request_id(&self) -> (id: Option<String>)
        ensures
            text_option(id) == self@.open_request(),
    {
        let pending = match &self.live.pending_permission {
            Some(pending) => pending,
            None => {
                return None;
            },
        };
        let ghost events = self@.channel_events;
        let mut left: usize = self.channel_events.len();
        while left > 0
            invariant
                left <= self.channel_events@.len(),
                events == self@.channel_events,
                events.len() == self.channel_events@.len(),
                self@.live.pending_permission == Some(pending@),
                self@.open_request() == newest_ask(
                    events,
                    left as int,
                    pending.tool_name@,
                    pending.since_ms,
                ),
            decreases left,
        {
            let at: usize = left - 1;
            assert(events[at as int] == self.channel_events@[at as int]@);
            if let ChannelInboxEvent::PermissionRequest { at_ms, request_id, tool_name, .. } =
                &self.channel_events[at] {
                if !request_id.as_str().is_empty() && same_text(
                    tool_name.as_str(),
                    pending.tool_name.as_str(),
                ) && within_window(*at_ms, pending.since_ms) && !self.is_answered(
                    at,
                    request_id.as_str(),
                ) {
                    return Some(request_id.clone());
                }
            }
            left = at;
        }
        None
    }

    pub fn open_permission_inbox_event(&self) -> (event: Option<&ChannelInboxEvent>)
        ensures
            (match event {
                Some(event) => Some(event@),
                None => None,
            }) == (match self@.open_request() {
                Some(id) => newest_request(self@.channel_events, id),
                None => None,
            }),
    {
        let id = match self.open_permission_request_id() {
            Some(id) => id,
            None => {
                return None;
            },
        };
        let ghost events = self@.channel_events;
        let mut left: usize = self.channel_events.len();
        assert(events.take(left as int) =~= events);
        while left > 0
            invariant
                left <= self.channel_events@.len(),
                events == self@.channel_events,
                events.len() == self.channel_events@.len(),
                self@.open_request() == Some(id@),
                newest_request(events, id@) == newest_request(events.take(left as int), id@),
            decreases left,
        {
            let at: usize = left - 1;
            proof {
                assert(events[at as int] == self.channel_events@[at as int]@);
                assert(events.take(left as int).last() == events[at as int]);
                assert(events.take(left as int).drop_last() =~= events.take(at as int));
            }
            if let ChannelInboxEvent::PermissionRequest { request_id, .. } =
                &self.channel_events[at] {
                if same_text(request_id.as_str(), id.as_str()) {
                    return Some(&self.channel_events[at]);
                }
            }
            left = at;
        }
        None
    }

    fn refuse(&mut self, message: &str) -> (refused: String)
        requires
            old(self).well_formed(),
        ensures
            final(self).well_formed(),
            final(self)@ == old(self)@.with_error(ErrorSource::Send, message@),
            refused@ == message@,
    {
        self.error = Some((ErrorSource::Send, message.to_owned()));
        message.to_owned()
    }

    /// Sends SIGINT through the channel outbox: hands out what is to be written there.
    /// Refuses when [`Self::can_interrupt`] is false, so a click on a session that is idle,
    /// whose channel is not loaded, or whose server is too old to interrupt, is reported
    /// rather than written.
    pub fn interrupt(&mut self) -> (outcome: Result<ChannelRequest, String>)
        requires
            old(self).well_formed(),
        ensures
            final(self).well_formed(),
            outcome_view(outcome) == old(self)@.interrupt_outcome(),
            final(self)@ == old(self)@.with_outcome(old(self)@.interrupt_outcome()),
    {
        self.take_error_from(ErrorSource::Send);
        let process_id = self.selected_process_id();
        if self.can_interrupt() {
            if let Some(claude_pid) = process_id {
                return Ok(
                    ChannelRequest::Interrupt {
                        claude_pid,
                        reason: "Stop requested from Zed".to_owned(),
                    },
                );
            }
        }
        let message = interrupt_refusal_message(self.channel.as_ref(), &self.live.turn);
        Err(self.refuse(message))
    }

    /// Writes a message to the selected session's channel outbox: hands out what is to be
    /// written there.
    pub fn send_message(&mut self, content: String) -> (outcome: Result<ChannelRequest, String>)
        requires
            old(self).well_formed(),
        ensures
            final(self).well_formed(),
            outcome_view(outcome) == old(self)@.message_outcome(content@),
            final(self)@ == old(self)@.with_outcome(old(self)@.message_outcome(content@)),
    {
        self.take_error_from(ErrorSource::Send);
        if self.selected_is_ended() || self.live.session_ended {
            return Err(self.refuse("session ended"));
        }
        let process_id = self.selected_process_id();
        if self.channel_live() {
            if let Some(claude_pid) = process_id {
                return Ok(ChannelRequest::Message { claude_pid, content });
            }
        }
        Err(self.refuse("Zed channel is not loaded in this session"))
    }

    /// Answers the open permission request through the channel outbox: hands out what is
    /// to be written there.
    pub fn answer_permission(&mut self, allow: bool) -> (outcome: Result<ChannelRequest, String>)
        requires
            old(self).well_formed(),
        ensures
            final(self).well_formed(),
            outcome_view(outcome) == old(self)@.answer_outcome(allow),
            final(self)@ == old(self)@.with_outcome(old(self)@.answer_outcome(allow)),
    {
        self.take_error_from(ErrorSource::Send);
        let request_id = self.open_permission_request_id();
        let process_id = self.selected_process_id();
        match (request_id, process_id) {
            (Some(request_id), Some(claude_pid)) => Ok(
                ChannelRequest::Permission { claude_pid, request_id, allow },
            ),
            _ => Err(self.refuse("No permission request is waiting to be answered.")),
        }
    }

    /// Reports that what was handed out could not be written.
    pub fn channel_request_failed(&mut self, request: &ChannelRequest, error: &str)
        requires
            old(self).well_formed(),
        ensures
            final(self).well_formed(),
            final(self)@ == old(self)@.with_error(
                ErrorSource::Send,
                (match request@ {
                    ChannelRequestView::Interrupt { .. } => "Interrupting the session: "@,
                    ChannelRequestView::Message { .. } => "Sending to the session: "@,
                    ChannelRequestView::Permission { .. } => "Answering the permission: "@,
                }) + error@,
            ),
            final(self)@ == old(self)@.with_error(ErrorSource::Send, failure_text(request@, error@)),
    {
        let what = match request {
            ChannelRequest::Interrupt { .. } => "Interrupting the session: ",
            ChannelRequest::Message { .. } => "Sending to the session: ",
            ChannelRequest::Permission { .. } => "Answering the permission: ",
        };
        self.error = Some((ErrorSource::Send, joined(what, error)));
    }
}

/// The hook event that a line is, if it is one.
pub open spec fn event_of_line(line: Seq<char>) -> Option<crate::live_state::HookEventView> {
    match line_json(line) {
        Some(wrapper) => event_of_wrapper(wrapper),
        None => None,
    }
}

/// The state after the events among some lines.
pub open spec fn with_event_lines(state: LiveStateView, lines: Seq<Seq<char>>) -> LiveStateView
    decreases lines.len(),
{
    if lines.len() == 0 {
        state
    } else {
        let earlier = with_event_lines(state, lines.drop_last());
        match event_of_line(lines.last()) {
            Some(event) => earlier.after(event),
            None => earlier,
        }
    }
}

pub open spec fn has_event(lines: Seq<Seq<char>>) -> bool {
    exists|k: int| 0 <= k < lines.len() && event_of_line(#[trigger] lines[k]) is Some
}

/// The inbox event that a line is; every line that is not blank is one.
pub open spec fn inbox_event_of_line(line: Seq<char>) -> Option<ChannelInboxEventView> {
    if trimmed(line).len() == 0 {
        None
    } else {
        match json_of_text(trimmed(line)) {
            Some(value) => Some(inbox_event_of(value, trimmed(line))),
            None => Some(ChannelInboxEventView::Unknown { raw: trimmed(line) }),
        }
    }
}

/// The events with those of some lines behind them.
pub open spec fn with_inbox_lines(
    events: Seq<ChannelInboxEventView>,
    lines: Seq<Seq<char>>,
) -> Seq<ChannelInboxEventView>
    decreases lines.len(),
{
    if lines.len() == 0 {
        events
    } else {
        let earlier = with_inbox_lines(events, lines.drop_last());
        match inbox_event_of_line(lines.last()) {
            Some(event) => earlier.push(event),
            None => earlier,
        }
    }
}

/// The newest events, as many as are kept.
pub open spec fn newest_events(events: Seq<ChannelInboxEventView>) -> Seq<ChannelInboxEventView> {
    if events.len() > CHANNEL_INBOX_EVENTS_CAP {
        events.skip(events.len() - CHANNEL_INBOX_EVENTS_CAP)
    } else {
        events
    }
}

/// The record that a line is, if it is one.
pub open spec fn record_of_line(line: Seq<char>) -> Option<TranscriptRecordView> {
    if trimmed(line).len() == 0 {
        None
    } else {
        match json_of_text(trimmed(line)) {
            Some(value) => record_of(value),
            None => None,
        }
    }
}

/// The records among some lines. A line that is none is skipped: a transcript read while
/// it is being written can end in a line that never becomes valid.
pub open spec fn records_of_lines(lines: Seq<Seq<char>>) -> Seq<TranscriptRecordView>
    decreases lines.len(),
{
    if lines.len() == 0 {
        Seq::empty()
    } else {
        let earlier = records_of_lines(lines.drop_last());
        match record_of_line(lines.last()) {
            Some(record) => earlier.push(record),
            None => earlier,
        }
    }
}

pub open spec fn progress_result(progress: Result<TailProgress, String>) -> Result<
    TailProgressView,
    Seq<char>,
> {
    match progress {
        Ok(progress) => Ok(progress@),
        Err(error) => Err(error@),
    }
}

/// A store, and whether something that a view may have drawn has changed.
pub struct Applied {
    pub store: StoreView,
    pub changed: bool,
}

impl StoreView {
    /// The store after a read of the hook events. The read must be of the session that is
    /// followed, and must go on where the reading has got to.
    pub open spec fn with_events_read(
        self,
        session_id: Seq<char>,
        start_offset: u64,
        progress: Result<TailProgressView, Seq<char>>,
        now_ms: i64,
    ) -> Applied {
        if self.followed != Some(session_id) {
            Applied { store: self, changed: false }
        } else {
            match progress {
                Err(error) => Applied {
                    store: self.with_error(ErrorSource::Events, "Reading events: "@ + error),
                    changed: true,
                },
                Ok(progress) => {
                    let answered = StoreView {
                        clock: StoreClock {
                            last_events_ok_ms: Some(clock_ms(now_ms)),
                            ..self.clock
                        },
                        ..self.without_error(ErrorSource::Events)
                    };
                    if progress.start_offset != start_offset || progress.start_offset
                        != self.events.offset {
                        Applied { store: answered, changed: false }
                    } else {
                        let live = if progress.restarted {
                            LiveStateView::quiet()
                        } else {
                            self.live
                        };
                        let events = if progress.restarted {
                            ConversationView::unread(false, self.events.generation)
                        } else {
                            self.events
                        };
                        Applied {
                            store: StoreView {
                                live: with_event_lines(live, progress.lines),
                                events: events.read_to(progress),
                                ..answered
                            },
                            changed: progress.restarted || has_event(progress.lines),
                        }
                    }
                },
            }
        }
    }

    /// The store after a read of the channel's inbox. The read must be of the process that
    /// is selected and of the inbox that is being read, and must go on where the reading
    /// has got to.
    pub open spec fn with_inbox_read(
        self,
        claude_pid: u32,
        generation: u64,
        start_offset: u64,
        progress: Result<TailProgressView, Seq<char>>,
    ) -> Applied {
        if self.selected_process() != Some(claude_pid) || self.channel_inbox.generation
            != generation {
            Applied { store: self, changed: false }
        } else {
            match progress {
                Err(error) => Applied {
                    store: self.with_error(ErrorSource::Channel, "Reading channel: "@ + error),
                    changed: true,
                },
                Ok(progress) => {
                    let answered = self.without_error(ErrorSource::Channel);
                    if progress.start_offset != start_offset || progress.start_offset
                        != self.channel_inbox.offset {
                        Applied { store: answered, changed: false }
                    } else {
                        let events = if progress.restarted {
                            Seq::empty()
                        } else {
                            self.channel_events
                        };
                        let inbox = if progress.restarted {
                            ConversationView::unread(false, self.channel_inbox.generation)
                        } else {
                            self.channel_inbox
                        };
                        Applied {
                            store: StoreView {
                                channel_events: newest_events(
                                    with_inbox_lines(events, progress.lines),
                                ),
                                channel_inbox: inbox.read_to(progress),
                                ..answered
                            },
                            changed: progress.restarted || exists|k: int|
                                0 <= k < progress.lines.len() && inbox_event_of_line(
                                    #[trigger] progress.lines[k],
                                ) is Some,
                        }
                    }
                },
            }
        }
    }

    /// Whether a read of a conversation is one that the store waits for: of the session
    /// that is followed, and of the agent on screen where it is of an agent.
    pub open spec fn awaits(self, session_id: Seq<char>, target: TranscriptTargetView) -> bool {
        &&& self.followed == Some(session_id)
        &&& target is Subagent ==> self.transcript_target == target
    }

    /// The store after a read of a conversation.
    pub open spec fn with_tail_read(
        self,
        session_id: Seq<char>,
        target: TranscriptTargetView,
        progress: Result<TailProgressView, Seq<char>>,
        now_ms: i64,
    ) -> Applied {
        if !self.awaits(session_id, target) {
            Applied { store: self, changed: false }
        } else {
            match progress {
                Err(error) => Applied {
                    store: self.with_error(
                        ErrorSource::Transcript,
                        "Reading transcript: "@ + error,
                    ),
                    changed: true,
                },
                Ok(progress) => match self.conversation(target) {
                    Some(conversation) if conversation.offset == progress.start_offset =>
                        self.with_tail_absorbed(target, conversation, progress, now_ms),
                    _ => Applied { store: self, changed: false },
                },
            }
        }
    }

    /// The store after the records of a read have been taken into a conversation.
    pub open spec fn with_tail_absorbed(
        self,
        target: TranscriptTargetView,
        conversation: ConversationView,
        progress: TailProgressView,
        now_ms: i64,
    ) -> Applied {
        let records = records_of_lines(progress.lines);
        let answered = StoreView {
            clock: StoreClock { last_transcript_ok_ms: Some(clock_ms(now_ms)), ..self.clock },
            transcript_resets: if progress.restarted {
                self.next_generation()
            } else {
                self.transcript_resets
            },
            live: if target is Main {
                with_transcript(self.live, records)
            } else {
                self.live
            },
            ..self.without_error(ErrorSource::Transcript)
        };
        let start = if progress.restarted {
            ConversationView::unread(target is Subagent, self.next_generation())
        } else {
            conversation
        };
        let absorbed = ConversationView {
            transcript: start.transcript.with_records(records),
            ..start.read_to(progress)
        };
        Applied {
            store: answered.with_conversation(target, absorbed),
            changed: records.len() > 0 || progress.restarted || conversation.path != progress.path
                || self.has_error(ErrorSource::Transcript),
        }
    }

    /// The store after a read of the status line.
    pub open spec fn with_status_read(
        self,
        session_id: Option<Seq<char>>,
        status: Option<Result<Option<Seq<char>>, Seq<char>>>,
        now_ms: i64,
    ) -> Applied {
        let answered = StoreView {
            clock: StoreClock { last_status_ok_ms: Some(clock_ms(now_ms)), ..self.clock },
            ..self.without_error(ErrorSource::Status)
        };
        if self.followed != session_id {
            Applied { store: self, changed: false }
        } else {
            match status {
                Some(Ok(Some(text))) => match status_of_text(text) {
                    Some(snapshot) => Applied {
                        store: StoreView {
                            status: Some(snapshot),
                            status_updated_at: Some(now_ms),
                            ..answered
                        },
                        changed: true,
                    },
                    None => Applied { store: self, changed: false },
                },
                Some(Ok(None)) => Applied { store: answered, changed: false },
                Some(Err(error)) => Applied {
                    store: self.with_error(ErrorSource::Status, "Reading status: "@ + error),
                    changed: true,
                },
                None => Applied { store: self, changed: false },
            }
        }
    }

    /// The store after a read of the channel's status.
    pub open spec fn with_channel_read(
        self,
        claude_pid: u32,
        status: Result<ChannelStatusView, Seq<char>>,
        now_ms: i64,
    ) -> Applied {
        if self.selected_process() != Some(claude_pid) {
            Applied { store: self, changed: false }
        } else {
            match status {
                Ok(status) => Applied {
                    store: StoreView {
                        channel: Some(status),
                        channel_checked_at_ms: Some(now_ms),
                        ..self.without_error(ErrorSource::Channel)
                    },
                    changed: self.channel != Some(status),
                },
                Err(error) => Applied {
                    store: self.with_error(ErrorSource::Channel, "Reading channel: "@ + error),
                    changed: true,
                },
            }
        }
    }

    /// The store while there is no process whose channel could be read.
    pub open spec fn without_channel(self) -> Applied {
        Applied {
            store: StoreView { channel: None, channel_checked_at_ms: None, ..self },
            changed: self.channel is Some || self.channel_checked_at_ms is Some,
        }
    }

    /// The store after the hooks have been looked for.
    pub open spec fn with_hooks_read(self, installed: Result<bool, Seq<char>>) -> Applied {
        match installed {
            Ok(installed) => Applied {
                store: StoreView {
                    hooks_are_installed: installed,
                    ..self.without_error(ErrorSource::Hooks)
                },
                changed: self.has_error(ErrorSource::Hooks) || self.hooks_are_installed
                    != installed,
            },
            Err(error) => Applied {
                store: self.with_error(ErrorSource::Hooks, "Reading hook install state: "@ + error),
                changed: true,
            },
        }
    }

    /// The store after a scan for subagents.
    pub open spec fn with_subagent_scan(
        self,
        scan: Result<Map<Seq<char>, Seq<SubagentSummaryView>>, Seq<char>>,
    ) -> Applied {
        match scan {
            Ok(subagents) => Applied {
                store: StoreView {
                    subagents_by_session: subagents,
                    ..self.without_error(ErrorSource::Subagents)
                },
                changed: self.subagents_by_session != subagents,
            },
            Err(error) => Applied {
                store: self.with_error(ErrorSource::Subagents, "Listing subagents: "@ + error),
                changed: true,
            },
        }
    }

    pub open spec fn merged(self) -> StoreView {
        let rows = Rows { live: self.live_sessions, ended: self.ended }.with_listings(
            self.agent_listings,
        );
        StoreView { live_sessions: rows.live, ended: rows.ended, ..self }
    }

    /// The store after a listing of agents. A listing that was not answered is an error; one
    /// that was refused says why there are none.
    pub open spec fn with_agent_listings(
        self,
        listings: Result<Seq<AgentListingView>, Seq<char>>,
    ) -> StoreView {
        match listings {
            Ok(listings) => StoreView {
                agents_unavailable_reason: None,
                agent_listings: listings,
                ..self.without_error(ErrorSource::Agents)
            }.merged(),
            Err(error) => if exists|at: int| stands_at(error, "has not answered"@, at) {
                self.with_error(ErrorSource::Agents, "Listing agents: "@ + error)
            } else {
                StoreView { agents_unavailable_reason: Some(error), ..self }
            },
        }
    }
}

/// The snapshot that a status line's text is.
pub open spec fn status_of_text(text: Seq<char>) -> Option<StatusSnapshotView> {
    match json_of_text(text) {
        Some(value) => snapshot_of(value),
        None => None,
    }
}

fn parse_records(lines: &Vec<String>) -> (records: Vec<TranscriptRecord>)
    ensures
        record_views(records@) == records_of_lines(texts(lines@)),
{
    let ghost all = texts(lines@);
    let mut records: Vec<TranscriptRecord> = Vec::new();
    let mut i: usize = 0;
    assert(record_views(records@) =~= Seq::empty());
    while i < lines.len()
        invariant
            i <= lines@.len(),
            all == texts(lines@),
            record_views(records@) == records_of_lines(all.take(i as int)),
        decreases lines@.len() - i,
    {
        proof {
            assert(all[i as int] == lines@[i as int]@);
            assert(all.take(i + 1).drop_last() =~= all.take(i as int));
            assert(all.take(i + 1).last() == all[i as int]);
        }
        if let Ok(Some(record)) = parse_record(lines[i].as_str()) {
            let ghost before = records@;
            records.push(record);
            assert(record_views(records@) =~= record_views(before).push(record@));
        }
        i = i + 1;
    }
    assert(all.take(i as int) =~= all);
    records
}

fn apply_event_lines(live: &mut LiveState, lines: &Vec<String>) -> (any: bool)
    ensures
        final(live)@ == with_event_lines(old(live)@, texts(lines@)),
        any == has_event(texts(lines@)),
{
    let ghost start = live@;
    let ghost all = texts(lines@);
    let mut any = false;
    let mut i: usize = 0;
    assert(all.take(0) =~= Seq::empty());
    while i < lines.len()
        invariant
            i <= lines@.len(),
            all == texts(lines@),
            live@ == with_event_lines(start, all.take(i as int)),
            any == (exists|k: int| 0 <= k < i && event_of_line(#[trigger] all[k]) is Some),
        decreases lines@.len() - i,
    {
        proof {
            assert(all[i as int] == lines@[i as int]@);
            assert(all.take(i + 1).drop_last() =~= all.take(i as int));
            assert(all.take(i + 1).last() == all[i as int]);
        }
        if let Some(event) = parse_hook_event(lines[i].as_str()) {
            live.apply(&event);
            any = true;
        }
        i = i + 1;
    }
    assert(all.take(i as int) =~= all);
    any
}

fn append_inbox_lines(events: &mut Vec<ChannelInboxEvent>, lines: &Vec<String>) -> (any: bool)
    ensures
        event_views(final(events)@) == newest_events(
            with_inbox_lines(event_views(old(events)@), texts(lines@)),
        ),
        any == exists|k: int|
            0 <= k < lines@.len() && inbox_event_of_line(#[trigger] texts(lines@)[k]) is Some,
{
    let ghost start = event_views(events@);
    let ghost all = texts(lines@);
    let mut any = false;
    let mut i: usize = 0;
    assert(all.take(0) =~= Seq::empty());
    while i < lines.len()
        invariant
            i <= lines@.len(),
            all == texts(lines@),
            event_views(events@) == with_inbox_lines(start, all.take(i as int)),
            any == (exists|k: int| 0 <= k < i && inbox_event_of_line(#[trigger] all[k]) is Some),
        decreases lines@.len() - i,
    {
        proof {
            assert(all[i as int] == lines@[i as int]@);
            assert(all.take(i + 1).drop_last() =~= all.take(i as int));
            assert(all.take(i + 1).last() == all[i as int]);
        }
        if let Some(event) = parse_channel_inbox_line(lines[i].as_str()) {
            let ghost before = events@;
            events.push(event);
            assert(event_views(events@) =~= event_views(before).push(event@));
            any = true;
        }
        i = i + 1;
    }
    assert(all.take(i as int) =~= all);
    if events.len() > CHANNEL_INBOX_EVENTS_CAP {
        let excess: usize = events.len() - CHANNEL_INBOX_EVENTS_CAP;
        let ghost before = event_views(events@);
        let newest = events.split_off(excess);
        assert(event_views(newest@) =~= before.skip(excess as int));
        *events = newest;
    }
    any
}

fn same_subagent_maps(
    left: &TextMap<Vec<SubagentSummary>>,
    right: &TextMap<Vec<SubagentSummary>>,
) -> (result: bool)
    ensures
        result == (subagent_map(left@) == subagent_map(right@)),
{
    let ghost left_map = subagent_map(left@);
    let ghost right_map = subagent_map(right@);
    let left_keys = left.keys();
    let mut i: usize = 0;
    while i < left_keys.len()
        invariant
            i <= left_keys@.len(),
            left_map == subagent_map(left@),
            right_map == subagent_map(right@),
            forall|k: int| 0 <= k < left_keys@.len() ==> left@.contains_key((#[trigger] left_keys@[k])@),
            forall|k: int|
                0 <= k < i ==> right_map.contains_key((#[trigger] left_keys@[k])@)
                    && left_map[left_keys@[k]@] == right_map[left_keys@[k]@],
        decreases left_keys@.len() - i,
    {
        let key = left_keys[i].as_str();
        assert(left@.contains_key(left_keys@[i as int]@));
        let same = match (left.get(key), right.get(key)) {
            (Some(left), Some(right)) => same_subagents(left, right),
            _ => false,
        };
        if !same {
            proof {
                assert(left_map.contains_key(key@));
                if right_map.contains_key(key@) {
                    assert(left_map[key@] == subagent_views(left@[key@]@));
                    assert(right_map[key@] == subagent_views(right@[key@]@));
                }
            }
            return false;
        }
        i = i + 1;
    }
    let right_keys = right.keys();
    let mut k: usize = 0;
    while k < right_keys.len()
        invariant
            k <= right_keys@.len(),
            left_map == subagent_map(left@),
            right_map == subagent_map(right@),
            forall|l: int| 0 <= l < right_keys@.len() ==> right@.contains_key((#[trigger] right_keys@[l])@),
            forall|l: int| 0 <= l < k ==> left_map.contains_key((#[trigger] right_keys@[l])@),
        decreases right_keys@.len() - k,
    {
        if left.get(right_keys[k].as_str()).is_none() {
            assert(right_map.contains_key(right_keys@[k as int]@));
            return false;
        }
        k = k + 1;
    }
    proof {
        assert forall|key: Seq<char>| left_map.contains_key(key) == right_map.contains_key(key) by {
            if left@.contains_key(key) {
                let at = choose|at: int| 0 <= at < left_keys@.len() && (#[trigger] left_keys@[at])@ == key;
                assert(right_map.contains_key(left_keys@[at]@));
            }
            if right@.contains_key(key) {
                let at = choose|at: int| 0 <= at < right_keys@.len() && (#[trigger] right_keys@[at])@ == key;
                assert(left_map.contains_key(right_keys@[at]@));
            }
        }
        assert forall|key: Seq<char>| left_map.contains_key(key) implies #[trigger] left_map[key]
            == right_map[key] by {
            let at = choose|at: int| 0 <= at < left_keys@.len() && (#[trigger] left_keys@[at])@ == key;
            assert(left_map[left_keys@[at]@] == right_map[left_keys@[at]@]);
        }
        assert(left_map =~= right_map);
    }
    true
}

pub open spec fn scan_result(scan: Result<TextMap<Vec<SubagentSummary>>, String>) -> Result<
    Map<Seq<char>, Seq<SubagentSummaryView>>,
    Seq<char>,
> {
    match scan {
        Ok(subagents) => Ok(subagent_map(subagents@)),
        Err(error) => Err(error@),
    }
}

pub open spec fn listings_result(listings: Result<Vec<AgentListing>, String>) -> Result<
    Seq<AgentListingView>,
    Seq<char>,
> {
    match listings {
        Ok(listings) => Ok(listing_views(listings@)),
        Err(error) => Err(error@),
    }
}

pub open spec fn status_result(status: Option<Result<Option<String>, String>>) -> Option<
    Result<Option<Seq<char>>, Seq<char>>,
> {
    match status {
        Some(Ok(text)) => Some(Ok(text_option(text))),
        Some(Err(error)) => Some(Err(error@)),
        None => None,
    }
}

pub open spec fn channel_result(status: Result<ChannelStatus, String>) -> Result<
    ChannelStatusView,
    Seq<char>,
> {
    match status {
        Ok(status) => Ok(status@),
        Err(error) => Err(error@),
    }
}

pub open spec fn flag_result(flag: Result<bool, String>) -> Result<bool, Seq<char>> {
    match flag {
        Ok(flag) => Ok(flag),
        Err(error) => Err(error@),
    }
}

impl ClaudeSessionStore {
    fn report(&mut self, source: ErrorSource, what: &str, error: &str)
        requires
            old(self).well_formed(),
        ensures
            final(self).well_formed(),
            final(self)@ == old(self)@.with_error(source, what@ + error@),
    {
        self.error = Some((source, joined(what, error)));
    }

    fn follows(&self, session_id: &str) -> (result: bool)
        ensures
            result == (self@.followed == Some(session_id@)),
    {
        match &self.followed_session_id {
            Some(followed) => same_text(followed.as_str(), session_id),
            None => false,
        }
    }

    /// Takes in what a read of the hook events brought. Says whether something changed.
    pub fn apply_events_progress(
        &mut self,
        session_id: &str,
        start_offset: u64,
        progress: Result<TailProgress, String>,
        now_ms: i64,
    ) -> (changed: bool)
        requires
            old(self).well_formed(),
        ensures
            final(self).well_formed(),
            (Applied { store: final(self)@, changed }) == old(self)@.with_events_read(
                session_id@,
                start_offset,
                progress_result(progress),
                now_ms,
            ),
    {
        if !self.follows(session_id) {
            return false;
        }
        let progress = match progress {
            Ok(progress) => progress,
            Err(error) => {
                self.report(ErrorSource::Events, "Reading events: ", error.as_str());
                return true;
            },
        };
        self.take_error_from(ErrorSource::Events);
        self.clock.last_events_ok_ms = Some(clock_of(now_ms));
        if progress.start_offset != start_offset || progress.start_offset != self.events.offset {
            return false;
        }
        if progress.restarted {
            self.live = LiveState::default();
            let generation: u64 = self.events.generation;
            self.events = FollowedConversation::new(Transcript::new(), generation);
        }
        let any = apply_event_lines(&mut self.live, &progress.lines);
        self.events.read_to(progress.path, progress.offset, progress.pending);
        assert(self@ =~= old(self)@.with_events_read(
            session_id@,
            start_offset,
            Ok(progress@),
            now_ms,
        ).store);
        progress.restarted || any
    }

    /// Takes in what a read of the channel's inbox brought. Says whether something changed.
    pub fn apply_channel_inbox_progress(
        &mut self,
        claude_pid: u32,
        generation: u64,
        start_offset: u64,
        progress: Result<TailProgress, String>,
    ) -> (changed: bool)
        requires
            old(self).well_formed(),
        ensures
            final(self).well_formed(),
            (Applied { store: final(self)@, changed }) == old(self)@.with_inbox_read(
                claude_pid,
                generation,
                start_offset,
                progress_result(progress),
            ),
    {
        if self.selected_process_id() != Some(claude_pid) {
            return false;
        }
        if self.channel_inbox.generation != generation {
            return false;
        }
        let progress = match progress {
            Ok(progress) => progress,
            Err(error) => {
                self.report(ErrorSource::Channel, "Reading channel: ", error.as_str());
                return true;
            },
        };
        self.take_error_from(ErrorSource::Channel);
        if progress.start_offset != start_offset || progress.start_offset
            != self.channel_inbox.offset {
            return false;
        }
        if progress.restarted {
            self.channel_events = Vec::new();
            assert(event_views(self.channel_events@) =~= Seq::empty());
            let generation: u64 = self.channel_inbox.generation;
            self.channel_inbox = FollowedConversation::new(Transcript::new(), generation);
        }
        let any = append_inbox_lines(&mut self.channel_events, &progress.lines);
        self.channel_inbox.read_to(progress.path, progress.offset, progress.pending);
        assert(self@ =~= old(self)@.with_inbox_read(
            claude_pid,
            generation,
            start_offset,
            Ok(progress@),
        ).store);
        progress.restarted || any
    }

    /// Takes in what a read of a conversation brought. Says whether something changed.
    pub fn apply_tail_progress(
        &mut self,
        session_id: &str,
        target: &TranscriptTarget,
        progress: Result<TailProgress, String>,
        now_ms: i64,
    ) -> (changed: bool)
        requires
            old(self).well_formed(),
        ensures
            final(self).well_formed(),
            (Applied { store: final(self)@, changed }) == old(self)@.with_tail_read(
                session_id@,
                target@,
                progress_result(progress),
                now_ms,
            ),
    {
        // An agent's read belongs to the agent that was on screen when it was issued, and
        // once the user has moved on there is nothing left for it to be absorbed into:
        // every conversation starts its reading at offset zero, so the offset guard below
        // cannot tell one agent's read from another's. The session's own conversation is
        // followed whichever one is on screen, so a read of it is never stale this way.
        let of_subagent = matches!(target, TranscriptTarget::Subagent { .. });
        if of_subagent && !self.transcript_target.same_as(target) {
            return false;
        }
        // The selection can change while a read is in flight, in which case this progress
        // describes a file the store is no longer following. Checked before the failure
        // below is reported: a read that failed for a conversation the store has stopped
        // following says nothing about the one it is following now, and the poll's error
        // is drawn under the session list.
        if !self.follows(session_id) {
            return false;
        }
        let progress = match progress {
            Ok(progress) => progress,
            Err(error) => {
                // Only the transcript is affected; the session list stays as it is.
                self.report(ErrorSource::Transcript, "Reading transcript: ", error.as_str());
                return true;
            },
        };
        // Reading can also be restarted from the beginning while a read is in flight —
        // by the selection moving away and back — and the same `sessionId` then names a
        // conversation that is being read again from the start. Absorbing a read that
        // began further into the file would move the offset past everything before it,
        // and those records would never be read.
        let ghost before = self@;
        let ghost conversation = before.conversation(target@);
        let path_changed = match target {
            TranscriptTarget::Main => {
                if self.main_conversation.offset != progress.start_offset {
                    return false;
                }
                !same_option(&self.main_conversation.path, &progress.path)
            },
            TranscriptTarget::Subagent { .. } => match &self.subagent_conversation {
                Some(conversation) => {
                    if conversation.offset != progress.start_offset {
                        return false;
                    }
                    !same_option(&conversation.path, &progress.path)
                },
                None => {
                    return false;
                },
            },
        };
        // Cleared by a read that is actually absorbed rather than by any read that
        // succeeds, so that a stale one cannot report the transcript as readable again.
        let cleared_error = self.take_error_from(ErrorSource::Transcript);
        self.clock.last_transcript_ok_ms = Some(clock_of(now_ms));
        let restarted = progress.restarted;
        let generation: u64 = if restarted {
            self.start_transcript()
        } else {
            self.transcript_resets
        };
        // A line that cannot be parsed is skipped: a transcript read while it
        // is being written can end in a line that never becomes valid, and the rest of the
        // batch is still worth absorbing.
        let records = parse_records(&progress.lines);
        let absorbed_any = records.len() > 0;
        match target {
            TranscriptTarget::Main => {
                note_transcript_into_live(&mut self.live, records.as_slice());
                if restarted {
                    self.main_conversation = FollowedConversation::new(
                        Transcript::new(),
                        generation,
                    );
                }
                self.main_conversation.transcript.absorb(records);
                self.main_conversation.read_to(progress.path, progress.offset, progress.pending);
            },
            TranscriptTarget::Subagent { .. } => {
                if let Some(mut conversation) = self.subagent_conversation.take() {
                    if restarted {
                        conversation = FollowedConversation::new(
                            Transcript::for_sidechain(),
                            generation,
                        );
                    }
                    conversation.transcript.absorb(records);
                    conversation.read_to(progress.path, progress.offset, progress.pending);
                    self.subagent_conversation = Some(conversation);
                }
            },
        }
        assert(self@ =~= before.with_tail_absorbed(
            target@,
            conversation->0,
            progress@,
            now_ms,
        ).store);
        absorbed_any || restarted || path_changed || cleared_error
    }

    /// Takes in what a read of the status line brought: nothing was read where `status` is
    /// `None`. The selection can change while a read is in flight, in which case the status
    /// belongs to the session being left. Says whether something changed.
    pub fn apply_status(
        &mut self,
        session_id: &Option<String>,
        status: Option<Result<Option<String>, String>>,
        now_ms: i64,
    ) -> (changed: bool)
        requires
            old(self).well_formed(),
        ensures
            final(self).well_formed(),
            (Applied { store: final(self)@, changed }) == old(self)@.with_status_read(
                text_option(*session_id),
                status_result(status),
                now_ms,
            ),
    {
        if !same_option(&self.followed_session_id, session_id) {
            return false;
        }
        match status {
            Some(Ok(Some(text))) => match StatusSnapshot::parse(text.as_str()) {
                Some(snapshot) => {
                    self.take_error_from(ErrorSource::Status);
                    self.clock.last_status_ok_ms = Some(clock_of(now_ms));
                    self.status = Some(snapshot);
                    self.status_updated_at = Some(now_ms);
                    true
                },
                None => false,
            },
            Some(Ok(None)) => {
                self.take_error_from(ErrorSource::Status);
                self.clock.last_status_ok_ms = Some(clock_of(now_ms));
                false
            },
            Some(Err(error)) => {
                self.report(ErrorSource::Status, "Reading status: ", error.as_str());
                true
            },
            None => false,
        }
    }

    /// Takes in what a read of the channel's status brought. Says whether something changed.
    pub fn apply_channel_status(
        &mut self,
        claude_pid: u32,
        status: Result<ChannelStatus, String>,
        now_ms: i64,
    ) -> (changed: bool)
        requires
            old(self).well_formed(),
        ensures
            final(self).well_formed(),
            (Applied { store: final(self)@, changed }) == old(self)@.with_channel_read(
                claude_pid,
                channel_result(status),
                now_ms,
            ),
    {
        if self.selected_process_id() != Some(claude_pid) {
            return false;
        }
        match status {
            Ok(status) => {
                self.take_error_from(ErrorSource::Channel);
                let changed = match &self.channel {
                    Some(channel) => !channel.same_as(&status),
                    None => true,
                };
                self.channel = Some(status);
                self.channel_checked_at_ms = Some(now_ms);
                changed
            },
            Err(error) => {
                self.report(ErrorSource::Channel, "Reading channel: ", error.as_str());
                true
            },
        }
    }

    /// Forgets the channel, because no process is selected whose channel could be read.
    /// Says whether something changed.
    pub fn forget_channel(&mut self) -> (changed: bool)
        requires
            old(self).well_formed(),
        ensures
            final(self).well_formed(),
            (Applied { store: final(self)@, changed }) == old(self)@.without_channel(),
    {
        let changed = self.channel.is_some() || self.channel_checked_at_ms.is_some();
        self.channel = None;
        self.channel_checked_at_ms = None;
        changed
    }

    /// Takes in whether the hooks are installed. Says whether something changed.
    pub fn apply_hooks_installed(&mut self, installed: Result<bool, String>) -> (changed: bool)
        requires
            old(self).well_formed(),
        ensures
            final(self).well_formed(),
            (Applied { store: final(self)@, changed }) == old(self)@.with_hooks_read(
                flag_result(installed),
            ),
    {
        match installed {
            Ok(installed) => {
                let cleared = self.take_error_from(ErrorSource::Hooks);
                let changed = cleared || self.hooks_are_installed != installed;
                self.hooks_are_installed = installed;
                changed
            },
            Err(error) => {
                self.report(ErrorSource::Hooks, "Reading hook install state: ", error.as_str());
                true
            },
        }
    }

    /// Takes in what a scan for subagents found. Says whether something changed.
    pub fn apply_subagent_scan(
        &mut self,
        scan: Result<TextMap<Vec<SubagentSummary>>, String>,
    ) -> (changed: bool)
        requires
            old(self).well_formed(),
        ensures
            final(self).well_formed(),
            (Applied { store: final(self)@, changed }) == old(self)@.with_subagent_scan(
                scan_result(scan),
            ),
    {
        match scan {
            Ok(subagents) => {
                self.take_error_from(ErrorSource::Subagents);
                let changed = !same_subagent_maps(&self.subagents_by_session, &subagents);
                if changed {
                    self.subagents_by_session = subagents;
                }
                changed
            },
            Err(error) => {
                self.report(ErrorSource::Subagents, "Listing subagents: ", error.as_str());
                true
            },
        }
    }

    fn merge_agent_listings(&mut self)
        requires
            old(self).well_formed(),
        ensures
            final(self).well_formed(),
            final(self)@ == old(self)@.merged(),
    {
        proof {
            lemma_merging_keeps_rows(
                Rows { live: self@.live_sessions, ended: self@.ended },
                self@.agent_listings,
            );
        }
        merge_listings(&mut self.live_sessions, &mut self.ended, &self.agent_listings);
    }

    /// Takes in a listing of agents. What a view has drawn may always have changed.
    pub fn apply_agent_listings(&mut self, listings: Result<Vec<AgentListing>, String>)
        requires
            old(self).well_formed(),
        ensures
            final(self).well_formed(),
            final(self)@ == old(self)@.with_agent_listings(listings_result(listings)),
    {
        match listings {
            Ok(listings) => {
                self.take_error_from(ErrorSource::Agents);
                self.agents_unavailable_reason = None;
                self.agent_listings = listings;
                self.merge_agent_listings();
            },
            Err(error) => {
                let chars = chars_of(error.as_str());
                let unanswered = find(&chars, &chars_of("has not answered"));
                if unanswered.is_some() {
                    self.report(ErrorSource::Agents, "Listing agents: ", error.as_str());
                } else {
                    self.agents_unavailable_reason = Some(error);
                }
            },
        }
    }
}

/// The live sessions of a scan.
pub open spec fn listed_live(sessions: Seq<SessionSummaryView>) -> Seq<LiveSessionView> {
    sessions.map_values(|summary: SessionSummaryView| LiveSessionView::registered(summary.session))
}

/// Where a scan found the transcripts; a later session of an id counts.
pub open spec fn listed_paths(sessions: Seq<SessionSummaryView>) -> Map<Seq<char>, Seq<char>>
    decreases sessions.len(),
{
    if sessions.len() == 0 {
        Map::empty()
    } else {
        let earlier = listed_paths(sessions.drop_last());
        match sessions.last().transcript_path {
            Some(path) => earlier.insert(sessions.last().session.session_id, path),
            None => earlier,
        }
    }
}

/// What a scan read of the spending; a later session of an id counts.
pub open spec fn listed_spend(sessions: Seq<SessionSummaryView>) -> Map<Seq<char>, TranscriptSpend>
    decreases sessions.len(),
{
    if sessions.len() == 0 {
        Map::empty()
    } else {
        let earlier = listed_spend(sessions.drop_last());
        match sessions.last().spend {
            Some(spend) => earlier.insert(sessions.last().session.session_id, spend),
            None => earlier,
        }
    }
}

/// Equality in which the costs compare as numbers.
pub open spec fn spends_equal(
    left: Map<Seq<char>, TranscriptSpend>,
    right: Map<Seq<char>, TranscriptSpend>,
) -> bool {
    forall|key: Seq<char>| #[trigger]
        left.contains_key(key) == right.contains_key(key) && (left.contains_key(key)
            ==> left[key].equals(right[key]))
}

/// A scan, half taken in.
#[verifier::ext_equal]
pub struct Scanning {
    pub store: StoreView,
    /// The selected session has gone on in another process.
    pub rebound: bool,
    /// The selected session was replaced by another in its process.
    pub cleared: bool,
    pub changed: bool,
}

impl StoreView {
    /// The row that a live session leaves behind when it ends. Its title is known only
    /// where its transcript was followed.
    pub open spec fn ended_row(
        self,
        live: LiveSessionView,
        reason: EndedReason,
        now_ms: i64,
    ) -> EndedSessionView {
        let transcript = self.main.transcript;
        EndedSessionView {
            session_id: live.session.session_id,
            name: live.session.name,
            ai_title: if self.followed == Some(live.session.session_id) {
                text_at(transcript.records, transcript.ai_title_at, "ai-title"@, "aiTitle"@)
            } else {
                None
            },
            cwd: live.session.working_directory,
            tmux: live.session.tmux_target,
            bridge_session_id: live.session.bridge_session_id,
            transcript_path: self.known_path(live.session.session_id),
            last_seen_ms: now_ms,
            ended_reason: reason,
        }
    }

    pub open spec fn with_ended_row(self, row: EndedSessionView) -> StoreView {
        StoreView { ended: with_ended(self.ended, row), ..self }
    }
}

impl Scanning {
    /// One listed session, held against the sessions that were listed before. The session
    /// may have gone on in another process; and its process may have replaced the session
    /// it had, which then has ended. Only the session that was selected when the scan
    /// began, and only once in a scan, takes the selection along.
    pub open spec fn with_listed(
        self,
        live: LiveSessionView,
        previous: Seq<LiveSessionView>,
        selected_before: Option<Seq<char>>,
        now_ms: i64,
    ) -> Scanning {
        let id = live.session.session_id;
        let process_id = live.session.process_id;
        let moved = has_live(previous, id) && !has_live_process(previous, id, process_id)
            && self.store.selected == Some(id);
        let noted = if moved {
            Scanning {
                store: StoreView {
                    notice: Some("Session rebound to pid "@ + decimal_digits(process_id as nat)),
                    ..self.store
                },
                rebound: true,
                changed: true,
                ..self
            }
        } else {
            self
        };
        match id_of_process(previous, process_id) {
            Some(replaced) if replaced != id => {
                let old = live_with_id(previous, replaced)->0;
                let ended = noted.store.with_ended_row(
                    noted.store.ended_row(old, EndedReason::Cleared, now_ms),
                );
                if !noted.cleared && selected_before == Some(replaced) {
                    Scanning {
                        store: StoreView {
                            cleared_rebinds: ended.cleared_rebinds.push((replaced, id)),
                            selected: Some(id),
                            ..ended
                        },
                        cleared: true,
                        changed: true,
                        ..noted
                    }
                } else {
                    Scanning { store: ended, changed: true, ..noted }
                }
            },
            _ => noted,
        }
    }

    /// All listed sessions, in their order.
    pub open spec fn with_all_listed(
        self,
        live: Seq<LiveSessionView>,
        previous: Seq<LiveSessionView>,
        selected_before: Option<Seq<char>>,
        now_ms: i64,
    ) -> Scanning
        decreases live.len(),
    {
        if live.len() == 0 {
            self
        } else {
            self.with_all_listed(live.drop_last(), previous, selected_before, now_ms).with_listed(
                live.last(),
                previous,
                selected_before,
                now_ms,
            )
        }
    }

    /// The sessions that were listed before: one whose id and whose process are both gone
    /// has ended.
    pub open spec fn with_gone(
        self,
        previous: Seq<LiveSessionView>,
        live: Seq<LiveSessionView>,
        now_ms: i64,
    ) -> Scanning
        decreases previous.len(),
    {
        if previous.len() == 0 {
            self
        } else {
            let earlier = self.with_gone(previous.drop_last(), live, now_ms);
            let old = previous.last();
            if has_live(live, old.session.session_id) || has_process(live, old.session.process_id) {
                earlier
            } else {
                Scanning {
                    store: earlier.store.with_ended_row(
                        earlier.store.ended_row(old, EndedReason::ProcessGone, now_ms),
                    ),
                    changed: true,
                    ..earlier
                }
            }
        }
    }

    /// A session that is listed is not an ended one.
    pub open spec fn with_revived(self, live: Seq<LiveSessionView>) -> Scanning {
        let kept = without_live(self.store.ended, live);
        Scanning {
            store: StoreView { ended: kept, ..self.store },
            changed: self.changed || kept.len() != self.store.ended.len(),
            ..self
        }
    }

    /// What the scan found takes the place of what was known; it is a change where it is
    /// something else than was listed before. The listings of agents are taken in again.
    pub open spec fn with_listing(
        self,
        listing: SessionListingView,
        previous: Seq<LiveSessionView>,
    ) -> Scanning {
        let live = listed_live(listing.sessions);
        let paths = listed_paths(listing.sessions);
        let spend = listed_spend(listing.sessions);
        let home = Some(listing.home_directory);
        Scanning {
            store: StoreView {
                live_sessions: live,
                transcript_paths: paths,
                session_spend: spend,
                home_directory: home,
                liveness_unavailable_reason: listing.liveness_unavailable_reason,
                ..self.store
            }.merged(),
            changed: self.changed || live != previous || self.store.transcript_paths != paths
                || !spends_equal(self.store.session_spend, spend)
                || self.store.home_directory != home || self.store.liveness_unavailable_reason
                != listing.liveness_unavailable_reason,
            ..self
        }
    }

    /// What is followed after the scan. A session that has only changed its process goes on
    /// as it was. One that was replaced is followed anew. A selected session that the scan
    /// lists is followed; one that has ended goes on being read, without its live state.
    pub open spec fn with_selection(self, live: Seq<LiveSessionView>, now_ms: i64) -> Applied {
        let store = self.store;
        if self.rebound {
            Applied { store, changed: self.changed }
        } else if self.cleared {
            Applied {
                store: store.without_error(ErrorSource::Send).with_main_followed(now_ms),
                changed: true,
            }
        } else {
            match store.selected {
                Some(id) => if has_live(live, id) {
                    if store.followed is None {
                        Applied {
                            store: StoreView { followed: Some(id), ..store },
                            changed: true,
                        }
                    } else if store.followed != Some(id) {
                        Applied { store: store.with_main_followed(now_ms), changed: true }
                    } else {
                        Applied { store, changed: self.changed }
                    }
                } else if has_ended(store.ended, id) {
                    Applied {
                        store: StoreView {
                            followed: Some(id),
                            ..store.without_error(ErrorSource::Send).with_live_reset()
                        },
                        changed: true,
                    }
                } else {
                    Applied { store, changed: self.changed }
                },
                None => Applied { store, changed: self.changed },
            }
        }
    }
}

impl StoreView {
    /// What is said of a scan that failed.
    pub open spec fn scan_failure(self, error: Seq<char>) -> Seq<char> {
        "Reading "@ + self.product + " sessions: "@ + error
    }

    /// The store after a scan of the registry. Where the scan failed, what was listed is
    /// kept: a directory that is momentarily unreadable should not empty the panel.
    pub open spec fn with_registry_scan(
        self,
        scan: Result<SessionListingView, Seq<char>>,
        now_ms: i64,
    ) -> Applied {
        match scan {
            Err(error) => Applied {
                store: self.with_error(ErrorSource::Poll, self.scan_failure(error)),
                changed: true,
            },
            Ok(listing) => {
                let live = listed_live(listing.sessions);
                self.scanning(now_ms).with_all_listed(
                    live,
                    self.live_sessions,
                    self.selected,
                    now_ms,
                ).with_gone(self.live_sessions, live, now_ms).with_revived(live).with_listing(
                    listing,
                    self.live_sessions,
                ).with_selection(live, now_ms)
            },
        }
    }

    /// The scan has been answered, and none of its sessions has been looked at.
    pub open spec fn scanning(self, now_ms: i64) -> Scanning {
        Scanning {
            store: StoreView {
                clock: StoreClock { last_registry_ok_ms: Some(clock_ms(now_ms)), ..self.clock },
                live_sessions: Seq::empty(),
                ..self.without_error(ErrorSource::Poll)
            },
            rebound: false,
            cleared: false,
            changed: self.has_error(ErrorSource::Poll),
        }
    }
}

pub open spec fn listing_result(scan: Result<SessionListing, String>) -> Result<
    SessionListingView,
    Seq<char>,
> {
    match scan {
        Ok(listing) => Ok(listing@),
        Err(error) => Err(error@),
    }
}

fn same_texts(left: &TextMap<String>, right: &TextMap<String>) -> (result: bool)
    ensures
        result == (path_map(left@) == path_map(right@)),
{
    let left_keys = left.keys();
    let mut i: usize = 0;
    while i < left_keys.len()
        invariant
            i <= left_keys@.len(),
            forall|k: int| 0 <= k < left_keys@.len() ==> left@.contains_key((#[trigger] left_keys@[k])@),
            forall|k: int|
                0 <= k < i ==> right@.contains_key((#[trigger] left_keys@[k])@)
                    && left@[left_keys@[k]@]@ == right@[left_keys@[k]@]@,
        decreases left_keys@.len() - i,
    {
        let key = left_keys[i].as_str();
        assert(left@.contains_key(left_keys@[i as int]@));
        let same = match (left.get(key), right.get(key)) {
            (Some(left), Some(right)) => same_text(left.as_str(), right.as_str()),
            _ => false,
        };
        if !same {
            proof {
                assert(path_map(left@).contains_key(key@));
                assert(!path_map(right@).contains_key(key@) || path_map(left@)[key@]
                    != path_map(right@)[key@]);
            }
            return false;
        }
        i = i + 1;
    }
    let right_keys = right.keys();
    let mut k: usize = 0;
    while k < right_keys.len()
        invariant
            k <= right_keys@.len(),
            forall|l: int| 0 <= l < right_keys@.len() ==> right@.contains_key((#[trigger] right_keys@[l])@),
            forall|l: int| 0 <= l < k ==> left@.contains_key((#[trigger] right_keys@[l])@),
        decreases right_keys@.len() - k,
    {
        if left.get(right_keys[k].as_str()).is_none() {
            proof {
                let key = right_keys@[k as int]@;
                assert(right@.contains_key(key));
                assert(path_map(right@).contains_key(key) && !path_map(left@).contains_key(key));
            }
            return false;
        }
        k = k + 1;
    }
    proof {
        assert forall|key: Seq<char>| #[trigger]
            path_map(left@).contains_key(key) == path_map(right@).contains_key(key) by {
            if left@.contains_key(key) {
                let at = choose|at: int| 0 <= at < left_keys@.len() && (#[trigger] left_keys@[at])@ == key;
                assert(right@.contains_key(left_keys@[at]@));
            }
            if right@.contains_key(key) {
                let at = choose|at: int| 0 <= at < right_keys@.len() && (#[trigger] right_keys@[at])@ == key;
                assert(left@.contains_key(right_keys@[at]@));
            }
        }
        assert forall|key: Seq<char>| #[trigger]
            path_map(left@).contains_key(key) implies path_map(left@)[key] == path_map(right@)[key] by {
            let at = choose|at: int| 0 <= at < left_keys@.len() && (#[trigger] left_keys@[at])@ == key;
            assert(right@.contains_key(left_keys@[at]@));
        }
        assert(path_map(left@) =~= path_map(right@));
    }
    true
}

fn same_spends(left: &TextMap<TranscriptSpend>, right: &TextMap<TranscriptSpend>) -> (result: bool)
    ensures
        result == spends_equal(left@, right@),
{
    let left_keys = left.keys();
    let mut i: usize = 0;
    while i < left_keys.len()
        invariant
            i <= left_keys@.len(),
            forall|k: int| 0 <= k < left_keys@.len() ==> left@.contains_key((#[trigger] left_keys@[k])@),
            forall|k: int|
                0 <= k < i ==> right@.contains_key((#[trigger] left_keys@[k])@)
                    && left@[left_keys@[k]@].equals(right@[left_keys@[k]@]),
        decreases left_keys@.len() - i,
    {
        let key = left_keys[i].as_str();
        assert(left@.contains_key(left_keys@[i as int]@));
        let same = match (left.get(key), right.get(key)) {
            (Some(left), Some(right)) => left.equal(*right),
            _ => false,
        };
        if !same {
            assert(left@.contains_key(key@));
            return false;
        }
        i = i + 1;
    }
    let right_keys = right.keys();
    let mut k: usize = 0;
    while k < right_keys.len()
        invariant
            k <= right_keys@.len(),
            forall|l: int| 0 <= l < right_keys@.len() ==> right@.contains_key((#[trigger] right_keys@[l])@),
            forall|l: int| 0 <= l < k ==> left@.contains_key((#[trigger] right_keys@[l])@),
        decreases right_keys@.len() - k,
    {
        if left.get(right_keys[k].as_str()).is_none() {
            proof {
                let key = right_keys@[k as int]@;
                assert(right@.contains_key(key));
                assert(left@.contains_key(key) != right@.contains_key(key));
            }
            return false;
        }
        k = k + 1;
    }
    proof {
        assert forall|key: Seq<char>| #[trigger]
            left@.contains_key(key) == right@.contains_key(key) && (left@.contains_key(key)
                ==> left@[key].equals(right@[key])) by {
            if left@.contains_key(key) {
                let at = choose|at: int| 0 <= at < left_keys@.len() && (#[trigger] left_keys@[at])@ == key;
                assert(right@.contains_key(left_keys@[at]@));
            }
            if right@.contains_key(key) {
                let at = choose|at: int| 0 <= at < right_keys@.len() && (#[trigger] right_keys@[at])@ == key;
                assert(left@.contains_key(right_keys@[at]@));
            }
        }
    }
    true
}

// The steps of a scan, each by a name of its own.

#[verifier::opaque]
spec fn step_begun(store: StoreView, now_ms: i64) -> Scanning {
    store.scanning(now_ms)
}

#[verifier::opaque]
spec fn step_listed(
    scan: Scanning,
    live: Seq<LiveSessionView>,
    previous: Seq<LiveSessionView>,
    selected_before: Option<Seq<char>>,
    now_ms: i64,
) -> Scanning {
    scan.with_all_listed(live, previous, selected_before, now_ms)
}

#[verifier::opaque]
spec fn step_gone(
    scan: Scanning,
    previous: Seq<LiveSessionView>,
    live: Seq<LiveSessionView>,
    now_ms: i64,
) -> Scanning {
    scan.with_gone(previous, live, now_ms)
}

#[verifier::opaque]
spec fn step_revived(scan: Scanning, live: Seq<LiveSessionView>) -> Scanning {
    scan.with_revived(live)
}

#[verifier::opaque]
spec fn step_listing(
    scan: Scanning,
    listing: SessionListingView,
    previous: Seq<LiveSessionView>,
) -> Scanning {
    scan.with_listing(listing, previous)
}

#[verifier::opaque]
spec fn step_selection(scan: Scanning, live: Seq<LiveSessionView>, now_ms: i64) -> Applied {
    scan.with_selection(live, now_ms)
}

#[verifier::opaque]
spec fn all_steps(store: StoreView, listing: SessionListingView, now_ms: i64) -> Applied {
    store.with_registry_scan(Ok(listing), now_ms)
}

proof fn lemma_all_steps(store: StoreView, listing: SessionListingView, now_ms: i64)
    ensures
        ({
            let live = listed_live(listing.sessions);
            let previous = store.live_sessions;
            let listed = step_listed(
                step_begun(store, now_ms),
                live,
                previous,
                store.selected,
                now_ms,
            );
            let gone = step_gone(listed, previous, live, now_ms);
            let found = step_listing(step_revived(gone, live), listing, previous);
            all_steps(store, listing, now_ms) == step_selection(found, live, now_ms)
        }),
{
    reveal(step_begun);
    reveal(step_listed);
    reveal(step_gone);
    reveal(step_revived);
    reveal(step_listing);
    reveal(step_selection);
    reveal(all_steps);
}

/// The parts of a listing, taken apart by what they are kept under.
fn take_listing_apart(sessions: Vec<SessionSummary>) -> (parts: (
    Vec<LiveSession>,
    TextMap<String>,
    TextMap<TranscriptSpend>,
))
    ensures
        ({
            let views = crate::session_source::summary_views(sessions@);
            &&& live_views(parts.0@) == listed_live(views)
            &&& path_map(parts.1@) == listed_paths(views)
            &&& parts.2@ == listed_spend(views)
        }),
{
    let ghost all = sessions@;
    let ghost views = crate::session_source::summary_views(all);
    let mut live: Vec<LiveSession> = Vec::new();
    let mut paths: TextMap<String> = TextMap::new();
    let mut spends: TextMap<TranscriptSpend> = TextMap::new();
    proof {
        assert(live_views(live@) =~= listed_live(views.take(0)));
        assert(path_map(paths@) =~= Map::empty());
    }
    for summary in it: sessions
        invariant
            it.seq() == all,
            views == crate::session_source::summary_views(all),
            live_views(live@) == listed_live(views.take(it.index())),
            path_map(paths@) == listed_paths(views.take(it.index())),
            spends@ == listed_spend(views.take(it.index())),
    {
        let ghost now = views.take(it.index() + 1);
        proof {
            assert(views[it.index()] == summary@);
            assert(now.drop_last() =~= views.take(it.index()));
            assert(now.last() == summary@);
        }
        let ghost old_live = live@;
        let ghost old_paths = paths@;
        if let Some(path) = summary.transcript_path {
            paths.insert(summary.session.session_id.clone(), path);
            assert(path_map(paths@) =~= path_map(old_paths).insert(
                summary.session.session_id@,
                path@,
            ));
        }
        if let Some(spend) = summary.spend {
            spends.insert(summary.session.session_id.clone(), spend);
        }
        let row = LiveSession::registered(summary.session);
        live.push(row);
        proof {
            assert(live_views(live@) =~= live_views(old_live).push(row@));
            assert(listed_live(now) =~= listed_live(now.drop_last()).push(
                LiveSessionView::registered(summary@.session),
            ));
        }
    }
    assert(views.take(views.len() as int) =~= views);
    (live, paths, spends)
}

impl ClaudeSessionStore {
    fn ended_from_live(&self, live: &LiveSession, reason: EndedReason, now_ms: i64) -> (row:
        EndedSession)
        ensures
            row@ == self@.ended_row(live@, reason, now_ms),
    {
        let ai_title = if self.follows(live.session.session_id.as_str()) {
            match self.main_conversation.transcript.ai_title() {
                Some(title) => Some(title.to_owned()),
                None => None,
            }
        } else {
            None
        };
        EndedSession {
            session_id: live.session.session_id.clone(),
            name: copy_option(&live.session.name),
            ai_title,
            cwd: live.session.working_directory.clone(),
            tmux: copy_option(&live.session.tmux_target),
            bridge_session_id: copy_option(&live.session.bridge_session_id),
            transcript_path: self.path_of(live.session.session_id.as_str()),
            last_seen_ms: now_ms,
            ended_reason: reason,
        }
    }

    fn add_ended(&mut self, row: EndedSession)
        requires
            old(self).well_formed(),
        ensures
            final(self).well_formed(),
            final(self)@ == old(self)@.with_ended_row(row@),
    {
        proof {
            lemma_adding_keeps_rows(self@.ended, row@);
        }
        push_ended(&mut self.ended, row);
    }

    /// Holds one listed session against those that were listed before. Says whether the
    /// selected session moved, whether it was replaced, and whether anything changed.
    fn scan_listed(
        &mut self,
        live: &LiveSession,
        previous: &Vec<LiveSession>,
        selected_before: &Option<String>,
        cleared: bool,
        now_ms: i64,
        Ghost(scan): Ghost<Scanning>,
    ) -> (flags: (bool, bool, bool))
        requires
            old(self).well_formed(),
            scan.store == old(self)@,
            scan.cleared == cleared,
        ensures
            final(self).well_formed(),
            (Scanning {
                store: final(self)@,
                rebound: scan.rebound || flags.0,
                cleared: cleared || flags.1,
                changed: scan.changed || flags.2,
            }) == scan.with_listed(
                live@,
                live_views(previous@),
                text_option(*selected_before),
                now_ms,
            ),
    {
        let id = live.session.session_id.as_str();
        let process_id: u32 = live.session.process_id;
        let selected_is_this = match &self.selected {
            Some(selected) => same_text(selected.as_str(), id),
            None => false,
        };
        let moved = find_live(previous, id).is_some() && !any_live_process(previous, id, process_id)
            && selected_is_this;
        if moved {
            self.notice = Some(
                joined("Session rebound to pid ", decimal_text(process_id).as_str()),
            );
        }
        let mut was_cleared = false;
        let mut replaced_any = false;
        if let Some(replaced) = last_id_of_process(previous, process_id) {
            if !same_text(replaced.as_str(), id) {
                replaced_any = true;
                proof {
                    lemma_id_of_process(live_views(previous@), process_id);
                }
                if let Some(at) = find_live(previous, replaced.as_str()) {
                    assert(live_views(previous@)[at as int] == previous@[at as int]@);
                    let row = self.ended_from_live(&previous[at], EndedReason::Cleared, now_ms);
                    self.add_ended(row);
                }
                let was_selected = match selected_before {
                    Some(selected) => same_text(selected.as_str(), replaced.as_str()),
                    None => false,
                };
                if !cleared && was_selected {
                    was_cleared = true;
                    let ghost pairs = self.cleared_rebinds@;
                    self.cleared_rebinds.push((replaced.clone(), id.to_owned()));
                    self.selected = Some(id.to_owned());
                    assert(pair_views(self.cleared_rebinds@) =~= pair_views(pairs).push(
                        (replaced@, id@),
                    ));
                }
            }
        }
        (moved, was_cleared, moved || replaced_any)
    }

    /// Holds all listed sessions, in their order, against those that were listed before.
    /// Says whether the selected session moved, whether it was replaced, and whether
    /// anything changed.
    fn scan_all_listed(
        &mut self,
        new_live: &Vec<LiveSession>,
        previous_live: &Vec<LiveSession>,
        selected_before: &Option<String>,
        changed_before: bool,
        now_ms: i64,
    ) -> (flags: (bool, bool, bool))
        requires
            old(self).well_formed(),
        ensures
            final(self).well_formed(),
            (Scanning {
                store: final(self)@,
                rebound: flags.0,
                cleared: flags.1,
                changed: flags.2,
            }) == step_listed(
                Scanning {
                    store: old(self)@,
                    rebound: false,
                    cleared: false,
                    changed: changed_before,
                },
                live_views(new_live@),
                live_views(previous_live@),
                text_option(*selected_before),
                now_ms,
            ),
    {
        proof {
            reveal(step_listed);
        }
        let ghost live = live_views(new_live@);
        let ghost previous = live_views(previous_live@);
        let ghost selected = text_option(*selected_before);
        let ghost start = Scanning {
            store: self@,
            rebound: false,
            cleared: false,
            changed: changed_before,
        };
        let mut changed = changed_before;
        let mut rebound = false;
        let mut cleared = false;
        let mut i: usize = 0;
        assert(live.take(0) =~= Seq::empty());
        while i < new_live.len()
            invariant
                self.well_formed(),
                i <= new_live@.len(),
                live == live_views(new_live@),
                previous == live_views(previous_live@),
                selected == text_option(*selected_before),
                (Scanning { store: self@, rebound, cleared, changed }) == start.with_all_listed(
                    live.take(i as int),
                    previous,
                    selected,
                    now_ms,
                ),
            decreases new_live@.len() - i,
        {
            let ghost before = Scanning { store: self@, rebound, cleared, changed };
            proof {
                assert(live[i as int] == new_live@[i as int]@);
                assert(live.take(i + 1).drop_last() =~= live.take(i as int));
                assert(live.take(i + 1).last() == live[i as int]);
            }
            let (moved, was_cleared, any) = self.scan_listed(
                &new_live[i],
                previous_live,
                selected_before,
                cleared,
                now_ms,
                Ghost(before),
            );
            rebound = rebound || moved;
            cleared = cleared || was_cleared;
            changed = changed || any;
            assert((Scanning { store: self@, rebound, cleared, changed }) == before.with_listed(
                live[i as int],
                previous,
                selected,
                now_ms,
            ));
            i = i + 1;
        }
        assert(live.take(i as int) =~= live);
        (rebound, cleared, changed)
    }

    /// Ends the sessions whose id and whose process are both gone. Says whether there were
    /// any.
    fn scan_gone(
        &mut self,
        previous_live: &Vec<LiveSession>,
        new_live: &Vec<LiveSession>,
        now_ms: i64,
        Ghost(scan): Ghost<Scanning>,
    ) -> (any: bool)
        requires
            old(self).well_formed(),
            scan.store == old(self)@,
        ensures
            final(self).well_formed(),
            (Scanning { store: final(self)@, changed: scan.changed || any, ..scan }) == step_gone(
                scan,
                live_views(previous_live@),
                live_views(new_live@),
                now_ms,
            ),
    {
        proof {
            reveal(step_gone);
        }
        let ghost live = live_views(new_live@);
        let ghost previous = live_views(previous_live@);
        let mut any = false;
        let mut k: usize = 0;
        assert(previous.take(0) =~= Seq::empty());
        while k < previous_live.len()
            invariant
                self.well_formed(),
                k <= previous_live@.len(),
                live == live_views(new_live@),
                previous == live_views(previous_live@),
                (Scanning { store: self@, changed: scan.changed || any, ..scan }) == scan.with_gone(
                    previous.take(k as int),
                    live,
                    now_ms,
                ),
            decreases previous_live@.len() - k,
        {
            let old = &previous_live[k];
            proof {
                assert(previous[k as int] == previous_live@[k as int]@);
                assert(previous.take(k + 1).drop_last() =~= previous.take(k as int));
                assert(previous.take(k + 1).last() == previous[k as int]);
            }
            if find_live(new_live, old.session.session_id.as_str()).is_none() && !any_process(
                new_live,
                old.session.process_id,
            ) {
                let row = self.ended_from_live(old, EndedReason::ProcessGone, now_ms);
                self.add_ended(row);
                any = true;
            }
            k = k + 1;
        }
        assert(previous.take(k as int) =~= previous);
        any
    }

    /// Puts what a scan found in the place of what was known, and takes the listings of
    /// agents in again. Says whether it was something else.
    fn take_listing(
        &mut self,
        new_live: Vec<LiveSession>,
        previous_live: &Vec<LiveSession>,
        transcript_paths: TextMap<String>,
        session_spend: TextMap<TranscriptSpend>,
        home_directory: Option<String>,
        liveness_unavailable_reason: Option<String>,
        Ghost(listing): Ghost<SessionListingView>,
        Ghost(scan): Ghost<Scanning>,
    ) -> (differs: bool)
        requires
            old(self).well_formed(),
            scan.store == old(self)@,
            live_views(new_live@) == listed_live(listing.sessions),
            path_map(transcript_paths@) == listed_paths(listing.sessions),
            session_spend@ == listed_spend(listing.sessions),
            text_option(home_directory) == Some(listing.home_directory),
            text_option(liveness_unavailable_reason) == listing.liveness_unavailable_reason,
        ensures
            final(self).well_formed(),
            final(self)@.selected == old(self)@.selected,
            (Scanning { store: final(self)@, changed: scan.changed || differs, ..scan })
                == step_listing(scan, listing, live_views(previous_live@)),
    {
        proof {
            reveal(step_listing);
        }
        let same_rows = same_live(&new_live, previous_live);
        let same_paths = same_texts(&self.transcript_paths, &transcript_paths);
        let same_spend = same_spends(&self.session_spend, &session_spend);
        let same_home = same_option(&self.home_directory, &home_directory);
        let same_reason = same_option(
            &self.liveness_unavailable_reason,
            &liveness_unavailable_reason,
        );
        let differs = !same_rows || !same_paths || !same_spend || !same_home || !same_reason;
        let ghost before = self@;
        self.live_sessions = new_live;
        self.transcript_paths = transcript_paths;
        self.session_spend = session_spend;
        self.home_directory = home_directory;
        self.liveness_unavailable_reason = liveness_unavailable_reason;
        assert(self@ =~= (StoreView {
            live_sessions: listed_live(listing.sessions),
            transcript_paths: listed_paths(listing.sessions),
            session_spend: listed_spend(listing.sessions),
            home_directory: Some(listing.home_directory),
            liveness_unavailable_reason: listing.liveness_unavailable_reason,
            ..before
        }));
        self.merge_agent_listings();
        differs
    }

    /// Takes the rows of the sessions that are listed out of the ended ones. Says whether
    /// there were any.
    fn scan_revived(&mut self, new_live: &Vec<LiveSession>, Ghost(scan): Ghost<Scanning>) -> (any:
        bool)
        requires
            old(self).well_formed(),
            scan.store == old(self)@,
        ensures
            final(self).well_formed(),
            (Scanning { store: final(self)@, changed: scan.changed || any, ..scan })
                == step_revived(scan, live_views(new_live@)),
    {
        proof {
            reveal(step_revived);
            lemma_kept_rows(self@.ended, live_views(new_live@));
        }
        drop_live(&mut self.ended, new_live)
    }

    /// Notes that a scan was answered, and takes out what was listed before. Says whether
    /// an error is gone with it.
    fn scan_begun(&mut self, now_ms: i64) -> (begun: (Vec<LiveSession>, bool))
        requires
            old(self).well_formed(),
        ensures
            final(self).well_formed(),
            live_views(begun.0@) == old(self)@.live_sessions,
            final(self)@.selected == old(self)@.selected,
            (Scanning {
                store: final(self)@,
                rebound: false,
                cleared: false,
                changed: begun.1,
            }) == step_begun(old(self)@, now_ms),
    {
        proof {
            reveal(step_begun);
        }
        let ghost start = self@;
        self.clock.last_registry_ok_ms = Some(clock_of(now_ms));
        let changed = self.take_error_from(ErrorSource::Poll);
        let mut previous_live: Vec<LiveSession> = Vec::new();
        std::mem::swap(&mut previous_live, &mut self.live_sessions);
        assert(live_views(self.live_sessions@) =~= Seq::empty());
        assert(self@ =~= start.scanning(now_ms).store);
        (previous_live, changed)
    }

    /// Follows what is to be followed after a scan. Says whether something changed.
    fn follow_after_scan(
        &mut self,
        rebound: bool,
        cleared: bool,
        selected_is_listed: bool,
        changed: bool,
        now_ms: i64,
        Ghost(live): Ghost<Seq<LiveSessionView>>,
    ) -> (any: bool)
        requires
            old(self).well_formed(),
            selected_is_listed == (old(self)@.selected is Some && has_live(
                live,
                old(self)@.selected->0,
            )),
        ensures
            final(self).well_formed(),
            (Applied { store: final(self)@, changed: any }) == step_selection(
                Scanning { store: old(self)@, rebound, cleared, changed },
                live,
                now_ms,
            ),
    {
        proof {
            reveal(step_selection);
        }
        if rebound {
            // Same sessionId, new pid: keep transcript, events, LiveState.
            return changed;
        }
        if cleared {
            self.take_error_from(ErrorSource::Send);
            self.follow_this_sessions_main_conversation(now_ms);
            return true;
        }
        let session_id = match &self.selected {
            Some(session_id) => session_id.clone(),
            None => {
                return changed;
            },
        };
        if selected_is_listed {
            if self.followed_session_id.is_none() {
                self.followed_session_id = Some(session_id);
                return true;
            }
            if !self.follows(session_id.as_str()) {
                self.follow_this_sessions_main_conversation(now_ms);
                return true;
            }
            return changed;
        }
        if find_ended(&self.ended, session_id.as_str()).is_some() {
            self.take_error_from(ErrorSource::Send);
            self.reset_live_follow();
            self.followed_session_id = Some(session_id);
            return true;
        }
        changed
    }

    /// Takes in what a scan that succeeded found, step by step.
    fn apply_listing(&mut self, listing: SessionListing, now_ms: i64) -> (changed: bool)
        requires
            old(self).well_formed(),
        ensures
            final(self).well_formed(),
            (Applied { store: final(self)@, changed }) == all_steps(old(self)@, listing@, now_ms),
    {
        let ghost start = self@;
        let ghost listing_view = listing@;
        let home_directory = Some(listing.home_directory);
        let liveness_unavailable_reason = listing.liveness_unavailable_reason;
        let (new_live, transcript_paths, session_spend) = take_listing_apart(listing.sessions);
        let ghost live = live_views(new_live@);
        let selected_at_scan_start = copy_option(&self.selected);
        let (previous_live, error_gone) = self.scan_begun(now_ms);
        let (rebound, cleared, mut changed) = self.scan_all_listed(
            &new_live,
            &previous_live,
            &selected_at_scan_start,
            error_gone,
            now_ms,
        );
        let ghost listed = Scanning { store: self@, rebound, cleared, changed };
        let any_gone = self.scan_gone(&previous_live, &new_live, now_ms, Ghost(listed));
        changed = changed || any_gone;
        let ghost gone = Scanning { store: self@, rebound, cleared, changed };
        let any_revived = self.scan_revived(&new_live, Ghost(gone));
        changed = changed || any_revived;
        let ghost revived = Scanning { store: self@, rebound, cleared, changed };
        // What the scan listed is asked for here, before the listings of agents add to it.
        let selected_is_listed = match &self.selected {
            Some(selected) => find_live(&new_live, selected.as_str()).is_some(),
            None => false,
        };
        let differs = self.take_listing(
            new_live,
            &previous_live,
            transcript_paths,
            session_spend,
            home_directory,
            liveness_unavailable_reason,
            Ghost(listing_view),
            Ghost(revived),
        );
        changed = changed || differs;
        proof {
            lemma_all_steps(start, listing_view, now_ms);
        }
        self.follow_after_scan(rebound, cleared, selected_is_listed, changed, now_ms, Ghost(live))
    }

    /// Takes in what a scan of the registry found. Says whether something changed.
    pub fn apply_registry_scan(&mut self, scan: Result<SessionListing, String>, now_ms: i64) -> (changed:
        bool)
        requires
            old(self).well_formed(),
        ensures
            final(self).well_formed(),
            (Applied { store: final(self)@, changed }) == old(self)@.with_registry_scan(
                listing_result(scan),
                now_ms,
            ),
            ended_rows_are_kept(final(self)@.ended),
            scan is Ok ==> live_and_ended_are_apart(
                Rows { live: final(self)@.live_sessions, ended: final(self)@.ended },
            ),
            final(self)@.scan_in_flight == old(self)@.scan_in_flight,
    {
        match scan {
            Ok(listing) => {
                proof {
                    reveal(all_steps);
                    lemma_scan_keeps_rows(self@, listing@, now_ms);
                }
                self.apply_listing(listing, now_ms)
            },
            Err(error) => {
                // The previous list is kept: a directory that is momentarily unreadable
                // should not empty the panel.
                let what = joined(joined("Reading ", self.product.as_str()).as_str(), " sessions: ");
                self.report(ErrorSource::Poll, what.as_str(), error.as_str());
                true
            },
        }
    }
}

proof fn lemma_id_of_process(live: Seq<LiveSessionView>, process_id: u32)
    ensures
        id_of_process(live, process_id) is Some ==> has_live(
            live,
            id_of_process(live, process_id)->0,
        ),
    decreases live.len(),
{
    if live.len() > 0 {
        assert(live.last() == live[live.len() - 1]);
        if live.last().session.process_id != process_id {
            lemma_id_of_process(live.drop_last(), process_id);
            if id_of_process(live, process_id) is Some {
                let id = id_of_process(live, process_id)->0;
                let front = live.drop_last();
                let k = choose|k: int|
                    0 <= k < front.len() && (#[trigger] front[k]).session.session_id == id;
                assert(live[k] == front[k]);
            }
        }
    }
}

impl StoreView {
    /// The interval at which a poll runs: longer while nothing of it can be seen.
    pub open spec fn interval(self, visible_interval_ms: u64) -> u64 {
        if self.visible {
            visible_interval_ms
        } else {
            HIDDEN_POLL_INTERVAL_MS
        }
    }

    /// An ended session is still read, but slowly.
    pub open spec fn transcript_interval(self) -> u64 {
        if self.is_selected_ended() {
            HIDDEN_POLL_INTERVAL_MS
        } else {
            self.interval(TRANSCRIPT_POLL_INTERVAL_MS)
        }
    }

    /// The session whose events and status are read: the one that is followed, unless the
    /// selected one has ended.
    pub open spec fn read_session(self) -> Option<Seq<char>> {
        if self.is_selected_ended() {
            None
        } else {
            self.followed
        }
    }

    /// The reads of one turn of the transcript poll: the session's own conversation, and
    /// the agent's while one is on screen, each from where its reading has got to.
    pub open spec fn tail_reads(self) -> Seq<(TranscriptTargetView, Seq<char>, TailStateView)> {
        match self.followed {
            Some(id) => {
                let own = seq![(TranscriptTargetView::Main, id, self.main.state())];
                match (self.transcript_target, self.subagent) {
                    (TranscriptTargetView::Subagent { .. }, Some(subagent)) => own.push(
                        (self.transcript_target, id, subagent.state()),
                    ),
                    _ => own,
                }
            },
            None => Seq::empty(),
        }
    }

    pub open spec fn listed_ids(self) -> Seq<Seq<char>> {
        self.live_sessions.map_values(|live: LiveSessionView| live.session.session_id)
    }

    /// The store once a scan of the registry has been asked for.
    pub open spec fn with_scan_begun(self, now_ms: i64) -> StoreView {
        StoreView {
            scan_in_flight: true,
            registry_scan_started_ms: Some(clock_ms(now_ms)),
            ..self
        }
    }

    /// The store once a scan of the registry has been answered.
    pub open spec fn with_scan_finished(
        self,
        scan: Result<SessionListingView, Seq<char>>,
        now_ms: i64,
    ) -> Applied {
        StoreView {
            scan_in_flight: false,
            registry_scan_started_ms: None,
            ..self
        }.with_registry_scan(scan, now_ms)
    }

    /// The store once the time for a scan is over: one that is still in flight is reported.
    pub open spec fn with_scan_overdue(self) -> Applied {
        if self.scan_in_flight {
            Applied {
                store: self.with_error(
                    ErrorSource::Poll,
                    "the machine these sessions run on"@ + " has not answered in 20 s"@,
                ),
                changed: true,
            }
        } else {
            Applied { store: self, changed: false }
        }
    }
}

pub open spec fn read_views(reads: Seq<(TranscriptTarget, String, TailState)>) -> Seq<
    (TranscriptTargetView, Seq<char>, TailStateView),
> {
    reads.map_values(|read: (TranscriptTarget, String, TailState)| (read.0@, read.1@, read.2@))
}

impl ClaudeSessionStore {
    /// The interval at which a poll runs: longer while nothing of it can be seen.
    pub fn poll_interval_ms(&self, visible_interval_ms: u64) -> (interval: u64)
        ensures
            interval == self@.interval(visible_interval_ms),
    {
        if self.visible {
            visible_interval_ms
        } else {
            HIDDEN_POLL_INTERVAL_MS
        }
    }

    pub fn transcript_interval_ms(&self) -> (interval: u64)
        ensures
            interval == self@.transcript_interval(),
    {
        if self.selected_is_ended() {
            HIDDEN_POLL_INTERVAL_MS
        } else {
            self.poll_interval_ms(TRANSCRIPT_POLL_INTERVAL_MS)
        }
    }

    /// The ids of the sessions that are listed.
    pub fn listed_session_ids(&self) -> (ids: Vec<String>)
        ensures
            texts(ids@) == self@.listed_ids(),
    {
        let ghost all = self@.listed_ids();
        let mut ids: Vec<String> = Vec::new();
        let mut i: usize = 0;
        assert(texts(ids@) =~= all.take(0));
        while i < self.live_sessions.len()
            invariant
                i <= self.live_sessions@.len(),
                all == self@.listed_ids(),
                texts(ids@) == all.take(i as int),
            decreases self.live_sessions@.len() - i,
        {
            let ghost before = ids@;
            let id = self.live_sessions[i].session.session_id.clone();
            assert(all[i as int] == id@);
            ids.push(id);
            assert(texts(ids@) =~= texts(before).push(id@));
            assert(all.take(i + 1) =~= all.take(i as int).push(all[i as int]));
            i = i + 1;
        }
        assert(all.take(i as int) =~= all);
        ids
    }

    /// The session whose status is to be read, if there is one.
    pub fn status_read_request(&self) -> (id: Option<String>)
        ensures
            text_option(id) == self@.read_session(),
    {
        if self.selected_is_ended() {
            None
        } else {
            copy_option(&self.followed_session_id)
        }
    }

    /// The read of the hook events that is to be issued, if there is one.
    pub fn events_read_request(&self) -> (request: Option<(String, TailState)>)
        ensures
            (match request {
                Some(request) => Some((request.0@, request.1@)),
                None => None,
            }) == (match self@.read_session() {
                Some(id) => Some((id, self@.events.state())),
                None => None,
            }),
    {
        match self.status_read_request() {
            Some(id) => Some((id, self.events.state())),
            None => None,
        }
    }

    /// The read of the channel's inbox that is to be issued, if there is one: of which
    /// process, from where, and of which inbox.
    pub fn channel_read_request(&self) -> (request: Option<(u32, TailState, u64)>)
        ensures
            (match request {
                Some(request) => Some((request.0, request.1@, request.2)),
                None => None,
            }) == (match self@.selected_process() {
                Some(claude_pid) => Some(
                    (claude_pid, self@.channel_inbox.state(), self@.channel_inbox.generation),
                ),
                None => None,
            }),
    {
        match self.selected_process_id() {
            Some(claude_pid) => Some(
                (claude_pid, self.channel_inbox.state(), self.channel_inbox.generation),
            ),
            None => None,
        }
    }

    /// Every read one turn of the poll issues: the session's own conversation always,
    /// and the agent's as well while one is on screen. Each state is carried with the
    /// target it belongs to, so a read is never issued for one conversation with the
    /// other's offset — both start at zero, and nothing further down could tell them
    /// apart afterwards.
    pub fn tail_read_requests(&self) -> (requests: Vec<(TranscriptTarget, String, TailState)>)
        ensures
            read_views(requests@) == self@.tail_reads(),
    {
        let mut requests: Vec<(TranscriptTarget, String, TailState)> = Vec::new();
        let session_id = match &self.followed_session_id {
            Some(session_id) => session_id,
            None => {
                assert(read_views(requests@) =~= self@.tail_reads());
                return requests;
            },
        };
        requests.push(
            (TranscriptTarget::Main, session_id.clone(), self.main_conversation.state()),
        );
        if matches!(self.transcript_target, TranscriptTarget::Subagent { .. }) {
            if let Some(conversation) = &self.subagent_conversation {
                requests.push(
                    (
                        self.transcript_target.duplicate(),
                        session_id.clone(),
                        conversation.state(),
                    ),
                );
            }
        }
        assert(read_views(requests@) =~= self@.tail_reads());
        requests
    }

    /// Whether a scan of the registry has been asked for and not been answered yet.
    pub fn scan_in_flight(&self) -> (result: bool)
        ensures
            result == self@.scan_in_flight,
    {
        self.scan_in_flight
    }

    /// Notes that a scan of the registry has been asked for.
    pub(crate) fn begin_registry_scan(&mut self, now_ms: i64)
        requires
            old(self).well_formed(),
        ensures
            final(self).well_formed(),
            final(self)@ == old(self)@.with_scan_begun(now_ms),
    {
        self.scan_in_flight = true;
        self.registry_scan_started_ms = Some(clock_of(now_ms));
    }

    /// Takes in the answer to the scan that was asked for. Says whether something changed.
    pub fn finish_registry_scan(&mut self, scan: Result<SessionListing, String>, now_ms: i64) -> (changed:
        bool)
        requires
            old(self).well_formed(),
        ensures
            final(self).well_formed(),
            (Applied { store: final(self)@, changed }) == old(self)@.with_scan_finished(
                listing_result(scan),
                now_ms,
            ),
            !final(self)@.scan_in_flight,
            ended_rows_are_kept(final(self)@.ended),
            scan is Ok ==> live_and_ended_are_apart(
                Rows { live: final(self)@.live_sessions, ended: final(self)@.ended },
            ),
    {
        self.scan_in_flight = false;
        self.registry_scan_started_ms = None;
        self.apply_registry_scan(scan, now_ms)
    }

    /// Reports a scan that has not been answered in time. Says whether something changed.
    pub fn registry_scan_overdue(&mut self) -> (changed: bool)
        requires
            old(self).well_formed(),
        ensures
            final(self).well_formed(),
            (Applied { store: final(self)@, changed }) == old(self)@.with_scan_overdue(),
            final(self)@.scan_in_flight == old(self)@.scan_in_flight,
    {
        if !self.scan_in_flight {
            return false;
        }
        self.error = Some((ErrorSource::Poll, timeout_message("the machine these sessions run on")));
        true
    }
}

} // verus!
