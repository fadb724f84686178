//! What crosses the wire between the panel and the machine the sessions run on.
//!
//! A remote project's sessions live on the far end of a connection. The far end answers
//! with messages of plain values; what they come to on this side is decided here.
use crate::double::Double;
use crate::session_registry::{
    subagent_views, AgentListing, AgentListingView, HookInstallOutcome, RegisteredSession, RegisteredSessionView,
    SessionSummary, SessionSummaryView, SlashCommand, SlashCommandScope, SubagentMeta, SubagentMetaView, SubagentSummary,
    SubagentSummaryView, TailProgress, TailProgressView, TailState, TailStateView, TranscriptSpend,
};
use crate::session_store::{subagent_map, TranscriptTarget, TranscriptTargetView};
use crate::text::{copy_option, joined, text_option, trim, trimmed};
use crate::text_map::TextMap;
use crate::transcript::texts;
use vstd::prelude::*;

verus! {

/// The prefix of a file that was read, and whether the file went on past it.
pub struct FileContents {
    pub bytes: Vec<u8>,
    pub truncated: bool,
}

/// What one scan reports: the sessions, and the home directory of the machine they were
/// scanned on.
///
/// The home directory travels with the sessions because every path in this listing — and
/// every path in the transcripts it leads to — was written by that machine. A boundary
/// under the home directory can only be checked against the home directory of the machine
/// that produced the path, which for a remote project is not the one this runs under.
pub struct SessionListing {
    pub sessions: Vec<SessionSummary>,
    pub home_directory: String,
    pub liveness_unavailable_reason: Option<String>,
}

/// What a [`SessionListing`] says.
#[verifier::ext_equal]
pub struct SessionListingView {
    pub sessions: Seq<SessionSummaryView>,
    pub home_directory: Seq<char>,
    pub liveness_unavailable_reason: Option<Seq<char>>,
}

pub open spec fn summary_views(sessions: Seq<SessionSummary>) -> Seq<SessionSummaryView> {
    sessions.map_values(|session: SessionSummary| session@)
}

impl View for SessionListing {
    type V = SessionListingView;

    open spec fn view(&self) -> SessionListingView {
        SessionListingView {
            sessions: summary_views(self.sessions@),
            home_directory: self.home_directory@,
            liveness_unavailable_reason: text_option(self.liveness_unavailable_reason),
        }
    }
}

/// What was read of a file whose first bytes were asked for, one more than `max_bytes`.
///
/// The one byte past the cap is what distinguishes a file that goes on from one that
/// happens to be exactly that long.
pub fn file_contents(bytes: Vec<u8>, max_bytes: u64) -> (contents: FileContents)
    ensures
        contents.truncated == (bytes@.len() > max_bytes),
        contents.bytes@ == (if bytes@.len() > max_bytes {
            bytes@.take(max_bytes as int)
        } else {
            bytes@
        }),
{
    let mut bytes = bytes;
    let truncated = bytes.len() as u64 > max_bytes;
    if truncated {
        bytes.truncate(max_bytes as usize);
    }
    FileContents { bytes, truncated }
}

/// Paths cross the wire as strings, the way the remote server already sends them back.
pub fn path_to_wire(path: &str) -> (wire: String)
    ensures
        wire@ == path@,
{
    path.to_owned()
}

/// A listed session as the far end sends it.
#[derive(Debug, PartialEq, Eq)]
pub struct WireSession {
    pub process_id: u32,
    pub session_id: String,
    pub working_directory: String,
    pub version: String,
    pub name: Option<String>,
    pub status: Option<String>,
    pub updated_at: Option<i64>,
    pub tmux_target: Option<String>,
    pub transcript_path: Option<String>,
    pub context_tokens: u64,
    pub total_cost_usd: Option<Double>,
    pub bridge_session_id: Option<String>,
}

/// What a [`WireSession`] says.
pub struct WireSessionView {
    pub process_id: u32,
    pub session_id: Seq<char>,
    pub working_directory: Seq<char>,
    pub version: Seq<char>,
    pub name: Option<Seq<char>>,
    pub status: Option<Seq<char>>,
    pub updated_at: Option<i64>,
    pub tmux_target: Option<Seq<char>>,
    pub transcript_path: Option<Seq<char>>,
    pub context_tokens: u64,
    pub total_cost_usd: Option<Double>,
    pub bridge_session_id: Option<Seq<char>>,
}

impl View for WireSession {
    type V = WireSessionView;

    open spec fn view(&self) -> WireSessionView {
        WireSessionView {
            process_id: self.process_id,
            session_id: self.session_id@,
            working_directory: self.working_directory@,
            version: self.version@,
            name: text_option(self.name),
            status: text_option(self.status),
            updated_at: self.updated_at,
            tmux_target: text_option(self.tmux_target),
            transcript_path: text_option(self.transcript_path),
            context_tokens: self.context_tokens,
            total_cost_usd: self.total_cost_usd,
            bridge_session_id: text_option(self.bridge_session_id),
        }
    }
}

/// The listed session that a message stands for. The start of the process is not sent, and
/// the far end lists interactive sessions only. No context and no cost is nothing spent.
pub open spec fn summary_of_wire(session: WireSessionView) -> SessionSummaryView {
    SessionSummaryView {
        session: RegisteredSessionView {
            process_id: session.process_id,
            session_id: session.session_id,
            working_directory: session.working_directory,
            process_start: Seq::empty(),
            version: session.version,
            kind: "interactive"@,
            name: session.name,
            status: session.status,
            updated_at: session.updated_at,
            tmux_target: session.tmux_target,
            bridge_session_id: session.bridge_session_id,
        },
        transcript_path: session.transcript_path,
        spend: if session.context_tokens > 0 || session.total_cost_usd is Some {
            Some(
                TranscriptSpend {
                    context_tokens: session.context_tokens,
                    total_cost_usd: session.total_cost_usd,
                },
            )
        } else {
            None
        },
    }
}

/// Rebuilds a listed session from what the far end sent.
///
/// Two fields of [`RegisteredSession`] are deliberately absent from the wire message.
/// `process_start` and `kind` exist to decide whether a registration is live and
/// interactive, and that decision has already been made on the machine the process runs
/// on — this side has no pid table to check it against, so a second answer here could
/// only be a worse one. Sending them would widen what the protocol exposes to no
/// reader, so they are filled with what the scan on the far end has already proven:
/// the kind it filtered for, and no process start of our own to claim.
pub fn session_summary_from_proto(session: WireSession) -> (summary: SessionSummary)
    ensures
        summary@ == summary_of_wire(session@),
{
    SessionSummary {
        session: RegisteredSession {
            process_id: session.process_id,
            session_id: session.session_id,
            working_directory: session.working_directory,
            process_start: String::new(),
            version: session.version,
            kind: "interactive".to_owned(),
            name: session.name,
            status: session.status,
            updated_at: session.updated_at,
            tmux_target: session.tmux_target,
            bridge_session_id: session.bridge_session_id,
        },
        transcript_path: session.transcript_path,
        // Zero context means the far end found no answer to read, which is the same
        // thing as having nothing to report.
        spend: if session.context_tokens > 0 || session.total_cost_usd.is_some() {
            Some(
                TranscriptSpend {
                    context_tokens: session.context_tokens,
                    total_cost_usd: session.total_cost_usd,
                },
            )
        } else {
            None
        },
    }
}

/// A scan's result as the far end sends it.
pub struct WireListing {
    pub sessions: Vec<WireSession>,
    pub home_directory: String,
    pub liveness_unavailable_reason: Option<String>,
}

pub open spec fn wire_summaries(sessions: Seq<WireSession>) -> Seq<SessionSummaryView> {
    sessions.map_values(|session: WireSession| summary_of_wire(session@))
}

/// A reason, unless there is nothing in it.
pub open spec fn stated_reason(reason: Option<Seq<char>>) -> Option<Seq<char>> {
    match reason {
        Some(reason) if trimmed(reason).len() > 0 => Some(reason),
        _ => None,
    }
}

/// The scan's result that a message stands for.
pub open spec fn listing_of_wire(response: WireListing) -> SessionListingView {
    SessionListingView {
        sessions: wire_summaries(response.sessions@),
        home_directory: response.home_directory@,
        liveness_unavailable_reason: stated_reason(
            text_option(response.liveness_unavailable_reason),
        ),
    }
}

/// Rebuilds a scan's result from what the far end sent.
///
/// The home directory arrives as part of the listing rather than being read locally,
/// because the paths in the listing were written under the far end's home and nothing on
/// this side can name it.
pub fn session_listing_from_proto(response: WireListing) -> (listing: SessionListing)
    ensures
        listing@ == (SessionListingView {
            sessions: wire_summaries(response.sessions@),
            home_directory: response.home_directory@,
            liveness_unavailable_reason: stated_reason(
                text_option(response.liveness_unavailable_reason),
            ),
        }),
        listing@ == listing_of_wire(response),
{
    let ghost all = response.sessions@;
    let ghost views = wire_summaries(all);
    let mut sessions: Vec<SessionSummary> = Vec::new();
    assert(summary_views(sessions@) =~= views.take(0));
    for session in it: response.sessions
        invariant
            it.seq() == all,
            views == wire_summaries(all),
            summary_views(sessions@) == views.take(it.index()),
    {
        let ghost before = sessions@;
        let summary = session_summary_from_proto(session);
        sessions.push(summary);
        assert(views[it.index()] == summary@);
        assert(summary_views(sessions@) =~= summary_views(before).push(summary@));
        assert(views.take(it.index() + 1) =~= views.take(it.index()).push(summary@));
    }
    assert(views.take(all.len() as int) =~= views);
    // The panel draws this as a row of its own, so a reason with nothing in it would
    // be a blank row saying nothing at all.
    let reason = match response.liveness_unavailable_reason {
        Some(reason) => {
            if trim(reason.as_str()).is_empty() {
                None
            } else {
                Some(reason)
            }
        },
        None => None,
    };
    SessionListing {
        sessions,
        home_directory: response.home_directory,
        liveness_unavailable_reason: reason,
    }
}

/// An agent as the far end sends it.
pub struct WireAgent {
    pub id: Option<String>,
    pub kind: String,
    pub state: Option<String>,
    pub status: Option<String>,
    pub waiting_for: Option<String>,
    pub pid: Option<u32>,
    pub session_id: Option<String>,
    pub name: Option<String>,
    pub cwd: Option<String>,
    pub started_at: Option<i64>,
}

/// The listed agent that a message stands for.
pub open spec fn agent_of_wire(agent: WireAgent) -> AgentListingView {
    AgentListingView {
        id: text_option(agent.id),
        kind: agent.kind@,
        state: text_option(agent.state),
        status: text_option(agent.status),
        waiting_for: text_option(agent.waiting_for),
        process_id: agent.pid,
        session_id: text_option(agent.session_id),
        name: text_option(agent.name),
        working_directory: text_option(agent.cwd),
        started_at: agent.started_at,
    }
}

pub fn agent_listing_from_proto(agent: WireAgent) -> (listing: AgentListing)
    ensures
        listing@ == (AgentListingView {
            id: text_option(agent.id),
            kind: agent.kind@,
            state: text_option(agent.state),
            status: text_option(agent.status),
            waiting_for: text_option(agent.waiting_for),
            process_id: agent.pid,
            session_id: text_option(agent.session_id),
            name: text_option(agent.name),
            working_directory: text_option(agent.cwd),
            started_at: agent.started_at,
        }),
        listing@ == agent_of_wire(agent),
{
    AgentListing {
        id: agent.id,
        kind: agent.kind,
        state: agent.state,
        status: agent.status,
        waiting_for: agent.waiting_for,
        process_id: agent.pid,
        session_id: agent.session_id,
        name: agent.name,
        working_directory: agent.cwd,
        started_at: agent.started_at,
    }
}

/// A subagent as the far end sends it.
pub struct WireSubagent {
    pub agent_id: String,
    pub workflow_run_id: Option<String>,
    pub agent_type: String,
    pub description: Option<String>,
    pub tool_use_id: Option<String>,
    pub spawn_depth: u32,
    pub model: Option<String>,
    pub workflow_phase: Option<String>,
    pub request_shape: Option<String>,
    pub transcript_path: Option<String>,
    pub size: u64,
    pub workflow_agent_finished: Option<bool>,
    pub task_agent_finished: Option<bool>,
}

/// The listed subagent that a message stands for. A path that was not named is empty.
pub open spec fn subagent_of_wire(subagent: WireSubagent) -> SubagentSummaryView {
    SubagentSummaryView {
        agent_id: subagent.agent_id@,
        workflow_run_id: text_option(subagent.workflow_run_id),
        meta: SubagentMetaView {
            agent_type: subagent.agent_type@,
            description: text_option(subagent.description),
            tool_use_id: text_option(subagent.tool_use_id),
            spawn_depth: subagent.spawn_depth,
            model: text_option(subagent.model),
            workflow_phase: text_option(subagent.workflow_phase),
            request_shape: text_option(subagent.request_shape),
        },
        transcript_path: crate::json::text_or_empty(text_option(subagent.transcript_path)),
        size: subagent.size,
        workflow_agent_finished: subagent.workflow_agent_finished,
        task_agent_finished: subagent.task_agent_finished,
    }
}

/// Rebuilds one listed subagent from what the far end sent.
///
/// The meta arrives field by field rather than as the sidecar's JSON, because the far end
/// has already parsed it and a second parse here could only disagree with the machine
/// that holds the file.
pub fn subagent_summary_from_proto(subagent: WireSubagent) -> (summary: SubagentSummary)
    ensures
        summary@ == subagent_of_wire(subagent),
{
    // An empty path stands in for one the far end did not name. Nothing on this side
    // ever opens this path: a subagent's transcript is only ever read by naming the file
    // by the three ids on the machine that holds it. The field is a label the panel may
    // show, so a missing one costs a label rather than a read.
    let transcript_path = match subagent.transcript_path {
        Some(path) => path,
        None => String::new(),
    };
    SubagentSummary {
        agent_id: subagent.agent_id,
        workflow_run_id: subagent.workflow_run_id,
        meta: SubagentMeta {
            agent_type: subagent.agent_type,
            description: subagent.description,
            tool_use_id: subagent.tool_use_id,
            spawn_depth: subagent.spawn_depth,
            model: subagent.model,
            workflow_phase: subagent.workflow_phase,
            request_shape: subagent.request_shape,
        },
        transcript_path,
        size: subagent.size,
        workflow_agent_finished: subagent.workflow_agent_finished,
        task_agent_finished: subagent.task_agent_finished,
    }
}

pub open spec fn wire_subagents(subagents: Seq<WireSubagent>) -> Seq<SubagentSummaryView> {
    subagents.map_values(|subagent: WireSubagent| subagent_of_wire(subagent))
}

/// Rebuilds the subagents of one session from what the far end sent.
pub fn subagents_from_proto(subagents: Vec<WireSubagent>) -> (summaries: Vec<SubagentSummary>)
    ensures
        subagent_views(summaries@) == wire_subagents(subagents@),
{
    let ghost all = subagents@;
    let ghost views = wire_subagents(all);
    let mut summaries: Vec<SubagentSummary> = Vec::new();
    assert(subagent_views(summaries@) =~= views.take(0));
    for subagent in it: subagents
        invariant
            it.seq() == all,
            views == wire_subagents(all),
            subagent_views(summaries@) == views.take(it.index()),
    {
        let ghost before = summaries@;
        let summary = subagent_summary_from_proto(subagent);
        summaries.push(summary);
        assert(views[it.index()] == summary@);
        assert(subagent_views(summaries@) =~= subagent_views(before).push(summary@));
        assert(views.take(it.index() + 1) =~= views.take(it.index()).push(summary@));
    }
    assert(views.take(all.len() as int) =~= views);
    summaries
}

/// The subagents of one session among several, as the far end sends them.
pub struct WireSubagentsOfSession {
    pub session_id: String,
    pub subagents: Vec<WireSubagent>,
}

/// What was asked for, each with nothing.
pub open spec fn nothing_found(session_ids: Seq<String>) -> Map<Seq<char>, Seq<SubagentSummaryView>>
    decreases session_ids.len(),
{
    if session_ids.len() == 0 {
        Map::empty()
    } else {
        nothing_found(session_ids.drop_last()).insert(session_ids.last()@, Seq::empty())
    }
}

/// What was found, in place of what was known before.
pub open spec fn with_found(
    known: Map<Seq<char>, Seq<SubagentSummaryView>>,
    found: Seq<WireSubagentsOfSession>,
) -> Map<Seq<char>, Seq<SubagentSummaryView>>
    decreases found.len(),
{
    if found.len() == 0 {
        known
    } else {
        with_found(known, found.drop_last()).insert(
            found.last().session_id@,
            wire_subagents(found.last().subagents@),
        )
    }
}

/// Rebuilds the subagents of several sessions from what the far end sent. Every id asked
/// for is in the result, with an empty list where nothing was found.
pub fn subagents_by_session_from_proto(
    session_ids: Vec<String>,
    by_session: Vec<WireSubagentsOfSession>,
) -> (subagents: TextMap<Vec<SubagentSummary>>)
    ensures
        subagent_map(subagents@) == with_found(nothing_found(session_ids@), by_session@),
{
    let ghost ids = session_ids@;
    let ghost found = by_session@;
    let mut subagents: TextMap<Vec<SubagentSummary>> = TextMap::new();
    assert(subagent_map(subagents@) =~= Map::empty());
    for session_id in it: session_ids
        invariant
            it.seq() == ids,
            subagent_map(subagents@) == nothing_found(ids.take(it.index())),
    {
        proof {
            assert(ids.take(it.index() + 1).drop_last() =~= ids.take(it.index()));
            assert(ids.take(it.index() + 1).last() == session_id);
        }
        let ghost before = subagents@;
        let none: Vec<SubagentSummary> = Vec::new();
        subagents.insert(session_id, none);
        assert(subagent_views(none@) =~= Seq::empty());
        assert(subagent_map(subagents@) =~= subagent_map(before).insert(
            session_id@,
            Seq::empty(),
        ));
    }
    assert(ids.take(ids.len() as int) =~= ids);
    assert(found.take(0) =~= Seq::empty());
    for of_session in it: by_session
        invariant
            it.seq() == found,
            subagent_map(subagents@) == with_found(nothing_found(ids), found.take(it.index())),
    {
        proof {
            assert(found.take(it.index() + 1).drop_last() =~= found.take(it.index()));
            assert(found.take(it.index() + 1).last() == of_session);
        }
        let ghost before = subagents@;
        let summaries = subagents_from_proto(of_session.subagents);
        subagents.insert(of_session.session_id, summaries);
        assert(subagent_map(subagents@) =~= subagent_map(before).insert(
            of_session.session_id@,
            subagent_views(summaries@),
        ));
    }
    assert(found.take(found.len() as int) =~= found);
    subagents
}

/// Every session that was asked for is answered for.
pub proof fn lemma_every_session_is_answered_for(
    session_ids: Seq<String>,
    found: Seq<WireSubagentsOfSession>,
    k: int,
)
    requires
        0 <= k < session_ids.len(),
    ensures
        with_found(nothing_found(session_ids), found).contains_key(session_ids[k]@),
    decreases session_ids.len() + found.len(),
{
    if found.len() > 0 {
        lemma_every_session_is_answered_for(session_ids, found.drop_last(), k);
    } else if k < session_ids.len() - 1 {
        lemma_every_session_is_answered_for(session_ids.drop_last(), found, k);
        assert(session_ids.drop_last()[k] == session_ids[k]);
    }
}

/// A read of the end of a file as the far end sends it: of a transcript, of the hook
/// events, or of a channel's inbox.
pub struct WireTail {
    pub path: Option<String>,
    pub start_offset: u64,
    pub offset: u64,
    pub pending: Vec<u8>,
    pub lines: Vec<String>,
    pub restarted: bool,
}

/// The read that a message stands for.
pub open spec fn tail_of_wire(response: WireTail) -> TailProgressView {
    TailProgressView {
        path: text_option(response.path),
        start_offset: response.start_offset,
        offset: response.offset,
        pending: response.pending@,
        lines: texts(response.lines@),
        restarted: response.restarted,
    }
}

pub fn tail_progress_from_proto(response: WireTail) -> (progress: TailProgress)
    ensures
        progress@ == (TailProgressView {
            path: text_option(response.path),
            start_offset: response.start_offset,
            offset: response.offset,
            pending: response.pending@,
            lines: texts(response.lines@),
            restarted: response.restarted,
        }),
        progress@ == tail_of_wire(response),
{
    TailProgress {
        path: response.path,
        start_offset: response.start_offset,
        offset: response.offset,
        pending: response.pending,
        lines: response.lines,
        restarted: response.restarted,
    }
}

/// A read of a conversation as it is asked of the far end.
#[derive(Debug, PartialEq, Eq)]
pub struct WireTailRequest {
    pub session_id: String,
    pub path: Option<String>,
    pub offset: u64,
    pub pending: Vec<u8>,
    pub agent_id: Option<String>,
    pub workflow_run_id: Option<String>,
}

/// Whether a message asks for the read of a conversation from where its reading has got to.
pub open spec fn asks_for(
    request: WireTailRequest,
    target: TranscriptTargetView,
    session_id: Seq<char>,
    state: TailStateView,
) -> bool {
    &&& request.session_id@ == session_id
    &&& request.offset == state.offset
    &&& request.pending@ == state.pending
    &&& match target {
        TranscriptTargetView::Main => text_option(request.path) == state.path
            && request.agent_id is None && request.workflow_run_id is None,
        TranscriptTargetView::Subagent { agent_id, workflow_run_id } => request.path is None
            && text_option(request.agent_id) == Some(agent_id) && text_option(
            request.workflow_run_id,
        ) == workflow_run_id,
    }
}

/// What is asked of the far end for a read of a conversation.
///
/// The main conversation is what an absent agent id asks for. For an agent no path is sent
/// at all: the far end names the agent's transcript from the ids, and a path from this side
/// is not evidence of anything it should open.
pub fn tail_request(target: &TranscriptTarget, session_id: String, state: TailState) -> (request:
    WireTailRequest)
    ensures
        request.session_id == session_id,
        request.offset == state.offset,
        request.pending == state.pending,
        match target@ {
            TranscriptTargetView::Main => text_option(request.path) == text_option(state.path)
                && request.agent_id is None && request.workflow_run_id is None,
            TranscriptTargetView::Subagent { agent_id, workflow_run_id } => request.path is None
                && text_option(request.agent_id) == Some(agent_id) && text_option(
                request.workflow_run_id,
            ) == workflow_run_id,
        },
        asks_for(request, target@, session_id@, state@),
{
    match target {
        TranscriptTarget::Main => WireTailRequest {
            session_id,
            path: state.path,
            offset: state.offset,
            pending: state.pending,
            agent_id: None,
            workflow_run_id: None,
        },
        TranscriptTarget::Subagent { agent_id, workflow_run_id } => WireTailRequest {
            session_id,
            path: None,
            offset: state.offset,
            pending: state.pending,
            agent_id: Some(agent_id.clone()),
            workflow_run_id: copy_option(workflow_run_id),
        },
    }
}

/// What installing the hooks came to, as the far end sends it.
#[derive(Clone, Copy, Debug, PartialEq, Eq, Structural)]
pub enum WireHookOutcome {
    AlreadyCurrent,
    Installed,
    ScriptsRefreshed,
    /// An outcome that this side does not know.
    Other,
}

/// What the far end says that installing the hooks came to; an outcome that is not known is
/// one that changed nothing.
pub open spec fn hook_outcome_of(
    outcome: WireHookOutcome,
    backup_path: Option<String>,
) -> HookInstallOutcome {
    match outcome {
        WireHookOutcome::ScriptsRefreshed => HookInstallOutcome::ScriptsRefreshed,
        WireHookOutcome::Installed => HookInstallOutcome::Installed { backup_path },
        _ => HookInstallOutcome::AlreadyCurrent,
    }
}

pub fn hook_install_outcome_from_proto(
    outcome: WireHookOutcome,
    backup_path: Option<String>,
) -> (result: HookInstallOutcome)
    ensures
        match outcome {
            WireHookOutcome::ScriptsRefreshed => result == HookInstallOutcome::ScriptsRefreshed,
            WireHookOutcome::Installed => result == (HookInstallOutcome::Installed { backup_path }),
            _ => result == HookInstallOutcome::AlreadyCurrent,
        },
        result == hook_outcome_of(outcome, backup_path),
{
    match outcome {
        WireHookOutcome::ScriptsRefreshed => HookInstallOutcome::ScriptsRefreshed,
        WireHookOutcome::Installed => HookInstallOutcome::Installed { backup_path },
        _ => HookInstallOutcome::AlreadyCurrent,
    }
}

/// Where a slash command comes from, by the number it is sent under.
pub open spec fn scope_of(scope: i32) -> SlashCommandScope {
    if scope == 1 {
        SlashCommandScope::Project
    } else if scope == 2 {
        SlashCommandScope::User
    } else {
        SlashCommandScope::Builtin
    }
}

/// Where a slash command comes from, by the number it is sent under. A scope this version
/// has never seen says nothing about where the command came from, which is what `Builtin`
/// says.
pub fn slash_command_scope(scope: i32) -> (result: SlashCommandScope)
    ensures
        result == scope_of(scope),
{
    if scope == 1 {
        SlashCommandScope::Project
    } else if scope == 2 {
        SlashCommandScope::User
    } else {
        SlashCommandScope::Builtin
    }
}

/// A slash command as the far end sends it.
pub struct WireSlashCommand {
    pub name: String,
    pub description: Option<String>,
    pub argument_hint: Option<String>,
    pub scope: i32,
}

/// Whether a command is the one that a message stands for.
pub open spec fn is_command_of_wire(command: SlashCommand, wire: WireSlashCommand) -> bool {
    &&& command.name@ == wire.name@
    &&& text_option(command.description) == text_option(wire.description)
    &&& text_option(command.argument_hint) == text_option(wire.argument_hint)
    &&& command.scope == scope_of(wire.scope)
}

/// Rebuilds the slash commands from what the far end sent, in the order they were sent in.
pub fn slash_commands_from_proto(commands: Vec<WireSlashCommand>) -> (result: Vec<SlashCommand>)
    ensures
        result@.len() == commands@.len(),
        forall|k: int|
            0 <= k < result@.len() ==> is_command_of_wire(#[trigger] result@[k], commands@[k]),
{
    let ghost all = commands@;
    let mut result: Vec<SlashCommand> = Vec::new();
    for command in it: commands
        invariant
            it.seq() == all,
            result@.len() == it.index(),
            forall|k: int|
                0 <= k < result@.len() ==> is_command_of_wire(#[trigger] result@[k], all[k]),
    {
        result.push(
            SlashCommand {
                name: command.name,
                description: command.description,
                argument_hint: command.argument_hint,
                scope: slash_command_scope(command.scope),
            },
        );
    }
    result
}

/// Why a file may not be read, if it may not.
pub open spec fn refusal_of_attachment(
    session_id: Seq<char>,
    path: Seq<char>,
    is_registered: bool,
    is_readable: bool,
) -> Option<Seq<char>> {
    if !is_registered {
        Some("no session is registered as "@ + session_id)
    } else if !is_readable {
        Some(path + (" is outside the working directory of session "@ + session_id))
    } else {
        None
    }
}

/// Why a file that a session was sent may not be read, if it may not: the session has to be
/// a registered one, and the file readable from where it works.
pub fn attachment_refusal(
    session_id: &str,
    path: &str,
    is_registered: bool,
    is_readable: bool,
) -> (refusal: Option<String>)
    ensures
        text_option(refusal) == (if !is_registered {
            Some("no session is registered as "@ + session_id@)
        } else if !is_readable {
            Some(path@ + (" is outside the working directory of session "@ + session_id@))
        } else {
            None
        }),
        text_option(refusal) == refusal_of_attachment(session_id@, path@, is_registered, is_readable),
{
    if !is_registered {
        Some(joined("no session is registered as ", session_id))
    } else if !is_readable {
        let rest = joined(" is outside the working directory of session ", session_id);
        Some(joined(path, rest.as_str()))
    } else {
        None
    }
}

} // verus!
