//! What values say is what they hold.
use crate::live_state::{HookEvent, LiveMessage, LiveState, PendingQuestion, PermissionRequest, RunningTool, StatusSnapshot};
use crate::session_registry::{
    AgentListing, ChannelStatus, RegisteredSession, SessionSummary, SubagentSummary, TailProgress, TailState,
};
use crate::session_rows::{EndedSession, LiveSession};
use crate::session_source::{SessionListing, WireSession};
use crate::session_store::{
    channel_option, channel_result, error_option, flag_result, listing_result, listings_result, outcome_view,
    progress_result, stale_option, status_result, ChannelRequest, ErrorSource, TranscriptTarget,
};
use crate::terminal_anchors::{AnchorRow, Anchoring, ScreenRow, TranscriptAnchor};
use crate::text::text_option;
use crate::transcript::{str_option, CompactMetadata, ReportedCost, Spend, TranscriptRecord};
use vstd::prelude::*;

verus! {

/// An answer is taken as it was given: what was found as found, what went wrong as wrong.
pub proof fn lemma_answers_are_taken_as_given(
    progress: TailProgress,
    listing: SessionListing,
    listings: Vec<AgentListing>,
    status: ChannelStatus,
    request: ChannelRequest,
    flag: bool,
    text: String,
    source: ErrorSource,
)
    ensures
        progress_result(Ok(progress)) == Ok::<_, Seq<char>>(progress@),
        progress_result(Err(text)) == Err::<crate::session_registry::TailProgressView, _>(text@),
        listing_result(Ok(listing)) == Ok::<_, Seq<char>>(listing@),
        listing_result(Err(text)) == Err::<crate::session_source::SessionListingView, _>(text@),
        listings_result(Ok(listings)) is Ok,
        listings_result(Ok(listings))->Ok_0.len() == listings@.len(),
        forall|k: int|
            0 <= k < listings@.len() ==> #[trigger] listings_result(Ok(listings))->Ok_0[k]
                == listings@[k]@,
        listings_result(Err(text)) == Err::<Seq<crate::session_registry::AgentListingView>, _>(
            text@,
        ),
        channel_result(Ok(status)) == Ok::<_, Seq<char>>(status@),
        channel_result(Err(text)) == Err::<crate::session_registry::ChannelStatusView, _>(text@),
        flag_result(Ok(flag)) == Ok::<_, Seq<char>>(flag),
        flag_result(Err(text)) == Err::<bool, _>(text@),
        status_result(None) is None,
        status_result(Some(Ok(Some(text)))) == Some(Ok::<_, Seq<char>>(Some(text@))),
        status_result(Some(Ok(None))) == Some(Ok::<Option<Seq<char>>, Seq<char>>(None)),
        status_result(Some(Err(text))) == Some(Err::<Option<Seq<char>>, _>(text@)),
        outcome_view(Ok(request)) == Ok::<_, Seq<char>>(request@),
        outcome_view(Err(text)) == Err::<crate::session_store::ChannelRequestView, _>(text@),
        channel_option(Some(&status)) == Some(status@),
        channel_option(None) is None,
        stale_option(None) is None,
        error_option(Some((source, text))) == Some((source, text@)),
        error_option(None) is None,
        text_option(Some(text)) == Some(text@),
        text_option(None) is None,
        str_option(None) is None,
{
}

/// A session says what it is registered with.
pub proof fn lemma_sessions_say_what_they_hold(
    session: RegisteredSession,
    summary: SessionSummary,
    live: LiveSession,
    ended: EndedSession,
)
    ensures
        session@.process_id == session.process_id && session@.session_id == session.session_id@,
        session@.working_directory == session.working_directory@,
        session@.process_start == session.process_start@ && session@.version == session.version@,
        session@.kind == session.kind@ && session@.name == text_option(session.name),
        session@.status == text_option(session.status) && session@.updated_at
            == session.updated_at,
        session@.tmux_target == text_option(session.tmux_target),
        session@.bridge_session_id == text_option(session.bridge_session_id),
        summary@.session == summary.session@ && summary@.spend == summary.spend,
        summary@.transcript_path == text_option(summary.transcript_path),
        live@.session == live.session@ && live@.background == live.background,
        live@.agent_id == text_option(live.agent_id) && live@.state == text_option(live.state),
        live@.waiting_for == text_option(live.waiting_for),
        ended@.session_id == ended.session_id@ && ended@.name == text_option(ended.name),
        ended@.ai_title == text_option(ended.ai_title) && ended@.cwd == ended.cwd@,
        ended@.tmux == text_option(ended.tmux),
        ended@.bridge_session_id == text_option(ended.bridge_session_id),
        ended@.transcript_path == text_option(ended.transcript_path),
        ended@.last_seen_ms == ended.last_seen_ms && ended@.ended_reason == ended.ended_reason,
{
}

/// What is listed, read and sent says what it holds.
pub proof fn lemma_listings_say_what_they_hold(
    listing: SessionListing,
    sent: WireSession,
    agent: AgentListing,
    channel: ChannelStatus,
    subagent: SubagentSummary,
    state: TailState,
    progress: TailProgress,
)
    ensures
        listing@.home_directory == listing.home_directory@,
        listing@.liveness_unavailable_reason == text_option(listing.liveness_unavailable_reason),
        listing@.sessions.len() == listing.sessions@.len(),
        sent@.process_id == sent.process_id && sent@.session_id == sent.session_id@,
        sent@.working_directory == sent.working_directory@ && sent@.version == sent.version@,
        sent@.name == text_option(sent.name) && sent@.status == text_option(sent.status),
        sent@.updated_at == sent.updated_at && sent@.tmux_target == text_option(sent.tmux_target),
        sent@.transcript_path == text_option(sent.transcript_path),
        sent@.context_tokens == sent.context_tokens && sent@.total_cost_usd == sent.total_cost_usd,
        sent@.bridge_session_id == text_option(sent.bridge_session_id),
        agent@.id == text_option(agent.id) && agent@.kind == agent.kind@,
        agent@.state == text_option(agent.state) && agent@.status == text_option(agent.status),
        agent@.waiting_for == text_option(agent.waiting_for),
        agent@.process_id == agent.process_id && agent@.session_id == text_option(
            agent.session_id,
        ),
        agent@.name == text_option(agent.name) && agent@.started_at == agent.started_at,
        agent@.working_directory == text_option(agent.working_directory),
        channel@.live == channel.live && channel@.heartbeat_at_ms == channel.heartbeat_at_ms,
        channel@.server_pid == channel.server_pid,
        channel@.features.len() == channel.features@.len(),
        forall|k: int|
            0 <= k < channel.features@.len() ==> #[trigger] channel@.features[k]
                == channel.features@[k]@,
        subagent@.agent_id == subagent.agent_id@ && subagent@.size == subagent.size,
        subagent@.workflow_run_id == text_option(subagent.workflow_run_id),
        subagent@.transcript_path == subagent.transcript_path@,
        subagent@.workflow_agent_finished == subagent.workflow_agent_finished,
        subagent@.task_agent_finished == subagent.task_agent_finished,
        subagent@.meta.agent_type == subagent.meta.agent_type@,
        subagent@.meta.description == text_option(subagent.meta.description),
        subagent@.meta.tool_use_id == text_option(subagent.meta.tool_use_id),
        subagent@.meta.spawn_depth == subagent.meta.spawn_depth,
        subagent@.meta.model == text_option(subagent.meta.model),
        subagent@.meta.workflow_phase == text_option(subagent.meta.workflow_phase),
        subagent@.meta.request_shape == text_option(subagent.meta.request_shape),
        state@.path == text_option(state.path) && state@.offset == state.offset && state@.pending
            == state.pending@,
        progress@.path == text_option(progress.path) && progress@.offset == progress.offset,
        progress@.start_offset == progress.start_offset && progress@.pending == progress.pending@,
        progress@.restarted == progress.restarted,
        progress@.lines.len() == progress.lines@.len(),
        forall|k: int|
            0 <= k < progress.lines@.len() ==> #[trigger] progress@.lines[k] == progress.lines@[k]@,
{
}

/// What is known of a session's activity says what it holds.
pub proof fn lemma_activity_says_what_it_holds(
    event: HookEvent,
    message: LiveMessage,
    tool: RunningTool,
    permission: PermissionRequest,
    question: PendingQuestion,
    state: LiveState,
    status: StatusSnapshot,
)
    ensures
        event@.received_at_ms == event.received_at_ms && event@.name == event.name@,
        event@.session_id == event.session_id@ && event@.raw == event.raw@,
        event@.permission_mode == text_option(event.permission_mode),
        event@.tool_use_id == text_option(event.tool_use_id),
        event@.tool_name == text_option(event.tool_name),
        event.tool_input is None ==> event@.tool_input is None,
        event.tool_input is Some ==> event@.tool_input == Some(event.tool_input->0@),
        message@.turn_id == text_option(message.turn_id) && message@.text == message.text@,
        message@.message_id == text_option(message.message_id),
        message@.is_final == message.is_final && message@.updated_at_ms == message.updated_at_ms,
        tool@.tool_use_id == tool.tool_use_id@ && tool@.name == tool.name@,
        tool@.input == tool.input@ && tool@.started_at_ms == tool.started_at_ms,
        permission@.tool_use_id == permission.tool_use_id@,
        permission@.tool_name == permission.tool_name@,
        permission@.tool_input == permission.tool_input@ && permission@.since_ms
            == permission.since_ms,
        question@.tool_use_id == question.tool_use_id@ && question@.since_ms == question.since_ms,
        question@.questions == question.questions@,
        state@.live_message is Some <==> state.live_message is Some,
        state.live_message is Some ==> state@.live_message->0 == state.live_message->0@,
        state@.pending_permission is Some <==> state.pending_permission is Some,
        state.pending_permission is Some ==> state@.pending_permission->0
            == state.pending_permission->0@,
        state@.pending_question is Some <==> state.pending_question is Some,
        state.pending_question is Some ==> state@.pending_question->0 == state.pending_question->0@,
        state@.running_tools.len() == state.running_tools@.len(),
        forall|k: int|
            0 <= k < state.running_tools@.len() ==> #[trigger] state@.running_tools[k]
                == state.running_tools@[k]@,
        state@.permission_mode == text_option(state.permission_mode),
        state@.turn == state.turn && state@.compacting == state.compacting,
        state@.last_event_at_ms == state.last_event_at_ms && state@.session_ended
            == state.session_ended,
        state.last_notification is None ==> state@.last_notification is None,
        state.last_notification is Some ==> state@.last_notification == Some(
            ((state.last_notification->0).0@, (state.last_notification->0).1),
        ),
        status@.model_id == text_option(status.model_id),
        status@.model_display_name == text_option(status.model_display_name),
        status@.context_window_size == status.context_window_size,
        status@.context_used_percentage == status.context_used_percentage,
        status@.total_input_tokens == status.total_input_tokens,
        status@.total_output_tokens == status.total_output_tokens,
        status@.total_cost_usd == status.total_cost_usd,
        status@.effort == text_option(status.effort),
        status@.five_hour_used_percentage == status.five_hour_used_percentage,
        status@.five_hour_resets_at == status.five_hour_resets_at,
        status@.seven_day_used_percentage == status.seven_day_used_percentage,
        status@.seven_day_resets_at == status.seven_day_resets_at,
        status@.exceeds_200k_tokens == status.exceeds_200k_tokens,
{
}

/// A record, what was spent, and the rows of a screen say what they hold.
pub proof fn lemma_records_say_what_they_hold(
    metadata: CompactMetadata,
    record: TranscriptRecord,
    cost: ReportedCost,
    spend: Spend,
    target: TranscriptTarget,
    screen: ScreenRow,
    anchor: AnchorRow,
    message: TranscriptAnchor,
    anchoring: Anchoring,
)
    ensures
        metadata@.trigger == metadata.trigger@ && metadata@.pre_tokens == metadata.pre_tokens,
        metadata@.post_tokens == metadata.post_tokens,
        record@.uuid == text_option(record.uuid) && record@.record_type == record.record_type@,
        record@.parent_uuid == text_option(record.parent_uuid),
        record@.logical_parent_uuid == text_option(record.logical_parent_uuid),
        record@.is_sidechain == record.is_sidechain && record@.subtype == text_option(
            record.subtype,
        ),
        record@.is_compact_summary == record.is_compact_summary && record@.raw == record.raw@,
        record@.compact_metadata is Some <==> record.compact_metadata is Some,
        record.compact_metadata is Some ==> record@.compact_metadata->0
            == record.compact_metadata->0@,
        cost@.total_usd == cost.total_usd && cost@.has_unknown_model_cost
            == cost.has_unknown_model_cost,
        cost@.api_duration_ms == cost.api_duration_ms && cost@.tool_duration_ms
            == cost.tool_duration_ms,
        cost@.lines_added == cost.lines_added && cost@.lines_removed == cost.lines_removed,
        cost@.model_usage.len() == cost.model_usage@.len(),
        forall|k: int|
            0 <= k < cost.model_usage@.len() ==> (#[trigger] cost@.model_usage[k]).0
                == cost.model_usage@[k].0@ && cost@.model_usage[k].1 == cost.model_usage@[k].1,
        spend@.usage == spend.usage && spend@.answers == spend.answers,
        spend@.reported is Some <==> spend.reported is Some,
        spend.reported is Some ==> spend@.reported->0 == spend.reported->0@,
        spend@.context_tokens == spend.context_tokens,
        spend@.context_is_post_compaction == spend.context_is_post_compaction,
        spend@.model == text_option(spend.model) && spend@.effort == text_option(spend.effort),
        target is Main <==> target@ is Main,
        target is Subagent ==> target@->agent_id == target->agent_id@ && target@->workflow_run_id
            == text_option(target->workflow_run_id),
        screen@.row == screen.row && screen@.text == screen.text@,
        anchor@.row == anchor.row && anchor@.glyph == anchor.glyph && anchor@.text == anchor.text@,
        message@.key == message.key@ && message@.glyph == message.glyph && message@.text
            == message.text@,
        anchoring@.row == anchoring.row && anchoring@.key == anchoring.key@,
{
}

} // verus!
