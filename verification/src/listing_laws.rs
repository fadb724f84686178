//! What holds of the sessions of a machine, as they are registered, shown and sent.
use crate::json::JsonView;
use crate::paths::is_within;
use crate::session_registry::{
    is_in_project, is_shown, liveness_of, registration_of, shown_before, shown_sessions, Liveness, RegisteredSession,
    RegisteredSessionView, SlashCommand, SlashCommandScope, SubagentSummaryView, TailStateView,
};
use crate::session_source::{
    agent_of_wire, asks_for, hook_outcome_of, is_command_of_wire, listing_of_wire, nothing_found, refusal_of_attachment, scope_of, stated_reason,
    subagent_of_wire, summary_of_wire, tail_of_wire, wire_subagents, with_found, WireAgent, WireHookOutcome, WireListing, WireSessionView, WireSlashCommand, WireSubagent, WireSubagentsOfSession, WireTail,
    WireTailRequest,
};
use crate::session_store::TranscriptTargetView;
use crate::text::{text_before, trimmed};
use crate::transcript_laws::{is_nothing, is_text_of, may_be_text, part};
use vstd::prelude::*;

verus! {

/// Whether a field says a text.
pub open spec fn is_text(part: Option<JsonView>) -> bool {
    part is Some && part->0 is Text
}

/// A value is a registration exactly where it says what every session has, and what else it
/// says is of the kind that belongs there. The registration then says what the value says.
pub proof fn lemma_registration_says_what_its_value_says(value: JsonView)
    ensures
        ({
            let pid = part(value, "pid"@, 0);
            let time = part(value, "updatedAt"@, 8);
            registration_of(value) is Some <==> {
                &&& value is Object || value is List && value->List_0.len() <= 11
                &&& pid is Some && pid->0 is Number && pid->0->Number_0.unsigned is Some
                    && pid->0->Number_0.unsigned->0 <= u32::MAX
                &&& is_text(part(value, "sessionId"@, 1))
                &&& is_text(part(value, "cwd"@, 2))
                &&& is_text(part(value, "procStart"@, 3))
                &&& is_text(part(value, "version"@, 4))
                &&& is_text(part(value, "kind"@, 5))
                &&& may_be_text(part(value, "name"@, 6))
                &&& may_be_text(part(value, "status"@, 7))
                &&& is_nothing(time) || time->0 is Number && time->0->Number_0.signed is Some
                &&& may_be_text(part(value, "tmux"@, 9))
                &&& may_be_text(part(value, "bridgeSessionId"@, 10))
            }
        }),
        registration_of(value) matches Some(session) ==> {
            let time = part(value, "updatedAt"@, 8);
            &&& session.process_id == part(value, "pid"@, 0)->0->Number_0.unsigned->0
            &&& part(value, "sessionId"@, 1) == Some(JsonView::Text(session.session_id))
            &&& part(value, "cwd"@, 2) == Some(JsonView::Text(session.working_directory))
            &&& part(value, "procStart"@, 3) == Some(JsonView::Text(session.process_start))
            &&& part(value, "version"@, 4) == Some(JsonView::Text(session.version))
            &&& part(value, "kind"@, 5) == Some(JsonView::Text(session.kind))
            &&& is_text_of(session.name, part(value, "name"@, 6))
            &&& is_text_of(session.status, part(value, "status"@, 7))
            &&& is_nothing(time) ==> session.updated_at is None
            &&& !is_nothing(time) ==> session.updated_at == time->0->Number_0.signed
            &&& is_text_of(session.tmux_target, part(value, "tmux"@, 9))
            &&& is_text_of(session.bridge_session_id, part(value, "bridgeSessionId"@, 10))
        },
{
}

/// A session is live exactly while its process runs, is the one that it was registered with,
/// and was not silent for longer than allowed; one that never said when it was updated is not
/// silent, and no silence is longer than the longest time. Else the first of these that fails is
/// the reason.
pub proof fn lemma_when_a_session_is_live(
    session: RegisteredSessionView,
    now_millis: i64,
    stale_after_millis: i64,
    start: Option<Seq<char>>,
)
    ensures
        ({
            let silent = session.updated_at is Some && stale_after_millis < i64::MAX && now_millis
                - session.updated_at->0 > stale_after_millis;
            let liveness = liveness_of(session, now_millis, stale_after_millis, start);
            &&& liveness is ProcessGone <==> start is None
            &&& liveness is PidReused <==> start is Some && start->0 != session.process_start
            &&& liveness is StaleHeartbeat <==> start == Some(session.process_start) && silent
            &&& liveness is Live <==> start == Some(session.process_start) && !silent
        }),
{
}

/// The shown sessions of two runs are those of the first and behind them those of the second;
/// one is shown exactly where it is interactive and live.
pub proof fn lemma_live_interactive_sessions_are_shown(
    first: Seq<RegisteredSession>,
    first_starts: Seq<Option<String>>,
    second: Seq<RegisteredSession>,
    second_starts: Seq<Option<String>>,
    session: RegisteredSession,
    start: Option<String>,
    now_millis: i64,
    stale_after_millis: i64,
)
    requires
        first.len() == first_starts.len(),
        second.len() == second_starts.len(),
    ensures
        shown_sessions(first + second, first_starts + second_starts, now_millis, stale_after_millis)
            == shown_sessions(first, first_starts, now_millis, stale_after_millis)
            + shown_sessions(second, second_starts, now_millis, stale_after_millis),
        ({
            let shown = shown_sessions(
                seq![session],
                seq![start],
                now_millis,
                stale_after_millis,
            );
            let live = session@.kind == "interactive"@ && liveness_of(
                session@,
                now_millis,
                stale_after_millis,
                crate::text::text_option(start),
            ) == Liveness::Live;
            &&& live ==> shown == seq![session@]
            &&& !live ==> shown.len() == 0
            &&& live <==> is_shown(
                session@,
                now_millis,
                stale_after_millis,
                crate::text::text_option(start),
            )
        }),
    decreases second.len(),
{
    if second.len() > 0 {
        lemma_live_interactive_sessions_are_shown(
            first,
            first_starts,
            second.drop_last(),
            second_starts.drop_last(),
            session,
            start,
            now_millis,
            stale_after_millis,
        );
        assert((first + second).drop_last() =~= first + second.drop_last());
        assert((first_starts + second_starts).drop_last() =~= first_starts
            + second_starts.drop_last());
        assert((first_starts + second_starts).last() == second_starts.last());
        assert(shown_sessions(
            first + second,
            first_starts + second_starts,
            now_millis,
            stale_after_millis,
        ) =~= shown_sessions(first, first_starts, now_millis, stale_after_millis) + shown_sessions(
            second,
            second_starts,
            now_millis,
            stale_after_millis,
        ));
    } else {
        assert(first + second =~= first);
        assert(first_starts + second_starts =~= first_starts);
        assert(shown_sessions(first, first_starts, now_millis, stale_after_millis)
            + shown_sessions(second, second_starts, now_millis, stale_after_millis)
            =~= shown_sessions(first, first_starts, now_millis, stale_after_millis));
    }
    let one = seq![session];
    let one_start = seq![start];
    assert(one.drop_last() =~= Seq::empty());
    assert(shown_sessions(one.drop_last(), one_start.drop_last(), now_millis, stale_after_millis)
        =~= Seq::empty());
    assert(shown_sessions(one, one_start, now_millis, stale_after_millis) =~= (if is_shown(
        session@,
        now_millis,
        stale_after_millis,
        crate::text::text_option(start),
    ) {
        seq![session@]
    } else {
        Seq::empty()
    }));
}

/// The project's own sessions stand before the others; among them those without a name come
/// first, then they go by their names, and those of one name by their processes.
pub proof fn lemma_how_sessions_are_ordered(
    a: RegisteredSessionView,
    b: RegisteredSessionView,
    root: Option<Seq<char>>,
)
    ensures
        ({
            let a_own = root is Some && is_within(a.working_directory, root->0);
            let b_own = root is Some && is_within(b.working_directory, root->0);
            let before = shown_before(root);
            &&& a_own == is_in_project(a, root)
            &&& a_own && !b_own ==> before(a, b) && !before(b, a)
            &&& a_own == b_own && a.name is None && b.name is Some && b.name->0.len() > 0 ==> before(
                a,
                b,
            ) && !before(b, a)
            &&& a_own == b_own && a.name is Some && b.name is Some && text_before(
                a.name->0,
                b.name->0,
            ) ==> before(a, b)
            &&& a_own == b_own && a.name == b.name ==> (before(a, b) <==> a.process_id
                < b.process_id)
        }),
{
    let a_name = crate::json::text_or_empty(a.name);
    let b_name = crate::json::text_or_empty(b.name);
    crate::text::lemma_text_before_is_total(a_name, b_name);
}

/// A session that was sent is listed as it was sent, as an interactive one without a start; it
/// has spent something exactly where it was sent with a context or a cost.
pub proof fn lemma_sent_session_is_listed(session: WireSessionView)
    ensures
        ({
            let listed = summary_of_wire(session);
            &&& listed.session.process_id == session.process_id
            &&& listed.session.session_id == session.session_id
            &&& listed.session.working_directory == session.working_directory
            &&& listed.session.version == session.version
            &&& listed.session.name == session.name
            &&& listed.session.status == session.status
            &&& listed.session.updated_at == session.updated_at
            &&& listed.session.tmux_target == session.tmux_target
            &&& listed.session.bridge_session_id == session.bridge_session_id
            &&& listed.session.kind == "interactive"@ && listed.session.process_start.len() == 0
            &&& listed.transcript_path == session.transcript_path
            &&& listed.spend is Some <==> session.context_tokens > 0 || session.total_cost_usd
                is Some
            &&& listed.spend matches Some(spend) ==> spend.context_tokens == session.context_tokens
                && spend.total_cost_usd == session.total_cost_usd
        }),
{
}

/// A listing that was sent has the sessions that were sent, in their order, and the home of the
/// machine that sent it; a reason counts only where it says something.
pub proof fn lemma_sent_listing(response: WireListing)
    ensures
        ({
            let listing = listing_of_wire(response);
            let reason = response.liveness_unavailable_reason;
            &&& listing.sessions.len() == response.sessions@.len()
            &&& forall|k: int|
                0 <= k < listing.sessions.len() ==> #[trigger] listing.sessions[k]
                    == summary_of_wire(response.sessions@[k]@)
            &&& listing.home_directory == response.home_directory@
            &&& reason is None || trimmed(reason->0@).len() == 0
                ==> listing.liveness_unavailable_reason is None
            &&& reason is Some && trimmed(reason->0@).len() > 0
                ==> listing.liveness_unavailable_reason == Some(reason->0@)
        }),
        stated_reason(None) is None,
{
}

/// An agent that was sent is listed as it was sent.
pub proof fn lemma_sent_agent_is_listed(agent: WireAgent)
    ensures
        ({
            let listed = agent_of_wire(agent);
            let same = |text: Option<Seq<char>>, sent: Option<String>|
                text == crate::text::text_option(sent);
            &&& same(listed.id, agent.id) && listed.kind == agent.kind@
            &&& same(listed.state, agent.state) && same(listed.status, agent.status)
            &&& same(listed.waiting_for, agent.waiting_for)
            &&& listed.process_id == agent.pid && listed.started_at == agent.started_at
            &&& same(listed.session_id, agent.session_id) && same(listed.name, agent.name)
            &&& same(listed.working_directory, agent.cwd)
        }),
{
}

/// A subagent that was sent is listed as it was sent; a file that was not named is empty.
pub proof fn lemma_sent_subagent_is_listed(subagent: WireSubagent)
    ensures
        ({
            let listed = subagent_of_wire(subagent);
            let same = |text: Option<Seq<char>>, sent: Option<String>|
                text == crate::text::text_option(sent);
            &&& listed.agent_id == subagent.agent_id@
            &&& same(listed.workflow_run_id, subagent.workflow_run_id)
            &&& listed.meta.agent_type == subagent.agent_type@
            &&& same(listed.meta.description, subagent.description)
            &&& same(listed.meta.tool_use_id, subagent.tool_use_id)
            &&& listed.meta.spawn_depth == subagent.spawn_depth
            &&& same(listed.meta.model, subagent.model)
            &&& same(listed.meta.workflow_phase, subagent.workflow_phase)
            &&& same(listed.meta.request_shape, subagent.request_shape)
            &&& subagent.transcript_path is None ==> listed.transcript_path.len() == 0
            &&& subagent.transcript_path is Some ==> listed.transcript_path
                == subagent.transcript_path->0@
            &&& listed.size == subagent.size
            &&& listed.workflow_agent_finished == subagent.workflow_agent_finished
            &&& listed.task_agent_finished == subagent.task_agent_finished
        }),
{
}

/// Whether the last answer on a session is at a place.
pub open spec fn is_last_on(found: Seq<WireSubagentsOfSession>, at: int, id: Seq<char>) -> bool {
    &&& 0 <= at < found.len()
    &&& found[at].session_id@ == id
    &&& forall|k: int| at < k < found.len() ==> (#[trigger] found[k]).session_id@ != id
}

/// The subagents of a session are those that the last answer on it names, in their order;
/// a session that was asked for without an answer has none, and one that was neither asked for
/// nor answered is not there.
pub proof fn lemma_subagents_are_as_answered(
    session_ids: Seq<String>,
    found: Seq<WireSubagentsOfSession>,
    id: Seq<char>,
    at: int,
)
    ensures
        ({
            let known = with_found(nothing_found(session_ids), found);
            let is_asked = exists|k: int|
                0 <= k < session_ids.len() && (#[trigger] session_ids[k])@ == id;
            let is_answered = exists|k: int|
                0 <= k < found.len() && (#[trigger] found[k]).session_id@ == id;
            &&& is_last_on(found, at, id) ==> known.contains_key(id) && known[id]
                == wire_subagents(found[at].subagents@)
            &&& known.contains_key(id) <==> is_asked || is_answered
            &&& is_asked && !is_answered ==> known[id].len() == 0
        }),
        is_last_on(found, at, id) ==> forall|k: int|
            0 <= k < found[at].subagents@.len() ==> #[trigger] wire_subagents(
                found[at].subagents@,
            )[k] == subagent_of_wire(found[at].subagents@[k]),
    decreases found.len(),
{
    if found.len() > 0 {
        let front = found.drop_last();
        assert(forall|k: int| 0 <= k < front.len() ==> front[k] == found[k]);
        assert(found.last() == found[found.len() - 1]);
        lemma_subagents_are_as_answered(session_ids, front, id, at);
    } else {
        lemma_nothing_found(session_ids, id);
    }
}

proof fn lemma_nothing_found(session_ids: Seq<String>, id: Seq<char>)
    ensures
        nothing_found(session_ids).contains_key(id) <==> exists|k: int|
            0 <= k < session_ids.len() && (#[trigger] session_ids[k])@ == id,
        nothing_found(session_ids).contains_key(id) ==> nothing_found(session_ids)[id]
            == Seq::<SubagentSummaryView>::empty(),
    decreases session_ids.len(),
{
    if session_ids.len() > 0 {
        let front = session_ids.drop_last();
        assert(forall|k: int| 0 <= k < front.len() ==> front[k] == session_ids[k]);
        assert(session_ids.last() == session_ids[session_ids.len() - 1]);
        lemma_nothing_found(front, id);
    }
}

/// A read that was sent is taken as it was sent.
pub proof fn lemma_sent_read(response: WireTail)
    ensures
        ({
            let progress = tail_of_wire(response);
            &&& progress.path == crate::text::text_option(response.path)
            &&& progress.start_offset == response.start_offset
            &&& progress.offset == response.offset
            &&& progress.pending == response.pending@
            &&& progress.lines.len() == response.lines@.len()
            &&& forall|k: int|
                0 <= k < progress.lines.len() ==> #[trigger] progress.lines[k]
                    == response.lines@[k]@
            &&& progress.restarted == response.restarted
        }),
{
}

/// A command is of the project, of the user or built in, as the number it was sent under says;
/// and it is named and described as it was sent.
pub proof fn lemma_sent_command(command: SlashCommand, wire: WireSlashCommand)
    ensures
        scope_of(wire.scope) == SlashCommandScope::Project <==> wire.scope == 1,
        scope_of(wire.scope) == SlashCommandScope::User <==> wire.scope == 2,
        scope_of(wire.scope) == SlashCommandScope::Builtin <==> wire.scope != 1 && wire.scope != 2,
        is_command_of_wire(command, wire) ==> {
            &&& command.name@ == wire.name@
            &&& crate::text::text_option(command.description) == crate::text::text_option(
                wire.description,
            )
            &&& crate::text::text_option(command.argument_hint) == crate::text::text_option(
                wire.argument_hint,
            )
            &&& wire.scope == 1 ==> command.scope == SlashCommandScope::Project
            &&& wire.scope == 2 ==> command.scope == SlashCommandScope::User
            &&& wire.scope != 1 && wire.scope != 2 ==> command.scope == SlashCommandScope::Builtin
        },
{
}

/// A file may be read exactly where its session is registered and it is readable from there;
/// else the refusal names the session, and the file where only that is in the way.
pub proof fn lemma_when_an_attachment_may_be_read(
    session_id: Seq<char>,
    path: Seq<char>,
    is_registered: bool,
    is_readable: bool,
)
    ensures
        ({
            let refusal = refusal_of_attachment(session_id, path, is_registered, is_readable);
            &&& refusal is None <==> is_registered && is_readable
            &&& !is_registered ==> refusal == Some("no session is registered as "@ + session_id)
            &&& is_registered && !is_readable ==> refusal == Some(
                path + " is outside the working directory of session "@ + session_id,
            )
        }),
{
    assert(path + (" is outside the working directory of session "@ + session_id) =~= path
        + " is outside the working directory of session "@ + session_id);
}

/// A message asks for the session's own conversation by naming no agent, with the file that is
/// being read; for an agent's it names the agent, and its run, and no file. It asks from where
/// the reading has got to.
pub proof fn lemma_what_a_read_asks_for(
    request: WireTailRequest,
    target: TranscriptTargetView,
    session_id: Seq<char>,
    state: TailStateView,
)
    requires
        asks_for(request, target, session_id, state),
    ensures
        request.session_id@ == session_id,
        request.offset == state.offset && request.pending@ == state.pending,
        target is Main <==> request.agent_id is None,
        target is Main ==> crate::text::text_option(request.path) == state.path
            && request.workflow_run_id is None,
        target is Subagent ==> request.path is None,
        target is Subagent ==> Some(target->agent_id) == crate::text::text_option(request.agent_id),
        target is Subagent ==> target->workflow_run_id == crate::text::text_option(
            request.workflow_run_id,
        ),
{
}

/// The hooks were installed, or their scripts written anew, only where the far end says so; the
/// file that was kept is the one it names.
pub proof fn lemma_what_installing_came_to(outcome: WireHookOutcome, backup_path: Option<String>)
    ensures
        hook_outcome_of(outcome, backup_path) is Installed <==> outcome is Installed,
        outcome is Installed ==> hook_outcome_of(outcome, backup_path)->backup_path == backup_path,
        hook_outcome_of(outcome, backup_path) is ScriptsRefreshed <==> outcome is ScriptsRefreshed,
        hook_outcome_of(outcome, backup_path) is AlreadyCurrent <==> outcome is AlreadyCurrent
            || outcome is Other,
{
}

} // verus!
