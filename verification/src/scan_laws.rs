//! What holds of a selection, and of a store that is told what a scan has found.
use crate::live_state::LiveStateView;
use crate::read_laws::{is_cleared, reports, shows};
use crate::row_laws::{is_absent, is_first_of, lemma_rows_are_found, lemma_taking_a_session_out};
use crate::session_registry::{RegisteredSessionView, SessionSummaryView};
use crate::session_rows::{
    has_live, has_live_process, has_process, id_of_process, live_with_id, with_ended, without_id, without_live,
    EndedReason, EndedSessionView, LiveSessionView, Rows, SessionRowView,
};
use crate::session_source::SessionListingView;
use crate::session_store::{
    failure_text, interruptible, listed_live, listed_paths, listed_spend, refusal, timeout_text, ChannelRequestView,
    ErrorSource, Scanning, StoreView, TranscriptTargetView,
};
use crate::text::decimal_digits;
use crate::transcript::{text_at, TranscriptView};
use vstd::prelude::*;

verus! {

/// Whether nothing of a session's conversation or of its activity is known yet.
pub open spec fn starts_over(before: StoreView, after: StoreView, now_ms: i64) -> bool {
    &&& after.transcript_target is Main && after.subagent is None
    &&& after.main.transcript == TranscriptView::unread(false)
    &&& after.main.path is None && after.main.offset == 0 && after.main.pending.len() == 0
    &&& before.transcript_resets < u64::MAX ==> after.transcript_resets == before.transcript_resets
        + 1
    &&& after.main.generation == after.transcript_resets
    &&& activity_is_forgotten(before, after)
    &&& shows(after.clock.last_transcript_ok_ms, now_ms)
    &&& shows(after.clock.last_events_ok_ms, now_ms)
    &&& shows(after.clock.last_status_ok_ms, now_ms)
}

/// Whether nothing of a session's activity is known, and its events and its inbox are read
/// from their beginning.
pub open spec fn activity_is_forgotten(before: StoreView, after: StoreView) -> bool {
    &&& after.live == LiveStateView::quiet()
    &&& after.events.path is None && after.events.offset == 0 && after.events.pending.len() == 0
    &&& after.events.generation == before.transcript_resets
    &&& after.status is None && after.status_updated_at is None
    &&& after.channel is None && after.channel_checked_at_ms is None
    &&& after.channel_events.len() == 0
    &&& after.channel_inbox.path is None && after.channel_inbox.offset == 0
        && after.channel_inbox.pending.len() == 0
    &&& after.channel_inbox.generation == before.transcript_resets
}

/// What the list shows and what is known of the sessions in it.
pub open spec fn same_list(before: StoreView, after: StoreView) -> bool {
    &&& after.product == before.product
    &&& after.live_sessions == before.live_sessions
    &&& after.ended == before.ended
    &&& after.agent_listings == before.agent_listings
    &&& after.home_directory == before.home_directory
    &&& after.session_spend == before.session_spend
    &&& after.transcript_paths == before.transcript_paths
    &&& after.cleared_rebinds == before.cleared_rebinds
    &&& after.subagents_by_session == before.subagents_by_session
    &&& after.notice == before.notice
    &&& after.agents_unavailable_reason == before.agents_unavailable_reason
    &&& after.liveness_unavailable_reason == before.liveness_unavailable_reason
    &&& after.clock.last_registry_ok_ms == before.clock.last_registry_ok_ms
    &&& after.visible == before.visible
    &&& after.scan_in_flight == before.scan_in_flight
    &&& after.registry_scan_started_ms == before.registry_scan_started_ms
    &&& after.hooks_are_installed == before.hooks_are_installed
}

/// A store that has been told nothing lists nothing, follows nothing and is seen; its clocks
/// begin to run.
pub proof fn lemma_fresh_store(product: Seq<char>, now_ms: i64)
    ensures
        ({
            let store = StoreView::fresh(product, now_ms);
            &&& store.product == product
            &&& store.rows().len() == 0
            &&& store.selected is None && store.followed is None && store.error is None
            &&& store.visible && !store.scan_in_flight && !store.hooks_are_installed
            &&& store.transcript_resets == 0 && store.main.generation == 0
            &&& store.home_directory is None && store.notice is None
            &&& shows(store.clock.last_transcript_ok_ms, now_ms)
            &&& shows(store.clock.last_events_ok_ms, now_ms)
            &&& shows(store.clock.last_status_ok_ms, now_ms)
            &&& shows(store.clock.last_registry_ok_ms, now_ms)
        }),
{
}

/// To select another session is to follow it from the beginning, and to forget the failure of
/// a send to the one before; the list stays as it is. To select the one that is selected
/// changes nothing.
pub proof fn lemma_selecting(store: StoreView, id: Seq<char>, now_ms: i64)
    ensures
        ({
            let after = store.with_selection(id, now_ms);
            &&& store.selected == Some(id) ==> after == store
            &&& store.selected != Some(id) ==> {
                &&& after.selected == Some(id) && after.followed == Some(id)
                &&& starts_over(store, after, now_ms)
                &&& same_list(store, after)
                &&& is_cleared(store, after, ErrorSource::Send)
            }
        }),
{
}

/// To turn to an agent is to read its conversation from the beginning, under a number of its
/// own; to turn back is to leave it. The session's own conversation stays as it is.
pub proof fn lemma_turning_to_a_conversation(store: StoreView, target: TranscriptTargetView)
    ensures
        ({
            let after = store.with_target(target);
            &&& after.transcript_target == target
            &&& target == store.transcript_target ==> after == store
            &&& (StoreView {
                transcript_target: store.transcript_target,
                subagent: store.subagent,
                transcript_resets: store.transcript_resets,
                ..after
            }) == store
            &&& target != store.transcript_target && target is Main ==> after.subagent is None
                && after.transcript_resets == store.transcript_resets
            &&& target != store.transcript_target && target is Subagent ==> {
                &&& after.subagent is Some
                &&& after.subagent->0.transcript == TranscriptView::unread(true)
                &&& after.subagent->0.path is None && after.subagent->0.offset == 0
                    && after.subagent->0.pending.len() == 0
                &&& after.subagent->0.generation == after.transcript_resets
                &&& store.transcript_resets < u64::MAX ==> after.transcript_resets
                    == store.transcript_resets + 1
            }
        }),
{
}

/// What is on screen is the agent's conversation while one is turned to, and else the
/// session's own. Its file is the one the scan found for the session, or the one that is being
/// read; an agent's is the one that is being read.
pub proof fn lemma_what_is_on_screen(store: StoreView)
    ensures
        store.transcript_target is Main ==> store.viewed() == store.main,
        store.transcript_target is Subagent && store.subagent is None ==> store.viewed()
            == store.main,
        store.transcript_target is Subagent && store.subagent is Some ==> store.viewed()
            == store.subagent->0,
        store.transcript_target is Main && store.selected is None ==> store.viewed_path() is None,
        store.transcript_target is Main && store.selected is Some
            && store.transcript_paths.contains_key(store.selected->0) ==> store.viewed_path()
            == Some(store.transcript_paths[store.selected->0]),
        store.transcript_target is Main && store.selected is Some
            && !store.transcript_paths.contains_key(store.selected->0) ==> store.viewed_path()
            == store.main.path,
        store.transcript_target is Subagent && store.subagent is Some ==> store.viewed_path()
            == store.subagent->0.path,
        store.transcript_target is Subagent && store.subagent is None ==> store.viewed_path()
            is None,
{
}

/// To dismiss an ended row takes exactly the rows of its session out; a selection of it goes
/// with it. To dismiss what has not ended changes nothing.
pub proof fn lemma_dismissing(store: StoreView, id: Seq<char>)
    ensures
        ({
            let after = store.with_dismissed(id);
            let is_there = exists|k: int|
                0 <= k < store.ended.len() && (#[trigger] store.ended[k]).session_id == id;
            &&& !is_there ==> after == store
            &&& is_there ==> {
                &&& after.ended == without_id(store.ended, id)
                &&& store.selected == Some(id) ==> after.selected is None && after.followed is None
                &&& store.selected != Some(id) ==> after.selected == store.selected
                    && after.followed == store.followed
                &&& (StoreView {
                    ended: store.ended,
                    selected: store.selected,
                    followed: store.followed,
                    ..after
                }) == store
            }
        }),
{
}

/// A session that the store is told of is listed behind the others, as it is registered,
/// unless it is listed already; its file is known where one is given.
pub proof fn lemma_seeding(
    store: StoreView,
    session: RegisteredSessionView,
    path: Option<Seq<char>>,
    other: Seq<char>,
)
    ensures
        ({
            let after = store.with_seed(session, path);
            &&& !is_absent(store.live_sessions, session.session_id) ==> after.live_sessions
                == store.live_sessions
            &&& is_absent(store.live_sessions, session.session_id) ==> {
                &&& after.live_sessions.len() == store.live_sessions.len() + 1
                &&& after.live_sessions.drop_last() == store.live_sessions
                &&& after.live_sessions.last().session == session
                &&& !after.live_sessions.last().background
                &&& after.live_sessions.last().agent_id is None
                &&& after.live_sessions.last().state is None
                &&& after.live_sessions.last().waiting_for is None
            }
            &&& path is Some ==> after.known_path(session.session_id) == path
            &&& path is None ==> after.transcript_paths == store.transcript_paths
            &&& other != session.session_id ==> after.known_path(other) == store.known_path(other)
            &&& (StoreView {
                live_sessions: store.live_sessions,
                transcript_paths: store.transcript_paths,
                ..after
            }) == store
        }),
{
    assert(store.live_sessions.push(LiveSessionView::registered(session)).drop_last()
        =~= store.live_sessions);
}

/// What a view can be told of the selected session: the session as it is listed, with the file
/// that is known for it; or as it was when it ended, without a process.
pub proof fn lemma_seed_is_the_selected_session(store: StoreView)
    ensures
        ({
            let seed = store.seed();
            &&& store.selected is None ==> seed is None
            &&& store.selected_live() is Some ==> seed is Some && (seed->0).0
                == store.selected_live()->0.session && (seed->0).1 == store.known_path(
                store.selected_live()->0.session.session_id,
            )
            &&& store.selected_live() is None && store.selected_ended() is None ==> seed is None
            &&& store.selected_live() is None && store.selected_ended() is Some ==> {
                let row = store.selected_ended()->0;
                let session = (seed->0).0;
                &&& seed is Some
                &&& session.process_id == 0 && session.session_id == row.session_id
                &&& session.working_directory == row.cwd && session.name == row.name
                &&& session.tmux_target == row.tmux && session.bridge_session_id
                    == row.bridge_session_id
                &&& session.updated_at == Some(row.last_seen_ms) && session.status is None
                &&& session.kind == "interactive"@
                &&& session.process_start.len() == 0 && session.version.len() == 0
                &&& row.transcript_path is Some ==> (seed->0).1 == row.transcript_path
                &&& row.transcript_path is None ==> (seed->0).1 == store.known_path(row.session_id)
            }
        }),
        forall|id: Seq<char>|
            store.transcript_paths.contains_key(id) ==> #[trigger] store.known_path(id) == Some(
                store.transcript_paths[id],
            ),
        forall|id: Seq<char>|
            !store.transcript_paths.contains_key(id) ==> #[trigger] store.known_path(id) is None,
{
}

/// The rows are the live sessions and behind them the ended ones, each in their order.
pub proof fn lemma_rows_are_live_then_ended(store: StoreView)
    ensures
        store.rows().len() == store.live_sessions.len() + store.ended.len(),
        forall|k: int|
            0 <= k < store.live_sessions.len() ==> #[trigger] store.rows()[k]
                == SessionRowView::Live(store.live_sessions[k]),
        forall|k: int|
            store.live_sessions.len() <= k < store.rows().len() ==> #[trigger] store.rows()[k]
                == SessionRowView::Ended(store.ended[k - store.live_sessions.len()]),
{
}

/// The row of a session that ends says what was known of it: as it was registered, where its
/// transcript is, when it was last seen and why it ended; its title where it was followed.
pub proof fn lemma_ended_row_is_of_the_session(
    store: StoreView,
    live: LiveSessionView,
    reason: EndedReason,
    now_ms: i64,
)
    ensures
        is_row_of(store, store.ended_row(live, reason, now_ms), live, reason, now_ms),
{
}

/// Whether a row says of a session that has ended what was known of it.
pub open spec fn is_row_of(
    store: StoreView,
    row: EndedSessionView,
    live: LiveSessionView,
    reason: EndedReason,
    now_ms: i64,
) -> bool {
    &&& row.session_id == live.session.session_id
    &&& row.name == live.session.name
    &&& row.cwd == live.session.working_directory
    &&& row.tmux == live.session.tmux_target
    &&& row.bridge_session_id == live.session.bridge_session_id
    &&& row.transcript_path == store.known_path(live.session.session_id)
    &&& row.last_seen_ms == now_ms
    &&& row.ended_reason == reason
    &&& store.followed != Some(live.session.session_id) ==> row.ai_title is None
    &&& store.followed == Some(live.session.session_id) ==> row.ai_title == text_at(
        store.main.transcript.records,
        store.main.transcript.ai_title_at,
        "ai-title"@,
        "aiTitle"@,
    )
}

/// Whether a row is the last that a process is listed in.
pub open spec fn is_last_of(live: Seq<LiveSessionView>, at: int, process_id: u32) -> bool {
    &&& 0 <= at < live.len()
    &&& live[at].session.process_id == process_id
    &&& forall|k: int| at < k < live.len() ==> (#[trigger] live[k]).session.process_id != process_id
}

/// Whether a listed session is the selected one, was listed before, and not in this process.
pub open spec fn has_moved(
    store: StoreView,
    live: LiveSessionView,
    previous: Seq<LiveSessionView>,
) -> bool {
    &&& store.selected == Some(live.session.session_id)
    &&& exists|k: int|
        0 <= k < previous.len() && (#[trigger] previous[k]).session.session_id
            == live.session.session_id
    &&& forall|k: int|
        0 <= k < previous.len() && (#[trigger] previous[k]).session.session_id
            == live.session.session_id ==> previous[k].session.process_id
            != live.session.process_id
}

/// A selected session that goes on in another process is noted, with that process; no other is.
pub proof fn lemma_session_that_moved_is_noted(
    scan: Scanning,
    live: LiveSessionView,
    previous: Seq<LiveSessionView>,
    selected_before: Option<Seq<char>>,
    now_ms: i64,
)
    ensures
        ({
            let after = scan.with_listed(live, previous, selected_before, now_ms);
            let moved = has_moved(scan.store, live, previous);
            &&& moved ==> after.rebound && after.changed && after.store.notice == Some(
                "Session rebound to pid "@ + decimal_digits(live.session.process_id as nat),
            )
            &&& !moved ==> after.rebound == scan.rebound && after.store.notice == scan.store.notice
            &&& (StoreView {
                notice: scan.store.notice,
                ended: scan.store.ended,
                cleared_rebinds: scan.store.cleared_rebinds,
                selected: scan.store.selected,
                ..after.store
            }) == scan.store
        }),
{
    let id = live.session.session_id;
    let process_id = live.session.process_id;
    assert(has_moved(scan.store, live, previous) <==> has_live(previous, id) && !has_live_process(
        previous,
        id,
        process_id,
    ) && scan.store.selected == Some(id));
}

/// A process that is listed with another session than before has ended that one: its row is
/// in front of the ended ones. Where it was the one selected when the scan began, and none was
/// replaced before, the selection goes to the new one, and the two are recorded.
pub proof fn lemma_session_that_is_replaced_has_ended(
    scan: Scanning,
    live: LiveSessionView,
    previous: Seq<LiveSessionView>,
    selected_before: Option<Seq<char>>,
    now_ms: i64,
    last: int,
    first: int,
)
    requires
        is_last_of(previous, last, live.session.process_id),
        previous[last].session.session_id != live.session.session_id,
        is_first_of(previous, first, previous[last].session.session_id),
    ensures
        ({
            let after = scan.with_listed(live, previous, selected_before, now_ms);
            let replaced = previous[last].session.session_id;
            let taken_along = !scan.cleared && selected_before == Some(replaced);
            &&& after.changed
            &&& after.store.ended.len() > 0
            &&& is_row_of(
                scan.store,
                after.store.ended[0],
                previous[first],
                EndedReason::Cleared,
                now_ms,
            )
            &&& after.store.ended == with_ended(scan.store.ended, after.store.ended[0])
            &&& taken_along ==> after.cleared && after.store.selected == Some(
                live.session.session_id,
            ) && after.store.cleared_rebinds == scan.store.cleared_rebinds + seq![
                (replaced, live.session.session_id),
            ]
            &&& !taken_along ==> after.cleared == scan.cleared && after.store.selected
                == scan.store.selected && after.store.cleared_rebinds == scan.store.cleared_rebinds
        }),
{
    let process_id = live.session.process_id;
    let replaced = previous[last].session.session_id;
    lemma_rows_are_found(previous, Seq::empty(), replaced, process_id, last);
    lemma_rows_are_found(previous, Seq::empty(), replaced, process_id, first);
    assert(id_of_process(previous, process_id) == Some(replaced));
    assert(live_with_id(previous, replaced) == Some(previous[first]));
    assert(scan.store.cleared_rebinds.push((replaced, live.session.session_id))
        =~= scan.store.cleared_rebinds + seq![(replaced, live.session.session_id)]);
}

/// A process that is listed for the first time, or with the session it had, ends none and
/// leaves the selection where it is.
pub proof fn lemma_session_that_goes_on_ends_none(
    scan: Scanning,
    live: LiveSessionView,
    previous: Seq<LiveSessionView>,
    selected_before: Option<Seq<char>>,
    now_ms: i64,
    last: int,
)
    requires
        is_last_of(previous, last, live.session.process_id) && previous[last].session.session_id
            == live.session.session_id || forall|k: int|
            0 <= k < previous.len() ==> (#[trigger] previous[k]).session.process_id
                != live.session.process_id,
    ensures
        ({
            let after = scan.with_listed(live, previous, selected_before, now_ms);
            &&& after.store.ended == scan.store.ended
            &&& after.store.selected == scan.store.selected
            &&& after.store.cleared_rebinds == scan.store.cleared_rebinds
            &&& after.cleared == scan.cleared
            &&& after.changed <==> scan.changed || has_moved(scan.store, live, previous)
        }),
{
    lemma_rows_are_found(
        previous,
        Seq::empty(),
        live.session.session_id,
        live.session.process_id,
        last,
    );
    lemma_session_that_moved_is_noted(scan, live, previous, selected_before, now_ms);
    let id = live.session.session_id;
    assert(has_moved(scan.store, live, previous) <==> has_live(previous, id) && !has_live_process(
        previous,
        id,
        live.session.process_id,
    ) && scan.store.selected == Some(id));
}

/// The listed sessions are looked at one after the other, and so are those that were listed.
pub proof fn lemma_sessions_are_looked_at_in_order(
    scan: Scanning,
    first: Seq<LiveSessionView>,
    second: Seq<LiveSessionView>,
    other: Seq<LiveSessionView>,
    selected_before: Option<Seq<char>>,
    now_ms: i64,
)
    ensures
        scan.with_all_listed(first + second, other, selected_before, now_ms)
            == scan.with_all_listed(first, other, selected_before, now_ms).with_all_listed(
            second,
            other,
            selected_before,
            now_ms,
        ),
        scan.with_gone(first + second, other, now_ms) == scan.with_gone(
            first,
            other,
            now_ms,
        ).with_gone(second, other, now_ms),
        first.len() == 0 ==> scan.with_all_listed(first, other, selected_before, now_ms) == scan
            && scan.with_gone(first, other, now_ms) == scan,
        first.len() == 1 ==> scan.with_all_listed(first, other, selected_before, now_ms)
            == scan.with_listed(first[0], other, selected_before, now_ms),
    decreases second.len(),
{
    if second.len() > 0 {
        lemma_sessions_are_looked_at_in_order(
            scan,
            first,
            second.drop_last(),
            other,
            selected_before,
            now_ms,
        );
        assert((first + second).drop_last() =~= first + second.drop_last());
    } else {
        assert(first + second =~= first);
    }
    if first.len() == 1 {
        assert(first.drop_last() =~= Seq::empty());
        assert(scan.with_all_listed(first.drop_last(), other, selected_before, now_ms) == scan);
    }
}

/// A session that was listed, and of which neither the id nor the process is listed now, has
/// ended: its row is in front of the ended ones. One of which either is has not.
pub proof fn lemma_session_that_is_gone_has_ended(
    scan: Scanning,
    row: LiveSessionView,
    live: Seq<LiveSessionView>,
    now_ms: i64,
)
    ensures
        ({
            let after = scan.with_gone(seq![row], live, now_ms);
            let is_listed = exists|k: int|
                0 <= k < live.len() && ((#[trigger] live[k]).session.session_id
                    == row.session.session_id || live[k].session.process_id
                    == row.session.process_id);
            &&& is_listed ==> after == scan
            &&& !is_listed ==> {
                &&& after.changed
                &&& after.store.ended.len() > 0
                &&& is_row_of(
                    scan.store,
                    after.store.ended[0],
                    row,
                    EndedReason::ProcessGone,
                    now_ms,
                )
                &&& after.store.ended == with_ended(scan.store.ended, after.store.ended[0])
                &&& (StoreView { ended: scan.store.ended, ..after.store }) == scan.store
                &&& after.rebound == scan.rebound && after.cleared == scan.cleared
            }
        }),
{
    let one = seq![row];
    assert(one.drop_last() =~= Seq::empty());
    assert(scan.with_gone(one.drop_last(), live, now_ms) == scan);
    assert(one.last() == row);
    assert(has_live(live, row.session.session_id) || has_process(live, row.session.process_id)
        <==> exists|k: int|
        0 <= k < live.len() && ((#[trigger] live[k]).session.session_id == row.session.session_id
            || live[k].session.process_id == row.session.process_id));
}

/// The file and the spending that are known of a session after a scan are those of the last
/// listed session of its id that has any, and none where no such session has.
pub proof fn lemma_last_listed_counts(sessions: Seq<SessionSummaryView>, id: Seq<char>, at: int)
    ensures
        is_last_with_path(sessions, at, id) ==> listed_paths(sessions).contains_key(id)
            && Some(listed_paths(sessions)[id]) == sessions[at].transcript_path,
        (forall|k: int|
            0 <= k < sessions.len() && (#[trigger] sessions[k]).session.session_id == id
                ==> sessions[k].transcript_path is None) ==> !listed_paths(sessions).contains_key(
            id,
        ),
        is_last_with_spend(sessions, at, id) ==> listed_spend(sessions).contains_key(id)
            && Some(listed_spend(sessions)[id]) == sessions[at].spend,
        (forall|k: int|
            0 <= k < sessions.len() && (#[trigger] sessions[k]).session.session_id == id
                ==> sessions[k].spend is None) ==> !listed_spend(sessions).contains_key(id),
    decreases sessions.len(),
{
    if sessions.len() > 0 {
        let front = sessions.drop_last();
        assert(forall|k: int| 0 <= k < front.len() ==> front[k] == sessions[k]);
        assert(sessions.last() == sessions[sessions.len() - 1]);
        lemma_last_listed_counts(front, id, at);
    }
}

pub open spec fn is_last_with_path(
    sessions: Seq<SessionSummaryView>,
    at: int,
    id: Seq<char>,
) -> bool {
    &&& 0 <= at < sessions.len()
    &&& sessions[at].session.session_id == id && sessions[at].transcript_path is Some
    &&& forall|k: int|
        at < k < sessions.len() && (#[trigger] sessions[k]).session.session_id == id
            ==> sessions[k].transcript_path is None
}

pub open spec fn is_last_with_spend(
    sessions: Seq<SessionSummaryView>,
    at: int,
    id: Seq<char>,
) -> bool {
    &&& 0 <= at < sessions.len()
    &&& sessions[at].session.session_id == id && sessions[at].spend is Some
    &&& forall|k: int|
        at < k < sessions.len() && (#[trigger] sessions[k]).session.session_id == id
            ==> sessions[k].spend is None
}

/// The live sessions of a scan are the ones it lists, in their order, of no agent.
pub proof fn lemma_listed_sessions_are_live(sessions: Seq<SessionSummaryView>)
    ensures
        listed_live(sessions).len() == sessions.len(),
        forall|k: int|
            0 <= k < sessions.len() ==> {
                let row = #[trigger] listed_live(sessions)[k];
                &&& row.session == sessions[k].session
                &&& !row.background && row.agent_id is None && row.state is None
                    && row.waiting_for is None
            },
{
}

proof fn lemma_steps_leave_the_rest(
    scan: Scanning,
    live: Seq<LiveSessionView>,
    previous: Seq<LiveSessionView>,
    selected_before: Option<Seq<char>>,
    now_ms: i64,
)
    ensures
        ({
            let listed = scan.with_all_listed(live, previous, selected_before, now_ms).store;
            (StoreView {
                notice: scan.store.notice,
                ended: scan.store.ended,
                cleared_rebinds: scan.store.cleared_rebinds,
                selected: scan.store.selected,
                ..listed
            }) == scan.store
        }),
    decreases live.len(),
{
    if live.len() > 0 {
        lemma_steps_leave_the_rest(scan, live.drop_last(), previous, selected_before, now_ms);
        lemma_session_that_moved_is_noted(
            scan.with_all_listed(live.drop_last(), previous, selected_before, now_ms),
            live.last(),
            previous,
            selected_before,
            now_ms,
        );
    }
}

proof fn lemma_gone_leave_the_rest(
    scan: Scanning,
    previous: Seq<LiveSessionView>,
    live: Seq<LiveSessionView>,
    now_ms: i64,
)
    ensures
        (StoreView { ended: scan.store.ended, ..scan.with_gone(previous, live, now_ms).store })
            == scan.store,
    decreases previous.len(),
{
    if previous.len() > 0 {
        lemma_gone_leave_the_rest(scan, previous.drop_last(), live, now_ms);
    }
}

/// What a scan finds takes the place of what was known: the sessions, with the agents that were
/// listed last merged in, where their transcripts are, what they spent, and the machine's home.
/// It sets the clock of the registry.
pub proof fn lemma_scan_takes_the_place(
    store: StoreView,
    listing: SessionListingView,
    now_ms: i64,
)
    ensures
        ({
            let after = store.with_registry_scan(Ok(listing), now_ms).store;
            &&& after.home_directory == Some(listing.home_directory)
            &&& after.liveness_unavailable_reason == listing.liveness_unavailable_reason
            &&& after.transcript_paths == listed_paths(listing.sessions)
            &&& after.session_spend == listed_spend(listing.sessions)
            &&& shows(after.clock.last_registry_ok_ms, now_ms)
            &&& exists|ended: Seq<EndedSessionView>|
                ({
                    let rows = #[trigger] (Rows {
                        live: listed_live(listing.sessions),
                        ended,
                    }).with_listings(store.agent_listings);
                    after.live_sessions == rows.live && after.ended == rows.ended
                })
            &&& after.agent_listings == store.agent_listings
            &&& after.subagents_by_session == store.subagents_by_session
            &&& after.product == store.product && after.visible == store.visible
            &&& after.hooks_are_installed == store.hooks_are_installed
            &&& after.agents_unavailable_reason == store.agents_unavailable_reason
            &&& after.scan_in_flight == store.scan_in_flight
            &&& !after.has_error(ErrorSource::Poll)
        }),
{
    let live = listed_live(listing.sessions);
    let start = store.scanning(now_ms);
    let listed = start.with_all_listed(live, store.live_sessions, store.selected, now_ms);
    lemma_steps_leave_the_rest(start, live, store.live_sessions, store.selected, now_ms);
    let gone = listed.with_gone(store.live_sessions, live, now_ms);
    lemma_gone_leave_the_rest(listed, store.live_sessions, live, now_ms);
    let revived = gone.with_revived(live);
    let after = store.with_registry_scan(Ok(listing), now_ms).store;
    let rows = (Rows { live, ended: revived.store.ended }).with_listings(store.agent_listings);
    assert(after.live_sessions == rows.live && after.ended == rows.ended);
}

/// A scan that failed is reported with the name of the product, and changes nothing else.
pub proof fn lemma_failed_scan_is_reported(store: StoreView, error: Seq<char>, now_ms: i64)
    ensures
        reports(
            store,
            store.with_registry_scan(Err(error), now_ms).store,
            ErrorSource::Poll,
            "Reading "@ + store.product + " sessions: "@ + error,
        ),
        store.with_registry_scan(Err(error), now_ms).changed,
{
}

/// The answer to a scan ends the wait for it. One that is late is reported, and the wait goes
/// on; where none is waited for there is nothing to report.
pub proof fn lemma_scan_that_is_waited_for(
    store: StoreView,
    scan: Result<SessionListingView, Seq<char>>,
    now_ms: i64,
)
    ensures
        ({
            let begun = store.with_scan_begun(now_ms);
            let finished = store.with_scan_finished(scan, now_ms).store;
            let overdue = store.with_scan_overdue();
            &&& begun.scan_in_flight && shows(begun.registry_scan_started_ms, now_ms)
            &&& !finished.scan_in_flight && finished.registry_scan_started_ms is None
            &&& store.scan_in_flight ==> overdue.changed && reports(
                store,
                overdue.store,
                ErrorSource::Poll,
                "the machine these sessions run on"@ + " has not answered in 20 s"@,
            )
            &&& !store.scan_in_flight ==> overdue.store == store && !overdue.changed
        }),
{
    let waiting = StoreView { scan_in_flight: false, registry_scan_started_ms: None, ..store };
    if let Ok(listing) = scan {
        let live = listed_live(listing.sessions);
        let start = waiting.scanning(now_ms);
        let listed = start.with_all_listed(live, waiting.live_sessions, waiting.selected, now_ms);
        lemma_steps_leave_the_rest(start, live, waiting.live_sessions, waiting.selected, now_ms);
        lemma_gone_leave_the_rest(listed, waiting.live_sessions, live, now_ms);
    }
}

/// What is followed after a scan: a selected session that only changed its process, or that is
/// listed and followed, goes on as it was; one that took the place of another is followed from
/// the beginning; one that is listed and was not followed is; one that has ended goes on being
/// read, with its activity forgotten; one that is neither listed nor ended is left as it is.
pub proof fn lemma_what_is_followed_after_a_scan(
    scan: Scanning,
    live: Seq<LiveSessionView>,
    now_ms: i64,
)
    ensures
        ({
            let applied = scan.with_selection(live, now_ms);
            let before = scan.store;
            let after = applied.store;
            let id = before.selected->0;
            let is_listed = before.selected is Some && !is_absent(live, id);
            let is_ended = before.selected is Some && exists|k: int|
                0 <= k < before.ended.len() && (#[trigger] before.ended[k]).session_id == id;
            &&& after.selected == before.selected && same_list(before, after)
            &&& scan.rebound ==> after == before && applied.changed == scan.changed
            &&& !scan.rebound && scan.cleared ==> {
                &&& applied.changed
                &&& after.followed == before.selected
                &&& starts_over(before, after, now_ms)
                &&& is_cleared(before, after, ErrorSource::Send)
            }
            &&& !scan.rebound && !scan.cleared && is_listed && before.followed is None ==> {
                &&& applied.changed
                &&& after.followed == Some(id)
                &&& (StoreView { followed: None, ..after }) == before
            }
            &&& !scan.rebound && !scan.cleared && is_listed && before.followed is Some
                && before.followed != Some(id) ==> {
                &&& applied.changed
                &&& after.followed == Some(id)
                &&& starts_over(before, after, now_ms)
                &&& after.error == before.error
            }
            &&& !scan.rebound && !scan.cleared && is_listed && before.followed == Some(id)
                ==> after == before && applied.changed == scan.changed
            &&& !scan.rebound && !scan.cleared && !is_listed && is_ended ==> {
                &&& applied.changed
                &&& after.followed == Some(id)
                &&& activity_is_forgotten(before, after)
                &&& is_cleared(before, after, ErrorSource::Send)
                &&& after.main == before.main && after.subagent == before.subagent
                    && after.transcript_target == before.transcript_target && after.clock
                    == before.clock && after.transcript_resets == before.transcript_resets
            }
            &&& !scan.rebound && !scan.cleared && !is_listed && !is_ended ==> after == before
                && applied.changed == scan.changed
        }),
{
    if let Some(id) = scan.store.selected {
        assert(has_live(live, id) <==> !is_absent(live, id));
    }
}

/// A scan is a change exactly where a session moved, was replaced, ended or came back, where
/// it cleared a report, or where what it found is something else than was known.
pub proof fn lemma_when_a_scan_is_a_change(
    scan: Scanning,
    listing: SessionListingView,
    previous: Seq<LiveSessionView>,
    now_ms: i64,
)
    ensures
        ({
            let live = listed_live(listing.sessions);
            let paths = listed_paths(listing.sessions);
            let spend = listed_spend(listing.sessions);
            let after = scan.with_listing(listing, previous);
            let same_spend = forall|id: Seq<char>| #[trigger]
                scan.store.session_spend.contains_key(id) == spend.contains_key(id) && (
                spend.contains_key(id) ==> scan.store.session_spend[id].equals(spend[id]));
            after.changed <==> scan.changed || live != previous || paths
                != scan.store.transcript_paths || !same_spend || scan.store.home_directory != Some(
                listing.home_directory,
            ) || scan.store.liveness_unavailable_reason != listing.liveness_unavailable_reason
        }),
        ({
            let start = scan.store.scanning(now_ms);
            &&& start.changed <==> scan.store.has_error(ErrorSource::Poll)
            &&& !start.rebound && !start.cleared
            &&& is_cleared(scan.store, start.store, ErrorSource::Poll)
        }),
        ({
            let after = scan.with_revived(previous);
            &&& after.store.ended == without_live(scan.store.ended, previous)
            &&& after.changed <==> scan.changed || after.store.ended.len() != scan.store.ended.len()
            &&& (StoreView { ended: scan.store.ended, ..after.store }) == scan.store
        }),
{
}

/// A session of which neither the id nor the process is listed any more is after the scan the
/// first of the ended rows, where no agent is listed and none that was listed behind it is gone.
pub proof fn lemma_session_ends_with_its_process(
    store: StoreView,
    listing: SessionListingView,
    now_ms: i64,
)
    requires
        store.live_sessions.len() > 0,
        store.agent_listings.len() == 0,
        forall|k: int|
            0 <= k < listing.sessions.len() ==> (#[trigger] listing.sessions[k]).session.session_id
                != store.live_sessions.last().session.session_id
                && listing.sessions[k].session.process_id
                != store.live_sessions.last().session.process_id,
    ensures
        ({
            let after = store.with_registry_scan(Ok(listing), now_ms);
            &&& after.changed
            &&& after.store.ended.len() > 0
            &&& is_row_of(
                store,
                after.store.ended[0],
                store.live_sessions.last(),
                EndedReason::ProcessGone,
                now_ms,
            )
        }),
{
    let live = listed_live(listing.sessions);
    let previous = store.live_sessions;
    let row = previous.last();
    let start = store.scanning(now_ms);
    let listed = start.with_all_listed(live, previous, store.selected, now_ms);
    lemma_steps_leave_the_rest(start, live, previous, store.selected, now_ms);
    let earlier = listed.with_gone(previous.drop_last(), live, now_ms);
    lemma_gone_leave_the_rest(listed, previous.drop_last(), live, now_ms);
    let gone = listed.with_gone(previous, live, now_ms);
    assert forall|k: int| 0 <= k < live.len() implies (#[trigger] live[k]).session.session_id
        != row.session.session_id && live[k].session.process_id != row.session.process_id by {
        assert(live[k].session == listing.sessions[k].session);
    }
    let first = gone.store.ended[0];
    assert(gone.store.ended == with_ended(
        earlier.store.ended,
        earlier.store.ended_row(row, EndedReason::ProcessGone, now_ms),
    ));
    assert(first == earlier.store.ended_row(row, EndedReason::ProcessGone, now_ms));
    let rest = gone.store.ended.skip(1);
    assert(gone.store.ended =~= seq![first] + rest);
    lemma_taking_a_session_out(seq![first], rest, first, first.session_id, live);
    assert(is_absent(live, first.session_id));
    let kept = without_live(gone.store.ended, live);
    assert(kept == seq![first] + without_live(rest, live));
    assert(kept[0] == first);
    let revived = gone.with_revived(live);
    let rows = (Rows { live, ended: kept }).with_listings(store.agent_listings);
    assert(rows.ended == kept);
}

/// A session that takes the place of another in its process ends it. Where the other was
/// selected, the selection goes to the new one, which is followed from the beginning, and the
/// two are recorded.
pub proof fn lemma_cleared_session_is_replaced(
    store: StoreView,
    listing: SessionListingView,
    now_ms: i64,
)
    requires
        store.live_sessions.len() == 1,
        listing.sessions.len() == 1,
        store.agent_listings.len() == 0,
        store.live_sessions[0].session.process_id == listing.sessions[0].session.process_id,
        store.live_sessions[0].session.session_id != listing.sessions[0].session.session_id,
        store.selected != Some(listing.sessions[0].session.session_id),
    ensures
        ({
            let after = store.with_registry_scan(Ok(listing), now_ms);
            let replaced = store.live_sessions[0];
            let id = listing.sessions[0].session.session_id;
            &&& after.changed
            &&& after.store.ended.len() > 0
            &&& is_row_of(store, after.store.ended[0], replaced, EndedReason::Cleared, now_ms)
            &&& after.store.live_sessions.len() == 1 && after.store.live_sessions[0].session
                == listing.sessions[0].session
            &&& store.selected == Some(replaced.session.session_id) ==> {
                &&& after.store.selected == Some(id)
                &&& after.store.followed == Some(id)
                &&& after.store.main.transcript == TranscriptView::unread(false)
                &&& after.store.live == LiveStateView::quiet()
                &&& after.store.cleared_rebinds == store.cleared_rebinds + seq![
                    (replaced.session.session_id, id),
                ]
            }
            &&& store.selected != Some(replaced.session.session_id) ==> {
                &&& after.store.selected == store.selected
                &&& after.store.cleared_rebinds == store.cleared_rebinds
            }
        }),
{
    let live = listed_live(listing.sessions);
    let previous = store.live_sessions;
    let start = store.scanning(now_ms);
    let listed = start.with_all_listed(live, previous, store.selected, now_ms);
    assert(live[0].session == listing.sessions[0].session);
    lemma_sessions_are_looked_at_in_order(
        start,
        live,
        Seq::empty(),
        previous,
        store.selected,
        now_ms,
    );
    lemma_session_that_is_replaced_has_ended(
        start,
        live[0],
        previous,
        store.selected,
        now_ms,
        0,
        0,
    );
    lemma_session_that_moved_is_noted(start, live[0], previous, store.selected, now_ms);
    let gone = listed.with_gone(previous, live, now_ms);
    assert(previous.drop_last() =~= Seq::empty());
    assert(listed.with_gone(previous.drop_last(), live, now_ms) == listed);
    assert(has_process(live, previous.last().session.process_id)) by {
        assert(live[0].session.process_id == previous[0].session.process_id);
    }
    assert(gone == listed);
    let first = gone.store.ended[0];
    let rest = gone.store.ended.skip(1);
    assert(gone.store.ended =~= seq![first] + rest);
    lemma_taking_a_session_out(seq![first], rest, first, first.session_id, live);
    assert(is_absent(live, first.session_id));
    let kept = without_live(gone.store.ended, live);
    assert(kept[0] == first);
    let rows = (Rows { live, ended: kept }).with_listings(store.agent_listings);
    assert(rows.ended == kept && rows.live == live);
}

/// What is shown of the selected session: its directory, and while it is live its registration,
/// its pane and its subagents. Of one that is neither live nor ended there is nothing.
pub proof fn lemma_what_is_shown_of_the_selected_session(store: StoreView, at: int)
    ensures
        ({
            let id = store.selected->0;
            let is_live = store.selected is Some && is_first_of(store.live_sessions, at, id);
            let is_gone = store.selected is None || is_absent(store.live_sessions, id);
            let is_ended = store.selected is Some && is_gone && 0 <= at < store.ended.len()
                && store.ended[at].session_id == id && forall|k: int|
                0 <= k < at ==> (#[trigger] store.ended[k]).session_id != id;
            &&& is_live ==> {
                let session = store.live_sessions[at].session;
                &&& store.directory() == Some(session.working_directory)
                &&& store.selected_registration() == Some(session)
                &&& store.pane() == session.tmux_target
                &&& store.selected_subagents() == store.subagents_under(id)
            }
            &&& is_gone ==> {
                &&& store.selected_registration() is None && store.pane() is None
                &&& store.selected_subagents().len() == 0
            }
            &&& is_ended ==> store.directory() == Some(store.ended[at].cwd)
            &&& is_gone && (store.selected is None || forall|k: int|
                0 <= k < store.ended.len() ==> (#[trigger] store.ended[k]).session_id != id)
                ==> store.directory() is None
        }),
{
    if let Some(id) = store.selected {
        lemma_rows_are_found(store.live_sessions, store.ended, id, 0, at);
    }
}

/// The permission mode is that of the newest event that carried one, and before any did that of
/// the session's own transcript, whatever is on screen.
pub proof fn lemma_which_mode_is_shown(store: StoreView)
    ensures
        store.live.permission_mode is Some ==> store.mode() == store.live.permission_mode,
        store.live.permission_mode is None ==> store.mode()
            == store.main.transcript.permission_mode(),
{
}

/// What is reported is the message of the error; what a session spent is what the last scan
/// found; and a turn that cannot be interrupted has a reason.
pub proof fn lemma_what_is_reported(
    store: StoreView,
    source: ErrorSource,
    message: Seq<char>,
    id: Seq<char>,
)
    ensures
        store.with_error(source, message).message() == Some(message),
        store.error is None ==> store.message() is None,
        store.session_spend.contains_key(id) ==> store.spend_of(id) == Some(
            store.session_spend[id],
        ),
        !store.session_spend.contains_key(id) ==> store.spend_of(id) is None,
        interruptible(store.channel, store.live.turn) ==> store.disabled_reason() is None,
        !interruptible(store.channel, store.live.turn) ==> store.disabled_reason() == Some(
            refusal(store.channel, store.live.turn),
        ),
        store.subagents_by_session.contains_key(id) ==> store.subagents_under(id)
            == store.subagents_by_session[id],
        !store.subagents_by_session.contains_key(id) ==> store.subagents_under(id).len() == 0,
        store.is_channel_live() <==> store.channel is Some && store.channel->0.live,
        timeout_text(message) == message + " has not answered in 20 s"@,
{
}

/// What is said of a request that could not be written begins with what was asked, and ends
/// with what went wrong.
pub proof fn lemma_failed_request_says_what_was_asked(
    claude_pid: u32,
    text: Seq<char>,
    allow: bool,
    error: Seq<char>,
)
    ensures
        failure_text(ChannelRequestView::Interrupt { claude_pid, reason: text }, error)
            == "Interrupting the session: "@ + error,
        failure_text(ChannelRequestView::Message { claude_pid, content: text }, error)
            == "Sending to the session: "@ + error,
        failure_text(ChannelRequestView::Permission { claude_pid, request_id: text, allow }, error)
            == "Answering the permission: "@ + error,
{
}

} // verus!
