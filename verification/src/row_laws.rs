//! What holds of the rows of the list of sessions.
use crate::session_registry::AgentListingView;
use crate::session_rows::{
    ended_with_id, id_of_process, lemma_ended_position, lemma_live_position, live_position, live_with_id, with_ended,
    without_id, without_live, EndedSessionView, LiveSessionView, Rows,
};
use vstd::prelude::*;

verus! {

/// Whether a row is the first of its session among the live ones.
pub open spec fn is_first_of(live: Seq<LiveSessionView>, at: int, id: Seq<char>) -> bool {
    &&& 0 <= at < live.len()
    &&& live[at].session.session_id == id
    &&& forall|k: int| 0 <= k < at ==> (#[trigger] live[k]).session.session_id != id
}

/// Whether no live row is of a session.
pub open spec fn is_absent(live: Seq<LiveSessionView>, id: Seq<char>) -> bool {
    forall|k: int| 0 <= k < live.len() ==> (#[trigger] live[k]).session.session_id != id
}

/// The registration of a row, as it is but for its status and its process.
pub open spec fn same_registration(before: LiveSessionView, after: LiveSessionView) -> bool {
    &&& after.session.session_id == before.session.session_id
    &&& after.session.working_directory == before.session.working_directory
    &&& after.session.process_start == before.session.process_start
    &&& after.session.version == before.session.version
    &&& after.session.kind == before.session.kind
    &&& after.session.name == before.session.name
    &&& after.session.updated_at == before.session.updated_at
    &&& after.session.tmux_target == before.session.tmux_target
    &&& after.session.bridge_session_id == before.session.bridge_session_id
}

/// Whether all rows but one are the same in two lists.
pub open spec fn same_but_for(
    before: Seq<LiveSessionView>,
    after: Seq<LiveSessionView>,
    at: int,
) -> bool {
    &&& after.len() == before.len()
    &&& forall|k: int| 0 <= k < before.len() && k != at ==> #[trigger] after[k] == before[k]
}

proof fn lemma_first(live: Seq<LiveSessionView>, at: int, id: Seq<char>)
    requires
        is_first_of(live, at, id),
    ensures
        live_position(live, id, 0) == at,
{
    lemma_live_position(live, id, 0);
    let found = live_position(live, id, 0);
    if found < at {
        assert(live[found].session.session_id != id);
    }
}

proof fn lemma_none(live: Seq<LiveSessionView>, id: Seq<char>)
    requires
        is_absent(live, id),
    ensures
        live_position(live, id, 0) == live.len(),
{
    lemma_live_position(live, id, 0);
}

proof fn lemma_kinds_differ()
    ensures
        "background"@ != "interactive"@,
{
    reveal_strlit("background");
    reveal_strlit("interactive");
    assert("background"@.len() == 10);
    assert("interactive"@.len() == 11);
}

/// The listing of an interactive agent puts its status, where it names one, and what it waits
/// for in the place of those of its session, whatever they were; nothing else of the row and
/// no other row changes.
pub proof fn lemma_interactive_listing_states_the_status(
    rows: Rows,
    listing: AgentListingView,
    id: Seq<char>,
    at: int,
)
    requires
        listing.kind == "interactive"@,
        listing.session_id == Some(id),
        is_first_of(rows.live, at, id),
    ensures
        ({
            let after = rows.with_listing(listing);
            &&& listing.status is Some ==> after.live[at].session.status == listing.status
            &&& listing.status is None ==> after.live[at].session.status
                == rows.live[at].session.status
            &&& after.live[at].waiting_for == listing.waiting_for
            &&& after.live[at].session.process_id == rows.live[at].session.process_id
            &&& after.live[at].background == rows.live[at].background
            &&& after.live[at].agent_id == rows.live[at].agent_id
            &&& after.live[at].state == rows.live[at].state
            &&& same_registration(rows.live[at], after.live[at])
            &&& same_but_for(rows.live, after.live, at)
            &&& after.ended == rows.ended
        }),
{
    lemma_first(rows.live, at, id);
    lemma_kinds_differ();
}

/// Whether a background agent is there: it has a process, or is working, or is blocked.
pub open spec fn is_there(listing: AgentListingView) -> bool {
    listing.process_id is Some || listing.state == Some("working"@) || listing.state == Some(
        "blocked"@,
    )
}

/// The listing of a background agent that is there marks its session as its own, with its id,
/// its state, what it waits for and, where it names one, its process.
pub proof fn lemma_background_listing_marks_its_session(
    rows: Rows,
    listing: AgentListingView,
    id: Seq<char>,
    at: int,
)
    requires
        listing.kind == "background"@,
        listing.session_id == Some(id),
        is_there(listing),
        is_first_of(rows.live, at, id),
    ensures
        ({
            let after = rows.with_listing(listing);
            &&& after.live[at].background
            &&& after.live[at].agent_id == listing.id
            &&& after.live[at].state == listing.state
            &&& after.live[at].waiting_for == listing.waiting_for
            &&& listing.process_id is Some ==> Some(after.live[at].session.process_id)
                == listing.process_id
            &&& listing.process_id is None ==> after.live[at].session.process_id
                == rows.live[at].session.process_id
            &&& after.live[at].session.status == rows.live[at].session.status
            &&& same_registration(rows.live[at], after.live[at])
            &&& same_but_for(rows.live, after.live, at)
            &&& after.ended == rows.ended
        }),
{
    lemma_first(rows.live, at, id);
}

/// A background agent that is there and whose session is not listed is a session of its own,
/// behind the others, as its listing describes it; an ended row of that session is gone, and
/// the others stay.
pub proof fn lemma_background_listing_adds_its_session(
    rows: Rows,
    listing: AgentListingView,
    id: Seq<char>,
)
    requires
        listing.kind == "background"@,
        listing.session_id == Some(id),
        is_there(listing),
        is_absent(rows.live, id),
    ensures
        ({
            let after = rows.with_listing(listing);
            let row = after.live.last();
            &&& after.live.len() == rows.live.len() + 1
            &&& after.live.drop_last() == rows.live
            &&& row.session.session_id == id
            &&& listing.process_id is Some ==> Some(row.session.process_id) == listing.process_id
            &&& listing.process_id is None ==> row.session.process_id == 0
            &&& listing.working_directory is Some ==> Some(row.session.working_directory)
                == listing.working_directory
            &&& listing.working_directory is None ==> row.session.working_directory.len() == 0
            &&& row.session.kind == "background"@
            &&& row.session.name == listing.name && row.session.status == listing.status
            &&& row.session.process_start.len() == 0 && row.session.version.len() == 0
            &&& row.session.updated_at is None && row.session.tmux_target is None
                && row.session.bridge_session_id is None
            &&& row.background && row.agent_id == listing.id && row.state == listing.state
                && row.waiting_for == listing.waiting_for
            &&& forall|ended: EndedSessionView| #[trigger]
                after.ended.contains(ended) <==> rows.ended.contains(ended) && ended.session_id
                    != id
        }),
{
    lemma_none(rows.live, id);
    lemma_left_rows(rows.ended, id);
    assert(rows.with_listing(listing).live.drop_last() =~= rows.live);
}

/// A listing that names no session, a background agent that is not there, an interactive one
/// whose session is not listed, and an agent of another kind leave the rows as they are.
pub proof fn lemma_other_listings_change_nothing(rows: Rows, listing: AgentListingView)
    requires
        ({
            ||| listing.session_id is None
            ||| listing.kind == "background"@ && !is_there(listing)
            ||| listing.kind == "interactive"@ && is_absent(rows.live, listing.session_id->0)
            ||| listing.kind != "background"@ && listing.kind != "interactive"@
        }),
    ensures
        rows.with_listing(listing) == rows,
{
    lemma_kinds_differ();
    if let Some(id) = listing.session_id {
        if is_absent(rows.live, id) {
            lemma_none(rows.live, id);
        }
    }
}

/// Listings are taken in one after the other.
pub proof fn lemma_listings_are_taken_in_order(
    rows: Rows,
    first: Seq<AgentListingView>,
    second: Seq<AgentListingView>,
)
    ensures
        rows.with_listings(first + second) == rows.with_listings(first).with_listings(second),
        first.len() == 0 ==> rows.with_listings(first) == rows,
        first.len() == 1 ==> rows.with_listings(first) == rows.with_listing(first[0]),
    decreases second.len(),
{
    if second.len() > 0 {
        lemma_listings_are_taken_in_order(rows, first, second.drop_last());
        assert((first + second).drop_last() =~= first + second.drop_last());
    } else {
        assert(first + second =~= first);
    }
    if first.len() == 1 {
        assert(first.drop_last() =~= Seq::empty());
        assert(rows.with_listings(first.drop_last()) == rows);
    }
}

proof fn lemma_left_rows(ended: Seq<EndedSessionView>, id: Seq<char>)
    ensures
        forall|row: EndedSessionView| #[trigger]
            without_id(ended, id).contains(row) <==> ended.contains(row) && row.session_id != id,
    decreases ended.len(),
{
    if ended.len() > 0 {
        let front = ended.drop_last();
        lemma_left_rows(front, id);
        lemma_pushed(front, ended);
        if ended.last().session_id != id {
            assert(without_id(ended, id).drop_last() =~= without_id(front, id));
            lemma_pushed(without_id(front, id), without_id(ended, id));
        }
    }
}

proof fn lemma_pushed(front: Seq<EndedSessionView>, rows: Seq<EndedSessionView>)
    requires
        rows.len() > 0,
        rows.drop_last() == front,
    ensures
        forall|row: EndedSessionView| #[trigger]
            rows.contains(row) <==> front.contains(row) || row == rows.last(),
{
    assert forall|row: EndedSessionView| #[trigger] rows.contains(row) <==> front.contains(row)
        || row == rows.last() by {
        if front.contains(row) {
            let k = choose|k: int| 0 <= k < front.len() && front[k] == row;
            assert(rows[k] == row);
        }
        if row == rows.last() {
            assert(rows[rows.len() - 1] == row);
        }
        if rows.contains(row) {
            let k = choose|k: int| 0 <= k < rows.len() && rows[k] == row;
            if k < front.len() {
                assert(front[k] == row);
            }
        }
    }
}

/// Taking the rows of a session out of two lists of ended ones, one behind the other, is
/// taking them out of each; of one row it leaves exactly one that is of another session. So
/// the others stay, in their order.
pub proof fn lemma_taking_a_session_out(
    first: Seq<EndedSessionView>,
    second: Seq<EndedSessionView>,
    row: EndedSessionView,
    id: Seq<char>,
    live: Seq<LiveSessionView>,
)
    ensures
        without_id(first + second, id) == without_id(first, id) + without_id(second, id),
        without_id(seq![row], id) == (if row.session_id == id {
            Seq::empty()
        } else {
            seq![row]
        }),
        without_live(first + second, live) == without_live(first, live) + without_live(second, live),
        without_live(seq![row], live) == (if is_absent(live, row.session_id) {
            seq![row]
        } else {
            Seq::empty()
        }),
    decreases second.len(),
{
    if second.len() > 0 {
        lemma_taking_a_session_out(first, second.drop_last(), row, id, live);
        assert((first + second).drop_last() =~= first + second.drop_last());
        assert(without_id(first + second, id) =~= without_id(first, id) + without_id(second, id));
        assert(without_live(first + second, live) =~= without_live(first, live) + without_live(
            second,
            live,
        ));
    } else {
        assert(first + second =~= first);
        assert(without_id(first, id) + without_id(second, id) =~= without_id(first, id));
        assert(without_live(first, live) + without_live(second, live) =~= without_live(first, live));
    }
    let one = seq![row];
    assert(one.drop_last() =~= Seq::empty());
    assert(without_id(one.drop_last(), id) =~= Seq::empty());
    assert(without_live(one.drop_last(), live) =~= Seq::empty());
    assert(without_id(one, id) =~= (if row.session_id == id {
        Seq::empty()
    } else {
        seq![row]
    }));
    assert(without_live(one, live) =~= (if is_absent(live, row.session_id) {
        seq![row]
    } else {
        Seq::empty()
    }));
}

/// A session that ends is the first of the ended rows. The others stay behind it in their
/// order, without an earlier row of it, as far as there is room for twenty.
pub proof fn lemma_newest_ended_is_first(ended: Seq<EndedSessionView>, row: EndedSessionView)
    ensures
        ({
            let after = with_ended(ended, row);
            let others = without_id(ended, row.session_id);
            &&& after.len() > 0 && after[0] == row
            &&& after.len() == (if others.len() < 20 {
                others.len() + 1
            } else {
                20
            })
            &&& forall|k: int| 1 <= k < after.len() ==> #[trigger] after[k] == others[k - 1]
        }),
{
}

/// The row of a session is the first that is listed for it, and the session of a process the
/// last that was listed for that.
pub proof fn lemma_rows_are_found(
    live: Seq<LiveSessionView>,
    ended: Seq<EndedSessionView>,
    id: Seq<char>,
    process_id: u32,
    at: int,
)
    ensures
        is_first_of(live, at, id) ==> live_with_id(live, id) == Some(live[at]),
        is_absent(live, id) ==> live_with_id(live, id) is None,
        0 <= at < ended.len() && ended[at].session_id == id && (forall|k: int|
            0 <= k < at ==> (#[trigger] ended[k]).session_id != id) ==> ended_with_id(ended, id)
            == Some(ended[at]),
        (forall|k: int| 0 <= k < ended.len() ==> (#[trigger] ended[k]).session_id != id)
            ==> ended_with_id(ended, id) is None,
        0 <= at < live.len() && live[at].session.process_id == process_id && (forall|k: int|
            at < k < live.len() ==> (#[trigger] live[k]).session.process_id != process_id)
            ==> id_of_process(live, process_id) == Some(live[at].session.session_id),
        (forall|k: int|
            0 <= k < live.len() ==> (#[trigger] live[k]).session.process_id != process_id)
            ==> id_of_process(live, process_id) is None,
{
    lemma_live_position(live, id, 0);
    lemma_ended_position(ended, id, 0);
    if is_first_of(live, at, id) {
        lemma_first(live, at, id);
    }
    if 0 <= at < ended.len() && ended[at].session_id == id && (forall|k: int|
        0 <= k < at ==> (#[trigger] ended[k]).session_id != id) {
        let found = crate::session_rows::ended_position(ended, id, 0);
        if found < at {
            assert(ended[found].session_id != id);
        }
    }
    lemma_process(live, process_id, at);
}

proof fn lemma_process(live: Seq<LiveSessionView>, process_id: u32, at: int)
    ensures
        0 <= at < live.len() && live[at].session.process_id == process_id && (forall|k: int|
            at < k < live.len() ==> (#[trigger] live[k]).session.process_id != process_id)
            ==> id_of_process(live, process_id) == Some(live[at].session.session_id),
        (forall|k: int|
            0 <= k < live.len() ==> (#[trigger] live[k]).session.process_id != process_id)
            ==> id_of_process(live, process_id) is None,
    decreases live.len(),
{
    if live.len() > 0 {
        let front = live.drop_last();
        assert(forall|k: int| 0 <= k < front.len() ==> front[k] == live[k]);
        assert(live.last() == live[live.len() - 1]);
        lemma_process(front, process_id, at);
    }
}

} // verus!
