//! The rows of the session list: sessions that run, and sessions that have ended.
use crate::session_registry::{
    AgentListing, AgentListingView, RegisteredSession, RegisteredSessionView,
};
use crate::text::{copy_option, same_option, same_text, text_option};
use vstd::prelude::*;

verus! {

/// How many ended sessions are kept.
pub const ENDED_KEEP: usize = 20;

#[derive(Clone, Copy, Debug, PartialEq, Eq, Structural)]
pub enum EndedReason {
    ProcessGone,
    Cleared,
}

#[derive(Clone, Debug, PartialEq)]
pub struct EndedSession {
    pub session_id: String,
    pub name: Option<String>,
    pub ai_title: Option<String>,
    pub cwd: String,
    pub tmux: Option<String>,
    pub bridge_session_id: Option<String>,
    pub transcript_path: Option<String>,
    pub last_seen_ms: i64,
    pub ended_reason: EndedReason,
}

/// What an [`EndedSession`] says.
pub struct EndedSessionView {
    pub session_id: Seq<char>,
    pub name: Option<Seq<char>>,
    pub ai_title: Option<Seq<char>>,
    pub cwd: Seq<char>,
    pub tmux: Option<Seq<char>>,
    pub bridge_session_id: Option<Seq<char>>,
    pub transcript_path: Option<Seq<char>>,
    pub last_seen_ms: i64,
    pub ended_reason: EndedReason,
}

impl View for EndedSession {
    type V = EndedSessionView;

    open spec fn view(&self) -> EndedSessionView {
        EndedSessionView {
            session_id: self.session_id@,
            name: text_option(self.name),
            ai_title: text_option(self.ai_title),
            cwd: self.cwd@,
            tmux: text_option(self.tmux),
            bridge_session_id: text_option(self.bridge_session_id),
            transcript_path: text_option(self.transcript_path),
            last_seen_ms: self.last_seen_ms,
            ended_reason: self.ended_reason,
        }
    }
}

impl EndedSession {
    /// A row equal to this one.
    pub fn duplicate(&self) -> (copy: EndedSession)
        ensures
            copy@ == self@,
    {
        EndedSession {
            session_id: self.session_id.clone(),
            name: copy_option(&self.name),
            ai_title: copy_option(&self.ai_title),
            cwd: self.cwd.clone(),
            tmux: copy_option(&self.tmux),
            bridge_session_id: copy_option(&self.bridge_session_id),
            transcript_path: copy_option(&self.transcript_path),
            last_seen_ms: self.last_seen_ms,
            ended_reason: self.ended_reason,
        }
    }
}

#[derive(Clone, Debug, PartialEq)]
pub struct LiveSession {
    pub session: RegisteredSession,
    pub background: bool,
    pub agent_id: Option<String>,
    pub state: Option<String>,
    pub waiting_for: Option<String>,
}

/// What a [`LiveSession`] says.
pub struct LiveSessionView {
    pub session: RegisteredSessionView,
    pub background: bool,
    pub agent_id: Option<Seq<char>>,
    pub state: Option<Seq<char>>,
    pub waiting_for: Option<Seq<char>>,
}

impl View for LiveSession {
    type V = LiveSessionView;

    open spec fn view(&self) -> LiveSessionView {
        LiveSessionView {
            session: self.session@,
            background: self.background,
            agent_id: text_option(self.agent_id),
            state: text_option(self.state),
            waiting_for: text_option(self.waiting_for),
        }
    }
}

impl LiveSessionView {
    /// A session of which nothing but its registration is known.
    pub open spec fn registered(session: RegisteredSessionView) -> LiveSessionView {
        LiveSessionView {
            session,
            background: false,
            agent_id: None,
            state: None,
            waiting_for: None,
        }
    }
}

impl LiveSession {
    pub fn registered(session: RegisteredSession) -> (live: LiveSession)
        ensures
            live@ == LiveSessionView::registered(session@),
    {
        LiveSession {
            session,
            background: false,
            agent_id: None,
            state: None,
            waiting_for: None,
        }
    }

    /// Whether two rows say the same.
    pub fn same_as(&self, other: &LiveSession) -> (result: bool)
        ensures
            result == (self@ == other@),
    {
        self.session.same_as(&other.session) && self.background == other.background && same_option(
            &self.agent_id,
            &other.agent_id,
        ) && same_option(&self.state, &other.state) && same_option(
            &self.waiting_for,
            &other.waiting_for,
        )
    }

    /// A row equal to this one.
    pub fn duplicate(&self) -> (copy: LiveSession)
        ensures
            copy@ == self@,
    {
        LiveSession {
            session: self.session.duplicate(),
            background: self.background,
            agent_id: copy_option(&self.agent_id),
            state: copy_option(&self.state),
            waiting_for: copy_option(&self.waiting_for),
        }
    }
}

pub(crate) fn same_live(left: &Vec<LiveSession>, right: &Vec<LiveSession>) -> (result: bool)
    ensures
        result == (live_views(left@) == live_views(right@)),
{
    assert(live_views(left@).len() == left@.len() && live_views(right@).len() == right@.len());
    if left.len() != right.len() {
        return false;
    }
    let mut i: usize = 0;
    while i < left.len()
        invariant
            i <= left@.len(),
            left@.len() == right@.len(),
            forall|k: int| 0 <= k < i ==> (#[trigger] left@[k])@ == right@[k]@,
        decreases left@.len() - i,
    {
        if !left[i].same_as(&right[i]) {
            assert(live_views(left@)[i as int] != live_views(right@)[i as int]);
            return false;
        }
        i = i + 1;
    }
    assert(live_views(left@) =~= live_views(right@));
    true
}

#[derive(Clone, Debug, PartialEq)]
pub enum SessionRow {
    Live(LiveSession),
    Ended(EndedSession),
}

/// What a [`SessionRow`] says.
pub enum SessionRowView {
    Live(LiveSessionView),
    Ended(EndedSessionView),
}

impl View for SessionRow {
    type V = SessionRowView;

    open spec fn view(&self) -> SessionRowView {
        match *self {
            SessionRow::Live(live) => SessionRowView::Live(live@),
            SessionRow::Ended(ended) => SessionRowView::Ended(ended@),
        }
    }
}

impl SessionRow {
    pub fn session_id(&self) -> (id: &str)
        ensures
            id@ == (match self@ {
                SessionRowView::Live(live) => live.session.session_id,
                SessionRowView::Ended(ended) => ended.session_id,
            }),
    {
        match self {
            SessionRow::Live(live) => live.session.session_id.as_str(),
            SessionRow::Ended(ended) => ended.session_id.as_str(),
        }
    }
}

pub open spec fn live_views(live: Seq<LiveSession>) -> Seq<LiveSessionView> {
    live.map_values(|live: LiveSession| live@)
}

pub open spec fn ended_views(ended: Seq<EndedSession>) -> Seq<EndedSessionView> {
    ended.map_values(|ended: EndedSession| ended@)
}

pub open spec fn row_views(rows: Seq<SessionRow>) -> Seq<SessionRowView> {
    rows.map_values(|row: SessionRow| row@)
}

/// The first live session at or behind `from` with this id; the number of sessions where
/// there is none.
pub open spec fn live_position(live: Seq<LiveSessionView>, id: Seq<char>, from: int) -> int
    decreases live.len() - from,
{
    if from >= live.len() {
        live.len() as int
    } else if live[from].session.session_id == id {
        from
    } else {
        live_position(live, id, from + 1)
    }
}

/// The first live session with this id.
pub open spec fn live_with_id(live: Seq<LiveSessionView>, id: Seq<char>) -> Option<LiveSessionView> {
    let position = live_position(live, id, 0);
    if position < live.len() {
        Some(live[position])
    } else {
        None
    }
}

pub open spec fn has_live(live: Seq<LiveSessionView>, id: Seq<char>) -> bool {
    exists|k: int| 0 <= k < live.len() && (#[trigger] live[k]).session.session_id == id
}

pub open spec fn has_process(live: Seq<LiveSessionView>, process_id: u32) -> bool {
    exists|k: int| 0 <= k < live.len() && (#[trigger] live[k]).session.process_id == process_id
}

pub open spec fn has_live_process(live: Seq<LiveSessionView>, id: Seq<char>, process_id: u32) -> bool {
    exists|k: int|
        0 <= k < live.len() && (#[trigger] live[k]).session.session_id == id
            && live[k].session.process_id == process_id
}

/// The session id that a process id was last listed under.
pub open spec fn id_of_process(live: Seq<LiveSessionView>, process_id: u32) -> Option<Seq<char>>
    decreases live.len(),
{
    if live.len() == 0 {
        None
    } else if live.last().session.process_id == process_id {
        Some(live.last().session.session_id)
    } else {
        id_of_process(live.drop_last(), process_id)
    }
}

/// The first ended session at or behind `from` with this id; the number of sessions where
/// there is none.
pub open spec fn ended_position(ended: Seq<EndedSessionView>, id: Seq<char>, from: int) -> int
    decreases ended.len() - from,
{
    if from >= ended.len() {
        ended.len() as int
    } else if ended[from].session_id == id {
        from
    } else {
        ended_position(ended, id, from + 1)
    }
}

pub open spec fn ended_with_id(ended: Seq<EndedSessionView>, id: Seq<char>) -> Option<
    EndedSessionView,
> {
    let position = ended_position(ended, id, 0);
    if position < ended.len() {
        Some(ended[position])
    } else {
        None
    }
}

pub open spec fn has_ended(ended: Seq<EndedSessionView>, id: Seq<char>) -> bool {
    exists|k: int| 0 <= k < ended.len() && (#[trigger] ended[k]).session_id == id
}

/// The ended sessions whose id is not one of `ids`' live sessions.
pub open spec fn without_live(ended: Seq<EndedSessionView>, live: Seq<LiveSessionView>) -> Seq<
    EndedSessionView,
>
    decreases ended.len(),
{
    if ended.len() == 0 {
        Seq::empty()
    } else {
        let earlier = without_live(ended.drop_last(), live);
        if has_live(live, ended.last().session_id) {
            earlier
        } else {
            earlier.push(ended.last())
        }
    }
}

/// The ended sessions without those of one id.
pub open spec fn without_id(ended: Seq<EndedSessionView>, id: Seq<char>) -> Seq<EndedSessionView>
    decreases ended.len(),
{
    if ended.len() == 0 {
        Seq::empty()
    } else {
        let earlier = without_id(ended.drop_last(), id);
        if ended.last().session_id == id {
            earlier
        } else {
            earlier.push(ended.last())
        }
    }
}

/// The ended sessions with one more: in front, without an earlier row of its id, and no
/// more than are kept.
pub open spec fn with_ended(ended: Seq<EndedSessionView>, row: EndedSessionView) -> Seq<
    EndedSessionView,
> {
    let rows = seq![row] + without_id(ended, row.session_id);
    if rows.len() > ENDED_KEEP {
        rows.take(ENDED_KEEP as int)
    } else {
        rows
    }
}

pub(crate) proof fn lemma_live_position(live: Seq<LiveSessionView>, id: Seq<char>, from: int)
    requires
        0 <= from <= live.len(),
    ensures
        from <= live_position(live, id, from) <= live.len(),
        live_position(live, id, from) < live.len() ==> live[live_position(
            live,
            id,
            from,
        )].session.session_id == id,
        forall|k: int|
            from <= k < live_position(live, id, from) ==> (#[trigger] live[k]).session.session_id
                != id,
    decreases live.len() - from,
{
    if from < live.len() && live[from].session.session_id != id {
        lemma_live_position(live, id, from + 1);
    }
}

pub(crate) proof fn lemma_ended_position(ended: Seq<EndedSessionView>, id: Seq<char>, from: int)
    requires
        0 <= from <= ended.len(),
    ensures
        from <= ended_position(ended, id, from) <= ended.len(),
        ended_position(ended, id, from) < ended.len() ==> ended[ended_position(
            ended,
            id,
            from,
        )].session_id == id,
        forall|k: int|
            from <= k < ended_position(ended, id, from) ==> (#[trigger] ended[k]).session_id != id,
    decreases ended.len() - from,
{
    if from < ended.len() && ended[from].session_id != id {
        lemma_ended_position(ended, id, from + 1);
    }
}

/// The position of the first live session with this id.
pub(crate) fn find_live(live: &Vec<LiveSession>, id: &str) -> (position: Option<usize>)
    ensures
        match position {
            Some(at) => at < live@.len() && at == live_position(live_views(live@), id@, 0)
                && live@[at as int].session.session_id@ == id@ && has_live(live_views(live@), id@),
            None => live_position(live_views(live@), id@, 0) == live@.len() && !has_live(
                live_views(live@),
                id@,
            ),
        },
{
    let ghost views = live_views(live@);
    proof {
        lemma_live_position(views, id@, 0);
    }
    let mut i: usize = 0;
    while i < live.len()
        invariant
            i <= live@.len(),
            views == live_views(live@),
            live_position(views, id@, 0) == live_position(views, id@, i as int),
            forall|k: int| 0 <= k < i ==> (#[trigger] views[k]).session.session_id != id@,
        decreases live@.len() - i,
    {
        assert(views[i as int] == live@[i as int]@);
        if same_text(live[i].session.session_id.as_str(), id) {
            return Some(i);
        }
        i = i + 1;
    }
    None
}

pub(crate) fn find_ended(ended: &Vec<EndedSession>, id: &str) -> (position: Option<usize>)
    ensures
        match position {
            Some(at) => at < ended@.len() && at == ended_position(ended_views(ended@), id@, 0)
                && ended@[at as int].session_id@ == id@ && has_ended(ended_views(ended@), id@),
            None => ended_position(ended_views(ended@), id@, 0) == ended@.len() && !has_ended(
                ended_views(ended@),
                id@,
            ),
        },
{
    let ghost views = ended_views(ended@);
    proof {
        lemma_ended_position(views, id@, 0);
    }
    let mut i: usize = 0;
    while i < ended.len()
        invariant
            i <= ended@.len(),
            views == ended_views(ended@),
            ended_position(views, id@, 0) == ended_position(views, id@, i as int),
            forall|k: int| 0 <= k < i ==> (#[trigger] views[k]).session_id != id@,
        decreases ended@.len() - i,
    {
        assert(views[i as int] == ended@[i as int]@);
        if same_text(ended[i].session_id.as_str(), id) {
            return Some(i);
        }
        i = i + 1;
    }
    None
}

/// Whether some live session has this process id.
pub(crate) fn any_process(live: &Vec<LiveSession>, process_id: u32) -> (result: bool)
    ensures
        result == has_process(live_views(live@), process_id),
{
    let ghost views = live_views(live@);
    let mut i: usize = 0;
    while i < live.len()
        invariant
            i <= live@.len(),
            views == live_views(live@),
            forall|k: int| 0 <= k < i ==> (#[trigger] views[k]).session.process_id != process_id,
        decreases live@.len() - i,
    {
        assert(views[i as int] == live@[i as int]@);
        if live[i].session.process_id == process_id {
            return true;
        }
        i = i + 1;
    }
    false
}

/// Whether some live session has this id and this process id.
pub(crate) fn any_live_process(live: &Vec<LiveSession>, id: &str, process_id: u32) -> (result: bool)
    ensures
        result == has_live_process(live_views(live@), id@, process_id),
{
    let ghost views = live_views(live@);
    let mut i: usize = 0;
    while i < live.len()
        invariant
            i <= live@.len(),
            views == live_views(live@),
            forall|k: int|
                0 <= k < i ==> !((#[trigger] views[k]).session.session_id == id@
                    && views[k].session.process_id == process_id),
        decreases live@.len() - i,
    {
        assert(views[i as int] == live@[i as int]@);
        if live[i].session.process_id == process_id && same_text(
            live[i].session.session_id.as_str(),
            id,
        ) {
            return true;
        }
        i = i + 1;
    }
    false
}

/// The session id that a process id was last listed under.
pub(crate) fn last_id_of_process(live: &Vec<LiveSession>, process_id: u32) -> (id: Option<&String>)
    ensures
        (match id {
            Some(id) => Some(id@),
            None => None,
        }) == id_of_process(live_views(live@), process_id),
{
    let ghost views = live_views(live@);
    let mut left: usize = live.len();
    assert(views.take(left as int) =~= views);
    while left > 0
        invariant
            left <= live@.len(),
            views == live_views(live@),
            id_of_process(views, process_id) == id_of_process(views.take(left as int), process_id),
        decreases left,
    {
        proof {
            assert(views.take(left as int).last() == live@[left - 1]@);
            assert(views.take(left as int).drop_last() =~= views.take(left - 1));
        }
        if live[left - 1].session.process_id == process_id {
            return Some(&live[left - 1].session.session_id);
        }
        left = left - 1;
    }
    None
}

/// Takes the ended sessions out whose id is live again. Says whether there was one.
pub(crate) fn drop_live(ended: &mut Vec<EndedSession>, live: &Vec<LiveSession>) -> (changed: bool)
    ensures
        ended_views(final(ended)@) == without_live(ended_views(old(ended)@), live_views(live@)),
        changed == (final(ended)@.len() != old(ended)@.len()),
{
    let ghost all = ended@;
    let before: usize = ended.len();
    let mut rest: Vec<EndedSession> = Vec::new();
    std::mem::swap(&mut rest, ended);
    let mut kept: Vec<EndedSession> = Vec::new();
    assert(ended_views(kept@) =~= Seq::empty());
    for row in it: rest
        invariant
            it.seq() == all,
            ended_views(kept@) == without_live(
                ended_views(all.take(it.index())),
                live_views(live@),
            ),
    {
        proof {
            let now = ended_views(all.take(it.index() + 1));
            assert(now.drop_last() =~= ended_views(all.take(it.index())));
            assert(now.last() == row@);
        }
        if find_live(live, row.session_id.as_str()).is_none() {
            let ghost shorter = kept@;
            kept.push(row);
            assert(ended_views(kept@) =~= ended_views(shorter).push(row@));
        }
    }
    assert(all.take(all.len() as int) =~= all);
    *ended = kept;
    ended.len() != before
}

/// Takes the ended sessions of one id out. Says whether there was one.
pub(crate) fn drop_id(ended: &mut Vec<EndedSession>, id: &str) -> (changed: bool)
    ensures
        ended_views(final(ended)@) == without_id(ended_views(old(ended)@), id@),
        changed == (final(ended)@.len() != old(ended)@.len()),
{
    let ghost all = ended@;
    let before: usize = ended.len();
    let mut rest: Vec<EndedSession> = Vec::new();
    std::mem::swap(&mut rest, ended);
    let mut kept: Vec<EndedSession> = Vec::new();
    assert(ended_views(kept@) =~= Seq::empty());
    for row in it: rest
        invariant
            it.seq() == all,
            ended_views(kept@) == without_id(ended_views(all.take(it.index())), id@),
    {
        proof {
            let now = ended_views(all.take(it.index() + 1));
            assert(now.drop_last() =~= ended_views(all.take(it.index())));
            assert(now.last() == row@);
        }
        if !same_text(row.session_id.as_str(), id) {
            let ghost shorter = kept@;
            kept.push(row);
            assert(ended_views(kept@) =~= ended_views(shorter).push(row@));
        }
    }
    assert(all.take(all.len() as int) =~= all);
    *ended = kept;
    ended.len() != before
}

/// Puts a session in front of the ended ones.
pub(crate) fn push_ended(ended: &mut Vec<EndedSession>, row: EndedSession)
    ensures
        ended_views(final(ended)@) == with_ended(ended_views(old(ended)@), row@),
{
    let ghost before = ended_views(ended@);
    drop_id(ended, row.session_id.as_str());
    ended.insert(0, row);
    assert(ended_views(ended@) =~= seq![row@] + without_id(before, row@.session_id));
    if ended.len() > ENDED_KEEP {
        let ghost rows = ended_views(ended@);
        ended.truncate(ENDED_KEEP);
        assert(ended_views(ended@) =~= rows.take(ENDED_KEEP as int));
    }
}

proof fn lemma_without_id(ended: Seq<EndedSessionView>, id: Seq<char>)
    ensures
        without_id(ended, id).len() <= ended.len(),
        forall|k: int|
            0 <= k < without_id(ended, id).len() ==> (#[trigger] without_id(ended, id)[k]).session_id
                != id && ended.contains(without_id(ended, id)[k]),
        distinct_ended(ended) ==> distinct_ended(without_id(ended, id)),
    decreases ended.len(),
{
    if ended.len() > 0 {
        let front = ended.drop_last();
        lemma_without_id(front, id);
        let kept = without_id(front, id);
        let all = without_id(ended, id);
        assert(ended.last() == ended[ended.len() - 1]);
        assert forall|k: int| 0 <= k < all.len() implies (#[trigger] all[k]).session_id != id
            && ended.contains(all[k]) by {
            if k < kept.len() {
                assert(all[k] == kept[k]);
                let at = choose|at: int| 0 <= at < front.len() && front[at] == kept[k];
                assert(ended[at] == all[k]);
            } else {
                assert(ended[ended.len() - 1] == all[k]);
            }
        }
        if distinct_ended(ended) {
            assert(distinct_ended(front)) by {
                assert forall|a: int, b: int|
                    #![trigger front[a], front[b]]
                    0 <= a < b < front.len() implies front[a].session_id != front[b].session_id by {
                    assert(ended[a] == front[a] && ended[b] == front[b]);
                }
            }
            assert forall|a: int, b: int|
                #![trigger all[a], all[b]]
                0 <= a < b < all.len() implies all[a].session_id != all[b].session_id by {
                assert(all[a] == kept[a]);
                let at = choose|at: int| 0 <= at < front.len() && front[at] == kept[a];
                assert(ended[at] == front[at]);
                if b < kept.len() {
                    assert(all[b] == kept[b]);
                } else {
                    assert(all[b] == ended[ended.len() - 1]);
                }
            }
        }
    }
}

/// No two ended rows have one id.
pub open spec fn distinct_ended(ended: Seq<EndedSessionView>) -> bool {
    forall|a: int, b: int|
        #![trigger ended[a], ended[b]]
        0 <= a < b < ended.len() ==> ended[a].session_id != ended[b].session_id
}

/// Adding an ended session puts it in front, keeps the ids distinct, and keeps no more
/// than [`ENDED_KEEP`] rows.
pub proof fn lemma_ended_rows_stay_bounded(ended: Seq<EndedSessionView>, row: EndedSessionView)
    requires
        distinct_ended(ended),
    ensures
        with_ended(ended, row).len() <= ENDED_KEEP,
        with_ended(ended, row).len() > 0,
        with_ended(ended, row)[0] == row,
        distinct_ended(with_ended(ended, row)),
{
    lemma_without_id(ended, row.session_id);
    let rest = without_id(ended, row.session_id);
    let kept = with_ended(ended, row);
    assert forall|a: int, b: int|
        #![trigger kept[a], kept[b]]
        0 <= a < b < kept.len() implies kept[a].session_id != kept[b].session_id by {
        assert(kept[b] == rest[b - 1]);
        if a > 0 {
            assert(kept[a] == rest[a - 1]);
        }
    }
}

/// A session that is listed as live is not among the ended ones that remain.
pub proof fn lemma_live_sessions_are_not_ended(
    ended: Seq<EndedSessionView>,
    live: Seq<LiveSessionView>,
)
    ensures
        forall|k: int|
            0 <= k < without_live(ended, live).len() ==> !has_live(
                live,
                (#[trigger] without_live(ended, live)[k]).session_id,
            ),
    decreases ended.len(),
{
    if ended.len() > 0 {
        let front = ended.drop_last();
        lemma_live_sessions_are_not_ended(front, live);
        let kept = without_live(front, live);
        let all = without_live(ended, live);
        assert forall|k: int| 0 <= k < all.len() implies !has_live(
            live,
            (#[trigger] all[k]).session_id,
        ) by {
            if k < kept.len() {
                assert(all[k] == kept[k]);
            }
        }
    }
}

/// The live and the ended sessions.
#[verifier::ext_equal]
pub struct Rows {
    pub live: Seq<LiveSessionView>,
    pub ended: Seq<EndedSessionView>,
}

/// Whether a background agent is there to be shown: it has a process, or it is at work.
pub open spec fn is_active(listing: AgentListingView) -> bool {
    ||| listing.process_id is Some
    ||| listing.state == Some("working"@)
    ||| listing.state == Some("blocked"@)
}

/// The live session that a background agent without a registration is shown as.
pub open spec fn background_session(listing: AgentListingView, id: Seq<char>) -> LiveSessionView {
    LiveSessionView {
        session: RegisteredSessionView {
            process_id: match listing.process_id {
                Some(process_id) => process_id,
                None => 0,
            },
            session_id: id,
            working_directory: crate::json::text_or_empty(listing.working_directory),
            process_start: Seq::empty(),
            version: Seq::empty(),
            kind: "background"@,
            name: listing.name,
            status: listing.status,
            updated_at: None,
            tmux_target: None,
            bridge_session_id: None,
        },
        background: true,
        agent_id: listing.id,
        state: listing.state,
        waiting_for: listing.waiting_for,
    }
}

/// A live session with what the listing of its background agent says.
pub open spec fn with_background(live: LiveSessionView, listing: AgentListingView) -> LiveSessionView {
    LiveSessionView {
        session: RegisteredSessionView {
            process_id: match listing.process_id {
                Some(process_id) => process_id,
                None => live.session.process_id,
            },
            ..live.session
        },
        background: true,
        agent_id: listing.id,
        state: listing.state,
        waiting_for: listing.waiting_for,
    }
}

/// A live session with what the listing of its interactive agent says.
pub open spec fn with_interactive(live: LiveSessionView, listing: AgentListingView) -> LiveSessionView {
    LiveSessionView {
        session: RegisteredSessionView {
            status: if listing.status is Some {
                listing.status
            } else {
                live.session.status
            },
            ..live.session
        },
        waiting_for: listing.waiting_for,
        ..live
    }
}

impl Rows {
    /// The rows with one listing taken into account. A background agent that is there
    /// marks its session, or is a session of its own; an interactive one only adds to a
    /// session that is listed.
    pub open spec fn with_listing(self, listing: AgentListingView) -> Rows {
        match listing.session_id {
            Some(id) => {
                let at = live_position(self.live, id, 0);
                if listing.kind == "background"@ {
                    if !is_active(listing) {
                        self
                    } else if at < self.live.len() {
                        Rows {
                            live: self.live.update(at, with_background(self.live[at], listing)),
                            ..self
                        }
                    } else {
                        Rows {
                            live: self.live.push(background_session(listing, id)),
                            ended: without_id(self.ended, id),
                        }
                    }
                } else if listing.kind == "interactive"@ && at < self.live.len() {
                    Rows {
                        live: self.live.update(at, with_interactive(self.live[at], listing)),
                        ..self
                    }
                } else {
                    self
                }
            },
            None => self,
        }
    }

    /// The rows with all listings taken into account, in their order.
    pub open spec fn with_listings(self, listings: Seq<AgentListingView>) -> Rows
        decreases listings.len(),
    {
        if listings.len() == 0 {
            self
        } else {
            self.with_listings(listings.drop_last()).with_listing(listings.last())
        }
    }
}

pub open spec fn listing_views(listings: Seq<AgentListing>) -> Seq<AgentListingView> {
    listings.map_values(|listing: AgentListing| listing@)
}

pub open spec fn rows_of(live: Seq<LiveSession>, ended: Seq<EndedSession>) -> Rows {
    Rows { live: live_views(live), ended: ended_views(ended) }
}

fn is_state(state: &Option<String>, expected: &str) -> (result: bool)
    ensures
        result == (text_option(*state) == Some(expected@)),
{
    match state {
        Some(state) => same_text(state.as_str(), expected),
        None => false,
    }
}

fn merge_listing(live: &mut Vec<LiveSession>, ended: &mut Vec<EndedSession>, listing: &AgentListing)
    ensures
        rows_of(final(live)@, final(ended)@) == rows_of(old(live)@, old(ended)@).with_listing(
            listing@,
        ),
{
    let ghost before = rows_of(live@, ended@);
    let id = match &listing.session_id {
        Some(id) => id,
        None => {
            return;
        },
    };
    if same_text(listing.kind.as_str(), "background") {
        let active = listing.process_id.is_some() || is_state(&listing.state, "working")
            || is_state(&listing.state, "blocked");
        if !active {
            return;
        }
        match find_live(live, id.as_str()) {
            Some(at) => {
                let mut session = live[at].session.duplicate();
                if let Some(process_id) = listing.process_id {
                    session.process_id = process_id;
                }
                let row = LiveSession {
                    session,
                    background: true,
                    agent_id: copy_option(&listing.id),
                    state: copy_option(&listing.state),
                    waiting_for: copy_option(&listing.waiting_for),
                };
                assert(before.live[at as int] == live@[at as int]@);
                assert(row@ == with_background(before.live[at as int], listing@));
                live.set(at, row);
                assert(live_views(live@) =~= before.live.update(at as int, row@));
            },
            None => {
                let process_id: u32 = match listing.process_id {
                    Some(process_id) => process_id,
                    None => 0,
                };
                let working_directory = match &listing.working_directory {
                    Some(directory) => directory.clone(),
                    None => String::new(),
                };
                let row = LiveSession {
                    session: RegisteredSession {
                        process_id,
                        session_id: id.clone(),
                        working_directory,
                        process_start: String::new(),
                        version: String::new(),
                        kind: "background".to_owned(),
                        name: copy_option(&listing.name),
                        status: copy_option(&listing.status),
                        updated_at: None,
                        tmux_target: None,
                        bridge_session_id: None,
                    },
                    background: true,
                    agent_id: copy_option(&listing.id),
                    state: copy_option(&listing.state),
                    waiting_for: copy_option(&listing.waiting_for),
                };
                assert(row@ == background_session(listing@, id@));
                live.push(row);
                assert(live_views(live@) =~= before.live.push(row@));
                drop_id(ended, id.as_str());
            },
        }
    } else if same_text(listing.kind.as_str(), "interactive") {
        if let Some(at) = find_live(live, id.as_str()) {
            let mut row = live[at].duplicate();
            assert(before.live[at as int] == live@[at as int]@);
            if let Some(status) = &listing.status {
                row.session.status = Some(status.clone());
            }
            row.waiting_for = copy_option(&listing.waiting_for);
            assert(row@ == with_interactive(before.live[at as int], listing@));
            live.set(at, row);
            assert(live_views(live@) =~= before.live.update(at as int, row@));
        }
    }
}

/// Takes the listings of agents into the rows.
pub(crate) fn merge_listings(
    live: &mut Vec<LiveSession>,
    ended: &mut Vec<EndedSession>,
    listings: &Vec<AgentListing>,
)
    ensures
        rows_of(final(live)@, final(ended)@) == rows_of(old(live)@, old(ended)@).with_listings(
            listing_views(listings@),
        ),
{
    let ghost start = rows_of(live@, ended@);
    let ghost all = listing_views(listings@);
    let mut i: usize = 0;
    assert(all.take(0) =~= Seq::empty());
    while i < listings.len()
        invariant
            i <= listings@.len(),
            all == listing_views(listings@),
            rows_of(live@, ended@) == start.with_listings(all.take(i as int)),
        decreases listings@.len() - i,
    {
        proof {
            assert(all[i as int] == listings@[i as int]@);
            assert(all.take(i + 1).drop_last() =~= all.take(i as int));
            assert(all.take(i + 1).last() == all[i as int]);
        }
        merge_listing(live, ended, &listings[i]);
        i = i + 1;
    }
    assert(all.take(i as int) =~= all);
}

/// A session that an active background agent brings back is live and no longer ended.
pub proof fn lemma_background_agent_revives_its_session(rows: Rows, listing: AgentListingView)
    requires
        listing.kind == "background"@,
        listing.session_id is Some,
        is_active(listing),
        !has_live(rows.live, listing.session_id->0),
    ensures
        has_live(rows.with_listing(listing).live, listing.session_id->0),
        !has_ended(rows.with_listing(listing).ended, listing.session_id->0),
{
    let id = listing.session_id->0;
    lemma_live_position(rows.live, id, 0);
    lemma_without_id(rows.ended, id);
    let after = rows.with_listing(listing);
    assert(after.live[rows.live.len() as int].session.session_id == id);
}

/// The ended rows are few, and each is of another session.
pub open spec fn ended_rows_are_kept(ended: Seq<EndedSessionView>) -> bool {
    &&& ended.len() <= ENDED_KEEP
    &&& distinct_ended(ended)
}

pub(crate) proof fn lemma_adding_keeps_rows(ended: Seq<EndedSessionView>, row: EndedSessionView)
    requires
        ended_rows_are_kept(ended),
    ensures
        ended_rows_are_kept(with_ended(ended, row)),
{
    lemma_ended_rows_stay_bounded(ended, row);
}

pub(crate) proof fn lemma_kept_rows(ended: Seq<EndedSessionView>, live: Seq<LiveSessionView>)
    requires
        ended_rows_are_kept(ended),
    ensures
        ended_rows_are_kept(without_live(ended, live)),
        forall|k: int|
            0 <= k < without_live(ended, live).len() ==> ended.contains(
                #[trigger] without_live(ended, live)[k],
            ),
        without_live(ended, live).len() <= ended.len(),
    decreases ended.len(),
{
    if ended.len() > 0 {
        let front = ended.drop_last();
        assert forall|a: int, b: int|
            #![trigger front[a], front[b]]
            0 <= a < b < front.len() implies front[a].session_id != front[b].session_id by {
            assert(ended[a] == front[a] && ended[b] == front[b]);
        }
        lemma_kept_rows(front, live);
        let kept = without_live(front, live);
        let all = without_live(ended, live);
        assert(ended.last() == ended[ended.len() - 1]);
        assert forall|k: int| 0 <= k < all.len() implies ended.contains(#[trigger] all[k]) by {
            if k < kept.len() {
                assert(all[k] == kept[k]);
                let at = choose|at: int| 0 <= at < front.len() && front[at] == kept[k];
                assert(ended[at] == all[k]);
            } else {
                assert(ended[ended.len() - 1] == all[k]);
            }
        }
        assert forall|a: int, b: int|
            #![trigger all[a], all[b]]
            0 <= a < b < all.len() implies all[a].session_id != all[b].session_id by {
            assert(all[a] == kept[a]);
            let at = choose|at: int| 0 <= at < front.len() && front[at] == kept[a];
            assert(ended[at] == front[at]);
            if b < kept.len() {
                assert(all[b] == kept[b]);
            } else {
                assert(all[b] == ended[ended.len() - 1]);
            }
        }
    }
}

pub(crate) proof fn lemma_without_id_keeps_rows(ended: Seq<EndedSessionView>, id: Seq<char>)
    requires
        ended_rows_are_kept(ended),
    ensures
        ended_rows_are_kept(without_id(ended, id)),
        forall|other: Seq<char>|
            !has_ended(ended, other) ==> !#[trigger] has_ended(without_id(ended, id), other),
        without_id(ended, id).len() <= ended.len(),
        forall|k: int|
            0 <= k < without_id(ended, id).len() ==> ended.contains(
                #[trigger] without_id(ended, id)[k],
            ),
    decreases ended.len(),
{
    if ended.len() > 0 {
        let front = ended.drop_last();
        assert forall|a: int, b: int|
            #![trigger front[a], front[b]]
            0 <= a < b < front.len() implies front[a].session_id != front[b].session_id by {
            assert(ended[a] == front[a] && ended[b] == front[b]);
        }
        lemma_without_id_keeps_rows(front, id);
        let kept = without_id(front, id);
        let all = without_id(ended, id);
        assert(ended.last() == ended[ended.len() - 1]);
        assert forall|k: int| 0 <= k < all.len() implies ended.contains(#[trigger] all[k]) by {
            if k < kept.len() {
                assert(all[k] == kept[k]);
                let at = choose|at: int| 0 <= at < front.len() && front[at] == kept[k];
                assert(ended[at] == all[k]);
            } else {
                assert(ended[ended.len() - 1] == all[k]);
            }
        }
        assert forall|a: int, b: int|
            #![trigger all[a], all[b]]
            0 <= a < b < all.len() implies all[a].session_id != all[b].session_id by {
            assert(all[a] == kept[a]);
            let at = choose|at: int| 0 <= at < front.len() && front[at] == kept[a];
            assert(ended[at] == front[at]);
            if b < kept.len() {
                assert(all[b] == kept[b]);
            } else {
                assert(all[b] == ended[ended.len() - 1]);
            }
        }
        assert forall|other: Seq<char>| !has_ended(ended, other) implies !#[trigger] has_ended(
            all,
            other,
        ) by {
            if has_ended(all, other) {
                let k = choose|k: int|
                    0 <= k < all.len() && (#[trigger] all[k]).session_id == other;
                assert(ended.contains(all[k]));
                let at = choose|at: int| 0 <= at < ended.len() && ended[at] == all[k];
                assert(ended[at].session_id == other);
            }
        }
    }
}

/// No session is both live and ended.
pub open spec fn live_and_ended_are_apart(rows: Rows) -> bool {
    forall|k: int|
        0 <= k < rows.ended.len() ==> !has_live(rows.live, (#[trigger] rows.ended[k]).session_id)
}

proof fn lemma_listing_keeps_rows(rows: Rows, listing: AgentListingView)
    requires
        ended_rows_are_kept(rows.ended),
    ensures
        ended_rows_are_kept(rows.with_listing(listing).ended),
        live_and_ended_are_apart(rows) ==> live_and_ended_are_apart(rows.with_listing(listing)),
{
    if let Some(id) = listing.session_id {
        lemma_live_position(rows.live, id, 0);
        lemma_without_id_keeps_rows(rows.ended, id);
        lemma_without_id(rows.ended, id);
        let after = rows.with_listing(listing);
        if live_and_ended_are_apart(rows) {
            assert forall|k: int| 0 <= k < after.ended.len() implies !has_live(
                after.live,
                (#[trigger] after.ended[k]).session_id,
            ) by {
                let row = after.ended[k];
                if after.ended.len() == rows.ended.len() && after.ended == rows.ended {
                    assert(!has_live(rows.live, rows.ended[k].session_id));
                } else {
                    assert(rows.ended.contains(row));
                    let old = choose|old: int| 0 <= old < rows.ended.len() && rows.ended[old] == row;
                    assert(!has_live(rows.live, rows.ended[old].session_id));
                }
                if has_live(after.live, row.session_id) {
                    let l = choose|l: int|
                        0 <= l < after.live.len() && (#[trigger] after.live[l]).session.session_id
                            == row.session_id;
                    if l < rows.live.len() {
                        assert(rows.live[l].session.session_id == row.session_id);
                        assert(has_live(rows.live, row.session_id));
                    } else {
                        assert(row.session_id == id);
                    }
                }
            }
        }
    }
}

/// The listings of agents keep the ended rows few and each of another session, and a live
/// session that they add is no longer an ended one.
pub proof fn lemma_merging_keeps_rows(rows: Rows, listings: Seq<AgentListingView>)
    requires
        ended_rows_are_kept(rows.ended),
    ensures
        ended_rows_are_kept(rows.with_listings(listings).ended),
        live_and_ended_are_apart(rows) ==> live_and_ended_are_apart(rows.with_listings(listings)),
    decreases listings.len(),
{
    if listings.len() > 0 {
        lemma_merging_keeps_rows(rows, listings.drop_last());
        lemma_listing_keeps_rows(rows.with_listings(listings.drop_last()), listings.last());
    }
}

} // verus!
