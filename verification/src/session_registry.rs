//! Registered sessions: what a registration file says, whether its process is alive, and
//! which registrations a project shows.
use crate::double::Double;
use crate::json::{text_or_empty, Json, JsonView};
use crate::order::{
    is_ascending, is_stable_sort, lemma_ascending_is_unique, lemma_empty_is_sorted, lemma_insert_sorted, sorts_by,
};
use crate::paths::{is_within, path_starts_with};
use crate::text::{
    copy_option, lemma_text_before_is_total, lemma_text_before_is_transitive, precedes, same_option, same_text,
    text_before, text_option,
};
use crate::transcript::{
    can_hold_fields, holds_fields, read_slot, read_text, slot_value, text_slot, Slot,
};
use vstd::prelude::*;

verus! {

#[derive(Debug, Clone, PartialEq, Eq)]
pub struct RegisteredSession {
    pub process_id: u32,
    pub session_id: String,
    pub working_directory: String,
    pub process_start: String,
    pub version: String,
    pub kind: String,
    pub name: Option<String>,
    pub status: Option<String>,
    pub updated_at: Option<i64>,
    pub tmux_target: Option<String>,
    pub bridge_session_id: Option<String>,
}

/// What a [`RegisteredSession`] says.
pub struct RegisteredSessionView {
    pub process_id: u32,
    pub session_id: Seq<char>,
    pub working_directory: Seq<char>,
    pub process_start: Seq<char>,
    pub version: Seq<char>,
    pub kind: Seq<char>,
    pub name: Option<Seq<char>>,
    pub status: Option<Seq<char>>,
    pub updated_at: Option<i64>,
    pub tmux_target: Option<Seq<char>>,
    pub bridge_session_id: Option<Seq<char>>,
}

impl View for RegisteredSession {
    type V = RegisteredSessionView;

    open spec fn view(&self) -> RegisteredSessionView {
        RegisteredSessionView {
            process_id: self.process_id,
            session_id: self.session_id@,
            working_directory: self.working_directory@,
            process_start: self.process_start@,
            version: self.version@,
            kind: self.kind@,
            name: text_option(self.name),
            status: text_option(self.status),
            updated_at: self.updated_at,
            tmux_target: text_option(self.tmux_target),
            bridge_session_id: text_option(self.bridge_session_id),
        }
    }
}

impl RegisteredSession {
    /// Whether two registrations say the same.
    pub fn same_as(&self, other: &RegisteredSession) -> (result: bool)
        ensures
            result == (self@ == other@),
    {
        self.process_id == other.process_id && same_text(
            self.session_id.as_str(),
            other.session_id.as_str(),
        ) && same_text(self.working_directory.as_str(), other.working_directory.as_str())
            && same_text(self.process_start.as_str(), other.process_start.as_str()) && same_text(
            self.version.as_str(),
            other.version.as_str(),
        ) && same_text(self.kind.as_str(), other.kind.as_str()) && same_option(
            &self.name,
            &other.name,
        ) && same_option(&self.status, &other.status) && self.updated_at == other.updated_at
            && same_option(&self.tmux_target, &other.tmux_target) && same_option(
            &self.bridge_session_id,
            &other.bridge_session_id,
        )
    }

    /// A session equal to this one.
    pub fn duplicate(&self) -> (copy: RegisteredSession)
        ensures
            copy@ == self@,
    {
        RegisteredSession {
            process_id: self.process_id,
            session_id: self.session_id.clone(),
            working_directory: self.working_directory.clone(),
            process_start: self.process_start.clone(),
            version: self.version.clone(),
            kind: self.kind.clone(),
            name: copy_option(&self.name),
            status: copy_option(&self.status),
            updated_at: self.updated_at,
            tmux_target: copy_option(&self.tmux_target),
            bridge_session_id: copy_option(&self.bridge_session_id),
        }
    }
}

/// A field that is needed is missing from a registration, or one that is known is of another
/// kind.
#[derive(Clone, Copy, Debug, PartialEq, Eq, Structural)]
pub struct RegistrationError;

pub open spec fn process_id_slot(value: Option<JsonView>) -> Slot<u32> {
    match value {
        None => Slot::Absent,
        Some(JsonView::Number(number)) => match number.unsigned {
            Some(id) if id <= u32::MAX => Slot::Value(id as u32),
            _ => Slot::Mistyped,
        },
        _ => Slot::Mistyped,
    }
}

pub open spec fn time_slot(value: Option<JsonView>) -> Slot<i64> {
    match value {
        None => Slot::Absent,
        Some(JsonView::Null) => Slot::Absent,
        Some(JsonView::Number(number)) => match number.signed {
            Some(time) => Slot::Value(time),
            None => Slot::Mistyped,
        },
        _ => Slot::Mistyped,
    }
}

/// The session that a value registers. Six fields are needed, five may be missing or null,
/// and others are ignored.
pub open spec fn registration_of(value: JsonView) -> Option<RegisteredSessionView> {
    let process_id = process_id_slot(slot_value(value, "pid"@, 0));
    let session_id = text_slot(slot_value(value, "sessionId"@, 1));
    let working_directory = text_slot(slot_value(value, "cwd"@, 2));
    let process_start = text_slot(slot_value(value, "procStart"@, 3));
    let version = text_slot(slot_value(value, "version"@, 4));
    let kind = text_slot(slot_value(value, "kind"@, 5));
    let name = text_slot(slot_value(value, "name"@, 6));
    let status = text_slot(slot_value(value, "status"@, 7));
    let updated_at = time_slot(slot_value(value, "updatedAt"@, 8));
    let tmux_target = text_slot(slot_value(value, "tmux"@, 9));
    let bridge_session_id = text_slot(slot_value(value, "bridgeSessionId"@, 10));
    if holds_fields(value, 11) && process_id is Value && session_id is Value
        && working_directory is Value && process_start is Value && version is Value && kind is Value
        && !(name is Mistyped) && !(status is Mistyped) && !(updated_at is Mistyped) && !(
    tmux_target is Mistyped) && !(bridge_session_id is Mistyped) {
        Some(
            RegisteredSessionView {
                process_id: process_id->Value_0,
                session_id: session_id->Value_0,
                working_directory: working_directory->Value_0,
                process_start: process_start->Value_0,
                version: version->Value_0,
                kind: kind->Value_0,
                name: name.option(),
                status: status.option(),
                updated_at: updated_at.option(),
                tmux_target: tmux_target.option(),
                bridge_session_id: bridge_session_id.option(),
            },
        )
    } else {
        None
    }
}

fn needed_text(value: &Json, key: &str, position: usize) -> (text: Option<String>)
    ensures
        text_option(text) == text_slot(slot_value(value@, key@, position as int)).option(),
{
    match read_text(read_slot(value, key, position)) {
        Ok(text) => text,
        Err(_) => None,
    }
}

fn read_process_id(value: Option<&Json>) -> (id: Option<u32>)
    ensures
        id == process_id_slot(crate::json::json_ref_option(value)).option(),
{
    match value {
        Some(Json::Number(number)) => match number.unsigned {
            Some(id) => if id <= 0xFFFF_FFFF {
                Some(id as u32)
            } else {
                None
            },
            None => None,
        },
        _ => None,
    }
}

fn read_time(value: Option<&Json>) -> (time: Result<Option<i64>, RegistrationError>)
    ensures
        match time {
            Ok(time) => time == time_slot(crate::json::json_ref_option(value)).option() && !(
            time_slot(crate::json::json_ref_option(value)) is Mistyped),
            Err(_) => time_slot(
                crate::json::json_ref_option(value),
            ) is Mistyped,
        },
{
    match value {
        None => Ok(None),
        Some(Json::Null) => Ok(None),
        Some(Json::Number(number)) => match number.signed {
            Some(time) => Ok(Some(time)),
            None => Err(RegistrationError),
        },
        _ => Err(RegistrationError),
    }
}

fn optional_text(value: &Json, key: &str, position: usize) -> (text: Result<
    Option<String>,
    RegistrationError,
>)
    ensures
        ({
            let slot = text_slot(slot_value(value@, key@, position as int));
            match text {
                Ok(text) => text_option(text) == slot.option() && !(slot is Mistyped),
                Err(_) => slot is Mistyped,
            }
        }),
{
    match read_text(read_slot(value, key, position)) {
        Ok(text) => Ok(text),
        Err(_) => Err(RegistrationError),
    }
}

/// The session that a registration's JSON value is. Fields that are not known are ignored; a
/// missing field that is needed is an error.
pub fn registration_from_json(value: &Json) -> (result: Result<RegisteredSession, RegistrationError>)
    ensures
        match result {
            Ok(session) => registration_of(value@) == Some(session@),
            Err(_) => registration_of(value@) is None,
        },
{
    if !can_hold_fields(value, 11) {
        return Err(RegistrationError);
    }
    let needed = (
        read_process_id(read_slot(value, "pid", 0)),
        needed_text(value, "sessionId", 1),
        needed_text(value, "cwd", 2),
        needed_text(value, "procStart", 3),
        needed_text(value, "version", 4),
        needed_text(value, "kind", 5),
    );
    let name = match optional_text(value, "name", 6) {
        Ok(text) => text,
        Err(error) => {
            return Err(error);
        },
    };
    let status = match optional_text(value, "status", 7) {
        Ok(text) => text,
        Err(error) => {
            return Err(error);
        },
    };
    let updated_at = match read_time(read_slot(value, "updatedAt", 8)) {
        Ok(time) => time,
        Err(error) => {
            return Err(error);
        },
    };
    let tmux_target = match optional_text(value, "tmux", 9) {
        Ok(text) => text,
        Err(error) => {
            return Err(error);
        },
    };
    let bridge_session_id = match optional_text(value, "bridgeSessionId", 10) {
        Ok(text) => text,
        Err(error) => {
            return Err(error);
        },
    };
    match needed {
        (
            Some(process_id),
            Some(session_id),
            Some(working_directory),
            Some(process_start),
            Some(version),
            Some(kind),
        ) => Ok(
            RegisteredSession {
                process_id,
                session_id,
                working_directory,
                process_start,
                version,
                kind,
                name,
                status,
                updated_at,
                tmux_target,
                bridge_session_id,
            },
        ),
        _ => Err(RegistrationError),
    }
}

#[derive(Debug, PartialEq, Eq, Clone, Copy, Structural)]
pub enum Liveness {
    Live,
    StaleHeartbeat,
    ProcessGone,
    PidReused,
}

/// Whether a session is alive, given when the process of its id started: not at all, at
/// another time than it was registered with, or, for a session that says when it last
/// changed, too long ago.
pub open spec fn liveness_of(
    session: RegisteredSessionView,
    now_millis: i64,
    stale_after_millis: i64,
    process_start: Option<Seq<char>>,
) -> Liveness {
    match process_start {
        None => Liveness::ProcessGone,
        Some(start) => if start != session.process_start {
            Liveness::PidReused
        } else {
            match session.updated_at {
                Some(updated_at) if capped_difference(now_millis, updated_at)
                    > stale_after_millis => Liveness::StaleHeartbeat,
                _ => Liveness::Live,
            }
        },
    }
}

/// The difference, kept to the bounds of `i64`.
pub open spec fn capped_difference(a: i64, b: i64) -> int {
    if a - b > i64::MAX {
        i64::MAX as int
    } else if a - b < i64::MIN {
        i64::MIN as int
    } else {
        a - b
    }
}

/// Where no silence is too long, liveness is the process being alive and nothing else: a
/// session that sits idle stays live, however long ago it wrote its status.
pub proof fn lemma_liveness_is_the_process(
    session: RegisteredSessionView,
    now_millis: i64,
    process_start: Option<Seq<char>>,
)
    ensures
        liveness_of(session, now_millis, i64::MAX, process_start) == (match process_start {
            None => Liveness::ProcessGone,
            Some(start) => if start == session.process_start {
                Liveness::Live
            } else {
                Liveness::PidReused
            },
        }),
{
}

/// [`liveness`] where the start of the process has been looked up already.
pub fn liveness_given_start(
    session: &RegisteredSession,
    now_millis: i64,
    stale_after_millis: i64,
    process_start: &Option<String>,
) -> (liveness: Liveness)
    ensures
        liveness == liveness_of(
            session@,
            now_millis,
            stale_after_millis,
            text_option(*process_start),
        ),
{
    match process_start {
        None => Liveness::ProcessGone,
        Some(start) => {
            if !same_text(start.as_str(), session.process_start.as_str()) {
                return Liveness::PidReused;
            }
            if let Some(updated_at) = session.updated_at {
                let elapsed: i128 = now_millis as i128 - updated_at as i128;
                let elapsed: i128 = if elapsed > i64::MAX as i128 {
                    i64::MAX as i128
                } else if elapsed < i64::MIN as i128 {
                    i64::MIN as i128
                } else {
                    elapsed
                };
                if elapsed > stale_after_millis as i128 {
                    return Liveness::StaleHeartbeat;
                }
            }
            Liveness::Live
        },
    }
}

/// Whether a registered session is alive. The lookup says when the process of an id
/// started, if there is one; it is asked for the session's own.
pub fn liveness<F: Fn(u32) -> Option<String>>(
    session: &RegisteredSession,
    now_millis: i64,
    stale_after_millis: i64,
    process_start_of_pid: &F,
) -> (liveness: Liveness)
    requires
        forall|process_id: u32| call_requires(*process_start_of_pid, (process_id,)),
    ensures
        exists|start: Option<String>|
            #![auto]
            call_ensures(*process_start_of_pid, (session.process_id,), start) && liveness
                == liveness_of(session@, now_millis, stale_after_millis, text_option(start)),
{
    let start = process_start_of_pid(session.process_id);
    liveness_given_start(session, now_millis, stale_after_millis, &start)
}

/// A session belongs to a project if its working directory is the root or lies below it.
pub open spec fn is_in_project(session: RegisteredSessionView, root: Option<Seq<char>>) -> bool {
    match root {
        Some(root) => is_within(session.working_directory, root),
        None => false,
    }
}

/// The order in which sessions are shown: the project's own before the others, then by
/// name, then by process id.
pub open spec fn shown_before(root: Option<Seq<char>>) -> spec_fn(
    RegisteredSessionView,
    RegisteredSessionView,
) -> bool {
    |a: RegisteredSessionView, b: RegisteredSessionView|
        {
            let a_name = text_or_empty(a.name);
            let b_name = text_or_empty(b.name);
            if is_in_project(a, root) != is_in_project(b, root) {
                is_in_project(a, root)
            } else if a_name != b_name {
                text_before(a_name, b_name)
            } else {
                a.process_id < b.process_id
            }
        }
}

pub open spec fn is_shown(
    session: RegisteredSessionView,
    now_millis: i64,
    stale_after_millis: i64,
    start: Option<Seq<char>>,
) -> bool {
    session.kind == "interactive"@ && liveness_of(session, now_millis, stale_after_millis, start)
        == Liveness::Live
}

/// The sessions that are shown, in the order they came in, where `starts` says of each
/// when its process started.
pub open spec fn shown_sessions(
    sessions: Seq<RegisteredSession>,
    starts: Seq<Option<String>>,
    now_millis: i64,
    stale_after_millis: i64,
) -> Seq<RegisteredSessionView>
    decreases sessions.len(),
{
    if sessions.len() == 0 {
        Seq::empty()
    } else {
        let earlier = shown_sessions(
            sessions.drop_last(),
            starts.drop_last(),
            now_millis,
            stale_after_millis,
        );
        if is_shown(
            sessions.last()@,
            now_millis,
            stale_after_millis,
            text_option(starts.last()),
        ) {
            earlier.push(sessions.last()@)
        } else {
            earlier
        }
    }
}

pub open spec fn session_views(sessions: Seq<RegisteredSession>) -> Seq<RegisteredSessionView> {
    sessions.map_values(|session: RegisteredSession| session@)
}

fn in_project(session: &RegisteredSession, root: Option<&str>) -> (result: bool)
    ensures
        result == is_in_project(session@, crate::transcript::str_option(root)),
{
    match root {
        Some(root) => path_starts_with(session.working_directory.as_str(), root),
        None => false,
    }
}

fn name_of(session: &RegisteredSession) -> (name: &str)
    ensures
        name@ == text_or_empty(session@.name),
{
    proof {
        reveal_strlit("");
        assert(""@ =~= Seq::empty());
    }
    match &session.name {
        Some(name) => name.as_str(),
        None => "",
    }
}

fn stands_before(a: &RegisteredSession, b: &RegisteredSession, root: Option<&str>) -> (result: bool)
    ensures
        result == shown_before(crate::transcript::str_option(root))(a@, b@),
{
    let a_in = in_project(a, root);
    let b_in = in_project(b, root);
    if a_in != b_in {
        return a_in;
    }
    let a_name = name_of(a);
    let b_name = name_of(b);
    if !same_text(a_name, b_name) {
        return precedes(a_name, b_name);
    }
    a.process_id < b.process_id
}

proof fn lemma_shown_order(
    a: RegisteredSessionView,
    b: RegisteredSessionView,
    c: RegisteredSessionView,
    root: Option<Seq<char>>,
)
    ensures
        ({
            let before = shown_before(root);
            &&& before(a, b) ==> !before(b, a)
            &&& before(a, c) ==> before(a, b) || before(b, c)
            &&& a.process_id != b.process_id ==> before(a, b) || before(b, a)
        }),
{
    let a_name = text_or_empty(a.name);
    let b_name = text_or_empty(b.name);
    let c_name = text_or_empty(c.name);
    lemma_text_before_is_total(a_name, b_name);
    lemma_text_before_is_total(b_name, c_name);
    lemma_text_before_is_total(a_name, c_name);
    if text_before(b_name, a_name) && text_before(a_name, c_name) {
        lemma_text_before_is_transitive(b_name, a_name, c_name);
    }
}

/// [`visible_sessions`] where the starts of the processes have been looked up already.
pub fn visible_sessions_given_starts(
    sessions: Vec<RegisteredSession>,
    starts: &Vec<Option<String>>,
    project_root: Option<&str>,
    now_millis: i64,
    stale_after_millis: i64,
) -> (visible: Vec<RegisteredSession>)
    requires
        sessions@.len() == starts@.len(),
    ensures
        is_stable_sort(
            shown_sessions(sessions@, starts@, now_millis, stale_after_millis),
            session_views(visible@),
            shown_before(crate::transcript::str_option(project_root)),
        ),
{
    let ghost all = sessions@;
    let ghost root = crate::transcript::str_option(project_root);
    let ghost before = shown_before(root);
    let count: usize = starts.len();
    let mut visible: Vec<RegisteredSession> = Vec::new();
    let mut i: usize = 0;
    proof {
        lemma_empty_is_sorted(before);
        assert(session_views(visible@) =~= Seq::empty());
    }
    for session in it: sessions
        invariant
            it.seq() == all,
            all.len() == starts@.len(),
            count == starts@.len(),
            i == it.index(),
            root == crate::transcript::str_option(project_root),
            before == shown_before(root),
            is_stable_sort(
                shown_sessions(
                    all.take(it.index()),
                    starts@.take(it.index()),
                    now_millis,
                    stale_after_millis,
                ),
                session_views(visible@),
                before,
            ),
    {
        proof {
            let n = it.index();
            assert(all.take(n + 1).drop_last() =~= all.take(n));
            assert(starts@.take(n + 1).drop_last() =~= starts@.take(n));
            assert(all.take(n + 1).last() == session);
            assert(starts@.take(n + 1).last() == starts@[n]);
        }
        let ghost chosen = shown_sessions(
            all.take(i as int),
            starts@.take(i as int),
            now_millis,
            stale_after_millis,
        );
        let live = liveness_given_start(&session, now_millis, stale_after_millis, &starts[i]);
        if same_text(session.kind.as_str(), "interactive") && live == Liveness::Live {
            let mut position: usize = visible.len();
            while position > 0 && stands_before(&session, &visible[position - 1], project_root)
                invariant
                    position <= visible@.len(),
                    root == crate::transcript::str_option(project_root),
                    before == shown_before(root),
                    forall|k: int|
                        position <= k < visible@.len() ==> before(session@, #[trigger] session_views(visible@)[k]),
                decreases position,
            {
                assert(session_views(visible@)[position - 1] == visible@[position - 1]@);
                position = position - 1;
            }
            proof {
                let views = session_views(visible@);
                let order = choose|order: Seq<int>| sorts_by(chosen, views, order, before);
                assert forall|k: int| 0 <= k < position implies !before(
                    session@,
                    #[trigger] views[k],
                ) by {
                    assert(views[position - 1] == visible@[position - 1]@);
                    if k < position - 1 {
                        assert(!before(views[position - 1], views[k]));
                        lemma_shown_order(session@, views[position - 1], views[k], root);
                    }
                }
                assert forall|x: RegisteredSessionView, y: RegisteredSessionView| #[trigger]
                    before(x, y) implies !before(y, x) by {
                    lemma_shown_order(x, y, x, root);
                }
                lemma_insert_sorted(chosen, views, session@, position as int, before);
                assert(session_views(visible@.insert(position as int, session)) =~= views.insert(
                    position as int,
                    session@,
                ));
            }
            visible.insert(position, session);
        }
        i = i + 1;
    }
    assert(all.take(all.len() as int) =~= all);
    assert(starts@.take(all.len() as int) =~= starts@);
    visible
}

/// The live interactive sessions, the project's own first. The lookup says when the
/// process of an id started; it is asked for each session's own.
pub fn visible_sessions<F: Fn(u32) -> Option<String>>(
    sessions: Vec<RegisteredSession>,
    project_root: Option<&str>,
    now_millis: i64,
    stale_after_millis: i64,
    process_start_of_pid: &F,
) -> (visible: Vec<RegisteredSession>)
    requires
        forall|process_id: u32| call_requires(*process_start_of_pid, (process_id,)),
    ensures
        exists|starts: Seq<Option<String>>|
            {
                &&& starts.len() == sessions@.len()
                &&& forall|i: int|
                    0 <= i < sessions@.len() && sessions@[i].kind@ == "interactive"@
                        ==> call_ensures(
                        *process_start_of_pid,
                        (sessions@[i].process_id,),
                        #[trigger] starts[i],
                    )
                &&& #[trigger] is_stable_sort(
                    shown_sessions(sessions@, starts, now_millis, stale_after_millis),
                    session_views(visible@),
                    shown_before(crate::transcript::str_option(project_root)),
                )
            },
{
    let mut starts: Vec<Option<String>> = Vec::new();
    let mut i: usize = 0;
    while i < sessions.len()
        invariant
            i <= sessions@.len(),
            starts@.len() == i,
            forall|process_id: u32| call_requires(*process_start_of_pid, (process_id,)),
            forall|k: int|
                0 <= k < i && sessions@[k].kind@ == "interactive"@ ==> call_ensures(
                    *process_start_of_pid,
                    (sessions@[k].process_id,),
                    #[trigger] starts@[k],
                ),
        decreases sessions@.len() - i,
    {
        if same_text(sessions[i].kind.as_str(), "interactive") {
            starts.push(process_start_of_pid(sessions[i].process_id));
        } else {
            starts.push(None);
        }
        i = i + 1;
    }
    visible_sessions_given_starts(
        sessions,
        &starts,
        project_root,
        now_millis,
        stale_after_millis,
    )
}

/// Sessions with different process ids are shown in one order, whatever order they came
/// in: the list does not flicker between two scans.
pub proof fn lemma_shown_order_is_independent_of_input(
    first: Seq<RegisteredSessionView>,
    second: Seq<RegisteredSessionView>,
    first_sorted: Seq<RegisteredSessionView>,
    second_sorted: Seq<RegisteredSessionView>,
    root: Option<Seq<char>>,
)
    requires
        is_stable_sort(first, first_sorted, shown_before(root)),
        is_stable_sort(second, second_sorted, shown_before(root)),
        forall|x: RegisteredSessionView| first.contains(x) <==> second.contains(x),
        forall|a: int, b: int|
            #![trigger first[a], first[b]]
            0 <= a < b < first.len() ==> first[a].process_id != first[b].process_id,
        forall|a: int, b: int|
            #![trigger second[a], second[b]]
            0 <= a < b < second.len() ==> second[a].process_id != second[b].process_id,
    ensures
        first_sorted == second_sorted,
{
    let before = shown_before(root);
    lemma_sorted_is_ascending(first, first_sorted, root);
    lemma_sorted_is_ascending(second, second_sorted, root);
    assert forall|x: RegisteredSessionView, y: RegisteredSessionView| #[trigger]
        before(x, y) implies !before(y, x) by {
        lemma_shown_order(x, y, x, root);
    }
    lemma_ascending_is_unique(first_sorted, second_sorted, before);
}

proof fn lemma_sorted_is_ascending(
    input: Seq<RegisteredSessionView>,
    sorted: Seq<RegisteredSessionView>,
    root: Option<Seq<char>>,
)
    requires
        is_stable_sort(input, sorted, shown_before(root)),
        forall|a: int, b: int|
            #![trigger input[a], input[b]]
            0 <= a < b < input.len() ==> input[a].process_id != input[b].process_id,
    ensures
        is_ascending(sorted, shown_before(root)),
        forall|x: RegisteredSessionView| sorted.contains(x) <==> input.contains(x),
{
    let before = shown_before(root);
    let order = choose|order: Seq<int>| sorts_by(input, sorted, order, before);
    assert forall|a: int, b: int|
        #![trigger sorted[a], sorted[b]]
        0 <= a < b < sorted.len() implies before(sorted[a], sorted[b]) by {
        assert(sorted[a] == input[order[a]]);
        assert(sorted[b] == input[order[b]]);
        assert(order[a] != order[b]);
        if order[a] < order[b] {
            assert(input[order[a]].process_id != input[order[b]].process_id);
        } else {
            assert(input[order[b]].process_id != input[order[a]].process_id);
        }
        lemma_shown_order(sorted[a], sorted[b], sorted[a], root);
    }
    assert forall|x: RegisteredSessionView| sorted.contains(x) implies input.contains(x) by {
        let k = choose|k: int| 0 <= k < sorted.len() && sorted[k] == x;
        assert(input[order[k]] == x);
    }
    assert forall|x: RegisteredSessionView| input.contains(x) implies sorted.contains(x) by {
        let k = choose|k: int| 0 <= k < input.len() && input[k] == x;
        crate::order::lemma_arrangement_is_onto(order, input.len(), k);
        let at = choose|at: int| 0 <= at < order.len() && order[at] == k;
        assert(sorted[at] == x);
    }
}

/// What the end of a session's transcript says of its spending.
#[derive(Clone, Copy, Debug, PartialEq, Eq, Structural)]
pub struct TranscriptSpend {
    pub context_tokens: u64,
    pub total_cost_usd: Option<Double>,
}

impl TranscriptSpend {
    /// Equality in which the costs compare as numbers.
    pub open spec fn equals(self, other: TranscriptSpend) -> bool {
        &&& self.context_tokens == other.context_tokens
        &&& match (self.total_cost_usd, other.total_cost_usd) {
            (Some(cost), Some(other_cost)) => cost.equals(other_cost),
            (None, None) => true,
            _ => false,
        }
    }

    pub fn equal(self, other: TranscriptSpend) -> (result: bool)
        ensures
            result == self.equals(other),
    {
        self.context_tokens == other.context_tokens && match (
            self.total_cost_usd,
            other.total_cost_usd,
        ) {
            (Some(cost), Some(other_cost)) => cost.equal(other_cost),
            (None, None) => true,
            _ => false,
        }
    }
}

/// One session of a scan.
#[derive(Debug, PartialEq, Eq)]
pub struct SessionSummary {
    pub session: RegisteredSession,
    pub transcript_path: Option<String>,
    pub spend: Option<TranscriptSpend>,
}

/// What a [`SessionSummary`] says.
pub struct SessionSummaryView {
    pub session: RegisteredSessionView,
    pub transcript_path: Option<Seq<char>>,
    pub spend: Option<TranscriptSpend>,
}

impl View for SessionSummary {
    type V = SessionSummaryView;

    open spec fn view(&self) -> SessionSummaryView {
        SessionSummaryView {
            session: self.session@,
            transcript_path: text_option(self.transcript_path),
            spend: self.spend,
        }
    }
}

/// One agent as the command line lists it.
#[derive(Debug, PartialEq, Eq)]
pub struct AgentListing {
    pub id: Option<String>,
    pub kind: String,
    pub state: Option<String>,
    pub status: Option<String>,
    pub waiting_for: Option<String>,
    pub process_id: Option<u32>,
    pub session_id: Option<String>,
    pub name: Option<String>,
    pub working_directory: Option<String>,
    pub started_at: Option<i64>,
}

/// What an [`AgentListing`] says.
pub struct AgentListingView {
    pub id: Option<Seq<char>>,
    pub kind: Seq<char>,
    pub state: Option<Seq<char>>,
    pub status: Option<Seq<char>>,
    pub waiting_for: Option<Seq<char>>,
    pub process_id: Option<u32>,
    pub session_id: Option<Seq<char>>,
    pub name: Option<Seq<char>>,
    pub working_directory: Option<Seq<char>>,
    pub started_at: Option<i64>,
}

impl View for AgentListing {
    type V = AgentListingView;

    open spec fn view(&self) -> AgentListingView {
        AgentListingView {
            id: text_option(self.id),
            kind: self.kind@,
            state: text_option(self.state),
            status: text_option(self.status),
            waiting_for: text_option(self.waiting_for),
            process_id: self.process_id,
            session_id: text_option(self.session_id),
            name: text_option(self.name),
            working_directory: text_option(self.working_directory),
            started_at: self.started_at,
        }
    }
}

/// What the channel server of a session last said of itself.
#[derive(Debug, PartialEq, Eq)]
pub struct ChannelStatus {
    pub live: bool,
    pub heartbeat_at_ms: Option<i64>,
    pub server_pid: Option<u32>,
    pub features: Vec<String>,
}

/// What a [`ChannelStatus`] says.
#[verifier::ext_equal]
pub struct ChannelStatusView {
    pub live: bool,
    pub heartbeat_at_ms: Option<i64>,
    pub server_pid: Option<u32>,
    pub features: Seq<Seq<char>>,
}

impl View for ChannelStatus {
    type V = ChannelStatusView;

    open spec fn view(&self) -> ChannelStatusView {
        ChannelStatusView {
            live: self.live,
            heartbeat_at_ms: self.heartbeat_at_ms,
            server_pid: self.server_pid,
            features: crate::transcript::texts(self.features@),
        }
    }
}

fn same_texts(left: &Vec<String>, right: &Vec<String>) -> (result: bool)
    ensures
        result == (crate::transcript::texts(left@) == crate::transcript::texts(right@)),
{
    let ghost left_views = crate::transcript::texts(left@);
    let ghost right_views = crate::transcript::texts(right@);
    if left.len() != right.len() {
        assert(left_views.len() != right_views.len());
        return false;
    }
    let mut i: usize = 0;
    while i < left.len()
        invariant
            i <= left@.len(),
            left@.len() == right@.len(),
            left_views == crate::transcript::texts(left@),
            right_views == crate::transcript::texts(right@),
            forall|k: int| 0 <= k < i ==> #[trigger] left_views[k] == right_views[k],
        decreases left@.len() - i,
    {
        assert(left_views[i as int] == left@[i as int]@);
        assert(right_views[i as int] == right@[i as int]@);
        if !same_text(left[i].as_str(), right[i].as_str()) {
            return false;
        }
        i = i + 1;
    }
    assert(left_views =~= right_views);
    true
}

impl ChannelStatus {
    pub fn same_as(&self, other: &ChannelStatus) -> (result: bool)
        ensures
            result == (self@ == other@),
    {
        self.live == other.live && self.heartbeat_at_ms == other.heartbeat_at_ms && self.server_pid
            == other.server_pid && same_texts(&self.features, &other.features)
    }
}

/// What installing the hooks came to.
#[derive(Debug, PartialEq, Eq)]
pub enum HookInstallOutcome {
    AlreadyCurrent,
    ScriptsRefreshed,
    Installed { backup_path: Option<String> },
}

/// What the sidecar file of a subagent says.
#[derive(Debug, PartialEq, Eq)]
pub struct SubagentMeta {
    pub agent_type: String,
    pub description: Option<String>,
    pub tool_use_id: Option<String>,
    pub spawn_depth: u32,
    pub model: Option<String>,
    pub workflow_phase: Option<String>,
    pub request_shape: Option<String>,
}

/// One subagent conversation of a session.
#[derive(Debug, PartialEq, Eq)]
pub struct SubagentSummary {
    pub agent_id: String,
    pub workflow_run_id: Option<String>,
    pub meta: SubagentMeta,
    pub transcript_path: String,
    pub size: u64,
    pub workflow_agent_finished: Option<bool>,
    pub task_agent_finished: Option<bool>,
}

/// What a [`SubagentMeta`] says.
pub struct SubagentMetaView {
    pub agent_type: Seq<char>,
    pub description: Option<Seq<char>>,
    pub tool_use_id: Option<Seq<char>>,
    pub spawn_depth: u32,
    pub model: Option<Seq<char>>,
    pub workflow_phase: Option<Seq<char>>,
    pub request_shape: Option<Seq<char>>,
}

impl View for SubagentMeta {
    type V = SubagentMetaView;

    open spec fn view(&self) -> SubagentMetaView {
        SubagentMetaView {
            agent_type: self.agent_type@,
            description: text_option(self.description),
            tool_use_id: text_option(self.tool_use_id),
            spawn_depth: self.spawn_depth,
            model: text_option(self.model),
            workflow_phase: text_option(self.workflow_phase),
            request_shape: text_option(self.request_shape),
        }
    }
}

/// What a [`SubagentSummary`] says.
pub struct SubagentSummaryView {
    pub agent_id: Seq<char>,
    pub workflow_run_id: Option<Seq<char>>,
    pub meta: SubagentMetaView,
    pub transcript_path: Seq<char>,
    pub size: u64,
    pub workflow_agent_finished: Option<bool>,
    pub task_agent_finished: Option<bool>,
}

impl View for SubagentSummary {
    type V = SubagentSummaryView;

    open spec fn view(&self) -> SubagentSummaryView {
        SubagentSummaryView {
            agent_id: self.agent_id@,
            workflow_run_id: text_option(self.workflow_run_id),
            meta: self.meta@,
            transcript_path: self.transcript_path@,
            size: self.size,
            workflow_agent_finished: self.workflow_agent_finished,
            task_agent_finished: self.task_agent_finished,
        }
    }
}

pub open spec fn subagent_views(subagents: Seq<SubagentSummary>) -> Seq<SubagentSummaryView> {
    subagents.map_values(|subagent: SubagentSummary| subagent@)
}

impl SubagentSummary {
    pub fn same_as(&self, other: &SubagentSummary) -> (result: bool)
        ensures
            result == (self@ == other@),
    {
        same_text(self.agent_id.as_str(), other.agent_id.as_str()) && same_option(
            &self.workflow_run_id,
            &other.workflow_run_id,
        ) && same_text(self.meta.agent_type.as_str(), other.meta.agent_type.as_str())
            && same_option(&self.meta.description, &other.meta.description) && same_option(
            &self.meta.tool_use_id,
            &other.meta.tool_use_id,
        ) && self.meta.spawn_depth == other.meta.spawn_depth && same_option(
            &self.meta.model,
            &other.meta.model,
        ) && same_option(&self.meta.workflow_phase, &other.meta.workflow_phase) && same_option(
            &self.meta.request_shape,
            &other.meta.request_shape,
        ) && same_text(self.transcript_path.as_str(), other.transcript_path.as_str()) && self.size
            == other.size && self.workflow_agent_finished == other.workflow_agent_finished
            && self.task_agent_finished == other.task_agent_finished
    }
}

/// Whether two lists of subagents are equal.
pub(crate) fn same_subagents(left: &Vec<SubagentSummary>, right: &Vec<SubagentSummary>) -> (result:
    bool)
    ensures
        result == (subagent_views(left@) == subagent_views(right@)),
{
    let ghost left_views = subagent_views(left@);
    let ghost right_views = subagent_views(right@);
    if left.len() != right.len() {
        assert(left_views.len() != right_views.len());
        return false;
    }
    let mut i: usize = 0;
    while i < left.len()
        invariant
            i <= left@.len(),
            left@.len() == right@.len(),
            left_views == subagent_views(left@),
            right_views == subagent_views(right@),
            forall|k: int| 0 <= k < i ==> #[trigger] left_views[k] == right_views[k],
        decreases left@.len() - i,
    {
        assert(left_views[i as int] == left@[i as int]@);
        assert(right_views[i as int] == right@[i as int]@);
        if !left[i].same_as(&right[i]) {
            return false;
        }
        i = i + 1;
    }
    assert(left_views =~= right_views);
    true
}

/// Where the reading of a file has got to: its bytes up to `offset` have been read, and
/// `pending` is what stood behind the last newline among them.
#[derive(Debug, PartialEq, Eq)]
pub struct TailState {
    pub path: Option<String>,
    pub offset: u64,
    pub pending: Vec<u8>,
}

/// What a [`TailState`] says.
pub struct TailStateView {
    pub path: Option<Seq<char>>,
    pub offset: u64,
    pub pending: Seq<u8>,
}

impl View for TailState {
    type V = TailStateView;

    open spec fn view(&self) -> TailStateView {
        TailStateView { path: text_option(self.path), offset: self.offset, pending: self.pending@ }
    }
}

/// What one read of the end of a file brought.
#[derive(Debug, PartialEq, Eq)]
pub struct TailProgress {
    pub path: Option<String>,
    /// The offset of the [`TailState`] that the read was asked for with.
    pub start_offset: u64,
    pub offset: u64,
    pub pending: Vec<u8>,
    pub lines: Vec<String>,
    /// Whether the file was another one than before, and was read from its beginning.
    pub restarted: bool,
}

/// What a [`TailProgress`] says.
#[verifier::ext_equal]
pub struct TailProgressView {
    pub path: Option<Seq<char>>,
    pub start_offset: u64,
    pub offset: u64,
    pub pending: Seq<u8>,
    pub lines: Seq<Seq<char>>,
    pub restarted: bool,
}

impl View for TailProgress {
    type V = TailProgressView;

    open spec fn view(&self) -> TailProgressView {
        TailProgressView {
            path: text_option(self.path),
            start_offset: self.start_offset,
            offset: self.offset,
            pending: self.pending@,
            lines: crate::transcript::texts(self.lines@),
            restarted: self.restarted,
        }
    }
}

/// Where a slash command comes from.
#[derive(Clone, Copy, Debug, PartialEq, Eq, Structural)]
pub enum SlashCommandScope {
    Builtin,
    Project,
    User,
}

/// A slash command that a session answers to.
#[derive(Debug, PartialEq, Eq)]
pub struct SlashCommand {
    pub name: String,
    pub description: Option<String>,
    pub argument_hint: Option<String>,
    pub scope: SlashCommandScope,
}

} // verus!
