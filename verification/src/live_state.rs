//! Session activity derived from hook events, the statusLine snapshot, and the
//! transcript catching up with both.
//!
//! No I/O: the store feeds this values, and the panel reads them.
use crate::double::Double;
use crate::json::{
    bool_field, double, field, flag_field, float_field, integer, integer_field, json_of_text, json_option, json_ref_option,
    string_field, string_field_or_empty, sub_field, text_field, text_or_empty, unsigned, unsigned_field, Json, JsonView,
};
use crate::text::{same_option, same_text, text_option, trim, trimmed};
use vstd::prelude::*;

verus! {

/// The tool that asks the user a question.
pub open spec fn ask_user_question_tool() -> Seq<char> {
    "AskUserQuestion"@
}

#[derive(Debug, PartialEq)]
pub struct HookEvent {
    pub received_at_ms: i64,
    pub name: String,
    pub session_id: String,
    pub permission_mode: Option<String>,
    pub tool_use_id: Option<String>,
    pub tool_name: Option<String>,
    pub tool_input: Option<Json>,
    pub raw: Json,
}

/// What a [`HookEvent`] says.
pub struct HookEventView {
    pub received_at_ms: i64,
    pub name: Seq<char>,
    pub session_id: Seq<char>,
    pub permission_mode: Option<Seq<char>>,
    pub tool_use_id: Option<Seq<char>>,
    pub tool_name: Option<Seq<char>>,
    pub tool_input: Option<JsonView>,
    pub raw: JsonView,
}

impl View for HookEvent {
    type V = HookEventView;

    open spec fn view(&self) -> HookEventView {
        HookEventView {
            received_at_ms: self.received_at_ms,
            name: self.name@,
            session_id: self.session_id@,
            permission_mode: text_option(self.permission_mode),
            tool_use_id: text_option(self.tool_use_id),
            tool_name: text_option(self.tool_name),
            tool_input: json_option(self.tool_input),
            raw: self.raw@,
        }
    }
}

/// The field, unless it is null.
pub open spec fn non_null(value: Option<JsonView>) -> Option<JsonView> {
    match value {
        Some(JsonView::Null) => None,
        _ => value,
    }
}

pub open spec fn or_zero(value: Option<i64>) -> i64 {
    match value {
        Some(value) => value,
        None => 0,
    }
}

/// The event that a line's JSON value wraps: an object whose `event` is an object that
/// names its hook and its session.
pub open spec fn event_of_wrapper(wrapper: JsonView) -> Option<HookEventView> {
    match wrapper.get("event"@) {
        Some(event) => {
            let name = text_or_empty(text_field(event.get("hook_event_name"@)));
            let session_id = text_or_empty(text_field(event.get("session_id"@)));
            if name.len() > 0 && session_id.len() > 0 {
                Some(
                    HookEventView {
                        received_at_ms: or_zero(integer(wrapper.get("received_at_ms"@))),
                        name,
                        session_id,
                        permission_mode: text_field(event.get("permission_mode"@)),
                        tool_use_id: text_field(event.get("tool_use_id"@)),
                        tool_name: text_field(event.get("tool_name"@)),
                        tool_input: non_null(event.get("tool_input"@)),
                        raw: event,
                    },
                )
            } else {
                None
            }
        },
        None => None,
    }
}

pub open spec fn event_option(event: Option<HookEvent>) -> Option<HookEventView> {
    match event {
        Some(event) => Some(event@),
        None => None,
    }
}

fn copy_unless_null(value: Option<&Json>) -> (result: Option<Json>)
    ensures
        json_option(result) == non_null(json_ref_option(value)),
{
    match value {
        Some(value) => if value.is_null() {
            None
        } else {
            Some(value.duplicate())
        },
        None => None,
    }
}

/// The hook event in a line's JSON value.
pub fn hook_event_from_json(wrapper: &Json) -> (event: Option<HookEvent>)
    ensures
        event_option(event) == event_of_wrapper(wrapper@),
{
    match wrapper.get("event") {
        Some(event) => {
            let name = string_field_or_empty(event.get("hook_event_name"));
            let session_id = string_field_or_empty(event.get("session_id"));
            if name.as_str().is_empty() || session_id.as_str().is_empty() {
                return None;
            }
            let received_at_ms: i64 = match integer_field(wrapper.get("received_at_ms")) {
                Some(received_at_ms) => received_at_ms,
                None => 0,
            };
            Some(
                HookEvent {
                    received_at_ms,
                    name,
                    session_id,
                    permission_mode: string_field(event.get("permission_mode")),
                    tool_use_id: string_field(event.get("tool_use_id")),
                    tool_name: string_field(event.get("tool_name")),
                    tool_input: copy_unless_null(event.get("tool_input")),
                    raw: event.duplicate(),
                },
            )
        },
        None => None,
    }
}

/// The JSON value of a line that is not blank.
pub open spec fn line_json(line: Seq<char>) -> Option<JsonView> {
    if trimmed(line).len() == 0 {
        None
    } else {
        json_of_text(trimmed(line))
    }
}

/// One JSONL line of the hook events file. Returns None for blank lines,
/// non-objects, lines without `event.hook_event_name` or `event.session_id`. A missing
/// `received_at_ms` becomes 0.
pub fn parse_hook_event(line: &str) -> (event: Option<HookEvent>)
    ensures
        event_option(event) == (match line_json(line@) {
            Some(wrapper) => event_of_wrapper(wrapper),
            None => None,
        }),
{
    let text = trim(line);
    if text.is_empty() {
        return None;
    }
    match Json::parse(text) {
        Some(wrapper) => hook_event_from_json(&wrapper),
        None => None,
    }
}

#[derive(Debug, PartialEq)]
pub struct LiveMessage {
    pub turn_id: Option<String>,
    pub message_id: Option<String>,
    pub text: String,
    pub is_final: bool,
    pub updated_at_ms: i64,
}

/// What a [`LiveMessage`] says.
pub struct LiveMessageView {
    pub turn_id: Option<Seq<char>>,
    pub message_id: Option<Seq<char>>,
    pub text: Seq<char>,
    pub is_final: bool,
    pub updated_at_ms: i64,
}

impl View for LiveMessage {
    type V = LiveMessageView;

    open spec fn view(&self) -> LiveMessageView {
        LiveMessageView {
            turn_id: text_option(self.turn_id),
            message_id: text_option(self.message_id),
            text: self.text@,
            is_final: self.is_final,
            updated_at_ms: self.updated_at_ms,
        }
    }
}

#[derive(Debug, PartialEq)]
pub struct RunningTool {
    pub tool_use_id: String,
    pub name: String,
    pub input: Json,
    pub started_at_ms: i64,
}

/// What a [`RunningTool`] says.
pub struct RunningToolView {
    pub tool_use_id: Seq<char>,
    pub name: Seq<char>,
    pub input: JsonView,
    pub started_at_ms: i64,
}

impl View for RunningTool {
    type V = RunningToolView;

    open spec fn view(&self) -> RunningToolView {
        RunningToolView {
            tool_use_id: self.tool_use_id@,
            name: self.name@,
            input: self.input@,
            started_at_ms: self.started_at_ms,
        }
    }
}

#[derive(Debug, PartialEq)]
pub struct PermissionRequest {
    pub tool_use_id: String,
    pub tool_name: String,
    pub tool_input: Json,
    pub since_ms: i64,
}

/// What a [`PermissionRequest`] says.
pub struct PermissionRequestView {
    pub tool_use_id: Seq<char>,
    pub tool_name: Seq<char>,
    pub tool_input: JsonView,
    pub since_ms: i64,
}

impl View for PermissionRequest {
    type V = PermissionRequestView;

    open spec fn view(&self) -> PermissionRequestView {
        PermissionRequestView {
            tool_use_id: self.tool_use_id@,
            tool_name: self.tool_name@,
            tool_input: self.tool_input@,
            since_ms: self.since_ms,
        }
    }
}

#[derive(Debug, PartialEq)]
pub struct PendingQuestion {
    pub tool_use_id: String,
    pub questions: Json,
    pub since_ms: i64,
}

/// What a [`PendingQuestion`] says.
pub struct PendingQuestionView {
    pub tool_use_id: Seq<char>,
    pub questions: JsonView,
    pub since_ms: i64,
}

impl View for PendingQuestion {
    type V = PendingQuestionView;

    open spec fn view(&self) -> PendingQuestionView {
        PendingQuestionView {
            tool_use_id: self.tool_use_id@,
            questions: self.questions@,
            since_ms: self.since_ms,
        }
    }
}

#[derive(Clone, Copy, Debug, PartialEq, Eq, Structural)]
pub enum Turn {
    Idle,
    Running { since_ms: i64 },
}

impl Default for Turn {
    fn default() -> (turn: Self)
        ensures
            turn == Turn::Idle,
    {
        Turn::Idle
    }
}

#[derive(Debug, PartialEq)]
pub struct LiveState {
    pub live_message: Option<LiveMessage>,
    pub running_tools: Vec<RunningTool>,
    pub pending_permission: Option<PermissionRequest>,
    pub pending_question: Option<PendingQuestion>,
    pub permission_mode: Option<String>,
    pub turn: Turn,
    pub compacting: bool,
    pub last_notification: Option<(String, i64)>,
    pub last_event_at_ms: i64,
    pub session_ended: bool,
}

/// What a [`LiveState`] says.
#[verifier::ext_equal]
pub struct LiveStateView {
    pub live_message: Option<LiveMessageView>,
    pub running_tools: Seq<RunningToolView>,
    pub pending_permission: Option<PermissionRequestView>,
    pub pending_question: Option<PendingQuestionView>,
    pub permission_mode: Option<Seq<char>>,
    pub turn: Turn,
    pub compacting: bool,
    pub last_notification: Option<(Seq<char>, i64)>,
    pub last_event_at_ms: i64,
    pub session_ended: bool,
}

pub open spec fn tool_views(tools: Seq<RunningTool>) -> Seq<RunningToolView> {
    tools.map_values(|tool: RunningTool| tool@)
}

impl View for LiveState {
    type V = LiveStateView;

    open spec fn view(&self) -> LiveStateView {
        LiveStateView {
            live_message: match self.live_message {
                Some(message) => Some(message@),
                None => None,
            },
            running_tools: tool_views(self.running_tools@),
            pending_permission: match self.pending_permission {
                Some(permission) => Some(permission@),
                None => None,
            },
            pending_question: match self.pending_question {
                Some(question) => Some(question@),
                None => None,
            },
            permission_mode: text_option(self.permission_mode),
            turn: self.turn,
            compacting: self.compacting,
            last_notification: match self.last_notification {
                Some(notification) => Some((notification.0@, notification.1)),
                None => None,
            },
            last_event_at_ms: self.last_event_at_ms,
            session_ended: self.session_ended,
        }
    }
}

impl Default for LiveState {
    fn default() -> (state: Self)
        ensures
            state@ == LiveStateView::quiet(),
    {
        let state = LiveState {
            live_message: None,
            running_tools: Vec::new(),
            pending_permission: None,
            pending_question: None,
            permission_mode: None,
            turn: Turn::Idle,
            compacting: false,
            last_notification: None,
            last_event_at_ms: 0,
            session_ended: false,
        };
        assert(state@ =~= LiveStateView::quiet());
        state
    }
}

/// The position of the first tool at or behind `from` with this id; the number of tools
/// where there is none.
pub open spec fn tool_position(tools: Seq<RunningToolView>, id: Seq<char>, from: int) -> int
    decreases tools.len() - from,
{
    if from >= tools.len() {
        tools.len() as int
    } else if tools[from].tool_use_id == id {
        from
    } else {
        tool_position(tools, id, from + 1)
    }
}

/// The tools with `tool` in place of the first one of its id, or behind them all.
pub open spec fn with_tool(tools: Seq<RunningToolView>, tool: RunningToolView) -> Seq<
    RunningToolView,
> {
    let position = tool_position(tools, tool.tool_use_id, 0);
    if position < tools.len() {
        tools.update(position, tool)
    } else {
        tools.push(tool)
    }
}

/// The tools without those of one id.
pub open spec fn without_tool(tools: Seq<RunningToolView>, id: Seq<char>) -> Seq<RunningToolView>
    decreases tools.len(),
{
    if tools.len() == 0 {
        Seq::empty()
    } else {
        let earlier = without_tool(tools.drop_last(), id);
        if tools.last().tool_use_id == id {
            earlier
        } else {
            earlier.push(tools.last())
        }
    }
}

pub open spec fn json_or_null(value: Option<JsonView>) -> JsonView {
    match value {
        Some(value) => value,
        None => JsonView::Null,
    }
}

/// The id that can end a tool call again; an empty id is none.
pub open spec fn tracked_id(event: HookEventView) -> Option<Seq<char>> {
    match event.tool_use_id {
        Some(id) if id.len() > 0 => Some(id),
        _ => None,
    }
}

impl LiveStateView {
    /// Nothing has happened yet.
    pub open spec fn quiet() -> LiveStateView {
        LiveStateView {
            live_message: None,
            running_tools: Seq::empty(),
            pending_permission: None,
            pending_question: None,
            permission_mode: None,
            turn: Turn::Idle,
            compacting: false,
            last_notification: None,
            last_event_at_ms: 0,
            session_ended: false,
        }
    }

    pub open spec fn idle(self) -> bool {
        &&& self.turn is Idle
        &&& self.running_tools.len() == 0
        &&& self.pending_permission is None
        &&& self.pending_question is None
    }

    /// What every event does: it moves the clock, and a mode that it carries replaces the
    /// mode.
    pub open spec fn noted(self, event: HookEventView) -> LiveStateView {
        LiveStateView {
            last_event_at_ms: event.received_at_ms,
            permission_mode: match event.permission_mode {
                Some(mode) => Some(mode),
                None => self.permission_mode,
            },
            ..self
        }
    }

    /// No message, tool, permission or question is open.
    pub open spec fn cleared(self) -> LiveStateView {
        LiveStateView {
            live_message: None,
            running_tools: Seq::empty(),
            pending_permission: None,
            pending_question: None,
            ..self
        }
    }

    /// The turn is over.
    pub open spec fn idled(self) -> LiveStateView {
        LiveStateView { turn: Turn::Idle, ..self.cleared() }
    }

    pub open spec fn with_prompt(self, event: HookEventView) -> LiveStateView {
        LiveStateView {
            turn: Turn::Running { since_ms: event.received_at_ms },
            session_ended: false,
            ..self.cleared()
        }
    }

    /// Whether a piece of a message begins a new one: it says that it is the first, or it
    /// does not belong to the message that is open.
    pub open spec fn starts_message(self, event: HookEventView) -> bool {
        ||| json_u64(event.raw.get("index"@)) == Some(0u64)
        ||| self.live_message is None
        ||| self.live_message->0.message_id != text_field(event.raw.get("message_id"@))
    }

    pub open spec fn with_message(self, event: HookEventView) -> LiveStateView {
        let turn_id = text_field(event.raw.get("turn_id"@));
        let delta = text_or_empty(text_field(event.raw.get("delta"@)));
        let is_final = bool_field(event.raw.get("final"@)) == Some(true);
        let message = if self.starts_message(event) {
            LiveMessageView {
                turn_id,
                message_id: text_field(event.raw.get("message_id"@)),
                text: delta,
                is_final,
                updated_at_ms: event.received_at_ms,
            }
        } else {
            let open = self.live_message->0;
            LiveMessageView {
                turn_id: if turn_id is Some {
                    turn_id
                } else {
                    open.turn_id
                },
                text: open.text + delta,
                is_final,
                updated_at_ms: event.received_at_ms,
                ..open
            }
        };
        LiveStateView { live_message: Some(message), ..self }
    }

    pub open spec fn without_permission(self, id: Seq<char>) -> LiveStateView {
        LiveStateView {
            pending_permission: match self.pending_permission {
                Some(permission) if permission.tool_use_id == id => None,
                _ => self.pending_permission,
            },
            ..self
        }
    }

    pub open spec fn without_question(self, id: Seq<char>) -> LiveStateView {
        LiveStateView {
            pending_question: match self.pending_question {
                Some(question) if question.tool_use_id == id => None,
                _ => self.pending_question,
            },
            ..self
        }
    }

    pub open spec fn without_running(self, id: Seq<char>) -> LiveStateView {
        LiveStateView { running_tools: without_tool(self.running_tools, id), ..self }
    }

    /// A tool call is over, and so is what was asked for its sake.
    pub open spec fn with_result(self, id: Seq<char>) -> LiveStateView {
        self.without_running(id).without_permission(id).without_question(id)
    }

    pub open spec fn with_tool_call(self, event: HookEventView) -> LiveStateView {
        match tracked_id(event) {
            Some(id) => {
                let tool = RunningToolView {
                    tool_use_id: id,
                    name: text_or_empty(event.tool_name),
                    input: json_or_null(event.tool_input),
                    started_at_ms: event.received_at_ms,
                };
                let allowed = self.without_permission(id);
                LiveStateView {
                    running_tools: with_tool(self.running_tools, tool),
                    pending_question: if tool.name == ask_user_question_tool() {
                        Some(
                            PendingQuestionView {
                                tool_use_id: id,
                                questions: json_or_null(tool.input.get("questions"@)),
                                since_ms: event.received_at_ms,
                            },
                        )
                    } else {
                        self.pending_question
                    },
                    ..allowed
                }
            },
            None => self,
        }
    }

    pub open spec fn with_permission_request(self, event: HookEventView) -> LiveStateView {
        match tracked_id(event) {
            Some(id) => LiveStateView {
                pending_permission: Some(
                    PermissionRequestView {
                        tool_use_id: id,
                        tool_name: text_or_empty(event.tool_name),
                        tool_input: json_or_null(event.tool_input),
                        since_ms: event.received_at_ms,
                    },
                ),
                ..self
            },
            None => self,
        }
    }

    pub open spec fn with_ended_session(self) -> LiveStateView {
        LiveStateView {
            session_ended: true,
            compacting: false,
            last_notification: None,
            ..self.idled()
        }
    }

    /// The state after an event.
    pub open spec fn after(self, event: HookEventView) -> LiveStateView {
        let noted = self.noted(event);
        if event.name == "UserPromptSubmit"@ {
            noted.with_prompt(event)
        } else if event.name == "MessageDisplay"@ {
            noted.with_message(event)
        } else if event.name == "PreToolUse"@ {
            noted.with_tool_call(event)
        } else if event.name == "PermissionRequest"@ {
            noted.with_permission_request(event)
        } else if event.name == "PostToolUse"@ {
            match event.tool_use_id {
                Some(id) => noted.with_result(id),
                None => noted,
            }
        } else if event.name == "PermissionDenied"@ {
            match event.tool_use_id {
                Some(id) => noted.without_running(id).without_permission(id),
                None => noted,
            }
        } else if event.name == "Notification"@ {
            LiveStateView {
                last_notification: Some(
                    (
                        text_or_empty(text_field(event.raw.get("notification_type"@))),
                        event.received_at_ms,
                    ),
                ),
                ..noted
            }
        } else if event.name == "Stop"@ {
            noted.idled()
        } else if event.name == "PreCompact"@ {
            LiveStateView { compacting: true, ..noted }
        } else if event.name == "PostCompact"@ {
            LiveStateView { compacting: false, ..noted }
        } else if event.name == "SessionEnd"@ {
            noted.with_ended_session()
        } else {
            noted
        }
    }

    /// The transcript holds an answer of this time: a message that is complete, and that
    /// is not newer by more than two seconds, is in it.
    pub open spec fn caught_up(self, timestamp_ms: i64) -> LiveStateView {
        match self.live_message {
            Some(message) if message.is_final && timestamp_ms >= saturating_minus(
                message.updated_at_ms,
                2000,
            ) => LiveStateView { live_message: None, ..self },
            _ => self,
        }
    }
}

pub open spec fn json_u64(value: Option<JsonView>) -> Option<u64> {
    match value {
        Some(value) => value.as_u64(),
        None => None,
    }
}

pub open spec fn saturating_minus(number: i64, less: int) -> int {
    if number - less < i64::MIN {
        i64::MIN as int
    } else {
        number - less
    }
}

fn copy_or_empty(text: &Option<String>) -> (result: String)
    ensures
        result@ == text_or_empty(text_option(*text)),
{
    match text {
        Some(text) => text.clone(),
        None => String::new(),
    }
}

fn copy_or_null(value: &Option<Json>) -> (result: Json)
    ensures
        result@ == json_or_null(json_option(*value)),
{
    match value {
        Some(value) => value.duplicate(),
        None => Json::Null,
    }
}

fn questions_of(input: &Json) -> (questions: Json)
    ensures
        questions@ == json_or_null(input@.get("questions"@)),
{
    match input.get("questions") {
        Some(questions) => questions.duplicate(),
        None => Json::Null,
    }
}

impl LiveState {
    pub fn apply(&mut self, event: &HookEvent)
        ensures
            final(self)@ == old(self)@.after(event@),
    {
        self.last_event_at_ms = event.received_at_ms;
        if let Some(permission_mode) = &event.permission_mode {
            self.permission_mode = Some(permission_mode.clone());
        }
        assert(self@ =~= old(self)@.noted(event@));
        let name = event.name.as_str();
        if same_text(name, "UserPromptSubmit") {
            self.apply_user_prompt_submit(event);
        } else if same_text(name, "MessageDisplay") {
            self.apply_message_display(event);
        } else if same_text(name, "PreToolUse") {
            self.apply_pre_tool_use(event);
        } else if same_text(name, "PermissionRequest") {
            self.apply_permission_request(event);
        } else if same_text(name, "PostToolUse") {
            if let Some(tool_use_id) = &event.tool_use_id {
                self.note_tool_result(tool_use_id.as_str());
            }
        } else if same_text(name, "PermissionDenied") {
            if let Some(tool_use_id) = &event.tool_use_id {
                self.remove_running_tool(tool_use_id.as_str());
                self.clear_permission_for(tool_use_id.as_str());
            }
        } else if same_text(name, "Notification") {
            let notification_type = string_field_or_empty(event.raw.get("notification_type"));
            self.last_notification = Some((notification_type, event.received_at_ms));
        } else if same_text(name, "Stop") {
            self.idle_turn();
        } else if same_text(name, "PreCompact") {
            self.compacting = true;
        } else if same_text(name, "PostCompact") {
            self.compacting = false;
        } else if same_text(name, "SessionEnd") {
            self.apply_session_end();
        }
    }

    /// The transcript absorbed an assistant record with this timestamp (ms since epoch,
    /// from the record's RFC3339 `timestamp`).
    pub fn note_transcript_assistant(&mut self, timestamp_ms: i64)
        ensures
            final(self)@ == old(self)@.caught_up(timestamp_ms),
    {
        let done = match &self.live_message {
            Some(message) => {
                let least: i64 = if message.updated_at_ms < i64::MIN + 2000 {
                    i64::MIN
                } else {
                    message.updated_at_ms - 2000
                };
                message.is_final && timestamp_ms >= least
            },
            None => false,
        };
        if done {
            self.live_message = None;
        }
    }

    /// The transcript absorbed a tool_result for this tool_use_id.
    pub fn note_tool_result(&mut self, tool_use_id: &str)
        ensures
            final(self)@ == old(self)@.with_result(tool_use_id@),
    {
        self.remove_running_tool(tool_use_id);
        self.clear_permission_for(tool_use_id);
        let matches = match &self.pending_question {
            Some(question) => same_text(question.tool_use_id.as_str(), tool_use_id),
            None => false,
        };
        if matches {
            self.pending_question = None;
        }
    }

    /// The transcript recorded that the user interrupted the turn. Stop does not run on
    /// an interrupt, so the record is the only evidence the turn is over.
    pub fn note_interrupted(&mut self)
        ensures
            final(self)@ == old(self)@.idled(),
    {
        self.idle_turn();
    }

    pub fn is_idle(&self) -> (result: bool)
        ensures
            result == self@.idle(),
    {
        matches!(self.turn, Turn::Idle) && self.running_tools.len() == 0
            && self.pending_permission.is_none() && self.pending_question.is_none()
    }

    fn clear_open_work(&mut self)
        ensures
            final(self)@ == old(self)@.cleared(),
    {
        self.live_message = None;
        self.running_tools = Vec::new();
        self.pending_permission = None;
        self.pending_question = None;
        assert(self@ =~= old(self)@.cleared());
    }

    fn apply_user_prompt_submit(&mut self, event: &HookEvent)
        ensures
            final(self)@ == old(self)@.with_prompt(event@),
    {
        self.clear_open_work();
        self.turn = Turn::Running { since_ms: event.received_at_ms };
        self.session_ended = false;
    }

    fn apply_message_display(&mut self, event: &HookEvent)
        ensures
            final(self)@ == old(self)@.with_message(event@),
    {
        let message_id = string_field(event.raw.get("message_id"));
        let turn_id = string_field(event.raw.get("turn_id"));
        let delta = string_field_or_empty(event.raw.get("delta"));
        let is_final = match flag_field(event.raw.get("final")) {
            Some(is_final) => is_final,
            None => false,
        };
        let first = match event.raw.get("index") {
            Some(index) => match index.as_u64() {
                Some(index) => index == 0,
                None => false,
            },
            None => false,
        };
        let open = self.live_message.take();
        let message = match open {
            Some(mut message) if !first && same_option(&message.message_id, &message_id) => {
                message.text.append(delta.as_str());
                message.is_final = is_final;
                message.updated_at_ms = event.received_at_ms;
                if turn_id.is_some() {
                    message.turn_id = turn_id;
                }
                message
            },
            _ => LiveMessage {
                turn_id,
                message_id,
                text: delta,
                is_final,
                updated_at_ms: event.received_at_ms,
            },
        };
        self.live_message = Some(message);
        assert(self@ =~= old(self)@.with_message(event@));
    }

    fn apply_pre_tool_use(&mut self, event: &HookEvent)
        ensures
            final(self)@ == old(self)@.with_tool_call(event@),
    {
        // A call the payload does not name cannot be tracked. Recording it under the
        // empty id is worse than ignoring it: the PostToolUse that would end it carries
        // no id either and is itself ignored, so nothing would ever take it off again.
        let tool_use_id = match &event.tool_use_id {
            Some(tool_use_id) => {
                if tool_use_id.as_str().is_empty() {
                    return;
                }
                tool_use_id.clone()
            },
            None => {
                return;
            },
        };
        let name = copy_or_empty(&event.tool_name);
        let input = copy_or_null(&event.tool_input);
        let asks = same_text(name.as_str(), "AskUserQuestion");
        let questions = questions_of(&input);
        self.clear_permission_for(tool_use_id.as_str());
        let running = RunningTool {
            tool_use_id: tool_use_id.clone(),
            name,
            input,
            started_at_ms: event.received_at_ms,
        };
        self.put_running_tool(running);
        if asks {
            self.pending_question = Some(
                PendingQuestion { tool_use_id, questions, since_ms: event.received_at_ms },
            );
        }
    }

    fn put_running_tool(&mut self, running: RunningTool)
        ensures
            final(self)@ == (LiveStateView {
                running_tools: with_tool(old(self)@.running_tools, running@),
                ..old(self)@
            }),
    {
        let ghost tools = self@.running_tools;
        let ghost id = running.tool_use_id@;
        let mut i: usize = 0;
        while i < self.running_tools.len() && !same_text(
            self.running_tools[i].tool_use_id.as_str(),
            running.tool_use_id.as_str(),
        )
            invariant
                *self == *old(self),
                tools == self@.running_tools,
                tools.len() == self.running_tools@.len(),
                id == running.tool_use_id@,
                i <= tools.len(),
                tool_position(tools, id, 0) == tool_position(tools, id, i as int),
            decreases tools.len() - i,
        {
            assert(tools[i as int] == self.running_tools@[i as int]@);
            i = i + 1;
        }
        if i < self.running_tools.len() {
            assert(tools[i as int] == self.running_tools@[i as int]@);
            self.running_tools.set(i, running);
            assert(self@.running_tools =~= tools.update(i as int, running@));
        } else {
            self.running_tools.push(running);
            assert(self@.running_tools =~= tools.push(running@));
        }
    }

    fn apply_permission_request(&mut self, event: &HookEvent)
        ensures
            final(self)@ == old(self)@.with_permission_request(event@),
    {
        // Same reason as [`Self::apply_pre_tool_use`]: only the id answers this request,
        // so a request that carries none can only be drawn and never cleared.
        let tool_use_id = match &event.tool_use_id {
            Some(tool_use_id) => {
                if tool_use_id.as_str().is_empty() {
                    return;
                }
                tool_use_id.clone()
            },
            None => {
                return;
            },
        };
        self.pending_permission = Some(
            PermissionRequest {
                tool_use_id,
                tool_name: copy_or_empty(&event.tool_name),
                tool_input: copy_or_null(&event.tool_input),
                since_ms: event.received_at_ms,
            },
        );
    }

    fn idle_turn(&mut self)
        ensures
            final(self)@ == old(self)@.idled(),
    {
        self.clear_open_work();
        self.turn = Turn::Idle;
    }

    fn apply_session_end(&mut self)
        ensures
            final(self)@ == old(self)@.with_ended_session(),
    {
        self.idle_turn();
        self.session_ended = true;
        self.compacting = false;
        self.last_notification = None;
    }

    fn remove_running_tool(&mut self, tool_use_id: &str)
        ensures
            final(self)@ == old(self)@.without_running(tool_use_id@),
    {
        let ghost all = self.running_tools@;
        let mut kept: Vec<RunningTool> = Vec::new();
        let mut rest: Vec<RunningTool> = Vec::new();
        std::mem::swap(&mut rest, &mut self.running_tools);
        for tool in it: rest
            invariant
                it.seq() == all,
                tool_views(kept@) == without_tool(
                    tool_views(all.take(it.index())),
                    tool_use_id@,
                ),
        {
            proof {
                let now = tool_views(all.take(it.index() + 1));
                assert(now.drop_last() =~= tool_views(all.take(it.index())));
                assert(now.last() == tool@);
            }
            if !same_text(tool.tool_use_id.as_str(), tool_use_id) {
                let ghost before = kept@;
                kept.push(tool);
                assert(tool_views(kept@) =~= tool_views(before).push(tool@));
            }
        }
        assert(all.take(all.len() as int) =~= all);
        self.running_tools = kept;
    }

    fn clear_permission_for(&mut self, tool_use_id: &str)
        ensures
            final(self)@ == old(self)@.without_permission(tool_use_id@),
    {
        let matches = match &self.pending_permission {
            Some(permission) => same_text(permission.tool_use_id.as_str(), tool_use_id),
            None => false,
        };
        if matches {
            self.pending_permission = None;
        }
    }
}

/// No two running tools have one id.
pub open spec fn distinct_tools(tools: Seq<RunningToolView>) -> bool {
    forall|a: int, b: int|
        #![trigger tools[a], tools[b]]
        0 <= a < b < tools.len() ==> tools[a].tool_use_id != tools[b].tool_use_id
}

proof fn lemma_tool_position(tools: Seq<RunningToolView>, id: Seq<char>, from: int)
    requires
        0 <= from <= tools.len(),
    ensures
        from <= tool_position(tools, id, from) <= tools.len(),
        tool_position(tools, id, from) < tools.len() ==> tools[tool_position(
            tools,
            id,
            from,
        )].tool_use_id == id,
        forall|k: int|
            from <= k < tool_position(tools, id, from) ==> (#[trigger] tools[k]).tool_use_id != id,
    decreases tools.len() - from,
{
    if from < tools.len() && tools[from].tool_use_id != id {
        lemma_tool_position(tools, id, from + 1);
    }
}

proof fn lemma_without_tool(tools: Seq<RunningToolView>, id: Seq<char>)
    ensures
        forall|k: int|
            0 <= k < without_tool(tools, id).len() ==> (#[trigger] without_tool(
                tools,
                id,
            )[k]).tool_use_id != id && tools.contains(without_tool(tools, id)[k]),
        forall|k: int|
            0 <= k < tools.len() && (#[trigger] tools[k]).tool_use_id != id ==> without_tool(
                tools,
                id,
            ).contains(tools[k]),
        distinct_tools(tools) ==> distinct_tools(without_tool(tools, id)),
    decreases tools.len(),
{
    if tools.len() > 0 {
        let front = tools.drop_last();
        lemma_without_tool(front, id);
        let kept = without_tool(front, id);
        let all = without_tool(tools, id);
        assert forall|k: int| 0 <= k < all.len() implies (#[trigger] all[k]).tool_use_id != id
            && tools.contains(all[k]) by {
            if k < kept.len() {
                assert(kept[k] == all[k]);
                let at = choose|at: int| 0 <= at < front.len() && front[at] == kept[k];
                assert(tools[at] == all[k]);
            } else {
                assert(tools[tools.len() - 1] == all[k]);
            }
        }
        assert forall|k: int| 0 <= k < tools.len() && (#[trigger] tools[k]).tool_use_id
            != id implies all.contains(tools[k]) by {
            if k < front.len() {
                assert(front[k] == tools[k]);
                let at = choose|at: int| 0 <= at < kept.len() && kept[at] == front[k];
                assert(all[at] == tools[k]);
            } else {
                assert(all[all.len() - 1] == tools[k]);
            }
        }
        if distinct_tools(tools) {
            assert(distinct_tools(front)) by {
                assert forall|a: int, b: int|
                    #![trigger front[a], front[b]]
                    0 <= a < b < front.len() implies front[a].tool_use_id
                    != front[b].tool_use_id by {
                    assert(tools[a] == front[a] && tools[b] == front[b]);
                }
            }
            assert forall|a: int, b: int|
                #![trigger all[a], all[b]]
                0 <= a < b < all.len() implies all[a].tool_use_id != all[b].tool_use_id by {
                assert(all[a] == kept[a]);
                let at = choose|at: int| 0 <= at < front.len() && front[at] == kept[a];
                assert(tools[at] == front[at]);
                if b < kept.len() {
                    assert(all[b] == kept[b]);
                } else {
                    assert(all[b] == tools[tools.len() - 1]);
                }
            }
        }
    }
}

/// Every event keeps the ids of the running tools distinct.
pub proof fn lemma_running_tools_stay_distinct(state: LiveStateView, event: HookEventView)
    requires
        distinct_tools(state.running_tools),
    ensures
        distinct_tools(state.after(event).running_tools),
{
    if let Some(id) = event.tool_use_id {
        lemma_without_tool(state.running_tools, id);
        lemma_tool_position(state.running_tools, id, 0);
    }
}

/// Every event moves the clock to its own time, and the permission mode changes exactly
/// when the event carries one.
pub proof fn lemma_every_event_is_noted(state: LiveStateView, event: HookEventView)
    ensures
        state.after(event).last_event_at_ms == event.received_at_ms,
        state.after(event).permission_mode == (match event.permission_mode {
            Some(mode) => Some(mode),
            None => state.permission_mode,
        }),
{
}

/// A tool call or a permission request without an id leaves nothing behind but the clock
/// and the mode: nothing could ever end it.
pub proof fn lemma_unnamed_call_is_not_tracked(state: LiveStateView, event: HookEventView)
    requires
        event.name == "PreToolUse"@ || event.name == "PermissionRequest"@,
        event.tool_use_id is None || event.tool_use_id->0.len() == 0,
    ensures
        state.after(event) == state.noted(event),
{
    reveal_strlit("PreToolUse");
    reveal_strlit("PermissionRequest");
    reveal_strlit("UserPromptSubmit");
    reveal_strlit("MessageDisplay");
    assert("PreToolUse"@.len() == 10);
    assert("PermissionRequest"@.len() == 17);
    assert("UserPromptSubmit"@.len() == 16);
    assert("MessageDisplay"@.len() == 14);
}

/// When a turn stops, a session ends, or the user interrupts, nothing is left open.
pub proof fn lemma_ends_leave_nothing_open(state: LiveStateView, event: HookEventView)
    ensures
        state.idled().idle(),
        state.idled().live_message is None,
        event.name == "Stop"@ ==> state.after(event) == state.noted(event).idled(),
        event.name == "SessionEnd"@ ==> {
            let after = state.after(event);
            &&& after.idle()
            &&& after.session_ended
            &&& after.live_message is None
            &&& !after.compacting
            &&& after.last_notification is None
        },
{
    reveal_strlit("PreToolUse");
    reveal_strlit("PermissionRequest");
    reveal_strlit("UserPromptSubmit");
    reveal_strlit("MessageDisplay");
    reveal_strlit("PostToolUse");
    reveal_strlit("PermissionDenied");
    reveal_strlit("Notification");
    reveal_strlit("Stop");
    reveal_strlit("PreCompact");
    reveal_strlit("PostCompact");
    reveal_strlit("SessionEnd");
    assert("Stop"@.len() == 4);
    assert("SessionEnd"@[0] == 'S');
    assert("PreToolUse"@[0] == 'P');
    assert("PreCompact"@[0] == 'P');
    assert("SessionEnd"@.len() == 10);
    assert("PermissionRequest"@.len() == 17);
    assert("UserPromptSubmit"@.len() == 16);
    assert("MessageDisplay"@.len() == 14);
    assert("PostToolUse"@.len() == 11);
    assert("PermissionDenied"@.len() == 16);
    assert("Notification"@.len() == 12);
    assert("PostCompact"@.len() == 11);
}

/// A tool result ends that tool and what was asked for its sake, and no other tool.
pub proof fn lemma_result_ends_only_its_tool(state: LiveStateView, id: Seq<char>)
    ensures
        ({
            let after = state.with_result(id);
            &&& forall|k: int|
                0 <= k < after.running_tools.len() ==> (#[trigger] after.running_tools[k]).tool_use_id
                    != id
            &&& forall|k: int|
                0 <= k < state.running_tools.len() && (#[trigger] state.running_tools[k]).tool_use_id
                    != id ==> after.running_tools.contains(state.running_tools[k])
            &&& after.pending_permission is Some ==> after.pending_permission->0.tool_use_id != id
            &&& after.pending_question is Some ==> after.pending_question->0.tool_use_id != id
        }),
{
    lemma_without_tool(state.running_tools, id);
}

/// Only a request that names its tool opens a pending permission; in particular a
/// notification never does.
pub proof fn lemma_only_a_request_opens_a_permission(state: LiveStateView, event: HookEventView)
    requires
        event.name != "PermissionRequest"@,
    ensures
        state.after(event).pending_permission is None || state.after(event).pending_permission
            == state.pending_permission,
{
}

#[derive(Debug, PartialEq)]
pub struct StatusSnapshot {
    pub model_id: Option<String>,
    pub model_display_name: Option<String>,
    pub context_window_size: Option<u64>,
    pub context_used_percentage: Option<Double>,
    pub total_input_tokens: Option<u64>,
    pub total_output_tokens: Option<u64>,
    pub total_cost_usd: Option<Double>,
    pub effort: Option<String>,
    pub five_hour_used_percentage: Option<Double>,
    pub five_hour_resets_at: Option<i64>,
    pub seven_day_used_percentage: Option<Double>,
    pub seven_day_resets_at: Option<i64>,
    pub exceeds_200k_tokens: Option<bool>,
}

/// What a [`StatusSnapshot`] says.
pub struct StatusSnapshotView {
    pub model_id: Option<Seq<char>>,
    pub model_display_name: Option<Seq<char>>,
    pub context_window_size: Option<u64>,
    pub context_used_percentage: Option<Double>,
    pub total_input_tokens: Option<u64>,
    pub total_output_tokens: Option<u64>,
    pub total_cost_usd: Option<Double>,
    pub effort: Option<Seq<char>>,
    pub five_hour_used_percentage: Option<Double>,
    pub five_hour_resets_at: Option<i64>,
    pub seven_day_used_percentage: Option<Double>,
    pub seven_day_resets_at: Option<i64>,
    pub exceeds_200k_tokens: Option<bool>,
}

impl View for StatusSnapshot {
    type V = StatusSnapshotView;

    open spec fn view(&self) -> StatusSnapshotView {
        StatusSnapshotView {
            model_id: text_option(self.model_id),
            model_display_name: text_option(self.model_display_name),
            context_window_size: self.context_window_size,
            context_used_percentage: self.context_used_percentage,
            total_input_tokens: self.total_input_tokens,
            total_output_tokens: self.total_output_tokens,
            total_cost_usd: self.total_cost_usd,
            effort: text_option(self.effort),
            five_hour_used_percentage: self.five_hour_used_percentage,
            five_hour_resets_at: self.five_hour_resets_at,
            seven_day_used_percentage: self.seven_day_used_percentage,
            seven_day_resets_at: self.seven_day_resets_at,
            exceeds_200k_tokens: self.exceeds_200k_tokens,
        }
    }
}

pub open spec fn snapshot_option(snapshot: Option<StatusSnapshot>) -> Option<StatusSnapshotView> {
    match snapshot {
        Some(snapshot) => Some(snapshot@),
        None => None,
    }
}

/// The snapshot that a statusLine object holds.
pub open spec fn snapshot_of(value: JsonView) -> Option<StatusSnapshotView> {
    let model = value.get("model"@);
    let window = value.get("context_window"@);
    let limits = value.get("rate_limits"@);
    let five_hour = field(limits, "five_hour"@);
    let seven_day = field(limits, "seven_day"@);
    if value is Object {
        Some(
            StatusSnapshotView {
                model_id: text_field(field(model, "id"@)),
                model_display_name: text_field(field(model, "display_name"@)),
                context_window_size: unsigned(field(window, "context_window_size"@)),
                context_used_percentage: double(field(window, "used_percentage"@)),
                total_input_tokens: unsigned(field(window, "total_input_tokens"@)),
                total_output_tokens: unsigned(field(window, "total_output_tokens"@)),
                total_cost_usd: double(field(value.get("cost"@), "total_cost_usd"@)),
                effort: text_field(field(value.get("effort"@), "level"@)),
                five_hour_used_percentage: double(field(five_hour, "used_percentage"@)),
                five_hour_resets_at: integer(field(five_hour, "resets_at"@)),
                seven_day_used_percentage: double(field(seven_day, "used_percentage"@)),
                seven_day_resets_at: integer(field(seven_day, "resets_at"@)),
                exceeds_200k_tokens: bool_field(value.get("exceeds_200k_tokens"@)),
            },
        )
    } else {
        None
    }
}

impl StatusSnapshot {
    /// None only if `json` is not a JSON object; every field individually optional;
    /// null is None.
    pub fn parse(json: &str) -> (snapshot: Option<StatusSnapshot>)
        ensures
            snapshot_option(snapshot) == (match json_of_text(json@) {
                Some(value) => snapshot_of(value),
                None => None,
            }),
    {
        match Json::parse(json) {
            Some(value) => StatusSnapshot::from_json(&value),
            None => None,
        }
    }

    /// The snapshot in a statusLine value.
    pub fn from_json(value: &Json) -> (snapshot: Option<StatusSnapshot>)
        ensures
            snapshot_option(snapshot) == snapshot_of(value@),
    {
        if !value.is_object() {
            return None;
        }
        let model = value.get("model");
        let window = value.get("context_window");
        let limits = value.get("rate_limits");
        let five_hour = sub_field(limits, "five_hour");
        let seven_day = sub_field(limits, "seven_day");
        Some(
            StatusSnapshot {
                model_id: string_field(sub_field(model, "id")),
                model_display_name: string_field(sub_field(model, "display_name")),
                context_window_size: unsigned_field(sub_field(window, "context_window_size")),
                context_used_percentage: float_field(sub_field(window, "used_percentage")),
                total_input_tokens: unsigned_field(sub_field(window, "total_input_tokens")),
                total_output_tokens: unsigned_field(sub_field(window, "total_output_tokens")),
                total_cost_usd: float_field(sub_field(value.get("cost"), "total_cost_usd")),
                effort: string_field(sub_field(value.get("effort"), "level")),
                five_hour_used_percentage: float_field(sub_field(five_hour, "used_percentage")),
                five_hour_resets_at: integer_field(sub_field(five_hour, "resets_at")),
                seven_day_used_percentage: float_field(sub_field(seven_day, "used_percentage")),
                seven_day_resets_at: integer_field(sub_field(seven_day, "resets_at")),
                exceeds_200k_tokens: flag_field(value.get("exceeds_200k_tokens")),
            },
        )
    }
}

/// The time that an RFC 3339 text states, in milliseconds since the epoch.
pub uninterp spec fn rfc3339_millis(text: Seq<char>) -> Option<i64>;

/// `chrono::DateTime::parse_from_rfc3339`, and of its result the milliseconds since the
/// epoch that `timestamp_millis` gives. Which texts are dates and what they come to is
/// left to the name.
#[verifier::external_body]
fn parse_rfc3339(text: &str) -> (millis: Option<i64>)
    ensures
        millis == rfc3339_millis(text@),
{
    chrono::DateTime::parse_from_rfc3339(text).ok().map(|time| time.timestamp_millis())
}

/// Milliseconds since epoch from a transcript record's RFC3339 `timestamp`.
pub fn timestamp_ms(record_timestamp: &str) -> (millis: Option<i64>)
    ensures
        millis == rfc3339_millis(record_timestamp@),
{
    parse_rfc3339(record_timestamp)
}

#[derive(Debug, Clone, PartialEq, Eq)]
pub enum ChannelInboxEvent {
    Ready { at_ms: i64 },
    PermissionRequest {
        at_ms: i64,
        request_id: String,
        tool_name: String,
        description: String,
        input_preview: String,
    },
    PermissionAnswered { at_ms: i64, request_id: String, behavior: String },
    MessageSent { at_ms: i64, outbox_file: String, content_chars: u64 },
    Error { at_ms: i64, outbox_file: Option<String>, reason: String },
    Closed { at_ms: i64, reason: String },
    Interrupted { at_ms: i64, claude_pid: u32, reason: String },
    Unknown { raw: String },
}

/// What a [`ChannelInboxEvent`] says.
pub enum ChannelInboxEventView {
    Ready { at_ms: i64 },
    PermissionRequest {
        at_ms: i64,
        request_id: Seq<char>,
        tool_name: Seq<char>,
        description: Seq<char>,
        input_preview: Seq<char>,
    },
    PermissionAnswered { at_ms: i64, request_id: Seq<char>, behavior: Seq<char> },
    MessageSent { at_ms: i64, outbox_file: Seq<char>, content_chars: u64 },
    Error { at_ms: i64, outbox_file: Option<Seq<char>>, reason: Seq<char> },
    Closed { at_ms: i64, reason: Seq<char> },
    Interrupted { at_ms: i64, claude_pid: u32, reason: Seq<char> },
    Unknown { raw: Seq<char> },
}

impl View for ChannelInboxEvent {
    type V = ChannelInboxEventView;

    open spec fn view(&self) -> ChannelInboxEventView {
        match *self {
            ChannelInboxEvent::Ready { at_ms } => ChannelInboxEventView::Ready { at_ms },
            ChannelInboxEvent::PermissionRequest {
                at_ms,
                request_id,
                tool_name,
                description,
                input_preview,
            } => ChannelInboxEventView::PermissionRequest {
                at_ms,
                request_id: request_id@,
                tool_name: tool_name@,
                description: description@,
                input_preview: input_preview@,
            },
            ChannelInboxEvent::PermissionAnswered { at_ms, request_id, behavior } =>
                ChannelInboxEventView::PermissionAnswered {
                at_ms,
                request_id: request_id@,
                behavior: behavior@,
            },
            ChannelInboxEvent::MessageSent { at_ms, outbox_file, content_chars } =>
                ChannelInboxEventView::MessageSent {
                at_ms,
                outbox_file: outbox_file@,
                content_chars,
            },
            ChannelInboxEvent::Error { at_ms, outbox_file, reason } =>
                ChannelInboxEventView::Error {
                at_ms,
                outbox_file: text_option(outbox_file),
                reason: reason@,
            },
            ChannelInboxEvent::Closed { at_ms, reason } => ChannelInboxEventView::Closed {
                at_ms,
                reason: reason@,
            },
            ChannelInboxEvent::Interrupted { at_ms, claude_pid, reason } =>
                ChannelInboxEventView::Interrupted { at_ms, claude_pid, reason: reason@ },
            ChannelInboxEvent::Unknown { raw } => ChannelInboxEventView::Unknown { raw: raw@ },
        }
    }
}

/// A text, unless it is empty.
pub open spec fn non_empty(text: Option<Seq<char>>) -> Option<Seq<char>> {
    match text {
        Some(text) if text.len() > 0 => Some(text),
        _ => None,
    }
}

pub open spec fn pid_or_zero(pid: Option<u64>) -> u32 {
    match pid {
        Some(pid) if pid <= u32::MAX => pid as u32,
        _ => 0,
    }
}

/// The event that the value of an inbox line is; `Unknown`, with the line itself, where
/// the value names no kind or one that is not known.
pub open spec fn inbox_event_of(value: JsonView, line: Seq<char>) -> ChannelInboxEventView {
    let at_ms = or_zero(integer(value.get("at_ms"@)));
    let text = |key: Seq<char>| text_or_empty(text_field(value.get(key)));
    match text_field(value.get("kind"@)) {
        Some(kind) => if kind == "ready"@ {
            ChannelInboxEventView::Ready { at_ms }
        } else if kind == "permission_request"@ {
            ChannelInboxEventView::PermissionRequest {
                at_ms,
                request_id: text("request_id"@),
                tool_name: text("tool_name"@),
                description: text("description"@),
                input_preview: text("input_preview"@),
            }
        } else if kind == "permission_answered"@ {
            ChannelInboxEventView::PermissionAnswered {
                at_ms,
                request_id: text("request_id"@),
                behavior: text("behavior"@),
            }
        } else if kind == "message_sent"@ {
            ChannelInboxEventView::MessageSent {
                at_ms,
                outbox_file: text("outbox_file"@),
                content_chars: match unsigned(value.get("content_chars"@)) {
                    Some(chars) => chars,
                    None => 0,
                },
            }
        } else if kind == "error"@ {
            ChannelInboxEventView::Error {
                at_ms,
                outbox_file: non_empty(text_field(value.get("outbox_file"@))),
                reason: text("reason"@),
            }
        } else if kind == "closed"@ {
            ChannelInboxEventView::Closed { at_ms, reason: text("reason"@) }
        } else if kind == "interrupted"@ {
            ChannelInboxEventView::Interrupted {
                at_ms,
                claude_pid: pid_or_zero(unsigned(value.get("claude_pid"@))),
                reason: text("reason"@),
            }
        } else {
            ChannelInboxEventView::Unknown { raw: line }
        },
        None => ChannelInboxEventView::Unknown { raw: line },
    }
}

pub open spec fn inbox_event_option(event: Option<ChannelInboxEvent>) -> Option<
    ChannelInboxEventView,
> {
    match event {
        Some(event) => Some(event@),
        None => None,
    }
}

/// The inbox event that a line's JSON value is. `line` is the line itself.
pub fn channel_event_from_json(value: &Json, line: &str) -> (event: ChannelInboxEvent)
    ensures
        event@ == inbox_event_of(value@, line@),
{
    let kind = match string_field(value.get("kind")) {
        Some(kind) => kind,
        None => {
            return ChannelInboxEvent::Unknown { raw: line.to_owned() };
        },
    };
    let kind = kind.as_str();
    let at_ms: i64 = match integer_field(value.get("at_ms")) {
        Some(at_ms) => at_ms,
        None => 0,
    };
    if same_text(kind, "ready") {
        ChannelInboxEvent::Ready { at_ms }
    } else if same_text(kind, "permission_request") {
        ChannelInboxEvent::PermissionRequest {
            at_ms,
            request_id: string_field_or_empty(value.get("request_id")),
            tool_name: string_field_or_empty(value.get("tool_name")),
            description: string_field_or_empty(value.get("description")),
            input_preview: string_field_or_empty(value.get("input_preview")),
        }
    } else if same_text(kind, "permission_answered") {
        ChannelInboxEvent::PermissionAnswered {
            at_ms,
            request_id: string_field_or_empty(value.get("request_id")),
            behavior: string_field_or_empty(value.get("behavior")),
        }
    } else if same_text(kind, "message_sent") {
        ChannelInboxEvent::MessageSent {
            at_ms,
            outbox_file: string_field_or_empty(value.get("outbox_file")),
            content_chars: match unsigned_field(value.get("content_chars")) {
                Some(chars) => chars,
                None => 0,
            },
        }
    } else if same_text(kind, "error") {
        let outbox_file = string_field_or_empty(value.get("outbox_file"));
        ChannelInboxEvent::Error {
            at_ms,
            outbox_file: if outbox_file.as_str().is_empty() {
                None
            } else {
                Some(outbox_file)
            },
            reason: string_field_or_empty(value.get("reason")),
        }
    } else if same_text(kind, "closed") {
        ChannelInboxEvent::Closed { at_ms, reason: string_field_or_empty(value.get("reason")) }
    } else if same_text(kind, "interrupted") {
        let claude_pid: u32 = match unsigned_field(value.get("claude_pid")) {
            Some(pid) => if pid <= 0xFFFF_FFFF {
                pid as u32
            } else {
                0
            },
            None => 0,
        };
        ChannelInboxEvent::Interrupted {
            at_ms,
            claude_pid,
            reason: string_field_or_empty(value.get("reason")),
        }
    } else {
        ChannelInboxEvent::Unknown { raw: line.to_owned() }
    }
}

/// One JSONL line of a channel's inbox.
///
/// Blank lines are skipped. Every other line is kept: unknown kinds and unparseable
/// payloads become [`ChannelInboxEvent::Unknown`] rather than being dropped, because the
/// inbox is the only record of what the channel server did.
pub fn parse_channel_inbox_line(line: &str) -> (event: Option<ChannelInboxEvent>)
    ensures
        inbox_event_option(event) == (if trimmed(line@).len() == 0 {
            None
        } else {
            match json_of_text(trimmed(line@)) {
                Some(value) => Some(inbox_event_of(value, trimmed(line@))),
                None => Some(ChannelInboxEventView::Unknown { raw: trimmed(line@) }),
            }
        }),
{
    let text = trim(line);
    if text.is_empty() {
        return None;
    }
    match Json::parse(text) {
        Some(value) => Some(channel_event_from_json(&value, text)),
        None => Some(ChannelInboxEvent::Unknown { raw: text.to_owned() }),
    }
}

} // verus!
