//! The agent loop: what follows from each answer of the model, each hook and each command.
//!
//! The loop is a state machine. [`Agent::advance`] takes what happened last and says what to do
//! next; on the way it lists what is to be logged and shown. Performing the actions is left to the
//! caller.

use vstd::prelude::*;
use vstd::slice::slice_subrange;

use crate::hooks;
use crate::hooks::{first_veto, last_transform_command, last_transform_output, HookResult};
use crate::json;
use crate::json::{json_str, Json, ObjectBuilder};
use crate::numbers;
use crate::numbers::{decimal_text, size_text};
use crate::offsets;
use crate::offsets::byte_len;
use crate::prompt;
use crate::prompt::request_body;
use crate::session;
use crate::session::{make_message, make_tool_result};
use crate::sse;
use crate::sse::{make_error_event, OutputFormat};
use crate::text;
use crate::text::{chars_of, owned, same_text, string_of, trimmed};
use crate::tools;
use crate::tools::setting_of;

verus! {

// ---------------------------------------------------------------------------
// Budgets
// ---------------------------------------------------------------------------

/// How many turns an invocation may take, where nothing is set.
pub const DEFAULT_MAX_AGENT_TURNS: u32 = 50;

/// How many tool calls an invocation may make, where nothing is set.
pub const DEFAULT_MAX_TOOL_CALLS: u32 = 200;

/// After how many turns in a row with only empty tool calls an invocation is aborted.
pub const MAX_CONSECUTIVE_EMPTY_TURNS: u32 = 3;

/// How many turns an invocation may take, as `LAZAR_MAX_TURNS` sets it.
pub fn max_turns(var: Option<&str>) -> (r: u32)
    ensures
        r == tools::setting(
            tools::var_text(var),
            u32::MAX as int,
            DEFAULT_MAX_AGENT_TURNS as int,
        ),
        r > 0,
{
    setting_of(var, u32::MAX as u64, DEFAULT_MAX_AGENT_TURNS as u64) as u32
}

/// How many tool calls an invocation may make, as `LAZAR_MAX_TOOL_CALLS` sets it.
pub fn max_tool_calls(var: Option<&str>) -> (r: u32)
    ensures
        r == tools::setting(
            tools::var_text(var),
            u32::MAX as int,
            DEFAULT_MAX_TOOL_CALLS as int,
        ),
        r > 0,
{
    setting_of(var, u32::MAX as u64, DEFAULT_MAX_TOOL_CALLS as u64) as u32
}

// ---------------------------------------------------------------------------
// The model
// ---------------------------------------------------------------------------

/// What does not change during an invocation.
#[derive(Debug)]
pub struct AgentConfig {
    /// How deep the invocation is nested.
    pub depth: u32,
    /// The model.
    pub model: String,
    /// The system prompt.
    pub system: String,
    /// How results are shown.
    pub format: OutputFormat,
    /// Every step is told.
    pub verbose: bool,
    /// How many turns may be taken.
    pub max_turns: u32,
    /// How many tool calls may be made.
    pub max_tool_calls: u32,
}

/// What does not change during an invocation.
#[verifier::ext_equal]
pub struct ConfigView {
    /// How deep the invocation is nested.
    pub depth: u32,
    /// The model.
    pub model: Seq<char>,
    /// The system prompt.
    pub system: Seq<char>,
    /// How results are shown.
    pub format: OutputFormat,
    /// Every step is told.
    pub verbose: bool,
    /// How many turns may be taken.
    pub max_turns: u32,
    /// How many tool calls may be made.
    pub max_tool_calls: u32,
}

impl View for AgentConfig {
    type V = ConfigView;

    open spec fn view(&self) -> ConfigView {
        ConfigView {
            depth: self.depth,
            model: self.model@,
            system: self.system@,
            format: self.format,
            verbose: self.verbose,
            max_turns: self.max_turns,
            max_tool_calls: self.max_tool_calls,
        }
    }
}

/// What the agent waits for.
#[derive(Clone, Copy, Debug, PartialEq, Eq, Structural)]
pub enum Phase {
    /// To be started.
    Idle,
    /// The answer to a request.
    Answer,
    /// The hooks before a command.
    PreTool,
    /// The output of a command.
    Output,
    /// The hooks after a command.
    PostTool,
    /// Nothing: the invocation is over.
    Over,
}

/// The tool call that is being made.
#[verifier::ext_equal]
pub struct CallView {
    /// Its id.
    pub id: json::JsonView,
    /// The command as the model gave it.
    pub raw: Seq<char>,
    /// The command without surrounding white space.
    pub command: Seq<char>,
    /// The command that is run.
    pub executed: Seq<char>,
    /// What the command gave.
    pub output: Seq<char>,
}

/// The state of an invocation.
#[verifier::ext_equal]
pub struct AgentView {
    /// What does not change.
    pub config: ConfigView,
    /// The conversation.
    pub messages: Seq<json::JsonView>,
    /// How many turns were started.
    pub turns: u32,
    /// How many tool calls were made.
    pub tool_calls: u32,
    /// How many turns in a row had only empty tool calls.
    pub empty_turns: u32,
    /// What is waited for.
    pub phase: Phase,
    /// The last answer.
    pub content: json::JsonView,
    /// Why the model stopped.
    pub stop_reason: Seq<char>,
    /// How long the invocation had taken when the answer came in.
    pub duration_ms: u64,
    /// How many blocks of the answer were looked at.
    pub cursor: int,
    /// The results of the tool calls of the answer so far.
    pub results: Seq<json::JsonView>,
    /// Some tool call of the answer had a command.
    pub had_valid: bool,
    /// The tool call that is being made.
    pub call: CallView,
}

/// Something to log or to show.
#[derive(Debug)]
pub enum AgentEffect {
    /// An event for the log.
    Log(Json),
    /// An event for the standard output.
    Emit(Json),
    /// The result, for the standard output.
    PrintResult(Json),
    /// A line for the error output.
    Note(String),
    /// The payload of the hooks that fire when the agent stops.
    FireStop(Json),
}

/// Something to log or to show.
#[verifier::ext_equal]
pub enum AgentEffectView {
    /// An event for the log.
    Log(json::JsonView),
    /// An event for the standard output.
    Emit(json::JsonView),
    /// The result, for the standard output.
    PrintResult(json::JsonView),
    /// A line for the error output.
    Note(Seq<char>),
    /// The payload of the hooks that fire when the agent stops.
    FireStop(json::JsonView),
}

impl View for AgentEffect {
    type V = AgentEffectView;

    open spec fn view(&self) -> AgentEffectView {
        match self {
            AgentEffect::Log(v) => AgentEffectView::Log(v@),
            AgentEffect::Emit(v) => AgentEffectView::Emit(v@),
            AgentEffect::PrintResult(v) => AgentEffectView::PrintResult(v@),
            AgentEffect::Note(s) => AgentEffectView::Note(s@),
            AgentEffect::FireStop(v) => AgentEffectView::FireStop(v@),
        }
    }
}

/// What the effects of a list say.
pub open spec fn effect_views(v: Seq<AgentEffect>) -> Seq<AgentEffectView> {
    v.map_values(|e: AgentEffect| e@)
}

/// What to do next.
#[derive(Debug)]
pub enum AgentAction {
    /// Send a request with this body.
    Request(Json),
    /// Fire the hooks before a command, with this payload.
    FirePreTool(Json),
    /// Run this command.
    Run(String),
    /// Fire the hooks after a command, with this payload.
    FirePostTool(Json),
    /// The invocation is over, and went well.
    Succeed,
    /// The invocation is over, and this went wrong.
    Fail(String),
}

/// What to do next.
#[verifier::ext_equal]
pub enum AgentActionView {
    /// Send a request with this body.
    Request(json::JsonView),
    /// Fire the hooks before a command, with this payload.
    FirePreTool(json::JsonView),
    /// Run this command.
    Run(Seq<char>),
    /// Fire the hooks after a command, with this payload.
    FirePostTool(json::JsonView),
    /// The invocation is over, and went well.
    Succeed,
    /// The invocation is over, and this went wrong.
    Fail(Seq<char>),
}

impl View for AgentAction {
    type V = AgentActionView;

    open spec fn view(&self) -> AgentActionView {
        match self {
            AgentAction::Request(v) => AgentActionView::Request(v@),
            AgentAction::FirePreTool(v) => AgentActionView::FirePreTool(v@),
            AgentAction::Run(s) => AgentActionView::Run(s@),
            AgentAction::FirePostTool(v) => AgentActionView::FirePostTool(v@),
            AgentAction::Succeed => AgentActionView::Succeed,
            AgentAction::Fail(s) => AgentActionView::Fail(s@),
        }
    }
}

/// What happened.
#[derive(Debug)]
pub enum AgentEvent {
    /// The invocation begins.
    Start,
    /// The request could not be sent, or its answer not be read.
    RequestFailed(String),
    /// The request was answered with an error.
    RequestRejected(String),
    /// The request was answered.
    Answered {
        /// The content of the answer.
        content: Json,
        /// Why the model stopped.
        stop_reason: String,
        /// How long the invocation has taken so far.
        duration_ms: u64,
    },
    /// The hooks before a command were fired.
    PreToolFired(Vec<HookResult>),
    /// The command was run.
    CommandRan(String),
    /// The hooks after a command were fired.
    PostToolFired(Vec<HookResult>),
}

/// What happened.
#[verifier::ext_equal]
pub enum AgentEventView {
    /// The invocation begins.
    Start,
    /// The request could not be sent, or its answer not be read.
    RequestFailed(Seq<char>),
    /// The request was answered with an error.
    RequestRejected(Seq<char>),
    /// The request was answered.
    Answered(json::JsonView, Seq<char>, u64),
    /// The hooks before a command were fired.
    PreToolFired(Seq<hooks::ActionView>),
    /// The command was run.
    CommandRan(Seq<char>),
    /// The hooks after a command were fired.
    PostToolFired(Seq<hooks::ActionView>),
}

impl View for AgentEvent {
    type V = AgentEventView;

    open spec fn view(&self) -> AgentEventView {
        match self {
            AgentEvent::Start => AgentEventView::Start,
            AgentEvent::RequestFailed(s) => AgentEventView::RequestFailed(s@),
            AgentEvent::RequestRejected(s) => AgentEventView::RequestRejected(s@),
            AgentEvent::Answered { content, stop_reason, duration_ms } => AgentEventView::Answered(
                content@,
                stop_reason@,
                *duration_ms,
            ),
            AgentEvent::PreToolFired(r) => AgentEventView::PreToolFired(
                hooks::asked_actions(r@),
            ),
            AgentEvent::CommandRan(s) => AgentEventView::CommandRan(s@),
            AgentEvent::PostToolFired(r) => AgentEventView::PostToolFired(
                hooks::asked_actions(r@),
            ),
        }
    }
}

/// The state after an event, what is to be logged and shown, and what to do next.
#[verifier::ext_equal]
pub struct AgentStep {
    /// The state.
    pub agent: AgentView,
    /// What is to be logged and shown.
    pub effects: Seq<AgentEffectView>,
    /// What to do next.
    pub action: AgentActionView,
}

/// The step, with something to be shown before.
pub open spec fn after(effects: Seq<AgentEffectView>, step: AgentStep) -> AgentStep {
    AgentStep { effects: effects + step.effects, ..step }
}

/// One more, or the largest number.
pub open spec fn counted(n: u32) -> u32 {
    if n < u32::MAX {
        (n + 1) as u32
    } else {
        n
    }
}

// ---------------------------------------------------------------------------
// Events and payloads
// ---------------------------------------------------------------------------

/// The event, where events are shown.
pub open spec fn emitted(c: ConfigView, e: json::JsonView) -> Seq<AgentEffectView> {
    if c.format == OutputFormat::StreamJson {
        seq![AgentEffectView::Emit(e)]
    } else {
        Seq::empty()
    }
}

/// The line, where every step is told.
pub open spec fn told(c: ConfigView, s: Seq<char>) -> Seq<AgentEffectView> {
    if c.verbose {
        seq![AgentEffectView::Note(s)]
    } else {
        Seq::empty()
    }
}

/// The log event at the end of an invocation.
pub open spec fn end_log(reason: Seq<char>, note: Option<Seq<char>>) -> json::JsonView {
    json::object_of(
        seq![
            ("kind"@, json::JsonView::Str("invoke_end"@)),
            ("stop_reason"@, json::JsonView::Str(reason)),
        ] + match note {
            Some(n) => seq![("note"@, json::JsonView::Str(n))],
            None => Seq::empty(),
        },
    )
}

/// The log event on an answer.
pub open spec fn assistant_log(content: json::JsonView) -> json::JsonView {
    json::object_of(
        seq![("kind"@, json::JsonView::Str("assistant"@)), ("content"@, content)],
    )
}

/// The payload of the hooks that fire when the agent stops.
pub open spec fn stop_payload(depth: u32, reason: Seq<char>, duration_ms: u64) -> json::JsonView {
    json::object_of(
        seq![
            ("depth"@, json::JsonView::Unsigned(depth as u64)),
            ("stop_reason"@, json::JsonView::Str(reason)),
            ("duration_ms"@, json::JsonView::Unsigned(duration_ms)),
        ],
    )
}

/// The event that is shown at the end of an invocation.
pub open spec fn end_event(
    reason: Seq<char>,
    duration_ms: u64,
    note: Option<Seq<char>>,
) -> json::JsonView {
    json::object_of(
        seq![
            ("type"@, json::JsonView::Str("invoke_end"@)),
            ("stop_reason"@, json::JsonView::Str(reason)),
            ("duration_ms"@, json::JsonView::Unsigned(duration_ms)),
        ] + match note {
            Some(n) => seq![("note"@, json::JsonView::Str(n))],
            None => Seq::empty(),
        },
    )
}

/// The result that is shown at the end of an invocation.
pub open spec fn result_event(
    reason: Seq<char>,
    model: Seq<char>,
    result: Seq<char>,
    content: json::JsonView,
    last: (Seq<char>, json::JsonView),
) -> json::JsonView {
    json::object_of(
        seq![
            ("type"@, json::JsonView::Str("result"@)),
            ("stop_reason"@, json::JsonView::Str(reason)),
            ("model"@, json::JsonView::Str(model)),
            ("result"@, json::JsonView::Str(result)),
            ("content"@, content),
            last,
        ],
    )
}

/// The payload of the hooks before a command.
pub open spec fn pre_payload(depth: u32, id: json::JsonView, raw: Seq<char>) -> json::JsonView {
    json::object_of(
        seq![
            ("depth"@, json::JsonView::Unsigned(depth as u64)),
            ("tool_use_id"@, id),
            ("command"@, json::JsonView::Str(raw)),
        ],
    )
}

/// The payload of the hooks after a command.
pub open spec fn post_payload(
    depth: u32,
    id: json::JsonView,
    command: Seq<char>,
    output: Seq<char>,
) -> json::JsonView {
    json::object_of(
        seq![
            ("depth"@, json::JsonView::Unsigned(depth as u64)),
            ("tool_use_id"@, id),
            ("command"@, json::JsonView::Str(command)),
            ("output"@, json::JsonView::Str(output)),
        ],
    )
}

/// The event on a tool result. `first` tells its kind. The command is the one that ran, or else the
/// one that was asked for.
pub open spec fn result_entry(
    first: (Seq<char>, json::JsonView),
    id: json::JsonView,
    raw: Seq<char>,
    executed: Option<Seq<char>>,
    output: Seq<char>,
) -> json::JsonView {
    json::object_of(
        seq![
            first,
            ("tool_use_id"@, id),
            (
                "command"@,
                json::JsonView::Str(
                    match executed {
                        Some(e) => e,
                        None => raw,
                    },
                ),
            ),
            ("requested_command"@, json::JsonView::Str(raw)),
            (
                "executed_command"@,
                match executed {
                    Some(e) => json::JsonView::Str(e),
                    None => json::JsonView::Null,
                },
            ),
            ("content"@, json::JsonView::Str(output)),
        ],
    )
}

// ---------------------------------------------------------------------------
// The steps
// ---------------------------------------------------------------------------

/// The invocation is over.
pub open spec fn over(s: AgentView) -> AgentView {
    AgentView { phase: Phase::Over, ..s }
}

/// The invocation fails. `mid` is shown between the error and the log.
pub open spec fn failed_step(
    s: AgentView,
    msg: Seq<char>,
    reason: Seq<char>,
    mid: Seq<AgentEffectView>,
) -> AgentStep {
    AgentStep {
        agent: over(s),
        effects: emitted(s.config, sse::error_event(msg)) + mid + seq![
            AgentEffectView::Log(end_log(reason, Some(msg))),
        ],
        action: AgentActionView::Fail(msg),
    }
}

/// The next turn begins: a request, unless the turns are used up.
pub open spec fn turn_step(s: AgentView) -> AgentStep {
    let n = counted(s.turns);
    let s1 = AgentView { turns: n, ..s };
    if n > s.config.max_turns {
        failed_step(
            s1,
            "aborted after reaching LAZAR_MAX_TURNS="@ + numbers::decimal(
                s.config.max_turns as nat,
            ),
            "aborted"@,
            Seq::empty(),
        )
    } else {
        AgentStep {
            agent: AgentView { phase: Phase::Answer, ..s1 },
            effects: Seq::empty(),
            action: AgentActionView::Request(
                prompt::request_body_of(s.config.model, s.config.system, s.messages),
            ),
        }
    }
}

/// The texts of the text blocks.
pub open spec fn answer_texts(blocks: Seq<json::JsonView>) -> Seq<Seq<char>>
    decreases blocks.len(),
{
    if blocks.len() == 0 {
        Seq::empty()
    } else {
        let before = answer_texts(blocks.drop_last());
        let b = blocks.last();
        if b.field_is("type"@, "text"@) && b.field_text("text"@) is Some {
            before.push(b.field_text("text"@)->0)
        } else {
            before
        }
    }
}

/// The texts on lines of their own.
pub open spec fn on_lines(texts: Seq<Seq<char>>) -> Seq<char>
    decreases texts.len(),
{
    if texts.len() == 0 {
        Seq::empty()
    } else if texts.len() == 1 {
        texts[0]
    } else {
        on_lines(texts.drop_last()) + "\n"@ + texts.last()
    }
}

/// The text of an answer.
pub open spec fn answer_text(content: json::JsonView) -> Seq<char> {
    on_lines(answer_texts(content.items()))
}

/// What is shown at the end of an invocation, in its format.
pub open spec fn closing(
    s: AgentView,
    result: Seq<char>,
    note: Option<Seq<char>>,
    last: (Seq<char>, json::JsonView),
) -> Seq<AgentEffectView> {
    match s.config.format {
        OutputFormat::StreamJson => seq![
            AgentEffectView::Emit(end_event(s.stop_reason, s.duration_ms, note)),
        ],
        OutputFormat::Json => seq![
            AgentEffectView::PrintResult(
                result_event(s.stop_reason, s.config.model, result, s.content, last),
            ),
        ],
        OutputFormat::Text => Seq::empty(),
    }
}

/// The hooks that fire when the model ends its turn in a top-level invocation.
pub open spec fn stop_hooks(s: AgentView) -> Seq<AgentEffectView> {
    if s.config.depth == 0 {
        seq![
            AgentEffectView::FireStop(
                stop_payload(s.config.depth, s.stop_reason, s.duration_ms),
            ),
        ]
    } else {
        Seq::empty()
    }
}

/// The model ended its turn.
pub open spec fn end_turn_step(s: AgentView) -> AgentStep {
    let last = ("duration_ms"@, json::JsonView::Unsigned(s.duration_ms));
    AgentStep {
        agent: over(s),
        effects: seq![AgentEffectView::Log(end_log(s.stop_reason, None))] + stop_hooks(s) + closing(
            s,
            answer_text(s.content),
            None,
            last,
        ) + told(
            s.config,
            "[lazar] invoke_end stop_reason="@ + s.stop_reason + " duration="@ + numbers::decimal(
                s.duration_ms as nat,
            ) + "ms"@,
        ),
        action: AgentActionView::Succeed,
    }
}

/// The model stopped without a tool call.
pub open spec fn no_calls_step(s: AgentView) -> AgentStep {
    let last = ("note"@, json::JsonView::Str("no tool calls"@));
    AgentStep {
        agent: over(s),
        effects: seq![
            AgentEffectView::Note(
                "[lazar] stop_reason="@ + s.stop_reason + ", no tool calls; exiting"@,
            ),
            AgentEffectView::Log(end_log(s.stop_reason, Some("no tool calls"@))),
        ] + closing(s, Seq::empty(), Some("no tool calls"@), last),
        action: AgentActionView::Succeed,
    }
}

/// How many turns in a row had only empty tool calls, after this one.
pub open spec fn empty_turns_after(s: AgentView) -> u32 {
    if s.results.len() > 0 && !s.had_valid {
        counted(s.empty_turns)
    } else if s.had_valid {
        0
    } else {
        s.empty_turns
    }
}

/// All tool calls of an answer were made: their results go back to the model. Without any the
/// invocation is over; after too many turns with only empty ones it is aborted.
pub open spec fn calls_done_step(s: AgentView) -> AgentStep {
    let n = empty_turns_after(s);
    let s1 = AgentView { empty_turns: n, ..s };
    if s.results.len() > 0 && !s.had_valid && n >= MAX_CONSECUTIVE_EMPTY_TURNS {
        let msg = "aborted after "@ + numbers::decimal(n as nat)
            + " consecutive turns with only empty tool calls"@;
        AgentStep {
            agent: over(s1),
            effects: seq![
                AgentEffectView::Note("[lazar] "@ + msg),
                AgentEffectView::Log(end_log("aborted"@, Some(msg))),
            ] + emitted(s.config, sse::error_event(msg)),
            action: AgentActionView::Fail(msg),
        }
    } else if s.results.len() == 0 {
        no_calls_step(s1)
    } else {
        turn_step(
            AgentView {
                messages: s.messages.push(
                    session::message("user"@, json::JsonView::Array(s.results)),
                ),
                ..s1
            },
        )
    }
}

/// The block is a call of the tool.
pub open spec fn is_call(b: json::JsonView) -> bool {
    b.field_is("type"@, "tool_use"@) && b.field_is("name"@, "execute"@)
}

/// The command of a call, as the model gave it.
pub open spec fn raw_command(b: json::JsonView) -> Seq<char> {
    match b.at("input"@).field_text("command"@) {
        Some(c) => c,
        None => Seq::empty(),
    }
}

/// The output of a call without a command.
pub const EMPTY_COMMAND_OUTPUT: &'static str =
    "[error: 'execute' was called with an empty or missing 'command' field. \
    Provide a non-empty bash command, or end your turn instead of calling \
    the tool with no arguments.]\n[exit 1]";

/// The state after the result of a call.
pub open spec fn recorded_agent(s: AgentView, id: json::JsonView, output: Seq<char>) -> AgentView {
    AgentView {
        results: s.results.push(session::tool_result(id, json::JsonView::Str(output))),
        ..s
    }
}

/// What is logged and shown of the result of a call.
pub open spec fn record_effects(
    c: ConfigView,
    id: json::JsonView,
    raw: Seq<char>,
    executed: Option<Seq<char>>,
    output: Seq<char>,
) -> Seq<AgentEffectView> {
    seq![
        AgentEffectView::Log(
            result_entry(
                ("kind"@, json::JsonView::Str("tool_result"@)),
                id,
                raw,
                executed,
                output,
            ),
        ),
    ] + emitted(
        c,
        result_entry(("type"@, json::JsonView::Str("tool_result"@)), id, raw, executed, output),
    ) + told(
        c,
        "[lazar] tool_result: "@ + numbers::decimal(offsets::bytes(output).len()) + " bytes"@,
    )
}

/// The first characters of a command.
pub open spec fn command_preview(cmd: Seq<char>) -> Seq<char> {
    if cmd.len() <= 120 {
        cmd
    } else {
        cmd.take(120)
    }
}

/// The hooks before a command are fired.
pub open spec fn call_step(s: AgentView, b: json::JsonView) -> AgentStep {
    let raw = raw_command(b);
    let cmd = text::trim(raw);
    AgentStep {
        agent: AgentView {
            phase: Phase::PreTool,
            had_valid: true,
            call: CallView {
                id: b.at("id"@),
                raw,
                command: cmd,
                executed: Seq::empty(),
                output: Seq::empty(),
            },
            ..s
        },
        effects: told(s.config, "[lazar] tool_use: "@ + command_preview(cmd)),
        action: AgentActionView::FirePreTool(pre_payload(s.config.depth, b.at("id"@), raw)),
    }
}

/// The next tool call of the answer. A call without a command is answered at once.
pub open spec fn next_call_step(s: AgentView) -> AgentStep
    decreases s.content.items().len() - s.cursor,
{
    let blocks = s.content.items();
    if s.cursor < 0 || s.cursor >= blocks.len() {
        calls_done_step(s)
    } else {
        let b = blocks[s.cursor];
        let s1 = AgentView { cursor: s.cursor + 1, ..s };
        let s2 = AgentView { tool_calls: counted(s.tool_calls), ..s1 };
        if !is_call(b) {
            next_call_step(s1)
        } else if counted(s.tool_calls) > s.config.max_tool_calls {
            failed_step(
                s2,
                "aborted after reaching LAZAR_MAX_TOOL_CALLS="@ + numbers::decimal(
                    s.config.max_tool_calls as nat,
                ),
                "aborted"@,
                Seq::empty(),
            )
        } else if text::trim(raw_command(b)).len() == 0 {
            after(
                told(s.config, "[lazar] tool_use: <EMPTY COMMAND — refused>"@) + record_effects(
                    s.config,
                    b.at("id"@),
                    raw_command(b),
                    None,
                    EMPTY_COMMAND_OUTPUT@,
                ),
                next_call_step(recorded_agent(s2, b.at("id"@), EMPTY_COMMAND_OUTPUT@)),
            )
        } else {
            call_step(s2, b)
        }
    }
}

/// The output of a call that a hook vetoed.
pub open spec fn veto_output(reason: Seq<char>) -> Seq<char> {
    "[vetoed by hook: "@ + reason + VETO_NOTE@
}

/// What the model is told after the reason of a veto.
pub const VETO_NOTE: &'static str = "]\n[exit 1]\n\
    [note: A pre-tool hook blocked this command. Adjust your approach \
    or escalate to the user; do not retry the same command.]";

/// The command that is run, after the hooks before it.
pub open spec fn effective_command(s: AgentView, actions: Seq<hooks::ActionView>) -> Seq<char> {
    match hooks::last_command_of(actions) {
        Some(c) => c,
        None => s.call.command,
    }
}

/// The hooks before a command were fired: a veto answers the call, otherwise the command is run.
pub open spec fn pre_tool_step(s: AgentView, actions: Seq<hooks::ActionView>) -> AgentStep {
    match hooks::first_veto_of(actions) {
        Some(reason) => after(
            told(s.config, "[lazar] pre-tool veto: "@ + reason) + record_effects(
                s.config,
                s.call.id,
                s.call.raw,
                None,
                veto_output(reason),
            ),
            next_call_step(recorded_agent(s, s.call.id, veto_output(reason))),
        ),
        None => {
            let cmd = effective_command(s, actions);
            AgentStep {
                agent: AgentView {
                    phase: Phase::Output,
                    call: CallView { executed: cmd, ..s.call },
                    ..s
                },
                effects: if cmd != s.call.command {
                    told(s.config, "[lazar] pre-tool rewrote command"@)
                } else {
                    Seq::empty()
                },
                action: AgentActionView::Run(cmd),
            }
        },
    }
}

/// The command was run: the hooks after it are fired.
pub open spec fn ran_step(s: AgentView, output: Seq<char>) -> AgentStep {
    AgentStep {
        agent: AgentView { phase: Phase::PostTool, call: CallView { output, ..s.call }, ..s },
        effects: Seq::empty(),
        action: AgentActionView::FirePostTool(
            post_payload(s.config.depth, s.call.id, s.call.executed, output),
        ),
    }
}

/// The output that goes back to the model, after the hooks after a command.
pub open spec fn effective_output(s: AgentView, actions: Seq<hooks::ActionView>) -> Seq<char> {
    match hooks::last_output_of(actions) {
        Some(o) => o,
        None => s.call.output,
    }
}

/// The hooks after a command were fired: the call has its result.
pub open spec fn post_tool_step(s: AgentView, actions: Seq<hooks::ActionView>) -> AgentStep {
    let output = effective_output(s, actions);
    after(
        record_effects(s.config, s.call.id, s.call.raw, Some(s.call.executed), output),
        next_call_step(recorded_agent(s, s.call.id, output)),
    )
}

/// The state when an answer came in.
pub open spec fn answered_agent(
    s: AgentView,
    content: json::JsonView,
    reason: Seq<char>,
    duration_ms: u64,
) -> AgentView {
    AgentView {
        messages: s.messages.push(session::message("assistant"@, content)),
        content,
        stop_reason: reason,
        duration_ms,
        cursor: 0,
        results: Seq::empty(),
        had_valid: false,
        ..s
    }
}

/// An answer came in.
pub open spec fn answered_step(
    s: AgentView,
    content: json::JsonView,
    reason: Seq<char>,
    duration_ms: u64,
) -> AgentStep {
    let s1 = answered_agent(s, content, reason, duration_ms);
    after(
        seq![AgentEffectView::Log(assistant_log(content))],
        if reason == "end_turn"@ {
            end_turn_step(s1)
        } else {
            next_call_step(s1)
        },
    )
}

/// The event is one that the agent waits for.
pub open spec fn expects(s: AgentView, e: AgentEventView) -> bool {
    match e {
        AgentEventView::Start => s.phase == Phase::Idle,
        AgentEventView::RequestFailed(_) => s.phase == Phase::Answer,
        AgentEventView::RequestRejected(_) => s.phase == Phase::Answer,
        AgentEventView::Answered(_, _, _) => s.phase == Phase::Answer,
        AgentEventView::PreToolFired(_) => s.phase == Phase::PreTool,
        AgentEventView::CommandRan(_) => s.phase == Phase::Output,
        AgentEventView::PostToolFired(_) => s.phase == Phase::PostTool,
    }
}

/// What follows from an event.
pub open spec fn advanced(s: AgentView, e: AgentEventView) -> AgentStep {
    match e {
        AgentEventView::Start => turn_step(s),
        AgentEventView::RequestFailed(msg) => failed_step(s, msg, "error"@, Seq::empty()),
        AgentEventView::RequestRejected(msg) => failed_step(
            s,
            msg,
            "error"@,
            told(s.config, "[lazar] "@ + msg),
        ),
        AgentEventView::Answered(content, reason, duration_ms) => answered_step(
            s,
            content,
            reason,
            duration_ms,
        ),
        AgentEventView::PreToolFired(actions) => pre_tool_step(s, actions),
        AgentEventView::CommandRan(output) => ran_step(s, output),
        AgentEventView::PostToolFired(actions) => post_tool_step(s, actions),
    }
}

// ---------------------------------------------------------------------------
// Laws
// ---------------------------------------------------------------------------

/// The ids of the tool calls among the blocks.
pub open spec fn call_ids(blocks: Seq<json::JsonView>) -> Seq<json::JsonView>
    decreases blocks.len(),
{
    if blocks.len() == 0 {
        Seq::empty()
    } else if is_call(blocks.last()) {
        call_ids(blocks.drop_last()).push(blocks.last().at("id"@))
    } else {
        call_ids(blocks.drop_last())
    }
}

/// The ids that the results answer.
pub open spec fn result_ids(results: Seq<json::JsonView>) -> Seq<json::JsonView> {
    results.map_values(|r: json::JsonView| r.at("tool_use_id"@))
}

/// The state is one that an invocation can be in: the budgets are kept, and the results so far
/// answer the calls so far, one by one.
pub open spec fn sound(s: AgentView) -> bool {
    let blocks = s.content.items();
    &&& s.phase != Phase::Over ==> s.turns <= s.config.max_turns && s.tool_calls
        <= s.config.max_tool_calls
    &&& (s.phase == Phase::PreTool || s.phase == Phase::Output || s.phase == Phase::PostTool) ==> {
        &&& 0 <= s.cursor <= blocks.len()
        &&& call_ids(blocks.take(s.cursor)) == result_ids(s.results).push(s.call.id)
        &&& s.messages.len() > 0
        &&& s.messages.last() == session::message("assistant"@, s.content)
        &&& text::trim(s.call.raw) == s.call.command
        &&& s.call.command.len() > 0
    }
}

/// All calls of the last answer are answered, in their order, by the last message.
pub open spec fn all_answered(s: AgentView) -> bool {
    &&& s.messages.len() >= 2
    &&& s.messages[s.messages.len() - 2] == session::message("assistant"@, s.content)
    &&& s.messages.last() == session::message("user"@, json::JsonView::Array(s.results))
    &&& result_ids(s.results) == call_ids(s.content.items())
}

/// The state between two calls.
spec fn between_calls(s: AgentView) -> bool {
    let blocks = s.content.items();
    &&& s.turns <= s.config.max_turns
    &&& s.tool_calls <= s.config.max_tool_calls
    &&& 0 <= s.cursor <= blocks.len()
    &&& call_ids(blocks.take(s.cursor)) == result_ids(s.results)
    &&& s.messages.len() > 0
    &&& s.messages.last() == session::message("assistant"@, s.content)
}

proof fn lemma_result_id(id: json::JsonView, content: json::JsonView)
    ensures
        session::tool_result(id, content).at("tool_use_id"@) == id,
{
    reveal_strlit("type");
    reveal_strlit("tool_use_id");
    reveal_strlit("content");
    let e = seq![
        ("type"@, json::JsonView::Str("tool_result"@)),
        ("tool_use_id"@, id),
        ("content"@, content),
    ];
    assert("content"@.len() != "tool_use_id"@.len());
    assert(e.drop_last().last() == ("tool_use_id"@, id));
    reveal_with_fuel(json::entries_map, 4);
}

proof fn lemma_recorded_ids(s: AgentView, id: json::JsonView, output: Seq<char>)
    ensures
        result_ids(recorded_agent(s, id, output).results) == result_ids(s.results).push(id),
{
    lemma_result_id(id, json::JsonView::Str(output));
    assert(result_ids(recorded_agent(s, id, output).results) =~= result_ids(s.results).push(id));
}

proof fn lemma_next_call(s: AgentView)
    requires
        between_calls(s),
    ensures
        ({
            let r = next_call_step(s);
            &&& sound(r.agent)
            &&& !(r.action is Run)
            &&& !(r.action is FirePostTool)
            &&& r.action is Request ==> r.agent.turns == counted(s.turns) && all_answered(r.agent)
            &&& !(r.action is Request) ==> r.agent.turns >= s.turns
            &&& r.agent.config == s.config
            &&& r.action is FirePreTool ==> r.agent.phase == Phase::PreTool
            &&& r.action is Request ==> r.agent.phase == Phase::Answer
            &&& (r.action is Fail || r.action is Succeed) ==> r.agent.phase == Phase::Over
        }),
    decreases s.content.items().len() - s.cursor,
{
    let blocks = s.content.items();
    if s.cursor >= blocks.len() {
        assert(blocks.take(s.cursor) =~= blocks);
    } else {
        let b = blocks[s.cursor];
        let s1 = AgentView { cursor: s.cursor + 1, ..s };
        let s2 = AgentView { tool_calls: counted(s.tool_calls), ..s1 };
        assert(blocks.take(s.cursor + 1).drop_last() =~= blocks.take(s.cursor));
        assert(blocks.take(s.cursor + 1).last() == b);
        if !is_call(b) {
            lemma_next_call(s1);
        } else if counted(s.tool_calls) > s.config.max_tool_calls {
        } else if text::trim(raw_command(b)).len() == 0 {
            lemma_recorded_ids(s2, b.at("id"@), EMPTY_COMMAND_OUTPUT@);
            lemma_next_call(recorded_agent(s2, b.at("id"@), EMPTY_COMMAND_OUTPUT@));
        }
    }
}

/// What every step from a sound state gives.
proof fn lemma_advanced(s: AgentView, e: AgentEventView)
    requires
        sound(s),
        expects(s, e),
    ensures
        ({
            let r = advanced(s, e);
            &&& sound(r.agent)
            &&& r.agent.config == s.config
            &&& r.action is Request ==> r.agent.turns == counted(s.turns) && r.agent.phase
                == Phase::Answer && (e !is Start ==> all_answered(r.agent))
            &&& r.action is Run ==> e is PreToolFired && hooks::first_veto_of(
                e->PreToolFired_0,
            ) is None
        }),
{
    match e {
        AgentEventView::Answered(content, reason, duration_ms) => {
            let s1 = answered_agent(s, content, reason, duration_ms);
            assert(content.items().take(0) =~= Seq::<json::JsonView>::empty());
            assert(result_ids(s1.results) =~= Seq::<json::JsonView>::empty());
            lemma_next_call(s1);
        },
        AgentEventView::PreToolFired(actions) => {
            if let Some(reason) = hooks::first_veto_of(actions) {
                lemma_recorded_ids(s, s.call.id, veto_output(reason));
                lemma_next_call(recorded_agent(s, s.call.id, veto_output(reason)));
            }
        },
        AgentEventView::PostToolFired(actions) => {
            let output = effective_output(s, actions);
            lemma_recorded_ids(s, s.call.id, output);
            lemma_next_call(recorded_agent(s, s.call.id, output));
        },
        _ => {},
    }
}

/// Every step keeps the state sound: the budgets are not exceeded, and no tool call goes
/// unanswered or is answered twice.
pub proof fn law_steps_stay_sound(s: AgentView, e: AgentEventView)
    requires
        sound(s),
        expects(s, e),
    ensures
        sound(advanced(s, e).agent),
{
    lemma_advanced(s, e);
}

/// A request costs a turn, as far as turns can be counted, is sent only while turns are left, and,
/// but for the first, only after every tool call of the last answer was answered.
pub proof fn law_requests_are_counted(s: AgentView, e: AgentEventView)
    requires
        sound(s),
        expects(s, e),
        advanced(s, e).action is Request,
    ensures
        s.turns < u32::MAX ==> advanced(s, e).agent.turns == s.turns + 1,
        advanced(s, e).agent.turns <= s.config.max_turns,
        e !is Start ==> all_answered(advanced(s, e).agent),
{
    lemma_advanced(s, e);
}

/// A command is run only after the hooks before it were fired and none vetoed it, only while tool
/// calls are left, and it is the one that the last hook to rewrite it gave, or else the one that
/// the model asked for, which is not empty.
pub proof fn law_runs_are_allowed(s: AgentView, e: AgentEventView, cmd: Seq<char>)
    requires
        sound(s),
        expects(s, e),
        advanced(s, e).action == AgentActionView::Run(cmd),
    ensures
        e is PreToolFired,
        hooks::first_veto_of(e->PreToolFired_0) is None,
        cmd == effective_command(s, e->PreToolFired_0),
        s.tool_calls <= s.config.max_tool_calls,
        s.call.command.len() > 0,
{
    lemma_advanced(s, e);
}

/// Some of the effects fires the hooks at the stop of the agent.
pub open spec fn fires_stop(effects: Seq<AgentEffectView>) -> bool {
    exists|i: int| 0 <= i < effects.len() && (#[trigger] effects[i]) is FireStop
}

proof fn lemma_fires_either(a: Seq<AgentEffectView>, b: Seq<AgentEffectView>)
    ensures
        fires_stop(a + b) <==> fires_stop(a) || fires_stop(b),
{
    let all = a + b;
    if fires_stop(a) {
        let i = choose|i: int| 0 <= i < a.len() && (#[trigger] a[i]) is FireStop;
        assert(all[i] == a[i]);
    }
    if fires_stop(b) {
        let i = choose|i: int| 0 <= i < b.len() && (#[trigger] b[i]) is FireStop;
        assert(all[a.len() + i] == b[i]);
    }
    if fires_stop(all) {
        let i = choose|i: int| 0 <= i < all.len() && (#[trigger] all[i]) is FireStop;
        if i < a.len() {
            assert(all[i] == a[i]);
        } else {
            assert(all[i] == b[i - a.len()]);
        }
    }
}

proof fn lemma_record_is_quiet(
    c: ConfigView,
    id: json::JsonView,
    raw: Seq<char>,
    executed: Option<Seq<char>>,
    output: Seq<char>,
    line: Seq<char>,
)
    ensures
        !fires_stop(record_effects(c, id, raw, executed, output)),
        !fires_stop(told(c, line) + record_effects(c, id, raw, executed, output)),
{
}

/// Going through the calls of an answer fires no hooks at the stop of the agent.
proof fn lemma_calls_are_quiet(s: AgentView)
    ensures
        !fires_stop(next_call_step(s).effects),
    decreases s.content.items().len() - s.cursor,
{
    let blocks = s.content.items();
    if 0 <= s.cursor < blocks.len() {
        let b = blocks[s.cursor];
        let s1 = AgentView { cursor: s.cursor + 1, ..s };
        let s2 = AgentView { tool_calls: counted(s.tool_calls), ..s1 };
        if !is_call(b) {
            lemma_calls_are_quiet(s1);
        } else if counted(s.tool_calls) <= s.config.max_tool_calls && text::trim(
            raw_command(b),
        ).len() == 0 {
            let line = "[lazar] tool_use: <EMPTY COMMAND — refused>"@;
            let rest = recorded_agent(s2, b.at("id"@), EMPTY_COMMAND_OUTPUT@);
            let here = told(s.config, line) + record_effects(
                s.config,
                b.at("id"@),
                raw_command(b),
                None,
                EMPTY_COMMAND_OUTPUT@,
            );
            lemma_calls_are_quiet(rest);
            lemma_record_is_quiet(
                s.config,
                b.at("id"@),
                raw_command(b),
                None,
                EMPTY_COMMAND_OUTPUT@,
                line,
            );
            lemma_fires_either(here, next_call_step(rest).effects);
        }
    }
}

/// The hooks at the stop of the agent fire exactly when the model ends its turn in a top-level
/// invocation.
pub proof fn law_stop_hooks_fire_at_end_turn(s: AgentView, e: AgentEventView)
    ensures
        fires_stop(advanced(s, e).effects) <==> e is Answered && e->Answered_1 == "end_turn"@
            && s.config.depth == 0,
{
    match e {
        AgentEventView::Answered(content, reason, duration_ms) => {
            let s1 = answered_agent(s, content, reason, duration_ms);
            let log = seq![AgentEffectView::Log(assistant_log(content))];
            assert(!fires_stop(log));
            if reason == "end_turn"@ {
                let end = end_turn_step(s1).effects;
                lemma_fires_either(log, end);
                if s.config.depth == 0 {
                    assert(end[1] is FireStop);
                }
            } else {
                lemma_calls_are_quiet(s1);
                lemma_fires_either(log, next_call_step(s1).effects);
            }
        },
        AgentEventView::PreToolFired(actions) => {
            if let Some(reason) = hooks::first_veto_of(actions) {
                let output = veto_output(reason);
                let line = "[lazar] pre-tool veto: "@ + reason;
                let rest = recorded_agent(s, s.call.id, output);
                lemma_calls_are_quiet(rest);
                lemma_record_is_quiet(s.config, s.call.id, s.call.raw, None, output, line);
                lemma_fires_either(
                    told(s.config, line) + record_effects(
                        s.config,
                        s.call.id,
                        s.call.raw,
                        None,
                        output,
                    ),
                    next_call_step(rest).effects,
                );
            }
        },
        AgentEventView::PostToolFired(actions) => {
            let output = effective_output(s, actions);
            let executed = Some(s.call.executed);
            let rest = recorded_agent(s, s.call.id, output);
            lemma_calls_are_quiet(rest);
            lemma_record_is_quiet(s.config, s.call.id, s.call.raw, executed, output, output);
            lemma_fires_either(
                record_effects(s.config, s.call.id, s.call.raw, executed, output),
                next_call_step(rest).effects,
            );
        },
        _ => {},
    }
}

// ---------------------------------------------------------------------------
// Building events
// ---------------------------------------------------------------------------

fn push_effect(out: &mut Vec<AgentEffect>, e: AgentEffect)
    ensures
        effect_views(final(out)@) == effect_views(old(out)@).push(e@),
{
    out.push(e);
    assert(effect_views(out@) =~= effect_views(old(out)@).push(e@));
}

fn emit(config: &AgentConfig, e: Json, out: &mut Vec<AgentEffect>)
    ensures
        effect_views(final(out)@) == effect_views(old(out)@) + emitted(config@, e@),
{
    if config.format == OutputFormat::StreamJson {
        push_effect(out, AgentEffect::Emit(e));
    }
    assert(effect_views(out@) =~= effect_views(old(out)@) + emitted(config@, e@));
}

fn tell(config: &AgentConfig, s: String, out: &mut Vec<AgentEffect>)
    ensures
        effect_views(final(out)@) == effect_views(old(out)@) + told(config@, s@),
{
    if config.verbose {
        push_effect(out, AgentEffect::Note(s));
    }
    assert(effect_views(out@) =~= effect_views(old(out)@) + told(config@, s@));
}

/// The log event at the end of an invocation.
pub fn invoke_end_log(reason: &str, note: Option<&str>) -> (r: Json)
    ensures
        r@ == end_log(reason@, tools::var_text(note)),
{
    let base = ObjectBuilder::new().put_str("kind", "invoke_end").put_str("stop_reason", reason);
    let ghost head = seq![
        ("kind"@, json::JsonView::Str("invoke_end"@)),
        ("stop_reason"@, json::JsonView::Str(reason@)),
    ];
    assert(base.entries() =~= head);
    match note {
        Some(n) => {
            let built = base.put_str("note", n);
            assert(built.entries() =~= head + seq![("note"@, json::JsonView::Str(n@))]);
            built.done()
        },
        None => {
            assert(head =~= head + Seq::<(Seq<char>, json::JsonView)>::empty());
            base.done()
        },
    }
}

fn make_assistant_log(content: &Json) -> (r: Json)
    ensures
        r@ == assistant_log(content@),
{
    let built = ObjectBuilder::new().put_str("kind", "assistant").put("content", content.dup());
    assert(built.entries() =~= seq![
        ("kind"@, json::JsonView::Str("assistant"@)),
        ("content"@, content@),
    ]);
    built.done()
}

fn make_stop_payload(depth: u32, reason: &str, duration_ms: u64) -> (r: Json)
    ensures
        r@ == stop_payload(depth, reason@, duration_ms),
{
    let built = ObjectBuilder::new().put("depth", Json::Unsigned(depth as u64)).put_str(
        "stop_reason",
        reason,
    ).put("duration_ms", Json::Unsigned(duration_ms));
    assert(built.entries() =~= seq![
        ("depth"@, json::JsonView::Unsigned(depth as u64)),
        ("stop_reason"@, json::JsonView::Str(reason@)),
        ("duration_ms"@, json::JsonView::Unsigned(duration_ms)),
    ]);
    built.done()
}

fn make_end_event(reason: &str, duration_ms: u64, note: Option<&str>) -> (r: Json)
    ensures
        r@ == end_event(reason@, duration_ms, tools::var_text(note)),
{
    let base = ObjectBuilder::new().put_str("type", "invoke_end").put_str(
        "stop_reason",
        reason,
    ).put("duration_ms", Json::Unsigned(duration_ms));
    let ghost head = seq![
        ("type"@, json::JsonView::Str("invoke_end"@)),
        ("stop_reason"@, json::JsonView::Str(reason@)),
        ("duration_ms"@, json::JsonView::Unsigned(duration_ms)),
    ];
    assert(base.entries() =~= head);
    match note {
        Some(n) => {
            let built = base.put_str("note", n);
            assert(built.entries() =~= head + seq![("note"@, json::JsonView::Str(n@))]);
            built.done()
        },
        None => {
            assert(head =~= head + Seq::<(Seq<char>, json::JsonView)>::empty());
            base.done()
        },
    }
}

fn make_result_event(
    reason: &str,
    model: &str,
    result: &str,
    content: &Json,
    key: &str,
    last: &Json,
) -> (r: Json)
    ensures
        r@ == result_event(reason@, model@, result@, content@, (key@, last@)),
{
    let built = ObjectBuilder::new().put_str("type", "result").put_str(
        "stop_reason",
        reason,
    ).put_str("model", model).put_str("result", result).put("content", content.dup()).put(
        key,
        last.dup(),
    );
    assert(built.entries() =~= seq![
        ("type"@, json::JsonView::Str("result"@)),
        ("stop_reason"@, json::JsonView::Str(reason@)),
        ("model"@, json::JsonView::Str(model@)),
        ("result"@, json::JsonView::Str(result@)),
        ("content"@, content@),
        (key@, last@),
    ]);
    built.done()
}

fn make_pre_payload(depth: u32, id: &Json, raw: &str) -> (r: Json)
    ensures
        r@ == pre_payload(depth, id@, raw@),
{
    let built = ObjectBuilder::new().put("depth", Json::Unsigned(depth as u64)).put(
        "tool_use_id",
        id.dup(),
    ).put_str("command", raw);
    assert(built.entries() =~= seq![
        ("depth"@, json::JsonView::Unsigned(depth as u64)),
        ("tool_use_id"@, id@),
        ("command"@, json::JsonView::Str(raw@)),
    ]);
    built.done()
}

fn make_post_payload(depth: u32, id: &Json, command: &str, output: &str) -> (r: Json)
    ensures
        r@ == post_payload(depth, id@, command@, output@),
{
    let built = ObjectBuilder::new().put("depth", Json::Unsigned(depth as u64)).put(
        "tool_use_id",
        id.dup(),
    ).put_str("command", command).put_str("output", output);
    assert(built.entries() =~= seq![
        ("depth"@, json::JsonView::Unsigned(depth as u64)),
        ("tool_use_id"@, id@),
        ("command"@, json::JsonView::Str(command@)),
        ("output"@, json::JsonView::Str(output@)),
    ]);
    built.done()
}

fn make_result_entry(
    key: &str,
    id: &Json,
    raw: &str,
    executed: Option<&str>,
    output: &str,
) -> (r: Json)
    ensures
        r@ == result_entry(
            (key@, json::JsonView::Str("tool_result"@)),
            id@,
            raw@,
            tools::var_text(executed),
            output@,
        ),
{
    let (command, ran): (&str, Json) = match executed {
        Some(e) => (e, json_str(e)),
        None => (raw, Json::Null),
    };
    let built = ObjectBuilder::new().put_str(key, "tool_result").put(
        "tool_use_id",
        id.dup(),
    ).put_str("command", command).put_str("requested_command", raw).put(
        "executed_command",
        ran,
    ).put_str("content", output);
    let ghost done = tools::var_text(executed);
    assert(built.entries() =~= seq![
        (key@, json::JsonView::Str("tool_result"@)),
        ("tool_use_id"@, id@),
        (
            "command"@,
            json::JsonView::Str(
                match done {
                    Some(e) => e,
                    None => raw@,
                },
            ),
        ),
        ("requested_command"@, json::JsonView::Str(raw@)),
        (
            "executed_command"@,
            match done {
                Some(e) => json::JsonView::Str(e),
                None => json::JsonView::Null,
            },
        ),
        ("content"@, json::JsonView::Str(output@)),
    ]);
    built.done()
}

/// The text of an answer.
pub fn final_text(content: &Json) -> (r: String)
    ensures
        r@ == answer_text(content@),
{
    let mut out = String::new();
    match content.as_items() {
        Some(blocks) => {
            let ghost all = json::views(blocks@);
            let ghost mut sofar: Seq<Seq<char>> = Seq::empty();
            let mut any = false;
            let mut i: usize = 0;
            assert(all.take(0) =~= Seq::<json::JsonView>::empty());
            while i < blocks.len()
                invariant
                    i <= blocks@.len(),
                    all == json::views(blocks@),
                    sofar == answer_texts(all.take(i as int)),
                    any == (sofar.len() > 0),
                    out@ == on_lines(sofar),
                decreases blocks@.len() - i,
            {
                proof {
                    assert(all.take(i + 1).drop_last() =~= all.take(i as int));
                    assert(all.take(i + 1).last() == blocks@[i as int]@);
                }
                if blocks[i].has("type", "text") {
                    match blocks[i].get_text("text") {
                        Some(t) => {
                            let ghost before = sofar;
                            proof {
                                sofar = sofar.push(t@);
                                assert(sofar.drop_last() =~= before);
                                assert(Seq::<char>::empty() + t@ =~= t@);
                            }
                            if any {
                                out.append("\n");
                            }
                            out.append(t);
                            any = true;
                        },
                        None => {},
                    }
                }
                i += 1;
            }
            assert(all.take(all.len() as int) =~= all);
        },
        None => {},
    }
    out
}

// ---------------------------------------------------------------------------
// The machine
// ---------------------------------------------------------------------------

struct Call {
    id: Json,
    raw: String,
    command: String,
    executed: String,
    output: String,
}

impl View for Call {
    type V = CallView;

    closed spec fn view(&self) -> CallView {
        CallView {
            id: self.id@,
            raw: self.raw@,
            command: self.command@,
            executed: self.executed@,
            output: self.output@,
        }
    }
}

/// An invocation under way.
pub struct Agent {
    config: AgentConfig,
    messages: Vec<Json>,
    turns: u32,
    tool_calls: u32,
    empty_turns: u32,
    phase: Phase,
    content: Json,
    stop_reason: String,
    duration_ms: u64,
    cursor: usize,
    results: Vec<Json>,
    had_valid: bool,
    call: Call,
}

impl View for Agent {
    type V = AgentView;

    closed spec fn view(&self) -> AgentView {
        AgentView {
            config: self.config@,
            messages: json::views(self.messages@),
            turns: self.turns,
            tool_calls: self.tool_calls,
            empty_turns: self.empty_turns,
            phase: self.phase,
            content: self.content@,
            stop_reason: self.stop_reason@,
            duration_ms: self.duration_ms,
            cursor: self.cursor as int,
            results: json::views(self.results@),
            had_valid: self.had_valid,
            call: self.call@,
        }
    }
}

/// The step was taken.
spec fn took(
    now: AgentView,
    effects_before: Seq<AgentEffectView>,
    effects_now: Seq<AgentEffectView>,
    action: AgentActionView,
    step: AgentStep,
) -> bool {
    &&& now == step.agent
    &&& effects_now == effects_before + step.effects
    &&& action == step.action
}

/// The next block is passed: it is no call, or one without a command.
spec fn passes(s: AgentView) -> bool {
    let blocks = s.content.items();
    &&& 0 <= s.cursor < blocks.len()
    &&& is_call(blocks[s.cursor]) ==> counted(s.tool_calls) <= s.config.max_tool_calls
        && text::trim(raw_command(blocks[s.cursor])).len() == 0
}

/// The state after a block was passed.
spec fn passed(s: AgentView) -> AgentView {
    let b = s.content.items()[s.cursor];
    let s1 = AgentView { cursor: s.cursor + 1, ..s };
    if is_call(b) {
        recorded_agent(
            AgentView { tool_calls: counted(s.tool_calls), ..s1 },
            b.at("id"@),
            EMPTY_COMMAND_OUTPUT@,
        )
    } else {
        s1
    }
}

/// What is to be logged and shown when a block is passed.
spec fn passing(s: AgentView) -> Seq<AgentEffectView> {
    let b = s.content.items()[s.cursor];
    if is_call(b) {
        told(s.config, "[lazar] tool_use: <EMPTY COMMAND — refused>"@) + record_effects(
            s.config,
            b.at("id"@),
            raw_command(b),
            None,
            EMPTY_COMMAND_OUTPUT@,
        )
    } else {
        Seq::empty()
    }
}

proof fn lemma_passes(s: AgentView)
    requires
        passes(s),
    ensures
        next_call_step(s) == after(passing(s), next_call_step(passed(s))),
{
    let b = s.content.items()[s.cursor];
    if !is_call(b) {
        assert(after(passing(s), next_call_step(passed(s))) =~= next_call_step(passed(s)));
    }
}

proof fn lemma_after(a: Seq<AgentEffectView>, b: Seq<AgentEffectView>, step: AgentStep)
    ensures
        after(a, after(b, step)) == after(a + b, step),
{
    assert(after(a, after(b, step)) =~= after(a + b, step));
}

fn counted_up(n: u32) -> (r: u32)
    ensures
        r == counted(n),
{
    if n < u32::MAX {
        n + 1
    } else {
        n
    }
}

fn push_json(out: &mut Vec<Json>, v: Json)
    ensures
        json::views(final(out)@) == json::views(old(out)@).push(v@),
{
    out.push(v);
    assert(json::views(out@) =~= json::views(old(out)@).push(v@));
}

/// A text with a number behind it.
fn numbered(s: &str, n: u32) -> (r: String)
    ensures
        r@ == s@ + numbers::decimal(n as nat),
{
    let mut out = owned(s);
    out.append(decimal_text(n as u128).as_str());
    out
}

/// Two texts in one.
fn joined2(a: &str, b: &str) -> (r: String)
    ensures
        r@ == a@ + b@,
{
    let mut out = owned(a);
    out.append(b);
    out
}

impl Agent {
    /// An invocation with the given conversation.
    pub fn new(config: AgentConfig, messages: Vec<Json>) -> (r: Agent)
        ensures
            r@.config == config@,
            r@.messages == json::views(messages@),
            r@.turns == 0,
            r@.tool_calls == 0,
            r@.empty_turns == 0,
            r@.phase == Phase::Idle,
            sound(r@),
    {
        Agent {
            config,
            messages,
            turns: 0,
            tool_calls: 0,
            empty_turns: 0,
            phase: Phase::Idle,
            content: Json::Null,
            stop_reason: String::new(),
            duration_ms: 0,
            cursor: 0,
            results: Vec::new(),
            had_valid: false,
            call: Call {
                id: Json::Null,
                raw: String::new(),
                command: String::new(),
                executed: String::new(),
                output: String::new(),
            },
        }
    }

    /// What the agent waits for.
    pub fn phase(&self) -> (r: Phase)
        ensures
            r == self@.phase,
    {
        self.phase
    }

    fn fail(&mut self, msg: String, reason: &str, mid: Option<String>, out: &mut Vec<AgentEffect>) -> (r:
        AgentAction)
        ensures
            took(
                final(self)@,
                effect_views(old(out)@),
                effect_views(final(out)@),
                r@,
                failed_step(
                    old(self)@,
                    msg@,
                    reason@,
                    match mid {
                        Some(m) => told(old(self)@.config, m@),
                        None => Seq::empty(),
                    },
                ),
            ),
    {
        emit(&self.config, make_error_event(msg.as_str()), out);
        let ghost mut middle: Seq<AgentEffectView> = Seq::empty();
        match mid {
            Some(m) => {
                proof {
                    middle = told(self.config@, m@);
                }
                tell(&self.config, m, out);
            },
            None => {},
        }
        push_effect(out, AgentEffect::Log(invoke_end_log(reason, Some(msg.as_str()))));
        self.phase = Phase::Over;
        proof {
            let step = failed_step(old(self)@, msg@, reason@, middle);
            assert(self@ =~= step.agent);
            assert(effect_views(out@) =~= effect_views(old(out)@) + step.effects);
        }
        AgentAction::Fail(msg)
    }

    fn start_turn(&mut self, out: &mut Vec<AgentEffect>) -> (r: AgentAction)
        ensures
            took(
                final(self)@,
                effect_views(old(out)@),
                effect_views(final(out)@),
                r@,
                turn_step(old(self)@),
            ),
    {
        self.turns = counted_up(self.turns);
        let ghost s1 = AgentView { turns: counted(old(self)@.turns), ..old(self)@ };
        assert(self@ =~= s1);
        if self.turns > self.config.max_turns {
            let msg = numbered("aborted after reaching LAZAR_MAX_TURNS=", self.config.max_turns);
            return self.fail(msg, "aborted", None, out);
        }
        self.phase = Phase::Answer;
        assert(self@ =~= turn_step(old(self)@).agent);
        assert(effect_views(out@) =~= effect_views(old(out)@) + Seq::<AgentEffectView>::empty());
        AgentAction::Request(
            request_body(self.config.model.as_str(), self.config.system.as_str(), &self.messages),
        )
    }

    fn fire_stop(&self, out: &mut Vec<AgentEffect>)
        ensures
            effect_views(final(out)@) == effect_views(old(out)@) + stop_hooks(self@),
    {
        if self.config.depth == 0 {
            push_effect(
                out,
                AgentEffect::FireStop(
                    make_stop_payload(
                        self.config.depth,
                        self.stop_reason.as_str(),
                        self.duration_ms,
                    ),
                ),
            );
        }
        assert(effect_views(out@) =~= effect_views(old(out)@) + stop_hooks(self@));
    }

    fn close(
        &self,
        result: &str,
        note: Option<&str>,
        key: &str,
        last: &Json,
        out: &mut Vec<AgentEffect>,
    )
        ensures
            effect_views(final(out)@) == effect_views(old(out)@) + closing(
                self@,
                result@,
                tools::var_text(note),
                (key@, last@),
            ),
    {
        match self.config.format {
            OutputFormat::StreamJson => {
                push_effect(
                    out,
                    AgentEffect::Emit(
                        make_end_event(self.stop_reason.as_str(), self.duration_ms, note),
                    ),
                );
            },
            OutputFormat::Json => {
                push_effect(
                    out,
                    AgentEffect::PrintResult(
                        make_result_event(
                            self.stop_reason.as_str(),
                            self.config.model.as_str(),
                            result,
                            &self.content,
                            key,
                            last,
                        ),
                    ),
                );
            },
            OutputFormat::Text => {},
        }
        assert(effect_views(out@) =~= effect_views(old(out)@) + closing(
            self@,
            result@,
            tools::var_text(note),
            (key@, last@),
        ));
    }

    fn end_turn(&mut self, out: &mut Vec<AgentEffect>) -> (r: AgentAction)
        ensures
            took(
                final(self)@,
                effect_views(old(out)@),
                effect_views(final(out)@),
                r@,
                end_turn_step(old(self)@),
            ),
    {
        let last = Json::Unsigned(self.duration_ms);
        push_effect(out, AgentEffect::Log(invoke_end_log(self.stop_reason.as_str(), None)));
        self.fire_stop(out);
        self.close(final_text(&self.content).as_str(), None, "duration_ms", &last, out);
        let mut line = owned("[lazar] invoke_end stop_reason=");
        line.append(self.stop_reason.as_str());
        line.append(" duration=");
        line.append(decimal_text(self.duration_ms as u128).as_str());
        line.append("ms");
        tell(&self.config, line, out);
        self.phase = Phase::Over;
        proof {
            let step = end_turn_step(old(self)@);
            assert(self@ =~= step.agent);
            assert(effect_views(out@) =~= effect_views(old(out)@) + step.effects);
        }
        AgentAction::Succeed
    }

    fn no_calls(&mut self, out: &mut Vec<AgentEffect>) -> (r: AgentAction)
        ensures
            took(
                final(self)@,
                effect_views(old(out)@),
                effect_views(final(out)@),
                r@,
                no_calls_step(old(self)@),
            ),
    {
        let last = json_str("no tool calls");
        let mut line = owned("[lazar] stop_reason=");
        line.append(self.stop_reason.as_str());
        line.append(", no tool calls; exiting");
        push_effect(out, AgentEffect::Note(line));
        push_effect(
            out,
            AgentEffect::Log(invoke_end_log(self.stop_reason.as_str(), Some("no tool calls"))),
        );
        let nothing = String::new();
        self.close(nothing.as_str(), Some("no tool calls"), "note", &last, out);
        self.phase = Phase::Over;
        proof {
            let step = no_calls_step(old(self)@);
            assert(self@ =~= step.agent);
            assert(effect_views(out@) =~= effect_views(old(out)@) + step.effects);
        }
        AgentAction::Succeed
    }

    fn calls_done(&mut self, out: &mut Vec<AgentEffect>) -> (r: AgentAction)
        ensures
            took(
                final(self)@,
                effect_views(old(out)@),
                effect_views(final(out)@),
                r@,
                calls_done_step(old(self)@),
            ),
    {
        let stuck = self.results.len() > 0 && !self.had_valid;
        if stuck {
            self.empty_turns = counted_up(self.empty_turns);
        } else if self.had_valid {
            self.empty_turns = 0;
        }
        let ghost s1 = AgentView { empty_turns: empty_turns_after(old(self)@), ..old(self)@ };
        assert(self@ =~= s1);
        if stuck && self.empty_turns >= MAX_CONSECUTIVE_EMPTY_TURNS {
            let mut msg = numbered("aborted after ", self.empty_turns);
            msg.append(" consecutive turns with only empty tool calls");
            push_effect(out, AgentEffect::Note(joined2("[lazar] ", msg.as_str())));
            push_effect(out, AgentEffect::Log(invoke_end_log("aborted", Some(msg.as_str()))));
            emit(&self.config, make_error_event(msg.as_str()), out);
            self.phase = Phase::Over;
            proof {
                let step = calls_done_step(old(self)@);
                assert(self@ =~= step.agent);
                assert(effect_views(out@) =~= effect_views(old(out)@) + step.effects);
            }
            return AgentAction::Fail(msg);
        }
        if self.results.len() == 0 {
            return self.no_calls(out);
        }
        let answer = json::json_array(json::dup_all(&self.results));
        push_json(&mut self.messages, make_message("user", &answer));
        assert(self@ =~= AgentView {
            messages: old(self)@.messages.push(
                session::message("user"@, json::JsonView::Array(old(self)@.results)),
            ),
            ..s1
        });
        self.start_turn(out)
    }

    fn block_count(&self) -> (r: usize)
        ensures
            r == self@.content.items().len(),
    {
        match self.content.as_items() {
            Some(v) => v.len(),
            None => 0,
        }
    }

    fn block(&self, i: usize) -> (r: Json)
        requires
            i < self@.content.items().len(),
        ensures
            r@ == self@.content.items()[i as int],
    {
        match self.content.as_items() {
            Some(v) => v[i].dup(),
            None => Json::Null,
        }
    }

    fn record(
        &mut self,
        id: &Json,
        raw: &str,
        executed: Option<&str>,
        output: &str,
        out: &mut Vec<AgentEffect>,
    )
        ensures
            final(self)@ == recorded_agent(old(self)@, id@, output@),
            effect_views(final(out)@) == effect_views(old(out)@) + record_effects(
                old(self)@.config,
                id@,
                raw@,
                tools::var_text(executed),
                output@,
            ),
    {
        push_effect(
            out,
            AgentEffect::Log(make_result_entry("kind", id, raw, executed, output)),
        );
        emit(&self.config, make_result_entry("type", id, raw, executed, output), out);
        let mut line = owned("[lazar] tool_result: ");
        line.append(size_text(byte_len(output)).as_str());
        line.append(" bytes");
        tell(&self.config, line, out);
        push_json(&mut self.results, make_tool_result(id, &json_str(output)));
        assert(self@ =~= recorded_agent(old(self)@, id@, output@));
        assert(effect_views(out@) =~= effect_views(old(out)@) + record_effects(
            old(self)@.config,
            id@,
            raw@,
            tools::var_text(executed),
            output@,
        ));
    }

    fn begin_call(&mut self, b: &Json, raw: String, cmd: String, out: &mut Vec<AgentEffect>) -> (r:
        AgentAction)
        requires
            raw@ == raw_command(b@),
            cmd@ == text::trim(raw@),
        ensures
            took(
                final(self)@,
                effect_views(old(out)@),
                effect_views(final(out)@),
                r@,
                call_step(old(self)@, b@),
            ),
    {
        let chars = chars_of(cmd.as_str());
        let n: usize = if chars.len() <= 120 {
            chars.len()
        } else {
            120
        };
        let shown = slice_subrange(chars.as_slice(), 0, n);
        assert(shown@ =~= command_preview(cmd@));
        tell(
            &self.config,
            joined2("[lazar] tool_use: ", string_of(shown).as_str()),
            out,
        );
        let id = b.dup_at("id");
        let payload = make_pre_payload(self.config.depth, &id, raw.as_str());
        self.phase = Phase::PreTool;
        self.had_valid = true;
        self.call = Call {
            id,
            raw,
            command: cmd,
            executed: String::new(),
            output: String::new(),
        };
        assert(self@ =~= call_step(old(self)@, b@).agent);
        AgentAction::FirePreTool(payload)
    }

    /// Looks at the next block. Returns what to do, or `None` where the block was passed.
    fn look_at_block(&mut self, out: &mut Vec<AgentEffect>) -> (r: Option<AgentAction>)
        requires
            old(self)@.cursor < old(self)@.content.items().len(),
        ensures
            match r {
                Some(a) => took(
                    final(self)@,
                    effect_views(old(out)@),
                    effect_views(final(out)@),
                    a@,
                    next_call_step(old(self)@),
                ),
                None => {
                    &&& passes(old(self)@)
                    &&& final(self)@ == passed(old(self)@)
                    &&& effect_views(final(out)@) == effect_views(old(out)@) + passing(old(self)@)
                },
            },
    {
        let ghost s = self@;
        let b = self.block(self.cursor);
        let count: usize = self.block_count();
        assert(self.cursor < count);
        self.cursor += 1;
        let ghost s1 = AgentView { cursor: s.cursor + 1, ..s };
        assert(self@ =~= s1);
        if !(b.has("type", "tool_use") && b.has("name", "execute")) {
            assert(effect_views(out@) =~= effect_views(old(out)@) + passing(s));
            return None;
        }
        self.tool_calls = counted_up(self.tool_calls);
        let ghost s2 = AgentView { tool_calls: counted(s.tool_calls), ..s1 };
        assert(self@ =~= s2);
        if self.tool_calls > self.config.max_tool_calls {
            let msg = numbered(
                "aborted after reaching LAZAR_MAX_TOOL_CALLS=",
                self.config.max_tool_calls,
            );
            return Some(self.fail(msg, "aborted", None, out));
        }
        let input = b.dup_at("input");
        let raw = match input.get_text("command") {
            Some(c) => owned(c),
            None => String::new(),
        };
        let cmd = trimmed(raw.as_str());
        if !cmd.as_str().is_empty() {
            return Some(self.begin_call(&b, raw, cmd, out));
        }
        let id = b.dup_at("id");
        tell(&self.config, owned("[lazar] tool_use: <EMPTY COMMAND — refused>"), out);
        self.record(&id, raw.as_str(), None, EMPTY_COMMAND_OUTPUT, out);
        assert(effect_views(out@) =~= effect_views(old(out)@) + passing(s));
        None
    }

    fn next_call(&mut self, out: &mut Vec<AgentEffect>) -> (r: AgentAction)
        ensures
            took(
                final(self)@,
                effect_views(old(out)@),
                effect_views(final(out)@),
                r@,
                next_call_step(old(self)@),
            ),
    {
        let n: usize = self.block_count();
        let ghost start = self@;
        let ghost base = effect_views(out@);
        let ghost mut sofar: Seq<AgentEffectView> = Seq::empty();
        proof {
            assert(after(sofar, next_call_step(start)) =~= next_call_step(start));
            assert(base + sofar =~= base);
        }
        while self.cursor < n
            invariant
                n == self@.content.items().len(),
                start == old(self)@,
                base == effect_views(old(out)@),
                effect_views(out@) == base + sofar,
                next_call_step(start) == after(sofar, next_call_step(self@)),
            decreases n - self.cursor,
        {
            let ghost s = self@;
            match self.look_at_block(out) {
                Some(r) => {
                    assert(effect_views(out@) =~= base + next_call_step(start).effects);
                    return r;
                },
                None => {
                    proof {
                        lemma_passes(s);
                        lemma_after(sofar, passing(s), next_call_step(self@));
                        assert(effect_views(out@) =~= base + (sofar + passing(s)));
                        sofar = sofar + passing(s);
                    }
                },
            }
        }
        let r = self.calls_done(out);
        assert(effect_views(out@) =~= base + next_call_step(start).effects);
        r
    }

    fn after_pre_tool(&mut self, results: &Vec<HookResult>, out: &mut Vec<AgentEffect>) -> (r:
        AgentAction)
        ensures
            took(
                final(self)@,
                effect_views(old(out)@),
                effect_views(final(out)@),
                r@,
                pre_tool_step(old(self)@, hooks::asked_actions(results@)),
            ),
    {
        let ghost actions = hooks::asked_actions(results@);
        let ghost base = effect_views(out@);
        match first_veto(results.as_slice()) {
            Some(reason) => {
                let mut output = joined2("[vetoed by hook: ", reason);
                output.append(VETO_NOTE);
                tell(&self.config, joined2("[lazar] pre-tool veto: ", reason), out);
                let id = self.call.id.dup();
                let raw = self.call.raw.clone();
                self.record(&id, raw.as_str(), None, output.as_str(), out);
                let r = self.next_call(out);
                assert(effect_views(out@) =~= base + pre_tool_step(old(self)@, actions).effects);
                r
            },
            None => {
                let cmd = match last_transform_command(results.as_slice()) {
                    Some(c) => owned(c),
                    None => self.call.command.clone(),
                };
                if !same_text(cmd.as_str(), self.call.command.as_str()) {
                    tell(&self.config, owned("[lazar] pre-tool rewrote command"), out);
                }
                self.phase = Phase::Output;
                self.call.executed = cmd.clone();
                proof {
                    let step = pre_tool_step(old(self)@, actions);
                    assert(self@ =~= step.agent);
                    assert(effect_views(out@) =~= base + step.effects);
                }
                AgentAction::Run(cmd)
            },
        }
    }

    fn after_run(&mut self, output: String, out: &mut Vec<AgentEffect>) -> (r: AgentAction)
        ensures
            took(
                final(self)@,
                effect_views(old(out)@),
                effect_views(final(out)@),
                r@,
                ran_step(old(self)@, output@),
            ),
    {
        let payload = make_post_payload(
            self.config.depth,
            &self.call.id,
            self.call.executed.as_str(),
            output.as_str(),
        );
        self.phase = Phase::PostTool;
        self.call.output = output;
        assert(self@ =~= ran_step(old(self)@, output@).agent);
        assert(effect_views(out@) =~= effect_views(old(out)@) + Seq::<AgentEffectView>::empty());
        AgentAction::FirePostTool(payload)
    }

    fn after_post_tool(&mut self, results: &Vec<HookResult>, out: &mut Vec<AgentEffect>) -> (r:
        AgentAction)
        ensures
            took(
                final(self)@,
                effect_views(old(out)@),
                effect_views(final(out)@),
                r@,
                post_tool_step(old(self)@, hooks::asked_actions(results@)),
            ),
    {
        let ghost actions = hooks::asked_actions(results@);
        let ghost base = effect_views(out@);
        let output = match last_transform_output(results.as_slice()) {
            Some(o) => owned(o),
            None => self.call.output.clone(),
        };
        let id = self.call.id.dup();
        let raw = self.call.raw.clone();
        let executed = self.call.executed.clone();
        self.record(&id, raw.as_str(), Some(executed.as_str()), output.as_str(), out);
        let r = self.next_call(out);
        assert(effect_views(out@) =~= base + post_tool_step(old(self)@, actions).effects);
        r
    }

    fn take_answer(
        &mut self,
        content: Json,
        stop_reason: String,
        duration_ms: u64,
        out: &mut Vec<AgentEffect>,
    ) -> (r: AgentAction)
        ensures
            took(
                final(self)@,
                effect_views(old(out)@),
                effect_views(final(out)@),
                r@,
                answered_step(old(self)@, content@, stop_reason@, duration_ms),
            ),
    {
        let ghost base = effect_views(out@);
        push_json(&mut self.messages, make_message("assistant", &content));
        push_effect(out, AgentEffect::Log(make_assistant_log(&content)));
        let ended = same_text(stop_reason.as_str(), "end_turn");
        self.content = content;
        self.stop_reason = stop_reason;
        self.duration_ms = duration_ms;
        self.cursor = 0;
        self.results = Vec::new();
        self.had_valid = false;
        proof {
            assert(json::views(self.results@) =~= Seq::<json::JsonView>::empty());
            assert(self@ =~= answered_agent(old(self)@, content@, stop_reason@, duration_ms));
        }
        let r = if ended {
            self.end_turn(out)
        } else {
            self.next_call(out)
        };
        assert(effect_views(out@) =~= base + answered_step(
            old(self)@,
            content@,
            stop_reason@,
            duration_ms,
        ).effects);
        r
    }

    /// The event is one that the agent waits for.
    pub fn is_expected(&self, event: &AgentEvent) -> (r: bool)
        ensures
            r == expects(self@, event@),
    {
        match event {
            AgentEvent::Start => self.phase == Phase::Idle,
            AgentEvent::RequestFailed(_) => self.phase == Phase::Answer,
            AgentEvent::RequestRejected(_) => self.phase == Phase::Answer,
            AgentEvent::Answered { .. } => self.phase == Phase::Answer,
            AgentEvent::PreToolFired(_) => self.phase == Phase::PreTool,
            AgentEvent::CommandRan(_) => self.phase == Phase::Output,
            AgentEvent::PostToolFired(_) => self.phase == Phase::PostTool,
        }
    }

    /// Takes in what happened and says what to do next. What is to be logged and shown before
    /// that is added to `out`.
    pub fn advance(&mut self, event: AgentEvent, out: &mut Vec<AgentEffect>) -> (r: AgentAction)
        requires
            expects(old(self)@, event@),
        ensures
            final(self)@ == advanced(old(self)@, event@).agent,
            effect_views(final(out)@) == effect_views(old(out)@) + advanced(
                old(self)@,
                event@,
            ).effects,
            r@ == advanced(old(self)@, event@).action,
    {
        match event {
            AgentEvent::Start => self.start_turn(out),
            AgentEvent::RequestFailed(msg) => self.fail(msg, "error", None, out),
            AgentEvent::RequestRejected(msg) => {
                let line = joined2("[lazar] ", msg.as_str());
                self.fail(msg, "error", Some(line), out)
            },
            AgentEvent::Answered { content, stop_reason, duration_ms } => self.take_answer(
                content,
                stop_reason,
                duration_ms,
                out,
            ),
            AgentEvent::PreToolFired(results) => self.after_pre_tool(&results, out),
            AgentEvent::CommandRan(output) => self.after_run(output, out),
            AgentEvent::PostToolFired(results) => self.after_post_tool(&results, out),
        }
    }
}

} // verus!
