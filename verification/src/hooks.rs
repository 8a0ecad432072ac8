//! Lifecycle hooks: scripts under `hooks/<event>.d/` that fire at set moments, read a JSON
//! payload and may answer with a JSON action.
//!
//! A hook that fails in any way counts as one that asked for nothing.

use vstd::prelude::*;
use vstd::utf8::*;

use crate::json;
use crate::json::{json_int, json_str, parse_json, Json, ObjectBuilder};
use crate::numbers;
use crate::numbers::signed_text;
use crate::offsets;
use crate::paths;
use crate::paths::join_path;
use crate::text;
use crate::text::{
    chars_of, owned, same_text, string_of, strip_end_chars, text_begins_with, text_ends_with,
    trimmed, CharClass,
};
use crate::tools;
use crate::tools::{lossy, setting_of};

verus! {

// ---------------------------------------------------------------------------
// Events and actions
// ---------------------------------------------------------------------------

/// Lifecycle events. [`HookEvent::as_str`] is the directory name under `hooks/` (suffixed `.d`).
#[derive(Clone, Copy, Debug, PartialEq, Eq, Hash, Structural)]
pub enum HookEvent {
    /// Top of an invocation, before the first model call.
    SessionStart,
    /// A top-level prompt was received.
    UserPrompt,
    /// Before a command runs.
    PreTool,
    /// After a command ran.
    PostTool,
    /// A top-level invocation ends.
    SessionEnd,
    /// The log was rotated.
    LogRotation,
    /// The model ended its turn.
    AgentStop,
    /// The heartbeat.
    Tick,
}

impl HookEvent {
    /// The name of the event.
    pub open spec fn name(self) -> Seq<char> {
        match self {
            HookEvent::SessionStart => "session-start"@,
            HookEvent::UserPrompt => "user-prompt"@,
            HookEvent::PreTool => "pre-tool"@,
            HookEvent::PostTool => "post-tool"@,
            HookEvent::SessionEnd => "session-end"@,
            HookEvent::LogRotation => "log-rotation"@,
            HookEvent::AgentStop => "agent-stop"@,
            HookEvent::Tick => "tick"@,
        }
    }

    /// The name of the event.
    pub fn as_str(self) -> (r: &'static str)
        ensures
            r@ == self.name(),
    {
        match self {
            HookEvent::SessionStart => "session-start",
            HookEvent::UserPrompt => "user-prompt",
            HookEvent::PreTool => "pre-tool",
            HookEvent::PostTool => "post-tool",
            HookEvent::SessionEnd => "session-end",
            HookEvent::LogRotation => "log-rotation",
            HookEvent::AgentStop => "agent-stop",
            HookEvent::Tick => "tick",
        }
    }
}

/// What a hook is asking the kernel to do.
#[derive(Clone, Debug)]
pub enum HookAction {
    /// Default. Hook ran, no behavior change requested.
    Continue,
    /// Pre-tool only: block this tool call. Reason is surfaced as the tool result so the model
    /// can recover.
    Veto {
        /// Why.
        reason: String,
    },
    /// Pre-tool only: rewrite the bash command before exec.
    TransformCommand(String),
    /// Post-tool only: rewrite the captured tool output before it gets posted back to the model.
    TransformOutput(String),
    /// Session-start / user-prompt: append context to the model's system prompt.
    InjectContext(String),
}

/// What an action says.
#[verifier::ext_equal]
pub enum ActionView {
    /// Nothing is asked for.
    Continue,
    /// Block the call, for this reason.
    Veto(Seq<char>),
    /// Run this command instead.
    TransformCommand(Seq<char>),
    /// Hand on this output instead.
    TransformOutput(Seq<char>),
    /// Add this to the system prompt.
    InjectContext(Seq<char>),
}

impl View for HookAction {
    type V = ActionView;

    open spec fn view(&self) -> ActionView {
        match self {
            HookAction::Continue => ActionView::Continue,
            HookAction::Veto { reason } => ActionView::Veto(reason@),
            HookAction::TransformCommand(c) => ActionView::TransformCommand(c@),
            HookAction::TransformOutput(o) => ActionView::TransformOutput(o@),
            HookAction::InjectContext(c) => ActionView::InjectContext(c@),
        }
    }
}

/// How one script went.
#[derive(Clone, Debug)]
pub struct HookResult {
    /// The path of the script.
    pub script: String,
    /// What it asks for.
    pub action: HookAction,
    /// Its exit code, or -1 where it has none.
    pub exit_code: i32,
    /// How long it ran.
    pub duration_ms: u128,
    /// It was killed because it ran too long.
    pub timed_out: bool,
}

/// What the results ask for, in their order.
pub open spec fn asked_actions(v: Seq<HookResult>) -> Seq<ActionView> {
    v.map_values(|r: HookResult| r.action@)
}

/// The text of an optional slice.
pub open spec fn opt_str(s: Option<&str>) -> Option<Seq<char>> {
    match s {
        Some(t) => Some(t@),
        None => None,
    }
}

impl ActionView {
    /// The reason of a veto.
    pub open spec fn veto(self) -> Option<Seq<char>> {
        match self {
            ActionView::Veto(r) => Some(r),
            _ => None,
        }
    }

    /// The command of a rewrite.
    pub open spec fn command(self) -> Option<Seq<char>> {
        match self {
            ActionView::TransformCommand(c) => Some(c),
            _ => None,
        }
    }

    /// The output of a rewrite.
    pub open spec fn output(self) -> Option<Seq<char>> {
        match self {
            ActionView::TransformOutput(o) => Some(o),
            _ => None,
        }
    }

    /// The context to add.
    pub open spec fn context(self) -> Option<Seq<char>> {
        match self {
            ActionView::InjectContext(c) => Some(c),
            _ => None,
        }
    }

    /// The name of the action.
    pub open spec fn label(self) -> Seq<char> {
        match self {
            ActionView::Continue => "continue"@,
            ActionView::Veto(_) => "veto"@,
            ActionView::TransformCommand(_) => "transform_command"@,
            ActionView::TransformOutput(_) => "transform_output"@,
            ActionView::InjectContext(_) => "inject"@,
        }
    }

    /// The event can be answered with the action.
    pub open spec fn allowed_on(self, event: HookEvent) -> bool {
        match self {
            ActionView::Continue => true,
            ActionView::Veto(_) => event == HookEvent::PreTool,
            ActionView::TransformCommand(_) => event == HookEvent::PreTool,
            ActionView::TransformOutput(_) => event == HookEvent::PostTool,
            ActionView::InjectContext(_) => event == HookEvent::SessionStart || event
                == HookEvent::UserPrompt,
        }
    }
}

impl HookResult {
    /// The reason, where the hook vetoed the call.
    pub fn veto_reason(&self) -> (r: Option<&str>)
        ensures
            opt_str(r) == self.action@.veto(),
    {
        match &self.action {
            HookAction::Veto { reason } => Some(reason.as_str()),
            _ => None,
        }
    }

    /// The command, where the hook rewrote it.
    pub fn transform_command(&self) -> (r: Option<&str>)
        ensures
            opt_str(r) == self.action@.command(),
    {
        match &self.action {
            HookAction::TransformCommand(cmd) => Some(cmd.as_str()),
            _ => None,
        }
    }

    /// The output, where the hook rewrote it.
    pub fn transform_output(&self) -> (r: Option<&str>)
        ensures
            opt_str(r) == self.action@.output(),
    {
        match &self.action {
            HookAction::TransformOutput(out) => Some(out.as_str()),
            _ => None,
        }
    }

    /// The context, where the hook adds some.
    pub fn inject_context(&self) -> (r: Option<&str>)
        ensures
            opt_str(r) == self.action@.context(),
    {
        match &self.action {
            HookAction::InjectContext(ctx) => Some(ctx.as_str()),
            _ => None,
        }
    }
}

/// The name of an action.
pub fn action_label(a: &HookAction) -> (r: &'static str)
    ensures
        r@ == a@.label(),
{
    match a {
        HookAction::Continue => "continue",
        HookAction::Veto { .. } => "veto",
        HookAction::TransformCommand(_) => "transform_command",
        HookAction::TransformOutput(_) => "transform_output",
        HookAction::InjectContext(_) => "inject",
    }
}

// ---------------------------------------------------------------------------
// Picking from the results
// ---------------------------------------------------------------------------

/// The reason of the first veto.
pub open spec fn first_veto_of(actions: Seq<ActionView>) -> Option<Seq<char>>
    decreases actions.len(),
{
    if actions.len() == 0 {
        None
    } else {
        match actions[0].veto() {
            Some(r) => Some(r),
            None => first_veto_of(actions.drop_first()),
        }
    }
}

/// The command of the last rewrite.
pub open spec fn last_command_of(actions: Seq<ActionView>) -> Option<Seq<char>>
    decreases actions.len(),
{
    if actions.len() == 0 {
        None
    } else {
        match actions.last().command() {
            Some(c) => Some(c),
            None => last_command_of(actions.drop_last()),
        }
    }
}

/// The output of the last rewrite.
pub open spec fn last_output_of(actions: Seq<ActionView>) -> Option<Seq<char>>
    decreases actions.len(),
{
    if actions.len() == 0 {
        None
    } else {
        match actions.last().output() {
            Some(o) => Some(o),
            None => last_output_of(actions.drop_last()),
        }
    }
}

/// Adds a context to the contexts so far, after an empty line. An empty one is left out.
pub open spec fn context_added(out: Seq<char>, ctx: Seq<char>) -> Seq<char> {
    if ctx.len() == 0 {
        out
    } else if out.len() == 0 {
        ctx
    } else {
        out + "\n\n"@ + ctx
    }
}

/// All contexts, in their order.
pub open spec fn contexts_of(actions: Seq<ActionView>) -> Seq<char>
    decreases actions.len(),
{
    if actions.len() == 0 {
        Seq::empty()
    } else {
        match actions.last().context() {
            Some(c) => context_added(contexts_of(actions.drop_last()), c),
            None => contexts_of(actions.drop_last()),
        }
    }
}

/// A single veto among the results is enough to have one reported.
pub proof fn law_any_veto_counts(actions: Seq<ActionView>, i: int)
    requires
        0 <= i < actions.len(),
        actions[i].veto() is Some,
    ensures
        first_veto_of(actions) is Some,
    decreases actions.len(),
{
    if actions[0].veto() is None {
        law_any_veto_counts(actions.drop_first(), i - 1);
    }
}

/// Of several rewrites of a command the last one counts.
pub proof fn law_last_command_wins(actions: Seq<ActionView>, i: int)
    requires
        0 <= i < actions.len(),
        actions[i].command() is Some,
        forall|j: int| i < j < actions.len() ==> (#[trigger] actions[j]).command() is None,
    ensures
        last_command_of(actions) == actions[i].command(),
    decreases actions.len(),
{
    if i < actions.len() - 1 {
        assert(actions[actions.len() - 1].command() is None);
        assert forall|j: int| i < j < actions.drop_last().len() implies (
        #[trigger] actions.drop_last()[j]).command() is None by {
            assert(actions[j].command() is None);
        }
        law_last_command_wins(actions.drop_last(), i);
    }
}

/// Of several rewrites of an output the last one counts.
pub proof fn law_last_output_wins(actions: Seq<ActionView>, i: int)
    requires
        0 <= i < actions.len(),
        actions[i].output() is Some,
        forall|j: int| i < j < actions.len() ==> (#[trigger] actions[j]).output() is None,
    ensures
        last_output_of(actions) == actions[i].output(),
    decreases actions.len(),
{
    if i < actions.len() - 1 {
        assert(actions[actions.len() - 1].output() is None);
        assert forall|j: int| i < j < actions.drop_last().len() implies (
        #[trigger] actions.drop_last()[j]).output() is None by {
            assert(actions[j].output() is None);
        }
        law_last_output_wins(actions.drop_last(), i);
    }
}

/// Helper: collect first veto from a result vec, if any.
pub fn first_veto(results: &[HookResult]) -> (r: Option<&str>)
    ensures
        opt_str(r) == first_veto_of(asked_actions(results@)),
{
    let ghost all = asked_actions(results@);
    let mut i: usize = 0;
    assert(all.skip(0) =~= all);
    while i < results.len()
        invariant
            i <= results@.len(),
            all == asked_actions(results@),
            first_veto_of(all) == first_veto_of(all.skip(i as int)),
        decreases results@.len() - i,
    {
        assert(all.skip(i as int).drop_first() =~= all.skip(i + 1));
        assert(all.skip(i as int)[0] == results@[i as int].action@);
        match results[i].veto_reason() {
            Some(reason) => {
                return Some(reason);
            },
            None => {},
        }
        i += 1;
    }
    None
}

/// Helper: collect last command transform (last-wins).
pub fn last_transform_command(results: &[HookResult]) -> (r: Option<&str>)
    ensures
        opt_str(r) == last_command_of(asked_actions(results@)),
{
    let ghost all = asked_actions(results@);
    let mut i: usize = results.len();
    assert(all.take(all.len() as int) =~= all);
    while i > 0
        invariant
            i <= results@.len(),
            all == asked_actions(results@),
            last_command_of(all) == last_command_of(all.take(i as int)),
        decreases i,
    {
        i -= 1;
        assert(all.take(i + 1).drop_last() =~= all.take(i as int));
        assert(all.take(i + 1).last() == results@[i as int].action@);
        match results[i].transform_command() {
            Some(c) => {
                return Some(c);
            },
            None => {},
        }
    }
    None
}

/// Helper: collect last output transform (last-wins).
pub fn last_transform_output(results: &[HookResult]) -> (r: Option<&str>)
    ensures
        opt_str(r) == last_output_of(asked_actions(results@)),
{
    let ghost all = asked_actions(results@);
    let mut i: usize = results.len();
    assert(all.take(all.len() as int) =~= all);
    while i > 0
        invariant
            i <= results@.len(),
            all == asked_actions(results@),
            last_output_of(all) == last_output_of(all.take(i as int)),
        decreases i,
    {
        i -= 1;
        assert(all.take(i + 1).drop_last() =~= all.take(i as int));
        assert(all.take(i + 1).last() == results@[i as int].action@);
        match results[i].transform_output() {
            Some(o) => {
                return Some(o);
            },
            None => {},
        }
    }
    None
}

/// The context after the contexts so far.
pub fn add_context(out: &mut String, ctx: &str)
    ensures
        final(out)@ == context_added(old(out)@, ctx@),
{
    if ctx.is_empty() {
        return;
    }
    if !out.as_str().is_empty() {
        out.append("\n\n");
    }
    assert(Seq::<char>::empty() + ctx@ =~= ctx@);
    out.append(ctx);
}

/// Helper: collect all injected contexts in order, joined with newlines.
pub fn join_injected_contexts(results: &[HookResult]) -> (r: String)
    ensures
        r@ == contexts_of(asked_actions(results@)),
{
    let ghost all = asked_actions(results@);
    let mut out = String::new();
    let mut i: usize = 0;
    assert(all.take(0) =~= Seq::<ActionView>::empty());
    while i < results.len()
        invariant
            i <= results@.len(),
            all == asked_actions(results@),
            out@ == contexts_of(all.take(i as int)),
        decreases results@.len() - i,
    {
        assert(all.take(i + 1).drop_last() =~= all.take(i as int));
        assert(all.take(i + 1).last() == results@[i as int].action@);
        match results[i].inject_context() {
            Some(ctx) => {
                add_context(&mut out, ctx);
            },
            None => {},
        }
        i += 1;
    }
    assert(all.take(all.len() as int) =~= all);
    out
}

// ---------------------------------------------------------------------------
// Reading what a hook answers
// ---------------------------------------------------------------------------

/// An action, and what to warn of.
#[verifier::ext_equal]
pub struct ReplyView {
    /// What is asked for.
    pub action: ActionView,
    /// What the operator is told.
    pub warning: Option<Seq<char>>,
}

/// An action, and what to warn of.
#[derive(Debug)]
pub struct HookReply {
    /// What is asked for.
    pub action: HookAction,
    /// What the operator is told.
    pub warning: Option<String>,
}

impl View for HookReply {
    type V = ReplyView;

    open spec fn view(&self) -> ReplyView {
        ReplyView {
            action: self.action@,
            warning: match self.warning {
                Some(w) => Some(w@),
                None => None,
            },
        }
    }
}

/// The reply that asks for nothing, with a warning that names the script and, between `before` and
/// `after`, the event.
pub open spec fn ignored(
    script: Seq<char>,
    before: Seq<char>,
    event: HookEvent,
    after: Seq<char>,
) -> ReplyView {
    ReplyView {
        action: ActionView::Continue,
        warning: Some("[lazar] WARN: hook "@ + script + before + event.name() + after),
    }
}

/// A reply without a warning.
pub open spec fn plain_reply(action: ActionView) -> ReplyView {
    ReplyView { action, warning: None }
}

/// What a JSON answer asks for. An action that the event does not allow is ignored.
pub open spec fn reply_to(v: json::JsonView, event: HookEvent, script: Seq<char>) -> ReplyView {
    let action = match v.field_text("action"@) {
        Some(a) => a,
        None => "continue"@,
    };
    if action == "continue"@ {
        plain_reply(ActionView::Continue)
    } else if action == "veto"@ {
        if event != HookEvent::PreTool {
            ignored(
                script,
                " returned 'veto' on event "@,
                event,
                "; veto is pre-tool only — ignoring"@,
            )
        } else {
            plain_reply(
                ActionView::Veto(
                    match v.field_text("reason"@) {
                        Some(r) => r,
                        None => "vetoed by hook"@,
                    },
                ),
            )
        }
    } else if action == "transform"@ {
        match v.field_text("command"@) {
            Some(c) => if event != HookEvent::PreTool {
                ignored(
                    script,
                    " returned 'transform.command' on event "@,
                    event,
                    "; pre-tool only — ignoring"@,
                )
            } else {
                plain_reply(ActionView::TransformCommand(c))
            },
            None => match v.field_text("output"@) {
                Some(o) => if event != HookEvent::PostTool {
                    ignored(
                        script,
                        " returned 'transform.output' on event "@,
                        event,
                        "; post-tool only — ignoring"@,
                    )
                } else {
                    plain_reply(ActionView::TransformOutput(o))
                },
                None => ReplyView {
                    action: ActionView::Continue,
                    warning: Some(
                        "[lazar] WARN: hook "@ + script
                            + " returned 'transform' without command/output; treating as Continue"@,
                    ),
                },
            },
        }
    } else if action == "inject"@ {
        if event != HookEvent::SessionStart && event != HookEvent::UserPrompt {
            ignored(
                script,
                " returned 'inject' on event "@,
                event,
                "; only session-start/user-prompt — ignoring"@,
            )
        } else {
            plain_reply(
                ActionView::InjectContext(
                    match v.field_text("context"@) {
                        Some(c) => c,
                        None => Seq::empty(),
                    },
                ),
            )
        }
    } else {
        ReplyView {
            action: ActionView::Continue,
            warning: Some(
                "[lazar] WARN: hook "@ + script + " returned unknown action '"@ + action
                    + "'; treating as Continue"@,
            ),
        }
    }
}

/// The bytes are all ASCII white space.
pub open spec fn all_blank(b: Seq<u8>) -> bool {
    forall|i: int| 0 <= i < b.len() ==> is_blank(#[trigger] b[i])
}

/// The byte is ASCII white space.
pub open spec fn is_blank(b: u8) -> bool {
    b == 32 || b == 9 || b == 10 || b == 12 || b == 13
}

/// What a parsed answer asks for. `parsed` is the value, or the message of the error.
pub open spec fn parsed_reply(
    parsed: Result<json::JsonView, Seq<char>>,
    event: HookEvent,
    script: Seq<char>,
) -> ReplyView {
    match parsed {
        Ok(v) => reply_to(v, event, script),
        Err(e) => ignored(
            script,
            " ("@,
            event,
            ") emitted invalid JSON ("@ + e + "); treating as Continue"@,
        ),
    }
}

/// What the standard output of a hook asks for.
pub open spec fn reply_of(stdout: Seq<u8>, event: HookEvent, script: Seq<char>) -> ReplyView {
    if all_blank(stdout) {
        plain_reply(ActionView::Continue)
    } else if !valid_utf8(stdout) {
        ignored(script, " ("@, event, ") emitted non-UTF8 stdout; treating as Continue"@)
    } else {
        parsed_reply(json::parsed_json(text::trim(decode_utf8(stdout))), event, script)
    }
}

/// A hook can only ask for what its event allows.
pub proof fn law_only_allowed_actions(v: json::JsonView, event: HookEvent, script: Seq<char>)
    ensures
        reply_to(v, event, script).action.allowed_on(event),
{
}

/// `std::str::from_utf8`: the text whose UTF-8 form the bytes are, if they are one.
#[verifier::external_body]
pub(crate) fn utf8_text(b: &[u8]) -> (r: Option<String>)
    ensures
        match r {
            Some(s) => valid_utf8(b@) && offsets::bytes(s@) == b@,
            None => !valid_utf8(b@),
        },
{
    std::str::from_utf8(b).ok().map(|s| s.to_string())
}

fn is_all_blank(b: &[u8]) -> (r: bool)
    ensures
        r == all_blank(b@),
{
    let mut i: usize = 0;
    while i < b.len()
        invariant
            i <= b@.len(),
            forall|k: int| 0 <= k < i ==> is_blank(#[trigger] b@[k]),
        decreases b@.len() - i,
    {
        let c: u8 = b[i];
        if !(c == 32 || c == 9 || c == 10 || c == 12 || c == 13) {
            assert(!is_blank(b@[i as int]));
            return false;
        }
        i += 1;
    }
    true
}

fn ignored_reply(script: &str, before: &str, event: HookEvent, after: &str) -> (r: HookReply)
    ensures
        r@ == ignored(script@, before@, event, after@),
{
    let mut w = owned("[lazar] WARN: hook ");
    w.append(script);
    w.append(before);
    w.append(event.as_str());
    w.append(after);
    HookReply { action: HookAction::Continue, warning: Some(w) }
}

/// What a JSON answer asks for.
pub fn action_from_value(v: &Json, event: HookEvent, script: &str) -> (r: HookReply)
    ensures
        r@ == reply_to(v@, event, script@),
{
    let action: &str = match v.get_text("action") {
        Some(a) => a,
        None => "continue",
    };
    if same_text(action, "continue") {
        return HookReply { action: HookAction::Continue, warning: None };
    }
    if same_text(action, "veto") {
        if event != HookEvent::PreTool {
            return ignored_reply(
                script,
                " returned 'veto' on event ",
                event,
                "; veto is pre-tool only — ignoring",
            );
        }
        let reason: &str = match v.get_text("reason") {
            Some(t) => t,
            None => "vetoed by hook",
        };
        return HookReply { action: HookAction::Veto { reason: owned(reason) }, warning: None };
    }
    if same_text(action, "transform") {
        match v.get_text("command") {
            Some(c) => {
                if event != HookEvent::PreTool {
                    return ignored_reply(
                        script,
                        " returned 'transform.command' on event ",
                        event,
                        "; pre-tool only — ignoring",
                    );
                }
                return HookReply { action: HookAction::TransformCommand(owned(c)), warning: None };
            },
            None => {},
        }
        match v.get_text("output") {
            Some(o) => {
                if event != HookEvent::PostTool {
                    return ignored_reply(
                        script,
                        " returned 'transform.output' on event ",
                        event,
                        "; post-tool only — ignoring",
                    );
                }
                return HookReply { action: HookAction::TransformOutput(owned(o)), warning: None };
            },
            None => {},
        }
        let mut w = owned("[lazar] WARN: hook ");
        w.append(script);
        w.append(" returned 'transform' without command/output; treating as Continue");
        return HookReply { action: HookAction::Continue, warning: Some(w) };
    }
    if same_text(action, "inject") {
        if event != HookEvent::SessionStart && event != HookEvent::UserPrompt {
            return ignored_reply(
                script,
                " returned 'inject' on event ",
                event,
                "; only session-start/user-prompt — ignoring",
            );
        }
        let ctx = match v.get_text("context") {
            Some(c) => owned(c),
            None => String::new(),
        };
        return HookReply { action: HookAction::InjectContext(ctx), warning: None };
    }
    let mut w = owned("[lazar] WARN: hook ");
    w.append(script);
    w.append(" returned unknown action '");
    w.append(action);
    w.append("'; treating as Continue");
    HookReply { action: HookAction::Continue, warning: Some(w) }
}

/// What a parsed answer asks for.
pub fn action_from_parsed(parsed: &Result<Json, String>, event: HookEvent, script: &str) -> (r:
    HookReply)
    ensures
        r@ == parsed_reply(
            match *parsed {
                Ok(v) => Ok(v@),
                Err(e) => Err(e@),
            },
            event,
            script@,
        ),
{
    match parsed {
        Ok(v) => action_from_value(v, event, script),
        Err(e) => {
            let mut after = owned(") emitted invalid JSON (");
            after.append(e.as_str());
            after.append("); treating as Continue");
            ignored_reply(script, " (", event, after.as_str())
        },
    }
}

/// What the standard output of a hook asks for, and what to warn of.
pub fn read_action(stdout_bytes: &[u8], event: HookEvent, script_name: &str) -> (r: HookReply)
    ensures
        r@ == reply_of(stdout_bytes@, event, script_name@),
{
    if is_all_blank(stdout_bytes) {
        return HookReply { action: HookAction::Continue, warning: None };
    }
    match utf8_text(stdout_bytes) {
        Some(s) => {
            proof {
                encode_utf8_decode_utf8(s@);
            }
            let parsed = parse_json(trimmed(s.as_str()).as_str());
            action_from_parsed(&parsed, event, script_name)
        },
        None => ignored_reply(
            script_name,
            " (",
            event,
            ") emitted non-UTF8 stdout; treating as Continue",
        ),
    }
}

/// What the standard output of a hook asks for.
pub fn parse_action(stdout_bytes: &[u8], event: HookEvent, script_name: &str) -> (r: HookAction)
    ensures
        r@ == reply_of(stdout_bytes@, event, script_name@).action,
{
    read_action(stdout_bytes, event, script_name).action
}

// ---------------------------------------------------------------------------
// How a hook went
// ---------------------------------------------------------------------------

/// What a hook asks for, by how it went: one that was killed or failed asks for nothing.
pub open spec fn outcome_of(
    stdout: Seq<u8>,
    exit_code: i32,
    timed_out: bool,
    event: HookEvent,
    script: Seq<char>,
) -> ReplyView {
    if timed_out {
        ignored(script, " ("@, event, ") timed out; treating as Continue"@)
    } else if exit_code != 0 {
        ignored(
            script,
            " ("@,
            event,
            ") exited with code "@ + numbers::signed_decimal(exit_code as int)
                + "; treating as Continue"@,
        )
    } else {
        reply_of(stdout, event, script)
    }
}

/// A hook that is killed, fails, or answers with anything but a JSON action changes nothing.
pub proof fn law_failed_hook_continues(
    stdout: Seq<u8>,
    exit_code: i32,
    timed_out: bool,
    event: HookEvent,
    script: Seq<char>,
)
    requires
        timed_out || exit_code != 0 || all_blank(stdout) || !valid_utf8(stdout)
            || json::parsed_json(text::trim(decode_utf8(stdout))) is Err,
    ensures
        outcome_of(stdout, exit_code, timed_out, event, script).action is Continue,
{
}

/// What a hook asks for is allowed on its event.
pub proof fn law_outcome_allowed(
    stdout: Seq<u8>,
    exit_code: i32,
    timed_out: bool,
    event: HookEvent,
    script: Seq<char>,
)
    ensures
        outcome_of(stdout, exit_code, timed_out, event, script).action.allowed_on(event),
{
}

/// What a hook asks for, by how it went, and what to warn of.
pub fn hook_outcome(
    stdout_bytes: &[u8],
    exit_code: i32,
    timed_out: bool,
    event: HookEvent,
    script_name: &str,
) -> (r: HookReply)
    ensures
        r@ == outcome_of(stdout_bytes@, exit_code, timed_out, event, script_name@),
{
    if timed_out {
        return ignored_reply(script_name, " (", event, ") timed out; treating as Continue");
    }
    if exit_code != 0 {
        let mut after = owned(") exited with code ");
        after.append(signed_text(exit_code).as_str());
        after.append("; treating as Continue");
        return ignored_reply(script_name, " (", event, after.as_str());
    }
    read_action(stdout_bytes, event, script_name)
}

/// What the operator is told of a hook's error output. `shown` is the output as text.
pub open spec fn stderr_notice_of(shown: Seq<char>, event: HookEvent, script: Seq<char>) -> Seq<
    char,
> {
    "[lazar] hook "@ + script + " stderr ("@ + event.name() + "):\n"@ + text::strip_end(
        shown,
        CharClass::White,
    )
}

/// What the operator is told of a hook's error output, given as text.
pub fn stderr_notice_text(shown: &str, event: HookEvent, script_name: &str) -> (r: String)
    ensures
        r@ == stderr_notice_of(shown@, event, script_name@),
{
    let mut out = owned("[lazar] hook ");
    out.append(script_name);
    out.append(" stderr (");
    out.append(event.as_str());
    out.append("):\n");
    let chars = chars_of(shown);
    out.append(string_of(strip_end_chars(chars.as_slice(), CharClass::White)).as_str());
    out
}

/// What the operator is told of a hook's error output, where there was any.
pub fn stderr_notice(stderr_bytes: &[u8], event: HookEvent, script_name: &str) -> (r: Option<
    String,
>)
    ensures
        match r {
            Some(w) => stderr_bytes@.len() > 0 && w@ == stderr_notice_of(
                tools::lossy_text(stderr_bytes@),
                event,
                script_name@,
            ),
            None => stderr_bytes@.len() == 0,
        },
{
    if stderr_bytes.len() == 0 {
        return None;
    }
    let shown = lossy(stderr_bytes);
    Some(stderr_notice_text(shown.as_str(), event, script_name))
}

/// How long a hook may run, where nothing is set.
pub const DEFAULT_HOOK_TIMEOUT_SECS: u64 = 5;

/// How much of a hook's output is kept.
pub const HOOK_STDOUT_CAP_BYTES: usize = 16_384;

/// How much of a hook's error output is kept.
pub const HOOK_STDERR_CAP_BYTES: usize = 8_192;

/// How often a running hook is looked at.
pub const HOOK_NAP_MILLIS: u64 = 20;

/// How long a hook may run, as `LAZAR_HOOK_TIMEOUT_SECS` sets it.
pub fn hook_timeout_secs(var: Option<&str>) -> (r: u64)
    ensures
        r == tools::setting(
            tools::var_text(var),
            u64::MAX as int,
            DEFAULT_HOOK_TIMEOUT_SECS as int,
        ),
        r > 0,
{
    setting_of(var, u64::MAX, DEFAULT_HOOK_TIMEOUT_SECS)
}

// ---------------------------------------------------------------------------
// Payload and log events
// ---------------------------------------------------------------------------

/// The payload as a hook reads it: with the event, the time and the home directory.
pub open spec fn stamped_payload(
    payload: json::JsonView,
    event: HookEvent,
    ts_ms: u64,
    lazar_home: Seq<char>,
) -> json::JsonView {
    payload.with("event"@, json::JsonView::Str(event.name())).with(
        "ts_ms"@,
        json::JsonView::Unsigned(ts_ms),
    ).with("lazar_home"@, json::JsonView::Str(lazar_home))
}

/// The payload as a hook reads it.
pub fn hook_payload(payload: &Json, event: HookEvent, ts_ms: u64, lazar_home: &str) -> (r: Json)
    ensures
        r@ == stamped_payload(payload@, event, ts_ms, lazar_home@),
{
    let mut out = payload.dup();
    out.set("event", json_str(event.as_str()));
    out.set("ts_ms", Json::Unsigned(ts_ms));
    out.set("lazar_home", json_str(lazar_home));
    out
}

/// The log event before a hook runs.
pub open spec fn start_event(event: HookEvent, script: Seq<char>) -> json::JsonView {
    json::object_of(
        seq![
            ("kind"@, json::JsonView::Str("hook_start"@)),
            ("event"@, json::JsonView::Str(event.name())),
            ("script"@, json::JsonView::Str(script)),
        ],
    )
}

/// The log event before a hook runs.
pub fn hook_start_event(event: HookEvent, script: &str) -> (r: Json)
    ensures
        r@ == start_event(event, script@),
{
    let built = ObjectBuilder::new().put_str("kind", "hook_start").put_str(
        "event",
        event.as_str(),
    ).put_str("script", script);
    assert(built.entries() =~= seq![
        ("kind"@, json::JsonView::Str("hook_start"@)),
        ("event"@, json::JsonView::Str(event.name())),
        ("script"@, json::JsonView::Str(script@)),
    ]);
    built.done()
}

/// The log event after a hook ran.
pub open spec fn end_event(
    event: HookEvent,
    script: Seq<char>,
    action: ActionView,
    exit_code: i32,
    duration_ms: u64,
    timed_out: bool,
) -> json::JsonView {
    json::object_of(
        seq![
            ("kind"@, json::JsonView::Str("hook_end"@)),
            ("event"@, json::JsonView::Str(event.name())),
            ("script"@, json::JsonView::Str(script)),
            ("action"@, json::JsonView::Str(action.label())),
            ("exit_code"@, json::int_view(exit_code as int)),
            ("duration_ms"@, json::JsonView::Unsigned(duration_ms)),
            ("timed_out"@, json::JsonView::Bool(timed_out)),
        ],
    )
}

/// The log event after a hook ran.
pub fn hook_end_event(
    event: HookEvent,
    script: &str,
    action: &HookAction,
    exit_code: i32,
    duration_ms: u64,
    timed_out: bool,
) -> (r: Json)
    ensures
        r@ == end_event(event, script@, action@, exit_code, duration_ms, timed_out),
{
    let built = ObjectBuilder::new().put_str("kind", "hook_end").put_str(
        "event",
        event.as_str(),
    ).put_str("script", script).put_str("action", action_label(action)).put(
        "exit_code",
        json_int(exit_code as i64),
    ).put("duration_ms", Json::Unsigned(duration_ms)).put("timed_out", Json::Bool(timed_out));
    assert(built.entries() =~= seq![
        ("kind"@, json::JsonView::Str("hook_end"@)),
        ("event"@, json::JsonView::Str(event.name())),
        ("script"@, json::JsonView::Str(script@)),
        ("action"@, json::JsonView::Str(action@.label())),
        ("exit_code"@, json::int_view(exit_code as int)),
        ("duration_ms"@, json::JsonView::Unsigned(duration_ms)),
        ("timed_out"@, json::JsonView::Bool(timed_out)),
    ]);
    built.done()
}

/// The note on a hook that could not be started.
pub fn spawn_failure_note(message: &str) -> (r: String)
    ensures
        r@ == "hook spawn failed: "@ + message@,
{
    let mut out = owned("hook spawn failed: ");
    out.append(message);
    out
}

/// The log event on a hook that could not be started.
pub open spec fn spawn_failed_event(
    event: HookEvent,
    script: Seq<char>,
    duration_ms: u64,
    note: Seq<char>,
) -> json::JsonView {
    json::object_of(
        seq![
            ("kind"@, json::JsonView::Str("hook_end"@)),
            ("event"@, json::JsonView::Str(event.name())),
            ("script"@, json::JsonView::Str(script)),
            ("action"@, json::JsonView::Str("continue"@)),
            ("exit_code"@, json::int_view(-1)),
            ("duration_ms"@, json::JsonView::Unsigned(duration_ms)),
            ("note"@, json::JsonView::Str(note)),
        ],
    )
}

/// The log event on a hook that could not be started.
pub fn hook_spawn_failed_event(event: HookEvent, script: &str, duration_ms: u64, note: &str) -> (r:
    Json)
    ensures
        r@ == spawn_failed_event(event, script@, duration_ms, note@),
{
    let built = ObjectBuilder::new().put_str("kind", "hook_end").put_str(
        "event",
        event.as_str(),
    ).put_str("script", script).put_str("action", "continue").put(
        "exit_code",
        json_int(-1),
    ).put("duration_ms", Json::Unsigned(duration_ms)).put_str("note", note);
    assert(built.entries() =~= seq![
        ("kind"@, json::JsonView::Str("hook_end"@)),
        ("event"@, json::JsonView::Str(event.name())),
        ("script"@, json::JsonView::Str(script@)),
        ("action"@, json::JsonView::Str("continue"@)),
        ("exit_code"@, json::int_view(-1)),
        ("duration_ms"@, json::JsonView::Unsigned(duration_ms)),
        ("note"@, json::JsonView::Str(note@)),
    ]);
    built.done()
}

/// The result of a hook that could not be started.
pub fn spawn_failed_result(script: &str, duration_ms: u128) -> (r: HookResult)
    ensures
        r.script@ == script@,
        r.action@ is Continue,
        r.exit_code == -1,
        r.duration_ms == duration_ms,
        !r.timed_out,
{
    HookResult {
        script: owned(script),
        action: HookAction::Continue,
        exit_code: -1,
        duration_ms,
        timed_out: false,
    }
}

// ---------------------------------------------------------------------------
// Discovery
// ---------------------------------------------------------------------------

/// An entry of a hook directory.
#[derive(Debug)]
pub struct HookEntry {
    /// Its name, where that is UTF-8.
    pub name: Option<String>,
    /// It is a regular file.
    pub is_file: bool,
    /// It may be executed.
    pub executable: bool,
}

/// The entry is a hook: an executable file that is neither disabled nor hidden.
pub open spec fn is_hook(e: HookEntry) -> bool {
    e.is_file && e.executable && match e.name {
        Some(n) => !text::ends_with(n@, ".disabled"@) && !text::begins_with(n@, "."@),
        None => false,
    }
}

/// The names of the hooks among the entries.
pub open spec fn hook_names(entries: Seq<HookEntry>) -> Seq<Seq<char>>
    decreases entries.len(),
{
    if entries.len() == 0 {
        Seq::empty()
    } else if is_hook(entries.last()) {
        hook_names(entries.drop_last()).push(entries.last().name->0@)
    } else {
        hook_names(entries.drop_last())
    }
}

/// `a` comes before `b` in lexical order, or is the same.
pub open spec fn lex_le(a: Seq<char>, b: Seq<char>) -> bool
    decreases a.len(),
{
    if a.len() == 0 {
        true
    } else if b.len() == 0 {
        false
    } else if a[0] == b[0] {
        lex_le(a.drop_first(), b.drop_first())
    } else {
        a[0] < b[0]
    }
}

/// The names are in lexical order.
pub open spec fn lex_sorted(v: Seq<Seq<char>>) -> bool {
    forall|i: int, j: int| 0 <= i <= j < v.len() ==> lex_le(#[trigger] v[i], #[trigger] v[j])
}

proof fn lemma_lex_total(a: Seq<char>, b: Seq<char>)
    ensures
        lex_le(a, b) || lex_le(b, a),
        lex_le(a, a),
    decreases a.len(),
{
    if a.len() > 0 {
        lemma_lex_total(a.drop_first(), a.drop_first());
        if b.len() > 0 {
            lemma_lex_total(a.drop_first(), b.drop_first());
        }
    }
}

proof fn lemma_lex_trans(a: Seq<char>, b: Seq<char>, c: Seq<char>)
    requires
        lex_le(a, b),
        lex_le(b, c),
    ensures
        lex_le(a, c),
    decreases a.len(),
{
    if a.len() > 0 && a[0] == b[0] && b[0] == c[0] {
        lemma_lex_trans(a.drop_first(), b.drop_first(), c.drop_first());
    }
}

fn lex_le_chars(a: &[char], b: &[char]) -> (r: bool)
    ensures
        r == lex_le(a@, b@),
{
    let mut i: usize = 0;
    assert(a@.skip(0) =~= a@);
    assert(b@.skip(0) =~= b@);
    while i < a.len()
        invariant
            i <= a@.len(),
            i <= b@.len(),
            lex_le(a@, b@) == lex_le(a@.skip(i as int), b@.skip(i as int)),
        decreases a@.len() - i,
    {
        if i == b.len() {
            return false;
        }
        assert(a@.skip(i as int).drop_first() =~= a@.skip(i + 1));
        assert(b@.skip(i as int).drop_first() =~= b@.skip(i + 1));
        assert(a@.skip(i as int)[0] == a@[i as int]);
        assert(b@.skip(i as int)[0] == b@[i as int]);
        if a[i] != b[i] {
            return a[i] < b[i];
        }
        i += 1;
    }
    true
}

/// `a` comes before `b` in lexical order, or is the same.
fn lex_le_text(a: &str, b: &str) -> (r: bool)
    ensures
        r == lex_le(a@, b@),
{
    lex_le_chars(chars_of(a).as_slice(), chars_of(b).as_slice())
}

/// Puts a name into its place in a sorted list.
fn insert_sorted(out: &mut Vec<String>, name: String)
    requires
        lex_sorted(text::texts(old(out)@)),
    ensures
        lex_sorted(text::texts(final(out)@)),
        text::texts(final(out)@).to_multiset() == text::texts(old(out)@).to_multiset().insert(
            name@,
        ),
{
    let ghost before = text::texts(out@);
    let mut i: usize = out.len();
    while i > 0 && !lex_le_text(out[i - 1].as_str(), name.as_str())
        invariant
            i <= out@.len(),
            before == text::texts(out@),
            forall|j: int| i <= j < before.len() ==> !lex_le(#[trigger] before[j], name@),
        decreases i,
    {
        i -= 1;
    }
    out.insert(i, name);
    proof {
        let after = text::texts(out@);
        assert(after =~= before.insert(i as int, name@));
        vstd::seq_lib::to_multiset_insert(before, i as int, name@);
        assert forall|a: int, b: int| 0 <= a <= b < after.len() implies lex_le(
            #[trigger] after[a],
            #[trigger] after[b],
        ) by {
            lemma_lex_total(name@, name@);
            if a < i && b == i {
                assert(lex_le(before[a], before[i - 1]));
                lemma_lex_trans(before[a], before[i - 1], name@);
            } else if a == i && b > i {
                assert(!lex_le(before[b - 1], name@));
                lemma_lex_total(name@, before[b - 1]);
            } else if a < i && b > i {
                assert(lex_le(before[a], before[b - 1]));
            } else if a > i {
                assert(lex_le(before[a - 1], before[b - 1]));
            } else if b < i {
                assert(lex_le(before[a], before[b]));
            }
        }
    }
}

/// The names of the hooks among the entries of a directory, in the order in which they fire.
pub fn select_hooks(entries: &[HookEntry]) -> (r: Vec<String>)
    ensures
        lex_sorted(text::texts(r@)),
        text::texts(r@).to_multiset() == hook_names(entries@).to_multiset(),
{
    let mut out: Vec<String> = Vec::new();
    let mut i: usize = 0;
    assert(text::texts(out@) =~= Seq::<Seq<char>>::empty());
    assert(entries@.take(0) =~= Seq::<HookEntry>::empty());
    while i < entries.len()
        invariant
            i <= entries@.len(),
            lex_sorted(text::texts(out@)),
            text::texts(out@).to_multiset() == hook_names(
                entries@.take(i as int),
            ).to_multiset(),
        decreases entries@.len() - i,
    {
        assert(entries@.take(i + 1).drop_last() =~= entries@.take(i as int));
        assert(entries@.take(i + 1).last() == entries@[i as int]);
        let e = &entries[i];
        match &e.name {
            Some(n) => {
                if e.is_file && e.executable && !text_ends_with(n.as_str(), ".disabled")
                    && !text_begins_with(n.as_str(), ".") {
                    proof {
                        vstd::seq_lib::to_multiset_build(hook_names(entries@.take(i as int)), n@);
                    }
                    insert_sorted(&mut out, n.clone());
                }
            },
            None => {},
        }
        i += 1;
    }
    assert(entries@.take(entries@.len() as int) =~= entries@);
    out
}

/// The directory of an event's hooks.
pub open spec fn event_dir(home: Seq<char>, event: HookEvent) -> Seq<char> {
    paths::joined(paths::joined(home, "hooks"@), event.name() + ".d"@)
}

/// The directory of an event's hooks.
pub fn hook_dir(home: &str, event: HookEvent) -> (r: String)
    ensures
        r@ == event_dir(home@, event),
{
    let mut name = owned(event.as_str());
    name.append(".d");
    join_path(join_path(home, "hooks").as_str(), name.as_str())
}

/// What was found in the hook directories, kept for as long as the home stays the same.
#[derive(Debug)]
pub struct DiscoveryCache {
    home: String,
    listed: Vec<(HookEvent, Vec<String>)>,
}

/// The listings, by event. Of two listings of one event the later counts.
pub open spec fn listings(v: Seq<(HookEvent, Vec<String>)>) -> Map<HookEvent, Seq<Seq<char>>>
    decreases v.len(),
{
    if v.len() == 0 {
        Map::empty()
    } else {
        listings(v.drop_last()).insert(v.last().0, text::texts(v.last().1@))
    }
}

proof fn lemma_listings_key(v: Seq<(HookEvent, Vec<String>)>, n: int, event: HookEvent)
    requires
        0 <= n <= v.len(),
        forall|j: int| n <= j < v.len() ==> (#[trigger] v[j]).0 != event,
    ensures
        listings(v).contains_key(event) == listings(v.take(n)).contains_key(event),
        listings(v).contains_key(event) ==> listings(v)[event] == listings(v.take(n))[event],
    decreases v.len(),
{
    if n == v.len() {
        assert(v.take(n) =~= v);
    } else {
        assert(v[v.len() - 1].0 != event);
        assert forall|j: int| n <= j < v.drop_last().len() implies (
        #[trigger] v.drop_last()[j]).0 != event by {
            assert(v[j].0 != event);
        }
        lemma_listings_key(v.drop_last(), n, event);
        assert(v.drop_last().take(n) =~= v.take(n));
    }
}

fn copy_texts(v: &Vec<String>) -> (r: Vec<String>)
    ensures
        text::texts(r@) == text::texts(v@),
{
    let mut out: Vec<String> = Vec::new();
    let mut i: usize = 0;
    while i < v.len()
        invariant
            i <= v@.len(),
            out@.len() == i,
            forall|k: int| 0 <= k < i ==> (#[trigger] out@[k])@ == v@[k]@,
        decreases v@.len() - i,
    {
        out.push(v[i].clone());
        i += 1;
    }
    assert(text::texts(out@) =~= text::texts(v@));
    out
}

impl DiscoveryCache {
    /// The home directory that the listings belong to.
    pub closed spec fn home(&self) -> Seq<char> {
        self.home@
    }

    /// The scripts found, by event.
    pub closed spec fn found(&self) -> Map<HookEvent, Seq<Seq<char>>> {
        listings(self.listed@)
    }

    /// Nothing was looked at yet.
    pub fn new(home: &str) -> (r: DiscoveryCache)
        ensures
            r.home() == home@,
            r.found() == Map::<HookEvent, Seq<Seq<char>>>::empty(),
    {
        DiscoveryCache { home: owned(home), listed: Vec::new() }
    }

    /// The scripts of an event, where its directory was looked at before. Another home forgets
    /// everything.
    pub fn lookup(&mut self, home: &str, event: HookEvent) -> (r: Option<Vec<String>>)
        ensures
            final(self).home() == home@,
            final(self).found() == (if old(self).home() == home@ {
                old(self).found()
            } else {
                Map::<HookEvent, Seq<Seq<char>>>::empty()
            }),
            match r {
                Some(v) => final(self).found().contains_key(event) && final(self).found()[event]
                    == text::texts(v@),
                None => !final(self).found().contains_key(event),
            },
    {
        if !same_text(self.home.as_str(), home) {
            self.home = owned(home);
            self.listed = Vec::new();
        }
        let ghost all = self.listed@;
        let mut i: usize = self.listed.len();
        while i > 0
            invariant
                i <= self.listed@.len(),
                all == self.listed@,
                self.home@ == home@,
                self.found() == (if old(self).home() == home@ {
                    old(self).found()
                } else {
                    Map::<HookEvent, Seq<Seq<char>>>::empty()
                }),
                forall|j: int| i <= j < all.len() ==> (#[trigger] all[j]).0 != event,
            decreases i,
        {
            i -= 1;
            if self.listed[i].0 == event {
                proof {
                    lemma_listings_key(all, i + 1, event);
                    assert(all.take(i + 1).last() == all[i as int]);
                }
                return Some(copy_texts(&self.listed[i].1));
            }
        }
        proof {
            lemma_listings_key(all, 0, event);
            assert(all.take(0).len() == 0);
        }
        None
    }

    /// Keeps the scripts of an event.
    pub fn store(&mut self, event: HookEvent, scripts: Vec<String>)
        ensures
            final(self).home() == old(self).home(),
            final(self).found() == old(self).found().insert(event, text::texts(scripts@)),
    {
        let ghost before = self.listed@;
        self.listed.push((event, scripts));
        assert(self.listed@.drop_last() =~= before);
    }
}

} // verus!
