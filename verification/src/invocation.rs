//! What surrounds the agent loop: how an invocation begins and ends, which session it belongs to,
//! and the heartbeat.

use vstd::prelude::*;

use crate::hooks;
use crate::hooks::{add_context, join_injected_contexts, HookResult};
use crate::json;
use crate::json::{json_opt_str, json_str, Json, ObjectBuilder};
use crate::numbers;
use crate::numbers::{decimal_text, signed_text, size_text};
use crate::session;
use crate::session::{make_message, validate_session_id};
use crate::sse;
use crate::sse::{make_error_event, OutputFormat};
use crate::text::owned;
use crate::tools;

verus! {

// ---------------------------------------------------------------------------
// Which session
// ---------------------------------------------------------------------------

/// The text of an optional string.
pub open spec fn opt_text(s: Option<String>) -> Option<Seq<char>> {
    match s {
        Some(t) => Some(t@),
        None => None,
    }
}

/// The session that an invocation belongs to, or why there can be none: the one asked for, or the
/// newest where that is asked for.
pub open spec fn session_choice(
    asked: Option<Seq<char>>,
    resume: bool,
    newest: Option<Seq<char>>,
) -> Result<Option<Seq<char>>, Seq<char>> {
    match asked {
        Some(id) => match session::id_error(id) {
            Some(e) => Err("invalid --session id: "@ + e),
            None => Ok(Some(id)),
        },
        None => if resume {
            Ok(newest)
        } else {
            Ok(None)
        },
    }
}

/// The session that an invocation belongs to, or why there can be none.
pub fn choose_session(asked: Option<&str>, resume: bool, newest: Option<String>) -> (r: Result<
    Option<String>,
    String,
>)
    ensures
        match r {
            Ok(id) => session_choice(tools::var_text(asked), resume, opt_text(newest)) == Ok::<
                Option<Seq<char>>,
                Seq<char>,
            >(opt_text(id)),
            Err(e) => session_choice(tools::var_text(asked), resume, opt_text(newest)) == Err::<
                Option<Seq<char>>,
                Seq<char>,
            >(e@),
        },
{
    match asked {
        Some(id) => match validate_session_id(id) {
            Ok(_) => Ok(Some(owned(id))),
            Err(e) => {
                let mut msg = owned("invalid --session id: ");
                msg.append(e.as_str());
                Err(msg)
            },
        },
        None => if resume {
            Ok(newest)
        } else {
            Ok(None)
        },
    }
}

/// A session that is asked for by name is used only under a name that is safe as a file name.
pub proof fn law_asked_session_is_valid(
    asked: Seq<char>,
    resume: bool,
    newest: Option<Seq<char>>,
    id: Seq<char>,
)
    requires
        session_choice(Some(asked), resume, newest) == Ok::<Option<Seq<char>>, Seq<char>>(Some(id)),
    ensures
        id == asked,
        session::valid_id(id),
{
}

/// The session of this invocation: the value of the variable, unless it is empty.
pub open spec fn active_session_of(var: Option<Seq<char>>) -> Option<Seq<char>> {
    match var {
        Some(id) => if id.len() > 0 {
            Some(id)
        } else {
            None
        },
        None => None,
    }
}

/// The session of this invocation. `var` is the value of `LAZAR_SESSION_ID`.
pub fn active_session(var: Option<&str>) -> (r: Option<String>)
    ensures
        opt_text(r) == active_session_of(tools::var_text(var)),
{
    match var {
        Some(id) => if id.is_empty() {
            None
        } else {
            Some(owned(id))
        },
        None => None,
    }
}

/// The log event on the messages of earlier turns.
pub open spec fn continuation_log(id: Seq<char>, loaded: nat) -> json::JsonView {
    json::object_of(
        seq![
            ("kind"@, json::JsonView::Str("session_continuation"@)),
            ("session_id"@, json::JsonView::Str(id)),
            ("loaded_messages"@, json::JsonView::Unsigned(loaded as u64)),
        ],
    )
}

/// The log event on the messages of earlier turns.
pub fn session_continuation_log(id: &str, loaded: usize) -> (r: Json)
    ensures
        r@ == continuation_log(id@, loaded as nat),
{
    let built = ObjectBuilder::new().put_str("kind", "session_continuation").put_str(
        "session_id",
        id,
    ).put("loaded_messages", Json::Unsigned(loaded as u64));
    assert(built.entries() =~= seq![
        ("kind"@, json::JsonView::Str("session_continuation"@)),
        ("session_id"@, json::JsonView::Str(id@)),
        ("loaded_messages"@, json::JsonView::Unsigned(loaded as u64)),
    ]);
    built.done()
}

/// What the operator is told of the messages of earlier turns.
pub fn loaded_note(id: &str, loaded: usize) -> (r: String)
    ensures
        r@ == "[lazar] session="@ + id@ + " loaded "@ + numbers::decimal(loaded as nat)
            + " prior messages"@,
{
    let mut out = owned("[lazar] session=");
    out.append(id);
    out.append(" loaded ");
    out.append(size_text(loaded).as_str());
    out.append(" prior messages");
    out
}

/// The conversation that an invocation starts with: the earlier messages, and the prompt.
pub fn starting_messages(prior: Vec<Json>, prompt: &str) -> (r: Vec<Json>)
    ensures
        json::views(r@) == json::views(prior@).push(
            session::message("user"@, json::JsonView::Str(prompt@)),
        ),
{
    let mut out = prior;
    let m = make_message("user", &json_str(prompt));
    out.push(m);
    assert(json::views(out@) =~= json::views(prior@).push(m@));
    out
}

// ---------------------------------------------------------------------------
// The beginning
// ---------------------------------------------------------------------------

/// The payload of the hooks at the start and at the end of a session.
pub open spec fn session_payload_of(
    depth: u32,
    model: Seq<char>,
    prompt: Seq<char>,
    session_id: Option<Seq<char>>,
) -> json::JsonView {
    json::object_of(
        seq![
            ("depth"@, json::JsonView::Unsigned(depth as u64)),
            ("model"@, json::JsonView::Str(model)),
            ("prompt"@, json::JsonView::Str(prompt)),
            (
                "session_id"@,
                match session_id {
                    Some(id) => json::JsonView::Str(id),
                    None => json::JsonView::Null,
                },
            ),
        ],
    )
}

/// The payload of the hooks at the start and at the end of a session.
pub fn session_payload(depth: u32, model: &str, prompt: &str, session_id: &Option<String>) -> (r:
    Json)
    ensures
        r@ == session_payload_of(depth, model@, prompt@, opt_text(*session_id)),
{
    let built = ObjectBuilder::new().put("depth", Json::Unsigned(depth as u64)).put_str(
        "model",
        model,
    ).put_str("prompt", prompt).put("session_id", json_opt_str(session_id));
    let ghost id = opt_text(*session_id);
    assert(built.entries() =~= seq![
        ("depth"@, json::JsonView::Unsigned(depth as u64)),
        ("model"@, json::JsonView::Str(model@)),
        ("prompt"@, json::JsonView::Str(prompt@)),
        (
            "session_id"@,
            match id {
                Some(t) => json::JsonView::Str(t),
                None => json::JsonView::Null,
            },
        ),
    ]);
    built.done()
}

/// The payload of the hooks on a prompt.
pub open spec fn prompt_payload_of(depth: u32, prompt: Seq<char>) -> json::JsonView {
    json::object_of(
        seq![
            ("depth"@, json::JsonView::Unsigned(depth as u64)),
            ("prompt"@, json::JsonView::Str(prompt)),
        ],
    )
}

/// The payload of the hooks on a prompt.
pub fn prompt_payload(depth: u32, prompt: &str) -> (r: Json)
    ensures
        r@ == prompt_payload_of(depth, prompt@),
{
    let built = ObjectBuilder::new().put("depth", Json::Unsigned(depth as u64)).put_str(
        "prompt",
        prompt,
    );
    assert(built.entries() =~= seq![
        ("depth"@, json::JsonView::Unsigned(depth as u64)),
        ("prompt"@, json::JsonView::Str(prompt@)),
    ]);
    built.done()
}

/// What the hooks at the start and on the prompt add to the system prompt.
pub open spec fn context_of(
    start: Seq<hooks::ActionView>,
    prompt: Seq<hooks::ActionView>,
) -> Seq<char> {
    hooks::context_added(hooks::contexts_of(start), hooks::contexts_of(prompt))
}

/// What the hooks at the start and on the prompt add to the system prompt.
pub fn injected_context(start: &[HookResult], prompt: &[HookResult]) -> (r: String)
    ensures
        r@ == context_of(hooks::asked_actions(start@), hooks::asked_actions(prompt@)),
{
    let mut out = join_injected_contexts(start);
    add_context(&mut out, join_injected_contexts(prompt).as_str());
    out
}

/// The log event at the beginning of an invocation.
pub open spec fn start_log(depth: u32, model: Seq<char>) -> json::JsonView {
    json::object_of(
        seq![
            ("kind"@, json::JsonView::Str("invoke_start"@)),
            ("depth"@, json::JsonView::Unsigned(depth as u64)),
            ("model"@, json::JsonView::Str(model)),
        ],
    )
}

/// The log event at the beginning of an invocation.
pub fn invoke_start_log(depth: u32, model: &str) -> (r: Json)
    ensures
        r@ == start_log(depth, model@),
{
    let built = ObjectBuilder::new().put_str("kind", "invoke_start").put(
        "depth",
        Json::Unsigned(depth as u64),
    ).put_str("model", model);
    assert(built.entries() =~= seq![
        ("kind"@, json::JsonView::Str("invoke_start"@)),
        ("depth"@, json::JsonView::Unsigned(depth as u64)),
        ("model"@, json::JsonView::Str(model@)),
    ]);
    built.done()
}

/// The log event on a prompt.
pub open spec fn prompt_log(prompt: Seq<char>) -> json::JsonView {
    json::object_of(
        seq![
            ("kind"@, json::JsonView::Str("user"@)),
            ("content"@, json::JsonView::Str(prompt)),
        ],
    )
}

/// The log event on a prompt.
pub fn user_log(prompt: &str) -> (r: Json)
    ensures
        r@ == prompt_log(prompt@),
{
    let built = ObjectBuilder::new().put_str("kind", "user").put_str("content", prompt);
    assert(built.entries() =~= seq![
        ("kind"@, json::JsonView::Str("user"@)),
        ("content"@, json::JsonView::Str(prompt@)),
    ]);
    built.done()
}

/// The event that is shown at the beginning of an invocation.
pub open spec fn start_event(depth: u32, model: Seq<char>, prompt: Seq<char>) -> json::JsonView {
    json::object_of(
        seq![
            ("type"@, json::JsonView::Str("invoke_start"@)),
            ("depth"@, json::JsonView::Unsigned(depth as u64)),
            ("model"@, json::JsonView::Str(model)),
            ("prompt"@, json::JsonView::Str(prompt)),
        ],
    )
}

/// The event that is shown at the beginning of an invocation.
pub fn invoke_start_event(depth: u32, model: &str, prompt: &str) -> (r: Json)
    ensures
        r@ == start_event(depth, model@, prompt@),
{
    let built = ObjectBuilder::new().put_str("type", "invoke_start").put(
        "depth",
        Json::Unsigned(depth as u64),
    ).put_str("model", model).put_str("prompt", prompt);
    assert(built.entries() =~= seq![
        ("type"@, json::JsonView::Str("invoke_start"@)),
        ("depth"@, json::JsonView::Unsigned(depth as u64)),
        ("model"@, json::JsonView::Str(model@)),
        ("prompt"@, json::JsonView::Str(prompt@)),
    ]);
    built.done()
}

/// What the operator is told at the beginning of an invocation.
pub fn invoke_start_note(depth: u32, model: &str) -> (r: String)
    ensures
        r@ == "[lazar] invoke_start depth="@ + numbers::decimal(depth as nat) + " model="@ + model@,
{
    let mut out = owned("[lazar] invoke_start depth=");
    out.append(decimal_text(depth as u128).as_str());
    out.append(" model=");
    out.append(model);
    out
}

/// The event on an error, where events are shown.
pub fn stream_error_event(format: OutputFormat, message: &str) -> (r: Option<Json>)
    ensures
        match r {
            Some(e) => format == OutputFormat::StreamJson && e@ == sse::error_event(message@),
            None => format != OutputFormat::StreamJson,
        },
{
    if format == OutputFormat::StreamJson {
        Some(make_error_event(message))
    } else {
        None
    }
}

/// What keeps a request from being answered.
#[derive(Clone, Copy, Debug, PartialEq, Eq, Structural)]
pub enum RequestFailure {
    /// There is no client.
    Client,
    /// The request could not be sent.
    Send,
}

/// What is said of a request that was not answered.
pub fn request_failure(failure: RequestFailure, message: &str) -> (r: String)
    ensures
        r@ == (match failure {
            RequestFailure::Client => "reqwest client build failed: "@,
            RequestFailure::Send => "API request failed: "@,
        }) + message@,
{
    let mut out = owned(
        match failure {
            RequestFailure::Client => "reqwest client build failed: ",
            RequestFailure::Send => "API request failed: ",
        },
    );
    out.append(message);
    out
}

/// What is said of a request that was answered with an error.
pub fn rejection(status: &str, body: &str) -> (r: String)
    ensures
        r@ == "API "@ + status@ + ": "@ + body@,
{
    let mut out = owned("API ");
    out.append(status);
    out.append(": ");
    out.append(body);
    out
}

// ---------------------------------------------------------------------------
// The end of a session
// ---------------------------------------------------------------------------

/// How a session ended, as far as that is known.
#[verifier::ext_equal]
pub struct SessionEndView {
    /// How deep the invocation is nested.
    pub depth: u32,
    /// The payload without the status.
    pub base: json::JsonView,
    /// The session went well.
    pub ok: bool,
    /// What went wrong.
    pub error: Option<Seq<char>>,
    /// The hooks were fired.
    pub fired: bool,
}

/// The payload of the hooks at the end of a session.
pub open spec fn end_payload(s: SessionEndView) -> json::JsonView {
    let stated = s.base.with(
        "status"@,
        json::JsonView::Str(
            if s.ok {
                "ok"@
            } else {
                "error"@
            },
        ),
    );
    match s.error {
        Some(e) => stated.with("error"@, json::JsonView::Str(e)),
        None => stated,
    }
}

/// The payload to fire the hooks with, if they are to be fired: once, and only at the top level.
pub open spec fn ending(s: SessionEndView) -> Option<json::JsonView> {
    if s.fired || s.depth != 0 {
        None
    } else {
        Some(end_payload(s))
    }
}

/// How a session ended. Until it is known to have gone well, it counts as one that failed.
pub struct SessionEnd {
    depth: u32,
    base: Json,
    ok: bool,
    error: Option<String>,
    fired: bool,
}

impl View for SessionEnd {
    type V = SessionEndView;

    closed spec fn view(&self) -> SessionEndView {
        SessionEndView {
            depth: self.depth,
            base: self.base@,
            ok: self.ok,
            error: opt_text(self.error),
            fired: self.fired,
        }
    }
}

impl SessionEnd {
    /// A session that has not gone well yet.
    pub fn new(depth: u32, base: Json) -> (r: SessionEnd)
        ensures
            r@ == (SessionEndView { depth, base: base@, ok: false, error: None, fired: false }),
    {
        SessionEnd { depth, base, ok: false, error: None, fired: false }
    }

    /// The session went well.
    pub fn mark_ok(&mut self)
        ensures
            final(self)@ == (SessionEndView { ok: true, ..old(self)@ }),
    {
        self.ok = true;
    }

    /// The session failed.
    pub fn mark_error(&mut self, message: &str)
        ensures
            final(self)@ == (SessionEndView { ok: false, error: Some(message@), ..old(self)@ }),
    {
        self.ok = false;
        self.error = Some(owned(message));
    }

    /// The payload to fire the hooks with, if they are to be fired. After this they are not.
    pub fn finish(&mut self) -> (r: Option<Json>)
        ensures
            match r {
                Some(p) => ending(old(self)@) == Some(p@),
                None => ending(old(self)@) is None,
            },
            final(self)@ == (SessionEndView { fired: true, ..old(self)@ }),
    {
        if self.fired {
            return None;
        }
        self.fired = true;
        if self.depth != 0 {
            return None;
        }
        let mut payload = self.base.dup();
        payload.set(
            "status",
            json_str(
                if self.ok {
                    "ok"
                } else {
                    "error"
                },
            ),
        );
        match &self.error {
            Some(e) => {
                payload.set("error", json_str(e.as_str()));
            },
            None => {},
        }
        Some(payload)
    }
}

/// The hooks at the end of a session fire at most once, whatever happens in between, and never
/// for a nested invocation.
pub proof fn law_session_ends_once(s: SessionEndView, later: SessionEndView)
    ensures
        later.fired ==> ending(later) is None,
        ending(SessionEndView { fired: true, ..s }) is None,
        s.depth != 0 ==> ending(s) is None,
        s.depth == 0 && !s.fired ==> ending(s) is Some,
{
}

// ---------------------------------------------------------------------------
// The heartbeat
// ---------------------------------------------------------------------------

/// The log event before the heartbeat.
pub fn tick_start_log() -> (r: Json)
    ensures
        r@ == json::object_of(seq![("kind"@, json::JsonView::Str("tick_start"@))]),
{
    let built = ObjectBuilder::new().put_str("kind", "tick_start");
    assert(built.entries() =~= seq![("kind"@, json::JsonView::Str("tick_start"@))]);
    built.done()
}

/// The payload of the hooks of the heartbeat.
pub fn tick_payload(ts_ms: u64) -> (r: Json)
    ensures
        r@ == json::object_of(seq![("ts_ms"@, json::JsonView::Unsigned(ts_ms))]),
{
    let built = ObjectBuilder::new().put("ts_ms", Json::Unsigned(ts_ms));
    assert(built.entries() =~= seq![("ts_ms"@, json::JsonView::Unsigned(ts_ms))]);
    built.done()
}

/// The log event after the heartbeat.
pub open spec fn tick_end_of(fired: nat, duration_ms: u64) -> json::JsonView {
    json::object_of(
        seq![
            ("kind"@, json::JsonView::Str("tick_end"@)),
            ("hooks_fired"@, json::JsonView::Unsigned(fired as u64)),
            ("duration_ms"@, json::JsonView::Unsigned(duration_ms)),
        ],
    )
}

/// The log event after the heartbeat.
pub fn tick_end_log(fired: usize, duration_ms: u64) -> (r: Json)
    ensures
        r@ == tick_end_of(fired as nat, duration_ms),
{
    let built = ObjectBuilder::new().put_str("kind", "tick_end").put(
        "hooks_fired",
        Json::Unsigned(fired as u64),
    ).put("duration_ms", Json::Unsigned(duration_ms));
    assert(built.entries() =~= seq![
        ("kind"@, json::JsonView::Str("tick_end"@)),
        ("hooks_fired"@, json::JsonView::Unsigned(fired as u64)),
        ("duration_ms"@, json::JsonView::Unsigned(duration_ms)),
    ]);
    built.done()
}

/// What the operator is told after the heartbeat.
pub fn tick_end_note(fired: usize, duration_ms: u128) -> (r: String)
    ensures
        r@ == "[lazar] tick_end hooks_fired="@ + numbers::decimal(fired as nat) + " duration="@
            + numbers::decimal(duration_ms as nat) + "ms"@,
{
    let mut out = owned("[lazar] tick_end hooks_fired=");
    out.append(size_text(fired).as_str());
    out.append(" duration=");
    out.append(decimal_text(duration_ms).as_str());
    out.append("ms");
    out
}

/// What the operator is told of a hook of the heartbeat.
pub fn tick_hook_note(result: &HookResult) -> (r: String)
    ensures
        r@ == "[lazar] tick_hook script="@ + result.script@ + " exit="@ + numbers::signed_decimal(
            result.exit_code as int,
        ) + " duration="@ + numbers::decimal(result.duration_ms as nat) + "ms timed_out="@ + (
        if result.timed_out {
            "true"@
        } else {
            "false"@
        }),
{
    let mut out = owned("[lazar] tick_hook script=");
    out.append(result.script.as_str());
    out.append(" exit=");
    out.append(signed_text(result.exit_code).as_str());
    out.append(" duration=");
    out.append(decimal_text(result.duration_ms).as_str());
    out.append("ms timed_out=");
    out.append(
        if result.timed_out {
            "true"
        } else {
            "false"
        },
    );
    out
}

} // verus!
