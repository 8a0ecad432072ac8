//! What the model is told: the system prompt, the tool, and the request.

use vstd::prelude::*;

use crate::json;
use crate::json::{json_array, json_str, Json, ObjectBuilder};
use crate::numbers;
use crate::numbers::decimal_text;
use crate::paths;
use crate::paths::join_path;
use crate::text;
use crate::text::{chars_of, owned, string_of, strip_end_chars, CharClass};
use crate::tools;

verus! {

// ---------------------------------------------------------------------------
// Before the first request
// ---------------------------------------------------------------------------

/// How deep an invocation may be nested.
pub const MAX_DEPTH: u32 = 5;

/// The version of the API.
pub const ANTHROPIC_VERSION: &'static str = "2023-06-01";

/// Where the API is, where nothing is set.
pub const DEFAULT_BASE_URL: &'static str = "https://api.anthropic.com";

/// Why an invocation cannot start, if it cannot.
pub open spec fn start_error(api_key_set: bool, depth: nat) -> Option<Seq<char>> {
    if !api_key_set {
        Some("ANTHROPIC_API_KEY is not set"@)
    } else if depth > MAX_DEPTH {
        Some(
            "recursion depth "@ + numbers::decimal(depth) + " exceeds max "@ + numbers::decimal(
                MAX_DEPTH as nat,
            ),
        )
    } else {
        None
    }
}

/// An invocation can start: it has a key, and is not nested too deeply.
pub fn check_start(api_key_set: bool, depth: u32) -> (r: Result<(), String>)
    ensures
        match r {
            Ok(_) => start_error(api_key_set, depth as nat) is None,
            Err(e) => start_error(api_key_set, depth as nat) == Some(e@),
        },
{
    if !api_key_set {
        return Err(owned("ANTHROPIC_API_KEY is not set"));
    }
    if depth > MAX_DEPTH {
        let mut e = owned("recursion depth ");
        e.append(decimal_text(depth as u128).as_str());
        e.append(" exceeds max ");
        e.append(decimal_text(MAX_DEPTH as u128).as_str());
        return Err(e);
    }
    Ok(())
}

/// The address that requests go to.
pub open spec fn api_url_of(base: Option<Seq<char>>) -> Seq<char> {
    text::strip_end(
        match base {
            Some(b) => b,
            None => DEFAULT_BASE_URL@,
        },
        CharClass::Slash,
    ) + "/v1/messages"@
}

/// The address that requests go to. `base` is the value of `ANTHROPIC_BASE_URL`.
pub fn api_url(base: Option<&str>) -> (r: String)
    ensures
        r@ == api_url_of(tools::var_text(base)),
{
    let b: &str = match base {
        Some(b) => b,
        None => DEFAULT_BASE_URL,
    };
    let chars = chars_of(b);
    let mut out = string_of(strip_end_chars(chars.as_slice(), CharClass::Slash));
    out.append("/v1/messages");
    out
}

/// The model: the one asked for, the one that is set, or the default.
pub open spec fn model_of(
    asked: Option<Seq<char>>,
    var: Option<Seq<char>>,
    default: Seq<char>,
) -> Seq<char> {
    match asked {
        Some(m) => m,
        None => match var {
            Some(m) => m,
            None => default,
        },
    }
}

/// The model. `var` is the value of `LAZAR_MODEL`.
pub fn choose_model(asked: Option<&str>, var: Option<&str>, default: &str) -> (r: String)
    ensures
        r@ == model_of(tools::var_text(asked), tools::var_text(var), default@),
{
    match asked {
        Some(m) => owned(m),
        None => match var {
            Some(m) => owned(m),
            None => owned(default),
        },
    }
}

// ---------------------------------------------------------------------------
// The system prompt
// ---------------------------------------------------------------------------

/// Who the agent is.
pub const INTRO: &'static str = "You are lazar, a self-evolving agent.\n\
    \n\
    You have ONE tool: execute(command). It runs a bash command through sandbox-exec and \
    returns stdout+stderr+exit code.\n\
    \n\
    ARCHITECTURE\n\
    Your home is ";

/// What its home holds.
pub const LAYOUT: &'static str = ". Inside it:\n\
    - bin/   and src/   are READ-ONLY (the immutable kernel). You may `cat` them to study \
    yourself; writes are blocked by the OS.\n\
    - skills/  your \"being\" — capabilities you can read and grow.\n\
    - hooks/   user-controlled lifecycle scripts. The kernel fires them at session-start, \
    user-prompt, pre-tool, post-tool, session-end, log-rotation, agent-stop, and tick. Drop \
    scripts into hooks/<event>.d/. You may read these but do not modify hooks the user \
    installed without being asked. See hooks/README.md for the protocol.\n\
    - memory/  durable notes (managed via the memory skill).\n\
    - workspace/  scratchpad and your cwd (write freely).\n\
    - logs/stream.jsonl  the canonical event stream (see CONTEXT).\n\
    \n\
    You evolve by writing skills, never by modifying your runner. If you need a capability \
    you lack, write a new SKILL.md under ";

/// Where skills are listed.
pub const SKILL_ENTRY: &'static str = "/<name>/ and append a one-line entry to ";

/// What it knows of earlier conversations.
pub const CONTEXT_RULES: &'static str = "/INDEX.md.\n\
    \n\
    CONTEXT (this is important)\n\
    By default, each `lazar -p` invocation starts with NO prior messages — your \
    conversational context is just this prompt and the system prompt.\n\
    \n\
    EXCEPTION: if the operator passed --session <id> or --resume, prior turns from a \
    session log have been prepended to your message array. You CAN see what was said before \
    in this conversation. Use that continuity to resolve referential prompts (\"yes\", \"do \
    that\", \"fine\") against the actual prior turn instead of inferring from recent tool \
    output.\n\
    \n\
    RECURSION FOR REFERENTIAL PROMPTS (use this when the operator forgot --session)\n\
    If you receive a short, ambiguous, or referential prompt (\"yes\", \"do that\", \"ok\", \
    \"fine\", \"continue\") AND you have no prior messages in this invocation (no \
    --session/--resume was passed), DO NOT infer the referent from recent tool output. That \
    fill-in pattern is the documented #1 source of \"executes the wrong thing confidently\" \
    errors. Instead:\n\
    \n\
    1. PREFER asking the operator a one-line clarifying question and ending your turn. \
    Confident-but-wrong is worse than confirming.\n\
    \n\
    2. OR, if you genuinely think you can disambiguate by reading the most recent session, \
    recurse on yourself with --resume:\n\
    execute `lazar --resume -p \"<the same referential prompt>\" --output-format text`\n\
    The nested call inherits the most recent session log and has real conversation history. \
    Use its answer as your own. This costs an API call but converts a hallucination into a \
    real answer.\n\
    \n\
    Note: nested `lazar -p` calls require LAZAR_TOOL_INHERIT_ANTHROPIC_API_KEY=1; if \
    recursion fails with a missing-key error, fall back to (1) — ask the operator. Do NOT \
    silently guess.\n\
    \n\
    BUT every prompt, response, tool call, and tool result you (and past-you) ever produced \
    is appended as JSONL to:\n";

/// How it treats the log.
pub const LOG_HYGIENE: &'static str = "/logs/stream.jsonl\n\
    \n\
    This is your \"infinite memory\" log. The kernel records but does NOT auto-load — \
    reading and hygiene are skill territory.\n\
    \n\
    CRITICAL HYGIENE\n\
    - BEFORE reading the log for the first time in a session, read \
    _meta/load-context/SKILL.md and use its bounded recipes. NEVER `cat` the log — it can \
    be MB+ and will exceed your context window (the API will reject the request).\n\
    - The log auto-rotates at LAZAR_LOG_MAX_BYTES (default ~10MB). Run _meta/log-rotation \
    only when you want richer archive summaries. A cheap size check at session start is \
    good hygiene: `wc -c ";

/// How it reads the log.
pub const LOAD_RECIPE: &'static str = "/logs/stream.jsonl`\n\
    \n\
    If a prompt is referential (\"yes\", \"do that\", \"continue\", \"as I said\"), use \
    load-context. The default recipe is:\n\
    tail -n 200 ";

/// How it studies itself.
pub const SELF_DISCOVERY: &'static str = "/logs/stream.jsonl | tail -c 50000\n\
    The log format is one JSON object per line with fields like {kind, ts_ms, content, \
    command, ...}; jq is your friend.\n\
    \n\
    SELF-DISCOVERY\n\
    You can read anywhere in the filesystem, including your own kernel source at ";

/// What it cannot change.
pub const KERNEL_BINARY: &'static str = "/src/ and the binary at ";

/// How it starts a task.
pub const FIRST_MOVE: &'static str = "/bin/. Study yourself when useful. If you perceive a kernel-level limitation, you \
    cannot change the kernel — but you can almost always work around it by writing a skill. \
    Reach for that move before assuming something is impossible.\n\
    \n\
    FIRST MOVE\n\
    For any non-trivial task, start with: cat ";

/// How it calls itself.
pub const RECURSION: &'static str = "/INDEX.md\n\
    Then read the relevant SKILL.md before acting. Skills carry the hard-won detail you \
    need.\n\
    \n\
    RECURSION\n\
    Tool subprocesses do not inherit ANTHROPIC_API_KEY by default. If the operator set \
    LAZAR_TOOL_INHERIT_ANTHROPIC_API_KEY=1, nested calls can use: execute `LAZAR_DEPTH=";

/// How deep it may call itself.
pub const DEPTH_CAP: &'static str = " lazar -p \"...\"`. Otherwise treat nested `lazar -p` API calls as unavailable and ask \
    the user to re-run with that opt-in if recursion is essential.\n\
    Recursion depth is capped at ";

/// How deep it is.
pub const CURRENT_DEPTH: &'static str = "; current depth is ";

/// What it may write to.
pub const BOUNDARIES: &'static str = ".\n\
    \n\
    BOUNDARIES\n\
    Writes are limited by sandbox-exec to skills/, memory/, workspace/, logs/, and /tmp. Do \
    not try to modify bin/ or src/, dotfiles, ssh keys, or anything outside ~/lazar. You \
    will see 'Operation not permitted' if you try; learn from the failure and route around \
    it via a skill.";

/// The system prompt of an agent with the given home and depth.
pub open spec fn base_prompt(home: Seq<char>, depth: nat) -> Seq<char> {
    let skills = paths::joined(home, "skills"@);
    INTRO@ + home + LAYOUT@ + skills + SKILL_ENTRY@ + skills + CONTEXT_RULES@ + home + LOG_HYGIENE@ + home + LOAD_RECIPE@ + home + SELF_DISCOVERY@ + home + KERNEL_BINARY@ + home + FIRST_MOVE@ + skills + RECURSION@ + numbers::decimal(depth + 1) + DEPTH_CAP@ + numbers::decimal(MAX_DEPTH as nat) + CURRENT_DEPTH@ + numbers::decimal(depth) + BOUNDARIES@
}

/// The system prompt, with what the hooks added to it.
pub open spec fn system_prompt_of(home: Seq<char>, depth: nat, context: Seq<char>) -> Seq<char> {
    if context.len() == 0 {
        base_prompt(home, depth)
    } else {
        base_prompt(home, depth) + "\n\nRUNTIME CONTEXT (from hooks)\n"@ + context
    }
}

/// The system prompt, with what the hooks added to it.
pub fn system_prompt(home: &str, depth: u32, context: &str) -> (r: String)
    ensures
        r@ == system_prompt_of(home@, depth as nat, context@),
{
    let skills = join_path(home, "skills");
    let mut out = owned(INTRO);
    out.append(home);
    out.append(LAYOUT);
    out.append(skills.as_str());
    out.append(SKILL_ENTRY);
    out.append(skills.as_str());
    out.append(CONTEXT_RULES);
    out.append(home);
    out.append(LOG_HYGIENE);
    out.append(home);
    out.append(LOAD_RECIPE);
    out.append(home);
    out.append(SELF_DISCOVERY);
    out.append(home);
    out.append(KERNEL_BINARY);
    out.append(home);
    out.append(FIRST_MOVE);
    out.append(skills.as_str());
    out.append(RECURSION);
    out.append(decimal_text(depth as u128 + 1).as_str());
    out.append(DEPTH_CAP);
    out.append(decimal_text(MAX_DEPTH as u128).as_str());
    out.append(CURRENT_DEPTH);
    out.append(decimal_text(depth as u128).as_str());
    out.append(BOUNDARIES);
    if !context.is_empty() {
        out.append("\n\nRUNTIME CONTEXT (from hooks)\n");
        out.append(context);
    }
    out
}

// ---------------------------------------------------------------------------
// The tool and the request
// ---------------------------------------------------------------------------

/// What the model is told of the tool.
pub const TOOL_DESCRIPTION: &'static str = "Run a bash command. Returns stdout+stderr+exit code. \
    Recurse to yourself via `lazar -p`. Read skills via `cat`. \
    Self-modify by writing files under skills/.";

/// The schema of the command.
pub open spec fn command_schema() -> json::JsonView {
    json::object_of(
        seq![
            ("type"@, json::JsonView::Str("string"@)),
            ("description"@, json::JsonView::Str("Bash command to execute"@)),
        ],
    )
}

/// The schema of the tool's input.
pub open spec fn input_schema() -> json::JsonView {
    json::object_of(
        seq![
            ("type"@, json::JsonView::Str("object"@)),
            ("properties"@, json::object_of(seq![("command"@, command_schema())])),
            ("required"@, json::JsonView::Array(seq![json::JsonView::Str("command"@)])),
        ],
    )
}

/// The one tool that the model has.
pub open spec fn tool_definition() -> json::JsonView {
    json::object_of(
        seq![
            ("name"@, json::JsonView::Str("execute"@)),
            ("description"@, json::JsonView::Str(TOOL_DESCRIPTION@)),
            ("input_schema"@, input_schema()),
        ],
    )
}

/// The one tool that the model has.
pub fn execute_tool() -> (r: Json)
    ensures
        r@ == tool_definition(),
{
    let schema = ObjectBuilder::new().put_str("type", "string").put_str(
        "description",
        "Bash command to execute",
    );
    assert(schema.entries() =~= seq![
        ("type"@, json::JsonView::Str("string"@)),
        ("description"@, json::JsonView::Str("Bash command to execute"@)),
    ]);
    let properties = ObjectBuilder::new().put("command", schema.done());
    assert(properties.entries() =~= seq![("command"@, command_schema())]);
    let required: Vec<Json> = vec![json_str("command")];
    assert(json::views(required@) =~= seq![json::JsonView::Str("command"@)]);
    let input = ObjectBuilder::new().put_str("type", "object").put(
        "properties",
        properties.done(),
    ).put("required", json_array(required));
    assert(input.entries() =~= seq![
        ("type"@, json::JsonView::Str("object"@)),
        ("properties"@, json::object_of(seq![("command"@, command_schema())])),
        ("required"@, json::JsonView::Array(seq![json::JsonView::Str("command"@)])),
    ]);
    let built = ObjectBuilder::new().put_str("name", "execute").put_str(
        "description",
        TOOL_DESCRIPTION,
    ).put("input_schema", input.done());
    assert(built.entries() =~= seq![
        ("name"@, json::JsonView::Str("execute"@)),
        ("description"@, json::JsonView::Str(TOOL_DESCRIPTION@)),
        ("input_schema"@, input_schema()),
    ]);
    built.done()
}

/// How many tokens an answer may have.
pub const MAX_TOKENS: u64 = 8192;

/// The body of a request.
pub open spec fn request_body_of(model: Seq<char>, system: Seq<char>, messages: Seq<json::JsonView>) -> json::JsonView {
    json::object_of(
        seq![
            ("model"@, json::JsonView::Str(model)),
            ("max_tokens"@, json::JsonView::Unsigned(MAX_TOKENS)),
            ("system"@, json::JsonView::Str(system)),
            ("tools"@, json::JsonView::Array(seq![tool_definition()])),
            ("messages"@, json::JsonView::Array(messages)),
            ("stream"@, json::JsonView::Bool(true)),
        ],
    )
}

/// The body of a request.
pub fn request_body(model: &str, system: &str, messages: &Vec<Json>) -> (r: Json)
    ensures
        r@ == request_body_of(model@, system@, json::views(messages@)),
{
    let all: Vec<Json> = vec![execute_tool()];
    assert(json::views(all@) =~= seq![tool_definition()]);
    let built = ObjectBuilder::new().put_str("model", model).put(
        "max_tokens",
        Json::Unsigned(MAX_TOKENS),
    ).put_str("system", system).put("tools", json_array(all)).put(
        "messages",
        json_array(json::dup_all(messages)),
    ).put("stream", Json::Bool(true));
    assert(built.entries() =~= seq![
        ("model"@, json::JsonView::Str(model@)),
        ("max_tokens"@, json::JsonView::Unsigned(MAX_TOKENS)),
        ("system"@, json::JsonView::Str(system@)),
        ("tools"@, json::JsonView::Array(seq![tool_definition()])),
        ("messages"@, json::JsonView::Array(json::views(messages@))),
        ("stream"@, json::JsonView::Bool(true)),
    ]);
    built.done()
}

} // verus!
