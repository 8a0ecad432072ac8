//! What surrounds an invocation: where it lives, what it is given and what it leaves behind.

use vstd::prelude::*;

use crate::home;
use crate::hooks;
use crate::hooks::{ActionView, HookEvent};
use crate::invocation;
use crate::invocation::SessionEndView;
use crate::json::JsonView;
use crate::laws::fields;
use crate::laws::texts;
use crate::logs;
use crate::logs::{LogMeta, Rotation};
use crate::numbers;
use crate::offsets;
use crate::paths;
use crate::prompt;
use crate::sandbox;
use crate::sandbox::ToolVars;
use crate::session;
use crate::text;
use crate::tools;

verus! {

// ---------------------------------------------------------------------------
// The home directory
// ---------------------------------------------------------------------------

/// The home directory is the one that was set, and otherwise one below the user's.
pub proof fn law_home(set: Seq<char>, user: Seq<char>, any: Option<Seq<char>>)
    ensures
        set.len() > 0 ==> home::home_of(Some(set), any) == Some(set),
        home::home_of(None, Some(user)) == Some(paths::joined(user, "lazar"@)),
        home::home_of(Some(Seq::empty()), Some(user)) == Some(paths::joined(user, "lazar"@)),
        home::home_of(None, None) is None,
{
}

/// A reset needs an absolute path below the root that is not the user's own home, and then it may
/// go on.
pub proof fn law_reset(path: Seq<char>, user: Seq<char>)
    ensures
        home::reset_error(path, Some(user)) is None <==> {
            &&& path.len() > 0
            &&& path[0] == '/'
            &&& home::path_steps(path).len() > 0
            &&& !(user.len() > 0 && user[0] == '/' && home::path_steps(user) == home::path_steps(
                path,
            ))
        },
        home::reset_error(path, None) is None <==> path.len() > 0 && path[0] == '/'
            && home::path_steps(path).len() > 0,
{
    lemma_absolute(path);
    lemma_absolute(user);
}

proof fn lemma_absolute(path: Seq<char>)
    ensures
        home::is_absolute(path) <==> path.len() > 0 && path[0] == '/',
{
    reveal_strlit("/");
    assert("/"@ =~= seq!['/']);
    if path.len() > 0 {
        assert(path.subrange(0, 1) =~= seq![path[0]]);
        assert(seq![path[0]] == seq!['/'] ==> seq![path[0]][0] == '/');
    }
}

/// The steps of a path are its names: empty ones and the one that stands for the directory itself
/// lead nowhere.
pub proof fn law_path_steps(name: Seq<char>, rest: Seq<char>)
    requires
        texts::lacks_char(name, '/'),
    ensures
        home::path_steps(Seq::empty()).len() == 0,
        name.len() == 0 || name == "."@ ==> home::path_steps(name.push('/') + rest)
            == home::path_steps(rest),
        name.len() > 0 && name != "."@ ==> home::path_steps(name.push('/') + rest) == seq![name]
            + home::path_steps(rest),
        name.len() > 0 && name != "."@ ==> home::path_steps(name) == seq![name],
{
    texts::law_pieces(name, '/', rest);
    let none = Seq::<char>::empty();
    texts::law_pieces(none, '/', rest);
    lemma_real_steps(name, text::pieces(rest, '/'));
    lemma_real_steps(none, Seq::empty());
    lemma_real_steps(name, Seq::empty());
    assert(seq![none] + Seq::<Seq<char>>::empty() =~= seq![none]);
    assert(seq![name] + Seq::<Seq<char>>::empty() =~= seq![name]);
}

proof fn lemma_real_steps(first: Seq<char>, rest: Seq<Seq<char>>)
    ensures
        home::real_steps(seq![first] + rest) == (if first.len() == 0 || first == "."@ {
            home::real_steps(rest)
        } else {
            seq![first] + home::real_steps(rest)
        }),
    decreases rest.len(),
{
    let all = seq![first] + rest;
    if rest.len() == 0 {
        let none = Seq::<Seq<char>>::empty();
        assert(all.drop_last() =~= none);
        assert(all.last() == first);
        assert(home::real_steps(none) == none);
        assert(rest =~= none);
        assert(none.push(first) =~= seq![first] + none);
    } else {
        assert(all.drop_last() =~= seq![first] + rest.drop_last());
        assert(all.last() == rest.last());
        lemma_real_steps(first, rest.drop_last());
        assert(home::real_steps(all) =~= if first.len() == 0 || first == "."@ {
            home::real_steps(rest)
        } else {
            seq![first] + home::real_steps(rest)
        });
    }
}

/// Only a plain yes confirms.
pub proof fn law_confirms(answer: Seq<char>)
    ensures
        home::confirms(answer) <==> {
            ||| text::trim(answer) == "y"@
            ||| text::trim(answer) == "Y"@
            ||| text::trim(answer) == "yes"@
        },
{
}

// ---------------------------------------------------------------------------
// The environment of commands and hooks
// ---------------------------------------------------------------------------

/// The variable has the value.
pub open spec fn env_has(
    env: Seq<(Seq<char>, Seq<char>)>,
    name: Seq<char>,
    value: Seq<char>,
) -> bool {
    env.contains((name, value))
}

proof fn lemma_env(
    env: Seq<(Seq<char>, Seq<char>)>,
    i: int,
    name: Seq<char>,
    value: Seq<char>,
)
    requires
        0 <= i < env.len(),
        env[i] == (name, value),
    ensures
        env_has(env, name, value),
{
}

/// A command finds the directories of the home, the depth below the current one, and the terminal
/// and the language of the caller.
pub proof fn law_tool_env(lazar: Seq<char>, vars: ToolVars, depth: u32)
    ensures
        ({
            let env = sandbox::tool_env(lazar, vars);
            &&& env_has(env, "HOME"@, lazar)
            &&& env_has(env, "LAZAR_HOME"@, lazar)
            &&& env_has(env, "LAZAR_SKILLS"@, lazar + "/skills"@)
            &&& env_has(env, "LAZAR_MEMORY"@, lazar + "/memory"@)
            &&& env_has(env, "LAZAR_WORKSPACE"@, lazar + "/workspace"@)
            &&& env_has(env, "LAZAR_LOGS"@, lazar + "/logs"@)
            &&& env_has(env, "LAZAR_TOOL_ENV"@, "1"@)
            &&& vars.depth is None ==> env_has(env, "LAZAR_DEPTH"@, numbers::decimal(1))
            &&& vars.depth is Some && (vars.depth->0)@ == numbers::decimal(depth as nat) && depth
                < u32::MAX ==> env_has(
                env,
                "LAZAR_DEPTH"@,
                numbers::decimal((depth + 1) as nat),
            )
            &&& vars.term is Some ==> env_has(env, "TERM"@, (vars.term->0)@)
            &&& vars.term is None ==> env_has(env, "TERM"@, "xterm-256color"@)
            &&& vars.lang is Some ==> env_has(env, "LANG"@, (vars.lang->0)@)
            &&& vars.lang is None ==> env_has(env, "LANG"@, "en_US.UTF-8"@)
            &&& vars.model is Some ==> env_has(env, "LAZAR_MODEL"@, (vars.model->0)@)
        }),
{
    let env = sandbox::tool_env(lazar, vars);
    numbers::law_decimal_reads_back(depth as nat, u32::MAX as int);
    lemma_env(env, 1, "HOME"@, lazar);
    lemma_env(env, 2, "LAZAR_HOME"@, lazar);
    lemma_env(env, 3, "LAZAR_SKILLS"@, lazar + "/skills"@);
    lemma_env(env, 4, "LAZAR_MEMORY"@, lazar + "/memory"@);
    lemma_env(env, 5, "LAZAR_WORKSPACE"@, lazar + "/workspace"@);
    lemma_env(env, 6, "LAZAR_LOGS"@, lazar + "/logs"@);
    lemma_env(env, 7, "LAZAR_TOOL_ENV"@, "1"@);
    lemma_env(env, 8, "LAZAR_DEPTH"@, env[8].1);
    lemma_env(env, 9, "TERM"@, env[9].1);
    lemma_env(env, 10, "LANG"@, env[10].1);
    if vars.model is Some {
        lemma_env(env, 11, "LAZAR_MODEL"@, (vars.model->0)@);
    }
}

/// Where a command may have the key, it has the key and the address that it is for.
pub proof fn law_tool_key(lazar: Seq<char>, vars: ToolVars)
    requires
        tools::flag_on(sandbox::opt_text(vars.inherit_key)),
    ensures
        ({
            let env = sandbox::tool_env(lazar, vars);
            &&& vars.api_key is Some ==> env_has(env, "ANTHROPIC_API_KEY"@, (vars.api_key->0)@)
            &&& vars.base_url is Some ==> env_has(env, "ANTHROPIC_BASE_URL"@, (vars.base_url->0)@)
        }),
{
    let env = sandbox::tool_env(lazar, vars);
    let key = sandbox::key_env(vars);
    let d = env.len() - key.len();
    if vars.api_key is Some {
        assert(key[1] == ("ANTHROPIC_API_KEY"@, (vars.api_key->0)@));
        lemma_env(env, d + 1, "ANTHROPIC_API_KEY"@, (vars.api_key->0)@);
    }
    if vars.base_url is Some {
        assert(key.last() == ("ANTHROPIC_BASE_URL"@, (vars.base_url->0)@));
        lemma_env(env, env.len() - 1, "ANTHROPIC_BASE_URL"@, (vars.base_url->0)@);
    }
}

/// A hook finds its event, the size of its payload and the directories of the home.
pub proof fn law_hook_env(
    lazar: Seq<char>,
    event: HookEvent,
    payload: Seq<char>,
    term: Option<Seq<char>>,
    lang: Option<Seq<char>>,
)
    ensures
        ({
            let env = sandbox::hook_env(lazar, event, payload, term, lang);
            &&& env_has(env, "HOME"@, lazar)
            &&& env_has(env, "LAZAR_HOME"@, lazar)
            &&& env_has(env, "LAZAR_LOGS"@, lazar + "/logs"@)
            &&& env_has(env, "LAZAR_HOOK_EVENT"@, event.name())
            &&& env_has(
                env,
                "LAZAR_HOOK_PAYLOAD_LEN"@,
                numbers::decimal(offsets::bytes(payload).len()),
            )
        }),
{
    let env = sandbox::hook_env(lazar, event, payload, term, lang);
    lemma_env(env, 1, "HOME"@, lazar);
    lemma_env(env, 2, "LAZAR_HOME"@, lazar);
    lemma_env(env, 6, "LAZAR_LOGS"@, lazar + "/logs"@);
    lemma_env(env, 7, "LAZAR_HOOK_EVENT"@, event.name());
    lemma_env(
        env,
        8,
        "LAZAR_HOOK_PAYLOAD_LEN"@,
        numbers::decimal(offsets::bytes(payload).len()),
    );
}

/// The sandbox gets the directories that may be written, then the profile, then the shell, and the
/// shell gets what is to be run, last and unchanged.
pub proof fn law_sandbox_args(lazar: Seq<char>, profile: Seq<char>, tail: Seq<Seq<char>>, i: int)
    ensures
        ({
            let args = sandbox::sandbox_args(lazar, profile, tail);
            let n = args.len() - tail.len();
            &&& n >= 3
            &&& 0 <= i < tail.len() ==> args[n + i] == tail[i]
            &&& args[n - 1] == "/bin/bash"@
            &&& args[n - 2] == profile
            &&& args[n - 3] == "-p"@
            &&& args.contains("SKILLS_PATH="@ + lazar + "/skills"@)
            &&& args.contains("MEMORY_PATH="@ + lazar + "/memory"@)
            &&& args.contains("WORKSPACE_PATH="@ + lazar + "/workspace"@)
            &&& args.contains("LOGS_PATH="@ + lazar + "/logs"@)
        }),
{
    let args = sandbox::sandbox_args(lazar, profile, tail);
    assert(args[1] == "SKILLS_PATH="@ + lazar + "/skills"@);
    assert(args[3] == "MEMORY_PATH="@ + lazar + "/memory"@);
    assert(args[5] == "WORKSPACE_PATH="@ + lazar + "/workspace"@);
    assert(args[7] == "LOGS_PATH="@ + lazar + "/logs"@);
}

// ---------------------------------------------------------------------------
// The log
// ---------------------------------------------------------------------------

/// A log that is larger than it may be is rotated; one that is not, or not there, is kept; and one
/// that is a link is left alone.
pub proof fn law_rotation(len: u64, max: u64)
    ensures
        logs::rotation_of(Some(LogMeta { is_symlink: false, len }), max) == Rotation::Rotate <==> len
            > max,
        logs::rotation_of(Some(LogMeta { is_symlink: false, len }), max) == Rotation::Keep <==> len
            <= max,
        logs::rotation_of(Some(LogMeta { is_symlink: true, len }), max) == Rotation::RefuseSymlink,
        logs::rotation_of(None, max) == Rotation::Keep,
{
}

/// The log may grow as large as is set, and to ten mebibytes otherwise.
pub proof fn law_log_size(n: u64, s: Seq<char>)
    ensures
        logs::max_bytes_of(Some(numbers::decimal(n as nat))) == n,
        logs::max_bytes_of(None) == 10_485_760,
        numbers::parsed_number(s, u64::MAX as int) is None ==> logs::max_bytes_of(Some(s))
            == 10_485_760,
{
    numbers::law_decimal_reads_back(n as nat, u64::MAX as int);
}

/// An event is logged as it is, with the time of logging.
pub proof fn law_stamped(m: Map<Seq<char>, JsonView>, ts_ms: u64, key: Seq<char>)
    ensures
        ({
            let r = logs::stamped(JsonView::Object(m), ts_ms);
            &&& fields::says(r, "ts_ms"@, JsonView::Unsigned(ts_ms))
            &&& m.contains_key(key) && key != "ts_ms"@ ==> fields::says(r, key, m[key])
            &&& !m.contains_key(key) && key != "ts_ms"@ ==> !r->Object_0.contains_key(key)
        }),
{
}

/// An event also goes to the log of the session, where there is one and the event is part of what a
/// session remembers.
pub proof fn law_goes_to_session(e: JsonView, id: Seq<char>)
    ensures
        id.len() > 0 ==> logs::goes_to_session(e, Some(id)) == session::mirrored(e),
        !logs::goes_to_session(e, Some(Seq::empty())),
        !logs::goes_to_session(e, None),
{
}

/// An archive is named after the time and the process, and after the attempt from the second on.
pub proof fn law_archive_name(nanos: nat, pid: nat, attempt: nat)
    ensures
        logs::archive_name_of(nanos, pid, 0) == "stream.jsonl."@ + numbers::decimal(nanos) + "."@
            + numbers::decimal(pid) + ".bak"@,
        attempt > 0 ==> logs::archive_name_of(nanos, pid, attempt) == "stream.jsonl."@
            + numbers::decimal(nanos) + "."@ + numbers::decimal(pid) + "."@ + numbers::decimal(
            attempt,
        ) + ".bak"@,
{
    let head = "stream.jsonl."@ + numbers::decimal(nanos) + "."@ + numbers::decimal(pid);
    assert(head + Seq::<char>::empty() =~= head);
    assert(head + ("."@ + numbers::decimal(attempt)) =~= head + "."@ + numbers::decimal(attempt));
}

/// The summary of an archive tells which archive it is about, its size and when it was made.
pub proof fn law_summary(summary: Seq<char>, archive: Seq<char>, size: nat, now_ms: nat)
    ensures
        text::begins_with(
            logs::summary_text_of(summary, archive, size, now_ms),
            "# log-summary "@ + summary + "\n\narchive: "@ + archive + "\nsize_bytes: "@
                + numbers::decimal(size) + "\nrotated_at_unix_ms: "@ + numbers::decimal(now_ms),
        ),
{
    let all = logs::summary_text_of(summary, archive, size, now_ms);
    let head = "# log-summary "@ + summary + "\n\narchive: "@ + archive + "\nsize_bytes: "@
        + numbers::decimal(size) + "\nrotated_at_unix_ms: "@ + numbers::decimal(now_ms);
    assert(all.subrange(0, head.len() as int) =~= head);
}

/// The hooks on a rotation are told the archive, its size and its summary.
pub proof fn law_rotation_payload(archive: Seq<char>, size: u64, summary: Option<Seq<char>>)
    ensures
        ({
            let r = logs::rotation_payload_of(archive, size, summary);
            &&& fields::tells(r, "archive"@, archive)
            &&& fields::says(r, "size_bytes"@, JsonView::Unsigned(size))
            &&& summary is Some ==> fields::tells(r, "summary"@, summary->0)
            &&& summary is None ==> fields::says(r, "summary"@, JsonView::Null)
        }),
{
    reveal_strlit("archive");
    reveal_strlit("size_bytes");
    reveal_strlit("summary");
    assert("archive"@.len() == 7 && "archive"@[0] == 'a');
    assert("summary"@.len() == 7 && "summary"@[0] == 's');
    assert("size_bytes"@.len() == 10);
    let e = seq![
        ("archive"@, JsonView::Str(archive)),
        ("size_bytes"@, JsonView::Unsigned(size)),
        (
            "summary"@,
            match summary {
                Some(s) => JsonView::Str(s),
                None => JsonView::Null,
            },
        ),
    ];
    fields::lemma_entry(e, 0);
    fields::lemma_entry(e, 1);
    fields::lemma_entry(e, 2);
}

// ---------------------------------------------------------------------------
// The start and the end of an invocation
// ---------------------------------------------------------------------------

/// An invocation starts exactly where there is a key and it is nested no deeper than five.
pub proof fn law_start(key_set: bool, depth: nat)
    ensures
        prompt::start_error(key_set, depth) is None <==> key_set && depth <= 5,
{
}

/// The model is the one that was asked for, else the one that is set, else the default.
pub proof fn law_model(
    asked: Seq<char>,
    set: Seq<char>,
    default: Seq<char>,
    any: Option<Seq<char>>,
)
    ensures
        prompt::model_of(Some(asked), any, default) == asked,
        prompt::model_of(None, Some(set), default) == set,
        prompt::model_of(None, None, default) == default,
{
}

/// Requests go below the address that is set, however many slashes it ends in.
pub proof fn law_api_url(base: Seq<char>)
    ensures
        base.len() > 0 && base.last() != '/' ==> prompt::api_url_of(Some(base)) == base
            + "/v1/messages"@,
        prompt::api_url_of(Some(base.push('/'))) == prompt::api_url_of(Some(base)),
        prompt::api_url_of(None) == prompt::api_url_of(Some("https://api.anthropic.com"@)),
{
    assert(base.push('/').drop_last() =~= base);
}

/// What hooks add to the context ends the system prompt; without that the prompt is the same for
/// every invocation of one home and depth.
pub proof fn law_system_prompt(home: Seq<char>, depth: nat, context: Seq<char>)
    ensures
        context.len() > 0 ==> prompt::system_prompt_of(home, depth, context)
            == prompt::system_prompt_of(home, depth, Seq::empty())
            + "\n\nRUNTIME CONTEXT (from hooks)\n"@ + context,
{
}

/// The hooks of a session are told the depth, the model, the prompt and the session.
pub proof fn law_session_payload(depth: u32, model: Seq<char>, p: Seq<char>, id: Option<Seq<char>>)
    ensures
        ({
            let r = invocation::session_payload_of(depth, model, p, id);
            &&& fields::says(r, "depth"@, JsonView::Unsigned(depth as u64))
            &&& fields::tells(r, "model"@, model)
            &&& fields::tells(r, "prompt"@, p)
            &&& id is Some ==> fields::tells(r, "session_id"@, id->0)
            &&& id is None ==> fields::says(r, "session_id"@, JsonView::Null)
        }),
        ({
            let r = invocation::prompt_payload_of(depth, p);
            &&& fields::says(r, "depth"@, JsonView::Unsigned(depth as u64))
            &&& fields::tells(r, "prompt"@, p)
        }),
{
    fields::lemma_keys();
    reveal_strlit("session_id");
    assert("session_id"@.len() == 10);
    let a = seq![
        ("depth"@, JsonView::Unsigned(depth as u64)),
        ("model"@, JsonView::Str(model)),
        ("prompt"@, JsonView::Str(p)),
        (
            "session_id"@,
            match id {
                Some(id) => JsonView::Str(id),
                None => JsonView::Null,
            },
        ),
    ];
    let b = seq![("depth"@, JsonView::Unsigned(depth as u64)), ("prompt"@, JsonView::Str(p))];
    fields::lemma_entry(a, 0);
    fields::lemma_entry(a, 1);
    fields::lemma_entry(a, 2);
    fields::lemma_entry(a, 3);
    fields::lemma_entry(b, 0);
    fields::lemma_entry(b, 1);
}

/// What is logged and shown at the start: the depth, the model and the prompt.
pub proof fn law_start_is_told(depth: u32, model: Seq<char>, p: Seq<char>)
    ensures
        ({
            let log = invocation::start_log(depth, model);
            &&& fields::tells(log, "kind"@, "invoke_start"@)
            &&& fields::says(log, "depth"@, JsonView::Unsigned(depth as u64))
            &&& fields::tells(log, "model"@, model)
        }),
        ({
            let log = invocation::prompt_log(p);
            &&& fields::tells(log, "kind"@, "user"@)
            &&& fields::tells(log, "content"@, p)
        }),
        ({
            let e = invocation::start_event(depth, model, p);
            &&& fields::tells(e, "type"@, "invoke_start"@)
            &&& fields::says(e, "depth"@, JsonView::Unsigned(depth as u64))
            &&& fields::tells(e, "model"@, model)
            &&& fields::tells(e, "prompt"@, p)
        }),
{
    fields::lemma_keys();
    let a = seq![
        ("kind"@, JsonView::Str("invoke_start"@)),
        ("depth"@, JsonView::Unsigned(depth as u64)),
        ("model"@, JsonView::Str(model)),
    ];
    let b = seq![("kind"@, JsonView::Str("user"@)), ("content"@, JsonView::Str(p))];
    let c = seq![
        ("type"@, JsonView::Str("invoke_start"@)),
        ("depth"@, JsonView::Unsigned(depth as u64)),
        ("model"@, JsonView::Str(model)),
        ("prompt"@, JsonView::Str(p)),
    ];
    fields::lemma_entry(a, 0);
    fields::lemma_entry(a, 1);
    fields::lemma_entry(a, 2);
    fields::lemma_entry(b, 0);
    fields::lemma_entry(b, 1);
    fields::lemma_entry(c, 0);
    fields::lemma_entry(c, 1);
    fields::lemma_entry(c, 2);
    fields::lemma_entry(c, 3);
}

/// The session is the one that was asked for, if its id is valid, else the newest where that is to be
/// resumed, else none.
pub proof fn law_session_choice(
    asked: Seq<char>,
    resume: bool,
    newest: Option<Seq<char>>,
)
    ensures
        session::valid_id(asked) ==> invocation::session_choice(Some(asked), resume, newest) == Ok::<
            Option<Seq<char>>,
            Seq<char>,
        >(Some(asked)),
        !session::valid_id(asked) ==> invocation::session_choice(
            Some(asked),
            resume,
            newest,
        ) is Err,
        invocation::session_choice(None, true, newest) == Ok::<Option<Seq<char>>, Seq<char>>(
            newest,
        ),
        invocation::session_choice(None, false, newest) == Ok::<Option<Seq<char>>, Seq<char>>(
            None,
        ),
{
}

/// The context of an invocation is what the hooks at its start added, and then what the hooks on its
/// prompt did.
pub proof fn law_context(start: Seq<ActionView>, on_prompt: Seq<ActionView>)
    ensures
        ({
            let a = hooks::contexts_of(start);
            let b = hooks::contexts_of(on_prompt);
            let r = invocation::context_of(start, on_prompt);
            &&& a.len() == 0 ==> r == b
            &&& b.len() == 0 ==> r == a
            &&& a.len() > 0 && b.len() > 0 ==> r == a + "\n\n"@ + b
        }),
{
    let a = hooks::contexts_of(start);
    let b = hooks::contexts_of(on_prompt);
    if a.len() == 0 && b.len() == 0 {
        assert(a =~= b);
    }
}

/// The hooks at the end of a session are told what those at its start were, how it went and what went
/// wrong. They fire once, and only at the top.
pub proof fn law_session_end(
    m: Map<Seq<char>, JsonView>,
    ok: bool,
    error: Option<Seq<char>>,
    key: Seq<char>,
)
    ensures
        ({
            let s = SessionEndView { depth: 0, base: JsonView::Object(m), ok, error, fired: false };
            let r = invocation::ending(s);
            &&& r is Some
            &&& ok ==> fields::tells(r->0, "status"@, "ok"@)
            &&& !ok ==> fields::tells(r->0, "status"@, "error"@)
            &&& error is Some ==> fields::tells(r->0, "error"@, error->0)
            &&& m.contains_key(key) && key != "status"@ && key != "error"@ ==> fields::says(
                r->0,
                key,
                m[key],
            )
            &&& error is None && !m.contains_key("error"@) ==> !(r->0)->Object_0.contains_key(
                "error"@,
            )
        }),
{
    reveal_strlit("status");
    reveal_strlit("error");
    assert("status"@.len() == 6 && "error"@.len() == 5);
}

/// The log tells when a session is continued, with how many messages, and when a tick ended, with
/// how many hooks.
pub proof fn law_other_logs(id: Seq<char>, loaded: u64, fired: u64, duration_ms: u64)
    ensures
        ({
            let r = invocation::continuation_log(id, loaded as nat);
            &&& fields::tells(r, "kind"@, "session_continuation"@)
            &&& fields::tells(r, "session_id"@, id)
            &&& fields::says(r, "loaded_messages"@, JsonView::Unsigned(loaded))
        }),
        ({
            let r = invocation::tick_end_of(fired as nat, duration_ms);
            &&& fields::tells(r, "kind"@, "tick_end"@)
            &&& fields::says(r, "hooks_fired"@, JsonView::Unsigned(fired))
            &&& fields::says(r, "duration_ms"@, JsonView::Unsigned(duration_ms))
        }),
{
    reveal_strlit("kind");
    reveal_strlit("session_id");
    reveal_strlit("loaded_messages");
    reveal_strlit("hooks_fired");
    reveal_strlit("duration_ms");
    assert("kind"@.len() == 4 && "session_id"@.len() == 10 && "loaded_messages"@.len() == 15);
    assert("hooks_fired"@[0] == 'h' && "duration_ms"@[0] == 'd');
    assert("hooks_fired"@.len() == 11 && "duration_ms"@.len() == 11);
    let a = seq![
        ("kind"@, JsonView::Str("session_continuation"@)),
        ("session_id"@, JsonView::Str(id)),
        ("loaded_messages"@, JsonView::Unsigned(loaded)),
    ];
    let b = seq![
        ("kind"@, JsonView::Str("tick_end"@)),
        ("hooks_fired"@, JsonView::Unsigned(fired)),
        ("duration_ms"@, JsonView::Unsigned(duration_ms)),
    ];
    fields::lemma_entry(a, 0);
    fields::lemma_entry(a, 1);
    fields::lemma_entry(a, 2);
    fields::lemma_entry(b, 0);
    fields::lemma_entry(b, 1);
    fields::lemma_entry(b, 2);
}

/// An empty session id is none.
pub proof fn law_active_session(id: Seq<char>)
    ensures
        id.len() > 0 ==> invocation::active_session_of(Some(id)) == Some(id),
        invocation::active_session_of(Some(Seq::empty())) is None,
        invocation::active_session_of(None) is None,
{
}

/// Where things lie below the home: the logs of sessions, and the hooks of an event.
pub proof fn law_places(home: Seq<char>, id: Seq<char>, event: HookEvent)
    requires
        home.len() > 0,
        home.last() != '/',
        id.len() > 0,
        id[0] != '/',
    ensures
        session::session_path_of(home, id) == home + "/logs/sessions/"@ + id + ".jsonl"@,
        hooks::event_dir(home, event) == home + "/hooks/"@ + event.name() + ".d"@,
{
    reveal_strlit("logs");
    reveal_strlit("sessions");
    reveal_strlit(".jsonl");
    reveal_strlit("hooks");
    reveal_strlit(".d");
    reveal_strlit("/logs/sessions/");
    reveal_strlit("/hooks/");
    texts::law_joined(home, "logs"@);
    let l = home.push('/') + "logs"@;
    assert(l.last() == 's');
    texts::law_joined(l, "sessions"@);
    let d = l.push('/') + "sessions"@;
    assert(d.last() == 's');
    let name = id + ".jsonl"@;
    assert(name[0] == id[0]);
    texts::law_joined(d, name);
    assert(d.push('/') + name =~= home + "/logs/sessions/"@ + id + ".jsonl"@);
    texts::law_joined(home, "hooks"@);
    let h = home.push('/') + "hooks"@;
    assert(h.last() == 's');
    let dir = event.name() + ".d"@;
    reveal_strlit("session-start");
    reveal_strlit("user-prompt");
    reveal_strlit("pre-tool");
    reveal_strlit("post-tool");
    reveal_strlit("session-end");
    reveal_strlit("log-rotation");
    reveal_strlit("agent-stop");
    reveal_strlit("tick");
    assert(event.name().len() > 0 && event.name()[0] != '/');
    assert(dir[0] == event.name()[0]);
    texts::law_joined(h, dir);
    assert(h.push('/') + dir =~= home + "/hooks/"@ + event.name() + ".d"@);
}

/// The first thousand attempts to find a name for an archive are numbered; then one last name is
/// left.
pub proof fn law_archive_path(dir: Seq<char>, nanos: nat, pid: nat, attempt: nat)
    ensures
        attempt < 1000 ==> logs::archive_path_of(dir, nanos, pid, attempt) == paths::joined(
            dir,
            logs::archive_name_of(nanos, pid, attempt),
        ),
        attempt >= 1000 ==> logs::archive_path_of(dir, nanos, pid, attempt) == paths::joined(
            dir,
            "stream.jsonl."@ + numbers::decimal(nanos) + "."@ + numbers::decimal(pid)
                + ".fallback.bak"@,
        ),
{
}

/// The summary of an archive has the name of the archive without what all archives share.
pub proof fn law_summary_name(middle: Seq<char>)
    requires
        middle.len() > 0,
        middle[0] != 's',
        middle.last() != 'k',
    ensures
        logs::summary_name_of("stream.jsonl."@ + middle + ".bak"@) == middle,
{
    reveal_strlit("stream.jsonl.");
    reveal_strlit(".bak");
    reveal_with_fuel(logs::without_prefixes, 2);
    reveal_with_fuel(logs::without_suffixes, 2);
    let p = "stream.jsonl."@;
    let b = ".bak"@;
    let all = p + middle + b;
    let rest = middle + b;
    assert(all.subrange(0, p.len() as int) =~= p);
    assert(all.subrange(p.len() as int, all.len() as int) =~= rest);
    if text::begins_with(rest, p) {
        assert(rest.subrange(0, p.len() as int)[0] == rest[0]);
    }
    let n = rest.len() - b.len();
    assert(rest.subrange(n, n + b.len()) =~= b);
    assert(rest.subrange(0, n) =~= middle);
    if text::ends_with(middle, b) {
        let m = middle.len() - b.len();
        assert(middle.subrange(m, m + b.len())[3] == middle.last());
    }
}

} // verus!
