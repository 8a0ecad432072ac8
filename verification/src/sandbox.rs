//! The commands that run inside the sandbox: their arguments and their environment.

use vstd::prelude::*;

use crate::hooks::HookEvent;
use crate::numbers;
use crate::numbers::{decimal_text, size_text};
use crate::offsets;
use crate::offsets::byte_len;
use crate::text;
use crate::text::owned;
use crate::tools;
use crate::tools::{child_depth, current_depth, env_flag_enabled};

verus! {

/// The program that runs a command inside the sandbox.
pub const SANDBOX_PROGRAM: &'static str = "/usr/bin/sandbox-exec";

/// Where commands are looked for.
pub const COMMAND_PATH: &'static str =
    "/opt/homebrew/bin:/usr/local/bin:/usr/bin:/bin:/usr/sbin:/sbin";

/// A command, ready to be started. Its environment is empty but for `env`.
#[derive(Debug)]
pub struct SandboxCommand {
    /// The arguments of [`SANDBOX_PROGRAM`].
    pub args: Vec<String>,
    /// The environment.
    pub env: Vec<(String, String)>,
    /// The working directory.
    pub cwd: String,
}

/// The names and values of a list.
pub open spec fn pairs(v: Seq<(String, String)>) -> Seq<(Seq<char>, Seq<char>)> {
    v.map_values(|p: (String, String)| (p.0@, p.1@))
}

/// The arguments: the directories that may be written to, the profile, the shell, and `tail`.
pub open spec fn sandbox_args(lazar: Seq<char>, profile: Seq<char>, tail: Seq<Seq<char>>) -> Seq<
    Seq<char>,
> {
    seq![
        "-D"@,
        "SKILLS_PATH="@ + lazar + "/skills"@,
        "-D"@,
        "MEMORY_PATH="@ + lazar + "/memory"@,
        "-D"@,
        "WORKSPACE_PATH="@ + lazar + "/workspace"@,
        "-D"@,
        "LOGS_PATH="@ + lazar + "/logs"@,
        "-p"@,
        profile,
        "/bin/bash"@,
    ] + tail
}

/// The part of the environment that every command has.
pub open spec fn base_env(lazar: Seq<char>) -> Seq<(Seq<char>, Seq<char>)> {
    seq![
        ("PATH"@, COMMAND_PATH@),
        ("HOME"@, lazar),
        ("LAZAR_HOME"@, lazar),
        ("LAZAR_SKILLS"@, lazar + "/skills"@),
        ("LAZAR_MEMORY"@, lazar + "/memory"@),
        ("LAZAR_WORKSPACE"@, lazar + "/workspace"@),
        ("LAZAR_LOGS"@, lazar + "/logs"@),
    ]
}

/// The value, or the default.
pub open spec fn or_default(v: Option<Seq<char>>, default: Seq<char>) -> Seq<char> {
    match v {
        Some(s) => s,
        None => default,
    }
}

/// The terminal and the language.
pub open spec fn terminal_env(term: Option<Seq<char>>, lang: Option<Seq<char>>) -> Seq<
    (Seq<char>, Seq<char>),
> {
    seq![
        ("TERM"@, or_default(term, "xterm-256color"@)),
        ("LANG"@, or_default(lang, "en_US.UTF-8"@)),
    ]
}

/// The environment of a hook.
pub open spec fn hook_env(
    lazar: Seq<char>,
    event: HookEvent,
    payload: Seq<char>,
    term: Option<Seq<char>>,
    lang: Option<Seq<char>>,
) -> Seq<(Seq<char>, Seq<char>)> {
    base_env(lazar) + seq![
        ("LAZAR_HOOK_EVENT"@, event.name()),
        ("LAZAR_HOOK_PAYLOAD_LEN"@, numbers::decimal(offsets::bytes(payload).len())),
    ] + terminal_env(term, lang)
}

/// The variables of this process that a tool command depends on.
#[derive(Debug)]
pub struct ToolVars {
    /// `TERM`
    pub term: Option<String>,
    /// `LANG`
    pub lang: Option<String>,
    /// `LAZAR_DEPTH`
    pub depth: Option<String>,
    /// `LAZAR_MODEL`
    pub model: Option<String>,
    /// `LAZAR_TOOL_INHERIT_ANTHROPIC_API_KEY`
    pub inherit_key: Option<String>,
    /// `ANTHROPIC_API_KEY`
    pub api_key: Option<String>,
    /// `ANTHROPIC_BASE_URL`
    pub base_url: Option<String>,
}

/// The text of an optional string.
pub open spec fn opt_text(s: Option<String>) -> Option<Seq<char>> {
    match s {
        Some(t) => Some(t@),
        None => None,
    }
}

/// The variable, where it is set.
pub open spec fn opt_env(name: Seq<char>, v: Option<Seq<char>>) -> Seq<(Seq<char>, Seq<char>)> {
    match v {
        Some(s) => seq![(name, s)],
        None => Seq::empty(),
    }
}

/// The key and what belongs to it, where the operator let commands have it.
pub open spec fn key_env(vars: ToolVars) -> Seq<(Seq<char>, Seq<char>)> {
    if tools::flag_on(opt_text(vars.inherit_key)) {
        seq![("LAZAR_TOOL_INHERIT_ANTHROPIC_API_KEY"@, "1"@)] + opt_env(
            "ANTHROPIC_API_KEY"@,
            opt_text(vars.api_key),
        ) + opt_env("ANTHROPIC_BASE_URL"@, opt_text(vars.base_url))
    } else {
        Seq::empty()
    }
}

/// The environment of a tool command.
pub open spec fn tool_env(lazar: Seq<char>, vars: ToolVars) -> Seq<(Seq<char>, Seq<char>)> {
    base_env(lazar) + seq![
        ("LAZAR_TOOL_ENV"@, "1"@),
        (
            "LAZAR_DEPTH"@,
            numbers::decimal(
                tools::child_depth_of(tools::depth_of(opt_text(vars.depth))) as nat,
            ),
        ),
    ] + terminal_env(opt_text(vars.term), opt_text(vars.lang)) + opt_env(
        "LAZAR_MODEL"@,
        opt_text(vars.model),
    ) + key_env(vars)
}

/// The environment sets the variable.
pub open spec fn sets(env: Seq<(Seq<char>, Seq<char>)>, name: Seq<char>) -> bool {
    exists|i: int| 0 <= i < env.len() && (#[trigger] env[i]).0 == name
}

/// Commands do not inherit the API key, unless the operator switched that on.
pub proof fn law_key_stays_out(lazar: Seq<char>, vars: ToolVars)
    requires
        !tools::flag_on(opt_text(vars.inherit_key)),
    ensures
        !sets(tool_env(lazar, vars), "ANTHROPIC_API_KEY"@),
{
    reveal_strlit("ANTHROPIC_API_KEY");
    reveal_strlit("PATH");
    reveal_strlit("HOME");
    reveal_strlit("LAZAR_HOME");
    reveal_strlit("LAZAR_SKILLS");
    reveal_strlit("LAZAR_MEMORY");
    reveal_strlit("LAZAR_WORKSPACE");
    reveal_strlit("LAZAR_LOGS");
    reveal_strlit("LAZAR_TOOL_ENV");
    reveal_strlit("LAZAR_DEPTH");
    reveal_strlit("LAZAR_MODEL");
    reveal_strlit("TERM");
    reveal_strlit("LANG");
    let env = tool_env(lazar, vars);
    assert forall|i: int| 0 <= i < env.len() implies (#[trigger] env[i]).0
        != "ANTHROPIC_API_KEY"@ by {
        assert(env[i].0.len() != 17);
    }
}

/// Hooks never get the API key.
pub proof fn law_hooks_get_no_key(
    lazar: Seq<char>,
    event: HookEvent,
    payload: Seq<char>,
    term: Option<Seq<char>>,
    lang: Option<Seq<char>>,
)
    ensures
        !sets(hook_env(lazar, event, payload, term, lang), "ANTHROPIC_API_KEY"@),
{
    reveal_strlit("ANTHROPIC_API_KEY");
    reveal_strlit("PATH");
    reveal_strlit("HOME");
    reveal_strlit("LAZAR_HOME");
    reveal_strlit("LAZAR_SKILLS");
    reveal_strlit("LAZAR_MEMORY");
    reveal_strlit("LAZAR_WORKSPACE");
    reveal_strlit("LAZAR_LOGS");
    reveal_strlit("LAZAR_HOOK_EVENT");
    reveal_strlit("LAZAR_HOOK_PAYLOAD_LEN");
    reveal_strlit("TERM");
    reveal_strlit("LANG");
    let env = hook_env(lazar, event, payload, term, lang);
    assert forall|i: int| 0 <= i < env.len() implies (#[trigger] env[i]).0
        != "ANTHROPIC_API_KEY"@ by {
        assert(env[i].0.len() != 17);
    }
}

/// Three texts in one.
fn joined3(a: &str, b: &str, c: &str) -> (r: String)
    ensures
        r@ == a@ + b@ + c@,
{
    let mut out = owned(a);
    out.append(b);
    out.append(c);
    out
}

/// Two texts in one.
fn joined2(a: &str, b: &str) -> (r: String)
    ensures
        r@ == a@ + b@,
{
    let mut out = owned(a);
    out.append(b);
    out
}

fn push_text(out: &mut Vec<String>, s: String)
    ensures
        text::texts(final(out)@) == text::texts(old(out)@).push(s@),
{
    out.push(s);
    assert(text::texts(out@) =~= text::texts(old(out)@).push(s@));
}

fn push_pair(out: &mut Vec<(String, String)>, name: &str, value: String)
    ensures
        pairs(final(out)@) == pairs(old(out)@).push((name@, value@)),
{
    out.push((owned(name), value));
    assert(pairs(out@) =~= pairs(old(out)@).push((name@, value@)));
}

/// The arguments up to the shell.
fn shell_args(lazar: &str, profile: &str) -> (r: Vec<String>)
    ensures
        text::texts(r@) == sandbox_args(lazar@, profile@, Seq::empty()),
{
    let mut out: Vec<String> = Vec::new();
    assert(text::texts(out@) =~= Seq::<Seq<char>>::empty());
    push_text(&mut out, owned("-D"));
    push_text(&mut out, joined3("SKILLS_PATH=", lazar, "/skills"));
    push_text(&mut out, owned("-D"));
    push_text(&mut out, joined3("MEMORY_PATH=", lazar, "/memory"));
    push_text(&mut out, owned("-D"));
    push_text(&mut out, joined3("WORKSPACE_PATH=", lazar, "/workspace"));
    push_text(&mut out, owned("-D"));
    push_text(&mut out, joined3("LOGS_PATH=", lazar, "/logs"));
    push_text(&mut out, owned("-p"));
    push_text(&mut out, owned(profile));
    push_text(&mut out, owned("/bin/bash"));
    assert(text::texts(out@) =~= sandbox_args(lazar@, profile@, Seq::empty()));
    out
}

fn start_env(lazar: &str) -> (r: Vec<(String, String)>)
    ensures
        pairs(r@) == base_env(lazar@),
{
    let mut out: Vec<(String, String)> = Vec::new();
    assert(pairs(out@) =~= Seq::<(Seq<char>, Seq<char>)>::empty());
    push_pair(&mut out, "PATH", owned(COMMAND_PATH));
    push_pair(&mut out, "HOME", owned(lazar));
    push_pair(&mut out, "LAZAR_HOME", owned(lazar));
    push_pair(&mut out, "LAZAR_SKILLS", joined2(lazar, "/skills"));
    push_pair(&mut out, "LAZAR_MEMORY", joined2(lazar, "/memory"));
    push_pair(&mut out, "LAZAR_WORKSPACE", joined2(lazar, "/workspace"));
    push_pair(&mut out, "LAZAR_LOGS", joined2(lazar, "/logs"));
    assert(pairs(out@) =~= base_env(lazar@));
    out
}

fn value_or(v: &Option<String>, default: &str) -> (r: String)
    ensures
        r@ == or_default(opt_text(*v), default@),
{
    match v {
        Some(s) => s.clone(),
        None => owned(default),
    }
}

fn push_terminal(out: &mut Vec<(String, String)>, term: &Option<String>, lang: &Option<String>)
    ensures
        pairs(final(out)@) == pairs(old(out)@) + terminal_env(opt_text(*term), opt_text(*lang)),
{
    push_pair(out, "TERM", value_or(term, "xterm-256color"));
    push_pair(out, "LANG", value_or(lang, "en_US.UTF-8"));
    assert(pairs(out@) =~= pairs(old(out)@) + terminal_env(opt_text(*term), opt_text(*lang)));
}

fn push_opt(out: &mut Vec<(String, String)>, name: &str, v: &Option<String>)
    ensures
        pairs(final(out)@) == pairs(old(out)@) + opt_env(name@, opt_text(*v)),
{
    match v {
        Some(s) => {
            push_pair(out, name, s.clone());
        },
        None => {},
    }
    assert(pairs(out@) =~= pairs(old(out)@) + opt_env(name@, opt_text(*v)));
}

/// The slice of an optional string.
pub fn as_opt_str(v: &Option<String>) -> (r: Option<&str>)
    ensures
        tools::var_text(r) == opt_text(*v),
{
    match v {
        Some(s) => Some(s.as_str()),
        None => None,
    }
}

/// The command that runs a hook script.
pub fn hook_command(
    lazar: &str,
    profile: &str,
    script: &str,
    event: HookEvent,
    payload: &str,
    term: &Option<String>,
    lang: &Option<String>,
) -> (r: SandboxCommand)
    ensures
        text::texts(r.args@) == sandbox_args(lazar@, profile@, seq![script@]),
        pairs(r.env@) == hook_env(lazar@, event, payload@, opt_text(*term), opt_text(*lang)),
        r.cwd@ == lazar@ + "/workspace"@,
{
    let mut args = shell_args(lazar, profile);
    push_text(&mut args, owned(script));
    assert(text::texts(args@) =~= sandbox_args(lazar@, profile@, seq![script@]));
    let mut env = start_env(lazar);
    push_pair(&mut env, "LAZAR_HOOK_EVENT", owned(event.as_str()));
    push_pair(&mut env, "LAZAR_HOOK_PAYLOAD_LEN", size_text(byte_len(payload)));
    push_terminal(&mut env, term, lang);
    assert(pairs(env@) =~= hook_env(lazar@, event, payload@, opt_text(*term), opt_text(*lang)));
    SandboxCommand { args, env, cwd: joined2(lazar, "/workspace") }
}

/// The command that runs a bash command as a tool.
pub fn tool_command(lazar: &str, profile: &str, cmd: &str, vars: &ToolVars) -> (r: SandboxCommand)
    ensures
        text::texts(r.args@) == sandbox_args(lazar@, profile@, seq!["-c"@, cmd@]),
        pairs(r.env@) == tool_env(lazar@, *vars),
        r.cwd@ == lazar@ + "/workspace"@,
{
    let mut args = shell_args(lazar, profile);
    push_text(&mut args, owned("-c"));
    push_text(&mut args, owned(cmd));
    assert(text::texts(args@) =~= sandbox_args(lazar@, profile@, seq!["-c"@, cmd@]));
    let mut env = start_env(lazar);
    push_pair(&mut env, "LAZAR_TOOL_ENV", owned("1"));
    let depth: u32 = child_depth(current_depth(as_opt_str(&vars.depth)));
    push_pair(&mut env, "LAZAR_DEPTH", decimal_text(depth as u128));
    push_terminal(&mut env, &vars.term, &vars.lang);
    push_opt(&mut env, "LAZAR_MODEL", &vars.model);
    if env_flag_enabled(as_opt_str(&vars.inherit_key)) {
        push_pair(&mut env, "LAZAR_TOOL_INHERIT_ANTHROPIC_API_KEY", owned("1"));
        push_opt(&mut env, "ANTHROPIC_API_KEY", &vars.api_key);
        push_opt(&mut env, "ANTHROPIC_BASE_URL", &vars.base_url);
    }
    assert(pairs(env@) =~= tool_env(lazar@, *vars));
    SandboxCommand { args, env, cwd: joined2(lazar, "/workspace") }
}

} // verus!
