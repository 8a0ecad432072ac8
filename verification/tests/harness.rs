use std::path::Path;

use lazar::agent::{
    final_text, max_tool_calls, max_turns, Agent, AgentAction, AgentConfig, AgentEffect,
    AgentEvent, Phase,
};
use lazar::home::{is_confirmation, lazar_home, validate_reset_home};
use lazar::hooks::{HookAction, HookResult};
use lazar::invocation::{
    active_session, choose_session, injected_context, invoke_start_event, invoke_start_log,
    invoke_start_note, loaded_note, prompt_payload, rejection, request_failure, session_continuation_log,
    session_payload, starting_messages, stream_error_event, tick_end_log, tick_end_note,
    tick_hook_note, tick_payload, tick_start_log, user_log, RequestFailure, SessionEnd,
};
use lazar::json::{parse_json, Json};
use lazar::logs::{
    archive_name, archive_path, archive_step, log_max_bytes, rotation_due, rotation_notice,
    rotation_payload, summary_name, summary_path, summary_text, symlink_refusal, ArchiveStep,
    LogMeta, PathUse, Rotation,
};
use lazar::prompt::{api_url, check_start, choose_model, request_body, system_prompt};
use lazar::sse::{parse_sse_lines, Effect, OutputFormat, SseResult, SseState};
use lazar::tools::{
    child_depth, current_depth, env_flag_enabled, safe_prefix, tool_failure, tool_input_preview,
    tool_output, truncate_tool_output, wait_step, CapturedOutput, Poll, ToolFailure, ToolLimits,
    WaitStep,
};

fn json(s: &str) -> Json {
    parse_json(s).unwrap()
}

/// An effect of a stream, as text.
fn shown(e: &Effect) -> String {
    match e {
        Effect::Print(s) => format!("print {s}"),
        Effect::Emit(v) => format!("emit {}", v.to_text()),
        Effect::Warn(s) => format!("warn {s}"),
    }
}

fn all_shown(v: &[Effect]) -> Vec<String> {
    v.iter().map(shown).collect()
}

/// An effect of the agent, as text.
fn told(e: &AgentEffect) -> String {
    match e {
        AgentEffect::Log(v) => format!("log {}", v.to_text()),
        AgentEffect::Emit(v) => format!("emit {}", v.to_text()),
        AgentEffect::PrintResult(v) => format!("result {}", v.to_text()),
        AgentEffect::Note(s) => format!("note {s}"),
        AgentEffect::FireStop(v) => format!("stop {}", v.to_text()),
    }
}

fn all_told(v: &[AgentEffect]) -> Vec<String> {
    v.iter().map(told).collect()
}

/// An action of the agent, as text.
fn doing(a: &AgentAction) -> String {
    match a {
        AgentAction::Request(_) => "request".to_string(),
        AgentAction::FirePreTool(v) => format!("pre {}", v.to_text()),
        AgentAction::Run(s) => format!("run {s}"),
        AgentAction::FirePostTool(v) => format!("post {}", v.to_text()),
        AgentAction::Succeed => "succeed".to_string(),
        AgentAction::Fail(s) => format!("fail {s}"),
    }
}

fn lines(v: &[&str]) -> Vec<String> {
    v.iter().map(|s| s.to_string()).collect()
}

#[test]
fn env_flag_accepts_only_explicit_truthy_values() {
    assert!(!env_flag_enabled(None));
    assert!(env_flag_enabled(Some("yes")));
    assert!(!env_flag_enabled(Some("0")));
    for on in ["1", "true", "TRUE", "yes", "YES", "on", "ON"] {
        assert!(env_flag_enabled(Some(on)));
    }
    for off in ["", "True", "y", " 1", "2"] {
        assert!(!env_flag_enabled(Some(off)));
    }
}

#[test]
fn append_and_write_helpers_reject_symlinks() {
    let append_err = symlink_refusal(true, PathUse::Append, "test append").unwrap();
    let write_err = symlink_refusal(true, PathUse::Write, "test write").unwrap();
    assert!(append_err.to_string().contains("symlinked"));
    assert!(write_err.to_string().contains("symlinked"));
    assert_eq!(append_err, "refusing to append to symlinked test append");
    assert_eq!(write_err, "refusing to write symlinked test write");
    assert_eq!(
        symlink_refusal(true, PathUse::Directory, "memory directory").as_deref(),
        Some("refusing to use symlinked memory directory")
    );
    assert_eq!(symlink_refusal(false, PathUse::Append, "test append"), None);
}

#[test]
fn truncates_tool_results_with_omitted_byte_count() {
    let original = "a".repeat(80);
    let truncated = truncate_tool_output(&original, 25);

    assert!(truncated.len() <= 80);
    assert!(truncated.contains("truncated"));
    assert!(truncated.contains("55 bytes omitted"));
    assert_eq!(truncated, format!("{}\n[truncated: 55 bytes omitted]", "a".repeat(25)));
}

#[test]
fn tool_input_preview_handles_multibyte_boundaries() {
    let input = "é".repeat(400);
    let preview = tool_input_preview(&input, 501);

    assert!(preview.contains("…[+"));
    assert!(preview.is_char_boundary(preview.len()));
    assert_eq!(preview, format!("{}…[+300b]", "é".repeat(250)));
}

#[test]
fn sse_parser_rejects_eof_before_message_stop() {
    let data = "data: {\"type\":\"message_delta\",\"delta\":{\"stop_reason\":\"end_turn\"}}\n";
    let read: Vec<String> = data.lines().map(|l| l.to_string()).collect();
    let (result, _) = parse_sse_lines(&read, OutputFormat::Json);
    match result {
        SseResult::Failed(err) => assert!(err.to_string().contains("ended before message_stop")),
        _ => panic!("expected a failure"),
    }
}

#[test]
fn unique_archive_path_does_not_reuse_existing_archive() {
    let first = archive_path("/logs", 7, 42, 0);
    let taken = [first.clone()];
    let mut attempt = 0;
    let second = loop {
        let candidate = archive_path("/logs", 7, 42, attempt);
        match archive_step(attempt, taken.contains(&candidate)) {
            ArchiveStep::Use => break candidate,
            ArchiveStep::Try(next) => attempt = next,
        }
    };
    assert_ne!(first, second);
    assert_eq!(first, "/logs/stream.jsonl.7.42.bak");
    assert_eq!(second, "/logs/stream.jsonl.7.42.1.bak");
}

#[test]
fn reset_home_validation_rejects_user_home() {
    let home = "/home/someone";
    let err = validate_reset_home(home, Some(home)).unwrap_err();
    assert!(err.contains("refusing to reset HOME"));
}

#[test]
fn what_may_be_reset() {
    let why = |h: &str, u: Option<&str>| validate_reset_home(h, u).unwrap_err();
    assert_eq!(why("", None), "refusing to reset an empty LAZAR_HOME");
    assert_eq!(why("x/y", None), "refusing to reset relative LAZAR_HOME: x/y");
    assert_eq!(why("/", None), "refusing to reset filesystem root: /");
    assert_eq!(why("//./", None), "refusing to reset filesystem root: //./");
    assert_eq!(why("/u//v/.", Some("/u/v")), "refusing to reset HOME directly: /u//v/.");
    assert!(validate_reset_home("/u/v/..", Some("/u")).is_ok());
    assert!(validate_reset_home("/u/lazar", Some("/u")).is_ok());
    assert!(validate_reset_home("/u", Some("u")).is_ok());
    assert!(validate_reset_home("/u", None).is_ok());
    assert!(is_confirmation(" y\n") && is_confirmation("Y") && is_confirmation("yes"));
    assert!(!is_confirmation("YES") && !is_confirmation("") && !is_confirmation("no"));
}

#[test]
fn steps_agree_with_std_paths() {
    for a in ["/u/v", "/u//v/", "/u/./v", "/u/v/..", "/U/v", "/", "/."] {
        for b in ["/u/v", "/u/v/.", "//u/v", "/u/v/../", "u/v", "/"] {
            let refused = validate_reset_home(a, Some(b));
            let root = Path::new(a).parent().is_none();
            let same = Path::new(a) == Path::new(b);
            assert_eq!(refused.is_err(), root || same, "{a} {b}");
        }
    }
}

#[test]
fn where_home_is() {
    assert_eq!(lazar_home(Some("/l"), Some("/u")).as_deref(), Some("/l"));
    assert_eq!(lazar_home(Some(""), Some("/u")).as_deref(), Some("/u/lazar"));
    assert_eq!(lazar_home(None, Some("/u/")).as_deref(), Some("/u/lazar"));
    assert_eq!(lazar_home(None, None), None);
}

#[test]
fn joined_paths_agree_with_std() {
    for base in ["", "/", "/a", "a/", "/a//"] {
        for rest in ["b", "b/c", "/d", ""] {
            let std_joined = std::path::Path::new(base).join(rest);
            assert_eq!(lazar::paths::join_path(base, rest), std_joined.to_str().unwrap());
        }
    }
}

#[test]
fn limits_and_depths() {
    let l = ToolLimits::from_vars(None, None);
    assert_eq!((l.timeout_secs, l.output_max_bytes), (120, 200_000));
    let l = ToolLimits::from_vars(Some("3"), Some("40"));
    assert_eq!((l.timeout_secs, l.output_max_bytes), (3, 40));
    let l = ToolLimits::from_vars(Some("0"), Some("-4"));
    assert_eq!((l.timeout_secs, l.output_max_bytes), (120, 200_000));
    assert_eq!(current_depth(None), 0);
    assert_eq!(current_depth(Some("4")), 4);
    assert_eq!(current_depth(Some("4294967296")), 0);
    assert_eq!(child_depth(4), 5);
    assert_eq!(child_depth(u32::MAX), u32::MAX);
    assert_eq!(max_turns(None), 50);
    assert_eq!(max_turns(Some("7")), 7);
    assert_eq!(max_turns(Some("0")), 50);
    assert_eq!(max_tool_calls(None), 200);
    assert_eq!(max_tool_calls(Some("x")), 200);
}

#[test]
fn waiting_for_processes() {
    assert_eq!(wait_step(Poll::Exited(Some(3)), 0, 1, 50), WaitStep::Ended(3));
    assert_eq!(wait_step(Poll::Exited(None), 0, 1, 50), WaitStep::Ended(-1));
    assert_eq!(wait_step(Poll::Running, 999_999_999, 1, 50), WaitStep::Sleep(50));
    assert_eq!(wait_step(Poll::Running, 1_000_000_000, 1, 50), WaitStep::KillForTimeout);
    assert_eq!(wait_step(Poll::Failed, 0, 1, 50), WaitStep::GiveUp);
}

#[test]
fn output_is_kept_up_to_the_cap() {
    let mut c = CapturedOutput::empty();
    c.absorb(b"hello", 8);
    c.absorb(b" world", 8);
    c.absorb(b"!", 8);
    assert_eq!(c.bytes, b"hello wo");
    assert_eq!(c.total_bytes, 12);
    assert!(c.was_truncated());
    let mut c = CapturedOutput::empty();
    c.absorb(b"hi", 2);
    assert!(!c.was_truncated());
}

#[test]
fn prefixes_end_between_characters() {
    assert_eq!(safe_prefix("aé", 2), "a");
    assert_eq!(safe_prefix("aé", 3), "aé");
    assert_eq!(safe_prefix("é", 1), "");
    assert_eq!(tool_input_preview("abc", 3), "abc");
}

#[test]
fn outputs_of_commands() {
    let captured = |bytes: &[u8], total: usize| CapturedOutput { bytes: bytes.to_vec(), total_bytes: total };
    let limits = ToolLimits { timeout_secs: 9, output_max_bytes: 1000 };
    let out = tool_output(&captured(b"out", 3), &captured(b"", 0), false, 0, &limits);
    assert_eq!(out, "out\n[exit 0]");
    let out = tool_output(&captured(b"o\xff", 5), &captured(b"e", 2), true, -1, &limits);
    assert_eq!(
        out,
        "o\u{fffd}\n[stdout truncated: 3 bytes omitted]\n[stderr]\ne\n[stderr truncated: 1 bytes omitted]\n[timeout after 9s]\n[exit -1]"
    );
    let tight = ToolLimits { timeout_secs: 9, output_max_bytes: 5 };
    let out = tool_output(&captured(b"out", 3), &captured(b"", 0), false, 0, &tight);
    assert_eq!(out, "out\n[exit 0]");
    let out = tool_output(&captured(b"output", 6), &captured(b"e", 1), true, -9, &tight);
    assert_eq!(out, "outpu\n[truncated: 31 bytes omitted]\n[exit -9]");
    let least = ToolLimits { timeout_secs: 9, output_max_bytes: 1 };
    assert_eq!(tool_output(&captured(b"", 0), &captured(b"", 0), false, 0, &least), "\n[exit 0]");
    assert_eq!(tool_failure(ToolFailure::Workspace, "no"), "[workspace error: no]\n[exit 1]");
    assert_eq!(tool_failure(ToolFailure::Spawn, "no"), "[spawn error: no]\n[exit 1]");
    assert_eq!(tool_failure(ToolFailure::Wait, "no"), "[wait error: no]\n[exit 1]");
}

#[test]
fn rotation_of_the_log() {
    let meta = |is_symlink: bool, len: u64| Some(LogMeta { is_symlink, len });
    assert_eq!(rotation_due(None, 10), Rotation::Keep);
    assert_eq!(rotation_due(meta(false, 9), 10), Rotation::Keep);
    assert_eq!(rotation_due(meta(false, 10), 10), Rotation::Keep);
    assert_eq!(rotation_due(meta(false, 11), 10), Rotation::Rotate);
    assert_eq!(rotation_due(meta(true, 99), 10), Rotation::RefuseSymlink);
    assert_eq!(log_max_bytes(None), 10_485_760);
    assert_eq!(log_max_bytes(Some("0")), 0);
    assert_eq!(log_max_bytes(Some("x")), 10_485_760);
    assert_eq!(archive_name(5, 6, 1000), "stream.jsonl.5.6.fallback.bak");
    assert_eq!(archive_step(1000, true), ArchiveStep::Use);
    assert_eq!(archive_step(999, true), ArchiveStep::Try(1000));
}

#[test]
fn summaries_of_archives() {
    assert_eq!(summary_name("stream.jsonl.5.6.1.bak"), "5.6.1");
    assert_eq!(summary_name("stream.jsonl.stream.jsonl.5.bak.bak"), "5");
    assert_eq!(summary_name("other"), "other");
    assert_eq!(summary_path("/h", "5.6"), "/h/memory/log-summaries/5.6.md");
    let text = summary_text("5.6", "/h/logs/a.bak", 77, 88);
    assert!(text.starts_with(
        "# log-summary 5.6\n\narchive: /h/logs/a.bak\nsize_bytes: 77\nrotated_at_unix_ms: 88\n\n_Auto-rotated by the lazar kernel when stream.jsonl exceeded LAZAR_LOG_MAX_BYTES. For richer"
    ));
    assert!(text.ends_with("run `_meta/distill`._\n"));
    assert_eq!(
        rotation_notice("a.bak", 77),
        "[lazar] auto-rotated stream.jsonl → a.bak (77 bytes)"
    );
    assert_eq!(
        rotation_payload("/a", 3, &None).to_text(),
        r#"{"archive":"/a","size_bytes":3,"summary":null}"#
    );
    assert_eq!(
        rotation_payload("/a", 3, &Some("/s".into())).to_text(),
        r#"{"archive":"/a","size_bytes":3,"summary":"/s"}"#
    );
}

const STREAM: [&str; 13] = [
    "event: message_start",
    "data: {\"type\":\"message_start\"}",
    "data: ",
    "data: not json",
    "data: {\"type\":\"content_block_start\",\"index\":1,\"content_block\":{\"type\":\"tool_use\",\"id\":\"t1\",\"name\":\"execute\"}}",
    "data: {\"type\":\"content_block_start\",\"index\":0,\"content_block\":{\"type\":\"text\",\"text\":\"\"}}",
    "data: {\"type\":\"content_block_delta\",\"index\":0,\"delta\":{\"type\":\"text_delta\",\"text\":\"Hel\"}}",
    "data: {\"type\":\"content_block_delta\",\"index\":0,\"delta\":{\"type\":\"text_delta\",\"text\":\"lo\"}}",
    "data: {\"type\":\"content_block_stop\",\"index\":0}",
    "data: {\"type\":\"content_block_delta\",\"index\":1,\"delta\":{\"type\":\"input_json_delta\",\"partial_json\":\"{\\\"command\\\":\"}}",
    "data: {\"type\":\"content_block_delta\",\"index\":1,\"delta\":{\"type\":\"input_json_delta\",\"partial_json\":\"\\\"ls\\\"}\"}}",
    "data: {\"type\":\"content_block_stop\",\"index\":1}",
    "data: {\"type\":\"message_delta\",\"delta\":{\"stop_reason\":\"tool_use\"}}",
];

fn stream_with(end: &[&str]) -> Vec<String> {
    let mut v = lines(&STREAM);
    v.extend(lines(end));
    v
}

#[test]
fn streams_are_put_together() {
    let read = stream_with(&["data: {\"type\":\"message_stop\"}", "data: {\"type\":\"error\"}"]);
    let (result, effects) = parse_sse_lines(&read, OutputFormat::Text);
    match result {
        SseResult::Done(content, reason) => {
            assert_eq!(reason, "tool_use");
            assert_eq!(
                content.to_text(),
                r#"[{"text":"Hello","type":"text"},{"id":"t1","input":{"command":"ls"},"name":"execute","type":"tool_use"}]"#
            );
        }
        _ => panic!("expected an answer"),
    }
    assert_eq!(all_shown(&effects), all_shown(&[
            Effect::Print("Hel".into()),
            Effect::Print("lo".into()),
            Effect::Print("\n".into())
        ]));
    let (_, effects) = parse_sse_lines(&read, OutputFormat::StreamJson);
    let shown: Vec<String> = effects
        .iter()
        .map(|e| match e {
            Effect::Emit(v) => v.to_text(),
            _ => panic!("expected events"),
        })
        .collect();
    assert_eq!(
        shown,
        vec![
            r#"{"index":0,"text":"Hel","type":"text_delta"}"#,
            r#"{"index":0,"text":"lo","type":"text_delta"}"#,
            r#"{"index":0,"type":"text_done"}"#,
            r#"{"id":"t1","index":1,"input":{"command":"ls"},"name":"execute","type":"tool_use"}"#,
        ]
    );
    let (_, effects) = parse_sse_lines(&read, OutputFormat::Json);
    assert!(effects.is_empty());
}

#[test]
fn streams_may_fail() {
    let read = stream_with(&["data: {\"type\":\"error\",\"error\":{\"message\":\"overloaded\"}}"]);
    let (result, effects) = parse_sse_lines(&read, OutputFormat::StreamJson);
    assert!(matches!(result, SseResult::Failed(ref e) if e == "stream error: overloaded"));
    assert_eq!(
        shown(effects.last().unwrap()),
        r#"emit {"message":"overloaded","type":"error"}"#
    );
    let (result, _) = parse_sse_lines(&lines(&["data: {\"type\":\"error\"}"]), OutputFormat::Json);
    assert!(matches!(result, SseResult::Failed(ref e) if e == "stream error: unknown"));
    let bad = lines(&[
        "data: {\"type\":\"content_block_start\",\"index\":0,\"content_block\":7}",
        "data: {\"type\":\"content_block_delta\",\"index\":0,\"delta\":{\"type\":\"text_delta\",\"text\":\"x\"}}",
    ]);
    assert!(matches!(parse_sse_lines(&bad, OutputFormat::Json).0, SseResult::Malformed));
}

#[test]
fn unfinished_tool_input_is_warned_of() {
    let read = lines(&[
        "data: {\"type\":\"content_block_start\",\"index\":3,\"content_block\":{\"type\":\"tool_use\"}}",
        "data: {\"type\":\"content_block_stop\",\"index\":3}",
        "data: {\"type\":\"content_block_start\",\"index\":4,\"content_block\":{\"type\":\"tool_use\"}}",
        "data: {\"type\":\"content_block_delta\",\"index\":4,\"delta\":{\"type\":\"input_json_delta\",\"partial_json\":\"{\\\"a\"}}",
        "data: {\"type\":\"content_block_stop\",\"index\":4}",
        "data: {\"type\":\"message_stop\"}",
    ]);
    let (result, effects) = parse_sse_lines(&read, OutputFormat::Text);
    assert!(matches!(result, SseResult::Done(ref c, _) if c.to_text() == r#"[{"input":{},"type":"tool_use"},{"input":{},"type":"tool_use"}]"#));
    let empty = serde_json::from_str::<serde_json::Value>("").unwrap_err();
    let cut = serde_json::from_str::<serde_json::Value>("{\"a").unwrap_err();
    assert_eq!(
        all_shown(&effects),
        all_shown(&[
            Effect::Warn(format!("[lazar] WARN: tool_use input parse failed (err={empty}); buffer (0 bytes) was: \"\"")),
            Effect::Warn("[lazar] WARN: tool_use idx=3 had no input_json_delta events; input is {}".into()),
            Effect::Warn(format!("[lazar] WARN: tool_use input parse failed (err={cut}); buffer (3 bytes) was: \"{{\\\"a\"")),
        ])
    );
}

#[test]
fn a_block_without_content_takes_text() {
    let mut state = SseState::new();
    let mut effects = Vec::new();
    for line in [
        "data: {\"type\":\"content_block_start\"}",
        "data: {\"type\":\"content_block_delta\",\"delta\":{\"type\":\"text_delta\",\"text\":\"x\"}}",
        "data: {\"type\":\"content_block_delta\",\"index\":9,\"delta\":{\"type\":\"text_delta\",\"text\":\"y\"}}",
        "data: {\"type\":\"message_stop\"}",
    ] {
        assert_eq!(state.feed_line(line, OutputFormat::Json, &mut effects), Some(None));
    }
    assert!(state.is_stopped());
    let (content, reason) = state.finish(OutputFormat::Json, &mut effects).unwrap();
    assert_eq!(content.to_text(), r#"[{"text":"x"}]"#);
    assert_eq!(reason, "");
}

fn config(format: OutputFormat) -> AgentConfig {
    AgentConfig {
        depth: 0,
        model: "m".into(),
        system: "sys".into(),
        format,
        verbose: false,
        max_turns: 4,
        max_tool_calls: 3,
    }
}

fn agent(format: OutputFormat) -> Agent {
    Agent::new(config(format), starting_messages(vec![], "hi"))
}

fn answer(content: &str, reason: &str) -> AgentEvent {
    AgentEvent::Answered { content: json(content), stop_reason: reason.into(), duration_ms: 12 }
}

fn hook(action: HookAction) -> Vec<HookResult> {
    vec![HookResult { script: "h".into(), action, exit_code: 0, duration_ms: 0, timed_out: false }]
}

fn step(a: &mut Agent, e: AgentEvent) -> (AgentAction, Vec<AgentEffect>) {
    assert!(a.is_expected(&e));
    let mut effects = Vec::new();
    let action = a.advance(e, &mut effects);
    (action, effects)
}

const CALL: &str = r#"[{"type":"text","text":"ok"},{"type":"tool_use","name":"execute","id":"t1","input":{"command":" ls "}}]"#;
const EMPTY_CALL: &str = r#"[{"type":"tool_use","name":"execute","id":"t1","input":{}}]"#;

#[test]
fn an_answer_ends_the_invocation() {
    let mut a = agent(OutputFormat::Json);
    let (action, effects) = step(&mut a, AgentEvent::Start);
    match action {
        AgentAction::Request(body) => {
            assert_eq!(body.get_text("model"), Some("m"));
            assert_eq!(body.get_text("system"), Some("sys"));
            assert_eq!(body.get_index("max_tokens"), 8192);
            assert_eq!(
                body.get("messages").unwrap().to_text(),
                r#"[{"content":"hi","role":"user"}]"#
            );
        }
        _ => panic!("expected a request"),
    }
    assert!(effects.is_empty());
    let (action, effects) =
        step(&mut a, answer(r#"[{"type":"text","text":"a"},{"type":"text","text":"b"}]"#, "end_turn"));
    assert_eq!(doing(&action), doing(&AgentAction::Succeed));
    assert_eq!(a.phase(), Phase::Over);
    assert_eq!(all_told(&effects), all_told(&[
            AgentEffect::Log(json(r#"{"kind":"assistant","content":[{"type":"text","text":"a"},{"type":"text","text":"b"}]}"#)),
            AgentEffect::Log(json(r#"{"kind":"invoke_end","stop_reason":"end_turn"}"#)),
            AgentEffect::FireStop(json(r#"{"depth":0,"stop_reason":"end_turn","duration_ms":12}"#)),
            AgentEffect::PrintResult(json(
                r#"{"type":"result","stop_reason":"end_turn","model":"m","result":"a\nb","content":[{"type":"text","text":"a"},{"type":"text","text":"b"}],"duration_ms":12}"#
            )),
        ]));
}

#[test]
fn a_command_is_run_and_its_output_handed_back() {
    let mut a = agent(OutputFormat::StreamJson);
    step(&mut a, AgentEvent::Start);
    let (action, _) = step(&mut a, answer(CALL, "tool_use"));
    assert_eq!(doing(&action), doing(&AgentAction::FirePreTool(json(r#"{"depth":0,"tool_use_id":"t1","command":" ls "}"#))));
    let (action, _) = step(&mut a, AgentEvent::PreToolFired(vec![]));
    assert_eq!(doing(&action), doing(&AgentAction::Run("ls".into())));
    let (action, _) = step(&mut a, AgentEvent::CommandRan("raw".into()));
    assert_eq!(doing(&action), doing(&AgentAction::FirePostTool(json(
            r#"{"depth":0,"tool_use_id":"t1","command":"ls","output":"raw"}"#
        ))));
    let (action, effects) =
        step(&mut a, AgentEvent::PostToolFired(hook(HookAction::TransformOutput("new".into()))));
    assert_eq!(all_told(&effects), all_told(&[
            AgentEffect::Log(json(
                r#"{"kind":"tool_result","tool_use_id":"t1","command":"ls","requested_command":" ls ","executed_command":"ls","content":"new"}"#
            )),
            AgentEffect::Emit(json(
                r#"{"type":"tool_result","tool_use_id":"t1","command":"ls","requested_command":" ls ","executed_command":"ls","content":"new"}"#
            )),
        ]));
    match action {
        AgentAction::Request(body) => {
            let messages = body.get("messages").unwrap().as_items().unwrap();
            assert_eq!(messages.len(), 3);
            assert_eq!(messages[1].get_text("role"), Some("assistant"));
            assert_eq!(
                messages[2].to_text(),
                r#"{"content":[{"content":"new","tool_use_id":"t1","type":"tool_result"}],"role":"user"}"#
            );
        }
        _ => panic!("expected a request"),
    }
}

#[test]
fn a_vetoed_command_is_not_run() {
    let mut a = agent(OutputFormat::Text);
    step(&mut a, AgentEvent::Start);
    step(&mut a, answer(CALL, "tool_use"));
    let (action, effects) =
        step(&mut a, AgentEvent::PreToolFired(hook(HookAction::Veto { reason: "no".into() })));
    assert!(matches!(action, AgentAction::Request(_)));
    match &effects[0] {
        AgentEffect::Log(e) => {
            assert_eq!(
                e.get_text("content"),
                Some("[vetoed by hook: no]\n[exit 1]\n[note: A pre-tool hook blocked this command. Adjust your approach or escalate to the user; do not retry the same command.]")
            );
            assert_eq!(e.get("executed_command").unwrap().to_text(), "null");
            assert_eq!(e.get_text("command"), Some(" ls "));
        }
        _ => panic!("expected a log event"),
    }
}

#[test]
fn a_rewritten_command_is_run_instead() {
    let mut a = agent(OutputFormat::Text);
    step(&mut a, AgentEvent::Start);
    step(&mut a, answer(CALL, "tool_use"));
    let (action, _) =
        step(&mut a, AgentEvent::PreToolFired(hook(HookAction::TransformCommand("pwd".into()))));
    assert_eq!(doing(&action), doing(&AgentAction::Run("pwd".into())));
}

#[test]
fn empty_calls_are_refused_and_abort_in_the_end() {
    let mut a = agent(OutputFormat::StreamJson);
    step(&mut a, AgentEvent::Start);
    for _ in 0..2 {
        let (action, effects) = step(&mut a, answer(EMPTY_CALL, "tool_use"));
        assert!(matches!(action, AgentAction::Request(_)));
        match &effects[1] {
            AgentEffect::Log(e) => assert!(e.get_text("content").unwrap().starts_with(
                "[error: 'execute' was called with an empty or missing 'command' field. Provide a non-empty bash command, or end your turn instead of calling the tool with no arguments.]\n[exit 1]"
            )),
            _ => panic!("expected a log event"),
        }
    }
    let (action, effects) = step(&mut a, answer(EMPTY_CALL, "tool_use"));
    let msg = "aborted after 3 consecutive turns with only empty tool calls";
    assert_eq!(doing(&action), doing(&AgentAction::Fail(msg.into())));
    let n = effects.len();
    assert_eq!(told(&effects[n - 3]), told(&AgentEffect::Note(format!("[lazar] {msg}"))));
    assert_eq!(told(&effects[n - 1]), told(&AgentEffect::Emit(json(&format!(r#"{{"type":"error","message":"{msg}"}}"#)))));
}

#[test]
fn budgets_are_kept() {
    let mut a = agent(OutputFormat::Text);
    step(&mut a, AgentEvent::Start);
    let three = r#"[{"type":"tool_use","name":"execute","id":"a","input":{"command":"x"}},
        {"type":"tool_use","name":"other","id":"b"},
        {"type":"tool_use","name":"execute","id":"c","input":{"command":"  "}},
        {"type":"tool_use","name":"execute","id":"d","input":{"command":"y"}},
        {"type":"tool_use","name":"execute","id":"e","input":{"command":"z"}}]"#;
    let (action, _) = step(&mut a, answer(three, "tool_use"));
    assert!(matches!(action, AgentAction::FirePreTool(_)));
    step(&mut a, AgentEvent::PreToolFired(vec![]));
    step(&mut a, AgentEvent::CommandRan("1".into()));
    let (action, _) = step(&mut a, AgentEvent::PostToolFired(vec![]));
    assert!(matches!(action, AgentAction::FirePreTool(ref p) if p.get_text("tool_use_id") == Some("d")));
    step(&mut a, AgentEvent::PreToolFired(vec![]));
    step(&mut a, AgentEvent::CommandRan("2".into()));
    let (action, effects) = step(&mut a, AgentEvent::PostToolFired(vec![]));
    assert_eq!(doing(&action), doing(&AgentAction::Fail("aborted after reaching LAZAR_MAX_TOOL_CALLS=3".into())));
    assert_eq!(
        told(effects.last().unwrap()),
        r#"log {"kind":"invoke_end","note":"aborted after reaching LAZAR_MAX_TOOL_CALLS=3","stop_reason":"aborted"}"#
    );

    let mut c = config(OutputFormat::Text);
    c.max_turns = 1;
    let mut a = Agent::new(c, vec![]);
    step(&mut a, AgentEvent::Start);
    let (action, _) = step(&mut a, answer(EMPTY_CALL, "tool_use"));
    assert_eq!(doing(&action), doing(&AgentAction::Fail("aborted after reaching LAZAR_MAX_TURNS=1".into())));
}

#[test]
fn stopping_without_calls_ends_the_invocation() {
    let mut a = agent(OutputFormat::Json);
    step(&mut a, AgentEvent::Start);
    let (action, effects) = step(&mut a, answer("[]", "max_tokens"));
    assert_eq!(doing(&action), doing(&AgentAction::Succeed));
    assert_eq!(
        all_told(&effects[1..]),
        all_told(&[
            AgentEffect::Note("[lazar] stop_reason=max_tokens, no tool calls; exiting".into()),
            AgentEffect::Log(json(
                r#"{"kind":"invoke_end","stop_reason":"max_tokens","note":"no tool calls"}"#
            )),
            AgentEffect::PrintResult(json(
                r#"{"type":"result","stop_reason":"max_tokens","model":"m","result":"","content":[],"note":"no tool calls"}"#
            )),
        ])
    );
    let mut a = agent(OutputFormat::StreamJson);
    step(&mut a, AgentEvent::Start);
    let (_, effects) = step(&mut a, answer("[]", "max_tokens"));
    assert_eq!(
        told(effects.last().unwrap()),
        told(&AgentEffect::Emit(json(
            r#"{"type":"invoke_end","stop_reason":"max_tokens","duration_ms":12,"note":"no tool calls"}"#
        )))
    );
    assert!(!effects.iter().any(|e| matches!(e, AgentEffect::FireStop(_))));
}

#[test]
fn failed_requests_end_the_invocation() {
    let mut c = config(OutputFormat::StreamJson);
    c.verbose = true;
    let mut a = Agent::new(c, vec![]);
    step(&mut a, AgentEvent::Start);
    let msg = rejection("429 Too Many Requests", "slow down");
    assert_eq!(msg, "API 429 Too Many Requests: slow down");
    let (action, effects) = step(&mut a, AgentEvent::RequestRejected(msg.clone()));
    assert_eq!(doing(&action), doing(&AgentAction::Fail(msg.clone())));
    assert_eq!(all_told(&effects), all_told(&[
            AgentEffect::Emit(json(&format!(r#"{{"type":"error","message":"{msg}"}}"#))),
            AgentEffect::Note(format!("[lazar] {msg}")),
            AgentEffect::Log(json(&format!(
                r#"{{"kind":"invoke_end","stop_reason":"error","note":"{msg}"}}"#
            ))),
        ]));
    let mut a = agent(OutputFormat::Text);
    step(&mut a, AgentEvent::Start);
    let msg = request_failure(RequestFailure::Send, "no route");
    assert_eq!(msg, "API request failed: no route");
    assert_eq!(
        request_failure(RequestFailure::Client, "x"),
        "reqwest client build failed: x"
    );
    let (action, effects) = step(&mut a, AgentEvent::RequestFailed(msg.clone()));
    assert_eq!(doing(&action), doing(&AgentAction::Fail(msg)));
    assert_eq!(effects.len(), 1);
}

#[test]
fn verbose_steps_are_told() {
    let mut c = config(OutputFormat::Text);
    c.verbose = true;
    c.depth = 1;
    let mut a = Agent::new(c, vec![]);
    step(&mut a, AgentEvent::Start);
    let long = "x".repeat(130);
    let call = format!(
        r#"[{{"type":"tool_use","name":"execute","id":1,"input":{{"command":"{long}"}}}}]"#
    );
    let (_, effects) = step(&mut a, answer(&call, "tool_use"));
    assert_eq!(told(&effects[1]), told(&AgentEffect::Note(format!("[lazar] tool_use: {}", "x".repeat(120)))));
    let (_, effects) =
        step(&mut a, AgentEvent::PreToolFired(hook(HookAction::TransformCommand("y".into()))));
    assert_eq!(all_told(&effects), all_told(&[AgentEffect::Note("[lazar] pre-tool rewrote command".into())]));
    step(&mut a, AgentEvent::CommandRan("é".into()));
    let (_, effects) = step(&mut a, AgentEvent::PostToolFired(vec![]));
    assert_eq!(told(&effects[1]), told(&AgentEffect::Note("[lazar] tool_result: 2 bytes".into())));
    let (_, effects) = step(&mut a, answer("[]", "end_turn"));
    assert_eq!(all_told(&effects[2..]), all_told(&[AgentEffect::Note("[lazar] invoke_end stop_reason=end_turn duration=12ms".into())]));
}

#[test]
fn final_texts() {
    assert_eq!(
        final_text(&json(r#"[{"type":"text","text":""},{"type":"text","text":"a"},{"type":"x"}]"#)),
        "\na"
    );
    assert_eq!(final_text(&json("\"s\"")), "");
}

#[test]
fn starting_an_invocation() {
    assert_eq!(check_start(false, 0).unwrap_err(), "ANTHROPIC_API_KEY is not set");
    assert_eq!(check_start(true, 6).unwrap_err(), "recursion depth 6 exceeds max 5");
    assert!(check_start(true, 5).is_ok());
    assert_eq!(api_url(None), "https://api.anthropic.com/v1/messages");
    assert_eq!(api_url(Some("http://x//")), "http://x/v1/messages");
    assert_eq!(choose_model(Some("a"), Some("b"), "c"), "a");
    assert_eq!(choose_model(None, Some("b"), "c"), "b");
    assert_eq!(choose_model(None, None, "c"), "c");
    assert_eq!(
        invoke_start_log(1, "m").to_text(),
        r#"{"depth":1,"kind":"invoke_start","model":"m"}"#
    );
    assert_eq!(user_log("p").to_text(), r#"{"content":"p","kind":"user"}"#);
    assert_eq!(
        invoke_start_event(1, "m", "p").to_text(),
        r#"{"depth":1,"model":"m","prompt":"p","type":"invoke_start"}"#
    );
    assert_eq!(invoke_start_note(1, "m"), "[lazar] invoke_start depth=1 model=m");
    assert_eq!(
        session_payload(0, "m", "p", &None).to_text(),
        r#"{"depth":0,"model":"m","prompt":"p","session_id":null}"#
    );
    assert_eq!(prompt_payload(0, "p").to_text(), r#"{"depth":0,"prompt":"p"}"#);
    assert_eq!(
        stream_error_event(OutputFormat::StreamJson, "e").unwrap().to_text(),
        r#"{"message":"e","type":"error"}"#
    );
    assert!(stream_error_event(OutputFormat::Text, "e").is_none());
}

#[test]
fn the_system_prompt() {
    let p = system_prompt("/h", 2, "");
    assert!(p.starts_with("You are lazar, a self-evolving agent.\n\nYou have ONE tool: execute(command). It runs a bash command through sandbox-exec and returns stdout+stderr+exit code.\n\nARCHITECTURE\nYour home is /h. Inside it:\n"));
    assert!(p.contains("write a new SKILL.md under /h/skills/<name>/ and append a one-line entry to /h/skills/INDEX.md.\n"));
    assert!(p.contains("fields like {kind, ts_ms, content, command, ...}; jq is your friend.\n"));
    assert!(p.contains("execute `LAZAR_DEPTH=3 lazar -p \"...\"`. Otherwise"));
    assert!(p.contains("Recursion depth is capped at 5; current depth is 2.\n"));
    assert!(p.ends_with("learn from the failure and route around it via a skill."));
    assert_eq!(
        system_prompt("/h", 2, "ctx"),
        format!("{p}\n\nRUNTIME CONTEXT (from hooks)\nctx")
    );
    let body = request_body("m", "s", &vec![json("1")]);
    assert_eq!(
        body.get("tools").unwrap().to_text(),
        r#"[{"description":"Run a bash command. Returns stdout+stderr+exit code. Recurse to yourself via `lazar -p`. Read skills via `cat`. Self-modify by writing files under skills/.","input_schema":{"properties":{"command":{"description":"Bash command to execute","type":"string"}},"required":["command"],"type":"object"},"name":"execute"}]"#
    );
    assert_eq!(body.get("stream").unwrap().to_text(), "true");
}

#[test]
fn contexts_of_hooks_are_joined() {
    let start = hook(HookAction::InjectContext("a".into()));
    let prompt = hook(HookAction::InjectContext("b".into()));
    assert_eq!(injected_context(&start, &prompt), "a\n\nb");
    assert_eq!(injected_context(&start, &[]), "a");
    assert_eq!(injected_context(&[], &prompt), "b");
    assert_eq!(injected_context(&[], &[]), "");
}

#[test]
fn choosing_a_session() {
    assert_eq!(choose_session(Some("s"), false, None), Ok(Some("s".into())));
    assert_eq!(
        choose_session(Some(""), false, None),
        Err("invalid --session id: session id is empty".into())
    );
    assert_eq!(choose_session(None, true, Some("n".into())), Ok(Some("n".into())));
    assert_eq!(choose_session(None, true, None), Ok(None));
    assert_eq!(choose_session(None, false, Some("n".into())), Ok(None));
    assert_eq!(active_session(Some("")), None);
    assert_eq!(active_session(Some("s")), Some("s".into()));
    assert_eq!(
        session_continuation_log("s", 3).to_text(),
        r#"{"kind":"session_continuation","loaded_messages":3,"session_id":"s"}"#
    );
    assert_eq!(loaded_note("s", 3), "[lazar] session=s loaded 3 prior messages");
    let m = starting_messages(vec![json("1")], "p");
    assert_eq!(m.len(), 2);
    assert_eq!(m[0].to_text(), "1");
    assert_eq!(m[1].to_text(), r#"{"content":"p","role":"user"}"#);
}

#[test]
fn sessions_end_once() {
    let base = json(r#"{"depth":0}"#);
    let mut end = SessionEnd::new(0, base.dup());
    assert_eq!(end.finish().unwrap().to_text(), r#"{"depth":0,"status":"error"}"#);
    assert!(end.finish().is_none());
    let mut end = SessionEnd::new(0, base.dup());
    end.mark_ok();
    assert_eq!(end.finish().unwrap().to_text(), r#"{"depth":0,"status":"ok"}"#);
    let mut end = SessionEnd::new(0, base.dup());
    end.mark_error("bad");
    assert_eq!(end.finish().unwrap().to_text(), r#"{"depth":0,"error":"bad","status":"error"}"#);
    let mut end = SessionEnd::new(1, base);
    assert!(end.finish().is_none());
}

#[test]
fn the_heartbeat() {
    assert_eq!(tick_start_log().to_text(), r#"{"kind":"tick_start"}"#);
    assert_eq!(tick_payload(5).to_text(), r#"{"ts_ms":5}"#);
    assert_eq!(
        tick_end_log(2, 7).to_text(),
        r#"{"duration_ms":7,"hooks_fired":2,"kind":"tick_end"}"#
    );
    assert_eq!(tick_end_note(2, 7), "[lazar] tick_end hooks_fired=2 duration=7ms");
    let r = HookResult {
        script: "/a".into(),
        action: HookAction::Continue,
        exit_code: -1,
        duration_ms: 4,
        timed_out: true,
    };
    assert_eq!(
        tick_hook_note(&r),
        "[lazar] tick_hook script=/a exit=-1 duration=4ms timed_out=true"
    );
}
