use lazar::hooks::{
    action_label, first_veto, hook_dir, hook_end_event, hook_outcome, hook_payload,
    hook_spawn_failed_event, hook_start_event, hook_timeout_secs, join_injected_contexts,
    last_transform_command, last_transform_output, parse_action, read_action, select_hooks,
    spawn_failed_result, spawn_failure_note, stderr_notice, DiscoveryCache, HookAction, HookEntry,
    HookEvent, HookResult,
};
use lazar::json::parse_json;
use lazar::sandbox::{hook_command, tool_command, ToolVars};

fn result(script: &str, action: HookAction) -> HookResult {
    HookResult {
        script: script.to_string(),
        action,
        exit_code: 0,
        duration_ms: 1,
        timed_out: false,
    }
}

#[test]
fn parse_action_continue_on_empty() {
    let action = parse_action(b"", HookEvent::PreTool, "test");
    assert!(matches!(action, HookAction::Continue));
}

#[test]
fn parse_action_continue_on_whitespace_only() {
    let action = parse_action(b"   \n\t  ", HookEvent::PreTool, "test");
    assert!(matches!(action, HookAction::Continue));
}

#[test]
fn parse_action_veto_pre_tool() {
    let action =
        parse_action(br#"{"action":"veto","reason":"denied"}"#, HookEvent::PreTool, "test");
    match action {
        HookAction::Veto { reason } => assert_eq!(reason, "denied"),
        _ => panic!("expected Veto"),
    }
}

#[test]
fn parse_action_veto_ignored_on_post_tool() {
    let action =
        parse_action(br#"{"action":"veto","reason":"too late"}"#, HookEvent::PostTool, "test");
    assert!(matches!(action, HookAction::Continue));
}

#[test]
fn parse_action_transform_command() {
    let action =
        parse_action(br#"{"action":"transform","command":"ls -la"}"#, HookEvent::PreTool, "test");
    match action {
        HookAction::TransformCommand(cmd) => assert_eq!(cmd, "ls -la"),
        _ => panic!("expected TransformCommand"),
    }
}

#[test]
fn parse_action_transform_output() {
    let action = parse_action(
        br#"{"action":"transform","output":"redacted"}"#,
        HookEvent::PostTool,
        "test",
    );
    match action {
        HookAction::TransformOutput(out) => assert_eq!(out, "redacted"),
        _ => panic!("expected TransformOutput"),
    }
}

#[test]
fn parse_action_invalid_json_falls_back_to_continue() {
    let action = parse_action(b"not json", HookEvent::PreTool, "test");
    assert!(matches!(action, HookAction::Continue));
}

#[test]
fn parse_action_unknown_action_falls_back_to_continue() {
    let action = parse_action(br#"{"action":"explode"}"#, HookEvent::PreTool, "test");
    assert!(matches!(action, HookAction::Continue));
}

#[test]
fn helpers_pick_correct_results() {
    let results = vec![
        result("a", HookAction::Continue),
        result("b", HookAction::TransformCommand("first".into())),
        result("c", HookAction::TransformCommand("last".into())),
    ];
    assert_eq!(last_transform_command(&results), Some("last"));
    assert_eq!(first_veto(&results), None);
}

#[test]
fn join_injected_contexts_skips_empty_and_separates() {
    let results = vec![
        result("a", HookAction::InjectContext("first".into())),
        result("b", HookAction::InjectContext("".into())),
        result("c", HookAction::InjectContext("third".into())),
    ];
    assert_eq!(join_injected_contexts(&results), "first\n\nthird");
}

#[test]
fn one_veto_is_enough() {
    let results = vec![
        result("a", HookAction::TransformCommand("x".into())),
        result("b", HookAction::Veto { reason: "no".into() }),
        result("c", HookAction::Veto { reason: "never".into() }),
    ];
    assert_eq!(first_veto(&results), Some("no"));
    assert_eq!(results[1].veto_reason(), Some("no"));
    assert_eq!(results[0].veto_reason(), None);
    assert_eq!(results[0].transform_command(), Some("x"));
    let results = vec![
        result("a", HookAction::TransformOutput("1".into())),
        result("b", HookAction::TransformOutput("2".into())),
        result("c", HookAction::Continue),
    ];
    assert_eq!(last_transform_output(&results), Some("2"));
    assert_eq!(results[0].transform_output(), Some("1"));
    assert_eq!(results[0].inject_context(), None);
}

#[test]
fn actions_outside_their_events_are_warned_of() {
    let warned = |stdout: &[u8], event: HookEvent| {
        let r = read_action(stdout, event, "s.sh");
        assert!(matches!(r.action, HookAction::Continue));
        r.warning.unwrap()
    };
    assert_eq!(
        warned(br#"{"action":"veto"}"#, HookEvent::Tick),
        "[lazar] WARN: hook s.sh returned 'veto' on event tick; veto is pre-tool only — ignoring"
    );
    assert_eq!(
        warned(br#"{"action":"transform","command":"x"}"#, HookEvent::PostTool),
        "[lazar] WARN: hook s.sh returned 'transform.command' on event post-tool; pre-tool only — ignoring"
    );
    assert_eq!(
        warned(br#"{"action":"transform","output":"x"}"#, HookEvent::PreTool),
        "[lazar] WARN: hook s.sh returned 'transform.output' on event pre-tool; post-tool only — ignoring"
    );
    assert_eq!(
        warned(br#"{"action":"transform"}"#, HookEvent::PreTool),
        "[lazar] WARN: hook s.sh returned 'transform' without command/output; treating as Continue"
    );
    assert_eq!(
        warned(br#"{"action":"inject","context":"x"}"#, HookEvent::AgentStop),
        "[lazar] WARN: hook s.sh returned 'inject' on event agent-stop; only session-start/user-prompt — ignoring"
    );
    assert_eq!(
        warned(br#"{"action":"explode"}"#, HookEvent::PreTool),
        "[lazar] WARN: hook s.sh returned unknown action 'explode'; treating as Continue"
    );
    assert_eq!(
        warned(b"\xff\xfe", HookEvent::PreTool),
        "[lazar] WARN: hook s.sh (pre-tool) emitted non-UTF8 stdout; treating as Continue"
    );
    let bad = serde_json::from_str::<serde_json::Value>("not json").unwrap_err();
    assert_eq!(
        warned(b" not json\n", HookEvent::PreTool),
        format!("[lazar] WARN: hook s.sh (pre-tool) emitted invalid JSON ({bad}); treating as Continue")
    );
}

#[test]
fn defaults_of_actions() {
    match parse_action(br#"{"action":"veto"}"#, HookEvent::PreTool, "t") {
        HookAction::Veto { reason } => assert_eq!(reason, "vetoed by hook"),
        _ => panic!("expected Veto"),
    }
    match parse_action(br#"{"action":"inject"}"#, HookEvent::SessionStart, "t") {
        HookAction::InjectContext(c) => assert_eq!(c, ""),
        _ => panic!("expected InjectContext"),
    }
    let r = read_action(br#"{"action":7}"#, HookEvent::PreTool, "t");
    assert!(matches!(r.action, HookAction::Continue));
    assert!(r.warning.is_none());
    let r = read_action(br#"[1]"#, HookEvent::PreTool, "t");
    assert!(r.warning.is_none());
}

#[test]
fn failed_hooks_change_nothing() {
    let veto = br#"{"action":"veto","reason":"no"}"#;
    let good = hook_outcome(veto, 0, false, HookEvent::PreTool, "s");
    assert_eq!(action_label(&good.action), "veto");
    let failed = hook_outcome(veto, 3, false, HookEvent::PreTool, "s");
    assert_eq!(action_label(&failed.action), "continue");
    assert_eq!(
        failed.warning.as_deref(),
        Some("[lazar] WARN: hook s (pre-tool) exited with code 3; treating as Continue")
    );
    let killed = hook_outcome(veto, -1, true, HookEvent::PreTool, "s");
    assert_eq!(action_label(&killed.action), "continue");
    assert_eq!(
        killed.warning.as_deref(),
        Some("[lazar] WARN: hook s (pre-tool) timed out; treating as Continue")
    );
}

#[test]
fn labels_and_names() {
    assert_eq!(action_label(&HookAction::TransformCommand("".into())), "transform_command");
    assert_eq!(action_label(&HookAction::TransformOutput("".into())), "transform_output");
    assert_eq!(action_label(&HookAction::InjectContext("".into())), "inject");
    let names = [
        (HookEvent::SessionStart, "session-start"),
        (HookEvent::UserPrompt, "user-prompt"),
        (HookEvent::PreTool, "pre-tool"),
        (HookEvent::PostTool, "post-tool"),
        (HookEvent::SessionEnd, "session-end"),
        (HookEvent::LogRotation, "log-rotation"),
        (HookEvent::AgentStop, "agent-stop"),
        (HookEvent::Tick, "tick"),
    ];
    for (event, name) in names {
        assert_eq!(event.as_str(), name);
        assert_eq!(hook_dir("/h", event), format!("/h/hooks/{name}.d"));
    }
}

#[test]
fn hooks_fire_in_lexical_order() {
    let entry = |name: &str, is_file: bool, executable: bool| HookEntry {
        name: Some(name.to_string()),
        is_file,
        executable,
    };
    let entries = vec![
        entry("99-last.sh", true, true),
        entry("01-first.sh", true, true),
        entry("00-example.sh.disabled", true, true),
        entry(".hidden", true, true),
        entry("plain.sh", true, false),
        entry("dir", false, true),
        HookEntry { name: None, is_file: true, executable: true },
        entry("01-first", true, true),
        entry("é.sh", true, true),
        entry("Z.sh", true, true),
    ];
    let names = select_hooks(&entries);
    assert_eq!(names, vec!["01-first", "01-first.sh", "99-last.sh", "Z.sh", "é.sh"]);
    let mut sorted = names.clone();
    sorted.sort();
    assert_eq!(names, sorted);
}

#[test]
fn discovery_is_kept_per_home() {
    let mut cache = DiscoveryCache::new("/h");
    assert_eq!(cache.lookup("/h", HookEvent::Tick), None);
    cache.store(HookEvent::Tick, vec!["a".into()]);
    cache.store(HookEvent::PreTool, vec![]);
    assert_eq!(cache.lookup("/h", HookEvent::Tick), Some(vec!["a".to_string()]));
    assert_eq!(cache.lookup("/h", HookEvent::PreTool), Some(vec![]));
    assert_eq!(cache.lookup("/h", HookEvent::PostTool), None);
    cache.store(HookEvent::Tick, vec!["b".into()]);
    assert_eq!(cache.lookup("/h", HookEvent::Tick), Some(vec!["b".to_string()]));
    assert_eq!(cache.lookup("/other", HookEvent::Tick), None);
    assert_eq!(cache.lookup("/h", HookEvent::Tick), None);
}

#[test]
fn payloads_are_stamped() {
    let payload = parse_json(r#"{"depth":0,"event":"x"}"#).unwrap();
    let p = hook_payload(&payload, HookEvent::PreTool, 17, "/h");
    assert_eq!(
        p.to_text(),
        r#"{"depth":0,"event":"pre-tool","lazar_home":"/h","ts_ms":17}"#
    );
    let list = parse_json("[1]").unwrap();
    assert_eq!(hook_payload(&list, HookEvent::PreTool, 17, "/h").to_text(), "[1]");
}

#[test]
fn hook_events_are_logged() {
    assert_eq!(
        hook_start_event(HookEvent::Tick, "a.sh").to_text(),
        r#"{"event":"tick","kind":"hook_start","script":"a.sh"}"#
    );
    assert_eq!(
        hook_end_event(HookEvent::Tick, "a.sh", &HookAction::Continue, -1, 12, true).to_text(),
        r#"{"action":"continue","duration_ms":12,"event":"tick","exit_code":-1,"kind":"hook_end","script":"a.sh","timed_out":true}"#
    );
    let note = spawn_failure_note("gone");
    assert_eq!(note, "hook spawn failed: gone");
    assert_eq!(
        hook_spawn_failed_event(HookEvent::Tick, "a.sh", 3, &note).to_text(),
        r#"{"action":"continue","duration_ms":3,"event":"tick","exit_code":-1,"kind":"hook_end","note":"hook spawn failed: gone","script":"a.sh"}"#
    );
    let r = spawn_failed_result("/h/a.sh", 3);
    assert_eq!((r.script.as_str(), r.exit_code, r.duration_ms, r.timed_out), ("/h/a.sh", -1, 3, false));
    assert_eq!(action_label(&r.action), "continue");
}

#[test]
fn error_output_is_shown() {
    assert_eq!(stderr_notice(b"", HookEvent::Tick, "a.sh"), None);
    assert_eq!(
        stderr_notice(b"oops \n\n", HookEvent::Tick, "a.sh").as_deref(),
        Some("[lazar] hook a.sh stderr (tick):\noops")
    );
    assert_eq!(
        stderr_notice(b"\xff!", HookEvent::Tick, "a.sh").as_deref(),
        Some("[lazar] hook a.sh stderr (tick):\n\u{fffd}!")
    );
}

#[test]
fn timeouts_of_hooks() {
    assert_eq!(hook_timeout_secs(None), 5);
    assert_eq!(hook_timeout_secs(Some("9")), 9);
    assert_eq!(hook_timeout_secs(Some("0")), 5);
    assert_eq!(hook_timeout_secs(Some("x")), 5);
}

#[test]
fn hook_commands() {
    let c = hook_command("/h", "(version 1)", "/h/hooks/tick.d/a", HookEvent::Tick, "{\"é\":1}", &None, &Some("C".into()));
    assert_eq!(
        c.args,
        vec![
            "-D", "SKILLS_PATH=/h/skills", "-D", "MEMORY_PATH=/h/memory", "-D",
            "WORKSPACE_PATH=/h/workspace", "-D", "LOGS_PATH=/h/logs", "-p", "(version 1)",
            "/bin/bash", "/h/hooks/tick.d/a"
        ]
    );
    assert_eq!(c.cwd, "/h/workspace");
    let get = |k: &str| c.env.iter().find(|p| p.0 == k).map(|p| p.1.as_str());
    assert_eq!(get("HOME"), Some("/h"));
    assert_eq!(get("LAZAR_LOGS"), Some("/h/logs"));
    assert_eq!(get("LAZAR_HOOK_EVENT"), Some("tick"));
    assert_eq!(get("LAZAR_HOOK_PAYLOAD_LEN"), Some("8"));
    assert_eq!(get("TERM"), Some("xterm-256color"));
    assert_eq!(get("LANG"), Some("C"));
    assert_eq!(get("ANTHROPIC_API_KEY"), None);
    assert_eq!(c.env.len(), 11);
}

#[test]
fn tool_commands() {
    let mut vars = ToolVars {
        term: Some("vt100".into()),
        lang: None,
        depth: Some("2".into()),
        model: Some("m".into()),
        inherit_key: Some("0".into()),
        api_key: Some("k".into()),
        base_url: None,
    };
    let c = tool_command("/h", "p", "ls", &vars);
    assert_eq!(c.args[10..], ["/bin/bash".to_string(), "-c".to_string(), "ls".to_string()]);
    let get = |c: &lazar::sandbox::SandboxCommand, k: &str| {
        c.env.iter().find(|p| p.0 == k).map(|p| p.1.clone())
    };
    assert_eq!(get(&c, "LAZAR_DEPTH"), Some("3".into()));
    assert_eq!(get(&c, "LAZAR_TOOL_ENV"), Some("1".into()));
    assert_eq!(get(&c, "TERM"), Some("vt100".into()));
    assert_eq!(get(&c, "LANG"), Some("en_US.UTF-8".into()));
    assert_eq!(get(&c, "LAZAR_MODEL"), Some("m".into()));
    assert_eq!(get(&c, "ANTHROPIC_API_KEY"), None);
    vars.inherit_key = Some("yes".into());
    let c = tool_command("/h", "p", "ls", &vars);
    assert_eq!(get(&c, "ANTHROPIC_API_KEY"), Some("k".into()));
    assert_eq!(get(&c, "LAZAR_TOOL_INHERIT_ANTHROPIC_API_KEY"), Some("1".into()));
    assert_eq!(get(&c, "ANTHROPIC_BASE_URL"), None);
}
