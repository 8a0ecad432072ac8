use lazar::claims::{
    can_check, check_claim, claim_debug_text, claim_target, expand_path, format_verify_banner,
    normalize_claim_value, parse_claim_line, parse_verify_blocks, report_to_event, verify_all,
    wanted_probe, ClaimResult, PathVars, Probe, ProbeKind, VerifyClaim, VerifyReport,
};
use lazar::fabrication::{
    count_tool_uses, extract_text, format_warning, is_scannable, scan, scan_checked, scan_lowered,
    should_flag, Suspicion, SuspicionKind,
};
use lazar::json::parse_json;

fn no_vars() -> PathVars {
    PathVars { home: None, lazar_home: None }
}

fn vars(home: &str, lazar_home: &str) -> PathVars {
    PathVars { home: Some(home.to_string()), lazar_home: Some(lazar_home.to_string()) }
}

fn suspicion(kind: SuspicionKind, text: &str) -> Suspicion {
    Suspicion { kind, matched_text: text.into() }
}

#[test]
fn scans_past_tense_actions() {
    let text = "I just rotated stream.jsonl and now compressed all archives.";
    let suspicions = scan(text);
    assert!(suspicions.iter().any(|s| s.kind == SuspicionKind::PastTenseAction));
}

#[test]
fn scans_total_time_pattern() {
    let text = "Total time: ~30 seconds. Workspace is clean.";
    let suspicions = scan(text);
    assert!(suspicions.iter().any(|s| s.kind == SuspicionKind::TotalTime));
}

#[test]
fn scans_checkmark_claim() {
    let text = "Result: ✅ Truly rotated";
    let suspicions = scan(text);
    assert!(suspicions.iter().any(|s| s.kind == SuspicionKind::CheckmarkClaim));
}

#[test]
fn scans_state_table() {
    let text = "| Check | Result |\n|---|---|\n| stream.jsonl | 0 bytes |";
    let suspicions = scan(text);
    assert!(suspicions.iter().any(|s| s.kind == SuspicionKind::StateTable));
}

#[test]
fn scans_recency_claim() {
    let text = "All updated within the last 5 minutes.";
    let suspicions = scan(text);
    assert!(suspicions.iter().any(|s| s.kind == SuspicionKind::Recency));
}

#[test]
fn benign_text_produces_no_suspicions() {
    let text = "Hello! Let me know what you'd like to work on.";
    let suspicions = scan(text);
    assert!(suspicions.is_empty());
}

#[test]
fn count_tool_uses_finds_blocks() {
    let content = parse_json(
        r#"[{"type": "text", "text": "hello"},
            {"type": "tool_use", "name": "execute", "input": {}},
            {"type": "tool_use", "name": "execute", "input": {}}]"#,
    )
    .unwrap();
    assert_eq!(count_tool_uses(&content), 2);
}

#[test]
fn count_tool_uses_zero_for_text_only() {
    let content = parse_json(r#"[{"type": "text", "text": "hi"}]"#).unwrap();
    assert_eq!(count_tool_uses(&content), 0);
}

#[test]
fn should_flag_state_table_with_no_tools() {
    let suspicions =
        vec![Suspicion { kind: SuspicionKind::StateTable, matched_text: "table".into() }];
    assert!(should_flag(&suspicions, 0));
}

#[test]
fn should_not_flag_when_many_tools_ran() {
    let suspicions = vec![Suspicion {
        kind: SuspicionKind::PastTenseAction,
        matched_text: "just rotated".into(),
    }];
    assert!(!should_flag(&suspicions, 5));
}

#[test]
fn should_flag_total_time_with_zero_tools() {
    let suspicions = vec![Suspicion {
        kind: SuspicionKind::TotalTime,
        matched_text: "Total time: ~30 seconds".into(),
    }];
    assert!(should_flag(&suspicions, 0));
}

#[test]
fn extract_text_concatenates_text_blocks() {
    let content = parse_json(
        r#"[{"type": "text", "text": "first"},
            {"type": "tool_use", "name": "execute", "input": {}},
            {"type": "text", "text": "second"}]"#,
    )
    .unwrap();
    let extracted = extract_text(&content);
    assert!(extracted.contains("first"));
    assert!(extracted.contains("second"));
}

#[test]
fn warning_format_is_loud() {
    let suspicions = vec![Suspicion {
        kind: SuspicionKind::CheckmarkClaim,
        matched_text: "✅ Truly rotated".into(),
    }];
    let warning = format_warning(&suspicions, 0);
    assert!(warning.contains("FABRICATION CHECK"));
    assert!(warning.contains("KERNEL WARNING"));
    assert!(warning.contains("✅ Truly rotated"));
}

#[test]
fn parse_verify_block_basic() {
    let text = "Some text\n[VERIFY]\nexists=/tmp/foo\nsize=/tmp/bar:0\n[/VERIFY]\nMore text.";
    let claims = parse_verify_blocks(text);
    assert_eq!(claims.len(), 2);
    assert!(matches!(claims[0], VerifyClaim::Exists(_)));
    match &claims[1] {
        VerifyClaim::Size(p, n) => {
            assert_eq!(p.as_str(), "/tmp/bar");
            assert_eq!(*n, 0);
        }
        _ => panic!("expected Size claim"),
    }
}

#[test]
fn parse_verify_block_with_bullets() {
    let text = "[VERIFY]\n- exists=/tmp/x\n* not_exists=/tmp/y\n[/VERIFY]";
    let claims = parse_verify_blocks(text);
    assert_eq!(claims.len(), 2);
}

#[test]
fn parse_verify_handles_multiple_blocks() {
    let text = "[VERIFY]\nexists=/a\n[/VERIFY]\nMiddle\n[VERIFY]\nexists=/b\n[/VERIFY]";
    let claims = parse_verify_blocks(text);
    assert_eq!(claims.len(), 2);
}

#[test]
fn parse_verify_ignores_unknown_keys() {
    let text = "[VERIFY]\nexists=/tmp/foo\nbogus=anything\n[/VERIFY]";
    let claims = parse_verify_blocks(text);
    assert_eq!(claims.len(), 1);
}

#[test]
fn check_exists_passes_for_real_path() {
    let claim = VerifyClaim::Exists("/tmp".into());
    let probe = Probe::Presence(std::path::Path::new("/tmp").exists());
    let result = check_claim(&claim, &probe, &no_vars());
    assert!(result.passed);
    assert_eq!(result.note, "exists");
}

#[test]
fn check_exists_fails_for_fake_path() {
    let claim = VerifyClaim::Exists("/this/does/not/exist/lazar".into());
    let probe = Probe::Presence(std::path::Path::new("/this/does/not/exist/lazar").exists());
    let result = check_claim(&claim, &probe, &no_vars());
    assert!(!result.passed);
    assert_eq!(result.note, "not found: /this/does/not/exist/lazar");
}

#[test]
fn check_size_validates_file_length() {
    let pass =
        check_claim(&VerifyClaim::Size("/tmp/f".into(), 5), &Probe::Size(Ok(5)), &no_vars());
    let fail =
        check_claim(&VerifyClaim::Size("/tmp/f".into(), 99), &Probe::Size(Ok(5)), &no_vars());
    assert!(pass.passed);
    assert!(!fail.passed);
    assert_eq!(pass.note, "actual size 5 bytes (expected 5)");
    assert_eq!(fail.note, "actual size 5 bytes (expected 99)");
}

#[test]
fn check_contains_finds_substring() {
    let seen = Probe::Text(Ok("hello lazar world".into()));
    let pass =
        check_claim(&VerifyClaim::Contains("/tmp/f".into(), "lazar".into()), &seen, &no_vars());
    let fail =
        check_claim(&VerifyClaim::Contains("/tmp/f".into(), "missing".into()), &seen, &no_vars());
    assert!(pass.passed);
    assert!(!fail.passed);
    assert_eq!(pass.note, "contains 'lazar'");
    assert_eq!(fail.note, "missing 'missing' in head 64KB");
}

#[test]
fn verify_report_all_passed_works() {
    let r = VerifyReport {
        claims: vec![ClaimResult {
            claim: VerifyClaim::Exists("/tmp".into()),
            passed: true,
            note: "ok".into(),
        }],
    };
    assert!(r.all_passed());
}

#[test]
fn normalize_dashes_replaces_unicode_hyphens() {
    let normalized = normalize_claim_value("/path/tui\u{2011}build/x");
    assert_eq!(normalized, "/path/tui-build/x");
    let normalized = normalize_claim_value("/path/foo\u{2013}bar");
    assert_eq!(normalized, "/path/foo-bar");
}

#[test]
fn normalize_strips_markdown_link_syntax() {
    let normalized = normalize_claim_value("/path/[file.sh](http://file.sh)");
    assert_eq!(normalized, "/path/file.sh");
}

#[test]
fn normalize_strips_backticks() {
    let normalized = normalize_claim_value("`/path/x`");
    assert_eq!(normalized, "/path/x");
}

#[test]
fn parse_claim_with_unicode_hyphen_normalizes() {
    let line = "exists=/path/tui\u{2011}build/x";
    let claim = parse_claim_line(line).expect("should parse");
    match claim {
        VerifyClaim::Exists(p) => {
            assert_eq!(p.as_str(), "/path/tui-build/x");
        }
        _ => panic!("expected Exists claim"),
    }
}

#[test]
fn parse_claim_with_markdown_link_normalizes() {
    let line = "exists=/path/[build.sh](http://build.sh)";
    let claim = parse_claim_line(line).expect("should parse");
    match claim {
        VerifyClaim::Exists(p) => {
            assert_eq!(p.as_str(), "/path/build.sh");
        }
        _ => panic!("expected Exists claim"),
    }
}

#[test]
fn may5_incident_phrases_are_caught() {
    let text = "Total time: ~30 seconds. Workspace is clean.";
    let suspicions = scan(text);
    assert!(should_flag(&suspicions, 0), "May 5 'Total time' phrase should flag with no tools");

    let text2 = "I just rotated the log and just compressed all archives.";
    let suspicions = scan(text2);
    assert!(should_flag(&suspicions, 0), "Multiple past-tense with no tools should flag");

    let text3 = "| Check | Result |\n|---|---|\n| stream.jsonl size | 0 bytes (was 8.2M) | ✅ Truly rotated |";
    let suspicions = scan(text3);
    assert!(should_flag(&suspicions, 0), "State-table fabrication should flag");
}

#[test]
fn suspicions_follow_the_text() {
    let text = "Within the last 3 days nothing. ✅ Done. I just moved it.";
    let found = scan(text);
    let kinds: Vec<SuspicionKind> = found.iter().map(|s| s.kind).collect();
    assert_eq!(
        kinds,
        vec![
            SuspicionKind::Recency,
            SuspicionKind::Recency,
            SuspicionKind::CheckmarkClaim,
            SuspicionKind::PastTenseAction
        ]
    );
    assert_eq!(found[3].matched_text, "just moved it.");
    assert_eq!(found[2].matched_text, "✅ Done. I just moved it.");
}

#[test]
fn windows_end_after_their_width() {
    let tail = "x".repeat(200);
    let found = scan(&format!("just moved {tail}"));
    assert_eq!(found.len(), 1);
    assert_eq!(found[0].matched_text.len(), 5 + 5 + 40);
    let found = scan(&format!("total time:{tail}"));
    assert_eq!(found[0].matched_text.len(), 60);
    let found = scan(&format!("✅ done{tail}"));
    assert_eq!(found[0].matched_text.len(), 80);
    let found = scan(&format!("in the last 5{tail}"));
    assert_eq!(found[0].matched_text.len(), 12 + 40);
}

#[test]
fn windows_end_between_characters() {
    let found = scan(&format!("total time:{}", "é".repeat(60)));
    assert_eq!(found[0].matched_text.len(), 61);
}

#[test]
fn a_trigger_counts_every_time_and_needs_a_verb() {
    assert_eq!(scan("just moved a, just moved b, just looked").len(), 2);
    assert_eq!(scan("Already FIXED.").len(), 1);
    assert!(scan("within the last days").is_empty());
}

#[test]
fn only_the_first_table_signal_counts() {
    let found = scan("a | 3 kb | b\nc | 4 bytes | d");
    assert_eq!(found.len(), 1);
    assert_eq!(found[0].matched_text, "c | 4 bytes | d");
}

#[test]
fn letters_that_grow_in_lower_case_are_noticed() {
    let text = "İİİİ total time: 3";
    assert!(text.to_lowercase().len() > text.len());
    let lower = text.to_lowercase();
    assert_eq!(is_scannable(text, &lower), text.is_char_boundary(lower.find("total").unwrap()));
    let text = "İé total time:";
    assert!(!is_scannable("é", "\u{300}total time:") || "é".is_char_boundary(2));
    assert!(!is_scannable("é", "ztotal time:"));
    assert!(scan_checked(text).is_some());
    assert!(scan_checked("I just fixed it").is_some());
}

#[test]
fn lower_case_comes_from_the_text() {
    assert_eq!(scan_checked("JUST MOVED").unwrap().len(), 1);
    assert_eq!(scan_lowered("JUST MOVED", "nothing here").len(), 0);
}

#[test]
fn capitals_do_not_hide_a_claim() {
    let text = " I just Rotated it.\nTotal time: 3s\n| a | 5 bytes | \nWithin the last 5 minutes ";
    let plain = scan(text);
    let loud = scan(&text.to_ascii_uppercase());
    assert_eq!(plain.len(), 5);
    assert_eq!(plain.len(), loud.len());
    for (a, b) in plain.iter().zip(&loud) {
        assert_eq!(a.kind, b.kind);
        assert_eq!(a.matched_text.to_ascii_uppercase(), b.matched_text);
    }
    assert_eq!(loud[0].matched_text, "JUST ROTATED IT.\nTOTAL TIME: 3S\n| A | 5 BYTES | \nWIT");
}

#[test]
fn flags_follow_the_number_of_tools() {
    let past = |n: usize| -> Vec<Suspicion> {
        (0..n).map(|_| suspicion(SuspicionKind::PastTenseAction, "just moved")).collect()
    };
    assert!(!should_flag(&[], 0));
    assert!(!should_flag(&[], 1));
    assert!(should_flag(&past(1), 0));
    assert!(should_flag(&past(2), 1));
    assert!(!should_flag(&past(1), 2));
    assert!(!should_flag(&past(2), 2));
    assert!(should_flag(&[suspicion(SuspicionKind::CheckmarkClaim, "x")], 1));
    assert!(should_flag(&[suspicion(SuspicionKind::TotalTime, "x")], 1));
    assert!(should_flag(&[suspicion(SuspicionKind::Recency, "x")], 0));
    assert!(!should_flag(&[suspicion(SuspicionKind::Recency, "x")], 2));
}

#[test]
fn warning_lists_eight_and_counts_the_rest() {
    let many: Vec<Suspicion> =
        (0..10).map(|i| suspicion(SuspicionKind::Recency, &format!("claim {i}"))).collect();
    let w = format_warning(&many, 1);
    assert!(w.starts_with("\n════"));
    assert!(w.contains("contains 10 pattern(s) that\n"));
    assert!(w.contains("\n1 tool(s) in this turn."));
    assert!(w.contains("  8. [recency] claim 7\n"));
    assert!(!w.contains("claim 8"));
    assert!(w.contains("  …and 2 more\n"));
    assert!(w.ends_with("════\n\n"));
    let long = suspicion(SuspicionKind::TotalTime, &"y".repeat(101));
    let w = format_warning(&[long], 0);
    assert!(w.contains(&format!("  1. [total_time] {}…\n", "y".repeat(100))));
    assert!(!w.contains("more\n"));
    let cut = suspicion(SuspicionKind::TotalTime, &format!("{}é!", "y".repeat(99)));
    let w = format_warning(&[cut], 0);
    assert!(w.contains(&format!("  1. [total_time] {}…\n", "y".repeat(99))));
}

#[test]
fn names_of_kinds() {
    assert_eq!(SuspicionKind::PastTenseAction.as_str(), "past_tense_action");
    assert_eq!(SuspicionKind::StateTable.as_str(), "state_table");
    assert_eq!(SuspicionKind::TotalTime.as_str(), "total_time");
    assert_eq!(SuspicionKind::CheckmarkClaim.as_str(), "checkmark_claim");
    assert_eq!(SuspicionKind::Recency.as_str(), "recency");
}

#[test]
fn text_of_content() {
    assert_eq!(extract_text(&parse_json(r#""plain""#).unwrap()), "plain");
    assert_eq!(extract_text(&parse_json("null").unwrap()), "");
    let content = parse_json(
        r#"[{"type":"text","text":""},{"type":"text","text":"a"},{"type":"image"},{"type":"text","text":"b"}]"#,
    )
    .unwrap();
    assert_eq!(extract_text(&content), "a\nb");
    assert_eq!(count_tool_uses(&parse_json(r#"{"type":"tool_use"}"#).unwrap()), 0);
}

#[test]
fn every_claim_key_is_known() {
    let line = |s: &str| parse_claim_line(s).unwrap();
    assert_eq!(line("exists = /a"), VerifyClaim::Exists("/a".into()));
    assert_eq!(line("absent=/a"), VerifyClaim::NotExists("/a".into()));
    assert_eq!(line("size=/a:12"), VerifyClaim::Size("/a".into(), 12));
    assert_eq!(line("size_at_least=/a : +12"), VerifyClaim::SizeAtLeast("/a".into(), 12));
    assert_eq!(line("size_min=/a:12"), VerifyClaim::SizeAtLeast("/a".into(), 12));
    assert_eq!(line("size_at_most=c:/a:12"), VerifyClaim::SizeAtMost("c:/a".into(), 12));
    assert_eq!(line("size_max=/a:12"), VerifyClaim::SizeAtMost("/a".into(), 12));
    assert_eq!(line("contains=/a: b:c "), VerifyClaim::Contains("/a".into(), "b:c".into()));
    assert_eq!(line("•mtime_within=/a:60"), VerifyClaim::MtimeWithin("/a".into(), 60));
    assert_eq!(
        line("size=/a:18446744073709551615"),
        VerifyClaim::Size("/a".into(), u64::MAX)
    );
    assert!(parse_claim_line("size=/a:18446744073709551616").is_none());
    assert!(parse_claim_line("size=/a:-1").is_none());
    assert!(parse_claim_line("size=/a").is_none());
    assert!(parse_claim_line("contains=/a").is_none());
    assert!(parse_claim_line("exists").is_none());
}

#[test]
fn an_open_block_holds_no_claims() {
    assert!(parse_verify_blocks("[VERIFY]\nexists=/a\n").is_empty());
    assert!(parse_verify_blocks("exists=/a\n").is_empty());
    let claims = parse_verify_blocks("[VERIFY]exists=/a[/VERIFY][VERIFY]\r\nexists=/b\r\n[/VERIFY]");
    assert_eq!(
        claims,
        vec![VerifyClaim::Exists("/a".into()), VerifyClaim::Exists("/b".into())]
    );
}

#[test]
fn normalization_details() {
    assert_eq!(normalize_claim_value(" ` /a ` "), "/a");
    assert_eq!(normalize_claim_value("“x”’s"), "\"x\"'s");
    assert_eq!(normalize_claim_value("[a](b"), "[a](b");
    assert_eq!(normalize_claim_value("[a] (b)"), "[a] (b)");
    assert_eq!(normalize_claim_value("x[a](b)y[c](d)"), "xayc");
    assert_eq!(normalize_claim_value("[a](u)/[b](v)"), "a/b");
    assert_eq!(normalize_claim_value("[x] [a](u) [y](z"), "[x] a [y](z");
    let all = "\u{2010}\u{2011}\u{2012}\u{2013}\u{2014}\u{2015}\u{2212}\u{FE58}\u{FE63}\u{FF0D}";
    assert_eq!(normalize_claim_value(all), "----------");
}

#[test]
fn paths_are_expanded() {
    let v = vars("/home/u", "/srv/lazar");
    assert_eq!(expand_path("~/x", &v), "/home/u/x");
    assert_eq!(expand_path("~", &v), "/home/u");
    assert_eq!(expand_path("$LAZAR_HOME/logs", &v), "/srv/lazar/logs");
    assert_eq!(expand_path("~//etc", &v), "/etc");
    assert_eq!(expand_path("~x", &v), "~x");
    assert_eq!(expand_path("~/x", &no_vars()), "~/x");
    let claim = VerifyClaim::NotExists("~/x".into());
    assert_eq!(claim_target(&claim, &v), "/home/u/x");
    let r = check_claim(&claim, &Probe::Presence(true), &v);
    assert_eq!((r.passed, r.note.as_str()), (false, "still present: /home/u/x"));
    let r = check_claim(&claim, &Probe::Presence(false), &v);
    assert_eq!((r.passed, r.note.as_str()), (true, "absent"));
}

#[test]
fn every_probe_is_judged() {
    let v = no_vars();
    let judge = |c: VerifyClaim, p: Probe| {
        assert!(can_check(&c, &p));
        let r = check_claim(&c, &p, &v);
        (r.passed, r.note)
    };
    assert_eq!(
        judge(VerifyClaim::SizeAtLeast("a".into(), 5), Probe::Size(Ok(4))),
        (false, "actual size 4 bytes (need >= 5)".to_string())
    );
    assert_eq!(
        judge(VerifyClaim::SizeAtLeast("a".into(), 5), Probe::Size(Ok(5))).0,
        true
    );
    assert_eq!(
        judge(VerifyClaim::SizeAtMost("a".into(), 5), Probe::Size(Ok(6))),
        (false, "actual size 6 bytes (need <= 5)".to_string())
    );
    assert_eq!(
        judge(VerifyClaim::Size("a".into(), 5), Probe::Size(Err("gone".into()))),
        (false, "stat failed: gone".to_string())
    );
    assert_eq!(
        judge(VerifyClaim::Contains("a".into(), "b".into()), Probe::Text(Err("gone".into()))),
        (false, "read failed: gone".to_string())
    );
    assert_eq!(
        judge(VerifyClaim::MtimeWithin("a".into(), 60), Probe::Age(Ok(Some(60)))),
        (true, "mtime 60s ago (need <= 60s)".to_string())
    );
    assert_eq!(
        judge(VerifyClaim::MtimeWithin("a".into(), 60), Probe::Age(Ok(Some(61)))).0,
        false
    );
    assert_eq!(
        judge(VerifyClaim::MtimeWithin("a".into(), 60), Probe::Age(Ok(None))),
        (false, "mtime in the future (clock skew)".to_string())
    );
    assert_eq!(
        judge(VerifyClaim::MtimeWithin("a".into(), 60), Probe::Age(Err("gone".into()))),
        (false, "stat failed: gone".to_string())
    );
    assert!(!can_check(&VerifyClaim::Exists("a".into()), &Probe::Size(Ok(1))));
    assert_eq!(wanted_probe(&VerifyClaim::Contains("a".into(), "b".into())), ProbeKind::Text);
    assert_eq!(wanted_probe(&VerifyClaim::MtimeWithin("a".into(), 1)), ProbeKind::Age);
}

#[test]
fn only_the_head_of_a_file_is_searched() {
    let v = no_vars();
    let mut text = "a".repeat(65_536);
    text.push_str("needle");
    let r = check_claim(
        &VerifyClaim::Contains("a".into(), "needle".into()),
        &Probe::Text(Ok(text)),
        &v,
    );
    assert!(!r.passed);
    let cut = Probe::Text(Ok(format!("{}é", "a".repeat(65_535))));
    for (needle, there) in [("a", true), ("aé", false), ("é", false)] {
        let claim = VerifyClaim::Contains("a".into(), needle.into());
        assert!(can_check(&claim, &cut));
        assert_eq!(check_claim(&claim, &cut, &v).passed, there);
    }
    let fits = Probe::Text(Ok(format!("{}éx", "a".repeat(65_534))));
    for (needle, there) in [("aé", true), ("éx", false)] {
        let claim = VerifyClaim::Contains("a".into(), needle.into());
        assert_eq!(check_claim(&claim, &fits, &v).passed, there);
    }
    let needle = format!("{}éé", "n".repeat(39));
    let r = check_claim(
        &VerifyClaim::Contains("a".into(), needle.clone()),
        &Probe::Text(Ok(needle)),
        &v,
    );
    assert!(r.passed);
    assert_eq!(r.note, format!("contains '{}…'", "n".repeat(39)));
    let needle = "n".repeat(41);
    let r = check_claim(
        &VerifyClaim::Contains("a".into(), needle.clone()),
        &Probe::Text(Ok(needle)),
        &v,
    );
    assert_eq!(r.note, format!("contains '{}…'", "n".repeat(40)));
}

#[test]
fn reports_count_and_show() {
    let claims = vec![
        VerifyClaim::Exists("/a \"b\"".into()),
        VerifyClaim::Size("/c".into(), 7),
        VerifyClaim::Contains("/d".into(), "x\ny".into()),
    ];
    let probes = vec![
        Probe::Presence(true),
        Probe::Size(Ok(8)),
        Probe::Text(Ok("x\ny".into())),
    ];
    let report = verify_all(&claims, &probes, &no_vars());
    assert_eq!(report.passed_count(), 2);
    assert_eq!(report.failed_count(), 1);
    assert!(report.any_failed());
    assert!(!report.all_passed());
    let banner = format_verify_banner(&report);
    assert!(banner.contains("❌ VERIFY FAILED — 1 of 3 kernel-side checks failed\n"));
    assert!(banner.contains("  ✓ Exists(\"/a \\\"b\\\"\") — exists\n"));
    assert!(banner.contains("  ✗ Size(\"/c\", 7) — actual size 8 bytes (expected 7)\n"));
    assert!(banner.contains("  ✓ Contains(\"/d\", \"x\\ny\") — contains 'x\ny'\n"));
    let event = report_to_event(&report);
    assert_eq!(event.get_index("passed_count"), 2);
    assert_eq!(event.get_index("failed_count"), 1);
    assert_eq!(event.get("all_passed").unwrap().to_text(), "false");
    assert_eq!(event.get("any_failed").unwrap().to_text(), "true");
    let listed = event.get("claims").unwrap().as_items().unwrap();
    assert_eq!(listed[1].get_text("claim"), Some("Size(\"/c\", 7)"));
    assert_eq!(listed[1].get_text("note"), Some("actual size 8 bytes (expected 7)"));
}

#[test]
fn quiet_banners() {
    let empty = VerifyReport::default();
    assert_eq!(format_verify_banner(&empty), "");
    assert!(!empty.all_passed());
    assert!(!empty.any_failed());
    let good =
        verify_all(&[VerifyClaim::Exists("/a".into())], &[Probe::Presence(true)], &no_vars());
    assert_eq!(
        format_verify_banner(&good),
        "\n  ✓ verify: 1/1 claims passed (kernel-checked)\n"
    );
}

#[test]
fn claims_are_written_like_debug_output() {
    let path = std::path::PathBuf::from("/a\tb");
    assert_eq!(
        claim_debug_text(&VerifyClaim::MtimeWithin("/a\tb".into(), 3)),
        format!("MtimeWithin({:?}, 3)", path)
    );
    assert_eq!(
        claim_debug_text(&VerifyClaim::Contains("/a\tb".into(), "é\"\u{7}".into())),
        format!("Contains({:?}, {:?})", path, "é\"\u{7}")
    );
    for (claim, name) in [
        (VerifyClaim::NotExists("x".into()), "NotExists(\"x\")"),
        (VerifyClaim::SizeAtLeast("x".into(), 1), "SizeAtLeast(\"x\", 1)"),
        (VerifyClaim::SizeAtMost("x".into(), 2), "SizeAtMost(\"x\", 2)"),
    ] {
        assert_eq!(claim_debug_text(&claim), name);
        assert_eq!(claim_debug_text(&claim), format!("{:?}", claim));
    }
}
