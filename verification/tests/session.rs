use lazar::json::{parse_json, Json};
use lazar::logs::{mirrors_to_session, stream_line};
use lazar::session::{
    find_newest_session, history_cap, is_mirrored, load_messages, merge_messages,
    messages_from_events, read_events, serialized_size, session_line, session_log_path,
    truncate_to_byte_cap, validate_session_id, SessionEntry,
};

fn json(s: &str) -> Json {
    parse_json(s).unwrap()
}

fn shown(v: &[Json]) -> Vec<String> {
    v.iter().map(|m| m.to_text()).collect()
}

fn message(role: &str, content: &str) -> Json {
    json(&format!(r#"{{"role":"{role}","content":"{content}"}}"#))
}

#[test]
fn validate_session_id_accepts_simple_ids() {
    assert!(validate_session_id("abc").is_ok());
    assert!(validate_session_id("session-123").is_ok());
    assert!(validate_session_id("tui_chat.456").is_ok());
    assert!(validate_session_id("AbC-DeF_123").is_ok());
}

#[test]
fn validate_session_id_rejects_bad_chars() {
    assert!(validate_session_id("with/slash").is_err());
    assert!(validate_session_id("with space").is_err());
    assert!(validate_session_id("with\\backslash").is_err());
    assert!(validate_session_id("with$dollar").is_err());
    assert!(validate_session_id("").is_err());
}

#[test]
fn validate_session_id_rejects_path_traversal() {
    assert!(validate_session_id("..").is_err());
    assert!(validate_session_id("..foo").is_err());
    assert!(validate_session_id("foo..").is_err());
    assert!(validate_session_id(".hidden").is_err());
}

#[test]
fn validate_session_id_rejects_too_long() {
    let too_long: String = "a".repeat(65);
    assert!(validate_session_id(&too_long).is_err());
    let just_right: String = "a".repeat(64);
    assert!(validate_session_id(&just_right).is_ok());
}

#[test]
fn truncate_to_byte_cap_keeps_recent_messages() {
    let cap = history_cap(Some("200"));
    let messages = vec![
        message("user", "old user 1"),
        message("assistant", "old asst 1"),
        message("user", "recent user"),
        message("assistant", "recent asst"),
    ];
    let result = truncate_to_byte_cap(messages, cap);
    assert!(serialized_size(&result) <= 200 || result.len() == 1);
    if !result.is_empty() {
        assert_eq!(result[0].get_text("role"), Some("user"));
    }
}

#[test]
fn truncate_to_byte_cap_strips_leading_assistant_after_drop() {
    let cap = history_cap(Some("100"));
    let messages = vec![
        message("user", &"x".repeat(60)),
        message("assistant", &"y".repeat(60)),
        message("user", "z"),
    ];
    let result = truncate_to_byte_cap(messages, cap);
    if !result.is_empty() {
        assert_eq!(result[0].get_text("role"), Some("user"));
    }
    assert_eq!(shown(&result), shown(&[message("user", "z")]));
}

#[test]
fn reasons_for_bad_ids() {
    let why = |id: &str| validate_session_id(id).unwrap_err();
    assert_eq!(why(""), "session id is empty");
    assert_eq!(why(&"é".repeat(33)), "session id too long (66 > 64 chars)");
    assert_eq!(why(".x"), "session id cannot start with '.'");
    assert_eq!(why("a..b"), "session id cannot contain '..'");
    assert_eq!(
        why("a\tb"),
        "session id contains invalid character '\\t' (allowed: a-z A-Z 0-9 - _ .)"
    );
    assert_eq!(
        why("a'b"),
        format!("session id contains invalid character {:?} (allowed: a-z A-Z 0-9 - _ .)", '\'')
    );
}

#[test]
fn session_paths() {
    assert_eq!(session_log_path("/h", "s1"), "/h/logs/sessions/s1.jsonl");
    assert_eq!(session_log_path("/h/", "s1"), "/h/logs/sessions/s1.jsonl");
}

#[test]
fn the_newest_session_is_found() {
    let entry = |name: &str, t: Option<i128>| SessionEntry {
        name: Some(name.to_string()),
        is_file: true,
        modified_nanos: t,
    };
    assert_eq!(find_newest_session(&[]), None);
    let mut entries = vec![
        entry("a.jsonl", Some(5)),
        entry("b.jsonl", Some(9)),
        entry("c.jsonl", Some(9)),
        entry("d.jsonl", Some(-1)),
        entry("e.jsonl", None),
        entry("f.txt", Some(99)),
        entry("g", Some(99)),
        entry(".jsonl", Some(99)),
        entry("bad name.jsonl", Some(99)),
        entry("x.y.jsonl", Some(8)),
    ];
    assert_eq!(find_newest_session(&entries).as_deref(), Some("b"));
    entries.push(SessionEntry { name: Some("h.jsonl".into()), is_file: false, modified_nanos: Some(100) });
    entries.push(SessionEntry { name: None, is_file: true, modified_nanos: Some(100) });
    assert_eq!(find_newest_session(&entries).as_deref(), Some("b"));
    entries.push(entry("x.z.jsonl", Some(10)));
    assert_eq!(find_newest_session(&entries).as_deref(), Some("x.z"));
}

#[test]
fn lines_carry_the_time() {
    assert_eq!(session_line(&json(r#"{"kind":"user"}"#), 7), r#"{"kind":"user","ts_ms":7}"#);
    assert_eq!(
        session_line(&json(r#"{"kind":"user","ts_ms":1}"#), 7),
        r#"{"kind":"user","ts_ms":1}"#
    );
    assert_eq!(
        stream_line(&json(r#"{"kind":"user","ts_ms":1}"#), 7),
        r#"{"kind":"user","ts_ms":7}"#
    );
    assert_eq!(session_line(&json("[1]"), 7), "[1]");
}

#[test]
fn only_the_conversation_is_mirrored() {
    for kind in ["user", "assistant", "tool_result", "invoke_start", "invoke_end"] {
        assert!(is_mirrored(&json(&format!(r#"{{"kind":"{kind}"}}"#))));
    }
    for kind in ["hook_start", "hook_end", "", "User"] {
        assert!(!is_mirrored(&json(&format!(r#"{{"kind":"{kind}"}}"#))));
    }
    assert!(!is_mirrored(&json("{}")));
    let user = json(r#"{"kind":"user"}"#);
    assert!(mirrors_to_session(&user, Some("s")));
    assert!(!mirrors_to_session(&user, Some("")));
    assert!(!mirrors_to_session(&user, None));
}

#[test]
fn what_is_written_is_read_back() {
    let events = vec![
        json(r#"{"kind":"invoke_start"}"#),
        json(r#"{"kind":"user","content":"a\nb \u0000 é"}"#),
        json(r#"{"kind":"assistant","content":[{"type":"tool_use","id":"t1"}]}"#),
        json(r#"{"kind":"tool_result","tool_use_id":"t1","content":"out"}"#),
        json(r#"{"kind":"tool_result","tool_use_id":"t2","content":-5}"#),
        json(r#"{"kind":"assistant","content":"done"}"#),
    ];
    let mut log: Vec<u8> = Vec::new();
    for (i, e) in events.iter().enumerate() {
        log.extend_from_slice(session_line(e, i as u64).as_bytes());
        log.push(b'\n');
    }
    let read = read_events(&log);
    assert_eq!(read.len(), events.len());
    assert_eq!(read[1].get_text("content"), Some("a\nb \u{0} é"));
    assert_eq!(read[4].get_index("ts_ms"), 4);
    assert_eq!(shown(&messages_from_events(&read)), shown(&messages_from_events(&events)));
    let messages = load_messages(&log, 200_000);
    let roles: Vec<Option<&str>> = messages.iter().map(|m| m.get_text("role")).collect();
    assert_eq!(roles, vec![Some("user"), Some("assistant"), Some("user"), Some("assistant")]);
    assert_eq!(
        messages[2].to_text(),
        r#"{"content":[{"content":"out","tool_use_id":"t1","type":"tool_result"},{"content":-5,"tool_use_id":"t2","type":"tool_result"}],"role":"user"}"#
    );
}

#[test]
fn bad_lines_are_skipped() {
    let mut log: Vec<u8> = Vec::new();
    log.extend_from_slice(b"\n  \nnot json\n\xff\xfe\n{\"kind\":\"user\",\"content\":\"x\"}\r\n");
    log.extend_from_slice(b"{\"kind\":\"tool_result\",\"content\":\"no id\"}\n");
    log.extend_from_slice(b"{\"kind\":\"assistant\",\"content\":\"y\"}");
    let messages = load_messages(&log, 200_000);
    assert_eq!(shown(&messages), shown(&[message("user", "x"), message("assistant", "y")]));
    assert!(load_messages(b"", 200_000).is_empty());
}

fn logged(lines: &[&str]) -> Vec<u8> {
    let mut log: Vec<u8> = Vec::new();
    for line in lines {
        log.extend_from_slice(line.as_bytes());
        log.push(b'\n');
    }
    log
}

#[test]
fn neighbours_of_one_role_are_merged() {
    let log = logged(&[
        r#"{"kind":"user","content":"a"}"#,
        r#"{"kind":"user","content":"b"}"#,
        r#"{"kind":"assistant","content":[{"type":"tool_use","id":"t"}]}"#,
        r#"{"kind":"assistant","content":"c"}"#,
        r#"{"kind":"tool_result","tool_use_id":"t","content":"out"}"#,
        r#"{"kind":"user","content":"d"}"#,
        r#"{"kind":"assistant","content":"e"}"#,
    ]);
    let expected = [
        r#"{"content":[{"text":"a","type":"text"},{"text":"b","type":"text"}],"role":"user"}"#,
        r#"{"content":[{"id":"t","type":"tool_use"},{"text":"c","type":"text"}],"role":"assistant"}"#,
        r#"{"content":[{"content":"out","tool_use_id":"t","type":"tool_result"},{"text":"d","type":"text"}],"role":"user"}"#,
        r#"{"content":"e","role":"assistant"}"#,
    ];
    let texts: Vec<String> = load_messages(&log, 200_000).iter().map(|m| m.to_text()).collect();
    assert_eq!(texts, expected);
    assert_eq!(merge_messages(&[]).len(), 0);
    let odd = [json(r#"{"role":"user","content":1}"#), json(r#"{"role":"user"}"#)];
    assert_eq!(merge_messages(&odd)[0].to_text(), r#"{"content":[1,null],"role":"user"}"#);
}

#[test]
fn a_history_over_the_cap_is_not_loaded() {
    let log = logged(&[r#"{"kind":"user","content":"abc"}"#]);
    let whole = r#"[{"content":"abc","role":"user"}]"#.len();
    assert_eq!(load_messages(&log, whole).len(), 1);
    assert!(load_messages(&log, whole - 1).is_empty());
    assert!(load_messages(&log, 1).is_empty());
    let answer = logged(&[r#"{"kind":"assistant","content":"abc"}"#]);
    assert!(load_messages(&answer, 200_000).is_empty());
}

#[test]
fn a_single_message_is_kept_whatever_its_size() {
    let long = message("user", &"x".repeat(500));
    let kept = truncate_to_byte_cap(vec![message("assistant", "a"), long], 10);
    assert_eq!(shown(&kept), shown(&[message("user", &"x".repeat(500))]));
    assert!(truncate_to_byte_cap(vec![message("assistant", "a")], 10).is_empty());
}

#[test]
fn sizes_are_those_of_the_text() {
    let messages = vec![message("user", "é"), message("assistant", "b")];
    let expected = serde_json::to_string(&serde_json::from_str::<serde_json::Value>(
        r#"[{"role":"user","content":"é"},{"role":"assistant","content":"b"}]"#,
    ).unwrap()).unwrap();
    assert_eq!(serialized_size(&messages), expected.len());
    assert_eq!(serialized_size(&vec![]), 2);
}

#[test]
fn caps_of_the_history() {
    assert_eq!(history_cap(None), 200_000);
    assert_eq!(history_cap(Some("17")), 17);
    assert_eq!(history_cap(Some("0")), 200_000);
    assert_eq!(history_cap(Some("-1")), 200_000);
}
