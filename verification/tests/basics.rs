use lazar::indexed::IndexMap;
use lazar::json::{json_int, parse_json, Json};
use lazar::numbers::{decimal_text, parse_number, signed_text};
use lazar::offsets::{byte_len, ceil_of, floor_of, slice_text};
use lazar::text::{
    chars_of, pieces_of, string_of, text_begins_with, text_contains, text_ends_with, trimmed,
    CharClass,
};

#[test]
fn white_space_is_that_of_std() {
    for n in 0..=0x10FFFFu32 {
        if let Some(c) = char::from_u32(n) {
            assert_eq!(CharClass::White.has(c), c.is_whitespace(), "{n:x}");
        }
    }
}

#[test]
fn trimming_agrees_with_std() {
    for s in ["", "  ", " a b ", "\u{a0}x\u{3000}", "\r\ny\t", "z"] {
        assert_eq!(trimmed(s), s.trim());
        assert_eq!(trimmed(&trimmed(s)), trimmed(s));
    }
}

#[test]
fn searching_agrees_with_std() {
    for s in ["", "abc", "aab", "ébc", "ababab"] {
        for t in ["", "a", "ab", "b", "é", "abc", "bab"] {
            assert_eq!(text_contains(s, t), s.contains(t));
            assert_eq!(text_begins_with(s, t), s.starts_with(t));
            assert_eq!(text_ends_with(s, t), s.ends_with(t));
        }
        let pieces = pieces_of(&chars_of(s), 'b');
        let expected: Vec<&str> = s.split('b').collect();
        assert_eq!(pieces, expected);
        assert_eq!(string_of(&chars_of(s)), s);
    }
}

#[test]
fn numbers_agree_with_std() {
    for n in [0u128, 7, 10, 99, 100, 12345, u64::MAX as u128, u128::MAX] {
        assert_eq!(decimal_text(n), n.to_string());
    }
    for i in [0i32, -1, 42, i32::MIN, i32::MAX] {
        assert_eq!(signed_text(i), i.to_string());
    }
    for s in ["0", "+7", "007", "", "+", "-1", " 1", "1 ", "18446744073709551615", "18446744073709551616", "1e3", "٣"] {
        assert_eq!(parse_number(s, u64::MAX), s.parse::<u64>().ok(), "{s}");
        assert_eq!(parse_number(s, u32::MAX as u64), s.parse::<u32>().ok().map(|n| n as u64), "{s}");
    }
}

#[test]
fn boundaries_of_characters() {
    let s = "aé✅z";
    assert_eq!(byte_len(s), 7);
    assert_eq!((0..=7).map(|i| floor_of(s, i)).collect::<Vec<_>>(), vec![0, 1, 1, 3, 3, 3, 6, 7]);
    assert_eq!((0..=7).map(|i| ceil_of(s, i)).collect::<Vec<_>>(), vec![0, 1, 3, 3, 6, 6, 6, 7]);
    assert_eq!(floor_of(s, 100), 7);
    assert_eq!(slice_text(s, 1, 6), "é✅");
}

#[test]
fn json_is_read_and_written() {
    let text = r#"{"a":[1,-2,0.5,true,null,"x\n"],"b":{}}"#;
    let v = parse_json(text).unwrap();
    assert_eq!(v.to_text(), text);
    let items = v.get("a").unwrap().as_items().unwrap();
    assert!(matches!(items[0], Json::Unsigned(1)));
    assert!(matches!(items[1], Json::Negative(-2)));
    assert!(matches!(items[2], Json::Fraction(_)));
    assert!(matches!(items[3], Json::Bool(true)));
    assert!(matches!(items[4], Json::Null));
    assert_eq!(items[5].as_text(), Some("x\n"));
    assert_eq!(v.dup().to_text(), text);
    assert!(v.get("c").is_none());
    assert!(items[0].get("a").is_none());
    assert!(parse_json("{").is_err());
    assert!(matches!(parse_json("18446744073709551615"), Ok(Json::Unsigned(u64::MAX))));
    assert!(matches!(parse_json("18446744073709551616"), Ok(Json::Fraction(_))));
    assert_eq!(json_int(5).to_text(), "5");
}

#[test]
fn the_later_entry_counts() {
    let mut v = parse_json(r#"{"a":1,"a":2}"#).unwrap();
    assert_eq!(v.get_index("a"), 2);
    v.set("a", Json::Unsigned(3));
    assert_eq!(v.get_index("a"), 3);
    assert_eq!(v.to_text(), r#"{"a":3}"#);
    let mut n = Json::Null;
    n.set("a", Json::Null);
    assert!(matches!(n, Json::Null));
    assert_eq!(parse_json(r#"{"a":-1}"#).unwrap().get_index("a"), 0);
    assert!(v.has("a", "x") == false);
}

#[test]
fn deep_values_are_read_back_up_to_the_limit() {
    let deep = |n: usize| format!("{}{}", "[".repeat(n), "]".repeat(n));
    assert_eq!(parse_json(&deep(127)).unwrap().to_text(), deep(127));
    assert!(parse_json(&deep(128)).is_err());
}

#[test]
fn indexed_values_stay_in_order() {
    let mut m: IndexMap<String> = IndexMap::new();
    for (i, s) in [(5u64, "e"), (1, "a"), (3, "c"), (5, "E"), (0, "z")] {
        m.put(i, s.to_string());
    }
    let all: Vec<&str> = (0..m.len()).map(|i| m.nth(i).as_str()).collect();
    assert_eq!(all, vec!["z", "a", "c", "E"]);
    assert_eq!(m.get(3).map(|s| s.as_str()), Some("c"));
    assert_eq!(m.take(3).as_deref(), Some("c"));
    assert_eq!(m.take(3), None);
    assert_eq!(m.get(3), None);
    assert_eq!(m.len(), 3);
}
