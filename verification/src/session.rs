//! Session continuity: conversations that go on over several invocations.
//!
//! The events of a session are kept as JSON lines in a log of its own. From that log the
//! messages of the earlier turns are put together again.

use vstd::prelude::*;
use vstd::slice::slice_subrange;
use vstd::utf8::*;

use crate::hooks::utf8_text;
use crate::json;
use crate::json::{json_array, parse_json, Json, ObjectBuilder};
use crate::numbers;
use crate::numbers::size_text;
use crate::offsets;
use crate::offsets::byte_len;
use crate::paths;
use crate::paths::join_path;
use crate::text;
use crate::text::{
    chars_of, owned, rsplit_once_chars, same_text, spells, string_of, text_begins_with,
    text_contains, trimmed,
};
use crate::tools;
use crate::tools::setting_of;

verus! {

// ---------------------------------------------------------------------------
// Session ids
// ---------------------------------------------------------------------------

/// Maximum length of a session id.
pub const MAX_SESSION_ID_LEN: usize = 64;

/// The character may stand in a session id.
pub open spec fn id_char(c: char) -> bool {
    ||| 'a' <= c <= 'z'
    ||| 'A' <= c <= 'Z'
    ||| '0' <= c <= '9'
    ||| c == '-'
    ||| c == '_'
    ||| c == '.'
}

/// The first character that may not stand in a session id.
pub open spec fn bad_char(id: Seq<char>) -> Option<char>
    decreases id.len(),
{
    if id.len() == 0 {
        None
    } else if !id_char(id[0]) {
        Some(id[0])
    } else {
        bad_char(id.drop_first())
    }
}

/// How the `Debug` format writes a character.
pub uninterp spec fn char_debug(c: char) -> Seq<char>;

/// `Debug` of `char`: the character in single quotes, with escapes. The contract says only that
/// the result depends on the character alone.
#[verifier::external_body]
fn debug_char(c: char) -> (r: String)
    ensures
        r@ == char_debug(c),
{
    format!("{:?}", c)
}

/// What is wrong with a session id, if anything is.
pub open spec fn id_error(id: Seq<char>) -> Option<Seq<char>> {
    if id.len() == 0 {
        Some("session id is empty"@)
    } else if offsets::bytes(id).len() > MAX_SESSION_ID_LEN {
        Some(
            "session id too long ("@ + numbers::decimal(offsets::bytes(id).len()) + " > "@
                + numbers::decimal(MAX_SESSION_ID_LEN as nat) + " chars)"@,
        )
    } else if text::begins_with(id, "."@) {
        Some("session id cannot start with '.'"@)
    } else if bad_char(id) is Some {
        Some(
            "session id contains invalid character "@ + char_debug(bad_char(id)->0)
                + " (allowed: a-z A-Z 0-9 - _ .)"@,
        )
    } else if text::has_text(id, ".."@) {
        Some("session id cannot contain '..'"@)
    } else {
        None
    }
}

/// The session id is safe to use as a file name.
pub open spec fn valid_id(id: Seq<char>) -> bool {
    id_error(id) is None
}

proof fn lemma_bad_char(id: Seq<char>)
    ensures
        bad_char(id) is None <==> forall|i: int| 0 <= i < id.len() ==> id_char(#[trigger] id[i]),
    decreases id.len(),
{
    if id.len() > 0 && id_char(id[0]) {
        lemma_bad_char(id.drop_first());
        assert forall|i: int| 0 <= i < id.len() && bad_char(id) is None implies id_char(
            #[trigger] id[i],
        ) by {
            if i > 0 {
                assert(id.drop_first()[i - 1] == id[i]);
            }
        }
        if forall|i: int| 0 <= i < id.len() ==> id_char(#[trigger] id[i]) {
            assert forall|i: int| 0 <= i < id.drop_first().len() implies id_char(
                #[trigger] id.drop_first()[i],
            ) by {
                assert(id_char(id[i + 1]));
            }
        }
    }
}

/// An id is valid exactly where it has one to 64 characters, all of them letters and digits of
/// ASCII, dashes, underscores and dots, where it does not start with a dot, and where no two dots
/// follow each other. So it names no other directory.
pub proof fn law_valid_id(id: Seq<char>)
    ensures
        valid_id(id) <==> {
            &&& 0 < id.len() <= MAX_SESSION_ID_LEN
            &&& forall|i: int| 0 <= i < id.len() ==> id_char(#[trigger] id[i])
            &&& id[0] != '.'
            &&& forall|i: int, j: int|
                0 <= i < id.len() && j == i + 1 && j < id.len() ==> !(#[trigger] id[i] == '.'
                    && #[trigger] id[j] == '.')
        },
        valid_id(id) ==> forall|i: int| 0 <= i < id.len() ==> #[trigger] id[i] != '/',
{
    lemma_bad_char(id);
    let shape = forall|i: int| 0 <= i < id.len() ==> id_char(#[trigger] id[i]);
    if shape {
        assert(is_ascii_chars(id)) by {
            assert forall|i: int| 0 <= i < id.len() implies 0 <= #[trigger] id[i] as nat
                && id[i] as nat <= 127 by {
                assert(id_char(id[i]));
            }
        }
        offsets::lemma_ascii_bytes(id);
    }
    reveal_strlit(".");
    reveal_strlit("..");
    if id.len() > 0 {
        assert(id[0] == '.' <==> text::begins_with(id, "."@)) by {
            assert("."@ =~= seq!['.']);
            assert(id.subrange(0, 0 + "."@.len() as int) =~= seq![id[0]]);
            assert(seq![id[0]] == seq!['.'] ==> seq![id[0]][0] == '.');
        }
    }
    text::lemma_find_from(id, ".."@, 0);
    let pair_free = forall|i: int, j: int|
        0 <= i < id.len() && j == i + 1 && j < id.len() ==> !(#[trigger] id[i] == '.'
            && #[trigger] id[j] == '.');
    if text::has_text(id, ".."@) {
        let at = text::find(id, ".."@)->0;
        assert(id.subrange(at, at + 2)[0] == '.');
        assert(id.subrange(at, at + 2)[1] == '.');
        assert(id[at] == '.' && id[at + 1] == '.');
        assert(!pair_free);
    } else {
        assert forall|i: int, j: int| 0 <= i < id.len() && j == i + 1 && j < id.len() implies !(
        #[trigger] id[i] == '.' && #[trigger] id[j] == '.') by {
            if id[i] == '.' && id[j] == '.' {
                assert(id.subrange(i, i + 2) =~= ".."@);
                assert(text::occurs_at(id, ".."@, i));
            }
        }
    }
}

fn is_id_char(c: char) -> (r: bool)
    ensures
        r == id_char(c),
{
    ('a' <= c && c <= 'z') || ('A' <= c && c <= 'Z') || ('0' <= c && c <= '9') || c == '-' || c
        == '_' || c == '.'
}

fn first_bad_char(id: &str) -> (r: Option<char>)
    ensures
        r == bad_char(id@),
{
    let chars = chars_of(id);
    let mut i: usize = 0;
    assert(chars@.skip(0) =~= chars@);
    while i < chars.len()
        invariant
            i <= chars@.len(),
            chars@ == id@,
            bad_char(chars@) == bad_char(chars@.skip(i as int)),
        decreases chars@.len() - i,
    {
        assert(chars@.skip(i as int).drop_first() =~= chars@.skip(i + 1));
        assert(chars@.skip(i as int)[0] == chars@[i as int]);
        if !is_id_char(chars[i]) {
            return Some(chars[i]);
        }
        i += 1;
    }
    None
}

/// Validate a session id. Returns Ok(()) if safe to use as a filename, Err with reason otherwise.
pub fn validate_session_id(id: &str) -> (r: Result<(), String>)
    ensures
        match r {
            Ok(_) => valid_id(id@),
            Err(e) => id_error(id@) == Some(e@),
        },
{
    proof {
        offsets::lemma_bytes_empty(id@);
    }
    let len: usize = byte_len(id);
    if len == 0 {
        return Err(owned("session id is empty"));
    }
    if len > MAX_SESSION_ID_LEN {
        let mut e = owned("session id too long (");
        e.append(size_text(len).as_str());
        e.append(" > ");
        e.append(size_text(MAX_SESSION_ID_LEN).as_str());
        e.append(" chars)");
        return Err(e);
    }
    if text_begins_with(id, ".") {
        return Err(owned("session id cannot start with '.'"));
    }
    match first_bad_char(id) {
        Some(c) => {
            let mut e = owned("session id contains invalid character ");
            e.append(debug_char(c).as_str());
            e.append(" (allowed: a-z A-Z 0-9 - _ .)");
            return Err(e);
        },
        None => {},
    }
    if text_contains(id, "..") {
        return Err(owned("session id cannot contain '..'"));
    }
    Ok(())
}

/// The directory of the session logs.
pub open spec fn sessions_dir_of(home: Seq<char>) -> Seq<char> {
    paths::joined(paths::joined(home, "logs"@), "sessions"@)
}

/// The path of a session's log.
pub open spec fn session_path_of(home: Seq<char>, id: Seq<char>) -> Seq<char> {
    paths::joined(sessions_dir_of(home), id + ".jsonl"@)
}

/// The directory of the session logs.
pub fn sessions_dir(home: &str) -> (r: String)
    ensures
        r@ == sessions_dir_of(home@),
{
    join_path(join_path(home, "logs").as_str(), "sessions")
}

/// Path to the session log for this id. Caller is responsible for validating the id first.
pub fn session_log_path(home: &str, id: &str) -> (r: String)
    ensures
        r@ == session_path_of(home@, id@),
{
    let mut name = owned(id);
    name.append(".jsonl");
    join_path(sessions_dir(home).as_str(), name.as_str())
}

// ---------------------------------------------------------------------------
// The newest session
// ---------------------------------------------------------------------------

/// An entry of the directory of session logs.
#[derive(Debug)]
pub struct SessionEntry {
    /// Its name, where that is UTF-8.
    pub name: Option<String>,
    /// It is a regular file.
    pub is_file: bool,
    /// When it was modified, in nanoseconds, where that is known.
    pub modified_nanos: Option<i128>,
}

/// The session id of a log's file name.
pub open spec fn id_of_name(name: Seq<char>) -> Option<Seq<char>> {
    match text::rsplit_once(name, '.') {
        Some((stem, ext)) => if ext == "jsonl"@ && valid_id(stem) {
            Some(stem)
        } else {
            None
        },
        None => None,
    }
}

/// The session that an entry is the log of, and when it was modified.
pub open spec fn session_of(e: SessionEntry) -> Option<(i128, Seq<char>)> {
    match (e.name, e.modified_nanos) {
        (Some(n), Some(t)) => match id_of_name(n@) {
            Some(id) => if e.is_file {
                Some((t, id))
            } else {
                None
            },
            None => None,
        },
        _ => None,
    }
}

/// The session that was modified last, and when; the first of several.
pub open spec fn newest(entries: Seq<SessionEntry>) -> Option<(i128, Seq<char>)>
    decreases entries.len(),
{
    if entries.len() == 0 {
        None
    } else {
        match (newest(entries.drop_last()), session_of(entries.last())) {
            (Some(best), Some(s)) => if best.0 >= s.0 {
                Some(best)
            } else {
                Some(s)
            },
            (None, s) => s,
            (best, None) => best,
        }
    }
}

/// The newest session is one of the sessions, and none was modified after it. There is one
/// wherever there is a session at all.
pub proof fn law_newest(entries: Seq<SessionEntry>)
    ensures
        match newest(entries) {
            Some(best) => {
                &&& exists|i: int|
                    0 <= i < entries.len() && session_of(#[trigger] entries[i]) == Some(best)
                &&& forall|i: int|
                    0 <= i < entries.len() ==> (match session_of(#[trigger] entries[i]) {
                        Some(s) => s.0 <= best.0,
                        None => true,
                    })
                &&& valid_id(best.1)
            },
            None => forall|i: int|
                0 <= i < entries.len() ==> session_of(#[trigger] entries[i]) is None,
        },
    decreases entries.len(),
{
    if entries.len() > 0 {
        let rest = entries.drop_last();
        let last = entries.len() - 1;
        law_newest(rest);
        assert forall|i: int| 0 <= i < rest.len() implies rest[i] == entries[i] by {}
        assert(entries[last] == entries.last());
        if let Some(best) = newest(rest) {
            let i = choose|i: int|
                0 <= i < rest.len() && session_of(#[trigger] rest[i]) == Some(best);
            assert(session_of(entries[i]) == Some(best));
        }
        assert forall|i: int| 0 <= i < entries.len() implies (match session_of(
            #[trigger] entries[i],
        ) {
            Some(s) => newest(entries) is Some && s.0 <= (newest(entries)->0).0,
            None => true,
        }) by {
            if i < last {
                assert(session_of(rest[i]) == session_of(entries[i]));
            }
        }
    }
}

fn id_of_file_name(name: &str) -> (r: Option<String>)
    ensures
        match r {
            Some(id) => id_of_name(name@) == Some(id@),
            None => id_of_name(name@) is None,
        },
{
    let chars = chars_of(name);
    match rsplit_once_chars(chars.as_slice(), '.') {
        Some(p) => {
            if !spells(p.1, "jsonl") {
                return None;
            }
            let stem = string_of(p.0);
            match validate_session_id(stem.as_str()) {
                Ok(_) => Some(stem),
                Err(_) => None,
            }
        },
        None => None,
    }
}

fn session_of_entry(e: &SessionEntry) -> (r: Option<(i128, String)>)
    ensures
        match r {
            Some(s) => session_of(*e) == Some((s.0, s.1@)),
            None => session_of(*e) is None,
        },
{
    if !e.is_file {
        return None;
    }
    match (&e.name, e.modified_nanos) {
        (Some(n), Some(t)) => match id_of_file_name(n.as_str()) {
            Some(id) => Some((t, id)),
            None => None,
        },
        _ => None,
    }
}

/// Find the most recently modified session log among the entries of the directory of session
/// logs. Returns the session id (filename stem), or None if there is no session log.
pub fn find_newest_session(entries: &[SessionEntry]) -> (r: Option<String>)
    ensures
        match r {
            Some(id) => newest(entries@) is Some && (newest(entries@)->0).1 == id@,
            None => newest(entries@) is None,
        },
{
    let mut best: Option<(i128, String)> = None;
    let mut i: usize = 0;
    assert(entries@.take(0) =~= Seq::<SessionEntry>::empty());
    while i < entries.len()
        invariant
            i <= entries@.len(),
            match best {
                Some(b) => newest(entries@.take(i as int)) == Some((b.0, b.1@)),
                None => newest(entries@.take(i as int)) is None,
            },
        decreases entries@.len() - i,
    {
        assert(entries@.take(i + 1).drop_last() =~= entries@.take(i as int));
        assert(entries@.take(i + 1).last() == entries@[i as int]);
        match session_of_entry(&entries[i]) {
            Some(s) => {
                let newer = match &best {
                    Some(b) => b.0 < s.0,
                    None => true,
                };
                if newer {
                    best = Some(s);
                }
            },
            None => {},
        }
        i += 1;
    }
    assert(entries@.take(entries@.len() as int) =~= entries@);
    match best {
        Some(b) => Some(b.1),
        None => None,
    }
}

// ---------------------------------------------------------------------------
// Writing the log
// ---------------------------------------------------------------------------

/// The event as it is written: with the time, unless it has one.
pub open spec fn recorded(event: json::JsonView, ts_ms: u64) -> json::JsonView {
    if event.field("ts_ms"@) is None {
        event.with("ts_ms"@, json::JsonView::Unsigned(ts_ms))
    } else {
        event
    }
}

/// The text of a value, as the log holds it: on one line, in braces where the value is an object,
/// and such that the value is read back from it.
pub open spec fn written(line: Seq<char>, v: json::JsonView) -> bool {
    &&& line == json::json_text(v)
    &&& json::one_line(line)
    &&& v is Object ==> json::in_braces(line)
    &&& json::reads_back(v, 127) ==> json::spells(line, v)
}

/// The line that is appended to a session log for an event, without its newline.
pub fn session_line(event: &Json, ts_ms: u64) -> (r: String)
    ensures
        written(r@, recorded(event@, ts_ms)),
{
    let mut out = event.dup();
    match event.get("ts_ms") {
        Some(_) => {},
        None => {
            out.set("ts_ms", Json::Unsigned(ts_ms));
        },
    }
    out.to_text()
}

/// The kinds of events that a session log holds.
pub const MIRRORED: [&'static str; 5] = [
    "user",
    "assistant",
    "tool_result",
    "invoke_start",
    "invoke_end",
];

/// The kind of an event.
pub open spec fn kind_of(event: json::JsonView) -> Seq<char> {
    match event.field_text("kind"@) {
        Some(k) => k,
        None => Seq::empty(),
    }
}

/// The event belongs into the session log.
pub open spec fn mirrored(event: json::JsonView) -> bool {
    exists|i: int| 0 <= i < MIRRORED@.len() && kind_of(event) == (#[trigger] MIRRORED@[i])@
}

fn kind_text(event: &Json) -> (r: String)
    ensures
        r@ == kind_of(event@),
{
    match event.get_text("kind") {
        Some(k) => owned(k),
        None => String::new(),
    }
}

/// The event belongs into the session log. Events of hooks and of log rotation do not.
pub fn is_mirrored(event: &Json) -> (r: bool)
    ensures
        r == mirrored(event@),
{
    let kind = kind_text(event);
    let mut i: usize = 0;
    while i < MIRRORED.len()
        invariant
            i <= MIRRORED@.len(),
            kind@ == kind_of(event@),
            forall|k: int| 0 <= k < i ==> kind@ != (#[trigger] MIRRORED@[k])@,
        decreases MIRRORED@.len() - i,
    {
        if same_text(kind.as_str(), MIRRORED[i]) {
            assert(kind@ == MIRRORED@[i as int]@);
            return true;
        }
        i += 1;
    }
    false
}

// ---------------------------------------------------------------------------
// Reading the log
// ---------------------------------------------------------------------------

/// The pieces of the log between its newlines.
pub open spec fn byte_lines(log: Seq<u8>) -> Seq<Seq<u8>>
    decreases log.len(),
{
    match text::index_of(log, 10u8) {
        Some(i) => if 0 <= i < log.len() {
            seq![log.subrange(0, i)] + byte_lines(log.subrange(i + 1, log.len() as int))
        } else {
            seq![log]
        },
        None => seq![log],
    }
}

/// A line without the carriage return at its end.
pub open spec fn without_return(s: Seq<char>) -> Seq<char> {
    if s.len() > 0 && s.last() == '\r' {
        s.drop_last()
    } else {
        s
    }
}

/// The event of a line, if it holds one. Lines that are no text, blank or no JSON hold none.
pub open spec fn line_event(line: Seq<u8>) -> Option<json::JsonView> {
    if valid_utf8(line) {
        let s = without_return(decode_utf8(line));
        if text::trim(s).len() == 0 {
            None
        } else {
            match json::parsed_json(s) {
                Ok(v) => Some(v),
                Err(_) => None,
            }
        }
    } else {
        None
    }
}

/// The events of the lines.
pub open spec fn lines_events(lines: Seq<Seq<u8>>) -> Seq<json::JsonView>
    decreases lines.len(),
{
    if lines.len() == 0 {
        Seq::empty()
    } else {
        match line_event(lines.last()) {
            Some(v) => lines_events(lines.drop_last()).push(v),
            None => lines_events(lines.drop_last()),
        }
    }
}

/// The events of a log.
pub open spec fn log_events(log: Seq<u8>) -> Seq<json::JsonView> {
    lines_events(byte_lines(log))
}

/// A message of a conversation.
pub open spec fn message(role: Seq<char>, content: json::JsonView) -> json::JsonView {
    json::object_of(seq![("role"@, json::JsonView::Str(role)), ("content"@, content)])
}

/// The result of a tool call, as a part of a message.
pub open spec fn tool_result(id: json::JsonView, content: json::JsonView) -> json::JsonView {
    json::object_of(
        seq![
            ("type"@, json::JsonView::Str("tool_result"@)),
            ("tool_use_id"@, id),
            ("content"@, content),
        ],
    )
}

/// The messages so far, and the tool results that are not part of one yet.
#[verifier::ext_equal]
pub struct History {
    /// The messages.
    pub messages: Seq<json::JsonView>,
    /// The tool results since the last message.
    pub pending: Seq<json::JsonView>,
}

/// The pending tool results become a message.
pub open spec fn flushed(h: History) -> Seq<json::JsonView> {
    if h.pending.len() > 0 {
        h.messages.push(message("user"@, json::JsonView::Array(h.pending)))
    } else {
        h.messages
    }
}

/// The history after a message event of the given role.
pub open spec fn after_message(h: History, role: Seq<char>, event: json::JsonView) -> History {
    History {
        messages: match event.field("content"@) {
            Some(c) => flushed(h).push(message(role, c)),
            None => flushed(h),
        },
        pending: Seq::empty(),
    }
}

/// The history after an event.
pub open spec fn after_event(h: History, event: json::JsonView) -> History {
    let kind = kind_of(event);
    if kind == "user"@ {
        after_message(h, "user"@, event)
    } else if kind == "assistant"@ {
        after_message(h, "assistant"@, event)
    } else if kind == "tool_result"@ {
        match (event.field("tool_use_id"@), event.field("content"@)) {
            (Some(id), Some(content)) => History {
                messages: h.messages,
                pending: h.pending.push(tool_result(id, content)),
            },
            _ => h,
        }
    } else {
        h
    }
}

/// The history after all events.
pub open spec fn history(events: Seq<json::JsonView>) -> History
    decreases events.len(),
{
    if events.len() == 0 {
        History { messages: Seq::empty(), pending: Seq::empty() }
    } else {
        after_event(history(events.drop_last()), events.last())
    }
}

/// The messages that the events make.
pub open spec fn event_messages(events: Seq<json::JsonView>) -> Seq<json::JsonView> {
    flushed(history(events))
}

// ---------------------------------------------------------------------------
// Taking turns
// ---------------------------------------------------------------------------

/// The role of a message.
pub open spec fn role_of(message: json::JsonView) -> Option<Seq<char>> {
    message.field_text("role"@)
}

/// A block with a text.
pub open spec fn text_block(s: Seq<char>) -> json::JsonView {
    json::object_of(
        seq![("type"@, json::JsonView::Str("text"@)), ("text"@, json::JsonView::Str(s))],
    )
}

/// A content as blocks: a text is one block, an array is its items.
pub open spec fn content_blocks(content: json::JsonView) -> Seq<json::JsonView> {
    match content {
        json::JsonView::Str(s) => seq![text_block(s)],
        json::JsonView::Array(a) => a,
        other => seq![other],
    }
}

/// The blocks of a message.
pub open spec fn blocks_of(message: json::JsonView) -> Seq<json::JsonView> {
    content_blocks(message.at("content"@))
}

/// The message `a` with the blocks of `b` after its own.
pub open spec fn merged_pair(a: json::JsonView, b: json::JsonView) -> json::JsonView {
    a.with("content"@, json::JsonView::Array(blocks_of(a) + blocks_of(b)))
}

/// The messages after one more: it becomes part of the last message where that has the same role.
pub open spec fn merged_after(messages: Seq<json::JsonView>, m: json::JsonView) -> Seq<
    json::JsonView,
> {
    if messages.len() > 0 && role_of(messages.last()) == role_of(m) {
        messages.drop_last().push(merged_pair(messages.last(), m))
    } else {
        messages.push(m)
    }
}

/// The messages, with neighbours of one role made into one message.
pub open spec fn merged(messages: Seq<json::JsonView>) -> Seq<json::JsonView>
    decreases messages.len(),
{
    if messages.len() == 0 {
        Seq::empty()
    } else {
        merged_after(merged(messages.drop_last()), messages.last())
    }
}

/// Of two messages that follow each other, one is the user's and one the assistant's.
pub open spec fn takes_turns(a: json::JsonView, b: json::JsonView) -> bool {
    ||| role_of(a) == Some("user"@) && role_of(b) == Some("assistant"@)
    ||| role_of(a) == Some("assistant"@) && role_of(b) == Some("user"@)
}

/// The user and the assistant take turns.
pub open spec fn alternating(messages: Seq<json::JsonView>) -> bool {
    forall|i: int, j: int|
        0 <= i && j == i + 1 && j < messages.len() ==> takes_turns(
            #[trigger] messages[i],
            #[trigger] messages[j],
        )
}

/// The message is the user's or the assistant's.
pub open spec fn is_spoken(message: json::JsonView) -> bool {
    role_of(message) == Some("user"@) || role_of(message) == Some("assistant"@)
}

/// Every message is an object, and the user's or the assistant's.
pub open spec fn all_spoken(messages: Seq<json::JsonView>) -> bool {
    forall|i: int|
        0 <= i < messages.len() ==> (#[trigger] messages[i]) is Object && is_spoken(messages[i])
}

/// The blocks of the messages, in order.
pub open spec fn all_blocks(messages: Seq<json::JsonView>) -> Seq<json::JsonView>
    decreases messages.len(),
{
    if messages.len() == 0 {
        Seq::empty()
    } else {
        all_blocks(messages.drop_last()) + blocks_of(messages.last())
    }
}

proof fn lemma_merged_pair(a: json::JsonView, b: json::JsonView)
    requires
        a is Object,
    ensures
        merged_pair(a, b) is Object,
        role_of(merged_pair(a, b)) == role_of(a),
        blocks_of(merged_pair(a, b)) == blocks_of(a) + blocks_of(b),
{
    reveal_strlit("role");
    reveal_strlit("content");
    assert("role"@.len() != "content"@.len());
}

/// Merging makes the user and the assistant take turns, whatever came before; it loses no block
/// and changes no order; and messages that take turns stay as they are.
pub proof fn law_merged(messages: Seq<json::JsonView>)
    requires
        all_spoken(messages),
    ensures
        all_spoken(merged(messages)),
        alternating(merged(messages)),
        all_blocks(merged(messages)) == all_blocks(messages),
        alternating(messages) ==> merged(messages) == messages,
    decreases messages.len(),
{
    if messages.len() > 0 {
        let rest = messages.drop_last();
        let m = messages.last();
        assert(m == messages[messages.len() - 1]);
        assert forall|i: int| 0 <= i < rest.len() implies (#[trigger] rest[i]) is Object
            && is_spoken(rest[i]) by {
            assert(rest[i] == messages[i]);
        }
        law_merged(rest);
        let before = merged(rest);
        let after = merged(messages);
        if before.len() > 0 && role_of(before.last()) == role_of(m) {
            let last = before.last();
            assert(last == before[before.len() - 1]);
            lemma_merged_pair(last, m);
            assert(after.drop_last() =~= before.drop_last());
            assert(all_blocks(after) =~= all_blocks(before) + blocks_of(m));
            assert forall|i: int, j: int| 0 <= i && j == i + 1 && j < after.len() implies takes_turns(
                #[trigger] after[i],
                #[trigger] after[j],
            ) by {
                assert(takes_turns(before[i], before[j]));
            }
            if alternating(messages) {
                lemma_alternating_rest(messages);
                reveal_strlit("user");
                reveal_strlit("assistant");
                assert("user"@.len() != "assistant"@.len());
                assert(takes_turns(messages[messages.len() - 2], messages[messages.len() - 1]));
            }
        } else {
            assert(after.drop_last() =~= before);
            assert forall|i: int, j: int| 0 <= i && j == i + 1 && j < after.len() implies takes_turns(
                #[trigger] after[i],
                #[trigger] after[j],
            ) by {
                if j < before.len() {
                    assert(takes_turns(before[i], before[j]));
                } else {
                    assert(is_spoken(before[i]));
                }
            }
            if alternating(messages) {
                lemma_alternating_rest(messages);
                assert(rest.push(m) =~= messages);
            }
        }
    } else {
        assert(merged(messages) =~= messages);
    }
}

proof fn lemma_alternating_rest(messages: Seq<json::JsonView>)
    requires
        messages.len() > 0,
        alternating(messages),
    ensures
        alternating(messages.drop_last()),
{
    let rest = messages.drop_last();
    assert forall|i: int, j: int| 0 <= i && j == i + 1 && j < rest.len() implies takes_turns(
        #[trigger] rest[i],
        #[trigger] rest[j],
    ) by {
        assert(takes_turns(messages[i], messages[j]));
    }
}

proof fn lemma_message_role(role: Seq<char>, content: json::JsonView)
    ensures
        message(role, content) is Object,
        role_of(message(role, content)) == Some(role),
{
    reveal_strlit("role");
    reveal_strlit("content");
    let e = seq![("role"@, json::JsonView::Str(role)), ("content"@, content)];
    assert(e.drop_last() =~= seq![("role"@, json::JsonView::Str(role))]);
    assert(e.drop_last().drop_last() =~= Seq::<(Seq<char>, json::JsonView)>::empty());
    reveal_with_fuel(json::entries_map, 3);
    assert("role"@.len() != "content"@.len());
}

proof fn lemma_flushed_spoken(h: History)
    requires
        all_spoken(h.messages),
    ensures
        all_spoken(flushed(h)),
{
    lemma_message_role("user"@, json::JsonView::Array(h.pending));
}

/// The messages that events make are the user's and the assistant's.
proof fn lemma_history_spoken(events: Seq<json::JsonView>)
    ensures
        all_spoken(history(events).messages),
    decreases events.len(),
{
    if events.len() > 0 {
        let h = history(events.drop_last());
        let event = events.last();
        lemma_history_spoken(events.drop_last());
        lemma_flushed_spoken(h);
        if let Some(c) = event.field("content"@) {
            lemma_message_role("user"@, c);
            lemma_message_role("assistant"@, c);
        }
    }
}

// ---------------------------------------------------------------------------
// Keeping the history short
// ---------------------------------------------------------------------------

/// How much history is loaded, where nothing is set.
pub const DEFAULT_SESSION_HISTORY_MAX_BYTES: usize = 200_000;

/// How much history is loaded, as `LAZAR_SESSION_HISTORY_MAX_BYTES` sets it.
pub fn history_cap(var: Option<&str>) -> (r: usize)
    ensures
        r == tools::setting(
            tools::var_text(var),
            usize::MAX as int,
            DEFAULT_SESSION_HISTORY_MAX_BYTES as int,
        ),
        r > 0,
{
    setting_of(var, usize::MAX as u64, DEFAULT_SESSION_HISTORY_MAX_BYTES as u64) as usize
}

/// The bytes that the messages take as JSON.
pub open spec fn size_of_messages(messages: Seq<json::JsonView>) -> nat {
    offsets::bytes(json::array_text(messages)).len()
}

/// The messages without the oldest ones: until they fit, or one is left.
pub open spec fn dropped_to_cap(messages: Seq<json::JsonView>, cap: int) -> Seq<json::JsonView>
    decreases messages.len(),
{
    if messages.len() > 1 && size_of_messages(messages) > cap {
        dropped_to_cap(messages.drop_first(), cap)
    } else {
        messages
    }
}

/// The messages from the first one of the user on.
pub open spec fn dropped_to_user(messages: Seq<json::JsonView>) -> Seq<json::JsonView>
    decreases messages.len(),
{
    if messages.len() > 0 && role_of(messages[0]) != Some("user"@) {
        dropped_to_user(messages.drop_first())
    } else {
        messages
    }
}

/// The messages that are kept.
pub open spec fn kept_messages(messages: Seq<json::JsonView>, cap: int) -> Seq<json::JsonView> {
    dropped_to_user(dropped_to_cap(messages, cap))
}

/// The messages that are loaded: as many of the latest as fit, and none where not even one fits.
pub open spec fn fitting_messages(messages: Seq<json::JsonView>, cap: int) -> Seq<
    json::JsonView,
> {
    let kept = kept_messages(messages, cap);
    if size_of_messages(kept) > cap {
        Seq::empty()
    } else {
        kept
    }
}

/// What is loaded of a session with the given events.
pub open spec fn loaded_messages(events: Seq<json::JsonView>, cap: int) -> Seq<json::JsonView> {
    fitting_messages(merged(event_messages(events)), cap)
}

proof fn lemma_smaller(messages: Seq<json::JsonView>)
    requires
        messages.len() > 0,
    ensures
        size_of_messages(messages.drop_first()) <= size_of_messages(messages),
{
    let rest = messages.drop_first();
    let items = json::items_text(messages);
    let less = json::items_text(rest);
    offsets::lemma_bytes_concat("["@ + items, "]"@);
    offsets::lemma_bytes_concat("["@, items);
    offsets::lemma_bytes_concat("["@ + less, "]"@);
    offsets::lemma_bytes_concat("["@, less);
    if messages.len() > 1 {
        offsets::lemma_bytes_concat(json::json_text(messages[0]) + ","@, less);
    } else {
        assert(less =~= Seq::<char>::empty());
        offsets::lemma_bytes_empty(less);
    }
}

proof fn lemma_dropped_to_cap(messages: Seq<json::JsonView>, cap: int)
    ensures
        ({
            let kept = dropped_to_cap(messages, cap);
            &&& kept.len() <= messages.len()
            &&& kept == messages.skip(messages.len() - kept.len())
            &&& size_of_messages(kept) <= cap || kept.len() <= 1
            &&& messages.len() > 0 ==> kept.len() > 0
        }),
    decreases messages.len(),
{
    assert(messages.skip(0) =~= messages);
    if messages.len() > 1 && size_of_messages(messages) > cap {
        let rest = messages.drop_first();
        lemma_dropped_to_cap(rest, cap);
        let kept = dropped_to_cap(rest, cap);
        assert(rest.skip(rest.len() - kept.len()) =~= messages.skip(messages.len() - kept.len()));
    }
}

proof fn lemma_dropped_to_user(messages: Seq<json::JsonView>)
    ensures
        ({
            let kept = dropped_to_user(messages);
            &&& kept.len() <= messages.len()
            &&& kept == messages.skip(messages.len() - kept.len())
            &&& kept.len() > 0 ==> role_of(kept[0]) == Some("user"@)
            &&& size_of_messages(kept) <= size_of_messages(messages)
        }),
    decreases messages.len(),
{
    assert(messages.skip(0) =~= messages);
    if messages.len() > 0 && role_of(messages[0]) != Some("user"@) {
        let rest = messages.drop_first();
        lemma_dropped_to_user(rest);
        lemma_smaller(messages);
        let kept = dropped_to_user(rest);
        assert(rest.skip(rest.len() - kept.len()) =~= messages.skip(messages.len() - kept.len()));
    }
}

/// What is kept are the latest messages; they start with one of the user, and fit under the cap
/// unless a single one is left; and where the messages took turns, they still do.
pub proof fn law_kept_messages(messages: Seq<json::JsonView>, cap: nat)
    ensures
        ({
            let kept = kept_messages(messages, cap as int);
            &&& kept.len() <= messages.len()
            &&& kept == messages.skip(messages.len() - kept.len())
            &&& kept.len() > 0 ==> role_of(kept[0]) == Some("user"@)
            &&& size_of_messages(kept) <= cap || kept.len() <= 1
            &&& alternating(messages) ==> alternating(kept)
        }),
{
    let mid = dropped_to_cap(messages, cap as int);
    let kept = kept_messages(messages, cap as int);
    lemma_dropped_to_cap(messages, cap as int);
    lemma_dropped_to_user(mid);
    assert(mid.skip(mid.len() - kept.len()) =~= messages.skip(messages.len() - kept.len()));
    if alternating(messages) {
        let d = messages.len() - kept.len();
        assert forall|i: int, j: int| 0 <= i && j == i + 1 && j < kept.len() implies takes_turns(
            #[trigger] kept[i],
            #[trigger] kept[j],
        ) by {
            assert(takes_turns(messages[i + d], messages[j + d]));
        }
    }
}

// ---------------------------------------------------------------------------
// Loading
// ---------------------------------------------------------------------------

fn message_of(role: &str, content: Json) -> (r: Json)
    ensures
        r@ == message(role@, content@),
{
    let built = ObjectBuilder::new().put_str("role", role).put("content", content);
    assert(built.entries() =~= seq![
        ("role"@, json::JsonView::Str(role@)),
        ("content"@, content@),
    ]);
    built.done()
}

/// The message with a user's or an assistant's content.
pub fn make_message(role: &str, content: &Json) -> (r: Json)
    ensures
        r@ == message(role@, content@),
{
    message_of(role, content.dup())
}

/// The result of a tool call, as a part of a message.
pub fn make_tool_result(id: &Json, content: &Json) -> (r: Json)
    ensures
        r@ == tool_result(id@, content@),
{
    let built = ObjectBuilder::new().put_str("type", "tool_result").put(
        "tool_use_id",
        id.dup(),
    ).put("content", content.dup());
    assert(built.entries() =~= seq![
        ("type"@, json::JsonView::Str("tool_result"@)),
        ("tool_use_id"@, id@),
        ("content"@, content@),
    ]);
    built.done()
}

/// A history under construction.
struct HistoryBuilder {
    messages: Vec<Json>,
    pending: Vec<Json>,
}

impl View for HistoryBuilder {
    type V = History;

    closed spec fn view(&self) -> History {
        History { messages: json::views(self.messages@), pending: json::views(self.pending@) }
    }
}

fn push_json(out: &mut Vec<Json>, v: Json)
    ensures
        json::views(final(out)@) == json::views(old(out)@).push(v@),
{
    out.push(v);
    assert(json::views(out@) =~= json::views(old(out)@).push(v@));
}

impl HistoryBuilder {
    fn new() -> (r: HistoryBuilder)
        ensures
            r@ == history(Seq::empty()),
    {
        let r = HistoryBuilder { messages: Vec::new(), pending: Vec::new() };
        assert(r@ =~= history(Seq::empty()));
        r
    }

    fn flush(&mut self)
        ensures
            final(self)@.messages == flushed(old(self)@),
            final(self)@.pending == Seq::<json::JsonView>::empty(),
    {
        if self.pending.len() > 0 {
            let mut pending: Vec<Json> = Vec::new();
            std::mem::swap(&mut pending, &mut self.pending);
            push_json(&mut self.messages, message_of("user", json_array(pending)));
        }
        assert(json::views(self.pending@) =~= Seq::<json::JsonView>::empty());
    }

    fn add_message(&mut self, role: &str, event: &Json)
        ensures
            final(self)@ == after_message(old(self)@, role@, event@),
    {
        self.flush();
        match event.get("content") {
            Some(c) => {
                push_json(&mut self.messages, make_message(role, c));
            },
            None => {},
        }
        assert(self@ =~= after_message(old(self)@, role@, event@));
    }

    fn add(&mut self, event: &Json)
        ensures
            final(self)@ == after_event(old(self)@, event@),
    {
        let kind = kind_text(event);
        if same_text(kind.as_str(), "user") {
            self.add_message("user", event);
        } else if same_text(kind.as_str(), "assistant") {
            self.add_message("assistant", event);
        } else if same_text(kind.as_str(), "tool_result") {
            match (event.get("tool_use_id"), event.get("content")) {
                (Some(id), Some(content)) => {
                    push_json(&mut self.pending, make_tool_result(id, content));
                },
                _ => {},
            }
        }
        assert(self@ =~= after_event(old(self)@, event@));
    }
}

/// The messages that the events make.
pub fn messages_from_events(events: &[Json]) -> (r: Vec<Json>)
    ensures
        json::views(r@) == event_messages(json::views(events@)),
{
    let ghost all = json::views(events@);
    let mut h = HistoryBuilder::new();
    let mut i: usize = 0;
    assert(all.take(0) =~= Seq::<json::JsonView>::empty());
    while i < events.len()
        invariant
            i <= events@.len(),
            all == json::views(events@),
            h@ == history(all.take(i as int)),
        decreases events@.len() - i,
    {
        assert(all.take(i + 1).drop_last() =~= all.take(i as int));
        assert(all.take(i + 1).last() == events@[i as int]@);
        h.add(&events[i]);
        i += 1;
    }
    assert(all.take(all.len() as int) =~= all);
    h.flush();
    h.messages
}

fn content_blocks_of(content: Json) -> (r: Vec<Json>)
    ensures
        json::views(r@) == content_blocks(content@),
{
    match content.as_items() {
        Some(items) => {
            return json::dup_all(items);
        },
        None => {},
    }
    let block = match content.as_text() {
        Some(s) => {
            let built = ObjectBuilder::new().put_str("type", "text").put_str("text", s);
            assert(built.entries() =~= seq![
                ("type"@, json::JsonView::Str("text"@)),
                ("text"@, json::JsonView::Str(s@)),
            ]);
            built.done()
        },
        None => content.dup(),
    };
    let mut out: Vec<Json> = Vec::new();
    assert(json::views(out@) =~= Seq::<json::JsonView>::empty());
    push_json(&mut out, block);
    assert(json::views(out@) =~= content_blocks(content@));
    out
}

fn same_role(a: &Json, b: &Json) -> (r: bool)
    ensures
        r == (role_of(a@) == role_of(b@)),
{
    match (a.get_text("role"), b.get_text("role")) {
        (Some(x), Some(y)) => same_text(x, y),
        (None, None) => true,
        _ => false,
    }
}

fn merge_pair(a: &mut Json, b: &Json)
    ensures
        final(a)@ == merged_pair(old(a)@, b@),
{
    let mut blocks = content_blocks_of(a.dup_at("content"));
    let more = content_blocks_of(b.dup_at("content"));
    let ghost start = json::views(blocks@);
    let ghost all = json::views(more@);
    let mut i: usize = 0;
    assert(start + all.take(0) =~= start);
    while i < more.len()
        invariant
            i <= more@.len(),
            all == json::views(more@),
            json::views(blocks@) == start + all.take(i as int),
        decreases more@.len() - i,
    {
        push_json(&mut blocks, more[i].dup());
        assert(all.take(i + 1) =~= all.take(i as int).push(more@[i as int]@));
        assert(start + all.take(i + 1) =~= (start + all.take(i as int)).push(more@[i as int]@));
        i += 1;
    }
    assert(all.take(all.len() as int) =~= all);
    a.set("content", json_array(blocks));
}

/// The messages, with neighbours of one role made into one message: the blocks of the later one
/// follow those of the earlier.
pub fn merge_messages(messages: &[Json]) -> (r: Vec<Json>)
    ensures
        json::views(r@) == merged(json::views(messages@)),
{
    let ghost all = json::views(messages@);
    let mut out: Vec<Json> = Vec::new();
    let mut i: usize = 0;
    assert(all.take(0) =~= Seq::<json::JsonView>::empty());
    assert(json::views(out@) =~= Seq::<json::JsonView>::empty());
    while i < messages.len()
        invariant
            i <= messages@.len(),
            all == json::views(messages@),
            json::views(out@) == merged(all.take(i as int)),
        decreases messages@.len() - i,
    {
        let ghost before = json::views(out@);
        let m = &messages[i];
        assert(all.take(i + 1).drop_last() =~= all.take(i as int));
        assert(all.take(i + 1).last() == m@);
        match out.pop() {
            Some(last) => {
                let mut last = last;
                assert(before.last() == last@);
                assert(json::views(out@) =~= before.drop_last());
                if same_role(&last, m) {
                    merge_pair(&mut last, m);
                    push_json(&mut out, last);
                } else {
                    push_json(&mut out, last);
                    assert(before.drop_last().push(before.last()) =~= before);
                    push_json(&mut out, m.dup());
                }
            },
            None => {
                push_json(&mut out, m.dup());
            },
        }
        assert(json::views(out@) =~= merged_after(before, m@));
        i += 1;
    }
    assert(all.take(all.len() as int) =~= all);
    out
}

/// The bytes that the messages take as JSON.
pub fn serialized_size(messages: &Vec<Json>) -> (r: usize)
    ensures
        r == size_of_messages(json::views(messages@)),
{
    byte_len(json_array(json::dup_all(messages)).to_text().as_str())
}

fn drop_first_json(v: &mut Vec<Json>)
    requires
        old(v)@.len() > 0,
    ensures
        json::views(final(v)@) == json::views(old(v)@).drop_first(),
{
    let _ = v.remove(0);
    assert(json::views(v@) =~= json::views(old(v)@).drop_first());
}

/// Drop oldest messages until the remaining set fits under the byte cap. Always keeps the
/// conversation valid: starts with a user message, alternating roles preserved.
pub fn truncate_to_byte_cap(messages: Vec<Json>, cap: usize) -> (r: Vec<Json>)
    ensures
        json::views(r@) == kept_messages(json::views(messages@), cap as int),
{
    let mut kept = messages;
    let ghost all = json::views(messages@);
    while kept.len() > 1 && serialized_size(&kept) > cap
        invariant
            dropped_to_cap(all, cap as int) == dropped_to_cap(json::views(kept@), cap as int),
        decreases kept@.len(),
    {
        drop_first_json(&mut kept);
    }
    let ghost mid = json::views(kept@);
    assert(dropped_to_cap(all, cap as int) == mid);
    while kept.len() > 0 && !kept[0].has("role", "user")
        invariant
            dropped_to_user(mid) == dropped_to_user(json::views(kept@)),
        decreases kept@.len(),
    {
        assert(json::views(kept@)[0] == kept@[0]@);
        drop_first_json(&mut kept);
    }
    assert(kept@.len() > 0 ==> json::views(kept@)[0] == kept@[0]@);
    kept
}

fn newline_from(log: &[u8], from: usize) -> (r: Option<usize>)
    requires
        from <= log@.len(),
    ensures
        match r {
            Some(i) => from <= i < log@.len() && text::index_of(
                log@.subrange(from as int, log@.len() as int),
                10u8,
            ) == Some(i - from),
            None => text::index_of(log@.subrange(from as int, log@.len() as int), 10u8) is None,
        },
{
    let ghost rest = log@.subrange(from as int, log@.len() as int);
    proof {
        text::lemma_index_of(rest, 10u8);
    }
    let mut i: usize = from;
    while i < log.len()
        invariant
            from <= i <= log@.len(),
            rest == log@.subrange(from as int, log@.len() as int),
            forall|j: int| 0 <= j < i - from ==> rest[j] != 10u8,
        decreases log@.len() - i,
    {
        if log[i] == 10u8 {
            assert(rest[i - from] == 10u8);
            proof {
                text::lemma_index_of(rest, 10u8);
            }
            return Some(i);
        }
        i += 1;
    }
    None
}

fn event_of_line(line: &[u8]) -> (r: Option<Json>)
    ensures
        match r {
            Some(v) => line_event(line@) == Some(v@),
            None => line_event(line@) is None,
        },
{
    match utf8_text(line) {
        Some(s) => {
            proof {
                encode_utf8_decode_utf8(s@);
            }
            let chars = chars_of(s.as_str());
            let n: usize = chars.len();
            let shown = if n > 0 && chars[n - 1] == '\r' {
                let cut = slice_subrange(chars.as_slice(), 0, n - 1);
                assert(cut@ =~= s@.drop_last());
                string_of(cut)
            } else {
                s
            };
            let blank = trimmed(shown.as_str());
            if blank.as_str().is_empty() {
                return None;
            }
            match parse_json(shown.as_str()) {
                Ok(v) => Some(v),
                Err(_) => None,
            }
        },
        None => None,
    }
}

/// The events of a log.
pub fn read_events(log: &[u8]) -> (r: Vec<Json>)
    ensures
        json::views(r@) == log_events(log@),
{
    let mut out: Vec<Json> = Vec::new();
    let mut from: usize = 0;
    let ghost mut done: Seq<Seq<u8>> = Seq::empty();
    let ghost all = byte_lines(log@);
    let n: usize = log.len();
    proof {
        assert(json::views(out@) =~= Seq::<json::JsonView>::empty());
        assert(log@.subrange(0, n as int) =~= log@);
        assert(done + all =~= all);
    }
    loop
        invariant_except_break
            all == done + byte_lines(log@.subrange(from as int, n as int)),
        invariant
            from <= n == log@.len(),
            all == byte_lines(log@),
            json::views(out@) == lines_events(done),
        ensures
            json::views(out@) == lines_events(all),
        decreases n - from,
    {
        let ghost rest = log@.subrange(from as int, n as int);
        let found = newline_from(log, from);
        let end: usize = match found {
            Some(i) => i,
            None => n,
        };
        let line = slice_subrange(log, from, end);
        let ghost before = done;
        proof {
            done = done.push(line@);
            assert(done.drop_last() =~= before);
        }
        match event_of_line(line) {
            Some(v) => {
                push_json(&mut out, v);
            },
            None => {},
        }
        match found {
            Some(i) => {
                proof {
                    assert(line@ =~= rest.subrange(0, i - from));
                    assert(rest.subrange(i - from + 1, rest.len() as int) =~= log@.subrange(
                        i + 1,
                        n as int,
                    ));
                    assert(all =~= done + byte_lines(log@.subrange(i + 1, n as int)));
                }
                from = i + 1;
            },
            None => {
                proof {
                    assert(line@ =~= rest);
                    assert(byte_lines(rest) =~= seq![rest]);
                    assert(all =~= done);
                }
                break;
            },
        }
    }
    out
}

/// Read prior turns from a session log and convert them into messages. An empty log has none.
///
/// The returned messages start with a user-role message, have alternating roles, and total at
/// most `cap` bytes. Neighbours of one role are merged for that.
pub fn load_messages(log: &[u8], cap: usize) -> (r: Vec<Json>)
    ensures
        json::views(r@) == loaded_messages(log_events(log@), cap as int),
        alternating(json::views(r@)),
        r@.len() > 0 ==> role_of(json::views(r@)[0]) == Some("user"@),
        r@.len() > 0 ==> size_of_messages(json::views(r@)) <= cap,
        cap >= 2 ==> size_of_messages(json::views(r@)) <= cap,
{
    let events = read_events(log);
    proof {
        law_loaded_messages(json::views(events@), cap as nat);
    }
    let messages = messages_from_events(events.as_slice());
    let kept = truncate_to_byte_cap(merge_messages(messages.as_slice()), cap);
    if serialized_size(&kept) > cap {
        let none: Vec<Json> = Vec::new();
        assert(json::views(none@) =~= Seq::<json::JsonView>::empty());
        none
    } else {
        kept
    }
}

// ---------------------------------------------------------------------------
// What is written is read back
// ---------------------------------------------------------------------------

/// The bytes of a log that holds the lines.
pub open spec fn log_of(lines: Seq<Seq<char>>) -> Seq<u8>
    decreases lines.len(),
{
    if lines.len() == 0 {
        Seq::empty()
    } else {
        offsets::bytes(lines[0]).push(10u8) + log_of(lines.drop_first())
    }
}

/// The lines as bytes.
pub open spec fn encoded(lines: Seq<Seq<char>>) -> Seq<Seq<u8>> {
    lines.map_values(|l: Seq<char>| offsets::bytes(l))
}

proof fn lemma_byte_lines(lines: Seq<Seq<char>>)
    requires
        forall|i: int| 0 <= i < lines.len() ==> json::one_line(#[trigger] lines[i]),
    ensures
        byte_lines(log_of(lines)) == encoded(lines).push(Seq::empty()),
    decreases lines.len(),
{
    let log = log_of(lines);
    text::lemma_index_of(log, 10u8);
    if lines.len() == 0 {
        assert(byte_lines(log) =~= seq![log]);
        assert(log =~= Seq::<u8>::empty());
        assert(encoded(lines).push(Seq::empty()) =~= seq![Seq::<u8>::empty()]);
    } else {
        let head = offsets::bytes(lines[0]);
        let rest = lines.drop_first();
        assert forall|i: int| 0 <= i < rest.len() implies json::one_line(#[trigger] rest[i]) by {
            assert(json::one_line(lines[i + 1]));
        }
        lemma_byte_lines(rest);
        assert(json::one_line(lines[0]));
        let n = head.len() as int;
        assert(log[n] == 10u8);
        assert forall|j: int| 0 <= j < n implies log[j] != 10u8 by {
            assert(log[j] == head[j]);
        }
        assert(text::index_of(log, 10u8) == Some(n));
        assert(log.subrange(0, n) =~= head);
        assert(log.subrange(n + 1, log.len() as int) =~= log_of(rest));
        assert(byte_lines(log) =~= seq![head] + encoded(rest).push(Seq::empty()));
        assert(encoded(lines).push(Seq::empty()) =~= seq![head] + encoded(rest).push(Seq::empty()));
    }
}

proof fn lemma_trim_braces(s: Seq<char>)
    requires
        json::in_braces(s),
    ensures
        text::trim(s) == s,
        without_return(s) == s,
{
    assert(!text::is_white('{'));
    assert(!text::is_white('}'));
}

proof fn lemma_lines_events(lines: Seq<Seq<char>>, values: Seq<json::JsonView>)
    requires
        lines.len() == values.len(),
        forall|i: int|
            0 <= i < lines.len() ==> json::spells(#[trigger] lines[i], values[i])
                && json::in_braces(lines[i]),
    ensures
        lines_events(encoded(lines)) == values,
    decreases lines.len(),
{
    if lines.len() == 0 {
        assert(values =~= Seq::<json::JsonView>::empty());
        assert(encoded(lines) =~= Seq::<Seq<u8>>::empty());
    } else {
        let n = lines.len() - 1;
        let less = lines.drop_last();
        let fewer = values.drop_last();
        assert forall|i: int| 0 <= i < less.len() implies json::spells(#[trigger] less[i], fewer[i])
            && json::in_braces(less[i]) by {
            assert(json::spells(lines[i], values[i]));
        }
        lemma_lines_events(less, fewer);
        assert(encoded(lines).drop_last() =~= encoded(less));
        assert(json::spells(lines[n], values[n]));
        offsets::lemma_boundary_ends(lines[n]);
        encode_utf8_decode_utf8(lines[n]);
        lemma_trim_braces(lines[n]);
        assert(encoded(lines).last() == offsets::bytes(lines[n]));
        assert(line_event(encoded(lines).last()) == Some(values[n]));
        assert(fewer.push(values[n]) =~= values);
    }
}

/// The events with their times.
pub open spec fn recorded_all(events: Seq<json::JsonView>, stamps: Seq<u64>) -> Seq<
    json::JsonView,
> {
    Seq::new(events.len(), |i: int| recorded(events[i], stamps[i]))
}

proof fn lemma_recorded_fields(event: json::JsonView, ts: u64, h: History)
    ensures
        after_event(h, recorded(event, ts)) == after_event(h, event),
{
    reveal_strlit("ts_ms");
    reveal_strlit("kind");
    reveal_strlit("content");
    reveal_strlit("tool_use_id");
    assert("ts_ms"@.len() == 5 && "kind"@.len() == 4 && "content"@.len() == 7
        && "tool_use_id"@.len() == 11);
    let r = recorded(event, ts);
    assert(r.field("kind"@) == event.field("kind"@));
    assert(r.field("content"@) == event.field("content"@));
    assert(r.field("tool_use_id"@) == event.field("tool_use_id"@));
}

proof fn lemma_recorded_history(events: Seq<json::JsonView>, stamps: Seq<u64>)
    requires
        events.len() == stamps.len(),
    ensures
        history(recorded_all(events, stamps)) == history(events),
    decreases events.len(),
{
    let all = recorded_all(events, stamps);
    if events.len() > 0 {
        lemma_recorded_history(events.drop_last(), stamps.drop_last());
        assert(all.drop_last() =~= recorded_all(events.drop_last(), stamps.drop_last()));
        lemma_recorded_fields(
            events.last(),
            stamps.last(),
            history(events.drop_last()),
        );
    } else {
        assert(all =~= events);
    }
}

/// What is appended to a session log is read back: the log of the lines that
/// [`session_line`] gives for a sequence of events holds those events, and the messages are
/// those that the events make. The events are objects without fractions that a JSON parser can
/// follow to their depth.
pub proof fn law_session_log_reads_back(
    events: Seq<json::JsonView>,
    stamps: Seq<u64>,
    lines: Seq<Seq<char>>,
)
    requires
        events.len() == stamps.len() == lines.len(),
        forall|i: int|
            0 <= i < events.len() ==> (#[trigger] events[i]) is Object && json::reads_back(
                recorded(events[i], stamps[i]),
                127,
            ) && written(lines[i], recorded(events[i], stamps[i])),
    ensures
        log_events(log_of(lines)) == recorded_all(events, stamps),
        event_messages(log_events(log_of(lines))) == event_messages(events),
        forall|cap: int| #[trigger]
            loaded_messages(log_events(log_of(lines)), cap) == loaded_messages(events, cap),
{
    let values = recorded_all(events, stamps);
    assert forall|i: int| 0 <= i < lines.len() implies json::one_line(#[trigger] lines[i])
        && json::spells(lines[i], values[i]) && json::in_braces(lines[i]) by {
        assert(events[i] is Object);
    }
    lemma_byte_lines(lines);
    lemma_lines_events(lines, values);
    let pieces = byte_lines(log_of(lines));
    assert(pieces.drop_last() =~= encoded(lines));
    assert(pieces.last() =~= Seq::<u8>::empty());
    assert(line_event(Seq::<u8>::empty()) is None) by {
        let e = Seq::<char>::empty();
        offsets::lemma_bytes_empty(e);
        assert(offsets::bytes(e) =~= Seq::<u8>::empty());
        offsets::lemma_boundary_ends(e);
        encode_utf8_decode_utf8(e);
    }
    lemma_recorded_history(events, stamps);
}

// ---------------------------------------------------------------------------
// What is loaded
// ---------------------------------------------------------------------------

/// What is loaded of a session: its user message comes first, the user and the assistant take
/// turns, whatever events the log holds, and the total is under the cap.
pub proof fn law_loaded_messages(events: Seq<json::JsonView>, cap: nat)
    ensures
        ({
            let loaded = loaded_messages(events, cap as int);
            &&& alternating(loaded)
            &&& loaded.len() > 0 ==> role_of(loaded[0]) == Some("user"@)
            &&& loaded.len() > 0 ==> size_of_messages(loaded) <= cap
            &&& cap >= 2 ==> size_of_messages(loaded) <= cap
        }),
{
    let turns = merged(event_messages(events));
    lemma_history_spoken(events);
    lemma_flushed_spoken(history(events));
    law_merged(event_messages(events));
    law_kept_messages(turns, cap);
    lemma_size_of_none();
}

/// No messages take the two bytes of an empty array.
proof fn lemma_size_of_none()
    ensures
        size_of_messages(Seq::empty()) == 2,
{
    let none = Seq::<json::JsonView>::empty();
    reveal_strlit("[");
    reveal_strlit("]");
    assert(json::array_text(none) =~= seq!['[', ']']);
    offsets::lemma_ascii_bytes(json::array_text(none));
}

} // verus!
