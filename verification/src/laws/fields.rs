//! What JSON objects say under their keys.

use vstd::prelude::*;

use crate::json;

verus! {

/// The object says `value` under `key`.
pub open spec fn says(v: json::JsonView, key: Seq<char>, value: json::JsonView) -> bool {
    v is Object && v->Object_0.contains_key(key) && v->Object_0[key] == value
}

/// The object says the text `value` under `key`.
pub open spec fn tells(v: json::JsonView, key: Seq<char>, value: Seq<char>) -> bool {
    says(v, key, json::JsonView::Str(value))
}

/// What an object was built of is what it says; of two entries with one key the later counts.
pub proof fn lemma_entry(entries: Seq<(Seq<char>, json::JsonView)>, i: int)
    requires
        0 <= i < entries.len(),
        forall|j: int| i < j < entries.len() ==> (#[trigger] entries[j]).0 != entries[i].0,
    ensures
        says(json::object_of(entries), entries[i].0, entries[i].1),
    decreases entries.len(),
{
    if i < entries.len() - 1 {
        let less = entries.drop_last();
        assert forall|j: int| i < j < less.len() implies (#[trigger] less[j]).0 != less[i].0 by {
            assert(entries[j].0 != entries[i].0);
        }
        lemma_entry(less, i);
        assert(entries[entries.len() - 1].0 != entries[i].0);
    }
}

/// No two of the keys are the same: their lengths, and the characters that tell them apart.
pub proof fn lemma_keys()
    ensures
        "id"@.len() == 2,
        "kind"@.len() == 4,
        "kind"@[0] == 'k',
        "name"@.len() == 4,
        "name"@[0] == 'n',
        "name"@[1] == 'a',
        "note"@.len() == 4,
        "note"@[0] == 'n',
        "note"@[1] == 'o',
        "role"@.len() == 4,
        "role"@[0] == 'r',
        "text"@.len() == 4,
        "text"@[0] == 't',
        "text"@[1] == 'e',
        "type"@.len() == 4,
        "type"@[0] == 't',
        "type"@[1] == 'y',
        "claim"@.len() == 5,
        "claim"@[0] == 'c',
        "delta"@.len() == 5,
        "delta"@[0] == 'd',
        "delta"@[2] == 'l',
        "depth"@.len() == 5,
        "depth"@[0] == 'd',
        "depth"@[2] == 'p',
        "error"@.len() == 5,
        "error"@[0] == 'e',
        "error"@[1] == 'r',
        "event"@.len() == 5,
        "event"@[0] == 'e',
        "event"@[1] == 'v',
        "index"@.len() == 5,
        "index"@[0] == 'i',
        "index"@[2] == 'd',
        "input"@.len() == 5,
        "input"@[0] == 'i',
        "input"@[2] == 'p',
        "model"@.len() == 5,
        "model"@[0] == 'm',
        "tools"@.len() == 5,
        "tools"@[0] == 't',
        "tools"@[1] == 'o',
        "ts_ms"@.len() == 5,
        "ts_ms"@[0] == 't',
        "ts_ms"@[1] == 's',
        "action"@.len() == 6,
        "action"@[0] == 'a',
        "claims"@.len() == 6,
        "claims"@[0] == 'c',
        "output"@.len() == 6,
        "output"@[0] == 'o',
        "passed"@.len() == 6,
        "passed"@[0] == 'p',
        "passed"@[1] == 'a',
        "prompt"@.len() == 6,
        "prompt"@[0] == 'p',
        "prompt"@[1] == 'r',
        "reason"@.len() == 6,
        "reason"@[0] == 'r',
        "reason"@[2] == 'a',
        "result"@.len() == 6,
        "result"@[0] == 'r',
        "result"@[2] == 's',
        "script"@.len() == 6,
        "script"@[0] == 's',
        "script"@[1] == 'c',
        "status"@.len() == 6,
        "status"@[0] == 's',
        "status"@[1] == 't',
        "status"@[2] == 'a',
        "stream"@.len() == 6,
        "stream"@[0] == 's',
        "stream"@[1] == 't',
        "stream"@[2] == 'r',
        "system"@.len() == 6,
        "system"@[0] == 's',
        "system"@[1] == 'y',
        "archive"@.len() == 7,
        "archive"@[0] == 'a',
        "command"@.len() == 7,
        "command"@[0] == 'c',
        "command"@[2] == 'm',
        "content"@.len() == 7,
        "content"@[0] == 'c',
        "content"@[2] == 'n',
        "content"@[5] == 'n',
        "context"@.len() == 7,
        "context"@[0] == 'c',
        "context"@[2] == 'n',
        "context"@[5] == 'x',
        "message"@.len() == 7,
        "message"@[0] == 'm',
        "summary"@.len() == 7,
        "summary"@[0] == 's',
        "messages"@.len() == 8,
        "exit_code"@.len() == 9,
        "exit_code"@[0] == 'e',
        "timed_out"@.len() == 9,
        "timed_out"@[0] == 't',
        "lazar_home"@.len() == 10,
        "lazar_home"@[0] == 'l',
        "max_tokens"@.len() == 10,
        "max_tokens"@[0] == 'm',
        "session_id"@.len() == 10,
        "session_id"@[0] == 's',
        "session_id"@[1] == 'e',
        "size_bytes"@.len() == 10,
        "size_bytes"@[0] == 's',
        "size_bytes"@[1] == 'i',
        "description"@.len() == 11,
        "description"@[0] == 'd',
        "description"@[1] == 'e',
        "duration_ms"@.len() == 11,
        "duration_ms"@[0] == 'd',
        "duration_ms"@[1] == 'u',
        "hooks_fired"@.len() == 11,
        "hooks_fired"@[0] == 'h',
        "stop_reason"@.len() == 11,
        "stop_reason"@[0] == 's',
        "tool_use_id"@.len() == 11,
        "tool_use_id"@[0] == 't',
        "partial_json"@.len() == 12,
        "content_block"@.len() == 13,
        "loaded_messages"@.len() == 15,
        "executed_command"@.len() == 16,
        "requested_command"@.len() == 17,
{
    reveal_strlit("id");
    reveal_strlit("kind");
    reveal_strlit("name");
    reveal_strlit("note");
    reveal_strlit("role");
    reveal_strlit("text");
    reveal_strlit("type");
    reveal_strlit("claim");
    reveal_strlit("delta");
    reveal_strlit("depth");
    reveal_strlit("error");
    reveal_strlit("event");
    reveal_strlit("index");
    reveal_strlit("input");
    reveal_strlit("model");
    reveal_strlit("tools");
    reveal_strlit("ts_ms");
    reveal_strlit("action");
    reveal_strlit("claims");
    reveal_strlit("output");
    reveal_strlit("passed");
    reveal_strlit("prompt");
    reveal_strlit("reason");
    reveal_strlit("result");
    reveal_strlit("script");
    reveal_strlit("status");
    reveal_strlit("stream");
    reveal_strlit("system");
    reveal_strlit("archive");
    reveal_strlit("command");
    reveal_strlit("content");
    reveal_strlit("context");
    reveal_strlit("message");
    reveal_strlit("summary");
    reveal_strlit("messages");
    reveal_strlit("exit_code");
    reveal_strlit("timed_out");
    reveal_strlit("lazar_home");
    reveal_strlit("max_tokens");
    reveal_strlit("session_id");
    reveal_strlit("size_bytes");
    reveal_strlit("description");
    reveal_strlit("duration_ms");
    reveal_strlit("hooks_fired");
    reveal_strlit("stop_reason");
    reveal_strlit("tool_use_id");
    reveal_strlit("partial_json");
    reveal_strlit("content_block");
    reveal_strlit("loaded_messages");
    reveal_strlit("executed_command");
    reveal_strlit("requested_command");
}

} // verus!
