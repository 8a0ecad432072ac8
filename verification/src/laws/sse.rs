//! What is made of a stream of events.

use vstd::prelude::*;

use crate::indexed;
use crate::json;
use crate::json::JsonView;
use crate::laws::fields;
use crate::sse;
use crate::sse::{EffectView, OutputFormat, SseView};

verus! {

/// The event is of the given type.
pub open spec fn is_a(v: JsonView, kind: Seq<char>) -> bool {
    fields::tells(v, "type"@, kind)
}

/// The event is about the block at the index.
pub open spec fn about(v: JsonView, index: u64) -> bool {
    fields::says(v, "index"@, JsonView::Unsigned(index))
}

/// The event brings a change of the given type.
pub open spec fn brings(v: JsonView, kind: Seq<char>) -> bool {
    v is Object && v->Object_0.contains_key("delta"@) && is_a(v->Object_0["delta"@], kind)
}

/// The event brings a change with the text under the key.
pub open spec fn brings_text(v: JsonView, key: Seq<char>, t: Seq<char>) -> bool {
    v is Object && v->Object_0.contains_key("delta"@) && fields::tells(
        v->Object_0["delta"@],
        key,
        t,
    )
}

proof fn lemma_types()
    ensures
        "content_block_start"@.len() == 19,
        "content_block_start"@[14] == 's',
        "content_block_delta"@.len() == 19,
        "content_block_delta"@[14] == 'd',
        "content_block_stop"@.len() == 18,
        "message_delta"@.len() == 13,
        "message_stop"@.len() == 12,
        "error"@.len() == 5,
        "text_delta"@.len() == 10,
        "input_json_delta"@.len() == 16,
        "tool_use"@.len() == 8,
        "text"@.len() == 4,
{
    reveal_strlit("content_block_start");
    reveal_strlit("content_block_delta");
    reveal_strlit("content_block_stop");
    reveal_strlit("message_delta");
    reveal_strlit("message_stop");
    reveal_strlit("error");
    reveal_strlit("text_delta");
    reveal_strlit("input_json_delta");
    reveal_strlit("tool_use");
    reveal_strlit("text");
}

/// The reason to stop is the one that the last change of the message gave, whatever it is; no other
/// event touches it.
pub proof fn law_stop_reason(s: SseView, v: JsonView, format: OutputFormat, reason: Seq<char>)
    ensures
        is_a(v, "message_delta"@) && brings_text(v, "stop_reason"@, reason) ==> sse::step(
            s,
            v,
            format,
        ).state == (SseView { stop_reason: reason, ..s }),
        !is_a(v, "message_delta"@) || (forall|r: Seq<char>|
            !#[trigger] brings_text(v, "stop_reason"@, r)) ==> sse::step(
            s,
            v,
            format,
        ).state.stop_reason == s.stop_reason,
        is_a(v, "message_delta"@) ==> sse::step(s, v, format).effects.len() == 0 && sse::step(
            s,
            v,
            format,
        ).failed is None,
{
    lemma_types();
    if let Some(r) = v.at("delta"@).field_text("stop_reason"@) {
        assert(brings_text(v, "stop_reason"@, r));
    }
}

/// Only the end of the message ends the message.
pub proof fn law_message_stop(s: SseView, v: JsonView, format: OutputFormat)
    ensures
        sse::step(s, v, format).state.stopped == (s.stopped || is_a(v, "message_stop"@)),
        is_a(v, "message_stop"@) ==> sse::step(s, v, format).state == (SseView {
            stopped: true,
            ..s
        }) && sse::step(s, v, format).effects.len() == 0,
{
    lemma_types();
}

/// An error, and nothing else, fails the stream, with its message; the rest stays as it was.
pub proof fn law_stream_error(s: SseView, v: JsonView, format: OutputFormat, msg: Seq<char>)
    ensures
        sse::step(s, v, format).failed is Some <==> is_a(v, "error"@),
        is_a(v, "error"@) ==> sse::step(s, v, format).state == s,
        is_a(v, "error"@) && v->Object_0.contains_key("error"@) && fields::tells(
            v->Object_0["error"@],
            "message"@,
            msg,
        ) ==> {
            let r = sse::step(s, v, format);
            &&& r.failed == Some("stream error: "@ + msg)
            &&& format == OutputFormat::StreamJson ==> r.effects.len() == 1 && r.effects[0] is Emit
                && is_a(r.effects[0]->Emit_0, "error"@) && fields::tells(
                r.effects[0]->Emit_0,
                "message"@,
                msg,
            )
            &&& format != OutputFormat::StreamJson ==> r.effects.len() == 0
        },
        is_a(v, "error"@) && !v->Object_0.contains_key("error"@) ==> sse::step(
            s,
            v,
            format,
        ).failed == Some("stream error: "@ + "unknown"@),
{
    lemma_types();
    fields::lemma_keys();
    let m = sse::stream_error(v);
    let e = seq![("type"@, JsonView::Str("error"@)), ("message"@, JsonView::Str(m))];
    fields::lemma_entry(e, 0);
    fields::lemma_entry(e, 1);
}

/// A block starts as the event gives it; the other blocks, and all else, stay as they were.
pub proof fn law_block_starts(
    s: SseView,
    v: JsonView,
    format: OutputFormat,
    index: u64,
    block: JsonView,
    other: u64,
)
    requires
        indexed::ascending(s.blocks),
        is_a(v, "content_block_start"@),
        about(v, index),
        fields::says(v, "content_block"@, block),
    ensures
        ({
            let r = sse::step(s, v, format);
            &&& indexed::at(r.state.blocks, index) == Some(block)
            &&& other != index ==> indexed::at(r.state.blocks, other) == indexed::at(
                s.blocks,
                other,
            )
            &&& r.state == (SseView { blocks: r.state.blocks, ..s })
            &&& r.effects.len() == 0
            &&& r.failed is None
        }),
{
    lemma_types();
    indexed::law_put(s.blocks, index, block, other);
}

/// The text of a block grows by each piece of text that comes for it; nothing else of the block,
/// and no other block, changes. The piece is shown at once, in the format that was asked for.
pub proof fn law_text_grows(
    s: SseView,
    v: JsonView,
    format: OutputFormat,
    index: u64,
    block: JsonView,
    sofar: Seq<char>,
    piece: Seq<char>,
    key: Seq<char>,
    other: u64,
)
    requires
        indexed::ascending(s.blocks),
        is_a(v, "content_block_delta"@),
        about(v, index),
        brings(v, "text_delta"@),
        brings_text(v, "text"@, piece),
        indexed::at(s.blocks, index) == Some(block),
        block is Object,
        fields::tells(block, "text"@, sofar) || (sofar.len() == 0 && forall|t: Seq<char>|
            !#[trigger] fields::tells(block, "text"@, t)),
    ensures
        ({
            let r = sse::step(s, v, format);
            let now = indexed::at(r.state.blocks, index);
            &&& now is Some
            &&& fields::tells(now->0, "text"@, sofar + piece)
            &&& key != "text"@ && block->Object_0.contains_key(key) ==> fields::says(
                now->0,
                key,
                block->Object_0[key],
            )
            &&& key != "text"@ && !block->Object_0.contains_key(key)
                ==> !(now->0)->Object_0.contains_key(key)
            &&& other != index ==> indexed::at(r.state.blocks, other) == indexed::at(
                s.blocks,
                other,
            )
            &&& r.state == (SseView {
                blocks: r.state.blocks,
                printed: r.state.printed,
                ..s
            })
            &&& r.failed is None
        }),
{
    lemma_types();
    if let Some(t) = block.field_text("text"@) {
        assert(fields::tells(block, "text"@, t));
    }
    assert(sse::field_or_empty(block, "text"@) =~= sofar);
    indexed::law_put(s.blocks, index, block.with("text"@, JsonView::Str(sofar + piece)), other);
}

/// A piece of text is shown at once: printed as it is, or as an event, or not at all, as the format
/// asks.
pub proof fn law_text_is_shown(
    s: SseView,
    v: JsonView,
    format: OutputFormat,
    index: u64,
    piece: Seq<char>,
)
    requires
        is_a(v, "content_block_delta"@),
        about(v, index),
        brings(v, "text_delta"@),
        brings_text(v, "text"@, piece),
    ensures
        ({
            let r = sse::step(s, v, format);
            &&& format == OutputFormat::Text ==> r.effects == seq![EffectView::Print(piece)]
                && r.state.printed
            &&& format == OutputFormat::Json ==> r.effects.len() == 0
            &&& format != OutputFormat::Text ==> r.state.printed == s.printed
            &&& format == OutputFormat::StreamJson ==> {
                &&& r.effects.len() == 1
                &&& r.effects[0] is Emit
                &&& is_a(r.effects[0]->Emit_0, "text_delta"@)
                &&& about(r.effects[0]->Emit_0, index)
                &&& fields::tells(r.effects[0]->Emit_0, "text"@, piece)
            }
        }),
{
    lemma_types();
    fields::lemma_keys();
    let e = seq![
        ("type"@, JsonView::Str("text_delta"@)),
        ("index"@, JsonView::Unsigned(index)),
        ("text"@, JsonView::Str(piece)),
    ];
    fields::lemma_entry(e, 0);
    fields::lemma_entry(e, 1);
    fields::lemma_entry(e, 2);
}

/// What came of the input at the index so far.
pub open spec fn input_so_far(s: SseView, index: u64, sofar: Seq<char>) -> bool {
    match indexed::at(s.buffers, index) {
        Some(b) => b == sofar,
        None => sofar.len() == 0,
    }
}

/// The input of a tool call grows by each piece that comes for it; nothing else changes, and nothing
/// is shown.
pub proof fn law_input_grows(
    s: SseView,
    v: JsonView,
    format: OutputFormat,
    index: u64,
    sofar: Seq<char>,
    piece: Seq<char>,
    other: u64,
)
    requires
        indexed::ascending(s.buffers),
        is_a(v, "content_block_delta"@),
        about(v, index),
        brings(v, "input_json_delta"@),
        brings_text(v, "partial_json"@, piece),
        input_so_far(s, index, sofar),
    ensures
        ({
            let r = sse::step(s, v, format);
            &&& input_so_far(r.state, index, sofar + piece)
            &&& other != index ==> indexed::at(r.state.buffers, other) == indexed::at(
                s.buffers,
                other,
            )
            &&& r.state == (SseView { buffers: r.state.buffers, ..s })
            &&& r.effects.len() == 0
            &&& r.failed is None
        }),
{
    lemma_types();
    assert(sse::buffer_at(s.buffers, index) =~= sofar);
    indexed::law_put(s.buffers, index, sofar + piece, other);
}

/// When a tool call is finished, its input is what the pieces spell together, or empty where they
/// spell no JSON; all else of the block stays, and so do the other blocks. What was collected of the
/// input is put away, and the call is shown where events are.
pub proof fn law_call_is_finished(
    s: SseView,
    v: JsonView,
    format: OutputFormat,
    index: u64,
    block: JsonView,
    sofar: Seq<char>,
    key: Seq<char>,
    other: u64,
)
    requires
        indexed::ascending(s.blocks),
        indexed::ascending(s.buffers),
        is_a(v, "content_block_stop"@),
        about(v, index),
        indexed::at(s.blocks, index) == Some(block),
        is_a(block, "tool_use"@),
        input_so_far(s, index, sofar),
    ensures
        ({
            let r = sse::step(s, v, format);
            let now = indexed::at(r.state.blocks, index);
            let input = (now->0)->Object_0["input"@];
            &&& now is Some
            &&& now->0 is Object
            &&& (now->0)->Object_0.contains_key("input"@)
            &&& forall|j: JsonView| #[trigger] json::spells(sofar, j) ==> input == j
            &&& (forall|j: JsonView| !#[trigger] json::spells(sofar, j)) ==> input
                == JsonView::Object(Map::empty())
            &&& key != "input"@ && block->Object_0.contains_key(key) ==> fields::says(
                now->0,
                key,
                block->Object_0[key],
            )
            &&& key != "input"@ && !block->Object_0.contains_key(key)
                ==> !(now->0)->Object_0.contains_key(key)
            &&& input_so_far(r.state, index, Seq::empty())
            &&& other != index ==> indexed::at(r.state.blocks, other) == indexed::at(
                s.blocks,
                other,
            ) && indexed::at(r.state.buffers, other) == indexed::at(s.buffers, other)
            &&& r.state == (SseView {
                blocks: r.state.blocks,
                buffers: r.state.buffers,
                ..s
            })
            &&& r.failed is None
        }),
{
    lemma_types();
    let buf = sse::buffer_at(s.buffers, index);
    assert(buf =~= sofar);
    let parsed = json::parsed_json(sofar);
    let done = block.with("input"@, sse::tool_input(parsed));
    indexed::law_put(s.blocks, index, done, other);
    indexed::law_without(s.buffers, index, other);
    assert(JsonView::Object(json::entries_map(Seq::empty())) == JsonView::Object(
        Map::<Seq<char>, JsonView>::empty(),
    ));
    if let Ok(j) = parsed {
        assert(json::spells(sofar, j));
    }
}

/// A finished call is shown last, with its id, its name and its input, where events are shown, and
/// not at all elsewhere; before that come warnings, only where the input was no JSON or missing.
pub proof fn law_finished_call_is_shown(
    s: SseView,
    v: JsonView,
    format: OutputFormat,
    index: u64,
    block: JsonView,
    sofar: Seq<char>,
    input: JsonView,
)
    requires
        is_a(v, "content_block_stop"@),
        about(v, index),
        indexed::at(s.blocks, index) == Some(block),
        is_a(block, "tool_use"@),
        input_so_far(s, index, sofar),
        json::spells(sofar, input),
        sofar.len() > 0,
    ensures
        ({
            let e = sse::step(s, v, format).effects;
            &&& format != OutputFormat::StreamJson ==> e.len() == 0
            &&& format == OutputFormat::StreamJson ==> {
                &&& e.len() == 1
                &&& e[0] is Emit
                &&& is_a(e[0]->Emit_0, "tool_use"@)
                &&& about(e[0]->Emit_0, index)
                &&& fields::says(e[0]->Emit_0, "input"@, input)
                &&& block->Object_0.contains_key("id"@) ==> fields::says(
                    e[0]->Emit_0,
                    "id"@,
                    block->Object_0["id"@],
                )
                &&& block->Object_0.contains_key("name"@) ==> fields::says(
                    e[0]->Emit_0,
                    "name"@,
                    block->Object_0["name"@],
                )
            }
        }),
{
    lemma_types();
    fields::lemma_keys();
    assert(sse::buffer_at(s.buffers, index) =~= sofar);
    let done = block.with("input"@, input);
    let e = seq![
        ("type"@, JsonView::Str("tool_use"@)),
        ("index"@, JsonView::Unsigned(index)),
        ("id"@, done.at("id"@)),
        ("name"@, done.at("name"@)),
        ("input"@, done.at("input"@)),
    ];
    fields::lemma_entry(e, 0);
    fields::lemma_entry(e, 1);
    fields::lemma_entry(e, 2);
    fields::lemma_entry(e, 3);
    fields::lemma_entry(e, 4);
}

/// The end of any other block changes nothing. Of a text it is shown where events are.
pub proof fn law_other_block_is_finished(
    s: SseView,
    v: JsonView,
    format: OutputFormat,
    index: u64,
)
    requires
        is_a(v, "content_block_stop"@),
        about(v, index),
        match indexed::at(s.blocks, index) {
            Some(b) => !is_a(b, "tool_use"@),
            None => true,
        },
    ensures
        ({
            let r = sse::step(s, v, format);
            let text = match indexed::at(s.blocks, index) {
                Some(b) => is_a(b, "text"@),
                None => false,
            };
            &&& r.state == s
            &&& r.failed is None
            &&& !text || format != OutputFormat::StreamJson ==> r.effects.len() == 0
            &&& text && format == OutputFormat::StreamJson ==> r.effects.len() == 1
                && r.effects[0] is Emit && is_a(r.effects[0]->Emit_0, "text_done"@) && about(
                r.effects[0]->Emit_0,
                index,
            )
        }),
{
    lemma_types();
    fields::lemma_keys();
    let e = seq![
        ("type"@, JsonView::Str("text_done"@)),
        ("index"@, JsonView::Unsigned(index)),
    ];
    fields::lemma_entry(e, 0);
    fields::lemma_entry(e, 1);
}

/// Events of other types change nothing and show nothing.
pub proof fn law_other_events(s: SseView, v: JsonView, format: OutputFormat)
    requires
        !is_a(v, "content_block_start"@),
        !is_a(v, "content_block_delta"@),
        !is_a(v, "content_block_stop"@),
        !is_a(v, "message_delta"@),
        !is_a(v, "message_stop"@),
        !is_a(v, "error"@),
    ensures
        ({
            let r = sse::step(s, v, format);
            r.state == s && r.effects.len() == 0 && r.failed is None
        }),
{
    lemma_types();
}

/// A line that carries an event has its effect on the state that the lines before it left, and what
/// they showed stays shown; any other line has none.
pub proof fn law_line_by_line(
    lines: Seq<Seq<char>>,
    data: Seq<char>,
    v: JsonView,
    format: OutputFormat,
)
    requires
        json::spells(data, v),
        data.len() > 0,
        !sse::run(lines, format).over(),
        sse::acceptable(sse::run(lines, format).state, v),
    ensures
        ({
            let before = sse::run(lines, format);
            let one = sse::step(before.state, v, format);
            let after = sse::run(lines.push("data: "@ + data), format);
            &&& after.state == one.state
            &&& after.effects == before.effects + one.effects
            &&& after.failed == one.failed
            &&& !after.malformed
        }),
{
    lemma_types();
    let line = "data: "@ + data;
    assert(lines.push(line).drop_last() =~= lines);
    assert(line.subrange(0, "data: "@.len() as int) =~= "data: "@);
    assert(line.subrange("data: "@.len() as int, line.len() as int) =~= data);
    assert(sse::line_value(line) == Some(v));
}

/// A line that is not marked as data has no effect, and neither has any line after the end.
pub proof fn law_lines_without_effect(
    lines: Seq<Seq<char>>,
    line: Seq<char>,
    format: OutputFormat,
)
    requires
        sse::run(lines, format).over() || !crate::text::begins_with(line, "data: "@) || line.len()
            == "data: "@.len(),
    ensures
        sse::run(lines.push(line), format) == sse::run(lines, format),
{
    assert(lines.push(line).drop_last() =~= lines);
    let before = sse::run(lines, format);
    if !before.over() {
        assert(before.effects + Seq::<EffectView>::empty() =~= before.effects);
    }
}

/// Printed text is closed with a newline, and nothing else is.
pub proof fn law_closing_newline(s: SseView, format: OutputFormat)
    ensures
        format == OutputFormat::Text && s.printed ==> sse::closing_effects(s, format) == seq![
            EffectView::Print("\n"@),
        ],
        format != OutputFormat::Text || !s.printed ==> sse::closing_effects(s, format).len() == 0,
{
}

/// A piece of text for a block that can hold no text is refused; every other event is taken in.
pub proof fn law_acceptable(s: SseView, v: JsonView, index: u64, block: JsonView)
    ensures
        !is_a(v, "content_block_delta"@) || !brings(v, "text_delta"@) ==> sse::acceptable(s, v),
        is_a(v, "content_block_delta"@) && brings(v, "text_delta"@) && about(v, index)
            && indexed::at(s.blocks, index) is None ==> sse::acceptable(s, v),
        is_a(v, "content_block_delta"@) && brings(v, "text_delta"@) && about(v, index)
            && indexed::at(s.blocks, index) == Some(block) ==> (sse::acceptable(s, v) <==> block
            is Object || block is Null),
{
    lemma_types();
}

/// A tool call without any input, or with input that is no JSON, is warned of.
pub proof fn law_bad_input_is_warned_of(
    s: SseView,
    v: JsonView,
    format: OutputFormat,
    index: u64,
    block: JsonView,
    sofar: Seq<char>,
)
    requires
        is_a(v, "content_block_stop"@),
        about(v, index),
        indexed::at(s.blocks, index) == Some(block),
        is_a(block, "tool_use"@),
        input_so_far(s, index, sofar),
        sofar.len() == 0 || forall|j: JsonView| !#[trigger] json::spells(sofar, j),
    ensures
        sse::step(s, v, format).effects.len() > 0,
        sse::step(s, v, format).effects[0] is Warn,
{
    lemma_types();
    assert(sse::buffer_at(s.buffers, index) =~= sofar);
    if let Ok(j) = json::parsed_json(sofar) {
        assert(json::spells(sofar, j));
    }
}

/// The content of the answer is the blocks in the order of their indices.
pub proof fn law_content(s: SseView, i: int)
    ensures
        sse::content_of(s) is Array,
        sse::content_of(s)->Array_0.len() == s.blocks.len(),
        0 <= i < s.blocks.len() ==> sse::content_of(s)->Array_0[i] == s.blocks[i].1,
{
}

} // verus!
