//! The event stream of the Messages API: line by line, the content blocks of the assistant's
//! answer are put together.
//!
//! What is to be shown on the way is handed back as a list of [`Effect`]s.

use vstd::prelude::*;
use vstd::slice::slice_subrange;

use crate::claims;
use crate::claims::debug_text;
use crate::indexed;
use crate::indexed::IndexMap;
use crate::json;
use crate::json::{json_array, json_str, parse_json, Json, ObjectBuilder};
use crate::numbers;
use crate::numbers::{decimal_text, size_text};
use crate::offsets;
use crate::offsets::byte_len;
use crate::text;
use crate::text::{chars_of, owned, same_text, string_of, text_begins_with};
use crate::tools;
use crate::tools::tool_input_preview;

verus! {

/// How results are shown.
#[derive(Clone, Copy, Debug, PartialEq, Eq, Structural)]
pub enum OutputFormat {
    /// Human-readable: streams assistant text, tool calls silent.
    Text,
    /// One JSON result object at the end.
    Json,
    /// One JSON object per line as things happen.
    StreamJson,
}

/// Something to show.
#[derive(Debug)]
pub enum Effect {
    /// Text for the standard output.
    Print(String),
    /// An event for the standard output.
    Emit(Json),
    /// A line for the error output.
    Warn(String),
}

/// Something to show.
#[verifier::ext_equal]
pub enum EffectView {
    /// Text for the standard output.
    Print(Seq<char>),
    /// An event for the standard output.
    Emit(json::JsonView),
    /// A line for the error output.
    Warn(Seq<char>),
}

impl View for Effect {
    type V = EffectView;

    open spec fn view(&self) -> EffectView {
        match self {
            Effect::Print(s) => EffectView::Print(s@),
            Effect::Emit(v) => EffectView::Emit(v@),
            Effect::Warn(s) => EffectView::Warn(s@),
        }
    }
}

/// What the effects of a list say.
pub open spec fn effect_views(v: Seq<Effect>) -> Seq<EffectView> {
    v.map_values(|e: Effect| e@)
}

/// What was put together so far.
#[verifier::ext_equal]
pub struct SseView {
    /// The content blocks, by index.
    pub blocks: Seq<(u64, json::JsonView)>,
    /// The input of tool calls, as far as it came, by index.
    pub buffers: Seq<(u64, Seq<char>)>,
    /// Why the model stopped.
    pub stop_reason: Seq<char>,
    /// Some text was printed.
    pub printed: bool,
    /// The end of the message was seen.
    pub stopped: bool,
}

/// The state after an event, what is to be shown, and what went wrong, if anything did.
#[verifier::ext_equal]
pub struct StepView {
    /// The state.
    pub state: SseView,
    /// What is to be shown.
    pub effects: Seq<EffectView>,
    /// What went wrong.
    pub failed: Option<Seq<char>>,
}

/// Nothing was read yet.
pub open spec fn start_view() -> SseView {
    SseView {
        blocks: Seq::empty(),
        buffers: Seq::empty(),
        stop_reason: Seq::empty(),
        printed: false,
        stopped: false,
    }
}

/// The string, or the empty one.
pub open spec fn text_or_empty(v: json::JsonView) -> Seq<char> {
    match v.text() {
        Some(s) => s,
        None => Seq::empty(),
    }
}

/// The string under `key`, or the empty one.
pub open spec fn field_or_empty(v: json::JsonView, key: Seq<char>) -> Seq<char> {
    text_or_empty(v.at(key))
}

/// Nothing is to be shown.
pub open spec fn quiet(state: SseView) -> StepView {
    StepView { state, effects: Seq::empty(), failed: None }
}

/// A block can hold a text.
pub open spec fn takes_text(block: json::JsonView) -> bool {
    block is Null || block is Object
}

/// The block with a text.
pub open spec fn with_text(block: json::JsonView, t: Seq<char>) -> json::JsonView {
    if block is Null {
        json::object_of(seq![("text"@, json::JsonView::Str(t))])
    } else {
        block.with("text"@, json::JsonView::Str(t))
    }
}

/// What is to be shown of a piece of text.
pub open spec fn text_effects(format: OutputFormat, index: u64, t: Seq<char>) -> Seq<EffectView> {
    match format {
        OutputFormat::Text => seq![EffectView::Print(t)],
        OutputFormat::StreamJson => seq![
            EffectView::Emit(
                json::object_of(
                    seq![
                        ("type"@, json::JsonView::Str("text_delta"@)),
                        ("index"@, json::JsonView::Unsigned(index)),
                        ("text"@, json::JsonView::Str(t)),
                    ],
                ),
            ),
        ],
        OutputFormat::Json => Seq::empty(),
    }
}

/// The state after a piece of text.
pub open spec fn text_delta(s: SseView, format: OutputFormat, index: u64, t: Seq<char>) -> StepView {
    StepView {
        state: SseView {
            blocks: match indexed::at(s.blocks, index) {
                Some(b) => indexed::put(
                    s.blocks,
                    index,
                    with_text(b, field_or_empty(b, "text"@) + t),
                ),
                None => s.blocks,
            },
            printed: s.printed || format == OutputFormat::Text,
            ..s
        },
        effects: text_effects(format, index, t),
        failed: None,
    }
}

/// The input of a tool call so far.
pub open spec fn buffer_at(buffers: Seq<(u64, Seq<char>)>, index: u64) -> Seq<char> {
    match indexed::at(buffers, index) {
        Some(b) => b,
        None => Seq::empty(),
    }
}

/// The state after a piece of a tool call's input.
pub open spec fn input_delta(s: SseView, index: u64, partial: Seq<char>) -> SseView {
    SseView {
        buffers: indexed::put(s.buffers, index, buffer_at(s.buffers, index) + partial),
        ..s
    }
}

/// The input of a finished tool call. What does not parse counts as no input.
pub open spec fn tool_input(parsed: Result<json::JsonView, Seq<char>>) -> json::JsonView {
    match parsed {
        Ok(v) => v,
        Err(_) => json::object_of(Seq::empty()),
    }
}

/// What is warned of when a tool call is finished.
pub open spec fn tool_warnings(
    index: u64,
    buf: Seq<char>,
    parsed: Result<json::JsonView, Seq<char>>,
) -> Seq<EffectView> {
    (match parsed {
        Ok(_) => Seq::<EffectView>::empty(),
        Err(e) => seq![
            EffectView::Warn(
                "[lazar] WARN: tool_use input parse failed (err="@ + e + "); buffer ("@
                    + numbers::decimal(offsets::bytes(buf).len()) + " bytes) was: "@
                    + claims::text_debug(tools::input_preview(buf, 500)),
            ),
        ],
    }) + (if buf.len() == 0 {
        seq![
            EffectView::Warn(
                "[lazar] WARN: tool_use idx="@ + numbers::decimal(index as nat)
                    + " had no input_json_delta events; input is {}"@,
            ),
        ]
    } else {
        Seq::<EffectView>::empty()
    })
}

/// The event on a finished tool call.
pub open spec fn tool_use_event(index: u64, block: json::JsonView) -> json::JsonView {
    json::object_of(
        seq![
            ("type"@, json::JsonView::Str("tool_use"@)),
            ("index"@, json::JsonView::Unsigned(index)),
            ("id"@, block.at("id"@)),
            ("name"@, block.at("name"@)),
            ("input"@, block.at("input"@)),
        ],
    )
}

/// The event on a finished text.
pub open spec fn text_done_event(index: u64) -> json::JsonView {
    json::object_of(
        seq![
            ("type"@, json::JsonView::Str("text_done"@)),
            ("index"@, json::JsonView::Unsigned(index)),
        ],
    )
}

/// The state after a tool call is finished. `parsed` is what its input was read as.
pub open spec fn tool_done(
    s: SseView,
    format: OutputFormat,
    index: u64,
    block: json::JsonView,
    parsed: Result<json::JsonView, Seq<char>>,
) -> StepView {
    let done = block.with("input"@, tool_input(parsed));
    StepView {
        state: SseView {
            blocks: indexed::put(s.blocks, index, done),
            buffers: indexed::without(s.buffers, index),
            ..s
        },
        effects: tool_warnings(index, buffer_at(s.buffers, index), parsed) + (if format
            == OutputFormat::StreamJson {
            seq![EffectView::Emit(tool_use_event(index, done))]
        } else {
            Seq::<EffectView>::empty()
        }),
        failed: None,
    }
}

/// The state after a block is finished.
pub open spec fn block_stop(s: SseView, format: OutputFormat, index: u64) -> StepView {
    match indexed::at(s.blocks, index) {
        Some(b) => if b.field_is("type"@, "tool_use"@) {
            tool_done(
                s,
                format,
                index,
                b,
                json::parsed_json(buffer_at(s.buffers, index)),
            )
        } else if b.field_is("type"@, "text"@) && format == OutputFormat::StreamJson {
            StepView {
                state: s,
                effects: seq![EffectView::Emit(text_done_event(index))],
                failed: None,
            }
        } else {
            quiet(s)
        },
        None => quiet(s),
    }
}

/// The event on an error.
pub open spec fn error_event(message: Seq<char>) -> json::JsonView {
    json::object_of(
        seq![
            ("type"@, json::JsonView::Str("error"@)),
            ("message"@, json::JsonView::Str(message)),
        ],
    )
}

/// The error that the stream reports.
pub open spec fn stream_error(v: json::JsonView) -> Seq<char> {
    match v.at("error"@).field_text("message"@) {
        Some(m) => m,
        None => "unknown"@,
    }
}

/// The state after an event of the stream.
pub open spec fn step(s: SseView, v: json::JsonView, format: OutputFormat) -> StepView {
    let kind = field_or_empty(v, "type"@);
    let index = v.index("index"@);
    let delta = v.at("delta"@);
    if kind == "content_block_start"@ {
        quiet(
            SseView { blocks: indexed::put(s.blocks, index, v.at("content_block"@)), ..s },
        )
    } else if kind == "content_block_delta"@ {
        if field_or_empty(delta, "type"@) == "text_delta"@ {
            text_delta(s, format, index, field_or_empty(delta, "text"@))
        } else if field_or_empty(delta, "type"@) == "input_json_delta"@ {
            quiet(input_delta(s, index, field_or_empty(delta, "partial_json"@)))
        } else {
            quiet(s)
        }
    } else if kind == "content_block_stop"@ {
        block_stop(s, format, index)
    } else if kind == "message_delta"@ {
        match delta.field_text("stop_reason"@) {
            Some(r) => quiet(SseView { stop_reason: r, ..s }),
            None => quiet(s),
        }
    } else if kind == "message_stop"@ {
        quiet(SseView { stopped: true, ..s })
    } else if kind == "error"@ {
        StepView {
            state: s,
            effects: if format == OutputFormat::StreamJson {
                seq![EffectView::Emit(error_event(stream_error(v)))]
            } else {
                Seq::empty()
            },
            failed: Some("stream error: "@ + stream_error(v)),
        }
    } else {
        quiet(s)
    }
}

/// The event can be taken in: a piece of text belongs to a block that can hold text.
pub open spec fn acceptable(s: SseView, v: json::JsonView) -> bool {
    field_or_empty(v, "type"@) == "content_block_delta"@ && field_or_empty(
        v.at("delta"@),
        "type"@,
    ) == "text_delta"@ ==> match indexed::at(s.blocks, v.index("index"@)) {
        Some(b) => takes_text(b),
        None => true,
    }
}

/// What a line of the stream carries.
pub open spec fn line_data(line: Seq<char>) -> Option<Seq<char>> {
    if text::begins_with(line, "data: "@) && line.len() > "data: "@.len() {
        Some(line.subrange("data: "@.len() as int, line.len() as int))
    } else {
        None
    }
}

/// The event of a line, if it carries one.
pub open spec fn line_value(line: Seq<char>) -> Option<json::JsonView> {
    match line_data(line) {
        Some(d) => match json::parsed_json(d) {
            Ok(v) => Some(v),
            Err(_) => None,
        },
        None => None,
    }
}

/// The state after a line. Lines that carry no event change nothing.
pub open spec fn line_step(s: SseView, line: Seq<char>, format: OutputFormat) -> StepView {
    match line_value(line) {
        Some(v) => step(s, v, format),
        None => quiet(s),
    }
}

/// The line can be taken in.
pub open spec fn line_acceptable(s: SseView, line: Seq<char>) -> bool {
    match line_value(line) {
        Some(v) => acceptable(s, v),
        None => true,
    }
}

/// The content blocks in the order of their indices.
pub open spec fn content_of(s: SseView) -> json::JsonView {
    json::JsonView::Array(s.blocks.map_values(|e: (u64, json::JsonView)| e.1))
}

/// What is said of a stream that breaks off.
pub const BROKEN_OFF: &'static str = "SSE stream ended before message_stop";

// ---------------------------------------------------------------------------
// Laws
// ---------------------------------------------------------------------------

/// The blocks and the buffers stay in the order of their indices.
pub proof fn law_step_keeps_order(s: SseView, v: json::JsonView, format: OutputFormat)
    requires
        indexed::ascending(s.blocks),
        indexed::ascending(s.buffers),
    ensures
        indexed::ascending(step(s, v, format).state.blocks),
        indexed::ascending(step(s, v, format).state.buffers),
{
    let index = v.index("index"@);
    let delta = v.at("delta"@);
    indexed::law_put(s.blocks, index, v.at("content_block"@), index);
    indexed::law_put(
        s.buffers,
        index,
        buffer_at(s.buffers, index) + field_or_empty(delta, "partial_json"@),
        index,
    );
    indexed::law_without(s.buffers, index, index);
    if let Some(b) = indexed::at(s.blocks, index) {
        let t = field_or_empty(b, "text"@) + field_or_empty(delta, "text"@);
        indexed::law_put(s.blocks, index, with_text(b, t), index);
        let parsed = json::parsed_json(buffer_at(s.buffers, index));
        indexed::law_put(s.blocks, index, b.with("input"@, tool_input(parsed)), index);
    }
}

/// A piece of text is added to the text of its block, and to no other block.
pub proof fn law_text_is_appended(
    s: SseView,
    format: OutputFormat,
    index: u64,
    t: Seq<char>,
    b: json::JsonView,
    other: u64,
)
    requires
        indexed::ascending(s.blocks),
        indexed::at(s.blocks, index) == Some(b),
        takes_text(b),
    ensures
        ({
            let after = text_delta(s, format, index, t).state.blocks;
            &&& indexed::at(after, index) is Some
            &&& field_or_empty(indexed::at(after, index)->0, "text"@) == field_or_empty(b, "text"@)
                + t
            &&& other != index ==> indexed::at(after, other) == indexed::at(s.blocks, other)
        }),
{
    let all = field_or_empty(b, "text"@) + t;
    let done = with_text(b, all);
    indexed::law_put(s.blocks, index, done, other);
    let e = seq![("text"@, json::JsonView::Str(all))];
    assert(e.drop_last() =~= Seq::<(Seq<char>, json::JsonView)>::empty());
    reveal_with_fuel(json::entries_map, 2);
    assert(done.at("text"@) == json::JsonView::Str(all));
}

/// The pieces of a tool call's input are put together in the order in which they come.
pub proof fn law_input_is_appended(s: SseView, index: u64, a: Seq<char>, b: Seq<char>)
    requires
        indexed::ascending(s.buffers),
    ensures
        buffer_at(input_delta(input_delta(s, index, a), index, b).buffers, index) == buffer_at(
            s.buffers,
            index,
        ) + a + b,
{
    let first = input_delta(s, index, a);
    indexed::law_put(s.buffers, index, buffer_at(s.buffers, index) + a, index);
    indexed::law_put(first.buffers, index, buffer_at(first.buffers, index) + b, index);
}

// ---------------------------------------------------------------------------
// Reading
// ---------------------------------------------------------------------------

/// What was put together so far.
pub struct SseState {
    blocks: IndexMap<Json>,
    buffers: IndexMap<String>,
    stop_reason: String,
    printed: bool,
    stopped: bool,
}

impl View for SseState {
    type V = SseView;

    closed spec fn view(&self) -> SseView {
        SseView {
            blocks: self.blocks@,
            buffers: self.buffers@,
            stop_reason: self.stop_reason@,
            printed: self.printed,
            stopped: self.stopped,
        }
    }
}

fn push_effect(out: &mut Vec<Effect>, e: Effect)
    ensures
        effect_views(final(out)@) == effect_views(old(out)@).push(e@),
{
    out.push(e);
    assert(effect_views(out@) =~= effect_views(old(out)@).push(e@));
}

fn field_text_of(v: &Json, key: &str) -> (r: String)
    ensures
        r@ == field_or_empty(v@, key@),
{
    match v.get_text(key) {
        Some(s) => owned(s),
        None => String::new(),
    }
}

fn empty_object() -> (r: Json)
    ensures
        r@ == json::object_of(Seq::empty()),
{
    ObjectBuilder::new().done()
}

/// The event on an error.
pub fn make_error_event(message: &str) -> (r: Json)
    ensures
        r@ == error_event(message@),
{
    let built = ObjectBuilder::new().put_str("type", "error").put_str("message", message);
    assert(built.entries() =~= seq![
        ("type"@, json::JsonView::Str("error"@)),
        ("message"@, json::JsonView::Str(message@)),
    ]);
    built.done()
}

fn text_delta_event(index: u64, t: &str) -> (r: Json)
    ensures
        r@ == json::object_of(
            seq![
                ("type"@, json::JsonView::Str("text_delta"@)),
                ("index"@, json::JsonView::Unsigned(index)),
                ("text"@, json::JsonView::Str(t@)),
            ],
        ),
{
    let built = ObjectBuilder::new().put_str("type", "text_delta").put(
        "index",
        Json::Unsigned(index),
    ).put_str("text", t);
    assert(built.entries() =~= seq![
        ("type"@, json::JsonView::Str("text_delta"@)),
        ("index"@, json::JsonView::Unsigned(index)),
        ("text"@, json::JsonView::Str(t@)),
    ]);
    built.done()
}

fn make_tool_use_event(index: u64, block: &Json) -> (r: Json)
    ensures
        r@ == tool_use_event(index, block@),
{
    let built = ObjectBuilder::new().put_str("type", "tool_use").put(
        "index",
        Json::Unsigned(index),
    ).put("id", block.dup_at("id")).put("name", block.dup_at("name")).put(
        "input",
        block.dup_at("input"),
    );
    assert(built.entries() =~= seq![
        ("type"@, json::JsonView::Str("tool_use"@)),
        ("index"@, json::JsonView::Unsigned(index)),
        ("id"@, block@.at("id"@)),
        ("name"@, block@.at("name"@)),
        ("input"@, block@.at("input"@)),
    ]);
    built.done()
}

fn make_text_done_event(index: u64) -> (r: Json)
    ensures
        r@ == text_done_event(index),
{
    let built = ObjectBuilder::new().put_str("type", "text_done").put(
        "index",
        Json::Unsigned(index),
    );
    assert(built.entries() =~= seq![
        ("type"@, json::JsonView::Str("text_done"@)),
        ("index"@, json::JsonView::Unsigned(index)),
    ]);
    built.done()
}

/// The outcome of a parse, as a view.
pub open spec fn parse_view(p: Result<Json, String>) -> Result<json::JsonView, Seq<char>> {
    match p {
        Ok(v) => Ok(v@),
        Err(e) => Err(e@),
    }
}

fn push_tool_warnings(
    index: u64,
    buf: &str,
    parsed: &Result<Json, String>,
    effects: &mut Vec<Effect>,
)
    ensures
        effect_views(final(effects)@) == effect_views(old(effects)@) + tool_warnings(
            index,
            buf@,
            parse_view(*parsed),
        ),
{
    match parsed {
        Ok(_) => {},
        Err(e) => {
            let mut w = owned("[lazar] WARN: tool_use input parse failed (err=");
            w.append(e.as_str());
            w.append("); buffer (");
            w.append(size_text(byte_len(buf)).as_str());
            w.append(" bytes) was: ");
            w.append(debug_text(tool_input_preview(buf, 500).as_str()).as_str());
            push_effect(effects, Effect::Warn(w));
        },
    }
    if buf.is_empty() {
        let mut w = owned("[lazar] WARN: tool_use idx=");
        w.append(decimal_text(index as u128).as_str());
        w.append(" had no input_json_delta events; input is {}");
        push_effect(effects, Effect::Warn(w));
    }
    assert(effect_views(effects@) =~= effect_views(old(effects)@) + tool_warnings(
        index,
        buf@,
        parse_view(*parsed),
    ));
}

impl SseState {
    /// Nothing was read yet.
    pub fn new() -> (r: SseState)
        ensures
            r@ == start_view(),
    {
        SseState {
            blocks: IndexMap::new(),
            buffers: IndexMap::new(),
            stop_reason: String::new(),
            printed: false,
            stopped: false,
        }
    }

    /// The end of the message was seen.
    pub fn is_stopped(&self) -> (r: bool)
        ensures
            r == self@.stopped,
    {
        self.stopped
    }

    fn add_text(&mut self, format: OutputFormat, index: u64, t: &str, effects: &mut Vec<Effect>)
        requires
            match indexed::at(old(self)@.blocks, index) {
                Some(b) => takes_text(b),
                None => true,
            },
        ensures
            final(self)@ == text_delta(old(self)@, format, index, t@).state,
            effect_views(final(effects)@) == effect_views(old(effects)@) + text_delta(
                old(self)@,
                format,
                index,
                t@,
            ).effects,
    {
        match format {
            OutputFormat::Text => {
                push_effect(effects, Effect::Print(owned(t)));
                self.printed = true;
            },
            OutputFormat::StreamJson => {
                push_effect(effects, Effect::Emit(text_delta_event(index, t)));
            },
            OutputFormat::Json => {},
        }
        assert(effect_views(effects@) =~= effect_views(old(effects)@) + text_effects(
            format,
            index,
            t@,
        ));
        let changed: Option<Json> = match self.blocks.get(index) {
            Some(b) => {
                let mut all = field_text_of(b, "text");
                all.append(t);
                match b {
                    Json::Null => {
                        let built = ObjectBuilder::new().put_str("text", all.as_str());
                        assert(built.entries() =~= seq![("text"@, json::JsonView::Str(all@))]);
                        Some(built.done())
                    },
                    _ => {
                        let mut c = b.dup();
                        c.set("text", json_str(all.as_str()));
                        Some(c)
                    },
                }
            },
            None => None,
        };
        match changed {
            Some(c) => {
                self.blocks.put(index, c);
            },
            None => {},
        }
        assert(self@ =~= text_delta(old(self)@, format, index, t@).state);
    }

    fn add_input(&mut self, index: u64, partial: &str)
        ensures
            final(self)@ == input_delta(old(self)@, index, partial@),
    {
        let mut all = match self.buffers.get(index) {
            Some(b) => b.clone(),
            None => String::new(),
        };
        all.append(partial);
        self.buffers.put(index, all);
        assert(self@ =~= input_delta(old(self)@, index, partial@));
    }

    /// Finishes a tool call, given what its input was read as.
    pub fn finish_tool(
        &mut self,
        format: OutputFormat,
        index: u64,
        block: &Json,
        parsed: &Result<Json, String>,
        effects: &mut Vec<Effect>,
    )
        ensures
            final(self)@ == tool_done(
                old(self)@,
                format,
                index,
                block@,
                parse_view(*parsed),
            ).state,
            effect_views(final(effects)@) == effect_views(old(effects)@) + tool_done(
                old(self)@,
                format,
                index,
                block@,
                parse_view(*parsed),
            ).effects,
    {
        let buf = match self.buffers.take(index) {
            Some(b) => b,
            None => String::new(),
        };
        push_tool_warnings(index, buf.as_str(), parsed, effects);
        let input = match parsed {
            Ok(v) => v.dup(),
            Err(_) => empty_object(),
        };
        let mut done = block.dup();
        done.set("input", input);
        if format == OutputFormat::StreamJson {
            push_effect(effects, Effect::Emit(make_tool_use_event(index, &done)));
        }
        self.blocks.put(index, done);
        assert(self@ =~= tool_done(old(self)@, format, index, block@, parse_view(*parsed)).state);
        assert(effect_views(effects@) =~= effect_views(old(effects)@) + tool_done(
            old(self)@,
            format,
            index,
            block@,
            parse_view(*parsed),
        ).effects);
    }

    fn stop_block(&mut self, format: OutputFormat, index: u64, effects: &mut Vec<Effect>)
        ensures
            final(self)@ == block_stop(old(self)@, format, index).state,
            effect_views(final(effects)@) == effect_views(old(effects)@) + block_stop(
                old(self)@,
                format,
                index,
            ).effects,
    {
        let block = match self.blocks.get(index) {
            Some(b) => b.dup(),
            None => {
                assert(effect_views(effects@) =~= effect_views(old(effects)@) + Seq::<
                    EffectView,
                >::empty());
                return;
            },
        };
        if block.has("type", "tool_use") {
            let parsed = match self.buffers.get(index) {
                Some(b) => parse_json(b.as_str()),
                None => {
                    let none = String::new();
                    parse_json(none.as_str())
                },
            };
            self.finish_tool(format, index, &block, &parsed, effects);
        } else if block.has("type", "text") && format == OutputFormat::StreamJson {
            push_effect(effects, Effect::Emit(make_text_done_event(index)));
            assert(effect_views(effects@) =~= effect_views(old(effects)@) + seq![
                EffectView::Emit(text_done_event(index)),
            ]);
        } else {
            assert(effect_views(effects@) =~= effect_views(old(effects)@) + Seq::<
                EffectView,
            >::empty());
        }
    }

    /// The event can be taken in.
    pub fn accepts(&self, v: &Json) -> (r: bool)
        ensures
            r == acceptable(self@, v@),
    {
        if !v.has("type", "content_block_delta") {
            proof {
                lemma_field_is(v@, "type"@, "content_block_delta"@);
                reveal_strlit("content_block_delta");
            }
            return true;
        }
        let delta = v.dup_at("delta");
        if !delta.has("type", "text_delta") {
            proof {
                lemma_field_is(delta@, "type"@, "text_delta"@);
                reveal_strlit("text_delta");
            }
            return true;
        }
        match self.blocks.get(v.get_index("index")) {
            Some(b) => match b {
                Json::Null => true,
                Json::Object(_) => true,
                _ => false,
            },
            None => true,
        }
    }

    /// Takes in an event of the stream. Returns what went wrong, if anything did.
    pub fn apply(&mut self, v: &Json, format: OutputFormat, effects: &mut Vec<Effect>) -> (r: Option<
        String,
    >)
        requires
            acceptable(old(self)@, v@),
        ensures
            final(self)@ == step(old(self)@, v@, format).state,
            effect_views(final(effects)@) == effect_views(old(effects)@) + step(
                old(self)@,
                v@,
                format,
            ).effects,
            match r {
                Some(e) => step(old(self)@, v@, format).failed == Some(e@),
                None => step(old(self)@, v@, format).failed is None,
            },
    {
        let kind = field_text_of(v, "type");
        let index: u64 = v.get_index("index");
        assert(effect_views(effects@) =~= effect_views(old(effects)@) + Seq::<EffectView>::empty());
        if same_text(kind.as_str(), "content_block_start") {
            self.blocks.put(index, v.dup_at("content_block"));
            assert(self@ =~= step(old(self)@, v@, format).state);
            return None;
        }
        if same_text(kind.as_str(), "content_block_delta") {
            let delta = v.dup_at("delta");
            let what = field_text_of(&delta, "type");
            if same_text(what.as_str(), "text_delta") {
                let t = field_text_of(&delta, "text");
                self.add_text(format, index, t.as_str(), effects);
            } else if same_text(what.as_str(), "input_json_delta") {
                let partial = field_text_of(&delta, "partial_json");
                self.add_input(index, partial.as_str());
            }
            return None;
        }
        if same_text(kind.as_str(), "content_block_stop") {
            self.stop_block(format, index, effects);
            return None;
        }
        if same_text(kind.as_str(), "message_delta") {
            match v.get("delta") {
                Some(d) => match d.get_text("stop_reason") {
                    Some(reason) => {
                        self.stop_reason = owned(reason);
                    },
                    None => {},
                },
                None => {},
            }
            assert(self@ =~= step(old(self)@, v@, format).state);
            return None;
        }
        if same_text(kind.as_str(), "message_stop") {
            self.stopped = true;
            assert(self@ =~= step(old(self)@, v@, format).state);
            return None;
        }
        if same_text(kind.as_str(), "error") {
            let err = v.dup_at("error");
            let msg: &str = match err.get_text("message") {
                Some(m) => m,
                None => "unknown",
            };
            if format == OutputFormat::StreamJson {
                push_effect(effects, Effect::Emit(make_error_event(msg)));
            }
            let mut e = owned("stream error: ");
            e.append(msg);
            assert(effect_views(effects@) =~= effect_views(old(effects)@) + step(
                old(self)@,
                v@,
                format,
            ).effects);
            return Some(e);
        }
        None
    }

    /// Takes in a line of the stream. Returns what went wrong, if anything did. `None` where the
    /// line cannot be taken in; nothing has changed then.
    pub fn feed_line(&mut self, line: &str, format: OutputFormat, effects: &mut Vec<Effect>) -> (r:
        Option<Option<String>>)
        ensures
            match r {
                Some(failed) => {
                    &&& line_acceptable(old(self)@, line@)
                    &&& final(self)@ == line_step(old(self)@, line@, format).state
                    &&& effect_views(final(effects)@) == effect_views(old(effects)@) + line_step(
                        old(self)@,
                        line@,
                        format,
                    ).effects
                    &&& match failed {
                        Some(e) => line_step(old(self)@, line@, format).failed == Some(e@),
                        None => line_step(old(self)@, line@, format).failed is None,
                    }
                },
                None => {
                    &&& !line_acceptable(old(self)@, line@)
                    &&& final(self)@ == old(self)@
                    &&& final(effects)@ == old(effects)@
                },
            },
    {
        assert(effect_views(effects@) =~= effect_views(old(effects)@) + Seq::<EffectView>::empty());
        if !text_begins_with(line, "data: ") {
            return Some(None);
        }
        let chars = chars_of(line);
        let n: usize = chars_of("data: ").len();
        if chars.len() == n {
            return Some(None);
        }
        let data = string_of(slice_subrange(chars.as_slice(), n, chars.len()));
        match parse_json(data.as_str()) {
            Ok(v) => {
                if !self.accepts(&v) {
                    return None;
                }
                Some(self.apply(&v, format, effects))
            },
            Err(_) => Some(None),
        }
    }

    /// The content and the reason to stop, once the end of the message was seen; what went wrong
    /// otherwise.
    pub fn finish(&self, format: OutputFormat, effects: &mut Vec<Effect>) -> (r: Result<
        (Json, String),
        String,
    >)
        ensures
            match r {
                Ok(p) => {
                    &&& self@.stopped
                    &&& p.0@ == content_of(self@)
                    &&& p.1@ == self@.stop_reason
                    &&& effect_views(final(effects)@) == effect_views(old(effects)@)
                        + closing_effects(self@, format)
                },
                Err(e) => {
                    &&& !self@.stopped
                    &&& e@ == BROKEN_OFF@
                    &&& final(effects)@ == old(effects)@
                },
            },
    {
        if !self.stopped {
            return Err(owned(BROKEN_OFF));
        }
        if format == OutputFormat::Text && self.printed {
            push_effect(effects, Effect::Print(owned("\n")));
        }
        assert(effect_views(effects@) =~= effect_views(old(effects)@) + closing_effects(
            self@,
            format,
        ));
        let mut items: Vec<Json> = Vec::new();
        let mut i: usize = 0;
        while i < self.blocks.len()
            invariant
                i <= self.blocks@.len(),
                items@.len() == i,
                forall|k: int| 0 <= k < i ==> (#[trigger] items@[k])@ == self.blocks@[k].1,
            decreases self.blocks@.len() - i,
        {
            items.push(self.blocks.nth(i).dup());
            i += 1;
        }
        assert(json::views(items@) =~= self@.blocks.map_values(|e: (u64, json::JsonView)| e.1));
        Ok((json_array(items), self.stop_reason.clone()))
    }
}

/// What is to be shown at the end: a newline after printed text.
pub open spec fn closing_effects(s: SseView, format: OutputFormat) -> Seq<EffectView> {
    if format == OutputFormat::Text && s.printed {
        seq![EffectView::Print("\n"@)]
    } else {
        Seq::empty()
    }
}

proof fn lemma_field_is(v: json::JsonView, key: Seq<char>, s: Seq<char>)
    ensures
        s.len() > 0 ==> (v.field_is(key, s) <==> field_or_empty(v, key) == s),
{
}

// ---------------------------------------------------------------------------
// A whole stream
// ---------------------------------------------------------------------------

/// How the reading of lines went.
#[verifier::ext_equal]
pub struct RunView {
    /// The state.
    pub state: SseView,
    /// What is to be shown.
    pub effects: Seq<EffectView>,
    /// What went wrong.
    pub failed: Option<Seq<char>>,
    /// A line could not be taken in.
    pub malformed: bool,
}

impl RunView {
    /// No further line is read.
    pub open spec fn over(self) -> bool {
        self.state.stopped || self.failed is Some || self.malformed
    }
}

/// How the reading of the lines goes: up to the end of the message, or to what went wrong.
pub open spec fn run(lines: Seq<Seq<char>>, format: OutputFormat) -> RunView
    decreases lines.len(),
{
    if lines.len() == 0 {
        RunView {
            state: start_view(),
            effects: Seq::empty(),
            failed: None,
            malformed: false,
        }
    } else {
        let before = run(lines.drop_last(), format);
        if before.over() {
            before
        } else if !line_acceptable(before.state, lines.last()) {
            RunView { malformed: true, ..before }
        } else {
            let next = line_step(before.state, lines.last(), format);
            RunView {
                state: next.state,
                effects: before.effects + next.effects,
                failed: next.failed,
                malformed: false,
            }
        }
    }
}

/// A stream without an end of the message gives no answer.
pub proof fn law_needs_message_stop(lines: Seq<Seq<char>>, format: OutputFormat)
    requires
        forall|i: int|
            0 <= i < lines.len() ==> (match line_value(#[trigger] lines[i]) {
                Some(v) => field_or_empty(v, "type"@) != "message_stop"@,
                None => true,
            }),
    ensures
        !run(lines, format).state.stopped,
    decreases lines.len(),
{
    if lines.len() > 0 {
        let less = lines.drop_last();
        assert forall|i: int| 0 <= i < less.len() implies (match line_value(#[trigger] less[i]) {
            Some(v) => field_or_empty(v, "type"@) != "message_stop"@,
            None => true,
        }) by {
            assert(lines[i] == less[i]);
        }
        law_needs_message_stop(less, format);
        assert(lines[lines.len() - 1] == lines.last());
    }
}

/// The content of a stream is in ascending order of the indices.
pub proof fn law_content_in_order(lines: Seq<Seq<char>>, format: OutputFormat)
    ensures
        indexed::ascending(run(lines, format).state.blocks),
        indexed::ascending(run(lines, format).state.buffers),
    decreases lines.len(),
{
    if lines.len() > 0 {
        law_content_in_order(lines.drop_last(), format);
        if let Some(v) = line_value(lines.last()) {
            law_step_keeps_order(run(lines.drop_last(), format).state, v, format);
        }
    }
}

/// What a stream gave.
#[derive(Debug)]
pub enum SseResult {
    /// The content, and the reason to stop.
    Done(Json, String),
    /// What went wrong.
    Failed(String),
    /// A line could not be taken in.
    Malformed,
}

/// Reads a whole stream, given as lines. Also returns what is to be shown.
pub fn parse_sse_lines(lines: &[String], format: OutputFormat) -> (r: (SseResult, Vec<Effect>))
    ensures
        ({
            let done = run(text::texts(lines@), format);
            match r.0 {
                SseResult::Done(content, reason) => {
                    &&& done.state.stopped && !done.malformed && done.failed is None
                    &&& content@ == content_of(done.state)
                    &&& reason@ == done.state.stop_reason
                    &&& effect_views(r.1@) == done.effects + closing_effects(done.state, format)
                },
                SseResult::Failed(e) => {
                    &&& !done.malformed
                    &&& done.failed == Some(e@) || (done.failed is None && !done.state.stopped
                        && e@ == BROKEN_OFF@)
                    &&& effect_views(r.1@) == done.effects
                },
                SseResult::Malformed => done.malformed && effect_views(r.1@) == done.effects,
            }
        }),
{
    let ghost all = text::texts(lines@);
    let mut state = SseState::new();
    let mut effects: Vec<Effect> = Vec::new();
    let mut i: usize = 0;
    assert(effect_views(effects@) =~= Seq::<EffectView>::empty());
    assert(all.take(0) =~= Seq::<Seq<char>>::empty());
    while i < lines.len() && !state.is_stopped()
        invariant
            i <= lines@.len(),
            all == text::texts(lines@),
            ({
                let done = run(all.take(i as int), format);
                &&& done.state == state@
                &&& done.effects == effect_views(effects@)
                &&& done.failed is None
                &&& !done.malformed
            }),
        decreases lines@.len() - i,
    {
        assert(all.take(i + 1).drop_last() =~= all.take(i as int));
        assert(all.take(i + 1).last() == lines@[i as int]@);
        match state.feed_line(lines[i].as_str(), format, &mut effects) {
            Some(failed) => match failed {
                Some(e) => {
                    proof {
                        lemma_run_over(all, i + 1, format);
                    }
                    return (SseResult::Failed(e), effects);
                },
                None => {},
            },
            None => {
                proof {
                    lemma_run_over(all, i + 1, format);
                }
                return (SseResult::Malformed, effects);
            },
        }
        i += 1;
    }
    proof {
        if i < lines@.len() {
            lemma_run_over(all, i as int, format);
        } else {
            assert(all.take(i as int) =~= all);
        }
    }
    match state.finish(format, &mut effects) {
        Ok(p) => (SseResult::Done(p.0, p.1), effects),
        Err(e) => (SseResult::Failed(e), effects),
    }
}

proof fn lemma_run_over(lines: Seq<Seq<char>>, n: int, format: OutputFormat)
    requires
        0 <= n <= lines.len(),
        run(lines.take(n), format).over(),
    ensures
        run(lines, format) == run(lines.take(n), format),
    decreases lines.len(),
{
    if n == lines.len() {
        assert(lines.take(n) =~= lines);
    } else {
        assert(lines.drop_last().take(n) =~= lines.take(n));
        lemma_run_over(lines.drop_last(), n, format);
    }
}

} // verus!
