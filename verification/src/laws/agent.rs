//! What the agent loop is for: commands are run, their outputs go back to the model, and the
//! conversation goes on until the model ends its turn or a budget is used up.

use vstd::prelude::*;

use crate::agent;
use crate::agent::{AgentActionView, AgentEffectView, AgentEventView, AgentView, Phase};
use crate::hooks::ActionView;
use crate::json::JsonView;
use crate::laws::fields;
use crate::sse::OutputFormat;
use crate::text;

verus! {

/// The text that is handed on: the last rewrite among the actions, or else `given`.
pub open spec fn output_after(actions: Seq<ActionView>, given: Seq<char>, r: Seq<char>) -> bool {
    ||| r == given && forall|j: int| 0 <= j < actions.len() ==> !((#[trigger] actions[j]) is
        TransformOutput)
    ||| exists|i: int|
        0 <= i < actions.len() && #[trigger] actions[i] == ActionView::TransformOutput(r)
            && forall|j: int|
            i < j < actions.len() ==> !((#[trigger] actions[j]) is TransformOutput)
}

/// The command that is run: the last rewrite among the actions, or else `given`.
pub open spec fn command_after(actions: Seq<ActionView>, given: Seq<char>, r: Seq<char>) -> bool {
    ||| r == given && forall|j: int| 0 <= j < actions.len() ==> !((#[trigger] actions[j]) is
        TransformCommand)
    ||| exists|i: int|
        0 <= i < actions.len() && #[trigger] actions[i] == ActionView::TransformCommand(r)
            && forall|j: int|
            i < j < actions.len() ==> !((#[trigger] actions[j]) is TransformCommand)
}

/// The reason is that of the first veto among the actions.
pub open spec fn vetoed_for(actions: Seq<ActionView>, reason: Seq<char>) -> bool {
    exists|i: int|
        0 <= i < actions.len() && #[trigger] actions[i] == ActionView::Veto(reason) && forall|j: int|
            0 <= j < i ==> !((#[trigger] actions[j]) is Veto)
}

/// None of the actions is a veto.
pub open spec fn no_veto(actions: Seq<ActionView>) -> bool {
    forall|j: int| 0 <= j < actions.len() ==> !((#[trigger] actions[j]) is Veto)
}

proof fn lemma_last_output(actions: Seq<ActionView>)
    ensures
        match crate::hooks::last_output_of(actions) {
            Some(o) => output_after(actions, o, o) && exists|i: int|
                0 <= i < actions.len() && #[trigger] actions[i] == ActionView::TransformOutput(o)
                    && forall|j: int|
                    i < j < actions.len() ==> !((#[trigger] actions[j]) is TransformOutput),
            None => forall|j: int|
                0 <= j < actions.len() ==> !((#[trigger] actions[j]) is TransformOutput),
        },
    decreases actions.len(),
{
    if actions.len() > 0 {
        let n = actions.len() - 1;
        let less = actions.drop_last();
        lemma_last_output(less);
        if actions[n] is TransformOutput {
            assert(actions[n] == ActionView::TransformOutput(actions[n]->TransformOutput_0));
        } else {
            match crate::hooks::last_output_of(less) {
                Some(o) => {
                    let i = choose|i: int|
                        0 <= i < less.len() && #[trigger] less[i] == ActionView::TransformOutput(o)
                            && forall|j: int|
                            i < j < less.len() ==> !((#[trigger] less[j]) is TransformOutput);
                    assert(actions[i] == less[i]);
                    assert forall|j: int| i < j < actions.len() implies !((#[trigger] actions[j]) is
                        TransformOutput) by {
                        if j < n {
                            assert(less[j] == actions[j]);
                        }
                    }
                },
                None => {
                    assert forall|j: int| 0 <= j < actions.len() implies !((#[trigger] actions[j]) is
                        TransformOutput) by {
                        if j < n {
                            assert(less[j] == actions[j]);
                        }
                    }
                },
            }
        }
    }
}

proof fn lemma_last_command(actions: Seq<ActionView>)
    ensures
        match crate::hooks::last_command_of(actions) {
            Some(o) => exists|i: int|
                0 <= i < actions.len() && #[trigger] actions[i] == ActionView::TransformCommand(o)
                    && forall|j: int|
                    i < j < actions.len() ==> !((#[trigger] actions[j]) is TransformCommand),
            None => forall|j: int|
                0 <= j < actions.len() ==> !((#[trigger] actions[j]) is TransformCommand),
        },
    decreases actions.len(),
{
    if actions.len() > 0 {
        let n = actions.len() - 1;
        let less = actions.drop_last();
        lemma_last_command(less);
        if actions[n] is TransformCommand {
            assert(actions[n] == ActionView::TransformCommand(actions[n]->TransformCommand_0));
        } else {
            match crate::hooks::last_command_of(less) {
                Some(o) => {
                    let i = choose|i: int|
                        0 <= i < less.len() && #[trigger] less[i] == ActionView::TransformCommand(o)
                            && forall|j: int|
                            i < j < less.len() ==> !((#[trigger] less[j]) is TransformCommand);
                    assert(actions[i] == less[i]);
                    assert forall|j: int| i < j < actions.len() implies !((#[trigger] actions[j]) is
                        TransformCommand) by {
                        if j < n {
                            assert(less[j] == actions[j]);
                        }
                    }
                },
                None => {
                    assert forall|j: int| 0 <= j < actions.len() implies !((#[trigger] actions[j]) is
                        TransformCommand) by {
                        if j < n {
                            assert(less[j] == actions[j]);
                        }
                    }
                },
            }
        }
    }
}

proof fn lemma_first_veto(actions: Seq<ActionView>)
    ensures
        match crate::hooks::first_veto_of(actions) {
            Some(r) => vetoed_for(actions, r),
            None => no_veto(actions),
        },
    decreases actions.len(),
{
    if actions.len() > 0 {
        let less = actions.drop_first();
        lemma_first_veto(less);
        if actions[0] is Veto {
            assert(actions[0] == ActionView::Veto(actions[0]->Veto_0));
        } else {
            match crate::hooks::first_veto_of(less) {
                Some(r) => {
                    let i = choose|i: int|
                        0 <= i < less.len() && #[trigger] less[i] == ActionView::Veto(r)
                            && forall|j: int| 0 <= j < i ==> !((#[trigger] less[j]) is Veto);
                    assert(actions[i + 1] == less[i]);
                    assert forall|j: int| 0 <= j < i + 1 implies !((#[trigger] actions[j]) is
                        Veto) by {
                        if j > 0 {
                            assert(less[j - 1] == actions[j]);
                        }
                    }
                },
                None => {
                    assert forall|j: int| 0 <= j < actions.len() implies !((#[trigger] actions[j]) is
                        Veto) by {
                        if j > 0 {
                            assert(less[j - 1] == actions[j]);
                        }
                    }
                },
            }
        }
    }
}

// ---------------------------------------------------------------------------
// What is handed back
// ---------------------------------------------------------------------------

/// The value answers the tool call `id` with the text `output`.
pub open spec fn answers(v: JsonView, id: JsonView, output: Seq<char>) -> bool {
    &&& fields::tells(v, "type"@, "tool_result"@)
    &&& fields::says(v, "tool_use_id"@, id)
    &&& fields::tells(v, "content"@, output)
}

/// The event reports that the call `id` was answered with `output`.
pub open spec fn reports(
    v: JsonView,
    key: Seq<char>,
    id: JsonView,
    requested: Seq<char>,
    executed: Option<Seq<char>>,
    output: Seq<char>,
) -> bool {
    &&& fields::tells(v, key, "tool_result"@)
    &&& fields::says(v, "tool_use_id"@, id)
    &&& fields::tells(v, "content"@, output)
    &&& fields::tells(v, "requested_command"@, requested)
    &&& match executed {
        Some(e) => fields::tells(v, "command"@, e) && fields::tells(v, "executed_command"@, e),
        None => fields::tells(v, "command"@, requested) && fields::says(
            v,
            "executed_command"@,
            JsonView::Null,
        ),
    }
}

/// The answer to the call `id` is logged first, shown where events are shown, and added to the
/// results for the model; the results so far stay.
pub open spec fn handed_back(
    before: AgentView,
    step: agent::AgentStep,
    skipped: int,
    id: JsonView,
    requested: Seq<char>,
    executed: Option<Seq<char>>,
    output: Seq<char>,
) -> bool {
    let n = before.results.len() as int;
    let e = step.effects;
    &&& n < step.agent.results.len()
    &&& step.agent.results.take(n) == before.results
    &&& answers(step.agent.results[n], id, output)
    &&& skipped < e.len()
    &&& e[skipped] is Log
    &&& reports(e[skipped]->Log_0, "kind"@, id, requested, executed, output)
    &&& before.config.format == OutputFormat::StreamJson ==> skipped + 1 < e.len() && e[skipped
        + 1] is Emit && reports(e[skipped + 1]->Emit_0, "type"@, id, requested, executed, output)
}

proof fn lemma_tool_result(id: JsonView, output: Seq<char>)
    ensures
        answers(crate::session::tool_result(id, JsonView::Str(output)), id, output),
{
    fields::lemma_keys();
    let e = seq![
        ("type"@, JsonView::Str("tool_result"@)),
        ("tool_use_id"@, id),
        ("content"@, JsonView::Str(output)),
    ];
    fields::lemma_entry(e, 0);
    fields::lemma_entry(e, 1);
    fields::lemma_entry(e, 2);
}

proof fn lemma_result_entry(
    key: Seq<char>,
    id: JsonView,
    raw: Seq<char>,
    executed: Option<Seq<char>>,
    output: Seq<char>,
)
    requires
        key == "kind"@ || key == "type"@,
    ensures
        reports(
            agent::result_entry((key, JsonView::Str("tool_result"@)), id, raw, executed, output),
            key,
            id,
            raw,
            executed,
            output,
        ),
{
    fields::lemma_keys();
    let e = seq![
        (key, JsonView::Str("tool_result"@)),
        ("tool_use_id"@, id),
        (
            "command"@,
            JsonView::Str(
                match executed {
                    Some(x) => x,
                    None => raw,
                },
            ),
        ),
        ("requested_command"@, JsonView::Str(raw)),
        (
            "executed_command"@,
            match executed {
                Some(x) => JsonView::Str(x),
                None => JsonView::Null,
            },
        ),
        ("content"@, JsonView::Str(output)),
    ];
    fields::lemma_entry(e, 0);
    fields::lemma_entry(e, 1);
    fields::lemma_entry(e, 2);
    fields::lemma_entry(e, 3);
    fields::lemma_entry(e, 4);
    fields::lemma_entry(e, 5);
}

/// What stays and what grows while the calls of an answer are gone through.
proof fn lemma_going_on(s: AgentView)
    ensures
        ({
            let r = agent::next_call_step(s);
            &&& r.agent.results.len() >= s.results.len()
            &&& r.agent.results.take(s.results.len() as int) == s.results
            &&& r.agent.config == s.config
            &&& r.agent.content == s.content
        }),
    decreases s.content.items().len() - s.cursor,
{
    let blocks = s.content.items();
    if 0 <= s.cursor < blocks.len() {
        let b = blocks[s.cursor];
        let s1 = AgentView { cursor: s.cursor + 1, ..s };
        let s2 = AgentView { tool_calls: agent::counted(s.tool_calls), ..s1 };
        if !agent::is_call(b) {
            lemma_going_on(s1);
        } else if agent::counted(s.tool_calls) > s.config.max_tool_calls {
            assert(s.results.take(s.results.len() as int) =~= s.results);
        } else if text::trim(agent::raw_command(b)).len() == 0 {
            let s3 = agent::recorded_agent(s2, b.at("id"@), agent::EMPTY_COMMAND_OUTPUT@);
            lemma_going_on(s3);
            let r = agent::next_call_step(s3).agent.results;
            let n = s.results.len() as int;
            assert(r.take(n) =~= r.take(n + 1).take(n));
            assert(s3.results.take(n) =~= s.results);
        } else {
            assert(s.results.take(s.results.len() as int) =~= s.results);
        }
    } else {
        assert(s.results.take(s.results.len() as int) =~= s.results);
    }
}

proof fn lemma_recorded(
    before: AgentView,
    head: Seq<AgentEffectView>,
    id: JsonView,
    requested: Seq<char>,
    executed: Option<Seq<char>>,
    output: Seq<char>,
)
    ensures
        handed_back(
            before,
            agent::after(
                head + agent::record_effects(before.config, id, requested, executed, output),
                agent::next_call_step(agent::recorded_agent(before, id, output)),
            ),
            head.len() as int,
            id,
            requested,
            executed,
            output,
        ),
{
    let s1 = agent::recorded_agent(before, id, output);
    lemma_going_on(s1);
    lemma_tool_result(id, output);
    lemma_result_entry("kind"@, id, requested, executed, output);
    lemma_result_entry("type"@, id, requested, executed, output);
    let n = before.results.len() as int;
    let r = agent::next_call_step(s1);
    assert(r.agent.results[n] == r.agent.results.take(n + 1)[n]);
    assert(r.agent.results.take(n) =~= r.agent.results.take(n + 1).take(n));
    assert(s1.results.take(n) =~= before.results);
    let rec = agent::record_effects(before.config, id, requested, executed, output);
    let all = head + rec + r.effects;
    assert(all[head.len() as int] == rec[0]);
    if before.config.format == OutputFormat::StreamJson {
        assert(all[head.len() as int + 1] == rec[1]);
    }
}

/// What a command gave goes back to the model: when the command was run, the hooks after it are
/// told of it, and when they were fired, the call is answered with it, or with the last rewrite
/// that a hook asked for.
pub proof fn law_output_goes_back(s: AgentView, output: Seq<char>, actions: Seq<ActionView>)
    requires
        s.phase == Phase::Output,
    ensures
        ({
            let ran = agent::advanced(s, AgentEventView::CommandRan(output));
            let done = agent::advanced(ran.agent, AgentEventView::PostToolFired(actions));
            &&& ran.agent.phase == Phase::PostTool
            &&& ran.agent.results == s.results
            &&& ran.agent.messages == s.messages
            &&& ran.action is FirePostTool
            &&& fields::says(
                ran.action->FirePostTool_0,
                "depth"@,
                JsonView::Unsigned(s.config.depth as u64),
            )
            &&& fields::says(ran.action->FirePostTool_0, "tool_use_id"@, s.call.id)
            &&& fields::tells(ran.action->FirePostTool_0, "command"@, s.call.executed)
            &&& fields::tells(ran.action->FirePostTool_0, "output"@, output)
            &&& forall|content: Seq<char>| #[trigger]
                output_after(actions, output, content) ==> handed_back(
                    s,
                    done,
                    0,
                    s.call.id,
                    s.call.raw,
                    Some(s.call.executed),
                    content,
                )
        }),
{
    let ran = agent::advanced(s, AgentEventView::CommandRan(output));
    fields::lemma_keys();
    let p = seq![
        ("depth"@, JsonView::Unsigned(s.config.depth as u64)),
        ("tool_use_id"@, s.call.id),
        ("command"@, JsonView::Str(s.call.executed)),
        ("output"@, JsonView::Str(output)),
    ];
    fields::lemma_entry(p, 0);
    fields::lemma_entry(p, 1);
    fields::lemma_entry(p, 2);
    fields::lemma_entry(p, 3);
    lemma_last_output(actions);
    let content = agent::effective_output(ran.agent, actions);
    lemma_recorded(
        ran.agent,
        Seq::empty(),
        s.call.id,
        s.call.raw,
        Some(s.call.executed),
        content,
    );
    assert(Seq::<AgentEffectView>::empty() + agent::record_effects(
        s.config,
        s.call.id,
        s.call.raw,
        Some(s.call.executed),
        content,
    ) =~= agent::record_effects(
        s.config,
        s.call.id,
        s.call.raw,
        Some(s.call.executed),
        content,
    ));
    assert forall|c: Seq<char>| #[trigger] output_after(actions, output, c) implies c == content by {
        lemma_output_after_unique(actions, output, c, content);
    }
}

proof fn lemma_output_after_unique(
    actions: Seq<ActionView>,
    given: Seq<char>,
    a: Seq<char>,
    b: Seq<char>,
)
    requires
        output_after(actions, given, a),
        output_after(actions, given, b),
    ensures
        a == b,
{
    if exists|i: int| 0 <= i < actions.len() && (#[trigger] actions[i]) is TransformOutput {
        let i = choose|i: int|
            0 <= i < actions.len() && #[trigger] actions[i] == ActionView::TransformOutput(a)
                && forall|j: int|
                i < j < actions.len() ==> !((#[trigger] actions[j]) is TransformOutput);
        let k = choose|k: int|
            0 <= k < actions.len() && #[trigger] actions[k] == ActionView::TransformOutput(b)
                && forall|j: int|
                k < j < actions.len() ==> !((#[trigger] actions[j]) is TransformOutput);
        assert(actions[i] is TransformOutput && actions[k] is TransformOutput);
        assert(i == k);
    }
}

proof fn lemma_command_after_unique(
    actions: Seq<ActionView>,
    given: Seq<char>,
    a: Seq<char>,
    b: Seq<char>,
)
    requires
        command_after(actions, given, a),
        command_after(actions, given, b),
    ensures
        a == b,
{
    if exists|i: int| 0 <= i < actions.len() && (#[trigger] actions[i]) is TransformCommand {
        let i = choose|i: int|
            0 <= i < actions.len() && #[trigger] actions[i] == ActionView::TransformCommand(a)
                && forall|j: int|
                i < j < actions.len() ==> !((#[trigger] actions[j]) is TransformCommand);
        let k = choose|k: int|
            0 <= k < actions.len() && #[trigger] actions[k] == ActionView::TransformCommand(b)
                && forall|j: int|
                k < j < actions.len() ==> !((#[trigger] actions[j]) is TransformCommand);
        assert(actions[i] is TransformCommand && actions[k] is TransformCommand);
        assert(i == k);
    }
}

/// Where no hook vetoes the command, it is run: the last rewrite that a hook asked for, or else the
/// command that the model asked for.
pub proof fn law_command_is_run(s: AgentView, actions: Seq<ActionView>, cmd: Seq<char>)
    requires
        s.phase == Phase::PreTool,
        no_veto(actions),
        command_after(actions, s.call.command, cmd),
    ensures
        ({
            let r = agent::advanced(s, AgentEventView::PreToolFired(actions));
            &&& r.action == AgentActionView::Run(cmd)
            &&& r.agent.phase == Phase::Output
            &&& r.agent.call.executed == cmd
            &&& r.agent.call.id == s.call.id
            &&& r.agent.call.raw == s.call.raw
            &&& r.agent.results == s.results
            &&& r.agent.messages == s.messages
            &&& r.agent.cursor == s.cursor
            &&& r.agent.turns == s.turns
            &&& r.agent.tool_calls == s.tool_calls
        }),
{
    lemma_first_veto(actions);
    if let Some(r) = crate::hooks::first_veto_of(actions) {
        let i = choose|i: int|
            0 <= i < actions.len() && #[trigger] actions[i] == ActionView::Veto(r) && forall|j: int|
                0 <= j < i ==> !((#[trigger] actions[j]) is Veto);
        assert(actions[i] is Veto);
    }
    lemma_last_command(actions);
    lemma_command_after_unique(
        actions,
        s.call.command,
        cmd,
        agent::effective_command(s, actions),
    );
}

/// How many lines are told of a step.
pub open spec fn note_count(verbose: bool) -> int {
    if verbose {
        1
    } else {
        0
    }
}

/// A veto keeps the command from being run: the call is answered with the reason of the first veto,
/// and with an exit code of one.
pub proof fn law_veto_is_told(s: AgentView, actions: Seq<ActionView>, reason: Seq<char>)
    requires
        s.phase == Phase::PreTool,
        vetoed_for(actions, reason),
    ensures
        ({
            let r = agent::advanced(s, AgentEventView::PreToolFired(actions));
            let told = note_count(s.config.verbose);
            &&& !(r.action is Run)
            &&& exists|output: Seq<char>|
                {
                    &&& #[trigger] handed_back(s, r, told, s.call.id, s.call.raw, None, output)
                    &&& text::begins_with(output, "[vetoed by hook: "@ + reason + "]\n[exit 1]\n"@)
                }
        }),
{
    lemma_first_veto(actions);
    let i = choose|i: int|
        0 <= i < actions.len() && #[trigger] actions[i] == ActionView::Veto(reason) && forall|j: int|
            0 <= j < i ==> !((#[trigger] actions[j]) is Veto);
    assert(actions[i] is Veto);
    match crate::hooks::first_veto_of(actions) {
        Some(other) => {
            let k = choose|k: int|
                0 <= k < actions.len() && #[trigger] actions[k] == ActionView::Veto(other)
                    && forall|j: int| 0 <= j < k ==> !((#[trigger] actions[j]) is Veto);
            assert(actions[k] is Veto);
            assert(i == k);
        },
        None => {},
    }
    let output = agent::veto_output(reason);
    let head = agent::told(s.config, "[lazar] pre-tool veto: "@ + reason);
    lemma_recorded(s, head, s.call.id, s.call.raw, None, output);
    lemma_no_run(agent::recorded_agent(s, s.call.id, output));
    let begin = "[vetoed by hook: "@ + reason + "]\n[exit 1]\n"@;
    reveal_strlit("]\n[exit 1]\n");
    reveal_strlit(
        "]\n[exit 1]\n[note: A pre-tool hook blocked this command. Adjust your approach or escalate to the user; do not retry the same command.]",
    );
    assert(output.subrange(0, begin.len() as int) =~= begin);
    let told = note_count(s.config.verbose);
    assert(head.len() == told);
    let r = agent::advanced(s, AgentEventView::PreToolFired(actions));
    assert(text::begins_with(output, begin));
    assert(!(r.action is Run));
    assert(handed_back(s, r, told, s.call.id, s.call.raw, None, output));
}

/// Going through the calls of an answer runs no command: the hooks come first.
proof fn lemma_no_run(s: AgentView)
    ensures
        !(agent::next_call_step(s).action is Run),
        !(agent::next_call_step(s).action is FirePostTool),
    decreases s.content.items().len() - s.cursor,
{
    let blocks = s.content.items();
    if 0 <= s.cursor < blocks.len() {
        let b = blocks[s.cursor];
        let s1 = AgentView { cursor: s.cursor + 1, ..s };
        let s2 = AgentView { tool_calls: agent::counted(s.tool_calls), ..s1 };
        if !agent::is_call(b) {
            lemma_no_run(s1);
        } else if agent::counted(s.tool_calls) <= s.config.max_tool_calls && text::trim(
            agent::raw_command(b),
        ).len() == 0 {
            lemma_no_run(agent::recorded_agent(s2, b.at("id"@), agent::EMPTY_COMMAND_OUTPUT@));
        }
    }
}

// ---------------------------------------------------------------------------
// How it goes on
// ---------------------------------------------------------------------------

/// A message of a conversation.
pub open spec fn said(role: Seq<char>, content: JsonView) -> JsonView {
    JsonView::Object(
        Map::<Seq<char>, JsonView>::empty().insert("role"@, JsonView::Str(role)).insert(
            "content"@,
            content,
        ),
    )
}

/// The block asks for a command to be run.
pub open spec fn asks(b: JsonView) -> bool {
    fields::tells(b, "type"@, "tool_use"@) && fields::tells(b, "name"@, "execute"@)
}

/// The command that a block asks for, or nothing.
pub open spec fn asked_command(b: JsonView) -> Seq<char> {
    if b is Object && b->Object_0.contains_key("input"@) {
        let input = b->Object_0["input"@];
        if input is Object && input->Object_0.contains_key("command"@)
            && input->Object_0["command"@] is Str {
            input->Object_0["command"@]->Str_0
        } else {
            Seq::empty()
        }
    } else {
        Seq::empty()
    }
}

/// The id of a block, or null.
pub open spec fn id_of(b: JsonView) -> JsonView {
    if b is Object && b->Object_0.contains_key("id"@) {
        b->Object_0["id"@]
    } else {
        JsonView::Null
    }
}

/// Nothing but white space.
pub open spec fn blank(s: Seq<char>) -> bool {
    forall|i: int| 0 <= i < s.len() ==> text::is_white(#[trigger] s[i])
}

/// The block asks for a command, and gives one.
pub open spec fn gives_command(b: JsonView) -> bool {
    asks(b) && !blank(asked_command(b))
}

/// The first block from `from` on that gives a command is the `k`th.
pub open spec fn first_command(blocks: Seq<JsonView>, from: int, k: int) -> bool {
    &&& from <= k < blocks.len()
    &&& gives_command(blocks[k])
    &&& forall|j: int| from <= j < k ==> !gives_command(#[trigger] blocks[j])
}

/// How many of the blocks from `from` to `to` ask for a command.
pub open spec fn calls_between(blocks: Seq<JsonView>, from: int, to: int) -> nat
    decreases to - from,
{
    if to <= from {
        0
    } else {
        calls_between(blocks, from + 1, to) + if asks(blocks[from]) {
            1nat
        } else {
            0nat
        }
    }
}

/// The body asks the model to go on with the conversation.
pub open spec fn asks_model(b: JsonView, s: AgentView) -> bool {
    &&& fields::tells(b, "model"@, s.config.model)
    &&& fields::tells(b, "system"@, s.config.system)
    &&& fields::says(b, "messages"@, JsonView::Array(s.messages))
    &&& fields::says(b, "stream"@, JsonView::Bool(true))
    &&& fields::says(b, "max_tokens"@, JsonView::Unsigned(8192))
    &&& b->Object_0.contains_key("tools"@)
    &&& b->Object_0["tools"@] is Array
    &&& b->Object_0["tools"@]->Array_0.len() == 1
    &&& fields::tells(b->Object_0["tools"@]->Array_0[0], "name"@, "execute"@)
}

/// The results that were added while blocks were passed over: calls without a command, each
/// answered with an error.
pub open spec fn refused(before: Seq<JsonView>, after: Seq<JsonView>, count: nat) -> bool {
    &&& after.len() == before.len() + count
    &&& after.take(before.len() as int) == before
    &&& forall|i: int|
        before.len() <= i < after.len() ==> fields::tells(
            #[trigger] after[i],
            "type"@,
            "tool_result"@,
        ) && fields::tells(after[i], "content"@, REFUSAL@)
}

/// What a call without a command is answered.
pub const REFUSAL: &'static str =
    "[error: 'execute' was called with an empty or missing 'command' field. \
    Provide a non-empty bash command, or end your turn instead of calling \
    the tool with no arguments.]\n[exit 1]";

/// The hooks before the command of the `k`th block are fired.
pub open spec fn begun(s: AgentView, r: agent::AgentStep, k: int) -> bool {
    let b = s.content.items()[k];
    &&& r.action is FirePreTool
    &&& fields::says(
        r.action->FirePreTool_0,
        "depth"@,
        JsonView::Unsigned(s.config.depth as u64),
    )
    &&& fields::says(r.action->FirePreTool_0, "tool_use_id"@, id_of(b))
    &&& fields::tells(r.action->FirePreTool_0, "command"@, asked_command(b))
    &&& r.agent.phase == Phase::PreTool
    &&& r.agent.call.id == id_of(b)
    &&& r.agent.call.raw == asked_command(b)
    &&& r.agent.call.command == text::trim(asked_command(b))
    &&& r.agent.cursor == k + 1
    &&& r.agent.had_valid
    &&& r.agent.messages == s.messages
    &&& r.agent.turns == s.turns
    &&& r.agent.empty_turns == s.empty_turns
    &&& r.agent.content == s.content
    &&& r.agent.tool_calls == s.tool_calls + calls_between(s.content.items(), s.cursor, k + 1)
    &&& refused(s.results, r.agent.results, calls_between(s.content.items(), s.cursor, k))
}

/// All calls of the answer were made.
pub open spec fn finished(s: AgentView, r: agent::AgentStep) -> bool {
    let more = calls_between(s.content.items(), s.cursor, s.content.items().len() as int);
    let total = s.results.len() + more;
    &&& refused(s.results, r.agent.results, more)
    &&& total == 0 ==> r.action is Succeed && r.agent.phase == Phase::Over && r.agent.messages
        == s.messages
    &&& total > 0 && !s.had_valid && s.empty_turns >= 2 ==> r.action is Fail && r.agent.phase
        == Phase::Over
    &&& total > 0 && (s.had_valid || s.empty_turns < 2) ==> {
        &&& s.config.max_turns <= s.turns < u32::MAX ==> r.action is Fail && r.agent.phase
            == Phase::Over
        &&& s.turns < s.config.max_turns ==> {
            &&& r.agent.messages == s.messages.push(
                said("user"@, JsonView::Array(r.agent.results)),
            )
            &&& r.action is Request
            &&& asks_model(r.action->Request_0, r.agent)
            &&& r.agent.phase == Phase::Answer
            &&& r.agent.turns == s.turns + 1
            &&& r.agent.empty_turns == (if s.had_valid {
                0
            } else {
                s.empty_turns + 1
            })
        }
    }
}

/// How the invocation goes on from between two calls: with the next call that gives a command, as
/// long as calls are left; after the last one, with the next request; without any, it is over.
pub open spec fn goes_on(s: AgentView, r: agent::AgentStep) -> bool {
    let blocks = s.content.items();
    let max = s.config.max_tool_calls;
    &&& r.agent.config == s.config
    &&& forall|k: int| #[trigger]
        first_command(blocks, s.cursor, k) && s.tool_calls + calls_between(blocks, s.cursor, k + 1)
            <= max ==> begun(s, r, k)
    &&& (forall|j: int| s.cursor <= j < blocks.len() ==> !gives_command(#[trigger] blocks[j]))
        && s.tool_calls + calls_between(blocks, s.cursor, blocks.len() as int) <= max ==> finished(
        s,
        r,
    )
    &&& forall|k: int|
        {
            &&& s.cursor <= k < blocks.len()
            &&& asks(#[trigger] blocks[k])
            &&& s.tool_calls + calls_between(blocks, s.cursor, k) == max
            &&& forall|j: int| s.cursor <= j < k ==> !gives_command(#[trigger] blocks[j])
        } ==> r.action == AgentActionView::Fail(
        "aborted after reaching LAZAR_MAX_TOOL_CALLS="@ + crate::numbers::decimal(max as nat),
    ) && r.agent.phase == Phase::Over
}

proof fn lemma_said(role: Seq<char>, content: JsonView)
    ensures
        crate::session::message(role, content) == said(role, content),
{
    let e = seq![("role"@, JsonView::Str(role)), ("content"@, content)];
    assert(e.drop_last() =~= seq![("role"@, JsonView::Str(role))]);
    assert(e.drop_last().drop_last() =~= Seq::<(Seq<char>, JsonView)>::empty());
    reveal_with_fuel(crate::json::entries_map, 3);
    assert(crate::session::message(role, content)->Object_0 =~= said(role, content)->Object_0);
}

proof fn lemma_blank(s: Seq<char>)
    ensures
        text::trim(s).len() == 0 <==> blank(s),
{
    lemma_blank_start(s);
    lemma_blank_end(text::strip_start(s, text::CharClass::White));
    let t = text::strip_start(s, text::CharClass::White);
    if blank(t) && t.len() > 0 {
        assert(text::is_white(t[0]));
    }
}

proof fn lemma_blank_start(s: Seq<char>)
    ensures
        text::strip_start(s, text::CharClass::White).len() == 0 <==> blank(s),
        ({
            let t = text::strip_start(s, text::CharClass::White);
            t.len() > 0 ==> !text::is_white(t[0])
        }),
    decreases s.len(),
{
    if s.len() > 0 {
        if text::is_white(s[0]) {
            let rest = s.drop_first();
            lemma_blank_start(rest);
            if blank(rest) {
                assert forall|i: int| 0 <= i < s.len() implies text::is_white(#[trigger] s[i]) by {
                    if i > 0 {
                        assert(rest[i - 1] == s[i]);
                    }
                }
            }
            if blank(s) {
                assert forall|i: int| 0 <= i < rest.len() implies text::is_white(
                    #[trigger] rest[i],
                ) by {
                    assert(rest[i] == s[i + 1]);
                }
            }
        }
    }
}

proof fn lemma_blank_end(s: Seq<char>)
    ensures
        text::strip_end(s, text::CharClass::White).len() == 0 <==> blank(s),
    decreases s.len(),
{
    if s.len() > 0 {
        let n = s.len() - 1;
        if text::is_white(s[n]) {
            let rest = s.drop_last();
            lemma_blank_end(rest);
            if blank(rest) {
                assert forall|i: int| 0 <= i < s.len() implies text::is_white(#[trigger] s[i]) by {
                    if i < n {
                        assert(rest[i] == s[i]);
                    }
                }
            }
            if blank(s) {
                assert forall|i: int| 0 <= i < rest.len() implies text::is_white(
                    #[trigger] rest[i],
                ) by {
                    assert(rest[i] == s[i]);
                }
            }
        }
    }
}

/// What the loop reads of a block is what the block says.
proof fn lemma_block(b: JsonView)
    ensures
        agent::is_call(b) == asks(b),
        agent::raw_command(b) == asked_command(b),
        b.at("id"@) == id_of(b),
        text::trim(agent::raw_command(b)).len() == 0 <==> blank(asked_command(b)),
{
    lemma_blank(asked_command(b));
}

proof fn lemma_request(s: AgentView)
    requires
        s.turns < s.config.max_turns,
    ensures
        ({
            let r = agent::turn_step(s);
            &&& r.action is Request
            &&& asks_model(r.action->Request_0, r.agent)
            &&& r.agent == (AgentView {
                turns: (s.turns + 1) as u32,
                phase: Phase::Answer,
                ..s
            })
        }),
{
    fields::lemma_keys();
    let e = seq![
        ("model"@, JsonView::Str(s.config.model)),
        ("max_tokens"@, JsonView::Unsigned(8192)),
        ("system"@, JsonView::Str(s.config.system)),
        ("tools"@, JsonView::Array(seq![crate::prompt::tool_definition()])),
        ("messages"@, JsonView::Array(s.messages)),
        ("stream"@, JsonView::Bool(true)),
    ];
    fields::lemma_entry(e, 0);
    fields::lemma_entry(e, 1);
    fields::lemma_entry(e, 2);
    fields::lemma_entry(e, 3);
    fields::lemma_entry(e, 4);
    fields::lemma_entry(e, 5);
    lemma_tool();
}

proof fn lemma_tool()
    ensures
        fields::tells(crate::prompt::tool_definition(), "name"@, "execute"@),
{
    fields::lemma_keys();
    reveal_strlit("input_schema");
    let e = seq![
        ("name"@, JsonView::Str("execute"@)),
        ("description"@, JsonView::Str(crate::prompt::TOOL_DESCRIPTION@)),
        ("input_schema"@, crate::prompt::input_schema()),
    ];
    fields::lemma_entry(e, 0);
}

proof fn lemma_refused_more(
    before: Seq<JsonView>,
    added: Seq<JsonView>,
    after: Seq<JsonView>,
    count: nat,
)
    requires
        refused(before + added, after, count),
        forall|i: int|
            0 <= i < added.len() ==> fields::tells(#[trigger] added[i], "type"@, "tool_result"@)
                && fields::tells(added[i], "content"@, REFUSAL@),
    ensures
        refused(before, after, count + added.len()),
{
    let mid = before + added;
    let n = before.len() as int;
    assert(after.take(n) =~= after.take(mid.len() as int).take(n));
    assert(mid.take(n) =~= before);
    assert forall|i: int| n <= i < after.len() implies fields::tells(
        #[trigger] after[i],
        "type"@,
        "tool_result"@,
    ) && fields::tells(after[i], "content"@, REFUSAL@) by {
        if i < mid.len() {
            assert(after[i] == after.take(mid.len() as int)[i]);
            assert(after[i] == added[i - n]);
        }
    }
}

/// One block was passed over.
proof fn lemma_passed(s: AgentView, next: AgentView, r: agent::AgentStep, added: Seq<JsonView>)
    requires
        0 <= s.cursor < s.content.items().len(),
        !gives_command(s.content.items()[s.cursor]),
        next.config == s.config,
        next.content == s.content,
        next.cursor == s.cursor + 1,
        next.messages == s.messages,
        next.turns == s.turns,
        next.empty_turns == s.empty_turns,
        next.had_valid == s.had_valid,
        next.results == s.results + added,
        next.tool_calls == s.tool_calls + added.len(),
        added.len() == (if asks(s.content.items()[s.cursor]) {
            1nat
        } else {
            0nat
        }),
        asks(s.content.items()[s.cursor]) ==> s.tool_calls < s.config.max_tool_calls,
        forall|i: int|
            0 <= i < added.len() ==> fields::tells(#[trigger] added[i], "type"@, "tool_result"@)
                && fields::tells(added[i], "content"@, REFUSAL@),
        goes_on(next, r),
    ensures
        goes_on(s, r),
{
    let blocks = s.content.items();
    let max = s.config.max_tool_calls;
    let c = s.cursor;
    let len = blocks.len() as int;
    assert forall|k: int| #[trigger]
        first_command(blocks, c, k) && s.tool_calls + calls_between(blocks, c, k + 1)
            <= max implies begun(s, r, k) by {
        assert(k != c);
        assert(first_command(blocks, c + 1, k));
        assert(begun(next, r, k));
        lemma_refused_more(s.results, added, r.agent.results, calls_between(blocks, c + 1, k));
    }
    if (forall|j: int| c <= j < len ==> !gives_command(#[trigger] blocks[j])) && s.tool_calls
        + calls_between(blocks, c, len) <= max {
        assert(finished(next, r));
        lemma_refused_more(s.results, added, r.agent.results, calls_between(blocks, c + 1, len));
    }
    assert forall|k: int|
        {
            &&& c <= k < len
            &&& asks(#[trigger] blocks[k])
            &&& s.tool_calls + calls_between(blocks, c, k) == max
            &&& forall|j: int| c <= j < k ==> !gives_command(#[trigger] blocks[j])
        } implies r.action == AgentActionView::Fail(
        "aborted after reaching LAZAR_MAX_TOOL_CALLS="@ + crate::numbers::decimal(
            s.config.max_tool_calls as nat,
        ),
    ) && r.agent.phase == Phase::Over by {
        if k == c {
            assert(calls_between(blocks, c, c) == 0);
        } else {
            assert(c + 1 <= k);
        }
    }
}

proof fn lemma_done(s: AgentView)
    requires
        s.cursor == s.content.items().len(),
        s.tool_calls <= s.config.max_tool_calls,
    ensures
        goes_on(s, agent::next_call_step(s)),
{
    let blocks = s.content.items();
    let r = agent::next_call_step(s);
    assert(calls_between(blocks, s.cursor, blocks.len() as int) == 0);
    assert(s.results.take(s.results.len() as int) =~= s.results);
    lemma_said("user"@, JsonView::Array(s.results));
    let n = agent::empty_turns_after(s);
    let s1 = AgentView {
        empty_turns: n,
        messages: s.messages.push(
            crate::session::message("user"@, JsonView::Array(s.results)),
        ),
        ..s
    };
    if s.turns < s.config.max_turns {
        lemma_request(s1);
    }
    assert(finished(s, r));
}

proof fn lemma_used_up(s: AgentView)
    requires
        0 <= s.cursor < s.content.items().len(),
        asks(s.content.items()[s.cursor]),
        s.tool_calls == s.config.max_tool_calls,
        agent::counted(s.tool_calls) > s.config.max_tool_calls,
    ensures
        goes_on(s, agent::next_call_step(s)),
{
    let blocks = s.content.items();
    let c = s.cursor;
    lemma_block(blocks[c]);
    assert forall|k: int| c < k implies calls_between(blocks, c, k) >= 1 by {
        assert(calls_between(blocks, c, k) == calls_between(blocks, c + 1, k) + 1);
    }
}

proof fn lemma_begun(s: AgentView)
    requires
        0 <= s.cursor < s.content.items().len(),
        gives_command(s.content.items()[s.cursor]),
        s.tool_calls < s.config.max_tool_calls,
    ensures
        goes_on(s, agent::next_call_step(s)),
{
    let blocks = s.content.items();
    let c = s.cursor;
    let b = blocks[c];
    let r = agent::next_call_step(s);
    lemma_block(b);
    fields::lemma_keys();
    let p = seq![
        ("depth"@, JsonView::Unsigned(s.config.depth as u64)),
        ("tool_use_id"@, b.at("id"@)),
        ("command"@, JsonView::Str(agent::raw_command(b))),
    ];
    fields::lemma_entry(p, 0);
    fields::lemma_entry(p, 1);
    fields::lemma_entry(p, 2);
    assert(calls_between(blocks, c, c) == 0);
    assert(calls_between(blocks, c + 1, c + 1) == 0);
    assert(calls_between(blocks, c, c + 1) == 1);
    assert(s.results.take(s.results.len() as int) =~= s.results);
    assert(begun(s, r, c));
    assert forall|k: int| #[trigger]
        first_command(blocks, c, k) && s.tool_calls + calls_between(blocks, c, k + 1)
            <= s.config.max_tool_calls implies begun(s, r, k) by {
        if k > c {
            assert(!gives_command(blocks[c]));
        }
    }
    assert forall|k: int|
        {
            &&& c <= k < blocks.len()
            &&& asks(#[trigger] blocks[k])
            &&& s.tool_calls + calls_between(blocks, c, k) == s.config.max_tool_calls
            &&& forall|j: int| c <= j < k ==> !gives_command(#[trigger] blocks[j])
        } implies r.action == AgentActionView::Fail(
        "aborted after reaching LAZAR_MAX_TOOL_CALLS="@ + crate::numbers::decimal(
            s.config.max_tool_calls as nat,
        ),
    ) && r.agent.phase == Phase::Over by {
        if k > c {
            assert(!gives_command(blocks[c]));
        } else {
            assert(calls_between(blocks, c, k) == 0);
        }
    }
}

proof fn lemma_goes_on(s: AgentView)
    requires
        0 <= s.cursor <= s.content.items().len(),
        s.tool_calls <= s.config.max_tool_calls < u32::MAX,
    ensures
        goes_on(s, agent::next_call_step(s)),
    decreases s.content.items().len() - s.cursor,
{
    let blocks = s.content.items();
    let r = agent::next_call_step(s);
    if s.cursor >= blocks.len() {
        lemma_done(s);
    } else {
        let b = blocks[s.cursor];
        let s1 = AgentView { cursor: s.cursor + 1, ..s };
        let s2 = AgentView { tool_calls: agent::counted(s.tool_calls), ..s1 };
        lemma_block(b);
        if !asks(b) {
            lemma_goes_on(s1);
            lemma_passed(s, s1, r, Seq::empty());
        } else if s.tool_calls == s.config.max_tool_calls {
            lemma_used_up(s);
        } else if blank(asked_command(b)) {
            let s3 = agent::recorded_agent(s2, b.at("id"@), agent::EMPTY_COMMAND_OUTPUT@);
            lemma_tool_result(b.at("id"@), agent::EMPTY_COMMAND_OUTPUT@);
            lemma_goes_on(s3);
            assert(s3.results =~= s.results + seq![s3.results.last()]);
            lemma_passed(s, s3, r, seq![s3.results.last()]);
        } else {
            lemma_begun(s);
        }
    }
}

/// The answer to the call `id`.
pub open spec fn answer_to(id: JsonView, output: Seq<char>) -> JsonView {
    JsonView::Object(
        Map::<Seq<char>, JsonView>::empty().insert(
            "type"@,
            JsonView::Str("tool_result"@),
        ).insert("tool_use_id"@, id).insert("content"@, JsonView::Str(output)),
    )
}

proof fn lemma_answer_to(id: JsonView, output: Seq<char>)
    ensures
        crate::session::tool_result(id, JsonView::Str(output)) == answer_to(id, output),
{
    let e = seq![
        ("type"@, JsonView::Str("tool_result"@)),
        ("tool_use_id"@, id),
        ("content"@, JsonView::Str(output)),
    ];
    let e2 = e.drop_last();
    let e1 = e2.drop_last();
    assert(e1.drop_last() =~= Seq::<(Seq<char>, JsonView)>::empty());
    reveal_with_fuel(crate::json::entries_map, 4);
    assert(crate::json::entries_map(e1) =~= Map::<Seq<char>, JsonView>::empty().insert(
        "type"@,
        JsonView::Str("tool_result"@),
    ));
    assert(crate::session::tool_result(id, JsonView::Str(output))->Object_0 =~= answer_to(
        id,
        output,
    )->Object_0);
}

/// When an answer comes in that does not end the turn, it joins the conversation and its calls are
/// gone through from the first.
pub proof fn law_answer_is_acted_on(
    s: AgentView,
    content: JsonView,
    reason: Seq<char>,
    duration_ms: u64,
)
    requires
        s.phase == Phase::Answer,
        s.tool_calls <= s.config.max_tool_calls < u32::MAX,
        reason != "end_turn"@,
    ensures
        ({
            let r = agent::advanced(s, AgentEventView::Answered(content, reason, duration_ms));
            &&& r.effects.len() > 0
            &&& r.effects[0] is Log
            &&& fields::tells(r.effects[0]->Log_0, "kind"@, "assistant"@)
            &&& fields::says(r.effects[0]->Log_0, "content"@, content)
            &&& goes_on(
                AgentView {
                    messages: s.messages.push(said("assistant"@, content)),
                    content,
                    stop_reason: reason,
                    duration_ms,
                    cursor: 0,
                    results: Seq::empty(),
                    had_valid: false,
                    ..s
                },
                r,
            )
        }),
{
    lemma_said("assistant"@, content);
    lemma_assistant_log(content);
    let s1 = agent::answered_agent(s, content, reason, duration_ms);
    lemma_goes_on(s1);
    let r = agent::advanced(s, AgentEventView::Answered(content, reason, duration_ms));
    assert(s1 == AgentView {
        messages: s.messages.push(said("assistant"@, content)),
        content,
        stop_reason: reason,
        duration_ms,
        cursor: 0,
        results: Seq::empty(),
        had_valid: false,
        ..s
    });
    lemma_same_course(s1, agent::next_call_step(s1), r);
}

/// What goes on depends on the state and the action alone.
proof fn lemma_same_course(s: AgentView, a: agent::AgentStep, b: agent::AgentStep)
    requires
        goes_on(s, a),
        a.agent == b.agent,
        a.action == b.action,
    ensures
        goes_on(s, b),
{
    let blocks = s.content.items();
    assert forall|k: int| #[trigger]
        first_command(blocks, s.cursor, k) && s.tool_calls + calls_between(blocks, s.cursor, k + 1)
            <= s.config.max_tool_calls implies begun(s, b, k) by {
        assert(begun(s, a, k));
    }
    if (forall|j: int| s.cursor <= j < blocks.len() ==> !gives_command(#[trigger] blocks[j]))
        && s.tool_calls + calls_between(blocks, s.cursor, blocks.len() as int)
        <= s.config.max_tool_calls {
        assert(finished(s, a));
        assert(finished(s, b));
    }
}

proof fn lemma_assistant_log(content: JsonView)
    ensures
        fields::tells(agent::assistant_log(content), "kind"@, "assistant"@),
        fields::says(agent::assistant_log(content), "content"@, content),
{
    fields::lemma_keys();
    let e = seq![("kind"@, JsonView::Str("assistant"@)), ("content"@, content)];
    fields::lemma_entry(e, 0);
    fields::lemma_entry(e, 1);
}

/// When a call was answered, the next calls of the answer follow, and then the next request, which
/// carries the answers.
pub proof fn law_loop_goes_on(s: AgentView, actions: Seq<ActionView>, content: Seq<char>)
    requires
        s.phase == Phase::PostTool,
        0 <= s.cursor <= s.content.items().len(),
        s.tool_calls <= s.config.max_tool_calls < u32::MAX,
        output_after(actions, s.call.output, content),
    ensures
        goes_on(
            AgentView { results: s.results.push(answer_to(s.call.id, content)), ..s },
            agent::advanced(s, AgentEventView::PostToolFired(actions)),
        ),
{
    lemma_last_output(actions);
    lemma_output_after_unique(
        actions,
        s.call.output,
        content,
        agent::effective_output(s, actions),
    );
    lemma_answer_to(s.call.id, content);
    let s1 = agent::recorded_agent(s, s.call.id, content);
    lemma_goes_on(s1);
    lemma_same_course(
        s1,
        agent::next_call_step(s1),
        agent::advanced(s, AgentEventView::PostToolFired(actions)),
    );
}

/// When a call was vetoed, the loop goes on as after a call that was run.
pub proof fn law_loop_goes_on_after_veto(
    s: AgentView,
    actions: Seq<ActionView>,
    reason: Seq<char>,
)
    requires
        s.phase == Phase::PreTool,
        0 <= s.cursor <= s.content.items().len(),
        s.tool_calls <= s.config.max_tool_calls < u32::MAX,
        vetoed_for(actions, reason),
    ensures
        exists|output: Seq<char>|
            {
                &&& text::begins_with(output, "[vetoed by hook: "@ + reason + "]\n[exit 1]\n"@)
                &&& goes_on(
                    AgentView { results: s.results.push(#[trigger] answer_to(s.call.id, output)), ..s },
                    agent::advanced(s, AgentEventView::PreToolFired(actions)),
                )
            },
{
    law_veto_is_told(s, actions, reason);
    lemma_first_veto(actions);
    let i = choose|i: int|
        0 <= i < actions.len() && #[trigger] actions[i] == ActionView::Veto(reason) && forall|j: int|
            0 <= j < i ==> !((#[trigger] actions[j]) is Veto);
    assert(actions[i] is Veto);
    if let Some(other) = crate::hooks::first_veto_of(actions) {
        let k = choose|k: int|
            0 <= k < actions.len() && #[trigger] actions[k] == ActionView::Veto(other)
                && forall|j: int| 0 <= j < k ==> !((#[trigger] actions[j]) is Veto);
        assert(actions[k] is Veto);
        assert(i == k);
    }
    let output = agent::veto_output(reason);
    lemma_answer_to(s.call.id, output);
    let s1 = agent::recorded_agent(s, s.call.id, output);
    lemma_goes_on(s1);
    lemma_same_course(
        s1,
        agent::next_call_step(s1),
        agent::advanced(s, AgentEventView::PreToolFired(actions)),
    );
    let begin = "[vetoed by hook: "@ + reason + "]\n[exit 1]\n"@;
    reveal_strlit("]\n[exit 1]\n");
    reveal_strlit(
        "]\n[exit 1]\n[note: A pre-tool hook blocked this command. Adjust your approach or escalate to the user; do not retry the same command.]",
    );
    assert(output.subrange(0, begin.len() as int) =~= begin);
    assert(text::begins_with(output, begin));
}

/// An invocation starts with a request for the conversation that it was given, as long as a turn
/// may be taken at all.
pub proof fn law_start_asks_the_model(s: AgentView)
    requires
        s.phase == Phase::Idle,
    ensures
        ({
            let r = agent::advanced(s, AgentEventView::Start);
            &&& s.turns < s.config.max_turns ==> r.action is Request && asks_model(
                r.action->Request_0,
                s,
            ) && r.agent == (AgentView {
                turns: (s.turns + 1) as u32,
                phase: Phase::Answer,
                ..s
            })
            &&& s.turns >= s.config.max_turns && s.turns < u32::MAX ==> r.action is Fail
                && r.agent.phase == Phase::Over
        }),
{
    if s.turns < s.config.max_turns {
        lemma_request(s);
    }
}

/// A request that fails ends the invocation with its message, which is logged, and shown where
/// events are shown.
pub proof fn law_failures_are_told(s: AgentView, msg: Seq<char>, rejected: bool)
    requires
        s.phase == Phase::Answer,
    ensures
        ({
            let e = if rejected {
                AgentEventView::RequestRejected(msg)
            } else {
                AgentEventView::RequestFailed(msg)
            };
            let r = agent::advanced(s, e);
            let n = r.effects.len() - 1;
            &&& r.action == AgentActionView::Fail(msg)
            &&& r.agent.phase == Phase::Over
            &&& n >= 0
            &&& r.effects[n] is Log
            &&& fields::tells(r.effects[n]->Log_0, "kind"@, "invoke_end"@)
            &&& fields::tells(r.effects[n]->Log_0, "stop_reason"@, "error"@)
            &&& fields::tells(r.effects[n]->Log_0, "note"@, msg)
            &&& s.config.format == OutputFormat::StreamJson ==> r.effects[0] is Emit
                && fields::tells(r.effects[0]->Emit_0, "type"@, "error"@) && fields::tells(
                r.effects[0]->Emit_0,
                "message"@,
                msg,
            )
        }),
{
    lemma_end_log("error"@, Some(msg));
    fields::lemma_keys();
    let e = seq![("type"@, JsonView::Str("error"@)), ("message"@, JsonView::Str(msg))];
    fields::lemma_entry(e, 0);
    fields::lemma_entry(e, 1);
}

proof fn lemma_end_log(reason: Seq<char>, note: Option<Seq<char>>)
    ensures
        fields::tells(agent::end_log(reason, note), "kind"@, "invoke_end"@),
        fields::tells(agent::end_log(reason, note), "stop_reason"@, reason),
        match note {
            Some(n) => fields::tells(agent::end_log(reason, note), "note"@, n),
            None => true,
        },
{
    fields::lemma_keys();
    let e = seq![
        ("kind"@, JsonView::Str("invoke_end"@)),
        ("stop_reason"@, JsonView::Str(reason)),
    ] + match note {
        Some(n) => seq![("note"@, JsonView::Str(n))],
        None => Seq::empty(),
    };
    fields::lemma_entry(e, 0);
    fields::lemma_entry(e, 1);
    if note is Some {
        fields::lemma_entry(e, 2);
    }
}

/// Where the effects that close an invocation start.
pub open spec fn closing_at(s: AgentView) -> int {
    if s.config.depth == 0 {
        3
    } else {
        2
    }
}

/// An answer that ends the turn ends the invocation well: the answer joins the conversation and the
/// log, the end is logged, and the result is shown in the format that was asked for.
pub proof fn law_end_turn_ends_well(s: AgentView, content: JsonView, duration_ms: u64)
    requires
        s.phase == Phase::Answer,
    ensures
        ({
            let r = agent::advanced(
                s,
                AgentEventView::Answered(content, "end_turn"@, duration_ms),
            );
            let e = r.effects;
            let n = closing_at(s);
            &&& r.action is Succeed
            &&& r.agent.phase == Phase::Over
            &&& r.agent.messages == s.messages.push(said("assistant"@, content))
            &&& e.len() >= n
            &&& e[0] is Log && fields::tells(e[0]->Log_0, "kind"@, "assistant"@) && fields::says(
                e[0]->Log_0,
                "content"@,
                content,
            )
            &&& e[1] is Log && fields::tells(e[1]->Log_0, "kind"@, "invoke_end"@) && fields::tells(
                e[1]->Log_0,
                "stop_reason"@,
                "end_turn"@,
            )
            &&& s.config.depth == 0 ==> e[2] is FireStop && fields::tells(
                e[2]->FireStop_0,
                "stop_reason"@,
                "end_turn"@,
            ) && fields::says(e[2]->FireStop_0, "duration_ms"@, JsonView::Unsigned(duration_ms))
            &&& s.config.format == OutputFormat::StreamJson ==> e.len() > n && e[n] is Emit
                && fields::tells(e[n]->Emit_0, "type"@, "invoke_end"@) && fields::tells(
                e[n]->Emit_0,
                "stop_reason"@,
                "end_turn"@,
            ) && fields::says(e[n]->Emit_0, "duration_ms"@, JsonView::Unsigned(duration_ms))
            &&& s.config.format == OutputFormat::Json ==> e.len() > n && e[n] is PrintResult
                && fields::tells(e[n]->PrintResult_0, "type"@, "result"@) && fields::tells(
                e[n]->PrintResult_0,
                "stop_reason"@,
                "end_turn"@,
            ) && fields::tells(e[n]->PrintResult_0, "model"@, s.config.model) && fields::says(
                e[n]->PrintResult_0,
                "content"@,
                content,
            ) && fields::tells(
                e[n]->PrintResult_0,
                "result"@,
                agent::answer_text(content),
            ) && fields::says(
                e[n]->PrintResult_0,
                "duration_ms"@,
                JsonView::Unsigned(duration_ms),
            )
        }),
{
    lemma_said("assistant"@, content);
    lemma_assistant_log(content);
    lemma_end_log("end_turn"@, None);
    fields::lemma_keys();
    let d = JsonView::Unsigned(duration_ms);
    let p = seq![
        ("depth"@, JsonView::Unsigned(s.config.depth as u64)),
        ("stop_reason"@, JsonView::Str("end_turn"@)),
        ("duration_ms"@, d),
    ];
    fields::lemma_entry(p, 1);
    fields::lemma_entry(p, 2);
    lemma_end_event("end_turn"@, duration_ms, None);
    lemma_result_event(
        "end_turn"@,
        s.config.model,
        agent::answer_text(content),
        content,
        ("duration_ms"@, d),
    );
}

proof fn lemma_end_event(reason: Seq<char>, duration_ms: u64, note: Option<Seq<char>>)
    ensures
        ({
            let v = agent::end_event(reason, duration_ms, note);
            &&& fields::tells(v, "type"@, "invoke_end"@)
            &&& fields::tells(v, "stop_reason"@, reason)
            &&& fields::says(v, "duration_ms"@, JsonView::Unsigned(duration_ms))
        }),
{
    fields::lemma_keys();
    let e = seq![
        ("type"@, JsonView::Str("invoke_end"@)),
        ("stop_reason"@, JsonView::Str(reason)),
        ("duration_ms"@, JsonView::Unsigned(duration_ms)),
    ] + match note {
        Some(n) => seq![("note"@, JsonView::Str(n))],
        None => Seq::empty(),
    };
    fields::lemma_entry(e, 0);
    fields::lemma_entry(e, 1);
    fields::lemma_entry(e, 2);
}

proof fn lemma_result_event(
    reason: Seq<char>,
    model: Seq<char>,
    result: Seq<char>,
    content: JsonView,
    last: (Seq<char>, JsonView),
)
    requires
        last.0 == "duration_ms"@ || last.0 == "note"@,
    ensures
        ({
            let v = agent::result_event(reason, model, result, content, last);
            &&& fields::tells(v, "type"@, "result"@)
            &&& fields::tells(v, "stop_reason"@, reason)
            &&& fields::tells(v, "model"@, model)
            &&& fields::tells(v, "result"@, result)
            &&& fields::says(v, "content"@, content)
            &&& fields::says(v, last.0, last.1)
        }),
{
    fields::lemma_keys();
    let e = seq![
        ("type"@, JsonView::Str("result"@)),
        ("stop_reason"@, JsonView::Str(reason)),
        ("model"@, JsonView::Str(model)),
        ("result"@, JsonView::Str(result)),
        ("content"@, content),
        last,
    ];
    fields::lemma_entry(e, 0);
    fields::lemma_entry(e, 1);
    fields::lemma_entry(e, 2);
    fields::lemma_entry(e, 3);
    fields::lemma_entry(e, 4);
    fields::lemma_entry(e, 5);
}

/// The block is a text.
pub open spec fn is_text(b: JsonView) -> bool {
    fields::tells(b, "type"@, "text"@) && b->Object_0.contains_key("text"@)
        && b->Object_0["text"@] is Str
}

/// The text of an answer is made of its text blocks in order, each on a line of its own, and of
/// nothing else.
pub proof fn law_answer_text(blocks: Seq<JsonView>, b: JsonView)
    ensures
        agent::answer_text(JsonView::Array(Seq::empty())) == Seq::<char>::empty(),
        !is_text(b) ==> agent::answer_text(JsonView::Array(blocks.push(b))) == agent::answer_text(
            JsonView::Array(blocks),
        ),
        is_text(b) && (exists|i: int| 0 <= i < blocks.len() && is_text(#[trigger] blocks[i]))
            ==> agent::answer_text(JsonView::Array(blocks.push(b))) == agent::answer_text(
            JsonView::Array(blocks),
        ) + "\n"@ + b->Object_0["text"@]->Str_0,
        is_text(b) && (forall|i: int| 0 <= i < blocks.len() ==> !is_text(#[trigger] blocks[i]))
            ==> agent::answer_text(JsonView::Array(blocks.push(b)))
            == b->Object_0["text"@]->Str_0,
{
    assert(blocks.push(b).drop_last() =~= blocks);
    let before = agent::answer_texts(blocks);
    lemma_any_text(blocks);
    if is_text(b) {
        let t = b->Object_0["text"@]->Str_0;
        assert(agent::answer_texts(blocks.push(b)) == before.push(t));
        assert(before.push(t).drop_last() =~= before);
    }
}

proof fn lemma_any_text(blocks: Seq<JsonView>)
    ensures
        agent::answer_texts(blocks).len() > 0 <==> exists|i: int|
            0 <= i < blocks.len() && is_text(#[trigger] blocks[i]),
    decreases blocks.len(),
{
    if blocks.len() > 0 {
        let less = blocks.drop_last();
        lemma_any_text(less);
        let n = blocks.len() - 1;
        if exists|i: int| 0 <= i < less.len() && is_text(#[trigger] less[i]) {
            let i = choose|i: int| 0 <= i < less.len() && is_text(#[trigger] less[i]);
            assert(is_text(blocks[i]));
        }
        if exists|i: int| 0 <= i < blocks.len() && is_text(#[trigger] blocks[i]) {
            let i = choose|i: int| 0 <= i < blocks.len() && is_text(#[trigger] blocks[i]);
            if i < n {
                assert(is_text(less[i]));
            }
        }
        if is_text(blocks.last()) {
            assert(is_text(blocks[n]));
        }
    }
}

/// An answer that neither ends the turn nor asks for a command ends the invocation well, with a note
/// that says so in the log and in what is shown.
pub proof fn law_no_calls_is_told(
    s: AgentView,
    content: JsonView,
    reason: Seq<char>,
    duration_ms: u64,
)
    requires
        s.phase == Phase::Answer,
        reason != "end_turn"@,
        content.items().len() == 0,
    ensures
        ({
            let r = agent::advanced(s, AgentEventView::Answered(content, reason, duration_ms));
            let e = r.effects;
            &&& r.action is Succeed
            &&& r.agent.phase == Phase::Over
            &&& e.len() >= 3
            &&& e[0] is Log && fields::tells(e[0]->Log_0, "kind"@, "assistant"@)
            &&& e[1] == AgentEffectView::Note(
                "[lazar] stop_reason="@ + reason + ", no tool calls; exiting"@,
            )
            &&& e[2] is Log && fields::tells(e[2]->Log_0, "kind"@, "invoke_end"@) && fields::tells(
                e[2]->Log_0,
                "stop_reason"@,
                reason,
            ) && fields::tells(e[2]->Log_0, "note"@, "no tool calls"@)
            &&& s.config.format == OutputFormat::StreamJson ==> e.len() == 4 && e[3] is Emit
                && fields::tells(e[3]->Emit_0, "type"@, "invoke_end"@) && fields::tells(
                e[3]->Emit_0,
                "stop_reason"@,
                reason,
            ) && fields::says(e[3]->Emit_0, "duration_ms"@, JsonView::Unsigned(duration_ms))
            &&& s.config.format == OutputFormat::Json ==> e.len() == 4 && e[3] is PrintResult
                && fields::tells(e[3]->PrintResult_0, "type"@, "result"@) && fields::tells(
                e[3]->PrintResult_0,
                "stop_reason"@,
                reason,
            ) && fields::says(e[3]->PrintResult_0, "content"@, content) && fields::tells(
                e[3]->PrintResult_0,
                "note"@,
                "no tool calls"@,
            )
            &&& s.config.format == OutputFormat::Text ==> e.len() == 3
        }),
{
    lemma_assistant_log(content);
    lemma_end_log(reason, Some("no tool calls"@));
    lemma_end_event(reason, duration_ms, Some("no tool calls"@));
    lemma_result_event(
        reason,
        s.config.model,
        Seq::empty(),
        content,
        ("note"@, JsonView::Str("no tool calls"@)),
    );
}

/// An invocation that may take no turn fails with a message that names the limit; the message is
/// logged as the end, and shown where events are.
pub proof fn law_turn_limit_is_told(s: AgentView)
    requires
        s.phase == Phase::Idle,
        s.config.max_turns <= s.turns < u32::MAX,
    ensures
        ({
            let r = agent::advanced(s, AgentEventView::Start);
            let msg = "aborted after reaching LAZAR_MAX_TURNS="@ + crate::numbers::decimal(
                s.config.max_turns as nat,
            );
            let n = r.effects.len() - 1;
            &&& r.action == AgentActionView::Fail(msg)
            &&& n >= 0
            &&& r.effects[n] is Log
            &&& fields::tells(r.effects[n]->Log_0, "kind"@, "invoke_end"@)
            &&& fields::tells(r.effects[n]->Log_0, "stop_reason"@, "aborted"@)
            &&& fields::tells(r.effects[n]->Log_0, "note"@, msg)
            &&& s.config.format == OutputFormat::StreamJson ==> r.effects[0] is Emit
                && fields::tells(r.effects[0]->Emit_0, "type"@, "error"@) && fields::tells(
                r.effects[0]->Emit_0,
                "message"@,
                msg,
            )
        }),
{
    let msg = "aborted after reaching LAZAR_MAX_TURNS="@ + crate::numbers::decimal(
        s.config.max_turns as nat,
    );
    lemma_end_log("aborted"@, Some(msg));
    fields::lemma_keys();
    let e = seq![("type"@, JsonView::Str("error"@)), ("message"@, JsonView::Str(msg))];
    fields::lemma_entry(e, 0);
    fields::lemma_entry(e, 1);
}

/// A call without a command is answered at once, and the answer is logged and shown like that of a
/// command that was run.
pub proof fn law_refusal_is_told(
    s: AgentView,
    content: JsonView,
    reason: Seq<char>,
    duration_ms: u64,
    k: int,
)
    requires
        s.phase == Phase::Answer,
        reason != "end_turn"@,
        s.tool_calls < s.config.max_tool_calls,
        0 <= k < content.items().len(),
        asks(content.items()[k]),
        blank(asked_command(content.items()[k])),
        forall|j: int| 0 <= j < k ==> !asks(#[trigger] content.items()[j]),
    ensures
        handed_back(
            AgentView { results: Seq::empty(), ..s },
            agent::advanced(s, AgentEventView::Answered(content, reason, duration_ms)),
            1 + note_count(s.config.verbose),
            id_of(content.items()[k]),
            asked_command(content.items()[k]),
            None,
            REFUSAL@,
        ),
{
    let s1 = agent::answered_agent(s, content, reason, duration_ms);
    lemma_refusal(s1, k);
    let one = agent::next_call_step(s1);
    let all = agent::advanced(s, AgentEventView::Answered(content, reason, duration_ms));
    let n = note_count(s.config.verbose);
    assert(all.effects[1 + n] == one.effects[n]);
    if s.config.format == OutputFormat::StreamJson {
        assert(all.effects[2 + n] == one.effects[1 + n]);
    }
}

proof fn lemma_refusal(s: AgentView, k: int)
    requires
        s.tool_calls < s.config.max_tool_calls,
        0 <= s.cursor <= k < s.content.items().len(),
        asks(s.content.items()[k]),
        blank(asked_command(s.content.items()[k])),
        forall|j: int| s.cursor <= j < k ==> !asks(#[trigger] s.content.items()[j]),
    ensures
        handed_back(
            s,
            agent::next_call_step(s),
            note_count(s.config.verbose),
            id_of(s.content.items()[k]),
            asked_command(s.content.items()[k]),
            None,
            REFUSAL@,
        ),
    decreases k - s.cursor,
{
    let b = s.content.items()[s.cursor];
    let s1 = AgentView { cursor: s.cursor + 1, ..s };
    lemma_block(b);
    if s.cursor < k {
        assert(!asks(b));
        lemma_refusal(s1, k);
    } else {
        let s2 = AgentView { tool_calls: agent::counted(s.tool_calls), ..s1 };
        let head = agent::told(s.config, "[lazar] tool_use: <EMPTY COMMAND — refused>"@);
        assert(head.len() == note_count(s.config.verbose));
        lemma_recorded(s2, head, b.at("id"@), agent::raw_command(b), None, REFUSAL@);
    }
}

/// Where every step is told, the command is told too, up to its first hundred and twenty characters;
/// elsewhere it is not.
pub proof fn law_command_is_told(
    s: AgentView,
    content: JsonView,
    reason: Seq<char>,
    duration_ms: u64,
    cmd: Seq<char>,
)
    requires
        s.phase == Phase::Answer,
        reason != "end_turn"@,
        s.tool_calls < s.config.max_tool_calls,
        content.items().len() > 0,
        gives_command(content.items()[0]),
        cmd == text::trim(asked_command(content.items()[0])),
    ensures
        ({
            let e = agent::advanced(
                s,
                AgentEventView::Answered(content, reason, duration_ms),
            ).effects;
            &&& !s.config.verbose ==> e.len() == 1
            &&& s.config.verbose && cmd.len() <= 120 ==> e.len() == 2 && e[1]
                == AgentEffectView::Note("[lazar] tool_use: "@ + cmd)
            &&& s.config.verbose && cmd.len() > 120 ==> e.len() == 2 && e[1]
                == AgentEffectView::Note("[lazar] tool_use: "@ + cmd.take(120))
        }),
{
    lemma_block(content.items()[0]);
}

} // verus!
