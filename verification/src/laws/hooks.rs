//! What hooks are told, and what becomes of their answers.

use vstd::prelude::*;
use vstd::utf8::*;

use crate::hooks;
use crate::hooks::{ActionView, HookEntry, HookEvent};
use crate::json;
use crate::json::JsonView;
use crate::laws::fields;
use crate::offsets;
use crate::text;

verus! {

/// The answer asks for the action.
pub open spec fn wants(v: JsonView, action: Seq<char>) -> bool {
    fields::tells(v, "action"@, action)
}

/// The answer gives a text under the key.
pub open spec fn gives(v: JsonView, key: Seq<char>) -> bool {
    v is Object && v->Object_0.contains_key(key) && v->Object_0[key] is Str
}

proof fn lemma_actions()
    ensures
        "continue"@.len() == 8,
        "veto"@.len() == 4,
        "transform"@.len() == 9,
        "inject"@.len() == 6,
{
    reveal_strlit("continue");
    reveal_strlit("veto");
    reveal_strlit("transform");
    reveal_strlit("inject");
}

/// A veto before a tool call stops the call, with the reason that the hook gives; on any other event
/// it is ignored, with a warning.
pub proof fn law_veto(v: JsonView, event: HookEvent, script: Seq<char>, reason: Seq<char>)
    requires
        wants(v, "veto"@),
    ensures
        ({
            let r = hooks::reply_to(v, event, script);
            &&& event == HookEvent::PreTool ==> r.warning is None
            &&& event == HookEvent::PreTool && fields::tells(v, "reason"@, reason) ==> r.action
                == ActionView::Veto(reason)
            &&& event == HookEvent::PreTool && !gives(v, "reason"@) ==> r.action
                == ActionView::Veto("vetoed by hook"@)
            &&& event != HookEvent::PreTool ==> r.action == ActionView::Continue
                && r.warning is Some
        }),
{
    lemma_actions();
}

/// Before a tool call a hook may rewrite the command, after it the output; anywhere else a rewrite
/// is ignored, with a warning.
pub proof fn law_transform(
    v: JsonView,
    event: HookEvent,
    script: Seq<char>,
    command: Seq<char>,
    output: Seq<char>,
)
    requires
        wants(v, "transform"@),
    ensures
        ({
            let r = hooks::reply_to(v, event, script);
            &&& fields::tells(v, "command"@, command) && event == HookEvent::PreTool ==> r.action
                == ActionView::TransformCommand(command) && r.warning is None
            &&& fields::tells(v, "command"@, command) && event != HookEvent::PreTool ==> r.action
                == ActionView::Continue && r.warning is Some
            &&& !gives(v, "command"@) && fields::tells(v, "output"@, output) && event
                == HookEvent::PostTool ==> r.action == ActionView::TransformOutput(output)
                && r.warning is None
            &&& !gives(v, "command"@) && fields::tells(v, "output"@, output) && event
                != HookEvent::PostTool ==> r.action == ActionView::Continue && r.warning is Some
            &&& !gives(v, "command"@) && !gives(v, "output"@) ==> r.action
                == ActionView::Continue && r.warning is Some
        }),
{
    lemma_actions();
}

/// At the start of a session and at a prompt a hook may add context; anywhere else that is ignored,
/// with a warning.
pub proof fn law_inject(v: JsonView, event: HookEvent, script: Seq<char>, context: Seq<char>)
    requires
        wants(v, "inject"@),
    ensures
        ({
            let r = hooks::reply_to(v, event, script);
            let open = event == HookEvent::SessionStart || event == HookEvent::UserPrompt;
            &&& open && fields::tells(v, "context"@, context) ==> r.action
                == ActionView::InjectContext(context) && r.warning is None
            &&& open && !gives(v, "context"@) ==> r.action == ActionView::InjectContext(
                Seq::empty(),
            ) && r.warning is None
            &&& !open ==> r.action == ActionView::Continue && r.warning is Some
        }),
{
    lemma_actions();
}

/// An answer that asks to go on, or for nothing, changes nothing and warns of nothing; one that asks
/// for something unknown changes nothing and is warned of.
pub proof fn law_continue(v: JsonView, event: HookEvent, script: Seq<char>)
    requires
        !wants(v, "veto"@),
        !wants(v, "transform"@),
        !wants(v, "inject"@),
    ensures
        ({
            let r = hooks::reply_to(v, event, script);
            &&& r.action == ActionView::Continue
            &&& wants(v, "continue"@) || !gives(v, "action"@) ==> r.warning is None
            &&& !wants(v, "continue"@) && gives(v, "action"@) ==> r.warning is Some
        }),
{
    lemma_actions();
    if gives(v, "action"@) {
        assert(wants(v, v->Object_0["action"@]->Str_0));
    }
}

/// What a hook wrote counts only where it ended well and in time; then it is what its JSON asks for.
pub proof fn law_answer_counts(
    answer: Seq<char>,
    v: JsonView,
    exit_code: i32,
    timed_out: bool,
    event: HookEvent,
    script: Seq<char>,
)
    requires
        json::spells(text::trim(answer), v),
        exists|i: int|
            0 <= i < offsets::bytes(answer).len() && !(#[trigger] offsets::bytes(answer)[i] == 32
                || offsets::bytes(answer)[i] == 9 || offsets::bytes(answer)[i] == 10
                || offsets::bytes(answer)[i] == 12 || offsets::bytes(answer)[i] == 13),
    ensures
        ({
            let r = hooks::outcome_of(
                offsets::bytes(answer),
                exit_code,
                timed_out,
                event,
                script,
            );
            &&& exit_code == 0 && !timed_out ==> r == hooks::reply_to(v, event, script)
            &&& exit_code != 0 || timed_out ==> r.action == ActionView::Continue
                && r.warning is Some
        }),
{
    let b = offsets::bytes(answer);
    encode_utf8_valid_utf8(answer);
    encode_utf8_decode_utf8(answer);
    let i = choose|i: int|
        0 <= i < b.len() && !(#[trigger] b[i] == 32 || b[i] == 9 || b[i] == 10 || b[i] == 12 || b[i]
            == 13);
    assert(!hooks::is_blank(b[i]));
}

/// The contexts that hooks add stand one after the other, with an empty line between them; empty
/// ones, and whatever else hooks ask for, leave no trace.
pub proof fn law_contexts(actions: Seq<ActionView>, a: ActionView, c: Seq<char>)
    ensures
        ({
            let before = hooks::contexts_of(actions);
            let after = hooks::contexts_of(actions.push(a));
            &&& hooks::contexts_of(Seq::empty()).len() == 0
            &&& a == ActionView::InjectContext(c) && c.len() > 0 && before.len() > 0 ==> after
                == before + "\n\n"@ + c
            &&& a == ActionView::InjectContext(c) && before.len() == 0 ==> after == c
            &&& a == ActionView::InjectContext(c) && c.len() == 0 ==> after == before
            &&& !(a is InjectContext) ==> after == before
        }),
{
    assert(actions.push(a).drop_last() =~= actions);
    if a == ActionView::InjectContext(c) && hooks::contexts_of(actions).len() == 0 && c.len() == 0 {
        assert(hooks::contexts_of(actions) =~= c);
    }
}

/// The entry is a hook of the given name: an executable file that is neither hidden nor disabled.
pub open spec fn hook_named(e: HookEntry, name: Seq<char>) -> bool {
    &&& e.is_file
    &&& e.executable
    &&& e.name is Some
    &&& (e.name->0)@ == name
    &&& !(name.len() > 0 && name[0] == '.')
    &&& !text::ends_with(name, ".disabled"@)
}

/// The hooks that fire are the executable files of the directory that are neither hidden nor
/// disabled, all of them and no others.
pub proof fn law_hooks_that_fire(entries: Seq<HookEntry>, name: Seq<char>)
    ensures
        hooks::hook_names(entries).contains(name) <==> exists|i: int|
            0 <= i < entries.len() && hook_named(#[trigger] entries[i], name),
    decreases entries.len(),
{
    if entries.len() > 0 {
        let less = entries.drop_last();
        let e = entries.last();
        let n = entries.len() - 1;
        law_hooks_that_fire(less, name);
        reveal_strlit(".");
        if name.len() > 0 {
            assert("."@ =~= seq!['.']);
            assert(name.subrange(0, 1) =~= seq![name[0]]);
            assert(seq![name[0]] == seq!['.'] ==> seq![name[0]][0] == '.');
        }
        let before = hooks::hook_names(less);
        let after = hooks::hook_names(entries);
        assert(e == entries[n]);
        if before.contains(name) {
            let i = choose|i: int| 0 <= i < less.len() && hook_named(#[trigger] less[i], name);
            assert(hook_named(entries[i], name));
            let j = choose|j: int| 0 <= j < before.len() && before[j] == name;
            assert(after[j] == name);
        }
        if hook_named(e, name) {
            assert(hooks::is_hook(e));
            assert(after[after.len() - 1] == name);
        }
        if after.contains(name) && !before.contains(name) {
            let j = choose|j: int| 0 <= j < after.len() && after[j] == name;
            if j < before.len() {
                assert(before[j] == name);
            }
            assert(hook_named(entries[n], name));
        }
        if exists|i: int| 0 <= i < entries.len() && hook_named(#[trigger] entries[i], name) {
            let i = choose|i: int| 0 <= i < entries.len() && hook_named(
                #[trigger] entries[i],
                name,
            );
            if i < n {
                assert(hook_named(less[i], name));
            }
        }
    }
}

/// Hooks fire in lexical order: a name comes before those that it begins, and otherwise the first
/// character in which two names differ decides.
pub proof fn law_lexical_order(a: Seq<char>, b: Seq<char>)
    ensures
        hooks::lex_le(a, b) <==> {
            ||| a.len() <= b.len() && b.take(a.len() as int) == a
            ||| exists|i: int|
                0 <= i < a.len() && i < b.len() && #[trigger] a.take(i) == b.take(i) && a[i] < b[i]
        },
    decreases a.len(),
{
    if a.len() > 0 && b.len() > 0 && a[0] == b[0] {
        let ra = a.drop_first();
        let rb = b.drop_first();
        law_lexical_order(ra, rb);
        if ra.len() <= rb.len() && rb.take(ra.len() as int) == ra {
            assert forall|i: int| 0 <= i < a.len() implies b[i] == a[i] by {
                if i > 0 {
                    assert(rb.take(ra.len() as int)[i - 1] == ra[i - 1]);
                }
            }
            assert(b.take(a.len() as int) =~= a);
        }
        if a.len() <= b.len() && b.take(a.len() as int) == a {
            assert forall|i: int| 0 <= i < ra.len() implies rb[i] == ra[i] by {
                assert(b.take(a.len() as int)[i + 1] == a[i + 1]);
            }
            assert(rb.take(ra.len() as int) =~= ra);
        }
        if exists|i: int|
            0 <= i < ra.len() && i < rb.len() && #[trigger] ra.take(i) == rb.take(i) && ra[i]
                < rb[i] {
            let i = choose|i: int|
                0 <= i < ra.len() && i < rb.len() && #[trigger] ra.take(i) == rb.take(i) && ra[i]
                    < rb[i];
            assert forall|j: int| 0 <= j < i + 1 implies a[j] == b[j] by {
                if j > 0 {
                    assert(ra.take(i)[j - 1] == rb.take(i)[j - 1]);
                }
            }
            assert(a.take(i + 1) =~= b.take(i + 1));
        }
        if exists|i: int|
            0 <= i < a.len() && i < b.len() && #[trigger] a.take(i) == b.take(i) && a[i] < b[i] {
            let i = choose|i: int|
                0 <= i < a.len() && i < b.len() && #[trigger] a.take(i) == b.take(i) && a[i] < b[i];
            assert(i > 0);
            assert forall|j: int| 0 <= j < i - 1 implies ra[j] == rb[j] by {
                assert(a.take(i)[j + 1] == b.take(i)[j + 1]);
            }
            assert(ra.take(i - 1) =~= rb.take(i - 1));
        }
    } else if a.len() > 0 && b.len() > 0 {
        assert(a.take(0) =~= b.take(0));
        if a.len() <= b.len() && b.take(a.len() as int) == a {
            assert(b.take(a.len() as int)[0] == b[0]);
        }
        if exists|i: int|
            0 <= i < a.len() && i < b.len() && #[trigger] a.take(i) == b.take(i) && a[i] < b[i] {
            let i = choose|i: int|
                0 <= i < a.len() && i < b.len() && #[trigger] a.take(i) == b.take(i) && a[i] < b[i];
            if i > 0 {
                assert(a.take(i)[0] == b.take(i)[0]);
            }
        }
    } else if a.len() == 0 {
        assert(b.take(0) =~= a);
    }
}

/// The names under which the events are known.
pub proof fn law_event_names()
    ensures
        HookEvent::SessionStart.name() == "session-start"@,
        HookEvent::UserPrompt.name() == "user-prompt"@,
        HookEvent::PreTool.name() == "pre-tool"@,
        HookEvent::PostTool.name() == "post-tool"@,
        HookEvent::SessionEnd.name() == "session-end"@,
        HookEvent::LogRotation.name() == "log-rotation"@,
        HookEvent::AgentStop.name() == "agent-stop"@,
        HookEvent::Tick.name() == "tick"@,
{
}

/// A hook reads the payload as it was given, and the event, the time and the home directory.
pub proof fn law_payload(
    m: Map<Seq<char>, JsonView>,
    event: HookEvent,
    ts_ms: u64,
    lazar_home: Seq<char>,
    key: Seq<char>,
)
    ensures
        ({
            let r = hooks::stamped_payload(JsonView::Object(m), event, ts_ms, lazar_home);
            &&& fields::tells(r, "event"@, event.name())
            &&& fields::says(r, "ts_ms"@, JsonView::Unsigned(ts_ms))
            &&& fields::tells(r, "lazar_home"@, lazar_home)
            &&& m.contains_key(key) && key != "event"@ && key != "ts_ms"@ && key != "lazar_home"@
                ==> fields::says(r, key, m[key])
            &&& !m.contains_key(key) && key != "event"@ && key != "ts_ms"@ && key != "lazar_home"@
                ==> !r->Object_0.contains_key(key)
        }),
{
    fields::lemma_keys();
    reveal_strlit("lazar_home");
    assert("lazar_home"@.len() == 10);
}

/// The log tells which hook runs, how it ended, how long it ran and what it asked for.
pub proof fn law_hook_log(
    event: HookEvent,
    script: Seq<char>,
    action: ActionView,
    exit_code: i32,
    duration_ms: u64,
    timed_out: bool,
    note: Seq<char>,
)
    ensures
        ({
            let start = hooks::start_event(event, script);
            &&& fields::tells(start, "kind"@, "hook_start"@)
            &&& fields::tells(start, "event"@, event.name())
            &&& fields::tells(start, "script"@, script)
        }),
        ({
            let end = hooks::end_event(event, script, action, exit_code, duration_ms, timed_out);
            &&& fields::tells(end, "kind"@, "hook_end"@)
            &&& fields::tells(end, "event"@, event.name())
            &&& fields::tells(end, "script"@, script)
            &&& action is Continue ==> fields::tells(end, "action"@, "continue"@)
            &&& action is Veto ==> fields::tells(end, "action"@, "veto"@)
            &&& action is TransformCommand ==> fields::tells(
                end,
                "action"@,
                "transform_command"@,
            )
            &&& action is TransformOutput ==> fields::tells(end, "action"@, "transform_output"@)
            &&& action is InjectContext ==> fields::tells(end, "action"@, "inject"@)
            &&& exit_code >= 0 ==> fields::says(
                end,
                "exit_code"@,
                JsonView::Unsigned(exit_code as u64),
            )
            &&& exit_code < 0 ==> fields::says(
                end,
                "exit_code"@,
                JsonView::Negative(exit_code as i64),
            )
            &&& fields::says(end, "duration_ms"@, JsonView::Unsigned(duration_ms))
            &&& fields::says(end, "timed_out"@, JsonView::Bool(timed_out))
        }),
        ({
            let failed = hooks::spawn_failed_event(event, script, duration_ms, note);
            &&& fields::tells(failed, "kind"@, "hook_end"@)
            &&& fields::tells(failed, "event"@, event.name())
            &&& fields::tells(failed, "script"@, script)
            &&& fields::tells(failed, "action"@, "continue"@)
            &&& fields::says(failed, "exit_code"@, JsonView::Negative(-1i64))
            &&& fields::says(failed, "duration_ms"@, JsonView::Unsigned(duration_ms))
            &&& fields::tells(failed, "note"@, note)
        }),
{
    fields::lemma_keys();
    reveal_strlit("script");
    reveal_strlit("exit_code");
    reveal_strlit("timed_out");
    assert("script"@.len() == 6 && "script"@[0] == 's');
    assert("exit_code"@.len() == 9 && "exit_code"@[0] == 'e');
    assert("timed_out"@.len() == 9 && "timed_out"@[0] == 't');
    let a = seq![
        ("kind"@, JsonView::Str("hook_start"@)),
        ("event"@, JsonView::Str(event.name())),
        ("script"@, JsonView::Str(script)),
    ];
    fields::lemma_entry(a, 0);
    fields::lemma_entry(a, 1);
    fields::lemma_entry(a, 2);
    let b = seq![
        ("kind"@, JsonView::Str("hook_end"@)),
        ("event"@, JsonView::Str(event.name())),
        ("script"@, JsonView::Str(script)),
        ("action"@, JsonView::Str(action.label())),
        ("exit_code"@, json::int_view(exit_code as int)),
        ("duration_ms"@, JsonView::Unsigned(duration_ms)),
        ("timed_out"@, JsonView::Bool(timed_out)),
    ];
    fields::lemma_entry(b, 0);
    fields::lemma_entry(b, 1);
    fields::lemma_entry(b, 2);
    fields::lemma_entry(b, 3);
    fields::lemma_entry(b, 4);
    fields::lemma_entry(b, 5);
    fields::lemma_entry(b, 6);
    let c = seq![
        ("kind"@, JsonView::Str("hook_end"@)),
        ("event"@, JsonView::Str(event.name())),
        ("script"@, JsonView::Str(script)),
        ("action"@, JsonView::Str("continue"@)),
        ("exit_code"@, json::int_view(-1)),
        ("duration_ms"@, JsonView::Unsigned(duration_ms)),
        ("note"@, JsonView::Str(note)),
    ];
    fields::lemma_entry(c, 0);
    fields::lemma_entry(c, 1);
    fields::lemma_entry(c, 2);
    fields::lemma_entry(c, 3);
    fields::lemma_entry(c, 4);
    fields::lemma_entry(c, 5);
    fields::lemma_entry(c, 6);
}

} // verus!
