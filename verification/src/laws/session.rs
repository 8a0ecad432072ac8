//! What is remembered of a session.

use vstd::prelude::*;
use vstd::utf8::*;

use crate::json;
use crate::json::JsonView;
use crate::laws::agent;
use crate::laws::fields;
use crate::offsets;
use crate::session;
use crate::text;

verus! {

// ---------------------------------------------------------------------------
// From events to messages
// ---------------------------------------------------------------------------

/// A block with a text.
pub open spec fn plain_text(s: Seq<char>) -> JsonView {
    JsonView::Object(
        Map::<Seq<char>, JsonView>::empty().insert("type"@, JsonView::Str("text"@)).insert(
            "text"@,
            JsonView::Str(s),
        ),
    )
}

/// The parts of a content, each with the one who said it.
pub open spec fn parts(role: Seq<char>, content: JsonView) -> Seq<(Seq<char>, JsonView)> {
    match content {
        JsonView::Str(s) => seq![(role, plain_text(s))],
        JsonView::Array(a) => Seq::new(a.len(), |i: int| (role, a[i])),
        other => seq![(role, other)],
    }
}

/// The event is one of what the user or the assistant said.
pub open spec fn speaks(e: JsonView, role: Seq<char>, content: JsonView) -> bool {
    &&& role == "user"@ || role == "assistant"@
    &&& fields::tells(e, "kind"@, role)
    &&& fields::says(e, "content"@, content)
}

/// The event is the result of a tool call.
pub open spec fn answers_call(e: JsonView, id: JsonView, content: JsonView) -> bool {
    &&& fields::tells(e, "kind"@, "tool_result"@)
    &&& fields::says(e, "tool_use_id"@, id)
    &&& fields::says(e, "content"@, content)
}

/// The event says nothing that belongs into a conversation.
pub open spec fn says_nothing(e: JsonView) -> bool {
    &&& forall|role: Seq<char>, content: JsonView| !#[trigger] speaks(e, role, content)
    &&& forall|id: JsonView, content: JsonView| !#[trigger] answers_call(e, id, content)
}

/// A result as a part of a conversation.
pub open spec fn result_part(id: JsonView, content: JsonView) -> JsonView {
    JsonView::Object(
        Map::<Seq<char>, JsonView>::empty().insert(
            "type"@,
            JsonView::Str("tool_result"@),
        ).insert("tool_use_id"@, id).insert("content"@, content),
    )
}

/// What the messages say, part by part.
pub open spec fn all_parts(messages: Seq<JsonView>) -> Seq<(Seq<char>, JsonView)>
    decreases messages.len(),
{
    if messages.len() == 0 {
        Seq::empty()
    } else {
        let m = messages.last();
        all_parts(messages.drop_last()) + if m is Object && m->Object_0.contains_key("role"@)
            && m->Object_0["role"@] is Str && m->Object_0.contains_key("content"@) {
            parts(m->Object_0["role"@]->Str_0, m->Object_0["content"@])
        } else {
            Seq::empty()
        }
    }
}

proof fn lemma_said(role: Seq<char>, content: JsonView)
    ensures
        session::message(role, content) == agent::said(role, content),
{
    let e = seq![("role"@, JsonView::Str(role)), ("content"@, content)];
    assert(e.drop_last() =~= seq![("role"@, JsonView::Str(role))]);
    assert(e.drop_last().drop_last() =~= Seq::<(Seq<char>, JsonView)>::empty());
    reveal_with_fuel(json::entries_map, 3);
    assert(session::message(role, content)->Object_0 =~= agent::said(role, content)->Object_0);
}

proof fn lemma_result_part(id: JsonView, content: JsonView)
    ensures
        session::tool_result(id, content) == result_part(id, content),
{
    let e = seq![
        ("type"@, JsonView::Str("tool_result"@)),
        ("tool_use_id"@, id),
        ("content"@, content),
    ];
    let e2 = e.drop_last();
    let e1 = e2.drop_last();
    assert(e1.drop_last() =~= Seq::<(Seq<char>, JsonView)>::empty());
    reveal_with_fuel(json::entries_map, 4);
    assert(session::tool_result(id, content)->Object_0 =~= result_part(id, content)->Object_0);
}

proof fn lemma_all_parts_push(messages: Seq<JsonView>, role: Seq<char>, content: JsonView)
    ensures
        all_parts(messages.push(agent::said(role, content))) == all_parts(messages) + parts(role, content),
{
    fields::lemma_keys();
    assert(messages.push(agent::said(role, content)).drop_last() =~= messages);
}

proof fn lemma_kinds()
    ensures
        "user"@ != "assistant"@,
        "user"@ != "tool_result"@,
        "assistant"@ != "tool_result"@,
        "user"@.len() > 0,
        "assistant"@.len() > 0,
        "tool_result"@.len() > 0,
{
    reveal_strlit("user");
    reveal_strlit("assistant");
    reveal_strlit("tool_result");
    assert("user"@.len() == 4 && "assistant"@.len() == 9 && "tool_result"@.len() == 11);
}

/// Each thing that the user or the assistant said becomes a message of its own, after all messages
/// of the events before it.
pub proof fn law_saying_adds_a_message(
    events: Seq<JsonView>,
    e: JsonView,
    role: Seq<char>,
    content: JsonView,
)
    requires
        speaks(e, role, content),
    ensures
        session::event_messages(events.push(e)) == session::event_messages(events).push(
            agent::said(role, content),
        ),
{
    lemma_kinds();
    lemma_said(role, content);
    assert(events.push(e).drop_last() =~= events);
}

/// Events that say nothing leave the messages as they are.
pub proof fn law_other_events_add_nothing(events: Seq<JsonView>, e: JsonView)
    requires
        says_nothing(e),
    ensures
        session::event_messages(events.push(e)) == session::event_messages(events),
{
    lemma_kinds();
    assert(events.push(e).drop_last() =~= events);
    let kind = session::kind_of(e);
    if kind == "user"@ || kind == "assistant"@ {
        assert(fields::tells(e, "kind"@, kind));
        if let Some(c) = e.field("content"@) {
            assert(speaks(e, kind, c));
        }
    } else if kind == "tool_result"@ {
        if let (Some(id), Some(c)) = (e.field("tool_use_id"@), e.field("content"@)) {
            assert(answers_call(e, id, c));
        }
    }
}

/// The result of a tool call is the last thing that the user says: it joins the results right
/// before it, and otherwise starts a message.
pub proof fn law_result_is_said_last(
    events: Seq<JsonView>,
    e: JsonView,
    id: JsonView,
    content: JsonView,
)
    requires
        answers_call(e, id, content),
    ensures
        ({
            let before = session::event_messages(events);
            let after = session::event_messages(events.push(e));
            let r = result_part(id, content);
            ||| after == before.push(agent::said("user"@, JsonView::Array(seq![r])))
            ||| exists|items: Seq<JsonView>|
                {
                    &&& before.len() > 0
                    &&& before.last() == #[trigger] agent::said("user"@, JsonView::Array(items))
                    &&& after == before.drop_last().push(
                        agent::said("user"@, JsonView::Array(items.push(r))),
                    )
                }
        }),
        events.len() == 0 || (exists|role: Seq<char>, c: JsonView| #[trigger]
            speaks(events.last(), role, c)) ==> session::event_messages(events.push(e))
            == session::event_messages(events).push(
            agent::said("user"@, JsonView::Array(seq![result_part(id, content)])),
        ),
        forall|id2: JsonView, c2: JsonView|
            events.len() > 0 && #[trigger] answers_call(events.last(), id2, c2)
                ==> session::event_messages(events.push(e)).len() == session::event_messages(
                events,
            ).len(),
{
    lemma_kinds();
    assert(events.push(e).drop_last() =~= events);
    let h = session::history(events);
    let r = result_part(id, content);
    lemma_result_part(id, content);
    lemma_said("user"@, JsonView::Array(h.pending));
    lemma_said("user"@, JsonView::Array(h.pending.push(r)));
    let before = session::event_messages(events);
    let after = session::event_messages(events.push(e));
    if h.pending.len() == 0 {
        assert(h.pending.push(r) =~= seq![r]);
    } else {
        assert(before.last() == agent::said("user"@, JsonView::Array(h.pending)));
        assert(before.drop_last() =~= h.messages);
        assert(after == before.drop_last().push(agent::said("user"@, JsonView::Array(h.pending.push(r)))));
    }
}

/// What the messages of a session say is what its events said, part by part and in order: nothing
/// is lost, nothing is added, and nobody's words become another's.
pub proof fn law_messages_say_what_events_said(
    events: Seq<JsonView>,
    e: JsonView,
    role: Seq<char>,
    content: JsonView,
    id: JsonView,
)
    ensures
        all_parts(session::event_messages(Seq::empty())) == Seq::<(Seq<char>, JsonView)>::empty(),
        speaks(e, role, content) ==> all_parts(session::event_messages(events.push(e)))
            == all_parts(session::event_messages(events)) + parts(role, content),
        answers_call(e, id, content) ==> all_parts(session::event_messages(events.push(e)))
            == all_parts(session::event_messages(events)).push(
            ("user"@, result_part(id, content)),
        ),
        says_nothing(e) ==> all_parts(session::event_messages(events.push(e))) == all_parts(
            session::event_messages(events),
        ),
{
    let before = session::event_messages(events);
    let after = session::event_messages(events.push(e));
    if speaks(e, role, content) {
        law_saying_adds_a_message(events, e, role, content);
        lemma_all_parts_push(before, role, content);
    }
    if answers_call(e, id, content) {
        law_result_is_said_last(events, e, id, content);
        let r = result_part(id, content);
        if after == before.push(agent::said("user"@, JsonView::Array(seq![r]))) {
            lemma_all_parts_push(before, "user"@, JsonView::Array(seq![r]));
            assert(parts("user"@, JsonView::Array(seq![r])) =~= seq![("user"@, r)]);
            assert(all_parts(after) =~= all_parts(before).push(("user"@, r)));
        } else {
            let items = choose|items: Seq<JsonView>|
                {
                    &&& before.len() > 0
                    &&& before.last() == #[trigger] agent::said("user"@, JsonView::Array(items))
                    &&& after == before.drop_last().push(
                        agent::said("user"@, JsonView::Array(items.push(r))),
                    )
                };
            let less = before.drop_last();
            assert(less.push(before.last()) =~= before);
            lemma_all_parts_push(less, "user"@, JsonView::Array(items));
            lemma_all_parts_push(less, "user"@, JsonView::Array(items.push(r)));
            assert(parts("user"@, JsonView::Array(items.push(r))) =~= parts(
                "user"@,
                JsonView::Array(items),
            ).push(("user"@, r)));
            assert(all_parts(after) =~= all_parts(before).push(("user"@, r)));
        }
    }
    if says_nothing(e) {
        law_other_events_add_nothing(events, e);
    }
}

/// Later events change nothing of what earlier ones said: what the messages of the first events say
/// is where the messages of all of them start.
pub proof fn law_nothing_is_forgotten(events: Seq<JsonView>, n: int)
    requires
        0 <= n <= events.len(),
    ensures
        ({
            let early = all_parts(session::event_messages(events.take(n)));
            let late = all_parts(session::event_messages(events));
            early.len() <= late.len() && late.take(early.len() as int) == early
        }),
        ({
            let early = session::history(events.take(n)).messages;
            let late = session::event_messages(events);
            early.len() <= late.len() && late.take(early.len() as int) == early
        }),
    decreases events.len(),
{
    let early = all_parts(session::event_messages(events.take(n)));
    let late = all_parts(session::event_messages(events));
    let first = session::history(events.take(n)).messages;
    let all = session::event_messages(events);
    if n == events.len() {
        assert(events.take(n) =~= events);
        assert(late.take(early.len() as int) =~= early);
        assert(all.take(first.len() as int) =~= first);
    } else {
        let less = events.drop_last();
        let e = events.last();
        assert(less.take(n) =~= events.take(n));
        assert(less.push(e) =~= events);
        law_nothing_is_forgotten(less, n);
        lemma_one_more(less, e);
        lemma_messages_grow(less, n);
        let mid = all_parts(session::event_messages(less));
        assert(late.take(early.len() as int) =~= mid.take(early.len() as int));
        let kept = session::history(less).messages;
        assert(all.take(first.len() as int) =~= kept.take(first.len() as int));
    }
}

proof fn lemma_one_more(events: Seq<JsonView>, e: JsonView)
    ensures
        ({
            let early = all_parts(session::event_messages(events));
            let late = all_parts(session::event_messages(events.push(e)));
            early.len() <= late.len() && late.take(early.len() as int) == early
        }),
        ({
            let early = session::history(events).messages;
            let late = session::event_messages(events.push(e));
            early.len() <= late.len() && late.take(early.len() as int) == early
        }),
{
    let early = all_parts(session::event_messages(events));
    let late = all_parts(session::event_messages(events.push(e)));
    let kind = session::kind_of(e);
    let c = e.at("content"@);
    let id = e.at("tool_use_id"@);
    lemma_kinds();
    if speaks(e, kind, c) {
        law_messages_say_what_events_said(events, e, kind, c, id);
        assert(late.take(early.len() as int) =~= early);
    } else if answers_call(e, id, c) {
        law_messages_say_what_events_said(events, e, kind, c, id);
        assert(late.take(early.len() as int) =~= early);
    } else {
        assert(says_nothing(e));
        law_messages_say_what_events_said(events, e, kind, c, id);
        assert(late.take(early.len() as int) =~= early);
    }
    assert(events.push(e).drop_last() =~= events);
    let first = session::history(events).messages;
    let all = session::event_messages(events.push(e));
    assert(all.take(first.len() as int) =~= first);
}

proof fn lemma_messages_grow(events: Seq<JsonView>, n: int)
    requires
        0 <= n <= events.len(),
    ensures
        ({
            let early = session::history(events.take(n)).messages;
            let late = session::history(events).messages;
            early.len() <= late.len() && late.take(early.len() as int) == early
        }),
    decreases events.len(),
{
    let early = session::history(events.take(n)).messages;
    let late = session::history(events).messages;
    if n == events.len() {
        assert(events.take(n) =~= events);
        assert(late.take(early.len() as int) =~= early);
    } else {
        let less = events.drop_last();
        assert(less.take(n) =~= events.take(n));
        lemma_messages_grow(less, n);
        let mid = session::history(less).messages;
        assert(late.take(mid.len() as int) =~= mid);
        assert(late.take(early.len() as int) =~= mid.take(early.len() as int));
    }
}

// ---------------------------------------------------------------------------
// What is loaded
// ---------------------------------------------------------------------------

/// The message is one that somebody said.
pub open spec fn spoken_by(m: JsonView, role: Seq<char>) -> bool {
    fields::tells(m, "role"@, role) && m->Object_0.contains_key("content"@)
}

/// Every message is the user's or the assistant's.
pub open spec fn conversation(messages: Seq<JsonView>) -> bool {
    forall|i: int|
        0 <= i < messages.len() ==> spoken_by(#[trigger] messages[i], "user"@) || spoken_by(
            messages[i],
            "assistant"@,
        )
}

proof fn lemma_events_make_conversation(events: Seq<JsonView>)
    ensures
        conversation(session::history(events).messages),
        conversation(session::event_messages(events)),
    decreases events.len(),
{
    fields::lemma_keys();
    let h = session::history(events);
    lemma_said("user"@, JsonView::Array(h.pending));
    if events.len() > 0 {
        let less = events.drop_last();
        let e = events.last();
        lemma_events_make_conversation(less);
        if let Some(c) = e.field("content"@) {
            lemma_said("user"@, c);
            lemma_said("assistant"@, c);
        }
    }
}

proof fn lemma_parts(role: Seq<char>, content: JsonView)
    ensures
        parts(role, content) == Seq::new(
            session::content_blocks(content).len(),
            |i: int| (role, session::content_blocks(content)[i]),
        ),
{
    if let JsonView::Str(s) = content {
        let e = seq![("type"@, JsonView::Str("text"@)), ("text"@, JsonView::Str(s))];
        assert(e.drop_last().drop_last() =~= Seq::<(Seq<char>, JsonView)>::empty());
        reveal_with_fuel(json::entries_map, 3);
        assert(session::text_block(s)->Object_0 =~= plain_text(s)->Object_0);
    }
    assert(parts(role, content) =~= Seq::new(
        session::content_blocks(content).len(),
        |i: int| (role, session::content_blocks(content)[i]),
    ));
}

/// Making neighbours of one role into one message changes nothing of what is said, and by whom.
proof fn lemma_merged_says(messages: Seq<JsonView>)
    requires
        conversation(messages),
    ensures
        conversation(session::merged(messages)),
        all_parts(session::merged(messages)) == all_parts(messages),
    decreases messages.len(),
{
    fields::lemma_keys();
    lemma_kinds();
    if messages.len() > 0 {
        let less = messages.drop_last();
        let m = messages.last();
        let n = messages.len() - 1;
        assert(m == messages[n]);
        assert forall|i: int| 0 <= i < less.len() implies spoken_by(#[trigger] less[i], "user"@)
            || spoken_by(less[i], "assistant"@) by {
            assert(less[i] == messages[i]);
        }
        lemma_merged_says(less);
        let before = session::merged(less);
        let after = session::merged(messages);
        if before.len() > 0 && session::role_of(before.last()) == session::role_of(m) {
            let last = before.last();
            let k = before.len() - 1;
            assert(last == before[k]);
            let role = last->Object_0["role"@]->Str_0;
            let one = last->Object_0["content"@];
            let two = m->Object_0["content"@];
            let both = JsonView::Array(session::content_blocks(one) + session::content_blocks(two));
            lemma_parts(role, one);
            lemma_parts(role, two);
            lemma_parts(role, both);
            assert(parts(role, both) =~= parts(role, one) + parts(role, two));
            assert(after.drop_last() =~= before.drop_last());
            assert(all_parts(after) =~= all_parts(before) + parts(role, two));
            assert forall|i: int| 0 <= i < after.len() implies spoken_by(
                #[trigger] after[i],
                "user"@,
            ) || spoken_by(after[i], "assistant"@) by {
                if i < k {
                    assert(after[i] == before[i]);
                }
            }
        } else {
            assert(after.drop_last() =~= before);
        }
    } else {
        assert(session::merged(messages) =~= messages);
    }
}

proof fn lemma_parts_of_rest(messages: Seq<JsonView>, d: int)
    requires
        0 <= d <= messages.len(),
    ensures
        all_parts(messages) == all_parts(messages.take(d)) + all_parts(messages.skip(d)),
    decreases messages.len(),
{
    if d == messages.len() {
        assert(messages.take(d) =~= messages);
        assert(messages.skip(d) =~= Seq::<JsonView>::empty());
        assert(all_parts(messages) =~= all_parts(messages.take(d)) + all_parts(messages.skip(d)));
    } else {
        let less = messages.drop_last();
        lemma_parts_of_rest(less, d);
        assert(less.take(d) =~= messages.take(d));
        assert(messages.skip(d).drop_last() =~= less.skip(d));
        assert(messages.skip(d).last() == messages.last());
        assert(all_parts(messages) =~= all_parts(messages.take(d)) + all_parts(messages.skip(d)));
    }
}

/// The messages take at most `cap` bytes as a JSON array.
pub open spec fn fits(messages: Seq<JsonView>, cap: nat) -> bool {
    offsets::bytes(json::array_text(messages)).len() <= cap
}

/// What is loaded of a session is the end of what was said, from a message of the user on; it fits
/// under the cap, and nothing longer of that kind would. The user and the assistant take turns in
/// it.
pub proof fn law_latest_is_loaded(events: Seq<JsonView>, cap: nat)
    ensures
        ({
            let whole = session::event_messages(events);
            let loaded = session::loaded_messages(events, cap as int);
            let said_all = all_parts(whole);
            let said_now = all_parts(loaded);
            &&& loaded.len() > 0 || fits(Seq::empty(), cap) ==> fits(loaded, cap)
            &&& loaded.len() > 0 ==> spoken_by(loaded[0], "user"@)
            &&& conversation(loaded)
            &&& forall|i: int, j: int|
                0 <= i && j == i + 1 && j < loaded.len() ==> (spoken_by(
                    #[trigger] loaded[i],
                    "user"@,
                ) <==> spoken_by(#[trigger] loaded[j], "assistant"@))
            &&& said_now.len() <= said_all.len()
            &&& said_now == said_all.skip(said_all.len() - said_now.len())
            &&& forall|d: int|
                0 <= d <= session::merged(whole).len() && d < session::merged(whole).len()
                    - loaded.len() && spoken_by(session::merged(whole)[d], "user"@) ==> !fits(
                    #[trigger] session::merged(whole).skip(d),
                    cap,
                )
        }),
{
    let whole = session::event_messages(events);
    let all = session::merged(whole);
    let loaded = session::loaded_messages(events, cap as int);
    lemma_kinds();
    fields::lemma_keys();
    lemma_events_make_conversation(events);
    lemma_merged_says(whole);
    session::law_kept_messages(all, cap);
    let kept = session::kept_messages(all, cap as int);
    lemma_conversation_is_spoken(whole);
    session::law_merged(whole);
    let d = all.len() - kept.len();
    lemma_parts_of_rest(all, d);
    lemma_longest(all, cap);
    if session::size_of_messages(kept) > cap {
        assert(loaded =~= Seq::<JsonView>::empty());
        let n = all_parts(whole).len() as int;
        assert(all_parts(loaded) =~= all_parts(whole).skip(n));
    } else {
        assert(all_parts(loaded) =~= all_parts(whole).skip(
            all_parts(whole).len() - all_parts(loaded).len(),
        ));
        assert forall|i: int| 0 <= i < loaded.len() implies spoken_by(#[trigger] loaded[i], "user"@)
            || spoken_by(loaded[i], "assistant"@) by {
            assert(loaded[i] == all[i + d]);
        }
        assert forall|i: int, j: int| 0 <= i && j == i + 1 && j < loaded.len() implies (spoken_by(
            #[trigger] loaded[i],
            "user"@,
        ) <==> spoken_by(#[trigger] loaded[j], "assistant"@)) by {
            assert(session::takes_turns(loaded[i], loaded[j]));
        }
    }
}

proof fn lemma_conversation_is_spoken(messages: Seq<JsonView>)
    requires
        conversation(messages),
    ensures
        session::all_spoken(messages),
{
}

/// Every longer end that starts with a message of the user is too long.
proof fn lemma_longest(messages: Seq<JsonView>, cap: nat)
    ensures
        ({
            let loaded = session::fitting_messages(messages, cap as int);
            forall|d: int|
                0 <= d < messages.len() - loaded.len() && session::role_of(messages[d]) == Some(
                    "user"@,
                ) ==> !fits(#[trigger] messages.skip(d), cap)
        }),
{
    let mid = session::dropped_to_cap(messages, cap as int);
    let kept = session::dropped_to_user(mid);
    lemma_cap(messages, cap);
    lemma_user(mid);
    let loaded = session::fitting_messages(messages, cap as int);
    let a = messages.len() - mid.len();
    assert forall|d: int|
        0 <= d < messages.len() - loaded.len() && session::role_of(messages[d]) == Some(
            "user"@,
        ) implies !fits(#[trigger] messages.skip(d), cap) by {
        if d >= a {
            assert(messages[d] == mid[d - a]);
            if d - a < mid.len() - kept.len() {
                assert(session::role_of(mid[d - a]) != Some("user"@));
            } else {
                assert(loaded.len() == 0);
                assert(kept.len() > 0);
                assert(session::size_of_messages(kept) > cap);
                assert(kept =~= messages.skip(messages.len() - kept.len()));
                lemma_cap_single(messages, cap);
                assert(d == messages.len() - kept.len());
            }
        }
    }
}

proof fn lemma_cap(messages: Seq<JsonView>, cap: nat)
    ensures
        ({
            let mid = session::dropped_to_cap(messages, cap as int);
            &&& mid.len() <= messages.len()
            &&& mid == messages.skip(messages.len() - mid.len())
            &&& forall|d: int|
                0 <= d < messages.len() - mid.len() ==> !fits(#[trigger] messages.skip(d), cap)
        }),
    decreases messages.len(),
{
    assert(messages.skip(0) =~= messages);
    if messages.len() > 1 && session::size_of_messages(messages) > cap {
        let rest = messages.drop_first();
        lemma_cap(rest, cap);
        let mid = session::dropped_to_cap(rest, cap as int);
        assert(rest.skip(rest.len() - mid.len()) =~= messages.skip(messages.len() - mid.len()));
        assert forall|d: int| 0 <= d < messages.len() - mid.len() implies !fits(
            #[trigger] messages.skip(d),
            cap,
        ) by {
            if d > 0 {
                assert(messages.skip(d) =~= rest.skip(d - 1));
            }
        }
    }
}

/// What is too long after dropping is a single message.
proof fn lemma_cap_single(messages: Seq<JsonView>, cap: nat)
    ensures
        ({
            let mid = session::dropped_to_cap(messages, cap as int);
            session::size_of_messages(session::dropped_to_user(mid)) > cap
                && session::dropped_to_user(mid).len() > 0 ==> session::dropped_to_user(mid).len()
                == 1
        }),
{
    session::law_kept_messages(messages, cap);
}

proof fn lemma_user(messages: Seq<JsonView>)
    ensures
        ({
            let kept = session::dropped_to_user(messages);
            &&& kept.len() <= messages.len()
            &&& kept == messages.skip(messages.len() - kept.len())
            &&& forall|d: int|
                0 <= d < messages.len() - kept.len() ==> session::role_of(#[trigger] messages[d])
                    != Some("user"@)
        }),
    decreases messages.len(),
{
    assert(messages.skip(0) =~= messages);
    if messages.len() > 0 && session::role_of(messages[0]) != Some("user"@) {
        let rest = messages.drop_first();
        lemma_user(rest);
        let kept = session::dropped_to_user(rest);
        assert(rest.skip(rest.len() - kept.len()) =~= messages.skip(messages.len() - kept.len()));
        assert forall|d: int| 0 <= d < messages.len() - kept.len() implies session::role_of(
            #[trigger] messages[d],
        ) != Some("user"@) by {
            if d > 0 {
                assert(rest[d - 1] == messages[d]);
            }
        }
    }
}

// ---------------------------------------------------------------------------
// What is written
// ---------------------------------------------------------------------------

/// An event is recorded as it is, with the time where it has none.
pub proof fn law_recorded_event(m: Map<Seq<char>, JsonView>, ts_ms: u64, key: Seq<char>)
    ensures
        ({
            let r = session::recorded(JsonView::Object(m), ts_ms);
            &&& m.contains_key(key) ==> fields::says(r, key, m[key])
            &&& !m.contains_key("ts_ms"@) ==> fields::says(
                r,
                "ts_ms"@,
                JsonView::Unsigned(ts_ms),
            )
            &&& !m.contains_key(key) && key != "ts_ms"@ ==> !r->Object_0.contains_key(key)
        }),
{
}

/// A session log takes what was said, and where an invocation starts and ends; nothing else.
pub proof fn law_mirrored_kinds(e: JsonView)
    ensures
        session::mirrored(e) <==> {
            ||| fields::tells(e, "kind"@, "user"@)
            ||| fields::tells(e, "kind"@, "assistant"@)
            ||| fields::tells(e, "kind"@, "tool_result"@)
            ||| fields::tells(e, "kind"@, "invoke_start"@)
            ||| fields::tells(e, "kind"@, "invoke_end"@)
        },
{
    lemma_kinds();
    reveal_strlit("invoke_start");
    reveal_strlit("invoke_end");
    let k = session::MIRRORED@;
    assert(k[0]@ == "user"@ && k[1]@ == "assistant"@ && k[2]@ == "tool_result"@ && k[3]@
        == "invoke_start"@ && k[4]@ == "invoke_end"@);
    assert("invoke_start"@.len() > 0 && "invoke_end"@.len() > 0);
}

/// A log is read line by line: each line adds its event, if it holds one, and the rest is read as a
/// log of its own.
pub proof fn law_log_by_lines(line: Seq<u8>, rest: Seq<u8>)
    requires
        forall|i: int| 0 <= i < line.len() ==> #[trigger] line[i] != 10,
    ensures
        session::log_events(line.push(10u8) + rest) == (match session::line_event(line) {
            Some(v) => seq![v] + session::log_events(rest),
            None => session::log_events(rest),
        }),
{
    let all = line.push(10u8) + rest;
    text::lemma_index_of(all, 10u8);
    assert(all[line.len() as int] == 10);
    let i = text::index_of(all, 10u8)->0;
    if i < line.len() {
        assert(all[i] == line[i]);
    }
    assert(i == line.len());
    assert(all.subrange(0, i) =~= line);
    assert(all.subrange(i + 1, all.len() as int) =~= rest);
    lemma_first_line(line, session::byte_lines(rest));
}

proof fn lemma_first_line(line: Seq<u8>, lines: Seq<Seq<u8>>)
    ensures
        session::lines_events(seq![line] + lines) == (match session::line_event(line) {
            Some(v) => seq![v] + session::lines_events(lines),
            None => session::lines_events(lines),
        }),
    decreases lines.len(),
{
    let all = seq![line] + lines;
    if lines.len() == 0 {
        let none = Seq::<Seq<u8>>::empty();
        assert(lines =~= none);
        assert(all.drop_last() =~= none);
        assert(all.last() == line);
        assert(session::lines_events(none) == Seq::<JsonView>::empty());
        if let Some(v) = session::line_event(line) {
            assert(session::lines_events(all) =~= seq![v] + session::lines_events(lines));
        }
    } else {
        lemma_first_line(line, lines.drop_last());
        assert(all.drop_last() =~= seq![line] + lines.drop_last());
        assert(all.last() == lines.last());
        if let Some(v) = session::line_event(line) {
            assert(session::lines_events(all) =~= seq![v] + session::lines_events(lines));
        }
    }
}

/// A line that spells a JSON value holds that event, whether it ends in a carriage return or not; one
/// that spells none holds no event.
pub proof fn law_line_holds_event(line: Seq<char>, v: JsonView)
    requires
        line.len() > 0,
        line.last() != '\r',
        text::trim(line).len() > 0,
    ensures
        json::spells(line, v) ==> session::line_event(offsets::bytes(line)) == Some(v),
        json::spells(line, v) ==> session::line_event(offsets::bytes(line.push('\r'))) == Some(v),
        (forall|w: JsonView| !#[trigger] json::spells(line, w)) ==> session::line_event(
            offsets::bytes(line),
        ) is None,
{
    encode_utf8_valid_utf8(line);
    encode_utf8_decode_utf8(line);
    encode_utf8_valid_utf8(line.push('\r'));
    encode_utf8_decode_utf8(line.push('\r'));
    assert(line.push('\r').drop_last() =~= line);
    if let Ok(w) = json::parsed_json(line) {
        assert(json::spells(line, w));
    }
}

/// Of two sessions that were modified at the same time, the one that is listed first counts as the
/// newest; a session that was modified later always does.
pub proof fn law_newest_of_two(entries: Seq<session::SessionEntry>, e: session::SessionEntry)
    ensures
        ({
            let before = session::newest(entries);
            let after = session::newest(entries.push(e));
            let new = session::session_of(e);
            &&& new is None ==> after == before
            &&& before is None ==> after == new
            &&& before is Some && new is Some && (new->0).0 > (before->0).0 ==> after == new
            &&& before is Some && new is Some && (new->0).0 <= (before->0).0 ==> after == before
        }),
{
    assert(entries.push(e).drop_last() =~= entries);
}

/// A regular file whose name is a valid id and the ending of a log is the log of that session.
pub proof fn law_session_files(e: session::SessionEntry, id: Seq<char>, t: i128)
    requires
        session::valid_id(id),
        e.name is Some,
        (e.name->0)@ == id.push('.') + "jsonl"@,
        e.modified_nanos == Some(t),
    ensures
        e.is_file ==> session::session_of(e) == Some((t, id)),
        !e.is_file ==> session::session_of(e) is None,
{
    reveal_strlit("jsonl");
    crate::laws::texts::law_rsplit_once(id, '.', "jsonl"@);
}

} // verus!
