//! What gives a text away that claims more than was done.

use vstd::prelude::*;
use vstd::utf8::*;

use crate::fabrication;
use crate::fabrication::{Found, SuspicionKind, SuspicionView};
use crate::offsets;
use crate::text;

verus! {

/// What stands before a verb that claims completion.
pub open spec fn is_trigger(t: Seq<char>) -> bool {
    ||| t == "just "@
    ||| t == "now "@
    ||| t == "already "@
    ||| t == "i've "@
    ||| t == "i have "@
    ||| t == "i ran "@
}

/// A verb that claims completion.
pub open spec fn is_verb(v: Seq<char>) -> bool {
    ||| v == "rotated"@
    ||| v == "compressed"@
    ||| v == "moved"@
    ||| v == "deleted"@
    ||| v == "removed"@
    ||| v == "created"@
    ||| v == "distilled"@
    ||| v == "cleaned"@
    ||| v == "archived"@
    ||| v == "wrote"@
    ||| v == "saved"@
    ||| v == "persisted"@
    ||| v == "applied"@
    ||| v == "installed"@
    ||| v == "fixed"@
    ||| v == "patched"@
    ||| v == "updated"@
    ||| v == "rebuilt"@
    ||| v == "regenerated"@
}

/// The text `lower` says at the offset `at` that something was done: a verb that claims completion
/// right after what introduces it.
pub open spec fn claims_action(lower: Seq<char>, at: int, t: Seq<char>, v: Seq<char>) -> bool {
    &&& is_trigger(t)
    &&& is_verb(v)
    &&& text::occurs_at(offsets::bytes(lower), offsets::bytes(t), at)
    &&& text::occurs_at(offsets::bytes(lower), offsets::bytes(v), at + offsets::bytes(t).len())
}

/// The smaller of two numbers.
pub open spec fn smaller(a: int, b: int) -> int {
    if a <= b {
        a
    } else {
        b
    }
}

/// The passage of the text from `start` to `end` is under suspicion.
pub open spec fn flagged(
    text: Seq<char>,
    lower: Seq<char>,
    kind: SuspicionKind,
    start: int,
    end: int,
) -> bool {
    fabrication::suspicions(text, lower).contains(
        (SuspicionView { kind, matched_text: text::trim(offsets::between(text, start, end)) }),
    )
}

/// What is found is under suspicion.
proof fn lemma_flagged(text: Seq<char>, lower: Seq<char>, f: Found)
    requires
        fabrication::tells(text, offsets::bytes(lower)).contains(f),
    ensures
        flagged(text, lower, f.kind, f.start, f.end),
{
    broadcast use vstd::seq_lib::group_to_multiset_ensures;

    let list = fabrication::tells(text, offsets::bytes(lower));
    let ordered = fabrication::by_position(list);
    fabrication::law_by_position(list);
    assert(list.to_multiset().count(f) > 0);
    assert(ordered.contains(f));
    let i = choose|i: int| 0 <= i < ordered.len() && ordered[i] == f;
    assert(fabrication::suspicions(text, lower)[i] == (SuspicionView {
        kind: f.kind,
        matched_text: text::trim(offsets::between(text, f.start, f.end)),
    }));
}

/// What is under suspicion was found.
proof fn lemma_found(text: Seq<char>, lower: Seq<char>, i: int) -> (f: Found)
    requires
        0 <= i < fabrication::suspicions(text, lower).len(),
    ensures
        fabrication::tells(text, offsets::bytes(lower)).contains(f),
        fabrication::suspicions(text, lower)[i] == (SuspicionView {
            kind: f.kind,
            matched_text: text::trim(offsets::between(text, f.start, f.end)),
        }),
{
    broadcast use vstd::seq_lib::group_to_multiset_ensures;

    let list = fabrication::tells(text, offsets::bytes(lower));
    let ordered = fabrication::by_position(list);
    fabrication::law_by_position(list);
    let f = ordered[i];
    assert(ordered.contains(f));
    assert(ordered.to_multiset().count(f) > 0);
    f
}

// ---------------------------------------------------------------------------
// Actions
// ---------------------------------------------------------------------------

/// Two occurrences do not overlap: only the last byte is a blank, or one more at the second place
/// of a pattern that does not end like it starts.
proof fn lemma_apart(low: Seq<u8>, t: Seq<u8>, a: int, b: int)
    requires
        t.len() >= 2,
        t[t.len() - 1] == 32,
        forall|i: int| 0 <= i < t.len() - 1 && #[trigger] t[i] == 32 ==> i == 1,
        t[t.len() - 2] != t[0],
        text::occurs_at(low, t, a),
        text::occurs_at(low, t, b),
        a < b,
    ensures
        a + t.len() <= b,
{
    if b < a + t.len() {
        let n = t.len() as int;
        let one = low.subrange(a, a + n);
        let two = low.subrange(b, b + n);
        assert(one[n - 1] == low[a + n - 1]);
        assert(two[a + n - 1 - b] == low[a + n - 1]);
        assert(t[a + n - 1 - b] == 32);
        assert(a + n - 1 - b == 1);
        assert(one[n - 2] == low[a + n - 2]);
        assert(two[0] == low[b]);
    }
}

/// How the bytes of a trigger look.
proof fn lemma_trigger(t: Seq<char>)
    requires
        is_trigger(t),
    ensures
        ({
            let b = offsets::bytes(t);
            &&& b.len() >= 2
            &&& b[b.len() - 1] == 32
            &&& forall|i: int| 0 <= i < b.len() - 1 && #[trigger] b[i] == 32 ==> i == 1
            &&& b[b.len() - 2] != b[0]
        }),
        exists|k: int| 0 <= k < fabrication::TRIGGERS@.len() && (#[trigger]
        fabrication::TRIGGERS@[k])@ == t,
{
    reveal_strlit("just ");
    reveal_strlit("now ");
    reveal_strlit("already ");
    reveal_strlit("i've ");
    reveal_strlit("i have ");
    reveal_strlit("i ran ");
    assert(is_ascii_chars(t));
    is_ascii_chars_encode_utf8(t);
    let b = offsets::bytes(t);
    assert forall|i: int| 0 <= i < b.len() - 1 && #[trigger] b[i] == 32 implies i == 1 by {
        assert(b[i] == t[i] as u8);
        assert(t[i] == ' ');
    }
    let all = fabrication::TRIGGERS@;
    assert(all[0]@ == "just "@ && all[1]@ == "now "@ && all[2]@ == "already "@ && all[3]@
        == "i've "@ && all[4]@ == "i have "@ && all[5]@ == "i ran "@);
}

proof fn lemma_trigger_back(k: int)
    requires
        0 <= k < fabrication::TRIGGERS@.len(),
    ensures
        is_trigger(fabrication::TRIGGERS@[k]@),
{
    let all = fabrication::TRIGGERS@;
    assert(all[0]@ == "just "@ && all[1]@ == "now "@ && all[2]@ == "already "@ && all[3]@
        == "i've "@ && all[4]@ == "i have "@ && all[5]@ == "i ran "@);
}

/// The verbs are the ones of the list.
proof fn lemma_verbs()
    ensures
        forall|k: int|
            0 <= k < fabrication::ACTION_VERBS@.len() ==> is_verb(
                (#[trigger] fabrication::ACTION_VERBS@[k])@,
            ),
        forall|v: Seq<char>| #[trigger]
            is_verb(v) ==> exists|k: int|
                0 <= k < fabrication::ACTION_VERBS@.len() && (#[trigger]
                fabrication::ACTION_VERBS@[k])@ == v,
{
    let all = fabrication::ACTION_VERBS@;
    assert(all[0]@ == "rotated"@ && all[1]@ == "compressed"@ && all[2]@ == "moved"@ && all[3]@
        == "deleted"@ && all[4]@ == "removed"@ && all[5]@ == "created"@ && all[6]@
        == "distilled"@ && all[7]@ == "cleaned"@ && all[8]@ == "archived"@ && all[9]@ == "wrote"@
        && all[10]@ == "saved"@ && all[11]@ == "persisted"@ && all[12]@ == "applied"@ && all[13]@
        == "installed"@ && all[14]@ == "fixed"@ && all[15]@ == "patched"@ && all[16]@
        == "updated"@ && all[17]@ == "rebuilt"@ && all[18]@ == "regenerated"@);
}

proof fn lemma_verb_from(low: Seq<u8>, at: int, i: int, k: int)
    requires
        0 <= i <= k < fabrication::ACTION_VERBS@.len(),
        text::occurs_at(low, offsets::bytes(fabrication::ACTION_VERBS@[k]@), at),
    ensures
        fabrication::verb_from(low, at, i) is Some,
    decreases k - i,
{
    if i < k {
        lemma_verb_from(low, at, i + 1, k);
    }
}

proof fn lemma_verb_stands(low: Seq<u8>, at: int, i: int)
    requires
        0 <= i,
    ensures
        match fabrication::verb_from(low, at, i) {
            Some(k) => i <= k < fabrication::ACTION_VERBS@.len() && text::occurs_at(
                low,
                offsets::bytes(fabrication::ACTION_VERBS@[k]@),
                at,
            ),
            None => true,
        },
    decreases fabrication::ACTION_VERBS@.len() - i,
{
    if i < fabrication::ACTION_VERBS@.len() {
        lemma_verb_stands(low, at, i + 1);
    }
}

/// The actions after a trigger hold the one at each of its occurrences that a verb follows.
proof fn lemma_trigger_actions(text: Seq<char>, low: Seq<u8>, t: Seq<char>, from: int, at: int)
    requires
        is_trigger(t),
        0 <= from <= at,
        text::occurs_at(low, offsets::bytes(t), at),
        fabrication::verb_from(low, at + offsets::bytes(t).len(), 0) is Some,
    ensures
        fabrication::trigger_actions(text, low, offsets::bytes(t), from).contains(
            fabrication::action_at(text, low, at, at + offsets::bytes(t).len())[0],
        ),
    decreases low.len() - from,
{
    let b = offsets::bytes(t);
    lemma_trigger(t);
    text::lemma_find_from(low, b, from);
    let first = text::find_from(low, b, from)->0;
    assert(text::find_from(low, b, from) is Some);
    let head = fabrication::action_at(text, low, first, first + b.len());
    let rest = fabrication::trigger_actions(text, low, b, first + b.len());
    let f = fabrication::action_at(text, low, at, at + b.len())[0];
    let all = fabrication::trigger_actions(text, low, b, from);
    assert(all == head + rest);
    if first == at {
        assert(all[0] == f);
    } else {
        lemma_apart(low, b, first, at);
        lemma_trigger_actions(text, low, t, first + b.len(), at);
        let i = choose|i: int| 0 <= i < rest.len() && rest[i] == f;
        assert(all[head.len() + i] == f);
    }
}

/// An action that is found has its trigger and its verb in the text.
proof fn lemma_action_has_reason(
    text: Seq<char>,
    low: Seq<u8>,
    t: Seq<u8>,
    from: int,
    f: Found,
) -> (at: int)
    requires
        0 <= from,
        fabrication::trigger_actions(text, low, t, from).contains(f),
    ensures
        text::occurs_at(low, t, at),
        fabrication::verb_from(low, at + t.len(), 0) is Some,
        f == fabrication::action_at(text, low, at, at + t.len())[0],
    decreases low.len() - from,
{
    text::lemma_find_from(low, t, from);
    let all = fabrication::trigger_actions(text, low, t, from);
    let first = text::find_from(low, t, from)->0;
    let head = fabrication::action_at(text, low, first, first + t.len());
    let rest = fabrication::trigger_actions(text, low, t, first + t.len());
    assert(all == head + rest);
    let i = choose|i: int| 0 <= i < all.len() && all[i] == f;
    if i < head.len() {
        first
    } else {
        assert(rest[i - head.len()] == f);
        lemma_action_has_reason(text, low, t, first + t.len(), f)
    }
}

proof fn lemma_actions(text: Seq<char>, low: Seq<u8>, n: int, k: int, f: Found)
    requires
        0 <= k < n <= fabrication::TRIGGERS@.len(),
        fabrication::trigger_actions(
            text,
            low,
            offsets::bytes(fabrication::TRIGGERS@[k]@),
            0,
        ).contains(f),
    ensures
        fabrication::actions(text, low, n).contains(f),
    decreases n,
{
    let before = fabrication::actions(text, low, n - 1);
    let more = fabrication::trigger_actions(
        text,
        low,
        offsets::bytes(fabrication::TRIGGERS@[n - 1]@),
        0,
    );
    let all = fabrication::actions(text, low, n);
    assert(all == before + more);
    if k == n - 1 {
        let i = choose|i: int| 0 <= i < more.len() && more[i] == f;
        assert(all[before.len() + i] == f);
    } else {
        lemma_actions(text, low, n - 1, k, f);
        let i = choose|i: int| 0 <= i < before.len() && before[i] == f;
        assert(all[i] == f);
    }
}

proof fn lemma_actions_back(text: Seq<char>, low: Seq<u8>, n: int, f: Found) -> (k: int)
    requires
        n <= fabrication::TRIGGERS@.len(),
        fabrication::actions(text, low, n).contains(f),
    ensures
        0 <= k < n,
        fabrication::trigger_actions(
            text,
            low,
            offsets::bytes(fabrication::TRIGGERS@[k]@),
            0,
        ).contains(f),
        f.kind == SuspicionKind::PastTenseAction,
    decreases n,
{
    let all = fabrication::actions(text, low, n);
    let i = choose|i: int| 0 <= i < all.len() && all[i] == f;
    let before = fabrication::actions(text, low, n - 1);
    let t = offsets::bytes(fabrication::TRIGGERS@[n - 1]@);
    let more = fabrication::trigger_actions(text, low, t, 0);
    assert(all == before + more);
    if i < before.len() {
        assert(before[i] == f);
        lemma_actions_back(text, low, n - 1, f)
    } else {
        assert(more[i - before.len()] == f);
        assert(more.contains(f));
        let at = lemma_action_has_reason(text, low, t, 0, f);
        n - 1
    }
}

/// Wherever a text says that something was done, it is under suspicion from there on, up to forty
/// bytes behind the verb.
pub proof fn law_actions_are_flagged(
    text: Seq<char>,
    lower: Seq<char>,
    at: int,
    t: Seq<char>,
    v: Seq<char>,
)
    requires
        claims_action(lower, at, t, v),
    ensures
        exists|w: Seq<char>|
            {
                &&& #[trigger] claims_action(lower, at, t, w)
                &&& flagged(
                    text,
                    lower,
                    SuspicionKind::PastTenseAction,
                    offsets::floor_boundary(text, at),
                    offsets::ceil_boundary(
                        text,
                        smaller(
                            at + offsets::bytes(t).len() + offsets::bytes(w).len() + 40,
                            offsets::bytes(text).len() as int,
                        ),
                    ),
                )
            },
{
    let low = offsets::bytes(lower);
    let next = at + offsets::bytes(t).len();
    lemma_verbs();
    lemma_trigger(t);
    let j = choose|j: int|
        0 <= j < fabrication::ACTION_VERBS@.len() && (#[trigger] fabrication::ACTION_VERBS@[j])@
            == v;
    let k = choose|k: int|
        0 <= k < fabrication::TRIGGERS@.len() && (#[trigger] fabrication::TRIGGERS@[k])@ == t;
    lemma_verb_from(low, next, 0, j);
    lemma_verb_stands(low, next, 0);
    let i = fabrication::verb_from(low, next, 0)->0;
    let w = fabrication::ACTION_VERBS@[i]@;
    assert(claims_action(lower, at, t, w));
    let f = fabrication::action_at(text, low, at, next)[0];
    lemma_trigger_actions(text, low, t, 0, at);
    lemma_actions(text, low, fabrication::TRIGGERS@.len() as int, k, f);
    lemma_part_of_tells(text, low, f);
    lemma_flagged(text, lower, f);
}

/// What each tell finds is found.
proof fn lemma_part_of_tells(text: Seq<char>, low: Seq<u8>, f: Found)
    ensures
        fabrication::tells(text, low).contains(f) <==> {
            ||| fabrication::actions(text, low, fabrication::TRIGGERS@.len() as int).contains(f)
            ||| fabrication::phrase_passage(
                text,
                low,
                fabrication::TOTAL_TIME@,
                SuspicionKind::TotalTime,
                60,
            ).contains(f)
            ||| fabrication::checkmarks(
                text,
                low,
                fabrication::CHECKMARKS@.len() as int,
            ).contains(f)
            ||| fabrication::table_line(text, low).contains(f)
            ||| fabrication::recencies(
                text,
                low,
                fabrication::RECENCY_PHRASES@.len() as int,
            ).contains(f)
        },
{
    let a = fabrication::actions(text, low, fabrication::TRIGGERS@.len() as int);
    let b = fabrication::phrase_passage(
        text,
        low,
        fabrication::TOTAL_TIME@,
        SuspicionKind::TotalTime,
        60,
    );
    let c = fabrication::checkmarks(text, low, fabrication::CHECKMARKS@.len() as int);
    let d = fabrication::table_line(text, low);
    let e = fabrication::recencies(text, low, fabrication::RECENCY_PHRASES@.len() as int);
    lemma_either(a, b, f);
    lemma_either(a + b, c, f);
    lemma_either(a + b + c, d, f);
    lemma_either(a + b + c + d, e, f);
}

proof fn lemma_either(a: Seq<Found>, b: Seq<Found>, f: Found)
    ensures
        (a + b).contains(f) <==> a.contains(f) || b.contains(f),
{
    let all = a + b;
    if a.contains(f) {
        let i = choose|i: int| 0 <= i < a.len() && a[i] == f;
        assert(all[i] == f);
    }
    if b.contains(f) {
        let i = choose|i: int| 0 <= i < b.len() && b[i] == f;
        assert(all[a.len() + i] == f);
    }
    if all.contains(f) {
        let i = choose|i: int| 0 <= i < all.len() && all[i] == f;
        if i < a.len() {
            assert(a[i] == f);
        } else {
            assert(b[i - a.len()] == f);
        }
    }
}

/// Nothing is said to have been done unless it is: a passage is suspected of claiming an action
/// only from a claim of one on.
pub proof fn law_flagged_actions_are_claimed(text: Seq<char>, lower: Seq<char>, i: int)
    requires
        0 <= i < fabrication::suspicions(text, lower).len(),
        fabrication::suspicions(text, lower)[i].kind == SuspicionKind::PastTenseAction,
    ensures
        exists|at: int, t: Seq<char>, v: Seq<char>| #[trigger] claims_action(lower, at, t, v),
{
    let low = offsets::bytes(lower);
    let f = lemma_found(text, lower, i);
    lemma_part_of_tells(text, low, f);
    lemma_kinds_of_tells(text, low, f);
    let k = lemma_actions_back(text, low, fabrication::TRIGGERS@.len() as int, f);
    let t = fabrication::TRIGGERS@[k]@;
    let at = lemma_action_has_reason(text, low, offsets::bytes(t), 0, f);
    lemma_trigger_back(k);
    lemma_verbs();
    lemma_verb_stands(low, at + offsets::bytes(t).len(), 0);
    let j = fabrication::verb_from(low, at + offsets::bytes(t).len(), 0)->0;
    assert(claims_action(lower, at, t, fabrication::ACTION_VERBS@[j]@));
}

// ---------------------------------------------------------------------------
// Phrases
// ---------------------------------------------------------------------------

/// The phrase stands at the offset `at` of the text `lower`, and not before.
pub open spec fn first_at(lower: Seq<char>, phrase: Seq<char>, at: int) -> bool {
    &&& text::occurs_at(offsets::bytes(lower), offsets::bytes(phrase), at)
    &&& forall|j: int|
        0 <= j < at ==> !text::occurs_at(offsets::bytes(lower), offsets::bytes(phrase), j)
}

/// A checkmark with a claim of completion.
pub open spec fn is_checkmark(p: Seq<char>) -> bool {
    ||| p == "✅ done"@
    ||| p == "✅ truly"@
    ||| p == "✅ just"@
    ||| p == "✅ completed"@
    ||| p == "✅ verified"@
    ||| p == "✅ removed"@
    ||| p == "✅ moved"@
    ||| p == "✅ rotated"@
    ||| p == "✅ compressed"@
    ||| p == "✅ fresh"@
}

/// A table cell with a state.
pub open spec fn is_signal(p: Seq<char>) -> bool {
    ||| p == "| ✅"@
    ||| p == "| ❌"@
    ||| p == "bytes |"@
    ||| p == "kb |"@
    ||| p == "mb |"@
    ||| p == "rotated |"@
    ||| p == "compressed |"@
    ||| p == "removed |"@
    ||| p == "fresh content |"@
}

/// A claim that something happened lately.
pub open spec fn is_recency(p: Seq<char>) -> bool {
    p == "within the last "@ || p == "in the last "@
}

proof fn lemma_first(lower: Seq<char>, phrase: Seq<char>, at: int)
    requires
        first_at(lower, phrase, at),
    ensures
        text::find(offsets::bytes(lower), offsets::bytes(phrase)) == Some(at),
{
    text::lemma_find_from(offsets::bytes(lower), offsets::bytes(phrase), 0);
}

/// A report of a total time is under suspicion, for sixty bytes.
pub proof fn law_total_time_is_flagged(text: Seq<char>, lower: Seq<char>, at: int)
    requires
        first_at(lower, "total time:"@, at),
    ensures
        flagged(
            text,
            lower,
            SuspicionKind::TotalTime,
            at,
            offsets::ceil_boundary(text, smaller(at + 60, offsets::bytes(text).len() as int)),
        ),
{
    let low = offsets::bytes(lower);
    lemma_first(lower, "total time:"@, at);
    let list = fabrication::phrase_passage(
        text,
        low,
        fabrication::TOTAL_TIME@,
        SuspicionKind::TotalTime,
        60,
    );
    let f = list[0];
    assert(list.contains(f));
    lemma_part_of_tells(text, low, f);
    lemma_flagged(text, lower, f);
}

proof fn lemma_checkmarks(text: Seq<char>, low: Seq<u8>, n: int, k: int, f: Found)
    requires
        0 <= k < n <= fabrication::CHECKMARKS@.len(),
        fabrication::phrase_passage(
            text,
            low,
            fabrication::CHECKMARKS@[k]@,
            SuspicionKind::CheckmarkClaim,
            80,
        ).contains(f),
    ensures
        fabrication::checkmarks(text, low, n).contains(f),
    decreases n,
{
    let before = fabrication::checkmarks(text, low, n - 1);
    let more = fabrication::phrase_passage(
        text,
        low,
        fabrication::CHECKMARKS@[n - 1]@,
        SuspicionKind::CheckmarkClaim,
        80,
    );
    lemma_either(before, more, f);
    if k < n - 1 {
        lemma_checkmarks(text, low, n - 1, k, f);
    }
}

/// Each checkmark with a claim of completion is under suspicion, for eighty bytes.
pub proof fn law_checkmarks_are_flagged(
    text: Seq<char>,
    lower: Seq<char>,
    p: Seq<char>,
    at: int,
)
    requires
        is_checkmark(p),
        first_at(lower, p, at),
    ensures
        flagged(
            text,
            lower,
            SuspicionKind::CheckmarkClaim,
            at,
            offsets::ceil_boundary(text, smaller(at + 80, offsets::bytes(text).len() as int)),
        ),
{
    let low = offsets::bytes(lower);
    lemma_first(lower, p, at);
    let all = fabrication::CHECKMARKS@;
    assert(all[0]@ == "✅ done"@ && all[1]@ == "✅ truly"@ && all[2]@ == "✅ just"@ && all[3]@ == "✅ completed"@ && all[4]@ == "✅ verified"@ && all[5]@ == "✅ removed"@ && all[6]@ == "✅ moved"@ && all[7]@ == "✅ rotated"@ && all[8]@ == "✅ compressed"@ && all[9]@ == "✅ fresh"@);
    let k = choose|k: int| 0 <= k < all.len() && (#[trigger] all[k])@ == p;
    let list = fabrication::phrase_passage(text, low, p, SuspicionKind::CheckmarkClaim, 80);
    let f = list[0];
    assert(list.contains(f));
    lemma_checkmarks(text, low, all.len() as int, k, f);
    lemma_part_of_tells(text, low, f);
    lemma_flagged(text, lower, f);
}

proof fn lemma_recencies(text: Seq<char>, low: Seq<u8>, n: int, k: int, at: int)
    requires
        0 <= k < n <= fabrication::RECENCY_PHRASES@.len(),
        fabrication::recency_at(low, fabrication::RECENCY_PHRASES@[k]@) == Some(at),
    ensures
        fabrication::recencies(text, low, n).contains(
            fabrication::passage(
                text,
                SuspicionKind::Recency,
                at,
                at + offsets::bytes(fabrication::RECENCY_PHRASES@[k]@).len(),
                40,
            ),
        ),
    decreases n,
{
    let f = fabrication::passage(
        text,
        SuspicionKind::Recency,
        at,
        at + offsets::bytes(fabrication::RECENCY_PHRASES@[k]@).len(),
        40,
    );
    let before = fabrication::recencies(text, low, n - 1);
    let all = fabrication::recencies(text, low, n);
    let more = all.skip(before.len() as int);
    assert(all =~= before + more);
    lemma_either(before, more, f);
    if k < n - 1 {
        lemma_recencies(text, low, n - 1, k, at);
    } else {
        assert(more[0] == f);
    }
}

/// A claim that something happened lately, with a number, is under suspicion up to forty bytes
/// behind the phrase.
pub proof fn law_recency_is_flagged(text: Seq<char>, lower: Seq<char>, p: Seq<char>, at: int)
    requires
        is_recency(p),
        first_at(lower, p, at),
        at + offsets::bytes(p).len() < offsets::bytes(lower).len(),
        48 <= offsets::bytes(lower)[at + offsets::bytes(p).len()] <= 57,
    ensures
        flagged(
            text,
            lower,
            SuspicionKind::Recency,
            at,
            offsets::ceil_boundary(
                text,
                smaller(
                    at + offsets::bytes(p).len() + 40,
                    offsets::bytes(text).len() as int,
                ),
            ),
        ),
{
    let low = offsets::bytes(lower);
    lemma_first(lower, p, at);
    let all = fabrication::RECENCY_PHRASES@;
    assert(all[0]@ == "within the last "@ && all[1]@ == "in the last "@);
    let k = choose|k: int| 0 <= k < all.len() && (#[trigger] all[k])@ == p;
    lemma_recencies(text, low, all.len() as int, k, at);
    let f = fabrication::passage(
        text,
        SuspicionKind::Recency,
        at,
        at + offsets::bytes(p).len(),
        40,
    );
    lemma_part_of_tells(text, low, f);
    lemma_flagged(text, lower, f);
}

proof fn lemma_signal(low: Seq<u8>, i: int)
    requires
        0 <= i,
    ensures
        match fabrication::signal_from(low, i) {
            Some(at) => exists|k: int|
                i <= k < fabrication::TABLE_SIGNALS@.len() && text::occurs_at(
                    low,
                    offsets::bytes((#[trigger] fabrication::TABLE_SIGNALS@[k])@),
                    at,
                ),
            None => forall|k: int, at: int|
                #![trigger text::occurs_at(
                    low,
                    offsets::bytes(fabrication::TABLE_SIGNALS@[k]@),
                    at,
                )]
                i <= k < fabrication::TABLE_SIGNALS@.len() && 0 <= at ==> !text::occurs_at(
                    low,
                    offsets::bytes(fabrication::TABLE_SIGNALS@[k]@),
                    at,
                ),
        },
    decreases fabrication::TABLE_SIGNALS@.len() - i,
{
    if i < fabrication::TABLE_SIGNALS@.len() {
        text::lemma_find_from(low, offsets::bytes(fabrication::TABLE_SIGNALS@[i]@), 0);
        lemma_signal(low, i + 1);
    }
}

/// The line of `lower` around the offset `at` goes from `from` to `to`; the last line goes to the
/// end of the text, which has `len` bytes.
pub open spec fn line_around(lower: Seq<char>, at: int, from: int, to: int, len: int) -> bool {
    let low = offsets::bytes(lower);
    &&& 0 <= from <= at
    &&& from > 0 ==> low[from - 1] == 10
    &&& forall|j: int| from <= j < at ==> #[trigger] low[j] != 10
    &&& (at <= to < low.len() && low[to] == 10 && forall|j: int|
        at <= j < to ==> #[trigger] low[j] != 10) || (to == len && forall|j: int|
        at <= j < low.len() ==> #[trigger] low[j] != 10)
}

/// A text with a state in a table cell is under suspicion: the whole line with such a cell.
pub proof fn law_table_is_flagged(text: Seq<char>, lower: Seq<char>, p: Seq<char>, at: int)
    requires
        is_signal(p),
        text::occurs_at(offsets::bytes(lower), offsets::bytes(p), at),
    ensures
        exists|q: Seq<char>, there: int, from: int, to: int|
            {
                &&& is_signal(q)
                &&& #[trigger] text::occurs_at(offsets::bytes(lower), offsets::bytes(q), there)
                &&& #[trigger] line_around(
                    lower,
                    there,
                    from,
                    to,
                    offsets::bytes(text).len() as int,
                )
                &&& flagged(
                    text,
                    lower,
                    SuspicionKind::StateTable,
                    offsets::floor_boundary(text, from),
                    offsets::ceil_boundary(text, to),
                )
            },
{
    let low = offsets::bytes(lower);
    let all = fabrication::TABLE_SIGNALS@;
    assert(all[0]@ == "| ✅"@ && all[1]@ == "| ❌"@ && all[2]@ == "bytes |"@ && all[3]@ == "kb |"@ && all[4]@ == "mb |"@ && all[5]@ == "rotated |"@ && all[6]@ == "compressed |"@ && all[7]@ == "removed |"@ && all[8]@ == "fresh content |"@);
    let k = choose|k: int| 0 <= k < all.len() && (#[trigger] all[k])@ == p;
    lemma_signal(low, 0);
    assert(text::occurs_at(low, offsets::bytes(all[k]@), at));
    let there = fabrication::signal_from(low, 0)->0;
    let q = choose|j: int|
        0 <= j < all.len() && text::occurs_at(low, offsets::bytes((#[trigger] all[j])@), there);
    let len = offsets::bytes(text).len() as int;
    let from = fabrication::line_start(low, there);
    let to = fabrication::line_end(low, there, len);
    let head = low.subrange(0, there);
    text::lemma_last_index_of(head, 10u8);
    assert forall|j: int| from <= j < there implies #[trigger] low[j] != 10 by {
        assert(head[j] == low[j]);
    }
    text::lemma_find_from(low, seq![10u8], there);
    assert forall|j: int| there <= j < low.len() && low[j] == 10 implies text::occurs_at(
        low,
        seq![10u8],
        j,
    ) by {
        assert(low.subrange(j, j + 1) =~= seq![10u8]);
    }
    if let Some(n) = text::find_from(low, seq![10u8], there) {
        assert(low.subrange(n, n + 1)[0] == 10);
    }
    assert(line_around(lower, there, from, to, len));
    let list = fabrication::table_line(text, low);
    let f = list[0];
    assert(list.contains(f));
    lemma_part_of_tells(text, low, f);
    lemma_flagged(text, lower, f);
    assert(is_signal(all[q]@));
}

// ---------------------------------------------------------------------------
// Nothing else
// ---------------------------------------------------------------------------

proof fn lemma_checkmarks_back(text: Seq<char>, low: Seq<u8>, n: int, f: Found)
    requires
        n <= fabrication::CHECKMARKS@.len(),
        fabrication::checkmarks(text, low, n).contains(f),
    ensures
        f.kind == SuspicionKind::CheckmarkClaim,
        exists|k: int|
            0 <= k < n && text::occurs_at(
                low,
                offsets::bytes((#[trigger] fabrication::CHECKMARKS@[k])@),
                f.start,
            ),
    decreases n,
{
    let before = fabrication::checkmarks(text, low, n - 1);
    let p = fabrication::CHECKMARKS@[n - 1]@;
    let more = fabrication::phrase_passage(text, low, p, SuspicionKind::CheckmarkClaim, 80);
    lemma_either(before, more, f);
    text::lemma_find_from(low, offsets::bytes(p), 0);
    if before.contains(f) {
        lemma_checkmarks_back(text, low, n - 1, f);
    } else {
        assert(text::occurs_at(low, offsets::bytes(fabrication::CHECKMARKS@[n - 1]@), f.start));
    }
}

proof fn lemma_recencies_back(text: Seq<char>, low: Seq<u8>, n: int, f: Found)
    requires
        n <= fabrication::RECENCY_PHRASES@.len(),
        fabrication::recencies(text, low, n).contains(f),
    ensures
        f.kind == SuspicionKind::Recency,
    decreases n,
{
    let before = fabrication::recencies(text, low, n - 1);
    let all = fabrication::recencies(text, low, n);
    let more = all.skip(before.len() as int);
    assert(all =~= before + more);
    lemma_either(before, more, f);
    if before.contains(f) {
        lemma_recencies_back(text, low, n - 1, f);
    }
}

/// What kind each tell is.
proof fn lemma_kinds_of_tells(text: Seq<char>, low: Seq<u8>, f: Found)
    requires
        fabrication::tells(text, low).contains(f),
    ensures
        f.kind == SuspicionKind::PastTenseAction ==> fabrication::actions(
            text,
            low,
            fabrication::TRIGGERS@.len() as int,
        ).contains(f),
        f.kind == SuspicionKind::TotalTime ==> fabrication::phrase_passage(
            text,
            low,
            fabrication::TOTAL_TIME@,
            SuspicionKind::TotalTime,
            60,
        ).contains(f),
        f.kind == SuspicionKind::CheckmarkClaim ==> fabrication::checkmarks(
            text,
            low,
            fabrication::CHECKMARKS@.len() as int,
        ).contains(f),
        f.kind == SuspicionKind::StateTable ==> fabrication::table_line(text, low).contains(f),
{
    lemma_part_of_tells(text, low, f);
    if fabrication::actions(text, low, fabrication::TRIGGERS@.len() as int).contains(f) {
        let k = lemma_actions_back(text, low, fabrication::TRIGGERS@.len() as int, f);
    } else if fabrication::checkmarks(text, low, fabrication::CHECKMARKS@.len() as int).contains(
        f,
    ) {
        lemma_checkmarks_back(text, low, fabrication::CHECKMARKS@.len() as int, f);
    } else if fabrication::recencies(
        text,
        low,
        fabrication::RECENCY_PHRASES@.len() as int,
    ).contains(f) {
        lemma_recencies_back(text, low, fabrication::RECENCY_PHRASES@.len() as int, f);
    }
}

/// Without the phrase there is no suspicion of its kind.
pub proof fn law_flagged_phrases_are_there(text: Seq<char>, lower: Seq<char>, i: int)
    requires
        0 <= i < fabrication::suspicions(text, lower).len(),
    ensures
        ({
            let low = offsets::bytes(lower);
            let kind = fabrication::suspicions(text, lower)[i].kind;
            &&& kind == SuspicionKind::TotalTime ==> exists|at: int| #[trigger]
                text::occurs_at(low, offsets::bytes("total time:"@), at)
            &&& kind == SuspicionKind::CheckmarkClaim ==> exists|p: Seq<char>, at: int| #[trigger]
                text::occurs_at(low, offsets::bytes(p), at) && is_checkmark(p)
            &&& kind == SuspicionKind::StateTable ==> exists|p: Seq<char>, at: int| #[trigger]
                text::occurs_at(low, offsets::bytes(p), at) && is_signal(p)
        }),
{
    let low = offsets::bytes(lower);
    let f = lemma_found(text, lower, i);
    lemma_kinds_of_tells(text, low, f);
    text::lemma_find_from(low, offsets::bytes("total time:"@), 0);
    lemma_signal(low, 0);
    if f.kind == SuspicionKind::CheckmarkClaim {
        let all = fabrication::CHECKMARKS@;
        assert(all[0]@ == "✅ done"@ && all[1]@ == "✅ truly"@ && all[2]@ == "✅ just"@ && all[3]@ == "✅ completed"@ && all[4]@ == "✅ verified"@ && all[5]@ == "✅ removed"@ && all[6]@ == "✅ moved"@ && all[7]@ == "✅ rotated"@ && all[8]@ == "✅ compressed"@ && all[9]@ == "✅ fresh"@);
        lemma_checkmarks_back(text, low, all.len() as int, f);
        let k = choose|k: int|
            0 <= k < all.len() && text::occurs_at(
                low,
                offsets::bytes((#[trigger] all[k])@),
                f.start,
            );
        assert(text::occurs_at(low, offsets::bytes(all[k]@), f.start) && is_checkmark(all[k]@));
    }
    if f.kind == SuspicionKind::StateTable {
        let all = fabrication::TABLE_SIGNALS@;
        assert(all[0]@ == "| ✅"@ && all[1]@ == "| ❌"@ && all[2]@ == "bytes |"@ && all[3]@ == "kb |"@ && all[4]@ == "mb |"@ && all[5]@ == "rotated |"@ && all[6]@ == "compressed |"@ && all[7]@ == "removed |"@ && all[8]@ == "fresh content |"@);
        let there = fabrication::signal_from(low, 0)->0;
        let k = choose|k: int|
            0 <= k < all.len() && text::occurs_at(low, offsets::bytes((#[trigger] all[k])@), there);
        assert(text::occurs_at(low, offsets::bytes(all[k]@), there) && is_signal(all[k]@));
    }
}

// ---------------------------------------------------------------------------
// The warning
// ---------------------------------------------------------------------------

/// The names of the kinds.
pub proof fn law_kind_names()
    ensures
        SuspicionKind::PastTenseAction.name() == "past_tense_action"@,
        SuspicionKind::StateTable.name() == "state_table"@,
        SuspicionKind::TotalTime.name() == "total_time"@,
        SuspicionKind::CheckmarkClaim.name() == "checkmark_claim"@,
        SuspicionKind::Recency.name() == "recency"@,
{
}

/// A text with a suspicion is flagged unless two or more tools ran.
pub proof fn law_when_flagged(s: Seq<SuspicionView>, tools: nat)
    ensures
        fabrication::flagged(s, tools as int) <==> s.len() > 0 && (tools == 0 || tools == 1),
{
}

/// A passage that is short enough is shown whole; of a longer one the longest part in whole
/// characters is shown, with an ellipsis.
pub proof fn law_preview(s: Seq<char>, max: nat)
    ensures
        offsets::bytes(s).len() <= max ==> fabrication::preview(s, max as int) == s,
        offsets::bytes(s).len() > max ==> exists|n: int|
            {
                &&& 0 <= n <= max
                &&& #[trigger] offsets::boundary(s, n)
                &&& forall|j: int| n < j <= max ==> !offsets::boundary(s, j)
                &&& fabrication::preview(s, max as int) == offsets::between(s, 0, n) + "…"@
            },
{
    if offsets::bytes(s).len() > max {
        offsets::lemma_floor_boundary(s, max as int);
        assert(offsets::boundary(s, offsets::floor_boundary(s, max as int)));
    }
}

/// The suspicions come in the order of the text: their passages start in ascending order.
pub proof fn law_suspicions_in_order(text: Seq<char>, lower: Seq<char>)
    ensures
        exists|list: Seq<Found>|
            {
                &&& list.len() == fabrication::suspicions(text, lower).len()
                &&& forall|i: int|
                    0 <= i < list.len() ==> fabrication::suspicions(text, lower)[i] == (
                    SuspicionView {
                        kind: (#[trigger] list[i]).kind,
                        matched_text: text::trim(
                            offsets::between(text, list[i].start, list[i].end),
                        ),
                    })
                &&& #[trigger] fabrication::in_order(list)
                &&& forall|i: int, j: int|
                    0 <= i <= j < list.len() ==> (#[trigger] list[i]).start <= (
                    #[trigger] list[j]).start
            },
{
    let list = fabrication::by_position(fabrication::tells(text, offsets::bytes(lower)));
    fabrication::law_by_position(fabrication::tells(text, offsets::bytes(lower)));
    assert(fabrication::in_order(list));
}

/// A warning lists the suspicions in order, each with its number and its kind.
pub proof fn law_warning_lines(s: Seq<SuspicionView>, n: int)
    requires
        0 <= n < s.len(),
    ensures
        text::begins_with(
            fabrication::warning_lines(s, n + 1),
            fabrication::warning_lines(s, n) + "  "@ + crate::numbers::decimal((n + 1) as nat)
                + ". ["@ + s[n].kind.name() + "] "@,
        ),
{
    let all = fabrication::warning_lines(s, n + 1);
    let head = fabrication::warning_lines(s, n) + "  "@ + crate::numbers::decimal((n + 1) as nat)
        + ". ["@ + s[n].kind.name() + "] "@;
    assert(all.subrange(0, head.len() as int) =~= head);
}

} // verus!
