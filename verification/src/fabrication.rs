//! Detection of claims of completed work in an assistant's final text.
//!
//! The text is searched, in lower case, for the tells of fabricated results: checkmarks with a
//! claim, reports of a total time, past-tense action verbs, recency claims, and table cells
//! with sizes or marks. What was found is held against the number of tools that ran.

use vstd::prelude::*;
use vstd::utf8::*;

use crate::json;
use crate::json::Json;
use crate::numbers;
use crate::numbers::size_text;
use crate::offsets;
use crate::offsets::{byte_len, bytes_match_at, ceil_of, find_bytes_from, floor_of, slice_text};
use crate::text;
use crate::text::{owned, trimmed};

verus! {

// ---------------------------------------------------------------------------
// Suspicions
// ---------------------------------------------------------------------------

/// A passage that reads like a claim of completed work.
#[derive(Debug, Clone)]
pub struct Suspicion {
    /// What gave the passage away.
    pub kind: SuspicionKind,
    /// The passage.
    pub matched_text: String,
}

/// What a suspicion rests on.
#[derive(Debug, Clone, Copy, PartialEq, Eq, Structural)]
pub enum SuspicionKind {
    /// Past-tense action verb ("just rotated", "just compressed", etc.)
    PastTenseAction,
    /// Markdown table with state cells (sizes, paths, timestamps).
    StateTable,
    /// "Total time: ~N seconds" outcome-time pattern.
    TotalTime,
    /// Checkmark + completion phrase ("✅ Done", "✅ Truly").
    CheckmarkClaim,
    /// "Within the last N minutes/seconds" recency claim.
    Recency,
}

impl SuspicionKind {
    /// The name of the kind.
    pub open spec fn name(self) -> Seq<char> {
        match self {
            SuspicionKind::PastTenseAction => "past_tense_action"@,
            SuspicionKind::StateTable => "state_table"@,
            SuspicionKind::TotalTime => "total_time"@,
            SuspicionKind::CheckmarkClaim => "checkmark_claim"@,
            SuspicionKind::Recency => "recency"@,
        }
    }

    /// The name of the kind.
    pub fn as_str(&self) -> (r: &'static str)
        ensures
            r@ == self.name(),
    {
        match self {
            SuspicionKind::PastTenseAction => "past_tense_action",
            SuspicionKind::StateTable => "state_table",
            SuspicionKind::TotalTime => "total_time",
            SuspicionKind::CheckmarkClaim => "checkmark_claim",
            SuspicionKind::Recency => "recency",
        }
    }
}

/// What a suspicion says.
#[verifier::ext_equal]
pub struct SuspicionView {
    /// What gave the passage away.
    pub kind: SuspicionKind,
    /// The passage.
    pub matched_text: Seq<char>,
}

impl View for Suspicion {
    type V = SuspicionView;

    open spec fn view(&self) -> SuspicionView {
        SuspicionView { kind: self.kind, matched_text: self.matched_text@ }
    }
}

/// What the suspicions of a list say.
pub open spec fn suspicion_views(v: Seq<Suspicion>) -> Seq<SuspicionView> {
    v.map_values(|s: Suspicion| s@)
}

// ---------------------------------------------------------------------------
// The tells
// ---------------------------------------------------------------------------

/// What stands before a verb that claims completion.
pub const TRIGGERS: [&'static str; 6] = ["just ", "now ", "already ", "i've ", "i have ", "i ran "];

/// Verbs that claim completion.
pub const ACTION_VERBS: [&'static str; 19] = [
    "rotated",
    "compressed",
    "moved",
    "deleted",
    "removed",
    "created",
    "distilled",
    "cleaned",
    "archived",
    "wrote",
    "saved",
    "persisted",
    "applied",
    "installed",
    "fixed",
    "patched",
    "updated",
    "rebuilt",
    "regenerated",
];

/// The report of a total time.
pub const TOTAL_TIME: &'static str = "total time:";

/// Checkmarks with a claim of completion.
pub const CHECKMARKS: [&'static str; 10] = [
    "✅ done",
    "✅ truly",
    "✅ just",
    "✅ completed",
    "✅ verified",
    "✅ removed",
    "✅ moved",
    "✅ rotated",
    "✅ compressed",
    "✅ fresh",
];

/// Table cells with a state.
pub const TABLE_SIGNALS: [&'static str; 9] = [
    "| ✅",
    "| ❌",
    "bytes |",
    "kb |",
    "mb |",
    "rotated |",
    "compressed |",
    "removed |",
    "fresh content |",
];

/// Claims that something happened lately.
pub const RECENCY_PHRASES: [&'static str; 2] = ["within the last ", "in the last "];

/// A passage of the text, by byte offsets, and what gave it away.
#[verifier::ext_equal]
pub struct Found {
    /// What gave the passage away.
    pub kind: SuspicionKind,
    /// Where the passage starts.
    pub start: int,
    /// Where the passage ends.
    pub end: int,
}

/// The end of a window of `width` bytes from `from`, or the end of the text.
pub open spec fn window(text: Seq<char>, from: int, width: int) -> int {
    if from + width < offsets::bytes(text).len() {
        from + width
    } else {
        offsets::bytes(text).len() as int
    }
}

/// The window, with its end moved up to the next character boundary.
pub open spec fn passage(text: Seq<char>, kind: SuspicionKind, start: int, from: int, width: int) -> Found {
    Found { kind, start, end: offsets::ceil_boundary(text, window(text, from, width)) }
}

/// The first action verb, from the `i`th on, that stands at `at`.
pub open spec fn verb_from(low: Seq<u8>, at: int, i: int) -> Option<int>
    decreases ACTION_VERBS@.len() - i,
{
    if i < 0 || i >= ACTION_VERBS@.len() {
        None
    } else if text::occurs_at(low, offsets::bytes(ACTION_VERBS@[i]@), at) {
        Some(i)
    } else {
        verb_from(low, at, i + 1)
    }
}

/// The action claimed by a trigger at `at` that ends at `next`, if any.
pub open spec fn action_at(text: Seq<char>, low: Seq<u8>, at: int, next: int) -> Seq<Found> {
    match verb_from(low, next, 0) {
        Some(i) => seq![
            passage(
                text,
                SuspicionKind::PastTenseAction,
                offsets::floor_boundary(text, at),
                next,
                offsets::bytes(ACTION_VERBS@[i]@).len() as int + 40,
            ),
        ],
        None => Seq::empty(),
    }
}

/// The actions claimed after the occurrences of a trigger from `from` on.
pub open spec fn trigger_actions(text: Seq<char>, low: Seq<u8>, trigger: Seq<u8>, from: int) -> Seq<
    Found,
>
    decreases low.len() - from,
{
    match text::find_from(low, trigger, from) {
        Some(at) => if from <= at && 0 < trigger.len() && at + trigger.len() <= low.len() {
            action_at(text, low, at, at + trigger.len()) + trigger_actions(
                text,
                low,
                trigger,
                at + trigger.len(),
            )
        } else {
            Seq::empty()
        },
        None => Seq::empty(),
    }
}

/// The actions claimed after the first `n` triggers.
pub open spec fn actions(text: Seq<char>, low: Seq<u8>, n: int) -> Seq<Found>
    decreases n,
{
    if n <= 0 {
        Seq::empty()
    } else {
        actions(text, low, n - 1) + trigger_actions(
            text,
            low,
            offsets::bytes(TRIGGERS@[n - 1]@),
            0,
        )
    }
}

/// The passage of `width` bytes from the first occurrence of a phrase.
pub open spec fn phrase_passage(
    text: Seq<char>,
    low: Seq<u8>,
    phrase: Seq<char>,
    kind: SuspicionKind,
    width: int,
) -> Seq<Found> {
    match text::find(low, offsets::bytes(phrase)) {
        Some(at) => seq![passage(text, kind, at, at, width)],
        None => Seq::empty(),
    }
}

/// The passages with one of the first `n` checkmark phrases.
pub open spec fn checkmarks(text: Seq<char>, low: Seq<u8>, n: int) -> Seq<Found>
    decreases n,
{
    if n <= 0 {
        Seq::empty()
    } else {
        checkmarks(text, low, n - 1) + phrase_passage(
            text,
            low,
            CHECKMARKS@[n - 1]@,
            SuspicionKind::CheckmarkClaim,
            80,
        )
    }
}

/// Where the first table signal, from the `i`th on, that occurs at all occurs first.
pub open spec fn signal_from(low: Seq<u8>, i: int) -> Option<int>
    decreases TABLE_SIGNALS@.len() - i,
{
    if i < 0 || i >= TABLE_SIGNALS@.len() {
        None
    } else {
        match text::find(low, offsets::bytes(TABLE_SIGNALS@[i]@)) {
            Some(at) => Some(at),
            None => signal_from(low, i + 1),
        }
    }
}

/// Where the line that holds the offset `at` starts.
pub open spec fn line_start(low: Seq<u8>, at: int) -> int {
    match text::last_index_of(low.subrange(0, at), 10u8) {
        Some(i) => i + 1,
        None => 0,
    }
}

/// Where the line that holds the offset `at` ends: at its newline, or at `len`.
pub open spec fn line_end(low: Seq<u8>, at: int, len: int) -> int {
    match text::find_from(low, seq![10u8], at) {
        Some(i) => i,
        None => len,
    }
}

/// The line with the first table signal that occurs.
pub open spec fn table_line(text: Seq<char>, low: Seq<u8>) -> Seq<Found> {
    match signal_from(low, 0) {
        Some(at) => seq![
            (Found {
                kind: SuspicionKind::StateTable,
                start: offsets::floor_boundary(text, line_start(low, at)),
                end: offsets::ceil_boundary(
                    text,
                    line_end(low, at, offsets::bytes(text).len() as int),
                ),
            }),
        ],
        None => Seq::empty(),
    }
}

/// A digit stands at `at`.
pub open spec fn digit_at(low: Seq<u8>, at: int) -> bool {
    0 <= at < low.len() && 48 <= low[at] <= 57
}

/// The first occurrence of a recency phrase, where a digit follows it.
pub open spec fn recency_at(low: Seq<u8>, phrase: Seq<char>) -> Option<int> {
    match text::find(low, offsets::bytes(phrase)) {
        Some(at) => if digit_at(low, at + offsets::bytes(phrase).len()) {
            Some(at)
        } else {
            None
        },
        None => None,
    }
}

/// The passages with one of the first `n` recency phrases and a number.
pub open spec fn recencies(text: Seq<char>, low: Seq<u8>, n: int) -> Seq<Found>
    decreases n,
{
    if n <= 0 {
        Seq::empty()
    } else {
        let phrase = RECENCY_PHRASES@[n - 1]@;
        recencies(text, low, n - 1) + match recency_at(low, phrase) {
            Some(at) => seq![
                passage(
                    text,
                    SuspicionKind::Recency,
                    at,
                    at + offsets::bytes(phrase).len(),
                    40,
                ),
            ],
            None => Seq::empty(),
        }
    }
}

/// Everything that gives the text away, tell by tell. `low` is the text in lower case.
pub open spec fn tells(text: Seq<char>, low: Seq<u8>) -> Seq<Found> {
    actions(text, low, TRIGGERS@.len() as int) + phrase_passage(
        text,
        low,
        TOTAL_TIME@,
        SuspicionKind::TotalTime,
        60,
    ) + checkmarks(text, low, CHECKMARKS@.len() as int) + table_line(text, low) + recencies(
        text,
        low,
        RECENCY_PHRASES@.len() as int,
    )
}

/// Puts a passage into a list that is ordered by where the passages start, after those that
/// start at the same place.
pub open spec fn placed(list: Seq<Found>, f: Found) -> Seq<Found>
    decreases list.len(),
{
    if list.len() == 0 {
        seq![f]
    } else if list.last().start <= f.start {
        list.push(f)
    } else {
        placed(list.drop_last(), f).push(list.last())
    }
}

/// The passages, ordered by where they start.
pub open spec fn by_position(list: Seq<Found>) -> Seq<Found>
    decreases list.len(),
{
    if list.len() == 0 {
        Seq::empty()
    } else {
        placed(by_position(list.drop_last()), list.last())
    }
}

/// The suspicions that the passages give rise to.
pub open spec fn suspicions_of(text: Seq<char>, list: Seq<Found>) -> Seq<SuspicionView> {
    list.map_values(
        |f: Found|
            (SuspicionView {
                kind: f.kind,
                matched_text: text::trim(offsets::between(text, f.start, f.end)),
            }),
    )
}

/// The suspicions about a text, in the order of the text. `lower` is the text in lower case.
pub open spec fn suspicions(text: Seq<char>, lower: Seq<char>) -> Seq<SuspicionView> {
    suspicions_of(text, by_position(tells(text, offsets::bytes(lower))))
}

/// The first occurrence of the phrase, if any, lies at a character boundary of the text.
pub open spec fn phrase_fits(text: Seq<char>, low: Seq<u8>, phrase: Seq<char>) -> bool {
    match text::find(low, offsets::bytes(phrase)) {
        Some(at) => offsets::boundary(text, at),
        None => true,
    }
}

/// The recency phrase, where a number follows it, lies at a character boundary of the text.
pub open spec fn recency_fits(text: Seq<char>, low: Seq<u8>, phrase: Seq<char>) -> bool {
    match recency_at(low, phrase) {
        Some(at) => offsets::boundary(text, at),
        None => true,
    }
}

/// The line with a table signal ends inside the text.
pub open spec fn table_fits(text: Seq<char>, low: Seq<u8>) -> bool {
    match signal_from(low, 0) {
        Some(at) => line_end(low, at, offsets::bytes(text).len() as int) <= offsets::bytes(text).len(),
        None => true,
    }
}

/// The offsets found in lower case can be used on the text. A text whose letters change their
/// length in lower case may fail this.
pub open spec fn scannable(text: Seq<char>, lower: Seq<char>) -> bool {
    let low = offsets::bytes(lower);
    &&& phrase_fits(text, low, TOTAL_TIME@)
    &&& forall|k: int|
        0 <= k < CHECKMARKS@.len() ==> phrase_fits(text, low, #[trigger] CHECKMARKS@[k]@)
    &&& table_fits(text, low)
    &&& forall|k: int|
        0 <= k < RECENCY_PHRASES@.len() ==> recency_fits(
            text,
            low,
            #[trigger] RECENCY_PHRASES@[k]@,
        )
}

/// The passage can be cut out of the text.
pub open spec fn in_text(text: Seq<char>, f: Found) -> bool {
    f.start <= f.end && offsets::boundary(text, f.start) && offsets::boundary(text, f.end)
}

/// All passages can be cut out of the text.
pub open spec fn all_in_text(text: Seq<char>, list: Seq<Found>) -> bool {
    forall|i: int| 0 <= i < list.len() ==> in_text(text, #[trigger] list[i])
}

// ---------------------------------------------------------------------------
// Laws of the order
// ---------------------------------------------------------------------------

/// The passages of a list start in ascending order.
pub open spec fn in_order(list: Seq<Found>) -> bool {
    forall|i: int, j: int| 0 <= i <= j < list.len() ==> list[i].start <= list[j].start
}

proof fn lemma_placed(list: Seq<Found>, f: Found)
    requires
        in_order(list),
    ensures
        in_order(placed(list, f)),
        placed(list, f).to_multiset() == list.to_multiset().insert(f),
        placed(list, f).len() == list.len() + 1,
        list.len() > 0 && f.start < list.last().start ==> placed(list, f).last() == list.last(),
        list.len() == 0 || list.last().start <= f.start ==> placed(list, f).last() == f,
    decreases list.len(),
{
    broadcast use vstd::seq_lib::group_to_multiset_ensures;

    if list.len() == 0 {
        assert(seq![f] =~= list.push(f));
    } else if list.last().start > f.start {
        lemma_placed(list.drop_last(), f);
        assert(list.drop_last().push(list.last()) =~= list);
        assert(list.to_multiset() =~= list.drop_last().to_multiset().insert(list.last()));
        assert(placed(list, f).to_multiset() =~= list.to_multiset().insert(f));
    }
}

/// Ordering the passages by position loses none, adds none, and puts them in ascending order of
/// where they start.
pub proof fn law_by_position(list: Seq<Found>)
    ensures
        in_order(by_position(list)),
        by_position(list).to_multiset() == list.to_multiset(),
        by_position(list).len() == list.len(),
    decreases list.len(),
{
    broadcast use vstd::seq_lib::group_to_multiset_ensures;

    if list.len() > 0 {
        law_by_position(list.drop_last());
        lemma_placed(by_position(list.drop_last()), list.last());
        assert(list.drop_last().push(list.last()) =~= list);
        assert(list.to_multiset() =~= list.drop_last().to_multiset().insert(list.last()));
    } else {
        assert(by_position(list) =~= list);
    }
}

// ---------------------------------------------------------------------------
// Scanning
// ---------------------------------------------------------------------------

/// A passage of the text, by byte offsets, and what gave it away.
#[derive(Debug, Clone, Copy)]
pub struct Finding {
    /// What gave the passage away.
    pub kind: SuspicionKind,
    /// Where the passage starts.
    pub start: usize,
    /// Where the passage ends.
    pub end: usize,
}

impl View for Finding {
    type V = Found;

    open spec fn view(&self) -> Found {
        Found { kind: self.kind, start: self.start as int, end: self.end as int }
    }
}

/// The passages of a list.
pub open spec fn found(v: Seq<Finding>) -> Seq<Found> {
    v.map_values(|f: Finding| f@)
}

/// The list was extended by `more`, and every new passage can be cut out of the text.
pub open spec fn extended(
    text: Seq<char>,
    before: Seq<Finding>,
    after: Seq<Finding>,
    more: Seq<Found>,
) -> bool {
    &&& found(after) == found(before) + more
    &&& all_in_text(text, more)
}

/// Adds a passage to a list.
fn push_finding(text: &str, out: &mut Vec<Finding>, f: Finding)
    requires
        in_text(text@, f@),
    ensures
        extended(text@, old(out)@, final(out)@, seq![f@]),
{
    out.push(f);
    assert(found(out@) =~= found(old(out)@) + seq![f@]);
}

/// The passage from `start` to the end of the window.
fn passage_of(text: &str, kind: SuspicionKind, start: usize, from: usize, width: usize) -> (r:
    Finding)
    requires
        offsets::boundary(text@, start as int),
        start <= from,
    ensures
        r@ == passage(text@, kind, start as int, from as int, width as int),
        in_text(text@, r@),
{
    proof {
        offsets::lemma_boundary_ends(text@);
    }
    let len: usize = byte_len(text);
    let end: usize = if from < len && width < len - from {
        from + width
    } else {
        len
    };
    proof {
        offsets::lemma_ceil_boundary(text@, end as int);
    }
    Finding { kind, start, end: ceil_of(text, end) }
}

/// The first action verb that stands at `at`.
fn first_verb(low: &[u8], at: usize) -> (r: Option<usize>)
    ensures
        match r {
            Some(i) => i < ACTION_VERBS@.len() && verb_from(low@, at as int, 0) == Some(i as int),
            None => verb_from(low@, at as int, 0) is None,
        },
{
    let mut i: usize = 0;
    while i < ACTION_VERBS.len()
        invariant
            i <= ACTION_VERBS@.len(),
            verb_from(low@, at as int, 0) == verb_from(low@, at as int, i as int),
        decreases ACTION_VERBS@.len() - i,
    {
        if bytes_match_at(low, ACTION_VERBS[i].as_bytes(), at) {
            return Some(i);
        }
        i += 1;
    }
    None
}

/// Collects the actions claimed after the occurrences of a trigger.
fn push_trigger_actions(text: &str, low: &[u8], trigger: &[u8], out: &mut Vec<Finding>)
    ensures
        extended(
            text@,
            old(out)@,
            final(out)@,
            trigger_actions(text@, low@, trigger@, 0),
        ),
{
    let ghost mut more: Seq<Found> = Seq::empty();
    let ghost all = trigger_actions(text@, low@, trigger@, 0);
    let mut from: usize = 0;
    let text_len: usize = byte_len(text);
    let low_len: usize = low.len();
    proof {
        assert(found(out@) =~= found(old(out)@) + more);
        assert(more + all =~= all);
    }
    while trigger.len() > 0
        invariant
            found(out@) == found(old(out)@) + more,
            all_in_text(text@, more),
            all == trigger_actions(text@, low@, trigger@, 0),
            all == more + trigger_actions(text@, low@, trigger@, from as int),
            from <= low@.len(),
            text_len == offsets::bytes(text@).len(),
            low_len == low@.len(),
        ensures
            extended(text@, old(out)@, out@, all),
        decreases low@.len() - from,
    {
        proof {
            text::lemma_find_from(low@, trigger@, from as int);
        }
        match find_bytes_from(low, trigger, from) {
            Some(at) => {
                let next: usize = at + trigger.len();
                let ghost rest = trigger_actions(text@, low@, trigger@, next as int);
                let ghost here = action_at(text@, low@, at as int, next as int);
                proof {
                    assert(all =~= (more + here) + rest);
                    offsets::lemma_floor_boundary(text@, at as int);
                    offsets::lemma_boundary_ends(text@);
                }
                match first_verb(low, next) {
                    Some(i) => {
                        let start: usize = floor_of(text, at);
                        let verb_len: usize = ACTION_VERBS[i].as_bytes().len();
                        let width: usize = if verb_len < usize::MAX - 40 {
                            verb_len + 40
                        } else {
                            usize::MAX
                        };
                        let f = passage_of(
                            text,
                            SuspicionKind::PastTenseAction,
                            start,
                            next,
                            width,
                        );
                        assert(window(text@, next as int, width as int) == window(
                            text@,
                            next as int,
                            verb_len + 40,
                        ));
                        push_finding(text, out, f);
                        assert(here =~= seq![f@]);
                    },
                    None => {},
                }
                proof {
                    assert(found(out@) =~= found(old(out)@) + (more + here));
                    more = more + here;
                }
                from = next;
            },
            None => {
                assert(all =~= more);
                break;
            },
        }
    }
}

/// Collects the passage of `width` bytes from the first occurrence of a phrase.
fn push_phrase(
    text: &str,
    low: &[u8],
    phrase: &str,
    kind: SuspicionKind,
    width: usize,
    out: &mut Vec<Finding>,
)
    requires
        phrase_fits(text@, low@, phrase@),
    ensures
        extended(
            text@,
            old(out)@,
            final(out)@,
            phrase_passage(text@, low@, phrase@, kind, width as int),
        ),
{
    match find_bytes_from(low, phrase.as_bytes(), 0) {
        Some(at) => {
            let f = passage_of(text, kind, at, at, width);
            push_finding(text, out, f);
        },
        None => {
            assert(found(out@) =~= found(old(out)@) + Seq::<Found>::empty());
        },
    }
}

/// Where the first table signal that occurs at all occurs first.
fn first_signal(low: &[u8]) -> (r: Option<usize>)
    ensures
        match r {
            Some(at) => signal_from(low@, 0) == Some(at as int) && at <= low@.len(),
            None => signal_from(low@, 0) is None,
        },
{
    let mut i: usize = 0;
    while i < TABLE_SIGNALS.len()
        invariant
            i <= TABLE_SIGNALS@.len(),
            signal_from(low@, 0) == signal_from(low@, i as int),
        decreases TABLE_SIGNALS@.len() - i,
    {
        proof {
            text::lemma_find_from(low@, offsets::bytes(TABLE_SIGNALS@[i as int]@), 0);
        }
        match find_bytes_from(low, TABLE_SIGNALS[i].as_bytes(), 0) {
            Some(at) => {
                return Some(at);
            },
            None => {},
        }
        i += 1;
    }
    None
}

/// Where the line that holds the offset `at` starts.
fn line_start_of(low: &[u8], at: usize) -> (r: usize)
    requires
        at <= low@.len(),
    ensures
        r == line_start(low@, at as int),
        r <= at,
{
    let mut i: usize = at;
    let ghost head = low@.subrange(0, at as int);
    assert(head.take(at as int) =~= head);
    while i > 0
        invariant
            i <= at <= low@.len(),
            head == low@.subrange(0, at as int),
            text::last_index_of(head, 10u8) == text::last_index_of(head.take(i as int), 10u8),
        decreases i,
    {
        assert(head.take(i as int).drop_last() =~= head.take(i - 1));
        assert(head.take(i as int).last() == low@[i - 1]);
        if low[i - 1] == 10u8 {
            return i;
        }
        i -= 1;
    }
    0
}

/// Where the line that holds the offset `at` ends.
fn line_end_of(low: &[u8], at: usize, len: usize) -> (r: usize)
    requires
        at <= low@.len(),
    ensures
        r == line_end(low@, at as int, len as int),
        r >= at || r == len,
{
    let newline: Vec<u8> = vec![10u8];
    assert(newline@ =~= seq![10u8]);
    proof {
        text::lemma_find_from(low@, newline@, at as int);
    }
    match find_bytes_from(low, newline.as_slice(), at) {
        Some(i) => i,
        None => len,
    }
}

/// Collects the line with the first table signal that occurs.
fn push_table_line(text: &str, low: &[u8], out: &mut Vec<Finding>)
    requires
        table_fits(text@, low@),
    ensures
        extended(text@, old(out)@, final(out)@, table_line(text@, low@)),
{
    match first_signal(low) {
        Some(at) => {
            let from: usize = line_start_of(low, at);
            let to: usize = line_end_of(low, at, byte_len(text));
            proof {
                offsets::lemma_boundary_ends(text@);
                offsets::lemma_floor_boundary(text@, from as int);
                offsets::lemma_ceil_boundary(text@, to as int);
            }
            let f = Finding {
                kind: SuspicionKind::StateTable,
                start: floor_of(text, from),
                end: ceil_of(text, to),
            };
            push_finding(text, out, f);
        },
        None => {
            assert(found(out@) =~= found(old(out)@) + Seq::<Found>::empty());
        },
    }
}

/// The first occurrence of a recency phrase, where a digit follows it.
fn recency_of(low: &[u8], phrase: &str) -> (r: Option<usize>)
    ensures
        match r {
            Some(at) => recency_at(low@, phrase@) == Some(at as int) && at + offsets::bytes(
                phrase@,
            ).len() <= low@.len(),
            None => recency_at(low@, phrase@) is None,
        },
{
    let needle = phrase.as_bytes();
    let low_len: usize = low.len();
    proof {
        text::lemma_find_from(low@, needle@, 0);
    }
    match find_bytes_from(low, needle, 0) {
        Some(at) => {
            let next: usize = at + needle.len();
            if next < low_len && 48 <= low[next] && low[next] <= 57 {
                Some(at)
            } else {
                None
            }
        },
        None => None,
    }
}

/// Collects the passage with a recency phrase and a number.
fn push_recency(text: &str, low: &[u8], phrase: &str, out: &mut Vec<Finding>)
    requires
        recency_fits(text@, low@, phrase@),
    ensures
        extended(
            text@,
            old(out)@,
            final(out)@,
            match recency_at(low@, phrase@) {
                Some(at) => seq![
                    passage(
                        text@,
                        SuspicionKind::Recency,
                        at,
                        at + offsets::bytes(phrase@).len(),
                        40,
                    ),
                ],
                None => Seq::empty(),
            },
        ),
{
    let low_len: usize = low.len();
    match recency_of(low, phrase) {
        Some(at) => {
            let next: usize = at + byte_len(phrase);
            let f = passage_of(text, SuspicionKind::Recency, at, next, 40);
            push_finding(text, out, f);
        },
        None => {
            assert(found(out@) =~= found(old(out)@) + Seq::<Found>::empty());
        },
    }
}

/// Everything that gives the text away, tell by tell.
fn find_tells(text: &str, low: &[u8], Ghost(lower): Ghost<Seq<char>>) -> (r: Vec<Finding>)
    requires
        scannable(text@, lower),
        low@ == offsets::bytes(lower),
    ensures
        found(r@) == tells(text@, low@),
        all_in_text(text@, found(r@)),
{
    let mut out: Vec<Finding> = Vec::new();
    let ghost mut sofar: Seq<Found> = Seq::empty();
    assert(found(out@) =~= sofar);
    let mut i: usize = 0;
    while i < TRIGGERS.len()
        invariant
            i <= TRIGGERS@.len(),
            found(out@) == sofar,
            all_in_text(text@, sofar),
            sofar == actions(text@, low@, i as int),
        decreases TRIGGERS@.len() - i,
    {
        push_trigger_actions(text, low, TRIGGERS[i].as_bytes(), &mut out);
        i += 1;
        proof {
            sofar = found(out@);
        }
    }
    push_phrase(text, low, TOTAL_TIME, SuspicionKind::TotalTime, 60, &mut out);
    proof {
        sofar = found(out@);
    }
    let ghost base = sofar;
    i = 0;
    assert(base + checkmarks(text@, low@, 0) =~= base);
    while i < CHECKMARKS.len()
        invariant
            i <= CHECKMARKS@.len(),
            scannable(text@, lower),
            low@ == offsets::bytes(lower),
            found(out@) == sofar,
            all_in_text(text@, sofar),
            sofar == base + checkmarks(text@, low@, i as int),
        decreases CHECKMARKS@.len() - i,
    {
        push_phrase(text, low, CHECKMARKS[i], SuspicionKind::CheckmarkClaim, 80, &mut out);
        i += 1;
        proof {
            sofar = found(out@);
            assert(sofar =~= base + checkmarks(text@, low@, i as int));
        }
    }
    push_table_line(text, low, &mut out);
    proof {
        sofar = found(out@);
    }
    let ghost base2 = sofar;
    i = 0;
    assert(base2 + recencies(text@, low@, 0) =~= base2);
    while i < RECENCY_PHRASES.len()
        invariant
            i <= RECENCY_PHRASES@.len(),
            scannable(text@, lower),
            low@ == offsets::bytes(lower),
            found(out@) == sofar,
            all_in_text(text@, sofar),
            sofar == base2 + recencies(text@, low@, i as int),
        decreases RECENCY_PHRASES@.len() - i,
    {
        push_recency(text, low, RECENCY_PHRASES[i], &mut out);
        i += 1;
        proof {
            sofar = found(out@);
            assert(sofar =~= base2 + recencies(text@, low@, i as int));
        }
    }
    out
}

proof fn lemma_placed_at(list: Seq<Found>, f: Found, i: int)
    requires
        0 <= i <= list.len(),
        i > 0 ==> list[i - 1].start <= f.start,
        forall|j: int| i <= j < list.len() ==> list[j].start > f.start,
    ensures
        placed(list, f) == list.insert(i, f),
    decreases list.len(),
{
    if list.len() > 0 && list.last().start > f.start {
        lemma_placed_at(list.drop_last(), f, i);
        assert(list.drop_last().insert(i, f).push(list.last()) =~= list.insert(i, f));
    } else {
        assert(i == list.len());
        assert(list.insert(i, f) =~= list.push(f));
        assert(list.len() == 0 ==> seq![f] =~= list.push(f));
    }
}

/// Orders the passages by where they start.
fn order_findings(list: &Vec<Finding>) -> (r: Vec<Finding>)
    ensures
        found(r@) == by_position(found(list@)),
{
    let mut out: Vec<Finding> = Vec::new();
    let mut n: usize = 0;
    assert(found(list@).take(0) =~= Seq::<Found>::empty());
    assert(found(out@) =~= Seq::<Found>::empty());
    while n < list.len()
        invariant
            n <= list@.len(),
            found(out@) == by_position(found(list@).take(n as int)),
        decreases list@.len() - n,
    {
        let f = list[n];
        let mut i: usize = out.len();
        while i > 0 && out[i - 1].start > f.start
            invariant
                i <= out@.len(),
                forall|j: int| i <= j < out@.len() ==> found(out@)[j].start > f@.start,
            decreases i,
        {
            i -= 1;
        }
        let ghost before = found(out@);
        proof {
            lemma_placed_at(before, f@, i as int);
            assert(found(list@).take(n + 1).drop_last() =~= found(list@).take(n as int));
        }
        out.insert(i, f);
        assert(found(out@) =~= before.insert(i as int, f@));
        n += 1;
    }
    assert(found(list@).take(n as int) =~= found(list@));
    out
}

/// The suspicions about a text, given the text in lower case.
pub fn scan_lowered(text: &str, lower: &str) -> (r: Vec<Suspicion>)
    requires
        scannable(text@, lower@),
    ensures
        suspicion_views(r@) == suspicions(text@, lower@),
{
    let list = find_tells(text, lower.as_bytes(), Ghost(lower@));
    let ordered = order_findings(&list);
    proof {
        law_by_position(found(list@));
        lemma_all_in_text(text@, found(list@), found(ordered@));
    }
    let mut out: Vec<Suspicion> = Vec::new();
    let mut i: usize = 0;
    let ghost all = suspicions_of(text@, found(ordered@));
    assert(suspicion_views(out@) =~= all.take(0));
    while i < ordered.len()
        invariant
            i <= ordered@.len(),
            all_in_text(text@, found(ordered@)),
            all == suspicions_of(text@, found(ordered@)),
            suspicion_views(out@) == all.take(i as int),
        decreases ordered@.len() - i,
    {
        let f = ordered[i];
        assert(found(ordered@)[i as int] == f@);
        let ghost before = suspicion_views(out@);
        let s = Suspicion {
            kind: f.kind,
            matched_text: trimmed(slice_text(text, f.start, f.end)),
        };
        out.push(s);
        proof {
            assert(suspicion_views(out@) =~= before.push(s@));
            assert(s@ =~= all[i as int]);
            assert(all.take(i + 1) =~= all.take(i as int).push(all[i as int]));
        }
        i += 1;
    }
    assert(all.take(all.len() as int) =~= all);
    out
}

/// Lists with the same passages: where the passages of one can be cut out, so can those of the
/// other.
proof fn lemma_all_in_text(text: Seq<char>, a: Seq<Found>, b: Seq<Found>)
    requires
        all_in_text(text, a),
        a.to_multiset() == b.to_multiset(),
    ensures
        all_in_text(text, b),
{
    broadcast use vstd::seq_lib::group_to_multiset_ensures;

    assert forall|i: int| 0 <= i < b.len() implies in_text(text, #[trigger] b[i]) by {
        assert(b.contains(b[i]));
        assert(b.to_multiset().count(b[i]) > 0);
        assert(a.to_multiset().count(b[i]) > 0);
        assert(a.contains(b[i]));
    }
}

// ---------------------------------------------------------------------------
// Lower case
// ---------------------------------------------------------------------------

/// The small letter of an ASCII capital.
pub open spec fn ascii_lower_char(c: char) -> char {
    if 'A' <= c <= 'Z' {
        ((c as u32) + 32) as char
    } else {
        c
    }
}

/// The capital of a small ASCII letter.
pub open spec fn ascii_upper_char(c: char) -> char {
    if 'a' <= c <= 'z' {
        ((c as u32) - 32) as char
    } else {
        c
    }
}

/// The text with its ASCII capitals made small.
pub open spec fn ascii_lower(s: Seq<char>) -> Seq<char> {
    s.map_values(|c: char| ascii_lower_char(c))
}

/// The text with its small ASCII letters made capital.
pub open spec fn ascii_upper(s: Seq<char>) -> Seq<char> {
    s.map_values(|c: char| ascii_upper_char(c))
}

/// The text in lower case, as `str::to_lowercase` gives it.
pub uninterp spec fn lowercase(s: Seq<char>) -> Seq<char>;

/// `str::to_lowercase`. The contract says that the result depends on the text alone, and that of an
/// ASCII text the capital letters become small ones and all else stays.
#[verifier::external_body]
fn to_lower(s: &str) -> (r: String)
    ensures
        r@ == lowercase(s@),
        is_ascii_chars(s@) ==> r@ == ascii_lower(s@),
{
    s.to_lowercase()
}

/// The first occurrence of the phrase lies at a character boundary of the text.
fn phrase_is_fit(text: &str, low: &[u8], phrase: &str) -> (r: bool)
    ensures
        r == phrase_fits(text@, low@, phrase@),
{
    match find_bytes_from(low, phrase.as_bytes(), 0) {
        Some(at) => text.is_char_boundary(at),
        None => true,
    }
}

/// The offsets found in lower case can be used on the text.
pub fn is_scannable(text: &str, lower: &str) -> (r: bool)
    ensures
        r == scannable(text@, lower@),
{
    let low = lower.as_bytes();
    if !phrase_is_fit(text, low, TOTAL_TIME) {
        return false;
    }
    let mut i: usize = 0;
    while i < CHECKMARKS.len()
        invariant
            i <= CHECKMARKS@.len(),
            low@ == offsets::bytes(lower@),
            forall|k: int| 0 <= k < i ==> phrase_fits(text@, low@, #[trigger] CHECKMARKS@[k]@),
        decreases CHECKMARKS@.len() - i,
    {
        if !phrase_is_fit(text, low, CHECKMARKS[i]) {
            return false;
        }
        i += 1;
    }
    match first_signal(low) {
        Some(at) => {
            let len: usize = byte_len(text);
            if line_end_of(low, at, len) > len {
                return false;
            }
        },
        None => {},
    }
    i = 0;
    while i < RECENCY_PHRASES.len()
        invariant
            i <= RECENCY_PHRASES@.len(),
            low@ == offsets::bytes(lower@),
            forall|k: int|
                0 <= k < i ==> recency_fits(text@, low@, #[trigger] RECENCY_PHRASES@[k]@),
        decreases RECENCY_PHRASES@.len() - i,
    {
        match recency_of(low, RECENCY_PHRASES[i]) {
            Some(at) => {
                if !text.is_char_boundary(at) {
                    assert(!recency_fits(text@, low@, RECENCY_PHRASES@[i as int]@));
                    return false;
                }
            },
            None => {},
        }
        i += 1;
    }
    true
}

/// Scan text for fabrication tells. Returns suspicions ordered by position in the text. Empty if
/// nothing matched.
pub fn scan(text: &str) -> (r: Vec<Suspicion>)
    requires
        is_ascii_chars(text@) || scannable(text@, lowercase(text@)),
    ensures
        suspicion_views(r@) == suspicions(text@, lowercase(text@)),
        is_ascii_chars(text@) ==> suspicion_views(r@) == suspicions(text@, ascii_lower(text@)),
{
    let lower = to_lower(text);
    proof {
        if is_ascii_chars(text@) {
            law_ascii_is_scannable(text@);
        }
    }
    scan_lowered(text, lower.as_str())
}

/// Scans a text where the offsets found in lower case can be used on it; otherwise `None`.
pub fn scan_checked(text: &str) -> (r: Option<Vec<Suspicion>>)
    ensures
        match r {
            Some(v) => scannable(text@, lowercase(text@)) && suspicion_views(v@) == suspicions(
                text@,
                lowercase(text@),
            ),
            None => !scannable(text@, lowercase(text@)),
        },
        is_ascii_chars(text@) ==> r is Some && suspicion_views((r->0)@) == suspicions(
            text@,
            ascii_lower(text@),
        ),
{
    let lower = to_lower(text);
    proof {
        if is_ascii_chars(text@) {
            law_ascii_is_scannable(text@);
        }
    }
    if is_scannable(text, lower.as_str()) {
        Some(scan(text))
    } else {
        None
    }
}

// ---------------------------------------------------------------------------
// Laws of the case
// ---------------------------------------------------------------------------

/// The case of a letter does not take a text out of ASCII, or make white space of it.
proof fn lemma_ascii_lower(s: Seq<char>)
    requires
        is_ascii_chars(s),
    ensures
        is_ascii_chars(ascii_lower(s)),
        is_ascii_chars(ascii_upper(s)),
        ascii_lower(ascii_upper(s)) == ascii_lower(s),
{
    assert forall|i: int| 0 <= i < s.len() implies '\0' <= #[trigger] ascii_lower(s)[i] <= '\u{7f}'
        && '\0' <= ascii_upper(s)[i] <= '\u{7f}' && ascii_lower_char(ascii_upper(s)[i])
        == ascii_lower(s)[i] by {
        assert('\0' <= s[i] <= '\u{7f}');
    }
    assert(ascii_lower(ascii_upper(s)) =~= ascii_lower(s));
}

/// In an ASCII text every offset is a boundary.
proof fn lemma_ascii_boundary(s: Seq<char>, i: int)
    requires
        is_ascii_chars(s),
    ensures
        offsets::bytes(s).len() == s.len(),
        offsets::boundary(s, i) <==> 0 <= i <= s.len(),
{
    let b = offsets::bytes(s);
    is_ascii_chars_encode_utf8(s);
    offsets::lemma_boundary_ends(s);
    if 0 <= i < b.len() {
        assert('\0' <= s[i] <= '\u{7f}');
        assert(s[i] as u8 == b[i]);
        assert(b[i] < 128);
        let x = b[i];
        assert(!is_continuation_byte(x)) by {
            assert(x < 128 ==> !(0x80 <= x && x <= 0xbf)) by (bit_vector);
        }
        is_char_boundary_iff_not_is_continuation_byte(b, i);
    }
}

proof fn lemma_ascii_floor(s: Seq<char>, i: int)
    requires
        is_ascii_chars(s),
        0 <= i <= s.len(),
    ensures
        offsets::floor_boundary(s, i) == i,
        offsets::ceil_boundary(s, i) == i,
{
    lemma_ascii_boundary(s, i);
}

/// In an ASCII text, offsets count characters.
proof fn lemma_ascii_between(s: Seq<char>, from: int, to: int)
    requires
        is_ascii_chars(s),
        0 <= from <= to <= s.len(),
    ensures
        offsets::between(s, from, to) == s.subrange(from, to),
{
    let part = s.subrange(from, to);
    lemma_ascii_boundary(s, from);
    lemma_ascii_boundary(s, to);
    offsets::lemma_between(s, from, to);
    assert(is_ascii_chars(part));
    is_ascii_chars_encode_utf8(s);
    is_ascii_chars_encode_utf8(part);
    assert forall|i: int| 0 <= i < part.len() implies offsets::bytes(part)[i] == offsets::bytes(
        s,
    ).subrange(from, to)[i] by {
        assert(part[i] == s[from + i]);
        assert(part[i] as u8 == offsets::bytes(part)[i]);
        assert(s[from + i] as u8 == offsets::bytes(s)[from + i]);
    }
    assert(offsets::bytes(part) =~= offsets::bytes(s).subrange(from, to));
    offsets::lemma_bytes_injective(offsets::between(s, from, to), part);
}

/// The offsets found in the lower case of an ASCII text can always be used on it.
pub proof fn law_ascii_is_scannable(text: Seq<char>)
    requires
        is_ascii_chars(text),
    ensures
        scannable(text, ascii_lower(text)),
{
    let lower = ascii_lower(text);
    let low = offsets::bytes(lower);
    lemma_ascii_lower(text);
    lemma_ascii_boundary(lower, 0);
    lemma_ascii_boundary(text, 0);
    assert forall|phrase: Seq<char>|
        #![trigger phrase_fits(text, low, phrase)]
        #![trigger recency_fits(text, low, phrase)]
        phrase_fits(text, low, phrase) && recency_fits(text, low, phrase) by {
        text::lemma_find_from(low, offsets::bytes(phrase), 0);
        if let Some(at) = text::find(low, offsets::bytes(phrase)) {
            lemma_ascii_boundary(text, at);
        }
    }
    lemma_signal_from(low, 0);
    if let Some(at) = signal_from(low, 0) {
        text::lemma_find_from(low, seq![10u8], at);
    }
}

proof fn lemma_signal_from(low: Seq<u8>, i: int)
    requires
        0 <= i,
    ensures
        match signal_from(low, i) {
            Some(at) => 0 <= at <= low.len(),
            None => true,
        },
    decreases TABLE_SIGNALS@.len() - i,
{
    if i < TABLE_SIGNALS@.len() {
        text::lemma_find_from(low, offsets::bytes(TABLE_SIGNALS@[i]@), 0);
        lemma_signal_from(low, i + 1);
    }
}

/// Two ASCII texts that differ in the case of letters only.
pub open spec fn same_but_case(a: Seq<char>, b: Seq<char>) -> bool {
    is_ascii_chars(a) && is_ascii_chars(b) && ascii_lower(a) == ascii_lower(b)
}

/// The passages lie in a text of `len` bytes.
spec fn within(list: Seq<Found>, len: int) -> bool {
    forall|i: int| 0 <= i < list.len() ==> 0 <= (#[trigger] list[i]).start <= list[i].end <= len
}

proof fn lemma_within_added(a: Seq<Found>, b: Seq<Found>, len: int)
    requires
        within(a, len),
        within(b, len),
    ensures
        within(a + b, len),
{
    let all = a + b;
    assert forall|i: int| 0 <= i < all.len() implies 0 <= (#[trigger] all[i]).start <= all[i].end
        <= len by {
        if i < a.len() {
            assert(all[i] == a[i]);
        } else {
            assert(all[i] == b[i - a.len()]);
        }
    }
}

proof fn lemma_case_passage(
    a: Seq<char>,
    b: Seq<char>,
    kind: SuspicionKind,
    start: int,
    from: int,
    width: int,
)
    requires
        same_but_case(a, b),
        0 <= start <= from <= a.len(),
        0 <= width,
    ensures
        passage(a, kind, start, from, width) == passage(b, kind, start, from, width),
        start <= passage(a, kind, start, from, width).end <= a.len(),
{
    assert(ascii_lower(a).len() == ascii_lower(b).len());
    lemma_ascii_boundary(a, 0);
    lemma_ascii_boundary(b, 0);
    lemma_ascii_floor(a, window(a, from, width));
    lemma_ascii_floor(b, window(b, from, width));
}

proof fn lemma_case_trigger(a: Seq<char>, b: Seq<char>, low: Seq<u8>, trigger: Seq<u8>, from: int)
    requires
        same_but_case(a, b),
        low.len() == a.len(),
        0 <= from,
    ensures
        trigger_actions(a, low, trigger, from) == trigger_actions(b, low, trigger, from),
        within(trigger_actions(a, low, trigger, from), a.len() as int),
    decreases low.len() - from,
{
    assert(ascii_lower(a).len() == ascii_lower(b).len());
    text::lemma_find_from(low, trigger, from);
    if let Some(at) = text::find_from(low, trigger, from) {
        if 0 < trigger.len() {
            let next = at + trigger.len();
            lemma_case_trigger(a, b, low, trigger, next);
            lemma_ascii_floor(a, at);
            lemma_ascii_floor(b, at);
            if let Some(i) = verb_from(low, next, 0) {
                lemma_case_passage(
                    a,
                    b,
                    SuspicionKind::PastTenseAction,
                    at,
                    next,
                    offsets::bytes(ACTION_VERBS@[i]@).len() as int + 40,
                );
            }
            lemma_within_added(
                action_at(a, low, at, next),
                trigger_actions(a, low, trigger, next),
                a.len() as int,
            );
        }
    }
}

proof fn lemma_case_actions(a: Seq<char>, b: Seq<char>, low: Seq<u8>, n: int)
    requires
        same_but_case(a, b),
        low.len() == a.len(),
    ensures
        actions(a, low, n) == actions(b, low, n),
        within(actions(a, low, n), a.len() as int),
    decreases n,
{
    if n > 0 {
        let trigger = offsets::bytes(TRIGGERS@[n - 1]@);
        lemma_case_actions(a, b, low, n - 1);
        lemma_case_trigger(a, b, low, trigger, 0);
        lemma_within_added(
            actions(a, low, n - 1),
            trigger_actions(a, low, trigger, 0),
            a.len() as int,
        );
    }
}

proof fn lemma_case_phrase(
    a: Seq<char>,
    b: Seq<char>,
    low: Seq<u8>,
    phrase: Seq<char>,
    kind: SuspicionKind,
    width: int,
)
    requires
        same_but_case(a, b),
        low.len() == a.len(),
        0 <= width,
    ensures
        phrase_passage(a, low, phrase, kind, width) == phrase_passage(b, low, phrase, kind, width),
        within(phrase_passage(a, low, phrase, kind, width), a.len() as int),
{
    text::lemma_find_from(low, offsets::bytes(phrase), 0);
    if let Some(at) = text::find(low, offsets::bytes(phrase)) {
        lemma_case_passage(a, b, kind, at, at, width);
    }
}

proof fn lemma_case_checkmarks(a: Seq<char>, b: Seq<char>, low: Seq<u8>, n: int)
    requires
        same_but_case(a, b),
        low.len() == a.len(),
    ensures
        checkmarks(a, low, n) == checkmarks(b, low, n),
        within(checkmarks(a, low, n), a.len() as int),
    decreases n,
{
    if n > 0 {
        let phrase = CHECKMARKS@[n - 1]@;
        lemma_case_checkmarks(a, b, low, n - 1);
        lemma_case_phrase(a, b, low, phrase, SuspicionKind::CheckmarkClaim, 80);
        lemma_within_added(
            checkmarks(a, low, n - 1),
            phrase_passage(a, low, phrase, SuspicionKind::CheckmarkClaim, 80),
            a.len() as int,
        );
    }
}

proof fn lemma_case_table(a: Seq<char>, b: Seq<char>, low: Seq<u8>)
    requires
        same_but_case(a, b),
        low.len() == a.len(),
    ensures
        table_line(a, low) == table_line(b, low),
        within(table_line(a, low), a.len() as int),
{
    assert(ascii_lower(a).len() == ascii_lower(b).len());
    lemma_ascii_boundary(a, 0);
    lemma_ascii_boundary(b, 0);
    lemma_signal_from(low, 0);
    if let Some(at) = signal_from(low, 0) {
        text::lemma_last_index_of(low.subrange(0, at), 10u8);
        text::lemma_find_from(low, seq![10u8], at);
        let from = line_start(low, at);
        let to = line_end(low, at, a.len() as int);
        lemma_ascii_floor(a, from);
        lemma_ascii_floor(b, from);
        lemma_ascii_floor(a, to);
        lemma_ascii_floor(b, to);
    }
}

proof fn lemma_case_recencies(a: Seq<char>, b: Seq<char>, low: Seq<u8>, n: int)
    requires
        same_but_case(a, b),
        low.len() == a.len(),
    ensures
        recencies(a, low, n) == recencies(b, low, n),
        within(recencies(a, low, n), a.len() as int),
    decreases n,
{
    if n > 0 {
        let phrase = RECENCY_PHRASES@[n - 1]@;
        lemma_case_recencies(a, b, low, n - 1);
        text::lemma_find_from(low, offsets::bytes(phrase), 0);
        let here: Seq<Found> = match recency_at(low, phrase) {
            Some(at) => seq![
                passage(a, SuspicionKind::Recency, at, at + offsets::bytes(phrase).len(), 40),
            ],
            None => Seq::empty(),
        };
        if let Some(at) = recency_at(low, phrase) {
            lemma_case_passage(
                a,
                b,
                SuspicionKind::Recency,
                at,
                at + offsets::bytes(phrase).len(),
                40,
            );
        }
        lemma_within_added(recencies(a, low, n - 1), here, a.len() as int);
    }
}

proof fn lemma_case_tells(a: Seq<char>, b: Seq<char>, low: Seq<u8>)
    requires
        same_but_case(a, b),
        low.len() == a.len(),
    ensures
        tells(a, low) == tells(b, low),
        within(tells(a, low), a.len() as int),
{
    let len = a.len() as int;
    let t1 = actions(a, low, TRIGGERS@.len() as int);
    let t2 = phrase_passage(a, low, TOTAL_TIME@, SuspicionKind::TotalTime, 60);
    let t3 = checkmarks(a, low, CHECKMARKS@.len() as int);
    let t4 = table_line(a, low);
    let t5 = recencies(a, low, RECENCY_PHRASES@.len() as int);
    lemma_case_actions(a, b, low, TRIGGERS@.len() as int);
    lemma_case_phrase(a, b, low, TOTAL_TIME@, SuspicionKind::TotalTime, 60);
    lemma_case_checkmarks(a, b, low, CHECKMARKS@.len() as int);
    lemma_case_table(a, b, low);
    lemma_case_recencies(a, b, low, RECENCY_PHRASES@.len() as int);
    lemma_within_added(t1, t2, len);
    lemma_within_added(t1 + t2, t3, len);
    lemma_within_added(t1 + t2 + t3, t4, len);
    lemma_within_added(t1 + t2 + t3 + t4, t5, len);
}

proof fn lemma_within_same(a: Seq<Found>, b: Seq<Found>, len: int)
    requires
        within(a, len),
        a.to_multiset() == b.to_multiset(),
    ensures
        within(b, len),
{
    broadcast use vstd::seq_lib::group_to_multiset_ensures;

    assert forall|i: int| 0 <= i < b.len() implies 0 <= (#[trigger] b[i]).start <= b[i].end
        <= len by {
        assert(b.contains(b[i]));
        assert(a.to_multiset().count(b[i]) > 0);
        assert(a.contains(b[i]));
    }
}

/// Trimming does not look at the case.
proof fn lemma_lower_trim(s: Seq<char>)
    requires
        is_ascii_chars(s),
    ensures
        ascii_lower(text::trim(s)) == text::trim(ascii_lower(s)),
{
    lemma_lower_strip_start(s);
    lemma_lower_strip_end(text::strip_start(s, text::CharClass::White));
}

proof fn lemma_lower_strip_start(s: Seq<char>)
    requires
        is_ascii_chars(s),
    ensures
        is_ascii_chars(text::strip_start(s, text::CharClass::White)),
        ascii_lower(text::strip_start(s, text::CharClass::White)) == text::strip_start(
            ascii_lower(s),
            text::CharClass::White,
        ),
    decreases s.len(),
{
    if s.len() > 0 {
        assert('\0' <= s[0] <= '\u{7f}');
        assert(ascii_lower(s)[0] == ascii_lower_char(s[0]));
        assert(text::is_white(ascii_lower_char(s[0])) == text::is_white(s[0]));
        if text::is_white(s[0]) {
            assert(is_ascii_chars(s.drop_first()));
            lemma_lower_strip_start(s.drop_first());
            assert(ascii_lower(s).drop_first() =~= ascii_lower(s.drop_first()));
        }
    }
}

proof fn lemma_lower_strip_end(s: Seq<char>)
    requires
        is_ascii_chars(s),
    ensures
        ascii_lower(text::strip_end(s, text::CharClass::White)) == text::strip_end(
            ascii_lower(s),
            text::CharClass::White,
        ),
    decreases s.len(),
{
    if s.len() > 0 {
        let c = s[s.len() - 1];
        assert('\0' <= c <= '\u{7f}');
        assert(ascii_lower(s).last() == ascii_lower_char(c));
        assert(text::is_white(ascii_lower_char(c)) == text::is_white(c));
        if text::is_white(c) {
            assert(is_ascii_chars(s.drop_last()));
            lemma_lower_strip_end(s.drop_last());
            assert(ascii_lower(s).drop_last() =~= ascii_lower(s.drop_last()));
        }
    }
}

/// Suspicions of the same kinds about passages that differ in the case of letters only.
pub open spec fn alike_but_case(a: Seq<SuspicionView>, b: Seq<SuspicionView>) -> bool {
    &&& a.len() == b.len()
    &&& forall|i: int|
        0 <= i < a.len() ==> (#[trigger] a[i]).kind == b[i].kind && ascii_lower(a[i].matched_text)
            == ascii_lower(b[i].matched_text)
}

/// Two ASCII texts that differ in the case of letters only give the same suspicions, but for the
/// case of the passages.
pub proof fn law_case_does_not_matter(a: Seq<char>, b: Seq<char>)
    requires
        same_but_case(a, b),
    ensures
        alike_but_case(suspicions(a, ascii_lower(a)), suspicions(b, ascii_lower(b))),
{
    let lower = ascii_lower(a);
    let low = offsets::bytes(lower);
    assert(ascii_lower(b).len() == b.len());
    lemma_ascii_lower(a);
    lemma_ascii_boundary(lower, 0);
    lemma_case_tells(a, b, low);
    let list = by_position(tells(a, low));
    law_by_position(tells(a, low));
    lemma_within_same(tells(a, low), list, a.len() as int);
    let sa = suspicions(a, ascii_lower(a));
    let sb = suspicions(b, ascii_lower(b));
    assert forall|i: int| 0 <= i < sa.len() implies (#[trigger] sa[i]).kind == sb[i].kind
        && ascii_lower(sa[i].matched_text) == ascii_lower(sb[i].matched_text) by {
        let f = list[i];
        lemma_ascii_between(a, f.start, f.end);
        lemma_ascii_between(b, f.start, f.end);
        let pa = a.subrange(f.start, f.end);
        let pb = b.subrange(f.start, f.end);
        assert(is_ascii_chars(pa));
        assert(is_ascii_chars(pb));
        assert(ascii_lower(pa) =~= ascii_lower(a).subrange(f.start, f.end));
        assert(ascii_lower(pb) =~= ascii_lower(b).subrange(f.start, f.end));
        lemma_lower_trim(pa);
        lemma_lower_trim(pb);
    }
}

/// An ASCII text in capitals gives the suspicions of the text, but for the case of the passages.
pub proof fn law_capitals_do_not_hide(text: Seq<char>)
    requires
        is_ascii_chars(text),
    ensures
        is_ascii_chars(ascii_upper(text)),
        scannable(ascii_upper(text), ascii_lower(ascii_upper(text))),
        alike_but_case(
            suspicions(text, ascii_lower(text)),
            suspicions(ascii_upper(text), ascii_lower(ascii_upper(text))),
        ),
{
    lemma_ascii_lower(text);
    law_ascii_is_scannable(ascii_upper(text));
    law_case_does_not_matter(text, ascii_upper(text));
}

// ---------------------------------------------------------------------------
// Message content
// ---------------------------------------------------------------------------

/// The text of a text block.
pub open spec fn block_text(b: json::JsonView) -> Option<Seq<char>> {
    if b.field_is("type"@, "text"@) {
        b.field_text("text"@)
    } else {
        None
    }
}

/// Adds a text to the texts so far, on a line of its own.
pub open spec fn text_added(out: Seq<char>, t: Seq<char>) -> Seq<char> {
    if out.len() == 0 {
        t
    } else {
        out.push('\n') + t
    }
}

/// The texts of the text blocks, each on a line of its own.
pub open spec fn block_texts(blocks: Seq<json::JsonView>) -> Seq<char>
    decreases blocks.len(),
{
    if blocks.len() == 0 {
        Seq::empty()
    } else {
        match block_text(blocks.last()) {
            Some(t) => text_added(block_texts(blocks.drop_last()), t),
            None => block_texts(blocks.drop_last()),
        }
    }
}

/// The text of a message content: a string, or an array of blocks.
pub open spec fn content_text(content: json::JsonView) -> Seq<char> {
    match content {
        json::JsonView::Str(s) => s,
        other => block_texts(other.items()),
    }
}

/// Walk an assistant content array and return all text blocks concatenated. Returns "" if
/// content is missing or has no text.
pub fn extract_text(content: &Json) -> (r: String)
    ensures
        r@ == content_text(content@),
{
    match content.as_text() {
        Some(s) => {
            return owned(s);
        },
        None => {},
    }
    let mut out = String::new();
    match content.as_items() {
        Some(blocks) => {
            let ghost all = json::views(blocks@);
            let mut i: usize = 0;
            assert(all.take(0) =~= Seq::<json::JsonView>::empty());
            while i < blocks.len()
                invariant
                    i <= blocks@.len(),
                    all == json::views(blocks@),
                    out@ == block_texts(all.take(i as int)),
                decreases blocks@.len() - i,
            {
                proof {
                    assert(all.take(i + 1).drop_last() =~= all.take(i as int));
                    assert(all.take(i + 1).last() == blocks@[i as int]@);
                }
                if blocks[i].has("type", "text") {
                    match blocks[i].get_text("text") {
                        Some(t) => {
                            if byte_len(out.as_str()) > 0 {
                                out.push('\n');
                            }
                            proof {
                                offsets::lemma_bytes_empty(block_texts(all.take(i as int)));
                                assert(Seq::<char>::empty() + t@ =~= t@);
                            }
                            out.append(t);
                        },
                        None => {},
                    }
                }
                i += 1;
            }
            assert(all.take(all.len() as int) =~= all);
        },
        None => {},
    }
    out
}

/// How many of the blocks are of the given type.
pub open spec fn blocks_of_type(blocks: Seq<json::JsonView>, kind: Seq<char>) -> nat
    decreases blocks.len(),
{
    if blocks.len() == 0 {
        0
    } else {
        blocks_of_type(blocks.drop_last(), kind) + if blocks.last().field_is("type"@, kind) {
            1nat
        } else {
            0nat
        }
    }
}

/// How many tool calls a message content holds.
pub open spec fn tool_use_count(content: json::JsonView) -> nat {
    blocks_of_type(content.items(), "tool_use"@)
}

/// Count tool_use blocks in an assistant content array. Used to detect "claims of work without
/// any tool ran" — the strongest fabrication signal.
pub fn count_tool_uses(content: &Json) -> (r: usize)
    ensures
        r == tool_use_count(content@),
{
    match content.as_items() {
        Some(blocks) => {
            let ghost all = json::views(blocks@);
            let mut n: usize = 0;
            let mut i: usize = 0;
            assert(all.take(0) =~= Seq::<json::JsonView>::empty());
            while i < blocks.len()
                invariant
                    n <= i <= blocks@.len(),
                    all == json::views(blocks@),
                    n == blocks_of_type(all.take(i as int), "tool_use"@),
                decreases blocks@.len() - i,
            {
                proof {
                    assert(all.take(i + 1).drop_last() =~= all.take(i as int));
                    assert(all.take(i + 1).last() == blocks@[i as int]@);
                }
                if blocks[i].has("type", "tool_use") {
                    n += 1;
                }
                i += 1;
            }
            assert(all.take(all.len() as int) =~= all);
            n
        },
        None => 0,
    }
}

// ---------------------------------------------------------------------------
// Flagging
// ---------------------------------------------------------------------------

/// The suspicions, held against the number of tools that ran, call for a warning: there is one,
/// and fewer than two tools ran.
pub open spec fn flagged(s: Seq<SuspicionView>, tools: int) -> bool {
    s.len() > 0 && tools < 2
}

/// A warning needs a suspicion and fewer than two tools; further suspicions or fewer tools do not
/// lift it.
pub proof fn law_flagged(s: Seq<SuspicionView>, more: Seq<SuspicionView>, tools: nat, fewer: nat)
    requires
        flagged(s, tools as int),
    ensures
        s.len() > 0,
        tools < 2,
        fewer <= tools ==> flagged(s + more, fewer as int),
{
}

/// Decide whether to flag based on suspicions and tool use count. Flag if any suspicion fired and
/// fewer than two tools ran in the turn. If many tools ran, the agent probably did real work and
/// the past-tense phrasing is descriptive rather than fabricated.
pub fn should_flag(suspicions: &[Suspicion], tool_uses_in_turn: usize) -> (r: bool)
    ensures
        r == flagged(suspicion_views(suspicions@), tool_uses_in_turn as int),
        r == (suspicions@.len() > 0 && tool_uses_in_turn < 2),
{
    suspicions.len() > 0 && tool_uses_in_turn < 2
}

// ---------------------------------------------------------------------------
// The warning
// ---------------------------------------------------------------------------

/// A horizontal rule.
pub const RULE: &'static str = "════════════════════════════════════════════════════════════════\n";

/// How many suspicions a warning lists.
pub const LISTED: usize = 8;

/// How many bytes of a passage a warning shows.
pub const SHOWN_BYTES: usize = 100;

/// A passage, cut after its first bytes where it is longer: at the last character boundary within
/// `max`.
pub open spec fn preview(s: Seq<char>, max: int) -> Seq<char> {
    if offsets::bytes(s).len() > max {
        offsets::between(s, 0, offsets::floor_boundary(s, max)) + "…"@
    } else {
        s
    }
}

/// One line of a warning.
pub open spec fn warning_line(s: SuspicionView, number: nat) -> Seq<char> {
    "  "@ + numbers::decimal(number) + ". ["@ + s.kind.name() + "] "@ + preview(
        s.matched_text,
        SHOWN_BYTES as int,
    ) + "\n"@
}

/// The lines for the first `n` suspicions.
pub open spec fn warning_lines(s: Seq<SuspicionView>, n: int) -> Seq<char>
    decreases n,
{
    if n <= 0 {
        Seq::empty()
    } else {
        warning_lines(s, n - 1) + warning_line(s[n - 1], n as nat)
    }
}

/// How many suspicions a warning about `n` of them lists.
pub open spec fn listed(n: int) -> int {
    if n < LISTED {
        n
    } else {
        LISTED as int
    }
}

/// What a warning says of the suspicions that it does not list.
pub open spec fn warning_rest(n: int) -> Seq<char> {
    if n > LISTED {
        "  …and "@ + numbers::decimal((n - LISTED) as nat) + " more\n"@
    } else {
        Seq::empty()
    }
}

/// The warning.
pub open spec fn warning(s: Seq<SuspicionView>, tools: nat) -> Seq<char> {
    "\n"@ + RULE@ + "⚠  FABRICATION CHECK — KERNEL WARNING\n"@ + RULE@
        + "The assistant's response below contains "@ + numbers::decimal(s.len())
        + " pattern(s) that\n"@ + "look like claims of completed work, but the model called\n"@
        + numbers::decimal(tools)
        + " tool(s) in this turn. Verify before trusting the response.\n\n"@
        + "Suspicious phrases:\n"@ + warning_lines(s, listed(s.len() as int)) + warning_rest(
        s.len() as int,
    ) + "\nIf the claims above are real, run a verification command\n"@
        + "(ls, stat, cat) to confirm. If they're not, the agent\n"@
        + "fabricated. Either way, do NOT trust without verifying.\n"@ + RULE@ + "\n"@
}

/// A passage, cut after its first bytes where it is longer.
pub fn preview_of(s: &str, max: usize) -> (r: String)
    ensures
        r@ == preview(s@, max as int),
{
    if byte_len(s) > max {
        proof {
            offsets::lemma_boundary_ends(s@);
            offsets::lemma_floor_boundary(s@, max as int);
        }
        let mut out = owned(slice_text(s, 0, floor_of(s, max)));
        out.append("…");
        out
    } else {
        owned(s)
    }
}

/// Format a visible warning for the operator. Prepended to the assistant's text before printing.
/// Loud, hard to miss.
pub fn format_warning(suspicions: &[Suspicion], tool_uses_in_turn: usize) -> (r: String)
    ensures
        r@ == warning(suspicion_views(suspicions@), tool_uses_in_turn as nat),
{
    let ghost all = suspicion_views(suspicions@);
    let count: usize = suspicions.len();
    let shown: usize = if count < LISTED {
        count
    } else {
        LISTED
    };
    let mut lines = String::new();
    let mut i: usize = 0;
    while i < shown
        invariant
            i <= shown <= suspicions@.len(),
            shown <= LISTED,
            all == suspicion_views(suspicions@),
            lines@ == warning_lines(all, i as int),
        decreases shown - i,
    {
        let mut line = owned("  ");
        line.append(size_text(i + 1).as_str());
        line.append(". [");
        line.append(suspicions[i].kind.as_str());
        line.append("] ");
        line.append(preview_of(suspicions[i].matched_text.as_str(), SHOWN_BYTES).as_str());
        line.append("\n");
        assert(line@ == warning_line(all[i as int], (i + 1) as nat));
        lines.append(line.as_str());
        i += 1;
    }
    let mut rest = String::new();
    if count > LISTED {
        rest = owned("  …and ");
        rest.append(size_text(count - LISTED).as_str());
        rest.append(" more\n");
    }
    let mut out = owned("\n");
    out.append(RULE);
    out.append("⚠  FABRICATION CHECK — KERNEL WARNING\n");
    out.append(RULE);
    out.append("The assistant's response below contains ");
    out.append(size_text(count).as_str());
    out.append(" pattern(s) that\n");
    out.append("look like claims of completed work, but the model called\n");
    out.append(size_text(tool_uses_in_turn).as_str());
    out.append(" tool(s) in this turn. Verify before trusting the response.\n\n");
    out.append("Suspicious phrases:\n");
    out.append(lines.as_str());
    out.append(rest.as_str());
    out.append("\nIf the claims above are real, run a verification command\n");
    out.append("(ls, stat, cat) to confirm. If they're not, the agent\n");
    out.append("fabricated. Either way, do NOT trust without verifying.\n");
    out.append(RULE);
    out.append("\n");
    out
}

} // verus!
