//! Claims that an assistant declares in `[VERIFY]` blocks, and how they are held against the
//! file system.
//!
//! A block holds one claim per line:
//!
//! ```text
//! exists=<path>             file or directory exists
//! not_exists=<path>         file or directory is absent
//! size=<path>:<n>           file size in bytes (exact)
//! size_at_least=<path>:<n>  file size >= n bytes
//! size_at_most=<path>:<n>   file size <= n bytes
//! contains=<path>:<substr>  file contains substring (head 64KB)
//! mtime_within=<path>:<sec> file changed within the last <sec> seconds
//! ```
//!
//! Looking at the file system is left to the caller: [`wanted_probe`] says what to look for,
//! [`claim_target`] where, and [`check_claim`] judges what was seen.

use vstd::prelude::*;
use vstd::slice::slice_subrange;

use crate::fabrication;
use crate::fabrication::RULE;
use crate::json;
use crate::json::{json_array, Json, ObjectBuilder};
use crate::numbers;
use crate::numbers::{decimal_text, parse_number, size_text};
use crate::offsets;
use crate::offsets::{byte_len, floor_of, slice_text};
use crate::paths;
use crate::paths::join_path;
use crate::text;
use crate::text::{
    chars_of, find_chars_from, owned, pieces_of, rsplit_once_chars, same_text, spells,
    split_once_chars, string_of, strip_chars, strip_start_chars, text_begins_with, text_contains,
    trim_chars, CharClass,
};

verus! {

// ---------------------------------------------------------------------------
// Claims
// ---------------------------------------------------------------------------

/// A testable claim about a path.
#[derive(Debug, Clone, PartialEq, Eq)]
pub enum VerifyClaim {
    /// Something exists.
    Exists(String),
    /// Nothing exists.
    NotExists(String),
    /// The size is exactly this.
    Size(String, u64),
    /// The size is at least this.
    SizeAtLeast(String, u64),
    /// The size is at most this.
    SizeAtMost(String, u64),
    /// The file contains this text.
    Contains(String, String),
    /// The file changed within this many seconds.
    MtimeWithin(String, u64),
}

/// What a claim says.
#[verifier::ext_equal]
pub enum ClaimView {
    /// Something exists.
    Exists(Seq<char>),
    /// Nothing exists.
    NotExists(Seq<char>),
    /// The size is exactly this.
    Size(Seq<char>, u64),
    /// The size is at least this.
    SizeAtLeast(Seq<char>, u64),
    /// The size is at most this.
    SizeAtMost(Seq<char>, u64),
    /// The file contains this text.
    Contains(Seq<char>, Seq<char>),
    /// The file changed within this many seconds.
    MtimeWithin(Seq<char>, u64),
}

impl View for VerifyClaim {
    type V = ClaimView;

    open spec fn view(&self) -> ClaimView {
        match self {
            VerifyClaim::Exists(p) => ClaimView::Exists(p@),
            VerifyClaim::NotExists(p) => ClaimView::NotExists(p@),
            VerifyClaim::Size(p, n) => ClaimView::Size(p@, *n),
            VerifyClaim::SizeAtLeast(p, n) => ClaimView::SizeAtLeast(p@, *n),
            VerifyClaim::SizeAtMost(p, n) => ClaimView::SizeAtMost(p@, *n),
            VerifyClaim::Contains(p, t) => ClaimView::Contains(p@, t@),
            VerifyClaim::MtimeWithin(p, n) => ClaimView::MtimeWithin(p@, *n),
        }
    }
}

impl ClaimView {
    /// The path that the claim is about.
    pub open spec fn path(self) -> Seq<char> {
        match self {
            ClaimView::Exists(p) => p,
            ClaimView::NotExists(p) => p,
            ClaimView::Size(p, _) => p,
            ClaimView::SizeAtLeast(p, _) => p,
            ClaimView::SizeAtMost(p, _) => p,
            ClaimView::Contains(p, _) => p,
            ClaimView::MtimeWithin(p, _) => p,
        }
    }
}

/// What the claims of a list say.
pub open spec fn claim_views(v: Seq<VerifyClaim>) -> Seq<ClaimView> {
    v.map_values(|c: VerifyClaim| c@)
}

impl VerifyClaim {
    /// A copy of the claim.
    pub fn dup(&self) -> (r: VerifyClaim)
        ensures
            r@ == self@,
    {
        match self {
            VerifyClaim::Exists(p) => VerifyClaim::Exists(p.clone()),
            VerifyClaim::NotExists(p) => VerifyClaim::NotExists(p.clone()),
            VerifyClaim::Size(p, n) => VerifyClaim::Size(p.clone(), *n),
            VerifyClaim::SizeAtLeast(p, n) => VerifyClaim::SizeAtLeast(p.clone(), *n),
            VerifyClaim::SizeAtMost(p, n) => VerifyClaim::SizeAtMost(p.clone(), *n),
            VerifyClaim::Contains(p, t) => VerifyClaim::Contains(p.clone(), t.clone()),
            VerifyClaim::MtimeWithin(p, n) => VerifyClaim::MtimeWithin(p.clone(), *n),
        }
    }

    /// The path that the claim is about.
    pub fn path(&self) -> (r: &str)
        ensures
            r@ == self@.path(),
    {
        match self {
            VerifyClaim::Exists(p) => p.as_str(),
            VerifyClaim::NotExists(p) => p.as_str(),
            VerifyClaim::Size(p, _) => p.as_str(),
            VerifyClaim::SizeAtLeast(p, _) => p.as_str(),
            VerifyClaim::SizeAtMost(p, _) => p.as_str(),
            VerifyClaim::Contains(p, _) => p.as_str(),
            VerifyClaim::MtimeWithin(p, _) => p.as_str(),
        }
    }
}

// ---------------------------------------------------------------------------
// Normalization
// ---------------------------------------------------------------------------

/// Dashes, hyphens and minus signs other than the ASCII one.
pub open spec fn is_dash(c: char) -> bool {
    ||| '\u{2010}' <= c <= '\u{2015}'
    ||| c == '\u{2212}'
    ||| c == '\u{FE58}'
    ||| c == '\u{FE63}'
    ||| c == '\u{FF0D}'
}

/// The ASCII character that a typographic dash or quote stands for.
pub open spec fn plain_char(c: char) -> char {
    if is_dash(c) {
        '-'
    } else if c == '\u{2018}' || c == '\u{2019}' {
        '\''
    } else if c == '\u{201C}' || c == '\u{201D}' {
        '"'
    } else {
        c
    }
}

/// The text with its typographic dashes and quotes replaced.
pub open spec fn plain(s: Seq<char>) -> Seq<char> {
    s.map_values(|c: char| plain_char(c))
}

/// Where the Markdown link that the bracket at `open` opens has its closing bracket and its closing
/// parenthesis, if the bracket opens one.
pub open spec fn link_at(s: Seq<char>, open: int) -> Option<(int, int)> {
    match text::find_from(s, seq![']'], open) {
        Some(close) => if close + 1 < s.len() && s[close + 1] == '(' {
            match text::find_from(s, seq![')'], close + 1) {
                Some(end) => Some((close, end)),
                None => None,
            }
        } else {
            None
        },
        None => None,
    }
}

/// The text from `from` on, with the labels in place of its Markdown links.
pub open spec fn unlinked_from(s: Seq<char>, from: int) -> Seq<char>
    decreases s.len() - from,
{
    match text::find_from(s, seq!['['], from) {
        Some(open) => if from <= open < s.len() {
            match link_at(s, open) {
                Some((close, end)) => if open < close < end < s.len() {
                    s.subrange(from, open) + s.subrange(open + 1, close) + unlinked_from(s, end + 1)
                } else {
                    Seq::empty()
                },
                None => s.subrange(from, open + 1) + unlinked_from(s, open + 1),
            }
        } else {
            Seq::empty()
        },
        None => s.subrange(from, s.len() as int),
    }
}

/// The text with the labels in place of its Markdown links.
pub open spec fn unlinked(s: Seq<char>) -> Seq<char> {
    unlinked_from(s, 0)
}

/// A claim's value as it is compared: with ASCII dashes and quotes, without links, and without
/// surrounding white space and backticks.
pub open spec fn normalized(val: Seq<char>) -> Seq<char> {
    text::trim(text::strip(text::trim(unlinked(plain(val))), CharClass::Backtick))
}

fn plain_of(c: char) -> (r: char)
    ensures
        r == plain_char(c),
{
    if ('\u{2010}' <= c && c <= '\u{2015}') || c == '\u{2212}' || c == '\u{FE58}' || c == '\u{FE63}'
        || c == '\u{FF0D}' {
        '-'
    } else if c == '\u{2018}' || c == '\u{2019}' {
        '\''
    } else if c == '\u{201C}' || c == '\u{201D}' {
        '"'
    } else {
        c
    }
}

/// What [`link_at`] finds lies in the text, in order.
proof fn lemma_link_at(s: Seq<char>, open: int)
    requires
        0 <= open < s.len(),
        s[open] == '[',
    ensures
        match link_at(s, open) {
            Some((close, end)) => open < close < end < s.len(),
            None => true,
        },
{
    text::lemma_find_from(s, seq![']'], open);
    if let Some(close) = text::find_from(s, seq![']'], open) {
        assert(s.subrange(close, close + 1)[0] == ']');
        text::lemma_find_from(s, seq![')'], close + 1);
        if let Some(end) = text::find_from(s, seq![')'], close + 1) {
            assert(s.subrange(end, end + 1)[0] == ')');
        }
    }
}

/// What [`text::find_from`] finds of a bracket is a bracket.
proof fn lemma_open_at(s: Seq<char>, from: int)
    requires
        0 <= from,
    ensures
        match text::find_from(s, seq!['['], from) {
            Some(open) => from <= open < s.len() && s[open] == '[',
            None => true,
        },
{
    text::lemma_find_from(s, seq!['['], from);
    if let Some(open) = text::find_from(s, seq!['['], from) {
        assert(s.subrange(open, open + 1)[0] == '[');
    }
}

fn find_one_from(v: &[char], c: char, from: usize) -> (r: Option<usize>)
    ensures
        match r {
            Some(i) => text::find_from(v@, seq![c], from as int) == Some(i as int),
            None => text::find_from(v@, seq![c], from as int) is None,
        },
{
    let mark: Vec<char> = vec![c];
    assert(mark@ =~= seq![c]);
    find_chars_from(v, mark.as_slice(), from)
}

fn link_of(v: &[char], open: usize) -> (r: Option<(usize, usize)>)
    requires
        open < v@.len(),
        v@[open as int] == '[',
    ensures
        match r {
            Some((close, end)) => link_at(v@, open as int) == Some((close as int, end as int))
                && open < close < end < v@.len(),
            None => link_at(v@, open as int) is None,
        },
{
    proof {
        lemma_link_at(v@, open as int);
        text::lemma_find_from(v@, seq![']'], open as int);
    }
    match find_one_from(v, ']', open) {
        Some(close) => {
            let last: usize = v.len() - 1;
            if close < last && v[close + 1] == '(' {
                match find_one_from(v, ')', close + 1) {
                    Some(end) => Some((close, end)),
                    None => None,
                }
            } else {
                None
            }
        },
        None => None,
    }
}

fn unlinked_of(v: &[char]) -> (r: Vec<char>)
    ensures
        r@ == unlinked(v@),
{
    let n: usize = v.len();
    let mut out: Vec<char> = Vec::new();
    let mut from: usize = 0;
    let ghost all = unlinked(v@);
    assert(out@ + all =~= all);
    loop
        invariant_except_break
            all == out@ + unlinked_from(v@, from as int),
        invariant
            from <= n == v@.len(),
            all == unlinked(v@),
        ensures
            all == out@,
        decreases n - from,
    {
        proof {
            lemma_open_at(v@, from as int);
        }
        let ghost before = out@;
        match find_one_from(v, '[', from) {
            Some(open) => {
                match link_of(v, open) {
                    Some((close, end)) => {
                        push_chars(&mut out, slice_subrange(v, from, open));
                        push_chars(&mut out, slice_subrange(v, open + 1, close));
                        from = end + 1;
                    },
                    None => {
                        push_chars(&mut out, slice_subrange(v, from, open + 1));
                        from = open + 1;
                    },
                }
                assert(all =~= out@ + unlinked_from(v@, from as int));
            },
            None => {
                push_chars(&mut out, slice_subrange(v, from, n));
                assert(all =~= out@);
                break;
            },
        }
    }
    out
}

fn push_chars(out: &mut Vec<char>, more: &[char])
    ensures
        final(out)@ == old(out)@ + more@,
{
    let mut i: usize = 0;
    assert(out@ =~= old(out)@ + more@.take(0));
    while i < more.len()
        invariant
            i <= more@.len(),
            out@ == old(out)@ + more@.take(i as int),
        decreases more@.len() - i,
    {
        out.push(more[i]);
        assert(out@ =~= old(out)@ + more@.take(i + 1));
        i += 1;
    }
    assert(more@.take(more@.len() as int) =~= more@);
}

/// Normalize a string before path comparison:
///   - Unicode dashes and typographic quotes become ASCII
///   - Markdown link wrappers like `[name](url)` become `name`
///   - backtick wrappers are stripped
///   - white space is trimmed
pub fn normalize_claim_value(val: &str) -> (r: String)
    ensures
        r@ == normalized(val@),
{
    let chars = chars_of(val);
    let mut mapped: Vec<char> = Vec::new();
    let mut i: usize = 0;
    while i < chars.len()
        invariant
            i <= chars@.len(),
            mapped@ == plain(chars@).take(i as int),
        decreases chars@.len() - i,
    {
        mapped.push(plain_of(chars[i]));
        assert(mapped@ =~= plain(chars@).take(i + 1));
        i += 1;
    }
    assert(plain(chars@).take(chars@.len() as int) =~= plain(chars@));
    let out = unlinked_of(mapped.as_slice());
    string_of(trim_chars(strip_chars(trim_chars(out.as_slice()), CharClass::Backtick)))
}

/// The text holds no typographic dash or quote.
pub open spec fn is_plain(s: Seq<char>) -> bool {
    forall|i: int| 0 <= i < s.len() ==> plain_char(#[trigger] s[i]) == s[i]
}

proof fn lemma_strip_start_plain(s: Seq<char>, class: CharClass)
    requires
        is_plain(s),
    ensures
        is_plain(text::strip_start(s, class)),
    decreases s.len(),
{
    if s.len() > 0 && class.holds(s[0]) {
        assert(is_plain(s.drop_first()));
        lemma_strip_start_plain(s.drop_first(), class);
    }
}

proof fn lemma_strip_end_plain(s: Seq<char>, class: CharClass)
    requires
        is_plain(s),
    ensures
        is_plain(text::strip_end(s, class)),
    decreases s.len(),
{
    if s.len() > 0 && class.holds(s.last()) {
        assert(is_plain(s.drop_last()));
        lemma_strip_end_plain(s.drop_last(), class);
    }
}

proof fn lemma_strip_plain(s: Seq<char>, class: CharClass)
    requires
        is_plain(s),
    ensures
        is_plain(text::strip(s, class)),
{
    lemma_strip_start_plain(s, class);
    lemma_strip_end_plain(text::strip_start(s, class), class);
}

proof fn lemma_unlinked_plain(s: Seq<char>, from: int)
    requires
        is_plain(s),
        0 <= from <= s.len(),
    ensures
        is_plain(unlinked_from(s, from)),
    decreases s.len() - from,
{
    lemma_open_at(s, from);
    if let Some(open) = text::find_from(s, seq!['['], from) {
        lemma_link_at(s, open);
        match link_at(s, open) {
            Some((close, end)) => lemma_unlinked_plain(s, end + 1),
            None => lemma_unlinked_plain(s, open + 1),
        }
    }
}

/// Where a text is made of a part without brackets, a link with a plain label, and a rest, the
/// label takes the place of the link, and the rest is treated alike: so every link goes.
pub proof fn law_links_give_way(head: Seq<char>, label: Seq<char>, url: Seq<char>, rest: Seq<char>)
    requires
        !head.contains('['),
        !label.contains(']'),
        !url.contains(')'),
    ensures
        unlinked(head + seq!['['] + label + seq![']', '('] + url + seq![')'] + rest) == head + label
            + unlinked(rest),
{
    let s = head + seq!['['] + label + seq![']', '('] + url + seq![')'] + rest;
    let open = head.len() as int;
    let close = open + 1 + label.len();
    let end = close + 2 + url.len();
    lemma_first_at(s, '[', 0, open);
    assert forall|j: int| open <= j < close implies s[j] != ']' by {
        if j > open {
            assert(s[j] == label[j - open - 1]);
        }
    }
    lemma_first_at(s, ']', open, close);
    assert forall|j: int| close + 1 <= j < end implies s[j] != ')' by {
        if j > close + 1 {
            assert(s[j] == url[j - close - 2]);
        }
    }
    lemma_first_at(s, ')', close + 1, end);
    assert(link_at(s, open) == Some((close, end)));
    assert(s.subrange(0, open) =~= head);
    assert(s.subrange(open + 1, close) =~= label);
    assert(s.subrange(end + 1, s.len() as int) =~= rest);
    lemma_unlinked_suffix(s, rest, end + 1, 0);
}

/// The first `c` from `from` on is where the first one stands.
proof fn lemma_first_at(s: Seq<char>, c: char, from: int, at: int)
    requires
        0 <= from <= at < s.len(),
        s[at] == c,
        forall|j: int| from <= j < at ==> s[j] != c,
    ensures
        text::find_from(s, seq![c], from) == Some(at),
{
    text::lemma_find_from(s, seq![c], from);
    assert(s.subrange(at, at + 1) =~= seq![c]);
    assert(text::occurs_at(s, seq![c], at));
    if let Some(i) = text::find_from(s, seq![c], from) {
        assert(s.subrange(i, i + 1)[0] == c);
    }
}

/// Searching a text from `d` on is searching what follows.
proof fn lemma_find_suffix(s: Seq<char>, rest: Seq<char>, c: char, d: int, from: int)
    requires
        0 <= d,
        s.len() == d + rest.len(),
        rest == s.subrange(d, s.len() as int),
        0 <= from,
    ensures
        text::find_from(s, seq![c], d + from) == (match text::find_from(rest, seq![c], from) {
            Some(i) => Some(d + i),
            None => None,
        }),
    decreases rest.len() - from + 1,
{
    if from + 1 <= rest.len() {
        assert(rest.subrange(from, from + 1) =~= s.subrange(d + from, d + from + 1));
        lemma_find_suffix(s, rest, c, d, from + 1);
    }
}

proof fn lemma_unlinked_suffix(s: Seq<char>, rest: Seq<char>, d: int, from: int)
    requires
        0 <= d,
        s.len() == d + rest.len(),
        rest == s.subrange(d, s.len() as int),
        0 <= from <= rest.len(),
    ensures
        unlinked_from(s, d + from) == unlinked_from(rest, from),
    decreases rest.len() - from,
{
    lemma_find_suffix(s, rest, '[', d, from);
    lemma_open_at(rest, from);
    match text::find_from(rest, seq!['['], from) {
        Some(open) => {
            lemma_link_at(rest, open);
            lemma_find_suffix(s, rest, ']', d, open);
            text::lemma_find_from(rest, seq![']'], open);
            if let Some(close) = text::find_from(rest, seq![']'], open) {
                lemma_find_suffix(s, rest, ')', d, close + 1);
            }
            assert(s.subrange(d + from, d + open) =~= rest.subrange(from, open));
            assert(s.subrange(d + from, d + open + 1) =~= rest.subrange(from, open + 1));
            match link_at(rest, open) {
                Some((close, end)) => {
                    assert(link_at(s, d + open) == Some((d + close, d + end)));
                    assert(s.subrange(d + open + 1, d + close) =~= rest.subrange(open + 1, close));
                    lemma_unlinked_suffix(s, rest, d, end + 1);
                },
                None => {
                    assert(link_at(s, d + open) is None);
                    lemma_unlinked_suffix(s, rest, d, open + 1);
                },
            }
        },
        None => {
            assert(s.subrange(d + from, s.len() as int) =~= rest.subrange(from, rest.len() as int));
        },
    }
}

/// A normalized value holds no typographic dash or quote, so it cannot look like a path that it
/// does not spell; and no white space is left at its ends.
pub proof fn law_normalized_is_plain(val: Seq<char>)
    ensures
        is_plain(normalized(val)),
        text::trim(normalized(val)) == normalized(val),
{
    let s = plain(val);
    assert(is_plain(s));
    lemma_unlinked_plain(s, 0);
    assert(is_plain(unlinked(s)));
    lemma_strip_plain(unlinked(s), CharClass::White);
    let inner = text::trim(unlinked(s));
    lemma_strip_plain(inner, CharClass::Backtick);
    lemma_strip_plain(text::strip(inner, CharClass::Backtick), CharClass::White);
    text::lemma_trim_idempotent(text::strip(inner, CharClass::Backtick));
}

// ---------------------------------------------------------------------------
// Parsing
// ---------------------------------------------------------------------------

/// The path and the number of a value `path:number`.
pub open spec fn path_number(val: Seq<char>) -> Option<(Seq<char>, u64)> {
    match text::rsplit_once(val, ':') {
        Some((path, n)) => match numbers::parsed_number(text::trim(n), u64::MAX as int) {
            Some(n) => Some((text::trim(path), n as u64)),
            None => None,
        },
        None => None,
    }
}

/// The claim that a key and a normalized value make.
pub open spec fn keyed_claim(key: Seq<char>, val: Seq<char>) -> Option<ClaimView> {
    if key == "exists"@ {
        Some(ClaimView::Exists(val))
    } else if key == "not_exists"@ || key == "absent"@ {
        Some(ClaimView::NotExists(val))
    } else if key == "size"@ {
        match path_number(val) {
            Some((p, n)) => Some(ClaimView::Size(p, n)),
            None => None,
        }
    } else if key == "size_at_least"@ || key == "size_min"@ {
        match path_number(val) {
            Some((p, n)) => Some(ClaimView::SizeAtLeast(p, n)),
            None => None,
        }
    } else if key == "size_at_most"@ || key == "size_max"@ {
        match path_number(val) {
            Some((p, n)) => Some(ClaimView::SizeAtMost(p, n)),
            None => None,
        }
    } else if key == "contains"@ {
        match text::split_once(val, ':') {
            Some((p, t)) => Some(ClaimView::Contains(text::trim(p), text::trim(t))),
            None => None,
        }
    } else if key == "mtime_within"@ {
        match path_number(val) {
            Some((p, n)) => Some(ClaimView::MtimeWithin(p, n)),
            None => None,
        }
    } else {
        None
    }
}

/// The claim that a line makes. Bullets in front of it are ignored.
pub open spec fn line_claim(line: Seq<char>) -> Option<ClaimView> {
    match text::split_once(text::trim(text::strip_start(line, CharClass::Bullet)), '=') {
        Some((key, val)) => keyed_claim(text::trim(key), normalized(text::trim(val))),
        None => None,
    }
}

/// The claims that the lines make.
pub open spec fn lines_claims(lines: Seq<Seq<char>>) -> Seq<ClaimView>
    decreases lines.len(),
{
    if lines.len() == 0 {
        Seq::empty()
    } else {
        match line_claim(text::trim(lines.last())) {
            Some(c) => lines_claims(lines.drop_last()).push(c),
            None => lines_claims(lines.drop_last()),
        }
    }
}

/// What opens a block of claims.
pub const BLOCK_OPEN: &'static str = "[VERIFY]";

/// What closes a block of claims.
pub const BLOCK_CLOSE: &'static str = "[/VERIFY]";

/// The claims in the blocks of the text from `from` on. A block that is not closed holds none.
pub open spec fn blocks_claims(text: Seq<char>, from: int) -> Seq<ClaimView>
    decreases text.len() - from,
{
    match text::find_from(text, BLOCK_OPEN@, from) {
        Some(open) => match text::find_from(text, BLOCK_CLOSE@, open + BLOCK_OPEN@.len()) {
            Some(close) => if from < close + BLOCK_CLOSE@.len() <= text.len() {
                lines_claims(
                    text::pieces(text.subrange(open + BLOCK_OPEN@.len(), close), '\n'),
                ) + blocks_claims(text, close + BLOCK_CLOSE@.len())
            } else {
                Seq::empty()
            },
            None => Seq::empty(),
        },
        None => Seq::empty(),
    }
}

fn path_number_of(val: &[char]) -> (r: Option<(String, u64)>)
    ensures
        match r {
            Some(p) => path_number(val@) == Some((p.0@, p.1)),
            None => path_number(val@) is None,
        },
{
    match rsplit_once_chars(val, ':') {
        Some(p) => {
            let number = string_of(trim_chars(p.1));
            match parse_number(number.as_str(), u64::MAX) {
                Some(n) => Some((string_of(trim_chars(p.0)), n)),
                None => None,
            }
        },
        None => None,
    }
}

fn keyed_claim_of(key: &[char], val: &str) -> (r: Option<VerifyClaim>)
    ensures
        match r {
            Some(c) => keyed_claim(key@, val@) == Some(c@),
            None => keyed_claim(key@, val@) is None,
        },
{
    let chars = chars_of(val);
    if spells(key, "exists") {
        Some(VerifyClaim::Exists(owned(val)))
    } else if spells(key, "not_exists") || spells(key, "absent") {
        Some(VerifyClaim::NotExists(owned(val)))
    } else if spells(key, "size") {
        match path_number_of(chars.as_slice()) {
            Some(p) => Some(VerifyClaim::Size(p.0, p.1)),
            None => None,
        }
    } else if spells(key, "size_at_least") || spells(key, "size_min") {
        match path_number_of(chars.as_slice()) {
            Some(p) => Some(VerifyClaim::SizeAtLeast(p.0, p.1)),
            None => None,
        }
    } else if spells(key, "size_at_most") || spells(key, "size_max") {
        match path_number_of(chars.as_slice()) {
            Some(p) => Some(VerifyClaim::SizeAtMost(p.0, p.1)),
            None => None,
        }
    } else if spells(key, "contains") {
        match split_once_chars(chars.as_slice(), ':') {
            Some(p) => Some(
                VerifyClaim::Contains(string_of(trim_chars(p.0)), string_of(trim_chars(p.1))),
            ),
            None => None,
        }
    } else if spells(key, "mtime_within") {
        match path_number_of(chars.as_slice()) {
            Some(p) => Some(VerifyClaim::MtimeWithin(p.0, p.1)),
            None => None,
        }
    } else {
        None
    }
}

fn line_claim_of(line: &[char]) -> (r: Option<VerifyClaim>)
    ensures
        match r {
            Some(c) => line_claim(line@) == Some(c@),
            None => line_claim(line@) is None,
        },
{
    match split_once_chars(trim_chars(strip_start_chars(line, CharClass::Bullet)), '=') {
        Some(p) => {
            let val = string_of(trim_chars(p.1));
            keyed_claim_of(trim_chars(p.0), normalize_claim_value(val.as_str()).as_str())
        },
        None => None,
    }
}

/// The claim that a line makes.
pub fn parse_claim_line(line: &str) -> (r: Option<VerifyClaim>)
    ensures
        match r {
            Some(c) => line_claim(line@) == Some(c@),
            None => line_claim(line@) is None,
        },
{
    line_claim_of(chars_of(line).as_slice())
}

fn push_lines_claims(lines: &Vec<String>, out: &mut Vec<VerifyClaim>)
    ensures
        claim_views(final(out)@) == claim_views(old(out)@) + lines_claims(text::texts(lines@)),
{
    let ghost all = text::texts(lines@);
    let ghost start = claim_views(out@);
    let mut i: usize = 0;
    assert(all.take(0) =~= Seq::<Seq<char>>::empty());
    assert(start + Seq::<ClaimView>::empty() =~= start);
    while i < lines.len()
        invariant
            i <= lines@.len(),
            all == text::texts(lines@),
            claim_views(out@) == start + lines_claims(all.take(i as int)),
        decreases lines@.len() - i,
    {
        proof {
            assert(all.take(i + 1).drop_last() =~= all.take(i as int));
            assert(all.take(i + 1).last() == lines@[i as int]@);
        }
        let ghost before = claim_views(out@);
        let chars = chars_of(lines[i].as_str());
        match line_claim_of(trim_chars(chars.as_slice())) {
            Some(c) => {
                out.push(c);
                assert(claim_views(out@) =~= before.push(c@));
                assert(claim_views(out@) =~= start + lines_claims(all.take(i + 1)));
            },
            None => {},
        }
        i += 1;
    }
    assert(all.take(all.len() as int) =~= all);
}

/// Extract all `[VERIFY]...[/VERIFY]` blocks from text and parse the claims inside. Returns one
/// Vec of claims (concatenated across blocks).
pub fn parse_verify_blocks(text: &str) -> (r: Vec<VerifyClaim>)
    ensures
        claim_views(r@) == blocks_claims(text@, 0),
{
    let chars = chars_of(text);
    let open_mark = chars_of(BLOCK_OPEN);
    let close_mark = chars_of(BLOCK_CLOSE);
    let len: usize = chars.len();
    let mut out: Vec<VerifyClaim> = Vec::new();
    let mut from: usize = 0;
    proof {
        reveal_strlit("[VERIFY]");
        assert(claim_views(out@) =~= Seq::<ClaimView>::empty());
        assert(claim_views(out@) + blocks_claims(text@, 0) =~= blocks_claims(text@, 0));
    }
    loop
        invariant
            chars@ == text@,
            len == chars@.len(),
            from <= len,
            open_mark@ == BLOCK_OPEN@,
            open_mark@.len() > 0,
            close_mark@ == BLOCK_CLOSE@,
            blocks_claims(text@, 0) == claim_views(out@) + blocks_claims(text@, from as int),
        ensures
            claim_views(out@) == blocks_claims(text@, 0),
        decreases len - from,
    {
        proof {
            text::lemma_find_from(text@, BLOCK_OPEN@, from as int);
        }
        let open: usize = match find_chars_from(chars.as_slice(), open_mark.as_slice(), from) {
            Some(i) => i,
            None => {
                assert(claim_views(out@) + Seq::<ClaimView>::empty() =~= claim_views(out@));
                break;
            },
        };
        let start: usize = open + open_mark.len();
        proof {
            text::lemma_find_from(text@, BLOCK_CLOSE@, start as int);
        }
        let close: usize = match find_chars_from(chars.as_slice(), close_mark.as_slice(), start) {
            Some(i) => i,
            None => {
                assert(claim_views(out@) + Seq::<ClaimView>::empty() =~= claim_views(out@));
                break;
            },
        };
        let next: usize = close + close_mark.len();
        let lines = pieces_of(slice_subrange(chars.as_slice(), start, close), '\n');
        let ghost before = claim_views(out@);
        push_lines_claims(&lines, &mut out);
        proof {
            let here = lines_claims(text::texts(lines@));
            let rest = blocks_claims(text@, next as int);
            assert(blocks_claims(text@, from as int) == here + rest);
            assert(before + (here + rest) =~= (before + here) + rest);
        }
        from = next;
    }
    out
}

// ---------------------------------------------------------------------------
// Checking
// ---------------------------------------------------------------------------

/// The variables that a path may refer to, where they are set.
pub struct PathVars {
    /// `HOME`
    pub home: Option<String>,
    /// `LAZAR_HOME`
    pub lazar_home: Option<String>,
}

/// The path with `~` or `$LAZAR_HOME` in front replaced, where the variable is set.
pub open spec fn expanded(
    path: Seq<char>,
    home: Option<Seq<char>>,
    lazar_home: Option<Seq<char>>,
) -> Seq<char> {
    if text::begins_with(path, "~/"@) && home is Some {
        paths::joined(home->0, path.subrange("~/"@.len() as int, path.len() as int))
    } else if path == "~"@ && home is Some {
        home->0
    } else if text::begins_with(path, "$LAZAR_HOME/"@) && lazar_home is Some {
        paths::joined(
            lazar_home->0,
            path.subrange("$LAZAR_HOME/"@.len() as int, path.len() as int),
        )
    } else {
        path
    }
}

/// The text of an optional string.
pub open spec fn opt_text(s: Option<String>) -> Option<Seq<char>> {
    match s {
        Some(t) => Some(t@),
        None => None,
    }
}

fn after_prefix(s: &str, prefix: &str) -> (r: String)
    requires
        text::begins_with(s@, prefix@),
    ensures
        r@ == s@.subrange(prefix@.len() as int, s@.len() as int),
{
    let chars = chars_of(s);
    let n: usize = chars_of(prefix).len();
    string_of(slice_subrange(chars.as_slice(), n, chars.len()))
}

/// The path with `~` or `$LAZAR_HOME` in front replaced, where the variable is set.
pub fn expand_path(path: &str, vars: &PathVars) -> (r: String)
    ensures
        r@ == expanded(path@, opt_text(vars.home), opt_text(vars.lazar_home)),
{
    match &vars.home {
        Some(home) => {
            if text_begins_with(path, "~/") {
                return join_path(home.as_str(), after_prefix(path, "~/").as_str());
            }
            if same_text(path, "~") {
                return home.clone();
            }
        },
        None => {},
    }
    match &vars.lazar_home {
        Some(home) => {
            if text_begins_with(path, "$LAZAR_HOME/") {
                return join_path(home.as_str(), after_prefix(path, "$LAZAR_HOME/").as_str());
            }
        },
        None => {},
    }
    owned(path)
}

/// What to look for to judge a claim.
#[derive(Debug, Clone, Copy, PartialEq, Eq, Structural)]
pub enum ProbeKind {
    /// Whether something exists.
    Presence,
    /// The size of the file.
    Size,
    /// The text of the file.
    Text,
    /// How long ago the file changed.
    Age,
}

/// What was seen. The errors are messages of the system.
#[derive(Debug)]
pub enum Probe {
    /// Whether something exists.
    Presence(bool),
    /// The size of the file in bytes.
    Size(Result<u64, String>),
    /// The text of the file.
    Text(Result<String, String>),
    /// The seconds since the file changed; `None` where that lies in the future.
    Age(Result<Option<u64>, String>),
}

/// What to look for to judge a claim.
pub open spec fn probe_for(claim: ClaimView) -> ProbeKind {
    match claim {
        ClaimView::Exists(_) => ProbeKind::Presence,
        ClaimView::NotExists(_) => ProbeKind::Presence,
        ClaimView::Size(_, _) => ProbeKind::Size,
        ClaimView::SizeAtLeast(_, _) => ProbeKind::Size,
        ClaimView::SizeAtMost(_, _) => ProbeKind::Size,
        ClaimView::Contains(_, _) => ProbeKind::Text,
        ClaimView::MtimeWithin(_, _) => ProbeKind::Age,
    }
}

impl Probe {
    /// What was looked for.
    pub open spec fn kind(self) -> ProbeKind {
        match self {
            Probe::Presence(_) => ProbeKind::Presence,
            Probe::Size(_) => ProbeKind::Size,
            Probe::Text(_) => ProbeKind::Text,
            Probe::Age(_) => ProbeKind::Age,
        }
    }
}

/// What to look for to judge a claim.
pub fn wanted_probe(claim: &VerifyClaim) -> (r: ProbeKind)
    ensures
        r == probe_for(claim@),
{
    match claim {
        VerifyClaim::Exists(_) => ProbeKind::Presence,
        VerifyClaim::NotExists(_) => ProbeKind::Presence,
        VerifyClaim::Size(_, _) => ProbeKind::Size,
        VerifyClaim::SizeAtLeast(_, _) => ProbeKind::Size,
        VerifyClaim::SizeAtMost(_, _) => ProbeKind::Size,
        VerifyClaim::Contains(_, _) => ProbeKind::Text,
        VerifyClaim::MtimeWithin(_, _) => ProbeKind::Age,
    }
}

/// Where to look.
pub fn claim_target(claim: &VerifyClaim, vars: &PathVars) -> (r: String)
    ensures
        r@ == expanded(claim@.path(), opt_text(vars.home), opt_text(vars.lazar_home)),
{
    expand_path(claim.path(), vars)
}

/// How many bytes of a file are searched for a text.
pub const READ_CAP: usize = 65_536;

/// How many bytes of a text a note shows.
pub const NOTE_BYTES: usize = 40;

/// The part of a file that is searched: the characters that lie wholly within its first bytes.
pub open spec fn file_head(s: Seq<char>) -> Seq<char> {
    if offsets::bytes(s).len() > READ_CAP {
        offsets::between(s, 0, offsets::floor_boundary(s, READ_CAP as int))
    } else {
        s
    }
}

/// The claim can be judged by the probe: what was looked for is what the claim speaks of.
pub open spec fn fits(claim: ClaimView, probe: Probe) -> bool {
    probe.kind() == probe_for(claim)
}

/// Whether a claim holds, by what was seen.
pub open spec fn holds(claim: ClaimView, probe: Probe) -> bool {
    match (claim, probe) {
        (ClaimView::Exists(_), Probe::Presence(there)) => there,
        (ClaimView::NotExists(_), Probe::Presence(there)) => !there,
        (ClaimView::Size(_, n), Probe::Size(Ok(len))) => len == n,
        (ClaimView::SizeAtLeast(_, n), Probe::Size(Ok(len))) => len >= n,
        (ClaimView::SizeAtMost(_, n), Probe::Size(Ok(len))) => len <= n,
        (ClaimView::Contains(_, t), Probe::Text(Ok(s))) => text::has_text(file_head(s@), t),
        (ClaimView::MtimeWithin(_, n), Probe::Age(Ok(Some(age)))) => age <= n,
        _ => false,
    }
}

/// What a size check notes.
pub open spec fn size_note(len: u64, mid: Seq<char>, n: u64) -> Seq<char> {
    "actual size "@ + numbers::decimal(len as nat) + mid + numbers::decimal(n as nat) + ")"@
}

/// What a check notes. `target` is the path that was looked at.
pub open spec fn check_note(claim: ClaimView, target: Seq<char>, probe: Probe) -> Seq<char> {
    match (claim, probe) {
        (ClaimView::Exists(_), Probe::Presence(true)) => "exists"@,
        (ClaimView::Exists(_), Probe::Presence(false)) => "not found: "@ + target,
        (ClaimView::NotExists(_), Probe::Presence(false)) => "absent"@,
        (ClaimView::NotExists(_), Probe::Presence(true)) => "still present: "@ + target,
        (ClaimView::Size(_, n), Probe::Size(Ok(len))) => size_note(len, " bytes (expected "@, n),
        (ClaimView::SizeAtLeast(_, n), Probe::Size(Ok(len))) => size_note(
            len,
            " bytes (need >= "@,
            n,
        ),
        (ClaimView::SizeAtMost(_, n), Probe::Size(Ok(len))) => size_note(
            len,
            " bytes (need <= "@,
            n,
        ),
        (_, Probe::Size(Err(e))) => "stat failed: "@ + e@,
        (ClaimView::Contains(_, t), Probe::Text(Ok(s))) => if text::has_text(file_head(s@), t) {
            "contains '"@ + fabrication::preview(t, NOTE_BYTES as int) + "'"@
        } else {
            "missing '"@ + fabrication::preview(t, NOTE_BYTES as int) + "' in head 64KB"@
        },
        (_, Probe::Text(Err(e))) => "read failed: "@ + e@,
        (ClaimView::MtimeWithin(_, n), Probe::Age(Ok(Some(age)))) => "mtime "@ + numbers::decimal(
            age as nat,
        ) + "s ago (need <= "@ + numbers::decimal(n as nat) + "s)"@,
        (_, Probe::Age(Ok(None))) => "mtime in the future (clock skew)"@,
        (_, Probe::Age(Err(e))) => "stat failed: "@ + e@,
        _ => Seq::empty(),
    }
}

/// A claim, whether it holds, and a note.
#[derive(Debug, Clone)]
pub struct ClaimResult {
    /// The claim.
    pub claim: VerifyClaim,
    /// The claim holds.
    pub passed: bool,
    /// One line on what was seen.
    pub note: String,
}

/// What the result of a check says.
#[verifier::ext_equal]
pub struct ClaimResultView {
    /// The claim.
    pub claim: ClaimView,
    /// The claim holds.
    pub passed: bool,
    /// One line on what was seen.
    pub note: Seq<char>,
}

impl View for ClaimResult {
    type V = ClaimResultView;

    open spec fn view(&self) -> ClaimResultView {
        ClaimResultView { claim: self.claim@, passed: self.passed, note: self.note@ }
    }
}

/// What the results of a list say.
pub open spec fn result_views(v: Seq<ClaimResult>) -> Seq<ClaimResultView> {
    v.map_values(|r: ClaimResult| r@)
}

/// The result of a check.
pub open spec fn checked(
    claim: ClaimView,
    probe: Probe,
    home: Option<Seq<char>>,
    lazar_home: Option<Seq<char>>,
) -> ClaimResultView {
    ClaimResultView {
        claim,
        passed: holds(claim, probe),
        note: check_note(claim, expanded(claim.path(), home, lazar_home), probe),
    }
}

/// Two texts, one after the other.
fn joined_text(a: &str, b: &str) -> (r: String)
    ensures
        r@ == a@ + b@,
{
    let mut out = owned(a);
    out.append(b);
    out
}

fn size_note_of(len: u64, mid: &str, n: u64) -> (r: String)
    ensures
        r@ == size_note(len, mid@, n),
{
    let mut out = owned("actual size ");
    out.append(decimal_text(len as u128).as_str());
    out.append(mid);
    out.append(decimal_text(n as u128).as_str());
    out.append(")");
    out
}

/// The claim can be judged by the probe.
pub fn can_check(claim: &VerifyClaim, probe: &Probe) -> (r: bool)
    ensures
        r == fits(claim@, *probe),
{
    match (claim, probe) {
        (VerifyClaim::Exists(_), Probe::Presence(_)) => true,
        (VerifyClaim::NotExists(_), Probe::Presence(_)) => true,
        (VerifyClaim::Size(_, _), Probe::Size(_)) => true,
        (VerifyClaim::SizeAtLeast(_, _), Probe::Size(_)) => true,
        (VerifyClaim::SizeAtMost(_, _), Probe::Size(_)) => true,
        (VerifyClaim::Contains(_, _), Probe::Text(_)) => true,
        (VerifyClaim::MtimeWithin(_, _), Probe::Age(_)) => true,
        _ => false,
    }
}

/// Judges a claim by what was seen. Returns pass/fail and a one-line note.
pub fn check_claim(claim: &VerifyClaim, probe: &Probe, vars: &PathVars) -> (r: ClaimResult)
    requires
        fits(claim@, *probe),
    ensures
        r@ == checked(claim@, *probe, opt_text(vars.home), opt_text(vars.lazar_home)),
{
    let (passed, note): (bool, String) = match (claim, probe) {
        (VerifyClaim::Exists(_), Probe::Presence(there)) => if *there {
            (true, owned("exists"))
        } else {
            (false, joined_text("not found: ", claim_target(claim, vars).as_str()))
        },
        (VerifyClaim::NotExists(_), Probe::Presence(there)) => if *there {
            (false, joined_text("still present: ", claim_target(claim, vars).as_str()))
        } else {
            (true, owned("absent"))
        },
        (VerifyClaim::Size(_, n), Probe::Size(Ok(len))) => (
            *len == *n,
            size_note_of(*len, " bytes (expected ", *n),
        ),
        (VerifyClaim::SizeAtLeast(_, n), Probe::Size(Ok(len))) => (
            *len >= *n,
            size_note_of(*len, " bytes (need >= ", *n),
        ),
        (VerifyClaim::SizeAtMost(_, n), Probe::Size(Ok(len))) => (
            *len <= *n,
            size_note_of(*len, " bytes (need <= ", *n),
        ),
        (_, Probe::Size(Err(e))) => (false, joined_text("stat failed: ", e.as_str())),
        (VerifyClaim::Contains(_, needle), Probe::Text(Ok(s))) => {
            proof {
                offsets::lemma_boundary_ends(s@);
                offsets::lemma_floor_boundary(s@, READ_CAP as int);
            }
            let head: &str = if byte_len(s.as_str()) > READ_CAP {
                slice_text(s.as_str(), 0, floor_of(s.as_str(), READ_CAP))
            } else {
                s.as_str()
            };
            let ok = text_contains(head, needle.as_str());
            let mut note = owned(
                if ok {
                    "contains '"
                } else {
                    "missing '"
                },
            );
            note.append(fabrication::preview_of(needle.as_str(), NOTE_BYTES).as_str());
            note.append(
                if ok {
                    "'"
                } else {
                    "' in head 64KB"
                },
            );
            (ok, note)
        },
        (_, Probe::Text(Err(e))) => (false, joined_text("read failed: ", e.as_str())),
        (VerifyClaim::MtimeWithin(_, n), Probe::Age(Ok(Some(age)))) => {
            let mut note = owned("mtime ");
            note.append(decimal_text(*age as u128).as_str());
            note.append("s ago (need <= ");
            note.append(decimal_text(*n as u128).as_str());
            note.append("s)");
            (*age <= *n, note)
        },
        (_, Probe::Age(Ok(None))) => (false, owned("mtime in the future (clock skew)")),
        (_, Probe::Age(Err(e))) => (false, joined_text("stat failed: ", e.as_str())),
        _ => (false, String::new()),
    };
    ClaimResult { claim: claim.dup(), passed, note }
}

/// A claim whose probe failed, or saw a time in the future, does not hold.
pub proof fn law_failed_probe_fails(claim: ClaimView, probe: Probe)
    requires
        fits(claim, probe),
        probe matches Probe::Size(Err(_)) || probe matches Probe::Text(Err(_))
            || probe matches Probe::Age(Err(_)) || probe matches Probe::Age(Ok(None)),
    ensures
        !holds(claim, probe),
{
}

/// A file contains a text exactly where the bytes of the text stand wholly within the first bytes
/// of the file, whatever characters the file and the text are made of.
pub proof fn law_contains_by_bytes(path: Seq<char>, needle: Seq<char>, seen: String)
    ensures
        holds(ClaimView::Contains(path, needle), Probe::Text(Ok(seen))) <==> exists|i: int|
            i + offsets::bytes(needle).len() <= READ_CAP && #[trigger] text::occurs_at(
                offsets::bytes(seen@),
                offsets::bytes(needle),
                i,
            ),
{
    let s = seen@;
    let b = offsets::bytes(s);
    let n = offsets::bytes(needle);
    let head = file_head(s);
    let end = if b.len() > READ_CAP {
        offsets::floor_boundary(s, READ_CAP as int)
    } else {
        b.len() as int
    };
    offsets::lemma_boundary_ends(s);
    offsets::lemma_floor_boundary(s, READ_CAP as int);
    offsets::lemma_between(s, 0, end);
    assert(b.subrange(0, b.len() as int) =~= b);
    assert(offsets::bytes(head) == b.subrange(0, end));
    text::lemma_find_from(head, needle, 0);
    if text::has_text(head, needle) {
        let i = text::find(head, needle)->0;
        let at = offsets::lemma_occurs_in_bytes(head, needle, i);
        assert(b.subrange(at, at + n.len()) =~= offsets::bytes(head).subrange(at, at + n.len()));
        assert(text::occurs_at(b, n, at));
    }
    if exists|i: int| i + n.len() <= READ_CAP && #[trigger] text::occurs_at(b, n, i) {
        let i = choose|i: int| i + n.len() <= READ_CAP && #[trigger] text::occurs_at(b, n, i);
        offsets::lemma_bytes_empty(needle);
        if needle.len() == 0 {
            assert(head.subrange(0, 0) =~= needle);
            assert(text::occurs_at(head, needle, 0));
        } else {
            offsets::lemma_occurrence_boundaries(s, needle, i);
            assert(i + n.len() <= end);
            assert(b.subrange(i, i + n.len()) =~= offsets::bytes(head).subrange(i, i + n.len()));
            assert(text::occurs_at(offsets::bytes(head), n, i));
            let at = offsets::lemma_occurs_in_text(head, needle, i);
            assert(text::occurs_at(head, needle, at));
        }
    }
}

/// Of one probe, a path cannot both exist and be absent, and a size claim holds exactly where
/// both bounds hold.
pub proof fn law_claims_consistent(path: Seq<char>, n: u64, probe: Probe)
    ensures
        !(holds(ClaimView::Exists(path), probe) && holds(ClaimView::NotExists(path), probe)),
        probe is Presence ==> holds(ClaimView::Exists(path), probe) || holds(
            ClaimView::NotExists(path),
            probe,
        ),
        holds(ClaimView::Size(path, n), probe) <==> holds(ClaimView::SizeAtLeast(path, n), probe)
            && holds(ClaimView::SizeAtMost(path, n), probe),
{
}

// ---------------------------------------------------------------------------
// Reports
// ---------------------------------------------------------------------------

/// The results of all claims.
#[derive(Debug, Clone, Default)]
pub struct VerifyReport {
    /// The results, in the order of the claims.
    pub claims: Vec<ClaimResult>,
}

impl View for VerifyReport {
    type V = Seq<ClaimResultView>;

    open spec fn view(&self) -> Seq<ClaimResultView> {
        result_views(self.claims@)
    }
}

/// How many results are `passed`.
pub open spec fn count_results(v: Seq<ClaimResultView>, passed: bool) -> nat
    decreases v.len(),
{
    if v.len() == 0 {
        0
    } else {
        count_results(v.drop_last(), passed) + if v.last().passed == passed {
            1nat
        } else {
            0nat
        }
    }
}

/// There are claims, and all of them hold.
pub open spec fn all_hold(v: Seq<ClaimResultView>) -> bool {
    v.len() > 0 && forall|i: int| 0 <= i < v.len() ==> (#[trigger] v[i]).passed
}

/// Some claim does not hold.
pub open spec fn some_fail(v: Seq<ClaimResultView>) -> bool {
    exists|i: int| 0 <= i < v.len() && !(#[trigger] v[i]).passed
}

/// Every claim either passed or failed; all passed exactly where there are claims and none
/// failed; some failed exactly where the count of the failed is not zero.
pub proof fn law_report_counts(v: Seq<ClaimResultView>)
    ensures
        count_results(v, true) + count_results(v, false) == v.len(),
        some_fail(v) <==> count_results(v, false) > 0,
        all_hold(v) <==> v.len() > 0 && count_results(v, false) == 0,
        all_hold(v) ==> !some_fail(v),
    decreases v.len(),
{
    if v.len() > 0 {
        law_report_counts(v.drop_last());
        let rest = v.drop_last();
        if some_fail(rest) {
            let i = choose|i: int| 0 <= i < rest.len() && !(#[trigger] rest[i]).passed;
            assert(!v[i].passed);
        }
        if some_fail(v) {
            let i = choose|i: int| 0 <= i < v.len() && !(#[trigger] v[i]).passed;
            if i < rest.len() {
                assert(!rest[i].passed);
            }
        }
        assert(!v.last().passed ==> !v[v.len() - 1].passed);
    }
    assert(all_hold(v) <==> v.len() > 0 && !some_fail(v));
}

impl VerifyReport {
    /// How many results are `passed`.
    fn count(&self, passed: bool) -> (r: usize)
        ensures
            r == count_results(self@, passed),
    {
        let ghost all = self@;
        let mut n: usize = 0;
        let mut i: usize = 0;
        assert(all.take(0) =~= Seq::<ClaimResultView>::empty());
        while i < self.claims.len()
            invariant
                n <= i <= self.claims@.len(),
                all == self@,
                n == count_results(all.take(i as int), passed),
            decreases self.claims@.len() - i,
        {
            proof {
                assert(all.take(i + 1).drop_last() =~= all.take(i as int));
                assert(all.take(i + 1).last() == self.claims@[i as int]@);
            }
            if self.claims[i].passed == passed {
                n += 1;
            }
            i += 1;
        }
        assert(all.take(all.len() as int) =~= all);
        n
    }

    /// There are claims, and all of them hold.
    pub fn all_passed(&self) -> (r: bool)
        ensures
            r == all_hold(self@),
    {
        proof {
            law_report_counts(self@);
        }
        self.claims.len() > 0 && self.count(false) == 0
    }

    /// Some claim does not hold.
    pub fn any_failed(&self) -> (r: bool)
        ensures
            r == some_fail(self@),
    {
        proof {
            law_report_counts(self@);
        }
        self.count(false) > 0
    }

    /// How many claims hold.
    pub fn passed_count(&self) -> (r: usize)
        ensures
            r == count_results(self@, true),
    {
        self.count(true)
    }

    /// How many claims do not hold.
    pub fn failed_count(&self) -> (r: usize)
        ensures
            r == count_results(self@, false),
    {
        self.count(false)
    }
}

/// Judges every claim by its probe, return a report.
pub fn verify_all(claims: &[VerifyClaim], probes: &[Probe], vars: &PathVars) -> (r: VerifyReport)
    requires
        claims@.len() == probes@.len(),
        forall|i: int| 0 <= i < claims@.len() ==> fits((#[trigger] claims@[i])@, probes@[i]),
    ensures
        r@ == Seq::new(
            claims@.len(),
            |i: int|
                checked(
                    claims@[i]@,
                    probes@[i],
                    opt_text(vars.home),
                    opt_text(vars.lazar_home),
                ),
        ),
{
    let mut out: Vec<ClaimResult> = Vec::new();
    let mut i: usize = 0;
    while i < claims.len()
        invariant
            i <= claims@.len() == probes@.len(),
            out@.len() == i,
            forall|k: int| 0 <= k < claims@.len() ==> fits((#[trigger] claims@[k])@, probes@[k]),
            forall|k: int|
                0 <= k < i ==> (#[trigger] out@[k])@ == checked(
                    claims@[k]@,
                    probes@[k],
                    opt_text(vars.home),
                    opt_text(vars.lazar_home),
                ),
        decreases claims@.len() - i,
    {
        out.push(check_claim(&claims[i], &probes[i], vars));
        i += 1;
    }
    let r = VerifyReport { claims: out };
    assert(r@ =~= Seq::new(
        claims@.len(),
        |k: int|
            checked(claims@[k]@, probes@[k], opt_text(vars.home), opt_text(vars.lazar_home)),
    ));
    r
}

/// How the `Debug` format writes a path.
pub uninterp spec fn path_debug(path: Seq<char>) -> Seq<char>;

/// How the `Debug` format writes a text.
pub uninterp spec fn text_debug(s: Seq<char>) -> Seq<char>;

/// `Debug` of `std::path::Path`: the path in quotes, with escapes. The contract says only that
/// the result depends on the path alone.
#[verifier::external_body]
fn debug_path(path: &str) -> (r: String)
    ensures
        r@ == path_debug(path@),
{
    format!("{:?}", std::path::Path::new(path))
}

/// `Debug` of `str`: the text in quotes, with escapes. The contract says only that the result
/// depends on the text alone.
#[verifier::external_body]
pub(crate) fn debug_text(s: &str) -> (r: String)
    ensures
        r@ == text_debug(s@),
{
    format!("{:?}", s)
}

/// How a claim is written: the name of its kind, and what it says in brackets.
pub open spec fn claim_debug(claim: ClaimView) -> Seq<char> {
    match claim {
        ClaimView::Exists(p) => "Exists("@ + path_debug(p) + ")"@,
        ClaimView::NotExists(p) => "NotExists("@ + path_debug(p) + ")"@,
        ClaimView::Size(p, n) => "Size("@ + path_debug(p) + ", "@ + numbers::decimal(n as nat)
            + ")"@,
        ClaimView::SizeAtLeast(p, n) => "SizeAtLeast("@ + path_debug(p) + ", "@ + numbers::decimal(
            n as nat,
        ) + ")"@,
        ClaimView::SizeAtMost(p, n) => "SizeAtMost("@ + path_debug(p) + ", "@ + numbers::decimal(
            n as nat,
        ) + ")"@,
        ClaimView::Contains(p, t) => "Contains("@ + path_debug(p) + ", "@ + text_debug(t) + ")"@,
        ClaimView::MtimeWithin(p, n) => "MtimeWithin("@ + path_debug(p) + ", "@ + numbers::decimal(
            n as nat,
        ) + ")"@,
    }
}

fn bracketed(name: &str, path: &str, more: Option<String>) -> (r: String)
    ensures
        r@ == (match more {
            Some(t) => name@ + path_debug(path@) + ", "@ + t@ + ")"@,
            None => name@ + path_debug(path@) + ")"@,
        }),
{
    let mut out = owned(name);
    out.append(debug_path(path).as_str());
    match more {
        Some(t) => {
            out.append(", ");
            out.append(t.as_str());
        },
        None => {},
    }
    out.append(")");
    out
}

/// How a claim is written.
pub fn claim_debug_text(claim: &VerifyClaim) -> (r: String)
    ensures
        r@ == claim_debug(claim@),
{
    match claim {
        VerifyClaim::Exists(p) => bracketed("Exists(", p.as_str(), None),
        VerifyClaim::NotExists(p) => bracketed("NotExists(", p.as_str(), None),
        VerifyClaim::Size(p, n) => bracketed("Size(", p.as_str(), Some(decimal_text(*n as u128))),
        VerifyClaim::SizeAtLeast(p, n) => bracketed(
            "SizeAtLeast(",
            p.as_str(),
            Some(decimal_text(*n as u128)),
        ),
        VerifyClaim::SizeAtMost(p, n) => bracketed(
            "SizeAtMost(",
            p.as_str(),
            Some(decimal_text(*n as u128)),
        ),
        VerifyClaim::Contains(p, t) => bracketed(
            "Contains(",
            p.as_str(),
            Some(debug_text(t.as_str())),
        ),
        VerifyClaim::MtimeWithin(p, n) => bracketed(
            "MtimeWithin(",
            p.as_str(),
            Some(decimal_text(*n as u128)),
        ),
    }
}

/// One line of a banner.
pub open spec fn banner_line(r: ClaimResultView) -> Seq<char> {
    "  "@ + (if r.passed {
        "✓"@
    } else {
        "✗"@
    }) + " "@ + claim_debug(r.claim) + " — "@ + r.note + "\n"@
}

/// The lines for all results.
pub open spec fn banner_lines(v: Seq<ClaimResultView>) -> Seq<char>
    decreases v.len(),
{
    if v.len() == 0 {
        Seq::empty()
    } else {
        banner_lines(v.drop_last()) + banner_line(v.last())
    }
}

/// The banner on a report: nothing without claims, one line where all hold, and a list of all
/// results where some fail.
pub open spec fn banner(v: Seq<ClaimResultView>) -> Seq<char> {
    if v.len() == 0 {
        Seq::empty()
    } else if some_fail(v) {
        "\n"@ + RULE@ + "❌ VERIFY FAILED — "@ + numbers::decimal(count_results(v, false)) + " of "@
            + numbers::decimal(v.len()) + " kernel-side checks failed\n"@ + RULE@ + banner_lines(v)
            + "\nThe assistant declared these claims in a [VERIFY] block.\n"@
            + "The kernel ran the actual filesystem checks. Failed claims\n"@
            + "indicate the assistant's claim of completed work is wrong.\n"@ + RULE@
    } else {
        "\n  ✓ verify: "@ + numbers::decimal(count_results(v, true)) + "/"@ + numbers::decimal(
            v.len(),
        ) + " claims passed (kernel-checked)\n"@
    }
}

/// Format a verify report as a banner. Loud on FAIL, quiet on PASS.
pub fn format_verify_banner(report: &VerifyReport) -> (r: String)
    ensures
        r@ == banner(report@),
{
    if report.claims.len() == 0 {
        return String::new();
    }
    if report.any_failed() {
        let ghost all = report@;
        let mut lines = String::new();
        let mut i: usize = 0;
        assert(all.take(0) =~= Seq::<ClaimResultView>::empty());
        while i < report.claims.len()
            invariant
                i <= report.claims@.len(),
                all == report@,
                lines@ == banner_lines(all.take(i as int)),
            decreases report.claims@.len() - i,
        {
            proof {
                assert(all.take(i + 1).drop_last() =~= all.take(i as int));
                assert(all.take(i + 1).last() == report.claims@[i as int]@);
            }
            let mut line = owned("  ");
            line.append(
                if report.claims[i].passed {
                    "✓"
                } else {
                    "✗"
                },
            );
            line.append(" ");
            line.append(claim_debug_text(&report.claims[i].claim).as_str());
            line.append(" — ");
            line.append(report.claims[i].note.as_str());
            line.append("\n");
            lines.append(line.as_str());
            i += 1;
        }
        assert(all.take(all.len() as int) =~= all);
        let mut out = owned("\n");
        out.append(RULE);
        out.append("❌ VERIFY FAILED — ");
        out.append(size_text(report.failed_count()).as_str());
        out.append(" of ");
        out.append(size_text(report.claims.len()).as_str());
        out.append(" kernel-side checks failed\n");
        out.append(RULE);
        out.append(lines.as_str());
        out.append("\nThe assistant declared these claims in a [VERIFY] block.\n");
        out.append("The kernel ran the actual filesystem checks. Failed claims\n");
        out.append("indicate the assistant's claim of completed work is wrong.\n");
        out.append(RULE);
        out
    } else {
        let mut out = owned("\n  ✓ verify: ");
        out.append(size_text(report.passed_count()).as_str());
        out.append("/");
        out.append(size_text(report.claims.len()).as_str());
        out.append(" claims passed (kernel-checked)\n");
        out
    }
}

/// The event on one result.
pub open spec fn result_event(r: ClaimResultView) -> json::JsonView {
    json::object_of(
        seq![
            ("claim"@, json::JsonView::Str(claim_debug(r.claim))),
            ("passed"@, json::JsonView::Bool(r.passed)),
            ("note"@, json::JsonView::Str(r.note)),
        ],
    )
}

/// The event on a report.
pub open spec fn report_event(v: Seq<ClaimResultView>) -> json::JsonView {
    json::object_of(
        seq![
            ("passed_count"@, json::JsonView::Unsigned(count_results(v, true) as u64)),
            ("failed_count"@, json::JsonView::Unsigned(count_results(v, false) as u64)),
            ("all_passed"@, json::JsonView::Bool(all_hold(v))),
            ("any_failed"@, json::JsonView::Bool(some_fail(v))),
            (
                "claims"@,
                json::JsonView::Array(v.map_values(|r: ClaimResultView| result_event(r))),
            ),
        ],
    )
}

/// Build a structured event payload describing the verify report.
pub fn report_to_event(report: &VerifyReport) -> (r: Json)
    ensures
        r@ == report_event(report@),
{
    let ghost all = report@;
    let mut items: Vec<Json> = Vec::new();
    let mut i: usize = 0;
    while i < report.claims.len()
        invariant
            i <= report.claims@.len(),
            all == report@,
            items@.len() == i,
            forall|k: int| 0 <= k < i ==> (#[trigger] items@[k])@ == result_event(all[k]),
        decreases report.claims@.len() - i,
    {
        let built = ObjectBuilder::new().put_str(
            "claim",
            claim_debug_text(&report.claims[i].claim).as_str(),
        ).put("passed", Json::Bool(report.claims[i].passed)).put_str(
            "note",
            report.claims[i].note.as_str(),
        );
        let ghost r = all[i as int];
        assert(built.entries() =~= seq![
            ("claim"@, json::JsonView::Str(claim_debug(r.claim))),
            ("passed"@, json::JsonView::Bool(r.passed)),
            ("note"@, json::JsonView::Str(r.note)),
        ]);
        items.push(built.done());
        i += 1;
    }
    assert(json::views(items@) =~= all.map_values(|r: ClaimResultView| result_event(r)));
    let built = ObjectBuilder::new().put(
        "passed_count",
        Json::Unsigned(report.passed_count() as u64),
    ).put("failed_count", Json::Unsigned(report.failed_count() as u64)).put(
        "all_passed",
        Json::Bool(report.all_passed()),
    ).put("any_failed", Json::Bool(report.any_failed())).put("claims", json_array(items));
    assert(built.entries() =~= seq![
        ("passed_count"@, json::JsonView::Unsigned(count_results(all, true) as u64)),
        ("failed_count"@, json::JsonView::Unsigned(count_results(all, false) as u64)),
        ("all_passed"@, json::JsonView::Bool(all_hold(all))),
        ("any_failed"@, json::JsonView::Bool(some_fail(all))),
        (
            "claims"@,
            json::JsonView::Array(all.map_values(|r: ClaimResultView| result_event(r))),
        ),
    ]);
    built.done()
}

} // verus!
