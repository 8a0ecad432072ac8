//! Text as a sequence of characters: searching, trimming and splitting.
//!
//! Slices of characters are used as cursors into a text; byte offsets are
//! used only where a rule is stated in bytes.

use vstd::prelude::*;
use vstd::slice::slice_subrange;
use vstd::string::StringSliceAdditionalSpecFns;
use vstd::utf8::*;

verus! {

/// `String::push` appends the given character to the end of the string.
pub assume_specification[ String::push ](s: &mut String, c: char)
    ensures
        final(s)@ == old(s)@.push(c),
;

// ---------------------------------------------------------------------------
// Occurrences
// ---------------------------------------------------------------------------

/// `needle` stands in `hay` at position `i`.
pub open spec fn occurs_at<T>(hay: Seq<T>, needle: Seq<T>, i: int) -> bool {
    0 <= i && i + needle.len() <= hay.len() && hay.subrange(i, i + needle.len()) == needle
}

/// The first position at or after `from` where `needle` stands in `hay`.
pub open spec fn find_from<T>(hay: Seq<T>, needle: Seq<T>, from: int) -> Option<int>
    decreases hay.len() - from + 1,
{
    if from < 0 || from + needle.len() > hay.len() {
        None
    } else if occurs_at(hay, needle, from) {
        Some(from)
    } else {
        find_from(hay, needle, from + 1)
    }
}

/// The first position of `needle` in `hay`.
pub open spec fn find<T>(hay: Seq<T>, needle: Seq<T>) -> Option<int> {
    find_from(hay, needle, 0)
}

/// The first position of the item `x` in `s`.
pub open spec fn index_of<T>(s: Seq<T>, x: T) -> Option<int> {
    find(s, seq![x])
}

/// The last position of the item `x` in `s`.
pub open spec fn last_index_of<T>(s: Seq<T>, x: T) -> Option<int>
    decreases s.len(),
{
    if s.len() == 0 {
        None
    } else if s.last() == x {
        Some(s.len() - 1)
    } else {
        last_index_of(s.drop_last(), x)
    }
}

/// `s` begins with `prefix`.
pub open spec fn begins_with<T>(s: Seq<T>, prefix: Seq<T>) -> bool {
    occurs_at(s, prefix, 0)
}

/// `s` ends with `suffix`.
pub open spec fn ends_with<T>(s: Seq<T>, suffix: Seq<T>) -> bool {
    occurs_at(s, suffix, s.len() - suffix.len())
}

/// What [`find_from`] finds is an occurrence, and no earlier one was passed over.
pub proof fn lemma_find_from<T>(hay: Seq<T>, needle: Seq<T>, from: int)
    requires
        0 <= from,
    ensures
        match find_from(hay, needle, from) {
            Some(i) => from <= i && occurs_at(hay, needle, i) && forall|j: int|
                from <= j < i ==> !occurs_at(hay, needle, j),
            None => forall|j: int| from <= j ==> !occurs_at(hay, needle, j),
        },
    decreases hay.len() - from + 1,
{
    if from + needle.len() <= hay.len() && !occurs_at(hay, needle, from) {
        lemma_find_from(hay, needle, from + 1);
    }
}

/// A position of an item is an index that holds it.
pub proof fn lemma_index_of<T>(s: Seq<T>, x: T)
    ensures
        match index_of(s, x) {
            Some(i) => 0 <= i < s.len() && s[i] == x && forall|j: int| 0 <= j < i ==> s[j] != x,
            None => forall|j: int| 0 <= j < s.len() ==> s[j] != x,
        },
{
    lemma_find_from(s, seq![x], 0);
    assert forall|j: int| 0 <= j < s.len() && s[j] == x implies occurs_at(s, seq![x], j) by {
        assert(s.subrange(j, j + 1) =~= seq![x]);
    }
    assert forall|j: int| occurs_at(s, seq![x], j) implies s[j] == x by {
        assert(s.subrange(j, j + 1)[0] == x);
    }
}

/// The last position of an item is an index that holds it, and none after it does.
pub proof fn lemma_last_index_of<T>(s: Seq<T>, x: T)
    ensures
        match last_index_of(s, x) {
            Some(i) => 0 <= i < s.len() && s[i] == x && forall|j: int|
                i < j < s.len() ==> s[j] != x,
            None => forall|j: int| 0 <= j < s.len() ==> s[j] != x,
        },
    decreases s.len(),
{
    if s.len() > 0 && s.last() != x {
        lemma_last_index_of(s.drop_last(), x);
        assert forall|j: int| 0 <= j < s.len() - 1 implies s[j] == s.drop_last()[j] by {}
    }
}

// ---------------------------------------------------------------------------
// Characters and slices
// ---------------------------------------------------------------------------

/// The characters of a text.
pub fn chars_of(s: &str) -> (r: Vec<char>)
    ensures
        r@ == s@,
{
    let mut out: Vec<char> = Vec::new();
    for c in it: s.chars()
        invariant
            out@ == it.seq().take(it.index() as int),
            it.seq() == s@,
    {
        out.push(c);
        assert(it.seq().take(it.index() as int + 1) =~= it.seq().take(it.index() as int).push(c));
    }
    assert(s@.take(s@.len() as int) =~= s@);
    out
}

/// The text made of the given characters.
pub fn string_of(v: &[char]) -> (r: String)
    ensures
        r@ == v@,
{
    let mut out = String::new();
    let mut i: usize = 0;
    while i < v.len()
        invariant
            i <= v.len(),
            out@ == v@.take(i as int),
        decreases v.len() - i,
    {
        out.push(v[i]);
        assert(v@.take(i + 1) =~= v@.take(i as int).push(v@[i as int]));
        i += 1;
    }
    assert(v@.take(v@.len() as int) =~= v@);
    out
}

/// An owned copy of a text.
pub fn owned(s: &str) -> (r: String)
    ensures
        r@ == s@,
{
    s.to_owned()
}

/// The two character slices hold the same characters.
pub fn same_chars(a: &[char], b: &[char]) -> (r: bool)
    ensures
        r == (a@ == b@),
{
    if a.len() != b.len() {
        return false;
    }
    let mut i: usize = 0;
    while i < a.len()
        invariant
            i <= a.len(),
            a.len() == b.len(),
            forall|j: int| 0 <= j < i ==> a@[j] == b@[j],
        decreases a.len() - i,
    {
        if a[i] != b[i] {
            return false;
        }
        i += 1;
    }
    assert(a@ =~= b@);
    true
}

/// The slice spells the text `s`.
pub fn spells(a: &[char], s: &str) -> (r: bool)
    ensures
        r == (a@ == s@),
{
    same_chars(a, chars_of(s).as_slice())
}

/// The two texts are the same.
pub fn same_text(a: &str, b: &str) -> (r: bool)
    ensures
        r == (a@ == b@),
{
    spells(chars_of(a).as_slice(), b)
}

/// `needle` stands in `hay` at position `i`.
pub fn chars_match_at(hay: &[char], needle: &[char], i: usize) -> (r: bool)
    ensures
        r == occurs_at(hay@, needle@, i as int),
{
    if needle.len() > hay.len() || i > hay.len() - needle.len() {
        return false;
    }
    let r = same_chars(slice_subrange(hay, i, i + needle.len()), needle);
    r
}

/// The first position at or after `from` where `needle` stands in `hay`.
pub fn find_chars_from(hay: &[char], needle: &[char], from: usize) -> (r: Option<usize>)
    ensures
        match r {
            Some(i) => find_from(hay@, needle@, from as int) == Some(i as int),
            None => find_from(hay@, needle@, from as int) is None,
        },
{
    if needle.len() > hay.len() {
        return None;
    }
    let last: usize = hay.len() - needle.len();
    let mut i: usize = from;
    while i <= last
        invariant
            from <= i,
            last == hay@.len() - needle@.len(),
            find_from(hay@, needle@, from as int) == find_from(hay@, needle@, i as int),
        decreases last + 1 - i,
    {
        if chars_match_at(hay, needle, i) {
            return Some(i);
        }
        if i == last {
            assert(find_from(hay@, needle@, i + 1) is None);
            return None;
        }
        i += 1;
    }
    None
}

/// The first position of `needle` in `hay`.
pub fn find_chars(hay: &[char], needle: &[char]) -> (r: Option<usize>)
    ensures
        match r {
            Some(i) => find(hay@, needle@) == Some(i as int),
            None => find(hay@, needle@) is None,
        },
{
    find_chars_from(hay, needle, 0)
}

/// The first position of the text `needle` in `hay`.
pub fn find_text(hay: &[char], needle: &str) -> (r: Option<usize>)
    ensures
        match r {
            Some(i) => find(hay@, needle@) == Some(i as int),
            None => find(hay@, needle@) is None,
        },
{
    find_chars(hay, chars_of(needle).as_slice())
}

/// The first position of a character.
pub fn find_char(hay: &[char], c: char) -> (r: Option<usize>)
    ensures
        match r {
            Some(i) => index_of(hay@, c) == Some(i as int),
            None => index_of(hay@, c) is None,
        },
{
    let one: Vec<char> = vec![c];
    assert(one@ =~= seq![c]);
    find_chars(hay, one.as_slice())
}

/// The last position of a character.
pub fn rfind_char(hay: &[char], c: char) -> (r: Option<usize>)
    ensures
        match r {
            Some(i) => last_index_of(hay@, c) == Some(i as int),
            None => last_index_of(hay@, c) is None,
        },
{
    let mut i: usize = hay.len();
    assert(hay@.take(hay@.len() as int) =~= hay@);
    while i > 0
        invariant
            i <= hay.len(),
            last_index_of(hay@, c) == last_index_of(hay@.take(i as int), c),
        decreases i,
    {
        i -= 1;
        assert(hay@.take(i + 1).drop_last() =~= hay@.take(i as int));
        if hay[i] == c {
            return Some(i);
        }
    }
    None
}

/// The text begins with `prefix`.
pub fn text_begins_with(s: &str, prefix: &str) -> (r: bool)
    ensures
        r == begins_with(s@, prefix@),
{
    chars_match_at(chars_of(s).as_slice(), chars_of(prefix).as_slice(), 0)
}

/// The text ends with `suffix`.
pub fn text_ends_with(s: &str, suffix: &str) -> (r: bool)
    ensures
        r == ends_with(s@, suffix@),
{
    let hay = chars_of(s);
    let needle = chars_of(suffix);
    if needle.len() > hay.len() {
        return false;
    }
    chars_match_at(hay.as_slice(), needle.as_slice(), hay.len() - needle.len())
}

/// `needle` stands somewhere in `s`.
pub open spec fn has_text(s: Seq<char>, needle: Seq<char>) -> bool {
    find(s, needle) is Some
}

/// `needle` stands somewhere in `s`.
pub fn text_contains(s: &str, needle: &str) -> (r: bool)
    ensures
        r == has_text(s@, needle@),
{
    find_text(chars_of(s).as_slice(), needle).is_some()
}

// ---------------------------------------------------------------------------
// Trimming
// ---------------------------------------------------------------------------

/// The Unicode `White_Space` property.
pub open spec fn is_white(c: char) -> bool {
    ||| '\u{9}' <= c <= '\u{d}'
    ||| c == ' '
    ||| c == '\u{85}'
    ||| c == '\u{a0}'
    ||| c == '\u{1680}'
    ||| '\u{2000}' <= c <= '\u{200a}'
    ||| c == '\u{2028}'
    ||| c == '\u{2029}'
    ||| c == '\u{202f}'
    ||| c == '\u{205f}'
    ||| c == '\u{3000}'
}

/// Characters that are cut off the ends of a text.
#[derive(Clone, Copy, Debug, PartialEq, Eq, Structural)]
pub enum CharClass {
    /// White space.
    White,
    /// The bullets `-`, `*` and `•`.
    Bullet,
    /// The backtick.
    Backtick,
    /// The forward slash.
    Slash,
}

impl CharClass {
    /// The class holds `c`.
    pub open spec fn holds(self, c: char) -> bool {
        match self {
            CharClass::White => is_white(c),
            CharClass::Bullet => c == '-' || c == '*' || c == '•',
            CharClass::Backtick => c == '`',
            CharClass::Slash => c == '/',
        }
    }

    /// The class holds `c`.
    pub fn has(self, c: char) -> (r: bool)
        ensures
            r == self.holds(c),
    {
        match self {
            CharClass::White => {
                ('\u{9}' <= c && c <= '\u{d}') || c == ' ' || c == '\u{85}' || c == '\u{a0}' || c
                    == '\u{1680}' || ('\u{2000}' <= c && c <= '\u{200a}') || c == '\u{2028}' || c
                    == '\u{2029}' || c == '\u{202f}' || c == '\u{205f}' || c == '\u{3000}'
            },
            CharClass::Bullet => c == '-' || c == '*' || c == '•',
            CharClass::Backtick => c == '`',
            CharClass::Slash => c == '/',
        }
    }
}

/// `s` without the leading characters of the class.
pub open spec fn strip_start(s: Seq<char>, class: CharClass) -> Seq<char>
    decreases s.len(),
{
    if s.len() > 0 && class.holds(s[0]) {
        strip_start(s.drop_first(), class)
    } else {
        s
    }
}

/// `s` without the trailing characters of the class.
pub open spec fn strip_end(s: Seq<char>, class: CharClass) -> Seq<char>
    decreases s.len(),
{
    if s.len() > 0 && class.holds(s.last()) {
        strip_end(s.drop_last(), class)
    } else {
        s
    }
}

/// `s` without the characters of the class at either end.
pub open spec fn strip(s: Seq<char>, class: CharClass) -> Seq<char> {
    strip_end(strip_start(s, class), class)
}

/// `s` without white space at either end.
pub open spec fn trim(s: Seq<char>) -> Seq<char> {
    strip(s, CharClass::White)
}

/// Cuts the leading characters of the class.
pub fn strip_start_chars(v: &[char], class: CharClass) -> (r: &[char])
    ensures
        r@ == strip_start(v@, class),
        r@.len() <= v@.len(),
{
    let mut i: usize = 0;
    assert(v@.subrange(0, v@.len() as int) =~= v@);
    while i < v.len() && class.has(v[i])
        invariant
            i <= v.len(),
            strip_start(v@, class) == strip_start(v@.subrange(i as int, v@.len() as int), class),
        decreases v.len() - i,
    {
        assert(v@.subrange(i as int, v@.len() as int).drop_first() =~= v@.subrange(
            i + 1,
            v@.len() as int,
        ));
        i += 1;
    }
    slice_subrange(v, i, v.len())
}

/// Cuts the trailing characters of the class.
pub fn strip_end_chars(v: &[char], class: CharClass) -> (r: &[char])
    ensures
        r@ == strip_end(v@, class),
        r@.len() <= v@.len(),
{
    let mut i: usize = v.len();
    assert(v@.subrange(0, v@.len() as int) =~= v@);
    while i > 0 && class.has(v[i - 1])
        invariant
            i <= v.len(),
            strip_end(v@, class) == strip_end(v@.subrange(0, i as int), class),
        decreases i,
    {
        assert(v@.subrange(0, i as int).drop_last() =~= v@.subrange(0, i - 1));
        i -= 1;
    }
    slice_subrange(v, 0, i)
}

/// Cuts the characters of the class at either end.
pub fn strip_chars(v: &[char], class: CharClass) -> (r: &[char])
    ensures
        r@ == strip(v@, class),
        r@.len() <= v@.len(),
{
    strip_end_chars(strip_start_chars(v, class), class)
}

/// Cuts the white space at either end.
pub fn trim_chars(v: &[char]) -> (r: &[char])
    ensures
        r@ == trim(v@),
        r@.len() <= v@.len(),
{
    strip_chars(v, CharClass::White)
}

/// The text without white space at either end.
pub fn trimmed(s: &str) -> (r: String)
    ensures
        r@ == trim(s@),
{
    string_of(trim_chars(chars_of(s).as_slice()))
}

/// A trimmed text has no white space at its ends, and trimming it again keeps it.
pub proof fn lemma_trim_idempotent(s: Seq<char>)
    ensures
        trim(trim(s)) == trim(s),
        trim(s).len() > 0 ==> !is_white(trim(s)[0]) && !is_white(trim(s).last()),
{
    lemma_strip_start_head(s, CharClass::White);
    lemma_strip_end_ends(strip_start(s, CharClass::White), CharClass::White);
}

proof fn lemma_strip_start_head(s: Seq<char>, class: CharClass)
    ensures
        strip_start(s, class).len() > 0 ==> !class.holds(strip_start(s, class)[0]),
    decreases s.len(),
{
    if s.len() > 0 && class.holds(s[0]) {
        lemma_strip_start_head(s.drop_first(), class);
    }
}

proof fn lemma_strip_end_ends(s: Seq<char>, class: CharClass)
    ensures
        strip_end(s, class).len() > 0 ==> !class.holds(strip_end(s, class).last()) && strip_end(
            s,
            class,
        )[0] == s[0],
    decreases s.len(),
{
    if s.len() > 0 && class.holds(s.last()) {
        lemma_strip_end_ends(s.drop_last(), class);
    }
}

// ---------------------------------------------------------------------------
// Splitting
// ---------------------------------------------------------------------------

/// The parts before and after the first `c`.
pub open spec fn split_once(s: Seq<char>, c: char) -> Option<(Seq<char>, Seq<char>)> {
    match index_of(s, c) {
        Some(i) => Some((s.subrange(0, i), s.subrange(i + 1, s.len() as int))),
        None => None,
    }
}

/// The parts before and after the last `c`.
pub open spec fn rsplit_once(s: Seq<char>, c: char) -> Option<(Seq<char>, Seq<char>)> {
    match last_index_of(s, c) {
        Some(i) => Some((s.subrange(0, i), s.subrange(i + 1, s.len() as int))),
        None => None,
    }
}

/// The pieces between the occurrences of `c`: one more than there are of those.
pub open spec fn pieces(s: Seq<char>, c: char) -> Seq<Seq<char>>
    decreases s.len(),
{
    match index_of(s, c) {
        Some(i) => if 0 <= i < s.len() {
            seq![s.subrange(0, i)] + pieces(s.subrange(i + 1, s.len() as int), c)
        } else {
            seq![s]
        },
        None => seq![s],
    }
}

/// The contents of a list of texts.
pub open spec fn texts(v: Seq<String>) -> Seq<Seq<char>> {
    v.map_values(|s: String| s@)
}

/// Splits at the first `c`.
pub fn split_once_chars(v: &[char], c: char) -> (r: Option<(&[char], &[char])>)
    ensures
        match r {
            Some(p) => split_once(v@, c) == Some((p.0@, p.1@)),
            None => split_once(v@, c) is None,
        },
{
    let n: usize = v.len();
    proof {
        lemma_index_of(v@, c);
    }
    match find_char(v, c) {
        Some(i) => Some((slice_subrange(v, 0, i), slice_subrange(v, i + 1, n))),
        None => None,
    }
}

/// Splits at the last `c`.
pub fn rsplit_once_chars(v: &[char], c: char) -> (r: Option<(&[char], &[char])>)
    ensures
        match r {
            Some(p) => rsplit_once(v@, c) == Some((p.0@, p.1@)),
            None => rsplit_once(v@, c) is None,
        },
{
    let n: usize = v.len();
    proof {
        lemma_last_index_of(v@, c);
    }
    match rfind_char(v, c) {
        Some(i) => Some((slice_subrange(v, 0, i), slice_subrange(v, i + 1, n))),
        None => None,
    }
}

/// The pieces between the occurrences of `c`.
pub fn pieces_of(v: &[char], c: char) -> (r: Vec<String>)
    ensures
        texts(r@) == pieces(v@, c),
{
    let mut out: Vec<String> = Vec::new();
    let mut rest: &[char] = v;
    assert(texts(out@) + pieces(v@, c) =~= pieces(v@, c));
    loop
        invariant
            texts(out@) + pieces(rest@, c) == pieces(v@, c),
        decreases rest@.len(),
    {
        let n: usize = rest.len();
        proof {
            lemma_index_of(rest@, c);
        }
        let ghost before = out@;
        match find_char(rest, c) {
            Some(i) => {
                out.push(string_of(slice_subrange(rest, 0, i)));
                let ghost tail = rest@.subrange(i + 1, rest@.len() as int);
                assert(texts(out@) + pieces(tail, c) =~= texts(before) + pieces(rest@, c));
                rest = slice_subrange(rest, i + 1, n);
            },
            None => {
                out.push(string_of(rest));
                assert(texts(out@) =~= texts(before) + pieces(rest@, c));
                return out;
            },
        }
    }
}

} // verus!
