//! Byte offsets into texts.

use vstd::prelude::*;
use vstd::slice::slice_subrange;
use vstd::string::StringSliceAdditionalSpecFns;
use vstd::utf8::*;

use crate::text;

verus! {

/// The UTF-8 bytes of a text.
pub open spec fn bytes(s: Seq<char>) -> Seq<u8> {
    encode_utf8(s)
}

/// The characters of `s` between the byte offsets `from` and `to`.
pub open spec fn between(s: Seq<char>, from: int, to: int) -> Seq<char> {
    decode_utf8(bytes(s).subrange(from, to))
}

/// The byte offset `i` lies between two characters of `s`, or at an end.
pub open spec fn boundary(s: Seq<char>, i: int) -> bool {
    is_char_boundary(bytes(s), i)
}

/// The last boundary at or before `i`.
pub open spec fn floor_boundary(s: Seq<char>, i: int) -> int
    decreases i,
{
    if i <= 0 {
        0
    } else if boundary(s, i) {
        i
    } else {
        floor_boundary(s, i - 1)
    }
}

/// The first boundary at or after `i`, where `i` is an offset into `s`.
pub open spec fn ceil_boundary(s: Seq<char>, i: int) -> int
    decreases bytes(s).len() - i,
{
    if i >= bytes(s).len() || boundary(s, i) {
        i
    } else {
        ceil_boundary(s, i + 1)
    }
}

/// Offset zero and the end of a text are boundaries; nothing outside is one.
pub proof fn lemma_boundary_ends(s: Seq<char>)
    ensures
        valid_utf8(bytes(s)),
        boundary(s, 0),
        boundary(s, bytes(s).len() as int),
        forall|i: int| boundary(s, i) ==> 0 <= i <= bytes(s).len(),
{
    encode_utf8_valid_utf8(s);
    is_char_boundary_start_end_of_seq(bytes(s));
}

/// [`floor_boundary`] is a boundary, and no later one lies at or before `i`.
pub proof fn lemma_floor_boundary(s: Seq<char>, i: int)
    requires
        0 <= i,
    ensures
        0 <= floor_boundary(s, i) <= i,
        boundary(s, floor_boundary(s, i)),
        forall|j: int| floor_boundary(s, i) < j <= i ==> !boundary(s, j),
        floor_boundary(s, i) <= bytes(s).len(),
    decreases i,
{
    lemma_boundary_ends(s);
    if i > 0 && !boundary(s, i) {
        lemma_floor_boundary(s, i - 1);
    }
}

/// [`ceil_boundary`] is a boundary, and no earlier one lies at or after `i`.
pub proof fn lemma_ceil_boundary(s: Seq<char>, i: int)
    requires
        0 <= i <= bytes(s).len(),
    ensures
        i <= ceil_boundary(s, i) <= bytes(s).len(),
        boundary(s, ceil_boundary(s, i)),
        forall|j: int| i <= j < ceil_boundary(s, i) ==> !boundary(s, j),
    decreases bytes(s).len() - i,
{
    lemma_boundary_ends(s);
    if i < bytes(s).len() && !boundary(s, i) {
        lemma_ceil_boundary(s, i + 1);
    }
}

/// The bytes of what lies between two boundaries.
pub proof fn lemma_between(s: Seq<char>, from: int, to: int)
    requires
        from <= to,
        boundary(s, from),
        boundary(s, to),
    ensures
        valid_utf8(bytes(s).subrange(from, to)),
        bytes(between(s, from, to)) == bytes(s).subrange(from, to),
        is_char_boundary(bytes(s).subrange(from, bytes(s).len() as int), to - from),
        valid_utf8(bytes(s).subrange(from, bytes(s).len() as int)),
{
    let b = bytes(s);
    let n = b.len() as int;
    lemma_boundary_ends(s);
    valid_utf8_split(b, from);
    let tail = b.subrange(from, n);
    assert(is_char_boundary(tail, to - from)) by {
        if to < n {
            is_char_boundary_iff_not_is_continuation_byte(b, to);
            is_char_boundary_iff_not_is_continuation_byte(tail, to - from);
            assert(tail[to - from] == b[to]);
        } else {
            is_char_boundary_start_end_of_seq(tail);
        }
    }
    valid_utf8_split(tail, to - from);
    assert(tail.subrange(0, to - from) =~= b.subrange(from, to));
    decode_utf8_encode_utf8(b.subrange(from, to));
}

/// Two texts with the same bytes are the same.
pub proof fn lemma_bytes_injective(a: Seq<char>, b: Seq<char>)
    requires
        bytes(a) == bytes(b),
    ensures
        a == b,
{
    encode_utf8_decode_utf8(a);
    encode_utf8_decode_utf8(b);
}

/// Only the empty text has no bytes.
pub proof fn lemma_bytes_empty(s: Seq<char>)
    ensures
        bytes(s).len() == 0 <==> s.len() == 0,
{
    if s.len() == 0 {
        assert(s =~= Seq::<char>::empty());
    } else if bytes(s).len() == 0 {
        assert(bytes(s) =~= bytes(Seq::<char>::empty()));
        lemma_bytes_injective(s, Seq::<char>::empty());
    }
}

/// The bytes of a concatenation.
pub proof fn lemma_bytes_concat(a: Seq<char>, b: Seq<char>)
    ensures
        bytes(a + b) == bytes(a) + bytes(b),
    decreases a.len(),
{
    if a.len() == 0 {
        assert(a + b =~= b);
        assert(bytes(a) + bytes(b) =~= bytes(b));
    } else {
        lemma_bytes_concat(a.drop_first(), b);
        assert((a + b).drop_first() =~= a.drop_first() + b);
        assert(bytes(a + b) =~= bytes(a) + bytes(b));
    }
}

/// Where a text stands in another, its bytes stand in the other's bytes.
pub proof fn lemma_occurs_in_bytes(s: Seq<char>, needle: Seq<char>, i: int) -> (at: int)
    requires
        text::occurs_at(s, needle, i),
    ensures
        text::occurs_at(bytes(s), bytes(needle), at),
{
    let head = s.subrange(0, i);
    let tail = s.subrange(i + needle.len(), s.len() as int);
    assert(s =~= head + needle + tail);
    lemma_bytes_concat(head + needle, tail);
    lemma_bytes_concat(head, needle);
    let at = bytes(head).len() as int;
    assert(bytes(s).subrange(at, at + bytes(needle).len()) =~= bytes(needle));
    at
}

/// Where the bytes of a text stand in those of another, they start and end at boundaries.
pub proof fn lemma_occurrence_boundaries(s: Seq<char>, needle: Seq<char>, i: int)
    requires
        needle.len() > 0,
        text::occurs_at(bytes(s), bytes(needle), i),
    ensures
        boundary(s, i),
        boundary(s, i + bytes(needle).len()),
{
    let b = bytes(s);
    let n = bytes(needle);
    let end = i + n.len();
    lemma_boundary_ends(s);
    lemma_boundary_ends(needle);
    lemma_bytes_empty(needle);
    assert(b[i] == b.subrange(i, end)[0]);
    is_char_boundary_iff_not_is_continuation_byte(n, 0);
    is_char_boundary_iff_not_is_continuation_byte(b, i);
    valid_utf8_split(b, i);
    let tail = b.subrange(i, b.len() as int);
    assert(tail.subrange(0, n.len() as int) =~= n);
    let rest = tail.subrange(n.len() as int, tail.len() as int);
    if !valid_utf8(rest) {
        partial_valid_partial_invalid_utf8(tail, n.len() as int);
    }
    if end < b.len() {
        is_char_boundary_start_end_of_seq(rest);
        is_char_boundary_iff_not_is_continuation_byte(rest, 0);
        assert(rest[0] == b[end]);
        is_char_boundary_iff_not_is_continuation_byte(b, end);
    }
}

/// Where the bytes of a text stand in those of another, the text stands in the other.
pub proof fn lemma_occurs_in_text(s: Seq<char>, needle: Seq<char>, i: int) -> (at: int)
    requires
        needle.len() > 0,
        text::occurs_at(bytes(s), bytes(needle), i),
    ensures
        text::occurs_at(s, needle, at),
{
    let b = bytes(s);
    let end = i + bytes(needle).len();
    lemma_occurrence_boundaries(s, needle, i);
    lemma_boundary_ends(s);
    lemma_between(s, 0, i);
    lemma_between(s, i, end);
    lemma_between(s, end, b.len() as int);
    let head = between(s, 0, i);
    let tail = between(s, end, b.len() as int);
    lemma_bytes_injective(between(s, i, end), needle);
    lemma_bytes_concat(head + needle, tail);
    lemma_bytes_concat(head, needle);
    assert(bytes(head + needle + tail) =~= b);
    lemma_bytes_injective(head + needle + tail, s);
    let at = head.len() as int;
    assert(s.subrange(at, at + needle.len()) =~= needle);
    at
}

/// A text of ASCII characters has one byte for each of them.
pub proof fn lemma_ascii_bytes(s: Seq<char>)
    requires
        is_ascii_chars(s),
    ensures
        bytes(s).len() == s.len(),
{
    is_ascii_chars_encode_utf8(s);
}

/// The number of bytes of a text.
pub fn byte_len(s: &str) -> (n: usize)
    ensures
        n == bytes(s@).len(),
{
    s.as_bytes().len()
}

/// The text between two boundaries.
pub fn slice_text(s: &str, from: usize, to: usize) -> (r: &str)
    requires
        from <= to,
        boundary(s@, from as int),
        boundary(s@, to as int),
    ensures
        r@ == between(s@, from as int, to as int),
        bytes(r@) == bytes(s@).subrange(from as int, to as int),
{
    proof {
        lemma_between(s@, from as int, to as int);
        lemma_boundary_ends(s@);
    }
    let tail = s.split_at(from).1;
    let r = tail.split_at(to - from).0;
    proof {
        assert(bytes(tail@).subrange(0, to - from) =~= bytes(s@).subrange(from as int, to as int));
        encode_utf8_decode_utf8(r@);
    }
    r
}

/// The last boundary at or before `i`.
pub fn floor_of(s: &str, i: usize) -> (r: usize)
    ensures
        r == floor_boundary(s@, i as int),
{
    let mut at: usize = i;
    while at > 0 && !s.is_char_boundary(at)
        invariant
            floor_boundary(s@, at as int) == floor_boundary(s@, i as int),
        decreases at,
    {
        at -= 1;
    }
    at
}

/// The first boundary at or after the offset `i`.
pub fn ceil_of(s: &str, i: usize) -> (r: usize)
    requires
        i <= bytes(s@).len(),
    ensures
        r == ceil_boundary(s@, i as int),
        r <= bytes(s@).len(),
{
    let n: usize = byte_len(s);
    let mut at: usize = i;
    while at < n && !s.is_char_boundary(at)
        invariant
            n == bytes(s@).len(),
            at <= n,
            ceil_boundary(s@, at as int) == ceil_boundary(s@, i as int),
        decreases n - at,
    {
        at += 1;
    }
    at
}

/// The two byte slices are the same.
pub fn same_bytes(a: &[u8], b: &[u8]) -> (r: bool)
    ensures
        r == (a@ == b@),
{
    if a.len() != b.len() {
        return false;
    }
    let mut i: usize = 0;
    while i < a.len()
        invariant
            i <= a.len(),
            a.len() == b.len(),
            forall|j: int| 0 <= j < i ==> a@[j] == b@[j],
        decreases a.len() - i,
    {
        if a[i] != b[i] {
            return false;
        }
        i += 1;
    }
    assert(a@ =~= b@);
    true
}

/// `needle` stands in `hay` at offset `i`.
pub fn bytes_match_at(hay: &[u8], needle: &[u8], i: usize) -> (r: bool)
    ensures
        r == text::occurs_at(hay@, needle@, i as int),
{
    if needle.len() > hay.len() || i > hay.len() - needle.len() {
        return false;
    }
    same_bytes(slice_subrange(hay, i, i + needle.len()), needle)
}

/// The first offset at or after `from` where `needle` stands in `hay`.
pub fn find_bytes_from(hay: &[u8], needle: &[u8], from: usize) -> (r: Option<usize>)
    ensures
        match r {
            Some(i) => text::find_from(hay@, needle@, from as int) == Some(i as int),
            None => text::find_from(hay@, needle@, from as int) is None,
        },
{
    if needle.len() > hay.len() {
        return None;
    }
    let last: usize = hay.len() - needle.len();
    let mut i: usize = from;
    while i <= last
        invariant
            from <= i,
            last == hay@.len() - needle@.len(),
            text::find_from(hay@, needle@, from as int) == text::find_from(hay@, needle@, i as int),
        decreases last + 1 - i,
    {
        if bytes_match_at(hay, needle, i) {
            return Some(i);
        }
        if i == last {
            assert(text::find_from(hay@, needle@, i + 1) is None);
            return None;
        }
        i += 1;
    }
    None
}

} // verus!
