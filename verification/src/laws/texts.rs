//! How texts, paths and numbers are taken apart and put together.

use vstd::prelude::*;

use crate::numbers;
use crate::paths;
use crate::text;
use crate::text::CharClass;

verus! {

/// The character does not stand in the text.
pub open spec fn lacks_char(s: Seq<char>, c: char) -> bool {
    forall|i: int| 0 <= i < s.len() ==> #[trigger] s[i] != c
}

/// Stripping takes away the characters of the class at both ends, all of them and no others.
pub proof fn law_strip(s: Seq<char>, class: CharClass)
    ensures
        exists|a: int, b: int|
            {
                &&& 0 <= a <= b <= s.len()
                &&& #[trigger] s.subrange(a, b) == text::strip(s, class)
                &&& forall|i: int| 0 <= i < a || b <= i < s.len() ==> class.holds(#[trigger] s[i])
                &&& a < b ==> !class.holds(s[a]) && !class.holds(s[b - 1])
            },
{
    let a = lemma_start(s, class);
    let t = text::strip_start(s, class);
    let n = lemma_end(t, class);
    assert(t.subrange(0, n) =~= s.subrange(a, a + n));
    assert forall|i: int| 0 <= i < a || a + n <= i < s.len() implies class.holds(
        #[trigger] s[i],
    ) by {
        if i >= a + n {
            assert(t[i - a] == s[i]);
        }
    }
    if n > 0 {
        assert(t[0] == s[a]);
        assert(t[n - 1] == s[a + n - 1]);
    }
}

proof fn lemma_start(s: Seq<char>, class: CharClass) -> (a: int)
    ensures
        0 <= a <= s.len(),
        text::strip_start(s, class) == s.subrange(a, s.len() as int),
        forall|i: int| 0 <= i < a ==> class.holds(#[trigger] s[i]),
        a < s.len() ==> !class.holds(s[a]),
    decreases s.len(),
{
    assert(s.subrange(0, s.len() as int) =~= s);
    if s.len() > 0 && class.holds(s[0]) {
        let rest = s.drop_first();
        let a = lemma_start(rest, class);
        assert(rest.subrange(a, rest.len() as int) =~= s.subrange(a + 1, s.len() as int));
        assert forall|i: int| 0 <= i < a + 1 implies class.holds(#[trigger] s[i]) by {
            if i > 0 {
                assert(rest[i - 1] == s[i]);
            }
        }
        a + 1
    } else {
        0
    }
}

proof fn lemma_end(s: Seq<char>, class: CharClass) -> (n: int)
    ensures
        0 <= n <= s.len(),
        text::strip_end(s, class) == s.subrange(0, n),
        forall|i: int| n <= i < s.len() ==> class.holds(#[trigger] s[i]),
        n > 0 ==> !class.holds(s[n - 1]),
    decreases s.len(),
{
    assert(s.subrange(0, s.len() as int) =~= s);
    if s.len() > 0 && class.holds(s.last()) {
        let rest = s.drop_last();
        let n = lemma_end(rest, class);
        assert(rest.subrange(0, n) =~= s.subrange(0, n));
        assert forall|i: int| n <= i < s.len() implies class.holds(#[trigger] s[i]) by {
            if i < rest.len() {
                assert(rest[i] == s[i]);
            }
        }
        n
    } else {
        s.len() as int
    }
}

/// What the classes hold; of ASCII, white space is the blank and the controls from tab to carriage
/// return.
pub proof fn law_classes(c: char)
    ensures
        c as u32 <= 127 ==> (CharClass::White.holds(c) <==> c == ' ' || '\t' <= c <= '\r'),
        CharClass::Bullet.holds(c) <==> c == '-' || c == '*' || c == '•',
        CharClass::Backtick.holds(c) <==> c == '`',
        CharClass::Slash.holds(c) <==> c == '/',
{
}

/// A text with the mark is taken apart at the first one, and one without is not.
pub proof fn law_split_once(a: Seq<char>, c: char, b: Seq<char>)
    requires
        lacks_char(a, c),
    ensures
        text::split_once(a.push(c) + b, c) == Some((a, b)),
        text::split_once(a, c) is None,
{
    let s = a.push(c) + b;
    text::lemma_index_of(s, c);
    text::lemma_index_of(a, c);
    assert(s[a.len() as int] == c);
    let i = text::index_of(s, c)->0;
    if i < a.len() {
        assert(s[i] == a[i]);
    }
    assert(i == a.len());
    assert(s.subrange(0, i) =~= a);
    assert(s.subrange(i + 1, s.len() as int) =~= b);
}

/// A text with the mark is taken apart at the last one, and one without is not.
pub proof fn law_rsplit_once(a: Seq<char>, c: char, b: Seq<char>)
    requires
        lacks_char(b, c),
    ensures
        text::rsplit_once(a.push(c) + b, c) == Some((a, b)),
        text::rsplit_once(b, c) is None,
{
    let s = a.push(c) + b;
    text::lemma_last_index_of(s, c);
    text::lemma_last_index_of(b, c);
    assert(s[a.len() as int] == c);
    let i = text::last_index_of(s, c)->0;
    if i > a.len() {
        assert(s[i] == b[i - a.len() - 1]);
    }
    assert(i == a.len());
    assert(s.subrange(0, i) =~= a);
    assert(s.subrange(i + 1, s.len() as int) =~= b);
}

/// A text falls into the pieces between its marks, in order.
pub proof fn law_pieces(a: Seq<char>, c: char, b: Seq<char>)
    requires
        lacks_char(a, c),
    ensures
        text::pieces(a, c) == seq![a],
        text::pieces(a.push(c) + b, c) == seq![a] + text::pieces(b, c),
{
    let s = a.push(c) + b;
    text::lemma_index_of(s, c);
    text::lemma_index_of(a, c);
    assert(s[a.len() as int] == c);
    let i = text::index_of(s, c)->0;
    if i < a.len() {
        assert(s[i] == a[i]);
    }
    assert(i == a.len());
    assert(s.subrange(0, i) =~= a);
    assert(s.subrange(i + 1, s.len() as int) =~= b);
}

/// A relative path goes below its base, with one slash between them; an absolute one stands alone.
pub proof fn law_joined(base: Seq<char>, rest: Seq<char>)
    ensures
        rest.len() > 0 && rest[0] == '/' ==> paths::joined(base, rest) == rest,
        base.len() > 0 && base.last() != '/' && !(rest.len() > 0 && rest[0] == '/')
            ==> paths::joined(base, rest) == base.push('/') + rest,
        base.len() > 0 && base.last() == '/' && !(rest.len() > 0 && rest[0] == '/')
            ==> paths::joined(base, rest) == base + rest,
{
    reveal_strlit("/");
    assert("/"@ =~= seq!['/']);
    if rest.len() > 0 {
        assert(rest.subrange(0, 1) =~= seq![rest[0]]);
        assert(seq![rest[0]] == seq!['/'] ==> seq![rest[0]][0] == '/');
    }
    if base.len() > 0 {
        let n = base.len() - 1;
        assert(base.subrange(n, n + 1) =~= seq![base.last()]);
        assert(seq![base.last()] == seq!['/'] ==> seq![base.last()][0] == '/');
        assert(base + "/"@ + rest =~= base.push('/') + rest);
    }
}

/// A number below zero has a minus sign before its digits.
pub proof fn law_signed_decimal(n: nat)
    ensures
        numbers::signed_decimal(n as int) == numbers::decimal(n),
        n > 0 ==> numbers::signed_decimal(-(n as int)) == seq!['-'] + numbers::decimal(n),
{
}

/// A number is read from its digits, with or without a plus sign; anything else in the text, or a
/// number beyond the limit, and none is read.
pub proof fn law_parsed_number(s: Seq<char>, n: nat, max: nat, i: int)
    ensures
        n <= max ==> numbers::parsed_number(numbers::decimal(n), max as int) == Some(n as int),
        n <= max ==> numbers::parsed_number(seq!['+'] + numbers::decimal(n), max as int) == Some(
            n as int,
        ),
        n > max ==> numbers::parsed_number(numbers::decimal(n), max as int) is None,
        numbers::parsed_number(Seq::empty(), max as int) is None,
        0 <= i < s.len() && !('0' <= s[i] <= '9') && !(i == 0 && s[i] == '+')
            ==> numbers::parsed_number(s, max as int) is None,
        numbers::parsed_number(s, max as int) is Some ==> 0 <= numbers::parsed_number(
            s,
            max as int,
        )->0 <= max,
{
    let top = if n > max {
        n as int
    } else {
        max as int
    };
    numbers::law_decimal_reads_back(n, top);
    let d = numbers::decimal(n);
    assert((seq!['+'] + d).drop_first() =~= d);
    lemma_no_plus(n);
    let rest = numbers::without_plus(s);
    if 0 <= i < s.len() && !('0' <= s[i] <= '9') && !(i == 0 && s[i] == '+') {
        if s[0] == '+' {
            assert(rest[i - 1] == s[i]);
        }
        assert(!numbers::all_digits(rest));
    }
    if numbers::all_digits(rest) {
        lemma_value(rest);
    }
}

proof fn lemma_value(s: Seq<char>)
    requires
        numbers::all_digits(s),
    ensures
        0 <= numbers::digits_value(s),
    decreases s.len(),
{
    if s.len() > 0 {
        assert(numbers::is_digit(s[s.len() - 1]));
        assert(numbers::all_digits(s.drop_last())) by {
            assert forall|i: int| 0 <= i < s.drop_last().len() implies numbers::is_digit(
                #[trigger] s.drop_last()[i],
            ) by {
                assert(numbers::is_digit(s[i]));
            }
        }
        lemma_value(s.drop_last());
    }
}

proof fn lemma_no_plus(n: nat)
    ensures
        numbers::decimal(n).len() > 0,
        numbers::decimal(n)[0] != '+',
    decreases n,
{
    let c = numbers::digit_char((n % 10) as int);
    assert(c as int == 48 + n % 10);
    if n >= 10 {
        lemma_no_plus(n / 10);
    }
}

} // verus!
