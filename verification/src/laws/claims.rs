//! What is claimed, and what a claim is held against.

use vstd::prelude::*;

use crate::claims;
use crate::claims::{ClaimResultView, ClaimView, Probe};
use crate::json::JsonView;
use crate::laws::fields;
use crate::laws::texts;
use crate::numbers;
use crate::paths;
use crate::text;

verus! {

/// A claim passes exactly where what was seen bears it out.
pub proof fn law_claims_are_checked(
    path: Seq<char>,
    n: u64,
    home: Option<Seq<char>>,
    lazar_home: Option<Seq<char>>,
    there: bool,
    size: u64,
    age: u64,
)
    ensures
        claims::checked(ClaimView::Exists(path), Probe::Presence(there), home, lazar_home).passed
            == there,
        claims::checked(ClaimView::NotExists(path), Probe::Presence(there), home, lazar_home).passed
            == !there,
        claims::checked(ClaimView::Size(path, n), Probe::Size(Ok(size)), home, lazar_home).passed
            <==> size == n,
        claims::checked(
            ClaimView::SizeAtLeast(path, n),
            Probe::Size(Ok(size)),
            home,
            lazar_home,
        ).passed <==> size >= n,
        claims::checked(
            ClaimView::SizeAtMost(path, n),
            Probe::Size(Ok(size)),
            home,
            lazar_home,
        ).passed <==> size <= n,
        claims::checked(
            ClaimView::MtimeWithin(path, n),
            Probe::Age(Ok(Some(age))),
            home,
            lazar_home,
        ).passed <==> age <= n,
        !claims::checked(
            ClaimView::MtimeWithin(path, n),
            Probe::Age(Ok(None)),
            home,
            lazar_home,
        ).passed,
{
}

/// A text is found in a file exactly where it stands in what is read of the file.
pub proof fn law_contents_are_checked(
    path: Seq<char>,
    needle: Seq<char>,
    seen: String,
    home: Option<Seq<char>>,
    lazar_home: Option<Seq<char>>,
)
    ensures
        claims::checked(
            ClaimView::Contains(path, needle),
            Probe::Text(Ok(seen)),
            home,
            lazar_home,
        ).passed <==> exists|i: int|
            i + crate::offsets::bytes(needle).len() <= 65_536 && #[trigger] text::occurs_at(
                crate::offsets::bytes(seen@),
                crate::offsets::bytes(needle),
                i,
            ),
{
    claims::law_contains_by_bytes(path, needle, seen);
}

/// The note of a failed look at the file system tells what went wrong, and the claim fails.
pub proof fn law_failures_are_noted(
    path: Seq<char>,
    n: u64,
    needle: Seq<char>,
    e: String,
    home: Option<Seq<char>>,
    lazar_home: Option<Seq<char>>,
)
    ensures
        ({
            let r = claims::checked(
                ClaimView::Size(path, n),
                Probe::Size(Err(e)),
                home,
                lazar_home,
            );
            !r.passed && r.note == "stat failed: "@ + e@
        }),
        ({
            let r = claims::checked(
                ClaimView::Contains(path, needle),
                Probe::Text(Err(e)),
                home,
                lazar_home,
            );
            !r.passed && r.note == "read failed: "@ + e@
        }),
        ({
            let r = claims::checked(
                ClaimView::MtimeWithin(path, n),
                Probe::Age(Err(e)),
                home,
                lazar_home,
            );
            !r.passed && r.note == "stat failed: "@ + e@
        }),
{
}

/// The note tells what was seen, and where.
pub proof fn law_notes(
    path: Seq<char>,
    n: u64,
    size: u64,
    age: u64,
    home: Option<Seq<char>>,
    lazar_home: Option<Seq<char>>,
)
    ensures
        ({
            let target = claims::expanded(path, home, lazar_home);
            let exists = ClaimView::Exists(path);
            let absent = ClaimView::NotExists(path);
            &&& claims::checked(exists, Probe::Presence(true), home, lazar_home).note == "exists"@
            &&& claims::checked(exists, Probe::Presence(false), home, lazar_home).note
                == "not found: "@ + target
            &&& claims::checked(absent, Probe::Presence(false), home, lazar_home).note
                == "absent"@
            &&& claims::checked(absent, Probe::Presence(true), home, lazar_home).note
                == "still present: "@ + target
        }),
        claims::checked(ClaimView::Size(path, n), Probe::Size(Ok(size)), home, lazar_home).note
            == "actual size "@ + numbers::decimal(size as nat) + " bytes (expected "@
            + numbers::decimal(n as nat) + ")"@,
        claims::checked(
            ClaimView::SizeAtLeast(path, n),
            Probe::Size(Ok(size)),
            home,
            lazar_home,
        ).note == "actual size "@ + numbers::decimal(size as nat) + " bytes (need >= "@
            + numbers::decimal(n as nat) + ")"@,
        claims::checked(
            ClaimView::SizeAtMost(path, n),
            Probe::Size(Ok(size)),
            home,
            lazar_home,
        ).note == "actual size "@ + numbers::decimal(size as nat) + " bytes (need <= "@
            + numbers::decimal(n as nat) + ")"@,
        claims::checked(
            ClaimView::MtimeWithin(path, n),
            Probe::Age(Ok(Some(age))),
            home,
            lazar_home,
        ).note == "mtime "@ + numbers::decimal(age as nat) + "s ago (need <= "@
            + numbers::decimal(n as nat) + "s)"@,
{
}

/// A path is looked up below the directory that its beginning stands for, where that is known, and
/// as it is otherwise.
pub proof fn law_paths_are_expanded(
    rest: Seq<char>,
    path: Seq<char>,
    home: Seq<char>,
    lazar_home: Seq<char>,
    any: Option<Seq<char>>,
)
    ensures
        claims::expanded("~/"@ + rest, Some(home), any) == paths::joined(home, rest),
        claims::expanded("~"@, Some(home), any) == home,
        claims::expanded("$LAZAR_HOME/"@ + rest, any, Some(lazar_home)) == paths::joined(
            lazar_home,
            rest,
        ),
        claims::expanded(path, None, None) == path,
        path.len() > 0 && path[0] != '~' && path[0] != '$' ==> claims::expanded(
            path,
            any,
            Some(lazar_home),
        ) == path,
{
    reveal_strlit("~/");
    reveal_strlit("~");
    reveal_strlit("$LAZAR_HOME/");
    let a = "~/"@ + rest;
    assert(a.subrange(0, 2) =~= "~/"@);
    assert(a.subrange(2, a.len() as int) =~= rest);
    let b = "$LAZAR_HOME/"@ + rest;
    assert(b.subrange(0, 12) =~= "$LAZAR_HOME/"@);
    assert(b.subrange(12, b.len() as int) =~= rest);
    assert(b[0] == '$');
    if text::begins_with(b, "~/"@) {
        assert(b.subrange(0, 2)[0] == '~');
    }
    assert(b != "~"@);
    if path.len() > 0 {
        if text::begins_with(path, "~/"@) {
            assert(path.subrange(0, 2)[0] == '~');
        }
        if text::begins_with(path, "$LAZAR_HOME/"@) {
            assert(path.subrange(0, 12)[0] == '$');
        }
    }
}

proof fn lemma_keys()
    ensures
        "exists"@.len() == 6,
        "not_exists"@.len() == 10,
        "absent"@.len() == 6,
        "absent"@[0] == 'a',
        "exists"@[0] == 'e',
        "size"@.len() == 4,
        "size_at_least"@.len() == 13,
        "size_min"@.len() == 8,
        "size_min"@[6] == 'i',
        "size_at_most"@.len() == 12,
        "size_at_most"@[0] == 's',
        "size_max"@.len() == 8,
        "size_max"@[6] == 'a',
        "contains"@.len() == 8,
        "contains"@[0] == 'c',
        "size_min"@[0] == 's',
        "size_max"@[0] == 's',
        "mtime_within"@.len() == 12,
        "mtime_within"@[0] == 'm',
{
    reveal_strlit("exists");
    reveal_strlit("not_exists");
    reveal_strlit("absent");
    reveal_strlit("size");
    reveal_strlit("size_at_least");
    reveal_strlit("size_min");
    reveal_strlit("size_at_most");
    reveal_strlit("size_max");
    reveal_strlit("contains");
    reveal_strlit("mtime_within");
}

/// The key says what is claimed: that a path exists, or that it does not.
pub proof fn law_presence_claims(path: Seq<char>)
    ensures
        claims::keyed_claim("exists"@, path) == Some(ClaimView::Exists(path)),
        claims::keyed_claim("not_exists"@, path) == Some(ClaimView::NotExists(path)),
        claims::keyed_claim("absent"@, path) == Some(ClaimView::NotExists(path)),
{
    lemma_keys();
}

/// The number of a claim stands behind the last colon, whatever the path holds.
pub proof fn law_number_claims(path: Seq<char>, n: u64)
    ensures
        ({
            let val = path.push(':') + numbers::decimal(n as nat);
            let p = text::trim(path);
            &&& claims::keyed_claim("size"@, val) == Some(ClaimView::Size(p, n))
            &&& claims::keyed_claim("size_at_least"@, val) == Some(ClaimView::SizeAtLeast(p, n))
            &&& claims::keyed_claim("size_min"@, val) == Some(ClaimView::SizeAtLeast(p, n))
            &&& claims::keyed_claim("size_at_most"@, val) == Some(ClaimView::SizeAtMost(p, n))
            &&& claims::keyed_claim("size_max"@, val) == Some(ClaimView::SizeAtMost(p, n))
            &&& claims::keyed_claim("mtime_within"@, val) == Some(ClaimView::MtimeWithin(p, n))
        }),
{
    lemma_keys();
    let d = numbers::decimal(n as nat);
    numbers::law_decimal_reads_back(n as nat, u64::MAX as int);
    lemma_digits(n as nat);
    texts::law_rsplit_once(path, ':', d);
    assert(text::trim(d) == d);
}

/// The digits of a number are no colons and no white space.
proof fn lemma_digits(n: nat)
    ensures
        numbers::decimal(n).len() > 0,
        texts::lacks_char(numbers::decimal(n), ':'),
        forall|i: int|
            0 <= i < numbers::decimal(n).len() ==> '0' <= #[trigger] numbers::decimal(n)[i] <= '9',
        text::trim(numbers::decimal(n)) == numbers::decimal(n),
    decreases n,
{
    let d = numbers::decimal(n);
    let c = numbers::digit_char((n % 10) as int);
    assert(c as int == 48 + n % 10);
    if n >= 10 {
        lemma_digits(n / 10);
        let less = numbers::decimal(n / 10);
        assert forall|i: int| 0 <= i < d.len() implies '0' <= #[trigger] d[i] <= '9' by {
            if i < less.len() {
                assert(d[i] == less[i]);
            }
        }
    }
    assert('0' <= d[0] <= '9');
    assert('0' <= d[d.len() - 1] <= '9');
    assert(text::strip_start(d, text::CharClass::White) == d);
    assert(text::strip_end(d, text::CharClass::White) == d);
}

/// The text that a file is said to hold stands behind the first colon, whatever it holds itself.
pub proof fn law_contains_claims(path: Seq<char>, needle: Seq<char>)
    requires
        texts::lacks_char(path, ':'),
    ensures
        claims::keyed_claim("contains"@, path.push(':') + needle) == Some(
            ClaimView::Contains(text::trim(path), text::trim(needle)),
        ),
{
    lemma_keys();
    texts::law_split_once(path, ':', needle);
}

/// Any other key claims nothing.
pub proof fn law_other_keys(key: Seq<char>, val: Seq<char>)
    requires
        key != "exists"@,
        key != "not_exists"@,
        key != "absent"@,
        key != "size"@,
        key != "size_at_least"@,
        key != "size_min"@,
        key != "size_at_most"@,
        key != "size_max"@,
        key != "contains"@,
        key != "mtime_within"@,
    ensures
        claims::keyed_claim(key, val) is None,
{
}

/// A line claims what its key and its value claim, split at the first equals sign, with or without
/// a bullet in front.
pub proof fn law_line(key: Seq<char>, val: Seq<char>)
    requires
        key.len() > 0,
        val.len() > 0,
        forall|i: int| 0 <= i < key.len() ==> 'a' <= #[trigger] key[i] <= 'z' || key[i] == '_',
        !text::is_white(val.last()),
    ensures
        claims::line_claim(key.push('=') + val) == claims::keyed_claim(
            key,
            claims::normalized(text::trim(val)),
        ),
        claims::line_claim("- "@ + key.push('=') + val) == claims::keyed_claim(
            key,
            claims::normalized(text::trim(val)),
        ),
{
    let line = key.push('=') + val;
    assert(line[0] == key[0]);
    assert(line.last() == val.last());
    assert(text::strip_start(line, text::CharClass::Bullet) == line);
    assert(text::strip_start(line, text::CharClass::White) == line);
    assert(text::strip_end(line, text::CharClass::White) == line);
    assert(texts::lacks_char(key, '=')) by {
        assert forall|i: int| 0 <= i < key.len() implies #[trigger] key[i] != '=' by {
            assert('a' <= key[i] <= 'z' || key[i] == '_');
        }
    }
    texts::law_split_once(key, '=', val);
    assert('a' <= key[0] <= 'z' || key[0] == '_');
    assert('a' <= key[key.len() - 1] <= 'z' || key[key.len() - 1] == '_');
    assert(text::strip_start(key, text::CharClass::White) == key);
    assert(text::strip_end(key, text::CharClass::White) == key);
    let b = "- "@ + key.push('=') + val;
    reveal_strlit("- ");
    let rest = b.drop_first();
    assert(rest =~= seq![' '] + line);
    assert(text::strip_start(b, text::CharClass::Bullet) == text::strip_start(
        rest,
        text::CharClass::Bullet,
    ));
    assert(text::strip_start(rest, text::CharClass::Bullet) == rest);
    assert(rest.drop_first() =~= line);
    assert(text::strip_start(rest, text::CharClass::White) == text::strip_start(
        line,
        text::CharClass::White,
    ));
}

/// A line without an equals sign claims nothing.
pub proof fn law_line_without_key(line: Seq<char>)
    requires
        texts::lacks_char(line, '='),
    ensures
        claims::line_claim(line) is None,
{
    let a = text::strip_start(line, text::CharClass::Bullet);
    lemma_strip_lacks(line, text::CharClass::Bullet);
    lemma_strip_lacks(a, text::CharClass::White);
    lemma_strip_end_lacks(text::strip_start(a, text::CharClass::White), text::CharClass::White);
    texts::law_split_once(text::trim(a), '=', Seq::empty());
}

proof fn lemma_strip_lacks(s: Seq<char>, class: text::CharClass)
    requires
        texts::lacks_char(s, '='),
    ensures
        texts::lacks_char(text::strip_start(s, class), '='),
    decreases s.len(),
{
    if s.len() > 0 {
        assert forall|i: int| 0 <= i < s.drop_first().len() implies #[trigger] s.drop_first()[i]
            != '=' by {
            assert(s[i + 1] != '=');
        }
        lemma_strip_lacks(s.drop_first(), class);
    }
}

proof fn lemma_strip_end_lacks(s: Seq<char>, class: text::CharClass)
    requires
        texts::lacks_char(s, '='),
    ensures
        texts::lacks_char(text::strip_end(s, class), '='),
    decreases s.len(),
{
    if s.len() > 0 {
        assert forall|i: int| 0 <= i < s.drop_last().len() implies #[trigger] s.drop_last()[i]
            != '=' by {
            assert(s[i] != '=');
        }
        lemma_strip_end_lacks(s.drop_last(), class);
    }
}

// ---------------------------------------------------------------------------
// Blocks
// ---------------------------------------------------------------------------

/// The text does not hold the mark.
pub open spec fn free_of(s: Seq<char>, mark: Seq<char>) -> bool {
    forall|i: int| !#[trigger] text::occurs_at(s, mark, i)
}

proof fn lemma_find_shift(s: Seq<char>, mark: Seq<char>, d: int, from: int)
    requires
        0 <= d <= s.len(),
        0 <= from,
    ensures
        text::find_from(s, mark, d + from) == (match text::find_from(s.skip(d), mark, from) {
            Some(i) => Some(i + d),
            None => None,
        }),
    decreases s.len() - d - from + 1,
{
    let t = s.skip(d);
    if from + mark.len() <= t.len() {
        assert(t.subrange(from, from + mark.len()) =~= s.subrange(
            d + from,
            d + from + mark.len(),
        ));
        if !text::occurs_at(t, mark, from) {
            lemma_find_shift(s, mark, d, from + 1);
        }
    }
}

proof fn lemma_blocks_shift(s: Seq<char>, d: int, from: int)
    requires
        0 <= d <= s.len(),
        0 <= from,
    ensures
        claims::blocks_claims(s, d + from) == claims::blocks_claims(s.skip(d), from),
    decreases s.len() - d - from,
{
    let t = s.skip(d);
    let o = claims::BLOCK_OPEN@;
    let c = claims::BLOCK_CLOSE@;
    lemma_find_shift(s, o, d, from);
    text::lemma_find_from(t, o, from);
    if let Some(open) = text::find_from(t, o, from) {
        lemma_find_shift(s, c, d, open + o.len());
        text::lemma_find_from(t, c, open + o.len());
        if let Some(close) = text::find_from(t, c, open + o.len()) {
            assert(t.subrange(open + o.len(), close) =~= s.subrange(
                d + open + o.len(),
                d + close,
            ));
            if from < close + c.len() <= t.len() {
                lemma_blocks_shift(s, d, close + c.len());
            }
        }
    }
}

/// What stands in a block is claimed, line by line, and so is what stands in the blocks after it;
/// nothing outside of blocks is.
pub proof fn law_blocks(
    before: Seq<char>,
    body: Seq<char>,
    rest: Seq<char>,
)
    requires
        free_of(before + "[VERIFY]"@.drop_last(), "[VERIFY]"@),
        free_of(body + "[/VERIFY]"@.drop_last(), "[/VERIFY]"@),
    ensures
        claims::blocks_claims(before + "[VERIFY]"@ + body + "[/VERIFY]"@ + rest, 0)
            == claims::lines_claims(text::pieces(body, '\n')) + claims::blocks_claims(rest, 0),
        free_of(rest, "[VERIFY]"@) ==> claims::blocks_claims(rest, 0).len() == 0,
{
    let o = "[VERIFY]"@;
    let c = "[/VERIFY]"@;
    reveal_strlit("[VERIFY]");
    reveal_strlit("[/VERIFY]");
    let s = before + o + body + c + rest;
    let n = before.len() as int;
    lemma_first_mark(before, o, body + c + rest);
    assert(before + o + (body + c + rest) =~= s);
    let t = s.skip(n + o.len());
    assert(t =~= body + c + rest);
    lemma_first_mark(body, c, rest);
    lemma_find_shift(s, c, n + o.len(), 0);
    let close = n + o.len() + body.len();
    assert(text::find_from(s, c, n + o.len()) == Some(close));
    assert(s.subrange(n + o.len(), close) =~= body);
    let d = close + c.len();
    lemma_blocks_shift(s, d, 0);
    assert(s.skip(d) =~= rest);
    text::lemma_find_from(rest, o, 0);
}

/// The first occurrence of a mark behind a text that does not hold it, not even together with the
/// start of the mark.
proof fn lemma_first_mark(a: Seq<char>, mark: Seq<char>, b: Seq<char>)
    requires
        mark.len() > 0,
        free_of(a + mark.drop_last(), mark),
    ensures
        text::find_from(a + mark + b, mark, 0) == Some(a.len() as int),
{
    let s = a + mark + b;
    let t = a + mark.drop_last();
    text::lemma_find_from(s, mark, 0);
    assert(s.subrange(a.len() as int, (a.len() + mark.len()) as int) =~= mark);
    assert(text::occurs_at(s, mark, a.len() as int));
    let i = text::find_from(s, mark, 0)->0;
    if i < a.len() {
        assert(t.subrange(i, i + mark.len()) =~= s.subrange(i, i + mark.len()));
        assert(text::occurs_at(t, mark, i));
    }
}

/// Each line adds its claim, if it makes one, behind those of the lines before it.
pub proof fn law_lines(lines: Seq<Seq<char>>, line: Seq<char>, c: ClaimView)
    ensures
        claims::lines_claims(Seq::empty()).len() == 0,
        claims::line_claim(text::trim(line)) == Some(c) ==> claims::lines_claims(lines.push(line))
            == claims::lines_claims(lines).push(c),
        claims::line_claim(text::trim(line)) is None ==> claims::lines_claims(lines.push(line))
            == claims::lines_claims(lines),
{
    assert(lines.push(line).drop_last() =~= lines);
}

// ---------------------------------------------------------------------------
// Reports
// ---------------------------------------------------------------------------

/// A report without claims shows nothing; with a failed claim it shows the failure first and every
/// result with its note; otherwise it shows one line.
pub proof fn law_banner(v: Seq<ClaimResultView>, i: int)
    ensures
        v.len() == 0 ==> claims::banner(v).len() == 0,
        0 <= i < v.len() && !v[i].passed ==> text::begins_with(
            claims::banner(v),
            "\n"@ + crate::fabrication::RULE@ + "❌ VERIFY FAILED — "@,
        ),
        v.len() > 0 && (forall|j: int| 0 <= j < v.len() ==> (#[trigger] v[j]).passed)
            ==> claims::banner(v) == "\n  ✓ verify: "@ + numbers::decimal(v.len()) + "/"@
            + numbers::decimal(v.len()) + " claims passed (kernel-checked)\n"@,
{
    claims::law_report_counts(v);
    if 0 <= i < v.len() && !v[i].passed {
        let b = claims::banner(v);
        let h = "\n"@ + crate::fabrication::RULE@ + "❌ VERIFY FAILED — "@;
        assert(b.subrange(0, h.len() as int) =~= h);
    }
}

/// The event on a report counts the results and lists them in order.
pub proof fn law_report_event(v: Seq<ClaimResultView>, i: int)
    requires
        v.len() <= u64::MAX,
    ensures
        ({
            let e = claims::report_event(v);
            &&& e is Object
            &&& e->Object_0.contains_key("claims"@)
            &&& e->Object_0["claims"@] is Array
            &&& e->Object_0["claims"@]->Array_0.len() == v.len()
            &&& 0 <= i < v.len() ==> fields::says(
                e->Object_0["claims"@]->Array_0[i],
                "passed"@,
                JsonView::Bool(v[i].passed),
            ) && fields::tells(e->Object_0["claims"@]->Array_0[i], "note"@, v[i].note)
                && fields::tells(
                e->Object_0["claims"@]->Array_0[i],
                "claim"@,
                claims::claim_debug(v[i].claim),
            )
            &&& fields::says(
                e,
                "passed_count"@,
                JsonView::Unsigned(claims::count_results(v, true) as u64),
            )
            &&& fields::says(
                e,
                "failed_count"@,
                JsonView::Unsigned(claims::count_results(v, false) as u64),
            )
            &&& fields::says(
                e,
                "any_failed"@,
                JsonView::Bool(exists|j: int| 0 <= j < v.len() && !(#[trigger] v[j]).passed),
            )
            &&& fields::says(
                e,
                "all_passed"@,
                JsonView::Bool(
                    v.len() > 0 && forall|j: int| 0 <= j < v.len() ==> (#[trigger] v[j]).passed,
                ),
            )
        }),
{
    fields::lemma_keys();
    reveal_strlit("passed_count");
    reveal_strlit("failed_count");
    reveal_strlit("all_passed");
    reveal_strlit("any_failed");
    assert("passed_count"@[0] == 'p' && "failed_count"@[0] == 'f');
    assert("all_passed"@[1] == 'l' && "any_failed"@[1] == 'n');
    let items = v.map_values(|r: ClaimResultView| claims::result_event(r));
    let e = seq![
        ("passed_count"@, JsonView::Unsigned(claims::count_results(v, true) as u64)),
        ("failed_count"@, JsonView::Unsigned(claims::count_results(v, false) as u64)),
        ("all_passed"@, JsonView::Bool(claims::all_hold(v))),
        ("any_failed"@, JsonView::Bool(claims::some_fail(v))),
        ("claims"@, JsonView::Array(items)),
    ];
    fields::lemma_entry(e, 0);
    fields::lemma_entry(e, 1);
    fields::lemma_entry(e, 2);
    fields::lemma_entry(e, 3);
    fields::lemma_entry(e, 4);
    if 0 <= i < v.len() {
        let f = seq![
            ("claim"@, JsonView::Str(claims::claim_debug(v[i].claim))),
            ("passed"@, JsonView::Bool(v[i].passed)),
            ("note"@, JsonView::Str(v[i].note)),
        ];
        fields::lemma_entry(f, 0);
        fields::lemma_entry(f, 1);
        fields::lemma_entry(f, 2);
    }
}

/// Typographic dashes and quotes count as the plain ones, and all else as itself.
pub proof fn law_plain_chars(c: char)
    ensures
        '\u{2010}' <= c <= '\u{2015}' || c == '\u{2212}' ==> claims::plain_char(c) == '-',
        c == '\u{2018}' || c == '\u{2019}' ==> claims::plain_char(c) == '\'',
        c == '\u{201C}' || c == '\u{201D}' ==> claims::plain_char(c) == '"',
        (c as u32) < 0x2010 ==> claims::plain_char(c) == c,
{
}

/// Each result has a line of its own in a banner, marked by whether it passed, with its note.
pub proof fn law_banner_lines(v: Seq<ClaimResultView>, r: ClaimResultView)
    ensures
        r.passed ==> claims::banner_lines(v.push(r)) == claims::banner_lines(v) + ("  "@ + "✓"@
            + " "@ + claims::claim_debug(r.claim) + " — "@ + r.note + "\n"@),
        !r.passed ==> claims::banner_lines(v.push(r)) == claims::banner_lines(v) + ("  "@ + "✗"@
            + " "@ + claims::claim_debug(r.claim) + " — "@ + r.note + "\n"@),
{
    assert(v.push(r).drop_last() =~= v);
}

/// A value of plain characters counts as it is, with or without backticks and white space around it.
pub proof fn law_plain_values(val: Seq<char>)
    requires
        val.len() > 0,
        forall|i: int|
            0 <= i < val.len() ==> '!' <= #[trigger] val[i] <= '~' && val[i] != '[' && val[i]
                != '`',
    ensures
        claims::normalized(val) == val,
        claims::normalized(" `"@ + val + "` "@) == val,
{
    reveal_strlit(" `");
    reveal_strlit("` ");
    let wrapped = " `"@ + val + "` "@;
    let ticked = seq!['`'] + val + seq!['`'];
    lemma_plain_text(val);
    lemma_plain_text(wrapped);
    assert('!' <= val[0] <= '~' && val[0] != '`');
    let last = val.len() - 1;
    assert('!' <= val[last] <= '~' && val[last] != '`');
    assert(val.last() == val[last]);
    let white = text::CharClass::White;
    let tick = text::CharClass::Backtick;
    assert(text::strip_start(val, white) == val);
    assert(text::strip_end(val, white) == val);
    assert(text::strip_start(val, tick) == val);
    assert(text::strip_end(val, tick) == val);
    let cut = wrapped.drop_first();
    assert(wrapped[0] == ' ');
    assert(cut[0] == '`');
    assert(text::strip_start(wrapped, white) == text::strip_start(cut, white));
    assert(text::strip_start(cut, white) == cut);
    assert(cut.drop_last() =~= ticked);
    assert(cut.last() == ' ');
    assert(ticked.last() == '`');
    assert(text::strip_end(cut, white) == text::strip_end(ticked, white));
    assert(text::strip_end(ticked, white) == ticked);
    assert(ticked.drop_first() =~= val.push('`'));
    assert(ticked[0] == '`');
    assert(val.push('`')[0] == val[0]);
    assert(text::strip_start(ticked, tick) == text::strip_start(val.push('`'), tick));
    assert(text::strip_start(val.push('`'), tick) == val.push('`'));
    assert(val.push('`').drop_last() =~= val);
    assert(text::strip_end(val.push('`'), tick) == text::strip_end(val, tick));
}

/// Without brackets and typographic characters nothing is replaced.
proof fn lemma_plain_text(s: Seq<char>)
    requires
        forall|i: int| 0 <= i < s.len() ==> #[trigger] s[i] != '[' && ' ' <= s[i] <= '~',
    ensures
        claims::unlinked(claims::plain(s)) == s,
{
    assert(claims::plain(s) =~= s);
    text::lemma_find_from(s, seq!['['], 0);
    if let Some(i) = text::find_from(s, seq!['['], 0) {
        assert(s.subrange(i, i + 1)[0] == '[');
    }
    assert(s.subrange(0, s.len() as int) =~= s);
}

} // verus!
