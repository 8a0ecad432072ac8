//! The event log `stream.jsonl`: what is appended to it, and when and how it is rotated.

use vstd::prelude::*;

use crate::json;
use crate::json::{json_opt_str, Json, ObjectBuilder};
use crate::numbers;
use crate::numbers::{decimal_text, parse_number};
use crate::paths;
use crate::paths::join_path;
use crate::session;
use crate::session::is_mirrored;
use crate::text;
use crate::text::{chars_of, owned, string_of};
use crate::tools;

verus! {

// ---------------------------------------------------------------------------
// Appending
// ---------------------------------------------------------------------------

/// The event as it is written and emitted: with the time.
pub open spec fn stamped(event: json::JsonView, ts_ms: u64) -> json::JsonView {
    event.with("ts_ms"@, json::JsonView::Unsigned(ts_ms))
}

/// The event as it is written and emitted.
pub fn stamp_event(event: &Json, ts_ms: u64) -> (r: Json)
    ensures
        r@ == stamped(event@, ts_ms),
{
    let mut out = event.dup();
    out.set("ts_ms", Json::Unsigned(ts_ms));
    out
}

/// The line that is appended to the log for an event, without its newline.
pub fn stream_line(event: &Json, ts_ms: u64) -> (r: String)
    ensures
        session::written(r@, stamped(event@, ts_ms)),
{
    stamp_event(event, ts_ms).to_text()
}

/// The event goes into a session log too: there is a session, and the event belongs to the
/// conversation.
pub open spec fn goes_to_session(event: json::JsonView, session_id: Option<Seq<char>>) -> bool {
    match session_id {
        Some(id) => id.len() > 0 && session::mirrored(event),
        None => false,
    }
}

/// The event goes into a session log too. `session_id` is the value of `LAZAR_SESSION_ID`.
pub fn mirrors_to_session(event: &Json, session_id: Option<&str>) -> (r: bool)
    ensures
        r == goes_to_session(event@, tools::var_text(session_id)),
{
    match session_id {
        Some(id) => !id.is_empty() && is_mirrored(event),
        None => false,
    }
}

/// What the log holds of a written event is that event with its time; the log of the lines that
/// [`stream_line`] gives is read back event by event.
pub proof fn law_stream_reads_back(
    events: Seq<json::JsonView>,
    stamps: Seq<u64>,
    lines: Seq<Seq<char>>,
)
    requires
        events.len() == stamps.len() == lines.len(),
        forall|i: int|
            0 <= i < events.len() ==> (#[trigger] events[i]) is Object && json::reads_back(
                stamped(events[i], stamps[i]),
                127,
            ) && session::written(lines[i], stamped(events[i], stamps[i])),
    ensures
        session::log_events(session::log_of(lines)) == Seq::new(
            events.len(),
            |i: int| stamped(events[i], stamps[i]),
        ),
{
    let values = Seq::new(events.len(), |i: int| stamped(events[i], stamps[i]));
    assert forall|i: int| 0 <= i < values.len() implies (#[trigger] values[i]) is Object
        && json::reads_back(session::recorded(values[i], stamps[i]), 127) && session::written(
        lines[i],
        session::recorded(values[i], stamps[i]),
    ) by {
        assert(events[i] is Object);
        assert(session::recorded(values[i], stamps[i]) == values[i]);
    }
    session::law_session_log_reads_back(values, stamps, lines);
    assert(session::recorded_all(values, stamps) =~= values);
}

// ---------------------------------------------------------------------------
// Symbolic links
// ---------------------------------------------------------------------------

/// What a path is wanted for.
#[derive(Clone, Copy, Debug, PartialEq, Eq, Structural)]
pub enum PathUse {
    /// A directory to work in.
    Directory,
    /// A file to append to.
    Append,
    /// A file to write.
    Write,
}

impl PathUse {
    /// How the use is refused.
    pub open spec fn refusal(self) -> Seq<char> {
        match self {
            PathUse::Directory => "refusing to use symlinked "@,
            PathUse::Append => "refusing to append to symlinked "@,
            PathUse::Write => "refusing to write symlinked "@,
        }
    }
}

/// Why the path must not be used, if it must not: it is a symbolic link.
pub fn symlink_refusal(is_symlink: bool, wanted: PathUse, label: &str) -> (r: Option<String>)
    ensures
        match r {
            Some(e) => is_symlink && e@ == wanted.refusal() + label@,
            None => !is_symlink,
        },
{
    if !is_symlink {
        return None;
    }
    let mut e = owned(
        match wanted {
            PathUse::Directory => "refusing to use symlinked ",
            PathUse::Append => "refusing to append to symlinked ",
            PathUse::Write => "refusing to write symlinked ",
        },
    );
    e.append(label);
    Some(e)
}

// ---------------------------------------------------------------------------
// Rotation
// ---------------------------------------------------------------------------

/// How large the log may get, where nothing is set.
pub const DEFAULT_LOG_MAX_BYTES: u64 = 10_485_760;

/// How large the log may get: the value of the variable, where it is a number.
pub open spec fn max_bytes_of(var: Option<Seq<char>>) -> int {
    match var {
        Some(s) => match numbers::parsed_number(s, u64::MAX as int) {
            Some(n) => n,
            None => DEFAULT_LOG_MAX_BYTES as int,
        },
        None => DEFAULT_LOG_MAX_BYTES as int,
    }
}

/// How large the log may get, as `LAZAR_LOG_MAX_BYTES` sets it.
pub fn log_max_bytes(var: Option<&str>) -> (r: u64)
    ensures
        r == max_bytes_of(tools::var_text(var)),
{
    match var {
        Some(s) => match parse_number(s, u64::MAX) {
            Some(n) => n,
            None => DEFAULT_LOG_MAX_BYTES,
        },
        None => DEFAULT_LOG_MAX_BYTES,
    }
}

/// What is known of the log file.
#[derive(Clone, Copy, Debug, PartialEq, Eq, Structural)]
pub struct LogMeta {
    /// It is a symbolic link.
    pub is_symlink: bool,
    /// Its size in bytes.
    pub len: u64,
}

/// What to do about the size of the log.
#[derive(Clone, Copy, Debug, PartialEq, Eq, Structural)]
pub enum Rotation {
    /// Nothing.
    Keep,
    /// Warn: the log is a symbolic link.
    RefuseSymlink,
    /// Move it to an archive.
    Rotate,
}

/// What to do about the size of the log: it is rotated once it exceeds the maximum. A log that
/// does not exist is left alone.
pub open spec fn rotation_of(meta: Option<LogMeta>, max_bytes: u64) -> Rotation {
    match meta {
        Some(m) => if m.is_symlink {
            Rotation::RefuseSymlink
        } else if m.len > max_bytes {
            Rotation::Rotate
        } else {
            Rotation::Keep
        },
        None => Rotation::Keep,
    }
}

/// What to do about the size of the log.
pub fn rotation_due(meta: Option<LogMeta>, max_bytes: u64) -> (r: Rotation)
    ensures
        r == rotation_of(meta, max_bytes),
{
    match meta {
        Some(m) => if m.is_symlink {
            Rotation::RefuseSymlink
        } else if m.len <= max_bytes {
            Rotation::Keep
        } else {
            Rotation::Rotate
        },
        None => Rotation::Keep,
    }
}

/// How many names are tried for an archive.
pub const ARCHIVE_ATTEMPTS: u32 = 1000;

/// What tells the attempts apart.
pub open spec fn attempt_suffix(attempt: nat) -> Seq<char> {
    if attempt == 0 {
        Seq::empty()
    } else {
        "."@ + numbers::decimal(attempt)
    }
}

/// The name of an archive.
pub open spec fn archive_name_of(nanos: nat, pid: nat, attempt: nat) -> Seq<char> {
    "stream.jsonl."@ + numbers::decimal(nanos) + "."@ + numbers::decimal(pid) + attempt_suffix(
        attempt,
    ) + ".bak"@
}

/// The name of an archive when all names are taken.
pub open spec fn fallback_name_of(nanos: nat, pid: nat) -> Seq<char> {
    "stream.jsonl."@ + numbers::decimal(nanos) + "."@ + numbers::decimal(pid) + ".fallback.bak"@
}

proof fn lemma_decimal_injective(a: nat, b: nat)
    requires
        numbers::decimal(a) == numbers::decimal(b),
    ensures
        a == b,
{
    let max = (a + b) as int;
    numbers::law_decimal_reads_back(a, max);
    numbers::law_decimal_reads_back(b, max);
}

/// Two attempts at one moment give two names.
pub proof fn law_archive_names_differ(nanos: nat, pid: nat, a: nat, b: nat)
    requires
        a != b,
    ensures
        archive_name_of(nanos, pid, a) != archive_name_of(nanos, pid, b),
{
    let head = "stream.jsonl."@ + numbers::decimal(nanos) + "."@ + numbers::decimal(pid);
    let na = archive_name_of(nanos, pid, a);
    let nb = archive_name_of(nanos, pid, b);
    if na == nb {
        let sa = attempt_suffix(a);
        let sb = attempt_suffix(b);
        assert(na.len() == head.len() + sa.len() + ".bak"@.len());
        assert(nb.len() == head.len() + sb.len() + ".bak"@.len());
        assert(na.subrange(head.len() as int, (head.len() + sa.len()) as int) =~= sa);
        assert(nb.subrange(head.len() as int, (head.len() + sb.len()) as int) =~= sb);
        assert(sa == sb);
        reveal_strlit(".");
        if a > 0 && b > 0 {
            assert(sa.subrange(1, sa.len() as int) =~= numbers::decimal(a));
            assert(sb.subrange(1, sb.len() as int) =~= numbers::decimal(b));
            lemma_decimal_injective(a, b);
        }
    }
}

/// The archive to try, or the last resort after [`ARCHIVE_ATTEMPTS`] of them.
pub open spec fn archive_path_of(logs: Seq<char>, nanos: nat, pid: nat, attempt: nat) -> Seq<char> {
    paths::joined(
        logs,
        if attempt < ARCHIVE_ATTEMPTS {
            archive_name_of(nanos, pid, attempt)
        } else {
            fallback_name_of(nanos, pid)
        },
    )
}

/// The name of the archive to try, or of the last resort.
pub fn archive_name(nanos: u128, pid: u32, attempt: u32) -> (r: String)
    ensures
        r@ == (if attempt < ARCHIVE_ATTEMPTS {
            archive_name_of(nanos as nat, pid as nat, attempt as nat)
        } else {
            fallback_name_of(nanos as nat, pid as nat)
        }),
{
    let mut name = owned("stream.jsonl.");
    name.append(decimal_text(nanos).as_str());
    name.append(".");
    name.append(decimal_text(pid as u128).as_str());
    if attempt < ARCHIVE_ATTEMPTS {
        let mut suffix = String::new();
        if attempt > 0 {
            suffix = owned(".");
            suffix.append(decimal_text(attempt as u128).as_str());
        }
        name.append(suffix.as_str());
        name.append(".bak");
    } else {
        name.append(".fallback.bak");
    }
    name
}

/// The archive to try, or the last resort.
pub fn archive_path(logs: &str, nanos: u128, pid: u32, attempt: u32) -> (r: String)
    ensures
        r@ == archive_path_of(logs@, nanos as nat, pid as nat, attempt as nat),
{
    join_path(logs, archive_name(nanos, pid, attempt).as_str())
}

/// What to do with an archive name that was tried.
#[derive(Clone, Copy, Debug, PartialEq, Eq, Structural)]
pub enum ArchiveStep {
    /// Use it.
    Use,
    /// Try this attempt next.
    Try(u32),
}

/// What to do with an archive name: it is used unless something has it. The last resort is used
/// in any case.
pub fn archive_step(attempt: u32, exists: bool) -> (r: ArchiveStep)
    ensures
        r == (if exists && attempt < ARCHIVE_ATTEMPTS {
            ArchiveStep::Try((attempt + 1) as u32)
        } else {
            ArchiveStep::Use
        }),
{
    if exists && attempt < ARCHIVE_ATTEMPTS {
        ArchiveStep::Try(attempt + 1)
    } else {
        ArchiveStep::Use
    }
}

// ---------------------------------------------------------------------------
// The summary of an archive
// ---------------------------------------------------------------------------

/// The text without `prefix` in front, however often it stands there.
pub open spec fn without_prefixes(s: Seq<char>, prefix: Seq<char>) -> Seq<char>
    decreases s.len(),
{
    if prefix.len() > 0 && text::begins_with(s, prefix) {
        without_prefixes(s.subrange(prefix.len() as int, s.len() as int), prefix)
    } else {
        s
    }
}

/// The text without `suffix` at the end, however often it stands there.
pub open spec fn without_suffixes(s: Seq<char>, suffix: Seq<char>) -> Seq<char>
    decreases s.len(),
{
    if suffix.len() > 0 && text::ends_with(s, suffix) {
        without_suffixes(s.subrange(0, s.len() - suffix.len()), suffix)
    } else {
        s
    }
}

/// The name of an archive's summary.
pub open spec fn summary_name_of(archive: Seq<char>) -> Seq<char> {
    without_suffixes(without_prefixes(archive, "stream.jsonl."@), ".bak"@)
}

fn cut_prefixes(s: &str, prefix: &str) -> (r: String)
    ensures
        r@ == without_prefixes(s@, prefix@),
{
    let chars = chars_of(s);
    let p = chars_of(prefix);
    let n: usize = chars.len();
    let mut from: usize = 0;
    assert(chars@.subrange(0, n as int) =~= chars@);
    while p.len() > 0 && text::chars_match_at(
        vstd::slice::slice_subrange(chars.as_slice(), from, n),
        p.as_slice(),
        0,
    )
        invariant
            from <= n == chars@.len(),
            without_prefixes(chars@, p@) == without_prefixes(
                chars@.subrange(from as int, n as int),
                p@,
            ),
        decreases n - from,
    {
        let ghost rest = chars@.subrange(from as int, n as int);
        assert(rest.subrange(p@.len() as int, rest.len() as int) =~= chars@.subrange(
            from + p@.len(),
            n as int,
        ));
        from = from + p.len();
    }
    string_of(vstd::slice::slice_subrange(chars.as_slice(), from, n))
}

fn cut_suffixes(s: &str, suffix: &str) -> (r: String)
    ensures
        r@ == without_suffixes(s@, suffix@),
{
    let chars = chars_of(s);
    let p = chars_of(suffix);
    let mut to: usize = chars.len();
    assert(chars@.subrange(0, to as int) =~= chars@);
    while p.len() > 0 && p.len() <= to && text::chars_match_at(
        vstd::slice::slice_subrange(chars.as_slice(), 0, to),
        p.as_slice(),
        to - p.len(),
    )
        invariant
            to <= chars@.len(),
            without_suffixes(chars@, p@) == without_suffixes(chars@.subrange(0, to as int), p@),
        decreases to,
    {
        let ghost rest = chars@.subrange(0, to as int);
        assert(rest.subrange(0, rest.len() - p@.len()) =~= chars@.subrange(0, to - p@.len()));
        to = to - p.len();
    }
    string_of(vstd::slice::slice_subrange(chars.as_slice(), 0, to))
}

/// The name of an archive's summary.
pub fn summary_name(archive: &str) -> (r: String)
    ensures
        r@ == summary_name_of(archive@),
{
    cut_suffixes(cut_prefixes(archive, "stream.jsonl.").as_str(), ".bak")
}

/// The directory for memories.
pub fn memory_dir(home: &str) -> (r: String)
    ensures
        r@ == paths::joined(home@, "memory"@),
{
    join_path(home, "memory")
}

/// The directory for the summaries of archives.
pub fn summaries_dir(home: &str) -> (r: String)
    ensures
        r@ == paths::joined(paths::joined(home@, "memory"@), "log-summaries"@),
{
    join_path(memory_dir(home).as_str(), "log-summaries")
}

/// The file for the summary of an archive.
pub fn summary_path(home: &str, summary: &str) -> (r: String)
    ensures
        r@ == paths::joined(
            paths::joined(paths::joined(home@, "memory"@), "log-summaries"@),
            summary@ + ".md"@,
        ),
{
    let mut name = owned(summary);
    name.append(".md");
    join_path(summaries_dir(home).as_str(), name.as_str())
}

/// The text of a summary.
pub open spec fn summary_text_of(
    summary: Seq<char>,
    archive: Seq<char>,
    size: nat,
    now_ms: nat,
) -> Seq<char> {
    "# log-summary "@ + summary + "\n\narchive: "@ + archive + "\nsize_bytes: "@
        + numbers::decimal(size) + "\nrotated_at_unix_ms: "@ + numbers::decimal(now_ms)
        + "\n\n_Auto-rotated by the lazar kernel when stream.jsonl exceeded LAZAR_LOG_MAX_BYTES. For richer per-archive summaries (top user prompts, top tool commands), run the `_meta/log-rotation` skill against this archive. For LLM-extracted learnings, run `_meta/distill`._\n"@
}

/// The text of a summary.
pub fn summary_text(summary: &str, archive: &str, size: u64, now_ms: u128) -> (r: String)
    ensures
        r@ == summary_text_of(summary@, archive@, size as nat, now_ms as nat),
{
    let mut out = owned("# log-summary ");
    out.append(summary);
    out.append("\n\narchive: ");
    out.append(archive);
    out.append("\nsize_bytes: ");
    out.append(decimal_text(size as u128).as_str());
    out.append("\nrotated_at_unix_ms: ");
    out.append(decimal_text(now_ms).as_str());
    out.append(
        "\n\n_Auto-rotated by the lazar kernel when stream.jsonl exceeded LAZAR_LOG_MAX_BYTES. For richer per-archive summaries (top user prompts, top tool commands), run the `_meta/log-rotation` skill against this archive. For LLM-extracted learnings, run `_meta/distill`._\n",
    );
    out
}

/// What the operator is told of a rotation.
pub fn rotation_notice(archive_file: &str, size: u64) -> (r: String)
    ensures
        r@ == "[lazar] auto-rotated stream.jsonl → "@ + archive_file@ + " ("@ + numbers::decimal(
            size as nat,
        ) + " bytes)"@,
{
    let mut out = owned("[lazar] auto-rotated stream.jsonl → ");
    out.append(archive_file);
    out.append(" (");
    out.append(decimal_text(size as u128).as_str());
    out.append(" bytes)");
    out
}

/// The payload of the hooks that fire after a rotation.
pub open spec fn rotation_payload_of(archive: Seq<char>, size: u64, summary: Option<Seq<char>>) -> json::JsonView {
    json::object_of(
        seq![
            ("archive"@, json::JsonView::Str(archive)),
            ("size_bytes"@, json::JsonView::Unsigned(size)),
            (
                "summary"@,
                match summary {
                    Some(s) => json::JsonView::Str(s),
                    None => json::JsonView::Null,
                },
            ),
        ],
    )
}

/// The payload of the hooks that fire after a rotation.
pub fn rotation_payload(archive: &str, size: u64, summary: &Option<String>) -> (r: Json)
    ensures
        r@ == rotation_payload_of(
            archive@,
            size,
            match *summary {
                Some(s) => Some(s@),
                None => None,
            },
        ),
{
    let built = ObjectBuilder::new().put_str("archive", archive).put(
        "size_bytes",
        Json::Unsigned(size),
    ).put("summary", json_opt_str(summary));
    let ghost told: Option<Seq<char>> = match summary {
        Some(t) => Some(t@),
        None => None,
    };
    assert(built.entries() =~= seq![
        ("archive"@, json::JsonView::Str(archive@)),
        ("size_bytes"@, json::JsonView::Unsigned(size)),
        (
            "summary"@,
            match told {
                Some(t) => json::JsonView::Str(t),
                None => json::JsonView::Null,
            },
        ),
    ]);
    built.done()
}

} // verus!
