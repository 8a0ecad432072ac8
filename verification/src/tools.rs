//! Running a command as a tool: its limits, what is kept of its output, and what the model gets
//! to see.

use vstd::prelude::*;
use vstd::utf8::*;

use crate::numbers;
use crate::numbers::{decimal_text, parse_number, signed_text, size_text};
use crate::offsets;
use crate::offsets::{byte_len, floor_of, slice_text};
use crate::text;
use crate::text::{owned, same_text};

verus! {

// ---------------------------------------------------------------------------
// Settings
// ---------------------------------------------------------------------------

/// A setting that counts something: the value of the variable, where it is a number from one to
/// `max`; otherwise the default.
pub open spec fn setting(var: Option<Seq<char>>, max: int, default: int) -> int {
    match var {
        Some(s) => match numbers::parsed_number(s, max) {
            Some(n) => if n > 0 {
                n
            } else {
                default
            },
            None => default,
        },
        None => default,
    }
}

/// The text of an optional string slice.
pub open spec fn var_text(var: Option<&str>) -> Option<Seq<char>> {
    match var {
        Some(s) => Some(s@),
        None => None,
    }
}

/// A setting that counts something.
pub fn setting_of(var: Option<&str>, max: u64, default: u64) -> (r: u64)
    ensures
        r == setting(var_text(var), max as int, default as int),
        r > 0 || r == default,
        r <= max || r == default,
{
    match var {
        Some(s) => match parse_number(s, max) {
            Some(n) => if n > 0 {
                n
            } else {
                default
            },
            None => default,
        },
        None => default,
    }
}

/// The values that switch a flag on.
pub const TRUTHY: [&'static str; 7] = ["1", "true", "TRUE", "yes", "YES", "on", "ON"];

/// The variable switches a flag on.
pub open spec fn flag_on(var: Option<Seq<char>>) -> bool {
    match var {
        Some(s) => exists|i: int| 0 <= i < TRUTHY@.len() && s == (#[trigger] TRUTHY@[i])@,
        None => false,
    }
}

/// The variable switches a flag on.
pub fn env_flag_enabled(var: Option<&str>) -> (r: bool)
    ensures
        r == flag_on(var_text(var)),
{
    match var {
        Some(s) => {
            let mut i: usize = 0;
            while i < TRUTHY.len()
                invariant
                    i <= TRUTHY@.len(),
                    var == Some(s),
                    forall|k: int| 0 <= k < i ==> s@ != (#[trigger] TRUTHY@[k])@,
                decreases TRUTHY@.len() - i,
            {
                if same_text(s, TRUTHY[i]) {
                    assert(s@ == TRUTHY@[i as int]@);
                    return true;
                }
                i += 1;
            }
            false
        },
        None => false,
    }
}

/// How long a command may run, where nothing is set.
pub const DEFAULT_TOOL_TIMEOUT_SECS: u64 = 120;

/// How much of a command's output is kept, where nothing is set.
pub const DEFAULT_TOOL_OUTPUT_MAX_BYTES: usize = 200_000;

/// The limits of a command.
#[derive(Clone, Copy, Debug)]
pub struct ToolLimits {
    /// How long it may run.
    pub timeout_secs: u64,
    /// How much of its output is kept.
    pub output_max_bytes: usize,
}

impl ToolLimits {
    /// The limits that `LAZAR_TOOL_TIMEOUT_SECS` and `LAZAR_TOOL_OUTPUT_MAX_BYTES` set.
    pub fn from_vars(timeout: Option<&str>, output: Option<&str>) -> (r: ToolLimits)
        ensures
            r.timeout_secs == setting(
                var_text(timeout),
                u64::MAX as int,
                DEFAULT_TOOL_TIMEOUT_SECS as int,
            ),
            r.output_max_bytes == setting(
                var_text(output),
                usize::MAX as int,
                DEFAULT_TOOL_OUTPUT_MAX_BYTES as int,
            ),
            r.timeout_secs > 0,
            r.output_max_bytes > 0,
    {
        ToolLimits {
            timeout_secs: setting_of(timeout, u64::MAX, DEFAULT_TOOL_TIMEOUT_SECS),
            output_max_bytes: setting_of(
                output,
                usize::MAX as u64,
                DEFAULT_TOOL_OUTPUT_MAX_BYTES as u64,
            ) as usize,
        }
    }
}

/// The recursion depth: the value of the variable, where it is a number; otherwise zero.
pub open spec fn depth_of(var: Option<Seq<char>>) -> int {
    match var {
        Some(s) => match numbers::parsed_number(s, u32::MAX as int) {
            Some(n) => n,
            None => 0,
        },
        None => 0,
    }
}

/// The recursion depth.
pub fn current_depth(var: Option<&str>) -> (r: u32)
    ensures
        r == depth_of(var_text(var)),
{
    match var {
        Some(s) => match parse_number(s, u32::MAX as u64) {
            Some(n) => n as u32,
            None => 0,
        },
        None => 0,
    }
}

/// The depth of a nested invocation.
pub open spec fn child_depth_of(depth: int) -> int {
    if depth < u32::MAX {
        depth + 1
    } else {
        u32::MAX as int
    }
}

/// The depth of a nested invocation.
pub fn child_depth(depth: u32) -> (r: u32)
    ensures
        r == child_depth_of(depth as int),
{
    if depth < u32::MAX {
        depth + 1
    } else {
        u32::MAX
    }
}

// ---------------------------------------------------------------------------
// Waiting
// ---------------------------------------------------------------------------

/// What polling a process gave.
#[derive(Clone, Copy, Debug, PartialEq, Eq, Structural)]
pub enum Poll {
    /// It ended, with this code where it has one.
    Exited(Option<i32>),
    /// It still runs.
    Running,
    /// It cannot be polled.
    Failed,
}

/// What to do after polling a process.
#[derive(Clone, Copy, Debug, PartialEq, Eq, Structural)]
pub enum WaitStep {
    /// It ended with this code.
    Ended(i32),
    /// Look again after so many milliseconds.
    Sleep(u64),
    /// It ran too long: kill its process group, and wait for it.
    KillForTimeout,
    /// Kill it: it cannot be waited for.
    GiveUp,
}

/// The exit code, or -1 where there is none.
pub open spec fn code_of(code: Option<i32>) -> i32 {
    match code {
        Some(c) => c,
        None => -1i32,
    }
}

/// The exit code, or -1 where there is none.
pub fn exit_code_of(code: Option<i32>) -> (r: i32)
    ensures
        r == code_of(code),
{
    match code {
        Some(c) => c,
        None => -1,
    }
}

/// What to do after polling a process: it is killed once it has run for the timeout.
pub open spec fn wait_step_of(poll: Poll, elapsed_nanos: int, timeout_secs: int, nap: u64) -> WaitStep {
    match poll {
        Poll::Exited(code) => WaitStep::Ended(code_of(code)),
        Poll::Running => if elapsed_nanos >= timeout_secs * 1_000_000_000 {
            WaitStep::KillForTimeout
        } else {
            WaitStep::Sleep(nap)
        },
        Poll::Failed => WaitStep::GiveUp,
    }
}

/// What to do after polling a process.
pub fn wait_step(poll: Poll, elapsed_nanos: u128, timeout_secs: u64, nap_millis: u64) -> (r:
    WaitStep)
    ensures
        r == wait_step_of(poll, elapsed_nanos as int, timeout_secs as int, nap_millis),
{
    match poll {
        Poll::Exited(code) => WaitStep::Ended(exit_code_of(code)),
        Poll::Running => if elapsed_nanos >= timeout_secs as u128 * 1_000_000_000 {
            WaitStep::KillForTimeout
        } else {
            WaitStep::Sleep(nap_millis)
        },
        Poll::Failed => WaitStep::GiveUp,
    }
}

// ---------------------------------------------------------------------------
// Captured output
// ---------------------------------------------------------------------------

/// What was kept of an output, and how long it was.
#[derive(Debug)]
pub struct CapturedOutput {
    /// The bytes kept.
    pub bytes: Vec<u8>,
    /// How many bytes there were.
    pub total_bytes: usize,
}

/// The bytes kept of `kept` followed by `chunk`.
pub open spec fn kept_after(kept: Seq<u8>, chunk: Seq<u8>, cap: int) -> Seq<u8> {
    if kept.len() >= cap {
        kept
    } else if chunk.len() <= cap - kept.len() {
        kept + chunk
    } else {
        kept + chunk.take(cap - kept.len())
    }
}

/// The sum, or the largest number.
pub open spec fn capped_sum(a: int, b: int) -> int {
    if a + b <= usize::MAX {
        a + b
    } else {
        usize::MAX as int
    }
}

impl CapturedOutput {
    /// Nothing was read yet.
    pub fn empty() -> (r: CapturedOutput)
        ensures
            r.bytes@ == Seq::<u8>::empty(),
            r.total_bytes == 0,
    {
        CapturedOutput { bytes: Vec::new(), total_bytes: 0 }
    }

    /// Takes in a chunk: at most `cap` bytes are kept, all are counted.
    pub fn absorb(&mut self, chunk: &[u8], cap: usize)
        ensures
            final(self).bytes@ == kept_after(old(self).bytes@, chunk@, cap as int),
            final(self).total_bytes == capped_sum(old(self).total_bytes as int, chunk@.len() as int),
    {
        let n: usize = chunk.len();
        if self.total_bytes <= usize::MAX - n {
            self.total_bytes = self.total_bytes + n;
        } else {
            self.total_bytes = usize::MAX;
        }
        let have: usize = self.bytes.len();
        if have < cap {
            let room: usize = cap - have;
            let take: usize = if n <= room {
                n
            } else {
                room
            };
            let ghost before = self.bytes@;
            let mut i: usize = 0;
            assert(self.bytes@ =~= before + chunk@.take(0));
            while i < take
                invariant
                    i <= take <= chunk@.len(),
                    self.bytes@ == before + chunk@.take(i as int),
                    self.total_bytes == capped_sum(
                        old(self).total_bytes as int,
                        chunk@.len() as int,
                    ),
                decreases take - i,
            {
                self.bytes.push(chunk[i]);
                assert(self.bytes@ =~= before + chunk@.take(i + 1));
                i += 1;
            }
            assert(take == n ==> chunk@.take(take as int) =~= chunk@);
        }
    }

    /// Some bytes were not kept.
    pub open spec fn truncated(&self) -> bool {
        self.total_bytes > self.bytes@.len()
    }

    /// How many bytes were not kept.
    pub open spec fn omitted(&self) -> nat {
        if self.truncated() {
            (self.total_bytes - self.bytes@.len()) as nat
        } else {
            0
        }
    }

    /// Some bytes were not kept.
    pub fn was_truncated(&self) -> (r: bool)
        ensures
            r == self.truncated(),
    {
        self.total_bytes > self.bytes.len()
    }

    fn omitted_bytes(&self) -> (r: usize)
        ensures
            r == self.omitted(),
    {
        if self.total_bytes > self.bytes.len() {
            self.total_bytes - self.bytes.len()
        } else {
            0
        }
    }
}

/// What is kept of a sequence of chunks.
pub open spec fn kept_of(chunks: Seq<Seq<u8>>, cap: int) -> Seq<u8>
    decreases chunks.len(),
{
    if chunks.len() == 0 {
        Seq::empty()
    } else {
        kept_after(kept_of(chunks.drop_last(), cap), chunks.last(), cap)
    }
}

/// The chunks in one piece.
pub open spec fn concatenated(chunks: Seq<Seq<u8>>) -> Seq<u8>
    decreases chunks.len(),
{
    if chunks.len() == 0 {
        Seq::empty()
    } else {
        concatenated(chunks.drop_last()) + chunks.last()
    }
}

/// However an output arrives in chunks, its first `cap` bytes are kept.
pub proof fn law_kept_is_head(chunks: Seq<Seq<u8>>, cap: nat)
    ensures
        kept_of(chunks, cap as int) == (if concatenated(chunks).len() <= cap {
            concatenated(chunks)
        } else {
            concatenated(chunks).take(cap as int)
        }),
    decreases chunks.len(),
{
    if chunks.len() > 0 {
        law_kept_is_head(chunks.drop_last(), cap);
        let before = concatenated(chunks.drop_last());
        let all = concatenated(chunks);
        if before.len() >= cap {
            assert(all.take(cap as int) =~= before.take(cap as int));
            assert(before.len() == cap ==> before.take(cap as int) =~= before);
            assert(all.len() == cap ==> all.take(cap as int) =~= all);
        } else if all.len() > cap {
            assert(all.take(cap as int) =~= before + chunks.last().take(cap - before.len()));
        }
    }
}

// ---------------------------------------------------------------------------
// Cutting text
// ---------------------------------------------------------------------------

/// The longest part of the text from its start, in whole characters, of at most `max` bytes.
pub open spec fn prefix_within(s: Seq<char>, max: int) -> Seq<char> {
    if offsets::bytes(s).len() <= max {
        s
    } else {
        offsets::between(s, 0, offsets::floor_boundary(s, max))
    }
}

/// How many bytes the prefix leaves out.
pub open spec fn omitted_after(s: Seq<char>, max: int) -> nat {
    (offsets::bytes(s).len() - offsets::bytes(prefix_within(s, max)).len()) as nat
}

/// A prefix is a prefix of the bytes too, takes at most `max` of them, and cannot be longer: the
/// next character boundary lies beyond `max`.
pub proof fn law_prefix_within(s: Seq<char>, max: nat)
    ensures
        offsets::bytes(prefix_within(s, max as int)).len() <= max,
        offsets::bytes(prefix_within(s, max as int)) == offsets::bytes(s).take(
            offsets::bytes(prefix_within(s, max as int)).len() as int,
        ),
        forall|j: int|
            offsets::bytes(prefix_within(s, max as int)).len() < j <= max ==> !offsets::boundary(
                s,
                j,
            ),
        offsets::bytes(prefix_within(s, max as int)).len() + omitted_after(s, max as int)
            == offsets::bytes(s).len(),
{
    offsets::lemma_boundary_ends(s);
    if offsets::bytes(s).len() > max {
        offsets::lemma_floor_boundary(s, max as int);
        offsets::lemma_between(s, 0, offsets::floor_boundary(s, max as int));
    }
    let n = offsets::bytes(prefix_within(s, max as int)).len() as int;
    assert(offsets::bytes(prefix_within(s, max as int)) =~= offsets::bytes(s).take(n));
}

/// The longest part of the text from its start, in whole characters, of at most `max_bytes`.
pub fn safe_prefix(s: &str, max_bytes: usize) -> (r: &str)
    ensures
        r@ == prefix_within(s@, max_bytes as int),
{
    if byte_len(s) <= max_bytes {
        return s;
    }
    proof {
        offsets::lemma_boundary_ends(s@);
        offsets::lemma_floor_boundary(s@, max_bytes as int);
    }
    slice_text(s, 0, floor_of(s, max_bytes))
}

/// The output as the model gets it: where it is too long, cut, with the number of bytes left
/// out.
pub open spec fn truncated_output(output: Seq<char>, max: int) -> Seq<char> {
    if offsets::bytes(output).len() <= max {
        output
    } else {
        prefix_within(output, max) + "\n[truncated: "@ + numbers::decimal(
            omitted_after(output, max),
        ) + " bytes omitted]"@
    }
}

/// The output as the model gets it.
pub fn truncate_tool_output(output: &str, max_bytes: usize) -> (r: String)
    ensures
        r@ == truncated_output(output@, max_bytes as int),
{
    if byte_len(output) <= max_bytes {
        return owned(output);
    }
    let prefix = safe_prefix(output, max_bytes);
    proof {
        law_prefix_within(output@, max_bytes as nat);
    }
    let omitted: usize = byte_len(output) - byte_len(prefix);
    let mut out = owned(prefix);
    out.append("\n[truncated: ");
    out.append(size_text(omitted).as_str());
    out.append(" bytes omitted]");
    out
}

/// The input as a warning shows it: where it is too long, cut, with the number of bytes left out.
pub open spec fn input_preview(input: Seq<char>, max: int) -> Seq<char> {
    if offsets::bytes(input).len() <= max {
        input
    } else {
        prefix_within(input, max) + "…[+"@ + numbers::decimal(omitted_after(input, max)) + "b]"@
    }
}

/// The input as a warning shows it.
pub fn tool_input_preview(input: &str, max_bytes: usize) -> (r: String)
    ensures
        r@ == input_preview(input@, max_bytes as int),
{
    if byte_len(input) <= max_bytes {
        return owned(input);
    }
    let prefix = safe_prefix(input, max_bytes);
    proof {
        law_prefix_within(input@, max_bytes as nat);
    }
    let omitted: usize = byte_len(input) - byte_len(prefix);
    let mut out = owned(prefix);
    out.append("…[+");
    out.append(size_text(omitted).as_str());
    out.append("b]");
    out
}

// ---------------------------------------------------------------------------
// What the model gets to see
// ---------------------------------------------------------------------------

/// The text that `String::from_utf8_lossy` makes of bytes.
pub uninterp spec fn lossy_text(b: Seq<u8>) -> Seq<char>;

/// `String::from_utf8_lossy`: bytes that are UTF-8 become the text that they spell. Of others
/// the contract says only that the text depends on the bytes alone.
#[verifier::external_body]
pub(crate) fn lossy(b: &[u8]) -> (r: String)
    ensures
        r@ == lossy_text(b@),
        valid_utf8(b@) ==> offsets::bytes(r@) == b@,
{
    String::from_utf8_lossy(b).to_string()
}

/// The note on bytes that were not kept.
pub open spec fn omission_note(name: Seq<char>, omitted: nat) -> Seq<char> {
    "\n["@ + name + " truncated: "@ + numbers::decimal(omitted) + " bytes omitted]"@
}

/// What the model gets to see of the standard output.
pub open spec fn stdout_part(out: CapturedOutput, shown: Seq<char>) -> Seq<char> {
    shown + if out.truncated() {
        omission_note("stdout"@, out.omitted())
    } else {
        Seq::empty()
    }
}

/// What the model gets to see of the error output: nothing where there was none.
pub open spec fn stderr_part(err: CapturedOutput, shown: Seq<char>) -> Seq<char> {
    if err.bytes@.len() > 0 || err.truncated() {
        "\n[stderr]\n"@ + shown + if err.truncated() {
            omission_note("stderr"@, err.omitted())
        } else {
            Seq::empty()
        }
    } else {
        Seq::empty()
    }
}

/// The note on a timeout.
pub open spec fn timeout_part(timed_out: bool, timeout_secs: nat) -> Seq<char> {
    if timed_out {
        "\n[timeout after "@ + numbers::decimal(timeout_secs) + "s]"@
    } else {
        Seq::empty()
    }
}

/// What a command wrote and whether it ran too long, before it is cut. `shown_out` and `shown_err`
/// are the kept bytes as text.
pub open spec fn output_body(
    out: CapturedOutput,
    shown_out: Seq<char>,
    err: CapturedOutput,
    shown_err: Seq<char>,
    timed_out: bool,
    timeout_secs: nat,
) -> Seq<char> {
    stdout_part(out, shown_out) + stderr_part(err, shown_err) + timeout_part(
        timed_out,
        timeout_secs,
    )
}

/// The line with the exit code.
pub open spec fn exit_line(exit_code: int) -> Seq<char> {
    "\n[exit "@ + numbers::signed_decimal(exit_code) + "]"@
}

/// The result of a command: what it wrote, cut where it is too long, and always the exit line.
pub open spec fn command_result(
    out: CapturedOutput,
    shown_out: Seq<char>,
    err: CapturedOutput,
    shown_err: Seq<char>,
    timed_out: bool,
    limits: ToolLimits,
    exit_code: int,
) -> Seq<char> {
    truncated_output(
        output_body(out, shown_out, err, shown_err, timed_out, limits.timeout_secs as nat),
        limits.output_max_bytes as int,
    ) + "\n[exit "@ + numbers::signed_decimal(exit_code) + "]"@
}

/// The result of a command ends in its exit line, however much it wrote and however little of that
/// is kept.
pub proof fn law_result_ends_in_exit_line(
    out: CapturedOutput,
    shown_out: Seq<char>,
    err: CapturedOutput,
    shown_err: Seq<char>,
    timed_out: bool,
    limits: ToolLimits,
    exit_code: int,
)
    ensures
        text::ends_with(
            command_result(out, shown_out, err, shown_err, timed_out, limits, exit_code),
            exit_line(exit_code),
        ),
{
    let all = command_result(out, shown_out, err, shown_err, timed_out, limits, exit_code);
    let line = exit_line(exit_code);
    let at = all.len() - line.len();
    assert(all.subrange(at, at + line.len()) =~= line);
}

fn omission_note_of(name: &str, omitted: usize) -> (r: String)
    ensures
        r@ == omission_note(name@, omitted as nat),
{
    let mut out = owned("\n[");
    out.append(name);
    out.append(" truncated: ");
    out.append(size_text(omitted).as_str());
    out.append(" bytes omitted]");
    out
}

/// The result of a command, given the kept bytes as text.
pub fn render_output(
    stdout: &CapturedOutput,
    shown_out: &str,
    stderr: &CapturedOutput,
    shown_err: &str,
    timed_out: bool,
    exit_code: i32,
    limits: &ToolLimits,
) -> (r: String)
    ensures
        r@ == truncated_output(
            output_body(
                *stdout,
                shown_out@,
                *stderr,
                shown_err@,
                timed_out,
                limits.timeout_secs as nat,
            ),
            limits.output_max_bytes as int,
        ) + "\n[exit "@ + numbers::signed_decimal(exit_code as int) + "]"@,
        r@ == command_result(
            *stdout,
            shown_out@,
            *stderr,
            shown_err@,
            timed_out,
            *limits,
            exit_code as int,
        ),
        text::ends_with(r@, exit_line(exit_code as int)),
{
    let mut result = owned(shown_out);
    let mut note = String::new();
    if stdout.was_truncated() {
        note = omission_note_of("stdout", stdout.omitted_bytes());
    }
    result.append(note.as_str());
    let mut part = String::new();
    if stderr.bytes.len() > 0 || stderr.was_truncated() {
        part = owned("\n[stderr]\n");
        part.append(shown_err);
        let mut err_note = String::new();
        if stderr.was_truncated() {
            err_note = omission_note_of("stderr", stderr.omitted_bytes());
        }
        part.append(err_note.as_str());
    }
    result.append(part.as_str());
    let mut late = String::new();
    if timed_out {
        late = owned("\n[timeout after ");
        late.append(decimal_text(limits.timeout_secs as u128).as_str());
        late.append("s]");
    }
    result.append(late.as_str());
    let mut out = truncate_tool_output(result.as_str(), limits.output_max_bytes);
    out.append("\n[exit ");
    out.append(signed_text(exit_code).as_str());
    out.append("]");
    proof {
        law_result_ends_in_exit_line(
            *stdout,
            shown_out@,
            *stderr,
            shown_err@,
            timed_out,
            *limits,
            exit_code as int,
        );
    }
    out
}

/// The result of a command: its output, its error output and whether it ran too long, cut where
/// that is too long, and its exit code.
pub fn tool_output(
    stdout: &CapturedOutput,
    stderr: &CapturedOutput,
    timed_out: bool,
    exit_code: i32,
    limits: &ToolLimits,
) -> (r: String)
    ensures
        r@ == truncated_output(
            output_body(
                *stdout,
                lossy_text(stdout.bytes@),
                *stderr,
                lossy_text(stderr.bytes@),
                timed_out,
                limits.timeout_secs as nat,
            ),
            limits.output_max_bytes as int,
        ) + "\n[exit "@ + numbers::signed_decimal(exit_code as int) + "]"@,
        r@ == command_result(
            *stdout,
            lossy_text(stdout.bytes@),
            *stderr,
            lossy_text(stderr.bytes@),
            timed_out,
            *limits,
            exit_code as int,
        ),
        text::ends_with(r@, exit_line(exit_code as int)),
{
    let shown_out = lossy(stdout.bytes.as_slice());
    let shown_err = lossy(stderr.bytes.as_slice());
    render_output(
        stdout,
        shown_out.as_str(),
        stderr,
        shown_err.as_str(),
        timed_out,
        exit_code,
        limits,
    )
}

/// What kept a command from running.
#[derive(Clone, Copy, Debug, PartialEq, Eq, Structural)]
pub enum ToolFailure {
    /// Its directory could not be made.
    Workspace,
    /// It could not be started.
    Spawn,
    /// It could not be waited for.
    Wait,
}

impl ToolFailure {
    /// The name of the failure.
    pub open spec fn name(self) -> Seq<char> {
        match self {
            ToolFailure::Workspace => "[workspace error: "@,
            ToolFailure::Spawn => "[spawn error: "@,
            ToolFailure::Wait => "[wait error: "@,
        }
    }
}

/// What the model gets to see of a command that did not run.
pub fn tool_failure(failure: ToolFailure, message: &str) -> (r: String)
    ensures
        r@ == failure.name() + message@ + "]\n[exit 1]"@,
{
    let mut out = owned(
        match failure {
            ToolFailure::Workspace => "[workspace error: ",
            ToolFailure::Spawn => "[spawn error: ",
            ToolFailure::Wait => "[wait error: ",
        },
    );
    out.append(message);
    out.append("]\n[exit 1]");
    out
}

} // verus!
