//! What the model gets to see of a command that was run.

use vstd::prelude::*;

use crate::numbers;
use crate::offsets;
use crate::text;
use crate::tools;
use crate::tools::{CapturedOutput, Poll, ToolLimits, WaitStep};

verus! {

/// Nothing was written.
pub open spec fn silent(c: CapturedOutput) -> bool {
    c.bytes@.len() == 0 && c.total_bytes == 0
}

/// Whatever a command wrote to its error output follows its output under a heading, whether it ran
/// too long or not; what was not kept of it is counted.
pub proof fn law_stderr_is_shown(
    out: CapturedOutput,
    shown_out: Seq<char>,
    err: CapturedOutput,
    shown_err: Seq<char>,
    none: CapturedOutput,
    shown_none: Seq<char>,
    timed_out: bool,
    secs: nat,
)
    requires
        silent(none),
        !silent(err),
    ensures
        ({
            let with = tools::output_body(out, shown_out, err, shown_err, timed_out, secs);
            let plain = tools::output_body(out, shown_out, none, shown_none, false, secs);
            &&& text::begins_with(with, plain + "\n[stderr]\n"@ + shown_err)
            &&& err.total_bytes > err.bytes@.len() ==> text::begins_with(
                with,
                plain + "\n[stderr]\n"@ + shown_err + "\n[stderr truncated: "@
                    + numbers::decimal((err.total_bytes - err.bytes@.len()) as nat)
                    + " bytes omitted]"@,
            )
            &&& err.total_bytes <= err.bytes@.len() && !timed_out ==> with == plain
                + "\n[stderr]\n"@ + shown_err
        }),
{
    let with = tools::output_body(out, shown_out, err, shown_err, timed_out, secs);
    let plain = tools::output_body(out, shown_out, none, shown_none, false, secs);
    let first = tools::stdout_part(out, shown_out);
    assert(plain =~= first);
    let short = plain + "\n[stderr]\n"@ + shown_err;
    assert(with.subrange(0, short.len() as int) =~= short);
    if err.total_bytes > err.bytes@.len() {
        let note = "\n[stderr truncated: "@ + numbers::decimal(
            (err.total_bytes - err.bytes@.len()) as nat,
        ) + " bytes omitted]"@;
        reveal_strlit("\n[");
        reveal_strlit("stderr");
        reveal_strlit(" truncated: ");
        reveal_strlit("\n[stderr truncated: ");
        assert("\n["@ + "stderr"@ + " truncated: "@ =~= "\n[stderr truncated: "@);
        assert(tools::omission_note("stderr"@, err.omitted()) =~= note);
        let long = plain + "\n[stderr]\n"@ + shown_err + "\n[stderr truncated: "@
            + numbers::decimal((err.total_bytes - err.bytes@.len()) as nat) + " bytes omitted]"@;
        assert(with.subrange(0, long.len() as int) =~= long);
    } else if !timed_out {
        assert(with =~= short);
    }
}

/// The output of a command comes first, and is all that is shown of a command that wrote no error
/// output and ran no longer than it may.
pub proof fn law_stdout_comes_first(
    out: CapturedOutput,
    shown_out: Seq<char>,
    err: CapturedOutput,
    shown_err: Seq<char>,
    timed_out: bool,
    secs: nat,
)
    ensures
        text::begins_with(
            tools::output_body(out, shown_out, err, shown_err, timed_out, secs),
            shown_out,
        ),
        out.total_bytes <= out.bytes@.len() && silent(err) && !timed_out ==> tools::output_body(
            out,
            shown_out,
            err,
            shown_err,
            timed_out,
            secs,
        ) == shown_out,
        out.total_bytes > out.bytes@.len() && silent(err) && !timed_out ==> tools::output_body(
            out,
            shown_out,
            err,
            shown_err,
            timed_out,
            secs,
        ) == shown_out + "\n[stdout truncated: "@ + numbers::decimal(
            (out.total_bytes - out.bytes@.len()) as nat,
        ) + " bytes omitted]"@,
{
    let all = tools::output_body(out, shown_out, err, shown_err, timed_out, secs);
    assert(all.subrange(0, shown_out.len() as int) =~= shown_out);
    if silent(err) && !timed_out {
        assert(all =~= tools::stdout_part(out, shown_out));
        if out.total_bytes > out.bytes@.len() {
            reveal_strlit("\n[");
            reveal_strlit("stdout");
            reveal_strlit(" truncated: ");
            reveal_strlit("\n[stdout truncated: ");
            assert("\n["@ + "stdout"@ + " truncated: "@ =~= "\n[stdout truncated: "@);
            assert(all =~= shown_out + "\n[stdout truncated: "@ + numbers::decimal(
                (out.total_bytes - out.bytes@.len()) as nat,
            ) + " bytes omitted]"@);
        } else {
            assert(all =~= shown_out);
        }
    }
}

/// A command that ran too long is shown as one that did not, with a note on the timeout at the end.
pub proof fn law_timeout_is_noted(
    out: CapturedOutput,
    shown_out: Seq<char>,
    err: CapturedOutput,
    shown_err: Seq<char>,
    secs: nat,
)
    ensures
        tools::output_body(out, shown_out, err, shown_err, true, secs) == tools::output_body(
            out,
            shown_out,
            err,
            shown_err,
            false,
            secs,
        ) + "\n[timeout after "@ + numbers::decimal(secs) + "s]"@,
{
    assert(tools::output_body(out, shown_out, err, shown_err, true, secs) =~= tools::output_body(
        out,
        shown_out,
        err,
        shown_err,
        false,
        secs,
    ) + "\n[timeout after "@ + numbers::decimal(secs) + "s]"@);
}

/// A result that fits is whole; of one that does not, the longest part in whole characters that
/// fits is kept, and the bytes that are missing are counted. Either way the exit code follows.
pub proof fn law_result_is_whole_or_cut(
    out: CapturedOutput,
    shown_out: Seq<char>,
    err: CapturedOutput,
    shown_err: Seq<char>,
    timed_out: bool,
    limits: ToolLimits,
    exit_code: int,
)
    ensures
        ({
            let all = tools::output_body(
                out,
                shown_out,
                err,
                shown_err,
                timed_out,
                limits.timeout_secs as nat,
            );
            let r = tools::command_result(
                out,
                shown_out,
                err,
                shown_err,
                timed_out,
                limits,
                exit_code,
            );
            let end = "\n[exit "@ + numbers::signed_decimal(exit_code) + "]"@;
            let max = limits.output_max_bytes as int;
            &&& offsets::bytes(all).len() <= max ==> r == all + end
            &&& offsets::bytes(all).len() > max ==> exists|kept: Seq<char>|
                {
                    &&& offsets::bytes(kept).len() <= max
                    &&& offsets::bytes(kept) == offsets::bytes(all).take(
                        offsets::bytes(kept).len() as int,
                    )
                    &&& forall|j: int|
                        offsets::bytes(kept).len() < j <= max ==> !offsets::boundary(all, j)
                    &&& r == #[trigger] cut_to(kept, offsets::bytes(all).len() as int) + end
                }
        }),
{
    let all = tools::output_body(
        out,
        shown_out,
        err,
        shown_err,
        timed_out,
        limits.timeout_secs as nat,
    );
    let r = tools::command_result(out, shown_out, err, shown_err, timed_out, limits, exit_code);
    let end = "\n[exit "@ + numbers::signed_decimal(exit_code) + "]"@;
    let max = limits.output_max_bytes as int;
    if offsets::bytes(all).len() <= max {
        assert(r =~= all + end);
    } else {
        tools::law_prefix_within(all, max as nat);
        let kept = tools::prefix_within(all, max);
        assert(r =~= cut_to(kept, offsets::bytes(all).len() as int) + end);
    }
}

/// What is kept of a text of `size` bytes, with a note on the rest.
pub open spec fn cut_to(kept: Seq<char>, size: int) -> Seq<char> {
    kept + "\n[truncated: "@ + numbers::decimal((size - offsets::bytes(kept).len()) as nat)
        + " bytes omitted]"@
}

/// A command is waited for until it ends, and killed as soon as it has run for the time that it may.
pub proof fn law_waiting(code: i32, elapsed_nanos: nat, timeout_secs: nat, nap: u64)
    ensures
        tools::wait_step_of(
            Poll::Exited(Some(code)),
            elapsed_nanos as int,
            timeout_secs as int,
            nap,
        ) == WaitStep::Ended(code),
        tools::wait_step_of(Poll::Exited(None), elapsed_nanos as int, timeout_secs as int, nap)
            == WaitStep::Ended(-1i32),
        tools::wait_step_of(Poll::Failed, elapsed_nanos as int, timeout_secs as int, nap)
            == WaitStep::GiveUp,
        tools::wait_step_of(Poll::Running, elapsed_nanos as int, timeout_secs as int, nap)
            == WaitStep::KillForTimeout <==> elapsed_nanos >= timeout_secs * 1_000_000_000,
        tools::wait_step_of(Poll::Running, elapsed_nanos as int, timeout_secs as int, nap)
            == WaitStep::Sleep(nap) <==> elapsed_nanos < timeout_secs * 1_000_000_000,
{
}

/// A setting that spells a number above zero is that number; any other, and none, is the default.
pub proof fn law_setting(n: nat, max: nat, default: nat, var: Seq<char>)
    ensures
        0 < n <= max ==> tools::setting(Some(numbers::decimal(n)), max as int, default as int) == n,
        n > max ==> tools::setting(Some(numbers::decimal(n)), max as int, default as int)
            == default,
        tools::setting(Some(numbers::decimal(0)), max as int, default as int) == default,
        tools::setting(None, max as int, default as int) == default,
        tools::setting(Some(var), max as int, default as int) == default || 0 < tools::setting(
            Some(var),
            max as int,
            default as int,
        ),
{
    numbers::law_decimal_reads_back(
        n,
        if n > max {
            n as int
        } else {
            max as int
        },
    );
    numbers::law_decimal_reads_back(0, max as int);
}

/// A flag is on exactly where its variable has one of the words that switch it on.
pub proof fn law_flag(s: Seq<char>)
    ensures
        tools::flag_on(Some(s)) <==> {
            ||| s == "1"@
            ||| s == "true"@
            ||| s == "TRUE"@
            ||| s == "yes"@
            ||| s == "YES"@
            ||| s == "on"@
            ||| s == "ON"@
        },
        !tools::flag_on(None),
{
    let words = tools::TRUTHY@;
    assert(words[0]@ == "1"@ && words[1]@ == "true"@ && words[2]@ == "TRUE"@ && words[3]@
        == "yes"@ && words[4]@ == "YES"@ && words[5]@ == "on"@ && words[6]@ == "ON"@);
}

/// The depth is the number that is set, and zero otherwise; a nested invocation is one deeper.
pub proof fn law_depth(n: u32, s: Seq<char>)
    ensures
        tools::depth_of(Some(numbers::decimal(n as nat))) == n,
        tools::depth_of(None) == 0,
        numbers::parsed_number(s, u32::MAX as int) is None ==> tools::depth_of(Some(s)) == 0,
        n < u32::MAX ==> tools::child_depth_of(n as int) == n + 1,
        tools::child_depth_of(u32::MAX as int) == u32::MAX,
{
    numbers::law_decimal_reads_back(n as nat, u32::MAX as int);
}

/// However an output arrives, the bytes that are kept are its first ones, as many as may be.
pub proof fn law_bytes_are_kept(kept: Seq<u8>, chunk: Seq<u8>, cap: nat)
    requires
        kept.len() <= cap,
    ensures
        kept.len() + chunk.len() <= cap ==> tools::kept_after(kept, chunk, cap as int) == kept
            + chunk,
        kept.len() + chunk.len() > cap ==> tools::kept_after(kept, chunk, cap as int) == (kept
            + chunk).take(cap as int),
{
    let all = kept + chunk;
    if kept.len() + chunk.len() > cap {
        if kept.len() == cap {
            assert(all.take(cap as int) =~= kept);
        } else {
            assert(all.take(cap as int) =~= kept + chunk.take(cap - kept.len()));
        }
    }
}

/// An input that is short enough is shown whole; of a longer one the longest part in whole characters
/// is shown, and the bytes that are missing are counted.
pub proof fn law_input_preview(input: Seq<char>, max: nat)
    ensures
        offsets::bytes(input).len() <= max ==> tools::input_preview(input, max as int) == input,
        offsets::bytes(input).len() > max ==> exists|kept: Seq<char>|
            {
                &&& #[trigger] offsets::bytes(kept).len() <= max
                &&& offsets::bytes(kept) == offsets::bytes(input).take(
                    offsets::bytes(kept).len() as int,
                )
                &&& tools::input_preview(input, max as int) == kept + "…[+"@ + numbers::decimal(
                    (offsets::bytes(input).len() - offsets::bytes(kept).len()) as nat,
                ) + "b]"@
            },
{
    if offsets::bytes(input).len() > max {
        tools::law_prefix_within(input, max);
        let kept = tools::prefix_within(input, max as int);
        assert(offsets::bytes(kept).len() <= max);
    }
}

} // verus!
