//! What the model learns of a command.

use crate::sandbox::{
    command_in, json_error_text, kept_output, parsed_json, report_text, string_field,
    ArgumentErrorView, MAX_OUTPUT_CHARS,
};
use crate::text::{decimal, signed_decimal};
use vstd::prelude::*;

verus! {

/// An output of up to 2000 characters is reported to the last character; of a longer one exactly
/// the first 2000 are, with a notice behind them.
pub proof fn law_how_much_output_is_reported(output: Seq<char>)
    ensures
        MAX_OUTPUT_CHARS == 2000,
        output.len() <= 2000 ==> kept_output(output) == output,
        output.len() > 2000 ==> kept_output(output) == output.take(2000)
            + "...\n\n[警告：终端输出过长已自动截断，仅保留前 2000 字符]"@,
{
}

/// What is cut off does not matter, and nothing else is lost: two outputs that fit are reported
/// alike only where they are the same, two that are too long only where they agree in what is kept.
pub proof fn law_only_the_end_of_a_long_output_is_lost(a: Seq<char>, b: Seq<char>)
    ensures
        a.len() > 2000 && b.len() > 2000 ==> (kept_output(a) == kept_output(b) <==> a.take(2000)
            == b.take(2000)),
        a.len() <= 2000 && b.len() <= 2000 ==> (kept_output(a) == kept_output(b) <==> a == b),
{
    if a.len() > 2000 && b.len() > 2000 {
        assert(kept_output(a).take(2000) =~= a.take(2000));
        assert(kept_output(b).take(2000) =~= b.take(2000));
    }
}

/// The command is what the arguments hold under `command`; arguments that are no JSON and
/// arguments without such a string name none, and the error tells the two apart.
pub proof fn law_where_the_command_stands(args: Seq<char>)
    ensures
        parsed_json(args) matches Err(error) ==> command_in(args) == Err::<Seq<char>, _>(
            ArgumentErrorView::Json(json_error_text(error)),
        ),
        parsed_json(args) matches Ok(value) ==> (string_field(value, "command"@) matches Some(
            command,
        ) ==> command_in(args) == Ok::<_, ArgumentErrorView>(command)),
        parsed_json(args) matches Ok(value) ==> (string_field(value, "command"@) is None
            ==> command_in(args) == Err::<Seq<char>, _>(ArgumentErrorView::MissingCommand)),
{
}

/// What a command that succeeded wrote as errors is not reported, nor the output of one that
/// failed; the exit code always is, in front.
pub proof fn law_what_is_reported(code: int, stdout: Seq<char>, stderr: Seq<char>, other: Seq<char>)
    ensures
        report_text(0, stdout, stderr) == report_text(0, stdout, other),
        code != 0 ==> report_text(code, stdout, stderr) == report_text(code, other, stderr),
        stdout.len() <= 2000 ==> report_text(0, stdout, stderr) == "exit_code: "@ + decimal(0)
            + "\noutput:\n"@ + stdout,
        code != 0 && stderr.len() <= 2000 ==> report_text(code, stdout, stderr) == "exit_code: "@
            + signed_decimal(code) + "\noutput:\n"@ + stderr,
        stdout.len() > 2000 ==> report_text(0, stdout, stderr) == "exit_code: "@ + decimal(0)
            + "\noutput:\n"@ + kept_output(stdout),
        code != 0 && stderr.len() > 2000 ==> report_text(code, stdout, stderr) == "exit_code: "@
            + signed_decimal(code) + "\noutput:\n"@ + kept_output(stderr),
{
}

} // verus!
