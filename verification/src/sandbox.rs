//! The shell tool: what it reads from the model's arguments, and what it reports of a command that
//! ran in the sandbox.

use crate::text::{from_chars, signed_decimal, to_chars, to_signed_decimal};
use serde_json::Value;
use vstd::prelude::*;
use vstd::string::*;

verus! {

/// How many characters of an output are reported.
pub const MAX_OUTPUT_CHARS: usize = 2000;

/// A JSON error.
#[verifier::external_type_specification]
#[verifier::external_body]
pub struct ExJsonError(serde_json::Error);

/// What [`serde_json::from_str`] makes of a text, as a JSON value.
pub uninterp spec fn parsed_json(text: Seq<char>) -> Result<Value, serde_json::Error>;

/// The string that a JSON value holds under a key: [`Value`]'s `Index`, then [`Value::as_str`].
pub uninterp spec fn string_field(value: Value, key: Seq<char>) -> Option<Seq<char>>;

/// The `Display` of a [`serde_json::Error`].
pub uninterp spec fn json_error_text(error: serde_json::Error) -> Seq<char>;

/// Calls [`serde_json::from_str`]. Claimed is that what comes out, value or error, depends on the
/// text alone; what JSON is, is left unsaid.
#[verifier::external_body]
fn parse_json(text: &str) -> (r: Result<Value, serde_json::Error>)
    ensures
        r == parsed_json(text@),
{
    serde_json::from_str(text)
}

/// Indexes a [`Value`] with a string and calls [`Value::as_str`]. Claimed is that what comes out
/// depends on the value and the key alone; what a value holds is left unsaid.
#[verifier::external_body]
fn read_string_field(value: &Value, key: &str) -> (r: Option<String>)
    ensures
        match r {
            Some(text) => string_field(*value, key@) == Some(text@),
            None => string_field(*value, key@) is None,
        },
{
    value[key].as_str().map(String::from)
}

/// Writes out a [`serde_json::Error`] with its `Display`. Claimed is that the text depends on the
/// error alone; how it is worded is left unsaid.
#[verifier::external_body]
fn describe_json_error(error: &serde_json::Error) -> (r: String)
    ensures
        r@ == json_error_text(*error),
{
    error.to_string()
}

/// Why the arguments of a call name no command.
#[derive(Debug)]
pub enum ArgumentError {
    /// The arguments are no JSON; the text is that of the parser.
    Json(String),
    /// The arguments have no string under `command`.
    MissingCommand,
}

/// What an [`ArgumentError`] holds.
pub enum ArgumentErrorView {
    Json(Seq<char>),
    MissingCommand,
}

impl View for ArgumentError {
    type V = ArgumentErrorView;

    open spec fn view(&self) -> ArgumentErrorView {
        match *self {
            ArgumentError::Json(text) => ArgumentErrorView::Json(text@),
            ArgumentError::MissingCommand => ArgumentErrorView::MissingCommand,
        }
    }
}

impl ArgumentError {
    /// The error in words.
    pub fn message(&self) -> (r: String)
        ensures
            r@ == match self@ {
                ArgumentErrorView::Json(text) => text,
                ArgumentErrorView::MissingCommand => "缺少必填字段: command"@,
            },
    {
        match self {
            ArgumentError::Json(text) => text.clone(),
            ArgumentError::MissingCommand => "缺少必填字段: command".to_owned(),
        }
    }
}

/// The command that arguments name.
pub open spec fn command_in(args: Seq<char>) -> Result<Seq<char>, ArgumentErrorView> {
    match parsed_json(args) {
        Err(error) => Err(ArgumentErrorView::Json(json_error_text(error))),
        Ok(value) => match string_field(value, "command"@) {
            Some(command) => Ok(command),
            None => Err(ArgumentErrorView::MissingCommand),
        },
    }
}

/// What is kept of an output: the first characters, with a notice, where it is too long.
pub open spec fn kept_output(output: Seq<char>) -> Seq<char> {
    if output.len() > MAX_OUTPUT_CHARS {
        output.take(MAX_OUTPUT_CHARS as int)
            + "...\n\n[警告：终端输出过长已自动截断，仅保留前 2000 字符]"@
    } else {
        output
    }
}

/// What the model is told of a command that ran.
pub open spec fn report_text(code: int, stdout: Seq<char>, stderr: Seq<char>) -> Seq<char> {
    "exit_code: "@ + signed_decimal(code) + "\noutput:\n"@ + kept_output(
        if code == 0 {
            stdout
        } else {
            stderr
        },
    )
}

/// The shell tool.
#[derive(Debug, Clone, Copy)]
pub struct SandboxedBashTool;

impl SandboxedBashTool {
    /// The tool.
    pub fn new() -> (r: Self)
        ensures
            r == SandboxedBashTool,
    {
        SandboxedBashTool
    }

    /// The name of the tool.
    pub fn name(&self) -> (r: &'static str)
        ensures
            r@ == "bash"@,
    {
        "bash"
    }

    /// What the model is told of the tool.
    pub fn description(&self) -> (r: &'static str)
        ensures
            r@ == "在隔离的 Linux 沙箱微虚拟机中执行 shell 命令或 python 脚本，并获取终端输出"@,
    {
        "在隔离的 Linux 沙箱微虚拟机中执行 shell 命令或 python 脚本，并获取终端输出"
    }

    /// The command that the arguments name.
    pub fn command(&self, args_json: &str) -> (r: Result<String, ArgumentError>)
        ensures
            match r {
                Ok(command) => command_in(args_json@) == Ok::<_, ArgumentErrorView>(command@),
                Err(error) => command_in(args_json@) == Err::<Seq<char>, _>(error@),
            },
    {
        match parse_json(args_json) {
            Err(error) => Err(ArgumentError::Json(describe_json_error(&error))),
            Ok(value) => self.required(read_string_field(&value, "command")),
        }
    }

    /// The command that stands in the arguments; an error where there is none.
    pub fn required(&self, command: Option<String>) -> (r: Result<String, ArgumentError>)
        ensures
            match command {
                Some(command) => r matches Ok(text) && text@ == command@,
                None => r matches Err(error) && error@ == ArgumentErrorView::MissingCommand,
            },
    {
        match command {
            Some(command) => Ok(command),
            None => Err(ArgumentError::MissingCommand),
        }
    }

    /// What the model is told of a command that ran: the exit code, and the output if it
    /// succeeded, else the error output.
    pub fn report(&self, code: i32, stdout: &str, stderr: &str) -> (r: String)
        ensures
            r@ == "exit_code: "@ + signed_decimal(code as int) + "\noutput:\n"@ + kept_output(
                if code == 0 {
                    stdout@
                } else {
                    stderr@
                },
            ),
            r@ == report_text(code as int, stdout@, stderr@),
    {
        let raw = if code == 0 {
            stdout
        } else {
            stderr
        };
        let mut r = String::new();
        r.append("exit_code: ");
        r.append(to_signed_decimal(code).as_str());
        r.append("\noutput:\n");
        let ghost head = r@;
        let chars = to_chars(raw);
        if chars.len() > MAX_OUTPUT_CHARS {
            r.append(from_chars(&chars, 0, MAX_OUTPUT_CHARS).as_str());
            r.append("...\n\n[警告：终端输出过长已自动截断，仅保留前 2000 字符]");
            assert(chars@.subrange(0, MAX_OUTPUT_CHARS as int) =~= raw@.take(
                MAX_OUTPUT_CHARS as int,
            ));
            assert(r@ =~= head + kept_output(raw@));
        } else {
            r.append(raw);
        }
        assert(r@ =~= "exit_code: "@ + signed_decimal(code as int) + "\noutput:\n"@ + kept_output(
            raw@,
        ));
        r
    }
}

} // verus!
