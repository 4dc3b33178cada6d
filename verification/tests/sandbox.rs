use corvus::sandbox::{ArgumentError, SandboxedBashTool};

#[test]
fn the_command_is_read_from_the_arguments() {
    let tool = SandboxedBashTool::new();
    assert_eq!(tool.name(), "bash");
    assert_eq!(
        tool.description(),
        "在隔离的 Linux 沙箱微虚拟机中执行 shell 命令或 python 脚本，并获取终端输出"
    );
    assert_eq!(
        tool.command(r#"{"command":"ls -la","other":1}"#).expect("a command"),
        "ls -la"
    );
    assert_eq!(tool.command(r#"{"command":""}"#).expect("a command"), "");
}

#[test]
fn arguments_without_a_command_are_refused() {
    let tool = SandboxedBashTool::new();
    for arguments in [r#"{}"#, r#"{"command":1}"#, r#"[]"#, r#""command""#, "null"] {
        let error = tool.command(arguments).unwrap_err();
        assert!(matches!(error, ArgumentError::MissingCommand), "{arguments}");
        assert_eq!(error.message(), "缺少必填字段: command");
    }
    assert!(matches!(
        tool.required(None),
        Err(ArgumentError::MissingCommand)
    ));
    assert_eq!(tool.required(Some("ls".to_string())).expect("a command"), "ls");
}

#[test]
fn arguments_that_are_no_json_are_refused_in_the_words_of_the_parser() {
    let tool = SandboxedBashTool::new();
    let error = tool.command("{").unwrap_err();
    assert!(matches!(error, ArgumentError::Json(_)));
    assert_eq!(
        error.message(),
        "EOF while parsing an object at line 1 column 1"
    );
}

#[test]
fn the_exit_code_decides_which_output_is_reported() {
    let tool = SandboxedBashTool::new();
    assert_eq!(tool.report(0, "out", "err"), "exit_code: 0\noutput:\nout");
    assert_eq!(tool.report(127, "out", "err"), "exit_code: 127\noutput:\nerr");
    assert_eq!(tool.report(-9, "out", ""), "exit_code: -9\noutput:\n");
    assert_eq!(
        tool.report(i32::MIN, "", "x"),
        "exit_code: -2147483648\noutput:\nx"
    );
}

#[test]
fn a_long_output_is_cut() {
    let tool = SandboxedBashTool::new();
    let fits = "a".repeat(2000);
    assert_eq!(
        tool.report(0, &fits, ""),
        format!("exit_code: 0\noutput:\n{fits}")
    );
    let long = format!("{fits}b");
    assert_eq!(
        tool.report(0, &long, ""),
        format!(
            "exit_code: 0\noutput:\n{fits}...\n\n[警告：终端输出过长已自动截断，仅保留前 2000 字符]"
        )
    );
    // It is characters that count, whatever bytes they take.
    let wide = "字".repeat(2000);
    assert_eq!(
        tool.report(1, "", &wide),
        format!("exit_code: 1\noutput:\n{wide}")
    );
    let long = format!("{wide}é");
    assert_eq!(
        tool.report(1, "", &long),
        format!(
            "exit_code: 1\noutput:\n{wide}...\n\n[警告：终端输出过长已自动截断，仅保留前 2000 字符]"
        )
    );
    let mixed = format!("a{}", "é".repeat(2500));
    let kept = format!("a{}", "é".repeat(1999));
    assert_eq!(
        tool.report(0, &mixed, ""),
        format!(
            "exit_code: 0\noutput:\n{kept}...\n\n[警告：终端输出过长已自动截断，仅保留前 2000 字符]"
        )
    );
}
