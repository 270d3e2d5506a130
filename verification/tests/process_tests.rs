use pigtree::process::{build_windows_command_line, engine_command_line, quote_windows_arg};

#[test]
fn test_windows_arg_quoting() {
    assert_eq!(quote_windows_arg("simple"), "simple");
    assert_eq!(quote_windows_arg(""), "\"\"");
    assert_eq!(quote_windows_arg("with space"), "\"with space\"");
    assert_eq!(
        quote_windows_arg(r"C:\Program Files\"),
        r#""C:\Program Files\\""#
    );
    assert_eq!(
        quote_windows_arg(r#"word "with" quotes"#),
        "\"word \\\"with\\\" quotes\""
    );
}

#[test]
fn test_build_windows_command_line() {
    let cmd = build_windows_command_line(&["app.exe", "--target", r"C:\my path\", "--flag"]);
    assert_eq!(cmd, r#"app.exe --target "C:\my path\\" --flag"#);
}

#[test]
fn test_engine_command_line() {
    assert_eq!(
        engine_command_line(r"C:\e.exe", r"\\.\pipe\x", "s1", 1234),
        r#""C:\e.exe" --pipe-name "\\.\pipe\x" --session-id "s1" --bootstrap-handle 1234"#
    );
    assert_eq!(
        engine_command_line("eng", "p", "", 0),
        r#""eng" --pipe-name "p" --session-id "" --bootstrap-handle 0"#
    );
}
