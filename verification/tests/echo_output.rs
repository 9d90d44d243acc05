use echo::Args;

#[test]
fn echo_no_args() {
    let string_args = vec!["file_name".to_string()];
    let args = Args::parse_args(string_args);
    assert_eq!(args.echo().as_str(), "\n");
}

#[test]
fn echo_simple_text() {
    let test_arg = "Hello, World!".to_string();
    let string_args = vec!["file_name".to_string(), test_arg.clone()];
    let args = Args::parse_args(string_args);
    assert_eq!(args.echo(), test_arg + "\n");
}

#[test]
fn echo_multiple_args() {
    let test_arg1 = "one".to_string();
    let test_arg2 = "two".to_string();
    let string_args = vec![
        "file_name".to_string(),
        test_arg1.clone(),
        test_arg2.clone(),
    ];
    let args = Args::parse_args(string_args);
    assert_eq!(args.echo().as_str(), test_arg1 + " " + &test_arg2 + "\n");
}

#[test]
fn echo_with_no_ending_newline_character() {
    let test_arg = "Hello, World!".to_string();
    let string_args = vec!["file_name".to_string(), "-n".to_string(), test_arg.clone()];
    let args = Args::parse_args(string_args);
    assert_eq!(args.echo(), test_arg);
}

#[test]
fn echo_no_newline_flag_before_text() {
    let args = Args::parse_args(vec![
        "file_name".to_string(),
        "-n".to_string(),
        "Hello,".to_string(),
        "World!".to_string(),
    ]);
    assert_eq!(args.echo(), "Hello, World!");
}

#[test]
fn echo_no_newline_flag_after_text() {
    let args = Args::parse_args(vec![
        "file_name".to_string(),
        "Hello,".to_string(),
        "World!".to_string(),
        "-n".to_string(),
    ]);
    assert_eq!(args.echo(), "Hello, World!");
}

#[test]
fn echo_escaped_tab_in_text() {
    let args = Args::parse_args(vec![
        "file_name".to_string(),
        "-e".to_string(),
        "one\\ttwo".to_string(),
    ]);
    assert_eq!(args.echo(), "one\ttwo\n");
}

#[test]
fn echo_escape_flags_cancel() {
    let off = Args::parse_args(vec![
        "file_name".to_string(),
        "-e".to_string(),
        "-E".to_string(),
        "a\\tb".to_string(),
    ]);
    assert_eq!(off.echo(), "a\\tb\n");
    let on = Args::parse_args(vec![
        "file_name".to_string(),
        "-E".to_string(),
        "-e".to_string(),
        "a\\tb".to_string(),
    ]);
    assert_eq!(on.echo(), "a\tb\n");
}

#[test]
fn echo_trailing_backslash_before_appended_newline() {
    // The newline is appended before decoding, so the backslash is not the
    // last character of the scanned string: it pairs with the newline and
    // both come out literally.
    let args = Args::parse_args(vec!["file_name".to_string(), "-e".to_string(),
        "trailing\\".to_string()]);
    assert_eq!(args.echo(), "trailing\\\n");
}

#[test]
fn echo_round_trip_of_escaped_newline() {
    let decoded = Args::parse_args(vec![
        "file_name".to_string(),
        "-e".to_string(),
        "a\\nb".to_string(),
    ]);
    assert_eq!(decoded.echo(), "a\nb\n");
    let untouched = Args::parse_args(vec!["file_name".to_string(), "a\\nb".to_string()]);
    assert_eq!(untouched.echo(), "a\\nb\n");
}
