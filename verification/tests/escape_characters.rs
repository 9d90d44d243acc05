use echo::Args;

#[test]
fn no_escape_character() {
    let input = "Hello, World!".to_string();
    let output = Args::apply_escape_characters(input);
    assert_eq!(output, "Hello, World!");
}

#[test]
fn newline_escape_character() {
    let input = "Hello, World!\\n".to_string();
    let output = Args::apply_escape_characters(input);
    assert_eq!(output, "Hello, World!\n");
}

#[test]
fn backslash_escape_character() {
    let input = "Hello, World!\\\\".to_string();
    let output = Args::apply_escape_characters(input);
    assert_eq!(output, "Hello, World!\\");
}

#[test]
fn tab_escape_character() {
    let input = "Hello, World!\\t".to_string();
    let output = Args::apply_escape_characters(input);
    assert_eq!(output, "Hello, World!\t");
}

#[test]
fn multiple_escape_characters() {
    let input = "Hello, \\tWorld!\\n".to_string();
    let output = Args::apply_escape_characters(input);
    assert_eq!(output, "Hello, \tWorld!\n");
}

#[test]
fn invalid_escape_character() {
    let input = "Hello, World!\\_".to_string();
    let output = Args::apply_escape_characters(input);
    assert_eq!(output, "Hello, World!\\_");
}

#[test]
fn dangling_backslash_is_dropped() {
    let input = "trailing\\".to_string();
    let output = Args::apply_escape_characters(input);
    assert_eq!(output, "trailing");
}

#[test]
fn decoding_is_idempotent_without_backslashes() {
    let input = "plain text, no escapes".to_string();
    let once = Args::apply_escape_characters(input.clone());
    assert_eq!(once, input);
    let twice = Args::apply_escape_characters(once.clone());
    assert_eq!(twice, once);
}

#[test]
fn decoding_escaped_newline_round_trip() {
    let decoded = Args::apply_escape_characters("a\\nb".to_string());
    assert_eq!(decoded, "a\nb");
    let lone_backslash = Args::apply_escape_characters("a\\\\nb".to_string());
    assert_eq!(lone_backslash, "a\\nb");
}
