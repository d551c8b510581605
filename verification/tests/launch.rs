use alias_launcher::launch::{CommandLine, LaunchError};

fn strings(items: &[&str]) -> Vec<String> {
    items.iter().map(|s| s.to_string()).collect()
}

#[test]
fn parse_splits_program_and_quoted_arguments() {
    let command = CommandLine::parse("app --flag 'value with spaces'").unwrap();
    assert_eq!(command.program, "app");
    assert_eq!(command.args, strings(&["--flag", "value with spaces"]));
}

#[test]
fn parse_of_a_single_word_has_no_arguments() {
    let command = CommandLine::parse("nano").unwrap();
    assert_eq!(command.program, "nano");
    assert!(command.args.is_empty());
}

#[test]
fn parse_resolves_double_quotes_and_backslashes() {
    let command = CommandLine::parse("sh -c \"echo \\\"hi\\\"\" a\\ b").unwrap();
    assert_eq!(command.program, "sh");
    assert_eq!(command.args, strings(&["-c", "echo \"hi\"", "a b"]));
}

#[test]
fn parse_of_an_empty_line_is_an_empty_command() {
    assert_eq!(CommandLine::parse(""), Err(LaunchError::EmptyCommand));
}

#[test]
fn parse_of_white_space_is_an_empty_command() {
    assert_eq!(CommandLine::parse("   \t "), Err(LaunchError::EmptyCommand));
}

#[test]
fn parse_of_an_open_quote_is_mismatched_quotes() {
    assert_eq!(CommandLine::parse("app 'never closed"), Err(LaunchError::MismatchedQuotes));
    assert_eq!(CommandLine::parse("app \"never closed"), Err(LaunchError::MismatchedQuotes));
}

#[test]
fn parse_agrees_with_the_shell_split() {
    for line in ["a b c", "cat file.txt | less", "x 'y z' \"u v\"", "one\\ word"] {
        let words = shellwords::split(line).unwrap();
        let command = CommandLine::parse(line).unwrap();
        assert_eq!(command.program, words[0]);
        assert_eq!(command.args, words[1..].to_vec());
    }
}

#[test]
fn from_words_takes_the_first_word_as_program() {
    let command = CommandLine::from_words(strings(&["kill", "-9", "1234"])).unwrap();
    assert_eq!(command.program, "kill");
    assert_eq!(command.args, strings(&["-9", "1234"]));
}

#[test]
fn from_words_of_one_word() {
    let command = CommandLine::from_words(strings(&["top"])).unwrap();
    assert_eq!(command.program, "top");
    assert_eq!(command.args, Vec::<String>::new());
}

#[test]
fn from_words_of_no_words_is_an_empty_command() {
    assert_eq!(CommandLine::from_words(Vec::new()), Err(LaunchError::EmptyCommand));
}

#[test]
fn launch_error_messages() {
    assert_eq!(LaunchError::MismatchedQuotes.message(), "Mismatched quotes");
    assert_eq!(LaunchError::EmptyCommand.message(), "Empty command");
}

#[test]
fn mismatched_quotes_message_is_that_of_the_split() {
    let error = shellwords::split("'open").unwrap_err();
    assert_eq!(LaunchError::MismatchedQuotes.message(), error.to_string());
}
