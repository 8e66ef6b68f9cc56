use mash::tokens::CommandParams;
use mash::tokens::ParseErrKind;
use mash::tokens::Terminator;

#[test]
fn single_command_with_args() {
    let stmt = CommandParams::tokenize("a b c\n").unwrap();
    assert_eq!(stmt.len(), 1);
    assert_eq!(stmt[0].0.invoking, "a");
    assert_eq!(stmt[0].0.args, vec!["b".to_string(), "c".to_string()]);
    assert!(!stmt[0].0.is_builtin);
    assert_eq!(stmt[0].1, Terminator::Implicit);
}

#[test]
fn pipe_joins_two_commands() {
    let stmt = CommandParams::tokenize("echo hi | tee out.txt").unwrap();
    assert_eq!(stmt.len(), 2);
    assert_eq!(stmt[0].0.invoking, "echo");
    assert_eq!(stmt[0].0.args, vec!["hi".to_string()]);
    assert_eq!(stmt[0].1, Terminator::Pipe);
    assert_eq!(stmt[1].0.invoking, "tee");
    assert_eq!(stmt[1].0.args, vec!["out.txt".to_string()]);
    assert_eq!(stmt[1].1, Terminator::Implicit);
}

#[test]
fn terminator_at_start_is_too_early() {
    let err = CommandParams::tokenize("| ls").unwrap_err();
    assert_eq!(err.kind, ParseErrKind::TerminatorTooEarly);
    assert_eq!(err.index, 0);
}

#[test]
fn quoted_argument_keeps_leading_space() {
    let stmt = CommandParams::tokenize("cd \" hello/\"").unwrap();
    assert_eq!(stmt.len(), 1);
    assert_eq!(stmt[0].0.invoking, "cd");
    assert!(stmt[0].0.is_builtin);
    assert_eq!(stmt[0].0.args, vec![" hello/".to_string()]);
}

#[test]
fn semicolon_separates_sequential_commands() {
    let stmt = CommandParams::tokenize("false; echo done").unwrap();
    assert_eq!(stmt.len(), 2);
    assert_eq!(stmt[0].0.invoking, "false");
    assert_eq!(stmt[0].1, Terminator::EndCmd);
    assert_eq!(stmt[1].0.invoking, "echo");
    assert_eq!(stmt[1].0.args, vec!["done".to_string()]);
    assert_eq!(stmt[1].1, Terminator::Implicit);
}

#[test]
fn recognized_escapes_decode() {
    let stmt = CommandParams::tokenize("echo \"a\\\"b\\\\c\"\n").unwrap();
    assert_eq!(stmt.len(), 1);
    assert_eq!(stmt[0].0.args, vec!["a\"b\\c".to_string()]);
}

#[test]
fn unrecognized_escape_passes_through() {
    let stmt = CommandParams::tokenize("echo \"a\\xb\"\n").unwrap();
    assert_eq!(stmt[0].0.args, vec!["a\\xb".to_string()]);
}

#[test]
fn quote_mid_token_is_invalid() {
    let err = CommandParams::tokenize("ab\"cd").unwrap_err();
    assert_eq!(err.kind, ParseErrKind::InvalidChar);
    assert_eq!(err.index, 2);
}

#[test]
fn sigil_mid_token_is_invalid() {
    let err = CommandParams::tokenize("ab$x").unwrap_err();
    assert_eq!(err.kind, ParseErrKind::InvalidChar);
    assert_eq!(err.index, 2);
}

#[test]
fn variable_reference_resolves_to_empty_string() {
    let stmt = CommandParams::tokenize("echo $HOME\n").unwrap();
    assert_eq!(stmt.len(), 1);
    assert_eq!(stmt[0].0.args, vec!["".to_string()]);
}

#[test]
fn terminator_ends_a_variable_reference() {
    let stmt = CommandParams::tokenize("echo $x;ls\n").unwrap();
    assert_eq!(stmt.len(), 2);
    assert_eq!(stmt[0].0.invoking, "echo");
    assert_eq!(stmt[0].0.args, vec!["".to_string()]);
    assert_eq!(stmt[0].1, Terminator::EndCmd);
    assert_eq!(stmt[1].0.invoking, "ls");
    assert_eq!(stmt[1].1, Terminator::Implicit);
}

#[test]
fn consecutive_whitespace_collapses() {
    let stmt = CommandParams::tokenize("a \t  b\n").unwrap();
    assert_eq!(stmt.len(), 1);
    assert_eq!(stmt[0].0.invoking, "a");
    assert_eq!(stmt[0].0.args, vec!["b".to_string()]);
}

#[test]
fn empty_input_is_an_empty_statement() {
    let stmt = CommandParams::tokenize("").unwrap();
    assert_eq!(stmt.len(), 0);
    let stmt = CommandParams::tokenize("   ").unwrap();
    assert_eq!(stmt.len(), 0);
}

#[test]
fn blank_line_is_too_early() {
    let err = CommandParams::tokenize("\n").unwrap_err();
    assert_eq!(err.kind, ParseErrKind::TerminatorTooEarly);
    assert_eq!(err.index, 0);
}

#[test]
fn trailing_pipe_reads_as_sequential_end() {
    let stmt = CommandParams::tokenize("a |").unwrap();
    assert_eq!(stmt.len(), 1);
    assert_eq!(stmt[0].0.invoking, "a");
    assert_eq!(stmt[0].1, Terminator::EndCmd);
}

#[test]
fn newline_straight_after_pipe_is_too_early() {
    let err = CommandParams::tokenize("a |\n").unwrap_err();
    assert_eq!(err.kind, ParseErrKind::TerminatorTooEarly);
    assert_eq!(err.index, 3);
}

#[test]
fn doubled_semicolon_is_too_early() {
    let err = CommandParams::tokenize("a;;b").unwrap_err();
    assert_eq!(err.kind, ParseErrKind::TerminatorTooEarly);
    assert_eq!(err.index, 2);
}

#[test]
fn unterminated_quote_closes_at_end_of_input() {
    let stmt = CommandParams::tokenize("echo \"abc").unwrap();
    assert_eq!(stmt.len(), 1);
    assert_eq!(stmt[0].0.args, vec!["abc".to_string()]);
    assert_eq!(stmt[0].1, Terminator::Implicit);
}

#[test]
fn terminators_inside_quotes_are_literal() {
    let stmt = CommandParams::tokenize("echo \"a;b|c\nd\"\n").unwrap();
    assert_eq!(stmt.len(), 1);
    assert_eq!(stmt[0].0.args, vec!["a;b|c\nd".to_string()]);
}

#[test]
fn builtin_names_are_flagged() {
    assert!(CommandParams::tokenize("cd /tmp\n").unwrap()[0].0.is_builtin);
    assert!(CommandParams::tokenize("set x\n").unwrap()[0].0.is_builtin);
    assert!(CommandParams::tokenize("pwd\n").unwrap()[0].0.is_builtin);
    assert!(!CommandParams::tokenize("ls\n").unwrap()[0].0.is_builtin);
}

#[test]
fn quoted_first_token_sets_the_invoked_name() {
    let stmt = CommandParams::tokenize("\"cd\" x\n").unwrap();
    assert_eq!(stmt.len(), 1);
    assert_eq!(stmt[0].0.invoking, "cd");
    assert!(stmt[0].0.is_builtin);
    assert_eq!(stmt[0].0.args, vec!["x".to_string()]);
}

#[test]
fn helper_is_terminator() {
    assert!(CommandParams::is_terminator('|'));
    assert!(CommandParams::is_terminator(';'));
    assert!(CommandParams::is_terminator('\n'));
    assert!(!CommandParams::is_terminator(' '));
    assert!(!CommandParams::is_terminator('a'));
}

#[test]
fn helper_parse_str_decodes_escapes() {
    let mut raw = vec!['a', '\\', '"', 'b', '\\', '\\', 'c'];
    let s = CommandParams::parse_str(&mut raw);
    assert_eq!(s, "a\"b\\c");
    assert!(raw.is_empty());
}

#[test]
fn helper_parse_str_keeps_lone_backslash() {
    let mut raw = vec!['a', '\\'];
    let s = CommandParams::parse_str(&mut raw);
    assert_eq!(s, "a\\");
    assert!(raw.is_empty());
}

#[test]
fn helper_parse_arg_copies_verbatim() {
    let mut raw = vec!['x', '\\', 'y'];
    let s = CommandParams::parse_arg(&mut raw);
    assert_eq!(s, "x\\y");
    assert!(raw.is_empty());
}

#[test]
fn helper_get_env_is_a_stub() {
    let mut raw = vec!['H', 'O', 'M', 'E'];
    let s = CommandParams::get_env(&mut raw);
    assert_eq!(s, "");
    assert!(raw.is_empty());
}

#[test]
fn helper_decode_escape() {
    let raw = vec!['\\', '"'];
    assert_eq!(CommandParams::decode_escape(0, &raw), Some('"'));
    let raw = vec!['\\', '\\'];
    assert_eq!(CommandParams::decode_escape(0, &raw), Some('\\'));
    let raw = vec!['\\', 'n'];
    assert_eq!(CommandParams::decode_escape(0, &raw), None);
}

#[test]
fn helper_clear_command_is_empty() {
    let c = CommandParams::clear_command();
    assert_eq!(c.invoking, "");
    assert!(c.args.is_empty());
    assert!(!c.is_builtin);
}
