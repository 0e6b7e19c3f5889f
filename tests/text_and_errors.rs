use uci::text::{
    decimal_text, join_with, parse_i32, split_spaces_of, starts_with, strip_line_end, trim,
};
use uci::EngineError;

#[test]
fn trim_removes_white_space_at_both_ends() {
    assert_eq!(trim("  readyok\r\n"), "readyok");
    assert_eq!(trim("\u{3000}a b\u{a0}"), "a b");
    assert_eq!(trim(" \t\n"), "");
    assert_eq!(trim(""), "");
}

#[test]
fn split_at_single_spaces() {
    assert_eq!(split_spaces_of("a  b"), vec!["a", "", "b"]);
    assert_eq!(split_spaces_of(""), vec![""]);
    assert_eq!(split_spaces_of("bestmove e2e4\n"), vec!["bestmove", "e2e4\n"]);
}

#[test]
fn join_with_separator() {
    let parts = vec!["a".to_string(), "b".to_string(), "c".to_string()];
    assert_eq!(join_with(&parts, " "), "a b c");
    assert_eq!(join_with(&[], " "), "");
}

#[test]
fn parse_signed_integers() {
    assert_eq!(parse_i32("-1933"), Some(-1933));
    assert_eq!(parse_i32("007"), Some(7));
    assert_eq!(parse_i32("+"), None);
    assert_eq!(parse_i32(""), None);
    assert_eq!(parse_i32("12a"), None);
    assert_eq!(parse_i32("-2147483649"), None);
    assert_eq!(parse_i32("99999999999999999999"), None);
}

#[test]
fn decimal_digits() {
    assert_eq!(decimal_text(0), "0");
    assert_eq!(decimal_text(6000), "6000");
    assert_eq!(decimal_text(4294967295), "4294967295");
}

#[test]
fn prefix_test() {
    assert!(starts_with("bestmove e2e4", "bestmove"));
    assert!(!starts_with("best", "bestmove"));
}

#[test]
fn error_messages() {
    let e = EngineError::UnknownOption("Hash".to_string());
    assert_eq!(e.message(), "No such option: 'Hash'");
    assert_eq!(e.description(), "Unknown option");
    assert!(e.cause().is_none());
    assert_eq!(EngineError::NotFound.message(), "Pattern not found");
    assert_eq!(EngineError::NotFound.description(), "Pattern not found");
}

#[test]
fn io_errors_convert() {
    let io = std::io::Error::new(std::io::ErrorKind::BrokenPipe, "pipe closed");
    let e = EngineError::from(io);
    assert!(matches!(e, EngineError::Io(_)));
    assert!(e.message().starts_with("IO error: "));
    assert!(e.message().contains("pipe closed"));
    assert!(!e.description().is_empty());
    assert_eq!(e.cause().unwrap().kind(), std::io::ErrorKind::BrokenPipe);
}

#[test]
fn spawn_errors_keep_their_cause() {
    let io = std::io::Error::new(std::io::ErrorKind::NotFound, "no such file");
    let e = EngineError::Spawn(io);
    assert!(e.message().starts_with("Unable to run engine: "));
    assert_eq!(e.cause().unwrap().kind(), std::io::ErrorKind::NotFound);
}

#[test]
fn line_end_is_removed() {
    assert_eq!(strip_line_end("uciok\n"), "uciok");
    assert_eq!(strip_line_end(" uciok \r\n"), " uciok ");
    assert_eq!(strip_line_end("uciok"), "uciok");
    assert_eq!(strip_line_end("\n"), "");
}
