use gravi::error::{GraviError, Kind, Reporter, Severity};
use gravi::lexer::{Numeric, Type};

fn plain(s: &str) -> String {
    // Colours are switched off for these checks.
    s.to_string()
}

#[test]
fn builder_sets_each_part() {
    let e = GraviError::throw(Kind::ExpectedType).severity(Severity::Warning).file("a.nn").at(3, 7).hint("do this");
    assert!(matches!(e.kind, Kind::ExpectedType));
    assert!(matches!(e.severity, Severity::Warning));
    assert_eq!(e.file.as_deref(), Some("a.nn"));
    assert_eq!(e.line, Some(3));
    assert_eq!(e.col, Some(7));
    assert_eq!(e.hint.as_deref(), Some("do this"));
}

#[test]
fn new_diagnostic_is_an_error_without_place() {
    let e = GraviError::throw(Kind::UnexpectedEOF);
    assert!(matches!(e.severity, Severity::Error));
    assert!(e.file.is_none() && e.line.is_none() && e.col.is_none() && e.hint.is_none());
}

#[test]
fn errors_persist_when_more_is_recorded() {
    let mut r = Reporter::new();
    assert!(!r.has_errors());
    r.add(GraviError::throw(Kind::EntryNotFound).severity(Severity::Warning));
    assert!(!r.has_errors());
    r.add(GraviError::throw(Kind::ExpectedValue));
    assert!(r.has_errors());
    r.add(GraviError::throw(Kind::ExpectedValue).severity(Severity::Info));
    assert!(r.has_errors());
}

#[test]
fn fatal_counts_as_error() {
    let mut r = Reporter::new();
    r.add(GraviError::throw(Kind::ExpectedValue).severity(Severity::Fatal));
    assert!(r.has_errors());
}

#[test]
fn fire_all_orders_by_severity_and_shows_each_once() {
    let mut r = Reporter::new();
    r.add(GraviError::throw(Kind::EntryNotFound).severity(Severity::Warning));
    r.add(GraviError::throw(Kind::ExpectedType).severity(Severity::Info));
    r.add(GraviError::throw(Kind::ExpectedValue));
    r.add(GraviError::throw(Kind::UnexpectedEOF).severity(Severity::Fatal));
    let shown = r.fire_all();
    assert_eq!(shown.len(), 4);
    assert!(matches!(shown[0].kind, Kind::ExpectedValue));
    assert!(matches!(shown[1].kind, Kind::UnexpectedEOF));
    assert!(matches!(shown[2].kind, Kind::EntryNotFound));
    assert!(matches!(shown[3].kind, Kind::ExpectedType));
}

#[test]
fn messages_without_colour() {
    colored::control::set_override(false);
    assert_eq!(Kind::UnterminatedString.message(), plain("You should terminate a string literal!"));
    assert_eq!(Kind::InvalidParameter(2).message(), "Do whatever you want, but the parameter at the position 2 is not valid!");
    assert_eq!(Kind::UnterminatedStatement(12).message(), "Hey! The started line 12 is not terminated!");
    assert_eq!(Kind::UnknownChar('$').message(), "Hm? $?");
    assert_eq!(
        Kind::TypeMismatch(Type::Numeric(Numeric::U8), Type::StringLiteral).message(),
        "A-A-A... You mismatched the type! Expected u8, but found string!"
    );
    assert_eq!(Kind::UntypedVariable("v".to_string()).message(), "Waaait! v's type is none!");
    assert_eq!(Kind::InvalidImport("m".to_string()).message(), "m is a directory!");
    assert_eq!(Kind::TooManyEntry.message(), "W-Wait wait wait! I found too many entry points");
    assert_eq!(
        Kind::FileNotFound("x.nn".to_string()).message(),
        "Unable to open the file at: \"x.nn\""
    );
}

#[test]
fn message_with_colour_wraps_the_highlight() {
    colored::control::set_override(true);
    let m = Kind::UndeclaredVariable("v".to_string()).message();
    colored::control::unset_override();
    assert_eq!(m, "Hm... Where \x1b[1;94mv\x1b[0m come from?!");
}

#[test]
fn unexpected_token_message_ends_with_its_question() {
    let t = gravi::lexer::Token::new(gravi::lexer::TokenKind::Boolean(true), &"f.nn".to_string(), 1, 2);
    let m = Kind::UnexpectedToken(t).message();
    assert!(m.ends_with("\n^ I found this token! Are you sure it's the right one?"));
    assert!(m.starts_with("Token {"));
}

#[test]
fn lines_of_a_located_hinted_error() {
    colored::control::set_override(false);
    let e = GraviError::throw(Kind::ExpectedValue).file("a.nn").at(4, 9).hint("write a value");
    let lines = e.lines();
    assert_eq!(lines.len(), 3);
    assert_eq!(lines[0], "error! Go, go! Tell me more! Equals to...?");
    assert_eq!(lines[1], " \tat a.nn:[4:9]");
    assert_eq!(lines[2], "  | You should... write a value");
}

#[test]
fn lines_of_a_bare_warning() {
    colored::control::set_override(false);
    let e = GraviError::throw(Kind::EntryNotFound).severity(Severity::Warning);
    let lines = e.lines();
    assert_eq!(lines.len(), 1);
    assert_eq!(lines[0], "warning! Hmm... Where are you?? My dear entry point!");
}
