//! The host-facing value types: files, the tokeniser binding, servers
//! and UUIDs.

use tonic::bindings::{File, Lexer, Server, Uuid};

#[test]
fn file_accessors() {
    let f = File::with_contents("a.tn".to_string(), "let x = 1;".to_string());
    assert_eq!(f.path(), "a.tn");
    assert_eq!(f.contents(), "let x = 1;");
    assert!(!f.is_empty());
    assert!(File::with_contents("e".to_string(), String::new()).is_empty());
}

#[test]
fn file_lines_split_and_trim() {
    let f = File::with_contents("x".to_string(), "one\r\ntwo\nthree".to_string());
    assert_eq!(f.lines(), vec!["one", "two", "three"]);
    let g = File::with_contents("y".to_string(), "last\n".to_string());
    assert_eq!(g.lines(), vec!["last"]);
    let e = File::with_contents("z".to_string(), String::new());
    assert!(e.lines().is_empty());
}

#[test]
fn lexer_binding_renders_tokens() {
    let pairs = Lexer::new("fn (x) [1]".to_string()).all();
    assert_eq!(
        pairs,
        vec![
            ("fn".to_string(), "Fn".to_string()),
            ("(".to_string(), "LeftParen".to_string()),
            ("x".to_string(), "Identifier".to_string()),
            (")".to_string(), "RightParen".to_string()),
            ("[".to_string(), "LeftBracket".to_string()),
            ("1".to_string(), "Number".to_string()),
            ("]".to_string(), "RightBracket".to_string()),
        ]
    );
    assert_eq!(Lexer::tokenize("42".to_string()), vec![("42".to_string(), "Number".to_string())]);
}

#[test]
fn server_holds_target() {
    let s = Server::new("0.0.0.0:8080".to_string());
    assert_eq!(s.target(), "0.0.0.0:8080");
    assert_eq!(Server::init("h:1".to_string()).target(), "h:1");
}

#[test]
fn uuids_are_hyphenated_text() {
    let u = Uuid::new();
    let s = u.to_string();
    assert_eq!(s.chars().count(), 36);
    assert_eq!(s.chars().filter(|c| *c == '-').count(), 4);
    let t = Uuid::generate();
    assert_eq!(t.chars().count(), 36);
    // Two draws almost surely differ; equality here would mean the
    // generator is not random at all.
    assert_ne!(s, Uuid::generate());
}
