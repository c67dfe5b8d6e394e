//! What is held of the open documents.

use maquette_satysfi_language_server::parser::Mode;
use maquette_satysfi_language_server::{Buffer, Buffers, DocPosition, ParseError};

fn uri(name: &str) -> String {
    format!("file:///home/user/{}.saty", name)
}

#[test]
fn a_new_store_holds_nothing() {
    let store: Buffers<String> = Buffers::new();
    assert_eq!(store.get(&uri("a")), None);
    assert_eq!(Buffers::<String>::default().get(&uri("a")), None);
}

#[test]
fn a_text_is_found_under_its_address() {
    let mut store = Buffers::new();
    store.set(uri("a"), "first".to_owned());
    store.set(uri("b"), "second".to_owned());
    assert_eq!(store.get(&uri("a")).map(|s| s.as_str()), Some("first"));
    assert_eq!(store.get(&uri("b")).map(|s| s.as_str()), Some("second"));
    assert_eq!(store.get(&uri("c")), None);
    assert_eq!(store.get("file:///home/user/a.sat"), None);
}

#[test]
fn a_new_text_takes_the_place_of_the_old() {
    let mut store = Buffers::new();
    store.set(uri("a"), "first".to_owned());
    store.set(uri("b"), "second".to_owned());
    store.set(uri("a"), "third".to_owned());
    assert_eq!(store.get(&uri("a")).map(|s| s.as_str()), Some("third"));
    assert_eq!(store.get(&uri("b")).map(|s| s.as_str()), Some("second"));
    store.set(uri("b"), "".to_owned());
    assert_eq!(store.get(&uri("b")).map(|s| s.as_str()), Some(""));
    assert_eq!(store.get(&uri("a")).map(|s| s.as_str()), Some("third"));
}

#[test]
fn a_document_is_replaced_as_a_whole() {
    let mut store: Buffers<Buffer> = Buffers::new();
    store.set(uri("a"), Buffer::new("let x = 1".to_owned(), Err(ParseError::InvariantViolation)));
    store.set(uri("a"), Buffer::new("let y".to_owned(), Err(ParseError::InvariantViolation)));
    let held = store.get(&uri("a")).unwrap();
    assert_eq!(held.buf_cst.buffer(), "let y");
    assert!(held.buf_cst.cst().is_none());
    assert_eq!(held.error.len(), 1);
    assert!(held.env.variables.is_empty());
    assert_eq!(held.mode(&DocPosition::new(0, 1)), Mode::Program);
    assert!(held.environment().inline_cmds.is_empty());
}
