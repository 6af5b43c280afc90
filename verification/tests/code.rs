use sexpr_core::code::{content_digest, Code, CodeAtlas, CodeSpan};
use std::sync::Arc;

#[test]
fn same_content_yields_one_buffer() {
    let mut atlas = CodeAtlas::new();
    let first = Code::from_snippet(&mut atlas, "(f 1)");
    let second = Code::from_snippet(&mut atlas, "(f 1)");
    assert_eq!(first, second);
    assert!(Arc::ptr_eq(&first, &second));
    assert_eq!(atlas.len(), 1);
}

#[test]
fn same_content_by_another_origin_yields_the_first_buffer() {
    let mut atlas = CodeAtlas::new();
    let first = Code::from_snippet(&mut atlas, "(f 1)");
    let second = Code::intern(&mut atlas, "(f 1)".to_string(), Some("a/b.lisp".to_string()));
    assert!(Arc::ptr_eq(&first, &second));
    assert_eq!(second.file_path, None);
    assert_eq!(atlas.len(), 1);
}

#[test]
fn distinct_content_yields_distinct_buffers() {
    let mut atlas = CodeAtlas::new();
    let first = Code::from_snippet(&mut atlas, "(f 1)");
    let second = Code::from_snippet(&mut atlas, "(f 2)");
    assert_ne!(first, second);
    assert!(!Arc::ptr_eq(&first, &second));
    assert_eq!(atlas.len(), 2);
    let third = Code::from_snippet(&mut atlas, "(f 1)");
    assert!(Arc::ptr_eq(&first, &third));
    assert_eq!(atlas.len(), 2);
}

#[test]
fn new_store_is_empty() {
    assert_eq!(CodeAtlas::new().len(), 0);
}

#[test]
fn snippet_has_no_origin() {
    let mut atlas = CodeAtlas::new();
    let code = Code::from_snippet(&mut atlas, "x");
    assert_eq!(code.name, None);
    assert_eq!(code.file_path, None);
    assert_eq!(code.text.as_str(), "x");
    assert_eq!(code.as_bytes(), b"x");
}

#[test]
fn file_origin_gives_the_name() {
    let mut atlas = CodeAtlas::new();
    let code = Code::intern(&mut atlas, "x".to_string(), Some("src/lib/core.lisp".to_string()));
    assert_eq!(code.file_path.as_deref(), Some("src/lib/core.lisp"));
    assert_eq!(code.name.as_deref(), Some("core.lisp"));
}

#[test]
fn named_interning_keeps_what_it_is_given() {
    let mut atlas = CodeAtlas::new();
    let code = atlas.intern_named(
        "y".to_string(),
        Some("dir/y.lisp".to_string()),
        Some("why".to_string()),
    );
    assert_eq!(code.file_path.as_deref(), Some("dir/y.lisp"));
    assert_eq!(code.name.as_deref(), Some("why"));
    assert_eq!(code.text.as_str(), "y");
}

#[test]
fn digest_is_sha256() {
    let hex: String = content_digest("abc").iter().map(|b| format!("{:02x}", b)).collect();
    assert_eq!(hex, "ba7816bf8f01cfea414140de5dae2223b00361a396177a9cb410ff61f20015ad");
    assert_eq!(content_digest("").len(), 32);
    assert_ne!(content_digest("abc"), content_digest("abd"));
}

#[test]
fn span_starts_at_the_beginning() {
    let mut atlas = CodeAtlas::new();
    let code = Code::from_snippet(&mut atlas, "hello");
    let place = Code::span(&code);
    assert_eq!(place.location_offset(), 0);
    assert!(Arc::ptr_eq(&place.extra, &code));
}

#[test]
fn span_of_a_place_runs_to_the_end() {
    let mut atlas = CodeAtlas::new();
    let code = Code::from_snippet(&mut atlas, "hello");
    let mut place = Code::span(&code);
    place.offset = 2;
    let span = CodeSpan::from(place);
    assert_eq!((span.start, span.end), (2, 5));
    assert_eq!(&span.code.text[span.start..span.end], "llo");
}

#[test]
fn code_span_new_keeps_its_parts() {
    let mut atlas = CodeAtlas::new();
    let code = Code::from_snippet(&mut atlas, "hello");
    let span = CodeSpan::new(Arc::clone(&code), 1, 4);
    assert_eq!((span.start, span.end), (1, 4));
    assert!(Arc::ptr_eq(&span.code, &code));
    assert_eq!(span.clone(), span);
}

#[test]
fn buffer_gives_its_text_and_origin() {
    let mut atlas = CodeAtlas::new();
    let snippet = Code::from_snippet(&mut atlas, "(a b)");
    assert_eq!(snippet.as_str(), "(a b)");
    assert_eq!(snippet.origin(), None);
    let file = Code::intern(&mut atlas, "(c d)".to_string(), Some("x/y.lisp".to_string()));
    assert_eq!(file.as_str(), "(c d)");
    assert_eq!(file.origin(), Some("x/y.lisp"));
}
