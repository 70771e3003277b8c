use kas::errors::{Error, ErrorKind};
use kas::span::{formatted_content, line_number, Span};
use kas::token::TokenKind;

#[test]
fn line_numbers_are_one_based() {
    let source = b"a\nb\nc".to_vec();
    assert_eq!(line_number(&Span::new(0, 1), &source), 1);
    assert_eq!(line_number(&Span::new(2, 3), &source), 2);
    assert_eq!(line_number(&Span::new(4, 5), &source), 3);
}

#[test]
fn the_excerpt_is_the_line_plus_a_caret_line() {
    let source = b"let x = 5;".to_vec();
    let span = Span::new(4, 5);
    let rendered = formatted_content(&span, &span, &source).unwrap();
    assert_eq!(rendered, b"let x = 5;\n    ^     \n".to_vec());
}

#[test]
fn the_excerpt_finds_its_line_between_newlines() {
    let source = b"a\nlet y = 2;\nb".to_vec();
    // the span of `y` inside the middle line
    let span = Span::new(6, 7);
    let rendered = formatted_content(&span, &span, &source).unwrap();
    assert_eq!(rendered, b"let y = 2;\n    ^     \n".to_vec());
}

#[test]
fn an_underline_can_cover_several_bytes() {
    let source = b"x = 2.75;".to_vec();
    let span = Span::new(4, 8);
    let rendered = formatted_content(&span, &span, &source).unwrap();
    assert_eq!(rendered, b"x = 2.75;\n    ^^^^ \n".to_vec());
}

#[test]
fn a_span_that_does_not_fit_renders_nothing() {
    let source = b"ab".to_vec();
    assert_eq!(formatted_content(&Span::new(0, 3), &Span::new(0, 1), &source), None);
    assert_eq!(formatted_content(&Span::new(2, 1), &Span::new(0, 1), &source), None);
}

#[test]
fn diagnostics_carry_kind_span_message_and_abort_flag() {
    let e = Error::new(ErrorKind::TypeMismatch, Span::new(3, 7), "mismatch", true);
    assert_eq!(e.kind, ErrorKind::TypeMismatch);
    assert_eq!(e.span, Span::new(3, 7));
    assert_eq!(e.msg, "mismatch");
    assert!(e.abort);
}

#[test]
fn the_keyword_table_is_exact() {
    assert_eq!(TokenKind::from_lexeme(&b"let".to_vec()), TokenKind::Let);
    assert_eq!(TokenKind::from_lexeme(&b"mut".to_vec()), TokenKind::Mut);
    assert_eq!(TokenKind::from_lexeme(&b"function".to_vec()), TokenKind::Function);
    assert_eq!(TokenKind::from_lexeme(&b"return".to_vec()), TokenKind::Return);
    assert_eq!(TokenKind::from_lexeme(&b"end".to_vec()), TokenKind::End);
    assert_eq!(TokenKind::from_lexeme(&b"true".to_vec()), TokenKind::True);
    assert_eq!(TokenKind::from_lexeme(&b"false".to_vec()), TokenKind::False);
    assert_eq!(TokenKind::from_lexeme(&b"letter".to_vec()), TokenKind::Ident);
    assert_eq!(TokenKind::from_lexeme(&b"".to_vec()), TokenKind::Ident);
}
