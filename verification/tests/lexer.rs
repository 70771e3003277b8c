use kas::errors::ErrorKind;
use kas::lexer::Lexer;
use kas::token::{Token, TokenKind};

fn lex(src: &str) -> (Vec<Token>, Vec<kas::errors::Error>) {
    let mut lexer = Lexer::new(src.as_bytes().to_vec());
    lexer.lex()
}

fn kinds(tokens: &[Token]) -> Vec<TokenKind> {
    tokens.iter().map(|t| t.kind).collect()
}

#[test]
fn empty_source_is_just_the_sentinel() {
    let (tokens, errors) = lex("");
    assert_eq!(kinds(&tokens), vec![TokenKind::EOF]);
    assert!(errors.is_empty());
}

#[test]
fn single_byte_tokens() {
    let (tokens, errors) = lex("()[]{}%:;,.");
    assert_eq!(
        kinds(&tokens),
        vec![
            TokenKind::LParen,
            TokenKind::RParen,
            TokenKind::LBrac,
            TokenKind::RBrac,
            TokenKind::LCurl,
            TokenKind::RCurl,
            TokenKind::Modulo,
            TokenKind::Colon,
            TokenKind::Semicolon,
            TokenKind::Comma,
            TokenKind::Dot,
            TokenKind::EOF,
        ]
    );
    assert!(errors.is_empty());
    // spans are half-open byte ranges covering each token
    assert_eq!(tokens[0].span.start, 0);
    assert_eq!(tokens[0].span.end, 1);
    assert_eq!(tokens[10].span.start, 10);
    assert_eq!(tokens[10].span.end, 11);
}

#[test]
fn multi_byte_operators_prefer_the_longest_match() {
    let (tokens, errors) = lex("-> == **= //= ++ -- <= >= != || && ** // + - * / < > = ! | &");
    assert_eq!(
        kinds(&tokens),
        vec![
            TokenKind::RArrow,
            TokenKind::EqualEqual,
            TokenKind::StarStarEqual,
            TokenKind::SlashSlashEqual,
            TokenKind::PlusPlus,
            TokenKind::MinusMinus,
            TokenKind::LessEqual,
            TokenKind::MoreEqual,
            TokenKind::BangEqual,
            TokenKind::PipePipe,
            TokenKind::AmprsndAmprsnd,
            TokenKind::StarStar,
            TokenKind::SlashSlash,
            TokenKind::Plus,
            TokenKind::Minus,
            TokenKind::Star,
            TokenKind::Slash,
            TokenKind::Less,
            TokenKind::More,
            TokenKind::Equal,
            TokenKind::Bang,
            TokenKind::Pipe,
            TokenKind::Amprsnd,
            TokenKind::EOF,
        ]
    );
    assert!(errors.is_empty());
}

#[test]
fn keywords_and_identifiers() {
    let (tokens, errors) = lex("let mut function return end true false foo _bar x1 lets");
    assert_eq!(
        kinds(&tokens),
        vec![
            TokenKind::Let,
            TokenKind::Mut,
            TokenKind::Function,
            TokenKind::Return,
            TokenKind::End,
            TokenKind::True,
            TokenKind::False,
            TokenKind::Ident,
            TokenKind::Ident,
            TokenKind::Ident,
            TokenKind::Ident,
            TokenKind::EOF,
        ]
    );
    assert!(errors.is_empty());
    assert_eq!(tokens[7].lexeme, b"foo".to_vec());
    assert_eq!(tokens[8].lexeme, b"_bar".to_vec());
    assert_eq!(tokens[10].lexeme, b"lets".to_vec());
}

#[test]
fn integer_and_float_literals() {
    let (tokens, errors) = lex("123 1.5 1_000 2.7_5");
    assert_eq!(
        kinds(&tokens),
        vec![
            TokenKind::Integer,
            TokenKind::Float,
            TokenKind::Integer,
            TokenKind::Float,
            TokenKind::EOF,
        ]
    );
    assert!(errors.is_empty());
    assert_eq!(tokens[0].lexeme, b"123".to_vec());
    assert_eq!(tokens[1].lexeme, b"1.5".to_vec());
    assert_eq!(tokens[2].lexeme, b"1_000".to_vec());
}

#[test]
fn a_second_dot_is_not_absorbed() {
    // `1.2.3` must not become one float literal
    let (tokens, _) = lex("1.2.3");
    assert_eq!(
        kinds(&tokens),
        vec![TokenKind::Float, TokenKind::Dot, TokenKind::Integer, TokenKind::EOF]
    );
    assert_eq!(tokens[0].lexeme, b"1.2".to_vec());
    assert_eq!(tokens[2].lexeme, b"3".to_vec());
}

#[test]
fn a_dot_not_followed_by_a_digit_stays_its_own_token() {
    // the lexer backs up so the dot is tokenized separately
    let (tokens, _) = lex("1.x");
    assert_eq!(
        kinds(&tokens),
        vec![TokenKind::Integer, TokenKind::Dot, TokenKind::Ident, TokenKind::EOF]
    );
    assert_eq!(tokens[0].lexeme, b"1".to_vec());
    // and a trailing dot at end of input does the same
    let (tokens, _) = lex("999.");
    assert_eq!(kinds(&tokens), vec![TokenKind::Integer, TokenKind::Dot, TokenKind::EOF]);
    assert_eq!(tokens[0].lexeme, b"999".to_vec());
}

#[test]
fn string_literals_keep_their_contents() {
    let (tokens, errors) = lex("\"hello\"");
    assert_eq!(kinds(&tokens), vec![TokenKind::Str, TokenKind::EOF]);
    assert_eq!(tokens[0].lexeme, b"hello".to_vec());
    assert_eq!(tokens[0].span.start, 0);
    assert_eq!(tokens[0].span.end, 7);
    assert!(errors.is_empty());
}

#[test]
fn a_missing_closing_quote_is_reported_and_lexing_goes_on() {
    let (tokens, errors) = lex("\"oops");
    assert_eq!(kinds(&tokens), vec![TokenKind::Str, TokenKind::EOF]);
    assert_eq!(errors.len(), 1);
    assert_eq!(errors[0].kind, ErrorKind::SyntaxError);
    assert!(errors[0].abort);
}

#[test]
fn an_escape_sequence_is_rejected() {
    // the backslash stops the literal; scanning resumes after it, so the
    // rest of the input is tokenized on its own
    let (tokens, errors) = lex("\"a\\n\"");
    assert!(errors.len() >= 1);
    assert_eq!(errors[0].kind, ErrorKind::SyntaxError);
    assert_eq!(tokens[0].kind, TokenKind::Str);
    assert_eq!(tokens[0].lexeme, b"a".to_vec());
}

#[test]
fn an_illegal_character_is_reported_and_lexing_goes_on() {
    let (tokens, errors) = lex("@ x");
    assert_eq!(kinds(&tokens), vec![TokenKind::Ident, TokenKind::EOF]);
    assert_eq!(errors.len(), 1);
    assert_eq!(errors[0].kind, ErrorKind::IllegalCharacter);
    assert_eq!(errors[0].span.start, 0);
    assert_eq!(errors[0].span.end, 1);
}

#[test]
fn a_comment_runs_to_its_newline_and_swallows_it() {
    let (tokens, errors) = lex("# note\nx");
    assert_eq!(kinds(&tokens), vec![TokenKind::Ident, TokenKind::EOF]);
    assert!(errors.is_empty());
}

#[test]
fn newlines_are_tokens_but_other_whitespace_is_not() {
    let (tokens, _) = lex(" \t\r\nx");
    assert_eq!(kinds(&tokens), vec![TokenKind::Newline, TokenKind::Ident, TokenKind::EOF]);
}
