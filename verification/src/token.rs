use vstd::prelude::*;
use crate::span::Span;

verus! {

/// The closed set of token shapes the lexer can produce, terminated by the
/// sentinel end-of-stream kind.
#[derive(Clone, Copy, Debug, PartialEq, Eq, Structural)]
pub enum TokenKind {
    EOF,
    // grouping
    LParen,
    RParen,
    LCurl,
    RCurl,
    LBrac,
    RBrac,
    // arithmetic operators
    Plus,
    PlusPlus,
    PlusEqual,
    Minus,
    MinusMinus,
    MinusEqual,
    Star,
    StarStar,
    StarEqual,
    StarStarEqual,
    Slash,
    SlashSlash,
    SlashEqual,
    SlashSlashEqual,
    Modulo,
    // comparison operators
    Less,
    LessEqual,
    More,
    MoreEqual,
    Equal,
    EqualEqual,
    Bang,
    BangEqual,
    // logical operators
    Pipe,
    PipePipe,
    Amprsnd,
    AmprsndAmprsnd,
    // other symbols
    RArrow,
    Colon,
    Semicolon,
    Comma,
    Dot,
    Newline,
    // literals
    True,
    False,
    Ident,
    Str,
    Integer,
    Float,
    // keywords
    Let,
    Mut,
    Function,
    Return,
    End,
}

/// One lexed token: its kind, where it sits in the source, and the raw text.
#[derive(Debug)]
pub struct Token {
    pub kind: TokenKind,
    pub span: Span,
    pub lexeme: Vec<u8>,
}

/// Ghost image of a token, with the raw text as a byte sequence.
pub struct TokenV {
    pub kind: TokenKind,
    pub span: Span,
    pub lexeme: Seq<u8>,
}

impl View for Token {
    type V = TokenV;

    open spec fn view(&self) -> TokenV {
        TokenV { kind: self.kind, span: self.span, lexeme: self.lexeme@ }
    }
}

impl Token {
    /// A little helper to make token construction easier.
    pub fn new(kind: TokenKind, span: Span, lexeme: Vec<u8>) -> (t: Token)
        ensures
            t@ == (TokenV { kind, span, lexeme: lexeme@ }),
    {
        Token { kind, span, lexeme }
    }

    /// The sentinel token that caps off every token stream.
    pub fn eof(span: Span) -> (t: Token)
        ensures
            t@ == (TokenV { kind: TokenKind::EOF, span, lexeme: Seq::<u8>::empty() }),
    {
        Token { kind: TokenKind::EOF, span, lexeme: Vec::new() }
    }

    /// An explicit copy, so that cloning a token stays visible in the code.
    pub fn copy(&self) -> (t: Token)
        ensures
            t@ == self@,
    {
        let lexeme = copy_bytes(&self.lexeme);
        Token { kind: self.kind, span: self.span, lexeme }
    }
}

/// Byte-for-byte copy of a buffer.
pub fn copy_bytes(v: &Vec<u8>) -> (r: Vec<u8>)
    ensures
        r@ == v@,
{
    let mut r: Vec<u8> = Vec::new();
    let mut i: usize = 0;
    while i < v.len()
        invariant
            i <= v@.len(),
            r@ == v@.subrange(0, i as int),
        decreases v@.len() - i,
    {
        r.push(v[i]);
        proof {
            assert(r@ =~= v@.subrange(0, i + 1));
        }
        i = i + 1;
    }
    proof {
        assert(r@ =~= v@);
    }
    r
}

/// Whether two byte buffers hold the same text.
pub fn bytes_eq(a: &Vec<u8>, b: &Vec<u8>) -> (r: bool)
    ensures
        r == (a@ == b@),
{
    if a.len() != b.len() {
        proof {
            assert(a@ != b@);
        }
        return false;
    }
    let mut i: usize = 0;
    while i < a.len()
        invariant
            i <= a@.len(),
            a@.len() == b@.len(),
            forall|j: int| 0 <= j < i ==> a@[j] == b@[j],
        decreases a@.len() - i,
    {
        if a[i] != b[i] {
            proof {
                assert(a@ != b@);
            }
            return false;
        }
        i = i + 1;
    }
    proof {
        assert(a@ =~= b@);
    }
    true
}

/// The bytes of the keyword `let`.
pub open spec fn kw_let() -> Seq<u8> {
    seq![108u8, 101u8, 116u8]
}

/// The bytes of the keyword `mut`.
pub open spec fn kw_mut() -> Seq<u8> {
    seq![109u8, 117u8, 116u8]
}

/// The bytes of the keyword `function`.
pub open spec fn kw_function() -> Seq<u8> {
    seq![102u8, 117u8, 110u8, 99u8, 116u8, 105u8, 111u8, 110u8]
}

/// The bytes of the keyword `return`.
pub open spec fn kw_return() -> Seq<u8> {
    seq![114u8, 101u8, 116u8, 117u8, 114u8, 110u8]
}

/// The bytes of the keyword `end`.
pub open spec fn kw_end() -> Seq<u8> {
    seq![101u8, 110u8, 100u8]
}

/// The bytes of the keyword `true`.
pub open spec fn kw_true() -> Seq<u8> {
    seq![116u8, 114u8, 117u8, 101u8]
}

/// The bytes of the keyword `false`.
pub open spec fn kw_false() -> Seq<u8> {
    seq![102u8, 97u8, 108u8, 115u8, 101u8]
}

/// The keyword table: which token kind a raw identifier-shaped lexeme is
/// classified as. Anything that is not a keyword is an identifier.
pub open spec fn keyword_kind(s: Seq<u8>) -> TokenKind {
    if s == kw_let() {
        TokenKind::Let
    } else if s == kw_mut() {
        TokenKind::Mut
    } else if s == kw_function() {
        TokenKind::Function
    } else if s == kw_return() {
        TokenKind::Return
    } else if s == kw_end() {
        TokenKind::End
    } else if s == kw_true() {
        TokenKind::True
    } else if s == kw_false() {
        TokenKind::False
    } else {
        TokenKind::Ident
    }
}

/// Keyword lookup against a fixed word, byte by byte.
pub(crate) fn matches_word(lexeme: &Vec<u8>, word: Ghost<Seq<u8>>, w0: u8, rest: &[u8]) -> (r: bool)
    requires
        word@.len() == rest@.len() + 1,
        word@[0] == w0,
        forall|j: int| 0 <= j < rest@.len() ==> word@[j + 1] == rest@[j],
    ensures
        r == (lexeme@ == word@),
{
    if lexeme.len() == 0 || lexeme.len() - 1 != rest.len() {
        proof {
            assert(lexeme@ != word@);
        }
        return false;
    }
    if lexeme[0] != w0 {
        proof {
            assert(lexeme@ != word@);
        }
        return false;
    }
    let mut i: usize = 0;
    while i < rest.len()
        invariant
            i <= rest@.len(),
            forall|j: int| 0 <= j < i ==> lexeme@[j + 1] == rest@[j],
        decreases rest@.len() - i,
    {
        if lexeme[i + 1] != rest[i] {
            proof {
                assert(lexeme@[i + 1] != word@[i + 1]);
            }
            return false;
        }
        i = i + 1;
    }
    proof {
        assert forall|k: int| 0 <= k < word@.len() implies lexeme@[k] == word@[k] by {
            if k > 0 {
                assert(lexeme@[(k - 1) + 1] == rest@[k - 1]);
            }
        }
        assert(lexeme@ =~= word@);
    }
    true
}

impl TokenKind {
    /// Classifies a lexeme against the static keyword table; unmatched
    /// lexemes are identifiers.
    pub fn from_lexeme(lexeme: &Vec<u8>) -> (kind: TokenKind)
        ensures
            kind == keyword_kind(lexeme@),
    {
        if matches_word(lexeme, Ghost(kw_let()), 108, &[101, 116]) {
            TokenKind::Let
        } else if matches_word(lexeme, Ghost(kw_mut()), 109, &[117, 116]) {
            TokenKind::Mut
        } else if matches_word(lexeme, Ghost(kw_function()), 102, &[117, 110, 99, 116, 105, 111, 110]) {
            TokenKind::Function
        } else if matches_word(lexeme, Ghost(kw_return()), 114, &[101, 116, 117, 114, 110]) {
            TokenKind::Return
        } else if matches_word(lexeme, Ghost(kw_end()), 101, &[110, 100]) {
            TokenKind::End
        } else if matches_word(lexeme, Ghost(kw_true()), 116, &[114, 117, 101]) {
            TokenKind::True
        } else if matches_word(lexeme, Ghost(kw_false()), 102, &[97, 108, 115, 101]) {
            TokenKind::False
        } else {
            TokenKind::Ident
        }
    }
}

} // verus!
