use vstd::prelude::*;
use crate::errors::{err_v, Error, ErrorBuffer, ErrorKind, ErrorV};
use crate::span::Span;
use crate::token::{keyword_kind, Token, TokenKind, TokenV};

verus! {

// ----------------------------------------------------------------- \\
// BYTE CLASSES
// ----------------------------------------------------------------- \\

/// Whitespace the lexer skips without producing a token. Newlines are not
/// here: they become tokens, because they end statements.
pub open spec fn is_ws(b: u8) -> bool {
    b == 32 || b == 9 || b == 13
}

/// An ASCII decimal digit.
pub open spec fn is_digit(b: u8) -> bool {
    48 <= b <= 57
}

/// A byte that may begin an identifier: a letter or an underscore.
pub open spec fn is_ident_start(b: u8) -> bool {
    (97 <= b <= 122) || (65 <= b <= 90) || b == 95
}

/// A byte that may continue an identifier.
pub open spec fn is_ident_cont(b: u8) -> bool {
    is_ident_start(b) || is_digit(b)
}

/// A byte absorbed unconditionally while scanning a number: a digit or an
/// underscore separator.
pub open spec fn is_num_cont(b: u8) -> bool {
    is_digit(b) || b == 95
}

/// The kind of a token that is always a single byte wide.
pub open spec fn single_kind(b: u8) -> Option<TokenKind> {
    if b == 40 {
        Option::Some(TokenKind::LParen)
    } else if b == 41 {
        Option::Some(TokenKind::RParen)
    } else if b == 91 {
        Option::Some(TokenKind::LBrac)
    } else if b == 93 {
        Option::Some(TokenKind::RBrac)
    } else if b == 123 {
        Option::Some(TokenKind::LCurl)
    } else if b == 125 {
        Option::Some(TokenKind::RCurl)
    } else if b == 37 {
        Option::Some(TokenKind::Modulo)
    } else if b == 58 {
        Option::Some(TokenKind::Colon)
    } else if b == 59 {
        Option::Some(TokenKind::Semicolon)
    } else if b == 44 {
        Option::Some(TokenKind::Comma)
    } else if b == 46 {
        Option::Some(TokenKind::Dot)
    } else {
        Option::None
    }
}

/// The kind of an operator byte standing alone.
pub open spec fn lone_op_kind(b: u8) -> Option<TokenKind> {
    if b == 43 {
        Option::Some(TokenKind::Plus)
    } else if b == 45 {
        Option::Some(TokenKind::Minus)
    } else if b == 42 {
        Option::Some(TokenKind::Star)
    } else if b == 47 {
        Option::Some(TokenKind::Slash)
    } else if b == 60 {
        Option::Some(TokenKind::Less)
    } else if b == 62 {
        Option::Some(TokenKind::More)
    } else if b == 61 {
        Option::Some(TokenKind::Equal)
    } else if b == 33 {
        Option::Some(TokenKind::Bang)
    } else if b == 124 {
        Option::Some(TokenKind::Pipe)
    } else if b == 38 {
        Option::Some(TokenKind::Amprsnd)
    } else {
        Option::None
    }
}

/// The kind of a two-byte operator, found by one-byte lookahead.
pub open spec fn pair_kind(a: u8, b: u8) -> Option<TokenKind> {
    if a == 43 && b == 43 {
        Option::Some(TokenKind::PlusPlus)
    } else if a == 43 && b == 61 {
        Option::Some(TokenKind::PlusEqual)
    } else if a == 45 && b == 45 {
        Option::Some(TokenKind::MinusMinus)
    } else if a == 45 && b == 61 {
        Option::Some(TokenKind::MinusEqual)
    } else if a == 45 && b == 62 {
        Option::Some(TokenKind::RArrow)
    } else if a == 42 && b == 42 {
        Option::Some(TokenKind::StarStar)
    } else if a == 42 && b == 61 {
        Option::Some(TokenKind::StarEqual)
    } else if a == 47 && b == 47 {
        Option::Some(TokenKind::SlashSlash)
    } else if a == 47 && b == 61 {
        Option::Some(TokenKind::SlashEqual)
    } else if a == 60 && b == 61 {
        Option::Some(TokenKind::LessEqual)
    } else if a == 62 && b == 61 {
        Option::Some(TokenKind::MoreEqual)
    } else if a == 61 && b == 61 {
        Option::Some(TokenKind::EqualEqual)
    } else if a == 33 && b == 61 {
        Option::Some(TokenKind::BangEqual)
    } else if a == 124 && b == 124 {
        Option::Some(TokenKind::PipePipe)
    } else if a == 38 && b == 38 {
        Option::Some(TokenKind::AmprsndAmprsnd)
    } else {
        Option::None
    }
}

// ----------------------------------------------------------------- \\
// SCAN GEOMETRY
// ----------------------------------------------------------------- \\

/// Where the identifier whose continuation starts at `j` ends: the first
/// position at or after `j` holding a byte that cannot continue it.
pub open spec fn ident_end(s: Seq<u8>, j: int) -> int
    decreases s.len() - j,
{
    if j < 0 || j >= s.len() {
        j
    } else if is_ident_cont(s[j]) {
        ident_end(s, j + 1)
    } else {
        j
    }
}

/// Where a number whose continuation starts at `j` ends, and whether it is a
/// float. Digits and underscores are absorbed freely. A dot is absorbed only
/// if another digit, underscore or dot follows it, and only once: the first
/// absorbed dot turns the token into a float, a second dot ends it, so
/// `1.2.3` never becomes one literal.
pub open spec fn num_scan(s: Seq<u8>, j: int, is_float: bool) -> (int, bool)
    decreases s.len() - j,
{
    if j < 0 || j >= s.len() {
        (j, is_float)
    } else if is_num_cont(s[j]) {
        num_scan(s, j + 1, is_float)
    } else if s[j] == 46 {
        if is_float {
            (j, is_float)
        } else if j + 1 < s.len() && (is_num_cont(s[j + 1]) || s[j + 1] == 46) {
            num_scan(s, j + 1, true)
        } else {
            (j, is_float)
        }
    } else {
        (j, is_float)
    }
}

/// The first position at or after `j` holding a byte a string literal cannot
/// absorb: its closing quote or a backslash; the end of the source if there
/// is neither.
pub open spec fn string_scan(s: Seq<u8>, j: int) -> int
    decreases s.len() - j,
{
    if j < 0 || j >= s.len() {
        s.len() as int
    } else if s[j] == 34 || s[j] == 92 {
        j
    } else {
        string_scan(s, j + 1)
    }
}

/// The first newline at or after `j`, or the end of the source.
pub open spec fn newline_pos(s: Seq<u8>, j: int) -> int
    decreases s.len() - j,
{
    if j < 0 || j >= s.len() {
        s.len() as int
    } else if s[j] == 10 {
        j
    } else {
        newline_pos(s, j + 1)
    }
}

// ----------------------------------------------------------------- \\
// THE SCAN RELATION
// ----------------------------------------------------------------- \\

/// Ghost image of the token whose text is `s[lo..hi)`.
pub open spec fn tok_v(kind: TokenKind, lo: int, hi: int, s: Seq<u8>) -> TokenV {
    TokenV {
        kind,
        span: Span { start: lo as usize, end: hi as usize },
        lexeme: s.subrange(lo, hi),
    }
}

/// What one scanning step produces: at most one token, at most one
/// diagnostic, and the position the next step starts from.
pub struct Scan {
    pub token: Option<TokenV>,
    pub error: Option<ErrorV>,
    pub next: int,
}

/// One step of the lexer at position `i` of `s`: which token and which
/// diagnostic it produces and where it leaves the cursor. This is the whole
/// lexical grammar, one case per byte class.
pub open spec fn scan(s: Seq<u8>, i: int) -> Scan {
    let b = s[i];
    if is_ws(b) {
        Scan { token: Option::None, error: Option::None, next: i + 1 }
    } else if b == 10 {
        Scan { token: Option::Some(tok_v(TokenKind::Newline, i, i + 1, s)), error: Option::None, next: i + 1 }
    } else if single_kind(b) is Some {
        Scan {
            token: Option::Some(tok_v(single_kind(b)->Some_0, i, i + 1, s)),
            error: Option::None,
            next: i + 1,
        }
    } else if lone_op_kind(b) is Some {
        if i + 1 < s.len() && pair_kind(b, s[i + 1]) is Some {
            let k2 = pair_kind(b, s[i + 1])->Some_0;
            if k2 == TokenKind::StarStar && i + 2 < s.len() && s[i + 2] == 61 {
                Scan {
                    token: Option::Some(tok_v(TokenKind::StarStarEqual, i, i + 3, s)),
                    error: Option::None,
                    next: i + 3,
                }
            } else if k2 == TokenKind::SlashSlash && i + 2 < s.len() && s[i + 2] == 61 {
                Scan {
                    token: Option::Some(tok_v(TokenKind::SlashSlashEqual, i, i + 3, s)),
                    error: Option::None,
                    next: i + 3,
                }
            } else {
                Scan { token: Option::Some(tok_v(k2, i, i + 2, s)), error: Option::None, next: i + 2 }
            }
        } else {
            Scan {
                token: Option::Some(tok_v(lone_op_kind(b)->Some_0, i, i + 1, s)),
                error: Option::None,
                next: i + 1,
            }
        }
    } else if b == 34 {
        let j = string_scan(s, i + 1);
        if j >= s.len() {
            // no closing quote before end of input: report and stop the token
            Scan {
                token: Option::Some(
                    TokenV {
                        kind: TokenKind::Str,
                        span: Span { start: i as usize, end: s.len() as usize },
                        lexeme: s.subrange(i + 1, s.len() as int),
                    },
                ),
                error: Option::Some(
                    err_v(
                        ErrorKind::SyntaxError,
                        Span { start: i as usize, end: s.len() as usize },
                        "string literal is missing a closing quote"@,
                    ),
                ),
                next: s.len() as int,
            }
        } else if s[j] == 92 {
            // escape sequences are an explicit non-goal and are rejected
            Scan {
                token: Option::Some(
                    TokenV {
                        kind: TokenKind::Str,
                        span: Span { start: i as usize, end: (j + 1) as usize },
                        lexeme: s.subrange(i + 1, j),
                    },
                ),
                error: Option::Some(
                    err_v(
                        ErrorKind::SyntaxError,
                        Span { start: j as usize, end: (j + 1) as usize },
                        "escape sequences in string literals are not supported"@,
                    ),
                ),
                next: j + 1,
            }
        } else {
            Scan {
                token: Option::Some(
                    TokenV {
                        kind: TokenKind::Str,
                        span: Span { start: i as usize, end: (j + 1) as usize },
                        lexeme: s.subrange(i + 1, j),
                    },
                ),
                error: Option::None,
                next: j + 1,
            }
        }
    } else if is_ident_start(b) {
        let e = ident_end(s, i + 1);
        Scan {
            token: Option::Some(tok_v(keyword_kind(s.subrange(i, e)), i, e, s)),
            error: Option::None,
            next: e,
        }
    } else if is_digit(b) {
        let r = num_scan(s, i + 1, false);
        Scan {
            token: Option::Some(
                tok_v(
                    if r.1 {
                        TokenKind::Float
                    } else {
                        TokenKind::Integer
                    },
                    i,
                    r.0,
                    s,
                ),
            ),
            error: Option::None,
            next: r.0,
        }
    } else if b == 35 {
        // a comment runs to its newline and swallows it
        let j = newline_pos(s, i + 1);
        Scan {
            token: Option::None,
            error: Option::None,
            next: if j >= s.len() {
                s.len() as int
            } else {
                j + 1
            },
        }
    } else {
        Scan {
            token: Option::None,
            error: Option::Some(
                err_v(
                    ErrorKind::IllegalCharacter,
                    Span { start: i as usize, end: (i + 1) as usize },
                    "this character is not allowed"@,
                ),
            ),
            next: i + 1,
        }
    }
}

/// A scanning step always moves forward and never runs past the end.
pub proof fn lemma_scan_advances(s: Seq<u8>, i: int)
    requires
        0 <= i < s.len(),
    ensures
        i < scan(s, i).next <= s.len(),
{
    lemma_ident_end_bounds(s, i + 1);
    lemma_num_scan_bounds(s, i + 1, false);
    lemma_string_scan_bounds(s, i + 1);
    lemma_newline_pos_bounds(s, i + 1);
}

pub proof fn lemma_ident_end_bounds(s: Seq<u8>, j: int)
    requires
        0 <= j <= s.len(),
    ensures
        j <= ident_end(s, j) <= s.len(),
    decreases s.len() - j,
{
    if j < s.len() && is_ident_cont(s[j]) {
        lemma_ident_end_bounds(s, j + 1);
    }
}

pub proof fn lemma_num_scan_bounds(s: Seq<u8>, j: int, f: bool)
    requires
        0 <= j <= s.len(),
    ensures
        j <= num_scan(s, j, f).0 <= s.len(),
    decreases s.len() - j,
{
    if j < s.len() {
        if is_num_cont(s[j]) {
            lemma_num_scan_bounds(s, j + 1, f);
        } else if s[j] == 46 && !f && j + 1 < s.len() && (is_num_cont(s[j + 1]) || s[j + 1]
            == 46) {
            lemma_num_scan_bounds(s, j + 1, true);
        }
    }
}

pub proof fn lemma_string_scan_bounds(s: Seq<u8>, j: int)
    requires
        0 <= j <= s.len(),
    ensures
        j <= string_scan(s, j) <= s.len(),
    decreases s.len() - j,
{
    if j < s.len() && !(s[j] == 34 || s[j] == 92) {
        lemma_string_scan_bounds(s, j + 1);
    }
}

pub proof fn lemma_newline_pos_bounds(s: Seq<u8>, j: int)
    requires
        0 <= j <= s.len(),
    ensures
        j <= newline_pos(s, j) <= s.len(),
    decreases s.len() - j,
{
    if j < s.len() && s[j] != 10 {
        lemma_newline_pos_bounds(s, j + 1);
    }
}

/// The sentinel token that ends every lexing run.
pub open spec fn eof_v(s: Seq<u8>) -> TokenV {
    TokenV {
        kind: TokenKind::EOF,
        span: Span { start: s.len() as usize, end: s.len() as usize },
        lexeme: Seq::empty(),
    }
}

/// A singleton or empty sequence out of an optional element.
pub open spec fn opt_seq<A>(o: Option<A>) -> Seq<A> {
    match o {
        Option::Some(x) => seq![x],
        Option::None => Seq::empty(),
    }
}

/// Everything the lexer produces from position `i` on: the token sequence,
/// capped by the sentinel, and the diagnostics, in source order.
pub open spec fn spec_lex(s: Seq<u8>, i: int) -> (Seq<TokenV>, Seq<ErrorV>)
    decreases s.len() - i,
{
    if i < 0 || i >= s.len() {
        (seq![eof_v(s)], Seq::empty())
    } else {
        let sc = scan(s, i);
        // a scan step always advances (`lemma_scan_advances`); the clamp
        // keeps the recursion visibly well-founded
        let next = if i < sc.next <= s.len() {
            sc.next
        } else {
            i + 1
        };
        let rest = spec_lex(s, next);
        (opt_seq(sc.token) + rest.0, opt_seq(sc.error) + rest.1)
    }
}

// ----------------------------------------------------------------- \\
// THE LEXER
// ----------------------------------------------------------------- \\

/// Ghost images of a row of tokens.
pub open spec fn toks_v(ts: Seq<Token>) -> Seq<TokenV> {
    ts.map_values(|t: Token| t@)
}

/// Ghost images of a row of diagnostics.
pub open spec fn errs_v(es: Seq<Error>) -> Seq<ErrorV> {
    es.map_values(|e: Error| e@)
}

/// Turns a source buffer into a flat token sequence plus a diagnostic
/// buffer, byte by byte. Errors do not stop the scan: the lexer always
/// terminates by appending an end-of-stream token and returns every
/// diagnostic it accumulated alongside the tokens.
pub struct Lexer {
    source: Vec<u8>,
    pos: usize,
}

impl Lexer {
    pub closed spec fn src(self) -> Seq<u8> {
        self.source@
    }

    /// Where the next scanning step starts.
    pub closed spec fn cursor(self) -> int {
        self.pos as int
    }

    /// Initializes a new lexer at the start of the given source.
    pub fn new(source: Vec<u8>) -> (l: Lexer)
        ensures
            l.src() == source@,
            l.cursor() == 0,
    {
        Lexer { source, pos: 0 }
    }

    /// The bytes `[lo, hi)` of the source, copied out as a lexeme.
    fn slice_bytes(&self, lo: usize, hi: usize) -> (r: Vec<u8>)
        requires
            lo <= hi <= self.src().len(),
        ensures
            r@ == self.src().subrange(lo as int, hi as int),
    {
        let mut r: Vec<u8> = Vec::new();
        let mut i: usize = lo;
        while i < hi
            invariant
                lo <= i <= hi,
                r@ == self.src().subrange(lo as int, i as int),
            decreases hi - i,
        {
            r.push(self.source[i]);
            proof {
                assert(r@ =~= self.src().subrange(lo as int, i + 1));
            }
            i = i + 1;
        }
        r
    }

    /// The token whose text is `[lo, hi)` of the source.
    fn make_token(&self, kind: TokenKind, lo: usize, hi: usize) -> (t: Token)
        requires
            lo <= hi <= self.src().len(),
        ensures
            t@ == tok_v(kind, lo as int, hi as int, self.src()),
    {
        let lexeme = self.slice_bytes(lo, hi);
        Token::new(kind, Span::new(lo, hi), lexeme)
    }

    /// One scanning step: produces at most one token and at most one
    /// diagnostic, exactly as the scan relation says, and advances.
    fn scan_token(&mut self) -> (r: (Option<Token>, Option<Error>))
        requires
            old(self).pos < old(self).src().len(),
        ensures
            final(self).src() == old(self).src(),
            ({
                let sc = scan(old(self).src(), old(self).pos as int);
                &&& final(self).pos == sc.next
                &&& old(self).pos < final(self).pos <= final(self).src().len()
                &&& (match r.0 {
                    Option::Some(t) => sc.token == Option::Some(t@),
                    Option::None => sc.token is None,
                })
                &&& (match r.1 {
                    Option::Some(e) => sc.error == Option::Some(e@),
                    Option::None => sc.error is None,
                })
            }),
    {
        proof {
            lemma_scan_advances(self.src(), self.pos as int);
        }
        let s_len = self.source.len();
        let start = self.pos;
        let b = self.source[start];

        // whitespace is skipped; newlines end statements, so they are tokens
        if b == 32 || b == 9 || b == 13 {
            self.pos = start + 1;
            return (Option::None, Option::None);
        }
        if b == 10 {
            let t = self.make_token(TokenKind::Newline, start, start + 1);
            self.pos = start + 1;
            return (Option::Some(t), Option::None);
        }

        // tokens that are always one byte wide
        let single = single_char_kind(b);
        if let Option::Some(kind) = single {
            let t = self.make_token(kind, start, start + 1);
            self.pos = start + 1;
            return (Option::Some(t), Option::None);
        }

        // operators, longest match first with one-byte lookahead
        let lone = lone_op_char_kind(b);
        if let Option::Some(k1) = lone {
            if start + 1 < s_len {
                let pair = pair_char_kind(b, self.source[start + 1]);
                if let Option::Some(k2) = pair {
                    if k2 == TokenKind::StarStar && start + 2 < s_len && self.source[start + 2]
                        == 61 {
                        let t = self.make_token(TokenKind::StarStarEqual, start, start + 3);
                        self.pos = start + 3;
                        return (Option::Some(t), Option::None);
                    }
                    if k2 == TokenKind::SlashSlash && start + 2 < s_len && self.source[start + 2]
                        == 61 {
                        let t = self.make_token(TokenKind::SlashSlashEqual, start, start + 3);
                        self.pos = start + 3;
                        return (Option::Some(t), Option::None);
                    }
                    let t = self.make_token(k2, start, start + 2);
                    self.pos = start + 2;
                    return (Option::Some(t), Option::None);
                }
            }
            let t = self.make_token(k1, start, start + 1);
            self.pos = start + 1;
            return (Option::Some(t), Option::None);
        }

        // string literals
        if b == 34 {
            let mut j: usize = start + 1;
            while j < s_len && self.source[j] != 34 && self.source[j] != 92
                invariant
                    start + 1 <= j <= s_len,
                    string_scan(self.src(), start + 1) == string_scan(self.src(), j as int),
                decreases s_len - j,
            {
                j = j + 1;
            }
            if j >= s_len {
                let lexeme = self.slice_bytes(start + 1, s_len);
                let t = Token::new(TokenKind::Str, Span::new(start, s_len), lexeme);
                let e = Error::new(
                    ErrorKind::SyntaxError,
                    Span::new(start, s_len),
                    "string literal is missing a closing quote",
                    true,
                );
                self.pos = s_len;
                return (Option::Some(t), Option::Some(e));
            }
            let lexeme = self.slice_bytes(start + 1, j);
            let t = Token::new(TokenKind::Str, Span::new(start, j + 1), lexeme);
            if self.source[j] == 92 {
                let e = Error::new(
                    ErrorKind::SyntaxError,
                    Span::new(j, j + 1),
                    "escape sequences in string literals are not supported",
                    true,
                );
                self.pos = j + 1;
                return (Option::Some(t), Option::Some(e));
            }
            self.pos = j + 1;
            return (Option::Some(t), Option::None);
        }

        // identifiers and keywords
        if byte_is_ident_start(b) {
            let mut j: usize = start + 1;
            while j < s_len && byte_is_ident_cont(self.source[j])
                invariant
                    start + 1 <= j <= s_len,
                    ident_end(self.src(), start + 1) == ident_end(self.src(), j as int),
                decreases s_len - j,
            {
                j = j + 1;
            }
            let lexeme = self.slice_bytes(start, j);
            let kind = TokenKind::from_lexeme(&lexeme);
            let t = Token::new(kind, Span::new(start, j), lexeme);
            self.pos = j;
            return (Option::Some(t), Option::None);
        }

        // numbers: digit runs, with a dot absorbed only when a digit,
        // underscore or dot follows, and only once
        if 48 <= b && b <= 57 {
            let mut j: usize = start + 1;
            let mut is_float = false;
            loop
                invariant
                    start + 1 <= j <= s_len,
                    self.src().len() == s_len,
                    num_scan(self.src(), start + 1, false) == num_scan(
                        self.src(),
                        j as int,
                        is_float,
                    ),
                decreases s_len - j,
            {
                if j >= s_len {
                    break ;
                }
                let c = self.source[j];
                if (48 <= c && c <= 57) || c == 95 {
                    j = j + 1;
                } else if c == 46 {
                    if is_float {
                        break ;
                    }
                    if j + 1 < s_len {
                        let d = self.source[j + 1];
                        if (48 <= d && d <= 57) || d == 95 || d == 46 {
                            is_float = true;
                            j = j + 1;
                        } else {
                            break ;
                        }
                    } else {
                        break ;
                    }
                } else {
                    break ;
                }
            }
            let kind = if is_float {
                TokenKind::Float
            } else {
                TokenKind::Integer
            };
            let t = self.make_token(kind, start, j);
            self.pos = j;
            return (Option::Some(t), Option::None);
        }

        // comments run to their newline and swallow it
        if b == 35 {
            let mut j: usize = start + 1;
            while j < s_len && self.source[j] != 10
                invariant
                    start + 1 <= j <= s_len,
                    newline_pos(self.src(), start + 1) == newline_pos(self.src(), j as int),
                decreases s_len - j,
            {
                j = j + 1;
            }
            if j < s_len {
                self.pos = j + 1;
            } else {
                self.pos = s_len;
            }
            return (Option::None, Option::None);
        }

        // anything else is not part of the language
        let e = Error::new(
            ErrorKind::IllegalCharacter,
            Span::new(start, start + 1),
            "this character is not allowed",
            true,
        );
        self.pos = start + 1;
        (Option::None, Option::Some(e))
    }

    /// Scans the whole source into tokens. Errors do not stop the scan; the
    /// token sequence is capped by the end-of-stream sentinel, and every
    /// diagnostic comes back beside the tokens.
    pub fn lex(&mut self) -> (r: (Vec<Token>, ErrorBuffer))
        requires
            old(self).cursor() == 0,
        ensures
            final(self).src() == old(self).src(),
            (toks_v(r.0@), errs_v(r.1@)) == spec_lex(old(self).src(), 0),
    {
        let mut tokens: Vec<Token> = Vec::new();
        let mut errors: ErrorBuffer = Vec::new();
        let ghost s = self.src();
        while self.pos < self.source.len()
            invariant
                self.src() == s,
                self.pos <= s.len(),
                spec_lex(s, 0).0 =~= toks_v(tokens@) + spec_lex(s, self.pos as int).0,
                spec_lex(s, 0).1 =~= errs_v(errors@) + spec_lex(s, self.pos as int).1,
            decreases s.len() - self.pos,
        {
            let ghost p0 = self.pos as int;
            proof {
                lemma_scan_advances(s, p0);
            }
            let (tok, err) = self.scan_token();
            if let Option::Some(t) = tok {
                tokens.push(t);
            }
            if let Option::Some(e) = err {
                errors.push(e);
            }
            proof {
                assert(spec_lex(s, 0).0 =~= toks_v(tokens@) + spec_lex(s, self.pos as int).0);
                assert(spec_lex(s, 0).1 =~= errs_v(errors@) + spec_lex(s, self.pos as int).1);
            }
        }
        let eof_span = Span::new(self.pos, self.pos);
        tokens.push(Token::eof(eof_span));
        proof {
            assert(toks_v(tokens@) =~= spec_lex(s, 0).0);
            assert(errs_v(errors@) =~= spec_lex(s, 0).1);
        }
        (tokens, errors)
    }
}

/// Single-byte token table, as executable code.
fn single_char_kind(b: u8) -> (r: Option<TokenKind>)
    ensures
        r == single_kind(b),
{
    if b == 40 {
        Option::Some(TokenKind::LParen)
    } else if b == 41 {
        Option::Some(TokenKind::RParen)
    } else if b == 91 {
        Option::Some(TokenKind::LBrac)
    } else if b == 93 {
        Option::Some(TokenKind::RBrac)
    } else if b == 123 {
        Option::Some(TokenKind::LCurl)
    } else if b == 125 {
        Option::Some(TokenKind::RCurl)
    } else if b == 37 {
        Option::Some(TokenKind::Modulo)
    } else if b == 58 {
        Option::Some(TokenKind::Colon)
    } else if b == 59 {
        Option::Some(TokenKind::Semicolon)
    } else if b == 44 {
        Option::Some(TokenKind::Comma)
    } else if b == 46 {
        Option::Some(TokenKind::Dot)
    } else {
        Option::None
    }
}

/// Lone-operator table, as executable code.
fn lone_op_char_kind(b: u8) -> (r: Option<TokenKind>)
    ensures
        r == lone_op_kind(b),
{
    if b == 43 {
        Option::Some(TokenKind::Plus)
    } else if b == 45 {
        Option::Some(TokenKind::Minus)
    } else if b == 42 {
        Option::Some(TokenKind::Star)
    } else if b == 47 {
        Option::Some(TokenKind::Slash)
    } else if b == 60 {
        Option::Some(TokenKind::Less)
    } else if b == 62 {
        Option::Some(TokenKind::More)
    } else if b == 61 {
        Option::Some(TokenKind::Equal)
    } else if b == 33 {
        Option::Some(TokenKind::Bang)
    } else if b == 124 {
        Option::Some(TokenKind::Pipe)
    } else if b == 38 {
        Option::Some(TokenKind::Amprsnd)
    } else {
        Option::None
    }
}

/// Two-byte operator table, as executable code.
fn pair_char_kind(a: u8, b: u8) -> (r: Option<TokenKind>)
    ensures
        r == pair_kind(a, b),
{
    if a == 43 && b == 43 {
        Option::Some(TokenKind::PlusPlus)
    } else if a == 43 && b == 61 {
        Option::Some(TokenKind::PlusEqual)
    } else if a == 45 && b == 45 {
        Option::Some(TokenKind::MinusMinus)
    } else if a == 45 && b == 61 {
        Option::Some(TokenKind::MinusEqual)
    } else if a == 45 && b == 62 {
        Option::Some(TokenKind::RArrow)
    } else if a == 42 && b == 42 {
        Option::Some(TokenKind::StarStar)
    } else if a == 42 && b == 61 {
        Option::Some(TokenKind::StarEqual)
    } else if a == 47 && b == 47 {
        Option::Some(TokenKind::SlashSlash)
    } else if a == 47 && b == 61 {
        Option::Some(TokenKind::SlashEqual)
    } else if a == 60 && b == 61 {
        Option::Some(TokenKind::LessEqual)
    } else if a == 62 && b == 61 {
        Option::Some(TokenKind::MoreEqual)
    } else if a == 61 && b == 61 {
        Option::Some(TokenKind::EqualEqual)
    } else if a == 33 && b == 61 {
        Option::Some(TokenKind::BangEqual)
    } else if a == 124 && b == 124 {
        Option::Some(TokenKind::PipePipe)
    } else if a == 38 && b == 38 {
        Option::Some(TokenKind::AmprsndAmprsnd)
    } else {
        Option::None
    }
}

/// Identifier-start class, as executable code.
fn byte_is_ident_start(b: u8) -> (r: bool)
    ensures
        r == is_ident_start(b),
{
    (97 <= b && b <= 122) || (65 <= b && b <= 90) || b == 95
}

/// Identifier-continuation class, as executable code.
fn byte_is_ident_cont(b: u8) -> (r: bool)
    ensures
        r == is_ident_cont(b),
{
    byte_is_ident_start(b) || (48 <= b && b <= 57)
}

} // verus!

verus! {

/// Every token a scanning step can produce is a real token: only the final
/// sentinel has the end-of-stream kind.
proof fn lemma_scan_token_not_eof(s: Seq<u8>, i: int)
    requires
        0 <= i < s.len(),
    ensures
        match scan(s, i).token {
            Option::Some(t) => t.kind != TokenKind::EOF,
            Option::None => true,
        },
{
    let b = s[i];
    assert(keyword_kind(s.subrange(i, ident_end(s, i + 1))) != TokenKind::EOF);
}

/// The lexer always hands the parser a proper stream: nonempty, capped by
/// exactly one end-of-stream sentinel.
pub proof fn lemma_spec_lex_wf(s: Seq<u8>, i: int)
    ensures
        crate::parser::stream_wf(spec_lex(s, i).0),
    decreases s.len() - i,
{
    if i < 0 || i >= s.len() {
        assert(spec_lex(s, i).0 =~= seq![eof_v(s)]);
    } else {
        let sc = scan(s, i);
        let next = if i < sc.next <= s.len() {
            sc.next
        } else {
            i + 1
        };
        lemma_spec_lex_wf(s, next);
        lemma_scan_token_not_eof(s, i);
        let rest = spec_lex(s, next);
        let whole = spec_lex(s, i).0;
        assert(whole =~= opt_seq(sc.token) + rest.0);
        assert(rest.0.len() >= 1);
        assert(whole.last() == rest.0.last());
    }
}

} // verus!
