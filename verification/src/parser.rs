use vstd::prelude::*;
use crate::ast::{
    expr_view,
    stmt_view,
    assignment_op, binary_op, exprs_view, stmts_view, Expr, ExprKind, ExprV, ExprKindV, Operator,
    Stmt, StmtKind, StmtV, StmtKindV,
};
use crate::errors::{err_v, Error, ErrorBuffer, ErrorKind, ErrorV};
use crate::lexer::{errs_v, is_digit, toks_v};
use crate::span::Span;
use crate::token::{Token, TokenKind, TokenV};

verus! {

// ----------------------------------------------------------------- \\
// THE TOKEN CURSOR, AS MATHEMATICS
// ----------------------------------------------------------------- \\

/// A proper token stream: nonempty, capped by exactly one end-of-stream
/// sentinel. This is what the lexer always hands over.
pub open spec fn stream_wf(ts: Seq<TokenV>) -> bool {
    &&& ts.len() >= 1
    &&& ts.last().kind == TokenKind::EOF
    &&& forall|i: int| 0 <= i < ts.len() - 1 ==> ts[i].kind != TokenKind::EOF
}

/// The token a cursor standing at `p` sees; past the end it sees the
/// sentinel.
pub open spec fn at(ts: Seq<TokenV>, p: int) -> TokenV {
    if ts.len() == 0 {
        TokenV { kind: TokenKind::EOF, span: Span { start: 0, end: 0 }, lexeme: Seq::empty() }
    } else if 0 <= p < ts.len() {
        ts[p]
    } else {
        ts[ts.len() - 1]
    }
}

/// The token one past the cursor.
pub open spec fn peek_at(ts: Seq<TokenV>, p: int) -> TokenV {
    at(ts, p + 1)
}

/// Where the cursor stands after one consume: one forward, but never past
/// the sentinel.
pub open spec fn consumed(len: int, p: int) -> int {
    if p + 1 < len {
        p + 1
    } else {
        len - 1
    }
}

/// The cursor after skipping every newline token under it.
pub open spec fn skip_nl(ts: Seq<TokenV>, p: int) -> int
    decreases ts.len() - p,
{
    if at(ts, p).kind == TokenKind::Newline && 0 <= p < ts.len() - 1 {
        skip_nl(ts, p + 1)
    } else {
        p
    }
}

/// The cursor after skipping every newline token just past it.
pub open spec fn skip_next_nl(ts: Seq<TokenV>, p: int) -> int
    decreases ts.len() - p,
{
    if peek_at(ts, p).kind == TokenKind::Newline && 0 <= p < ts.len() - 1 {
        skip_next_nl(ts, p + 1)
    } else {
        p
    }
}

/// Whether a token ends a statement: a statement boundary for error
/// recovery.
pub open spec fn is_stmt_boundary(k: TokenKind) -> bool {
    k == TokenKind::EOF || k == TokenKind::Semicolon || k == TokenKind::Newline
}

/// The cursor after resynchronizing to the next statement boundary. It ends
/// on the boundary token, not past it.
pub open spec fn sync_pos(ts: Seq<TokenV>, p: int) -> int
    decreases ts.len() - p,
{
    if !is_stmt_boundary(at(ts, p).kind) && 0 <= p < ts.len() - 1 {
        sync_pos(ts, p + 1)
    } else {
        p
    }
}

/// The cursor after resynchronizing to the end of a malformed function: its
/// closing keyword or the end of the stream.
pub open spec fn sync_fn_pos(ts: Seq<TokenV>, p: int) -> int
    decreases ts.len() - p,
{
    if !(at(ts, p).kind == TokenKind::EOF || at(ts, p).kind == TokenKind::End) && 0 <= p < ts.len()
        - 1 {
        sync_fn_pos(ts, p + 1)
    } else {
        p
    }
}

/// Skipping the newlines past the cursor is idempotent.
pub proof fn lemma_skip_next_nl_fix(ts: Seq<TokenV>, p: int)
    ensures
        skip_next_nl(ts, skip_next_nl(ts, p)) == skip_next_nl(ts, p),
    decreases ts.len() - p,
{
    if peek_at(ts, p).kind == TokenKind::Newline && 0 <= p < ts.len() - 1 {
        lemma_skip_next_nl_fix(ts, p + 1);
    }
}

/// Skipping positions never moves backwards and never leaves the stream.
pub proof fn lemma_skip_ge(ts: Seq<TokenV>, p: int)
    requires
        0 <= p < ts.len(),
    ensures
        p <= skip_nl(ts, p) < ts.len(),
        p <= skip_next_nl(ts, p) < ts.len(),
        p <= sync_pos(ts, p) < ts.len(),
        p <= sync_fn_pos(ts, p) < ts.len(),
    decreases ts.len() - p,
{
    if p < ts.len() - 1 {
        lemma_skip_ge(ts, p + 1);
    }
}

// ----------------------------------------------------------------- \\
// INTEGER LITERALS
// ----------------------------------------------------------------- \\

/// The lexeme with its underscore separators removed.
pub open spec fn strip_unders(s: Seq<u8>) -> Seq<u8>
    decreases s.len(),
{
    if s.len() == 0 {
        Seq::empty()
    } else {
        let r = strip_unders(s.drop_last());
        if s.last() == 95 {
            r
        } else {
            r.push(s.last())
        }
    }
}

/// Whether every byte is a decimal digit.
pub open spec fn all_digits(s: Seq<u8>) -> bool {
    forall|i: int| 0 <= i < s.len() ==> is_digit(s[i])
}

/// The value of a digit run, most significant digit first.
pub open spec fn dec_val(s: Seq<u8>) -> int
    decreases s.len(),
{
    if s.len() == 0 {
        0
    } else {
        dec_val(s.drop_last()) * 10 + (s.last() - 48)
    }
}

/// What an integer literal's lexeme is worth: its digit run with the
/// underscores removed, when that fits a 32-bit signed integer.
pub open spec fn int_value(lexeme: Seq<u8>) -> Option<i32> {
    let d = strip_unders(lexeme);
    if d.len() > 0 && all_digits(d) && dec_val(d) <= i32::MAX {
        Option::Some(dec_val(d) as i32)
    } else {
        Option::None
    }
}

proof fn lemma_dec_val_nonneg(s: Seq<u8>)
    requires
        all_digits(s),
    ensures
        dec_val(s) >= 0,
    decreases s.len(),
{
    if s.len() > 0 {
        assert(all_digits(s.drop_last()));
        lemma_dec_val_nonneg(s.drop_last());
    }
}

proof fn lemma_dec_val_prefix_le(s: Seq<u8>, i: int)
    requires
        all_digits(s),
        0 <= i <= s.len(),
    ensures
        dec_val(s.subrange(0, i)) <= dec_val(s),
    decreases s.len() - i,
{
    if i < s.len() {
        let t = s.subrange(0, i + 1);
        assert(t.drop_last() =~= s.subrange(0, i));
        assert(all_digits(s.subrange(0, i)));
        lemma_dec_val_nonneg(s.subrange(0, i));
        lemma_dec_val_prefix_le(s, i + 1);
    } else {
        assert(s.subrange(0, i) =~= s);
    }
}

/// Parses the digits of an integer literal, exactly as the ghost
/// `int_value` says: underscores are separators, and a value beyond the
/// 32-bit range is refused.
pub fn parse_int_lexeme(lexeme: &Vec<u8>) -> (r: Option<i32>)
    ensures
        r == int_value(lexeme@),
{
    // strip the underscore separators
    let mut digits: Vec<u8> = Vec::new();
    let mut i: usize = 0;
    while i < lexeme.len()
        invariant
            i <= lexeme@.len(),
            digits@ == strip_unders(lexeme@.subrange(0, i as int)),
        decreases lexeme@.len() - i,
    {
        proof {
            assert(lexeme@.subrange(0, i + 1).drop_last() =~= lexeme@.subrange(0, i as int));
        }
        let b = lexeme[i];
        if b != 95 {
            digits.push(b);
        }
        i = i + 1;
    }
    proof {
        assert(lexeme@.subrange(0, lexeme@.len() as int) =~= lexeme@);
    }
    if digits.len() == 0 {
        return Option::None;
    }
    // accumulate, refusing non-digits and overflow
    let mut acc: u64 = 0;
    let mut j: usize = 0;
    while j < digits.len()
        invariant
            j <= digits@.len(),
            all_digits(digits@.subrange(0, j as int)),
            acc == dec_val(digits@.subrange(0, j as int)),
            acc <= 0x7fff_ffff,
        decreases digits@.len() - j,
    {
        proof {
            assert(digits@.subrange(0, j + 1).drop_last() =~= digits@.subrange(0, j as int));
        }
        let b = digits[j];
        if !(48 <= b && b <= 57) {
            proof {
                assert(!is_digit(digits@[j as int]));
            }
            return Option::None;
        }
        let d = (b - 48) as u64;
        let next = acc * 10 + d;
        if next > 0x7fff_ffff {
            proof {
                assert(all_digits(digits@.subrange(0, j + 1)));
                if all_digits(digits@) {
                    lemma_dec_val_prefix_le(digits@, j + 1);
                }
            }
            return Option::None;
        }
        acc = next;
        j = j + 1;
    }
    proof {
        assert(digits@.subrange(0, digits@.len() as int) =~= digits@);
    }
    Option::Some(acc as i32)
}

/// Strips underscores out of a float literal's text, so the kept text is
/// plain digits and at most one dot.
pub fn strip_underscores(lexeme: &Vec<u8>) -> (r: Vec<u8>)
    ensures
        r@ == strip_unders(lexeme@),
{
    let mut out: Vec<u8> = Vec::new();
    let mut i: usize = 0;
    while i < lexeme.len()
        invariant
            i <= lexeme@.len(),
            out@ == strip_unders(lexeme@.subrange(0, i as int)),
        decreases lexeme@.len() - i,
    {
        proof {
            assert(lexeme@.subrange(0, i + 1).drop_last() =~= lexeme@.subrange(0, i as int));
        }
        let b = lexeme[i];
        if b != 95 {
            out.push(b);
        }
        i = i + 1;
    }
    proof {
        assert(lexeme@.subrange(0, lexeme@.len() as int) =~= lexeme@);
    }
    out
}

// ----------------------------------------------------------------- \\
// THE PARSER
// ----------------------------------------------------------------- \\

/// Consumes the token sequence and produces the statement tree plus a
/// diagnostic buffer. A malformed construct is recorded and the parser
/// resynchronizes at the next statement boundary; it never abandons the
/// whole run over a single bad statement.
pub struct Parser {
    pub errors: Vec<Error>,
    tokens: Vec<Token>,
    pos: usize,
}

impl Parser {
    /// The token stream being parsed.
    pub closed spec fn toks(self) -> Seq<TokenV> {
        toks_v(self.tokens@)
    }

    /// Where the cursor stands.
    pub closed spec fn cur(self) -> int {
        self.pos as int
    }

    /// The diagnostics recorded so far.
    pub closed spec fn errs(self) -> Seq<ErrorV> {
        errs_v(self.errors@)
    }

    /// A parser is well-formed when its stream is proper and its cursor is
    /// inside the stream.
    pub open spec fn wf(self) -> bool {
        &&& stream_wf(self.toks())
        &&& 0 <= self.cur() < self.toks().len()
    }

    /// The cursor moved to `p`; stream and diagnostics untouched.
    pub open spec fn steps_to(self, post: Parser, p: int) -> bool {
        &&& post.toks() == self.toks()
        &&& post.errs() == self.errs()
        &&& post.cur() == p
    }

    pub fn new(tokens: Vec<Token>) -> (p: Parser)
        ensures
            p.toks() == toks_v(tokens@),
            p.cur() == 0,
            p.errs() == Seq::<ErrorV>::empty(),
    {
        let p = Parser { errors: Vec::new(), tokens, pos: 0 };
        proof {
            assert(p.errs() =~= Seq::<ErrorV>::empty());
        }
        p
    }

    /// Whether the cursor reached the end-of-stream sentinel.
    fn at_end(&self) -> (r: bool)
        requires
            self.wf(),
        ensures
            r == (at(self.toks(), self.cur()).kind == TokenKind::EOF),
    {
        self.current().kind == TokenKind::EOF
    }

    /// The token under the cursor.
    fn current(&self) -> (t: &Token)
        requires
            self.wf(),
        ensures
            t@ == at(self.toks(), self.cur()),
    {
        &self.tokens[self.pos]
    }

    /// The token under the cursor, copied out.
    fn current_owned(&self) -> (t: Token)
        requires
            self.wf(),
        ensures
            t@ == at(self.toks(), self.cur()),
    {
        self.tokens[self.pos].copy()
    }

    /// The token one past the cursor, without moving it.
    fn peek(&self) -> (t: &Token)
        requires
            self.wf(),
        ensures
            t@ == peek_at(self.toks(), self.cur()),
    {
        let n = self.tokens.len();
        if self.pos < n - 1 {
            &self.tokens[self.pos + 1]
        } else {
            &self.tokens[n - 1]
        }
    }

    /// Moves the cursor forward, but never past the sentinel.
    fn consume(&mut self)
        requires
            old(self).wf(),
        ensures
            final(self).wf(),
            old(self).steps_to(*final(self), consumed(old(self).toks().len() as int, old(self).cur())),
    {
        let n = self.tokens.len();
        if self.pos < n - 1 {
            self.pos = self.pos + 1;
        } else {
            self.pos = n - 1;
        }
    }

    /// Whether the next token has the given kind; consumes it if so.
    fn expect_next(&mut self, kind: TokenKind) -> (r: bool)
        requires
            old(self).wf(),
        ensures
            final(self).wf(),
            r == (peek_at(old(self).toks(), old(self).cur()).kind == kind),
            old(self).steps_to(
                *final(self),
                if r {
                    consumed(old(self).toks().len() as int, old(self).cur())
                } else {
                    old(self).cur()
                },
            ),
    {
        if self.peek().kind == kind {
            self.consume();
            return true;
        }
        false
    }

    /// Whether the current token has the given kind.
    fn expect_current(&self, kind: TokenKind) -> (r: bool)
        requires
            self.wf(),
        ensures
            r == (at(self.toks(), self.cur()).kind == kind),
    {
        self.current().kind == kind
    }

    /// Demands that the next token have the given kind and consumes it;
    /// reports a syntax error at its span otherwise.
    fn assert_next(&mut self, kind: TokenKind, msg: &str) -> (r: Result<(), Error>)
        requires
            old(self).wf(),
        ensures
            final(self).wf(),
            match r {
                Result::Ok(()) => {
                    &&& peek_at(old(self).toks(), old(self).cur()).kind == kind
                    &&& old(self).steps_to(
                        *final(self),
                        consumed(old(self).toks().len() as int, old(self).cur()),
                    )
                },
                Result::Err(e) => {
                    &&& peek_at(old(self).toks(), old(self).cur()).kind != kind
                    &&& e@ == err_v(
                        ErrorKind::SyntaxError,
                        peek_at(old(self).toks(), old(self).cur()).span,
                        msg@,
                    )
                    &&& old(self).steps_to(*final(self), old(self).cur())
                },
            },
    {
        if !self.expect_next(kind) {
            let span = self.peek().span;
            return Result::Err(Error::new(ErrorKind::SyntaxError, span, msg, true));
        }
        Result::Ok(())
    }

    /// Demands that the current token have the given kind; reports a syntax
    /// error at its span otherwise. Consumes nothing either way.
    fn assert_current(&self, kind: TokenKind, msg: &str) -> (r: Result<(), Error>)
        requires
            self.wf(),
        ensures
            match r {
                Result::Ok(()) => at(self.toks(), self.cur()).kind == kind,
                Result::Err(e) => {
                    &&& at(self.toks(), self.cur()).kind != kind
                    &&& e@ == err_v(
                        ErrorKind::SyntaxError,
                        at(self.toks(), self.cur()).span,
                        msg@,
                    )
                },
            },
    {
        if self.current().kind != kind {
            let span = self.current().span;
            return Result::Err(Error::new(ErrorKind::SyntaxError, span, msg, true));
        }
        Result::Ok(())
    }

    /// Keeps advancing while the current token is a newline.
    fn skip_newlines(&mut self)
        requires
            old(self).wf(),
        ensures
            final(self).wf(),
            old(self).steps_to(*final(self), skip_nl(old(self).toks(), old(self).cur())),
    {
        while self.current().kind == TokenKind::Newline
            invariant
                self.wf(),
                self.toks() == old(self).toks(),
                self.errs() == old(self).errs(),
                skip_nl(old(self).toks(), old(self).cur()) == skip_nl(self.toks(), self.cur()),
            decreases self.toks().len() - self.cur(),
        {
            proof {
                assert(self.cur() < self.toks().len() - 1);
            }
            self.consume();
        }
    }

    /// Keeps advancing while the token past the cursor is a newline.
    fn skip_next_newlines(&mut self)
        requires
            old(self).wf(),
        ensures
            final(self).wf(),
            old(self).steps_to(*final(self), skip_next_nl(old(self).toks(), old(self).cur())),
    {
        while self.peek().kind == TokenKind::Newline
            invariant
                self.wf(),
                self.toks() == old(self).toks(),
                self.errs() == old(self).errs(),
                skip_next_nl(old(self).toks(), old(self).cur()) == skip_next_nl(
                    self.toks(),
                    self.cur(),
                ),
            decreases self.toks().len() - self.cur(),
        {
            proof {
                assert(self.cur() < self.toks().len() - 1);
            }
            self.consume();
        }
    }

    /// Whether the next non-newline token has the given kind; consumes
    /// through it if so.
    fn expect_next_ignore_newln(&mut self, kind: TokenKind) -> (r: bool)
        requires
            old(self).wf(),
        ensures
            final(self).wf(),
            ({
                let q = skip_next_nl(old(self).toks(), old(self).cur());
                &&& r == (peek_at(old(self).toks(), q).kind == kind)
                &&& old(self).steps_to(
                    *final(self),
                    if r {
                        consumed(old(self).toks().len() as int, q)
                    } else {
                        q
                    },
                )
            }),
    {
        self.skip_next_newlines();
        self.expect_next(kind)
    }

    /// Demands that the next non-newline token have the given kind and
    /// consumes through it; reports a syntax error at its span otherwise.
    fn assert_next_ignore_newln(&mut self, kind: TokenKind, msg: &str) -> (r: Result<(), Error>)
        requires
            old(self).wf(),
        ensures
            final(self).wf(),
            ({
                let q = skip_next_nl(old(self).toks(), old(self).cur());
                match r {
                    Result::Ok(()) => {
                        &&& peek_at(old(self).toks(), q).kind == kind
                        &&& old(self).steps_to(
                            *final(self),
                            consumed(old(self).toks().len() as int, q),
                        )
                    },
                    Result::Err(e) => {
                        &&& peek_at(old(self).toks(), q).kind != kind
                        &&& e@ == err_v(ErrorKind::SyntaxError, peek_at(old(self).toks(), q).span, msg@)
                        &&& old(self).steps_to(*final(self), q)
                    },
                }
            }),
    {
        if !self.expect_next_ignore_newln(kind) {
            let span = self.peek().span;
            return Result::Err(Error::new(ErrorKind::SyntaxError, span, msg, true));
        }
        Result::Ok(())
    }

    /// Skips ahead to the next statement boundary, ending on it: the caller
    /// consumes past it.
    fn sync(&mut self)
        requires
            old(self).wf(),
        ensures
            final(self).wf(),
            old(self).steps_to(*final(self), sync_pos(old(self).toks(), old(self).cur())),
    {
        while !(self.current().kind == TokenKind::EOF || self.current().kind
            == TokenKind::Semicolon || self.current().kind == TokenKind::Newline)
            invariant
                self.wf(),
                self.toks() == old(self).toks(),
                self.errs() == old(self).errs(),
                sync_pos(old(self).toks(), old(self).cur()) == sync_pos(self.toks(), self.cur()),
            decreases self.toks().len() - self.cur(),
        {
            proof {
                assert(self.cur() < self.toks().len() - 1);
            }
            self.consume();
        }
    }

    /// Skips ahead to the keyword that closes the current function, or to
    /// the end of the stream, so one malformed function does not
    /// desynchronize the rest of the file.
    fn sync_after_fn(&mut self)
        requires
            old(self).wf(),
        ensures
            final(self).wf(),
            old(self).steps_to(*final(self), sync_fn_pos(old(self).toks(), old(self).cur())),
    {
        while !(self.current().kind == TokenKind::EOF || self.current().kind == TokenKind::End)
            invariant
                self.wf(),
                self.toks() == old(self).toks(),
                self.errs() == old(self).errs(),
                sync_fn_pos(old(self).toks(), old(self).cur()) == sync_fn_pos(
                    self.toks(),
                    self.cur(),
                ),
            decreases self.toks().len() - self.cur(),
        {
            proof {
                assert(self.cur() < self.toks().len() - 1);
            }
            self.consume();
        }
    }

    /// Records a diagnostic.
    fn err(&mut self, error: Error)
        ensures
            final(self).toks() == old(self).toks(),
            final(self).cur() == old(self).cur(),
            final(self).errs() =~= old(self).errs().push(error@),
            old(self).wf() ==> final(self).wf(),
    {
        self.errors.push(error);
    }
}

} // verus!

verus! {

// ----------------------------------------------------------------- \\
// THE EXPRESSION GRAMMAR, AS MATHEMATICS
// ----------------------------------------------------------------- \\

/// What parsing one expression yields: the tree or the diagnostic, and
/// where the cursor ends.
pub struct PExpr {
    pub res: Result<ExprV, ErrorV>,
    pub pos: int,
}

/// What parsing an argument list yields.
pub struct PArgs {
    pub res: Result<Seq<ExprV>, ErrorV>,
    pub pos: int,
}

/// Where a guarded recursive descent step lands: the natural target `t0`
/// when it makes progress and stays inside the stream, else one step
/// forward. On a proper stream the natural target always qualifies; the
/// guard only keeps the recursion visibly well-founded.
pub open spec fn step_target(len: int, pos: int, t0: int) -> int {
    if pos < t0 <= len {
        t0
    } else if pos + 1 <= len {
        pos + 1
    } else {
        pos
    }
}

/// Parsing the tightest-binding level: literals and identifiers. The cursor
/// stays on the literal token.
pub open spec fn spec_expr_literal(ts: Seq<TokenV>, pos: int) -> PExpr {
    let tk = at(ts, pos);
    match tk.kind {
        TokenKind::Integer => match int_value(tk.lexeme) {
            Option::Some(v) => PExpr {
                res: Result::Ok(ExprV { kind: ExprKindV::Integer { value: v }, span: tk.span }),
                pos,
            },
            Option::None => PExpr {
                res: Result::Err(
                    err_v(ErrorKind::ParseError, tk.span, "error parsing integer literal"@),
                ),
                pos,
            },
        },
        TokenKind::Float => PExpr {
            res: Result::Ok(
                ExprV { kind: ExprKindV::Float { text: strip_unders(tk.lexeme) }, span: tk.span },
            ),
            pos,
        },
        TokenKind::Str => PExpr {
            res: Result::Ok(ExprV { kind: ExprKindV::Str { value: tk.lexeme }, span: tk.span }),
            pos,
        },
        TokenKind::Ident => PExpr {
            res: Result::Ok(ExprV { kind: ExprKindV::Ident { name: tk.lexeme }, span: tk.span }),
            pos,
        },
        TokenKind::True => PExpr {
            res: Result::Ok(ExprV { kind: ExprKindV::Boolean { value: true }, span: tk.span }),
            pos,
        },
        TokenKind::False => PExpr {
            res: Result::Ok(ExprV { kind: ExprKindV::Boolean { value: false }, span: tk.span }),
            pos,
        },
        _ => PExpr {
            res: Result::Err(err_v(ErrorKind::SyntaxError, tk.span, "expected an expression"@)),
            pos,
        },
    }
}

/// Parsing a call: a literal, then an argument list if `(` follows.
pub open spec fn spec_expr_call(ts: Seq<TokenV>, pos: int) -> PExpr
    decreases ts.len() - pos, 1int,
{
    let lit = spec_expr_literal(ts, pos);
    match lit.res {
        Result::Err(e) => lit,
        Result::Ok(callee) => {
            if peek_at(ts, pos).kind == TokenKind::LParen {
                let pa = consumed(ts.len() as int, pos);
                let pb = skip_nl(ts, pa);
                let tgt = step_target(ts.len() as int, pos, pb);
                if tgt > pos {
                    let args = spec_args(ts, tgt);
                    match args.res {
                        Result::Ok(a) => PExpr {
                            res: Result::Ok(
                                ExprV {
                                    kind: ExprKindV::Call { callee: Box::new(callee), args: a },
                                    span: Span {
                                        start: callee.span.start,
                                        end: at(ts, args.pos).span.end,
                                    },
                                },
                            ),
                            pos: args.pos,
                        },
                        Result::Err(e) => PExpr { res: Result::Err(e), pos: args.pos },
                    }
                } else {
                    // dead guard of the recursion; never taken on a proper stream
                    lit
                }
            } else {
                lit
            }
        },
    }
}

/// Parsing an argument list from the opening parenthesis: step onto the
/// first argument, then run the list.
pub open spec fn spec_args(ts: Seq<TokenV>, pos: int) -> PArgs
    decreases ts.len() - pos, 6int,
{
    let p0 = consumed(ts.len() as int, pos);
    let tgt = if pos <= p0 <= ts.len() {
        p0
    } else {
        pos
    };
    spec_args_loop(ts, tgt)
}

/// One round of the argument list: an expression, then a comma and the next
/// argument, or the closing parenthesis. The cursor ends on the `)`.
pub open spec fn spec_args_loop(ts: Seq<TokenV>, pos: int) -> PArgs
    decreases ts.len() - pos, 5int,
{
    if at(ts, pos).kind == TokenKind::RParen {
        PArgs { res: Result::Ok(Seq::empty()), pos }
    } else {
        let e = spec_expr(ts, pos);
        match e.res {
            Result::Err(er) => PArgs { res: Result::Err(er), pos: e.pos },
            Result::Ok(val) => {
                let q = skip_next_nl(ts, e.pos);
                if peek_at(ts, q).kind == TokenKind::Comma {
                    let pc = consumed(ts.len() as int, q);
                    let pd = consumed(ts.len() as int, pc);
                    let tgt = step_target(ts.len() as int, pos, pd);
                    if tgt > pos {
                        let rest = spec_args_loop(ts, tgt);
                        match rest.res {
                            Result::Ok(s) => PArgs { res: Result::Ok(seq![val] + s), pos: rest.pos },
                            Result::Err(er) => rest,
                        }
                    } else {
                        // dead guard of the recursion
                        PArgs { res: Result::Ok(seq![val]), pos: e.pos }
                    }
                } else if peek_at(ts, q).kind == TokenKind::RParen {
                    PArgs { res: Result::Ok(seq![val]), pos: consumed(ts.len() as int, q) }
                } else {
                    PArgs {
                        res: Result::Err(
                            err_v(
                                ErrorKind::SyntaxError,
                                peek_at(ts, q).span,
                                "expected ')' to close function call arguments"@,
                            ),
                        ),
                        pos: q,
                    }
                }
            },
        }
    }
}

/// Parsing the binary level: a call, and if a binary operator follows, the
/// whole remaining expression as the right-hand side. Recursing into the
/// full expression parser for the right-hand side is what makes every
/// binary operator right-associative: `a - b - c` parses as `a - (b - c)`.
pub open spec fn spec_expr_binary(ts: Seq<TokenV>, pos: int) -> PExpr
    decreases ts.len() - pos, 2int,
{
    let c = spec_expr_call(ts, pos);
    match c.res {
        Result::Err(e) => c,
        Result::Ok(lhs) => match binary_op(peek_at(ts, c.pos).kind) {
            Option::Some(op) => {
                let p1 = consumed(ts.len() as int, c.pos);
                let p2 = consumed(ts.len() as int, p1);
                let p3 = skip_nl(ts, p2);
                let tgt = step_target(ts.len() as int, pos, p3);
                if tgt > pos {
                    let r = spec_expr(ts, tgt);
                    match r.res {
                        Result::Ok(rhs) => PExpr {
                            res: Result::Ok(
                                ExprV {
                                    kind: ExprKindV::Binary {
                                        lhs: Box::new(lhs),
                                        rhs: Box::new(rhs),
                                        op,
                                    },
                                    span: Span { start: lhs.span.start, end: rhs.span.end },
                                },
                            ),
                            pos: r.pos,
                        },
                        Result::Err(er) => PExpr { res: Result::Err(er), pos: r.pos },
                    }
                } else {
                    // dead guard of the recursion
                    c
                }
            },
            Option::None => c,
        },
    }
}

/// Parsing the loosest level: a binary expression, and if an assignment
/// operator follows, the whole remaining expression as the assigned value.
/// Assignment is right-associative for the same reason as the binary level.
pub open spec fn spec_expr_assignment(ts: Seq<TokenV>, pos: int) -> PExpr
    decreases ts.len() - pos, 3int,
{
    let c = spec_expr_binary(ts, pos);
    match c.res {
        Result::Err(e) => c,
        Result::Ok(lhs) => match assignment_op(peek_at(ts, c.pos).kind) {
            Option::Some(op) => {
                let p1 = consumed(ts.len() as int, c.pos);
                let p2 = consumed(ts.len() as int, p1);
                let p3 = skip_nl(ts, p2);
                let tgt = step_target(ts.len() as int, pos, p3);
                if tgt > pos {
                    let r = spec_expr(ts, tgt);
                    match r.res {
                        Result::Ok(value) => PExpr {
                            res: Result::Ok(
                                ExprV {
                                    kind: ExprKindV::Assignment {
                                        assignee: Box::new(lhs),
                                        value: Box::new(value),
                                        op,
                                    },
                                    span: Span { start: lhs.span.start, end: value.span.end },
                                },
                            ),
                            pos: r.pos,
                        },
                        Result::Err(er) => PExpr { res: Result::Err(er), pos: r.pos },
                    }
                } else {
                    // dead guard of the recursion
                    c
                }
            },
            Option::None => c,
        },
    }
}

/// The full expression grammar, loosest level first.
pub open spec fn spec_expr(ts: Seq<TokenV>, pos: int) -> PExpr
    decreases ts.len() - pos, 4int,
{
    spec_expr_assignment(ts, pos)
}

} // verus!

verus! {

/// Images of a singleton and of a cons at the view level, used to stitch
/// argument vectors together.
proof fn lemma_exprs_view_cons(s: Seq<Expr>, x: Expr, t: Seq<Expr>)
    requires
        s =~= seq![x] + t,
    ensures
        exprs_view(s) =~= seq![expr_view(x)] + exprs_view(t),
{
    assert(s.len() == 1 + t.len());
    assert(s[0] == x);
    assert(s.subrange(1, s.len() as int) =~= t);
}

impl Parser {
    /// Parses a literal or identifier: the tightest-binding level of the
    /// expression grammar. The cursor stays on the literal's token.
    fn expr_literal(&mut self) -> (r: Result<Expr, Error>)
        requires
            old(self).wf(),
        ensures
            final(self).wf(),
            old(self).cur() <= final(self).cur(),
            ({
                let m = spec_expr_literal(old(self).toks(), old(self).cur());
                &&& old(self).steps_to(*final(self), m.pos)
                &&& match r {
                    Result::Ok(e) => m.res == Result::<ExprV, ErrorV>::Ok(e@),
                    Result::Err(er) => m.res == Result::<ExprV, ErrorV>::Err(er@),
                }
            }),
    {
        let tk = self.current_owned();
        match tk.kind {
            TokenKind::Integer => match parse_int_lexeme(&tk.lexeme) {
                Option::Some(value) => Result::Ok(Expr::new(ExprKind::Integer { value }, tk.span)),
                Option::None => Result::Err(
                    Error::new(ErrorKind::ParseError, tk.span, "error parsing integer literal", true),
                ),
            },
            TokenKind::Float => {
                let text = strip_underscores(&tk.lexeme);
                Result::Ok(Expr::new(ExprKind::Float { text }, tk.span))
            },
            TokenKind::Str => Result::Ok(Expr::new(ExprKind::Str { value: tk.lexeme }, tk.span)),
            TokenKind::Ident => Result::Ok(Expr::new(ExprKind::Ident { name: tk.lexeme }, tk.span)),
            TokenKind::True => Result::Ok(Expr::new(ExprKind::Boolean { value: true }, tk.span)),
            TokenKind::False => Result::Ok(Expr::new(ExprKind::Boolean { value: false }, tk.span)),
            _ => Result::Err(Error::new(ErrorKind::SyntaxError, tk.span, "expected an expression", true)),
        }
    }

    /// Parses a call: a literal, and an argument list when `(` follows it.
    #[verifier::rlimit(30)]
    fn expr_call(&mut self) -> (r: Result<Expr, Error>)
        requires
            old(self).wf(),
        ensures
            final(self).wf(),
            old(self).cur() <= final(self).cur(),
            ({
                let m = spec_expr_call(old(self).toks(), old(self).cur());
                &&& old(self).steps_to(*final(self), m.pos)
                &&& match r {
                    Result::Ok(e) => m.res == Result::<ExprV, ErrorV>::Ok(e@),
                    Result::Err(er) => m.res == Result::<ExprV, ErrorV>::Err(er@),
                }
            }),
        decreases self.toks().len() - self.cur(), 1int,
    {
        let ghost ts = self.toks();
        let ghost p0 = self.cur();
        let expr = match self.expr_literal() {
            Result::Ok(e) => e,
            Result::Err(er) => {
                return Result::Err(er);
            },
        };
        if self.expect_next(TokenKind::LParen) {
            proof {
                // a peeked `(` is a real token short of the sentinel
                if p0 + 1 >= ts.len() {
                    assert(peek_at(ts, p0) == ts[ts.len() - 1]);
                    assert(false);
                }
            }
            self.skip_newlines();
            proof {
                lemma_skip_ge(ts, p0 + 1);
            }
            let args = match self.parse_args() {
                Result::Ok(a) => a,
                Result::Err(er) => {
                    return Result::Err(er);
                },
            };
            let end = self.current().span.end;
            let span = Span::new(expr.span.start, end);
            return Result::Ok(Expr::new(ExprKind::Call { callee: Box::new(expr), args }, span));
        }
        Result::Ok(expr)
    }

    /// Parses a comma-separated, newline-tolerant argument list, starting on
    /// the opening parenthesis and ending on the closing one.
    fn parse_args(&mut self) -> (r: Result<Vec<Expr>, Error>)
        requires
            old(self).wf(),
        ensures
            final(self).wf(),
            old(self).cur() <= final(self).cur(),
            ({
                let m = spec_args(old(self).toks(), old(self).cur());
                &&& old(self).steps_to(*final(self), m.pos)
                &&& match r {
                    Result::Ok(v) => m.res == Result::<Seq<ExprV>, ErrorV>::Ok(exprs_view(v@)),
                    Result::Err(er) => m.res == Result::<Seq<ExprV>, ErrorV>::Err(er@),
                }
            }),
        decreases self.toks().len() - self.cur(), 6int,
    {
        self.consume();
        self.parse_args_loop()
    }

    /// One round of the argument list: an expression, then either a comma
    /// and the rest of the list or the closing parenthesis.
    fn parse_args_loop(&mut self) -> (r: Result<Vec<Expr>, Error>)
        requires
            old(self).wf(),
        ensures
            final(self).wf(),
            old(self).cur() <= final(self).cur(),
            ({
                let m = spec_args_loop(old(self).toks(), old(self).cur());
                &&& old(self).steps_to(*final(self), m.pos)
                &&& match r {
                    Result::Ok(v) => m.res == Result::<Seq<ExprV>, ErrorV>::Ok(exprs_view(v@)),
                    Result::Err(er) => m.res == Result::<Seq<ExprV>, ErrorV>::Err(er@),
                }
            }),
        decreases self.toks().len() - self.cur(), 5int,
    {
        let ghost ts = self.toks();
        let ghost p0 = self.cur();
        if self.expect_current(TokenKind::RParen) {
            let v: Vec<Expr> = Vec::new();
            proof {
                assert(exprs_view(v@) =~= Seq::<ExprV>::empty());
            }
            return Result::Ok(v);
        }
        let val = match self.expr() {
            Result::Ok(e) => e,
            Result::Err(er) => {
                return Result::Err(er);
            },
        };
        let ghost e_pos = self.cur();
        if self.expect_next_ignore_newln(TokenKind::Comma) {
            proof {
                lemma_skip_ge(ts, e_pos);
                let q = skip_next_nl(ts, e_pos);
                if q + 1 >= ts.len() {
                    assert(peek_at(ts, q) == ts[ts.len() - 1]);
                    assert(false);
                }
            }
            self.consume();
            proof {
                assert(self.cur() > p0);
            }
            let rest = match self.parse_args_loop() {
                Result::Ok(v) => v,
                Result::Err(er) => {
                    return Result::Err(er);
                },
            };
            let mut v = rest;
            let ghost rest_view = v@;
            v.insert(0, val);
            proof {
                lemma_exprs_view_cons(v@, val, rest_view);
            }
            return Result::Ok(v);
        }
        proof {
            lemma_skip_ge(ts, e_pos);
            lemma_skip_next_nl_fix(ts, e_pos);
        }
        match self.assert_next_ignore_newln(
            TokenKind::RParen,
            "expected ')' to close function call arguments",
        ) {
            Result::Ok(()) => {
                let mut v: Vec<Expr> = Vec::new();
                v.push(val);
                proof {
                    lemma_exprs_view_cons(v@, val, Seq::<Expr>::empty());
                    assert(exprs_view(Seq::<Expr>::empty()) =~= Seq::<ExprV>::empty());
                    assert(exprs_view(v@) =~= seq![expr_view(val)]);
                }
                Result::Ok(v)
            },
            Result::Err(er) => Result::Err(er),
        }
    }

    /// Parses the binary level. If a binary operator follows the first
    /// operand, the whole remaining expression becomes the right-hand side,
    /// which makes every binary operator right-associative.
    fn expr_binary(&mut self) -> (r: Result<Expr, Error>)
        requires
            old(self).wf(),
        ensures
            final(self).wf(),
            old(self).cur() <= final(self).cur(),
            ({
                let m = spec_expr_binary(old(self).toks(), old(self).cur());
                &&& old(self).steps_to(*final(self), m.pos)
                &&& match r {
                    Result::Ok(e) => m.res == Result::<ExprV, ErrorV>::Ok(e@),
                    Result::Err(er) => m.res == Result::<ExprV, ErrorV>::Err(er@),
                }
            }),
        decreases self.toks().len() - self.cur(), 2int,
    {
        let ghost ts = self.toks();
        let ghost p0 = self.cur();
        let lhs = match self.expr_call() {
            Result::Ok(e) => e,
            Result::Err(er) => {
                return Result::Err(er);
            },
        };
        let op_found = Operator::binary(&self.peek().kind);
        if let Option::Some(op) = op_found {
            let ghost c_pos = self.cur();
            proof {
                // the operator the peek found is a real token short of the sentinel
                if peek_at(ts, c_pos).kind == TokenKind::EOF {
                    assert(false);
                }
                if c_pos + 1 >= ts.len() {
                    assert(peek_at(ts, c_pos) == ts[ts.len() - 1]);
                    assert(false);
                }
            }
            self.consume();  // past the operator
            self.consume();  // onto the start of the right-hand side
            self.skip_newlines();
            proof {
                lemma_skip_ge(ts, consumed(ts.len() as int, c_pos + 1));
            }
            let rhs = match self.expr() {
                Result::Ok(e) => e,
                Result::Err(er) => {
                    return Result::Err(er);
                },
            };
            let span = Span::new(lhs.span.start, rhs.span.end);
            return Result::Ok(
                Expr::new(ExprKind::Binary { lhs: Box::new(lhs), rhs: Box::new(rhs), op }, span),
            );
        }
        Result::Ok(lhs)
    }

    /// Parses the loosest level. If an assignment operator follows, the
    /// whole remaining expression becomes the assigned value; assignment is
    /// right-associative like the binary level.
    fn expr_assignment(&mut self) -> (r: Result<Expr, Error>)
        requires
            old(self).wf(),
        ensures
            final(self).wf(),
            old(self).cur() <= final(self).cur(),
            ({
                let m = spec_expr_assignment(old(self).toks(), old(self).cur());
                &&& old(self).steps_to(*final(self), m.pos)
                &&& match r {
                    Result::Ok(e) => m.res == Result::<ExprV, ErrorV>::Ok(e@),
                    Result::Err(er) => m.res == Result::<ExprV, ErrorV>::Err(er@),
                }
            }),
        decreases self.toks().len() - self.cur(), 3int,
    {
        let ghost ts = self.toks();
        let ghost p0 = self.cur();
        let lhs = match self.expr_binary() {
            Result::Ok(e) => e,
            Result::Err(er) => {
                return Result::Err(er);
            },
        };
        let op_found = Operator::assignment(&self.peek().kind);
        if let Option::Some(op) = op_found {
            let ghost c_pos = self.cur();
            proof {
                // the operator the peek found is a real token short of the sentinel
                if peek_at(ts, c_pos).kind == TokenKind::EOF {
                    assert(false);
                }
                if c_pos + 1 >= ts.len() {
                    assert(peek_at(ts, c_pos) == ts[ts.len() - 1]);
                    assert(false);
                }
            }
            self.consume();  // past the operator
            self.consume();  // onto the start of the value
            self.skip_newlines();
            proof {
                lemma_skip_ge(ts, consumed(ts.len() as int, c_pos + 1));
            }
            let value = match self.expr() {
                Result::Ok(e) => e,
                Result::Err(er) => {
                    return Result::Err(er);
                },
            };
            let span = Span::new(lhs.span.start, value.span.end);
            return Result::Ok(
                Expr::new(
                    ExprKind::Assignment { assignee: Box::new(lhs), value: Box::new(value), op },
                    span,
                ),
            );
        }
        Result::Ok(lhs)
    }

    /// Parses one full expression, loosest level first.
    fn expr(&mut self) -> (r: Result<Expr, Error>)
        requires
            old(self).wf(),
        ensures
            final(self).wf(),
            old(self).cur() <= final(self).cur(),
            ({
                let m = spec_expr(old(self).toks(), old(self).cur());
                &&& old(self).steps_to(*final(self), m.pos)
                &&& match r {
                    Result::Ok(e) => m.res == Result::<ExprV, ErrorV>::Ok(e@),
                    Result::Err(er) => m.res == Result::<ExprV, ErrorV>::Err(er@),
                }
            }),
        decreases self.toks().len() - self.cur(), 4int,
    {
        self.expr_assignment()
    }
}

} // verus!

verus! {

// ----------------------------------------------------------------- \\
// THE STATEMENT GRAMMAR, AS MATHEMATICS
// ----------------------------------------------------------------- \\

/// What parsing one statement yields.
pub struct PStmt {
    pub res: Result<StmtV, ErrorV>,
    pub pos: int,
}

/// What parsing one function declaration yields: the statement or the
/// diagnostic, the diagnostics its body accumulated, and the cursor.
pub struct PFn {
    pub res: Result<StmtV, ErrorV>,
    pub errs: Seq<ErrorV>,
    pub pos: int,
}

/// What parsing a statement block or a whole program yields: the statements
/// that could be parsed, every diagnostic in source order, and the cursor.
pub struct PBlock {
    pub stmts: Seq<StmtV>,
    pub errs: Seq<ErrorV>,
    pub pos: int,
}

/// Parsing a variable declaration from its `let` or `mut` keyword: the
/// keyword fixes mutability, then the name, an optional `:` type
/// annotation, `=`, and the initializer expression.
pub open spec fn spec_stmt_variable(ts: Seq<TokenV>, pos: int) -> PStmt {
    let len = ts.len() as int;
    let kw = at(ts, pos);
    let mutable = kw.kind == TokenKind::Mut;
    if peek_at(ts, pos).kind != TokenKind::Ident {
        PStmt {
            res: Result::Err(
                err_v(ErrorKind::SyntaxError, peek_at(ts, pos).span, "expected a variable name"@),
            ),
            pos,
        }
    } else {
        let p1 = consumed(len, pos);
        let name = at(ts, p1).lexeme;
        let has_typ = peek_at(ts, p1).kind == TokenKind::Colon;
        let pd = consumed(len, consumed(len, p1));
        let lit = spec_expr_literal(ts, pd);
        if has_typ && lit.res is Err {
            PStmt { res: Result::Err(lit.res->Err_0), pos: lit.pos }
        } else {
            let p2 = if has_typ {
                lit.pos
            } else {
                p1
            };
            if peek_at(ts, p2).kind != TokenKind::Equal {
                PStmt {
                    res: Result::Err(
                        err_v(
                            ErrorKind::SyntaxError,
                            peek_at(ts, p2).span,
                            "expected '=' in variable declaration"@,
                        ),
                    ),
                    pos: p2,
                }
            } else {
                let p3 = consumed(len, p2);
                let p5 = consumed(len, skip_next_nl(ts, p3));
                let v = spec_expr(ts, p5);
                match v.res {
                    Result::Err(e) => PStmt { res: Result::Err(e), pos: v.pos },
                    Result::Ok(val) => PStmt {
                        res: Result::Ok(
                            StmtV {
                                kind: StmtKindV::Variable {
                                    name,
                                    mutable,
                                    typ: if has_typ {
                                        Option::Some(Box::new(lit.res->Ok_0))
                                    } else {
                                        Option::None
                                    },
                                    value: Box::new(val),
                                },
                                span: Span { start: kw.span.start, end: val.span.end },
                            },
                        ),
                        pos: v.pos,
                    },
                }
            }
        }
    }
}

/// The statement-terminator rule: after a statement's last token, a
/// semicolon, a newline or the end of the stream must follow, and the
/// cursor moves onto it.
pub open spec fn spec_terminated(ts: Seq<TokenV>, st: StmtV, p: int) -> PStmt {
    if is_stmt_boundary(peek_at(ts, p).kind) {
        PStmt { res: Result::Ok(st), pos: consumed(ts.len() as int, p) }
    } else {
        PStmt {
            res: Result::Err(
                err_v(
                    ErrorKind::SyntaxError,
                    at(ts, p).span,
                    "expected ';' or a new line to complete the statement"@,
                ),
            ),
            pos: p,
        }
    }
}

/// Parsing one statement: a declaration keyword routes to the variable
/// declaration; anything else is accepted only as an assignment expression
/// statement. Every statement must reach its terminator.
pub open spec fn spec_stmt(ts: Seq<TokenV>, pos: int) -> PStmt {
    let c = at(ts, pos).kind;
    if c == TokenKind::Let || c == TokenKind::Mut {
        let r = spec_stmt_variable(ts, pos);
        match r.res {
            Result::Ok(st) => spec_terminated(ts, st, r.pos),
            Result::Err(e) => r,
        }
    } else {
        let e = spec_expr(ts, pos);
        match e.res {
            Result::Err(er) => PStmt { res: Result::Err(er), pos: e.pos },
            Result::Ok(v) => {
                if v.kind is Assignment {
                    spec_terminated(
                        ts,
                        StmtV { kind: StmtKindV::Expression { expr: Box::new(v) }, span: v.span },
                        e.pos,
                    )
                } else {
                    PStmt {
                        res: Result::Err(
                            err_v(
                                ErrorKind::SyntaxError,
                                at(ts, pos).span,
                                "expressions must be meaningful to exist on their own"@,
                            ),
                        ),
                        pos: e.pos,
                    }
                }
            },
        }
    }
}

/// One round of the parameter list: a typed `name: type` parameter, then a
/// comma and the rest, or the closing parenthesis. The cursor ends on `)`.
pub open spec fn spec_params_loop(ts: Seq<TokenV>, pos: int) -> PArgs
    decreases ts.len() - pos,
{
    let len = ts.len() as int;
    let tk = at(ts, pos);
    if tk.kind == TokenKind::RParen {
        PArgs { res: Result::Ok(Seq::empty()), pos }
    } else if tk.kind != TokenKind::Ident {
        PArgs {
            res: Result::Err(
                err_v(ErrorKind::SyntaxError, tk.span, "expected a parameter name"@),
            ),
            pos,
        }
    } else if peek_at(ts, pos).kind != TokenKind::Colon {
        PArgs {
            res: Result::Err(
                err_v(
                    ErrorKind::SyntaxError,
                    peek_at(ts, pos).span,
                    "expected ':' after the parameter name"@,
                ),
            ),
            pos,
        }
    } else {
        let pd = consumed(len, consumed(len, pos));
        let t = spec_expr(ts, pd);
        match t.res {
            Result::Err(e) => PArgs { res: Result::Err(e), pos: t.pos },
            Result::Ok(ty) => {
                let param = ExprV {
                    kind: ExprKindV::Parameter { name: tk.lexeme, ty: Box::new(ty) },
                    span: Span { start: tk.span.start, end: ty.span.end },
                };
                let q = skip_next_nl(ts, t.pos);
                if peek_at(ts, q).kind == TokenKind::Comma {
                    let pd2 = consumed(len, consumed(len, q));
                    let tgt = step_target(len, pos, pd2);
                    if tgt > pos {
                        let rest = spec_params_loop(ts, tgt);
                        match rest.res {
                            Result::Ok(s) => PArgs {
                                res: Result::Ok(seq![param] + s),
                                pos: rest.pos,
                            },
                            Result::Err(e) => rest,
                        }
                    } else {
                        // dead guard of the recursion
                        PArgs { res: Result::Ok(seq![param]), pos: t.pos }
                    }
                } else if peek_at(ts, q).kind == TokenKind::RParen {
                    PArgs { res: Result::Ok(seq![param]), pos: consumed(len, q) }
                } else {
                    PArgs {
                        res: Result::Err(
                            err_v(
                                ErrorKind::SyntaxError,
                                peek_at(ts, q).span,
                                "expected ')' to close function parameters"@,
                            ),
                        ),
                        pos: q,
                    }
                }
            },
        }
    }
}

/// Parsing a function declaration from its keyword: the name, the typed
/// parameter list, an optional `->` return type, and the body block closed
/// by the `end` keyword.
pub open spec fn spec_stmt_function(ts: Seq<TokenV>, pos: int) -> PFn {
    let len = ts.len() as int;
    if peek_at(ts, pos).kind != TokenKind::Ident {
        PFn {
            res: Result::Err(
                err_v(ErrorKind::SyntaxError, peek_at(ts, pos).span, "expected a function name"@),
            ),
            errs: Seq::empty(),
            pos,
        }
    } else {
        let p1 = consumed(len, pos);
        let name = at(ts, p1).lexeme;
        let start = at(ts, p1).span.start;
        if peek_at(ts, p1).kind != TokenKind::LParen {
            PFn {
                res: Result::Err(
                    err_v(
                        ErrorKind::SyntaxError,
                        peek_at(ts, p1).span,
                        "expected '(' to begin function parameters"@,
                    ),
                ),
                errs: Seq::empty(),
                pos: p1,
            }
        } else {
            let p3 = consumed(len, consumed(len, p1));
            let pr = spec_params_loop(ts, p3);
            match pr.res {
                Result::Err(e) => PFn { res: Result::Err(e), errs: Seq::empty(), pos: pr.pos },
                Result::Ok(params) => {
                    let q = skip_next_nl(ts, pr.pos);
                    let has_ret = peek_at(ts, q).kind == TokenKind::RArrow;
                    let p5 = consumed(len, consumed(len, q));
                    let rt = spec_expr(ts, p5);
                    if has_ret && rt.res is Err {
                        PFn { res: Result::Err(rt.res->Err_0), errs: Seq::empty(), pos: rt.pos }
                    } else {
                        let p6 = if has_ret {
                            rt.pos
                        } else {
                            q
                        };
                        let p8 = skip_nl(ts, consumed(len, p6));
                        let blk = spec_block(ts, p8);
                        PFn {
                            res: Result::Ok(
                                StmtV {
                                    kind: StmtKindV::Function {
                                        name,
                                        ret: if has_ret {
                                            Option::Some(Box::new(rt.res->Ok_0))
                                        } else {
                                            Option::None
                                        },
                                        params,
                                        body: blk.stmts,
                                    },
                                    span: Span { start, end: at(ts, blk.pos).span.end },
                                },
                            ),
                            errs: blk.errs,
                            pos: blk.pos,
                        }
                    }
                },
            }
        }
    }
}

/// Parsing a function body: statements up to the closing keyword. A
/// malformed statement is recorded and the parser resynchronizes; a body
/// missing its closing keyword is reported, but what was parsed is still
/// returned so later stages can run.
pub open spec fn spec_block(ts: Seq<TokenV>, pos: int) -> PBlock
    decreases ts.len() - pos,
{
    let len = ts.len() as int;
    let p = skip_nl(ts, pos);
    let c = at(ts, p).kind;
    if c == TokenKind::End {
        PBlock { stmts: Seq::empty(), errs: Seq::empty(), pos: p }
    } else if c == TokenKind::EOF {
        PBlock {
            stmts: Seq::empty(),
            errs: seq![
                err_v(ErrorKind::SyntaxError, at(ts, p).span, "block is missing its closing keyword"@),
            ],
            pos: p,
        }
    } else {
        let st = spec_stmt(ts, p);
        match st.res {
            Result::Ok(s) => {
                let nxt = consumed(len, st.pos);
                let tgt = step_target(len, pos, nxt);
                if tgt > pos {
                    let rest = spec_block(ts, tgt);
                    PBlock { stmts: seq![s] + rest.stmts, errs: rest.errs, pos: rest.pos }
                } else {
                    // dead guard of the recursion
                    PBlock { stmts: seq![s], errs: Seq::empty(), pos: st.pos }
                }
            },
            Result::Err(e) => {
                let nxt = consumed(len, sync_pos(ts, st.pos));
                let tgt = step_target(len, pos, nxt);
                if tgt > pos {
                    let rest = spec_block(ts, tgt);
                    PBlock { stmts: rest.stmts, errs: seq![e] + rest.errs, pos: rest.pos }
                } else {
                    // dead guard of the recursion
                    PBlock { stmts: Seq::empty(), errs: seq![e], pos: st.pos }
                }
            },
        }
    }
}

/// Parsing a whole program: statements and function declarations until the
/// end of the stream, with per-statement recovery.
pub open spec fn spec_program(ts: Seq<TokenV>, pos: int) -> PBlock
    decreases ts.len() - pos,
{
    let len = ts.len() as int;
    let c = at(ts, pos).kind;
    if c == TokenKind::EOF {
        PBlock { stmts: Seq::empty(), errs: Seq::empty(), pos }
    } else if c == TokenKind::Function {
        let f = spec_stmt_function(ts, pos);
        match f.res {
            Result::Ok(s) => {
                let nxt = skip_nl(ts, consumed(len, f.pos));
                let tgt = step_target(len, pos, nxt);
                if tgt > pos {
                    let rest = spec_program(ts, tgt);
                    PBlock {
                        stmts: seq![s] + rest.stmts,
                        errs: f.errs + rest.errs,
                        pos: rest.pos,
                    }
                } else {
                    // dead guard of the recursion
                    PBlock { stmts: seq![s], errs: f.errs, pos: f.pos }
                }
            },
            Result::Err(e) => {
                let nxt = skip_nl(ts, consumed(len, sync_fn_pos(ts, f.pos)));
                let tgt = step_target(len, pos, nxt);
                if tgt > pos {
                    let rest = spec_program(ts, tgt);
                    PBlock {
                        stmts: rest.stmts,
                        errs: f.errs + seq![e] + rest.errs,
                        pos: rest.pos,
                    }
                } else {
                    // dead guard of the recursion
                    PBlock { stmts: Seq::empty(), errs: f.errs + seq![e], pos: f.pos }
                }
            },
        }
    } else {
        let st = spec_stmt(ts, pos);
        match st.res {
            Result::Ok(s) => {
                let nxt = skip_nl(ts, consumed(len, st.pos));
                let tgt = step_target(len, pos, nxt);
                if tgt > pos {
                    let rest = spec_program(ts, tgt);
                    PBlock { stmts: seq![s] + rest.stmts, errs: rest.errs, pos: rest.pos }
                } else {
                    // dead guard of the recursion
                    PBlock { stmts: seq![s], errs: Seq::empty(), pos: st.pos }
                }
            },
            Result::Err(e) => {
                let nxt = skip_nl(ts, consumed(len, sync_pos(ts, st.pos)));
                let tgt = step_target(len, pos, nxt);
                if tgt > pos {
                    let rest = spec_program(ts, tgt);
                    PBlock { stmts: rest.stmts, errs: seq![e] + rest.errs, pos: rest.pos }
                } else {
                    // dead guard of the recursion
                    PBlock { stmts: Seq::empty(), errs: seq![e], pos: st.pos }
                }
            },
        }
    }
}

} // verus!

verus! {

/// Images of a cons at the view level, used to stitch statement vectors
/// together.
proof fn lemma_stmts_view_cons(s: Seq<Stmt>, x: Stmt, t: Seq<Stmt>)
    requires
        s =~= seq![x] + t,
    ensures
        stmts_view(s) =~= seq![stmt_view(x)] + stmts_view(t),
{
    assert(s.len() == 1 + t.len());
    assert(s[0] == x);
    assert(s.subrange(1, s.len() as int) =~= t);
}

impl Parser {
    /// Parses a variable declaration from its `let` or `mut` keyword: the
    /// keyword fixes mutability, then come the name, an optional type
    /// annotation, `=`, and the initializer.
    fn stmt_variable(&mut self) -> (r: Result<Stmt, Error>)
        requires
            old(self).wf(),
        ensures
            final(self).wf(),
            old(self).cur() <= final(self).cur(),
            ({
                let m = spec_stmt_variable(old(self).toks(), old(self).cur());
                &&& old(self).steps_to(*final(self), m.pos)
                &&& match r {
                    Result::Ok(st) => m.res == Result::<StmtV, ErrorV>::Ok(st@),
                    Result::Err(er) => m.res == Result::<StmtV, ErrorV>::Err(er@),
                }
            }),
    {
        let ghost ts = self.toks();
        let ghost p0 = self.cur();
        let kw = self.current_owned();
        let mutable = kw.kind == TokenKind::Mut;
        match self.assert_next(TokenKind::Ident, "expected a variable name") {
            Result::Err(e) => {
                return Result::Err(e);
            },
            Result::Ok(()) => {},
        }
        let name_tok = self.current_owned();
        let mut typ: Option<Box<Expr>> = Option::None;
        if self.expect_next(TokenKind::Colon) {
            self.consume();
            match self.expr_literal() {
                Result::Ok(t) => {
                    typ = Option::Some(Box::new(t));
                },
                Result::Err(e) => {
                    return Result::Err(e);
                },
            }
        }
        match self.assert_next(TokenKind::Equal, "expected '=' in variable declaration") {
            Result::Err(e) => {
                return Result::Err(e);
            },
            Result::Ok(()) => {},
        }
        proof {
            lemma_skip_ge(ts, self.cur());
        }
        self.skip_next_newlines();
        self.consume();
        let value = match self.expr() {
            Result::Ok(v) => v,
            Result::Err(e) => {
                return Result::Err(e);
            },
        };
        let span = Span::new(kw.span.start, value.span.end);
        Result::Ok(
            Stmt::new(
                StmtKind::Variable { name: name_tok.lexeme, mutable, typ, value: Box::new(value) },
                span,
            ),
        )
    }

    /// Parses one statement: `let`/`mut` route to the variable declaration;
    /// any other expression is accepted as a statement only when it is an
    /// assignment. Every statement must reach a semicolon, newline or the
    /// end of the stream, and the cursor ends on that terminator.
    fn stmt(&mut self) -> (r: Result<Stmt, Error>)
        requires
            old(self).wf(),
        ensures
            final(self).wf(),
            old(self).cur() <= final(self).cur(),
            ({
                let m = spec_stmt(old(self).toks(), old(self).cur());
                &&& old(self).steps_to(*final(self), m.pos)
                &&& match r {
                    Result::Ok(st) => m.res == Result::<StmtV, ErrorV>::Ok(st@),
                    Result::Err(er) => m.res == Result::<StmtV, ErrorV>::Err(er@),
                }
            }),
    {
        let start_span = self.current().span;
        let c = self.current().kind;
        let st: Stmt = if c == TokenKind::Let || c == TokenKind::Mut {
            match self.stmt_variable() {
                Result::Ok(st) => st,
                Result::Err(e) => {
                    return Result::Err(e);
                },
            }
        } else {
            let e = match self.expr() {
                Result::Ok(e) => e,
                Result::Err(er) => {
                    return Result::Err(er);
                },
            };
            let is_assign = matches!(e.kind, ExprKind::Assignment { .. });
            if !is_assign {
                return Result::Err(
                    Error::new(
                        ErrorKind::SyntaxError,
                        start_span,
                        "expressions must be meaningful to exist on their own",
                        true,
                    ),
                );
            }
            let span = e.span;
            Stmt::new(StmtKind::Expression { expr: Box::new(e) }, span)
        };
        // look for the end of the statement
        let next = self.peek().kind;
        if next != TokenKind::Semicolon && next != TokenKind::Newline && next != TokenKind::EOF {
            return Result::Err(
                Error::new(
                    ErrorKind::SyntaxError,
                    self.current().span,
                    "expected ';' or a new line to complete the statement",
                    true,
                ),
            );
        }
        self.consume();
        Result::Ok(st)
    }
}

} // verus!

verus! {

impl Parser {
    /// Parses the typed parameter list of a function declaration, one
    /// `name: type` pair per round, ending on the closing parenthesis.
    fn parse_params(&mut self) -> (r: Result<Vec<Expr>, Error>)
        requires
            old(self).wf(),
        ensures
            final(self).wf(),
            old(self).cur() <= final(self).cur(),
            ({
                let m = spec_params_loop(old(self).toks(), old(self).cur());
                &&& old(self).steps_to(*final(self), m.pos)
                &&& match r {
                    Result::Ok(v) => m.res == Result::<Seq<ExprV>, ErrorV>::Ok(exprs_view(v@)),
                    Result::Err(er) => m.res == Result::<Seq<ExprV>, ErrorV>::Err(er@),
                }
            }),
        decreases self.toks().len() - self.cur(),
    {
        let ghost ts = self.toks();
        let ghost p0 = self.cur();
        let tk = self.current_owned();
        if tk.kind == TokenKind::RParen {
            let v: Vec<Expr> = Vec::new();
            proof {
                assert(exprs_view(v@) =~= Seq::<ExprV>::empty());
            }
            return Result::Ok(v);
        }
        match self.assert_current(TokenKind::Ident, "expected a parameter name") {
            Result::Err(e) => {
                return Result::Err(e);
            },
            Result::Ok(()) => {},
        }
        match self.assert_next(TokenKind::Colon, "expected ':' after the parameter name") {
            Result::Err(e) => {
                return Result::Err(e);
            },
            Result::Ok(()) => {},
        }
        self.consume();
        let ty = match self.expr() {
            Result::Ok(t) => t,
            Result::Err(e) => {
                return Result::Err(e);
            },
        };
        let span = Span::new(tk.span.start, ty.span.end);
        let param = Expr::new(ExprKind::Parameter { name: tk.lexeme, ty: Box::new(ty) }, span);
        let ghost e_pos = self.cur();
        if self.expect_next_ignore_newln(TokenKind::Comma) {
            proof {
                lemma_skip_ge(ts, e_pos);
                let q = skip_next_nl(ts, e_pos);
                if q + 1 >= ts.len() {
                    assert(peek_at(ts, q) == ts[ts.len() - 1]);
                    assert(false);
                }
            }
            self.consume();
            proof {
                assert(self.cur() > p0);
            }
            let rest = match self.parse_params() {
                Result::Ok(v) => v,
                Result::Err(e) => {
                    return Result::Err(e);
                },
            };
            let mut v = rest;
            let ghost rest_view = v@;
            v.insert(0, param);
            proof {
                lemma_exprs_view_cons(v@, param, rest_view);
            }
            return Result::Ok(v);
        }
        proof {
            lemma_skip_ge(ts, e_pos);
            lemma_skip_next_nl_fix(ts, e_pos);
        }
        match self.assert_next_ignore_newln(
            TokenKind::RParen,
            "expected ')' to close function parameters",
        ) {
            Result::Ok(()) => {
                let mut v: Vec<Expr> = Vec::new();
                v.push(param);
                proof {
                    lemma_exprs_view_cons(v@, param, Seq::<Expr>::empty());
                    assert(exprs_view(Seq::<Expr>::empty()) =~= Seq::<ExprV>::empty());
                    assert(exprs_view(v@) =~= seq![expr_view(param)]);
                }
                Result::Ok(v)
            },
            Result::Err(e) => Result::Err(e),
        }
    }

    /// Parses a function declaration from its keyword: name, parameter
    /// list, optional `->` return type, then the body up to its closing
    /// keyword. Diagnostics from inside the body land in the parser's
    /// buffer.
    fn stmt_function(&mut self) -> (r: Result<Stmt, Error>)
        requires
            old(self).wf(),
        ensures
            final(self).wf(),
            old(self).cur() <= final(self).cur(),
            final(self).toks() == old(self).toks(),
            ({
                let m = spec_stmt_function(old(self).toks(), old(self).cur());
                &&& final(self).cur() == m.pos
                &&& final(self).errs() =~= old(self).errs() + m.errs
                &&& match r {
                    Result::Ok(st) => m.res == Result::<StmtV, ErrorV>::Ok(st@),
                    Result::Err(er) => m.res == Result::<StmtV, ErrorV>::Err(er@),
                }
            }),
    {
        let ghost ts = self.toks();
        let ghost p0 = self.cur();
        match self.assert_next(TokenKind::Ident, "expected a function name") {
            Result::Err(e) => {
                proof {
                    assert(final(self).errs() =~= old(self).errs() + Seq::<ErrorV>::empty());
                }
                return Result::Err(e);
            },
            Result::Ok(()) => {},
        }
        let name_tok = self.current_owned();
        match self.assert_next(TokenKind::LParen, "expected '(' to begin function parameters") {
            Result::Err(e) => {
                proof {
                    assert(final(self).errs() =~= old(self).errs() + Seq::<ErrorV>::empty());
                }
                return Result::Err(e);
            },
            Result::Ok(()) => {},
        }
        self.consume();
        let params = match self.parse_params() {
            Result::Ok(v) => v,
            Result::Err(e) => {
                proof {
                    assert(final(self).errs() =~= old(self).errs() + Seq::<ErrorV>::empty());
                }
                return Result::Err(e);
            },
        };
        let mut ret: Option<Box<Expr>> = Option::None;
        let ghost pr_pos = self.cur();
        proof {
            lemma_skip_ge(ts, pr_pos);
        }
        if self.expect_next_ignore_newln(TokenKind::RArrow) {
            self.consume();
            match self.expr() {
                Result::Ok(t) => {
                    ret = Option::Some(Box::new(t));
                },
                Result::Err(e) => {
                    proof {
                        assert(final(self).errs() =~= old(self).errs() + Seq::<ErrorV>::empty());
                    }
                    return Result::Err(e);
                },
            }
        }
        self.consume();
        proof {
            lemma_skip_ge(ts, self.cur());
        }
        self.skip_newlines();
        let body = self.parse_block();
        let end = self.current().span.end;
        let span = Span::new(name_tok.span.start, end);
        Result::Ok(Stmt::new(StmtKind::Function { name: name_tok.lexeme, ret, params, body }, span))
    }

    /// Parses a function body up to its closing keyword. A malformed
    /// statement is recorded and the parser resynchronizes to the next
    /// statement boundary; a body missing its closing keyword is reported
    /// but the partially parsed body is still returned, so later stages can
    /// still run over it.
    #[verifier::rlimit(90)]
    fn parse_block(&mut self) -> (r: Vec<Stmt>)
        requires
            old(self).wf(),
        ensures
            final(self).wf(),
            old(self).cur() <= final(self).cur(),
            final(self).toks() == old(self).toks(),
            ({
                let m = spec_block(old(self).toks(), old(self).cur());
                &&& final(self).cur() == m.pos
                &&& final(self).errs() =~= old(self).errs() + m.errs
                &&& stmts_view(r@) =~= m.stmts
            }),
        decreases self.toks().len() - self.cur(),
    {
        let ghost ts = self.toks();
        let ghost p0 = self.cur();
        proof {
            lemma_skip_ge(ts, p0);
        }
        self.skip_newlines();
        let c = self.current().kind;
        if c == TokenKind::End {
            let v: Vec<Stmt> = Vec::new();
            proof {
                assert(stmts_view(v@) =~= Seq::<StmtV>::empty());
                assert(final(self).errs() =~= old(self).errs() + Seq::<ErrorV>::empty());
            }
            return v;
        }
        if c == TokenKind::EOF {
            let span = self.current().span;
            self.err(Error::new(ErrorKind::SyntaxError, span, "block is missing its closing keyword", true));
            let v: Vec<Stmt> = Vec::new();
            proof {
                assert(stmts_view(v@) =~= Seq::<StmtV>::empty());
            }
            return v;
        }
        let ghost p = self.cur();
        match self.stmt() {
            Result::Ok(s) => {
                proof {
                    assert(p < ts.len() - 1);
                }
                self.consume();
                proof {
                    assert(self.cur() > p0);
                }
                let rest = self.parse_block();
                let mut v = rest;
                let ghost rest_view = v@;
                v.insert(0, s);
                proof {
                    lemma_stmts_view_cons(v@, s, rest_view);
                }
                v
            },
            Result::Err(e) => {
                self.err(e);
                proof {
                    lemma_skip_ge(ts, self.cur());
                }
                self.sync();
                proof {
                    assert(p < ts.len() - 1);
                }
                self.consume();
                proof {
                    assert(self.cur() > p0);
                }
                self.parse_block()
            },
        }
    }

    /// Parses the whole program: statements and function declarations until
    /// the end of the stream. A failed function declaration resynchronizes
    /// to its closing keyword; a failed statement resynchronizes to the next
    /// statement boundary; parsing always reaches the end of the stream.
    fn parse_program(&mut self) -> (r: Vec<Stmt>)
        requires
            old(self).wf(),
        ensures
            final(self).wf(),
            old(self).cur() <= final(self).cur(),
            final(self).toks() == old(self).toks(),
            ({
                let m = spec_program(old(self).toks(), old(self).cur());
                &&& final(self).cur() == m.pos
                &&& final(self).errs() =~= old(self).errs() + m.errs
                &&& stmts_view(r@) =~= m.stmts
            }),
        decreases self.toks().len() - self.cur(), 1int,
    {
        let c = self.current().kind;
        if c == TokenKind::EOF {
            let v: Vec<Stmt> = Vec::new();
            proof {
                assert(stmts_view(v@) =~= Seq::<StmtV>::empty());
                assert(final(self).errs() =~= old(self).errs() + Seq::<ErrorV>::empty());
            }
            return v;
        }
        proof {
            assert(self.cur() < self.toks().len() - 1);
        }
        if c == TokenKind::Function {
            self.program_function()
        } else {
            self.program_statement()
        }
    }

    /// One top-level function declaration, then the rest of the program.
    #[verifier::rlimit(100)]
    fn program_function(&mut self) -> (r: Vec<Stmt>)
        requires
            old(self).wf(),
            at(old(self).toks(), old(self).cur()).kind == TokenKind::Function,
            old(self).cur() < old(self).toks().len() - 1,
        ensures
            final(self).wf(),
            old(self).cur() <= final(self).cur(),
            final(self).toks() == old(self).toks(),
            ({
                let m = spec_program(old(self).toks(), old(self).cur());
                &&& final(self).cur() == m.pos
                &&& final(self).errs() =~= old(self).errs() + m.errs
                &&& stmts_view(r@) =~= m.stmts
            }),
        decreases self.toks().len() - self.cur(), 0int,
    {
        let ghost ts = self.toks();
        let ghost p0 = self.cur();
        match self.stmt_function() {
            Result::Ok(s) => {
                self.consume();
                proof {
                    lemma_skip_ge(ts, self.cur());
                }
                self.skip_newlines();
                proof {
                    assert(self.cur() > p0);
                }
                let rest = self.parse_program();
                let mut v = rest;
                let ghost rest_view = v@;
                v.insert(0, s);
                proof {
                    lemma_stmts_view_cons(v@, s, rest_view);
                }
                v
            },
            Result::Err(e) => {
                self.err(e);
                proof {
                    lemma_skip_ge(ts, self.cur());
                }
                self.sync_after_fn();
                self.consume();
                proof {
                    lemma_skip_ge(ts, self.cur());
                }
                self.skip_newlines();
                proof {
                    assert(self.cur() > p0);
                }
                self.parse_program()
            },
        }
    }

    /// One top-level statement, then the rest of the program.
    #[verifier::rlimit(100)]
    fn program_statement(&mut self) -> (r: Vec<Stmt>)
        requires
            old(self).wf(),
            at(old(self).toks(), old(self).cur()).kind != TokenKind::Function,
            at(old(self).toks(), old(self).cur()).kind != TokenKind::EOF,
            old(self).cur() < old(self).toks().len() - 1,
        ensures
            final(self).wf(),
            old(self).cur() <= final(self).cur(),
            final(self).toks() == old(self).toks(),
            ({
                let m = spec_program(old(self).toks(), old(self).cur());
                &&& final(self).cur() == m.pos
                &&& final(self).errs() =~= old(self).errs() + m.errs
                &&& stmts_view(r@) =~= m.stmts
            }),
        decreases self.toks().len() - self.cur(), 0int,
    {
        let ghost ts = self.toks();
        let ghost p0 = self.cur();
        match self.stmt() {
            Result::Ok(s) => {
                self.consume();
                proof {
                    lemma_skip_ge(ts, self.cur());
                }
                self.skip_newlines();
                proof {
                    assert(self.cur() > p0);
                }
                let rest = self.parse_program();
                let mut v = rest;
                let ghost rest_view = v@;
                v.insert(0, s);
                proof {
                    lemma_stmts_view_cons(v@, s, rest_view);
                }
                v
            },
            Result::Err(e) => {
                self.err(e);
                proof {
                    lemma_skip_ge(ts, self.cur());
                }
                self.sync();
                self.consume();
                proof {
                    lemma_skip_ge(ts, self.cur());
                }
                self.skip_newlines();
                proof {
                    assert(self.cur() > p0);
                }
                self.parse_program()
            },
        }
    }

    /// Parses the entire token stream into a statement tree plus the
    /// diagnostic buffer. One malformed construct never aborts the run: the
    /// parser records it, resynchronizes and goes on.
    pub fn parse(&mut self) -> (r: (Vec<Stmt>, ErrorBuffer))
        requires
            old(self).wf(),
            old(self).errs() == Seq::<ErrorV>::empty(),
        ensures
            final(self).wf(),
            ({
                let m = spec_program(old(self).toks(), old(self).cur());
                &&& stmts_view(r.0@) =~= m.stmts
                &&& errs_v(r.1@) =~= m.errs
            }),
    {
        let ast = self.parse_program();
        let mut ebuffer: ErrorBuffer = Vec::new();
        core::mem::swap(&mut self.errors, &mut ebuffer);
        (ast, ebuffer)
    }
}

} // verus!

verus! {

// ----------------------------------------------------------------- \\
// LAWS OF THE GRAMMAR
// ----------------------------------------------------------------- \\

/// A statement is well-shaped when every expression statement in it wraps
/// an assignment, down through every function body.
pub open spec fn stmt_shape_ok(s: StmtV) -> bool
    decreases s,
{
    match s.kind {
        StmtKindV::Expression { expr } => expr.kind is Assignment,
        StmtKindV::Function { name, ret, params, body } => stmts_shape_ok(body),
        StmtKindV::Variable { .. } => true,
    }
}

/// A row of statements is well-shaped when each one is.
pub open spec fn stmts_shape_ok(ss: Seq<StmtV>) -> bool
    decreases ss,
{
    ss.len() == 0 || (stmt_shape_ok(ss[0]) && stmts_shape_ok(ss.subrange(1, ss.len() as int)))
}

/// A single parsed statement is well-shaped: a bare non-assignment
/// expression never becomes a statement.
pub proof fn lemma_stmt_shape(ts: Seq<TokenV>, pos: int)
    ensures
        match spec_stmt(ts, pos).res {
            Result::Ok(st) => stmt_shape_ok(st),
            Result::Err(e) => true,
        },
{
}

/// Every statement of a parsed function body is well-shaped.
pub proof fn lemma_block_shape(ts: Seq<TokenV>, pos: int)
    ensures
        stmts_shape_ok(spec_block(ts, pos).stmts),
    decreases ts.len() - pos,
{
    let len = ts.len() as int;
    let p = skip_nl(ts, pos);
    let c = at(ts, p).kind;
    if c == TokenKind::End || c == TokenKind::EOF {
    } else {
        let st = spec_stmt(ts, p);
        lemma_stmt_shape(ts, p);
        match st.res {
            Result::Ok(s) => {
                let tgt = step_target(len, pos, consumed(len, st.pos));
                if tgt > pos {
                    lemma_block_shape(ts, tgt);
                    let rest = spec_block(ts, tgt);
                    let whole = spec_block(ts, pos).stmts;
                    assert(whole == seq![s] + rest.stmts);
                    assert(whole[0] == s);
                    assert(whole.subrange(1, whole.len() as int) =~= rest.stmts);
                    assert(stmts_shape_ok(whole.subrange(1, whole.len() as int)));
                } else {
                    let whole = spec_block(ts, pos).stmts;
                    assert(whole == seq![s]);
                    assert(whole.subrange(1, 1) =~= Seq::<StmtV>::empty());
                    assert(stmts_shape_ok(whole.subrange(1, whole.len() as int)));
                }
            },
            Result::Err(e) => {
                let tgt = step_target(len, pos, consumed(len, sync_pos(ts, st.pos)));
                if tgt > pos {
                    lemma_block_shape(ts, tgt);
                }
            },
        }
    }
}

/// A parsed function declaration is well-shaped.
pub proof fn lemma_function_shape(ts: Seq<TokenV>, pos: int)
    ensures
        match spec_stmt_function(ts, pos).res {
            Result::Ok(st) => stmt_shape_ok(st),
            Result::Err(e) => true,
        },
{
    let len = ts.len() as int;
    if peek_at(ts, pos).kind == TokenKind::Ident {
        let p1 = consumed(len, pos);
        if peek_at(ts, p1).kind == TokenKind::LParen {
            let p3 = consumed(len, consumed(len, p1));
            let pr = spec_params_loop(ts, p3);
            match pr.res {
                Result::Ok(params) => {
                    let q = skip_next_nl(ts, pr.pos);
                    let has_ret = peek_at(ts, q).kind == TokenKind::RArrow;
                    let p5 = consumed(len, consumed(len, q));
                    let rt = spec_expr(ts, p5);
                    if !(has_ret && rt.res is Err) {
                        let p6 = if has_ret {
                            rt.pos
                        } else {
                            q
                        };
                        let p8 = skip_nl(ts, consumed(len, p6));
                        lemma_block_shape(ts, p8);
                    }
                },
                Result::Err(e) => {},
            }
        }
    }
}

/// The parser's structural law: everything a parse returns is well-shaped.
/// An expression is accepted as a statement only when it is an assignment,
/// at top level and inside every function body.
#[verifier::rlimit(100)]
pub proof fn theorem_parse_shape(ts: Seq<TokenV>, pos: int)
    ensures
        stmts_shape_ok(spec_program(ts, pos).stmts),
    decreases ts.len() - pos,
{
    let len = ts.len() as int;
    let c = at(ts, pos).kind;
    if c == TokenKind::EOF {
    } else if c == TokenKind::Function {
        let f = spec_stmt_function(ts, pos);
        lemma_function_shape(ts, pos);
        match f.res {
            Result::Ok(s) => {
                let tgt = step_target(len, pos, skip_nl(ts, consumed(len, f.pos)));
                if tgt > pos {
                    theorem_parse_shape(ts, tgt);
                    let rest = spec_program(ts, tgt);
                    let whole = spec_program(ts, pos).stmts;
                    assert(whole == seq![s] + rest.stmts);
                    assert(whole[0] == s);
                    assert(whole.subrange(1, whole.len() as int) =~= rest.stmts);
                    assert(stmts_shape_ok(whole.subrange(1, whole.len() as int)));
                } else {
                    let whole = spec_program(ts, pos).stmts;
                    assert(whole == seq![s]);
                    assert(whole.subrange(1, 1) =~= Seq::<StmtV>::empty());
                    assert(stmts_shape_ok(whole.subrange(1, whole.len() as int)));
                }
            },
            Result::Err(e) => {
                let tgt = step_target(len, pos, skip_nl(ts, consumed(len, sync_fn_pos(ts, f.pos))));
                if tgt > pos {
                    theorem_parse_shape(ts, tgt);
                }
            },
        }
    } else {
        let st = spec_stmt(ts, pos);
        lemma_stmt_shape(ts, pos);
        match st.res {
            Result::Ok(s) => {
                let tgt = step_target(len, pos, skip_nl(ts, consumed(len, st.pos)));
                if tgt > pos {
                    theorem_parse_shape(ts, tgt);
                    let rest = spec_program(ts, tgt);
                    let whole = spec_program(ts, pos).stmts;
                    assert(whole == seq![s] + rest.stmts);
                    assert(whole[0] == s);
                    assert(whole.subrange(1, whole.len() as int) =~= rest.stmts);
                    assert(stmts_shape_ok(whole.subrange(1, whole.len() as int)));
                } else {
                    let whole = spec_program(ts, pos).stmts;
                    assert(whole == seq![s]);
                    assert(whole.subrange(1, 1) =~= Seq::<StmtV>::empty());
                    assert(stmts_shape_ok(whole.subrange(1, whole.len() as int)));
                }
            },
            Result::Err(e) => {
                let tgt = step_target(len, pos, skip_nl(ts, consumed(len, sync_pos(ts, st.pos))));
                if tgt > pos {
                    theorem_parse_shape(ts, tgt);
                }
            },
        }
    }
}

} // verus!
