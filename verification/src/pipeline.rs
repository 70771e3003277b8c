use vstd::prelude::*;
use crate::ast::Stmt;
use crate::errors::{Error, ErrorBuffer, ErrorV};
use crate::lexer::{errs_v, lemma_spec_lex_wf, spec_lex, toks_v, Lexer};
use crate::parser::{spec_program, Parser};

verus! {

/// The front end: source text in, statement tree and every diagnostic out.
/// The lexer runs to completion, then the parser consumes its tokens; the
/// diagnostics of both stages come back in order, lexing first.
pub fn front_end(source: Vec<u8>) -> (r: (Vec<Stmt>, ErrorBuffer))
    ensures
        ({
            let lexed = spec_lex(source@, 0);
            let parsed = spec_program(lexed.0, 0);
            &&& crate::ast::stmts_view(r.0@) =~= parsed.stmts
            &&& errs_v(r.1@) =~= lexed.1 + parsed.errs
        }),
{
    let ghost src = source@;
    let mut lexer = Lexer::new(source);
    let (tokens, mut errors) = lexer.lex();
    proof {
        lemma_spec_lex_wf(src, 0);
    }
    let mut parser = Parser::new(tokens);
    let (ast, mut parse_errors) = parser.parse();
    let ghost lex_errs = errors@;
    let ghost parse_errs = parse_errors@;
    errors.append(&mut parse_errors);
    proof {
        assert(errs_v(errors@) =~= errs_v(lex_errs) + errs_v(parse_errs));
    }
    (ast, errors)
}

} // verus!
