use vstd::prelude::*;
use crate::ast::{expr_view, stmt_view, Expr, ExprKind, ExprV, ExprKindV, Stmt, StmtKind, StmtV, StmtKindV};
use crate::errors::{err_v, Error, ErrorBuffer, ErrorKind, ErrorV};
use crate::lexer::errs_v;
use crate::scope::{primitive_of, stack_lookup, Symbol, SymbolTable, Type};

verus! {

/// The scope-stack model the resolver works over: one name-to-symbol map
/// per lexical level, innermost last.
pub type Env = Seq<Map<Seq<u8>, Symbol>>;

/// Which type a type annotation names; an unknown name means no type.
pub open spec fn spec_resolve_typename(name: Seq<u8>) -> Type {
    match primitive_of(name) {
        Option::Some(t) => t,
        Option::None => Type::Nil,
    }
}

/// The type of a type-annotation expression: it must be a bare identifier
/// naming a primitive type.
pub open spec fn spec_annotation_type(t: ExprV) -> Type {
    match t.kind {
        ExprKindV::Ident { name } => spec_resolve_typename(name),
        _ => Type::Nil,
    }
}

/// The resolver's typing rules, one case per expression shape:
/// - literals have their own type;
/// - an identifier must be declared, innermost scope first, else
///   `UnknownIdentifier`;
/// - an assignment needs a bare, declared, mutable identifier on the left
///   and a value of exactly the declared type;
/// - a binary operation over two equal types has that type; between an
///   integer and a float it widens to float, the one implicit coercion in
///   the whole type system; any other pairing is a `TypeMismatch`;
/// - a call types its callee and its arguments and yields no value.
pub open spec fn spec_resolve_expr(env: Env, e: ExprV) -> Result<Type, ErrorV>
    decreases e,
{
    match e.kind {
        ExprKindV::Integer { value } => Result::Ok(Type::Integer),
        ExprKindV::Float { text } => Result::Ok(Type::Float),
        ExprKindV::Str { value } => Result::Ok(Type::Str),
        ExprKindV::Boolean { value } => Result::Ok(Type::Boolean),
        ExprKindV::Ident { name } => match stack_lookup(env, name) {
            Option::Some(sym) => Result::Ok(sym.typ),
            Option::None => Result::Err(
                err_v(ErrorKind::UnknownIdentifier, e.span, "this identifier has not been declared"@),
            ),
        },
        ExprKindV::Assignment { assignee, value, op } => match assignee.kind {
            ExprKindV::Ident { name } => match stack_lookup(env, name) {
                Option::None => Result::Err(
                    err_v(
                        ErrorKind::UnknownIdentifier,
                        assignee.span,
                        "this identifier has not been declared"@,
                    ),
                ),
                Option::Some(sym) => {
                    if !sym.mutable {
                        Result::Err(
                            err_v(
                                ErrorKind::AssignToConstant,
                                e.span,
                                "cannot assign to a constant"@,
                            ),
                        )
                    } else {
                        match spec_resolve_expr(env, *value) {
                            Result::Err(er) => Result::Err(er),
                            Result::Ok(vt) => {
                                if vt != sym.typ {
                                    Result::Err(
                                        err_v(
                                            ErrorKind::TypeMismatch,
                                            value.span,
                                            "cannot assign a value of a different type"@,
                                        ),
                                    )
                                } else {
                                    Result::Ok(vt)
                                }
                            },
                        }
                    }
                },
            },
            _ => Result::Err(
                err_v(ErrorKind::SyntaxError, assignee.span, "cannot assign to a non-identifier"@),
            ),
        },
        ExprKindV::Binary { lhs, rhs, op } => match spec_resolve_expr(env, *lhs) {
            Result::Err(er) => Result::Err(er),
            Result::Ok(lt) => match spec_resolve_expr(env, *rhs) {
                Result::Err(er) => Result::Err(er),
                Result::Ok(rt) => {
                    if lt == rt {
                        Result::Ok(lt)
                    } else if (lt == Type::Integer && rt == Type::Float) || (lt == Type::Float
                        && rt == Type::Integer) {
                        Result::Ok(Type::Float)
                    } else {
                        Result::Err(
                            err_v(
                                ErrorKind::TypeMismatch,
                                e.span,
                                "these types are not compatible in binary operations"@,
                            ),
                        )
                    }
                },
            },
        },
        ExprKindV::Call { callee, args } => match spec_resolve_expr(env, *callee) {
            Result::Err(er) => Result::Err(er),
            Result::Ok(ct) => match spec_resolve_args(env, args) {
                Result::Err(er) => Result::Err(er),
                Result::Ok(()) => Result::Ok(Type::Nil),
            },
        },
        ExprKindV::Parameter { name, ty } => Result::Err(
            err_v(ErrorKind::SyntaxError, e.span, "a parameter belongs in a function declaration"@),
        ),
    }
}

/// Typing a row of call arguments, left to right; the first failure wins.
pub open spec fn spec_resolve_args(env: Env, args: Seq<ExprV>) -> Result<(), ErrorV>
    decreases args,
{
    if args.len() == 0 {
        Result::Ok(())
    } else {
        match spec_resolve_expr(env, args[0]) {
            Result::Err(er) => Result::Err(er),
            Result::Ok(t) => spec_resolve_args(env, args.subrange(1, args.len() as int)),
        }
    }
}

/// The scope stack after declaring the parameters of a function in its
/// fresh innermost scope: each parameter's annotated type, immutable.
pub open spec fn spec_declare_params(env: Env, params: Seq<ExprV>) -> Env
    decreases params.len(),
{
    if params.len() == 0 || env.len() == 0 {
        env
    } else {
        let env1 = match params[0].kind {
            ExprKindV::Parameter { name, ty } => env.update(
                env.len() - 1,
                env.last().insert(name, Symbol { typ: spec_annotation_type(*ty), mutable: false }),
            ),
            _ => env,
        };
        spec_declare_params(env1, params.subrange(1, params.len() as int))
    }
}

/// What resolving one statement does: the diagnostics it reports and the
/// scope stack it leaves behind.
pub struct RStep {
    pub errs: Seq<ErrorV>,
    pub env: Env,
}

/// The resolver's statement rules:
/// - a variable declaration types its initializer; a type annotation must
///   equal that type exactly (no coercion for annotations), and on success
///   the name is stored in the current scope with the declaration's
///   mutability;
/// - an expression statement just types its expression;
/// - a function declaration stores the function's name, then types its body
///   in a fresh scope holding the parameters, and pops that scope on exit.
/// A failure inside one statement unwinds that statement only.
pub open spec fn spec_resolve_stmt(env: Env, s: StmtV) -> RStep
    decreases s,
{
    if env.len() == 0 {
        RStep { errs: Seq::empty(), env }
    } else {
        match s.kind {
            StmtKindV::Variable { name, mutable, typ, value } => match spec_resolve_expr(
                env,
                *value,
            ) {
                Result::Err(er) => RStep { errs: seq![er], env },
                Result::Ok(vt) => {
                    let annotation_bad = match typ {
                        Option::Some(t) => spec_annotation_type(*t) != vt,
                        Option::None => false,
                    };
                    if annotation_bad {
                        RStep {
                            errs: seq![
                                err_v(
                                    ErrorKind::TypeMismatch,
                                    value.span,
                                    "the declared type does not match the initializer"@,
                                ),
                            ],
                            env,
                        }
                    } else {
                        RStep {
                            errs: Seq::empty(),
                            env: env.update(
                                env.len() - 1,
                                env.last().insert(name, Symbol { typ: vt, mutable }),
                            ),
                        }
                    }
                },
            },
            StmtKindV::Expression { expr } => match spec_resolve_expr(env, *expr) {
                Result::Err(er) => RStep { errs: seq![er], env },
                Result::Ok(t) => RStep { errs: Seq::empty(), env },
            },
            StmtKindV::Function { name, ret, params, body } => {
                let env1 = env.update(
                    env.len() - 1,
                    env.last().insert(name, Symbol { typ: Type::Function, mutable: false }),
                );
                let env2 = spec_declare_params(env1.push(Map::empty()), params);
                let inner = spec_resolve_stmts(env2, body);
                RStep { errs: inner.errs, env: inner.env.drop_last() }
            },
        }
    }
}

/// Resolving a row of statements: statement by statement, appending each
/// statement's diagnostics and carrying the scope stack forward. A failure
/// in one statement never stops the next.
pub open spec fn spec_resolve_stmts(env: Env, ss: Seq<StmtV>) -> RStep
    decreases ss,
{
    if ss.len() == 0 {
        RStep { errs: Seq::empty(), env }
    } else {
        let first = spec_resolve_stmt(env, ss[0]);
        let rest = spec_resolve_stmts(first.env, ss.subrange(1, ss.len() as int));
        RStep { errs: first.errs + rest.errs, env: rest.env }
    }
}

/// Resolving a statement never changes how many scopes are on the stack.
pub proof fn lemma_resolve_stmt_len(env: Env, s: StmtV)
    ensures
        spec_resolve_stmt(env, s).env.len() == env.len(),
    decreases s,
{
    if env.len() > 0 {
        match s.kind {
            StmtKindV::Function { name, ret, params, body } => {
                let env1 = env.update(
                    env.len() - 1,
                    env.last().insert(name, Symbol { typ: Type::Function, mutable: false }),
                );
                lemma_declare_params_len(env1.push(Map::empty()), params);
                let env2 = spec_declare_params(env1.push(Map::empty()), params);
                lemma_resolve_stmts_len(env2, body);
            },
            _ => {},
        }
    }
}

/// Declaring parameters never changes how many scopes are on the stack.
pub proof fn lemma_declare_params_len(env: Env, params: Seq<ExprV>)
    ensures
        spec_declare_params(env, params).len() == env.len(),
    decreases params.len(),
{
    if params.len() > 0 && env.len() > 0 {
        let env1 = match params[0].kind {
            ExprKindV::Parameter { name, ty } => env.update(
                env.len() - 1,
                env.last().insert(name, Symbol { typ: spec_annotation_type(*ty), mutable: false }),
            ),
            _ => env,
        };
        lemma_declare_params_len(env1, params.subrange(1, params.len() as int));
    }
}

/// Resolving a row of statements never changes how many scopes are on the
/// stack.
pub proof fn lemma_resolve_stmts_len(env: Env, ss: Seq<StmtV>)
    ensures
        spec_resolve_stmts(env, ss).env.len() == env.len(),
    decreases ss,
{
    if ss.len() > 0 {
        lemma_resolve_stmt_len(env, ss[0]);
        lemma_resolve_stmts_len(spec_resolve_stmt(env, ss[0]).env, ss.subrange(1, ss.len() as int));
    }
}

} // verus!

verus! {

/// Walks the statement tree, assigns a primitive type to every expression,
/// and enforces the declaration, mutability and coercion rules over a stack
/// of lexical scopes. Resolution proceeds statement by statement: a failure
/// in one statement is recorded and resolution continues with the next.
pub struct Resolver {
    symbols: SymbolTable,
}

impl Resolver {
    /// The scope stack as mathematics.
    pub closed spec fn env(self) -> Env {
        self.symbols@
    }

    /// The global scope is always there.
    pub open spec fn wf(self) -> bool {
        self.env().len() >= 1
    }

    /// A resolver holding only the empty global scope.
    pub fn new() -> (r: Resolver)
        ensures
            r.env() =~= seq![Map::<Seq<u8>, Symbol>::empty()],
            r.wf(),
    {
        Resolver { symbols: SymbolTable::new() }
    }

    /// Looks a name up across the scope stack, innermost first.
    fn lookup(&self, name: &Vec<u8>) -> (r: Option<Symbol>)
        ensures
            r == stack_lookup(self.env(), name@),
    {
        self.symbols.lookup(name)
    }

    /// Declares a name in the current scope.
    fn push(&mut self, name: &Vec<u8>, sym: Symbol)
        requires
            old(self).wf(),
        ensures
            final(self).wf(),
            final(self).env() =~= old(self).env().update(
                old(self).env().len() - 1,
                old(self).env().last().insert(name@, sym),
            ),
    {
        self.symbols.store_local(name, sym);
    }

    /// Which type a type annotation names; an unknown name means no type.
    pub fn resolve_typename(name: &Vec<u8>) -> (t: Type)
        ensures
            t == spec_resolve_typename(name@),
    {
        match Type::get_primitive_from_ident(name) {
            Option::Some(t) => t,
            Option::None => Type::Nil,
        }
    }

    /// Types one expression against the scope stack, exactly as the ghost
    /// typing rules say.
    fn resolve_expr(&self, e: &Expr) -> (r: Result<Type, Error>)
        ensures
            match r {
                Result::Ok(t) => spec_resolve_expr(self.env(), e@) == Result::<Type, ErrorV>::Ok(t),
                Result::Err(er) => spec_resolve_expr(self.env(), e@) == Result::<Type, ErrorV>::Err(
                    er@,
                ),
            },
        decreases e,
    {
        proof {
            reveal_with_fuel(expr_view, 3);
        }
        match &e.kind {
            ExprKind::Integer { value } => Result::Ok(Type::Integer),
            ExprKind::Float { text } => Result::Ok(Type::Float),
            ExprKind::Str { value } => Result::Ok(Type::Str),
            ExprKind::Boolean { value } => Result::Ok(Type::Boolean),
            ExprKind::Ident { name } => match self.lookup(name) {
                Option::Some(sym) => Result::Ok(sym.typ),
                Option::None => Result::Err(
                    Error::new(
                        ErrorKind::UnknownIdentifier,
                        e.span,
                        "this identifier has not been declared",
                        true,
                    ),
                ),
            },
            ExprKind::Assignment { assignee, value, op } => match &assignee.kind {
                ExprKind::Ident { name } => match self.lookup(name) {
                    Option::None => Result::Err(
                        Error::new(
                            ErrorKind::UnknownIdentifier,
                            assignee.span,
                            "this identifier has not been declared",
                            true,
                        ),
                    ),
                    Option::Some(sym) => {
                        if !sym.mutable {
                            Result::Err(
                                Error::new(
                                    ErrorKind::AssignToConstant,
                                    e.span,
                                    "cannot assign to a constant",
                                    true,
                                ),
                            )
                        } else {
                            match self.resolve_expr(value) {
                                Result::Err(er) => Result::Err(er),
                                Result::Ok(vt) => {
                                    if vt != sym.typ {
                                        Result::Err(
                                            Error::new(
                                                ErrorKind::TypeMismatch,
                                                value.span,
                                                "cannot assign a value of a different type",
                                                true,
                                            ),
                                        )
                                    } else {
                                        Result::Ok(vt)
                                    }
                                },
                            }
                        }
                    },
                },
                _ => Result::Err(
                    Error::new(
                        ErrorKind::SyntaxError,
                        assignee.span,
                        "cannot assign to a non-identifier",
                        true,
                    ),
                ),
            },
            ExprKind::Binary { lhs, rhs, op } => {
                let lt = match self.resolve_expr(lhs) {
                    Result::Ok(t) => t,
                    Result::Err(er) => {
                        return Result::Err(er);
                    },
                };
                let rt = match self.resolve_expr(rhs) {
                    Result::Ok(t) => t,
                    Result::Err(er) => {
                        return Result::Err(er);
                    },
                };
                if lt == rt {
                    Result::Ok(lt)
                } else if (lt == Type::Integer && rt == Type::Float) || (lt == Type::Float && rt
                    == Type::Integer) {
                    Result::Ok(Type::Float)
                } else {
                    Result::Err(
                        Error::new(
                            ErrorKind::TypeMismatch,
                            e.span,
                            "these types are not compatible in binary operations",
                            true,
                        ),
                    )
                }
            },
            ExprKind::Call { callee, args } => {
                match self.resolve_expr(callee) {
                    Result::Ok(t) => t,
                    Result::Err(er) => {
                        return Result::Err(er);
                    },
                };
                let ghost args_v = crate::ast::exprs_view(args@);
                proof {
                    crate::ast::lemma_exprs_view_parts(args@);
                }
                let mut i: usize = 0;
                proof {
                    assert(args_v.skip(0) =~= args_v);
                }
                while i < args.len()
                    invariant
                        i <= args@.len(),
                        args_v.len() == args@.len(),
                        forall|j: int| 0 <= j < args@.len() ==> args_v[j] == expr_view(args@[j]),
                        spec_resolve_args(self.env(), args_v) == spec_resolve_args(
                            self.env(),
                            args_v.skip(i as int),
                        ),
                    decreases args@.len() - i,
                {
                    proof {
                        assert(args_v.skip(i as int)[0] == args_v[i as int]);
                        assert(args_v.skip(i as int).subrange(
                            1,
                            args_v.skip(i as int).len() as int,
                        ) =~= args_v.skip(i + 1));
                    }
                    match self.resolve_expr(&args[i]) {
                        Result::Ok(t) => {},
                        Result::Err(er) => {
                            return Result::Err(er);
                        },
                    }
                    i = i + 1;
                }
                proof {
                    assert(args_v.skip(args@.len() as int) =~= Seq::<ExprV>::empty());
                }
                Result::Ok(Type::Nil)
            },
            ExprKind::Parameter { name, ty } => Result::Err(
                Error::new(
                    ErrorKind::SyntaxError,
                    e.span,
                    "a parameter belongs in a function declaration",
                    true,
                ),
            ),
        }
    }

    /// Resolves one statement, exactly as the ghost statement rules say: the
    /// diagnostics come back, and the scope stack moves forward.
    fn resolve_stmt(&mut self, s: &Stmt) -> (r: ErrorBuffer)
        requires
            old(self).wf(),
        ensures
            final(self).wf(),
            ({
                let m = spec_resolve_stmt(old(self).env(), s@);
                &&& errs_v(r@) =~= m.errs
                &&& final(self).env() =~= m.env
            }),
        decreases s,
    {
        match &s.kind {
            StmtKind::Variable { name, mutable, typ, value } => {
                let vt = match self.resolve_expr(value) {
                    Result::Ok(t) => t,
                    Result::Err(er) => {
                        let mut out: ErrorBuffer = Vec::new();
                        out.push(er);
                        proof {
                            assert(errs_v(out@) =~= seq![er@]);
                        }
                        return out;
                    },
                };
                let annotation_bad = match typ {
                    Option::Some(t) => {
                        let at_ = match &t.kind {
                            ExprKind::Ident { name } => Self::resolve_typename(name),
                            _ => Type::Nil,
                        };
                        at_ != vt
                    },
                    Option::None => false,
                };
                if annotation_bad {
                    let mut out: ErrorBuffer = Vec::new();
                    out.push(
                        Error::new(
                            ErrorKind::TypeMismatch,
                            value.span,
                            "the declared type does not match the initializer",
                            true,
                        ),
                    );
                    proof {
                        assert(errs_v(out@) =~= seq![
                            err_v(
                                ErrorKind::TypeMismatch,
                                value.span,
                                "the declared type does not match the initializer"@,
                            ),
                        ]);
                    }
                    return out;
                }
                self.push(name, Symbol { typ: vt, mutable: *mutable });
                let out: ErrorBuffer = Vec::new();
                proof {
                    assert(errs_v(out@) =~= Seq::<ErrorV>::empty());
                }
                out
            },
            StmtKind::Expression { expr } => match self.resolve_expr(expr) {
                Result::Err(er) => {
                    let mut out: ErrorBuffer = Vec::new();
                    out.push(er);
                    proof {
                        assert(errs_v(out@) =~= seq![er@]);
                    }
                    out
                },
                Result::Ok(t) => {
                    let out: ErrorBuffer = Vec::new();
                    proof {
                        assert(errs_v(out@) =~= Seq::<ErrorV>::empty());
                    }
                    out
                },
            },
            StmtKind::Function { name, ret, params, body } => {
                self.push(name, Symbol { typ: Type::Function, mutable: false });
                self.symbols.step_into();
                // the parameters live in the fresh scope, immutable
                let ghost params_v = crate::ast::exprs_view(params@);
                let ghost env_pushed = self.env();
                proof {
                    crate::ast::lemma_exprs_view_parts(params@);
                }
                let mut i: usize = 0;
                proof {
                    assert(params_v.skip(0) =~= params_v);
                }
                while i < params.len()
                    invariant
                        i <= params@.len(),
                        params_v.len() == params@.len(),
                        forall|j: int| 0 <= j < params@.len() ==> params_v[j] == expr_view(
                            params@[j],
                        ),
                        self.env().len() == env_pushed.len() >= 2,
                        spec_declare_params(env_pushed, params_v) == spec_declare_params(
                            self.env(),
                            params_v.skip(i as int),
                        ),
                    decreases params@.len() - i,
                {
                    proof {
                        assert(params_v.skip(i as int)[0] == params_v[i as int]);
                        assert(params_v.skip(i as int).subrange(
                            1,
                            params_v.skip(i as int).len() as int,
                        ) =~= params_v.skip(i + 1));
                    }
                    let ghost env_prev = self.env();
                    match &params[i].kind {
                        ExprKind::Parameter { name, ty } => {
                            let pt = match &ty.kind {
                                ExprKind::Ident { name: n } => Self::resolve_typename(n),
                                _ => Type::Nil,
                            };
                            self.symbols.store_local(name, Symbol { typ: pt, mutable: false });
                            proof {
                                assert(self.env() =~= env_prev.update(
                                    env_prev.len() - 1,
                                    env_prev.last().insert(
                                        name@,
                                        Symbol {
                                            typ: spec_annotation_type(expr_view(**ty)),
                                            mutable: false,
                                        },
                                    ),
                                ));
                            }
                        },
                        _ => {},
                    }
                    proof {
                        assert(spec_declare_params(env_prev, params_v.skip(i as int))
                            == spec_declare_params(self.env(), params_v.skip(i + 1)));
                    }
                    i = i + 1;
                }
                proof {
                    assert(params_v.skip(params@.len() as int) =~= Seq::<ExprV>::empty());
                }
                // the body, statement by statement with local recovery
                let ghost body_v = crate::ast::stmts_view(body@);
                let ghost env_params = self.env();
                proof {
                    crate::ast::lemma_stmts_view_parts(body@);
                }
                let mut errs: ErrorBuffer = Vec::new();
                let mut k: usize = 0;
                proof {
                    assert(errs_v(errs@) =~= Seq::<ErrorV>::empty());
                    assert(body_v.skip(0) =~= body_v);
                    assert(errs_v(errs@) + spec_resolve_stmts(self.env(), body_v).errs
                        =~= spec_resolve_stmts(self.env(), body_v).errs);
                }
                while k < body.len()
                    invariant
                        k <= body@.len(),
                        body_v.len() == body@.len(),
                        forall|j: int| 0 <= j < body@.len() ==> body_v[j] == stmt_view(body@[j]),
                        self.env().len() >= 2,
                        errs_v(errs@) + spec_resolve_stmts(self.env(), body_v.skip(k as int)).errs
                            =~= spec_resolve_stmts(env_params, body_v).errs,
                        spec_resolve_stmts(self.env(), body_v.skip(k as int)).env
                            =~= spec_resolve_stmts(env_params, body_v).env,
                    decreases body@.len() - k,
                {
                    proof {
                        assert(body_v.skip(k as int)[0] == body_v[k as int]);
                        assert(body_v.skip(k as int).subrange(
                            1,
                            body_v.skip(k as int).len() as int,
                        ) =~= body_v.skip(k + 1));
                        lemma_resolve_stmt_len(self.env(), body_v[k as int]);
                    }
                    let ghost errs_pre = errs@;
                    let mut stmt_errs = self.resolve_stmt(&body[k]);
                    let ghost se = stmt_errs@;
                    errs.append(&mut stmt_errs);
                    proof {
                        assert(errs_v(errs@) =~= errs_v(errs_pre) + errs_v(se));
                    }
                    k = k + 1;
                }
                proof {
                    assert(body_v.skip(body@.len() as int) =~= Seq::<StmtV>::empty());
                    lemma_resolve_stmts_len(env_params, body_v);
                }
                self.symbols.step_out();
                errs
            },
        }
    }

    /// Resolves a whole program against a fresh global scope, statement by
    /// statement: every diagnostic is collected and a failure in one
    /// statement never silences the next.
    pub fn resolve(&mut self, stmts: &Vec<Stmt>) -> (r: ErrorBuffer)
        requires
            old(self).wf(),
        ensures
            final(self).wf(),
            ({
                let m = spec_resolve_stmts(old(self).env(), crate::ast::stmts_view(stmts@));
                &&& errs_v(r@) =~= m.errs
                &&& final(self).env() =~= m.env
            }),
    {
        let ghost sv = crate::ast::stmts_view(stmts@);
        let ghost env0 = self.env();
        proof {
            crate::ast::lemma_stmts_view_parts(stmts@);
        }
        let mut errs: ErrorBuffer = Vec::new();
        let mut k: usize = 0;
        proof {
            assert(errs_v(errs@) =~= Seq::<ErrorV>::empty());
            assert(sv.skip(0) =~= sv);
            assert(errs_v(errs@) + spec_resolve_stmts(self.env(), sv).errs =~= spec_resolve_stmts(
                self.env(),
                sv,
            ).errs);
        }
        while k < stmts.len()
            invariant
                k <= stmts@.len(),
                sv.len() == stmts@.len(),
                forall|j: int| 0 <= j < stmts@.len() ==> sv[j] == stmt_view(stmts@[j]),
                self.wf(),
                errs_v(errs@) + spec_resolve_stmts(self.env(), sv.skip(k as int)).errs
                    =~= spec_resolve_stmts(env0, sv).errs,
                spec_resolve_stmts(self.env(), sv.skip(k as int)).env =~= spec_resolve_stmts(
                    env0,
                    sv,
                ).env,
            decreases stmts@.len() - k,
        {
            proof {
                assert(sv.skip(k as int)[0] == sv[k as int]);
                assert(sv.skip(k as int).subrange(1, sv.skip(k as int).len() as int) =~= sv.skip(
                    k + 1,
                ));
                lemma_resolve_stmt_len(self.env(), sv[k as int]);
            }
            let ghost errs_pre = errs@;
            let mut stmt_errs = self.resolve_stmt(&stmts[k]);
            let ghost se = stmt_errs@;
            errs.append(&mut stmt_errs);
            proof {
                assert(errs_v(errs@) =~= errs_v(errs_pre) + errs_v(se));
            }
            k = k + 1;
        }
        proof {
            assert(sv.skip(stmts@.len() as int) =~= Seq::<StmtV>::empty());
        }
        errs
    }
}

} // verus!

verus! {

// ----------------------------------------------------------------- \\
// LAWS OF THE TYPE SYSTEM
// ----------------------------------------------------------------- \\

/// For every pair of operand types, a binary operation between an integer
/// and a float resolves to float; between two equal types it resolves to
/// that type; and every other pairing is rejected with a type mismatch.
pub proof fn lemma_binary_operation_typing(
    env: Env,
    e: ExprV,
    lhs: ExprV,
    rhs: ExprV,
    op: crate::ast::Operator,
    t1: Type,
    t2: Type,
)
    requires
        e.kind == (ExprKindV::Binary { lhs: Box::new(lhs), rhs: Box::new(rhs), op }),
        spec_resolve_expr(env, lhs) == Result::<Type, ErrorV>::Ok(t1),
        spec_resolve_expr(env, rhs) == Result::<Type, ErrorV>::Ok(t2),
    ensures
        ((t1 == Type::Integer && t2 == Type::Float) || (t1 == Type::Float && t2
            == Type::Integer)) ==> spec_resolve_expr(env, e) == Result::<Type, ErrorV>::Ok(
            Type::Float,
        ),
        t1 == t2 ==> spec_resolve_expr(env, e) == Result::<Type, ErrorV>::Ok(t1),
        (t1 != t2 && !((t1 == Type::Integer && t2 == Type::Float) || (t1 == Type::Float && t2
            == Type::Integer))) ==> spec_resolve_expr(env, e) == Result::<Type, ErrorV>::Err(
            err_v(
                ErrorKind::TypeMismatch,
                e.span,
                "these types are not compatible in binary operations"@,
            ),
        ),
{
}

/// A scope stack extended by inner scopes that do not re-declare a name
/// still resolves that name to what the outer stack says.
pub proof fn lemma_lookup_through_inner_scopes(
    env: Env,
    inner: Seq<Map<Seq<u8>, Symbol>>,
    name: Seq<u8>,
)
    requires
        forall|i: int| 0 <= i < inner.len() ==> !inner[i].contains_key(name),
    ensures
        stack_lookup(env + inner, name) == stack_lookup(env, name),
    decreases inner.len(),
{
    if inner.len() == 0 {
        assert(env + inner =~= env);
    } else {
        assert((env + inner).last() == inner.last());
        assert((env + inner).drop_last() =~= env + inner.drop_last());
        assert(forall|i: int|
            0 <= i < inner.drop_last().len() ==> !inner.drop_last()[i].contains_key(name));
        lemma_lookup_through_inner_scopes(env, inner.drop_last(), name);
    }
}

/// Declaring a name without an annotation succeeds with the initializer's
/// resolved type, and reading that name afterwards yields that type in
/// every reachable inner scope that does not re-declare it.
pub proof fn lemma_declared_type_is_read(
    env: Env,
    name: Seq<u8>,
    mutable: bool,
    value: ExprV,
    t: Type,
    decl_span: crate::span::Span,
    inner: Seq<Map<Seq<u8>, Symbol>>,
    read: ExprV,
)
    requires
        env.len() >= 1,
        spec_resolve_expr(env, value) == Result::<Type, ErrorV>::Ok(t),
        forall|i: int| 0 <= i < inner.len() ==> !inner[i].contains_key(name),
        read.kind == (ExprKindV::Ident { name }),
    ensures
        ({
            let decl = StmtV {
                kind: StmtKindV::Variable {
                    name,
                    mutable,
                    typ: Option::None,
                    value: Box::new(value),
                },
                span: decl_span,
            };
            let step = spec_resolve_stmt(env, decl);
            &&& step.errs == Seq::<ErrorV>::empty()
            &&& spec_resolve_expr(step.env + inner, read) == Result::<Type, ErrorV>::Ok(t)
        }),
{
    let decl = StmtV {
        kind: StmtKindV::Variable { name, mutable, typ: Option::None, value: Box::new(value) },
        span: decl_span,
    };
    let step = spec_resolve_stmt(env, decl);
    let env1 = env.update(env.len() - 1, env.last().insert(name, Symbol { typ: t, mutable }));
    assert(step.env == env1);
    lemma_lookup_through_inner_scopes(env1, inner, name);
    assert((env1 + inner).len() > 0 || inner.len() == 0);
    assert(env1.last() == env.last().insert(name, Symbol { typ: t, mutable }));
    assert(env1.last().contains_key(name));
    assert(stack_lookup(env1, name) == Option::Some(Symbol { typ: t, mutable }));
}

/// Assigning to a name declared without the mutable flag always yields
/// an assign-to-constant error, whatever the assigned value is.
pub proof fn lemma_assign_to_constant(
    env: Env,
    e: ExprV,
    assignee: ExprV,
    value: ExprV,
    op: crate::ast::Operator,
    name: Seq<u8>,
    sym: Symbol,
)
    requires
        e.kind == (ExprKindV::Assignment {
            assignee: Box::new(assignee),
            value: Box::new(value),
            op,
        }),
        assignee.kind == (ExprKindV::Ident { name }),
        stack_lookup(env, name) == Option::Some(sym),
        !sym.mutable,
    ensures
        spec_resolve_expr(env, e) == Result::<Type, ErrorV>::Err(
            err_v(ErrorKind::AssignToConstant, e.span, "cannot assign to a constant"@),
        ),
{
}

/// Assigning to a name declared with the mutable flag a value of exactly
/// its declared type never raises: the assignment resolves to that type.
pub proof fn lemma_assign_matching_type_never_raises(
    env: Env,
    e: ExprV,
    assignee: ExprV,
    value: ExprV,
    op: crate::ast::Operator,
    name: Seq<u8>,
    sym: Symbol,
)
    requires
        e.kind == (ExprKindV::Assignment {
            assignee: Box::new(assignee),
            value: Box::new(value),
            op,
        }),
        assignee.kind == (ExprKindV::Ident { name }),
        stack_lookup(env, name) == Option::Some(sym),
        sym.mutable,
        spec_resolve_expr(env, value) == Result::<Type, ErrorV>::Ok(sym.typ),
    ensures
        spec_resolve_expr(env, e) == Result::<Type, ErrorV>::Ok(sym.typ),
{
}

/// Referencing an undeclared name always yields an unknown-identifier
/// error, whether the name is read or assigned to.
pub proof fn lemma_unknown_identifier(
    env: Env,
    e: ExprV,
    assign: ExprV,
    assignee: ExprV,
    value: ExprV,
    op: crate::ast::Operator,
    name: Seq<u8>,
)
    requires
        e.kind == (ExprKindV::Ident { name }),
        assign.kind == (ExprKindV::Assignment {
            assignee: Box::new(assignee),
            value: Box::new(value),
            op,
        }),
        assignee.kind == (ExprKindV::Ident { name }),
        stack_lookup(env, name) is None,
    ensures
        spec_resolve_expr(env, e) == Result::<Type, ErrorV>::Err(
            err_v(ErrorKind::UnknownIdentifier, e.span, "this identifier has not been declared"@),
        ),
        spec_resolve_expr(env, assign) == Result::<Type, ErrorV>::Err(
            err_v(
                ErrorKind::UnknownIdentifier,
                assignee.span,
                "this identifier has not been declared"@,
            ),
        ),
{
}

} // verus!
