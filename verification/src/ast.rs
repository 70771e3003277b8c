use vstd::prelude::*;
use crate::span::Span;
use crate::token::TokenKind;

verus! {

/// Every operator the grammar knows, binary and assignment alike.
#[derive(Clone, Copy, Debug, PartialEq, Eq, Structural)]
pub enum Operator {
    // arithmetic operators
    Add,
    Sub,
    Mul,
    Div,
    Exp,
    Floor,
    // assignment operators
    Eq,
    AddEq,
    SubEq,
    MulEq,
    DivEq,
    ExpEq,
    FloorEq,
    // logical operators
    BitAnd,
    LogAnd,
    BitOr,
    LogOr,
    // comparison operators
    Lt,
    LtEq,
    Mt,
    MtEq,
    Bang,
    BangEq,
    EqEq,
}

/// Which binary operator a token stands for, if any.
pub open spec fn binary_op(tk: TokenKind) -> Option<Operator> {
    match tk {
        TokenKind::Plus => Option::Some(Operator::Add),
        TokenKind::Minus => Option::Some(Operator::Sub),
        TokenKind::Star => Option::Some(Operator::Mul),
        TokenKind::Slash => Option::Some(Operator::Div),
        TokenKind::StarStar => Option::Some(Operator::Exp),
        TokenKind::SlashSlash => Option::Some(Operator::Floor),
        TokenKind::PipePipe => Option::Some(Operator::LogOr),
        TokenKind::AmprsndAmprsnd => Option::Some(Operator::LogAnd),
        TokenKind::Less => Option::Some(Operator::Lt),
        TokenKind::LessEqual => Option::Some(Operator::LtEq),
        TokenKind::More => Option::Some(Operator::Mt),
        TokenKind::MoreEqual => Option::Some(Operator::MtEq),
        TokenKind::Bang => Option::Some(Operator::Bang),
        TokenKind::BangEqual => Option::Some(Operator::BangEq),
        TokenKind::EqualEqual => Option::Some(Operator::EqEq),
        _ => Option::None,
    }
}

/// Which assignment operator a token stands for, if any.
pub open spec fn assignment_op(tk: TokenKind) -> Option<Operator> {
    match tk {
        TokenKind::Equal => Option::Some(Operator::Eq),
        TokenKind::PlusEqual => Option::Some(Operator::AddEq),
        TokenKind::MinusEqual => Option::Some(Operator::SubEq),
        TokenKind::StarEqual => Option::Some(Operator::MulEq),
        TokenKind::SlashEqual => Option::Some(Operator::DivEq),
        TokenKind::StarStarEqual => Option::Some(Operator::ExpEq),
        TokenKind::SlashSlashEqual => Option::Some(Operator::FloorEq),
        _ => Option::None,
    }
}

impl Operator {
    /// The binary-operator table used by the expression parser.
    pub fn binary(tk: &TokenKind) -> (r: Option<Operator>)
        ensures
            r == binary_op(*tk),
    {
        match tk {
            TokenKind::Plus => Option::Some(Operator::Add),
            TokenKind::Minus => Option::Some(Operator::Sub),
            TokenKind::Star => Option::Some(Operator::Mul),
            TokenKind::Slash => Option::Some(Operator::Div),
            TokenKind::StarStar => Option::Some(Operator::Exp),
            TokenKind::SlashSlash => Option::Some(Operator::Floor),
            TokenKind::PipePipe => Option::Some(Operator::LogOr),
            TokenKind::AmprsndAmprsnd => Option::Some(Operator::LogAnd),
            TokenKind::Less => Option::Some(Operator::Lt),
            TokenKind::LessEqual => Option::Some(Operator::LtEq),
            TokenKind::More => Option::Some(Operator::Mt),
            TokenKind::MoreEqual => Option::Some(Operator::MtEq),
            TokenKind::Bang => Option::Some(Operator::Bang),
            TokenKind::BangEqual => Option::Some(Operator::BangEq),
            TokenKind::EqualEqual => Option::Some(Operator::EqEq),
            _ => Option::None,
        }
    }

    /// The assignment-operator table used by the expression parser.
    pub fn assignment(tk: &TokenKind) -> (r: Option<Operator>)
        ensures
            r == assignment_op(*tk),
    {
        match tk {
            TokenKind::Equal => Option::Some(Operator::Eq),
            TokenKind::PlusEqual => Option::Some(Operator::AddEq),
            TokenKind::MinusEqual => Option::Some(Operator::SubEq),
            TokenKind::StarEqual => Option::Some(Operator::MulEq),
            TokenKind::SlashEqual => Option::Some(Operator::DivEq),
            TokenKind::StarStarEqual => Option::Some(Operator::ExpEq),
            TokenKind::SlashSlashEqual => Option::Some(Operator::FloorEq),
            _ => Option::None,
        }
    }
}

/// One expression node; expressions own their sub-expressions exclusively.
#[derive(Debug)]
pub struct Expr {
    pub kind: ExprKind,
    pub span: Span,
}

/// The closed set of expression shapes. A float literal keeps its raw text:
/// no stage of the pipeline computes with its numeric value, only with its
/// type.
#[derive(Debug)]
pub enum ExprKind {
    Integer { value: i32 },
    Float { text: Vec<u8> },
    Str { value: Vec<u8> },
    Boolean { value: bool },
    Ident { name: Vec<u8> },
    Call { callee: Box<Expr>, args: Vec<Expr> },
    Assignment { assignee: Box<Expr>, value: Box<Expr>, op: Operator },
    Parameter { name: Vec<u8>, ty: Box<Expr> },
    Binary { lhs: Box<Expr>, rhs: Box<Expr>, op: Operator },
}

impl Expr {
    pub fn new(kind: ExprKind, span: Span) -> (e: Expr)
        ensures
            e == (Expr { kind, span }),
    {
        Expr { kind, span }
    }
}

/// One statement node.
#[derive(Debug)]
pub struct Stmt {
    pub kind: StmtKind,
    pub span: Span,
}

/// The closed set of statement shapes: variable declarations, function
/// declarations, and expression statements (which the parser only accepts
/// when the expression is an assignment).
#[derive(Debug)]
pub enum StmtKind {
    Variable { name: Vec<u8>, mutable: bool, typ: Option<Box<Expr>>, value: Box<Expr> },
    Function { name: Vec<u8>, ret: Option<Box<Expr>>, params: Vec<Expr>, body: Vec<Stmt> },
    Expression { expr: Box<Expr> },
}

impl Stmt {
    pub fn new(kind: StmtKind, span: Span) -> (s: Stmt)
        ensures
            s == (Stmt { kind, span }),
    {
        Stmt { kind, span }
    }
}

/// Ghost image of an expression node.
pub struct ExprV {
    pub kind: ExprKindV,
    pub span: Span,
}

/// Ghost image of an expression shape, with raw text as byte sequences.
pub enum ExprKindV {
    Integer { value: i32 },
    Float { text: Seq<u8> },
    Str { value: Seq<u8> },
    Boolean { value: bool },
    Ident { name: Seq<u8> },
    Call { callee: Box<ExprV>, args: Seq<ExprV> },
    Assignment { assignee: Box<ExprV>, value: Box<ExprV>, op: Operator },
    Parameter { name: Seq<u8>, ty: Box<ExprV> },
    Binary { lhs: Box<ExprV>, rhs: Box<ExprV>, op: Operator },
}

/// Ghost image of a statement node.
pub struct StmtV {
    pub kind: StmtKindV,
    pub span: Span,
}

/// Ghost image of a statement shape.
pub enum StmtKindV {
    Variable { name: Seq<u8>, mutable: bool, typ: Option<Box<ExprV>>, value: Box<ExprV> },
    Function { name: Seq<u8>, ret: Option<Box<ExprV>>, params: Seq<ExprV>, body: Seq<StmtV> },
    Expression { expr: Box<ExprV> },
}

/// The ghost images of a row of expression trees.
pub open spec fn exprs_view(s: Seq<Expr>) -> Seq<ExprV>
    decreases s,
{
    if s.len() == 0 {
        Seq::empty()
    } else {
        seq![expr_view(s[0])] + exprs_view(s.subrange(1, s.len() as int))
    }
}

/// The ghost images of a row of statement trees.
pub open spec fn stmts_view(s: Seq<Stmt>) -> Seq<StmtV>
    decreases s,
{
    if s.len() == 0 {
        Seq::empty()
    } else {
        seq![stmt_view(s[0])] + stmts_view(s.subrange(1, s.len() as int))
    }
}

/// The image of a row of expressions is the row of images.
pub proof fn lemma_exprs_view_parts(s: Seq<Expr>)
    ensures
        exprs_view(s).len() == s.len(),
        forall|i: int| 0 <= i < s.len() ==> exprs_view(s)[i] == expr_view(s[i]),
    decreases s,
{
    if s.len() > 0 {
        lemma_exprs_view_parts(s.subrange(1, s.len() as int));
    }
}

/// The image of a row of statements is the row of images.
pub proof fn lemma_stmts_view_parts(s: Seq<Stmt>)
    ensures
        stmts_view(s).len() == s.len(),
        forall|i: int| 0 <= i < s.len() ==> stmts_view(s)[i] == stmt_view(s[i]),
    decreases s,
{
    if s.len() > 0 {
        lemma_stmts_view_parts(s.subrange(1, s.len() as int));
    }
}

/// The ghost image of an expression tree.
pub open spec fn expr_view(e: Expr) -> ExprV
    decreases e,
{
    ExprV {
        span: e.span,
        kind: match e.kind {
            ExprKind::Integer { value } => ExprKindV::Integer { value },
            ExprKind::Float { text } => ExprKindV::Float { text: text@ },
            ExprKind::Str { value } => ExprKindV::Str { value: value@ },
            ExprKind::Boolean { value } => ExprKindV::Boolean { value },
            ExprKind::Ident { name } => ExprKindV::Ident { name: name@ },
            ExprKind::Call { callee, args } => ExprKindV::Call {
                callee: Box::new(expr_view(*callee)),
                args: exprs_view(args@),
            },
            ExprKind::Assignment { assignee, value, op } => ExprKindV::Assignment {
                assignee: Box::new(expr_view(*assignee)),
                value: Box::new(expr_view(*value)),
                op,
            },
            ExprKind::Parameter { name, ty } => ExprKindV::Parameter {
                name: name@,
                ty: Box::new(expr_view(*ty)),
            },
            ExprKind::Binary { lhs, rhs, op } => ExprKindV::Binary {
                lhs: Box::new(expr_view(*lhs)),
                rhs: Box::new(expr_view(*rhs)),
                op,
            },
        },
    }
}

/// The ghost image of a statement tree.
pub open spec fn stmt_view(s: Stmt) -> StmtV
    decreases s,
{
    StmtV {
        span: s.span,
        kind: match s.kind {
            StmtKind::Variable { name, mutable, typ, value } => StmtKindV::Variable {
                name: name@,
                mutable,
                typ: match typ {
                    Option::Some(t) => Option::Some(Box::new(expr_view(*t))),
                    Option::None => Option::None,
                },
                value: Box::new(expr_view(*value)),
            },
            StmtKind::Function { name, ret, params, body } => StmtKindV::Function {
                name: name@,
                ret: match ret {
                    Option::Some(t) => Option::Some(Box::new(expr_view(*t))),
                    Option::None => Option::None,
                },
                params: exprs_view(params@),
                body: stmts_view(body@),
            },
            StmtKind::Expression { expr } => StmtKindV::Expression {
                expr: Box::new(expr_view(*expr)),
            },
        },
    }
}

impl View for Expr {
    type V = ExprV;

    open spec fn view(&self) -> ExprV {
        expr_view(*self)
    }
}

impl View for Stmt {
    type V = StmtV;

    open spec fn view(&self) -> StmtV {
        stmt_view(*self)
    }
}

} // verus!
