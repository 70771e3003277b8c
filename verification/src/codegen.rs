use vstd::prelude::*;
use vstd::string::*;
use crate::ast::{stmt_view, stmts_view, Expr, ExprKind, ExprV, ExprKindV, Operator, Stmt,
    StmtKind, StmtV, StmtKindV};
use crate::span::Span;
use crate::token::{bytes_eq, copy_bytes};

verus! {

/// The register machine has this many registers; the pool never grows.
/// The bound is acceptable while the language has no loops or calls that
/// would make register pressure unbounded.
pub const MAX_REGISTERS: usize = 16;

/// One fixed-width register-machine instruction. After emission an
/// instruction references register indices only, never symbolic names.
#[derive(Clone, Copy, Debug, PartialEq, Eq, Structural)]
pub enum Instruction {
    /// `LDI R<dest> <value>`
    LoadInt(usize, i32),
    /// `ADD R<dest> R<lhs> R<rhs>`
    Add(usize, usize, usize),
    /// `SUB R<dest> R<lhs> R<rhs>`
    Sub(usize, usize, usize),
}

/// The compiler is fail-fast: any of these ends the whole run, unlike the
/// recoverable diagnostics of the earlier stages. Each carries the span of
/// the construct that caused it.
#[derive(Clone, Copy, Debug, PartialEq, Eq, Structural)]
pub enum CompileError {
    /// The tree reached the compiler with a construct it does not emit
    /// code for yet.
    UnsupportedConstruct(Span),
    /// A name was read before any declaration bound it to a register.
    UnboundIdentifier(Span),
    /// The register pool is exhausted; compilation cannot continue.
    OutOfRegisters(Span),
}

// ----------------------------------------------------------------- \\
// THE REGISTER POOL
// ----------------------------------------------------------------- \\

/// The lowest free slot at or after `i`, if any.
pub open spec fn first_free_from(regs: Seq<bool>, i: int) -> Option<int>
    decreases regs.len() - i,
{
    if i < 0 || i >= regs.len() {
        Option::None
    } else if !regs[i] {
        Option::Some(i)
    } else {
        first_free_from(regs, i + 1)
    }
}

/// The lowest free slot of the whole pool, if any.
pub open spec fn first_free(regs: Seq<bool>) -> Option<int> {
    first_free_from(regs, 0)
}

/// A fixed-capacity occupancy bitmap over the machine's registers. A
/// register index is a short-lived handle for a computed value's storage
/// slot.
pub struct RegisterAlloc {
    registers: Vec<bool>,
}

impl View for RegisterAlloc {
    type V = Seq<bool>;

    closed spec fn view(&self) -> Seq<bool> {
        self.registers@
    }
}

impl RegisterAlloc {
    /// The pool always holds exactly the machine's registers.
    pub open spec fn wf(&self) -> bool {
        self@.len() == MAX_REGISTERS
    }

    /// A pool with every register free.
    pub fn new() -> (r: RegisterAlloc)
        ensures
            r.wf(),
            r@ =~= Seq::new(MAX_REGISTERS as nat, |i: int| false),
    {
        let mut registers: Vec<bool> = Vec::new();
        let mut i: usize = 0;
        while i < MAX_REGISTERS
            invariant
                i <= MAX_REGISTERS,
                registers@.len() == i,
                forall|j: int| 0 <= j < i ==> !registers@[j],
            decreases MAX_REGISTERS - i,
        {
            registers.push(false);
            i = i + 1;
        }
        let r = RegisterAlloc { registers };
        proof {
            assert(r@ =~= Seq::new(MAX_REGISTERS as nat, |i: int| false));
        }
        r
    }

    /// Claims the lowest free register, or reports that none is left. The
    /// returned register was free, so a still-occupied slot is never handed
    /// out twice.
    pub fn allocate(&mut self) -> (r: Option<usize>)
        requires
            old(self).wf(),
        ensures
            final(self).wf(),
            match r {
                Option::Some(i) => {
                    &&& first_free(old(self)@) == Option::Some(i as int)
                    &&& i < MAX_REGISTERS
                    &&& !old(self)@[i as int]
                    &&& final(self)@ =~= old(self)@.update(i as int, true)
                },
                Option::None => {
                    &&& first_free(old(self)@) is None
                    &&& final(self)@ == old(self)@
                },
            },
    {
        let mut i: usize = 0;
        while i < MAX_REGISTERS
            invariant
                old(self).wf(),
                i <= MAX_REGISTERS,
                self == old(self),
                first_free(old(self)@) == first_free_from(old(self)@, i as int),
            decreases MAX_REGISTERS - i,
        {
            if !self.registers[i] {
                self.registers[i] = true;
                return Option::Some(i);
            }
            i = i + 1;
        }
        Option::None
    }

    /// Releases an occupied register. The pool refuses an index out of
    /// bounds and refuses to free a slot twice.
    pub fn free(&mut self, reg: usize)
        requires
            old(self).wf(),
            reg < MAX_REGISTERS,
            old(self)@[reg as int],
        ensures
            final(self).wf(),
            final(self)@ =~= old(self)@.update(reg as int, false),
    {
        self.registers[reg] = false;
    }
}

/// The register pool's law: allocation fails exactly when every slot is
/// occupied, and a successful allocation always hands out a slot that was
/// free beforehand.
pub proof fn lemma_register_pool(regs: Seq<bool>)
    ensures
        (first_free(regs) is None) <==> (forall|i: int| 0 <= i < regs.len() ==> regs[i]),
        first_free(regs) is Some ==> {
            let i = first_free(regs)->Some_0;
            &&& 0 <= i < regs.len()
            &&& !regs[i]
        },
{
    lemma_first_free_from(regs, 0);
}

proof fn lemma_first_free_from(regs: Seq<bool>, k: int)
    requires
        0 <= k,
    ensures
        (first_free_from(regs, k) is None) <==> (forall|i: int| k <= i < regs.len() ==> regs[i]),
        first_free_from(regs, k) is Some ==> {
            let i = first_free_from(regs, k)->Some_0;
            &&& k <= i < regs.len()
            &&& !regs[i]
        },
    decreases regs.len() - k,
{
    if k < regs.len() && regs[k] {
        lemma_first_free_from(regs, k + 1);
    }
}

// ----------------------------------------------------------------- \\
// THE NAME-TO-REGISTER BINDING TABLE
// ----------------------------------------------------------------- \\

/// `identifier` -> `register`. A read of a bound name is a table lookup,
/// not a copy: the same register serves every later read of that name.
pub struct Bindings {
    items: Vec<(Vec<u8>, usize)>,
}

/// The mapping a row of binding entries denotes: later entries win.
pub open spec fn bind_map(items: Seq<(Vec<u8>, usize)>) -> Map<Seq<u8>, usize>
    decreases items.len(),
{
    if items.len() == 0 {
        Map::empty()
    } else {
        bind_map(items.drop_last()).insert(items.last().0@, items.last().1)
    }
}

/// Association-list lookup, newest entry first.
pub open spec fn bind_assoc(items: Seq<(Vec<u8>, usize)>, id: Seq<u8>) -> Option<usize>
    decreases items.len(),
{
    if items.len() == 0 {
        Option::None
    } else if items.last().0@ == id {
        Option::Some(items.last().1)
    } else {
        bind_assoc(items.drop_last(), id)
    }
}

proof fn lemma_bind_assoc_is_map(items: Seq<(Vec<u8>, usize)>, id: Seq<u8>)
    ensures
        bind_assoc(items, id) == (if bind_map(items).contains_key(id) {
            Option::Some(bind_map(items)[id])
        } else {
            Option::<usize>::None
        }),
    decreases items.len(),
{
    if items.len() > 0 {
        lemma_bind_assoc_is_map(items.drop_last(), id);
    }
}

impl View for Bindings {
    type V = Map<Seq<u8>, usize>;

    closed spec fn view(&self) -> Map<Seq<u8>, usize> {
        bind_map(self.items@)
    }
}

impl Bindings {
    /// An empty table.
    pub fn new() -> (t: Bindings)
        ensures
            t@ == Map::<Seq<u8>, usize>::empty(),
    {
        Bindings { items: Vec::new() }
    }
}

/// Binds `name` to `register`, replacing any earlier binding.
pub fn store(table: &mut Bindings, name: &Vec<u8>, register: usize)
    ensures
        final(table)@ == old(table)@.insert(name@, register),
{
    let key = copy_bytes(name);
    table.items.push((key, register));
    proof {
        assert(table.items@.drop_last() =~= old(table).items@);
    }
}

/// Looks `name` up in the table.
pub fn get(table: &Bindings, name: &Vec<u8>) -> (r: Option<usize>)
    ensures
        r == (if table@.contains_key(name@) {
            Option::Some(table@[name@])
        } else {
            Option::<usize>::None
        }),
{
    proof {
        lemma_bind_assoc_is_map(table.items@, name@);
        assert(table.items@.subrange(0, table.items@.len() as int) =~= table.items@);
    }
    let mut i: usize = table.items.len();
    while i > 0
        invariant
            i <= table.items@.len(),
            bind_assoc(table.items@, name@) == bind_assoc(
                table.items@.subrange(0, i as int),
                name@,
            ),
        decreases i,
    {
        let entry = &table.items[i - 1];
        if bytes_eq(&entry.0, name) {
            proof {
                let pre = table.items@.subrange(0, i as int);
                assert(pre.last() == table.items@[i - 1]);
            }
            return Option::Some(entry.1);
        }
        proof {
            let pre = table.items@.subrange(0, i as int);
            assert(pre.drop_last() =~= table.items@.subrange(0, i - 1));
        }
        i = i - 1;
    }
    proof {
        assert(table.items@.subrange(0, 0) =~= Seq::<(Vec<u8>, usize)>::empty());
    }
    Option::None
}

} // verus!

verus! {

// ----------------------------------------------------------------- \\
// COMPILATION, AS MATHEMATICS
// ----------------------------------------------------------------- \\

/// The compiler's whole state: the instructions emitted so far, the
/// register pool's occupancy, and the name-to-register bindings.
pub struct CState {
    pub instrs: Seq<Instruction>,
    pub regs: Seq<bool>,
    pub binds: Map<Seq<u8>, usize>,
}

/// What compiling one expression yields: the register holding its value, or
/// the fatal condition that ended the run, plus the state left behind.
pub struct CExpr {
    pub res: Result<usize, CompileError>,
    pub st: CState,
}

/// The expression emitter:
/// - an integer literal claims a register and loads into it;
/// - an identifier reads its already-bound register — no copy;
/// - an addition or subtraction compiles both operands, claims a
///   destination and emits the operation;
/// - anything else is an unsupported construct, and running out of
///   registers is fatal.
pub open spec fn spec_compile_expr(st: CState, e: ExprV) -> CExpr
    decreases e,
{
    match e.kind {
        ExprKindV::Integer { value } => match first_free(st.regs) {
            Option::None => CExpr { res: Result::Err(CompileError::OutOfRegisters(e.span)), st },
            Option::Some(i) => CExpr {
                res: Result::Ok(i as usize),
                st: CState {
                    instrs: st.instrs.push(Instruction::LoadInt(i as usize, value)),
                    regs: st.regs.update(i, true),
                    binds: st.binds,
                },
            },
        },
        ExprKindV::Ident { name } => {
            if st.binds.contains_key(name) {
                CExpr { res: Result::Ok(st.binds[name]), st }
            } else {
                CExpr { res: Result::Err(CompileError::UnboundIdentifier(e.span)), st }
            }
        },
        ExprKindV::Binary { lhs, rhs, op } => {
            if op != Operator::Add && op != Operator::Sub {
                CExpr { res: Result::Err(CompileError::UnsupportedConstruct(e.span)), st }
            } else {
                let l = spec_compile_expr(st, *lhs);
                match l.res {
                    Result::Err(er) => l,
                    Result::Ok(lr) => {
                        let r = spec_compile_expr(l.st, *rhs);
                        match r.res {
                            Result::Err(er) => r,
                            Result::Ok(rr) => match first_free(r.st.regs) {
                                Option::None => CExpr {
                                    res: Result::Err(CompileError::OutOfRegisters(e.span)),
                                    st: r.st,
                                },
                                Option::Some(d) => CExpr {
                                    res: Result::Ok(d as usize),
                                    st: CState {
                                        instrs: r.st.instrs.push(
                                            if op == Operator::Add {
                                                Instruction::Add(d as usize, lr, rr)
                                            } else {
                                                Instruction::Sub(d as usize, lr, rr)
                                            },
                                        ),
                                        regs: r.st.regs.update(d, true),
                                        binds: r.st.binds,
                                    },
                                },
                            },
                        }
                    },
                }
            }
        },
        _ => CExpr { res: Result::Err(CompileError::UnsupportedConstruct(e.span)), st },
    }
}

/// What compiling one statement yields.
pub struct CStmt {
    pub res: Result<(), CompileError>,
    pub st: CState,
}

/// The statement emitter: a variable declaration compiles its initializer
/// and binds the resulting register to the declared name; every other
/// statement is an unsupported construct.
pub open spec fn spec_compile_stmt(st: CState, s: StmtV) -> CStmt {
    match s.kind {
        StmtKindV::Variable { name, mutable, typ, value } => {
            let c = spec_compile_expr(st, *value);
            match c.res {
                Result::Err(er) => CStmt { res: Result::Err(er), st: c.st },
                Result::Ok(reg) => CStmt {
                    res: Result::Ok(()),
                    st: CState {
                        instrs: c.st.instrs,
                        regs: c.st.regs,
                        binds: c.st.binds.insert(name, reg),
                    },
                },
            }
        },
        _ => CStmt { res: Result::Err(CompileError::UnsupportedConstruct(s.span)), st },
    }
}

/// The program emitter: statement by statement, fail-fast — the first
/// fatal condition ends the run.
pub open spec fn spec_compile_program(st: CState, ss: Seq<StmtV>) -> CStmt
    decreases ss,
{
    if ss.len() == 0 {
        CStmt { res: Result::Ok(()), st }
    } else {
        let first = spec_compile_stmt(st, ss[0]);
        match first.res {
            Result::Err(er) => first,
            Result::Ok(()) => spec_compile_program(first.st, ss.subrange(1, ss.len() as int)),
        }
    }
}

// ----------------------------------------------------------------- \\
// THE COMPILER
// ----------------------------------------------------------------- \\

/// Walks the (ideally resolver-validated) tree and emits a linear sequence
/// of register-machine instructions, using the bounded register pool and
/// the binding table. Unlike the earlier stages it is fail-fast: an
/// unsupported construct or an exhausted pool ends the whole run.
pub struct Compiler {
    instrs: Vec<Instruction>,
    allocator: RegisterAlloc,
    symbols: Bindings,
}

impl Compiler {
    /// The compiler's state as mathematics.
    pub closed spec fn st(self) -> CState {
        CState { instrs: self.instrs@, regs: self.allocator@, binds: self.symbols@ }
    }

    pub open spec fn wf(self) -> bool {
        self.st().regs.len() == MAX_REGISTERS
    }

    /// A fresh compiler: no instructions, every register free, no bindings.
    pub fn new() -> (c: Compiler)
        ensures
            c.wf(),
            c.st() == (CState {
                instrs: Seq::<Instruction>::empty(),
                regs: Seq::new(MAX_REGISTERS as nat, |i: int| false),
                binds: Map::<Seq<u8>, usize>::empty(),
            }),
    {
        let c = Compiler {
            instrs: Vec::new(),
            allocator: RegisterAlloc::new(),
            symbols: Bindings::new(),
        };
        proof {
            assert(c.st().instrs =~= Seq::<Instruction>::empty());
            assert(c.st().regs =~= Seq::new(MAX_REGISTERS as nat, |i: int| false));
        }
        c
    }

    /// Appends one instruction to the listing.
    fn emit(&mut self, instr: Instruction)
        ensures
            final(self).st() == (CState { instrs: old(self).st().instrs.push(instr), ..old(self).st() }),
            final(self).wf() == old(self).wf(),
    {
        self.instrs.push(instr);
        proof {
            assert(final(self).st().instrs =~= old(self).st().instrs.push(instr));
        }
    }

    /// Compiles one expression to the register holding its value, exactly
    /// as the ghost emitter says.
    fn compile_expr(&mut self, e: &Expr) -> (r: Result<usize, CompileError>)
        requires
            old(self).wf(),
        ensures
            final(self).wf(),
            ({
                let m = spec_compile_expr(old(self).st(), e@);
                &&& final(self).st() == m.st
                &&& match r {
                    Result::Ok(reg) => m.res == Result::<usize, CompileError>::Ok(reg),
                    Result::Err(er) => m.res == Result::<usize, CompileError>::Err(er),
                }
            }),
        decreases e,
    {
        match &e.kind {
            ExprKind::Integer { value } => {
                match self.allocator.allocate() {
                    Option::None => Result::Err(CompileError::OutOfRegisters(e.span)),
                    Option::Some(register) => {
                        self.emit(Instruction::LoadInt(register, *value));
                        proof {
                            assert(final(self).st().regs =~= old(self).st().regs.update(
                                register as int,
                                true,
                            ));
                        }
                        Result::Ok(register)
                    },
                }
            },
            ExprKind::Ident { name } => match get(&self.symbols, name) {
                Option::Some(register) => Result::Ok(register),
                Option::None => Result::Err(CompileError::UnboundIdentifier(e.span)),
            },
            ExprKind::Binary { lhs, rhs, op } => {
                let supported = matches!(op, Operator::Add | Operator::Sub);
                if !supported {
                    return Result::Err(CompileError::UnsupportedConstruct(e.span));
                }
                let lr = match self.compile_expr(lhs) {
                    Result::Ok(reg) => reg,
                    Result::Err(er) => {
                        return Result::Err(er);
                    },
                };
                let rr = match self.compile_expr(rhs) {
                    Result::Ok(reg) => reg,
                    Result::Err(er) => {
                        return Result::Err(er);
                    },
                };
                match self.allocator.allocate() {
                    Option::None => Result::Err(CompileError::OutOfRegisters(e.span)),
                    Option::Some(dest) => {
                        let is_add = matches!(op, Operator::Add);
                        if is_add {
                            self.emit(Instruction::Add(dest, lr, rr));
                        } else {
                            self.emit(Instruction::Sub(dest, lr, rr));
                        }
                        Result::Ok(dest)
                    },
                }
            },
            _ => Result::Err(CompileError::UnsupportedConstruct(e.span)),
        }
    }

    /// Compiles one statement, exactly as the ghost emitter says: a
    /// variable declaration binds its initializer's register to the name.
    fn compile_stmt(&mut self, s: &Stmt) -> (r: Result<(), CompileError>)
        requires
            old(self).wf(),
        ensures
            final(self).wf(),
            ({
                let m = spec_compile_stmt(old(self).st(), s@);
                &&& final(self).st() == m.st
                &&& match r {
                    Result::Ok(()) => m.res == Result::<(), CompileError>::Ok(()),
                    Result::Err(er) => m.res == Result::<(), CompileError>::Err(er),
                }
            }),
    {
        match &s.kind {
            StmtKind::Variable { name, mutable, typ, value } => {
                let register = match self.compile_expr(value) {
                    Result::Ok(reg) => reg,
                    Result::Err(er) => {
                        return Result::Err(er);
                    },
                };
                store(&mut self.symbols, name, register);
                Result::Ok(())
            },
            _ => Result::Err(CompileError::UnsupportedConstruct(s.span)),
        }
    }

    /// Compiles a whole program, fail-fast, exactly as the ghost emitter
    /// says.
    pub fn compile_program(&mut self, stmts: &Vec<Stmt>) -> (r: Result<(), CompileError>)
        requires
            old(self).wf(),
        ensures
            final(self).wf(),
            ({
                let m = spec_compile_program(old(self).st(), stmts_view(stmts@));
                &&& final(self).st() == m.st
                &&& match r {
                    Result::Ok(()) => m.res == Result::<(), CompileError>::Ok(()),
                    Result::Err(er) => m.res == Result::<(), CompileError>::Err(er),
                }
            }),
    {
        let ghost sv = stmts_view(stmts@);
        let ghost st0 = self.st();
        proof {
            crate::ast::lemma_stmts_view_parts(stmts@);
            assert(sv.skip(0) =~= sv);
        }
        let mut k: usize = 0;
        while k < stmts.len()
            invariant
                k <= stmts@.len(),
                sv.len() == stmts@.len(),
                forall|j: int| 0 <= j < stmts@.len() ==> sv[j] == stmt_view(stmts@[j]),
                self.wf(),
                spec_compile_program(st0, sv) == spec_compile_program(self.st(), sv.skip(k as int)),
            decreases stmts@.len() - k,
        {
            proof {
                assert(sv.skip(k as int)[0] == sv[k as int]);
                assert(sv.skip(k as int).subrange(1, sv.skip(k as int).len() as int) =~= sv.skip(
                    k + 1,
                ));
            }
            match self.compile_stmt(&stmts[k]) {
                Result::Ok(()) => {},
                Result::Err(er) => {
                    return Result::Err(er);
                },
            }
            k = k + 1;
        }
        proof {
            assert(sv.skip(stmts@.len() as int) =~= Seq::<StmtV>::empty());
        }
        Result::Ok(())
    }
}

} // verus!

verus! {

// ----------------------------------------------------------------- \\
// THE TEXTUAL ENCODING
// ----------------------------------------------------------------- \\

/// The decimal digit character for one digit value.
pub open spec fn digit_char(d: nat) -> char {
    if d == 0 {
        '0'
    } else if d == 1 {
        '1'
    } else if d == 2 {
        '2'
    } else if d == 3 {
        '3'
    } else if d == 4 {
        '4'
    } else if d == 5 {
        '5'
    } else if d == 6 {
        '6'
    } else if d == 7 {
        '7'
    } else if d == 8 {
        '8'
    } else {
        '9'
    }
}

/// The decimal rendering of a nonnegative number, most significant digit
/// first.
pub open spec fn dec_text(n: nat) -> Seq<char>
    decreases n,
{
    if n < 10 {
        seq![digit_char(n)]
    } else {
        dec_text(n / 10).push(digit_char(n % 10))
    }
}

/// The decimal rendering of a signed number.
pub open spec fn int_text(v: int) -> Seq<char> {
    if v < 0 {
        seq!['-'] + dec_text((-v) as nat)
    } else {
        dec_text(v as nat)
    }
}

/// The line an instruction is encoded as, newline included.
pub open spec fn spec_instr_text(i: Instruction) -> Seq<char> {
    match i {
        Instruction::LoadInt(d, v) => "LDI R"@ + dec_text(d as nat) + " "@ + int_text(v as int)
            + "\n"@,
        Instruction::Add(d, l, r) => "ADD R"@ + dec_text(d as nat) + " R"@ + dec_text(l as nat)
            + " R"@ + dec_text(r as nat) + "\n"@,
        Instruction::Sub(d, l, r) => "SUB R"@ + dec_text(d as nat) + " R"@ + dec_text(l as nat)
            + " R"@ + dec_text(r as nat) + "\n"@,
    }
}

/// The flat, line-oriented encoding of a whole listing: one instruction per
/// line.
pub open spec fn spec_encode(instrs: Seq<Instruction>) -> Seq<char>
    decreases instrs,
{
    if instrs.len() == 0 {
        Seq::empty()
    } else {
        spec_instr_text(instrs[0]) + spec_encode(instrs.subrange(1, instrs.len() as int))
    }
}

/// One digit as text.
fn digit_str(d: u64) -> (r: &'static str)
    requires
        d < 10,
    ensures
        r@ == seq![digit_char(d as nat)],
{
    proof {
        reveal_strlit("0");
        reveal_strlit("1");
        reveal_strlit("2");
        reveal_strlit("3");
        reveal_strlit("4");
        reveal_strlit("5");
        reveal_strlit("6");
        reveal_strlit("7");
        reveal_strlit("8");
        reveal_strlit("9");
    }
    if d == 0 {
        "0"
    } else if d == 1 {
        "1"
    } else if d == 2 {
        "2"
    } else if d == 3 {
        "3"
    } else if d == 4 {
        "4"
    } else if d == 5 {
        "5"
    } else if d == 6 {
        "6"
    } else if d == 7 {
        "7"
    } else if d == 8 {
        "8"
    } else {
        "9"
    }
}

/// Appends the decimal rendering of a nonnegative number.
fn push_dec(s: &mut String, n: u64)
    ensures
        final(s)@ == old(s)@ + dec_text(n as nat),
    decreases n,
{
    if n >= 10 {
        push_dec(s, n / 10);
    }
    let d = digit_str(n % 10);
    s.append(d);
}

/// Appends the decimal rendering of a signed 32-bit number.
fn push_int(s: &mut String, v: i32)
    ensures
        final(s)@ == old(s)@ + int_text(v as int),
{
    if v < 0 {
        proof {
            reveal_strlit("-");
        }
        s.append("-");
        let magnitude = (-(v as i64)) as u64;
        push_dec(s, magnitude);
    } else {
        push_dec(s, v as u64);
    }
}

impl Instruction {
    /// The line this instruction is encoded as, newline included:
    /// `LDI R<reg> <value>`, `ADD R<dest> R<lhs> R<rhs>` or
    /// `SUB R<dest> R<lhs> R<rhs>`.
    pub fn to_string(&self) -> (r: String)
        ensures
            r@ == spec_instr_text(*self),
    {
        let mut out = String::new();
        match self {
            Instruction::LoadInt(d, v) => {
                out.append("LDI R");
                push_dec(&mut out, *d as u64);
                out.append(" ");
                push_int(&mut out, *v);
                out.append("\n");
            },
            Instruction::Add(d, l, rr) => {
                out.append("ADD R");
                push_dec(&mut out, *d as u64);
                out.append(" R");
                push_dec(&mut out, *l as u64);
                out.append(" R");
                push_dec(&mut out, *rr as u64);
                out.append("\n");
            },
            Instruction::Sub(d, l, rr) => {
                out.append("SUB R");
                push_dec(&mut out, *d as u64);
                out.append(" R");
                push_dec(&mut out, *l as u64);
                out.append(" R");
                push_dec(&mut out, *rr as u64);
                out.append("\n");
            },
        }
        out
    }
}

impl Compiler {
    /// The full compile run: emits instructions for every statement,
    /// fail-fast, and on success encodes the listing as its line-oriented
    /// text, closed by a register-dump request and the exit line.
    pub fn compile(&mut self, stmts: &Vec<Stmt>) -> (r: Result<String, CompileError>)
        requires
            old(self).wf(),
        ensures
            final(self).wf(),
            ({
                let m = spec_compile_program(old(self).st(), stmts_view(stmts@));
                &&& final(self).st() == m.st
                &&& match r {
                    Result::Ok(text) => {
                        &&& m.res == Result::<(), CompileError>::Ok(())
                        &&& text@ == spec_encode(m.st.instrs) + "DUMP\nEXIT"@
                    },
                    Result::Err(er) => m.res == Result::<(), CompileError>::Err(er),
                }
            }),
    {
        match self.compile_program(stmts) {
            Result::Ok(()) => {},
            Result::Err(er) => {
                return Result::Err(er);
            },
        }
        let mut out = String::new();
        let ghost listing = self.st().instrs;
        proof {
            assert(listing.skip(0) =~= listing);
            assert(out@ + spec_encode(listing) =~= spec_encode(listing));
        }
        let mut k: usize = 0;
        while k < self.instrs.len()
            invariant
                k <= listing.len(),
                listing == self.st().instrs,
                out@ + spec_encode(listing.skip(k as int)) =~= spec_encode(listing),
            decreases listing.len() - k,
        {
            proof {
                assert(listing.skip(k as int)[0] == listing[k as int]);
                assert(listing.skip(k as int).subrange(1, listing.skip(k as int).len() as int)
                    =~= listing.skip(k + 1));
            }
            let line = self.instrs[k].to_string();
            out.append(line.as_str());
            k = k + 1;
        }
        proof {
            assert(listing.skip(listing.len() as int) =~= Seq::<Instruction>::empty());
        }
        out.append("DUMP\nEXIT");
        Result::Ok(out)
    }
}

} // verus!

verus! {

// ----------------------------------------------------------------- \\
// THE EMITTED CODE COMPUTES THE TREE'S VALUES
// ----------------------------------------------------------------- \\

/// One step of the register machine, over mathematical integers.
pub open spec fn run_instr(m: Seq<int>, i: Instruction) -> Seq<int> {
    match i {
        Instruction::LoadInt(d, v) => m.update(d as int, v as int),
        Instruction::Add(d, l, r) => m.update(d as int, m[l as int] + m[r as int]),
        Instruction::Sub(d, l, r) => m.update(d as int, m[l as int] - m[r as int]),
    }
}

/// Running a listing from a machine state, instruction by instruction.
pub open spec fn run(m: Seq<int>, instrs: Seq<Instruction>) -> Seq<int>
    decreases instrs,
{
    if instrs.len() == 0 {
        m
    } else {
        run(run_instr(m, instrs[0]), instrs.subrange(1, instrs.len() as int))
    }
}

/// Running a concatenation is running the parts in order.
pub proof fn lemma_run_concat(m: Seq<int>, a: Seq<Instruction>, b: Seq<Instruction>)
    ensures
        run(m, a + b) == run(run(m, a), b),
    decreases a,
{
    if a.len() == 0 {
        assert(a + b =~= b);
    } else {
        assert((a + b)[0] == a[0]);
        assert((a + b).subrange(1, (a + b).len() as int) =~= a.subrange(1, a.len() as int) + b);
        lemma_run_concat(run_instr(m, a[0]), a.subrange(1, a.len() as int), b);
    }
}

/// Running a single instruction.
pub proof fn lemma_run_one(m: Seq<int>, i: Instruction)
    ensures
        run(m, seq![i]) == run_instr(m, i),
{
    assert(seq![i].subrange(1, 1) =~= Seq::<Instruction>::empty());
    assert(run(run_instr(m, i), Seq::<Instruction>::empty()) == run_instr(m, i));
}

/// The value of an expression under a variable environment, when the
/// expression is in the compilable fragment: integer literals, bound
/// identifiers, addition and subtraction.
pub open spec fn eval_expr(venv: Map<Seq<u8>, int>, e: ExprV) -> Option<int>
    decreases e,
{
    match e.kind {
        ExprKindV::Integer { value } => Option::Some(value as int),
        ExprKindV::Ident { name } => if venv.contains_key(name) {
            Option::Some(venv[name])
        } else {
            Option::None
        },
        ExprKindV::Binary { lhs, rhs, op } => {
            if op == Operator::Add || op == Operator::Sub {
                match (eval_expr(venv, *lhs), eval_expr(venv, *rhs)) {
                    (Option::Some(a), Option::Some(b)) => Option::Some(
                        if op == Operator::Add {
                            a + b
                        } else {
                            a - b
                        },
                    ),
                    _ => Option::None,
                }
            } else {
                Option::None
            }
        },
        _ => Option::None,
    }
}

/// The variable environment after a row of declarations.
pub open spec fn eval_stmts(venv: Map<Seq<u8>, int>, ss: Seq<StmtV>) -> Option<Map<Seq<u8>, int>>
    decreases ss,
{
    if ss.len() == 0 {
        Option::Some(venv)
    } else {
        match ss[0].kind {
            StmtKindV::Variable { name, mutable, typ, value } => match eval_expr(venv, *value) {
                Option::Some(v) => eval_stmts(venv.insert(name, v), ss.subrange(1, ss.len() as int)),
                Option::None => Option::None,
            },
            _ => Option::None,
        }
    }
}

/// A compiler state is consistent when every bound name names an occupied
/// register of the pool.
pub open spec fn cstate_wf(st: CState) -> bool {
    &&& st.regs.len() == MAX_REGISTERS
    &&& forall|n: Seq<u8>| #[trigger] st.binds.contains_key(n) ==> st.binds[n] < MAX_REGISTERS
        && st.regs[st.binds[n] as int]
}

/// A machine state realizes a variable environment when every bound name's
/// register holds that variable's value.
pub open spec fn agrees(m: Seq<int>, binds: Map<Seq<u8>, usize>, venv: Map<Seq<u8>, int>) -> bool {
    forall|n: Seq<u8>| #[trigger] binds.contains_key(n) ==> venv.contains_key(n) && binds[n]
        < m.len() && m[binds[n] as int] == venv[n]
}

/// The compiled code is correct: when the emitter accepts an expression,
/// the expression has a value, and running exactly the newly emitted
/// instructions on any machine that realizes the bindings leaves that value
/// in the returned register while every already-occupied register keeps its
/// contents.
pub proof fn theorem_compile_expr_correct(
    st: CState,
    e: ExprV,
    venv: Map<Seq<u8>, int>,
    m: Seq<int>,
)
    requires
        cstate_wf(st),
        m.len() == MAX_REGISTERS,
        agrees(m, st.binds, venv),
    ensures
        ({
            let c = spec_compile_expr(st, e);
            c.res is Ok ==> {
                let reg = c.res->Ok_0;
                let delta = c.st.instrs.skip(st.instrs.len() as int);
                let m2 = run(m, delta);
                &&& cstate_wf(c.st)
                &&& c.st.binds == st.binds
                &&& st.instrs.len() <= c.st.instrs.len()
                &&& c.st.instrs.subrange(0, st.instrs.len() as int) =~= st.instrs
                &&& reg < MAX_REGISTERS
                &&& c.st.regs[reg as int]
                &&& m2.len() == MAX_REGISTERS
                &&& (forall|i: int|
                    0 <= i < MAX_REGISTERS && #[trigger] st.regs[i] ==> c.st.regs[i] && m2[i]
                        == m[i])
                &&& eval_expr(venv, e) is Some
                &&& m2[reg as int] == eval_expr(venv, e)->Some_0
                &&& agrees(m2, c.st.binds, venv)
            }
        }),
    decreases e,
{
    let c = spec_compile_expr(st, e);
    if c.res is Ok {
        match e.kind {
            ExprKindV::Integer { value } => {
                lemma_register_pool(st.regs);
                let i = first_free(st.regs)->Some_0;
                let instr = Instruction::LoadInt(i as usize, value);
                let delta = c.st.instrs.skip(st.instrs.len() as int);
                assert(c.st.instrs =~= st.instrs + seq![instr]);
                assert(delta =~= seq![instr]);
                lemma_run_one(m, instr);
                assert(run(m, delta) == run_instr(m, instr));
                assert forall|j: int|
                    0 <= j < MAX_REGISTERS && st.regs[j] implies c.st.regs[j] && run(m, delta)[j]
                    == m[j] by {
                    assert(j != i);
                }
            },
            ExprKindV::Ident { name } => {
                let delta = c.st.instrs.skip(st.instrs.len() as int);
                assert(delta =~= Seq::<Instruction>::empty());
                assert(c.st.instrs.subrange(0, st.instrs.len() as int) =~= st.instrs);
            },
            ExprKindV::Binary { lhs, rhs, op } => {
                assert(op == Operator::Add || op == Operator::Sub);
                let l = spec_compile_expr(st, *lhs);
                assert(l.res is Ok);
                theorem_compile_expr_correct(st, *lhs, venv, m);
                let lr = l.res->Ok_0;
                let delta_l = l.st.instrs.skip(st.instrs.len() as int);
                let m1 = run(m, delta_l);
                let r = spec_compile_expr(l.st, *rhs);
                assert(r.res is Ok);
                theorem_compile_expr_correct(l.st, *rhs, venv, m1);
                let rr = r.res->Ok_0;
                let delta_r = r.st.instrs.skip(l.st.instrs.len() as int);
                let m2 = run(m1, delta_r);
                lemma_register_pool(r.st.regs);
                let d = first_free(r.st.regs)->Some_0;
                let instr = if op == Operator::Add {
                    Instruction::Add(d as usize, lr, rr)
                } else {
                    Instruction::Sub(d as usize, lr, rr)
                };
                let delta = c.st.instrs.skip(st.instrs.len() as int);
                assert(l.st.instrs =~= st.instrs + delta_l);
                assert(r.st.instrs =~= l.st.instrs + delta_r);
                assert(c.st.instrs =~= r.st.instrs.push(instr));
                assert(delta =~= delta_l + delta_r + seq![instr]);
                assert(delta_l + delta_r + seq![instr] =~= (delta_l + delta_r) + seq![instr]);
                lemma_run_concat(m, delta_l + delta_r, seq![instr]);
                lemma_run_concat(m, delta_l, delta_r);
                assert(run(m, delta_l + delta_r) == m2);
                let m3 = run(m2, seq![instr]);
                lemma_run_one(m2, instr);
                assert(m3 == run_instr(m2, instr));
                // the left operand's register survives the right operand's code
                assert(l.st.regs[lr as int]);
                assert(m2[lr as int] == m1[lr as int]);
                assert(m1[lr as int] == eval_expr(venv, *lhs)->Some_0);
                assert(m2[rr as int] == eval_expr(venv, *rhs)->Some_0);
                // the destination is fresh, so it clobbers no operand
                assert(!r.st.regs[d]);
                assert(r.st.regs[lr as int] && r.st.regs[rr as int]);
                assert(d != lr as int && d != rr as int);
                assert(m3[d] == (if op == Operator::Add {
                    m2[lr as int] + m2[rr as int]
                } else {
                    m2[lr as int] - m2[rr as int]
                }));
                assert(run(m, delta) == m3);
                assert forall|j: int|
                    0 <= j < MAX_REGISTERS && st.regs[j] implies c.st.regs[j] && run(m, delta)[j]
                    == m[j] by {
                    assert(l.st.regs[j] && m1[j] == m[j]);
                    assert(r.st.regs[j] && m2[j] == m1[j]);
                    assert(j != d);
                    assert(m3[j] == m2[j]);
                }
            },
            _ => {
                assert(false);
            },
        }
    }
}

/// The compiled program is correct: when the emitter accepts a program,
/// the declarations all have values, and running the newly emitted listing
/// leaves every declared variable's value in the register its name is
/// bound to.
pub proof fn theorem_compile_program_correct(
    st: CState,
    ss: Seq<StmtV>,
    venv: Map<Seq<u8>, int>,
    m: Seq<int>,
)
    requires
        cstate_wf(st),
        m.len() == MAX_REGISTERS,
        agrees(m, st.binds, venv),
    ensures
        ({
            let c = spec_compile_program(st, ss);
            c.res is Ok ==> {
                let delta = c.st.instrs.skip(st.instrs.len() as int);
                let m2 = run(m, delta);
                &&& cstate_wf(c.st)
                &&& st.instrs.len() <= c.st.instrs.len()
                &&& c.st.instrs.subrange(0, st.instrs.len() as int) =~= st.instrs
                &&& m2.len() == MAX_REGISTERS
                &&& eval_stmts(venv, ss) is Some
                &&& agrees(m2, c.st.binds, eval_stmts(venv, ss)->Some_0)
            }
        }),
    decreases ss,
{
    let c = spec_compile_program(st, ss);
    if c.res is Ok && ss.len() > 0 {
        match ss[0].kind {
            StmtKindV::Variable { name, mutable, typ, value } => {
                let ce = spec_compile_expr(st, *value);
                theorem_compile_expr_correct(st, *value, venv, m);
                let reg = ce.res->Ok_0;
                let delta_e = ce.st.instrs.skip(st.instrs.len() as int);
                let m1 = run(m, delta_e);
                let st1 = CState {
                    instrs: ce.st.instrs,
                    regs: ce.st.regs,
                    binds: ce.st.binds.insert(name, reg),
                };
                let v = eval_expr(venv, *value)->Some_0;
                let venv1 = venv.insert(name, v);
                assert(agrees(m1, st1.binds, venv1));
                assert(cstate_wf(st1));
                theorem_compile_program_correct(st1, ss.subrange(1, ss.len() as int), venv1, m1);
                let rest = spec_compile_program(st1, ss.subrange(1, ss.len() as int));
                let delta_r = rest.st.instrs.skip(st1.instrs.len() as int);
                let delta = c.st.instrs.skip(st.instrs.len() as int);
                assert(st1.instrs =~= st.instrs + delta_e);
                assert(rest.st.instrs =~= st1.instrs + delta_r);
                assert(delta =~= delta_e + delta_r);
                lemma_run_concat(m, delta_e, delta_r);
            },
            _ => {
                assert(false);
            },
        }
    }
}

} // verus!
