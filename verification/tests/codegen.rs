use kas::codegen::{CompileError, Compiler, Instruction, RegisterAlloc, MAX_REGISTERS};
use kas::pipeline::front_end;

fn compile(src: &str) -> Result<String, CompileError> {
    let (stmts, errors) = front_end(src.as_bytes().to_vec());
    assert!(errors.is_empty(), "the source should parse cleanly");
    let mut compiler = Compiler::new();
    compiler.compile(&stmts)
}

#[test]
fn allocating_one_past_the_pool_capacity_is_fatal() {
    let mut pool = RegisterAlloc::new();
    for expected in 0..MAX_REGISTERS {
        assert_eq!(pool.allocate(), Some(expected));
    }
    // the pool holds N registers; the N+1st live value cannot be placed
    assert_eq!(pool.allocate(), None);
}

#[test]
fn freeing_and_reallocating_never_double_allocates() {
    let mut pool = RegisterAlloc::new();
    for _ in 0..MAX_REGISTERS {
        pool.allocate().unwrap();
    }
    pool.free(5);
    // the freed slot is the only free one, so allocation must return
    // exactly it, never a still-occupied slot
    assert_eq!(pool.allocate(), Some(5));
    assert_eq!(pool.allocate(), None);
}

#[test]
fn instruction_lines_are_encoded_byte_for_byte() {
    assert_eq!(Instruction::LoadInt(0, 5).to_string(), "LDI R0 5\n");
    assert_eq!(Instruction::LoadInt(1, -42).to_string(), "LDI R1 -42\n");
    assert_eq!(Instruction::LoadInt(15, 2147483647).to_string(), "LDI R15 2147483647\n");
    assert_eq!(Instruction::LoadInt(2, -2147483648).to_string(), "LDI R2 -2147483648\n");
    assert_eq!(Instruction::Add(10, 1, 2).to_string(), "ADD R10 R1 R2\n");
    assert_eq!(Instruction::Sub(3, 0, 15).to_string(), "SUB R3 R0 R15\n");
}

/// Right-associativity end to end: the emitted code must load 1, 2 and 3
/// and compute 2 - 3 before computing 1 - (that result).
#[test]
fn right_associativity_reaches_the_bytecode() {
    let text = compile("let x = 1 - 2 - 3\n").unwrap();
    assert_eq!(
        text,
        "LDI R0 1\nLDI R1 2\nLDI R2 3\nSUB R3 R1 R2\nSUB R4 R0 R3\nDUMP\nEXIT"
    );
}

#[test]
fn a_declaration_binds_its_register_and_reads_reuse_it() {
    // `a` stays in R0; the read of `a` is a lookup, not a copy
    let text = compile("let a = 1\nlet b = a - 2\n").unwrap();
    assert_eq!(text, "LDI R0 1\nLDI R1 2\nSUB R2 R0 R1\nDUMP\nEXIT");
}

#[test]
fn addition_emits_add() {
    let text = compile("let s = 4 + 8\n").unwrap();
    assert_eq!(text, "LDI R0 4\nLDI R1 8\nADD R2 R0 R1\nDUMP\nEXIT");
}

#[test]
fn an_empty_program_still_terminates_the_listing() {
    let text = compile("").unwrap();
    assert_eq!(text, "DUMP\nEXIT");
}

#[test]
fn an_unbound_identifier_is_fatal() {
    let r = compile("let a = b\n");
    assert!(matches!(r, Err(CompileError::UnboundIdentifier(_))));
}

#[test]
fn an_unsupported_construct_is_fatal() {
    // the compiler has no code for assignment statements yet
    let r = compile("mut x = 1\nx = 2\n");
    assert!(matches!(r, Err(CompileError::UnsupportedConstruct(_))));
    // nor for float literals
    let r = compile("let x = 1.5\n");
    assert!(matches!(r, Err(CompileError::UnsupportedConstruct(_))));
    // nor for multiplication
    let r = compile("let x = 2 * 3\n");
    assert!(matches!(r, Err(CompileError::UnsupportedConstruct(_))));
}

#[test]
fn exhausting_the_register_pool_is_fatal() {
    // nine loads plus eight temporaries need seventeen registers
    let r = compile("let x = 1 - 1 - 1 - 1 - 1 - 1 - 1 - 1 - 1\n");
    assert!(matches!(r, Err(CompileError::OutOfRegisters(_))));
    // eight literals fit: eight loads plus seven temporaries
    let r = compile("let x = 1 - 1 - 1 - 1 - 1 - 1 - 1 - 1\n");
    assert!(r.is_ok());
}

#[test]
fn compilation_is_fail_fast() {
    // the failing statement ends the run; nothing after it is emitted
    let mut compiler = Compiler::new();
    let (stmts, errors) = front_end(b"let a = 1.5\nlet b = 2\n".to_vec());
    assert!(errors.is_empty());
    let r = compiler.compile(&stmts);
    assert!(matches!(r, Err(CompileError::UnsupportedConstruct(_))));
}
