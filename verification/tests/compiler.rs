use rcc::compiler::compile;
use rcc::parser::{parse, Expr, Multiply, Program, Statement, Term};
use rcc::tokenizer::tokenize;

#[test]
fn compile_addition_round_trip() {
    // "2 + 3": the emitted code pushes 2, pushes 3, pops 3 into rdi and 2
    // into rax, adds into rax and pushes it; the epilogue pops 5 into the
    // return register.
    let tokens = tokenize("2 + 3").unwrap();
    let program = parse(&tokens).unwrap();
    let assembly = compile(program);
    let expected = ".intel_syntax noprefix\n.global main\nmain:\n    push 2\n    push 3\n// Add\n    pop rdi\n    pop rax\n    add rax, rdi\n    push rax\n// return\n    pop rax\n    ret\n";
    assert_eq!(assembly.value_ref(), expected);
}

#[test]
fn compile_subtraction_with_multiplication_round_trip() {
    // "10 - 2 * 3": postorder emission pushes 10, 2, 3, multiplies 2 and 3
    // into 6, then subtracts 6 from 10; the epilogue pops 4 into the return
    // register.
    let tokens = tokenize("10 - 2 * 3").unwrap();
    let program = parse(&tokens).unwrap();
    let assembly = compile(program);
    let expected = ".intel_syntax noprefix\n.global main\nmain:\n    push 10\n    push 2\n    push 3\n// Mul\n    pop rdi\n    pop rax\n    mul rdi\n    push rax\n// Sub\n    pop rdi\n    pop rax\n    sub rax, rdi\n    push rax\n// return\n    pop rax\n    ret\n";
    assert_eq!(assembly.value_ref(), expected);
}

#[test]
fn compile_division() {
    let tokens = tokenize("5 / 2").unwrap();
    let program = parse(&tokens).unwrap();
    let assembly = compile(program);
    let expected = ".intel_syntax noprefix\n.global main\nmain:\n    push 5\n    push 2\n// Div\n    pop rdi\n    pop rax\n    mov rdx, 0\n    div rdi\n    push rax\n// return\n    pop rax\n    ret\n";
    assert_eq!(assembly.value_ref(), expected);
}

#[test]
fn compile_single_literal() {
    let program = Program::Statement(Statement::Expr(Expr::Multiply(Multiply::Term(
        Term::Int64(0),
    ))));
    let assembly = compile(program);
    let expected = ".intel_syntax noprefix\n.global main\nmain:\n    push 0\n// return\n    pop rax\n    ret\n";
    assert_eq!(assembly.value_ref(), expected);
}

#[test]
fn compile_negative_literal_text() {
    // literals scanned from source are never negative, but the tree is
    // public and the emitter prints any 64-bit value
    let program = Program::Statement(Statement::Expr(Expr::Multiply(Multiply::Term(
        Term::Int64(-5),
    ))));
    let assembly = compile(program);
    let expected = ".intel_syntax noprefix\n.global main\nmain:\n    push -5\n// return\n    pop rax\n    ret\n";
    assert_eq!(assembly.value_ref(), expected);

    let program = Program::Statement(Statement::Expr(Expr::Multiply(Multiply::Term(
        Term::Int64(i64::MIN),
    ))));
    let assembly = compile(program);
    let expected = ".intel_syntax noprefix\n.global main\nmain:\n    push -9223372036854775808\n// return\n    pop rax\n    ret\n";
    assert_eq!(assembly.value_ref(), expected);
}

#[test]
fn compile_right_leaning_chain() {
    // "1 - 2 - 3" parses as Sub(1, Sub(2, 3)): the whole rest of the chain
    // is emitted before the instruction that combines it with the first
    // operand, so the code computes 1 - (2 - 3)
    let tokens = tokenize("1 - 2 - 3").unwrap();
    let program = parse(&tokens).unwrap();
    let assembly = compile(program);
    let expected = ".intel_syntax noprefix\n.global main\nmain:\n    push 1\n    push 2\n    push 3\n// Sub\n    pop rdi\n    pop rax\n    sub rax, rdi\n    push rax\n// Sub\n    pop rdi\n    pop rax\n    sub rax, rdi\n    push rax\n// return\n    pop rax\n    ret\n";
    assert_eq!(assembly.value_ref(), expected);
}
