//! The meaning of the generated instruction text, stated over an abstract
//! stack machine.
//!
//! The text that [`crate::compiler::compile`] emits is, between its fixed
//! prologue and epilogue, the rendering of a postorder instruction
//! sequence: one push per literal, and one combining instruction per binary
//! node, each popping the two topmost values and pushing the result.  This
//! module names that sequence ([`spec_instrs_program`]), proves that the
//! emitted text renders it exactly ([`lemma_compile_text`]), and proves
//! that executing it on an empty stack leaves exactly the program's value
//! ([`lemma_instrs_correct`]).
//!
//! The machine is the 64-bit register machine the text targets: `add`,
//! `sub` and `mul` wrap modulo two to the sixty-fourth power, and `div` is
//! unsigned division of the popped values (the dividend's high half is
//! cleared first), which faults on a zero divisor — modelled as `None`.
//! Overflow and division by zero are thus failures of the *emitted*
//! program; code generation itself is total on parser output.

use crate::compiler::{
    spec_compile, spec_compile_expr, spec_compile_multiply, spec_compile_program,
    spec_compile_statement, spec_compile_term, spec_int_text,
};
use crate::parser::{Expr, Multiply, Program, Statement, Term};
use vstd::prelude::*;

verus! {

/// One abstract stack-machine instruction of the generated code.
#[derive(Debug, PartialEq)]
pub enum Instr {
    Push(i64),
    Add,
    Sub,
    Mul,
    Div,
}

/// Reduction modulo two to the sixty-fourth power: the value a 64-bit
/// register keeps of an arithmetic result.
pub open spec fn wrap64(x: int) -> u64 {
    (x % 0x1_0000_0000_0000_0000) as u64
}

/// Unsigned 64-bit division, as the machine's `div` computes it with a
/// cleared high half: the quotient always fits.
pub open spec fn udiv64(a: u64, b: u64) -> u64
    recommends
        b != 0,
{
    (a as int / b as int) as u64
}

/// One machine step: what an instruction does to the value stack.  `None`
/// is a fault: too few operands, or a zero divisor.
pub open spec fn spec_step(i: Instr, stack: Seq<u64>) -> Option<Seq<u64>> {
    match i {
        Instr::Push(v) => Some(stack.push(wrap64(v as int))),
        Instr::Add => if stack.len() < 2 {
            None
        } else {
            Some(
                stack.drop_last().drop_last().push(
                    wrap64(stack[stack.len() - 2] + stack.last()),
                ),
            )
        },
        Instr::Sub => if stack.len() < 2 {
            None
        } else {
            Some(
                stack.drop_last().drop_last().push(
                    wrap64(stack[stack.len() - 2] - stack.last()),
                ),
            )
        },
        Instr::Mul => if stack.len() < 2 {
            None
        } else {
            Some(
                stack.drop_last().drop_last().push(
                    wrap64(stack[stack.len() - 2] * stack.last()),
                ),
            )
        },
        Instr::Div => if stack.len() < 2 {
            None
        } else if stack.last() == 0 {
            None
        } else {
            Some(
                stack.drop_last().drop_last().push(
                    udiv64(stack[stack.len() - 2], stack.last()),
                ),
            )
        },
    }
}

/// Runs an instruction sequence from a starting stack, faulting as soon as
/// one step faults.
pub open spec fn spec_run(instrs: Seq<Instr>, stack: Seq<u64>) -> Option<Seq<u64>>
    decreases instrs.len(),
{
    if instrs.len() == 0 {
        Some(stack)
    } else {
        match spec_step(instrs[0], stack) {
            Some(next) => spec_run(instrs.skip(1), next),
            None => None,
        }
    }
}

/// The value a leaf leaves on the stack.
pub open spec fn spec_eval_term(term: Term) -> u64 {
    match term {
        Term::Int64(v) => wrap64(v as int),
    }
}

/// The value of a multiplicative subtree on this machine; `None` on a zero
/// divisor.  The right child is a full chain, so `a / b / c` means
/// `a / (b / c)`.
pub open spec fn spec_eval_multiply(multiply: Multiply) -> Option<u64>
    decreases multiply,
{
    match multiply {
        Multiply::Mul(term, m) => match spec_eval_multiply(*m) {
            Some(b) => Some(wrap64(spec_eval_term(term) * b)),
            None => None,
        },
        Multiply::Div(term, m) => match spec_eval_multiply(*m) {
            Some(b) => if b == 0 {
                None
            } else {
                Some(udiv64(spec_eval_term(term), b))
            },
            None => None,
        },
        Multiply::Term(term) => Some(spec_eval_term(term)),
    }
}

/// The value of an additive subtree on this machine.  The right child is a
/// full chain, so `a - b - c` means `a - (b - c)`.
pub open spec fn spec_eval_expr(expr: Expr) -> Option<u64>
    decreases expr,
{
    match expr {
        Expr::Add(multiply, e) => match spec_eval_multiply(multiply) {
            Some(a) => match spec_eval_expr(*e) {
                Some(b) => Some(wrap64(a + b)),
                None => None,
            },
            None => None,
        },
        Expr::Sub(multiply, e) => match spec_eval_multiply(multiply) {
            Some(a) => match spec_eval_expr(*e) {
                Some(b) => Some(wrap64(a - b)),
                None => None,
            },
            None => None,
        },
        Expr::Multiply(multiply) => spec_eval_multiply(multiply),
    }
}

/// The value of a whole program on this machine.
pub open spec fn spec_eval_program(program: Program) -> Option<u64>
    recommends
        !(program is Assignment),
{
    match program {
        Program::Statement(Statement::Expr(e)) => spec_eval_expr(e),
        Program::Assignment(_) => None,
    }
}

/// The postorder instruction sequence of a leaf: push its literal.
pub open spec fn spec_instrs_term(term: Term) -> Seq<Instr> {
    match term {
        Term::Int64(v) => seq![Instr::Push(v)],
    }
}

/// The postorder instruction sequence of a multiplicative subtree: both
/// operands, then the combining instruction.
pub open spec fn spec_instrs_multiply(multiply: Multiply) -> Seq<Instr>
    decreases multiply,
{
    match multiply {
        Multiply::Mul(term, m) => (spec_instrs_term(term) + spec_instrs_multiply(*m)) + seq![
            Instr::Mul,
        ],
        Multiply::Div(term, m) => (spec_instrs_term(term) + spec_instrs_multiply(*m)) + seq![
            Instr::Div,
        ],
        Multiply::Term(term) => spec_instrs_term(term),
    }
}

/// The postorder instruction sequence of an additive subtree.
pub open spec fn spec_instrs_expr(expr: Expr) -> Seq<Instr>
    decreases expr,
{
    match expr {
        Expr::Add(multiply, e) => (spec_instrs_multiply(multiply) + spec_instrs_expr(*e)) + seq![
            Instr::Add,
        ],
        Expr::Sub(multiply, e) => (spec_instrs_multiply(multiply) + spec_instrs_expr(*e)) + seq![
            Instr::Sub,
        ],
        Expr::Multiply(multiply) => spec_instrs_multiply(multiply),
    }
}

/// The postorder instruction sequence of a whole program.
pub open spec fn spec_instrs_program(program: Program) -> Seq<Instr>
    recommends
        !(program is Assignment),
{
    match program {
        Program::Statement(Statement::Expr(e)) => spec_instrs_expr(e),
        Program::Assignment(_) => Seq::empty(),
    }
}

proof fn lemma_run_append(xs: Seq<Instr>, ys: Seq<Instr>, stack: Seq<u64>)
    ensures
        spec_run(xs + ys, stack) == (match spec_run(xs, stack) {
            Some(mid) => spec_run(ys, mid),
            None => None::<Seq<u64>>,
        }),
    decreases xs.len(),
{
    if xs.len() == 0 {
        assert(xs + ys =~= ys);
    } else {
        assert((xs + ys)[0] == xs[0]);
        assert((xs + ys).skip(1) =~= xs.skip(1) + ys);
        match spec_step(xs[0], stack) {
            Some(next) => {
                lemma_run_append(xs.skip(1), ys, next);
            },
            None => {},
        }
    }
}

proof fn lemma_run_term(term: Term, stack: Seq<u64>)
    ensures
        spec_run(spec_instrs_term(term), stack) == Some(stack.push(spec_eval_term(term))),
{
    reveal_with_fuel(spec_run, 2);
    match term {
        Term::Int64(v) => {
            assert(seq![Instr::Push(v)].skip(1) =~= Seq::<Instr>::empty());
        },
    }
}

proof fn lemma_run_multiply(multiply: Multiply, stack: Seq<u64>)
    ensures
        spec_run(spec_instrs_multiply(multiply), stack) == (match spec_eval_multiply(multiply) {
            Some(v) => Some(stack.push(v)),
            None => None::<Seq<u64>>,
        }),
    decreases multiply,
{
    reveal_with_fuel(spec_run, 2);
    match multiply {
        Multiply::Mul(term, m) => {
            lemma_run_append(
                spec_instrs_term(term) + spec_instrs_multiply(*m),
                seq![Instr::Mul],
                stack,
            );
            lemma_run_append(spec_instrs_term(term), spec_instrs_multiply(*m), stack);
            lemma_run_term(term, stack);
            let a = spec_eval_term(term);
            lemma_run_multiply(*m, stack.push(a));
            match spec_eval_multiply(*m) {
                Some(b) => {
                    let s2 = stack.push(a).push(b);
                    assert(s2.drop_last().drop_last() =~= stack);
                    assert(s2[s2.len() - 2] == a && s2.last() == b);
                    assert(seq![Instr::Mul].skip(1) =~= Seq::<Instr>::empty());
                },
                None => {},
            }
        },
        Multiply::Div(term, m) => {
            lemma_run_append(
                spec_instrs_term(term) + spec_instrs_multiply(*m),
                seq![Instr::Div],
                stack,
            );
            lemma_run_append(spec_instrs_term(term), spec_instrs_multiply(*m), stack);
            lemma_run_term(term, stack);
            let a = spec_eval_term(term);
            lemma_run_multiply(*m, stack.push(a));
            match spec_eval_multiply(*m) {
                Some(b) => {
                    let s2 = stack.push(a).push(b);
                    assert(s2.drop_last().drop_last() =~= stack);
                    assert(s2[s2.len() - 2] == a && s2.last() == b);
                    assert(seq![Instr::Div].skip(1) =~= Seq::<Instr>::empty());
                },
                None => {},
            }
        },
        Multiply::Term(term) => {
            lemma_run_term(term, stack);
        },
    }
}

proof fn lemma_run_expr(expr: Expr, stack: Seq<u64>)
    ensures
        spec_run(spec_instrs_expr(expr), stack) == (match spec_eval_expr(expr) {
            Some(v) => Some(stack.push(v)),
            None => None::<Seq<u64>>,
        }),
    decreases expr,
{
    reveal_with_fuel(spec_run, 2);
    match expr {
        Expr::Add(multiply, e) => {
            lemma_run_append(
                spec_instrs_multiply(multiply) + spec_instrs_expr(*e),
                seq![Instr::Add],
                stack,
            );
            lemma_run_append(spec_instrs_multiply(multiply), spec_instrs_expr(*e), stack);
            lemma_run_multiply(multiply, stack);
            match spec_eval_multiply(multiply) {
                Some(a) => {
                    lemma_run_expr(*e, stack.push(a));
                    match spec_eval_expr(*e) {
                        Some(b) => {
                            let s2 = stack.push(a).push(b);
                            assert(s2.drop_last().drop_last() =~= stack);
                            assert(s2[s2.len() - 2] == a && s2.last() == b);
                            assert(seq![Instr::Add].skip(1) =~= Seq::<Instr>::empty());
                        },
                        None => {},
                    }
                },
                None => {},
            }
        },
        Expr::Sub(multiply, e) => {
            lemma_run_append(
                spec_instrs_multiply(multiply) + spec_instrs_expr(*e),
                seq![Instr::Sub],
                stack,
            );
            lemma_run_append(spec_instrs_multiply(multiply), spec_instrs_expr(*e), stack);
            lemma_run_multiply(multiply, stack);
            match spec_eval_multiply(multiply) {
                Some(a) => {
                    lemma_run_expr(*e, stack.push(a));
                    match spec_eval_expr(*e) {
                        Some(b) => {
                            let s2 = stack.push(a).push(b);
                            assert(s2.drop_last().drop_last() =~= stack);
                            assert(s2[s2.len() - 2] == a && s2.last() == b);
                            assert(seq![Instr::Sub].skip(1) =~= Seq::<Instr>::empty());
                        },
                        None => {},
                    }
                },
                None => {},
            }
        },
        Expr::Multiply(multiply) => {
            lemma_run_multiply(multiply, stack);
        },
    }
}

/// Running a program's postorder instruction sequence on an empty stack
/// leaves exactly the program's value as the one stack entry; the machine
/// faults exactly where the program's value is undefined (a zero divisor).
pub proof fn lemma_instrs_correct(program: Program)
    requires
        !(program is Assignment),
    ensures
        spec_run(spec_instrs_program(program), Seq::empty()) == (
        match spec_eval_program(program) {
            Some(v) => Some(seq![v]),
            None => None::<Seq<u64>>,
        }),
{
    match program {
        Program::Statement(statement) => {
            match statement {
                Statement::Expr(e) => {
                    lemma_run_expr(e, Seq::empty());
                    match spec_eval_expr(e) {
                        Some(v) => {
                            assert(Seq::<u64>::empty().push(v) =~= seq![v]);
                        },
                        None => {},
                    }
                },
            }
        },
        Program::Assignment(_) => {},
    }
}

/// The text one instruction renders to.
pub open spec fn instr_text(i: Instr) -> Seq<char> {
    match i {
        Instr::Push(v) => "    push "@ + spec_int_text(v as int) + "\n"@,
        Instr::Add => "// Add\n    pop rdi\n    pop rax\n    add rax, rdi\n    push rax\n"@,
        Instr::Sub => "// Sub\n    pop rdi\n    pop rax\n    sub rax, rdi\n    push rax\n"@,
        Instr::Mul => "// Mul\n    pop rdi\n    pop rax\n    mul rdi\n    push rax\n"@,
        Instr::Div => "// Div\n    pop rdi\n    pop rax\n    mov rdx, 0\n    div rdi\n    push rax\n"@,
    }
}

/// The text an instruction sequence renders to, in order.
pub open spec fn instrs_text(instrs: Seq<Instr>) -> Seq<char>
    decreases instrs.len(),
{
    if instrs.len() == 0 {
        Seq::empty()
    } else {
        instr_text(instrs[0]) + instrs_text(instrs.skip(1))
    }
}

proof fn lemma_instrs_text_append(xs: Seq<Instr>, ys: Seq<Instr>)
    ensures
        instrs_text(xs + ys) == instrs_text(xs) + instrs_text(ys),
    decreases xs.len(),
{
    if xs.len() == 0 {
        assert(xs + ys =~= ys);
        assert(instrs_text(xs) + instrs_text(ys) =~= instrs_text(ys));
    } else {
        assert((xs + ys)[0] == xs[0]);
        assert((xs + ys).skip(1) =~= xs.skip(1) + ys);
        lemma_instrs_text_append(xs.skip(1), ys);
        assert(instr_text(xs[0]) + (instrs_text(xs.skip(1)) + instrs_text(ys)) =~= (instr_text(
            xs[0],
        ) + instrs_text(xs.skip(1))) + instrs_text(ys));
    }
}

proof fn lemma_instrs_text_single(i: Instr)
    ensures
        instrs_text(seq![i]) == instr_text(i),
{
    reveal_with_fuel(instrs_text, 2);
    assert(seq![i].skip(1) =~= Seq::<Instr>::empty());
    assert(instr_text(i) + Seq::<char>::empty() =~= instr_text(i));
}

proof fn lemma_text_term(term: Term)
    ensures
        spec_compile_term(term) == instrs_text(spec_instrs_term(term)),
{
    match term {
        Term::Int64(v) => {
            lemma_instrs_text_single(Instr::Push(v));
        },
    }
}

proof fn lemma_text_multiply(multiply: Multiply)
    ensures
        spec_compile_multiply(multiply) == instrs_text(spec_instrs_multiply(multiply)),
    decreases multiply,
{
    match multiply {
        Multiply::Mul(term, m) => {
            lemma_text_term(term);
            lemma_text_multiply(*m);
            lemma_instrs_text_append(
                spec_instrs_term(term) + spec_instrs_multiply(*m),
                seq![Instr::Mul],
            );
            lemma_instrs_text_append(spec_instrs_term(term), spec_instrs_multiply(*m));
            lemma_instrs_text_single(Instr::Mul);
        },
        Multiply::Div(term, m) => {
            lemma_text_term(term);
            lemma_text_multiply(*m);
            lemma_instrs_text_append(
                spec_instrs_term(term) + spec_instrs_multiply(*m),
                seq![Instr::Div],
            );
            lemma_instrs_text_append(spec_instrs_term(term), spec_instrs_multiply(*m));
            lemma_instrs_text_single(Instr::Div);
        },
        Multiply::Term(term) => {
            lemma_text_term(term);
        },
    }
}

proof fn lemma_text_expr(expr: Expr)
    ensures
        spec_compile_expr(expr) == instrs_text(spec_instrs_expr(expr)),
    decreases expr,
{
    match expr {
        Expr::Add(multiply, e) => {
            lemma_text_multiply(multiply);
            lemma_text_expr(*e);
            lemma_instrs_text_append(
                spec_instrs_multiply(multiply) + spec_instrs_expr(*e),
                seq![Instr::Add],
            );
            lemma_instrs_text_append(spec_instrs_multiply(multiply), spec_instrs_expr(*e));
            lemma_instrs_text_single(Instr::Add);
        },
        Expr::Sub(multiply, e) => {
            lemma_text_multiply(multiply);
            lemma_text_expr(*e);
            lemma_instrs_text_append(
                spec_instrs_multiply(multiply) + spec_instrs_expr(*e),
                seq![Instr::Sub],
            );
            lemma_instrs_text_append(spec_instrs_multiply(multiply), spec_instrs_expr(*e));
            lemma_instrs_text_single(Instr::Sub);
        },
        Expr::Multiply(multiply) => {
            lemma_text_multiply(multiply);
        },
    }
}

/// The generated text is exactly the fixed prologue, the rendering of the
/// program's postorder instruction sequence, and the fixed epilogue.
/// Together with [`lemma_instrs_correct`], this ties the text that
/// [`crate::compiler::compile`] returns to the value the machine computes.
pub proof fn lemma_compile_text(program: Program)
    requires
        !(program is Assignment),
    ensures
        spec_compile(program) == (".intel_syntax noprefix\n.global main\nmain:\n"@ + instrs_text(
            spec_instrs_program(program),
        )) + "// return\n    pop rax\n    ret\n"@,
{
    match program {
        Program::Statement(statement) => {
            match statement {
                Statement::Expr(e) => {
                    lemma_text_expr(e);
                },
            }
        },
        Program::Assignment(_) => {},
    }
}

} // verus!
