//! Code generation: a syntax tree to linear stack-machine instruction text.
//!
//! Emission follows a two-register stack-machine calling convention: every
//! subtree, once evaluated, leaves exactly one value on top of the runtime
//! stack.  A binary node emits its left operand, then its whole right
//! subtree, then pops the right operand into `rdi` and the left into `rax`,
//! combines them into `rax` with the operator's native instruction, and
//! pushes the result.  A leaf emits one push of its literal.  The whole
//! program is wrapped in a fixed prologue (entry label) and epilogue (pop
//! the final value into the return register and return).
//!
//! Because the right child of a binary node is a full same-layer subtree
//! (see the grammar in the parsing module), the code for the entire rest of
//! a chain is emitted before the instruction that combines it with the
//! first operand: `a - b - c` computes `a - (b - c)`.
//!
//! Overflow and division by zero are runtime failures of the *emitted*
//! program, not of this stage: the mapping is fixed and total.
//! [`spec_compile`] states the exact text, and [`compile`] is proved to
//! return it.

use crate::parser::{Expr, Multiply, Program, Statement, Term};
use vstd::prelude::*;
use vstd::string::StrSliceExecFns;
use vstd::string::StringExecFns;

verus! {

/// Generated instruction text, built by appending fragments in the order
/// the tree is visited.  Its view is the text's character sequence.
#[derive(Debug, Clone, PartialEq)]
pub struct Assembly(String);

impl View for Assembly {
    type V = Seq<char>;

    closed spec fn view(&self) -> Seq<char> {
        self.0@
    }
}

/// The decimal digit character for a value between 0 and 9.
pub open spec fn digit_char(d: int) -> char
    recommends
        0 <= d <= 9,
{
    if d == 0 {
        '0'
    } else if d == 1 {
        '1'
    } else if d == 2 {
        '2'
    } else if d == 3 {
        '3'
    } else if d == 4 {
        '4'
    } else if d == 5 {
        '5'
    } else if d == 6 {
        '6'
    } else if d == 7 {
        '7'
    } else if d == 8 {
        '8'
    } else {
        '9'
    }
}

/// The decimal digit text of a non-negative value, most significant digit
/// first, without sign or leading zeros (a lone zero for zero).
pub open spec fn spec_nat_text(n: int) -> Seq<char>
    recommends
        0 <= n,
    decreases n,
{
    if n < 10 {
        seq![digit_char(n)]
    } else {
        spec_nat_text(n / 10).push(digit_char(n % 10))
    }
}

/// The decimal text of a 64-bit value: a minus sign and the digits of the
/// magnitude for a negative value, the bare digits otherwise.
pub open spec fn spec_int_text(v: int) -> Seq<char> {
    if v >= 0 {
        spec_nat_text(v)
    } else {
        seq!['-'] + spec_nat_text(-v)
    }
}

fn digit_str(d: u64) -> (s: &'static str)
    requires
        d < 10,
    ensures
        s@ == seq![digit_char(d as int)],
{
    if d == 0 {
        proof {
            reveal_strlit("0");
            assert("0"@ =~= seq![digit_char(0int)]);
        }
        "0"
    } else if d == 1 {
        proof {
            reveal_strlit("1");
            assert("1"@ =~= seq![digit_char(1int)]);
        }
        "1"
    } else if d == 2 {
        proof {
            reveal_strlit("2");
            assert("2"@ =~= seq![digit_char(2int)]);
        }
        "2"
    } else if d == 3 {
        proof {
            reveal_strlit("3");
            assert("3"@ =~= seq![digit_char(3int)]);
        }
        "3"
    } else if d == 4 {
        proof {
            reveal_strlit("4");
            assert("4"@ =~= seq![digit_char(4int)]);
        }
        "4"
    } else if d == 5 {
        proof {
            reveal_strlit("5");
            assert("5"@ =~= seq![digit_char(5int)]);
        }
        "5"
    } else if d == 6 {
        proof {
            reveal_strlit("6");
            assert("6"@ =~= seq![digit_char(6int)]);
        }
        "6"
    } else if d == 7 {
        proof {
            reveal_strlit("7");
            assert("7"@ =~= seq![digit_char(7int)]);
        }
        "7"
    } else if d == 8 {
        proof {
            reveal_strlit("8");
            assert("8"@ =~= seq![digit_char(8int)]);
        }
        "8"
    } else {
        proof {
            reveal_strlit("9");
            assert("9"@ =~= seq![digit_char(9int)]);
        }
        "9"
    }
}

fn nat_text(n: u64) -> (s: String)
    ensures
        s@ == spec_nat_text(n as int),
    decreases n,
{
    if n < 10 {
        String::from_str(digit_str(n))
    } else {
        let mut s = nat_text(n / 10);
        s.append(digit_str(n % 10));
        proof {
            assert(spec_nat_text(n as int / 10) + seq![digit_char(n as int % 10)] =~= spec_nat_text(
                n as int / 10,
            ).push(digit_char(n as int % 10)));
        }
        s
    }
}

fn int_text(v: i64) -> (s: String)
    ensures
        s@ == spec_int_text(v as int),
{
    if v >= 0 {
        nat_text(v as u64)
    } else {
        let mag: u64 = if v == i64::MIN {
            9223372036854775808u64
        } else {
            (-v) as u64
        };
        let mut s = String::from_str("-");
        let digits = nat_text(mag);
        s.append(digits.as_str());
        proof {
            reveal_strlit("-");
            assert("-"@ =~= seq!['-']);
        }
        s
    }
}

impl Assembly {
    /// Wraps one piece of literal instruction text.
    fn new(value: &str) -> (r: Assembly)
        ensures
            r@ == value@,
    {
        Assembly(value.to_owned())
    }

    /// Joins two pieces of instruction text in emission order.
    fn append(self, other: Assembly) -> (r: Assembly)
        ensures
            r@ == self@ + other@,
    {
        let mut s = self.0;
        s.append(other.0.as_str());
        Assembly(s)
    }

    /// The generated text, as a borrowed string.
    pub fn value_ref<'a>(&'a self) -> (r: &'a str)
        ensures
            r@ == self@,
    {
        self.0.as_str()
    }
}

/// The instruction text for one leaf: push the literal.
pub open spec fn spec_compile_term(term: Term) -> Seq<char> {
    match term {
        Term::Int64(v) => "    push "@ + spec_int_text(v as int) + "\n"@,
    }
}

/// The instruction text for a multiplicative subtree, in postorder: both
/// operands first, then the pops, the combining instruction, and the push
/// of the result.  `div` clears the dividend's high bits (`rdx`) first.
pub open spec fn spec_compile_multiply(multiply: Multiply) -> Seq<char>
    decreases multiply,
{
    match multiply {
        Multiply::Mul(term, m) => (spec_compile_term(term) + spec_compile_multiply(*m))
            + "// Mul\n    pop rdi\n    pop rax\n    mul rdi\n    push rax\n"@,
        Multiply::Div(term, m) => (spec_compile_term(term) + spec_compile_multiply(*m))
            + "// Div\n    pop rdi\n    pop rax\n    mov rdx, 0\n    div rdi\n    push rax\n"@,
        Multiply::Term(term) => spec_compile_term(term),
    }
}

/// The instruction text for an additive subtree, in postorder.
pub open spec fn spec_compile_expr(expr: Expr) -> Seq<char>
    decreases expr,
{
    match expr {
        Expr::Add(multiply, e) => (spec_compile_multiply(multiply) + spec_compile_expr(*e))
            + "// Add\n    pop rdi\n    pop rax\n    add rax, rdi\n    push rax\n"@,
        Expr::Sub(multiply, e) => (spec_compile_multiply(multiply) + spec_compile_expr(*e))
            + "// Sub\n    pop rdi\n    pop rax\n    sub rax, rdi\n    push rax\n"@,
        Expr::Multiply(multiply) => spec_compile_multiply(multiply),
    }
}

/// The instruction text for a statement: that of its expression.
pub open spec fn spec_compile_statement(statement: Statement) -> Seq<char> {
    match statement {
        Statement::Expr(expr) => spec_compile_expr(expr),
    }
}

/// The instruction text for the tree under the program root.  The reserved
/// assignment variant has no emission; code generation refuses it.
pub open spec fn spec_compile_program(program: Program) -> Seq<char>
    recommends
        !(program is Assignment),
{
    match program {
        Program::Statement(statement) => spec_compile_statement(statement),
        Program::Assignment(_) => Seq::empty(),
    }
}

/// The whole generated text: a fixed entry prologue, the postorder emission
/// of the tree, and a fixed epilogue that pops the final stack value into
/// the return register and returns.
pub open spec fn spec_compile(program: Program) -> Seq<char>
    recommends
        !(program is Assignment),
{
    (".intel_syntax noprefix\n.global main\nmain:\n"@ + spec_compile_program(program))
        + "// return\n    pop rax\n    ret\n"@
}

fn compile_term(term: Term) -> (r: Assembly)
    ensures
        r@ == spec_compile_term(term),
{
    match term {
        Term::Int64(int64) => {
            let mut s = String::from_str("    push ");
            let digits = int_text(int64);
            s.append(digits.as_str());
            s.append("\n");
            Assembly(s)
        },
    }
}

fn compile_multiply(multiply: Multiply) -> (r: Assembly)
    ensures
        r@ == spec_compile_multiply(multiply),
    decreases multiply,
{
    match multiply {
        Multiply::Mul(term, m) => compile_term(term).append(compile_multiply(*m)).append(
            Assembly::new("// Mul\n    pop rdi\n    pop rax\n    mul rdi\n    push rax\n"),
        ),
        Multiply::Div(term, m) => compile_term(term).append(compile_multiply(*m)).append(
            Assembly::new(
                "// Div\n    pop rdi\n    pop rax\n    mov rdx, 0\n    div rdi\n    push rax\n",
            ),
        ),
        Multiply::Term(term) => compile_term(term),
    }
}

fn compile_expr(expr: Expr) -> (r: Assembly)
    ensures
        r@ == spec_compile_expr(expr),
    decreases expr,
{
    match expr {
        Expr::Add(multiply, e) => compile_multiply(multiply).append(compile_expr(*e)).append(
            Assembly::new("// Add\n    pop rdi\n    pop rax\n    add rax, rdi\n    push rax\n"),
        ),
        Expr::Sub(multiply, e) => compile_multiply(multiply).append(compile_expr(*e)).append(
            Assembly::new("// Sub\n    pop rdi\n    pop rax\n    sub rax, rdi\n    push rax\n"),
        ),
        Expr::Multiply(multiply) => compile_multiply(multiply),
    }
}

fn compile_statement(statement: Statement) -> (r: Assembly)
    ensures
        r@ == spec_compile_statement(statement),
{
    match statement {
        Statement::Expr(expr) => compile_expr(expr),
    }
}

fn compile_program(program: Program) -> (r: Assembly)
    requires
        !(program is Assignment),
    ensures
        r@ == spec_compile_program(program),
{
    match program {
        Program::Statement(statement) => compile_statement(statement),
        Program::Assignment(_) => Assembly::new(""),  // excluded by the precondition
    }
}

/// Lowers a parsed program to the full instruction text stated by
/// [`spec_compile`].  The reserved assignment variant, which the parser
/// never constructs, is refused by the precondition.
pub fn compile(program: Program) -> (r: Assembly)
    requires
        !(program is Assignment),
    ensures
        r@ == spec_compile(program),
{
    Assembly::new(".intel_syntax noprefix\n.global main\nmain:\n").append(
        compile_program(program),
    ).append(Assembly::new("// return\n    pop rax\n    ret\n"))
}

} // verus!
