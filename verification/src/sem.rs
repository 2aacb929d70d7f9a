//! The meaning of a program: a mathematical evaluation of expressions and
//! statements onto the single 64-bit signed integer domain, with booleans
//! encoded as 0/1, wrapping arithmetic, trapping division, and the sequence of
//! integers that `print` emits. The code generator is proved to realize
//! exactly this semantics.

use vstd::prelude::*;

use crate::ast::SpecExpr;
use crate::ast::SpecStmt;
use crate::ast::is_binary_op;
use crate::ast::is_unary_op;
use crate::lexer::SpecToken;
use vstd::wrapping::i64_specs;

verus! {

/// The name of the one host-provided function.
pub open spec fn print_name() -> Seq<char> {
    seq!['p', 'r', 'i', 'n', 't']
}

/// Signed truncating division as the host performs it, `None` on a divisor of
/// zero or on the one overflowing quotient (`i64::MIN / -1`).
pub open spec fn sdiv_opt(lhs: i64, rhs: i64) -> Option<i64> {
    if rhs == 0 {
        None
    } else {
        let x = lhs as int;
        let d = rhs as int;
        let output = if x == 0 {
            0
        } else if x > 0 && d > 0 {
            x / d
        } else if x < 0 && d < 0 {
            ((x * -1) / (d * -1))
        } else if x < 0 {
            ((x * -1) / d) * -1
        } else {
            (x / (d * -1)) * -1
        };
        if output < i64::MIN || output > i64::MAX {
            None
        } else {
            Some(output as i64)
        }
    }
}

/// Signed truncating remainder as the host performs it, `None` on a divisor of
/// zero or on `i64::MIN % -1`.
pub open spec fn srem_opt(lhs: i64, rhs: i64) -> Option<i64> {
    if rhs == 0 || (lhs == i64::MIN && rhs == -1) {
        None
    } else {
        let x = lhs as int;
        let d = rhs as int;
        let output = if x == 0 {
            0
        } else if x > 0 && d > 0 {
            x % d
        } else if x < 0 && d < 0 {
            ((x * -1) % (d * -1)) * -1
        } else if x < 0 {
            ((x * -1) % d) * -1
        } else {
            x % (d * -1)
        };
        if output < i64::MIN || output > i64::MAX {
            None
        } else {
            Some(output as i64)
        }
    }
}

/// The value of one binary operator on two already-evaluated operands; `None`
/// is a runtime trap. Logical operators see both operands (no short-circuit)
/// and compare each against zero; comparisons yield 0/1.
pub open spec fn eval_binop(op: SpecToken, a: i64, b: i64) -> Option<i64> {
    if op == SpecToken::Plus {
        Some(i64_specs::wrapping_add(a, b))
    } else if op == SpecToken::Minus {
        Some(i64_specs::wrapping_sub(a, b))
    } else if op == SpecToken::Star {
        Some(i64_specs::wrapping_mul(a, b))
    } else if op == SpecToken::Slash {
        sdiv_opt(a, b)
    } else if op == SpecToken::Percent {
        srem_opt(a, b)
    } else if op == SpecToken::EqualEqual {
        Some(if a == b { 1i64 } else { 0i64 })
    } else if op == SpecToken::NotEqual {
        Some(if a != b { 1i64 } else { 0i64 })
    } else if op == SpecToken::Less {
        Some(if a < b { 1i64 } else { 0i64 })
    } else if op == SpecToken::LessEqual {
        Some(if a <= b { 1i64 } else { 0i64 })
    } else if op == SpecToken::Greater {
        Some(if a > b { 1i64 } else { 0i64 })
    } else if op == SpecToken::GreaterEqual {
        Some(if a >= b { 1i64 } else { 0i64 })
    } else if op == SpecToken::AndAnd {
        Some(if a != 0 && b != 0 { 1i64 } else { 0i64 })
    } else if op == SpecToken::OrOr {
        Some(if a != 0 || b != 0 { 1i64 } else { 0i64 })
    } else {
        Some(0i64)
    }
}

/// The value of one unary operator: negation multiplies by -1 (wrapping), and
/// `!` compares against zero.
pub open spec fn eval_unop(op: SpecToken, v: i64) -> i64 {
    if op == SpecToken::Minus {
        i64_specs::wrapping_mul(v, -1i64)
    } else if op == SpecToken::Not {
        if v == 0 {
            1i64
        } else {
            0i64
        }
    } else {
        0i64
    }
}

/// Evaluation of an expression under an environment: the value (`None` is a
/// trap) and the sequence of integers printed, in evaluation order
/// (left-to-right, arguments before calls).
pub open spec fn eval_expr(e: SpecExpr, env: Map<Seq<char>, i64>) -> (Option<i64>, Seq<i64>)
    decreases e,
{
    match e {
        SpecExpr::Number(n) => (Some(n), Seq::empty()),
        SpecExpr::Bool(b) => (
            Some(
                if b {
                    1i64
                } else {
                    0i64
                },
            ),
            Seq::empty(),
        ),
        SpecExpr::Variable(name) => (
            Some(
                if env.contains_key(name) {
                    env[name]
                } else {
                    0i64
                },
            ),
            Seq::empty(),
        ),
        SpecExpr::FunctionCall { name, args } => {
            if name == print_name() && args.len() == 1 {
                let (v, ps) = eval_expr(args[0], env);
                match v {
                    Some(x) => (Some(x), ps.push(x)),
                    None => (None, ps),
                }
            } else {
                (Some(0i64), Seq::empty())
            }
        },
        SpecExpr::BinaryOp { op, left, right } => {
            let (lv, lp) = eval_expr(*left, env);
            match lv {
                None => (None, lp),
                Some(a) => {
                    let (rv, rp) = eval_expr(*right, env);
                    match rv {
                        None => (None, lp + rp),
                        Some(b) => match eval_binop(op, a, b) {
                            Some(v) => (Some(v), lp + rp),
                            None => (None, lp + rp),
                        },
                    }
                },
            }
        },
        SpecExpr::UnaryOp { op, expr } => {
            let (v, ps) = eval_expr(*expr, env);
            match v {
                Some(x) => (Some(eval_unop(op, x)), ps),
                None => (None, ps),
            }
        },
    }
}

/// Evaluation of one statement: its value, the environment afterwards, and
/// what it printed. A `let` binds (or shadows) its name; its value is the
/// bound value.
pub open spec fn eval_stmt(s: SpecStmt, env: Map<Seq<char>, i64>) -> (
    Option<(i64, Map<Seq<char>, i64>)>,
    Seq<i64>,
) {
    match s {
        SpecStmt::ExprStmt(e) => {
            match eval_expr(e, env) {
                (Some(v), ps) => (Some((v, env)), ps),
                (None, ps) => (None, ps),
            }
        },
        SpecStmt::LetDecl { name, value } => {
            match eval_expr(value, env) {
                (Some(v), ps) => (Some((v, env.insert(name, v))), ps),
                (None, ps) => (None, ps),
            }
        },
    }
}

/// Evaluation of a statement list: the value of the last statement (`last`
/// when the list is empty), or `None` at the first trap, together with
/// everything printed up to that point.
pub open spec fn eval_stmts(
    stmts: Seq<SpecStmt>,
    env: Map<Seq<char>, i64>,
    last: i64,
    prints: Seq<i64>,
) -> (Option<i64>, Seq<i64>)
    decreases stmts.len(),
{
    if stmts.len() == 0 {
        (Some(last), prints)
    } else {
        match eval_stmt(stmts[0], env) {
            (Some((v, env2)), ps) => eval_stmts(
                stmts.subrange(1, stmts.len() as int),
                env2,
                v,
                prints + ps,
            ),
            (None, ps) => (None, prints + ps),
        }
    }
}

/// Evaluation of a whole program: the value of its last statement, or `0` for
/// the empty program.
pub open spec fn eval_program(p: Seq<SpecStmt>) -> (Option<i64>, Seq<i64>) {
    eval_stmts(p, Map::empty(), 0i64, Seq::empty())
}

/// The conditions the code generator rejects, in the order it meets them
/// (depth-first, left-to-right, arguments before the arity check).
pub enum SpecLowerError {
    UndefinedVariable(Seq<char>),
    UnknownFunction(Seq<char>),
    PrintArity,
    UnsupportedOperator(SpecToken),
}

/// The first fatal condition in an expression, if any: an unbound variable, a
/// call to anything but `print`, a `print` arity other than one, or an
/// operator token outside the operator subset.
pub open spec fn expr_check(e: SpecExpr, bound: Set<Seq<char>>) -> Option<SpecLowerError>
    decreases e,
{
    match e {
        SpecExpr::Number(_) => None,
        SpecExpr::Bool(_) => None,
        SpecExpr::Variable(name) => {
            if bound.contains(name) {
                None
            } else {
                Some(SpecLowerError::UndefinedVariable(name))
            }
        },
        SpecExpr::FunctionCall { name, args } => {
            if name == print_name() {
                match args_check(args, bound) {
                    Some(er) => Some(er),
                    None => {
                        if args.len() == 1 {
                            None
                        } else {
                            Some(SpecLowerError::PrintArity)
                        }
                    },
                }
            } else {
                Some(SpecLowerError::UnknownFunction(name))
            }
        },
        SpecExpr::BinaryOp { op, left, right } => {
            match expr_check(*left, bound) {
                Some(er) => Some(er),
                None => match expr_check(*right, bound) {
                    Some(er) => Some(er),
                    None => {
                        if is_binary_op(op) {
                            None
                        } else {
                            Some(SpecLowerError::UnsupportedOperator(op))
                        }
                    },
                },
            }
        },
        SpecExpr::UnaryOp { op, expr } => {
            match expr_check(*expr, bound) {
                Some(er) => Some(er),
                None => {
                    if is_unary_op(op) {
                        None
                    } else {
                        Some(SpecLowerError::UnsupportedOperator(op))
                    }
                },
            }
        },
    }
}

/// The first fatal condition in an argument list, if any.
pub open spec fn args_check(args: Seq<SpecExpr>, bound: Set<Seq<char>>) -> Option<SpecLowerError>
    decreases args,
{
    if args.len() == 0 {
        None
    } else {
        match expr_check(args[0], bound) {
            Some(er) => Some(er),
            None => args_check(args.subrange(1, args.len() as int), bound),
        }
    }
}

/// The first fatal condition in a statement list, if any; each `let` binds its
/// name for the statements after it.
pub open spec fn stmts_check(stmts: Seq<SpecStmt>, bound: Set<Seq<char>>) -> Option<SpecLowerError>
    decreases stmts.len(),
{
    if stmts.len() == 0 {
        None
    } else {
        match stmts[0] {
            SpecStmt::ExprStmt(e) => {
                match expr_check(e, bound) {
                    Some(er) => Some(er),
                    None => stmts_check(stmts.subrange(1, stmts.len() as int), bound),
                }
            },
            SpecStmt::LetDecl { name, value } => {
                match expr_check(value, bound) {
                    Some(er) => Some(er),
                    None => stmts_check(stmts.subrange(1, stmts.len() as int), bound.insert(name)),
                }
            },
        }
    }
}

/// The first fatal condition in a program, if any: when this is `None`, the
/// program is valid and compilation succeeds.
pub open spec fn program_check(p: Seq<SpecStmt>) -> Option<SpecLowerError> {
    stmts_check(p, Set::empty())
}

/// Booleans lower to 0/1: an expression whose top-level operator is a
/// comparison, a logical operator or `!` evaluates to either 0 or 1 whenever
/// it evaluates at all.
pub proof fn lemma_boolean_results(e: SpecExpr, env: Map<Seq<char>, i64>)
    requires
        (e matches SpecExpr::BinaryOp { op, .. } && (op == SpecToken::EqualEqual || op
            == SpecToken::NotEqual || op == SpecToken::Less || op == SpecToken::LessEqual || op
            == SpecToken::Greater || op == SpecToken::GreaterEqual || op == SpecToken::AndAnd || op
            == SpecToken::OrOr)) || (e matches SpecExpr::UnaryOp { op, .. } && op
            == SpecToken::Not),
    ensures
        eval_expr(e, env).0 matches Some(v) ==> v == 0 || v == 1,
{
}

/// Both operands of `&&` and `||` are always evaluated: whenever the left
/// operand evaluates to a value, the right operand's prints appear too, even
/// when the left operand already decides the result.
pub proof fn lemma_no_short_circuit(
    op: SpecToken,
    left: SpecExpr,
    right: SpecExpr,
    env: Map<Seq<char>, i64>,
)
    requires
        op == SpecToken::AndAnd || op == SpecToken::OrOr,
    ensures
        ({
            let whole = eval_expr(
                SpecExpr::BinaryOp { op, left: Box::new(left), right: Box::new(right) },
                env,
            );
            let (lv, lp) = eval_expr(left, env);
            let (rv, rp) = eval_expr(right, env);
            &&& (lv is Some ==> whole.1 == lp + rp)
            &&& (lv is None ==> whole.1 == lp)
        }),
{
}

/// The empty program evaluates to 0 and prints nothing.
pub proof fn lemma_empty_program()
    ensures
        eval_program(Seq::empty()) == (Some(0i64), Seq::<i64>::empty()),
{
}

/// Let-shadowing: binding the same name twice leaves the second value in
/// force, for any name and any two literal values.
pub proof fn lemma_let_shadowing(name: Seq<char>, a: i64, b: i64)
    ensures
        eval_program(
            seq![
                SpecStmt::LetDecl { name, value: SpecExpr::Number(a) },
                SpecStmt::LetDecl { name, value: SpecExpr::Number(b) },
                SpecStmt::ExprStmt(SpecExpr::Variable(name)),
            ],
        ) == (Some(b), Seq::<i64>::empty()),
{
    let p = seq![
        SpecStmt::LetDecl { name, value: SpecExpr::Number(a) },
        SpecStmt::LetDecl { name, value: SpecExpr::Number(b) },
        SpecStmt::ExprStmt(SpecExpr::Variable(name)),
    ];
    reveal_with_fuel(eval_stmts, 5);
    let env1 = Map::<Seq<char>, i64>::empty().insert(name, a);
    let env2 = env1.insert(name, b);
    let p1 = p.subrange(1, 3);
    let p2 = p1.subrange(1, 2);
    let p3 = p2.subrange(1, 1);
    assert(p1[0] == p[1] && p2[0] == p1[1] && p1[1] == p[2]);
    assert(p3 =~= Seq::<SpecStmt>::empty());
    assert(Seq::<i64>::empty() + Seq::<i64>::empty() =~= Seq::<i64>::empty());
    assert(eval_stmts(p3, env2, b, Seq::<i64>::empty()) == (Some(b), Seq::<i64>::empty()));
}

} // verus!
