//! Code generation: lowering the AST onto the backend IR, one entry block,
//! statements in order, locals in stack slots. The main theorem: the lowered
//! function's outcome under the IR machine semantics is exactly the program's
//! evaluation (`eval_program`), and lowering succeeds exactly on valid
//! programs (`program_check`).

use vstd::prelude::*;

use crate::ast::Expr;
use crate::ast::Program;
use crate::ast::SpecExpr;
use crate::ast::SpecStmt;
use crate::ast::Stmt;
use crate::ast::exprs_view;
use crate::ast::lemma_exprs_view_index;
use crate::ir::Inst;
use crate::ir::IrFunction;
use crate::ir::IrState;
use crate::ir::RunResult;
use crate::ir::init_state;
use crate::ir::inst_wf;
use crate::ir::step;
use crate::ir::insts_wf;
use crate::ir::lemma_run_to_frozen;
use crate::ir::lemma_run_to_grows;
use crate::ir::lemma_run_to_prefix;
use crate::ir::lemma_run_to_vals_len;
use crate::ir::outcome_of;
use crate::ir::run_to;
use crate::lexer::Token;
use crate::parser::clone_tok;
use crate::sem::SpecLowerError;
use crate::sem::args_check;
use crate::sem::eval_expr;
use crate::sem::eval_program;
use crate::sem::eval_stmt;
use crate::sem::eval_stmts;
use crate::sem::expr_check;
use crate::sem::print_name;
use crate::sem::program_check;
use crate::sem::stmts_check;
use vstd::string::StrSliceExecFns;

verus! {

/// The fatal code-generation conditions, with the offending name or operator.
#[derive(Debug, Clone, PartialEq)]
pub enum LowerError {
    UndefinedVariable(String),
    UnknownFunction(String),
    PrintArity,
    UnsupportedOperator(Token),
}

impl View for LowerError {
    type V = SpecLowerError;

    open spec fn view(&self) -> SpecLowerError {
        match self {
            LowerError::UndefinedVariable(n) => SpecLowerError::UndefinedVariable(n@),
            LowerError::UnknownFunction(n) => SpecLowerError::UnknownFunction(n@),
            LowerError::PrintArity => SpecLowerError::PrintArity,
            LowerError::UnsupportedOperator(t) => SpecLowerError::UnsupportedOperator(t@),
        }
    }
}

/// The variable mapping: name to stack slot, later bindings shadowing earlier
/// ones.
pub open spec fn env_map(es: Seq<(String, usize)>) -> Map<Seq<char>, usize>
    decreases es.len(),
{
    if es.len() == 0 {
        Map::empty()
    } else {
        env_map(es.drop_last()).insert(es.last().0@, es.last().1)
    }
}

/// Bindings after position `i` that do not mention `n` do not affect its
/// lookup.
proof fn lemma_env_map_skip(es: Seq<(String, usize)>, i: int, n: Seq<char>)
    requires
        0 <= i <= es.len(),
        forall|k: int| i <= k < es.len() ==> (#[trigger] es[k]).0@ != n,
    ensures
        env_map(es).contains_key(n) == env_map(es.subrange(0, i)).contains_key(n),
        env_map(es).contains_key(n) ==> env_map(es)[n] == env_map(es.subrange(0, i))[n],
    decreases es.len() - i,
{
    if i < es.len() {
        assert(es.last() == es[es.len() - 1]);
        lemma_env_map_skip(es.drop_last(), i, n);
        assert(es.drop_last().subrange(0, i) =~= es.subrange(0, i));
    } else {
        assert(es.subrange(0, i) =~= es);
    }
}

/// Looks a name up in the variable mapping, later bindings first.
fn env_lookup(env: &Vec<(String, usize)>, name: &String) -> (r: Option<usize>)
    ensures
        match r {
            Some(sl) => env_map(env@).contains_key(name@) && env_map(env@)[name@] == sl,
            None => !env_map(env@).contains_key(name@),
        },
{
    let mut i = env.len();
    while i > 0
        invariant
            i <= env@.len(),
            forall|k: int| i <= k < env@.len() ==> (#[trigger] env@[k]).0@ != name@,
        decreases i,
    {
        i = i - 1;
        if env[i].0 == *name {
            proof {
                lemma_env_map_skip(env@, i as int + 1, name@);
                let pre = env@.subrange(0, i as int + 1);
                assert(pre.last() == env@[i as int]);
            }
            return Some(env[i].1);
        }
    }
    proof {
        lemma_env_map_skip(env@, 0, name@);
        assert(env@.subrange(0, 0) =~= Seq::<(String, usize)>::empty());
    }
    None
}

/// Is this name the one host-provided function, `print`?
fn is_print(name: &String) -> (r: bool)
    ensures
        r == (name@ == print_name()),
{
    let s = name.as_str();
    let n = s.unicode_len();
    if n == 5 && s.get_char(0) == 'p' && s.get_char(1) == 'r' && s.get_char(2) == 'i' && s.get_char(
        3,
    ) == 'n' && s.get_char(4) == 't' {
        proof {
            assert(name@ =~= print_name());
        }
        true
    } else {
        proof {
            assert(print_name().len() == 5);
            assert(name@ != print_name());
        }
        false
    }
}

/// The names bound in a variable mapping agree with the semantic environment.
pub open spec fn env_binds(env: Seq<(String, usize)>, sem: Map<Seq<char>, i64>) -> bool {
    env_map(env).dom() == sem.dom()
}

/// Every bound variable's stack slot holds its semantic value.
pub open spec fn slots_ok(
    env: Seq<(String, usize)>,
    sem: Map<Seq<char>, i64>,
    s: IrState,
) -> bool {
    forall|n: Seq<char>|
        #[trigger] sem.contains_key(n) ==> env_map(env).contains_key(n) && (env_map(env)[n] as int)
            < s.slots.len() && s.slots[env_map(env)[n] as int] == sem[n]
}

/// The first fatal condition in one statement, if any.
pub open spec fn stmt_check(s: SpecStmt, bound: Set<Seq<char>>) -> Option<SpecLowerError> {
    match s {
        SpecStmt::ExprStmt(e) => expr_check(e, bound),
        SpecStmt::LetDecl { name, value } => expr_check(value, bound),
    }
}

/// Emits the IR for one expression, appending to `insts`; on success the
/// returned index names the instruction whose value is the expression's value.
/// The ghost `sem` is the semantic environment the emitted code runs under;
/// whenever the code so far has not trapped, the emitted code computes exactly
/// `eval_expr` — same value, same prints, same trap — and leaves the slots
/// alone.
#[verifier::rlimit(100)]
#[verifier::spinoff_prover]
fn lower_expr(
    e: &Expr,
    env: &Vec<(String, usize)>,
    insts: &mut Vec<Inst>,
    Ghost(sem): Ghost<Map<Seq<char>, i64>>,
) -> (r: Result<usize, LowerError>)
    requires
        insts_wf(old(insts)@),
        env_binds(env@, sem),
        !run_to(old(insts)@, old(insts)@.len() as int).trapped ==> slots_ok(
            env@,
            sem,
            run_to(old(insts)@, old(insts)@.len() as int),
        ),
    ensures
        insts_wf(final(insts)@),
        final(insts)@.len() >= old(insts)@.len(),
        final(insts)@.subrange(0, old(insts)@.len() as int) == old(insts)@,
        match r {
            Ok(idx) => {
                let s0 = run_to(old(insts)@, old(insts)@.len() as int);
                let s1 = run_to(final(insts)@, final(insts)@.len() as int);
                &&& expr_check(e@, sem.dom()) is None
                &&& (idx as int) < final(insts)@.len()
                &&& final(insts)@.len() > old(insts)@.len()
                &&& (!s0.trapped ==> ({
                    let (v, ps) = eval_expr(e@, sem);
                    match v {
                        Some(x) => !s1.trapped && s1.slots == s0.slots && s1.prints == s0.prints
                            + ps && (idx as int) == final(insts)@.len() - 1 && s1.vals[idx as int]
                            == x,
                        None => s1.trapped && s1.prints == s0.prints + ps,
                    }
                }))
            },
            Err(er) => expr_check(e@, sem.dom()) == Some(er@),
        },
    decreases e,
{
    let ghost base = insts@;
    let ghost s0 = run_to(insts@, insts@.len() as int);
    match e {
        Expr::Number(n) => {
            let idx = insts.len();
            insts.push(Inst::Iconst(*n));
            proof {
                assert(insts_wf(insts@));
                lemma_run_to_prefix(base, insts@, base.len() as int);
                assert(s0.prints + Seq::<i64>::empty() =~= s0.prints);
                if !s0.trapped {
                    lemma_run_to_vals_len(base, base.len() as int);
                }
            }
            return Ok(idx);
        },
        Expr::Bool(b) => {
            let idx = insts.len();
            insts.push(
                Inst::Iconst(
                    if *b {
                        1i64
                    } else {
                        0i64
                    },
                ),
            );
            proof {
                assert(insts_wf(insts@));
                lemma_run_to_prefix(base, insts@, base.len() as int);
                assert(s0.prints + Seq::<i64>::empty() =~= s0.prints);
                if !s0.trapped {
                    lemma_run_to_vals_len(base, base.len() as int);
                }
            }
            return Ok(idx);
        },
        Expr::Variable(name) => {
            match env_lookup(env, name) {
                Some(sl) => {
                    let idx = insts.len();
                    insts.push(Inst::StackLoad(sl));
                    proof {
                        assert(insts_wf(insts@));
                        lemma_run_to_prefix(base, insts@, base.len() as int);
                        assert(s0.prints + Seq::<i64>::empty() =~= s0.prints);
                        assert(sem.dom().contains(name@));
                        if !s0.trapped {
                            lemma_run_to_vals_len(base, base.len() as int);
                        }
                    }
                    return Ok(idx);
                },
                None => {
                    proof {
                        assert(!sem.dom().contains(name@));
                    }
                    Err(LowerError::UndefinedVariable(name.clone()))
                },
            }
        },
        Expr::FunctionCall { name, args } => {
            if is_print(name) {
                proof {
                    lemma_exprs_view_index(args@);
                }
                if args.len() == 1 {
                    let ai = match lower_expr(&args[0], env, insts, Ghost(sem)) {
                        Ok(i) => i,
                        Err(er) => {
                            proof {
                                assert(exprs_view(args@).subrange(1, 1)
                                    =~= Seq::<SpecExpr>::empty());
                            }
                            return Err(er);
                        },
                    };
                    let ghost mid = insts@;
                    let ghost s1 = run_to(mid, mid.len() as int);
                    let idx = insts.len();
                    insts.push(Inst::CallPrint(ai));
                    proof {
                        reveal_with_fuel(args_check, 3);
                        assert(insts_wf(insts@));
                        lemma_run_to_prefix(mid, insts@, mid.len() as int);
                        assert(insts@.subrange(0, base.len() as int) =~= mid.subrange(
                            0,
                            base.len() as int,
                        ));
                        assert(exprs_view(args@).subrange(1, 1) =~= Seq::<SpecExpr>::empty());
                        if !s0.trapped {
                            let (v, ps) = eval_expr(exprs_view(args@)[0], sem);
                            match v {
                                Some(x) => {
                                    lemma_run_to_vals_len(mid, mid.len() as int);
                                    assert((s0.prints + ps).push(x) =~= s0.prints + ps.push(x));
                                },
                                None => {
                                    lemma_run_to_frozen(insts@, mid.len() as int, insts@.len() as int);
                                },
                            }
                        }
                    }
                    return Ok(idx);
                } else {
                    // The arguments are still generated, in order, so that the
                    // first fatal condition inside them is the one reported.
                    let mut k: usize = 0;
                    proof {
                        assert(exprs_view(args@).subrange(0, exprs_view(args@).len() as int)
                            =~= exprs_view(args@));
                    }
                    while k < args.len()
                        invariant
                            base == old(insts)@,
                            name@ == print_name(),
                            e == (Expr::FunctionCall { name: *name, args: *args }),
                            env_binds(env@, sem),
                            insts_wf(insts@),
                            k <= args@.len(),
                            exprs_view(args@).len() == args@.len(),
                            forall|i: int|
                                0 <= i < args@.len() ==> exprs_view(args@)[i] == crate::ast::expr_view(
                                    #[trigger] args@[i],
                                ),
                            insts@.len() >= base.len(),
                            insts@.subrange(0, base.len() as int) == base,
                            args_check(exprs_view(args@), sem.dom()) == args_check(
                                exprs_view(args@).subrange(k as int, args@.len() as int),
                                sem.dom(),
                            ),
                            !run_to(insts@, insts@.len() as int).trapped ==> slots_ok(
                                env@,
                                sem,
                                run_to(insts@, insts@.len() as int),
                            ),
                        decreases args@.len() - k,
                    {
                        let ghost before = insts@;
                        proof {
                            assert(decreases_to!(e => args@[k as int]));
                        }
                        match lower_expr(&args[k], env, insts, Ghost(sem)) {
                            Ok(_) => {},
                            Err(er) => {
                                return Err(er);
                            },
                        }
                        proof {
                            assert(insts@.subrange(0, base.len() as int) =~= before.subrange(
                                0,
                                base.len() as int,
                            ));
                            let rest = exprs_view(args@).subrange(k as int, args@.len() as int);
                            assert(rest[0] == exprs_view(args@)[k as int]);
                            assert(rest.subrange(1, rest.len() as int) =~= exprs_view(
                                args@,
                            ).subrange(k as int + 1, args@.len() as int));
                            let snew = run_to(insts@, insts@.len() as int);
                            if !snew.trapped {
                                lemma_run_to_grows(insts@, before.len() as int, insts@.len() as int);
                                lemma_run_to_prefix(before, insts@, before.len() as int);
                            }
                        }
                        k = k + 1;
                    }
                    proof {
                        assert(exprs_view(args@).subrange(
                            args@.len() as int,
                            args@.len() as int,
                        ) =~= Seq::<SpecExpr>::empty());
                    }
                    Err(LowerError::PrintArity)
                }
            } else {
                Err(LowerError::UnknownFunction(name.clone()))
            }
        },
        Expr::BinaryOp { op, left, right } => {
            let li = match lower_expr(left, env, insts, Ghost(sem)) {
                Ok(i) => i,
                Err(er) => {
                    return Err(er);
                },
            };
            let ghost mid1 = insts@;
            let ghost s1 = run_to(mid1, mid1.len() as int);
            proof {
                if s0.trapped {
                    lemma_run_to_prefix(base, mid1, base.len() as int);
                    lemma_run_to_frozen(mid1, base.len() as int, mid1.len() as int);
                }
            }
            let ri = match lower_expr(right, env, insts, Ghost(sem)) {
                Ok(i) => i,
                Err(er) => {
                    proof {
                        assert(insts@.subrange(0, base.len() as int) =~= mid1.subrange(
                            0,
                            base.len() as int,
                        ));
                    }
                    return Err(er);
                },
            };
            let ghost mid2 = insts@;
            let ghost s2 = run_to(mid2, mid2.len() as int);
            let idx = insts.len();
            let inst = match op {
                Token::Plus => Inst::Iadd(li, ri),
                Token::Minus => Inst::Isub(li, ri),
                Token::Star => Inst::Imul(li, ri),
                Token::Slash => Inst::Sdiv(li, ri),
                Token::Percent => Inst::Srem(li, ri),
                Token::EqualEqual => Inst::CmpEq(li, ri),
                Token::NotEqual => Inst::CmpNe(li, ri),
                Token::Less => Inst::CmpLt(li, ri),
                Token::LessEqual => Inst::CmpLe(li, ri),
                Token::Greater => Inst::CmpGt(li, ri),
                Token::GreaterEqual => Inst::CmpGe(li, ri),
                Token::AndAnd => Inst::BothNonzero(li, ri),
                Token::OrOr => Inst::EitherNonzero(li, ri),
                other => {
                    proof {
                        assert(insts@.subrange(0, base.len() as int) =~= mid1.subrange(
                            0,
                            base.len() as int,
                        ));
                    }
                    return Err(LowerError::UnsupportedOperator(clone_tok(other)));
                },
            };
            insts.push(inst);
            proof {
                assert(insts_wf(insts@));
                lemma_run_to_prefix(mid2, insts@, mid2.len() as int);
                assert(insts@.subrange(0, base.len() as int) =~= mid2.subrange(
                    0,
                    base.len() as int,
                ));
                if !s0.trapped {
                    let (lv, lp) = eval_expr(crate::ast::expr_view(**left), sem);
                    match lv {
                        Some(a) => {
                            lemma_run_to_vals_len(mid1, mid1.len() as int);
                            let (rv, rp) = eval_expr(crate::ast::expr_view(**right), sem);
                            match rv {
                                Some(b) => {
                                    lemma_run_to_vals_len(mid2, mid2.len() as int);
                                    lemma_run_to_grows(mid2, mid1.len() as int, mid2.len() as int);
                                    lemma_run_to_prefix(mid1, mid2, mid1.len() as int);
                                    assert(s2.vals[li as int] == a);
                                    assert(s2.vals[ri as int] == b);
                                    assert(s0.prints + (lp + rp) =~= (s0.prints + lp) + rp);
                                },
                                None => {
                                    lemma_run_to_frozen(insts@, mid2.len() as int, insts@.len() as int);
                                    assert(s0.prints + (lp + rp) =~= (s0.prints + lp) + rp);
                                },
                            }
                        },
                        None => {
                            lemma_run_to_prefix(mid1, mid2, mid1.len() as int);
                            lemma_run_to_frozen(mid2, mid1.len() as int, mid2.len() as int);
                            lemma_run_to_frozen(insts@, mid2.len() as int, insts@.len() as int);
                        },
                    }
                }
            }
            return Ok(idx);
        },
        Expr::UnaryOp { op, expr } => {
            let vi = match lower_expr(expr, env, insts, Ghost(sem)) {
                Ok(i) => i,
                Err(er) => {
                    return Err(er);
                },
            };
            let ghost mid1 = insts@;
            let ghost s1 = run_to(mid1, mid1.len() as int);
            let is_neg = match op {
                Token::Minus => true,
                Token::Not => false,
                other => {
                    return Err(LowerError::UnsupportedOperator(clone_tok(other)));
                },
            };
            let ci = insts.len();
            insts.push(
                Inst::Iconst(
                    if is_neg {
                        -1i64
                    } else {
                        0i64
                    },
                ),
            );
            let idx = insts.len();
            insts.push(
                if is_neg {
                    Inst::Imul(vi, ci)
                } else {
                    Inst::CmpEq(vi, ci)
                },
            );
            proof {
                assert(insts_wf(insts@));
                lemma_run_to_prefix(mid1, insts@, mid1.len() as int);
                assert(insts@.subrange(0, base.len() as int) =~= mid1.subrange(
                    0,
                    base.len() as int,
                ));
                if !s0.trapped {
                    let (v, ps) = eval_expr(crate::ast::expr_view(**expr), sem);
                    match v {
                        Some(x) => {
                            lemma_run_to_vals_len(mid1, mid1.len() as int);
                            let smid = run_to(insts@, mid1.len() as int + 1);
                            assert(smid.vals[vi as int] == x);
                        },
                        None => {
                            lemma_run_to_frozen(insts@, mid1.len() as int, insts@.len() as int);
                        },
                    }
                }
            }
            return Ok(idx);
        },
    }
}

/// Emits the IR for one statement. A `let` allocates the next stack slot,
/// stores the value, and binds the name (shadowing any earlier binding); the
/// statement's value is the value of its expression.
fn lower_stmt(
    s: &Stmt,
    env: &mut Vec<(String, usize)>,
    insts: &mut Vec<Inst>,
    slot_count: &mut usize,
    Ghost(sem): Ghost<Map<Seq<char>, i64>>,
) -> (r: Result<usize, LowerError>)
    requires
        insts_wf(old(insts)@),
        env_binds(old(env)@, sem),
        *old(slot_count) <= old(insts)@.len(),
        !run_to(old(insts)@, old(insts)@.len() as int).trapped ==> slots_ok(
            old(env)@,
            sem,
            run_to(old(insts)@, old(insts)@.len() as int),
        ) && run_to(old(insts)@, old(insts)@.len() as int).slots.len() == *old(slot_count),
    ensures
        insts_wf(final(insts)@),
        final(insts)@.len() >= old(insts)@.len(),
        final(insts)@.subrange(0, old(insts)@.len() as int) == old(insts)@,
        *final(slot_count) <= final(insts)@.len(),
        match r {
            Ok(idx) => {
                let s0 = run_to(old(insts)@, old(insts)@.len() as int);
                let s1 = run_to(final(insts)@, final(insts)@.len() as int);
                &&& stmt_check(s@, sem.dom()) is None
                &&& (idx as int) < final(insts)@.len()
                &&& match eval_stmt(s@, sem) {
                    (Some((v, sem2)), ps) => env_binds(final(env)@, sem2) && (!s0.trapped
                        ==> !s1.trapped && slots_ok(final(env)@, sem2, s1) && s1.slots.len()
                        == *final(slot_count) && (idx as int) < s1.vals.len() && s1.vals[idx as int]
                        == v && s1.prints == s0.prints + ps),
                    (None, ps) => (match s@ {
                        SpecStmt::LetDecl { name, value } => env_binds(
                            final(env)@,
                            sem.insert(name, 0i64),
                        ),
                        SpecStmt::ExprStmt(_) => env_binds(final(env)@, sem),
                    }) && (!s0.trapped ==> s1.trapped && s1.prints == s0.prints + ps),
                }
            },
            Err(er) => stmt_check(s@, sem.dom()) == Some(er@) && final(env)@ == old(env)@,
        },
{
    let ghost base = insts@;
    let ghost s0 = run_to(insts@, insts@.len() as int);
    match s {
        Stmt::ExprStmt(e) => {
            match lower_expr(e, env, insts, Ghost(sem)) {
                Ok(idx) => {
                    proof {
                        if !s0.trapped {
                            match eval_expr(crate::ast::expr_view(*e), sem) {
                                (Some(_), _) => {
                                    lemma_run_to_vals_len(insts@, insts@.len() as int);
                                },
                                (None, _) => {},
                            }
                        }
                    }
                    Ok(idx)
                },
                Err(er) => Err(er),
            }
        },
        Stmt::LetDecl { name, value } => {
            let idx = match lower_expr(value, env, insts, Ghost(sem)) {
                Ok(i) => i,
                Err(er) => {
                    return Err(er);
                },
            };
            let ghost mid = insts@;
            let ghost s1 = run_to(mid, mid.len() as int);
            let sl = *slot_count;
            let n_now = insts.len();
            proof {
                assert(sl < n_now);
            }
            *slot_count = *slot_count + 1;
            insts.push(Inst::StackStore(idx, sl));
            let ghost prev_env = env@;
            env.push((name.clone(), sl));
            proof {
                assert(insts_wf(insts@));
                lemma_run_to_prefix(mid, insts@, mid.len() as int);
                assert(insts@.subrange(0, base.len() as int) =~= mid.subrange(
                    0,
                    base.len() as int,
                ));
                assert(env@.drop_last() =~= prev_env);
                assert(env_map(env@) == env_map(prev_env).insert(name@, sl));
                if !s0.trapped {
                    let (v, ps) = eval_expr(crate::ast::expr_view(*value), sem);
                    match v {
                        Some(x) => {
                            lemma_run_to_vals_len(mid, mid.len() as int);
                            let s2 = run_to(insts@, insts@.len() as int);
                            let sem2 = sem.insert(name@, x);
                            assert(env_map(env@).dom() =~= sem2.dom());
                            assert(s2.slots == s1.slots.push(x));
                            assert forall|n: Seq<char>| #[trigger]
                                sem2.contains_key(n) implies env_map(env@).contains_key(n)
                                && (env_map(env@)[n] as int) < s2.slots.len()
                                && s2.slots[env_map(env@)[n] as int] == sem2[n] by {
                                if n != name@ {
                                    assert(sem.contains_key(n));
                                }
                            }
                        },
                        None => {
                            lemma_run_to_frozen(insts@, mid.len() as int, insts@.len() as int);
                            assert(env_map(env@).dom() =~= sem.insert(name@, 0i64).dom());
                        },
                    }
                } else {
                    assert(env_map(env@).dom() =~= sem.insert(name@, 0i64).dom());
                    assert(env_map(env@).dom() =~= sem.insert(
                        name@,
                        eval_expr(crate::ast::expr_view(*value), sem).0->Some_0,
                    ).dom());
                }
            }
            Ok(idx)
        },
    }
}

/// Compiles a program to one IR function: statements in order into a single
/// entry block, returning the last statement's value, or 0 for the empty
/// program. Succeeds exactly on valid programs, and the compiled function's
/// outcome is exactly the program's evaluation.
pub fn lower_program(p: &Program) -> (r: Result<IrFunction, LowerError>)
    ensures
        match r {
            Ok(f) => f.wf() && program_check(p@) is None && outcome_of(f.insts@, f.ret as int)
                == eval_program(p@),
            Err(er) => program_check(p@) == Some(er@),
        },
{
    let mut insts: Vec<Inst> = Vec::new();
    let mut env: Vec<(String, usize)> = Vec::new();
    let mut slot_count: usize = 0;
    let mut last_idx: Option<usize> = None;
    let ghost mut sem = Map::<Seq<char>, i64>::empty();
    let ghost mut lastv = 0i64;
    let mut k: usize = 0;
    proof {
        assert(p@.subrange(0, p@.len() as int) =~= p@);
        assert(env_map(env@) =~= Map::<Seq<char>, usize>::empty());
        assert(env_map(env@).dom() =~= sem.dom());
    }
    while k < p.stmts.len()
        invariant
            k <= p.stmts@.len(),
            p@.len() == p.stmts@.len(),
            forall|i: int| 0 <= i < p@.len() ==> p@[i] == crate::ast::stmt_view(#[trigger] p.stmts@[i]),
            insts_wf(insts@),
            env_binds(env@, sem),
            slot_count <= insts@.len(),
            (last_idx is None) <==> (k == 0),
            k == 0 ==> insts@ == Seq::<Inst>::empty(),
            match last_idx {
                Some(li) => (li as int) < insts@.len(),
                None => true,
            },
            stmts_check(p@, Set::empty()) == stmts_check(
                p@.subrange(k as int, p@.len() as int),
                sem.dom(),
            ),
            ({
                let s = run_to(insts@, insts@.len() as int);
                &&& (!s.trapped ==> slots_ok(env@, sem, s) && s.slots.len() == slot_count)
                &&& (!s.trapped ==> match last_idx {
                    Some(li) => (li as int) < s.vals.len() && s.vals[li as int] == lastv,
                    None => lastv == 0i64,
                })
                &&& eval_program(p@) == (if s.trapped {
                    (None::<i64>, s.prints)
                } else {
                    eval_stmts(p@.subrange(k as int, p@.len() as int), sem, lastv, s.prints)
                })
            }),
        decreases p.stmts@.len() - k,
    {
        let ghost before = insts@;
        let ghost s_before = run_to(before, before.len() as int);
        let ghost rem = p@.subrange(k as int, p@.len() as int);
        proof {
            assert(rem[0] == p@[k as int]);
            assert(rem.subrange(1, rem.len() as int) =~= p@.subrange(
                k as int + 1,
                p@.len() as int,
            ));
        }
        let idx = match lower_stmt(&p.stmts[k], &mut env, &mut insts, &mut slot_count, Ghost(sem)) {
            Ok(i) => i,
            Err(er) => {
                return Err(er);
            },
        };
        proof {
            match eval_stmt(p@[k as int], sem) {
                (Some((v, sem2)), ps) => {
                    sem = sem2;
                    lastv = v;
                },
                (None, ps) => {
                    match p@[k as int] {
                        SpecStmt::LetDecl { name, value } => {
                            sem = sem.insert(name, 0i64);
                        },
                        SpecStmt::ExprStmt(_) => {},
                    }
                },
            }
        }
        proof {
            if s_before.trapped {
                lemma_run_to_prefix(before, insts@, before.len() as int);
                lemma_run_to_frozen(insts@, before.len() as int, insts@.len() as int);
            }
            match eval_stmt(p@[k as int], sem) {
                (Some((v, sem2)), ps) => {},
                (None, ps) => {},
            }
            match p@[k as int] {
                SpecStmt::LetDecl { name, value } => {
                    match eval_stmt(p@[k as int], Map::empty()) {
                        _ => {},
                    }
                },
                SpecStmt::ExprStmt(_) => {},
            }
        }
        last_idx = Some(idx);
        k = k + 1;
    }
    proof {
        assert(p@.subrange(p@.len() as int, p@.len() as int) =~= Seq::<SpecStmt>::empty());
        assert(stmts_check(p@.subrange(p@.len() as int, p@.len() as int), sem.dom()) is None);
        assert(program_check(p@) is None);
    }
    let ret: usize = match last_idx {
        Some(li) => {
            proof {
                let s = run_to(insts@, insts@.len() as int);
                if !s.trapped {
                    assert(eval_stmts(
                        p@.subrange(p@.len() as int, p@.len() as int),
                        sem,
                        lastv,
                        s.prints,
                    ) == (Some(lastv), s.prints));
                    assert(outcome_of(insts@, li as int) == eval_program(p@));
                } else {
                    assert(outcome_of(insts@, li as int) == eval_program(p@));
                }
            }
            li
        },
        None => {
            let i = insts.len();
            insts.push(Inst::Iconst(0));
            proof {
                assert(insts_wf(insts@));
                assert(p@ =~= Seq::<SpecStmt>::empty());
                let s1 = run_to(insts@, 1);
                assert(run_to(insts@, 0) == init_state());
                assert(s1 == step(init_state(), Inst::Iconst(0)));
                assert(outcome_of(insts@, 0) == (Some(0i64), Seq::<i64>::empty()));
                assert(eval_program(p@) == (Some(0i64), Seq::<i64>::empty()));
            }
            i
        },
    };
    Ok(IrFunction { insts, slot_count, ret })
}

/// Compiles a program and executes it on the reference machine: the value of
/// its last statement (0 for the empty program) and everything printed, or the
/// trap, or the fatal condition that makes the program invalid.
pub fn run_program(p: &Program) -> (r: Result<RunResult, LowerError>)
    ensures
        match r {
            Ok(rr) => program_check(p@) is None && (match eval_program(p@) {
                (Some(v), ps) => rr matches RunResult::Done { result, prints } && result == v
                    && prints@ == ps,
                (None, ps) => rr matches RunResult::Trapped { prints } && prints@ == ps,
            }),
            Err(er) => program_check(p@) == Some(er@),
        },
{
    match lower_program(p) {
        Ok(f) => Ok(f.run()),
        Err(er) => Err(er),
    }
}

} // verus!
