//! The backend intermediate representation: a single straight-line function
//! over 64-bit values. Each instruction produces exactly one value, identified
//! by its position; stack slots hold the locals. The semantics (`run_to`) is
//! the reference that both the verified interpreter and the lowering theorem
//! speak of.

use vstd::prelude::*;

use crate::sem::eval_binop;
use crate::sem::sdiv_opt;
use crate::sem::srem_opt;
use crate::lexer::SpecToken;
use vstd::wrapping::i64_specs;

verus! {

/// One IR instruction. Value operands name earlier instructions by index.
/// `StackStore` also yields the stored value, so that every instruction
/// produces one value. Comparisons yield 0/1 (the compare-then-zero-extend
/// pair); `BothNonzero`/`EitherNonzero` compare each operand against zero and
/// combine (the non-short-circuit `&&`/`||` lowering).
#[derive(Debug, Clone, Copy, PartialEq)]
pub enum Inst {
    Iconst(i64),
    StackLoad(usize),
    StackStore(usize, usize),
    CallPrint(usize),
    Iadd(usize, usize),
    Isub(usize, usize),
    Imul(usize, usize),
    Sdiv(usize, usize),
    Srem(usize, usize),
    CmpEq(usize, usize),
    CmpNe(usize, usize),
    CmpLt(usize, usize),
    CmpLe(usize, usize),
    CmpGt(usize, usize),
    CmpGe(usize, usize),
    BothNonzero(usize, usize),
    EitherNonzero(usize, usize),
}

/// A complete IR function: instructions, the number of stack slots, and the
/// index of the instruction whose value is returned.
#[derive(Debug, PartialEq)]
pub struct IrFunction {
    pub insts: Vec<Inst>,
    pub slot_count: usize,
    pub ret: usize,
}

/// The machine state after some prefix of the instructions: the values
/// produced so far, the stack slots, everything printed, and whether a trap
/// (division by zero or overflowing quotient) has fired. A trapped state is
/// frozen.
pub struct IrState {
    pub vals: Seq<i64>,
    pub slots: Seq<i64>,
    pub prints: Seq<i64>,
    pub trapped: bool,
}

/// The state before the first instruction.
pub open spec fn init_state() -> IrState {
    IrState { vals: Seq::empty(), slots: Seq::empty(), prints: Seq::empty(), trapped: false }
}

/// The value named by operand `i`, or 0 out of range (well-formed code never
/// reads out of range).
pub open spec fn val_of(s: IrState, i: usize) -> i64 {
    if i < s.vals.len() {
        s.vals[i as int]
    } else {
        0i64
    }
}

/// Every value operand names an earlier instruction.
pub open spec fn inst_wf(inst: Inst, idx: int) -> bool {
    match inst {
        Inst::Iconst(_) => true,
        Inst::StackLoad(_) => true,
        Inst::StackStore(v, _) => v < idx,
        Inst::CallPrint(v) => v < idx,
        Inst::Iadd(a, b) => a < idx && b < idx,
        Inst::Isub(a, b) => a < idx && b < idx,
        Inst::Imul(a, b) => a < idx && b < idx,
        Inst::Sdiv(a, b) => a < idx && b < idx,
        Inst::Srem(a, b) => a < idx && b < idx,
        Inst::CmpEq(a, b) => a < idx && b < idx,
        Inst::CmpNe(a, b) => a < idx && b < idx,
        Inst::CmpLt(a, b) => a < idx && b < idx,
        Inst::CmpLe(a, b) => a < idx && b < idx,
        Inst::CmpGt(a, b) => a < idx && b < idx,
        Inst::CmpGe(a, b) => a < idx && b < idx,
        Inst::BothNonzero(a, b) => a < idx && b < idx,
        Inst::EitherNonzero(a, b) => a < idx && b < idx,
    }
}

/// Well-formed instruction sequence.
pub open spec fn insts_wf(insts: Seq<Inst>) -> bool {
    forall|i: int| 0 <= i < insts.len() ==> inst_wf(#[trigger] insts[i], i)
}

/// Storing to a slot: the next fresh slot extends the frame; an existing slot
/// is overwritten; a gap is ignored (well-formed code stores in order).
pub open spec fn store_slot(slots: Seq<i64>, sl: usize, x: i64) -> Seq<i64> {
    if sl == slots.len() {
        slots.push(x)
    } else if sl < slots.len() {
        slots.update(sl as int, x)
    } else {
        slots
    }
}

/// One step of the machine: a trapped state is frozen; otherwise the
/// instruction's value is appended (0 for a trapping division, with the trap
/// flag raised).
pub open spec fn step(s: IrState, inst: Inst) -> IrState {
    if s.trapped {
        s
    } else {
        match inst {
            Inst::Iconst(n) => IrState { vals: s.vals.push(n), ..s },
            Inst::StackLoad(sl) => IrState {
                vals: s.vals.push(
                    if sl < s.slots.len() {
                        s.slots[sl as int]
                    } else {
                        0i64
                    },
                ),
                ..s
            },
            Inst::StackStore(v, sl) => IrState {
                vals: s.vals.push(val_of(s, v)),
                slots: store_slot(s.slots, sl, val_of(s, v)),
                ..s
            },
            Inst::CallPrint(v) => IrState {
                vals: s.vals.push(val_of(s, v)),
                prints: s.prints.push(val_of(s, v)),
                ..s
            },
            Inst::Iadd(a, b) => IrState {
                vals: s.vals.push(i64_specs::wrapping_add(val_of(s, a), val_of(s, b))),
                ..s
            },
            Inst::Isub(a, b) => IrState {
                vals: s.vals.push(i64_specs::wrapping_sub(val_of(s, a), val_of(s, b))),
                ..s
            },
            Inst::Imul(a, b) => IrState {
                vals: s.vals.push(i64_specs::wrapping_mul(val_of(s, a), val_of(s, b))),
                ..s
            },
            Inst::Sdiv(a, b) => match sdiv_opt(val_of(s, a), val_of(s, b)) {
                Some(q) => IrState { vals: s.vals.push(q), ..s },
                None => IrState { vals: s.vals.push(0i64), trapped: true, ..s },
            },
            Inst::Srem(a, b) => match srem_opt(val_of(s, a), val_of(s, b)) {
                Some(q) => IrState { vals: s.vals.push(q), ..s },
                None => IrState { vals: s.vals.push(0i64), trapped: true, ..s },
            },
            Inst::CmpEq(a, b) => IrState {
                vals: s.vals.push(
                    if val_of(s, a) == val_of(s, b) {
                        1i64
                    } else {
                        0i64
                    },
                ),
                ..s
            },
            Inst::CmpNe(a, b) => IrState {
                vals: s.vals.push(
                    if val_of(s, a) != val_of(s, b) {
                        1i64
                    } else {
                        0i64
                    },
                ),
                ..s
            },
            Inst::CmpLt(a, b) => IrState {
                vals: s.vals.push(
                    if val_of(s, a) < val_of(s, b) {
                        1i64
                    } else {
                        0i64
                    },
                ),
                ..s
            },
            Inst::CmpLe(a, b) => IrState {
                vals: s.vals.push(
                    if val_of(s, a) <= val_of(s, b) {
                        1i64
                    } else {
                        0i64
                    },
                ),
                ..s
            },
            Inst::CmpGt(a, b) => IrState {
                vals: s.vals.push(
                    if val_of(s, a) > val_of(s, b) {
                        1i64
                    } else {
                        0i64
                    },
                ),
                ..s
            },
            Inst::CmpGe(a, b) => IrState {
                vals: s.vals.push(
                    if val_of(s, a) >= val_of(s, b) {
                        1i64
                    } else {
                        0i64
                    },
                ),
                ..s
            },
            Inst::BothNonzero(a, b) => IrState {
                vals: s.vals.push(
                    if val_of(s, a) != 0 && val_of(s, b) != 0 {
                        1i64
                    } else {
                        0i64
                    },
                ),
                ..s
            },
            Inst::EitherNonzero(a, b) => IrState {
                vals: s.vals.push(
                    if val_of(s, a) != 0 || val_of(s, b) != 0 {
                        1i64
                    } else {
                        0i64
                    },
                ),
                ..s
            },
        }
    }
}

/// The state after the first `n` instructions.
pub open spec fn run_to(insts: Seq<Inst>, n: int) -> IrState
    decreases n,
{
    if n <= 0 {
        init_state()
    } else {
        step(run_to(insts, n - 1), insts[n - 1])
    }
}

/// The outcome of running a whole instruction sequence and returning the value
/// named by `ret`: the result (`None` on a trap) and everything printed.
pub open spec fn outcome_of(insts: Seq<Inst>, ret: int) -> (Option<i64>, Seq<i64>) {
    let s = run_to(insts, insts.len() as int);
    if s.trapped {
        (None, s.prints)
    } else {
        (
            Some(
                if 0 <= ret && ret < s.vals.len() {
                    s.vals[ret]
                } else {
                    0i64
                },
            ),
            s.prints,
        )
    }
}

/// Running depends only on the instructions actually executed: equal prefixes
/// run to equal states.
pub proof fn lemma_run_to_prefix(insts1: Seq<Inst>, insts2: Seq<Inst>, n: int)
    requires
        forall|i: int| 0 <= i < n ==> insts1[i] == insts2[i],
    ensures
        run_to(insts1, n) == run_to(insts2, n),
    decreases n,
{
    if n > 0 {
        lemma_run_to_prefix(insts1, insts2, n - 1);
    }
}

/// A trapped state stays trapped and frozen for the rest of the run.
pub proof fn lemma_run_to_frozen(insts: Seq<Inst>, n: int, m: int)
    requires
        0 <= n <= m,
        run_to(insts, n).trapped,
    ensures
        run_to(insts, m) == run_to(insts, n),
    decreases m - n,
{
    if n < m {
        lemma_run_to_frozen(insts, n, m - 1);
    }
}

/// In an untrapped state every instruction so far has produced one value, and
/// the values already produced never change as the run continues.
pub proof fn lemma_run_to_grows(insts: Seq<Inst>, n: int, m: int)
    requires
        0 <= n <= m,
    ensures
        ({
            let s0 = run_to(insts, n);
            let s1 = run_to(insts, m);
            &&& (!s1.trapped ==> !s0.trapped)
            &&& s0.vals.len() <= s1.vals.len()
            &&& s1.vals.subrange(0, s0.vals.len() as int) == s0.vals
        }),
    decreases m - n,
{
    if n < m {
        lemma_run_to_grows(insts, n, m - 1);
        let sp = run_to(insts, m - 1);
        let s1 = run_to(insts, m);
        assert(s1.vals.subrange(0, sp.vals.len() as int) =~= sp.vals);
        let s0 = run_to(insts, n);
        assert(s1.vals.subrange(0, s0.vals.len() as int) =~= sp.vals.subrange(
            0,
            s0.vals.len() as int,
        ));
    }
}

/// An untrapped run has produced exactly one value per instruction.
pub proof fn lemma_run_to_vals_len(insts: Seq<Inst>, n: int)
    requires
        0 <= n,
        !run_to(insts, n).trapped,
    ensures
        run_to(insts, n).vals.len() == n,
    decreases n,
{
    if n > 0 {
        if run_to(insts, n - 1).trapped {
            lemma_run_to_frozen(insts, n - 1, n);
        } else {
            lemma_run_to_vals_len(insts, n - 1);
        }
    }
}

/// How a program run ends.
#[derive(Debug, PartialEq)]
pub enum RunResult {
    /// Normal completion: the function's return value and everything printed.
    Done { result: i64, prints: Vec<i64> },
    /// A runtime trap (division by zero or `i64::MIN / -1`): everything
    /// printed before the trap.
    Trapped { prints: Vec<i64> },
}

impl IrFunction {
    /// Well-formed: operands name earlier instructions and the returned value
    /// exists.
    pub open spec fn wf(&self) -> bool {
        insts_wf(self.insts@) && (self.ret as int) < self.insts@.len()
    }

    /// Executes the function on the reference machine semantics.
    pub fn run(&self) -> (r: RunResult)
        requires
            self.wf(),
        ensures
            ({
                let (res, ps) = outcome_of(self.insts@, self.ret as int);
                match r {
                    RunResult::Done { result, prints } => res == Some(result) && prints@ == ps,
                    RunResult::Trapped { prints } => res is None && prints@ == ps,
                }
            }),
    {
        let n = self.insts.len();
        let mut vals: Vec<i64> = Vec::new();
        let mut slots: Vec<i64> = Vec::new();
        let mut prints: Vec<i64> = Vec::new();
        let mut i: usize = 0;
        while i < n
            invariant
                n == self.insts@.len(),
                self.wf(),
                i <= n,
                !run_to(self.insts@, i as int).trapped,
                vals@ == run_to(self.insts@, i as int).vals,
                slots@ == run_to(self.insts@, i as int).slots,
                prints@ == run_to(self.insts@, i as int).prints,
                vals@.len() == i,
            decreases n - i,
        {
            proof {
                lemma_run_to_vals_len(self.insts@, i as int);
            }
            let inst = self.insts[i];
            let ghost s = run_to(self.insts@, i as int);
            match inst {
                Inst::Iconst(c) => vals.push(c),
                Inst::StackLoad(sl) => {
                    let v = if sl < slots.len() {
                        slots[sl]
                    } else {
                        0i64
                    };
                    vals.push(v);
                },
                Inst::StackStore(v, sl) => {
                    let x = vals[v];
                    if sl == slots.len() {
                        slots.push(x);
                    } else if sl < slots.len() {
                        slots[sl] = x;
                    }
                    vals.push(x);
                },
                Inst::CallPrint(v) => {
                    let x = vals[v];
                    prints.push(x);
                    vals.push(x);
                },
                Inst::Iadd(a, b) => vals.push(vals[a].wrapping_add(vals[b])),
                Inst::Isub(a, b) => vals.push(vals[a].wrapping_sub(vals[b])),
                Inst::Imul(a, b) => vals.push(vals[a].wrapping_mul(vals[b])),
                Inst::Sdiv(a, b) => {
                    match vals[a].checked_div(vals[b]) {
                        Some(q) => vals.push(q),
                        None => {
                            proof {
                                lemma_run_to_frozen(self.insts@, i as int + 1, n as int);
                            }
                            return RunResult::Trapped { prints };
                        },
                    }
                },
                Inst::Srem(a, b) => {
                    match vals[a].checked_rem(vals[b]) {
                        Some(q) => vals.push(q),
                        None => {
                            proof {
                                lemma_run_to_frozen(self.insts@, i as int + 1, n as int);
                            }
                            return RunResult::Trapped { prints };
                        },
                    }
                },
                Inst::CmpEq(a, b) => vals.push(
                    if vals[a] == vals[b] {
                        1i64
                    } else {
                        0i64
                    },
                ),
                Inst::CmpNe(a, b) => vals.push(
                    if vals[a] != vals[b] {
                        1i64
                    } else {
                        0i64
                    },
                ),
                Inst::CmpLt(a, b) => vals.push(
                    if vals[a] < vals[b] {
                        1i64
                    } else {
                        0i64
                    },
                ),
                Inst::CmpLe(a, b) => vals.push(
                    if vals[a] <= vals[b] {
                        1i64
                    } else {
                        0i64
                    },
                ),
                Inst::CmpGt(a, b) => vals.push(
                    if vals[a] > vals[b] {
                        1i64
                    } else {
                        0i64
                    },
                ),
                Inst::CmpGe(a, b) => vals.push(
                    if vals[a] >= vals[b] {
                        1i64
                    } else {
                        0i64
                    },
                ),
                Inst::BothNonzero(a, b) => vals.push(
                    if vals[a] != 0 && vals[b] != 0 {
                        1i64
                    } else {
                        0i64
                    },
                ),
                Inst::EitherNonzero(a, b) => vals.push(
                    if vals[a] != 0 || vals[b] != 0 {
                        1i64
                    } else {
                        0i64
                    },
                ),
            }
            i = i + 1;
        }
        proof {
            lemma_run_to_vals_len(self.insts@, n as int);
        }
        RunResult::Done { result: vals[self.ret], prints }
    }
}

} // verus!
