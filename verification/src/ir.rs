//! The control-flow-graph intermediate representation that the code
//! generator emits, and its execution semantics.  A program is a list of
//! functions; a function is a list of basic blocks over a fixed set of
//! virtual registers, the first `n_params` of which hold the arguments.
//! Every register holds a signed 64-bit integer; comparisons store 1 or 0,
//! already widened to the full width.
//!
//! Ghost views (`ProgramV`, `IrFnV`, `IrBlockV`, `InstV`, `TerminatorV`)
//! model a program over sequences and unbounded integers; the code
//! generator's contract pins its output to a spec-level lowering over these
//! views, and execution is defined on them by the spec function
//! `sp_eval_fn`, carried out by the executor `Program::run`, whose result
//! is proved equal to it.  A gas bound makes every execution finite;
//! recursion that exhausts it reports `OutOfGas`, and a zero divisor
//! reports `DivisionByZero` — the explicit guard the lowering of division
//! calls for.

use vstd::prelude::*;
use vstd::pervasive::VecAdditionalExecFns;
use vstd::string::StrSliceExecFns;

verus! {

/// One instruction.  Registers are indices below the function's `n_regs`;
/// block and function references are indices into the enclosing lists.
#[derive(Debug)]
pub enum Inst {
    /// dst, constant value
    Const(usize, i64),
    /// dst, operand
    Neg(usize, usize),
    /// dst, left, right
    Add(usize, usize, usize),
    /// dst, left, right
    Sub(usize, usize, usize),
    /// dst, left, right
    Mul(usize, usize, usize),
    /// dst, dividend, divisor
    Div(usize, usize, usize),
    /// dst, left, right; stores 1 when left > right, else 0
    Gt(usize, usize, usize),
    /// dst, left, right; stores 1 when left < right, else 0
    Lt(usize, usize, usize),
    /// dst, callee function index, argument registers
    Call(usize, usize, Vec<usize>),
    /// dst, first predecessor block, its register, second predecessor
    /// block, its register
    Phi(usize, usize, usize, usize, usize),
}

/// Ghost model of an instruction, over unbounded integers.
pub enum InstV {
    Const(int, i64),
    Neg(int, int),
    Add(int, int, int),
    Sub(int, int, int),
    Mul(int, int, int),
    Div(int, int, int),
    Gt(int, int, int),
    Lt(int, int, int),
    Call(int, int, Seq<int>),
    Phi(int, int, int, int, int),
}

impl Inst {
    pub open spec fn view(self) -> InstV {
        match self {
            Inst::Const(d, v) => InstV::Const(d as int, v),
            Inst::Neg(d, a) => InstV::Neg(d as int, a as int),
            Inst::Add(d, a, b) => InstV::Add(d as int, a as int, b as int),
            Inst::Sub(d, a, b) => InstV::Sub(d as int, a as int, b as int),
            Inst::Mul(d, a, b) => InstV::Mul(d as int, a as int, b as int),
            Inst::Div(d, a, b) => InstV::Div(d as int, a as int, b as int),
            Inst::Gt(d, a, b) => InstV::Gt(d as int, a as int, b as int),
            Inst::Lt(d, a, b) => InstV::Lt(d as int, a as int, b as int),
            Inst::Call(d, g, args) => InstV::Call(
                d as int,
                g as int,
                Seq::new(args@.len(), |t: int| args@[t] as int),
            ),
            Inst::Phi(d, pa, ra, pb, rb) => InstV::Phi(
                d as int,
                pa as int,
                ra as int,
                pb as int,
                rb as int,
            ),
        }
    }
}

/// How a basic block ends.
#[derive(Debug)]
pub enum Terminator {
    /// Return the register's value.
    Ret(usize),
    /// Continue at the given block.
    Jump(usize),
    /// Continue at the first block when the register is nonzero, else at
    /// the second.
    Branch(usize, usize, usize),
}

/// Ghost model of a terminator.
pub enum TerminatorV {
    Ret(int),
    Jump(int),
    Branch(int, int, int),
}

impl Terminator {
    pub open spec fn view(self) -> TerminatorV {
        match self {
            Terminator::Ret(r) => TerminatorV::Ret(r as int),
            Terminator::Jump(b) => TerminatorV::Jump(b as int),
            Terminator::Branch(c, a, b) => TerminatorV::Branch(c as int, a as int, b as int),
        }
    }
}

/// A basic block: straight-line instructions and a terminator.
#[derive(Debug)]
pub struct IrBlock {
    pub insts: Vec<Inst>,
    pub term: Terminator,
}

/// Ghost model of a basic block.
pub struct IrBlockV {
    pub insts: Seq<InstV>,
    pub term: TerminatorV,
}

impl IrBlock {
    pub open spec fn view(self) -> IrBlockV {
        IrBlockV {
            insts: Seq::new(self.insts@.len(), |k: int| self.insts@[k].view()),
            term: self.term.view(),
        }
    }
}

/// One lowered function.
#[derive(Debug)]
pub struct IrFn {
    pub name: String,
    pub n_params: usize,
    pub n_regs: usize,
    pub blocks: Vec<IrBlock>,
}

/// Ghost model of a lowered function.
pub struct IrFnV {
    pub name: Seq<char>,
    pub n_params: int,
    pub n_regs: int,
    pub blocks: Seq<IrBlockV>,
}

/// View of a sequence of basic blocks, element by element.
pub open spec fn blocks_view(v: Seq<IrBlock>) -> Seq<IrBlockV> {
    Seq::new(v.len(), |k: int| v[k].view())
}

impl IrFn {
    pub open spec fn view(self) -> IrFnV {
        IrFnV {
            name: self.name@,
            n_params: self.n_params as int,
            n_regs: self.n_regs as int,
            blocks: blocks_view(self.blocks@),
        }
    }
}

/// A lowered program: the functions in declaration order.
#[derive(Debug)]
pub struct Program {
    pub funcs: Vec<IrFn>,
}

/// Ghost model of a lowered program.
pub struct ProgramV {
    pub funcs: Seq<IrFnV>,
}

impl Program {
    pub open spec fn view(self) -> ProgramV {
        ProgramV { funcs: Seq::new(self.funcs@.len(), |k: int| self.funcs@[k].view()) }
    }
}

/// A failure of a running program.
#[derive(Debug, Clone, Copy, PartialEq, Eq, Structural)]
pub enum RuntimeError {
    /// A `Div` instruction met a zero divisor.
    DivisionByZero,
    /// The gas bound was exhausted before the program returned.
    OutOfGas,
}

/// The instruction's registers lie below `nregs`, and a call matches the
/// callee's arity as given by `arities`.
pub open spec fn inst_wf(inst: InstV, nregs: int, arities: Seq<int>) -> bool {
    match inst {
        InstV::Const(d, _v) => 0 <= d < nregs,
        InstV::Neg(d, a) => 0 <= d < nregs && 0 <= a < nregs,
        InstV::Add(d, a, b) => 0 <= d < nregs && 0 <= a < nregs && 0 <= b < nregs,
        InstV::Sub(d, a, b) => 0 <= d < nregs && 0 <= a < nregs && 0 <= b < nregs,
        InstV::Mul(d, a, b) => 0 <= d < nregs && 0 <= a < nregs && 0 <= b < nregs,
        InstV::Div(d, a, b) => 0 <= d < nregs && 0 <= a < nregs && 0 <= b < nregs,
        InstV::Gt(d, a, b) => 0 <= d < nregs && 0 <= a < nregs && 0 <= b < nregs,
        InstV::Lt(d, a, b) => 0 <= d < nregs && 0 <= a < nregs && 0 <= b < nregs,
        InstV::Call(d, g, args) => 0 <= d < nregs && 0 <= g < arities.len() && args.len()
            == arities[g] && (forall|t: int| 0 <= t < args.len() ==> 0 <= #[trigger] args[t] < nregs),
        InstV::Phi(d, _pa, ra, _pb, rb) => 0 <= d < nregs && 0 <= ra < nregs && 0 <= rb < nregs,
    }
}

/// The terminator's registers and block targets are in range.
pub open spec fn term_wf(t: TerminatorV, nregs: int, nblocks: int) -> bool {
    match t {
        TerminatorV::Ret(r) => 0 <= r < nregs,
        TerminatorV::Jump(b) => 0 <= b < nblocks,
        TerminatorV::Branch(c, a, b) => 0 <= c < nregs && 0 <= a < nblocks && 0 <= b < nblocks,
    }
}

/// A well-formed function: at least one block, parameters within the
/// register file, and every instruction and terminator in range.
pub open spec fn fn_wf(f: IrFnV, arities: Seq<int>) -> bool {
    &&& 0 <= f.n_params <= f.n_regs
    &&& f.blocks.len() >= 1
    &&& forall|bi: int, ki: int|
        0 <= bi < f.blocks.len() && 0 <= ki < f.blocks[bi].insts.len() ==> inst_wf(
            #[trigger] f.blocks[bi].insts[ki],
            f.n_regs,
            arities,
        )
    &&& forall|bi: int|
        0 <= bi < f.blocks.len() ==> term_wf(
            #[trigger] f.blocks[bi].term,
            f.n_regs,
            f.blocks.len() as int,
        )
}

/// The declared arity of each function of the program.
pub open spec fn arities_of(p: ProgramV) -> Seq<int> {
    Seq::new(p.funcs.len(), |k: int| p.funcs[k].n_params)
}

/// A well-formed program: every function is well formed against the
/// program's own arities.
pub open spec fn wf_program(p: ProgramV) -> bool {
    forall|f: int| 0 <= f < p.funcs.len() ==> fn_wf(#[trigger] p.funcs[f], arities_of(p))
}

/// Truncating signed 64-bit division of `a` by a nonzero `b`; the one
/// overflowing case, `i64::MIN / -1`, wraps to `i64::MIN`.
pub open spec fn div_wrap(a: i64, b: i64) -> i64 {
    match a.checked_div(b) {
        Some(q) => q,
        None => i64::MIN,
    }
}

/// Runs one function on argument values: registers start as the arguments
/// followed by zeroes, and control starts at block 0.
pub open spec fn sp_eval_fn(p: ProgramV, f: int, args: Seq<i64>, gas: nat) -> Result<
    i64,
    RuntimeError,
>
    decreases gas, 0int, 0int,
{
    if gas == 0 {
        Err(RuntimeError::OutOfGas)
    } else {
        let fun = p.funcs[f];
        let regs = args + Seq::new((fun.n_regs - args.len()) as nat, |x: int| 0i64);
        sp_eval_block(p, f, regs, 0, 0, 0, (gas - 1) as nat)
    }
}

/// Runs block `blk` of function `f` from instruction `k`, with `prev` the
/// block that branched here (used by `Phi`).
pub open spec fn sp_eval_block(
    p: ProgramV,
    f: int,
    regs: Seq<i64>,
    blk: int,
    prev: int,
    k: int,
    gas: nat,
) -> Result<i64, RuntimeError>
    decreases gas, p.funcs[f].blocks[blk].insts.len() - k, 1int,
{
    let b = p.funcs[f].blocks[blk];
    if 0 <= k < b.insts.len() {
        match b.insts[k] {
            InstV::Const(d, v) => sp_eval_block(p, f, regs.update(d, v), blk, prev, k + 1, gas),
            InstV::Neg(d, a) => sp_eval_block(
                p,
                f,
                regs.update(d, (0i64).wrapping_sub(regs[a])),
                blk,
                prev,
                k + 1,
                gas,
            ),
            InstV::Add(d, a, b2) => sp_eval_block(
                p,
                f,
                regs.update(d, regs[a].wrapping_add(regs[b2])),
                blk,
                prev,
                k + 1,
                gas,
            ),
            InstV::Sub(d, a, b2) => sp_eval_block(
                p,
                f,
                regs.update(d, regs[a].wrapping_sub(regs[b2])),
                blk,
                prev,
                k + 1,
                gas,
            ),
            InstV::Mul(d, a, b2) => sp_eval_block(
                p,
                f,
                regs.update(d, regs[a].wrapping_mul(regs[b2])),
                blk,
                prev,
                k + 1,
                gas,
            ),
            InstV::Div(d, a, b2) => if regs[b2] == 0 {
                Err(RuntimeError::DivisionByZero)
            } else {
                sp_eval_block(p, f, regs.update(d, div_wrap(regs[a], regs[b2])), blk, prev, k + 1, gas)
            },
            InstV::Gt(d, a, b2) => sp_eval_block(
                p,
                f,
                regs.update(
                    d,
                    if regs[a] > regs[b2] {
                        1i64
                    } else {
                        0i64
                    },
                ),
                blk,
                prev,
                k + 1,
                gas,
            ),
            InstV::Lt(d, a, b2) => sp_eval_block(
                p,
                f,
                regs.update(
                    d,
                    if regs[a] < regs[b2] {
                        1i64
                    } else {
                        0i64
                    },
                ),
                blk,
                prev,
                k + 1,
                gas,
            ),
            InstV::Call(d, g, cargs) => {
                let vals = Seq::new(cargs.len(), |x: int| regs[cargs[x]]);
                match sp_eval_fn(p, g, vals, gas) {
                    Ok(v) => sp_eval_block(p, f, regs.update(d, v), blk, prev, k + 1, gas),
                    Err(e) => Err(e),
                }
            },
            InstV::Phi(d, pa, ra, _pb, rb) => {
                let v = if prev == pa {
                    regs[ra]
                } else {
                    regs[rb]
                };
                sp_eval_block(p, f, regs.update(d, v), blk, prev, k + 1, gas)
            },
        }
    } else {
        match b.term {
            TerminatorV::Ret(r) => Ok(regs[r]),
            TerminatorV::Jump(t) => if gas == 0 {
                Err(RuntimeError::OutOfGas)
            } else {
                sp_eval_block(p, f, regs, t, blk, 0, (gas - 1) as nat)
            },
            TerminatorV::Branch(c, t, e) => if gas == 0 {
                Err(RuntimeError::OutOfGas)
            } else if regs[c] != 0 {
                sp_eval_block(p, f, regs, t, blk, 0, (gas - 1) as nat)
            } else {
                sp_eval_block(p, f, regs, e, blk, 0, (gas - 1) as nat)
            },
        }
    }
}

/// Runs one function, pinned to `sp_eval_fn`.
fn eval_fn(p: &Program, f: usize, args: Vec<i64>, gas: u64) -> (r: Result<i64, RuntimeError>)
    requires
        wf_program(p@),
        (f as int) < p@.funcs.len(),
        args@.len() == p@.funcs[f as int].n_params,
    ensures
        r == sp_eval_fn(p@, f as int, args@, gas as nat),
    decreases gas, 0int, 0int,
{
    if gas == 0 {
        return Err(RuntimeError::OutOfGas);
    }
    proof {
        assert(p@.funcs[f as int] == p.funcs@[f as int].view());
        assert(fn_wf(p@.funcs[f as int], arities_of(p@)));
    }
    let nregs = p.funcs[f].n_regs;
    let ghost base = args@;
    let mut regs = args;
    while regs.len() < nregs
        invariant
            base.len() <= regs@.len() <= nregs,
            regs@ == base + Seq::new((regs@.len() - base.len()) as nat, |x: int| 0i64),
        decreases nregs - regs.len(),
    {
        regs.push(0);
        proof {
            assert(regs@ =~= base + Seq::new((regs@.len() - base.len()) as nat, |x: int| 0i64));
        }
    }
    proof {
        assert(regs@ =~= base + Seq::new(
            (p@.funcs[f as int].n_regs - base.len()) as nat,
            |x: int| 0i64,
        ));
    }
    eval_block(p, f, regs, 0, 0, 0, gas - 1)
}

/// Runs a block from instruction `k`, pinned to `sp_eval_block`.
#[verifier::rlimit(100)]
fn eval_block(
    p: &Program,
    f: usize,
    regs: Vec<i64>,
    blk: usize,
    prev: usize,
    k: usize,
    gas: u64,
) -> (r: Result<i64, RuntimeError>)
    requires
        wf_program(p@),
        (f as int) < p@.funcs.len(),
        (blk as int) < p@.funcs[f as int].blocks.len(),
        regs@.len() == p@.funcs[f as int].n_regs,
        k as int <= p@.funcs[f as int].blocks[blk as int].insts.len(),
    ensures
        r == sp_eval_block(p@, f as int, regs@, blk as int, prev as int, k as int, gas as nat),
    decreases gas, p@.funcs[f as int].blocks[blk as int].insts.len() - k, 1int,
{
    proof {
        assert(p@.funcs[f as int] == p.funcs@[f as int].view());
        assert(p@.funcs[f as int].blocks[blk as int] == p.funcs@[f as int].blocks@[
            blk as int
        ].view());
        assert(fn_wf(p@.funcs[f as int], arities_of(p@)));
    }
    let nb = p.funcs[f].blocks[blk].insts.len();
    if k < nb {
        proof {
            assert(p@.funcs[f as int].blocks[blk as int].insts[k as int] == p.funcs@[
                f as int
            ].blocks@[blk as int].insts@[k as int].view());
            assert(inst_wf(
                p@.funcs[f as int].blocks[blk as int].insts[k as int],
                p@.funcs[f as int].n_regs,
                arities_of(p@),
            ));
        }
        let mut regs2 = regs;
        match &p.funcs[f].blocks[blk].insts[k] {
            Inst::Const(d, v) => {
                regs2.set(*d, *v);
                eval_block(p, f, regs2, blk, prev, k + 1, gas)
            },
            Inst::Neg(d, a) => {
                let v = (0i64).wrapping_sub(regs2[*a]);
                regs2.set(*d, v);
                eval_block(p, f, regs2, blk, prev, k + 1, gas)
            },
            Inst::Add(d, a, b2) => {
                let v = regs2[*a].wrapping_add(regs2[*b2]);
                regs2.set(*d, v);
                eval_block(p, f, regs2, blk, prev, k + 1, gas)
            },
            Inst::Sub(d, a, b2) => {
                let v = regs2[*a].wrapping_sub(regs2[*b2]);
                regs2.set(*d, v);
                eval_block(p, f, regs2, blk, prev, k + 1, gas)
            },
            Inst::Mul(d, a, b2) => {
                let v = regs2[*a].wrapping_mul(regs2[*b2]);
                regs2.set(*d, v);
                eval_block(p, f, regs2, blk, prev, k + 1, gas)
            },
            Inst::Div(d, a, b2) => {
                if regs2[*b2] == 0 {
                    Err(RuntimeError::DivisionByZero)
                } else {
                    let v = match regs2[*a].checked_div(regs2[*b2]) {
                        Some(q) => q,
                        None => i64::MIN,
                    };
                    regs2.set(*d, v);
                    eval_block(p, f, regs2, blk, prev, k + 1, gas)
                }
            },
            Inst::Gt(d, a, b2) => {
                let v: i64 = if regs2[*a] > regs2[*b2] {
                    1
                } else {
                    0
                };
                regs2.set(*d, v);
                eval_block(p, f, regs2, blk, prev, k + 1, gas)
            },
            Inst::Lt(d, a, b2) => {
                let v: i64 = if regs2[*a] < regs2[*b2] {
                    1
                } else {
                    0
                };
                regs2.set(*d, v);
                eval_block(p, f, regs2, blk, prev, k + 1, gas)
            },
            Inst::Call(d, g, cargs) => {
                let ghost cargsv = Seq::new(cargs@.len(), |t: int| cargs@[t] as int);
                proof {
                    let iv = p@.funcs[f as int].blocks[blk as int].insts[k as int];
                    assert(iv == InstV::Call(*d as int, *g as int, cargsv));
                    assert forall|x: int| 0 <= x < cargs@.len() implies 0 <= (
                    #[trigger] cargs@[x] as int) < p@.funcs[f as int].n_regs by {
                        assert(iv->Call_2[x] == cargs@[x] as int);
                    }
                }
                let mut vals: Vec<i64> = Vec::new();
                let mut t: usize = 0;
                while t < cargs.len()
                    invariant
                        t <= cargs@.len(),
                        vals@.len() == t,
                        cargsv == Seq::new(cargs@.len(), |x: int| cargs@[x] as int),
                        regs2@.len() == p@.funcs[f as int].n_regs,
                        forall|x: int|
                            0 <= x < cargs@.len() ==> 0 <= (#[trigger] cargs@[x] as int)
                                < p@.funcs[f as int].n_regs,
                        forall|x: int| 0 <= x < t ==> vals@[x] == regs2@[#[trigger] cargs@[x] as int],
                    decreases cargs@.len() - t,
                {
                    let idx = cargs[t];
                    vals.push(regs2[idx]);
                    t += 1;
                }
                proof {
                    assert(vals@ =~= Seq::new(cargsv.len(), |x: int| regs2@[cargsv[x]]));
                }
                match eval_fn(p, *g, vals, gas) {
                    Ok(v) => {
                        regs2.set(*d, v);
                        eval_block(p, f, regs2, blk, prev, k + 1, gas)
                    },
                    Err(e) => Err(e),
                }
            },
            Inst::Phi(d, pa, ra, _pb, rb) => {
                let v = if prev == *pa {
                    regs2[*ra]
                } else {
                    regs2[*rb]
                };
                regs2.set(*d, v);
                eval_block(p, f, regs2, blk, prev, k + 1, gas)
            },
        }
    } else {
        proof {
            assert(term_wf(
                p@.funcs[f as int].blocks[blk as int].term,
                p@.funcs[f as int].n_regs,
                p@.funcs[f as int].blocks.len() as int,
            ));
        }
        match &p.funcs[f].blocks[blk].term {
            Terminator::Ret(r) => Ok(regs[*r]),
            Terminator::Jump(t) => {
                if gas == 0 {
                    Err(RuntimeError::OutOfGas)
                } else {
                    eval_block(p, f, regs, *t, blk, 0, gas - 1)
                }
            },
            Terminator::Branch(c, t, e) => {
                if gas == 0 {
                    Err(RuntimeError::OutOfGas)
                } else if regs[*c] != 0 {
                    eval_block(p, f, regs, *t, blk, 0, gas - 1)
                } else {
                    eval_block(p, f, regs, *e, blk, 0, gas - 1)
                }
            },
        }
    }
}

/// The first index at or after `k` of a function with the given name.
pub open spec fn sp_find_fn(p: ProgramV, name: Seq<char>, k: int) -> Option<int>
    decreases p.funcs.len() - k,
{
    if !(0 <= k < p.funcs.len()) {
        None
    } else if p.funcs[k].name == name {
        Some(k)
    } else {
        sp_find_fn(p, name, k + 1)
    }
}

impl Program {
    /// Looks a function up by name: the first function with that name, in
    /// declaration order.
    pub fn find_fn(&self, name: &str) -> (r: Option<usize>)
        ensures
            match r {
                Some(f) => sp_find_fn(self@, name@, 0) == Some(f as int) && (f as int)
                    < self@.funcs.len(),
                None => sp_find_fn(self@, name@, 0) is None,
            },
    {
        let n = self.funcs.len();
        let mut k: usize = 0;
        while k < n
            invariant
                k <= n,
                n == self.funcs@.len(),
                sp_find_fn(self@, name@, 0) == sp_find_fn(self@, name@, k as int),
            decreases n - k,
        {
            proof {
                assert(self@.funcs[k as int] == self.funcs@[k as int].view());
            }
            if string_eq_str(&self.funcs[k].name, name) {
                return Some(k);
            }
            k += 1;
        }
        None
    }

    /// Runs function `f` of a well-formed program on the given arguments
    /// with a gas bound; the result is exactly `sp_eval_fn`.
    pub fn run(&self, f: usize, args: Vec<i64>, gas: u64) -> (r: Result<i64, RuntimeError>)
        requires
            wf_program(self@),
            (f as int) < self@.funcs.len(),
            args@.len() == self@.funcs[f as int].n_params,
        ensures
            r == sp_eval_fn(self@, f as int, args@, gas as nat),
    {
        eval_fn(self, f, args, gas)
    }
}

/// Whether a `String` holds exactly the characters of a `&str`.
fn string_eq_str(a: &String, b: &str) -> (r: bool)
    ensures
        r == (a@ == b@),
{
    let na = a.as_str().unicode_len();
    let nb = b.unicode_len();
    if na != nb {
        proof {
            assert(a@.len() != b@.len());
        }
        return false;
    }
    let mut k: usize = 0;
    while k < na
        invariant
            k <= na,
            na == a@.len(),
            na == b@.len(),
            forall|t: int| 0 <= t < k ==> a@[t] == b@[t],
        decreases na - k,
    {
        if a.as_str().get_char(k) != b.get_char(k) {
            return false;
        }
        k += 1;
    }
    proof {
        assert(a@ =~= b@);
    }
    true
}

} // verus!
