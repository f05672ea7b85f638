//! The code generator: semantic analysis and lowering of an AST into the
//! control-flow-graph representation of `ir`.
//!
//! It works in two passes.  The declaration pass registers every function's
//! name and arity, so calls may refer to functions declared later in the
//! file, and rejects duplicate function names.  The definition pass rejects
//! duplicate parameter names and lowers each function's body: one entry
//! block per function, with a conditional lowered into a then-block, an
//! else-block, and a merge block whose `Phi` selects the branch that ran.
//!
//! The spec function `sp_check_code` states exactly which programs are
//! rejected and with which error, and the spec function `sp_lower_code`
//! states exactly which program is emitted: `Code::codegen` is proved to
//! return `sp_lower_code` of its input — failing exactly on the programs
//! `sp_check_code` rejects, and otherwise producing a well-formed program
//! that is, instruction for instruction, the stated lowering.  Together
//! with `ir::sp_eval_fn`, which pins `Program::run`, the contracts fix
//! what executing a compiled program returns.

use vstd::prelude::*;
use vstd::pervasive::VecAdditionalExecFns;

use crate::ast::{strs_view, fns_view, Code, Expr, ExprV, Fn, FnV};
use crate::ir::{arities_of, blocks_view, fn_wf, inst_wf, term_wf, wf_program, Inst, InstV,
    IrBlock, IrBlockV, IrFn, IrFnV, Program, ProgramV, Terminator, TerminatorV};

verus! {

/// A program rejected by the code generator, reported fail-fast: the first
/// error in declaration order, then per function in body traversal order.
#[derive(Debug, Clone, Copy, PartialEq, Eq, Structural)]
pub enum SemanticError {
    /// A variable is not a parameter of the enclosing function.
    UnresolvedIdentifier,
    /// A call target is not declared anywhere in the program.
    UnresolvedFunction,
    /// A call's argument count differs from the callee's parameter count.
    ArityMismatch,
    /// The branches of a conditional produced values of different widths.
    /// Every value of this language is 64 bits wide, so the lowering never
    /// produces it; the variant belongs to the error taxonomy.
    CodegenTypeMismatch,
    /// Two functions share a name.
    DuplicateFunction,
    /// Two parameters of one function share a name.
    DuplicateParameter,
}

/// Some name occurs twice in the list.
pub open spec fn has_dup(names: Seq<Seq<char>>) -> bool {
    exists|i: int, j: int| 0 <= j < i < names.len() && names[j] == names[i]
}

/// The names of a program's functions, in declaration order.
pub open spec fn names_of(fs: Seq<FnV>) -> Seq<Seq<char>> {
    Seq::new(fs.len(), |k: int| fs[k].name)
}

/// `x` is one of the parameters.
pub open spec fn has_param(params: Seq<Seq<char>>, x: Seq<char>) -> bool {
    exists|k: int| 0 <= k < params.len() && params[k] == x
}

/// The first function at or after `k` with the given name.
pub open spec fn sp_lookup_fn(fs: Seq<FnV>, name: Seq<char>, k: int) -> Option<int>
    decreases fs.len() - k,
{
    if !(0 <= k < fs.len()) {
        None
    } else if fs[k].name == name {
        Some(k)
    } else {
        sp_lookup_fn(fs, name, k + 1)
    }
}

/// The first semantic error in an expression, in traversal order: left
/// before right, condition before branches; for a call, the target is
/// resolved first, then the arity is checked, then the arguments.
pub open spec fn sp_check_expr(e: ExprV, params: Seq<Seq<char>>, fs: Seq<FnV>) -> Option<
    SemanticError,
>
    decreases e,
{
    match e {
        ExprV::Num(_n) => None,
        ExprV::Var(x) => if has_param(params, x) {
            None
        } else {
            Some(SemanticError::UnresolvedIdentifier)
        },
        ExprV::Neg(a) => sp_check_expr(*a, params, fs),
        ExprV::Add(a, b) => match sp_check_expr(*a, params, fs) {
            Some(er) => Some(er),
            None => sp_check_expr(*b, params, fs),
        },
        ExprV::Sub(a, b) => match sp_check_expr(*a, params, fs) {
            Some(er) => Some(er),
            None => sp_check_expr(*b, params, fs),
        },
        ExprV::Mul(a, b) => match sp_check_expr(*a, params, fs) {
            Some(er) => Some(er),
            None => sp_check_expr(*b, params, fs),
        },
        ExprV::Div(a, b) => match sp_check_expr(*a, params, fs) {
            Some(er) => Some(er),
            None => sp_check_expr(*b, params, fs),
        },
        ExprV::Bigger(a, b) => match sp_check_expr(*a, params, fs) {
            Some(er) => Some(er),
            None => sp_check_expr(*b, params, fs),
        },
        ExprV::Smaller(a, b) => match sp_check_expr(*a, params, fs) {
            Some(er) => Some(er),
            None => sp_check_expr(*b, params, fs),
        },
        ExprV::Call(name, args) => match sp_lookup_fn(fs, name, 0) {
            None => Some(SemanticError::UnresolvedFunction),
            Some(g) => if fs[g].args.len() != args.len() {
                Some(SemanticError::ArityMismatch)
            } else {
                sp_check_exprs(args, params, fs)
            },
        },
        ExprV::If(c, t, e2) => match sp_check_expr(*c, params, fs) {
            Some(er) => Some(er),
            None => match sp_check_expr(*t, params, fs) {
                Some(er) => Some(er),
                None => sp_check_expr(*e2, params, fs),
            },
        },
    }
}

/// The first semantic error among the expressions, left to right.
pub open spec fn sp_check_exprs(es: Seq<ExprV>, params: Seq<Seq<char>>, fs: Seq<FnV>) -> Option<
    SemanticError,
>
    decreases es,
{
    if es.len() == 0 {
        None
    } else {
        match sp_check_expr(es[0], params, fs) {
            Some(er) => Some(er),
            None => sp_check_exprs(es.subrange(1, es.len() as int), params, fs),
        }
    }
}

/// The first semantic error of one function: duplicate parameters, then its
/// body.
pub open spec fn sp_check_fn(f: FnV, fs: Seq<FnV>) -> Option<SemanticError> {
    if has_dup(f.args) {
        Some(SemanticError::DuplicateParameter)
    } else {
        sp_check_expr(f.body.ret, f.args, fs)
    }
}

/// The first semantic error among the functions at or after `i`.
pub open spec fn sp_check_fns(fs: Seq<FnV>, i: int) -> Option<SemanticError>
    decreases fs.len() - i,
{
    if !(0 <= i < fs.len()) {
        None
    } else {
        match sp_check_fn(fs[i], fs) {
            Some(er) => Some(er),
            None => sp_check_fns(fs, i + 1),
        }
    }
}

/// The first semantic error of a whole program: duplicate function names
/// first, then each function in declaration order.  `Code::codegen`
/// succeeds exactly when this is `None`.
pub open spec fn sp_check_code(c: crate::ast::CodeV) -> Option<SemanticError> {
    if has_dup(names_of(c.functions)) {
        Some(SemanticError::DuplicateFunction)
    } else {
        sp_check_fns(c.functions, 0)
    }
}

/// The declared arity of each function of the source program.
pub open spec fn ars(fs: Seq<Fn>) -> Seq<int> {
    Seq::new(fs.len(), |k: int| fs[k].args@.len() as int)
}

/// Ghost model of the lowering state: the blocks built so far, the block
/// instructions are currently appended to, and how many registers exist.
pub struct LowerV {
    pub blocks: Seq<IrBlockV>,
    pub cur: int,
    pub nregs: int,
}

/// Appends an instruction to the current block.
pub open spec fn sp_emit(st: LowerV, inst: InstV) -> LowerV {
    LowerV {
        blocks: st.blocks.update(
            st.cur,
            IrBlockV { insts: st.blocks[st.cur].insts.push(inst), term: st.blocks[st.cur].term },
        ),
        cur: st.cur,
        nregs: st.nregs,
    }
}

/// Allocates a fresh register: the new register is the old `nregs`.
pub open spec fn sp_alloc(st: LowerV) -> LowerV {
    LowerV { blocks: st.blocks, cur: st.cur, nregs: st.nregs + 1 }
}

/// Appends a fresh block with a placeholder jump to the entry block.
pub open spec fn sp_new_block(st: LowerV) -> LowerV {
    LowerV {
        blocks: st.blocks.push(IrBlockV { insts: Seq::empty(), term: TerminatorV::Jump(0) }),
        cur: st.cur,
        nregs: st.nregs,
    }
}

/// Sets the terminator of block `b`.
pub open spec fn sp_set_term(st: LowerV, b: int, t: TerminatorV) -> LowerV {
    LowerV {
        blocks: st.blocks.update(b, IrBlockV { insts: st.blocks[b].insts, term: t }),
        cur: st.cur,
        nregs: st.nregs,
    }
}

/// Moves the cursor to block `b`.
pub open spec fn sp_set_cur(st: LowerV, b: int) -> LowerV {
    LowerV { blocks: st.blocks, cur: b, nregs: st.nregs }
}

/// The first index at or after `k` of a parameter named `x`.
pub open spec fn sp_param_idx(params: Seq<Seq<char>>, x: Seq<char>, k: int) -> Option<int>
    decreases params.len() - k,
{
    if !(0 <= k < params.len()) {
        None
    } else if params[k] == x {
        Some(k)
    } else {
        sp_param_idx(params, x, k + 1)
    }
}

/// The lowering of one expression, stated as a function: the register that
/// will hold its value and the lowering state after it.  A literal becomes
/// a `Const` of its own value; a variable becomes its parameter's register;
/// operators become the corresponding instruction over their operands'
/// registers, left lowered before right; a call resolves its target, checks
/// the arity, lowers the arguments left to right and passes their registers
/// positionally; a conditional branches on the condition into a then-block
/// and an else-block, each jumping to a shared merge block whose `Phi`
/// selects the executed branch's value.  `Code::codegen` is proved to emit
/// exactly this.
pub open spec fn sp_lower_expr(e: ExprV, params: Seq<Seq<char>>, fs: Seq<FnV>, st: LowerV) -> Result<
    (int, LowerV),
    SemanticError,
>
    decreases e,
{
    match e {
        ExprV::Num(n) => Ok(
            (st.nregs, sp_emit(sp_alloc(st), InstV::Const(st.nregs, n as i64))),
        ),
        ExprV::Var(x) => match sp_param_idx(params, x, 0) {
            Some(j) => Ok((j, st)),
            None => Err(SemanticError::UnresolvedIdentifier),
        },
        ExprV::Neg(a) => match sp_lower_expr(*a, params, fs, st) {
            Ok(p1) => Ok(
                (p1.1.nregs, sp_emit(sp_alloc(p1.1), InstV::Neg(p1.1.nregs, p1.0))),
            ),
            Err(er) => Err(er),
        },
        ExprV::Add(a, b) => match sp_lower_expr(*a, params, fs, st) {
            Ok(p1) => match sp_lower_expr(*b, params, fs, p1.1) {
                Ok(p2) => Ok(
                    (
                        p2.1.nregs,
                        sp_emit(sp_alloc(p2.1), InstV::Add(p2.1.nregs, p1.0, p2.0)),
                    ),
                ),
                Err(er) => Err(er),
            },
            Err(er) => Err(er),
        },
        ExprV::Sub(a, b) => match sp_lower_expr(*a, params, fs, st) {
            Ok(p1) => match sp_lower_expr(*b, params, fs, p1.1) {
                Ok(p2) => Ok(
                    (
                        p2.1.nregs,
                        sp_emit(sp_alloc(p2.1), InstV::Sub(p2.1.nregs, p1.0, p2.0)),
                    ),
                ),
                Err(er) => Err(er),
            },
            Err(er) => Err(er),
        },
        ExprV::Mul(a, b) => match sp_lower_expr(*a, params, fs, st) {
            Ok(p1) => match sp_lower_expr(*b, params, fs, p1.1) {
                Ok(p2) => Ok(
                    (
                        p2.1.nregs,
                        sp_emit(sp_alloc(p2.1), InstV::Mul(p2.1.nregs, p1.0, p2.0)),
                    ),
                ),
                Err(er) => Err(er),
            },
            Err(er) => Err(er),
        },
        ExprV::Div(a, b) => match sp_lower_expr(*a, params, fs, st) {
            Ok(p1) => match sp_lower_expr(*b, params, fs, p1.1) {
                Ok(p2) => Ok(
                    (
                        p2.1.nregs,
                        sp_emit(sp_alloc(p2.1), InstV::Div(p2.1.nregs, p1.0, p2.0)),
                    ),
                ),
                Err(er) => Err(er),
            },
            Err(er) => Err(er),
        },
        ExprV::Bigger(a, b) => match sp_lower_expr(*a, params, fs, st) {
            Ok(p1) => match sp_lower_expr(*b, params, fs, p1.1) {
                Ok(p2) => Ok(
                    (
                        p2.1.nregs,
                        sp_emit(sp_alloc(p2.1), InstV::Gt(p2.1.nregs, p1.0, p2.0)),
                    ),
                ),
                Err(er) => Err(er),
            },
            Err(er) => Err(er),
        },
        ExprV::Smaller(a, b) => match sp_lower_expr(*a, params, fs, st) {
            Ok(p1) => match sp_lower_expr(*b, params, fs, p1.1) {
                Ok(p2) => Ok(
                    (
                        p2.1.nregs,
                        sp_emit(sp_alloc(p2.1), InstV::Lt(p2.1.nregs, p1.0, p2.0)),
                    ),
                ),
                Err(er) => Err(er),
            },
            Err(er) => Err(er),
        },
        ExprV::Call(name, args) => match sp_lookup_fn(fs, name, 0) {
            None => Err(SemanticError::UnresolvedFunction),
            Some(g) => if fs[g].args.len() != args.len() {
                Err(SemanticError::ArityMismatch)
            } else {
                match sp_lower_args(args, params, fs, st, Seq::empty()) {
                    Ok(p1) => Ok(
                        (
                            p1.1.nregs,
                            sp_emit(sp_alloc(p1.1), InstV::Call(p1.1.nregs, g, p1.0)),
                        ),
                    ),
                    Err(er) => Err(er),
                }
            },
        },
        ExprV::If(c, a, b) => match sp_lower_expr(*c, params, fs, st) {
            Ok(pc) => {
                let st1 = pc.1;
                let then_b = st1.blocks.len() as int;
                let else_b = then_b + 1;
                let merge_b = then_b + 2;
                let st2 = sp_new_block(sp_new_block(sp_new_block(st1)));
                let st3 = sp_set_term(st2, st2.cur, TerminatorV::Branch(pc.0, then_b, else_b));
                let st4 = sp_set_cur(st3, then_b);
                match sp_lower_expr(*a, params, fs, st4) {
                    Ok(pt) => {
                        let st5 = sp_set_cur(
                            sp_set_term(pt.1, pt.1.cur, TerminatorV::Jump(merge_b)),
                            else_b,
                        );
                        match sp_lower_expr(*b, params, fs, st5) {
                            Ok(pf) => {
                                let st6 = sp_set_cur(
                                    sp_set_term(pf.1, pf.1.cur, TerminatorV::Jump(merge_b)),
                                    merge_b,
                                );
                                Ok(
                                    (
                                        st6.nregs,
                                        sp_emit(
                                            sp_alloc(st6),
                                            InstV::Phi(st6.nregs, pt.1.cur, pt.0, pf.1.cur, pf.0),
                                        ),
                                    ),
                                )
                            },
                            Err(er) => Err(er),
                        }
                    },
                    Err(er) => Err(er),
                }
            },
            Err(er) => Err(er),
        },
    }
}

/// The lowering of a call's arguments, left to right, collecting their
/// registers in order.
pub open spec fn sp_lower_args(
    es: Seq<ExprV>,
    params: Seq<Seq<char>>,
    fs: Seq<FnV>,
    st: LowerV,
    acc: Seq<int>,
) -> Result<(Seq<int>, LowerV), SemanticError>
    decreases es,
{
    if es.len() == 0 {
        Ok((acc, st))
    } else {
        match sp_lower_expr(es[0], params, fs, st) {
            Ok(p1) => sp_lower_args(
                es.subrange(1, es.len() as int),
                params,
                fs,
                p1.1,
                acc.push(p1.0),
            ),
            Err(er) => Err(er),
        }
    }
}

/// The lowering of one function definition: its body lowered from a fresh
/// entry block over registers starting with the parameters, ending in a
/// return of the body's register.
pub open spec fn sp_lower_fn(f: FnV, fs: Seq<FnV>) -> Result<(Seq<IrBlockV>, int), SemanticError> {
    if has_dup(f.args) {
        Err(SemanticError::DuplicateParameter)
    } else {
        let st0 = LowerV {
            blocks: seq![IrBlockV { insts: Seq::empty(), term: TerminatorV::Jump(0) }],
            cur: 0,
            nregs: f.args.len() as int,
        };
        match sp_lower_expr(f.body.ret, f.args, fs, st0) {
            Ok(p1) => Ok((sp_set_term(p1.1, p1.1.cur, TerminatorV::Ret(p1.0)).blocks, p1.1.nregs)),
            Err(er) => Err(er),
        }
    }
}

/// The lowering of the functions at or after `i`, in declaration order.
pub open spec fn sp_lower_fns(fs: Seq<FnV>, i: int) -> Result<Seq<IrFnV>, SemanticError>
    decreases fs.len() - i,
{
    if !(0 <= i < fs.len()) {
        Ok(Seq::empty())
    } else {
        match sp_lower_fn(fs[i], fs) {
            Ok(p1) => match sp_lower_fns(fs, i + 1) {
                Ok(rest) => Ok(
                    seq![
                        IrFnV {
                            name: fs[i].name,
                            n_params: fs[i].args.len() as int,
                            n_regs: p1.1,
                            blocks: p1.0,
                        },
                    ] + rest,
                ),
                Err(er) => Err(er),
            },
            Err(er) => Err(er),
        }
    }
}

/// The lowering of a whole program: `Code::codegen`'s result is exactly
/// this, on success and on failure alike.
pub open spec fn sp_lower_code(c: crate::ast::CodeV) -> Result<ProgramV, SemanticError> {
    if has_dup(names_of(c.functions)) {
        Err(SemanticError::DuplicateFunction)
    } else {
        match sp_lower_fns(c.functions, 0) {
            Ok(fseq) => Ok(ProgramV { funcs: fseq }),
            Err(er) => Err(er),
        }
    }
}

/// View of a sequence of argument registers.
pub open spec fn regs_int(v: Seq<usize>) -> Seq<int> {
    Seq::new(v.len(), |k: int| v[k] as int)
}

/// The state of lowering one function: the blocks built so far, the block
/// instructions are currently appended to, and the register file built so
/// far (one zero-initialised slot per allocated register).
struct Lower {
    blocks: Vec<IrBlock>,
    cur: usize,
    regs: Vec<i64>,
}

impl Lower {
    spec fn view(self) -> LowerV {
        LowerV {
            blocks: blocks_view(self.blocks@),
            cur: self.cur as int,
            nregs: self.regs@.len() as int,
        }
    }
}

/// Every instruction and terminator built so far is in range.
pub open spec fn lower_inv(st: LowerV, arities: Seq<int>) -> bool {
    &&& 0 <= st.cur < st.blocks.len()
    &&& forall|bi: int, ki: int|
        0 <= bi < st.blocks.len() && 0 <= ki < st.blocks[bi].insts.len() ==> inst_wf(
            #[trigger] st.blocks[bi].insts[ki],
            st.nregs,
            arities,
        )
    &&& forall|bi: int|
        0 <= bi < st.blocks.len() ==> term_wf(
            #[trigger] st.blocks[bi].term,
            st.nregs,
            st.blocks.len() as int,
        )
}

/// Appends an instruction to the current block, doing `sp_emit`.
fn emit(st: &mut Lower, inst: Inst, Ghost(arities): Ghost<Seq<int>>)
    requires
        lower_inv(old(st)@, arities),
        inst_wf(inst@, old(st)@.nregs, arities),
    ensures
        final(st)@ == sp_emit(old(st)@, inst@),
        lower_inv(final(st)@, arities),
{
    let cur = st.cur;
    let b = &mut st.blocks[cur];
    b.insts.push(inst);
    proof {
        let ov = old(st)@;
        let tv = sp_emit(ov, inst@);
        assert(st@.blocks[cur as int].insts =~= ov.blocks[cur as int].insts.push(inst@));
        assert(st@.blocks[cur as int] == tv.blocks[cur as int]);
        assert forall|bi: int| 0 <= bi < st@.blocks.len() implies st@.blocks[bi]
            == tv.blocks[bi] by {
            if bi != cur as int {
                assert(st.blocks@[bi] == old(st).blocks@[bi]);
            }
        }
        assert(st@.blocks =~= tv.blocks);
        assert(st@ == tv);
        assert forall|bi: int, ki: int|
            0 <= bi < st@.blocks.len() && 0 <= ki < st@.blocks[bi].insts.len() implies inst_wf(
            #[trigger] st@.blocks[bi].insts[ki],
            st@.nregs,
            arities,
        ) by {
            if bi == cur as int && ki == ov.blocks[bi].insts.len() {
                assert(st@.blocks[bi].insts[ki] == inst@);
            } else {
                assert(st@.blocks[bi].insts[ki] == ov.blocks[bi].insts[ki]);
            }
        }
        assert forall|bi: int| 0 <= bi < st@.blocks.len() implies term_wf(
            #[trigger] st@.blocks[bi].term,
            st@.nregs,
            st@.blocks.len() as int,
        ) by {
            assert(st@.blocks[bi].term == ov.blocks[bi].term);
        }
    }
}

/// Allocates a fresh register, zero-initialised, doing `sp_alloc`.
fn alloc_reg(st: &mut Lower, Ghost(arities): Ghost<Seq<int>>) -> (r: usize)
    requires
        lower_inv(old(st)@, arities),
    ensures
        final(st)@ == sp_alloc(old(st)@),
        lower_inv(final(st)@, arities),
        r as int == old(st)@.nregs,
{
    st.regs.push(0);
    proof {
        assert(st@.blocks =~= old(st)@.blocks);
        assert(st@ == sp_alloc(old(st)@));
    }
    st.regs.len() - 1
}

/// Appends a fresh block ending in a placeholder jump to the entry block;
/// the real terminator is set once the block's contents are lowered.
fn new_block(st: &mut Lower, Ghost(arities): Ghost<Seq<int>>) -> (r: usize)
    requires
        lower_inv(old(st)@, arities),
    ensures
        final(st)@ == sp_new_block(old(st)@),
        lower_inv(final(st)@, arities),
        r as int == old(st)@.blocks.len(),
{
    let r = st.blocks.len();
    st.blocks.push(IrBlock { insts: Vec::new(), term: Terminator::Jump(0) });
    proof {
        assert(st.blocks@[r as int].view().insts =~= Seq::<InstV>::empty());
        assert(st@.blocks =~= sp_new_block(old(st)@).blocks);
        assert(st@ == sp_new_block(old(st)@));
    }
    r
}

/// Sets the terminator of block `b`, doing `sp_set_term`.
fn set_term(st: &mut Lower, b: usize, t: Terminator, Ghost(arities): Ghost<Seq<int>>)
    requires
        lower_inv(old(st)@, arities),
        (b as int) < old(st)@.blocks.len(),
        term_wf(t@, old(st)@.nregs, old(st)@.blocks.len() as int),
    ensures
        final(st)@ == sp_set_term(old(st)@, b as int, t@),
        lower_inv(final(st)@, arities),
{
    let br = &mut st.blocks[b];
    br.term = t;
    proof {
        let ov = old(st)@;
        let tv = sp_set_term(ov, b as int, t@);
        assert(st@.blocks[b as int].insts =~= ov.blocks[b as int].insts);
        assert(st@.blocks[b as int] == tv.blocks[b as int]);
        assert forall|bi: int| 0 <= bi < st@.blocks.len() implies st@.blocks[bi]
            == tv.blocks[bi] by {
            if bi != b as int {
                assert(st.blocks@[bi] == old(st).blocks@[bi]);
            }
        }
        assert(st@.blocks =~= tv.blocks);
        assert(st@ == tv);
        assert forall|bi: int, ki: int|
            0 <= bi < st@.blocks.len() && 0 <= ki < st@.blocks[bi].insts.len() implies inst_wf(
            #[trigger] st@.blocks[bi].insts[ki],
            st@.nregs,
            arities,
        ) by {
            assert(st@.blocks[bi].insts == ov.blocks[bi].insts);
        }
    }
}

/// Moves the cursor to block `b`, doing `sp_set_cur`.
fn set_cur(st: &mut Lower, b: usize, Ghost(arities): Ghost<Seq<int>>)
    requires
        lower_inv(old(st)@, arities),
        (b as int) < old(st)@.blocks.len(),
    ensures
        final(st)@ == sp_set_cur(old(st)@, b as int),
        lower_inv(final(st)@, arities),
{
    st.cur = b;
    proof {
        assert(st@.blocks =~= old(st)@.blocks);
        assert(st@ == sp_set_cur(old(st)@, b as int));
    }
}

/// Looks a callee up by name: the first function with that name.
fn lookup_fn(functions: &Vec<Fn>, name: &String) -> (r: Option<usize>)
    ensures
        match r {
            Some(g) => sp_lookup_fn(fns_view(functions@), name@, 0) == Some(g as int) && g
                < functions@.len(),
            None => sp_lookup_fn(fns_view(functions@), name@, 0) is None,
        },
{
    let n = functions.len();
    let mut k: usize = 0;
    while k < n
        invariant
            k <= n,
            n == functions@.len(),
            sp_lookup_fn(fns_view(functions@), name@, 0) == sp_lookup_fn(
                fns_view(functions@),
                name@,
                k as int,
            ),
        decreases n - k,
    {
        if functions[k].name == *name {
            return Some(k);
        }
        k += 1;
    }
    None
}

/// Whether some string occurs twice in the list.
fn find_dup(names: &Vec<String>) -> (r: bool)
    ensures
        r == has_dup(strs_view(names@)),
{
    let n = names.len();
    let mut i: usize = 0;
    while i < n
        invariant
            i <= n,
            n == names@.len(),
            forall|a: int, b: int| 0 <= b < a < i ==> names@[b]@ != names@[a]@,
        decreases n - i,
    {
        let mut j: usize = 0;
        while j < i
            invariant
                j <= i < n,
                n == names@.len(),
                forall|a: int, b: int| 0 <= b < a < i ==> names@[b]@ != names@[a]@,
                forall|b: int| 0 <= b < j ==> names@[b]@ != names@[i as int]@,
            decreases i - j,
        {
            if names[j] == names[i] {
                proof {
                    assert(strs_view(names@)[j as int] == strs_view(names@)[i as int]);
                }
                return true;
            }
            j += 1;
        }
        i += 1;
    }
    proof {
        assert forall|a: int, b: int| 0 <= b < a < names@.len() implies strs_view(names@)[b]
            != strs_view(names@)[a] by {
            assert(names@[b]@ != names@[a]@);
        }
    }
    false
}

/// Lowers one expression into the current block, returning the register
/// holding its value, or the first semantic error of its traversal.
#[verifier::rlimit(100)]
fn lower_expr(e: &Expr, params: &Vec<String>, functions: &Vec<Fn>, st: &mut Lower) -> (r: Result<
    usize,
    SemanticError,
>)
    requires
        lower_inv(old(st)@, ars(functions@)),
        params@.len() <= old(st)@.nregs,
    ensures
        lower_inv(final(st)@, ars(functions@)),
        final(st)@.blocks.len() >= old(st)@.blocks.len(),
        final(st)@.nregs >= old(st)@.nregs,
        match r {
            Ok(reg) => sp_check_expr(e.view(), strs_view(params@), fns_view(functions@)) is None
                && (reg as int) < final(st)@.nregs && sp_lower_expr(
                e.view(),
                strs_view(params@),
                fns_view(functions@),
                old(st)@,
            ) == Ok::<(int, LowerV), SemanticError>((reg as int, final(st)@)),
            Err(er) => sp_check_expr(e.view(), strs_view(params@), fns_view(functions@)) == Some(
                er,
            ) && sp_lower_expr(e.view(), strs_view(params@), fns_view(functions@), old(st)@)
                == Err::<(int, LowerV), SemanticError>(er),
        },
    decreases *e, 1int,
{
    let ghost arities = ars(functions@);
    match e {
        Expr::Num(n) => {
            let dst = alloc_reg(st, Ghost(arities));
            emit(st, Inst::Const(dst, *n), Ghost(arities));
            Ok(dst)
        },
        Expr::Var(x) => {
            let n = params.len();
            let mut j: usize = 0;
            while j < n
                invariant
                    j <= n,
                    n == params@.len(),
                    *e == Expr::Var(*x),
                    *st == *old(st),
                    lower_inv(st@, ars(functions@)),
                    params@.len() <= st@.nregs,
                    forall|t: int| 0 <= t < j ==> params@[t]@ != x@,
                    sp_param_idx(strs_view(params@), x@, 0) == sp_param_idx(
                        strs_view(params@),
                        x@,
                        j as int,
                    ),
                decreases n - j,
            {
                if params[j] == *x {
                    proof {
                        assert(strs_view(params@)[j as int] == x@);
                        assert(sp_param_idx(strs_view(params@), x@, j as int) == Some(j as int));
                    }
                    return Ok(j);
                }
                proof {
                    assert(strs_view(params@)[j as int] == params@[j as int]@);
                }
                j += 1;
            }
            proof {
                assert(forall|t: int|
                    0 <= t < strs_view(params@).len() ==> strs_view(params@)[t] != x@);
                assert(sp_param_idx(strs_view(params@), x@, n as int) is None);
            }
            Err(SemanticError::UnresolvedIdentifier)
        },
        Expr::Neg(a) => {
            let areg = match lower_expr(a, params, functions, st) {
                Ok(v) => v,
                Err(er) => {
                    return Err(er);
                },
            };
            let dst = alloc_reg(st, Ghost(arities));
            emit(st, Inst::Neg(dst, areg), Ghost(arities));
            Ok(dst)
        },
        Expr::Add(a, b) => lower_bin(e, BinKind::Add, a, b, params, functions, st),
        Expr::Sub(a, b) => lower_bin(e, BinKind::Sub, a, b, params, functions, st),
        Expr::Mul(a, b) => lower_bin(e, BinKind::Mul, a, b, params, functions, st),
        Expr::Div(a, b) => lower_bin(e, BinKind::Div, a, b, params, functions, st),
        Expr::Bigger(a, b) => lower_bin(e, BinKind::Bigger, a, b, params, functions, st),
        Expr::Smaller(a, b) => lower_bin(e, BinKind::Smaller, a, b, params, functions, st),
        Expr::Call(name, args) => lower_call(e, name, args, params, functions, st),
        Expr::If(c, a, b) => lower_if(e, c, a, b, params, functions, st),
    }
}

/// The binary operator kinds, used to share the lowering of the six
/// two-operand operators.
#[derive(Clone, Copy)]
enum BinKind {
    Add,
    Sub,
    Mul,
    Div,
    Bigger,
    Smaller,
}

/// The AST node a binary operator kind stands for.
spec fn bin_ast(op: BinKind, a: Expr, b: Expr) -> Expr {
    match op {
        BinKind::Add => Expr::Add(Box::new(a), Box::new(b)),
        BinKind::Sub => Expr::Sub(Box::new(a), Box::new(b)),
        BinKind::Mul => Expr::Mul(Box::new(a), Box::new(b)),
        BinKind::Div => Expr::Div(Box::new(a), Box::new(b)),
        BinKind::Bigger => Expr::Bigger(Box::new(a), Box::new(b)),
        BinKind::Smaller => Expr::Smaller(Box::new(a), Box::new(b)),
    }
}

/// Lowers a binary operator: left operand, right operand, then the
/// corresponding instruction over their registers.
#[verifier::rlimit(100)]
fn lower_bin(
    e: &Expr,
    op: BinKind,
    a: &Box<Expr>,
    b: &Box<Expr>,
    params: &Vec<String>,
    functions: &Vec<Fn>,
    st: &mut Lower,
) -> (r: Result<usize, SemanticError>)
    requires
        *e == bin_ast(op, **a, **b),
        lower_inv(old(st)@, ars(functions@)),
        params@.len() <= old(st)@.nregs,
    ensures
        lower_inv(final(st)@, ars(functions@)),
        final(st)@.blocks.len() >= old(st)@.blocks.len(),
        final(st)@.nregs >= old(st)@.nregs,
        match r {
            Ok(reg) => sp_check_expr(e.view(), strs_view(params@), fns_view(functions@)) is None
                && (reg as int) < final(st)@.nregs && sp_lower_expr(
                e.view(),
                strs_view(params@),
                fns_view(functions@),
                old(st)@,
            ) == Ok::<(int, LowerV), SemanticError>((reg as int, final(st)@)),
            Err(er) => sp_check_expr(e.view(), strs_view(params@), fns_view(functions@)) == Some(
                er,
            ) && sp_lower_expr(e.view(), strs_view(params@), fns_view(functions@), old(st)@)
                == Err::<(int, LowerV), SemanticError>(er),
        },
    decreases *e, 0int,
{
    let ghost arities = ars(functions@);
    proof {
        assert(decreases_to!(*e => **a));
        assert(decreases_to!(*e => **b));
    }
    let areg = match lower_expr(a, params, functions, st) {
        Ok(v) => v,
        Err(er) => {
            return Err(er);
        },
    };
    let breg = match lower_expr(b, params, functions, st) {
        Ok(v) => v,
        Err(er) => {
            return Err(er);
        },
    };
    let dst = alloc_reg(st, Ghost(arities));
    match op {
        BinKind::Add => emit(st, Inst::Add(dst, areg, breg), Ghost(arities)),
        BinKind::Sub => emit(st, Inst::Sub(dst, areg, breg), Ghost(arities)),
        BinKind::Mul => emit(st, Inst::Mul(dst, areg, breg), Ghost(arities)),
        BinKind::Div => emit(st, Inst::Div(dst, areg, breg), Ghost(arities)),
        BinKind::Bigger => emit(st, Inst::Gt(dst, areg, breg), Ghost(arities)),
        BinKind::Smaller => emit(st, Inst::Lt(dst, areg, breg), Ghost(arities)),
    }
    Ok(dst)
}

/// Lowers a call: resolves the callee, checks the arity, lowers the
/// arguments left to right, and emits the call instruction.
#[verifier::rlimit(100)]
#[verifier::loop_isolation(false)]
fn lower_call(
    e: &Expr,
    name: &String,
    args: &Vec<Expr>,
    params: &Vec<String>,
    functions: &Vec<Fn>,
    st: &mut Lower,
) -> (r: Result<usize, SemanticError>)
    requires
        *e == Expr::Call(*name, *args),
        lower_inv(old(st)@, ars(functions@)),
        params@.len() <= old(st)@.nregs,
    ensures
        lower_inv(final(st)@, ars(functions@)),
        final(st)@.blocks.len() >= old(st)@.blocks.len(),
        final(st)@.nregs >= old(st)@.nregs,
        match r {
            Ok(reg) => sp_check_expr(e.view(), strs_view(params@), fns_view(functions@)) is None
                && (reg as int) < final(st)@.nregs && sp_lower_expr(
                e.view(),
                strs_view(params@),
                fns_view(functions@),
                old(st)@,
            ) == Ok::<(int, LowerV), SemanticError>((reg as int, final(st)@)),
            Err(er) => sp_check_expr(e.view(), strs_view(params@), fns_view(functions@)) == Some(
                er,
            ) && sp_lower_expr(e.view(), strs_view(params@), fns_view(functions@), old(st)@)
                == Err::<(int, LowerV), SemanticError>(er),
        },
    decreases *e, 0int,
{
    let ghost arities = ars(functions@);
    proof {
        Expr::lemma_view_seq(args@);
    }
    let g = match lookup_fn(functions, name) {
        Some(g) => g,
        None => {
            return Err(SemanticError::UnresolvedFunction);
        },
    };
    proof {
        assert(fns_view(functions@)[g as int] == functions@[g as int].view());
    }
    if functions[g].args.len() != args.len() {
        return Err(SemanticError::ArityMismatch);
    }
    let ghost whole = Expr::view_seq(args@);
    let n = args.len();
    proof {
        assert(Expr::view_seq(args@).subrange(0, n as int) =~= Expr::view_seq(args@));
    }
    proof {
        assert(regs_int(Seq::<usize>::empty()) =~= Seq::<int>::empty());
    }
    let mut regs: Vec<usize> = Vec::new();
    let mut t: usize = 0;
    while t < n
        invariant
            t <= n,
            n == args@.len(),
            whole == Expr::view_seq(args@),
            whole.len() == n,
            forall|x: int| 0 <= x < n ==> whole[x] == #[trigger] args@[x].view(),
            lower_inv(st@, ars(functions@)),
            st@.blocks.len() >= old(st)@.blocks.len(),
            st@.nregs >= old(st)@.nregs,
            params@.len() <= st@.nregs,
            *e == Expr::Call(*name, *args),
            g < functions@.len(),
            sp_lookup_fn(fns_view(functions@), name@, 0) == Some(g as int),
            fns_view(functions@)[g as int].args.len() == whole.len(),
            regs@.len() == t,
            forall|x: int| 0 <= x < t ==> (#[trigger] regs@[x] as int) < st@.nregs,
            sp_check_exprs(whole, strs_view(params@), fns_view(functions@)) == sp_check_exprs(
                whole.subrange(t as int, n as int),
                strs_view(params@),
                fns_view(functions@),
            ),
            sp_lower_args(whole, strs_view(params@), fns_view(functions@), old(st)@, Seq::empty())
                == sp_lower_args(
                whole.subrange(t as int, n as int),
                strs_view(params@),
                fns_view(functions@),
                st@,
                regs_int(regs@),
            ),
        decreases n - t,
    {
        let ghost pre = whole.subrange(t as int, n as int);
        proof {
            assert(pre[0] == args@[t as int].view());
            assert(pre.subrange(1, pre.len() as int) =~= whole.subrange(t as int + 1, n as int));
            assert(decreases_to!(*e => *args));
            assert(decreases_to!(*args => args@[t as int]));
        }
        let areg = match lower_expr(&args[t], params, functions, st) {
            Ok(v) => v,
            Err(er) => {
                return Err(er);
            },
        };
        proof {
            assert(regs_int(regs@.push(areg)) =~= regs_int(regs@).push(areg as int));
        }
        regs.push(areg);
        t += 1;
    }
    proof {
        assert(whole.subrange(n as int, n as int) =~= Seq::<ExprV>::empty());
    }
    let dst = alloc_reg(st, Ghost(arities));
    proof {
        assert(Inst::Call(dst, g, regs)@ == InstV::Call(dst as int, g as int, regs_int(regs@)));
    }
    emit(st, Inst::Call(dst, g, regs), Ghost(arities));
    Ok(dst)
}

/// Lowers a conditional: the condition in the current block, then a branch
/// into a then-block and an else-block, each lowered in its own block and
/// jumping to a shared merge block, whose `Phi` selects the value of
/// whichever branch ran.
#[verifier::rlimit(100)]
#[verifier::loop_isolation(false)]
fn lower_if(
    e: &Expr,
    c: &Box<Expr>,
    a: &Box<Expr>,
    b: &Box<Expr>,
    params: &Vec<String>,
    functions: &Vec<Fn>,
    st: &mut Lower,
) -> (r: Result<usize, SemanticError>)
    requires
        *e == Expr::If(*c, *a, *b),
        lower_inv(old(st)@, ars(functions@)),
        params@.len() <= old(st)@.nregs,
    ensures
        lower_inv(final(st)@, ars(functions@)),
        final(st)@.blocks.len() >= old(st)@.blocks.len(),
        final(st)@.nregs >= old(st)@.nregs,
        match r {
            Ok(reg) => sp_check_expr(e.view(), strs_view(params@), fns_view(functions@)) is None
                && (reg as int) < final(st)@.nregs && sp_lower_expr(
                e.view(),
                strs_view(params@),
                fns_view(functions@),
                old(st)@,
            ) == Ok::<(int, LowerV), SemanticError>((reg as int, final(st)@)),
            Err(er) => sp_check_expr(e.view(), strs_view(params@), fns_view(functions@)) == Some(
                er,
            ) && sp_lower_expr(e.view(), strs_view(params@), fns_view(functions@), old(st)@)
                == Err::<(int, LowerV), SemanticError>(er),
        },
    decreases *e, 0int,
{
    let ghost arities = ars(functions@);
    proof {
        assert(decreases_to!(*e => **c));
        assert(decreases_to!(*e => **a));
        assert(decreases_to!(*e => **b));
    }
    let creg = match lower_expr(c, params, functions, st) {
        Ok(v) => v,
        Err(er) => {
            return Err(er);
        },
    };
    let then_b = new_block(st, Ghost(arities));
    let else_b = new_block(st, Ghost(arities));
    let merge_b = new_block(st, Ghost(arities));
    let entry_end = st.cur;
    set_term(st, entry_end, Terminator::Branch(creg, then_b, else_b), Ghost(arities));
    set_cur(st, then_b, Ghost(arities));
    let treg = match lower_expr(a, params, functions, st) {
        Ok(v) => v,
        Err(er) => {
            return Err(er);
        },
    };
    let then_end = st.cur;
    set_term(st, then_end, Terminator::Jump(merge_b), Ghost(arities));
    set_cur(st, else_b, Ghost(arities));
    let ereg = match lower_expr(b, params, functions, st) {
        Ok(v) => v,
        Err(er) => {
            return Err(er);
        },
    };
    let else_end = st.cur;
    set_term(st, else_end, Terminator::Jump(merge_b), Ghost(arities));
    set_cur(st, merge_b, Ghost(arities));
    let dst = alloc_reg(st, Ghost(arities));
    emit(st, Inst::Phi(dst, then_end, treg, else_end, ereg), Ghost(arities));
    Ok(dst)
}

/// Lowers one function definition: rejects duplicate parameter names, then
/// lowers the body from a fresh entry block, ending in a return of the
/// body's value.  Returns the blocks and the register count.
#[verifier::rlimit(100)]
#[verifier::loop_isolation(false)]
fn lower_fn(fsrc: &Fn, functions: &Vec<Fn>) -> (r: Result<(Vec<IrBlock>, usize), SemanticError>)
    ensures
        match r {
            Ok(p) => {
                &&& sp_check_fn(fsrc.view(), fns_view(functions@)) is None
                &&& sp_lower_fn(fsrc.view(), fns_view(functions@)) == Ok::<
                    (Seq<IrBlockV>, int),
                    SemanticError,
                >((blocks_view(p.0@), p.1 as int))
                &&& fsrc.args@.len() <= p.1
                &&& p.0@.len() >= 1
                &&& forall|bi: int, ki: int|
                    0 <= bi < blocks_view(p.0@).len() && 0 <= ki < blocks_view(p.0@)[bi].insts.len()
                        ==> inst_wf(
                        #[trigger] blocks_view(p.0@)[bi].insts[ki],
                        p.1 as int,
                        ars(functions@),
                    )
                &&& forall|bi: int|
                    0 <= bi < blocks_view(p.0@).len() ==> term_wf(
                        #[trigger] blocks_view(p.0@)[bi].term,
                        p.1 as int,
                        blocks_view(p.0@).len() as int,
                    )
            },
            Err(er) => sp_check_fn(fsrc.view(), fns_view(functions@)) == Some(er)
                && sp_lower_fn(fsrc.view(), fns_view(functions@)) == Err::<
                (Seq<IrBlockV>, int),
                SemanticError,
            >(er),
        },
{
    if find_dup(&fsrc.args) {
        return Err(SemanticError::DuplicateParameter);
    }
    let mut st = Lower { blocks: Vec::new(), cur: 0, regs: Vec::new() };
    st.blocks.push(IrBlock { insts: Vec::new(), term: Terminator::Jump(0) });
    let np = fsrc.args.len();
    while st.regs.len() < np
        invariant
            st.regs@.len() <= np,
            st.blocks@.len() == 1,
            st.cur == 0,
            st.blocks@[0].insts@.len() == 0,
            st.blocks@[0].term == Terminator::Jump(0usize),
        decreases np - st.regs.len(),
    {
        st.regs.push(0);
    }
    let ghost st0 = LowerV {
        blocks: seq![IrBlockV { insts: Seq::empty(), term: TerminatorV::Jump(0) }],
        cur: 0,
        nregs: fsrc.args@.len() as int,
    };
    proof {
        assert(st@.blocks[0].insts =~= Seq::<InstV>::empty());
        assert(st@.blocks =~= st0.blocks);
        assert(st@ == st0);
    }
    match lower_expr(&fsrc.body.ret, &fsrc.args, functions, &mut st) {
        Ok(reg) => {
            let cur = st.cur;
            set_term(&mut st, cur, Terminator::Ret(reg), Ghost(ars(functions@)));
            let Lower { blocks, cur: _, regs } = st;
            Ok((blocks, regs.len()))
        },
        Err(er) => Err(er),
    }
}

impl Code {
    /// Lowers the program into a well-formed control-flow-graph program, or
    /// reports the first semantic error, exactly as `sp_check_code` states.
    /// On success the lowered program has one function per source function,
    /// in order, with the same name and arity.
    #[verifier::rlimit(100)]
    pub fn codegen(&self) -> (r: Result<Program, SemanticError>)
        ensures
            match r {
                Ok(p) => {
                    &&& sp_check_code(self@) is None
                    &&& sp_lower_code(self@) == Ok::<ProgramV, SemanticError>(p@)
                    &&& wf_program(p@)
                    &&& p@.funcs.len() == self@.functions.len()
                    &&& forall|k: int|
                        0 <= k < p@.funcs.len() ==> (#[trigger] p@.funcs[k].name)
                            == self@.functions[k].name && p@.funcs[k].n_params
                            == self@.functions[k].args.len()
                },
                Err(er) => sp_check_code(self@) == Some(er) && sp_lower_code(self@) == Err::<
                    ProgramV,
                    SemanticError,
                >(er),
            },
    {
        let ghost fsv = fns_view(self.functions@);
        let n = self.functions.len();
        // declaration pass: function names must be unique
        let mut names: Vec<String> = Vec::new();
        let mut i: usize = 0;
        while i < n
            invariant
                i <= n,
                n == self.functions@.len(),
                names@.len() == i,
                forall|k: int| 0 <= k < i ==> names@[k]@ == self.functions@[k].name@,
            decreases n - i,
        {
            names.push(self.functions[i].name.clone());
            i += 1;
        }
        proof {
            assert(strs_view(names@) =~= names_of(fns_view(self.functions@)));
        }
        if find_dup(&names) {
            return Err(SemanticError::DuplicateFunction);
        }
        // declaration pass: register every name and arity
        let mut funcs: Vec<IrFn> = Vec::new();
        let mut i2: usize = 0;
        while i2 < n
            invariant
                i2 <= n,
                n == self.functions@.len(),
                funcs@.len() == i2,
                forall|k: int|
                    0 <= k < i2 ==> (#[trigger] funcs@[k].name@) == self.functions@[k].name@,
                forall|k: int|
                    0 <= k < i2 ==> (#[trigger] funcs@[k].n_params) == self.functions@[
                        k
                    ].args@.len(),
            decreases n - i2,
        {
            funcs.push(
                IrFn {
                    name: self.functions[i2].name.clone(),
                    n_params: self.functions[i2].args.len(),
                    n_regs: 0,
                    blocks: Vec::new(),
                },
            );
            i2 += 1;
        }
        // definition pass: lower every body
        proof {
            if sp_lower_fns(fsv, 0) is Ok {
                assert(Seq::new(0nat, |k: int| funcs@[k].view()) + sp_lower_fns(fsv, 0)->Ok_0
                    =~= sp_lower_fns(fsv, 0)->Ok_0);
            }
        }
        let mut i3: usize = 0;
        while i3 < n
            invariant
                i3 <= n,
                n == self.functions@.len(),
                fsv == fns_view(self.functions@),
                !has_dup(names_of(fsv)),
                sp_check_fns(fsv, 0) == sp_check_fns(fsv, i3 as int),
                funcs@.len() == n,
                forall|k: int|
                    0 <= k < n ==> (#[trigger] funcs@[k].name@) == self.functions@[k].name@,
                forall|k: int|
                    0 <= k < n ==> (#[trigger] funcs@[k].n_params) == self.functions@[
                        k
                    ].args@.len(),
                forall|k: int|
                    0 <= k < i3 ==> fn_wf(#[trigger] funcs@[k].view(), ars(self.functions@)),
                (match sp_lower_fns(fsv, i3 as int) {
                    Ok(rest) => sp_lower_fns(fsv, 0) == Ok::<Seq<IrFnV>, SemanticError>(
                        Seq::new(i3 as nat, |k: int| funcs@[k].view()) + rest,
                    ),
                    Err(er2) => sp_lower_fns(fsv, 0) == Err::<Seq<IrFnV>, SemanticError>(er2),
                }),
            decreases n - i3,
        {
            let fsrc = &self.functions[i3];
            proof {
                assert(fsv[i3 as int] == fsrc.view());
            }
            let ghost pre_fns = funcs@;
            match lower_fn(fsrc, &self.functions) {
                Ok((blocks, nregs)) => {
                    let ghost bv = blocks_view(blocks@);
                    funcs.set(
                        i3,
                        IrFn {
                            name: fsrc.name.clone(),
                            n_params: fsrc.args.len(),
                            n_regs: nregs,
                            blocks,
                        },
                    );
                    proof {
                        assert(fn_wf(funcs@[i3 as int].view(), ars(self.functions@)));
                        let head = IrFnV {
                            name: fsv[i3 as int].name,
                            n_params: fsv[i3 as int].args.len() as int,
                            n_regs: nregs as int,
                            blocks: bv,
                        };
                        assert(funcs@[i3 as int].view() == head);
                        assert(sp_lower_fn(fsv[i3 as int], fsv) == Ok::<
                            (Seq<IrBlockV>, int),
                            SemanticError,
                        >((bv, nregs as int)));
                        if sp_lower_fns(fsv, i3 as int + 1) is Ok {
                            let rest2 = sp_lower_fns(fsv, i3 as int + 1)->Ok_0;
                            assert(sp_lower_fns(fsv, i3 as int) == Ok::<
                                Seq<IrFnV>,
                                SemanticError,
                            >(seq![head] + rest2));
                            assert(Seq::new((i3 + 1) as nat, |k: int| funcs@[k].view()) + rest2
                                =~= Seq::new(i3 as nat, |k: int| pre_fns[k].view()) + (seq![head]
                                + rest2)) by {
                                assert(forall|k: int|
                                    0 <= k < i3 ==> funcs@[k] == #[trigger] pre_fns[k]);
                            }
                        } else {
                            assert(sp_lower_fns(fsv, i3 as int) == sp_lower_fns(
                                fsv,
                                i3 as int + 1,
                            ));
                        }
                        assert(Seq::new(i3 as nat, |k: int| funcs@[k].view()) =~= Seq::new(
                            i3 as nat,
                            |k: int| pre_fns[k].view(),
                        ));
                    }
                },
                Err(er) => {
                    proof {
                        assert(sp_check_fn(fsv[i3 as int], fsv) == Some(er));
                        assert(sp_lower_fns(fsv, i3 as int) == Err::<Seq<IrFnV>, SemanticError>(
                            er,
                        ));
                    }
                    return Err(er);
                },
            }
            i3 += 1;
        }
        let p = Program { funcs };
        proof {
            assert(arities_of(p@) =~= ars(self.functions@));
            assert forall|f: int| 0 <= f < p@.funcs.len() implies fn_wf(
                #[trigger] p@.funcs[f],
                arities_of(p@),
            ) by {
                assert(p@.funcs[f] == funcs@[f].view());
                assert(fn_wf(funcs@[f].view(), ars(self.functions@)));
            }
            assert forall|k: int| 0 <= k < p@.funcs.len() implies (#[trigger] p@.funcs[k].name)
                == self@.functions[k].name && p@.funcs[k].n_params
                == self@.functions[k].args.len() by {
                assert(p@.funcs[k] == funcs@[k].view());
                assert(self@.functions[k] == self.functions@[k].view());
            }
            assert(sp_lower_fns(fsv, n as int) == Ok::<Seq<IrFnV>, SemanticError>(
                Seq::<IrFnV>::empty(),
            ));
            assert(Seq::new(n as nat, |k: int| funcs@[k].view()) + Seq::<IrFnV>::empty()
                =~= Seq::new(n as nat, |k: int| funcs@[k].view()));
            assert(p@.funcs =~= Seq::new(n as nat, |k: int| funcs@[k].view()));
            assert(sp_lower_code(self@) == Ok::<ProgramV, SemanticError>(p@));
        }
        Ok(p)
    }
}

} // verus!
