//! The intermediate representation and its builder.
//!
//! Each abstract-syntax function becomes an `IrFunc`: values are
//! numbered and each is defined exactly once; mutable source variables
//! are explicit variable slots written by `DefVar` and read by `UseVar`;
//! control flow is explicit blocks ended by a terminator. Loops form an
//! intentional cycle among blocks — that is control flow, distinct from
//! the dataflow acyclicity required of the node graph.
//!
//! The builder resolves every identifier to a variable slot, every call
//! to a defined function or a host symbol, and checks call arity; it
//! fails with `UnknownIdentifier`, `TypeMismatch` or `UndefinedFunction`
//! at the first fault. All values share the single numeric kind, so
//! arity is the whole of a call's type check.
use vstd::prelude::*;

use crate::frontend::BinOp;
use crate::frontend::CompileError;
use crate::frontend::Expr;
use crate::frontend::Program;
use crate::frontend::Stmt;

verus! {

/// What a call site refers to after resolution: a function of this
/// module (by index) or a host symbol (by index into the host table).
#[derive(Debug, Clone, Copy, PartialEq, Eq, Structural)]
pub enum CalleeRef {
    Local(usize),
    Host(usize),
}

/// One instruction. Every `dst` is a fresh value number, assigned once.
#[derive(Debug)]
pub enum Inst {
    /// Materialize the numeric literal (its lexeme) into `dst`.
    Const { dst: usize, lit: Vec<u8> },
    /// Arithmetic or comparison on two values; comparisons yield 1 or 0.
    Bin { dst: usize, op: BinOp, a: usize, b: usize },
    /// Call; binds one result value per callee return.
    Call { dsts: Vec<usize>, callee: CalleeRef, args: Vec<usize> },
    /// Read a variable slot into a fresh value.
    UseVar { dst: usize, var: usize },
    /// Write a value into a variable slot.
    DefVar { var: usize, val: usize },
}

/// A block terminator.
#[derive(Debug)]
pub enum Term {
    Jump { target: usize },
    /// Branch on nonzero.
    Branch { cond: usize, then_blk: usize, else_blk: usize },
    Ret { vals: Vec<usize> },
}

/// A basic block: straight-line instructions and one terminator.
#[derive(Debug)]
pub struct IrBlock {
    pub insts: Vec<Inst>,
    pub term: Term,
}

/// One IR function. Block 0 is the entry; variable slots `0..n_params`
/// hold the parameters on entry; every other assigned variable is
/// zero-initialized in the entry block before the body runs.
#[derive(Debug)]
pub struct IrFunc {
    pub name: Vec<u8>,
    pub n_params: usize,
    pub n_rets: usize,
    pub n_vars: usize,
    pub n_vals: usize,
    pub blocks: Vec<IrBlock>,
}

/// A fresh IR module: one `IrFunc` per source function, in order.
#[derive(Debug)]
pub struct IrModule {
    pub funcs: Vec<IrFunc>,
}

/// A function signature for resolution: name and arities.
#[derive(Debug, Clone)]
pub struct FnSig {
    pub name: Vec<u8>,
    pub n_params: usize,
    pub n_rets: usize,
}

/// Byte-string equality.
pub fn bytes_eq(a: &Vec<u8>, b: &Vec<u8>) -> (r: bool)
    ensures
        r == (a@ == b@),
{
    if a.len() != b.len() {
        proof {
            assert(a@ != b@);
        }
        return false;
    }
    let mut i: usize = 0;
    while i < a.len()
        invariant
            a@.len() == b@.len(),
            i <= a@.len(),
            forall|j: int| 0 <= j < i ==> a@[j] == b@[j],
        decreases a@.len() - i,
    {
        if a[i] != b[i] {
            proof {
                assert(a@ != b@);
            }
            return false;
        }
        i += 1;
    }
    proof {
        assert(a@ =~= b@);
    }
    true
}

/// Builder state for one function.
struct Ctx {
    /// All blocks, some still placeholders until sealed.
    blocks: Vec<IrBlock>,
    /// Index of the block currently being filled.
    cur: usize,
    /// Next fresh value number.
    n_vals: usize,
    /// Resolved variable slots: name, slot index.
    vars: Vec<(Vec<u8>, usize)>,
}

/// Reserve a block index, to be sealed later.
fn new_block(ctx: &mut Ctx) -> (idx: usize)
    ensures
        final(ctx).blocks@.len() == old(ctx).blocks@.len() + 1,
        final(ctx).vars@.len() == old(ctx).vars@.len(),
{
    let idx = ctx.blocks.len();
    ctx.blocks.push(IrBlock { insts: Vec::new(), term: Term::Ret { vals: Vec::new() } });
    idx
}

/// Fill a reserved block with its instructions and terminator.
fn seal(ctx: &mut Ctx, idx: usize, insts: Vec<Inst>, term: Term)
    ensures
        final(ctx).blocks@.len() == old(ctx).blocks@.len(),
        final(ctx).vars@.len() == old(ctx).vars@.len(),
{
    if idx < ctx.blocks.len() {
        ctx.blocks.set(idx, IrBlock { insts, term });
    }
}

/// The variable slot bound to `name`, if any.
fn lookup_var(ctx: &Ctx, name: &Vec<u8>) -> Option<usize> {
    let mut i: usize = 0;
    while i < ctx.vars.len()
        invariant
            i <= ctx.vars@.len(),
        decreases ctx.vars@.len() - i,
    {
        if bytes_eq(&ctx.vars[i].0, name) {
            return Some(ctx.vars[i].1);
        }
        i += 1;
    }
    None
}

/// The signature `name` resolves to: this module's functions first,
/// then the host symbol table.
fn lookup_callee(locals: &Vec<FnSig>, host: &Vec<FnSig>, name: &Vec<u8>) -> Option<
    (CalleeRef, usize, usize),
> {
    let mut i: usize = 0;
    while i < locals.len()
        invariant
            i <= locals@.len(),
        decreases locals@.len() - i,
    {
        if bytes_eq(&locals[i].name, name) {
            return Some((CalleeRef::Local(i), locals[i].n_params, locals[i].n_rets));
        }
        i += 1;
    }
    let mut h: usize = 0;
    while h < host.len()
        invariant
            h <= host@.len(),
        decreases host@.len() - h,
    {
        if bytes_eq(&host[h].name, name) {
            return Some((CalleeRef::Host(h), host[h].n_params, host[h].n_rets));
        }
        h += 1;
    }
    None
}

/// Record every assignment-target name in `stmts` as a variable, once.
fn collect_targets(ctx: &mut Ctx, stmts: &Vec<Stmt>)
    ensures
        old(ctx).vars@.len() <= final(ctx).vars@.len(),
        final(ctx).blocks@.len() == old(ctx).blocks@.len(),
    decreases stmts,
{
    let mut i: usize = 0;
    while i < stmts.len()
        invariant
            i <= stmts@.len(),
            old(ctx).vars@.len() <= ctx.vars@.len(),
            ctx.blocks@.len() == old(ctx).blocks@.len(),
        decreases stmts@.len() - i,
    {
        collect_targets_stmt(ctx, &stmts[i]);
        i += 1;
    }
}

/// Record the assignment targets of one statement.
fn collect_targets_stmt(ctx: &mut Ctx, s: &Stmt)
    ensures
        old(ctx).vars@.len() <= final(ctx).vars@.len(),
        final(ctx).blocks@.len() == old(ctx).blocks@.len(),
    decreases s,
{
    match s {
        Stmt::Assign { targets, value: _ } => {
            let mut k: usize = 0;
            while k < targets.len()
                invariant
                    k <= targets@.len(),
                    old(ctx).vars@.len() <= ctx.vars@.len(),
                    ctx.blocks@.len() == old(ctx).blocks@.len(),
                decreases targets@.len() - k,
            {
                match lookup_var(ctx, &targets[k]) {
                    Some(_) => {
                    },
                    None => {
                        let slot = ctx.vars.len();
                        ctx.vars.push((crate::frontend::copy_bytes(&targets[k]), slot));
                    },
                }
                k += 1;
            }
        },
        Stmt::If { cond: _, then_body, else_body } => {
            collect_targets(ctx, then_body);
            collect_targets(ctx, else_body);
        },
        Stmt::While { cond: _, body } => {
            collect_targets(ctx, body);
        },
        Stmt::Discard { value: _ } => {
        },
    }
}

/// Translate an expression into instructions appended to `insts`,
/// returning the value number holding its result.
fn translate_expr(
    ctx: &mut Ctx,
    locals: &Vec<FnSig>,
    host: &Vec<FnSig>,
    mut insts: Vec<Inst>,
    e: &Expr,
) -> (r: Result<(Vec<Inst>, usize), CompileError>)
    ensures
        final(ctx).blocks@.len() >= old(ctx).blocks@.len(),
        final(ctx).vars@.len() >= old(ctx).vars@.len(),
        r matches Err(e) ==> (e is UnknownIdentifier || e is TypeMismatch
            || e is UndefinedFunction),
    decreases e,
{
    match e {
        Expr::Num(lit) => {
            let dst = ctx.n_vals;
            ctx.n_vals = if ctx.n_vals < usize::MAX {
                ctx.n_vals + 1
            } else {
                ctx.n_vals
            };
            insts.push(Inst::Const { dst, lit: crate::frontend::copy_bytes(lit) });
            Ok((insts, dst))
        },
        Expr::Var(name) => {
            match lookup_var(ctx, name) {
                Some(var) => {
                    let dst = ctx.n_vals;
                    ctx.n_vals = if ctx.n_vals < usize::MAX {
                        ctx.n_vals + 1
                    } else {
                        ctx.n_vals
                    };
                    insts.push(Inst::UseVar { dst, var });
                    Ok((insts, dst))
                },
                None => Err(
                    CompileError::UnknownIdentifier { name: crate::frontend::copy_bytes(name) },
                ),
            }
        },
        Expr::Bin { op, lhs, rhs } => {
            let (insts2, a) = match translate_expr(ctx, locals, host, insts, lhs) {
                Ok(x) => x,
                Err(e2) => {
                    return Err(e2);
                },
            };
            let (mut insts3, b) = match translate_expr(ctx, locals, host, insts2, rhs) {
                Ok(x) => x,
                Err(e2) => {
                    return Err(e2);
                },
            };
            let dst = ctx.n_vals;
            ctx.n_vals = if ctx.n_vals < usize::MAX {
                ctx.n_vals + 1
            } else {
                ctx.n_vals
            };
            insts3.push(Inst::Bin { dst, op: *op, a, b });
            Ok((insts3, dst))
        },
        Expr::Call { callee, args } => {
            let (insts2, dsts) = match translate_call(ctx, locals, host, insts, callee, args, 1) {
                Ok(x) => x,
                Err(e2) => {
                    return Err(e2);
                },
            };
            let dst = if dsts.len() > 0 {
                dsts[0]
            } else {
                0
            };
            Ok((insts2, dst))
        },
    }
}

/// Translate a call whose result count must be `want_rets` (the number
/// of binding targets; 1 inside an expression). Resolution failure is
/// `UndefinedFunction`; an argument-count or result-count disagreement
/// is `TypeMismatch`.
fn translate_call(
    ctx: &mut Ctx,
    locals: &Vec<FnSig>,
    host: &Vec<FnSig>,
    mut insts: Vec<Inst>,
    callee: &Vec<u8>,
    args: &Vec<Expr>,
    want_rets: usize,
) -> (r: Result<(Vec<Inst>, Vec<usize>), CompileError>)
    ensures
        final(ctx).blocks@.len() >= old(ctx).blocks@.len(),
        final(ctx).vars@.len() >= old(ctx).vars@.len(),
        r matches Err(e) ==> (e is UnknownIdentifier || e is TypeMismatch
            || e is UndefinedFunction),
    decreases args,
{
    let (cref, n_params, n_rets) = match lookup_callee(locals, host, callee) {
        Some(x) => x,
        None => {
            return Err(
                CompileError::UndefinedFunction { name: crate::frontend::copy_bytes(callee) },
            );
        },
    };
    if args.len() != n_params {
        return Err(
            CompileError::TypeMismatch {
                callee: crate::frontend::copy_bytes(callee),
                expected: n_params,
                found: args.len(),
            },
        );
    }
    if n_rets != want_rets {
        return Err(
            CompileError::TypeMismatch {
                callee: crate::frontend::copy_bytes(callee),
                expected: n_rets,
                found: want_rets,
            },
        );
    }
    let mut vals: Vec<usize> = Vec::new();
    let mut i: usize = 0;
    while i < args.len()
        invariant
            i <= args@.len(),
            ctx.blocks@.len() >= old(ctx).blocks@.len(),
            ctx.vars@.len() >= old(ctx).vars@.len(),
        decreases args@.len() - i,
    {
        let (insts2, v) = match translate_expr(ctx, locals, host, insts, &args[i]) {
            Ok(x) => x,
            Err(e2) => {
                return Err(e2);
            },
        };
        insts = insts2;
        vals.push(v);
        i += 1;
    }
    let mut dsts: Vec<usize> = Vec::new();
    let mut k: usize = 0;
    while k < n_rets
        invariant
            k <= n_rets,
            ctx.blocks@.len() >= old(ctx).blocks@.len(),
            ctx.vars@.len() >= old(ctx).vars@.len(),
        decreases n_rets - k,
    {
        let dst = ctx.n_vals;
        ctx.n_vals = if ctx.n_vals < usize::MAX {
            ctx.n_vals + 1
        } else {
            ctx.n_vals
        };
        dsts.push(dst);
        k += 1;
    }
    insts.push(Inst::Call { dsts: copy_usizes(&dsts), callee: cref, args: vals });
    Ok((insts, dsts))
}

/// A fresh copy of an index list.
fn copy_usizes(v: &Vec<usize>) -> (r: Vec<usize>)
    ensures
        r@ == v@,
{
    let mut r: Vec<usize> = Vec::new();
    let mut i: usize = 0;
    while i < v.len()
        invariant
            i <= v@.len(),
            r@ == v@.subrange(0, i as int),
        decreases v@.len() - i,
    {
        r.push(v[i]);
        proof {
            assert(r@ =~= v@.subrange(0, i as int + 1));
        }
        i += 1;
    }
    proof {
        assert(v@.subrange(0, v@.len() as int) =~= v@);
    }
    r
}

/// Translate one statement; `insts` is the instruction list of the
/// block under construction, and the returned list continues the block
/// control falls through to.
fn translate_stmt(
    ctx: &mut Ctx,
    locals: &Vec<FnSig>,
    host: &Vec<FnSig>,
    insts: Vec<Inst>,
    s: &Stmt,
) -> (r: Result<Vec<Inst>, CompileError>)
    ensures
        final(ctx).blocks@.len() >= old(ctx).blocks@.len(),
        final(ctx).vars@.len() >= old(ctx).vars@.len(),
        r matches Err(e) ==> (e is UnknownIdentifier || e is TypeMismatch
            || e is UndefinedFunction),
    decreases s,
{
    match s {
        Stmt::Assign { targets, value } => {
            let mut insts2: Vec<Inst>;
            let mut vals: Vec<usize> = Vec::new();
            match value {
                Expr::Call { callee, args } => {
                    let (i2, dsts) = match translate_call(
                        ctx,
                        locals,
                        host,
                        insts,
                        callee,
                        args,
                        targets.len(),
                    ) {
                        Ok(x) => x,
                        Err(e2) => {
                            return Err(e2);
                        },
                    };
                    insts2 = i2;
                    vals = dsts;
                },
                _ => {
                    if targets.len() != 1 {
                        let cname = if targets.len() > 0 {
                            crate::frontend::copy_bytes(&targets[0])
                        } else {
                            Vec::new()
                        };
                        return Err(
                            CompileError::TypeMismatch {
                                callee: cname,
                                expected: 1,
                                found: targets.len(),
                            },
                        );
                    }
                    let (i2, v) = match translate_expr(ctx, locals, host, insts, value) {
                        Ok(x) => x,
                        Err(e2) => {
                            return Err(e2);
                        },
                    };
                    insts2 = i2;
                    vals.push(v);
                },
            }
            let mut k: usize = 0;
            while k < targets.len() && k < vals.len()
                invariant
                    k <= targets@.len(),
                    ctx.blocks@.len() >= old(ctx).blocks@.len(),
                    ctx.vars@.len() >= old(ctx).vars@.len(),
                decreases targets@.len() - k,
            {
                match lookup_var(ctx, &targets[k]) {
                    Some(var) => {
                        insts2.push(Inst::DefVar { var, val: vals[k] });
                    },
                    None => {
                    },
                }
                k += 1;
            }
            Ok(insts2)
        },
        Stmt::If { cond, then_body, else_body } => {
            let (insts2, c) = match translate_expr(ctx, locals, host, insts, cond) {
                Ok(x) => x,
                Err(e2) => {
                    return Err(e2);
                },
            };
            let then_blk = new_block(ctx);
            let else_blk = new_block(ctx);
            let merge_blk = new_block(ctx);
            let here = ctx.cur;
            seal(ctx, here, insts2, Term::Branch { cond: c, then_blk, else_blk });
            ctx.cur = then_blk;
            let then_insts = match translate_stmts(ctx, locals, host, Vec::new(), then_body) {
                Ok(x) => x,
                Err(e2) => {
                    return Err(e2);
                },
            };
            let then_end = ctx.cur;
            seal(ctx, then_end, then_insts, Term::Jump { target: merge_blk });
            ctx.cur = else_blk;
            let else_insts = match translate_stmts(ctx, locals, host, Vec::new(), else_body) {
                Ok(x) => x,
                Err(e2) => {
                    return Err(e2);
                },
            };
            let else_end = ctx.cur;
            seal(ctx, else_end, else_insts, Term::Jump { target: merge_blk });
            ctx.cur = merge_blk;
            Ok(Vec::new())
        },
        Stmt::While { cond, body } => {
            let header_blk = new_block(ctx);
            let body_blk = new_block(ctx);
            let exit_blk = new_block(ctx);
            let here = ctx.cur;
            seal(ctx, here, insts, Term::Jump { target: header_blk });
            ctx.cur = header_blk;
            let (cond_insts, c) = match translate_expr(ctx, locals, host, Vec::new(), cond) {
                Ok(x) => x,
                Err(e2) => {
                    return Err(e2);
                },
            };
            seal(
                ctx,
                header_blk,
                cond_insts,
                Term::Branch { cond: c, then_blk: body_blk, else_blk: exit_blk },
            );
            ctx.cur = body_blk;
            let body_insts = match translate_stmts(ctx, locals, host, Vec::new(), body) {
                Ok(x) => x,
                Err(e2) => {
                    return Err(e2);
                },
            };
            let body_end = ctx.cur;
            seal(ctx, body_end, body_insts, Term::Jump { target: header_blk });
            ctx.cur = exit_blk;
            Ok(Vec::new())
        },
        Stmt::Discard { value } => {
            match value {
                Expr::Call { callee, args } => {
                    match lookup_callee(locals, host, callee) {
                        Some((_, _, n_rets)) => {
                            let (i2, _) = match translate_call(
                                ctx,
                                locals,
                                host,
                                insts,
                                callee,
                                args,
                                n_rets,
                            ) {
                                Ok(x) => x,
                                Err(e2) => {
                                    return Err(e2);
                                },
                            };
                            Ok(i2)
                        },
                        None => Err(
                            CompileError::UndefinedFunction {
                                name: crate::frontend::copy_bytes(callee),
                            },
                        ),
                    }
                },
                _ => {
                    let (i2, _) = match translate_expr(ctx, locals, host, insts, value) {
                        Ok(x) => x,
                        Err(e2) => {
                            return Err(e2);
                        },
                    };
                    Ok(i2)
                },
            }
        },
    }
}

/// Translate a statement list in order.
fn translate_stmts(
    ctx: &mut Ctx,
    locals: &Vec<FnSig>,
    host: &Vec<FnSig>,
    mut insts: Vec<Inst>,
    stmts: &Vec<Stmt>,
) -> (r: Result<Vec<Inst>, CompileError>)
    ensures
        final(ctx).blocks@.len() >= old(ctx).blocks@.len(),
        final(ctx).vars@.len() >= old(ctx).vars@.len(),
        r matches Err(e) ==> (e is UnknownIdentifier || e is TypeMismatch
            || e is UndefinedFunction),
        stmts@.len() == 0 ==> r is Ok,
    decreases stmts,
{
    let mut i: usize = 0;
    while i < stmts.len()
        invariant
            i <= stmts@.len(),
            ctx.blocks@.len() >= old(ctx).blocks@.len(),
            ctx.vars@.len() >= old(ctx).vars@.len(),
        decreases stmts@.len() - i,
    {
        insts = match translate_stmt(ctx, locals, host, insts, &stmts[i]) {
            Ok(x) => x,
            Err(e2) => {
                return Err(e2);
            },
        };
        i += 1;
    }
    Ok(insts)
}

/// Build an IR module from a parsed program against a host symbol
/// table. All function signatures are declared before any body is
/// built, so definitions may call forward or call one another. On
/// success the module declares exactly the source functions: same
/// names, same arities, in order, each with an entry block and variable
/// slots covering its parameters. A program with no definitions always
/// builds (to the empty module), and the only failures are the three
/// resolution faults: an unbound identifier, a call arity disagreement,
/// or an unresolvable callee. On failure nothing partial escapes.
pub fn build_module(prog: &Program, host: &Vec<FnSig>) -> (r: Result<IrModule, CompileError>)
    ensures
        prog.funcs@.len() == 0 ==> r is Ok,
        (forall|i: int|
            0 <= i < prog.funcs@.len() ==> (#[trigger] prog.funcs@[i]).body@.len() == 0
                && prog.funcs@[i].rets@.len() == 0) ==> r is Ok,
        r matches Err(e) ==> (e is UnknownIdentifier || e is TypeMismatch
            || e is UndefinedFunction),
        r is Ok ==> {
            let m = r->Ok_0;
            &&& m.funcs@.len() == prog.funcs@.len()
            &&& forall|i: int|
                0 <= i < m.funcs@.len() ==> {
                    &&& (#[trigger] m.funcs@[i]).name@ == prog.funcs@[i].name@
                    &&& m.funcs@[i].n_params == prog.funcs@[i].params@.len()
                    &&& m.funcs@[i].n_rets == prog.funcs@[i].rets@.len()
                    &&& m.funcs@[i].blocks@.len() >= 1
                    &&& m.funcs@[i].n_vars >= m.funcs@[i].n_params
                }
        },
{
    let mut locals: Vec<FnSig> = Vec::new();
    let mut d: usize = 0;
    while d < prog.funcs.len()
        invariant
            d <= prog.funcs@.len(),
            locals@.len() == d,
            forall|i: int|
                0 <= i < d ==> {
                    &&& (#[trigger] locals@[i]).name@ == prog.funcs@[i].name@
                    &&& locals@[i].n_params == prog.funcs@[i].params@.len()
                    &&& locals@[i].n_rets == prog.funcs@[i].rets@.len()
                },
        decreases prog.funcs@.len() - d,
    {
        locals.push(
            FnSig {
                name: crate::frontend::copy_bytes(&prog.funcs[d].name),
                n_params: prog.funcs[d].params.len(),
                n_rets: prog.funcs[d].rets.len(),
            },
        );
        d += 1;
    }
    let mut funcs: Vec<IrFunc> = Vec::new();
    let mut f: usize = 0;
    while f < prog.funcs.len()
        invariant
            f <= prog.funcs@.len(),
            funcs@.len() == f,
            locals@.len() == prog.funcs@.len(),
            forall|i: int|
                0 <= i < prog.funcs@.len() ==> {
                    &&& (#[trigger] locals@[i]).name@ == prog.funcs@[i].name@
                    &&& locals@[i].n_params == prog.funcs@[i].params@.len()
                    &&& locals@[i].n_rets == prog.funcs@[i].rets@.len()
                },
            forall|i: int|
                0 <= i < f ==> {
                    &&& (#[trigger] funcs@[i]).name@ == prog.funcs@[i].name@
                    &&& funcs@[i].n_params == prog.funcs@[i].params@.len()
                    &&& funcs@[i].n_rets == prog.funcs@[i].rets@.len()
                    &&& funcs@[i].blocks@.len() >= 1
                    &&& funcs@[i].n_vars >= funcs@[i].n_params
                },
        decreases prog.funcs@.len() - f,
    {
        let fd = &prog.funcs[f];
        let mut ctx = Ctx { blocks: Vec::new(), cur: 0, n_vals: 0, vars: Vec::new() };
        let entry = new_block(&mut ctx);
        ctx.cur = entry;
        let mut k: usize = 0;
        while k < fd.params.len()
            invariant
                k <= fd.params@.len(),
                ctx.vars@.len() == k,
                ctx.blocks@.len() == 1,
            decreases fd.params@.len() - k,
        {
            let slot = ctx.vars.len();
            ctx.vars.push((crate::frontend::copy_bytes(&fd.params[k]), slot));
            k += 1;
        }
        let n_param_vars = ctx.vars.len();
        let mut k2: usize = 0;
        while k2 < fd.rets.len()
            invariant
                k2 <= fd.rets@.len(),
                n_param_vars <= ctx.vars@.len(),
                ctx.blocks@.len() == 1,
            decreases fd.rets@.len() - k2,
        {
            match lookup_var(&ctx, &fd.rets[k2]) {
                Some(_) => {
                },
                None => {
                    let slot = ctx.vars.len();
                    ctx.vars.push((crate::frontend::copy_bytes(&fd.rets[k2]), slot));
                },
            }
            k2 += 1;
        }
        collect_targets(&mut ctx, &fd.body);
        let mut insts: Vec<Inst> = Vec::new();
        let mut z: usize = n_param_vars;
        while z < ctx.vars.len()
            invariant
                z <= ctx.vars@.len(),
                n_param_vars <= ctx.vars@.len(),
                ctx.blocks@.len() >= 1,
            decreases ctx.vars@.len() - z,
        {
            let dst = ctx.n_vals;
            ctx.n_vals = if ctx.n_vals < usize::MAX {
                ctx.n_vals + 1
            } else {
                ctx.n_vals
            };
            insts.push(Inst::Const { dst, lit: vec![48u8] });
            insts.push(Inst::DefVar { var: ctx.vars[z].1, val: dst });
            z += 1;
        }
        let body_insts = match translate_stmts(&mut ctx, &locals, host, insts, &fd.body) {
            Ok(x) => x,
            Err(e2) => {
                proof {
                    if forall|i: int|
                        0 <= i < prog.funcs@.len() ==> (#[trigger] prog.funcs@[i]).body@.len()
                            == 0 && prog.funcs@[i].rets@.len() == 0 {
                        assert(prog.funcs@[f as int].body@.len() == 0);
                        assert(false);
                    }
                }
                return Err(e2);
            },
        };
        let mut final_insts = body_insts;
        let mut ret_vals: Vec<usize> = Vec::new();
        let mut k3: usize = 0;
        let mut failed: Option<CompileError> = None;
        while k3 < fd.rets.len()
            invariant
                k3 <= fd.rets@.len(),
                n_param_vars <= ctx.vars@.len(),
                ctx.blocks@.len() >= 1,
                failed matches Some(e) ==> e is UnknownIdentifier,
                fd.rets@.len() == 0 ==> failed is None,
            decreases fd.rets@.len() - k3,
        {
            match lookup_var(&ctx, &fd.rets[k3]) {
                Some(var) => {
                    let dst = ctx.n_vals;
                    ctx.n_vals = if ctx.n_vals < usize::MAX {
                        ctx.n_vals + 1
                    } else {
                        ctx.n_vals
                    };
                    final_insts.push(Inst::UseVar { dst, var });
                    ret_vals.push(dst);
                },
                None => {
                    if failed.is_none() {
                        failed = Some(
                            CompileError::UnknownIdentifier {
                                name: crate::frontend::copy_bytes(&fd.rets[k3]),
                            },
                        );
                    }
                },
            }
            k3 += 1;
        }
        match failed {
            Some(e2) => {
                proof {
                    if forall|i: int|
                        0 <= i < prog.funcs@.len() ==> (#[trigger] prog.funcs@[i]).body@.len()
                            == 0 && prog.funcs@[i].rets@.len() == 0 {
                        assert(prog.funcs@[f as int].rets@.len() == 0);
                        assert(false);
                    }
                }
                return Err(e2);
            },
            None => {
            },
        }
        let cur_end = ctx.cur;
        seal(&mut ctx, cur_end, final_insts, Term::Ret { vals: ret_vals });
        let func = IrFunc {
            name: crate::frontend::copy_bytes(&fd.name),
            n_params: fd.params.len(),
            n_rets: fd.rets.len(),
            n_vars: ctx.vars.len(),
            n_vals: ctx.n_vals,
            blocks: ctx.blocks,
        };
        funcs.push(func);
        f += 1;
    }
    Ok(IrModule { funcs })
}

} // verus!
