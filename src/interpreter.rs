//! Flat expression programs and the stack machine that runs them at one row.
use vstd::prelude::*;

use crate::context::{mem_wf, writable, Buf, Mem, StarkContext};
use crate::field::{base_cell, spec_add, spec_base, spec_mul, spec_sub, F3G};

verus! {

/// The address descriptor `offset + ((i + next) mod modulas) * size`.
#[derive(Clone, Copy, Debug, PartialEq, Eq, Structural)]
pub struct Index {
    pub offset: usize,
    pub next: usize,
    pub modulas: usize,
    pub size: usize,
}

/// A reference to a value in a section: `dim == 3` reads three consecutive cells.
#[derive(Clone, Copy, Debug, PartialEq, Eq, Structural)]
pub struct Addr {
    pub buf: Buf,
    pub idx: Index,
    pub dim: usize,
}

#[derive(Clone, Copy, Debug, PartialEq, Eq, Structural)]
pub enum Ops {
    /// Push an immediate value.
    Vari(F3G),
    /// Push the sum of the two operands in `defs`.
    Add,
    /// Push the difference of the two operands in `defs`.
    Sub,
    /// Push the product of the two operands in `defs`.
    Mul,
    /// Push the single operand in `defs`.
    Copy_,
    /// Pop a value and store it at the reference held in `defs[0]`.
    Write,
    /// Push the value at an address.
    Refer(Addr),
    /// Pop a value and return it.
    Ret,
}

/// One instruction; the operands of an arithmetic instruction and the target
/// of a `Write` are themselves `Vari` or `Refer` expressions held in `defs`.
#[derive(Debug)]
pub struct Expr {
    pub op: Ops,
    pub defs: Vec<Expr>,
}

impl Expr {
    pub fn new(op: Ops, defs: Vec<Expr>) -> (r: Expr)
        ensures
            r.op == op,
            r.defs@ == defs@,
    {
        Expr { op, defs }
    }

    /// An immediate value.
    pub fn from_value(v: F3G) -> (r: Expr)
        ensures
            r.op == Ops::Vari(v),
            r.defs@.len() == 0,
    {
        Expr { op: Ops::Vari(v), defs: Vec::new() }
    }

    /// An immediate value held here is well formed.
    pub open spec fn value_ok(&self) -> bool {
        match self.op {
            Ops::Vari(v) => v.wf(),
            _ => true,
        }
    }

    /// Every immediate value in the instruction is well formed.
    pub open spec fn wf(&self) -> bool {
        &&& self.value_ok()
        &&& forall|k: int| 0 <= k < self.defs@.len() ==> (#[trigger] self.defs@[k]).value_ok()
    }
}

/// A compiled program.
#[derive(Debug)]
pub struct Block {
    pub namespace: String,
    pub exprs: Vec<Expr>,
}

/// Cell index addressed by `idx` at row `i`.
pub open spec fn index_at(idx: Index, i: int) -> int {
    idx.offset + ((i + idx.next) % (idx.modulas as int)) * idx.size
}

/// The descriptor names a cell index that a machine integer holds.
pub open spec fn index_ok(idx: Index, i: int) -> bool {
    &&& idx.modulas > 0
    &&& 0 <= i
    &&& index_at(idx, i) <= usize::MAX
}

/// Builds the descriptor `offset + ((i + next) mod modulas) * size`.
pub fn get_index(offset: usize, next: usize, modulas: usize, size: usize) -> (r: Index)
    ensures
        r == (Index { offset, next, modulas, size }),
{
    Index { offset, next, modulas, size }
}

/// Evaluates a descriptor at row `arg_i`.
pub fn get_i(idx: &Index, arg_i: usize) -> (r: usize)
    requires
        index_ok(*idx, arg_i as int),
    ensures
        r == index_at(*idx, arg_i as int),
{
    let m = idx.modulas;
    let a = arg_i % m;
    let b = idx.next % m;
    let row = if a >= m - b {
        a - (m - b)
    } else {
        a + b
    };
    proof {
        vstd::arithmetic::div_mod::lemma_add_mod_noop(arg_i as int, idx.next as int, m as int);
        if a >= m - b {
            vstd::arithmetic::div_mod::lemma_mod_add_multiples_vanish(row as int, m as int);
        }
        vstd::arithmetic::div_mod::lemma_small_mod(row as nat, m as nat);
        assert(row == (arg_i + idx.next) % (m as int));
        assert(row * idx.size <= index_at(*idx, arg_i as int) - idx.offset);
    }
    idx.offset + row * idx.size
}

/// The value at `a` at row `i`, or `None` where it lies outside its section.
pub open spec fn load(m: Mem, a: Addr, i: int) -> Option<F3G> {
    let cells = m[a.buf];
    if a.buf == Buf::Zi {
        if 0 <= i < cells.len() {
            Some(cells[i])
        } else {
            None
        }
    } else if !index_ok(a.idx, i) {
        None
    } else {
        let id = index_at(a.idx, i);
        if a.dim == 1 && id < cells.len() {
            Some(cells[id])
        } else if a.dim == 3 && id + 2 < cells.len() {
            Some(F3G { c0: cells[id].c0, c1: cells[id + 1].c0, c2: cells[id + 2].c0, dim: 3 })
        } else {
            None
        }
    }
}

/// An extension value with a nonzero upper coordinate cannot go to a
/// one-cell destination outside `tmp`: it would be read back truncated.
pub open spec fn truncates(a: Addr, v: F3G) -> bool {
    a.buf != Buf::tmp && a.dim == 1 && v.dim == 3 && (v.c1 != 0 || v.c2 != 0)
}

/// The sections after storing `v` at `a` at row `i`, or `None` where the
/// store does not fit or would truncate `v`. A base value, and any value
/// stored in `tmp`, takes one cell; an extension value takes three, one
/// coordinate each.
pub open spec fn store(m: Mem, a: Addr, i: int, v: F3G) -> Option<Mem> {
    let cells = m[a.buf];
    if !writable(a.buf) || !index_ok(a.idx, i) || truncates(a, v) {
        None
    } else {
        let id = index_at(a.idx, i);
        if v.dim == 1 || a.buf == Buf::tmp {
            if id < cells.len() {
                Some(m.insert(a.buf, cells.update(id, v)))
            } else {
                None
            }
        } else if id + 2 < cells.len() {
            Some(
                m.insert(
                    a.buf,
                    cells.update(id, base_cell(v.c0)).update(id + 1, base_cell(v.c1)).update(
                        id + 2,
                        base_cell(v.c2),
                    ),
                ),
            )
        } else {
            None
        }
    }
}

/// The value of an operand expression.
pub open spec fn operand(m: Mem, e: Expr, i: int) -> Option<F3G> {
    match e.op {
        Ops::Vari(v) => Some(v),
        Ops::Refer(a) => load(m, a, i),
        _ => None,
    }
}

/// The result of one instruction.
pub enum Step {
    Fault,
    Return(F3G),
    Next(Mem, Seq<F3G>),
}

pub open spec fn binop(op: Ops, x: F3G, y: F3G) -> F3G {
    match op {
        Ops::Add => spec_add(x, y),
        Ops::Sub => spec_sub(x, y),
        _ => spec_mul(x, y),
    }
}

/// One instruction on sections `m` and stack `st` at row `i`.
#[verifier::opaque]
pub open spec fn step(m: Mem, e: Expr, st: Seq<F3G>, i: int) -> Step {
    match e.op {
        Ops::Ret => if st.len() > 0 {
            Step::Return(st.last())
        } else {
            Step::Fault
        },
        Ops::Vari(v) => Step::Next(m, st.push(v)),
        Ops::Add | Ops::Sub | Ops::Mul => if e.defs@.len() < 2 {
            Step::Fault
        } else {
            match (operand(m, e.defs@[0], i), operand(m, e.defs@[1], i)) {
                (Some(x), Some(y)) => Step::Next(m, st.push(binop(e.op, x, y))),
                _ => Step::Fault,
            }
        },
        Ops::Copy_ => if e.defs@.len() < 1 {
            Step::Fault
        } else {
            match operand(m, e.defs@[0], i) {
                Some(x) => Step::Next(m, st.push(x)),
                None => Step::Fault,
            }
        },
        Ops::Write => if e.defs@.len() < 1 || st.len() == 0 {
            Step::Fault
        } else {
            match e.defs@[0].op {
                Ops::Refer(a) => match store(m, a, i, st.last()) {
                    Some(m2) => Step::Next(m2, st.drop_last()),
                    None => Step::Fault,
                },
                _ => Step::Fault,
            }
        },
        Ops::Refer(a) => match load(m, a, i) {
            Some(x) => Step::Next(m, st.push(x)),
            None => Step::Fault,
        },
    }
}

/// Runs `es` from instruction `pc`: the returned value and the final sections,
/// or `None` on a fault. A program that ends without `Ret` returns zero.
pub open spec fn run(m: Mem, es: Seq<Expr>, pc: int, st: Seq<F3G>, i: int) -> Option<(F3G, Mem)>
    decreases es.len() - pc,
{
    if pc < 0 || pc >= es.len() {
        Some((spec_base(0), m))
    } else {
        match step(m, es[pc], st, i) {
            Step::Fault => None,
            Step::Return(v) => Some((v, m)),
            Step::Next(m2, st2) => run(m2, es, pc + 1, st2, i),
        }
    }
}

/// Loads the value that the `Refer` expression `expr` addresses at row `arg_i`.
/// The vanishing inverse is read at the row itself.
pub fn get_value(ctx: &StarkContext, expr: &Expr, arg_i: usize) -> (r: F3G)
    requires
        ctx.wf(),
        expr.op is Refer,
        load(ctx@, expr.op->Refer_0, arg_i as int) is Some,
    ensures
        load(ctx@, expr.op->Refer_0, arg_i as int) == Some(r),
        r.wf(),
{
    let a = match expr.op {
        Ops::Refer(a) => a,
        _ => {
            proof {
                assert(false);
            }
            return F3G::zero();
        },
    };
    let cells = ctx.section(a.buf);
    proof {
        assert(ctx@[a.buf] == cells@);
    }
    if a.buf == Buf::Zi {
        return cells[arg_i];
    }
    let id = get_i(&a.idx, arg_i);
    if a.dim == 1 {
        cells[id]
    } else {
        proof {
            assert(id + 2 < cells.len());
        }
        F3G { c0: cells[id].to_be(), c1: cells[id + 1].to_be(), c2: cells[id + 2].to_be(), dim: 3 }
    }
}

/// The value of an operand: an immediate value, or a load.
fn operand_value(ctx: &StarkContext, e: &Expr, arg_i: usize) -> (r: F3G)
    requires
        ctx.wf(),
        e.value_ok(),
        operand(ctx@, *e, arg_i as int) is Some,
    ensures
        operand(ctx@, *e, arg_i as int) == Some(r),
        r.wf(),
{
    match e.op {
        Ops::Vari(x) => x,
        _ => get_value(ctx, e, arg_i),
    }
}

/// Stores `val` at `a` at row `arg_i`.
fn set_value(ctx: &mut StarkContext, a: &Addr, arg_i: usize, val: F3G)
    requires
        old(ctx).wf(),
        val.wf(),
        store(old(ctx)@, *a, arg_i as int, val) is Some,
    ensures
        store(old(ctx)@, *a, arg_i as int, val) == Some(final(ctx)@),
        final(ctx).wf(),
        final(ctx).nbits == old(ctx).nbits,
        final(ctx).nbits_ext == old(ctx).nbits_ext,
{
    let id = get_i(&a.idx, arg_i);
    proof {
        assert(ctx@[a.buf] == ctx.cells(a.buf));
    }
    if val.dim == 1 || a.buf == Buf::tmp {
        ctx.set_cell(a.buf, id, val);
    } else {
        let len = ctx.section(a.buf).len();
        proof {
            assert(id + 2 < len);
        }
        let vals = val.as_elements();
        ctx.set_cell(a.buf, id, vals[0]);
        proof {
            assert(ctx@[a.buf] == ctx.cells(a.buf));
        }
        ctx.set_cell(a.buf, id + 1, vals[1]);
        proof {
            assert(ctx@[a.buf] == ctx.cells(a.buf));
        }
        ctx.set_cell(a.buf, id + 2, vals[2]);
    }
    proof {
        let m = ctx@;
        assert(m =~= store(old(ctx)@, *a, arg_i as int, val)->Some_0);
        assert forall|b: Buf, k: int| 0 <= k < m[b].len() implies (#[trigger] m[b][k]).wf() by {
            if b != a.buf {
                assert(m[b] == old(ctx)@[b]);
            }
        }
    }
}

/// Executes one instruction: `Some` with the value that `Ret` pops, else
/// `None` with the instruction's effect on `ctx` and `stack`.
fn exec_step(ctx: &mut StarkContext, expr: &Expr, stack: &mut Vec<F3G>, arg_i: usize) -> (r: Option<F3G>)
    requires
        old(ctx).wf(),
        expr.wf(),
        forall|k: int| 0 <= k < old(stack)@.len() ==> (#[trigger] old(stack)@[k]).wf(),
        !(step(old(ctx)@, *expr, old(stack)@, arg_i as int) is Fault),
    ensures
        match step(old(ctx)@, *expr, old(stack)@, arg_i as int) {
            Step::Return(v) => r == Some(v) && r->Some_0.wf() && final(ctx)@ == old(ctx)@,
            Step::Next(m, st) => r is None && final(ctx)@ == m && final(stack)@ == st,
            Step::Fault => false,
        },
        final(ctx).wf(),
        forall|k: int| 0 <= k < final(stack)@.len() ==> (#[trigger] final(stack)@[k]).wf(),
        final(ctx).nbits == old(ctx).nbits,
        final(ctx).nbits_ext == old(ctx).nbits_ext,
{
    proof {
        reveal(step);
    }
    match expr.op {
        Ops::Ret => {
            let v = stack.pop().unwrap();
            Some(v)
        },
        Ops::Vari(x) => {
            stack.push(x);
            None
        },
        Ops::Add | Ops::Sub | Ops::Mul => {
            proof {
                assert(expr.defs@[0].value_ok());
                assert(expr.defs@[1].value_ok());
            }
            let lhs = operand_value(ctx, &expr.defs[0], arg_i);
            let rhs = operand_value(ctx, &expr.defs[1], arg_i);
            let v = match expr.op {
                Ops::Add => lhs.add(rhs),
                Ops::Sub => lhs.sub(rhs),
                _ => lhs.mul(rhs),
            };
            stack.push(v);
            None
        },
        Ops::Copy_ => {
            proof {
                assert(expr.defs@[0].value_ok());
            }
            let x = operand_value(ctx, &expr.defs[0], arg_i);
            stack.push(x);
            None
        },
        Ops::Write => {
            let dest = match expr.defs[0].op {
                Ops::Refer(a) => a,
                _ => {
                    proof {
                        assert(false);
                    }
                    return None;
                },
            };
            let val = stack.pop().unwrap();
            set_value(ctx, &dest, arg_i, val);
            None
        },
        Ops::Refer(_) => {
            let x = get_value(ctx, expr, arg_i);
            stack.push(x);
            None
        },
    }
}

impl Block {
    /// Every instruction is well formed.
    pub open spec fn wf(&self) -> bool {
        forall|k: int| 0 <= k < self.exprs@.len() ==> (#[trigger] self.exprs@[k]).wf()
    }

    /// Runs the program at row `arg_i`: returns the value popped by `Ret`, or
    /// zero where the program ends without one, and leaves in `ctx` what its
    /// `Write` instructions stored.
    pub fn eval(&self, ctx: &mut StarkContext, arg_i: usize) -> (r: F3G)
        requires
            self.wf(),
            old(ctx).wf(),
            run(old(ctx)@, self.exprs@, 0, seq![], arg_i as int) is Some,
        ensures
            run(old(ctx)@, self.exprs@, 0, seq![], arg_i as int) == Some((r, final(ctx)@)),
            final(ctx).wf(),
            final(ctx).nbits == old(ctx).nbits,
            final(ctx).nbits_ext == old(ctx).nbits_ext,
    {
        let ghost i = arg_i as int;
        let ghost total = run(ctx@, self.exprs@, 0, seq![], i);
        let mut val_stack: Vec<F3G> = Vec::new();
        let length = self.exprs.len();
        let mut pc: usize = 0;
        while pc < length
            invariant
                self.wf(),
                ctx.wf(),
                length == self.exprs@.len(),
                pc <= length,
                i == arg_i as int,
                total == run(old(ctx)@, self.exprs@, 0, seq![], i),
                total is Some,
                run(ctx@, self.exprs@, pc as int, val_stack@, i) == total,
                forall|k: int| 0 <= k < val_stack@.len() ==> (#[trigger] val_stack@[k]).wf(),
                ctx.nbits == old(ctx).nbits,
                ctx.nbits_ext == old(ctx).nbits_ext,
            decreases length - pc,
        {
            let expr = &self.exprs[pc];
            proof {
                assert(expr.wf());
                assert(*expr == self.exprs@[pc as int]);
                assert(run(ctx@, self.exprs@, pc as int, val_stack@, i) == match step(ctx@, *expr, val_stack@, i) {
                    Step::Fault => None,
                    Step::Return(v) => Some((v, ctx@)),
                    Step::Next(m2, st2) => run(m2, self.exprs@, pc + 1, st2, i),
                });
                assert(!(step(ctx@, *expr, val_stack@, i) is Fault));
            }
            pc += 1;
            let out = exec_step(ctx, expr, &mut val_stack, arg_i);
            if let Some(v) = out {
                return v;
            }
        }
        F3G::zero()
    }
}

} // verus!
