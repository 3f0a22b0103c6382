//! Properties of the interpreter and the compiler.
use vstd::prelude::*;

use crate::compiler::{
    arith, body_code, compile_spec, section_code, shape, shapes, spec_get_ref, spec_set_ref, Domain, Section, StarkInfo,
};
use crate::context::{Buf, Mem};
use crate::field::{fmul, lemma_fadd_zero, lemma_fmul_zero, lift, F3G};
use crate::interpreter::{binop, index_at, load, operand, run, step, store, Addr, Expr, Index, Ops, Step};

verus! {

/// The base projection of a value: its coordinates seen as a base element.
pub open spec fn project(x: F3G) -> F3G {
    F3G { dim: 1, ..x }
}

/// Reading a reference rotated by `r` at row `i` reads the same cells as the
/// unrotated reference at row `(i + r) mod N`.
pub proof fn lemma_row_rotation(m: Mem, a: Addr, i: int)
    requires
        a.buf != Buf::Zi,
        a.idx.modulas > 0,
        0 <= i,
    ensures
        index_at(a.idx, i) == index_at(Index { next: 0, ..a.idx }, (i + a.idx.next) % (a.idx.modulas as int)),
        load(m, a, i) == load(m, Addr { idx: Index { next: 0, ..a.idx }, ..a }, (i + a.idx.next) % (a.idx.modulas as int)),
{
    let n = a.idx.modulas as int;
    let j = (i + a.idx.next) % n;
    let a0 = Addr { idx: Index { next: 0, ..a.idx }, ..a };
    vstd::arithmetic::div_mod::lemma_mod_pos_bound(i + a.idx.next, n);
    vstd::arithmetic::div_mod::lemma_small_mod(j as nat, n as nat);
    assert(index_at(a0.idx, j) == index_at(a.idx, i));
}

/// On base operands, an operation gives the base projection of the same
/// operation on the operands lifted into the extension, whose upper
/// coordinates are zero.
pub proof fn lemma_base_embedding(op: Ops, a: F3G, b: F3G)
    requires
        a.wf(),
        b.wf(),
        a.dim == 1,
        b.dim == 1,
        op is Add || op is Sub || op is Mul,
    ensures
        binop(op, a, b) == project(binop(op, lift(a), lift(b))),
        binop(op, lift(a), lift(b)).c1 == 0,
        binop(op, lift(a), lift(b)).c2 == 0,
        binop(op, lift(a), lift(b)).dim == 3,
{
    lemma_fadd_zero(0);
    lemma_fmul_zero(a.c0 as int);
    lemma_fmul_zero(b.c0 as int);
    lemma_fmul_zero(0);
    lemma_fadd_zero(fmul(a.c0 as int, b.c0 as int));
}

/// A reference reads back a value of `v`'s width stored through it: one
/// cell in `tmp`, elsewhere as many cells as the value has coordinates.
pub open spec fn reads_back(a: Addr, v: F3G) -> bool {
    (a.buf == Buf::tmp && a.dim == 1) || (a.buf != Buf::tmp && v.dim == a.dim)
}

/// A value written at a destination is read back, at the same row, through
/// a reference of the same width (in `tmp`, through a one-cell reference).
/// An extension value stored through a one-cell reference outside `tmp` has
/// zero upper coordinates, and reads back as its base projection.
pub proof fn lemma_write_read(m: Mem, a: Addr, i: int, v: F3G)
    requires
        v.dim == 1 || v.dim == 3,
        store(m, a, i, v) is Some,
    ensures
        reads_back(a, v) ==> load(store(m, a, i, v)->Some_0, a, i) == Some(v),
        a.buf != Buf::tmp && a.dim == 1 && v.dim == 3 ==> v.c1 == 0 && v.c2 == 0
            && load(store(m, a, i, v)->Some_0, a, i) == Some(project(v)),
{
}

/// Two instructions of the same shape take the same step.
proof fn lemma_step_shape(m: Mem, e1: Expr, e2: Expr, st: Seq<F3G>, i: int)
    requires
        shape(e1) == shape(e2),
    ensures
        step(m, e1, st, i) == step(m, e2, st, i),
{
    reveal(step);
    let d1 = e1.defs@.map_values(|d: Expr| d.op);
    let d2 = e2.defs@.map_values(|d: Expr| d.op);
    assert(d1 == d2);
    assert(e1.defs@.len() == d1.len());
    assert(e2.defs@.len() == d2.len());
    if e1.defs@.len() > 0 {
        assert(d1[0] == e1.defs@[0].op);
        assert(d2[0] == e2.defs@[0].op);
        assert(operand(m, e1.defs@[0], i) == operand(m, e2.defs@[0], i));
    }
    if e1.defs@.len() > 1 {
        assert(d1[1] == e1.defs@[1].op);
        assert(d2[1] == e2.defs@[1].op);
        assert(operand(m, e1.defs@[1], i) == operand(m, e2.defs@[1], i));
    }
}

/// Programs of the same shapes run alike.
pub proof fn lemma_run_shapes(m: Mem, b1: Seq<Expr>, b2: Seq<Expr>, pc: int, st: Seq<F3G>, i: int)
    requires
        shapes(b1) == shapes(b2),
    ensures
        run(m, b1, pc, st, i) == run(m, b2, pc, st, i),
    decreases b1.len() - pc,
{
    assert(b1.len() == shapes(b1).len());
    assert(b2.len() == shapes(b2).len());
    if 0 <= pc < b1.len() {
        assert(shapes(b1)[pc] == shape(b1[pc]));
        assert(shapes(b2)[pc] == shape(b2[pc]));
        lemma_step_shape(m, b1[pc], b2[pc], st, i);
        match step(m, b1[pc], st, i) {
            Step::Next(m2, st2) => lemma_run_shapes(m2, b1, b2, pc + 1, st2, i),
            _ => {},
        }
    }
}

/// Two compilations of the same inputs give programs that, run on the same
/// sections at the same row, return the same value and leave the same
/// sections.
pub proof fn lemma_compile_deterministic(
    info: StarkInfo,
    nbits: usize,
    nbits_ext: usize,
    code: Seq<Section>,
    dom: Domain,
    ret: bool,
    b1: Seq<Expr>,
    b2: Seq<Expr>,
    m: Mem,
    i: int,
)
    requires
        compile_spec(info, nbits, nbits_ext, code, dom, ret) is Ok,
        shapes(b1) == compile_spec(info, nbits, nbits_ext, code, dom, ret)->Ok_0,
        shapes(b2) == compile_spec(info, nbits, nbits_ext, code, dom, ret)->Ok_0,
    ensures
        run(m, b1, 0, seq![], i) == run(m, b2, 0, seq![], i),
{
    lemma_run_shapes(m, b1, b2, 0, seq![], i);
}

/// A compiled statement list holds no `Ret`.
proof fn lemma_body_no_ret(info: StarkInfo, code: Seq<Section>, dom: Domain, next: usize, m: usize)
    requires
        body_code(info, code, dom, next, m) is Ok,
    ensures
        forall|k: int| 0 <= k < body_code(info, code, dom, next, m)->Ok_0.len()
            ==> (#[trigger] body_code(info, code, dom, next, m)->Ok_0[k]).0 != Ops::Ret,
    decreases code.len(),
{
    if code.len() > 0 {
        lemma_body_no_ret(info, code.drop_first(), dom, next, m);
        let a = section_code(info, code[0], dom, next, m)->Ok_0;
        let b = body_code(info, code.drop_first(), dom, next, m)->Ok_0;
        assert(a[0].0 == arith(code[0].op));
        assert forall|k: int| 0 <= k < (a + b).len() implies (#[trigger] (a + b)[k]).0 != Ops::Ret by {
            if k >= a.len() {
                assert((a + b)[k] == b[k - a.len()]);
            }
        }
    }
}

/// Each statement of a compiled list compiled on its own, and its
/// destination resolves to a reference.
proof fn lemma_body_sections(info: StarkInfo, code: Seq<Section>, dom: Domain, next: usize, m: usize, k: int)
    requires
        body_code(info, code, dom, next, m) is Ok,
        0 <= k < code.len(),
    ensures
        section_code(info, code[k], dom, next, m) is Ok,
        spec_get_ref(info, code[k].dest, dom, next, m) is Ok,
        spec_get_ref(info, code[k].dest, dom, next, m)->Ok_0 is Refer,
    decreases code.len(),
{
    if k > 0 {
        lemma_body_sections(info, code.drop_first(), dom, next, m, k - 1);
        assert(code.drop_first()[k - 1] == code[k]);
    } else {
        assert(spec_set_ref(info, code[0].dest, dom, next, m) is Ok);
    }
}

/// Run from `pc` of a program whose last two instructions are `Refer(d)`
/// and `Ret`, with no `Ret` before them: the value returned is the one at
/// `d` in the final sections.
proof fn lemma_run_returns_load(m: Mem, es: Seq<Expr>, pc: int, st: Seq<F3G>, i: int, d: Addr)
    requires
        es.len() >= 2,
        0 <= pc <= es.len() - 2,
        es[es.len() - 2].op == Ops::Refer(d),
        es[es.len() - 1].op == Ops::Ret,
        forall|k: int| pc <= k < es.len() - 2 ==> (#[trigger] es[k]).op != Ops::Ret,
        run(m, es, pc, st, i) is Some,
    ensures
        load(run(m, es, pc, st, i)->Some_0.1, d, i) == Some(run(m, es, pc, st, i)->Some_0.0),
    decreases es.len() - pc,
{
    reveal(step);
    if pc < es.len() - 2 {
        assert(es[pc].op != Ops::Ret);
        match step(m, es[pc], st, i) {
            Step::Next(m2, st2) => lemma_run_returns_load(m2, es, pc + 1, st2, i, d),
            _ => {},
        }
    } else {
        let x = load(m, d, i)->Some_0;
        assert(run(m, es, pc + 1, st.push(x), i) == Some((x, m)));
    }
}

/// Sections and stack just before instruction `stop`, running from `pc`;
/// `None` where a fault or a return comes first.
pub open spec fn run_until(m: Mem, es: Seq<Expr>, pc: int, st: Seq<F3G>, i: int, stop: int) -> Option<(Mem, Seq<F3G>)>
    decreases stop - pc,
{
    if pc >= stop || pc < 0 || pc >= es.len() {
        Some((m, st))
    } else {
        match step(m, es[pc], st, i) {
            Step::Next(m2, st2) => run_until(m2, es, pc + 1, st2, i, stop),
            _ => None,
        }
    }
}

/// A run that does not stop before `stop` passes through the state that
/// `run_until` gives there.
proof fn lemma_run_split(m: Mem, es: Seq<Expr>, pc: int, st: Seq<F3G>, i: int, stop: int)
    requires
        0 <= pc <= stop <= es.len(),
        forall|k: int| pc <= k < stop ==> (#[trigger] es[k]).op != Ops::Ret,
        run(m, es, pc, st, i) is Some,
    ensures
        run_until(m, es, pc, st, i, stop) is Some,
        run(m, es, pc, st, i) == run(
            run_until(m, es, pc, st, i, stop)->Some_0.0,
            es,
            stop,
            run_until(m, es, pc, st, i, stop)->Some_0.1,
            i,
        ),
    decreases stop - pc,
{
    reveal(step);
    if pc < stop {
        assert(es[pc].op != Ops::Ret);
        match step(m, es[pc], st, i) {
            Step::Next(m2, st2) => lemma_run_split(m2, es, pc + 1, st2, i, stop),
            _ => {},
        }
    }
}

/// A compiled statement list has two instructions per statement, the second
/// the `Write` to the statement's destination.
proof fn lemma_body_layout(info: StarkInfo, code: Seq<Section>, dom: Domain, next: usize, m: usize, k: int)
    requires
        body_code(info, code, dom, next, m) is Ok,
        0 <= k < code.len(),
    ensures
        body_code(info, code, dom, next, m)->Ok_0.len() == 2 * code.len(),
        spec_set_ref(info, code[k].dest, dom, next, m) is Ok,
        body_code(info, code, dom, next, m)->Ok_0[2 * k + 1]
            == (Ops::Write, seq![spec_set_ref(info, code[k].dest, dom, next, m)->Ok_0]),
    decreases code.len(),
{
    let a = section_code(info, code[0], dom, next, m)->Ok_0;
    let rest = code.drop_first();
    if rest.len() > 0 {
        lemma_body_layout(info, rest, dom, next, m, if k > 0 { k - 1 } else { 0 });
    } else {
        assert(rest.len() == 0);
        assert(body_code(info, rest, dom, next, m)->Ok_0 =~= seq![]);
    }
    assert(a.len() == 2);
    if k > 0 {
        assert(rest[k - 1] == code[k]);
    }
}

/// With `ret`, a compiled program returns the value that the last
/// statement wrote, read back at its destination once the program has run.
/// That value is the top of the stack when the last statement's `Write`
/// runs; where the destination reads back a value of its width, the two are
/// equal.
pub proof fn lemma_return_contract(
    info: StarkInfo,
    nbits: usize,
    nbits_ext: usize,
    code: Seq<Section>,
    dom: Domain,
    b: Seq<Expr>,
    m: Mem,
    i: int,
)
    requires
        compile_spec(info, nbits, nbits_ext, code, dom, true) is Ok,
        shapes(b) == compile_spec(info, nbits, nbits_ext, code, dom, true)->Ok_0,
        run(m, b, 0, seq![], i) is Some,
    ensures
        code.len() > 0,
        b.len() == 2 * code.len() + 2,
        b[b.len() - 3].op == Ops::Write,
        ({
            let next = crate::compiler::rotation(nbits, nbits_ext, dom) as usize;
            let n = crate::compiler::domain_size(nbits, nbits_ext, dom) as usize;
            let dest = spec_get_ref(info, code.last().dest, dom, next, n)->Ok_0;
            let (r, m2) = run(m, b, 0, seq![], i)->Some_0;
            let before = run_until(m, b, 0, seq![], i, b.len() - 3);
            &&& dest is Refer
            &&& b[b.len() - 3].defs@.len() == 1
            &&& b[b.len() - 3].defs@[0].op == dest
            &&& load(m2, dest->Refer_0, i) == Some(r)
            &&& before is Some
            &&& before->Some_0.1.len() > 0
            &&& (reads_back(dest->Refer_0, before->Some_0.1.last()) ==> r == before->Some_0.1.last())
        }),
{
    let next = crate::compiler::rotation(nbits, nbits_ext, dom) as usize;
    let n = crate::compiler::domain_size(nbits, nbits_ext, dom) as usize;
    let body = body_code(info, code, dom, next, n)->Ok_0;
    lemma_body_no_ret(info, code, dom, next, n);
    let c = code.len() as int;
    lemma_body_sections(info, code, dom, next, n, c - 1);
    lemma_body_layout(info, code, dom, next, n, c - 1);
    assert(code.last() == code[c - 1]);
    let dest = spec_get_ref(info, code.last().dest, dom, next, n)->Ok_0;
    assert(spec_set_ref(info, code[c - 1].dest, dom, next, n)->Ok_0 == dest);
    let prog = body + seq![(dest, seq![]), (Ops::Ret, seq![])];
    assert(b.len() == prog.len());
    let w = b.len() - 3;
    assert(w == 2 * (c - 1) + 1);
    assert(shapes(b)[w] == shape(b[w]));
    assert(shapes(b)[b.len() - 2] == shape(b[b.len() - 2]));
    assert(shapes(b)[b.len() - 1] == shape(b[b.len() - 1]));
    assert(prog[w] == body[w]);
    assert(prog[b.len() - 2].0 == dest);
    assert(prog[b.len() - 1].0 == Ops::Ret);
    let dm = b[w].defs@.map_values(|d: Expr| d.op);
    assert(dm == seq![dest]);
    assert(dm.len() == b[w].defs@.len());
    assert(dm[0] == b[w].defs@[0].op);
    assert forall|k: int| 0 <= k < b.len() - 2 implies (#[trigger] b[k]).op != Ops::Ret by {
        assert(shapes(b)[k] == shape(b[k]));
        assert(prog[k] == body[k]);
    }
    let d = dest->Refer_0;
    lemma_run_returns_load(m, b, 0, seq![], i, d);
    lemma_run_split(m, b, 0, seq![], i, w);
    let (m1, st1) = run_until(m, b, 0, seq![], i, w)->Some_0;
    reveal(step);
    let v = st1.last();
    let m2 = store(m1, d, i, v)->Some_0;
    assert(run(m1, b, w, st1, i) == run(m2, b, w + 1, st1.drop_last(), i));
    let x = load(m2, d, i)->Some_0;
    assert(run(m2, b, w + 1, st1.drop_last(), i) == run(m2, b, w + 2, st1.drop_last().push(x), i));
    assert(run(m2, b, w + 2, st1.drop_last().push(x), i) == Some((x, m2)));
    if v.dim == 1 || v.dim == 3 {
        lemma_write_read(m1, d, i, v);
    }
}

} // verus!
