use starky::compiler::{compile_code, CompileError, Domain, Kind, Node, Op, PolInfo, Section, StarkInfo};
use starky::context::{Buf, StarkContext};
use starky::field::{F3G, P};
use starky::interpreter::{get_i, get_index, Addr, Block, Expr, Ops};

fn node(kind: Kind, id: usize, prime: bool) -> Node {
    Node { type_: kind, id, prime, value: None }
}

fn number(text: &str) -> Node {
    Node { type_: Kind::Number, id: 0, prime: false, value: Some(text.to_string()) }
}

fn tmp(id: usize) -> Node {
    node(Kind::Tmp, id, false)
}

fn section(op: Op, src: Vec<Node>, dest: Node) -> Section {
    Section { op, src, dest }
}

fn info() -> StarkInfo {
    StarkInfo {
        n_constants: 0,
        q_dim: 3,
        cm_n: vec![],
        cm_2ns: vec![],
        tmpexp_n: vec![],
        var_pol_map: vec![],
        map_sections_n: vec![],
    }
}

fn base(v: u64) -> F3G {
    F3G::from_u64(v)
}

fn zeros(n: usize) -> Vec<F3G> {
    vec![F3G::zero(); n]
}

fn compile(ctx: &StarkContext, si: &StarkInfo, code: Vec<Section>, dom: Domain, ret: bool) -> Block {
    compile_code(ctx, si, &code, dom, ret).expect("compiles")
}

fn compile_err(ctx: &StarkContext, si: &StarkInfo, code: Vec<Section>, dom: Domain, ret: bool) -> CompileError {
    match compile_code(ctx, si, &code, dom, ret) {
        Ok(_) => panic!("expected a compile error"),
        Err(e) => e,
    }
}

#[test]
fn add_base_base() {
    let mut ctx = StarkContext::new(3, 4);
    ctx.tmp = zeros(1);
    let code = vec![section(Op::Add, vec![number("3"), number("5")], tmp(0))];
    let block = compile(&ctx, &info(), code, Domain::Base, true);
    for i in 0..8 {
        assert_eq!(block.eval(&mut ctx, i), base(8));
        assert_eq!(ctx.tmp[0], base(8));
    }
}

#[test]
fn rotation_reads_next_row() {
    let mut ctx = StarkContext::new(2, 3);
    ctx.tmp = zeros(1);
    ctx.cm1_n = (0..4).map(base).collect();
    let mut si = info();
    si.cm_n = vec![0];
    si.var_pol_map = vec![PolInfo { section: Buf::cm1_n, section_pos: 0, dim: 1 }];
    si.map_sections_n = vec![(Buf::cm1_n, 1)];
    let code = vec![section(Op::Copy, vec![node(Kind::Cm, 0, true)], tmp(0))];
    let block = compile(&ctx, &si, code, Domain::Base, true);
    match block.exprs[0].defs[0].op {
        Ops::Refer(a) => assert_eq!(a, Addr { buf: Buf::cm1_n, idx: get_index(0, 1, 4, 1), dim: 1 }),
        _ => panic!("expected a reference"),
    }
    assert_eq!(block.eval(&mut ctx, 2), base(3));
    assert_eq!(block.eval(&mut ctx, 3), base(0));
}

#[test]
fn extension_times_scalar() {
    let mut ctx = StarkContext::new(1, 2);
    ctx.tmp = zeros(1);
    ctx.challenge = vec![F3G::new(1, 2, 3)];
    let code = vec![section(Op::Mul, vec![node(Kind::Challenge, 0, false), number("2")], tmp(0))];
    let block = compile(&ctx, &info(), code, Domain::Base, true);
    assert_eq!(block.eval(&mut ctx, 0), F3G::new(2, 4, 6));
    assert_eq!(ctx.tmp[0], F3G::new(2, 4, 6));
}

#[test]
fn constant_wraps_modulo_rows() {
    let mut ctx = StarkContext::new(4, 5);
    ctx.tmp = zeros(1);
    ctx.const_n = (0..64).map(|k| base(100 + k)).collect();
    let mut si = info();
    si.n_constants = 4;
    let code = vec![section(Op::Copy, vec![node(Kind::Const, 0, true)], tmp(0))];
    let block = compile(&ctx, &si, code, Domain::Base, true);
    let addr = match block.exprs[0].defs[0].op {
        Ops::Refer(a) => a,
        _ => panic!("expected a reference"),
    };
    assert_eq!(get_i(&addr.idx, 15), 0);
    assert_eq!(block.eval(&mut ctx, 15), base(100));
    assert_eq!(block.eval(&mut ctx, 2), base(112));
}

#[test]
fn vanishing_inverse_by_row() {
    let mut ctx = StarkContext::new(3, 4);
    ctx.tmp = zeros(1);
    ctx.zi = (1..9).map(base).collect();
    let code = vec![section(Op::Copy, vec![node(Kind::Zi, 0, false)], tmp(0))];
    let block = compile(&ctx, &info(), code, Domain::Base, true);
    assert_eq!(block.eval(&mut ctx, 5), base(6));
}

#[test]
fn eval_map_reads_three_cells() {
    let mut ctx = StarkContext::new(3, 5);
    ctx.tmp = zeros(1);
    ctx.cm3_2ns = (0..32 * 12).map(|k| base(k as u64)).collect();
    let mut si = info();
    si.cm_2ns = vec![0, 1];
    si.var_pol_map = vec![
        PolInfo { section: Buf::cm1_2ns, section_pos: 0, dim: 1 },
        PolInfo { section: Buf::cm3_2ns, section_pos: 7, dim: 3 },
    ];
    si.map_sections_n = vec![(Buf::cm1_2ns, 1), (Buf::cm3_2ns, 12)];
    let code = vec![section(Op::Copy, vec![node(Kind::Cm, 1, false)], tmp(0))];
    let block = compile(&ctx, &si, code, Domain::Extended, true);
    assert_eq!(block.eval(&mut ctx, 10), F3G::new(127, 128, 129));
    let code = vec![section(Op::Copy, vec![node(Kind::Cm, 1, true)], tmp(0))];
    let block = compile(&ctx, &si, code, Domain::Extended, true);
    assert_eq!(block.eval(&mut ctx, 10), F3G::new(175, 176, 177));
}

#[test]
fn rotated_read_equals_read_at_later_row() {
    let mut ctx = StarkContext::new(3, 4);
    ctx.tmp = zeros(1);
    ctx.const_n = (0..16).map(|k| base(k * 7 + 1)).collect();
    let mut si = info();
    si.n_constants = 2;
    let rotated = compile(&ctx, &si, vec![section(Op::Copy, vec![node(Kind::Const, 1, true)], tmp(0))], Domain::Base, true);
    let plain = compile(&ctx, &si, vec![section(Op::Copy, vec![node(Kind::Const, 1, false)], tmp(0))], Domain::Base, true);
    for i in 0..8 {
        assert_eq!(rotated.eval(&mut ctx, i), plain.eval(&mut ctx, (i + 1) % 8));
    }
}

#[test]
fn base_operations_match_lifted_ones() {
    let a = base(P - 3);
    let b = base(10);
    let la = F3G { dim: 3, ..a };
    let lb = F3G { dim: 3, ..b };
    for (x, y) in [(a.add(b), la.add(lb)), (a.sub(b), la.sub(lb)), (a.mul(b), la.mul(lb))] {
        assert_eq!(x.dim, 1);
        assert_eq!(y.dim, 3);
        assert_eq!((x.c0, x.c1, x.c2), (y.c0, y.c1, y.c2));
    }
    assert_eq!(a.add(b), base(7));
    assert_eq!(b.sub(a), base(13));
    assert_eq!(a.mul(b), base(P - 30));
}

#[test]
fn extension_product_reduces_cube() {
    let x = F3G::new(0, 1, 0);
    let x2 = F3G::new(0, 0, 1);
    assert_eq!(x.mul(x), x2);
    assert_eq!(x.mul(x2), F3G::new(1, 1, 0));
    assert_eq!(x2.mul(x2), F3G::new(0, 1, 1));
    assert_eq!(F3G::new(1, 2, 3).mul(F3G::new(4, 5, 6)), F3G::new(4 + 12 + 15, 5 + 8 + 12 + 15 + 18, 6 + 10 + 12 + 18));
}

#[test]
fn field_arithmetic_wraps() {
    assert_eq!(base(P - 1).add(base(2)), base(1));
    assert_eq!(base(0).sub(base(1)), base(P - 1));
    assert_eq!(base(P - 1).mul(base(P - 1)), base(1));
    assert_eq!(base(P + 5), base(5));
}

#[test]
fn write_then_read_same_cell() {
    let mut ctx = StarkContext::new(2, 3);
    ctx.tmp = zeros(1);
    ctx.challenge = vec![F3G::new(9, 8, 7)];
    ctx.f_2ns = zeros(6);
    let code = vec![
        section(Op::Copy, vec![node(Kind::Challenge, 0, false)], node(Kind::F, 1, false)),
        section(Op::Copy, vec![node(Kind::F, 1, false)], tmp(0)),
    ];
    let block = compile(&ctx, &info(), code, Domain::Extended, true);
    assert_eq!(block.eval(&mut ctx, 3), F3G::new(9, 8, 7));
    assert_eq!(&ctx.f_2ns[1..4], &[base(9), base(8), base(7)]);
    assert_eq!(ctx.tmp[0], F3G::new(9, 8, 7));
}

#[test]
fn compilation_is_deterministic() {
    let mut si = info();
    si.n_constants = 1;
    let code = || {
        vec![
            section(Op::Sub, vec![node(Kind::Const, 0, true), number("4")], tmp(0)),
            section(Op::Mul, vec![tmp(0), node(Kind::Public, 1, false)], tmp(1)),
        ]
    };
    let mk = || {
        let mut ctx = StarkContext::new(2, 3);
        ctx.tmp = zeros(2);
        ctx.const_n = (0..4).map(|k| base(k + 10)).collect();
        ctx.publics = vec![base(5), base(3)];
        ctx
    };
    let (mut c1, mut c2) = (mk(), mk());
    let b1 = compile(&c1, &si, code(), Domain::Base, true);
    let b2 = compile(&c2, &si, code(), Domain::Base, true);
    assert_eq!(b1.exprs.len(), b2.exprs.len());
    for i in 0..4 {
        assert_eq!(b1.eval(&mut c1, i), b2.eval(&mut c2, i));
        assert_eq!(c1.tmp, c2.tmp);
    }
    assert_eq!(b1.eval(&mut c1, 0), base((11 - 4) * 3));
}

#[test]
fn returns_last_written_value() {
    let mut ctx = StarkContext::new(2, 3);
    ctx.tmp = zeros(3);
    let code = vec![
        section(Op::Add, vec![number("1"), number("2")], tmp(2)),
        section(Op::Mul, vec![tmp(2), number("5")], tmp(1)),
    ];
    let block = compile(&ctx, &info(), code, Domain::Base, true);
    assert_eq!(block.exprs.len(), 6);
    assert!(matches!(block.exprs[5].op, Ops::Ret));
    assert_eq!(block.eval(&mut ctx, 1), base(15));
    assert_eq!(ctx.tmp[1], base(15));
    assert_eq!(ctx.tmp[2], base(3));
}

#[test]
fn without_ret_returns_zero() {
    let mut ctx = StarkContext::new(2, 3);
    ctx.tmp = zeros(1);
    let code = vec![section(Op::Copy, vec![number("9")], tmp(0))];
    let block = compile(&ctx, &info(), code, Domain::Base, false);
    assert_eq!(block.exprs.len(), 2);
    assert_eq!(block.eval(&mut ctx, 0), F3G::zero());
    assert_eq!(ctx.tmp[0], base(9));
}

#[test]
fn numbers_parse_as_decimal() {
    let mut ctx = StarkContext::new(1, 2);
    ctx.tmp = zeros(1);
    let block = compile(&ctx, &info(), vec![section(Op::Copy, vec![number("+42")], tmp(0))], Domain::Base, true);
    assert_eq!(block.eval(&mut ctx, 0), base(42));
    let block = compile(&ctx, &info(), vec![section(Op::Copy, vec![number("18446744073709551615")], tmp(0))], Domain::Base, true);
    assert_eq!(block.eval(&mut ctx, 0), base(u64::MAX - P));
}

#[test]
fn extended_domain_rotation() {
    let mut ctx = StarkContext::new(2, 4);
    ctx.tmp = zeros(1);
    ctx.const_2ns = (0..16).map(base).collect();
    let mut si = info();
    si.n_constants = 1;
    let code = vec![section(Op::Copy, vec![node(Kind::Const, 0, true)], tmp(0))];
    let block = compile(&ctx, &si, code, Domain::Extended, true);
    assert_eq!(block.eval(&mut ctx, 3), base(7));
    assert_eq!(block.eval(&mut ctx, 14), base(2));
}

#[test]
fn quotient_reference_layout() {
    let ctx = StarkContext::new(2, 3);
    let mut si = info();
    si.q_dim = 1;
    let code = vec![section(Op::Copy, vec![number("1")], node(Kind::Q, 2, false))];
    let block = compile(&ctx, &si, code, Domain::Extended, false);
    match block.exprs[1].defs[0].op {
        Ops::Refer(Addr { buf, idx, dim }) => {
            assert_eq!(buf, Buf::q_2ns);
            assert_eq!(idx, get_index(2, 0, 8, 0));
            assert_eq!(dim, 1);
        }
        _ => panic!("expected a reference"),
    }
}

#[test]
fn expr_new_keeps_parts() {
    let e = Expr::new(Ops::Copy_, vec![Expr::from_value(base(4))]);
    assert!(matches!(e.op, Ops::Copy_));
    assert_eq!(e.defs.len(), 1);
    assert!(matches!(e.defs[0].op, Ops::Vari(v) if v == base(4)));
}

#[test]
fn error_wrong_domain() {
    let ctx = StarkContext::new(2, 3);
    let code = vec![section(Op::Copy, vec![number("1")], node(Kind::Q, 0, false))];
    assert_eq!(compile_err(&ctx, &info(), code, Domain::Base, false), CompileError::WrongDomain);
    let code = vec![section(Op::Copy, vec![node(Kind::XDivXSubXi, 0, false)], tmp(0))];
    assert_eq!(compile_err(&ctx, &info(), code, Domain::Base, false), CompileError::WrongDomain);
    let code = vec![section(Op::Copy, vec![number("1")], node(Kind::TmpExp, 0, false))];
    assert_eq!(compile_err(&ctx, &info(), code, Domain::Extended, false), CompileError::WrongDomain);
}

#[test]
fn error_not_writable() {
    let ctx = StarkContext::new(2, 3);
    let code = vec![section(Op::Copy, vec![number("1")], node(Kind::Public, 0, false))];
    assert_eq!(compile_err(&ctx, &info(), code, Domain::Base, false), CompileError::NotWritable);
}

#[test]
fn error_number_values() {
    let ctx = StarkContext::new(2, 3);
    let code = vec![section(Op::Copy, vec![node(Kind::Number, 0, false)], tmp(0))];
    assert_eq!(compile_err(&ctx, &info(), code, Domain::Base, false), CompileError::MissingValue);
    for text in ["", "12a", "-1", "+", " 1", "18446744073709551616"] {
        let code = vec![section(Op::Copy, vec![number(text)], tmp(0))];
        assert_eq!(compile_err(&ctx, &info(), code, Domain::Base, false), CompileError::BadNumber);
    }
}

#[test]
fn error_layout_metadata() {
    let ctx = StarkContext::new(2, 3);
    let mut si = info();
    si.q_dim = 2;
    let code = vec![section(Op::Copy, vec![number("1")], node(Kind::Q, 0, false))];
    assert_eq!(compile_err(&ctx, &si, code, Domain::Extended, false), CompileError::BadQDim);

    let mut si = info();
    si.cm_n = vec![0, 1, 2];
    si.var_pol_map = vec![
        PolInfo { section: Buf::cm1_n, section_pos: 0, dim: 2 },
        PolInfo { section: Buf::cm2_n, section_pos: 0, dim: 1 },
    ];
    si.map_sections_n = vec![(Buf::cm1_n, 1)];
    let read = |id: usize| vec![section(Op::Copy, vec![node(Kind::Cm, id, false)], tmp(0))];
    assert_eq!(compile_err(&ctx, &si, read(0), Domain::Base, false), CompileError::BadDim);
    assert_eq!(compile_err(&ctx, &si, read(1), Domain::Base, false), CompileError::MissingSection);
    assert_eq!(compile_err(&ctx, &si, read(2), Domain::Base, false), CompileError::UnknownPolynomial);
    assert_eq!(compile_err(&ctx, &si, read(3), Domain::Base, false), CompileError::UnknownPolynomial);
}

#[test]
fn error_operands_and_empty_code() {
    let ctx = StarkContext::new(2, 3);
    let code = vec![section(Op::Add, vec![number("1")], tmp(0))];
    assert_eq!(compile_err(&ctx, &info(), code, Domain::Base, false), CompileError::MissingOperand);
    assert_eq!(compile_err(&ctx, &info(), vec![], Domain::Base, true), CompileError::EmptyCode);
    assert_eq!(compile_code(&ctx, &info(), &vec![], Domain::Base, false).map(|b| b.exprs.len()), Ok(0));
}

#[test]
fn add_program_layout() {
    let ctx = StarkContext::new(3, 4);
    let code = vec![section(Op::Add, vec![number("3"), number("5")], tmp(0))];
    let block = compile(&ctx, &info(), code, Domain::Base, true);
    assert_eq!(block.namespace, "ctx");
    assert_eq!(block.exprs.len(), 4);
    let t = Addr { buf: Buf::tmp, idx: get_index(0, 0, 8, 0), dim: 1 };
    assert!(matches!(block.exprs[0].op, Ops::Add));
    assert_eq!(block.exprs[0].defs.len(), 2);
    assert!(matches!(block.exprs[0].defs[0].op, Ops::Vari(v) if v == base(3)));
    assert!(matches!(block.exprs[0].defs[1].op, Ops::Vari(v) if v == base(5)));
    assert!(matches!(block.exprs[1].op, Ops::Write));
    assert_eq!(block.exprs[1].defs.len(), 1);
    assert!(matches!(block.exprs[1].defs[0].op, Ops::Refer(a) if a == t));
    assert!(matches!(block.exprs[2].op, Ops::Refer(a) if a == t));
    assert!(matches!(block.exprs[3].op, Ops::Ret));
    for e in &block.exprs {
        assert!(e.defs.iter().all(|d| d.defs.is_empty()));
    }
}

#[test]
fn extension_value_into_wide_cells_reads_back() {
    let mut ctx = StarkContext::new(1, 2);
    ctx.tmp = zeros(1);
    ctx.challenge = vec![F3G::new(4, 0, 0)];
    ctx.f_2ns = zeros(3);
    let code = vec![section(Op::Copy, vec![node(Kind::Challenge, 0, false)], node(Kind::F, 0, false))];
    let block = compile(&ctx, &info(), code, Domain::Extended, true);
    assert_eq!(block.eval(&mut ctx, 0), F3G::new(4, 0, 0));
    assert_eq!(&ctx.f_2ns[0..3], &[base(4), base(0), base(0)]);
}
