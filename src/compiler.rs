//! Compiles three-address code sections into flat expression programs.
use vstd::prelude::*;

use crate::context::{Buf, StarkContext};
use crate::field::{spec_base, F3G};
use crate::interpreter::{get_index, Addr, Block, Expr, Index, Ops};
use vstd::arithmetic::power2::pow2;

verus! {

/// What a reference node names.
#[derive(Clone, Copy, Debug, PartialEq, Eq, Structural)]
pub enum Kind {
    Tmp,
    Const,
    Cm,
    TmpExp,
    Q,
    F,
    Number,
    Public,
    Challenge,
    Eval,
    XDivXSubXi,
    XDivXSubWXi,
    X,
    Zi,
}

/// A symbolic reference: `prime` reads the next row; `value` is the decimal
/// text of a `Number`.
#[derive(Clone, Debug)]
pub struct Node {
    pub type_: Kind,
    pub id: usize,
    pub prime: bool,
    pub value: Option<String>,
}

#[derive(Clone, Copy, Debug, PartialEq, Eq, Structural)]
pub enum Op {
    Add,
    Sub,
    Mul,
    Copy,
}

/// The statement `dest = op(src[0], src[1])`, or `dest = src[0]` for `Copy`.
#[derive(Clone, Debug)]
pub struct Section {
    pub op: Op,
    pub src: Vec<Node>,
    pub dest: Node,
}

/// The evaluation domain: the base subgroup or its extended coset.
#[derive(Clone, Copy, Debug, PartialEq, Eq, Structural)]
pub enum Domain {
    Base,
    Extended,
}

/// Where a polynomial lives: column `section_pos` of `section`, `dim` cells wide.
#[derive(Clone, Copy, Debug, PartialEq, Eq, Structural)]
pub struct PolInfo {
    pub section: Buf,
    pub section_pos: usize,
    pub dim: usize,
}

/// Layout metadata of the constraint system.
#[derive(Clone, Debug)]
pub struct StarkInfo {
    pub n_constants: usize,
    pub q_dim: usize,
    pub cm_n: Vec<usize>,
    pub cm_2ns: Vec<usize>,
    pub tmpexp_n: Vec<usize>,
    pub var_pol_map: Vec<PolInfo>,
    /// Column count (row stride) of each section.
    pub map_sections_n: Vec<(Buf, usize)>,
}

impl StarkInfo {
    /// Each section has at most one stride.
    pub open spec fn wf(&self) -> bool {
        forall|j: int, k: int|
            0 <= j < k < self.map_sections_n@.len() ==> (#[trigger] self.map_sections_n@[j]).0
                != (#[trigger] self.map_sections_n@[k]).0
    }
}

#[derive(Clone, Copy, Debug, PartialEq, Eq, Structural)]
pub enum CompileError {
    /// The kind cannot be used in the chosen domain.
    WrongDomain,
    /// The kind cannot be the destination of a statement.
    NotWritable,
    /// A `Number` node without a value.
    MissingValue,
    /// A `Number` value that is not a decimal 64-bit unsigned integer.
    BadNumber,
    /// `q_dim` is neither 1 nor 3.
    BadQDim,
    /// A polynomial whose width is neither 1 nor 3.
    BadDim,
    /// A polynomial in a section with no known stride.
    MissingSection,
    /// A node id or polynomial id outside its table.
    UnknownPolynomial,
    /// A statement with fewer sources than its operation takes.
    MissingOperand,
    /// A returning block compiled from no statements.
    EmptyCode,
}

/// Value of a string of decimal digits.
pub open spec fn digits_value(s: Seq<char>) -> int
    decreases s.len(),
{
    if s.len() == 0 {
        0
    } else {
        digits_value(s.drop_last()) * 10 + ((s.last() as u32) - 48)
    }
}

/// An optional `+` and one or more decimal digits, of value below `2^64`.
pub open spec fn decimal_u64(s: Seq<char>) -> Option<u64> {
    let d = if s.len() > 0 && s[0] == '+' {
        s.drop_first()
    } else {
        s
    };
    if d.len() > 0 && (forall|k: int| 0 <= k < d.len() ==> '0' <= #[trigger] d[k] <= '9')
        && digits_value(d) <= u64::MAX {
        Some(digits_value(d) as u64)
    } else {
        None
    }
}

/// Relies on `str::parse::<u64>`: an optional `+` followed by decimal digits,
/// whose value fits in 64 bits, parses to that value; anything else is an error.
#[verifier::external_body]
fn parse_u64(s: &str) -> (r: Option<u64>)
    ensures
        r == decimal_u64(s@),
{
    s.parse::<u64>().ok()
}

/// `2^k` as a machine integer.
fn pow2_usize(k: usize) -> (r: usize)
    requires
        pow2(k as nat) <= usize::MAX,
    ensures
        r == pow2(k as nat),
{
    let mut r: usize = 1;
    let mut j: usize = 0;
    proof {
        vstd::arithmetic::power2::lemma2_to64();
    }
    while j < k
        invariant
            j <= k,
            pow2(k as nat) <= usize::MAX,
            r == pow2(j as nat),
        decreases k - j,
    {
        proof {
            vstd::arithmetic::power2::lemma_pow2_unfold((j + 1) as nat);
            if j + 1 < k {
                vstd::arithmetic::power2::lemma_pow2_strictly_increases((j + 1) as nat, k as nat);
            }
        }
        r = r * 2;
        j = j + 1;
    }
    r
}

/// A `Refer` to `buf` at `offset + ((i + next) mod m) * size`, `dim` wide.
pub open spec fn leaf(buf: Buf, offset: usize, next: usize, m: usize, size: usize, dim: usize) -> Ops {
    Ops::Refer(Addr { buf, idx: Index { offset, next, modulas: m, size }, dim })
}

/// Stride of section `b`: the first entry for it.
pub open spec fn section_width(entries: Seq<(Buf, usize)>, b: Buf) -> Option<usize>
    decreases entries.len(),
{
    if entries.len() == 0 {
        None
    } else if entries[0].0 == b {
        Some(entries[0].1)
    } else {
        section_width(entries.drop_first(), b)
    }
}

/// With keys unique, the stride found for a section is the one its entry holds.
pub proof fn lemma_section_width_unique(entries: Seq<(Buf, usize)>, k: int)
    requires
        0 <= k < entries.len(),
        forall|x: int, y: int| 0 <= x < y < entries.len() ==> (#[trigger] entries[x]).0 != (#[trigger] entries[y]).0,
    ensures
        section_width(entries, entries[k].0) == Some(entries[k].1),
    decreases entries.len(),
{
    if k > 0 {
        assert(entries[0].0 != entries[k].0);
        let rest = entries.drop_first();
        assert(rest[k - 1] == entries[k]);
        assert forall|x: int, y: int| 0 <= x < y < rest.len() implies (#[trigger] rest[x]).0 != (#[trigger] rest[y]).0 by {
            assert(rest[x] == entries[x + 1]);
            assert(rest[y] == entries[y + 1]);
        }
        lemma_section_width_unique(rest, k - 1);
    }
}

/// The reference to polynomial `pol_id` through `var_pol_map`.
pub open spec fn spec_eval_map(info: StarkInfo, pol_id: int, prime: bool, next: usize, m: usize) -> Result<Ops, CompileError> {
    if pol_id < 0 || pol_id >= info.var_pol_map@.len() {
        Err(CompileError::UnknownPolynomial)
    } else {
        let p = info.var_pol_map@[pol_id];
        match section_width(info.map_sections_n@, p.section) {
            None => Err(CompileError::MissingSection),
            Some(w) => if p.dim != 1 && p.dim != 3 {
                Err(CompileError::BadDim)
            } else {
                Ok(leaf(p.section, p.section_pos, if prime { next } else { 0 }, m, w, p.dim))
            },
        }
    }
}

/// The reference to polynomial number `id` of `table`.
pub open spec fn spec_pol_ref(info: StarkInfo, table: Seq<usize>, id: usize, prime: bool, next: usize, m: usize) -> Result<Ops, CompileError> {
    if id >= table.len() {
        Err(CompileError::UnknownPolynomial)
    } else {
        spec_eval_map(info, table[id as int] as int, prime, next, m)
    }
}

/// What a node reads, in domain `dom` with rotation `next` and `m` rows.
pub open spec fn spec_get_ref(info: StarkInfo, r: Node, dom: Domain, next: usize, m: usize) -> Result<Ops, CompileError> {
    let base = dom == Domain::Base;
    match r.type_ {
        Kind::Tmp => Ok(leaf(Buf::tmp, r.id, 0, m, 0, 1)),
        Kind::Const => if base {
            Ok(leaf(Buf::const_n, r.id, if r.prime { 1 } else { 0 }, m, info.n_constants, 1))
        } else {
            Ok(leaf(Buf::const_2ns, r.id, if r.prime { next } else { 0 }, m, info.n_constants, 1))
        },
        Kind::Cm => if base {
            spec_pol_ref(info, info.cm_n@, r.id, r.prime, next, m)
        } else {
            spec_pol_ref(info, info.cm_2ns@, r.id, r.prime, next, m)
        },
        Kind::TmpExp => if base {
            spec_pol_ref(info, info.tmpexp_n@, r.id, r.prime, next, m)
        } else {
            Err(CompileError::WrongDomain)
        },
        Kind::Q => if base {
            Err(CompileError::WrongDomain)
        } else if info.q_dim != 1 && info.q_dim != 3 {
            Err(CompileError::BadQDim)
        } else {
            Ok(leaf(Buf::q_2ns, r.id, 0, m, 0, info.q_dim))
        },
        Kind::F => if base {
            Err(CompileError::WrongDomain)
        } else {
            Ok(leaf(Buf::f_2ns, r.id, 0, m, 0, 3))
        },
        Kind::Number => match r.value {
            None => Err(CompileError::MissingValue),
            Some(s) => match decimal_u64(s@) {
                None => Err(CompileError::BadNumber),
                Some(v) => Ok(Ops::Vari(spec_base(v as int))),
            },
        },
        Kind::Public => Ok(leaf(Buf::publics, r.id, 0, m, 0, 1)),
        Kind::Challenge => Ok(leaf(Buf::challenge, r.id, 0, m, 0, 1)),
        Kind::Eval => Ok(leaf(Buf::evals, r.id, 0, m, 0, 1)),
        Kind::XDivXSubXi => if base {
            Err(CompileError::WrongDomain)
        } else {
            Ok(leaf(Buf::xDivXSubXi, 0, 0, m, 3, 3))
        },
        Kind::XDivXSubWXi => if base {
            Err(CompileError::WrongDomain)
        } else {
            Ok(leaf(Buf::xDivXSubWXi, 0, 0, m, 3, 3))
        },
        Kind::X => Ok(leaf(if base { Buf::x_n } else { Buf::x_2ns }, 0, 0, m, 1, 1)),
        Kind::Zi => Ok(leaf(Buf::Zi, 0, 0, m, 1, 1)),
    }
}

/// The kinds a statement may store into.
pub open spec fn is_target(k: Kind) -> bool {
    k == Kind::Tmp || k == Kind::Cm || k == Kind::TmpExp || k == Kind::Q || k == Kind::F
}

/// Where a destination node stores.
pub open spec fn spec_set_ref(info: StarkInfo, r: Node, dom: Domain, next: usize, m: usize) -> Result<Ops, CompileError> {
    if is_target(r.type_) {
        spec_get_ref(info, r, dom, next, m)
    } else {
        Err(CompileError::NotWritable)
    }
}

/// A `Refer` expression to `buf` at `offset + ((i + next) mod m) * size`.
fn refer(buf: Buf, offset: usize, next: usize, m: usize, size: usize, dim: usize) -> (r: Expr)
    ensures
        r.op == leaf(buf, offset, next, m, size, dim),
        r.defs@.len() == 0,
{
    Expr::new(Ops::Refer(Addr { buf, idx: get_index(offset, next, m, size), dim }), Vec::new())
}

/// Looks up the stride of section `b`.
fn find_width(entries: &Vec<(Buf, usize)>, b: Buf) -> (r: Option<usize>)
    ensures
        r == section_width(entries@, b),
{
    let mut k: usize = 0;
    proof {
        assert(entries@.subrange(0, entries@.len() as int) =~= entries@);
    }
    while k < entries.len()
        invariant
            k <= entries@.len(),
            section_width(entries@, b) == section_width(entries@.subrange(k as int, entries@.len() as int), b),
        decreases entries@.len() - k,
    {
        let ghost rest = entries@.subrange(k as int, entries@.len() as int);
        proof {
            assert(rest.drop_first() =~= entries@.subrange(k + 1, entries@.len() as int));
        }
        if entries[k].0 == b {
            return Some(entries[k].1);
        }
        k += 1;
    }
    proof {
        assert(entries@.subrange(k as int, entries@.len() as int).len() == 0);
    }
    None
}

/// Resolves polynomial `pol_id` through `var_pol_map` to a reference into
/// its section, rotated by `next` when `prime` is set.
fn eval_map(starkinfo: &StarkInfo, pol_id: usize, prime: bool, next: usize, modulas: usize) -> (r: Result<Expr, CompileError>)
    ensures
        match spec_eval_map(*starkinfo, pol_id as int, prime, next, modulas) {
            Ok(op) => r is Ok && r->Ok_0.op == op && r->Ok_0.defs@.len() == 0,
            Err(e) => r is Err && r->Err_0 == e,
        },
{
    if pol_id >= starkinfo.var_pol_map.len() {
        return Err(CompileError::UnknownPolynomial);
    }
    let p = starkinfo.var_pol_map[pol_id];
    let size = match find_width(&starkinfo.map_sections_n, p.section) {
        Some(w) => w,
        None => {
            return Err(CompileError::MissingSection);
        },
    };
    if p.dim != 1 && p.dim != 3 {
        return Err(CompileError::BadDim);
    }
    let next = if prime { next } else { 0 };
    Ok(refer(p.section, p.section_pos, next, modulas, size, p.dim))
}

/// Resolves entry `id` of a polynomial table.
fn pol_ref(starkinfo: &StarkInfo, table: &Vec<usize>, id: usize, prime: bool, next: usize, modulas: usize) -> (r: Result<Expr, CompileError>)
    ensures
        match spec_pol_ref(*starkinfo, table@, id, prime, next, modulas) {
            Ok(op) => r is Ok && r->Ok_0.op == op && r->Ok_0.defs@.len() == 0,
            Err(e) => r is Err && r->Err_0 == e,
        },
{
    if id >= table.len() {
        return Err(CompileError::UnknownPolynomial);
    }
    eval_map(starkinfo, table[id], prime, next, modulas)
}

/// Resolves a source node to an immediate value or a reference.
fn get_ref(starkinfo: &StarkInfo, r: &Node, dom: Domain, next: usize, modulas: usize) -> (res: Result<Expr, CompileError>)
    ensures
        match spec_get_ref(*starkinfo, *r, dom, next, modulas) {
            Ok(op) => res is Ok && res->Ok_0.op == op && res->Ok_0.defs@.len() == 0,
            Err(e) => res is Err && res->Err_0 == e,
        },
        res is Ok ==> res->Ok_0.value_ok(),
{
    let base = dom == Domain::Base;
    let m = modulas;
    match r.type_ {
        Kind::Tmp => Ok(refer(Buf::tmp, r.id, 0, m, 0, 1)),
        Kind::Const => {
            if base {
                Ok(refer(Buf::const_n, r.id, if r.prime { 1 } else { 0 }, m, starkinfo.n_constants, 1))
            } else {
                Ok(refer(Buf::const_2ns, r.id, if r.prime { next } else { 0 }, m, starkinfo.n_constants, 1))
            }
        },
        Kind::Cm => {
            if base {
                pol_ref(starkinfo, &starkinfo.cm_n, r.id, r.prime, next, m)
            } else {
                pol_ref(starkinfo, &starkinfo.cm_2ns, r.id, r.prime, next, m)
            }
        },
        Kind::TmpExp => {
            if base {
                pol_ref(starkinfo, &starkinfo.tmpexp_n, r.id, r.prime, next, m)
            } else {
                Err(CompileError::WrongDomain)
            }
        },
        Kind::Q => {
            if base {
                Err(CompileError::WrongDomain)
            } else if starkinfo.q_dim != 1 && starkinfo.q_dim != 3 {
                Err(CompileError::BadQDim)
            } else {
                Ok(refer(Buf::q_2ns, r.id, 0, m, 0, starkinfo.q_dim))
            }
        },
        Kind::F => {
            if base {
                Err(CompileError::WrongDomain)
            } else {
                Ok(refer(Buf::f_2ns, r.id, 0, m, 0, 3))
            }
        },
        Kind::Number => {
            match &r.value {
                None => Err(CompileError::MissingValue),
                Some(s) => match parse_u64(s.as_str()) {
                    None => Err(CompileError::BadNumber),
                    Some(v) => Ok(Expr::from_value(F3G::from_u64(v))),
                },
            }
        },
        Kind::Public => Ok(refer(Buf::publics, r.id, 0, m, 0, 1)),
        Kind::Challenge => Ok(refer(Buf::challenge, r.id, 0, m, 0, 1)),
        Kind::Eval => Ok(refer(Buf::evals, r.id, 0, m, 0, 1)),
        Kind::XDivXSubXi => {
            if base {
                Err(CompileError::WrongDomain)
            } else {
                Ok(refer(Buf::xDivXSubXi, 0, 0, m, 3, 3))
            }
        },
        Kind::XDivXSubWXi => {
            if base {
                Err(CompileError::WrongDomain)
            } else {
                Ok(refer(Buf::xDivXSubWXi, 0, 0, m, 3, 3))
            }
        },
        Kind::X => Ok(refer(if base { Buf::x_n } else { Buf::x_2ns }, 0, 0, m, 1, 1)),
        Kind::Zi => Ok(refer(Buf::Zi, 0, 0, m, 1, 1)),
    }
}

/// Resolves a destination node: only write targets are accepted.
fn set_ref(starkinfo: &StarkInfo, r: &Node, dom: Domain, next: usize, modulas: usize) -> (res: Result<Expr, CompileError>)
    ensures
        match spec_set_ref(*starkinfo, *r, dom, next, modulas) {
            Ok(op) => res is Ok && res->Ok_0.op == op && res->Ok_0.defs@.len() == 0,
            Err(e) => res is Err && res->Err_0 == e,
        },
{
    match r.type_ {
        Kind::Tmp | Kind::Cm | Kind::TmpExp | Kind::Q | Kind::F => get_ref(starkinfo, r, dom, next, modulas),
        _ => Err(CompileError::NotWritable),
    }
}

/// An instruction seen as its operation and the operations of its operands:
/// all that evaluation reads of it.
pub open spec fn shape(e: Expr) -> (Ops, Seq<Ops>) {
    (e.op, e.defs@.map_values(|d: Expr| d.op))
}

/// The operands of an instruction are leaves: they hold no operands of
/// their own.
pub open spec fn flat(e: Expr) -> bool {
    forall|k: int| 0 <= k < e.defs@.len() ==> (#[trigger] e.defs@[k]).defs@.len() == 0
}

pub open spec fn shapes(es: Seq<Expr>) -> Seq<(Ops, Seq<Ops>)> {
    es.map_values(|e: Expr| shape(e))
}

pub open spec fn arith(op: Op) -> Ops {
    match op {
        Op::Add => Ops::Add,
        Op::Sub => Ops::Sub,
        Op::Mul => Ops::Mul,
        Op::Copy => Ops::Copy_,
    }
}

/// Number of sources an operation takes.
pub open spec fn arity(op: Op) -> int {
    if op == Op::Copy {
        1
    } else {
        2
    }
}

/// The sources of a statement, resolved in order; the first failure wins.
pub open spec fn resolve_all(info: StarkInfo, nodes: Seq<Node>, dom: Domain, next: usize, m: usize) -> Result<Seq<Ops>, CompileError>
    decreases nodes.len(),
{
    if nodes.len() == 0 {
        Ok(seq![])
    } else {
        match spec_get_ref(info, nodes[0], dom, next, m) {
            Err(e) => Err(e),
            Ok(o) => match resolve_all(info, nodes.drop_first(), dom, next, m) {
                Err(e) => Err(e),
                Ok(rest) => Ok(seq![o] + rest),
            },
        }
    }
}

/// The two instructions of one statement: the operation on its resolved
/// sources, then the `Write` to its destination.
pub open spec fn section_code(info: StarkInfo, s: Section, dom: Domain, next: usize, m: usize) -> Result<Seq<(Ops, Seq<Ops>)>, CompileError> {
    match resolve_all(info, s.src@, dom, next, m) {
        Err(e) => Err(e),
        Ok(srcs) => if srcs.len() < arity(s.op) {
            Err(CompileError::MissingOperand)
        } else {
            match spec_set_ref(info, s.dest, dom, next, m) {
                Err(e) => Err(e),
                Ok(d) => Ok(seq![(arith(s.op), srcs.take(arity(s.op))), (Ops::Write, seq![d])]),
            }
        },
    }
}

/// The statements compiled in order; the first failure wins.
pub open spec fn body_code(info: StarkInfo, code: Seq<Section>, dom: Domain, next: usize, m: usize) -> Result<Seq<(Ops, Seq<Ops>)>, CompileError>
    decreases code.len(),
{
    if code.len() == 0 {
        Ok(seq![])
    } else {
        match section_code(info, code[0], dom, next, m) {
            Err(e) => Err(e),
            Ok(a) => match body_code(info, code.drop_first(), dom, next, m) {
                Err(e) => Err(e),
                Ok(b) => Ok(a + b),
            },
        }
    }
}

/// Rows between a row and the next one: 1 in the base domain, the blow-up
/// factor `2^(nbits_ext - nbits)` in the extended one.
pub open spec fn rotation(nbits: usize, nbits_ext: usize, dom: Domain) -> nat {
    if dom == Domain::Base {
        1
    } else {
        pow2((nbits_ext - nbits) as nat)
    }
}

/// Number of rows of the domain.
pub open spec fn domain_size(nbits: usize, nbits_ext: usize, dom: Domain) -> nat {
    if dom == Domain::Base {
        pow2(nbits as nat)
    } else {
        pow2(nbits_ext as nat)
    }
}

/// The compiled program; with `ret`, it ends by loading the last statement's
/// destination and returning it.
pub open spec fn compile_spec(info: StarkInfo, nbits: usize, nbits_ext: usize, code: Seq<Section>, dom: Domain, ret: bool) -> Result<Seq<(Ops, Seq<Ops>)>, CompileError> {
    let next = rotation(nbits, nbits_ext, dom) as usize;
    let m = domain_size(nbits, nbits_ext, dom) as usize;
    match body_code(info, code, dom, next, m) {
        Err(e) => Err(e),
        Ok(b) => if !ret {
            Ok(b)
        } else if code.len() == 0 {
            Err(CompileError::EmptyCode)
        } else {
            match spec_get_ref(info, code.last().dest, dom, next, m) {
                Err(e) => Err(e),
                Ok(o) => Ok(b + seq![(o, seq![]), (Ops::Ret, seq![])]),
            }
        },
    }
}

/// The domain's sizes fit in machine integers and the extended domain is
/// at least as large as the base one.
pub open spec fn sizes_ok(nbits: usize, nbits_ext: usize) -> bool {
    nbits <= nbits_ext && pow2(nbits_ext as nat) <= usize::MAX
}

/// Resolves the sources of `s` in order.
fn compile_sources(starkinfo: &StarkInfo, s: &Section, dom: Domain, next: usize, modulas: usize) -> (r: Result<Vec<Expr>, CompileError>)
    ensures
        match resolve_all(*starkinfo, s.src@, dom, next, modulas) {
            Ok(ops) => r is Ok && r->Ok_0@.map_values(|d: Expr| d.op) == ops
                && forall|k: int| 0 <= k < r->Ok_0@.len()
                    ==> (#[trigger] r->Ok_0@[k]).value_ok() && r->Ok_0@[k].defs@.len() == 0,
            Err(e) => r is Err && r->Err_0 == e,
        },
{
    let ghost all = s.src@;
    let mut src: Vec<Expr> = Vec::new();
    let mut k: usize = 0;
    proof {
        assert(all.subrange(0, all.len() as int) =~= all);
        assert(src@.map_values(|d: Expr| d.op) =~= seq![]);
    }
    while k < s.src.len()
        invariant
            all == s.src@,
            k <= all.len(),
            resolve_all(*starkinfo, all, dom, next, modulas) == match resolve_all(*starkinfo, all.subrange(k as int, all.len() as int), dom, next, modulas) {
                Err(e) => Err(e),
                Ok(rest) => Ok(src@.map_values(|d: Expr| d.op) + rest),
            },
            forall|j: int| 0 <= j < src@.len() ==> (#[trigger] src@[j]).value_ok() && src@[j].defs@.len() == 0,
        decreases all.len() - k,
    {
        let ghost rest = all.subrange(k as int, all.len() as int);
        proof {
            assert(rest.drop_first() =~= all.subrange(k + 1, all.len() as int));
            assert(rest[0] == s.src@[k as int]);
        }
        let e = match get_ref(starkinfo, &s.src[k], dom, next, modulas) {
            Ok(e) => e,
            Err(err) => {
                return Err(err);
            },
        };
        let ghost before = src@.map_values(|d: Expr| d.op);
        src.push(e);
        proof {
            assert(src@.map_values(|d: Expr| d.op) =~= before.push(e.op));
            let tail = resolve_all(*starkinfo, all.subrange(k + 1, all.len() as int), dom, next, modulas);
            if let Ok(t) = tail {
                assert(before + (seq![e.op] + t) =~= before.push(e.op) + t);
            }
        }
        k += 1;
    }
    proof {
        assert(all.subrange(k as int, all.len() as int) =~= seq![]);
        assert(src@.map_values(|d: Expr| d.op) + seq![] =~= src@.map_values(|d: Expr| d.op));
    }
    Ok(src)
}

/// Compiles one statement and appends its two instructions to `body`.
fn compile_section(starkinfo: &StarkInfo, s: &Section, dom: Domain, next: usize, modulas: usize, body: &mut Vec<Expr>) -> (r: Result<(), CompileError>)
    ensures
        match section_code(*starkinfo, *s, dom, next, modulas) {
            Ok(a) => r is Ok && shapes(final(body)@) == shapes(old(body)@) + a
                && final(body)@.len() == old(body)@.len() + 2
                && final(body)@.subrange(0, old(body)@.len() as int) == old(body)@
                && forall|k: int| old(body)@.len() <= k < final(body)@.len()
                    ==> (#[trigger] final(body)@[k]).wf() && flat(final(body)@[k]),
            Err(e) => r is Err && r->Err_0 == e,
        },
{
    let mut src = match compile_sources(starkinfo, s, dom, next, modulas) {
        Ok(v) => v,
        Err(e) => {
            return Err(e);
        },
    };
    let (op, need): (Ops, usize) = match s.op {
        Op::Add => (Ops::Add, 2),
        Op::Sub => (Ops::Sub, 2),
        Op::Mul => (Ops::Mul, 2),
        Op::Copy => (Ops::Copy_, 1),
    };
    if src.len() < need {
        return Err(CompileError::MissingOperand);
    }
    let ghost ops = src@.map_values(|d: Expr| d.op);
    let ghost full = src@;
    src.truncate(need);
    let dest = match set_ref(starkinfo, &s.dest, dom, next, modulas) {
        Ok(d) => d,
        Err(e) => {
            return Err(e);
        },
    };
    let ghost d_op = dest.op;
    let exp = Expr::new(op, src);
    let write = Expr::new(Ops::Write, vec![dest]);
    let ghost old_body = body@;
    proof {
        assert(exp.defs@.map_values(|d: Expr| d.op) =~= ops.take(need as int));
        assert(write.defs@.map_values(|d: Expr| d.op) =~= seq![d_op]);
        assert forall|k: int| 0 <= k < exp.defs@.len() implies (#[trigger] exp.defs@[k]).value_ok()
            && exp.defs@[k].defs@.len() == 0 by {
            assert(exp.defs@[k] == full[k]);
        }
    }
    body.push(exp);
    body.push(write);
    proof {
        let a = seq![shape(exp), shape(write)];
        assert(shapes(body@) =~= shapes(old_body) + a);
        assert(body@.subrange(0, old_body.len() as int) =~= old_body);
        assert(body@[old_body.len() as int] == exp);
        assert(body@[old_body.len() as int + 1] == write);
    }
    Ok(())
}

/// Compiles `code` for domain `dom` into a flat program. With `ret`, the
/// program ends by loading the last statement's destination and returning it.
pub fn compile_code(ctx: &StarkContext, starkinfo: &StarkInfo, code: &Vec<Section>, dom: Domain, ret: bool) -> (r: Result<Block, CompileError>)
    requires
        sizes_ok(ctx.nbits, ctx.nbits_ext),
        starkinfo.wf(),
    ensures
        match compile_spec(*starkinfo, ctx.nbits, ctx.nbits_ext, code@, dom, ret) {
            Ok(prog) => r is Ok && shapes(r->Ok_0.exprs@) == prog && r->Ok_0.wf()
                && r->Ok_0.namespace@ == "ctx"@
                && forall|k: int| 0 <= k < r->Ok_0.exprs@.len() ==> flat(#[trigger] r->Ok_0.exprs@[k]),
            Err(e) => r is Err && r->Err_0 == e,
        },
{
    proof {
        if ctx.nbits < ctx.nbits_ext {
            vstd::arithmetic::power2::lemma_pow2_strictly_increases(ctx.nbits as nat, ctx.nbits_ext as nat);
        }
        if ctx.nbits > 0 {
            vstd::arithmetic::power2::lemma_pow2_strictly_increases((ctx.nbits_ext - ctx.nbits) as nat, ctx.nbits_ext as nat);
        }
    }
    let next: usize = if dom == Domain::Base {
        1
    } else {
        pow2_usize(ctx.nbits_ext - ctx.nbits)
    };
    let modulas: usize = if dom == Domain::Base {
        pow2_usize(ctx.nbits)
    } else {
        pow2_usize(ctx.nbits_ext)
    };
    let mut exprs: Vec<Expr> = Vec::new();
    let ghost all = code@;
    let mut j: usize = 0;
    proof {
        assert(all.subrange(0, all.len() as int) =~= all);
        assert(shapes(exprs@) =~= seq![]);
    }
    while j < code.len()
        invariant
            all == code@,
            j <= all.len(),
            next == rotation(ctx.nbits, ctx.nbits_ext, dom),
            modulas == domain_size(ctx.nbits, ctx.nbits_ext, dom),
            body_code(*starkinfo, all, dom, next, modulas) == match body_code(*starkinfo, all.subrange(j as int, all.len() as int), dom, next, modulas) {
                Err(e) => Err(e),
                Ok(rest) => Ok(shapes(exprs@) + rest),
            },
            forall|k: int| 0 <= k < exprs@.len() ==> (#[trigger] exprs@[k]).wf() && flat(exprs@[k]),
        decreases all.len() - j,
    {
        let ghost rest = all.subrange(j as int, all.len() as int);
        let ghost before = shapes(exprs@);
        proof {
            assert(rest.drop_first() =~= all.subrange(j + 1, all.len() as int));
            assert(rest[0] == code@[j as int]);
        }
        let ghost prev = exprs@;
        match compile_section(starkinfo, &code[j], dom, next, modulas, &mut exprs) {
            Ok(()) => {},
            Err(e) => {
                return Err(e);
            },
        }
        proof {
            assert forall|k: int| 0 <= k < exprs@.len() implies (#[trigger] exprs@[k]).wf() && flat(exprs@[k]) by {
                if k < prev.len() {
                    assert(exprs@[k] == exprs@.subrange(0, prev.len() as int)[k]);
                }
            }
            let a = section_code(*starkinfo, code@[j as int], dom, next, modulas)->Ok_0;
            let tail = body_code(*starkinfo, all.subrange(j + 1, all.len() as int), dom, next, modulas);
            if let Ok(t) = tail {
                assert(before + (a + t) =~= (before + a) + t);
            }
        }
        j += 1;
    }
    proof {
        assert(all.subrange(j as int, all.len() as int) =~= seq![]);
        assert(shapes(exprs@) + seq![] =~= shapes(exprs@));
    }
    if ret {
        if code.len() == 0 {
            return Err(CompileError::EmptyCode);
        }
        let last = match get_ref(starkinfo, &code[code.len() - 1].dest, dom, next, modulas) {
            Ok(e) => e,
            Err(e) => {
                return Err(e);
            },
        };
        let ghost before = shapes(exprs@);
        let ghost l_op = last.op;
        proof {
            assert(last.defs@.map_values(|d: Expr| d.op) =~= seq![]);
        }
        exprs.push(last);
        let fin = Expr::new(Ops::Ret, Vec::new());
        proof {
            assert(fin.defs@.map_values(|d: Expr| d.op) =~= seq![]);
        }
        exprs.push(fin);
        proof {
            assert(shapes(exprs@) =~= before + seq![(l_op, seq![]), (Ops::Ret, seq![])]);
        }
    }
    Ok(Block { namespace: "ctx".to_owned(), exprs })
}

} // verus!
