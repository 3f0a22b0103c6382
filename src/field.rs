//! Goldilocks prime field and its cubic extension `F[x] / (x^3 - x - 1)`.
use vstd::prelude::*;

verus! {

/// The Goldilocks prime `2^64 - 2^32 + 1`.
pub const P: u64 = 0xffff_ffff_0000_0001;

/// Sum of two canonical base elements.
pub open spec fn fadd(a: int, b: int) -> int {
    (a + b) % (P as int)
}

/// Difference of two canonical base elements.
pub open spec fn fsub(a: int, b: int) -> int {
    (a - b) % (P as int)
}

/// Product of two canonical base elements.
pub open spec fn fmul(a: int, b: int) -> int {
    (a * b) % (P as int)
}

/// Zero absorbs a product.
pub proof fn lemma_fmul_zero(a: int)
    ensures
        fmul(a, 0) == 0,
        fmul(0, a) == 0,
{
    assert(a * 0 == 0) by (nonlinear_arith);
    assert(0 * a == 0) by (nonlinear_arith);
}

/// Zero is neutral for a canonical residue.
pub proof fn lemma_fadd_zero(a: int)
    requires
        0 <= a < P,
    ensures
        fadd(a, 0) == a,
        fadd(0, a) == a,
        fsub(a, 0) == a,
{
    vstd::arithmetic::div_mod::lemma_small_mod(a as nat, P as nat);
}

/// Addition modulo `P` of two canonical residues.
pub fn add_mod(a: u64, b: u64) -> (r: u64)
    requires
        a < P,
        b < P,
    ensures
        r as int == fadd(a as int, b as int),
        r < P,
{
    let r: u64 = if a >= P - b {
        a - (P - b)
    } else {
        a + b
    };
    proof {
        if a >= P - b {
            assert((a + b) as int == r + P);
            vstd::arithmetic::div_mod::lemma_mod_add_multiples_vanish(r as int, P as int);
            vstd::arithmetic::div_mod::lemma_small_mod(r as nat, P as nat);
        } else {
            vstd::arithmetic::div_mod::lemma_small_mod(r as nat, P as nat);
        }
    }
    r
}

/// Subtraction modulo `P` of two canonical residues.
pub fn sub_mod(a: u64, b: u64) -> (r: u64)
    requires
        a < P,
        b < P,
    ensures
        r as int == fsub(a as int, b as int),
        r < P,
{
    let r: u64 = if a >= b {
        a - b
    } else {
        P - (b - a)
    };
    proof {
        if a >= b {
            vstd::arithmetic::div_mod::lemma_small_mod(r as nat, P as nat);
        } else {
            assert(a - b == r - P);
            vstd::arithmetic::div_mod::lemma_mod_sub_multiples_vanish(r as int, P as int);
            vstd::arithmetic::div_mod::lemma_small_mod(r as nat, P as nat);
        }
    }
    r
}

/// Multiplication modulo `P` of two canonical residues.
pub fn mul_mod(a: u64, b: u64) -> (r: u64)
    requires
        a < P,
        b < P,
    ensures
        r as int == fmul(a as int, b as int),
        r < P,
{
    let wa = a as u128;
    let wb = b as u128;
    proof {
        assert(wa * wb < 0x1_0000_0000_0000_0000_0000_0000_0000_0000) by (nonlinear_arith)
            requires
                wa < 0x1_0000_0000_0000_0000,
                wb < 0x1_0000_0000_0000_0000,
        ;
    }
    let prod = wa * wb;
    let r = (prod % (P as u128)) as u64;
    r
}

/// An element of the base field (`dim == 1`) or of the cubic extension
/// (`dim == 3`), stored as three canonical coordinates.
#[derive(Clone, Copy, Debug, PartialEq, Eq, Structural)]
pub struct F3G {
    pub c0: u64,
    pub c1: u64,
    pub c2: u64,
    pub dim: usize,
}

/// Dimension of the result of a binary operation: a base operand is lifted.
pub open spec fn join_dim(a: usize, b: usize) -> usize {
    if a == 1 && b == 1 {
        1
    } else {
        3
    }
}

pub open spec fn spec_add(x: F3G, y: F3G) -> F3G {
    F3G {
        c0: fadd(x.c0 as int, y.c0 as int) as u64,
        c1: fadd(x.c1 as int, y.c1 as int) as u64,
        c2: fadd(x.c2 as int, y.c2 as int) as u64,
        dim: join_dim(x.dim, y.dim),
    }
}

pub open spec fn spec_sub(x: F3G, y: F3G) -> F3G {
    F3G {
        c0: fsub(x.c0 as int, y.c0 as int) as u64,
        c1: fsub(x.c1 as int, y.c1 as int) as u64,
        c2: fsub(x.c2 as int, y.c2 as int) as u64,
        dim: join_dim(x.dim, y.dim),
    }
}

/// Product in `F[x] / (x^3 - x - 1)`: `x^3 = x + 1` and `x^4 = x^2 + x`.
pub open spec fn spec_mul(x: F3G, y: F3G) -> F3G {
    let (a0, a1, a2) = (x.c0 as int, x.c1 as int, x.c2 as int);
    let (b0, b1, b2) = (y.c0 as int, y.c1 as int, y.c2 as int);
    F3G {
        c0: fadd(fadd(fmul(a0, b0), fmul(a1, b2)), fmul(a2, b1)) as u64,
        c1: fadd(
            fadd(fadd(fadd(fmul(a0, b1), fmul(a1, b0)), fmul(a1, b2)), fmul(a2, b1)),
            fmul(a2, b2),
        ) as u64,
        c2: fadd(fadd(fadd(fmul(a0, b2), fmul(a1, b1)), fmul(a2, b0)), fmul(a2, b2)) as u64,
        dim: join_dim(x.dim, y.dim),
    }
}

/// The base element `v mod P`.
pub open spec fn spec_base(v: int) -> F3G {
    F3G { c0: (v % (P as int)) as u64, c1: 0, c2: 0, dim: 1 }
}

/// The base element whose coordinate is `x`, taken as it is.
pub open spec fn base_cell(x: u64) -> F3G {
    F3G { c0: x, c1: 0, c2: 0, dim: 1 }
}

/// The same coordinates seen as an extension element.
pub open spec fn lift(x: F3G) -> F3G {
    F3G { dim: 3, ..x }
}

impl F3G {
    /// Canonical coordinates, and a base element has zero upper coordinates.
    pub open spec fn wf(self) -> bool {
        &&& self.c0 < P
        &&& self.c1 < P
        &&& self.c2 < P
        &&& (self.dim == 1 && self.c1 == 0 && self.c2 == 0) || self.dim == 3
    }

    /// The additive identity of the base field.
    pub fn zero() -> (r: F3G)
        ensures
            r == spec_base(0),
            r.wf(),
    {
        F3G { c0: 0, c1: 0, c2: 0, dim: 1 }
    }

    /// The base element `v mod P`.
    pub fn from_u64(v: u64) -> (r: F3G)
        ensures
            r == spec_base(v as int),
            r.wf(),
    {
        F3G { c0: v % P, c1: 0, c2: 0, dim: 1 }
    }

    /// The extension element `a + b x + c x^2`, each coordinate reduced mod `P`.
    pub fn new(a: u64, b: u64, c: u64) -> (r: F3G)
        ensures
            r == (F3G { c0: a % P, c1: b % P, c2: c % P, dim: 3 }),
            r.wf(),
    {
        F3G { c0: a % P, c1: b % P, c2: c % P, dim: 3 }
    }

    /// The base coordinate.
    pub fn to_be(&self) -> (r: u64)
        ensures
            r == self.c0,
    {
        self.c0
    }

    /// The integer value of the base coordinate.
    pub fn as_int(&self) -> (r: u64)
        ensures
            r == self.c0,
    {
        self.c0
    }

    /// The three coordinates as base elements.
    pub fn as_elements(&self) -> (r: [F3G; 3])
        requires
            self.wf(),
        ensures
            r[0] == base_cell(self.c0),
            r[1] == base_cell(self.c1),
            r[2] == base_cell(self.c2),
    {
        proof {
            vstd::arithmetic::div_mod::lemma_small_mod(self.c0 as nat, P as nat);
            vstd::arithmetic::div_mod::lemma_small_mod(self.c1 as nat, P as nat);
            vstd::arithmetic::div_mod::lemma_small_mod(self.c2 as nat, P as nat);
        }
        [F3G::from_u64(self.c0), F3G::from_u64(self.c1), F3G::from_u64(self.c2)]
    }

    pub fn add(self, y: F3G) -> (r: F3G)
        requires
            self.wf(),
            y.wf(),
        ensures
            r == spec_add(self, y),
            r.wf(),
    {
        F3G {
            c0: add_mod(self.c0, y.c0),
            c1: add_mod(self.c1, y.c1),
            c2: add_mod(self.c2, y.c2),
            dim: if self.dim == 1 && y.dim == 1 { 1 } else { 3 },
        }
    }

    pub fn sub(self, y: F3G) -> (r: F3G)
        requires
            self.wf(),
            y.wf(),
        ensures
            r == spec_sub(self, y),
            r.wf(),
    {
        F3G {
            c0: sub_mod(self.c0, y.c0),
            c1: sub_mod(self.c1, y.c1),
            c2: sub_mod(self.c2, y.c2),
            dim: if self.dim == 1 && y.dim == 1 { 1 } else { 3 },
        }
    }

    pub fn mul(self, y: F3G) -> (r: F3G)
        requires
            self.wf(),
            y.wf(),
        ensures
            r == spec_mul(self, y),
            r.wf(),
    {
        let (a0, a1, a2) = (self.c0, self.c1, self.c2);
        let (b0, b1, b2) = (y.c0, y.c1, y.c2);
        let c0 = add_mod(add_mod(mul_mod(a0, b0), mul_mod(a1, b2)), mul_mod(a2, b1));
        let c1 = add_mod(
            add_mod(add_mod(add_mod(mul_mod(a0, b1), mul_mod(a1, b0)), mul_mod(a1, b2)), mul_mod(a2, b1)),
            mul_mod(a2, b2),
        );
        let c2 = add_mod(add_mod(add_mod(mul_mod(a0, b2), mul_mod(a1, b1)), mul_mod(a2, b0)), mul_mod(a2, b2));
        let r = F3G { c0, c1, c2, dim: if self.dim == 1 && y.dim == 1 { 1 } else { 3 } };
        proof {
            if r.dim == 1 {
                lemma_fmul_zero(a0 as int);
                lemma_fmul_zero(b0 as int);
                lemma_fmul_zero(0);
                lemma_fadd_zero(0);
            }
        }
        r
    }
}

} // verus!
