//! The evaluation context: one flat buffer of field values per named section.
use vstd::prelude::*;

use crate::field::F3G;

verus! {

/// The named sections of the context.
#[allow(non_camel_case_types)]
#[derive(Clone, Copy, Debug, PartialEq, Eq, Structural)]
pub enum Buf {
    tmp,
    cm1_n,
    cm1_2ns,
    cm2_n,
    cm2_2ns,
    cm3_n,
    cm3_2ns,
    cm4_n,
    cm4_2ns,
    q_2ns,
    f_2ns,
    publics,
    challenge,
    exps_n,
    exps_2ns,
    const_n,
    const_2ns,
    evals,
    x_n,
    x_2ns,
    xDivXSubXi,
    xDivXSubWXi,
    Zi,
}

/// Contents of every section, as mathematical sequences.
pub type Mem = Map<Buf, Seq<F3G>>;

/// Every cell of every section holds a well-formed value.
pub open spec fn mem_wf(m: Mem) -> bool {
    &&& forall|b: Buf| #[trigger] m.contains_key(b)
    &&& forall|b: Buf, k: int| 0 <= k < m[b].len() ==> (#[trigger] m[b][k]).wf()
}

/// Sections the interpreter may store into; the quotient helpers and the
/// vanishing inverse are read-only.
pub open spec fn writable(b: Buf) -> bool {
    b != Buf::xDivXSubXi && b != Buf::xDivXSubWXi && b != Buf::Zi
}

/// The buffers an expression block is evaluated against. `zi` is the table of
/// the vanishing-polynomial inverse, indexed by row.
pub struct StarkContext {
    pub nbits: usize,
    pub nbits_ext: usize,
    pub tmp: Vec<F3G>,
    pub cm1_n: Vec<F3G>,
    pub cm1_2ns: Vec<F3G>,
    pub cm2_n: Vec<F3G>,
    pub cm2_2ns: Vec<F3G>,
    pub cm3_n: Vec<F3G>,
    pub cm3_2ns: Vec<F3G>,
    pub cm4_n: Vec<F3G>,
    pub cm4_2ns: Vec<F3G>,
    pub q_2ns: Vec<F3G>,
    pub f_2ns: Vec<F3G>,
    pub publics: Vec<F3G>,
    pub challenge: Vec<F3G>,
    pub exps_n: Vec<F3G>,
    pub exps_2ns: Vec<F3G>,
    pub const_n: Vec<F3G>,
    pub const_2ns: Vec<F3G>,
    pub evals: Vec<F3G>,
    pub x_n: Vec<F3G>,
    pub x_2ns: Vec<F3G>,
    pub x_div_x_sub_xi: Vec<F3G>,
    pub x_div_x_sub_wxi: Vec<F3G>,
    pub zi: Vec<F3G>,
}

impl StarkContext {
    pub open spec fn cells(&self, b: Buf) -> Seq<F3G> {
        match b {
            Buf::tmp => self.tmp@,
            Buf::cm1_n => self.cm1_n@,
            Buf::cm1_2ns => self.cm1_2ns@,
            Buf::cm2_n => self.cm2_n@,
            Buf::cm2_2ns => self.cm2_2ns@,
            Buf::cm3_n => self.cm3_n@,
            Buf::cm3_2ns => self.cm3_2ns@,
            Buf::cm4_n => self.cm4_n@,
            Buf::cm4_2ns => self.cm4_2ns@,
            Buf::q_2ns => self.q_2ns@,
            Buf::f_2ns => self.f_2ns@,
            Buf::publics => self.publics@,
            Buf::challenge => self.challenge@,
            Buf::exps_n => self.exps_n@,
            Buf::exps_2ns => self.exps_2ns@,
            Buf::const_n => self.const_n@,
            Buf::const_2ns => self.const_2ns@,
            Buf::evals => self.evals@,
            Buf::x_n => self.x_n@,
            Buf::x_2ns => self.x_2ns@,
            Buf::xDivXSubXi => self.x_div_x_sub_xi@,
            Buf::xDivXSubWXi => self.x_div_x_sub_wxi@,
            Buf::Zi => self.zi@,
        }
    }

    pub open spec fn view(&self) -> Mem {
        Map::new(|b: Buf| true, |b: Buf| self.cells(b))
    }

    pub open spec fn wf(&self) -> bool {
        mem_wf(self.view())
    }

    /// A context with every section empty.
    pub fn new(nbits: usize, nbits_ext: usize) -> (r: StarkContext)
        ensures
            r.nbits == nbits,
            r.nbits_ext == nbits_ext,
            forall|b: Buf| (#[trigger] r.cells(b)).len() == 0,
            r.wf(),
    {
        StarkContext {
            nbits,
            nbits_ext,
            tmp: Vec::new(),
            cm1_n: Vec::new(),
            cm1_2ns: Vec::new(),
            cm2_n: Vec::new(),
            cm2_2ns: Vec::new(),
            cm3_n: Vec::new(),
            cm3_2ns: Vec::new(),
            cm4_n: Vec::new(),
            cm4_2ns: Vec::new(),
            q_2ns: Vec::new(),
            f_2ns: Vec::new(),
            publics: Vec::new(),
            challenge: Vec::new(),
            exps_n: Vec::new(),
            exps_2ns: Vec::new(),
            const_n: Vec::new(),
            const_2ns: Vec::new(),
            evals: Vec::new(),
            x_n: Vec::new(),
            x_2ns: Vec::new(),
            x_div_x_sub_xi: Vec::new(),
            x_div_x_sub_wxi: Vec::new(),
            zi: Vec::new(),
        }
    }

    /// The buffer of section `b`.
    pub fn section(&self, b: Buf) -> (r: &Vec<F3G>)
        ensures
            r@ == self.cells(b),
    {
        match b {
            Buf::tmp => &self.tmp,
            Buf::cm1_n => &self.cm1_n,
            Buf::cm1_2ns => &self.cm1_2ns,
            Buf::cm2_n => &self.cm2_n,
            Buf::cm2_2ns => &self.cm2_2ns,
            Buf::cm3_n => &self.cm3_n,
            Buf::cm3_2ns => &self.cm3_2ns,
            Buf::cm4_n => &self.cm4_n,
            Buf::cm4_2ns => &self.cm4_2ns,
            Buf::q_2ns => &self.q_2ns,
            Buf::f_2ns => &self.f_2ns,
            Buf::publics => &self.publics,
            Buf::challenge => &self.challenge,
            Buf::exps_n => &self.exps_n,
            Buf::exps_2ns => &self.exps_2ns,
            Buf::const_n => &self.const_n,
            Buf::const_2ns => &self.const_2ns,
            Buf::evals => &self.evals,
            Buf::x_n => &self.x_n,
            Buf::x_2ns => &self.x_2ns,
            Buf::xDivXSubXi => &self.x_div_x_sub_xi,
            Buf::xDivXSubWXi => &self.x_div_x_sub_wxi,
            Buf::Zi => &self.zi,
        }
    }

    /// Stores `v` at cell `idx` of section `b`.
    pub fn set_cell(&mut self, b: Buf, idx: usize, v: F3G)
        requires
            idx < old(self).cells(b).len(),
        ensures
            final(self).view() == old(self).view().insert(b, old(self).cells(b).update(idx as int, v)),
            final(self).nbits == old(self).nbits,
            final(self).nbits_ext == old(self).nbits_ext,
    {
        match b {
            Buf::tmp => self.tmp.set(idx, v),
            Buf::cm1_n => self.cm1_n.set(idx, v),
            Buf::cm1_2ns => self.cm1_2ns.set(idx, v),
            Buf::cm2_n => self.cm2_n.set(idx, v),
            Buf::cm2_2ns => self.cm2_2ns.set(idx, v),
            Buf::cm3_n => self.cm3_n.set(idx, v),
            Buf::cm3_2ns => self.cm3_2ns.set(idx, v),
            Buf::cm4_n => self.cm4_n.set(idx, v),
            Buf::cm4_2ns => self.cm4_2ns.set(idx, v),
            Buf::q_2ns => self.q_2ns.set(idx, v),
            Buf::f_2ns => self.f_2ns.set(idx, v),
            Buf::publics => self.publics.set(idx, v),
            Buf::challenge => self.challenge.set(idx, v),
            Buf::exps_n => self.exps_n.set(idx, v),
            Buf::exps_2ns => self.exps_2ns.set(idx, v),
            Buf::const_n => self.const_n.set(idx, v),
            Buf::const_2ns => self.const_2ns.set(idx, v),
            Buf::evals => self.evals.set(idx, v),
            Buf::x_n => self.x_n.set(idx, v),
            Buf::x_2ns => self.x_2ns.set(idx, v),
            Buf::xDivXSubXi => self.x_div_x_sub_xi.set(idx, v),
            Buf::xDivXSubWXi => self.x_div_x_sub_wxi.set(idx, v),
            Buf::Zi => self.zi.set(idx, v),
        }
        proof {
            assert(self.view() =~= old(self).view().insert(b, old(self).cells(b).update(idx as int, v)));
        }
    }
}

} // verus!
