use vstd::prelude::*;

use crate::field::Fr;
use crate::labels::{find_last, lemma_last_index_of, lookup};

verus! {

/// The position of a polynomial in the widgets' fixed-size polynomial tables.
pub type PolynomialIndex = usize;

/// How many polynomial slots the widgets' tables hold.
pub const MAX_NUM_POLYNOMIALS: usize = 35;

/// Slot of the left-wire selector.
pub const Q_1: PolynomialIndex = 0;

/// Slot of the right-wire selector.
pub const Q_2: PolynomialIndex = 1;

/// Slot of the output-wire selector.
pub const Q_3: PolynomialIndex = 2;

/// Slot of the multiplication selector.
pub const Q_M: PolynomialIndex = 5;

/// Slot of the constant selector.
pub const Q_C: PolynomialIndex = 6;

/// Slot of the left wire.
pub const W_1: PolynomialIndex = 26;

/// Slot of the right wire.
pub const W_2: PolynomialIndex = 27;

/// Slot of the output wire.
pub const W_3: PolynomialIndex = 28;

/// One entry of a polynomial manifest: the label under which the polynomial is
/// stored and opened, its slot, and whether it is also opened at the shifted point.
pub struct PolynomialDescriptor {
    pub polynomial_label: String,
    pub index: PolynomialIndex,
    pub requires_shifted_evaluation: bool,
}

/// The polynomials a circuit's proof commits to and opens, in order.
pub type PolynomialManifest = Vec<PolynomialDescriptor>;

/// The evaluation domain over which quotient contributions are accumulated.
pub struct EvaluationDomain {
    pub size: usize,
}

/// Polynomials in coefficient or coset-FFT form, stored by label; a later entry
/// under a label shadows an earlier one.
pub struct PolynomialStore {
    pub polynomials: Vec<(String, Vec<Fr>)>,
}

impl PolynomialStore {
    /// The polynomial stored under `label`.
    pub open spec fn polynomial(&self, label: Seq<char>) -> Option<Seq<Fr>> {
        match lookup(self.polynomials@, label) {
            Some(p) => Some(p@),
            None => None,
        }
    }

    /// A copy of the polynomial stored under `label`.
    pub fn get(&self, label: &String) -> (r: Vec<Fr>)
        requires
            self.polynomial(label@) is Some,
        ensures
            r@ == self.polynomial(label@).unwrap(),
    {
        let i = find_last(&self.polynomials, label).unwrap();
        proof {
            lemma_last_index_of(self.polynomials@, label@);
        }
        let src = &self.polynomials[i].1;
        let mut out: Vec<Fr> = Vec::new();
        let mut k: usize = 0;
        while k < src.len()
            invariant
                k <= src.len(),
                out@ =~= src@.take(k as int),
            decreases src.len() - k,
        {
            out.push(src[k]);
            k = k + 1;
        }
        assert(out@ =~= src@);
        out
    }
}

/// The prover's key: its evaluation domain, manifest, stored polynomials and the
/// quotient polynomial that transition widgets accumulate into.
pub struct ProvingKey {
    pub large_domain: EvaluationDomain,
    pub polynomial_manifest: PolynomialManifest,
    pub polynomial_store: PolynomialStore,
    pub quotient_polynomial: Vec<Fr>,
}

/// The verifier's key: the manifest of polynomials opened in the transcript.
pub struct TranscriptKey {
    pub polynomial_manifest: PolynomialManifest,
}

} // verus!
