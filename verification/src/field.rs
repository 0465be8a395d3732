use std::hash::BuildHasher;
use vstd::prelude::*;

verus! {

/// The prime modulus of the scalar field, 2^64 - 2^32 + 1.
pub const MODULUS: u64 = 0xffff_ffff_0000_0001;

/// An element of the scalar field, always held in canonical form (below `MODULUS`).
#[derive(Clone, Copy, PartialEq, Eq, Structural, Debug)]
pub struct Fr {
    val: u64,
}

impl View for Fr {
    type V = int;

    closed spec fn view(&self) -> int {
        self.val as int
    }
}

/// Field addition on canonical representatives.
pub open spec fn fr_add(a: int, b: int) -> int {
    (a + b) % (MODULUS as int)
}

/// Field multiplication on canonical representatives.
pub open spec fn fr_mul(a: int, b: int) -> int {
    (a * b) % (MODULUS as int)
}

impl Fr {
    #[verifier::type_invariant]
    pub closed spec fn is_canonical(self) -> bool {
        self.val < MODULUS
    }

    /// The additive identity.
    pub closed spec fn spec_zero() -> Fr {
        Fr { val: 0 }
    }

    /// The field element `self + other`.
    pub closed spec fn spec_add(self, other: Fr) -> Fr {
        Fr { val: ((self.val + other.val) % (MODULUS as int)) as u64 }
    }

    /// The field element `self * other`.
    pub closed spec fn spec_mul(self, other: Fr) -> Fr {
        Fr { val: ((self.val * other.val) % (MODULUS as int)) as u64 }
    }

    pub fn zero() -> (r: Fr)
        ensures
            r == Fr::spec_zero(),
            r@ == 0,
    {
        Fr { val: 0 }
    }

    pub fn one() -> (r: Fr)
        ensures
            r@ == 1,
    {
        Fr { val: 1 }
    }

    /// Reduces a machine integer into the field.
    pub fn from_u64(v: u64) -> (r: Fr)
        ensures
            r@ == v as int % (MODULUS as int),
    {
        Fr { val: v % MODULUS }
    }

    /// The canonical representative of this element.
    pub fn to_u64(&self) -> (r: u64)
        ensures
            r as int == self@,
            r < MODULUS,
    {
        proof {
            use_type_invariant(self);
        }
        self.val
    }

    pub fn add(self, other: Fr) -> (r: Fr)
        ensures
            r == self.spec_add(other),
            r@ == fr_add(self@, other@),
    {
        proof {
            use_type_invariant(&self);
            use_type_invariant(&other);
        }
        let s: u128 = self.val as u128 + other.val as u128;
        Fr { val: (s % (MODULUS as u128)) as u64 }
    }

    pub fn mul(self, other: Fr) -> (r: Fr)
        ensures
            r == self.spec_mul(other),
            r@ == fr_mul(self@, other@),
    {
        proof {
            use_type_invariant(&self);
            use_type_invariant(&other);
        }
        let a: u128 = self.val as u128;
        let b: u128 = other.val as u128;
        assert(a * b <= 0xffff_ffff_ffff_ffffu128 * 0xffff_ffff_ffff_ffffu128) by (nonlinear_arith)
            requires
                a <= 0xffff_ffff_ffff_ffffu128,
                b <= 0xffff_ffff_ffff_ffffu128,
        ;
        let p: u128 = a * b;
        Fr { val: (p % (MODULUS as u128)) as u64 }
    }

    /// A field element drawn from the process's hash-seeded randomness.
    pub fn random_element() -> (r: Fr) {
        let state = std::collections::hash_map::RandomState::new();
        Fr::from_u64(random_u64(&state))
    }
}

/// What the spec-level constants and operations mean on views; every view is
/// non-negative.
pub proof fn lemma_spec_ops_view(a: Fr, b: Fr)
    ensures
        0 <= a@,
        Fr::spec_zero()@ == 0,
        a.spec_add(b)@ == fr_add(a@, b@),
        a.spec_mul(b)@ == fr_mul(a@, b@),
{
}

/// A field element that satisfies its invariant has a canonical view.
pub proof fn lemma_canonical_view(a: Fr)
    requires
        a.is_canonical(),
    ensures
        0 <= a@ < MODULUS,
{
}

/// `std::collections::hash_map::RandomState::new`: a hasher builder with fresh
/// random keys; nothing is claimed of it.
pub assume_specification[ std::collections::hash_map::RandomState::new ]() -> std::collections::hash_map::RandomState;

/// Calls `std::hash::BuildHasher::hash_one` on `state`; nothing is claimed of
/// the value, which depends on the state's random keys.
#[verifier::external_body]
fn random_u64(state: &std::collections::hash_map::RandomState) -> u64 {
    state.hash_one(0u64)
}

} // verus!
