use std::collections::HashSet;
use vstd::prelude::*;

use crate::field::{fr_add, fr_mul, lemma_spec_ops_view, Fr, MODULUS};
use crate::proving_key::{PolynomialIndex, Q_1, Q_2, Q_3, Q_C, Q_M, W_1, W_2, W_3};
use crate::transition_widget::{
    quotient_term_update, ChallengeArray, CoefficientArray, EvaluationGetter, FFTGetter, KernelBase, PolyArray,
    PolyPtrMap, PolyPtrMapView, StandardGetters, CHALLENGE_BIT_ALPHA,
};

verus! {

/// The standard arithmetic constraint, a single relation:
/// `α_base · (q_m·w_1·w_2 + q_1·w_1 + q_2·w_2 + q_3·w_3 + q_c)`.
pub struct ArithmeticKernel;

/// The selector and wire slots the arithmetic constraint reads.
pub open spec fn arithmetic_polynomial_ids() -> Set<PolynomialIndex> {
    set![Q_1, Q_2, Q_3, Q_M, Q_C, W_1, W_2, W_3]
}

/// Linear terms of the constraint: `w_1·w_2`, `w_1`, `w_2` and `w_3` in slots 0 to 3.
pub open spec fn arithmetic_linear_terms(linear_terms: Seq<Fr>, w_1: Fr, w_2: Fr, w_3: Fr) -> Seq<Fr> {
    linear_terms.update(0, w_1.spec_mul(w_2)).update(1, w_1).update(2, w_2).update(3, w_3)
}

/// Linear terms of the constraint weighted by their selectors, plus `q_c`, times `α_base`.
pub open spec fn arithmetic_sum(
    linear_terms: Seq<Fr>,
    q_1: Fr,
    q_2: Fr,
    q_3: Fr,
    q_m: Fr,
    q_c: Fr,
    alpha_base: Fr,
) -> Fr {
    linear_terms[0].spec_mul(q_m).spec_add(linear_terms[1].spec_mul(q_1)).spec_add(
        linear_terms[2].spec_mul(q_2),
    ).spec_add(linear_terms[3].spec_mul(q_3)).spec_add(q_c).spec_mul(alpha_base)
}

/// The value of slot `id` at position `index` of a coset-FFT polynomial map.
pub open spec fn fft_value(polynomials: PolyPtrMapView, id: PolynomialIndex, index: usize) -> Fr {
    polynomials.coefficients[id][index as int]
}

/// Slot `id` is in the map and has a value at `index`.
pub open spec fn fft_readable(polynomials: PolyPtrMapView, id: PolynomialIndex, index: usize) -> bool {
    polynomials.coefficients.contains_key(id) && index < polynomials.coefficients[id].len()
}

/// The opening of slot `id` at ζ.
pub open spec fn opening(polynomials: Seq<(Fr, Fr)>, id: PolynomialIndex) -> Fr {
    polynomials[id as int].0
}

fn arithmetic_ids() -> (r: HashSet<PolynomialIndex>)
    ensures
        r@ == arithmetic_polynomial_ids(),
{
    broadcast use vstd::std_specs::hash::group_hash_axioms;

    let mut ids: HashSet<PolynomialIndex> = HashSet::new();
    ids.insert(Q_1);
    ids.insert(Q_2);
    ids.insert(Q_3);
    ids.insert(Q_M);
    ids.insert(Q_C);
    ids.insert(W_1);
    ids.insert(W_2);
    ids.insert(W_3);
    assert(ids@ =~= arithmetic_polynomial_ids());
    ids
}

/// Sum of the constraint from the linear terms and the selector values.
fn weighted_sum(
    linear_terms: &CoefficientArray,
    q_1: Fr,
    q_2: Fr,
    q_3: Fr,
    q_m: Fr,
    q_c: Fr,
    alpha_base: Fr,
) -> (r: Fr)
    ensures
        r == arithmetic_sum(linear_terms@, q_1, q_2, q_3, q_m, q_c, alpha_base),
{
    let mut result = linear_terms[0].mul(q_m);
    result = result.add(linear_terms[1].mul(q_1));
    result = result.add(linear_terms[2].mul(q_2));
    result = result.add(linear_terms[3].mul(q_3));
    result = result.add(q_c);
    result.mul(alpha_base)
}

impl KernelBase<PolyPtrMap, 1> for ArithmeticKernel {
    open spec fn spec_required_polynomial_ids() -> Set<PolynomialIndex> {
        arithmetic_polynomial_ids()
    }

    open spec fn spec_quotient_required_challenges() -> u8 {
        CHALLENGE_BIT_ALPHA as u8
    }

    open spec fn spec_update_required_challenges() -> u8 {
        CHALLENGE_BIT_ALPHA as u8
    }

    open spec fn spec_linear_terms(
        polynomials: PolyPtrMapView,
        challenges: ChallengeArray<1>,
        linear_terms: Seq<Fr>,
        index: usize,
    ) -> Seq<Fr> {
        arithmetic_linear_terms(
            linear_terms,
            fft_value(polynomials, W_1, index),
            fft_value(polynomials, W_2, index),
            fft_value(polynomials, W_3, index),
        )
    }

    open spec fn spec_sum_linear_terms(
        polynomials: PolyPtrMapView,
        challenges: ChallengeArray<1>,
        linear_terms: Seq<Fr>,
        index: usize,
    ) -> Fr {
        arithmetic_sum(
            linear_terms,
            fft_value(polynomials, Q_1, index),
            fft_value(polynomials, Q_2, index),
            fft_value(polynomials, Q_3, index),
            fft_value(polynomials, Q_M, index),
            fft_value(polynomials, Q_C, index),
            challenges.alpha_powers[0],
        )
    }

    open spec fn spec_can_evaluate(polynomials: PolyPtrMapView, index: usize) -> bool {
        forall|id: PolynomialIndex|
            arithmetic_polynomial_ids().contains(id) ==> #[trigger] fft_readable(polynomials, id, index)
    }

    open spec fn spec_non_linear_terms(
        polynomials: PolyPtrMapView,
        challenges: ChallengeArray<1>,
        quotient_term: Fr,
        index: usize,
    ) -> Fr {
        quotient_term
    }

    fn get_required_polynomial_ids() -> (r: HashSet<PolynomialIndex>) {
        arithmetic_ids()
    }

    fn quotient_required_challenges() -> (r: u8) {
        CHALLENGE_BIT_ALPHA as u8
    }

    fn update_required_challenges() -> (r: u8) {
        CHALLENGE_BIT_ALPHA as u8
    }

    fn compute_linear_terms(
        polynomials: &PolyPtrMap,
        challenges: &ChallengeArray<1>,
        linear_terms: &mut CoefficientArray,
        index: usize,
    ) {
        assert(fft_readable(polynomials@, W_1, index));
        assert(fft_readable(polynomials@, W_2, index));
        assert(fft_readable(polynomials@, W_3, index));
        let w_1 = *<StandardGetters as FFTGetter<1>>::get_value::<false, W_1>(polynomials, index);
        let w_2 = *<StandardGetters as FFTGetter<1>>::get_value::<false, W_2>(polynomials, index);
        let w_3 = *<StandardGetters as FFTGetter<1>>::get_value::<false, W_3>(polynomials, index);
        linear_terms[0] = w_1.mul(w_2);
        linear_terms[1] = w_1;
        linear_terms[2] = w_2;
        linear_terms[3] = w_3;
    }

    fn sum_linear_terms(
        polynomials: &PolyPtrMap,
        challenges: &ChallengeArray<1>,
        linear_terms: &CoefficientArray,
        index: usize,
    ) -> (r: Fr) {
        assert(fft_readable(polynomials@, Q_1, index));
        assert(fft_readable(polynomials@, Q_2, index));
        assert(fft_readable(polynomials@, Q_3, index));
        assert(fft_readable(polynomials@, Q_M, index));
        assert(fft_readable(polynomials@, Q_C, index));
        let q_1 = *<StandardGetters as FFTGetter<1>>::get_value::<false, Q_1>(polynomials, index);
        let q_2 = *<StandardGetters as FFTGetter<1>>::get_value::<false, Q_2>(polynomials, index);
        let q_3 = *<StandardGetters as FFTGetter<1>>::get_value::<false, Q_3>(polynomials, index);
        let q_m = *<StandardGetters as FFTGetter<1>>::get_value::<false, Q_M>(polynomials, index);
        let q_c = *<StandardGetters as FFTGetter<1>>::get_value::<false, Q_C>(polynomials, index);
        weighted_sum(linear_terms, q_1, q_2, q_3, q_m, q_c, challenges.alpha_powers[0])
    }

    fn compute_non_linear_terms(
        polynomials: &PolyPtrMap,
        challenges: &ChallengeArray<1>,
        quotient_term: &mut Fr,
        index: usize,
    ) {
    }
}

impl KernelBase<PolyArray, 1> for ArithmeticKernel {
    open spec fn spec_required_polynomial_ids() -> Set<PolynomialIndex> {
        arithmetic_polynomial_ids()
    }

    open spec fn spec_quotient_required_challenges() -> u8 {
        CHALLENGE_BIT_ALPHA as u8
    }

    open spec fn spec_update_required_challenges() -> u8 {
        CHALLENGE_BIT_ALPHA as u8
    }

    open spec fn spec_linear_terms(
        polynomials: Seq<(Fr, Fr)>,
        challenges: ChallengeArray<1>,
        linear_terms: Seq<Fr>,
        index: usize,
    ) -> Seq<Fr> {
        arithmetic_linear_terms(
            linear_terms,
            opening(polynomials, W_1),
            opening(polynomials, W_2),
            opening(polynomials, W_3),
        )
    }

    open spec fn spec_sum_linear_terms(
        polynomials: Seq<(Fr, Fr)>,
        challenges: ChallengeArray<1>,
        linear_terms: Seq<Fr>,
        index: usize,
    ) -> Fr {
        arithmetic_sum(
            linear_terms,
            opening(polynomials, Q_1),
            opening(polynomials, Q_2),
            opening(polynomials, Q_3),
            opening(polynomials, Q_M),
            opening(polynomials, Q_C),
            challenges.alpha_powers[0],
        )
    }

    open spec fn spec_can_evaluate(polynomials: Seq<(Fr, Fr)>, index: usize) -> bool {
        true
    }

    open spec fn spec_non_linear_terms(
        polynomials: Seq<(Fr, Fr)>,
        challenges: ChallengeArray<1>,
        quotient_term: Fr,
        index: usize,
    ) -> Fr {
        quotient_term
    }

    fn get_required_polynomial_ids() -> (r: HashSet<PolynomialIndex>) {
        arithmetic_ids()
    }

    fn quotient_required_challenges() -> (r: u8) {
        CHALLENGE_BIT_ALPHA as u8
    }

    fn update_required_challenges() -> (r: u8) {
        CHALLENGE_BIT_ALPHA as u8
    }

    fn compute_linear_terms(
        polynomials: &PolyArray,
        challenges: &ChallengeArray<1>,
        linear_terms: &mut CoefficientArray,
        index: usize,
    ) {
        let w_1 = *<StandardGetters as EvaluationGetter<1>>::get_value::<false, W_1>(polynomials);
        let w_2 = *<StandardGetters as EvaluationGetter<1>>::get_value::<false, W_2>(polynomials);
        let w_3 = *<StandardGetters as EvaluationGetter<1>>::get_value::<false, W_3>(polynomials);
        linear_terms[0] = w_1.mul(w_2);
        linear_terms[1] = w_1;
        linear_terms[2] = w_2;
        linear_terms[3] = w_3;
    }

    fn sum_linear_terms(
        polynomials: &PolyArray,
        challenges: &ChallengeArray<1>,
        linear_terms: &CoefficientArray,
        index: usize,
    ) -> (r: Fr) {
        let q_1 = *<StandardGetters as EvaluationGetter<1>>::get_value::<false, Q_1>(polynomials);
        let q_2 = *<StandardGetters as EvaluationGetter<1>>::get_value::<false, Q_2>(polynomials);
        let q_3 = *<StandardGetters as EvaluationGetter<1>>::get_value::<false, Q_3>(polynomials);
        let q_m = *<StandardGetters as EvaluationGetter<1>>::get_value::<false, Q_M>(polynomials);
        let q_c = *<StandardGetters as EvaluationGetter<1>>::get_value::<false, Q_C>(polynomials);
        weighted_sum(linear_terms, q_1, q_2, q_3, q_m, q_c, challenges.alpha_powers[0])
    }

    fn compute_non_linear_terms(
        polynomials: &PolyArray,
        challenges: &ChallengeArray<1>,
        quotient_term: &mut Fr,
        index: usize,
    ) {
    }
}

/// The prover and the verifier apply the same relation: where each opening at
/// ζ equals the coset-FFT value at `index`, the verifier's update of a quotient
/// value equals the prover's update at `index`.
pub proof fn lemma_prover_and_verifier_agree(
    polynomials: PolyPtrMapView,
    openings: Seq<(Fr, Fr)>,
    challenges: ChallengeArray<1>,
    quotient_term: Fr,
    index: usize,
)
    requires
        forall|id: PolynomialIndex|
            arithmetic_polynomial_ids().contains(id) ==> #[trigger] opening(openings, id) == fft_value(
                polynomials,
                id,
                index,
            ),
    ensures
        quotient_term_update::<PolyArray, ArithmeticKernel, 1>(openings, challenges, quotient_term, 0)
            == quotient_term_update::<PolyPtrMap, ArithmeticKernel, 1>(
            polynomials,
            challenges,
            quotient_term,
            index,
        ),
{
    assert(opening(openings, W_1) == fft_value(polynomials, W_1, index));
    assert(opening(openings, W_2) == fft_value(polynomials, W_2, index));
    assert(opening(openings, W_3) == fft_value(polynomials, W_3, index));
    assert(opening(openings, Q_1) == fft_value(polynomials, Q_1, index));
    assert(opening(openings, Q_2) == fft_value(polynomials, Q_2, index));
    assert(opening(openings, Q_3) == fft_value(polynomials, Q_3, index));
    assert(opening(openings, Q_M) == fft_value(polynomials, Q_M, index));
    assert(opening(openings, Q_C) == fft_value(polynomials, Q_C, index));
}

/// `q_m·w_1·w_2 + q_1·w_1 + q_2·w_2 + q_3·w_3 + q_c` in the field.
pub open spec fn arithmetic_constraint(
    q_1: int,
    q_2: int,
    q_3: int,
    q_m: int,
    q_c: int,
    w_1: int,
    w_2: int,
    w_3: int,
) -> int {
    fr_add(
        fr_add(fr_add(fr_add(fr_mul(fr_mul(w_1, w_2), q_m), fr_mul(w_1, q_1)), fr_mul(w_2, q_2)), fr_mul(w_3, q_3)),
        q_c,
    )
}

/// The prover's update of a quotient value `q` at `index` adds
/// `α_base · (q_m·w_1·w_2 + q_1·w_1 + q_2·w_2 + q_3·w_3 + q_c)` at `index` to `q`.
pub proof fn lemma_prover_update_value(
    polynomials: PolyPtrMapView,
    challenges: ChallengeArray<1>,
    q: Fr,
    index: usize,
)
    ensures
        quotient_term_update::<PolyPtrMap, ArithmeticKernel, 1>(polynomials, challenges, q, index)@
            == fr_add(
            q@,
            fr_mul(
                arithmetic_constraint(
                    fft_value(polynomials, Q_1, index)@,
                    fft_value(polynomials, Q_2, index)@,
                    fft_value(polynomials, Q_3, index)@,
                    fft_value(polynomials, Q_M, index)@,
                    fft_value(polynomials, Q_C, index)@,
                    fft_value(polynomials, W_1, index)@,
                    fft_value(polynomials, W_2, index)@,
                    fft_value(polynomials, W_3, index)@,
                ),
                challenges.alpha_powers[0]@,
            ),
        ),
{
    lemma_constraint_value(
        fft_value(polynomials, Q_1, index),
        fft_value(polynomials, Q_2, index),
        fft_value(polynomials, Q_3, index),
        fft_value(polynomials, Q_M, index),
        fft_value(polynomials, Q_C, index),
        fft_value(polynomials, W_1, index),
        fft_value(polynomials, W_2, index),
        fft_value(polynomials, W_3, index),
        challenges.alpha_powers[0],
        q,
    );
}

/// The verifier's update of the numerator `q` adds
/// `α_base · (q_m·w_1·w_2 + q_1·w_1 + q_2·w_2 + q_3·w_3 + q_c)` over the
/// openings at ζ to `q`.
pub proof fn lemma_verifier_update_value(
    openings: Seq<(Fr, Fr)>,
    challenges: ChallengeArray<1>,
    q: Fr,
)
    ensures
        quotient_term_update::<PolyArray, ArithmeticKernel, 1>(openings, challenges, q, 0)@ == fr_add(
            q@,
            fr_mul(
                arithmetic_constraint(
                    opening(openings, Q_1)@,
                    opening(openings, Q_2)@,
                    opening(openings, Q_3)@,
                    opening(openings, Q_M)@,
                    opening(openings, Q_C)@,
                    opening(openings, W_1)@,
                    opening(openings, W_2)@,
                    opening(openings, W_3)@,
                ),
                challenges.alpha_powers[0]@,
            ),
        ),
{
    lemma_constraint_value(
        opening(openings, Q_1),
        opening(openings, Q_2),
        opening(openings, Q_3),
        opening(openings, Q_M),
        opening(openings, Q_C),
        opening(openings, W_1),
        opening(openings, W_2),
        opening(openings, W_3),
        challenges.alpha_powers[0],
        q,
    );
}

/// Each update is additive in the incoming value: for every canonical `q`, the
/// new value is `q` plus the update of zero, for the prover at any position
/// and for the verifier.
pub proof fn lemma_updates_are_additive(
    polynomials: PolyPtrMapView,
    openings: Seq<(Fr, Fr)>,
    challenges: ChallengeArray<1>,
    q: Fr,
    index: usize,
)
    requires
        q@ < MODULUS,
    ensures
        quotient_term_update::<PolyPtrMap, ArithmeticKernel, 1>(polynomials, challenges, q, index)@
            == fr_add(
            q@,
            quotient_term_update::<PolyPtrMap, ArithmeticKernel, 1>(
                polynomials,
                challenges,
                Fr::spec_zero(),
                index,
            )@,
        ),
        quotient_term_update::<PolyArray, ArithmeticKernel, 1>(openings, challenges, q, 0)@ == fr_add(
            q@,
            quotient_term_update::<PolyArray, ArithmeticKernel, 1>(
                openings,
                challenges,
                Fr::spec_zero(),
                0,
            )@,
        ),
{
    lemma_spec_ops_view(q, q);
    lemma_prover_update_value(polynomials, challenges, q, index);
    lemma_prover_update_value(polynomials, challenges, Fr::spec_zero(), index);
    lemma_verifier_update_value(openings, challenges, q);
    lemma_verifier_update_value(openings, challenges, Fr::spec_zero());
    let m = MODULUS as int;
    assert forall|x: int| #![trigger fr_add(0, x)] 0 <= x ==> fr_add(0, x) == x % m by {}
    assert forall|x: int| #![trigger fr_add(q@, x % m)] fr_add(q@, x % m) == fr_add(q@, x) by {
        vstd::arithmetic::div_mod::lemma_add_mod_noop(q@, x, m);
        vstd::arithmetic::div_mod::lemma_mod_twice(x, m);
        vstd::arithmetic::div_mod::lemma_small_mod(q@ as nat, m as nat);
    }
}

/// The arithmetic relation computed with field operations, on views.
proof fn lemma_constraint_value(
    q_1: Fr,
    q_2: Fr,
    q_3: Fr,
    q_m: Fr,
    q_c: Fr,
    w_1: Fr,
    w_2: Fr,
    w_3: Fr,
    alpha_base: Fr,
    q: Fr,
)
    ensures
        q.spec_add(
            arithmetic_sum(
                arithmetic_linear_terms(
                    Seq::new(crate::proving_key::MAX_NUM_POLYNOMIALS as nat, |j: int| Fr::spec_zero()),
                    w_1,
                    w_2,
                    w_3,
                ),
                q_1,
                q_2,
                q_3,
                q_m,
                q_c,
                alpha_base,
            ),
        )@ == fr_add(
            q@,
            fr_mul(arithmetic_constraint(q_1@, q_2@, q_3@, q_m@, q_c@, w_1@, w_2@, w_3@), alpha_base@),
        ),
{
    let lt = arithmetic_linear_terms(
        Seq::new(crate::proving_key::MAX_NUM_POLYNOMIALS as nat, |j: int| Fr::spec_zero()),
        w_1,
        w_2,
        w_3,
    );
    assert(lt[0] == w_1.spec_mul(w_2));
    assert(lt[1] == w_1);
    assert(lt[2] == w_2);
    assert(lt[3] == w_3);
    lemma_spec_ops_view(w_1, w_2);
    let a = lt[0].spec_mul(q_m);
    lemma_spec_ops_view(lt[0], q_m);
    lemma_spec_ops_view(w_1, q_1);
    lemma_spec_ops_view(w_2, q_2);
    lemma_spec_ops_view(w_3, q_3);
    let b = a.spec_add(w_1.spec_mul(q_1));
    lemma_spec_ops_view(a, w_1.spec_mul(q_1));
    let c = b.spec_add(w_2.spec_mul(q_2));
    lemma_spec_ops_view(b, w_2.spec_mul(q_2));
    let d = c.spec_add(w_3.spec_mul(q_3));
    lemma_spec_ops_view(c, w_3.spec_mul(q_3));
    let e = d.spec_add(q_c);
    lemma_spec_ops_view(d, q_c);
    let f = e.spec_mul(alpha_base);
    lemma_spec_ops_view(e, alpha_base);
    lemma_spec_ops_view(q, f);
}

} // verus!
