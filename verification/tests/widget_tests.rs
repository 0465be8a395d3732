use std::collections::{HashMap, HashSet};

use lib::field::{Fr, MODULUS};
use lib::arithmetic_kernel::ArithmeticKernel;
use lib::proving_key::{
    EvaluationDomain, PolynomialDescriptor, PolynomialStore, ProvingKey, TranscriptKey,
    MAX_NUM_POLYNOMIALS, Q_1, Q_2, Q_3, Q_C, Q_M, W_1, W_2, W_3,
};
use lib::transcript::Transcript;
use lib::transition_widget::{
    BaseGetter, ChallengeArray, ChallengeIndex, EvaluationGetter, FFTGetter, GenericVerifierWidget,
    KernelBase, PolyArray, PolyPtrMap, StandardGetters, TransitionWidget, TransitionWidgetBase,
    CHALLENGE_BIT_ALPHA, CHALLENGE_BIT_BETA, CHALLENGE_BIT_ETA, CHALLENGE_BIT_GAMMA,
    CHALLENGE_BIT_NU, CHALLENGE_BIT_ZETA,
};

fn fr(v: u64) -> Fr {
    Fr::from_u64(v)
}

fn s(label: &str) -> String {
    label.to_string()
}

fn full_transcript() -> Transcript {
    let mut t = Transcript::new();
    t.put_challenges(s("alpha"), vec![fr(3)]);
    t.put_challenges(s("beta"), vec![fr(5), fr(7)]);
    t.put_challenges(s("eta"), vec![fr(11)]);
    t.put_challenges(s("z"), vec![fr(13)]);
    t.put_challenges(s("nu"), vec![fr(17)]);
    t
}

#[test]
fn field_addition_wraps_at_the_modulus() {
    assert_eq!(fr(MODULUS - 1).add(fr(2)).to_u64(), 1);
    assert_eq!(fr(MODULUS).to_u64(), 0);
    assert_eq!(fr(MODULUS + 5).to_u64(), 5);
    assert_eq!(Fr::zero().add(fr(9)).to_u64(), 9);
}

#[test]
fn field_multiplication_reduces() {
    // 2^64 = 2^32 - 1 modulo 2^64 - 2^32 + 1
    assert_eq!(fr(1 << 32).mul(fr(1 << 32)).to_u64(), (1u64 << 32) - 1);
    assert_eq!(fr(6).mul(fr(7)).to_u64(), 42);
    assert_eq!(fr(MODULUS - 1).mul(fr(MODULUS - 1)).to_u64(), 1);
    assert_eq!(Fr::one().mul(fr(123)).to_u64(), 123);
}

#[test]
fn random_elements_are_canonical() {
    for _ in 0..16 {
        assert!(Fr::random_element().to_u64() < MODULUS);
    }
}

#[test]
fn transcript_reads_back_what_was_put_and_later_entries_shadow() {
    let mut t = Transcript::new();
    assert!(!t.has_challenge(&s("alpha")));
    t.put_challenges(s("alpha"), vec![fr(1)]);
    t.put_challenges(s("beta"), vec![fr(2), fr(3)]);
    t.put_challenges(s("alpha"), vec![fr(4), fr(5), fr(6)]);
    assert!(t.has_challenge(&s("alpha")));
    assert_eq!(t.get_num_challenges(&s("alpha")), 3);
    assert_eq!(t.get_challenge_field_element(&s("alpha"), 2), fr(6));
    assert_eq!(t.get_challenge_field_element(&s("beta"), 1), fr(3));
    t.put_field_element(s("w_1"), fr(10));
    t.put_field_element(s("w_1"), fr(11));
    assert_eq!(t.get_field_element(&s("w_1")), fr(11));
}

#[test]
fn polynomial_store_returns_the_last_stored_polynomial() {
    let store = PolynomialStore {
        polynomials: vec![
            (s("w_1_fft"), vec![fr(1), fr(2)]),
            (s("q_m_fft"), vec![fr(3)]),
            (s("w_1_fft"), vec![fr(4)]),
        ],
    };
    assert_eq!(store.get(&s("w_1_fft")), vec![fr(4)]);
    assert_eq!(store.get(&s("q_m_fft")), vec![fr(3)]);
}

#[test]
fn challenge_positions_and_bits() {
    assert_eq!(ChallengeIndex::Alpha.position(), 0);
    assert_eq!(ChallengeIndex::Beta.position(), 1);
    assert_eq!(ChallengeIndex::Gamma.position(), 2);
    assert_eq!(ChallengeIndex::Eta.position(), 3);
    assert_eq!(ChallengeIndex::Zeta.position(), 4);
    assert_eq!(ChallengeIndex::Nu.position(), 5);
    assert_eq!(ChallengeIndex::MaxNumChallenges.position(), 6);
    assert_eq!(CHALLENGE_BIT_ALPHA, 1 << ChallengeIndex::Alpha.position());
    assert_eq!(CHALLENGE_BIT_BETA, 1 << ChallengeIndex::Beta.position());
    assert_eq!(CHALLENGE_BIT_GAMMA, 1 << ChallengeIndex::Gamma.position());
    assert_eq!(CHALLENGE_BIT_ETA, 1 << ChallengeIndex::Eta.position());
    assert_eq!(CHALLENGE_BIT_ZETA, 1 << ChallengeIndex::Zeta.position());
    assert_eq!(CHALLENGE_BIT_NU, 1 << ChallengeIndex::Nu.position());
}

#[test]
fn get_challenges_reads_each_challenge_and_powers_of_alpha() {
    let t = full_transcript();
    let all = (CHALLENGE_BIT_ALPHA
        | CHALLENGE_BIT_BETA
        | CHALLENGE_BIT_GAMMA
        | CHALLENGE_BIT_ETA
        | CHALLENGE_BIT_ZETA
        | CHALLENGE_BIT_NU) as u8;
    let c: ChallengeArray<3> = <StandardGetters as BaseGetter<3>>::get_challenges(&t, fr(2), all);
    let elements: Vec<u64> = c.elements.iter().map(|e| e.to_u64()).collect();
    // gamma is the second "beta" challenge
    assert_eq!(elements, vec![3, 5, 7, 11, 13, 17]);
    let powers: Vec<u64> = c.alpha_powers.iter().map(|e| e.to_u64()).collect();
    assert_eq!(powers, vec![2, 6, 18]);
}

#[test]
fn update_alpha_gives_the_next_power() {
    let t = full_transcript();
    let c: ChallengeArray<3> = <StandardGetters as BaseGetter<3>>::get_challenges(&t, fr(2), 0);
    assert_eq!(<StandardGetters as BaseGetter<3>>::update_alpha(&c, 0).to_u64(), 2);
    assert_eq!(<StandardGetters as BaseGetter<3>>::update_alpha(&c, 1).to_u64(), 6);
    assert_eq!(<StandardGetters as BaseGetter<3>>::update_alpha(&c, 2).to_u64(), 18);
    assert_eq!(<StandardGetters as BaseGetter<3>>::update_alpha(&c, 3).to_u64(), 54);
}

#[test]
fn absent_challenges_that_are_not_required_are_drawn_at_random() {
    let mut t = Transcript::new();
    t.put_challenges(s("eta"), vec![fr(11)]);
    let c: ChallengeArray<4> =
        <StandardGetters as BaseGetter<4>>::get_challenges(&t, fr(5), CHALLENGE_BIT_ETA as u8);
    assert_eq!(c.elements[3], fr(11));
    let alpha = c.elements[0];
    assert_eq!(c.alpha_powers[0], fr(5));
    for i in 1..4 {
        assert_eq!(c.alpha_powers[i], c.alpha_powers[i - 1].mul(alpha));
    }
    assert_eq!(
        <StandardGetters as BaseGetter<4>>::update_alpha(&c, 4),
        c.alpha_powers[3].mul(alpha)
    );
}

fn descriptor(label: &str, index: usize, shifted: bool) -> PolynomialDescriptor {
    PolynomialDescriptor {
        polynomial_label: s(label),
        index,
        requires_shifted_evaluation: shifted,
    }
}

#[test]
fn polynomial_evaluations_fill_each_entry_slot() {
    let mut t = Transcript::new();
    t.put_field_element(s("w_1"), fr(10));
    t.put_field_element(s("w_1_omega"), fr(20));
    t.put_field_element(s("q_m"), fr(30));
    t.put_field_element(s("q_m_omega"), fr(99));
    let manifest = vec![descriptor("w_1", 0, true), descriptor("q_m", 3, false)];
    let evals: PolyArray =
        <StandardGetters as EvaluationGetter<1>>::get_polynomial_evaluations(&manifest, &t);
    assert_eq!(evals[0], (fr(10), fr(20)));
    assert_eq!(evals[3], (fr(30), Fr::zero()));
    for i in 0..MAX_NUM_POLYNOMIALS {
        if i != 0 && i != 3 {
            assert_eq!(evals[i], (Fr::zero(), Fr::zero()));
        }
    }
    assert_eq!(*<StandardGetters as EvaluationGetter<1>>::get_value::<true, 0>(&evals), fr(20));
    assert_eq!(*<StandardGetters as EvaluationGetter<1>>::get_value::<false, 0>(&evals), fr(10));
    assert_eq!(*<StandardGetters as EvaluationGetter<1>>::get_value::<false, 3>(&evals), fr(30));
}

#[test]
fn later_manifest_entry_overwrites_a_shared_slot() {
    let mut t = Transcript::new();
    t.put_field_element(s("a"), fr(1));
    t.put_field_element(s("a_omega"), fr(2));
    t.put_field_element(s("b"), fr(3));
    let manifest = vec![descriptor("a", 5, true), descriptor("b", 5, false)];
    let evals = <StandardGetters as EvaluationGetter<1>>::get_polynomial_evaluations(&manifest, &t);
    assert_eq!(evals[5], (fr(3), Fr::zero()));
}

/// Selector and wire values of the test circuit at position `i`:
/// (q_1, q_2, q_3, q_m, q_c, w_1, w_2, w_3).
fn constraint_values(i: u64) -> [u64; 8] {
    [1 + i, 2, 3, i, 5, 10 + i, 20, 30 + i]
}

const CONSTRAINT_LABELS: [(&str, usize); 8] = [
    ("q_1", Q_1),
    ("q_2", Q_2),
    ("q_3", Q_3),
    ("q_m", Q_M),
    ("q_c", Q_C),
    ("w_1", W_1),
    ("w_2", W_2),
    ("w_3", W_3),
];

fn constraint(v: [u64; 8]) -> u64 {
    let [q_1, q_2, q_3, q_m, q_c, w_1, w_2, w_3] = v;
    q_m * w_1 * w_2 + q_1 * w_1 + q_2 * w_2 + q_3 * w_3 + q_c
}

fn arithmetic_key(size: usize, quotient_len: usize) -> ProvingKey {
    let mut polynomials = Vec::new();
    let mut manifest = Vec::new();
    for (k, (label, index)) in CONSTRAINT_LABELS.iter().enumerate() {
        let values: Vec<Fr> = (0..size as u64).map(|i| fr(constraint_values(i)[k])).collect();
        polynomials.push((format!("{}_fft", label), values));
        polynomials.push((label.to_string(), vec![fr(999)]));
        manifest.push(descriptor(label, *index, false));
    }
    ProvingKey {
        large_domain: EvaluationDomain { size },
        polynomial_manifest: manifest,
        polynomial_store: PolynomialStore { polynomials },
        quotient_polynomial: (0..quotient_len as u64).map(|v| fr(v)).collect(),
    }
}

#[test]
fn get_polynomials_collects_required_fft_forms() {
    let key = arithmetic_key(8, 8);
    let mut required = HashSet::new();
    required.insert(W_1);
    required.insert(Q_M);
    let polys = <StandardGetters as FFTGetter<1>>::get_polynomials(&key, &required);
    assert_eq!(polys.block_mask, 7);
    assert_eq!(polys.index_shift, 4);
    assert_eq!(polys.coefficients.len(), 2);
    assert_eq!(polys.coefficients[&W_1][3], fr(13));
    assert_eq!(polys.coefficients[&Q_M][6], fr(6));
    assert!(!polys.coefficients.contains_key(&Q_1));
}

#[test]
fn shifted_fft_reads_wrap_around_the_domain() {
    let key = arithmetic_key(8, 8);
    let mut required = HashSet::new();
    required.insert(W_1);
    let polys = <StandardGetters as FFTGetter<1>>::get_polynomials(&key, &required);
    assert_eq!(*<StandardGetters as FFTGetter<1>>::get_value::<false, W_1>(&polys, 6), fr(16));
    // (6 + 4) & 7 == 2
    assert_eq!(*<StandardGetters as FFTGetter<1>>::get_value::<true, W_1>(&polys, 6), fr(12));
    assert_eq!(*<StandardGetters as FFTGetter<1>>::get_value::<true, W_1>(&polys, 1), fr(15));
}

#[test]
fn arithmetic_kernel_reads_the_constraint_slots_and_alpha() {
    let ids = <ArithmeticKernel as KernelBase<PolyPtrMap, 1>>::get_required_polynomial_ids();
    let mut expected = HashSet::new();
    for (_, index) in CONSTRAINT_LABELS.iter() {
        expected.insert(*index);
    }
    assert_eq!(ids, expected);
    assert_eq!(
        <ArithmeticKernel as KernelBase<PolyArray, 1>>::quotient_required_challenges(),
        CHALLENGE_BIT_ALPHA as u8
    );
    assert_eq!(
        <ArithmeticKernel as KernelBase<PolyArray, 1>>::update_required_challenges(),
        CHALLENGE_BIT_ALPHA as u8
    );
}

#[test]
fn transition_widget_new_holds_the_key() {
    let base = TransitionWidgetBase::new(None);
    assert!(base.key.is_none());
    let widget: TransitionWidget<ArithmeticKernel, StandardGetters, 1> =
        TransitionWidget::new(Some(arithmetic_key(4, 4)));
    assert_eq!(widget.base.key.as_ref().unwrap().large_domain.size, 4);
}

#[test]
fn prover_widget_adds_the_constraint_over_the_domain() {
    let size = 8usize;
    let mut widget: TransitionWidget<ArithmeticKernel, StandardGetters, 1> =
        TransitionWidget::new(Some(arithmetic_key(size, size + 2)));
    let t = full_transcript();
    let next = widget.compute_quotient_contribution(fr(2), &t);
    // α = 3: the next widget starts from 2·3
    assert_eq!(next.to_u64(), 6);
    let key = widget.base.key.as_ref().unwrap();
    assert_eq!(key.quotient_polynomial.len(), size + 2);
    for i in 0..size as u64 {
        assert_eq!(key.quotient_polynomial[i as usize].to_u64(), i + 2 * constraint(constraint_values(i)));
    }
    // values past the domain are left as they were
    assert_eq!(key.quotient_polynomial[size], fr(size as u64));
    assert_eq!(key.quotient_polynomial[size + 1], fr(size as u64 + 1));
}

#[test]
fn prover_widgets_chain_their_alpha_powers() {
    let mut first: TransitionWidget<ArithmeticKernel, StandardGetters, 1> =
        TransitionWidget::new(Some(arithmetic_key(4, 4)));
    let t = full_transcript();
    let alpha_1 = first.compute_quotient_contribution(fr(1), &t);
    let mut second: TransitionWidget<ArithmeticKernel, StandardGetters, 1> =
        TransitionWidget::new(Some(arithmetic_key(4, 4)));
    let alpha_2 = second.compute_quotient_contribution(alpha_1, &t);
    assert_eq!(alpha_1.to_u64(), 3);
    assert_eq!(alpha_2.to_u64(), 9);
    let q = &second.base.key.as_ref().unwrap().quotient_polynomial;
    assert_eq!(q[1].to_u64(), 1 + 3 * constraint(constraint_values(1)));
}

fn verifier_transcript(at: u64) -> Transcript {
    let mut t = full_transcript();
    for (k, (label, _)) in CONSTRAINT_LABELS.iter().enumerate() {
        t.put_field_element(label.to_string(), fr(constraint_values(at)[k]));
    }
    t
}

fn verifier_key() -> TranscriptKey {
    TranscriptKey {
        polynomial_manifest: CONSTRAINT_LABELS
            .iter()
            .map(|(label, index)| descriptor(label, *index, false))
            .collect(),
    }
}

#[test]
fn verifier_widget_adds_the_constraint_at_the_openings() {
    let t = verifier_transcript(4);
    let mut numerator = fr(1000);
    let next = GenericVerifierWidget::<ArithmeticKernel, StandardGetters, 1>::compute_quotient_evaluation_contribution(
        &verifier_key(),
        fr(2),
        &t,
        &mut numerator,
    );
    assert_eq!(next.to_u64(), 6);
    assert_eq!(numerator.to_u64(), 1000 + 2 * constraint(constraint_values(4)));
}

#[test]
fn prover_and_verifier_agree_at_a_domain_point() {
    let mut widget: TransitionWidget<ArithmeticKernel, StandardGetters, 1> =
        TransitionWidget::new(Some(arithmetic_key(8, 8)));
    let t = verifier_transcript(5);
    widget.compute_quotient_contribution(fr(7), &t);
    let prover_value = widget.base.key.as_ref().unwrap().quotient_polynomial[5];
    let mut numerator = fr(5);
    GenericVerifierWidget::<ArithmeticKernel, StandardGetters, 1>::compute_quotient_evaluation_contribution(
        &verifier_key(),
        fr(7),
        &t,
        &mut numerator,
    );
    assert_eq!(prover_value, numerator);
}

#[test]
fn scalar_multiplication_inputs_are_left_alone() {
    let t = full_transcript();
    let mut inputs: HashMap<String, Fr> = HashMap::new();
    inputs.insert(s("w_1"), fr(4));
    let next = GenericVerifierWidget::<ArithmeticKernel, StandardGetters, 1>::append_scalar_multiplication_inputs(
        &verifier_key(),
        fr(5),
        &t,
        &mut inputs,
    );
    assert_eq!(next.to_u64(), 15);
    assert_eq!(inputs.len(), 1);
    assert_eq!(inputs[&s("w_1")], fr(4));
}
