use vstd::prelude::*;

use vstd::arithmetic::div_mod::lemma_mul_mod_noop_left;
use vstd::arithmetic::power::pow;
use vstd::array::array_fill_for_copy_types;
use vstd::arithmetic::power2::{lemma_pow2_pos, pow2};
use vstd::bits::{low_bits_mask, lemma_usize_low_bits_mask_is_mod, lemma_usize_pow2_no_overflow};

use crate::field::{fr_add, fr_mul, lemma_canonical_view, lemma_spec_ops_view, Fr, MODULUS};
use crate::proving_key::{
    PolynomialDescriptor, PolynomialIndex, PolynomialManifest, PolynomialStore, ProvingKey,
    TranscriptKey, MAX_NUM_POLYNOMIALS,
};
use crate::transcript::Transcript;
use std::collections::{HashMap, HashSet};
use std::marker::PhantomData;

verus! {

/// The challenges a widget may draw from the transcript, in the order of their
/// slots in a `ChallengeArray`.
pub enum ChallengeIndex {
    Alpha,
    Beta,
    Gamma,
    Eta,
    Zeta,
    Nu,
    MaxNumChallenges,
}

impl ChallengeIndex {
    pub open spec fn spec_position(&self) -> usize {
        match self {
            ChallengeIndex::Alpha => 0,
            ChallengeIndex::Beta => 1,
            ChallengeIndex::Gamma => 2,
            ChallengeIndex::Eta => 3,
            ChallengeIndex::Zeta => 4,
            ChallengeIndex::Nu => 5,
            ChallengeIndex::MaxNumChallenges => 6,
        }
    }

    /// The slot of this challenge in a `ChallengeArray`.
    #[verifier::when_used_as_spec(spec_position)]
    pub fn position(&self) -> (r: usize)
        ensures
            r == self.spec_position(),
    {
        match self {
            ChallengeIndex::Alpha => 0,
            ChallengeIndex::Beta => 1,
            ChallengeIndex::Gamma => 2,
            ChallengeIndex::Eta => 3,
            ChallengeIndex::Zeta => 4,
            ChallengeIndex::Nu => 5,
            ChallengeIndex::MaxNumChallenges => 6,
        }
    }
}

/// How many challenge slots a `ChallengeArray` holds.
pub const NUM_CHALLENGES: usize = 6;

/// Bit of a required-challenges mask that asks for α.
pub const CHALLENGE_BIT_ALPHA: usize = 1;

/// Bit of a required-challenges mask that asks for β.
pub const CHALLENGE_BIT_BETA: usize = 2;

/// Bit of a required-challenges mask that asks for γ.
pub const CHALLENGE_BIT_GAMMA: usize = 4;

/// Bit of a required-challenges mask that asks for η.
pub const CHALLENGE_BIT_ETA: usize = 8;

/// Bit of a required-challenges mask that asks for ζ.
pub const CHALLENGE_BIT_ZETA: usize = 16;

/// Bit of a required-challenges mask that asks for ν.
pub const CHALLENGE_BIT_NU: usize = 32;

/// The challenges a widget uses and the powers of α that separate its relations.
pub struct ChallengeArray<const NUM_WIDGET_RELATIONS: usize> {
    pub elements: [Fr; NUM_CHALLENGES],
    pub alpha_powers: [Fr; NUM_WIDGET_RELATIONS],
}

impl<const NUM_WIDGET_RELATIONS: usize> ChallengeArray<NUM_WIDGET_RELATIONS> {
    /// The array with every slot zero.
    pub fn new() -> (r: Self)
        ensures
            forall|i: int| 0 <= i < NUM_CHALLENGES ==> #[trigger] r.elements[i] == Fr::spec_zero(),
            forall|i: int|
                0 <= i < NUM_WIDGET_RELATIONS ==> #[trigger] r.alpha_powers[i] == Fr::spec_zero(),
    {
        broadcast use vstd::array::group_array_axioms;

        let z = Fr::zero();
        let elements: [Fr; NUM_CHALLENGES] = array_fill_for_copy_types(z);
        let alpha_powers: [Fr; NUM_WIDGET_RELATIONS] = array_fill_for_copy_types(z);
        ChallengeArray { elements, alpha_powers }
    }
}

/// The opening of each polynomial slot at ζ and at the shifted point ζ·ω.
pub type PolyArray = [(Fr, Fr); MAX_NUM_POLYNOMIALS];

/// One coefficient per polynomial slot, as kernels accumulate linear terms.
pub type CoefficientArray = [Fr; MAX_NUM_POLYNOMIALS];

/// The polynomials (in coset-FFT form) a widget reads, by slot, with the mask
/// and shift that locate the value at the shifted point.
pub struct PolyPtrMap {
    pub coefficients: HashMap<PolynomialIndex, Vec<Fr>>,
    pub block_mask: usize,
    pub index_shift: usize,
}

/// What a `PolyPtrMap` holds: each slot's coefficients as a sequence.
pub struct PolyPtrMapView {
    pub coefficients: Map<PolynomialIndex, Seq<Fr>>,
    pub block_mask: usize,
    pub index_shift: usize,
}

impl View for PolyPtrMap {
    type V = PolyPtrMapView;

    open spec fn view(&self) -> PolyPtrMapView {
        PolyPtrMapView {
            coefficients: self.coefficients@.map_values(|v: Vec<Fr>| v@),
            block_mask: self.block_mask,
            index_shift: self.index_shift,
        }
    }
}

impl PolyPtrMap {
    /// An empty map with zero mask and shift.
    pub fn new() -> (r: PolyPtrMap)
        ensures
            r@.coefficients == Map::<PolynomialIndex, Seq<Fr>>::empty(),
            r@.block_mask == 0,
            r@.index_shift == 0,
    {
        let r = PolyPtrMap { coefficients: HashMap::new(), block_mask: 0, index_shift: 0 };
        assert(r@.coefficients =~= Map::<PolynomialIndex, Seq<Fr>>::empty());
        r
    }
}

/// The position read for slot value `index` at the shifted point.
pub open spec fn shifted_position(index: usize, index_shift: usize, block_mask: usize) -> usize {
    ((index + index_shift) as usize) & block_mask
}

/// Every manifest entry names a slot in range and has its openings in the
/// transcript: under its label, and under its label with "_omega" when it is
/// opened at the shifted point too.
pub open spec fn evaluations_available(manifest: Seq<PolynomialDescriptor>, transcript: &Transcript) -> bool {
    forall|k: int|
        0 <= k < manifest.len() ==> {
            let d = #[trigger] manifest[k];
            &&& d.index < MAX_NUM_POLYNOMIALS
            &&& transcript.field_element(d.polynomial_label@) is Some
            &&& d.requires_shifted_evaluation ==> transcript.field_element(
                d.polynomial_label@ + "_omega"@,
            ) is Some
        }
}

/// The openings of one manifest entry: at ζ, and at ζ·ω or zero.
pub open spec fn opening_of(d: PolynomialDescriptor, transcript: &Transcript) -> (Fr, Fr) {
    (
        transcript.field_element(d.polynomial_label@).unwrap(),
        if d.requires_shifted_evaluation {
            transcript.field_element(d.polynomial_label@ + "_omega"@).unwrap()
        } else {
            Fr::spec_zero()
        },
    )
}

/// The opening table after the first `k` manifest entries were read in order,
/// starting from all zeros; a later entry for a slot overwrites an earlier one.
pub open spec fn evaluations_after(
    manifest: Seq<PolynomialDescriptor>,
    transcript: &Transcript,
    k: int,
) -> Seq<(Fr, Fr)>
    decreases k,
{
    if k <= 0 {
        Seq::new(MAX_NUM_POLYNOMIALS as nat, |i: int| (Fr::spec_zero(), Fr::spec_zero()))
    } else {
        evaluations_after(manifest, transcript, k - 1).update(
            manifest[k - 1].index as int,
            opening_of(manifest[k - 1], transcript),
        )
    }
}

/// Every manifest entry whose slot is required has its coset-FFT form stored
/// under its label with "_fft".
pub open spec fn fft_polynomials_available(
    manifest: Seq<PolynomialDescriptor>,
    required: Set<PolynomialIndex>,
    store: PolynomialStore,
) -> bool {
    forall|k: int|
        0 <= k < manifest.len() && required.contains(#[trigger] manifest[k].index) ==> store.polynomial(
            manifest[k].polynomial_label@ + "_fft"@,
        ) is Some
}

/// The polynomial map after the first `k` manifest entries were considered:
/// each entry whose slot is required maps that slot to its stored coset-FFT form.
pub open spec fn fft_polynomials_after(
    manifest: Seq<PolynomialDescriptor>,
    required: Set<PolynomialIndex>,
    store: PolynomialStore,
    k: int,
) -> Map<PolynomialIndex, Seq<Fr>>
    decreases k,
{
    if k <= 0 {
        Map::empty()
    } else {
        let prev = fft_polynomials_after(manifest, required, store, k - 1);
        let d = manifest[k - 1];
        if required.contains(d.index) {
            prev.insert(d.index, store.polynomial(d.polynomial_label@ + "_fft"@).unwrap())
        } else {
            prev
        }
    }
}

/// `base · α^i`, computed as the widgets compute it: one multiplication by α per step.
pub open spec fn alpha_power(base: Fr, alpha: Fr, i: nat) -> Fr
    decreases i,
{
    if i == 0 {
        base
    } else {
        alpha_power(base, alpha, (i - 1) as nat).spec_mul(alpha)
    }
}

/// Whether `required` asks for the challenge with mask bit `bit`.
pub open spec fn is_required(required: u8, bit: usize) -> bool {
    (required as usize) & bit != 0
}

/// Loading challenge number `slot` under `label` cannot fail: when it is
/// required it is there, and when it is there it has that many values.
pub open spec fn challenge_available(
    transcript: &Transcript,
    label: Seq<char>,
    slot: int,
    required: bool,
) -> bool {
    &&& required ==> transcript.challenge_values(label) is Some
    &&& transcript.challenge_values(label) matches Some(v) ==> slot < v.len()
}

/// `value` is what the transcript holds as challenge number `slot` under
/// `label`, where it holds one; any element otherwise.
pub open spec fn challenge_loaded(transcript: &Transcript, label: Seq<char>, slot: int, value: Fr) -> bool {
    transcript.challenge_values(label) matches Some(v) ==> value == v[slot]
}

/// Every challenge asked for by `required` is in the transcript, and every
/// challenge the transcript holds has the slot that is read.
pub open spec fn challenges_available(transcript: &Transcript, required: u8) -> bool {
    &&& challenge_available(transcript, "alpha"@, 0, is_required(required, CHALLENGE_BIT_ALPHA))
    &&& challenge_available(transcript, "beta"@, 0, is_required(required, CHALLENGE_BIT_BETA))
    &&& challenge_available(transcript, "beta"@, 1, is_required(required, CHALLENGE_BIT_GAMMA))
    &&& challenge_available(transcript, "eta"@, 0, is_required(required, CHALLENGE_BIT_ETA))
    &&& challenge_available(transcript, "z"@, 0, is_required(required, CHALLENGE_BIT_ZETA))
    &&& challenge_available(transcript, "nu"@, 0, is_required(required, CHALLENGE_BIT_NU))
}

/// `c` holds the transcript's α, β, γ (the second "beta" challenge), η, ζ and ν
/// wherever the transcript has them, and `alpha_powers[i] == alpha_base · α^i`.
pub open spec fn challenges_loaded<const N: usize>(
    c: ChallengeArray<N>,
    transcript: &Transcript,
    alpha_base: Fr,
) -> bool {
    &&& challenge_loaded(transcript, "alpha"@, 0, c.elements[0])
    &&& challenge_loaded(transcript, "beta"@, 0, c.elements[1])
    &&& challenge_loaded(transcript, "beta"@, 1, c.elements[2])
    &&& challenge_loaded(transcript, "eta"@, 0, c.elements[3])
    &&& challenge_loaded(transcript, "z"@, 0, c.elements[4])
    &&& challenge_loaded(transcript, "nu"@, 0, c.elements[5])
    &&& forall|i: int|
        0 <= i < N ==> #[trigger] c.alpha_powers[i] == alpha_power(alpha_base, c.elements[0], i as nat)
}

/// The α-power the next widget starts from, after a widget with
/// `num_independent_relations` relations.
pub open spec fn updated_alpha<const N: usize>(c: ChallengeArray<N>, num_independent_relations: int) -> Fr {
    if num_independent_relations == 0 {
        c.alpha_powers[0]
    } else {
        c.alpha_powers[num_independent_relations - 1].spec_mul(c.elements[0])
    }
}

/// Loads challenge number `slot` under `label`, or a random element when the
/// transcript has none and none is required.
fn load_challenge(transcript: &Transcript, label: &String, required: bool, slot: usize) -> (r: Fr)
    requires
        challenge_available(transcript, label@, slot as int, required),
    ensures
        challenge_loaded(transcript, label@, slot as int, r),
{
    if transcript.has_challenge(label) {
        transcript.get_challenge_field_element(label, slot)
    } else {
        Fr::random_element()
    }
}

/// Loads the challenges from the transcript and computes the powers of α.
pub trait BaseGetter<const NUM_WIDGET_RELATIONS: usize> {
    /// Reads α, β, γ, η, ζ and ν from the transcript (a random element for one
    /// that is absent and not required by `required_challenges`), and sets
    /// `alpha_powers[i] = alpha_base · α^i`.
    fn get_challenges(
        transcript: &Transcript,
        alpha_base: Fr,
        required_challenges: u8,
    ) -> (r: ChallengeArray<NUM_WIDGET_RELATIONS>)
        requires
            NUM_WIDGET_RELATIONS >= 1,
            challenges_available(transcript, required_challenges),
        ensures
            challenges_loaded(r, transcript, alpha_base),
            transcript.challenge_values("alpha"@) matches Some(v) ==> r.elements[0] == v[0],
            transcript.challenge_values("beta"@) matches Some(v) ==> r.elements[1] == v[0],
            transcript.challenge_values("beta"@) matches Some(v) ==> r.elements[2] == v[1],
            transcript.challenge_values("eta"@) matches Some(v) ==> r.elements[3] == v[0],
            transcript.challenge_values("z"@) matches Some(v) ==> r.elements[4] == v[0],
            transcript.challenge_values("nu"@) matches Some(v) ==> r.elements[5] == v[0],
            forall|i: int|
                0 <= i < NUM_WIDGET_RELATIONS ==> (#[trigger] r.alpha_powers[i])@ == (alpha_base@ * pow(
                    r.elements[0]@,
                    i as nat,
                )) % (MODULUS as int),
    {
        let mut result: ChallengeArray<NUM_WIDGET_RELATIONS> = ChallengeArray::new();
        let required = required_challenges as usize;
        result.elements[ChallengeIndex::Alpha.position()] = load_challenge(
            transcript,
            &String::from_str("alpha"),
            required & CHALLENGE_BIT_ALPHA != 0,
            0,
        );
        result.elements[ChallengeIndex::Beta.position()] = load_challenge(
            transcript,
            &String::from_str("beta"),
            required & CHALLENGE_BIT_BETA != 0,
            0,
        );
        result.elements[ChallengeIndex::Gamma.position()] = load_challenge(
            transcript,
            &String::from_str("beta"),
            required & CHALLENGE_BIT_GAMMA != 0,
            1,
        );
        result.elements[ChallengeIndex::Eta.position()] = load_challenge(
            transcript,
            &String::from_str("eta"),
            required & CHALLENGE_BIT_ETA != 0,
            0,
        );
        result.elements[ChallengeIndex::Zeta.position()] = load_challenge(
            transcript,
            &String::from_str("z"),
            required & CHALLENGE_BIT_ZETA != 0,
            0,
        );
        result.elements[ChallengeIndex::Nu.position()] = load_challenge(
            transcript,
            &String::from_str("nu"),
            required & CHALLENGE_BIT_NU != 0,
            0,
        );
        let alpha = result.elements[ChallengeIndex::Alpha.position()];
        result.alpha_powers[0] = alpha_base;
        let mut i: usize = 1;
        while i < NUM_WIDGET_RELATIONS
            invariant
                1 <= i <= NUM_WIDGET_RELATIONS,
                alpha == result.elements[0],
                challenge_loaded(transcript, "alpha"@, 0, result.elements[0]),
                challenge_loaded(transcript, "beta"@, 0, result.elements[1]),
                challenge_loaded(transcript, "beta"@, 1, result.elements[2]),
                challenge_loaded(transcript, "eta"@, 0, result.elements[3]),
                challenge_loaded(transcript, "z"@, 0, result.elements[4]),
                challenge_loaded(transcript, "nu"@, 0, result.elements[5]),
                forall|j: int|
                    0 <= j < i ==> #[trigger] result.alpha_powers[j] == alpha_power(
                        alpha_base,
                        alpha,
                        j as nat,
                    ),
            decreases NUM_WIDGET_RELATIONS - i,
        {
            let prev = result.alpha_powers[i - 1];
            result.alpha_powers[i] = prev.mul(alpha);
            i = i + 1;
        }
        proof {
            use_type_invariant(&alpha_base);
            lemma_canonical_view(alpha_base);
            assert forall|i: int| 0 <= i < NUM_WIDGET_RELATIONS implies (
            #[trigger] result.alpha_powers[i])@ == (alpha_base@ * pow(result.elements[0]@, i as nat)) % (
            MODULUS as int) by {
                lemma_alpha_power_value(alpha_base, alpha, i as nat);
            }
        }
        result
    }

    /// The α-power the next widget starts from: `alpha_powers[0]` when the
    /// widget has no independent relations, else `alpha_powers[n - 1] · α`.
    fn update_alpha(
        challenges: &ChallengeArray<NUM_WIDGET_RELATIONS>,
        num_independent_relations: usize,
    ) -> (r: Fr)
        requires
            NUM_WIDGET_RELATIONS >= 1,
            num_independent_relations <= NUM_WIDGET_RELATIONS,
        ensures
            r == updated_alpha(*challenges, num_independent_relations as int),
    {
        if num_independent_relations == 0 {
            challenges.alpha_powers[0]
        } else {
            challenges.alpha_powers[num_independent_relations - 1].mul(
                challenges.elements[ChallengeIndex::Alpha.position()],
            )
        }
    }
}

/// Reads polynomial openings from the transcript, besides the challenges.
pub trait EvaluationGetter<const NUM_WIDGET_RELATIONS: usize>: BaseGetter<NUM_WIDGET_RELATIONS> {
    /// The opening of slot `ID` at the shifted point when
    /// `USE_SHIFTED_EVALUATION`, else at ζ.
    fn get_value<const USE_SHIFTED_EVALUATION: bool, const ID: usize>(
        polynomials: &PolyArray,
    ) -> (r: &Fr)
        requires
            ID < MAX_NUM_POLYNOMIALS,
        ensures
            *r == (if USE_SHIFTED_EVALUATION {
                polynomials[ID as int].1
            } else {
                polynomials[ID as int].0
            }),
    {
        if USE_SHIFTED_EVALUATION {
            &polynomials[ID].1
        } else {
            &polynomials[ID].0
        }
    }

    /// Reads, for each manifest entry in order, its opening at ζ and, when it
    /// requires one, at ζ·ω (its label with "_omega"), into its slot; other
    /// slots stay zero.
    fn get_polynomial_evaluations(
        polynomial_manifest: &PolynomialManifest,
        transcript: &Transcript,
    ) -> (r: PolyArray)
        requires
            evaluations_available(polynomial_manifest@, transcript),
        ensures
            r@ == evaluations_after(polynomial_manifest@, transcript, polynomial_manifest@.len() as int),
            forall|k: int|
                0 <= k < polynomial_manifest@.len() && (forall|j: int|
                    k < j < polynomial_manifest@.len() ==> polynomial_manifest@[j].index
                        != polynomial_manifest@[k].index) ==> {
                    let d = #[trigger] polynomial_manifest@[k];
                    &&& r@[d.index as int].0 == transcript.field_element(d.polynomial_label@).unwrap()
                    &&& d.requires_shifted_evaluation ==> r@[d.index as int].1
                        == transcript.field_element(d.polynomial_label@ + "_omega"@).unwrap()
                    &&& !d.requires_shifted_evaluation ==> r@[d.index as int].1 == Fr::spec_zero()
                },
            forall|slot: int|
                0 <= slot < MAX_NUM_POLYNOMIALS && (forall|k: int|
                    0 <= k < polynomial_manifest@.len() ==> polynomial_manifest@[k].index != slot)
                    ==> #[trigger] r@[slot] == (Fr::spec_zero(), Fr::spec_zero()),
    {
        broadcast use vstd::array::group_array_axioms;

        let z = Fr::zero();
        let mut result: PolyArray = array_fill_for_copy_types((z, z));
        assert(result@ =~= evaluations_after(polynomial_manifest@, transcript, 0));
        let mut i: usize = 0;
        while i < polynomial_manifest.len()
            invariant
                i <= polynomial_manifest.len(),
                evaluations_available(polynomial_manifest@, transcript),
                result@ == evaluations_after(polynomial_manifest@, transcript, i as int),
            decreases polynomial_manifest.len() - i,
        {
            let info = &polynomial_manifest[i];
            assert(info == polynomial_manifest@[i as int]);
            let label = info.polynomial_label.clone();
            let at_zeta = transcript.get_field_element(&label);
            let at_shifted = if info.requires_shifted_evaluation {
                transcript.get_field_element(&label.concat("_omega"))
            } else {
                Fr::zero()
            };
            result[info.index] = (at_zeta, at_shifted);
            i = i + 1;
            assert(result@ =~= evaluations_after(polynomial_manifest@, transcript, i as int));
        }
        proof {
            lemma_evaluations_of_last_entries(
                polynomial_manifest@,
                transcript,
                polynomial_manifest@.len() as int,
            );
        }
        result
    }
}

/// Gives widgets the polynomials in coset-FFT form, as quotient construction needs.
pub trait FFTGetter<const NUM_WIDGET_RELATIONS: usize>: BaseGetter<NUM_WIDGET_RELATIONS> {
    /// Collects, for each manifest entry whose slot is in
    /// `required_polynomial_ids`, its stored coset-FFT form (its label with
    /// "_fft"); the mask is the large domain's size less one and the shift four.
    fn get_polynomials(
        key: &ProvingKey,
        required_polynomial_ids: &HashSet<PolynomialIndex>,
    ) -> (r: PolyPtrMap)
        requires
            key.large_domain.size >= 1,
            fft_polynomials_available(
                key.polynomial_manifest@,
                required_polynomial_ids@,
                key.polynomial_store,
            ),
        ensures
            r@.coefficients == fft_polynomials_after(
                key.polynomial_manifest@,
                required_polynomial_ids@,
                key.polynomial_store,
                key.polynomial_manifest@.len() as int,
            ),
            r@.block_mask == key.large_domain.size - 1,
            r@.index_shift == 4,
    {
        broadcast use vstd::std_specs::hash::group_hash_axioms;

        let mut result = PolyPtrMap::new();
        result.block_mask = key.large_domain.size - 1;
        result.index_shift = 4;
        let manifest = &key.polynomial_manifest;
        let mut i: usize = 0;
        while i < manifest.len()
            invariant
                i <= manifest.len(),
                manifest == key.polynomial_manifest,
                fft_polynomials_available(manifest@, required_polynomial_ids@, key.polynomial_store),
                result@.coefficients == fft_polynomials_after(
                    manifest@,
                    required_polynomial_ids@,
                    key.polynomial_store,
                    i as int,
                ),
                result@.block_mask == key.large_domain.size - 1,
                result@.index_shift == 4,
            decreases manifest.len() - i,
        {
            let info = &manifest[i];
            assert(info == manifest@[i as int]);
            if required_polynomial_ids.contains(&info.index) {
                let label = info.polynomial_label.clone().concat("_fft");
                let poly = key.polynomial_store.get(&label);
                let ghost before = result@.coefficients;
                let ghost poly_view = poly@;
                result.coefficients.insert(info.index, poly);
                assert(result@.coefficients =~= before.insert(info.index, poly_view));
            }
            i = i + 1;
        }
        result
    }

    /// Slot `ID` at position `index`, or at the shifted position
    /// `(index + index_shift) & block_mask` when `USE_SHIFTED_EVALUATION`.
    fn get_value<const USE_SHIFTED_EVALUATION: bool, const ID: usize>(
        polynomials: &PolyPtrMap,
        index: usize,
    ) -> (r: &Fr)
        requires
            polynomials@.coefficients.contains_key(ID),
            USE_SHIFTED_EVALUATION ==> index + polynomials.index_shift <= usize::MAX
                && shifted_position(index, polynomials.index_shift, polynomials.block_mask)
                < polynomials@.coefficients[ID].len(),
            !USE_SHIFTED_EVALUATION ==> index < polynomials@.coefficients[ID].len(),
        ensures
            *r == polynomials@.coefficients[ID][if USE_SHIFTED_EVALUATION {
                shifted_position(index, polynomials.index_shift, polynomials.block_mask) as int
            } else {
                index as int
            }],
    {
        broadcast use vstd::std_specs::hash::group_hash_axioms;

        let poly = polynomials.coefficients.get(&ID).unwrap();
        if USE_SHIFTED_EVALUATION {
            let shifted_index = (index + polynomials.index_shift) & polynomials.block_mask;
            &poly[shifted_index]
        } else {
            &poly[index]
        }
    }
}

/// The getters widgets use: every method as the traits provide it.
pub struct StandardGetters;

impl<const NUM_WIDGET_RELATIONS: usize> BaseGetter<NUM_WIDGET_RELATIONS> for StandardGetters {}

impl<const NUM_WIDGET_RELATIONS: usize> EvaluationGetter<NUM_WIDGET_RELATIONS> for StandardGetters {}

impl<const NUM_WIDGET_RELATIONS: usize> FFTGetter<NUM_WIDGET_RELATIONS> for StandardGetters {}

/// The relations of one widget, evaluated over a polynomial container `PC`
/// (coset-FFT polynomials for the prover, openings for the verifier) at a
/// position `index` (zero for openings). Each widget kind implements it; the
/// spec functions name what its methods compute.
pub trait KernelBase<PC: View, const NUM_INDEPENDENT_RELATIONS: usize> {
    /// The polynomial slots the widget reads.
    spec fn spec_required_polynomial_ids() -> Set<PolynomialIndex>;

    /// The challenges the widget's quotient contribution reads.
    spec fn spec_quotient_required_challenges() -> u8;

    /// The challenges the widget's scalar-multiplication update reads.
    spec fn spec_update_required_challenges() -> u8;

    /// The linear terms after the widget accumulated into `linear_terms`.
    spec fn spec_linear_terms(
        polynomials: PC::V,
        challenges: ChallengeArray<NUM_INDEPENDENT_RELATIONS>,
        linear_terms: Seq<Fr>,
        index: usize,
    ) -> Seq<Fr>;

    /// The widget's weighted sum of `linear_terms`.
    spec fn spec_sum_linear_terms(
        polynomials: PC::V,
        challenges: ChallengeArray<NUM_INDEPENDENT_RELATIONS>,
        linear_terms: Seq<Fr>,
        index: usize,
    ) -> Fr;

    /// The widget's terms can be evaluated at `index`: every value it reads
    /// is there.
    spec fn spec_can_evaluate(polynomials: PC::V, index: usize) -> bool;

    /// `quotient_term` after the widget added its non-linear terms.
    spec fn spec_non_linear_terms(
        polynomials: PC::V,
        challenges: ChallengeArray<NUM_INDEPENDENT_RELATIONS>,
        quotient_term: Fr,
        index: usize,
    ) -> Fr;

    fn get_required_polynomial_ids() -> (r: HashSet<PolynomialIndex>)
        ensures
            r@ == Self::spec_required_polynomial_ids(),
    ;

    fn quotient_required_challenges() -> (r: u8)
        ensures
            r == Self::spec_quotient_required_challenges(),
    ;

    fn update_required_challenges() -> (r: u8)
        ensures
            r == Self::spec_update_required_challenges(),
    ;

    fn compute_linear_terms(
        polynomials: &PC,
        challenges: &ChallengeArray<NUM_INDEPENDENT_RELATIONS>,
        linear_terms: &mut CoefficientArray,
        index: usize,
    )
        requires
            Self::spec_can_evaluate(polynomials@, index),
        ensures
            final(linear_terms)@ == Self::spec_linear_terms(
                polynomials@,
                *challenges,
                old(linear_terms)@,
                index,
            ),
    ;

    fn sum_linear_terms(
        polynomials: &PC,
        challenges: &ChallengeArray<NUM_INDEPENDENT_RELATIONS>,
        linear_terms: &CoefficientArray,
        index: usize,
    ) -> (r: Fr)
        requires
            Self::spec_can_evaluate(polynomials@, index),
        ensures
            r == Self::spec_sum_linear_terms(polynomials@, *challenges, linear_terms@, index),
    ;

    fn compute_non_linear_terms(
        polynomials: &PC,
        challenges: &ChallengeArray<NUM_INDEPENDENT_RELATIONS>,
        quotient_term: &mut Fr,
        index: usize,
    )
        requires
            Self::spec_can_evaluate(polynomials@, index),
        ensures
            *final(quotient_term) == Self::spec_non_linear_terms(
                polynomials@,
                *challenges,
                *old(quotient_term),
                index,
            ),
    ;
}

/// A coefficient array with every slot zero.
pub open spec fn zero_coefficients() -> Seq<Fr> {
    Seq::new(MAX_NUM_POLYNOMIALS as nat, |i: int| Fr::spec_zero())
}

/// One widget's update of a quotient value at position `index`: the sum of its
/// linear terms (accumulated from zero) is added, then its non-linear terms.
pub open spec fn quotient_term_update<
    PC: View,
    KB: KernelBase<PC, NUM_INDEPENDENT_RELATIONS>,
    const NUM_INDEPENDENT_RELATIONS: usize,
>(
    polynomials: PC::V,
    challenges: ChallengeArray<NUM_INDEPENDENT_RELATIONS>,
    quotient_term: Fr,
    index: usize,
) -> Fr {
    let linear_terms = KB::spec_linear_terms(polynomials, challenges, zero_coefficients(), index);
    KB::spec_non_linear_terms(
        polynomials,
        challenges,
        quotient_term.spec_add(KB::spec_sum_linear_terms(polynomials, challenges, linear_terms, index)),
        index,
    )
}

/// The quotient polynomial after a widget updated each of its first `size` values.
pub open spec fn quotient_after<
    KB: KernelBase<PolyPtrMap, NUM_INDEPENDENT_RELATIONS>,
    const NUM_INDEPENDENT_RELATIONS: usize,
>(
    quotient: Seq<Fr>,
    polynomials: PolyPtrMapView,
    challenges: ChallengeArray<NUM_INDEPENDENT_RELATIONS>,
    size: usize,
) -> Seq<Fr> {
    Seq::new(
        quotient.len(),
        |i: int|
            if i < size {
                quotient_term_update::<PolyPtrMap, KB, NUM_INDEPENDENT_RELATIONS>(
                    polynomials,
                    challenges,
                    quotient[i],
                    i as usize,
                )
            } else {
                quotient[i]
            },
    )
}

/// The coset-FFT polynomials a prover widget reads from `key`.
pub open spec fn widget_polynomials(key: ProvingKey, required: Set<PolynomialIndex>) -> PolyPtrMapView {
    PolyPtrMapView {
        coefficients: fft_polynomials_after(
            key.polynomial_manifest@,
            required,
            key.polynomial_store,
            key.polynomial_manifest@.len() as int,
        ),
        block_mask: (key.large_domain.size - 1) as usize,
        index_shift: 4,
    }
}

/// The part of a transition widget that holds the proving key.
pub struct TransitionWidgetBase {
    pub key: Option<ProvingKey>,
}

impl TransitionWidgetBase {
    pub fn new(key: Option<ProvingKey>) -> (r: Self)
        ensures
            r.key == key,
    {
        TransitionWidgetBase { key }
    }
}

/// A prover widget: a kernel `KB` with `NUM_INDEPENDENT_RELATIONS` relations,
/// reading polynomials through the getters `G`.
pub struct TransitionWidget<KB, G, const NUM_INDEPENDENT_RELATIONS: usize> {
    pub base: TransitionWidgetBase,
    pub phantom: PhantomData<(KB, G)>,
}

impl<
    KB: KernelBase<PolyPtrMap, NUM_INDEPENDENT_RELATIONS>,
    G: FFTGetter<NUM_INDEPENDENT_RELATIONS>,
    const NUM_INDEPENDENT_RELATIONS: usize,
> TransitionWidget<KB, G, NUM_INDEPENDENT_RELATIONS> {
    pub fn new(key: Option<ProvingKey>) -> (r: Self)
        ensures
            r.base.key == key,
    {
        TransitionWidget { base: TransitionWidgetBase::new(key), phantom: PhantomData }
    }

    /// Adds the widget's contribution to each of the first `large_domain.size`
    /// values of the quotient polynomial, and returns the α-power the next
    /// widget starts from.
    pub fn compute_quotient_contribution(&mut self, alpha_base: Fr, transcript: &Transcript) -> (r: Fr)
        requires
            NUM_INDEPENDENT_RELATIONS >= 1,
            old(self).base.key matches Some(key) && {
                &&& key.large_domain.size >= 1
                &&& key.quotient_polynomial.len() >= key.large_domain.size
                &&& fft_polynomials_available(
                    key.polynomial_manifest@,
                    KB::spec_required_polynomial_ids(),
                    key.polynomial_store,
                )
                &&& forall|i: usize|
                    i < key.large_domain.size ==> #[trigger] KB::spec_can_evaluate(
                        widget_polynomials(key, KB::spec_required_polynomial_ids()),
                        i,
                    )
            },
            challenges_available(transcript, KB::spec_quotient_required_challenges()),
        ensures
            final(self).base.key matches Some(key) && {
                let old_key = old(self).base.key.unwrap();
                &&& key.large_domain == old_key.large_domain
                &&& key.polynomial_manifest == old_key.polynomial_manifest
                &&& key.polynomial_store == old_key.polynomial_store
                &&& exists|c: ChallengeArray<NUM_INDEPENDENT_RELATIONS>|
                    {
                        &&& challenges_loaded(c, transcript, alpha_base)
                        &&& r == updated_alpha(c, NUM_INDEPENDENT_RELATIONS as int)
                        &&& key.quotient_polynomial@ == quotient_after::<KB, NUM_INDEPENDENT_RELATIONS>(
                            old_key.quotient_polynomial@,
                            widget_polynomials(old_key, KB::spec_required_polynomial_ids()),
                            c,
                            old_key.large_domain.size,
                        )
                        &&& key.quotient_polynomial@.len() == old_key.quotient_polynomial@.len()
                        &&& forall|i: int|
                            0 <= i < old_key.large_domain.size ==> {
                                let p = widget_polynomials(old_key, KB::spec_required_polynomial_ids());
                                let sum = KB::spec_sum_linear_terms(
                                    p,
                                    c,
                                    KB::spec_linear_terms(
                                        p,
                                        c,
                                        Seq::new(MAX_NUM_POLYNOMIALS as nat, |j: int| Fr::spec_zero()),
                                        i as usize,
                                    ),
                                    i as usize,
                                );
                                #[trigger] key.quotient_polynomial@[i] == KB::spec_non_linear_terms(
                                    p,
                                    c,
                                    old_key.quotient_polynomial@[i].spec_add(sum),
                                    i as usize,
                                )
                            }
                        &&& forall|i: int|
                            old_key.large_domain.size <= i < old_key.quotient_polynomial@.len()
                                ==> #[trigger] key.quotient_polynomial@[i]
                                == old_key.quotient_polynomial@[i]
                    }
            },
            transcript.challenge_values("alpha"@) matches Some(v) ==> r == alpha_power(
                alpha_base,
                v[0],
                NUM_INDEPENDENT_RELATIONS as nat,
            ),
    {
        let mut key = self.base.key.take().unwrap();
        let ghost old_key = key;
        let required_polynomial_ids = KB::get_required_polynomial_ids();
        let polynomials = G::get_polynomials(&key, &required_polynomial_ids);
        let challenges = G::get_challenges(
            transcript,
            alpha_base,
            KB::quotient_required_challenges(),
        );
        let ghost polys_view = widget_polynomials(old_key, KB::spec_required_polynomial_ids());
        assert(polynomials@ == polys_view);
        let size = key.large_domain.size;
        let mut i: usize = 0;
        while i < size
            invariant
                i <= size,
                size == old_key.large_domain.size,
                polynomials@ == polys_view,
                key.large_domain == old_key.large_domain,
                key.polynomial_manifest == old_key.polynomial_manifest,
                key.polynomial_store == old_key.polynomial_store,
                key.quotient_polynomial.len() == old_key.quotient_polynomial.len(),
                old_key.quotient_polynomial.len() >= size,
                forall|j: usize|
                    j < size ==> #[trigger] KB::spec_can_evaluate(polys_view, j),
                forall|j: int|
                    0 <= j < key.quotient_polynomial.len() ==> #[trigger] key.quotient_polynomial@[j]
                        == (if j < i {
                        quotient_term_update::<PolyPtrMap, KB, NUM_INDEPENDENT_RELATIONS>(
                            polys_view,
                            challenges,
                            old_key.quotient_polynomial@[j],
                            j as usize,
                        )
                    } else {
                        old_key.quotient_polynomial@[j]
                    }),
            decreases size - i,
        {
            broadcast use vstd::array::group_array_axioms;

            let z = Fr::zero();
            let mut linear_terms: CoefficientArray = array_fill_for_copy_types(z);
            assert(linear_terms@ =~= zero_coefficients());
            KB::compute_linear_terms(&polynomials, &challenges, &mut linear_terms, i);
            let sum_of_linear_terms = KB::sum_linear_terms(
                &polynomials,
                &challenges,
                &linear_terms,
                i,
            );
            let mut quotient_term = key.quotient_polynomial[i].add(sum_of_linear_terms);
            KB::compute_non_linear_terms(&polynomials, &challenges, &mut quotient_term, i);
            key.quotient_polynomial.set(i, quotient_term);
            i = i + 1;
        }
        assert(key.quotient_polynomial@ =~= quotient_after::<KB, NUM_INDEPENDENT_RELATIONS>(
            old_key.quotient_polynomial@,
            polys_view,
            challenges,
            size,
        ));
        self.base.key = Some(key);
        G::update_alpha(&challenges, NUM_INDEPENDENT_RELATIONS)
    }
}

/// A verifier widget: a kernel `KB` with `NUM_INDEPENDENT_RELATIONS` relations,
/// reading openings through the getters `G`.
pub struct GenericVerifierWidget<KB, G, const NUM_INDEPENDENT_RELATIONS: usize> {
    pub phantom: PhantomData<(KB, G)>,
}

impl<
    KB: KernelBase<PolyArray, NUM_INDEPENDENT_RELATIONS>,
    G: EvaluationGetter<NUM_INDEPENDENT_RELATIONS>,
    const NUM_INDEPENDENT_RELATIONS: usize,
> GenericVerifierWidget<KB, G, NUM_INDEPENDENT_RELATIONS> {
    /// Adds the widget's contribution, evaluated on the transcript's openings,
    /// to the quotient numerator's evaluation, and returns the α-power the
    /// next widget starts from.
    pub fn compute_quotient_evaluation_contribution(
        key: &TranscriptKey,
        alpha_base: Fr,
        transcript: &Transcript,
        quotient_numerator_eval: &mut Fr,
    ) -> (r: Fr)
        requires
            NUM_INDEPENDENT_RELATIONS >= 1,
            evaluations_available(key.polynomial_manifest@, transcript),
            KB::spec_can_evaluate(
                evaluations_after(
                    key.polynomial_manifest@,
                    transcript,
                    key.polynomial_manifest@.len() as int,
                ),
                0,
            ),
            challenges_available(transcript, KB::spec_quotient_required_challenges()),
        ensures
            exists|c: ChallengeArray<NUM_INDEPENDENT_RELATIONS>|
                {
                    &&& challenges_loaded(c, transcript, alpha_base)
                    &&& r == updated_alpha(c, NUM_INDEPENDENT_RELATIONS as int)
                    &&& *final(quotient_numerator_eval) == quotient_term_update::<
                        PolyArray,
                        KB,
                        NUM_INDEPENDENT_RELATIONS,
                    >(
                        evaluations_after(
                            key.polynomial_manifest@,
                            transcript,
                            key.polynomial_manifest@.len() as int,
                        ),
                        c,
                        *old(quotient_numerator_eval),
                        0,
                    )
                    &&& {
                        let e = evaluations_after(
                            key.polynomial_manifest@,
                            transcript,
                            key.polynomial_manifest@.len() as int,
                        );
                        let sum = KB::spec_sum_linear_terms(
                            e,
                            c,
                            KB::spec_linear_terms(
                                e,
                                c,
                                Seq::new(MAX_NUM_POLYNOMIALS as nat, |j: int| Fr::spec_zero()),
                                0,
                            ),
                            0,
                        );
                        *final(quotient_numerator_eval) == KB::spec_non_linear_terms(
                            e,
                            c,
                            old(quotient_numerator_eval).spec_add(sum),
                            0,
                        )
                    }
                },
            transcript.challenge_values("alpha"@) matches Some(v) ==> r == alpha_power(
                alpha_base,
                v[0],
                NUM_INDEPENDENT_RELATIONS as nat,
            ),
    {
        broadcast use vstd::array::group_array_axioms;

        let polynomial_evaluations = G::get_polynomial_evaluations(
            &key.polynomial_manifest,
            transcript,
        );
        let challenges = G::get_challenges(
            transcript,
            alpha_base,
            KB::quotient_required_challenges(),
        );
        let z = Fr::zero();
        let mut linear_terms: CoefficientArray = array_fill_for_copy_types(z);
        assert(linear_terms@ =~= zero_coefficients());
        KB::compute_linear_terms(&polynomial_evaluations, &challenges, &mut linear_terms, 0);
        *quotient_numerator_eval = quotient_numerator_eval.add(
            KB::sum_linear_terms(&polynomial_evaluations, &challenges, &linear_terms, 0),
        );
        KB::compute_non_linear_terms(
            &polynomial_evaluations,
            &challenges,
            quotient_numerator_eval,
            0,
        );
        G::update_alpha(&challenges, NUM_INDEPENDENT_RELATIONS)
    }

    /// Loads the challenges the widget's quotient and update terms need and
    /// returns the α-power the next widget starts from; the widget adds no
    /// scalar-multiplication inputs, so `scalar_mult_inputs` is left as it is.
    pub fn append_scalar_multiplication_inputs(
        key: &TranscriptKey,
        alpha_base: Fr,
        transcript: &Transcript,
        scalar_mult_inputs: &mut HashMap<String, Fr>,
    ) -> (r: Fr)
        requires
            NUM_INDEPENDENT_RELATIONS >= 1,
            challenges_available(
                transcript,
                KB::spec_quotient_required_challenges() | KB::spec_update_required_challenges(),
            ),
        ensures
            exists|c: ChallengeArray<NUM_INDEPENDENT_RELATIONS>|
                {
                    &&& challenges_loaded(c, transcript, alpha_base)
                    &&& r == updated_alpha(c, NUM_INDEPENDENT_RELATIONS as int)
                },
            transcript.challenge_values("alpha"@) matches Some(v) ==> r == alpha_power(
                alpha_base,
                v[0],
                NUM_INDEPENDENT_RELATIONS as nat,
            ),
            final(scalar_mult_inputs)@ == old(scalar_mult_inputs)@,
    {
        let challenges = G::get_challenges(
            transcript,
            alpha_base,
            KB::quotient_required_challenges() | KB::update_required_challenges(),
        );
        G::update_alpha(&challenges, NUM_INDEPENDENT_RELATIONS)
    }
}

/// `alpha_power(base, α, i)` is `base · α^i` in the field.
pub proof fn lemma_alpha_power_value(base: Fr, alpha: Fr, i: nat)
    requires
        base@ < MODULUS,
    ensures
        alpha_power(base, alpha, i)@ == (base@ * pow(alpha@, i)) % (MODULUS as int),
    decreases i,
{
    lemma_spec_ops_view(base, alpha);
    if i == 0 {
        assert(pow(alpha@, 0) == 1) by {
            reveal(pow);
        }
        assert(base@ * 1 == base@);
        assert(base@ % (MODULUS as int) == base@) by {
            vstd::arithmetic::div_mod::lemma_small_mod(base@ as nat, MODULUS as nat);
        }
    } else {
        let prev = alpha_power(base, alpha, (i - 1) as nat);
        lemma_alpha_power_value(base, alpha, (i - 1) as nat);
        lemma_spec_ops_view(prev, alpha);
        let m = MODULUS as int;
        let q = base@ * pow(alpha@, (i - 1) as nat);
        assert(prev@ == q % m);
        assert(alpha_power(base, alpha, i)@ == ((q % m) * alpha@) % m);
        lemma_mul_mod_noop_left(q, alpha@, m);
        assert(pow(alpha@, i) == alpha@ * pow(alpha@, (i - 1) as nat)) by {
            reveal(pow);
        }
        assert(q * alpha@ == base@ * pow(alpha@, i)) by (nonlinear_arith)
            requires
                q == base@ * pow(alpha@, (i - 1) as nat),
                pow(alpha@, i) == alpha@ * pow(alpha@, (i - 1) as nat),
        ;
    }
}

/// After `get_challenges` with `alpha_base` and then `update_alpha` with `n`
/// relations (`n` at most the widget's relation count), the next widget starts
/// from `alpha_base · α^n`.
pub proof fn lemma_update_alpha_is_alpha_power<const N: usize>(
    c: ChallengeArray<N>,
    transcript: &Transcript,
    alpha_base: Fr,
    n: nat,
)
    requires
        N >= 1,
        n <= N,
        alpha_base@ < MODULUS,
        challenges_loaded(c, transcript, alpha_base),
    ensures
        updated_alpha(c, n as int) == alpha_power(alpha_base, c.elements[0], n),
        updated_alpha(c, n as int)@ == (alpha_base@ * pow(c.elements[0]@, n)) % (MODULUS as int),
{
    if n == 0 {
        assert(c.alpha_powers[0] == alpha_power(alpha_base, c.elements[0], 0));
    } else {
        assert(c.alpha_powers[n - 1] == alpha_power(alpha_base, c.elements[0], (n - 1) as nat));
    }
    lemma_alpha_power_value(alpha_base, c.elements[0], n);
}

/// Manifest entries name pairwise different slots.
pub open spec fn slots_distinct(manifest: Seq<PolynomialDescriptor>) -> bool {
    forall|j: int, k: int|
        0 <= j < k < manifest.len() ==> #[trigger] manifest[j].index != #[trigger] manifest[k].index
}

/// Whether some manifest entry among the first `k` names `slot`.
pub open spec fn slot_named(manifest: Seq<PolynomialDescriptor>, slot: int, k: int) -> bool {
    exists|j: int| 0 <= j < k && #[trigger] manifest[j].index == slot
}

/// A slot is named among the first `k` entries exactly when it is named among
/// the first `k - 1` or by entry `k - 1`.
proof fn lemma_slot_named_step(manifest: Seq<PolynomialDescriptor>, slot: int, k: int)
    requires
        0 < k <= manifest.len(),
    ensures
        slot_named(manifest, slot, k) <==> (slot_named(manifest, slot, k - 1) || manifest[k
            - 1].index == slot),
{
    if slot_named(manifest, slot, k) {
        let j = choose|j: int| 0 <= j < k && #[trigger] manifest[j].index == slot;
        if j < k - 1 {
            assert(slot_named(manifest, slot, k - 1));
        }
    }
    if slot_named(manifest, slot, k - 1) {
        let j = choose|j: int| 0 <= j < k - 1 && #[trigger] manifest[j].index == slot;
        assert(slot_named(manifest, slot, k));
    }
    if manifest[k - 1].index == slot {
        assert(slot_named(manifest, slot, k));
    }
}

/// After the first `k` manifest entries were read, the slot of each entry that
/// no later one among them shares holds that entry's opening at ζ, read under
/// its label, and its opening at ζ·ω, read under its label with "_omega" (zero
/// when it has none); a slot none of them names holds zeros.
pub proof fn lemma_evaluations_of_last_entries(
    manifest: Seq<PolynomialDescriptor>,
    transcript: &Transcript,
    k: int,
)
    requires
        0 <= k <= manifest.len(),
        forall|j: int| 0 <= j < manifest.len() ==> #[trigger] manifest[j].index < MAX_NUM_POLYNOMIALS,
    ensures
        evaluations_after(manifest, transcript, k).len() == MAX_NUM_POLYNOMIALS,
        forall|j: int|
            0 <= j < k && (forall|l: int| j < l < k ==> manifest[l].index != manifest[j].index)
                ==> {
                let d = #[trigger] manifest[j];
                let e = evaluations_after(manifest, transcript, k)[d.index as int];
                &&& e.0 == transcript.field_element(d.polynomial_label@).unwrap()
                &&& d.requires_shifted_evaluation ==> e.1 == transcript.field_element(
                    d.polynomial_label@ + "_omega"@,
                ).unwrap()
                &&& !d.requires_shifted_evaluation ==> e.1 == Fr::spec_zero()
            },
        forall|slot: int|
            0 <= slot < MAX_NUM_POLYNOMIALS && (forall|l: int| 0 <= l < k ==> manifest[l].index != slot)
                ==> #[trigger] evaluations_after(manifest, transcript, k)[slot] == (
                Fr::spec_zero(),
                Fr::spec_zero(),
            ),
    decreases k,
{
    if k > 0 {
        lemma_evaluations_of_last_entries(manifest, transcript, k - 1);
        let prev = evaluations_after(manifest, transcript, k - 1);
        let cur = evaluations_after(manifest, transcript, k);
        assert forall|j: int|
            0 <= j < k && (forall|l: int| j < l < k ==> manifest[l].index != manifest[j].index)
                implies {
                let d = #[trigger] manifest[j];
                let e = cur[d.index as int];
                &&& e.0 == transcript.field_element(d.polynomial_label@).unwrap()
                &&& d.requires_shifted_evaluation ==> e.1 == transcript.field_element(
                    d.polynomial_label@ + "_omega"@,
                ).unwrap()
                &&& !d.requires_shifted_evaluation ==> e.1 == Fr::spec_zero()
            } by {
            if j < k - 1 {
                assert(manifest[k - 1].index != manifest[j].index);
                assert forall|l: int| j < l < k - 1 implies manifest[l].index != manifest[j].index by {
                    assert(j < l < k);
                }
            }
        }
        assert forall|slot: int|
            0 <= slot < MAX_NUM_POLYNOMIALS && (forall|l: int|
                0 <= l < k ==> manifest[l].index != slot) implies #[trigger] cur[slot] == (
            Fr::spec_zero(),
            Fr::spec_zero(),
        ) by {
            assert(manifest[k - 1].index != slot);
            assert(prev[slot] == (Fr::spec_zero(), Fr::spec_zero()));
        }
    }
}

/// When manifest entries name different slots, the opening table read by
/// `get_polynomial_evaluations` holds each entry's openings in its slot, and
/// zeros in every slot no entry names.
pub proof fn lemma_evaluations_by_slot(
    manifest: Seq<PolynomialDescriptor>,
    transcript: &Transcript,
    k: int,
)
    requires
        0 <= k <= manifest.len(),
        slots_distinct(manifest),
        forall|j: int| 0 <= j < manifest.len() ==> #[trigger] manifest[j].index < MAX_NUM_POLYNOMIALS,
    ensures
        evaluations_after(manifest, transcript, k).len() == MAX_NUM_POLYNOMIALS,
        forall|j: int|
            0 <= j < k ==> evaluations_after(manifest, transcript, k)[#[trigger] manifest[j].index as int]
                == opening_of(manifest[j], transcript),
        forall|slot: int|
            0 <= slot < MAX_NUM_POLYNOMIALS && !slot_named(manifest, slot, k) ==> #[trigger] evaluations_after(
                manifest,
                transcript,
                k,
            )[slot] == (Fr::spec_zero(), Fr::spec_zero()),
    decreases k,
{
    if k > 0 {
        lemma_evaluations_by_slot(manifest, transcript, k - 1);
        let prev = evaluations_after(manifest, transcript, k - 1);
        let cur = evaluations_after(manifest, transcript, k);
        assert forall|j: int| 0 <= j < k implies cur[#[trigger] manifest[j].index as int] == opening_of(
            manifest[j],
            transcript,
        ) by {
            if j < k - 1 {
                assert(manifest[j].index != manifest[k - 1].index);
            }
        }
        assert forall|slot: int|
            0 <= slot < MAX_NUM_POLYNOMIALS && !slot_named(manifest, slot, k) implies #[trigger] cur[slot]
            == (Fr::spec_zero(), Fr::spec_zero()) by {
            assert(manifest[k - 1].index != slot);
            assert(!slot_named(manifest, slot, k - 1)) by {
                if slot_named(manifest, slot, k - 1) {
                    let j = choose|j: int| 0 <= j < k - 1 && #[trigger] manifest[j].index == slot;
                    assert(slot_named(manifest, slot, k));
                }
            }
        }
    }
}

/// The polynomial map built by `get_polynomials` holds exactly the required
/// slots that some manifest entry names; when entries name different slots,
/// each such slot holds its entry's stored coset-FFT form.
pub proof fn lemma_fft_polynomials_by_slot(
    manifest: Seq<PolynomialDescriptor>,
    required: Set<PolynomialIndex>,
    store: PolynomialStore,
    k: int,
)
    requires
        0 <= k <= manifest.len(),
    ensures
        forall|slot: PolynomialIndex|
            #[trigger] fft_polynomials_after(manifest, required, store, k).contains_key(slot) <==> (
            required.contains(slot) && slot_named(manifest, slot as int, k)),
        slots_distinct(manifest) ==> forall|j: int|
            0 <= j < k && required.contains(#[trigger] manifest[j].index) ==> fft_polynomials_after(
                manifest,
                required,
                store,
                k,
            )[manifest[j].index] == store.polynomial(manifest[j].polynomial_label@ + "_fft"@).unwrap(),
    decreases k,
{
    if k > 0 {
        lemma_fft_polynomials_by_slot(manifest, required, store, k - 1);
        let cur = fft_polynomials_after(manifest, required, store, k);
        assert forall|slot: PolynomialIndex|
            #[trigger] cur.contains_key(slot) <==> (required.contains(slot) && slot_named(
                manifest,
                slot as int,
                k,
            )) by {
            lemma_slot_named_step(manifest, slot as int, k);
            let prev = fft_polynomials_after(manifest, required, store, k - 1);
            assert(prev.contains_key(slot) <==> (required.contains(slot) && slot_named(
                manifest,
                slot as int,
                k - 1,
            )));
        }
        if slots_distinct(manifest) {
            assert forall|j: int|
                0 <= j < k && required.contains(#[trigger] manifest[j].index) implies cur[manifest[j].index]
                == store.polynomial(manifest[j].polynomial_label@ + "_fft"@).unwrap() by {
                if j < k - 1 {
                    assert(manifest[j].index != manifest[k - 1].index);
                }
            }
        }
    }
}

/// With a large domain of `2^n` points, the mask `get_polynomials` sets makes
/// the shifted read wrap around the domain: position `(index + shift) mod 2^n`.
pub proof fn lemma_shifted_position_wraps(index: usize, index_shift: usize, n: nat)
    requires
        n < usize::BITS,
        index + index_shift <= usize::MAX,
    ensures
        shifted_position(index, index_shift, (pow2(n) - 1) as usize) as int == (index + index_shift)
            % (pow2(n) as int),
{
    lemma_usize_pow2_no_overflow(n);
    lemma_pow2_pos(n);
    let x = (index + index_shift) as usize;
    lemma_usize_low_bits_mask_is_mod(x, n);
    assert(low_bits_mask(n) == pow2(n) - 1) by {
        reveal(low_bits_mask);
    }
}

} // verus!
