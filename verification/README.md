# Transition widgets, verified

The transition widgets of a PLONK prover and verifier, written in Verus.

- `src/field.rs`: the scalar field `Fr` (integers modulo 2^64 - 2^32 + 1), kept canonical by a type invariant.
- `src/labels.rs`, `src/transcript.rs`, `src/proving_key.rs`: the transcript (challenges and openings stored by label), the proving and verification keys, and the polynomial store.
- `src/transition_widget.rs`: challenge loading and powers of α (`BaseGetter`), openings (`EvaluationGetter`), coset-FFT polynomials (`FFTGetter`), the `KernelBase` trait that each widget kind implements, and the prover (`TransitionWidget`) and verifier (`GenericVerifierWidget`) widgets, with the laws that relate them.
- `src/arithmetic_kernel.rs`: the standard arithmetic constraint as a `KernelBase` implementation for both the prover and the verifier.

`tests/` runs the widgets on concrete circuits.
