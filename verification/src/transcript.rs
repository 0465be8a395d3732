use vstd::prelude::*;

use crate::field::Fr;
use crate::labels::{find_last, lemma_last_index_of, lemma_lookup_push, lookup};

verus! {

/// The prover/verifier transcript as the widgets read it: the challenges derived
/// under each label, and the field elements (polynomial openings) sent under
/// each label. A later entry under a label shadows an earlier one.
pub struct Transcript {
    pub challenges: Vec<(String, Vec<Fr>)>,
    pub elements: Vec<(String, Fr)>,
}

impl Transcript {
    /// The challenges recorded under `label`.
    pub open spec fn challenge_values(&self, label: Seq<char>) -> Option<Seq<Fr>> {
        match lookup(self.challenges@, label) {
            Some(v) => Some(v@),
            None => None,
        }
    }

    /// The field element recorded under `label`.
    pub open spec fn field_element(&self, label: Seq<char>) -> Option<Fr> {
        lookup(self.elements@, label)
    }

    /// An empty transcript.
    pub fn new() -> (t: Transcript)
        ensures
            t.challenges@.len() == 0,
            t.elements@.len() == 0,
            forall|l: Seq<char>| t.challenge_values(l) is None && t.field_element(l) is None,
    {
        Transcript { challenges: Vec::new(), elements: Vec::new() }
    }

    /// Records the challenges derived under `label`.
    pub fn put_challenges(&mut self, label: String, values: Vec<Fr>)
        ensures
            final(self).challenges@ == old(self).challenges@.push((label, values)),
            final(self).elements@ == old(self).elements@,
            final(self).challenge_values(label@) == Some(values@),
            forall|l: Seq<char>|
                l != label@ ==> final(self).challenge_values(l) == old(self).challenge_values(l),
    {
        proof {
            assert forall|l: Seq<char>| #[trigger] lookup(old(self).challenges@.push((label, values)), l)
                == (if label@ == l { Some(values) } else { lookup(old(self).challenges@, l) }) by {
                lemma_lookup_push(old(self).challenges@, (label, values), l);
            }
        }
        self.challenges.push((label, values));
    }

    /// Records the field element sent under `label`.
    pub fn put_field_element(&mut self, label: String, value: Fr)
        ensures
            final(self).elements@ == old(self).elements@.push((label, value)),
            final(self).challenges@ == old(self).challenges@,
            final(self).field_element(label@) == Some(value),
            forall|l: Seq<char>|
                l != label@ ==> final(self).field_element(l) == old(self).field_element(l),
    {
        proof {
            assert forall|l: Seq<char>| #[trigger] lookup(old(self).elements@.push((label, value)), l)
                == (if label@ == l { Some(value) } else { lookup(old(self).elements@, l) }) by {
                lemma_lookup_push(old(self).elements@, (label, value), l);
            }
        }
        self.elements.push((label, value));
    }

    /// Whether challenges were derived under `label`.
    pub fn has_challenge(&self, label: &String) -> (r: bool)
        ensures
            r == self.challenge_values(label@) is Some,
    {
        find_last(&self.challenges, label).is_some()
    }

    /// How many challenges were derived under `label`.
    pub fn get_num_challenges(&self, label: &String) -> (r: usize)
        requires
            self.challenge_values(label@) is Some,
        ensures
            r == self.challenge_values(label@).unwrap().len(),
    {
        let i = find_last(&self.challenges, label).unwrap();
        proof {
            lemma_last_index_of(self.challenges@, label@);
        }
        self.challenges[i].1.len()
    }

    /// The `index`-th challenge derived under `label`.
    pub fn get_challenge_field_element(&self, label: &String, index: usize) -> (r: Fr)
        requires
            self.challenge_values(label@) matches Some(v) && index < v.len(),
        ensures
            r == self.challenge_values(label@).unwrap()[index as int],
    {
        let i = find_last(&self.challenges, label).unwrap();
        proof {
            lemma_last_index_of(self.challenges@, label@);
        }
        self.challenges[i].1[index]
    }

    /// The field element sent under `label`.
    pub fn get_field_element(&self, label: &String) -> (r: Fr)
        requires
            self.field_element(label@) is Some,
        ensures
            r == self.field_element(label@).unwrap(),
    {
        let i = find_last(&self.elements, label).unwrap();
        proof {
            lemma_last_index_of(self.elements@, label@);
        }
        self.elements[i].1
    }
}

} // verus!
