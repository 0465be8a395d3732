use vstd::prelude::*;

verus! {

/// The position of the last entry of `entries` whose label is `label`, if any.
pub open spec fn last_index_of<V>(entries: Seq<(String, V)>, label: Seq<char>) -> Option<int>
    decreases entries.len(),
{
    if entries.len() == 0 {
        None
    } else if entries.last().0@ == label {
        Some(entries.len() - 1)
    } else {
        last_index_of(entries.drop_last(), label)
    }
}

/// The value stored under `label` by the last entry that carries it.
pub open spec fn lookup<V>(entries: Seq<(String, V)>, label: Seq<char>) -> Option<V> {
    match last_index_of(entries, label) {
        Some(i) => Some(entries[i].1),
        None => None,
    }
}

/// A found position is in range and carries the label; no later entry carries it.
pub proof fn lemma_last_index_of<V>(entries: Seq<(String, V)>, label: Seq<char>)
    ensures
        last_index_of(entries, label) matches Some(i) ==> {
            &&& 0 <= i < entries.len()
            &&& entries[i].0@ == label
            &&& forall|j: int| i < j < entries.len() ==> entries[j].0@ != label
        },
        last_index_of(entries, label) is None ==> forall|j: int|
            0 <= j < entries.len() ==> entries[j].0@ != label,
    decreases entries.len(),
{
    if entries.len() > 0 {
        let prefix = entries.drop_last();
        lemma_last_index_of(prefix, label);
        assert(forall|j: int| 0 <= j < prefix.len() ==> prefix[j] == entries[j]);
    }
}

/// Appending an entry makes it the one found under its label, and leaves every
/// other label where it was.
pub proof fn lemma_lookup_push<V>(entries: Seq<(String, V)>, entry: (String, V), label: Seq<char>)
    ensures
        lookup(entries.push(entry), label) == (if entry.0@ == label {
            Some(entry.1)
        } else {
            lookup(entries, label)
        }),
{
    let pushed = entries.push(entry);
    assert(pushed.drop_last() =~= entries);
    if entry.0@ != label {
        if let Some(i) = last_index_of(entries, label) {
            lemma_last_index_of(entries, label);
            assert(pushed[i] == entries[i]);
        }
    }
}

/// Finds the position of the last entry labelled `label`.
pub fn find_last<V>(entries: &Vec<(String, V)>, label: &String) -> (r: Option<usize>)
    ensures
        r matches Some(i) ==> last_index_of(entries@, label@) == Some(i as int),
        r is None ==> last_index_of(entries@, label@) is None,
{
    let mut i: usize = entries.len();
    assert(entries@.take(i as int) =~= entries@);
    while i > 0
        invariant
            i <= entries.len(),
            last_index_of(entries@.take(i as int), label@) == last_index_of(entries@, label@),
        decreases i,
    {
        let prefix = Ghost(entries@.take(i as int));
        assert(prefix@.drop_last() =~= entries@.take(i - 1));
        assert(prefix@.last() == entries@[i - 1]);
        if entries[i - 1].0 == *label {
            return Some(i - 1);
        }
        i = i - 1;
    }
    None
}

} // verus!
