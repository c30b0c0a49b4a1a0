use vstd::prelude::*;

verus! {

/// A message from a comparison worker to the consumer: the worker with the
/// given number finished, a matching pair was found (the method and its
/// mirror), or the worker with the given number asks for a fresh outer index.
#[derive(Debug)]
pub enum ComparisonStatus {
    End(usize),
    Methods(Vec<usize>, Vec<usize>),
    NextIndex(usize),
}

/// Element-for-element equality of two node-index sequences.
fn ids_equal(a: &Vec<usize>, b: &Vec<usize>) -> (r: bool)
    ensures
        r == (a@ == b@),
{
    if a.len() != b.len() {
        return false;
    }
    let mut i: usize = 0;
    while i < a.len()
        invariant
            a@.len() == b@.len(),
            i <= a@.len(),
            forall|k: int| 0 <= k < i ==> a@[k] == b@[k],
        decreases a@.len() - i,
    {
        if a[i] != b[i] {
            return false;
        }
        i = i + 1;
    }
    proof {
        assert(a@ =~= b@);
    }
    true
}

impl PartialEq for ComparisonStatus {
    /// Messages compare by kind and payload.
    fn eq(&self, other: &Self) -> (r: bool) {
        match (self, other) {
            (ComparisonStatus::End(a), ComparisonStatus::End(b)) => a == b,
            (ComparisonStatus::Methods(m1, r1), ComparisonStatus::Methods(m2, r2)) => ids_equal(
                m1,
                m2,
            ) && ids_equal(r1, r2),
            (ComparisonStatus::NextIndex(a), ComparisonStatus::NextIndex(b)) => a == b,
            _ => false,
        }
    }
}

impl vstd::std_specs::cmp::PartialEqSpecImpl for ComparisonStatus {
    open spec fn obeys_eq_spec() -> bool {
        true
    }

    open spec fn eq_spec(&self, other: &ComparisonStatus) -> bool {
        match (self, other) {
            (ComparisonStatus::End(a), ComparisonStatus::End(b)) => a == b,
            (ComparisonStatus::Methods(m1, r1), ComparisonStatus::Methods(m2, r2)) => m1@ == m2@
                && r1@ == r2@,
            (ComparisonStatus::NextIndex(a), ComparisonStatus::NextIndex(b)) => a == b,
            _ => false,
        }
    }
}

} // verus!
