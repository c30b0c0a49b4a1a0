use vstd::prelude::*;
use vstd::slice::{slice_index_get, slice_subrange};

verus! {

/// First position of the window of `before` that position `i` of `after` may
/// draw its value from.
pub open spec fn window_lo(i: int) -> int {
    if i == 0 {
        0
    } else {
        i - 1
    }
}

/// One past the last position of that window, clipped at the row's end.
pub open spec fn window_hi(i: int, len: int) -> int {
    if i + 2 <= len {
        i + 2
    } else {
        len
    }
}

/// The value `v` stands somewhere in the window of `before` around position `i`.
pub open spec fn value_in_window(before: Seq<u8>, i: int, v: u8) -> bool {
    exists|j: int| window_lo(i) <= j < window_hi(i, before.len() as int) && before[j] == v
}

/// One legal change: for every position, the value of `after` at that position
/// already stood in `before` at the same position or an adjacent one, so no
/// symbol moves more than one place.
pub open spec fn is_valid_change_spec(before: Seq<u8>, after: Seq<u8>) -> bool {
    forall|i: int| 0 <= i < after.len() ==> value_in_window(before, i, #[trigger] after[i])
}

/// The valid-change rule holds of any row paired with itself.
pub proof fn lemma_valid_change_reflexive(row: Seq<u8>)
    ensures
        is_valid_change_spec(row, row),
{
    assert forall|i: int| 0 <= i < row.len() implies value_in_window(row, i, #[trigger] row[i]) by {
        assert(window_lo(i) <= i < window_hi(i, row.len() as int) && row[i] == row[i]);
    }
}

/// One direction of the symmetry argument: on duplicate-free rows that hold
/// the same values, a valid change read backwards is again a valid change.
proof fn lemma_valid_change_converse(a: Seq<u8>, b: Seq<u8>)
    requires
        a.no_duplicates(),
        b.no_duplicates(),
        a.to_multiset() == b.to_multiset(),
        is_valid_change_spec(a, b),
    ensures
        is_valid_change_spec(b, a),
{
    a.to_multiset_ensures();
    b.to_multiset_ensures();
    assert(a.len() == a.to_multiset().len());
    assert(b.len() == b.to_multiset().len());
    assert(a.len() == b.len());
    assert forall|i: int| 0 <= i < a.len() implies value_in_window(b, i, #[trigger] a[i]) by {
        let v = a[i];
        assert(a.contains(v));
        assert(a.to_multiset().count(v) > 0);
        assert(b.to_multiset().count(v) > 0);
        assert(b.contains(v));
        let k = choose|k: int| 0 <= k < b.len() && b[k] == v;
        assert(value_in_window(a, k, b[k]));
        let j = choose|j: int|
            window_lo(k) <= j < window_hi(k, a.len() as int) && a[j] == b[k];
        assert(a[j] == a[i]);
        assert(j == i);
        assert(window_lo(i) <= k < window_hi(i, b.len() as int) && b[k] == v);
    }
}

/// The valid-change rule does not depend on the direction of the transition:
/// between duplicate-free rows that hold the same values, `after` is one
/// change away from `before` exactly when `before` is one change away from
/// `after`.
pub proof fn lemma_valid_change_symmetric(a: Seq<u8>, b: Seq<u8>)
    requires
        a.no_duplicates(),
        b.no_duplicates(),
        a.to_multiset() == b.to_multiset(),
    ensures
        is_valid_change_spec(a, b) == is_valid_change_spec(b, a),
{
    if is_valid_change_spec(a, b) {
        lemma_valid_change_converse(a, b);
    }
    if is_valid_change_spec(b, a) {
        lemma_valid_change_converse(b, a);
    }
}

/// The window of `change` around `index`: the value there and its immediate
/// neighbours, clipped at the row boundaries.
pub fn get_neighbouring_values_slice(index: usize, change: &[u8]) -> (r: &[u8])
    requires
        index < change@.len(),
    ensures
        r@ == change@.subrange(window_lo(index as int), window_hi(index as int, change@.len() as int)),
{
    let change_len = change.len();
    if index == 0 && change_len == 1 {
        proof {
            assert(change@.subrange(0, 1) =~= change@);
        }
        change
    } else if index == 0 {
        slice_subrange(change, 0, 2)
    } else if index + 1 == change_len {
        slice_subrange(change, index - 1, change_len)
    } else {
        slice_subrange(change, index - 1, index + 2)
    }
}

/// Decides the valid-change rule for two rows of equal length.
pub fn is_valid_change(before: &[u8], after: &[u8]) -> (r: bool)
    requires
        before@.len() == after@.len(),
    ensures
        r == is_valid_change_spec(before@, after@),
{
    let ghost len = before@.len() as int;
    let mut result = true;
    let mut i: usize = 0;
    while i < after.len()
        invariant
            before@.len() == after@.len(),
            i <= after@.len(),
            result == (forall|k: int| 0 <= k < i ==> value_in_window(before@, k, #[trigger] after@[k])),
        decreases after@.len() - i,
    {
        let window = get_neighbouring_values_slice(i, before);
        let val = *slice_index_get(after, i);
        let mut found = false;
        let mut j: usize = 0;
        while j < window.len()
            invariant
                window@ == before@.subrange(
                    window_lo(i as int),
                    window_hi(i as int, before@.len() as int),
                ),
                j <= window@.len(),
                found == (exists|t: int| 0 <= t < j && window@[t] == val),
            decreases window@.len() - j,
        {
            if *slice_index_get(window, j) == val {
                found = true;
                assert(window@[j as int] == val);
            }
            j = j + 1;
        }
        proof {
            let lo = window_lo(i as int);
            let hi = window_hi(i as int, before@.len() as int);
            if found {
                let t = choose|t: int| 0 <= t < window@.len() && window@[t] == val;
                assert(before@[lo + t] == val);
                assert(value_in_window(before@, i as int, val));
            }
            if value_in_window(before@, i as int, val) {
                let w = choose|w: int| lo <= w < hi && before@[w] == val;
                assert(window@[w - lo] == val);
                assert(found);
            }
        }
        result = result && found;
        i = i + 1;
    }
    result
}

} // verus!
