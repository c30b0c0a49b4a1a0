use vstd::prelude::*;
use vstd::std_specs::cmp::PartialEqSpec;

verus! {

/// The mathematical factorial.
pub open spec fn fact(n: nat) -> nat
    decreases n,
{
    if n == 0 {
        1
    } else {
        n * fact((n - 1) as nat)
    }
}

pub proof fn lemma_fact_monotone(a: nat, b: nat)
    requires
        a <= b,
    ensures
        fact(a) <= fact(b),
    decreases b,
{
    if a < b {
        lemma_fact_monotone(a, (b - 1) as nat);
        assert(fact(b) == b * fact((b - 1) as nat));
        assert(b * fact((b - 1) as nat) >= 1 * fact((b - 1) as nat)) by (nonlinear_arith)
            requires
                b >= 1,
                fact((b - 1) as nat) >= 0,
        ;
    }
}

/// Computes the factorial of `n`, with the one quirk that an input of zero
/// yields zero rather than one.
pub fn factorial(n: usize) -> (r: usize)
    requires
        fact(n as nat) <= usize::MAX,
    ensures
        n == 0 ==> r == 0,
        n > 0 ==> r == fact(n as nat),
{
    if n == 0 {
        return 0;
    }
    let mut acc: usize = 1;
    let mut i: usize = 0;
    while i < n
        invariant
            i <= n,
            acc == fact(i as nat),
            fact(n as nat) <= usize::MAX,
        decreases n - i,
    {
        proof {
            lemma_fact_monotone((i + 1) as nat, n as nat);
            let i1: nat = (i + 1) as nat;
            assert(fact(i1) == i1 * fact((i1 - 1) as nat));
            assert((i1 - 1) as nat == i as nat);
            assert(acc * (i + 1) == fact(i1)) by (nonlinear_arith)
                requires
                    acc == fact(i as nat),
                    fact(i1) == i1 * fact(i as nat),
                    i1 == i + 1,
            ;
        }
        acc = acc * (i + 1);
        i = i + 1;
    }
    acc
}

/// No two positions of `s` hold values that compare equal.
pub open spec fn pairwise_distinct<T: PartialEq>(s: Seq<T>) -> bool {
    forall|x: int, y: int|
        0 <= x < s.len() && 0 <= y < s.len() && x != y ==> !(#[trigger] s[x].eq_spec(&s[y]))
}

/// Decides whether every member of `items` is distinct from every other.
pub fn are_unique<T: PartialEq>(items: &Vec<T>) -> (r: bool)
    requires
        <T as PartialEqSpec>::obeys_eq_spec(),
    ensures
        r == pairwise_distinct(items@),
{
    let mut is_valid = true;
    let mut index_out: usize = 0;
    while index_out < items.len()
        invariant
            <T as PartialEqSpec>::obeys_eq_spec(),
            index_out <= items@.len(),
            is_valid == (forall|x: int, y: int|
                0 <= x < index_out && 0 <= y < items@.len() && x != y ==> !(#[trigger] items@[x].eq_spec(
                    &items@[y],
                ))),
        decreases items@.len() - index_out,
    {
        let mut index_in: usize = 0;
        while index_in < items.len()
            invariant
                <T as PartialEqSpec>::obeys_eq_spec(),
                index_out < items@.len(),
                index_in <= items@.len(),
                is_valid == ((forall|x: int, y: int|
                    0 <= x < index_out && 0 <= y < items@.len() && x != y ==> !(#[trigger] items@[x].eq_spec(
                        &items@[y],
                    ))) && (forall|y: int|
                    0 <= y < index_in && y != index_out ==> !(#[trigger] items@[index_out as int].eq_spec(
                        &items@[y],
                    )))),
            decreases items@.len() - index_in,
        {
            if index_out != index_in {
                let same = &items[index_out] == &items[index_in];
                is_valid = is_valid && !same;
            }
            index_in = index_in + 1;
        }
        index_out = index_out + 1;
    }
    is_valid
}

} // verus!
