use vstd::prelude::*;

verus! {

/// The full method built from two half-methods that share their final node:
/// the first half, then the second half reversed with the shared node
/// dropped, closing the circuit.
pub open spec fn full_method_of(m1: Seq<usize>, m2: Seq<usize>) -> Seq<usize> {
    m1 + m2.take(m2.len() - 1).reverse()
}

/// Matches one fixed half-method against others by their final node and
/// builds the closed circuit for each match.
pub struct MethodMatcher<'a> {
    pub half_methods: &'a Vec<Vec<usize>>,
    pub current_method: &'a Vec<usize>,
    pub current_end_node: usize,
}

impl<'a> MethodMatcher<'a> {
    /// Fixes the half-method at `current_index` as the one to match against.
    /// Half-methods are never empty; an empty one is a caller error ruled out
    /// by the precondition.
    pub fn new(half_methods: &'a Vec<Vec<usize>>, current_index: usize) -> (r: MethodMatcher<'a>)
        requires
            current_index < half_methods@.len(),
            half_methods@[current_index as int]@.len() > 0,
        ensures
            r.half_methods == half_methods,
            r.current_method@ == half_methods@[current_index as int]@,
            r.current_end_node == half_methods@[current_index as int]@.last(),
    {
        let current_method = &half_methods[current_index];
        let current_end_node = current_method[current_method.len() - 1];
        MethodMatcher { half_methods, current_method, current_end_node }
    }

    /// Compares the fixed half-method's final node with that of the
    /// half-method at `comparison_index`; on a match, yields the closed
    /// circuit of the two.
    pub fn get_full_method_from_end_node_match(&self, comparison_index: usize) -> (r: Option<
        Vec<usize>,
    >)
        requires
            comparison_index < self.half_methods@.len(),
            self.half_methods@[comparison_index as int]@.len() > 0,
        ensures
            ({
                let cmp = self.half_methods@[comparison_index as int]@;
                if cmp.last() == self.current_end_node {
                    r matches Some(m) && m@ == full_method_of(self.current_method@, cmp)
                } else {
                    r is None
                }
            }),
    {
        let comparison_method = Self::get_method_at_index(self.half_methods, comparison_index);
        let comparison_end_node = Self::get_last_node(comparison_method);
        if self.current_end_node == comparison_end_node {
            Some(Self::build_full_method(self.current_method, comparison_method))
        } else {
            None
        }
    }

    /// The half-method stored at `index`.
    fn get_method_at_index(half_methods: &'a Vec<Vec<usize>>, index: usize) -> (r: &'a Vec<usize>)
        requires
            index < half_methods@.len(),
        ensures
            r@ == half_methods@[index as int]@,
    {
        &half_methods[index]
    }

    /// The final node of a half-method.
    fn get_last_node(half_method: &Vec<usize>) -> (r: usize)
        requires
            half_method@.len() > 0,
        ensures
            r == half_method@.last(),
    {
        half_method[half_method.len() - 1]
    }

    /// Concatenates `method1` with the reverse of `method2`, leaving out the
    /// joining node that `method1` already ends with.
    fn build_full_method(method1: &Vec<usize>, method2: &Vec<usize>) -> (r: Vec<usize>)
        requires
            method2@.len() > 0,
        ensures
            r@ == full_method_of(method1@, method2@),
    {
        let ghost rev = method2@.take(method2@.len() - 1).reverse();
        let mut full_method: Vec<usize> = Vec::new();
        let mut i: usize = 0;
        while i < method1.len()
            invariant
                i <= method1@.len(),
                full_method@ == method1@.take(i as int),
            decreases method1@.len() - i,
        {
            full_method.push(method1[i]);
            proof {
                assert(full_method@ =~= method1@.take(i + 1));
            }
            i = i + 1;
        }
        proof {
            assert(method1@.take(method1@.len() as int) =~= method1@);
        }
        let mut j: usize = method2.len() - 1;
        while j > 0
            invariant
                j <= method2@.len() - 1,
                rev == method2@.take(method2@.len() - 1).reverse(),
                rev.len() == method2@.len() - 1,
                full_method@ == method1@ + rev.take(method2@.len() - 1 - j),
            decreases j,
        {
            j = j - 1;
            proof {
                let cnt = method2@.len() - 1 - (j + 1);
                assert(rev[cnt] == method2@.take(method2@.len() - 1)[method2@.len() - 2 - cnt]);
                assert(rev[cnt] == method2@[j as int]);
            }
            full_method.push(method2[j]);
            proof {
                assert(full_method@ =~= method1@ + rev.take(method2@.len() - 1 - j));
            }
        }
        proof {
            assert(rev.take(rev.len() as int) =~= rev);
            assert(full_method@ == full_method_of(method1@, method2@));
        }
        full_method
    }
}

} // verus!
