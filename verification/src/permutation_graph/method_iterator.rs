pub mod channel_helper;
pub mod comparison_index_store;
pub mod comparison_status;
pub mod method_matcher;

use vstd::prelude::*;

use crate::permutation_graph::method_iterator::comparison_index_store::ComparisonIndexStore;
use crate::permutation_graph::method_iterator::method_matcher::{full_method_of, MethodMatcher};
use crate::permutation_graph::node_stack::lemma_distinct_ids;
use crate::permutation_graph::utility::{are_unique, pairwise_distinct};

verus! {

/// The half-methods at `i` and `j` close into a circuit: they share their
/// final node, and the circuit's rows, the final return to rounds aside, are
/// pairwise distinct.
pub open spec fn pair_match(hms: Seq<Seq<usize>>, i: int, j: int) -> bool {
    &&& hms[i].last() == hms[j].last()
    &&& full_method_of(hms[i], hms[j]).drop_last().no_duplicates()
}

/// The full methods still to be yielded from cursor `(i, j)` on: pairs are
/// scanned with `i` outer and `j` inner, and every match yields the circuit
/// and then its mirror.
pub open spec fn pair_stream(hms: Seq<Seq<usize>>, i: int, j: int) -> Seq<Seq<usize>>
    decreases hms.len() - i, hms.len() - j,
{
    if i < 0 || j < i + 1 || i >= hms.len() - 1 {
        Seq::empty()
    } else if j >= hms.len() {
        pair_stream(hms, i + 1, i + 2)
    } else if pair_match(hms, i, j) {
        seq![full_method_of(hms[i], hms[j]), full_method_of(hms[j], hms[i])] + pair_stream(
            hms,
            i,
            j + 1,
        )
    } else {
        pair_stream(hms, i, j + 1)
    }
}

/// Reversing a circuit built from two half-methods that share their final
/// node yields exactly the circuit built the other way round.
pub proof fn lemma_mirror(m1: Seq<usize>, m2: Seq<usize>)
    requires
        m1.len() > 0,
        m2.len() > 0,
        m1.last() == m2.last(),
    ensures
        full_method_of(m1, m2).reverse() == full_method_of(m2, m1),
{
    let p = m1.len() as int;
    let q = m2.len() as int;
    let lhs = full_method_of(m1, m2).reverse();
    let rhs = full_method_of(m2, m1);
    assert(m2.take(q - 1).len() == q - 1);
    assert(m1.take(p - 1).len() == p - 1);
    assert(lhs.len() == p + q - 1);
    assert(rhs.len() == p + q - 1);
    assert forall|x: int| 0 <= x < p + q - 1 implies lhs[x] == rhs[x] by {
        let y = p + q - 2 - x;
        assert(lhs[x] == full_method_of(m1, m2)[y]);
        if y < p {
            assert(full_method_of(m1, m2)[y] == m1[y]);
        } else {
            assert(full_method_of(m1, m2)[y] == m2.take(q - 1).reverse()[y - p]);
            assert(m2.take(q - 1).reverse()[y - p] == m2.take(q - 1)[q - 2 - (y - p)]);
        }
        if x < q {
            assert(rhs[x] == m2[x]);
        } else {
            assert(rhs[x] == m1.take(p - 1).reverse()[x - q]);
            assert(m1.take(p - 1).reverse()[x - q] == m1.take(p - 1)[p - 2 - (x - q)]);
        }
    }
    assert(lhs =~= rhs);
}

/// Both circuits of one matching pair of half-methods of common length
/// `len` that start at `first`: each runs from `first` back to `first`, has
/// length 2·len − 1, and repeats no row before the final return.
proof fn lemma_match_shape(hms: Seq<Seq<usize>>, i: int, j: int, len: nat, first: usize)
    requires
        0 <= i < hms.len(),
        0 <= j < hms.len(),
        hms[i].len() == len,
        hms[j].len() == len,
        hms[i][0] == first,
        hms[j][0] == first,
        len >= 1,
        pair_match(hms, i, j),
    ensures
        ({
            let a = full_method_of(hms[i], hms[j]);
            let b = full_method_of(hms[j], hms[i]);
            &&& a.len() == 2 * len - 1
            &&& b.len() == 2 * len - 1
            &&& a[0] == first
            &&& b[0] == first
            &&& a.last() == first
            &&& b.last() == first
            &&& a.drop_last().no_duplicates()
            &&& b.drop_last().no_duplicates()
        }),
{
    let a = full_method_of(hms[i], hms[j]);
    let b = full_method_of(hms[j], hms[i]);
    let n = a.len() as int;
    assert(hms[j].take(len - 1).len() == len - 1);
    assert(hms[i].take(len - 1).len() == len - 1);
    assert(a.len() == 2 * len - 1);
    assert(b.len() == 2 * len - 1);
    assert(a[0] == hms[i][0]);
    assert(b[0] == hms[j][0]);
    if len == 1 {
        assert(a.last() == hms[i][0]);
        assert(b.last() == hms[j][0]);
    } else {
        assert(a[n - 1] == hms[j].take(len - 1).reverse()[n - 1 - len]);
        assert(hms[j].take(len - 1).reverse()[n - 1 - len] == hms[j].take(len - 1)[(len - 2) - (n
            - 1 - len)]);
        assert((len - 2) - (n - 1 - len) == 0);
        assert(a.last() == hms[j][0]);
        assert(b[n - 1] == hms[i].take(len - 1).reverse()[n - 1 - len]);
        assert(hms[i].take(len - 1).reverse()[n - 1 - len] == hms[i].take(len - 1)[(len - 2) - (n
            - 1 - len)]);
        assert(b.last() == hms[i][0]);
    }
    assert(a.drop_last().no_duplicates());
    lemma_mirror(hms[i], hms[j]);
    assert(b == a.reverse());
    assert(a[0] == a[n - 1]);
    let ad = a.drop_last();
    let bd = b.drop_last();
    assert(bd.len() == n - 1);
    assert forall|x: int, y: int|
        0 <= x < bd.len() && 0 <= y < bd.len() && x != y implies bd[x] != bd[y] by {
        let u = n - 1 - x;
        let v = n - 1 - y;
        assert(bd[x] == b[x]);
        assert(bd[y] == b[y]);
        assert(b[x] == a[u]);
        assert(b[y] == a[v]);
        if u <= n - 2 && v <= n - 2 {
            assert(ad[u] == a[u]);
            assert(ad[v] == a[v]);
            assert(ad[u] != ad[v]);
        } else if u == n - 1 {
            assert(a[u] == a[0]);
            assert(1 <= v <= n - 2);
            assert(ad[0] != ad[v]);
        } else {
            assert(v == n - 1);
            assert(a[v] == a[0]);
            assert(1 <= u <= n - 2);
            assert(ad[0] != ad[u]);
        }
    }
    assert(bd.no_duplicates());
}

/// Every full method the pairing engine yields from half-methods of one
/// common length that all start at one row runs from that row back to it,
/// has length twice the half-method length less one, and repeats no row
/// before the final return.
pub proof fn lemma_pair_stream_shape(hms: Seq<Seq<usize>>, i: int, j: int, len: nat, first: usize)
    requires
        forall|k: int| 0 <= k < hms.len() ==> (#[trigger] hms[k]).len() == len,
        forall|k: int| 0 <= k < hms.len() ==> (#[trigger] hms[k])[0] == first,
        len >= 1,
    ensures
        forall|x: int|
            0 <= x < pair_stream(hms, i, j).len() ==> {
                let m = #[trigger] pair_stream(hms, i, j)[x];
                &&& m.len() == 2 * len - 1
                &&& m[0] == first
                &&& m.last() == first
                &&& m.drop_last().no_duplicates()
            },
    decreases hms.len() - i, hms.len() - j,
{
    if i < 0 || j < i + 1 || i >= hms.len() - 1 {
        assert(pair_stream(hms, i, j) == Seq::<Seq<usize>>::empty());
    } else if j >= hms.len() {
        lemma_pair_stream_shape(hms, i + 1, i + 2, len, first);
        assert(pair_stream(hms, i, j) == pair_stream(hms, i + 1, i + 2));
    } else if pair_match(hms, i, j) {
        lemma_match_shape(hms, i, j, len, first);
        lemma_pair_stream_shape(hms, i, j + 1, len, first);
        let head = seq![full_method_of(hms[i], hms[j]), full_method_of(hms[j], hms[i])];
        let tail = pair_stream(hms, i, j + 1);
        let whole = pair_stream(hms, i, j);
        assert forall|x: int| 0 <= x < whole.len() implies {
            let m = #[trigger] whole[x];
            &&& m.len() == 2 * len - 1
            &&& m[0] == first
            &&& m.last() == first
            &&& m.drop_last().no_duplicates()
        } by {
            if x < 2 {
                assert(whole[x] == head[x]);
            } else {
                assert(whole[x] == tail[x - 2]);
            }
        }
    } else {
        lemma_pair_stream_shape(hms, i, j + 1, len, first);
        assert(pair_stream(hms, i, j) == pair_stream(hms, i, j + 1));
    }
}

/// The single method of the degenerate one-half-method case: the chain of
/// rounds alone, or rounds, the one change, and rounds again.
pub open spec fn one_method(hm: Seq<usize>) -> Seq<usize> {
    if hm.len() == 1 {
        hm
    } else {
        seq![hm[0], hm[1], hm[0]]
    }
}

/// What a fresh iterator over the given half-methods will yield, in order.
pub open spec fn new_stream(hms: Seq<Seq<usize>>) -> Seq<Seq<usize>> {
    if hms.len() == 0 {
        seq![Seq::<usize>::empty()]
    } else if hms.len() == 1 {
        seq![one_method(hms[0])]
    } else {
        pair_stream(hms, 0, 1)
    }
}

/// Yields the one full method of a graph with no rows: the empty sequence.
pub struct ZeroMethodIterator {
    pub done: bool,
}

/// Yields the one full method of a single short half-method.
pub struct OneMethodIterator {
    pub done: bool,
    pub half_methods: Vec<Vec<usize>>,
}

/// Yields every circuit that two or more half-methods close into, scanning
/// all pairs in order and handing out each match and then its mirror.
pub struct FullMethodIterator {
    pub half_methods: Vec<Vec<usize>>,
    pub current_index: usize,
    pub comparison_index: usize,
    pub last_method_reverse: Option<Vec<usize>>,
}

/// A lazy, single-pass source of full methods.
pub enum MethodIterator {
    Zero(ZeroMethodIterator),
    One(OneMethodIterator),
    Full(FullMethodIterator),
}

impl ZeroMethodIterator {
    /// The methods still to be yielded.
    pub open spec fn upcoming(self) -> Seq<Seq<usize>> {
        if self.done {
            Seq::empty()
        } else {
            seq![Seq::<usize>::empty()]
        }
    }

    /// A fresh iterator that has yielded nothing yet.
    pub fn new() -> (r: ZeroMethodIterator)
        ensures
            !r.done,
    {
        ZeroMethodIterator { done: false }
    }

    /// The one empty method, then nothing.
    pub fn next(&mut self) -> (r: Option<Vec<usize>>)
        ensures
            old(self).upcoming().len() == 0 ==> r is None && final(self).upcoming() == old(
                self,
            ).upcoming(),
            old(self).upcoming().len() > 0 ==> (r matches Some(m) && m@ == old(self).upcoming()[0]
                && final(self).upcoming() == old(self).upcoming().drop_first()),
    {
        if self.done {
            None
        } else {
            self.done = true;
            let empty_method: Vec<usize> = Vec::new();
            proof {
                assert(old(self).upcoming().drop_first() =~= self.upcoming());
            }
            Some(empty_method)
        }
    }
}

impl OneMethodIterator {
    /// Exactly one half-method is held, of one or two rows.
    pub open spec fn wf(self) -> bool {
        &&& self.half_methods@.len() == 1
        &&& 1 <= self.half_methods@[0]@.len() <= 2
    }

    /// The methods still to be yielded.
    pub open spec fn upcoming(self) -> Seq<Seq<usize>> {
        if self.done {
            Seq::empty()
        } else {
            seq![one_method(self.half_methods@[0]@)]
        }
    }

    /// A fresh iterator over the one half-method. Handing it any other shape
    /// of input is a caller error and is ruled out by the precondition.
    pub fn new(half_methods: Vec<Vec<usize>>) -> (r: OneMethodIterator)
        requires
            half_methods@.len() == 1,
            1 <= half_methods@[0]@.len() <= 2,
        ensures
            r.wf(),
            !r.done,
            r.half_methods@ == half_methods@,
    {
        OneMethodIterator { done: false, half_methods }
    }

    /// Whether the input fits this iterator: one half-method of at most two
    /// rows.
    pub fn validate_half_method_input(half_methods: &Vec<Vec<usize>>) -> (r: bool)
        ensures
            r == (half_methods@.len() == 1 && half_methods@[0]@.len() <= 2),
    {
        if half_methods.len() != 1 {
            false
        } else {
            half_methods[0].len() <= 2
        }
    }

    /// The one closed method, then nothing: the half-method itself when it is
    /// rounds alone, else rounds, the change, and rounds again.
    pub fn next(&mut self) -> (r: Option<Vec<usize>>)
        requires
            old(self).wf(),
        ensures
            final(self).wf(),
            old(self).upcoming().len() == 0 ==> r is None && final(self).upcoming() == old(
                self,
            ).upcoming(),
            old(self).upcoming().len() > 0 ==> (r matches Some(m) && m@ == old(self).upcoming()[0]
                && final(self).upcoming() == old(self).upcoming().drop_first()),
    {
        if self.done {
            None
        } else {
            self.done = true;
            let half_method = &self.half_methods[0];
            let mut method: Vec<usize> = Vec::new();
            if half_method.len() == 1 {
                method.push(half_method[0]);
                proof {
                    assert(method@ =~= one_method(self.half_methods@[0]@));
                }
            } else {
                let rounds_node = half_method[0];
                let change_node = half_method[1];
                method.push(rounds_node);
                method.push(change_node);
                method.push(rounds_node);
                proof {
                    assert(method@ =~= one_method(self.half_methods@[0]@));
                }
            }
            proof {
                assert(old(self).upcoming().drop_first() =~= self.upcoming());
            }
            Some(method)
        }
    }
}

impl FullMethodIterator {
    /// At least two half-methods, none empty, and a cursor inside the pair
    /// space.
    pub open spec fn wf(self) -> bool {
        &&& self.half_methods@.len() >= 2
        &&& forall|k: int|
            0 <= k < self.half_methods@.len() ==> (#[trigger] self.half_methods@[k])@.len() > 0
        &&& self.current_index + 1 <= self.comparison_index
        &&& self.comparison_index <= self.half_methods@.len()
        &&& self.current_index <= self.half_methods@.len() - 1
    }

    /// The half-methods as sequences.
    pub open spec fn hms(self) -> Seq<Seq<usize>> {
        self.half_methods@.map_values(|m: Vec<usize>| m@)
    }

    /// The methods still to be yielded: a pending mirror first, then every
    /// match from the cursor on.
    pub open spec fn upcoming(self) -> Seq<Seq<usize>> {
        (match self.last_method_reverse {
            Some(m) => seq![m@],
            None => Seq::<Seq<usize>>::empty(),
        }) + pair_stream(self.hms(), self.current_index as int, self.comparison_index as int)
    }

    /// A fresh iterator over two or more half-methods. Fewer is a caller
    /// error and is ruled out by the precondition.
    pub fn new(half_methods: Vec<Vec<usize>>) -> (r: FullMethodIterator)
        requires
            half_methods@.len() >= 2,
            forall|k: int|
                0 <= k < half_methods@.len() ==> (#[trigger] half_methods@[k])@.len() > 0,
        ensures
            r.wf(),
            r.half_methods@ == half_methods@,
            r.upcoming() == pair_stream(r.hms(), 0, 1),
    {
        let r = FullMethodIterator {
            half_methods,
            current_index: 0,
            comparison_index: 1,
            last_method_reverse: None,
        };
        proof {
            assert(r.upcoming() =~= pair_stream(r.hms(), 0, 1));
        }
        r
    }

    /// Whether the input fits this iterator: more than one half-method.
    pub fn validate_half_method_input(half_methods: &Vec<Vec<usize>>) -> (r: bool)
        ensures
            r == (half_methods@.len() >= 2),
    {
        half_methods.len() >= 2
    }

    /// The given method read back to front.
    pub fn get_reverse_method(method: &Vec<usize>) -> (r: Vec<usize>)
        ensures
            r@ == method@.reverse(),
    {
        let mut reversed: Vec<usize> = Vec::new();
        let mut k: usize = method.len();
        while k > 0
            invariant
                k <= method@.len(),
                reversed@.len() == method@.len() - k,
                forall|x: int|
                    0 <= x < reversed@.len() ==> reversed@[x] == method@[method@.len() - 1 - x],
            decreases k,
        {
            k = k - 1;
            reversed.push(method[k]);
        }
        proof {
            assert(reversed@ =~= method@.reverse());
        }
        reversed
    }

    /// Hands out the pending mirror method, if one is stashed, and clears it.
    pub fn consume_reverse_method(&mut self) -> (r: Option<Vec<usize>>)
        ensures
            r == old(self).last_method_reverse,
            final(self).last_method_reverse is None,
            final(self).half_methods == old(self).half_methods,
            final(self).current_index == old(self).current_index,
            final(self).comparison_index == old(self).comparison_index,
    {
        let mut method = None;
        core::mem::swap(&mut self.last_method_reverse, &mut method);
        method
    }

    /// The next full method: the pending mirror if one is stashed, otherwise
    /// the next matching pair in scan order, whose mirror is stashed for the
    /// following call; nothing once every pair has been scanned.
    pub fn next(&mut self) -> (r: Option<Vec<usize>>)
        requires
            old(self).wf(),
        ensures
            final(self).wf(),
            final(self).hms() == old(self).hms(),
            old(self).upcoming().len() == 0 ==> r is None && final(self).upcoming() == old(
                self,
            ).upcoming(),
            old(self).upcoming().len() > 0 ==> (r matches Some(m) && m@ == old(self).upcoming()[0]
                && final(self).upcoming() == old(self).upcoming().drop_first()),
    {
        if self.last_method_reverse.is_some() {
            let r = self.consume_reverse_method();
            proof {
                assert(old(self).upcoming().drop_first() =~= self.upcoming());
            }
            return r;
        }
        let ghost hms0 = self.hms();
        let ghost up0 = pair_stream(
            hms0,
            self.current_index as int,
            self.comparison_index as int,
        );
        let len = self.half_methods.len();
        while self.current_index < len - 1
            invariant
                self.wf(),
                self.hms() == hms0,
                len == self.half_methods@.len(),
                self.last_method_reverse is None,
                pair_stream(hms0, self.current_index as int, self.comparison_index as int) == up0,
                hms0 == old(self).hms(),
                old(self).last_method_reverse is None,
                up0 == pair_stream(
                    hms0,
                    old(self).current_index as int,
                    old(self).comparison_index as int,
                ),
            decreases len - self.current_index, len + 1 - self.comparison_index,
        {
            let ghost i = self.current_index as int;
            let ghost j = self.comparison_index as int;
            if self.comparison_index < len {
                let matcher = MethodMatcher::new(&self.half_methods, self.current_index);
                proof {
                    assert(hms0[i] == self.half_methods@[i]@);
                    assert(hms0[j] == self.half_methods@[j]@);
                }
                let full_method_match = matcher.get_full_method_from_end_node_match(
                    self.comparison_index,
                );
                self.comparison_index = self.comparison_index + 1;
                match full_method_match {
                    Some(method) => {
                        proof {
                            assert(method@ == full_method_of(hms0[i], hms0[j]));
                            assert(hms0[i].last() == hms0[j].last());
                            assert(method@.len() == hms0[i].len() + hms0[j].len() - 1);
                        }
                        let mut prefix: Vec<usize> = Vec::new();
                        let mut t: usize = 0;
                        while t < method.len() - 1
                            invariant
                                method@.len() >= 1,
                                t <= method@.len() - 1,
                                prefix@ == method@.take(t as int),
                            decreases method@.len() - 1 - t,
                        {
                            prefix.push(method[t]);
                            proof {
                                assert(prefix@ =~= method@.take(t + 1));
                            }
                            t = t + 1;
                        }
                        proof {
                            assert(prefix@ =~= method@.drop_last());
                        }
                        let unique = are_unique(&prefix);
                        proof {
                            lemma_distinct_ids(prefix@);
                        }
                        if unique {
                            proof {
                                assert(pair_match(hms0, i, j));
                                assert(pair_stream(hms0, i, j) == seq![
                                    full_method_of(hms0[i], hms0[j]),
                                    full_method_of(hms0[j], hms0[i]),
                                ] + pair_stream(hms0, i, j + 1));
                            }
                            let reverse_method = Self::get_reverse_method(&method);
                            proof {
                                lemma_mirror(hms0[i], hms0[j]);
                                assert(reverse_method@ == full_method_of(hms0[j], hms0[i]));
                            }
                            self.last_method_reverse = Some(reverse_method);
                            proof {
                                assert(up0[0] == method@);
                                assert(self.upcoming() =~= up0.drop_first());
                                assert(old(self).upcoming() =~= up0);
                            }
                            return Some(method);
                        } else {
                            proof {
                                assert(!pair_match(hms0, i, j));
                                assert(pair_stream(hms0, i, j) == pair_stream(hms0, i, j + 1));
                            }
                        }
                    },
                    None => {
                        proof {
                            assert(hms0[j].last() != hms0[i].last());
                            assert(!pair_match(hms0, i, j));
                            assert(pair_stream(hms0, i, j) == pair_stream(hms0, i, j + 1));
                        }
                    },
                }
            } else {
                proof {
                    assert(pair_stream(hms0, i, j) == pair_stream(hms0, i + 1, i + 2));
                }
                self.current_index = self.current_index + 1;
                self.comparison_index = self.current_index + 1;
            }
        }
        proof {
            assert(pair_stream(hms0, self.current_index as int, self.comparison_index as int)
                =~= Seq::<Seq<usize>>::empty());
            assert(old(self).upcoming() =~= up0);
            assert(self.upcoming() =~= up0);
        }
        None
    }
}

impl MethodIterator {
    /// The structural soundness of whichever iterator is held.
    pub open spec fn wf(self) -> bool {
        match self {
            MethodIterator::Zero(_) => true,
            MethodIterator::One(it) => it.wf(),
            MethodIterator::Full(it) => it.wf(),
        }
    }

    /// The methods still to be yielded, in order.
    pub open spec fn upcoming(self) -> Seq<Seq<usize>> {
        match self {
            MethodIterator::Zero(it) => it.upcoming(),
            MethodIterator::One(it) => it.upcoming(),
            MethodIterator::Full(it) => it.upcoming(),
        }
    }

    /// The next full method, or nothing once the sequence is exhausted.
    pub fn next(&mut self) -> (r: Option<Vec<usize>>)
        requires
            old(self).wf(),
        ensures
            final(self).wf(),
            old(self).upcoming().len() == 0 ==> r is None && final(self).upcoming() == old(
                self,
            ).upcoming(),
            old(self).upcoming().len() > 0 ==> (r matches Some(m) && m@ == old(self).upcoming()[0]
                && final(self).upcoming() == old(self).upcoming().drop_first()),
    {
        match self {
            MethodIterator::Zero(it) => it.next(),
            MethodIterator::One(it) => it.next(),
            MethodIterator::Full(it) => it.next(),
        }
    }
}

/// Wraps the given half-methods in the iterator that fits their count: none,
/// exactly one short one, or two or more to be paired. Any other shape is a
/// caller error and is ruled out by the precondition.
pub fn new(half_methods: Vec<Vec<usize>>) -> (r: MethodIterator)
    requires
        half_methods@.len() == 1 ==> 1 <= half_methods@[0]@.len() <= 2,
        half_methods@.len() >= 2 ==> forall|k: int|
            0 <= k < half_methods@.len() ==> (#[trigger] half_methods@[k])@.len() > 0,
    ensures
        r.wf(),
        r.upcoming() == new_stream(half_methods@.map_values(|m: Vec<usize>| m@)),
{
    let ghost hms = half_methods@.map_values(|m: Vec<usize>| m@);
    if half_methods.is_empty() {
        let r = MethodIterator::Zero(ZeroMethodIterator::new());
        proof {
            assert(r.upcoming() =~= new_stream(hms));
        }
        r
    } else if half_methods.len() == 1 {
        let r = MethodIterator::One(OneMethodIterator::new(half_methods));
        proof {
            assert(r.upcoming() =~= new_stream(hms));
        }
        r
    } else {
        let r = MethodIterator::Full(FullMethodIterator::new(half_methods));
        proof {
            assert(r.upcoming() =~= new_stream(hms));
        }
        r
    }
}

/// One sweep of a worker's inner range: compares the half-method at the
/// cursor's outer index against each inner index in turn and returns the
/// first pair that closes into a circuit, leaving the cursor just past the
/// match; nothing when the sweep finds no match.
pub fn pair_matching_half_methods(
    half_methods: &Vec<Vec<usize>>,
    index_store: &mut ComparisonIndexStore,
) -> (r: Option<Vec<usize>>)
    requires
        half_methods@.len() >= 1,
        old(index_store).last_index == half_methods@.len() - 1,
        old(index_store).last_index < usize::MAX,
        old(index_store).current_index < half_methods@.len(),
        forall|k: int| 0 <= k < half_methods@.len() ==> (#[trigger] half_methods@[k])@.len() > 0,
    ensures
        final(index_store).last_index == old(index_store).last_index,
        final(index_store).start_index == old(index_store).start_index,
        final(index_store).current_index == old(index_store).current_index,
        ({
            let hms = half_methods@.map_values(|m: Vec<usize>| m@);
            let i = old(index_store).current_index as int;
            let c0 = old(index_store).comparison_index as int;
            match r {
                Some(m) => exists|j: int|
                    {
                        &&& c0 <= j <= old(index_store).last_index
                        &&& #[trigger] pair_match(hms, i, j)
                        &&& m@ == full_method_of(hms[i], hms[j])
                        &&& final(index_store).comparison_index == j + 1
                        &&& forall|j2: int| c0 <= j2 < j ==> !pair_match(hms, i, j2)
                    },
                None => final(index_store).comparison_index as int == (if c0 > old(
                    index_store,
                ).last_index {
                    c0
                } else {
                    old(index_store).last_index as int + 1
                }) && (forall|j2: int|
                    c0 <= j2 <= old(index_store).last_index ==> !(#[trigger] pair_match(
                        hms,
                        i,
                        j2,
                    ))),
            }
        }),
{
    let ghost hms = half_methods@.map_values(|m: Vec<usize>| m@);
    let ghost i = index_store.current_index as int;
    let ghost c0 = index_store.comparison_index as int;
    let matcher = MethodMatcher::new(half_methods, index_store.get_current_index());
    proof {
        assert(hms[i] == half_methods@[i]@);
    }
    while index_store.is_running_comparison()
        invariant
            half_methods@.len() >= 1,
            forall|k: int|
                0 <= k < half_methods@.len() ==> (#[trigger] half_methods@[k])@.len() > 0,
            hms == half_methods@.map_values(|m: Vec<usize>| m@),
            matcher.half_methods == half_methods,
            matcher.current_method@ == hms[i],
            matcher.current_end_node == hms[i].last(),
            index_store.last_index == old(index_store).last_index,
            index_store.last_index == half_methods@.len() - 1,
            index_store.last_index < usize::MAX,
            index_store.start_index == old(index_store).start_index,
            index_store.current_index == old(index_store).current_index,
            i == index_store.current_index as int,
            0 <= i < half_methods@.len(),
            hms[i] == half_methods@[i]@,
            hms[i].len() > 0,
            c0 == old(index_store).comparison_index as int,
            c0 <= index_store.comparison_index as int,
            c0 > index_store.last_index ==> index_store.comparison_index as int == c0,
            c0 <= index_store.last_index ==> index_store.comparison_index as int
                <= index_store.last_index + 1,
            forall|j2: int| c0 <= j2 < index_store.comparison_index as int ==> !pair_match(
                hms,
                i,
                j2,
            ),
        decreases index_store.last_index + 1 - index_store.comparison_index,
    {
        let ghost j = index_store.comparison_index as int;
        proof {
            assert(hms[j] == half_methods@[j]@);
        }
        let full_method_match = matcher.get_full_method_from_end_node_match(
            index_store.get_comparison_index(),
        );
        index_store.increment_indexes();
        match full_method_match {
            Some(method) => {
                proof {
                    assert(method@ == full_method_of(hms[i], hms[j]));
                    assert(method@.len() == hms[i].len() + hms[j].len() - 1);
                }
                let mut prefix: Vec<usize> = Vec::new();
                let mut t: usize = 0;
                while t < method.len() - 1
                    invariant
                        method@.len() >= 1,
                        t <= method@.len() - 1,
                        prefix@ == method@.take(t as int),
                    decreases method@.len() - 1 - t,
                {
                    prefix.push(method[t]);
                    proof {
                        assert(prefix@ =~= method@.take(t + 1));
                    }
                    t = t + 1;
                }
                proof {
                    assert(prefix@ =~= method@.drop_last());
                }
                let unique = are_unique(&prefix);
                proof {
                    lemma_distinct_ids(prefix@);
                }
                if unique {
                    proof {
                        assert(pair_match(hms, i, j));
                    }
                    return Some(method);
                }
                proof {
                    assert(!pair_match(hms, i, j));
                }
            },
            None => {
                proof {
                    assert(hms[j].last() != hms[i].last());
                    assert(!pair_match(hms, i, j));
                }
            },
        }
    }
    None
}

} // verus!
