//! The values that the tree can hold, and sums over sequences of them.

use vstd::prelude::*;
use vstd::set_lib::{lemma_int_range, lemma_subset_equality, set_int_range};

verus! {

/// An additive value: a type with a zero, an addition and a subtraction that
/// form a commutative group. Every implementation proves the laws, so the
/// tree may regroup and reorder a sum freely.
pub trait Additive: Copy + Sized {
    /// The identity of the addition.
    spec fn zero_spec() -> Self;

    /// The sum of two values.
    spec fn plus_spec(self, rhs: Self) -> Self;

    /// The difference of two values.
    spec fn minus_spec(self, rhs: Self) -> Self;

    /// Computes the identity.
    fn zero() -> (r: Self)
        ensures
            r == Self::zero_spec(),
    ;

    /// Computes the sum.
    fn plus(self, rhs: Self) -> (r: Self)
        ensures
            r == self.plus_spec(rhs),
    ;

    /// Computes the difference.
    fn minus(self, rhs: Self) -> (r: Self)
        ensures
            r == self.minus_spec(rhs),
    ;

    /// The order of two summands does not matter.
    proof fn plus_commutative(a: Self, b: Self)
        ensures
            a.plus_spec(b) == b.plus_spec(a),
    ;

    /// The grouping of three summands does not matter.
    proof fn plus_associative(a: Self, b: Self, c: Self)
        ensures
            a.plus_spec(b).plus_spec(c) == a.plus_spec(b.plus_spec(c)),
    ;

    /// Adding zero changes nothing.
    proof fn plus_zero(a: Self)
        ensures
            a.plus_spec(Self::zero_spec()) == a,
    ;

    /// Subtracting what was added gives the value back.
    proof fn plus_minus(a: Self, b: Self)
        ensures
            a.plus_spec(b).minus_spec(b) == a,
    ;

    /// Adding what was subtracted gives the value back.
    proof fn minus_plus(a: Self, b: Self)
        ensures
            a.minus_spec(b).plus_spec(b) == a,
    ;
}

/// The sum of a sequence, added up from the left. The sum of the empty
/// sequence is zero.
pub open spec fn sum<T: Additive>(s: Seq<T>) -> T
    decreases s.len(),
{
    if s.len() == 0 {
        T::zero_spec()
    } else {
        sum(s.drop_last()).plus_spec(s.last())
    }
}

/// The sum of the first `k` elements.
pub open spec fn prefix_sum<T: Additive>(s: Seq<T>, k: int) -> T {
    sum(s.take(k))
}

/// The sum of the elements at `lo..hi`.
pub open spec fn range_sum<T: Additive>(s: Seq<T>, lo: int, hi: int) -> T {
    sum(s.subrange(lo, hi))
}

/// The sequence `s` after `delta` was added to the element at `index`.
pub open spec fn add_at<T: Additive>(s: Seq<T>, index: int, delta: T) -> Seq<T> {
    s.update(index, s[index].plus_spec(delta))
}

/// `len` zeros.
pub open spec fn zeros<T: Additive>(len: nat) -> Seq<T> {
    Seq::new(len, |i: int| T::zero_spec())
}

/// The sequence `s` after one update for each entry of `order`, in that
/// order: the update for the entry `i` adds `values[i]` at index `i`.
pub open spec fn add_each<T: Additive>(s: Seq<T>, order: Seq<int>, values: Seq<T>) -> Seq<T>
    decreases order.len(),
{
    if order.len() == 0 {
        s
    } else {
        add_at(add_each(s, order.drop_last(), values), order.last(), values[order.last()])
    }
}

/// `order` is an arrangement of the indices below `n`: it has `n` entries,
/// each an index below `n`, and no two alike.
pub open spec fn arranges(order: Seq<int>, n: nat) -> bool {
    &&& order.len() == n
    &&& forall|k: int| 0 <= k < order.len() ==> 0 <= #[trigger] order[k] < n
    &&& order.no_duplicates()
}

/// Zero is an identity on the left too.
pub proof fn lemma_zero_plus<T: Additive>(a: T)
    ensures
        T::zero_spec().plus_spec(a) == a,
{
    T::plus_commutative(T::zero_spec(), a);
    T::plus_zero(a);
}

/// The sum of a concatenation is the sum of the sums.
pub proof fn lemma_sum_concat<T: Additive>(a: Seq<T>, b: Seq<T>)
    ensures
        sum(a + b) == sum(a).plus_spec(sum(b)),
    decreases b.len(),
{
    if b.len() == 0 {
        assert(a + b == a);
        T::plus_zero(sum(a));
    } else {
        assert((a + b).drop_last() == a + b.drop_last());
        assert((a + b).last() == b.last());
        lemma_sum_concat(a, b.drop_last());
        T::plus_associative(sum(a), sum(b.drop_last()), b.last());
    }
}

/// A range splits at any point inside it.
pub proof fn lemma_range_sum_split<T: Additive>(s: Seq<T>, lo: int, mid: int, hi: int)
    requires
        0 <= lo <= mid <= hi <= s.len(),
    ensures
        range_sum(s, lo, hi) == range_sum(s, lo, mid).plus_spec(range_sum(s, mid, hi)),
{
    assert(s.subrange(lo, hi) == s.subrange(lo, mid) + s.subrange(mid, hi));
    lemma_sum_concat(s.subrange(lo, mid), s.subrange(mid, hi));
}

/// The sum of a single element is the element.
pub proof fn lemma_sum_one<T: Additive>(s: Seq<T>)
    requires
        s.len() == 1,
    ensures
        sum(s) == s[0],
{
    assert(s.drop_last().len() == 0);
    assert(sum(s.drop_last()) == T::zero_spec());
    lemma_zero_plus(s[0]);
}

/// Zeros add up to zero.
pub proof fn lemma_sum_zeros<T: Additive>(s: Seq<T>)
    requires
        forall|i: int| 0 <= i < s.len() ==> s[i] == T::zero_spec(),
    ensures
        sum(s) == T::zero_spec(),
    decreases s.len(),
{
    if s.len() > 0 {
        lemma_sum_zeros(s.drop_last());
        T::plus_zero(T::zero_spec());
    }
}

/// Adding `delta` to one element adds `delta` to every range that holds the
/// element and leaves the other ranges as they were.
pub proof fn lemma_range_sum_add_at<T: Additive>(s: Seq<T>, index: int, delta: T, lo: int, hi: int)
    requires
        0 <= index < s.len(),
        0 <= lo <= hi <= s.len(),
    ensures
        range_sum(add_at(s, index, delta), lo, hi) == if lo <= index < hi {
            range_sum(s, lo, hi).plus_spec(delta)
        } else {
            range_sum(s, lo, hi)
        },
{
    let t = add_at(s, index, delta);
    if lo <= index < hi {
        lemma_range_sum_split(s, lo, index, hi);
        lemma_range_sum_split(s, index, index + 1, hi);
        lemma_range_sum_split(t, lo, index, hi);
        lemma_range_sum_split(t, index, index + 1, hi);
        assert(t.subrange(lo, index) == s.subrange(lo, index));
        assert(t.subrange(index + 1, hi) == s.subrange(index + 1, hi));
        lemma_sum_one(s.subrange(index, index + 1));
        lemma_sum_one(t.subrange(index, index + 1));
        let left = range_sum(s, lo, index);
        let right = range_sum(s, index + 1, hi);
        let x = s[index];
        // left + ((x + delta) + right) == (left + (x + right)) + delta
        T::plus_associative(x, delta, right);
        T::plus_commutative(delta, right);
        T::plus_associative(x, right, delta);
        T::plus_associative(left, x.plus_spec(right), delta);
    } else {
        assert(t.subrange(lo, hi) == s.subrange(lo, hi));
    }
}

/// Two updates give the same sequence in either order, at two indices or at
/// one.
pub proof fn lemma_add_at_commutes<T: Additive>(s: Seq<T>, i: int, a: T, j: int, b: T)
    requires
        0 <= i < s.len(),
        0 <= j < s.len(),
    ensures
        add_at(add_at(s, i, a), j, b) == add_at(add_at(s, j, b), i, a),
{
    if i == j {
        T::plus_associative(s[i], a, b);
        T::plus_associative(s[i], b, a);
        T::plus_commutative(a, b);
    }
    assert(add_at(add_at(s, i, a), j, b) =~= add_at(add_at(s, j, b), i, a));
}

/// Updates at distinct indices, in whatever order they come, add to each
/// index that is named what was meant for it and leave the others alone.
pub proof fn lemma_add_each<T: Additive>(s: Seq<T>, order: Seq<int>, values: Seq<T>)
    requires
        values.len() == s.len(),
        forall|k: int| 0 <= k < order.len() ==> 0 <= #[trigger] order[k] < s.len(),
        order.no_duplicates(),
    ensures
        add_each(s, order, values).len() == s.len(),
        forall|i: int|
            0 <= i < s.len() ==> #[trigger] add_each(s, order, values)[i] == if order.contains(i) {
                s[i].plus_spec(values[i])
            } else {
                s[i]
            },
    decreases order.len(),
{
    if order.len() > 0 {
        let front = order.drop_last();
        let last = order.last();
        lemma_add_each(s, front, values);
        assert(!front.contains(last));
        assert forall|i: int| 0 <= i < s.len() implies order.contains(i) == (front.contains(i) || i
            == last) by {
            if front.contains(i) {
                let k = choose|k: int| 0 <= k < front.len() && front[k] == i;
                assert(order[k] == i);
            }
            if i == last {
                assert(order[order.len() - 1] == i);
            }
            if order.contains(i) {
                let k = choose|k: int| 0 <= k < order.len() && order[k] == i;
                if k < front.len() {
                    assert(front[k] == i);
                }
            }
        }
    }
}

/// An arrangement of the indices below `n` names every one of them.
pub proof fn lemma_arrangement_is_onto(order: Seq<int>, n: nat, i: int)
    requires
        arranges(order, n),
        0 <= i < n,
    ensures
        order.contains(i),
{
    let named = order.to_set();
    let all = set_int_range(0, n as int);
    order.unique_seq_to_set();
    lemma_int_range(0, n as int);
    assert(named.subset_of(all)) by {
        assert forall|x: int| named.contains(x) implies all.contains(x) by {
            let k = choose|k: int| 0 <= k < order.len() && order[k] == x;
            assert(0 <= order[k] < n);
        }
    }
    vstd::set_lib::lemma_len_subset(named, all);
    lemma_subset_equality(named, all);
    assert(all.contains(i));
}

/// A sequence is built from zeros by adding each of its elements at its own
/// index, and the indices may come in any order.
pub proof fn lemma_build_in_any_order<T: Additive>(values: Seq<T>, order: Seq<int>)
    requires
        arranges(order, values.len()),
    ensures
        add_each(zeros::<T>(values.len()), order, values) == values,
{
    let start = zeros::<T>(values.len());
    lemma_add_each(start, order, values);
    let built = add_each(start, order, values);
    assert forall|i: int| 0 <= i < values.len() implies built[i] == values[i] by {
        lemma_arrangement_is_onto(order, values.len(), i);
        lemma_zero_plus(values[i]);
    }
    assert(built =~= values);
}

} // verus!
