//! The prefix-sum container.
//!
//! A [`BinaryIndexTree`] stands for a sequence of additive values of fixed
//! length, its view. It keeps no element as such: slot `j` of its backing
//! array holds the sum of the `lowbit(j)` elements that end at position `j`,
//! positions counted from one, and slot zero is unused. A prefix sum adds up
//! the slots of a descending walk, and an update adds its delta to the slots
//! of an ascending walk.

use crate::additive::{
    add_at, lemma_range_sum_add_at, lemma_range_sum_split, lemma_sum_concat, lemma_sum_one,
    lemma_sum_zeros, lemma_zero_plus, prefix_sum, range_sum, sum, zeros, Additive,
};
use crate::index::{
    ancestor, ascent, contributor, covers, descent, increment, lemma_ascent_covers,
    lemma_ascent_walk, lemma_cover_step, lemma_lowbit_bounds, lowbit, remove,
};
use vstd::prelude::*;

verus! {

/// An index that lies outside the tree.
#[derive(Clone, Copy, Debug, PartialEq, Eq)]
pub struct OutOfBounds {
    /// The index that was asked for.
    pub index: usize,
    /// The number of elements of the tree.
    pub len: usize,
}

/// A sequence of additive values of fixed length that answers prefix sums and
/// takes updates of single elements, each along one walk through its slots.
pub struct BinaryIndexTree<T: Additive> {
    /// The number of slots: one more than the number of elements.
    n: usize,
    /// The slots.
    nums: Vec<T>,
    /// The elements that the slots stand for.
    values: Ghost<Seq<T>>,
}

impl<T: Additive> View for BinaryIndexTree<T> {
    type V = Seq<T>;

    /// The elements of the tree, in order.
    closed spec fn view(&self) -> Seq<T> {
        self.values@
    }
}

/// The backing array that stands for `values`: a zero in the unused slot
/// zero, and at each position `j` the sum of the `lowbit(j)` elements that end
/// there.
pub open spec fn slots_of<T: Additive>(values: Seq<T>) -> Seq<T> {
    Seq::new(
        values.len() + 1,
        |j: int|
            if j == 0 {
                T::zero_spec()
            } else {
                range_sum(values, j - lowbit(j as nat), j)
            },
    )
}

/// The sum of the slots at the positions of a walk, added up in the order of
/// the walk.
pub open spec fn walk_sum<T: Additive>(slots: Seq<T>, walk: Seq<nat>) -> T {
    sum(walk.map_values(|p: nat| slots[p as int]))
}

/// The slots after `delta` was added to each slot on the ascending walk from
/// `origin`, the number of slots being the bound of the walk.
pub open spec fn raised<T: Additive>(slots: Seq<T>, origin: nat, delta: T) -> Seq<T> {
    Seq::new(
        slots.len(),
        |j: int|
            if ascent(origin, slots.len()).contains(j as nat) {
                slots[j].plus_spec(delta)
            } else {
                slots[j]
            },
    )
}

/// To add `delta` to one element is to add it to each slot on the ascending
/// walk from the position of the element: those are the slots that cover
/// the position, and no other slot changes.
pub proof fn lemma_raised_slots<T: Additive>(values: Seq<T>, index: int, delta: T)
    requires
        0 <= index < values.len(),
    ensures
        slots_of(add_at(values, index, delta)) == raised(
            slots_of(values),
            (index + 1) as nat,
            delta,
        ),
{
    let origin = (index + 1) as nat;
    let limit = values.len() + 1;
    let after = slots_of(add_at(values, index, delta));
    let target = raised(slots_of(values), origin, delta);
    let walk = ascent(origin, limit);
    lemma_ascent_walk(origin, limit);
    assert forall|j: int| 0 <= j < limit implies after[j] == target[j] by {
        if j >= 1 {
            lemma_lowbit_bounds(j as nat);
            lemma_ascent_covers(origin, limit, j as nat);
            lemma_range_sum_add_at(values, index, delta, j - lowbit(j as nat), j);
        } else if walk.contains(0) {
            let k = choose|k: int| 0 <= k < walk.len() && walk[k] == 0;
            assert(origin <= walk[k]);
        }
    }
    assert(after =~= target);
}

/// The sum along a walk of one position more is the sum along the walk, plus
/// the slot at that position.
pub proof fn lemma_walk_sum_push<T: Additive>(slots: Seq<T>, walk: Seq<nat>, p: nat)
    ensures
        walk_sum(slots, walk.push(p)) == walk_sum(slots, walk).plus_spec(slots[p as int]),
{
    let f = |p: nat| slots[p as int];
    assert(walk.push(p).map_values(f).drop_last() == walk.map_values(f));
}

/// The sum along a walk that starts at `p` is the slot at `p`, plus the sum
/// along the rest of the walk.
pub proof fn lemma_walk_sum_first<T: Additive>(slots: Seq<T>, p: nat, rest: Seq<nat>)
    ensures
        walk_sum(slots, seq![p] + rest) == slots[p as int].plus_spec(walk_sum(slots, rest)),
{
    let f = |p: nat| slots[p as int];
    assert((seq![p] + rest).map_values(f) == seq![slots[p as int]] + rest.map_values(f));
    lemma_sum_concat(seq![slots[p as int]], rest.map_values(f));
    lemma_sum_one(seq![slots[p as int]]);
}

/// The difference of two prefix sums is the sum of the range between them.
pub proof fn lemma_prefix_difference<T: Additive>(s: Seq<T>, lo: int, hi: int)
    requires
        0 <= lo <= hi <= s.len(),
    ensures
        prefix_sum(s, hi).minus_spec(prefix_sum(s, lo)) == range_sum(s, lo, hi),
{
    lemma_range_sum_split(s, 0, lo, hi);
    T::plus_commutative(range_sum(s, 0, lo), range_sum(s, lo, hi));
    T::plus_minus(range_sum(s, lo, hi), range_sum(s, 0, lo));
}

/// The difference of two neighbouring prefix sums is the element between
/// them.
pub proof fn lemma_element_from_prefixes<T: Additive>(s: Seq<T>, index: int)
    requires
        0 <= index < s.len(),
    ensures
        prefix_sum(s, index + 1).minus_spec(prefix_sum(s, index)) == s[index],
{
    lemma_prefix_difference(s, index, index + 1);
    lemma_sum_one(s.subrange(index, index + 1));
}

impl<T: Additive> BinaryIndexTree<T> {
    /// The slots agree with the elements: the backing array is the one that
    /// stands for the elements, and the number of its slots stays in the range
    /// in which the ascending walk cannot overflow.
    pub closed spec fn wf(&self) -> bool {
        &&& self.nums@.len() == self.n
        &&& self.n <= usize::MAX / 2
        &&& self.nums@ == slots_of(self.values@)
    }

    /// The backing array: slot zero, which is never used, and then one slot
    /// for each position.
    pub closed spec fn slots(&self) -> Seq<T> {
        self.nums@
    }

    /// A tree has fewer elements than half the largest machine word.
    pub proof fn lemma_len_bounded(&self)
        requires
            self.wf(),
        ensures
            self@.len() < usize::MAX / 2,
    {
    }

    /// The backing array is the one that stands for the elements: there is
    /// one slot more than there are elements, slot zero holds zero, and the
    /// slot at each position `j` holds the sum of the `lowbit(j)` elements
    /// that end there.
    pub proof fn lemma_slots(&self)
        requires
            self.wf(),
        ensures
            self.slots() == slots_of(self@),
            self.slots().len() == self@.len() + 1,
            self.slots()[0] == T::zero_spec(),
            forall|j: int|
                1 <= j <= self@.len() ==> #[trigger] self.slots()[j] == range_sum(
                    self@,
                    j - lowbit(j as nat),
                    j,
                ),
    {
    }

    /// The sum of the first `k` elements is the sum of the slots along the
    /// descending walk from `k`.
    pub proof fn lemma_walk_sum(&self, k: nat)
        requires
            self.wf(),
            k <= self@.len(),
        ensures
            walk_sum(self.slots(), descent(k)) == prefix_sum(self@, k as int),
        decreases k,
    {
        if k == 0 {
            assert(self@.take(0).len() == 0);
            assert(descent(0).map_values(|p: nat| self.slots()[p as int]).len() == 0);
        } else {
            lemma_lowbit_bounds(k);
            let below = contributor(k);
            self.lemma_walk_sum(below);
            lemma_walk_sum_first(self.slots(), k, descent(below));
            lemma_range_sum_split(self@, 0, below as int, k as int);
            T::plus_commutative(self.slots()[k as int], prefix_sum(self@, below as int));
        }
    }

    /// A tree of `length` zeros.
    ///
    /// The length stays below half the largest machine word: the backing
    /// array has one slot more than the tree has elements, and the ascending
    /// walk needs as much room again above the last slot.
    pub fn new(length: usize) -> (tree: BinaryIndexTree<T>)
        requires
            length < usize::MAX / 2,
        ensures
            tree.wf(),
            tree@ == zeros::<T>(length as nat),
            tree.slots() == zeros::<T>((length + 1) as nat),
    {
        let mut nums: Vec<T> = Vec::new();
        let mut i: usize = 0;
        while i <= length
            invariant
                i <= length + 1,
                length < usize::MAX / 2,
                nums@.len() == i,
                forall|j: int| 0 <= j < i ==> #[trigger] nums@[j] == T::zero_spec(),
            decreases length + 1 - i,
        {
            nums.push(T::zero());
            i += 1;
        }
        let tree = BinaryIndexTree { n: length + 1, nums, values: Ghost(zeros::<T>(length as nat)) };
        proof {
            assert forall|j: int| 1 <= j < tree.n implies #[trigger] tree.nums@[j] == range_sum(
                tree.values@,
                j - lowbit(j as nat),
                j,
            ) by {
                lemma_lowbit_bounds(j as nat);
                lemma_sum_zeros(tree.values@.subrange(j - lowbit(j as nat), j));
            }
            assert(tree.nums@ =~= zeros::<T>((length + 1) as nat));
            assert(tree.nums@ =~= slots_of(tree.values@));
        }
        tree
    }

    /// The tree of the elements of `nums`: a tree of zeros to which each
    /// element was added at its index, in order. Every prefix sum of the tree
    /// is the prefix sum of `nums`.
    ///
    /// The length of `nums` stays below half the largest machine word, as
    /// for [`BinaryIndexTree::new`].
    pub fn from(nums: &[T]) -> (tree: BinaryIndexTree<T>)
        requires
            nums@.len() < usize::MAX / 2,
        ensures
            tree.wf(),
            tree@ == nums@,
            tree.slots() == slots_of(nums@),
            forall|k: int|
                0 <= k <= nums@.len() ==> #[trigger] prefix_sum(tree@, k) == prefix_sum(nums@, k),
    {
        let n: usize = nums.len();
        let mut tree = Self::new(n);
        for i in 0..n
            invariant
                n == nums@.len(),
                tree.wf(),
                tree@ == nums@.take(i as int) + zeros::<T>((n - i) as nat),
        {
            proof {
                lemma_zero_plus(nums@[i as int]);
                assert(add_at(tree@, i as int, nums@[i as int]) == nums@.take(i + 1) + zeros::<T>(
                    (n - (i + 1)) as nat,
                ));
            }
            tree.add_in_bounds(i, nums[i]);
        }
        proof {
            assert(nums@.take(n as int) + zeros::<T>(0) == nums@);
        }
        tree
    }

    /// The number of elements.
    pub fn len(&self) -> (len: usize)
        requires
            self.wf(),
        ensures
            len == self@.len(),
    {
        self.n - 1
    }

    /// Adds `delta` to the element at `index`.
    ///
    /// An index that is not below the length is refused, and the tree stays
    /// as it was.
    pub fn update(&mut self, index: usize, delta: T) -> (r: Result<(), OutOfBounds>)
        requires
            old(self).wf(),
        ensures
            final(self).wf(),
            index < old(self)@.len() ==> {
                &&& r == Ok::<(), OutOfBounds>(())
                &&& final(self)@ == add_at(old(self)@, index as int, delta)
                &&& final(self).slots() == raised(old(self).slots(), (index + 1) as nat, delta)
            },
            index >= old(self)@.len() ==> {
                &&& r == Err::<(), OutOfBounds>(
                    (OutOfBounds { index, len: old(self)@.len() as usize }),
                )
                &&& final(self)@ == old(self)@
                &&& final(self).slots() == old(self).slots()
            },
    {
        if index >= self.n - 1 {
            return Err(OutOfBounds { index, len: self.n - 1 });
        }
        self.add_in_bounds(index, delta);
        Ok(())
    }

    /// Sets the element at `index` to `value`: finds the element as the
    /// difference of two prefix sums, and adds what it lacks. Afterwards the
    /// same difference gives `value`.
    ///
    /// An index that is not below the length is refused, and the tree stays
    /// as it was.
    pub fn update_to(&mut self, index: usize, value: T) -> (r: Result<(), OutOfBounds>)
        requires
            old(self).wf(),
        ensures
            final(self).wf(),
            index < old(self)@.len() ==> {
                &&& r == Ok::<(), OutOfBounds>(())
                &&& final(self)@ == old(self)@.update(index as int, value)
                &&& prefix_sum(final(self)@, index + 1).minus_spec(
                    prefix_sum(final(self)@, index as int),
                ) == value
                &&& final(self).slots() == raised(
                    old(self).slots(),
                    (index + 1) as nat,
                    value.minus_spec(old(self)@[index as int]),
                )
            },
            index >= old(self)@.len() ==> {
                &&& r == Err::<(), OutOfBounds>(
                    (OutOfBounds { index, len: old(self)@.len() as usize }),
                )
                &&& final(self)@ == old(self)@
                &&& final(self).slots() == old(self).slots()
            },
    {
        if index >= self.n - 1 {
            return Err(OutOfBounds { index, len: self.n - 1 });
        }
        let prev = self.prefix(index + 1).minus(self.prefix(index));
        let delta = value.minus(prev);
        proof {
            lemma_element_from_prefixes(self@, index as int);
            T::minus_plus(value, prev);
            T::plus_commutative(prev, delta);
            lemma_element_from_prefixes(self@.update(index as int, value), index as int);
        }
        self.add_in_bounds(index, delta);
        Ok(())
    }

    /// The sum of the first `index` elements; zero for no element.
    ///
    /// An index above the length is refused.
    pub fn query(&self, index: usize) -> (r: Result<T, OutOfBounds>)
        requires
            self.wf(),
        ensures
            index <= self@.len() ==> {
                &&& r == Ok::<T, OutOfBounds>(prefix_sum(self@, index as int))
                &&& r == Ok::<T, OutOfBounds>(walk_sum(self.slots(), descent(index as nat)))
            },
            index > self@.len() ==> r == Err::<T, OutOfBounds>(
                (OutOfBounds { index, len: self@.len() as usize }),
            ),
    {
        if index >= self.n {
            return Err(OutOfBounds { index, len: self.n - 1 });
        }
        Ok(self.prefix(index))
    }

    /// The sum of the elements from `left` to `right`, both included: the
    /// prefix sum up to and with `right`, less the prefix sum before `left`.
    ///
    /// The range may be empty, with `left` one past `right`; to ask for a
    /// `left` beyond that is an error of the caller. A `right` that is not
    /// below the length is refused.
    pub fn range(&self, left: usize, right: usize) -> (r: Result<T, OutOfBounds>)
        requires
            self.wf(),
            left <= right + 1,
        ensures
            right < self@.len() ==> {
                &&& r == Ok::<T, OutOfBounds>(range_sum(self@, left as int, right + 1))
                &&& r == Ok::<T, OutOfBounds>(
                    prefix_sum(self@, right + 1).minus_spec(prefix_sum(self@, left as int)),
                )
            },
            right >= self@.len() ==> r == Err::<T, OutOfBounds>(
                (OutOfBounds { index: right, len: self@.len() as usize }),
            ),
    {
        if right >= self.n - 1 {
            return Err(OutOfBounds { index: right, len: self.n - 1 });
        }
        proof {
            lemma_prefix_difference(self@, left as int, right + 1);
        }
        Ok(self.prefix(right + 1).minus(self.prefix(left)))
    }

    /// The sum of the first `index` elements, for an index up to the length:
    /// the sum of the slots of the descending walk from `index`.
    fn prefix(&self, index: usize) -> (total: T)
        requires
            self.wf(),
            index <= self@.len(),
        ensures
            total == prefix_sum(self@, index as int),
            total == walk_sum(self.slots(), descent(index as nat)),
    {
        let mut total = T::zero();
        let mut cur: usize = index;
        let ghost mut visited: Seq<nat> = Seq::empty();
        proof {
            assert(visited + descent(cur as nat) == descent(index as nat));
            assert(visited.map_values(|p: nat| self.slots()[p as int]).len() == 0);
        }
        while cur > 0
            invariant
                self.wf(),
                cur <= index <= self@.len(),
                visited + descent(cur as nat) == descent(index as nat),
                total == walk_sum(self.slots(), visited),
            decreases cur,
        {
            proof {
                lemma_lowbit_bounds(cur as nat);
                lemma_walk_sum_push(self.slots(), visited, cur as nat);
                assert(visited.push(cur as nat) + descent(contributor(cur as nat)) == visited
                    + descent(cur as nat));
                visited = visited.push(cur as nat);
            }
            total = total.plus(self.nums[cur]);
            cur = remove(cur);
        }
        proof {
            assert(visited + Seq::<nat>::empty() == visited);
            self.lemma_walk_sum(index as nat);
        }
        total
    }

    /// Adds `delta` to the element at `index`, for an index below the length:
    /// adds it to the slots of the ascending walk from the position of the
    /// element, which are the slots that cover it.
    fn add_in_bounds(&mut self, index: usize, delta: T)
        requires
            old(self).wf(),
            index < old(self)@.len(),
        ensures
            final(self).wf(),
            final(self)@ == add_at(old(self)@, index as int, delta),
            final(self).slots() == raised(old(self).slots(), (index + 1) as nat, delta),
    {
        let origin: usize = index + 1;
        let mut cur: usize = origin;
        while cur < self.n
            invariant
                self.n == old(self).n,
                self.values == old(self).values,
                self.nums@.len() == self.n,
                old(self).nums@.len() == self.n,
                self.n <= usize::MAX / 2,
                1 <= origin <= cur,
                origin < self.n,
                forall|j: int|
                    0 <= j < self.n ==> #[trigger] self.nums@[j] == if covers(
                        j as nat,
                        origin as nat,
                    ) && j < cur {
                        old(self).nums@[j].plus_spec(delta)
                    } else {
                        old(self).nums@[j]
                    },
                forall|j: int|
                    cur <= j < self.n ==> #[trigger] covers(j as nat, origin as nat) == covers(
                        j as nat,
                        cur as nat,
                    ),
            decreases usize::MAX - cur,
        {
            proof {
                lemma_lowbit_bounds(cur as nat);
                assert(covers(cur as nat, cur as nat));
                assert forall|j: int| cur < j < self.n implies #[trigger] covers(
                    j as nat,
                    cur as nat,
                ) == covers(j as nat, ancestor(cur as nat)) by {
                    lemma_cover_step(cur as nat, j as nat);
                }
            }
            let slot = self.nums[cur].plus(delta);
            self.nums[cur] = slot;
            cur = increment(cur);
        }
        proof {
            lemma_ascent_walk(origin as nat, self.n as nat);
            let walk = ascent(origin as nat, self.n as nat);
            let target = raised(old(self).nums@, origin as nat, delta);
            assert forall|j: int| 0 <= j < self.n implies #[trigger] self.nums@[j] == target[j] by {
                if j >= 1 {
                    lemma_ascent_covers(origin as nat, self.n as nat, j as nat);
                    assert(covers(j as nat, cur as nat) ==> j >= cur);
                } else if walk.contains(0) {
                    let k = choose|k: int| 0 <= k < walk.len() && walk[k] == 0;
                    assert(origin <= walk[k]);
                }
            }
            assert(self.nums@ =~= target);
            lemma_raised_slots(old(self).values@, index as int, delta);
        }
        self.values = Ghost(add_at(self.values@, index as int, delta));
    }
}

} // verus!
