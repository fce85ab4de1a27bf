//! Index arithmetic of the implicit tree.
//!
//! The tree lives in a flat array whose slots are numbered from one. Which
//! slots an update or a query touches follows from the binary form of a
//! position alone: an update walks upwards, adding the lowest set bit at each
//! step, and a query walks downwards, removing it.
//!
//! The mathematical model is [`lowbit`], defined by halving. The executable
//! steps use the usual bit tricks and are proved to agree with it.

use vstd::prelude::*;

verus! {

/// The lowest set bit of `i`, as a number: the largest power of two that
/// divides `i`, and zero for zero.
pub open spec fn lowbit(i: nat) -> nat
    decreases i,
{
    if i == 0 {
        0
    } else if i % 2 == 1 {
        1
    } else {
        2 * lowbit(i / 2)
    }
}

/// The next position of an ascending walk: `i` with its run of trailing
/// zeros and its lowest set bit replaced by a carry into the bit above.
pub open spec fn ancestor(i: nat) -> nat {
    i + lowbit(i)
}

/// The next position of a descending walk: `i` without its lowest set bit.
pub open spec fn contributor(i: nat) -> nat {
    (i - lowbit(i)) as nat
}

/// Slot `j` of the backing array holds the sum of the positions
/// `j - lowbit(j) + 1 ..= j`. This says that position `p` is one of them.
pub open spec fn covers(j: nat, p: nat) -> bool {
    j - lowbit(j) < p <= j
}

/// The ascending walk from `i` below the exclusive bound `limit`: `i` itself,
/// then every further ancestor that is still less than `limit`.
pub open spec fn ascent(i: nat, limit: nat) -> Seq<nat>
    decreases limit - i,
    when i >= 1
{
    if ancestor(i) < limit {
        proof {
            lemma_lowbit_bounds(i);
        }
        seq![i] + ascent(ancestor(i), limit)
    } else {
        seq![i]
    }
}

/// The descending walk from `i`: `i` itself, then every further contributor
/// down to, and without, zero. The walk from zero is empty.
pub open spec fn descent(i: nat) -> Seq<nat>
    decreases i,
{
    if i == 0 {
        Seq::empty()
    } else {
        proof {
            lemma_lowbit_bounds(i);
        }
        seq![i] + descent(contributor(i))
    }
}

/// The number of set bits of `i`.
pub open spec fn popcount(i: nat) -> nat
    decreases i,
{
    if i == 0 {
        0
    } else {
        i % 2 + popcount(i / 2)
    }
}

/// The number of binary digits of `i`: one more than its logarithm to the
/// base two, rounded down, and zero for zero.
pub open spec fn bit_length(i: nat) -> nat
    decreases i,
{
    if i == 0 {
        0
    } else {
        1 + bit_length(i / 2)
    }
}

/// The number of zeros below the lowest set bit of `i`.
pub open spec fn trailing_zeros(i: nat) -> nat
    decreases i,
{
    if i == 0 || i % 2 == 1 {
        0
    } else {
        1 + trailing_zeros(i / 2)
    }
}

/// The positions of a walk as mathematical numbers.
pub open spec fn positions(walk: Seq<usize>) -> Seq<nat> {
    walk.map_values(|p: usize| p as nat)
}

/// Each position is greater than every position before it.
pub open spec fn strictly_increasing(s: Seq<nat>) -> bool {
    forall|a: int, b: int| 0 <= a < b < s.len() ==> s[a] < s[b]
}

/// Each position is less than every position before it.
pub open spec fn strictly_decreasing(s: Seq<nat>) -> bool {
    forall|a: int, b: int| 0 <= a < b < s.len() ==> s[a] > s[b]
}

/// The lowest set bit of a positive number is positive and no larger than
/// the number.
pub proof fn lemma_lowbit_bounds(i: nat)
    requires
        i >= 1,
    ensures
        1 <= lowbit(i) <= i,
    decreases i,
{
    if i % 2 == 0 {
        lemma_lowbit_bounds(i / 2);
    }
}

/// Clearing the lowest set bit with `i & (i - 1)` subtracts `lowbit(i)`.
pub proof fn lemma_and_clears_lowbit(i: usize)
    requires
        i >= 1,
    ensures
        i & ((i - 1) as usize) == i - lowbit(i as nat),
    decreases i,
{
    if i % 2 == 1 {
        assert(i & ((i - 1) as usize) == i - 1) by (bit_vector)
            requires
                i % 2 == 1,
        ;
    } else {
        let h: usize = i / 2;
        lemma_and_clears_lowbit(h);
        assert(i & ((i - 1) as usize) == 2 * (h & ((h - 1) as usize))) by (bit_vector)
            requires
                i >= 1,
                i % 2 == 0,
                h == i / 2,
        ;
    }
}

/// Filling the trailing zeros with `i | (i - 1)` and adding one adds
/// `lowbit(i)`.
pub proof fn lemma_or_fills_lowbit(i: usize)
    requires
        i >= 1,
    ensures
        (i | ((i - 1) as usize)) + 1 == i + lowbit(i as nat),
    decreases i,
{
    if i % 2 == 1 {
        assert(i | ((i - 1) as usize) == i) by (bit_vector)
            requires
                i % 2 == 1,
        ;
    } else {
        let h: usize = i / 2;
        lemma_or_fills_lowbit(h);
        assert(i | ((i - 1) as usize) == 2 * (h | ((h - 1) as usize)) + 1) by (bit_vector)
            requires
                i >= 1,
                i % 2 == 0,
                h == i / 2,
        ;
    }
}

/// A slot above `c` covers `c` exactly if it covers the ancestor of `c`.
/// So the slots that cover a position are that position and the slots that
/// cover its ancestor.
pub proof fn lemma_cover_step(c: nat, j: nat)
    requires
        1 <= c < j,
    ensures
        covers(j, c) == covers(j, ancestor(c)),
    decreases j,
{
    lemma_lowbit_bounds(c);
    lemma_lowbit_bounds(j);
    if j % 2 == 0 && c % 2 == 0 {
        lemma_cover_step(c / 2, j / 2);
    }
}

/// An ascending walk starts at its origin, climbs strictly by ancestor steps,
/// yields nothing at or above the bound after its first element, and stops
/// only when the next ancestor would reach the bound.
pub proof fn lemma_ascent_walk(i: nat, limit: nat)
    requires
        1 <= i <= limit,
    ensures
        ascent(i, limit).len() >= 1,
        ascent(i, limit)[0] == i,
        forall|k: int| 1 <= k < ascent(i, limit).len() ==> #[trigger] ascent(i, limit)[k] < limit,
        forall|k: int|
            0 <= k < ascent(i, limit).len() - 1 ==> #[trigger] ascent(i, limit)[k + 1] == ancestor(
                ascent(i, limit)[k],
            ),
        forall|k: int| 0 <= k < ascent(i, limit).len() ==> i <= #[trigger] ascent(i, limit)[k],
        i < limit ==> forall|k: int|
            0 <= k < ascent(i, limit).len() ==> #[trigger] ascent(i, limit)[k] < limit,
        ancestor(ascent(i, limit).last()) >= limit,
        strictly_increasing(ascent(i, limit)),
    decreases limit - i,
{
    lemma_lowbit_bounds(i);
    if ancestor(i) < limit {
        let up = ancestor(i);
        lemma_ascent_walk(up, limit);
        let rest = ascent(up, limit);
        let whole = ascent(i, limit);
        assert(whole == seq![i] + rest);
        assert forall|k: int| 1 <= k < whole.len() implies #[trigger] whole[k] < limit by {
            assert(whole[k] == rest[k - 1]);
        }
        assert forall|k: int| 0 <= k < whole.len() - 1 implies #[trigger] whole[k + 1] == ancestor(
            whole[k],
        ) by {
            assert(whole[k + 1] == rest[k]);
            if k > 0 {
                assert(whole[k] == rest[k - 1]);
                assert(rest[(k - 1) + 1] == ancestor(rest[k - 1]));
            }
        }
        assert forall|k: int| 0 <= k < whole.len() implies i <= #[trigger] whole[k] by {
            if k > 0 {
                assert(whole[k] == rest[k - 1]);
            }
        }
        assert(whole.last() == rest.last());
        assert forall|a: int, b: int| 0 <= a < b < whole.len() implies whole[a] < whole[b] by {
            assert(whole[b] == rest[b - 1]);
            if a > 0 {
                assert(whole[a] == rest[a - 1]);
            }
        }
    }
}

/// A descending walk from a positive position starts there, falls strictly
/// by contributor steps, never yields zero, and ends on the position whose
/// contributor is zero.
pub proof fn lemma_descent_walk(i: nat)
    requires
        i >= 1,
    ensures
        descent(i).len() >= 1,
        descent(i)[0] == i,
        forall|k: int| 0 <= k < descent(i).len() ==> 1 <= #[trigger] descent(i)[k] <= i,
        forall|k: int|
            0 <= k < descent(i).len() - 1 ==> #[trigger] descent(i)[k + 1] == contributor(
                descent(i)[k],
            ),
        contributor(descent(i).last()) == 0,
        strictly_decreasing(descent(i)),
    decreases i,
{
    lemma_lowbit_bounds(i);
    let down = contributor(i);
    let rest = descent(down);
    let whole = descent(i);
    assert(whole == seq![i] + rest);
    if down >= 1 {
        lemma_descent_walk(down);
        assert forall|k: int| 0 <= k < whole.len() implies 1 <= #[trigger] whole[k] <= i by {
            if k > 0 {
                assert(whole[k] == rest[k - 1]);
            }
        }
        assert forall|k: int| 0 <= k < whole.len() - 1 implies #[trigger] whole[k + 1]
            == contributor(whole[k]) by {
            assert(whole[k + 1] == rest[k]);
            if k > 0 {
                assert(whole[k] == rest[k - 1]);
                assert(rest[(k - 1) + 1] == contributor(rest[k - 1]));
            }
        }
        assert(whole.last() == rest.last());
        assert forall|a: int, b: int| 0 <= a < b < whole.len() implies whole[a] > whole[b] by {
            assert(whole[b] == rest[b - 1]);
            if a > 0 {
                assert(whole[a] == rest[a - 1]);
            }
        }
    }
}

/// The slots below `limit` that cover position `p` are exactly the positions
/// of the ascending walk from `p`.
pub proof fn lemma_ascent_covers(p: nat, limit: nat, j: nat)
    requires
        1 <= p < limit,
        1 <= j < limit,
    ensures
        covers(j, p) <==> ascent(p, limit).contains(j),
    decreases limit - p,
{
    lemma_lowbit_bounds(p);
    lemma_lowbit_bounds(j);
    let whole = ascent(p, limit);
    let up = ancestor(p);
    if j == p {
        assert(whole[0] == p);
    } else if up < limit {
        let rest = ascent(up, limit);
        assert(whole == seq![p] + rest);
        lemma_ascent_covers(up, limit, j);
        if j > p {
            lemma_cover_step(p, j);
        }
        if rest.contains(j) {
            let k = choose|k: int| 0 <= k < rest.len() && rest[k] == j;
            assert(whole[k + 1] == j);
        }
        if whole.contains(j) {
            let k = choose|k: int| 0 <= k < whole.len() && whole[k] == j;
            assert(rest[k - 1] == j);
        }
    } else {
        assert(whole == seq![p]);
        if j > p {
            lemma_cover_step(p, j);
        }
    }
}

/// A number has no more set bits than digits.
pub proof fn lemma_popcount_bound(i: nat)
    ensures
        popcount(i) <= bit_length(i),
    decreases i,
{
    if i > 0 {
        lemma_popcount_bound(i / 2);
    }
}

/// A larger number has no fewer digits.
pub proof fn lemma_bit_length_monotonic(a: nat, b: nat)
    requires
        a <= b,
    ensures
        bit_length(a) <= bit_length(b),
    decreases b,
{
    if a > 0 {
        lemma_bit_length_monotonic(a / 2, b / 2);
    }
}

/// The trailing zeros of a positive number are fewer than its digits.
pub proof fn lemma_trailing_zeros_bound(i: nat)
    requires
        i >= 1,
    ensures
        trailing_zeros(i) < bit_length(i),
    decreases i,
{
    if i % 2 == 0 {
        lemma_trailing_zeros_bound(i / 2);
    }
}

/// An ancestor has more trailing zeros than the position below it.
pub proof fn lemma_ancestor_trailing_zeros(i: nat)
    requires
        i >= 1,
    ensures
        trailing_zeros(ancestor(i)) > trailing_zeros(i),
    decreases i,
{
    if i % 2 == 0 {
        lemma_ancestor_trailing_zeros(i / 2);
        lemma_lowbit_bounds(i / 2);
        assert(ancestor(i) == 2 * ancestor(i / 2));
    }
}

/// Doubling a position doubles every position of its descending walk, so
/// the walk keeps its length.
pub proof fn lemma_descent_of_double(h: nat)
    ensures
        descent(2 * h).len() == descent(h).len(),
    decreases h,
{
    if h > 0 {
        lemma_lowbit_bounds(h);
        assert(contributor(2 * h) == 2 * contributor(h));
        lemma_descent_of_double(contributor(h));
    }
}

/// The descending walk from `i` has one position for each set bit of `i`:
/// no more than `i` has digits.
pub proof fn lemma_descent_len(i: nat)
    ensures
        descent(i).len() == popcount(i),
        descent(i).len() <= bit_length(i),
    decreases i,
{
    lemma_popcount_bound(i);
    if i > 0 {
        let h = i / 2;
        lemma_descent_len(h);
        if i % 2 == 0 {
            lemma_descent_of_double(h);
        } else {
            assert(contributor(i) == 2 * h);
            lemma_descent_of_double(h);
        }
    }
}

/// An ascending walk below `limit` has no more positions than `limit` has
/// digits.
pub proof fn lemma_ascent_len(i: nat, limit: nat)
    requires
        1 <= i <= limit,
    ensures
        ascent(i, limit).len() <= bit_length(limit),
        i < limit ==> ascent(i, limit).len() + trailing_zeros(i) <= bit_length((limit - 1) as nat),
    decreases limit - i,
{
    lemma_lowbit_bounds(i);
    if i < limit {
        lemma_bit_length_monotonic((limit - 1) as nat, limit);
        if ancestor(i) < limit {
            lemma_ascent_len(ancestor(i), limit);
            lemma_ancestor_trailing_zeros(i);
        } else {
            lemma_trailing_zeros_bound(i);
            lemma_bit_length_monotonic(i, (limit - 1) as nat);
        }
    }
}

/// One step of the descending walk: clears the lowest set bit of `i`.
pub fn remove(i: usize) -> (next: usize)
    ensures
        next == contributor(i as nat),
        i >= 1 ==> next == i & ((i - 1) as usize),
{
    proof {
        if i >= 1 {
            lemma_and_clears_lowbit(i);
        } else {
            let ones: usize = usize::MAX;
            assert(0usize & ones == 0) by (bit_vector);
        }
    }
    i & i.wrapping_sub(1)
}

/// One step of the ascending walk: sets the trailing zeros of `i` and adds
/// one. Where the ancestor does not fit the machine word the result wraps
/// to zero.
pub fn increment(i: usize) -> (next: usize)
    ensures
        next == if ancestor(i as nat) <= usize::MAX {
            ancestor(i as nat)
        } else {
            0
        },
        i >= 1 && ancestor(i as nat) <= usize::MAX ==> next == (i | ((i - 1) as usize)) + 1,
{
    proof {
        if i >= 1 {
            lemma_or_fills_lowbit(i);
            lemma_lowbit_bounds(i as nat);
        } else {
            let ones: usize = usize::MAX;
            assert(0usize | ones == ones) by (bit_vector);
        }
    }
    (i | i.wrapping_sub(1)).wrapping_add(1)
}

/// The ascending walk from `i`: the slots that an update of position `i`
/// touches in an array of `limit` slots. The bound is exclusive, and the
/// origin is always yielded first.
pub fn increment_lsb(i: usize, limit: usize) -> (walk: Vec<usize>)
    requires
        1 <= i <= limit <= usize::MAX / 2,
    ensures
        positions(walk@) == ascent(i as nat, limit as nat),
        walk@.len() >= 1,
        walk@[0] == i,
        strictly_increasing(positions(walk@)),
        forall|k: int| 1 <= k < walk@.len() ==> #[trigger] walk@[k] < limit,
        i < limit ==> forall|k: int| 0 <= k < walk@.len() ==> #[trigger] walk@[k] < limit,
        forall|k: int|
            0 <= k < walk@.len() - 1 ==> #[trigger] walk@[k + 1] == ancestor(walk@[k] as nat),
        ancestor(walk@.last() as nat) >= limit,
        walk@.len() <= bit_length(limit as nat),
{
    let mut walk: Vec<usize> = Vec::new();
    walk.push(i);
    let mut cur: usize = i;
    proof {
        lemma_lowbit_bounds(cur as nat);
        assert(positions(walk@).drop_last() + ascent(cur as nat, limit as nat) == ascent(
            i as nat,
            limit as nat,
        ));
    }
    let mut next: usize = increment(cur);
    while next < limit
        invariant
            1 <= cur <= limit <= usize::MAX / 2,
            next == ancestor(cur as nat),
            walk@.len() >= 1,
            walk@.last() == cur,
            positions(walk@).drop_last() + ascent(cur as nat, limit as nat) == ascent(
                i as nat,
                limit as nat,
            ),
        decreases limit - cur,
    {
        proof {
            lemma_lowbit_bounds(cur as nat);
            lemma_lowbit_bounds(next as nat);
            assert(positions(walk@.push(next)).drop_last() == positions(walk@).drop_last() + seq![
                cur as nat,
            ]);
            assert(positions(walk@.push(next)).drop_last() + ascent(next as nat, limit as nat)
                == positions(walk@).drop_last() + ascent(cur as nat, limit as nat));
        }
        walk.push(next);
        cur = next;
        next = increment(cur);
    }
    proof {
        assert(positions(walk@).drop_last() + seq![cur as nat] == positions(walk@));
        lemma_ascent_walk(i as nat, limit as nat);
        lemma_ascent_len(i as nat, limit as nat);
        let model = ascent(i as nat, limit as nat);
        assert(positions(walk@).len() == walk@.len());
        assert forall|k: int| 0 <= k < walk@.len() implies #[trigger] walk@[k] as nat == model[k] by {
            assert(positions(walk@)[k] == walk@[k] as nat);
        }
        assert forall|k: int| 1 <= k < walk@.len() implies #[trigger] walk@[k] < limit by {
            assert(model[k] < limit);
        }
        assert forall|k: int| 0 <= k < walk@.len() - 1 implies #[trigger] walk@[k + 1] == ancestor(
            walk@[k] as nat,
        ) by {
            assert(model[k + 1] == ancestor(model[k]));
        }
    }
    walk
}

/// The descending walk from `i`: the slots that a query of the first `i`
/// positions adds up. Empty for zero.
pub fn remove_lsb(i: usize) -> (walk: Vec<usize>)
    ensures
        positions(walk@) == descent(i as nat),
        i >= 1 ==> walk@.len() >= 1 && walk@[0] == i && contributor(walk@.last() as nat) == 0,
        strictly_decreasing(positions(walk@)),
        forall|k: int| 0 <= k < walk@.len() ==> 1 <= #[trigger] walk@[k] <= i,
        forall|k: int|
            0 <= k < walk@.len() - 1 ==> #[trigger] walk@[k + 1] == contributor(walk@[k] as nat),
        walk@.len() == popcount(i as nat),
        walk@.len() <= bit_length(i as nat),
{
    let mut walk: Vec<usize> = Vec::new();
    let mut cur: usize = i;
    proof {
        assert(positions(walk@) + descent(cur as nat) == descent(i as nat));
    }
    while cur > 0
        invariant
            positions(walk@) + descent(cur as nat) == descent(i as nat),
        decreases cur,
    {
        proof {
            lemma_lowbit_bounds(cur as nat);
            assert(positions(walk@.push(cur)) == positions(walk@) + seq![cur as nat]);
            assert(positions(walk@.push(cur)) + descent(contributor(cur as nat)) == positions(
                walk@,
            ) + descent(cur as nat));
        }
        walk.push(cur);
        cur = remove(cur);
    }
    proof {
        assert(positions(walk@) + Seq::<nat>::empty() == positions(walk@));
        let model = descent(i as nat);
        lemma_descent_len(i as nat);
        assert(positions(walk@).len() == walk@.len());
        if i >= 1 {
            lemma_descent_walk(i as nat);
            assert(positions(walk@).len() == walk@.len());
            assert forall|k: int| 0 <= k < walk@.len() implies #[trigger] walk@[k] as nat
                == model[k] by {
                assert(positions(walk@)[k] == walk@[k] as nat);
            }
            assert forall|k: int| 0 <= k < walk@.len() implies 1 <= #[trigger] walk@[k] <= i by {
                assert(1 <= model[k] <= i);
            }
            assert forall|k: int| 0 <= k < walk@.len() - 1 implies #[trigger] walk@[k + 1]
                == contributor(walk@[k] as nat) by {
                assert(model[k + 1] == contributor(model[k]));
            }
        }
    }
    walk
}

} // verus!
