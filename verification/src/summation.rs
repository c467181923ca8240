//! Summing a measure over a sequence, with the usual facts about how the
//! sum moves when an element is pushed, inserted, removed or replaced.
//! The ledger invariants of the order book are stated with these sums.

use vstd::prelude::*;

verus! {

/// The sum of `f` over the elements of `s`.
pub open spec fn sum_by<T>(s: Seq<T>, f: spec_fn(T) -> int) -> int
    decreases s.len(),
{
    if s.len() == 0 {
        0
    } else {
        sum_by(s.drop_last(), f) + f(s.last())
    }
}

/// Appending an element adds its measure.
pub proof fn lemma_sum_by_push<T>(s: Seq<T>, f: spec_fn(T) -> int, x: T)
    ensures
        sum_by(s.push(x), f) == sum_by(s, f) + f(x),
{
    assert(s.push(x).drop_last() =~= s);
    assert(s.push(x).last() == x);
}

/// Inserting an element anywhere adds its measure.
pub proof fn lemma_sum_by_insert<T>(s: Seq<T>, i: int, f: spec_fn(T) -> int, x: T)
    requires
        0 <= i <= s.len(),
    ensures
        sum_by(s.insert(i, x), f) == sum_by(s, f) + f(x),
    decreases s.len(),
{
    s.insert_ensures(i, x);
    if i == s.len() {
        assert(s.insert(i, x) =~= s.push(x));
        lemma_sum_by_push(s, f, x);
    } else {
        let t = s.insert(i, x);
        s.drop_last().insert_ensures(i, x);
        assert(t.drop_last() =~= s.drop_last().insert(i, x));
        assert(t.last() == s.last());
        lemma_sum_by_insert(s.drop_last(), i, f, x);
    }
}

/// Removing an element subtracts its measure.
pub proof fn lemma_sum_by_remove<T>(s: Seq<T>, i: int, f: spec_fn(T) -> int)
    requires
        0 <= i < s.len(),
    ensures
        sum_by(s.remove(i), f) == sum_by(s, f) - f(s[i]),
    decreases s.len(),
{
    s.remove_ensures(i);
    if i == s.len() - 1 {
        assert(s.remove(i) =~= s.drop_last());
    } else {
        let t = s.remove(i);
        s.drop_last().remove_ensures(i);
        assert(t.drop_last() =~= s.drop_last().remove(i));
        assert(t.last() == s.last());
        lemma_sum_by_remove(s.drop_last(), i, f);
    }
}

/// Replacing an element swaps its measure for the new one's.
pub proof fn lemma_sum_by_update<T>(s: Seq<T>, i: int, f: spec_fn(T) -> int, x: T)
    requires
        0 <= i < s.len(),
    ensures
        sum_by(s.update(i, x), f) == sum_by(s, f) - f(s[i]) + f(x),
    decreases s.len(),
{
    let t = s.update(i, x);
    if i == s.len() - 1 {
        assert(t.drop_last() =~= s.drop_last());
        assert(t.last() == x);
    } else {
        assert(t.drop_last() =~= s.drop_last().update(i, x));
        assert(t.last() == s.last());
        lemma_sum_by_update(s.drop_last(), i, f, x);
    }
}

/// Removing an element the predicate rejects does not change the filtered
/// sequence.
pub proof fn lemma_filter_remove_excluded<T>(s: Seq<T>, j: int, pred: spec_fn(T) -> bool)
    requires
        0 <= j < s.len(),
        !pred(s[j]),
    ensures
        s.remove(j).filter(pred) == s.filter(pred),
    decreases s.len(),
{
    reveal(Seq::filter);
    s.remove_ensures(j);
    if j == s.len() - 1 {
        assert(s.remove(j) =~= s.drop_last());
    } else {
        let t = s.remove(j);
        s.drop_last().remove_ensures(j);
        assert(t.drop_last() =~= s.drop_last().remove(j));
        assert(t.last() == s.last());
        lemma_filter_remove_excluded(s.drop_last(), j, pred);
    }
}

/// Filtering keeps a sequence whose elements all satisfy the predicate.
pub proof fn lemma_filter_all<T>(s: Seq<T>, pred: spec_fn(T) -> bool)
    requires
        forall|i: int| 0 <= i < s.len() ==> pred(#[trigger] s[i]),
    ensures
        s.filter(pred) == s,
    decreases s.len(),
{
    reveal(Seq::filter);
    if s.len() > 0 {
        assert(forall|i: int|
            0 <= i < s.drop_last().len() ==> pred(#[trigger] s.drop_last()[i])) by {
            assert(forall|i: int|
                0 <= i < s.drop_last().len() ==> s.drop_last()[i] == s[i]);
        }
        lemma_filter_all(s.drop_last(), pred);
        assert(pred(s[s.len() - 1]));
        assert(s.drop_last().push(s.last()) =~= s);
    }
}

/// A sum of all-zero measures is zero.
pub proof fn lemma_sum_by_zero<T>(s: Seq<T>, f: spec_fn(T) -> int)
    requires
        forall|i: int| 0 <= i < s.len() ==> #[trigger] f(s[i]) == 0,
    ensures
        sum_by(s, f) == 0,
    decreases s.len(),
{
    if s.len() > 0 {
        assert(forall|i: int|
            0 <= i < s.drop_last().len() ==> #[trigger] f(s.drop_last()[i]) == 0) by {
            assert(forall|i: int|
                0 <= i < s.drop_last().len() ==> s.drop_last()[i] == s[i]);
        }
        lemma_sum_by_zero(s.drop_last(), f);
        assert(f(s[s.len() - 1]) == 0);
    }
}

/// A sum of non-negative measures is non-negative.
pub proof fn lemma_sum_by_nonneg<T>(s: Seq<T>, f: spec_fn(T) -> int)
    requires
        forall|i: int| 0 <= i < s.len() ==> #[trigger] f(s[i]) >= 0,
    ensures
        sum_by(s, f) >= 0,
    decreases s.len(),
{
    if s.len() > 0 {
        assert(forall|i: int|
            0 <= i < s.drop_last().len() ==> #[trigger] f(s.drop_last()[i]) >= 0) by {
            assert(forall|i: int|
                0 <= i < s.drop_last().len() ==> s.drop_last()[i] == s[i]);
        }
        lemma_sum_by_nonneg(s.drop_last(), f);
        assert(f(s[s.len() - 1]) >= 0);
    }
}

/// A prefix of non-negative measures sums to no more than the whole.
pub proof fn lemma_sum_by_take_le<T>(s: Seq<T>, j: int, f: spec_fn(T) -> int)
    requires
        0 <= j <= s.len(),
        forall|i: int| 0 <= i < s.len() ==> #[trigger] f(s[i]) >= 0,
    ensures
        sum_by(s.take(j), f) <= sum_by(s, f),
    decreases s.len(),
{
    if j == s.len() {
        assert(s.take(j) =~= s);
    } else {
        assert(forall|i: int|
            0 <= i < s.drop_last().len() ==> s.drop_last()[i] == s[i]);
        assert(s.drop_last().take(j) =~= s.take(j));
        lemma_sum_by_take_le(s.drop_last(), j, f);
        assert(f(s[s.len() - 1]) >= 0);
    }
}

/// Each element's measure is at most the whole sum, when all measures are
/// non-negative.
pub proof fn lemma_sum_by_element_bound<T>(s: Seq<T>, i: int, f: spec_fn(T) -> int)
    requires
        0 <= i < s.len(),
        forall|j: int| 0 <= j < s.len() ==> #[trigger] f(s[j]) >= 0,
    ensures
        f(s[i]) <= sum_by(s, f),
{
    lemma_sum_by_remove(s, i, f);
    let t = s.remove(i);
    s.remove_ensures(i);
    assert(forall|j: int| 0 <= j < t.len() ==> #[trigger] f(t[j]) >= 0) by {
        assert(forall|j: int| 0 <= j < i ==> t[j] == s[j]);
        assert(forall|j: int| i <= j < t.len() ==> t[j] == s[j + 1]);
    }
    lemma_sum_by_nonneg(t, f);
}

} // verus!
