use vstd::prelude::*;

verus! {

/// Total of a sequence of troop counts, as an unbounded integer.
pub open spec fn sum_u32(s: Seq<u32>) -> int
    decreases s.len(),
{
    if s.len() == 0 {
        0
    } else {
        sum_u32(s.drop_last()) + s.last()
    }
}

/// Number of occurrences of `x` in `s`.
pub open spec fn count_of<T>(s: Seq<T>, x: T) -> int
    decreases s.len(),
{
    if s.len() == 0 {
        0
    } else {
        count_of(s.drop_last(), x) + if s.last() == x {
            1int
        } else {
            0int
        }
    }
}

pub proof fn lemma_sum_nonneg(s: Seq<u32>)
    ensures
        sum_u32(s) >= 0,
    decreases s.len(),
{
    if s.len() > 0 {
        lemma_sum_nonneg(s.drop_last());
    }
}

/// The total over a prefix never exceeds the total over the whole sequence.
pub proof fn lemma_sum_prefix_le(s: Seq<u32>, n: int)
    requires
        0 <= n <= s.len(),
    ensures
        sum_u32(s.take(n)) <= sum_u32(s),
    decreases s.len() - n,
{
    if n == s.len() {
        assert(s.take(n) =~= s);
    } else {
        lemma_sum_prefix_le(s, n + 1);
        assert(s.take(n + 1).drop_last() =~= s.take(n));
        assert(sum_u32(s.take(n)) <= sum_u32(s.take(n + 1)));
    }
}

/// Extending a prefix by one element adds exactly that element to the total.
pub proof fn lemma_sum_take_succ(s: Seq<u32>, n: int)
    requires
        0 <= n < s.len(),
    ensures
        sum_u32(s.take(n + 1)) == sum_u32(s.take(n)) + s[n],
{
    assert(s.take(n + 1).drop_last() =~= s.take(n));
}

/// A single element never exceeds the total of the whole sequence.
pub proof fn lemma_sum_element_le(s: Seq<u32>, i: int)
    requires
        0 <= i < s.len(),
    ensures
        s[i] <= sum_u32(s),
    decreases s.len(),
{
    if i == s.len() - 1 {
        lemma_sum_nonneg(s.drop_last());
    } else {
        lemma_sum_element_le(s.drop_last(), i);
        assert(s.drop_last()[i] == s[i]);
    }
}

/// Two distinct elements together never exceed the total.
pub proof fn lemma_sum_two_elements_le(s: Seq<u32>, i: int, j: int)
    requires
        0 <= i < s.len(),
        0 <= j < s.len(),
        i != j,
    ensures
        s[i] + s[j] <= sum_u32(s),
    decreases s.len(),
{
    if i == s.len() - 1 {
        lemma_sum_element_le(s.drop_last(), j);
    } else if j == s.len() - 1 {
        lemma_sum_element_le(s.drop_last(), i);
    } else {
        lemma_sum_two_elements_le(s.drop_last(), i, j);
        lemma_sum_nonneg(s.drop_last());
    }
}

/// Updating one entry shifts the total by the difference of new and old value.
pub proof fn lemma_sum_update(s: Seq<u32>, i: int, v: u32)
    requires
        0 <= i < s.len(),
    ensures
        sum_u32(s.update(i, v)) == sum_u32(s) - s[i] + v,
    decreases s.len(),
{
    if i == s.len() - 1 {
        assert(s.update(i, v).drop_last() =~= s.drop_last());
    } else {
        assert(s.update(i, v).drop_last() =~= s.drop_last().update(i, v));
        lemma_sum_update(s.drop_last(), i, v);
    }
}

/// A sequence of zeroes totals zero.
pub proof fn lemma_sum_zero(s: Seq<u32>)
    requires
        forall|i: int| 0 <= i < s.len() ==> #[trigger] s[i] == 0,
    ensures
        sum_u32(s) == 0,
    decreases s.len(),
{
    if s.len() > 0 {
        lemma_sum_zero(s.drop_last());
    }
}

/// Adding two sequences entry by entry adds their totals.
pub proof fn lemma_sum_pointwise_add(a: Seq<u32>, b: Seq<u32>, c: Seq<u32>)
    requires
        a.len() == b.len(),
        a.len() == c.len(),
        forall|i: int| 0 <= i < a.len() ==> #[trigger] c[i] == a[i] + b[i],
    ensures
        sum_u32(c) == sum_u32(a) + sum_u32(b),
    decreases a.len(),
{
    if a.len() > 0 {
        assert(forall|i: int|
            0 <= i < a.len() - 1 ==> #[trigger] c.drop_last()[i] == a.drop_last()[i]
                + b.drop_last()[i]);
        lemma_sum_pointwise_add(a.drop_last(), b.drop_last(), c.drop_last());
    }
}

pub proof fn lemma_count_nonneg<T>(s: Seq<T>, x: T)
    ensures
        count_of(s, x) >= 0,
    decreases s.len(),
{
    if s.len() > 0 {
        lemma_count_nonneg(s.drop_last(), x);
    }
}

/// An element occurs in a sequence exactly when its count is positive.
pub proof fn lemma_count_contains<T>(s: Seq<T>, x: T)
    ensures
        s.contains(x) <==> count_of(s, x) > 0,
    decreases s.len(),
{
    lemma_count_nonneg(s, x);
    if s.len() > 0 {
        lemma_count_contains(s.drop_last(), x);
        lemma_count_nonneg(s.drop_last(), x);
        if s.last() == x {
            assert(s[s.len() - 1] == x);
            assert(s.contains(x));
        } else {
            assert(s.contains(x) <==> s.drop_last().contains(x)) by {
                if s.contains(x) {
                    let k = choose|k: int| 0 <= k < s.len() && s[k] == x;
                    assert(s.drop_last()[k] == x);
                }
                if s.drop_last().contains(x) {
                    let k = choose|k: int| 0 <= k < s.len() - 1 && s.drop_last()[k] == x;
                    assert(s[k] == x);
                }
            }
        }
    }
}

/// Appending one element raises its own count by one and keeps the others.
pub proof fn lemma_count_push<T>(s: Seq<T>, y: T, x: T)
    ensures
        count_of(s.push(y), x) == count_of(s, x) + if y == x {
            1int
        } else {
            0int
        },
{
    assert(s.push(y).drop_last() =~= s);
}

/// The sequence `s` with every occurrence of `y` removed.
pub open spec fn without_value(s: Seq<u32>, y: u32) -> Seq<u32> {
    s.filter(|e: u32| e != y)
}

/// Removing every occurrence of `y` empties `y`'s count and keeps the others.
pub proof fn lemma_count_filter_out(s: Seq<u32>, y: u32, x: u32)
    ensures
        count_of(without_value(s, y), y) == 0,
        x != y ==> count_of(without_value(s, y), x) == count_of(s, x),
    decreases s.len(),
{
    reveal(Seq::filter);
    if s.len() > 0 {
        lemma_count_filter_out(s.drop_last(), y, x);
        if s.last() != y {
            assert(without_value(s.drop_last(), y).push(s.last()).drop_last() =~= without_value(
                s.drop_last(),
                y,
            ));
        }
    }
}

/// Every element of the pruned sequence comes from the original.
pub proof fn lemma_without_member(s: Seq<u32>, y: u32, k: int)
    requires
        0 <= k < without_value(s, y).len(),
    ensures
        s.contains(without_value(s, y)[k]),
    decreases s.len(),
{
    reveal(Seq::filter);
    if s.len() > 0 {
        let f = without_value(s, y);
        let fd = without_value(s.drop_last(), y);
        if s.last() != y {
            if k == f.len() - 1 {
                assert(f[k] == s[s.len() - 1]);
            } else {
                lemma_without_member(s.drop_last(), y, k);
                let j = choose|j: int| 0 <= j < s.drop_last().len() && s.drop_last()[j] == fd[k];
                assert(s[j] == f[k]);
            }
        } else {
            lemma_without_member(s.drop_last(), y, k);
            let j = choose|j: int| 0 <= j < s.drop_last().len() && s.drop_last()[j] == fd[k];
            assert(s[j] == f[k]);
        }
    }
}

} // verus!
