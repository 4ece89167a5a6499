//! Totals and extremes of recorded samples.

use vstd::prelude::*;

verus! {

/// The sum of `s`.
pub open spec fn total(s: Seq<int>) -> int
    decreases s.len(),
{
    if s.len() == 0 {
        0
    } else {
        total(s.drop_last()) + s.last()
    }
}

/// The samples as mathematical integers.
pub open spec fn ints(s: Seq<u128>) -> Seq<int> {
    s.map_values(|x: u128| x as int)
}

/// The sizes as mathematical integers.
pub open spec fn sizes(s: Seq<usize>) -> Seq<int> {
    s.map_values(|x: usize| x as int)
}

/// The latencies as mathematical integers.
pub open spec fn latencies(s: Seq<u64>) -> Seq<int> {
    s.map_values(|x: u64| x as int)
}

/// The signed samples as mathematical integers.
pub open spec fn signed_ints(s: Seq<i128>) -> Seq<int> {
    s.map_values(|x: i128| x as int)
}

/// Whether every partial sum of `s`, from the front, fits into 128 signed bits.
pub open spec fn sums_fit(s: Seq<int>) -> bool {
    forall|k: int| 0 <= k <= s.len() ==> i128::MIN <= #[trigger] total(s.take(k)) <= i128::MAX
}

/// Whether `m` is the greatest element of `s`.
pub open spec fn is_greatest(s: Seq<int>, m: int) -> bool {
    s.contains(m) && forall|i: int| 0 <= i < s.len() ==> #[trigger] s[i] <= m
}

/// Whether `m` is the least element of `s`.
pub open spec fn is_least(s: Seq<int>, m: int) -> bool {
    s.contains(m) && forall|i: int| 0 <= i < s.len() ==> m <= #[trigger] s[i]
}

/// One more element adds itself to the sum.
pub proof fn lemma_total_step(s: Seq<int>, k: int)
    requires
        0 <= k < s.len(),
    ensures
        total(s.take(k + 1)) == total(s.take(k)) + s[k],
{
    assert(s.take(k + 1).drop_last() =~= s.take(k));
}

/// Without negative elements no partial sum exceeds the whole.
pub proof fn lemma_partial_total(s: Seq<int>, k: int)
    requires
        0 <= k <= s.len(),
        forall|i: int| 0 <= i < s.len() ==> 0 <= #[trigger] s[i],
    ensures
        0 <= total(s.take(k)) <= total(s),
    decreases s.len() - k,
{
    if k < s.len() {
        lemma_total_step(s, k);
        lemma_partial_total(s, k + 1);
        lemma_total_nonnegative(s.take(k));
    } else {
        assert(s.take(k) =~= s);
        lemma_total_nonnegative(s);
    }
}

proof fn lemma_total_nonnegative(s: Seq<int>)
    requires
        forall|i: int| 0 <= i < s.len() ==> 0 <= #[trigger] s[i],
    ensures
        0 <= total(s),
    decreases s.len(),
{
    if s.len() > 0 {
        let rest = s.drop_last();
        assert forall|i: int| 0 <= i < rest.len() implies 0 <= #[trigger] rest[i] by {
            assert(rest[i] == s[i]);
        }
        lemma_total_nonnegative(rest);
        assert(0 <= s[s.len() - 1]);
    }
}

/// The sum lies between as many times the least and as many times the greatest element.
pub proof fn lemma_total_bounds(s: Seq<int>, low: int, high: int)
    requires
        forall|i: int| 0 <= i < s.len() ==> low <= #[trigger] s[i] <= high,
    ensures
        low * s.len() <= total(s) <= high * s.len(),
    decreases s.len(),
{
    if s.len() > 0 {
        let rest = s.drop_last();
        assert forall|i: int| 0 <= i < rest.len() implies low <= #[trigger] rest[i] <= high by {
            assert(rest[i] == s[i]);
        }
        lemma_total_bounds(rest, low, high);
        assert(low <= s[s.len() - 1] <= high);
        let n = rest.len() as int;
        assert(low * (n + 1) == low * n + low) by (nonlinear_arith);
        assert(high * (n + 1) == high * n + high) by (nonlinear_arith);
    }
}

/// The sum of `v`.
pub fn sum_samples(v: &Vec<u128>) -> (r: u128)
    requires
        total(ints(v@)) <= u128::MAX,
    ensures
        r == total(ints(v@)),
{
    let ghost s = ints(v@);
    let mut sum: u128 = 0;
    let mut i: usize = 0;
    assert(s.take(0) =~= Seq::<int>::empty());
    while i < v.len()
        invariant
            i <= v@.len(),
            s == ints(v@),
            total(s) <= u128::MAX,
            sum == total(s.take(i as int)),
        decreases v@.len() - i,
    {
        proof {
            lemma_total_step(s, i as int);
            lemma_partial_total(s, i + 1);
        }
        sum += v[i];
        i += 1;
    }
    assert(s.take(i as int) =~= s);
    sum
}

/// The sum of `v`.
pub fn sum_latencies(v: &Vec<u64>) -> (r: u64)
    requires
        total(latencies(v@)) <= u64::MAX,
    ensures
        r == total(latencies(v@)),
{
    let ghost s = latencies(v@);
    let mut sum: u64 = 0;
    let mut i: usize = 0;
    assert(s.take(0) =~= Seq::<int>::empty());
    while i < v.len()
        invariant
            i <= v@.len(),
            s == latencies(v@),
            total(s) <= u64::MAX,
            sum == total(s.take(i as int)),
        decreases v@.len() - i,
    {
        proof {
            lemma_total_step(s, i as int);
            lemma_partial_total(s, i + 1);
        }
        sum += v[i];
        i += 1;
    }
    assert(s.take(i as int) =~= s);
    sum
}

/// The sum of `v`.
pub fn sum_sizes(v: &Vec<usize>) -> (r: usize)
    requires
        total(sizes(v@)) <= usize::MAX,
    ensures
        r == total(sizes(v@)),
{
    let ghost s = sizes(v@);
    let mut sum: usize = 0;
    let mut i: usize = 0;
    assert(s.take(0) =~= Seq::<int>::empty());
    while i < v.len()
        invariant
            i <= v@.len(),
            s == sizes(v@),
            total(s) <= usize::MAX,
            sum == total(s.take(i as int)),
        decreases v@.len() - i,
    {
        proof {
            lemma_total_step(s, i as int);
            lemma_partial_total(s, i + 1);
        }
        sum += v[i];
        i += 1;
    }
    assert(s.take(i as int) =~= s);
    sum
}

/// The sum of `v`, which never leaves 128 signed bits on the way.
pub fn sum_signed(v: &Vec<i128>) -> (r: i128)
    requires
        sums_fit(signed_ints(v@)),
    ensures
        r == total(signed_ints(v@)),
{
    let ghost s = signed_ints(v@);
    let mut sum: i128 = 0;
    let mut i: usize = 0;
    assert(s.take(0) =~= Seq::<int>::empty());
    while i < v.len()
        invariant
            i <= v@.len(),
            s == signed_ints(v@),
            sums_fit(s),
            sum == total(s.take(i as int)),
        decreases v@.len() - i,
    {
        proof {
            lemma_total_step(s, i as int);
            assert(i128::MIN <= total(s.take(i + 1)) <= i128::MAX);
        }
        sum += v[i];
        i += 1;
    }
    assert(s.take(i as int) =~= s);
    sum
}

/// The least and the greatest of `v`.
pub fn sample_range(v: &Vec<u128>) -> (r: Option<(u128, u128)>)
    ensures
        match r {
            Some((low, high)) => is_least(ints(v@), low as int) && is_greatest(
                ints(v@),
                high as int,
            ),
            None => v@.len() == 0,
        },
{
    if v.len() == 0 {
        return None;
    }
    let ghost s = ints(v@);
    let mut low: u128 = v[0];
    let mut high: u128 = v[0];
    let mut i: usize = 1;
    assert(s[0] == low);
    while i < v.len()
        invariant
            1 <= i <= v@.len(),
            s == ints(v@),
            s.contains(low as int),
            s.contains(high as int),
            forall|j: int| 0 <= j < i ==> low <= #[trigger] s[j] <= high,
        decreases v@.len() - i,
    {
        assert(s[i as int] == v@[i as int]);
        if v[i] < low {
            low = v[i];
        }
        if v[i] > high {
            high = v[i];
        }
        i += 1;
    }
    Some((low, high))
}

/// The least and the greatest of `v`.
pub fn size_range(v: &Vec<usize>) -> (r: Option<(usize, usize)>)
    ensures
        match r {
            Some((low, high)) => is_least(sizes(v@), low as int) && is_greatest(
                sizes(v@),
                high as int,
            ),
            None => v@.len() == 0,
        },
{
    if v.len() == 0 {
        return None;
    }
    let ghost s = sizes(v@);
    let mut low: usize = v[0];
    let mut high: usize = v[0];
    let mut i: usize = 1;
    assert(s[0] == low);
    while i < v.len()
        invariant
            1 <= i <= v@.len(),
            s == sizes(v@),
            s.contains(low as int),
            s.contains(high as int),
            forall|j: int| 0 <= j < i ==> low <= #[trigger] s[j] <= high,
        decreases v@.len() - i,
    {
        assert(s[i as int] == v@[i as int]);
        if v[i] < low {
            low = v[i];
        }
        if v[i] > high {
            high = v[i];
        }
        i += 1;
    }
    Some((low, high))
}

/// Nothing sums up to nothing, and one more element adds itself.
pub proof fn law_total(s: Seq<int>, x: int)
    ensures
        total(Seq::<int>::empty()) == 0,
        total(s.push(x)) == total(s) + x,
{
    assert(s.push(x).drop_last() =~= s);
}

/// Samples keep their number, their order and their values as mathematical integers.
pub proof fn law_samples_as_integers(
    a: Seq<u128>,
    b: Seq<usize>,
    c: Seq<u64>,
    d: Seq<i128>,
    i: int,
)
    ensures
        ints(a).len() == a.len(),
        sizes(b).len() == b.len(),
        latencies(c).len() == c.len(),
        signed_ints(d).len() == d.len(),
        0 <= i < a.len() ==> ints(a)[i] == a[i],
        0 <= i < b.len() ==> sizes(b)[i] == b[i],
        0 <= i < c.len() ==> latencies(c)[i] == c[i],
        0 <= i < d.len() ==> signed_ints(d)[i] == d[i],
{
}

/// The greatest and the least are among the elements, and every element lies between them.
pub proof fn law_extremes(s: Seq<int>, low: int, high: int, i: int)
    requires
        is_least(s, low),
        is_greatest(s, high),
        0 <= i < s.len(),
    ensures
        low <= s[i] <= high,
        s.contains(low),
        s.contains(high),
{
}

} // verus!
