//! Agreement on one value among values submitted independently by a set of
//! participants of which at most `f` may be faulty: the agreed value is the
//! `(f + 1)`-th largest submission, defined once more than `2 f` are in.
use vstd::prelude::*;

verus! {

/// How many values of `s` lie strictly above `v`.
pub open spec fn count_above(s: Seq<u64>, v: u64) -> nat
    decreases s.len(),
{
    if s.len() == 0 {
        0
    } else {
        count_above(s.drop_last(), v) + if s.last() > v {
            1nat
        } else {
            0nat
        }
    }
}

/// How many values of `s` lie at or above `v`.
pub open spec fn count_at_least(s: Seq<u64>, v: u64) -> nat
    decreases s.len(),
{
    if s.len() == 0 {
        0
    } else {
        count_at_least(s.drop_last(), v) + if s.last() >= v {
            1nat
        } else {
            0nat
        }
    }
}

/// `v` is the `k`-th largest value of `s`, repeats counted: it occurs in `s`,
/// fewer than `k` values lie above it and at least `k` at or above it.
pub open spec fn is_kth_largest(s: Seq<u64>, k: nat, v: u64) -> bool {
    &&& s.contains(v)
    &&& count_above(s, v) < k
    &&& k <= count_at_least(s, v)
}

proof fn lemma_counts_bounded(s: Seq<u64>, v: u64)
    ensures
        count_above(s, v) <= count_at_least(s, v) <= s.len(),
    decreases s.len(),
{
    if s.len() > 0 {
        lemma_counts_bounded(s.drop_last(), v);
    }
}

proof fn lemma_member_counted(s: Seq<u64>, v: u64)
    requires
        s.contains(v),
    ensures
        count_above(s, v) < count_at_least(s, v),
    decreases s.len(),
{
    if s.last() == v {
        lemma_counts_bounded(s.drop_last(), v);
    } else {
        let i = choose|i: int| 0 <= i < s.len() && s[i] == v;
        assert(s.drop_last()[i] == v);
        lemma_member_counted(s.drop_last(), v);
    }
}

proof fn lemma_none_above(s: Seq<u64>, v: u64)
    requires
        forall|i: int| 0 <= i < s.len() ==> s[i] <= v,
    ensures
        count_above(s, v) == 0,
    decreases s.len(),
{
    if s.len() > 0 {
        lemma_none_above(s.drop_last(), v);
    }
}

proof fn lemma_all_at_least(s: Seq<u64>, v: u64)
    requires
        forall|i: int| 0 <= i < s.len() ==> s[i] >= v,
    ensures
        count_at_least(s, v) == s.len(),
    decreases s.len(),
{
    if s.len() > 0 {
        lemma_all_at_least(s.drop_last(), v);
    }
}

/// With no value strictly between `x` and `y`, the values above `x` are
/// those at or above `y`.
proof fn lemma_gap(s: Seq<u64>, x: u64, y: u64)
    requires
        x < y,
        forall|i: int| 0 <= i < s.len() ==> !(x < #[trigger] s[i] && s[i] < y),
    ensures
        count_above(s, x) == count_at_least(s, y),
    decreases s.len(),
{
    if s.len() > 0 {
        assert(!(x < s[s.len() - 1] && s[s.len() - 1] < y));
        lemma_gap(s.drop_last(), x, y);
    }
}

proof fn lemma_counts_monotone(s: Seq<u64>, v: u64, w: u64)
    requires
        v < w,
    ensures
        count_at_least(s, w) <= count_above(s, v),
    decreases s.len(),
{
    if s.len() > 0 {
        lemma_counts_monotone(s.drop_last(), v, w);
    }
}

/// The `k`-th largest value is unique, so it pins the agreed value down.
pub proof fn lemma_kth_largest_unique(s: Seq<u64>, k: nat, v: u64, w: u64)
    requires
        is_kth_largest(s, k, v),
        is_kth_largest(s, k, w),
    ensures
        v == w,
{
    if v < w {
        lemma_counts_monotone(s, v, w);
    } else if w < v {
        lemma_counts_monotone(s, w, v);
    }
}

/// How many of `n` participants may be faulty: `(n - 1) / 3`.
pub fn max_faulty(n: usize) -> (r: usize)
    ensures
        n >= 1 ==> r == (n - 1) / 3,
        n == 0 ==> r == 0,
{
    if n == 0 {
        0
    } else {
        (n - 1) / 3
    }
}

fn count_at_least_exec(values: &Vec<u64>, v: u64) -> (r: usize)
    ensures
        r == count_at_least(values@, v),
{
    let mut c: usize = 0;
    let mut i: usize = 0;
    while i < values.len()
        invariant
            0 <= i <= values@.len(),
            c <= i,
            c == count_at_least(values@.subrange(0, i as int), v),
        decreases values@.len() - i,
    {
        assert(values@.subrange(0, i + 1).drop_last() =~= values@.subrange(0, i as int));
        if values[i] >= v {
            c = c + 1;
        }
        i = i + 1;
    }
    assert(values@.subrange(0, i as int) =~= values@);
    c
}

fn largest(values: &Vec<u64>) -> (r: u64)
    requires
        values@.len() > 0,
    ensures
        values@.contains(r),
        forall|i: int| 0 <= i < values@.len() ==> values@[i] <= r,
{
    let mut best = values[0];
    let mut i: usize = 1;
    while i < values.len()
        invariant
            1 <= i <= values@.len(),
            values@.contains(best),
            forall|j: int| 0 <= j < i ==> values@[j] <= best,
        decreases values@.len() - i,
    {
        if values[i] > best {
            best = values[i];
        }
        i = i + 1;
    }
    best
}

fn largest_below(values: &Vec<u64>, bound: u64) -> (r: u64)
    requires
        exists|i: int| 0 <= i < values@.len() && values@[i] < bound,
    ensures
        r < bound,
        values@.contains(r),
        forall|i: int| 0 <= i < values@.len() && values@[i] < bound ==> values@[i] <= r,
{
    let mut found = false;
    let mut best: u64 = 0;
    let mut i: usize = 0;
    while i < values.len()
        invariant
            0 <= i <= values@.len(),
            found ==> best < bound && values@.contains(best),
            !found ==> forall|j: int| 0 <= j < i ==> values@[j] >= bound,
            found ==> forall|j: int| 0 <= j < i && values@[j] < bound ==> values@[j] <= best,
        decreases values@.len() - i,
    {
        if values[i] < bound && (!found || values[i] > best) {
            best = values[i];
            found = true;
        }
        i = i + 1;
    }
    best
}

/// The agreed value of the submissions so far, when at most `max_faulty`
/// submitters may be faulty: none while at most `2 * max_faulty` values are
/// in, then the `(max_faulty + 1)`-th largest of them.
pub fn agreed_value(values: &Vec<u64>, max_faulty: usize) -> (r: Option<u64>)
    ensures
        r is None <==> values@.len() <= 2 * max_faulty,
        r is Some ==> is_kth_largest(values@, (max_faulty + 1) as nat, r.unwrap()),
{
    if max_faulty >= values.len() || values.len() - max_faulty <= max_faulty {
        return None;
    }
    let ghost s = values@;
    let k: usize = max_faulty + 1;
    let mut cur = largest(values);
    proof {
        lemma_none_above(s, cur);
    }
    let mut g = count_at_least_exec(values, cur);
    while g < k
        invariant
            s == values@,
            k <= s.len(),
            s.contains(cur),
            count_above(s, cur) < k,
            g == count_at_least(s, cur),
        decreases s.len() - g,
    {
        proof {
            if forall|i: int| 0 <= i < s.len() ==> s[i] >= cur {
                lemma_all_at_least(s, cur);
            }
        }
        let next = largest_below(values, cur);
        proof {
            assert forall|i: int| 0 <= i < s.len() implies !(next < #[trigger] s[i] && s[i]
                < cur) by {}
            lemma_gap(s, next, cur);
            lemma_member_counted(s, next);
            lemma_counts_bounded(s, next);
        }
        cur = next;
        g = count_at_least_exec(values, cur);
    }
    Some(cur)
}

} // verus!
