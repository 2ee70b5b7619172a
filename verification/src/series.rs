//! Sequence operations behind windowing, decimation and lookup, with their
//! models.

use std::collections::VecDeque;
use vstd::prelude::*;

verus! {

/// The samples of a channel, each viewed as the sequence of its components.
pub open spec fn rows<T>(v: Seq<Vec<T>>) -> Seq<Seq<T>> {
    Seq::new(v.len(), |i: int| v[i]@)
}

/// `n / rate`, rounded up: the number of multiples of `rate` below `n`.
pub open spec fn ceil_div(n: nat, rate: nat) -> nat
    recommends
        rate > 0,
{
    ((n + rate - 1) / (rate as int)) as nat
}

/// Every `rate`-th element of `s`, starting with the first.
pub open spec fn decimated<A>(s: Seq<A>, rate: nat) -> Seq<A>
    recommends
        rate > 0,
{
    Seq::new(ceil_div(s.len(), rate), |i: int| s[i * rate])
}

/// The elements of `s` at those indices in `[lo, hi)` that `s` has; none when
/// `hi <= lo`.
pub open spec fn windowed<A>(s: Seq<A>, lo: nat, hi: nat) -> Seq<A> {
    let from = if lo <= s.len() { lo } else { s.len() };
    let upto = if hi <= s.len() { hi } else { s.len() };
    if from <= upto {
        s.subrange(from as int, upto as int)
    } else {
        Seq::empty()
    }
}

/// `i` is the first index of `s` whose element satisfies `p`.
pub open spec fn is_first<A>(s: Seq<A>, p: spec_fn(A) -> bool, i: int) -> bool {
    &&& 0 <= i < s.len()
    &&& p(s[i])
    &&& forall|j: int| 0 <= j < i ==> !p(#[trigger] s[j])
}

/// The first index of `s` whose element satisfies `p`, if there is one.
pub open spec fn first_index<A>(s: Seq<A>, p: spec_fn(A) -> bool) -> Option<int> {
    if exists|i: int| is_first(s, p, i) {
        Some(choose|i: int| is_first(s, p, i))
    } else {
        None
    }
}

/// The test "is at least `t`" on timestamps.
pub open spec fn at_least(t: i64) -> spec_fn(i64) -> bool {
    |x: i64| x >= t
}

/// The index at which a window with lower bound `t_min` starts: that of the
/// first timestamp at or after `t_min`, or 0 when there is none.
pub open spec fn window_start(time: Seq<i64>, t_min: i64) -> nat {
    match first_index(time, at_least(t_min)) {
        Some(i) => i as nat,
        None => 0,
    }
}

/// The index before which a window with upper bound `t_max` ends: that of the
/// first timestamp at or after `t_max`, or the length of the axis when there
/// is none.
pub open spec fn window_end(time: Seq<i64>, t_max: i64) -> nat {
    match first_index(time, at_least(t_max)) {
        Some(i) => i as nat,
        None => time.len(),
    }
}

/// The number of indices in `[window_start, window_end)`.
pub open spec fn window_len(time: Seq<i64>, t_min: i64, t_max: i64) -> nat {
    let lo = window_start(time, t_min);
    let hi = window_end(time, t_max);
    if lo <= hi {
        (hi - lo) as nat
    } else {
        0
    }
}

/// Timestamps never decrease along the axis.
pub open spec fn non_decreasing(time: Seq<i64>) -> bool {
    forall|i: int, j: int| 0 <= i <= j < time.len() ==> time[i] <= time[j]
}

/// A sequence has at most one first index for a test.
pub proof fn lemma_first_unique<A>(s: Seq<A>, p: spec_fn(A) -> bool, i: int, j: int)
    requires
        is_first(s, p, i),
        is_first(s, p, j),
    ensures
        i == j,
{
    if i < j {
        assert(!p(s[i]));
    } else if j < i {
        assert(!p(s[j]));
    }
}

/// An index shown to be the first is the one that `first_index` gives.
pub proof fn lemma_first_index_is<A>(s: Seq<A>, p: spec_fn(A) -> bool, i: int)
    requires
        is_first(s, p, i),
    ensures
        first_index(s, p) == Some(i),
{
    let k = choose|k: int| is_first(s, p, k);
    lemma_first_unique(s, p, i, k);
}

/// `first_index` gives nothing exactly when no element satisfies the test,
/// and otherwise an index that is the first.
pub proof fn lemma_first_index<A>(s: Seq<A>, p: spec_fn(A) -> bool)
    ensures
        match first_index(s, p) {
            Some(i) => is_first(s, p, i),
            None => forall|j: int| 0 <= j < s.len() ==> !p(#[trigger] s[j]),
        },
{
    if first_index(s, p) is None {
        assert forall|j: int| 0 <= j < s.len() implies !p(#[trigger] s[j]) by {
            if p(s[j]) {
                lemma_some_before(s, p, j);
            }
        }
    }
}

/// Below any element that satisfies the test lies a first one.
proof fn lemma_some_before<A>(s: Seq<A>, p: spec_fn(A) -> bool, j: int)
    requires
        0 <= j < s.len(),
        p(s[j]),
    ensures
        exists|i: int| is_first(s, p, i),
    decreases j,
{
    if forall|k: int| 0 <= k < j ==> !p(#[trigger] s[k]) {
        assert(is_first(s, p, j));
    } else {
        let k = choose|k: int| 0 <= k < j && p(#[trigger] s[k]);
        lemma_some_before(s, p, k);
    }
}

/// Decimation keeps `ceil(len / rate)` elements, and keeps them all when the
/// rate is 1.
pub proof fn lemma_decimated<A>(s: Seq<A>, rate: nat)
    requires
        rate > 0,
    ensures
        decimated(s, rate).len() == ceil_div(s.len(), rate),
        rate == 1 ==> decimated(s, rate) == s,
        forall|i: int|
            0 <= i < ceil_div(s.len(), rate) ==> 0 <= #[trigger] (i * rate) < s.len(),
{
    let n = s.len();
    let m = ceil_div(n, rate);
    assert forall|i: int| 0 <= i < m implies 0 <= #[trigger] (i * rate) < n by {
        lemma_kept_index(n, rate, i);
    }
    if rate == 1 {
        assert(m == n) by {
            assert((n + 1 - 1) / 1 == n) by (nonlinear_arith);
        }
        assert(decimated(s, rate) =~= s);
    }
}

/// The `i`-th kept index, `i * rate`, lies within the sequence.
pub proof fn lemma_kept_index(n: nat, rate: nat, i: int)
    requires
        rate > 0,
        0 <= i < ceil_div(n, rate),
    ensures
        0 <= i * rate < n,
{
    let r = rate as int;
    let m = (n + r - 1) / r;
    assert(m * r <= n + r - 1) by (nonlinear_arith)
        requires
            m == (n + r - 1) / r,
            r > 0,
    ;
    assert(i * r <= (m - 1) * r) by (nonlinear_arith)
        requires
            i <= m - 1,
            r > 0,
    ;
    assert((m - 1) * r == m * r - r) by (nonlinear_arith);
    assert(0 <= i * r) by (nonlinear_arith)
        requires
            0 <= i,
            r > 0,
    ;
}

/// `count` multiples of `rate` lie below `n` when the last of them does and
/// the next one does not.
pub proof fn lemma_ceil_div_is(n: nat, rate: nat, count: nat)
    requires
        rate > 0,
        count > 0,
        (count - 1) * rate < n <= count * rate,
    ensures
        ceil_div(n, rate) == count,
{
    let r = rate as int;
    let c = count as int;
    let x = n + r - 1;
    assert((c - 1) * r == c * r - r) by (nonlinear_arith);
    assert(x / r == c) by (nonlinear_arith)
        requires
            r > 0,
            c * r <= x < c * r + r,
    ;
}

/// A window over a sequence as long as the time axis has `window_len`
/// elements.
pub proof fn lemma_windowed_len<A>(s: Seq<A>, time: Seq<i64>, t_min: i64, t_max: i64)
    requires
        s.len() == time.len(),
    ensures
        windowed(s, window_start(time, t_min), window_end(time, t_max)).len() == window_len(
            time,
            t_min,
            t_max,
        ),
{
    lemma_first_index(time, at_least(t_min));
    lemma_first_index(time, at_least(t_max));
}

/// A copy of one sample.
pub fn copy_sample<T: Copy>(sample: &Vec<T>) -> (copy: Vec<T>)
    ensures
        copy@ == sample@,
{
    let mut copy: Vec<T> = Vec::with_capacity(sample.len());
    let mut i: usize = 0;
    while i < sample.len()
        invariant
            i <= sample.len(),
            copy@ == sample@.take(i as int),
        decreases sample.len() - i,
    {
        copy.push(sample[i]);
        i += 1;
    }
    copy
}

/// Copies of every `rate`-th sample, starting with the first.
pub fn decimate_samples<T: Copy>(samples: &Vec<Vec<T>>, rate: usize) -> (kept: Vec<Vec<T>>)
    requires
        rate > 0,
    ensures
        rows(kept@) == decimated(rows(samples@), rate as nat),
{
    let n: usize = samples.len();
    let mut kept: Vec<Vec<T>> = Vec::new();
    let mut i: usize = 0;
    let mut more: bool = n > 0;
    assert(0 == kept.len() * rate) by (nonlinear_arith)
        requires
            kept.len() == 0,
    ;
    assert(ceil_div(0, rate as nat) == 0) by (nonlinear_arith)
        requires
            rate > 0,
    ;
    while more
        invariant
            rate > 0,
            n == samples.len(),
            more ==> i < n && i == kept.len() * rate,
            !more ==> kept.len() == ceil_div(n as nat, rate as nat),
            forall|j: int|
                0 <= j < kept.len() ==> 0 <= #[trigger] (j * rate) < n && kept[j]@ == samples[j
                    * rate]@,
        decreases n - i + (if more { 1int } else { 0int }),
    {
        let ghost count = kept.len() as int;
        kept.push(copy_sample(&samples[i]));
        assert(kept.len() * rate == i + rate) by (nonlinear_arith)
            requires
                kept.len() == count + 1,
                i == count * rate,
        ;
        if n - i > rate {
            i += rate;
        } else {
            more = false;
            proof {
                lemma_ceil_div_is(n as nat, rate as nat, kept.len() as nat);
            }
        }
    }
    assert(rows(kept@) =~= decimated(rows(samples@), rate as nat));
    kept
}

/// Copies of the samples at the indices in `[min_index, max_index)`.
pub fn window_samples<T: Copy>(samples: &Vec<Vec<T>>, min_index: usize, max_index: usize) -> (kept:
    Vec<Vec<T>>)
    ensures
        rows(kept@) == windowed(rows(samples@), min_index as nat, max_index as nat),
{
    let n: usize = samples.len();
    let from: usize = if min_index <= n { min_index } else { n };
    let upto: usize = if max_index <= n { max_index } else { n };
    let mut kept: Vec<Vec<T>> = Vec::new();
    let mut i: usize = from;
    while i < upto
        invariant
            n == samples.len(),
            upto <= n,
            from <= i,
            from <= upto ==> i <= upto,
            from > upto ==> kept.len() == 0,
            from <= upto ==> kept.len() == i - from,
            forall|j: int| 0 <= j < kept.len() ==> kept[j]@ == samples[from + j]@,
        decreases upto - i,
    {
        kept.push(copy_sample(&samples[i]));
        i += 1;
    }
    assert(rows(kept@) =~= windowed(rows(samples@), min_index as nat, max_index as nat));
    kept
}

/// Copies of the first `n` samples, as a queue to take them from in order.
pub fn queue_samples<T: Copy>(samples: &Vec<Vec<T>>, n: usize) -> (queue: VecDeque<Vec<T>>)
    requires
        n <= samples.len(),
    ensures
        rows(queue@) == rows(samples@).take(n as int),
{
    let mut queue: VecDeque<Vec<T>> = VecDeque::new();
    let mut i: usize = 0;
    while i < n
        invariant
            i <= n <= samples.len(),
            queue@.len() == i,
            forall|j: int| 0 <= j < i ==> queue@[j]@ == samples[j]@,
        decreases n - i,
    {
        queue.push_back(copy_sample(&samples[i]));
        i += 1;
    }
    assert(rows(queue@) =~= rows(samples@).take(n as int));
    queue
}

/// The first index of `time` whose timestamp is at least `t`, if any is.
pub fn position_at_least(time: &Vec<i64>, t: i64) -> (found: Option<usize>)
    ensures
        match found {
            Some(i) => {
                &&& i < time@.len()
                &&& time@[i as int] >= t
                &&& forall|j: int| 0 <= j < i ==> time@[j] < t
                &&& first_index(time@, at_least(t)) == Some(i as int)
            },
            None => {
                &&& forall|j: int| 0 <= j < time@.len() ==> time@[j] < t
                &&& first_index(time@, at_least(t)) is None
            },
        },
{
    let mut i: usize = 0;
    while i < time.len()
        invariant
            i <= time.len(),
            forall|j: int| 0 <= j < i ==> !at_least(t)(#[trigger] time@[j]),
        decreases time.len() - i,
    {
        if time[i] >= t {
            proof {
                lemma_first_index_is(time@, at_least(t), i as int);
            }
            return Some(i);
        }
        i += 1;
    }
    proof {
        lemma_first_index(time@, at_least(t));
    }
    None
}

} // verus!
