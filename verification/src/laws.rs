//! What holds of the corpus, its transforms and the source across calls.

use crate::error::WindLoadsError;
use crate::series::{
    at_least, ceil_div, decimated, first_index, is_first, lemma_decimated, lemma_first_index,
    lemma_first_index_is, non_decreasing, window_end, window_start, windowed,
};
use crate::tag::{Tag, Tagged};
use crate::source::{advanced, current, exhausted, WindLoading};
use crate::builder::{
    agreed, decimated_channels, first_len, fits, missing, named, populated, selected, uniform,
    windowed_channels,
};
use vstd::prelude::*;

verus! {

/// The channels of a source after `k` steps.
pub open spec fn after<T>(s: Seq<Tagged<Seq<Seq<T>>>>, k: nat) -> Seq<Tagged<Seq<Seq<T>>>>
    decreases k,
{
    if k == 0 {
        s
    } else {
        advanced(after(s, (k - 1) as nat))
    }
}

/// The shortest channel of the source has `m` samples left.
pub open spec fn shortest<T>(s: Seq<Tagged<Seq<Seq<T>>>>, m: nat) -> bool {
    &&& forall|i: int| 0 <= i < s.len() ==> m <= (#[trigger] s[i]).data.len()
    &&& exists|i: int| 0 <= i < s.len() && (#[trigger] s[i]).data.len() == m
}

/// Every channel of the source has as many samples left as the source has
/// steps, and there is a channel.
pub open spec fn synchronized<T>(source: WindLoading<T>) -> bool {
    &&& source@.len() > 0
    &&& forall|i: int| 0 <= i < source@.len() ==> (#[trigger] source@[i]).data.len() == source.n_sample
}

/// While no channel has run out, `k` steps have taken the first `k` samples
/// from every channel.
pub proof fn lemma_after<T>(s: Seq<Tagged<Seq<Seq<T>>>>, k: nat)
    requires
        forall|i: int| 0 <= i < s.len() ==> k <= (#[trigger] s[i]).data.len(),
    ensures
        after(s, k).len() == s.len(),
        forall|i: int|
            0 <= i < s.len() ==> (#[trigger] after(s, k)[i]) == (Tagged {
                tag: s[i].tag,
                data: s[i].data.skip(k as int),
            }),
    decreases k,
{
    if k == 0 {
        assert forall|i: int| 0 <= i < s.len() implies (#[trigger] after(s, k)[i]) == (Tagged {
            tag: s[i].tag,
            data: s[i].data.skip(k as int),
        }) by {
            assert(s[i].data.skip(0) =~= s[i].data);
        }
    } else {
        let j = (k - 1) as nat;
        let t = after(s, j);
        assert forall|i: int| 0 <= i < s.len() implies j <= (#[trigger] s[i]).data.len() by {}
        lemma_after(s, j);
        lemma_first_index(t, exhausted());
        if first_index(t, exhausted()) is Some {
            let f = first_index(t, exhausted())->0;
            assert(t[f].data.len() == s[f].data.len() - j);
        }
        assert forall|i: int| 0 <= i < s.len() implies (#[trigger] after(s, k)[i]) == (Tagged {
            tag: s[i].tag,
            data: s[i].data.skip(k as int),
        }) by {
            assert(t[i].data == s[i].data.skip(j as int));
            assert(s[i].data.skip(j as int).drop_first() =~= s[i].data.skip(k as int));
        }
    }
}

/// A source in which a channel has run out hands out nothing, and a channel
/// has run out after the step as well.
pub proof fn lemma_stays_exhausted<T>(s: Seq<Tagged<Seq<Seq<T>>>>)
    requires
        exists|i: int| 0 <= i < s.len() && (#[trigger] s[i]).data.len() == 0,
    ensures
        current(s) is None,
        advanced(s).len() == s.len(),
        exists|i: int| 0 <= i < s.len() && (#[trigger] advanced(s)[i]).data.len() == 0,
{
    let i = choose|i: int| 0 <= i < s.len() && (#[trigger] s[i]).data.len() == 0;
    assert(exhausted()(s[i]));
    lemma_first_index(s, exhausted());
    let f = first_index(s, exhausted())->0;
    assert(advanced(s)[f] == s[f]);
    assert(advanced(s)[f].data.len() == 0);
}

/// With `m` samples in the shortest channel, each of the first `m` steps
/// hands out one sample for every channel, under its tag and in order, and
/// every step after them hands out nothing, whatever the other channels
/// still hold.  `k` counts the steps taken before the one spoken of.
pub proof fn lemma_no_data_at_first_exhausted<T>(s: Seq<Tagged<Seq<Seq<T>>>>, m: nat, k: nat)
    requires
        shortest(s, m),
    ensures
        k < m ==> {
            &&& current(after(s, k)) is Some
            &&& current(after(s, k))->0.len() == s.len()
            &&& forall|i: int|
                0 <= i < s.len() ==> (#[trigger] current(after(s, k))->0[i]) == (Tagged {
                    tag: s[i].tag,
                    data: s[i].data[k as int],
                })
        },
        k >= m ==> current(after(s, k)) is None,
    decreases k,
{
    if k < m {
        assert forall|i: int| 0 <= i < s.len() implies k <= (#[trigger] s[i]).data.len() by {}
        lemma_after(s, k);
        let t = after(s, k);
        lemma_first_index(t, exhausted());
        if first_index(t, exhausted()) is Some {
            let f = first_index(t, exhausted())->0;
            assert(t[f].data.len() == s[f].data.len() - k);
            assert(s[f].data.len() >= m);
        }
    } else {
        lemma_exhausted_from(s, m, k);
        lemma_stays_exhausted(after(s, k));
    }
}

/// With `m` samples in the shortest channel, a channel has run out after `m`
/// steps and after any number of further ones.
proof fn lemma_exhausted_from<T>(s: Seq<Tagged<Seq<Seq<T>>>>, m: nat, k: nat)
    requires
        shortest(s, m),
        k >= m,
    ensures
        after(s, k).len() == s.len(),
        exists|i: int| 0 <= i < s.len() && (#[trigger] after(s, k)[i]).data.len() == 0,
    decreases k,
{
    if k == m {
        lemma_after(s, m);
        let i = choose|i: int| 0 <= i < s.len() && (#[trigger] s[i]).data.len() == m;
        assert(after(s, m)[i].data.len() == 0);
    } else {
        let t = after(s, (k - 1) as nat);
        lemma_exhausted_from(s, m, (k - 1) as nat);
        lemma_stays_exhausted(t);
        assert(after(s, k) == advanced(t));
        let i = choose|i: int| 0 <= i < t.len() && (#[trigger] advanced(t)[i]).data.len() == 0;
        assert(after(s, k)[i].data.len() == 0);
    }
}

/// A source whose channels all hold as many samples as it has steps hands
/// out, on each of that many steps, one sample for every selected tag, and
/// nothing on the step after them.  `k` counts the steps taken before.
pub proof fn lemma_agreed_steps<T>(source: WindLoading<T>, k: nat)
    requires
        synchronized(source),
    ensures
        k < source.n_sample ==> current(after(source@, k)) is Some && current(
            after(source@, k),
        )->0.len() == source@.len(),
        current(after(source@, source.n_sample as nat)) is None,
{
    let s = source@;
    let n = source.n_sample as nat;
    assert(s[0].data.len() == n);
    lemma_no_data_at_first_exhausted(s, n, k);
    lemma_no_data_at_first_exhausted(s, n, n);
}

/// Selecting a channel that the corpus does not hold fails with `Empty`,
/// whatever sample count is set.
pub proof fn lemma_missing_channel<T>(
    ch: Seq<Option<Tagged<Seq<Seq<T>>>>>,
    count: Option<usize>,
    key: Tag,
)
    requires
        missing(ch, key),
    ensures
        selected(ch, count, key) == Err::<Seq<Seq<T>>, WindLoadsError>(WindLoadsError::Empty),
{
    lemma_first_index(ch, named(key));
}

/// With a sample count that every populated channel can meet, selecting a
/// channel that the corpus holds gives exactly the first `n` of its samples.
pub proof fn lemma_count_truncates<T>(ch: Seq<Option<Tagged<Seq<Seq<T>>>>>, n: usize, key: Tag)
    requires
        fits(ch, n as nat),
        !missing(ch, key),
    ensures
        selected(ch, Some(n), key) is Ok,
        selected(ch, Some(n), key)->Ok_0.len() == n,
        exists|i: int|
            is_first(ch, named(key), i) && selected(ch, Some(n), key)->Ok_0 == ch[i]->0.data.take(
                n as int,
            ),
{
    lemma_first_index(ch, named(key));
    let i = first_index(ch, named(key))->0;
    assert(ch[i] is Some);
}

/// In a corpus whose populated channels all have `len` samples, every
/// selection has as many samples as the source is then built with.
pub proof fn lemma_selected_len<T>(
    ch: Seq<Option<Tagged<Seq<Seq<T>>>>>,
    len: nat,
    count: Option<usize>,
    key: Tag,
)
    requires
        uniform(ch, len),
        selected(ch, count, key) is Ok,
    ensures
        agreed(ch, count) == Some(selected(ch, count, key)->Ok_0.len()),
        count is None ==> agreed(ch, count) == Some(len),
{
    lemma_first_index(ch, named(key));
    let i = first_index(ch, named(key))->0;
    assert(populated()(ch[i]));
    lemma_first_index(ch, populated());
    let p = first_index(ch, populated())->0;
    assert(ch[p] is Some);
    assert(ch[i] is Some);
}

/// In a corpus whose populated channels all have `len` samples, the length of
/// the first populated channel is that of the shortest.
pub proof fn lemma_first_len_is_least<T>(ch: Seq<Option<Tagged<Seq<Seq<T>>>>>, len: nat)
    requires
        uniform(ch, len),
        first_len(ch) is Some,
    ensures
        first_len(ch) == Some(len),
        fits(ch, len),
{
    lemma_first_index(ch, populated());
    let p = first_index(ch, populated())->0;
    assert(ch[p] is Some);
}

/// Windowing and decimation keep the populated channels of a corpus equally
/// long.
pub proof fn lemma_transforms_keep_uniform<T>(
    ch: Seq<Option<Tagged<Seq<Seq<T>>>>>,
    len: nat,
    lo: nat,
    hi: nat,
    rate: nat,
)
    requires
        uniform(ch, len),
        rate > 0,
    ensures
        uniform(windowed_channels(ch, lo, hi), windowed(Seq::new(len, |i: int| i), lo, hi).len()),
        uniform(decimated_channels(ch, rate), ceil_div(len, rate)),
{
    assert forall|i: int|
        0 <= i < ch.len() && (#[trigger] decimated_channels(ch, rate)[i]) is Some implies decimated_channels(
        ch,
        rate,
    )[i]->0.data.len() == ceil_div(len, rate) by {
        assert(ch[i] is Some);
    }
    assert forall|i: int|
        0 <= i < ch.len() && (#[trigger] windowed_channels(ch, lo, hi)[i]) is Some implies windowed_channels(
        ch,
        lo,
        hi,
    )[i]->0.data.len() == windowed(Seq::new(len, |i: int| i), lo, hi).len() by {
        assert(ch[i] is Some);
    }
}

/// A window from the first timestamp to beyond the last keeps every sample
/// of a channel that is no longer than the time axis, and decimation by 1
/// after it changes nothing.
pub proof fn lemma_full_window<A>(time: Seq<i64>, t_min: i64, t_max: i64, s: Seq<A>)
    requires
        time.len() > 0,
        non_decreasing(time),
        t_min <= time[0],
        time.last() < t_max,
        s.len() <= time.len(),
    ensures
        window_start(time, t_min) == 0,
        window_end(time, t_max) == time.len(),
        windowed(s, window_start(time, t_min), window_end(time, t_max)) == s,
        decimated(windowed(s, window_start(time, t_min), window_end(time, t_max)), 1) == s,
{
    assert(at_least(t_min)(time[0]));
    lemma_first_index_is(time, at_least(t_min), 0);
    lemma_first_index(time, at_least(t_max));
    if first_index(time, at_least(t_max)) is Some {
        let i = first_index(time, at_least(t_max))->0;
        assert(time[i] <= time[time.len() - 1]);
    }
    assert(windowed(s, 0, time.len()) =~= s);
    lemma_decimated(s, 1);
}

/// A window from the first timestamp to beyond the last, and decimation by 1
/// after it, give back the corpus whose channels are as long as its time
/// axis.
pub proof fn lemma_round_trip<T>(
    ch: Seq<Option<Tagged<Seq<Seq<T>>>>>,
    time: Seq<i64>,
    t_min: i64,
    t_max: i64,
)
    requires
        time.len() > 0,
        non_decreasing(time),
        t_min <= time[0],
        time.last() < t_max,
        uniform(ch, time.len()),
    ensures
        decimated_channels(
            windowed_channels(ch, window_start(time, t_min), window_end(time, t_max)),
            1,
        ) == ch,
{
    let lo = window_start(time, t_min);
    let hi = window_end(time, t_max);
    let out = decimated_channels(windowed_channels(ch, lo, hi), 1);
    assert forall|i: int| 0 <= i < ch.len() implies out[i] == ch[i] by {
        if ch[i] is Some {
            lemma_full_window(time, t_min, t_max, ch[i]->0.data);
        }
    }
    assert(out =~= ch);
}

} // verus!
