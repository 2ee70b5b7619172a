//! The wind loading source: the selected channels, stepped together.

use crate::error::WindLoadsError;
use crate::series::{first_index, lemma_first_index, lemma_first_index_is, rows};
use crate::tag::{Tag, Tagged};
use std::collections::VecDeque;
use vstd::prelude::*;

verus! {

/// The samples that each selected channel has yet to hand out, by tag.
pub open spec fn streams<T>(loads: Seq<Tagged<VecDeque<Vec<T>>>>) -> Seq<Tagged<Seq<Seq<T>>>> {
    Seq::new(loads.len(), |i: int| Tagged { tag: loads[i].tag, data: rows(loads[i].data@) })
}

/// The samples of one step, by tag, each the sequence of its components.
pub open spec fn tagged_samples<T>(out: Seq<Tagged<Vec<T>>>) -> Seq<Tagged<Seq<T>>> {
    Seq::new(out.len(), |i: int| Tagged { tag: out[i].tag, data: out[i].data@ })
}

/// The test "has no sample left" on a selected channel.
pub open spec fn exhausted<T>() -> spec_fn(Tagged<Seq<Seq<T>>>) -> bool {
    |s: Tagged<Seq<Seq<T>>>| s.data.len() == 0
}

/// What a step hands out: the next sample of every channel in order, and
/// nothing at all when any channel has none left.
pub open spec fn current<T>(s: Seq<Tagged<Seq<Seq<T>>>>) -> Option<Seq<Tagged<Seq<T>>>> {
    if first_index(s, exhausted()) is None {
        Some(Seq::new(s.len(), |i: int| Tagged { tag: s[i].tag, data: s[i].data[0] }))
    } else {
        None
    }
}

/// What a step leaves: every channel before the first one that has no sample
/// left has dropped its next sample; that one and those after it are as they
/// were.
pub open spec fn advanced<T>(s: Seq<Tagged<Seq<Seq<T>>>>) -> Seq<Tagged<Seq<Seq<T>>>> {
    let stop = match first_index(s, exhausted()) {
        Some(k) => k,
        None => s.len() as int,
    };
    Seq::new(
        s.len(),
        |i: int|
            if i < stop {
                Tagged { tag: s[i].tag, data: s[i].data.drop_first() }
            } else {
                s[i]
            },
    )
}

/// A step that met a channel without a sample at index `stop`, after it had
/// taken one from each channel before, hands out nothing and leaves what
/// `advanced` says.
proof fn lemma_stopped<T>(
    start: Seq<Tagged<VecDeque<Vec<T>>>>,
    end: Seq<Tagged<VecDeque<Vec<T>>>>,
    stop: int,
)
    requires
        0 <= stop < start.len(),
        end.len() == start.len(),
        start[stop].data@.len() == 0,
        forall|j: int| 0 <= j < stop ==> (#[trigger] start[j]).data@.len() > 0,
        forall|j: int|
            0 <= j < stop ==> (#[trigger] end[j]).tag == start[j].tag && end[j].data@
                == start[j].data@.drop_first(),
        forall|j: int|
            stop <= j < start.len() ==> (#[trigger] end[j]).tag == start[j].tag && end[j].data@
                == start[j].data@,
    ensures
        current(streams(start)) is None,
        streams(end) == advanced(streams(start)),
{
    let before = streams(start);
    assert forall|j: int| 0 <= j < stop implies !exhausted()(#[trigger] before[j]) by {
        assert(start[j].data@.len() > 0);
    }
    lemma_first_index_is(before, exhausted(), stop);
    assert forall|j: int| 0 <= j < start.len() implies streams(end)[j] == advanced(before)[j] by {
        if j < stop {
            assert(end[j].tag == start[j].tag);
            assert(rows(end[j].data@) =~= rows(start[j].data@).drop_first());
        } else {
            assert(end[j].tag == start[j].tag);
        }
    }
    assert(streams(end) =~= advanced(before));
}

/// A step that took a sample from every channel hands them out in order and
/// leaves what `advanced` says.
proof fn lemma_stepped<T>(
    start: Seq<Tagged<VecDeque<Vec<T>>>>,
    end: Seq<Tagged<VecDeque<Vec<T>>>>,
    samples: Seq<Tagged<Vec<T>>>,
)
    requires
        end.len() == start.len(),
        samples.len() == start.len(),
        forall|j: int| 0 <= j < start.len() ==> (#[trigger] start[j]).data@.len() > 0,
        forall|j: int|
            0 <= j < start.len() ==> (#[trigger] end[j]).tag == start[j].tag && end[j].data@
                == start[j].data@.drop_first(),
        forall|j: int|
            0 <= j < start.len() ==> (#[trigger] samples[j]).tag == start[j].tag
                && samples[j].data == start[j].data@[0],
    ensures
        current(streams(start)) == Some(tagged_samples(samples)),
        streams(end) == advanced(streams(start)),
{
    let before = streams(start);
    lemma_first_index(before, exhausted());
    if first_index(before, exhausted()) is Some {
        let k = first_index(before, exhausted()).unwrap();
        assert(start[k].data@.len() > 0);
    }
    assert forall|j: int| 0 <= j < start.len() implies streams(end)[j] == advanced(before)[j] by {
        assert(end[j].tag == start[j].tag);
        assert(rows(end[j].data@) =~= rows(start[j].data@).drop_first());
    }
    assert(streams(end) =~= advanced(before));
    assert forall|j: int| 0 <= j < start.len() implies tagged_samples(samples)[j]
        == current(before).unwrap()[j] by {
        assert(samples[j].tag == start[j].tag);
    }
    assert(tagged_samples(samples) =~= current(before).unwrap());
}

/// Wind loading sources
///
/// This structure contains the time series of wind forces and moments.
/// [`outputs`](WindLoading::outputs) steps through all of them at once.
pub struct WindLoading<T> {
    /// The selected channels in output order, each with the samples it has
    /// yet to hand out.
    pub loads: Vec<Tagged<VecDeque<Vec<T>>>>,
    /// The number of steps agreed on when the source was built.
    pub n_sample: usize,
}

impl<T> View for WindLoading<T> {
    type V = Seq<Tagged<Seq<Seq<T>>>>;

    open spec fn view(&self) -> Seq<Tagged<Seq<Seq<T>>>> {
        streams(self.loads@)
    }
}

impl<T> Default for WindLoading<T> {
    /// A source without channels and without steps.
    fn default() -> (source: Self)
        ensures
            source@.len() == 0,
            source.n_sample == 0,
    {
        WindLoading { loads: Vec::new(), n_sample: 0 }
    }
}

impl<T> WindLoading<T> {
    /// The tags of the outputs, in output order.
    pub fn outputs_tags(&self) -> (tags: Vec<Tag>)
        ensures
            tags@.len() == self@.len(),
            forall|i: int| 0 <= i < tags@.len() ==> tags@[i] == self@[i].tag,
    {
        let mut tags: Vec<Tag> = Vec::new();
        let mut i: usize = 0;
        while i < self.loads.len()
            invariant
                i <= self.loads.len(),
                tags@.len() == i,
                forall|j: int| 0 <= j < i ==> tags@[j] == self.loads@[j].tag,
            decreases self.loads.len() - i,
        {
            tags.push(self.loads[i].tag);
            i += 1;
        }
        tags
    }

    /// Refuses the inputs: the source takes none.  Nothing changes.
    pub fn inputs(&mut self, data: Option<Vec<Tagged<()>>>) -> (refused: Result<
        (),
        WindLoadsError,
    >)
        ensures
            *final(self) == *old(self),
            refused == Err::<(), WindLoadsError>(WindLoadsError::Inputs),
    {
        Err(WindLoadsError::Inputs)
    }

    /// Steps every channel by one sample and hands the samples out in order.
    ///
    /// When a channel has no sample left, the step hands out nothing, for any
    /// channel: the channels before that one have still dropped a sample,
    /// that one and those after it are untouched.
    pub fn outputs(&mut self) -> (out: Option<Vec<Tagged<Vec<T>>>>)
        ensures
            final(self).n_sample == old(self).n_sample,
            final(self)@ == advanced(old(self)@),
            match out {
                Some(samples) => current(old(self)@) == Some(tagged_samples(samples@)),
                None => current(old(self)@) is None,
            },
    {
        let ghost start = self.loads@;
        let ghost before = self@;
        let mut samples: Vec<Tagged<Vec<T>>> = Vec::new();
        let mut i: usize = 0;
        while i < self.loads.len()
            invariant
                start == old(self).loads@,
                before == streams(start),
                self.n_sample == old(self).n_sample,
                self.loads@.len() == start.len(),
                i <= self.loads.len(),
                samples@.len() == i,
                forall|j: int| 0 <= j < i ==> (#[trigger] start[j]).data@.len() > 0,
                forall|j: int|
                    0 <= j < i ==> (#[trigger] self.loads@[j]).tag == start[j].tag
                        && self.loads@[j].data@ == start[j].data@.drop_first(),
                forall|j: int| i <= j < start.len() ==> (#[trigger] self.loads@[j]) == start[j],
                forall|j: int|
                    0 <= j < i ==> (#[trigger] samples@[j]).tag == start[j].tag && samples@[j].data
                        == start[j].data@[0],
            decreases self.loads.len() - i,
        {
            let ghost entry = self.loads@;
            let tag = self.loads[i].tag;
            let next = self.loads[i].data.pop_front();
            assert(forall|j: int| 0 <= j < entry.len() && j != i ==> self.loads@[j] == entry[j]);
            assert(self.loads@[i as int].tag == entry[i as int].tag);
            match next {
                Some(sample) => {
                    assert(self.loads@[i as int].data@ =~= start[i as int].data@.drop_first());
                    samples.push(Tagged { tag, data: sample });
                },
                None => {
                    proof {
                        assert(self.loads@[i as int].data@ == start[i as int].data@);
                        lemma_stopped(start, self.loads@, i as int);
                    }
                    return None;
                },
            }
            i += 1;
        }
        proof {
            lemma_stepped(start, self.loads@, samples@);
        }
        Some(samples)
    }
}

} // verus!
