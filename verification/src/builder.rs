//! The wind loads builder: the corpus of one scenario, its transforms, and
//! the selection of channels for a source.

use crate::error::WindLoadsError;
use crate::loads::Loads;
use crate::series::{
    ceil_div, decimated, first_index, lemma_decimated, lemma_first_index, lemma_first_index_is,
    lemma_windowed_len, position_at_least, rows, window_end, window_len, window_start, windowed,
};
use crate::tag::{MatchWindLoads, Tag, Tagged};
use crate::source::{streams, WindLoading};
use std::collections::VecDeque;
use vstd::prelude::*;

verus! {

/// The channels of a corpus: for each slot that is populated, the tag and the
/// samples of its channel.
pub open spec fn channels<T>(loads: Seq<Option<Loads<T>>>) -> Seq<Option<Tagged<Seq<Seq<T>>>>> {
    Seq::new(
        loads.len(),
        |i: int|
            match loads[i] {
                Some(c) => Some(Tagged { tag: c.tag(), data: c@ }),
                None => None,
            },
    )
}

/// The test "is populated" on a slot of the corpus.
pub open spec fn populated<T>() -> spec_fn(Option<Tagged<Seq<Seq<T>>>>) -> bool {
    |c: Option<Tagged<Seq<Seq<T>>>>| c is Some
}

/// The test "holds the channel that `key` names" on a slot of the corpus.
pub open spec fn named<T>(key: Tag) -> spec_fn(Option<Tagged<Seq<Seq<T>>>>) -> bool {
    |c: Option<Tagged<Seq<Seq<T>>>>| c is Some && c->0.tag == key
}

/// No populated slot of the corpus holds the channel that `key` names.
pub open spec fn missing<T>(ch: Seq<Option<Tagged<Seq<Seq<T>>>>>, key: Tag) -> bool {
    forall|i: int| 0 <= i < ch.len() ==> !named(key)(#[trigger] ch[i])
}

/// Every populated channel has at least `n` samples.
pub open spec fn fits<T>(ch: Seq<Option<Tagged<Seq<Seq<T>>>>>, n: nat) -> bool {
    forall|i: int| 0 <= i < ch.len() && (#[trigger] ch[i]) is Some ==> n <= ch[i]->0.data.len()
}

/// Every populated channel has exactly `n` samples.
pub open spec fn uniform<T>(ch: Seq<Option<Tagged<Seq<Seq<T>>>>>, n: nat) -> bool {
    forall|i: int| 0 <= i < ch.len() && (#[trigger] ch[i]) is Some ==> ch[i]->0.data.len() == n
}

/// The length of the first populated channel, if any channel is populated.
pub open spec fn first_len<T>(ch: Seq<Option<Tagged<Seq<Seq<T>>>>>) -> Option<nat> {
    match first_index(ch, populated()) {
        Some(i) => Some(ch[i]->0.data.len()),
        None => None,
    }
}

/// The sample count that a source is built with: the override where one is
/// set, else the length of the first populated channel.
pub open spec fn agreed<T>(ch: Seq<Option<Tagged<Seq<Seq<T>>>>>, count: Option<usize>) -> Option<
    nat,
> {
    match count {
        Some(n) => Some(n as nat),
        None => first_len(ch),
    }
}

/// Every populated channel windowed to the indices in `[lo, hi)`.
pub open spec fn windowed_channels<T>(
    ch: Seq<Option<Tagged<Seq<Seq<T>>>>>,
    lo: nat,
    hi: nat,
) -> Seq<Option<Tagged<Seq<Seq<T>>>>> {
    Seq::new(
        ch.len(),
        |i: int|
            match ch[i] {
                Some(c) => Some(Tagged { tag: c.tag, data: windowed(c.data, lo, hi) }),
                None => None,
            },
    )
}

/// Every populated channel decimated by `rate`.
pub open spec fn decimated_channels<T>(ch: Seq<Option<Tagged<Seq<Seq<T>>>>>, rate: nat) -> Seq<
    Option<Tagged<Seq<Seq<T>>>>,
> {
    Seq::new(
        ch.len(),
        |i: int|
            match ch[i] {
                Some(c) => Some(Tagged { tag: c.tag, data: decimated(c.data, rate) }),
                None => None,
            },
    )
}

/// The samples that selecting by `key` takes from the corpus: those of the
/// first populated channel that `key` names, cut to the first `count` where a
/// count is set.  It fails with `Empty` where no such channel is found, and
/// with `InvalidSampleCount` where the channel is shorter than the count.
pub open spec fn selected<T>(
    ch: Seq<Option<Tagged<Seq<Seq<T>>>>>,
    count: Option<usize>,
    key: Tag,
) -> Result<Seq<Seq<T>>, WindLoadsError> {
    match first_index(ch, named(key)) {
        None => Err(WindLoadsError::Empty),
        Some(i) => {
            let samples = ch[i]->0.data;
            match count {
                None => Ok(samples),
                Some(n) => if n <= samples.len() {
                    Ok(samples.take(n as int))
                } else {
                    Err(WindLoadsError::InvalidSampleCount)
                },
            }
        },
    }
}

/// One more selection after those `so_far`: the samples found by `key` are
/// appended under `tag`.  A failure so far stays; a failure of this selection
/// replaces what was selected.
pub open spec fn and_select<T>(
    ch: Seq<Option<Tagged<Seq<Seq<T>>>>>,
    count: Option<usize>,
    so_far: Result<Seq<Tagged<Seq<Seq<T>>>>, WindLoadsError>,
    tag: Tag,
    key: Tag,
) -> Result<Seq<Tagged<Seq<Seq<T>>>>, WindLoadsError> {
    match so_far {
        Err(e) => Err(e),
        Ok(selection) => match selected(ch, count, key) {
            Ok(data) => Ok(selection.push(Tagged { tag, data })),
            Err(e) => Err(e),
        },
    }
}

/// Wind loads builder
///
/// This structure holds the forces and moments time series of one scenario
/// and is used to create the [`WindLoading`] structure
pub struct WindLoads<T> {
    /// forces and moments time series
    pub loads: Vec<Option<Loads<T>>>,
    /// time vector, in ticks
    pub time: Vec<i64>,
    /// number of samples to select from each channel, where one was set
    pub n_sample: Option<usize>,
    /// the channels selected so far, each with the samples it will hand out
    pub tagged_loads: Vec<Tagged<VecDeque<Vec<T>>>>,
}

impl<T> Default for WindLoads<T> {
    /// A corpus without channels, timestamps, sample count or selection.
    fn default() -> (w: Self)
        ensures
            w.loads@.len() == 0,
            w.time@.len() == 0,
            w.n_sample is None,
            w.selection().len() == 0,
    {
        WindLoads { loads: Vec::new(), time: Vec::new(), n_sample: None, tagged_loads: Vec::new() }
    }
}

impl<T> WindLoads<T> {
    /// The channels of the corpus.
    pub open spec fn channels(&self) -> Seq<Option<Tagged<Seq<Seq<T>>>>> {
        channels(self.loads@)
    }

    /// The channels selected so far, in the order of their selection.
    pub open spec fn selection(&self) -> Seq<Tagged<Seq<Seq<T>>>> {
        streams(self.tagged_loads@)
    }

    /// What is selected after one more selection from this corpus.
    pub open spec fn pick(
        &self,
        so_far: Result<Seq<Tagged<Seq<Seq<T>>>>, WindLoadsError>,
        tag: Tag,
        key: Tag,
    ) -> Result<Seq<Tagged<Seq<Seq<T>>>>, WindLoadsError> {
        and_select(self.channels(), self.n_sample, so_far, tag, key)
    }

    /// `next` is this builder with `outcome` for its selection, or the
    /// failure that `outcome` is.
    pub open spec fn leaves(
        &self,
        next: Result<Self, WindLoadsError>,
        outcome: Result<Seq<Tagged<Seq<Seq<T>>>>, WindLoadsError>,
    ) -> bool {
        match outcome {
            Ok(selection) => {
                &&& next is Ok
                &&& next->Ok_0.channels() == self.channels()
                &&& next->Ok_0.time@ == self.time@
                &&& next->Ok_0.n_sample == self.n_sample
                &&& next->Ok_0.selection() == selection
            },
            Err(e) => next is Err && next->Err_0 == e,
        }
    }

    /// `next` is this builder after the channel that `key` names was selected
    /// under `tag`; it is the failure `Empty` where the corpus has no such
    /// channel.
    pub open spec fn selects(&self, next: Result<Self, WindLoadsError>, tag: Tag, key: Tag) -> bool {
        &&& self.leaves(next, self.pick(Ok(self.selection()), tag, key))
        &&& missing(self.channels(), key) ==> next is Err && next->Err_0 == WindLoadsError::Empty
    }

    /// What `select_all` selects.
    pub open spec fn all(&self) -> Result<Seq<Tagged<Seq<Seq<T>>>>, WindLoadsError> {
        let s = Ok(self.selection());
        let s = self.pick(s, Tag::OSSTopEnd6F, Tag::OSSTopEnd6F);
        let s = self.pick(s, Tag::MCM2LclForce6F, Tag::MCM2LclForce6F);
        let s = self.pick(s, Tag::OSSTruss6F, Tag::OSSTruss6F);
        let s = self.pick(s, Tag::OSSM1Lcl6F, Tag::OSSM1Lcl6F);
        let s = self.pick(s, Tag::OSSCellLcl6F, Tag::OSSCellLcl6F);
        let s = self.pick(s, Tag::OSSGIR6F, Tag::OSSGIR6F);
        self.pick(s, Tag::OSSCRING6F, Tag::OSSCRING6F)
    }

    /// What `select_all_with_asm` selects.
    pub open spec fn all_with_asm(&self) -> Result<Seq<Tagged<Seq<Seq<T>>>>, WindLoadsError> {
        let s = Ok(self.selection());
        let s = self.pick(s, Tag::MCM2TE6F, Tag::OSSTopEnd6F);
        let s = self.pick(s, Tag::MCM2RB6F, Tag::MCM2LclForce6F);
        let s = self.pick(s, Tag::OSSTruss6F, Tag::OSSTruss6F);
        let s = self.pick(s, Tag::OSSM1Lcl6F, Tag::OSSM1Lcl6F);
        let s = self.pick(s, Tag::OSSCellLcl6F, Tag::OSSCellLcl6F);
        let s = self.pick(s, Tag::OSSGIR6F, Tag::OSSGIR6F);
        self.pick(s, Tag::OSSCRING6F, Tag::OSSCRING6F)
    }

    /// A corpus of the given channels over the given time axis, with no
    /// sample count set and nothing selected.
    pub fn new(loads: Vec<Option<Loads<T>>>, time: Vec<i64>) -> (w: Self)
        ensures
            w.loads == loads,
            w.time == time,
            w.n_sample is None,
            w.selection().len() == 0,
    {
        WindLoads { loads, time, n_sample: None, tagged_loads: Vec::new() }
    }

    /// Returns the number of samples in the time series
    fn len(&self) -> (n: Result<usize, WindLoadsError>)
        ensures
            match first_len(self.channels()) {
                Some(len) => n == Ok::<usize, WindLoadsError>(len as usize) && len <= usize::MAX,
                None => n == Err::<usize, WindLoadsError>(WindLoadsError::Len),
            },
    {
        let mut i: usize = 0;
        while i < self.loads.len()
            invariant
                i <= self.loads.len(),
                forall|j: int| 0 <= j < i ==> !populated()(#[trigger] self.channels()[j]),
            decreases self.loads.len() - i,
        {
            match &self.loads[i] {
                Some(x) => {
                    proof {
                        lemma_first_index_is(self.channels(), populated(), i as int);
                    }
                    return Ok(x.len());
                },
                None => {},
            }
            i += 1;
        }
        proof {
            lemma_first_index(self.channels(), populated());
        }
        Err(WindLoadsError::Len)
    }

    /// Builds a wind loading source object
    ///
    /// Its sample count is the one that was set, else the length of the first
    /// populated channel; without either there is no source.
    pub fn build(self) -> (built: Result<WindLoading<T>, WindLoadsError>)
        ensures
            match agreed(self.channels(), self.n_sample) {
                Some(n) => {
                    &&& built is Ok
                    &&& built->Ok_0.n_sample == n
                    &&& built->Ok_0@ == self.selection()
                },
                None => built is Err && built->Err_0 == WindLoadsError::Len,
            },
    {
        let n_sample = match self.n_sample {
            Some(n) => n,
            None => match self.len() {
                Ok(n) => n,
                Err(e) => {
                    return Err(e);
                },
            },
        };
        Ok(WindLoading { n_sample, loads: self.tagged_loads })
    }
}

impl<T: Copy> WindLoads<T> {
    /// Keeps, of every populated channel, the samples from the first
    /// timestamp at or after `t_min` up to, and without, the first timestamp
    /// at or after `t_max`.
    ///
    /// Both bounds are looked up on the time axis of the corpus, which stays
    /// as it is: the window starts at index 0 where no timestamp reaches
    /// `t_min`, and runs to the end of the axis where none reaches `t_max`.
    pub fn range(self, t_min: i64, t_max: i64) -> (w: Self)
        ensures
            w.time@ == self.time@,
            w.n_sample == self.n_sample,
            w.selection() == self.selection(),
            w.channels() == windowed_channels(
                self.channels(),
                window_start(self.time@, t_min),
                window_end(self.time@, t_max),
            ),
            forall|i: int|
                0 <= i < self.channels().len() && (#[trigger] self.channels()[i]) is Some
                    && self.channels()[i]->0.data.len() == self.time@.len()
                    ==> w.channels()[i]->0.data.len() == window_len(self.time@, t_min, t_max),
    {
        let mut this = self;
        let min_index: usize = match position_at_least(&this.time, t_min) {
            Some(i) => i,
            None => 0,
        };
        let max_index: usize = match position_at_least(&this.time, t_max) {
            Some(i) => i,
            None => this.time.len(),
        };
        let ghost lo = window_start(self.time@, t_min);
        let ghost hi = window_end(self.time@, t_max);
        let mut i: usize = 0;
        while i < this.loads.len()
            invariant
                this.time == self.time,
                this.n_sample == self.n_sample,
                this.tagged_loads == self.tagged_loads,
                this.loads@.len() == self.loads@.len(),
                i <= this.loads.len(),
                lo == min_index,
                hi == max_index,
                forall|j: int|
                    0 <= j < i ==> match (#[trigger] this.loads@[j]) {
                        Some(c) => self.loads@[j] is Some && c.tag() == self.loads@[j]->0.tag()
                            && c@ == windowed(self.loads@[j]->0@, lo, hi),
                        None => self.loads@[j] is None,
                    },
                forall|j: int| i <= j < this.loads@.len() ==> this.loads@[j] == self.loads@[j],
            decreases this.loads.len() - i,
        {
            let ghost entry = this.loads@;
            match &mut this.loads[i] {
                Some(x) => {
                    x.range(min_index, max_index);
                },
                None => {},
            }
            assert(forall|j: int| 0 <= j < entry.len() && j != i ==> this.loads@[j] == entry[j]);
            i += 1;
        }
        proof {
            assert(this.channels() =~= windowed_channels(self.channels(), lo, hi));
            assert forall|i: int|
                0 <= i < self.channels().len() && (#[trigger] self.channels()[i]) is Some
                    && self.channels()[i]->0.data.len() == self.time@.len() implies this.channels()[i]->0.data.len()
                == window_len(self.time@, t_min, t_max) by {
                lemma_windowed_len(self.channels()[i]->0.data, self.time@, t_min, t_max);
            }
        }
        this
    }

    /// Keeps, of every populated channel, every `decimation_rate`-th sample,
    /// starting with the first.
    pub fn decimate(self, decimation_rate: usize) -> (w: Self)
        requires
            decimation_rate > 0,
        ensures
            w.time@ == self.time@,
            w.n_sample == self.n_sample,
            w.selection() == self.selection(),
            w.channels() == decimated_channels(self.channels(), decimation_rate as nat),
            forall|i: int|
                0 <= i < self.channels().len() && (#[trigger] self.channels()[i]) is Some
                    ==> w.channels()[i]->0.data.len() == ceil_div(
                    self.channels()[i]->0.data.len(),
                    decimation_rate as nat,
                ),
            decimation_rate == 1 ==> w.channels() == self.channels(),
    {
        let mut this = self;
        let mut i: usize = 0;
        while i < this.loads.len()
            invariant
                decimation_rate > 0,
                this.time == self.time,
                this.n_sample == self.n_sample,
                this.tagged_loads == self.tagged_loads,
                this.loads@.len() == self.loads@.len(),
                i <= this.loads.len(),
                forall|j: int|
                    0 <= j < i ==> match (#[trigger] this.loads@[j]) {
                        Some(c) => self.loads@[j] is Some && c.tag() == self.loads@[j]->0.tag()
                            && c@ == decimated(self.loads@[j]->0@, decimation_rate as nat),
                        None => self.loads@[j] is None,
                    },
                forall|j: int| i <= j < this.loads@.len() ==> this.loads@[j] == self.loads@[j],
            decreases this.loads.len() - i,
        {
            let ghost entry = this.loads@;
            match &mut this.loads[i] {
                Some(x) => {
                    x.decimate(decimation_rate);
                },
                None => {},
            }
            assert(forall|j: int| 0 <= j < entry.len() && j != i ==> this.loads@[j] == entry[j]);
            i += 1;
        }
        proof {
            assert(this.channels() =~= decimated_channels(
                self.channels(),
                decimation_rate as nat,
            ));
            assert forall|i: int|
                0 <= i < self.channels().len() && (#[trigger] self.channels()[i]) is Some implies {
                &&& this.channels()[i]->0.data.len() == ceil_div(
                    self.channels()[i]->0.data.len(),
                    decimation_rate as nat,
                )
                &&& decimation_rate == 1 ==> this.channels()[i] == self.channels()[i]
            } by {
                lemma_decimated(self.channels()[i]->0.data, decimation_rate as nat);
            }
            if decimation_rate == 1 {
                assert(this.channels() =~= self.channels());
            }
        }
        this
    }

    /// The samples that selecting by `io` takes from the corpus.
    fn tagged_load(&self, io: &Tag) -> (found: Result<VecDeque<Vec<T>>, WindLoadsError>)
        ensures
            match selected(self.channels(), self.n_sample, *io) {
                Ok(samples) => found is Ok && rows(found->Ok_0@) == samples,
                Err(e) => found is Err && found->Err_0 == e,
            },
            missing(self.channels(), *io) ==> found is Err && found->Err_0 == WindLoadsError::Empty,
    {
        let mut i: usize = 0;
        while i < self.loads.len()
            invariant
                i <= self.loads.len(),
                forall|j: int| 0 <= j < i ==> !named(*io)(#[trigger] self.channels()[j]),
            decreases self.loads.len() - i,
        {
            match &self.loads[i] {
                Some(x) => {
                    let found = match self.n_sample {
                        Some(n) => {
                            if n <= x.len() {
                                io.ndata(x, n)
                            } else if x.tag() == *io {
                                proof {
                                    assert(named(*io)(self.channels()[i as int]));
                                    lemma_first_index_is(self.channels(), named(*io), i as int);
                                }
                                return Err(WindLoadsError::InvalidSampleCount);
                            } else {
                                None
                            }
                        },
                        None => io.data(x),
                    };
                    match found {
                        Some(queue) => {
                            proof {
                                assert(named(*io)(self.channels()[i as int]));
                                lemma_first_index_is(self.channels(), named(*io), i as int);
                            }
                            return Ok(queue);
                        },
                        None => {},
                    }
                },
                None => {},
            }
            i += 1;
        }
        proof {
            lemma_first_index(self.channels(), named(*io));
        }
        Err(WindLoadsError::Empty)
    }

    /// Selects the channel that `key` names and appends it under `tag`.
    fn select(self, tag: Tag, key: &Tag) -> (next: Result<Self, WindLoadsError>)
        ensures
            self.selects(next, tag, *key),
    {
        let mut this = self;
        match this.tagged_load(key) {
            Ok(data) => {
                this.tagged_loads.push(Tagged { tag, data });
                assert(this.selection() =~= self.selection().push(
                    Tagged { tag, data: rows(data@) },
                ));
                Ok(this)
            },
            Err(e) => Err(e),
        }
    }

    /// Set the number of time sample
    ///
    /// The count is refused when it is zero and when a populated channel has
    /// fewer samples.
    pub fn n_sample(self, n_sample: usize) -> (next: Result<Self, WindLoadsError>)
        ensures
            match next {
                Ok(w) => {
                    &&& n_sample > 0
                    &&& fits(self.channels(), n_sample as nat)
                    &&& w.loads == self.loads
                    &&& w.time == self.time
                    &&& w.tagged_loads == self.tagged_loads
                    &&& w.n_sample == Some(n_sample)
                },
                Err(e) => {
                    &&& e == WindLoadsError::InvalidSampleCount
                    &&& n_sample == 0 || !fits(self.channels(), n_sample as nat)
                },
            },
    {
        if n_sample == 0 {
            return Err(WindLoadsError::InvalidSampleCount);
        }
        let mut i: usize = 0;
        while i < self.loads.len()
            invariant
                i <= self.loads.len(),
                forall|j: int|
                    0 <= j < i && (#[trigger] self.channels()[j]) is Some
                        ==> n_sample <= self.channels()[j]->0.data.len(),
            decreases self.loads.len() - i,
        {
            match &self.loads[i] {
                Some(x) => {
                    if n_sample > x.len() {
                        assert(self.channels()[i as int] is Some);
                        return Err(WindLoadsError::InvalidSampleCount);
                    }
                },
                None => {},
            }
            i += 1;
        }
        Ok(WindLoads { n_sample: Some(n_sample), ..self })
    }

    /// Selects loads on the truss
    pub fn truss(self) -> (next: Result<Self, WindLoadsError>)
        ensures
            self.selects(next, Tag::OSSTruss6F, Tag::OSSTruss6F),
    {
        self.select(Tag::OSSTruss6F, &Tag::OSSTruss6F)
    }

    /// Selects loads on the top-end
    pub fn topend(self) -> (next: Result<Self, WindLoadsError>)
        ensures
            self.selects(next, Tag::OSSTopEnd6F, Tag::OSSTopEnd6F),
    {
        self.select(Tag::OSSTopEnd6F, &Tag::OSSTopEnd6F)
    }

    /// Selects loads on the top-end for the adaptive secondary mirror
    pub fn m2_asm_topend(self) -> (next: Result<Self, WindLoadsError>)
        ensures
            self.selects(next, Tag::MCM2TE6F, Tag::OSSTopEnd6F),
    {
        self.select(Tag::MCM2TE6F, &Tag::OSSTopEnd6F)
    }

    /// Selects loads on the C-ring
    pub fn cring(self) -> (next: Result<Self, WindLoadsError>)
        ensures
            self.selects(next, Tag::OSSCRING6F, Tag::OSSCRING6F),
    {
        self.select(Tag::OSSCRING6F, &Tag::OSSCRING6F)
    }

    /// Selects loads on the GIR
    pub fn gir(self) -> (next: Result<Self, WindLoadsError>)
        ensures
            self.selects(next, Tag::OSSGIR6F, Tag::OSSGIR6F),
    {
        self.select(Tag::OSSGIR6F, &Tag::OSSGIR6F)
    }

    /// Selects loads on the M1 cells
    pub fn m1_cell(self) -> (next: Result<Self, WindLoadsError>)
        ensures
            self.selects(next, Tag::OSSCellLcl6F, Tag::OSSCellLcl6F),
    {
        self.select(Tag::OSSCellLcl6F, &Tag::OSSCellLcl6F)
    }

    /// Selects loads on the M1 segments
    pub fn m1_segments(self) -> (next: Result<Self, WindLoadsError>)
        ensures
            self.selects(next, Tag::OSSM1Lcl6F, Tag::OSSM1Lcl6F),
    {
        self.select(Tag::OSSM1Lcl6F, &Tag::OSSM1Lcl6F)
    }

    /// Selects loads on the M1 mirror covers
    pub fn m1_covers(self) -> (next: Result<Self, WindLoadsError>)
        ensures
            self.selects(next, Tag::OSSMirrorCovers6F, Tag::OSSMirrorCovers6F),
    {
        self.select(Tag::OSSMirrorCovers6F, &Tag::OSSMirrorCovers6F)
    }

    /// Selects loads on the M2 segments
    pub fn m2_segments(self) -> (next: Result<Self, WindLoadsError>)
        ensures
            self.selects(next, Tag::MCM2LclForce6F, Tag::MCM2LclForce6F),
    {
        self.select(Tag::MCM2LclForce6F, &Tag::MCM2LclForce6F)
    }

    /// Associates a FEM input with the loads on the M2 segments
    ///
    /// The channel is the one that `fem` names; it is handed out under the
    /// tag of the M2 segments.
    pub fn m2_segments_into(self, fem: Tag) -> (next: Result<Self, WindLoadsError>)
        ensures
            self.selects(next, Tag::MCM2LclForce6F, fem),
    {
        self.select(Tag::MCM2LclForce6F, &fem)
    }

    /// Selects loads on the M2 segments for the reference bodies of the
    /// adaptive secondary mirror
    pub fn m2_asm_reference_bodies(self) -> (next: Result<Self, WindLoadsError>)
        ensures
            self.selects(next, Tag::MCM2RB6F, Tag::MCM2LclForce6F),
    {
        self.select(Tag::MCM2RB6F, &Tag::MCM2LclForce6F)
    }

    /// Selects all loads
    ///
    /// In this order: top-end, M2 segments, truss, M1 segments, M1 cells,
    /// GIR, C-ring.  The first selection that fails ends it with that
    /// failure.
    pub fn select_all(self) -> (next: Result<Self, WindLoadsError>)
        ensures
            self.leaves(next, self.all()),
    {
        self.topend()?.m2_segments()?.truss()?.m1_segments()?.m1_cell()?.gir()?.cring()
    }

    /// Selects all loads in the ASM configuration
    ///
    /// In this order: top-end and M2 segments under the tags of the adaptive
    /// secondary mirror, then truss, M1 segments, M1 cells, GIR, C-ring.  The
    /// first selection that fails ends it with that failure.
    pub fn select_all_with_asm(self) -> (next: Result<Self, WindLoadsError>)
        ensures
            self.leaves(next, self.all_with_asm()),
    {
        self.m2_asm_topend()?.m2_asm_reference_bodies()?.truss()?.m1_segments()?.m1_cell()?.gir()?.cring()
    }
}

} // verus!
