//! One wind load channel: the time series of forces and moments on one part
//! of the telescope structure.

use crate::series::{
    ceil_div, decimate_samples, decimated, lemma_decimated, rows, window_samples, windowed,
};
use crate::tag::Tag;
use vstd::prelude::*;
use vstd::string::StringExecFns;

verus! {

/// Wind loads forces and moments
///
/// A time vector containing vectors of forces and moments
#[derive(Debug)]
pub enum Loads<T> {
    /// Top-end, `OSS_TopEnd_6F`.
    OSSTopEnd6F(Vec<Vec<T>>),
    /// Truss, `OSS_Truss_6F`.
    OSSTruss6F(Vec<Vec<T>>),
    /// GIR, `OSS_GIR_6F`.
    OSSGIR6F(Vec<Vec<T>>),
    /// C-ring, `OSS_CRING_6F`.
    OSSCRING6F(Vec<Vec<T>>),
    /// M1 cells, `OSS_Cell_lcl_6F`.
    OSSCellLcl6F(Vec<Vec<T>>),
    /// M1 segments, `OSS_M1_lcl_6F`.
    OSSM1Lcl6F(Vec<Vec<T>>),
    /// M2 segments, `MC_M2_lcl_force_6F`.
    MCM2LclForce6F(Vec<Vec<T>>),
    /// M1 mirror covers, `OSS_mirrorCovers_6F`.
    OSSMirrorCovers6F(Vec<Vec<T>>),
}

impl<T> Loads<T> {
    /// The samples as they are stored.
    pub open spec fn samples(&self) -> Seq<Vec<T>> {
        match self {
            Loads::OSSTopEnd6F(io) => io@,
            Loads::OSSTruss6F(io) => io@,
            Loads::OSSGIR6F(io) => io@,
            Loads::OSSCRING6F(io) => io@,
            Loads::OSSCellLcl6F(io) => io@,
            Loads::OSSM1Lcl6F(io) => io@,
            Loads::MCM2LclForce6F(io) => io@,
            Loads::OSSMirrorCovers6F(io) => io@,
        }
    }

    /// The tag that names this channel.
    pub open spec fn spec_tag(&self) -> Tag {
        match self {
            Loads::OSSTopEnd6F(_) => Tag::OSSTopEnd6F,
            Loads::OSSTruss6F(_) => Tag::OSSTruss6F,
            Loads::OSSGIR6F(_) => Tag::OSSGIR6F,
            Loads::OSSCRING6F(_) => Tag::OSSCRING6F,
            Loads::OSSCellLcl6F(_) => Tag::OSSCellLcl6F,
            Loads::OSSM1Lcl6F(_) => Tag::OSSM1Lcl6F,
            Loads::MCM2LclForce6F(_) => Tag::MCM2LclForce6F,
            Loads::OSSMirrorCovers6F(_) => Tag::OSSMirrorCovers6F,
        }
    }

    /// All samples of the channel have `width` components.
    pub open spec fn has_width(&self, width: nat) -> bool {
        forall|i: int| 0 <= i < self@.len() ==> (#[trigger] self@[i]).len() == width
    }

    /// The tag that names this channel.
    #[verifier::when_used_as_spec(spec_tag)]
    pub fn tag(&self) -> (tag: Tag)
        ensures
            tag == self.spec_tag(),
    {
        match self {
            Loads::OSSTopEnd6F(_) => Tag::OSSTopEnd6F,
            Loads::OSSTruss6F(_) => Tag::OSSTruss6F,
            Loads::OSSGIR6F(_) => Tag::OSSGIR6F,
            Loads::OSSCRING6F(_) => Tag::OSSCRING6F,
            Loads::OSSCellLcl6F(_) => Tag::OSSCellLcl6F,
            Loads::OSSM1Lcl6F(_) => Tag::OSSM1Lcl6F,
            Loads::MCM2LclForce6F(_) => Tag::MCM2LclForce6F,
            Loads::OSSMirrorCovers6F(_) => Tag::OSSMirrorCovers6F,
        }
    }

    /// Returns the number of samples in the time series
    pub fn len(&self) -> (n: usize)
        ensures
            n == self@.len(),
    {
        match self {
            Loads::OSSTopEnd6F(io) => io.len(),
            Loads::OSSTruss6F(io) => io.len(),
            Loads::OSSGIR6F(io) => io.len(),
            Loads::OSSCRING6F(io) => io.len(),
            Loads::OSSCellLcl6F(io) => io.len(),
            Loads::OSSM1Lcl6F(io) => io.len(),
            Loads::MCM2LclForce6F(io) => io.len(),
            Loads::OSSMirrorCovers6F(io) => io.len(),
        }
    }

    /// Return the loads
    pub fn io(self) -> (samples: Vec<Vec<T>>)
        ensures
            samples@ == self.samples(),
            rows(samples@) == self@,
    {
        match self {
            Loads::OSSTopEnd6F(io) => io,
            Loads::OSSTruss6F(io) => io,
            Loads::OSSGIR6F(io) => io,
            Loads::OSSCRING6F(io) => io,
            Loads::OSSCellLcl6F(io) => io,
            Loads::OSSM1Lcl6F(io) => io,
            Loads::MCM2LclForce6F(io) => io,
            Loads::OSSMirrorCovers6F(io) => io,
        }
    }
}

impl<T> View for Loads<T> {
    type V = Seq<Seq<T>>;

    /// The samples in order, each the sequence of its components.
    open spec fn view(&self) -> Seq<Seq<T>> {
        rows(self.samples())
    }
}

impl<T: Copy> Clone for Loads<T> {
    /// The same channel with copies of its samples.
    fn clone(&self) -> (copy: Self)
        ensures
            copy.tag() == self.tag(),
            copy@ == self@,
    {
        let copy = match self {
            Loads::OSSTopEnd6F(io) => Loads::OSSTopEnd6F(window_samples(io, 0, io.len())),
            Loads::OSSTruss6F(io) => Loads::OSSTruss6F(window_samples(io, 0, io.len())),
            Loads::OSSGIR6F(io) => Loads::OSSGIR6F(window_samples(io, 0, io.len())),
            Loads::OSSCRING6F(io) => Loads::OSSCRING6F(window_samples(io, 0, io.len())),
            Loads::OSSCellLcl6F(io) => Loads::OSSCellLcl6F(window_samples(io, 0, io.len())),
            Loads::OSSM1Lcl6F(io) => Loads::OSSM1Lcl6F(window_samples(io, 0, io.len())),
            Loads::MCM2LclForce6F(io) => Loads::MCM2LclForce6F(window_samples(io, 0, io.len())),
            Loads::OSSMirrorCovers6F(io) => Loads::OSSMirrorCovers6F(
                window_samples(io, 0, io.len()),
            ),
        };
        assert(copy@ =~= self@);
        copy
    }
}

impl<T: Copy> Loads<T> {
    /// Keeps every `decimation_rate`-th sample, starting with the first.
    pub fn decimate(&mut self, decimation_rate: usize)
        requires
            decimation_rate > 0,
        ensures
            final(self).tag() == old(self).tag(),
            final(self)@ == decimated(old(self)@, decimation_rate as nat),
            final(self)@.len() == ceil_div(old(self)@.len(), decimation_rate as nat),
            decimation_rate == 1 ==> final(self)@ == old(self)@,
            forall|width: nat| old(self).has_width(width) ==> final(self).has_width(width),
    {
        proof {
            lemma_decimated(self@, decimation_rate as nat);
        }
        match self {
            Loads::OSSTopEnd6F(io) => {
                let kept = decimate_samples(io, decimation_rate);
                *io = kept;
            },
            Loads::OSSTruss6F(io) => {
                let kept = decimate_samples(io, decimation_rate);
                *io = kept;
            },
            Loads::OSSGIR6F(io) => {
                let kept = decimate_samples(io, decimation_rate);
                *io = kept;
            },
            Loads::OSSCRING6F(io) => {
                let kept = decimate_samples(io, decimation_rate);
                *io = kept;
            },
            Loads::OSSCellLcl6F(io) => {
                let kept = decimate_samples(io, decimation_rate);
                *io = kept;
            },
            Loads::OSSM1Lcl6F(io) => {
                let kept = decimate_samples(io, decimation_rate);
                *io = kept;
            },
            Loads::MCM2LclForce6F(io) => {
                let kept = decimate_samples(io, decimation_rate);
                *io = kept;
            },
            Loads::OSSMirrorCovers6F(io) => {
                let kept = decimate_samples(io, decimation_rate);
                *io = kept;
            },
        }
    }

    /// Keeps the samples at the indices in `[min_index, max_index)`; none
    /// when `max_index < min_index`.
    pub fn range(&mut self, min_index: usize, max_index: usize)
        ensures
            final(self).tag() == old(self).tag(),
            final(self)@ == windowed(old(self)@, min_index as nat, max_index as nat),
            max_index < min_index ==> final(self)@.len() == 0,
            forall|width: nat| old(self).has_width(width) ==> final(self).has_width(width),
    {
        match self {
            Loads::OSSTopEnd6F(io) => {
                let kept = window_samples(io, min_index, max_index);
                *io = kept;
            },
            Loads::OSSTruss6F(io) => {
                let kept = window_samples(io, min_index, max_index);
                *io = kept;
            },
            Loads::OSSGIR6F(io) => {
                let kept = window_samples(io, min_index, max_index);
                *io = kept;
            },
            Loads::OSSCRING6F(io) => {
                let kept = window_samples(io, min_index, max_index);
                *io = kept;
            },
            Loads::OSSCellLcl6F(io) => {
                let kept = window_samples(io, min_index, max_index);
                *io = kept;
            },
            Loads::OSSM1Lcl6F(io) => {
                let kept = window_samples(io, min_index, max_index);
                *io = kept;
            },
            Loads::MCM2LclForce6F(io) => {
                let kept = window_samples(io, min_index, max_index);
                *io = kept;
            },
            Loads::OSSMirrorCovers6F(io) => {
                let kept = window_samples(io, min_index, max_index);
                *io = kept;
            },
        }
    }
}

/// The names of the wind load channels as the data file spells them.
pub fn wind_loads_name() -> (names: Vec<String>)
    ensures
        names@.len() == 8,
        names@[0]@ == "OSS_TopEnd_6F"@,
        names@[1]@ == "OSS_Truss_6F"@,
        names@[2]@ == "OSS_GIR_6F"@,
        names@[3]@ == "OSS_CRING_6F"@,
        names@[4]@ == "OSS_Cell_lcl_6F"@,
        names@[5]@ == "OSS_M1_lcl_6F"@,
        names@[6]@ == "MC_M2_lcl_force_6F"@,
        names@[7]@ == "OSS_mirrorCovers_6F"@,
{
    let mut names: Vec<String> = Vec::new();
    names.push(String::from_str("OSS_TopEnd_6F"));
    names.push(String::from_str("OSS_Truss_6F"));
    names.push(String::from_str("OSS_GIR_6F"));
    names.push(String::from_str("OSS_CRING_6F"));
    names.push(String::from_str("OSS_Cell_lcl_6F"));
    names.push(String::from_str("OSS_M1_lcl_6F"));
    names.push(String::from_str("MC_M2_lcl_force_6F"));
    names.push(String::from_str("OSS_mirrorCovers_6F"));
    names
}

} // verus!
