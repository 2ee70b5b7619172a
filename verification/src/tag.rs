//! Tags that name the inputs and outputs of the simulation, and how a tag
//! finds its channel.

use crate::loads::Loads;
use crate::series::{queue_samples, rows};
use std::collections::VecDeque;
use vstd::prelude::*;

verus! {

/// The name under which data enters or leaves a simulation step.
///
/// The first eight tags are those of the wind load channels.  The others name
/// no channel: looking one up finds nothing.
#[derive(Debug, Clone, Copy, PartialEq, Eq, Hash, Structural)]
pub enum Tag {
    /// Top-end.
    OSSTopEnd6F,
    /// Truss.
    OSSTruss6F,
    /// GIR.
    OSSGIR6F,
    /// C-ring.
    OSSCRING6F,
    /// M1 cells.
    OSSCellLcl6F,
    /// M1 segments.
    OSSM1Lcl6F,
    /// M2 segments.
    MCM2LclForce6F,
    /// M1 mirror covers.
    OSSMirrorCovers6F,
    /// Top-end of the adaptive secondary mirror.
    MCM2TE6F,
    /// Reference bodies of the adaptive secondary mirror.
    MCM2RB6F,
    /// Any other input or output of the simulation.
    Other,
}

/// A value together with the tag it travels under.
#[derive(Debug)]
pub struct Tagged<D> {
    /// The name of the value.
    pub tag: Tag,
    /// The value.
    pub data: D,
}

impl<D: Clone> Clone for Tagged<D> {
    /// The same tag with a clone of the value.
    fn clone(&self) -> (copy: Self)
        ensures
            copy.tag == self.tag,
            cloned(self.data, copy.data),
    {
        Tagged { tag: self.tag, data: self.data.clone() }
    }
}

/// Matches a key against a wind load channel and, on a match, hands out the
/// channel's samples as a queue to take them from in order.
pub trait MatchWindLoads<T> {
    /// The key names the channel.
    spec fn matches(&self, wind_loads: &Loads<T>) -> bool;

    /// All the samples of the channel, if the key names it.
    fn data(&self, wind_loads: &Loads<T>) -> (found: Option<VecDeque<Vec<T>>>)
        ensures
            found is Some <==> self.matches(wind_loads),
            found matches Some(queue) ==> rows(queue@) == wind_loads@,
    ;

    /// The first `n` samples of the channel, if the key names it.
    fn ndata(&self, wind_loads: &Loads<T>, n: usize) -> (found: Option<VecDeque<Vec<T>>>)
        requires
            self.matches(wind_loads) ==> n <= wind_loads@.len(),
        ensures
            found is Some <==> self.matches(wind_loads),
            found matches Some(queue) ==> rows(queue@) == wind_loads@.take(n as int),
    ;
}

impl<T: Copy> MatchWindLoads<T> for Tag {
    open spec fn matches(&self, wind_loads: &Loads<T>) -> bool {
        wind_loads.tag() == *self
    }

    fn data(&self, wind_loads: &Loads<T>) -> (found: Option<VecDeque<Vec<T>>>) {
        match (self, wind_loads) {
            (Tag::OSSTopEnd6F, Loads::OSSTopEnd6F(v)) => Some(queue_samples(v, v.len())),
            (Tag::OSSTruss6F, Loads::OSSTruss6F(v)) => Some(queue_samples(v, v.len())),
            (Tag::OSSGIR6F, Loads::OSSGIR6F(v)) => Some(queue_samples(v, v.len())),
            (Tag::OSSCRING6F, Loads::OSSCRING6F(v)) => Some(queue_samples(v, v.len())),
            (Tag::OSSCellLcl6F, Loads::OSSCellLcl6F(v)) => Some(queue_samples(v, v.len())),
            (Tag::OSSM1Lcl6F, Loads::OSSM1Lcl6F(v)) => Some(queue_samples(v, v.len())),
            (Tag::MCM2LclForce6F, Loads::MCM2LclForce6F(v)) => Some(queue_samples(v, v.len())),
            (Tag::OSSMirrorCovers6F, Loads::OSSMirrorCovers6F(v)) => Some(
                queue_samples(v, v.len()),
            ),
            (_, _) => None,
        }
    }

    fn ndata(&self, wind_loads: &Loads<T>, n: usize) -> (found: Option<VecDeque<Vec<T>>>) {
        match (self, wind_loads) {
            (Tag::OSSTopEnd6F, Loads::OSSTopEnd6F(v)) => Some(queue_samples(v, n)),
            (Tag::OSSTruss6F, Loads::OSSTruss6F(v)) => Some(queue_samples(v, n)),
            (Tag::OSSGIR6F, Loads::OSSGIR6F(v)) => Some(queue_samples(v, n)),
            (Tag::OSSCRING6F, Loads::OSSCRING6F(v)) => Some(queue_samples(v, n)),
            (Tag::OSSCellLcl6F, Loads::OSSCellLcl6F(v)) => Some(queue_samples(v, n)),
            (Tag::OSSM1Lcl6F, Loads::OSSM1Lcl6F(v)) => Some(queue_samples(v, n)),
            (Tag::MCM2LclForce6F, Loads::MCM2LclForce6F(v)) => Some(queue_samples(v, n)),
            (Tag::OSSMirrorCovers6F, Loads::OSSMirrorCovers6F(v)) => Some(queue_samples(v, n)),
            (_, _) => None,
        }
    }
}

} // verus!
