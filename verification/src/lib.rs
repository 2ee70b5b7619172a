//! Time-aligned wind load channels for a stepped simulation.
//!
//! A [`WindLoads`] corpus holds the optional load channels of one scenario
//! together with their shared time axis.  It is windowed in time, decimated,
//! and its channels are selected by tag into a [`WindLoading`] source, which
//! hands out one sample of every selected channel per step and stops, for all
//! channels at once, as soon as one of them has run out.
//!
//! Timestamps are integer ticks in a unit of the caller's choosing; the sample
//! components are of any `Copy` type and are never interpreted.

pub mod builder;
pub mod error;
pub mod laws;
pub mod loads;
pub mod series;
pub mod source;
pub mod tag;

pub use builder::WindLoads;
pub use error::WindLoadsError;
pub use loads::{wind_loads_name, Loads};
pub use source::WindLoading;
pub use tag::{MatchWindLoads, Tag, Tagged};
