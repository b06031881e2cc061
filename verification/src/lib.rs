use vstd::prelude::*;

pub mod catalog;
pub mod engine;
pub mod genval;
pub mod lines;

verus! {

/// The fixed AMS port of the first controller instance on a target device.
pub const PLC_AMS_PORT: u16 = 851;

} // verus!
