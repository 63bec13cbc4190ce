use vstd::prelude::*;

verus! {

/// Clock ticks in one second; timestamps are monotonic tick counts.
pub const TICKS_PER_SECOND: u64 = 1_000_000;

/// One environmental reading. Floating-point quantities are carried as their
/// IEEE-754 single-precision bit patterns, exactly as they travel on the wire.
#[derive(Clone, Copy, Debug, PartialEq, Eq, Structural)]
pub enum Measurement {
    Temperature(u32),
    Humidity(u32),
    Co2(u16),
}

/// A measurement together with the monotonic instant (in ticks) it was taken.
#[derive(Clone, Copy, Debug, PartialEq, Eq, Structural)]
pub struct Reading {
    pub at: u64,
    pub measurement: Measurement,
}

impl Reading {
    pub fn new(at: u64, measurement: Measurement) -> (r: Reading)
        ensures
            r.at == at,
            r.measurement == measurement,
    {
        Reading { at, measurement }
    }
}

} // verus!
