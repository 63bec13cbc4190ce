use vstd::prelude::*;
use crate::measurement::Measurement;

verus! {

/// CO2 level at or above which the indicator leaves the green band.
pub const AMBER_FROM: u16 = 600;

/// CO2 level at or above which the indicator shows red.
pub const RED_FROM: u16 = 1000;

/// The three levels of the visual CO2 indicator.
#[derive(Clone, Copy, Debug, PartialEq, Eq, Structural)]
pub enum Band {
    Green,
    Amber,
    Red,
}

pub open spec fn band_spec(co2: u16) -> Band {
    if co2 < AMBER_FROM {
        Band::Green
    } else if co2 < RED_FROM {
        Band::Amber
    } else {
        Band::Red
    }
}

/// Maps a CO2 concentration (ppm) to its indicator band:
/// below 600 green, from 600 up to 1000 amber, 1000 and above red.
pub fn band_of(co2: u16) -> (b: Band)
    ensures
        b == band_spec(co2),
{
    if co2 < AMBER_FROM {
        Band::Green
    } else if co2 < RED_FROM {
        Band::Amber
    } else {
        Band::Red
    }
}

/// The CO2 value of a measurement, if it is one.
pub fn co2_of(m: Measurement) -> (r: Option<u16>)
    ensures
        r == (match m {
            Measurement::Co2(c) => Some(c),
            _ => None::<u16>,
        }),
{
    match m {
        Measurement::Co2(c) => Some(c),
        _ => None,
    }
}

/// Duty cycles in percent of the red, green and blue channels for a band.
pub open spec fn duties_spec(b: Band) -> (u8, u8, u8) {
    match b {
        Band::Green => (0, 100, 0),
        Band::Amber => (100, 100, 0),
        Band::Red => (100, 0, 0),
    }
}

impl Band {
    /// The band's name: "green", "amber" or "red".
    pub fn name(&self) -> (s: &'static str)
        ensures
            *self == Band::Green ==> s@ == "green"@,
            *self == Band::Amber ==> s@ == "amber"@,
            *self == Band::Red ==> s@ == "red"@,
    {
        proof {
            reveal_strlit("green");
            reveal_strlit("amber");
            reveal_strlit("red");
        }
        match self {
            Band::Green => "green",
            Band::Amber => "amber",
            Band::Red => "red",
        }
    }

    /// The (red, green, blue) duty cycles that show this band.
    pub fn duties(&self) -> (d: (u8, u8, u8))
        ensures
            d == duties_spec(*self),
    {
        match self {
            Band::Green => (0, 100, 0),
            Band::Amber => (100, 100, 0),
            Band::Red => (100, 0, 0),
        }
    }
}

/// What the indicator shows after a measurement: a new set of duty cycles for
/// a CO2 reading, nothing for any other quantity.
pub fn indicator_update(m: Measurement) -> (r: Option<(u8, u8, u8)>)
    ensures
        r == (match m {
            Measurement::Co2(c) => Some(duties_spec(band_spec(c))),
            _ => None::<(u8, u8, u8)>,
        }),
{
    match co2_of(m) {
        Some(c) => Some(band_of(c).duties()),
        None => None,
    }
}

} // verus!
