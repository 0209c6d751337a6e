//! What a query may ask of the record it finds, and the record so customised.

use crate::aircraft::{Aircraft, AircraftError, AircraftView, EnginePriority};
use crate::text::{chars_of, number, parse_number, trim, trimmed};
use vstd::prelude::*;

verus! {

/// The options that a query selects. At present they are one: the engine.
#[derive(Debug, Clone, Copy, PartialEq, Eq, Structural)]
pub struct Modification {
    pub engine: EnginePriority,
}

impl Default for Modification {
    /// The options of a query that names none: the engine of priority 0.
    fn default() -> (r: Self)
        ensures
            r == (Modification { engine: EnginePriority(0) }),
    {
        Modification { engine: EnginePriority(0) }
    }
}

/// What the text between the brackets of a query selects. White space around
/// it does not count. Nothing selects the engine of priority 0; a decimal
/// number from 0 to 255 selects the engine of that priority; any other text
/// selects nothing.
pub open spec fn modification(s: Seq<char>) -> Result<Modification, AircraftError> {
    let t = trimmed(s);
    if t.len() == 0 {
        Ok(Modification { engine: EnginePriority(0) })
    } else {
        match number(t, u8::MAX as nat) {
            Some(v) => Ok(Modification { engine: EnginePriority(v as u8) }),
            None => Err(AircraftError::InvalidModifier),
        }
    }
}

impl Modification {
    /// Reads the options from the characters between the brackets.
    pub fn parse(s: &[char]) -> (r: Result<Modification, AircraftError>)
        ensures
            r == modification(s@),
    {
        let t = trim(s);
        if t.len() == 0 {
            Ok(Modification { engine: EnginePriority(0) })
        } else {
            match parse_number(t, 255) {
                Some(v) => Ok(Modification { engine: EnginePriority(v as u8) }),
                None => Err(AircraftError::InvalidModifier),
            }
        }
    }

    /// Reads the options from the text between the brackets.
    pub fn from_str(s: &str) -> (r: Result<Modification, AircraftError>)
        ensures
            r == modification(s@),
    {
        let chars = chars_of(s);
        Modification::parse(chars.as_slice())
    }
}

/// A record together with the options that were asked of it.
#[derive(Debug, PartialEq, Eq)]
pub struct CustomAircraft {
    pub aircraft: Aircraft,
    pub modifiers: Modification,
}

/// What a customised record holds, as plain values.
pub struct CustomAircraftView {
    pub aircraft: AircraftView,
    pub modifiers: Modification,
}

impl View for CustomAircraft {
    type V = CustomAircraftView;

    open spec fn view(&self) -> CustomAircraftView {
        CustomAircraftView { aircraft: self.aircraft@, modifiers: self.modifiers }
    }
}

impl CustomAircraft {
    /// Puts a record and the options asked of it together. The record handed
    /// in is the caller's own copy; the catalog is not touched.
    pub fn from_aircraft_and_modifiers(aircraft: Aircraft, modifiers: Modification) -> (r: Self)
        ensures
            r@ == (CustomAircraftView { aircraft: aircraft@, modifiers }),
    {
        CustomAircraft { aircraft, modifiers }
    }
}

} // verus!
