//! Aircraft records and the values that identify them.

pub mod catalog;
pub mod custom;
pub mod index;
pub mod search;
pub mod theorems;

use crate::text::{chars_of, number, parse_number, string_of};
use vstd::prelude::*;

verus! {

/// The longest short code, in characters.
pub const MAX_SHORTNAME_LEN: usize = 20;

/// The longest display name, in characters.
pub const MAX_NAME_LEN: usize = 40;

/// Why a text is no identifier, short code, name or modifier.
#[derive(Debug, Clone, Copy, PartialEq, Eq, Structural)]
pub enum AircraftError {
    /// The text is no decimal number from 0 to 65535.
    InvalidID,
    /// The text is shorter or longer than a short code may be.
    InvalidShortName,
    /// The text is shorter or longer than a name may be.
    InvalidName,
    /// The text between the brackets selects no engine.
    InvalidModifier,
}

impl AircraftError {
    /// The description of the error, for people to read.
    pub open spec fn message(self) -> Seq<char> {
        match self {
            AircraftError::InvalidID => "Invalid aircraft ID: not a number from 0 to 65535"@,
            AircraftError::InvalidShortName => "Invalid aircraft short name: not 1 to 20 characters"@,
            AircraftError::InvalidName => "Invalid aircraft name: not 1 to 40 characters"@,
            AircraftError::InvalidModifier => "Invalid engine priority: not a number from 0 to 255"@,
        }
    }

    /// Describes the error.
    pub fn to_string(&self) -> (r: String)
        ensures
            r@ == self.message(),
    {
        match self {
            AircraftError::InvalidID => "Invalid aircraft ID: not a number from 0 to 65535".to_owned(),
            AircraftError::InvalidShortName => "Invalid aircraft short name: not 1 to 20 characters".to_owned(),
            AircraftError::InvalidName => "Invalid aircraft name: not 1 to 40 characters".to_owned(),
            AircraftError::InvalidModifier => "Invalid engine priority: not a number from 0 to 255".to_owned(),
        }
    }
}

/// The number of an aircraft model.
#[derive(Debug, Clone, Copy, PartialEq, Eq, Hash, Structural)]
pub struct Id(pub u16);

/// The short code of an aircraft model, such as `b744`.
#[derive(Debug, PartialEq, Eq, Hash)]
pub struct ShortName(pub String);

/// The display name of an aircraft model.
#[derive(Debug, PartialEq, Eq, Hash)]
pub struct Name(pub String);

/// Tells the engine variants of one model apart.
#[derive(Debug, Clone, Copy, PartialEq, Eq, Hash, Structural)]
pub struct EnginePriority(pub u8);

/// One record of the catalog: an aircraft model with one of its engines.
#[derive(Debug, PartialEq, Eq)]
pub struct Aircraft {
    pub id: Id,
    pub shortname: ShortName,
    pub name: Name,
    pub priority: EnginePriority,
}

/// What a record holds, as plain values.
pub struct AircraftView {
    pub id: u16,
    pub shortname: Seq<char>,
    pub name: Seq<char>,
    pub priority: u8,
}

impl View for ShortName {
    type V = Seq<char>;

    open spec fn view(&self) -> Seq<char> {
        self.0@
    }
}

impl View for Name {
    type V = Seq<char>;

    open spec fn view(&self) -> Seq<char> {
        self.0@
    }
}

impl View for Aircraft {
    type V = AircraftView;

    open spec fn view(&self) -> AircraftView {
        AircraftView {
            id: self.id.0,
            shortname: self.shortname@,
            name: self.name@,
            priority: self.priority.0,
        }
    }
}

impl Clone for ShortName {
    fn clone(&self) -> (r: Self)
        ensures
            r@ == self@,
    {
        ShortName(self.0.clone())
    }
}

impl Clone for Name {
    fn clone(&self) -> (r: Self)
        ensures
            r@ == self@,
    {
        Name(self.0.clone())
    }
}

impl Clone for Aircraft {
    fn clone(&self) -> (r: Self)
        ensures
            r@ == self@,
    {
        Aircraft {
            id: self.id,
            shortname: self.shortname.clone(),
            name: self.name.clone(),
            priority: self.priority,
        }
    }
}

/// Whether `s` can be a short code: one to twenty characters.
pub open spec fn valid_shortname(s: Seq<char>) -> bool {
    1 <= s.len() <= MAX_SHORTNAME_LEN
}

/// Whether `s` can be a name: one to forty characters.
pub open spec fn valid_name(s: Seq<char>) -> bool {
    1 <= s.len() <= MAX_NAME_LEN
}

impl Id {
    /// Reads an identifier from its characters.
    pub fn parse(s: &[char]) -> (r: Result<Id, AircraftError>)
        ensures
            match number(s@, u16::MAX as nat) {
                Some(v) => r == Ok::<Id, AircraftError>(Id(v as u16)),
                None => r == Err::<Id, AircraftError>(AircraftError::InvalidID),
            },
    {
        match parse_number(s, 65535) {
            Some(v) => Ok(Id(v as u16)),
            None => Err(AircraftError::InvalidID),
        }
    }

    /// Reads an identifier: a decimal number from 0 to 65535, with nothing
    /// around it but an optional `+` in front.
    pub fn from_str(s: &str) -> (r: Result<Id, AircraftError>)
        ensures
            match number(s@, u16::MAX as nat) {
                Some(v) => r == Ok::<Id, AircraftError>(Id(v as u16)),
                None => r == Err::<Id, AircraftError>(AircraftError::InvalidID),
            },
    {
        let chars = chars_of(s);
        Id::parse(chars.as_slice())
    }
}

impl ShortName {
    /// Takes the characters as a short code, if there are one to twenty of them.
    pub fn parse(s: &[char]) -> (r: Result<ShortName, AircraftError>)
        ensures
            match r {
                Ok(sn) => valid_shortname(s@) && sn@ == s@,
                Err(e) => !valid_shortname(s@) && e == AircraftError::InvalidShortName,
            },
    {
        if 1 <= s.len() && s.len() <= MAX_SHORTNAME_LEN {
            Ok(ShortName(string_of(s)))
        } else {
            Err(AircraftError::InvalidShortName)
        }
    }

    /// Takes `s` as a short code, if it has one to twenty characters.
    pub fn from_str(s: &str) -> (r: Result<ShortName, AircraftError>)
        ensures
            match r {
                Ok(sn) => valid_shortname(s@) && sn@ == s@,
                Err(e) => !valid_shortname(s@) && e == AircraftError::InvalidShortName,
            },
    {
        let chars = chars_of(s);
        ShortName::parse(chars.as_slice())
    }
}

impl Name {
    /// Takes the characters as a name, if there are one to forty of them.
    pub fn parse(s: &[char]) -> (r: Result<Name, AircraftError>)
        ensures
            match r {
                Ok(n) => valid_name(s@) && n@ == s@,
                Err(e) => !valid_name(s@) && e == AircraftError::InvalidName,
            },
    {
        if 1 <= s.len() && s.len() <= MAX_NAME_LEN {
            Ok(Name(string_of(s)))
        } else {
            Err(AircraftError::InvalidName)
        }
    }

    /// Takes `s` as a name, if it has one to forty characters.
    pub fn from_str(s: &str) -> (r: Result<Name, AircraftError>)
        ensures
            match r {
                Ok(n) => valid_name(s@) && n@ == s@,
                Err(e) => !valid_name(s@) && e == AircraftError::InvalidName,
            },
    {
        let chars = chars_of(s);
        Name::parse(chars.as_slice())
    }
}

} // verus!
