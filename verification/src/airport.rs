//! Airport records and their validated field types.

pub mod db;

use crate::text::parse_u16_spec;
use crate::text::parse_u16;
use vstd::prelude::*;

verus! {

/// Why a field of an airport query or record failed validation.
#[derive(Debug, Clone, Copy, PartialEq, Eq, Structural)]
pub enum AirportError {
    /// Not an unsigned 16-bit decimal number.
    InvalidId,
    /// A short code must be 2 to 3 characters long.
    InvalidIata,
    /// A long code must be exactly 4 characters long.
    InvalidIcao,
    /// A name must be 1 to 40 characters long.
    InvalidName,
}

/// Numeric identifier of an airport record.
#[derive(Debug, Clone, Copy, PartialEq, Eq, Structural)]
pub struct Id(pub u16);

impl Id {
    /// Decimal parse of an identifier.
    pub fn parse(s: &str) -> (r: Result<Id, AirportError>)
        ensures
            match parse_u16_spec(s@) {
                Some(n) => r == Ok::<Id, AirportError>(Id(n)),
                None => r == Err::<Id, AirportError>(AirportError::InvalidId),
            },
    {
        match parse_u16(s) {
            Some(n) => Ok(Id(n)),
            None => Err(AirportError::InvalidId),
        }
    }
}

/// Short (2 to 3 character) airport code, stored as given; matching is
/// case-insensitive through canonicalization at the index.
#[derive(Debug)]
pub struct Iata(pub String);

impl View for Iata {
    type V = Seq<char>;

    open spec fn view(&self) -> Seq<char> {
        self.0@
    }
}

impl Clone for Iata {
    fn clone(&self) -> (r: Self)
        ensures
            r@ == self@,
    {
        Iata(self.0.clone())
    }
}

impl Iata {
    /// Accepts any string of 2 to 3 characters.
    pub fn parse(s: &str) -> (r: Result<Iata, AirportError>)
        ensures
            2 <= s@.len() <= 3 ==> (r matches Ok(a) && a@ == s@),
            !(2 <= s@.len() <= 3) ==> r == Err::<Iata, AirportError>(AirportError::InvalidIata),
    {
        let len = s.unicode_len();
        if 2 <= len && len <= 3 {
            Ok(Iata(s.to_owned()))
        } else {
            Err(AirportError::InvalidIata)
        }
    }
}

/// Long (4 character) airport code, stored as given; matching is
/// case-insensitive through canonicalization at the index.
#[derive(Debug)]
pub struct Icao(pub String);

impl View for Icao {
    type V = Seq<char>;

    open spec fn view(&self) -> Seq<char> {
        self.0@
    }
}

impl Clone for Icao {
    fn clone(&self) -> (r: Self)
        ensures
            r@ == self@,
    {
        Icao(self.0.clone())
    }
}

impl Icao {
    /// Accepts any string of exactly 4 characters.
    pub fn parse(s: &str) -> (r: Result<Icao, AirportError>)
        ensures
            s@.len() == 4 ==> (r matches Ok(a) && a@ == s@),
            s@.len() != 4 ==> r == Err::<Icao, AirportError>(AirportError::InvalidIcao),
    {
        let len = s.unicode_len();
        if len == 4 {
            Ok(Icao(s.to_owned()))
        } else {
            Err(AirportError::InvalidIcao)
        }
    }
}

/// Display name of an airport, 1 to 40 characters.
#[derive(Debug)]
pub struct Name(pub String);

impl View for Name {
    type V = Seq<char>;

    open spec fn view(&self) -> Seq<char> {
        self.0@
    }
}

impl Clone for Name {
    fn clone(&self) -> (r: Self)
        ensures
            r@ == self@,
    {
        Name(self.0.clone())
    }
}

impl Name {
    /// Accepts any string of 1 to 40 characters.
    pub fn parse(s: &str) -> (r: Result<Name, AirportError>)
        ensures
            1 <= s@.len() <= 40 ==> (r matches Ok(a) && a@ == s@),
            !(1 <= s@.len() <= 40) ==> r == Err::<Name, AirportError>(AirportError::InvalidName),
    {
        let len = s.unicode_len();
        if 1 <= len && len <= 40 {
            Ok(Name(s.to_owned()))
        } else {
            Err(AirportError::InvalidName)
        }
    }
}

/// The mathematical content of an airport record.
pub struct AirportView {
    pub id: u16,
    pub iata: Seq<char>,
    pub icao: Seq<char>,
    pub name: Seq<char>,
    pub rwy: u16,
}

/// An immutable airport record: identity, its two codes, display name and
/// runway length (the capability the route rules read).
#[derive(Debug)]
pub struct Airport {
    pub id: Id,
    pub iata: Iata,
    pub icao: Icao,
    pub name: Name,
    pub rwy: u16,
}

impl View for Airport {
    type V = AirportView;

    open spec fn view(&self) -> AirportView {
        AirportView {
            id: self.id.0,
            iata: self.iata@,
            icao: self.icao@,
            name: self.name@,
            rwy: self.rwy,
        }
    }
}

impl Clone for Airport {
    fn clone(&self) -> (r: Self)
        ensures
            r@ == self@,
    {
        Airport {
            id: self.id,
            iata: self.iata.clone(),
            icao: self.icao.clone(),
            name: self.name.clone(),
            rwy: self.rwy,
        }
    }
}

} // verus!
