//! Aircraft records and their validated field types.

use crate::text::canon_upper;
use crate::text::canonicalize;
use crate::text::parse_u16;
use crate::text::parse_u16_spec;
use vstd::prelude::*;

verus! {

/// Why a field of an aircraft record failed validation.
#[derive(Debug, Clone, Copy, PartialEq, Eq, Structural)]
pub enum AircraftError {
    /// Not an unsigned 16-bit decimal number.
    InvalidId,
    /// A short name must be 1 to 20 characters long.
    InvalidShortName,
    /// A name must be 1 to 40 characters long.
    InvalidName,
    /// Not one of the known aircraft categories.
    InvalidAircraftType,
    /// Not an unsigned 8-bit decimal number.
    InvalidPriority,
}

/// Numeric identifier of an aircraft record.
#[derive(Debug, Clone, Copy, PartialEq, Eq, Structural)]
pub struct AcId(pub u16);

impl AcId {
    /// Decimal parse of an identifier.
    pub fn parse(s: &str) -> (r: Result<AcId, AircraftError>)
        ensures
            match parse_u16_spec(s@) {
                Some(n) => r == Ok::<AcId, AircraftError>(AcId(n)),
                None => r == Err::<AcId, AircraftError>(AircraftError::InvalidId),
            },
    {
        match parse_u16(s) {
            Some(n) => Ok(AcId(n)),
            None => Err(AircraftError::InvalidId),
        }
    }
}

/// Short display name of an aircraft, 1 to 20 characters (loose on purpose,
/// so fuzzy search stays permissive).
#[derive(Debug)]
pub struct ShortName(pub String);

impl View for ShortName {
    type V = Seq<char>;

    open spec fn view(&self) -> Seq<char> {
        self.0@
    }
}

impl Clone for ShortName {
    fn clone(&self) -> (r: Self)
        ensures
            r@ == self@,
    {
        ShortName(self.0.clone())
    }
}

impl ShortName {
    /// Accepts any string of 1 to 20 characters.
    pub fn parse(s: &str) -> (r: Result<ShortName, AircraftError>)
        ensures
            1 <= s@.len() <= 20 ==> (r matches Ok(a) && a@ == s@),
            !(1 <= s@.len() <= 20) ==> r == Err::<ShortName, AircraftError>(
                AircraftError::InvalidShortName,
            ),
    {
        let len = s.unicode_len();
        if 1 <= len && len <= 20 {
            Ok(ShortName(s.to_owned()))
        } else {
            Err(AircraftError::InvalidShortName)
        }
    }
}

/// Full display name of an aircraft, 1 to 40 characters.
#[derive(Debug)]
pub struct AcName(pub String);

impl View for AcName {
    type V = Seq<char>;

    open spec fn view(&self) -> Seq<char> {
        self.0@
    }
}

impl Clone for AcName {
    fn clone(&self) -> (r: Self)
        ensures
            r@ == self@,
    {
        AcName(self.0.clone())
    }
}

impl AcName {
    /// Accepts any string of 1 to 40 characters.
    pub fn parse(s: &str) -> (r: Result<AcName, AircraftError>)
        ensures
            1 <= s@.len() <= 40 ==> (r matches Ok(a) && a@ == s@),
            !(1 <= s@.len() <= 40) ==> r == Err::<AcName, AircraftError>(
                AircraftError::InvalidName,
            ),
    {
        let len = s.unicode_len();
        if 1 <= len && len <= 40 {
            Ok(AcName(s.to_owned()))
        } else {
            Err(AircraftError::InvalidName)
        }
    }
}

/// Priority rank of an engine variant.
#[derive(Debug, Clone, Copy, PartialEq, Eq, Structural)]
pub struct EnginePriority(pub u8);

impl EnginePriority {
    /// Decimal parse of a priority (an unsigned 8-bit value).
    pub fn parse(s: &str) -> (r: Result<EnginePriority, AircraftError>)
        ensures
            ({
                let pr = parse_u16_spec(s@);
                if pr is Some && pr->Some_0 <= 255 {
                    r == Ok::<EnginePriority, AircraftError>(EnginePriority(pr->Some_0 as u8))
                } else {
                    r == Err::<EnginePriority, AircraftError>(AircraftError::InvalidPriority)
                }
            }),
    {
        match parse_u16(s) {
            Some(n) => {
                if n <= 255 {
                    Ok(EnginePriority(n as u8))
                } else {
                    Err(AircraftError::InvalidPriority)
                }
            },
            None => Err(AircraftError::InvalidPriority),
        }
    }
}

/// The category of service an aircraft flies.
#[derive(Debug, Clone, Copy, PartialEq, Eq, Structural)]
pub enum AircraftType {
    Pax,
    Cargo,
    Vip,
}

impl AircraftType {
    /// Case-insensitive parse of a category name.
    pub fn parse(s: &str) -> (r: Result<AircraftType, AircraftError>)
        ensures
            ({
                let u = canon_upper(s@);
                if u == "PAX"@ {
                    r == Ok::<AircraftType, AircraftError>(AircraftType::Pax)
                } else if u == "CARGO"@ {
                    r == Ok::<AircraftType, AircraftError>(AircraftType::Cargo)
                } else if u == "VIP"@ {
                    r == Ok::<AircraftType, AircraftError>(AircraftType::Vip)
                } else {
                    r == Err::<AircraftType, AircraftError>(AircraftError::InvalidAircraftType)
                }
            }),
    {
        let u = canonicalize(s);
        if u == "PAX".to_owned() {
            Ok(AircraftType::Pax)
        } else if u == "CARGO".to_owned() {
            Ok(AircraftType::Cargo)
        } else if u == "VIP".to_owned() {
            Ok(AircraftType::Vip)
        } else {
            Err(AircraftError::InvalidAircraftType)
        }
    }
}

/// The mathematical content of an aircraft record.
pub struct AircraftView {
    pub id: u16,
    pub shortname: Seq<char>,
    pub manufacturer: Seq<char>,
    pub name: Seq<char>,
    pub ac_type: AircraftType,
    pub priority: u8,
    pub eid: u16,
    pub ename: Seq<char>,
    pub cost: u32,
    pub capacity: u32,
    pub rwy: u16,
    pub check_cost: u32,
    pub range: u16,
    pub ceil: u16,
    pub maint: u16,
    pub pilots: u8,
    pub crew: u8,
    pub engineers: u8,
    pub technicians: u8,
    pub img: Seq<char>,
    pub wingspan: u8,
    pub length: u8,
}

/// An aircraft record. The route rules read its one-way range and its
/// required runway length.
#[derive(Debug)]
pub struct Aircraft {
    pub id: AcId,
    pub shortname: ShortName,
    pub manufacturer: String,
    pub name: AcName,
    pub ac_type: AircraftType,
    pub priority: EnginePriority,
    pub eid: u16,
    pub ename: String,
    pub cost: u32,
    pub capacity: u32,
    pub rwy: u16,
    pub check_cost: u32,
    pub range: u16,
    pub ceil: u16,
    pub maint: u16,
    pub pilots: u8,
    pub crew: u8,
    pub engineers: u8,
    pub technicians: u8,
    pub img: String,
    pub wingspan: u8,
    pub length: u8,
}

impl View for Aircraft {
    type V = AircraftView;

    open spec fn view(&self) -> AircraftView {
        AircraftView {
            id: self.id.0,
            shortname: self.shortname@,
            manufacturer: self.manufacturer@,
            name: self.name@,
            ac_type: self.ac_type,
            priority: self.priority.0,
            eid: self.eid,
            ename: self.ename@,
            cost: self.cost,
            capacity: self.capacity,
            rwy: self.rwy,
            check_cost: self.check_cost,
            range: self.range,
            ceil: self.ceil,
            maint: self.maint,
            pilots: self.pilots,
            crew: self.crew,
            engineers: self.engineers,
            technicians: self.technicians,
            img: self.img@,
            wingspan: self.wingspan,
            length: self.length,
        }
    }
}

impl Clone for Aircraft {
    fn clone(&self) -> (r: Self)
        ensures
            r@ == self@,
    {
        Aircraft {
            id: self.id,
            shortname: self.shortname.clone(),
            manufacturer: self.manufacturer.clone(),
            name: self.name.clone(),
            ac_type: self.ac_type,
            priority: self.priority,
            eid: self.eid,
            ename: self.ename.clone(),
            cost: self.cost,
            capacity: self.capacity,
            rwy: self.rwy,
            check_cost: self.check_cost,
            range: self.range,
            ceil: self.ceil,
            maint: self.maint,
            pilots: self.pilots,
            crew: self.crew,
            engineers: self.engineers,
            technicians: self.technicians,
            img: self.img.clone(),
            wingspan: self.wingspan,
            length: self.length,
        }
    }
}

} // verus!
