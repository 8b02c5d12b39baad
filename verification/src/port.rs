//! A validated TCP/UDP port number.

use crate::text::{decimal_digits, parse_u16, u16_to_string, u16_value};
use vstd::prelude::*;
use vstd::std_specs::convert::{FromSpecImpl, TryFromSpecImpl};

verus! {

/// A port number in the range 1..=65535.
///
/// Ports are ordered and compared by their number.
#[derive(Debug, Clone, Copy, PartialEq, Eq, Structural, PartialOrd, Ord, Hash)]
pub struct Port(u16);

/// The value that was refused when constructing a [`Port`].
#[derive(Debug, Clone, PartialEq, Eq)]
pub struct InvalidPortError {
    /// The refused value.
    pub value: u16,
}

/// Why a text could not be read as a [`Port`].
#[derive(Debug, Clone, PartialEq, Eq)]
pub enum PortParseError {
    /// The text is not a number between 0 and 65535.
    InvalidFormat(String),
    /// The text is a number, but not a valid port.
    InvalidValue(u16),
}

impl Port {
    /// The smallest valid port number.
    pub const MIN: u16 = 1;

    /// The largest valid port number.
    pub const MAX: u16 = 65535;

    /// The number this port stands for.
    pub closed spec fn number(self) -> u16 {
        self.0
    }

    /// The port that stands for `n`.
    pub closed spec fn of(n: u16) -> Port {
        Port(n)
    }

    /// Every port is nonzero.
    #[verifier::type_invariant]
    pub closed spec fn nonzero(self) -> bool {
        self.0 != 0
    }

    /// A port is determined by its number.
    pub broadcast proof fn lemma_number_of(n: u16)
        ensures
            #[trigger] Port::of(n).number() == n,
    {
    }

    /// Ports with the same number are the same port.
    pub proof fn lemma_same_number(a: Port, b: Port)
        requires
            a.number() == b.number(),
        ensures
            a == b,
    {
    }

    /// Builds a port from its number; zero is the only value refused.
    pub fn new(value: u16) -> (r: Result<Port, InvalidPortError>)
        ensures
            r == port_of_number(value),
    {
        if value == 0 {
            Err(InvalidPortError { value })
        } else {
            Ok(Port(value))
        }
    }

    /// The port's number, always at least 1.
    pub fn as_u16(self) -> (n: u16)
        ensures
            n == self.number(),
            n >= 1,
    {
        proof {
            use_type_invariant(self);
        }
        self.0
    }

    /// Reads a port from decimal text.
    ///
    /// Text that is not a number between 0 and 65535 is refused as badly
    /// formatted, and is handed back in the error; the number 0 is refused as
    /// an invalid value.
    pub fn parse(s: &str) -> (r: Result<Port, PortParseError>)
        ensures
            is_port_reading(s@, r),
    {
        match parse_u16(s) {
            None => Err(PortParseError::InvalidFormat(s.to_owned())),
            Some(n) => {
                if n == 0 {
                    Err(PortParseError::InvalidValue(n))
                } else {
                    Ok(Port(n))
                }
            },
        }
    }

    /// The port's number in decimal.
    pub fn to_string(&self) -> (s: String)
        ensures
            s@ == decimal_digits(self.number() as nat),
    {
        u16_to_string(self.0)
    }
}

/// Whether `r` is what reading the text `s` as a port gives: the port of the
/// number that `s` denotes; the text handed back as badly formatted where it
/// denotes no number from 0 to 65535; the refusal of zero as a value.
pub open spec fn is_port_reading(s: Seq<char>, r: Result<Port, PortParseError>) -> bool {
    match u16_value(s) {
        None => r matches Err(PortParseError::InvalidFormat(text)) && text@ == s,
        Some(n) => if n == 0 {
            r == Err::<Port, PortParseError>(PortParseError::InvalidValue(0))
        } else {
            r == Ok::<Port, PortParseError>(Port::of(n))
        },
    }
}

/// What constructing a port from `value` gives: the port, or the refusal of
/// zero.
pub open spec fn port_of_number(value: u16) -> Result<Port, InvalidPortError> {
    if value == 0 {
        Err(InvalidPortError { value })
    } else {
        Ok(Port::of(value))
    }
}

impl TryFrom<u16> for Port {
    type Error = InvalidPortError;

    fn try_from(value: u16) -> (r: Result<Port, InvalidPortError>) {
        Port::new(value)
    }
}

impl TryFromSpecImpl<u16> for Port {
    open spec fn obeys_try_from_spec() -> bool {
        true
    }

    open spec fn try_from_spec(value: u16) -> Result<Port, InvalidPortError> {
        port_of_number(value)
    }
}

impl From<Port> for u16 {
    fn from(port: Port) -> (n: u16) {
        port.as_u16()
    }
}

impl FromSpecImpl<Port> for u16 {
    open spec fn obeys_from_spec() -> bool {
        true
    }

    open spec fn from_spec(port: Port) -> u16 {
        port.number()
    }
}

impl core::str::FromStr for Port {
    type Err = PortParseError;

    /// Reads a port from decimal text, as [`Port::parse`] does.
    fn from_str(s: &str) -> (r: Result<Port, PortParseError>)
        ensures
            is_port_reading(s@, r),
    {
        Port::parse(s)
    }
}

} // verus!
