//! Reading one scalar out of the contents of a pseudo-file, and the failures
//! that the metric providers report.
use vstd::prelude::*;

use crate::text::{decimal_at_most, parse_decimal, trim_newline, trimmed_len};

verus! {

/// The input that a failure concerns.
#[derive(Clone, Copy, Debug, PartialEq, Eq, Structural)]
pub enum Source {
    PowerSupplies,
    PowerType,
    Capacity,
    ChargeNow,
    ChargeFull,
    Online,
    Brightness,
    MaxBrightness,
    MemInfo,
    MemFree,
    MemTotal,
    MemAvailable,
    VolumeOutput,
    MuteOutput,
}

/// Why a provider could not produce its value.
#[derive(Clone, Copy, Debug, PartialEq, Eq, Structural)]
pub enum Error {
    /// The file could not be read.
    Read(Source),
    /// The text does not have the expected shape.
    Parse(Source),
    /// A required field is absent from a table.
    Missing(Source),
    /// The values read contradict each other (a zero maximum, more free
    /// memory than there is memory).
    Invalid(Source),
    /// A power-supply device reports a type that is neither a battery nor
    /// mains power.
    UnknownDevice,
    /// The audio-control command could not be run, failed, or printed
    /// something other than text.
    Command(Source),
}

/// The contents of a file as read, `None` where it could not be read.
pub open spec fn contents_view(o: Option<Vec<u8>>) -> Option<Seq<u8>> {
    match o {
        Some(v) => Some(v@),
        None => None,
    }
}

/// The number that a file holds: its text, less one trailing newline, must
/// be an optional `+` and a run of digits, of value at most `max`.
pub open spec fn read_value(contents: Option<Seq<u8>>, source: Source, max: nat) -> Result<nat, Error> {
    match contents {
        None => Err(Error::Read(source)),
        Some(c) => match decimal_at_most(trim_newline(c), max) {
            Some(v) => Ok(v),
            None => Err(Error::Parse(source)),
        },
    }
}

/// Parses the contents of one pseudo-file (`None` where reading it failed)
/// as a number no greater than `max`.
pub fn value_from_contents(contents: &Option<Vec<u8>>, source: Source, max: u64) -> (r: Result<u64, Error>)
    ensures
        r matches Ok(v) ==> read_value(contents_view(*contents), source, max as nat) == Ok::<nat, Error>(v as nat),
        r matches Err(e) ==> read_value(contents_view(*contents), source, max as nat) == Err::<nat, Error>(e),
{
    match contents {
        None => Err(Error::Read(source)),
        Some(c) => {
            let n = trimmed_len(c.as_slice());
            let digits = &c.as_slice()[0..n];
            assert(digits@ =~= c@.take(n as int));
            match parse_decimal(digits, max) {
                Some(v) => Ok(v),
                None => Err(Error::Parse(source)),
            }
        },
    }
}

} // verus!
