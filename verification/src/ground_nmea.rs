//! The ground station's own GPS decoding: the same line assembly and
//! checksum, and RMC sentences read up to the track angle. The ground
//! station takes its time from nowhere else, so the date field is not
//! required and no UTC time is decoded.
use vstd::prelude::*;
pub use crate::nmea::{checksum, NmeaLineReader, RmcSentence};
use crate::nmea::{decode_rmc, rmc_of};

verus! {

/// Decode one `$..RMC` sentence, reading nine fields (through the track
/// angle): `None` exactly when [`rmc_of`] without the date field is.
pub fn parse_rmc(sentence: &str) -> (r: Option<RmcSentence>)
    ensures
        r matches Some(x) ==> rmc_of(sentence@, false) == Some(x@),
        r is None ==> rmc_of(sentence@, false) is None,
        r matches Some(x) ==> x.utc is None,
{
    decode_rmc(sentence, false)
}

} // verus!
