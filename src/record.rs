use vstd::prelude::*;

verus! {

/// A latitude/longitude pair. Each coordinate is held as the IEEE-754 bit
/// pattern of its 64-bit float, so that storing and reading back a record
/// preserves it exactly.
#[derive(Clone, Copy, Debug, PartialEq, Eq, Structural)]
pub struct CoordinateRecord {
    pub latitude_bits: u64,
    pub longitude_bits: u64,
}

impl CoordinateRecord {
    pub fn from_bits(latitude_bits: u64, longitude_bits: u64) -> (r: CoordinateRecord)
        ensures
            r.latitude_bits == latitude_bits,
            r.longitude_bits == longitude_bits,
    {
        CoordinateRecord { latitude_bits, longitude_bits }
    }
}

} // verus!
