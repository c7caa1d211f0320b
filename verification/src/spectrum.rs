//! The integer side of the spectrum analysis: the bass band of the dB byte map.
use vstd::prelude::*;

verus! {

/// Number of spectrum bins in the dB byte map.
pub const SPEC_BINS: usize = 256;

/// First and one-past-last bin of the bass band.
pub const BASS_LO: usize = 1;

pub const BASS_HI: usize = 17;

/// The sum of `bytes[lo..hi]`.
pub open spec fn band_sum(bytes: Seq<u8>, lo: int, hi: int) -> int
    decreases hi - lo,
{
    if hi <= lo {
        0
    } else {
        band_sum(bytes, lo, hi - 1) + bytes[hi - 1]
    }
}

/// Adds up the bass band, bins 1 through 16, of the dB byte map; the analyzer
/// turns it into the bass level as `min(sum / 16 / 200, 1)`.
pub fn bass_band_sum(bytes: &[u8; 256]) -> (b: u32)
    ensures
        b == band_sum(bytes@, BASS_LO as int, BASS_HI as int),
        b <= 16 * 255,
{
    let mut b: u32 = 0;
    for i in BASS_LO..BASS_HI
        invariant
            b == band_sum(bytes@, BASS_LO as int, i as int),
            b <= (i - BASS_LO) * 255,
    {
        b = b + bytes[i] as u32;
    }
    b
}

} // verus!
