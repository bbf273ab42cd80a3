//! Channel and sample-encoding tags.
//!
//! A [`Camera`] names the spectral channel a strip carries; a
//! [`SampleBitMode`] names the on-board bit-depth encoding of the raw
//! samples; a [`Channel`] names a spectral channel by the instrument
//! identifier used by the orientation provider.

use vstd::prelude::*;
use vstd::string::StrSliceExecFns;

verus! {

/// Spectral channel of a framelet strip.
#[derive(Debug, Copy, Clone, PartialEq, Eq, Hash, Structural)]
pub enum Camera {
    RED,
    GREEN,
    BLUE,
    METHANE,
    NONE,
}

/// On-board sample bit-depth encoding mode.
#[derive(Debug, Copy, Clone, PartialEq, Eq, Hash, Structural)]
pub enum SampleBitMode {
    SQROOT,
    LIN1,
    LIN8,
    LIN16,
    UNKNOWN,
}

/// Compares two string slices character by character.
pub(crate) fn str_eq_chars(a: &str, b: &str) -> (r: bool)
    ensures
        r == (a@ == b@),
{
    let n = a.unicode_len();
    let m = b.unicode_len();
    if n != m {
        return false;
    }
    let mut i: usize = 0;
    while i < n
        invariant
            i <= n,
            n == a@.len(),
            n == b@.len(),
            forall|j: int| 0 <= j < i ==> a@[j] == b@[j],
        decreases n - i,
    {
        if a.get_char(i) != b.get_char(i) {
            proof {
                if a@ == b@ {
                    assert(a@[i as int] == b@[i as int]);
                }
            }
            return false;
        }
        i = i + 1;
    }
    proof {
        assert(a@ =~= b@);
    }
    true
}

/// The encoding mode named by a metadata string; anything unrecognized is
/// the unknown mode.
pub open spec fn spec_sample_bit_mode_from(s: Seq<char>) -> SampleBitMode {
    if s == "SQROOT"@ {
        SampleBitMode::SQROOT
    } else if s == "LIN1"@ {
        SampleBitMode::LIN1
    } else if s == "LIN8"@ {
        SampleBitMode::LIN8
    } else if s == "LIN16"@ {
        SampleBitMode::LIN16
    } else {
        SampleBitMode::UNKNOWN
    }
}

impl SampleBitMode {
    /// Parses the encoding-mode name found in image metadata.
    pub fn from(s: &str) -> (r: SampleBitMode)
        ensures
            r == spec_sample_bit_mode_from(s@),
    {
        if str_eq_chars(s, "SQROOT") {
            SampleBitMode::SQROOT
        } else if str_eq_chars(s, "LIN1") {
            SampleBitMode::LIN1
        } else if str_eq_chars(s, "LIN8") {
            SampleBitMode::LIN8
        } else if str_eq_chars(s, "LIN16") {
            SampleBitMode::LIN16
        } else {
            SampleBitMode::UNKNOWN
        }
    }
}

/// Instrument identifier of the camera head as a whole.
pub const JUNO_JUNOCAM: i32 = -61500;

/// Instrument identifier of the blue channel.
pub const JUNO_JUNOCAM_BLUE: i32 = -61501;

/// Instrument identifier of the green channel.
pub const JUNO_JUNOCAM_GREEN: i32 = -61502;

/// Instrument identifier of the red channel.
pub const JUNO_JUNOCAM_RED: i32 = -61503;

/// Instrument identifier of the methane channel.
pub const JUNO_JUNOCAM_METHANE: i32 = -61504;

/// A spectral channel, named for orientation-provider lookups.
#[derive(Debug, Copy, Clone, PartialEq, Eq, Hash, Structural)]
pub enum Channel {
    RED,
    GREEN,
    BLUE,
    METHANE,
}

impl Channel {
    /// The instrument identifier of this channel.
    pub fn to_id(&self) -> (r: i32)
        ensures
            r == (match self {
                Channel::RED => JUNO_JUNOCAM_RED,
                Channel::GREEN => JUNO_JUNOCAM_GREEN,
                Channel::BLUE => JUNO_JUNOCAM_BLUE,
                Channel::METHANE => JUNO_JUNOCAM_METHANE,
            }),
    {
        match self {
            Channel::RED => JUNO_JUNOCAM_RED,
            Channel::GREEN => JUNO_JUNOCAM_GREEN,
            Channel::BLUE => JUNO_JUNOCAM_BLUE,
            Channel::METHANE => JUNO_JUNOCAM_METHANE,
        }
    }
}

} // verus!
