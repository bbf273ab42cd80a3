//! Decompanding: inverting the on-board bit-depth compression.
//!
//! Raw samples arrive as 8-bit codes. Depending on the commanded encoding
//! mode the code is either a linear scaling of the 12-bit sensor value or a
//! square-root companding of it; decompanding maps each code back onto the
//! 16-bit output scale. Codes outside `[0, 255]` are clipped before lookup.

use vstd::prelude::*;

use crate::buffer::{clip_sample, in_sample_range, ImageBuffer, SAMPLE_MAX};
use crate::enums::SampleBitMode;
use crate::error::Error;

verus! {

/// The decompanded value of one sample: the sample is clipped to the 8-bit
/// code range, then expanded according to the encoding mode. Square-root
/// companding inverts to a square, rescaled so code 255 lands on 65535; the
/// linear modes multiply by their gain.
pub open spec fn spec_decompand_sample(mode: SampleBitMode, v: i64) -> i64 {
    let c = clip_sample(v, 0, 255) as int;
    match mode {
        SampleBitMode::SQROOT => ((c * c * 65535) / 65025) as i64,
        SampleBitMode::LIN1 => c as i64,
        SampleBitMode::LIN8 => (c * 8) as i64,
        SampleBitMode::LIN16 => (c * 16) as i64,
        SampleBitMode::UNKNOWN => 0,
    }
}

/// Every decompanded sample lies within `[0, 65535]`.
pub proof fn lemma_decompand_sample_range(mode: SampleBitMode, v: i64)
    ensures
        0 <= spec_decompand_sample(mode, v) <= 65535,
{
    let c = clip_sample(v, 0, 255) as int;
    assert(0 <= c <= 255);
    if mode is SQROOT {
        assert(c * c <= 65025) by (nonlinear_arith)
            requires
                0 <= c <= 255,
        ;
        assert(c * c >= 0) by (nonlinear_arith)
            requires
                0 <= c,
        ;
        vstd::arithmetic::mul::lemma_mul_inequality(c * c, 65025, 65535);
        vstd::arithmetic::div_mod::lemma_div_is_ordered(c * c * 65535, 65025int * 65535, 65025);
        vstd::arithmetic::div_mod::lemma_div_pos_is_pos(c * c * 65535, 65025);
        vstd::arithmetic::div_mod::lemma_div_multiples_vanish(65535, 65025);
        assert(c * c * 65535 >= 0) by (nonlinear_arith)
            requires
                c * c >= 0,
        ;
    }
}

/// Decompands one sample.
fn decompand_sample(mode: SampleBitMode, v: i64) -> (r: i64)
    requires
        in_sample_range(v),
    ensures
        r == spec_decompand_sample(mode, v),
        0 <= r <= 65535,
    {
    proof {
        lemma_decompand_sample_range(mode, v);
    }
    let c: u64 = if v < 0 {
        0
    } else if v > 255 {
        255
    } else {
        v as u64
    };
    proof {
        assert(c * c <= 65025) by (nonlinear_arith)
            requires
                0 <= c <= 255,
        ;
    }
    match mode {
        SampleBitMode::SQROOT => ((c * c * 65535) / 65025) as i64,
        SampleBitMode::LIN1 => c as i64,
        SampleBitMode::LIN8 => (c * 8) as i64,
        SampleBitMode::LIN16 => (c * 16) as i64,
        SampleBitMode::UNKNOWN => 0,
    }
}

/// The raster after decompanding every sample under the given mode.
pub open spec fn spec_decompand(mode: SampleBitMode, s: Seq<i64>) -> Seq<i64> {
    Seq::new(s.len(), |i: int| spec_decompand_sample(mode, s[i]))
}

/// Decompands every sample of the raster in place; fails with an
/// unknown-encoding condition exactly when the mode is unknown, leaving the
/// raster unchanged in that case.
pub fn decompand_buffer(buffer: &mut ImageBuffer, mode: SampleBitMode) -> (r: Result<(), Error>)
    requires
        old(buffer).wf(),
    ensures
        final(buffer).wf(),
        final(buffer).width == old(buffer).width,
        final(buffer).height == old(buffer).height,
        final(buffer).spec_is_empty() == old(buffer).spec_is_empty(),
        r is Ok <==> mode != SampleBitMode::UNKNOWN,
        r is Ok ==> final(buffer)@ == spec_decompand(mode, old(buffer)@),
        r is Err ==> final(buffer)@ == old(buffer)@,
        r matches Err(e) ==> e == Error::UnknownEncodingMode,
{
    if matches!(mode, SampleBitMode::UNKNOWN) {
        return Err(Error::UnknownEncodingMode);
    }
    let n = buffer.buffer.len();
    let ghost orig = *buffer;
    let mut i: usize = 0;
    while i < n
        invariant
            i <= n,
            n == buffer@.len(),
            buffer@.len() == orig@.len(),
            buffer.width == orig.width,
            buffer.height == orig.height,
            buffer.empty == orig.empty,
            orig.wf(),
            forall|j: int| 0 <= j < i ==> buffer@[j] == spec_decompand_sample(mode, orig@[j]),
            forall|j: int| 0 <= j < i ==> in_sample_range(#[trigger] buffer@[j]),
            forall|j: int| i <= j < n ==> buffer@[j] == orig@[j],
        decreases n - i,
    {
        let v = buffer.buffer[i];
        proof {
            assert(buffer@[i as int] == orig@[i as int]);
        }
        let d = decompand_sample(mode, v);
        buffer.buffer.set(i, d);
        i = i + 1;
    }
    proof {
        assert(buffer@ =~= spec_decompand(mode, orig@));
    }
    Ok(())
}

} // verus!
