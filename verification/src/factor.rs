//! Fixed-point scale factors for amplitude transforms.

use vstd::prelude::*;

verus! {

/// A non-negative fixed-point scale factor, stored in thousandths:
/// `milli == 1000` is a factor of one, `milli == 500` one half,
/// `milli == 2000` a doubling.
#[derive(Clone, Copy, PartialEq, Eq, Structural, Debug)]
pub struct Factor {
    pub milli: u32,
}

/// `sample` scaled by `milli / 1000`: the product is truncated toward
/// zero, then clamped to the sample range `[0, 255]`.
pub open spec fn scale_sample(sample: u8, milli: u32) -> u8 {
    let v = (sample as int) * (milli as int) / 1000;
    if v > 255 {
        255u8
    } else {
        v as u8
    }
}

impl Factor {
    /// The factor `milli / 1000`.
    pub fn from_milli(milli: u32) -> (r: Factor)
        ensures
            r.milli == milli,
    {
        Factor { milli }
    }

    /// The identity factor, one.
    pub fn one() -> (r: Factor)
        ensures
            r.milli == 1000,
    {
        Factor { milli: 1000 }
    }

    /// Scales one sample by this factor, truncating toward zero and
    /// clamping to the sample range.
    pub fn scale(self, sample: u8) -> (r: u8)
        ensures
            r == scale_sample(sample, self.milli),
    {
        proof {
            assert(sample as int * self.milli as int <= 255 * (u32::MAX as int))
                by (nonlinear_arith)
                requires
                    sample as int <= 255,
                    self.milli as int <= u32::MAX as int,
            ;
        }
        let wide: u64 = (sample as u64) * (self.milli as u64);
        let scaled: u64 = wide / 1000;
        if scaled > 255 {
            255
        } else {
            scaled as u8
        }
    }
}

/// The identity factor leaves every sample unchanged.
pub proof fn lemma_scale_sample_one(sample: u8)
    ensures
        scale_sample(sample, 1000) == sample,
{
    assert((sample as int) * 1000 / 1000 == sample as int);
}

} // verus!
