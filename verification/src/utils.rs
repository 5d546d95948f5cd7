//! Pure effect functions over sample buffers.
//!
//! Every function here is a total transform `buffer x params -> buffer`:
//! no shared state, no side effects, and no panic for any input,
//! including empty buffers and thresholds at the extremes.

use vstd::arithmetic::div_mod::{
    lemma_div_is_ordered, lemma_div_multiples_vanish, lemma_fundamental_div_mod_converse,
};
use vstd::prelude::*;

use crate::factor::{scale_sample, Factor};

verus! {

/// True iff the buffer is non-empty. Every 8-bit sample is within
/// `[0, 255]` by construction, so emptiness is the only real check.
pub fn validate_audio_data(audio_data: &Vec<u8>) -> (r: bool)
    ensures
        r == (audio_data@.len() > 0),
{
    audio_data.len() > 0
}

/// Every sample of `data` scaled by `milli / 1000`, truncating toward
/// zero and clamping to the sample range.
pub open spec fn gained(data: Seq<u8>, milli: u32) -> Seq<u8> {
    data.map_values(|s: u8| scale_sample(s, milli))
}

/// Multiplies every sample by `gain`, clamped to the representable
/// maximum of 255. The sample byte is treated as a plain magnitude,
/// not as signed PCM.
pub fn apply_gain(audio_data: Vec<u8>, gain: Factor) -> (r: Vec<u8>)
    ensures
        r@ == gained(audio_data@, gain.milli),
{
    let mut out: Vec<u8> = Vec::new();
    let mut i: usize = 0;
    while i < audio_data.len()
        invariant
            i <= audio_data.len(),
            out@.len() == i,
            forall|j: int| 0 <= j < i ==> out@[j] == scale_sample(audio_data@[j], gain.milli),
        decreases audio_data.len() - i,
    {
        out.push(gain.scale(audio_data[i]));
        i = i + 1;
    }
    proof {
        assert(out@ =~= gained(audio_data@, gain.milli));
    }
    out
}

/// A unit gain is the identity: scaling by one leaves every buffer
/// unchanged.
pub proof fn lemma_unit_gain_is_identity(data: Seq<u8>)
    ensures
        gained(data, 1000) == data,
{
    assert forall|j: int| 0 <= j < data.len() implies gained(data, 1000)[j] == data[j] by {
        crate::factor::lemma_scale_sample_one(data[j]);
    }
    assert(gained(data, 1000) =~= data);
}

/// Gain output always stays within the sample range `[0, 255]`, for
/// every buffer and every non-negative factor.
pub proof fn lemma_gain_stays_in_range(data: Seq<u8>, milli: u32)
    ensures
        forall|j: int| 0 <= j < data.len() ==> 0 <= #[trigger] gained(data, milli)[j] <= 255,
{
}

/// The largest sample of `data`, or 0 for an empty buffer.
pub open spec fn seq_max(data: Seq<u8>) -> u8
    decreases data.len(),
{
    if data.len() == 0 {
        0u8
    } else if data.last() >= seq_max(data.drop_last()) {
        data.last()
    } else {
        seq_max(data.drop_last())
    }
}

/// One sample rescaled toward `target_milli / 1000`: the exact value
/// `sample * target / max`, truncated toward zero and clamped to the
/// sample range. A zero maximum is replaced by 1 so that the rescale
/// never divides by zero.
pub open spec fn normalized_sample(sample: u8, target_milli: u32, max: u8) -> u8 {
    let d = if max == 0 {
        1int
    } else {
        max as int
    };
    let v = (sample as int) * (target_milli as int) / (1000 * d);
    if v > 255 {
        255u8
    } else {
        v as u8
    }
}

/// Every sample of `data` rescaled so that the loudest sample is
/// carried to the target factor.
pub open spec fn normalized(data: Seq<u8>, target_milli: u32) -> Seq<u8> {
    data.map_values(|s: u8| normalized_sample(s, target_milli, seq_max(data)))
}

/// Finds the maximum sample value (1 is used when the buffer is empty
/// or all zero, to avoid division by zero) and rescales every sample by
/// `target_volume / max`, truncating toward zero and clamping to 255.
pub fn normalize_volume(audio_data: Vec<u8>, target_volume: Factor) -> (r: Vec<u8>)
    ensures
        r@ == normalized(audio_data@, target_volume.milli),
{
    let mut max: u8 = 0;
    let mut i: usize = 0;
    while i < audio_data.len()
        invariant
            i <= audio_data.len(),
            max == seq_max(audio_data@.take(i as int)),
        decreases audio_data.len() - i,
    {
        proof {
            assert(audio_data@.take(i + 1 as int).drop_last() =~= audio_data@.take(i as int));
            assert(audio_data@.take(i + 1 as int).last() == audio_data@[i as int]);
        }
        if audio_data[i] > max {
            max = audio_data[i];
        }
        i = i + 1;
    }
    proof {
        assert(audio_data@.take(audio_data@.len() as int) =~= audio_data@);
    }
    let divisor: u64 = if max == 0 {
        1000
    } else {
        1000 * (max as u64)
    };
    let mut out: Vec<u8> = Vec::new();
    let mut k: usize = 0;
    while k < audio_data.len()
        invariant
            k <= audio_data.len(),
            max == seq_max(audio_data@),
            divisor == 1000 * (if max == 0 { 1int } else { max as int }),
            out@.len() == k,
            forall|j: int|
                0 <= j < k ==> out@[j] == normalized_sample(
                    audio_data@[j],
                    target_volume.milli,
                    max,
                ),
        decreases audio_data.len() - k,
    {
        let s = audio_data[k];
        proof {
            assert(s as int * target_volume.milli as int <= 255 * (u32::MAX as int))
                by (nonlinear_arith)
                requires
                    s as int <= 255,
                    target_volume.milli as int <= u32::MAX as int,
            ;
        }
        let wide: u64 = (s as u64) * (target_volume.milli as u64) / divisor;
        if wide > 255 {
            out.push(255);
        } else {
            out.push(wide as u8);
        }
        k = k + 1;
    }
    proof {
        assert(out@ =~= normalized(audio_data@, target_volume.milli));
    }
    out
}

/// Every `factor`-th sample of `data`, starting at index 0: plain
/// stride sampling, not an anti-aliased decimation filter.
pub open spec fn downsampled(data: Seq<u8>, factor: usize) -> Seq<u8> {
    Seq::new(
        (((data.len() + factor - 1) as int / factor as int) as nat),
        |j: int| data[j * factor],
    )
}

/// Keeps every `factor`-th sample starting at index 0.
pub fn downsample(audio_data: Vec<u8>, factor: usize) -> (r: Vec<u8>)
    requires
        factor >= 1,
    ensures
        r@ == downsampled(audio_data@, factor),
{
    let mut out: Vec<u8> = Vec::new();
    let mut i: usize = 0;
    let mut c: usize = 0;
    proof {
        assert(out@.len() * factor == 0) by (nonlinear_arith)
            requires
                out@.len() == 0,
        ;
    }
    while i < audio_data.len()
        invariant
            factor >= 1,
            i <= audio_data.len(),
            c < factor,
            out@.len() * factor == i + c,
            forall|j: int| 0 <= j < out@.len() ==> out@[j] == audio_data@[j * factor],
        decreases audio_data.len() - i,
    {
        if c == 0 {
            proof {
                assert(out@.len() * factor == i);
            }
            out.push(audio_data[i]);
            proof {
                assert((out@.len() - 1) * factor == i) by (nonlinear_arith)
                    requires
                        (out@.len() - 1) * factor == i as int + 0,
                ;
            }
            c = factor - 1;
            proof {
                assert(out@.len() * factor == (out@.len() - 1) * factor + factor)
                    by (nonlinear_arith);
            }
        } else {
            c = c - 1;
        }
        i = i + 1;
    }
    proof {
        let len = audio_data@.len() as int;
        let f = factor as int;
        let n = out@.len() as int;
        assert(n * f == len + c);
        assert(len + f - 1 == n * f + (f - 1 - c));
        lemma_fundamental_div_mod_converse(len + f - 1, f, n, f - 1 - c);
        assert(out@ =~= downsampled(audio_data@, factor));
    }
    out
}

/// True iff some sample of `data` strictly exceeds `threshold`.
pub open spec fn has_sample_above(data: Seq<u8>, threshold: u8) -> bool {
    exists|i: int| 0 <= i < data.len() && data[i] > threshold
}

/// Cuts the buffer down to the inclusive range from the first to the
/// last sample strictly above `threshold`. When no sample exceeds the
/// threshold the whole buffer comes back unchanged (the documented
/// fallback: start defaults to 0 and end to the last index). An empty
/// buffer comes back empty.
pub fn trim_silence(audio_data: Vec<u8>, threshold: u8) -> (r: Vec<u8>)
    ensures
        !has_sample_above(audio_data@, threshold) ==> r@ == audio_data@,
        has_sample_above(audio_data@, threshold) ==> exists|s: int, e: int|
            0 <= s <= e < audio_data@.len() && audio_data@[s] > threshold && audio_data@[e]
                > threshold && (forall|j: int| 0 <= j < s ==> audio_data@[j] <= threshold) && (
            forall|j: int| e < j < audio_data@.len() ==> audio_data@[j] <= threshold) && r@
                == audio_data@.subrange(s, e + 1),
{
    let len = audio_data.len();
    let mut start: usize = 0;
    let mut found: bool = false;
    while !found && start < len
        invariant
            len == audio_data@.len(),
            start <= len,
            forall|j: int| 0 <= j < start ==> audio_data@[j] <= threshold,
            found ==> start < len && audio_data@[start as int] > threshold,
        decreases len - start, if found { 0int } else { 1int },
    {
        if audio_data[start] > threshold {
            found = true;
        } else {
            start = start + 1;
        }
    }
    if !found {
        // no sample exceeds the threshold: the whole buffer comes back
        return audio_data;
    }
    let mut end: usize = len - 1;
    let mut end_found: bool = false;
    while !end_found && end > start
        invariant
            len == audio_data@.len(),
            start <= end < len,
            audio_data@[start as int] > threshold,
            forall|j: int| end < j < len ==> audio_data@[j] <= threshold,
            end_found ==> audio_data@[end as int] > threshold,
        decreases end, if end_found { 0int } else { 1int },
    {
        if audio_data[end] > threshold {
            end_found = true;
        } else {
            end = end - 1;
        }
    }
    let mut out: Vec<u8> = Vec::new();
    let mut i: usize = start;
    while i <= end
        invariant
            len == audio_data@.len(),
            start <= i <= end + 1,
            end < len,
            out@ == audio_data@.subrange(start as int, i as int),
        decreases end + 1 - i,
    {
        out.push(audio_data[i]);
        proof {
            assert(out@ =~= audio_data@.subrange(start as int, i + 1 as int));
        }
        i = i + 1;
    }
    proof {
        let s = start as int;
        let e = end as int;
        assert(audio_data@[e] > threshold);
        assert(0 <= s <= e < audio_data@.len() && audio_data@[s] > threshold && audio_data@[e]
            > threshold && (forall|j: int| 0 <= j < s ==> audio_data@[j] <= threshold) && (
        forall|j: int| e < j < audio_data@.len() ==> audio_data@[j] <= threshold) && out@
            == audio_data@.subrange(s, e + 1));
    }
    out
}

/// `sample` scaled by the linear ramp `i / duration`, truncating toward
/// zero. Meaningful for `0 <= i < duration`; the value never exceeds
/// the sample itself.
pub open spec fn ramp_sample(sample: u8, i: int, duration: int) -> u8 {
    ((sample as int) * i / duration) as u8
}

/// Scales one sample by `i / duration`.
fn ramp(sample: u8, i: usize, duration: usize) -> (r: u8)
    requires
        i < duration,
    ensures
        r == ramp_sample(sample, i as int, duration as int),
        r <= sample,
{
    proof {
        let s = sample as int;
        let ii = i as int;
        let d = duration as int;
        assert(s * ii <= 255 * (usize::MAX as int)) by (nonlinear_arith)
            requires
                0 <= s <= 255,
                0 <= ii <= usize::MAX as int,
        ;
        assert(s * ii <= s * d) by (nonlinear_arith)
            requires
                0 <= s && 0 <= ii <= d,
        ;
        lemma_div_is_ordered(s * ii, s * d, d);
        lemma_div_multiples_vanish(s, d);
        assert(d * s == s * d) by (nonlinear_arith);
        assert(s * ii / d <= s);
        assert(s * ii >= 0) by (nonlinear_arith)
            requires
                s >= 0 && ii >= 0,
        ;
        lemma_div_is_ordered(0, s * ii, d);
    }
    let wide: u128 = (sample as u128) * (i as u128) / (duration as u128);
    wide as u8
}

/// `data` with its first `min(duration, len)` samples scaled by the
/// linear ramp `i / duration`; samples from `duration` on are
/// untouched.
pub open spec fn faded_in(data: Seq<u8>, duration: usize) -> Seq<u8> {
    data.map(
        |i: int, s: u8|
            if i < duration {
                ramp_sample(s, i, duration as int)
            } else {
                s
            },
    )
}

/// Scales the first `min(duration, len)` samples by a linear ramp
/// rising from silence; the rest of the buffer is untouched.
pub fn fade_in(audio_data: Vec<u8>, duration: usize) -> (r: Vec<u8>)
    ensures
        r@ == faded_in(audio_data@, duration),
{
    let mut out: Vec<u8> = Vec::new();
    let mut i: usize = 0;
    while i < audio_data.len()
        invariant
            i <= audio_data.len(),
            out@.len() == i,
            forall|j: int| 0 <= j < i ==> out@[j] == faded_in(audio_data@, duration)[j],
        decreases audio_data.len() - i,
    {
        if i < duration {
            out.push(ramp(audio_data[i], i, duration));
        } else {
            out.push(audio_data[i]);
        }
        i = i + 1;
    }
    proof {
        assert(out@ =~= faded_in(audio_data@, duration));
    }
    out
}

/// `data` with its last `min(duration, len)` samples scaled by a linear
/// ramp falling toward silence at the final sample; the rest of the
/// buffer is untouched.
pub open spec fn faded_out(data: Seq<u8>, duration: usize) -> Seq<u8> {
    data.map(
        |i: int, s: u8|
            if data.len() - 1 - i < duration {
                ramp_sample(s, data.len() - 1 - i, duration as int)
            } else {
                s
            },
    )
}

/// Scales the last `min(duration, len)` samples by a linear ramp
/// toward silence at the final sample; the rest of the buffer is
/// untouched.
pub fn fade_out(audio_data: Vec<u8>, duration: usize) -> (r: Vec<u8>)
    ensures
        r@ == faded_out(audio_data@, duration),
{
    let len = audio_data.len();
    let mut out: Vec<u8> = Vec::new();
    let mut i: usize = 0;
    while i < len
        invariant
            len == audio_data@.len(),
            i <= len,
            out@.len() == i,
            forall|j: int| 0 <= j < i ==> out@[j] == faded_out(audio_data@, duration)[j],
        decreases len - i,
    {
        if len - 1 - i < duration {
            out.push(ramp(audio_data[i], len - 1 - i, duration));
        } else {
            out.push(audio_data[i]);
        }
        i = i + 1;
    }
    proof {
        assert(out@ =~= faded_out(audio_data@, duration));
    }
    out
}

/// The complementary factor `1 - pan` in thousandths, saturating at
/// zero for factors above one (a negative float weight would have been
/// clamped to a zero sample anyway).
pub open spec fn complement_milli(milli: u32) -> u32 {
    if milli <= 1000 {
        (1000 - milli) as u32
    } else {
        0u32
    }
}

/// `data` with its first half (up to the midpoint) scaled by `1 - pan`
/// and the rest scaled by `pan`.
pub open spec fn panned(data: Seq<u8>, milli: u32) -> Seq<u8> {
    data.map(
        |i: int, s: u8|
            if i < data.len() as int / 2 {
                scale_sample(s, complement_milli(milli))
            } else {
                scale_sample(s, milli)
            },
    )
}

/// Splits the buffer at its midpoint, scales the leading half by
/// `1 - pan` and the trailing half by `pan`, clamping each sample to
/// 255, and concatenates the halves again. This reweights leading
/// against trailing buffer halves; it is not an interleaved-stereo pan
/// law.
pub fn apply_pan(audio_data: Vec<u8>, pan: Factor) -> (r: Vec<u8>)
    ensures
        r@ == panned(audio_data@, pan.milli),
{
    let complement = if pan.milli <= 1000 {
        Factor::from_milli(1000 - pan.milli)
    } else {
        Factor::from_milli(0)
    };
    let mid = audio_data.len() / 2;
    let mut out: Vec<u8> = Vec::new();
    let mut i: usize = 0;
    while i < audio_data.len()
        invariant
            i <= audio_data.len(),
            mid == audio_data@.len() as int / 2,
            complement.milli == complement_milli(pan.milli),
            out@.len() == i,
            forall|j: int| 0 <= j < i ==> out@[j] == panned(audio_data@, pan.milli)[j],
        decreases audio_data.len() - i,
    {
        if i < mid {
            out.push(complement.scale(audio_data[i]));
        } else {
            out.push(pan.scale(audio_data[i]));
        }
        i = i + 1;
    }
    proof {
        assert(out@ =~= panned(audio_data@, pan.milli));
    }
    out
}

/// Divides the buffer at its midpoint into two halves: the leading
/// half (shorter by one for odd lengths) and the trailing half.
pub fn split_audio_channels(audio_data: Vec<u8>) -> (r: (Vec<u8>, Vec<u8>))
    ensures
        r.0@ == audio_data@.take(audio_data@.len() as int / 2),
        r.1@ == audio_data@.skip(audio_data@.len() as int / 2),
{
    let mid = audio_data.len() / 2;
    let mut left: Vec<u8> = Vec::new();
    let mut i: usize = 0;
    while i < mid
        invariant
            mid <= audio_data@.len(),
            i <= mid,
            left@ == audio_data@.take(i as int),
        decreases mid - i,
    {
        left.push(audio_data[i]);
        proof {
            assert(left@ =~= audio_data@.take(i + 1 as int));
        }
        i = i + 1;
    }
    let mut right: Vec<u8> = Vec::new();
    let mut k: usize = mid;
    while k < audio_data.len()
        invariant
            mid <= k <= audio_data@.len(),
            right@ == audio_data@.subrange(mid as int, k as int),
        decreases audio_data.len() - k,
    {
        right.push(audio_data[k]);
        proof {
            assert(right@ =~= audio_data@.subrange(mid as int, k + 1 as int));
        }
        k = k + 1;
    }
    (left, right)
}

/// The two channel halves interleaved by index: pairs
/// `left[i], right[i]` while both sides last, then whatever the longer
/// side still holds, in order.
pub open spec fn merged(left: Seq<u8>, right: Seq<u8>) -> Seq<u8> {
    let n = vstd::math::min(left.len() as int, right.len() as int);
    Seq::new(
        left.len() + right.len(),
        |j: int|
            if j < 2 * n {
                if j % 2 == 0 {
                    left[j / 2]
                } else {
                    right[j / 2]
                }
            } else if left.len() > right.len() {
                left[j - n]
            } else {
                right[j - n]
            },
    )
}

/// Interleaves the two buffers by loop index, appending whichever side
/// still has samples once the shorter side is exhausted. This is
/// positional concatenation by index parity, not a true left/right PCM
/// interleave.
pub fn merge_audio_channels(left: Vec<u8>, right: Vec<u8>) -> (r: Vec<u8>)
    ensures
        r@ == merged(left@, right@),
{
    let n = if left.len() < right.len() {
        left.len()
    } else {
        right.len()
    };
    let mut out: Vec<u8> = Vec::new();
    let mut i: usize = 0;
    while i < n
        invariant
            n == vstd::math::min(left@.len() as int, right@.len() as int),
            i <= n,
            out@.len() == 2 * i,
            forall|j: int| 0 <= j < 2 * i ==> out@[j] == merged(left@, right@)[j],
        decreases n - i,
    {
        out.push(left[i]);
        out.push(right[i]);
        proof {
            assert((2 * i as int) % 2 == 0 && (2 * i as int) / 2 == i as int);
            assert((2 * i as int + 1) % 2 == 1 && (2 * i as int + 1) / 2 == i as int);
        }
        i = i + 1;
    }
    let mut k: usize = n;
    if left.len() > n {
        while k < left.len()
            invariant
                n == vstd::math::min(left@.len() as int, right@.len() as int),
                n == right@.len(),
                n <= k <= left@.len(),
                out@.len() == n + k,
                forall|j: int| 0 <= j < n + k ==> out@[j] == merged(left@, right@)[j],
            decreases left.len() - k,
        {
            out.push(left[k]);
            k = k + 1;
        }
    } else {
        while k < right.len()
            invariant
                n == vstd::math::min(left@.len() as int, right@.len() as int),
                n == left@.len(),
                n <= k <= right@.len(),
                out@.len() == n + k,
                forall|j: int| 0 <= j < n + k ==> out@[j] == merged(left@, right@)[j],
            decreases right.len() - k,
        {
            out.push(right[k]);
            k = k + 1;
        }
    }
    proof {
        assert(out@ =~= merged(left@, right@));
    }
    out
}

/// Splitting and re-merging never loses a sample: the round trip
/// preserves the buffer length, for every buffer.
pub proof fn lemma_split_merge_preserves_length(data: Seq<u8>)
    ensures
        merged(data.take(data.len() as int / 2), data.skip(data.len() as int / 2)).len()
            == data.len(),
{
}

/// True iff the buffer already interleaves its own halves under the
/// midpoint convention: every even position holds the matching sample
/// of the leading half and every odd position the matching sample of
/// the trailing half.
pub open spec fn halves_interleaved(data: Seq<u8>) -> bool {
    forall|i: int|
        0 <= i < data.len() as int / 2 ==> #[trigger] data[2 * i] == data[i] && data[2 * i + 1]
            == data[data.len() as int / 2 + i]
}

/// Splitting an even-length buffer and merging the halves again gives
/// back the very same buffer whenever the buffer's own interleaving
/// matches the midpoint split/merge convention.
pub proof fn lemma_split_merge_round_trip(data: Seq<u8>)
    requires
        data.len() % 2 == 0,
        halves_interleaved(data),
    ensures
        merged(data.take(data.len() as int / 2), data.skip(data.len() as int / 2)) == data,
{
    let n = data.len() as int / 2;
    let l = data.take(n);
    let r = data.skip(n);
    let m = merged(l, r);
    assert forall|j: int| 0 <= j < data.len() implies m[j] == data[j] by {
        let i = j / 2;
        assert(0 <= i < n);
        if j % 2 == 0 {
            assert(j == 2 * i);
            assert(m[j] == l[i] == data[i]);
            assert(data[2 * i] == data[i]);
        } else {
            assert(j == 2 * i + 1);
            assert(m[j] == r[i] == data[n + i]);
            assert(data[2 * i] == data[i]);
            assert(data[2 * i + 1] == data[n + i]);
        }
    }
    assert(m =~= data);
}

/// The ordered list of indices whose sample strictly exceeds
/// `threshold`: every listed index is such a peak, every peak is
/// listed, and the indices come back strictly increasing.
pub fn detect_peaks(audio_data: &Vec<u8>, threshold: u8) -> (r: Vec<usize>)
    ensures
        forall|j: int|
            0 <= j < r@.len() ==> #[trigger] r@[j] < audio_data@.len() && audio_data@[r@[j] as int]
                > threshold,
        forall|j: int, k: int| 0 <= j < k < r@.len() ==> r@[j] < r@[k],
        forall|i: int|
            0 <= i < audio_data@.len() && audio_data@[i] > threshold ==> r@.contains(i as usize),
{
    let mut out: Vec<usize> = Vec::new();
    let mut i: usize = 0;
    while i < audio_data.len()
        invariant
            i <= audio_data.len(),
            forall|j: int|
                0 <= j < out@.len() ==> #[trigger] out@[j] < i && audio_data@[out@[j] as int]
                    > threshold,
            forall|j: int, k: int| 0 <= j < k < out@.len() ==> out@[j] < out@[k],
            forall|p: int|
                0 <= p < i && audio_data@[p] > threshold ==> out@.contains(p as usize),
        decreases audio_data.len() - i,
    {
        if audio_data[i] > threshold {
            let ghost prev = out@;
            out.push(i);
            proof {
                assert(out@[out@.len() - 1] == i as usize);
                assert forall|p: int|
                    0 <= p < i + 1 && audio_data@[p] > threshold implies out@.contains(
                    p as usize,
                ) by {
                    if p < i {
                        assert(prev.contains(p as usize));
                        let w = choose|w: int| 0 <= w < prev.len() && prev[w] == p as usize;
                        assert(out@[w] == p as usize);
                    } else {
                        assert(out@[out@.len() - 1] == p as usize);
                    }
                }
            }
        } else {
            proof {
                assert forall|p: int|
                    0 <= p < i + 1 && audio_data@[p] > threshold implies out@.contains(
                    p as usize,
                ) by {
                    assert(p < i);
                }
            }
        }
        i = i + 1;
    }
    out
}

/// Fading in and then fading out with durations at least the buffer
/// length drives both buffer ends to silence: the first and the last
/// sample of the result are 0.
pub proof fn lemma_full_fade_silences_ends(data: Seq<u8>, d_in: usize, d_out: usize)
    requires
        data.len() > 0,
        d_in >= data.len(),
        d_out >= data.len(),
    ensures
        faded_out(faded_in(data, d_in), d_out).first() == 0,
        faded_out(faded_in(data, d_in), d_out).last() == 0,
{
    let a = faded_in(data, d_in);
    let b = faded_out(a, d_out);
    let len = data.len() as int;
    assert(a[0] == ramp_sample(data[0], 0, d_in as int));
    assert(a[0] == 0);
    assert(b[len - 1] == ramp_sample(a[len - 1], 0, d_out as int));
    assert(b[len - 1] == 0);
    assert(b[0] == ramp_sample(a[0], len - 1, d_out as int));
    assert(0int * (len - 1) == 0) by (nonlinear_arith);
    assert(b[0] == 0);
}

} // verus!
