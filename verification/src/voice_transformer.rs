//! The pluggable transformer abstraction: named, parameterized pure
//! transforms from buffer to buffer, selected by a name string at run
//! time. An unrecognized name selects the identity transform, never an
//! error.

use vstd::prelude::*;
use vstd::string::StrSliceExecFns;

use crate::factor::Factor;
use crate::utils::gained;

verus! {

/// A parameterized pure transform from buffer to buffer: total over
/// any buffer, including empty ones, with no failure modes.
pub trait Transformer {
    /// The mathematical meaning of the transform.
    spec fn transformed(&self, data: Seq<u8>) -> Seq<u8>;

    /// Applies the transform to the buffer.
    fn transform(&self, audio_data: Vec<u8>) -> (r: Vec<u8>)
        ensures
            r@ == self.transformed(audio_data@),
    ;
}

/// Scales every sample by `intensity`, truncating toward zero and
/// clamping to the sample range, exactly as a gain does.
pub struct RobotTransformer {
    pub intensity: Factor,
}

impl RobotTransformer {
    pub fn new(intensity: Factor) -> (r: Self)
        ensures
            r.intensity == intensity,
    {
        RobotTransformer { intensity }
    }
}

impl Transformer for RobotTransformer {
    open spec fn transformed(&self, data: Seq<u8>) -> Seq<u8> {
        gained(data, self.intensity.milli)
    }

    fn transform(&self, audio_data: Vec<u8>) -> (r: Vec<u8>) {
        crate::utils::apply_gain(audio_data, self.intensity)
    }
}

/// Scales every sample by `pitch`. Despite the name this is amplitude
/// scaling that reuses the pitch parameter as a multiplier, not a
/// resampling or spectral pitch shift; the observable behavior is kept
/// deliberately.
pub struct PitchShiftTransformer {
    pub pitch: Factor,
}

impl PitchShiftTransformer {
    pub fn new(pitch: Factor) -> (r: Self)
        ensures
            r.pitch == pitch,
    {
        PitchShiftTransformer { pitch }
    }
}

impl Transformer for PitchShiftTransformer {
    open spec fn transformed(&self, data: Seq<u8>) -> Seq<u8> {
        gained(data, self.pitch.milli)
    }

    fn transform(&self, audio_data: Vec<u8>) -> (r: Vec<u8>) {
        crate::utils::apply_gain(audio_data, self.pitch)
    }
}

/// The identity transform: every buffer comes back unchanged.
pub struct IdentityTransformer {}

impl Transformer for IdentityTransformer {
    open spec fn transformed(&self, data: Seq<u8>) -> Seq<u8> {
        data
    }

    fn transform(&self, audio_data: Vec<u8>) -> (r: Vec<u8>) {
        audio_data
    }
}

/// A transformer selected by name: one tagged variant per recognized
/// name, and an explicit identity variant for every other name.
pub enum NamedTransformer {
    Robot(RobotTransformer),
    PitchShift(PitchShiftTransformer),
    Identity(IdentityTransformer),
}

impl Transformer for NamedTransformer {
    open spec fn transformed(&self, data: Seq<u8>) -> Seq<u8> {
        match self {
            NamedTransformer::Robot(t) => t.transformed(data),
            NamedTransformer::PitchShift(t) => t.transformed(data),
            NamedTransformer::Identity(t) => t.transformed(data),
        }
    }

    fn transform(&self, audio_data: Vec<u8>) -> (r: Vec<u8>) {
        match self {
            NamedTransformer::Robot(t) => t.transform(audio_data),
            NamedTransformer::PitchShift(t) => t.transform(audio_data),
            NamedTransformer::Identity(t) => t.transform(audio_data),
        }
    }
}

/// The transformer that a name selects: `robot` and `pitch_shift`
/// select the corresponding variant with its scalar parameter; any
/// other name selects the identity transform.
pub open spec fn transformer_for(name: Seq<char>, intensity: Factor, pitch: Factor)
    -> NamedTransformer {
    if name == "robot"@ {
        NamedTransformer::Robot(RobotTransformer { intensity })
    } else if name == "pitch_shift"@ {
        NamedTransformer::PitchShift(PitchShiftTransformer { pitch })
    } else {
        NamedTransformer::Identity(IdentityTransformer {  })
    }
}

/// Character-by-character string equality.
fn str_eq(a: &str, b: &str) -> (r: bool)
    ensures
        r == (a@ == b@),
{
    let alen = a.unicode_len();
    let blen = b.unicode_len();
    if alen != blen {
        return false;
    }
    let mut i: usize = 0;
    while i < alen
        invariant
            alen == a@.len(),
            alen == b@.len(),
            i <= alen,
            forall|j: int| 0 <= j < i ==> a@[j] == b@[j],
        decreases alen - i,
    {
        if a.get_char(i) != b.get_char(i) {
            return false;
        }
        i = i + 1;
    }
    proof {
        assert(a@ =~= b@);
    }
    true
}

/// Builds the transformer that `name` selects, threading the scalar
/// parameters from the caller's settings.
pub fn transformer_for_name(name: &str, intensity: Factor, pitch: Factor) -> (t: NamedTransformer)
    ensures
        t == transformer_for(name@, intensity, pitch),
{
    if str_eq(name, "robot") {
        NamedTransformer::Robot(RobotTransformer::new(intensity))
    } else if str_eq(name, "pitch_shift") {
        NamedTransformer::PitchShift(PitchShiftTransformer::new(pitch))
    } else {
        NamedTransformer::Identity(IdentityTransformer {  })
    }
}

/// Selecting an unrecognized transformer name is the identity: for any
/// name other than the two recognized ones, the selected transformer
/// returns every input buffer unchanged.
pub proof fn lemma_unrecognized_name_is_identity(
    name: Seq<char>,
    intensity: Factor,
    pitch: Factor,
    data: Seq<u8>,
)
    requires
        name != "robot"@,
        name != "pitch_shift"@,
    ensures
        transformer_for(name, intensity, pitch).transformed(data) == data,
{
}

} // verus!
