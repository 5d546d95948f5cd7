//! The processor: the single dispatch point through which callers apply
//! a transformer to a buffer.

use vstd::prelude::*;

use crate::voice_transformer::Transformer;

verus! {

/// A stateless dispatcher. Applying a transform delegates directly to
/// the transformer; swapping transformer variants needs no processor
/// change.
pub struct AudioProcessor {}

impl AudioProcessor {
    pub fn new() -> (r: AudioProcessor) {
        AudioProcessor {  }
    }

    /// Applies `transformer` to `audio_data` and returns the result:
    /// a total function with no internal state, retries or failure
    /// modes.
    pub fn apply_transform<T: Transformer>(&self, audio_data: Vec<u8>, transformer: T) -> (r: Vec<
        u8,
    >)
        ensures
            r@ == transformer.transformed(audio_data@),
    {
        transformer.transform(audio_data)
    }
}

} // verus!
