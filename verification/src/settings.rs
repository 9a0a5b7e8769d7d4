//! Classification thresholds, supplied by the caller.

use vstd::prelude::*;

verus! {

/// Duration thresholds, in milliseconds. A mark shorter than `dit_dah` is a
/// dit, any other mark a dah. A gap shorter than `letter` carries no token,
/// one shorter than `letter_word` is a letter gap, any other gap a word gap.
/// Every comparison is a strict less-than, so a duration exactly equal to a
/// threshold falls into the longer category. The ordering of the three values
/// is the caller's responsibility and is not validated.
#[derive(Clone, Copy)]
pub struct DecoderSettings {
    pub dit_dah: u64,
    pub letter: u64,
    pub letter_word: u64,
}

impl Default for DecoderSettings {
    fn default() -> (settings: Self)
        ensures
            settings == (DecoderSettings { dit_dah: 300u64, letter: 500u64, letter_word: 2000u64 }),
    {
        Self { dit_dah: 300, letter: 500, letter_word: 2000 }
    }
}

} // verus!
