//! Classification of recorded durations into Morse tokens.

use vstd::prelude::*;
use crate::code::Code;
use crate::model::{is_record, slot_order, DecoderModel};
use crate::settings::DecoderSettings;

verus! {

/// The tokens a single slot contributes. An unwritten slot contributes
/// nothing. A slot written when the signal switched on measures the gap that
/// just ended: a gap below `letter` is spacing inside one letter and carries
/// no token, one below `letter_word` separates letters, any longer gap
/// separates words. A slot written when the signal switched off measures the
/// mark that just ended: below `dit_dah` a dit, otherwise a dah.
pub open spec fn tokens_of(slot: (u64, bool), settings: DecoderSettings) -> Seq<Code> {
    if !is_record(slot) {
        Seq::empty()
    } else if slot.1 {
        if slot.0 < settings.letter {
            Seq::empty()
        } else if slot.0 < settings.letter_word {
            seq![Code::Short]
        } else {
            seq![Code::Long]
        }
    } else {
        if slot.0 < settings.dit_dah {
            seq![Code::Dit]
        } else {
            seq![Code::Dah]
        }
    }
}

/// The tokens of a slot sequence, in order.
pub open spec fn decode_slots(slots: Seq<(u64, bool)>, settings: DecoderSettings) -> Seq<Code>
    decreases slots.len(),
{
    if slots.len() == 0 {
        Seq::empty()
    } else {
        decode_slots(slots.drop_last(), settings) + tokens_of(slots.last(), settings)
    }
}

/// The decoded output: the tokens of the recorded transitions taken in
/// chronological order, oldest first.
pub open spec fn spec_decode(m: DecoderModel, settings: DecoderSettings) -> Seq<Code> {
    decode_slots(slot_order(m), settings)
}

} // verus!
