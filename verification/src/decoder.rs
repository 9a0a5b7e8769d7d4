//! The decoder: a fixed-capacity circular transition log together with the
//! edge-detecting recorder that fills it and the classifier that reads it.

use vstd::prelude::*;
use vstd::pervasive::VecAdditionalExecFns;
use crate::classify::{decode_slots, spec_decode, tokens_of};
use crate::code::Code;
use crate::model::{
    initial_model, records, records_of, slot_order, spec_tick, wf, DecoderModel, LENGTH,
};
use crate::render::{gap_durations, mark_durations, render_durations, spec_render};
use crate::settings::DecoderSettings;

verus! {

/// Decodes a sampled on/off signal into Morse tokens.
///
/// The caller reports the sampled level once per poll cycle through
/// [`tick`](MorseDecoder::tick), together with the current time in
/// milliseconds. Each level change is recorded as a transition: the time
/// elapsed since the previous transition and the new level. The log holds the
/// [`LENGTH`] most recent transitions; once it is full, every new transition
/// silently overwrites the oldest one.
pub struct MorseDecoder {
    ring: Vec<(u64, bool)>,
    index: usize,
    last_time_ms: u64,
    last_on: bool,
}

impl View for MorseDecoder {
    type V = DecoderModel;

    closed spec fn view(&self) -> DecoderModel {
        DecoderModel {
            ring: self.ring@,
            index: self.index as int,
            last_time_ms: self.last_time_ms,
            last_on: self.last_on,
        }
    }
}

impl MorseDecoder {
    /// Creates a decoder whose log is empty, with the signal taken to be off
    /// and `now_ms` as the reference time for the first transition.
    pub fn new(now_ms: u64) -> (decoder: MorseDecoder)
        ensures
            decoder@ == initial_model(now_ms),
            wf(decoder@),
    {
        let mut ring: Vec<(u64, bool)> = Vec::new();
        let mut i: usize = 0;
        while i < LENGTH
            invariant
                i <= LENGTH,
                ring@ =~= Seq::new(i as nat, |k: int| (u64::MAX, false)),
            decreases LENGTH - i,
        {
            ring.push((u64::MAX, false));
            i = i + 1;
        }
        let decoder = MorseDecoder { ring, index: 0, last_time_ms: now_ms, last_on: false };
        proof {
            assert(decoder@.ring =~= initial_model(now_ms).ring);
        }
        decoder
    }

    /// Reports the level sampled at `now_ms`. If the level equals the one
    /// last seen, nothing changes; otherwise the transition is recorded,
    /// overwriting the oldest slot. A `now_ms` earlier than the previous
    /// transition time is tolerated: the recorded duration is clamped to
    /// zero.
    pub fn tick(&mut self, on: bool, now_ms: u64)
        requires
            wf(old(self)@),
        ensures
            final(self)@ == spec_tick(old(self)@, on, now_ms),
            wf(final(self)@),
            on == old(self)@.last_on ==> *final(self) == *old(self),
    {
        if self.last_on != on {
            self.index = (self.index + 1) % LENGTH;
            let duration: u64 = if now_ms >= self.last_time_ms {
                now_ms - self.last_time_ms
            } else {
                0
            };
            self.ring.set(self.index, (duration, on));
            self.last_on = on;
            self.last_time_ms = now_ms;
        }
    }

    /// Empties the log and restarts the recorder, with the signal taken to
    /// be off and `now_ms` as the new reference time.
    pub fn reset(&mut self, now_ms: u64)
        requires
            wf(old(self)@),
        ensures
            final(self)@ == initial_model(now_ms),
            wf(final(self)@),
    {
        let mut i: usize = 0;
        while i < LENGTH
            invariant
                i <= LENGTH,
                self.ring@.len() == LENGTH,
                forall|k: int| 0 <= k < i ==> self.ring@[k] == (u64::MAX, false),
            decreases LENGTH - i,
        {
            self.ring.set(i, (u64::MAX, false));
            i = i + 1;
        }
        self.index = 0;
        self.last_time_ms = now_ms;
        self.last_on = false;
        proof {
            assert(self@.ring =~= initial_model(now_ms).ring);
        }
    }

    /// The recorded transitions in chronological order, oldest first: the
    /// elapsed duration in milliseconds and the level switched to.
    pub fn transitions(&self) -> (recs: Vec<(u64, bool)>)
        requires
            wf(self@),
        ensures
            recs@ == records(self@),
    {
        let mut recs: Vec<(u64, bool)> = Vec::new();
        let mut k: usize = 0;
        while k < LENGTH
            invariant
                wf(self@),
                k <= LENGTH,
                recs@ == records_of(slot_order(self@).take(k as int)),
            decreases LENGTH - k,
        {
            let i = (self.index + 1 + k) % LENGTH;
            let slot = self.ring[i];
            proof {
                assert(slot_order(self@)[k as int] == slot);
                assert(slot_order(self@).take(k + 1).drop_last() =~= slot_order(self@).take(
                    k as int,
                ));
            }
            if slot.0 != u64::MAX {
                recs.push(slot);
            }
            k = k + 1;
        }
        proof {
            assert(slot_order(self@).take(LENGTH as int) =~= slot_order(self@));
        }
        recs
    }

    /// Renders the diagnostic table: the recorded mark durations and gap
    /// durations as two columns, each ranked descending on its own, the
    /// shorter column padded with blanks. The table deliberately discards
    /// chronological order; it is a distribution snapshot, not a timeline.
    /// Reading the log changes nothing: repeated calls with no tick or reset
    /// in between return the same text.
    pub fn display(&self) -> (text: String)
        requires
            wf(self@),
        ensures
            text@ == spec_render(self@),
    {
        let mut mark_times: Vec<u64> = Vec::new();
        let mut gap_times: Vec<u64> = Vec::new();
        let mut i: usize = 0;
        while i < LENGTH
            invariant
                wf(self@),
                i <= LENGTH,
                mark_times@ == mark_durations(self@.ring.take(i as int)),
                gap_times@ == gap_durations(self@.ring.take(i as int)),
            decreases LENGTH - i,
        {
            let (duration, on) = self.ring[i];
            proof {
                assert(self@.ring.take(i + 1).drop_last() =~= self@.ring.take(i as int));
                assert(self@.ring.take(i + 1).last() == (duration, on));
            }
            if duration != u64::MAX {
                if on {
                    gap_times.push(duration);
                } else {
                    mark_times.push(duration);
                }
            }
            i = i + 1;
        }
        proof {
            assert(self@.ring.take(LENGTH as int) =~= self@.ring);
        }
        render_durations(&mark_times, &gap_times)
    }

    /// Classifies the recorded transitions, oldest first, under the given
    /// thresholds and returns the resulting tokens. Reading the log changes
    /// nothing: repeated calls with no tick or reset in between return the
    /// same tokens.
    pub fn decode(&self, settings: &DecoderSettings) -> (code: Vec<Code>)
        requires
            wf(self@),
        ensures
            code@ == spec_decode(self@, *settings),
    {
        let mut code: Vec<Code> = Vec::new();
        let mut k: usize = 0;
        while k < LENGTH
            invariant
                wf(self@),
                k <= LENGTH,
                code@ == decode_slots(slot_order(self@).take(k as int), *settings),
            decreases LENGTH - k,
        {
            let i = (self.index + 1 + k) % LENGTH;
            let (duration, on) = self.ring[i];
            proof {
                assert(slot_order(self@)[k as int] == (duration, on));
                assert(slot_order(self@).take(k + 1).drop_last() =~= slot_order(self@).take(
                    k as int,
                ));
            }
            if duration != u64::MAX {
                if on {
                    // The signal switched on: the slot measures the gap that
                    // just ended.
                    if duration < settings.letter {
                        // Spacing between the elements of one letter.
                    } else if duration < settings.letter_word {
                        code.push(Code::Short);
                    } else {
                        code.push(Code::Long);
                    }
                } else {
                    // The signal switched off: the slot measures the mark
                    // that just ended.
                    if duration < settings.dit_dah {
                        code.push(Code::Dit);
                    } else {
                        code.push(Code::Dah);
                    }
                }
            }
            proof {
                assert(code@ =~= decode_slots(slot_order(self@).take(k as int), *settings)
                    + tokens_of(slot_order(self@)[k as int], *settings));
            }
            k = k + 1;
        }
        proof {
            assert(slot_order(self@).take(LENGTH as int) =~= slot_order(self@));
        }
        code
    }
}

} // verus!
