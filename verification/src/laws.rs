//! Laws of the recorder and the classifier, stated over the model.

use vstd::prelude::*;
use crate::classify::{decode_slots, spec_decode, tokens_of};
use crate::code::Code;
use crate::model::{
    initial_model, is_record, lemma_records_of_all_sentinel, lemma_records_of_padded,
    lemma_tick_shifts_order, records, run_ticks, slot_order, spec_duration, spec_tick, wf,
    DecoderModel, LENGTH,
};
use crate::render::{gap_durations, header_text, mark_durations, spec_render};
use crate::settings::DecoderSettings;

verus! {

/// A tick that reports the level already recorded changes nothing: no new
/// record, no state change.
pub proof fn lemma_tick_same_level_is_noop(m: DecoderModel, now_ms: u64)
    ensures
        spec_tick(m, m.last_on, now_ms) == m,
{
}

/// Boundary policy of the classifier: a duration exactly equal to a
/// threshold falls into the longer category. A mark of exactly `dit_dah`
/// milliseconds is a dah; a gap of exactly `letter` milliseconds is a letter
/// gap; a gap of exactly `letter_word` milliseconds is a word gap. The
/// thresholds named by each clause must be below the sentinel value, and the
/// letter-gap clause asks that the two gap thresholds are in their intended
/// order.
pub proof fn lemma_threshold_boundaries(settings: DecoderSettings)
    requires
        settings.dit_dah != u64::MAX,
        settings.letter < settings.letter_word,
        settings.letter_word != u64::MAX,
    ensures
        tokens_of((settings.dit_dah, false), settings) == seq![Code::Dah],
        tokens_of((settings.letter, true), settings) == seq![Code::Short],
        tokens_of((settings.letter_word, true), settings) == seq![Code::Long],
{
}

/// A slot sequence with no written record decodes to no tokens.
pub proof fn lemma_decode_slots_all_sentinel(slots: Seq<(u64, bool)>, settings: DecoderSettings)
    requires
        forall|i: int| 0 <= i < slots.len() ==> !is_record(#[trigger] slots[i]),
    ensures
        decode_slots(slots, settings) == Seq::<Code>::empty(),
    decreases slots.len(),
{
    if slots.len() > 0 {
        lemma_decode_slots_all_sentinel(slots.drop_last(), settings);
        assert(decode_slots(slots, settings) =~= Seq::<Code>::empty());
    }
}

/// Directly after construction or a reset, the log holds no records and
/// decoding returns no tokens, whatever the thresholds.
pub proof fn lemma_initial_decodes_empty(now_ms: u64, settings: DecoderSettings)
    ensures
        records(initial_model(now_ms)) == Seq::<(u64, bool)>::empty(),
        spec_decode(initial_model(now_ms), settings) == Seq::<Code>::empty(),
{
    let m = initial_model(now_ms);
    assert(forall|i: int| 0 <= i < slot_order(m).len() ==> !is_record(#[trigger] slot_order(m)[i]));
    lemma_records_of_all_sentinel(slot_order(m));
    lemma_decode_slots_all_sentinel(slot_order(m), settings);
}

/// A ring with no written record contributes no mark durations.
proof fn lemma_mark_durations_all_sentinel(ring: Seq<(u64, bool)>)
    requires
        forall|i: int| 0 <= i < ring.len() ==> !is_record(#[trigger] ring[i]),
    ensures
        mark_durations(ring) == Seq::<u64>::empty(),
        gap_durations(ring) == Seq::<u64>::empty(),
    decreases ring.len(),
{
    if ring.len() > 0 {
        lemma_mark_durations_all_sentinel(ring.drop_last());
    }
}

/// Directly after construction or a reset, the diagnostic view is an empty
/// table: the heading and not a single row.
pub proof fn lemma_initial_renders_empty(now_ms: u64)
    ensures
        spec_render(initial_model(now_ms)) == header_text(),
{
    let m = initial_model(now_ms);
    lemma_mark_durations_all_sentinel(m.ring);
    assert(spec_render(m) =~= header_text());
}

/// Whether a tick sequence strictly alternates the level, starting from the
/// freshly reset state in which the signal is off.
pub open spec fn alternating(ticks: Seq<(bool, u64)>) -> bool {
    forall|i: int| 0 <= i < ticks.len() ==> #[trigger] ticks[i].0 == (i % 2 == 0)
}

/// The time of the transition preceding tick `i` of a run started at
/// `start_ms`.
pub open spec fn time_before(start_ms: u64, ticks: Seq<(bool, u64)>, i: int) -> u64 {
    if i == 0 {
        start_ms
    } else {
        ticks[i - 1].1
    }
}

/// The records an alternating run writes: for each tick, the time elapsed
/// since the tick before it and the level it switched to.
pub open spec fn expected_records(start_ms: u64, ticks: Seq<(bool, u64)>) -> Seq<(u64, bool)> {
    Seq::new(
        ticks.len(),
        |i: int| (spec_duration(time_before(start_ms, ticks, i), ticks[i].1), ticks[i].0),
    )
}

/// The sentinel padding that precedes the records of a partially filled log.
spec fn sentinel_pad(count: int) -> Seq<(u64, bool)> {
    Seq::new(count as nat, |i: int| (u64::MAX, false))
}

/// How many of the oldest records of a run of length `count` have been
/// overwritten.
pub open spec fn overwritten(count: int) -> int {
    if count <= LENGTH {
        0
    } else {
        count - LENGTH
    }
}

/// The full state shape of an alternating run: the chronological slot order
/// is sentinel padding followed by the most recent expected records.
proof fn lemma_alternating_run_state(start_ms: u64, ticks: Seq<(bool, u64)>)
    requires
        alternating(ticks),
        forall|i: int| 0 <= i < ticks.len() ==> is_record(
            #[trigger] expected_records(start_ms, ticks)[i],
        ),
    ensures
        wf(run_ticks(initial_model(start_ms), ticks)),
        run_ticks(initial_model(start_ms), ticks).last_on == (ticks.len() % 2 == 1),
        run_ticks(initial_model(start_ms), ticks).last_time_ms == time_before(
            start_ms,
            ticks,
            ticks.len() as int,
        ),
        slot_order(run_ticks(initial_model(start_ms), ticks)) =~= sentinel_pad(
            LENGTH - (ticks.len() - overwritten(ticks.len() as int)),
        ) + expected_records(start_ms, ticks).skip(overwritten(ticks.len() as int)),
    decreases ticks.len(),
{
    let len = ticks.len() as int;
    let m0 = initial_model(start_ms);
    let e = expected_records(start_ms, ticks);
    if len == 0 {
        assert(slot_order(m0) =~= sentinel_pad(LENGTH as int) + e.skip(0));
    } else {
        let prior = ticks.drop_last();
        let ep = expected_records(start_ms, prior);
        assert(ep =~= e.take(len - 1));
        lemma_alternating_run_state(start_ms, prior);
        let m1 = run_ticks(m0, prior);
        let m2 = run_ticks(m0, ticks);
        let on = ticks.last().0;
        let now = ticks.last().1;
        assert(m2 == spec_tick(m1, on, now));

        // The run alternates, so this tick records a transition.
        assert(on != m1.last_on) by {
            assert(ticks[len - 1].0 == ((len - 1) % 2 == 0));
            vstd::arithmetic::div_mod::lemma_add_mod_noop_right(1, len - 1, 2);
            vstd::arithmetic::div_mod::lemma_mod_division_less_than_divisor(len - 1, 2);
            vstd::arithmetic::div_mod::lemma_mod_division_less_than_divisor(len, 2);
        }
        let rec = (spec_duration(m1.last_time_ms, now), on);
        assert(rec == e[len - 1]);
        lemma_tick_shifts_order(m1, on, now);

        let over1 = overwritten(len - 1);
        let pad1 = sentinel_pad(LENGTH - (len - 1 - over1));
        assert(slot_order(m1) =~= pad1 + ep.skip(over1));
        let over2 = overwritten(len);
        if len - 1 < LENGTH {
            // The log was not yet full: one sentinel slot is dropped and the
            // new record appended.
            assert(over1 == 0 && over2 == 0);
            assert(slot_order(m2) =~= (pad1 + ep).skip(1).push(rec));
            assert((pad1 + ep).skip(1).push(rec) =~= sentinel_pad(LENGTH - len) + e.skip(0));
        } else {
            // The log was full: the oldest record is dropped and the new
            // record appended.
            assert(pad1.len() == 0);
            assert(over2 == over1 + 1);
            assert(slot_order(m2) =~= (pad1 + ep.skip(over1)).skip(1).push(rec));
            assert((pad1 + ep.skip(over1)).skip(1).push(rec) =~= sentinel_pad(0) + e.skip(over2));
        }
    }
}

/// Law of the alternating run: starting from the freshly reset state at
/// `start_ms`, a run of strictly alternating ticks leaves the log holding
/// exactly the expected records of the run's most recent [`LENGTH`] ticks,
/// in chronological order; the records of earlier ticks are gone. A run of
/// at most [`LENGTH`] ticks is therefore retained in full. Each tick's
/// recorded duration must stay below the sentinel value.
pub proof fn lemma_alternating_run(start_ms: u64, ticks: Seq<(bool, u64)>)
    requires
        alternating(ticks),
        forall|i: int| 0 <= i < ticks.len() ==> is_record(
            #[trigger] expected_records(start_ms, ticks)[i],
        ),
    ensures
        records(run_ticks(initial_model(start_ms), ticks)) =~= expected_records(
            start_ms,
            ticks,
        ).skip(overwritten(ticks.len() as int)),
{
    let len = ticks.len() as int;
    let e = expected_records(start_ms, ticks);
    let over = overwritten(len);
    lemma_alternating_run_state(start_ms, ticks);
    let pad = sentinel_pad(LENGTH - (len - over));
    lemma_records_of_padded(pad, e.skip(over));
}

} // verus!
