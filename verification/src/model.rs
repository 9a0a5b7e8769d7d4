//! Mathematical model of the transition log and of a recorder step.
//!
//! The decoder's state is modelled by [`DecoderModel`]: the circular ring of
//! slots, the write index, and the recorder state (last sampled level and the
//! time of the last transition). Every public operation of the decoder is
//! specified against this model, and every law of the recorder is stated over
//! it.

use vstd::prelude::*;

verus! {

/// Number of slots in the circular transition log.
pub const LENGTH: usize = 128;

/// A slot holds the elapsed milliseconds since the previous transition and
/// the level the signal switched to. An unwritten slot holds `u64::MAX`.
pub ghost struct DecoderModel {
    /// The ring of slots, in storage order.
    pub ring: Seq<(u64, bool)>,
    /// Index of the most recently written slot.
    pub index: int,
    /// Time of the last recorded transition, in milliseconds.
    pub last_time_ms: u64,
    /// The level sampled by the last call, `true` for on.
    pub last_on: bool,
}

/// Structural well-formedness: the ring has exactly [`LENGTH`] slots and the
/// write index points at one of them.
pub open spec fn wf(m: DecoderModel) -> bool {
    &&& m.ring.len() == LENGTH
    &&& 0 <= m.index < LENGTH
}

/// The state directly after construction or a reset at time `now_ms`: every
/// slot unwritten, the write index at the first slot, the level off.
pub open spec fn initial_model(now_ms: u64) -> DecoderModel {
    DecoderModel {
        ring: Seq::new(LENGTH as nat, |i: int| (u64::MAX, false)),
        index: 0,
        last_time_ms: now_ms,
        last_on: false,
    }
}

/// The elapsed time recorded for a transition at `now_ms` after a transition
/// at `last_ms`: the difference, clamped to zero if the clock ran backwards.
pub open spec fn spec_duration(last_ms: u64, now_ms: u64) -> u64 {
    if now_ms >= last_ms {
        (now_ms - last_ms) as u64
    } else {
        0u64
    }
}

/// One recorder step: sampling level `on` at time `now_ms`. If the level did
/// not change the state is untouched; otherwise the write index advances
/// circularly and the slot it now points at receives the elapsed duration and
/// the new level.
pub open spec fn spec_tick(m: DecoderModel, on: bool, now_ms: u64) -> DecoderModel {
    if on == m.last_on {
        m
    } else {
        let next = (m.index + 1) % (LENGTH as int);
        DecoderModel {
            ring: m.ring.update(next, (spec_duration(m.last_time_ms, now_ms), on)),
            index: next,
            last_time_ms: now_ms,
            last_on: on,
        }
    }
}

/// Whether a slot holds a written transition record.
pub open spec fn is_record(slot: (u64, bool)) -> bool {
    slot.0 != u64::MAX
}

/// The slots in chronological order: oldest first, starting just past the
/// write index and wrapping around to it.
pub open spec fn slot_order(m: DecoderModel) -> Seq<(u64, bool)> {
    Seq::new(LENGTH as nat, |k: int| m.ring[(m.index + 1 + k) % (LENGTH as int)])
}

/// The written records of a slot sequence, in order, unwritten slots skipped.
pub open spec fn records_of(slots: Seq<(u64, bool)>) -> Seq<(u64, bool)>
    decreases slots.len(),
{
    if slots.len() == 0 {
        Seq::empty()
    } else if is_record(slots.last()) {
        records_of(slots.drop_last()).push(slots.last())
    } else {
        records_of(slots.drop_last())
    }
}

/// The recorded transitions in chronological order, oldest first.
pub open spec fn records(m: DecoderModel) -> Seq<(u64, bool)> {
    records_of(slot_order(m))
}

/// The state after a whole run of recorder steps, applied in order.
pub open spec fn run_ticks(m: DecoderModel, ticks: Seq<(bool, u64)>) -> DecoderModel
    decreases ticks.len(),
{
    if ticks.len() == 0 {
        m
    } else {
        spec_tick(run_ticks(m, ticks.drop_last()), ticks.last().0, ticks.last().1)
    }
}

/// A step that records a transition drops the oldest slot from the
/// chronological order and appends the new record.
pub proof fn lemma_tick_shifts_order(m: DecoderModel, on: bool, now_ms: u64)
    requires
        wf(m),
        on != m.last_on,
    ensures
        slot_order(spec_tick(m, on, now_ms)) =~= slot_order(m).skip(1).push(
            (spec_duration(m.last_time_ms, now_ms), on),
        ),
{
    let len = LENGTH as int;
    let m2 = spec_tick(m, on, now_ms);
    let next = (m.index + 1) % len;
    assert forall|k: int| 0 <= k < len - 1 implies slot_order(m2)[k] == slot_order(m).skip(1)[k] by {
        vstd::arithmetic::div_mod::lemma_add_mod_noop_right(1 + k, m.index + 1, len);
        assert((m2.index + 1 + k) % len == (m.index + 2 + k) % len);
        vstd::arithmetic::div_mod::lemma_mod_division_less_than_divisor(m.index + 2 + k, len);
        assert((m.index + 2 + k) % len != next) by {
            if (m.index + 2 + k) % len == next {
                vstd::arithmetic::div_mod::lemma_add_mod_noop_right(1 + (1 + k), m.index, len);
                vstd::arithmetic::div_mod::lemma_add_mod_noop_right(1, m.index, len);
                // Both residues come from offsets 1 and 2 + k past the same
                // base; equal residues would make 1 + k a multiple of len,
                // impossible for 0 <= k < len - 1.
                vstd::arithmetic::div_mod::lemma_mod_equivalence(m.index + 2 + k, m.index + 1, len);
                vstd::arithmetic::div_mod::lemma_small_mod((1 + k) as nat, len as nat);
            }
        }
    }
    assert(slot_order(m2)[len - 1] == (spec_duration(m.last_time_ms, now_ms), on)) by {
        vstd::arithmetic::div_mod::lemma_mod_multiples_vanish(1, next, len);
        vstd::arithmetic::div_mod::lemma_small_mod(next as nat, len as nat);
        assert((m2.index + 1 + (len - 1)) % len == next);
    }
}

/// A slot sequence with no written record yields no records.
pub proof fn lemma_records_of_all_sentinel(slots: Seq<(u64, bool)>)
    requires
        forall|i: int| 0 <= i < slots.len() ==> !is_record(#[trigger] slots[i]),
    ensures
        records_of(slots) == Seq::<(u64, bool)>::empty(),
    decreases slots.len(),
{
    if slots.len() > 0 {
        lemma_records_of_all_sentinel(slots.drop_last());
    }
}

/// Unwritten slots followed by written records yield exactly those records.
pub proof fn lemma_records_of_padded(pad: Seq<(u64, bool)>, recs: Seq<(u64, bool)>)
    requires
        forall|i: int| 0 <= i < pad.len() ==> !is_record(#[trigger] pad[i]),
        forall|i: int| 0 <= i < recs.len() ==> is_record(#[trigger] recs[i]),
    ensures
        records_of(pad + recs) =~= recs,
    decreases recs.len(),
{
    if recs.len() == 0 {
        assert(pad + recs =~= pad);
        lemma_records_of_all_sentinel(pad);
    } else {
        assert((pad + recs).last() == recs.last());
        assert((pad + recs).drop_last() =~= pad + recs.drop_last());
        lemma_records_of_padded(pad, recs.drop_last());
        assert(records_of(pad + recs) =~= records_of(pad + recs.drop_last()).push(recs.last()));
    }
}

} // verus!
