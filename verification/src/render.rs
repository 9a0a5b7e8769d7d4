//! The diagnostic view: a table ranking mark and gap durations.
//!
//! The view discards chronological order on purpose: each column is sorted by
//! magnitude on its own, so the table pairs the n-th largest mark with the
//! n-th largest gap. It is a distribution snapshot, not a timeline.

use vstd::prelude::*;
use vstd::string::StringExecFns;
use crate::model::{is_record, DecoderModel};
use crate::numerals::{append_padded, padded5};
use crate::sorting::{sort_desc, sort_descending};

verus! {

/// The fixed heading of the table.
pub open spec fn header_text() -> Seq<char> {
    "Durations (ms)\nMarks Gaps\n----- -----"@
}

/// `count` space characters.
pub open spec fn spaces(count: int) -> Seq<char> {
    Seq::new(count as nat, |i: int| ' ')
}

/// A row showing a mark duration next to a gap duration.
pub open spec fn row_both(mark: u64, gap: u64) -> Seq<char> {
    seq!['\n'] + padded5(mark) + seq![' '] + padded5(gap)
}

/// A row showing only a mark duration, the gap column exhausted.
pub open spec fn row_mark_only(mark: u64) -> Seq<char> {
    seq!['\n'] + padded5(mark)
}

/// A row showing only a gap duration, blank-padded past the mark column.
pub open spec fn row_gap_only(gap: u64) -> Seq<char> {
    seq!['\n'] + spaces(6) + padded5(gap)
}

/// The paired rows for indices `0..n`.
pub open spec fn rows_both(marks: Seq<u64>, gaps: Seq<u64>, n: int) -> Seq<char>
    decreases n,
{
    if n <= 0 {
        Seq::empty()
    } else {
        rows_both(marks, gaps, n - 1) + row_both(marks[n - 1], gaps[n - 1])
    }
}

/// The mark-only rows for indices `lo..hi`.
pub open spec fn rows_mark_only(marks: Seq<u64>, lo: int, hi: int) -> Seq<char>
    decreases hi - lo,
{
    if hi <= lo {
        Seq::empty()
    } else {
        rows_mark_only(marks, lo, hi - 1) + row_mark_only(marks[hi - 1])
    }
}

/// The gap-only rows for indices `lo..hi`.
pub open spec fn rows_gap_only(gaps: Seq<u64>, lo: int, hi: int) -> Seq<char>
    decreases hi - lo,
{
    if hi <= lo {
        Seq::empty()
    } else {
        rows_gap_only(gaps, lo, hi - 1) + row_gap_only(gaps[hi - 1])
    }
}

/// The number of paired rows: the length of the shorter column.
pub open spec fn paired_count(marks: Seq<u64>, gaps: Seq<u64>) -> int {
    if marks.len() <= gaps.len() {
        marks.len() as int
    } else {
        gaps.len() as int
    }
}

/// The whole table over two already sorted columns: the heading, the paired
/// rows, then whatever one column has over the other.
pub open spec fn table(marks: Seq<u64>, gaps: Seq<u64>) -> Seq<char> {
    header_text() + rows_both(marks, gaps, paired_count(marks, gaps)) + rows_mark_only(
        marks,
        paired_count(marks, gaps),
        marks.len() as int,
    ) + rows_gap_only(gaps, paired_count(marks, gaps), gaps.len() as int)
}

/// The durations of the recorded marks (the signal switched off), in
/// storage order.
pub open spec fn mark_durations(ring: Seq<(u64, bool)>) -> Seq<u64>
    decreases ring.len(),
{
    if ring.len() == 0 {
        Seq::empty()
    } else if is_record(ring.last()) && !ring.last().1 {
        mark_durations(ring.drop_last()).push(ring.last().0)
    } else {
        mark_durations(ring.drop_last())
    }
}

/// The durations of the recorded gaps (the signal switched on), in storage
/// order.
pub open spec fn gap_durations(ring: Seq<(u64, bool)>) -> Seq<u64>
    decreases ring.len(),
{
    if ring.len() == 0 {
        Seq::empty()
    } else if is_record(ring.last()) && ring.last().1 {
        gap_durations(ring.drop_last()).push(ring.last().0)
    } else {
        gap_durations(ring.drop_last())
    }
}

/// The diagnostic view of a decoder state: both duration columns ranked
/// descending, independently of each other.
pub open spec fn spec_render(m: DecoderModel) -> Seq<char> {
    table(sort_desc(mark_durations(m.ring)), sort_desc(gap_durations(m.ring)))
}

/// Renders the table over two already sorted duration columns.
pub fn render_table(marks: &Vec<u64>, gaps: &Vec<u64>) -> (text: String)
    ensures
        text@ == table(marks@, gaps@),
{
    let mut text = String::new();
    text.append("Durations (ms)\nMarks Gaps\n----- -----");
    proof {
        assert(text@ =~= header_text() + rows_both(marks@, gaps@, 0));
    }
    let paired: usize = if marks.len() <= gaps.len() {
        marks.len()
    } else {
        gaps.len()
    };
    let mut i: usize = 0;
    while i < paired
        invariant
            i <= paired,
            paired == paired_count(marks@, gaps@),
            paired <= marks.len() && paired <= gaps.len(),
            text@ == header_text() + rows_both(marks@, gaps@, i as int),
        decreases paired - i,
    {
        text.append("\n");
        append_padded(&mut text, marks[i]);
        text.append(" ");
        append_padded(&mut text, gaps[i]);
        proof {
            reveal_strlit("\n");
            reveal_strlit(" ");
            assert("\n"@ =~= seq!['\n']);
            assert(" "@ =~= seq![' ']);
            assert(text@ =~= header_text() + rows_both(marks@, gaps@, i + 1));
        }
        i = i + 1;
    }
    if marks.len() > gaps.len() {
        let mut j: usize = paired;
        proof {
            assert(text@ =~= header_text() + rows_both(marks@, gaps@, paired as int)
                + rows_mark_only(marks@, paired as int, paired as int));
        }
        while j < marks.len()
            invariant
                paired <= j <= marks.len(),
                paired == paired_count(marks@, gaps@),
                text@ == header_text() + rows_both(marks@, gaps@, paired as int) + rows_mark_only(
                    marks@,
                    paired as int,
                    j as int,
                ),
            decreases marks.len() - j,
        {
            text.append("\n");
            append_padded(&mut text, marks[j]);
            proof {
                reveal_strlit("\n");
                assert("\n"@ =~= seq!['\n']);
                assert(text@ =~= header_text() + rows_both(marks@, gaps@, paired as int)
                    + rows_mark_only(marks@, paired as int, j + 1));
            }
            j = j + 1;
        }
        proof {
            assert(rows_gap_only(gaps@, paired as int, gaps@.len() as int) == Seq::<char>::empty());
            assert(text@ =~= table(marks@, gaps@));
        }
    } else {
        let mut j: usize = paired;
        proof {
            assert(text@ =~= header_text() + rows_both(marks@, gaps@, paired as int)
                + rows_gap_only(gaps@, paired as int, paired as int));
        }
        while j < gaps.len()
            invariant
                paired <= j <= gaps.len(),
                paired == paired_count(marks@, gaps@),
                paired == marks.len(),
                text@ == header_text() + rows_both(marks@, gaps@, paired as int) + rows_gap_only(
                    gaps@,
                    paired as int,
                    j as int,
                ),
            decreases gaps.len() - j,
        {
            text.append("\n      ");
            append_padded(&mut text, gaps[j]);
            proof {
                reveal_strlit("\n      ");
                assert("\n      "@ =~= seq!['\n'] + spaces(6));
                assert(text@ =~= header_text() + rows_both(marks@, gaps@, paired as int)
                    + rows_gap_only(gaps@, paired as int, j + 1));
            }
            j = j + 1;
        }
        proof {
            assert(rows_mark_only(marks@, paired as int, marks@.len() as int)
                == Seq::<char>::empty());
            assert(text@ =~= table(marks@, gaps@));
        }
    }
    text
}

/// Sorts both duration columns descending and renders the table.
pub fn render_durations(mark_times: &Vec<u64>, gap_times: &Vec<u64>) -> (text: String)
    ensures
        text@ == table(sort_desc(mark_times@), sort_desc(gap_times@)),
{
    let marks = sort_descending(mark_times);
    let gaps = sort_descending(gap_times);
    render_table(&marks, &gaps)
}

} // verus!
