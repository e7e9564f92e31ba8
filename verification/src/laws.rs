//! What holds of every stick pattern and of every centered window.

use crate::center::{center_shift, centered_line, is_window_of};
use crate::comb::{
    extent, lemma_closed_forms_grow, lemma_push_comb, line_total, nuclei, reach, repeated,
    HyperfineComb,
};
use crate::convolve::{lines_of, Line};
use crate::sticks::{copies_at, lemma_lines_within_extent, line_at, sum_from, StickPattern};
use vstd::prelude::*;

verus! {

/// The groups and the point count determine the stick pattern: two patterns
/// of the same groups for the same point count hold the same lines, the same
/// peak and the same total.
pub proof fn lemma_pattern_is_determined(
    first: StickPattern,
    second: StickPattern,
    groups: Seq<HyperfineComb>,
    point_count: usize,
)
    requires
        first.is_pattern_of(groups, point_count),
        second.is_pattern_of(groups, point_count),
    ensures
        first.intensity@ == second.intensity@,
        first.peak_index == second.peak_index,
        first.total == second.total,
{
    assert forall|j: int| 0 <= j < first.intensity@.len() implies first.intensity@[j]
        == second.intensity@[j] by {
        assert(first.intensity@[j] == line_at(nuclei(groups), j));
        assert(second.intensity@[j] == line_at(nuclei(groups), j));
    }
    assert(first.intensity@ =~= second.intensity@);
}

/// The pattern and the point count determine the centered window.
pub proof fn lemma_window_is_determined(
    first: Seq<u64>,
    second: Seq<u64>,
    intensity: Seq<u64>,
    peak_index: int,
    point_count: int,
)
    requires
        is_window_of(first, intensity, peak_index, point_count),
        is_window_of(second, intensity, peak_index, point_count),
    ensures
        first == second,
{
    assert(first =~= second);
}

/// The sum of the intensities is never 0, whatever the groups: the seed line
/// is never lost.
pub proof fn lemma_total_is_positive(groups: Seq<HyperfineComb>)
    ensures
        line_total(nuclei(groups)) >= 1,
        extent(nuclei(groups)) >= 1,
        line_at(nuclei(groups), extent(nuclei(groups)) as int) >= 1,
{
    lemma_closed_forms_grow(nuclei(groups), Seq::empty());
    lemma_lines_within_extent(nuclei(groups));
}

/// The intensities of two buffers sum to the same where one holds the lines
/// of the other `shift` indices higher and nothing else.
proof fn lemma_shifted_sum(moved: Seq<u64>, lines: Seq<u64>, shift: int, start: int)
    requires
        0 <= shift,
        0 <= start,
        moved.len() == lines.len(),
        forall|j: int| 0 <= j < lines.len() - shift ==> #[trigger] moved[j + shift] == lines[j],
        forall|j: int| lines.len() - shift <= j < lines.len() ==> lines[j] == 0,
    ensures
        sum_from(moved, start + shift) == sum_from(lines, start),
    decreases lines.len() - start,
{
    if start < lines.len() {
        lemma_shifted_sum(moved, lines, shift, start + 1);
        if start < lines.len() - shift {
            assert(moved[start + shift] == lines[start]);
        }
    }
}

proof fn lemma_sum_skips_zeros(lines: Seq<u64>, start: int)
    requires
        0 <= start,
        forall|j: int| 0 <= j < start && j < lines.len() ==> lines[j] == 0,
    ensures
        sum_from(lines, 0) == sum_from(lines, start),
    decreases start,
{
    if start > 0 {
        lemma_sum_skips_zeros(lines, start - 1);
    }
}

/// Where the window has more points than the index of the highest line,
/// centering loses no line: the intensities of the window sum to the total
/// of the pattern.
pub proof fn lemma_centering_keeps_every_line(
    pattern: StickPattern,
    groups: Seq<HyperfineComb>,
    point_count: usize,
    window: Seq<u64>,
)
    requires
        pattern.is_pattern_of(groups, point_count),
        pattern.peak_index < point_count,
        is_window_of(
            window,
            pattern.intensity@,
            pattern.peak_index as int,
            point_count as int,
        ),
    ensures
        sum_from(window, 0) == pattern.total,
{
    let lines = pattern.intensity@;
    let peak = pattern.peak_index as int;
    let shift = center_shift(point_count as int, peak);
    lemma_lines_within_extent(nuclei(groups));
    assert forall|j: int| 0 <= j < lines.len() - shift implies #[trigger] window[j + shift]
        == lines[j] by {
        assert(lines[j] == line_at(nuclei(groups), j));
    }
    assert forall|j: int| lines.len() - shift <= j < lines.len() implies lines[j] == 0 by {
        assert(lines[j] == line_at(nuclei(groups), j));
    }
    lemma_shifted_sum(window, lines, shift, 0);
    lemma_sum_skips_zeros(window, shift);
}

/// The lines of a window are its points of intensity other than 0 from index
/// 1 on, each once, lowest first.
pub proof fn lemma_lines_are_the_occupied_points(window: Seq<u64>)
    requires
        window.len() <= usize::MAX,
    ensures
        forall|k: int|
            0 <= k < lines_of(window).len() ==> {
                let line = #[trigger] lines_of(window)[k];
                &&& 1 <= line.position < window.len()
                &&& line.intensity == window[line.position as int]
                &&& line.intensity != 0
            },
        forall|k: int, l: int|
            0 <= k < l < lines_of(window).len() ==> (#[trigger] lines_of(window)[k]).position < (
            #[trigger] lines_of(window)[l]).position,
        forall|j: int|
            1 <= j < window.len() && window[j] != 0 ==> lines_of(window).contains(
                Line { position: j as usize, intensity: #[trigger] window[j] },
            ),
    decreases window.len(),
{
    if window.len() > 0 {
        let front = window.drop_last();
        let last = (window.len() - 1) as int;
        lemma_lines_are_the_occupied_points(front);
        let found = lines_of(window);
        let before = lines_of(front);
        assert forall|k: int| 0 <= k < found.len() implies {
            let line = #[trigger] found[k];
            &&& 1 <= line.position < window.len()
            &&& line.intensity == window[line.position as int]
            &&& line.intensity != 0
        } by {
            if k < before.len() {
                assert(found[k] == before[k]);
                assert(front[before[k].position as int] == window[before[k].position as int]);
            }
        }
        assert forall|k: int, l: int| 0 <= k < l < found.len() implies (#[trigger] found[k]).position
            < (#[trigger] found[l]).position by {
            assert(found[k] == before[k]);
            if l < before.len() {
                assert(found[l] == before[l]);
            }
        }
        assert forall|j: int| 1 <= j < window.len() && window[j] != 0 implies found.contains(
            Line { position: j as usize, intensity: #[trigger] window[j] },
        ) by {
            let line = Line { position: j as usize, intensity: window[j] };
            if j < last {
                assert(front[j] == window[j]);
                assert(before.contains(line));
                let k = choose|k: int| 0 <= k < before.len() && before[k] == line;
                assert(found[k] == line);
            } else {
                assert(found[found.len() - 1] == line);
            }
        }
    }
}

/// Without hyperfine groups the pattern is the seed alone: one line of
/// intensity 1 at index 1.
pub proof fn lemma_no_groups_one_line(groups: Seq<HyperfineComb>, index: int)
    requires
        groups.len() == 0,
    ensures
        line_at(nuclei(groups), index) == if index == 1 {
            1nat
        } else {
            0nat
        },
        extent(nuclei(groups)) == 1,
        line_total(nuclei(groups)) == 1,
{
}

/// Without hyperfine groups the centered window holds one line of intensity
/// 1, at the middle point `1 + (point_count - 1) / 2`.
pub proof fn lemma_lone_line_sits_in_the_middle(
    pattern: StickPattern,
    groups: Seq<HyperfineComb>,
    point_count: usize,
    index: int,
)
    requires
        groups.len() == 0,
        point_count >= 2,
        pattern.is_pattern_of(groups, point_count),
    ensures
        centered_line(pattern.intensity@, pattern.peak_index as int, point_count as int, index)
            == if index == 1 + (point_count - 1) / 2 {
            1u64
        } else {
            0u64
        },
{
    let source = index - center_shift(point_count as int, 1);
    lemma_no_groups_one_line(groups, source);
    if 0 <= source < pattern.intensity@.len() {
        assert(pattern.intensity@[source] == line_at(nuclei(groups), source));
    }
}

/// One group of one nucleus whose comb has the single offset `spacing`: a
/// nucleus of spin 1/2.
pub open spec fn is_one_spin_half_nucleus(groups: Seq<HyperfineComb>, spacing: usize) -> bool {
    &&& groups.len() == 1
    &&& groups[0].equivalent_count == 1
    &&& groups[0].offsets@ == seq![spacing]
}

/// One nucleus of spin 1/2 gives exactly two lines of equal intensity,
/// `spacing` points apart.
pub proof fn lemma_one_nucleus_two_lines(groups: Seq<HyperfineComb>, spacing: usize, index: int)
    requires
        is_one_spin_half_nucleus(groups, spacing),
        spacing >= 1,
    ensures
        line_at(nuclei(groups), index) == if index == 1 || index == 1 + spacing {
            1nat
        } else {
            0nat
        },
        extent(nuclei(groups)) == 1 + spacing,
        line_total(nuclei(groups)) == 2,
{
    let offsets = groups[0].offsets@;
    let none = Seq::<Seq<usize>>::empty();
    assert(groups.last() == groups[0]);
    assert(nuclei(groups.drop_last()) =~= none);
    assert(nuclei(groups) == none + repeated(offsets, 1));
    assert(none + repeated(offsets, 1) =~= none.push(offsets));
    assert(offsets.len() == 1 && offsets.last() == spacing);
    assert(line_total(none) == 1);
    lemma_push_comb(none, offsets);
    assert(none.push(offsets).drop_last() =~= none);
    assert(offsets.drop_last() =~= Seq::<usize>::empty());
    assert(reach(offsets.drop_last()) == 0);
    assert(copies_at(none, offsets.drop_last(), index) == 0);
    assert(copies_at(none, offsets, index) == line_at(none, index - spacing));
    assert(none.push(offsets).last() == offsets);
    assert(line_at(none.push(offsets), index) == line_at(none, index) + copies_at(
        none,
        offsets,
        index,
    ));
}

/// One nucleus of spin 1/2, in a window that its two lines fit in: the
/// centered window holds exactly two lines, both of intensity 1 and
/// `spacing` points apart, and the free points below the lower line are as
/// many as those above the upper line, or one more where the free room is
/// even.
pub proof fn lemma_two_lines_are_centered(
    pattern: StickPattern,
    groups: Seq<HyperfineComb>,
    spacing: usize,
    point_count: usize,
    index: int,
)
    requires
        is_one_spin_half_nucleus(groups, spacing),
        spacing >= 1,
        1 + spacing < point_count,
        pattern.is_pattern_of(groups, point_count),
    ensures
        ({
            let lower = 1 + center_shift(point_count as int, 1 + spacing);
            let upper = lower + spacing;
            let below = lower - 1;
            let above = point_count - 1 - upper;
            &&& 1 <= lower < upper < point_count
            &&& below == above || below == above + 1
            &&& centered_line(
                pattern.intensity@,
                pattern.peak_index as int,
                point_count as int,
                index,
            ) == if index == lower || index == upper {
                1u64
            } else {
                0u64
            }
        }),
{
    let source = index - center_shift(point_count as int, 1 + spacing);
    lemma_one_nucleus_two_lines(groups, spacing, source);
    lemma_one_nucleus_two_lines(groups, spacing, 0);
    if 0 <= source < pattern.intensity@.len() {
        assert(pattern.intensity@[source] == line_at(nuclei(groups), source));
    }
}

} // verus!
