//! The stick pattern of one radical: the seed line split by every nucleus in
//! turn, in one buffer, scanned from the highest line down.

use crate::comb::{
    checked_extent, checked_line_total, comb_reach, extent, lemma_extent_repeated,
    lemma_line_total_bare, lemma_nuclei_ends, lemma_nuclei_take, lemma_partial_nuclei_grow,
    lemma_push_comb, lemma_reach_bounds, lemma_repeated_push, line_total, nuclei, reach, repeated,
    HyperfineComb,
};
use vstd::prelude::*;

verus! {

/// The most intensities that one buffer holds: a longer one cannot be
/// allocated on any machine. A shorter one that the memory at hand cannot
/// hold ends the program, as every allocation does.
pub const MAX_BUFFER_LEN: usize = usize::MAX / 16;

/// Why no stick pattern was built.
#[derive(Clone, Copy, Debug, PartialEq, Eq)]
pub enum SynthesisError {
    /// Fewer than two points, so that the field axis has no increment, or
    /// more points than a buffer holds.
    InvalidPointCount,
    /// The sum of the line intensities does not fit in 64 bits.
    TooManyLines,
    /// The highest line lies beyond what a buffer holds.
    TooWide,
}

/// A window of `point_count` points can be swept.
pub open spec fn is_point_count(point_count: usize) -> bool {
    2 <= point_count <= MAX_BUFFER_LEN
}

/// The lines of one radical before any broadening.
#[derive(Debug, PartialEq, Eq)]
pub struct StickPattern {
    /// Intensity of the line at each index; index 0 holds no line.
    pub intensity: Vec<u64>,
    /// Index of the highest line.
    pub peak_index: usize,
    /// Sum of all intensities.
    pub total: u64,
}

/// Intensity of the line at `index` after the nuclei of `combs`, in order,
/// have each split every line: the seed is one line of intensity 1 at index 1,
/// and a nucleus keeps each line and adds a copy of it at each offset of its
/// comb.
pub open spec fn line_at(combs: Seq<Seq<usize>>, index: int) -> nat
    decreases combs.len(), 0nat,
{
    if combs.len() == 0 {
        if index == 1 {
            1
        } else {
            0
        }
    } else {
        line_at(combs.drop_last(), index) + copies_at(combs.drop_last(), combs.last(), index)
    }
}

/// What the lines that `combs` produce send to `index` through one more comb:
/// for each offset, the line that lies that far below `index`.
pub open spec fn copies_at(combs: Seq<Seq<usize>>, offsets: Seq<usize>, index: int) -> nat
    decreases combs.len(), offsets.len() + 1,
{
    if offsets.len() == 0 {
        0
    } else {
        copies_at(combs, offsets.drop_last(), index) + line_at(combs, index - offsets.last())
    }
}

/// Sum of the intensities from index `start` on.
pub open spec fn sum_from(lines: Seq<u64>, start: int) -> nat
    decreases lines.len() - start,
{
    if 0 <= start < lines.len() {
        lines[start] as nat + sum_from(lines, start + 1)
    } else {
        0
    }
}

/// The error with which these groups and this point count are refused, if
/// any. The point count is judged first, then the line total, then the extent.
pub open spec fn refusal(groups: Seq<HyperfineComb>, point_count: usize) -> Option<
    SynthesisError,
> {
    if !is_point_count(point_count) {
        Some(SynthesisError::InvalidPointCount)
    } else if line_total(nuclei(groups)) > u64::MAX {
        Some(SynthesisError::TooManyLines)
    } else if extent(nuclei(groups)) >= MAX_BUFFER_LEN {
        Some(SynthesisError::TooWide)
    } else {
        None
    }
}

/// Length of the buffer that holds the pattern: every index up to the
/// highest line, and at least `point_count` entries.
pub open spec fn buffer_len(groups: Seq<HyperfineComb>, point_count: usize) -> nat {
    if point_count > extent(nuclei(groups)) {
        point_count as nat
    } else {
        extent(nuclei(groups)) + 1
    }
}

impl StickPattern {
    /// This is the stick pattern of `groups`, in a buffer for `point_count`
    /// points.
    pub open spec fn is_pattern_of(self, groups: Seq<HyperfineComb>, point_count: usize) -> bool {
        &&& self.intensity@.len() == buffer_len(groups, point_count)
        &&& forall|j: int|
            0 <= j < self.intensity@.len() ==> #[trigger] self.intensity@[j] == line_at(
                nuclei(groups),
                j,
            )
        &&& self.peak_index == extent(nuclei(groups))
        &&& self.total == line_total(nuclei(groups))
        &&& self.total == sum_from(self.intensity@, 0)
    }
}

/// What the lines above index `low` send to `index` through the comb.
spec fn sent_from_above(lines: Seq<u64>, offsets: Seq<usize>, low: int, index: int) -> nat
    decreases offsets.len(),
{
    if offsets.len() == 0 {
        0
    } else {
        sent_from_above(lines, offsets.drop_last(), low, index) + if low < index - offsets.last()
            < lines.len() {
            lines[index - offsets.last()] as nat
        } else {
            0
        }
    }
}

/// What one line of intensity `amount` at `source` sends to `index` through
/// the comb.
spec fn sent_from(amount: nat, offsets: Seq<usize>, source: int, index: int) -> nat
    decreases offsets.len(),
{
    if offsets.len() == 0 {
        0
    } else {
        sent_from(amount, offsets.drop_last(), source, index) + if source + offsets.last()
            == index {
            amount
        } else {
            0
        }
    }
}

proof fn lemma_sum_from_set(lines: Seq<u64>, at: int, value: u64, start: int)
    requires
        0 <= at < lines.len(),
        0 <= start,
    ensures
        sum_from(lines.update(at, value), start) == if start <= at {
            sum_from(lines, start) - lines[at] + value
        } else {
            sum_from(lines, start) as int
        },
        lines[at] <= sum_from(lines, 0),
    decreases lines.len() - start,
{
    if start < lines.len() {
        lemma_sum_from_set(lines, at, value, start + 1);
    }
    lemma_sum_from_tail(lines, 0, at);
}

/// A later tail sums to no more than an earlier one.
proof fn lemma_sum_from_tail(lines: Seq<u64>, early: int, late: int)
    requires
        0 <= early <= late,
    ensures
        sum_from(lines, late) <= sum_from(lines, early),
    decreases late - early,
{
    if early < late {
        lemma_sum_from_tail(lines, early + 1, late);
    }
}

proof fn lemma_sum_from_zero(lines: Seq<u64>, start: int)
    requires
        0 <= start,
        forall|j: int| start <= j < lines.len() ==> lines[j] == 0,
    ensures
        sum_from(lines, start) == 0,
    decreases lines.len() - start,
{
    if start < lines.len() {
        lemma_sum_from_zero(lines, start + 1);
    }
}

proof fn lemma_nothing_sent(lines: Seq<u64>, offsets: Seq<usize>, low: int, index: int)
    requires
        index <= low || forall|j: int| low < j < lines.len() ==> lines[j] == 0,
    ensures
        sent_from_above(lines, offsets, low, index) == 0,
    decreases offsets.len(),
{
    if offsets.len() > 0 {
        lemma_nothing_sent(lines, offsets.drop_last(), low, index);
    }
}

proof fn lemma_nothing_to_send(offsets: Seq<usize>, source: int, index: int)
    ensures
        sent_from(0, offsets, source, index) == 0,
    decreases offsets.len(),
{
    if offsets.len() > 0 {
        lemma_nothing_to_send(offsets.drop_last(), source, index);
    }
}

/// Lowering the bound by one lets in what the line at the bound sends.
proof fn lemma_sent_one_lower(lines: Seq<u64>, offsets: Seq<usize>, source: int, index: int)
    requires
        0 <= source < lines.len(),
    ensures
        sent_from_above(lines, offsets, source - 1, index) == sent_from_above(
            lines,
            offsets,
            source,
            index,
        ) + sent_from(lines[source] as nat, offsets, source, index),
    decreases offsets.len(),
{
    if offsets.len() > 0 {
        lemma_sent_one_lower(lines, offsets.drop_last(), source, index);
    }
}

/// Where a buffer holds the lines that `combs` produce, what its lines above
/// index 0 send through a comb is what the next nucleus copies.
proof fn lemma_sent_is_copies(
    lines: Seq<u64>,
    combs: Seq<Seq<usize>>,
    offsets: Seq<usize>,
    index: int,
)
    requires
        forall|j: int| 0 <= j < lines.len() ==> #[trigger] lines[j] == line_at(combs, j),
        forall|j: int| j < 1 || j >= lines.len() ==> line_at(combs, j) == 0,
    ensures
        sent_from_above(lines, offsets, 0, index) == copies_at(combs, offsets, index),
    decreases offsets.len(),
{
    if offsets.len() > 0 {
        lemma_sent_is_copies(lines, combs, offsets.drop_last(), index);
        let source = index - offsets.last();
        if 0 < source < lines.len() {
            assert(lines[source] == line_at(combs, source));
        } else {
            assert(line_at(combs, source) == 0);
        }
    }
}

/// A comb copies nothing to an index that no line can reach, and at least the
/// line that lies one of its offsets below.
proof fn lemma_copies_bounds(combs: Seq<Seq<usize>>, offsets: Seq<usize>, index: int, top: int)
    requires
        forall|j: int| j < 1 || j > top ==> line_at(combs, j) == 0,
    ensures
        index < 1 || index > top + reach(offsets) ==> copies_at(combs, offsets, index) == 0,
        forall|k: int|
            0 <= k < offsets.len() ==> copies_at(combs, offsets, index) >= line_at(
                combs,
                index - #[trigger] offsets[k],
            ),
    decreases offsets.len(),
{
    if offsets.len() > 0 {
        let front = offsets.drop_last();
        lemma_copies_bounds(combs, front, index, top);
        assert forall|k: int| 0 <= k < offsets.len() implies copies_at(combs, offsets, index)
            >= line_at(combs, index - #[trigger] offsets[k]) by {
            if k < front.len() {
                assert(front[k] == offsets[k]);
            }
        }
    }
}

/// The lines lie between index 1 and the extent, and the line at the extent
/// is there.
pub proof fn lemma_lines_within_extent(combs: Seq<Seq<usize>>)
    ensures
        forall|j: int| j < 1 || j > extent(combs) ==> line_at(combs, j) == 0,
        line_at(combs, extent(combs) as int) >= 1,
    decreases combs.len(),
{
    if combs.len() > 0 {
        let front = combs.drop_last();
        let offsets = combs.last();
        lemma_lines_within_extent(front);
        lemma_reach_bounds(offsets);
        assert forall|j: int| j < 1 || j > extent(combs) implies line_at(combs, j) == 0 by {
            lemma_copies_bounds(front, offsets, j, extent(front) as int);
            assert(line_at(front, j) == 0);
            assert(copies_at(front, offsets, j) == 0);
        }
        if offsets.len() > 0 {
            let k = choose|k: int| 0 <= k < offsets.len() && offsets[k] == reach(offsets);
            lemma_copies_bounds(front, offsets, extent(combs) as int, extent(front) as int);
            assert(extent(combs) - offsets[k] == extent(front));
        }
    }
}

/// One nucleus: every line above index 0 is copied to each offset of the
/// comb, in place, from the highest line down, so that no copy is read again
/// in the same pass. Returns the new sum of the intensities.
fn split(intensity: &mut Vec<u64>, offsets: &Vec<usize>, peak: usize, total: u64) -> (grown: u64)
    requires
        peak + reach(offsets@) < old(intensity).len(),
        old(intensity)[0] == 0,
        forall|j: int| peak < j < old(intensity).len() ==> old(intensity)[j] == 0,
        total == sum_from(old(intensity)@, 0),
        total * (offsets.len() + 1) <= u64::MAX,
    ensures
        final(intensity).len() == old(intensity).len(),
        forall|j: int|
            0 <= j < old(intensity).len() ==> #[trigger] final(intensity)[j] == old(intensity)[j]
                + sent_from_above(old(intensity)@, offsets@, 0, j),
        grown == total * (offsets.len() + 1),
        grown == sum_from(final(intensity)@, 0),
{
    let ghost before = intensity@;
    let lines = offsets.len();
    let mut grown = total;
    let mut source = peak;
    proof {
        lemma_reach_bounds(offsets@);
        lemma_sum_from_zero(before, peak + 1);
        assert(lines * 0 == 0) by (nonlinear_arith);
        assert forall|j: int| 0 <= j < before.len() implies sent_from_above(
            before,
            offsets@,
            peak as int,
            j,
        ) == 0 by {
            lemma_nothing_sent(before, offsets@, peak as int, j);
        }
    }
    while source > 0
        invariant
            source <= peak,
            lines == offsets.len(),
            intensity.len() == before.len(),
            peak + reach(offsets@) < before.len(),
            before[0] == 0,
            total == sum_from(before, 0),
            total * (lines + 1) <= u64::MAX,
            forall|k: int| 0 <= k < offsets.len() ==> offsets[k] <= reach(offsets@),
            forall|j: int|
                0 <= j < before.len() ==> #[trigger] intensity[j] == before[j] + sent_from_above(
                    before,
                    offsets@,
                    source as int,
                    j,
                ),
            grown == sum_from(intensity@, 0),
            grown == total + lines * sum_from(before, source + 1),
        decreases source,
    {
        let amount = intensity[source];
        let ghost reached = intensity@;
        let ghost grown_before = grown;
        proof {
            lemma_nothing_sent(before, offsets@, source as int, source as int);
            assert(amount == before[source as int]);
            lemma_sum_from_tail(before, 0, source as int);
            assert(lines * sum_from(before, source as int) == lines * sum_from(
                before,
                source + 1,
            ) + lines * amount) by (nonlinear_arith)
                requires
                    sum_from(before, source as int) == amount + sum_from(before, source + 1),
            ;
            assert(total + lines * sum_from(before, source as int) <= total * (lines + 1))
                by (nonlinear_arith)
                requires
                    sum_from(before, source as int) <= total,
            ;
            assert(0 * amount == 0) by (nonlinear_arith);
        }
        if amount != 0 {
            let mut k: usize = 0;
            while k < lines
                invariant
                    k <= lines,
                    lines == offsets.len(),
                    0 < source <= peak,
                    intensity.len() == before.len(),
                    reached.len() == before.len(),
                    peak + reach(offsets@) < before.len(),
                    forall|i: int| 0 <= i < offsets.len() ==> offsets[i] <= reach(offsets@),
                    forall|j: int|
                        0 <= j < before.len() ==> #[trigger] intensity[j] == reached[j]
                            + sent_from(amount as nat, offsets@.take(k as int), source as int, j),
                    grown == sum_from(intensity@, 0),
                    grown == grown_before + k * amount,
                    grown_before + lines * amount <= u64::MAX,
                decreases lines - k,
            {
                let target = source + offsets[k];
                let ghost held = intensity@;
                proof {
                    lemma_sum_from_set(held, target as int, 0, 0);
                    assert(grown + amount <= grown_before + lines * amount) by (nonlinear_arith)
                        requires
                            grown == grown_before + k * amount,
                            k < lines,
                    ;
                    assert((k + 1) * amount == k * amount + amount) by (nonlinear_arith);
                }
                let raised = intensity[target] + amount;
                intensity.set(target, raised);
                grown = grown + amount;
                proof {
                    lemma_sum_from_set(held, target as int, raised, 0);
                    assert(offsets@.take(k + 1).drop_last() =~= offsets@.take(k as int));
                    assert(offsets@.take(k + 1).last() == offsets@[k as int]);
                }
                k += 1;
            }
            proof {
                assert(offsets@.take(lines as int) =~= offsets@);
            }
        } else {
            proof {
                assert forall|j: int| 0 <= j < before.len() implies sent_from(
                    0,
                    offsets@,
                    source as int,
                    j,
                ) == 0 by {
                    lemma_nothing_to_send(offsets@, source as int, j);
                }
            }
        }
        proof {
            assert forall|j: int| 0 <= j < before.len() implies #[trigger] intensity[j]
                == before[j] + sent_from_above(before, offsets@, source - 1, j) by {
                lemma_sent_one_lower(before, offsets@, source as int, j);
            }
        }
        source -= 1;
    }
    proof {
        assert(total * (lines + 1) == total + lines * total) by (nonlinear_arith);
    }
    grown
}

/// The buffer holds the lines that `combs` produce up to its end, with their
/// highest index and their sum.
spec fn holds_lines(lines: Seq<u64>, combs: Seq<Seq<usize>>, peak: usize, total: u64) -> bool {
    &&& forall|j: int| 0 <= j < lines.len() ==> #[trigger] lines[j] == line_at(combs, j)
    &&& peak == extent(combs)
    &&& total == line_total(combs)
    &&& total == sum_from(lines, 0)
}

/// Nuclei whose comb has no offsets leave every line as it is.
proof fn lemma_line_at_bare(base: Seq<Seq<usize>>, offsets: Seq<usize>, count: nat, index: int)
    requires
        offsets.len() == 0,
    ensures
        line_at(base + repeated(offsets, count), index) == line_at(base, index),
    decreases count,
{
    lemma_repeated_push(base, offsets, 0);
    if count > 0 {
        let fewer = (count - 1) as nat;
        lemma_line_at_bare(base, offsets, fewer, index);
        lemma_repeated_push(base, offsets, fewer);
        let combs = base + repeated(offsets, fewer);
        assert(combs.push(offsets).drop_last() =~= combs);
        assert(combs.push(offsets).last() == offsets);
        assert(copies_at(combs, offsets, index) == 0);
    }
}

/// The stick pattern of one radical.
///
/// The seed is one line of intensity 1 at index 1. Group after group, each
/// equivalent nucleus keeps every line and adds a copy of it at each offset
/// of the group's comb. The buffer is sized from the combs before any line
/// is written, so that no copy falls outside it; it is never longer than
/// `MAX_BUFFER_LEN`.
pub fn stick_pattern(groups: &Vec<HyperfineComb>, point_count: usize) -> (r: Result<
    StickPattern,
    SynthesisError,
>)
    ensures
        match r {
            Ok(pattern) => refusal(groups@, point_count) is None && pattern.is_pattern_of(
                groups@,
                point_count,
            ),
            Err(error) => refusal(groups@, point_count) == Some(error),
        },
{
    if point_count < 2 || point_count > MAX_BUFFER_LEN {
        return Err(SynthesisError::InvalidPointCount);
    }
    if checked_line_total(groups).is_none() {
        return Err(SynthesisError::TooManyLines);
    }
    let top = match checked_extent(groups) {
        Some(top) => top,
        None => {
            return Err(SynthesisError::TooWide);
        },
    };
    if top >= MAX_BUFFER_LEN {
        return Err(SynthesisError::TooWide);
    }
    let len = if point_count > top {
        point_count
    } else {
        top + 1
    };
    let mut intensity: Vec<u64> = vec![0u64; len];
    intensity.set(1, 1);
    let mut peak: usize = 1;
    let mut total: u64 = 1;
    let mut g: usize = 0;
    proof {
        lemma_nuclei_ends(groups@);
        let seeded = intensity@;
        lemma_sum_from_zero(seeded, 2);
        assert(sum_from(seeded, 1) == 1);
        assert(sum_from(seeded, 0) == 1);
    }
    while g < groups.len()
        invariant
            g <= groups.len(),
            intensity.len() == len,
            top == extent(nuclei(groups@)),
            top < len,
            line_total(nuclei(groups@)) <= u64::MAX,
            holds_lines(intensity@, nuclei(groups@.take(g as int)), peak, total),
        decreases groups.len() - g,
    {
        let count = groups[g].equivalent_count;
        let ghost before = nuclei(groups@.take(g as int));
        let ghost offsets = groups@[g as int].offsets@;
        proof {
            lemma_nuclei_take(groups@, g as int);
            lemma_repeated_push(before, offsets, 0);
        }
        if groups[g].offsets.len() > 0 {
            let far = comb_reach(&groups[g].offsets);
            let mut done: usize = 0;
            while done < count
                invariant
                    g < groups.len(),
                    done <= count,
                    count == groups@[g as int].equivalent_count,
                    offsets == groups@[g as int].offsets@,
                    far == reach(offsets),
                    before == nuclei(groups@.take(g as int)),
                    intensity.len() == len,
                    top == extent(nuclei(groups@)),
                    top < len,
                    line_total(nuclei(groups@)) <= u64::MAX,
                    holds_lines(intensity@, before + repeated(offsets, done as nat), peak, total),
                decreases count - done,
            {
                let ghost combs = before + repeated(offsets, done as nat);
                let ghost held = intensity@;
                proof {
                    lemma_repeated_push(before, offsets, done as nat);
                    lemma_push_comb(combs, offsets);
                    lemma_partial_nuclei_grow(groups@, g as int, (done + 1) as nat);
                    lemma_lines_within_extent(combs);
                    assert(held[0] == line_at(combs, 0));
                    assert forall|j: int| peak < j < held.len() implies held[j] == 0 by {
                        assert(held[j] == line_at(combs, j));
                    }
                }
                total = split(&mut intensity, &groups[g].offsets, peak, total);
                peak = peak + far;
                proof {
                    assert(combs.push(offsets).drop_last() =~= combs);
                    assert forall|j: int| 0 <= j < intensity@.len() implies #[trigger] intensity@[j]
                        == line_at(combs.push(offsets), j) by {
                        lemma_sent_is_copies(held, combs, offsets, j);
                        assert(held[j] == line_at(combs, j));
                    }
                }
                done += 1;
            }
        } else {
            proof {
                lemma_line_total_bare(before, offsets, count as nat);
                lemma_extent_repeated(before, offsets, count as nat);
                assert(count * reach(offsets) == 0) by (nonlinear_arith)
                    requires
                        reach(offsets) == 0,
                ;
                assert forall|j: int| 0 <= j < intensity@.len() implies #[trigger] intensity@[j]
                    == line_at(before + repeated(offsets, count as nat), j) by {
                    lemma_line_at_bare(before, offsets, count as nat, j);
                }
            }
        }
        g += 1;
    }
    proof {
        lemma_nuclei_ends(groups@);
    }
    Ok(StickPattern { intensity, peak_index: peak, total })
}

} // verus!
