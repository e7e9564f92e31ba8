//! Index arithmetic of the convolution of a centered stick pattern with a
//! lineshape kernel, both sampled on the window's points.

use vstd::prelude::*;

verus! {

/// Index of the output sample on which the stick at `position` puts sample
/// `kernel_index` of the kernel: the kernel's sample `point_count / 2` lands
/// on the stick itself.
pub open spec fn landing(position: int, kernel_index: int, point_count: int) -> int {
    position - (point_count / 2 - kernel_index)
}

/// `index` is a point of the window that can hold a sample: the window's
/// points are counted from 1, and index 0 is not used.
pub open spec fn is_point(index: int, point_count: int) -> bool {
    1 <= index < point_count
}

/// Whether the stick at `position` adds sample `kernel_index` of the kernel
/// to the output: both are points of the window, and so is the sample's
/// landing index.
pub open spec fn lands_inside(position: int, kernel_index: int, point_count: int) -> bool {
    &&& is_point(position, point_count)
    &&& is_point(kernel_index, point_count)
    &&& is_point(landing(position, kernel_index, point_count), point_count)
}

/// The output index to which the stick at `position` adds sample
/// `kernel_index` of the kernel, or `None` where the sample falls outside the
/// window and is dropped.
pub fn destination(position: usize, kernel_index: usize, point_count: usize) -> (d: Option<usize>)
    ensures
        d.is_some() == lands_inside(position as int, kernel_index as int, point_count as int),
        d.is_some() ==> d.unwrap() == landing(
            position as int,
            kernel_index as int,
            point_count as int,
        ),
{
    if position < 1 || position >= point_count || kernel_index < 1 || kernel_index
        >= point_count {
        return None;
    }
    let half = point_count / 2;
    if kernel_index >= half {
        let up = kernel_index - half;
        if up < point_count - position {
            Some(position + up)
        } else {
            None
        }
    } else {
        let down = half - kernel_index;
        if position > down {
            Some(position - down)
        } else {
            None
        }
    }
}

/// One line of a window: where it stands and how intense it is.
#[derive(Clone, Copy, Debug, PartialEq, Eq)]
pub struct Line {
    /// Index of the line in the window.
    pub position: usize,
    /// Intensity of the line; never 0.
    pub intensity: u64,
}

/// The kernel samples that one stick adds to the output: the samples from
/// `first` up to, not including, `end`, added to the output from
/// `first_destination` on, one index per sample.
#[derive(Clone, Copy, Debug, PartialEq, Eq)]
pub struct KernelSpan {
    /// Index of the first kernel sample that lands inside the window.
    pub first: usize,
    /// Index after the last kernel sample that lands inside the window.
    pub end: usize,
    /// Output index on which sample `first` lands.
    pub first_destination: usize,
}

/// The lines of a window, lowest first: each point from index 1 on whose
/// intensity is not 0.
pub open spec fn lines_of(window: Seq<u64>) -> Seq<Line>
    decreases window.len(),
{
    if window.len() == 0 {
        Seq::empty()
    } else if window.len() > 1 && window.last() != 0 {
        lines_of(window.drop_last()).push(
            Line { position: (window.len() - 1) as usize, intensity: window.last() },
        )
    } else {
        lines_of(window.drop_last())
    }
}

/// `span` covers exactly the kernel samples that the stick at `position`
/// adds to the output, and tells where each of them lands.
pub open spec fn is_span_of(span: KernelSpan, position: int, point_count: int) -> bool {
    &&& span.first < span.end
    &&& forall|i: int|
        span.first <= i < span.end <==> #[trigger] lands_inside(position, i, point_count)
    &&& span.first_destination == landing(position, span.first as int, point_count)
}

/// The lines of a window, lowest first.
pub fn occupied_lines(window: &Vec<u64>) -> (lines: Vec<Line>)
    ensures
        lines@ == lines_of(window@),
{
    let mut lines: Vec<Line> = Vec::new();
    let mut position: usize = 0;
    while position < window.len()
        invariant
            position <= window.len(),
            lines@ == lines_of(window@.take(position as int)),
        decreases window.len() - position,
    {
        proof {
            assert(window@.take(position + 1).drop_last() =~= window@.take(position as int));
        }
        if position >= 1 && window[position] != 0 {
            lines.push(Line { position, intensity: window[position] });
        }
        position += 1;
    }
    proof {
        assert(window@.take(position as int) =~= window@);
    }
    lines
}

/// The kernel samples that the stick at `position` adds to the output, or
/// `None` where `position` is no point of the window, so that it adds none.
pub fn kernel_span(position: usize, point_count: usize) -> (r: Option<KernelSpan>)
    ensures
        r.is_some() == is_point(position as int, point_count as int),
        r.is_some() ==> is_span_of(r.unwrap(), position as int, point_count as int),
{
    if position < 1 || position >= point_count {
        return None;
    }
    let half = point_count / 2;
    // Samples below `first` land on index 0 or lower.
    let first = if position > half {
        1
    } else {
        half - position + 1
    };
    // Samples from `end` on land on index `point_count` or higher.
    let end = if position <= half {
        point_count
    } else {
        point_count - (position - half)
    };
    let first_destination = if position > half {
        position - half + 1
    } else {
        1
    };
    let span = KernelSpan { first, end, first_destination };
    proof {
        assert(lands_inside(position as int, half as int, point_count as int));
    }
    Some(span)
}

/// The samples of a span land one after the other from its first
/// destination on.
pub proof fn lemma_span_lays_out_the_landings(
    span: KernelSpan,
    position: int,
    kernel_index: int,
    point_count: int,
)
    requires
        is_span_of(span, position, point_count),
    ensures
        lands_inside(position, kernel_index, point_count) <==> span.first <= kernel_index
            < span.end,
        landing(position, kernel_index, point_count) == span.first_destination + (kernel_index
            - span.first),
{
}

/// A stick has one span: two spans of the same stick in the same window are
/// equal.
pub proof fn lemma_span_is_unique(
    one: KernelSpan,
    other: KernelSpan,
    position: int,
    point_count: int,
)
    requires
        is_span_of(one, position, point_count),
        is_span_of(other, position, point_count),
    ensures
        one == other,
{
    assert(lands_inside(position, one.first as int, point_count));
    assert(lands_inside(position, other.first as int, point_count));
    assert(lands_inside(position, one.end - 1, point_count));
    assert(lands_inside(position, other.end - 1, point_count));
}

/// Every sample that lands inside does so on exactly the index that lies as
/// far from the stick as the sample lies from the kernel's middle, and two
/// samples of one stick never share an output index.
pub proof fn lemma_landing_is_a_shift(
    position: int,
    first: int,
    second: int,
    point_count: int,
)
    ensures
        landing(position, first, point_count) - position == first - point_count / 2,
        landing(position, first, point_count) == landing(position, second, point_count)
            ==> first == second,
{
}

} // verus!
