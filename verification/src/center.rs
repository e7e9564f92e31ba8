//! Centering: the stick pattern moved into the middle of the swept window.

use crate::sticks::{is_point_count, StickPattern, SynthesisError, MAX_BUFFER_LEN};
use vstd::prelude::*;

verus! {

/// How far the pattern moves up the axis to sit in the middle of
/// `point_count` points: half of the room that its highest line leaves,
/// truncated toward zero, and negative where the pattern is wider than the
/// window and moves down.
pub open spec fn center_shift(point_count: int, peak_index: int) -> int {
    if peak_index <= point_count {
        (point_count - peak_index) / 2
    } else {
        -((peak_index - point_count) / 2)
    }
}

/// The line of a pattern at `index`. Only the indices from 1 to the highest
/// line hold lines.
pub open spec fn pattern_line(intensity: Seq<u64>, peak_index: int, index: int) -> u64 {
    if 1 <= index <= peak_index && index < intensity.len() {
        intensity[index]
    } else {
        0
    }
}

/// The line at `index` of the window of `point_count` points: the line that
/// the shift brings there. Index 0 holds no line, and a line that the shift
/// takes out of the window is lost.
pub open spec fn centered_line(
    intensity: Seq<u64>,
    peak_index: int,
    point_count: int,
    index: int,
) -> u64 {
    if 1 <= index < point_count {
        pattern_line(intensity, peak_index, index - center_shift(point_count, peak_index))
    } else {
        0
    }
}

/// `window` holds, for each of `point_count` points, the line that centering
/// brings there.
pub open spec fn is_window_of(
    window: Seq<u64>,
    intensity: Seq<u64>,
    peak_index: int,
    point_count: int,
) -> bool {
    &&& window.len() == point_count
    &&& forall|j: int|
        0 <= j < point_count ==> #[trigger] window[j] == centered_line(
            intensity,
            peak_index,
            point_count,
            j,
        )
}

impl StickPattern {
    /// The pattern as the window of `point_count` points sees it, centered.
    /// A point count that no window can have is refused.
    pub fn center(&self, point_count: usize) -> (r: Result<Vec<u64>, SynthesisError>)
        ensures
            match r {
                Ok(window) => is_point_count(point_count) && is_window_of(
                    window@,
                    self.intensity@,
                    self.peak_index as int,
                    point_count as int,
                ),
                Err(error) => !is_point_count(point_count) && error
                    == SynthesisError::InvalidPointCount,
            },
    {
        if point_count < 2 || point_count > MAX_BUFFER_LEN {
            return Err(SynthesisError::InvalidPointCount);
        }
        let peak = self.peak_index;
        let upward = peak <= point_count;
        let shift = if upward {
            (point_count - peak) / 2
        } else {
            (peak - point_count) / 2
        };
        let mut window: Vec<u64> = vec![0u64; point_count];
        let mut j: usize = 0;
        while j < point_count
            invariant
                j <= point_count,
                window.len() == point_count,
                peak == self.peak_index,
                upward == (peak <= point_count),
                upward ==> shift == (point_count - peak) / 2,
                !upward ==> shift == (peak - point_count) / 2,
                forall|i: int|
                    0 <= i < j ==> #[trigger] window[i] == centered_line(
                        self.intensity@,
                        peak as int,
                        point_count as int,
                        i,
                    ),
            decreases point_count - j,
        {
            let mut line: u64 = 0;
            if j >= 1 {
                if upward {
                    if j > shift {
                        let source = j - shift;
                        if source <= peak && source < self.intensity.len() {
                            line = self.intensity[source];
                        }
                    }
                } else {
                    let source = j + shift;
                    if source <= peak && source < self.intensity.len() {
                        line = self.intensity[source];
                    }
                }
            }
            window.set(j, line);
            j += 1;
        }
        Ok(window)
    }
}

} // verus!
