//! Stick spectra of radicals and the control of a greedy fit, verified.
//!
//! A radical's hyperfine pattern is built on the integer grid of the swept
//! window: each group of equivalent nuclei is a comb of offsets (`comb`),
//! the pattern is the seed line split by every nucleus (`sticks`), centered
//! in the window (`center`) and laid out for the convolution with a
//! lineshape (`convolve`). The fit keeps a candidate only where it is better
//! (`fit`). `laws` states what holds of every pattern and window.
//!
//! Lineshapes, residuals and the random moves of the parameters are
//! floating point and live with the caller. So does every value that a file
//! writes as a real number: `io` lays out the two text formats and reads
//! their integers, over the characters, lines and words of `text`.
//!
//! `about`, `logger`, `preferences` and `shortcuts` hold the state of the
//! program's panels.

pub mod about;
pub mod center;
pub mod comb;
pub mod convolve;
pub mod fit;
pub mod io;
pub mod laws;
pub mod logger;
pub mod preferences;
pub mod shortcuts;
pub mod sticks;
pub mod text;

use vstd::prelude::*;

verus! {

/// The sum of two sizes.
pub fn add(left: usize, right: usize) -> (sum: usize)
    requires
        left + right <= usize::MAX,
    ensures
        sum == left + right,
{
    left + right
}

} // verus!
