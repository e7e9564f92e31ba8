use esrafel::comb::HyperfineComb;
use esrafel::convolve::destination;
use esrafel::sticks::{stick_pattern, StickPattern, SynthesisError, MAX_BUFFER_LEN};

fn comb(offsets: &[usize], equivalent_count: usize) -> HyperfineComb {
    HyperfineComb { offsets: offsets.to_vec(), equivalent_count }
}

fn lines(window: &[u64]) -> Vec<(usize, u64)> {
    let mut found = Vec::new();
    for (index, &intensity) in window.iter().enumerate() {
        if intensity != 0 {
            found.push((index, intensity));
        }
    }
    found
}

#[test]
fn the_lone_line_sits_in_the_middle() {
    let pattern = stick_pattern(&Vec::new(), 1024).unwrap();
    let window = pattern.center(1024).unwrap();
    assert_eq!(window.len(), 1024);
    assert_eq!(lines(&window), vec![(512, 1)]);
    let window = stick_pattern(&Vec::new(), 9).unwrap().center(9).unwrap();
    assert_eq!(lines(&window), vec![(5, 1)]);
    let window = stick_pattern(&Vec::new(), 2).unwrap().center(2).unwrap();
    assert_eq!(lines(&window), vec![(1, 1)]);
}

#[test]
fn two_lines_sit_around_the_middle() {
    // Peak at 4 in 10 points: shift (10 - 4) / 2 = 3.
    let window = stick_pattern(&vec![comb(&[3], 1)], 10).unwrap().center(10).unwrap();
    assert_eq!(lines(&window), vec![(4, 1), (7, 1)]);
    // Peak at 4 in 11 points: shift 7 / 2 = 3, truncated.
    let window = stick_pattern(&vec![comb(&[3], 1)], 11).unwrap().center(11).unwrap();
    assert_eq!(lines(&window), vec![(4, 1), (7, 1)]);
    // The scenario of a nitrogen-free radical with one proton on 1024 points.
    let window = stick_pattern(&vec![comb(&[143], 1)], 1024).unwrap().center(1024).unwrap();
    assert_eq!(lines(&window), vec![(441, 1), (584, 1)]);
    assert_eq!(441 - 1, 1023 - 584 + 1);
}

#[test]
fn a_pattern_that_fills_the_window_stays() {
    // Peak at 9 in 10 points: shift 0.
    let window = stick_pattern(&vec![comb(&[8], 1)], 10).unwrap().center(10).unwrap();
    assert_eq!(lines(&window), vec![(1, 1), (9, 1)]);
    // Peak at 10 in 10 points: shift 0, and index 10 is no point of the window.
    let window = stick_pattern(&vec![comb(&[9], 1)], 10).unwrap().center(10).unwrap();
    assert_eq!(lines(&window), vec![(1, 1)]);
}

#[test]
fn a_pattern_wider_than_the_window_moves_down_and_loses_its_ends() {
    // Lines at 1, 7, 13, peak 13 in 10 points: shift -(3 / 2) = -1.
    let pattern = stick_pattern(&vec![comb(&[6, 12], 1)], 10).unwrap();
    assert_eq!(lines(&pattern.intensity), vec![(1, 1), (7, 1), (13, 1)]);
    assert_eq!(lines(&pattern.center(10).unwrap()), vec![(6, 1)]);
    // Lines at 1, 5, 9, 13, 17, peak 17 in 8 points: shift -(9 / 2) = -4.
    let pattern = stick_pattern(&vec![comb(&[4], 4)], 8).unwrap();
    assert_eq!(lines(&pattern.center(8).unwrap()), vec![(1, 4), (5, 6)]);
}

#[test]
fn centering_reads_only_the_lines_up_to_the_peak() {
    let pattern = StickPattern { intensity: vec![9, 1, 0, 2, 7], peak_index: 3, total: 3 };
    assert_eq!(pattern.center(8), Ok(vec![0, 0, 0, 1, 0, 2, 0, 0]));
    assert_eq!(pattern.center(3), Ok(vec![0, 1, 0]));
    assert_eq!(pattern.center(2), Ok(vec![0, 1]));
    // A peak beyond the buffer: the missing lines count as absent.
    let pattern = StickPattern { intensity: vec![0, 1, 5], peak_index: 6, total: 6 };
    assert_eq!(pattern.center(4), Ok(vec![0, 5, 0, 0]));
}

#[test]
fn centering_refuses_a_point_count_that_no_window_has() {
    let pattern = stick_pattern(&vec![comb(&[3], 1)], 10).unwrap();
    assert_eq!(pattern.center(0), Err(SynthesisError::InvalidPointCount));
    assert_eq!(pattern.center(1), Err(SynthesisError::InvalidPointCount));
    assert_eq!(pattern.center(MAX_BUFFER_LEN + 1), Err(SynthesisError::InvalidPointCount));
    assert_eq!(pattern.center(usize::MAX), Err(SynthesisError::InvalidPointCount));
}

#[test]
fn centering_twice_gives_the_same_window() {
    let pattern = stick_pattern(&vec![comb(&[143, 286], 1), comb(&[31], 6)], 1024).unwrap();
    assert_eq!(pattern.center(1024), pattern.center(1024));
    assert!(pattern.center(1024).is_ok());
}

#[test]
fn the_kernel_middle_lands_on_the_stick() {
    assert_eq!(destination(512, 512, 1024), Some(512));
    assert_eq!(destination(512, 513, 1024), Some(513));
    assert_eq!(destination(512, 1, 1024), Some(1));
    assert_eq!(destination(512, 1023, 1024), Some(1023));
    assert_eq!(destination(300, 512, 1024), Some(300));
    assert_eq!(destination(300, 500, 1024), Some(288));
    // Odd point counts halve downwards: 9 / 2 = 4.
    assert_eq!(destination(5, 4, 9), Some(5));
    assert_eq!(destination(5, 8, 9), None);
    assert_eq!(destination(5, 7, 9), Some(8));
}

#[test]
fn samples_outside_the_window_are_dropped() {
    // Landing on index 0 or below.
    assert_eq!(destination(1, 5, 10), Some(1));
    assert_eq!(destination(1, 4, 10), None);
    assert_eq!(destination(3, 2, 10), None);
    assert_eq!(destination(3, 3, 10), Some(1));
    // Landing on index point_count or above.
    assert_eq!(destination(9, 5, 10), Some(9));
    assert_eq!(destination(9, 6, 10), None);
    assert_eq!(destination(7, 7, 10), Some(9));
    assert_eq!(destination(7, 8, 10), None);
}

#[test]
fn only_points_of_the_window_take_part() {
    assert_eq!(destination(0, 5, 10), None);
    assert_eq!(destination(5, 0, 10), None);
    assert_eq!(destination(10, 5, 10), None);
    assert_eq!(destination(5, 10, 10), None);
    assert_eq!(destination(1, 1, 1), None);
    assert_eq!(destination(0, 0, 0), None);
    assert_eq!(destination(1, 1, 2), Some(1));
    assert_eq!(destination(usize::MAX, usize::MAX, usize::MAX), None);
    assert_eq!(
        destination(usize::MAX - 1, usize::MAX / 2, usize::MAX),
        Some(usize::MAX - 1)
    );
    assert_eq!(destination(usize::MAX - 1, usize::MAX / 2 + 1, usize::MAX), None);
}
