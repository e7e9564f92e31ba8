use esrafel::fit::{
    fit_phase, FitAction, FitEvent, FitLoop, FitPhase, FitState, Verdict, UNFITTED,
};

#[test]
fn the_loop_runs_only_with_both_switches() {
    assert_eq!(fit_phase(false, false), FitPhase::Idle);
    assert_eq!(fit_phase(true, false), FitPhase::Idle);
    assert_eq!(fit_phase(false, true), FitPhase::Idle);
    assert_eq!(fit_phase(true, true), FitPhase::Iterating);
}

#[test]
fn the_first_state_is_unfitted() {
    let state = FitState::new(vec![1u8, 2, 3]);
    assert_eq!(state.radicals, vec![1u8, 2, 3]);
    assert_eq!(state.sigma, UNFITTED);
    assert_eq!(UNFITTED, u64::MAX);
}

#[test]
fn the_first_computable_candidate_is_accepted() {
    let (next, verdict) = FitState::new("start").step("candidate", Some(u64::MAX - 1));
    assert_eq!(verdict, Verdict::Accepted);
    assert_eq!(next, FitState { radicals: "candidate", sigma: u64::MAX - 1 });
    let (next, verdict) = FitState::new("start").step("candidate", Some(0));
    assert_eq!(verdict, Verdict::Accepted);
    assert_eq!(next, FitState { radicals: "candidate", sigma: 0 });
}

#[test]
fn a_better_candidate_replaces_the_best() {
    let state = FitState { radicals: 'a', sigma: 100 };
    let (next, verdict) = state.step('b', Some(99));
    assert_eq!(verdict, Verdict::Accepted);
    assert_eq!(next, FitState { radicals: 'b', sigma: 99 });
}

#[test]
fn an_equal_or_worse_candidate_is_rejected() {
    let state = FitState { radicals: 'a', sigma: 100 };
    let (next, verdict) = state.step('b', Some(100));
    assert_eq!(verdict, Verdict::Rejected);
    assert_eq!(next, FitState { radicals: 'a', sigma: 100 });
    let (next, verdict) = next.step('c', Some(101));
    assert_eq!(verdict, Verdict::Rejected);
    assert_eq!(next, FitState { radicals: 'a', sigma: 100 });
    let (next, verdict) = next.step('d', Some(u64::MAX));
    assert_eq!(verdict, Verdict::Rejected);
    assert_eq!(next, FitState { radicals: 'a', sigma: 100 });
}

#[test]
fn a_residual_that_could_not_be_computed_fails_the_step() {
    let state = FitState { radicals: 'a', sigma: 100 };
    let (next, verdict) = state.step('b', None);
    assert_eq!(verdict, Verdict::Failed);
    assert_eq!(next, FitState { radicals: 'a', sigma: 100 });
    let (next, verdict) = FitState::new('a').step('b', None);
    assert_eq!(verdict, Verdict::Failed);
    assert_eq!(next, FitState { radicals: 'a', sigma: UNFITTED });
}

#[test]
fn nothing_is_accepted_in_place_of_rank_zero() {
    let state = FitState { radicals: 'a', sigma: 0 };
    let (next, verdict) = state.step('b', Some(0));
    assert_eq!(verdict, Verdict::Rejected);
    assert_eq!(next, FitState { radicals: 'a', sigma: 0 });
}

#[test]
fn sigma_never_rises_along_a_run() {
    let residuals = [
        Some(900u64),
        Some(950),
        None,
        Some(400),
        Some(400),
        Some(399),
        Some(u64::MAX),
        None,
        Some(17),
        Some(500),
        Some(0),
        Some(1),
    ];
    let mut state = FitState::new(0usize);
    let mut previous = state.sigma;
    let mut accepted = Vec::new();
    for (candidate, residual) in residuals.iter().enumerate() {
        let (next, verdict) = state.step(candidate + 1, *residual);
        assert!(next.sigma <= previous);
        if verdict == Verdict::Accepted {
            assert!(next.sigma < previous);
            assert_eq!(Some(next.sigma), *residual);
            assert_eq!(next.radicals, candidate + 1);
            accepted.push(next.sigma);
        } else {
            assert_eq!(next.sigma, previous);
        }
        previous = next.sigma;
        state = next;
    }
    assert_eq!(accepted, vec![900, 400, 399, 17, 0]);
    assert_eq!(state, FitState { radicals: 11, sigma: 0 });
}

#[test]
fn the_rank_of_a_residual_keeps_the_order_of_residuals() {
    // The bits of a non-negative float are such a rank.
    let residuals = [0.0f64, 1e-300, 0.5, 1.0, 1.5, 1e20, f64::MAX, f64::INFINITY];
    for pair in residuals.windows(2) {
        assert!(pair[0] < pair[1]);
        assert!(pair[0].to_bits() < pair[1].to_bits());
    }
    assert!(f64::INFINITY.to_bits() < UNFITTED);
    let state = FitState { radicals: (), sigma: 1e20f64.to_bits() };
    let (next, verdict) = state.step((), Some(3.25f64.to_bits()));
    assert_eq!(verdict, Verdict::Accepted);
    assert_eq!(f64::from_bits(next.sigma), 3.25);
}

fn fresh() -> FitLoop {
    FitLoop::new()
}

#[test]
fn the_loop_starts_idle() {
    assert_eq!(
        fresh(),
        FitLoop { fitting_enabled: false, empirical_loaded: false, iterations: 0 }
    );
}

#[test]
fn a_tick_runs_a_step_only_while_iterating() {
    let mut fit_loop = fresh();
    assert_eq!(fit_loop.handle(FitEvent::Tick), FitAction::Nothing);
    assert_eq!(fit_loop.handle(FitEvent::Toggle(true)), FitAction::Nothing);
    assert_eq!(fit_loop.handle(FitEvent::Tick), FitAction::Nothing);
    assert_eq!(fit_loop.iterations, 0);
    assert_eq!(fit_loop.handle(FitEvent::EmpiricalLoaded), FitAction::Nothing);
    assert_eq!(fit_loop.handle(FitEvent::Tick), FitAction::RunStep);
    assert_eq!(fit_loop.handle(FitEvent::Tick), FitAction::RunStep);
    assert_eq!(
        fit_loop,
        FitLoop { fitting_enabled: true, empirical_loaded: true, iterations: 2 }
    );
    assert_eq!(fit_loop.handle(FitEvent::Toggle(false)), FitAction::Nothing);
    assert_eq!(fit_loop.handle(FitEvent::Tick), FitAction::Nothing);
    assert_eq!(fit_loop.handle(FitEvent::Toggle(true)), FitAction::Nothing);
    assert_eq!(fit_loop.handle(FitEvent::EmpiricalCleared), FitAction::Nothing);
    assert_eq!(fit_loop.handle(FitEvent::Tick), FitAction::Nothing);
    assert_eq!(
        fit_loop,
        FitLoop { fitting_enabled: true, empirical_loaded: false, iterations: 2 }
    );
}

#[test]
fn a_redraw_synthesizes_while_fitting_is_switched_on() {
    let mut fit_loop = fresh();
    assert_eq!(fit_loop.handle(FitEvent::Redraw), FitAction::Nothing);
    fit_loop.handle(FitEvent::EmpiricalLoaded);
    assert_eq!(fit_loop.handle(FitEvent::Redraw), FitAction::Nothing);
    fit_loop.handle(FitEvent::Toggle(true));
    assert_eq!(fit_loop.handle(FitEvent::Redraw), FitAction::Synthesize);
    fit_loop.handle(FitEvent::EmpiricalCleared);
    assert_eq!(fit_loop.handle(FitEvent::Redraw), FitAction::Synthesize);
    assert_eq!(fit_loop.iterations, 0);
}

#[test]
fn the_count_of_steps_stays_at_the_largest_number() {
    let mut fit_loop =
        FitLoop { fitting_enabled: true, empirical_loaded: true, iterations: usize::MAX - 1 };
    assert_eq!(fit_loop.handle(FitEvent::Tick), FitAction::RunStep);
    assert_eq!(fit_loop.iterations, usize::MAX);
    assert_eq!(fit_loop.handle(FitEvent::Tick), FitAction::RunStep);
    assert_eq!(fit_loop.iterations, usize::MAX);
}
