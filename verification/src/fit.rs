//! The fit step controller: greedy random search that keeps a candidate only
//! where it fits better than the best so far.
//!
//! Residuals are compared through their rank, an integer that orders them:
//! a smaller rank is a better fit. The caller maps every residual that could
//! be computed to its rank by a map that keeps the order, and reports one
//! that could not be computed as `None`.

use vstd::prelude::*;

verus! {

/// Whether the fit loop runs.
#[derive(Clone, Copy, Debug, PartialEq, Eq)]
pub enum FitPhase {
    /// Fitting is switched off, or no empirical spectrum is loaded.
    Idle,
    /// Each tick runs one step.
    Iterating,
}

/// The phase that follows from the two switches: the loop runs while fitting
/// is enabled and an empirical spectrum is loaded.
pub open spec fn phase_of(fitting_enabled: bool, empirical_loaded: bool) -> FitPhase {
    if fitting_enabled && empirical_loaded {
        FitPhase::Iterating
    } else {
        FitPhase::Idle
    }
}

/// The phase of the fit loop.
pub fn fit_phase(fitting_enabled: bool, empirical_loaded: bool) -> (phase: FitPhase)
    ensures
        phase == phase_of(fitting_enabled, empirical_loaded),
{
    if fitting_enabled && empirical_loaded {
        FitPhase::Iterating
    } else {
        FitPhase::Idle
    }
}

/// What can happen to the fit loop.
#[derive(Clone, Copy, Debug, PartialEq, Eq)]
pub enum FitEvent {
    /// Fitting is switched on or off.
    Toggle(bool),
    /// An empirical spectrum was loaded.
    EmpiricalLoaded,
    /// The empirical spectrum was cleared.
    EmpiricalCleared,
    /// The clock asks for the next step.
    Tick,
    /// The clock asks for the spectrum of the best radicals so far.
    Redraw,
}

/// What the driver of the fit loop has to do after an event.
#[derive(Clone, Copy, Debug, PartialEq, Eq)]
pub enum FitAction {
    /// Nothing.
    Nothing,
    /// Run one step and show the candidate's spectrum.
    RunStep,
    /// Synthesize the spectrum of the best radicals so far and show it.
    Synthesize,
}

/// The switches of the fit loop and the number of steps it has run.
#[derive(Clone, Copy, Debug, PartialEq, Eq)]
pub struct FitLoop {
    /// Whether fitting is switched on.
    pub fitting_enabled: bool,
    /// Whether an empirical spectrum is loaded.
    pub empirical_loaded: bool,
    /// Number of steps so far; it stays at the largest number once there.
    pub iterations: usize,
}

impl FitLoop {
    /// The phase that the loop is in.
    pub open spec fn phase(self) -> FitPhase {
        phase_of(self.fitting_enabled, self.empirical_loaded)
    }

    /// The loop after `event`: the switches follow their events, and a tick
    /// in the iterating phase counts one step.
    pub open spec fn after(self, event: FitEvent) -> FitLoop {
        match event {
            FitEvent::Toggle(on) => FitLoop { fitting_enabled: on, ..self },
            FitEvent::EmpiricalLoaded => FitLoop { empirical_loaded: true, ..self },
            FitEvent::EmpiricalCleared => FitLoop { empirical_loaded: false, ..self },
            FitEvent::Tick => if self.phase() == FitPhase::Iterating && self.iterations
                < usize::MAX {
                FitLoop { iterations: (self.iterations + 1) as usize, ..self }
            } else {
                self
            },
            FitEvent::Redraw => self,
        }
    }

    /// What `event` asks of the driver: a tick runs a step in the iterating
    /// phase only, and a redraw synthesizes while fitting is switched on.
    pub open spec fn action_on(self, event: FitEvent) -> FitAction {
        match event {
            FitEvent::Tick => if self.phase() == FitPhase::Iterating {
                FitAction::RunStep
            } else {
                FitAction::Nothing
            },
            FitEvent::Redraw => if self.fitting_enabled {
                FitAction::Synthesize
            } else {
                FitAction::Nothing
            },
            _ => FitAction::Nothing,
        }
    }

    /// The loop at start: fitting off, no spectrum, no step.
    pub fn new() -> (fit_loop: Self)
        ensures
            !fit_loop.fitting_enabled,
            !fit_loop.empirical_loaded,
            fit_loop.iterations == 0,
    {
        FitLoop { fitting_enabled: false, empirical_loaded: false, iterations: 0 }
    }

    /// Applies one event and tells the driver what to do.
    pub fn handle(&mut self, event: FitEvent) -> (action: FitAction)
        ensures
            *final(self) == old(self).after(event),
            action == old(self).action_on(event),
    {
        match event {
            FitEvent::Toggle(on) => {
                self.fitting_enabled = on;
                FitAction::Nothing
            },
            FitEvent::EmpiricalLoaded => {
                self.empirical_loaded = true;
                FitAction::Nothing
            },
            FitEvent::EmpiricalCleared => {
                self.empirical_loaded = false;
                FitAction::Nothing
            },
            FitEvent::Tick => {
                if self.fitting_enabled && self.empirical_loaded {
                    if self.iterations < usize::MAX {
                        self.iterations = self.iterations + 1;
                    }
                    FitAction::RunStep
                } else {
                    FitAction::Nothing
                }
            },
            FitEvent::Redraw => {
                if self.fitting_enabled {
                    FitAction::Synthesize
                } else {
                    FitAction::Nothing
                }
            },
        }
    }
}

/// A step runs on a tick in the iterating phase and on nothing else, and the
/// count of steps moves with a step only.
pub proof fn lemma_steps_run_only_while_iterating(fit_loop: FitLoop, event: FitEvent)
    ensures
        fit_loop.action_on(event) == FitAction::RunStep <==> event == FitEvent::Tick
            && fit_loop.phase() == FitPhase::Iterating,
        fit_loop.action_on(event) != FitAction::RunStep ==> fit_loop.after(event).iterations
            == fit_loop.iterations,
        fit_loop.after(event).iterations >= fit_loop.iterations,
{
}

/// The loop enters the iterating phase when the second of its switches goes
/// on, and leaves it when one of them goes off; a tick and a redraw leave
/// the phase as it is.
pub proof fn lemma_phase_follows_the_switches(fit_loop: FitLoop, event: FitEvent)
    ensures
        fit_loop.after(event).phase() == match event {
            FitEvent::Toggle(on) => phase_of(on, fit_loop.empirical_loaded),
            FitEvent::EmpiricalLoaded => phase_of(fit_loop.fitting_enabled, true),
            FitEvent::EmpiricalCleared => FitPhase::Idle,
            FitEvent::Tick => fit_loop.phase(),
            FitEvent::Redraw => fit_loop.phase(),
        },
{
}

/// The rank of a state that no candidate has been compared with yet. Every
/// rank below it is accepted in its place.
pub const UNFITTED: u64 = 0xffff_ffff_ffff_ffff;

/// What became of the candidate of one step.
#[derive(Clone, Copy, Debug, PartialEq, Eq)]
pub enum Verdict {
    /// The candidate fits better and is the best so far from now on.
    Accepted,
    /// The candidate does not fit better; the best so far stays.
    Rejected,
    /// The candidate's residual could not be computed; the best so far stays.
    Failed,
}

/// The best radicals so far and the rank of their residual.
#[derive(Debug, PartialEq, Eq)]
pub struct FitState<R> {
    /// The best radicals so far.
    pub radicals: R,
    /// Rank of their residual.
    pub sigma: u64,
}

/// What a step decides of a candidate with this residual, against the rank
/// of the best so far: only a strictly smaller rank is accepted.
pub open spec fn verdict_of(sigma: u64, residual: Option<u64>) -> Verdict {
    match residual {
        None => Verdict::Failed,
        Some(rank) => if rank < sigma {
            Verdict::Accepted
        } else {
            Verdict::Rejected
        },
    }
}

/// The state after a step: the candidate with its rank where it is accepted,
/// the state before the step otherwise.
pub open spec fn state_after<R>(state: FitState<R>, candidate: R, residual: Option<u64>) -> FitState<
    R,
> {
    if verdict_of(state.sigma, residual) == Verdict::Accepted {
        FitState { radicals: candidate, sigma: residual.unwrap() }
    } else {
        state
    }
}

impl<R> FitState<R> {
    /// The state before the first step.
    pub fn new(radicals: R) -> (state: Self)
        ensures
            state.radicals == radicals,
            state.sigma == UNFITTED,
    {
        FitState { radicals, sigma: UNFITTED }
    }

    /// One step: the candidate and its rank replace the best so far where
    /// the rank is strictly smaller; otherwise the state is returned as it
    /// came.
    pub fn step(self, candidate: R, residual: Option<u64>) -> (next: (Self, Verdict))
        ensures
            next.0 == state_after(self, candidate, residual),
            next.1 == verdict_of(self.sigma, residual),
    {
        match residual {
            None => (self, Verdict::Failed),
            Some(rank) => {
                if rank < self.sigma {
                    (FitState { radicals: candidate, sigma: rank }, Verdict::Accepted)
                } else {
                    (self, Verdict::Rejected)
                }
            },
        }
    }
}

/// Some step leads from `before` to `after`.
pub open spec fn steps_to<R>(before: FitState<R>, after: FitState<R>) -> bool {
    exists|candidate: R, residual: Option<u64>|
        after == #[trigger] state_after(before, candidate, residual)
}

/// Each state but the first comes from the one before it by a step.
pub open spec fn is_fit_run<R>(states: Seq<FitState<R>>) -> bool {
    forall|i: int| 0 < i < states.len() ==> steps_to(states[i - 1], #[trigger] states[i])
}

/// Along any run of steps the rank of the best residual never rises.
pub proof fn lemma_sigma_never_rises<R>(states: Seq<FitState<R>>, earlier: int, later: int)
    requires
        is_fit_run(states),
        0 <= earlier <= later < states.len(),
    ensures
        states[later].sigma <= states[earlier].sigma,
    decreases later - earlier,
{
    if earlier < later {
        lemma_sigma_never_rises(states, earlier, later - 1);
        assert(steps_to(states[later - 1], states[later]));
    }
}

/// A state changes only where the step accepts, and then to a strictly
/// smaller rank.
pub proof fn lemma_step_changes_only_for_better<R>(
    state: FitState<R>,
    candidate: R,
    residual: Option<u64>,
)
    ensures
        verdict_of(state.sigma, residual) == Verdict::Accepted ==> state_after(
            state,
            candidate,
            residual,
        ).sigma < state.sigma,
        verdict_of(state.sigma, residual) != Verdict::Accepted ==> state_after(
            state,
            candidate,
            residual,
        ) == state,
{
}

/// From the state before the first step, every candidate whose residual
/// could be computed and ranks below `UNFITTED` is accepted.
pub proof fn lemma_first_candidate_is_accepted<R>(radicals: R, candidate: R, rank: u64)
    requires
        rank < UNFITTED,
    ensures
        state_after(FitState { radicals, sigma: UNFITTED }, candidate, Some(rank)) == (FitState {
            radicals: candidate,
            sigma: rank,
        }),
{
}

} // verus!
