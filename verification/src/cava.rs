//! Keeping cava, the audio visualiser, running exactly while the spectrum page is up.
use vstd::prelude::*;

verus! {

/// What to do with the cava child process.
pub enum CavaStep {
    /// Leave things as they are.
    Keep,
    /// Forget any old child (it has exited) and start a new one.
    Start,
    /// Forget the child: it has exited on its own (an audio server restart).
    Forget,
    /// Kill the running child and reap it.
    Stop,
}

/// The step for a child in the given state (see `cava_step`).
pub open spec fn step_for(child: Option<bool>, want: bool) -> CavaStep {
    match child {
        None => if want {
            CavaStep::Start
        } else {
            CavaStep::Keep
        },
        Some(true) => if want {
            CavaStep::Keep
        } else {
            CavaStep::Stop
        },
        Some(false) => if want {
            CavaStep::Start
        } else {
            CavaStep::Forget
        },
    }
}

/// Whether a cava runs once `step` has been taken from the given state (a start is taken
/// to succeed).
pub open spec fn runs_after(child: Option<bool>, step: CavaStep) -> bool {
    match step {
        CavaStep::Keep => child == Some(true),
        CavaStep::Start => true,
        CavaStep::Forget => false,
        CavaStep::Stop => false,
    }
}

/// cava runs exactly while it is wanted: after the step, a cava is running if and only if
/// one is wanted.
pub proof fn lemma_cava_runs_while_wanted(child: Option<bool>, want: bool)
    ensures
        runs_after(child, step_for(child, want)) == want,
{
}

/// The step that makes cava match `want`, given the child: `None` when there is none,
/// `Some(true)` while it runs, `Some(false)` once it has exited or cannot be asked.
/// A cava that died on its own is reaped here and restarted on the next call.
pub fn cava_step(child: Option<bool>, want: bool) -> (step: CavaStep)
    ensures
        step == step_for(child, want),
{
    match child {
        None => if want {
            CavaStep::Start
        } else {
            CavaStep::Keep
        },
        Some(running) => if running {
            if want {
                CavaStep::Keep
            } else {
                CavaStep::Stop
            }
        } else if want {
            CavaStep::Start
        } else {
            CavaStep::Forget
        },
    }
}

} // verus!
