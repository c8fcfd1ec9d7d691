//! The guarded-sampling mode switch.
//!
//! The backend offers one diagnostic mode: a sampled fraction of allocations
//! is redirected through a guard-page-backed path. Activation is process
//! wide and one directional — there is no deactivation — so the state
//! machine has two states and a single transition into its terminal state.

use vstd::prelude::*;

verus! {

/// The backend's guarded-sampling state: initially `Inactive`, and
/// `Active` — for the rest of the process's life — once activated.
#[derive(Clone, Copy, Debug, PartialEq, Eq, Structural)]
pub enum SamplingMode {
    Inactive,
    Active,
}

/// The one transition of the mode state machine: whatever the state was,
/// activation leaves the mode `Active`.
pub open spec fn after_activate(m: SamplingMode) -> SamplingMode {
    SamplingMode::Active
}

/// Activates guarded sampling. No return value and no failure signal: the
/// only observable effect is the mode's new state.
pub fn activate_guarded_sampling(mode: &mut SamplingMode)
    ensures
        *final(mode) == after_activate(*old(mode)),
        *final(mode) == SamplingMode::Active,
{
    *mode = SamplingMode::Active;
}

/// Activation is idempotent: a second activation observes the same state a
/// single one produced.
pub proof fn lemma_activate_idempotent(m: SamplingMode)
    ensures
        after_activate(after_activate(m)) == after_activate(m),
{
}

} // verus!
