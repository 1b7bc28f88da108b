//! Start/stop decisions of the background capture task.
use vstd::prelude::*;

verus! {

/// What one scheduling step of the capture runner decides.
#[derive(Clone, Copy, Debug, PartialEq, Eq, Structural)]
pub struct RunnerStep {
    /// A new capture task must be launched in this step.
    pub start_task: bool,
    /// Value of the shared "task running" flag after the step.
    pub running: bool,
}

/// The decision of one step: launch exactly when capture is enabled and no
/// task runs; afterwards the flag equals the switch.
pub open spec fn spec_runner_step(control: bool, running: bool) -> RunnerStep {
    RunnerStep { start_task: control && !running, running: control }
}

/// Decides, from the user's `control` switch and the shared `running` flag,
/// whether to launch the capture task and what the flag becomes.
///
/// A task is launched when capture is enabled and none runs; the flag is
/// raised then; when capture is disabled while a task runs, the flag is
/// lowered, which makes the running task leave its loop.
pub fn runner_step(control: bool, running: bool) -> (step: RunnerStep)
    ensures
        step == spec_runner_step(control, running),
{
    let mut running = running;
    let mut start_task = false;
    if control && !running {
        start_task = true;
        running = true;
    }
    if !control && running {
        running = false;
    }
    RunnerStep { start_task, running }
}

/// Steps settle at once: after one step, further steps with the same switch
/// launch no task and leave the flag as it is, so at most one capture task
/// is launched while capture stays enabled.
pub proof fn lemma_runner_step_settles(control: bool, running: bool)
    ensures
        !spec_runner_step(control, spec_runner_step(control, running).running).start_task,
        spec_runner_step(control, spec_runner_step(control, running).running).running
            == spec_runner_step(control, running).running,
{
}

} // verus!
