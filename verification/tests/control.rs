use bevy_webcam_facial::control::{runner_step, RunnerStep};

#[test]
fn starts_task_when_enabled_and_idle() {
    assert_eq!(runner_step(true, false), RunnerStep { start_task: true, running: true });
}

#[test]
fn keeps_running_task() {
    assert_eq!(runner_step(true, true), RunnerStep { start_task: false, running: true });
}

#[test]
fn stops_running_task_when_disabled() {
    assert_eq!(runner_step(false, true), RunnerStep { start_task: false, running: false });
}

#[test]
fn idle_and_disabled_does_nothing() {
    assert_eq!(runner_step(false, false), RunnerStep { start_task: false, running: false });
}

#[test]
fn second_step_starts_nothing() {
    let first = runner_step(true, false);
    let second = runner_step(true, first.running);
    assert!(!second.start_task);
    assert!(second.running);
}
