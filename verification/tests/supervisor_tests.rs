use ptymux::geometry::{Rect, TerminalSize};
use ptymux::layout::{Child, LayoutTree, Orientation};
use ptymux::supervisor::{
    plan_resize, transition, SupervisorAction, SupervisorEvent, SupervisorState,
};

fn two_pane_tree() -> LayoutTree {
    LayoutTree::Split {
        orientation: Orientation::Vertical,
        children: vec![
            Child { weight: 1, tree: LayoutTree::Pane { id: 1 } },
            Child { weight: 1, tree: LayoutTree::Pane { id: 2 } },
        ],
    }
}

#[test]
fn startup_success_reaches_running() {
    let (s, a) = transition(SupervisorState::Initializing, SupervisorEvent::SpawnsSucceeded);
    assert_eq!(s, SupervisorState::Running);
    assert_eq!(a, SupervisorAction::Continue);
}

#[test]
fn spawn_failure_aborts_startup() {
    let (s, a) = transition(SupervisorState::Initializing, SupervisorEvent::SpawnFailed);
    assert_eq!(s, SupervisorState::ShuttingDown);
    assert_eq!(a, SupervisorAction::ReportStartupFailure);
}

#[test]
fn window_change_triggers_resize_then_resumes() {
    let (s, a) = transition(SupervisorState::Running, SupervisorEvent::WindowChanged);
    assert_eq!(s, SupervisorState::Resizing);
    assert_eq!(a, SupervisorAction::RecomputeLayout);
    let (s2, a2) = transition(s, SupervisorEvent::LayoutSettled);
    assert_eq!(s2, SupervisorState::Running);
    assert_eq!(a2, SupervisorAction::Continue);
}

#[test]
fn all_sessions_dead_shuts_down_and_terminates() {
    let (s, a) = transition(SupervisorState::Running, SupervisorEvent::AllSessionsDead);
    assert_eq!(s, SupervisorState::ShuttingDown);
    assert_eq!(a, SupervisorAction::RestoreTerminal);
    let (s2, a2) = transition(s, SupervisorEvent::CleanupDone);
    assert_eq!(s2, SupervisorState::Terminated);
    assert_eq!(a2, SupervisorAction::Exit);
}

#[test]
fn render_failure_is_process_fatal() {
    let (s, a) = transition(SupervisorState::Running, SupervisorEvent::RenderFailed);
    assert_eq!(s, SupervisorState::ShuttingDown);
    assert_eq!(a, SupervisorAction::RestoreTerminal);
}

#[test]
fn quit_request_shuts_down_from_running() {
    let (s, a) = transition(SupervisorState::Running, SupervisorEvent::QuitRequested);
    assert_eq!(s, SupervisorState::ShuttingDown);
    assert_eq!(a, SupervisorAction::RestoreTerminal);
}

#[test]
fn terminated_is_absorbing() {
    let (s, a) = transition(SupervisorState::Terminated, SupervisorEvent::WindowChanged);
    assert_eq!(s, SupervisorState::Terminated);
    assert_eq!(a, SupervisorAction::Exit);
}

#[test]
fn resize_to_fitting_size_uses_the_computed_layout() {
    let plan = plan_resize(&two_pane_tree(), 1, TerminalSize { rows: 24, cols: 80 });
    assert!(!plan.fell_back);
    assert_eq!(
        plan.panes,
        vec![
            (1, Rect { x: 0, y: 0, width: 40, height: 24 }),
            (2, Rect { x: 40, y: 0, width: 40, height: 24 }),
        ]
    );
}

#[test]
fn too_small_resize_falls_back_to_single_pane() {
    // Three columns cannot hold two bordered panes: the plan falls back
    // to one full-screen pane (the focused one) instead of failing.
    let plan = plan_resize(&two_pane_tree(), 2, TerminalSize { rows: 24, cols: 3 });
    assert!(plan.fell_back);
    assert_eq!(plan.panes, vec![(2, Rect { x: 0, y: 0, width: 3, height: 24 })]);
}
