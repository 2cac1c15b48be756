//! The supervisor: the top-level state machine that owns the sessions and
//! the pane tree. Its transitions are a pure function of state and event,
//! so the runner around it (which performs the spawning, polling, drawing
//! and waiting) can be driven step by step: it performs the returned
//! action and hands back the next event. Per-session errors never leave
//! `Running`; only renderer failure, a quit request, or every session
//! dying moves the machine to `ShuttingDown`, where terminal modes are
//! restored before it terminates.

use vstd::prelude::*;
use crate::geometry::{Rect, TerminalSize};
use crate::layout::{compute, spec_compute, LayoutTree};

verus! {

/// The supervisor's lifecycle states.
#[derive(Clone, Copy, Debug, PartialEq, Eq, Structural)]
pub enum SupervisorState {
    Initializing,
    Running,
    Resizing,
    ShuttingDown,
    Terminated,
}

/// What the runner tells the supervisor between ticks.
#[derive(Clone, Copy, Debug, PartialEq, Eq, Structural)]
pub enum SupervisorEvent {
    /// Every configured session spawned.
    SpawnsSucceeded,
    /// Some spawn failed during startup.
    SpawnFailed,
    /// The window-change notification arrived.
    WindowChanged,
    /// The resize was handled (with or without fallback).
    LayoutSettled,
    /// Every session is dead.
    AllSessionsDead,
    /// The user asked to quit.
    QuitRequested,
    /// Writing to the controlling terminal failed.
    RenderFailed,
    /// Remaining sessions were terminated and terminal modes restored.
    CleanupDone,
}

/// What the runner must do after a step.
#[derive(Clone, Copy, Debug, PartialEq, Eq, Structural)]
pub enum SupervisorAction {
    /// Keep polling and rendering.
    Continue,
    /// Report the startup failure to the caller, then clean up.
    ReportStartupFailure,
    /// Recompute the layout for the new terminal size.
    RecomputeLayout,
    /// Terminate remaining sessions and restore terminal modes.
    RestoreTerminal,
    /// All done: exit the process.
    Exit,
}

/// The transition relation: the next state and the action owed, as a pure
/// function of the current state and the event.
pub open spec fn spec_transition(s: SupervisorState, ev: SupervisorEvent) -> (SupervisorState,
    SupervisorAction,
) {
    match s {
        SupervisorState::Initializing => match ev {
            SupervisorEvent::SpawnsSucceeded => (SupervisorState::Running,
                SupervisorAction::Continue),
            SupervisorEvent::SpawnFailed => (SupervisorState::ShuttingDown,
                SupervisorAction::ReportStartupFailure),
            SupervisorEvent::QuitRequested => (SupervisorState::ShuttingDown,
                SupervisorAction::RestoreTerminal),
            _ => (s, SupervisorAction::Continue),
        },
        SupervisorState::Running => match ev {
            SupervisorEvent::WindowChanged => (SupervisorState::Resizing,
                SupervisorAction::RecomputeLayout),
            SupervisorEvent::AllSessionsDead => (SupervisorState::ShuttingDown,
                SupervisorAction::RestoreTerminal),
            SupervisorEvent::QuitRequested => (SupervisorState::ShuttingDown,
                SupervisorAction::RestoreTerminal),
            SupervisorEvent::RenderFailed => (SupervisorState::ShuttingDown,
                SupervisorAction::RestoreTerminal),
            _ => (s, SupervisorAction::Continue),
        },
        SupervisorState::Resizing => match ev {
            SupervisorEvent::LayoutSettled => (SupervisorState::Running,
                SupervisorAction::Continue),
            SupervisorEvent::QuitRequested => (SupervisorState::ShuttingDown,
                SupervisorAction::RestoreTerminal),
            SupervisorEvent::RenderFailed => (SupervisorState::ShuttingDown,
                SupervisorAction::RestoreTerminal),
            _ => (s, SupervisorAction::Continue),
        },
        SupervisorState::ShuttingDown => match ev {
            SupervisorEvent::CleanupDone => (SupervisorState::Terminated, SupervisorAction::Exit),
            _ => (s, SupervisorAction::Continue),
        },
        SupervisorState::Terminated => (s, SupervisorAction::Exit),
    }
}

/// Take one supervisor step: the exact executable mirror of
/// `spec_transition`. Total: every state and event has a next state, so
/// the machine can neither panic nor get stuck.
pub fn transition(s: SupervisorState, ev: SupervisorEvent) -> (r: (SupervisorState,
    SupervisorAction,
))
    ensures
        r == spec_transition(s, ev),
{
    match s {
        SupervisorState::Initializing => match ev {
            SupervisorEvent::SpawnsSucceeded => (SupervisorState::Running,
                SupervisorAction::Continue),
            SupervisorEvent::SpawnFailed => (SupervisorState::ShuttingDown,
                SupervisorAction::ReportStartupFailure),
            SupervisorEvent::QuitRequested => (SupervisorState::ShuttingDown,
                SupervisorAction::RestoreTerminal),
            _ => (s, SupervisorAction::Continue),
        },
        SupervisorState::Running => match ev {
            SupervisorEvent::WindowChanged => (SupervisorState::Resizing,
                SupervisorAction::RecomputeLayout),
            SupervisorEvent::AllSessionsDead => (SupervisorState::ShuttingDown,
                SupervisorAction::RestoreTerminal),
            SupervisorEvent::QuitRequested => (SupervisorState::ShuttingDown,
                SupervisorAction::RestoreTerminal),
            SupervisorEvent::RenderFailed => (SupervisorState::ShuttingDown,
                SupervisorAction::RestoreTerminal),
            _ => (s, SupervisorAction::Continue),
        },
        SupervisorState::Resizing => match ev {
            SupervisorEvent::LayoutSettled => (SupervisorState::Running,
                SupervisorAction::Continue),
            SupervisorEvent::QuitRequested => (SupervisorState::ShuttingDown,
                SupervisorAction::RestoreTerminal),
            SupervisorEvent::RenderFailed => (SupervisorState::ShuttingDown,
                SupervisorAction::RestoreTerminal),
            _ => (s, SupervisorAction::Continue),
        },
        SupervisorState::ShuttingDown => match ev {
            SupervisorEvent::CleanupDone => (SupervisorState::Terminated, SupervisorAction::Exit),
            _ => (s, SupervisorAction::Continue),
        },
        SupervisorState::Terminated => (s, SupervisorAction::Exit),
    }
}

/// The outcome of handling a resize.
#[derive(Debug)]
pub struct ResizePlan {
    /// The pane rectangles to render.
    pub panes: Vec<(u32, Rect)>,
    /// Whether the tree no longer fit and the plan fell back to a single
    /// full-screen pane (a warning is owed to the user).
    pub fell_back: bool,
}

/// Handle a terminal-size change: recompute the layout, and when the new
/// size is too small for the current tree, fall back to one full-screen
/// pane holding the focused pane — never an error, a panic or a hang.
/// The fallback rectangle may itself be below the minimum pane size on a
/// tiny terminal; the renderer's caller decides whether it is drawable.
pub fn plan_resize(tree: &LayoutTree, focused_id: u32, size: TerminalSize) -> (r: ResizePlan)
    requires
        tree.wf(),
    ensures
        ({
            let full = Rect { x: 0, y: 0, width: size.cols, height: size.rows };
            match spec_compute(*tree, full) {
                Some(m) => r.panes@ == m && !r.fell_back,
                None => r.panes@ == seq![(focused_id, full)] && r.fell_back,
            }
        }),
{
    let full = size.full_rect();
    match compute(tree, full) {
        Ok(panes) => ResizePlan { panes, fell_back: false },
        Err(_) => {
            let mut v: Vec<(u32, Rect)> = Vec::new();
            v.push((focused_id, full));
            proof {
                assert(v@ =~= seq![(focused_id, full)]);
            }
            ResizePlan { panes: v, fell_back: true }
        },
    }
}

} // verus!
