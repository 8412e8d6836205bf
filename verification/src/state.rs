//! The state that the control loop owns and the hooks transform.

use crate::workspace::{WindowRef, WorkspaceId, WorkspaceSet, Workspaces};
use vstd::prelude::*;

verus! {

/// The state of the window manager.
///
/// The control loop is its only owner: a hook takes it by value and gives
/// the next state back. Once `running` is false the loop shuts down and runs
/// no further hook.
#[derive(Debug, PartialEq, Eq)]
pub struct ManagerState {
    /// Whether the control loop is to go on.
    pub running: bool,
    /// The window that is being dragged, if one is.
    pub drag_target: Option<WindowRef>,
    /// The managed windows and their workspaces.
    pub workspaces: WorkspaceSet,
}

/// What a [`ManagerState`] holds.
pub struct Manager {
    pub running: bool,
    pub drag_target: Option<WindowRef>,
    pub workspaces: Workspaces,
}

impl View for ManagerState {
    type V = Manager;

    open spec fn view(&self) -> Manager {
        Manager {
            running: self.running,
            drag_target: self.drag_target,
            workspaces: self.workspaces@,
        }
    }
}

impl Manager {
    /// The same state with other workspaces.
    pub open spec fn with_workspaces(self, workspaces: Workspaces) -> Manager {
        Manager { running: self.running, drag_target: self.drag_target, workspaces }
    }

    /// The same state, no longer running.
    pub open spec fn stopped(self) -> Manager {
        Manager { running: false, drag_target: self.drag_target, workspaces: self.workspaces }
    }
}

impl Clone for ManagerState {
    fn clone(&self) -> (r: ManagerState)
        ensures
            r@ == self@,
    {
        ManagerState {
            running: self.running,
            drag_target: self.drag_target,
            workspaces: self.workspaces.clone(),
        }
    }
}

impl ManagerState {
    /// A running manager of the given workspaces, with nothing being dragged.
    pub fn new(workspaces: WorkspaceSet) -> (r: ManagerState)
        ensures
            r == (ManagerState { running: true, drag_target: None, workspaces }),
    {
        ManagerState { running: true, drag_target: None, workspaces }
    }

    /// Makes `index` the visible workspace.
    pub fn switch_to(self, index: WorkspaceId) -> (r: ManagerState)
        ensures
            r@ == self@.with_workspaces(self@.workspaces.viewing(index)),
    {
        ManagerState {
            running: self.running,
            drag_target: self.drag_target,
            workspaces: self.workspaces.switch_to(index),
        }
    }

    /// Moves the focused window to workspace `index`.
    pub fn move_window_to_workspace(self, index: WorkspaceId) -> (r: ManagerState)
        ensures
            r@ == self@.with_workspaces(self@.workspaces.focus_shifted(index)),
    {
        ManagerState {
            running: self.running,
            drag_target: self.drag_target,
            workspaces: self.workspaces.move_window_to_workspace(index),
        }
    }
}

} // verus!
