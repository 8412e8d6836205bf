//! Ready-made handlers, for configurations that need no more.
//!
//! A handler computes the next state and says what is to be done outside:
//! which command to spawn, which restart to begin. Doing it is the caller's
//! part, and what came of a spawn goes back in through [`spawn_finished`].

use crate::config::{argument_tokens, launcher_command, terminal_command, CommandLine, GeneralConfig};
use crate::pending::{ChildId, PendingChildRegistry};
use crate::restart::{Restart, RestartAction, RestartCoordinator};
use crate::state::{Manager, ManagerState};
use crate::workspace::{WindowRef, WorkspaceId, WorkspaceSet};
use vstd::prelude::*;

verus! {

/// The ready-made handlers.
pub enum Hook {
    StartTerminal,
    StartLauncher,
    SwitchToWorkspace(usize),
    MoveWindowToWorkspace(usize),
    Restart,
    Exit,
}

/// The workspace that an index of a binding names: the index itself, taken
/// modulo 2^32 where it is larger than a workspace identifier can be.
pub open spec fn workspace_index(index: usize) -> WorkspaceId {
    (index as int % 0x1_0000_0000) as WorkspaceId
}

/// The state that a ready-made handler gives for `state`.
pub open spec fn next_state(hook: Hook, state: Manager) -> Manager {
    match hook {
        Hook::StartTerminal => state,
        Hook::StartLauncher => state,
        Hook::SwitchToWorkspace(index) => state.with_workspaces(
            state.workspaces.viewing(workspace_index(index)),
        ),
        Hook::MoveWindowToWorkspace(index) => state.with_workspaces(
            state.workspaces.focus_shifted(workspace_index(index)),
        ),
        Hook::Restart => state,
        Hook::Exit => state.stopped(),
    }
}

/// A ready-made handler is a function of the state it is given: run twice on
/// one state it gives one state, and only the two that name a workspace look
/// at anything else, which is the index they carry.
pub proof fn lemma_hooks_are_pure(hook: Hook, state: Manager, first: Manager, second: Manager)
    requires
        first == next_state(hook, state),
        second == next_state(hook, state),
    ensures
        first == second,
        hook is StartTerminal || hook is StartLauncher || hook is Restart ==> first == state,
        hook is Exit ==> !first.running && first.workspaces == state.workspaces
            && first.drag_target == state.drag_target,
        !(hook is Exit) ==> first.running == state.running,
{
}

/// The workspace that `index` names.
fn to_workspace(index: usize) -> (r: WorkspaceId)
    ensures
        r == workspace_index(index),
{
    let wide: u64 = index as u64;
    (wide % 0x1_0000_0000) as u32
}

/// Asks for the configured terminal emulator to be started, with its
/// argument string split at the spaces. The state is not touched.
pub fn start_terminal(window_manager: ManagerState, config: &GeneralConfig) -> (r: (
    ManagerState,
    CommandLine,
))
    ensures
        r.0 == window_manager,
        r.0@ == next_state(Hook::StartTerminal, window_manager@),
        r.1@.program == config.terminal.0@,
        r.1@.arguments == argument_tokens(config.terminal.1@),
{
    (window_manager, terminal_command(config))
}

/// Asks for the configured launcher to be started, without arguments. The
/// state is not touched.
pub fn start_launcher(window_manager: ManagerState, config: &GeneralConfig) -> (r: (
    ManagerState,
    CommandLine,
))
    ensures
        r.0 == window_manager,
        r.0@ == next_state(Hook::StartLauncher, window_manager@),
        r.1@.program == config.launcher@,
        r.1@.arguments == Seq::<Seq<char>>::empty(),
{
    (window_manager, launcher_command(config))
}

/// Why a process could not be spawned.
#[derive(Clone, Copy, Debug, PartialEq, Eq, Structural)]
pub enum SpawnError {
    /// There is no such executable.
    NotFound,
    /// The operating system has no room for another process.
    ResourceExhausted,
    /// Anything else that the operating system answered.
    Other,
}

/// Takes in what came of a spawn that a handler asked for. A child that was
/// started is pending from now on; a spawn that failed changes nothing. Either
/// way the manager goes on in the state it had.
pub fn spawn_finished(
    window_manager: ManagerState,
    pending: &mut PendingChildRegistry,
    outcome: Result<ChildId, SpawnError>,
) -> (r: ManagerState)
    ensures
        r == window_manager,
        final(pending)@ == match outcome {
            Ok(child) => if old(pending)@.contains(child) {
                old(pending)@
            } else {
                old(pending)@.push(child)
            },
            Err(_) => old(pending)@,
        },
{
    match outcome {
        Ok(child) => {
            pending.register(child);
        },
        Err(_) => {},
    }
    window_manager
}

/// Makes the workspace that `index` names the visible one.
pub fn switch_to_workspace(window_manager: ManagerState, index: usize) -> (r: ManagerState)
    ensures
        r@ == next_state(Hook::SwitchToWorkspace(index), window_manager@),
{
    window_manager.switch_to(to_workspace(index))
}

/// Moves the focused window to the workspace that `index` names.
pub fn move_window_to_workspace(window_manager: ManagerState, index: usize) -> (r: ManagerState)
    ensures
        r@ == next_state(Hook::MoveWindowToWorkspace(index), window_manager@),
{
    window_manager.move_window_to_workspace(to_workspace(index))
}

/// Begins a restart that hands the managed windows over once the children in
/// `pending` have exited, and gives its first action. The state is not
/// touched: it is the state in which the manager goes on if the restart
/// fails.
pub fn restart(window_manager: ManagerState, pending: PendingChildRegistry, invocation: String) -> (r:
    (ManagerState, RestartCoordinator, RestartAction))
    ensures
        r.0 == window_manager,
        r.0@ == next_state(Hook::Restart, window_manager@),
        (r.1@, r.2@) == Restart::started(
            pending@,
            window_manager@.workspaces.placements,
            invocation@,
        ),
{
    let assignments = window_manager.workspaces.all_windows_with_workspaces();
    let (coordinator, action) = RestartCoordinator::begin(pending, assignments, invocation);
    (window_manager, coordinator, action)
}

/// Stops the window manager: the state that comes back is no longer running
/// and is otherwise the state given.
pub fn exit(w: ManagerState) -> (r: ManagerState)
    ensures
        r == (ManagerState { running: false, drag_target: w.drag_target, workspaces: w.workspaces }),
        r@ == next_state(Hook::Exit, w@),
{
    ManagerState { running: false, drag_target: w.drag_target, workspaces: w.workspaces }
}

/// Moves `window` to the top of workspace `index`.
pub fn shift(index: WorkspaceId, workspace: WorkspaceSet, window: WindowRef) -> (r: WorkspaceSet)
    ensures
        r@ == workspace@.shifted(index, window),
{
    workspace.shift_window(index, window)
}

} // verus!
