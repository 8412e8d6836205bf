//! The hooks of the control loop: the slots that a configuration fills. The
//! handlers that come ready-made are in [`default`].

use crate::state::ManagerState;
use crate::workspace::{WindowRef, WorkspaceSet};
use vstd::prelude::*;

pub mod default;

verus! {

/// The five extension points of the control loop, each holding one handler
/// or none. In the handlers' signatures `W` is the window system and `C` the
/// configuration; both pass through untouched.
///
/// The key, mouse and startup handlers run only on a manager that is running:
/// given a state that says the manager has stopped, these three slots give it
/// back as it is. The manage hook is handed the workspaces alone, and the log
/// hook is run on whatever state it is shown.
pub struct HookRegistry<K, M, G, S, L> {
    /// Runs on a key binding.
    pub key: Option<K>,
    /// Runs on a mouse binding, with the window under the pointer.
    pub mouse: Option<M>,
    /// Places a window that has just appeared.
    pub manage: Option<G>,
    /// Runs once, before the first event.
    pub startup: Option<S>,
    /// Runs after each event, to report the state. It may keep notes of its
    /// own and cannot change the state.
    pub log: Option<L>,
}

impl<K, M, G, S, L> HookRegistry<K, M, G, S, L> {
    /// A registry with every slot empty.
    pub fn new() -> (r: Self)
        ensures
            r.key is None,
            r.mouse is None,
            r.manage is None,
            r.startup is None,
            r.log is None,
    {
        HookRegistry { key: None, mouse: None, manage: None, startup: None, log: None }
    }

    /// Runs the key handler. Without one, and on a manager that has stopped,
    /// the state comes back as it is.
    pub fn on_key<W, C>(&self, state: ManagerState, window_system: &W, config: &C) -> (r:
        ManagerState) where K: Fn(ManagerState, &W, &C) -> ManagerState
        requires
            state.running ==> (self.key matches Some(handler) ==> call_requires(
                handler,
                (state, window_system, config),
            )),
        ensures
            match self.key {
                Some(handler) if state.running => call_ensures(
                    handler,
                    (state, window_system, config),
                    r,
                ),
                _ => r == state,
            },
    {
        match &self.key {
            Some(handler) if state.running => handler(state, window_system, config),
            _ => state,
        }
    }

    /// Runs the mouse handler for `window`. Without one, and on a manager that
    /// has stopped, the state comes back as it is.
    pub fn on_mouse<W, C>(
        &self,
        state: ManagerState,
        window_system: &W,
        config: &C,
        window: WindowRef,
    ) -> (r: ManagerState) where M: Fn(ManagerState, &W, &C, WindowRef) -> ManagerState
        requires
            state.running ==> (self.mouse matches Some(handler) ==> call_requires(
                handler,
                (state, window_system, config, window),
            )),
        ensures
            match self.mouse {
                Some(handler) if state.running => call_ensures(
                    handler,
                    (state, window_system, config, window),
                    r,
                ),
                _ => r == state,
            },
    {
        match &self.mouse {
            Some(handler) if state.running => handler(state, window_system, config, window),
            _ => state,
        }
    }

    /// Runs the manage hook for a window that has appeared. Without one the
    /// workspaces come back as they are.
    pub fn on_manage<W>(&self, workspaces: WorkspaceSet, window_system: &W, window: WindowRef) -> (r:
        WorkspaceSet) where G: Fn(WorkspaceSet, &W, WindowRef) -> WorkspaceSet
        requires
            self.manage matches Some(handler) ==> call_requires(
                handler,
                (workspaces, window_system, window),
            ),
        ensures
            match self.manage {
                Some(handler) => call_ensures(handler, (workspaces, window_system, window), r),
                None => r == workspaces,
            },
    {
        match &self.manage {
            Some(handler) => handler(workspaces, window_system, window),
            None => workspaces,
        }
    }

    /// Runs the startup hook. Without one, and on a manager that has stopped,
    /// the state comes back as it is.
    pub fn on_startup<W, C>(&self, state: ManagerState, window_system: &W, config: &C) -> (r:
        ManagerState) where S: Fn(ManagerState, &W, &C) -> ManagerState
        requires
            state.running ==> (self.startup matches Some(handler) ==> call_requires(
                handler,
                (state, window_system, config),
            )),
        ensures
            match self.startup {
                Some(handler) if state.running => call_ensures(
                    handler,
                    (state, window_system, config),
                    r,
                ),
                _ => r == state,
            },
    {
        match &self.startup {
            Some(handler) if state.running => handler(state, window_system, config),
            _ => state,
        }
    }

    /// Runs the log hook on the state, which it sees and cannot change: what
    /// the hook promises of a call with this state holds afterwards. Without a
    /// hook nothing happens. The other slots stay as they are.
    pub fn on_log<W>(&mut self, state: &ManagerState, window_system: &W) where
        L: FnMut(&ManagerState, &W),

        requires
            old(self).log matches Some(handler) ==> call_requires(handler, (state, window_system)),
        ensures
            old(self).log matches Some(handler) ==> call_ensures(
                handler,
                (state, window_system),
                (),
            ),
            final(self).key == old(self).key,
            final(self).mouse == old(self).mouse,
            final(self).manage == old(self).manage,
            final(self).startup == old(self).startup,
            final(self).log is Some <==> old(self).log is Some,
    {
        match &mut self.log {
            Some(handler) => handler(state, window_system),
            None => {},
        }
    }
}

} // verus!
