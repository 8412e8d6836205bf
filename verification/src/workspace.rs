//! The assignment of managed windows to workspaces.
//!
//! A [`WorkspaceSet`] lists the managed windows in stacking order, each with
//! the workspace that owns it, and knows which workspace is visible. The first
//! window listed for a workspace has its focus. That a window is listed once is
//! the business of whoever reports windows, and is not assumed here: where a
//! window is listed twice, the first listing counts.

use vstd::prelude::*;

verus! {

/// Identifies a window of the window system.
pub type WindowRef = u64;

/// Identifies a workspace.
pub type WorkspaceId = u32;

/// A managed window together with the workspace that owns it.
pub type Assignment = (WindowRef, WorkspaceId);

/// Whether `i` is the first place at which `ps` lists `window`.
pub open spec fn first_of_window(ps: Seq<Assignment>, window: WindowRef, i: int) -> bool {
    &&& 0 <= i < ps.len()
    &&& ps[i].0 == window
    &&& forall|k: int| 0 <= k < i ==> (#[trigger] ps[k]).0 != window
}

/// Whether `i` is the first place at which `ps` lists a window of `workspace`.
pub open spec fn first_on_workspace(ps: Seq<Assignment>, workspace: WorkspaceId, i: int) -> bool {
    &&& 0 <= i < ps.len()
    &&& ps[i].1 == workspace
    &&& forall|k: int| 0 <= k < i ==> (#[trigger] ps[k]).1 != workspace
}

/// What a [`WorkspaceSet`] holds.
pub struct Workspaces {
    /// The visible workspace.
    pub current: WorkspaceId,
    /// The managed windows in stacking order, each with its workspace.
    pub placements: Seq<Assignment>,
}

impl Workspaces {
    /// Where `window` is listed first, if it is managed.
    pub open spec fn position_of(self, window: WindowRef) -> Option<int> {
        if exists|i: int| first_of_window(self.placements, window, i) {
            Some(choose|i: int| first_of_window(self.placements, window, i))
        } else {
            None
        }
    }

    /// The workspace that owns `window`, if it is managed.
    pub open spec fn workspace_of(self, window: WindowRef) -> Option<WorkspaceId> {
        match self.position_of(window) {
            Some(i) => Some(self.placements[i].1),
            None => None,
        }
    }

    /// The window that has the focus: the first one of the visible workspace.
    pub open spec fn focused(self) -> Option<WindowRef> {
        if exists|i: int| first_on_workspace(self.placements, self.current, i) {
            Some(
                self.placements[choose|i: int|
                    first_on_workspace(self.placements, self.current, i)].0,
            )
        } else {
            None
        }
    }

    /// The same windows with `index` as the visible workspace.
    pub open spec fn viewing(self, index: WorkspaceId) -> Workspaces {
        Workspaces { current: index, placements: self.placements }
    }

    /// The set after `window` has joined `workspace` on top of its windows. A
    /// window that is managed already stays where it is.
    pub open spec fn placed(self, window: WindowRef, workspace: WorkspaceId) -> Workspaces {
        match self.position_of(window) {
            Some(_) => self,
            None => Workspaces {
                current: self.current,
                placements: self.placements.insert(0, (window, workspace)),
            },
        }
    }

    /// The set after `window` has moved to the top of workspace `index`. A
    /// window that is not managed moves nowhere.
    pub open spec fn shifted(self, index: WorkspaceId, window: WindowRef) -> Workspaces {
        match self.position_of(window) {
            Some(i) => Workspaces {
                current: self.current,
                placements: self.placements.remove(i).insert(0, (window, index)),
            },
            None => self,
        }
    }

    /// The set after the focused window has moved to workspace `index`.
    pub open spec fn focus_shifted(self, index: WorkspaceId) -> Workspaces {
        match self.focused() {
            Some(window) => self.shifted(index, window),
            None => self,
        }
    }
}

/// The first listing of a window is the only place that is first.
pub proof fn lemma_first_of_window_unique(ps: Seq<Assignment>, window: WindowRef, i: int, j: int)
    requires
        first_of_window(ps, window, i),
        first_of_window(ps, window, j),
    ensures
        i == j,
{
    if i < j {
        assert(ps[i].0 == window);
    } else if j < i {
        assert(ps[j].0 == window);
    }
}

/// The first window of a workspace is the only place that is first.
pub proof fn lemma_first_on_workspace_unique(
    ps: Seq<Assignment>,
    workspace: WorkspaceId,
    i: int,
    j: int,
)
    requires
        first_on_workspace(ps, workspace, i),
        first_on_workspace(ps, workspace, j),
    ensures
        i == j,
{
    if i < j {
        assert(ps[i].1 == workspace);
    } else if j < i {
        assert(ps[j].1 == workspace);
    }
}

/// Moving a window changes the workspace of that window and of no other, and
/// neither adds nor drops a window.
pub proof fn lemma_shift_moves_one_window(
    set: Workspaces,
    index: WorkspaceId,
    window: WindowRef,
    other: WindowRef,
)
    ensures
        set.shifted(index, window).workspace_of(other) == if other == window
            && set.workspace_of(window) is Some {
            Some(index)
        } else {
            set.workspace_of(other)
        },
{
    let ps = set.placements;
    let after = set.shifted(index, window);
    let qs = after.placements;
    if set.position_of(window) is Some {
        let i = set.position_of(window)->0;
        assert(first_of_window(ps, window, i));
        assert(qs == ps.remove(i).insert(0, (window, index)));
        assert(qs.len() == ps.len());
        assert(qs[0] == (window, index));
        assert forall|k: int| 0 < k < qs.len() implies #[trigger] qs[k] == if k <= i {
            ps[k - 1]
        } else {
            ps[k]
        } by {
            assert(qs[k] == ps.remove(i)[k - 1]);
        }
        if other == window {
            assert(first_of_window(qs, window, 0));
            let j = after.position_of(window)->0;
            lemma_first_of_window_unique(qs, window, 0, j);
        } else if set.position_of(other) is Some {
            let a = set.position_of(other)->0;
            assert(first_of_window(ps, other, a));
            let b = if a < i {
                a + 1
            } else {
                a
            };
            assert(a != i);
            assert(qs[b] == ps[a]);
            assert forall|k: int| 0 <= k < b implies (#[trigger] qs[k]).0 != other by {
                if k > 0 {
                    if k <= i {
                        assert(ps[k - 1].0 != other);
                    } else {
                        assert(ps[k].0 != other);
                    }
                }
            }
            assert(first_of_window(qs, other, b));
            let j = after.position_of(other)->0;
            lemma_first_of_window_unique(qs, other, b, j);
        } else {
            if after.position_of(other) is Some {
                let b = after.position_of(other)->0;
                assert(first_of_window(qs, other, b));
                assert(b > 0);
                let a = if b <= i {
                    b - 1
                } else {
                    b
                };
                assert(ps[a] == qs[b]);
                assert forall|k: int| 0 <= k < a implies (#[trigger] ps[k]).0 != other by {
                    if k < i {
                        assert(qs[k + 1] == ps[k]);
                    } else if k > i {
                        assert(qs[k] == ps[k]);
                    }
                }
                assert(first_of_window(ps, other, a));
            }
        }
    }
}

/// The managed windows of a window manager and the visible workspace.
#[derive(Debug, PartialEq, Eq)]
pub struct WorkspaceSet {
    current: WorkspaceId,
    placements: Vec<Assignment>,
}

impl View for WorkspaceSet {
    type V = Workspaces;

    closed spec fn view(&self) -> Workspaces {
        Workspaces { current: self.current, placements: self.placements@ }
    }
}

impl Clone for WorkspaceSet {
    fn clone(&self) -> (r: WorkspaceSet)
        ensures
            r@ == self@,
    {
        WorkspaceSet { current: self.current, placements: self.all_windows_with_workspaces() }
    }
}

impl WorkspaceSet {
    /// A set without windows that shows workspace `current`.
    pub fn new(current: WorkspaceId) -> (r: WorkspaceSet)
        ensures
            r@ == (Workspaces { current, placements: Seq::empty() }),
    {
        WorkspaceSet { current, placements: Vec::new() }
    }

    /// The set that shows workspace `current` and manages the windows listed,
    /// in the order given.
    pub fn from_assignments(current: WorkspaceId, placements: Vec<Assignment>) -> (r:
        WorkspaceSet)
        ensures
            r@ == (Workspaces { current, placements: placements@ }),
    {
        WorkspaceSet { current, placements }
    }

    /// The visible workspace.
    pub fn current(&self) -> (r: WorkspaceId)
        ensures
            r == self@.current,
    {
        self.current
    }

    /// Every managed window with the workspace that owns it, in stacking order.
    pub fn all_windows_with_workspaces(&self) -> (r: Vec<Assignment>)
        ensures
            r@ == self@.placements,
    {
        let mut r: Vec<Assignment> = Vec::new();
        let mut i: usize = 0;
        while i < self.placements.len()
            invariant
                i <= self.placements.len(),
                r@ == self.placements@.take(i as int),
            decreases self.placements.len() - i,
        {
            r.push(self.placements[i]);
            i = i + 1;
        }
        r
    }

    /// Where `window` is listed first.
    fn find(&self, window: WindowRef) -> (r: Option<usize>)
        ensures
            match r {
                Some(i) => self@.position_of(window) == Some(i as int),
                None => self@.position_of(window) is None,
            },
    {
        let mut i: usize = 0;
        while i < self.placements.len()
            invariant
                i <= self.placements.len(),
                forall|k: int| 0 <= k < i ==> (#[trigger] self.placements@[k]).0 != window,
            decreases self.placements.len() - i,
        {
            if self.placements[i].0 == window {
                proof {
                    assert(first_of_window(self@.placements, window, i as int));
                    let j = self@.position_of(window)->0;
                    lemma_first_of_window_unique(self@.placements, window, i as int, j);
                }
                return Some(i);
            }
            i = i + 1;
        }
        None
    }

    /// The workspace that owns `window`, if it is managed.
    pub fn workspace_of(&self, window: WindowRef) -> (r: Option<WorkspaceId>)
        ensures
            r == self@.workspace_of(window),
    {
        match self.find(window) {
            Some(i) => Some(self.placements[i].1),
            None => None,
        }
    }

    /// The window that has the focus.
    pub fn focused(&self) -> (r: Option<WindowRef>)
        ensures
            r == self@.focused(),
    {
        let mut i: usize = 0;
        while i < self.placements.len()
            invariant
                i <= self.placements.len(),
                forall|k: int| 0 <= k < i ==> (#[trigger] self.placements@[k]).1 != self.current,
            decreases self.placements.len() - i,
        {
            if self.placements[i].1 == self.current {
                proof {
                    let set = self@;
                    assert(first_on_workspace(set.placements, set.current, i as int));
                    let j = choose|j: int| first_on_workspace(set.placements, set.current, j);
                    lemma_first_on_workspace_unique(set.placements, set.current, i as int, j);
                }
                return Some(self.placements[i].0);
            }
            i = i + 1;
        }
        None
    }

    /// Makes `index` the visible workspace.
    pub fn switch_to(self, index: WorkspaceId) -> (r: WorkspaceSet)
        ensures
            r@ == self@.viewing(index),
    {
        WorkspaceSet { current: index, placements: self.placements }
    }

    /// Takes `window` into management on top of `workspace`. Does nothing for
    /// a window that is managed already.
    pub fn place(self, window: WindowRef, workspace: WorkspaceId) -> (r: WorkspaceSet)
        ensures
            r@ == self@.placed(window, workspace),
    {
        let mut set = self;
        match set.find(window) {
            Some(_) => set,
            None => {
                set.placements.insert(0, (window, workspace));
                set
            },
        }
    }

    /// Moves `window` to the top of workspace `index`. Does nothing for a
    /// window that is not managed.
    pub fn shift_window(self, index: WorkspaceId, window: WindowRef) -> (r: WorkspaceSet)
        ensures
            r@ == self@.shifted(index, window),
    {
        let mut set = self;
        match set.find(window) {
            Some(i) => {
                set.placements.remove(i);
                set.placements.insert(0, (window, index));
                set
            },
            None => set,
        }
    }

    /// Moves the focused window to workspace `index`. Does nothing where no
    /// window has the focus.
    pub fn move_window_to_workspace(self, index: WorkspaceId) -> (r: WorkspaceSet)
        ensures
            r@ == self@.focus_shifted(index),
    {
        match self.focused() {
            Some(window) => self.shift_window(index, window),
            None => self,
        }
    }
}

} // verus!
