use wm_handlers::handlers::default::shift;
use wm_handlers::workspace::WorkspaceSet;

fn three_windows() -> WorkspaceSet {
    WorkspaceSet::from_assignments(1, vec![(10, 1), (11, 1), (12, 2)])
}

#[test]
fn new_set_is_empty() {
    let set = WorkspaceSet::new(3);
    assert_eq!(set.current(), 3);
    assert_eq!(set.all_windows_with_workspaces(), vec![]);
    assert_eq!(set.focused(), None);
}

#[test]
fn windows_are_listed_in_order() {
    assert_eq!(three_windows().all_windows_with_workspaces(), vec![(10, 1), (11, 1), (12, 2)]);
}

#[test]
fn focus_is_the_first_window_of_the_visible_workspace() {
    assert_eq!(three_windows().focused(), Some(10));
    assert_eq!(three_windows().switch_to(2).focused(), Some(12));
    assert_eq!(three_windows().switch_to(3).focused(), None);
}

#[test]
fn workspace_of_a_window() {
    let set = three_windows();
    assert_eq!(set.workspace_of(10), Some(1));
    assert_eq!(set.workspace_of(12), Some(2));
    assert_eq!(set.workspace_of(13), None);
}

#[test]
fn switching_keeps_the_windows() {
    let set = three_windows().switch_to(2);
    assert_eq!(set.current(), 2);
    assert_eq!(set.all_windows_with_workspaces(), vec![(10, 1), (11, 1), (12, 2)]);
}

#[test]
fn placing_puts_a_window_on_top() {
    let set = three_windows().place(13, 1);
    assert_eq!(set.all_windows_with_workspaces(), vec![(13, 1), (10, 1), (11, 1), (12, 2)]);
    assert_eq!(set.focused(), Some(13));
}

#[test]
fn placing_a_managed_window_changes_nothing() {
    assert_eq!(three_windows().place(11, 2), three_windows());
}

#[test]
fn shifting_moves_one_window() {
    let set = three_windows().shift_window(2, 11);
    assert_eq!(set.all_windows_with_workspaces(), vec![(11, 2), (10, 1), (12, 2)]);
    assert_eq!(set.workspace_of(11), Some(2));
    assert_eq!(set.workspace_of(10), Some(1));
    assert_eq!(set.workspace_of(12), Some(2));
    assert_eq!(set.current(), 1);
}

#[test]
fn shifting_an_unmanaged_window_changes_nothing() {
    assert_eq!(three_windows().shift_window(2, 99), three_windows());
}

#[test]
fn shifting_within_a_workspace_gives_the_focus() {
    let set = three_windows().shift_window(1, 11);
    assert_eq!(set.all_windows_with_workspaces(), vec![(11, 1), (10, 1), (12, 2)]);
    assert_eq!(set.focused(), Some(11));
}

#[test]
fn moving_the_focused_window() {
    let set = three_windows().move_window_to_workspace(5);
    assert_eq!(set.all_windows_with_workspaces(), vec![(10, 5), (11, 1), (12, 2)]);
    assert_eq!(set.focused(), Some(11));
}

#[test]
fn moving_without_focus_changes_nothing() {
    let set = three_windows().switch_to(7);
    assert_eq!(set.clone().move_window_to_workspace(1), set);
}

#[test]
fn first_listing_of_a_window_counts() {
    let set = WorkspaceSet::from_assignments(0, vec![(1, 4), (1, 5), (2, 5)]);
    assert_eq!(set.workspace_of(1), Some(4));
    assert_eq!(
        set.shift_window(9, 1).all_windows_with_workspaces(),
        vec![(1, 9), (1, 5), (2, 5)]
    );
}

#[test]
fn shift_hook_moves_the_window() {
    assert_eq!(
        shift(2, three_windows(), 10).all_windows_with_workspaces(),
        vec![(10, 2), (11, 1), (12, 2)]
    );
    assert_eq!(shift(2, three_windows(), 99), three_windows());
}

#[test]
fn clone_is_equal() {
    assert_eq!(three_windows().clone(), three_windows());
}
