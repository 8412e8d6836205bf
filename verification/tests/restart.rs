use wm_handlers::handlers::default::restart;
use wm_handlers::pending::PendingChildRegistry;
use wm_handlers::restart::{
    read_arguments, RestartAction, RestartCoordinator, RestartError, RestartEvent, RestartPhase,
    ResumeArgs, Startup,
};
use wm_handlers::state::ManagerState;
use wm_handlers::workspace::WorkspaceSet;

fn manager() -> ManagerState {
    ManagerState::new(WorkspaceSet::from_assignments(1, vec![(10, 1), (11, 1), (12, 2)]))
}

fn registry(children: &[u64]) -> PendingChildRegistry {
    let mut registry = PendingChildRegistry::new();
    for child in children {
        registry.register(*child);
    }
    registry
}

fn strings(words: &[&str]) -> Vec<String> {
    words.iter().map(|word| word.to_string()).collect()
}

/// Stands in for the operating system: answers each action as told and notes
/// what it was asked to do.
struct Double {
    path: Option<String>,
    log: Vec<String>,
}

impl Double {
    fn run(&mut self, start: (RestartCoordinator, RestartAction)) -> (RestartCoordinator, Option<ResumeArgs>) {
        let (mut coordinator, mut action) = start;
        let mut replaced = None;
        loop {
            let event = match action {
                RestartAction::Await(child) => {
                    self.log.push(format!("wait {child}"));
                    RestartEvent::ChildExited(child)
                }
                RestartAction::ResolveExecutable => {
                    self.log.push("resolve".to_string());
                    match &self.path {
                        Some(path) => RestartEvent::PathResolved(path.clone()),
                        None => RestartEvent::PathUnresolved,
                    }
                }
                RestartAction::Replace(args) => {
                    self.log.push("replace".to_string());
                    replaced = Some(args);
                    RestartEvent::ReplacementFailed
                }
                RestartAction::Abandon(error) => {
                    self.log.push(format!("abandon {error:?}"));
                    return (coordinator, replaced);
                }
                RestartAction::Unchanged => panic!("an answer to an action is never ignored"),
            };
            (coordinator, action) = coordinator.advance(event);
        }
    }
}

#[test]
fn restart_leaves_the_state_alone() {
    let (state, coordinator, action) = restart(manager(), registry(&[]), "wm".to_string());
    assert_eq!(state, manager());
    assert_eq!(action, RestartAction::ResolveExecutable);
    assert_eq!(coordinator.phase(), RestartPhase::Resolving);
}

#[test]
fn restart_waits_for_the_first_child_first() {
    let (_, coordinator, action) = restart(manager(), registry(&[7, 8]), "wm".to_string());
    assert_eq!(action, RestartAction::Await(7));
    assert_eq!(coordinator.phase(), RestartPhase::Draining);
    assert_eq!(coordinator.pending_children(), 2);
}

#[test]
fn restart_hands_the_windows_over() {
    let (_, coordinator, action) = restart(manager(), registry(&[]), "wm".to_string());
    assert_eq!(action, RestartAction::ResolveExecutable);
    let (coordinator, action) =
        coordinator.advance(RestartEvent::PathResolved("/usr/bin/wm".to_string()));
    assert_eq!(coordinator.phase(), RestartPhase::Replacing);
    let args = match action {
        RestartAction::Replace(args) => args,
        other => panic!("{other:?}"),
    };
    assert_eq!(
        args,
        ResumeArgs {
            path: "/usr/bin/wm".to_string(),
            invocation: "wm".to_string(),
            payload: "[[10,1],[11,1],[12,2]]".to_string(),
        }
    );
    assert_eq!(args.argv(), strings(&["wm", "--resume", "[[10,1],[11,1],[12,2]]"]));
    let resumed = match read_arguments(&args.argv()) {
        Startup::Resume(assignments) => WorkspaceSet::from_assignments(1, assignments),
        other => panic!("{other:?}"),
    };
    assert_eq!(resumed, manager().workspaces);
    assert_eq!(resumed.workspace_of(10), Some(1));
    assert_eq!(resumed.workspace_of(11), Some(1));
    assert_eq!(resumed.workspace_of(12), Some(2));
}

#[test]
fn replacement_comes_after_every_child_has_exited() {
    let mut double = Double { path: Some("/bin/wm".to_string()), log: vec![] };
    let (_, coordinator, action) = restart(manager(), registry(&[3, 1, 2]), "wm".to_string());
    let (coordinator, replaced) = double.run((coordinator, action));
    assert_eq!(
        double.log,
        strings(&["wait 3", "wait 1", "wait 2", "resolve", "replace", "abandon Replacement"])
    );
    assert!(replaced.is_some());
    assert_eq!(coordinator.pending_children(), 0);
    assert_eq!(coordinator.phase(), RestartPhase::Abandoned(RestartError::Replacement));
}

#[test]
fn an_unresolved_path_ends_the_restart() {
    let mut double = Double { path: None, log: vec![] };
    let (state, coordinator, action) = restart(manager(), registry(&[9]), "wm".to_string());
    let (coordinator, replaced) = double.run((coordinator, action));
    assert_eq!(double.log, strings(&["wait 9", "resolve", "abandon PathResolution"]));
    assert_eq!(replaced, None);
    assert_eq!(coordinator.phase(), RestartPhase::Abandoned(RestartError::PathResolution));
    assert_eq!(state, manager());
}

#[test]
fn a_payload_that_is_not_of_the_windows_ends_the_restart() {
    let (_, coordinator, _) = restart(manager(), registry(&[]), "wm".to_string());
    let (coordinator, action) = coordinator.advance_with(
        RestartEvent::PathResolved("/bin/wm".to_string()),
        Ok("[[10,1],[11,1]]".to_string()),
    );
    assert_eq!(action, RestartAction::Abandon(RestartError::Serialization));
    assert_eq!(coordinator.phase(), RestartPhase::Abandoned(RestartError::Serialization));
}

#[test]
fn an_encoder_failure_ends_the_restart() {
    let (_, coordinator, _) = restart(manager(), registry(&[]), "wm".to_string());
    let (coordinator, action) = coordinator.advance_with(
        RestartEvent::PathResolved("/bin/wm".to_string()),
        Err(rustc_serialize::json::EncoderError::BadHashmapKey),
    );
    assert_eq!(action, RestartAction::Abandon(RestartError::Serialization));
    assert_eq!(coordinator.phase(), RestartPhase::Abandoned(RestartError::Serialization));
}

#[test]
fn the_right_payload_is_handed_over() {
    let (_, coordinator, _) = restart(manager(), registry(&[]), "wm".to_string());
    let (_, action) = coordinator.advance_with(
        RestartEvent::PathResolved("/bin/wm".to_string()),
        Ok("[[10,1],[11,1],[12,2]]".to_string()),
    );
    assert_eq!(
        action,
        RestartAction::Replace(ResumeArgs {
            path: "/bin/wm".to_string(),
            invocation: "wm".to_string(),
            payload: "[[10,1],[11,1],[12,2]]".to_string(),
        })
    );
}

#[test]
fn a_child_that_exits_out_of_turn_is_not_waited_for() {
    let (_, coordinator, action) = restart(manager(), registry(&[1, 2, 3]), "wm".to_string());
    assert_eq!(action, RestartAction::Await(1));
    let (coordinator, action) = coordinator.advance(RestartEvent::ChildExited(2));
    assert_eq!(action, RestartAction::Unchanged);
    assert_eq!(coordinator.pending_children(), 2);
    let (coordinator, action) = coordinator.advance(RestartEvent::ChildExited(1));
    assert_eq!(action, RestartAction::Await(3));
    let (coordinator, action) = coordinator.advance(RestartEvent::ChildExited(3));
    assert_eq!(action, RestartAction::ResolveExecutable);
    assert_eq!(coordinator.phase(), RestartPhase::Resolving);
}

#[test]
fn events_out_of_place_change_nothing() {
    let (_, coordinator, _) = restart(manager(), registry(&[1]), "wm".to_string());
    let (coordinator, action) =
        coordinator.advance(RestartEvent::PathResolved("/bin/wm".to_string()));
    assert_eq!(action, RestartAction::Unchanged);
    assert_eq!(coordinator.phase(), RestartPhase::Draining);
    let (coordinator, action) = coordinator.advance(RestartEvent::ReplacementFailed);
    assert_eq!(action, RestartAction::Unchanged);
    let (coordinator, action) = coordinator.advance(RestartEvent::PathUnresolved);
    assert_eq!(action, RestartAction::Unchanged);
    let (coordinator, action) = coordinator.advance(RestartEvent::ChildExited(5));
    assert_eq!(action, RestartAction::Unchanged);
    assert_eq!(coordinator.pending_children(), 1);
    let (coordinator, action) = coordinator.advance(RestartEvent::ChildExited(1));
    assert_eq!(action, RestartAction::ResolveExecutable);
    let (coordinator, action) = coordinator.advance(RestartEvent::ChildExited(1));
    assert_eq!(action, RestartAction::Unchanged);
    let (coordinator, action) = coordinator.advance(RestartEvent::ReplacementFailed);
    assert_eq!(action, RestartAction::Unchanged);
    assert_eq!(coordinator.phase(), RestartPhase::Resolving);
}

#[test]
fn an_abandoned_restart_stays_abandoned() {
    let (_, coordinator, _) = restart(manager(), registry(&[]), "wm".to_string());
    let (coordinator, _) = coordinator.advance(RestartEvent::PathUnresolved);
    let (coordinator, action) =
        coordinator.advance(RestartEvent::PathResolved("/bin/wm".to_string()));
    assert_eq!(action, RestartAction::Unchanged);
    assert_eq!(coordinator.phase(), RestartPhase::Abandoned(RestartError::PathResolution));
}

#[test]
fn an_empty_manager_hands_over_an_empty_list() {
    let state = ManagerState::new(WorkspaceSet::new(0));
    let (_, coordinator, _) = restart(state, registry(&[]), "wm".to_string());
    let (_, action) = coordinator.advance(RestartEvent::PathResolved("/bin/wm".to_string()));
    match action {
        RestartAction::Replace(args) => {
            assert_eq!(args.payload, "[]");
            assert_eq!(read_arguments(&args.argv()), Startup::Resume(vec![]));
        }
        other => panic!("{other:?}"),
    }
}

#[test]
fn arguments_without_the_flag_start_afresh() {
    assert_eq!(read_arguments(&strings(&[])), Startup::Fresh);
    assert_eq!(read_arguments(&strings(&["wm"])), Startup::Fresh);
    assert_eq!(read_arguments(&strings(&["wm", "--verbose"])), Startup::Fresh);
    assert_eq!(read_arguments(&strings(&["wm", "--verbose", "--resume", "[]"])), Startup::Fresh);
    assert_eq!(read_arguments(&strings(&["--resume", "[]"])), Startup::Fresh);
}

#[test]
fn arguments_with_the_flag_resume() {
    assert_eq!(
        read_arguments(&strings(&["wm", "--resume", "[[1,2],[3,4]]"])),
        Startup::Resume(vec![(1, 2), (3, 4)])
    );
    assert_eq!(
        read_arguments(&strings(&["wm", "--resume", "[[1,2]]", "more"])),
        Startup::Resume(vec![(1, 2)])
    );
}

#[test]
fn the_flag_without_a_readable_payload() {
    assert_eq!(read_arguments(&strings(&["wm", "--resume"])), Startup::Unreadable);
    assert_eq!(read_arguments(&strings(&["wm", "--resume", ""])), Startup::Unreadable);
    assert_eq!(read_arguments(&strings(&["wm", "--resume", "[[1,2]"])), Startup::Unreadable);
}
