use wm_handlers::config::{
    launcher_command, split_arguments, terminal_command, CommandLine, GeneralConfig,
};

fn config(terminal: &str, args: &str, launcher: &str) -> GeneralConfig {
    GeneralConfig {
        terminal: (terminal.to_string(), args.to_string()),
        launcher: launcher.to_string(),
    }
}

#[test]
fn empty_argument_string_has_no_arguments() {
    assert_eq!(split_arguments(""), Vec::<String>::new());
}

#[test]
fn arguments_are_split_at_spaces() {
    assert_eq!(split_arguments("-e tmux"), vec!["-e".to_string(), "tmux".to_string()]);
    assert_eq!(split_arguments("-fullscreen"), vec!["-fullscreen".to_string()]);
}

#[test]
fn every_space_splits() {
    assert_eq!(
        split_arguments("a  b"),
        vec!["a".to_string(), String::new(), "b".to_string()]
    );
    assert_eq!(split_arguments(" "), vec![String::new(), String::new()]);
    assert_eq!(split_arguments(" a"), vec![String::new(), "a".to_string()]);
    assert_eq!(split_arguments("a "), vec!["a".to_string(), String::new()]);
}

#[test]
fn only_spaces_split() {
    assert_eq!(split_arguments("a\tb\nc"), vec!["a\tb\nc".to_string()]);
    assert_eq!(
        split_arguments("-T \"my term\""),
        vec!["-T".to_string(), "\"my".to_string(), "term\"".to_string()]
    );
}

#[test]
fn arguments_beyond_ascii_are_split() {
    assert_eq!(
        split_arguments("-t caf\u{e9} \u{4e2d}\u{6587}"),
        vec!["-t".to_string(), "caf\u{e9}".to_string(), "\u{4e2d}\u{6587}".to_string()]
    );
}

#[test]
fn joining_the_arguments_gives_the_string_back() {
    for args in ["a b c", " lead", "trail ", "two  spaces", "x", "  "] {
        assert_eq!(split_arguments(args).join(" "), args);
        assert!(split_arguments(args).iter().all(|token| !token.contains(' ')));
    }
}

#[test]
fn terminal_command_takes_program_and_arguments() {
    assert_eq!(
        terminal_command(&config("urxvt", "-e tmux", "dmenu_run")),
        CommandLine {
            program: "urxvt".to_string(),
            arguments: vec!["-e".to_string(), "tmux".to_string()],
        }
    );
}

#[test]
fn launcher_command_has_no_arguments() {
    assert_eq!(
        launcher_command(&config("urxvt", "-e tmux", "dmenu_run")),
        CommandLine { program: "dmenu_run".to_string(), arguments: vec![] }
    );
    assert_eq!(
        launcher_command(&config("urxvt", "", "rofi -show run")),
        CommandLine { program: "rofi -show run".to_string(), arguments: vec![] }
    );
}
