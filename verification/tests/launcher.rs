//! Command splitting and terminal wrapping.

use rlaunch::launch::{launch_parts, split_command, wrap_terminal};

fn b(s: &str) -> Vec<u8> {
    s.as_bytes().to_vec()
}

#[test]
fn split_on_single_spaces() {
    assert_eq!(
        split_command(&b("prog -a --flag value")),
        vec![b("prog"), b("-a"), b("--flag"), b("value")]
    );
}

#[test]
fn split_keeps_empty_parts() {
    assert_eq!(split_command(&b("a  b")), vec![b("a"), b(""), b("b")]);
    assert_eq!(split_command(&b("")), vec![b("")]);
}

#[test]
fn launch_parts_of_empty_command_is_none() {
    assert!(launch_parts(&b("")).is_none());
}

#[test]
fn launch_parts_split_program_and_arguments() {
    let (prog, args) = launch_parts(&b("xterm -e \"htop\"")).unwrap();
    assert_eq!(prog, b("xterm"));
    assert_eq!(args, vec![b("-e"), b("\"htop\"")]);

    let (prog, args) = launch_parts(&b("firefox")).unwrap();
    assert_eq!(prog, b("firefox"));
    assert!(args.is_empty());
}

#[test]
fn wrap_terminal_quotes_the_command() {
    assert_eq!(
        wrap_terminal(&b("i3-sensible-terminal"), &b("htop -d 10")),
        b("i3-sensible-terminal -e \"htop -d 10\"")
    );
}
