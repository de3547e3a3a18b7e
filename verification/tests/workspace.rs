use pliny::workspace::{parse_listed, parse_shown, workspace_state, CommandOutput, WorkspaceState};

fn output(success: bool, stdout: &[u8]) -> Option<CommandOutput> {
    Some(CommandOutput { success, stdout: stdout.to_vec() })
}

#[test]
fn workspaces_are_read() {
    let state = workspace_state(
        &output(true, b"staging\n"),
        &output(true, b"  default\n* staging\r\n  prod \n\n"),
    );
    assert_eq!(state.current.as_deref(), Some("staging"));
    assert_eq!(state.all, vec!["default", "staging", "prod"]);
}

#[test]
fn failed_commands_report_nothing() {
    let state = workspace_state(&output(false, b"staging\n"), &None);
    assert_eq!(state.current, None);
    assert!(state.all.is_empty());
    let state = workspace_state(&None, &output(false, b"default\n"));
    assert!(state.all.is_empty());
}

#[test]
fn undecodable_bytes_are_replaced() {
    let state = workspace_state(&output(true, b"a\xffb\n"), &output(true, b"* a\xffb\n"));
    assert_eq!(state.current.as_deref(), Some("a\u{fffd}b"));
    assert_eq!(state.all, vec!["a\u{fffd}b"]);
}

#[test]
fn blank_names_are_none() {
    assert_eq!(parse_shown(&Some(" \n".into())), None);
    assert_eq!(parse_shown(&None), None);
    assert_eq!(parse_shown(&Some(" a b ".into())).as_deref(), Some("a b"));
    assert!(parse_listed(&Some("*\n \n".into())).is_empty());
    assert_eq!(parse_listed(&Some("** x".into())), vec!["x"]);
    assert!(parse_listed(&None).is_empty());
}

#[test]
fn the_default_state_is_empty() {
    let state = WorkspaceState::default();
    assert_eq!(state.current, None);
    assert!(state.all.is_empty());
}

#[test]
fn clones_of_states_are_equal() {
    let state = WorkspaceState { current: Some("a".into()), all: vec!["a".into(), "b".into()] };
    let copy = state.clone();
    assert_eq!(copy.current, state.current);
    assert_eq!(copy.all, state.all);
}
