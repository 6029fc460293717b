use rsh::state::ShellState;

#[test]
fn test_new_state() {
    let state = ShellState::new();
    assert_eq!(state.variables.len(), 0);
    assert_eq!(state.history.len(), 0);
}

#[test]
fn test_set_and_get_variable() {
    let mut state = ShellState::new();
    state.set_variable("TEST".to_string(), "value".to_string());
    assert_eq!(state.get_variable("TEST"), Some(&"value".to_string()));
}

#[test]
fn test_history() {
    let mut state = ShellState::new();
    state.add_to_history("cmd1".to_string());
    state.add_to_history("cmd2".to_string());
    assert_eq!(state.get_history().len(), 2);
    assert_eq!(state.get_history()[0], "cmd1");
}

#[test]
fn set_variable_overwrites_without_growing() {
    let mut state = ShellState::new();
    state.set_variable("A".to_string(), "1".to_string());
    state.set_variable("B".to_string(), "2".to_string());
    state.set_variable("A".to_string(), "3".to_string());
    assert_eq!(state.variables.len(), 2);
    assert_eq!(state.get_variable("A"), Some(&"3".to_string()));
    assert_eq!(state.get_variable("B"), Some(&"2".to_string()));
    assert_eq!(state.get_variable("C"), None);
}

#[test]
fn default_state_is_empty() {
    let state = ShellState::default();
    assert_eq!(state.variables.len(), 0);
    assert!(state.get_history().is_empty());
}
