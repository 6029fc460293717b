use rsh::builtins::{builtin_of, execute, is_truthy, join_words, Builtin, Effect};
use rsh::state::ShellState;
use rsh::text::{parse_i32, parse_usize};
use rsh::tokenizer::tokenize;

fn run_line(line: &str, state: &mut ShellState) -> (bool, Vec<Effect>) {
    state.add_to_history(line.to_string());
    let tokens = tokenize(line, &state.variables);
    let mut out = Vec::new();
    let handled = execute(&tokens[0], &tokens[1..], state, &mut out);
    (handled, out)
}

fn print(s: &str) -> Effect {
    Effect::Print(s.to_string())
}

#[test]
fn set_then_get_joins_values() {
    let mut state = ShellState::new();
    let (handled, out) = run_line("set X 1 2 3", &mut state);
    assert!(handled);
    assert!(out.is_empty());
    let (_, out) = run_line("get X", &mut state);
    assert_eq!(out, vec![print("1 2 3")]);
}

#[test]
fn set_twice_keeps_latest_value() {
    let mut state = ShellState::new();
    run_line("set X first value", &mut state);
    run_line("set X second", &mut state);
    let (_, out) = run_line("get X", &mut state);
    assert_eq!(out, vec![print("second")]);
    assert_eq!(state.variables.len(), 1);
}

#[test]
fn if_zero_prints_nothing_and_if_one_runs() {
    let mut state = ShellState::new();
    let (handled, out) = run_line("if 0 echo should-not-print", &mut state);
    assert!(handled);
    assert!(out.is_empty());
    let (_, out) = run_line("if 1 echo yes", &mut state);
    assert_eq!(out, vec![print("yes")]);
    let (_, out) = run_line("if false echo no", &mut state);
    assert!(out.is_empty());
}

#[test]
fn if_condition_on_variable() {
    let mut state = ShellState::new();
    let (_, out) = run_line("if \\$UNSET echo no", &mut state);
    assert!(out.is_empty());
    state.set_variable("E".to_string(), "".to_string());
    let (_, out) = run_line("if \\$E echo no", &mut state);
    assert!(out.is_empty());
    state.set_variable("F".to_string(), "0".to_string());
    let (_, out) = run_line("if \\$F echo yes", &mut state);
    assert_eq!(out, vec![print("yes")]);
}

#[test]
fn repeat_prints_three_times() {
    let mut state = ShellState::new();
    let (handled, out) = run_line("repeat 3 echo hi", &mut state);
    assert!(handled);
    assert_eq!(out, vec![print("hi"), print("hi"), print("hi")]);
}

#[test]
fn nested_repeat_and_if() {
    let mut state = ShellState::new();
    run_line("set X on", &mut state);
    let (_, out) = run_line("repeat 2 repeat 2 if \\$X echo hi", &mut state);
    assert_eq!(out.len(), 4);
    let (_, out) = run_line("repeat 0 echo hi", &mut state);
    assert!(out.is_empty());
}

#[test]
fn history_lists_lines_with_aligned_index() {
    let mut state = ShellState::new();
    run_line("set A 1", &mut state);
    run_line("echo hi", &mut state);
    let (_, out) = run_line("history", &mut state);
    assert_eq!(
        out,
        vec![print("   1  set A 1"), print("   2  echo hi"), print("   3  history")]
    );
}

#[test]
fn history_when_empty() {
    let mut state = ShellState::new();
    let mut out = Vec::new();
    assert!(execute("history", &[], &mut state, &mut out));
    assert_eq!(out, vec![print("No history available")]);
}

#[test]
fn history_index_wider_than_four_digits() {
    let mut state = ShellState::new();
    for i in 0..10000 {
        state.add_to_history(format!("c{}", i));
    }
    let mut out = Vec::new();
    execute("history", &[], &mut state, &mut out);
    assert_eq!(out.len(), 10000);
    assert_eq!(out[8], print("   9  c8"));
    assert_eq!(out[9], print("  10  c9"));
    assert_eq!(out[9999], print("10000  c9999"));
}

#[test]
fn echo_substitutes_again_after_tokenizing() {
    let mut state = ShellState::new();
    run_line("set NAME Alice", &mut state);
    let (_, out) = run_line("echo \\$NAME \\$MISSING $ x", &mut state);
    assert_eq!(out, vec![print("Alice $MISSING x")]);
    let (_, out) = run_line("echo", &mut state);
    assert_eq!(out, vec![print("")]);
}

#[test]
fn usage_messages() {
    let mut state = ShellState::new();
    assert_eq!(run_line("set X", &mut state).1, vec![print("Usage: set VAR VALUE")]);
    assert_eq!(run_line("get", &mut state).1, vec![print("Usage: get VAR")]);
    assert_eq!(
        run_line("if 1", &mut state).1,
        vec![print("Usage: if CONDITION COMMAND [ARGS...]")]
    );
    assert_eq!(
        run_line("repeat 2", &mut state).1,
        vec![print("Usage: repeat N COMMAND [ARGS...]")]
    );
    assert_eq!(state.variables.len(), 0);
}

#[test]
fn get_of_unknown_variable() {
    let mut state = ShellState::new();
    assert_eq!(run_line("get Y", &mut state).1, vec![print("Variable 'Y' not found")]);
}

#[test]
fn repeat_with_bad_count() {
    let mut state = ShellState::new();
    assert_eq!(
        run_line("repeat x echo hi", &mut state).1,
        vec![print("Error: 'x' is not a valid number")]
    );
    assert_eq!(
        run_line("repeat -1 echo hi", &mut state).1,
        vec![print("Error: '-1' is not a valid number")]
    );
}

#[test]
fn exit_codes() {
    let mut state = ShellState::new();
    assert_eq!(run_line("exit", &mut state).1, vec![Effect::Exit(0)]);
    assert_eq!(run_line("exit 7", &mut state).1, vec![Effect::Exit(7)]);
    assert_eq!(run_line("exit -3", &mut state).1, vec![Effect::Exit(-3)]);
    assert_eq!(run_line("exit abc", &mut state).1, vec![Effect::Exit(0)]);
    assert_eq!(run_line("exit 99999999999", &mut state).1, vec![Effect::Exit(0)]);
}

#[test]
fn nothing_runs_after_exit() {
    let mut state = ShellState::new();
    let (_, out) = run_line("repeat 3 exit 5", &mut state);
    assert_eq!(out, vec![Effect::Exit(5)]);
    let (_, out) = run_line("repeat 3 if 1 exit 2", &mut state);
    assert_eq!(out, vec![Effect::Exit(2)]);
}

#[test]
fn help_and_clear() {
    let mut state = ShellState::new();
    assert_eq!(run_line("help me", &mut state).1, vec![Effect::ShowHelp]);
    assert_eq!(run_line("clear", &mut state).1, vec![Effect::ClearScreen]);
}

#[test]
fn unknown_command_is_not_handled() {
    let mut state = ShellState::new();
    let (handled, out) = run_line("frobnicate now", &mut state);
    assert!(!handled);
    assert!(out.is_empty());
    let (handled, out) = run_line("if 1 frobnicate", &mut state);
    assert!(handled);
    assert!(out.is_empty());
}

#[test]
fn builtin_names() {
    assert_eq!(builtin_of("repeat"), Some(Builtin::Repeat));
    assert_eq!(builtin_of("set"), Some(Builtin::SetVar));
    assert_eq!(builtin_of("Set"), None);
    assert_eq!(builtin_of(""), None);
}

#[test]
fn joining_words() {
    let parts = vec!["a".to_string(), "b c".to_string(), "".to_string(), "d".to_string()];
    assert_eq!(join_words(&parts), "a b c  d");
    assert_eq!(join_words(&[]), "");
}

#[test]
fn truth_of_literal_conditions() {
    let state = ShellState::new();
    for (cond, expected) in [("1", true), ("yes", true), ("0", false), ("false", false), ("", false), ("$", true), ("00", true)] {
        assert_eq!(is_truthy(&cond.to_string(), &state.variables), expected, "{}", cond);
    }
}

#[test]
fn number_parsing_agrees_with_std() {
    let samples = [
        "0", "7", "+7", "-7", "007", "", "+", "-", "+-1", "1a", " 1", "2147483647", "2147483648",
        "-2147483648", "-2147483649", "18446744073709551615", "18446744073709551616", "-0", "٣",
    ];
    for s in samples {
        assert_eq!(parse_usize(s), s.parse::<usize>().ok(), "usize {:?}", s);
        assert_eq!(parse_i32(s), s.parse::<i32>().ok(), "i32 {:?}", s);
    }
}
