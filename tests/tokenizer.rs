use rsh::tokenizer::tokenize;
use rsh::vars::VarTable;

#[test]
fn test_simple_tokenization() {
    let vars = VarTable::new();
    let result = tokenize("echo hello world", &vars);
    assert_eq!(result, vec!["echo", "hello", "world"]);
}

#[test]
fn test_quoted_strings() {
    let vars = VarTable::new();
    let result = tokenize("echo \"hello world\"", &vars);
    assert_eq!(result, vec!["echo", "hello world"]);
}

#[test]
fn test_variable_substitution() {
    let mut vars = VarTable::new();
    vars.insert("NAME".to_string(), "Alice".to_string());
    let result = tokenize("echo $NAME", &vars);
    assert_eq!(result, vec!["echo", "Alice"]);
}

#[test]
fn test_escape_characters() {
    let vars = VarTable::new();
    let result = tokenize("echo \\\"hello\\\"", &vars);
    assert_eq!(result, vec!["echo", "\"hello\""]);
}

#[test]
fn test_mixed_quotes_and_variables() {
    let mut vars = VarTable::new();
    vars.insert("USER".to_string(), "Bob".to_string());
    let result = tokenize("echo \"Hello $USER\"", &vars);
    assert_eq!(result, vec!["echo", "Hello $USER"]);
}

#[test]
fn test_escape_in_variable() {
    let vars = VarTable::new();
    let result = tokenize("echo \\$VAR", &vars);
    assert_eq!(result, vec!["echo", "$VAR"]);
}

#[test]
fn plain_input_splits_on_whitespace_runs() {
    let vars = VarTable::new();
    let result = tokenize("  alpha   beta\tgamma \n delta  ", &vars);
    assert_eq!(result, vec!["alpha", "beta", "gamma", "delta"]);
}

#[test]
fn empty_and_blank_inputs_have_no_tokens() {
    let vars = VarTable::new();
    assert!(tokenize("", &vars).is_empty());
    assert!(tokenize(" \t ", &vars).is_empty());
}

#[test]
fn unicode_whitespace_separates_tokens() {
    let vars = VarTable::new();
    let result = tokenize("a\u{3000}b\u{a0}c", &vars);
    assert_eq!(result, vec!["a", "b", "c"]);
}

#[test]
fn undefined_variable_expands_to_nothing() {
    let vars = VarTable::new();
    assert_eq!(tokenize("echo $NOPE", &vars), vec!["echo"]);
    assert_eq!(tokenize("a$NOPE.b", &vars), vec!["a.b"]);
}

#[test]
fn variable_merges_with_adjacent_text() {
    let mut vars = VarTable::new();
    vars.insert("VAR".to_string(), "X".to_string());
    assert_eq!(tokenize("pre$VAR.post", &vars), vec!["preX.post"]);
    assert_eq!(tokenize("pre$VARpost", &vars), vec!["pre"]);
}

#[test]
fn variable_value_is_not_split() {
    let mut vars = VarTable::new();
    vars.insert("V".to_string(), "one two".to_string());
    assert_eq!(tokenize("x $V y", &vars), vec!["x", "one two", "y"]);
}

#[test]
fn variable_names_take_letters_digits_and_underscores() {
    let mut vars = VarTable::new();
    vars.insert("a_1".to_string(), "ok".to_string());
    vars.insert("é".to_string(), "accent".to_string());
    assert_eq!(tokenize("$a_1-$é", &vars), vec!["ok-accent"]);
}

#[test]
fn lone_dollar_is_dropped() {
    let vars = VarTable::new();
    assert_eq!(tokenize("a $ b$", &vars), vec!["a", "b"]);
    assert_eq!(tokenize("cost $.5", &vars), vec!["cost", ".5"]);
}

#[test]
fn escape_table() {
    let vars = VarTable::new();
    assert_eq!(tokenize("a\\nb\\tc\\rd", &vars), vec!["a\nb\tc\rd"]);
    assert_eq!(tokenize("\\\\", &vars), vec!["\\"]);
    assert_eq!(tokenize("\\q", &vars), vec!["\\q"]);
    assert_eq!(tokenize("a\\ b", &vars), vec!["a\\ b"]);
}

#[test]
fn unterminated_quote_and_trailing_backslash() {
    let vars = VarTable::new();
    assert_eq!(tokenize("echo \"open quote", &vars), vec!["echo", "open quote"]);
    assert_eq!(tokenize("echo end\\", &vars), vec!["echo", "end"]);
    assert!(tokenize("\"\"", &vars).is_empty());
}

#[test]
fn quotes_join_adjacent_text() {
    let vars = VarTable::new();
    assert_eq!(tokenize("ab\"c d\"e", &vars), vec!["abc de"]);
}

#[test]
fn variable_table_lookup() {
    let mut vars = VarTable::new();
    assert_eq!(vars.get("X"), None);
    vars.insert("X".to_string(), "1".to_string());
    vars.insert("X".to_string(), "2".to_string());
    assert_eq!(vars.get("X"), Some(&"2".to_string()));
    assert_eq!(vars.len(), 1);
}

#[test]
fn whitespace_agrees_with_std() {
    let vars = VarTable::new();
    for code in 0u32..0x3100 {
        let c = match char::from_u32(code) {
            Some(c) => c,
            None => continue,
        };
        if c == '"' || c == '$' || c == '\\' {
            continue;
        }
        let line = format!("a{}b", c);
        let expected = if c.is_whitespace() { 2 } else { 1 };
        assert_eq!(tokenize(&line, &vars).len(), expected, "U+{:04X}", code);
    }
}
