//! The builtin commands. Running a command changes the session's variables and
//! yields a list of effects (lines to print, a screen to clear, an exit) that the
//! caller carries out in order.
use vstd::prelude::*;
use crate::state::ShellState;
use crate::text::{
    chars_of, decimal_text, lemma_decimal_round_trip, parse_i32, parse_usize, parsed_i32, parsed_usize, push_char,
    push_decimal, same_chars, views,
};
use crate::vars::VarTable;

verus! {

/// Something a command asks its caller to do.
#[derive(Debug, PartialEq, Eq)]
pub enum Effect {
    /// Print the list of commands.
    ShowHelp,
    /// Print one line.
    Print(String),
    /// Clear the terminal screen.
    ClearScreen,
    /// End the process with this exit code.
    Exit(i32),
}

/// An effect, with its text as a sequence of characters.
pub enum EffectView {
    ShowHelp,
    Print(Seq<char>),
    ClearScreen,
    Exit(i32),
}

impl View for Effect {
    type V = EffectView;

    open spec fn view(&self) -> EffectView {
        match self {
            Effect::ShowHelp => EffectView::ShowHelp,
            Effect::Print(s) => EffectView::Print(s@),
            Effect::ClearScreen => EffectView::ClearScreen,
            Effect::Exit(c) => EffectView::Exit(*c),
        }
    }
}

/// The views of a list of effects.
pub open spec fn effect_views(v: Seq<Effect>) -> Seq<EffectView> {
    v.map_values(|e: Effect| e@)
}

/// The builtin commands.
#[derive(Clone, Copy, Debug, PartialEq, Eq)]
pub enum Builtin {
    Help,
    Echo,
    Exit,
    Clear,
    SetVar,
    GetVar,
    If,
    Repeat,
    History,
}

/// The builtin called `cmd`, if there is one.
pub open spec fn builtin_named(cmd: Seq<char>) -> Option<Builtin> {
    if cmd == "help"@ {
        Some(Builtin::Help)
    } else if cmd == "echo"@ {
        Some(Builtin::Echo)
    } else if cmd == "exit"@ {
        Some(Builtin::Exit)
    } else if cmd == "clear"@ {
        Some(Builtin::Clear)
    } else if cmd == "set"@ {
        Some(Builtin::SetVar)
    } else if cmd == "get"@ {
        Some(Builtin::GetVar)
    } else if cmd == "if"@ {
        Some(Builtin::If)
    } else if cmd == "repeat"@ {
        Some(Builtin::Repeat)
    } else if cmd == "history"@ {
        Some(Builtin::History)
    } else {
        None
    }
}

/// The parts joined, with `sep` between each two.
pub open spec fn join(parts: Seq<Seq<char>>, sep: Seq<char>) -> Seq<char>
    decreases parts.len(),
{
    if parts.len() == 0 {
        seq![]
    } else if parts.len() == 1 {
        parts[0]
    } else {
        join(parts.drop_last(), sep) + sep + parts.last()
    }
}

/// The name that `arg` refers to when it is `$` followed by at least one character.
pub open spec fn reference(arg: Seq<char>) -> Option<Seq<char>> {
    if arg.len() > 1 && arg[0] == '$' {
        Some(arg.skip(1))
    } else {
        None
    }
}

/// What `echo` prints for `arg`: the value of the variable it refers to, or `arg` itself.
pub open spec fn echo_word(arg: Seq<char>, vars: Map<Seq<char>, Seq<char>>) -> Seq<char> {
    match reference(arg) {
        Some(name) => if vars.contains_key(name) {
            vars[name]
        } else {
            arg
        },
        None => arg,
    }
}

/// The line that `echo` prints.
pub open spec fn echo_line(args: Seq<Seq<char>>, vars: Map<Seq<char>, Seq<char>>) -> Seq<char> {
    join(args.map_values(|a: Seq<char>| echo_word(a, vars)), " "@)
}

/// Whether the condition `cond` of `if` holds.
pub open spec fn truthy(cond: Seq<char>, vars: Map<Seq<char>, Seq<char>>) -> bool {
    match reference(cond) {
        Some(name) => vars.contains_key(name) && vars[name].len() > 0,
        None => cond.len() > 0 && cond != "0"@ && cond != "false"@,
    }
}

/// The exit code that `exit` asks for.
pub open spec fn exit_code(args: Seq<Seq<char>>) -> i32 {
    if args.len() == 0 {
        0
    } else {
        match parsed_i32(args[0]) {
            Some(v) => v as i32,
            None => 0,
        }
    }
}

/// `n` written in base ten, padded on the left with spaces to at least four characters.
pub open spec fn index_field(n: nat) -> Seq<char> {
    let t = decimal_text(n);
    if t.len() < 4 {
        Seq::new((4 - t.len()) as nat, |k: int| ' ') + t
    } else {
        t
    }
}

/// The line that `history` prints for the `n`-th entry `line`.
pub open spec fn history_line(n: nat, line: Seq<char>) -> Seq<char> {
    index_field(n) + "  "@ + line
}

/// What `history` prints.
pub open spec fn history_effects(history: Seq<Seq<char>>) -> Seq<EffectView> {
    if history.len() == 0 {
        seq![EffectView::Print("No history available"@)]
    } else {
        Seq::new(history.len(), |i: int| EffectView::Print(history_line((i + 1) as nat, history[i])))
    }
}

/// What running a command comes to: the effects in order, the variables after it,
/// and whether it ended the session.
pub struct Outcome {
    pub effects: Seq<EffectView>,
    pub vars: Map<Seq<char>, Seq<char>>,
    pub halted: bool,
}

/// Effects `effects`, variables unchanged, session going on.
pub open spec fn printed(effects: Seq<EffectView>, vars: Map<Seq<char>, Seq<char>>) -> Outcome {
    Outcome { effects, vars, halted: false }
}

/// One line printed, variables unchanged.
pub open spec fn says(line: Seq<char>, vars: Map<Seq<char>, Seq<char>>) -> Outcome {
    printed(seq![EffectView::Print(line)], vars)
}

/// `a` followed by `b`, unless `a` ended the session.
pub open spec fn then_run(a: Outcome, b: Outcome) -> Outcome {
    if a.halted {
        a
    } else {
        Outcome { effects: a.effects + b.effects, vars: b.vars, halted: b.halted }
    }
}

/// What running the command `cmd` with `args` comes to, from the variables `vars`
/// and the history `history`. A name that is no builtin does nothing.
pub open spec fn run(
    cmd: Seq<char>,
    args: Seq<Seq<char>>,
    vars: Map<Seq<char>, Seq<char>>,
    history: Seq<Seq<char>>,
) -> Outcome
    decreases args.len(), 1nat, 0nat,
{
    match builtin_named(cmd) {
        Some(b) => run_builtin(b, args, vars, history),
        None => printed(seq![], vars),
    }
}

/// What running the builtin `b` with `args` comes to.
pub open spec fn run_builtin(
    b: Builtin,
    args: Seq<Seq<char>>,
    vars: Map<Seq<char>, Seq<char>>,
    history: Seq<Seq<char>>,
) -> Outcome
    decreases args.len(), 0nat, 0nat,
{
    match b {
        Builtin::Help => printed(seq![EffectView::ShowHelp], vars),
        Builtin::Echo => says(echo_line(args, vars), vars),
        Builtin::Exit => Outcome {
            effects: seq![EffectView::Exit(exit_code(args))],
            vars,
            halted: true,
        },
        Builtin::Clear => printed(seq![EffectView::ClearScreen], vars),
        Builtin::SetVar => if args.len() < 2 {
            says("Usage: set VAR VALUE"@, vars)
        } else {
            printed(seq![], vars.insert(args[0], join(args.skip(1), " "@)))
        },
        Builtin::GetVar => if args.len() == 0 {
            says("Usage: get VAR"@, vars)
        } else if vars.contains_key(args[0]) {
            says(vars[args[0]], vars)
        } else {
            says("Variable '"@ + args[0] + "' not found"@, vars)
        },
        Builtin::If => if args.len() < 2 {
            says("Usage: if CONDITION COMMAND [ARGS...]"@, vars)
        } else if truthy(args[0], vars) {
            run(args[1], args.skip(2), vars, history)
        } else {
            printed(seq![], vars)
        },
        Builtin::Repeat => if args.len() < 2 {
            says("Usage: repeat N COMMAND [ARGS...]"@, vars)
        } else {
            match parsed_usize(args[0]) {
                Some(n) => run_times(n as nat, args[1], args.skip(2), vars, history),
                None => says("Error: '"@ + args[0] + "' is not a valid number"@, vars),
            }
        },
        Builtin::History => printed(history_effects(history), vars),
    }
}

/// What running the command `cmd` with `args` `n` times in a row comes to.
pub open spec fn run_times(
    n: nat,
    cmd: Seq<char>,
    args: Seq<Seq<char>>,
    vars: Map<Seq<char>, Seq<char>>,
    history: Seq<Seq<char>>,
) -> Outcome
    decreases args.len(), 2nat, n,
{
    if n == 0 {
        printed(seq![], vars)
    } else {
        let first = run(cmd, args, vars, history);
        then_run(first, run_times((n - 1) as nat, cmd, args, first.vars, history))
    }
}

/// `post` and `post_out` are `pre` and `pre_out` after a command that came to `o`.
pub open spec fn applied(
    pre: ShellState,
    post: ShellState,
    pre_out: Seq<Effect>,
    post_out: Seq<Effect>,
    o: Outcome,
) -> bool {
    &&& post.wf()
    &&& post.history == pre.history
    &&& post.variables@ == o.vars
    &&& effect_views(post_out) == effect_views(pre_out) + o.effects
}

/// Whether the characters of `s` are those of `t`.
fn is_named(s: &Vec<char>, t: &str) -> (r: bool)
    ensures
        r == (s@ == t@),
{
    same_chars(s, &chars_of(t))
}

/// The builtin called `command`, if there is one.
pub fn builtin_of(command: &str) -> (r: Option<Builtin>)
    ensures
        r == builtin_named(command@),
{
    let c = chars_of(command);
    if is_named(&c, "help") {
        Some(Builtin::Help)
    } else if is_named(&c, "echo") {
        Some(Builtin::Echo)
    } else if is_named(&c, "exit") {
        Some(Builtin::Exit)
    } else if is_named(&c, "clear") {
        Some(Builtin::Clear)
    } else if is_named(&c, "set") {
        Some(Builtin::SetVar)
    } else if is_named(&c, "get") {
        Some(Builtin::GetVar)
    } else if is_named(&c, "if") {
        Some(Builtin::If)
    } else if is_named(&c, "repeat") {
        Some(Builtin::Repeat)
    } else if is_named(&c, "history") {
        Some(Builtin::History)
    } else {
        None
    }
}

/// The parts joined with a single space between each two.
pub fn join_words(parts: &[String]) -> (r: String)
    ensures
        r@ == join(views(parts@), " "@),
{
    let ghost all = views(parts@);
    let mut r = String::new();
    let mut i: usize = 0;
    assert(all.take(0) =~= Seq::<Seq<char>>::empty());
    while i < parts.len()
        invariant
            all == views(parts@),
            i <= parts.len(),
            r@ == join(all.take(i as int), " "@),
        decreases parts.len() - i,
    {
        assert(all.take(i + 1).drop_last() =~= all.take(i as int));
        if i > 0 {
            r.append(" ");
        }
        r.append(parts[i].as_str());
        if i == 0 {
            assert(r@ =~= join(all.take(1), " "@));
        }
        i = i + 1;
    }
    assert(all.take(parts.len() as int) =~= all);
    r
}

/// The variable name that `arg` refers to, if `arg` is `$` followed by at least
/// one character.
fn reference_of(arg: &String) -> (r: Option<&str>)
    ensures
        match r {
            Some(name) => reference(arg@) == Some(name@),
            None => reference(arg@) is None,
        },
{
    let c = chars_of(arg.as_str());
    if c.len() > 1 && c[0] == '$' {
        Some(arg.as_str().substring_char(1, c.len()))
    } else {
        None
    }
}

/// What `echo` prints for `arg`.
fn echo_value(arg: &String, vars: &VarTable) -> (r: String)
    requires
        vars.wf(),
    ensures
        r@ == echo_word(arg@, vars@),
{
    match reference_of(arg) {
        Some(name) => match vars.get(name) {
            Some(v) => v.clone(),
            None => arg.clone(),
        },
        None => arg.clone(),
    }
}

/// Whether the condition `cond` of `if` holds.
pub fn is_truthy(cond: &String, vars: &VarTable) -> (r: bool)
    requires
        vars.wf(),
    ensures
        r == truthy(cond@, vars@),
{
    match reference_of(cond) {
        Some(name) => match vars.get(name) {
            Some(v) => !v.as_str().is_empty(),
            None => false,
        },
        None => {
            let c = chars_of(cond.as_str());
            c.len() > 0 && !is_named(&c, "0") && !is_named(&c, "false")
        },
    }
}

/// Appends one line to print.
fn say(out: &mut Vec<Effect>, line: String)
    ensures
        effect_views(final(out)@) == effect_views(old(out)@) + seq![EffectView::Print(line@)],
{
    let ghost pre = out@;
    out.push(Effect::Print(line));
    assert(effect_views(out@) =~= effect_views(pre) + seq![EffectView::Print(line@)]);
}

/// Appends one effect.
fn emit(out: &mut Vec<Effect>, e: Effect)
    ensures
        effect_views(final(out)@) == effect_views(old(out)@) + seq![e@],
{
    let ghost pre = out@;
    out.push(e);
    assert(effect_views(out@) =~= effect_views(pre) + seq![e@]);
}

fn cmd_echo(args: &[String], state: &ShellState, out: &mut Vec<Effect>)
    requires
        state.wf(),
    ensures
        effect_views(final(out)@) == effect_views(old(out)@) + seq![
            EffectView::Print(echo_line(views(args@), state.variables@)),
        ],
{
    let ghost vars = state.variables@;
    let mut words: Vec<String> = Vec::new();
    let mut i: usize = 0;
    while i < args.len()
        invariant
            vars == state.variables@,
            state.wf(),
            i <= args.len(),
            views(words@) == views(args@).take(i as int).map_values(
                |a: Seq<char>| echo_word(a, vars),
            ),
        decreases args.len() - i,
    {
        let ghost pre = words@;
        words.push(echo_value(&args[i], &state.variables));
        assert(views(words@) =~= views(pre).push(echo_word(args@[i as int]@, vars)));
        assert(views(args@).take(i + 1) =~= views(args@).take(i as int).push(args@[i as int]@));
        assert(views(words@) =~= views(args@).take(i + 1).map_values(
            |a: Seq<char>| echo_word(a, vars),
        ));
        i = i + 1;
    }
    assert(views(args@).take(args.len() as int) =~= views(args@));
    let line = join_words(words.as_slice());
    say(out, line);
}

fn cmd_set(args: &[String], state: &mut ShellState, out: &mut Vec<Effect>)
    requires
        old(state).wf(),
    ensures
        applied(
            *old(state),
            *final(state),
            old(out)@,
            final(out)@,
            run_builtin(Builtin::SetVar, views(args@), old(state).variables@, old(state).history_view()),
        ),
{
    if args.len() < 2 {
        say(out, "Usage: set VAR VALUE".to_owned());
        return;
    }
    let (_, rest) = args.split_at(1);
    assert(views(rest@) =~= views(args@).skip(1));
    let value = join_words(rest);
    state.set_variable(args[0].clone(), value);
    assert(effect_views(out@) =~= effect_views(out@) + Seq::<EffectView>::empty());
}

fn cmd_get(args: &[String], state: &ShellState, out: &mut Vec<Effect>)
    requires
        state.wf(),
    ensures
        applied(
            *state,
            *state,
            old(out)@,
            final(out)@,
            run_builtin(Builtin::GetVar, views(args@), state.variables@, state.history_view()),
        ),
{
    if args.len() == 0 {
        say(out, "Usage: get VAR".to_owned());
        return;
    }
    match state.get_variable(args[0].as_str()) {
        Some(value) => say(out, value.clone()),
        None => {
            let mut line = "Variable '".to_owned();
            line.append(args[0].as_str());
            line.append("' not found");
            say(out, line);
        },
    }
}

fn cmd_history(state: &ShellState, out: &mut Vec<Effect>)
    ensures
        effect_views(final(out)@) == effect_views(old(out)@) + history_effects(state.history_view()),
{
    let history = state.get_history();
    let ghost h = state.history_view();
    let ghost pre = effect_views(out@);
    if history.len() == 0 {
        say(out, "No history available".to_owned());
        return;
    }
    let mut i: usize = 0;
    while i < history.len()
        invariant
            h == views(history@),
            i <= history.len(),
            effect_views(out@) == pre + Seq::new(
                i as nat,
                |k: int| EffectView::Print(history_line((k + 1) as nat, h[k])),
            ),
        decreases history.len() - i,
    {
        let mut digits = String::new();
        push_decimal(&mut digits, i + 1);
        let width = digits.as_str().unicode_len();
        let mut line = String::new();
        let mut k: usize = width;
        while k < 4
            invariant
                width <= k <= 4 || (width > 4 && k == width),
                line@ == Seq::new((k - width) as nat, |j: int| ' '),
            decreases 4 - k,
        {
            push_char(&mut line, ' ');
            assert(line@ =~= Seq::new((k + 1 - width) as nat, |j: int| ' '));
            k = k + 1;
        }
        let ghost pad = line@;
        line.append(digits.as_str());
        line.append("  ");
        line.append(history[i].as_str());
        assert(line@ =~= history_line((i + 1) as nat, h[i as int])) by {
            if width >= 4 {
                assert(pad =~= Seq::<char>::empty());
            }
        }
        say(out, line);
        assert(effect_views(out@) =~= pre + Seq::new(
            (i + 1) as nat,
            |k: int| EffectView::Print(history_line((k + 1) as nat, h[k])),
        ));
        i = i + 1;
    }
}

/// Each builtin's name selects it.
pub proof fn lemma_builtin_names()
    ensures
        builtin_named("help"@) == Some(Builtin::Help),
        builtin_named("echo"@) == Some(Builtin::Echo),
        builtin_named("exit"@) == Some(Builtin::Exit),
        builtin_named("clear"@) == Some(Builtin::Clear),
        builtin_named("set"@) == Some(Builtin::SetVar),
        builtin_named("get"@) == Some(Builtin::GetVar),
        builtin_named("if"@) == Some(Builtin::If),
        builtin_named("repeat"@) == Some(Builtin::Repeat),
        builtin_named("history"@) == Some(Builtin::History),
{
    reveal_strlit("help");
    reveal_strlit("echo");
    reveal_strlit("exit");
    reveal_strlit("clear");
    reveal_strlit("set");
    reveal_strlit("get");
    reveal_strlit("if");
    reveal_strlit("repeat");
    reveal_strlit("history");
    assert("help"@.len() == 4 && "echo"@.len() == 4 && "exit"@.len() == 4 && "clear"@.len() == 5);
    assert("set"@.len() == 3 && "get"@.len() == 3 && "if"@.len() == 2 && "repeat"@.len() == 6);
    assert("history"@.len() == 7);
    assert("echo"@[0] != "help"@[0]);
    assert("exit"@[0] != "help"@[0] && "exit"@[1] != "echo"@[1]);
    assert("get"@[0] != "set"@[0]);
}

/// After `set NAME V1 .. Vk`, with at least one value, `get NAME` prints the values
/// joined by single spaces; `set` itself prints nothing.
pub proof fn lemma_set_then_get(
    name: Seq<char>,
    values: Seq<Seq<char>>,
    vars: Map<Seq<char>, Seq<char>>,
    history: Seq<Seq<char>>,
)
    requires
        values.len() >= 1,
    ensures
        ({
            let set = run("set"@, seq![name] + values, vars, history);
            &&& set.effects == Seq::<EffectView>::empty()
            &&& !set.halted
            &&& run("get"@, seq![name], set.vars, history) == says(join(values, " "@), set.vars)
        }),
{
    lemma_builtin_names();
    let args = seq![name] + values;
    assert(args.skip(1) =~= values);
    assert(args[0] == name);
}

/// Setting a variable twice keeps only the second value: a later `get` prints it.
pub proof fn lemma_set_overwrites(
    name: Seq<char>,
    first: Seq<Seq<char>>,
    second: Seq<Seq<char>>,
    vars: Map<Seq<char>, Seq<char>>,
    history: Seq<Seq<char>>,
)
    requires
        first.len() >= 1,
        second.len() >= 1,
    ensures
        ({
            let a = run("set"@, seq![name] + first, vars, history);
            let b = run("set"@, seq![name] + second, a.vars, history);
            &&& b.vars == vars.insert(name, join(second, " "@))
            &&& run("get"@, seq![name], b.vars, history) == says(join(second, " "@), b.vars)
        }),
{
    lemma_builtin_names();
    lemma_set_then_get(name, first, vars, history);
    let a = run("set"@, seq![name] + first, vars, history);
    lemma_set_then_get(name, second, a.vars, history);
    let args1 = seq![name] + first;
    let args2 = seq![name] + second;
    assert(args1.skip(1) =~= first);
    assert(args2.skip(1) =~= second);
    assert(args1[0] == name && args2[0] == name);
    assert(vars.insert(name, join(first, " "@)).insert(name, join(second, " "@)) =~= vars.insert(
        name,
        join(second, " "@),
    ));
}

/// `if` with the condition `0` runs nothing, whatever the command.
pub proof fn lemma_if_zero_runs_nothing(
    cmd: Seq<char>,
    rest: Seq<Seq<char>>,
    vars: Map<Seq<char>, Seq<char>>,
    history: Seq<Seq<char>>,
)
    ensures
        run("if"@, seq!["0"@, cmd] + rest, vars, history) == printed(seq![], vars),
{
    lemma_builtin_names();
    reveal_strlit("0");
    let args = seq!["0"@, cmd] + rest;
    assert(args[0] == "0"@);
    assert(!truthy("0"@, vars));
}

/// `if` with a condition that holds runs the command with the remaining arguments.
pub proof fn lemma_if_true_runs(
    cond: Seq<char>,
    cmd: Seq<char>,
    rest: Seq<Seq<char>>,
    vars: Map<Seq<char>, Seq<char>>,
    history: Seq<Seq<char>>,
)
    requires
        truthy(cond, vars),
    ensures
        run("if"@, seq![cond, cmd] + rest, vars, history) == run(cmd, rest, vars, history),
{
    lemma_builtin_names();
    let args = seq![cond, cmd] + rest;
    assert(args[0] == cond && args[1] == cmd);
    assert(args.skip(2) =~= rest);
}

/// `n` lines, each `line`.
pub open spec fn lines(n: nat, line: Seq<char>) -> Seq<EffectView> {
    Seq::new(n, |k: int| EffectView::Print(line))
}

proof fn lemma_echo_times(n: nat, words: Seq<Seq<char>>, vars: Map<Seq<char>, Seq<char>>, history: Seq<Seq<char>>)
    ensures
        run_times(n, "echo"@, words, vars, history) == printed(lines(n, echo_line(words, vars)), vars),
    decreases n,
{
    lemma_builtin_names();
    if n > 0 {
        lemma_echo_times((n - 1) as nat, words, vars, history);
        let line = echo_line(words, vars);
        assert(run("echo"@, words, vars, history) == says(line, vars));
        assert(seq![EffectView::Print(line)] + lines((n - 1) as nat, line) =~= lines(n, line));
    } else {
        assert(lines(0, echo_line(words, vars)) =~= Seq::<EffectView>::empty());
    }
}

/// `repeat N echo W..` prints the line of `echo W..` exactly `N` times, one effect
/// per line, and changes no variable.
pub proof fn lemma_repeat_echo(
    n: usize,
    words: Seq<Seq<char>>,
    vars: Map<Seq<char>, Seq<char>>,
    history: Seq<Seq<char>>,
)
    ensures
        run("repeat"@, seq![decimal_text(n as nat), "echo"@] + words, vars, history) == printed(
            lines(n as nat, echo_line(words, vars)),
            vars,
        ),
{
    lemma_builtin_names();
    lemma_decimal_round_trip(n as nat);
    let t = decimal_text(n as nat);
    let args = seq![t, "echo"@] + words;
    assert(args[0] == t && args[1] == "echo"@);
    assert(args.skip(2) =~= words);
    assert(t[0] != '+');
    assert(parsed_usize(t) == Some(n as int));
    lemma_echo_times(n as nat, words, vars, history);
}

proof fn lemma_decimal_short(n: nat)
    ensures
        n < 10 ==> decimal_text(n).len() == 1,
        n < 100 ==> decimal_text(n).len() <= 2,
        n < 1000 ==> decimal_text(n).len() <= 3,
        n < 10000 ==> decimal_text(n).len() <= 4,
    decreases n,
{
    if n >= 10 {
        lemma_decimal_short(n / 10);
    }
}

/// `history` prints one line per entry, oldest first: the entry's number counted
/// from 1, right-aligned in a field of four characters, two spaces, and the entry.
/// The field is four characters wide for every number up to 9999.
pub proof fn lemma_history_listing(history: Seq<Seq<char>>, n: nat)
    requires
        history.len() > 0,
        1 <= n <= 9999,
    ensures
        history_effects(history).len() == history.len(),
        forall|i: int|
            0 <= i < history.len() ==> #[trigger] history_effects(history)[i] == EffectView::Print(
                index_field((i + 1) as nat) + "  "@ + history[i],
            ),
        index_field(n).len() == 4,
        index_field(n).last() == decimal_text(n).last(),
{
    lemma_decimal_short(n);
    lemma_decimal_round_trip(n);
}

fn cmd_exit(args: &[String], out: &mut Vec<Effect>)
    ensures
        effect_views(final(out)@) == effect_views(old(out)@) + seq![
            EffectView::Exit(exit_code(views(args@))),
        ],
{
    let code: i32 = if args.len() == 0 {
        0
    } else {
        match parse_i32(args[0].as_str()) {
            Some(v) => v,
            None => 0,
        }
    };
    emit(out, Effect::Exit(code));
}

fn cmd_if(args: &[String], state: &mut ShellState, out: &mut Vec<Effect>) -> (halted: bool)
    requires
        old(state).wf(),
    ensures
        ({
            let o = run_builtin(Builtin::If, views(args@), old(state).variables@, old(state).history_view());
            &&& applied(*old(state), *final(state), old(out)@, final(out)@, o)
            &&& halted == o.halted
        }),
    decreases args.len(), 0nat,
{
    if args.len() < 2 {
        say(out, "Usage: if CONDITION COMMAND [ARGS...]".to_owned());
        return false;
    }
    if is_truthy(&args[0], &state.variables) {
        let (_, rest) = args.split_at(2);
        assert(views(rest@) =~= views(args@).skip(2));
        dispatch(args[1].as_str(), rest, state, out).1
    } else {
        assert(effect_views(out@) =~= effect_views(out@) + Seq::<EffectView>::empty());
        false
    }
}

fn cmd_repeat(args: &[String], state: &mut ShellState, out: &mut Vec<Effect>) -> (halted: bool)
    requires
        old(state).wf(),
    ensures
        ({
            let o = run_builtin(Builtin::Repeat, views(args@), old(state).variables@, old(state).history_view());
            &&& applied(*old(state), *final(state), old(out)@, final(out)@, o)
            &&& halted == o.halted
        }),
    decreases args.len(), 0nat,
{
    if args.len() < 2 {
        say(out, "Usage: repeat N COMMAND [ARGS...]".to_owned());
        return false;
    }
    let n = match parse_usize(args[0].as_str()) {
        Some(n) => n,
        None => {
            let mut line = "Error: '".to_owned();
            line.append(args[0].as_str());
            line.append("' is not a valid number");
            say(out, line);
            return false;
        },
    };
    let (_, rest) = args.split_at(2);
    let ghost cmd = args@[1]@;
    let ghost tail = views(args@).skip(2);
    assert(views(rest@) =~= tail);
    let ghost history = state.history_view();
    let ghost pre_state = *state;
    let ghost pre_out = effect_views(out@);
    let ghost total = run_times(n as nat, cmd, tail, state.variables@, history);
    let ghost mut done = printed(seq![], state.variables@);
    assert(then_run(done, run_times(n as nat, cmd, tail, done.vars, history)).effects =~= total.effects);
    let mut k: usize = 0;
    while k < n
        invariant
            k <= n,
            args.len() >= 2,
            rest@.len() == args.len() - 2,
            cmd == args@[1]@,
            tail == views(rest@),
            history == state.history_view(),
            pre_state == *old(state),
            pre_out == effect_views(old(out)@),
            total == run_builtin(Builtin::Repeat, views(args@), pre_state.variables@, history),
            state.wf(),
            state.history == pre_state.history,
            state.variables@ == done.vars,
            !done.halted,
            effect_views(out@) == pre_out + done.effects,
            then_run(done, run_times((n - k) as nat, cmd, tail, done.vars, history)) == total,
        decreases n - k,
    {
        let ghost step = run(cmd, tail, done.vars, history);
        let ghost later = run_times((n - k - 1) as nat, cmd, tail, step.vars, history);
        let halted = dispatch(args[1].as_str(), rest, state, out).1;
        assert(run_times((n - k) as nat, cmd, tail, done.vars, history) == then_run(step, later));
        assert(pre_out + done.effects + step.effects =~= pre_out + (done.effects + step.effects));
        if halted {
            proof {
                done = then_run(done, step);
            }
            return true;
        }
        assert(done.effects + step.effects + later.effects =~= done.effects + (step.effects + later.effects));
        proof {
            done = then_run(done, step);
        }
        k = k + 1;
    }
    assert(done.effects + Seq::<EffectView>::empty() =~= done.effects);
    false
}

/// Runs the command `command` with `args`; returns whether it is a builtin, and
/// whether it ended the session.
fn dispatch(command: &str, args: &[String], state: &mut ShellState, out: &mut Vec<Effect>) -> (r: (bool, bool))
    requires
        old(state).wf(),
    ensures
        ({
            let o = run(command@, views(args@), old(state).variables@, old(state).history_view());
            &&& r.0 == builtin_named(command@) is Some
            &&& r.1 == o.halted
            &&& applied(*old(state), *final(state), old(out)@, final(out)@, o)
        }),
    decreases args.len(), 1nat,
{
    match builtin_of(command) {
        None => {
            assert(effect_views(out@) =~= effect_views(out@) + Seq::<EffectView>::empty());
            (false, false)
        },
        Some(Builtin::Help) => {
            emit(out, Effect::ShowHelp);
            (true, false)
        },
        Some(Builtin::Echo) => {
            cmd_echo(args, state, out);
            (true, false)
        },
        Some(Builtin::Exit) => {
            cmd_exit(args, out);
            (true, true)
        },
        Some(Builtin::Clear) => {
            emit(out, Effect::ClearScreen);
            (true, false)
        },
        Some(Builtin::SetVar) => {
            cmd_set(args, state, out);
            (true, false)
        },
        Some(Builtin::GetVar) => {
            cmd_get(args, state, out);
            (true, false)
        },
        Some(Builtin::If) => (true, cmd_if(args, state, out)),
        Some(Builtin::Repeat) => (true, cmd_repeat(args, state, out)),
        Some(Builtin::History) => {
            cmd_history(state, out);
            (true, false)
        },
    }
}

/// Runs the command `command` with `args` against `state`, appending what it asks
/// the caller to do to `out`. Returns whether `command` names a builtin; a name
/// that does not is left for the caller to report. Commands after one that ends
/// the session do not run.
pub fn execute(command: &str, args: &[String], state: &mut ShellState, out: &mut Vec<Effect>) -> (handled: bool)
    requires
        old(state).wf(),
    ensures
        handled == builtin_named(command@) is Some,
        applied(
            *old(state),
            *final(state),
            old(out)@,
            final(out)@,
            run(command@, views(args@), old(state).variables@, old(state).history_view()),
        ),
{
    dispatch(command, args, state, out).0
}

} // verus!
