//! Splitting an input line into tokens, with quotes, escapes and `$NAME` expansion.
use vstd::prelude::*;
use crate::text::{chars_of, is_alnum, is_space, is_space_char, is_word_char, push_char, views};
use crate::vars::VarTable;

verus! {

/// What a backslash followed by `c` stands for.
pub open spec fn escape_text(c: char) -> Seq<char> {
    if c == 'n' {
        seq!['\n']
    } else if c == 't' {
        seq!['\t']
    } else if c == 'r' {
        seq!['\r']
    } else if c == '\\' || c == '"' || c == '$' {
        seq![c]
    } else {
        seq!['\\', c]
    }
}

/// The number of name characters in `s` from position `i` on, up to the first other one.
pub open spec fn word_len(s: Seq<char>, i: int) -> nat
    decreases s.len() - i,
{
    if 0 <= i < s.len() && is_word_char(s[i]) {
        1 + word_len(s, i + 1)
    } else {
        0
    }
}

/// What `$name` expands to: the variable's value, or nothing.
pub open spec fn expansion(vars: Map<Seq<char>, Seq<char>>, name: Seq<char>) -> Seq<char> {
    if name.len() > 0 && vars.contains_key(name) {
        vars[name]
    } else {
        seq![]
    }
}

/// `tokens`, with `cur` added at the end unless it is empty.
pub open spec fn flush(tokens: Seq<Seq<char>>, cur: Seq<char>) -> Seq<Seq<char>> {
    if cur.len() > 0 {
        tokens.push(cur)
    } else {
        tokens
    }
}

/// The tokens of `s` when the scan stands at position `i`, has emitted `tokens`,
/// holds `cur` in its buffer, and is or is not inside quotes and after a backslash.
pub open spec fn lex(
    s: Seq<char>,
    vars: Map<Seq<char>, Seq<char>>,
    i: int,
    tokens: Seq<Seq<char>>,
    cur: Seq<char>,
    quoted: bool,
    escaped: bool,
) -> Seq<Seq<char>>
    decreases if i < s.len() { s.len() - i } else { 0 },
{
    if i < 0 || i >= s.len() {
        flush(tokens, cur)
    } else {
        let c = s[i];
        if escaped {
            lex(s, vars, i + 1, tokens, cur + escape_text(c), quoted, false)
        } else if c == '\\' {
            lex(s, vars, i + 1, tokens, cur, quoted, true)
        } else if c == '"' {
            lex(s, vars, i + 1, tokens, cur, !quoted, false)
        } else if c == '$' && !quoted {
            let end = i + 1 + word_len(s, i + 1);
            lex(s, vars, end, tokens, cur + expansion(vars, s.subrange(i + 1, end)), quoted, false)
        } else if is_space_char(c) && !quoted {
            lex(s, vars, i + 1, flush(tokens, cur), seq![], quoted, false)
        } else {
            lex(s, vars, i + 1, tokens, cur.push(c), quoted, false)
        }
    }
}

/// The tokens of the line `s` under the variables `vars`.
pub open spec fn tokens_of(s: Seq<char>, vars: Map<Seq<char>, Seq<char>>) -> Seq<Seq<char>> {
    lex(s, vars, 0, seq![], seq![], false, false)
}

/// A line with no double quote, dollar sign or backslash.
pub open spec fn is_plain(s: Seq<char>) -> bool {
    forall|k: int| 0 <= k < s.len() ==> s[k] != '"' && s[k] != '$' && s[k] != '\\'
}

/// The number of characters before the first whitespace in `s`.
pub open spec fn run_len(s: Seq<char>) -> nat
    decreases s.len(),
{
    if s.len() > 0 && !is_space_char(s[0]) {
        1 + run_len(s.skip(1))
    } else {
        0
    }
}

/// The maximal runs of non-whitespace characters of `s`, in order.
pub open spec fn words(s: Seq<char>) -> Seq<Seq<char>>
    decreases s.len(),
    via words_decreases
{
    if s.len() == 0 {
        seq![]
    } else if run_len(s) == 0 {
        words(s.skip(1))
    } else {
        seq![s.take(run_len(s) as int)] + words(s.skip(run_len(s) as int))
    }
}

proof fn lemma_run_len_bound(s: Seq<char>)
    ensures
        run_len(s) <= s.len(),
    decreases s.len(),
{
    if s.len() > 0 && !is_space_char(s[0]) {
        lemma_run_len_bound(s.skip(1));
    }
}

#[via_fn]
proof fn words_decreases(s: Seq<char>) {
    lemma_run_len_bound(s);
}

proof fn lemma_run_len_concat(a: Seq<char>, b: Seq<char>)
    requires
        forall|k: int| 0 <= k < a.len() ==> !is_space_char(#[trigger] a[k]),
    ensures
        run_len(a + b) == a.len() + run_len(b),
    decreases a.len(),
{
    if a.len() > 0 {
        assert((a + b).skip(1) =~= a.skip(1) + b);
        lemma_run_len_concat(a.skip(1), b);
    } else {
        assert(a + b =~= b);
    }
}

proof fn lemma_lex_plain(
    s: Seq<char>,
    vars: Map<Seq<char>, Seq<char>>,
    i: int,
    tokens: Seq<Seq<char>>,
    cur: Seq<char>,
)
    requires
        is_plain(s),
        0 <= i <= s.len(),
        forall|k: int| 0 <= k < cur.len() ==> !is_space_char(#[trigger] cur[k]),
    ensures
        lex(s, vars, i, tokens, cur, false, false) == tokens + words(cur + s.skip(i)),
    decreases s.len() - i,
{
    let t = cur + s.skip(i);
    lemma_run_len_concat(cur, s.skip(i));
    if i == s.len() {
        assert(t =~= cur);
        if cur.len() > 0 {
            assert(s.skip(i).len() == 0);
            assert(t.take(cur.len() as int) =~= cur);
            assert(t.skip(cur.len() as int).len() == 0);
            assert(run_len(s.skip(i)) == 0);
            assert(run_len(t) == cur.len());
            assert(words(t) == seq![cur] + words(t.skip(cur.len() as int)));
            assert(words(t.skip(cur.len() as int)) == Seq::<Seq<char>>::empty());
            assert(tokens + words(t) =~= tokens.push(cur));
        } else {
            assert(tokens + words(t) =~= tokens);
        }
    } else if is_space_char(s[i]) {
        lemma_lex_plain(s, vars, i + 1, flush(tokens, cur), seq![]);
        assert(seq![] + s.skip(i + 1) =~= s.skip(i + 1));
        assert(s.skip(i).skip(1) =~= s.skip(i + 1));
        assert(run_len(s.skip(i)) == 0);
        if cur.len() > 0 {
            assert(t.take(cur.len() as int) =~= cur);
            assert(t.skip(cur.len() as int) =~= s.skip(i));
            assert(run_len(t) == cur.len());
            assert(words(t) == seq![cur] + words(s.skip(i)));
            assert(words(s.skip(i)) == words(s.skip(i + 1)));
            assert(tokens + words(t) =~= tokens.push(cur) + words(s.skip(i + 1)));
        } else {
            assert(t =~= s.skip(i));
        }
    } else {
        let next = cur.push(s[i]);
        assert forall|k: int| 0 <= k < next.len() implies !is_space_char(#[trigger] next[k]) by {
            if k < cur.len() {
                assert(next[k] == cur[k]);
            }
        }
        lemma_lex_plain(s, vars, i + 1, tokens, next);
        assert(next + s.skip(i + 1) =~= t);
    }
}

/// On a line with no double quote, dollar sign or backslash, the tokens are the
/// maximal runs of non-whitespace characters, in order, whatever the variables.
pub proof fn lemma_plain_splits_on_whitespace(s: Seq<char>, vars: Map<Seq<char>, Seq<char>>)
    requires
        is_plain(s),
    ensures
        tokens_of(s, vars) == words(s),
{
    lemma_lex_plain(s, vars, 0, seq![], seq![]);
    assert(seq![] + s.skip(0) =~= s);
    assert(Seq::<Seq<char>>::empty() + words(s) =~= words(s));
}

/// Appends the text that a backslash followed by `c` stands for.
fn push_escaped(cur: &mut String, c: char)
    ensures
        final(cur)@ == old(cur)@ + escape_text(c),
{
    let ghost pre = cur@;
    if c == 'n' {
        push_char(cur, '\n');
    } else if c == 't' {
        push_char(cur, '\t');
    } else if c == 'r' {
        push_char(cur, '\r');
    } else if c == '\\' || c == '"' || c == '$' {
        push_char(cur, c);
    } else {
        push_char(cur, '\\');
        push_char(cur, c);
    }
    assert(cur@ =~= pre + escape_text(c));
}

/// Splits `input` into tokens: whitespace outside quotes separates tokens, a double
/// quote toggles quoting, a backslash escapes the next character, and outside quotes
/// `$NAME` is replaced by the value of the variable `NAME` (or by nothing).
pub fn tokenize(input: &str, variables: &VarTable) -> (r: Vec<String>)
    requires
        variables.wf(),
    ensures
        views(r@) == tokens_of(input@, variables@),
{
    let ghost vars = variables@;
    let chars = chars_of(input);
    let ghost s = chars@;
    let mut tokens: Vec<String> = Vec::new();
    let mut cur = String::new();
    let mut quoted = false;
    let mut escaped = false;
    let mut i: usize = 0;
    assert(views(tokens@) =~= seq![]);
    while i < chars.len()
        invariant
            s == input@,
            s == chars@,
            vars == variables@,
            variables.wf(),
            i <= chars.len(),
            lex(s, vars, i as int, views(tokens@), cur@, quoted, escaped) == tokens_of(s, vars),
        decreases chars.len() - i,
    {
        let c = chars[i];
        if escaped {
            push_escaped(&mut cur, c);
            escaped = false;
            i = i + 1;
        } else if c == '\\' {
            escaped = true;
            i = i + 1;
        } else if c == '"' {
            quoted = !quoted;
            i = i + 1;
        } else if c == '$' && !quoted {
            let mut name: Vec<char> = Vec::new();
            let mut j: usize = i + 1;
            while j < chars.len() && (is_alnum(chars[j]) || chars[j] == '_')
                invariant
                    s == chars@,
                    i < j <= chars.len(),
                    name@ == s.subrange(i + 1, j as int),
                    word_len(s, i + 1) == (j - i - 1) + word_len(s, j as int),
                decreases chars.len() - j,
            {
                name.push(chars[j]);
                assert(name@ =~= s.subrange(i + 1, j + 1));
                j = j + 1;
            }
            assert(word_len(s, j as int) == 0);
            let ghost pre = cur@;
            if name.len() > 0 {
                match variables.lookup(&name) {
                    Some(value) => cur.append(value.as_str()),
                    None => {},
                }
            }
            assert(cur@ =~= pre + expansion(vars, s.subrange(i + 1, j as int)));
            i = j;
        } else if is_space(c) && !quoted {
            if cur.as_str().is_empty() {
                assert(flush(views(tokens@), cur@) == views(tokens@));
            } else {
                let ghost pre = tokens@;
                tokens.push(cur.clone());
                assert(views(tokens@) =~= views(pre).push(cur@));
            }
            cur = String::new();
            i = i + 1;
        } else {
            push_char(&mut cur, c);
            i = i + 1;
        }
    }
    if !cur.as_str().is_empty() {
        let ghost pre = tokens@;
        let ghost last = cur@;
        tokens.push(cur);
        assert(views(tokens@) =~= views(pre).push(last));
    }
    tokens
}

} // verus!
