//! The session state: variables and the history of input lines.
use vstd::prelude::*;
use crate::text::views;
use crate::vars::VarTable;

verus! {

/// What one session keeps between commands.
pub struct ShellState {
    pub variables: VarTable,
    pub history: Vec<String>,
}

impl ShellState {
    /// The state's invariant: a well-formed variable table.
    pub open spec fn wf(&self) -> bool {
        self.variables.wf()
    }

    /// The history as a sequence of lines.
    pub open spec fn history_view(&self) -> Seq<Seq<char>> {
        views(self.history@)
    }

    /// A state with no variables and no history.
    pub fn new() -> (r: ShellState)
        ensures
            r.wf(),
            r.variables@ == Map::<Seq<char>, Seq<char>>::empty(),
            r.history@.len() == 0,
    {
        ShellState { variables: VarTable::new(), history: Vec::new() }
    }

    /// Sets the variable `name` to `value`, replacing any earlier value.
    pub fn set_variable(&mut self, name: String, value: String)
        requires
            old(self).wf(),
        ensures
            final(self).wf(),
            final(self).variables@ == old(self).variables@.insert(name@, value@),
            final(self).history == old(self).history,
    {
        self.variables.insert(name, value);
    }

    /// The value of the variable `name`, if it is set.
    pub fn get_variable(&self, name: &str) -> (r: Option<&String>)
        requires
            self.wf(),
        ensures
            r is Some == self.variables@.contains_key(name@),
            r is Some ==> r->0@ == self.variables@[name@],
    {
        self.variables.get(name)
    }

    /// Appends `command` to the history.
    pub fn add_to_history(&mut self, command: String)
        ensures
            final(self).history@ == old(self).history@.push(command),
            final(self).variables == old(self).variables,
    {
        self.history.push(command);
    }

    /// The history, oldest line first.
    pub fn get_history(&self) -> (r: &Vec<String>)
        ensures
            r@ == self.history@,
    {
        &self.history
    }
}

impl Default for ShellState {
    fn default() -> (r: ShellState)
        ensures
            r.wf(),
            r.variables@ == Map::<Seq<char>, Seq<char>>::empty(),
            r.history@.len() == 0,
    {
        ShellState::new()
    }
}

} // verus!
