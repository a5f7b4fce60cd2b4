//! The shape of a parsed state-machine description. Every text field borrows
//! from the source text; sequences keep the order of declaration.
use vstd::prelude::*;

verus! {

/// A document-level directive, such as the name of the generated class.
pub struct Header<'a> {
    pub name: &'a str,
    pub value: &'a str,
}

/// One state: its name, its parent state (empty for none), its entry and exit
/// actions (empty for none), and whether it is abstract (only inherited from,
/// never entered).
pub struct StateSpec<'a> {
    pub name: &'a str,
    pub super_state: &'a str,
    pub entry_action: &'a str,
    pub exit_action: &'a str,
    pub abstract_state: bool,
}

/// One event-handling clause of a state: the event, the state that follows,
/// and the actions to run, in the order they fire.
pub struct SubTransitions<'a> {
    event: &'a str,
    next_state: &'a str,
    actions: Vec<&'a str>,
}

impl<'a> SubTransitions<'a> {
    pub closed spec fn event_view(&self) -> Seq<char> {
        self.event@
    }

    pub closed spec fn next_state_view(&self) -> Seq<char> {
        self.next_state@
    }

    pub closed spec fn actions_view(&self) -> Seq<Seq<char>> {
        self.actions@.map_values(|a: &str| a@)
    }

    /// A clause for `event` that leads to `next_state` and runs `actions`
    /// in the order given.
    pub fn new(event: &'a str, next_state: &'a str, actions: Vec<&'a str>) -> (r: Self)
        ensures
            r.event_view() == event@,
            r.next_state_view() == next_state@,
            r.actions_view() == actions@.map_values(|a: &str| a@),
    {
        SubTransitions { event, next_state, actions }
    }

    pub fn event(&self) -> (r: &'a str)
        ensures
            r@ == self.event_view(),
    {
        self.event
    }

    pub fn next_state(&self) -> (r: &'a str)
        ensures
            r@ == self.next_state_view(),
    {
        self.next_state
    }

    pub fn actions(&self) -> (r: &Vec<&'a str>)
        ensures
            r@.map_values(|a: &str| a@) == self.actions_view(),
    {
        &self.actions
    }
}

/// A state with its clauses, in the order they were declared.
pub struct Transition<'a> {
    pub state: StateSpec<'a>,
    pub sub_transitions: Vec<SubTransitions<'a>>,
}

/// A problem found in the input, reported without stopping the pass.
pub struct SyntaxError<'a> {
    pub error_type: &'a str,
    pub message: &'a str,
}

/// A whole description: its headers, its transitions, the errors found, and
/// whether the parser has finished filling it in. Errors may stand beside a
/// finished result.
pub struct FsmSyntax<'a> {
    pub headers: Vec<Header<'a>>,
    pub logic: Vec<Transition<'a>>,
    pub errors: Vec<SyntaxError<'a>>,
    pub done: bool,
}

impl<'a> FsmSyntax<'a> {
    /// An empty description that is not finished yet.
    pub fn new() -> (r: Self)
        ensures
            r.headers@.len() == 0,
            r.logic@.len() == 0,
            r.errors@.len() == 0,
            !r.done,
    {
        FsmSyntax { headers: Vec::new(), logic: Vec::new(), errors: Vec::new(), done: false }
    }
}

} // verus!
