//! The interface through which the search sees a game.

use vstd::prelude::*;

verus! {

/// A position of a turn-based game.
///
/// A position knows whose turn it is and which position an action leads to.
/// Both answers are functions of the position alone: the executable methods
/// return exactly what their specification counterparts say. An
/// implementation that is to be verified overrides the two specification
/// functions; their default bodies say nothing.
///
/// A position is finished exactly if no agent is to move in it, and an action
/// is legal in a position exactly if the position has a successor for it.
pub trait GameState: Sized {
    /// The actions that agents may take. Whether an action is legal depends
    /// on the position it is taken in.
    type Action;

    /// The agents that take turns.
    type Agent;

    /// The agent to move in this position, or `None` once the game has ended.
    open spec fn spec_next_agent(&self) -> Option<Self::Agent> {
        arbitrary()
    }

    /// The position that `action` leads to, or `None` if `action` is illegal here.
    open spec fn spec_successor(&self, action: &Self::Action) -> Option<Self> {
        arbitrary()
    }

    /// Returns the next agent to move, or `None` if the game has ended.
    fn next_agent(&self) -> (agent: Option<Self::Agent>)
        ensures
            agent == self.spec_next_agent(),
    ;

    /// Returns true if this game has been finished.
    fn is_finished(&self) -> (finished: bool)
        ensures
            finished == self.spec_next_agent().is_none(),
    {
        self.next_agent().is_none()
    }

    /// Returns the state which results from the given action, if that action is legal.
    fn successor(&self, action: &Self::Action) -> (next: Option<Self>)
        ensures
            next == self.spec_successor(action),
    ;

    /// Returns whether or not the given action is legal.
    fn is_legal(&self, action: &Self::Action) -> (legal: bool)
        ensures
            legal == self.spec_successor(action).is_some(),
    {
        self.successor(action).is_some()
    }
}

} // verus!
