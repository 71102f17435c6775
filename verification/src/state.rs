use crate::action::Action;
use crate::scalar::{gap, zero, Scalar};
use vstd::pervasive::unreached;
use vstd::prelude::*;
use vstd::string::StringExecFns;

verus! {

/// What a position of the grid is, with the numbers it carries.
///
/// The kind of a position never changes; a sweep changes only the value of
/// a `StartState`, a `SpecialState` or a `NormalState`.
#[derive(Debug, PartialEq)]
pub enum State<N> {
    /// A wall: it cannot be entered and has no value.
    ProhibitedState,
    /// Where the agent sets out. Carries its value.
    StartState(N),
    /// An absorbing position. Carries its value, which is fixed.
    TerminalState(N),
    /// A position with a step cost of its own. Carries its value, then
    /// that cost.
    SpecialState(N, N),
    /// Any other position. Carries its value.
    NormalState(N),
}

/// A position together with the direction last found best from it.
#[derive(Debug, PartialEq)]
pub struct Field<N> {
    pub state: State<N>,
    pub action: Option<Action>,
}

impl<N: Copy> Copy for State<N> {

}

impl<N: Copy> Clone for State<N> {
    fn clone(&self) -> (copy: Self)
        ensures
            copy == *self,
    {
        *self
    }
}

impl<N: Copy> Copy for Field<N> {

}

impl<N: Copy> Clone for Field<N> {
    fn clone(&self) -> (copy: Self)
        ensures
            copy == *self,
    {
        *self
    }
}

impl<N: Scalar> State<N> {
    /// The value a position carries; a wall carries none.
    pub open spec fn value(self) -> Option<N> {
        match self {
            State::ProhibitedState => None,
            State::StartState(value) => Some(value),
            State::TerminalState(value) => Some(value),
            State::SpecialState(value, _) => Some(value),
            State::NormalState(value) => Some(value),
        }
    }

    /// Whether two positions are of one kind.
    pub open spec fn same_kind(self, other: Self) -> bool {
        match (self, other) {
            (State::ProhibitedState, State::ProhibitedState) => true,
            (State::StartState(_), State::StartState(_)) => true,
            (State::TerminalState(_), State::TerminalState(_)) => true,
            (State::SpecialState(_, _), State::SpecialState(_, _)) => true,
            (State::NormalState(_), State::NormalState(_)) => true,
            _ => false,
        }
    }

    /// Whether a sweep leaves the position as it is: walls and absorbing
    /// positions.
    pub open spec fn is_fixed(self) -> bool {
        self is ProhibitedState || self is TerminalState
    }

    /// The position of the same kind that carries `value`. A special
    /// position keeps its step cost; a wall stays a wall.
    pub open spec fn with_value(self, value: N) -> Self {
        match self {
            State::ProhibitedState => State::ProhibitedState,
            State::StartState(_) => State::StartState(value),
            State::TerminalState(_) => State::TerminalState(value),
            State::SpecialState(_, cost_of_move) => State::SpecialState(value, cost_of_move),
            State::NormalState(_) => State::NormalState(value),
        }
    }

    /// How far the value of `self` lies from that of `previous`; zero
    /// between two walls.
    pub open spec fn change_from(self, previous: Self) -> N {
        match (previous.value(), self.value()) {
            (Some(previous_value), Some(new_value)) => gap(new_value, previous_value),
            _ => zero(),
        }
    }

    /// The value that entering this position is worth.
    pub fn reward(&self) -> (r: N)
        requires
            !(self is ProhibitedState),
        ensures
            self.value() == Some(r),
    {
        match self {
            State::ProhibitedState => unreached(),
            State::StartState(value) => *value,
            State::NormalState(value) => *value,
            State::TerminalState(value) => *value,
            State::SpecialState(value, _) => *value,
        }
    }

    /// The position of the same kind that carries `value`.
    pub fn updated(&self, value: N) -> (r: Self)
        ensures
            r == self.with_value(value),
    {
        match self {
            State::ProhibitedState => State::ProhibitedState,
            State::StartState(_) => State::StartState(value),
            State::NormalState(_) => State::NormalState(value),
            State::TerminalState(_) => State::TerminalState(value),
            State::SpecialState(_, cost_of_move) => State::SpecialState(value, *cost_of_move),
        }
    }

    /// The size of the step from `previous` to `self`, which are of one
    /// kind.
    pub fn calculate_error(previous: &Self, new: &Self) -> (r: N)
        requires
            previous.same_kind(*new),
        ensures
            r == new.change_from(*previous),
    {
        match (previous, new) {
            (State::NormalState(previous_value), State::NormalState(new_value)) => {
                new_value.difference(previous_value).abs()
            },
            (State::StartState(previous_value), State::StartState(new_value)) => {
                new_value.difference(previous_value).abs()
            },
            (State::SpecialState(previous_value, _), State::SpecialState(new_value, _)) => {
                new_value.difference(previous_value).abs()
            },
            (State::TerminalState(previous_value), State::TerminalState(new_value)) => {
                new_value.difference(previous_value).abs()
            },
            (State::ProhibitedState, State::ProhibitedState) => N::from_hundredths(0),
            _ => unreached(),
        }
    }

    /// The position in print: the letter of its kind and, unless it is a
    /// wall, its value in brackets.
    pub open spec fn rendered(self) -> Seq<char> {
        match self {
            State::ProhibitedState => seq!['F'],
            State::StartState(value) => seq!['S', '('] + value.text() + seq![')'],
            State::TerminalState(value) => seq!['T', '('] + value.text() + seq![')'],
            State::SpecialState(value, _) => seq!['B', '('] + value.text() + seq![')'],
            State::NormalState(value) => seq!['N', '('] + value.text() + seq![')'],
        }
    }

    /// The position in print.
    pub fn render(&self) -> (r: String)
        ensures
            r@ == self.rendered(),
    {
        proof {
            reveal_strlit("F");
            reveal_strlit("S(");
            reveal_strlit("T(");
            reveal_strlit("B(");
            reveal_strlit("N(");
            reveal_strlit(")");
        }
        let (opening, value) = match self {
            State::ProhibitedState => {
                return String::from_str("F");
            },
            State::StartState(value) => ("S(", value),
            State::TerminalState(value) => ("T(", value),
            State::SpecialState(value, _) => ("B(", value),
            State::NormalState(value) => ("N(", value),
        };
        let mut r = String::from_str(opening);
        r.append(value.to_text().as_str());
        r.append(")");
        r
    }
}

impl<N: Scalar> Field<N> {
    /// A position for which no direction has been found yet.
    pub fn new(state: State<N>) -> (f: Field<N>)
        ensures
            f == (Field { state, action: None }),
    {
        Field { state: state, action: None }
    }
}

} // verus!
