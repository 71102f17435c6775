use vstd::prelude::*;

verus! {

/// A direction in which the agent tries to move.
#[derive(Clone, Copy, Debug, PartialEq, Eq)]
pub enum Action {
    Up,
    Down,
    Left,
    Right,
}

/// The direction a quarter turn to the left of `action`.
pub open spec fn left_of(action: Action) -> Action {
    match action {
        Action::Up => Action::Left,
        Action::Left => Action::Down,
        Action::Down => Action::Right,
        Action::Right => Action::Up,
    }
}

/// The direction a quarter turn to the right of `action`.
pub open spec fn right_of(action: Action) -> Action {
    match action {
        Action::Up => Action::Right,
        Action::Right => Action::Down,
        Action::Down => Action::Left,
        Action::Left => Action::Up,
    }
}

/// The direction opposite to `action`.
pub open spec fn reverse_of(action: Action) -> Action {
    match action {
        Action::Up => Action::Down,
        Action::Left => Action::Right,
        Action::Down => Action::Up,
        Action::Right => Action::Left,
    }
}

pub fn left_operation(action: &Action) -> (r: Action)
    ensures
        r == left_of(*action),
{
    match action {
        Action::Up => Action::Left,
        Action::Left => Action::Down,
        Action::Down => Action::Right,
        Action::Right => Action::Up,
    }
}

pub fn right_operation(action: &Action) -> (r: Action)
    ensures
        r == right_of(*action),
{
    match action {
        Action::Up => Action::Right,
        Action::Right => Action::Down,
        Action::Down => Action::Left,
        Action::Left => Action::Up,
    }
}

pub fn reverse_operation(action: &Action) -> (r: Action)
    ensures
        r == reverse_of(*action),
{
    match action {
        Action::Up => Action::Down,
        Action::Left => Action::Right,
        Action::Down => Action::Up,
        Action::Right => Action::Left,
    }
}

impl Action {
    /// The arrow that stands for the direction in print.
    pub fn glyph(&self) -> (c: char)
        ensures
            c == match *self {
                Action::Up => '^',
                Action::Down => 'v',
                Action::Left => '<',
                Action::Right => '>',
            },
    {
        match self {
            Action::Up => '^',
            Action::Left => '<',
            Action::Right => '>',
            Action::Down => 'v',
        }
    }
}

/// The three turns are rotations of one cycle of four: four quarter turns
/// to the left lead back to the start, a half turn undoes itself, and a
/// quarter turn to the left after a half turn is a quarter turn to the
/// right.
pub proof fn lemma_turns_form_a_cycle(action: Action)
    ensures
        left_of(left_of(left_of(left_of(action)))) == action,
        right_of(right_of(right_of(right_of(action)))) == action,
        reverse_of(reverse_of(action)) == action,
        left_of(reverse_of(action)) == right_of(action),
        right_of(reverse_of(action)) == left_of(action),
        left_of(left_of(action)) == reverse_of(action),
        right_of(left_of(action)) == action,
        left_of(right_of(action)) == action,
{
}

} // verus!
