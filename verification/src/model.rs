use crate::action::{left_of, reverse_of, right_of, Action};
use crate::scalar::{non_negative, zero, Lawful, Scalar};
use crate::state::{Field, State};
use vstd::prelude::*;

verus! {

/// A grid decision process as mathematics: the rows of the grid, top row
/// first, and the numbers that govern a step.
///
/// A step in a chosen direction goes that way with probability `p1`, a
/// quarter turn to the left of it with `p2`, a quarter turn to the right
/// with `p3` and backwards with `p4`.
pub struct Mdp<N> {
    pub cells: Seq<Seq<Field<N>>>,
    pub gama: N,
    pub cost_of_move: N,
    pub p1: N,
    pub p2: N,
    pub p3: N,
    pub p4: N,
}

/// The position next to column `x`, row `y` in the direction `action`.
/// Rows are counted from the top, columns from the left.
pub open spec fn target(action: Action, x: int, y: int) -> (int, int) {
    match action {
        Action::Left => (x - 1, y),
        Action::Right => (x + 1, y),
        Action::Up => (x, y - 1),
        Action::Down => (x, y + 1),
    }
}

impl<N: Scalar> Mdp<N> {
    /// Whether column `x`, row `y` lies on the grid.
    pub open spec fn inside(self, x: int, y: int) -> bool {
        0 <= y < self.cells.len() && 0 <= x < self.cells[y].len()
    }

    /// The position at column `x`, row `y`.
    pub open spec fn at(self, x: int, y: int) -> Field<N>
        recommends
            self.inside(x, y),
    {
        self.cells[y][x]
    }

    /// Whether the agent can stand at column `x`, row `y`: the position
    /// lies on the grid and is no wall.
    pub open spec fn open_at(self, x: int, y: int) -> bool {
        self.inside(x, y) && !(self.at(x, y).state is ProhibitedState)
    }

    /// Where a step from column `x`, row `y` in the direction `action`
    /// ends: at the neighbour if the agent can stand there, else where it
    /// began.
    pub open spec fn landing(self, action: Action, x: int, y: int) -> (int, int) {
        let next = target(action, x, y);
        if self.open_at(next.0, next.1) {
            next
        } else {
            (x, y)
        }
    }

    /// The position in which such a step ends.
    pub open spec fn state_after(self, action: Action, x: int, y: int) -> State<N> {
        let end = self.landing(action, x, y);
        self.at(end.0, end.1).state
    }

    /// Whether a step from column `x`, row `y` has a value in whichever
    /// direction it goes: the position lies on the grid and none of the
    /// four steps ends in a wall.
    pub open spec fn can_step_from(self, x: int, y: int) -> bool {
        &&& self.inside(x, y)
        &&& !(self.state_after(Action::Up, x, y) is ProhibitedState)
        &&& !(self.state_after(Action::Down, x, y) is ProhibitedState)
        &&& !(self.state_after(Action::Left, x, y) is ProhibitedState)
        &&& !(self.state_after(Action::Right, x, y) is ProhibitedState)
    }

    /// What a step out of column `x`, row `y` costs: the position's own
    /// cost where it is special, else the general one.
    pub open spec fn move_cost(self, x: int, y: int) -> N {
        match self.at(x, y).state {
            State::SpecialState(_, cost_of_move) => cost_of_move,
            _ => self.cost_of_move,
        }
    }

    /// The value of the position in which a step ends.
    pub open spec fn reward_after(self, action: Action, x: int, y: int) -> N
        recommends
            self.can_step_from(x, y),
    {
        self.state_after(action, x, y).value().unwrap()
    }

    /// The expected value of choosing `action` at column `x`, row `y`:
    /// `gama * (p1 * forward + p2 * left + p3 * right + p4 * backward)`
    /// plus the cost of the step, the sum taken from left to right.
    pub open spec fn expected(self, action: Action, x: int, y: int) -> N
        recommends
            self.can_step_from(x, y),
    {
        let forward = self.p1.times(self.reward_after(action, x, y));
        let left = self.p2.times(self.reward_after(left_of(action), x, y));
        let right = self.p3.times(self.reward_after(right_of(action), x, y));
        let backward = self.p4.times(self.reward_after(reverse_of(action), x, y));
        self.gama.times(forward.plus(left).plus(right).plus(backward)).plus(self.move_cost(x, y))
    }

    /// The better of an incumbent and the choice of `action`: the
    /// challenger wins only where its expected value exceeds the
    /// incumbent's.
    pub open spec fn contest(self, incumbent: (N, Action), action: Action, x: int, y: int) -> (
        N,
        Action,
    ) {
        let challenger = self.expected(action, x, y);
        if challenger.exceeds(incumbent.0) {
            (challenger, action)
        } else {
            incumbent
        }
    }

    /// The best expected value at column `x`, row `y` and the direction
    /// that attains it. Among equals `Down` is kept before `Right`, `Right`
    /// before `Left`, `Left` before `Up`.
    pub open spec fn best(self, x: int, y: int) -> (N, Action) {
        let down = (self.expected(Action::Down, x, y), Action::Down);
        let right = self.contest(down, Action::Right, x, y);
        let left = self.contest(right, Action::Left, x, y);
        self.contest(left, Action::Up, x, y)
    }

    /// What one update makes of `field`, taken to stand at column `x`,
    /// row `y`: a wall or an absorbing position stays as it is; any other
    /// keeps its kind, takes the best expected value and records its
    /// direction.
    pub open spec fn evaluated(self, field: Field<N>, x: int, y: int) -> Field<N> {
        if field.state.is_fixed() {
            field
        } else {
            let (value, action) = self.best(x, y);
            Field { state: field.state.with_value(value), action: Some(action) }
        }
    }

    /// What one update makes of the position at column `x`, row `y`.
    pub open spec fn next_at(self, x: int, y: int) -> Field<N> {
        self.evaluated(self.at(x, y), x, y)
    }

    /// The process after one sweep: every position updated from the grid
    /// as it was before the sweep.
    pub open spec fn swept(self) -> Mdp<N> {
        Mdp {
            cells: Seq::new(
                self.cells.len(),
                |y: int| Seq::new(self.cells[y].len(), |x: int| self.next_at(x, y)),
            ),
            ..self
        }
    }

    /// The process after `n` sweeps.
    pub open spec fn after_sweeps(self, n: nat) -> Mdp<N>
        decreases n,
    {
        if n == 0 {
            self
        } else {
            self.after_sweeps((n - 1) as nat).swept()
        }
    }

    /// `acc` plus the changes that one sweep makes to the first `upto`
    /// positions of row `y`, added one by one from the left. Walls add
    /// nothing.
    pub open spec fn row_error(self, y: int, upto: nat, acc: N) -> N
        decreases upto,
    {
        if upto == 0 {
            acc
        } else {
            let x = upto - 1;
            let before = self.row_error(y, x as nat, acc);
            if self.at(x, y).state is ProhibitedState {
                before
            } else {
                before.plus(self.next_at(x, y).state.change_from(self.at(x, y).state))
            }
        }
    }

    /// The changes that one sweep makes to the first `rows` rows, added up
    /// row by row from the top, starting from zero.
    pub open spec fn error_through(self, rows: nat) -> N
        decreases rows,
    {
        if rows == 0 {
            zero()
        } else {
            let y = rows - 1;
            self.row_error(y, self.cells[y].len(), self.error_through(y as nat))
        }
    }

    /// The error of one sweep: the sum of `|new value - old value|` over
    /// all positions but the walls.
    pub open spec fn sweep_error(self) -> N {
        self.error_through(self.cells.len())
    }

    /// Whether one update leaves the value at column `x`, row `y` as it is.
    pub open spec fn settled_at(self, x: int, y: int) -> bool {
        self.next_at(x, y).state == self.at(x, y).state
    }

    /// Whether one sweep leaves every value on the grid as it is.
    pub open spec fn is_fixed_point(self) -> bool {
        forall|x: int, y: int| self.inside(x, y) ==> #[trigger] self.settled_at(x, y)
    }

    /// From a position where the agent can stand, no step ends in a wall:
    /// it ends at a neighbour that is open, or where it began.
    pub proof fn lemma_open_positions_can_step(self, x: int, y: int)
        requires
            self.open_at(x, y),
        ensures
            self.can_step_from(x, y),
    {
    }

    /// A step towards a wall or off the grid ends where it began, so its
    /// reward is the value of the position it set out from; any other step
    /// ends at the neighbour.
    pub proof fn lemma_bump_stays_put(self, action: Action, x: int, y: int)
        ensures
            ({
                let next = target(action, x, y);
                if self.open_at(next.0, next.1) {
                    self.state_after(action, x, y) == self.at(next.0, next.1).state
                } else {
                    &&& self.landing(action, x, y) == (x, y)
                    &&& self.state_after(action, x, y) == self.at(x, y).state
                    &&& self.reward_after(action, x, y) == self.at(x, y).state.value().unwrap()
                }
            }),
    {
    }

    /// A sweep changes neither the shape of the grid nor the numbers that
    /// govern a step, no position changes its kind, and walls and absorbing
    /// positions stay exactly as they are.
    pub proof fn lemma_sweep_keeps_kinds(self)
        ensures
            self.swept().cells.len() == self.cells.len(),
            self.swept().gama == self.gama,
            self.swept().cost_of_move == self.cost_of_move,
            self.swept().p1 == self.p1,
            self.swept().p2 == self.p2,
            self.swept().p3 == self.p3,
            self.swept().p4 == self.p4,
            forall|x: int, y: int| self.swept().inside(x, y) == self.inside(x, y),
            forall|x: int, y: int|
                self.inside(x, y) ==> (#[trigger] self.swept().at(x, y)).state.same_kind(
                    self.at(x, y).state,
                ),
            forall|x: int, y: int|
                self.inside(x, y) && self.at(x, y).state.is_fixed() ==> #[trigger] self.swept().at(
                    x,
                    y,
                ) == self.at(x, y),
    {
    }

    /// What holds of one sweep holds of any number of them: the shape, the
    /// governing numbers and every kind stay, and a wall or an absorbing
    /// position is after `n` sweeps exactly what it was before the first.
    pub proof fn lemma_sweeps_keep_kinds(self, n: nat)
        ensures
            self.after_sweeps(n).cells.len() == self.cells.len(),
            self.after_sweeps(n).gama == self.gama,
            self.after_sweeps(n).cost_of_move == self.cost_of_move,
            self.after_sweeps(n).p1 == self.p1,
            self.after_sweeps(n).p2 == self.p2,
            self.after_sweeps(n).p3 == self.p3,
            self.after_sweeps(n).p4 == self.p4,
            forall|x: int, y: int| self.after_sweeps(n).inside(x, y) == self.inside(x, y),
            forall|x: int, y: int|
                self.inside(x, y) ==> (#[trigger] self.after_sweeps(n).at(x, y)).state.same_kind(
                    self.at(x, y).state,
                ),
            forall|x: int, y: int|
                self.inside(x, y) && self.at(x, y).state.is_fixed() ==> #[trigger] self.after_sweeps(
                    n,
                ).at(x, y) == self.at(x, y),
        decreases n,
    {
        if n > 0 {
            let earlier = self.after_sweeps((n - 1) as nat);
            self.lemma_sweeps_keep_kinds((n - 1) as nat);
            earlier.lemma_sweep_keeps_kinds();
        }
    }
}

impl<N: Lawful> Mdp<N> {
    /// In an exact arithmetic the best expected value is the greatest: it
    /// is the expected value of the direction recorded with it, and no
    /// direction has an expected value that exceeds it.
    pub proof fn lemma_best_is_greatest(self, action: Action, x: int, y: int)
        ensures
            self.best(x, y).0 == self.expected(self.best(x, y).1, x, y),
            !self.expected(action, x, y).exceeds(self.best(x, y).0),
    {
        let down = (self.expected(Action::Down, x, y), Action::Down);
        let right = self.contest(down, Action::Right, x, y);
        let left = self.contest(right, Action::Left, x, y);
        let up = self.contest(left, Action::Up, x, y);
        N::order_is_strict(down.0, down.0);
        self.lemma_contest_keeps_the_greater(down, Action::Right, x, y);
        self.lemma_contest_keeps_the_greater(right, Action::Left, x, y);
        self.lemma_contest_keeps_the_greater(left, Action::Up, x, y);
        N::order_chains(down.0, right.0, left.0);
        N::order_chains(down.0, left.0, up.0);
        N::order_chains(self.expected(Action::Right, x, y), right.0, left.0);
        N::order_chains(self.expected(Action::Right, x, y), left.0, up.0);
        N::order_chains(self.expected(Action::Left, x, y), left.0, up.0);
    }

    proof fn lemma_contest_keeps_the_greater(
        self,
        incumbent: (N, Action),
        action: Action,
        x: int,
        y: int,
    )
        requires
            incumbent.0 == self.expected(incumbent.1, x, y),
        ensures
            ({
                let winner = self.contest(incumbent, action, x, y);
                &&& winner.0 == self.expected(winner.1, x, y)
                &&& !incumbent.0.exceeds(winner.0)
                &&& !self.expected(action, x, y).exceeds(winner.0)
            }),
    {
        let challenger = self.expected(action, x, y);
        N::order_is_strict(challenger, incumbent.0);
        N::order_is_strict(incumbent.0, challenger);
    }

    /// In an exact arithmetic, one update changes the value at a position
    /// by zero exactly when it leaves the position as it is, and never by
    /// less than zero.
    pub proof fn lemma_change_is_zero_when_settled(self, x: int, y: int)
        requires
            self.inside(x, y),
        ensures
            non_negative(self.next_at(x, y).state.change_from(self.at(x, y).state)),
            self.next_at(x, y).state.change_from(self.at(x, y).state) == zero::<N>()
                <==> self.settled_at(x, y),
    {
        let previous = self.at(x, y).state;
        let next = self.next_at(x, y).state;
        N::order_is_strict(zero(), zero());
        match (previous.value(), next.value()) {
            (Some(previous_value), Some(next_value)) => {
                N::gap_is_zero_between_equals_only(next_value, previous_value);
                N::magnitude_is_non_negative(next_value.minus(previous_value));
            },
            _ => {},
        }
    }

    proof fn lemma_row_error(self, y: int, upto: nat, acc: N)
        requires
            0 <= y < self.cells.len(),
            upto <= self.cells[y].len(),
            non_negative(acc),
        ensures
            non_negative(self.row_error(y, upto, acc)),
            self.row_error(y, upto, acc) == zero::<N>() <==> (acc == zero::<N>() && forall|x: int|
                0 <= x < upto ==> #[trigger] self.settled_at(x, y)),
        decreases upto,
    {
        if upto > 0 {
            let x = upto - 1;
            let before = self.row_error(y, x as nat, acc);
            self.lemma_row_error(y, x as nat, acc);
            self.lemma_change_is_zero_when_settled(x, y);
            if !(self.at(x, y).state is ProhibitedState) {
                N::sum_of_non_negatives(
                    before,
                    self.next_at(x, y).state.change_from(self.at(x, y).state),
                );
            }
        }
    }

    proof fn lemma_error_through(self, rows: nat)
        requires
            rows <= self.cells.len(),
        ensures
            non_negative(self.error_through(rows)),
            self.error_through(rows) == zero::<N>() <==> (forall|x: int, y: int|
                0 <= y < rows && 0 <= x < self.cells[y].len() ==> #[trigger] self.settled_at(x, y)),
        decreases rows,
    {
        if rows == 0 {
            N::order_is_strict(zero(), zero());
        } else {
            let y = rows - 1;
            self.lemma_error_through(y as nat);
            self.lemma_row_error(y, self.cells[y].len(), self.error_through(y as nat));
        }
    }

    /// In an exact arithmetic the error of a sweep is never negative, and
    /// it is zero exactly when the sweep leaves every value as it is.
    pub proof fn lemma_error_is_zero_at_fixed_points_only(self)
        ensures
            non_negative(self.sweep_error()),
            self.sweep_error() == zero::<N>() <==> self.is_fixed_point(),
    {
        self.lemma_error_through(self.cells.len());
    }
}

} // verus!
