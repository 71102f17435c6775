use crate::action::{left_operation, reverse_operation, right_operation, Action};
use crate::matrix::Matrix;
use crate::model::{target, Mdp};
use crate::scalar::{non_negative, one, zero, Scalar};
use crate::state::{Field, State};
use vstd::prelude::*;

verus! {

/// A grid decision process that is solved by value iteration: each call of
/// [`Markov::evaluate`] is one sweep.
#[derive(Debug, PartialEq)]
pub struct Markov<N> {
    world: Matrix<Field<N>>,
    gama: N,
    cost_of_move: N,
    p1: N,
    p2: N,
    p3: N,
    p4: N,
}

/// What a solver is made from: the size of the grid, the positions that
/// are not the default, and the numbers that govern a step.
///
/// Each entry of `states` names a position by its kind, its column and its
/// row. Where several entries name one position the last of them counts;
/// an entry that names no position of the grid counts for nothing.
#[derive(Debug)]
pub struct MarkovBuilder<N> {
    pub x: usize,
    pub y: usize,
    pub states: Vec<(State<N>, usize, usize)>,
    pub gama: N,
    pub cost_of_move: N,
    pub p1: N,
    pub p2: N,
    pub p3: N,
}

/// Why a builder does not describe a sound process.
#[derive(Clone, Copy, Debug, PartialEq, Eq)]
pub enum ConfigError {
    /// The discount is not above zero, or it exceeds one.
    Discount,
    /// One of `p1`, `p2`, `p3` is negative, or together they exceed one.
    Probabilities,
    /// The entry of this index names no position of the grid.
    OutOfRange(usize),
    /// The entry of this index names a position that an earlier entry
    /// names too.
    Duplicate(usize),
}

impl<N: Scalar> MarkovBuilder<N> {
    /// What the first `n` entries make of column `x`, row `y`: the kind
    /// that the last of them to name the position gives, or `NormalState`
    /// of value zero where none names it.
    pub open spec fn setting(self, n: nat, x: int, y: int) -> State<N>
        decreases n,
    {
        if n == 0 {
            State::NormalState(zero::<N>())
        } else {
            let entry = self.states@[n - 1];
            if entry.1 == x && entry.2 == y {
                entry.0
            } else {
                self.setting((n - 1) as nat, x, y)
            }
        }
    }

    /// The probability of a step backwards, which is what the other three
    /// leave of one: `|1 - p1 - p2 - p3|`, rounded to two decimal places.
    pub open spec fn p4(self) -> N {
        one::<N>().minus(self.p1).minus(self.p2).minus(self.p3).magnitude().rounded(2)
    }

    /// The process that the builder describes.
    pub open spec fn configured(self) -> Mdp<N> {
        Mdp {
            cells: Seq::new(
                self.y as nat,
                |y: int|
                    Seq::new(
                        self.x as nat,
                        |x: int|
                            Field {
                                state: self.setting(self.states@.len(), x, y),
                                action: None,
                            },
                    ),
            ),
            gama: self.gama,
            cost_of_move: self.cost_of_move,
            p1: self.p1,
            p2: self.p2,
            p3: self.p3,
            p4: self.p4(),
        }
    }

    /// A builder for a grid of four columns and three rows without any
    /// entry, with discount 1, step cost -0.04 and step probabilities 0.8,
    /// 0.1 and 0.1.
    pub fn new() -> (builder: MarkovBuilder<N>)
        ensures
            builder.x == 4,
            builder.y == 3,
            builder.states@ == Seq::<(State<N>, usize, usize)>::empty(),
            builder.gama == one::<N>(),
            builder.cost_of_move == N::hundredths(-4),
            builder.p1 == N::hundredths(80),
            builder.p2 == N::hundredths(10),
            builder.p3 == N::hundredths(10),
    {
        MarkovBuilder {
            x: 4,
            y: 3,
            states: Vec::new(),
            gama: N::from_hundredths(100),
            cost_of_move: N::from_hundredths(-4),
            p1: N::from_hundredths(80),
            p2: N::from_hundredths(10),
            p3: N::from_hundredths(10),
        }
    }

    /// Sets the size of the grid to `x` columns and `y` rows.
    pub fn set_size(&mut self, x: usize, y: usize) -> (builder: &mut MarkovBuilder<N>)
        ensures
            builder.x == x,
            builder.y == y,
            builder.states == old(self).states,
            builder.gama == old(self).gama,
            builder.cost_of_move == old(self).cost_of_move,
            builder.p1 == old(self).p1,
            builder.p2 == old(self).p2,
            builder.p3 == old(self).p3,
            *final(self) == *final(builder),
    {
        self.x = x;
        self.y = y;
        self
    }

    /// Adds an entry that makes column `x`, row `y` the position `state`.
    pub fn set_state(&mut self, state: State<N>, x: usize, y: usize) -> (builder:
        &mut MarkovBuilder<N>)
        ensures
            builder.states@ == old(self).states@.push((state, x, y)),
            builder.x == old(self).x,
            builder.y == old(self).y,
            builder.gama == old(self).gama,
            builder.cost_of_move == old(self).cost_of_move,
            builder.p1 == old(self).p1,
            builder.p2 == old(self).p2,
            builder.p3 == old(self).p3,
            *final(self) == *final(builder),
    {
        self.states.push((state, x, y));
        self
    }

    /// The solver that the builder describes.
    pub fn finalize(&self) -> (markov: Markov<N>)
        ensures
            markov@ == self.configured(),
    {
        let blank = Field::new(State::NormalState(N::from_hundredths(0)));
        let mut matrix = Matrix::new(blank, self.x, self.y);
        proof {
            assert forall|x: int, y: int| matrix.contains(x, y) implies matrix@[y][x] == blank by {
                assert(cloned(blank, matrix.at(x, y)));
            }
        }
        let mut n: usize = 0;
        while n < self.states.len()
            invariant
                n <= self.states@.len(),
                matrix.wf(),
                matrix.width() == self.x,
                matrix.height() == self.y,
                forall|x: int, y: int|
                    matrix.contains(x, y) ==> #[trigger] matrix@[y][x] == (Field {
                        state: self.setting(n as nat, x, y),
                        action: None,
                    }),
            decreases self.states@.len() - n,
        {
            let (state, x, y) = &self.states[n];
            matrix.set_state(Field::new(state.clone()), *x, *y);
            n += 1;
        }
        let p4 = N::from_hundredths(100).difference(&self.p1).difference(&self.p2).difference(
            &self.p3,
        ).abs().round_to(2);
        let markov = Markov {
            world: matrix,
            gama: self.gama,
            cost_of_move: self.cost_of_move,
            p1: self.p1,
            p2: self.p2,
            p3: self.p3,
            p4,
        };
        proof {
            let built = markov@.cells;
            let wanted = self.configured().cells;
            assert forall|y: int| 0 <= y < built.len() implies built[y] =~= wanted[y] by {}
            assert(built =~= wanted);
        }
        markov
    }

    /// Whether the discount lies above zero and does not exceed one.
    pub open spec fn discounted(self) -> bool {
        self.gama.exceeds(zero::<N>()) && !self.gama.exceeds(one::<N>())
    }

    /// Whether `p1`, `p2` and `p3` are probabilities that leave a fourth:
    /// none is negative, and `1 - p1 - p2 - p3`, rounded to two decimal
    /// places, is not negative either.
    pub open spec fn normalized(self) -> bool {
        &&& non_negative(self.p1)
        &&& non_negative(self.p2)
        &&& non_negative(self.p3)
        &&& non_negative(one::<N>().minus(self.p1).minus(self.p2).minus(self.p3).rounded(2))
    }

    /// Whether the entry of index `i` names a position of the grid.
    pub open spec fn entry_inside(self, i: int) -> bool {
        self.states@[i].1 < self.x && self.states@[i].2 < self.y
    }

    /// Whether the entries of index `i` and `j` name one position.
    pub open spec fn entries_meet(self, i: int, j: int) -> bool {
        self.states@[i].1 == self.states@[j].1 && self.states@[i].2 == self.states@[j].2
    }

    /// Whether an entry before that of index `i` names the same position.
    pub open spec fn entry_repeats(self, i: int) -> bool {
        exists|j: int| 0 <= j < i && #[trigger] self.entries_meet(i, j)
    }

    /// Whether the builder describes a sound process: the discount and the
    /// probabilities are in order, and every entry names a position of the
    /// grid that no other entry names.
    pub open spec fn valid(self) -> bool {
        &&& self.discounted()
        &&& self.normalized()
        &&& forall|i: int| 0 <= i < self.states@.len() ==> #[trigger] self.entry_inside(i)
        &&& forall|i: int| 0 <= i < self.states@.len() ==> !#[trigger] self.entry_repeats(i)
    }

    /// Looks for what keeps the builder from describing a sound process.
    /// A discount out of order is reported first, then probabilities out
    /// of order, then an entry off the grid, then a repeated entry; of
    /// several entries the first.
    pub fn validate(&self) -> (r: Result<(), ConfigError>)
        ensures
            r is Ok <==> self.valid(),
            match r {
                Ok(_) => true,
                Err(ConfigError::Discount) => !self.discounted(),
                Err(ConfigError::Probabilities) => self.discounted() && !self.normalized(),
                Err(ConfigError::OutOfRange(i)) => {
                    &&& self.discounted()
                    &&& self.normalized()
                    &&& i < self.states@.len()
                    &&& !self.entry_inside(i as int)
                    &&& forall|j: int| 0 <= j < i ==> #[trigger] self.entry_inside(j)
                },
                Err(ConfigError::Duplicate(i)) => {
                    &&& self.discounted()
                    &&& self.normalized()
                    &&& forall|j: int|
                        0 <= j < self.states@.len() ==> #[trigger] self.entry_inside(j)
                    &&& i < self.states@.len()
                    &&& self.entry_repeats(i as int)
                    &&& forall|j: int| 0 <= j < i ==> !#[trigger] self.entry_repeats(j)
                },
            },
    {
        let nothing = N::from_hundredths(0);
        if !self.gama.greater_than(&nothing) || self.gama.greater_than(&N::from_hundredths(100)) {
            return Err(ConfigError::Discount);
        }
        let leftover = N::from_hundredths(100).difference(&self.p1).difference(
            &self.p2,
        ).difference(&self.p3).round_to(2);
        if nothing.greater_than(&self.p1) || nothing.greater_than(&self.p2) || nothing.greater_than(
            &self.p3,
        ) || nothing.greater_than(&leftover) {
            return Err(ConfigError::Probabilities);
        }
        let count = self.states.len();
        let mut i: usize = 0;
        while i < count
            invariant
                self.discounted(),
                self.normalized(),
                count == self.states@.len(),
                i <= count,
                forall|j: int| 0 <= j < i ==> #[trigger] self.entry_inside(j),
            decreases count - i,
        {
            if self.states[i].1 >= self.x || self.states[i].2 >= self.y {
                assert(!self.entry_inside(i as int));
                return Err(ConfigError::OutOfRange(i));
            }
            i += 1;
        }
        let mut i: usize = 0;
        while i < count
            invariant
                self.discounted(),
                self.normalized(),
                count == self.states@.len(),
                i <= count,
                forall|j: int| 0 <= j < count ==> #[trigger] self.entry_inside(j),
                forall|j: int| 0 <= j < i ==> !#[trigger] self.entry_repeats(j),
            decreases count - i,
        {
            let mut j: usize = 0;
            while j < i
                invariant
                    self.discounted(),
                    self.normalized(),
                    count == self.states@.len(),
                    i < count,
                    j <= i,
                    forall|k: int| 0 <= k < count ==> #[trigger] self.entry_inside(k),
                    forall|k: int| 0 <= k < i ==> !#[trigger] self.entry_repeats(k),
                    forall|k: int| 0 <= k < j ==> !#[trigger] self.entries_meet(i as int, k),
                decreases i - j,
            {
                if self.states[i].1 == self.states[j].1 && self.states[i].2 == self.states[j].2 {
                    assert(self.entries_meet(i as int, j as int));
                    assert(self.entry_repeats(i as int));
                    return Err(ConfigError::Duplicate(i));
                }
                j += 1;
            }
            i += 1;
        }
        Ok(())
    }

    /// Where the builder is valid, every entry shows in the process it
    /// describes: the position that an entry names is of the kind that the
    /// entry gives.
    pub proof fn lemma_valid_entries_all_count(self, i: int)
        requires
            self.valid(),
            0 <= i < self.states@.len(),
        ensures
            self.configured().inside(self.states@[i].1 as int, self.states@[i].2 as int),
            self.configured().at(self.states@[i].1 as int, self.states@[i].2 as int).state
                == self.states@[i].0,
    {
        assert(self.entry_inside(i));
        assert forall|k: int| i < k < self.states@.len() implies !self.entries_meet(k, i) by {
            assert(!self.entry_repeats(k));
        }
        self.lemma_setting_of_last_entry(self.states@.len(), i);
    }

    proof fn lemma_setting_of_last_entry(self, n: nat, i: int)
        requires
            0 <= i < n <= self.states@.len(),
            forall|k: int| i < k < n ==> !self.entries_meet(k, i),
        ensures
            self.setting(n, self.states@[i].1 as int, self.states@[i].2 as int)
                == self.states@[i].0,
        decreases n,
    {
        if n - 1 > i {
            assert(!self.entries_meet(n - 1, i));
            self.lemma_setting_of_last_entry((n - 1) as nat, i);
        }
    }
}

impl<N> View for Markov<N> {
    type V = Mdp<N>;

    closed spec fn view(&self) -> Mdp<N> {
        Mdp {
            cells: self.world@,
            gama: self.gama,
            cost_of_move: self.cost_of_move,
            p1: self.p1,
            p2: self.p2,
            p3: self.p3,
            p4: self.p4,
        }
    }
}

impl<N: Scalar> Clone for Markov<N> {
    /// A solver of its own for the same process.
    fn clone(&self) -> (copy: Self)
        ensures
            copy@ == self@,
    {
        let copy = Markov {
            world: self.world.clone(),
            gama: self.gama,
            cost_of_move: self.cost_of_move,
            p1: self.p1,
            p2: self.p2,
            p3: self.p3,
            p4: self.p4,
        };
        proof {
            assert forall|j: int| 0 <= j < self.world@.len() implies copy.world@[j]
                =~= self.world@[j] by {}
            assert(copy.world@ =~= self.world@);
        }
        copy
    }
}

impl<N: Scalar> Markov<N> {
    /// A process on a grid of four columns and three rows, every position
    /// `NormalState` of value zero, with discount 1, step cost -0.04 and
    /// step probabilities 0.8, 0.1, 0.1 and 0.
    pub fn new() -> (m: Markov<N>)
        ensures
            m@.cells.len() == 3,
            forall|y: int| 0 <= y < 3 ==> (#[trigger] m@.cells[y]).len() == 4,
            forall|x: int, y: int|
                0 <= y < 3 && 0 <= x < 4 ==> #[trigger] m@.at(x, y) == (Field {
                    state: State::NormalState(zero::<N>()),
                    action: None,
                }),
            m@.gama == one::<N>(),
            m@.cost_of_move == N::hundredths(-4),
            m@.p1 == N::hundredths(80),
            m@.p2 == N::hundredths(10),
            m@.p3 == N::hundredths(10),
            m@.p4 == zero::<N>(),
    {
        let blank = Field::new(State::NormalState(N::from_hundredths(0)));
        let world = Matrix::new(blank, 4, 3);
        proof {
            assert forall|x: int, y: int| 0 <= y < 3 && 0 <= x < 4 implies world@[y][x]
                == blank by {
                assert(cloned(blank, world.at(x, y)));
            }
        }
        Markov {
            world,
            gama: N::from_hundredths(100),
            cost_of_move: N::from_hundredths(-4),
            p1: N::from_hundredths(80),
            p2: N::from_hundredths(10),
            p3: N::from_hundredths(10),
            p4: N::from_hundredths(0),
        }
    }

    /// The discount.
    pub fn gama(&self) -> (gama: N)
        ensures
            gama == self@.gama,
    {
        self.gama
    }

    /// The general cost of a step.
    pub fn cost_of_move(&self) -> (cost_of_move: N)
        ensures
            cost_of_move == self@.cost_of_move,
    {
        self.cost_of_move
    }

    /// The probabilities that a step goes as chosen, a quarter turn to the
    /// left of that, a quarter turn to the right of it, and backwards.
    pub fn probabilities(&self) -> (p: (N, N, N, N))
        ensures
            p == (self@.p1, self@.p2, self@.p3, self@.p4),
    {
        (self.p1, self.p2, self.p3, self.p4)
    }

    /// The grid.
    pub fn world(&self) -> (world: &Matrix<Field<N>>)
        ensures
            world@ == self@.cells,
            world.wf(),
    {
        proof {
            use_type_invariant(&self.world);
        }
        &self.world
    }

    /// The position in which a step from column `x`, row `y` in the
    /// direction `action` ends. Towards a wall or off the grid the agent
    /// stays where it is.
    pub fn state_after_action(&self, action: &Action, x: usize, y: usize) -> (state: &State<N>)
        requires
            self@.inside(x as int, y as int),
        ensures
            *state == self@.state_after(*action, x as int, y as int),
            ({
                let next = target(*action, x as int, y as int);
                if self@.open_at(next.0, next.1) {
                    *state == self@.at(next.0, next.1).state
                } else {
                    *state == self@.at(x as int, y as int).state
                }
            }),
    {
        let (maybe_x, maybe_y) = match action {
            Action::Left => (x.checked_sub(1), Some(y)),
            Action::Right => (x.checked_add(1), Some(y)),
            Action::Up => (Some(x), y.checked_sub(1)),
            Action::Down => (Some(x), y.checked_add(1)),
        };
        let current = &self.world.read_state(x, y).unwrap().state;
        match (maybe_x, maybe_y) {
            (Some(next_x), Some(next_y)) => {
                match self.world.read_state(next_x, next_y) {
                    Some(state_after_move) => match state_after_move.state {
                        State::ProhibitedState => current,
                        _ => &state_after_move.state,
                    },
                    None => current,
                }
            },
            _ => current,
        }
    }

    /// What a step out of the position `state` costs: its own cost where
    /// it is special, else the general one.
    fn calculate_cost_of_move(&self, state: &State<N>) -> (cost: N)
        ensures
            cost == match *state {
                State::SpecialState(_, cost_of_move) => cost_of_move,
                _ => self@.cost_of_move,
            },
    {
        match state {
            State::SpecialState(_, cost_of_move) => *cost_of_move,
            _ => self.cost_of_move,
        }
    }

    /// The expected value of choosing `action` at column `x`, row `y`.
    pub fn evaluate_action(&self, action: &Action, x: usize, y: usize) -> (value: N)
        requires
            self@.can_step_from(x as int, y as int),
        ensures
            value == self@.expected(*action, x as int, y as int),
    {
        let forward_state = self.state_after_action(action, x, y);
        let left_state = self.state_after_action(&left_operation(action), x, y);
        let right_state = self.state_after_action(&right_operation(action), x, y);
        let backward_state = self.state_after_action(&reverse_operation(action), x, y);

        let forward_reward = self.p1.product(&forward_state.reward());
        let left_reward = self.p2.product(&left_state.reward());
        let right_reward = self.p3.product(&right_state.reward());
        let backward_reward = self.p4.product(&backward_state.reward());

        let current_state = &self.world.read_state(x, y).unwrap().state;

        self.gama.product(
            &forward_reward.sum(&left_reward).sum(&right_reward).sum(&backward_reward),
        ).sum(&self.calculate_cost_of_move(current_state))
    }

    /// What one update makes of `state`, taken to stand at column `x`,
    /// row `y`. The kind stays; a wall or an absorbing position comes back
    /// as it is.
    pub fn evaluate_field(&self, state: &Field<N>, x: usize, y: usize) -> (field: Field<N>)
        requires
            state.state.is_fixed() || self@.can_step_from(x as int, y as int),
        ensures
            field == self@.evaluated(*state, x as int, y as int),
            field.state.same_kind(state.state),
            state.state.is_fixed() ==> field == *state,
    {
        match state.state {
            State::TerminalState(_) => {
                return state.clone();
            },
            State::ProhibitedState => {
                return state.clone();
            },
            _ => {},
        }

        let up_reward = self.evaluate_action(&Action::Up, x, y);
        let left_reward = self.evaluate_action(&Action::Left, x, y);
        let right_reward = self.evaluate_action(&Action::Right, x, y);
        let down_reward = self.evaluate_action(&Action::Down, x, y);

        let mut action: Option<Action> = Some(Action::Down);
        let mut max = down_reward;

        if right_reward.greater_than(&max) {
            max = right_reward;
            action = Some(Action::Right);
        }
        if left_reward.greater_than(&max) {
            max = left_reward;
            action = Some(Action::Left);
        }
        if up_reward.greater_than(&max) {
            max = up_reward;
            action = Some(Action::Up);
        }

        Field { state: state.state.updated(max), action: action }
    }

    /// One sweep: every position is updated from the grid as it was before
    /// the sweep, and the grid is replaced as a whole. Returns the error
    /// of the sweep, the sum of `|new value - old value|` over all
    /// positions but the walls. No position changes its kind, and walls
    /// and absorbing positions stay exactly as they are.
    pub fn evaluate(&mut self) -> (error: N)
        ensures
            final(self)@ == old(self)@.swept(),
            error == old(self)@.sweep_error(),
            forall|x: int, y: int| final(self)@.inside(x, y) == old(self)@.inside(x, y),
            forall|x: int, y: int|
                old(self)@.inside(x, y) ==> (#[trigger] final(self)@.at(x, y)).state.same_kind(
                    old(self)@.at(x, y).state,
                ),
            forall|x: int, y: int|
                old(self)@.inside(x, y) && old(self)@.at(x, y).state.is_fixed()
                    ==> #[trigger] final(self)@.at(x, y) == old(self)@.at(x, y),
    {
        proof {
            use_type_invariant(&self.world);
        }
        let mut new_world = self.world.clone();
        let mut error = N::from_hundredths(0);
        let height = self.world.matrix().len();
        let ghost before = self@;

        let mut y: usize = 0;
        while y < height
            invariant
                *self == *old(self),
                before == self@,
                self.world.wf(),
                height == before.cells.len(),
                y <= height,
                new_world.wf(),
                new_world.width() == self.world.width(),
                new_world.height() == self.world.height(),
                forall|j: int, i: int|
                    0 <= j < y && 0 <= i < before.cells[j].len() ==> #[trigger] new_world@[j][i]
                        == before.next_at(i, j),
                error == before.error_through(y as nat),
            decreases height - y,
        {
            let width = self.world.matrix()[y].len();
            let mut x: usize = 0;
            while x < width
                invariant
                    *self == *old(self),
                    before == self@,
                    self.world.wf(),
                    height == before.cells.len(),
                    y < height,
                    width == before.cells[y as int].len(),
                    x <= width,
                    new_world.wf(),
                    new_world.width() == self.world.width(),
                    new_world.height() == self.world.height(),
                    forall|j: int, i: int|
                        0 <= j < y && 0 <= i < before.cells[j].len() ==> #[trigger] new_world@[j][i]
                            == before.next_at(i, j),
                    forall|i: int|
                        0 <= i < x ==> #[trigger] new_world@[y as int][i] == before.next_at(
                            i,
                            y as int,
                        ),
                    error == before.row_error(y as int, x as nat, before.error_through(y as nat)),
                decreases width - x,
            {
                let elem = self.world.read_state(x, y).unwrap();
                proof {
                    if !elem.state.is_fixed() {
                        before.lemma_open_positions_can_step(x as int, y as int);
                    }
                }
                let new_state = self.evaluate_field(elem, x, y);
                match elem.state {
                    State::ProhibitedState => {},
                    _ => {
                        error = error.sum(&State::calculate_error(&elem.state, &new_state.state));
                    },
                }
                new_world.set_state(new_state, x, y);
                x += 1;
            }
            y += 1;
        }

        self.world = new_world;
        proof {
            let after = self@.cells;
            let wanted = before.swept().cells;
            assert forall|j: int| 0 <= j < after.len() implies after[j] =~= wanted[j] by {}
            assert(after =~= wanted);
            before.lemma_sweep_keeps_kinds();
        }
        error
    }
}

} // verus!
