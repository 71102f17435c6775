use crate::matrix::{grid_write, rectangular, store};
use crate::scalar::{zero, Scalar};
use vstd::prelude::*;

verus! {

/// What a position of a [`World`] is.
#[derive(Debug, PartialEq)]
pub enum State<N> {
    /// A wall.
    ProhibitedState,
    /// Where the agent sets out.
    StartState,
    /// An absorbing position with its value.
    TerminalState(N),
    /// A position with rules of its own.
    SpecialState,
    /// Any other position with its value.
    NormalState(N),
}

impl<N: Copy> Copy for State<N> {

}

impl<N: Copy> Clone for State<N> {
    fn clone(&self) -> (copy: Self)
        ensures
            copy == *self,
    {
        *self
    }
}

/// A grid that is laid out once: every position starts as `NormalState`,
/// and only such a position can be given another kind or another value.
/// Whatever lies off the grid reads as a wall.
#[derive(Debug, PartialEq)]
pub struct World<N> {
    data: Vec<Vec<State<N>>>,
    x: usize,
    y: usize,
    out_of_range: State<N>,
}

impl<N> View for World<N> {
    type V = Seq<Seq<State<N>>>;

    /// The rows of the grid, top row first, each row from its leftmost
    /// position.
    closed spec fn view(&self) -> Seq<Seq<State<N>>> {
        Seq::new(self.data@.len(), |j: int| self.data@[j]@)
    }
}

impl<N> World<N> {
    /// Number of columns.
    pub closed spec fn spec_width(&self) -> usize {
        self.x
    }

    /// Number of rows.
    pub closed spec fn spec_height(&self) -> usize {
        self.y
    }

    /// There are `height` rows of `width` positions each, and off the grid
    /// lies a wall.
    #[verifier::type_invariant]
    pub closed spec fn wf(&self) -> bool {
        &&& rectangular(self@, self.spec_width() as nat, self.spec_height() as nat)
        &&& self.out_of_range is ProhibitedState
    }

    /// Number of columns.
    #[verifier::when_used_as_spec(spec_width)]
    pub fn width(&self) -> (width: usize)
        ensures
            width == self.width(),
    {
        self.x
    }

    /// Number of rows.
    #[verifier::when_used_as_spec(spec_height)]
    pub fn height(&self) -> (height: usize)
        ensures
            height == self.height(),
    {
        self.y
    }
}

impl<N: Scalar> World<N> {
    /// Whether column `x`, row `y` names a position of the grid.
    pub open spec fn contains(&self, x: int, y: int) -> bool {
        0 <= x < self.width() && 0 <= y < self.height()
    }

    /// The position at column `x`, row `y`.
    pub open spec fn at(&self, x: int, y: int) -> State<N>
        recommends
            self.contains(x, y),
    {
        self@[y][x]
    }

    /// What is read at column `x`, row `y`: the position there, or a wall
    /// off the grid.
    pub open spec fn seen_at(&self, x: int, y: int) -> State<N> {
        if self.contains(x, y) {
            self.at(x, y)
        } else {
            State::ProhibitedState
        }
    }

    /// The `n`-th position in the order of reading: row by row from the
    /// top, each row from the left. Comes with its column and its row.
    pub open spec fn visit(&self, n: int) -> (State<N>, usize, usize)
        recommends
            0 <= n < self.width() * self.height(),
    {
        let x = n % (self.width() as int);
        let y = n / (self.width() as int);
        (self.at(x, y), x as usize, y as usize)
    }

    /// A grid of `xsize` columns and `ysize` rows, every position
    /// `NormalState` of value zero.
    pub fn new(xsize: usize, ysize: usize) -> (world: World<N>)
        ensures
            world.width() == xsize,
            world.height() == ysize,
            forall|x: int, y: int|
                world.contains(x, y) ==> #[trigger] world.at(x, y) == State::NormalState(
                    zero::<N>(),
                ),
    {
        let mut data: Vec<Vec<State<N>>> = Vec::new();
        let mut j: usize = 0;
        while j < ysize
            invariant
                j <= ysize,
                data@.len() == j,
                forall|b: int| 0 <= b < j ==> (#[trigger] data@[b])@.len() == xsize,
                forall|a: int, b: int|
                    0 <= b < j && 0 <= a < xsize ==> #[trigger] data@[b]@[a] == State::NormalState(
                        zero::<N>(),
                    ),
            decreases ysize - j,
        {
            let mut row: Vec<State<N>> = Vec::new();
            let mut i: usize = 0;
            while i < xsize
                invariant
                    i <= xsize,
                    row@.len() == i,
                    forall|a: int|
                        0 <= a < i ==> #[trigger] row@[a] == State::NormalState(zero::<N>()),
                decreases xsize - i,
            {
                row.push(State::NormalState(N::from_hundredths(0)));
                i += 1;
            }
            data.push(row);
            j += 1;
        }
        World { data, x: xsize, y: ysize, out_of_range: State::ProhibitedState }
    }

    fn is_in_range(&self, x: usize, y: usize) -> (r: bool)
        ensures
            r == self.contains(x as int, y as int),
    {
        x < self.x && y < self.y
    }

    /// Gives the position at column `x`, row `y`, which is a `NormalState`,
    /// a new value or another kind.
    pub fn set_state(&mut self, new_state: State<N>, x: usize, y: usize)
        requires
            old(self).contains(x as int, y as int),
            old(self).at(x as int, y as int) is NormalState,
        ensures
            final(self).width() == old(self).width(),
            final(self).height() == old(self).height(),
            final(self)@ == grid_write(old(self)@, new_state, x as int, y as int),
            final(self).at(x as int, y as int) == new_state,
            forall|i: int, j: int|
                !(i == x && j == y) ==> #[trigger] final(self).seen_at(i, j) == old(self).seen_at(
                    i,
                    j,
                ),
    {
        proof {
            use_type_invariant(&*self);
        }
        assert forall|j: int| 0 <= j < self.data@.len() implies (#[trigger] self.data@[j])@.len()
            == self.x by {
            assert(self@[j] == self.data@[j]@);
        }
        store(&mut self.data, new_state, x, y);
    }

    /// The position at column `x`, row `y`; a wall off the grid.
    pub fn read_state(&self, x: usize, y: usize) -> (state: &State<N>)
        ensures
            *state == self.seen_at(x as int, y as int),
    {
        proof {
            use_type_invariant(self);
        }
        if self.is_in_range(x, y) {
            &self.data[y][x]
        } else {
            &self.out_of_range
        }
    }

    /// Every position of the grid once, with its column and its row, in
    /// the order of reading.
    pub fn walk(&self) -> (visits: Vec<(State<N>, usize, usize)>)
        ensures
            visits@.len() == self.width() * self.height(),
            forall|n: int| 0 <= n < visits@.len() ==> #[trigger] visits@[n] == self.visit(n),
    {
        proof {
            use_type_invariant(self);
        }
        let mut visits: Vec<(State<N>, usize, usize)> = Vec::new();
        let mut y: usize = 0;
        while y < self.data.len()
            invariant
                self.wf(),
                y <= self.height(),
                self.data@.len() == self.height(),
                visits@.len() == self.width() * y,
                forall|n: int| 0 <= n < visits@.len() ==> #[trigger] visits@[n] == self.visit(n),
            decreases self.height() - y,
        {
            assert(self@[y as int] == self.data@[y as int]@);
            let row = &self.data[y];
            let mut x: usize = 0;
            while x < row.len()
                invariant
                    self.wf(),
                    y < self.height(),
                    row@ == self@[y as int],
                    row@.len() == self.width(),
                    x <= self.width(),
                    visits@.len() == self.width() * y + x,
                    forall|n: int|
                        0 <= n < visits@.len() ==> #[trigger] visits@[n] == self.visit(n),
                decreases self.width() - x,
            {
                proof {
                    let w = self.width() as int;
                    let n = w * y + x;
                    assert(n / w == y && n % w == x) by (nonlinear_arith)
                        requires
                            n == w * y + x,
                            0 <= x < w,
                            0 <= y,
                    ;
                }
                visits.push((row[x], x, y));
                x += 1;
            }
            assert(self.width() * y + self.width() == self.width() * (y + 1)) by (nonlinear_arith);
            y += 1;
        }
        visits
    }
}

} // verus!
