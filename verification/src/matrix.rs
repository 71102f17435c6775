use vstd::prelude::*;

verus! {

/// A rectangular table of owned values, addressed by column `x` and row `y`.
#[derive(Debug, PartialEq)]
pub struct Matrix<T> {
    x: usize,
    y: usize,
    data: Vec<Vec<T>>,
}

/// The table that results from storing `value` at column `x` of row `y`;
/// the table itself where that position lies outside it.
pub open spec fn grid_write<T>(rows: Seq<Seq<T>>, value: T, x: int, y: int) -> Seq<Seq<T>> {
    if 0 <= y < rows.len() && 0 <= x < rows[y].len() {
        rows.update(y, rows[y].update(x, value))
    } else {
        rows
    }
}

/// What is stored at column `x` of row `y`, if that position lies inside the table.
pub open spec fn grid_read<T>(rows: Seq<Seq<T>>, x: int, y: int) -> Option<T> {
    if 0 <= y < rows.len() && 0 <= x < rows[y].len() {
        Some(rows[y][x])
    } else {
        None
    }
}

/// A table is rectangular when it has `height` rows of `width` cells each.
pub open spec fn rectangular<T>(rows: Seq<Seq<T>>, width: nat, height: nat) -> bool {
    &&& rows.len() == height
    &&& forall|j: int| 0 <= j < height ==> (#[trigger] rows[j]).len() == width
}

/// Puts `value` at place `x` of row `y`.
pub(crate) fn store<T>(data: &mut Vec<Vec<T>>, value: T, x: usize, y: usize)
    requires
        y < old(data)@.len(),
        x < old(data)@[y as int]@.len(),
    ensures
        final(data)@.len() == old(data)@.len(),
        forall|j: int| 0 <= j < old(data)@.len() && j != y ==> final(data)@[j] == old(data)@[j],
        final(data)@[y as int]@ == old(data)@[y as int]@.update(x as int, value),
        forall|j: int|
            0 <= j < old(data)@.len() ==> (#[trigger] final(data)@[j])@.len() == old(
                data,
            )@[j]@.len(),
    no_unwind
{
    data[y][x] = value;
}

impl<T> View for Matrix<T> {
    type V = Seq<Seq<T>>;

    /// The rows of the table, top row first, each row from its leftmost cell.
    closed spec fn view(&self) -> Seq<Seq<T>> {
        Seq::new(self.data@.len(), |j: int| self.data@[j]@)
    }
}

impl<T> Matrix<T> {
    /// Number of columns.
    pub closed spec fn spec_width(&self) -> usize {
        self.x
    }

    /// Number of rows.
    pub closed spec fn spec_height(&self) -> usize {
        self.y
    }

    /// There are `height` rows of `width` cells each.
    #[verifier::type_invariant]
    pub open spec fn wf(&self) -> bool {
        rectangular(self@, self.width() as nat, self.height() as nat)
    }

    /// Number of columns.
    #[verifier::when_used_as_spec(spec_width)]
    pub fn width(&self) -> (width: usize)
        ensures
            width == self.width(),
    {
        self.x
    }

    /// Number of rows.
    #[verifier::when_used_as_spec(spec_height)]
    pub fn height(&self) -> (height: usize)
        ensures
            height == self.height(),
    {
        self.y
    }

    /// Whether column `x`, row `y` names a cell of the table.
    pub open spec fn contains(&self, x: int, y: int) -> bool {
        0 <= x < self.width() && 0 <= y < self.height()
    }

    /// The cell at column `x`, row `y`.
    pub open spec fn at(&self, x: int, y: int) -> T
        recommends
            self.contains(x, y),
    {
        self@[y][x]
    }

    /// A table of `xsize` columns and `ysize` rows with a clone of
    /// `default_value` in every cell.
    pub fn new(default_value: T, xsize: usize, ysize: usize) -> (m: Matrix<T>) where T: Clone
        ensures
            m.wf(),
            m.width() == xsize,
            m.height() == ysize,
            forall|x: int, y: int| m.contains(x, y) ==> cloned(default_value, #[trigger] m.at(x, y)),
    {
        let mut data: Vec<Vec<T>> = Vec::new();
        let mut j: usize = 0;
        while j < ysize
            invariant
                j <= ysize,
                data@.len() == j,
                forall|b: int| 0 <= b < j ==> (#[trigger] data@[b])@.len() == xsize,
                forall|a: int, b: int|
                    0 <= b < j && 0 <= a < xsize ==> cloned(default_value, #[trigger] data@[b]@[a]),
            decreases ysize - j,
        {
            let mut row: Vec<T> = Vec::new();
            let mut i: usize = 0;
            while i < xsize
                invariant
                    i <= xsize,
                    row@.len() == i,
                    forall|a: int| 0 <= a < i ==> cloned(default_value, #[trigger] row@[a]),
                decreases xsize - i,
            {
                row.push(default_value.clone());
                i += 1;
            }
            data.push(row);
            j += 1;
        }
        Matrix { data, x: xsize, y: ysize }
    }

    fn is_in_range(&self, x: usize, y: usize) -> (r: bool)
        ensures
            r == self.contains(x as int, y as int),
    {
        x < self.x && y < self.y
    }

    /// Stores `new_state` at column `x`, row `y` and reports `true`; outside
    /// the table nothing changes and the report is `false`.
    pub fn set_state(&mut self, new_state: T, x: usize, y: usize) -> (done: bool)
        ensures
            final(self).wf(),
            final(self).width() == old(self).width(),
            final(self).height() == old(self).height(),
            done == old(self).contains(x as int, y as int),
            final(self)@ == grid_write(old(self)@, new_state, x as int, y as int),
            done ==> final(self).at(x as int, y as int) == new_state,
            forall|i: int, j: int|
                old(self).contains(i, j) && !(i == x && j == y) ==> #[trigger] final(self).at(i, j)
                    == old(self).at(i, j),
    {
        proof {
            use_type_invariant(&*self);
        }
        if !self.is_in_range(x, y) {
            return false;
        }
        assert forall|j: int| 0 <= j < self.data@.len() implies (#[trigger] self.data@[j])@.len()
            == self.x by {
            assert(self@[j] == self.data@[j]@);
        }
        store(&mut self.data, new_state, x, y);
        true
    }

    /// The cell at column `x`, row `y`, or `None` outside the table.
    pub fn read_state(&self, x: usize, y: usize) -> (r: Option<&T>)
        ensures
            r == if self.contains(x as int, y as int) {
                Some(&self.at(x as int, y as int))
            } else {
                None
            },
            match r {
                Some(cell) => grid_read(self@, x as int, y as int) == Some(*cell),
                None => grid_read(self@, x as int, y as int) is None,
            },
    {
        proof {
            use_type_invariant(self);
        }
        if self.is_in_range(x, y) {
            Some(&self.data[y][x])
        } else {
            None
        }
    }

    /// The rows as they are stored.
    pub fn matrix(&self) -> (rows: &Vec<Vec<T>>)
        ensures
            rows@.len() == self.height(),
            forall|j: int| 0 <= j < rows@.len() ==> (#[trigger] rows@[j])@ == self@[j],
            forall|j: int| 0 <= j < rows@.len() ==> (#[trigger] rows@[j])@.len() == self.width(),
    {
        proof {
            use_type_invariant(self);
            assert forall|j: int| 0 <= j < self.data@.len() implies (#[trigger] self.data@[j])@.len()
                == self.width() by {
                assert(self@[j] == self.data@[j]@);
            }
        }
        &self.data
    }
}

/// Reading a position of a rectangular table right after writing to it
/// gives what was written, and every other position reads as before.
/// Outside the table nothing can be read, and writing leaves the table as
/// it is.
pub proof fn lemma_write_then_read<T>(
    rows: Seq<Seq<T>>,
    width: nat,
    height: nat,
    value: T,
    x: int,
    y: int,
)
    requires
        rectangular(rows, width, height),
    ensures
        rectangular(grid_write(rows, value, x, y), width, height),
        0 <= x < width && 0 <= y < height ==> grid_read(grid_write(rows, value, x, y), x, y)
            == Some(value),
        !(0 <= x < width && 0 <= y < height) ==> grid_read(rows, x, y) is None && grid_write(
            rows,
            value,
            x,
            y,
        ) == rows,
        forall|i: int, j: int|
            !(i == x && j == y) ==> grid_read(grid_write(rows, value, x, y), i, j) == grid_read(
                rows,
                i,
                j,
            ),
{
}

impl<T: Clone> Clone for Matrix<T> {
    /// A table of the same shape that shares nothing with this one, each
    /// cell a clone of the cell in its place.
    fn clone(&self) -> (copy: Self)
        ensures
            copy.wf(),
            copy.width() == self.width(),
            copy.height() == self.height(),
            copy@.len() == self@.len(),
            forall|j: int| 0 <= j < self@.len() ==> (#[trigger] copy@[j]).len() == self@[j].len(),
            forall|j: int, i: int|
                0 <= j < self@.len() && 0 <= i < self@[j].len() ==> cloned(
                    self@[j][i],
                    #[trigger] copy@[j][i],
                ),
    {
        proof {
            use_type_invariant(self);
        }
        let data = self.data.clone();
        proof {
            assert forall|j: int| 0 <= j < data@.len() implies (#[trigger] data@[j])@.len()
                == self.x && (forall|i: int|
                0 <= i < self.x ==> cloned(self.data@[j]@[i], #[trigger] data@[j]@[i])) by {
                assert(self@[j] == self.data@[j]@);
            }
        }
        Matrix { x: self.x, y: self.y, data }
    }
}

} // verus!
