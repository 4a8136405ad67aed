use vstd::prelude::*;

verus! {

/// A grid of display characters, stored row by row.
///
/// Row `y` is `data[y]`; column `x` of that row is `data[y][x]`. The view of a
/// buffer is the grid of its characters, outer index the row.
#[derive(Debug, PartialEq, PartialOrd)]
pub struct CharBuffer {
    pub data: Vec<Vec<char>>,
    pub dimensions: (usize, usize),
}

/// Why a cell could not be reached.
#[derive(Debug)]
pub enum CharBufferError {
    /// The row index is not below the number of rows.
    RowOutOfRange { row: usize },
    /// The row exists, but the column index is not below its length.
    ItemOutOfRange { index: usize },
}

/// Whether column `x` of row `y` exists in `grid`.
pub open spec fn in_grid(grid: Seq<Seq<char>>, x: int, y: int) -> bool {
    0 <= y < grid.len() && 0 <= x < grid[y].len()
}

/// The character at column `x` of row `y`, if that cell exists.
pub open spec fn grid_get(grid: Seq<Seq<char>>, x: int, y: int) -> Option<char> {
    if in_grid(grid, x, y) {
        Some(grid[y][x])
    } else {
        None
    }
}

/// `grid` with `value` at column `x` of row `y`; `grid` itself if there is no
/// such cell.
pub open spec fn grid_set(grid: Seq<Seq<char>>, x: int, y: int, value: char) -> Seq<Seq<char>> {
    if in_grid(grid, x, y) {
        grid.update(y, grid[y].update(x, value))
    } else {
        grid
    }
}

/// A grid of the shape of `grid` that holds `value` in every cell.
pub open spec fn grid_filled(grid: Seq<Seq<char>>, value: char) -> Seq<Seq<char>> {
    Seq::new(grid.len(), |y: int| Seq::new(grid[y].len(), |x: int| value))
}

/// The grid of `height` rows of `width` spaces each.
pub open spec fn blank_grid(width: nat, height: nat) -> Seq<Seq<char>> {
    Seq::new(height, |y: int| Seq::new(width, |x: int| ' '))
}

/// Two grids have the same number of rows, and row by row the same length.
pub open spec fn same_shape(a: Seq<Seq<char>>, b: Seq<Seq<char>>) -> bool {
    &&& a.len() == b.len()
    &&& forall|y: int| 0 <= y < a.len() ==> (#[trigger] a[y]).len() == b[y].len()
}

/// The text of one row: each character followed by one space.
pub open spec fn row_text(row: Seq<char>) -> Seq<char> {
    Seq::new(2 * row.len(), |i: int| if i % 2 == 0 { row[i / 2] } else { ' ' })
}

/// The text of a grid: the text of each row, first row first, each followed by
/// a line feed.
pub open spec fn grid_text(grid: Seq<Seq<char>>) -> Seq<char>
    decreases grid.len(),
{
    if grid.len() == 0 {
        Seq::empty()
    } else {
        grid_text(grid.drop_last()) + row_text(grid.last()) + seq!['\n']
    }
}

/// `String::push` of the standard library. Taken on trust from its
/// documentation: the string afterwards is the string before with `ch` added
/// at its end.
pub assume_specification[ String::push ](text: &mut String, ch: char)
    ensures
        final(text)@ == old(text)@.push(ch),
;

impl View for CharBuffer {
    type V = Seq<Seq<char>>;

    open spec fn view(&self) -> Seq<Seq<char>> {
        Seq::new(self.data@.len(), |y: int| self.data@[y]@)
    }
}

impl CharBuffer {
    /// Every row is `dimensions.0` long and there are `dimensions.1` rows.
    pub open spec fn wf(&self) -> bool {
        &&& self@.len() == self.dimensions.1
        &&& forall|y: int| 0 <= y < self@.len() ==> (#[trigger] self@[y]).len() == self.dimensions.0
    }

    /// A buffer of `height` rows of `width` spaces.
    pub fn new(width: usize, height: usize) -> (buf: Self)
        ensures
            buf@ == blank_grid(width as nat, height as nat),
            buf.dimensions == (width, height),
            buf.wf(),
    {
        let mut row: Vec<char> = Vec::new();
        while row.len() < width
            invariant
                row@.len() <= width,
                forall|x: int| 0 <= x < row@.len() ==> row@[x] == ' ',
            decreases width - row@.len(),
        {
            row.push(' ');
        }
        let mut data: Vec<Vec<char>> = Vec::new();
        while data.len() < height
            invariant
                data@.len() <= height,
                row@.len() == width,
                forall|x: int| 0 <= x < row@.len() ==> row@[x] == ' ',
                forall|y: int| 0 <= y < data@.len() ==> (#[trigger] data@[y])@ == row@,
            decreases height - data@.len(),
        {
            let copy = row.clone();
            data.push(copy);
        }
        let buf = CharBuffer { data, dimensions: (width, height) };
        assert(buf@ =~~= blank_grid(width as nat, height as nat));
        buf
    }

    /// The character at column `x` of row `y`, or `None` where the buffer has
    /// no such cell.
    pub fn get_char(&self, x: usize, y: usize) -> (found: Option<char>)
        ensures
            found == grid_get(self@, x as int, y as int),
    {
        if y < self.data.len() {
            let row = &self.data[y];
            if x < row.len() {
                return Some(row[x]);
            }
        }
        None
    }

    /// Writes `value` to column `x` of row `y`.
    ///
    /// Fails, leaving the buffer as it was, where `y` names no row or `x` no
    /// column of that row; the row is checked first.
    pub fn set_char(&mut self, x: usize, y: usize, value: char) -> (done: Result<
        (),
        CharBufferError,
    >)
        ensures
            final(self).dimensions == old(self).dimensions,
            final(self)@ == grid_set(old(self)@, x as int, y as int, value),
            old(self).wf() ==> final(self).wf(),
            match done {
                Ok(_) => in_grid(old(self)@, x as int, y as int),
                Err(CharBufferError::RowOutOfRange { row }) => row == y && y >= old(self)@.len(),
                Err(CharBufferError::ItemOutOfRange { index }) => index == x && y < old(self)@.len()
                    && x >= old(self)@[y as int].len(),
            },
    {
        if y >= self.data.len() {
            return Err(CharBufferError::RowOutOfRange { row: y });
        }
        if x >= self.data[y].len() {
            return Err(CharBufferError::ItemOutOfRange { index: x });
        }
        self.data[y][x] = value;
        assert(self@ =~~= grid_set(old(self)@, x as int, y as int, value));
        Ok(())
    }

    /// The buffer as text: every character followed by one space, every row
    /// followed by a line feed, first row first.
    pub fn to_string(&self) -> (text: String)
        ensures
            text@ == grid_text(self@),
    {
        let mut text = String::new();
        let rows: usize = self.data.len();
        let mut y: usize = 0;
        while y < rows
            invariant
                y <= rows,
                rows == self@.len(),
                text@ == grid_text(self@.take(y as int)),
            decreases rows - y,
        {
            let row = &self.data[y];
            let cols: usize = row.len();
            let ghost base = text@;
            let mut x: usize = 0;
            while x < cols
                invariant
                    x <= cols,
                    cols == row@.len(),
                    text@ == base + row_text(row@.take(x as int)),
                decreases cols - x,
            {
                text.push(row[x]);
                text.push(' ');
                assert(text@ =~= base + row_text(row@.take(x as int + 1)));
                x += 1;
            }
            text.push('\n');
            proof {
                assert(row@.take(cols as int) =~= row@);
                let upto = self@.take(y as int + 1);
                assert(upto.drop_last() =~= self@.take(y as int));
                assert(upto.last() == row@);
            }
            y += 1;
        }
        assert(self@.take(rows as int) =~= self@);
        text
    }

    /// Writes `value` to every cell.
    pub fn fill(&mut self, value: char)
        ensures
            final(self).dimensions == old(self).dimensions,
            final(self)@ == grid_filled(old(self)@, value),
            old(self).wf() ==> final(self).wf(),
    {
        let rows: usize = self.data.len();
        let mut y: usize = 0;
        while y < rows
            invariant
                y <= rows,
                rows == self@.len(),
                self.dimensions == old(self).dimensions,
                same_shape(self@, old(self)@),
                forall|j: int, i: int|
                    0 <= j < y && 0 <= i < self@[j].len() ==> (#[trigger] self@[j][i]) == value,
            decreases rows - y,
        {
            let cols: usize = self.data[y].len();
            let mut x: usize = 0;
            while x < cols
                invariant
                    y < rows,
                    x <= cols,
                    rows == self@.len(),
                    cols == self@[y as int].len(),
                    self.dimensions == old(self).dimensions,
                    same_shape(self@, old(self)@),
                    forall|j: int, i: int|
                        0 <= j < y && 0 <= i < self@[j].len() ==> (#[trigger] self@[j][i])
                            == value,
                    forall|i: int| 0 <= i < x ==> (#[trigger] self@[y as int][i]) == value,
                decreases cols - x,
            {
                let ghost before = self@;
                let _ = self.set_char(x, y, value);
                proof {
                    lemma_set_then_get(before, x as int, y as int, value);
                    lemma_set_keeps_others(before, x as int, y as int, value);
                }
                x += 1;
            }
            y += 1;
        }
        assert(self@ =~~= grid_filled(old(self)@, value));
    }
}

impl Clone for CharBuffer {
    /// A buffer with the same cells and the same recorded dimensions.
    fn clone(&self) -> (copy: Self)
        ensures
            copy@ == self@,
            copy.dimensions == self.dimensions,
            self.wf() ==> copy.wf(),
    {
        let data = self.data.clone();
        let copy = CharBuffer { data, dimensions: (self.dimensions.0, self.dimensions.1) };
        assert(copy@ =~~= self@);
        copy
    }
}

/// A write to an existing cell is read back from that cell.
pub proof fn lemma_set_then_get(grid: Seq<Seq<char>>, x: int, y: int, value: char)
    requires
        in_grid(grid, x, y),
    ensures
        grid_get(grid_set(grid, x, y, value), x, y) == Some(value),
{
}

/// A write keeps the shape of the grid and every cell but the one written;
/// one that names no cell keeps the whole grid.
pub proof fn lemma_set_keeps_others(grid: Seq<Seq<char>>, x: int, y: int, value: char)
    ensures
        same_shape(grid_set(grid, x, y, value), grid),
        !in_grid(grid, x, y) ==> grid_set(grid, x, y, value) == grid,
        forall|i: int, j: int|
            (i != x || j != y) ==> #[trigger] grid_get(grid_set(grid, x, y, value), i, j)
                == grid_get(grid, i, j),
        forall|i: int, j: int|
            in_grid(grid, i, j) && (i != x || j != y) ==> (#[trigger] grid_set(
                grid,
                x,
                y,
                value,
            )[j][i]) == grid[j][i],
{
}

/// After a fill every existing cell reads as the fill character.
pub proof fn lemma_fill_then_get(grid: Seq<Seq<char>>, value: char, x: int, y: int)
    requires
        in_grid(grid, x, y),
    ensures
        grid_get(grid_filled(grid, value), x, y) == Some(value),
        same_shape(grid_filled(grid, value), grid),
{
}

} // verus!
