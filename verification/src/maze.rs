//! The tile grid: a rectangle of cell codes with solid surroundings.

use vstd::prelude::*;

verus! {

/// Width of the default level grid, in cells.
pub const MAP_WIDTH: usize = 16;

/// Height of the default level grid, in cells.
pub const MAP_HEIGHT: usize = 16;

/// The largest width or height of a grid. Every cell of such a grid contains
/// positions that a 16.16 coordinate can express.
pub const MAX_DIMENSION: usize = 32768;

/// Code of a cell that holds nothing.
pub const EMPTY: u8 = 0;

/// Code of the goal cell. It can be walked on and seen through.
pub const GOAL: u8 = 5;

/// Whether a cell with this code stops movement and rays.
pub open spec fn is_wall_code(code: u8) -> bool {
    code != EMPTY && code != GOAL
}

/// The code that a character of a level text stands for: a digit from `'1'`
/// to `'9'` stands for its value, which makes `'5'` the goal; every other
/// character, `'0'`, the space and a carriage return among them, is an
/// empty cell.
pub open spec fn cell_code(c: char) -> u8 {
    if '1' <= c && c <= '9' {
        (c as int - '0' as int) as u8
    } else {
        EMPTY
    }
}

/// The lines of a text: the stretches between its line feeds. A text with
/// `n` line feeds has `n + 1` lines, the last of them empty if the text ends
/// in a line feed.
pub open spec fn lines(text: Seq<char>) -> Seq<Seq<char>>
    decreases text.len(),
{
    if text.len() == 0 {
        seq![Seq::empty()]
    } else {
        let before = lines(text.drop_last());
        if text.last() == '\n' {
            before.push(Seq::empty())
        } else {
            before.update(before.len() - 1, before.last().push(text.last()))
        }
    }
}

/// The code that a level text gives to the cell `(col, row)`: that of the
/// character in column `col` of line `row`, and `EMPTY` where the text has
/// no such character.
pub open spec fn level_code(text: Seq<char>, col: int, row: int) -> u8 {
    let all = lines(text);
    if 0 <= row < all.len() && 0 <= col < all[row].len() {
        cell_code(all[row][col])
    } else {
        EMPTY
    }
}

/// The rows of the `width * height` grid that a level text describes. What
/// the text holds beyond those bounds is ignored.
pub open spec fn level_rows(text: Seq<char>, width: nat, height: nat) -> Seq<Seq<u8>> {
    Seq::new(height, |row: int| Seq::new(width, |col: int| level_code(text, col, row)))
}

/// Computes `cell_code`.
pub fn code_of(c: char) -> (code: u8)
    ensures
        code == cell_code(c),
{
    if c >= '1' && c <= '9' {
        (c as u32 - 48) as u8
    } else {
        EMPTY
    }
}

/// A rectangle of cell codes, stored row by row.
pub struct TileGrid {
    width: usize,
    height: usize,
    cells: Vec<u8>,
}

impl View for TileGrid {
    type V = Seq<Seq<u8>>;

    /// The rows of the grid, top row first; each row lists its codes from
    /// left to right.
    closed spec fn view(&self) -> Seq<Seq<u8>> {
        Seq::new(
            self.height as nat,
            |row: int| Seq::new(self.width as nat, |col: int| self.cells@[row * self.width + col]),
        )
    }
}

/// `row * width + col` addresses a cell of a `width * height` array.
proof fn lemma_cell_offset(width: int, height: int, col: int, row: int)
    requires
        0 <= col < width,
        0 <= row < height,
    ensures
        0 <= row * width + col < width * height,
{
    assert(row * width + col < width * height) by (nonlinear_arith)
        requires
            0 <= col < width,
            0 <= row < height,
    ;
    assert(0 <= row * width) by (nonlinear_arith)
        requires
            0 <= row,
            0 <= width,
    ;
}

/// Two cells of a `width`-wide array with the same offset are the same cell.
proof fn lemma_cell_offset_unique(width: int, col: int, row: int, col2: int, row2: int)
    requires
        0 <= col < width,
        0 <= col2 < width,
        0 <= row,
        0 <= row2,
        row * width + col == row2 * width + col2,
    ensures
        col == col2,
        row == row2,
{
    if row < row2 {
        assert(row2 * width >= (row + 1) * width) by (nonlinear_arith)
            requires
                row2 >= row + 1,
                width > 0,
        ;
        assert((row + 1) * width == row * width + width) by (nonlinear_arith);
    } else if row2 < row {
        assert(row * width >= (row2 + 1) * width) by (nonlinear_arith)
            requires
                row >= row2 + 1,
                width > 0,
        ;
        assert((row2 + 1) * width == row2 * width + width) by (nonlinear_arith);
    }
}

impl TileGrid {
    /// The invariant of the representation: the dimensions are within
    /// `MAX_DIMENSION` and there is one stored code per cell. Every grid that
    /// this module hands out is well formed.
    pub closed spec fn wf(&self) -> bool {
        &&& self.width <= MAX_DIMENSION
        &&& self.height <= MAX_DIMENSION
        &&& self.cells@.len() == self.width * self.height
    }

    /// Number of columns.
    pub closed spec fn spec_width(&self) -> usize {
        self.width
    }

    /// Number of rows.
    pub closed spec fn spec_height(&self) -> usize {
        self.height
    }

    /// The view of a grid is a rectangle of `height` rows with `width`
    /// codes each, no larger than `MAX_DIMENSION` either way.
    pub proof fn lemma_shape(&self)
        requires
            self.wf(),
        ensures
            self.spec_width() <= MAX_DIMENSION,
            self.spec_height() <= MAX_DIMENSION,
            self@.len() == self.spec_height(),
            forall|row: int|
                0 <= row < self.spec_height() ==> (#[trigger] self@[row]).len()
                    == self.spec_width(),
    {
    }

    /// Whether `(col, row)` names a cell of the grid.
    pub open spec fn in_bounds(&self, col: int, row: int) -> bool {
        0 <= row < self@.len() && 0 <= col < self@[row].len()
    }

    /// The code stored at `(col, row)`, for a cell of the grid.
    pub open spec fn code(&self, col: int, row: int) -> u8 {
        self@[row][col]
    }

    /// Whether `(col, row)` stops movement and rays: everything outside the
    /// grid does, and inside it every cell that is neither empty nor the goal.
    pub open spec fn blocking(&self, col: int, row: int) -> bool {
        !self.in_bounds(col, row) || is_wall_code(self.code(col, row))
    }

    /// A grid of the given size with every cell empty, or `None` if a
    /// dimension exceeds `MAX_DIMENSION`.
    pub fn new(width: usize, height: usize) -> (grid: Option<TileGrid>)
        ensures
            grid is Some <==> width <= MAX_DIMENSION && height <= MAX_DIMENSION,
            grid matches Some(g) ==> {
                &&& g.wf()
                &&& g.spec_width() == width
                &&& g.spec_height() == height
                &&& g@ == Seq::new(height as nat, |row: int| Seq::new(width as nat, |col: int| EMPTY))
            },
    {
        if width > MAX_DIMENSION || height > MAX_DIMENSION {
            return None;
        }
        assert(width * height <= 32768 * 32768) by (nonlinear_arith)
            requires
                width <= 32768,
                height <= 32768,
        ;
        let count: usize = width * height;
        let mut cells: Vec<u8> = Vec::new();
        let mut i: usize = 0;
        while i < count
            invariant
                i <= count,
                cells@.len() == i,
                forall|k: int| 0 <= k < i ==> cells@[k] == EMPTY,
            decreases count - i,
        {
            cells.push(EMPTY);
            i += 1;
        }
        let g = TileGrid { width, height, cells };
        proof {
            assert forall|row: int| 0 <= row < height implies #[trigger] g@[row] == Seq::new(
                width as nat,
                |col: int| EMPTY,
            ) by {
                assert forall|col: int| 0 <= col < width implies g@[row][col] == EMPTY by {
                    lemma_cell_offset(width as int, height as int, col, row);
                }
                assert(g@[row] =~= Seq::new(width as nat, |col: int| EMPTY));
            }
            assert(g@ =~= Seq::new(height as nat, |row: int| Seq::new(width as nat, |col: int| EMPTY)));
        }
        Some(g)
    }

    /// Number of columns.
    #[verifier::when_used_as_spec(spec_width)]
    pub fn width(&self) -> (w: usize)
        ensures
            w == self.spec_width(),
    {
        self.width
    }

    /// Number of rows.
    #[verifier::when_used_as_spec(spec_height)]
    pub fn height(&self) -> (h: usize)
        ensures
            h == self.spec_height(),
    {
        self.height
    }

    /// The code at `(col, row)`, or `None` outside the grid.
    pub fn cell_at(&self, col: i64, row: i64) -> (code: Option<u8>)
        requires
            self.wf(),
        ensures
            code is Some <==> self.in_bounds(col as int, row as int),
            code matches Some(c) ==> c == self.code(col as int, row as int),
    {
        if col < 0 || row < 0 || col >= self.width as i64 || row >= self.height as i64 {
            return None;
        }
        proof {
            lemma_cell_offset(self.width as int, self.height as int, col as int, row as int);
        }
        assert(row * self.width <= 32768 * 32768) by (nonlinear_arith)
            requires
                0 <= row < 32768,
                self.width <= 32768,
        ;
        let index: usize = row as usize * self.width + col as usize;
        Some(self.cells[index])
    }

    /// Whether `(col, row)` stops movement and rays.
    pub fn is_blocking(&self, col: i64, row: i64) -> (b: bool)
        requires
            self.wf(),
        ensures
            b == self.blocking(col as int, row as int),
    {
        match self.cell_at(col, row) {
            None => true,
            Some(code) => code != EMPTY && code != GOAL,
        }
    }

    /// Stores `code` at `(col, row)` and reports `true`; outside the grid it
    /// changes nothing and reports `false`.
    pub fn set_cell(&mut self, col: usize, row: usize, code: u8) -> (done: bool)
        requires
            old(self).wf(),
        ensures
            final(self).wf(),
            done == old(self).in_bounds(col as int, row as int),
            final(self).spec_width() == old(self).spec_width(),
            final(self).spec_height() == old(self).spec_height(),
            final(self)@ == if done {
                old(self)@.update(row as int, old(self)@[row as int].update(col as int, code))
            } else {
                old(self)@
            },
    {
        if col >= self.width || row >= self.height {
            return false;
        }
        proof {
            lemma_cell_offset(self.width as int, self.height as int, col as int, row as int);
        }
        assert(row * self.width <= 32768 * 32768) by (nonlinear_arith)
            requires
                0 <= row < 32768,
                self.width <= 32768,
        ;
        let index: usize = row * self.width + col;
        self.cells.set(index, code);
        proof {
            let before = old(self)@;
            let after = self@;
            let width = self.width as int;
            let expected = before.update(row as int, before[row as int].update(col as int, code));
            assert forall|r: int| 0 <= r < self.height implies #[trigger] after[r] == expected[r] by {
                assert forall|c: int| 0 <= c < width implies after[r][c] == expected[r][c] by {
                    lemma_cell_offset(width, self.height as int, c, r);
                    if r * width + c == index {
                        lemma_cell_offset_unique(width, c, r, col as int, row as int);
                    }
                }
                assert(after[r] =~= expected[r]);
            }
            assert(after =~= expected);
        }
        true
    }

    /// Reads a level text into a grid of the given size: the character in
    /// column `col` of line `row` sets the cell `(col, row)`. Cells that the
    /// text does not reach stay empty. `None` if a dimension exceeds
    /// `MAX_DIMENSION`.
    pub fn from_text(text: &str, width: usize, height: usize) -> (grid: Option<TileGrid>)
        ensures
            grid is Some <==> width <= MAX_DIMENSION && height <= MAX_DIMENSION,
            grid matches Some(g) ==> {
                &&& g.wf()
                &&& g.spec_width() == width
                &&& g.spec_height() == height
                &&& g@ == level_rows(text@, width as nat, height as nat)
            },
    {
        let mut grid = match TileGrid::new(width, height) {
            Some(g) => g,
            None => {
                return None;
            },
        };
        let mut col: usize = 0;
        let mut row: usize = 0;
        proof {
            assert(lines(text@.take(0)) =~= seq![Seq::<char>::empty()]);
            assert(grid@ =~= level_rows(text@.take(0), width as nat, height as nat)) by {
                assert forall|r: int| 0 <= r < height implies #[trigger] grid@[r] =~= level_rows(
                    text@.take(0),
                    width as nat,
                    height as nat,
                )[r] by {}
            }
        }
        for c in it: text.chars()
            invariant
                it.seq() == text@,
                grid.wf(),
                grid.spec_width() == width,
                grid.spec_height() == height,
                width <= MAX_DIMENSION,
                height <= MAX_DIMENSION,
                grid@ == level_rows(text@.take(it.index()), width as nat, height as nat),
                row == if lines(text@.take(it.index())).len() - 1 < height {
                    lines(text@.take(it.index())).len() - 1
                } else {
                    height as int
                },
                col == if lines(text@.take(it.index())).last().len() < width {
                    lines(text@.take(it.index())).last().len() as int
                } else {
                    width as int
                },
        {
            let ghost i = it.index();
            let ghost before = lines(text@.take(i));
            let ghost after = lines(text@.take(i + 1));
            proof {
                lemma_lines_nonempty(text@.take(i));
                assert(text@.take(i + 1).drop_last() =~= text@.take(i));
                assert(text@.take(i + 1).last() == c);
                grid.lemma_shape();
            }
            if c == '\n' {
                if row < height {
                    row += 1;
                }
                col = 0;
                proof {
                    assert(after == before.push(Seq::empty()));
                    assert forall|x: int, y: int| level_code(text@.take(i + 1), x, y) == level_code(
                        text@.take(i),
                        x,
                        y,
                    ) by {}
                    assert(level_rows(text@.take(i + 1), width as nat, height as nat) =~= level_rows(
                        text@.take(i),
                        width as nat,
                        height as nat,
                    )) by {
                        assert forall|r: int| 0 <= r < height implies #[trigger] level_rows(
                            text@.take(i + 1),
                            width as nat,
                            height as nat,
                        )[r] =~= level_rows(text@.take(i), width as nat, height as nat)[r] by {}
                    }
                }
            } else {
                let ghost old_rows = grid@;
                let ghost line = before.len() - 1;
                let ghost place = before.last().len() as int;
                proof {
                    assert(after == before.update(line, before.last().push(c)));
                }
                if row < height && col < width {
                    grid.set_cell(col, row, code_of(c));
                }
                if col < width {
                    col += 1;
                }
                proof {
                    grid.lemma_shape();
                    let target = level_rows(text@.take(i + 1), width as nat, height as nat);
                    assert forall|r: int| 0 <= r < height implies #[trigger] grid@[r] =~= target[r] by {
                        assert forall|x: int| 0 <= x < width implies grid@[r][x] == level_code(
                            text@.take(i + 1),
                            x,
                            r,
                        ) by {
                            assert(old_rows[r][x] == level_code(text@.take(i), x, r));
                            if r == line && x == place {
                                assert(after[r][x] == c);
                            } else if r == line {
                                if x < place {
                                    assert(after[r][x] == before[r][x]);
                                }
                            } else {
                                if 0 <= r < before.len() {
                                    assert(after[r] == before[r]);
                                }
                            }
                        }
                    }
                    assert(grid@ =~= target);
                }
            }
        }
        proof {
            assert(text@.take(text@.len() as int) =~= text@);
        }
        Some(grid)
    }
}

/// A text always has a first line.
pub proof fn lemma_lines_nonempty(text: Seq<char>)
    ensures
        lines(text).len() >= 1,
    decreases text.len(),
{
    if text.len() > 0 {
        lemma_lines_nonempty(text.drop_last());
    }
}

/// Reads a level text into a grid of the default size, `MAP_WIDTH` by
/// `MAP_HEIGHT`.
pub fn load_maze_from_text(text: &str) -> (grid: TileGrid)
    ensures
        grid.wf(),
        grid.spec_width() == MAP_WIDTH,
        grid.spec_height() == MAP_HEIGHT,
        grid@ == level_rows(text@, MAP_WIDTH as nat, MAP_HEIGHT as nat),
{
    match TileGrid::from_text(text, MAP_WIDTH, MAP_HEIGHT) {
        Some(grid) => grid,
        None => {
            proof {
                assert(false);
            }
            unreached()
        },
    }
}

/// The character that writes a code from 0 to 9 in a level text: its digit.
pub open spec fn digit_char(code: u8) -> char {
    (code + '0' as int) as char
}

/// A row of codes written as a line of digits.
pub open spec fn row_text(row: Seq<u8>) -> Seq<char> {
    Seq::new(row.len(), |col: int| digit_char(row[col]))
}

/// Rows of codes written as a level text: one line of digits per row, each
/// ended by a line feed.
pub open spec fn level_text(rows: Seq<Seq<u8>>) -> Seq<char>
    decreases rows.len(),
{
    if rows.len() == 0 {
        Seq::empty()
    } else {
        level_text(rows.drop_last()) + row_text(rows.last()) + seq!['\n']
    }
}

/// Appending characters other than line feeds to a text appends them to its
/// last line.
proof fn lemma_lines_extend(text: Seq<char>, more: Seq<char>)
    requires
        forall|i: int| 0 <= i < more.len() ==> more[i] != '\n',
    ensures
        lines(text + more).len() == lines(text).len(),
        lines(text).len() >= 1,
        lines(text + more) == lines(text).update(
            lines(text).len() - 1,
            lines(text).last() + more,
        ),
    decreases more.len(),
{
    lemma_lines_nonempty(text);
    if more.len() == 0 {
        assert(text + more =~= text);
        assert(lines(text).last() + more =~= lines(text).last());
        assert(lines(text).update(lines(text).len() - 1, lines(text).last()) =~= lines(text));
    } else {
        let shorter = more.drop_last();
        lemma_lines_extend(text, shorter);
        assert((text + more).drop_last() =~= text + shorter);
        assert((text + more).last() == more.last());
        assert(lines(text).last() + more =~= (lines(text).last() + shorter).push(more.last()));
        assert(lines(text + more) =~= lines(text).update(
            lines(text).len() - 1,
            lines(text).last() + more,
        ));
    }
}

/// The lines of a written level are its rows in digits, followed by one
/// empty line.
proof fn lemma_lines_of_level_text(rows: Seq<Seq<u8>>)
    requires
        forall|r: int, c: int|
            0 <= r < rows.len() && 0 <= c < rows[r].len() ==> (#[trigger] rows[r][c]) <= 9,
    ensures
        lines(level_text(rows)).len() == rows.len() + 1,
        forall|r: int| 0 <= r < rows.len() ==> #[trigger] lines(level_text(rows))[r] == row_text(rows[r]),
        lines(level_text(rows))[rows.len() as int] == Seq::<char>::empty(),
    decreases rows.len(),
{
    if rows.len() == 0 {
        assert(lines(level_text(rows)) =~= seq![Seq::<char>::empty()]);
    } else {
        let front = rows.drop_last();
        let head = level_text(front);
        let line = row_text(rows.last());
        assert forall|r: int, c: int| 0 <= r < front.len() && 0 <= c < front[r].len() implies (
        #[trigger] front[r][c]) <= 9 by {
            assert(front[r] == rows[r]);
        }
        lemma_lines_of_level_text(front);
        assert forall|i: int| 0 <= i < line.len() implies line[i] != '\n' by {
            assert(rows.last()[i] <= 9);
        }
        lemma_lines_extend(head, line);
        let filled = lines(head + line);
        assert(lines(head).last() + line =~= line);
        let whole = head + line + seq!['\n'];
        assert(whole.drop_last() =~= head + line);
        assert(whole.last() == '\n');
        assert(lines(whole) == filled.push(Seq::empty()));
        assert forall|r: int| 0 <= r < rows.len() implies #[trigger] lines(level_text(rows))[r]
            == row_text(rows[r]) by {
            if r < front.len() {
                assert(front[r] == rows[r]);
                assert(lines(head)[r] == row_text(front[r]));
            }
        }
    }
}

/// Writing and reading a level gives the level back. For a rectangle of
/// codes from 0 to 9, a grid read from its text holds exactly those codes,
/// and every coordinate outside the rectangle is blocking.
pub proof fn lemma_load_round_trip(rows: Seq<Seq<u8>>, grid: &TileGrid)
    requires
        forall|r: int| 0 <= r < rows.len() ==> (#[trigger] rows[r]).len() == grid.spec_width(),
        rows.len() == grid.spec_height(),
        forall|r: int, c: int|
            0 <= r < rows.len() && 0 <= c < rows[r].len() ==> (#[trigger] rows[r][c]) <= 9,
        grid@ == level_rows(level_text(rows), grid.spec_width() as nat, grid.spec_height() as nat),
    ensures
        grid@ == rows,
        forall|col: int, row: int|
            0 <= row < rows.len() && 0 <= col < rows[row].len() ==> #[trigger] grid.code(col, row)
                == rows[row][col],
        forall|col: int, row: int|
            !(0 <= row < rows.len() && 0 <= col < rows[row].len()) ==> #[trigger] grid.blocking(
                col,
                row,
            ),
{
    lemma_lines_of_level_text(rows);
    let text = level_text(rows);
    assert forall|r: int| 0 <= r < rows.len() implies #[trigger] grid@[r] =~= rows[r] by {
        assert(lines(text)[r] == row_text(rows[r]));
        assert forall|c: int| 0 <= c < rows[r].len() implies grid@[r][c] == rows[r][c] by {
            assert(rows[r][c] <= 9);
            assert(level_code(text, c, r) == cell_code(digit_char(rows[r][c])));
        }
    }
    assert(grid@ =~= rows);
}

} // verus!
