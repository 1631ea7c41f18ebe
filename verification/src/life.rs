//! The game of life on a square board with a dead border.

use crate::lines::{lines, lines_of};
use crate::longest::{byte_len, utf8_len};
use crate::strings::chars_of;
use vstd::prelude::*;
use vstd::string::*;

verus! {

/// The cells of a board: 34 rows of 34 cells, the outermost of which are the
/// border.
pub type Cells = [[bool; 34]; 34];

/// A board: its cells, and the number of rows and of columns that are in
/// play, counted from row 1 and column 1.
pub struct GameBoard {
    pub cells: Cells,
    pub size: usize,
}

/// One if the cell lives, zero if it does not.
pub open spec fn alive(cells: Cells, x: int, y: int) -> int {
    if cells[x][y] {
        1
    } else {
        0
    }
}

/// The number of living cells among the eight around a cell.
pub open spec fn live_neighbours(cells: Cells, x: int, y: int) -> int {
    alive(cells, x - 1, y - 1) + alive(cells, x - 1, y) + alive(cells, x - 1, y + 1) + alive(
        cells,
        x,
        y - 1,
    ) + alive(cells, x, y + 1) + alive(cells, x + 1, y - 1) + alive(cells, x + 1, y) + alive(
        cells,
        x + 1,
        y + 1,
    )
}

/// The rule of the game: a living cell lives on with two or three living
/// neighbours, a dead cell comes to life with exactly three.
pub open spec fn lives_on(cells: Cells, x: int, y: int) -> bool {
    let n = live_neighbours(cells, x, y);
    if cells[x][y] {
        n == 2 || n == 3
    } else {
        n == 3
    }
}

/// The state of the cell in row `x` and column `y` in the next generation.
pub fn new_cell_state(ps: Cells, x: usize, y: usize) -> (state: bool)
    requires
        1 <= x <= 32,
        1 <= y <= 32,
    ensures
        state == lives_on(ps, x as int, y as int),
{
    let mut neighbors_count: u8 = 0;
    if ps[x - 1][y - 1] {
        neighbors_count += 1;
    }
    if ps[x - 1][y] {
        neighbors_count += 1;
    }
    if ps[x - 1][y + 1] {
        neighbors_count += 1;
    }
    if ps[x][y - 1] {
        neighbors_count += 1;
    }
    if ps[x][y + 1] {
        neighbors_count += 1;
    }
    if ps[x + 1][y - 1] {
        neighbors_count += 1;
    }
    if ps[x + 1][y] {
        neighbors_count += 1;
    }
    if ps[x + 1][y + 1] {
        neighbors_count += 1;
    }
    if ps[x][y] && (neighbors_count == 2 || neighbors_count == 3) {
        true
    } else if !ps[x][y] && neighbors_count == 3 {
        true
    } else {
        false
    }
}

/// Whether the cell in row `i` and column `j` is in play on a board of this
/// size.
pub open spec fn in_play(size: int, i: int, j: int) -> bool {
    1 <= i <= size && 1 <= j <= size
}

/// Moves the board on by one generation: every cell in play takes its next
/// state, at once and from the states before the move. The border stays.
pub fn next_state(gb: &mut GameBoard)
    requires
        old(gb).size <= 32,
    ensures
        final(gb).size == old(gb).size,
        forall|i: int, j: int|
            0 <= i < 34 && 0 <= j < 34 ==> #[trigger] final(gb).cells[i][j] == if in_play(
                old(gb).size as int,
                i,
                j,
            ) {
                lives_on(old(gb).cells, i, j)
            } else {
                old(gb).cells[i][j]
            },
{
    let prev_state: Cells = gb.cells;
    let size = gb.size;
    let mut i: usize = 1;
    while i < size + 1
        invariant
            size == gb.size,
            size == old(gb).size,
            size <= 32,
            prev_state == old(gb).cells,
            1 <= i <= size + 1,
            forall|r: int, c: int|
                0 <= r < 34 && 0 <= c < 34 ==> #[trigger] gb.cells[r][c] == if in_play(
                    size as int,
                    r,
                    c,
                ) && r < i {
                    lives_on(prev_state, r, c)
                } else {
                    prev_state[r][c]
                },
        decreases size + 1 - i,
    {
        let mut row: [bool; 34] = gb.cells[i];
        let mut j: usize = 1;
        while j < size + 1
            invariant
                size <= 32,
                1 <= i <= size,
                1 <= j <= size + 1,
                forall|c: int|
                    0 <= c < 34 ==> #[trigger] row[c] == if 1 <= c < j {
                        lives_on(prev_state, i as int, c)
                    } else {
                        prev_state[i as int][c]
                    },
            decreases size + 1 - j,
        {
            row[j] = new_cell_state(prev_state, i, j);
            j += 1;
        }
        gb.cells[i] = row;
        i += 1;
    }
}

/// Whether the description `rows` says something of the cell in row `r` and
/// column `c` of a board of this size: the row is described, and the column
/// is in play and within the row's description.
pub open spec fn described(rows: Seq<Seq<char>>, size: int, r: int, c: int) -> bool {
    1 <= r <= rows.len() && 1 <= c <= size && c <= rows[r - 1].len()
}

/// Sets a board up from a description: one line for each row, an `x` for a
/// living cell and anything else for a dead one. The first line's number of
/// bytes becomes the size of the board; cells of which the description says
/// nothing stay as they are.
pub fn read_initial_state(gb: &mut GameBoard, description: &str)
    requires
        lines_of(description@).len() <= 33,
        lines_of(description@).len() > 0 ==> byte_len(lines_of(description@)[0]) <= 33,
    ensures
        final(gb).size == if lines_of(description@).len() > 0 {
            byte_len(lines_of(description@)[0])
        } else {
            old(gb).size as nat
        },
        forall|r: int, c: int|
            0 <= r < 34 && 0 <= c < 34 ==> #[trigger] final(gb).cells[r][c] == if described(
                lines_of(description@),
                final(gb).size as int,
                r,
                c,
            ) {
                lines_of(description@)[r - 1][c - 1] == 'x'
            } else {
                old(gb).cells[r][c]
            },
{
    let rows = lines(description);
    let ghost listed = rows@.map_values(|l: String| l@);
    assert(listed == lines_of(description@));
    if rows.len() > 0 {
        assert(listed[0] == rows@[0]@);
        gb.size = utf8_len(rows[0].as_str());
    }
    let size = gb.size;
    let mut i: usize = 1;
    while i < rows.len() + 1
        invariant
            listed == rows@.map_values(|l: String| l@),
            rows@.len() <= 33,
            rows@.len() > 0 ==> size <= 33,
            size == gb.size,
            1 <= i <= rows@.len() + 1,
            forall|r: int, c: int|
                0 <= r < 34 && 0 <= c < 34 ==> #[trigger] gb.cells[r][c] == if described(
                    listed,
                    size as int,
                    r,
                    c,
                ) && r < i {
                    listed[r - 1][c - 1] == 'x'
                } else {
                    old(gb).cells[r][c]
                },
        decreases rows@.len() + 1 - i,
    {
        let line = chars_of(rows[i - 1].as_str());
        assert(line@ == listed[i - 1]);
        let mut row: [bool; 34] = gb.cells[i];
        let mut j: usize = 1;
        while j < size + 1
            invariant
                size <= 33,
                1 <= i <= 33,
                1 <= j <= size + 1,
                forall|c: int|
                    0 <= c < 34 ==> #[trigger] row[c] == if 1 <= c < j && c <= line@.len() {
                        line@[c - 1] == 'x'
                    } else {
                        old(gb).cells[i as int][c]
                    },
            decreases size + 1 - j,
        {
            if j - 1 < line.len() {
                row[j] = line[j - 1] == 'x';
            }
            j += 1;
        }
        gb.cells[i] = row;
        i += 1;
    }
}

/// A line of `n` hash signs and a line feed.
pub open spec fn border(n: nat) -> Seq<char> {
    Seq::new(n, |i: int| '#').push('\n')
}

/// The picture of one cell: an `x` for a living cell, a space for a dead one.
pub open spec fn cell_char(cells: Cells, r: int, c: int) -> char {
    if cells[r][c] {
        'x'
    } else {
        ' '
    }
}

/// The picture of one row: the cells in play between two hash signs, and a
/// line feed.
pub open spec fn row_text(cells: Cells, size: nat, r: int) -> Seq<char> {
    seq!['#'] + Seq::new(size, |c: int| cell_char(cells, r, c + 1)) + seq!['#', '\n']
}

/// The pictures of the first `n` rows in play.
pub open spec fn rows_text(cells: Cells, size: nat, n: nat) -> Seq<char>
    decreases n,
{
    if n == 0 {
        Seq::empty()
    } else {
        rows_text(cells, size, (n - 1) as nat) + row_text(cells, size, n as int)
    }
}

/// The picture of a board: its rows inside a frame of hash signs.
pub open spec fn board_text(gb: GameBoard) -> Seq<char> {
    border((gb.size + 2) as nat) + rows_text(gb.cells, gb.size as nat, gb.size as nat) + border(
        (gb.size + 2) as nat,
    )
}

/// Appends a line of `n` hash signs to `out`.
fn push_border(out: &mut String, n: usize)
    ensures
        final(out)@ == old(out)@ + border(n as nat),
{
    let mut k: usize = 0;
    assert(out@ =~= old(out)@ + Seq::new(0, |i: int| '#'));
    while k < n
        invariant
            0 <= k <= n,
            out@ == old(out)@ + Seq::new(k as nat, |i: int| '#'),
        decreases n - k,
    {
        out.push('#');
        k += 1;
        assert(out@ =~= old(out)@ + Seq::new(k as nat, |i: int| '#'));
    }
    out.push('\n');
    assert(out@ =~= old(out)@ + border(n as nat));
}

/// The picture of a board.
pub fn render_state(gb: &GameBoard) -> (picture: String)
    requires
        gb.size <= 33,
    ensures
        picture@ == board_text(*gb),
{
    let size = gb.size;
    let mut picture = String::new();
    push_border(&mut picture, size + 2);
    let ghost top = picture@;
    let mut i: usize = 1;
    assert(picture@ =~= top + rows_text(gb.cells, size as nat, 0));
    while i < size + 1
        invariant
            size == gb.size,
            size <= 33,
            1 <= i <= size + 1,
            picture@ == top + rows_text(gb.cells, size as nat, (i - 1) as nat),
        decreases size + 1 - i,
    {
        let ghost before = picture@;
        picture.push('#');
        let mut j: usize = 1;
        assert(picture@ =~= before + seq!['#'] + Seq::new(0, |c: int| cell_char(gb.cells, i as int, c + 1)));
        while j < size + 1
            invariant
                size <= 33,
                1 <= i <= size,
                1 <= j <= size + 1,
                picture@ == before + seq!['#'] + Seq::new(
                    (j - 1) as nat,
                    |c: int| cell_char(gb.cells, i as int, c + 1),
                ),
            decreases size + 1 - j,
        {
            if gb.cells[i][j] {
                picture.push('x');
            } else {
                picture.push(' ');
            }
            j += 1;
            assert(picture@ =~= before + seq!['#'] + Seq::new(
                (j - 1) as nat,
                |c: int| cell_char(gb.cells, i as int, c + 1),
            ));
        }
        picture.push('#');
        picture.push('\n');
        assert(picture@ =~= before + row_text(gb.cells, size as nat, i as int));
        i += 1;
        assert(picture@ =~= top + rows_text(gb.cells, size as nat, (i - 1) as nat));
    }
    push_border(&mut picture, size + 2);
    picture
}

} // verus!
