//! Where the checkers go on the screen: the board as a list of cells, each
//! a column, a row and what to show there.

use crate::game::{count_of, Game};
use vstd::prelude::*;

verus! {

/// What a cell shows.
#[derive(Clone, Copy, Debug, PartialEq, Eq, Structural)]
pub enum Glyph {
    /// A white checker.
    White,
    /// A black checker.
    Black,
    /// The mark of an empty field.
    Empty,
}

/// One place on the screen.
#[derive(Clone, Copy, Debug, PartialEq, Eq, Structural)]
pub struct Cell {
    pub x: u16,
    pub y: u16,
    pub glyph: Glyph,
}

/// The column of the field with the array index `index`: fields 12 down to
/// 1 run along the bottom from the left, fields 13 up to 24 along the top.
pub open spec fn column(index: int) -> int {
    if index < 12 {
        (11 - index) * 5
    } else {
        (index - 12) * 5
    }
}

/// The row of the checker number `depth` of a field, counted from the edge
/// of the board: up from row 14 at the bottom, down from row 1 at the top.
pub open spec fn row(index: int, depth: int) -> int {
    if index < 12 {
        14 - depth
    } else {
        depth + 1
    }
}

/// What the cells of a field with the raw value `value` show.
pub open spec fn glyph_of(value: u8) -> Glyph {
    if value == 0 {
        Glyph::Empty
    } else if value <= 15 {
        Glyph::White
    } else {
        Glyph::Black
    }
}

/// How many cells a field takes: one for each checker, and three marks
/// where it is empty.
pub open spec fn rows_of(value: u8) -> nat {
    if value == 0 {
        3
    } else {
        count_of(value)
    }
}

/// The cells of one field, from the edge of the board inwards.
pub open spec fn field_cells(index: int, value: u8) -> Seq<Cell> {
    Seq::new(
        rows_of(value),
        |depth: int|
            Cell { x: column(index) as u16, y: row(index, depth) as u16, glyph: glyph_of(value) },
    )
}

/// The cells of the first `upto` fields of the board.
pub open spec fn board_cells(board: Seq<u8>, upto: int) -> Seq<Cell>
    decreases upto,
{
    if upto <= 0 {
        Seq::empty()
    } else {
        board_cells(board, upto - 1) + field_cells(upto - 1, board[upto - 1])
    }
}

impl Game {
    /// The board as cells to show, field by field.
    pub fn draw(&self) -> (cells: Vec<Cell>)
        requires
            forall|i: int| 0 <= i < 24 ==> #[trigger] self.board@[i] <= 30,
        ensures
            cells@ == board_cells(self.board@, 24),
    {
        let mut cells: Vec<Cell> = Vec::new();
        let mut i: usize = 0;
        while i < 24
            invariant
                i <= 24,
                forall|k: int| 0 <= k < 24 ==> #[trigger] self.board@[k] <= 30,
                cells@ == board_cells(self.board@, i as int),
            decreases 24 - i,
        {
            let value: u8 = self.board[i];
            let glyph = if value == 0 {
                Glyph::Empty
            } else if value <= 15 {
                Glyph::White
            } else {
                Glyph::Black
            };
            let rows: u16 = if value == 0 {
                3
            } else if value <= 15 {
                value as u16
            } else {
                (value - 15) as u16
            };
            let x: u16 = if i < 12 {
                ((11 - i) * 5) as u16
            } else {
                ((i - 12) * 5) as u16
            };
            let ghost before = cells@;
            let mut depth: u16 = 0;
            while depth < rows
                invariant
                    depth <= rows <= 15,
                    i < 24,
                    rows == rows_of(value),
                    x == column(i as int),
                    glyph == glyph_of(value),
                    cells@ == before + field_cells(i as int, value).take(depth as int),
                decreases rows - depth,
            {
                let y: u16 = if i < 12 {
                    14 - depth
                } else {
                    depth + 1
                };
                cells.push(Cell { x, y, glyph });
                proof {
                    assert(cells@ =~= before + field_cells(i as int, value).take(depth + 1));
                }
                depth = depth + 1;
            }
            proof {
                assert(field_cells(i as int, value).take(rows as int) =~= field_cells(
                    i as int,
                    value,
                ));
            }
            i = i + 1;
        }
        cells
    }
}

} // verus!
