//! The typed cell grid a schedule is read from.

use crate::date::Date;
use vstd::prelude::*;

verus! {

/// One cell of the grid.
#[derive(Clone, Debug)]
pub enum Cell {
    Empty,
    /// An integer cell.
    Int(i64),
    /// A floating-point cell, held as its value truncated toward zero.
    Float(i64),
    /// A string cell.
    Text(String),
    /// A date or date-time cell, held as its calendar date.
    Date(Date),
    /// Any other cell (a boolean, an error value).
    Other,
}

/// A grid of cells addressed by zero-based (row, column); rows may differ in length.
#[derive(Clone, Debug)]
pub struct Grid {
    pub rows: Vec<Vec<Cell>>,
}

impl Grid {
    /// The cell at (`row`, `col`), or `None` outside the grid.
    pub open spec fn cell(self, row: int, col: int) -> Option<Cell> {
        if 0 <= row < self.rows@.len() && 0 <= col < self.rows@[row]@.len() {
            Some(self.rows@[row]@[col])
        } else {
            None
        }
    }

    pub open spec fn height_spec(self) -> int {
        self.rows@.len() as int
    }

    pub fn new(rows: Vec<Vec<Cell>>) -> (r: Grid)
        ensures
            r.rows@ == rows@,
    {
        Grid { rows }
    }

    /// Number of rows.
    pub fn height(&self) -> (r: usize)
        ensures
            r == self.height_spec(),
    {
        self.rows.len()
    }

    /// The cell at (`row`, `col`), or `None` outside the grid.
    pub fn get(&self, row: usize, col: usize) -> (r: Option<&Cell>)
        ensures
            r matches Some(c) ==> self.cell(row as int, col as int) == Some(*c),
            r is None ==> self.cell(row as int, col as int) is None,
    {
        if row < self.rows.len() && col < self.rows[row].len() {
            Some(&self.rows[row][col])
        } else {
            None
        }
    }
}

} // verus!
