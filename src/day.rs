//! Day statuses and the classification of one cell into a status.

use crate::date::Date;
use crate::grid::Cell;
use vstd::prelude::*;

verus! {

/// A date with a time of day.
#[derive(Clone, Copy, Debug, PartialEq, Eq, Structural)]
pub struct Timestamp {
    pub date: Date,
    pub hour: u32,
    pub minute: u32,
    pub second: u32,
}

impl Timestamp {
    pub open spec fn wf(self) -> bool {
        self.date.wf() && self.hour < 24 && self.minute < 60 && self.second < 60
    }

    /// `hour` o'clock sharp on `date`.
    pub open spec fn on_the_hour(date: Date, hour: int) -> Timestamp {
        Timestamp { date, hour: hour as u32, minute: 0, second: 0 }
    }

    pub fn at_hour(date: Date, hour: u32) -> (r: Timestamp)
        ensures
            r == Timestamp::on_the_hour(date, hour as int),
    {
        Timestamp { date, hour, minute: 0, second: 0 }
    }
}

/// What an employee does on one day.
#[derive(Clone, Copy, Debug, PartialEq, Eq, Structural)]
pub enum DayStatus {
    Off,
    Vacation,
    /// A compensatory day.
    ADay,
    /// A working day, starting at the given time.
    Work(Timestamp),
    /// The cell held no known code.
    Undefined,
}

impl DayStatus {
    pub open spec fn wf(self) -> bool {
        self matches DayStatus::Work(t) ==> t.wf()
    }
}

/// One day of an employee's schedule.
#[derive(Clone, Copy, Debug, PartialEq, Eq, Structural)]
pub struct Day {
    pub date: Date,
    pub status: DayStatus,
}

impl Day {
    pub open spec fn wf(self) -> bool {
        self.date.wf() && self.status.wf()
    }
}

/// The status a clock-in hour stands for: work from that hour, where it is an
/// hour of the day.
pub open spec fn hour_status(value: int, date: Date) -> DayStatus {
    if 0 <= value < 24 {
        DayStatus::Work(Timestamp::on_the_hour(date, value))
    } else {
        DayStatus::Undefined
    }
}

/// The status a day code stands for (codes are case-sensitive).
pub open spec fn code_status(code: Seq<char>, date: Date) -> DayStatus {
    if code =~= seq!['V'] {
        DayStatus::Vacation
    } else if code =~= seq!['A'] {
        DayStatus::ADay
    } else if code =~= seq!['X'] || code =~= seq!['M'] {
        DayStatus::Off
    } else if code =~= seq!['S', 'C'] || code =~= seq!['B'] || code =~= seq!['C'] || code
        =~= seq!['R'] {
        DayStatus::Work(Timestamp::on_the_hour(date, 12))
    } else {
        DayStatus::Undefined
    }
}

/// The status of a cell on `date`, or `None` where the cell gives no day.
pub open spec fn cell_status(cell: Cell, date: Date) -> Option<DayStatus> {
    match cell {
        Cell::Empty => Some(DayStatus::Off),
        Cell::Int(v) => Some(hour_status(v as int, date)),
        Cell::Float(v) => Some(hour_status(v as int, date)),
        Cell::Text(s) => Some(code_status(s@, date)),
        Cell::Date(_) => None,
        Cell::Other => None,
    }
}

fn from_hour(value: i64, date: Date) -> (r: DayStatus)
    ensures
        r == hour_status(value as int, date),
{
    if 0 <= value && value < 24 {
        DayStatus::Work(Timestamp::at_hour(date, value as u32))
    } else {
        DayStatus::Undefined
    }
}

/// The status a day code stands for.
pub fn status_of_code(code: &str, date: Date) -> (r: DayStatus)
    ensures
        r == code_status(code@, date),
{
    let n = code.unicode_len();
    let noon = DayStatus::Work(Timestamp::at_hour(date, 12));
    if n == 1 {
        let c = code.get_char(0);
        if c == 'V' {
            DayStatus::Vacation
        } else if c == 'A' {
            DayStatus::ADay
        } else if c == 'X' || c == 'M' {
            DayStatus::Off
        } else if c == 'B' || c == 'C' || c == 'R' {
            noon
        } else {
            DayStatus::Undefined
        }
    } else if n == 2 && code.get_char(0) == 'S' && code.get_char(1) == 'C' {
        noon
    } else {
        DayStatus::Undefined
    }
}

/// Classifies one cell on `date`: an empty cell is a day off, a number a
/// clock-in hour, a string a day code; any other cell gives no day.
pub fn classify(cell: &Cell, date: Date) -> (r: Option<DayStatus>)
    ensures
        r == cell_status(*cell, date),
{
    match cell {
        Cell::Empty => Some(DayStatus::Off),
        Cell::Int(v) => Some(from_hour(*v, date)),
        Cell::Float(v) => Some(from_hour(*v, date)),
        Cell::Text(s) => Some(status_of_code(s.as_str(), date)),
        Cell::Date(_) => None,
        Cell::Other => None,
    }
}

/// A status read from a cell on a valid date is itself valid.
pub proof fn lemma_cell_status_wf(cell: Cell, date: Date)
    requires
        date.wf(),
    ensures
        cell_status(cell, date) matches Some(st) ==> st.wf(),
{
}

} // verus!
