//! The schedule model and its extraction from a grid.

use crate::date::{days_between, following_day, lemma_next_wf, lemma_ordinal_bounds, lemma_plus_days_ordinal, Date};
use crate::day::{cell_status, classify, lemma_cell_status_wf, Day};
use crate::grid::{Cell, Grid};
use crate::record::record_text;
use vstd::prelude::*;

verus! {

/// Why a schedule could not be read.
#[derive(Clone, Copy, Debug, PartialEq, Eq, Structural)]
pub enum ScheduleError {
    /// The start or end cell is absent or holds no valid date.
    MissingScheduleBounds,
    /// The end date comes before the start date.
    InvertedScheduleBounds,
}

/// The inclusive range of dates a schedule covers.
#[derive(Clone, Copy, Debug, PartialEq, Eq, Structural)]
pub struct ScheduleRange {
    pub start: Date,
    pub end: Date,
}

impl ScheduleRange {
    pub open spec fn wf(self) -> bool {
        self.start.wf() && self.end.wf() && self.start.ordinal() <= self.end.ordinal()
    }

    /// Number of days in the range, both ends included.
    pub open spec fn duration_spec(self) -> int {
        self.end.ordinal() - self.start.ordinal() + 1
    }

    /// The range from `start` to `end`, refused where `end` comes first.
    pub fn new(start: Date, end: Date) -> (r: Result<ScheduleRange, ScheduleError>)
        requires
            start.wf(),
            end.wf(),
        ensures
            r is Ok <==> start.ordinal() <= end.ordinal(),
            r matches Ok(s) ==> s.start == start && s.end == end && s.wf(),
            r matches Err(e) ==> e == ScheduleError::InvertedScheduleBounds,
    {
        if days_between(&start, &end) < 0 {
            Err(ScheduleError::InvertedScheduleBounds)
        } else {
            Ok(ScheduleRange { start, end })
        }
    }

    /// Number of days in the range, both ends included: one more than the
    /// days from start to end, and at least one.
    pub fn duration(&self) -> (r: i64)
        requires
            self.wf(),
        ensures
            r == self.duration_spec(),
            r == self.end.ordinal() - self.start.ordinal() + 1,
            r >= 1,
    {
        proof {
            lemma_ordinal_bounds(self.start);
            lemma_ordinal_bounds(self.end);
        }
        days_between(&self.start, &self.end) + 1
    }
}

/// An employee found in the grid, with the days read for them.
#[derive(Debug)]
pub struct Employee {
    pub name: String,
    /// Where the name stands in the grid: (row, column).
    pub location: (usize, usize),
    pub days: Vec<Day>,
}

impl Employee {
    pub open spec fn days_wf(self) -> bool {
        forall|k: int| 0 <= k < self.days@.len() ==> (#[trigger] self.days@[k]).wf()
    }

    /// The JSON records of this employee's days, in the order of the days.
    pub fn records(&self) -> (r: Vec<String>)
        requires
            self.days_wf(),
        ensures
            r@.map_values(|t: String| t@) == self.days@.map_values(|d: Day| record_text(d)),
    {
        let mut out: Vec<String> = Vec::new();
        let mut i: usize = 0;
        while i < self.days.len()
            invariant
                self.days_wf(),
                i <= self.days@.len(),
                out@.map_values(|t: String| t@) == self.days@.subrange(0, i as int).map_values(
                    |d: Day| record_text(d),
                ),
            decreases self.days@.len() - i,
        {
            let text = self.days[i].to_record();
            let ghost prev = out@;
            out.push(text);
            i = i + 1;
            assert(out@.map_values(|t: String| t@) =~= prev.map_values(|t: String| t@).push(
                record_text(self.days@[i - 1]),
            ));
            assert(self.days@.subrange(0, i as int).map_values(|d: Day| record_text(d))
                =~= self.days@.subrange(0, i - 1).map_values(|d: Day| record_text(d)).push(
                record_text(self.days@[i - 1]),
            ));
            assert(out@.map_values(|t: String| t@) =~= self.days@.subrange(0, i as int).map_values(
                |d: Day| record_text(d),
            ));
        }
        assert(self.days@.subrange(0, i as int) =~= self.days@);
        out
    }

    /// The JSON record of day `i`, or `None` past the last day.
    pub fn record(&self, i: usize) -> (r: Option<String>)
        requires
            self.days_wf(),
        ensures
            r is Some <==> i < self.days@.len(),
            r matches Some(t) ==> t@ == record_text(self.days@[i as int]),
    {
        if i < self.days.len() {
            Some(self.days[i].to_record())
        } else {
            None
        }
    }

    /// An employee with no days yet.
    pub fn new(name: String, location: (usize, usize)) -> (r: Employee)
        ensures
            r.name@ == name@,
            r.location == location,
            r.days@.len() == 0,
    {
        Employee { name, location, days: Vec::new() }
    }
}

/// A schedule: its date range and its employees in the order of their rows.
#[derive(Debug)]
pub struct Schedule {
    pub range: ScheduleRange,
    pub employees: Vec<Employee>,
}

/// The employees named in column 0 of rows 2 up to `n` (exclusive), top to
/// bottom, as (name, row).
pub open spec fn roster(g: Grid, n: int) -> Seq<(Seq<char>, int)>
    decreases n,
{
    if n <= 2 {
        seq![]
    } else {
        let before = roster(g, n - 1);
        match g.cell(n - 1, 0) {
            Some(Cell::Text(s)) => before.push((s@, n - 1)),
            _ => before,
        }
    }
}

/// Every employee on the roster was read from a string cell in column 0 of a
/// row from 2 on: a number, a date, an empty cell or no cell is never taken
/// for a name.
pub proof fn lemma_roster_from_text_cells(g: Grid, n: int)
    ensures
        forall|i: int|
            0 <= i < roster(g, n).len() ==> {
                let entry = #[trigger] roster(g, n)[i];
                &&& 2 <= entry.1 < n
                &&& g.cell(entry.1, 0) matches Some(Cell::Text(s))
                &&& s@ == entry.0
            },
    decreases n,
{
    if n > 2 {
        lemma_roster_from_text_cells(g, n - 1);
    }
}

/// The days read from row `row` for the first `n` dates from `start`: the
/// date `k` days on is read from column `k + 1`, and a cell that gives no day
/// is passed over.
pub open spec fn row_days(g: Grid, row: int, start: Date, n: nat) -> Seq<Day>
    decreases n,
{
    if n == 0 {
        seq![]
    } else {
        let before = row_days(g, row, start, (n - 1) as nat);
        let date = start.plus_days((n - 1) as nat);
        match g.cell(row, n as int) {
            Some(c) => match cell_status(c, date) {
                Some(st) => before.push(Day { date, status: st }),
                None => before,
            },
            None => before,
        }
    }
}

/// The date of a cell, where it is a valid date.
pub open spec fn bound_of(cell: Option<Cell>) -> Option<Date> {
    match cell {
        Some(Cell::Date(d)) => if d.wf() { Some(d) } else { None },
        _ => None,
    }
}

/// The range the header cells give, or why they give none.
pub open spec fn range_of(g: Grid) -> Result<ScheduleRange, ScheduleError> {
    match (bound_of(g.cell(0, 0)), bound_of(g.cell(1, 0))) {
        (Some(start), Some(end)) => if start.ordinal() <= end.ordinal() {
            Ok(ScheduleRange { start, end })
        } else {
            Err(ScheduleError::InvertedScheduleBounds)
        },
        _ => Err(ScheduleError::MissingScheduleBounds),
    }
}

impl Schedule {
    /// The employee list matches the grid's roster, each with the days of its row.
    pub open spec fn read_from(self, g: Grid) -> bool {
        &&& self.range.wf()
        &&& self.employees@.len() == roster(g, g.height_spec()).len()
        &&& forall|i: int|
            0 <= i < self.employees@.len() ==> {
                let e = #[trigger] self.employees@[i];
                &&& e.name@ == roster(g, g.height_spec())[i].0
                &&& e.location.0 == roster(g, g.height_spec())[i].1
                &&& e.location.1 == 0
                &&& e.days_wf()
                &&& e.days@ == row_days(
                    g,
                    e.location.0 as int,
                    self.range.start,
                    self.range.duration_spec() as nat,
                )
            }
    }

    /// Reads a schedule from `g`: the range from the dates at (0, 0) and
    /// (1, 0), an employee for each string cell in column 0 from row 2 down,
    /// and for each employee one day per date of the range where its cell
    /// gives one.
    pub fn extract(g: &Grid) -> (r: Result<Schedule, ScheduleError>)
        ensures
            r is Ok <==> range_of(*g) is Ok,
            r matches Err(e) ==> range_of(*g) == Err::<ScheduleRange, ScheduleError>(e),
            r matches Ok(s) ==> range_of(*g) == Ok::<ScheduleRange, ScheduleError>(s.range)
                && s.read_from(*g),
    {
        let start = match read_bound(g, 0) {
            Some(d) => d,
            None => return Err(ScheduleError::MissingScheduleBounds),
        };
        let end = match read_bound(g, 1) {
            Some(d) => d,
            None => return Err(ScheduleError::MissingScheduleBounds),
        };
        let range = match ScheduleRange::new(start, end) {
            Ok(r) => r,
            Err(e) => return Err(e),
        };
        let employees = find_employees(g);
        let duration = range.duration();
        proof {
            lemma_ordinal_bounds(range.start);
            lemma_ordinal_bounds(range.end);
        }
        let n = duration as usize;
        let mut i: usize = 0;
        let mut out: Vec<Employee> = Vec::new();
        let ghost roll = roster(*g, g.height_spec());
        while i < employees.len()
            invariant
                range.wf(),
                n == range.duration_spec(),
                n < 4_000_001,
                employees@.len() == roll.len(),
                out@.len() == i,
                i <= employees@.len(),
                forall|j: int|
                    0 <= j < employees@.len() ==> {
                        let e = #[trigger] employees@[j];
                        &&& e.name@ == roll[j].0
                        &&& e.location.0 == roll[j].1
                        &&& e.location.1 == 0
                    },
                forall|j: int|
                    0 <= j < i ==> {
                        let e = #[trigger] out@[j];
                        &&& e.name@ == roll[j].0
                        &&& e.location.0 == roll[j].1
                        &&& e.location.1 == 0
                        &&& e.days_wf()
                        &&& e.days@ == row_days(*g, e.location.0 as int, range.start, n as nat)
                    },
            decreases employees@.len() - i,
        {
            let e = &employees[i];
            let days = read_days(g, e.location.0, &range, n);
            let filled = Employee { name: e.name.clone(), location: e.location, days };
            out.push(filled);
            i = i + 1;
        }
        Ok(Schedule { range, employees: out })
    }
}

/// The records of the employees among `entries` named `name`, in order.
pub open spec fn records_for(
    g: Grid,
    range: ScheduleRange,
    entries: Seq<(Seq<char>, int)>,
    name: Seq<char>,
) -> Seq<Seq<char>>
    decreases entries.len(),
{
    if entries.len() == 0 {
        seq![]
    } else {
        let rest = records_for(g, range, entries.drop_last(), name);
        let last = entries.last();
        if last.0 == name {
            rest + row_days(g, last.1, range.start, range.duration_spec() as nat).map_values(
                |d: Day| record_text(d),
            )
        } else {
            rest
        }
    }
}

/// Whether two strings hold the same characters.
pub fn same_text(a: &str, b: &str) -> (r: bool)
    ensures
        r == (a@ == b@),
{
    let n = a.unicode_len();
    if n != b.unicode_len() {
        return false;
    }
    let mut i: usize = 0;
    while i < n
        invariant
            n == a@.len(),
            n == b@.len(),
            i <= n,
            a@.subrange(0, i as int) == b@.subrange(0, i as int),
        decreases n - i,
    {
        if a.get_char(i) != b.get_char(i) {
            return false;
        }
        i = i + 1;
        assert(a@.subrange(0, i as int) =~= a@.subrange(0, i as int - 1).push(a@[i - 1]));
        assert(b@.subrange(0, i as int) =~= b@.subrange(0, i as int - 1).push(b@[i - 1]));
    }
    assert(a@ =~= a@.subrange(0, n as int));
    assert(b@ =~= b@.subrange(0, n as int));
    true
}

/// Reads the schedule in `g` and returns the records of every employee named
/// `selected`, employee by employee in row order, each employee's days in
/// date order; or why the header cells give no range.
pub fn process_schedule(g: &Grid, selected: &str) -> (r: Result<Vec<String>, ScheduleError>)
    ensures
        range_of(*g) matches Err(e) ==> r == Err::<Vec<String>, ScheduleError>(e),
        range_of(*g) matches Ok(range) ==> r matches Ok(v) && v@.map_values(|t: String| t@)
            == records_for(*g, range, roster(*g, g.height_spec()), selected@),
{
    let schedule = match Schedule::extract(g) {
        Ok(s) => s,
        Err(e) => return Err(e),
    };
    let ghost roll = roster(*g, g.height_spec());
    let ghost range = schedule.range;
    let mut out: Vec<String> = Vec::new();
    let mut j: usize = 0;
    while j < schedule.employees.len()
        invariant
            schedule.read_from(*g),
            range == schedule.range,
            roll == roster(*g, g.height_spec()),
            j <= schedule.employees@.len(),
            out@.map_values(|t: String| t@) == records_for(*g, range, roll.take(j as int), selected@),
        decreases schedule.employees@.len() - j,
    {
        let e = &schedule.employees[j];
        proof {
            assert(roll.take(j as int + 1).drop_last() =~= roll.take(j as int));
        }
        if same_text(e.name.as_str(), selected) {
            let recs = e.records();
            let ghost before = out@.map_values(|t: String| t@);
            let mut k: usize = 0;
            while k < recs.len()
                invariant
                    k <= recs@.len(),
                    out@.map_values(|t: String| t@) == before + recs@.subrange(0, k as int).map_values(
                        |t: String| t@,
                    ),
                decreases recs@.len() - k,
            {
                let ghost prev = out@;
                let t = recs[k].clone();
                out.push(t);
                k = k + 1;
                assert(out@.map_values(|t: String| t@) =~= prev.map_values(|t: String| t@).push(
                    recs@[k - 1]@,
                ));
                assert(recs@.subrange(0, k as int).map_values(|t: String| t@) =~= recs@.subrange(
                    0,
                    k - 1,
                ).map_values(|t: String| t@).push(recs@[k - 1]@));
                assert(out@.map_values(|t: String| t@) =~= before + recs@.subrange(
                    0,
                    k as int,
                ).map_values(|t: String| t@));
            }
            assert(recs@.subrange(0, k as int) =~= recs@);
            assert(out@.map_values(|t: String| t@) =~= records_for(
                *g,
                range,
                roll.take(j as int + 1),
                selected@,
            ));
        } else {
            assert(out@.map_values(|t: String| t@) =~= records_for(
                *g,
                range,
                roll.take(j as int + 1),
                selected@,
            ));
        }
        j = j + 1;
    }
    assert(roll.take(j as int) =~= roll);
    Ok(out)
}

/// The valid date at (`row`, 0), if there is one.
fn read_bound(g: &Grid, row: usize) -> (r: Option<Date>)
    ensures
        r == bound_of(g.cell(row as int, 0)),
{
    match g.get(row, 0) {
        Some(Cell::Date(d)) => {
            if Date::new(d.year, d.month, d.day).is_some() {
                Some(*d)
            } else {
                None
            }
        },
        _ => None,
    }
}

/// Employees for each string cell in column 0 from row 2 down, with no days.
pub fn find_employees(g: &Grid) -> (r: Vec<Employee>)
    ensures
        r@.len() == roster(*g, g.height_spec()).len(),
        forall|j: int|
            0 <= j < r@.len() ==> {
                let e = #[trigger] r@[j];
                &&& e.name@ == roster(*g, g.height_spec())[j].0
                &&& e.location.0 == roster(*g, g.height_spec())[j].1
                &&& e.location.1 == 0
                &&& e.days@.len() == 0
            },
{
    let h = g.height();
    let mut out: Vec<Employee> = Vec::new();
    let mut row: usize = 2;
    if h <= 2 {
        return out;
    }
    while row < h
        invariant
            2 <= row <= h,
            h == g.height_spec(),
            out@.len() == roster(*g, row as int).len(),
            forall|j: int|
                0 <= j < out@.len() ==> {
                    let e = #[trigger] out@[j];
                    &&& e.name@ == roster(*g, row as int)[j].0
                    &&& e.location.0 == roster(*g, row as int)[j].1
                    &&& e.location.1 == 0
                    &&& e.days@.len() == 0
                },
        decreases h - row,
    {
        match g.get(row, 0) {
            Some(Cell::Text(name)) => {
                out.push(Employee::new(name.clone(), (row, 0)));
            },
            _ => {},
        }
        proof {
            assert(roster(*g, row + 1) == match g.cell(row as int, 0) {
                Some(Cell::Text(s)) => roster(*g, row as int).push((s@, row as int)),
                _ => roster(*g, row as int),
            });
        }
        row = row + 1;
    }
    out
}

/// The days of row `row` for the first `n` dates of `range`.
pub fn read_days(g: &Grid, row: usize, range: &ScheduleRange, n: usize) -> (r: Vec<Day>)
    requires
        range.wf(),
        n == range.duration_spec(),
    ensures
        r@ == row_days(*g, row as int, range.start, n as nat),
        forall|k: int| 0 <= k < r@.len() ==> (#[trigger] r@[k]).wf(),
{
    let mut out: Vec<Day> = Vec::new();
    let mut date = range.start;
    let mut i: usize = 0;
    while i < n
        invariant
            range.wf(),
            n == range.duration_spec(),
            i <= n,
            i < n ==> date == range.start.plus_days(i as nat),
            i < n ==> date.wf(),
            i < n ==> date.ordinal() == range.start.ordinal() + i,
            out@ == row_days(*g, row as int, range.start, i as nat),
            forall|k: int| 0 <= k < out@.len() ==> (#[trigger] out@[k]).wf(),
        decreases n - i,
    {
        proof {
            lemma_ordinal_bounds(range.start);
            lemma_ordinal_bounds(range.end);
        }
        match g.get(row, i + 1) {
            Some(cell) => {
                proof {
                    lemma_cell_status_wf(*cell, date);
                }
                match classify(cell, date) {
                    Some(status) => out.push(Day { date, status }),
                    None => {},
                }
            },
            None => {},
        }
        if i + 1 < n {
            proof {
                lemma_next_wf(date, range.end);
            }
            date = following_day(&date);
        }
        i = i + 1;
    }
    out
}

/// A row gives at most one day per date of the range, and a row with a day
/// for every date of the range has them in order: the `i`-th on the date `i`
/// days after the start.
pub proof fn lemma_full_row_in_order(g: Grid, row: int, range: ScheduleRange)
    requires
        range.wf(),
    ensures
        row_days(g, row, range.start, range.duration_spec() as nat).len() <= range.duration_spec(),
        row_days(g, row, range.start, range.duration_spec() as nat).len() == range.duration_spec()
            ==> forall|i: int|
            0 <= i < range.duration_spec() ==> {
                let d = #[trigger] row_days(g, row, range.start, range.duration_spec() as nat)[i];
                &&& d.date == range.start.plus_days(i as nat)
                &&& d.date.ordinal() == range.start.ordinal() + i
                &&& d.date.wf()
            },
{
    let n = range.duration_spec() as nat;
    lemma_row_days_len(g, row, range.start, n);
    if row_days(g, row, range.start, n).len() == n {
        lemma_full_row_dates(g, row, range.start, n);
        assert forall|i: int| 0 <= i < n implies {
            let d = #[trigger] row_days(g, row, range.start, n)[i];
            &&& d.date.ordinal() == range.start.ordinal() + i
            &&& d.date.wf()
        } by {
            lemma_plus_days_ordinal(range.start, i as nat, range.end);
        }
    }
}

/// The days read from a row lie in the range, in strictly increasing order
/// of date.
pub proof fn lemma_row_days_within(g: Grid, row: int, range: ScheduleRange, n: nat)
    requires
        range.wf(),
        n <= range.duration_spec(),
    ensures
        forall|i: int|
            0 <= i < row_days(g, row, range.start, n).len() ==> {
                let d = #[trigger] row_days(g, row, range.start, n)[i];
                &&& d.date.wf()
                &&& range.start.ordinal() <= d.date.ordinal() < range.start.ordinal() + n
                &&& d.date.ordinal() <= range.end.ordinal()
            },
        forall|i: int, j: int|
            0 <= i < j < row_days(g, row, range.start, n).len() ==> (#[trigger] row_days(
                g,
                row,
                range.start,
                n,
            )[i]).date.ordinal() < (#[trigger] row_days(g, row, range.start, n)[j]).date.ordinal(),
    decreases n,
{
    if n > 0 {
        let m = (n - 1) as nat;
        lemma_row_days_within(g, row, range, m);
        lemma_plus_days_ordinal(range.start, m, range.end);
    }
}

proof fn lemma_row_days_len(g: Grid, row: int, start: Date, n: nat)
    ensures
        row_days(g, row, start, n).len() <= n,
    decreases n,
{
    if n > 0 {
        lemma_row_days_len(g, row, start, (n - 1) as nat);
    }
}

proof fn lemma_full_row_dates(g: Grid, row: int, start: Date, n: nat)
    requires
        row_days(g, row, start, n).len() == n,
    ensures
        forall|i: int|
            0 <= i < n ==> (#[trigger] row_days(g, row, start, n)[i]).date == start.plus_days(
                i as nat,
            ),
    decreases n,
{
    if n > 0 {
        let m = (n - 1) as nat;
        lemma_row_days_len(g, row, start, m);
        lemma_full_row_dates(g, row, start, m);
    }
}

} // verus!
