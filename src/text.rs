//! Readable text of employees and schedules.

use crate::day::Day;
use crate::record::{day_label, digit_char, digit_text, iso_date, push_date, push_label};
use crate::schedule::{Employee, Schedule};
use vstd::prelude::*;

verus! {

/// `n` in decimal, without leading zeros.
pub open spec fn decimal(n: nat) -> Seq<char>
    decreases n,
{
    if n < 10 {
        seq![digit_char(n as int)]
    } else {
        decimal(n / 10) + seq![digit_char((n % 10) as int)]
    }
}

/// `s` followed by spaces up to `width` characters.
pub open spec fn pad_right(s: Seq<char>, width: nat) -> Seq<char> {
    if s.len() < width {
        s + Seq::new((width - s.len()) as nat, |i: int| ' ')
    } else {
        s
    }
}

/// One line per day, each after a line break.
pub open spec fn day_lines(days: Seq<Day>) -> Seq<char>
    decreases days.len(),
{
    if days.len() == 0 {
        seq![]
    } else {
        day_lines(days.drop_last()) + "\n"@ + day_label(days.last())
    }
}

/// The readable text of an employee: name, location and one line per day.
pub open spec fn employee_text(e: Employee) -> Seq<char> {
    "\nName: "@ + pad_right(e.name@, 10) + "\nLocation: ["@ + pad_right(decimal(e.location.0 as nat), 2)
        + ", "@ + pad_right(decimal(e.location.1 as nat), 2) + "] "@ + day_lines(e.days@)
}

pub open spec fn employees_text(es: Seq<Employee>) -> Seq<char>
    decreases es.len(),
{
    if es.len() == 0 {
        seq![]
    } else {
        employees_text(es.drop_last()) + employee_text(es.last())
    }
}

/// The readable text of a schedule: its range and duration, then its employees.
pub open spec fn schedule_text(s: Schedule) -> Seq<char> {
    "start_date: "@ + iso_date(s.range.start) + " end_date: "@ + iso_date(s.range.end) + " duration: "@
        + decimal(s.range.duration_spec() as nat) + "\nEmployees:\n"@ + employees_text(s.employees@)
        + "\n"@
}

fn push_decimal(out: &mut String, n: u64)
    ensures
        final(out)@ == old(out)@ + decimal(n as nat),
    decreases n,
{
    let ghost start = out@;
    if n >= 10 {
        push_decimal(out, n / 10);
    }
    out.append(digit_text((n % 10) as u32));
    assert(out@ =~= start + decimal(n as nat));
}

fn push_padded(out: &mut String, s: &str, width: usize)
    ensures
        final(out)@ == old(out)@ + pad_right(s@, width as nat),
{
    let ghost start = out@;
    out.append(s);
    let mut k: usize = s.unicode_len();
    while k < width
        invariant
            s@.len() <= k <= width || (k == s@.len() && k >= width),
            out@ == start + s@ + Seq::new((k - s@.len()) as nat, |i: int| ' '),
        decreases width - k,
    {
        out.append(" ");
        proof {
            reveal_strlit(" ");
        }
        k = k + 1;
        assert(out@ =~= start + s@ + Seq::new((k - s@.len()) as nat, |i: int| ' '));
    }
    assert(out@ =~= start + pad_right(s@, width as nat));
}

fn push_padded_decimal(out: &mut String, n: usize, width: usize)
    ensures
        final(out)@ == old(out)@ + pad_right(decimal(n as nat), width as nat),
{
    let mut digits = String::new();
    push_decimal(&mut digits, n as u64);
    assert(digits@ =~= decimal(n as nat));
    push_padded(out, digits.as_str(), width);
}

fn push_employee(out: &mut String, e: &Employee)
    requires
        e.days_wf(),
    ensures
        final(out)@ == old(out)@ + employee_text(*e),
{
    let ghost start = out@;
    out.append("\nName: ");
    push_padded(out, e.name.as_str(), 10);
    out.append("\nLocation: [");
    push_padded_decimal(out, e.location.0, 2);
    out.append(", ");
    push_padded_decimal(out, e.location.1, 2);
    out.append("] ");
    let ghost head = out@;
    let mut i: usize = 0;
    while i < e.days.len()
        invariant
            e.days_wf(),
            i <= e.days@.len(),
            out@ == head + day_lines(e.days@.subrange(0, i as int)),
        decreases e.days@.len() - i,
    {
        out.append("\n");
        push_date(out, &e.days[i].date);
        out.append(" - ");
        push_label(out, &e.days[i].status);
        i = i + 1;
        assert(e.days@.subrange(0, i as int).drop_last() =~= e.days@.subrange(0, i - 1));
        assert(out@ =~= head + day_lines(e.days@.subrange(0, i as int)));
    }
    assert(e.days@.subrange(0, i as int) =~= e.days@);
    assert(out@ =~= start + employee_text(*e));
}

impl Employee {
    /// The readable text of this employee.
    pub fn to_text(&self) -> (r: String)
        requires
            self.days_wf(),
        ensures
            r@ == employee_text(*self),
    {
        let mut out = String::new();
        push_employee(&mut out, self);
        assert(out@ =~= employee_text(*self));
        out
    }
}

impl Schedule {
    /// The readable text of this schedule.
    pub fn to_text(&self) -> (r: String)
        requires
            self.range.wf(),
            forall|j: int| 0 <= j < self.employees@.len() ==> (#[trigger] self.employees@[j]).days_wf(),
        ensures
            r@ == schedule_text(*self),
    {
        let mut out = String::new();
        out.append("start_date: ");
        push_date(&mut out, &self.range.start);
        out.append(" end_date: ");
        push_date(&mut out, &self.range.end);
        out.append(" duration: ");
        let duration = self.range.duration();
        push_decimal(&mut out, duration as u64);
        out.append("\nEmployees:\n");
        let ghost head = out@;
        let mut j: usize = 0;
        while j < self.employees.len()
            invariant
                forall|k: int| 0 <= k < self.employees@.len() ==> (#[trigger] self.employees@[k]).days_wf(),
                j <= self.employees@.len(),
                out@ == head + employees_text(self.employees@.subrange(0, j as int)),
            decreases self.employees@.len() - j,
        {
            push_employee(&mut out, &self.employees[j]);
            j = j + 1;
            assert(self.employees@.subrange(0, j as int).drop_last() =~= self.employees@.subrange(
                0,
                j - 1,
            ));
            assert(out@ =~= head + employees_text(self.employees@.subrange(0, j as int)));
        }
        out.append("\n");
        assert(self.employees@.subrange(0, j as int) =~= self.employees@);
        assert(out@ =~= schedule_text(*self));
        out
    }
}

} // verus!
