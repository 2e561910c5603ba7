//! The text record of one day, and its framing for delivery.

use crate::date::Date;
use crate::day::{Day, DayStatus, Timestamp};
use vstd::prelude::*;
use vstd::string::StringSliceAdditionalSpecFns;

verus! {

pub open spec fn digit_char(n: int) -> char {
    if n == 0 {
        '0'
    } else if n == 1 {
        '1'
    } else if n == 2 {
        '2'
    } else if n == 3 {
        '3'
    } else if n == 4 {
        '4'
    } else if n == 5 {
        '5'
    } else if n == 6 {
        '6'
    } else if n == 7 {
        '7'
    } else if n == 8 {
        '8'
    } else {
        '9'
    }
}

/// `n` in two decimal digits, zero-padded.
pub open spec fn two_digits(n: int) -> Seq<char> {
    seq![digit_char(n / 10), digit_char(n % 10)]
}

/// `n` in four decimal digits, zero-padded.
pub open spec fn four_digits(n: int) -> Seq<char> {
    seq![digit_char(n / 1000), digit_char((n / 100) % 10), digit_char((n / 10) % 10), digit_char(n % 10)]
}

/// The ISO 8601 form of a date: `YYYY-MM-DD`.
pub open spec fn iso_date(d: Date) -> Seq<char> {
    four_digits(d.year as int) + seq!['-'] + two_digits(d.month as int) + seq!['-'] + two_digits(
        d.day as int,
    )
}

/// The ISO 8601 form of a timestamp: `YYYY-MM-DDTHH:MM:SS`.
pub open spec fn iso_timestamp(t: Timestamp) -> Seq<char> {
    iso_date(t.date) + seq!['T'] + two_digits(t.hour as int) + seq![':'] + two_digits(
        t.minute as int,
    ) + seq![':'] + two_digits(t.second as int)
}

/// The JSON value of a status: a string naming it, or `{"Work":"<timestamp>"}`.
pub open spec fn status_text(st: DayStatus) -> Seq<char> {
    match st {
        DayStatus::Off => "\"Off\""@,
        DayStatus::Vacation => "\"Vacation\""@,
        DayStatus::ADay => "\"ADay\""@,
        DayStatus::Work(t) => "{\"Work\":\""@ + iso_timestamp(t) + "\"}"@,
        DayStatus::Undefined => "\"Undefined\""@,
    }
}

/// The JSON record of a day: `{"date":"<date>","day_type":<status>}`.
pub open spec fn record_text(d: Day) -> Seq<char> {
    "{\"date\":\""@ + iso_date(d.date) + "\",\"day_type\":"@ + status_text(d.status) + "}"@
}

pub(crate) fn digit_text(n: u32) -> (r: &'static str)
    requires
        n < 10,
    ensures
        r@ == seq![digit_char(n as int)],
{
    if n == 0 {
        proof {
            reveal_strlit("0");
        }
        "0"
    } else if n == 1 {
        proof {
            reveal_strlit("1");
        }
        "1"
    } else if n == 2 {
        proof {
            reveal_strlit("2");
        }
        "2"
    } else if n == 3 {
        proof {
            reveal_strlit("3");
        }
        "3"
    } else if n == 4 {
        proof {
            reveal_strlit("4");
        }
        "4"
    } else if n == 5 {
        proof {
            reveal_strlit("5");
        }
        "5"
    } else if n == 6 {
        proof {
            reveal_strlit("6");
        }
        "6"
    } else if n == 7 {
        proof {
            reveal_strlit("7");
        }
        "7"
    } else if n == 8 {
        proof {
            reveal_strlit("8");
        }
        "8"
    } else {
        proof {
            reveal_strlit("9");
        }
        "9"
    }
}

fn push_two_digits(out: &mut String, n: u32)
    requires
        n < 100,
    ensures
        final(out)@ == old(out)@ + two_digits(n as int),
{
    out.append(digit_text(n / 10));
    out.append(digit_text(n % 10));
    assert(final(out)@ =~= old(out)@ + two_digits(n as int));
}

fn push_four_digits(out: &mut String, n: u32)
    requires
        n < 10000,
    ensures
        final(out)@ == old(out)@ + four_digits(n as int),
{
    out.append(digit_text(n / 1000));
    out.append(digit_text((n / 100) % 10));
    out.append(digit_text((n / 10) % 10));
    out.append(digit_text(n % 10));
    assert(final(out)@ =~= old(out)@ + four_digits(n as int));
}

pub(crate) fn push_date(out: &mut String, d: &Date)
    requires
        d.wf(),
    ensures
        final(out)@ == old(out)@ + iso_date(*d),
{
    let ghost start = out@;
    push_four_digits(out, d.year as u32);
    out.append("-");
    push_two_digits(out, d.month);
    out.append("-");
    push_two_digits(out, d.day);
    proof {
        reveal_strlit("-");
        assert(out@ =~= start + iso_date(*d));
    }
}

fn push_status(out: &mut String, st: &DayStatus)
    requires
        st.wf(),
    ensures
        final(out)@ == old(out)@ + status_text(*st),
{
    let ghost start = out@;
    match st {
        DayStatus::Off => out.append("\"Off\""),
        DayStatus::Vacation => out.append("\"Vacation\""),
        DayStatus::ADay => out.append("\"ADay\""),
        DayStatus::Undefined => out.append("\"Undefined\""),
        DayStatus::Work(t) => {
            out.append("{\"Work\":\"");
            push_date(out, &t.date);
            out.append("T");
            push_two_digits(out, t.hour);
            out.append(":");
            push_two_digits(out, t.minute);
            out.append(":");
            push_two_digits(out, t.second);
            out.append("\"}");
            proof {
                reveal_strlit("T");
                reveal_strlit(":");
                assert(out@ =~= start + status_text(*st));
            }
        },
    }
}

impl Day {
    /// The JSON record of this day.
    pub fn to_record(&self) -> (r: String)
        requires
            self.wf(),
        ensures
            r@ == record_text(*self),
    {
        let mut out = String::new();
        out.append("{\"date\":\"");
        push_date(&mut out, &self.date);
        out.append("\",\"day_type\":");
        push_status(&mut out, &self.status);
        out.append("}");
        assert(out@ =~= record_text(*self));
        out
    }
}

/// The bytes that carry a record: its length in two bytes, little-endian,
/// then its UTF-8 bytes. `None` where the record is longer than two bytes
/// can count.
pub fn frame_record(text: &str) -> (r: Option<Vec<u8>>)
    ensures
        r is Some <==> text.spec_bytes().len() < 65536,
        r matches Some(v) ==> v@ == seq![
            (text.spec_bytes().len() % 256) as u8,
            (text.spec_bytes().len() / 256) as u8,
        ] + text.spec_bytes(),
{
    let bytes = text.as_bytes();
    let n = bytes.len();
    if n >= 65536 {
        return None;
    }
    let mut out: Vec<u8> = Vec::new();
    out.push((n % 256) as u8);
    out.push((n / 256) as u8);
    let mut i: usize = 0;
    while i < n
        invariant
            n == bytes@.len(),
            bytes@ == text.spec_bytes(),
            i <= n,
            out@ == seq![(n % 256) as u8, (n / 256) as u8] + bytes@.subrange(0, i as int),
        decreases n - i,
    {
        out.push(bytes[i]);
        i = i + 1;
        assert(out@ =~= seq![(n % 256) as u8, (n / 256) as u8] + bytes@.subrange(0, i as int));
    }
    assert(bytes@.subrange(0, n as int) =~= bytes@);
    Some(out)
}

/// The readable label of a status; a working day shows its start as
/// `YYYY-MM-DD HH:MM`.
pub open spec fn status_label(st: DayStatus) -> Seq<char> {
    match st {
        DayStatus::Off => "Off"@,
        DayStatus::Vacation => "Vacation"@,
        DayStatus::ADay => "A Day"@,
        DayStatus::Work(t) => "Work - "@ + iso_date(t.date) + seq![' '] + two_digits(t.hour as int)
            + seq![':'] + two_digits(t.minute as int),
        DayStatus::Undefined => "Undefined"@,
    }
}

/// The readable line of a day: `YYYY-MM-DD - <label>`.
pub open spec fn day_label(d: Day) -> Seq<char> {
    iso_date(d.date) + " - "@ + status_label(d.status)
}

pub(crate) fn push_label(out: &mut String, st: &DayStatus)
    requires
        st.wf(),
    ensures
        final(out)@ == old(out)@ + status_label(*st),
{
    let ghost start = out@;
    match st {
        DayStatus::Off => out.append("Off"),
        DayStatus::Vacation => out.append("Vacation"),
        DayStatus::ADay => out.append("A Day"),
        DayStatus::Undefined => out.append("Undefined"),
        DayStatus::Work(t) => {
            out.append("Work - ");
            push_date(out, &t.date);
            out.append(" ");
            push_two_digits(out, t.hour);
            out.append(":");
            push_two_digits(out, t.minute);
            proof {
                reveal_strlit(" ");
                reveal_strlit(":");
                assert(out@ =~= start + status_label(*st));
            }
        },
    }
}

impl DayStatus {
    /// The readable label of this status.
    pub fn to_text(&self) -> (r: String)
        requires
            self.wf(),
        ensures
            r@ == status_label(*self),
    {
        let mut out = String::new();
        push_label(&mut out, self);
        assert(out@ =~= status_label(*self));
        out
    }
}

impl Day {
    /// The readable line of this day.
    pub fn to_text(&self) -> (r: String)
        requires
            self.wf(),
        ensures
            r@ == day_label(*self),
    {
        let mut out = String::new();
        push_date(&mut out, &self.date);
        out.append(" - ");
        push_label(&mut out, &self.status);
        assert(out@ =~= day_label(*self));
        out
    }
}

/// The value of a decimal digit.
pub open spec fn digit_value(c: char) -> Option<int> {
    if '0' <= c && c <= '9' {
        Some(c as int - '0' as int)
    } else {
        None
    }
}

/// The number that a run of decimal digits spells (zero for no digits).
pub open spec fn read_number(s: Seq<char>) -> Option<int>
    decreases s.len(),
{
    if s.len() == 0 {
        Some(0)
    } else {
        match (read_number(s.drop_last()), digit_value(s.last())) {
            (Some(a), Some(b)) => Some(10 * a + b),
            _ => None,
        }
    }
}

/// The date that `YYYY-MM-DD` names, where it is a valid date.
pub open spec fn read_date(s: Seq<char>) -> Option<Date> {
    if s.len() == 10 && s[4] == '-' && s[7] == '-' {
        match (
            read_number(s.subrange(0, 4)),
            read_number(s.subrange(5, 7)),
            read_number(s.subrange(8, 10)),
        ) {
            (Some(y), Some(m), Some(d)) => {
                let date = Date { year: y as i32, month: m as u32, day: d as u32 };
                if date.wf() {
                    Some(date)
                } else {
                    None
                }
            },
            _ => None,
        }
    } else {
        None
    }
}

/// The timestamp that `YYYY-MM-DDTHH:MM:SS` names, where it is valid.
pub open spec fn read_timestamp(s: Seq<char>) -> Option<Timestamp> {
    if s.len() == 19 && s[10] == 'T' && s[13] == ':' && s[16] == ':' {
        match (
            read_date(s.subrange(0, 10)),
            read_number(s.subrange(11, 13)),
            read_number(s.subrange(14, 16)),
            read_number(s.subrange(17, 19)),
        ) {
            (Some(date), Some(h), Some(m), Some(sec)) => {
                let t = Timestamp { date, hour: h as u32, minute: m as u32, second: sec as u32 };
                if t.wf() {
                    Some(t)
                } else {
                    None
                }
            },
            _ => None,
        }
    } else {
        None
    }
}

/// The status a JSON value names, as `status_text` writes it.
pub open spec fn read_status(s: Seq<char>) -> Option<DayStatus> {
    if s == "\"Off\""@ {
        Some(DayStatus::Off)
    } else if s == "\"Vacation\""@ {
        Some(DayStatus::Vacation)
    } else if s == "\"ADay\""@ {
        Some(DayStatus::ADay)
    } else if s == "\"Undefined\""@ {
        Some(DayStatus::Undefined)
    } else if s.len() == 30 && s.subrange(0, 9) == "{\"Work\":\""@ && s.subrange(28, 30)
        == "\"}"@ {
        match read_timestamp(s.subrange(9, 28)) {
            Some(t) => Some(DayStatus::Work(t)),
            None => None,
        }
    } else {
        None
    }
}

/// The day a record names, as `record_text` writes it.
pub open spec fn read_record(s: Seq<char>) -> Option<Day> {
    if s.len() >= 33 && s.subrange(0, 9) == "{\"date\":\""@ && s.subrange(19, 32)
        == "\",\"day_type\":"@ && s.last() == '}' {
        match (read_date(s.subrange(9, 19)), read_status(s.subrange(32, s.len() - 1))) {
            (Some(date), Some(status)) => Some(Day { date, status }),
            _ => None,
        }
    } else {
        None
    }
}

proof fn lemma_read_digit(n: int)
    requires
        0 <= n < 10,
    ensures
        digit_value(digit_char(n)) == Some(n),
{
}

proof fn lemma_read_two_digits(n: int)
    requires
        0 <= n < 100,
    ensures
        read_number(two_digits(n)) == Some(n),
{
    let s = two_digits(n);
    lemma_read_digit(n / 10);
    lemma_read_digit(n % 10);
    assert(s.drop_last().drop_last() =~= Seq::<char>::empty());
    assert(s.drop_last() =~= seq![digit_char(n / 10)]);
    assert(s.drop_last().last() == digit_char(n / 10));
    assert(read_number(s.drop_last().drop_last()) == Some(0int));
    assert(read_number(s.drop_last()) == Some(n / 10));
    assert(10 * (n / 10) + n % 10 == n);
}

proof fn lemma_read_four_digits(n: int)
    requires
        0 <= n < 10000,
    ensures
        read_number(four_digits(n)) == Some(n),
{
    let s = four_digits(n);
    lemma_read_digit(n / 1000);
    lemma_read_digit((n / 100) % 10);
    lemma_read_digit((n / 10) % 10);
    lemma_read_digit(n % 10);
    assert(s.drop_last().drop_last().drop_last().drop_last() =~= Seq::<char>::empty());
    assert(s.drop_last().drop_last().drop_last() =~= seq![digit_char(n / 1000)]);
    assert(s.drop_last().drop_last() =~= seq![digit_char(n / 1000), digit_char((n / 100) % 10)]);
    assert(s.drop_last() =~= seq![
        digit_char(n / 1000),
        digit_char((n / 100) % 10),
        digit_char((n / 10) % 10),
    ]);
    let s1 = s.drop_last().drop_last().drop_last();
    let s2 = s.drop_last().drop_last();
    let s3 = s.drop_last();
    assert(read_number(s1.drop_last()) == Some(0int));
    assert(s1.last() == digit_char(n / 1000));
    assert(read_number(s1) == Some(n / 1000));
    assert(s2.drop_last() == s1);
    assert(s2.last() == digit_char((n / 100) % 10));
    assert(read_number(s2) == Some(10 * (n / 1000) + (n / 100) % 10));
    assert(10 * (n / 1000) + (n / 100) % 10 == n / 100);
    assert(s3.drop_last() == s2);
    assert(s3.last() == digit_char((n / 10) % 10));
    assert(read_number(s3) == Some(10 * (n / 100) + (n / 10) % 10));
    assert(10 * (n / 100) + (n / 10) % 10 == n / 10);
    assert(s.drop_last() == s3);
    assert(10 * (n / 10) + n % 10 == n);
}

proof fn lemma_read_iso_date(d: Date)
    requires
        d.wf(),
    ensures
        read_date(iso_date(d)) == Some(d),
{
    let s = iso_date(d);
    lemma_read_four_digits(d.year as int);
    lemma_read_two_digits(d.month as int);
    lemma_read_two_digits(d.day as int);
    assert(s.subrange(0, 4) =~= four_digits(d.year as int));
    assert(s.subrange(5, 7) =~= two_digits(d.month as int));
    assert(s.subrange(8, 10) =~= two_digits(d.day as int));
}

#[verifier::rlimit(40)]
proof fn lemma_read_iso_timestamp(t: Timestamp)
    requires
        t.wf(),
    ensures
        read_timestamp(iso_timestamp(t)) == Some(t),
{
    let s = iso_timestamp(t);
    lemma_read_iso_date(t.date);
    lemma_read_two_digits(t.hour as int);
    lemma_read_two_digits(t.minute as int);
    lemma_read_two_digits(t.second as int);
    assert(s.subrange(0, 10) =~= iso_date(t.date));
    assert(s.subrange(11, 13) =~= two_digits(t.hour as int));
    assert(s.subrange(14, 16) =~= two_digits(t.minute as int));
    assert(s.subrange(17, 19) =~= two_digits(t.second as int));
}

proof fn lemma_read_status(st: DayStatus)
    requires
        st.wf(),
    ensures
        read_status(status_text(st)) == Some(st),
{
    reveal_strlit("\"Off\"");
    reveal_strlit("\"Vacation\"");
    reveal_strlit("\"ADay\"");
    reveal_strlit("\"Undefined\"");
    reveal_strlit("{\"Work\":\"");
    reveal_strlit("\"}");
    let s = status_text(st);
    match st {
        DayStatus::Work(t) => {
            lemma_read_iso_timestamp(t);
            assert(s.subrange(0, 9) =~= "{\"Work\":\""@);
            assert(s.subrange(9, 28) =~= iso_timestamp(t));
            assert(s.subrange(28, 30) =~= "\"}"@);
            assert(s != "\"Off\""@);
            assert(s != "\"Vacation\""@);
            assert(s != "\"ADay\""@);
            assert(s != "\"Undefined\""@);
        },
        DayStatus::Off => {},
        DayStatus::Vacation => {
            assert(s != "\"Off\""@);
        },
        DayStatus::ADay => {
            assert(s != "\"Off\""@);
            assert(s != "\"Vacation\""@);
        },
        DayStatus::Undefined => {
            assert(s != "\"Off\""@);
            assert(s != "\"Vacation\""@);
            assert(s != "\"ADay\""@);
        },
    }
}

fn chars_of(s: &str) -> (r: Vec<char>)
    ensures
        r@ == s@,
{
    let n = s.unicode_len();
    let mut out: Vec<char> = Vec::new();
    let mut i: usize = 0;
    while i < n
        invariant
            n == s@.len(),
            i <= n,
            out@ == s@.subrange(0, i as int),
        decreases n - i,
    {
        out.push(s.get_char(i));
        i = i + 1;
        assert(out@ =~= s@.subrange(0, i as int));
    }
    assert(out@ =~= s@);
    out
}

/// Whether `v[from..to]` holds exactly the characters of `lit`.
fn text_is(v: &Vec<char>, from: usize, to: usize, lit: &str) -> (r: bool)
    requires
        from <= to <= v@.len(),
    ensures
        r == (v@.subrange(from as int, to as int) == lit@),
{
    let n = lit.unicode_len();
    if to - from != n {
        return false;
    }
    let mut i: usize = 0;
    while i < n
        invariant
            n == lit@.len(),
            to - from == n,
            from <= to <= v@.len(),
            i <= n,
            v@.subrange(from as int, from + i) == lit@.subrange(0, i as int),
        decreases n - i,
    {
        if v[from + i] != lit.get_char(i) {
            assert(v@.subrange(from as int, to as int)[i as int] != lit@[i as int]);
            return false;
        }
        i = i + 1;
        assert(v@.subrange(from as int, from + i) =~= lit@.subrange(0, i as int));
    }
    assert(v@.subrange(from as int, to as int) =~= lit@);
    true
}

/// The number the digits `v[from..to]` spell.
fn number_in(v: &Vec<char>, from: usize, to: usize) -> (r: Option<u32>)
    requires
        from <= to <= v@.len(),
        to - from <= 4,
    ensures
        r matches Some(x) ==> read_number(v@.subrange(from as int, to as int)) == Some(x as int),
        r is None ==> read_number(v@.subrange(from as int, to as int)) is None,
{
    let mut acc: u32 = 0;
    let mut i: usize = from;
    assert(v@.subrange(from as int, from as int) =~= Seq::<char>::empty());
    while i < to
        invariant
            from <= i <= to <= v@.len(),
            to - from <= 4,
            read_number(v@.subrange(from as int, i as int)) == Some(acc as int),
            acc < 10000,
            i - from <= 3 ==> acc < 1000,
            i - from <= 2 ==> acc < 100,
            i - from <= 1 ==> acc < 10,
            i - from == 0 ==> acc == 0,
        decreases to - i,
    {
        let c = v[i];
        assert(v@.subrange(from as int, i + 1).drop_last() =~= v@.subrange(from as int, i as int));
        if c < '0' || c > '9' {
            proof {
                lemma_read_number_prefix(v@.subrange(from as int, to as int), i + 1 - from);
                assert(v@.subrange(from as int, to as int).subrange(0, i + 1 - from) =~= v@.subrange(
                    from as int,
                    i + 1,
                ));
            }
            return None;
        }
        acc = 10 * acc + (c as u32 - '0' as u32);
        i = i + 1;
    }
    Some(acc)
}

proof fn lemma_read_number_prefix(s: Seq<char>, k: int)
    requires
        0 <= k <= s.len(),
        read_number(s.subrange(0, k)) is None,
    ensures
        read_number(s) is None,
    decreases s.len() - k,
{
    if k < s.len() {
        assert(s.subrange(0, k + 1).drop_last() =~= s.subrange(0, k));
        lemma_read_number_prefix(s, k + 1);
    } else {
        assert(s.subrange(0, k) =~= s);
    }
}

/// The date `v[from..from + 10]` names.
fn date_in(v: &Vec<char>, from: usize) -> (r: Option<Date>)
    requires
        from + 10 <= v@.len(),
    ensures
        r == read_date(v@.subrange(from as int, from + 10)),
{
    let ghost s = v@.subrange(from as int, from + 10);
    let n = v.len();
    assert(from + 10 <= n);
    if v[from + 4] != '-' || v[from + 7] != '-' {
        return None;
    }
    assert(s.subrange(0, 4) =~= v@.subrange(from as int, from + 4));
    assert(s.subrange(5, 7) =~= v@.subrange(from + 5, from + 7));
    assert(s.subrange(8, 10) =~= v@.subrange(from + 8, from + 10));
    let y = match number_in(v, from, from + 4) {
        Some(x) => x,
        None => return None,
    };
    let m = match number_in(v, from + 5, from + 7) {
        Some(x) => x,
        None => return None,
    };
    let d = match number_in(v, from + 8, from + 10) {
        Some(x) => x,
        None => return None,
    };
    proof {
        lemma_read_number_bound(v@.subrange(from as int, from + 4));
    }
    Date::new(y as i32, m, d)
}

proof fn lemma_read_number_bound(s: Seq<char>)
    requires
        s.len() == 4,
        read_number(s) is Some,
    ensures
        0 <= read_number(s)->0 < 10000,
{
    reveal_with_fuel(read_number, 5);
}

/// The timestamp `v[from..from + 19]` names.
fn timestamp_in(v: &Vec<char>, from: usize) -> (r: Option<Timestamp>)
    requires
        from + 19 <= v@.len(),
    ensures
        r == read_timestamp(v@.subrange(from as int, from + 19)),
{
    let ghost s = v@.subrange(from as int, from + 19);
    let n = v.len();
    assert(from + 19 <= n);
    if v[from + 10] != 'T' || v[from + 13] != ':' || v[from + 16] != ':' {
        return None;
    }
    assert(s.subrange(0, 10) =~= v@.subrange(from as int, from + 10));
    assert(s.subrange(11, 13) =~= v@.subrange(from + 11, from + 13));
    assert(s.subrange(14, 16) =~= v@.subrange(from + 14, from + 16));
    assert(s.subrange(17, 19) =~= v@.subrange(from + 17, from + 19));
    let date = match date_in(v, from) {
        Some(x) => x,
        None => return None,
    };
    let h = match number_in(v, from + 11, from + 13) {
        Some(x) => x,
        None => return None,
    };
    let m = match number_in(v, from + 14, from + 16) {
        Some(x) => x,
        None => return None,
    };
    let sec = match number_in(v, from + 17, from + 19) {
        Some(x) => x,
        None => return None,
    };
    if h < 24 && m < 60 && sec < 60 {
        Some(Timestamp { date, hour: h, minute: m, second: sec })
    } else {
        None
    }
}

/// The status `v[from..to]` names.
fn status_in(v: &Vec<char>, from: usize, to: usize) -> (r: Option<DayStatus>)
    requires
        from <= to <= v@.len(),
    ensures
        r == read_status(v@.subrange(from as int, to as int)),
{
    let ghost s = v@.subrange(from as int, to as int);
    if text_is(v, from, to, "\"Off\"") {
        Some(DayStatus::Off)
    } else if text_is(v, from, to, "\"Vacation\"") {
        Some(DayStatus::Vacation)
    } else if text_is(v, from, to, "\"ADay\"") {
        Some(DayStatus::ADay)
    } else if text_is(v, from, to, "\"Undefined\"") {
        Some(DayStatus::Undefined)
    } else if to - from == 30 && text_is(v, from, from + 9, "{\"Work\":\"") && text_is(
        v,
        from + 28,
        to,
        "\"}",
    ) {
        assert(s.subrange(0, 9) =~= v@.subrange(from as int, from + 9));
        assert(s.subrange(28, 30) =~= v@.subrange(from + 28, to as int));
        assert(s.subrange(9, 28) =~= v@.subrange(from + 9, from + 28));
        match timestamp_in(v, from + 9) {
            Some(t) => Some(DayStatus::Work(t)),
            None => None,
        }
    } else {
        proof {
            if s.len() == 30 {
                assert(s.subrange(0, 9) =~= v@.subrange(from as int, from + 9));
                assert(s.subrange(28, 30) =~= v@.subrange(from + 28, to as int));
            }
        }
        None
    }
}

impl Day {
    /// The day a record names, or `None` where the text is no record as
    /// `to_record` writes them.
    pub fn from_record(text: &str) -> (r: Option<Day>)
        ensures
            r == read_record(text@),
    {
        let v = chars_of(text);
        let n = v.len();
        if n < 33 || v[n - 1] != '}' {
            return None;
        }
        if !text_is(&v, 0, 9, "{\"date\":\"") || !text_is(&v, 19, 32, "\",\"day_type\":") {
            return None;
        }
        let date = match date_in(&v, 9) {
            Some(d) => d,
            None => return None,
        };
        match status_in(&v, 32, n - 1) {
            Some(status) => Some(Day { date, status }),
            None => None,
        }
    }
}

/// Reading back the record of a valid day gives that day: the same date and
/// the same status, with the same start time for a working day.
pub proof fn lemma_record_round_trip(d: Day)
    requires
        d.wf(),
    ensures
        read_record(record_text(d)) == Some(d),
{
    reveal_strlit("{\"date\":\"");
    reveal_strlit("\",\"day_type\":");
    reveal_strlit("}");
    let s = record_text(d);
    lemma_read_iso_date(d.date);
    lemma_read_status(d.status);
    assert(s.subrange(0, 9) =~= "{\"date\":\""@);
    assert(s.subrange(9, 19) =~= iso_date(d.date));
    assert(s.subrange(19, 32) =~= "\",\"day_type\":"@);
    assert(s.subrange(32, s.len() - 1) =~= status_text(d.status));
}

} // verus!
