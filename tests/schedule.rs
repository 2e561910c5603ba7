use schedule_reader::config::Config;
use schedule_reader::date::Date;
use schedule_reader::day::{classify, status_of_code, Day, DayStatus, Timestamp};
use schedule_reader::grid::{Cell, Grid};
use schedule_reader::process_schedule;
use schedule_reader::record::frame_record;
use schedule_reader::schedule::{find_employees, same_text, Schedule, ScheduleError, ScheduleRange};

fn date(y: i32, m: u32, d: u32) -> Date {
    Date::new(y, m, d).unwrap()
}

fn work(d: Date, hour: u32) -> DayStatus {
    DayStatus::Work(Timestamp { date: d, hour, minute: 0, second: 0 })
}

fn text(s: &str) -> Cell {
    Cell::Text(s.to_string())
}

fn sample_grid() -> Grid {
    Grid::new(vec![
        vec![Cell::Date(date(2022, 2, 1))],
        vec![Cell::Date(date(2022, 2, 3))],
        vec![text("JENNY"), Cell::Int(9), text("V"), Cell::Empty],
        vec![Cell::Empty],
        vec![text("TOM"), text("SC"), Cell::Float(14), text("Q")],
    ])
}

#[test]
fn classify_integer_hour() {
    let d = date(2022, 2, 19);
    assert_eq!(classify(&Cell::Int(9), d), Some(work(d, 9)));
}

#[test]
fn classify_float_truncates() {
    let d = date(2022, 2, 19);
    // 14.5 is held as its whole part
    assert_eq!(classify(&Cell::Float(14), d), Some(work(d, 14)));
}

#[test]
fn classify_codes() {
    let d = date(2022, 2, 19);
    assert_eq!(classify(&text("V"), d), Some(DayStatus::Vacation));
    assert_eq!(classify(&text("A"), d), Some(DayStatus::ADay));
    assert_eq!(classify(&text("X"), d), Some(DayStatus::Off));
    assert_eq!(classify(&text("M"), d), Some(DayStatus::Off));
    assert_eq!(classify(&text("SC"), d), Some(work(d, 12)));
    assert_eq!(classify(&text("B"), d), Some(work(d, 12)));
    assert_eq!(classify(&text("C"), d), Some(work(d, 12)));
    assert_eq!(classify(&text("R"), d), Some(work(d, 12)));
    assert_eq!(classify(&text("Q"), d), Some(DayStatus::Undefined));
    assert_eq!(classify(&text("v"), d), Some(DayStatus::Undefined));
    assert_eq!(classify(&text("SCX"), d), Some(DayStatus::Undefined));
    assert_eq!(classify(&text(""), d), Some(DayStatus::Undefined));
}

#[test]
fn classify_empty_and_other_cells() {
    let d = date(2022, 2, 19);
    assert_eq!(classify(&Cell::Empty, d), Some(DayStatus::Off));
    assert_eq!(classify(&Cell::Other, d), None);
    assert_eq!(classify(&Cell::Date(d), d), None);
}

#[test]
fn classify_hour_out_of_day_is_undefined() {
    let d = date(2022, 2, 19);
    assert_eq!(classify(&Cell::Int(24), d), Some(DayStatus::Undefined));
    assert_eq!(classify(&Cell::Int(-1), d), Some(DayStatus::Undefined));
    assert_eq!(classify(&Cell::Int(0), d), Some(work(d, 0)));
    assert_eq!(classify(&Cell::Float(23), d), Some(work(d, 23)));
}

#[test]
fn classify_twice_gives_same_status() {
    let d = date(2022, 2, 19);
    for c in [Cell::Int(7), text("SC"), text("Q"), Cell::Empty, Cell::Other] {
        assert_eq!(classify(&c, d), classify(&c, d));
    }
    assert_eq!(status_of_code("A", d), status_of_code("A", d));
}

#[test]
fn date_validation() {
    assert!(Date::new(2024, 2, 29).is_some());
    assert!(Date::new(2023, 2, 29).is_none());
    assert!(Date::new(1900, 2, 29).is_none());
    assert!(Date::new(2000, 2, 29).is_some());
    assert!(Date::new(2022, 4, 31).is_none());
    assert!(Date::new(2022, 13, 1).is_none());
    assert!(Date::new(2022, 0, 1).is_none());
    assert!(Date::new(10000, 1, 1).is_none());
    assert!(Date::new(9999, 12, 31).is_some());
}

#[test]
fn duration_counts_both_ends() {
    let r = ScheduleRange::new(date(2022, 2, 1), date(2022, 2, 3)).unwrap();
    assert_eq!(r.duration(), 3);
    let one = ScheduleRange::new(date(2022, 2, 1), date(2022, 2, 1)).unwrap();
    assert_eq!(one.duration(), 1);
    let leap = ScheduleRange::new(date(2024, 2, 28), date(2024, 3, 1)).unwrap();
    assert_eq!(leap.duration(), 3);
    let year = ScheduleRange::new(date(2021, 12, 31), date(2022, 12, 31)).unwrap();
    assert_eq!(year.duration(), 366);
}

#[test]
fn inverted_range_is_refused() {
    assert_eq!(
        ScheduleRange::new(date(2022, 2, 3), date(2022, 2, 1)).unwrap_err(),
        ScheduleError::InvertedScheduleBounds
    );
}

#[test]
fn extractor_scenario() {
    let g = sample_grid();
    let s = Schedule::extract(&g).unwrap();
    assert_eq!(s.range.duration(), 3);
    assert_eq!(s.employees.len(), 2);
    assert_eq!(s.employees[0].name, "JENNY");
    assert_eq!(s.employees[0].location, (2, 0));
    assert_eq!(s.employees[1].name, "TOM");
    assert_eq!(s.employees[1].location, (4, 0));
    let jenny: Vec<Day> = s.employees[0].days.clone();
    assert_eq!(
        jenny,
        vec![
            Day { date: date(2022, 2, 1), status: work(date(2022, 2, 1), 9) },
            Day { date: date(2022, 2, 2), status: DayStatus::Vacation },
            Day { date: date(2022, 2, 3), status: DayStatus::Off },
        ]
    );
    let tom: Vec<Day> = s.employees[1].days.clone();
    assert_eq!(
        tom,
        vec![
            Day { date: date(2022, 2, 1), status: work(date(2022, 2, 1), 12) },
            Day { date: date(2022, 2, 2), status: work(date(2022, 2, 2), 14) },
            Day { date: date(2022, 2, 3), status: DayStatus::Undefined },
        ]
    );
}

#[test]
fn non_string_rows_are_not_employees() {
    let g = Grid::new(vec![
        vec![Cell::Date(date(2022, 2, 1))],
        vec![Cell::Date(date(2022, 2, 3))],
        vec![Cell::Int(5), Cell::Int(9)],
        vec![Cell::Float(3)],
        vec![Cell::Date(date(2022, 2, 2))],
        vec![Cell::Other],
        vec![],
        vec![text("ANA")],
    ]);
    let found = find_employees(&g);
    assert_eq!(found.len(), 1);
    assert_eq!(found[0].name, "ANA");
    assert_eq!(found[0].location, (7, 0));
}

#[test]
fn duplicate_names_are_kept() {
    let g = Grid::new(vec![
        vec![Cell::Date(date(2022, 2, 1))],
        vec![Cell::Date(date(2022, 2, 1))],
        vec![text("SAM"), Cell::Int(8)],
        vec![text("SAM"), text("V")],
    ]);
    let s = Schedule::extract(&g).unwrap();
    assert_eq!(s.employees.len(), 2);
    assert_eq!(s.employees[0].days[0].status, work(date(2022, 2, 1), 8));
    assert_eq!(s.employees[1].days[0].status, DayStatus::Vacation);
}

#[test]
fn missing_cells_leave_gaps() {
    let g = Grid::new(vec![
        vec![Cell::Date(date(2022, 2, 1))],
        vec![Cell::Date(date(2022, 2, 4))],
        vec![text("JENNY"), Cell::Other, Cell::Int(10)],
    ]);
    let s = Schedule::extract(&g).unwrap();
    let days: Vec<Day> = s.employees[0].days.clone();
    assert_eq!(days, vec![Day { date: date(2022, 2, 2), status: work(date(2022, 2, 2), 10) }]);
}

#[test]
fn full_row_follows_the_dates_over_year_end() {
    let g = Grid::new(vec![
        vec![Cell::Date(date(2021, 12, 30))],
        vec![Cell::Date(date(2022, 1, 2))],
        vec![text("JENNY"), Cell::Empty, text("X"), text("A"), Cell::Int(6)],
    ]);
    let s = Schedule::extract(&g).unwrap();
    let days = &s.employees[0].days;
    assert_eq!(days.len() as i64, s.range.duration());
    let dates: Vec<Date> = days.iter().map(|d| d.date).collect();
    assert_eq!(dates, vec![date(2021, 12, 30), date(2021, 12, 31), date(2022, 1, 1), date(2022, 1, 2)]);
}

#[test]
fn missing_bounds_are_refused() {
    let no_end = Grid::new(vec![vec![Cell::Date(date(2022, 2, 1))], vec![text("2022-02-03")]]);
    assert_eq!(Schedule::extract(&no_end).unwrap_err(), ScheduleError::MissingScheduleBounds);
    let empty = Grid::new(vec![]);
    assert_eq!(Schedule::extract(&empty).unwrap_err(), ScheduleError::MissingScheduleBounds);
    let bad = Grid::new(vec![
        vec![Cell::Date(Date { year: 2022, month: 2, day: 30 })],
        vec![Cell::Date(date(2022, 3, 3))],
    ]);
    assert_eq!(Schedule::extract(&bad).unwrap_err(), ScheduleError::MissingScheduleBounds);
    let inverted = Grid::new(vec![vec![Cell::Date(date(2022, 2, 3))], vec![Cell::Date(date(2022, 2, 1))]]);
    assert_eq!(Schedule::extract(&inverted).unwrap_err(), ScheduleError::InvertedScheduleBounds);
}

#[test]
fn record_of_work_day() {
    let d = date(2022, 2, 19);
    let day = Day { date: d, status: work(d, 14) };
    assert_eq!(day.to_record(), r#"{"date":"2022-02-19","day_type":{"Work":"2022-02-19T14:00:00"}}"#);
}

#[test]
fn records_of_other_statuses() {
    let d = date(2022, 2, 9);
    let cases = [
        (DayStatus::Off, r#"{"date":"2022-02-09","day_type":"Off"}"#),
        (DayStatus::Vacation, r#"{"date":"2022-02-09","day_type":"Vacation"}"#),
        (DayStatus::ADay, r#"{"date":"2022-02-09","day_type":"ADay"}"#),
        (DayStatus::Undefined, r#"{"date":"2022-02-09","day_type":"Undefined"}"#),
    ];
    for (status, want) in cases {
        assert_eq!(Day { date: d, status }.to_record(), want);
    }
}

#[test]
fn record_is_json_with_iso_fields() {
    let d = date(987, 3, 5);
    let day = Day { date: d, status: DayStatus::Work(Timestamp { date: d, hour: 7, minute: 5, second: 9 }) };
    let v: serde_json::Value = serde_json::from_str(&day.to_record()).unwrap();
    assert_eq!(v["date"], "0987-03-05");
    assert_eq!(v["day_type"]["Work"], "0987-03-05T07:05:09");
}

#[test]
fn employee_records_in_day_order() {
    let g = sample_grid();
    let s = Schedule::extract(&g).unwrap();
    let jenny = &s.employees[0];
    let recs = jenny.records();
    assert_eq!(recs.len(), 3);
    assert_eq!(recs[1], r#"{"date":"2022-02-02","day_type":"Vacation"}"#);
    assert_eq!(jenny.record(0), Some(recs[0].clone()));
    assert_eq!(jenny.record(3), None);
    // the day list is not used up
    assert_eq!(jenny.records(), recs);
}

#[test]
fn process_selects_by_name() {
    let g = sample_grid();
    let recs = process_schedule(&g, "JENNY").unwrap();
    assert_eq!(
        recs,
        vec![
            r#"{"date":"2022-02-01","day_type":{"Work":"2022-02-01T09:00:00"}}"#.to_string(),
            r#"{"date":"2022-02-02","day_type":"Vacation"}"#.to_string(),
            r#"{"date":"2022-02-03","day_type":"Off"}"#.to_string(),
        ]
    );
    assert!(process_schedule(&g, "NOBODY").unwrap().is_empty());
    assert!(process_schedule(&g, "jenny").unwrap().is_empty());
    let bad = Grid::new(vec![]);
    assert_eq!(process_schedule(&bad, "JENNY").unwrap_err(), ScheduleError::MissingScheduleBounds);
}

#[test]
fn same_text_compares_characters() {
    assert!(same_text("JENNY", "JENNY"));
    assert!(!same_text("JENNY", "JENN"));
    assert!(!same_text("JENNY", "JENNA"));
    assert!(same_text("", ""));
}

#[test]
fn frame_prefixes_little_endian_length() {
    let f = frame_record("abc").unwrap();
    assert_eq!(f, vec![3, 0, b'a', b'b', b'c']);
    let long = "x".repeat(300);
    let f = frame_record(&long).unwrap();
    assert_eq!(&f[0..2], &[44, 1]);
    assert_eq!(f.len(), 302);
    assert!(frame_record(&"y".repeat(65536)).is_none());
}

#[test]
fn config_takes_first_argument() {
    let args = vec!["prog".to_string(), "sheet.xlsx".to_string()];
    assert_eq!(Config::new(&args).unwrap().xls_path, "sheet.xlsx");
    let none = vec!["prog".to_string()];
    assert_eq!(Config::new(&none).unwrap_err(), "Need excel path to be provided.");
}

#[test]
fn record_round_trip() {
    let d = date(2022, 2, 19);
    let statuses = [
        DayStatus::Off,
        DayStatus::Vacation,
        DayStatus::ADay,
        DayStatus::Undefined,
        work(d, 14),
        DayStatus::Work(Timestamp { date: date(2021, 12, 31), hour: 23, minute: 59, second: 1 }),
    ];
    for status in statuses {
        let day = Day { date: d, status };
        assert_eq!(Day::from_record(&day.to_record()), Some(day));
    }
}

#[test]
fn malformed_records_are_refused() {
    let bad = [
        "",
        r#"{"date":"2022-02-19","day_type":"off"}"#,
        r#"{"date":"2022-02-30","day_type":"Off"}"#,
        r#"{"date":"2022/02/19","day_type":"Off"}"#,
        r#"{"date":"2022-02-19","day_type":{"Work":"2022-02-19T24:00:00"}}"#,
        r#"{"date":"2022-02-19","day_type":{"Work":"2022-02-19 14:00:00"}}"#,
        r#"{"date":"2022-02-19","day_type":"Off"} "#,
        r#"{"date":"2022-02-19", "day_type":"Off"}"#,
    ];
    for text in bad {
        assert_eq!(Day::from_record(text), None, "{}", text);
    }
    assert_eq!(
        Day::from_record(r#"{"date":"2022-02-19","day_type":{"Work":"2022-02-20T07:30:00"}}"#),
        Some(Day {
            date: date(2022, 2, 19),
            status: DayStatus::Work(Timestamp { date: date(2022, 2, 20), hour: 7, minute: 30, second: 0 }),
        })
    );
}

#[test]
fn readable_lines() {
    let d = date(2022, 2, 19);
    assert_eq!(DayStatus::ADay.to_text(), "A Day");
    assert_eq!(DayStatus::Off.to_text(), "Off");
    assert_eq!(work(d, 9).to_text(), "Work - 2022-02-19 09:00");
    assert_eq!(Day { date: d, status: DayStatus::Vacation }.to_text(), "2022-02-19 - Vacation");
    assert_eq!(Day { date: d, status: DayStatus::Undefined }.to_text(), "2022-02-19 - Undefined");
}

#[test]
fn employee_and_schedule_text() {
    let g = Grid::new(vec![
        vec![Cell::Date(date(2022, 2, 1))],
        vec![Cell::Date(date(2022, 2, 2))],
        vec![text("JENNY"), Cell::Int(9), text("V")],
    ]);
    let s = Schedule::extract(&g).unwrap();
    let jenny = "\nName: JENNY     \nLocation: [2 , 0 ] \n2022-02-01 - Work - 2022-02-01 09:00\n2022-02-02 - Vacation";
    assert_eq!(s.employees[0].to_text(), jenny);
    assert_eq!(
        s.to_text(),
        format!("start_date: 2022-02-01 end_date: 2022-02-02 duration: 2\nEmployees:\n{}\n", jenny)
    );
    let long = schedule_reader::schedule::Employee::new("MAXIMILIANA".to_string(), (123, 0));
    assert_eq!(long.to_text(), "\nName: MAXIMILIANA\nLocation: [123, 0 ] ");
}
