use gg::record::{
    create_event, day_from_line, parse_day_from_line, parse_event_from_line, parse_status_file,
    read_date, status_to_string, write_status, Date, Day, DayEvent, DayEventType, LogReader,
    StatusError, StatusFile,
};

fn date(year: i32, month: u32, day: u32) -> Date {
    Date { year, month, day }
}

fn event(typ: DayEventType, info: &str, repo: &str) -> DayEvent {
    DayEvent { typ, info: info.to_string(), repo: repo.to_string() }
}

#[test]
fn a_day_line_holds_a_date() {
    assert_eq!(parse_day_from_line("[2024-05-17]"), Ok(Some(date(2024, 5, 17))));
    assert_eq!(parse_day_from_line("[2024-05-17]  "), Ok(Some(date(2024, 5, 17))));
    assert_eq!(parse_day_from_line("[1999-12-31]\t"), Ok(Some(date(1999, 12, 31))));
    assert_eq!(parse_day_from_line("[2024-02-29]"), Ok(Some(date(2024, 2, 29))));
}

#[test]
fn a_line_without_bracket_is_no_day() {
    assert_eq!(parse_day_from_line("- did something"), Ok(None));
    assert_eq!(parse_day_from_line(""), Ok(None));
    assert_eq!(parse_day_from_line(" [2024-05-17]"), Ok(None));
    assert_eq!(parse_day_from_line("2024-05-17"), Ok(None));
}

#[test]
fn a_bracket_without_date_is_an_error() {
    assert_eq!(parse_day_from_line("[soon]"), Err(StatusError::UnreadableDay));
    assert_eq!(parse_day_from_line("["), Err(StatusError::UnreadableDay));
    assert_eq!(parse_day_from_line("[2023-02-29]"), Err(StatusError::UnreadableDay));
    assert_eq!(parse_day_from_line("[2024-13-01]"), Err(StatusError::UnreadableDay));
    assert_eq!(parse_day_from_line("[2024-05-17] x"), Err(StatusError::UnreadableDay));
}

#[test]
fn an_event_line_begins_with_a_dash() {
    assert_eq!(
        parse_event_from_line("- TODO: write tests"),
        Some(event(DayEventType::Todo, "write tests", ""))
    );
    assert_eq!(
        parse_event_from_line("- fixed the bug (repo)"),
        Some(event(DayEventType::Issue, "fixed the bug (repo)", ""))
    );
    assert_eq!(parse_event_from_line("- TODO:"), Some(event(DayEventType::Issue, "TODO:", "")));
    assert_eq!(parse_event_from_line("- "), Some(event(DayEventType::Issue, "", "")));
    assert_eq!(parse_event_from_line("-"), None);
    assert_eq!(parse_event_from_line("something"), None);
    assert_eq!(parse_event_from_line(" - indented"), None);
}

#[test]
fn an_event_is_made_of_its_parts() {
    assert_eq!(
        create_event("body".to_string(), true, "repo".to_string()),
        event(DayEventType::Todo, "body", "repo")
    );
    assert_eq!(
        create_event("body".to_string(), false, String::new()),
        event(DayEventType::Issue, "body", "")
    );
}

fn sample() -> StatusFile {
    StatusFile {
        days: vec![
            Day {
                day: date(2024, 5, 17),
                events: vec![
                    event(DayEventType::Issue, "Landed: a thing", "gg"),
                    event(DayEventType::Todo, "write more", ""),
                ],
            },
            Day { day: date(2024, 5, 6), events: vec![] },
            Day { day: date(987, 1, 2), events: vec![event(DayEventType::Issue, "old", "")] },
        ],
    }
}

#[test]
fn a_log_is_written_day_by_day() {
    assert_eq!(
        status_to_string(&sample()),
        "[2024-05-17]\n- Landed: a thing (gg)\n- TODO: write more\n\n[2024-05-06]\n\n[0987-01-02]\n- old\n\n"
    );
    assert_eq!(status_to_string(&StatusFile { days: vec![] }), "");
}

#[test]
fn dates_are_written_as_chrono_writes_them() {
    for (y, m, d) in [
        (2024, 5, 17),
        (1, 1, 1),
        (0, 1, 1),
        (999, 12, 31),
        (9999, 12, 31),
        (10000, 1, 1),
        (123456, 7, 8),
        (-1, 3, 4),
        (-44, 3, 15),
        (-12345, 10, 20),
    ] {
        let written =
            status_to_string(&StatusFile { days: vec![Day { day: date(y, m, d), events: vec![] }] });
        let expected = chrono::NaiveDate::from_ymd_opt(y, m, d).unwrap().format("%Y-%m-%d");
        assert_eq!(written, format!("[{}]\n\n", expected));
    }
}

#[test]
fn a_log_is_read_line_by_line() {
    let text = "[2024-05-17]\n- Landed: a thing (gg)\n- TODO: write more\n\n[2024-05-06]\n\n[0987-01-02]\n- old\nnot an event\n   \n";
    let read = parse_status_file(text).unwrap();
    assert_eq!(
        read,
        StatusFile {
            days: vec![
                Day {
                    day: date(2024, 5, 17),
                    events: vec![
                        event(DayEventType::Issue, "Landed: a thing (gg)", ""),
                        event(DayEventType::Todo, "write more", ""),
                    ],
                },
                Day { day: date(2024, 5, 6), events: vec![] },
                Day { day: date(987, 1, 2), events: vec![event(DayEventType::Issue, "old", "")] },
            ],
        }
    );
}

#[test]
fn a_log_without_day_has_one_day_without_date() {
    assert_eq!(
        parse_status_file(""),
        Ok(StatusFile { days: vec![Day { day: date(0, 1, 1), events: vec![] }] })
    );
    assert_eq!(
        parse_status_file("- stray\n"),
        Ok(StatusFile {
            days: vec![Day {
                day: date(0, 1, 1),
                events: vec![event(DayEventType::Issue, "stray", "")]
            }]
        })
    );
}

#[test]
fn a_log_with_windows_line_ends_is_read_too() {
    assert_eq!(
        parse_status_file("[2024-05-17]\r\n- one\r\n- two"),
        Ok(StatusFile {
            days: vec![Day {
                day: date(2024, 5, 17),
                events: vec![
                    event(DayEventType::Issue, "one", ""),
                    event(DayEventType::Issue, "two", "")
                ]
            }]
        })
    );
}

#[test]
fn a_log_with_an_unreadable_day_is_refused() {
    assert_eq!(parse_status_file("[2024-05-17]\n[nope]\n- x\n"), Err(StatusError::UnreadableDay));
    assert_eq!(parse_status_file("[\n"), Err(StatusError::UnreadableDay));
}

#[test]
fn a_written_log_reads_back() {
    let log = StatusFile {
        days: vec![
            Day { day: date(2024, 5, 17), events: vec![event(DayEventType::Todo, "a", "")] },
            Day { day: date(2024, 5, 16), events: vec![event(DayEventType::Issue, "b", "")] },
        ],
    };
    assert_eq!(parse_status_file(&status_to_string(&log)), Ok(log));
}

#[test]
fn an_event_of_today_goes_to_the_first_day() {
    let mut log = sample();
    write_status(&mut log, date(2024, 5, 17), "more".to_string(), false, "gg".to_string());
    assert_eq!(log.days.len(), 3);
    assert_eq!(log.days[0].day, date(2024, 5, 17));
    assert_eq!(
        log.days[0].events,
        vec![
            event(DayEventType::Issue, "Landed: a thing", "gg"),
            event(DayEventType::Todo, "write more", ""),
            event(DayEventType::Issue, "more", "gg"),
        ]
    );
    assert_eq!(log.days[1], sample().days[1]);
    assert_eq!(log.days[2], sample().days[2]);
}

#[test]
fn an_event_of_a_new_day_begins_that_day() {
    let mut log = sample();
    write_status(&mut log, date(2024, 5, 18), "new".to_string(), true, String::new());
    assert_eq!(log.days.len(), 4);
    assert_eq!(
        log.days[0],
        Day { day: date(2024, 5, 18), events: vec![event(DayEventType::Todo, "new", "")] }
    );
    assert_eq!(log.days[1..], sample().days[..]);

    let mut empty = StatusFile { days: vec![] };
    write_status(&mut empty, date(2024, 5, 18), "first".to_string(), false, "r".to_string());
    assert_eq!(
        empty,
        StatusFile {
            days: vec![Day {
                day: date(2024, 5, 18),
                events: vec![event(DayEventType::Issue, "first", "r")]
            }]
        }
    );
}

#[test]
fn a_date_is_read_from_a_line_without_the_white_space_around_it() {
    assert_eq!(read_date("[2024-05-17]"), Some(date(2024, 5, 17)));
    assert_eq!(read_date("  [2024-05-17]\t"), Some(date(2024, 5, 17)));
    assert_eq!(read_date("2024-05-17"), None);
    assert_eq!(read_date(""), None);
}

#[test]
fn a_day_needs_the_bracket_and_the_date() {
    assert_eq!(day_from_line("[x]", Some(date(2024, 5, 17))), Ok(Some(date(2024, 5, 17))));
    assert_eq!(day_from_line("[x]", None), Err(StatusError::UnreadableDay));
    assert_eq!(day_from_line("x", Some(date(2024, 5, 17))), Ok(None));
    assert_eq!(day_from_line("", None), Ok(None));
}

#[test]
fn a_reader_takes_line_after_line() {
    let mut reader = LogReader::new();
    assert_eq!(reader.read("- before any day", None), Ok(()));
    assert_eq!(reader.read("   ", Some(date(1, 1, 1))), Ok(()));
    assert_eq!(reader.read("[first]", Some(date(2024, 5, 17))), Ok(()));
    assert!(reader.days.is_empty());
    assert_eq!(
        reader.current,
        Day { day: date(2024, 5, 17), events: vec![] }
    );
    assert_eq!(reader.read("- TODO: a", None), Ok(()));
    assert_eq!(reader.read("neither", Some(date(3, 3, 3))), Ok(()));
    assert_eq!(reader.read("[second]", Some(date(2024, 5, 16))), Ok(()));
    assert_eq!(
        reader.days,
        vec![Day { day: date(2024, 5, 17), events: vec![event(DayEventType::Todo, "a", "")] }]
    );
    let before = (reader.days.len(), reader.current.day, reader.begun);
    assert_eq!(reader.read("[third]", None), Err(StatusError::UnreadableDay));
    assert_eq!((reader.days.len(), reader.current.day, reader.begun), before);
    assert_eq!(
        reader.finish(),
        StatusFile {
            days: vec![
                Day { day: date(2024, 5, 17), events: vec![event(DayEventType::Todo, "a", "")] },
                Day { day: date(2024, 5, 16), events: vec![] },
            ]
        }
    );
}

#[test]
fn a_reader_without_a_day_keeps_the_events() {
    let mut reader = LogReader::new();
    assert_eq!(reader.read("- stray", None), Ok(()));
    assert_eq!(
        reader.finish(),
        StatusFile {
            days: vec![Day { day: date(0, 1, 1), events: vec![event(DayEventType::Issue, "stray", "")] }]
        }
    );
}
