//! The status log: a text file of days, newest first, each with the events
//! of that day.

use vstd::prelude::*;
use chrono::Datelike;
use crate::decimal::{digits_of, write_decimal};
use crate::text::{
    append_chars, has_prefix, lines_of, matches_at, slice_chars, text_lines,
    to_chars, to_text, trim_white, trimmed_white,
};

verus! {

/// A day of the calendar.
#[derive(Clone, Copy, Debug, PartialEq, Eq, Structural)]
pub struct Date {
    pub year: i32,
    pub month: u32,
    pub day: u32,
}

/// What kind of event a line of the log records.
#[derive(Clone, Copy, Debug, PartialEq, Eq, Structural)]
pub enum DayEventType {
    /// Something that was done.
    Issue,
    /// Something that is still to do.
    Todo,
}

/// One event of a day.
#[derive(Debug, PartialEq, Eq)]
pub struct DayEvent {
    pub typ: DayEventType,
    pub info: String,
    pub repo: String,
}

/// A day with its events.
#[derive(Debug, PartialEq, Eq)]
pub struct Day {
    pub day: Date,
    pub events: Vec<DayEvent>,
}

/// The whole log.
#[derive(Debug, PartialEq, Eq)]
pub struct StatusFile {
    pub days: Vec<Day>,
}

/// Why a log cannot be read.
#[derive(Clone, Copy, Debug, PartialEq, Eq, Structural)]
pub enum StatusError {
    /// A line that begins like a day does not hold a date.
    UnreadableDay,
}

/// The mathematical value of a `DayEvent`.
pub struct EventView {
    pub typ: DayEventType,
    pub info: Seq<char>,
    pub repo: Seq<char>,
}

/// The mathematical value of a `Day`.
pub struct DayView {
    pub day: Date,
    pub events: Seq<EventView>,
}

impl View for DayEvent {
    type V = EventView;

    open spec fn view(&self) -> EventView {
        EventView { typ: self.typ, info: self.info@, repo: self.repo@ }
    }
}

/// The values of a list of events.
pub open spec fn events_of(events: Seq<DayEvent>) -> Seq<EventView> {
    Seq::new(events.len(), |i: int| events[i]@)
}

impl View for Day {
    type V = DayView;

    open spec fn view(&self) -> DayView {
        DayView { day: self.day, events: events_of(self.events@) }
    }
}

/// The values of a list of days.
pub open spec fn days_of(days: Seq<Day>) -> Seq<DayView> {
    Seq::new(days.len(), |i: int| days[i]@)
}

impl View for StatusFile {
    type V = Seq<DayView>;

    open spec fn view(&self) -> Seq<DayView> {
        days_of(self.days@)
    }
}

/// The date that a line of the form `[2024-05-17]` holds, as chrono reads it
/// with the format `[%Y-%m-%d]`: year, month and day.
pub uninterp spec fn bracketed_date(line: Seq<char>) -> Option<(i32, u32, u32)>;

/// `chrono::NaiveDate::parse_from_str` with the format `[%Y-%m-%d]`. The
/// contract says that what it returns depends on the text alone, and gives
/// that result a name; it says nothing of which texts are dates.
#[verifier::external_body]
fn read_bracketed_date(line: &str) -> (date: Option<Date>)
    ensures
        bracketed_date(line@) == match date {
            Some(d) => Some((d.year, d.month, d.day)),
            None => None,
        },
{
    match chrono::NaiveDate::parse_from_str(line, "[%Y-%m-%d]") {
        Ok(d) => Some(Date { year: d.year(), month: d.month(), day: d.day() }),
        Err(_) => None,
    }
}

/// The date of a day before any day was read.
pub open spec fn no_date() -> Date {
    Date { year: 0, month: 1, day: 1 }
}

/// `n` written with at least `width` digits, with zeros in front.
pub open spec fn padded(n: nat, width: nat) -> Seq<char>
    decreases width,
{
    if digits_of(n).len() >= width {
        digits_of(n)
    } else {
        seq!['0'] + padded(n, (width - 1) as nat)
    }
}

/// How a year is written: with four digits, and with its sign if it is
/// before the year 0 or after the year 9999.
pub open spec fn year_text(year: i32) -> Seq<char> {
    if year < 0 {
        seq!['-'] + padded((-year) as nat, 4)
    } else if year > 9999 {
        seq!['+'] + padded(year as nat, 4)
    } else {
        padded(year as nat, 4)
    }
}

/// How a date is written: year, month and day, with hyphens between.
pub open spec fn date_text(d: Date) -> Seq<char> {
    year_text(d.year) + seq!['-'] + padded(d.month as nat, 2) + seq!['-'] + padded(d.day as nat, 2)
}

/// What a line of something still to do begins with.
pub open spec fn todo_lead() -> Seq<char> {
    seq!['-', ' ', 'T', 'O', 'D', 'O', ':', ' ']
}

/// What a line of an event begins with.
pub open spec fn item_lead() -> Seq<char> {
    seq!['-', ' ']
}

/// The line that records an event, with its line feed.
pub open spec fn event_text(e: EventView) -> Seq<char> {
    (if e.typ == DayEventType::Todo {
        todo_lead()
    } else {
        item_lead()
    }) + e.info + (if e.repo.len() == 0 {
        Seq::<char>::empty()
    } else {
        seq![' ', '('] + e.repo + seq![')']
    }) + seq!['\n']
}

/// The lines that record the events of a day.
pub open spec fn events_text(events: Seq<EventView>) -> Seq<char>
    decreases events.len(),
{
    if events.len() == 0 {
        Seq::<char>::empty()
    } else {
        events_text(events.drop_last()) + event_text(events.last())
    }
}

/// The lines that record a day: its date in brackets, its events, and an
/// empty line.
pub open spec fn day_text(d: DayView) -> Seq<char> {
    seq!['['] + date_text(d.day) + seq![']', '\n'] + events_text(d.events) + seq!['\n']
}

/// The text of a log.
pub open spec fn status_text(days: Seq<DayView>) -> Seq<char>
    decreases days.len(),
{
    if days.len() == 0 {
        Seq::<char>::empty()
    } else {
        status_text(days.drop_last()) + day_text(days.last())
    }
}

/// The event that a line records, if it records one.
pub open spec fn event_of_line(line: Seq<char>) -> Option<EventView> {
    if has_prefix(line, todo_lead()) {
        Some(
            EventView {
                typ: DayEventType::Todo,
                info: line.skip(todo_lead().len() as int),
                repo: Seq::empty(),
            },
        )
    } else if has_prefix(line, item_lead()) {
        Some(
            EventView {
                typ: DayEventType::Issue,
                info: line.skip(item_lead().len() as int),
                repo: Seq::empty(),
            },
        )
    } else {
        None
    }
}

/// How far a log has been read: the days that are complete, the day that is
/// being read, and whether a day has begun at all.
pub struct Reading {
    pub days: Seq<DayView>,
    pub current: DayView,
    pub begun: bool,
}

/// The reading of a log after one more line, given the date that the line
/// holds if it is read as a day. A line of white space changes nothing. A
/// line that begins with a bracket begins a day, and has to hold a date. A
/// line that records an event adds it to the day that is being read. Any
/// other line is passed over.
pub open spec fn read_line(state: Reading, line: Seq<char>, date: Option<Date>) -> Result<
    Reading,
    StatusError,
> {
    if trim_white(line).len() == 0 {
        Ok(state)
    } else if line[0] == '[' {
        match date {
            Some(day) => Ok(
                Reading {
                    days: if state.begun {
                        state.days.push(state.current)
                    } else {
                        state.days
                    },
                    current: DayView { day, events: Seq::empty() },
                    begun: true,
                },
            ),
            None => Err(StatusError::UnreadableDay),
        }
    } else {
        match event_of_line(line) {
            Some(e) => Ok(
                Reading {
                    current: DayView { events: state.current.events.push(e), ..state.current },
                    ..state
                },
            ),
            None => Ok(state),
        }
    }
}

/// The date that a line holds if it is read as a day: the line without the
/// white space around it, as chrono reads it.
pub open spec fn date_of_line(line: Seq<char>) -> Option<Date> {
    match bracketed_date(trim_white(line)) {
        Some((year, month, day)) => Some(Date { year, month, day }),
        None => None,
    }
}

/// The reading of a log before its first line.
pub open spec fn nothing_read() -> Reading {
    Reading {
        days: Seq::empty(),
        current: DayView { day: no_date(), events: Seq::empty() },
        begun: false,
    }
}

/// The reading of a log after the given lines.
pub open spec fn read_lines(lines: Seq<Seq<char>>) -> Result<Reading, StatusError>
    decreases lines.len(),
{
    if lines.len() == 0 {
        Ok(nothing_read())
    } else {
        match read_lines(lines.drop_last()) {
            Ok(state) => read_line(state, lines.last(), date_of_line(lines.last())),
            Err(e) => Err(e),
        }
    }
}

/// The log that a text holds: the days that were read, and last the day
/// that was being read when the text ended.
pub open spec fn status_of_text(text: Seq<char>) -> Result<Seq<DayView>, StatusError> {
    match read_lines(lines_of(text)) {
        Ok(state) => Ok(state.days.push(state.current)),
        Err(e) => Err(e),
    }
}

/// The log with one more event of today: today is put in front if the log
/// does not begin with it, and the event is added to it.
pub open spec fn with_event(days: Seq<DayView>, today: Date, e: EventView) -> Seq<DayView> {
    if days.len() == 0 || days[0].day != today {
        seq![DayView { day: today, events: seq![e] }] + days
    } else {
        days.update(0, DayView { events: days[0].events.push(e), ..days[0] })
    }
}

/// `k` zeros.
pub open spec fn zeros(k: nat) -> Seq<char> {
    Seq::new(k, |i: int| '0')
}

proof fn lemma_padded(n: nat, width: nat)
    ensures
        padded(n, width) == if digits_of(n).len() >= width {
            digits_of(n)
        } else {
            zeros((width - digits_of(n).len()) as nat) + digits_of(n)
        },
    decreases width,
{
    if digits_of(n).len() < width {
        lemma_padded(n, (width - 1) as nat);
        let all = zeros((width - digits_of(n).len()) as nat);
        if digits_of(n).len() >= width - 1 {
            assert(all + digits_of(n) =~= seq!['0'] + digits_of(n));
        } else {
            let fewer = zeros((width - 1 - digits_of(n).len()) as nat);
            assert(all + digits_of(n) =~= seq!['0'] + (fewer + digits_of(n)));
        }
    }
}

fn write_padded(out: &mut Vec<char>, n: u64, width: usize)
    ensures
        final(out)@ == old(out)@ + padded(n as nat, width as nat),
{
    let digits = write_decimal(n);
    proof {
        lemma_padded(n as nat, width as nat);
    }
    let ghost begin = out@;
    assert(out@ =~= begin + zeros(0));
    let mut have: usize = digits.len();
    while have < width
        invariant
            digits.len() <= have,
            digits.len() >= width ==> have == digits.len(),
            digits.len() < width ==> have <= width,
            out@ == begin + zeros((have - digits.len()) as nat),
        decreases width - have,
    {
        out.push('0');
        assert(out@ =~= begin + zeros((have + 1 - digits.len()) as nat));
        have += 1;
    }
    let ghost filled = out@;
    append_chars(out, &digits);
    proof {
        assert(digits@ == digits_of(n as nat));
        if digits.len() >= width {
            assert(have == digits.len());
            assert(filled =~= begin);
        } else {
            assert(have == width);
            assert(out@ =~= begin + (zeros((width - digits.len()) as nat) + digits@));
        }
    }
}

fn write_date(out: &mut Vec<char>, d: Date)
    ensures
        final(out)@ == old(out)@ + date_text(d),
{
    let ghost begin = out@;
    if d.year < 0 {
        out.push('-');
        write_padded(out, (-(d.year as i64)) as u64, 4);
    } else if d.year > 9999 {
        out.push('+');
        write_padded(out, d.year as u64, 4);
    } else {
        write_padded(out, d.year as u64, 4);
    }
    assert(out@ =~= begin + year_text(d.year));
    out.push('-');
    write_padded(out, d.month as u64, 2);
    out.push('-');
    write_padded(out, d.day as u64, 2);
    assert(out@ =~= begin + date_text(d));
}

fn todo_lead_chars() -> (v: Vec<char>)
    ensures
        v@ == todo_lead(),
{
    let mut v: Vec<char> = Vec::new();
    v.push('-');
    v.push(' ');
    v.push('T');
    v.push('O');
    v.push('D');
    v.push('O');
    v.push(':');
    v.push(' ');
    assert(v@ =~= todo_lead());
    v
}

fn item_lead_chars() -> (v: Vec<char>)
    ensures
        v@ == item_lead(),
{
    let mut v: Vec<char> = Vec::new();
    v.push('-');
    v.push(' ');
    assert(v@ =~= item_lead());
    v
}

fn write_event(out: &mut Vec<char>, e: &DayEvent)
    ensures
        final(out)@ == old(out)@ + event_text(e@),
{
    let ghost begin = out@;
    match e.typ {
        DayEventType::Todo => append_chars(out, &todo_lead_chars()),
        DayEventType::Issue => append_chars(out, &item_lead_chars()),
    }
    append_chars(out, &to_chars(e.info.as_str()));
    let repo = to_chars(e.repo.as_str());
    if repo.len() > 0 {
        out.push(' ');
        out.push('(');
        append_chars(out, &repo);
        out.push(')');
    }
    out.push('\n');
    assert(out@ =~= begin + event_text(e@));
}

fn write_day(out: &mut Vec<char>, d: &Day)
    ensures
        final(out)@ == old(out)@ + day_text(d@),
{
    let ghost begin = out@;
    out.push('[');
    write_date(out, d.day);
    out.push(']');
    out.push('\n');
    let ghost head = out@;
    assert(head =~= begin + seq!['['] + date_text(d.day) + seq![']', '\n']);
    let mut i: usize = 0;
    while i < d.events.len()
        invariant
            i <= d.events.len(),
            out@ == head + events_text(d@.events.take(i as int)),
        decreases d.events.len() - i,
    {
        write_event(out, &d.events[i]);
        proof {
            let upto = d@.events.take(i + 1);
            assert(upto.drop_last() =~= d@.events.take(i as int));
            assert(upto.last() == d.events[i as int]@);
            assert(out@ =~= head + events_text(upto));
        }
        i += 1;
    }
    assert(d@.events.take(d.events.len() as int) =~= d@.events);
    out.push('\n');
    assert(out@ =~= begin + day_text(d@));
}

/// Writes a log as text.
pub fn status_to_string(status_file: &StatusFile) -> (content: String)
    ensures
        content@ == status_text(status_file@),
{
    let mut out: Vec<char> = Vec::new();
    let mut i: usize = 0;
    while i < status_file.days.len()
        invariant
            i <= status_file.days.len(),
            out@ == status_text(status_file@.take(i as int)),
        decreases status_file.days.len() - i,
    {
        write_day(&mut out, &status_file.days[i]);
        proof {
            let upto = status_file@.take(i + 1);
            assert(upto.drop_last() =~= status_file@.take(i as int));
            assert(upto.last() == status_file.days[i as int]@);
        }
        i += 1;
    }
    assert(status_file@.take(status_file.days.len() as int) =~= status_file@);
    to_text(&out)
}

/// The day that a line begins, given the date that the line holds if it is
/// read as a day: nothing for a line that does not begin with a bracket,
/// and an error for one that does and holds no date.
pub open spec fn day_of_line(line: Seq<char>, date: Option<Date>) -> Result<
    Option<Date>,
    StatusError,
> {
    if line.len() > 0 && line[0] == '[' {
        match date {
            Some(day) => Ok(Some(day)),
            None => Err(StatusError::UnreadableDay),
        }
    } else {
        Ok(None)
    }
}

/// The day that a line begins, given the date that was read from it: see
/// `day_of_line`.
pub fn day_from_line(line: &str, date: Option<Date>) -> (day: Result<Option<Date>, StatusError>)
    ensures
        day == day_of_line(line@, date),
{
    let chars = to_chars(line);
    if chars.len() > 0 && chars[0] == '[' {
        match date {
            Some(d) => Ok(Some(d)),
            None => Err(StatusError::UnreadableDay),
        }
    } else {
        Ok(None)
    }
}

/// The date that a line holds if it is read as a day.
pub fn read_date(line: &str) -> (date: Option<Date>)
    ensures
        date == date_of_line(line@),
{
    let inner = to_text(&trimmed_white(&to_chars(line)));
    read_bracketed_date(inner.as_str())
}

/// The day that a line begins, if it begins one: nothing for a line that
/// does not begin with a bracket, and an error for one that does and holds
/// no date.
pub fn parse_day_from_line(line: &str) -> (day: Result<Option<Date>, StatusError>)
    ensures
        day == day_of_line(line@, date_of_line(line@)),
{
    day_from_line(line, read_date(line))
}

/// The event that a line records, if it records one.
pub fn parse_event_from_line(line: &str) -> (event: Option<DayEvent>)
    ensures
        match event {
            Some(e) => event_of_line(line@) == Some(e@),
            None => event_of_line(line@) is None,
        },
{
    let chars = to_chars(line);
    let todo = todo_lead_chars();
    let item = item_lead_chars();
    if matches_at(&chars, &todo, 0) {
        Some(
            DayEvent {
                typ: DayEventType::Todo,
                info: to_text(&slice_chars(&chars, todo.len(), chars.len())),
                repo: String::new(),
            },
        )
    } else if matches_at(&chars, &item, 0) {
        Some(
            DayEvent {
                typ: DayEventType::Issue,
                info: to_text(&slice_chars(&chars, item.len(), chars.len())),
                repo: String::new(),
            },
        )
    } else {
        None
    }
}

/// A new event.
pub fn create_event(body: String, todo: bool, repo: String) -> (event: DayEvent)
    ensures
        event@ == (EventView {
            typ: if todo {
                DayEventType::Todo
            } else {
                DayEventType::Issue
            },
            info: body@,
            repo: repo@,
        }),
{
    let typ = if todo {
        DayEventType::Todo
    } else {
        DayEventType::Issue
    };
    DayEvent { typ, info: body, repo }
}

/// A log that is being read, line by line.
#[derive(Debug, PartialEq, Eq)]
pub struct LogReader {
    /// The days that are complete.
    pub days: Vec<Day>,
    /// The day that is being read.
    pub current: Day,
    /// Whether a day has begun.
    pub begun: bool,
}

impl View for LogReader {
    type V = Reading;

    open spec fn view(&self) -> Reading {
        Reading { days: days_of(self.days@), current: self.current@, begun: self.begun }
    }
}

impl LogReader {
    /// The reader before the first line.
    pub fn new() -> (reader: LogReader)
        ensures
            reader@ == nothing_read(),
    {
        let reader = LogReader {
            days: Vec::new(),
            current: Day { day: Date { year: 0, month: 1, day: 1 }, events: Vec::new() },
            begun: false,
        };
        assert(days_of(reader.days@) =~= Seq::<DayView>::empty());
        assert(reader.current@.events =~= Seq::<EventView>::empty());
        reader
    }

    /// Takes one more line, with the date that was read from it: see
    /// `read_line`. After an error the reader is as it was.
    pub fn read(&mut self, line: &str, date: Option<Date>) -> (taken: Result<(), StatusError>)
        ensures
            match taken {
                Ok(_) => read_line(old(self)@, line@, date) == Ok::<Reading, StatusError>(
                    final(self)@,
                ),
                Err(e) => read_line(old(self)@, line@, date) == Err::<Reading, StatusError>(e)
                    && final(self)@ == old(self)@,
            },
    {
        let chars = to_chars(line);
        let inner = trimmed_white(&chars);
        if inner.len() == 0 {
            Ok(())
        } else if chars.len() > 0 && chars[0] == '[' {
            match date {
                Some(d) => {
                    let mut next = Day { day: d, events: Vec::new() };
                    assert(next@.events =~= Seq::<EventView>::empty());
                    if self.begun {
                        let ghost before = days_of(self.days@);
                        std::mem::swap(&mut self.current, &mut next);
                        let ghost done = next@;
                        self.days.push(next);
                        assert(days_of(self.days@) =~= before.push(done));
                    } else {
                        self.current = next;
                    }
                    self.begun = true;
                    Ok(())
                },
                None => Err(StatusError::UnreadableDay),
            }
        } else {
            assert(line@.len() > 0) by {
                if line@.len() == 0 {
                    assert(trim_white(line@) =~= line@);
                }
            }
            match parse_event_from_line(line) {
                Some(e) => {
                    let ghost before = self.current@.events;
                    self.current.events.push(e);
                    assert(self.current@.events =~= before.push(e@));
                },
                None => {},
            }
            Ok(())
        }
    }

    /// The log that was read: the days that are complete, and last the day
    /// that was being read.
    pub fn finish(self) -> (log: StatusFile)
        ensures
            log@ == self@.days.push(self@.current),
    {
        let ghost before = days_of(self.days@);
        let ghost done = self.current@;
        let mut days = self.days;
        days.push(self.current);
        assert(days_of(days@) =~= before.push(done));
        StatusFile { days }
    }
}

/// Reads a log from its text: see `status_of_text`.
pub fn parse_status_file(text: &str) -> (status: Result<StatusFile, StatusError>)
    ensures
        match status {
            Ok(f) => status_of_text(text@) == Ok::<Seq<DayView>, StatusError>(f@),
            Err(e) => status_of_text(text@) == Err::<Seq<DayView>, StatusError>(e),
        },
{
    let chars = to_chars(text);
    let lines = text_lines(&chars);
    let ghost all = lines_of(text@);
    let mut reader = LogReader::new();
    let mut i: usize = 0;
    proof {
        assert(all.take(0) =~= Seq::<Seq<char>>::empty());
    }
    while i < lines.len()
        invariant
            i <= lines.len(),
            all == lines_of(text@),
            lines.len() == all.len(),
            forall|k: int| 0 <= k < lines.len() ==> (#[trigger] lines@[k])@ == all[k],
            read_lines(all.take(i as int)) == Ok::<Reading, StatusError>(reader@),
        decreases lines.len() - i,
    {
        let line = to_text(&lines[i]);
        proof {
            assert(all.take(i + 1).drop_last() =~= all.take(i as int));
            assert(all.take(i + 1).last() == line@);
        }
        let date = read_date(line.as_str());
        match reader.read(line.as_str(), date) {
            Ok(_) => {},
            Err(e) => {
                proof {
                    lemma_error_stays(all, i as int + 1);
                }
                return Err(e);
            },
        }
        i += 1;
    }
    assert(all.take(lines.len() as int) =~= all);
    Ok(reader.finish())
}

proof fn lemma_error_stays(lines: Seq<Seq<char>>, n: int)
    requires
        0 <= n <= lines.len(),
        read_lines(lines.take(n)) is Err,
    ensures
        read_lines(lines) == read_lines(lines.take(n)),
    decreases lines.len() - n,
{
    if n < lines.len() {
        assert(lines.drop_last().take(n) =~= lines.take(n));
        lemma_error_stays(lines.drop_last(), n);
    } else {
        assert(lines.take(n) =~= lines);
    }
}

/// Adds an event of today to a log: see `with_event`.
pub fn write_status(status: &mut StatusFile, today: Date, body: String, todo: bool, repo: String)
    ensures
        final(status)@ == with_event(
            old(status)@,
            today,
            EventView {
                typ: if todo {
                    DayEventType::Todo
                } else {
                    DayEventType::Issue
                },
                info: body@,
                repo: repo@,
            },
        ),
{
    let event = create_event(body, todo, repo);
    let ghost e = event@;
    let ghost before = status@;
    if status.days.len() == 0 || status.days[0].day != today {
        let mut events: Vec<DayEvent> = Vec::new();
        events.push(event);
        let day = Day { day: today, events };
        assert(day@.events =~= seq![e]);
        status.days.insert(0, day);
        assert(status@ =~= seq![DayView { day: today, events: seq![e] }] + before);
    } else {
        let mut first = status.days.remove(0);
        let ghost events = first@.events;
        first.events.push(event);
        assert(first@.events =~= events.push(e));
        status.days.insert(0, first);
        assert(status@ =~= before.update(
            0,
            DayView { events: before[0].events.push(e), ..before[0] },
        ));
    }
}

} // verus!
