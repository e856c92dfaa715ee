use vstd::prelude::*;
use vstd::string::StringExecFns;

verus! {

/// Priority label of a task: a three-valued tag with no ordering semantics.
#[derive(Clone, Copy, PartialEq, Eq, Structural, Debug)]
pub enum Priority {
    Low,
    Medium,
    High,
}

impl Priority {
    /// The display label of this priority.
    pub open spec fn label(self) -> Seq<char> {
        match self {
            Priority::Low => "Low"@,
            Priority::Medium => "Medium"@,
            Priority::High => "High"@,
        }
    }

    /// Renders the priority as its display label.
    pub fn to_string(&self) -> (s: String)
        ensures
            s@ == self.label(),
    {
        match self {
            Priority::Low => "Low".to_owned(),
            Priority::Medium => "Medium".to_owned(),
            Priority::High => "High".to_owned(),
        }
    }
}

/// Maps an already-lowercased priority word to its label, or `None` for any
/// other word.
pub fn priority_from_str(s: &String) -> (r: Option<Priority>)
    ensures
        match r {
            Some(p) => (p == Priority::Low && s@ == "low"@) || (p == Priority::Medium && s@
                == "medium"@) || (p == Priority::High && s@ == "high"@),
            None => s@ != "low"@ && s@ != "medium"@ && s@ != "high"@,
        },
{
    let low = String::from_str("low");
    if s.eq(&low) {
        return Some(Priority::Low);
    }
    let medium = String::from_str("medium");
    if s.eq(&medium) {
        return Some(Priority::Medium);
    }
    let high = String::from_str("high");
    if s.eq(&high) {
        return Some(Priority::High);
    }
    None
}

/// A calendar timestamp in a local time zone, held as plain field values:
/// year, month, day, hour, minute, second, and the zone's offset from UTC
/// in minutes.
#[derive(Clone, Copy, PartialEq, Eq, Structural, Debug)]
pub struct Timestamp {
    pub year: u16,
    pub month: u8,
    pub day: u8,
    pub hour: u8,
    pub minute: u8,
    pub second: u8,
    pub offset_minutes: i16,
}

impl Timestamp {
    /// Field ranges of a meaningful timestamp.
    pub open spec fn wf(self) -> bool {
        &&& self.year <= 9999
        &&& 1 <= self.month <= 12
        &&& 1 <= self.day <= 31
        &&& self.hour <= 23
        &&& self.minute <= 59
        &&& self.second <= 59
        &&& -1439 <= self.offset_minutes <= 1439
    }

    /// Builds a well-formed timestamp from raw clock fields, clamping the
    /// year to four digits and rounding the zone offset down to whole minutes.
    pub fn from_clock_fields(
        year: i32,
        month: u32,
        day: u32,
        hour: u32,
        minute: u32,
        second: u32,
        offset_seconds: i32,
    ) -> (t: Timestamp)
        requires
            1 <= month <= 12,
            1 <= day <= 31,
            hour <= 23,
            minute <= 59,
            second <= 59,
            -86399 <= offset_seconds <= 86399,
        ensures
            t.wf(),
            t.year == if year < 0 {
                0int
            } else if year > 9999 {
                9999int
            } else {
                year as int
            },
            t.month == month,
            t.day == day,
            t.hour == hour,
            t.minute == minute,
            t.second == second,
            t.offset_minutes == if offset_seconds < 0 {
                -((-(offset_seconds as int)) / 60)
            } else {
                (offset_seconds as int) / 60
            },
    {
        let y: u16 = if year < 0 {
            0
        } else if year > 9999 {
            9999
        } else {
            year as u16
        };
        let offset_minutes: i16 = if offset_seconds < 0 {
            let mag: i32 = -offset_seconds;
            let mins: i32 = mag / 60;
            -(mins as i16)
        } else {
            let mins: i32 = offset_seconds / 60;
            mins as i16
        };
        Timestamp {
            year: y,
            month: month as u8,
            day: day as u8,
            hour: hour as u8,
            minute: minute as u8,
            second: second as u8,
            offset_minutes,
        }
    }

    /// Reads the current local time from the system clock.
    pub fn now() -> (t: Timestamp)
        ensures
            t.wf(),
    {
        let (year, month, day, hour, minute, second, offset_seconds) = local_clock_fields();
        Timestamp::from_clock_fields(year, month, day, hour, minute, second, offset_seconds)
    }
}

/// Relies on chrono's `Local::now` for the current local time, and on its
/// `Datelike`/`Timelike` accessors and `FixedOffset::local_minus_utc` to read
/// it out as plain fields. chrono documents the ranges: month 1..=12,
/// day 1..=31, hour 0..=23, minute 0..=59, second 0..=59, and a zone offset
/// strictly between -86400 and 86400 seconds.
#[verifier::external_body]
fn local_clock_fields() -> (f: (i32, u32, u32, u32, u32, u32, i32))
    ensures
        1 <= f.1 <= 12,
        1 <= f.2 <= 31,
        f.3 <= 23,
        f.4 <= 59,
        f.5 <= 59,
        -86399 <= f.6 <= 86399,
{
    let now = chrono::Local::now();
    (
        chrono::Datelike::year(&now),
        chrono::Datelike::month(&now),
        chrono::Datelike::day(&now),
        chrono::Timelike::hour(&now),
        chrono::Timelike::minute(&now),
        chrono::Timelike::second(&now),
        now.offset().local_minus_utc(),
    )
}

/// The mathematical value of a task: its strings as character sequences,
/// its priority, and its creation timestamp.
pub struct TaskView {
    pub name: Seq<char>,
    pub description: Seq<char>,
    pub priority: Priority,
    pub add_time: Timestamp,
}

/// One unit of work: a name (the lookup key), a free-text description,
/// a priority label, and the time it was created.
pub struct Task {
    pub name: String,
    pub description: String,
    pub priority: Priority,
    pub add_time: Timestamp,
}

impl DeepView for Task {
    type V = TaskView;

    open spec fn deep_view(&self) -> TaskView {
        TaskView {
            name: self.name@,
            description: self.description@,
            priority: self.priority,
            add_time: self.add_time,
        }
    }
}

/// The character at which one decimal digit is printed.
pub open spec fn digit_char(n: int) -> char {
    ((0x30 + n) as u8) as char
}

/// Two-digit zero-padded decimal rendering.
pub open spec fn two_digit_chars(n: int) -> Seq<char> {
    seq![digit_char(n / 10), digit_char(n % 10)]
}

/// Four-digit zero-padded decimal rendering.
pub open spec fn four_digit_chars(n: int) -> Seq<char> {
    seq![digit_char(n / 1000), digit_char((n / 100) % 10), digit_char((n / 10) % 10), digit_char(
        n % 10,
    )]
}

impl Timestamp {
    /// The day-month-year hour:minute:second display form.
    pub open spec fn display(self) -> Seq<char> {
        two_digit_chars(self.day as int) + seq!['-'] + two_digit_chars(self.month as int) + seq![
            '-',
        ] + four_digit_chars(self.year as int) + seq![' '] + two_digit_chars(self.hour as int)
            + seq![':'] + two_digit_chars(self.minute as int) + seq![':'] + two_digit_chars(
            self.second as int,
        )
    }
}

impl TaskView {
    /// The one-task display form: name, priority label and creation time
    /// separated by bars, then the quoted description on its own line.
    pub open spec fn display(self) -> Seq<char> {
        self.name + " | "@ + self.priority.label() + " | "@ + self.add_time.display() + "\n\""@
            + self.description + "\"\n"@
    }
}

/// Relies on std's `String::push`: appends the one character to the string.
#[verifier::external_body]
fn push_char(s: &mut String, c: char)
    ensures
        final(s)@ == old(s)@.push(c),
{
    s.push(c);
}

/// Appends the two-digit rendering of `n` to `out`.
fn push_two_digits(out: &mut String, n: u16)
    requires
        n <= 99,
    ensures
        final(out)@ == old(out)@ + two_digit_chars(n as int),
{
    let d1: u8 = (n / 10) as u8;
    let d0: u8 = (n % 10) as u8;
    push_char(out, (0x30 + d1) as char);
    push_char(out, (0x30 + d0) as char);
    assert(final(out)@ =~= old(out)@ + two_digit_chars(n as int));
}

/// Appends the four-digit rendering of `n` to `out`.
fn push_four_digits(out: &mut String, n: u16)
    requires
        n <= 9999,
    ensures
        final(out)@ == old(out)@ + four_digit_chars(n as int),
{
    let d3: u8 = (n / 1000) as u8;
    let d2: u8 = ((n / 100) % 10) as u8;
    let d1: u8 = ((n / 10) % 10) as u8;
    let d0: u8 = (n % 10) as u8;
    push_char(out, (0x30 + d3) as char);
    push_char(out, (0x30 + d2) as char);
    push_char(out, (0x30 + d1) as char);
    push_char(out, (0x30 + d0) as char);
    assert(final(out)@ =~= old(out)@ + four_digit_chars(n as int));
}

impl Task {
    /// Builds a task with the given fields, stamped with the current local
    /// time.
    pub fn new(name: String, description: String, priority: Priority) -> (t: Task)
        ensures
            t.deep_view().name == name@,
            t.deep_view().description == description@,
            t.deep_view().priority == priority,
            t.deep_view().add_time.wf(),
    {
        Task { name, description, priority, add_time: Timestamp::now() }
    }

    /// Builds a task with every field given, the creation time included.
    pub fn with_time(name: String, description: String, priority: Priority, add_time: Timestamp) -> (t:
        Task)
        ensures
            t.deep_view() == (TaskView { name: name@, description: description@, priority, add_time }),
    {
        Task { name, description, priority, add_time }
    }

    /// Renders the task for printing.
    pub fn display_string(&self) -> (s: String)
        requires
            self.add_time.wf(),
        ensures
            s@ == self.deep_view().display(),
    {
        let mut s = String::new();
        s.append(self.name.as_str());
        s.append(" | ");
        match self.priority {
            Priority::Low => s.append("Low"),
            Priority::Medium => s.append("Medium"),
            Priority::High => s.append("High"),
        }
        s.append(" | ");
        push_two_digits(&mut s, self.add_time.day as u16);
        push_char(&mut s, '-');
        push_two_digits(&mut s, self.add_time.month as u16);
        push_char(&mut s, '-');
        push_four_digits(&mut s, self.add_time.year);
        push_char(&mut s, ' ');
        push_two_digits(&mut s, self.add_time.hour as u16);
        push_char(&mut s, ':');
        push_two_digits(&mut s, self.add_time.minute as u16);
        push_char(&mut s, ':');
        push_two_digits(&mut s, self.add_time.second as u16);
        s.append("\n\"");
        s.append(self.description.as_str());
        s.append("\"\n");
        assert(s@ =~= self.deep_view().display());
        s
    }
}

} // verus!
