//! Wall-clock timestamps and the events a port's reader pathway emits. The
//! caller's reader task performs the blocking reads and hands each outcome
//! to [`reader_step`], which decides what to emit and whether to stop.

use vstd::prelude::*;

use crate::notify::NotifyLevel;
use crate::text::{digit_char, digit_str};

verus! {

/// Milliseconds in a day.
pub const MILLIS_PER_DAY: u64 = 86400000;

/// A wall-clock time of day with millisecond resolution.
#[derive(Clone, Copy, Debug, PartialEq, Eq, Structural)]
pub struct Timestamp {
    pub hour: u32,
    pub minute: u32,
    pub second: u32,
    pub milli: u32,
}

/// Two decimal digits, zero padded.
pub open spec fn pad2(n: int) -> Seq<char> {
    seq![digit_char(n / 10), digit_char(n % 10)]
}

/// Three decimal digits, zero padded.
pub open spec fn pad3(n: int) -> Seq<char> {
    seq![digit_char(n / 100), digit_char((n / 10) % 10), digit_char(n % 10)]
}

/// Renders two decimal digits, zero padded.
fn pad2_str(n: u32) -> (r: String)
    requires
        n < 100,
    ensures
        r@ == pad2(n as int),
{
    let mut s = digit_str((n / 10) as u8).to_owned();
    s.append(digit_str((n % 10) as u8));
    proof {
        assert(s@ =~= pad2(n as int));
    }
    s
}

/// Renders three decimal digits, zero padded.
fn pad3_str(n: u32) -> (r: String)
    requires
        n < 1000,
    ensures
        r@ == pad3(n as int),
{
    let mut s = digit_str((n / 100) as u8).to_owned();
    s.append(digit_str(((n / 10) % 10) as u8));
    s.append(digit_str((n % 10) as u8));
    proof {
        assert(s@ =~= pad3(n as int));
    }
    s
}

impl Timestamp {
    /// Each field is within its clock range.
    pub open spec fn wf(&self) -> bool {
        self.hour < 24 && self.minute < 60 && self.second < 60 && self.milli < 1000
    }

    /// The time of day `ms` milliseconds after midnight; larger values wrap
    /// around the day.
    pub fn from_millis_of_day(ms: u64) -> (r: Timestamp)
        ensures
            r.wf(),
            r.hour == (ms % 86400000) / 3600000,
            r.minute == ((ms % 86400000) / 60000) % 60,
            r.second == ((ms % 86400000) / 1000) % 60,
            r.milli == (ms % 86400000) % 1000,
    {
        let t = ms % MILLIS_PER_DAY;
        Timestamp {
            hour: (t / 3600000) as u32,
            minute: ((t / 60000) % 60) as u32,
            second: ((t / 1000) % 60) as u32,
            milli: (t % 1000) as u32,
        }
    }

    /// The `HH:MM:SS.mmm` text of this timestamp.
    pub open spec fn text_spec(&self) -> Seq<char> {
        pad2(self.hour as int) + seq![':'] + pad2(self.minute as int) + seq![':'] + pad2(
            self.second as int,
        ) + seq!['.'] + pad3(self.milli as int)
    }

    /// Renders this timestamp as `HH:MM:SS.mmm`.
    pub fn format(&self) -> (r: String)
        requires
            self.wf(),
        ensures
            r@ == self.text_spec(),
    {
        proof {
            reveal_strlit(":");
            reveal_strlit(".");
        }
        let mut s = pad2_str(self.hour);
        s.append(":");
        s.append(pad2_str(self.minute).as_str());
        s.append(":");
        s.append(pad2_str(self.second).as_str());
        s.append(".");
        s.append(pad3_str(self.milli).as_str());
        proof {
            assert(s@ =~= self.text_spec());
        }
        s
    }
}

/// An event a port's reader pathway emits.
#[derive(Debug)]
pub enum PortEvent {
    /// A chunk of bytes as read, not framed by newlines.
    Data { port: String, data: Vec<u8>, timestamp: Timestamp },
    /// Out-of-band status: a read or write error, a device gone.
    Notification { port: String, level: NotifyLevel, message: String },
}

/// What one blocking read of the device produced.
#[derive(Debug)]
pub enum ReadOutcome {
    /// The read timed out with no data; not an error.
    TimedOut,
    /// The read returned these bytes.
    Data(Vec<u8>),
    /// The read failed for good, with this description.
    Failed(String),
}

/// What the reader task does with one read outcome.
#[derive(Debug)]
pub enum ReaderAction {
    /// Loop around and read again.
    Continue,
    /// Emit this event and keep reading.
    Emit(PortEvent),
    /// Emit this event and end the reader task.
    EmitAndStop(PortEvent),
}

/// The reader policy: a timeout or an empty read loops, data is emitted as
/// one event with the port's name and the current timestamp, and a failure
/// emits one error notification and stops the reader.
pub fn reader_step(port: &str, timestamp: Timestamp, outcome: ReadOutcome) -> (r: ReaderAction)
    ensures
        match outcome {
            ReadOutcome::TimedOut => r is Continue,
            ReadOutcome::Data(d) => {
                if d@.len() == 0 {
                    r is Continue
                } else {
                    r matches ReaderAction::Emit(PortEvent::Data { port: p, data, timestamp: ts })
                        && p@ == port@ && data@ == d@ && ts == timestamp
                }
            },
            ReadOutcome::Failed(msg) => r matches ReaderAction::EmitAndStop(
                PortEvent::Notification { port: p, level, message },
            ) && p@ == port@ && level == NotifyLevel::Error && message@ == "read error: "@ + msg@,
        },
{
    match outcome {
        ReadOutcome::TimedOut => ReaderAction::Continue,
        ReadOutcome::Data(d) => {
            if d.len() == 0 {
                ReaderAction::Continue
            } else {
                ReaderAction::Emit(
                    PortEvent::Data { port: port.to_owned(), data: d, timestamp },
                )
            }
        },
        ReadOutcome::Failed(msg) => {
            proof {
                reveal_strlit("read error: ");
            }
            let mut m = "read error: ".to_owned();
            m.append(msg.as_str());
            ReaderAction::EmitAndStop(
                PortEvent::Notification {
                    port: port.to_owned(),
                    level: NotifyLevel::Error,
                    message: m,
                },
            )
        },
    }
}

/// The writer policy for a failed device write: one error notification for
/// the operator, after which the writer task ends.
pub fn writer_fail_event(port: &str, msg: &str) -> (r: PortEvent)
    ensures
        r matches PortEvent::Notification { port: p, level, message } && p@ == port@ && level
            == NotifyLevel::Error && message@ == "write error: "@ + msg@,
{
    proof {
        reveal_strlit("write error: ");
    }
    let mut m = "write error: ".to_owned();
    m.append(msg);
    PortEvent::Notification { port: port.to_owned(), level: NotifyLevel::Error, message: m }
}

} // verus!
