//! The logger: one combined log and one log per port, modelled as the
//! records each file holds since it was last truncated. The caller appends
//! the returned records to the real files and truncates them on purge;
//! write failures there are swallowed, logging is best effort.

use vstd::prelude::*;

use crate::event::Timestamp;
use crate::text::{lossy_of, str_eq, utf8_lossy};

verus! {

/// An event the logger consumes.
#[derive(Debug)]
pub enum LoggerEvent {
    /// Data arrived on a port at a time.
    SerialData { port: String, data: Vec<u8>, timestamp: Timestamp },
    /// Truncate every log file.
    Purge,
}

/// The number of trailing newline or carriage-return characters of `s`.
pub open spec fn trailing_breaks(s: Seq<char>) -> int
    decreases s.len(),
{
    if s.len() > 0 && (s.last() == '\n' || s.last() == '\r') {
        1 + trailing_breaks(s.drop_last())
    } else {
        0
    }
}

/// `s` with its trailing newlines and carriage returns removed.
pub open spec fn trimmed(s: Seq<char>) -> Seq<char> {
    s.take(s.len() - trailing_breaks(s))
}

/// The character before position `k` is a newline or carriage return.
fn break_before(s: &str, k: usize) -> (r: bool)
    requires
        1 <= k <= s@.len(),
    ensures
        r == (s@[k - 1] == '\n' || s@[k - 1] == '\r'),
{
    let c = s.get_char(k - 1);
    c == '\n' || c == '\r'
}

/// Removes trailing `\n` and `\r` characters.
pub fn trim_line_breaks(s: &str) -> (r: String)
    ensures
        r@ == trimmed(s@),
{
    let n = s.unicode_len();
    let mut k: usize = n;
    while k > 0 && break_before(s, k)
        invariant
            n == s@.len(),
            k <= n,
            forall|j: int| k <= j < n ==> s@[j] == '\n' || s@[j] == '\r',
        decreases k,
    {
        k = k - 1;
    }
    proof {
        if k > 0 {
            assert(s@.take(k as int).last() == s@[k - 1]);
        }
        assert(trailing_breaks(s@.take(k as int)) == 0);
        lemma_trailing_breaks_split(s@, k as int);
        assert(trimmed(s@) == s@.take(k as int));
    }
    let r = s.substring_char(0, k).to_owned();
    proof {
        assert(s@.subrange(0, k as int) =~= s@.take(k as int));
    }
    r
}

/// If everything from `k` on is a line break and position `k - 1` is not,
/// exactly the last `len - k` characters are trailing breaks.
proof fn lemma_trailing_breaks_split(s: Seq<char>, k: int)
    requires
        0 <= k <= s.len(),
        forall|j: int| k <= j < s.len() ==> s[j] == '\n' || s[j] == '\r',
        trailing_breaks(s.take(k)) == 0,
    ensures
        trailing_breaks(s) == s.len() - k,
    decreases s.len() - k,
{
    if k == s.len() {
        assert(s.take(k) =~= s);
    } else {
        assert(s.last() == '\n' || s.last() == '\r');
        assert(s.drop_last() =~= s.take(s.len() - 1));
        assert(s.take(s.len() - 1).take(k) =~= s.take(k));
        lemma_trailing_breaks_split(s.take(s.len() - 1), k);
    }
}

/// The `[HH:MM:SS.mmm] ` head every record starts with.
pub open spec fn record_head(ts: Timestamp) -> Seq<char> {
    seq!['['] + ts.text_spec() + "] "@
}

/// The `[<port>] ` tag the combined log carries after the head.
pub open spec fn port_tag(port: Seq<char>) -> Seq<char> {
    seq!['['] + port + "] "@
}

/// One record of a per-port log: head, text, newline.
pub open spec fn port_record(ts: Timestamp, text: Seq<char>) -> Seq<char> {
    record_head(ts) + text + seq!['\n']
}

/// One record of the combined log: head, port tag, text, newline.
pub open spec fn super_record(ts: Timestamp, port: Seq<char>, text: Seq<char>) -> Seq<char> {
    record_head(ts) + port_tag(port) + text + seq!['\n']
}

/// The records written for one event to the combined log and to the port's
/// own log share the head and the text; they differ exactly by the port
/// tag between them.
pub proof fn lemma_records_agree(ts: Timestamp, port: Seq<char>, text: Seq<char>)
    ensures
        super_record(ts, port, text) == record_head(ts) + port_tag(port) + text + seq!['\n'],
        port_record(ts, text) == record_head(ts) + text + seq!['\n'],
        super_record(ts, port, text).skip(
            record_head(ts).len() + port_tag(port).len() as int,
        ) == port_record(ts, text).skip(record_head(ts).len() as int),
{
    assert(super_record(ts, port, text).skip(record_head(ts).len() + port_tag(port).len() as int)
        =~= text + seq!['\n']);
    assert(port_record(ts, text).skip(record_head(ts).len() as int) =~= text + seq!['\n']);
}

/// The records appended for one data event.
pub struct LogAppend {
    /// Goes to `logs/<port>.log`.
    pub port_record: String,
    /// Goes to `logs/super.log`.
    pub super_record: String,
}

/// The position of `n` among the per-port logs.
pub open spec fn log_find(logs: Seq<(String, Vec<String>)>, n: Seq<char>) -> Option<int>
    decreases logs.len(),
{
    if logs.len() == 0 {
        None
    } else if logs[0].0@ == n {
        Some(0)
    } else {
        match log_find(logs.skip(1), n) {
            None => None,
            Some(j) => Some(j + 1),
        }
    }
}

/// `log_find` finds exactly the first log with the name.
pub proof fn lemma_log_find(logs: Seq<(String, Vec<String>)>, n: Seq<char>)
    ensures
        match log_find(logs, n) {
            Some(i) => 0 <= i < logs.len() && logs[i].0@ == n && forall|j: int|
                0 <= j < i ==> (#[trigger] logs[j].0@) != n,
            None => forall|j: int| 0 <= j < logs.len() ==> (#[trigger] logs[j].0@) != n,
        },
    decreases logs.len(),
{
    if logs.len() > 0 {
        lemma_log_find(logs.skip(1), n);
        if logs[0].0@ != n {
            match log_find(logs.skip(1), n) {
                Some(j) => {
                    assert(logs.skip(1)[j] == logs[j + 1]);
                    assert forall|q: int| 0 <= q < j + 1 implies (#[trigger] logs[q].0@) != n by {
                        if q > 0 {
                            assert(logs.skip(1)[q - 1] == logs[q]);
                        }
                    }
                }
                None => {
                    assert forall|q: int| 0 <= q < logs.len() implies (#[trigger] logs[q].0@)
                        != n by {
                        if q > 0 {
                            assert(logs.skip(1)[q - 1] == logs[q]);
                        }
                    }
                }
            }
        }
    }
}

/// The logger's state: what each log file holds since its last truncation.
pub struct Logger {
    /// Records of `logs/super.log`, oldest first.
    pub super_log: Vec<String>,
    /// For each port seen so far, the records of `logs/<port>.log`; ports
    /// appear in order of first sight.
    pub port_logs: Vec<(String, Vec<String>)>,
}

impl Logger {
    /// Creates a logger with empty logs and no ports seen.
    pub fn new() -> (r: Logger)
        ensures
            r.super_log@.len() == 0,
            r.port_logs@.len() == 0,
    {
        Logger { super_log: Vec::new(), port_logs: Vec::new() }
    }

    /// Consumes one data event: decodes the bytes as UTF-8 (lossily), trims
    /// trailing line breaks, and appends one record to the combined log and
    /// one to the port's log, opening that log on first sight of the port.
    /// Returns the two records for the caller to write to the real files.
    pub fn handle_data(&mut self, port: &str, timestamp: Timestamp, data: &Vec<u8>) -> (r:
        LogAppend)
        requires
            timestamp.wf(),
        ensures
            ({
                let text = trimmed(lossy_of(data@));
                &&& r.port_record@ == port_record(timestamp, text)
                &&& r.super_record@ == super_record(timestamp, port@, text)
                &&& final(self).super_log@.len() == old(self).super_log@.len() + 1
                &&& final(self).super_log@.last()@ == super_record(timestamp, port@, text)
                &&& forall|j: int|
                    0 <= j < old(self).super_log@.len() ==> final(self).super_log@[j] == old(self).super_log@[j]
                &&& match log_find(old(self).port_logs@, port@) {
                    Some(i) => {
                        &&& final(self).port_logs@.len() == old(self).port_logs@.len()
                        &&& final(self).port_logs@[i].0@ == port@
                        &&& final(self).port_logs@[i].1@.len() == old(self).port_logs@[i].1@.len() + 1
                        &&& final(self).port_logs@[i].1@.last()@ == port_record(timestamp, text)
                        &&& forall|j: int|
                            0 <= j < old(self).port_logs@[i].1@.len() ==> final(self).port_logs@[i].1@[j] == old(self).port_logs@[i].1@[j]
                        &&& forall|j: int|
                            0 <= j < old(self).port_logs@.len() && j != i ==> final(self).port_logs@[j] == old(self).port_logs@[j]
                    },
                    None => {
                        &&& final(self).port_logs@.len() == old(self).port_logs@.len() + 1
                        &&& final(self).port_logs@.last().0@ == port@
                        &&& final(self).port_logs@.last().1@.len() == 1
                        &&& final(self).port_logs@.last().1@[0]@ == port_record(timestamp, text)
                        &&& forall|j: int|
                            0 <= j < old(self).port_logs@.len() ==> final(self).port_logs@[j]
                                == old(self).port_logs@[j]
                    },
                }
            }),
    {
        proof {
            reveal_strlit("[");
            reveal_strlit("] ");
        }
        let decoded = utf8_lossy(data);
        let text = trim_line_breaks(decoded.as_str());
        let ts = timestamp.format();

        let mut head = "[".to_owned();
        head.append(ts.as_str());
        head.append("] ");
        proof {
            assert(head@ =~= record_head(timestamp));
        }

        let mut tag = "[".to_owned();
        tag.append(port);
        tag.append("] ");
        proof {
            assert(tag@ =~= port_tag(port@));
        }

        proof {
            reveal_strlit("\n");
        }
        let mut prec = head.clone();
        prec.append(text.as_str());
        prec.append("\n");
        proof {
            assert("\n"@ =~= seq!['\n']) by {
                reveal_strlit("\n");
            }
            assert(prec@ =~= port_record(timestamp, trimmed(lossy_of(data@))));
        }

        let mut srec = head.clone();
        srec.append(tag.as_str());
        srec.append(text.as_str());
        srec.append("\n");
        proof {
            assert(srec@ =~= super_record(timestamp, port@, trimmed(lossy_of(data@))));
        }

        self.super_log.push(srec.clone());

        let idx = self.find_log(port);
        proof {
            lemma_log_find(self.port_logs@, port@);
        }
        match idx {
            Some(i) => {
                let ghost prev_logs = self.port_logs@;
                let mut entry = self.port_logs.remove(i);
                entry.1.push(prec.clone());
                let ghost new_entry = entry;
                self.port_logs.insert(i, entry);
                proof {
                    assert(self.port_logs@ =~= prev_logs.update(i as int, new_entry));
                }
            }
            None => {
                let mut recs: Vec<String> = Vec::new();
                recs.push(prec.clone());
                self.port_logs.push((port.to_owned(), recs));
            }
        }
        LogAppend { port_record: prec, super_record: srec }
    }

    /// Finds the position of the named port's log.
    fn find_log(&self, port: &str) -> (r: Option<usize>)
        ensures
            match r {
                Some(i) => log_find(self.port_logs@, port@) == Some(i as int),
                None => log_find(self.port_logs@, port@) is None,
            },
    {
        let n = self.port_logs.len();
        let mut i: usize = 0;
        while i < n
            invariant
                n == self.port_logs@.len(),
                i <= n,
                forall|j: int| 0 <= j < i ==> (#[trigger] self.port_logs@[j].0@) != port@,
            decreases n - i,
        {
            if str_eq(self.port_logs[i].0.as_str(), port) {
                proof {
                    lemma_log_find(self.port_logs@, port@);
                    match log_find(self.port_logs@, port@) {
                        None => {
                            assert(self.port_logs@[i as int].0@ != port@);
                        }
                        Some(k) => {
                            if k < i as int {
                                assert(self.port_logs@[k].0@ != port@);
                            } else if k > i as int {
                                assert(self.port_logs@[i as int].0@ != port@);
                            }
                        }
                    }
                }
                return Some(i);
            }
            i = i + 1;
        }
        proof {
            lemma_log_find(self.port_logs@, port@);
        }
        None
    }

    /// Truncates every log to length zero; the ports stay known.
    pub fn purge(&mut self)
        ensures
            final(self).super_log@.len() == 0,
            final(self).port_logs@.len() == old(self).port_logs@.len(),
            forall|i: int|
                0 <= i < final(self).port_logs@.len() ==> (#[trigger] final(self).port_logs@[i]).0@ == old(self).port_logs@[i].0@ && final(self).port_logs@[i].1@.len() == 0,
    {
        self.super_log = Vec::new();
        let n = self.port_logs.len();
        let mut i: usize = 0;
        while i < n
            invariant
                n == self.port_logs@.len(),
                n == old(self).port_logs@.len(),
                self.super_log@.len() == 0,
                i <= n,
                forall|j: int|
                    0 <= j < n ==> (#[trigger] self.port_logs@[j]).0@ == old(self).port_logs@[j].0@,
                forall|j: int| 0 <= j < i ==> (#[trigger] self.port_logs@[j]).1@.len() == 0,
            decreases n - i,
        {
            let ghost prev_logs = self.port_logs@;
            let mut entry = self.port_logs.remove(i);
            entry.1 = Vec::new();
            let ghost new_entry = entry;
            self.port_logs.insert(i, entry);
            proof {
                assert(self.port_logs@ =~= prev_logs.update(i as int, new_entry));
            }
            i = i + 1;
        }
    }
}

} // verus!
