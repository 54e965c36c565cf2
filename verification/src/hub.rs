//! The serial hub: a registry of open ports, each with its configuration
//! and a bounded queue of byte buffers awaiting its writer. Sending to a
//! list of targets appends each port's line ending to a fresh copy of the
//! payload and try-enqueues it, in the given order, stopping at the first
//! failure. The caller's writer tasks drain the queues and perform the
//! device I/O.

use vstd::prelude::*;

use crate::config::{LineEnding, PortConfig};
use crate::text::{lex_lt, lemma_lex_lt_trichotomy, str_eq, str_lt};

verus! {

/// Capacity of each port's writer queue.
pub const WRITER_QUEUE_CAPACITY: usize = 32;

/// Why a send failed.
#[derive(Debug, PartialEq, Eq)]
pub enum SendError {
    /// The named target is not in the registry.
    PortNotFound(String),
    /// The target's writer queue is full; the caller may retry.
    Backpressure,
}

/// A send failure at the specification level: the same two causes, the
/// failing name as its characters.
pub ghost enum SpecSendError {
    PortNotFound(Seq<char>),
    Backpressure,
}

/// The specification value of a send result.
pub open spec fn send_result_model(r: Result<(), SendError>) -> Result<(), SpecSendError> {
    match r {
        Ok(u) => Ok(u),
        Err(SendError::PortNotFound(n)) => Err(SpecSendError::PortNotFound(n@)),
        Err(SendError::Backpressure) => Err(SpecSendError::Backpressure),
    }
}

impl SendError {
    /// The text of this error: its operator-facing name.
    pub open spec fn message_spec(&self) -> Seq<char> {
        match *self {
            SendError::PortNotFound(n) => "PortNotFound: "@ + n@,
            SendError::Backpressure => "Backpressure"@,
        }
    }

    /// Renders the error, naming the failing target where one is known.
    pub fn message(&self) -> (r: String)
        ensures
            r@ == self.message_spec(),
    {
        match self {
            SendError::PortNotFound(n) => {
                let mut m = "PortNotFound: ".to_owned();
                m.append(n.as_str());
                m
            },
            SendError::Backpressure => "Backpressure".to_owned(),
        }
    }
}

/// A bounded first-in-first-out queue of byte buffers.
pub struct WriterQueue {
    pub items: Vec<Vec<u8>>,
}

impl WriterQueue {
    /// The queued buffers, oldest first.
    pub open spec fn view_spec(&self) -> Seq<Seq<u8>> {
        self.items@.map_values(|v: Vec<u8>| v@)
    }

    /// The queue never exceeds its capacity.
    pub open spec fn wf(&self) -> bool {
        self.items@.len() <= WRITER_QUEUE_CAPACITY
    }

    /// Creates an empty queue.
    pub fn new() -> (r: WriterQueue)
        ensures
            r.wf(),
            r.view_spec().len() == 0,
    {
        let q = WriterQueue { items: Vec::new() };
        proof {
            assert(q.view_spec() =~= Seq::<Seq<u8>>::empty());
        }
        q
    }

    /// Number of queued buffers.
    pub fn len(&self) -> (r: usize)
        ensures
            r == self.view_spec().len(),
    {
        self.items.len()
    }

    /// Appends a buffer if there is room, else reports backpressure and
    /// leaves the queue unchanged.
    pub fn try_enqueue(&mut self, buf: Vec<u8>) -> (r: Result<(), SendError>)
        requires
            old(self).wf(),
        ensures
            final(self).wf(),
            old(self).view_spec().len() < WRITER_QUEUE_CAPACITY ==> r is Ok && final(self).view_spec() == old(self).view_spec().push(buf@),
            old(self).view_spec().len() >= WRITER_QUEUE_CAPACITY ==> r
                == Err::<(), SendError>(SendError::Backpressure) && *final(self) == *old(self),
    {
        if self.items.len() >= WRITER_QUEUE_CAPACITY {
            return Err(SendError::Backpressure);
        }
        self.items.push(buf);
        proof {
            assert(self.view_spec() =~= old(self).view_spec().push(self.items@.last()@));
        }
        Ok(())
    }

    /// Removes and returns the oldest buffer, if any.
    pub fn pop_front(&mut self) -> (r: Option<Vec<u8>>)
        requires
            old(self).wf(),
        ensures
            final(self).wf(),
            old(self).view_spec().len() == 0 ==> r is None && *final(self) == *old(self),
            old(self).view_spec().len() > 0 ==> {
                &&& r matches Some(b) && b@ == old(self).view_spec()[0]
                &&& final(self).view_spec() == old(self).view_spec().skip(1)
            },
    {
        if self.items.len() == 0 {
            return None;
        }
        let b = self.items.remove(0);
        proof {
            assert(self.view_spec() =~= old(self).view_spec().skip(1));
        }
        Some(b)
    }
}

/// One managed port: its name, its settings, and the queue its writer task
/// drains.
pub struct PortEntry {
    pub name: String,
    pub config: PortConfig,
    pub queue: WriterQueue,
}

/// The registry is sorted strictly ascending by name, so names are unique
/// and listing is deterministic.
pub open spec fn names_sorted(ports: Seq<PortEntry>) -> bool {
    forall|i: int, j: int|
        0 <= i < j < ports.len() ==> lex_lt(#[trigger] ports[i].name@, #[trigger] ports[j].name@)
}

/// The position of the entry named `n`, if one stands in the registry.
pub open spec fn find_index(ports: Seq<PortEntry>, n: Seq<char>) -> Option<int>
    decreases ports.len(),
{
    if ports.len() == 0 {
        None
    } else if ports[0].name@ == n {
        Some(0)
    } else {
        match find_index(ports.skip(1), n) {
            None => None,
            Some(j) => Some(j + 1),
        }
    }
}

/// `find_index` finds exactly the first entry with the name.
pub proof fn lemma_find_index(ports: Seq<PortEntry>, n: Seq<char>)
    ensures
        match find_index(ports, n) {
            Some(i) => 0 <= i < ports.len() && ports[i].name@ == n && forall|j: int|
                0 <= j < i ==> (#[trigger] ports[j].name@) != n,
            None => forall|j: int| 0 <= j < ports.len() ==> (#[trigger] ports[j].name@) != n,
        },
    decreases ports.len(),
{
    if ports.len() > 0 {
        lemma_find_index(ports.skip(1), n);
        if ports[0].name@ != n {
            match find_index(ports.skip(1), n) {
                Some(j) => {
                    assert(ports.skip(1)[j] == ports[j + 1]);
                    assert forall|q: int| 0 <= q < j + 1 implies (#[trigger] ports[q].name@)
                        != n by {
                        if q > 0 {
                            assert(ports.skip(1)[q - 1] == ports[q]);
                        }
                    }
                }
                None => {
                    assert forall|q: int| 0 <= q < ports.len() implies (#[trigger] ports[q].name@)
                        != n by {
                        if q > 0 {
                            assert(ports.skip(1)[q - 1] == ports[q]);
                        }
                    }
                }
            }
        }
    }
}

/// Manages the open ports: configurations and writer queues, keyed by name.
pub struct SerialHub {
    pub ports: Vec<PortEntry>,
}

impl SerialHub {
    /// The registry is sorted by name and every queue is within bounds.
    pub open spec fn wf(&self) -> bool {
        &&& names_sorted(self.ports@)
        &&& forall|i: int| 0 <= i < self.ports@.len() ==> (#[trigger] self.ports@[i]).queue.wf()
    }

    /// The registry entries, by name order.
    pub open spec fn ports_spec(&self) -> Seq<PortEntry> {
        self.ports@
    }

    /// A port of this name is registered.
    pub open spec fn has_port_spec(&self, n: Seq<char>) -> bool {
        find_index(self.ports@, n) is Some
    }

    /// Creates a new empty hub.
    pub fn new() -> (r: SerialHub)
        ensures
            r.wf(),
            r.ports_spec().len() == 0,
    {
        SerialHub { ports: Vec::new() }
    }

    /// Finds the position of `name` in the registry.
    fn find(&self, name: &str) -> (r: Option<usize>)
        ensures
            match r {
                Some(i) => find_index(self.ports@, name@) == Some(i as int),
                None => find_index(self.ports@, name@) is None,
            },
    {
        proof {
            lemma_find_index(self.ports@, name@);
        }
        let n = self.ports.len();
        let mut i: usize = 0;
        while i < n
            invariant
                n == self.ports@.len(),
                i <= n,
                forall|j: int| 0 <= j < i ==> (#[trigger] self.ports@[j].name@) != name@,
            decreases n - i,
        {
            if str_eq(self.ports[i].name.as_str(), name) {
                proof {
                    lemma_find_index(self.ports@, name@);
                    match find_index(self.ports@, name@) {
                        None => {
                            assert(self.ports@[i as int].name@ != name@);
                        }
                        Some(k) => {
                            if k < i as int {
                                assert(self.ports@[k].name@ != name@);
                            } else if k > i as int {
                                assert(self.ports@[i as int].name@ != name@);
                            }
                        }
                    }
                }
                return Some(i);
            }
            i = i + 1;
        }
        None
    }

    /// True if a port with this name is registered.
    pub fn has_port(&self, name: &str) -> (r: bool)
        ensures
            r == self.has_port_spec(name@),
    {
        self.find(name).is_some()
    }

    /// Registers a port under `name` with a fresh empty writer queue. An
    /// existing port of the same name is replaced; otherwise the entry is
    /// inserted at its place in name order. Other entries are untouched.
    pub fn open(&mut self, name: String, config: PortConfig)
        requires
            old(self).wf(),
        ensures
            final(self).wf(),
            match find_index(old(self).ports@, name@) {
                Some(i) => {
                    &&& final(self).ports@.len() == old(self).ports@.len()
                    &&& final(self).ports@[i].name@ == name@
                    &&& final(self).ports@[i].config.eq_spec_with(&config)
                    &&& final(self).ports@[i].queue.view_spec().len() == 0
                    &&& forall|j: int|
                        0 <= j < old(self).ports@.len() && j != i ==> #[trigger] final(self).ports@[j] == old(self).ports@[j]
                },
                None => {
                    &&& final(self).ports@.len() == old(self).ports@.len() + 1
                    &&& exists|p: int|
                        {
                            &&& 0 <= p < final(self).ports@.len()
                            &&& (#[trigger] final(self).ports@[p]).name@ == name@
                            &&& final(self).ports@[p].config.eq_spec_with(&config)
                            &&& final(self).ports@[p].queue.view_spec().len() == 0
                            &&& forall|j: int| 0 <= j < p ==> #[trigger] final(self).ports@[j]
                                == old(self).ports@[j]
                            &&& forall|j: int|
                                p < j < final(self).ports@.len() ==> #[trigger] final(self).ports@[j] == old(self).ports@[j - 1]
                        }
                },
            },
    {
        proof {
            lemma_find_index(self.ports@, name@);
        }
        let n = self.ports.len();
        let mut i: usize = 0;
        // Walk to the first entry whose name is not before `name`.
        while i < n && str_lt(self.ports[i].name.as_str(), name.as_str())
            invariant
                n == self.ports@.len(),
                i <= n,
                forall|j: int| 0 <= j < i ==> lex_lt(#[trigger] self.ports@[j].name@, name@),
                names_sorted(self.ports@),
            decreases n - i,
        {
            i = i + 1;
        }
        proof {
            lemma_find_index(self.ports@, name@);
            if i < n {
                lemma_lex_lt_trichotomy(self.ports@[i as int].name@, name@);
            }
            assert forall|j: int| 0 <= j < n && #[trigger] self.ports@[j].name@ == name@ implies j
                == i as int by {
                if j < i {
                    lemma_lex_lt_trichotomy(self.ports@[j].name@, name@);
                } else if j > i as int {
                    assert(lex_lt(self.ports@[i as int].name@, self.ports@[j].name@));
                    lemma_lex_lt_trichotomy(self.ports@[i as int].name@, name@);
                }
            }
        }
        if i < n && str_eq(self.ports[i].name.as_str(), name.as_str()) {
            let entry = PortEntry { name, config, queue: WriterQueue::new() };
            self.ports.set(i, entry);
            proof {
                lemma_find_index(old(self).ports@, name@);
                match find_index(old(self).ports@, name@) {
                    None => {
                        assert(old(self).ports@[i as int].name@ != name@);
                    }
                    Some(k) => {
                        assert(old(self).ports@[k].name@ == name@);
                        assert(k == i as int);
                    }
                }
                assert(names_sorted(self.ports@)) by {
                    assert forall|a: int, b: int|
                        0 <= a < b < self.ports@.len() implies lex_lt(
                        #[trigger] self.ports@[a].name@,
                        #[trigger] self.ports@[b].name@,
                    ) by {
                        assert(self.ports@[a].name@ == old(self).ports@[a].name@);
                        assert(self.ports@[b].name@ == old(self).ports@[b].name@);
                        assert(lex_lt(old(self).ports@[a].name@, old(self).ports@[b].name@));
                    }
                }
                assert forall|j: int| 0 <= j < self.ports@.len() implies (#[trigger] self.ports@[j]).queue.wf() by {
                    if j != i as int {
                        assert(self.ports@[j] == old(self).ports@[j]);
                    }
                }
            }
        } else {
            let entry = PortEntry { name, config, queue: WriterQueue::new() };
            self.ports.insert(i, entry);
            proof {
                lemma_find_index(old(self).ports@, name@);
                match find_index(old(self).ports@, name@) {
                    None => {}
                    Some(k) => {
                        assert(old(self).ports@[k].name@ == name@);
                        assert(false);
                    }
                }
                assert forall|a: int, b: int|
                    0 <= a < b < self.ports@.len() implies lex_lt(
                    #[trigger] self.ports@[a].name@,
                    #[trigger] self.ports@[b].name@,
                ) by {
                    let iv = i as int;
                    if a < iv && b == iv {
                        assert(self.ports@[a] == old(self).ports@[a]);
                    } else if a == iv && b > iv {
                        assert(self.ports@[b] == old(self).ports@[b - 1]);
                        assert(b - 1 >= iv);
                        assert(old(self).ports@[iv].name@ != name@);
                        assert(!lex_lt(old(self).ports@[iv].name@, name@));
                        lemma_lex_lt_trichotomy(old(self).ports@[iv].name@, name@);
                        assert(lex_lt(name@, old(self).ports@[iv].name@));
                        if b - 1 > iv {
                            assert(lex_lt(
                                old(self).ports@[iv].name@,
                                old(self).ports@[b - 1].name@,
                            ));
                            lemma_lex_lt_transitive(
                                name@,
                                old(self).ports@[iv].name@,
                                old(self).ports@[b - 1].name@,
                            );
                        }
                    } else if a < iv && b > iv {
                        assert(self.ports@[a] == old(self).ports@[a]);
                        assert(self.ports@[b] == old(self).ports@[b - 1]);
                        if b - 1 == a {
                            assert(false);
                        }
                    } else if b < iv {
                        assert(self.ports@[a] == old(self).ports@[a]);
                        assert(self.ports@[b] == old(self).ports@[b]);
                    } else if a > iv {
                        assert(self.ports@[a] == old(self).ports@[a - 1]);
                        assert(self.ports@[b] == old(self).ports@[b - 1]);
                    }
                }
                assert forall|j: int| 0 <= j < self.ports@.len() implies (#[trigger] self.ports@[j]).queue.wf() by {
                    if j < i as int {
                        assert(self.ports@[j] == old(self).ports@[j]);
                    } else if j > i as int {
                        assert(self.ports@[j] == old(self).ports@[j - 1]);
                    }
                }
                let p = i as int;
                assert((#[trigger] self.ports@[p]).name@ == name@);
                assert(self.ports@[p].config.eq_spec_with(&config));
                assert(self.ports@[p].queue.view_spec().len() == 0);
                assert(forall|j: int| 0 <= j < p ==> #[trigger] self.ports@[j] == old(self).ports@[j]);
                assert(forall|j: int|
                    p < j < self.ports@.len() ==> #[trigger] self.ports@[j] == old(self).ports@[j
                        - 1]);
            }
        }
    }

    /// Removes the named port, if present; idempotent.
    pub fn close(&mut self, name: &str)
        requires
            old(self).wf(),
        ensures
            final(self).wf(),
            match find_index(old(self).ports@, name@) {
                Some(i) => final(self).ports@ == old(self).ports@.remove(i),
                None => *final(self) == *old(self),
            },
    {
        match self.find(name) {
            Some(i) => {
                proof {
                    lemma_find_index(self.ports@, name@);
                }
                self.ports.remove(i);
                proof {
                    lemma_find_index(old(self).ports@, name@);
                    assert forall|a: int, b: int|
                        0 <= a < b < self.ports@.len() implies lex_lt(
                        #[trigger] self.ports@[a].name@,
                        #[trigger] self.ports@[b].name@,
                    ) by {
                        let iv = i as int;
                        if b < iv {
                        } else if a < iv {
                            assert(self.ports@[b] == old(self).ports@[b + 1]);
                        } else {
                            assert(self.ports@[a] == old(self).ports@[a + 1]);
                            assert(self.ports@[b] == old(self).ports@[b + 1]);
                        }
                    }
                }
            }
            None => {}
        }
    }

    /// The configuration of the named port, if it is registered.
    pub fn get_config(&self, name: &str) -> (r: Option<PortConfig>)
        ensures
            match find_index(self.ports@, name@) {
                Some(i) => r matches Some(c) && c.eq_spec_with(&self.ports@[i].config),
                None => r is None,
            },
    {
        let r = self.find(name);
        proof {
            lemma_find_index(self.ports@, name@);
        }
        match r {
            Some(i) => Some(self.ports[i].config.clone()),
            None => None,
        }
    }

    /// All ports as `(name, config)` pairs, in ascending name order.
    pub fn list_ports(&self) -> (r: Vec<(String, PortConfig)>)
        requires
            self.wf(),
        ensures
            r@.len() == self.ports@.len(),
            forall|i: int|
                0 <= i < r@.len() ==> (#[trigger] r@[i]).0@ == self.ports@[i].name@
                    && r@[i].1.eq_spec_with(&self.ports@[i].config),
    {
        let n = self.ports.len();
        let mut out: Vec<(String, PortConfig)> = Vec::new();
        let mut i: usize = 0;
        while i < n
            invariant
                n == self.ports@.len(),
                i <= n,
                out@.len() == i,
                forall|j: int|
                    0 <= j < i ==> (#[trigger] out@[j]).0@ == self.ports@[j].name@
                        && out@[j].1.eq_spec_with(&self.ports@[j].config),
            decreases n - i,
        {
            out.push((self.ports[i].name.clone(), self.ports[i].config.clone()));
            i = i + 1;
        }
        out
    }

    /// All port names, in ascending order.
    pub fn port_names(&self) -> (r: Vec<String>)
        requires
            self.wf(),
        ensures
            r@.len() == self.ports@.len(),
            forall|i: int| 0 <= i < r@.len() ==> (#[trigger] r@[i])@ == self.ports@[i].name@,
    {
        let n = self.ports.len();
        let mut out: Vec<String> = Vec::new();
        let mut i: usize = 0;
        while i < n
            invariant
                n == self.ports@.len(),
                i <= n,
                out@.len() == i,
                forall|j: int| 0 <= j < i ==> (#[trigger] out@[j])@ == self.ports@[j].name@,
            decreases n - i,
        {
            out.push(self.ports[i].name.clone());
            i = i + 1;
        }
        out
    }

    /// The abstract state of the hub: for each port its name, its line
    /// ending and the buffers its writer queue holds.
    pub open spec fn model(&self) -> Seq<PortModel> {
        Self::model_of(self.ports@)
    }

    /// The abstract state of a registry.
    pub open spec fn model_of(ports: Seq<PortEntry>) -> Seq<PortModel> {
        ports.map_values(
            |e: PortEntry|
                PortModel {
                    name: e.name@,
                    ending: e.config.line_ending,
                    queue: e.queue.view_spec(),
                },
        )
    }

    /// What `send` leaves behind: for each target in order, the payload with
    /// that port's line ending appended joins the port's writer queue; the
    /// walk stops at the first unknown name or full queue, reporting it, and
    /// earlier enqueues stand.
    pub open spec fn spec_send(
        ports: Seq<PortModel>,
        targets: Seq<Seq<char>>,
        payload: Seq<u8>,
    ) -> (Seq<PortModel>, Result<(), SpecSendError>)
        decreases targets.len(),
    {
        if targets.len() == 0 {
            (ports, Ok(()))
        } else {
            match find_model(ports, targets[0]) {
                None => (ports, Err(SpecSendError::PortNotFound(targets[0]))),
                Some(i) => {
                    let entry = ports[i];
                    if entry.queue.len() >= WRITER_QUEUE_CAPACITY {
                        (ports, Err(SpecSendError::Backpressure))
                    } else {
                        let entry2 = PortModel {
                            queue: entry.queue.push(payload + entry.ending.spec_bytes()),
                            ..entry
                        };
                        Self::spec_send(ports.update(i, entry2), targets.skip(1), payload)
                    }
                },
            }
        }
    }

    /// Sends `payload` to each named target in order: a fresh copy of the
    /// payload with the target's line ending appended is try-enqueued onto
    /// its writer queue. Stops at the first unknown name or full queue and
    /// reports it; earlier targets keep their data.
    pub fn send(&mut self, targets: &Vec<String>, payload: &Vec<u8>) -> (r: Result<(), SendError>)
        requires
            old(self).wf(),
        ensures
            final(self).wf(),
            (final(self).model(), send_result_model(r)) == Self::spec_send(
                old(self).model(),
                targets@.map_values(|s: String| s@),
                payload@,
            ),
    {
        let ghost all_targets = targets@.map_values(|s: String| s@);
        proof {
            assert(all_targets.skip(0) =~= all_targets);
        }
        let n = targets.len();
        let mut k: usize = 0;
        while k < n
            invariant
                self.wf(),
                n == targets@.len(),
                k <= n,
                all_targets == targets@.map_values(|s: String| s@),
                Self::spec_send(old(self).model(), all_targets, payload@) == Self::spec_send(
                    self.model(),
                    all_targets.skip(k as int),
                    payload@,
                ),
            decreases n - k,
        {
            let ghost pre = self.model();
            let ghost rest = all_targets.skip(k as int);
            proof {
                assert(rest[0] == all_targets[k as int]);
                assert(all_targets[k as int] == targets@[k as int]@);
            }
            let i = match self.find(targets[k].as_str()) {
                Some(i) => i,
                None => {
                    let missing = targets[k].clone();
                    proof {
                        lemma_find_model_agrees(self.ports@, targets@[k as int]@);
                        assert(Self::spec_send(pre, rest, payload@) == (
                        pre,
                        Err::<(), SpecSendError>(SpecSendError::PortNotFound(rest[0])),
                        ));
                        assert(missing@ == rest[0]);
                    }
                    return Err(SendError::PortNotFound(missing));
                },
            };
            proof {
                lemma_find_model_agrees(self.ports@, targets@[k as int]@);
                lemma_find_index(self.ports@, targets@[k as int]@);
            }
            let mut frame = clone_bytes(payload);
            let mut ending = self.ports[i].config.line_ending.as_bytes();
            frame.append(&mut ending);
            let ghost prev_ports = self.ports@;
            let mut entry = self.ports.remove(i);
            let res = entry.queue.try_enqueue(frame);
            let ghost new_entry = entry;
            self.ports.insert(i, entry);
            proof {
                assert(self.ports@ =~= prev_ports.update(i as int, new_entry));
                assert(names_sorted(self.ports@)) by {
                    assert(forall|j: int|
                        0 <= j < self.ports@.len() ==> (#[trigger] self.ports@[j].name@)
                            == prev_ports[j].name@);
                }
            }
            match res {
                Ok(_) => {
                    proof {
                        let m = pre[i as int];
                        let m2 = PortModel {
                            queue: m.queue.push(payload@ + m.ending.spec_bytes()),
                            ..m
                        };
                        assert(frame@ == payload@ + m.ending.spec_bytes());
                        assert(self.model() =~= pre.update(i as int, m2));
                        assert(rest.skip(1) =~= all_targets.skip(k + 1));
                        assert(Self::spec_send(pre, rest, payload@) == Self::spec_send(
                            self.model(),
                            all_targets.skip(k + 1),
                            payload@,
                        ));
                    }
                    k = k + 1;
                }
                Err(e) => {
                    proof {
                        assert(self.model() =~= pre);
                        assert(e == SendError::Backpressure);
                        assert(Self::spec_send(pre, rest, payload@) == (
                        pre,
                        Err::<(), SpecSendError>(SpecSendError::Backpressure),
                        ));
                    }
                    return Err(e);
                }
            }
        }
        proof {
            assert(all_targets.skip(n as int).len() == 0);
        }
        Ok(())
    }

    /// Removes and returns the oldest pending buffer for the named port.
    /// The caller's writer task drains a port's queue through this.
    pub fn pop_write(&mut self, name: &str) -> (r: Option<Vec<u8>>)
        requires
            old(self).wf(),
        ensures
            final(self).wf(),
            match find_index(old(self).ports@, name@) {
                None => r is None && *final(self) == *old(self),
                Some(i) => {
                    let q = old(self).ports@[i].queue.view_spec();
                    if q.len() == 0 {
                        r is None && final(self).model() == old(self).model()
                    } else {
                        (r matches Some(b) && b@ == q[0]) && final(self).model() == old(self).model().update(
                            i,
                            PortModel { queue: q.skip(1), ..old(self).model()[i] },
                        )
                    }
                },
            },
    {
        let i = match self.find(name) {
            Some(i) => i,
            None => {
                return None;
            },
        };
        proof {
            lemma_find_index(self.ports@, name@);
        }
        let ghost prev_ports = self.ports@;
        let mut entry = self.ports.remove(i);
        let r = entry.queue.pop_front();
        let ghost new_entry = entry;
        self.ports.insert(i, entry);
        proof {
            assert(self.ports@ =~= prev_ports.update(i as int, new_entry));
            if old(self).ports@[i as int].queue.view_spec().len() == 0 {
                assert(self.ports@ =~= old(self).ports@);
                assert(self.model() =~= old(self).model());
            } else {
                assert(self.model() =~= old(self).model().update(
                    i as int,
                    PortModel {
                        queue: old(self).ports@[i as int].queue.view_spec().skip(1),
                        ..old(self).model()[i as int]
                    },
                ));
            }
            assert(names_sorted(self.ports@)) by {
                assert(forall|j: int|
                    0 <= j < self.ports@.len() ==> (#[trigger] self.ports@[j].name@) == old(self).ports@[j].name@);
            }
        }
        r
    }
}

/// The abstract state of one port.
pub ghost struct PortModel {
    pub name: Seq<char>,
    pub ending: LineEnding,
    pub queue: Seq<Seq<u8>>,
}

/// The position of the port named `n` in the abstract registry.
pub open spec fn find_model(ports: Seq<PortModel>, n: Seq<char>) -> Option<int>
    decreases ports.len(),
{
    if ports.len() == 0 {
        None
    } else if ports[0].name == n {
        Some(0)
    } else {
        match find_model(ports.skip(1), n) {
            None => None,
            Some(j) => Some(j + 1),
        }
    }
}

/// The position where the name `n` stands, or a sentinel when it is absent.
pub open spec fn found_at(ports: Seq<PortModel>, n: Seq<char>) -> int {
    match find_model(ports, n) {
        Some(i) => i,
        None => -1,
    }
}

/// `find_model` finds exactly the first port with the name.
pub proof fn lemma_find_model(ports: Seq<PortModel>, n: Seq<char>)
    ensures
        match find_model(ports, n) {
            Some(i) => 0 <= i < ports.len() && ports[i].name == n && forall|j: int|
                0 <= j < i ==> (#[trigger] ports[j].name) != n,
            None => forall|j: int| 0 <= j < ports.len() ==> (#[trigger] ports[j].name) != n,
        },
    decreases ports.len(),
{
    if ports.len() > 0 {
        lemma_find_model(ports.skip(1), n);
        if ports[0].name != n {
            match find_model(ports.skip(1), n) {
                Some(j) => {
                    assert(ports.skip(1)[j] == ports[j + 1]);
                    assert forall|q: int| 0 <= q < j + 1 implies (#[trigger] ports[q].name)
                        != n by {
                        if q > 0 {
                            assert(ports.skip(1)[q - 1] == ports[q]);
                        }
                    }
                }
                None => {
                    assert forall|q: int| 0 <= q < ports.len() implies (#[trigger] ports[q].name)
                        != n by {
                        if q > 0 {
                            assert(ports.skip(1)[q - 1] == ports[q]);
                        }
                    }
                }
            }
        }
    }
}

/// Registries whose ports carry the same names in the same order look the
/// same to a lookup.
proof fn lemma_find_model_same_names(a: Seq<PortModel>, b: Seq<PortModel>, n: Seq<char>)
    requires
        a.len() == b.len(),
        forall|j: int| 0 <= j < a.len() ==> (#[trigger] a[j].name) == b[j].name,
    ensures
        find_model(a, n) == find_model(b, n),
    decreases a.len(),
{
    if a.len() > 0 {
        assert(forall|j: int|
            0 <= j < a.skip(1).len() ==> (#[trigger] a.skip(1)[j].name) == a[j + 1].name);
        assert(forall|j: int|
            0 <= j < b.skip(1).len() ==> (#[trigger] b.skip(1)[j].name) == b[j + 1].name);
        lemma_find_model_same_names(a.skip(1), b.skip(1), n);
    }
}

/// The fan-out law of `send`: when the targets are pairwise distinct, every
/// one is registered, and every one's queue has room, the send succeeds and
/// each target's queue gains exactly one buffer — the payload with that
/// port's line ending appended — while every other port is untouched.
pub proof fn lemma_send_fans_out(ports: Seq<PortModel>, targets: Seq<Seq<char>>, payload: Seq<u8>)
    requires
        forall|i: int, j: int|
            0 <= i < j < targets.len() ==> (#[trigger] targets[i]) != (#[trigger] targets[j]),
        forall|i: int| 0 <= i < targets.len() ==> find_model(ports, #[trigger] targets[i]) is Some,
        forall|i: int|
            0 <= i < targets.len() ==> ports[found_at(ports, #[trigger] targets[i])].queue.len()
                < WRITER_QUEUE_CAPACITY,
    ensures
        SerialHub::spec_send(ports, targets, payload).1 == Ok::<(), SpecSendError>(()),
        SerialHub::spec_send(ports, targets, payload).0.len() == ports.len(),
        forall|p: int|
            0 <= p < ports.len() ==> #[trigger] SerialHub::spec_send(ports, targets, payload).0[p]
                == (if exists|k: int|
                0 <= k < targets.len() && #[trigger] found_at(ports, targets[k]) == p {
                PortModel {
                    queue: ports[p].queue.push(payload + ports[p].ending.spec_bytes()),
                    ..ports[p]
                }
            } else {
                ports[p]
            }),
    decreases targets.len(),
{
    if targets.len() == 0 {
        assert forall|p: int| 0 <= p < ports.len() implies #[trigger] SerialHub::spec_send(
            ports,
            targets,
            payload,
        ).0[p] == ports[p] by {
            if exists|k: int| 0 <= k < targets.len() && #[trigger] found_at(ports, targets[k])
                == p {
                let k = choose|k: int|
                    0 <= k < targets.len() && #[trigger] found_at(ports, targets[k]) == p;
            }
        }
    } else {
        let t0 = targets[0];
        lemma_find_model(ports, t0);
        let i0 = found_at(ports, t0);
        assert(find_model(ports, t0) is Some);
        assert(0 <= i0 < ports.len() && ports[i0].name == t0);
        assert(ports[i0].queue.len() < WRITER_QUEUE_CAPACITY);
        let pushed = PortModel {
            queue: ports[i0].queue.push(payload + ports[i0].ending.spec_bytes()),
            ..ports[i0]
        };
        let ports2 = ports.update(i0, pushed);
        assert(SerialHub::spec_send(ports, targets, payload) == SerialHub::spec_send(
            ports2,
            targets.skip(1),
            payload,
        ));
        let rest = targets.skip(1);
        assert(forall|k: int| 0 <= k < rest.len() ==> (#[trigger] rest[k]) == targets[k + 1]);
        assert(forall|j: int| 0 <= j < ports2.len() ==> (#[trigger] ports2[j].name)
            == ports[j].name);
        // Lookups are unchanged by the enqueue, and no remaining target sits
        // at the port just served.
        assert forall|k: int| 0 <= k < rest.len() implies find_model(ports2, #[trigger] rest[k])
            is Some && found_at(ports2, rest[k]) == found_at(ports, rest[k]) && found_at(
            ports,
            rest[k],
        ) != i0 by {
            lemma_find_model_same_names(ports2, ports, rest[k]);
            lemma_find_model(ports, rest[k]);
            assert(find_model(ports, targets[k + 1]) is Some);
            let ik = found_at(ports, rest[k]);
            assert(ports[ik].name == rest[k]);
            assert(rest[k] != t0);
            if ik == i0 {
                assert(ports[i0].name == t0);
            }
        }
        assert forall|k: int| 0 <= k < rest.len() implies ports2[found_at(
            ports2,
            #[trigger] rest[k],
        )].queue.len() < WRITER_QUEUE_CAPACITY by {
            lemma_find_model(ports, rest[k]);
            let ik = found_at(ports, rest[k]);
            assert(found_at(ports2, rest[k]) == ik && ik != i0);
            assert(0 <= ik < ports.len());
            assert(ports2[ik] == ports[ik]);
            assert(ports[found_at(ports, targets[k + 1])].queue.len() < WRITER_QUEUE_CAPACITY);
        }
        assert(forall|a: int, b: int|
            0 <= a < b < rest.len() ==> (#[trigger] rest[a]) != (#[trigger] rest[b]));
        lemma_send_fans_out(ports2, rest, payload);
        let out = SerialHub::spec_send(ports2, rest, payload).0;
        assert forall|p: int| 0 <= p < ports.len() implies #[trigger] SerialHub::spec_send(
            ports,
            targets,
            payload,
        ).0[p] == (if exists|k: int|
            0 <= k < targets.len() && #[trigger] found_at(ports, targets[k]) == p {
            PortModel {
                queue: ports[p].queue.push(payload + ports[p].ending.spec_bytes()),
                ..ports[p]
            }
        } else {
            ports[p]
        }) by {
            if p == i0 {
                // Only the first target lands here; the rest leave it alone.
                if exists|k: int| 0 <= k < rest.len() && #[trigger] found_at(ports2, rest[k])
                    == p {
                    let k = choose|k: int|
                        0 <= k < rest.len() && #[trigger] found_at(ports2, rest[k]) == p;
                    assert(found_at(ports, rest[k]) != i0);
                }
                assert(out[p] == ports2[p]);
                assert(found_at(ports, targets[0]) == p);
                assert(exists|k: int|
                    0 <= k < targets.len() && #[trigger] found_at(ports, targets[k]) == p);
            } else {
                assert(ports2[p] == ports[p]);
                if exists|k: int| 0 <= k < targets.len() && #[trigger] found_at(ports, targets[k])
                    == p {
                    let k = choose|k: int|
                        0 <= k < targets.len() && #[trigger] found_at(ports, targets[k]) == p;
                    assert(k != 0);
                    assert(rest[k - 1] == targets[k]);
                    assert(found_at(ports2, rest[k - 1]) == p);
                    assert(exists|q: int|
                        0 <= q < rest.len() && #[trigger] found_at(ports2, rest[q]) == p);
                    assert(out[p] == PortModel {
                        queue: ports2[p].queue.push(payload + ports2[p].ending.spec_bytes()),
                        ..ports2[p]
                    });
                } else {
                    if exists|q: int| 0 <= q < rest.len() && #[trigger] found_at(ports2, rest[q])
                        == p {
                        let q = choose|q: int|
                            0 <= q < rest.len() && #[trigger] found_at(ports2, rest[q]) == p;
                        assert(found_at(ports, targets[q + 1]) == p);
                    }
                    assert(out[p] == ports2[p]);
                }
            }
        }
    }
}

/// The backpressure law: when the first target's queue is already full,
/// the send reports backpressure and no queue gains a buffer — the hub is
/// exactly as before, so later sends to other ports are unaffected.
pub proof fn lemma_send_backpressure(
    ports: Seq<PortModel>,
    targets: Seq<Seq<char>>,
    payload: Seq<u8>,
)
    requires
        targets.len() > 0,
        find_model(ports, targets[0]) is Some,
        ports[found_at(ports, targets[0])].queue.len() >= WRITER_QUEUE_CAPACITY,
    ensures
        SerialHub::spec_send(ports, targets, payload) == (
            ports,
            Err::<(), SpecSendError>(SpecSendError::Backpressure),
        ),
{
    lemma_find_model(ports, targets[0]);
}

/// Looking a name up in the registry and in its abstract state agree.
pub proof fn lemma_find_model_agrees(ports: Seq<PortEntry>, n: Seq<char>)
    ensures
        find_model(SerialHub::model_of(ports), n) == find_index(ports, n),
    decreases ports.len(),
{
    if ports.len() > 0 {
        lemma_find_model_agrees(ports.skip(1), n);
        assert(SerialHub::model_of(ports.skip(1)) =~= SerialHub::model_of(ports).skip(1));
    }
}

/// Copies a byte vector.
fn clone_bytes(v: &Vec<u8>) -> (r: Vec<u8>)
    ensures
        r@ == v@,
{
    let mut out: Vec<u8> = Vec::new();
    let n = v.len();
    let mut i: usize = 0;
    while i < n
        invariant
            n == v@.len(),
            i <= n,
            out@ == v@.take(i as int),
        decreases n - i,
    {
        out.push(v[i]);
        assert(out@ =~= v@.take(i + 1));
        i = i + 1;
    }
    assert(out@ =~= v@);
    out
}

/// Lexicographic order is transitive.
pub proof fn lemma_lex_lt_transitive(a: Seq<char>, b: Seq<char>, c: Seq<char>)
    requires
        lex_lt(a, b),
        lex_lt(b, c),
    ensures
        lex_lt(a, c),
    decreases a.len(),
{
    if a.len() > 0 && b.len() > 0 && c.len() > 0 {
        if a[0] == b[0] && b[0] == c[0] {
            lemma_lex_lt_transitive(a.skip(1), b.skip(1), c.skip(1));
        }
    }
}

} // verus!
