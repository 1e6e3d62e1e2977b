//! The relay buffer: the decisions of one direction's copy loop, as a state machine that
//! the caller drives. The caller performs each read, write and flush that `next_step` asks
//! for and reports its outcome back; nothing here blocks or touches a socket.
use vstd::prelude::*;
use vstd::string::StringSliceAdditionalSpecFns;
use crate::bytes::{byte_len, bytes_equal, extend_range};
use crate::matcher::{contains, find};
use crate::rewrite::{
    login_rules, password_segment, password_segment_spec, rewrite, rewritten, rule_view, Rule,
    RuleSet, RuleSetView,
};

verus! {

/// The admission gate of one direction.
#[derive(Clone, Copy, Debug, PartialEq, Eq, Structural)]
pub enum Gate {
    /// No gate: every chunk is forwarded.
    Disabled,
    /// The first chunk decides: one that does not begin with an allowed byte shuts the stream.
    Pending,
    /// Shut: every chunk from now on is dropped.
    Blocking,
}

/// Per-connection metadata that one direction's copy loop owns.
#[derive(Clone, Debug)]
pub struct Client {
    /// The local port of the outbound connection.
    pub local_port: u16,
    /// How many bytes the source has sent so far, before any rewrite.
    pub pos: u64,
    /// The admission gate.
    pub blocking: Gate,
    /// Substrings whose presence in a raw chunk asks for that chunk to be shown.
    pub search: Vec<Vec<u8>>,
    /// Whether one substring suffices (`true`) or all of them are needed (`false`).
    pub pattern_or: bool,
}

/// What the copy loop needs done next.
#[derive(Clone, Copy, Debug, PartialEq, Eq, Structural)]
pub enum Step {
    /// Read one chunk from the source and pass it to `on_read`.
    Read,
    /// Write `pending()` to the destination and pass the count accepted to `on_write`.
    Write,
    /// Flush the destination and then call `on_flush`.
    Flush,
    /// The copy is complete.
    Done,
}

/// The ways a relay session fails.
#[derive(Clone, Copy, Debug, PartialEq, Eq, Structural)]
pub enum RelayError {
    /// The source reported an I/O error.
    ReadFailure,
    /// The destination reported an I/O error or accepted no bytes of a non-empty write.
    WriteFailure,
    /// The outbound connection could not be opened.
    ConnectFailure,
}

/// What a chunk that was just read asks the caller to show.
pub struct ReadReport {
    /// The raw chunk matched the watched substrings.
    pub dump: bool,
    /// The request line, where the raw chunk begins an HTTP `GET` or `POST` request.
    pub request_line: Option<Vec<u8>>,
    /// The source offset at which a rewritten chunk began.
    pub rewritten_at: Option<u64>,
}

/// The first byte of an admitted stream is one of these.
pub open spec fn admitted_first_byte(b: u8) -> bool {
    b == 0x23u8 || b == 0x7eu8
}

/// Whether the watched substrings are in `chunk`: any of them, or all of them.
pub open spec fn watch_hit(search: Seq<Seq<u8>>, any: bool, chunk: Seq<u8>) -> bool {
    if any {
        exists|k: int| 0 <= k < search.len() && contains(#[trigger] search[k], chunk)
    } else {
        forall|k: int| 0 <= k < search.len() ==> contains(#[trigger] search[k], chunk)
    }
}

/// The watched substrings as byte sequences.
pub open spec fn search_view(search: Seq<Vec<u8>>) -> Seq<Seq<u8>> {
    search.map_values(|v: Vec<u8>| v@)
}

/// Whether `chunk` begins an HTTP `GET` or `POST` request.
pub open spec fn is_request(chunk: Seq<u8>) -> bool {
    (4 <= chunk.len() && chunk.subrange(0, 4) == "GET ".spec_bytes())
        || (4 <= chunk.len() && chunk.subrange(0, 4) == "POST".spec_bytes())
}

/// `line` is `chunk` up to, not including, its first carriage return.
pub open spec fn is_first_line(chunk: Seq<u8>, line: Seq<u8>) -> bool {
    &&& line.len() <= chunk.len()
    &&& line == chunk.subrange(0, line.len() as int)
    &&& forall|k: int| 0 <= k < line.len() ==> chunk[k] != 13u8
    &&& (line.len() == chunk.len() || chunk[line.len() as int] == 13u8)
}

/// Whether the watched substrings are in `chunk`: any of them where `any`, else all.
pub fn watch_triggered(search: &Vec<Vec<u8>>, any: bool, chunk: &[u8]) -> (r: bool)
    ensures
        r == watch_hit(search_view(search@), any, chunk@),
{
    let ghost s = search_view(search@);
    let mut k: usize = 0;
    while k < search.len()
        invariant
            k <= search@.len(),
            s == search_view(search@),
            any ==> forall|j: int| 0 <= j < k ==> !contains(#[trigger] s[j], chunk@),
            !any ==> forall|j: int| 0 <= j < k ==> contains(#[trigger] s[j], chunk@),
        decreases search@.len() - k,
    {
        let found = find(search[k].as_slice(), chunk);
        assert(search[k as int]@ == s[k as int]);
        proof {
            if found is Some {
                let i = found->Some_0;
                assert(crate::matcher::occurs_at(s[k as int], chunk@, i as int));
            }
        }
        if any && found.is_some() {
            return true;
        }
        if !any && found.is_none() {
            assert(!contains(s[k as int], chunk@));
            return false;
        }
        k = k + 1;
    }
    !any
}

/// The request line of `chunk`, where it begins an HTTP `GET` or `POST` request.
pub fn request_line(chunk: &[u8]) -> (r: Option<Vec<u8>>)
    ensures
        r is Some <==> is_request(chunk@),
        r matches Some(line) ==> is_first_line(chunk@, line@),
{
    let get = "GET ".as_bytes();
    let post = "POST".as_bytes();
    let head = if chunk.len() >= 4 {
        vstd::slice::slice_subrange(chunk, 0, 4)
    } else {
        chunk
    };
    if !(chunk.len() >= 4 && (bytes_equal(head, get) || bytes_equal(head, post))) {
        return None;
    }
    let mut end: usize = 0;
    while end < chunk.len() && chunk[end] != 13u8
        invariant
            end <= chunk@.len(),
            forall|k: int| 0 <= k < end ==> chunk@[k] != 13u8,
        decreases chunk@.len() - end,
    {
        end = end + 1;
    }
    let mut line: Vec<u8> = Vec::new();
    extend_range(&mut line, chunk, 0, end);
    assert(line@ =~= chunk@.subrange(0, end as int));
    Some(line)
}

/// The state of one direction's copy loop.
pub struct CopyBuffer {
    read_done: bool,
    pos: usize,
    cap: usize,
    amt: u64,
    buf: Vec<u8>,
    client: Client,
    rules: Option<RuleSet>,
    finished: bool,
    /// Every byte the source has sent, in order.
    received: Ghost<Seq<u8>>,
    /// Every byte handed on for the destination, once rewritten or dropped.
    forwarded: Ghost<Seq<u8>>,
    /// Every byte the destination has accepted.
    sent: Ghost<Seq<u8>>,
}

/// What a `CopyBuffer` holds, as plain values.
pub struct CopyView {
    pub read_done: bool,
    pub pos: nat,
    pub cap: nat,
    pub amt: nat,
    pub buf: Seq<u8>,
    pub local_port: u16,
    pub offset: nat,
    pub gate: Gate,
    pub search: Seq<Seq<u8>>,
    pub pattern_or: bool,
    pub rules: Option<RuleSetView>,
    pub finished: bool,
    pub received: Seq<u8>,
    pub forwarded: Seq<u8>,
    pub sent: Seq<u8>,
}

impl View for CopyBuffer {
    type V = CopyView;

    closed spec fn view(&self) -> CopyView {
        CopyView {
            read_done: self.read_done,
            pos: self.pos as nat,
            cap: self.cap as nat,
            amt: self.amt as nat,
            buf: self.buf@,
            local_port: self.client.local_port,
            offset: self.client.pos as nat,
            gate: self.client.blocking,
            search: search_view(self.client.search@),
            pattern_or: self.client.pattern_or,
            rules: match self.rules {
                Some(r) => Some(r@),
                None => None,
            },
            finished: self.finished,
            received: self.received@,
            forwarded: self.forwarded@,
            sent: self.sent@,
        }
    }
}

impl CopyView {
    /// The bytes still to be written.
    pub open spec fn pending(self) -> Seq<u8> {
        self.buf.subrange(self.pos as int, self.cap as int)
    }

    /// What the loop asks for in this state.
    pub open spec fn next_step(self) -> Step {
        if self.finished {
            Step::Done
        } else if self.pos < self.cap {
            Step::Write
        } else if !self.read_done {
            Step::Read
        } else {
            Step::Flush
        }
    }

    /// The invariant of the copy loop.
    pub open spec fn wf(self) -> bool {
        &&& self.pos <= self.cap <= self.buf.len()
        &&& self.amt == self.sent.len()
        &&& self.sent + self.pending() == self.forwarded
        &&& self.finished ==> self.read_done && self.pos == self.cap
        &&& self.gate == Gate::Blocking ==> self.cap == 0
        &&& (self.rules is None && self.gate != Gate::Blocking) ==> self.forwarded == self.received
    }

    /// Whether a chunk read in this state closes the admission gate.
    pub open spec fn gate_closes(self, chunk: Seq<u8>) -> bool {
        self.gate == Gate::Pending && self.offset == 0 && chunk.len() > 0
            && !admitted_first_byte(chunk[0])
    }

    /// What a non-empty chunk read in this state hands on to the destination.
    pub open spec fn forwarded_part(self, chunk: Seq<u8>) -> Seq<u8> {
        if self.gate_closes(chunk) || self.gate == Gate::Blocking {
            Seq::empty()
        } else {
            match self.rules {
                Some(r) => rewritten(r, chunk, chunk.len() as int),
                None => chunk,
            }
        }
    }
}

impl CopyBuffer {
    /// A copy loop that rewrites each chunk with `rules`, where there are any.
    pub fn with_rules(client: Client, rules: Option<RuleSet>) -> (r: CopyBuffer)
        ensures
            r@.wf(),
            r@.next_step() == Step::Read,
            r@.pos == 0 && r@.cap == 0 && r@.amt == 0 && !r@.read_done && !r@.finished,
            r@.offset == client.pos,
            r@.local_port == client.local_port,
            r@.gate == client.blocking,
            r@.search == search_view(client.search@),
            r@.pattern_or == client.pattern_or,
            r@.rules == (match rules {
                Some(x) => Some(x@),
                None => None,
            }),
            r@.received.len() == 0 && r@.forwarded.len() == 0 && r@.sent.len() == 0,
    {
        let r = CopyBuffer {
            read_done: false,
            pos: 0,
            cap: 0,
            amt: 0,
            buf: Vec::new(),
            client,
            rules,
            finished: false,
            received: Ghost(Seq::empty()),
            forwarded: Ghost(Seq::empty()),
            sent: Ghost(Seq::empty()),
        };
        assert(r@.pending() =~= Seq::<u8>::empty());
        r
    }

    /// A copy loop for one direction: where a `password` is given, each chunk is rewritten
    /// with the login page's rules, the `replacement` substitutions following the built-in ones.
    pub fn new(client: Client, password: Option<&str>, replacement: Vec<Rule>) -> (r: CopyBuffer)
        ensures
            r@.wf(),
            r@.next_step() == Step::Read,
            r@.pos == 0 && r@.cap == 0 && r@.amt == 0 && !r@.read_done && !r@.finished,
            r@.offset == client.pos,
            r@.local_port == client.local_port,
            r@.gate == client.blocking,
            r@.search == search_view(client.search@),
            r@.pattern_or == client.pattern_or,
            r@.rules == (match password {
                Some(p) => Some(
                    login_rules(
                        password_segment_spec(p.spec_bytes()),
                        replacement@.map_values(|x: Rule| rule_view(x)),
                    ),
                ),
                None => None,
            }),
            r@.received.len() == 0,
    {
        let rules = match password {
            Some(p) => {
                let segment = password_segment(p);
                Some(RuleSet::login(segment.as_slice(), replacement))
            },
            None => None,
        };
        CopyBuffer::with_rules(client, rules)
    }

    /// What the loop asks for next.
    pub fn next_step(&self) -> (r: Step)
        ensures
            r == self@.next_step(),
    {
        if self.finished {
            Step::Done
        } else if self.pos < self.cap {
            Step::Write
        } else if !self.read_done {
            Step::Read
        } else {
            Step::Flush
        }
    }

    /// The bytes still to be written.
    pub fn pending(&self) -> (r: &[u8])
        requires
            self@.wf(),
        ensures
            r@ == self@.pending(),
    {
        vstd::slice::slice_subrange(self.buf.as_slice(), self.pos, self.cap)
    }

    /// How many bytes the destination has accepted.
    pub fn amount(&self) -> (r: u64)
        ensures
            r == self@.amt,
    {
        self.amt
    }

    /// The connection's metadata.
    pub fn client(&self) -> (r: &Client)
        ensures
            r.local_port == self@.local_port,
            r.pos == self@.offset,
            r.blocking == self@.gate,
            search_view(r.search@) == self@.search,
            r.pattern_or == self@.pattern_or,
    {
        &self.client
    }

    /// Takes in the outcome of a read: `chunk` is what the source delivered, empty at its end.
    /// A non-empty chunk is rewritten, or dropped by the admission gate, and becomes the
    /// pending bytes.
    pub fn on_read(&mut self, chunk: &[u8]) -> (r: ReadReport)
        requires
            old(self)@.wf(),
            old(self)@.next_step() == Step::Read,
            old(self)@.offset + chunk@.len() <= u64::MAX,
        ensures
            final(self)@.wf(),
            final(self)@.rules == old(self)@.rules,
            final(self)@.local_port == old(self)@.local_port,
            final(self)@.search == old(self)@.search,
            final(self)@.pattern_or == old(self)@.pattern_or,
            !final(self)@.finished,
            final(self)@.amt == old(self)@.amt,
            final(self)@.sent == old(self)@.sent,
            final(self)@.received == old(self)@.received + chunk@,
            final(self)@.offset == old(self)@.offset + chunk@.len(),
            chunk@.len() == 0 ==> {
                &&& final(self)@.read_done
                &&& final(self)@.pos == old(self)@.pos && final(self)@.cap == old(self)@.cap
                &&& final(self)@.gate == old(self)@.gate
                &&& final(self)@.forwarded == old(self)@.forwarded
            },
            chunk@.len() > 0 ==> {
                &&& !final(self)@.read_done
                &&& final(self)@.pos == 0
                &&& final(self)@.pending() == old(self)@.forwarded_part(chunk@)
                &&& final(self)@.forwarded == old(self)@.forwarded + old(self)@.forwarded_part(chunk@)
                &&& final(self)@.gate == if old(self)@.gate_closes(chunk@) {
                    Gate::Blocking
                } else {
                    old(self)@.gate
                }
            },
            old(self)@.gate == Gate::Blocking ==> final(self)@.gate == Gate::Blocking
                && final(self)@.cap == 0,
            r.dump == watch_hit(old(self)@.search, old(self)@.pattern_or, chunk@),
            r.request_line is Some <==> (old(self)@.rules is None && chunk@.len() > 0 && is_request(chunk@)),
            r.request_line matches Some(line) ==> is_first_line(chunk@, line@),
            r.rewritten_at is Some <==> (old(self)@.rules is Some && chunk@.len() > 0),
            r.rewritten_at matches Some(at) ==> at == old(self)@.offset,
    {
        let dump = watch_triggered(&self.client.search, self.client.pattern_or, chunk);
        let n = chunk.len();
        if n == 0 {
            self.read_done = true;
            return ReadReport { dump, request_line: None, rewritten_at: None };
        }
        let ghost before = self@;
        let offset = self.client.pos;
        let closes = match self.client.blocking {
            Gate::Pending => offset == 0 && chunk[0] != 0x23u8 && chunk[0] != 0x7eu8,
            _ => false,
        };
        let blocked = match self.client.blocking {
            Gate::Blocking => true,
            _ => false,
        };
        let mut data: Vec<u8> = Vec::new();
        extend_range(&mut data, chunk, 0, n);
        assert(data@ =~= chunk@);
        let mut request_line_out: Option<Vec<u8>> = None;
        let mut rewritten_at: Option<u64> = None;
        match &self.rules {
            Some(rules) => {
                rewritten_at = Some(offset);
                if !closes && !blocked {
                    rewrite(&mut data, n, rules);
                }
            },
            None => {
                request_line_out = request_line(chunk);
            },
        }
        if closes {
            self.client.blocking = Gate::Blocking;
        }
        self.pos = 0;
        if closes || blocked {
            self.cap = 0;
        } else {
            self.cap = byte_len(&data);
        }
        self.buf = data;
        self.client.pos = offset + n as u64;
        self.received = Ghost(self.received@ + chunk@);
        self.forwarded = Ghost(self.forwarded@ + self.buf@.subrange(0, self.cap as int));
        proof {
            assert(before.pending() =~= Seq::<u8>::empty());
            assert(before.sent == before.forwarded);
            if closes || blocked {
                assert(self@.pending() =~= Seq::<u8>::empty());
                assert(self.buf@.subrange(0, self.cap as int) =~= Seq::<u8>::empty());
            } else {
                assert(self.buf@.subrange(0, self.cap as int) =~= self.buf@);
            }
            assert(self@.pending() == before.forwarded_part(chunk@));
        }
        ReadReport { dump, request_line: request_line_out, rewritten_at }
    }

    /// Takes in the outcome of a write of `pending()`: the destination accepted `written`
    /// bytes. Accepting none of a non-empty write is a failure.
    pub fn on_write(&mut self, written: usize) -> (r: Result<(), RelayError>)
        requires
            old(self)@.wf(),
            old(self)@.next_step() == Step::Write,
            written <= old(self)@.cap - old(self)@.pos,
            old(self)@.amt + written <= u64::MAX,
        ensures
            final(self)@.wf(),
            written == 0 ==> r == Err::<(), RelayError>(RelayError::WriteFailure) && final(self)@ == old(self)@,
            written > 0 ==> {
                &&& r is Ok
                &&& final(self)@ == (CopyView {
                    pos: (old(self)@.pos + written) as nat,
                    amt: (old(self)@.amt + written) as nat,
                    sent: old(self)@.sent + old(self)@.buf.subrange(
                        old(self)@.pos as int,
                        old(self)@.pos + written,
                    ),
                    ..old(self)@
                })
            },
    {
        if written == 0 {
            return Err(RelayError::WriteFailure);
        }
        let ghost before = self@;
        self.sent = Ghost(self.sent@ + self.buf@.subrange(self.pos as int, self.pos + written));
        self.pos = self.pos + written;
        self.amt = self.amt + written as u64;
        proof {
            assert(self@.sent + self@.pending() =~= before.sent + before.pending());
        }
        Ok(())
    }

    /// Takes in a completed flush of the destination; the copy is then done. Returns the
    /// number of bytes the destination accepted.
    pub fn on_flush(&mut self) -> (r: u64)
        requires
            old(self)@.wf(),
            old(self)@.next_step() == Step::Flush,
        ensures
            final(self)@.wf(),
            final(self)@ == (CopyView { finished: true, ..old(self)@ }),
            final(self)@.next_step() == Step::Done,
            r == old(self)@.amt,
    {
        self.finished = true;
        self.amt
    }
}

/// Without rewrite rules and while the admission gate is not closed, the bytes the
/// destination has accepted, followed by those still pending, are exactly the bytes the source
/// has sent, in order, however the source split them into chunks; once the copy is done the
/// destination has accepted exactly the source's bytes.
pub proof fn lemma_unmodified_path_is_lossless(v: CopyView)
    requires
        v.wf(),
        v.rules is None,
        v.gate != Gate::Blocking,
    ensures
        v.sent + v.pending() == v.received,
        v.next_step() == Step::Done ==> v.sent == v.received,
{
    if v.next_step() == Step::Done {
        assert(v.pending() =~= Seq::<u8>::empty());
        assert(v.sent + v.pending() =~= v.sent);
    }
}

/// Once the admission gate has closed, a chunk read forwards nothing, whatever its first byte.
pub proof fn lemma_closed_gate_forwards_nothing(v: CopyView, chunk: Seq<u8>)
    requires
        v.gate == Gate::Blocking,
    ensures
        v.forwarded_part(chunk) == Seq::<u8>::empty(),
        !v.gate_closes(chunk),
{
}

/// The flush is asked for only once the source has ended and every forwarded byte has been
/// accepted, and once it is done nothing more is asked for.
pub proof fn lemma_flush_comes_last(v: CopyView)
    requires
        v.wf(),
    ensures
        v.next_step() == Step::Flush ==> v.read_done && !v.finished && v.sent == v.forwarded,
        (CopyView { finished: true, ..v }).next_step() == Step::Done,
{
    if v.next_step() == Step::Flush {
        assert(v.pending() =~= Seq::<u8>::empty());
        assert(v.sent + v.pending() =~= v.sent);
    }
}

} // verus!
