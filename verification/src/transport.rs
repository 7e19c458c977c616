//! Line-framed message transport: the framing rules for reading protocol
//! messages out of a peer's output, a transport interface with a sequence
//! model of both directions, and an in-memory transport that implements it.
//!
//! The peer may interleave diagnostic text with protocol messages on the same
//! stream. A line is a protocol message exactly when, after any leading blank
//! characters, it begins with the object-open marker; every other line is
//! skipped. Reaching the end of the stream without a protocol line is the
//! peer-closed failure.

use vstd::prelude::*;

use crate::codec::newline_free;

verus! {

/// A failure of the transport itself, apart from the protocol: either the
/// peer closed its stream before a protocol line appeared, or the underlying
/// stream refused an operation.
#[derive(Debug, PartialEq, Eq)]
pub enum TransportError {
    /// End of stream with no protocol line found.
    PeerClosed,
    /// The underlying stream rejected a read or a write.
    Io,
}

/// A blank character that may precede the object-open marker on a line: the
/// Unicode white-space characters, the same set that trimming a line of its
/// leading whitespace removes.
pub open spec fn is_blank(c: char) -> bool {
    let u = c as u32;
    (0x9 <= u && u <= 0xd) || u == 0x20 || u == 0x85 || u == 0xa0 || u == 0x1680 || (0x2000 <= u
        && u <= 0x200a) || u == 0x2028 || u == 0x2029 || u == 0x202f || u == 0x205f || u == 0x3000
}

/// Decides `is_blank` for one character.
pub fn blank_char(c: char) -> (b: bool)
    ensures
        b == is_blank(c),
{
    let u = c as u32;
    (0x9 <= u && u <= 0xd) || u == 0x20 || u == 0x85 || u == 0xa0 || u == 0x1680 || (0x2000 <= u
        && u <= 0x200a) || u == 0x2028 || u == 0x2029 || u == 0x202f || u == 0x205f || u == 0x3000
}

/// Whether a line is a protocol message: after any leading blank characters
/// it begins with the object-open marker.
pub open spec fn is_protocol_line(s: Seq<char>) -> bool
    decreases s.len(),
{
    if s.len() == 0 {
        false
    } else if is_blank(s[0]) {
        is_protocol_line(s.skip(1))
    } else {
        s[0] == '{'
    }
}

/// Decides `is_protocol_line` for a line of text.
pub fn line_is_protocol(s: &str) -> (b: bool)
    ensures
        b == is_protocol_line(s@),
{
    let n = s.unicode_len();
    let mut i: usize = 0;
    proof {
        assert(s@.skip(0) =~= s@);
    }
    while i < n
        invariant
            n == s@.len(),
            i <= n,
            is_protocol_line(s@) == is_protocol_line(s@.skip(i as int)),
        decreases n - i,
    {
        let c = s.get_char(i);
        if blank_char(c) {
            proof {
                assert(s@.skip(i as int).skip(1) =~= s@.skip(i as int + 1));
            }
            i += 1;
        } else {
            return c == '{';
        }
    }
    proof {
        assert(s@.skip(n as int) =~= Seq::<char>::empty());
    }
    false
}

/// The protocol messages found in `lines` at or after position `i`, in order,
/// with every non-protocol line left out.
pub open spec fn protocol_lines_from(lines: Seq<Seq<char>>, i: int) -> Seq<Seq<char>>
    decreases lines.len() - i,
{
    if i < 0 || i >= lines.len() {
        Seq::empty()
    } else if is_protocol_line(lines[i]) {
        seq![lines[i]] + protocol_lines_from(lines, i + 1)
    } else {
        protocol_lines_from(lines, i + 1)
    }
}

/// Skipping over a run of non-protocol lines leaves the protocol messages
/// untouched.
pub proof fn lemma_protocol_lines_skip(lines: Seq<Seq<char>>, p: int, q: int)
    requires
        0 <= p <= q <= lines.len(),
        forall|j: int| p <= j < q ==> !is_protocol_line(#[trigger] lines[j]),
    ensures
        protocol_lines_from(lines, p) == protocol_lines_from(lines, q),
    decreases q - p,
{
    if p < q {
        lemma_protocol_lines_skip(lines, p + 1, q);
    }
}

/// An encoded message is itself a protocol line: a peer reading with the
/// same framing rule never mistakes one of this codec's messages for
/// diagnostic text.
pub proof fn lemma_encoded_messages_are_protocol_lines(
    method: Seq<char>,
    params: Seq<char>,
    id: nat,
)
    ensures
        is_protocol_line(crate::codec::request_text(method, params, id)),
        is_protocol_line(crate::codec::notification_text(method, params)),
{
    reveal_strlit("{\"jsonrpc\":\"2.0\",\"method\":\"");
    let h = crate::codec::frame_head();
    assert(crate::codec::request_text(method, params, id)[0] == h[0]);
    assert(crate::codec::notification_text(method, params)[0] == h[0]);
    assert(h[0] == '{');
}

/// One protocol-level transfer on a transport, in the order it happened.
/// The event trace is what orders the two directions against each other:
/// `sent` and `incoming` say what moved, the trace says when.
pub enum TransportEvent {
    /// One message was written, with its text.
    Wrote(Seq<char>),
    /// One protocol message was read, with its text.
    Read(Seq<char>),
}

/// One direction-pair of framed message I/O against a peer.
///
/// The spec functions model the session: `incoming` is the sequence of
/// protocol messages still to be read, `sent` the sequence of messages
/// written so far, and `events` the one trace that interleaves both
/// directions in the order they happened. A successful read consumes exactly
/// the first incoming message; a successful write appends exactly its
/// message; neither direction ever disturbs the other; every successful
/// operation appends exactly its own event to the trace and a failed one
/// appends none. An implementation is free to fail either operation, but
/// never to misreport what it moved.
pub trait Transport: Sized {
    /// The protocol messages still to be read from the peer, in order. The
    /// default is the empty model; an implementation within reach of the
    /// verifier overrides it with its real one.
    open spec fn incoming(&self) -> Seq<Seq<char>> {
        Seq::empty()
    }

    /// The messages written to the peer so far, in order. The default is the
    /// empty model, as for `incoming`.
    open spec fn sent(&self) -> Seq<Seq<char>> {
        Seq::empty()
    }

    /// The protocol-level transfers performed so far, both directions in one
    /// trace, oldest first. The default is the empty model, as for `incoming`.
    open spec fn events(&self) -> Seq<TransportEvent> {
        Seq::empty()
    }

    /// Reads the next protocol message, skipping interleaved diagnostic
    /// text. Fails with the peer-closed kind when the stream ends first.
    fn read_message(&mut self) -> (r: Result<String, TransportError>)
        ensures
            final(self).sent() == old(self).sent(),
            r is Ok ==> old(self).incoming().len() > 0 && r->Ok_0@ == old(self).incoming()[0]
                && final(self).incoming() == old(self).incoming().drop_first()
                && final(self).events() == old(self).events().push(
                TransportEvent::Read(old(self).incoming()[0]),
            ),
            r is Err ==> final(self).events() == old(self).events(),
    ;

    /// Writes exactly one message as one framed line. The message must hold
    /// no line delimiter of its own; the frame supplies it.
    fn write_message(&mut self, message: &str) -> (r: Result<(), TransportError>)
        requires
            newline_free(message@),
        ensures
            final(self).incoming() == old(self).incoming(),
            r is Ok ==> final(self).sent() == old(self).sent().push(message@)
                && final(self).events() == old(self).events().push(
                TransportEvent::Wrote(message@),
            ),
            r is Err ==> final(self).sent() == old(self).sent()
                && final(self).events() == old(self).events(),
    ;
}

/// An in-memory transport: the peer's whole output is given up front as raw
/// lines, and written messages are recorded. It is the reference
/// implementation of the framing rules and a stand-in peer for tests.
pub struct MemTransport {
    /// The raw lines of the peer's output; protocol messages interleaved
    /// with diagnostic text.
    pub lines: Vec<String>,
    /// How many raw lines have been consumed so far.
    pub cursor: usize,
    /// The messages written to the peer so far, in order.
    pub written: Vec<String>,
    /// The trace of protocol-level transfers, both directions interleaved in
    /// the order they happened.
    pub history: Ghost<Seq<TransportEvent>>,
}

impl MemTransport {
    /// The view of one raw line.
    pub open spec fn line_at(&self, i: int) -> Seq<char> {
        self.lines@.map_values(|l: String| l@)[i]
    }

    /// A transport over the given peer output, nothing read or written yet.
    pub fn new(lines: Vec<String>) -> (t: MemTransport)
        ensures
            t.lines == lines,
            t.cursor == 0,
            t.written@ == Seq::<String>::empty(),
            t.history@ == Seq::<TransportEvent>::empty(),
    {
        MemTransport { lines, cursor: 0, written: Vec::new(), history: Ghost(Seq::empty()) }
    }

    /// Reads the next protocol line. When one exists at position `i`, every
    /// line before it (from the cursor on) is not a protocol line, exactly
    /// the lines up to and including `i` are consumed, and line `i` is
    /// returned. When none exists, the whole rest of the stream is consumed
    /// and the failure is the peer-closed kind — never any other.
    pub fn next_protocol_line(&mut self) -> (r: Result<String, TransportError>)
        ensures
            final(self).lines == old(self).lines,
            final(self).written == old(self).written,
            final(self).history == old(self).history,
            r is Ok ==> exists|i: int|
                old(self).cursor <= i < old(self).lines@.len()
                    && #[trigger] is_protocol_line(old(self).line_at(i))
                    && (forall|j: int|
                        old(self).cursor <= j < i ==> !is_protocol_line(old(self).line_at(j)))
                    && r->Ok_0@ == old(self).line_at(i)
                    && final(self).cursor == i + 1,
            r is Err ==> r->Err_0 == TransportError::PeerClosed
                && (forall|j: int|
                    old(self).cursor <= j < old(self).lines@.len()
                        ==> !is_protocol_line(old(self).line_at(j)))
                && final(self).cursor == old(self).lines@.len(),
    {
        let n = self.lines.len();
        if self.cursor >= n {
            self.cursor = n;
            return Err(TransportError::PeerClosed);
        }
        while self.cursor < n
            invariant
                n == self.lines@.len(),
                self.cursor <= n,
                self.lines == old(self).lines,
                self.written == old(self).written,
                self.history == old(self).history,
                old(self).cursor <= self.cursor,
                forall|j: int|
                    old(self).cursor <= j < self.cursor
                        ==> !is_protocol_line(old(self).line_at(j)),
            decreases n - self.cursor,
        {
            let hit = line_is_protocol(self.lines[self.cursor].as_str());
            if hit {
                let ghost i = self.cursor as int;
                let out = self.lines[self.cursor].clone();
                self.cursor = self.cursor + 1;
                proof {
                    assert(is_protocol_line(old(self).line_at(i)));
                }
                return Ok(out);
            }
            self.cursor = self.cursor + 1;
        }
        Err(TransportError::PeerClosed)
    }
}

impl Transport for MemTransport {
    open spec fn incoming(&self) -> Seq<Seq<char>> {
        protocol_lines_from(self.lines@.map_values(|l: String| l@), self.cursor as int)
    }

    open spec fn sent(&self) -> Seq<Seq<char>> {
        self.written@.map_values(|l: String| l@)
    }

    open spec fn events(&self) -> Seq<TransportEvent> {
        self.history@
    }

    fn read_message(&mut self) -> Result<String, TransportError> {
        let r = self.next_protocol_line();
        match &r {
            Ok(line) => {
                self.history = Ghost(self.history@.push(TransportEvent::Read(line@)));
            },
            Err(_) => {},
        }
        proof {
            let l = old(self).lines@.map_values(|s: String| s@);
            if r is Ok {
                let i = choose|i: int|
                    old(self).cursor <= i < old(self).lines@.len()
                        && #[trigger] is_protocol_line(old(self).line_at(i))
                        && (forall|j: int|
                            old(self).cursor <= j < i
                                ==> !is_protocol_line(old(self).line_at(j)))
                        && r->Ok_0@ == old(self).line_at(i)
                        && self.cursor == i + 1;
                assert forall|j: int| old(self).cursor <= j < i implies !is_protocol_line(
                    #[trigger] l[j],
                ) by {
                    assert(!is_protocol_line(old(self).line_at(j)));
                }
                lemma_protocol_lines_skip(l, old(self).cursor as int, i);
                assert(protocol_lines_from(l, i) == seq![l[i]] + protocol_lines_from(l, i + 1));
                assert((seq![l[i]] + protocol_lines_from(l, i + 1)).drop_first() =~= protocol_lines_from(
                    l,
                    i + 1,
                ));
            }
        }
        r
    }

    fn write_message(&mut self, message: &str) -> Result<(), TransportError> {
        self.written.push(String::from_str(message));
        self.history = Ghost(self.history@.push(TransportEvent::Wrote(message@)));
        proof {
            assert(self.written@.map_values(|l: String| l@) =~= old(self).written@.map_values(
                |l: String| l@,
            ).push(message@));
        }
        Ok(())
    }
}

/// A transport whose peer is already gone: both directions refuse every
/// operation with the I/O failure kind, and nothing ever moves.
pub struct ClosedTransport {}

impl ClosedTransport {
    /// A transport that refuses everything.
    pub fn new() -> (t: ClosedTransport) {
        ClosedTransport {  }
    }
}

impl Transport for ClosedTransport {
    open spec fn incoming(&self) -> Seq<Seq<char>> {
        Seq::empty()
    }

    open spec fn sent(&self) -> Seq<Seq<char>> {
        Seq::empty()
    }

    fn read_message(&mut self) -> Result<String, TransportError> {
        Err(TransportError::Io)
    }

    fn write_message(&mut self, message: &str) -> Result<(), TransportError> {
        Err(TransportError::Io)
    }
}

} // verus!
