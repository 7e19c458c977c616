//! The protocol client: one owned transport, a monotonically increasing
//! request-id counter, the initialize/initialized handshake, a readiness gate
//! on every ordinary call, and the exact three-way resolution of responses.
//!
//! The chosen policy is that the handshake is required: a client starts out
//! not initialized, `connect` is the only way to become initialized, and
//! every call made before that fails with the not-initialized error without
//! touching the transport.
//!
//! Responses are paired with requests by position, not by identifier, so only
//! one call may be in flight at a time: a caller's write must be followed by
//! that same caller's read before any other write. Here that is enforced by
//! exclusive access: every operation takes the whole client `&mut`, end to
//! end, which serializes calls more strongly than any lock inside would.

use vstd::prelude::*;

use crate::McpError;
use crate::codec::Notification;
use crate::codec::Request;
use crate::codec::WireReply;
use crate::codec::decode_and_resolve;
use crate::codec::encode_notification;
use crate::codec::encode_request;
use crate::codec::escape_seq;
use crate::codec::escape_string;
use crate::codec::lemma_escape_seq_newline_free;
use crate::codec::lemma_newline_free_concat;
use crate::codec::lemma_notification_text_newline_free;
use crate::codec::lemma_request_text_newline_free;
use crate::codec::newline_free;
use crate::codec::notification_text;
use crate::codec::request_text;
use crate::codec::response_of;
use crate::transport::Transport;
use crate::transport::TransportError;
use crate::transport::TransportEvent;

verus! {

/// The parameter text of the handshake request: the advertised protocol
/// version and capability set.
pub open spec fn initialize_params() -> Seq<char> {
    "{\"version\":\"1.0\",\"capabilities\":{\"tools\":{}}}"@
}

/// The parameter text of the `initialized` notification: an empty object.
pub open spec fn initialized_params() -> Seq<char> {
    "{}"@
}

/// The wire line of the handshake request issued with identifier `id`.
pub open spec fn initialize_line(id: nat) -> Seq<char> {
    request_text("initialize"@, initialize_params(), id)
}

/// The wire line of the `initialized` notification.
pub open spec fn initialized_line() -> Seq<char> {
    notification_text("initialized"@, initialized_params())
}

/// The parameter text wrapping one named operation call: the operation name
/// under `name`, its arguments under `params`.
pub open spec fn call_params_text(name: Seq<char>, params: Seq<char>) -> Seq<char> {
    "{\"name\":\""@ + escape_seq(name) + "\",\"params\":"@ + params + "}"@
}

/// The wire line of one operation call issued with identifier `id`.
pub open spec fn call_line(name: Seq<char>, params: Seq<char>, id: nat) -> Seq<char> {
    request_text("callTool"@, call_params_text(name, params), id)
}

/// The parameter text of the repository-search operation: its single argument
/// under the `query` key.
pub open spec fn search_params_text(query: Seq<char>) -> Seq<char> {
    "{\"query\":\""@ + escape_seq(query) + "\"}"@
}

proof fn lemma_handshake_params_newline_free()
    ensures
        newline_free(initialize_params()),
        newline_free(initialized_params()),
{
    reveal_strlit("{\"version\":\"1.0\",\"capabilities\":{\"tools\":{}}}");
    reveal_strlit("{}");
}

proof fn lemma_call_params_newline_free(name: Seq<char>, params: Seq<char>)
    requires
        newline_free(params),
    ensures
        newline_free(call_params_text(name, params)),
{
    reveal_strlit("{\"name\":\"");
    reveal_strlit("\",\"params\":");
    reveal_strlit("}");
    lemma_escape_seq_newline_free(name);
    lemma_newline_free_concat("{\"name\":\""@, escape_seq(name));
    lemma_newline_free_concat("{\"name\":\""@ + escape_seq(name), "\",\"params\":"@);
    lemma_newline_free_concat("{\"name\":\""@ + escape_seq(name) + "\",\"params\":"@, params);
    lemma_newline_free_concat(
        "{\"name\":\""@ + escape_seq(name) + "\",\"params\":"@ + params,
        "}"@,
    );
}

proof fn lemma_search_params_newline_free(query: Seq<char>)
    ensures
        newline_free(search_params_text(query)),
{
    reveal_strlit("{\"query\":\"");
    reveal_strlit("\"}");
    lemma_escape_seq_newline_free(query);
    lemma_newline_free_concat("{\"query\":\""@, escape_seq(query));
    lemma_newline_free_concat("{\"query\":\""@ + escape_seq(query), "\"}"@);
}

/// The client over one transport. The identifier counter starts at one and
/// only ever grows; `initialized` turns true exactly when the handshake has
/// completed, and is never reset.
pub struct MCPClient<T: Transport> {
    /// The owned transport to the peer.
    pub transport: T,
    /// Whether the initialization handshake has completed.
    pub initialized: bool,
    /// The next request identifier to issue.
    pub request_id: u64,
}

/// What one operation call does, relating the client state before (`pre`) and
/// after (`post`) to the outcome `r`:
///
/// - before the handshake, the call fails with the not-initialized error and
///   the whole client, transport included, is untouched;
/// - after the handshake, exactly one identifier is consumed, and either
///   exactly the encoded call line was written or the call failed with
///   nothing written;
/// - the not-initialized error is returned exactly when the client is not
///   initialized, never on any other account;
/// - a returned result is exactly the `result` value of the one response line
///   that was read, which the transport consumed after the write: the
///   transport's event trace grows by the written request and then the read
///   reply, in that order;
/// - a protocol failure carries exactly the peer's error message from that
///   line; the malformed-response and decode failures name the lines they
///   come from, each a distinct kind.
pub open spec fn call_outcome<T: Transport>(
    pre: MCPClient<T>,
    post: MCPClient<T>,
    name: Seq<char>,
    params: Seq<char>,
    r: Result<String, McpError>,
) -> bool {
    let line = call_line(name, params, pre.request_id as nat);
    let reply = pre.transport.incoming()[0];
    let first = response_of(reply);
    let exchange = pre.transport.events().push(TransportEvent::Wrote(line)).push(
        TransportEvent::Read(reply),
    );
    &&& (!pre.initialized ==> post == pre && r == Err::<String, McpError>(
        McpError::NotInitialized,
    ))
    &&& (r == Err::<String, McpError>(McpError::NotInitialized) ==> !pre.initialized)
    &&& (pre.initialized ==> {
        &&& post.initialized
        &&& post.request_id == pre.request_id + 1
        &&& (post.transport.sent() == pre.transport.sent().push(line) || (post.transport.sent()
            == pre.transport.sent() && r is Err))
        &&& (post.transport.events() == exchange || post.transport.events()
            == pre.transport.events().push(TransportEvent::Wrote(line)) || (
        post.transport.events() == pre.transport.events() && r is Err))
    })
    &&& (r is Ok ==> {
        &&& pre.initialized
        &&& post.transport.sent() == pre.transport.sent().push(line)
        &&& pre.transport.incoming().len() > 0
        &&& post.transport.incoming() == pre.transport.incoming().drop_first()
        &&& post.transport.events() == exchange
        &&& first is Success
        &&& r->Ok_0@ == first->Success_0
    })
    &&& (pre.initialized && r is Err && r->Err_0 is Protocol ==> {
        &&& pre.transport.incoming().len() > 0
        &&& post.transport.incoming() == pre.transport.incoming().drop_first()
        &&& post.transport.events() == exchange
        &&& first is Failure
        &&& r->Err_0->Protocol_0@ == first->Failure_1
    })
    &&& (pre.initialized && r == Err::<String, McpError>(McpError::MalformedResponse) ==> {
        &&& pre.transport.incoming().len() > 0
        &&& post.transport.incoming() == pre.transport.incoming().drop_first()
        &&& post.transport.events() == exchange
        &&& first is Neither
    })
    &&& (pre.initialized && r == Err::<String, McpError>(McpError::DecodeFailure) ==> {
        &&& pre.transport.incoming().len() > 0
        &&& post.transport.incoming() == pre.transport.incoming().drop_first()
        &&& post.transport.events() == exchange
        &&& first is Invalid
    })
}

/// Maps a transport failure to the matching client error; nothing else maps
/// to these two kinds.
fn transport_failure(e: TransportError) -> (m: McpError)
    ensures
        e == TransportError::PeerClosed ==> m == McpError::PeerClosed,
        e == TransportError::Io ==> m == McpError::Io,
{
    match e {
        TransportError::PeerClosed => McpError::PeerClosed,
        TransportError::Io => McpError::Io,
    }
}

impl<T: Transport> MCPClient<T> {
    /// A fresh client over the given transport: not yet initialized, with the
    /// identifier counter at one.
    pub fn new(transport: T) -> (c: MCPClient<T>)
        ensures
            c.transport == transport,
            !c.initialized,
            c.request_id == 1,
    {
        MCPClient { transport, initialized: false, request_id: 1 }
    }

    /// Issues the next request identifier and advances the counter by one,
    /// so every identifier is issued at most once and in increasing order.
    pub fn next_request_id(&mut self) -> (id: u64)
        requires
            old(self).request_id < u64::MAX,
        ensures
            id == old(self).request_id,
            final(self).request_id == old(self).request_id + 1,
            final(self).transport == old(self).transport,
            final(self).initialized == old(self).initialized,
    {
        let id = self.request_id;
        self.request_id = self.request_id + 1;
        id
    }

    /// Runs the initialization handshake: writes the `initialize` request,
    /// reads exactly one reply line (its content is not required beyond being
    /// a protocol line), writes the `initialized` notification, and only then
    /// becomes initialized. On success the transport's event trace grows by
    /// exactly those three transfers — first write, one read, second write —
    /// in that order. On any failure the client does not become initialized,
    /// the notification was never written, and the error is one of the two
    /// transport kinds, peer-closed or I/O.
    pub fn connect(&mut self) -> (r: Result<(), McpError>)
        requires
            old(self).request_id < u64::MAX,
        ensures
            final(self).request_id == old(self).request_id + 1,
            r is Ok ==> final(self).initialized && old(self).transport.incoming().len() > 0
                && final(self).transport.incoming() == old(self).transport.incoming().drop_first()
                && final(self).transport.sent() == old(self).transport.sent().push(
                initialize_line(old(self).request_id as nat),
            ).push(initialized_line())
                && final(self).transport.events() == old(self).transport.events().push(
                TransportEvent::Wrote(initialize_line(old(self).request_id as nat)),
            ).push(TransportEvent::Read(old(self).transport.incoming()[0])).push(
                TransportEvent::Wrote(initialized_line()),
            ),
            r is Err ==> final(self).initialized == old(self).initialized
                && (r->Err_0 == McpError::PeerClosed || r->Err_0 == McpError::Io)
                && (final(self).transport.sent() == old(self).transport.sent()
                || final(self).transport.sent() == old(self).transport.sent().push(
                initialize_line(old(self).request_id as nat),
            )),
    {
        let id = self.next_request_id();
        let request = Request {
            method: String::from_str("initialize"),
            params: String::from_str("{\"version\":\"1.0\",\"capabilities\":{\"tools\":{}}}"),
            id,
        };
        let line = encode_request(&request);
        proof {
            lemma_handshake_params_newline_free();
            lemma_request_text_newline_free("initialize"@, initialize_params(), id as nat);
        }
        match self.transport.write_message(line.as_str()) {
            Ok(_) => {},
            Err(e) => {
                return Err(transport_failure(e));
            },
        }
        match self.transport.read_message() {
            Ok(_reply) => {},
            Err(e) => {
                return Err(transport_failure(e));
            },
        }
        let note = Notification {
            method: String::from_str("initialized"),
            params: String::from_str("{}"),
        };
        let note_line = encode_notification(&note);
        proof {
            lemma_notification_text_newline_free("initialized"@, initialized_params());
        }
        match self.transport.write_message(note_line.as_str()) {
            Ok(_) => {},
            Err(e) => {
                return Err(transport_failure(e));
            },
        }
        self.initialized = true;
        Ok(())
    }

    /// Calls one named remote operation with already-encoded JSON arguments:
    /// requires the handshake to have completed — the not-initialized error
    /// comes exactly when it has not — writes exactly one `callTool` request
    /// with a fresh identifier, then reads exactly one response line, and
    /// resolves it: the `result` value on success, the peer's error message
    /// as a protocol failure, or the distinct malformed-response failure when
    /// the response carries neither.
    pub fn call_tool(&mut self, name: &str, params: &str) -> (r: Result<String, McpError>)
        requires
            old(self).request_id < u64::MAX,
            newline_free(params@),
        ensures
            call_outcome(*old(self), *final(self), name@, params@, r),
    {
        if !self.initialized {
            return Err(McpError::NotInitialized);
        }
        let id = self.next_request_id();
        let call_params = build_call_params(name, params);
        let request = Request { method: String::from_str("callTool"), params: call_params, id };
        let line = encode_request(&request);
        proof {
            lemma_call_params_newline_free(name@, params@);
            lemma_request_text_newline_free(
                "callTool"@,
                call_params_text(name@, params@),
                id as nat,
            );
        }
        match self.transport.write_message(line.as_str()) {
            Ok(_) => {},
            Err(e) => {
                return Err(transport_failure(e));
            },
        }
        let reply = match self.transport.read_message() {
            Ok(reply) => reply,
            Err(e) => {
                return Err(transport_failure(e));
            },
        };
        decode_and_resolve(reply.as_str())
    }

    /// Searches repositories: fixes the operation name and wraps the single
    /// argument under the `query` key, then behaves exactly as `call_tool`.
    pub fn search_repositories(&mut self, query: &str) -> (r: Result<String, McpError>)
        requires
            old(self).request_id < u64::MAX,
        ensures
            call_outcome(
                *old(self),
                *final(self),
                "search_repositories"@,
                search_params_text(query@),
                r,
            ),
    {
        let params = build_search_params(query);
        proof {
            lemma_search_params_newline_free(query@);
        }
        self.call_tool("search_repositories", params.as_str())
    }
}

/// Builds the parameter object of one operation call.
fn build_call_params(name: &str, params: &str) -> (out: String)
    ensures
        out@ == call_params_text(name@, params@),
{
    let mut out = String::from_str("{\"name\":\"");
    let esc = escape_string(name);
    out.append(esc.as_str());
    out.append("\",\"params\":");
    out.append(params);
    out.append("}");
    proof {
        assert(out@ =~= call_params_text(name@, params@));
    }
    out
}

/// Builds the parameter object of the repository-search operation.
pub fn build_search_params(query: &str) -> (out: String)
    ensures
        out@ == search_params_text(query@),
{
    let mut out = String::from_str("{\"query\":\"");
    let esc = escape_string(query);
    out.append(esc.as_str());
    out.append("\"}");
    proof {
        assert(out@ =~= search_params_text(query@));
    }
    out
}

/// The identifiers issued by `k` successive draws starting from counter
/// value `start`.
pub open spec fn issued_ids(start: u64, k: nat) -> Seq<u64> {
    Seq::new(k, |i: int| (start + i) as u64)
}

/// Identifier issuance is strictly monotonic: however many identifiers are
/// drawn from one counter, they come out in strictly increasing order of
/// issuance, so no identifier is ever issued twice.
pub proof fn lemma_issued_ids_strictly_increasing(start: u64, k: nat)
    requires
        start + k <= u64::MAX + 1,
    ensures
        forall|i: int| 0 <= i < k ==> issued_ids(start, k)[i] == start + i,
        forall|i: int, j: int|
            0 <= i < j < k ==> issued_ids(start, k)[i] < issued_ids(start, k)[j],
{
    assert forall|i: int| 0 <= i < k implies issued_ids(start, k)[i] == start + i by {
        assert(start + i <= u64::MAX);
    }
}

} // verus!
