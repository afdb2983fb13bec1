//! One connection: its handshake state, the readiness it asks for, and what
//! it decides after each read, each parsed chunk and each write.

use vstd::prelude::*;
use vstd::slice::{slice_subrange, slice_to_vec};
use vstd::string::*;
use vstd::utf8::{decode_utf8, encode_utf8, valid_utf8};
use crate::headers::{
    accepts_piece, fresh, piece_step, step, Collected, HeaderEvent, HttpParser, Piece, PieceKind,
};
use crate::key::{accept_key, gen_key, handshake_response, nonce_header, response_text};

verus! {

/// Where a connection stands in the handshake.
#[derive(Clone, Copy, PartialEq, Eq, Structural, Debug)]
pub enum ClientState {
    AwaitingHandshake,
    HandshakeResponse,
    Connected,
}

/// The readiness a connection wants to hear of.
#[derive(Clone, Copy, PartialEq, Eq, Structural, Debug)]
pub struct Interest {
    pub readable: bool,
    pub writable: bool,
}

/// What a non-blocking read or write came back with.
#[derive(Clone, Copy, PartialEq, Eq, Structural, Debug)]
pub enum IoResult {
    /// The call moved this many bytes.
    Done(usize),
    /// The socket has nothing to give, or takes nothing, right now.
    WouldBlock,
    /// The call failed for any other reason.
    Failed,
}

/// What the caller does next with a connection.
#[derive(Clone, Copy, PartialEq, Eq, Structural, Debug)]
pub enum Step {
    /// Read from the socket and report the result.
    Read,
    /// Hand the bytes just read to the tokenizer and report its upgrade signal.
    Parse,
    /// Write the pending output and report the result.
    Write,
    /// Re-arm the socket with the connection's current interest and wait.
    Rearm,
    /// Close the socket and forget the connection.
    Close,
}

/// A connection as the contracts see it.
pub struct ClientView {
    pub state: ClientState,
    pub interest: Interest,
    pub collected: Collected,
    pub sent: nat,
}

/// How far a state is along the handshake.
pub open spec fn rank(s: ClientState) -> int {
    match s {
        ClientState::AwaitingHandshake => 0,
        ClientState::HandshakeResponse => 1,
        ClientState::Connected => 2,
    }
}

/// One move of a connection: it stays where it is or takes the single step
/// forward that its state allows.
pub open spec fn follows(from: ClientState, to: ClientState) -> bool {
    to == from || rank(to) == rank(from) + 1
}

/// The interest that belongs to each state: reads while the request comes
/// in, writes while the response goes out, nothing after that.
pub open spec fn interest_in(s: ClientState) -> Interest {
    Interest {
        readable: s == ClientState::AwaitingHandshake,
        writable: s == ClientState::HandshakeResponse,
    }
}

/// A connection right after it was accepted.
pub open spec fn accepted_client() -> ClientView {
    ClientView {
        state: ClientState::AwaitingHandshake,
        interest: Interest { readable: true, writable: false },
        collected: fresh(),
        sent: 0,
    }
}

/// The decision on a read result. Only a connection that awaits its
/// handshake reads: for it a failure or an empty read (the peer closed)
/// ends the connection, bytes go to the tokenizer, and a socket with
/// nothing more to give is re-armed.
pub open spec fn read_step(state: ClientState, result: IoResult) -> Step {
    if state != ClientState::AwaitingHandshake {
        Step::Rearm
    } else {
        match result {
            IoResult::Failed => Step::Close,
            IoResult::WouldBlock => Step::Rearm,
            IoResult::Done(n) => if n == 0 {
                Step::Close
            } else {
                Step::Parse
            },
        }
    }
}

/// Whether the tokenizer's upgrade signal moves the connection on.
pub open spec fn upgrades(c: ClientView, upgrade: bool) -> bool {
    c.state == ClientState::AwaitingHandshake && upgrade
}

/// The connection after a chunk was parsed.
pub open spec fn after_parse(c: ClientView, upgrade: bool) -> ClientView {
    if upgrades(c, upgrade) {
        ClientView {
            state: ClientState::HandshakeResponse,
            interest: Interest { readable: false, writable: true },
            ..c
        }
    } else {
        c
    }
}

/// The decision after a chunk was parsed: re-arm once the upgrade is seen,
/// or when the connection reads no more; else read on.
pub open spec fn parse_step(c: ClientView, upgrade: bool) -> Step {
    if c.state == ClientState::AwaitingHandshake && !upgrade {
        Step::Read
    } else {
        Step::Rearm
    }
}

/// The request named its nonce.
pub open spec fn has_nonce(c: ClientView) -> bool {
    c.collected.headers.contains_key(nonce_header())
}

/// The bytes of the response that answers the request's nonce.
pub open spec fn response_bytes(c: ClientView) -> Seq<u8> {
    encode_utf8(response_text(accept_key(c.collected.headers[nonce_header()])))
}

/// The part of the response that is still to be written.
pub open spec fn unsent(c: ClientView) -> Seq<u8> {
    let bytes = response_bytes(c);
    if c.sent <= bytes.len() {
        bytes.skip(c.sent as int)
    } else {
        Seq::empty()
    }
}

/// What a connection has to write: the rest of its response while it is
/// responding to a request that named a nonce, nothing otherwise.
pub open spec fn pending_output(c: ClientView) -> Option<Seq<u8>> {
    if c.state == ClientState::HandshakeResponse && has_nonce(c) {
        Some(unsent(c))
    } else {
        None
    }
}

/// The write result completes the response.
pub open spec fn completes(c: ClientView, result: IoResult) -> bool {
    &&& c.state == ClientState::HandshakeResponse
    &&& has_nonce(c)
    &&& result matches IoResult::Done(n)
    &&& n >= unsent(c).len()
}

/// The connection after a write result.
pub open spec fn after_write(c: ClientView, result: IoResult) -> ClientView {
    if completes(c, result) {
        ClientView {
            state: ClientState::Connected,
            interest: Interest { readable: false, writable: false },
            sent: response_bytes(c).len(),
            ..c
        }
    } else if c.state == ClientState::HandshakeResponse && has_nonce(c) {
        match result {
            IoResult::Done(n) => ClientView { sent: (c.sent + n) as nat, ..c },
            _ => c,
        }
    } else {
        c
    }
}

/// The decision on a write result. Only a responding connection writes. A
/// request without a nonce cannot be answered and a failed write cannot be
/// mended: both end the connection. A full write and a socket that takes no
/// more are re-armed; after a partial write the rest is written.
pub open spec fn write_step(c: ClientView, result: IoResult) -> Step {
    if c.state != ClientState::HandshakeResponse {
        Step::Rearm
    } else if !has_nonce(c) {
        Step::Close
    } else {
        match result {
            IoResult::Failed => Step::Close,
            IoResult::WouldBlock => Step::Rearm,
            IoResult::Done(n) => if n >= unsent(c).len() {
                Step::Rearm
            } else {
                Step::Write
            },
        }
    }
}

/// What a readiness event on a connection calls for, by its state.
pub open spec fn ready_step(c: ClientView) -> Step {
    match c.state {
        ClientState::AwaitingHandshake => Step::Read,
        ClientState::HandshakeResponse => if has_nonce(c) {
            Step::Write
        } else {
            Step::Close
        },
        ClientState::Connected => Step::Rearm,
    }
}

/// Along any history of moves a connection never goes back: a later state
/// is never behind an earlier one.
pub proof fn lemma_never_backward(history: Seq<ClientState>, i: int, j: int)
    requires
        forall|k: int| 0 <= k < history.len() - 1 ==> follows(#[trigger] history[k], history[k + 1]),
        0 <= i <= j < history.len(),
    ensures
        rank(history[i]) <= rank(history[j]),
    decreases j - i,
{
    if i < j {
        lemma_never_backward(history, i, j - 1);
        assert(follows(history[j - 1], history[j - 1 + 1]));
    }
}

/// The only way out of a state is its one successor: the response follows
/// the awaited handshake, the open connection follows the response, and
/// nothing follows the open connection.
pub proof fn lemma_successors(from: ClientState, to: ClientState)
    requires
        follows(from, to),
        to != from,
    ensures
        from == ClientState::AwaitingHandshake ==> to == ClientState::HandshakeResponse,
        from == ClientState::HandshakeResponse ==> to == ClientState::Connected,
        from != ClientState::Connected,
{
}

/// Whatever a parsed chunk or a write brings, the connection stays where it
/// is or moves one state forward, and its interest stays the one that
/// belongs to its state.
pub proof fn lemma_moves_forward(c: ClientView, upgrade: bool, result: IoResult)
    requires
        c.interest == interest_in(c.state),
    ensures
        follows(c.state, after_parse(c, upgrade).state),
        follows(c.state, after_write(c, result).state),
        after_parse(c, upgrade).interest == interest_in(after_parse(c, upgrade).state),
        after_write(c, result).interest == interest_in(after_write(c, result).state),
        after_parse(c, upgrade).collected == c.collected,
        after_write(c, result).collected == c.collected,
{
}

/// The size of the buffer that one read fills at most.
pub const READ_BUFFER_SIZE: usize = 2048;

/// One accepted connection.
pub struct WebSocketClient {
    http_parser: HttpParser,
    interest: Interest,
    state: ClientState,
    sent: usize,
}

impl View for WebSocketClient {
    type V = ClientView;

    closed spec fn view(&self) -> ClientView {
        ClientView {
            state: self.state,
            interest: self.interest,
            collected: self.http_parser@,
            sent: self.sent as nat,
        }
    }
}

impl WebSocketClient {
    /// The header mapping is sound and the interest is the one that belongs
    /// to the state.
    pub closed spec fn wf(&self) -> bool {
        &&& self.http_parser.wf()
        &&& self.interest == interest_in(self.state)
    }

    /// The interest of a sound connection is the one that belongs to its state.
    pub proof fn lemma_interest(&self)
        requires
            self.wf(),
        ensures
            self@.interest == interest_in(self@.state),
    {
    }

    /// A connection that awaits its handshake and listens for reads.
    pub fn new() -> (r: WebSocketClient)
        ensures
            r.wf(),
            r@ == accepted_client(),
    {
        WebSocketClient {
            http_parser: HttpParser::new(),
            interest: Interest { readable: true, writable: false },
            state: ClientState::AwaitingHandshake,
            sent: 0,
        }
    }

    /// The state of the handshake.
    pub fn state(&self) -> (r: ClientState)
        ensures
            r == self@.state,
    {
        self.state
    }

    /// The readiness to register for.
    pub fn interest(&self) -> (r: Interest)
        ensures
            r == self@.interest,
    {
        self.interest
    }

    /// The value received for the header `name`, if any.
    pub fn header(&self, name: &String) -> (r: Option<&String>)
        requires
            self.wf(),
        ensures
            match r {
                Some(v) => self@.collected.headers.contains_key(name@) && v@
                    == self@.collected.headers[name@],
                None => !self@.collected.headers.contains_key(name@),
            },
    {
        self.http_parser.header(name)
    }

    /// Whether a field name awaits its value.
    pub fn has_pending(&self) -> (r: bool)
        ensures
            r == (self@.collected.pending is Some),
    {
        self.http_parser.has_pending()
    }

    /// The tokenizer found a field name.
    pub fn on_header_field(&mut self, s: &[u8]) -> (go: bool)
        requires
            old(self).wf(),
            valid_utf8(s@),
        ensures
            final(self).wf(),
            go,
            final(self)@ == (ClientView {
                collected: step(old(self)@.collected, HeaderEvent::Field(decode_utf8(s@))),
                ..old(self)@
            }),
    {
        self.http_parser.on_header_field(s)
    }

    /// The tokenizer found a field value.
    pub fn on_header_value(&mut self, s: &[u8]) -> (go: bool)
        requires
            old(self).wf(),
            valid_utf8(s@),
            old(self)@.collected.pending is Some,
        ensures
            final(self).wf(),
            go,
            final(self)@ == (ClientView {
                collected: step(old(self)@.collected, HeaderEvent::Value(decode_utf8(s@))),
                ..old(self)@
            }),
    {
        self.http_parser.on_header_value(s)
    }

    /// Whether the tokenizer's next callback, of the kind `kind`, can be taken.
    pub fn accepts(&self, kind: PieceKind) -> (r: bool)
        ensures
            r == accepts_piece(self@.collected, kind),
    {
        self.http_parser.accepts(kind)
    }

    /// The tokenizer found some bytes of a field name.
    pub fn on_field_piece(&mut self, s: &[u8]) -> (go: bool)
        requires
            old(self).wf(),
            accepts_piece(old(self)@.collected, PieceKind::Field),
        ensures
            final(self).wf(),
            go,
            final(self)@ == (ClientView {
                collected: piece_step(old(self)@.collected, Piece::Field(s@)),
                ..old(self)@
            }),
    {
        self.http_parser.on_field_piece(s)
    }

    /// The tokenizer found some bytes of a field value.
    pub fn on_value_piece(&mut self, s: &[u8]) -> (go: bool)
        requires
            old(self).wf(),
            accepts_piece(old(self)@.collected, PieceKind::Value),
        ensures
            final(self).wf(),
            go,
            final(self)@ == (ClientView {
                collected: piece_step(old(self)@.collected, Piece::Value(s@)),
                ..old(self)@
            }),
    {
        self.http_parser.on_value_piece(s)
    }

    /// The tokenizer reached the end of the headers.
    pub fn on_headers_complete(&mut self) -> (go: bool)
        requires
            old(self).wf(),
            accepts_piece(old(self)@.collected, PieceKind::Complete),
        ensures
            final(self).wf(),
            !go,
            final(self)@ == (ClientView {
                collected: piece_step(old(self)@.collected, Piece::Complete),
                ..old(self)@
            }),
    {
        self.http_parser.on_headers_complete()
    }

    /// Decides what a readiness event calls for.
    pub fn ready(&self) -> (r: Step)
        requires
            self.wf(),
        ensures
            r == ready_step(self@),
            r == Step::Write ==> pending_output(self@) is Some,
    {
        match self.state {
            ClientState::AwaitingHandshake => Step::Read,
            ClientState::HandshakeResponse => {
                let name = String::from_str("Sec-WebSocket-Key");
                if self.http_parser.header(&name).is_some() {
                    Step::Write
                } else {
                    Step::Close
                }
            },
            ClientState::Connected => Step::Rearm,
        }
    }

    /// Decides what follows a read from the socket.
    pub fn read(&self, result: IoResult) -> (r: Step)
        ensures
            r == read_step(self@.state, result),
    {
        if self.state != ClientState::AwaitingHandshake {
            Step::Rearm
        } else {
            match result {
                IoResult::Failed => Step::Close,
                IoResult::WouldBlock => Step::Rearm,
                IoResult::Done(n) => if n == 0 {
                    Step::Close
                } else {
                    Step::Parse
                },
            }
        }
    }

    /// Takes the tokenizer's upgrade signal after a chunk was parsed. On
    /// the first signal the connection turns to its response: it stops
    /// listening for reads and starts listening for writes.
    pub fn parsed(&mut self, upgrade: bool) -> (r: Step)
        requires
            old(self).wf(),
        ensures
            final(self).wf(),
            final(self)@ == after_parse(old(self)@, upgrade),
            r == parse_step(old(self)@, upgrade),
            follows(old(self)@.state, final(self)@.state),
    {
        if self.state == ClientState::AwaitingHandshake && upgrade {
            self.state = ClientState::HandshakeResponse;
            self.interest = Interest { readable: false, writable: true };
            Step::Rearm
        } else if self.state == ClientState::AwaitingHandshake {
            Step::Read
        } else {
            Step::Rearm
        }
    }

    /// The response to the request's nonce, if the request named one.
    pub fn response(&self) -> (r: Option<String>)
        requires
            self.wf(),
        ensures
            r is Some <==> has_nonce(self@),
            r is Some ==> encode_utf8(r.unwrap()@) == response_bytes(self@),
    {
        let name = String::from_str("Sec-WebSocket-Key");
        match self.http_parser.header(&name) {
            None => None,
            Some(nonce) => {
                let accept = gen_key(nonce);
                Some(handshake_response(&accept))
            },
        }
    }

    /// The bytes to write now, if the connection has any to write.
    pub fn output(&self) -> (r: Option<Vec<u8>>)
        requires
            self.wf(),
        ensures
            r is Some <==> pending_output(self@) is Some,
            r is Some ==> r.unwrap()@ == pending_output(self@).unwrap(),
    {
        if self.state != ClientState::HandshakeResponse {
            return None;
        }
        match self.response() {
            None => None,
            Some(text) => {
                let bytes = text.as_str().as_bytes();
                let total: usize = bytes.len();
                let from: usize = if self.sent <= total {
                    self.sent
                } else {
                    total
                };
                let rest = slice_to_vec(slice_subrange(bytes, from, total));
                assert(rest@ =~= unsent(self@));
                Some(rest)
            },
        }
    }

    /// Takes the result of a write. Once the whole response is out the
    /// connection is open and listens for nothing more.
    pub fn wrote(&mut self, result: IoResult) -> (r: Step)
        requires
            old(self).wf(),
        ensures
            final(self).wf(),
            final(self)@ == after_write(old(self)@, result),
            r == write_step(old(self)@, result),
            follows(old(self)@.state, final(self)@.state),
    {
        if self.state != ClientState::HandshakeResponse {
            return Step::Rearm;
        }
        match self.response() {
            None => Step::Close,
            Some(text) => {
                let total: usize = text.as_str().as_bytes().len();
                let left: usize = if self.sent <= total {
                    total - self.sent
                } else {
                    0
                };
                assert(left == unsent(self@).len());
                match result {
                    IoResult::Failed => Step::Close,
                    IoResult::WouldBlock => Step::Rearm,
                    IoResult::Done(n) => {
                        if n >= left {
                            self.state = ClientState::Connected;
                            self.interest = Interest { readable: false, writable: false };
                            self.sent = total;
                            Step::Rearm
                        } else {
                            self.sent = self.sent + n;
                            Step::Write
                        }
                    },
                }
            },
        }
    }
}

} // verus!
