//! The server's table of connections: which identifier each connection
//! gets, where each event goes, and when a connection leaves the table.

use std::collections::HashMap;
use vstd::prelude::*;
use vstd::utf8::{decode_utf8, valid_utf8};
use crate::client::{
    accepted_client, after_parse, after_write, parse_step, pending_output, rank, read_step,
    ready_step, write_step, ClientState, ClientView, Interest, IoResult, Step, WebSocketClient,
};
use crate::headers::{accepts_piece, piece_step, step, HeaderEvent, Piece, PieceKind};

verus! {

broadcast use vstd::std_specs::hash::group_hash_axioms;

/// The identifier of the listening socket. No connection ever gets it.
pub const SERVER_TOKEN: usize = 0;

/// What the caller does next for the identifier it reported on.
#[derive(Debug, PartialEq, Eq)]
pub enum Action {
    /// Accept the pending connections, reporting each one.
    Accept,
    /// Read from the connection's socket and report the result.
    Read,
    /// Hand the bytes just read to the tokenizer and report its upgrade signal.
    Parse,
    /// Write these bytes to the connection's socket and report the result.
    Write(Vec<u8>),
    /// Re-arm the connection's socket, one-shot, with this interest.
    Rearm(Interest),
    /// Close the connection's socket: the table has dropped the connection.
    Close,
}

/// What a non-blocking attempt to accept a connection came back with.
#[derive(Clone, Copy, PartialEq, Eq, Structural, Debug)]
pub enum AcceptResult {
    /// A connection came.
    Accepted,
    /// No connection is pending right now.
    WouldBlock,
    /// The attempt failed for any other reason.
    Failed,
}

/// The server as the contracts see it.
pub struct ServerView {
    /// The identifier given out last.
    pub counter: usize,
    /// The connections in the table, by identifier.
    pub clients: Map<usize, ClientView>,
}

/// The server before any connection.
pub open spec fn initial() -> ServerView {
    ServerView { counter: 1, clients: Map::empty() }
}

/// The server after one more connection was accepted: the connection gets
/// the next identifier and enters the table as a fresh client.
pub open spec fn accepted(s: ServerView) -> ServerView {
    let token = (s.counter + 1) as usize;
    ServerView { counter: token, clients: s.clients.insert(token, accepted_client()) }
}

/// The server after `n` more connections were accepted.
pub open spec fn accepted_n(s: ServerView, n: nat) -> ServerView
    decreases n,
{
    if n == 0 {
        s
    } else {
        accepted(accepted_n(s, (n - 1) as nat))
    }
}

/// The identifier that the connection accepted after `k` others gets.
pub open spec fn token_n(s: ServerView, k: nat) -> usize {
    accepted_n(s, k + 1).counter
}

/// Every identifier in the table is a connection's own and was given out.
pub open spec fn tokens_sound(s: ServerView) -> bool {
    forall|t: usize| #[trigger] s.clients.contains_key(t) ==> t != SERVER_TOKEN && t <= s.counter
}

/// The table after the connection `token`, now `c`, was told `step`: a
/// closed connection leaves, any other stays as it now is.
pub open spec fn settled(
    clients: Map<usize, ClientView>,
    token: usize,
    c: ClientView,
    step: Step,
) -> Map<usize, ClientView> {
    if step == Step::Close {
        clients.remove(token)
    } else {
        clients.insert(token, c)
    }
}

/// The action that passes `step` on for the connection `c`.
pub open spec fn conveys(action: Action, c: ClientView, step: Step) -> bool {
    match step {
        Step::Read => action == Action::Read,
        Step::Parse => action == Action::Parse,
        Step::Write => action matches Action::Write(bytes) && Some(bytes@) == pending_output(c),
        Step::Rearm => action == Action::Rearm(c.interest),
        Step::Close => action == Action::Close,
    }
}

/// What every step of the server keeps: the counter does not fall, a
/// connection that appears has an identifier never given out before, and a
/// connection that stays is not behind where it was.
pub open spec fn advances(before: ServerView, after: ServerView) -> bool {
    &&& before.counter <= after.counter
    &&& forall|t: usize| #[trigger]
        after.clients.contains_key(t) ==> before.clients.contains_key(t) || before.counter < t
    &&& forall|t: usize|
        before.clients.contains_key(t) && #[trigger] after.clients.contains_key(t) ==> rank(
            before.clients[t].state,
        ) <= rank(after.clients[t].state)
}

/// Over any two stretches of the server's history, one after the other,
/// what holds of each holds of the whole: no identifier comes back for
/// another connection, and no connection goes back.
pub proof fn lemma_advances_chain(a: ServerView, b: ServerView, c: ServerView)
    requires
        tokens_sound(a),
        advances(a, b),
        advances(b, c),
    ensures
        advances(a, c),
{
    assert forall|t: usize| #[trigger] c.clients.contains_key(t) implies a.clients.contains_key(t)
        || a.counter < t by {
        if !b.clients.contains_key(t) {
            assert(b.counter < t);
        }
    }
    assert forall|t: usize| a.clients.contains_key(t) && #[trigger] c.clients.contains_key(
        t,
    ) implies rank(a.clients[t].state) <= rank(c.clients[t].state) by {
        if !b.clients.contains_key(t) {
            assert(b.counter < t);
            assert(t <= a.counter);
        }
    }
}

proof fn lemma_counter(s: ServerView, n: nat)
    requires
        s.counter + n <= usize::MAX,
    ensures
        accepted_n(s, n).counter == s.counter + n,
    decreases n,
{
    if n > 0 {
        lemma_counter(s, (n - 1) as nat);
    }
}

/// Connections accepted one after the other get identifiers that differ
/// from one another and from the listening socket's.
pub proof fn lemma_tokens_distinct(s: ServerView, n: nat, i: nat, j: nat)
    requires
        s.counter + n <= usize::MAX,
        i < j < n,
    ensures
        token_n(s, i) != token_n(s, j),
        token_n(s, i) != SERVER_TOKEN,
        token_n(s, j) != SERVER_TOKEN,
{
    lemma_counter(s, i + 1);
    lemma_counter(s, j + 1);
}

/// A new identifier names no connection that is in the table, and after any
/// number of further accepts each connection accepted so far is still there
/// under its own identifier.
pub proof fn lemma_tokens_kept(s: ServerView, n: nat, i: nat)
    requires
        tokens_sound(s),
        s.counter + n <= usize::MAX,
        i < n,
    ensures
        !s.clients.contains_key(token_n(s, i)),
        accepted_n(s, n).clients.contains_key(token_n(s, i)),
        tokens_sound(accepted_n(s, n)),
    decreases n,
{
    lemma_counter(s, i + 1);
    lemma_counter(s, n);
    lemma_counter(s, (n - 1) as nat);
    if i < n - 1 {
        lemma_tokens_kept(s, (n - 1) as nat, i);
    } else {
        lemma_sound_kept(s, (n - 1) as nat);
    }
}

proof fn lemma_sound_kept(s: ServerView, n: nat)
    requires
        tokens_sound(s),
        s.counter + n <= usize::MAX,
    ensures
        tokens_sound(accepted_n(s, n)),
    decreases n,
{
    if n > 0 {
        lemma_counter(s, n);
        lemma_counter(s, (n - 1) as nat);
        lemma_sound_kept(s, (n - 1) as nat);
    }
}

/// The table of connections and the counter that names them.
pub struct WebSocketServer {
    clients: HashMap<usize, WebSocketClient>,
    token_counter: usize,
}

impl View for WebSocketServer {
    type V = ServerView;

    closed spec fn view(&self) -> ServerView {
        ServerView {
            counter: self.token_counter,
            clients: Map::new(
                |t: usize| self.clients@.contains_key(t),
                |t: usize| self.clients@[t]@,
            ),
        }
    }
}

impl WebSocketServer {
    /// Every connection in the table is sound and its identifier was given out.
    pub closed spec fn wf(&self) -> bool {
        &&& self.token_counter >= 1
        &&& forall|t: usize| #[trigger]
            self.clients@.contains_key(t) ==> t != SERVER_TOKEN && t <= self.token_counter
                && self.clients@[t].wf()
    }

    /// In a sound server every identifier in the table was given out, none
    /// is the listening socket's, and the table is finite.
    pub proof fn lemma_sound(&self)
        requires
            self.wf(),
        ensures
            tokens_sound(self@),
            self@.clients.dom().finite(),
    {
        assert(self@.clients.dom() =~= self.clients@.dom());
    }

    /// A server with an empty table.
    pub fn new() -> (r: WebSocketServer)
        ensures
            r.wf(),
            r@ == initial(),
    {
        let r = WebSocketServer { clients: HashMap::new(), token_counter: 1 };
        assert(r@.clients =~= Map::empty());
        r
    }

    /// Whether `token` names a connection in the table.
    pub fn contains(&self, token: usize) -> (r: bool)
        ensures
            r == self@.clients.contains_key(token),
    {
        self.clients.contains_key(&token)
    }

    /// The number of connections in the table.
    pub fn len(&self) -> (r: usize)
        ensures
            r == self@.clients.dom().len(),
    {
        assert(self@.clients.dom() =~= self.clients@.dom());
        self.clients.len()
    }

    /// Takes in a connection that was just accepted and returns its
    /// identifier: one more than the last. When the identifiers are used
    /// up, the connection is turned away and nothing changes.
    pub fn accept(&mut self) -> (r: Option<usize>)
        requires
            old(self).wf(),
        ensures
            final(self).wf(),
            old(self)@.counter < usize::MAX ==> final(self)@ == accepted(old(self)@) && r == Some(
                final(self)@.counter,
            ) && !old(self)@.clients.contains_key(final(self)@.counter),
            old(self)@.counter == usize::MAX ==> r is None && final(self)@ == old(self)@,
            advances(old(self)@, final(self)@),
    {
        if self.token_counter == usize::MAX {
            return None;
        }
        self.token_counter = self.token_counter + 1;
        let new_token: usize = self.token_counter;
        self.clients.insert(new_token, WebSocketClient::new());
        assert(self@.clients =~= accepted(old(self)@).clients);
        Some(new_token)
    }

    /// Passes `step` on for the connection `c`, with what the caller needs
    /// to carry it out.
    fn convey(c: &WebSocketClient, step: Step) -> (r: Action)
        requires
            c.wf(),
            step == Step::Write ==> pending_output(c@) is Some,
        ensures
            conveys(r, c@, step),
    {
        match step {
            Step::Read => Action::Read,
            Step::Parse => Action::Parse,
            Step::Write => match c.output() {
                Some(bytes) => Action::Write(bytes),
                None => Action::Close,
            },
            Step::Rearm => Action::Rearm(c.interest()),
            Step::Close => Action::Close,
        }
    }

    /// Puts the connection back under `token`, unless it was told to close.
    fn settle(&mut self, token: usize, c: WebSocketClient, step: Step) -> (r: Action)
        requires
            old(self).wf(),
            c.wf(),
            token != SERVER_TOKEN,
            token <= old(self)@.counter,
            !old(self).clients@.contains_key(token),
            step == Step::Write ==> pending_output(c@) is Some,
        ensures
            final(self).wf(),
            final(self)@.counter == old(self)@.counter,
            final(self)@.clients == settled(old(self)@.clients, token, c@, step),
            conveys(r, c@, step),
    {
        let action = Self::convey(&c, step);
        if step != Step::Close {
            self.put(token, c);
        } else {
            assert(self@.clients =~= old(self)@.clients.remove(token));
        }
        action
    }

    /// Puts the connection `c` into the table under `token`.
    fn put(&mut self, token: usize, c: WebSocketClient)
        requires
            old(self).wf(),
            c.wf(),
            token != SERVER_TOKEN,
            token <= old(self)@.counter,
        ensures
            final(self).wf(),
            final(self)@.counter == old(self)@.counter,
            final(self)@.clients == old(self)@.clients.insert(token, c@),
    {
        self.clients.insert(token, c);
        assert(self@.clients =~= old(self)@.clients.insert(token, c@));
    }

    /// Takes the connection `token` out of the table.
    fn take(&mut self, token: usize) -> (c: WebSocketClient)
        requires
            old(self).wf(),
            old(self)@.clients.contains_key(token),
        ensures
            final(self).wf(),
            final(self)@.counter == old(self)@.counter,
            final(self)@.clients == old(self)@.clients.remove(token),
            !final(self).clients@.contains_key(token),
            c.wf(),
            c@ == old(self)@.clients[token],
            token != SERVER_TOKEN,
            token <= old(self)@.counter,
    {
        let c = self.clients.remove(&token).unwrap();
        assert(self@.clients =~= old(self)@.clients.remove(token));
        c
    }

    /// Dispatches a readiness event. On the listening socket's identifier
    /// the caller accepts; on a connection's, the connection's state says
    /// whether to read, to write the response, or to wait. A connection
    /// that is due to respond to a request without a nonce is dropped.
    pub fn ready(&mut self, token: usize) -> (r: Action)
        requires
            old(self).wf(),
            token == SERVER_TOKEN || old(self)@.clients.contains_key(token),
        ensures
            final(self).wf(),
            final(self)@.counter == old(self)@.counter,
            advances(old(self)@, final(self)@),
            token == SERVER_TOKEN ==> r == Action::Accept && final(self)@ == old(self)@,
            token != SERVER_TOKEN ==> ({
                let c = old(self)@.clients[token];
                &&& conveys(r, c, ready_step(c))
                &&& final(self)@.clients == settled(old(self)@.clients, token, c, ready_step(c))
            }),
    {
        if token == SERVER_TOKEN {
            return Action::Accept;
        }
        let c = self.take(token);
        let step = c.ready();
        self.settle(token, c, step)
    }

    /// Takes the result of a read from the connection's socket. A failed
    /// read and the end of the stream drop the connection.
    pub fn read(&mut self, token: usize, result: IoResult) -> (r: Action)
        requires
            old(self).wf(),
            old(self)@.clients.contains_key(token),
        ensures
            final(self).wf(),
            final(self)@.counter == old(self)@.counter,
            advances(old(self)@, final(self)@),
            ({
                let c = old(self)@.clients[token];
                &&& conveys(r, c, read_step(c.state, result))
                &&& final(self)@.clients == settled(
                    old(self)@.clients,
                    token,
                    c,
                    read_step(c.state, result),
                )
            }),
    {
        let c = self.take(token);
        let step = c.read(result);
        self.settle(token, c, step)
    }

    /// Takes the tokenizer's upgrade signal after it was given a chunk.
    pub fn parsed(&mut self, token: usize, upgrade: bool) -> (r: Action)
        requires
            old(self).wf(),
            old(self)@.clients.contains_key(token),
        ensures
            final(self).wf(),
            final(self)@.counter == old(self)@.counter,
            advances(old(self)@, final(self)@),
            ({
                let c = old(self)@.clients[token];
                &&& conveys(r, after_parse(c, upgrade), parse_step(c, upgrade))
                &&& final(self)@.clients == old(self)@.clients.insert(
                    token,
                    after_parse(c, upgrade),
                )
            }),
    {
        let mut c = self.take(token);
        let step = c.parsed(upgrade);
        self.settle(token, c, step)
    }

    /// Takes the result of a write to the connection's socket. A failed
    /// write drops the connection; after a partial write the rest is due.
    pub fn wrote(&mut self, token: usize, result: IoResult) -> (r: Action)
        requires
            old(self).wf(),
            old(self)@.clients.contains_key(token),
        ensures
            final(self).wf(),
            final(self)@.counter == old(self)@.counter,
            advances(old(self)@, final(self)@),
            ({
                let c = old(self)@.clients[token];
                &&& conveys(r, after_write(c, result), write_step(c, result))
                &&& final(self)@.clients == settled(
                    old(self)@.clients,
                    token,
                    after_write(c, result),
                    write_step(c, result),
                )
            }),
    {
        let mut c = self.take(token);
        let step = c.wrote(result);
        self.settle(token, c, step)
    }

    /// The tokenizer found a field name on the connection `token`.
    pub fn on_header_field(&mut self, token: usize, s: &[u8]) -> (go: bool)
        requires
            old(self).wf(),
            old(self)@.clients.contains_key(token),
            valid_utf8(s@),
        ensures
            final(self).wf(),
            go,
            final(self)@.counter == old(self)@.counter,
            advances(old(self)@, final(self)@),
            ({
                let c = old(self)@.clients[token];
                final(self)@.clients == old(self)@.clients.insert(
                    token,
                    ClientView {
                        collected: step(c.collected, HeaderEvent::Field(decode_utf8(s@))),
                        ..c
                    },
                )
            }),
    {
        let mut c = self.take(token);
        let go = c.on_header_field(s);
        self.put(token, c);
        assert(self@.clients =~= old(self)@.clients.insert(token, c@));
        go
    }

    /// The tokenizer found a field value on the connection `token`.
    pub fn on_header_value(&mut self, token: usize, s: &[u8]) -> (go: bool)
        requires
            old(self).wf(),
            old(self)@.clients.contains_key(token),
            old(self)@.clients[token].collected.pending is Some,
            valid_utf8(s@),
        ensures
            final(self).wf(),
            go,
            final(self)@.counter == old(self)@.counter,
            advances(old(self)@, final(self)@),
            ({
                let c = old(self)@.clients[token];
                final(self)@.clients == old(self)@.clients.insert(
                    token,
                    ClientView {
                        collected: step(c.collected, HeaderEvent::Value(decode_utf8(s@))),
                        ..c
                    },
                )
            }),
    {
        let mut c = self.take(token);
        let go = c.on_header_value(s);
        self.put(token, c);
        assert(self@.clients =~= old(self)@.clients.insert(token, c@));
        go
    }

    /// Whether the tokenizer's next callback for the connection `token`, of
    /// the kind `kind`, can be taken.
    pub fn accepts(&self, token: usize, kind: PieceKind) -> (r: bool)
        requires
            self@.clients.contains_key(token),
        ensures
            r == accepts_piece(self@.clients[token].collected, kind),
    {
        let c = self.clients.get(&token).unwrap();
        c.accepts(kind)
    }

    /// The tokenizer found some bytes of a field name on the connection `token`.
    pub fn on_field_piece(&mut self, token: usize, s: &[u8]) -> (go: bool)
        requires
            old(self).wf(),
            old(self)@.clients.contains_key(token),
            accepts_piece(old(self)@.clients[token].collected, PieceKind::Field),
        ensures
            final(self).wf(),
            go,
            final(self)@.counter == old(self)@.counter,
            advances(old(self)@, final(self)@),
            ({
                let c = old(self)@.clients[token];
                final(self)@.clients == old(self)@.clients.insert(
                    token,
                    ClientView { collected: piece_step(c.collected, Piece::Field(s@)), ..c },
                )
            }),
    {
        let mut c = self.take(token);
        let go = c.on_field_piece(s);
        self.put(token, c);
        assert(self@.clients =~= old(self)@.clients.insert(token, c@));
        go
    }

    /// The tokenizer found some bytes of a field value on the connection `token`.
    pub fn on_value_piece(&mut self, token: usize, s: &[u8]) -> (go: bool)
        requires
            old(self).wf(),
            old(self)@.clients.contains_key(token),
            accepts_piece(old(self)@.clients[token].collected, PieceKind::Value),
        ensures
            final(self).wf(),
            go,
            final(self)@.counter == old(self)@.counter,
            advances(old(self)@, final(self)@),
            ({
                let c = old(self)@.clients[token];
                final(self)@.clients == old(self)@.clients.insert(
                    token,
                    ClientView { collected: piece_step(c.collected, Piece::Value(s@)), ..c },
                )
            }),
    {
        let mut c = self.take(token);
        let go = c.on_value_piece(s);
        self.put(token, c);
        assert(self@.clients =~= old(self)@.clients.insert(token, c@));
        go
    }

    /// The tokenizer reached the end of the headers on the connection `token`.
    pub fn on_headers_complete(&mut self, token: usize) -> (go: bool)
        requires
            old(self).wf(),
            old(self)@.clients.contains_key(token),
            accepts_piece(old(self)@.clients[token].collected, PieceKind::Complete),
        ensures
            final(self).wf(),
            !go,
            final(self)@.counter == old(self)@.counter,
            advances(old(self)@, final(self)@),
            ({
                let c = old(self)@.clients[token];
                final(self)@.clients == old(self)@.clients.insert(
                    token,
                    ClientView { collected: piece_step(c.collected, Piece::Complete), ..c },
                )
            }),
    {
        let mut c = self.take(token);
        let go = c.on_headers_complete();
        self.put(token, c);
        assert(self@.clients =~= old(self)@.clients.insert(token, c@));
        go
    }

    /// Takes the outcome of one attempt to accept a connection. A
    /// connection that came is taken in as `accept` does, and the caller
    /// tries again; when none is pending, or the attempt failed, nothing
    /// changes and the caller stops.
    pub fn accept_result(&mut self, result: AcceptResult) -> (r: (Option<usize>, bool))
        requires
            old(self).wf(),
        ensures
            final(self).wf(),
            advances(old(self)@, final(self)@),
            r.1 == (result == AcceptResult::Accepted),
            result == AcceptResult::Accepted && old(self)@.counter < usize::MAX ==> final(self)@
                == accepted(old(self)@) && r.0 == Some(final(self)@.counter)
                && !old(self)@.clients.contains_key(final(self)@.counter),
            result != AcceptResult::Accepted || old(self)@.counter == usize::MAX ==> final(self)@
                == old(self)@ && r.0 is None,
    {
        match result {
            AcceptResult::Accepted => (self.accept(), true),
            AcceptResult::WouldBlock => (None, false),
            AcceptResult::Failed => (None, false),
        }
    }

    /// Whether a field name awaits its value on the connection `token`.
    pub fn has_pending(&self, token: usize) -> (r: bool)
        requires
            self@.clients.contains_key(token),
        ensures
            r == (self@.clients[token].collected.pending is Some),
    {
        let c = self.clients.get(&token).unwrap();
        c.has_pending()
    }

    /// The value that the connection `token` received for the header `name`.
    pub fn header(&self, token: usize, name: &String) -> (r: Option<&String>)
        requires
            self.wf(),
            self@.clients.contains_key(token),
        ensures
            match r {
                Some(v) => self@.clients[token].collected.headers.contains_key(name@) && v@
                    == self@.clients[token].collected.headers[name@],
                None => !self@.clients[token].collected.headers.contains_key(name@),
            },
    {
        let c = self.clients.get(&token).unwrap();
        c.header(name)
    }

    /// The state of the connection `token`.
    pub fn state(&self, token: usize) -> (r: ClientState)
        requires
            self@.clients.contains_key(token),
        ensures
            r == self@.clients[token].state,
    {
        let c = self.clients.get(&token).unwrap();
        c.state()
    }

    /// The interest of the connection `token`.
    pub fn interest(&self, token: usize) -> (r: Interest)
        requires
            self@.clients.contains_key(token),
        ensures
            r == self@.clients[token].interest,
    {
        let c = self.clients.get(&token).unwrap();
        c.interest()
    }
}

} // verus!
