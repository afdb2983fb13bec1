//! The header mapping of one connection and the collector that fills it
//! from a tokenizer's callbacks. A tokenizer that is fed a request in
//! several reads hands out a name or a value in pieces; the collector joins
//! the pieces, so that the mapping does not depend on where the reads fell.

use vstd::prelude::*;
use vstd::utf8::{decode_utf8, valid_utf8};

verus! {

/// One header line: a field name and the value last received for it.
struct Header {
    name: String,
    value: String,
}

/// A mapping from header-field names to values. Names are kept as received;
/// no two entries share a name.
pub struct Headers {
    entries: Vec<Header>,
}

impl View for Headers {
    type V = Map<Seq<char>, Seq<char>>;

    closed spec fn view(&self) -> Map<Seq<char>, Seq<char>> {
        Map::new(|k: Seq<char>| self.has(k), |k: Seq<char>| self.entries@[self.pos(k)].value@)
    }
}

impl Headers {
    /// Some entry carries the name `k`.
    spec fn has(&self, k: Seq<char>) -> bool {
        exists|i: int| 0 <= i < self.entries@.len() && (#[trigger] self.entries@[i]).name@ == k
    }

    /// The position of an entry that carries the name `k`.
    spec fn pos(&self, k: Seq<char>) -> int {
        choose|i: int| 0 <= i < self.entries@.len() && (#[trigger] self.entries@[i]).name@ == k
    }

    /// No name occurs twice.
    pub closed spec fn wf(&self) -> bool {
        forall|i: int, j: int|
            0 <= i < j < self.entries@.len() ==> (#[trigger] self.entries@[i]).name@ != (
            #[trigger] self.entries@[j]).name@
    }

    proof fn lemma_pos(&self, i: int)
        requires
            self.wf(),
            0 <= i < self.entries@.len(),
        ensures
            self.has(self.entries@[i].name@),
            self.pos(self.entries@[i].name@) == i,
    {
        let k = self.entries@[i].name@;
        assert(self.has(k));
        let p = self.pos(k);
        assert(0 <= p < self.entries@.len() && self.entries@[p].name@ == k);
        if p < i {
            assert(self.entries@[p].name@ != self.entries@[i].name@);
        } else if i < p {
            assert(self.entries@[i].name@ != self.entries@[p].name@);
        }
    }

    /// The empty mapping.
    pub fn new() -> (r: Headers)
        ensures
            r.wf(),
            r@ == Map::<Seq<char>, Seq<char>>::empty(),
    {
        let r = Headers { entries: Vec::new() };
        assert(r@ =~= Map::<Seq<char>, Seq<char>>::empty());
        r
    }

    /// The position of `name` among the entries, if it is there.
    fn find(&self, name: &String) -> (r: Option<usize>)
        requires
            self.wf(),
        ensures
            match r {
                Some(i) => i < self.entries@.len() && self.entries@[i as int].name@ == name@
                    && self.has(name@) && self.pos(name@) == i,
                None => !self.has(name@),
            },
    {
        let mut i: usize = 0;
        while i < self.entries.len()
            invariant
                self.wf(),
                i <= self.entries@.len(),
                forall|j: int| 0 <= j < i ==> (#[trigger] self.entries@[j]).name@ != name@,
            decreases self.entries@.len() - i,
        {
            if self.entries[i].name == *name {
                proof {
                    self.lemma_pos(i as int);
                }
                return Some(i);
            }
            i += 1;
        }
        None
    }

    /// The value recorded for `name`, if there is one.
    pub fn get(&self, name: &String) -> (r: Option<&String>)
        requires
            self.wf(),
        ensures
            match r {
                Some(v) => self@.contains_key(name@) && v@ == self@[name@],
                None => !self@.contains_key(name@),
            },
    {
        match self.find(name) {
            Some(i) => Some(&self.entries[i].value),
            None => None,
        }
    }

    /// Records `value` for `name`, in place of any value recorded before.
    pub fn insert(&mut self, name: String, value: String)
        requires
            old(self).wf(),
        ensures
            final(self).wf(),
            final(self)@ == old(self)@.insert(name@, value@),
    {
        let ghost before = *self;
        let ghost k = name@;
        let ghost v = value@;
        match self.find(&name) {
            Some(i) => {
                self.entries.set(i, Header { name, value });
                proof {
                    assert forall|j: int| 0 <= j < self.entries@.len() implies (
                    #[trigger] self.entries@[j]).name@ == before.entries@[j].name@ by {}
                    assert(self.wf()) by {
                        assert forall|a: int, b: int|
                            0 <= a < b < self.entries@.len() implies (
                        #[trigger] self.entries@[a]).name@ != (#[trigger] self.entries@[b]).name@ by {
                            assert(before.entries@[a].name@ != before.entries@[b].name@);
                        }
                    }
                    assert forall|q: Seq<char>| self.has(q) == before.has(q) by {
                        if self.has(q) {
                            let p = self.pos(q);
                            assert(before.entries@[p].name@ == q);
                        }
                        if before.has(q) {
                            let p = before.pos(q);
                            assert(self.entries@[p].name@ == q);
                        }
                    }
                    assert forall|q: Seq<char>| self.has(q) implies self.pos(q) == before.pos(q) by {
                        let p = self.pos(q);
                        assert(before.entries@[p].name@ == q);
                        before.lemma_pos(p);
                    }
                    assert(self@ =~= before@.insert(k, v));
                }
            },
            None => {
                self.entries.push(Header { name, value });
                proof {
                    let n = before.entries@.len() as int;
                    assert forall|j: int| 0 <= j < n implies (#[trigger] self.entries@[j])
                        == before.entries@[j] by {}
                    assert(self.wf()) by {
                        assert forall|a: int, b: int|
                            0 <= a < b < self.entries@.len() implies (
                        #[trigger] self.entries@[a]).name@ != (#[trigger] self.entries@[b]).name@ by {
                            if b < n {
                                assert(before.entries@[a].name@ != before.entries@[b].name@);
                            } else {
                                assert(before.entries@[a].name@ != k);
                            }
                        }
                    }
                    assert forall|q: Seq<char>| self.has(q) == (before.has(q) || q == k) by {
                        if self.has(q) {
                            let p = self.pos(q);
                            if p < n {
                                assert(before.entries@[p].name@ == q);
                            }
                        }
                        if before.has(q) {
                            let p = before.pos(q);
                            assert(self.entries@[p].name@ == q);
                        }
                        if q == k {
                            assert(self.entries@[n].name@ == q);
                        }
                    }
                    assert forall|q: Seq<char>| before.has(q) implies self.pos(q) == before.pos(
                        q,
                    ) by {
                        let p = before.pos(q);
                        assert(self.entries@[p].name@ == q);
                        self.lemma_pos(p);
                    }
                    self.lemma_pos(n);
                    assert(self@ =~= before@.insert(k, v));
                }
            },
        }
    }
}

/// Which part of a header line the tokenizer is in the middle of.
#[derive(Clone, Copy, PartialEq, Eq, Structural, Debug)]
pub enum Part {
    /// Between header lines: nothing is being gathered.
    Idle,
    /// Inside a field name.
    Field,
    /// Inside a field value.
    Value,
}

/// The kinds of callback that the tokenizer makes.
#[derive(Clone, Copy, PartialEq, Eq, Structural, Debug)]
pub enum PieceKind {
    Field,
    Value,
    Complete,
}

/// What a collector holds at any moment: the field name that awaits a value,
/// the mapping built so far, and the bytes gathered of a name or value that
/// the tokenizer has not finished.
pub struct Collected {
    pub pending: Option<Seq<char>>,
    pub headers: Map<Seq<char>, Seq<char>>,
    pub part: Part,
    pub bytes: Seq<u8>,
}

/// A callback as the tokenizer makes it: some bytes of a field name, some
/// bytes of a field value, or the end of the headers. A name or value that
/// spans two reads comes in several pieces.
pub enum Piece {
    Field(Seq<u8>),
    Value(Seq<u8>),
    Complete,
}

/// An event of the tokenizer, with its text.
pub enum HeaderEvent {
    Field(Seq<char>),
    Value(Seq<char>),
    Complete,
}

/// The collector with nothing received.
pub open spec fn fresh() -> Collected {
    Collected { pending: None, headers: Map::empty(), part: Part::Idle, bytes: Seq::empty() }
}

/// The effect of one event. A field name becomes the pending name, in place
/// of any earlier one. A value is recorded under the pending name, which
/// stays pending; without a pending name it has no place to go. The end of
/// the headers changes nothing. What is being gathered is left alone.
pub open spec fn step(c: Collected, e: HeaderEvent) -> Collected {
    match e {
        HeaderEvent::Field(name) => Collected { pending: Some(name), ..c },
        HeaderEvent::Value(value) => match c.pending {
            Some(name) => Collected { headers: c.headers.insert(name, value), ..c },
            None => c,
        },
        HeaderEvent::Complete => c,
    }
}

/// The effect of a run of events, first to last.
pub open spec fn run(c: Collected, events: Seq<HeaderEvent>) -> Collected
    decreases events.len(),
{
    if events.len() == 0 {
        c
    } else {
        step(run(c, events.drop_last()), events.last())
    }
}

/// The effect of several runs of events, one after the other.
pub open spec fn run_chunks(c: Collected, chunks: Seq<Seq<HeaderEvent>>) -> Collected
    decreases chunks.len(),
{
    if chunks.len() == 0 {
        c
    } else {
        run(run_chunks(c, chunks.drop_last()), chunks.last())
    }
}

/// The events of several runs, laid end to end.
pub open spec fn joined(chunks: Seq<Seq<HeaderEvent>>) -> Seq<HeaderEvent>
    decreases chunks.len(),
{
    if chunks.len() == 0 {
        Seq::empty()
    } else {
        joined(chunks.drop_last()) + chunks.last()
    }
}

/// Receiving `a` and then `b` leaves the collector as receiving `a + b` at
/// once does.
pub proof fn lemma_run_concat(c: Collected, a: Seq<HeaderEvent>, b: Seq<HeaderEvent>)
    ensures
        run(run(c, a), b) == run(c, a + b),
    decreases b.len(),
{
    if b.len() == 0 {
        assert(a + b =~= a);
    } else {
        lemma_run_concat(c, a, b.drop_last());
        assert((a + b).drop_last() =~= a + b.drop_last());
        assert((a + b).last() == b.last());
    }
}

/// However a stream of events is cut into chunks, the collector ends with
/// the same pending name and the same mapping as when the stream arrives in
/// one piece.
pub proof fn lemma_chunking_is_invisible(c: Collected, chunks: Seq<Seq<HeaderEvent>>)
    ensures
        run_chunks(c, chunks) == run(c, joined(chunks)),
    decreases chunks.len(),
{
    if chunks.len() > 0 {
        lemma_chunking_is_invisible(c, chunks.drop_last());
        lemma_run_concat(c, joined(chunks.drop_last()), chunks.last());
    }
}

/// The whole name or value that the gathered bytes make, as the event it is.
pub open spec fn whole(c: Collected) -> Option<HeaderEvent> {
    match c.part {
        Part::Idle => None,
        Part::Field => Some(HeaderEvent::Field(decode_utf8(c.bytes))),
        Part::Value => Some(HeaderEvent::Value(decode_utf8(c.bytes))),
    }
}

/// The collector after what it gathered was released: the whole name or
/// value takes effect as one event, and nothing is being gathered.
pub open spec fn flushed(c: Collected) -> Collected {
    match whole(c) {
        None => c,
        Some(e) => Collected { part: Part::Idle, bytes: Seq::empty(), ..step(c, e) },
    }
}

/// The effect of one piece. A piece of the part that is being gathered is
/// joined to it. A piece of the other part, and the end of the headers,
/// first release what was gathered; the piece then begins the new part.
pub open spec fn piece_step(c: Collected, p: Piece) -> Collected {
    match p {
        Piece::Field(s) => if c.part == Part::Field {
            Collected { bytes: c.bytes + s, ..c }
        } else {
            Collected { part: Part::Field, bytes: s, ..flushed(c) }
        },
        Piece::Value(s) => if c.part == Part::Value {
            Collected { bytes: c.bytes + s, ..c }
        } else {
            Collected { part: Part::Value, bytes: s, ..flushed(c) }
        },
        Piece::Complete => flushed(c),
    }
}

/// The whole events that one piece brings about: the name or value that it
/// ends, if it ends one, and the end of the headers if it is that.
pub open spec fn released(c: Collected, p: Piece) -> Seq<HeaderEvent> {
    let goes_on = (c.part == Part::Field && p is Field) || (c.part == Part::Value && p is Value);
    let ended = match (whole(c), goes_on) {
        (Some(e), false) => seq![e],
        _ => Seq::empty(),
    };
    if p is Complete {
        ended.push(HeaderEvent::Complete)
    } else {
        ended
    }
}

/// The effect of a run of pieces, first to last.
pub open spec fn run_pieces(c: Collected, pieces: Seq<Piece>) -> Collected
    decreases pieces.len(),
{
    if pieces.len() == 0 {
        c
    } else {
        piece_step(run_pieces(c, pieces.drop_last()), pieces.last())
    }
}

/// The whole events that a run of pieces brings about, first to last.
pub open spec fn whole_events(c: Collected, pieces: Seq<Piece>) -> Seq<HeaderEvent>
    decreases pieces.len(),
{
    if pieces.len() == 0 {
        Seq::empty()
    } else {
        whole_events(c, pieces.drop_last()) + released(
            run_pieces(c, pieces.drop_last()),
            pieces.last(),
        )
    }
}

/// A piece of the same kind as `p`, with the bytes `s`.
pub open spec fn with_bytes(p: Piece, s: Seq<u8>) -> Piece {
    match p {
        Piece::Field(_) => Piece::Field(s),
        Piece::Value(_) => Piece::Value(s),
        Piece::Complete => Piece::Complete,
    }
}

/// Whether a piece of the kind `kind` can be taken: what it releases must
/// be well-formed text, and a value needs a name to go under.
pub open spec fn accepts_piece(c: Collected, kind: PieceKind) -> bool {
    let releases = match kind {
        PieceKind::Field => c.part == Part::Value,
        PieceKind::Value => c.part == Part::Field,
        PieceKind::Complete => c.part != Part::Idle,
    };
    &&& releases ==> valid_utf8(c.bytes)
    &&& kind == PieceKind::Value && c.part == Part::Idle ==> c.pending is Some
}

/// Receiving the pieces `a` and then `b` leaves the collector as receiving
/// `a + b` at once does, and brings about the same whole events.
pub proof fn lemma_pieces_concat(c: Collected, a: Seq<Piece>, b: Seq<Piece>)
    ensures
        run_pieces(run_pieces(c, a), b) == run_pieces(c, a + b),
        whole_events(c, a) + whole_events(run_pieces(c, a), b) == whole_events(c, a + b),
    decreases b.len(),
{
    if b.len() == 0 {
        assert(a + b =~= a);
        assert(whole_events(c, a) + whole_events(run_pieces(c, a), b) =~= whole_events(c, a));
    } else {
        lemma_pieces_concat(c, a, b.drop_last());
        assert((a + b).drop_last() =~= a + b.drop_last());
        assert((a + b).last() == b.last());
        assert(whole_events(c, a) + whole_events(run_pieces(c, a), b) =~= whole_events(c, a + b));
    }
}

/// A run of one piece is that piece's step, and brings about what the piece
/// releases.
pub proof fn lemma_one_piece(c: Collected, p: Piece)
    ensures
        run_pieces(c, seq![p]) == piece_step(c, p),
        whole_events(c, seq![p]) == released(c, p),
{
    reveal_with_fuel(run_pieces, 2);
    reveal_with_fuel(whole_events, 2);
    let one = seq![p];
    assert(one.drop_last() =~= Seq::<Piece>::empty());
    assert(one.last() == p);
    assert(run_pieces(c, one.drop_last()) == c);
    assert(whole_events(c, one) =~= released(c, p));
}

/// A piece of a name or of a value that arrives cut in two leaves the
/// collector as the uncut piece does, and no whole event differs.
pub proof fn lemma_cut_piece(c: Collected, p: Piece, x: Seq<u8>, y: Seq<u8>)
    requires
        !(p is Complete),
    ensures
        run_pieces(c, seq![with_bytes(p, x), with_bytes(p, y)]) == piece_step(
            c,
            with_bytes(p, x + y),
        ),
        whole_events(c, seq![with_bytes(p, x), with_bytes(p, y)]) == released(
            c,
            with_bytes(p, x + y),
        ),
{
    let two = seq![with_bytes(p, x), with_bytes(p, y)];
    let one = seq![with_bytes(p, x)];
    assert(two.drop_last() =~= one);
    lemma_one_piece(c, with_bytes(p, x));
    let mid = piece_step(c, with_bytes(p, x));
    let end = piece_step(mid, with_bytes(p, y));
    let whole_piece = piece_step(c, with_bytes(p, x + y));
    assert(end.bytes =~= whole_piece.bytes);
    assert(end == whole_piece);
    assert(released(mid, with_bytes(p, y)) =~= Seq::<HeaderEvent>::empty());
    assert(whole_events(c, two) =~= released(c, with_bytes(p, x + y)));
}

/// Wherever a stream of pieces is cut inside a name or a value, the
/// collector ends with the same pending name and the same mapping, and the
/// same whole events came about.
pub proof fn lemma_cut_anywhere(
    c: Collected,
    before: Seq<Piece>,
    p: Piece,
    x: Seq<u8>,
    y: Seq<u8>,
    after: Seq<Piece>,
)
    requires
        !(p is Complete),
    ensures
        run_pieces(c, before + seq![with_bytes(p, x), with_bytes(p, y)] + after) == run_pieces(
            c,
            before + seq![with_bytes(p, x + y)] + after,
        ),
        whole_events(c, before + seq![with_bytes(p, x), with_bytes(p, y)] + after)
            == whole_events(c, before + seq![with_bytes(p, x + y)] + after),
{
    let two = seq![with_bytes(p, x), with_bytes(p, y)];
    let one = seq![with_bytes(p, x + y)];
    let m = run_pieces(c, before);
    lemma_cut_piece(m, p, x, y);
    lemma_one_piece(m, with_bytes(p, x + y));
    lemma_pieces_concat(c, before, two);
    lemma_pieces_concat(c, before, one);
    lemma_pieces_concat(c, before + two, after);
    lemma_pieces_concat(c, before + one, after);
}

/// Two pieces of one part: both of a name or both of a value.
pub open spec fn same_part(p: Piece, q: Piece) -> bool {
    (p is Field && q is Field) || (p is Value && q is Value)
}

/// The bytes that a piece carries.
pub open spec fn bytes_of(p: Piece) -> Seq<u8> {
    match p {
        Piece::Field(s) => s,
        Piece::Value(s) => s,
        Piece::Complete => Seq::empty(),
    }
}

/// A run of pieces with every cut undone: neighbours of one part are joined
/// into one piece. Two runs that come from one stream of bytes, cut at
/// different places, are the same run once joined.
pub open spec fn joined_pieces(pieces: Seq<Piece>) -> Seq<Piece>
    decreases pieces.len(),
{
    if pieces.len() == 0 {
        pieces
    } else {
        let init = joined_pieces(pieces.drop_last());
        let p = pieces.last();
        if init.len() > 0 && same_part(init.last(), p) {
            init.drop_last().push(with_bytes(p, bytes_of(init.last()) + bytes_of(p)))
        } else {
            init.push(p)
        }
    }
}

/// Undoing the cuts of a run of pieces changes neither what the collector
/// holds after it nor the whole events that it brings about.
pub proof fn lemma_joined_pieces(c: Collected, pieces: Seq<Piece>)
    ensures
        run_pieces(c, joined_pieces(pieces)) == run_pieces(c, pieces),
        whole_events(c, joined_pieces(pieces)) == whole_events(c, pieces),
    decreases pieces.len(),
{
    if pieces.len() > 0 {
        let init = joined_pieces(pieces.drop_last());
        let p = pieces.last();
        lemma_joined_pieces(c, pieces.drop_last());
        if init.len() > 0 && same_part(init.last(), p) {
            let q = init.last();
            let head = init.drop_last();
            let m = run_pieces(c, head);
            let one = with_bytes(p, bytes_of(q) + bytes_of(p));
            assert(q == with_bytes(p, bytes_of(q)));
            assert(p == with_bytes(p, bytes_of(p)));
            lemma_cut_piece(m, p, bytes_of(q), bytes_of(p));
            lemma_pieces_concat(c, head, seq![q, p]);
            lemma_pieces_concat(c, head, seq![one]);
            lemma_one_piece(m, one);
            assert(head + seq![one] =~= joined_pieces(pieces));
            assert(head + seq![q, p] =~= init.push(p));
            assert(init.push(p).drop_last() =~= init);
        } else {
            assert(init.push(p).drop_last() =~= init);
        }
    }
}

/// Header collection does not depend on where the reads fell: two runs of
/// pieces that are the same once their cuts are undone leave the same
/// pending name and the same mapping, and bring about the same whole events.
pub proof fn lemma_cuts_are_invisible(c: Collected, a: Seq<Piece>, b: Seq<Piece>)
    requires
        joined_pieces(a) == joined_pieces(b),
    ensures
        run_pieces(c, a) == run_pieces(c, b),
        whole_events(c, a) == whole_events(c, b),
{
    lemma_joined_pieces(c, a);
    lemma_joined_pieces(c, b);
}

/// Collectors that agree on the pending name and on the mapping still agree
/// on both after the same events.
proof fn lemma_run_agrees(a: Collected, b: Collected, events: Seq<HeaderEvent>)
    requires
        a.pending == b.pending,
        a.headers == b.headers,
    ensures
        run(a, events).pending == run(b, events).pending,
        run(a, events).headers == run(b, events).headers,
    decreases events.len(),
{
    if events.len() > 0 {
        lemma_run_agrees(a, b, events.drop_last());
    }
}

/// One piece changes the pending name and the mapping as the whole events
/// that it brings about do.
proof fn lemma_piece_as_events(c: Collected, p: Piece)
    ensures
        piece_step(c, p).pending == run(c, released(c, p)).pending,
        piece_step(c, p).headers == run(c, released(c, p)).headers,
{
    reveal_with_fuel(run, 3);
    let r = released(c, p);
    if r.len() == 1 {
        assert(r.drop_last() =~= Seq::<HeaderEvent>::empty());
    } else if r.len() == 2 {
        assert(r.drop_last().drop_last() =~= Seq::<HeaderEvent>::empty());
        assert(r.drop_last().last() == r[0]);
    }
}

/// The pending name and the mapping after a run of pieces are those that
/// the whole events of the run give: the pieces leave no other trace.
pub proof fn lemma_pieces_as_events(c: Collected, pieces: Seq<Piece>)
    ensures
        run_pieces(c, pieces).pending == run(c, whole_events(c, pieces)).pending,
        run_pieces(c, pieces).headers == run(c, whole_events(c, pieces)).headers,
    decreases pieces.len(),
{
    if pieces.len() > 0 {
        let m = run_pieces(c, pieces.drop_last());
        let before = whole_events(c, pieces.drop_last());
        let r = released(m, pieces.last());
        lemma_pieces_as_events(c, pieces.drop_last());
        lemma_piece_as_events(m, pieces.last());
        lemma_run_agrees(m, run(c, before), r);
        lemma_run_concat(c, before, r);
    }
}

/// The end of one list of bytes joined to another.
fn append(bytes: &mut Vec<u8>, s: &[u8])
    ensures
        final(bytes)@ == old(bytes)@ + s@,
{
    let mut i: usize = 0;
    while i < s.len()
        invariant
            i <= s@.len(),
            bytes@ == old(bytes)@ + s@.take(i as int),
        decreases s@.len() - i,
    {
        bytes.push(s[i]);
        i += 1;
        assert(s@.take(i as int) =~= s@.take(i - 1).push(s@[i - 1]));
        assert(bytes@ =~= old(bytes)@ + s@.take(i as int));
    }
    assert(s@.take(s@.len() as int) =~= s@);
}

/// Reads `bytes` as UTF-8 text through `std::str::from_utf8`, which accepts
/// exactly the well-formed byte strings and yields the characters they encode.
#[verifier::external_body]
fn text_of(bytes: &[u8]) -> (r: Option<String>)
    ensures
        r is Some <==> valid_utf8(bytes@),
        r is Some ==> r.unwrap()@ == decode_utf8(bytes@),
{
    match std::str::from_utf8(bytes) {
        Ok(text) => Some(text.to_string()),
        Err(_) => None,
    }
}

/// The receiver of a tokenizer's header events for one connection.
pub struct HttpParser {
    current_key: Option<String>,
    headers: Headers,
    part: Part,
    bytes: Vec<u8>,
}

impl View for HttpParser {
    type V = Collected;

    closed spec fn view(&self) -> Collected {
        Collected {
            pending: match self.current_key {
                Some(name) => Some(name@),
                None => None,
            },
            headers: self.headers@,
            part: self.part,
            bytes: self.bytes@,
        }
    }
}

impl HttpParser {
    /// The mapping inside is sound, and a value is gathered only for a name
    /// that is pending.
    pub closed spec fn wf(&self) -> bool {
        &&& self.headers.wf()
        &&& self.part == Part::Value ==> self.current_key is Some
    }

    /// A collector that has received nothing.
    pub fn new() -> (r: HttpParser)
        ensures
            r.wf(),
            r@ == fresh(),
    {
        HttpParser { current_key: None, headers: Headers::new(), part: Part::Idle, bytes: Vec::new() }
    }

    /// A field name arrived: it now awaits its value. The tokenizer is told
    /// to go on.
    pub fn on_header_field(&mut self, s: &[u8]) -> (go: bool)
        requires
            old(self).wf(),
            valid_utf8(s@),
        ensures
            final(self).wf(),
            go,
            final(self)@ == step(old(self)@, HeaderEvent::Field(decode_utf8(s@))),
    {
        self.current_key = text_of(s);
        true
    }

    /// A field value arrived: it is recorded under the pending name. The
    /// tokenizer is told to go on.
    pub fn on_header_value(&mut self, s: &[u8]) -> (go: bool)
        requires
            old(self).wf(),
            valid_utf8(s@),
            old(self)@.pending is Some,
        ensures
            final(self).wf(),
            go,
            final(self)@ == step(old(self)@, HeaderEvent::Value(decode_utf8(s@))),
    {
        let name = self.current_key.clone().unwrap();
        let value = text_of(s).unwrap();
        self.headers.insert(name, value);
        true
    }

    /// Whether a piece of the kind `kind` can be taken now.
    pub fn accepts(&self, kind: PieceKind) -> (r: bool)
        ensures
            r == accepts_piece(self@, kind),
    {
        let releases = match kind {
            PieceKind::Field => self.part == Part::Value,
            PieceKind::Value => self.part == Part::Field,
            PieceKind::Complete => self.part != Part::Idle,
        };
        if releases && text_of(self.bytes.as_slice()).is_none() {
            return false;
        }
        !(kind == PieceKind::Value && self.part == Part::Idle && self.current_key.is_none())
    }

    /// Releases what was gathered as one whole name or value.
    fn release(&mut self)
        requires
            old(self).wf(),
            old(self)@.part != Part::Idle ==> valid_utf8(old(self)@.bytes),
        ensures
            final(self).wf(),
            final(self)@ == flushed(old(self)@),
    {
        match self.part {
            Part::Idle => {},
            Part::Field => {
                self.current_key = text_of(self.bytes.as_slice());
                self.bytes = Vec::new();
                self.part = Part::Idle;
            },
            Part::Value => {
                let name = self.current_key.clone().unwrap();
                let value = text_of(self.bytes.as_slice()).unwrap();
                self.headers.insert(name, value);
                self.bytes = Vec::new();
                self.part = Part::Idle;
            },
        }
    }

    /// Some bytes of a field name arrived. They are joined to the name that
    /// is being gathered, or begin a name after the value before it was
    /// released. The tokenizer is told to go on.
    pub fn on_field_piece(&mut self, s: &[u8]) -> (go: bool)
        requires
            old(self).wf(),
            accepts_piece(old(self)@, PieceKind::Field),
        ensures
            final(self).wf(),
            go,
            final(self)@ == piece_step(old(self)@, Piece::Field(s@)),
    {
        if self.part == Part::Field {
            append(&mut self.bytes, s);
        } else {
            if self.part == Part::Value {
                self.release();
            }
            self.bytes = Vec::new();
            append(&mut self.bytes, s);
            self.part = Part::Field;
            assert(self.bytes@ =~= s@);
        }
        true
    }

    /// Some bytes of a field value arrived. They are joined to the value
    /// that is being gathered, or begin a value after the name before it
    /// was released. The tokenizer is told to go on.
    pub fn on_value_piece(&mut self, s: &[u8]) -> (go: bool)
        requires
            old(self).wf(),
            accepts_piece(old(self)@, PieceKind::Value),
        ensures
            final(self).wf(),
            go,
            final(self)@ == piece_step(old(self)@, Piece::Value(s@)),
    {
        if self.part == Part::Value {
            append(&mut self.bytes, s);
        } else {
            if self.part == Part::Field {
                self.release();
            }
            self.bytes = Vec::new();
            append(&mut self.bytes, s);
            self.part = Part::Value;
            assert(self.bytes@ =~= s@);
        }
        true
    }

    /// The headers ended: what was gathered is released, and the tokenizer
    /// is told not to look for a body.
    pub fn on_headers_complete(&mut self) -> (go: bool)
        requires
            old(self).wf(),
            accepts_piece(old(self)@, PieceKind::Complete),
        ensures
            final(self).wf(),
            !go,
            final(self)@ == piece_step(old(self)@, Piece::Complete),
    {
        self.release();
        false
    }

    /// Whether a field name awaits its value.
    pub fn has_pending(&self) -> (r: bool)
        ensures
            r == (self@.pending is Some),
    {
        self.current_key.is_some()
    }

    /// The value recorded for `name`, if there is one.
    pub fn header(&self, name: &String) -> (r: Option<&String>)
        requires
            self.wf(),
        ensures
            match r {
                Some(v) => self@.headers.contains_key(name@) && v@ == self@.headers[name@],
                None => !self@.headers.contains_key(name@),
            },
    {
        self.headers.get(name)
    }
}

} // verus!
