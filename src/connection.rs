//! The decisions of the server's per-connection loop: which messages go to
//! the responders, what a reply puts on the wire, and when the connection ends.

use vstd::prelude::*;
use vstd::utf8::{decode_utf8, encode_utf8, valid_utf8};
use crate::framing::{
    byte_views, decode_line, encode_line, lemma_line_round_trip, lines_of, rest_of, LineBuffer,
    NEWLINE,
};
use crate::actions::string_views;
use crate::session::{accept_line, accept_lines, first_colon_at, split_author};

verus! {

/// The outcome of one bounded wait for bytes from the client.
pub enum ReadEvent {
    /// Some bytes arrived.
    Data(Vec<u8>),
    /// Nothing arrived before the wait ran out.
    NoData,
    /// The client closed its side.
    EndOfStream,
    /// The socket failed.
    Failed,
}

/// A connection as the bytes of a partial line and whether it is still open.
pub struct ConnectionView {
    pub pending: Seq<u8>,
    pub active: bool,
}

/// The texts of the lines that are valid UTF-8, in order; others are dropped.
pub open spec fn messages_of(lines: Seq<Seq<u8>>) -> Seq<Seq<char>>
    decreases lines.len(),
{
    if lines.len() == 0 {
        Seq::empty()
    } else if valid_utf8(lines.last()) {
        messages_of(lines.drop_last()).push(decode_utf8(lines.last()))
    } else {
        messages_of(lines.drop_last())
    }
}

/// A connection after a read, and the messages to hand to every responder.
pub open spec fn read_spec(c: ConnectionView, ev: ReadEvent) -> (ConnectionView, Seq<Seq<char>>) {
    if !c.active {
        (c, Seq::empty())
    } else {
        match ev {
            ReadEvent::Data(b) => (
                ConnectionView { pending: rest_of(c.pending + b@), active: true },
                messages_of(lines_of(c.pending + b@)),
            ),
            ReadEvent::NoData => (c, Seq::empty()),
            _ => (ConnectionView { active: false, ..c }, Seq::empty()),
        }
    }
}

/// The state of one client's connection on the server.
pub struct Connection {
    framer: LineBuffer,
    active: bool,
}

impl View for Connection {
    type V = ConnectionView;

    closed spec fn view(&self) -> ConnectionView {
        ConnectionView { pending: self.framer@, active: self.active }
    }
}

impl Connection {
    pub closed spec fn wf(&self) -> bool {
        self.framer.wf()
    }

    pub fn new() -> (r: Connection)
        ensures
            r.wf(),
            r@ == (ConnectionView { pending: Seq::empty(), active: true }),
    {
        Connection { framer: LineBuffer::new(), active: true }
    }

    /// Whether the loop is to go on.
    pub fn is_active(&self) -> (r: bool)
        ensures
            r == self@.active,
    {
        self.active
    }

    /// Takes in the outcome of a read and returns the messages that are to be
    /// sent to every responder; the end of the stream or a failed read closes
    /// the connection.
    pub fn on_read(&mut self, ev: ReadEvent) -> (r: Vec<String>)
        requires
            old(self).wf(),
        ensures
            final(self).wf(),
            (final(self)@, string_views(r@)) == read_spec(old(self)@, ev),
    {
        let mut out: Vec<String> = Vec::new();
        if !self.active {
            assert(string_views(out@) =~= Seq::<Seq<char>>::empty());
            return out;
        }
        match ev {
            ReadEvent::Data(bytes) => {
                let lines = self.framer.receive(bytes.as_slice());
                let mut i: usize = 0;
                while i < lines.len()
                    invariant
                        0 <= i <= lines@.len(),
                        string_views(out@) == messages_of(byte_views(lines@).subrange(0, i as int)),
                    decreases lines@.len() - i,
                {
                    let line = lines[i].clone();
                    assert(line@ == byte_views(lines@)[i as int]);
                    assert(byte_views(lines@).subrange(0, i as int + 1).drop_last()
                        =~= byte_views(lines@).subrange(0, i as int));
                    match decode_line(line) {
                        None => {},
                        Some(text) => {
                            let ghost before = out@;
                            out.push(text);
                            assert(string_views(out@) =~= string_views(before).push(out@.last()@));
                        },
                    }
                    i = i + 1;
                }
                assert(byte_views(lines@).subrange(0, lines@.len() as int) =~= byte_views(lines@));
            },
            ReadEvent::NoData => {},
            ReadEvent::EndOfStream => {
                self.active = false;
            },
            ReadEvent::Failed => {
                self.active = false;
            },
        }
        out
    }

    /// The bytes that carry a responder's reply to the client, while the
    /// connection is open.
    pub fn forward_reply(&self, reply: &str) -> (r: Option<Vec<u8>>)
        ensures
            r is Some <==> self@.active,
            r matches Some(b) ==> b@ == encode_utf8(reply@).push(NEWLINE),
    {
        if self.active {
            Some(encode_line(reply))
        } else {
            None
        }
    }

    /// Takes in whether a write to the client went through; a failed write
    /// closes the connection.
    pub fn on_write(&mut self, ok: bool)
        ensures
            final(self)@ == (ConnectionView { active: old(self)@.active && ok, ..old(self)@ }),
            final(self).wf() == old(self).wf(),
    {
        if !ok {
            self.active = false;
        }
    }

    /// A responder's channel is gone: the connection ends.
    pub fn on_responder_gone(&mut self)
        ensures
            final(self)@ == (ConnectionView { active: false, ..old(self)@ }),
            final(self).wf() == old(self).wf(),
    {
        self.active = false;
    }
}

/// A line of text without a line break that a client submits reaches the
/// server as exactly that text; sent back under an author name without `:`,
/// the client logs it with that author and the same text.
pub proof fn lemma_message_round_trip(
    t: Seq<char>,
    name: Seq<char>,
    log: Seq<(Seq<char>, Seq<char>, Seq<char>)>,
    authors: Seq<Seq<char>>,
    time: Seq<char>,
)
    requires
        !t.contains('\n'),
        !name.contains('\n'),
        !name.contains(':'),
    ensures
        messages_of(lines_of(encode_utf8(t).push(NEWLINE))) == seq![t],
        rest_of(encode_utf8(t).push(NEWLINE)) == Seq::<u8>::empty(),
        accept_lines((log, authors), lines_of(encode_utf8(name + seq![':'] + t).push(NEWLINE)), time).0
            == log.push((name, time, t)),
{
    lemma_line_round_trip(t);
    let e = encode_utf8(t);
    assert(seq![e].drop_last() =~= Seq::<Seq<u8>>::empty());
    assert(seq![e].last() == e);
    assert(messages_of(seq![e]) == messages_of(Seq::<Seq<u8>>::empty()).push(t));
    assert(messages_of(seq![e]) =~= seq![t]);
    let echoed = name + seq![':'] + t;
    assert(!echoed.contains('\n')) by {
        assert forall|k: int| 0 <= k < echoed.len() implies echoed[k] != '\n' by {
            if k < name.len() {
                assert(echoed[k] == name[k]);
            } else if k > name.len() {
                assert(echoed[k] == t[k - name.len() - 1]);
            }
        }
    }
    lemma_line_round_trip(echoed);
    let f = encode_utf8(echoed);
    assert(seq![f].drop_last() =~= Seq::<Seq<u8>>::empty());
    let i = name.len() as int;
    assert(first_colon_at(echoed, i)) by {
        assert forall|k: int| 0 <= k < i implies echoed[k] != ':' by {
            assert(echoed[k] == name[k]);
        }
    }
    let j = choose|j: int| first_colon_at(echoed, j);
    if j < i {
        assert(echoed[j] == name[j]);
    } else if j > i {
        assert(echoed[i] != ':');
    }
    assert(echoed.subrange(0, i) =~= name);
    assert(echoed.subrange(i + 1, echoed.len() as int) =~= t);
    assert(split_author(echoed) == Some((name, t)));
    assert(seq![f].last() == f);
    assert(accept_lines((log, authors), seq![f], time) == accept_line(
        accept_lines((log, authors), Seq::<Seq<u8>>::empty(), time),
        f,
        time,
    ));
}

/// A fatal read closes only the connection that it happened on: any other
/// open connection at a line boundary still relays a line of text.
pub proof fn lemma_connection_isolation(
    a: ConnectionView,
    b: ConnectionView,
    bytes: Vec<u8>,
    t: Seq<char>,
)
    requires
        b.active,
        b.pending.len() == 0,
        !t.contains('\n'),
        bytes@ == encode_utf8(t).push(NEWLINE),
    ensures
        !read_spec(a, ReadEvent::Failed).0.active,
        read_spec(b, ReadEvent::Data(bytes)).0.active,
        read_spec(b, ReadEvent::Data(bytes)).1 == seq![t],
{
    lemma_line_round_trip(t);
    assert(b.pending + bytes@ =~= bytes@);
    let e = encode_utf8(t);
    assert(seq![e].drop_last() =~= Seq::<Seq<u8>>::empty());
    assert(seq![e].last() == e);
    assert(messages_of(seq![e]) == messages_of(Seq::<Seq<u8>>::empty()).push(t));
    assert(messages_of(seq![e]) =~= seq![t]);
}

} // verus!
