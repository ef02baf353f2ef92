//! Framing of a byte stream into newline-terminated lines, and back.

use vstd::prelude::*;
use vstd::utf8::{decode_utf8, encode_scalar, encode_utf8, has_width_1_encoding, valid_utf8};

verus! {

/// The byte that ends every line on the wire.
pub const NEWLINE: u8 = 10;

/// The complete lines in `s`, without their terminators, in order of arrival.
pub open spec fn lines_of(s: Seq<u8>) -> Seq<Seq<u8>>
    decreases s.len(),
{
    if s.len() == 0 {
        Seq::empty()
    } else if s.last() == NEWLINE {
        lines_of(s.drop_last()).push(rest_of(s.drop_last()))
    } else {
        lines_of(s.drop_last())
    }
}

/// The bytes after the last terminator of `s`: a line not yet complete.
pub open spec fn rest_of(s: Seq<u8>) -> Seq<u8>
    decreases s.len(),
{
    if s.len() == 0 {
        Seq::empty()
    } else if s.last() == NEWLINE {
        Seq::empty()
    } else {
        rest_of(s.drop_last()).push(s.last())
    }
}

/// The contents of each of a sequence of byte vectors.
pub open spec fn byte_views(v: Seq<Vec<u8>>) -> Seq<Seq<u8>> {
    v.map_values(|b: Vec<u8>| b@)
}

/// Bytes received on a stream and not yet handed out as a line.
pub struct LineBuffer {
    pending: Vec<u8>,
}

impl View for LineBuffer {
    type V = Seq<u8>;

    closed spec fn view(&self) -> Seq<u8> {
        self.pending@
    }
}

impl LineBuffer {
    pub open spec fn wf(&self) -> bool {
        !self@.contains(NEWLINE)
    }

    pub fn new() -> (r: LineBuffer)
        ensures
            r@ == Seq::<u8>::empty(),
            r.wf(),
    {
        LineBuffer { pending: Vec::new() }
    }

    /// Takes in the bytes of one read and returns every line that they
    /// complete; a partial line stays buffered for the next read.
    pub fn receive(&mut self, chunk: &[u8]) -> (lines: Vec<Vec<u8>>)
        requires
            old(self).wf(),
        ensures
            final(self).wf(),
            byte_views(lines@) == lines_of(old(self)@ + chunk@),
            final(self)@ == rest_of(old(self)@ + chunk@),
    {
        let ghost start = self.pending@;
        proof {
            lemma_rest_of_pending(start);
            assert(start + chunk@.subrange(0, 0) =~= start);
        }
        let mut lines: Vec<Vec<u8>> = Vec::new();
        let mut i: usize = 0;
        while i < chunk.len()
            invariant
                0 <= i <= chunk@.len(),
                start.len() == old(self)@.len(),
                start == old(self)@,
                byte_views(lines@) == lines_of(start + chunk@.subrange(0, i as int)),
                self.pending@ == rest_of(start + chunk@.subrange(0, i as int)),
            decreases chunk@.len() - i,
        {
            let b = chunk[i];
            let ghost before = start + chunk@.subrange(0, i as int);
            let ghost after = start + chunk@.subrange(0, i as int + 1);
            assert(after.drop_last() =~= before);
            if b == NEWLINE {
                let line = self.pending.clone();
                assert(line@ =~= self.pending@);
                self.pending = Vec::new();
                let ghost prev = lines@;
                lines.push(line);
                assert forall|k: int| 0 <= k < prev.len() implies lines@[k] == prev[k] by {}
                assert(byte_views(lines@) =~= lines_of(before).push(rest_of(before)));
            } else {
                self.pending.push(b);
            }
            i = i + 1;
        }
        assert(chunk@.subrange(0, chunk@.len() as int) =~= chunk@);
        proof {
            lemma_rest_of_has_no_newline(start + chunk@);
        }
        lines
    }
}

proof fn lemma_rest_of_has_no_newline(s: Seq<u8>)
    ensures
        !rest_of(s).contains(NEWLINE),
    decreases s.len(),
{
    if s.len() > 0 && s.last() != NEWLINE {
        lemma_rest_of_has_no_newline(s.drop_last());
        assert forall|k: int| 0 <= k < rest_of(s).len() implies rest_of(s)[k] != NEWLINE by {
            if k < rest_of(s.drop_last()).len() {
                assert(rest_of(s)[k] == rest_of(s.drop_last())[k]);
            }
        }
    }
}

proof fn lemma_rest_of_pending(s: Seq<u8>)
    requires
        !s.contains(NEWLINE),
    ensures
        rest_of(s) == s,
        lines_of(s) == Seq::<Seq<u8>>::empty(),
    decreases s.len(),
{
    if s.len() > 0 {
        assert(s.drop_last().len() < s.len());
        assert forall|k: int| 0 <= k < s.drop_last().len() implies s.drop_last()[k] != NEWLINE by {
            assert(s[k] == s.drop_last()[k]);
        }
        lemma_rest_of_pending(s.drop_last());
        assert(s[s.len() - 1] != NEWLINE);
        assert(s.drop_last().push(s.last()) =~= s);
    }
}

/// Encodes one line for the wire: the UTF-8 bytes of `text`, then the terminator.
pub fn encode_line(text: &str) -> (r: Vec<u8>)
    ensures
        r@ == encode_utf8(text@).push(NEWLINE),
{
    let bytes = text.as_bytes();
    let mut r: Vec<u8> = Vec::new();
    let mut i: usize = 0;
    while i < bytes.len()
        invariant
            0 <= i <= bytes@.len(),
            bytes@ == encode_utf8(text@),
            r@ == bytes@.subrange(0, i as int),
        decreases bytes@.len() - i,
    {
        r.push(bytes[i]);
        i = i + 1;
        assert(r@ =~= bytes@.subrange(0, i as int));
    }
    assert(bytes@.subrange(0, bytes@.len() as int) =~= bytes@);
    r.push(NEWLINE);
    r
}

/// Relies on String::from_utf8: it succeeds exactly on valid UTF-8, and then
/// holds the characters that the bytes encode.
#[verifier::external_body]
fn utf8_to_string(bytes: Vec<u8>) -> (r: Option<String>)
    ensures
        r is Some <==> valid_utf8(bytes@),
        r is Some ==> r->0@ == decode_utf8(bytes@),
{
    String::from_utf8(bytes).ok()
}

/// The text of a line received from the wire; `None` where its bytes are not
/// valid UTF-8.
pub fn decode_line(line: Vec<u8>) -> (r: Option<String>)
    ensures
        r is Some <==> valid_utf8(line@),
        r is Some ==> r->0@ == decode_utf8(line@),
{
    utf8_to_string(line)
}

/// Framing does not depend on how the stream was cut into reads: taking in
/// `a` and then `b` yields the same lines, and leaves the same partial line
/// buffered, as taking in `a + b` at once.
pub proof fn lemma_framing_split(a: Seq<u8>, b: Seq<u8>)
    ensures
        lines_of(a + b) == lines_of(a) + lines_of(rest_of(a) + b),
        rest_of(a + b) == rest_of(rest_of(a) + b),
    decreases b.len(),
{
    if b.len() == 0 {
        lemma_rest_of_has_no_newline(a);
        lemma_rest_of_pending(rest_of(a));
        assert(a + b =~= a);
        assert(rest_of(a) + b =~= rest_of(a));
        assert(lines_of(a) + Seq::<Seq<u8>>::empty() =~= lines_of(a));
    } else {
        let b0 = b.drop_last();
        lemma_framing_split(a, b0);
        assert((a + b).drop_last() =~= a + b0);
        assert((rest_of(a) + b).drop_last() =~= rest_of(a) + b0);
        assert((a + b).last() == b.last());
        assert((rest_of(a) + b).last() == b.last());
        if b.last() == NEWLINE {
            assert(lines_of(a + b) =~= lines_of(a) + lines_of(rest_of(a) + b));
        }
    }
}

proof fn lemma_scalar_not_newline(c: char)
    requires
        c != '\n',
    ensures
        !encode_scalar(c as u32).contains(NEWLINE),
{
    let u = c as u32;
    broadcast use vstd::utf8::char_is_scalar;
    if has_width_1_encoding(u) {
        assert((u & 0x7F) == u) by (bit_vector)
            requires
                u <= 0x7F,
        ;
        if u == 10 {
            vstd::utf8::char_u32_cast(c, u);
            assert(c == (10u32 as char));
        }
        assert(encode_scalar(u)[0] != NEWLINE);
    } else {
        assert((0xC0u8 | ((u >> 6) & 0x1F) as u8) != 10u8) by (bit_vector);
        assert((0xE0u8 | ((u >> 12) & 0x0F) as u8) != 10u8) by (bit_vector);
        assert((0xF0u8 | ((u >> 18) & 0x7) as u8) != 10u8) by (bit_vector);
        assert((0x80u8 | (u & 0x3F) as u8) != 10u8) by (bit_vector);
        assert((0x80u8 | ((u >> 6) & 0x3F) as u8) != 10u8) by (bit_vector);
        assert((0x80u8 | ((u >> 12) & 0x3F) as u8) != 10u8) by (bit_vector);
    }
}

proof fn lemma_encoding_has_no_newline(t: Seq<char>)
    requires
        !t.contains('\n'),
    ensures
        !encode_utf8(t).contains(NEWLINE),
    decreases t.len(),
{
    if t.len() > 0 {
        assert(t[0] != '\n');
        lemma_scalar_not_newline(t[0]);
        assert(!t.drop_first().contains('\n')) by {
            assert forall|k: int| 0 <= k < t.drop_first().len() implies t.drop_first()[k] != '\n' by {
                assert(t.drop_first()[k] == t[k + 1]);
            }
        }
        lemma_encoding_has_no_newline(t.drop_first());
        let e0 = encode_scalar(t[0] as u32);
        let e1 = encode_utf8(t.drop_first());
        assert forall|k: int| 0 <= k < (e0 + e1).len() implies (e0 + e1)[k] != NEWLINE by {
            if k < e0.len() {
                assert((e0 + e1)[k] == e0[k]);
            } else {
                assert((e0 + e1)[k] == e1[k - e0.len()]);
            }
        }
    }
}

/// A line of text without a line break, encoded and then framed, is received
/// as exactly one line, which decodes to the same text.
pub proof fn lemma_line_round_trip(t: Seq<char>)
    requires
        !t.contains('\n'),
    ensures
        lines_of(encode_utf8(t).push(NEWLINE)) == seq![encode_utf8(t)],
        rest_of(encode_utf8(t).push(NEWLINE)) == Seq::<u8>::empty(),
        valid_utf8(encode_utf8(t)),
        decode_utf8(encode_utf8(t)) == t,
{
    let e = encode_utf8(t);
    lemma_encoding_has_no_newline(t);
    lemma_rest_of_pending(e);
    assert(e.push(NEWLINE).drop_last() =~= e);
    assert(lines_of(e.push(NEWLINE)) =~= seq![e]);
    vstd::utf8::encode_utf8_valid_utf8(t);
    vstd::utf8::encode_utf8_decode_utf8(t);
}

} // verus!
