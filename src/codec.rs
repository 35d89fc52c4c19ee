//! The stream decoder: accumulates received bytes and hands out complete frames.
use vstd::prelude::*;
use crate::lex::{append, copy_range, lit_at, starts_with_at};
use crate::parser::{
    Errors, FreeswitchReply, ReplyView, blank_line, awaits_body, declared_body_pending,
    lemma_frame_literals, parse_any_freeswitch_event, spec_any_frame,
    api_response_frame, api_response_reply, lemma_api_response_round_trip,
};

verus! {

/// Bytes received but not yet decoded.
#[derive(Debug, Clone)]
pub struct EslCodec {
    buffer: Vec<u8>,
}

impl View for EslCodec {
    type V = Seq<u8>;

    closed spec fn view(&self) -> Seq<u8> {
        self.buffer@
    }
}

/// The outcome of one decoding step.
pub enum Decoded {
    /// A complete frame.
    Frame(ReplyView),
    /// More bytes are needed: the header block is not complete, or its declared body is not.
    Incomplete,
    /// The header block is complete but is no frame of a recognised shape.
    Unrecognized,
}

/// Whether `b` holds a blank line, which ends every header block.
pub open spec fn has_blank_line(b: Seq<u8>) -> bool {
    exists|i: int| lit_at(b, i, blank_line())
}

/// What one decoding step does to the buffered bytes `b`: its outcome, and the bytes left after
/// it.
pub open spec fn spec_decode(b: Seq<u8>) -> (Decoded, Seq<u8>) {
    match spec_any_frame(b) {
        Some((f, n)) => (Decoded::Frame(f), b.subrange(n, b.len() as int)),
        None => if !has_blank_line(b) || awaits_body(b) {
            (Decoded::Incomplete, b)
        } else {
            (Decoded::Unrecognized, b)
        },
    }
}

/// Whether `s` holds a blank line.
fn find_blank_line(s: &[u8]) -> (r: bool)
    ensures
        r == has_blank_line(s@),
{
    let bl = "\n\n".as_bytes();
    proof {
        lemma_frame_literals();
    }
    let mut i: usize = 0;
    while i < s.len()
        invariant
            i <= s@.len(),
            bl@ == blank_line(),
            forall|j: int| 0 <= j < i ==> !lit_at(s@, j, blank_line()),
        decreases s@.len() - i,
    {
        if starts_with_at(s, i, bl) {
            return true;
        }
        i += 1;
    }
    assert forall|j: int| !lit_at(s@, j, blank_line()) by {
        if j >= i {
            assert(blank_line().len() == 2);
        }
    }
    false
}

impl EslCodec {
    pub fn new() -> (r: EslCodec)
        ensures
            r@ == Seq::<u8>::empty(),
    {
        EslCodec { buffer: Vec::new() }
    }

    /// How many bytes wait to be decoded.
    pub fn len(&self) -> (r: usize)
        ensures
            r == self@.len(),
    {
        self.buffer.len()
    }

    /// Appends received bytes.
    pub fn extend(&mut self, bytes: &[u8])
        ensures
            final(self)@ == old(self)@ + bytes@,
    {
        append(&mut self.buffer, bytes);
    }

    /// Decodes the frame at the front of the buffer and removes exactly its bytes. Leaves the
    /// buffer as it is when more bytes are needed (`Ok(None)`), and when the bytes there are no
    /// frame (`Err`).
    pub fn decode(&mut self) -> (r: Result<Option<FreeswitchReply>, Errors>)
        ensures
            match r {
                Ok(Some(f)) => f.wf() && spec_decode(old(self)@) == (
                    Decoded::Frame(f@),
                    final(self)@,
                ),
                Ok(None) => spec_decode(old(self)@) == (Decoded::Incomplete, final(self)@),
                Err(_) => spec_decode(old(self)@) == (Decoded::Unrecognized, final(self)@),
            },
    {
        match parse_any_freeswitch_event(self.buffer.as_slice()) {
            Ok((frame, n)) => {
                let rest = copy_range(self.buffer.as_slice(), n, self.buffer.len());
                self.buffer = rest;
                Ok(Some(frame))
            },
            Err(_) => {
                if !find_blank_line(self.buffer.as_slice()) || declared_body_pending(
                    self.buffer.as_slice(),
                ) {
                    Ok(None)
                } else {
                    Err(Errors::Unrecognized)
                }
            },
        }
    }

    /// Frames an outgoing command: the command, then the blank line that ends it.
    pub fn encode(item: &[u8], dst: &mut Vec<u8>)
        ensures
            final(dst)@ == old(dst)@ + item@ + blank_line(),
    {
        append(dst, item);
        append(dst, "\n\n".as_bytes());
    }
}

} // verus!

verus! {

/// Two `api/response` frames that arrive in one read come out as two replies, in order, each
/// taking exactly its own bytes, and nothing is left over.
pub proof fn lemma_back_to_back_frames(b1: Seq<u8>, b2: Seq<u8>)
    requires
        b1.len() <= u32::MAX,
        b2.len() <= u32::MAX,
    ensures
        spec_decode(api_response_frame(b1) + api_response_frame(b2)) == (
            Decoded::Frame(api_response_reply(b1)),
            api_response_frame(b2),
        ),
        spec_decode(api_response_frame(b2)) == (
            Decoded::Frame(api_response_reply(b2)),
            Seq::<u8>::empty(),
        ),
{
    let f1 = api_response_frame(b1);
    let f2 = api_response_frame(b2);
    lemma_api_response_round_trip(b1, f2);
    lemma_api_response_round_trip(b2, Seq::empty());
    assert(f2 + Seq::<u8>::empty() =~= f2);
    assert((f1 + f2).subrange(f1.len() as int, (f1 + f2).len() as int) =~= f2);
    assert(f2.subrange(f2.len() as int, f2.len() as int) =~= Seq::<u8>::empty());
}

} // verus!
