//! Length-prefixed framing over a stream socket.
//!
//! A frame is a two-byte big-endian length followed by that many payload
//! bytes.  The reader buffers whatever the socket delivered — a partial
//! length prefix or a partial payload is kept, never mistaken for "no
//! message" — and hands out one complete frame at a time.

use crate::message::{
    decode_message, encode_message, lemma_encode_valid, msg_wf, spec_encode_message, ClientMessage,
};
use vstd::prelude::*;

verus! {

/// A frame: the payload's length as two big-endian bytes, then the payload.
pub open spec fn spec_frame(payload: Seq<u8>) -> Seq<u8>
    recommends
        payload.len() <= 65535,
{
    seq![(payload.len() as int / 256) as u8, (payload.len() as int % 256) as u8] + payload
}

/// The payload length a buffered prefix announces.
pub open spec fn spec_frame_len(b: Seq<u8>) -> int
    recommends
        b.len() >= 2,
{
    (b[0] as int) * 256 + (b[1] as int)
}

/// One complete frame taken off the front of the buffer: the payload and
/// the remaining bytes; `None` while bytes are still missing.
pub open spec fn spec_take_frame(b: Seq<u8>) -> Option<(Seq<u8>, Seq<u8>)> {
    if b.len() >= 2 && b.len() >= 2 + spec_frame_len(b) {
        Some((b.subrange(2, 2 + spec_frame_len(b)), b.skip(2 + spec_frame_len(b))))
    } else {
        None
    }
}

/// Framing inverts: a framed payload followed by any further bytes parses
/// back to exactly that payload and those bytes.
pub proof fn lemma_take_frame_of_framed(payload: Seq<u8>, rest: Seq<u8>)
    requires
        payload.len() <= 65535,
    ensures
        spec_take_frame(spec_frame(payload) + rest) == Some((payload, rest)),
{
    let b = spec_frame(payload) + rest;
    assert(b[0] == (payload.len() as int / 256) as u8);
    assert(b[1] == (payload.len() as int % 256) as u8);
    assert(spec_frame_len(b) == payload.len());
    assert(b.subrange(2, 2 + spec_frame_len(b)) =~= payload);
    assert(b.skip(2 + spec_frame_len(b)) =~= rest);
}

/// A frame split across reads is harmless: however a framed payload is cut
/// in two, a buffer holding both pieces in order parses to that payload.
/// In particular a two-byte length prefix may arrive one byte at a time.
pub proof fn lemma_frame_reassembly(payload: Seq<u8>, k: int)
    requires
        payload.len() <= 65535,
        0 <= k <= spec_frame(payload).len(),
    ensures
        spec_take_frame(spec_frame(payload).take(k) + spec_frame(payload).skip(k)) == Some(
            (payload, Seq::<u8>::empty()),
        ),
{
    assert(spec_frame(payload).take(k) + spec_frame(payload).skip(k) =~= spec_frame(payload)
        + Seq::<u8>::empty());
    lemma_take_frame_of_framed(payload, Seq::<u8>::empty());
}

/// Whether a frame payload is the encoding of some well-formed message.
pub open spec fn frame_decodable(p: Seq<u8>) -> bool {
    exists|m: ClientMessage| msg_wf(m) && spec_encode_message(m) == p
}

/// All complete frames drained off the front of the buffer: the payloads of
/// the decodable frames in order, and the leftover bytes.  An undecodable
/// frame is dropped, never the connection.
pub open spec fn spec_drain(b: Seq<u8>) -> (Seq<Seq<u8>>, Seq<u8>)
    decreases b.len(),
{
    match spec_take_frame(b) {
        None => (Seq::empty(), b),
        Some((p, rest)) => {
            let tail = spec_drain(rest);
            ((if frame_decodable(p) {
                seq![p]
            } else {
                Seq::empty()
            }) + tail.0, tail.1)
        },
    }
}

/// The receive side of the message channel.  Bytes read off the socket are
/// pushed in as they arrive; complete frames come out one at a time, and a
/// partial frame stays buffered for the next poll.
pub struct SyncChannel {
    buffer: Vec<u8>,
}

impl View for SyncChannel {
    type V = Seq<u8>;

    closed spec fn view(&self) -> Seq<u8> {
        self.buffer@
    }
}

impl SyncChannel {
    /// An empty channel buffer.
    pub fn new() -> (r: Self)
        ensures
            r@ == Seq::<u8>::empty(),
    {
        SyncChannel { buffer: Vec::new() }
    }

    /// Feed bytes read from the stream into the buffer, however few the
    /// read delivered.
    pub fn push_bytes(&mut self, data: &[u8])
        ensures
            final(self)@ == old(self)@ + data@,
    {
        let mut i: usize = 0;
        while i < data.len()
            invariant
                i <= data@.len(),
                self.buffer@ == old(self)@ + data@.take(i as int),
            decreases data@.len() - i,
        {
            let ghost prev = self.buffer@;
            self.buffer.push(data[i]);
            proof {
                assert(data@.take(i as int + 1) =~= data@.take(i as int).push(data@[i as int]));
                assert(self.buffer@ =~= old(self)@ + data@.take(i as int + 1));
            }
            i += 1;
        }
        proof {
            assert(data@.take(data@.len() as int) =~= data@);
        }
    }

    /// Pop one complete frame's payload; `None` (buffer untouched) while
    /// the length prefix or the payload is still incomplete.
    pub fn next_frame(&mut self) -> (r: Option<Vec<u8>>)
        ensures
            match spec_take_frame(old(self)@) {
                Some(pr) => r matches Some(p) && p@ == pr.0 && final(self)@ == pr.1,
                None => r is None && final(self)@ == old(self)@,
            },
    {
        if self.buffer.len() < 2 {
            return None;
        }
        let len = (self.buffer[0] as usize) * 256 + (self.buffer[1] as usize);
        proof {
            assert(len == spec_frame_len(old(self)@));
        }
        if self.buffer.len() < 2 + len {
            return None;
        }
        let mut payload: Vec<u8> = Vec::new();
        let mut i: usize = 2;
        while i < 2 + len
            invariant
                2 <= i <= 2 + len,
                2 + len <= self.buffer@.len(),
                *self == *old(self),
                len == spec_frame_len(old(self)@),
                payload@ == old(self)@.subrange(2, i as int),
            decreases 2 + len - i,
        {
            let ghost prev = payload@;
            payload.push(self.buffer[i]);
            proof {
                assert(payload@ =~= old(self)@.subrange(2, i as int + 1));
            }
            i += 1;
        }
        let mut rest: Vec<u8> = Vec::new();
        let mut j: usize = 2 + len;
        while j < self.buffer.len()
            invariant
                2 + len <= j <= self.buffer@.len(),
                *self == *old(self),
                len == spec_frame_len(old(self)@),
                rest@ == old(self)@.subrange(2 + len, j as int),
            decreases self.buffer@.len() - j,
        {
            let b = self.buffer[j];
            rest.push(b);
            proof {
                assert(rest@ =~= old(self)@.subrange(2 + len, j as int + 1));
            }
            j += 1;
        }
        self.buffer = rest;
        proof {
            assert(payload@ == old(self)@.subrange(2, 2 + spec_frame_len(old(self)@)));
            assert(self@ =~= old(self)@.skip(2 + spec_frame_len(old(self)@)));
        }
        Some(payload)
    }

    /// Pop one frame and decode it.  `None`: no complete frame yet, retry
    /// after the next read.  `Some(None)`: a complete frame arrived but
    /// decodes to no message; the caller drops it and goes on.
    /// `Some(Some(m))`: one decoded message.
    pub fn next_message(&mut self) -> (r: Option<Option<ClientMessage>>)
        ensures
            match spec_take_frame(old(self)@) {
                Some(pr) => (r matches Some(d) && (match d {
                    Some(m) => msg_wf(m) && spec_encode_message(m) == pr.0,
                    None => forall|m: ClientMessage|
                        msg_wf(m) ==> spec_encode_message(m) != pr.0,
                })) && final(self)@ == pr.1,
                None => r is None && final(self)@ == old(self)@,
            },
    {
        match self.next_frame() {
            Some(p) => Some(decode_message(&p)),
            None => None,
        }
    }

    /// Decode every complete frame currently buffered, one message per
    /// frame, in arrival order.  Frames that decode to no message are
    /// dropped; a partial frame at the end stays buffered for the next poll.
    pub fn drain_messages(&mut self) -> (r: Vec<ClientMessage>)
        ensures
            final(self)@ == spec_drain(old(self)@).1,
            r@.len() == spec_drain(old(self)@).0.len(),
            forall|i: int|
                0 <= i < r@.len() ==> msg_wf(#[trigger] r@[i]) && spec_encode_message(r@[i])
                    == spec_drain(old(self)@).0[i],
    {
        let ghost all = spec_drain(old(self)@).0;
        let mut out: Vec<ClientMessage> = Vec::new();
        loop
            invariant
                out@.len() + spec_drain(self@).0.len() == all.len(),
                forall|j: int|
                    0 <= j < spec_drain(self@).0.len() ==> #[trigger] spec_drain(self@).0[j]
                        == all[out@.len() + j],
                spec_drain(self@).1 == spec_drain(old(self)@).1,
                forall|i: int|
                    0 <= i < out@.len() ==> msg_wf(#[trigger] out@[i]) && spec_encode_message(
                        out@[i],
                    ) == all[i],
            ensures
                spec_take_frame(self@) is None,
                out@.len() == all.len(),
                forall|i: int|
                    0 <= i < out@.len() ==> msg_wf(#[trigger] out@[i]) && spec_encode_message(
                        out@[i],
                    ) == all[i],
                spec_drain(self@).1 == spec_drain(old(self)@).1,
            decreases self@.len(),
        {
            let ghost pre = self@;
            let ghost drained = spec_drain(pre);
            match self.next_message() {
                None => {
                    break ;
                },
                Some(d) => {
                    let ghost pr = spec_take_frame(pre).unwrap();
                    proof {
                        assert(self@ == pr.1);
                        assert(self@.len() < pre.len());
                        assert(drained.0 == (if frame_decodable(pr.0) {
                            seq![pr.0]
                        } else {
                            Seq::<Seq<u8>>::empty()
                        }) + spec_drain(pr.1).0);
                        assert(drained.1 == spec_drain(pr.1).1);
                    }
                    match d {
                        Some(m) => {
                            proof {
                                assert(frame_decodable(pr.0)) by {
                                    assert(msg_wf(m) && spec_encode_message(m) == pr.0);
                                }
                                assert(drained.0[0] == pr.0);
                                assert forall|j: int|
                                    0 <= j < spec_drain(self@).0.len()
                                        implies #[trigger] spec_drain(self@).0[j] == all[out@.len()
                                    + 1 + j] by {
                                    assert(drained.0[1 + j] == spec_drain(pr.1).0[j]);
                                }
                            }
                            out.push(m);
                        },
                        None => {
                            proof {
                                assert(!frame_decodable(pr.0)) by {
                                    if frame_decodable(pr.0) {
                                        let m0 = choose|m0: ClientMessage|
                                            msg_wf(m0) && spec_encode_message(m0) == pr.0;
                                        assert(spec_encode_message(m0) != pr.0);
                                    }
                                }
                                assert(spec_drain(self@).0 =~= drained.0);
                            }
                        },
                    }
                },
            }
        }
        proof {
            assert(spec_drain(self@).0 =~= Seq::<Seq<u8>>::empty());
            assert(spec_drain(self@).1 == self@);
        }
        out
    }
}

/// Frame a message for the wire: the two-byte big-endian length prefix and
/// the tagged payload.
pub fn serialize_message(m: &ClientMessage) -> (r: Vec<u8>)
    requires
        msg_wf(*m),
    ensures
        r@ == spec_frame(spec_encode_message(*m)),
{
    proof {
        lemma_encode_valid(*m);
    }
    let mut payload = encode_message(m);
    let len = payload.len();
    let mut v: Vec<u8> = Vec::new();
    v.push((len / 256) as u8);
    v.push((len % 256) as u8);
    v.append(&mut payload);
    proof {
        assert(v@ =~= spec_frame(spec_encode_message(*m)));
    }
    v
}

} // verus!
