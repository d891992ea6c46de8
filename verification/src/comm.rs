//! The receiving end of the serial link: bytes from the wire go into a ring,
//! are gathered into one frame at a time, and each finished frame is decoded
//! and answered with one byte.

use crate::comm_messages::{decoded, is_frame, try_decode_message, UplinkMsg, MAX_UPLINK_MSG_SIZE};
use crate::util::{
    after_write, is_stop, lemma_stop_len_at_least, lemma_stop_len_bound, lemma_stop_len_is,
    read_count, RingBuffer,
};
use vstd::prelude::*;
use vstd::slice::slice_subrange;

verus! {

/// Slots of the receive ring.
pub const RX_RING_SIZE: usize = 512;

/// Reply to a frame that decoded.
pub const ACK: u8 = 1;

/// Reply to a frame that did not.
pub const NACK: u8 = 0;

pub struct CommState {
    rx_buffer: RingBuffer<u8, RX_RING_SIZE>,
    msg_buffer: [u8; MAX_UPLINK_MSG_SIZE],
    msg_buffer_ptr: usize,
}

/// What the link holds: the bytes received and not yet looked at, and the
/// part of a frame gathered so far.
pub struct CommView {
    pub rx: Seq<u8>,
    pub partial: Seq<u8>,
}

/// What one look at the link gives: the command of a finished frame, and
/// the byte to send back where a frame was finished or given up.
#[derive(Clone, Copy, Debug, PartialEq, Eq)]
pub struct Received {
    pub msg: Option<UplinkMsg>,
    pub reply: Option<u8>,
}

impl CommView {
    /// How many received bytes the next look takes: up to the first
    /// terminator, and no more than the frame buffer has room for.
    pub open spec fn taken(self) -> nat {
        read_count(self.rx, (MAX_UPLINK_MSG_SIZE - self.partial.len()) as nat, Some(0u8))
    }

    /// The frame buffer after those bytes have joined it.
    pub open spec fn gathered(self) -> Seq<u8> {
        self.partial + self.rx.take(self.taken() as int)
    }

    /// The gathered bytes end in a terminator.
    pub open spec fn complete(self) -> bool {
        self.gathered().len() > 0 && self.gathered().last() == 0
    }

    /// The frame buffer is full and no terminator has come.
    pub open spec fn overlong(self) -> bool {
        !self.complete() && self.gathered().len() == MAX_UPLINK_MSG_SIZE
    }

    /// The result of the look.
    pub open spec fn received(self) -> Received {
        if self.complete() {
            let msg = decoded(self.gathered());
            Received { msg, reply: Some(if msg is Some { ACK } else { NACK }) }
        } else if self.overlong() {
            Received { msg: None, reply: Some(NACK) }
        } else {
            Received { msg: None, reply: None }
        }
    }

    /// The link after the look: a finished or overlong frame is dropped.
    pub open spec fn after_look(self) -> CommView {
        CommView {
            rx: self.rx.skip(self.taken() as int),
            partial: if self.complete() || self.overlong() {
                Seq::<u8>::empty()
            } else {
                self.gathered()
            },
        }
    }

    /// The link after `bytes` have come in from the wire.
    pub open spec fn after_rx(self, bytes: Seq<u8>) -> CommView {
        CommView { rx: after_write(self.rx, bytes, RX_RING_SIZE as nat), partial: self.partial }
    }
}

impl View for CommState {
    type V = CommView;

    closed spec fn view(&self) -> CommView {
        CommView {
            rx: self.rx_buffer@,
            partial: self.msg_buffer@.take(self.msg_buffer_ptr as int),
        }
    }
}

impl CommState {
    /// The ring is well formed and the frame cursor lies inside the frame buffer.
    pub closed spec fn wf(&self) -> bool {
        self.rx_buffer.wf() && self.msg_buffer_ptr <= MAX_UPLINK_MSG_SIZE
    }

    /// The frame buffer never holds more than its size, and the ring never
    /// as much as it has slots.
    pub proof fn lemma_bounds(&self)
        requires
            self.wf(),
        ensures
            self@.partial.len() <= MAX_UPLINK_MSG_SIZE,
            self@.rx.len() < RX_RING_SIZE,
    {
        self.rx_buffer.lemma_len_bound();
    }

    /// How many more bytes the receive ring takes.
    pub fn rx_free(&self) -> (n: usize)
        requires
            self.wf(),
        ensures
            n == RX_RING_SIZE - self@.rx.len(),
    {
        self.rx_buffer.free_space()
    }
}

/// A link that has received nothing.
pub fn setup() -> (state: CommState)
    ensures
        state.wf(),
        state@.rx == Seq::<u8>::empty(),
        state@.partial == Seq::<u8>::empty(),
{
    let state = CommState {
        rx_buffer: RingBuffer::new(),
        msg_buffer: [0u8; MAX_UPLINK_MSG_SIZE],
        msg_buffer_ptr: 0,
    };
    assert(state@.partial =~= Seq::<u8>::empty());
    state
}

/// Stores bytes that came in from the wire. The caller sees to it that they
/// fit: bytes that do not fit would be lost.
pub fn usart3_rx(state: &mut CommState, bytes: &[u8])
    requires
        old(state).wf(),
        bytes@.len() <= RX_RING_SIZE - old(state)@.rx.len(),
    ensures
        final(state).wf(),
        final(state)@ == old(state)@.after_rx(bytes@),
{
    let num_written = state.rx_buffer.write(bytes);
    assert(num_written == bytes@.len());
}

/// Moves received bytes into the frame buffer, up to the first terminator.
/// A finished frame is decoded and dropped: the result holds its command and
/// `ACK`, or no command and `NACK` where it does not decode. A frame that
/// fills the buffer without a terminator is dropped with `NACK`. Otherwise
/// the result holds neither command nor reply.
pub fn get_message(state: &mut CommState) -> (got: Received)
    requires
        old(state).wf(),
    ensures
        final(state).wf(),
        got == old(state)@.received(),
        final(state)@ == old(state)@.after_look(),
{
    let ghost before = state@;
    proof {
        broadcast use vstd::laws_eq::group_laws_eq;
    }
    let advance = state.rx_buffer.read_at(
        &mut state.msg_buffer,
        state.msg_buffer_ptr,
        Some(0),
    );
    state.msg_buffer_ptr += advance;
    let ptr = state.msg_buffer_ptr;
    proof {
        assert(advance == before.taken());
        assert(state.msg_buffer@.take(ptr as int) =~= before.gathered());
        assert(state@.rx == before.rx.skip(advance as int));
    }
    if ptr == 0 {
        proof {
            assert(state@.partial =~= before.gathered());
        }
        return Received { msg: None, reply: None };
    }
    if state.msg_buffer[ptr - 1] == 0 {
        let msg = try_decode_message(slice_subrange(state.msg_buffer.as_slice(), 0, ptr));
        let reply = if msg.is_some() {
            ACK
        } else {
            NACK
        };
        state.msg_buffer_ptr = 0;
        proof {
            assert(before.gathered().last() == 0);
            assert(state.msg_buffer@.subrange(0, ptr as int) =~= before.gathered());
            assert(state@.partial =~= Seq::<u8>::empty());
        }
        Received { msg, reply: Some(reply) }
    } else if ptr == MAX_UPLINK_MSG_SIZE {
        state.msg_buffer_ptr = 0;
        proof {
            assert(state@.partial =~= Seq::<u8>::empty());
        }
        Received { msg: None, reply: Some(NACK) }
    } else {
        Received { msg: None, reply: None }
    }
}

/// A frame that decodes to `msg`, sent to a link that holds nothing, comes out
/// of the next look as `msg`, answered with `ACK`, and the link holds nothing
/// again.
pub proof fn lemma_frame_round_trip(idle: CommView, frame: Seq<u8>, msg: UplinkMsg)
    requires
        idle.rx.len() == 0,
        idle.partial.len() == 0,
        is_frame(frame),
        frame.len() <= MAX_UPLINK_MSG_SIZE,
        decoded(frame) == Some(msg),
    ensures
        idle.after_rx(frame).received() == (Received { msg: Some(msg), reply: Some(ACK) }),
        idle.after_rx(frame).after_look() == idle,
{
    let sent = idle.after_rx(frame);
    assert(sent.rx =~= frame);
    assert(is_stop(frame, Some(0u8), frame.len() as int));
    lemma_stop_len_is(frame, Some(0u8), frame.len() as int);
    assert(sent.taken() == frame.len());
    assert(sent.gathered() =~= frame);
    assert(sent.after_look().rx =~= idle.rx);
    assert(sent.after_look().partial =~= idle.partial);
}

/// The same frame arriving in two pieces, with a look in between: the first
/// look finds nothing to answer and keeps the first piece, the second gives
/// the command and `ACK`.
pub proof fn lemma_frame_in_pieces(idle: CommView, frame: Seq<u8>, cut: int, msg: UplinkMsg)
    requires
        idle.rx.len() == 0,
        idle.partial.len() == 0,
        is_frame(frame),
        frame.len() <= MAX_UPLINK_MSG_SIZE,
        decoded(frame) == Some(msg),
        0 <= cut < frame.len(),
    ensures
        ({
            let first = idle.after_rx(frame.take(cut));
            let second = first.after_look().after_rx(frame.skip(cut));
            &&& first.received() == (Received { msg: None, reply: None })
            &&& second.received() == (Received { msg: Some(msg), reply: Some(ACK) })
            &&& second.after_look() == idle
        }),
{
    let head = frame.take(cut);
    let tail = frame.skip(cut);
    let first = idle.after_rx(head);
    assert(first.rx =~= head);
    lemma_stop_len_at_least(head, Some(0u8), cut);
    lemma_stop_len_bound(head, Some(0u8));
    assert(first.taken() == cut);
    assert(first.gathered() =~= head);
    if cut > 0 {
        assert(head.last() == frame[cut - 1]);
    }
    let held = first.after_look();
    assert(held.rx =~= idle.rx);
    assert(held.partial =~= head);
    let second = held.after_rx(tail);
    assert(second.rx =~= tail);
    assert(is_stop(tail, Some(0u8), tail.len() as int)) by {
        assert forall|i: int| 0 <= i < tail.len() - 1 implies Some(0u8) != Some(
            #[trigger] tail[i],
        ) by {
            assert(tail[i] == frame[cut + i]);
        }
        assert(tail[tail.len() - 1] == frame[frame.len() - 1]);
    }
    lemma_stop_len_is(tail, Some(0u8), tail.len() as int);
    assert(second.taken() == tail.len());
    assert(second.gathered() =~= frame);
    assert(second.after_look().rx =~= idle.rx);
    assert(second.after_look().partial =~= idle.partial);
}

/// Whatever bytes arrive, a look never gathers more than the frame buffer
/// holds, and it answers `NACK` exactly when it gives up a frame: one that
/// is finished and does not decode, or one that is overlong.
pub proof fn lemma_corrupt_frame_rejected(link: CommView)
    requires
        link.partial.len() <= MAX_UPLINK_MSG_SIZE,
    ensures
        link.gathered().len() <= MAX_UPLINK_MSG_SIZE,
        link.after_look().partial.len() <= MAX_UPLINK_MSG_SIZE,
        link.received().reply == Some(NACK) <==> (link.complete() && decoded(link.gathered())
            is None) || link.overlong(),
        link.received().msg is Some ==> link.received().reply == Some(ACK),
        link.received().reply == Some(ACK) ==> link.complete() && link.received().msg == decoded(
            link.gathered(),
        ),
{
    lemma_stop_len_bound(link.rx, Some(0u8));
}

} // verus!
