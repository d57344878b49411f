//! Decisions of the stop-and-wait (alternating bit) transport. The endpoint
//! state holds the sequence numbers; the caller performs the sends, the
//! receives, the timeouts and the simulated losses.
use vstd::prelude::*;
use crate::checksum::max_len;
use crate::packet::{spec_decodes, spec_encode, Packet, TYPE_ACK, TYPE_CMD};

verus! {

/// Sequence-number state of one endpoint.
pub struct RdtState {
    seq_send: u8,
    seq_recv: u8,
}

/// What the receiver does with an incoming datagram.
pub enum RecvAction {
    /// The datagram did not decode (too short or bad checksum).
    Corrupted,
    /// A stray acknowledgement: nothing to do.
    StrayAck,
    /// A new datagram in sequence: deliver it, after sending `ack`.
    Deliver { pkt_type: u8, payload: Vec<u8>, ack: Vec<u8> },
    /// A duplicate: acknowledge it again with `ack`, deliver nothing.
    Duplicate { ack: Vec<u8> },
}

/// The datagram `bytes` decodes to a command whose sequence number is
/// neither 0 nor 1; the receiver cannot flip such a number.
pub open spec fn bad_command(bytes: Seq<u8>) -> bool {
    spec_decodes(bytes) && bytes[0] == TYPE_CMD && bytes[1] > 1
}

/// Whether the sender with send number `send_seq` accepts `bytes` from the
/// target as the acknowledgement it waits for.
pub open spec fn ack_accepted(send_seq: u8, bytes: Seq<u8>) -> bool {
    spec_decodes(bytes) && bytes[0] == TYPE_ACK && bytes[1] == send_seq
}

/// The number the receiver expects once `bytes` (decoded, not an ACK)
/// arrives: a command announces its own number.
pub open spec fn expected_seq(recv_seq: u8, bytes: Seq<u8>) -> u8 {
    if bytes[0] == TYPE_CMD {
        bytes[1]
    } else {
        recv_seq
    }
}

/// Whether the receiver delivers `bytes`.
pub open spec fn delivers(recv_seq: u8, bytes: Seq<u8>) -> bool {
    spec_decodes(bytes) && bytes[0] != TYPE_ACK && bytes[1] == expected_seq(recv_seq, bytes)
}

/// The receiver's expected number once `bytes` has arrived, before any
/// acknowledgement is sent: a decoded command sets it to its own number.
pub open spec fn arrival_seq(recv_seq: u8, bytes: Seq<u8>) -> u8 {
    if !spec_decodes(bytes) || bytes[0] == TYPE_ACK {
        recv_seq
    } else {
        expected_seq(recv_seq, bytes)
    }
}

/// The receiver's expected number after `bytes` has been handled: flipped
/// once the acknowledgement of a delivered datagram has been sent.
pub open spec fn next_recv_seq(recv_seq: u8, bytes: Seq<u8>) -> u8 {
    if delivers(recv_seq, bytes) {
        (1 - arrival_seq(recv_seq, bytes)) as u8
    } else {
        arrival_seq(recv_seq, bytes)
    }
}

/// The acknowledgement with number `seq`.
pub open spec fn ack_bytes(seq: u8) -> Seq<u8> {
    spec_encode(TYPE_ACK, seq, Seq::empty())
}

impl RdtState {
    /// Sequence number of the next datagram to send.
    pub closed spec fn send_seq(&self) -> u8 {
        self.seq_send
    }

    /// Sequence number expected from the peer.
    pub closed spec fn recv_seq(&self) -> u8 {
        self.seq_recv
    }

    /// Both sequence numbers are 0 or 1.
    pub open spec fn wf(&self) -> bool {
        self.send_seq() <= 1 && self.recv_seq() <= 1
    }

    /// A fresh endpoint: both sequence numbers are 0.
    pub fn new() -> (res: Self)
        ensures
            res.send_seq() == 0,
            res.recv_seq() == 0,
            res.wf(),
    {
        RdtState { seq_send: 0, seq_recv: 0 }
    }

    pub fn seq_send(&self) -> (res: u8)
        ensures
            res == self.send_seq(),
    {
        self.seq_send
    }

    pub fn seq_recv(&self) -> (res: u8)
        ensures
            res == self.recv_seq(),
    {
        self.seq_recv
    }

    /// The datagram that carries `payload` with the current send number.
    pub fn outgoing(&self, pkt_type: u8, payload: &[u8]) -> (res: Vec<u8>)
        requires
            payload@.len() + 2 <= max_len(),
        ensures
            res@ == spec_encode(pkt_type, self.send_seq(), payload@),
    {
        let pkt = Packet { pkt_type, seq: self.seq_send, payload: crate::bytes::copy_range(payload, 0, payload.len()) };
        assert(payload@.subrange(0, payload@.len() as int) =~= payload@);
        pkt.to_bytes()
    }

    /// Whether a datagram received while waiting is the acknowledgement of
    /// the datagram in flight: it came from the target, decodes, is an ACK
    /// and carries the current send number.
    pub fn is_expected_ack(&self, from_target: bool, datagram: &[u8]) -> (res: bool)
        requires
            datagram@.len() <= max_len(),
        ensures
            res == (from_target && ack_accepted(self.send_seq(), datagram@)),
    {
        if !from_target {
            return false;
        }
        match Packet::from_bytes(datagram) {
            Some(p) => p.pkt_type == TYPE_ACK && p.seq == self.seq_send,
            None => false,
        }
    }

    /// The datagram in flight was acknowledged: flip the send number.
    pub fn ack_received(&mut self)
        requires
            old(self).wf(),
        ensures
            final(self).wf(),
            final(self).send_seq() == 1 - old(self).send_seq(),
            final(self).recv_seq() == old(self).recv_seq(),
    {
        self.seq_send = 1 - self.seq_send;
    }

    /// Handles a datagram arriving at the receiver. A command resets the
    /// expected number to its own; a datagram with the expected number is
    /// delivered, and the number flips once its acknowledgement has been sent
    /// (`ack_sent`); any other is a duplicate, acknowledged again.
    pub fn on_datagram(&mut self, datagram: &[u8]) -> (res: RecvAction)
        requires
            old(self).wf(),
            datagram@.len() <= max_len(),
            !bad_command(datagram@),
        ensures
            final(self).wf(),
            final(self).send_seq() == old(self).send_seq(),
            final(self).recv_seq() == arrival_seq(old(self).recv_seq(), datagram@),
            delivers(old(self).recv_seq(), datagram@) ==> next_recv_seq(old(self).recv_seq(), datagram@)
                == 1 - final(self).recv_seq(),
            !delivers(old(self).recv_seq(), datagram@) ==> next_recv_seq(old(self).recv_seq(), datagram@)
                == final(self).recv_seq(),
            !spec_decodes(datagram@) <==> res is Corrupted,
            spec_decodes(datagram@) && datagram@[0] == TYPE_ACK <==> res is StrayAck,
            delivers(old(self).recv_seq(), datagram@) ==> (res matches RecvAction::Deliver {
                pkt_type,
                payload,
                ack,
            } && pkt_type == datagram@[0] && payload@ == datagram@.subrange(
                4,
                datagram@.len() as int,
            ) && ack@ == ack_bytes(expected_seq(old(self).recv_seq(), datagram@))),
            spec_decodes(datagram@) && datagram@[0] != TYPE_ACK && !delivers(
                old(self).recv_seq(),
                datagram@,
            ) ==> (res matches RecvAction::Duplicate { ack } && ack@ == ack_bytes(datagram@[1])),
    {
        match Packet::from_bytes(datagram) {
            None => RecvAction::Corrupted,
            Some(pkt) => {
                if pkt.pkt_type == TYPE_ACK {
                    return RecvAction::StrayAck;
                }
                if pkt.pkt_type == TYPE_CMD {
                    self.seq_recv = pkt.seq;
                }
                if pkt.seq == self.seq_recv {
                    let ack = Packet { pkt_type: TYPE_ACK, seq: self.seq_recv, payload: Vec::new() };
                    let ack_bytes = ack.to_bytes();
                    assert(ack.payload@ =~= Seq::<u8>::empty());
                    RecvAction::Deliver { pkt_type: pkt.pkt_type, payload: pkt.payload, ack: ack_bytes }
                } else {
                    let ack = Packet { pkt_type: TYPE_ACK, seq: pkt.seq, payload: Vec::new() };
                    assert(ack.payload@ =~= Seq::<u8>::empty());
                    RecvAction::Duplicate { ack: ack.to_bytes() }
                }
            },
        }
    }

    /// The acknowledgement of a delivered datagram has been sent (or
    /// dropped on purpose): the expected number flips.
    pub fn ack_sent(&mut self)
        requires
            old(self).wf(),
        ensures
            final(self).wf(),
            final(self).recv_seq() == 1 - old(self).recv_seq(),
            final(self).send_seq() == old(self).send_seq(),
    {
        self.seq_recv = 1 - self.seq_recv;
    }
}

/// Law: with sender and receiver in step (the receiver expects the
/// sender's number), a data datagram is delivered, a retransmitted copy of
/// it is not delivered again, and the receiver's acknowledgement is the one
/// the sender accepts; after it both sides have flipped their numbers and
/// are in step again.
pub proof fn lemma_in_step_exchange(seq: u8, pkt_type: u8, payload: Seq<u8>)
    requires
        seq <= 1,
        pkt_type != TYPE_ACK,
        pkt_type != TYPE_CMD,
    ensures
        delivers(seq, spec_encode(pkt_type, seq, payload)),
        next_recv_seq(seq, spec_encode(pkt_type, seq, payload)) == 1 - seq,
        !delivers((1 - seq) as u8, spec_encode(pkt_type, seq, payload)),
        next_recv_seq((1 - seq) as u8, spec_encode(pkt_type, seq, payload)) == 1 - seq,
        ack_accepted(seq, ack_bytes(seq)),
        !ack_accepted((1 - seq) as u8, ack_bytes(seq)),
{
    crate::packet::lemma_decode_encode(pkt_type, seq, payload);
    crate::packet::lemma_decode_encode(TYPE_ACK, seq, Seq::empty());
}

/// Law: a command datagram is always delivered, whatever the receiver
/// expected, and leaves the receiver expecting the flipped number.
pub proof fn lemma_command_resynchronises(recv_seq: u8, seq: u8, payload: Seq<u8>)
    requires
        seq <= 1,
    ensures
        delivers(recv_seq, spec_encode(TYPE_CMD, seq, payload)),
        next_recv_seq(recv_seq, spec_encode(TYPE_CMD, seq, payload)) == 1 - seq,
{
    crate::packet::lemma_decode_encode(TYPE_CMD, seq, payload);
}

} // verus!
