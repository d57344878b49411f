//! Datagram format of the stop-and-wait transport: type, sequence number,
//! a 16-bit big-endian checksum over type, sequence number and payload, then
//! the payload.
use vstd::prelude::*;
use crate::bytes::{append_bytes, copy_range};
use crate::checksum::{check, checksum, max_len, spec_check, spec_checksum};

verus! {

pub const TYPE_DATA: u8 = 0;

pub const TYPE_ACK: u8 = 1;

pub const TYPE_CMD: u8 = 2;

/// A transport datagram.
#[derive(Debug, Clone)]
pub struct Packet {
    pub pkt_type: u8,
    pub seq: u8,
    pub payload: Vec<u8>,
}

/// The bytes the checksum covers: type, sequence number and payload.
pub open spec fn covered_bytes(pkt_type: u8, seq: u8, payload: Seq<u8>) -> Seq<u8> {
    seq![pkt_type, seq] + payload
}

/// The encoding of a datagram.
pub open spec fn spec_encode(pkt_type: u8, seq: u8, payload: Seq<u8>) -> Seq<u8> {
    let c = spec_checksum(covered_bytes(pkt_type, seq, payload));
    seq![pkt_type, seq, (c / 256) as u8, (c % 256) as u8] + payload
}

/// The checksum field of an encoded datagram.
pub open spec fn checksum_field(bytes: Seq<u8>) -> u16 {
    (bytes[2] as nat * 256 + bytes[3] as nat) as u16
}

/// Whether `bytes` decode to a datagram: long enough for the header and
/// carrying a checksum that verifies.
pub open spec fn spec_decodes(bytes: Seq<u8>) -> bool {
    bytes.len() >= 4 && spec_check(
        covered_bytes(bytes[0], bytes[1], bytes.subrange(4, bytes.len() as int)),
        checksum_field(bytes),
    )
}

impl Packet {
    /// The fields of the datagram as plain values.
    pub open spec fn model(&self) -> (u8, u8, Seq<u8>) {
        (self.pkt_type, self.seq, self.payload@)
    }

    /// Serialises the datagram.
    pub fn to_bytes(&self) -> (res: Vec<u8>)
        requires
            self.payload@.len() + 2 <= max_len(),
        ensures
            res@ == spec_encode(self.pkt_type, self.seq, self.payload@),
    {
        let mut buf = vec![self.pkt_type, self.seq];
        append_bytes(&mut buf, self.payload.as_slice());
        assert(buf@ == covered_bytes(self.pkt_type, self.seq, self.payload@));
        let csum = checksum(buf.as_slice());
        let hi = (csum >> 8u16) as u8;
        let lo = (csum & 0xFFu16) as u8;
        assert(hi == csum / 256 && lo == csum % 256) by (bit_vector)
            requires
                hi == (csum >> 8u16) as u8,
                lo == (csum & 0xFFu16) as u8,
        ;
        let mut final_buf = vec![buf[0], buf[1], hi, lo];
        append_bytes(&mut final_buf, self.payload.as_slice());
        final_buf
    }

    /// Parses a datagram, or `None` when it is shorter than the header or
    /// its checksum does not verify.
    pub fn from_bytes(bytes: &[u8]) -> (res: Option<Packet>)
        requires
            bytes@.len() <= max_len(),
        ensures
            res is Some <==> spec_decodes(bytes@),
            res matches Some(p) ==> p.model() == (bytes@[0], bytes@[1], bytes@.subrange(
                4,
                bytes@.len() as int,
            )),
    {
        if bytes.len() < 4 {
            return None;
        }
        let pkt_type = bytes[0];
        let seq = bytes[1];
        let csum: u16 = ((bytes[2] as u16) << 8u16) | (bytes[3] as u16);
        let b2 = bytes[2];
        let b3 = bytes[3];
        assert(((b2 as u16) << 8u16) | (b3 as u16) == b2 as u16 * 256 + b3 as u16) by (bit_vector);
        let payload = copy_range(bytes, 4, bytes.len());
        let mut verify_buf = vec![bytes[0], bytes[1]];
        append_bytes(&mut verify_buf, payload.as_slice());
        assert(verify_buf@ == covered_bytes(bytes@[0], bytes@[1], bytes@.subrange(4, bytes@.len() as int)));
        if !check(verify_buf.as_slice(), csum) {
            return None;
        }
        Some(Packet { pkt_type, seq, payload })
    }
}

/// Law: decoding an encoded datagram gives back its fields.
pub proof fn lemma_decode_encode(pkt_type: u8, seq: u8, payload: Seq<u8>)
    ensures
        spec_decodes(spec_encode(pkt_type, seq, payload)),
        ({
            let b = spec_encode(pkt_type, seq, payload);
            b[0] == pkt_type && b[1] == seq && b.subrange(4, b.len() as int) == payload
        }),
{
    let b = spec_encode(pkt_type, seq, payload);
    let c = spec_checksum(covered_bytes(pkt_type, seq, payload));
    assert(b.subrange(4, b.len() as int) =~= payload);
    assert(checksum_field(b) == c);
    crate::checksum::lemma_checksum_verifies(covered_bytes(pkt_type, seq, payload));
}

/// Law: re-encoding a decoded datagram reproduces the input bytes, except
/// when the checksum field holds the second representation of zero
/// (`0xFFFF` where the computed checksum is `0`).
pub proof fn lemma_encode_decode(bytes: Seq<u8>)
    requires
        spec_decodes(bytes),
        !(checksum_field(bytes) == 0xFFFF && spec_checksum(
            covered_bytes(bytes[0], bytes[1], bytes.subrange(4, bytes.len() as int)),
        ) == 0),
    ensures
        spec_encode(bytes[0], bytes[1], bytes.subrange(4, bytes.len() as int)) == bytes,
{
    let payload = bytes.subrange(4, bytes.len() as int);
    let cov = covered_bytes(bytes[0], bytes[1], payload);
    crate::checksum::lemma_check_characterization(cov, checksum_field(bytes));
    let c = spec_checksum(cov);
    assert(c == checksum_field(bytes));
    let e = spec_encode(bytes[0], bytes[1], payload);
    assert(e[2] == bytes[2] && e[3] == bytes[3]) by (nonlinear_arith)
        requires
            c == (bytes[2] as nat * 256 + bytes[3] as nat) as u16,
            e[2] == (c / 256) as u8,
            e[3] == (c % 256) as u8,
            bytes[2] < 256,
            bytes[3] < 256,
    ;
    assert(e =~= bytes);
}

/// `b` with bit `bit` of byte `i` flipped.
pub open spec fn flip_bit(b: Seq<u8>, i: int, bit: nat) -> Seq<u8> {
    b.update(i, (b[i] ^ (1u8 << bit as u8)) as u8)
}

/// Law: an encoded datagram with any single bit flipped no longer decodes,
/// so the receiver treats it as corrupted.
pub proof fn lemma_single_bit_corruption_rejected(
    pkt_type: u8,
    seq: u8,
    payload: Seq<u8>,
    i: int,
    bit: nat,
)
    requires
        0 <= i < spec_encode(pkt_type, seq, payload).len(),
        bit < 8,
    ensures
        !spec_decodes(flip_bit(spec_encode(pkt_type, seq, payload), i, bit)),
{
    let b = spec_encode(pkt_type, seq, payload);
    let f = flip_bit(b, i, bit);
    let cov = covered_bytes(pkt_type, seq, payload);
    let c = spec_checksum(cov);
    lemma_decode_encode(pkt_type, seq, payload);
    assert(checksum_field(b) == c);
    let bv = bit as u8;
    let m = (1u8 << bv) as u8;
    assert(m != 0 && (m == 1 || m == 2 || m == 4 || m == 8 || m == 16 || m == 32 || m == 64 || m == 128)) by (bit_vector)
        requires
            bv < 8,
            m == (1u8 << bv) as u8,
    ;
    if i == 2 || i == 3 {
        let fc = checksum_field(f);
        let cov_f = covered_bytes(f[0], f[1], f.subrange(4, f.len() as int));
        assert(cov_f =~= cov);
        let b2 = b[2];
        let b3 = b[3];
        assert(checksum_field(b) == (b2 as nat * 256 + b3 as nat) as u16);
        if i == 2 {
            let x = (b2 ^ m) as u8;
            assert(x != b2) by (bit_vector)
                requires
                    m != 0,
                    x == (b2 ^ m) as u8,
            ;
            assert(fc == (x as nat * 256 + b3 as nat) as u16);
            assert(fc != c);
            if c == 0 {
                assert(b2 == 0 && b3 == 0);
                assert(x == m) by (bit_vector)
                    requires
                        b2 == 0,
                        x == (b2 ^ m) as u8,
                ;
                assert(fc != 0xFFFF);
            }
        } else {
            let x = (b3 ^ m) as u8;
            assert(x != b3) by (bit_vector)
                requires
                    m != 0,
                    x == (b3 ^ m) as u8,
            ;
            assert(fc == (b2 as nat * 256 + x as nat) as u16);
            assert(fc != c);
            if c == 0 {
                assert(b2 == 0 && b3 == 0);
                assert(x == m) by (bit_vector)
                    requires
                        b3 == 0,
                        x == (b3 ^ m) as u8,
                ;
                assert(fc != 0xFFFF);
            }
        }
        crate::checksum::lemma_check_characterization(cov, fc);
        crate::checksum::lemma_fold16_range(crate::checksum::word_sum(cov));
    } else {
        let j = if i < 2 { i } else { i - 2 };
        let cov_f = covered_bytes(f[0], f[1], f.subrange(4, f.len() as int));
        assert(cov_f =~= cov.update(j, (cov[j] ^ (1u8 << bit as u8)) as u8));
        assert(checksum_field(f) == checksum_field(b));
        crate::checksum::lemma_single_bit_change_detected(cov, j, bit);
    }
}

} // verus!
