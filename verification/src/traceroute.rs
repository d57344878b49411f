//! Echo probes of the traceroute tool: building echo requests,
//! classifying the datagrams that come back, and naming ICMP errors.
use vstd::prelude::*;
use crate::checksum::{fold16, ones_sum, spec_checksum, word_sum};
use crate::text::{decimal, push_decimal_u8, push_str, string_of, push_decimal, push_char, views};

verus! {

pub const ECHO_REPLY: u8 = 0;

pub const DEST_UNREACHABLE: u8 = 3;

pub const SOURCE_QUENCH: u8 = 4;

pub const REDIRECT: u8 = 5;

pub const ECHO_REQUEST: u8 = 8;

pub const TIME_EXCEEDED: u8 = 11;

pub const PARAMETER_PROBLEM: u8 = 12;

/// Human-readable description of an ICMP error type and code.
pub open spec fn error_text(msg_type: u8, msg_code: u8) -> Seq<char> {
    if msg_type == DEST_UNREACHABLE {
        if msg_code == 0 {
            "Net is unreachable"@
        } else if msg_code == 1 {
            "Host is unreachable"@
        } else if msg_code == 2 {
            "Protocol is unreachable"@
        } else if msg_code == 3 {
            "Port is unreachable"@
        } else if msg_code == 4 {
            "Fragmentation is needed and Don't Fragment was set"@
        } else if msg_code == 5 {
            "Source route failed"@
        } else if msg_code == 6 {
            "Destination network is unknown"@
        } else if msg_code == 7 {
            "Destination host is unknown"@
        } else {
            "Destination Unreachable (Code "@ + decimal(msg_code as nat) + ")"@
        }
    } else if msg_type == SOURCE_QUENCH {
        "Source quench"@
    } else if msg_type == REDIRECT {
        "Redirect"@
    } else if msg_type == TIME_EXCEEDED {
        if msg_code == 0 {
            "Time to Live exceeded in transit"@
        } else if msg_code == 1 {
            "Fragment reassembly time exceeded"@
        } else {
            "Time Exceeded (Code "@ + decimal(msg_code as nat) + ")"@
        }
    } else if msg_type == PARAMETER_PROBLEM {
        "Parameter Problem"@
    } else {
        "ICMP Type "@ + decimal(msg_type as nat) + ", ICMP Code "@ + decimal(msg_code as nat)
    }
}

/// Describes an ICMP error.
pub fn parse_icmp_error(msg_type: u8, msg_code: u8) -> (res: String)
    ensures
        res@ == error_text(msg_type, msg_code),
{
    if msg_type == DEST_UNREACHABLE {
        if msg_code == 0 {
            string_of("Net is unreachable")
        } else if msg_code == 1 {
            string_of("Host is unreachable")
        } else if msg_code == 2 {
            string_of("Protocol is unreachable")
        } else if msg_code == 3 {
            string_of("Port is unreachable")
        } else if msg_code == 4 {
            string_of("Fragmentation is needed and Don't Fragment was set")
        } else if msg_code == 5 {
            string_of("Source route failed")
        } else if msg_code == 6 {
            string_of("Destination network is unknown")
        } else if msg_code == 7 {
            string_of("Destination host is unknown")
        } else {
            let mut s = string_of("Destination Unreachable (Code ");
            push_decimal_u8(&mut s, msg_code);
            push_str(&mut s, ")");
            s
        }
    } else if msg_type == SOURCE_QUENCH {
        string_of("Source quench")
    } else if msg_type == REDIRECT {
        string_of("Redirect")
    } else if msg_type == TIME_EXCEEDED {
        if msg_code == 0 {
            string_of("Time to Live exceeded in transit")
        } else if msg_code == 1 {
            string_of("Fragment reassembly time exceeded")
        } else {
            let mut s = string_of("Time Exceeded (Code ");
            push_decimal_u8(&mut s, msg_code);
            push_str(&mut s, ")");
            s
        }
    } else if msg_type == PARAMETER_PROBLEM {
        string_of("Parameter Problem")
    } else {
        let mut s = string_of("ICMP Type ");
        push_decimal_u8(&mut s, msg_type);
        push_str(&mut s, ", ICMP Code ");
        push_decimal_u8(&mut s, msg_code);
        s
    }
}

/// The Internet checksum used in ICMP headers.
pub fn checksum(data: &[u8]) -> (res: u16)
    requires
        data@.len() <= crate::checksum::max_len(),
    ensures
        res == spec_checksum(data@),
{
    crate::checksum::checksum(data)
}

/// The echo request before its checksum is filled in: type 8, code 0, a
/// zero checksum field, identifier and sequence number big-endian, then
/// the payload "ping".
pub open spec fn echo_template(seq: u16, identifier: u16) -> Seq<u8> {
    seq![
        ECHO_REQUEST,
        0u8,
        0u8,
        0u8,
        (identifier / 256) as u8,
        (identifier % 256) as u8,
        (seq / 256) as u8,
        (seq % 256) as u8,
        112u8,
        105u8,
        110u8,
        103u8,
    ]
}

/// The complete echo request: the template with its checksum at bytes 2..4.
pub open spec fn echo_request(seq: u16, identifier: u16) -> Seq<u8> {
    let t = echo_template(seq, identifier);
    let c = spec_checksum(t);
    t.update(2, (c / 256) as u8).update(3, (c % 256) as u8)
}

/// Builds an ICMP echo request with the given sequence number and identifier.
pub fn create_icmp_packet(seq: u16, identifier: u16) -> (res: Vec<u8>)
    ensures
        res@ == echo_request(seq, identifier),
{
    build_echo_request(seq, identifier)
}

fn build_echo_request(seq: u16, identifier: u16) -> (res: Vec<u8>)
    ensures
        res@ == echo_request(seq, identifier),
{
    let id_hi = (identifier >> 8u16) as u8;
    let id_lo = (identifier & 0xFFu16) as u8;
    let seq_hi = (seq >> 8u16) as u8;
    let seq_lo = (seq & 0xFFu16) as u8;
    assert(id_hi == identifier / 256 && id_lo == identifier % 256) by (bit_vector)
        requires
            id_hi == (identifier >> 8u16) as u8,
            id_lo == (identifier & 0xFFu16) as u8,
    ;
    assert(seq_hi == seq / 256 && seq_lo == seq % 256) by (bit_vector)
        requires
            seq_hi == (seq >> 8u16) as u8,
            seq_lo == (seq & 0xFFu16) as u8,
    ;
    let mut packet: Vec<u8> = vec![ECHO_REQUEST, 0, 0, 0, id_hi, id_lo, seq_hi, seq_lo];
    packet.push(112);
    packet.push(105);
    packet.push(110);
    packet.push(103);
    assert(packet@ =~= echo_template(seq, identifier));
    let c = checksum(packet.as_slice());
    let c_hi = (c >> 8u16) as u8;
    let c_lo = (c & 0xFFu16) as u8;
    assert(c_hi == c / 256 && c_lo == c % 256) by (bit_vector)
        requires
            c_hi == (c >> 8u16) as u8,
            c_lo == (c & 0xFFu16) as u8,
    ;
    packet.set(2, c_hi);
    packet.set(3, c_lo);
    packet
}

proof fn lemma_word_sum_12(s: Seq<u8>)
    requires
        s.len() == 12,
    ensures
        word_sum(s) == (s[0] * 256 + s[1]) + (s[2] * 256 + s[3]) + (s[4] * 256 + s[5]) + (s[6]
            * 256 + s[7]) + (s[8] * 256 + s[9]) + (s[10] * 256 + s[11]),
{
    let s2 = s.subrange(2, 12);
    let s4 = s2.subrange(2, 10);
    let s6 = s4.subrange(2, 8);
    let s8 = s6.subrange(2, 6);
    let s10 = s8.subrange(2, 4);
    let s12 = s10.subrange(2, 2);
    assert(s12.len() == 0);
    assert(word_sum(s12) == 0);
    assert(word_sum(s10) == s10[0] * 256 + s10[1] + word_sum(s12));
    assert(word_sum(s8) == s8[0] * 256 + s8[1] + word_sum(s10));
    assert(word_sum(s6) == s6[0] * 256 + s6[1] + word_sum(s8));
    assert(word_sum(s4) == s4[0] * 256 + s4[1] + word_sum(s6));
    assert(word_sum(s2) == s2[0] * 256 + s2[1] + word_sum(s4));
}

/// Law: every echo request carries a valid Internet checksum: the one's
/// complement sum over the whole message, checksum field included, is
/// all ones.
pub proof fn lemma_echo_request_checksum_valid(seq: u16, identifier: u16)
    ensures
        ones_sum(echo_request(seq, identifier)) == 0xFFFF,
{
    let t = echo_template(seq, identifier);
    let p = echo_request(seq, identifier);
    let c = spec_checksum(t);
    lemma_word_sum_12(t);
    lemma_word_sum_12(p);
    assert(p[2] as nat * 256 + p[3] as nat == c) by (nonlinear_arith)
        requires
            p[2] == (c / 256) as u8,
            p[3] == (c % 256) as u8,
            c < 0x10000,
    ;
    let x = word_sum(t);
    assert(word_sum(p) == x + c);
    let s = fold16(x);
    assert(c == 0xFFFF - s);
    crate::checksum::lemma_fold_plus_complement(x);
}

/// How a datagram received by the probing socket is handled.
pub enum ProbeReply {
    /// Too short for the headers that are read: the probe is skipped
    /// without waiting before the next one.
    Skip,
    /// A reply (echo reply or time exceeded) to the probe in flight.
    Matched,
    /// A reply to some other probe.
    Unmatched,
    /// An echo request (our own probe looped back): ignored.
    OwnRequest,
    /// Another ICMP message, reported with its type and code.
    Error { msg_type: u8, msg_code: u8 },
}

/// Length in bytes of the IPv4 header starting at `b[start]`.
pub open spec fn ihl(b: Seq<u8>, start: int) -> int {
    (b[start] % 16) as int * 4
}

/// The big-endian 16-bit value at `b[i..i + 2]`.
pub open spec fn be16(b: Seq<u8>, i: int) -> u16 {
    (b[i] as nat * 256 + b[i + 1] as nat) as u16
}

/// The datagram is too short for the bytes the classification reads: it is
/// empty, or it is a time-exceeded message whose quoted probe header ends
/// within its first eight bytes.
pub open spec fn reply_out_of_bounds(b: Seq<u8>) -> bool {
    b.len() == 0 || {
        let h = ihl(b, 0);
        let inner = h + 8;
        &&& b.len() >= h + 8
        &&& b[h] == TIME_EXCEEDED
        &&& b.len() >= inner + 20
        &&& b.len() >= inner + ihl(b, inner)
        &&& b.len() < inner + ihl(b, inner) + 8
    }
}

/// The classification of a received datagram `b` (IPv4 header, then ICMP)
/// against the probe with identifier `pid` and sequence number `sequence`.
pub open spec fn spec_classify(b: Seq<u8>, pid: u16, sequence: u16) -> ProbeReply {
    let h = ihl(b, 0);
    if b.len() < h + 8 {
        ProbeReply::Skip
    } else if b[h] == ECHO_REPLY {
        if be16(b, h + 4) == pid && be16(b, h + 6) == sequence {
            ProbeReply::Matched
        } else {
            ProbeReply::Unmatched
        }
    } else if b[h] == TIME_EXCEEDED {
        let inner = h + 8;
        if b.len() < inner + 20 {
            ProbeReply::Skip
        } else {
            let start = inner + ihl(b, inner);
            if b.len() < start {
                ProbeReply::Skip
            } else if be16(b, start + 4) == pid && be16(b, start + 6) == sequence {
                ProbeReply::Matched
            } else {
                ProbeReply::Unmatched
            }
        }
    } else if b[h] == ECHO_REQUEST {
        ProbeReply::OwnRequest
    } else {
        ProbeReply::Error { msg_type: b[h], msg_code: b[h + 1] }
    }
}

fn header_len(b: u8) -> (res: usize)
    ensures
        res == (b % 16) as int * 4,
        res <= 60,
{
    let low = b & 0x0Fu8;
    assert(low == b % 16) by (bit_vector)
        requires
            low == b & 0x0Fu8,
    ;
    low as usize * 4
}

fn read_be16(b: &[u8], i: usize) -> (res: u16)
    requires
        i + 1 < b@.len(),
    ensures
        res == be16(b@, i as int),
{
    let hi = b[i];
    let lo = b[i + 1];
    let r: u16 = ((hi as u16) << 8u16) | (lo as u16);
    assert(((hi as u16) << 8u16) | (lo as u16) == hi as u16 * 256 + lo as u16) by (bit_vector);
    r
}

/// Whether classifying `reply` reads only bytes it has.
pub fn reply_in_bounds(reply: &[u8]) -> (res: bool)
    ensures
        res == !reply_out_of_bounds(reply@),
{
    let n = reply.len();
    if n == 0 {
        return false;
    }
    let h = header_len(reply[0]);
    if n < h + 8 || reply[h] != TIME_EXCEEDED {
        return true;
    }
    let inner = h + 8;
    if n < inner + 20 {
        return true;
    }
    let start = inner + header_len(reply[inner]);
    !(n >= start && n < start + 8)
}

/// Classifies a datagram received while probing.
pub fn classify_reply(reply: &[u8], pid: u16, sequence: u16) -> (res: ProbeReply)
    requires
        !reply_out_of_bounds(reply@),
    ensures
        res == spec_classify(reply@, pid, sequence),
{
    let n = reply.len();
    let h = header_len(reply[0]);
    if n < h + 8 {
        return ProbeReply::Skip;
    }
    let msg_type = reply[h];
    let msg_code = reply[h + 1];
    if msg_type == ECHO_REPLY {
        let received_id = read_be16(reply, h + 4);
        let received_seq = read_be16(reply, h + 6);
        if received_id == pid && received_seq == sequence {
            ProbeReply::Matched
        } else {
            ProbeReply::Unmatched
        }
    } else if msg_type == TIME_EXCEEDED {
        let inner = h + 8;
        if n < inner + 20 {
            return ProbeReply::Skip;
        }
        let start = inner + header_len(reply[inner]);
        if n < start {
            return ProbeReply::Skip;
        }
        let received_id = read_be16(reply, start + 4);
        let received_seq = read_be16(reply, start + 6);
        if received_id == pid && received_seq == sequence {
            ProbeReply::Matched
        } else {
            ProbeReply::Unmatched
        }
    } else if msg_type == ECHO_REQUEST {
        ProbeReply::OwnRequest
    } else {
        ProbeReply::Error { msg_type, msg_code }
    }
}

/// What stands for an address that did not answer.
pub open spec fn unknown_address() -> Seq<char> {
    "***.***.***.***"@
}

/// The three round-trip cells of a hop: the first three measurements, and
/// `***` for each one missing.
pub open spec fn hop_cells(rtts: Seq<Seq<char>>) -> Seq<Seq<char>> {
    Seq::new(3, |i: int| if i < rtts.len() { rtts[i] } else { "***"@ })
}

/// The summary line of hop `ttl`: its number, host name and address (or
/// `***.***.***.***` for both when nothing answered), then the three
/// round-trip cells separated by tabs.
pub open spec fn hop_line(ttl: u64, endpoint: Option<(Seq<char>, Seq<char>)>, rtts: Seq<Seq<char>>) -> Seq<
    char,
> {
    let (host, ip) = match endpoint {
        Some((h, a)) => (h, a),
        None => (unknown_address(), unknown_address()),
    };
    let cells = hop_cells(rtts);
    decimal(ttl as nat) + ": "@ + host + " ("@ + ip + seq![')', '\t'] + cells[0] + seq!['\t']
        + cells[1] + seq!['\t'] + cells[2]
}

/// The round-trip cells of a hop, as `hop_cells` says.
pub fn hop_columns(rtts: &Vec<String>) -> (res: Vec<String>)
    ensures
        views(res@) == hop_cells(views(rtts@)),
        res@.len() == 3,
        forall|q: int| 0 <= q < 3 ==> (#[trigger] res@[q])@ == hop_cells(views(rtts@))[q],
{
    let mut out: Vec<String> = Vec::new();
    let mut i: usize = 0;
    while i < 3
        invariant
            i <= 3,
            out@.len() == i,
            forall|q: int| 0 <= q < i ==> (#[trigger] out@[q])@ == hop_cells(views(rtts@))[q],
        decreases 3 - i,
    {
        if i < rtts.len() {
            out.push(rtts[i].clone());
        } else {
            out.push(string_of("***"));
        }
        i = i + 1;
    }
    assert(views(out@) =~= hop_cells(views(rtts@)));
    out
}

/// The summary line of a hop, as `hop_line` says.
pub fn hop_summary(ttl: u64, endpoint: &Option<(String, String)>, rtts: &Vec<String>) -> (res: String)
    ensures
        res@ == hop_line(
            ttl,
            match endpoint {
                Some((h, a)) => Some((h@, a@)),
                None => None,
            },
            views(rtts@),
        ),
{
    let cells = hop_columns(rtts);
    let mut out = String::new();
    push_decimal(&mut out, ttl);
    push_str(&mut out, ": ");
    match endpoint {
        Some((host, ip)) => {
            push_str(&mut out, host.as_str());
            push_str(&mut out, " (");
            push_str(&mut out, ip.as_str());
        },
        None => {
            push_str(&mut out, "***.***.***.***");
            push_str(&mut out, " (");
            push_str(&mut out, "***.***.***.***");
        },
    }
    push_char(&mut out, ')');
    push_char(&mut out, '\t');
    push_str(&mut out, cells[0].as_str());
    push_char(&mut out, '\t');
    push_str(&mut out, cells[1].as_str());
    push_char(&mut out, '\t');
    push_str(&mut out, cells[2].as_str());
    assert(out@ =~= hop_line(
        ttl,
        match endpoint {
            Some((h, a)) => Some((h@, a@)),
            None => None,
        },
        views(rtts@),
    ));
    out
}

/// Law: a reply is matched to at most one probe: if it matches the probe
/// with identifier `pid1` and sequence number `seq1` and also the one with
/// `pid2` and `seq2`, the two probes are the same. A reply to an earlier
/// probe is never taken as the answer to a later one.
pub proof fn lemma_reply_matches_one_probe(b: Seq<u8>, pid1: u16, seq1: u16, pid2: u16, seq2: u16)
    requires
        spec_classify(b, pid1, seq1) is Matched,
        spec_classify(b, pid2, seq2) is Matched,
    ensures
        pid1 == pid2,
        seq1 == seq2,
{
}

} // verus!
