//! ICMP echo packet construction and parsing.
//!
//! Packets follow the RFC 792 / RFC 4443 echo layout: one byte of type, one
//! byte of code, a 16-bit checksum, a 16-bit identifier, a 16-bit sequence
//! number, then the payload. The checksum is the RFC 1071 internet checksum:
//! the ones'-complement of the ones'-complement sum of the message read as
//! big-endian 16-bit words (a trailing odd byte is padded with zero), taken
//! with the checksum field itself set to zero.

use vstd::prelude::*;
use vstd::pervasive::VecAdditionalExecFns;
use vstd::slice::slice_subrange;

use crate::addr::AddrFamily;
use crate::addr::IpAddress;

verus! {

/// No ICMP message is longer than the largest IP datagram.
pub const MAX_PACKET: usize = 65535;

/// The high byte of a 16-bit big-endian value.
pub open spec fn hi16(x: u16) -> u8 {
    (x / 256) as u8
}

/// The low byte of a 16-bit big-endian value.
pub open spec fn lo16(x: u16) -> u8 {
    (x % 256) as u8
}

/// The 16-bit value encoded big-endian by the bytes `h`, `l`.
pub open spec fn u16_of(h: u8, l: u8) -> u16 {
    (h * 256 + l) as u16
}

/// The sum of the first `n` big-endian 16-bit words of `data`.
pub open spec fn words_sum(data: Seq<u8>, n: nat) -> int
    decreases n,
{
    if n == 0 {
        0
    } else {
        words_sum(data, (n - 1) as nat) + data[2 * (n - 1)] * 256 + data[2 * (n - 1) + 1]
    }
}

/// The full 16-bit-word sum of `data`, a trailing odd byte padded with zero.
pub open spec fn sum16(data: Seq<u8>) -> int {
    words_sum(data, (data.len() / 2) as nat) + if data.len() % 2 == 1 {
        data[data.len() - 1] * 256
    } else {
        0
    }
}

/// Folds the carries of a ones'-complement sum back in until the value fits
/// in 16 bits.
pub open spec fn fold16(x: int) -> int
    decreases x,
{
    if x <= 0xFFFF {
        x
    } else {
        fold16(x % 0x10000 + x / 0x10000)
    }
}

/// The RFC 1071 internet checksum of `data`.
pub open spec fn checksum16(data: Seq<u8>) -> u16 {
    (0xFFFF - fold16(sum16(data))) as u16
}

proof fn lemma_words_sum_bound(data: Seq<u8>, n: nat)
    ensures
        0 <= words_sum(data, n) <= n * 65535,
    decreases n,
{
    if n > 0 {
        lemma_words_sum_bound(data, (n - 1) as nat);
    }
}

proof fn lemma_sum16_bound(data: Seq<u8>)
    requires
        data.len() <= 65535,
    ensures
        0 <= sum16(data) < 0x8000_0000,
{
    lemma_words_sum_bound(data, (data.len() / 2) as nat);
}

proof fn lemma_fold16_bound(x: int)
    requires
        0 <= x,
    ensures
        0 <= fold16(x) <= 0xFFFF,
    decreases x,
{
    if x > 0xFFFF {
        lemma_fold16_bound(x % 0x10000 + x / 0x10000);
    }
}

/// Computes the RFC 1071 internet checksum of `data`.
pub fn checksum(data: &[u8]) -> (r: u16)
    requires
        data@.len() <= 65535,
    ensures
        r == checksum16(data@),
{
    let n: usize = data.len() / 2;
    let mut acc: u32 = 0;
    let mut i: usize = 0;
    while i < n
        invariant
            i <= n,
            n == data@.len() / 2,
            data@.len() <= 65535,
            acc == words_sum(data@, i as nat),
        decreases n - i,
    {
        proof {
            lemma_words_sum_bound(data@, (i + 1) as nat);
            lemma_words_sum_bound(data@, i as nat);
        }
        let w: u32 = (data[2 * i] as u32) * 256 + (data[2 * i + 1] as u32);
        acc = acc + w;
        i = i + 1;
    }
    if data.len() % 2 == 1 {
        proof {
            lemma_words_sum_bound(data@, (data@.len() / 2) as nat);
        }
        acc = acc + (data[data.len() - 1] as u32) * 256;
    }
    proof {
        lemma_sum16_bound(data@);
    }
    let ghost total: int = sum16(data@);
    assert(acc == total);
    while acc > 0xFFFF
        invariant
            0 <= acc,
            fold16(acc as int) == fold16(total),
        decreases acc,
    {
        let folded: u32 = acc % 0x10000 + acc / 0x10000;
        assert(fold16(folded as int) == fold16(acc as int));
        assert(folded < acc) by {
            vstd::arithmetic::div_mod::lemma_fundamental_div_mod(acc as int, 0x10000);
        }
        acc = folded;
    }
    assert(fold16(total) == acc);
    (0xFFFF - acc) as u16
}

/// A parsed ICMP message header: type, code, identifier, sequence number.
#[derive(Clone, Copy, Debug, PartialEq, Eq, Structural)]
pub struct IcmpMsg {
    pub icmp_type: u8,
    pub code: u8,
    pub ident: u16,
    pub sequence: u16,
}

/// The ICMP echo-request type for a family: 8 for IPv4, 128 for IPv6.
pub open spec fn echo_request_type(family: AddrFamily) -> u8 {
    match family {
        AddrFamily::V4 => 8,
        AddrFamily::V6 => 128,
    }
}

/// The ICMP echo-reply type for a family: 0 for IPv4, 129 for IPv6.
pub open spec fn echo_reply_type(family: AddrFamily) -> u8 {
    match family {
        AddrFamily::V4 => 0,
        AddrFamily::V6 => 129,
    }
}

/// The ICMP time-exceeded type for a family: 11 for IPv4, 3 for IPv6.
pub open spec fn time_exceeded_type(family: AddrFamily) -> u8 {
    match family {
        AddrFamily::V4 => 11,
        AddrFamily::V6 => 3,
    }
}

/// `msg` with its checksum field (bytes 2 and 3) set to zero.
pub open spec fn zero_checksum(msg: Seq<u8>) -> Seq<u8> {
    msg.update(2, 0u8).update(3, 0u8)
}

/// Whether `msg` carries a correct internet checksum: the stored field equals
/// the checksum of the message with the field itself zeroed.
pub open spec fn icmp_checksum_ok_spec(msg: Seq<u8>) -> bool {
    &&& msg.len() >= 8
    &&& msg.len() <= MAX_PACKET
    &&& u16_of(msg[2], msg[3]) == checksum16(zero_checksum(msg))
}

/// An echo request before its checksum is filled in.
pub open spec fn echo_zeroed(family: AddrFamily, ident: u16, sequence: u16, payload: Seq<u8>) -> Seq<
    u8,
> {
    seq![
        echo_request_type(family),
        0u8,
        0u8,
        0u8,
        hi16(ident),
        lo16(ident),
        hi16(sequence),
        lo16(sequence),
    ] + payload
}

/// The full serialized echo request: header and payload with the internet
/// checksum written into bytes 2 and 3.
pub open spec fn echo_request_spec(
    family: AddrFamily,
    ident: u16,
    sequence: u16,
    payload: Seq<u8>,
) -> Seq<u8> {
    let z = echo_zeroed(family, ident, sequence, payload);
    let c = checksum16(z);
    z.update(2, hi16(c)).update(3, lo16(c))
}

/// What parsing an ICMP message yields: the header fields if the message is
/// long enough and its checksum verifies, nothing otherwise.
pub open spec fn parse_icmp_spec(msg: Seq<u8>) -> Option<IcmpMsg> {
    if icmp_checksum_ok_spec(msg) {
        Some(
            IcmpMsg {
                icmp_type: msg[0],
                code: msg[1],
                ident: u16_of(msg[4], msg[5]),
                sequence: u16_of(msg[6], msg[7]),
            },
        )
    } else {
        None
    }
}

/// Reads the big-endian 16-bit value at offset `i`.
fn read_u16(b: &[u8], i: usize) -> (r: u16)
    requires
        i + 1 < b@.len(),
    ensures
        r == u16_of(b@[i as int], b@[i as int + 1]),
{
    (b[i] as u16) * 256 + (b[i + 1] as u16)
}

/// Serializes one ICMP echo request: type and code, checksum, identifier,
/// sequence number, payload, bit-exact to the RFC 792 / RFC 4443 layout.
pub fn build_echo_request(family: AddrFamily, ident: u16, sequence: u16, payload: &[u8]) -> (r: Vec<
    u8,
>)
    requires
        payload@.len() + 8 <= MAX_PACKET,
    ensures
        r@ == echo_request_spec(family, ident, sequence, payload@),
        icmp_checksum_ok_spec(r@),
        parse_icmp_spec(r@) == Some(
            IcmpMsg { icmp_type: echo_request_type(family), code: 0, ident, sequence },
        ),
{
    let t: u8 = match family {
        AddrFamily::V4 => 8,
        AddrFamily::V6 => 128,
    };
    let mut v: Vec<u8> = Vec::new();
    v.push(t);
    v.push(0);
    v.push(0);
    v.push(0);
    v.push((ident / 256) as u8);
    v.push((ident % 256) as u8);
    v.push((sequence / 256) as u8);
    v.push((sequence % 256) as u8);
    let mut i: usize = 0;
    while i < payload.len()
        invariant
            i <= payload@.len(),
            payload@.len() + 8 <= MAX_PACKET,
            v@ == echo_zeroed(family, ident, sequence, payload@.take(i as int)),
        decreases payload@.len() - i,
    {
        v.push(payload[i]);
        i = i + 1;
        proof {
            assert(v@ =~= echo_zeroed(family, ident, sequence, payload@.take(i as int)));
        }
    }
    proof {
        assert(payload@.take(payload@.len() as int) =~= payload@);
    }
    let c: u16 = checksum(v.as_slice());
    v.set(2, (c / 256) as u8);
    v.set(3, (c % 256) as u8);
    proof {
        lemma_echo_request_round_trip(family, ident, sequence, payload@);
        assert(v@ =~= echo_request_spec(family, ident, sequence, payload@));
    }
    v
}

/// The checksum of a well-formed echo request validates against the same
/// serialization and checksum logic that built it, and parsing recovers
/// exactly the fields that went in.
pub proof fn lemma_echo_request_round_trip(
    family: AddrFamily,
    ident: u16,
    sequence: u16,
    payload: Seq<u8>,
)
    requires
        payload.len() + 8 <= MAX_PACKET,
    ensures
        icmp_checksum_ok_spec(echo_request_spec(family, ident, sequence, payload)),
        parse_icmp_spec(echo_request_spec(family, ident, sequence, payload)) == Some(
            IcmpMsg { icmp_type: echo_request_type(family), code: 0, ident, sequence },
        ),
{
    let z = echo_zeroed(family, ident, sequence, payload);
    let c = checksum16(z);
    let p = echo_request_spec(family, ident, sequence, payload);
    assert(zero_checksum(p) =~= z);
    assert(u16_of(hi16(c), lo16(c)) == c) by {
        vstd::arithmetic::div_mod::lemma_fundamental_div_mod(c as int, 256);
    };
    assert(u16_of(hi16(ident), lo16(ident)) == ident) by {
        vstd::arithmetic::div_mod::lemma_fundamental_div_mod(ident as int, 256);
    };
    assert(u16_of(hi16(sequence), lo16(sequence)) == sequence) by {
        vstd::arithmetic::div_mod::lemma_fundamental_div_mod(sequence as int, 256);
    };
}

/// Checks length and checksum of an inbound ICMP message and parses its
/// header fields.
pub fn parse_icmp(msg: &[u8]) -> (r: Option<IcmpMsg>)
    ensures
        r == parse_icmp_spec(msg@),
{
    if msg.len() < 8 || msg.len() > MAX_PACKET {
        return None;
    }
    let mut z: Vec<u8> = Vec::new();
    let mut i: usize = 0;
    while i < msg.len()
        invariant
            i <= msg@.len(),
            z@ == msg@.take(i as int),
        decreases msg@.len() - i,
    {
        z.push(msg[i]);
        i = i + 1;
        proof {
            assert(z@ =~= msg@.take(i as int));
        }
    }
    proof {
        assert(z@ =~= msg@);
    }
    z.set(2, 0);
    z.set(3, 0);
    proof {
        assert(z@ =~= zero_checksum(msg@));
    }
    let c: u16 = checksum(z.as_slice());
    let stored: u16 = read_u16(msg, 2);
    if stored != c {
        return None;
    }
    Some(
        IcmpMsg {
            icmp_type: msg[0],
            code: msg[1],
            ident: read_u16(msg, 4),
            sequence: read_u16(msg, 6),
        },
    )
}

/// One inbound reply after header validation: the sender's address, the
/// remaining time-to-live of the enclosing IP header, and the ICMP fields.
#[derive(Clone, Copy, Debug, PartialEq, Eq, Structural)]
pub struct ParsedReply {
    pub source: IpAddress,
    pub ttl: u8,
    pub msg: IcmpMsg,
}

/// The echo-request header a router quoted inside a time-exceeded message:
/// the original destination and the identifier and sequence that were sent.
#[derive(Clone, Copy, Debug, PartialEq, Eq, Structural)]
pub struct EmbeddedEcho {
    pub dest: u32,
    pub ident: u16,
    pub sequence: u16,
}

/// Reads the big-endian 32-bit value at offset `i`.
fn read_u32(b: &[u8], i: usize) -> (r: u32)
    requires
        i + 3 < b@.len(),
    ensures
        r == IpAddress::v4_value(b@[i as int], b@[i as int + 1], b@[i as int + 2], b@[i as int + 3]),
{
    (b[i] as u32) * 0x1000000 + (b[i + 1] as u32) * 0x10000 + (b[i + 2] as u32) * 0x100 + (b[i + 3]
        as u32)
}

/// What validating one inbound IPv4 datagram yields: the source address and
/// TTL from the IP header and the parsed ICMP message, provided the datagram
/// is a well-formed ICMP-carrying IPv4 packet whose checksum verifies.
pub open spec fn parse_reply_v4_spec(b: Seq<u8>) -> Option<ParsedReply> {
    if b.len() < 20 {
        None
    } else {
        let hlen = (b[0] % 16) * 4;
        if b[0] / 16 != 4 || b[0] % 16 < 5 || b.len() < hlen + 8 || b[9] != 1 {
            None
        } else {
            match parse_icmp_spec(b.skip(hlen as int)) {
                Some(m) => Some(
                    ParsedReply {
                        source: IpAddress::V4(IpAddress::v4_value(b[12], b[13], b[14], b[15])),
                        ttl: b[8],
                        msg: m,
                    },
                ),
                None => None,
            }
        }
    }
}

/// Validates one inbound IPv4 datagram (version, header length, protocol,
/// ICMP checksum) and parses the reply it carries; anything malformed is
/// reported as nothing, to be discarded silently.
pub fn parse_reply_v4(b: &[u8]) -> (r: Option<ParsedReply>)
    ensures
        r == parse_reply_v4_spec(b@),
{
    if b.len() < 20 {
        return None;
    }
    let first: u8 = b[0];
    let hlen: usize = (first as usize % 16) * 4;
    if first / 16 != 4 || first % 16 < 5 || b.len() < hlen + 8 || b[9] != 1 {
        return None;
    }
    let icmp: &[u8] = slice_subrange(b, hlen, b.len());
    proof {
        assert(icmp@ =~= b@.skip(hlen as int));
    }
    match parse_icmp(icmp) {
        Some(m) => Some(
            ParsedReply {
                source: IpAddress::V4(read_u32(b, 12)),
                ttl: b[8],
                msg: m,
            },
        ),
        None => None,
    }
}

/// What extracting the quoted echo request from a time-exceeded ICMP message
/// yields: the original destination, identifier and sequence, provided the
/// quoted bytes hold a well-formed IPv4 header followed by an ICMP
/// echo-request header.
pub open spec fn embedded_echo_spec(icmp: Seq<u8>) -> Option<EmbeddedEcho> {
    if icmp.len() < 36 {
        None
    } else {
        let inner = icmp.skip(8);
        let hlen = (inner[0] % 16) * 4;
        if inner[0] / 16 != 4 || inner[0] % 16 < 5 || inner.len() < hlen + 8 || inner[9] != 1 {
            None
        } else {
            let quoted = inner.skip(hlen as int);
            if quoted[0] == 8 && quoted[1] == 0 {
                Some(
                    EmbeddedEcho {
                        dest: IpAddress::v4_value(inner[16], inner[17], inner[18], inner[19]),
                        ident: u16_of(quoted[4], quoted[5]),
                        sequence: u16_of(quoted[6], quoted[7]),
                    },
                )
            } else {
                None
            }
        }
    }
}

/// Extracts the quoted echo request from an IPv4 time-exceeded message, so
/// that a router-hop report can be matched back to the probe it answers.
pub fn extract_embedded_echo(icmp: &[u8]) -> (r: Option<EmbeddedEcho>)
    ensures
        r == embedded_echo_spec(icmp@),
{
    if icmp.len() < 36 {
        return None;
    }
    let inner: &[u8] = slice_subrange(icmp, 8, icmp.len());
    proof {
        assert(inner@ =~= icmp@.skip(8));
    }
    let first: u8 = inner[0];
    let hlen: usize = (first as usize % 16) * 4;
    if first / 16 != 4 || first % 16 < 5 || inner.len() < hlen + 8 || inner[9] != 1 {
        return None;
    }
    let quoted: &[u8] = slice_subrange(inner, hlen, inner.len());
    proof {
        assert(quoted@ =~= inner@.skip(hlen as int));
    }
    if quoted[0] == 8 && quoted[1] == 0 {
        Some(
            EmbeddedEcho {
                dest: read_u32(inner, 16),
                ident: read_u16(quoted, 4),
                sequence: read_u16(quoted, 6),
            },
        )
    } else {
        None
    }
}

} // verus!
