//! The one interpreted packet payload: a ping probe carrying a timestamp
//! and, optionally, a reported server address and port.

use vstd::prelude::*;
use vstd::slice::{slice_subrange, slice_to_vec};
use vstd::utf8::{decode_utf8, encode_utf8, encode_utf8_decode_utf8, encode_utf8_valid_utf8,
    valid_utf8};
use crate::bytes::{be_bytes, be_val, lemma_be_bytes_len, lemma_be_val_bound,
    lemma_be_val_of_be_bytes, lemma_pow256_small, push_be, read_be};

verus! {

/// A decoded ping payload. The address and port are either both present or
/// both absent: a payload that ends after the timestamp carries neither.
#[derive(Debug, Clone)]
pub struct PingPacket {
    pub timestamp: u64,
    pub server_ip: Option<String>,
    pub server_port: Option<u16>,
}

/// The mathematical shape of a ping payload: the address as a character
/// sequence rather than heap text.
pub struct PingView {
    pub timestamp: u64,
    pub server_ip: Option<Seq<char>>,
    pub server_port: Option<u16>,
}

impl View for PingPacket {
    type V = PingView;

    open spec fn view(&self) -> PingView {
        PingView {
            timestamp: self.timestamp,
            server_ip: match self.server_ip {
                Option::Some(ref s) => Option::Some(s@),
                Option::None => Option::None,
            },
            server_port: self.server_port,
        }
    }
}

/// What a ping payload byte sequence decodes to, if anything: an eight-byte
/// big-endian timestamp, then either nothing, or a two-byte signed length,
/// that many bytes of UTF-8 address text, and a two-byte port. A negative
/// length, missing bytes, or invalid text make the whole payload
/// undecodable.
pub open spec fn spec_read_ping(b: Seq<u8>) -> Option<PingView> {
    if b.len() < 8 {
        Option::None
    } else {
        let ts = be_val(b.subrange(0, 8)) as u64;
        if b.len() == 8 {
            Option::Some(
                PingView { timestamp: ts, server_ip: Option::None, server_port: Option::None },
            )
        } else if b.len() < 10 {
            Option::None
        } else {
            let ip_len = be_val(b.subrange(8, 10));
            if ip_len >= 0x8000 {
                Option::None
            } else if b.len() < 12 + ip_len {
                Option::None
            } else {
                let ip_bytes = b.subrange(10, 10 + ip_len as int);
                if !valid_utf8(ip_bytes) {
                    Option::None
                } else {
                    Option::Some(
                        PingView {
                            timestamp: ts,
                            server_ip: Option::Some(decode_utf8(ip_bytes)),
                            server_port: Option::Some(
                                be_val(b.subrange(10 + ip_len as int, 12 + ip_len as int)) as u16,
                            ),
                        },
                    )
                }
            }
        }
    }
}

/// The encoding of a ping payload, inverse of `spec_read_ping` on
/// encodable payloads.
pub open spec fn spec_encode_ping(p: PingView) -> Seq<u8> {
    let head = be_bytes(p.timestamp as nat, 8);
    match (p.server_ip, p.server_port) {
        (Option::Some(ip), Option::Some(port)) => head + be_bytes(encode_utf8(ip).len(), 2)
            + encode_utf8(ip) + be_bytes(port as nat, 2),
        _ => head,
    }
}

/// A ping payload has a wire encoding exactly when its address and port are
/// both absent, or both present with the address no longer than the signed
/// two-byte length prefix can say.
pub open spec fn spec_ping_encodable(p: PingView) -> bool {
    match (p.server_ip, p.server_port) {
        (Option::None, Option::None) => true,
        (Option::Some(ip), Option::Some(_)) => encode_utf8(ip).len() <= 0x7FFF,
        _ => false,
    }
}

/// Relies on `String::from_utf8`: it returns `Ok` exactly on bytes that are
/// valid UTF-8 and yields the characters they encode; `valid_utf8` and
/// `decode_utf8` are vstd's model of that encoding.
#[verifier::external_body]
fn utf8_to_string(bytes: Vec<u8>) -> (r: Option<String>)
    ensures
        r is Some <==> valid_utf8(bytes@),
        r matches Some(s) ==> s@ == decode_utf8(bytes@),
{
    String::from_utf8(bytes).ok()
}

impl PingPacket {
    /// Decodes the ping payload that starts at `start` in `data` and runs to
    /// the end of the buffer. Any shortfall, negative length or text error
    /// yields `None`: the payload is absent, never an error.
    pub fn read_from(data: &[u8], start: usize) -> (r: Option<PingPacket>)
        requires
            start <= data@.len(),
        ensures
            r is Some <==> spec_read_ping(data@.skip(start as int)) is Some,
            r matches Some(p) ==> Option::Some(p@) == spec_read_ping(data@.skip(start as int)),
    {
        let ghost tail = data@.skip(start as int);
        let len = data.len();
        let rem = len - start;
        if rem < 8 {
            return Option::None;
        }
        let ts_val = read_be(data, start, 8);
        proof {
            assert(data@.subrange(start as int, start as int + 8) =~= tail.subrange(0, 8));
            lemma_be_val_bound(tail.subrange(0, 8));
            lemma_pow256_small();
        }
        let timestamp: u64 = ts_val as u64;
        if rem == 8 {
            return Option::Some(
                PingPacket { timestamp, server_ip: Option::None, server_port: Option::None },
            );
        }
        if rem < 10 {
            return Option::None;
        }
        let raw_len = read_be(data, start + 8, 2);
        proof {
            assert(data@.subrange(start as int + 8, start as int + 10) =~= tail.subrange(8, 10));
        }
        if raw_len >= 0x8000 {
            return Option::None;
        }
        let ip_len = raw_len as usize;
        if rem < 12 + ip_len {
            return Option::None;
        }
        let ip_slice = slice_subrange(data, start + 10, start + 10 + ip_len);
        proof {
            assert(ip_slice@ =~= tail.subrange(10, 10 + ip_len as int));
        }
        let ip_bytes = slice_to_vec(ip_slice);
        let server_ip = match utf8_to_string(ip_bytes) {
            Option::Some(s) => s,
            Option::None => {
                return Option::None;
            },
        };
        let port_val = read_be(data, start + 10 + ip_len, 2);
        proof {
            assert(data@.subrange(
                start as int + 10 + ip_len as int,
                start as int + 12 + ip_len as int,
            ) =~= tail.subrange(10 + ip_len as int, 12 + ip_len as int));
        }
        Option::Some(
            PingPacket {
                timestamp,
                server_ip: Option::Some(server_ip),
                server_port: Option::Some(port_val as u16),
            },
        )
    }

    /// Encodes this payload so that decoding gives it back. Returns `None`
    /// exactly when no encoding exists: address and port do not come
    /// together, or the address text overruns the two-byte length prefix.
    pub fn encode(&self) -> (r: Option<Vec<u8>>)
        ensures
            r is Some <==> spec_ping_encodable(self@),
            r matches Some(v) ==> v@ == spec_encode_ping(self@) && spec_read_ping(v@)
                == Option::Some(self@),
    {
        proof {
            lemma_pow256_small();
        }
        let mut out: Vec<u8> = Vec::new();
        push_be(&mut out, self.timestamp as u128, 8);
        let r = match (&self.server_ip, &self.server_port) {
            (Option::None, Option::None) => {
                proof {
                    assert(out@ =~= spec_encode_ping(self@));
                }
                Option::Some(out)
            },
            (Option::Some(ip), Option::Some(port)) => {
                let ip_bytes: &[u8] = ip.as_str().as_bytes();
                if ip_bytes.len() > 0x7FFF {
                    return Option::None;
                }
                push_be(&mut out, ip_bytes.len() as u128, 2);
                out.extend_from_slice(ip_bytes);
                push_be(&mut out, *port as u128, 2);
                proof {
                    assert(out@ =~= spec_encode_ping(self@));
                }
                Option::Some(out)
            },
            _ => Option::None,
        };
        proof {
            if spec_ping_encodable(self@) {
                lemma_ping_round_trip(self@);
            }
        }
        r
    }
}

/// A ping payload that holds only the eight-byte timestamp decodes to that
/// timestamp, with the address and the port both absent.
pub proof fn lemma_ping_timestamp_only(b: Seq<u8>)
    requires
        b.len() == 8,
    ensures
        spec_read_ping(b) == Option::Some(
            PingView {
                timestamp: be_val(b.subrange(0, 8)) as u64,
                server_ip: Option::None,
                server_port: Option::None,
            },
        ),
{
}

/// Round trip: decoding an encoded ping payload gives back every field
/// exactly.
pub proof fn lemma_ping_round_trip(p: PingView)
    requires
        spec_ping_encodable(p),
    ensures
        spec_read_ping(spec_encode_ping(p)) == Option::Some(p),
{
    lemma_pow256_small();
    let head = be_bytes(p.timestamp as nat, 8);
    lemma_be_bytes_len(p.timestamp as nat, 8);
    lemma_be_val_of_be_bytes(p.timestamp as nat, 8);
    match (p.server_ip, p.server_port) {
        (Option::None, Option::None) => {
            let s = spec_encode_ping(p);
            assert(s.subrange(0, 8) =~= head);
        },
        (Option::Some(ip), Option::Some(port)) => {
            let s = spec_encode_ping(p);
            let ip_bytes = encode_utf8(ip);
            let ip_len = ip_bytes.len();
            let lenpre = be_bytes(ip_len, 2);
            let portb = be_bytes(port as nat, 2);
            lemma_be_bytes_len(ip_len, 2);
            lemma_be_bytes_len(port as nat, 2);
            lemma_be_val_of_be_bytes(ip_len, 2);
            lemma_be_val_of_be_bytes(port as nat, 2);
            assert(s.len() == 12 + ip_len);
            assert(s.subrange(0, 8) =~= head);
            assert(s.subrange(8, 10) =~= lenpre);
            assert(s.subrange(10, 10 + ip_len as int) =~= ip_bytes);
            assert(s.subrange(10 + ip_len as int, 12 + ip_len as int) =~= portb);
            encode_utf8_valid_utf8(ip);
            encode_utf8_decode_utf8(ip);
        },
        _ => {
        },
    }
}

} // verus!
