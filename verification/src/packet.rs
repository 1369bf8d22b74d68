//! Wire framing of a client datagram: the magic constant, the packet type,
//! the session secret, a reserved field, and the optional decoded payload.

use vstd::prelude::*;
use vstd::slice::slice_index_get;
use crate::bytes::{be_bytes, be_val, lemma_be_val_bound, lemma_be_val_of_be_bytes,
    lemma_pow256_small, push_be, read_be};
use crate::ping::{spec_encode_ping, spec_ping_encodable, spec_read_ping, PingPacket, PingView};

verus! {

/// The fixed four-byte big-endian constant that opens every well-formed
/// datagram. A buffer that does not start with it is rejected before the
/// secret is read.
pub const MAGIC_NUMBER: u32 = 0x4E90_04E9;

/// The 128-bit client-supplied token that keys the session table. It is a
/// routing key, not a credential: it is trusted as presented.
#[derive(Debug, Clone, Copy, PartialEq, Eq, Hash, Structural)]
pub struct SessionSecret {
    pub value: u128,
}

/// Why a datagram failed framing validation: the magic constant did not
/// match, or the buffer ended inside the fixed-size header.
#[derive(Debug, Clone, Copy, PartialEq, Eq, Structural)]
pub enum FramingError {
    BadMagic,
    Truncated,
}

/// The decoded payload variants; only the ping probe is interpreted.
#[derive(Debug, Clone)]
pub enum VoicePacket {
    Ping(PingPacket),
}

/// Mathematical shape of a decoded payload.
pub enum VoicePacketView {
    Ping(PingView),
}

impl View for VoicePacket {
    type V = VoicePacketView;

    open spec fn view(&self) -> VoicePacketView {
        match self {
            VoicePacket::Ping(p) => VoicePacketView::Ping(p@),
        }
    }
}

/// A validated datagram: the session secret, always present once framing
/// passed, and the payload when its type was recognized and it decoded.
#[derive(Debug, Clone)]
pub struct VoicePacketWrapper {
    pub secret: SessionSecret,
    pub packet: Option<VoicePacket>,
}

/// Mathematical shape of a validated datagram.
pub struct WrapperView {
    pub secret: u128,
    pub packet: Option<VoicePacketView>,
}

impl View for VoicePacketWrapper {
    type V = WrapperView;

    open spec fn view(&self) -> WrapperView {
        WrapperView {
            secret: self.secret.value,
            packet: match self.packet {
                Option::Some(ref p) => Option::Some(p@),
                Option::None => Option::None,
            },
        }
    }
}

/// The first four bytes are present and equal the magic constant.
pub open spec fn spec_magic_ok(b: Seq<u8>) -> bool {
    b.len() >= 4 && be_val(b.subrange(0, 4)) == MAGIC_NUMBER
}

/// The whole 29-byte fixed header is present and opens with the magic
/// constant: magic (4), packet type (1), secret (16), reserved (8).
pub open spec fn spec_framing_ok(b: Seq<u8>) -> bool {
    b.len() >= 29 && spec_magic_ok(b)
}

/// The session secret carried at bytes 5..21 of a framed datagram.
pub open spec fn spec_secret(b: Seq<u8>) -> u128 {
    be_val(b.subrange(5, 21)) as u128
}

/// The payload a type byte and the bytes after the header decode to:
/// present exactly when the type is recognized and its payload decodes.
pub open spec fn spec_payload_of(packet_type: u8, b: Seq<u8>) -> Option<VoicePacketView> {
    if packet_type == 1 {
        match spec_read_ping(b) {
            Option::Some(p) => Option::Some(VoicePacketView::Ping(p)),
            Option::None => Option::None,
        }
    } else {
        Option::None
    }
}

/// The decoded payload of a framed datagram: its type byte applied to the
/// bytes after the 29-byte header. An unrecognized type or an undecodable
/// ping leaves it absent.
pub open spec fn spec_payload(b: Seq<u8>) -> Option<VoicePacketView> {
    spec_payload_of(b[4], b.skip(29))
}

/// What a raw buffer decodes to: a wrapper exactly when framing passes,
/// holding the secret and the optional payload.
pub open spec fn spec_decode(b: Seq<u8>) -> Option<WrapperView> {
    if spec_framing_ok(b) {
        Option::Some(WrapperView { secret: spec_secret(b), packet: spec_payload(b) })
    } else {
        Option::None
    }
}

/// Which framing error a rejected buffer reports: a present-but-wrong magic
/// constant is `BadMagic`; everything else that fails is a truncation.
pub open spec fn spec_framing_error(b: Seq<u8>) -> FramingError {
    if b.len() >= 4 && !spec_magic_ok(b) {
        FramingError::BadMagic
    } else {
        FramingError::Truncated
    }
}

impl VoicePacket {
    /// Decodes the payload of the given type from the bytes of `data` at
    /// `start` and after. Only type 1, the ping probe, is understood; any
    /// other type, and any ping that does not decode, yields `None`.
    pub fn deserialize(packet_type: u8, data: &[u8], start: usize) -> (r: Option<VoicePacket>)
        requires
            start <= data@.len(),
        ensures
            r is Some <==> spec_payload_of(packet_type, data@.skip(start as int)) is Some,
            r matches Some(p) ==> Option::Some(p@) == spec_payload_of(
                packet_type,
                data@.skip(start as int),
            ),
    {
        if packet_type == 1 {
            match PingPacket::read_from(data, start) {
                Option::Some(p) => Option::Some(VoicePacket::Ping(p)),
                Option::None => Option::None,
            }
        } else {
            Option::None
        }
    }
}

impl VoicePacketWrapper {
    /// Validates and decodes one datagram. Framing trouble is a hard
    /// failure; payload trouble degrades to an absent payload with the
    /// secret still usable for routing.
    pub fn try_from(data: &[u8]) -> (r: Result<VoicePacketWrapper, FramingError>)
        ensures
            r is Ok <==> spec_framing_ok(data@),
            r matches Ok(w) ==> Option::Some(w@) == spec_decode(data@),
            r matches Err(e) ==> e == spec_framing_error(data@),
    {
        let len = data.len();
        if len < 4 {
            return Result::Err(FramingError::Truncated);
        }
        let magic = read_be(data, 0, 4);
        if magic != MAGIC_NUMBER as u128 {
            return Result::Err(FramingError::BadMagic);
        }
        if len < 29 {
            return Result::Err(FramingError::Truncated);
        }
        let packet_type = *slice_index_get(data, 4);
        let secret_val = read_be(data, 5, 16);
        proof {
            lemma_be_val_bound(data@.subrange(5, 21));
            lemma_pow256_small();
        }
        let packet = VoicePacket::deserialize(packet_type, data, 29);
        Result::Ok(VoicePacketWrapper { secret: SessionSecret { value: secret_val }, packet })
    }
}

/// Builds a complete ping datagram for the given secret: magic constant,
/// type byte 1, the secret, a zero reserved field, then the encoded
/// payload. Decoding gives back exactly the secret and the payload.
pub fn encode_datagram(secret: &SessionSecret, ping: &PingPacket) -> (r: Option<Vec<u8>>)
    ensures
        r is Some <==> spec_ping_encodable(ping@),
        r matches Some(v) ==> v@ == be_bytes(MAGIC_NUMBER as nat, 4) + seq![1u8] + be_bytes(
            secret.value as nat,
            16,
        ) + be_bytes(0, 8) + spec_encode_ping(ping@),
        r matches Some(v) ==> spec_decode(v@) == Option::Some(
            WrapperView {
                secret: secret.value,
                packet: Option::Some(VoicePacketView::Ping(ping@)),
            },
        ),
{
    let mut payload = match ping.encode() {
        Option::Some(p) => p,
        Option::None => {
            return Option::None;
        },
    };
    proof {
        lemma_pow256_small();
    }
    let mut out: Vec<u8> = Vec::new();
    push_be(&mut out, MAGIC_NUMBER as u128, 4);
    out.push(1u8);
    push_be(&mut out, secret.value, 16);
    push_be(&mut out, 0u128, 8);
    let ghost header = out@;
    out.append(&mut payload);
    proof {
        let b = out@;
        crate::bytes::lemma_be_bytes_len(MAGIC_NUMBER as nat, 4);
        crate::bytes::lemma_be_bytes_len(secret.value as nat, 16);
        crate::bytes::lemma_be_bytes_len(0, 8);
        assert(header.len() == 29);
        assert(b =~= be_bytes(MAGIC_NUMBER as nat, 4) + seq![1u8] + be_bytes(
            secret.value as nat,
            16,
        ) + be_bytes(0, 8) + spec_encode_ping(ping@));
        assert(b.subrange(0, 4) =~= be_bytes(MAGIC_NUMBER as nat, 4));
        lemma_be_val_of_be_bytes(MAGIC_NUMBER as nat, 4);
        assert(b[4] == 1);
        assert(b.subrange(5, 21) =~= be_bytes(secret.value as nat, 16));
        lemma_be_val_of_be_bytes(secret.value as nat, 16);
        assert(b.skip(29) =~= spec_encode_ping(ping@));
    }
    Option::Some(out)
}

/// A buffer whose first four bytes are missing or differ from the magic
/// constant never decodes: no wrapper, and so no secret, comes out of it.
pub proof fn lemma_bad_magic_rejected(b: Seq<u8>)
    requires
        b.len() < 4 || be_val(b.subrange(0, 4)) != MAGIC_NUMBER,
    ensures
        spec_decode(b) is None,
{
}

/// A well-formed header with an unrecognized packet type still decodes:
/// the secret is the one in the header and the payload is absent.
pub proof fn lemma_unknown_type_still_routable(b: Seq<u8>)
    requires
        spec_framing_ok(b),
        b[4] != 1,
    ensures
        spec_decode(b) == Option::Some(
            WrapperView { secret: spec_secret(b), packet: Option::None },
        ),
{
}

} // verus!
