//! The datagrams that two peers exchange, and their encoding.
//!
//! A packet is encoded field by field, in declaration order: fixed-width
//! integers little endian, everything of variable size behind its length,
//! and a union behind the index of its variant. What travels is that
//! encoding *reversed*, because readers consume a buffer from its end.
pub mod auth;
pub mod file_content;
pub mod headers;
pub mod round_trip;

pub use auth::{Auth, AuthResponse, AuthView};
pub use file_content::{FileContent, FileContentView};
pub use headers::{Headers, HeadersView};

use crate::wire::{
    enc_ids, enc_len, ids_to_bytes, len_from_bytes, len_to_bytes, read_ids, read_len, read_u128,
    read_u16, stream, take_ids, u128_from_bytes, u128_to_bytes, u16_from_bytes, u16_to_bytes,
    view_of,
};
use auth::{enc_auth, enc_auth_response, read_auth, read_auth_response};
use file_content::{enc_file_content, read_file_content};
use headers::{enc_headers, read_headers};
use vstd::bytes::*;
use vstd::prelude::*;
use vstd::slice::slice_to_vec;

verus! {

/// What a packet carries.
#[derive(Debug, PartialEq, Clone)]
pub enum Packets {
    Auth(Auth),
    AuthResponse(AuthResponse),
    Headers(Headers),
    FileContent(FileContent),
    Finished(u128),
    Tick(u128),
}

/// A [`Packets`] seen through the views of its parts.
pub enum PacketsView {
    Auth(AuthView),
    AuthResponse(AuthResponse),
    Headers(HeadersView),
    FileContent(FileContentView),
    Finished(u128),
    Tick(u128),
}

impl View for Packets {
    type V = PacketsView;

    open spec fn view(&self) -> PacketsView {
        match *self {
            Packets::Auth(a) => PacketsView::Auth(a@),
            Packets::AuthResponse(r) => PacketsView::AuthResponse(r),
            Packets::Headers(h) => PacketsView::Headers(h@),
            Packets::FileContent(f) => PacketsView::FileContent(f@),
            Packets::Finished(session) => PacketsView::Finished(session),
            Packets::Tick(session) => PacketsView::Tick(session),
        }
    }
}

/// One datagram: its identifier, the identifiers its sender has lately
/// received (the acknowledgment window), and what it carries.
#[derive(Debug, PartialEq, Clone)]
pub struct Packet {
    pub id: u16,
    pub packets: Vec<u16>,
    pub packet: Packets,
}

/// A [`Packet`] seen through the views of its parts.
pub struct PacketView {
    pub id: u16,
    pub packets: Seq<u16>,
    pub packet: PacketsView,
}

impl View for Packet {
    type V = PacketView;

    open spec fn view(&self) -> PacketView {
        PacketView { id: self.id, packets: self.packets@, packet: self.packet@ }
    }
}

/// Malformed bytes: they are no packet.
#[derive(Debug, PartialEq, Eq, Clone, Copy)]
pub enum DecodeError {
    InvalidPacket,
}

/// The index under which a variant is encoded.
pub open spec fn variant_index(b: PacketsView) -> nat {
    match b {
        PacketsView::Auth(_) => 0,
        PacketsView::AuthResponse(_) => 1,
        PacketsView::Headers(_) => 2,
        PacketsView::FileContent(_) => 3,
        PacketsView::Finished(_) => 4,
        PacketsView::Tick(_) => 5,
    }
}

/// Encoding of the fields of a variant.
pub open spec fn enc_fields(b: PacketsView) -> Seq<u8> {
    match b {
        PacketsView::Auth(a) => enc_auth(a),
        PacketsView::AuthResponse(r) => enc_auth_response(r),
        PacketsView::Headers(h) => enc_headers(h),
        PacketsView::FileContent(f) => enc_file_content(f),
        PacketsView::Finished(session) => spec_u128_to_le_bytes(session),
        PacketsView::Tick(session) => spec_u128_to_le_bytes(session),
    }
}

/// Encoding of what a packet carries: the variant's index, then its fields.
pub open spec fn enc_body(b: PacketsView) -> Seq<u8> {
    enc_len(variant_index(b)) + enc_fields(b)
}

/// Reads what a packet carries. An index that names no variant leaves the
/// stream behind the index.
pub open spec fn read_body(s: Seq<u8>) -> (Option<PacketsView>, Seq<u8>) {
    let (tag, s1) = read_len(s);
    if tag is None {
        (None, s1)
    } else if tag->0 == 0 {
        let (a, s2) = read_auth(s1);
        (
            match a {
                Some(a) => Some(PacketsView::Auth(a)),
                None => None,
            },
            s2,
        )
    } else if tag->0 == 1 {
        let (r, s2) = read_auth_response(s1);
        (
            match r {
                Some(r) => Some(PacketsView::AuthResponse(r)),
                None => None,
            },
            s2,
        )
    } else if tag->0 == 2 {
        let (h, s2) = read_headers(s1);
        (
            match h {
                Some(h) => Some(PacketsView::Headers(h)),
                None => None,
            },
            s2,
        )
    } else if tag->0 == 3 {
        let (f, s2) = read_file_content(s1);
        (
            match f {
                Some(f) => Some(PacketsView::FileContent(f)),
                None => None,
            },
            s2,
        )
    } else if tag->0 == 4 {
        let (session, s2) = read_u128(s1);
        (
            match session {
                Some(session) => Some(PacketsView::Finished(session)),
                None => None,
            },
            s2,
        )
    } else if tag->0 == 5 {
        let (session, s2) = read_u128(s1);
        (
            match session {
                Some(session) => Some(PacketsView::Tick(session)),
                None => None,
            },
            s2,
        )
    } else {
        (None, s1)
    }
}

/// Encoding of a packet: identifier, acknowledgment window, then the body.
pub open spec fn enc_packet(p: PacketView) -> Seq<u8> {
    spec_u16_to_le_bytes(p.id) + enc_ids(p.packets) + enc_body(p.packet)
}

/// Reads a packet; stops at the first field that cannot be read.
pub open spec fn read_packet(s: Seq<u8>) -> (Option<PacketView>, Seq<u8>) {
    let (id, s1) = read_u16(s);
    let (packets, s2) = read_ids(s1);
    let (packet, s3) = read_body(s2);
    if id is None {
        (None, s1)
    } else if packets is None {
        (None, s2)
    } else if packet is None {
        (None, s3)
    } else {
        (Some(PacketView { id: id->0, packets: packets->0, packet: packet->0 }), s3)
    }
}

/// The bytes that travel for a packet: its encoding, last byte first.
pub open spec fn wire_bytes(p: PacketView) -> Seq<u8> {
    enc_packet(p).reverse()
}

/// The packet that a datagram holds, if it holds one. Bytes behind the
/// packet are ignored.
pub open spec fn decode_wire(wire: Seq<u8>) -> Option<PacketView> {
    read_packet(wire.reverse()).0
}

/// The bytes of `bytes` in reverse order.
pub fn reversed(bytes: &Vec<u8>) -> (out: Vec<u8>)
    ensures
        out@ == bytes@.reverse(),
{
    let mut out: Vec<u8> = Vec::new();
    let mut i: usize = bytes.len();
    while i > 0
        invariant
            i <= bytes@.len(),
            out@.len() == bytes@.len() - i,
            forall|k: int| 0 <= k < out@.len() ==> out@[k] == bytes@[bytes@.len() - 1 - k],
        decreases i,
    {
        i -= 1;
        out.push(bytes[i]);
    }
    assert(out@ =~= bytes@.reverse());
    out
}

impl Packets {
    /// The encoding of this body: the variant's index, then its fields.
    pub fn to_bytes(&self) -> (bytes: Vec<u8>)
        ensures
            bytes@ == enc_body(self@),
    {
        match self {
            Packets::Auth(a) => {
                let mut buffer = len_to_bytes(0);
                let mut fields = a.to_bytes();
                buffer.append(&mut fields);
                buffer
            },
            Packets::AuthResponse(r) => {
                let mut buffer = len_to_bytes(1);
                let mut fields = r.to_bytes();
                buffer.append(&mut fields);
                buffer
            },
            Packets::Headers(h) => {
                let mut buffer = len_to_bytes(2);
                let mut fields = h.to_bytes();
                buffer.append(&mut fields);
                buffer
            },
            Packets::FileContent(f) => {
                let mut buffer = len_to_bytes(3);
                let mut fields = f.to_bytes();
                buffer.append(&mut fields);
                buffer
            },
            Packets::Finished(session) => {
                let mut buffer = len_to_bytes(4);
                let mut fields = u128_to_bytes(*session);
                buffer.append(&mut fields);
                buffer
            },
            Packets::Tick(session) => {
                let mut buffer = len_to_bytes(5);
                let mut fields = u128_to_bytes(*session);
                buffer.append(&mut fields);
                buffer
            },
        }
    }

    /// Reads a body off the end of `buffer`.
    pub fn from_bytes(buffer: &mut Vec<u8>) -> (value: Option<Packets>)
        ensures
            view_of(value) == read_body(stream(old(buffer)@)).0,
            stream(final(buffer)@) == read_body(stream(old(buffer)@)).1,
            value matches Some(Packets::Headers(h)) ==> h.wf(),
    {
        let tag = match len_from_bytes(buffer) {
            Some(v) => v,
            None => return None,
        };
        if tag == 0 {
            match Auth::from_bytes(buffer) {
                Some(a) => Some(Packets::Auth(a)),
                None => None,
            }
        } else if tag == 1 {
            match AuthResponse::from_bytes(buffer) {
                Some(r) => Some(Packets::AuthResponse(r)),
                None => None,
            }
        } else if tag == 2 {
            match Headers::from_bytes(buffer) {
                Some(h) => Some(Packets::Headers(h)),
                None => None,
            }
        } else if tag == 3 {
            match FileContent::from_bytes(buffer) {
                Some(f) => Some(Packets::FileContent(f)),
                None => None,
            }
        } else if tag == 4 {
            match u128_from_bytes(buffer) {
                Some(session) => Some(Packets::Finished(session)),
                None => None,
            }
        } else if tag == 5 {
            match u128_from_bytes(buffer) {
                Some(session) => Some(Packets::Tick(session)),
                None => None,
            }
        } else {
            None
        }
    }
}

impl Packet {
    /// The encoding of this packet, first field first.
    pub fn to_bytes(&self) -> (bytes: Vec<u8>)
        ensures
            bytes@ == enc_packet(self@),
    {
        let mut buffer = u16_to_bytes(self.id);
        let mut window = ids_to_bytes(&self.packets);
        buffer.append(&mut window);
        let mut body = self.packet.to_bytes();
        buffer.append(&mut body);
        buffer
    }

    /// Reads a packet off the end of `buffer`: the byte that was encoded
    /// first must be the buffer's last. On success the buffer keeps what lay
    /// behind the packet.
    pub fn from_bytes(buffer: &mut Vec<u8>) -> (value: Option<Packet>)
        ensures
            view_of(value) == read_packet(stream(old(buffer)@)).0,
            stream(final(buffer)@) == read_packet(stream(old(buffer)@)).1,
    {
        let id = match u16_from_bytes(buffer) {
            Some(v) => v,
            None => return None,
        };
        let packets = match take_ids(buffer) {
            Some(v) => v,
            None => return None,
        };
        let packet = match Packets::from_bytes(buffer) {
            Some(v) => v,
            None => return None,
        };
        Some(Packet { id, packets, packet })
    }

    /// The datagram for this packet.
    pub fn encode(&self) -> (wire: Vec<u8>)
        ensures
            wire@ == wire_bytes(self@),
    {
        let bytes = self.to_bytes();
        reversed(&bytes)
    }

    /// The packet that the datagram `wire` holds. Fails exactly where the
    /// bytes are no packet; never panics, whatever the bytes.
    pub fn decode(wire: &[u8]) -> (value: Result<Packet, DecodeError>)
        ensures
            match decode_wire(wire@) {
                Some(p) => value matches Ok(v) && v@ == p,
                None => value == Err::<Packet, DecodeError>(DecodeError::InvalidPacket),
            },
    {
        let mut buffer = slice_to_vec(wire);
        let ghost s = stream(buffer@);
        assert(wire@.reverse() == s);
        match Packet::from_bytes(&mut buffer) {
            Some(p) => Ok(p),
            None => Err(DecodeError::InvalidPacket),
        }
    }
}

} // verus!
