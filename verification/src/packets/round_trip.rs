//! What is written is what is read back: the laws that tie the encoders to
//! the readers.
//!
//! Text is read back byte by byte, each byte as one character, so only ASCII
//! text returns as it was written; and a count travels in eight bytes, so it
//! must fit in them. [`packet_round_trips`] names the packets for which both
//! hold throughout.
use super::auth::{enc_auth, enc_auth_response, read_auth, read_auth_response};
use super::file_content::{enc_file_content, read_file_content};
use super::headers::{
    distinct_keys, enc_entries, enc_headers, key_at, put_entry, read_entries, read_headers,
    TextEntry,
};
use super::{
    decode_wire, enc_body, enc_fields, enc_packet, read_body, read_packet, variant_index,
    wire_bytes, AuthResponse, AuthView, FileContentView, HeadersView, PacketView, PacketsView,
};
use crate::wire::{
    bytes_as_ids, bytes_as_text, enc_blob, enc_bool, enc_ids, enc_len, enc_string, ids_bytes,
    read_blob, read_bool, read_ids, read_len, read_string, read_u128, read_u16,
};
use vstd::bytes::*;
use vstd::prelude::*;
use vstd::utf8::*;

verus! {

/// The count fits in the eight bytes in which it travels.
pub open spec fn fits(n: nat) -> bool {
    n <= 0xffff_ffff_ffff_ffff
}

/// Text that reads back as it was written: ASCII, and not too long.
pub open spec fn plain_text(text: Seq<char>) -> bool {
    is_ascii_chars(text) && fits(text.len())
}

/// All keys and values are [`plain_text`].
pub open spec fn plain_entries(entries: Seq<TextEntry>) -> bool {
    forall|i: int|
        0 <= i < entries.len() ==> plain_text((#[trigger] entries[i]).0) && plain_text(
            entries[i].1,
        )
}

/// The bodies that read back as they were written.
pub open spec fn body_round_trips(b: PacketsView) -> bool {
    match b {
        PacketsView::Auth(a) => plain_text(a.name) && plain_text(a.path) && plain_text(a.secret),
        PacketsView::AuthResponse(_) => true,
        PacketsView::Headers(h) => fits(h.others.len()) && plain_entries(h.others)
            && distinct_keys(h.others),
        PacketsView::FileContent(f) => fits(f.bytes.len()),
        PacketsView::Finished(_) => true,
        PacketsView::Tick(_) => true,
    }
}

/// The packets that read back as they were written.
pub open spec fn packet_round_trips(p: PacketView) -> bool {
    fits(p.packets.len()) && body_round_trips(p.packet)
}

pub proof fn lemma_read_bool(b: bool, rest: Seq<u8>)
    ensures
        read_bool(enc_bool(b) + rest) == (Some(b), rest),
{
    let s = enc_bool(b) + rest;
    assert(s.skip(1) =~= rest);
}

pub proof fn lemma_read_u16(x: u16, rest: Seq<u8>)
    ensures
        read_u16(spec_u16_to_le_bytes(x) + rest) == (Some(x), rest),
{
    lemma_auto_spec_u16_to_from_le_bytes();
    let e = spec_u16_to_le_bytes(x);
    let s = e + rest;
    assert(s.take(2) =~= e);
    assert(s.skip(2) =~= rest);
}

pub proof fn lemma_read_u128(x: u128, rest: Seq<u8>)
    ensures
        read_u128(spec_u128_to_le_bytes(x) + rest) == (Some(x), rest),
{
    lemma_auto_spec_u128_to_from_le_bytes();
    let e = spec_u128_to_le_bytes(x);
    let s = e + rest;
    assert(s.take(16) =~= e);
    assert(s.skip(16) =~= rest);
}

pub proof fn lemma_read_len(n: nat, rest: Seq<u8>)
    requires
        fits(n),
    ensures
        read_len(enc_len(n) + rest) == (Some(n), rest),
{
    lemma_auto_spec_u64_to_from_le_bytes();
    let e = enc_len(n);
    let s = e + rest;
    assert(s.take(8) =~= e);
    assert(s.skip(8) =~= rest);
}

pub proof fn lemma_read_blob(bytes: Seq<u8>, rest: Seq<u8>)
    requires
        fits(bytes.len()),
    ensures
        read_blob(enc_blob(bytes) + rest) == (Some(bytes), rest),
{
    let tail = bytes + rest;
    assert(enc_blob(bytes) + rest =~= enc_len(bytes.len()) + tail);
    lemma_read_len(bytes.len(), tail);
    assert(tail.take(bytes.len() as int) =~= bytes);
    assert(tail.skip(bytes.len() as int) =~= rest);
}

pub proof fn lemma_read_string(text: Seq<char>, rest: Seq<u8>)
    requires
        plain_text(text),
    ensures
        read_string(enc_string(text) + rest) == (Some(text), rest),
{
    is_ascii_chars_encode_utf8(text);
    let bytes = encode_utf8(text);
    lemma_read_blob(bytes, rest);
    assert(bytes_as_text(bytes) =~= text) by {
        assert forall|i: int| 0 <= i < text.len() implies bytes_as_text(bytes)[i] == text[i] by {
            assert(text[i] as u8 == bytes[i]);
            assert('\0' <= text[i] <= '\u{7f}');
        }
    }
}

/// Identifiers take two bytes each and read back as they were written.
pub proof fn lemma_ids_bytes(ids: Seq<u16>)
    ensures
        ids_bytes(ids).len() == 2 * ids.len(),
        bytes_as_ids(ids_bytes(ids)) == ids,
    decreases ids.len(),
{
    lemma_auto_spec_u16_to_from_le_bytes();
    if ids.len() == 0 {
        assert(bytes_as_ids(ids_bytes(ids)) =~= ids);
    } else {
        let front = ids.drop_last();
        lemma_ids_bytes(front);
        let whole = ids_bytes(ids);
        let last = spec_u16_to_le_bytes(ids.last());
        assert(whole == ids_bytes(front) + last);
        assert forall|i: int| 0 <= i < ids.len() implies bytes_as_ids(whole)[i] == ids[i] by {
            if i < front.len() {
                assert(whole.subrange(2 * i, 2 * i + 2) =~= ids_bytes(front).subrange(
                    2 * i,
                    2 * i + 2,
                ));
                assert(bytes_as_ids(ids_bytes(front))[i] == front[i]);
            } else {
                assert(whole.subrange(2 * i, 2 * i + 2) =~= last);
            }
        }
        assert(bytes_as_ids(whole) =~= ids);
    }
}

pub proof fn lemma_read_ids(ids: Seq<u16>, rest: Seq<u8>)
    requires
        fits(ids.len()),
    ensures
        read_ids(enc_ids(ids) + rest) == (Some(ids), rest),
{
    lemma_ids_bytes(ids);
    let tail = ids_bytes(ids) + rest;
    assert(enc_ids(ids) + rest =~= enc_len(ids.len()) + tail);
    lemma_read_len(ids.len(), tail);
    assert(tail.take(2 * ids.len() as int) =~= ids_bytes(ids));
    assert(tail.skip(2 * ids.len() as int) =~= rest);
}

pub proof fn lemma_read_auth(a: AuthView, rest: Seq<u8>)
    requires
        plain_text(a.name),
        plain_text(a.path),
        plain_text(a.secret),
    ensures
        read_auth(enc_auth(a) + rest) == (Some(a), rest),
{
    let s2 = enc_string(a.secret) + rest;
    let s1 = enc_string(a.path) + s2;
    assert(enc_auth(a) + rest =~= enc_string(a.name) + s1);
    lemma_read_string(a.name, s1);
    lemma_read_string(a.path, s2);
    lemma_read_string(a.secret, rest);
}

pub proof fn lemma_read_auth_response(r: AuthResponse, rest: Seq<u8>)
    ensures
        read_auth_response(enc_auth_response(r) + rest) == (Some(r), rest),
{
    let s1 = spec_u128_to_le_bytes(r.session) + rest;
    assert(enc_auth_response(r) + rest =~= enc_bool(r.accepted) + s1);
    lemma_read_bool(r.accepted, s1);
    lemma_read_u128(r.session, rest);
}

pub proof fn lemma_read_file_content(f: FileContentView, rest: Seq<u8>)
    requires
        fits(f.bytes.len()),
    ensures
        read_file_content(enc_file_content(f) + rest) == (Some(f), rest),
{
    let s2 = enc_blob(f.bytes) + rest;
    let s1 = spec_u128_to_le_bytes(f.cursor) + s2;
    assert(enc_file_content(f) + rest =~= spec_u128_to_le_bytes(f.session) + s1);
    lemma_read_u128(f.session, s1);
    lemma_read_u128(f.cursor, s2);
    lemma_read_blob(f.bytes, rest);
}

/// Entries whose keys are new to `acc` and to each other are read back
/// behind `acc`, in the order in which they were written.
pub proof fn lemma_read_entries(entries: Seq<TextEntry>, rest: Seq<u8>, acc: Seq<TextEntry>)
    requires
        plain_entries(entries),
        distinct_keys(acc + entries),
    ensures
        read_entries(enc_entries(entries) + rest, entries.len(), acc) == (
            Some(acc + entries),
            rest,
        ),
    decreases entries.len(),
{
    if entries.len() == 0 {
        assert(enc_entries(entries) + rest =~= rest);
        assert(acc + entries =~= acc);
    } else {
        let all = acc + entries;
        let (key, value) = entries[0];
        let later = entries.skip(1);
        let s2 = enc_entries(later) + rest;
        let s1 = enc_string(value) + s2;
        assert(entries[0].0 == key && entries[0].1 == value);
        assert(enc_entries(entries) + rest =~= enc_string(key) + s1);
        lemma_read_string(key, s1);
        lemma_read_string(value, s2);
        assert forall|c: int| !key_at(acc, key, c) by {
            if 0 <= c < acc.len() {
                assert(all[c] == acc[c]);
                assert(all[acc.len() as int] == entries[0]);
                assert(all[c].0 != all[acc.len() as int].0);
            }
        }
        let next = acc.push((key, value));
        assert(put_entry(acc, key, value) == next);
        assert(next + later =~= all);
        assert forall|i: int| 0 <= i < later.len() implies plain_text((#[trigger] later[i]).0)
            && plain_text(later[i].1) by {
            assert(later[i] == entries[i + 1]);
        }
        lemma_read_entries(later, rest, next);
    }
}

pub proof fn lemma_read_headers(h: HeadersView, rest: Seq<u8>)
    requires
        fits(h.others.len()),
        plain_entries(h.others),
        distinct_keys(h.others),
    ensures
        read_headers(enc_headers(h) + rest) == (Some(h), rest),
{
    let s3 = enc_entries(h.others) + rest;
    let s2 = enc_len(h.others.len()) + s3;
    let s1 = spec_u128_to_le_bytes(h.content_length) + s2;
    assert(enc_headers(h) + rest =~= spec_u128_to_le_bytes(h.session) + s1);
    lemma_read_u128(h.session, s1);
    lemma_read_u128(h.content_length, s2);
    lemma_read_len(h.others.len(), s3);
    assert(Seq::<TextEntry>::empty() + h.others =~= h.others);
    lemma_read_entries(h.others, rest, Seq::empty());
}

pub proof fn lemma_read_body(b: PacketsView, rest: Seq<u8>)
    requires
        body_round_trips(b),
    ensures
        read_body(enc_body(b) + rest) == (Some(b), rest),
{
    let s1 = enc_fields(b) + rest;
    assert(enc_body(b) + rest =~= enc_len(variant_index(b)) + s1);
    lemma_read_len(variant_index(b), s1);
    match b {
        PacketsView::Auth(a) => lemma_read_auth(a, rest),
        PacketsView::AuthResponse(r) => lemma_read_auth_response(r, rest),
        PacketsView::Headers(h) => lemma_read_headers(h, rest),
        PacketsView::FileContent(f) => lemma_read_file_content(f, rest),
        PacketsView::Finished(session) => lemma_read_u128(session, rest),
        PacketsView::Tick(session) => lemma_read_u128(session, rest),
    }
}

/// A reader that meets the encoding of a packet returns that packet and
/// leaves what lay behind it.
pub proof fn lemma_read_packet(p: PacketView, rest: Seq<u8>)
    requires
        packet_round_trips(p),
    ensures
        read_packet(enc_packet(p) + rest) == (Some(p), rest),
{
    let s2 = enc_body(p.packet) + rest;
    let s1 = enc_ids(p.packets) + s2;
    assert(enc_packet(p) + rest =~= spec_u16_to_le_bytes(p.id) + s1);
    lemma_read_u16(p.id, s1);
    lemma_read_ids(p.packets, s2);
    lemma_read_body(p.packet, rest);
}

/// Decoding the datagram of a packet gives the packet back.
pub proof fn lemma_decode_encode(p: PacketView)
    requires
        packet_round_trips(p),
    ensures
        decode_wire(wire_bytes(p)) == Some(p),
{
    let e = enc_packet(p);
    assert(e.reverse().reverse() =~= e);
    assert(e + Seq::<u8>::empty() =~= e);
    lemma_read_packet(p, Seq::empty());
}

} // verus!
