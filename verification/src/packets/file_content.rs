//! The packet that carries a piece of the transferred data.
use crate::wire::{
    blob_to_bytes, enc_blob, read_blob, read_u128, stream, take_blob, u128_from_bytes,
    u128_to_bytes, view_of,
};
use vstd::bytes::*;
use vstd::prelude::*;

verus! {

/// A piece of the data of `session`, to be placed at byte offset `cursor`.
#[derive(Debug, PartialEq, Clone)]
pub struct FileContent {
    pub session: u128,
    pub cursor: u128,
    pub bytes: Vec<u8>,
}

/// A [`FileContent`] with its bytes as a sequence.
pub struct FileContentView {
    pub session: u128,
    pub cursor: u128,
    pub bytes: Seq<u8>,
}

impl View for FileContent {
    type V = FileContentView;

    open spec fn view(&self) -> FileContentView {
        FileContentView { session: self.session, cursor: self.cursor, bytes: self.bytes@ }
    }
}

/// Encoding of a [`FileContent`]: session, offset, then the counted bytes.
pub open spec fn enc_file_content(f: FileContentView) -> Seq<u8> {
    spec_u128_to_le_bytes(f.session) + spec_u128_to_le_bytes(f.cursor) + enc_blob(f.bytes)
}

/// Reads a [`FileContent`]; stops at the first field that cannot be read.
pub open spec fn read_file_content(s: Seq<u8>) -> (Option<FileContentView>, Seq<u8>) {
    let (session, s1) = read_u128(s);
    let (cursor, s2) = read_u128(s1);
    let (bytes, s3) = read_blob(s2);
    if session is None {
        (None, s1)
    } else if cursor is None {
        (None, s2)
    } else if bytes is None {
        (None, s3)
    } else {
        (Some(FileContentView { session: session->0, cursor: cursor->0, bytes: bytes->0 }), s3)
    }
}

impl FileContent {
    /// The encoding of this piece, first field first.
    pub fn to_bytes(&self) -> (bytes: Vec<u8>)
        ensures
            bytes@ == enc_file_content(self@),
    {
        let mut buffer = u128_to_bytes(self.session);
        let mut cursor = u128_to_bytes(self.cursor);
        buffer.append(&mut cursor);
        let mut payload = blob_to_bytes(&self.bytes);
        buffer.append(&mut payload);
        buffer
    }

    /// Reads a piece off the end of `buffer`.
    pub fn from_bytes(buffer: &mut Vec<u8>) -> (value: Option<FileContent>)
        ensures
            view_of(value) == read_file_content(stream(old(buffer)@)).0,
            stream(final(buffer)@) == read_file_content(stream(old(buffer)@)).1,
    {
        let session = match u128_from_bytes(buffer) {
            Some(v) => v,
            None => return None,
        };
        let cursor = match u128_from_bytes(buffer) {
            Some(v) => v,
            None => return None,
        };
        let bytes = match take_blob(buffer) {
            Some(v) => v,
            None => return None,
        };
        Some(FileContent { session, cursor, bytes })
    }
}

} // verus!
