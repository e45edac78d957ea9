//! The two packets of the handshake: the request to open a transfer and the
//! answer to it.
use crate::wire::{
    bool_from_bytes, bool_to_bytes, enc_bool, enc_string, read_bool, read_string, read_u128, stream,
    string_to_bytes, take_string, u128_from_bytes, u128_to_bytes, view_of,
};
use vstd::bytes::*;
use vstd::prelude::*;

verus! {

/// Asks the peer to open a transfer of `path`, proving knowledge of `secret`.
#[derive(Debug, PartialEq, Clone)]
pub struct Auth {
    pub name: String,
    pub path: String,
    pub secret: String,
}

/// An [`Auth`] as mathematical text.
pub struct AuthView {
    pub name: Seq<char>,
    pub path: Seq<char>,
    pub secret: Seq<char>,
}

impl View for Auth {
    type V = AuthView;

    open spec fn view(&self) -> AuthView {
        AuthView { name: self.name@, path: self.path@, secret: self.secret@ }
    }
}

/// The answer to an [`Auth`]: whether the transfer was opened, and under
/// which session identifier.
#[derive(Debug, PartialEq, Clone, Copy)]
pub struct AuthResponse {
    pub accepted: bool,
    pub session: u128,
}

impl View for AuthResponse {
    type V = AuthResponse;

    open spec fn view(&self) -> AuthResponse {
        *self
    }
}

/// Encoding of an [`Auth`]: its three strings in declaration order.
pub open spec fn enc_auth(a: AuthView) -> Seq<u8> {
    enc_string(a.name) + enc_string(a.path) + enc_string(a.secret)
}

/// Reads an [`Auth`]; stops at the first field that cannot be read.
pub open spec fn read_auth(s: Seq<u8>) -> (Option<AuthView>, Seq<u8>) {
    let (name, s1) = read_string(s);
    let (path, s2) = read_string(s1);
    let (secret, s3) = read_string(s2);
    if name is None {
        (None, s1)
    } else if path is None {
        (None, s2)
    } else if secret is None {
        (None, s3)
    } else {
        (Some(AuthView { name: name->0, path: path->0, secret: secret->0 }), s3)
    }
}

/// Encoding of an [`AuthResponse`]: the flag, then the session.
pub open spec fn enc_auth_response(r: AuthResponse) -> Seq<u8> {
    enc_bool(r.accepted) + spec_u128_to_le_bytes(r.session)
}

/// Reads an [`AuthResponse`]; stops at the first field that cannot be read.
pub open spec fn read_auth_response(s: Seq<u8>) -> (Option<AuthResponse>, Seq<u8>) {
    let (accepted, s1) = read_bool(s);
    let (session, s2) = read_u128(s1);
    if accepted is None {
        (None, s1)
    } else if session is None {
        (None, s2)
    } else {
        (Some(AuthResponse { accepted: accepted->0, session: session->0 }), s2)
    }
}

impl Auth {
    /// The encoding of this request, first field first.
    pub fn to_bytes(&self) -> (bytes: Vec<u8>)
        ensures
            bytes@ == enc_auth(self@),
    {
        let mut buffer = string_to_bytes(&self.name);
        let mut path = string_to_bytes(&self.path);
        buffer.append(&mut path);
        let mut secret = string_to_bytes(&self.secret);
        buffer.append(&mut secret);
        buffer
    }

    /// Reads a request off the end of `buffer`.
    pub fn from_bytes(buffer: &mut Vec<u8>) -> (value: Option<Auth>)
        ensures
            view_of(value) == read_auth(stream(old(buffer)@)).0,
            stream(final(buffer)@) == read_auth(stream(old(buffer)@)).1,
    {
        let name = match take_string(buffer) {
            Some(v) => v,
            None => return None,
        };
        let path = match take_string(buffer) {
            Some(v) => v,
            None => return None,
        };
        let secret = match take_string(buffer) {
            Some(v) => v,
            None => return None,
        };
        Some(Auth { name, path, secret })
    }
}

impl AuthResponse {
    /// The encoding of this answer, first field first.
    pub fn to_bytes(&self) -> (bytes: Vec<u8>)
        ensures
            bytes@ == enc_auth_response(*self),
    {
        let mut buffer = bool_to_bytes(self.accepted);
        let mut session = u128_to_bytes(self.session);
        buffer.append(&mut session);
        buffer
    }

    /// Reads an answer off the end of `buffer`.
    pub fn from_bytes(buffer: &mut Vec<u8>) -> (value: Option<AuthResponse>)
        ensures
            value == read_auth_response(stream(old(buffer)@)).0,
            stream(final(buffer)@) == read_auth_response(stream(old(buffer)@)).1,
    {
        let accepted = match bool_from_bytes(buffer) {
            Some(v) => v,
            None => return None,
        };
        let session = match u128_from_bytes(buffer) {
            Some(v) => v,
            None => return None,
        };
        Some(AuthResponse { accepted, session })
    }
}

} // verus!
