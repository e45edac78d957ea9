//! Values drawn at random, through the `rand` crate. Nothing is known of
//! them but their range.
use rand::Rng;
use vstd::prelude::*;

verus! {

/// Number of bytes in a public token.
pub const TOKEN_LEN: usize = 16;

/// `rand::random` for a `u8`: any byte.
#[verifier::external_body]
fn random_byte() -> u8 {
    rand::random()
}

/// `rand::random` for a `u128`: any value.
#[verifier::external_body]
pub(crate) fn random_session() -> u128 {
    rand::random()
}

/// `Rng::gen_range` of the thread's generator on `1025..u16::MAX`: a value
/// within that range, the upper end excluded.
#[verifier::external_body]
pub(crate) fn random_port() -> (port: u16)
    ensures
        1025 <= port < 0xffff,
{
    rand::thread_rng().gen_range(1025..u16::MAX)
}

/// A fresh public token: [`TOKEN_LEN`] random bytes.
pub fn random_token() -> (token: Vec<u8>)
    ensures
        token@.len() == TOKEN_LEN,
{
    let mut token: Vec<u8> = Vec::with_capacity(TOKEN_LEN);
    let mut i: usize = 0;
    while i < TOKEN_LEN
        invariant
            i <= TOKEN_LEN,
            token@.len() == i,
        decreases TOKEN_LEN - i,
    {
        token.push(random_byte());
        i += 1;
    }
    token
}

} // verus!
