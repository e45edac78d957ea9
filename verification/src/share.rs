//! The address under which an offer is handed around out of band:
//! `mzt://<token in hex>/<secret>/<path>`.
use crate::wire::view_of;
use vstd::prelude::*;
use vstd::string::{StrSliceExecFns, StringExecFns, StringSliceAdditionalSpecFns};

verus! {

/// The hexadecimal digit for `n`, lower case.
pub open spec fn hex_digit(n: int) -> char {
    if n < 10 {
        (48 + n) as char
    } else {
        (87 + n) as char
    }
}

/// `data` in hexadecimal: two lower-case digits for each byte, the high half
/// first.
pub open spec fn hex_text(data: Seq<u8>) -> Seq<char> {
    Seq::new(
        2 * data.len(),
        |i: int|
            hex_digit(
                if i % 2 == 0 {
                    data[i / 2] as int / 16
                } else {
                    data[i / 2] as int % 16
                },
            ),
    )
}

/// The value of the hexadecimal digit `c`, of either case.
pub open spec fn hex_value(c: u8) -> Option<int> {
    if 48 <= c <= 57 {
        Some(c - 48)
    } else if 97 <= c <= 102 {
        Some(c - 87)
    } else if 65 <= c <= 70 {
        Some(c - 55)
    } else {
        None
    }
}

/// The bytes that `digits` spell in hexadecimal, if they are an even number
/// of hexadecimal digits.
pub open spec fn hex_bytes(digits: Seq<u8>) -> Option<Seq<u8>> {
    if digits.len() % 2 != 0 || exists|i: int|
        0 <= i < digits.len() && hex_value(#[trigger] digits[i]) is None {
        None
    } else {
        Some(
            Seq::new(
                digits.len() / 2,
                |i: int| (hex_value(digits[2 * i])->0 * 16 + hex_value(digits[2 * i + 1])->0) as u8,
            ),
        )
    }
}

/// `hex::encode`: two lower-case hexadecimal digits for each byte.
#[verifier::external_body]
pub(crate) fn hex_encode(data: &Vec<u8>) -> (text: String)
    ensures
        text@ == hex_text(data@),
{
    hex::encode(data)
}

/// `hex::decode` on the bytes of `text`: fails on an odd number of bytes and
/// on any byte that is no hexadecimal digit; else two digits make a byte.
#[verifier::external_body]
pub(crate) fn hex_decode(text: &str) -> (bytes: Option<Vec<u8>>)
    ensures
        view_of(bytes) == hex_bytes(text.spec_bytes()),
{
    hex::decode(text).ok()
}

/// The scheme of a share address, with its separator.
pub open spec fn scheme() -> Seq<char> {
    seq!['m', 'z', 't', ':', '/', '/']
}

/// The share address of the offer of `path` under `secret` by the peer
/// whose public token is `token`.
pub open spec fn share_text(token: Seq<u8>, secret: Seq<char>, path: Seq<char>) -> Seq<char> {
    scheme() + hex_text(token) + seq!['/'] + secret + seq!['/'] + path
}

/// The share address of the offer of `path` under `secret` by the peer
/// whose public token is `token`.
pub fn share_url(token: &Vec<u8>, secret: &str, path: &str) -> (url: String)
    ensures
        url@ == share_text(token@, secret@, path@),
{
    proof {
        reveal_strlit("mzt://");
        reveal_strlit("/");
    }
    let mut url = String::from_str("mzt://");
    assert(url@ =~= scheme());
    let code = hex_encode(token);
    url.append(code.as_str());
    url.append("/");
    url.append(secret);
    url.append("/");
    url.append(path);
    assert("/"@ =~= seq!['/']);
    url
}

/// The first position at or behind `from` at which `text` holds `c`, or the
/// length of `text` where there is none.
pub open spec fn find_char(text: Seq<char>, c: char, from: int) -> int
    decreases text.len() - from,
{
    if from < 0 || from >= text.len() {
        text.len() as int
    } else if text[from] == c {
        from
    } else {
        find_char(text, c, from + 1)
    }
}

/// What a share address names: the peer's public token, the secret and the
/// path.
#[derive(Debug, PartialEq, Clone)]
pub struct ShareTarget {
    pub adress: Vec<u8>,
    pub secret: String,
    pub path: String,
}

/// A [`ShareTarget`] as mathematical data.
pub struct ShareTargetView {
    pub adress: Seq<u8>,
    pub secret: Seq<char>,
    pub path: Seq<char>,
}

impl View for ShareTarget {
    type V = ShareTargetView;

    open spec fn view(&self) -> ShareTargetView {
        ShareTargetView { adress: self.adress@, secret: self.secret@, path: self.path@ }
    }
}

/// What the share address `url` names. The address is cut at each `/`: the
/// third piece is the token in hexadecimal, the fourth the secret, and what
/// follows the fourth piece, further `/` included, is the path. An address
/// of fewer than four pieces, or whose third piece is no hexadecimal, names
/// nothing.
pub open spec fn parse_share_text(url: Seq<char>) -> Option<ShareTargetView> {
    let first = find_char(url, '/', 0);
    let second = find_char(url, '/', first + 1);
    let third = find_char(url, '/', second + 1);
    let fourth = find_char(url, '/', third + 1);
    if third >= url.len() {
        None
    } else {
        match hex_bytes(vstd::utf8::encode_utf8(url.subrange(second + 1, third))) {
            None => None,
            Some(token) => Some(
                ShareTargetView {
                    adress: token,
                    secret: url.subrange(third + 1, fourth),
                    path: if fourth < url.len() {
                        url.subrange(fourth + 1, url.len() as int)
                    } else {
                        Seq::empty()
                    },
                },
            ),
        }
    }
}

/// The position of [`find_char`] in `text`, which has `len` characters.
fn next_char(text: &str, c: char, from: usize, len: usize) -> (at: usize)
    requires
        len == text@.len(),
        from <= len,
    ensures
        at == find_char(text@, c, from as int),
        from <= at <= len,
        at < len ==> text@[at as int] == c,
{
    let mut i: usize = from;
    while i < len
        invariant
            len == text@.len(),
            from <= i <= len,
            find_char(text@, c, i as int) == find_char(text@, c, from as int),
        decreases len - i,
    {
        if text.get_char(i) == c {
            return i;
        }
        i += 1;
    }
    i
}

/// Reads a share address (see [`parse_share_text`]).
pub fn parse_share(url: &str) -> (target: Option<ShareTarget>)
    ensures
        view_of(target) == parse_share_text(url@),
{
    let len = url.unicode_len();
    let first = next_char(url, '/', 0, len);
    if first >= len {
        return None;
    }
    let second = next_char(url, '/', first + 1, len);
    if second >= len {
        return None;
    }
    let third = next_char(url, '/', second + 1, len);
    if third >= len {
        return None;
    }
    let fourth = next_char(url, '/', third + 1, len);
    let adress = match hex_decode(url.substring_char(second + 1, third)) {
        Some(v) => v,
        None => return None,
    };
    let secret = String::from_str(url.substring_char(third + 1, fourth));
    let path = if fourth < len {
        String::from_str(url.substring_char(fourth + 1, len))
    } else {
        String::new()
    };
    Some(ShareTarget { adress, secret, path })
}

/// Whether `url` is an address of this transport: what stands before its
/// first `:` is `mzt`.
pub open spec fn is_share_text(url: Seq<char>) -> bool {
    url.take(find_char(url, ':', 0)) == seq!['m', 'z', 't']
}

/// Whether `url` is an address of this transport (see [`is_share_text`]).
pub fn accept_url(url: &str) -> (accepted: bool)
    ensures
        accepted == is_share_text(url@),
{
    let len = url.unicode_len();
    let colon = next_char(url, ':', 0, len);
    let accepted = colon == 3 && url.get_char(0) == 'm' && url.get_char(1) == 'z' && url.get_char(
        2,
    ) == 't';
    proof {
        let head = url@.take(colon as int);
        if accepted {
            assert(head =~= seq!['m', 'z', 't']);
        } else if colon == 3 {
            assert(head[0] == url@[0] && head[1] == url@[1] && head[2] == url@[2]);
        } else {
            assert(head.len() != 3);
        }
    }
    accepted
}

/// The last position at which `text` holds `c`, or `-1` where there is
/// none.
pub open spec fn last_char(text: Seq<char>, c: char) -> int
    decreases text.len(),
{
    if text.len() == 0 {
        -1
    } else if text.last() == c {
        text.len() - 1
    } else {
        last_char(text.drop_last(), c)
    }
}

/// The name of the file at `path`: what follows the last `separator`, or
/// all of `path` where it holds none.
pub open spec fn file_name_text(path: Seq<char>, separator: char) -> Seq<char> {
    path.subrange(last_char(path, separator) + 1, path.len() as int)
}

/// The name of the file at `path` (see [`file_name_text`]).
pub fn file_name(path: &str, separator: char) -> (name: String)
    ensures
        name@ == file_name_text(path@, separator),
{
    let len = path.unicode_len();
    let mut i: usize = len;
    assert(path@.take(len as int) =~= path@);
    while i > 0
        invariant
            len == path@.len(),
            i <= len,
            last_char(path@, separator) == last_char(path@.take(i as int), separator),
        decreases i,
    {
        if path.get_char(i - 1) == separator {
            assert(path@.take(i as int).last() == separator);
            return String::from_str(path.substring_char(i, len));
        }
        assert(path@.take(i as int).drop_last() =~= path@.take(i - 1));
        i -= 1;
    }
    assert(path@.take(0).len() == 0);
    String::from_str(path.substring_char(0, len))
}

/// Where `text` holds `c` at `at` and nowhere between `from` and `at`, the
/// search from `from` finds `at`.
pub proof fn lemma_find_char(text: Seq<char>, c: char, from: int, at: int)
    requires
        0 <= from <= at < text.len(),
        text[at] == c,
        forall|i: int| from <= i < at ==> text[i] != c,
    ensures
        find_char(text, c, from) == at,
    decreases at - from,
{
    if from < at {
        lemma_find_char(text, c, from + 1, at);
    }
}

/// Hexadecimal text is plain, holds no `/`, and spells the bytes it was
/// made from.
pub proof fn lemma_hex_reads_back(data: Seq<u8>)
    ensures
        vstd::utf8::is_ascii_chars(hex_text(data)),
        forall|i: int| 0 <= i < hex_text(data).len() ==> hex_text(data)[i] != '/',
        hex_bytes(vstd::utf8::encode_utf8(hex_text(data))) == Some(data),
{
    let text = hex_text(data);
    assert forall|i: int| 0 <= i < text.len() implies '0' <= #[trigger] text[i] <= 'f' by {
        let n = if i % 2 == 0 {
            data[i / 2] as int / 16
        } else {
            data[i / 2] as int % 16
        };
        assert(text[i] == hex_digit(n));
        assert(0 <= n < 16);
    }
    vstd::utf8::is_ascii_chars_encode_utf8(text);
    let digits = vstd::utf8::encode_utf8(text);
    assert forall|i: int| 0 <= i < digits.len() implies hex_value(#[trigger] digits[i]) == Some(
        if i % 2 == 0 {
            data[i / 2] as int / 16
        } else {
            data[i / 2] as int % 16
        },
    ) by {
        let n = if i % 2 == 0 {
            data[i / 2] as int / 16
        } else {
            data[i / 2] as int % 16
        };
        assert(text[i] == hex_digit(n));
        assert(0 <= n < 16);
        assert(digits[i] == text[i] as u8);
    }
    let read = hex_bytes(digits);
    assert(read is Some);
    assert(read->0 =~= data) by {
        assert forall|k: int| 0 <= k < data.len() implies read->0[k] == data[k] by {
            assert(hex_value(digits[2 * k]) == Some(data[k] as int / 16));
            assert(hex_value(digits[2 * k + 1]) == Some(data[k] as int % 16));
        }
    }
}

/// A share address names what it was made of, where the secret holds no
/// `/`.
pub proof fn lemma_share_reads_back(token: Seq<u8>, secret: Seq<char>, path: Seq<char>)
    requires
        !secret.contains('/'),
    ensures
        parse_share_text(share_text(token, secret, path)) == Some(
            ShareTargetView { adress: token, secret, path },
        ),
{
    let url = share_text(token, secret, path);
    let hex = hex_text(token);
    lemma_hex_reads_back(token);
    let third: int = 6 + hex.len() as int;
    let fourth: int = third + 1 + secret.len() as int;
    assert(url.len() == fourth + 1 + path.len());
    assert(url[4] == '/' && url[5] == '/');
    assert(url[0] == 'm' && url[1] == 'z' && url[2] == 't' && url[3] == ':');
    lemma_find_char(url, '/', 0, 4);
    lemma_find_char(url, '/', 5, 5);
    assert forall|i: int| 6 <= i < third implies url[i] != '/' by {
        assert(url[i] == hex[i - 6]);
    }
    assert(url[third] == '/');
    lemma_find_char(url, '/', 6, third);
    assert forall|i: int| third + 1 <= i < fourth implies url[i] != '/' by {
        assert(url[i] == secret[i - third - 1]);
    }
    assert(url[fourth] == '/');
    lemma_find_char(url, '/', third + 1, fourth);
    assert(url.subrange(6, third) =~= hex);
    assert(url.subrange(third + 1, fourth) =~= secret);
    assert(url.subrange(fourth + 1, url.len() as int) =~= path);
}

} // verus!
