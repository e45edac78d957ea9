//! The packet that announces the size of a transfer.
use crate::wire::{
    enc_len, enc_string, len_from_bytes, len_to_bytes, read_len, read_string, read_u128, stream,
    string_to_bytes, take_string, u128_from_bytes, u128_to_bytes, view_of,
};
use vstd::bytes::*;
use vstd::prelude::*;

verus! {

/// A named value, as text.
pub type TextEntry = (Seq<char>, Seq<char>);

/// Announces that `session` will carry `content_length` bytes. `others` maps
/// further names to values; the order of its entries is the order in which
/// they are written, and a well-formed value names no key twice.
#[derive(Debug, PartialEq, Clone)]
pub struct Headers {
    pub session: u128,
    pub content_length: u128,
    pub others: Vec<(String, String)>,
}

/// A [`Headers`] with its entries as sequences of text.
pub struct HeadersView {
    pub session: u128,
    pub content_length: u128,
    pub others: Seq<TextEntry>,
}

/// The entries of a [`Headers`] as text.
pub open spec fn entries_view(entries: Seq<(String, String)>) -> Seq<TextEntry> {
    entries.map_values(|e: (String, String)| (e.0@, e.1@))
}

impl View for Headers {
    type V = HeadersView;

    open spec fn view(&self) -> HeadersView {
        HeadersView {
            session: self.session,
            content_length: self.content_length,
            others: entries_view(self.others@),
        }
    }
}

/// No key is named twice.
pub open spec fn distinct_keys(entries: Seq<TextEntry>) -> bool {
    forall|i: int, j: int|
        0 <= i < j < entries.len() ==> (#[trigger] entries[i]).0 != (#[trigger] entries[j]).0
}

/// `i` is the first position at which `entries` names `key`.
pub open spec fn key_at(entries: Seq<TextEntry>, key: Seq<char>, i: int) -> bool {
    &&& 0 <= i < entries.len()
    &&& entries[i].0 == key
    &&& forall|j: int| 0 <= j < i ==> (#[trigger] entries[j]).0 != key
}

/// `entries` after `key` has been given `value`: the value replaces the one
/// the key had, at the same position, or else the entry goes to the end.
pub open spec fn put_entry(entries: Seq<TextEntry>, key: Seq<char>, value: Seq<char>) -> Seq<
    TextEntry,
> {
    if exists|i: int| key_at(entries, key, i) {
        entries.update(choose|i: int| key_at(entries, key, i), (key, value))
    } else {
        entries.push((key, value))
    }
}

/// Encoding of the entries: key then value, first entry first.
pub open spec fn enc_entries(entries: Seq<TextEntry>) -> Seq<u8>
    decreases entries.len(),
{
    if entries.len() == 0 {
        Seq::empty()
    } else {
        enc_string(entries[0].0) + enc_string(entries[0].1) + enc_entries(entries.skip(1))
    }
}

/// Reads `n` entries and puts each into `acc` (see [`put_entry`]); stops at
/// the first string that cannot be read.
pub open spec fn read_entries(s: Seq<u8>, n: nat, acc: Seq<TextEntry>) -> (
    Option<Seq<TextEntry>>,
    Seq<u8>,
)
    decreases n,
{
    if n == 0 {
        (Some(acc), s)
    } else {
        let (key, s1) = read_string(s);
        let (value, s2) = read_string(s1);
        if key is None {
            (None, s1)
        } else if value is None {
            (None, s2)
        } else {
            read_entries(s2, (n - 1) as nat, put_entry(acc, key->0, value->0))
        }
    }
}

/// Encoding of a [`Headers`]: session, length, the number of entries, then
/// the entries.
pub open spec fn enc_headers(h: HeadersView) -> Seq<u8> {
    spec_u128_to_le_bytes(h.session) + spec_u128_to_le_bytes(h.content_length) + enc_len(
        h.others.len(),
    ) + enc_entries(h.others)
}

/// Reads a [`Headers`]; stops at the first field that cannot be read.
pub open spec fn read_headers(s: Seq<u8>) -> (Option<HeadersView>, Seq<u8>) {
    let (session, s1) = read_u128(s);
    let (content_length, s2) = read_u128(s1);
    let (count, s3) = read_len(s2);
    if session is None {
        (None, s1)
    } else if content_length is None {
        (None, s2)
    } else if count is None {
        (None, s3)
    } else {
        let (others, s4) = read_entries(s3, count->0, Seq::empty());
        if others is None {
            (None, s4)
        } else {
            (
                Some(
                    HeadersView {
                        session: session->0,
                        content_length: content_length->0,
                        others: others->0,
                    },
                ),
                s4,
            )
        }
    }
}

/// Gives `key` the value `value` in `entries`.
pub fn put(entries: &mut Vec<(String, String)>, key: String, value: String)
    ensures
        entries_view(final(entries)@) == put_entry(entries_view(old(entries)@), key@, value@),
{
    let ghost before = entries_view(entries@);
    let mut i: usize = 0;
    while i < entries.len()
        invariant
            i <= entries@.len(),
            entries@ == old(entries)@,
            forall|j: int| 0 <= j < i ==> (#[trigger] before[j]).0 != key@,
            before == entries_view(entries@),
        decreases entries@.len() - i,
    {
        if entries[i].0 == key {
            proof {
                assert(key_at(before, key@, i as int));
                let c = choose|c: int| key_at(before, key@, c);
                assert(c == i) by {
                    if c < i {
                        assert(before[c].0 != key@);
                    } else if i < c {
                        assert(before[i as int].0 != key@);
                    }
                }
            }
            entries.set(i, (key, value));
            assert(entries_view(entries@) =~= before.update(i as int, (key@, value@)));
            return ;
        }
        i += 1;
    }
    proof {
        assert forall|c: int| !key_at(before, key@, c) by {
            if 0 <= c < before.len() {
                assert(before[c].0 != key@);
            }
        }
    }
    entries.push((key, value));
    assert(entries_view(entries@) =~= before.push((key@, value@)));
}

impl Headers {
    /// Whether no key is named twice.
    pub open spec fn wf(&self) -> bool {
        distinct_keys(entries_view(self.others@))
    }

    /// The encoding of this announcement, first field first.
    pub fn to_bytes(&self) -> (bytes: Vec<u8>)
        ensures
            bytes@ == enc_headers(self@),
    {
        let mut buffer = u128_to_bytes(self.session);
        let mut content_length = u128_to_bytes(self.content_length);
        buffer.append(&mut content_length);
        let mut count = len_to_bytes(self.others.len());
        buffer.append(&mut count);
        let ghost head = buffer@;
        let ghost all = entries_view(self.others@);
        let mut i: usize = 0;
        assert(all.skip(0) == all);
        while i < self.others.len()
            invariant
                i <= self.others@.len(),
                all == entries_view(self.others@),
                buffer@ + enc_entries(all.skip(i as int)) == head + enc_entries(all),
            decreases self.others@.len() - i,
        {
            let ghost rest = all.skip(i as int);
            assert(rest.skip(1) == all.skip(i + 1));
            assert(rest[0] == (self.others@[i as int].0@, self.others@[i as int].1@));
            let mut key = string_to_bytes(&self.others[i].0);
            buffer.append(&mut key);
            let mut value = string_to_bytes(&self.others[i].1);
            buffer.append(&mut value);
            assert(buffer@ + enc_entries(all.skip(i + 1)) =~= head + enc_entries(all)) by {
                assert(enc_entries(rest) == enc_string(rest[0].0) + enc_string(rest[0].1)
                    + enc_entries(rest.skip(1)));
            }
            i += 1;
        }
        assert(enc_entries(all.skip(i as int)) =~= Seq::<u8>::empty());
        assert(buffer@ =~= head + enc_entries(all));
        buffer
    }

    /// Reads an announcement off the end of `buffer`. Where the bytes name a
    /// key more than once, the last value stands.
    #[verifier::loop_isolation(false)]
    pub fn from_bytes(buffer: &mut Vec<u8>) -> (value: Option<Headers>)
        ensures
            view_of(value) == read_headers(stream(old(buffer)@)).0,
            stream(final(buffer)@) == read_headers(stream(old(buffer)@)).1,
            value matches Some(h) ==> h.wf(),
    {
        let session = match u128_from_bytes(buffer) {
            Some(v) => v,
            None => return None,
        };
        let content_length = match u128_from_bytes(buffer) {
            Some(v) => v,
            None => return None,
        };
        let count = match len_from_bytes(buffer) {
            Some(v) => v,
            None => return None,
        };
        let ghost start = stream(buffer@);
        let mut others: Vec<(String, String)> = Vec::new();
        let mut i: usize = 0;
        assert(entries_view(others@) =~= Seq::<TextEntry>::empty());
        while i < count
            invariant
                i <= count,
                read_entries(stream(buffer@), (count - i) as nat, entries_view(others@))
                    == read_entries(start, count as nat, Seq::empty()),
                distinct_keys(entries_view(others@)),
            decreases count - i,
        {
            let ghost acc = entries_view(others@);
            let key = match take_string(buffer) {
                Some(v) => v,
                None => return None,
            };
            let text = match take_string(buffer) {
                Some(v) => v,
                None => return None,
            };
            proof {
                lemma_put_keeps_distinct(acc, key@, text@);
            }
            put(&mut others, key, text);
            i += 1;
        }
        Some(Headers { session, content_length, others })
    }
}

/// Putting an entry into entries with distinct keys leaves the keys distinct.
pub proof fn lemma_put_keeps_distinct(entries: Seq<TextEntry>, key: Seq<char>, value: Seq<char>)
    requires
        distinct_keys(entries),
    ensures
        distinct_keys(put_entry(entries, key, value)),
{
    let after = put_entry(entries, key, value);
    if exists|i: int| key_at(entries, key, i) {
        let c = choose|i: int| key_at(entries, key, i);
        assert forall|i: int, j: int| 0 <= i < j < after.len() implies (#[trigger] after[i]).0 != (
        #[trigger] after[j]).0 by {
            assert(entries[i].0 != entries[j].0);
        }
    } else {
        assert forall|i: int, j: int| 0 <= i < j < after.len() implies (#[trigger] after[i]).0 != (
        #[trigger] after[j]).0 by {
            if j == entries.len() {
                assert(!key_at(entries, key, i));
                if entries[i].0 == key {
                    let f = first_key(entries, key, i);
                    assert(key_at(entries, key, f));
                }
            } else {
                assert(entries[i].0 != entries[j].0);
            }
        }
    }
}

/// The first position at or before `i` at which `entries` names `key`.
pub proof fn first_key(entries: Seq<TextEntry>, key: Seq<char>, i: int) -> (f: int)
    requires
        0 <= i < entries.len(),
        entries[i].0 == key,
    ensures
        key_at(entries, key, f),
        f <= i,
    decreases i,
{
    if exists|j: int| 0 <= j < i && (#[trigger] entries[j]).0 == key {
        let j = choose|j: int| 0 <= j < i && (#[trigger] entries[j]).0 == key;
        first_key(entries, key, j)
    } else {
        i
    }
}

} // verus!
