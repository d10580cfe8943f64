//! The SHA-256 digests the plan, the ledger, and the release name content by.
//!
//! A digest is carried as its lowercase hexadecimal spelling, which is how
//! every document and every blob store names it. The bytes come from the
//! `sha2` crate; the spelling, the check of a spelling handed in, and the
//! comparison are this module's.

use vstd::prelude::*;

use crate::text::{push_char, same_text};

verus! {

/// What the `sha2` crate's SHA-256 computes for one byte string.
pub uninterp spec fn sha256_of(data: Seq<u8>) -> Seq<u8>;

/// `sha2::Sha256::digest`: the 32-byte SHA-256 of `data`.
///
/// Trusted: the result is what the crate computes for these bytes, named
/// `sha256_of`, and a SHA-256 output is 32 bytes long.
#[verifier::external_body]
fn sha256_bytes(data: &[u8]) -> (out: Vec<u8>)
    ensures
        out@ == sha256_of(data@),
        out@.len() == 32,
{
    <sha2::Sha256 as sha2::Digest>::digest(data).to_vec()
}

/// The lowercase hexadecimal digit for `d < 16`.
pub open spec fn hex_digit(d: int) -> char {
    if d < 10 {
        crate::text::digit_char(d)
    } else if d == 10 {
        'a'
    } else if d == 11 {
        'b'
    } else if d == 12 {
        'c'
    } else if d == 13 {
        'd'
    } else if d == 14 {
        'e'
    } else {
        'f'
    }
}

/// Whether a character is a lowercase hexadecimal digit.
pub open spec fn is_hex_digit(c: char) -> bool {
    ('0' <= c && c <= '9') || ('a' <= c && c <= 'f')
}

/// Two lowercase hexadecimal digits per byte, high nibble first.
pub open spec fn hex_lower(bytes: Seq<u8>) -> Seq<char>
    decreases bytes.len(),
{
    if bytes.len() == 0 {
        Seq::empty()
    } else {
        hex_lower(bytes.drop_last()).push(hex_digit((bytes.last() / 16) as int)).push(
            hex_digit((bytes.last() % 16) as int),
        )
    }
}

/// Whether a spelling is one a digest can have: 64 lowercase hex digits.
pub open spec fn is_digest_text(text: Seq<char>) -> bool {
    text.len() == 64 && forall|i: int| 0 <= i < 64 ==> #[trigger] is_hex_digit(text[i])
}

/// The spelling of the digest of `data`.
pub open spec fn digest_text(data: Seq<u8>) -> Seq<char> {
    hex_lower(sha256_of(data))
}

fn hex_char(d: u8) -> (c: char)
    requires
        d < 16,
    ensures
        c == hex_digit(d as int),
        is_hex_digit(c),
{
    if d < 10 {
        crate::text::digit_of(d as u64)
    } else if d == 10 {
        'a'
    } else if d == 11 {
        'b'
    } else if d == 12 {
        'c'
    } else if d == 13 {
        'd'
    } else if d == 14 {
        'e'
    } else {
        'f'
    }
}

proof fn lemma_hex_lower_len(bytes: Seq<u8>)
    ensures
        hex_lower(bytes).len() == 2 * bytes.len(),
    decreases bytes.len(),
{
    if bytes.len() > 0 {
        lemma_hex_lower_len(bytes.drop_last());
    }
}

proof fn lemma_hex_lower_digits(bytes: Seq<u8>)
    ensures
        forall|i: int| 0 <= i < hex_lower(bytes).len() ==> is_hex_digit(#[trigger] hex_lower(bytes)[i]),
    decreases bytes.len(),
{
    if bytes.len() > 0 {
        lemma_hex_lower_digits(bytes.drop_last());
        let b = bytes.last();
        assert(is_hex_digit(hex_digit((b / 16) as int)));
        assert(is_hex_digit(hex_digit((b % 16) as int)));
        let prev = hex_lower(bytes.drop_last());
        let whole = hex_lower(bytes);
        assert(whole == prev.push(hex_digit((b / 16) as int)).push(hex_digit((b % 16) as int)));
        assert forall|i: int| 0 <= i < whole.len() implies is_hex_digit(#[trigger] whole[i]) by {
            if i < prev.len() {
                assert(whole[i] == prev[i]);
            }
        }
    }
}

/// Append the lowercase hexadecimal spelling of `bytes` to `out`.
fn push_hex(out: &mut String, bytes: &Vec<u8>)
    ensures
        final(out)@ == old(out)@ + hex_lower(bytes@),
{
    let mut i: usize = 0;
    while i < bytes.len()
        invariant
            i <= bytes.len(),
            out@ == old(out)@ + hex_lower(bytes@.subrange(0, i as int)),
        decreases bytes.len() - i,
    {
        let b = bytes[i];
        push_char(out, hex_char(b / 16));
        push_char(out, hex_char(b % 16));
        assert(bytes@.subrange(0, i + 1).drop_last() == bytes@.subrange(0, i as int));
        i += 1;
    }
    assert(bytes@.subrange(0, bytes.len() as int) == bytes@);
}

/// One SHA-256 digest, spelled as 64 lowercase hexadecimal digits.
#[derive(Debug, PartialEq, Eq, Hash, PartialOrd, Ord)]
pub struct Sha256 {
    /// The spelling, always 64 lowercase hex digits.
    hex: String,
}

impl Clone for Sha256 {
    /// The same digest.
    fn clone(&self) -> (d: Sha256)
        ensures
            d@ == self@,
    {
        proof {
            use_type_invariant(self);
        }
        Sha256 { hex: crate::text::owned(self.hex.as_str()) }
    }
}

impl View for Sha256 {
    type V = Seq<char>;

    closed spec fn view(&self) -> Seq<char> {
        self.hex@
    }
}

impl Sha256 {
    /// Every digest is spelled as 64 lowercase hexadecimal digits.
    #[verifier::type_invariant]
    spec fn spelled(self) -> bool {
        is_digest_text(self.hex@)
    }

    /// The digest of `data`.
    pub fn of(data: &[u8]) -> (d: Sha256)
        ensures
            d@ == digest_text(data@),
            is_digest_text(d@),
    {
        let bytes = sha256_bytes(data);
        let mut hex = String::new();
        push_hex(&mut hex, &bytes);
        proof {
            lemma_hex_lower_len(bytes@);
            lemma_hex_lower_digits(bytes@);
            assert(Seq::<char>::empty() + hex_lower(bytes@) == hex_lower(bytes@));
        }
        Sha256 { hex }
    }

    /// The spelling.
    pub fn as_str(&self) -> (s: &str)
        ensures
            s@ == self@,
    {
        self.hex.as_str()
    }

    /// A second digest with the same spelling.
    pub fn copied(&self) -> (d: Sha256)
        ensures
            d@ == self@,
    {
        proof {
            use_type_invariant(self);
        }
        Sha256 { hex: crate::text::owned(self.hex.as_str()) }
    }

    /// Whether two digests are the same.
    pub fn same(&self, other: &Sha256) -> (r: bool)
        ensures
            r == (self@ == other@),
    {
        same_text(self.hex.as_str(), other.hex.as_str())
    }

    /// Read a spelling handed in from outside, refusing anything that is
    /// not exactly 64 lowercase hexadecimal digits.
    pub fn parse(text: &str) -> (r: Option<Sha256>)
        ensures
            r is Some <==> is_digest_text(text@),
            r matches Some(d) ==> d@ == text@,
    {
        let chars = crate::text::chars_of(text);
        if chars.len() != 64 {
            return None;
        }
        let mut i: usize = 0;
        while i < 64
            invariant
                chars@.len() == 64,
                chars@ == text@,
                i <= 64,
                forall|j: int| 0 <= j < i ==> #[trigger] is_hex_digit(chars@[j]),
            decreases 64 - i,
        {
            let c = chars[i];
            if !(('0' <= c && c <= '9') || ('a' <= c && c <= 'f')) {
                assert(!is_hex_digit(text@[i as int]));
                return None;
            }
            i += 1;
        }
        Some(Sha256 { hex: crate::text::owned(text) })
    }
}

} // verus!
