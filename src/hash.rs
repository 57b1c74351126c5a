use vstd::prelude::*;
use vstd::string::*;

use crate::error::ZkError;
use crate::text::push_char;

verus! {

/// Number of bytes in a SHA-256 digest.
pub const DIGEST_LEN: usize = 32;

/// The SHA-256 digest of a byte sequence.
pub uninterp spec fn sha256_of(data: Seq<u8>) -> Seq<u8>;

/// Relies on `sha2::Sha256::digest`: the SHA-256 digest of `data`, which is
/// 32 bytes long (the output size `U32` of `Sha256`).
#[verifier::external_body]
fn sha256(data: &[u8]) -> (r: Vec<u8>)
    ensures
        r@ == sha256_of(data@),
        r@.len() == DIGEST_LEN,
{
    <sha2::Sha256 as sha2::Digest>::digest(data).to_vec()
}

/// The lowercase hexadecimal digit of `d`, for `0 <= d < 16`.
pub open spec fn hex_digit(d: int) -> char {
    if d < 10 {
        (d + 48) as char
    } else {
        (d + 87) as char
    }
}

pub open spec fn is_hex_char(c: char) -> bool {
    ('0' <= c && c <= '9') || ('a' <= c && c <= 'f') || ('A' <= c && c <= 'F')
}

/// The value of a hexadecimal digit (either case).
pub open spec fn hex_value(c: char) -> int {
    if '0' <= c && c <= '9' {
        c as int - 48
    } else if 'a' <= c && c <= 'f' {
        c as int - 87
    } else {
        c as int - 55
    }
}

/// Two lowercase hexadecimal digits per byte, high nibble first.
pub open spec fn hex_text(b: Seq<u8>) -> Seq<char> {
    Seq::new(
        2 * b.len(),
        |i: int|
            if i % 2 == 0 {
                hex_digit(b[i / 2] as int / 16)
            } else {
                hex_digit(b[i / 2] as int % 16)
            },
    )
}

/// Whether `s` is the text form of a digest: exactly 64 hexadecimal digits.
pub open spec fn is_digest_text(s: Seq<char>) -> bool {
    s.len() == 2 * DIGEST_LEN && forall|i: int| 0 <= i < s.len() ==> #[trigger] is_hex_char(s[i])
}

/// The bytes that a sequence of hexadecimal digit pairs denotes.
pub open spec fn hex_decode(s: Seq<char>) -> Seq<u8> {
    Seq::new(
        s.len() / 2,
        |i: int| (hex_value(s[2 * i]) * 16 + hex_value(s[2 * i + 1])) as u8,
    )
}

} // verus!

verus! {

/// The two lowercase hexadecimal digits of a byte, high nibble first.
fn hexchar(c: u8) -> (r: [char; 2])
    ensures
        r@ == seq![hex_digit(c as int / 16), hex_digit(c as int % 16)],
{
    let hi: u8 = c / 16;
    let lo: u8 = c % 16;
    let hi_char = if hi < 10 { (hi + 48) as char } else { (hi + 87) as char };
    let lo_char = if lo < 10 { (lo + 48) as char } else { (lo + 87) as char };
    let r = [hi_char, lo_char];
    assert(r@ =~= seq![hex_digit(c as int / 16), hex_digit(c as int % 16)]);
    r
}

fn hexdigitvalue(c: char) -> (r: Option<u8>)
    ensures
        match r {
            Some(v) => is_hex_char(c) && v as int == hex_value(c),
            None => !is_hex_char(c),
        },
{
    if '0' <= c && c <= '9' {
        Some(((c as u32) - 48) as u8)
    } else if 'a' <= c && c <= 'f' {
        Some(((c as u32) - 87) as u8)
    } else if 'A' <= c && c <= 'F' {
        Some(((c as u32) - 55) as u8)
    } else {
        None
    }
}

/// The byte that two hexadecimal digits denote, high digit first.
fn hexcharvalue(hi: char, lo: char) -> (r: Option<u8>)
    ensures
        match r {
            Some(v) => is_hex_char(hi) && is_hex_char(lo) && v == (hex_value(hi) * 16
                + hex_value(lo)) as u8,
            None => !is_hex_char(hi) || !is_hex_char(lo),
        },
{
    match (hexdigitvalue(hi), hexdigitvalue(lo)) {
        (Some(h), Some(l)) => Some(h * 16 + l),
        _ => None,
    }
}

} // verus!

verus! {

/// The lowercase hexadecimal text of a byte sequence.
fn hexstring(slice: &[u8]) -> (r: String)
    requires
        slice@.len() <= usize::MAX / 2,
    ensures
        r@ == hex_text(slice@),
{
    let mut s = String::new();
    let n = slice.len();
    for i in 0..n
        invariant
            n == slice@.len(),
            s@ =~= hex_text(slice@.take(i as int)),
    {
        let byte: [char; 2] = hexchar(slice[i]);
        push_char(&mut s, byte[0]);
        push_char(&mut s, byte[1]);
        assert(s@ =~= hex_text(slice@.take(i + 1)));
    }
    assert(slice@.take(n as int) =~= slice@);
    s
}

/// The 32 bytes that the text form of a digest denotes, or `None` where `text`
/// is not exactly 64 hexadecimal digits.
fn hexslice(text: &str) -> (r: Option<Vec<u8>>)
    ensures
        match r {
            Some(b) => is_digest_text(text@) && b@ == hex_decode(text@),
            None => !is_digest_text(text@),
        },
{
    let n = text.unicode_len();
    if n != 2 * DIGEST_LEN {
        return None;
    }
    let mut bytes: Vec<u8> = Vec::new();
    for i in 0..DIGEST_LEN
        invariant
            n == text@.len() == 2 * DIGEST_LEN,
            bytes@ =~= hex_decode(text@).take(i as int),
            forall|j: int| 0 <= j < 2 * i ==> #[trigger] is_hex_char(text@[j]),
    {
        let hi = text.get_char(2 * i);
        let lo = text.get_char(2 * i + 1);
        match hexcharvalue(hi, lo) {
            Some(v) => {
                bytes.push(v);
                assert(bytes@ =~= hex_decode(text@).take(i + 1));
            },
            None => {
                return None;
            },
        }
    }
    assert(hex_decode(text@).take(DIGEST_LEN as int) =~= hex_decode(text@));
    Some(bytes)
}

} // verus!

verus! {

/// A SHA-256 digest: 32 bytes, compared byte by byte.
#[derive(Debug, Hash)]
pub struct Hash {
    bytes: Vec<u8>,
}

impl View for Hash {
    type V = Seq<u8>;

    closed spec fn view(&self) -> Seq<u8> {
        self.bytes@
    }
}

impl Hash {
    #[verifier::type_invariant]
    spec fn has_digest_len(&self) -> bool {
        self.bytes@.len() == DIGEST_LEN
    }

    /// The digest of `data`.
    pub fn compute(data: &[u8]) -> (r: Hash)
        ensures
            r@ == sha256_of(data@),
            r@.len() == DIGEST_LEN,
    {
        Hash { bytes: sha256(data) }
    }

    /// Parses the text form of a digest: exactly 64 hexadecimal digits.
    pub fn from_text(slice: &str) -> (r: Result<Hash, ZkError>)
        ensures
            match r {
                Ok(h) => is_digest_text(slice@) && h@ == hex_decode(slice@) && h@.len()
                    == DIGEST_LEN,
                Err(e) => !is_digest_text(slice@) && e == ZkError::InvalidFormat,
            },
    {
        match hexslice(slice) {
            Some(bytes) => Ok(Hash { bytes }),
            None => Err(ZkError::InvalidFormat),
        }
    }

    /// The digest whose bytes are `slice`.
    pub fn from_raw_hash(slice: &[u8]) -> (r: Hash)
        requires
            slice@.len() == DIGEST_LEN,
        ensures
            r@ == slice@,
    {
        let mut bytes: Vec<u8> = Vec::new();
        for i in 0..slice.len()
            invariant
                bytes@ =~= slice@.take(i as int),
        {
            bytes.push(slice[i]);
        }
        assert(bytes@ =~= slice@);
        Hash { bytes }
    }

    /// Same as `from_text`.
    pub fn from_str(slice: &str) -> (r: Result<Hash, ZkError>)
        ensures
            match r {
                Ok(h) => is_digest_text(slice@) && h@ == hex_decode(slice@) && h@.len()
                    == DIGEST_LEN,
                Err(e) => !is_digest_text(slice@) && e == ZkError::InvalidFormat,
            },
    {
        Self::from_text(slice)
    }

    /// The text form: 64 lowercase hexadecimal digits.
    pub fn to_string(&self) -> (r: String)
        ensures
            r@ == hex_text(self@),
            r@.len() == 2 * DIGEST_LEN,
    {
        proof {
            use_type_invariant(self);
        }
        hexstring(self.bytes.as_slice())
    }

    /// The raw bytes of the digest.
    pub fn as_bytes(&self) -> (r: &[u8])
        ensures
            r@ == self@,
            r@.len() == DIGEST_LEN,
    {
        proof {
            use_type_invariant(self);
        }
        self.bytes.as_slice()
    }

    /// Byte-wise equality.
    pub fn same_as(&self, other: &Hash) -> (r: bool)
        ensures
            r == (self@ == other@),
    {
        proof {
            use_type_invariant(self);
            use_type_invariant(other);
        }
        let mut i: usize = 0;
        while i < DIGEST_LEN
            invariant
                self.bytes@.len() == DIGEST_LEN,
                other.bytes@.len() == DIGEST_LEN,
                i <= DIGEST_LEN,
                forall|j: int| 0 <= j < i ==> self.bytes@[j] == other.bytes@[j],
            decreases DIGEST_LEN - i,
        {
            if self.bytes[i] != other.bytes[i] {
                return false;
            }
            i = i + 1;
        }
        assert(self.bytes@ =~= other.bytes@);
        true
    }
}

impl PartialEq for Hash {
    fn eq(&self, other: &Hash) -> (r: bool) {
        self.same_as(other)
    }
}

impl vstd::std_specs::cmp::PartialEqSpecImpl for Hash {
    open spec fn obeys_eq_spec() -> bool {
        true
    }

    open spec fn eq_spec(&self, other: &Hash) -> bool {
        self@ == other@
    }
}

impl Eq for Hash {
}

impl Clone for Hash {
    fn clone(&self) -> (r: Hash)
        ensures
            r@ == self@,
    {
        Hash::from_raw_hash(self.as_bytes())
    }
}

} // verus!

verus! {

proof fn lemma_hex_digit_value(d: int)
    requires
        0 <= d < 16,
    ensures
        is_hex_char(hex_digit(d)),
        hex_value(hex_digit(d)) == d,
{
}

/// Reading back the text form of a digest gives the same digest: the text
/// of any 32 bytes is valid digest text, and it decodes to those bytes.
pub proof fn lemma_text_round_trip(d: Seq<u8>)
    requires
        d.len() == DIGEST_LEN,
    ensures
        is_digest_text(hex_text(d)),
        hex_decode(hex_text(d)) == d,
{
    let t = hex_text(d);
    assert forall|i: int| 0 <= i < t.len() implies #[trigger] is_hex_char(t[i]) by {
        lemma_hex_digit_value(d[i / 2] as int / 16);
        lemma_hex_digit_value(d[i / 2] as int % 16);
    }
    assert forall|i: int| 0 <= i < d.len() implies #[trigger] hex_decode(t)[i] == d[i] by {
        lemma_hex_digit_value(d[i] as int / 16);
        lemma_hex_digit_value(d[i] as int % 16);
        assert((2 * i) / 2 == i);
        assert((2 * i + 1) / 2 == i);
        assert((2 * i) % 2 == 0);
        assert((2 * i + 1) % 2 == 1);
    }
    assert(hex_decode(t) =~= d);
}

} // verus!
