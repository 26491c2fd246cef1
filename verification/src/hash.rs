//! SHA3-256 digests, byte helpers, and hex rendering.

use vstd::prelude::*;
use sha3::Digest;

verus! {

/// The SHA3-256 digest of a byte string (FIPS 202).
pub uninterp spec fn sha3_256_spec(data: Seq<u8>) -> Seq<u8>;

/// A 32-byte digest.
#[derive(Clone, Copy, Debug, PartialEq, Eq, Hash)]
pub struct Hash256(pub [u8; 32]);

/// Calls `sha3::Sha3_256::digest`: the SHA3-256 digest of `data`, a
/// function of the bytes alone.
#[verifier::external_body]
pub(crate) fn sha3_256(data: &[u8]) -> (r: Hash256)
    ensures
        r.0@ == sha3_256_spec(data@),
{
    let d = sha3::Sha3_256::digest(data);
    let mut out = [0u8; 32];
    out.copy_from_slice(d.as_slice());
    Hash256(out)
}

/// Whether two digests are equal.
pub fn hash256_eq(a: &Hash256, b: &Hash256) -> (r: bool)
    ensures
        r == (a.0@ == b.0@),
{
    bytes_eq(a.0.as_slice(), b.0.as_slice())
}

/// Whether two byte strings are equal.
pub fn bytes_eq(a: &[u8], b: &[u8]) -> (r: bool)
    ensures
        r == (a@ == b@),
{
    if a.len() != b.len() {
        return false;
    }
    let mut i: usize = 0;
    while i < a.len()
        invariant
            a@.len() == b@.len(),
            i <= a@.len(),
            forall|j: int| 0 <= j < i ==> a@[j] == b@[j],
        decreases a@.len() - i,
    {
        if a[i] != b[i] {
            return false;
        }
        i = i + 1;
    }
    assert(a@ =~= b@);
    true
}

/// A fresh copy of a byte string.
pub fn copy_bytes(a: &[u8]) -> (r: Vec<u8>)
    ensures
        r@ == a@,
{
    let mut out: Vec<u8> = Vec::new();
    let mut i: usize = 0;
    while i < a.len()
        invariant
            i <= a@.len(),
            out@ == a@.take(i as int),
        decreases a@.len() - i,
    {
        out.push(a[i]);
        assert(a@.take(i + 1) =~= a@.take(i as int).push(a@[i as int]));
        i = i + 1;
    }
    assert(a@.take(a@.len() as int) =~= a@);
    out
}

/// Views of a list of byte strings.
pub open spec fn byte_views(v: Seq<Vec<u8>>) -> Seq<Seq<u8>> {
    v.map_values(|b: Vec<u8>| b@)
}

/// A fresh copy of a list of byte strings.
pub fn copy_byte_list(v: &Vec<Vec<u8>>) -> (r: Vec<Vec<u8>>)
    ensures
        byte_views(r@) == byte_views(v@),
{
    let mut out: Vec<Vec<u8>> = Vec::new();
    let mut i: usize = 0;
    while i < v.len()
        invariant
            i <= v@.len(),
            byte_views(out@) == byte_views(v@).take(i as int),
        decreases v@.len() - i,
    {
        let ghost before = out@;
        out.push(copy_bytes(v[i].as_slice()));
        assert(byte_views(out@) =~= byte_views(before).push(v@[i as int]@));
        assert(byte_views(v@).take(i + 1) =~= byte_views(v@).take(i as int).push(v@[i as int]@));
        i = i + 1;
    }
    assert(byte_views(v@).take(v@.len() as int) =~= byte_views(v@));
    out
}

/// Whether `list` holds a byte string equal to `item`.
pub fn contains_bytes(list: &Vec<Vec<u8>>, item: &[u8]) -> (r: bool)
    ensures
        r == byte_views(list@).contains(item@),
{
    let ghost views = byte_views(list@);
    let mut i: usize = 0;
    while i < list.len()
        invariant
            views == byte_views(list@),
            i <= list@.len(),
            forall|j: int| 0 <= j < i ==> views[j] != item@,
        decreases list@.len() - i,
    {
        if bytes_eq(list[i].as_slice(), item) {
            assert(views[i as int] == item@);
            return true;
        }
        i = i + 1;
    }
    false
}

/// Lower-case hexadecimal digit of a nibble.
pub open spec fn hex_digit(n: nat) -> char {
    if n < 10 {
        ((n + 48) as int) as char
    } else {
        ((n - 10 + 97) as int) as char
    }
}

/// Lower-case hexadecimal rendering: two digits per byte, high nibble
/// first.
pub open spec fn hex_of(bytes: Seq<u8>) -> Seq<char>
    decreases bytes.len(),
{
    if bytes.len() == 0 {
        Seq::empty()
    } else {
        hex_of(bytes.drop_last()) + seq![
            hex_digit((bytes.last() / 16) as nat),
            hex_digit((bytes.last() % 16) as nat),
        ]
    }
}

/// Calls `hex::encode`, which renders each byte as two lower-case
/// hexadecimal digits, high nibble first.
#[verifier::external_body]
pub(crate) fn hex_encode(bytes: &[u8]) -> (s: String)
    ensures
        s@ == hex_of(bytes@),
{
    hex::encode(bytes)
}

/// Value of a hexadecimal digit of either case.
pub open spec fn hex_val(c: char) -> Option<nat> {
    if ('0' as int) <= (c as int) <= ('9' as int) {
        Some(((c as int) - 48) as nat)
    } else if ('a' as int) <= (c as int) <= ('f' as int) {
        Some(((c as int) - 87) as nat)
    } else if ('A' as int) <= (c as int) <= ('F' as int) {
        Some(((c as int) - 55) as nat)
    } else {
        None
    }
}

/// Bytes of a hexadecimal string: two digits per byte, high nibble
/// first; `None` for an odd length or a character that is not a digit.
pub open spec fn hex_decode_spec(s: Seq<char>) -> Option<Seq<u8>>
    decreases s.len(),
{
    if s.len() == 0 {
        Some(Seq::empty())
    } else if s.len() == 1 {
        None
    } else {
        match (hex_val(s[0]), hex_val(s[1]), hex_decode_spec(s.skip(2))) {
            (Some(h), Some(l), Some(rest)) => Some(seq![(h * 16 + l) as u8] + rest),
            _ => None,
        }
    }
}

/// Names the text that `hex::FromHexError`'s `Display` gives for the
/// error `hex::decode` returns on `s`.
pub uninterp spec fn hex_error_text(s: Seq<char>) -> Seq<char>;

/// Calls `hex::decode`, which accepts an even number of hexadecimal
/// digits of either case and gives one byte per pair, high nibble first;
/// any other input is an error, returned as its `Display` text. That text
/// (which names the fault, and for a bad character its `Debug` form and
/// position) is left to the name.
#[verifier::external_body]
pub(crate) fn hex_decode(s: &str) -> (r: Result<Vec<u8>, String>)
    ensures
        match hex_decode_spec(s@) {
            Some(b) => r matches Ok(v) && v@ == b,
            None => r matches Err(e) && e@ == hex_error_text(s@),
        },
{
    match hex::decode(s) {
        Ok(v) => Ok(v),
        Err(e) => Err(e.to_string()),
    }
}

} // verus!
