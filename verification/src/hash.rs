//! SHA-256 sums in hexadecimal notation.
use vstd::prelude::*;
use crate::text;

verus! {

/// The SHA-256 digest of some bytes.
pub uninterp spec fn sha256_of(data: Seq<u8>) -> Seq<u8>;

/// Calls `Digest::digest` of `sha2::Sha256`. The digest is a function of the
/// bytes and 32 bytes long.
#[verifier::external_body]
fn sha256(data: &[u8]) -> (r: Vec<u8>)
    ensures
        r@ == sha256_of(data@),
        r@.len() == 32,
{
    <sha2::Sha256 as sha2::Digest>::digest(data).to_vec()
}

/// The hexadecimal digit that stands for `d`.
pub open spec fn hex_digit(d: int) -> char {
    if d < 10 {
        (48 + d) as char
    } else {
        (87 + d) as char
    }
}

/// `bytes` in hexadecimal notation, two digits each, in lower case.
pub open spec fn hex(bytes: Seq<u8>) -> Seq<char> {
    Seq::new(
        2 * bytes.len(),
        |i: int|
            if i % 2 == 0 {
                hex_digit(bytes[i / 2] as int / 16)
            } else {
                hex_digit(bytes[i / 2] as int % 16)
            },
    )
}

pub fn hex_char(d: u8) -> (r: char)
    requires
        d < 16,
    ensures
        r == hex_digit(d as int),
{
    if d < 10 {
        (48 + d) as char
    } else {
        (87 + d) as char
    }
}

/// `bytes` in hexadecimal notation.
pub fn to_hex(bytes: &[u8]) -> (r: String)
    ensures
        r@ == hex(bytes@),
{
    let mut s = String::new();
    let mut i: usize = 0;
    assert(hex(bytes@.take(0)) =~= Seq::<char>::empty());
    while i < bytes.len()
        invariant
            i <= bytes@.len(),
            s@ == hex(bytes@.take(i as int)),
        decreases bytes@.len() - i,
    {
        let b = bytes[i];
        s.push(hex_char(b / 16));
        s.push(hex_char(b % 16));
        proof {
            let a = hex(bytes@.take(i as int)).push(hex_digit(b as int / 16)).push(
                hex_digit(b as int % 16),
            );
            let c = hex(bytes@.take(i + 1));
            assert(a.len() == c.len());
            assert forall|k: int| 0 <= k < a.len() implies a[k] == c[k] by {
                if k < 2 * i {
                    assert(bytes@.take(i + 1)[k / 2] == bytes@.take(i as int)[k / 2]);
                }
            }
            assert(a =~= c);
        }
        i += 1;
    }
    assert(bytes@.take(bytes@.len() as int) =~= bytes@);
    s
}

/// The SHA-256 sum of `data` in hexadecimal notation: 64 digits.
pub open spec fn sum(data: Seq<u8>) -> Seq<char> {
    hex(sha256_of(data))
}

/// The SHA-256 sum of `data`.
pub fn sha256_hex(data: &[u8]) -> (r: String)
    ensures
        r@ == sum(data@),
        r@.len() == 64,
{
    let d = sha256(data);
    to_hex(d.as_slice())
}

/// The first 16 digits of the SHA-256 sum of `data`.
pub fn short_sum(data: &[u8]) -> (r: String)
    ensures
        r@ == sum(data@).take(16),
        r@.len() == 16,
{
    let h = sha256_hex(data);
    let v = text::chars_of(h.as_str());
    let t = text::string_between(&v, 0, 16);
    assert(t@ =~= sum(data@).take(16));
    t
}

/// Each byte is written with two digits, the higher one first, and can be read back from
/// them.
pub proof fn law_bytes_are_read_back(bytes: Seq<u8>, i: int)
    requires
        0 <= i < bytes.len(),
    ensures
        hex(bytes).len() == 2 * bytes.len(),
        bytes[i] == 16 * digit_of(hex(bytes)[2 * i]) + digit_of(hex(bytes)[2 * i + 1]),
        is_hex(hex(bytes)[2 * i]) && is_hex(hex(bytes)[2 * i + 1]),
{
    assert((2 * i) / 2 == i && (2 * i) % 2 == 0 && (2 * i + 1) / 2 == i && (2 * i + 1) % 2 == 1);
}

/// A digit of the hexadecimal notation, in lower case.
pub open spec fn is_hex(c: char) -> bool {
    '0' <= c <= '9' || 'a' <= c <= 'f'
}

/// What a digit of the hexadecimal notation stands for.
pub open spec fn digit_of(c: char) -> int {
    if '0' <= c <= '9' {
        c as int - 48
    } else {
        c as int - 97 + 10
    }
}

/// Different bytes are written differently.
pub proof fn law_notation_is_faithful(a: Seq<u8>, b: Seq<u8>)
    requires
        hex(a) == hex(b),
    ensures
        a == b,
{
    assert(hex(a).len() == 2 * a.len() && hex(b).len() == 2 * b.len());
    assert forall|i: int| 0 <= i < a.len() implies a[i] == b[i] by {
        law_bytes_are_read_back(a, i);
        law_bytes_are_read_back(b, i);
    }
    assert(a =~= b);
}

} // verus!
