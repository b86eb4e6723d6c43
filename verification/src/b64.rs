//! Base64 (standard alphabet, with padding) for `#[typewire(base64)]`
//! byte fields.

use vstd::prelude::*;

use base64::Engine as _;

verus! {

/// Why a string is not valid base64.
#[derive(Clone, Copy, Debug, PartialEq, Eq)]
pub enum Base64Error {
    /// A byte outside the alphabet (or misplaced padding) at an offset.
    InvalidByte(usize, u8),
    /// The number of symbols cannot come from any encoding.
    InvalidLength(usize),
    /// The last symbol has bits set that no encoding leaves set.
    InvalidLastSymbol(usize, u8),
    /// The padding is missing or not canonical.
    InvalidPadding,
}

/// The base64 digit for a value below 64: `A`-`Z`, `a`-`z`, `0`-`9`, `+`,
/// `/`.
pub open spec fn b64_digit(v: int) -> char {
    if v < 26 {
        (65 + v) as char
    } else if v < 52 {
        (97 + v - 26) as char
    } else if v < 62 {
        (48 + v - 52) as char
    } else if v == 62 {
        '+'
    } else {
        '/'
    }
}

/// The standard base64 encoding of bytes (RFC 4648, with padding): each
/// group of three bytes gives four digits of six bits each, and a last
/// group of one or two bytes is padded with `=` to four characters.
pub open spec fn base64_of(b: Seq<u8>) -> Seq<char>
    decreases b.len(),
{
    if b.len() == 0 {
        Seq::empty()
    } else {
        let x = b[0] as int;
        let y = if b.len() > 1 {
            b[1] as int
        } else {
            0
        };
        let z = if b.len() > 2 {
            b[2] as int
        } else {
            0
        };
        let first = seq![b64_digit(x / 4), b64_digit((x % 4) * 16 + y / 16)];
        if b.len() == 1 {
            first + seq!['=', '=']
        } else if b.len() == 2 {
            first + seq![b64_digit((y % 16) * 4), '=']
        } else {
            first + seq![b64_digit((y % 16) * 4 + z / 64), b64_digit(z % 64)] + base64_of(
                b.skip(3),
            )
        }
    }
}

/// Whether a string is the standard encoding of some bytes.
pub open spec fn is_base64(s: Seq<char>) -> bool {
    exists|v: Seq<u8>| base64_of(v) == s
}

proof fn lemma_digit_injective(u: int, v: int)
    requires
        0 <= u < 64,
        0 <= v < 64,
        b64_digit(u) == b64_digit(v),
    ensures
        u == v,
{
    assert(b64_digit(u) as u32 == if u < 26 { 65 + u } else if u < 52 { 97 + u - 26 } else if u < 62 {
        48 + u - 52 } else if u == 62 { 43 } else { 47 });
    assert(b64_digit(v) as u32 == if v < 26 { 65 + v } else if v < 52 { 97 + v - 26 } else if v < 62 {
        48 + v - 52 } else if v == 62 { 43 } else { 47 });
}

proof fn lemma_digit_not_pad(u: int)
    requires
        0 <= u < 64,
    ensures
        b64_digit(u) != '=',
{
    assert(b64_digit(u) as u32 == if u < 26 { 65 + u } else if u < 52 { 97 + u - 26 } else if u < 62 {
        48 + u - 52 } else if u == 62 { 43 } else { 47 });
}

/// Different bytes have different encodings.
pub proof fn lemma_base64_injective(a: Seq<u8>, b: Seq<u8>)
    requires
        base64_of(a) == base64_of(b),
    ensures
        a == b,
    decreases a.len(),
{
    let ea = base64_of(a);
    if a.len() == 0 || b.len() == 0 {
        if a.len() != b.len() {
            let c = if a.len() == 0 { b } else { a };
            assert(base64_of(c).len() >= 4);
        }
        assert(a =~= b);
    } else {
        let (x1, x2) = (a[0], b[0]);
        let y1: u8 = if a.len() > 1 { a[1] } else { 0 };
        let y2: u8 = if b.len() > 1 { b[1] } else { 0 };
        let z1: u8 = if a.len() > 2 { a[2] } else { 0 };
        let z2: u8 = if b.len() > 2 { b[2] } else { 0 };
        assert(ea.len() >= 4);
        assert(ea[0] == b64_digit(x1 as int / 4) && ea[0] == b64_digit(x2 as int / 4));
        lemma_digit_injective(x1 as int / 4, x2 as int / 4);
        assert(ea[1] == b64_digit((x1 as int % 4) * 16 + y1 as int / 16));
        assert(base64_of(b)[1] == b64_digit((x2 as int % 4) * 16 + y2 as int / 16));
        lemma_digit_injective((x1 as int % 4) * 16 + y1 as int / 16, (x2 as int % 4) * 16 + y2 as int / 16);
        // The third and fourth characters tell how many bytes the group has.
        if a.len() == 1 || b.len() == 1 {
            if a.len() != 1 {
                assert(ea[2] == b64_digit((y1 as int % 16) * 4 + z1 as int / 64));
                lemma_digit_not_pad((y1 as int % 16) * 4 + z1 as int / 64);
            } else {
                assert(ea[2] == '=');
            }
            if b.len() != 1 {
                assert(base64_of(b)[2] == b64_digit((y2 as int % 16) * 4 + z2 as int / 64));
                lemma_digit_not_pad((y2 as int % 16) * 4 + z2 as int / 64);
            } else {
                assert(base64_of(b)[2] == '=');
            }
            assert(a.len() == 1 && b.len() == 1);
            assert(x1 / 4 == x2 / 4 && (x1 % 4) * 16 + y1 / 16 == (x2 % 4) * 16 + y2 / 16 && y1 == 0 && y2 == 0
                ==> x1 == x2) by (bit_vector);
            assert(a =~= b);
        } else {
            assert(ea[2] == b64_digit((y1 as int % 16) * 4 + z1 as int / 64));
            assert(base64_of(b)[2] == b64_digit((y2 as int % 16) * 4 + z2 as int / 64));
            lemma_digit_injective((y1 as int % 16) * 4 + z1 as int / 64, (y2 as int % 16) * 4 + z2 as int / 64);
            if a.len() == 2 || b.len() == 2 {
                if a.len() != 2 {
                    assert(ea[3] == b64_digit(z1 as int % 64));
                    lemma_digit_not_pad(z1 as int % 64);
                } else {
                    assert(ea[3] == '=');
                }
                if b.len() != 2 {
                    assert(base64_of(b)[3] == b64_digit(z2 as int % 64));
                    lemma_digit_not_pad(z2 as int % 64);
                } else {
                    assert(base64_of(b)[3] == '=');
                }
                assert(a.len() == 2 && b.len() == 2);
                assert(x1 / 4 == x2 / 4 && (x1 % 4) * 16 + y1 / 16 == (x2 % 4) * 16 + y2 / 16 && (y1 % 16) * 4
                    == (y2 % 16) * 4 ==> x1 == x2 && y1 == y2) by (bit_vector);
                assert(a =~= b);
            } else {
                assert(ea[3] == b64_digit(z1 as int % 64));
                assert(base64_of(b)[3] == b64_digit(z2 as int % 64));
                lemma_digit_injective(z1 as int % 64, z2 as int % 64);
                assert(x1 / 4 == x2 / 4 && (x1 % 4) * 16 + y1 / 16 == (x2 % 4) * 16 + y2 / 16 && (y1 % 16) * 4
                    + z1 / 64 == (y2 % 16) * 4 + z2 / 64 && z1 % 64 == z2 % 64 ==> x1 == x2 && y1 == y2 && z1
                    == z2) by (bit_vector);
                assert(base64_of(a.skip(3)) =~= ea.skip(4));
                assert(base64_of(b.skip(3)) =~= ea.skip(4));
                lemma_base64_injective(a.skip(3), b.skip(3));
                assert(a =~= seq![x1, y1, z1] + a.skip(3));
                assert(b =~= seq![x2, y2, z2] + b.skip(3));
            }
        }
    }
}

/// `base64::engine::general_purpose::STANDARD.encode`: the standard
/// encoding of the bytes with padding. The crate panics when the length of the output does not
/// fit in `usize`; that input is left out.
#[verifier::external_body]
fn standard_encode(bytes: &[u8]) -> (r: String)
    requires
        bytes@.len() / 3 * 4 + 4 <= usize::MAX,
    ensures
        r@ == base64_of(bytes@),
{
    base64::engine::general_purpose::STANDARD.encode(bytes)
}

/// Which error the `base64` standard engine gives for a string it
/// rejects.
pub uninterp spec fn base64_decode_error(s: Seq<char>) -> Base64Error;

/// `base64::engine::general_purpose::STANDARD.decode`, with the crate's
/// `DecodeError` taken variant by variant into `Base64Error`: the engine
/// requires canonical padding and no trailing bits, so it succeeds exactly
/// on the standard encodings of bytes, and gives those bytes. Which error
/// a rejected string gets is the name `base64_decode_error`.
#[verifier::external_body]
fn standard_decode(s: &str) -> (r: Result<Vec<u8>, Base64Error>)
    ensures
        r is Ok <==> is_base64(s@),
        r matches Ok(v) ==> base64_of(v@) == s@,
        r matches Err(e) ==> e == base64_decode_error(s@),
{
    match base64::engine::general_purpose::STANDARD.decode(s) {
        Ok(v) => Ok(v),
        Err(base64::DecodeError::InvalidByte(offset, byte)) => Err(Base64Error::InvalidByte(offset, byte)),
        Err(base64::DecodeError::InvalidLength(len)) => Err(Base64Error::InvalidLength(len)),
        Err(base64::DecodeError::InvalidLastSymbol(offset, byte)) => Err(Base64Error::InvalidLastSymbol(offset, byte)),
        Err(base64::DecodeError::InvalidPadding) => Err(Base64Error::InvalidPadding),
    }
}

/// Base64-encodes bytes (standard alphabet, with padding).
pub fn base64_encode(bytes: &[u8]) -> (r: String)
    requires
        bytes@.len() / 3 * 4 + 4 <= usize::MAX,
    ensures
        r@ == base64_of(bytes@),
{
    standard_encode(bytes)
}

/// Base64-decodes a string (standard alphabet, canonical padding): the
/// bytes whose encoding the string is, or the engine's error for it.
pub fn base64_decode(s: &str) -> (r: Result<Vec<u8>, Base64Error>)
    ensures
        r is Ok <==> is_base64(s@),
        r matches Ok(v) ==> base64_of(v@) == s@,
        r matches Err(e) ==> e == base64_decode_error(s@),
{
    standard_decode(s)
}

/// Decoding gives back the bytes that were encoded: the standard encoding
/// of bytes decodes, and only to those bytes.
pub proof fn lemma_decode_encode(b: Seq<u8>, v: Seq<u8>)
    requires
        base64_of(v) == base64_of(b),
    ensures
        is_base64(base64_of(b)),
        v == b,
{
    lemma_base64_injective(v, b);
}

} // verus!
