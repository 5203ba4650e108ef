//! Digests: SHA-256 over bytes, rendered as lower-case hexadecimal text.

use vstd::prelude::*;

verus! {

/// The bytes that `sha2::Sha256::digest` returns for `data`.
///
/// The hash function is computed by the `sha2` crate and is not modelled
/// here; the library only relies on it being a function of the input bytes.
pub uninterp spec fn sha256(data: Seq<u8>) -> Seq<u8>;

/// The lower-case hexadecimal digit for a value below sixteen.
pub open spec fn hex_digit(nibble: int) -> char {
    if nibble == 0 {
        '0'
    } else if nibble == 1 {
        '1'
    } else if nibble == 2 {
        '2'
    } else if nibble == 3 {
        '3'
    } else if nibble == 4 {
        '4'
    } else if nibble == 5 {
        '5'
    } else if nibble == 6 {
        '6'
    } else if nibble == 7 {
        '7'
    } else if nibble == 8 {
        '8'
    } else if nibble == 9 {
        '9'
    } else if nibble == 10 {
        'a'
    } else if nibble == 11 {
        'b'
    } else if nibble == 12 {
        'c'
    } else if nibble == 13 {
        'd'
    } else if nibble == 14 {
        'e'
    } else {
        'f'
    }
}

/// Whether `c` is one of `0`..`9`, `a`..`f`.
pub open spec fn is_hex_digit(c: char) -> bool {
    exists|nibble: int| 0 <= nibble < 16 && c == #[trigger] hex_digit(nibble)
}

/// Lower-case hexadecimal text of `data`: two digits per byte, the high
/// half of each byte first.
pub open spec fn hex_lower(data: Seq<u8>) -> Seq<char> {
    Seq::new(
        2 * data.len(),
        |i: int|
            if i % 2 == 0 {
                hex_digit(data[i / 2] as int / 16)
            } else {
                hex_digit(data[i / 2] as int % 16)
            },
    )
}

/// Whether `x` and `y` are different inputs with the same SHA-256 digest.
/// None is known, and finding one is taken to be infeasible; nothing in
/// this library rules it out.
pub open spec fn sha256_collision(x: Seq<u8>, y: Seq<u8>) -> bool {
    x != y && sha256(x) == sha256(y)
}

/// Calls `sha2::Sha256::digest` (the `Digest::digest` convenience method,
/// which creates a hasher, feeds it `data` once and finalises it) and copies
/// the output array into a vector.
///
/// Trusted: the result is the value named [`sha256`] for these bytes, and it
/// is 32 bytes long, the output size that `sha2` declares for `Sha256`.
#[verifier::external_body]
fn sha256_bytes(data: &[u8]) -> (out: Vec<u8>)
    ensures
        out@ == sha256(data@),
        out@.len() == 32,
{
    <sha2::Sha256 as sha2::Digest>::digest(data).to_vec()
}

/// Calls `hex::encode` on a byte slice.
///
/// Trusted: the result is [`hex_lower`] of the bytes, as `hex` documents:
/// each byte becomes two digits taken from `0123456789abcdef`, the upper
/// four bits first.
#[verifier::external_body]
fn hex_encode(data: &[u8]) -> (text: String)
    ensures
        text@ == hex_lower(data@),
{
    hex::encode(data)
}

/// Renders raw digest bytes as text.
pub fn render_digest(raw: &[u8]) -> (text: String)
    ensures
        text@ == hex_lower(raw@),
        text@.len() == 2 * raw@.len(),
        forall|i: int| 0 <= i < text@.len() ==> is_hex_digit(#[trigger] text@[i]),
{
    let text = hex_encode(raw);
    proof {
        lemma_hex_lower_digits(raw@);
    }
    text
}

/// The digest text of `data`: SHA-256, rendered in lower-case hexadecimal.
pub open spec fn digest_text(data: Seq<u8>) -> Seq<char> {
    hex_lower(sha256(data))
}

/// Hashes `data` and renders the digest as 64 lower-case hexadecimal
/// characters.
pub fn hash_bytes(data: &[u8]) -> (text: String)
    ensures
        text@ == digest_text(data@),
        text@.len() == 64,
        forall|i: int| 0 <= i < 64 ==> is_hex_digit(#[trigger] text@[i]),
{
    let raw = sha256_bytes(data);
    render_digest(raw.as_slice())
}

/// Every character of hexadecimal text is a hexadecimal digit.
pub proof fn lemma_hex_lower_digits(data: Seq<u8>)
    ensures
        hex_lower(data).len() == 2 * data.len(),
        forall|i: int|
            0 <= i < hex_lower(data).len() ==> is_hex_digit(#[trigger] hex_lower(data)[i]),
{
    assert forall|i: int| 0 <= i < hex_lower(data).len() implies is_hex_digit(
        #[trigger] hex_lower(data)[i],
    ) by {
        let byte = data[i / 2] as int;
        if i % 2 == 0 {
            assert(hex_lower(data)[i] == hex_digit(byte / 16));
            assert(0 <= byte / 16 < 16);
        } else {
            assert(hex_lower(data)[i] == hex_digit(byte % 16));
            assert(0 <= byte % 16 < 16);
        }
    }
}

/// Two values below sixteen with the same hexadecimal digit are equal.
pub proof fn lemma_hex_digit_injective(a: int, b: int)
    requires
        0 <= a < 16,
        0 <= b < 16,
        hex_digit(a) == hex_digit(b),
    ensures
        a == b,
{
}

/// Byte sequences with the same hexadecimal text are equal.
pub proof fn lemma_hex_lower_injective(x: Seq<u8>, y: Seq<u8>)
    requires
        hex_lower(x) == hex_lower(y),
    ensures
        x == y,
{
    assert(hex_lower(x).len() == 2 * x.len());
    assert(hex_lower(y).len() == 2 * y.len());
    assert forall|i: int| 0 <= i < x.len() implies x[i] == y[i] by {
        let a = x[i] as int;
        let b = y[i] as int;
        assert((2 * i) / 2 == i && (2 * i) % 2 == 0);
        assert((2 * i + 1) / 2 == i && (2 * i + 1) % 2 == 1);
        assert(hex_lower(x)[2 * i] == hex_digit(a / 16));
        assert(hex_lower(y)[2 * i] == hex_digit(b / 16));
        assert(hex_lower(x)[2 * i + 1] == hex_digit(a % 16));
        assert(hex_lower(y)[2 * i + 1] == hex_digit(b % 16));
        lemma_hex_digit_injective(a / 16, b / 16);
        lemma_hex_digit_injective(a % 16, b % 16);
        assert(a == 16 * (a / 16) + a % 16);
        assert(b == 16 * (b / 16) + b % 16);
    }
    assert(x =~= y);
}

/// Different inputs have different digest texts unless they collide under
/// SHA-256.
pub proof fn lemma_digest_text_differs(x: Seq<u8>, y: Seq<u8>)
    requires
        x != y,
        !sha256_collision(x, y),
    ensures
        digest_text(x) != digest_text(y),
{
    if digest_text(x) == digest_text(y) {
        lemma_hex_lower_injective(sha256(x), sha256(y));
    }
}

} // verus!
