use vstd::prelude::*;
use vstd::utf8::*;

verus! {

/// The text whose characters are the given bytes, one character per byte.
pub open spec fn latin_text(bytes: Seq<u8>) -> Seq<char> {
    Seq::new(bytes.len(), |i: int| bytes[i] as char)
}

/// Every byte is ASCII, that is below 128.
pub open spec fn all_ascii(bytes: Seq<u8>) -> bool {
    forall|i: int| 0 <= i < bytes.len() ==> #[trigger] bytes[i] < 128
}

/// ASCII bytes are valid UTF-8 and decode to one character per byte.
pub proof fn lemma_ascii_is_utf8(bytes: Seq<u8>)
    requires
        all_ascii(bytes),
    ensures
        valid_utf8(bytes),
        decode_utf8(bytes) == latin_text(bytes),
        encode_utf8(latin_text(bytes)) == bytes,
{
    let chars = latin_text(bytes);
    assert(is_ascii_chars(chars)) by {
        assert forall|i: int| 0 <= i < chars.len() implies '\0' <= #[trigger] chars[i]
            <= '\u{7f}' by {
            assert(bytes[i] < 128);
        }
    }
    is_ascii_chars_encode_utf8(chars);
    assert(encode_utf8(chars) =~= bytes) by {
        assert forall|i: int| 0 <= i < bytes.len() implies encode_utf8(chars)[i] == bytes[i] by {
            assert(chars[i] as u8 == encode_utf8(chars)[i]);
            assert(bytes[i] < 128);
        }
    }
    encode_utf8_valid_utf8(chars);
    encode_utf8_decode_utf8(chars);
}

/// Calls `String::from_utf8`. Trusted: the call gives a string exactly when
/// the bytes are well-formed UTF-8, and that string is their decoding.
#[verifier::external_body]
pub(crate) fn string_from_utf8(bytes: Vec<u8>) -> (r: Option<String>)
    ensures
        r is Some <==> valid_utf8(bytes@),
        r matches Some(s) ==> s@ == decode_utf8(bytes@),
{
    String::from_utf8(bytes).ok()
}

/// The text of ASCII bytes, one character per byte. ASCII is well-formed
/// UTF-8, so the decoding cannot fail.
pub fn ascii_string(bytes: Vec<u8>) -> (r: String)
    requires
        all_ascii(bytes@),
    ensures
        r@ == latin_text(bytes@),
{
    proof {
        lemma_ascii_is_utf8(bytes@);
    }
    match string_from_utf8(bytes) {
        Some(s) => s,
        None => String::new(),
    }
}

/// The ASCII code of the lower-case hex digit for a value below 16.
pub open spec fn hex_digit(n: u8) -> u8 {
    if n < 10 {
        (0x30 + n) as u8
    } else {
        (0x57 + n) as u8
    }
}

/// The ASCII codes of the hex form of `bytes`: for each byte its high half, then its low half.
pub open spec fn hex_bytes(bytes: Seq<u8>) -> Seq<u8> {
    Seq::new(
        2 * bytes.len(),
        |i: int|
            if i % 2 == 0 {
                hex_digit(bytes[i / 2] / 16)
            } else {
                hex_digit(bytes[i / 2] % 16)
            },
    )
}

/// The lower-case hex form of `bytes`, two digits per byte.
pub open spec fn hex_text(bytes: Seq<u8>) -> Seq<char> {
    latin_text(hex_bytes(bytes))
}

fn hex_digit_of(n: u8) -> (r: u8)
    requires
        n < 16,
    ensures
        r == hex_digit(n),
        r < 128,
{
    if n < 10 {
        0x30 + n
    } else {
        0x57 + n
    }
}

/// Writes bytes in lower-case hex, two digits per byte.
pub fn hex_string(bytes: &[u8]) -> (r: String)
    ensures
        r@ == hex_text(bytes@),
{
    let mut out: Vec<u8> = Vec::new();
    let mut i: usize = 0;
    while i < bytes.len()
        invariant
            i <= bytes@.len(),
            out@.len() == 2 * i,
            forall|k: int|
                0 <= k < i ==> out@[2 * k] == hex_digit(#[trigger] bytes@[k] / 16) && out@[2 * k
                    + 1] == hex_digit(bytes@[k] % 16),
            all_ascii(out@),
        decreases bytes@.len() - i,
    {
        let b: u8 = bytes[i];
        out.push(hex_digit_of(b / 16));
        out.push(hex_digit_of(b % 16));
        i += 1;
    }
    proof {
        assert(out@ =~= hex_bytes(bytes@)) by {
            assert forall|j: int| 0 <= j < out@.len() implies out@[j] == hex_bytes(bytes@)[j] by {
                let k = j / 2;
                assert(0 <= k < i);
                assert(out@[2 * k] == hex_digit(bytes@[k] / 16));
                assert(j == 2 * k || j == 2 * k + 1);
            }
        }
    }
    ascii_string(out)
}

/// The ASCII codes of the decimal digits of `n`, without leading zeros.
pub open spec fn decimal_bytes(n: u32) -> Seq<u8>
    decreases n,
{
    if n < 10 {
        seq![(0x30 + n) as u8]
    } else {
        decimal_bytes(n / 10).push((0x30 + n % 10) as u8)
    }
}

/// The decimal form of `n`.
pub open spec fn decimal_text(n: u32) -> Seq<char> {
    latin_text(decimal_bytes(n))
}

fn push_decimal(out: &mut Vec<u8>, n: u32)
    requires
        all_ascii(old(out)@),
    ensures
        final(out)@ == old(out)@ + decimal_bytes(n),
        all_ascii(final(out)@),
    decreases n,
{
    if n >= 10 {
        push_decimal(out, n / 10);
    }
    let digit: u8 = 0x30 + (n % 10) as u8;
    out.push(digit);
    assert(out@ =~= old(out)@ + decimal_bytes(n));
}

/// Writes a number in decimal.
pub fn decimal_string(n: u32) -> (r: String)
    ensures
        r@ == decimal_text(n),
{
    let mut out: Vec<u8> = Vec::new();
    push_decimal(&mut out, n);
    assert(out@ =~= decimal_bytes(n));
    ascii_string(out)
}

} // verus!
