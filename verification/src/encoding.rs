//! Texts in URLs: percent encoding, and Base64 with the alphabet for URLs.

use crate::outside::{lossy_text, text_of_bytes};
use crate::text::is_alphanumeric;
use vstd::prelude::*;
use vstd::utf8::{encode_utf8, is_ascii_chars};

verus! {

// ---------------------------------------------------------------------------
// Percent encoding
// ---------------------------------------------------------------------------

/// Whether a byte stands for itself in a URL: ASCII letters and digits, and
/// the characters `-`, `_`, `.` and `~`.
pub open spec fn is_unreserved(b: u8) -> bool {
    ||| 0x30 <= b <= 0x39
    ||| 0x41 <= b <= 0x5a
    ||| 0x61 <= b <= 0x7a
    ||| b == 0x2d
    ||| b == 0x5f
    ||| b == 0x2e
    ||| b == 0x7e
}

/// The hexadecimal digit of a number below sixteen, with capitals.
pub open spec fn upper_hex_digit(n: nat) -> char {
    if n < 10 {
        (0x30 + n) as char
    } else {
        (0x37 + n) as char
    }
}

/// A byte in a URL: itself, or a percent sign and two digits.
pub open spec fn percent_byte(b: u8) -> Seq<char> {
    if is_unreserved(b) {
        seq![b as char]
    } else {
        seq!['%', upper_hex_digit(b as nat / 16), upper_hex_digit(b as nat % 16)]
    }
}

/// Bytes in a URL.
pub open spec fn percent_text(bytes: Seq<u8>) -> Seq<char>
    decreases bytes.len(),
{
    if bytes.len() == 0 {
        Seq::empty()
    } else {
        percent_byte(bytes[0]) + percent_text(bytes.skip(1))
    }
}

fn write_upper_hex_digit(n: u8) -> (res: char)
    requires
        n < 16,
    ensures
        res == upper_hex_digit(n as nat),
{
    if n < 10 {
        (0x30u8 + n) as char
    } else {
        (0x37u8 + n) as char
    }
}

/// A text in a URL.
pub fn url_encode(value: &str) -> (res: String)
    ensures
        res@ == percent_text(encode_utf8(value@)),
{
    let bytes = value.as_bytes();
    let mut res = String::new();
    let mut i: usize = 0;
    assert(bytes@.skip(0) == bytes@);
    assert(res@ + percent_text(bytes@) =~= percent_text(bytes@));
    while i < bytes.len()
        invariant
            i <= bytes@.len(),
            res@ + percent_text(bytes@.skip(i as int)) == percent_text(bytes@),
        decreases bytes@.len() - i,
    {
        let byte = bytes[i];
        let ghost before = res@;
        let ghost later = percent_text(bytes@.skip(i + 1));
        assert(bytes@.skip(i as int)[0] == byte);
        assert(bytes@.skip(i as int).skip(1) == bytes@.skip(i + 1));
        let unreserved = (0x30 <= byte && byte <= 0x39) || (0x41 <= byte && byte <= 0x5a) || (0x61
            <= byte && byte <= 0x7a) || byte == 0x2d || byte == 0x5f || byte == 0x2e || byte
            == 0x7e;
        if unreserved {
            res.push(byte as char);
        } else {
            res.push('%');
            res.push(write_upper_hex_digit(byte / 16));
            res.push(write_upper_hex_digit(byte % 16));
        }
        assert(res@ =~= before + percent_byte(byte));
        assert(before + (percent_byte(byte) + later) =~= res@ + later);
        i = i + 1;
    }
    assert(bytes@.skip(i as int).len() == 0);
    assert(res@ =~= percent_text(bytes@));
    res
}

/// The value of a hexadecimal digit.
pub open spec fn hex_digit_value(b: u8) -> Option<u8> {
    if 0x30 <= b <= 0x39 {
        Some((b - 0x30) as u8)
    } else if 0x61 <= b <= 0x66 {
        Some((b - 0x57) as u8)
    } else if 0x41 <= b <= 0x46 {
        Some((b - 0x37) as u8)
    } else {
        None
    }
}

fn hex_value(byte: u8) -> (res: Option<u8>)
    ensures
        res == hex_digit_value(byte),
        res matches Some(value) ==> value < 16,
{
    if 0x30 <= byte && byte <= 0x39 {
        Some(byte - 0x30)
    } else if 0x61 <= byte && byte <= 0x66 {
        Some(byte - 0x57)
    } else if 0x41 <= byte && byte <= 0x46 {
        Some(byte - 0x37)
    } else {
        None
    }
}

/// The byte that a percent sign and two digits stand for, where the rest of a
/// text begins with them.
pub open spec fn escaped_byte(rest: Seq<u8>) -> Option<u8> {
    if rest.len() > 2 && rest[0] == 0x25 {
        match (hex_digit_value(rest[1]), hex_digit_value(rest[2])) {
            (Some(high), Some(low)) => Some((high * 16 + low) as u8),
            _ => None,
        }
    } else {
        None
    }
}

/// The bytes that a text in a URL stands for. A plus stands for a space, and
/// a percent sign without two digits for itself.
pub open spec fn percent_decoded(rest: Seq<u8>) -> Seq<u8>
    decreases rest.len(),
{
    if rest.len() == 0 {
        Seq::empty()
    } else {
        match escaped_byte(rest) {
            Some(byte) => seq![byte] + percent_decoded(rest.skip(3)),
            None => seq![
                if rest[0] == 0x2b {
                    0x20u8
                } else {
                    rest[0]
                },
            ] + percent_decoded(rest.skip(1)),
        }
    }
}

/// The text that a text in a URL stands for.
pub open spec fn url_decoded(value: Seq<char>) -> Seq<char> {
    lossy_text(percent_decoded(encode_utf8(value)))
}

/// The text that a text in a URL stands for.
pub fn url_decode(value: &str) -> (res: String)
    ensures
        res@ == url_decoded(value@),
{
    let bytes = value.as_bytes();
    let mut out: Vec<u8> = Vec::new();
    let mut i: usize = 0;
    assert(bytes@.skip(0) == bytes@);
    assert(out@ + percent_decoded(bytes@) =~= percent_decoded(bytes@));
    while i < bytes.len()
        invariant
            i <= bytes@.len(),
            out@ + percent_decoded(bytes@.skip(i as int)) == percent_decoded(bytes@),
        decreases bytes@.len() - i,
    {
        let byte = bytes[i];
        let ghost rest = bytes@.skip(i as int);
        let ghost before = out@;
        assert(rest[0] == byte);
        assert(rest.skip(1) == bytes@.skip(i + 1));
        let mut escaped: Option<u8> = None;
        if byte == 0x25 && bytes.len() - i > 2 {
            assert(rest[1] == bytes@[i + 1]);
            assert(rest[2] == bytes@[i + 2]);
            if let (Some(high), Some(low)) = (hex_value(bytes[i + 1]), hex_value(bytes[i + 2])) {
                escaped = Some(high * 16 + low);
            }
        }
        assert(escaped == escaped_byte(rest));
        match escaped {
            Some(byte) => {
                out.push(byte);
                assert(rest.skip(3) == bytes@.skip(i + 3));
                proof {
                    let later = percent_decoded(rest.skip(3));
                    assert(before + (seq![byte] + later) =~= out@ + later);
                }
                i = i + 3;
            },
            None => {
                if byte == 0x2b {
                    out.push(0x20);
                } else {
                    out.push(byte);
                }
                proof {
                    let later = percent_decoded(rest.skip(1));
                    assert(before + (seq![out@.last()] + later) =~= out@ + later);
                }
                i = i + 1;
            },
        }
    }
    assert(bytes@.skip(i as int).len() == 0);
    assert(out@ =~= percent_decoded(bytes@));
    text_of_bytes(&out)
}

/// The characters of an ASCII text as bytes.
spec fn ascii_bytes(s: Seq<char>) -> Seq<u8> {
    s.map_values(|c: char| c as u8)
}

proof fn lemma_percent_text_ascii(bytes: Seq<u8>)
    ensures
        is_ascii_chars(percent_text(bytes)),
    decreases bytes.len(),
{
    if bytes.len() > 0 {
        lemma_percent_text_ascii(bytes.skip(1));
        let piece = percent_byte(bytes[0]);
        let later = percent_text(bytes.skip(1));
        assert forall|i: int| 0 <= i < (piece + later).len() implies '\0' <= #[trigger] (piece
            + later)[i] <= '\u{7f}' by {
            if i >= piece.len() {
                assert((piece + later)[i] == later[i - piece.len()]);
            } else {
                assert((piece + later)[i] == piece[i]);
            }
        }
    }
}

proof fn lemma_decode_percent_text(bytes: Seq<u8>)
    ensures
        percent_decoded(ascii_bytes(percent_text(bytes))) == bytes,
    decreases bytes.len(),
{
    if bytes.len() > 0 {
        let b = bytes[0];
        let piece = percent_byte(b);
        let later = percent_text(bytes.skip(1));
        let all = ascii_bytes(piece + later);
        lemma_decode_percent_text(bytes.skip(1));
        assert(all.skip(piece.len() as int) =~= ascii_bytes(later));
        assert(all[0] == piece[0] as u8);
        if is_unreserved(b) {
            assert(escaped_byte(all) is None);
            assert(percent_decoded(all) == seq![b] + percent_decoded(all.skip(1)));
        } else {
            assert(all[1] == piece[1] as u8);
            assert(all[2] == piece[2] as u8);
            assert(hex_digit_value(all[1]) == Some((b / 16) as u8));
            assert(hex_digit_value(all[2]) == Some((b % 16) as u8));
            assert(escaped_byte(all) == Some(b));
        }
        assert(seq![b] + bytes.skip(1) =~= bytes);
    } else {
        assert(percent_decoded(ascii_bytes(percent_text(bytes))) =~= bytes);
    }
}

/// Decoding what was encoded gives back the text, whatever it holds.
pub proof fn law_url_decode_undoes_url_encode(value: Seq<char>)
    ensures
        url_decoded(percent_text(encode_utf8(value))) == value,
{
    broadcast use vstd::utf8::encode_utf8_valid_utf8, vstd::utf8::encode_utf8_decode_utf8;

    let bytes = encode_utf8(value);
    let encoded = percent_text(bytes);
    lemma_percent_text_ascii(bytes);
    vstd::utf8::is_ascii_chars_encode_utf8(encoded);
    assert(encode_utf8(encoded) =~= ascii_bytes(encoded)) by {
        assert forall|i: int| 0 <= i < encoded.len() implies encode_utf8(encoded)[i]
            == ascii_bytes(encoded)[i] by {
            assert(encoded[i] as u8 == encode_utf8(encoded)[i]);
        }
    }
    lemma_decode_percent_text(bytes);
}

/// Whether a character stands for itself in a URL.
pub open spec fn is_url_safe(c: char) -> bool {
    is_alphanumeric(c) || c == '-' || c == '_' || c == '.' || c == '~'
}

proof fn lemma_plain_bytes(bytes: Seq<u8>)
    requires
        forall|i: int| 0 <= i < bytes.len() ==> is_unreserved(#[trigger] bytes[i]),
    ensures
        percent_text(bytes) == Seq::new(bytes.len(), |i: int| bytes[i] as char),
    decreases bytes.len(),
{
    if bytes.len() > 0 {
        lemma_plain_bytes(bytes.skip(1));
        assert(is_unreserved(bytes[0]));
    }
    assert(percent_text(bytes) =~= Seq::new(bytes.len(), |i: int| bytes[i] as char));
}

/// A text of characters that stand for themselves is left as it is.
pub proof fn law_plain_text_stays(value: Seq<char>)
    requires
        forall|i: int| 0 <= i < value.len() ==> is_url_safe(#[trigger] value[i]),
    ensures
        percent_text(encode_utf8(value)) == value,
{
    let bytes = encode_utf8(value);
    assert(is_ascii_chars(value));
    vstd::utf8::is_ascii_chars_encode_utf8(value);
    assert forall|i: int| 0 <= i < bytes.len() implies is_unreserved(#[trigger] bytes[i])
        && bytes[i] as char == value[i] by {
        assert(is_url_safe(value[i]));
        assert(value[i] as u8 == bytes[i]);
    }
    lemma_plain_bytes(bytes);
    assert(percent_text(bytes) =~= value);
}

/// An encoded text holds characters that stand for themselves and percent
/// signs only: nothing in it ends a value or a query.
pub proof fn law_encoded_text_is_one_value(bytes: Seq<u8>, i: int)
    requires
        0 <= i < percent_text(bytes).len(),
    ensures
        ({
            let c = percent_text(bytes)[i];
            c == '%' || is_url_safe(c)
        }),
    decreases bytes.len(),
{
    let piece = percent_byte(bytes[0]);
    let later = percent_text(bytes.skip(1));
    if i < piece.len() {
        assert(percent_text(bytes)[i] == piece[i]);
    } else {
        law_encoded_text_is_one_value(bytes.skip(1), i - piece.len());
        assert(percent_text(bytes)[i] == later[i - piece.len()]);
    }
}

// ---------------------------------------------------------------------------
// Base64
// ---------------------------------------------------------------------------

/// The character of a number below 64.
#[verifier::opaque]
pub open spec fn base64_char(n: nat) -> char {
    if n < 26 {
        (0x41 + n) as char
    } else if n < 52 {
        (0x47 + n) as char
    } else if n < 62 {
        (n - 4) as char
    } else if n == 62 {
        '-'
    } else {
        '_'
    }
}

/// The characters of three bytes, two bytes or one byte: six bits each, the
/// last ones filled up with zeros.
pub open spec fn base64_group(bytes: Seq<u8>) -> Seq<char> {
    if bytes.len() >= 3 {
        let n = bytes[0] as nat * 0x1_0000 + bytes[1] as nat * 0x100 + bytes[2] as nat;
        seq![
            base64_char(n / 0x4_0000),
            base64_char(n / 0x1000 % 64),
            base64_char(n / 64 % 64),
            base64_char(n % 64),
        ]
    } else if bytes.len() == 2 {
        let n = bytes[0] as nat * 0x400 + bytes[1] as nat * 4;
        seq![base64_char(n / 0x1000), base64_char(n / 64 % 64), base64_char(n % 64)]
    } else if bytes.len() == 1 {
        let n = bytes[0] as nat * 16;
        seq![base64_char(n / 64), base64_char(n % 64)]
    } else {
        Seq::empty()
    }
}

/// Bytes in Base64 with the alphabet for URLs, without padding.
pub open spec fn base64_text(bytes: Seq<u8>) -> Seq<char>
    decreases bytes.len(),
{
    if bytes.len() <= 3 {
        base64_group(bytes)
    } else {
        base64_group(bytes.take(3)) + base64_text(bytes.skip(3))
    }
}

fn write_base64_char(n: u32) -> (res: char)
    requires
        n < 64,
    ensures
        res == base64_char(n as nat),
{
    reveal(base64_char);
    if n < 26 {
        (0x41u8 + n as u8) as char
    } else if n < 52 {
        (0x47u8 + n as u8) as char
    } else if n < 62 {
        (n as u8 - 4) as char
    } else if n == 62 {
        '-'
    } else {
        '_'
    }
}

/// Bytes in Base64 with the alphabet for URLs, without padding.
pub fn base64url_no_pad(bytes: &[u8]) -> (res: String)
    ensures
        res@ == base64_text(bytes@),
{
    let mut res = String::new();
    let mut i: usize = 0;
    assert(bytes@.skip(0) == bytes@);
    assert(res@ + base64_text(bytes@) =~= base64_text(bytes@));
    while bytes.len() - i >= 3
        invariant
            i <= bytes@.len(),
            res@ + base64_text(bytes@.skip(i as int)) == base64_text(bytes@),
        decreases bytes@.len() - i,
    {
        let ghost rest = bytes@.skip(i as int);
        let ghost before = res@;
        assert(rest[0] == bytes@[i as int]);
        assert(rest[1] == bytes@[i + 1]);
        assert(rest[2] == bytes@[i + 2]);
        let n: u32 = bytes[i] as u32 * 0x1_0000 + bytes[i + 1] as u32 * 0x100 + bytes[i + 2] as u32;
        res.push(write_base64_char(n / 0x4_0000));
        res.push(write_base64_char(n / 0x1000 % 64));
        res.push(write_base64_char(n / 64 % 64));
        res.push(write_base64_char(n % 64));
        assert(rest.skip(3) == bytes@.skip(i + 3));
        assert(res@ =~= before + base64_group(rest.take(3)));
        proof {
            let later = base64_text(rest.skip(3));
            if rest.len() == 3 {
                assert(rest.take(3) == rest);
                assert(base64_group(rest.skip(3)) =~= Seq::empty());
                assert(later =~= Seq::<char>::empty());
                assert(base64_text(rest) =~= base64_group(rest.take(3)) + later);
            }
            assert(before + (base64_group(rest.take(3)) + later) =~= res@ + later);
        }
        i = i + 3;
    }
    let ghost rest = bytes@.skip(i as int);
    let ghost before = res@;
    if bytes.len() - i == 2 {
        assert(rest[0] == bytes@[i as int]);
        assert(rest[1] == bytes@[i + 1]);
        let n: u32 = bytes[i] as u32 * 0x400 + bytes[i + 1] as u32 * 4;
        res.push(write_base64_char(n / 0x1000));
        res.push(write_base64_char(n / 64 % 64));
        res.push(write_base64_char(n % 64));
    } else if bytes.len() - i == 1 {
        assert(rest[0] == bytes@[i as int]);
        let n: u32 = bytes[i] as u32 * 16;
        res.push(write_base64_char(n / 64));
        res.push(write_base64_char(n % 64));
    }
    assert(res@ =~= before + base64_group(rest));
    res
}

/// Every byte needs four thirds of a character, rounded up.
pub proof fn law_base64_length(bytes: Seq<u8>)
    ensures
        base64_text(bytes).len() == (bytes.len() * 8 + 5) / 6,
    decreases bytes.len(),
{
    if bytes.len() > 3 {
        law_base64_length(bytes.skip(3));
    }
}

/// Base64 for URLs needs no percent encoding.
pub proof fn law_base64_is_url_safe(bytes: Seq<u8>)
    ensures
        forall|i: int|
            0 <= i < base64_text(bytes).len() ==> is_url_safe(#[trigger] base64_text(bytes)[i]),
    decreases bytes.len(),
{
    reveal(base64_char);
    if bytes.len() > 3 {
        let group = base64_group(bytes.take(3));
        let later = base64_text(bytes.skip(3));
        law_base64_is_url_safe(bytes.skip(3));
        assert forall|i: int| 0 <= i < base64_text(bytes).len() implies is_url_safe(
            #[trigger] base64_text(bytes)[i],
        ) by {
            if i >= group.len() {
                assert(base64_text(bytes)[i] == later[i - group.len()]);
            }
        }
    }
}

/// Different numbers below 64 have different characters.
proof fn lemma_base64_char_injective(m: nat, n: nat)
    requires
        m < 64,
        n < 64,
        base64_char(m) == base64_char(n),
    ensures
        m == n,
{
    reveal(base64_char);
}

/// A number is made up of its groups of six bits.
proof fn lemma_six_bits(m: nat)
    ensures
        m == (m / 64) * 64 + m % 64,
        m / 64 == (m / 0x1000) * 64 + m / 64 % 64,
        m / 0x1000 == (m / 0x4_0000) * 64 + m / 0x1000 % 64,
{
    assert(m / 0x1000 == m / 64 / 64);
    assert(m / 0x4_0000 == m / 0x1000 / 64);
}

proof fn lemma_base64_three(a: Seq<u8>, b: Seq<u8>)
    requires
        a.len() == 3,
        b.len() == 3,
        base64_group(a) == base64_group(b),
    ensures
        a == b,
{
    let x = base64_group(a);
    let y = base64_group(b);
    let m = a[0] as nat * 0x1_0000 + a[1] as nat * 0x100 + a[2] as nat;
    let n = b[0] as nat * 0x1_0000 + b[1] as nat * 0x100 + b[2] as nat;
    assert(m == n) by {
        assert(x[0] == base64_char(m / 0x4_0000) && y[0] == base64_char(n / 0x4_0000));
        assert(x[1] == base64_char(m / 0x1000 % 64) && y[1] == base64_char(n / 0x1000 % 64));
        assert(x[2] == base64_char(m / 64 % 64) && y[2] == base64_char(n / 64 % 64));
        assert(x[3] == base64_char(m % 64) && y[3] == base64_char(n % 64));
        lemma_base64_char_injective(m / 0x4_0000, n / 0x4_0000);
        lemma_base64_char_injective(m / 0x1000 % 64, n / 0x1000 % 64);
        lemma_base64_char_injective(m / 64 % 64, n / 64 % 64);
        lemma_base64_char_injective(m % 64, n % 64);
        lemma_six_bits(m);
        lemma_six_bits(n);
    }
    assert(a =~= b);
}

proof fn lemma_base64_two(a: Seq<u8>, b: Seq<u8>)
    requires
        a.len() == 2,
        b.len() == 2,
        base64_group(a) == base64_group(b),
    ensures
        a == b,
{
    let x = base64_group(a);
    let y = base64_group(b);
    let m = a[0] as nat * 0x400 + a[1] as nat * 4;
    let n = b[0] as nat * 0x400 + b[1] as nat * 4;
    assert(m == n) by {
        assert(x[0] == base64_char(m / 0x1000) && y[0] == base64_char(n / 0x1000));
        assert(x[1] == base64_char(m / 64 % 64) && y[1] == base64_char(n / 64 % 64));
        assert(x[2] == base64_char(m % 64) && y[2] == base64_char(n % 64));
        lemma_base64_char_injective(m / 0x1000, n / 0x1000);
        lemma_base64_char_injective(m / 64 % 64, n / 64 % 64);
        lemma_base64_char_injective(m % 64, n % 64);
        lemma_six_bits(m);
        lemma_six_bits(n);
    }
    assert(a =~= b);
}

proof fn lemma_base64_group_injective(a: Seq<u8>, b: Seq<u8>)
    requires
        a.len() == b.len(),
        a.len() <= 3,
        base64_group(a) == base64_group(b),
    ensures
        a == b,
{
    if a.len() == 3 {
        lemma_base64_three(a, b);
    } else if a.len() == 2 {
        lemma_base64_two(a, b);
    } else if a.len() == 1 {
        let m = a[0] as nat * 16;
        let n = b[0] as nat * 16;
        assert(base64_group(a)[0] == base64_char(m / 64));
        assert(base64_group(a)[1] == base64_char(m % 64));
        lemma_base64_char_injective(m / 64, n / 64);
        lemma_base64_char_injective(m % 64, n % 64);
        assert(a =~= b);
    } else {
        assert(a =~= b);
    }
}

/// Different bytes have different Base64 texts.
pub proof fn law_base64_is_injective(a: Seq<u8>, b: Seq<u8>)
    requires
        base64_text(a) == base64_text(b),
    ensures
        a == b,
    decreases a.len(),
{
    law_base64_length(a);
    law_base64_length(b);
    assert(a.len() == b.len());
    if a.len() <= 3 {
        lemma_base64_group_injective(a, b);
    } else {
        let x = base64_group(a.take(3));
        let y = base64_group(b.take(3));
        assert(base64_text(a).take(4) =~= x);
        assert(base64_text(b).take(4) =~= y);
        assert(base64_text(a).skip(4) =~= base64_text(a.skip(3)));
        assert(base64_text(b).skip(4) =~= base64_text(b.skip(3)));
        lemma_base64_group_injective(a.take(3), b.take(3));
        law_base64_is_injective(a.skip(3), b.skip(3));
        assert(a =~= a.take(3) + a.skip(3));
        assert(b =~= b.take(3) + b.skip(3));
    }
}

} // verus!
