//! Random texts of letters and digits, from random bytes of the system.

use crate::outside::{random_bytes, unix_nanoseconds};
use crate::text::is_alphanumeric;
use vstd::prelude::*;

verus! {

/// The number of letters and digits.
pub const ALPHABET_SIZE: u8 = 62;

/// The bytes below this are spread evenly over the letters and digits.
pub const FAIR_BYTES: u8 = 248;

/// The multiplier of the sequence that stands in for random bytes.
pub const FALLBACK_MULTIPLIER: u128 = 0x9E37_79B9_7F4A_7C15;

/// The letter or digit of a number below 62.
pub open spec fn alphabet_char(n: nat) -> char {
    if n < 10 {
        (0x30 + n) as char
    } else if n < 36 {
        (0x57 + n) as char
    } else {
        (0x1d + n) as char
    }
}

/// The letters and digits of the fair bytes, in their order.
pub open spec fn fair_chars(bytes: Seq<u8>) -> Seq<char>
    decreases bytes.len(),
{
    if bytes.len() == 0 {
        Seq::empty()
    } else {
        let earlier = fair_chars(bytes.drop_last());
        if bytes.last() < FAIR_BYTES {
            earlier.push(alphabet_char(bytes.last() as nat % 62))
        } else {
            earlier
        }
    }
}

/// The first `len` of some characters.
pub open spec fn at_most(s: Seq<char>, len: nat) -> Seq<char> {
    if s.len() <= len {
        s
    } else {
        s.take(len as int)
    }
}

/// The next number of the sequence that stands in for random bytes.
pub open spec fn next_fallback(seed: u128, process_id: u32) -> u128 {
    seed.wrapping_mul(FALLBACK_MULTIPLIER).wrapping_add(process_id as u128)
}

/// The first `n` characters of the sequence that stands in for random bytes.
pub open spec fn fallback_chars(seed: u128, process_id: u32, n: nat) -> Seq<char>
    decreases n,
{
    if n == 0 {
        Seq::empty()
    } else {
        let next = next_fallback(seed, process_id);
        seq![alphabet_char(next as nat % 62)] + fallback_chars(next, process_id, (n - 1) as nat)
    }
}

/// A text of `len` letters and digits: from random bytes, and filled up from
/// the sequence that stands in for them.
pub open spec fn alphanumeric_text(
    bytes: Option<Seq<u8>>,
    seed: u128,
    process_id: u32,
    len: nat,
) -> Seq<char> {
    let drawn = match bytes {
        Some(bytes) => at_most(fair_chars(bytes), len),
        None => Seq::empty(),
    };
    drawn + fallback_chars(seed, process_id, (len - drawn.len()) as nat)
}

fn write_alphabet_char(n: u8) -> (res: char)
    requires
        n < 62,
    ensures
        res == alphabet_char(n as nat),
{
    if n < 10 {
        (0x30u8 + n) as char
    } else if n < 36 {
        (0x57u8 + n) as char
    } else {
        (0x1du8 + n) as char
    }
}

/// A text of `len` letters and digits from random bytes, if there are any, and
/// from a seed and the number of the process.
pub fn alphanumeric_from(bytes: &Option<Vec<u8>>, seed: u128, process_id: u32, len: usize) -> (res:
    String)
    ensures
        res@ == alphanumeric_text(
            match bytes {
                Some(bytes) => Some(bytes@),
                None => None,
            },
            seed,
            process_id,
            len as nat,
        ),
{
    let mut res = String::new();
    let mut count: usize = 0;
    if let Some(bytes) = bytes {
        let mut i: usize = 0;
        assert(bytes@.take(0) =~= Seq::empty());
        while i < bytes.len() && count < len
            invariant
                i <= bytes@.len(),
                count <= len,
                res@.len() == count,
                res@ == at_most(fair_chars(bytes@.take(i as int)), len as nat),
                count < len ==> res@ == fair_chars(bytes@.take(i as int)),
            decreases bytes@.len() - i,
        {
            let byte = bytes[i];
            assert(bytes@.take(i + 1).drop_last() == bytes@.take(i as int));
            assert(bytes@.take(i + 1).last() == byte);
            if byte < FAIR_BYTES {
                res.push(write_alphabet_char(byte % ALPHABET_SIZE));
                count = count + 1;
            }
            i = i + 1;
        }
        proof {
            lemma_later_bytes(bytes@, i as int, len as nat);
            assert(bytes@.take(bytes@.len() as int) == bytes@);
        }
    }
    let ghost drawn = res@;
    let ghost missing = (len - drawn.len()) as nat;
    let mut fallback: u128 = seed;
    assert(res@ + fallback_chars(seed, process_id, missing) == drawn + fallback_chars(
        seed,
        process_id,
        missing,
    ));
    while count < len
        invariant
            count <= len,
            res@.len() == count,
            res@ + fallback_chars(fallback, process_id, (len - count) as nat) == drawn
                + fallback_chars(seed, process_id, missing),
        decreases len - count,
    {
        let ghost before = res@;
        let ghost left = (len - count) as nat;
        fallback = fallback.wrapping_mul(FALLBACK_MULTIPLIER).wrapping_add(process_id as u128);
        let n: u8 = (fallback % 62) as u8;
        res.push(write_alphabet_char(n));
        count = count + 1;
        proof {
            let later = fallback_chars(fallback, process_id, (left - 1) as nat);
            assert(before + (seq![alphabet_char(n as nat)] + later) =~= res@ + later);
        }
    }
    assert(res@ + fallback_chars(fallback, process_id, 0) =~= res@);
    res
}

/// Bytes behind the last one needed change nothing.
proof fn lemma_later_bytes(bytes: Seq<u8>, i: int, len: nat)
    requires
        0 <= i <= bytes.len(),
        i == bytes.len() || fair_chars(bytes.take(i)).len() >= len,
    ensures
        at_most(fair_chars(bytes), len) == at_most(fair_chars(bytes.take(i)), len),
    decreases bytes.len() - i,
{
    if i < bytes.len() {
        assert(bytes.take(i + 1).drop_last() == bytes.take(i));
        let earlier = fair_chars(bytes.take(i));
        let next = fair_chars(bytes.take(i + 1));
        assert(next.take(len as int) =~= earlier.take(len as int));
        assert(earlier.take(earlier.len() as int) =~= earlier);
        lemma_later_bytes(bytes, i + 1, len);
    } else {
        assert(bytes.take(i) == bytes);
    }
}

/// Whether a text holds letters and digits only.
pub open spec fn all_alphanumeric(s: Seq<char>) -> bool {
    forall|i: int| 0 <= i < s.len() ==> is_alphanumeric(#[trigger] s[i])
}

proof fn lemma_fair_chars(bytes: Seq<u8>)
    ensures
        all_alphanumeric(fair_chars(bytes)),
    decreases bytes.len(),
{
    if bytes.len() > 0 {
        lemma_fair_chars(bytes.drop_last());
    }
}

proof fn lemma_fallback_chars(seed: u128, process_id: u32, n: nat)
    ensures
        all_alphanumeric(fallback_chars(seed, process_id, n)),
        fallback_chars(seed, process_id, n).len() == n,
    decreases n,
{
    if n > 0 {
        let next = next_fallback(seed, process_id);
        lemma_fallback_chars(next, process_id, (n - 1) as nat);
        let later = fallback_chars(next, process_id, (n - 1) as nat);
        let all = fallback_chars(seed, process_id, n);
        assert forall|i: int| 0 <= i < all.len() implies is_alphanumeric(#[trigger] all[i]) by {
            if i > 0 {
                assert(all[i] == later[i - 1]);
            }
        }
    }
}

/// Whatever bytes, seed and process it is made from, the text has the length
/// asked for and holds letters and digits only.
pub proof fn law_alphanumeric_text(
    bytes: Option<Seq<u8>>,
    seed: u128,
    process_id: u32,
    len: nat,
)
    ensures
        alphanumeric_text(bytes, seed, process_id, len).len() == len,
        all_alphanumeric(alphanumeric_text(bytes, seed, process_id, len)),
{
    if let Some(bytes) = bytes {
        lemma_fair_chars(bytes);
    }
    let drawn = match bytes {
        Some(bytes) => at_most(fair_chars(bytes), len),
        None => Seq::empty(),
    };
    lemma_fallback_chars(seed, process_id, (len - drawn.len()) as nat);
    let all = alphanumeric_text(bytes, seed, process_id, len);
    let later = fallback_chars(seed, process_id, (len - drawn.len()) as nat);
    assert forall|i: int| 0 <= i < all.len() implies is_alphanumeric(#[trigger] all[i]) by {
        if i < drawn.len() {
            assert(all[i] == drawn[i]);
        } else {
            assert(all[i] == later[i - drawn.len()]);
        }
    }
}

/// Every letter or digit comes from four fair bytes, so fair bytes that are
/// equally likely give letters and digits that are equally likely.
pub proof fn law_fair_bytes_are_even(n: nat, byte: u8)
    requires
        n < 62,
    ensures
        (byte < FAIR_BYTES && alphabet_char(byte as nat % 62) == alphabet_char(n)) == (byte == n
            || byte == n + 62 || byte == n + 124 || byte == n + 186),
{
}

/// With enough fair bytes the text is made from random bytes alone.
pub proof fn law_enough_fair_bytes(bytes: Seq<u8>, seed: u128, process_id: u32, len: nat)
    requires
        fair_chars(bytes).len() >= len,
    ensures
        alphanumeric_text(Some(bytes), seed, process_id, len) == fair_chars(bytes).take(len as int),
{
    assert(fair_chars(bytes).take(fair_chars(bytes).len() as int) =~= fair_chars(bytes));
    assert(alphanumeric_text(Some(bytes), seed, process_id, len) =~= fair_chars(bytes).take(
        len as int,
    ));
}

/// Whether a text can be drawn in a process.
pub open spec fn can_be_drawn(
    text: Seq<char>,
    bytes: Option<Seq<u8>>,
    seed: u128,
    process_id: u32,
    len: nat,
) -> bool {
    &&& bytes matches Some(bytes) ==> bytes.len() == 2 * len
    &&& text == alphanumeric_text(bytes, seed, process_id, len)
}

/// A random text of `len` letters and digits. Two random bytes are asked for
/// each of them; where the system has none to give, the clock and the number
/// of the process stand in.
pub fn random_alphanumeric(len: usize, process_id: u32) -> (res: String)
    requires
        len < 0x4000_0000,
    ensures
        exists|bytes: Option<Seq<u8>>, seed: u128|
            can_be_drawn(res@, bytes, seed, process_id, len as nat),
        res@.len() == len,
        all_alphanumeric(res@),
{
    let bytes = random_bytes(len * 2);
    let seed = match unix_nanoseconds() {
        Some(nanoseconds) => nanoseconds,
        None => FALLBACK_MULTIPLIER,
    };
    let res = alphanumeric_from(&bytes, seed, process_id, len);
    proof {
        let drawn = match bytes {
            Some(bytes) => Some(bytes@),
            None => None,
        };
        law_alphanumeric_text(drawn, seed, process_id, len as nat);
        assert(can_be_drawn(res@, drawn, seed, process_id, len as nat));
    }
    res
}

} // verus!
