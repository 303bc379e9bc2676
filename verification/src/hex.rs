//! Lower-case hexadecimal text.

use vstd::prelude::*;

verus! {

/// The digit of a value below sixteen.
pub open spec fn hex_digit(n: int) -> char {
    if n < 10 {
        (48 + n) as u8 as char
    } else {
        (87 + n) as u8 as char
    }
}

/// Two digits for each byte, the high four bits first.
pub open spec fn hex(bytes: Seq<u8>) -> Seq<char> {
    Seq::new(
        2 * bytes.len(),
        |i: int|
            hex_digit(
                if i % 2 == 0 {
                    bytes[i / 2] as int / 16
                } else {
                    bytes[i / 2] as int % 16
                },
            ),
    )
}

fn digit(n: u8) -> (r: char)
    requires
        n < 16,
    ensures
        r == hex_digit(n as int),
{
    if n < 10 {
        (48 + n) as char
    } else {
        (87 + n) as char
    }
}

/// Writes bytes as lower-case hexadecimal text.
pub fn hex_lower(bytes: &[u8]) -> (r: String)
    ensures
        r@ == hex(bytes@),
{
    let mut output = String::new();
    let mut i: usize = 0;
    while i < bytes.len()
        invariant
            i <= bytes@.len(),
            output@ == hex(bytes@.take(i as int)),
        decreases bytes@.len() - i,
    {
        output.push(digit(bytes[i] / 16));
        output.push(digit(bytes[i] % 16));
        i += 1;
        assert(output@ =~= hex(bytes@.take(i as int)));
    }
    assert(bytes@.take(i as int) =~= bytes@);
    output
}

proof fn lemma_hex_digit_injective(a: int, b: int)
    requires
        0 <= a < 16,
        0 <= b < 16,
        hex_digit(a) == hex_digit(b),
    ensures
        a == b,
{
}

proof fn lemma_hex_at(bytes: Seq<u8>, k: int)
    requires
        0 <= k < bytes.len(),
    ensures
        hex(bytes)[2 * k] == hex_digit(bytes[k] as int / 16),
        hex(bytes)[2 * k + 1] == hex_digit(bytes[k] as int % 16),
{
    assert((2 * k) % 2 == 0 && (2 * k) / 2 == k);
    assert((2 * k + 1) % 2 == 1 && (2 * k + 1) / 2 == k);
}

/// Hexadecimal text determines the bytes that it was written from.
pub proof fn law_hex_tells_bytes_apart(a: Seq<u8>, b: Seq<u8>)
    requires
        hex(a) == hex(b),
    ensures
        a == b,
{
    assert(hex(a).len() == 2 * a.len() && hex(b).len() == 2 * b.len());
    assert(a.len() == b.len());
    assert forall|k: int| 0 <= k < a.len() implies a[k] == b[k] by {
        lemma_hex_at(a, k);
        lemma_hex_at(b, k);
        lemma_hex_digit_injective(a[k] as int / 16, b[k] as int / 16);
        lemma_hex_digit_injective(a[k] as int % 16, b[k] as int % 16);
    }
    assert(a =~= b);
}

/// Each byte is written as two digits in its place, the high four bits before the low ones; a value
/// below ten is the digit `0` to `9`, another the letter `a` to `f`.
pub proof fn law_hex_is_exact(bytes: Seq<u8>, k: int)
    requires
        0 <= k < bytes.len(),
    ensures
        hex(bytes).len() == 2 * bytes.len(),
        hex(bytes)[2 * k] as int == if bytes[k] < 160 {
            48 + bytes[k] as int / 16
        } else {
            87 + bytes[k] as int / 16
        },
        hex(bytes)[2 * k + 1] as int == if bytes[k] as int % 16 < 10 {
            48 + bytes[k] as int % 16
        } else {
            87 + bytes[k] as int % 16
        },
{
    lemma_hex_at(bytes, k);
}

} // verus!
