//! Numbers and digests as ASCII text, and back.

use vstd::prelude::*;

verus! {

/// The ASCII digit of a value below ten.
pub open spec fn spec_digit(d: nat) -> u8 {
    (48 + d) as u8
}

/// A natural number in decimal, most significant digit first, without
/// leading zeros.
pub open spec fn spec_decimal(n: nat) -> Seq<u8>
    decreases n,
{
    if n < 10 {
        seq![spec_digit(n)]
    } else {
        spec_decimal(n / 10).push(spec_digit(n % 10))
    }
}

/// An integer in decimal, with a minus sign if it is negative.
pub open spec fn spec_signed_decimal(n: int) -> Seq<u8> {
    if n < 0 {
        seq![45u8] + spec_decimal((-n) as nat)
    } else {
        spec_decimal(n as nat)
    }
}

/// The lower-case hexadecimal digit of a value below sixteen.
pub open spec fn spec_hex_digit(d: nat) -> u8 {
    if d < 10 {
        (48 + d) as u8
    } else {
        (87 + d) as u8
    }
}

/// Bytes in lower-case hexadecimal, two digits each, high digit first.
pub open spec fn spec_hex(bytes: Seq<u8>) -> Seq<u8> {
    Seq::new(
        2 * bytes.len(),
        |i: int|
            if i % 2 == 0 {
                spec_hex_digit((bytes[i / 2] / 16) as nat)
            } else {
                spec_hex_digit((bytes[i / 2] % 16) as nat)
            },
    )
}

/// Whether a byte is a hexadecimal digit, in either case.
pub open spec fn spec_is_hex_digit(b: u8) -> bool {
    ||| 48 <= b <= 57
    ||| 97 <= b <= 102
    ||| 65 <= b <= 70
}

/// Whether a text is all hexadecimal digits.
pub open spec fn spec_is_hex(text: Seq<u8>) -> bool {
    forall|i: int| 0 <= i < text.len() ==> spec_is_hex_digit(#[trigger] text[i])
}

/// Appends `n` in decimal.
pub fn push_decimal(out: &mut Vec<u8>, n: u64)
    ensures
        final(out)@ == old(out)@ + spec_decimal(n as nat),
    decreases n,
{
    if n >= 10 {
        push_decimal(out, n / 10);
    }
    out.push(48 + (n % 10) as u8);
    assert(out@ =~= old(out)@ + spec_decimal(n as nat));
}

/// Appends `n` in decimal, with its sign.
pub fn push_signed_decimal(out: &mut Vec<u8>, n: i32)
    ensures
        final(out)@ == old(out)@ + spec_signed_decimal(n as int),
{
    if n < 0 {
        out.push(45);
        push_decimal(out, (0 - n as i64) as u64);
        assert(out@ =~= old(out)@ + spec_signed_decimal(n as int));
    } else {
        push_decimal(out, n as u64);
    }
}

fn hex_digit(d: u8) -> (c: u8)
    requires
        d < 16,
    ensures
        c == spec_hex_digit(d as nat),
{
    if d < 10 {
        48 + d
    } else {
        87 + d
    }
}

/// Appends `bytes` in lower-case hexadecimal.
pub fn push_hex(out: &mut Vec<u8>, bytes: &[u8])
    ensures
        final(out)@ == old(out)@ + spec_hex(bytes@),
{
    let mut i: usize = 0;
    while i < bytes.len()
        invariant
            i <= bytes@.len(),
            out@ == old(out)@ + spec_hex(bytes@.take(i as int)),
        decreases bytes@.len() - i,
    {
        let b: u8 = bytes[i];
        out.push(hex_digit(b / 16));
        out.push(hex_digit(b % 16));
        proof {
            let before = bytes@.take(i as int);
            let after = bytes@.take(i + 1);
            assert(spec_hex(after) =~= spec_hex(before).push(spec_hex_digit((b / 16) as nat)).push(
                spec_hex_digit((b % 16) as nat),
            )) by {
                assert forall|k: int| 0 <= k < 2 * before.len() implies spec_hex(after)[k]
                    == spec_hex(before)[k] by {
                    assert(after[k / 2] == before[k / 2]);
                }
                assert(after[i as int] == b);
            }
            assert(out@ =~= old(out)@ + spec_hex(after));
        }
        i += 1;
    }
    assert(bytes@.take(i as int) =~= bytes@);
}

/// Appends `bytes` as they are.
pub fn push_bytes(out: &mut Vec<u8>, bytes: &[u8])
    ensures
        final(out)@ == old(out)@ + bytes@,
{
    let mut i: usize = 0;
    while i < bytes.len()
        invariant
            i <= bytes@.len(),
            out@ == old(out)@ + bytes@.take(i as int),
        decreases bytes@.len() - i,
    {
        out.push(bytes[i]);
        assert(out@ =~= old(out)@ + bytes@.take(i + 1));
        i += 1;
    }
    assert(bytes@.take(i as int) =~= bytes@);
}

/// Whether `text` is all hexadecimal digits.
pub fn is_hex(text: &[u8]) -> (b: bool)
    ensures
        b == spec_is_hex(text@),
{
    let mut i: usize = 0;
    while i < text.len()
        invariant
            i <= text@.len(),
            forall|k: int| 0 <= k < i ==> spec_is_hex_digit(#[trigger] text@[k]),
        decreases text@.len() - i,
    {
        let c: u8 = text[i];
        if !((48 <= c && c <= 57) || (97 <= c && c <= 102) || (65 <= c && c <= 70)) {
            return false;
        }
        i += 1;
    }
    true
}

/// Hexadecimal text is twice as long as the bytes it shows, and holds
/// hexadecimal digits only.
pub proof fn lemma_hex_is_hex(bytes: Seq<u8>)
    ensures
        spec_hex(bytes).len() == 2 * bytes.len(),
        spec_is_hex(spec_hex(bytes)),
{
}

/// A number in decimal takes at least one character, and all of them are
/// digits.
pub proof fn lemma_decimal_digits(n: nat)
    ensures
        spec_decimal(n).len() >= 1,
        forall|i: int| 0 <= i < spec_decimal(n).len() ==> 48 <= #[trigger] spec_decimal(n)[i] <= 57,
    decreases n,
{
    if n >= 10 {
        lemma_decimal_digits(n / 10);
    }
}

} // verus!
