//! Text for diagnostics: numbers in decimal and bytes as characters.

use vstd::prelude::*;

verus! {

/// `String::push` appends the character to the end of the string.
pub assume_specification[ String::push ](s: &mut String, c: char)
    ensures
        final(s)@ == old(s)@.push(c),
;

/// The byte of the decimal digit `d`.
pub open spec fn digit_byte(d: nat) -> u8
    recommends
        d < 10,
{
    (0x30 + d) as u8
}

/// The digits of `n` in decimal, without leading zeros, as bytes.
pub open spec fn decimal_digits(n: nat) -> Seq<u8>
    decreases n,
{
    if n < 10 {
        seq![digit_byte(n)]
    } else {
        decimal_digits(n / 10).push(digit_byte(n % 10))
    }
}

/// Each byte as the character with that code point.
pub open spec fn byte_text(bytes: Seq<u8>) -> Seq<char> {
    Seq::new(bytes.len(), |i: int| bytes[i] as char)
}

/// `n` in decimal, without sign or leading zeros.
pub open spec fn decimal(n: nat) -> Seq<char> {
    byte_text(decimal_digits(n))
}

/// Digits that were collected least significant first, in reading order.
pub open spec fn reversed(digits: Seq<u8>) -> Seq<u8> {
    Seq::new(digits.len(), |i: int| digits[digits.len() - 1 - i])
}

/// A number in decimal has at least one digit, and only digits.
pub proof fn lemma_decimal_digits(n: nat)
    ensures
        decimal_digits(n).len() > 0,
        decimal(n).len() == decimal_digits(n).len(),
        forall|i: int|
            0 <= i < decimal_digits(n).len() ==> 0x30 <= #[trigger] decimal_digits(n)[i] <= 0x39,
    decreases n,
{
    if n >= 10 {
        lemma_decimal_digits(n / 10);
    }
}

/// Different numbers have different digits.
pub proof fn lemma_decimal_digits_differ(a: nat, b: nat)
    requires
        a != b,
    ensures
        decimal_digits(a) != decimal_digits(b),
    decreases a,
{
    lemma_decimal_digits(a / 10);
    lemma_decimal_digits(b / 10);
    if a >= 10 && b >= 10 {
        let da = decimal_digits(a / 10);
        let db = decimal_digits(b / 10);
        if a / 10 != b / 10 {
            lemma_decimal_digits_differ(a / 10, b / 10);
            if decimal_digits(a) == decimal_digits(b) {
                assert(da =~= da.push(digit_byte(a % 10)).drop_last());
                assert(db =~= db.push(digit_byte(b % 10)).drop_last());
            }
        } else {
            assert(da.push(digit_byte(a % 10)).last() != db.push(digit_byte(b % 10)).last());
        }
    } else if a < 10 && b < 10 {
        assert(decimal_digits(a)[0] != decimal_digits(b)[0]);
    } else {
        assert(decimal_digits(a).len() != decimal_digits(b).len());
    }
}

/// Appends the decimal digits of `n` to `out`.
pub fn push_decimal_digits(out: &mut Vec<u8>, n: u128)
    ensures
        final(out)@ == old(out)@ + decimal_digits(n as nat),
{
    let mut digits: Vec<u8> = Vec::new();
    let mut rest: u128 = n;
    while rest >= 10
        invariant
            decimal_digits(n as nat) =~= decimal_digits(rest as nat) + reversed(digits@),
        decreases rest,
    {
        let d: u8 = 0x30u8 + (rest % 10) as u8;
        proof {
            assert(reversed(digits@.push(d)) =~= seq![d] + reversed(digits@));
            assert(decimal_digits(rest as nat) =~= decimal_digits((rest / 10) as nat).push(d));
        }
        digits.push(d);
        rest = rest / 10;
    }
    out.push(0x30u8 + rest as u8);
    let mut i: usize = digits.len();
    while i > 0
        invariant
            i <= digits.len(),
            out@ =~= old(out)@ + decimal_digits(rest as nat) + reversed(digits@).take(
                digits.len() - i,
            ),
        decreases i,
    {
        i -= 1;
        proof {
            let all = reversed(digits@);
            assert(all.take(digits.len() - i) =~= all.take(digits.len() - i - 1).push(
                digits@[i as int],
            ));
        }
        out.push(digits[i]);
    }
    proof {
        assert(reversed(digits@).take(digits.len() as int) =~= reversed(digits@));
    }
}

/// Appends each byte of `bytes` to `s` as a character.
pub fn push_bytes(s: &mut String, bytes: &[u8])
    ensures
        final(s)@ == old(s)@ + byte_text(bytes@),
{
    let mut i: usize = 0;
    while i < bytes.len()
        invariant
            i <= bytes.len(),
            s@ =~= old(s)@ + byte_text(bytes@.take(i as int)),
        decreases bytes.len() - i,
    {
        proof {
            assert(byte_text(bytes@.take(i + 1)) =~= byte_text(bytes@.take(i as int)).push(
                bytes@[i as int] as char,
            ));
        }
        s.push(bytes[i] as char);
        i += 1;
    }
    proof {
        assert(bytes@.take(i as int) =~= bytes@);
    }
}

/// Appends `n` in decimal to `s`.
pub fn push_decimal(s: &mut String, n: u128)
    ensures
        final(s)@ == old(s)@ + decimal(n as nat),
{
    let mut digits: Vec<u8> = Vec::new();
    push_decimal_digits(&mut digits, n);
    proof {
        assert(digits@ =~= decimal_digits(n as nat));
    }
    push_bytes(s, digits.as_slice());
}

} // verus!
