//! The fields that the synthetic records are made of.

use crate::amount::{
    digit_bytes, digit_chars, digits_of, format_amount, law_digits_denote_number,
    lemma_amount_field_digits, lemma_decimal_field_digits, lemma_digit_chars_bytes,
    lemma_digits_of, lemma_nine_digits, lemma_row_field_digits,
};
use crate::cobol::{lemma_unscaled_picture, picture_ends};
use crate::encode::{enc, fitted, resolved};
use crate::field::{big_endian, law_packed_keeps_nibbles, number, packed, zoned, Usage};
use crate::text::decimal_text;
use vstd::arithmetic::power::pow;
use vstd::prelude::*;

verus! {

/// The packed bytes of an amount in an `S9(7)V99 COMP-3` field.
pub open spec fn amount_field(whole: nat, cents: nat) -> Seq<u8> {
    packed(0xC, digits_of(whole * 100 + cents, 9))
}

/// The powers of ten that bound the fields.
pub proof fn lemma_powers_of_ten()
    ensures
        pow(10, 4) == 10_000,
        pow(10, 6) == 1_000_000,
        pow(10, 7) == 10_000_000,
        pow(10, 8) == 100_000_000,
{
    reveal_with_fuel(pow, 9);
}

/// The pictures of the synthetic records hold no scaling position.
proof fn lemma_pictures_end()
    ensures
        picture_ends("9(8)"@),
        picture_ends("S9(7)V99"@),
        picture_ends("9(4)"@),
        picture_ends("9(6)"@),
{
    reveal_strlit("9(8)");
    reveal_strlit("S9(7)V99");
    reveal_strlit("9(4)");
    reveal_strlit("9(6)");
    lemma_unscaled_picture("9(8)"@);
    lemma_unscaled_picture("S9(7)V99"@);
    lemma_unscaled_picture("9(4)"@);
    lemma_unscaled_picture("9(6)"@);
}

/// Encodes an amount of `whole` units and `cents` hundredths as `S9(7)V99 COMP-3`.
pub fn encode_amount(whole: u64, cents: u64) -> (bytes: Vec<u8>)
    requires
        whole < 10_000_000,
        cents < 100,
    ensures
        bytes@ == amount_field(whole as nat, cents as nat),
        bytes@.len() == 5,
        (bytes@[0] / 16) * 100_000_000 + (bytes@[0] % 16) * 10_000_000 + (bytes@[1] / 16)
            * 1_000_000 + (bytes@[1] % 16) * 100_000 + (bytes@[2] / 16) * 10_000 + (bytes@[2] % 16)
            * 1000 + (bytes@[3] / 16) * 100 + (bytes@[3] % 16) * 10 + bytes@[4] / 16 == whole * 100
            + cents,
        bytes@[4] % 16 == 0xC,
{
    let text: String = format_amount(whole, cents);
    proof {
        lemma_pictures_end();
        lemma_powers_of_ten();
        let field = resolved("S9(7)V99"@, Usage::Comp3)->0;
        lemma_amount_field_digits(whole as nat, cents as nat, field.attr);
        lemma_digits_of((whole * 100 + cents) as nat, 9);
        lemma_amount_bytes(whole as nat, cents as nat);
    }
    enc("S9(7)V99", Usage::Comp3, text.as_str())
}

/// Encodes a number of up to four digits as `9(4) COMP`.
pub fn encode_branch(n: u64) -> (bytes: Vec<u8>)
    requires
        n < 10_000,
    ensures
        bytes@ == big_endian(n as int, 2),
        bytes@.len() == 2,
        bytes@[0] * 256 + bytes@[1] == n,
{
    let text: String = decimal_text(n, 0);
    proof {
        lemma_pictures_end();
        lemma_powers_of_ten();
        let field = resolved("9(4)"@, Usage::Comp)->0;
        lemma_decimal_field_digits(n as nat, field.attr);
        lemma_digits_of(n as nat, 4);
        law_digits_denote_number(n as nat, 4);
        lemma_two_bytes(n as int);
    }
    enc("9(4)", Usage::Comp, text.as_str())
}

/// Encodes a number of up to six digits as `9(6) COMP-X`.
pub fn encode_risk(n: u64) -> (bytes: Vec<u8>)
    requires
        n < 1_000_000,
    ensures
        bytes@ == big_endian(n as int, 3),
        bytes@.len() == 3,
        bytes@[0] * 0x1_0000 + bytes@[1] * 256 + bytes@[2] == n,
{
    let text: String = decimal_text(n, 0);
    proof {
        lemma_pictures_end();
        lemma_powers_of_ten();
        let field = resolved("9(6)"@, Usage::CompX)->0;
        lemma_decimal_field_digits(n as nat, field.attr);
        lemma_digits_of(n as nat, 6);
        law_digits_denote_number(n as nat, 6);
        lemma_three_bytes(n as int);
    }
    enc("9(6)", Usage::CompX, text.as_str())
}

/// Encodes a sequence number of zero as `9(8) DISPLAY`, to be filled in later.
pub fn encode_blank_sequence() -> (bytes: Vec<u8>)
    ensures
        bytes@ == digit_bytes(digits_of(0, 8)),
        bytes@ == seq![0x30u8, 0x30, 0x30, 0x30, 0x30, 0x30, 0x30, 0x30],
{
    proof {
        lemma_pictures_end();
        reveal_strlit("00000000");
        let digits = digits_of(0, 8);
        lemma_digits_of(0, 8);
        reveal_with_fuel(digits_of, 9);
        assert("00000000"@ =~= digit_chars(digits));
        lemma_digit_chars_bytes(digits);
        let field = resolved("9(8)"@, Usage::Display)->0;
        lemma_row_field_digits(digits, field.attr);
        assert(fitted(digits, 8) =~= digits);
        assert(zoned(false, digits) =~= digit_bytes(digits));
        assert(digit_bytes(digits) =~= seq![0x30u8, 0x30, 0x30, 0x30, 0x30, 0x30, 0x30, 0x30]);
    }
    enc("9(8)", Usage::Display, "00000000")
}

/// The nibbles of an encoded amount are the digits of the amount in hundredths and the sign, so the
/// amount can be read back.
pub proof fn law_amount_reads_back(whole: nat, cents: nat)
    requires
        whole < 10_000_000,
        cents < 100,
    ensures
        amount_field(whole, cents).len() == 5,
        ({
            let digits = digits_of(whole * 100 + cents, 9);
            &&& number(digits) == whole * 100 + cents
            &&& forall|i: int|
                0 <= i < 5 ==> (#[trigger] amount_field(whole, cents)[i]) / 16 == digits[2 * i]
            &&& forall|i: int|
                0 <= i < 4 ==> (#[trigger] amount_field(whole, cents)[i]) % 16 == digits[2 * i + 1]
        }),
        amount_field(whole, cents)[4] % 16 == 0xC,
{
    let digits = digits_of(whole * 100 + cents, 9);
    lemma_digits_of(whole * 100 + cents, 9);
    assert(pow(10, 9) == 1_000_000_000) by {
        reveal_with_fuel(pow, 10);
    }
    law_digits_denote_number(whole * 100 + cents, 9);
    assert forall|i: int| 0 <= i < 5 implies (#[trigger] amount_field(whole, cents)[i]) / 16
        == digits[2 * i] && amount_field(whole, cents)[i] % 16 == (if i < 4 {
        digits[2 * i + 1]
    } else {
        0xC
    }) by {
        law_packed_keeps_nibbles(0xC, digits, i);
    }
}

/// The bytes of an encoded amount: nine digit nibbles that denote the amount in hundredths, and a
/// positive sign nibble.
pub proof fn lemma_amount_bytes(whole: nat, cents: nat)
    requires
        whole < 10_000_000,
        cents < 100,
    ensures
        ({
            let a = amount_field(whole, cents);
            &&& a.len() == 5
            &&& forall|j: int| 0 <= j < 5 ==> (#[trigger] a[j]) / 16 <= 9
            &&& forall|j: int| 0 <= j < 4 ==> (#[trigger] a[j]) % 16 <= 9
            &&& a[4] % 16 == 0xC
            &&& (a[0] / 16) * 100_000_000 + (a[0] % 16) * 10_000_000 + (a[1] / 16) * 1_000_000 + (
            a[1] % 16) * 100_000 + (a[2] / 16) * 10_000 + (a[2] % 16) * 1000 + (a[3] / 16) * 100
                + (a[3] % 16) * 10 + a[4] / 16 == whole * 100 + cents
        }),
{
    let digits = digits_of(whole * 100 + cents, 9);
    let a = amount_field(whole, cents);
    lemma_digits_of(whole * 100 + cents, 9);
    law_amount_reads_back(whole, cents);
    lemma_nine_digits(whole * 100 + cents);
    assert(a[0] / 16 == digits[0] && a[0] % 16 == digits[1]);
    assert(a[1] / 16 == digits[2] && a[1] % 16 == digits[3]);
    assert(a[2] / 16 == digits[4] && a[2] % 16 == digits[5]);
    assert(a[3] / 16 == digits[6] && a[3] % 16 == digits[7]);
    assert(a[4] / 16 == digits[8]);
}

/// Two big-endian bytes denote the number that they are of.
pub proof fn lemma_two_bytes(n: int)
    requires
        0 <= n < 0x1_0000,
    ensures
        big_endian(n, 2)[0] * 256 + big_endian(n, 2)[1] == n,
{
    reveal_with_fuel(pow, 3);
}

/// Three big-endian bytes denote the number that they are of.
pub proof fn lemma_three_bytes(n: int)
    requires
        0 <= n < 0x100_0000,
    ensures
        big_endian(n, 3)[0] * 0x1_0000 + big_endian(n, 3)[1] * 256 + big_endian(n, 3)[2] == n,
{
    assert(pow(256, 0) == 1 && pow(256, 1) == 256 && pow(256, 2) == 0x1_0000) by {
        reveal_with_fuel(pow, 4);
    }
    assert(n / 0x1_0000 < 256);
    assert(n / 256 == (n / 0x1_0000) * 256 + (n / 256) % 256);
}

} // verus!
