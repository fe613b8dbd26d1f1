//! The digits of a number, and the texts that the corpora write their amounts in.

use crate::encode::{
    digit_values, field_digits, fitted, fraction_part, is_negative, lemma_point, strip_signs,
    whole_part, zero_bytes,
};
use crate::field::{all_digits, number, FieldAttr};
use crate::text::{decimal, decimal_padded, digit_char, lemma_padded_step, push_decimal};
use vstd::arithmetic::power::pow;
use vstd::prelude::*;
use vstd::string::StringExecFns;
use vstd::utf8::{encode_utf8, is_ascii_chars, is_ascii_chars_encode_utf8};

verus! {

/// The `width` low decimal digits of a number, the most significant first.
pub open spec fn digits_of(n: nat, width: nat) -> Seq<u8>
    decreases width,
{
    if width == 0 {
        Seq::empty()
    } else {
        digits_of(n / 10, (width - 1) as nat).push((n % 10) as u8)
    }
}

/// The digits of a number as characters.
pub open spec fn digit_chars(digits: Seq<u8>) -> Seq<char> {
    Seq::new(digits.len(), |i: int| digit_char(digits[i] as nat))
}

/// The digits of a number as ASCII bytes.
pub open spec fn digit_bytes(digits: Seq<u8>) -> Seq<u8> {
    Seq::new(digits.len(), |i: int| (0x30 + digits[i]) as u8)
}

/// An amount of `whole` units and `cents` hundredths: the units, a decimal point and two digits.
pub open spec fn amount_text(whole: nat, cents: nat) -> Seq<char> {
    decimal(whole) + seq!['.'] + decimal_padded(cents, 2)
}

/// There are as many digits as asked for, and each is below ten.
pub proof fn lemma_digits_of(n: nat, width: nat)
    ensures
        digits_of(n, width).len() == width,
        all_digits(digits_of(n, width)),
    decreases width,
{
    if width > 0 {
        lemma_digits_of(n / 10, (width - 1) as nat);
    }
}

/// The digits of a number that fits denote it: none of them is lost.
pub proof fn law_digits_denote_number(n: nat, width: nat)
    requires
        n < pow(10, width),
    ensures
        number(digits_of(n, width)) == n,
    decreases width,
{
    reveal(pow);
    if width > 0 {
        law_digits_denote_number(n / 10, (width - 1) as nat);
        let digits = digits_of(n, width);
        assert(digits.drop_last() =~= digits_of(n / 10, (width - 1) as nat));
    }
}

/// A number that fits, written with leading zeros, is the row of its digits.
pub proof fn lemma_padded_is_digits(n: nat, width: nat)
    requires
        0 < width,
        n < pow(10, width),
    ensures
        decimal_padded(n, width) == digit_chars(digits_of(n, width)),
        decimal_padded(n, width).len() == width,
    decreases width,
{
    lemma_digits_of(n, width);
    reveal(pow);
    if width == 1 {
        assert(pow(10, 0) == 1);
        assert(digits_of(n / 10, 0) =~= Seq::<u8>::empty());
        assert(decimal_padded(n, 1) =~= digit_chars(digits_of(n, 1)));
    } else {
        lemma_padded_step(n, width);
        lemma_padded_is_digits(n / 10, (width - 1) as nat);
        lemma_digits_of(n / 10, (width - 1) as nat);
        assert(decimal_padded(n, width) =~= digit_chars(digits_of(n, width)));
    }
}

/// The text of digits is ASCII, byte for byte.
pub proof fn lemma_digit_chars_bytes(digits: Seq<u8>)
    requires
        all_digits(digits),
    ensures
        is_ascii_chars(digit_chars(digits)),
        encode_utf8(digit_chars(digits)) == digit_bytes(digits),
{
    let text = digit_chars(digits);
    assert(is_ascii_chars(text)) by {
        assert forall|i: int| 0 <= i < text.len() implies '\0' <= #[trigger] text[i]
            <= '\u{7f}' by {
            assert(digits[i] <= 9);
        }
    }
    is_ascii_chars_encode_utf8(text);
    assert forall|i: int| 0 <= i < text.len() implies #[trigger] encode_utf8(text)[i]
        == digit_bytes(digits)[i] by {
        assert(digits[i] <= 9);
        assert(text[i] as u8 == encode_utf8(text)[i]);
    }
    assert(encode_utf8(text) =~= digit_bytes(digits));
}

/// A number written without leading zeros is the tail of its padded form, and fits the width.
pub proof fn lemma_decimal_is_tail(n: nat, width: nat)
    requires
        0 < width,
        n < pow(10, width),
    ensures
        0 < decimal(n).len() <= width,
        decimal(n) == digit_chars(digits_of(n, decimal(n).len())),
        digits_of(n, width) == zero_bytes((width - decimal(n).len()) as nat) + digits_of(
            n,
            decimal(n).len(),
        ),
    decreases width,
{
    lemma_digits_of(n, width);
    lemma_digits_of(n, 1);
    reveal(pow);
    if n < 10 {
        assert(digits_of(n / 10, 0) =~= Seq::<u8>::empty());
        assert(decimal(n) =~= digit_chars(digits_of(n, 1)));
        lemma_digits_of_zero((width - 1) as nat);
        assert(digits_of(n, 1) =~= seq![n as u8]);
        assert(digits_of(n, width) =~= zero_bytes((width - 1) as nat) + digits_of(n, 1));
    } else {
        assert(width > 1) by {
            assert(pow(10, 0) == 1);
        }
        lemma_decimal_is_tail(n / 10, (width - 1) as nat);
        let len = decimal(n / 10).len();
        lemma_digits_of(n / 10, len);
        lemma_digits_of(n, len + 1);
        assert(digits_of(n, len + 1) == digits_of(n / 10, len).push((n % 10) as u8));
        assert(decimal(n) =~= digit_chars(digits_of(n, len + 1)));
        assert(digits_of(n, width) =~= zero_bytes((width - len - 1) as nat) + digits_of(
            n,
            len + 1,
        ));
    }
}

/// The digits of zero are zeros.
proof fn lemma_digits_of_zero(width: nat)
    ensures
        digits_of(0, width) == zero_bytes(width),
    decreases width,
{
    if width > 0 {
        lemma_digits_of_zero((width - 1) as nat);
    }
    assert(digits_of(0, width) =~= zero_bytes(width));
}

/// A text that begins with a digit has no sign to strip.
proof fn lemma_no_signs(text: Seq<u8>)
    requires
        text.len() > 0,
        text[0] >= 0x30,
    ensures
        strip_signs(text) == text,
        !is_negative(text),
{
}

/// The digits that a row of digits, written out, puts into a field without a fraction.
pub proof fn lemma_row_field_digits(digits: Seq<u8>, attr: FieldAttr)
    requires
        all_digits(digits),
        digits.len() > 0,
        attr.scale == 0,
    ensures
        ({
            let text = digit_bytes(digits);
            let unsigned = strip_signs(text);
            let bytes = whole_part(unsigned) + fraction_part(unsigned);
            &&& !is_negative(text)
            &&& forall|i: int| 0 <= i < bytes.len() ==> #[trigger] bytes[i] >= 0x30
            &&& fraction_part(unsigned).len() == 0
            &&& field_digits(text, attr) == fitted(digits, attr.digits as nat)
        }),
{
    let text = digit_bytes(digits);
    assert forall|i: int| 0 <= i < text.len() implies #[trigger] text[i] >= 0x30 by {
        assert(digits[i] <= 9);
    }
    lemma_no_signs(text);
    lemma_point(text, text.len() as int);
    assert(whole_part(text) + fraction_part(text) =~= text);
    assert(digit_values(text) + zero_bytes(0) =~= digits) by {
        assert forall|i: int| 0 <= i < digits.len() implies #[trigger] digit_values(text)[i]
            == digits[i] by {
            assert(digits[i] <= 9);
        }
    }
}

/// The digits that a whole number, written in decimal, puts into a field without a fraction.
pub proof fn lemma_decimal_field_digits(n: nat, attr: FieldAttr)
    requires
        0 < attr.digits,
        n < pow(10, attr.digits as nat),
        attr.scale == 0,
    ensures
        ({
            let text = encode_utf8(decimal(n));
            let unsigned = strip_signs(text);
            let bytes = whole_part(unsigned) + fraction_part(unsigned);
            &&& !is_negative(text)
            &&& forall|i: int| 0 <= i < bytes.len() ==> #[trigger] bytes[i] >= 0x30
            &&& fraction_part(unsigned).len() == 0
            &&& field_digits(text, attr) == digits_of(n, attr.digits as nat)
        }),
{
    let width = attr.digits as nat;
    lemma_decimal_is_tail(n, width);
    let len = decimal(n).len();
    let digits = digits_of(n, len);
    lemma_digits_of(n, len);
    lemma_digit_chars_bytes(digits);
    lemma_row_field_digits(digits, attr);
    assert(fitted(digits, width) =~= digits_of(n, width));
}

/// The digits that an amount puts into a field with two decimal places.
pub proof fn lemma_amount_field_digits(whole: nat, cents: nat, attr: FieldAttr)
    requires
        2 < attr.digits,
        whole < pow(10, (attr.digits - 2) as nat),
        cents < 100,
        attr.scale == 2,
    ensures
        ({
            let text = encode_utf8(amount_text(whole, cents));
            let unsigned = strip_signs(text);
            let bytes = whole_part(unsigned) + fraction_part(unsigned);
            &&& !is_negative(text)
            &&& forall|i: int| 0 <= i < bytes.len() ==> #[trigger] bytes[i] >= 0x30
            &&& fraction_part(unsigned).len() == 2
            &&& field_digits(text, attr) == digits_of(whole * 100 + cents, attr.digits as nat)
        }),
{
    let width = (attr.digits - 2) as nat;
    lemma_decimal_is_tail(whole, width);
    let len = decimal(whole).len();
    let front = digits_of(whole, len);
    lemma_digits_of(whole, len);
    assert(pow(10, 2) == 100) by {
        reveal_with_fuel(pow, 3);
    }
    lemma_padded_is_digits(cents, 2);
    let back = digits_of(cents, 2);
    lemma_digits_of(cents, 2);
    let chars = amount_text(whole, cents);
    assert(chars =~= digit_chars(front) + seq!['.'] + digit_chars(back));
    lemma_digit_chars_bytes(front);
    lemma_digit_chars_bytes(back);
    assert(is_ascii_chars(chars)) by {
        assert forall|i: int| 0 <= i < chars.len() implies '\0' <= #[trigger] chars[i]
            <= '\u{7f}' by {
            if i < len {
                assert(front[i] <= 9);
            } else if i > len {
                assert(back[i - len - 1] <= 9);
            }
        }
    }
    is_ascii_chars_encode_utf8(chars);
    let text = encode_utf8(chars);
    assert(text =~= digit_bytes(front) + seq![0x2Eu8] + digit_bytes(back)) by {
        assert forall|i: int| 0 <= i < text.len() implies #[trigger] text[i] == (digit_bytes(front)
            + seq![0x2Eu8] + digit_bytes(back))[i] by {
            assert(chars[i] as u8 == text[i]);
            if i < len {
                assert(front[i] <= 9);
            } else if i > len {
                assert(back[i - len - 1] <= 9);
            }
        }
    }
    assert forall|i: int| 0 <= i < len implies #[trigger] text[i] >= 0x30 by {
        assert(front[i] <= 9);
    }
    lemma_no_signs(text);
    lemma_point(text, len as int);
    let bytes = whole_part(text) + fraction_part(text);
    assert(bytes =~= digit_bytes(front) + digit_bytes(back));
    assert forall|i: int| 0 <= i < bytes.len() implies #[trigger] bytes[i] >= 0x30 by {
        if i < len {
            assert(front[i] <= 9);
        } else {
            assert(back[i - len] <= 9);
        }
    }
    assert(digit_values(bytes) + zero_bytes(0) =~= front + back) by {
        assert forall|i: int| 0 <= i < bytes.len() implies #[trigger] digit_values(bytes)[i] == (
        front + back)[i] by {
            if i < len {
                assert(front[i] <= 9);
            } else {
                assert(back[i - len] <= 9);
            }
        }
    }
    let n = whole * 100 + cents;
    assert(digits_of(n, attr.digits as nat) =~= digits_of(whole, width) + back) by {
        assert(n / 10 / 10 == whole);
        assert((n / 10) % 10 == cents / 10);
        assert(n % 10 == cents % 10);
        reveal_with_fuel(digits_of, 3);
        lemma_digits_of(whole, width);
        assert((cents / 10) % 10 == cents / 10);
    }
    assert(fitted(front + back, attr.digits as nat) =~= digits_of(whole, width) + back);
}

/// Six digits denote the number that they are of.
pub proof fn lemma_six_digits(n: nat)
    requires
        n < 1_000_000,
    ensures
        ({
            let d = digits_of(n, 6);
            d[0] * 100_000 + d[1] * 10_000 + d[2] * 1000 + d[3] * 100 + d[4] * 10 + d[5] == n
        }),
{
    reveal_with_fuel(digits_of, 7);
}

/// Eight digits denote the number that they are of.
pub proof fn lemma_eight_digits(n: nat)
    requires
        n < 100_000_000,
    ensures
        ({
            let d = digits_of(n, 8);
            d[0] * 10_000_000 + d[1] * 1_000_000 + d[2] * 100_000 + d[3] * 10_000 + d[4] * 1000
                + d[5] * 100 + d[6] * 10 + d[7] == n
        }),
{
    reveal_with_fuel(digits_of, 9);
}

/// Nine digits denote the number that they are of.
pub proof fn lemma_nine_digits(n: nat)
    requires
        n < 1_000_000_000,
    ensures
        ({
            let d = digits_of(n, 9);
            d[0] * 100_000_000 + d[1] * 10_000_000 + d[2] * 1_000_000 + d[3] * 100_000 + d[4]
                * 10_000 + d[5] * 1000 + d[6] * 100 + d[7] * 10 + d[8] == n
        }),
{
    reveal_with_fuel(digits_of, 10);
}

/// An amount as text: the units, a decimal point and two digits.
pub fn format_amount(whole: u64, cents: u64) -> (text: String)
    ensures
        text@ == amount_text(whole as nat, cents as nat),
        text@ == decimal(whole as nat) + seq!['.'] + decimal_padded(cents as nat, 2),
{
    let mut out: String = String::new();
    push_decimal(&mut out, whole as u128, 0);
    proof {
        reveal_strlit(".");
    }
    out.append(".");
    push_decimal(&mut out, cents as u128, 2);
    assert(out@ =~= amount_text(whole as nat, cents as nat));
    out
}

} // verus!
