//! Decimal literals: which of them write the same number into a field.

use crate::cobol::{move_supported, moved};
use crate::encode::{
    digit_values, encodable, encoded, field_digits, fitted, fraction_part, is_negative,
    is_sign_byte, lemma_point, lemma_source_is_zoned, lemma_strip_signs, missing, point, source, source_attr, strip_signs,
    whole_part, wrapped_i16, zero_bytes,
};
use crate::field::{
    all_digits, number, zoned, FieldAttr, PicField, COB_FLAG_HAVE_SIGN, COB_TYPE_NUMERIC_DISPLAY,
};
use crate::text::{all_digit_chars, decimal_value};
use vstd::arithmetic::div_mod::{lemma_fundamental_div_mod_converse, lemma_small_mod};
use vstd::arithmetic::power::{lemma_pow_increases, lemma_pow_positive, pow};
use vstd::prelude::*;
use vstd::utf8::{encode_utf8, is_ascii_chars, is_ascii_chars_encode_utf8};

verus! {

/// Whether a text is an unsigned decimal literal: digits and at most one decimal point.
pub open spec fn is_literal(text: Seq<char>) -> bool {
    &&& forall|i: int|
        0 <= i < text.len() ==> '0' <= #[trigger] text[i] <= '9' || text[i] == '.'
    &&& forall|i: int, j: int|
        0 <= i < j < text.len() ==> !(#[trigger] text[i] == '.' && #[trigger] text[j] == '.')
}

/// Whether a text is made of signs alone.
pub open spec fn all_signs(text: Seq<char>) -> bool {
    forall|i: int| 0 <= i < text.len() ==> #[trigger] text[i] == '-' || text[i] == '+'
}

/// A text of signs, digits and points is ASCII, byte for byte.
proof fn lemma_plain_bytes(text: Seq<char>)
    requires
        forall|i: int| 0 <= i < text.len() ==> '+' <= #[trigger] text[i] <= '9',
    ensures
        encode_utf8(text).len() == text.len(),
        forall|i: int| 0 <= i < text.len() ==> #[trigger] encode_utf8(text)[i] == text[i] as u8,
{
    assert(is_ascii_chars(text)) by {
        assert forall|i: int| 0 <= i < text.len() implies '\0' <= #[trigger] text[i]
            <= '\u{7f}' by {}
    }
    is_ascii_chars_encode_utf8(text);
    assert forall|i: int| 0 <= i < text.len() implies #[trigger] encode_utf8(text)[i]
        == text[i] as u8 by {
        assert(text[i] as u8 == encode_utf8(text)[i]);
    }
}

/// The first decimal point is not past the end.
proof fn lemma_point_bound(text: Seq<u8>)
    ensures
        point(text) <= text.len(),
        point(text) < text.len() ==> text[point(text) as int] == 0x2E,
        forall|k: int| 0 <= k < point(text) ==> #[trigger] text[k] != 0x2E,
    decreases text.len(),
{
    if text.len() > 0 && text[0] != 0x2E {
        let rest = text.skip(1);
        lemma_point_bound(rest);
        assert forall|k: int| 0 <= k < point(text) implies #[trigger] text[k] != 0x2E by {
            if k > 0 {
                assert(rest[k - 1] == text[k]);
            }
        }
    }
}

/// An unsigned literal has no sign to strip.
proof fn lemma_literal_is_unsigned(text: Seq<char>)
    requires
        is_literal(text),
    ensures
        encode_utf8(text).len() == text.len(),
        forall|i: int| 0 <= i < text.len() ==> #[trigger] encode_utf8(text)[i] == text[i] as u8,
        strip_signs(encode_utf8(text)) == encode_utf8(text),
        !is_negative(encode_utf8(text)),
{
    assert forall|i: int| 0 <= i < text.len() implies '+' <= #[trigger] text[i] <= '9' by {}
    lemma_plain_bytes(text);
    if text.len() > 0 {
        assert(encode_utf8(text)[0] == text[0] as u8);
    }
}

/// An explicit plus sign changes nothing.
pub proof fn law_plus_sign_changes_nothing(field: PicField, value: Seq<char>)
    requires
        is_literal(value),
    ensures
        encodable(field, encode_utf8(seq!['+'] + value)) == encodable(field, encode_utf8(value)),
        encoded(field, encode_utf8(seq!['+'] + value)) == encoded(field, encode_utf8(value)),
{
    let signed = seq!['+'] + value;
    lemma_literal_is_unsigned(value);
    assert forall|i: int| 0 <= i < signed.len() implies '+' <= #[trigger] signed[i] <= '9' by {
        if i > 0 {
            assert(signed[i] == value[i - 1]);
        }
    }
    lemma_plain_bytes(signed);
    let text = encode_utf8(signed);
    assert(text[0] == signed[0] as u8);
    assert(text.skip(1) =~= encode_utf8(value)) by {
        assert forall|i: int| 0 <= i < value.len() implies #[trigger] text.skip(1)[i]
            == encode_utf8(value)[i] by {
            assert(text[i + 1] == signed[i + 1] as u8);
            assert(encode_utf8(value)[i] == value[i] as u8);
        }
    }
}

/// A leading zero changes nothing.
pub proof fn law_leading_zero_changes_nothing(field: PicField, value: Seq<char>)
    requires
        is_literal(value),
    ensures
        encodable(field, encode_utf8(seq!['0'] + value)) == encodable(field, encode_utf8(value)),
        encoded(field, encode_utf8(seq!['0'] + value)) == encoded(field, encode_utf8(value)),
{
    let longer = seq!['0'] + value;
    assert(is_literal(longer)) by {
        assert forall|i: int, j: int| 0 <= i < j < longer.len() implies !(#[trigger] longer[i]
            == '.' && #[trigger] longer[j] == '.') by {
            if i > 0 {
                assert(longer[i] == value[i - 1] && longer[j] == value[j - 1]);
            }
        }
        assert forall|i: int| 0 <= i < longer.len() implies ('0' <= #[trigger] longer[i] <= '9'
            || longer[i] == '.') by {
            if i > 0 {
                assert(longer[i] == value[i - 1]);
            }
        }
    }
    lemma_literal_is_unsigned(value);
    lemma_literal_is_unsigned(longer);
    let text = encode_utf8(value);
    let more = encode_utf8(longer);
    assert(more[0] == longer[0] as u8);
    assert(more.skip(1) =~= text) by {
        assert forall|i: int| 0 <= i < value.len() implies #[trigger] more.skip(1)[i]
            == text[i] by {
            assert(more[i + 1] == longer[i + 1] as u8);
            assert(text[i] == value[i] as u8);
        }
    }
    lemma_point_bound(text);
    assert(point(more) == point(text) + 1);
    assert(fraction_part(more) =~= fraction_part(text)) by {
        if point(text) < text.len() {
            let at = point(text) as int + 1;
            assert(more.skip(1).skip(at) =~= more.skip(at + 1));
        }
    }
    let bytes = whole_part(text) + fraction_part(text);
    let more_bytes = whole_part(more) + fraction_part(more);
    assert(whole_part(more) =~= seq![0x30u8] + whole_part(text)) by {
        assert forall|i: int| 0 <= i < point(text) implies #[trigger] whole_part(text)[i]
            == whole_part(more)[i + 1] by {
            assert(more.skip(1)[i] == more[i + 1]);
        }
    }
    assert(more_bytes =~= seq![0x30u8] + bytes);
    assert((forall|i: int| 0 <= i < more_bytes.len() ==> #[trigger] more_bytes[i] >= 0x30) == (
    forall|i: int| 0 <= i < bytes.len() ==> #[trigger] bytes[i] >= 0x30)) by {
        if forall|i: int| 0 <= i < more_bytes.len() ==> #[trigger] more_bytes[i] >= 0x30 {
            assert forall|i: int| 0 <= i < bytes.len() implies #[trigger] bytes[i] >= 0x30 by {
                assert(more_bytes[i + 1] == bytes[i]);
            }
        }
        if forall|i: int| 0 <= i < bytes.len() ==> #[trigger] bytes[i] >= 0x30 {
            assert forall|i: int| 0 <= i < more_bytes.len() implies #[trigger] more_bytes[i]
                >= 0x30 by {
                if i > 0 {
                    assert(more_bytes[i] == bytes[i - 1]);
                }
            }
        }
    }
    let zeros = zero_bytes(missing(field.attr.scale, fraction_part(text).len()));
    let digits = digit_values(bytes) + zeros;
    assert(digit_values(more_bytes) + zeros =~= seq![0u8] + digits);
    let width = field.attr.digits as nat;
    assert(fitted(seq![0u8] + digits, width) =~= fitted(digits, width));
    assert(field_digits(more, field.attr) == field_digits(text, field.attr));
}

/// Whether a row of digits is written byte for byte, each byte a digit.
spec fn is_digit_text(text: Seq<char>) -> bool {
    &&& encode_utf8(text).len() == text.len()
    &&& forall|i: int|
        0 <= i < text.len() ==> #[trigger] encode_utf8(text)[i] == text[i] as u8 && 0x30
            <= encode_utf8(text)[i] <= 0x39
}

/// A row of digits is written byte for byte, each byte a digit.
proof fn lemma_digit_text(text: Seq<char>)
    requires
        all_digit_chars(text),
    ensures
        is_digit_text(text),
{
    assert forall|i: int| 0 <= i < text.len() implies '+' <= #[trigger] text[i] <= '9' by {}
    lemma_plain_bytes(text);
}

/// The parts of a literal with a decimal point.
proof fn lemma_pointed(whole: Seq<char>, fraction: Seq<char>)
    requires
        all_digit_chars(whole),
        all_digit_chars(fraction),
    ensures
        ({
            let text = encode_utf8(whole + seq!['.'] + fraction);
            &&& strip_signs(text) == text
            &&& !is_negative(text)
            &&& whole_part(text) == encode_utf8(whole)
            &&& fraction_part(text) == encode_utf8(fraction)
        }),
        is_digit_text(whole),
        is_digit_text(fraction),
{
    let literal = whole + seq!['.'] + fraction;
    let at = whole.len() as int;
    assert forall|i: int| 0 <= i < literal.len() && i != at implies '0' <= #[trigger] literal[i]
        <= '9' by {
        if i < at {
            assert(literal[i] == whole[i]);
        } else {
            assert(literal[i] == fraction[i - at - 1]);
        }
    }
    assert(literal[at] == '.');
    assert(is_literal(literal));
    lemma_literal_is_unsigned(literal);
    lemma_digit_text(whole);
    lemma_digit_text(fraction);
    let text = encode_utf8(literal);
    assert forall|k: int| 0 <= k < at implies #[trigger] text[k] != 0x2E by {
        assert(text[k] == literal[k] as u8);
    }
    assert(text[at] == literal[at] as u8);
    lemma_point(text, at);
    assert(whole_part(text) =~= encode_utf8(whole)) by {
        assert forall|k: int| 0 <= k < at implies #[trigger] whole_part(text)[k] == encode_utf8(
            whole,
        )[k] by {
            assert(text[k] == literal[k] as u8);
        }
    }
    assert(fraction_part(text) =~= encode_utf8(fraction)) by {
        assert forall|k: int| 0 <= k < fraction.len() implies #[trigger] fraction_part(text)[k]
            == encode_utf8(fraction)[k] by {
            assert(text[at + 1 + k] == literal[at + 1 + k] as u8);
        }
    }
}

/// Fraction digits that are missing up to the scale of the field count as zeros, and without any
/// the decimal point can be left out.
pub proof fn law_missing_fraction_is_zeros(field: PicField, whole: Seq<char>, fraction: Seq<char>)
    requires
        all_digit_chars(whole),
        all_digit_chars(fraction),
        fraction.len() < field.attr.scale,
    ensures
        ({
            let given = encode_utf8(whole + seq!['.'] + fraction);
            let filled = encode_utf8(whole + seq!['.'] + fraction + seq!['0']);
            &&& encodable(field, given) == encodable(field, filled)
            &&& encoded(field, given) == encoded(field, filled)
        }),
        fraction.len() == 0 ==> {
            let given = encode_utf8(whole + seq!['.'] + fraction);
            &&& encodable(field, given) == encodable(field, encode_utf8(whole))
            &&& encoded(field, given) == encoded(field, encode_utf8(whole))
        },
{
    let more = fraction + seq!['0'];
    assert(all_digit_chars(more)) by {
        assert forall|i: int| 0 <= i < more.len() implies '0' <= #[trigger] more[i] <= '9' by {
            if i < fraction.len() {
                assert(more[i] == fraction[i]);
            }
        }
    }
    lemma_pointed(whole, fraction);
    lemma_pointed(whole, more);
    let given = encode_utf8(whole + seq!['.'] + fraction);
    assert(whole + seq!['.'] + fraction + seq!['0'] =~= whole + seq!['.'] + more);
    let filled = encode_utf8(whole + seq!['.'] + more);
    let scale = field.attr.scale;
    let front = encode_utf8(whole);
    let short = encode_utf8(fraction);
    let long = encode_utf8(more);
    assert(wrapped_i16(short.len()) == short.len());
    assert(wrapped_i16(long.len()) == long.len());
    assert(long =~= short + seq![0x30u8]) by {
        assert forall|i: int| 0 <= i < long.len() implies #[trigger] long[i] == (short
            + seq![0x30u8])[i] by {
            if i < short.len() {
                assert(short[i] == fraction[i] as u8);
            }
        }
    }
    assert(digit_values(front + short) + zero_bytes(missing(scale, short.len())) =~= digit_values(
        front + long,
    ) + zero_bytes(missing(scale, long.len())));
    assert(field_digits(given, field.attr) == field_digits(filled, field.attr));
    let bytes = front + short;
    let more_bytes = front + long;
    assert forall|i: int| 0 <= i < bytes.len() implies #[trigger] bytes[i] >= 0x30 by {}
    assert forall|i: int| 0 <= i < more_bytes.len() implies #[trigger] more_bytes[i] >= 0x30 by {}
    if fraction.len() == 0 {
        assert(is_literal(whole));
        lemma_literal_is_unsigned(whole);
        assert forall|k: int| 0 <= k < front.len() implies #[trigger] front[k] != 0x2E by {}
        lemma_point(front, front.len() as int);
        assert(whole_part(front) =~= front);
        assert(fraction_part(front) =~= short);
    }
}

/// A literal with any signs before it can be encoded in every field that can receive a number, as
/// long as its fraction can be counted.
pub proof fn law_literals_are_encodable(field: PicField, signs: Seq<char>, value: Seq<char>)
    requires
        all_signs(signs),
        is_literal(value),
        fraction_part(encode_utf8(value)).len() <= 0x7FFF,
        move_supported(source_attr(field.attr), field.size as nat, field.attr),
    ensures
        encodable(field, encode_utf8(signs + value)),
{
    let all = signs + value;
    lemma_literal_is_unsigned(value);
    assert forall|i: int| 0 <= i < all.len() implies '+' <= #[trigger] all[i] <= '9' by {
        if i < signs.len() {
            assert(all[i] == signs[i]);
        } else {
            assert(all[i] == value[i - signs.len()]);
        }
    }
    lemma_plain_bytes(all);
    let text = encode_utf8(all);
    let unsigned = encode_utf8(value);
    assert forall|k: int| 0 <= k < signs.len() implies is_sign_byte(#[trigger] text[k]) by {
        assert(all[k] == signs[k]);
        assert(text[k] == all[k] as u8);
    }
    lemma_strip_signs(text, signs.len() as int);
    assert(text.skip(signs.len() as int) =~= unsigned) by {
        assert forall|i: int| 0 <= i < value.len() implies #[trigger] text.skip(
            signs.len() as int,
        )[i] == unsigned[i] by {
            assert(text[i + signs.len()] == all[i + signs.len()] as u8);
            assert(unsigned[i] == value[i] as u8);
        }
    }
    lemma_point_bound(unsigned);
    let at = point(unsigned) as int;
    let bytes = whole_part(unsigned) + fraction_part(unsigned);
    assert forall|i: int| 0 <= i < bytes.len() implies #[trigger] bytes[i] >= 0x30 by {
        let j = if i < at {
            i
        } else {
            i + 1
        };
        assert(bytes[i] == unsigned[j]);
        assert(unsigned[j] == value[j] as u8);
        if value[j] == '.' && i >= at {
            assert(unsigned[at] == value[at] as u8);
            assert(value[at] == '.');
        }
    }
}

/// The bytes that are moved into a field for a text of signs, a whole part and a fraction: the low
/// bytes of the two parts, filled up with zeros behind to the scale and in front to the width, and
/// the last of them overpunched where the first sign is a minus. The length of the fraction is
/// counted in sixteen bits. With an empty fraction the decimal point can be left out.
pub proof fn law_text_is_moved_byte_for_byte(
    field: PicField,
    signs: Seq<u8>,
    whole: Seq<u8>,
    fraction: Seq<u8>,
)
    requires
        forall|i: int|
            0 <= i < signs.len() ==> #[trigger] signs[i] == 0x2D || signs[i] == 0x2B,
        forall|i: int| 0 <= i < whole.len() ==> #[trigger] whole[i] >= 0x30,
        forall|i: int| 0 <= i < fraction.len() ==> #[trigger] fraction[i] >= 0x30,
    ensures
        ({
            let scale = field.attr.scale as int;
            let width = field.attr.digits as nat;
            let low = fraction.len() as int % 0x1_0000;
            let have = if low < 0x8000 {
                low
            } else {
                low - 0x1_0000
            };
            let lacking = if scale > have {
                (scale - have) as nat
            } else {
                0
            };
            let all = whole + fraction + Seq::new(lacking, |i: int| 0x30u8);
            let src = Seq::new(
                width,
                |i: int|
                    {
                        let k = i + all.len() - width;
                        let byte = if k >= 0 {
                            all[k]
                        } else {
                            0x30u8
                        };
                        if i == width - 1 && signs.len() > 0 && signs[0] == 0x2D {
                            byte | 0x40
                        } else {
                            byte
                        }
                    },
            );
            let attr = (FieldAttr {
                field_type: COB_TYPE_NUMERIC_DISPLAY,
                digits: field.attr.digits,
                scale: field.attr.scale,
                flags: COB_FLAG_HAVE_SIGN,
            });
            let zeros = Seq::new(field.size as nat, |i: int| 0u8);
            let pointed = signs + whole + seq![0x2Eu8] + fraction;
            &&& encoded(field, pointed) == moved(src, attr, zeros, field.attr)
            &&& encodable(field, pointed) == (lacking <= 0x7FFF && move_supported(
                attr,
                field.size as nat,
                field.attr,
            ))
            &&& fraction.len() == 0 ==> encoded(field, signs + whole) == moved(
                src,
                attr,
                zeros,
                field.attr,
            )
            &&& fraction.len() == 0 ==> encodable(field, signs + whole) == move_supported(
                attr,
                field.size as nat,
                field.attr,
            )
        }),
{
    let pointed = signs + whole + seq![0x2Eu8] + fraction;
    let rest = whole + seq![0x2Eu8] + fraction;
    assert(pointed =~= signs + rest);
    lemma_parts(signs, rest, whole.len() as int);
    assert(rest.take(whole.len() as int) =~= whole);
    assert(rest.skip(whole.len() as int + 1) =~= fraction);
    lemma_parts_are_moved(field, pointed, signs, whole, fraction);
    if fraction.len() == 0 {
        lemma_parts(signs, whole, whole.len() as int);
        assert(whole.take(whole.len() as int) =~= whole);
        assert(fraction =~= Seq::<u8>::empty());
        lemma_parts_are_moved(field, signs + whole, signs, whole, fraction);
    }
}

/// Taking a text apart into signs and the two sides of its point.
proof fn lemma_parts(signs: Seq<u8>, rest: Seq<u8>, at: int)
    requires
        forall|i: int| 0 <= i < signs.len() ==> is_sign_byte(#[trigger] signs[i]),
        0 <= at <= rest.len(),
        forall|i: int| 0 <= i < at ==> #[trigger] rest[i] >= 0x30,
        at < rest.len() ==> rest[at] == 0x2E,
    ensures
        strip_signs(signs + rest) == rest,
        whole_part(rest) == rest.take(at),
        fraction_part(rest) == if at < rest.len() {
            rest.skip(at + 1)
        } else {
            Seq::empty()
        },
        is_negative(signs + rest) == (signs.len() > 0 && signs[0] == 0x2D),
{
    let text = signs + rest;
    assert forall|k: int| 0 <= k < signs.len() implies is_sign_byte(#[trigger] text[k]) by {
        assert(text[k] == signs[k]);
    }
    lemma_strip_signs(text, signs.len() as int);
    assert(text.skip(signs.len() as int) =~= rest);
    assert(rest.len() > 0 ==> !is_sign_byte(rest[0]));
    lemma_point(rest, at);
}

/// The parts of a text decide what is moved.
proof fn lemma_parts_are_moved(
    field: PicField,
    text: Seq<u8>,
    signs: Seq<u8>,
    whole: Seq<u8>,
    fraction: Seq<u8>,
)
    requires
        whole_part(strip_signs(text)) == whole,
        fraction_part(strip_signs(text)) == fraction,
        is_negative(text) == (signs.len() > 0 && signs[0] == 0x2D),
        forall|i: int| 0 <= i < whole.len() ==> #[trigger] whole[i] >= 0x30,
        forall|i: int| 0 <= i < fraction.len() ==> #[trigger] fraction[i] >= 0x30,
    ensures
        ({
            let scale = field.attr.scale as int;
            let width = field.attr.digits as nat;
            let low = fraction.len() as int % 0x1_0000;
            let have = if low < 0x8000 {
                low
            } else {
                low - 0x1_0000
            };
            let lacking = if scale > have {
                (scale - have) as nat
            } else {
                0
            };
            let all = whole + fraction + Seq::new(lacking, |i: int| 0x30u8);
            let src = Seq::new(
                width,
                |i: int|
                    {
                        let k = i + all.len() - width;
                        let byte = if k >= 0 {
                            all[k]
                        } else {
                            0x30u8
                        };
                        if i == width - 1 && signs.len() > 0 && signs[0] == 0x2D {
                            byte | 0x40
                        } else {
                            byte
                        }
                    },
            );
            let attr = (FieldAttr {
                field_type: COB_TYPE_NUMERIC_DISPLAY,
                digits: field.attr.digits,
                scale: field.attr.scale,
                flags: COB_FLAG_HAVE_SIGN,
            });
            let zeros = Seq::new(field.size as nat, |i: int| 0u8);
            &&& encoded(field, text) == moved(src, attr, zeros, field.attr)
            &&& encodable(field, text) == (lacking <= 0x7FFF && move_supported(
                attr,
                field.size as nat,
                field.attr,
            ))
        }),
{
    let scale = field.attr.scale as int;
    let width = field.attr.digits as nat;
    let low = fraction.len() as int % 0x1_0000;
    let have = if low < 0x8000 {
        low
    } else {
        low - 0x1_0000
    };
    let lacking = if scale > have {
        (scale - have) as nat
    } else {
        0
    };
    assert(wrapped_i16(fraction.len()) == have);
    assert(missing(field.attr.scale, fraction.len()) == lacking);
    let all = whole + fraction + Seq::new(lacking, |i: int| 0x30u8);
    let bytes = whole + fraction;
    assert forall|i: int| 0 <= i < bytes.len() implies #[trigger] bytes[i] >= 0x30 by {}
    let values = digit_values(bytes) + zero_bytes(lacking);
    assert forall|i: int| 0 <= i < all.len() implies #[trigger] values[i] == all[i] - 0x30 by {
        if i < bytes.len() {
            assert(bytes[i] >= 0x30);
        }
    }
    let digits = field_digits(text, field.attr);
    assert(digits =~= fitted(values, width));
    assert(digits.len() == width);
    let src = Seq::new(
        width,
        |i: int|
            {
                let k = i + all.len() - width;
                let byte = if k >= 0 {
                    all[k]
                } else {
                    0x30u8
                };
                if i == width - 1 && signs.len() > 0 && signs[0] == 0x2D {
                    byte | 0x40
                } else {
                    byte
                }
            },
    );
    assert forall|i: int| 0 <= i < width implies #[trigger] source(is_negative(text), digits)[i]
        == src[i] by {
        let k = i + all.len() - width;
        if k >= 0 {
            assert(digits[i] == values[k]);
            assert(values[k] == all[k] - 0x30);
        } else {
            assert(digits[i] == 0);
        }
    }
    assert(source(is_negative(text), digits) =~= src);
    assert(zero_bytes(field.size as nat) =~= Seq::new(field.size as nat, |i: int| 0u8));
}

/// Rows of digits set one behind the other denote the first, moved up by the length of the second,
/// and the second.
proof fn lemma_number_of_rows(first: Seq<u8>, second: Seq<u8>)
    ensures
        number(first + second) == number(first) * pow(10, second.len()) + number(second),
    decreases second.len(),
{
    reveal(pow);
    if second.len() == 0 {
        assert(first + second =~= first);
        assert(pow(10, 0) == 1);
    } else {
        let less = second.drop_last();
        lemma_number_of_rows(first, less);
        assert((first + second).drop_last() =~= first + less);
        assert(pow(10, second.len()) == 10 * pow(10, less.len()));
        assert(number(first) * (10 * pow(10, less.len())) == 10 * (number(first) * pow(
            10,
            less.len(),
        ))) by (nonlinear_arith);
    }
}

/// A row of digits denotes less than the power of ten of its length.
proof fn lemma_number_bound(digits: Seq<u8>)
    requires
        all_digits(digits),
    ensures
        number(digits) < pow(10, digits.len()),
    decreases digits.len(),
{
    reveal(pow);
    if digits.len() > 0 {
        lemma_number_bound(digits.drop_last());
    }
}

/// A row of zeros denotes nothing.
proof fn lemma_number_of_zeros(count: nat)
    ensures
        number(zero_bytes(count)) == 0,
    decreases count,
{
    if count > 0 {
        lemma_number_of_zeros((count - 1) as nat);
        assert(zero_bytes(count).drop_last() =~= zero_bytes((count - 1) as nat));
    }
}

/// The low digits of a row denote the remainder of its number.
proof fn lemma_number_fitted(digits: Seq<u8>, width: nat)
    requires
        all_digits(digits),
    ensures
        all_digits(fitted(digits, width)),
        fitted(digits, width).len() == width,
        number(fitted(digits, width)) == number(digits) as int % pow(10, width),
{
    lemma_number_bound(digits);
    lemma_pow_positive(10, width);
    if digits.len() < width {
        let fill = (width - digits.len()) as nat;
        lemma_number_of_zeros(fill);
        lemma_number_of_rows(zero_bytes(fill), digits);
        assert(0 * pow(10, digits.len()) == 0) by (nonlinear_arith);
        lemma_pow_increases(10, digits.len(), width);
        lemma_small_mod(number(digits), pow(10, width) as nat);
    } else {
        let cut = digits.len() - width;
        let front = digits.take(cut);
        let low = digits.skip(cut);
        assert(digits =~= front + low);
        lemma_number_of_rows(front, low);
        assert(all_digits(low)) by {
            assert forall|i: int| 0 <= i < low.len() implies low[i] <= 9 by {
                assert(low[i] == digits[i + cut]);
            }
        }
        lemma_number_bound(low);
        lemma_fundamental_div_mod_converse(
            number(digits) as int,
            pow(10, width),
            number(front) as int,
            number(low) as int,
        );
    }
}

/// The bytes of a row of digit characters hold its value.
proof fn lemma_number_of_text(text: Seq<char>)
    requires
        all_digit_chars(text),
    ensures
        all_digits(digit_values(encode_utf8(text))),
        number(digit_values(encode_utf8(text))) == decimal_value(text),
    decreases text.len(),
{
    lemma_digit_text(text);
    let values = digit_values(encode_utf8(text));
    assert forall|i: int| 0 <= i < values.len() implies values[i] <= 9 by {
        assert(encode_utf8(text)[i] == text[i] as u8);
    }
    if text.len() > 0 {
        let less = text.drop_last();
        assert(all_digit_chars(less)) by {
            assert forall|i: int| 0 <= i < less.len() implies '0' <= #[trigger] less[i]
                <= '9' by {
                assert(less[i] == text[i]);
            }
        }
        lemma_digit_text(less);
        lemma_number_of_text(less);
        assert(values.drop_last() =~= digit_values(encode_utf8(less))) by {
            assert forall|i: int| 0 <= i < less.len() implies #[trigger] values[i] == digit_values(
                encode_utf8(less),
            )[i] by {
                assert(encode_utf8(text)[i] == text[i] as u8);
                assert(encode_utf8(less)[i] == less[i] as u8);
            }
        }
        assert(encode_utf8(text)[text.len() - 1] == text[text.len() - 1] as u8);
    }
}

/// What a literal stores: digits of the width of the field that denote the number written, in units
/// of the scale and without what exceeds the width, and a negative sign exactly where a minus comes
/// first.
pub proof fn law_literal_stores_its_number(
    field: PicField,
    signs: Seq<char>,
    whole: Seq<char>,
    fraction: Seq<char>,
)
    requires
        all_signs(signs),
        all_digit_chars(whole),
        all_digit_chars(fraction),
        fraction.len() <= 0x7FFF,
    ensures
        ({
            let text = encode_utf8(signs + whole + seq!['.'] + fraction);
            let digits = field_digits(text, field.attr);
            let scale = field.attr.scale as int;
            let lacking = if scale > fraction.len() {
                (scale - fraction.len()) as nat
            } else {
                0
            };
            let attr = (FieldAttr {
                field_type: COB_TYPE_NUMERIC_DISPLAY,
                digits: field.attr.digits,
                scale: field.attr.scale,
                flags: COB_FLAG_HAVE_SIGN,
            });
            &&& all_digits(digits)
            &&& digits.len() == field.attr.digits
            &&& number(digits) == (decimal_value(whole + fraction) * pow(10, lacking)) % pow(
                10,
                field.attr.digits as nat,
            )
            &&& is_negative(text) == (signs.len() > 0 && signs[0] == '-')
            &&& encoded(field, text) == moved(
                zoned(signs.len() > 0 && signs[0] == '-', digits),
                attr,
                Seq::new(field.size as nat, |i: int| 0u8),
                field.attr,
            )
        }),
{
    let tail = whole + seq!['.'] + fraction;
    let all = signs + whole + seq!['.'] + fraction;
    assert(all =~= signs + tail);
    lemma_pointed(whole, fraction);
    let at = signs.len() as int;
    assert forall|i: int| 0 <= i < all.len() implies '+' <= #[trigger] all[i] <= '9' by {
        if i < at {
            assert(all[i] == signs[i]);
        } else if i < at + whole.len() {
            assert(all[i] == whole[i - at]);
        } else if i > at + whole.len() {
            assert(all[i] == fraction[i - at - whole.len() - 1]);
        }
    }
    assert forall|i: int| 0 <= i < tail.len() implies '+' <= #[trigger] tail[i] <= '9' by {
        assert(tail[i] == all[i + at]);
    }
    lemma_plain_bytes(all);
    lemma_plain_bytes(tail);
    assert forall|i: int| 0 <= i < signs.len() implies '+' <= #[trigger] signs[i] <= '9' by {}
    lemma_plain_bytes(signs);
    let text = encode_utf8(all);
    let unsigned = encode_utf8(tail);
    let front = encode_utf8(signs);
    assert(text =~= front + unsigned) by {
        assert forall|i: int| 0 <= i < text.len() implies #[trigger] text[i] == (front
            + unsigned)[i] by {
            assert(text[i] == all[i] as u8);
            if i < at {
                assert(front[i] == signs[i] as u8);
            } else {
                assert(unsigned[i - at] == tail[i - at] as u8);
            }
        }
    }
    assert forall|i: int| 0 <= i < at implies is_sign_byte(#[trigger] front[i]) by {
        assert(front[i] == signs[i] as u8);
    }
    assert forall|i: int| 0 <= i < at implies is_sign_byte(#[trigger] text[i]) by {
        assert(text[i] == front[i]);
    }
    lemma_strip_signs(text, at);
    assert(text.skip(at) =~= unsigned);
    if at > 0 {
        assert(text[0] == all[0] as u8);
        assert(all[0] == signs[0]);
    } else {
        assert(all =~= tail);
    }
    let both = whole + fraction;
    assert(all_digit_chars(both)) by {
        assert forall|i: int| 0 <= i < both.len() implies '0' <= #[trigger] both[i] <= '9' by {
            if i < whole.len() {
                assert(both[i] == whole[i]);
            } else {
                assert(both[i] == fraction[i - whole.len()]);
            }
        }
    }
    lemma_number_of_text(both);
    lemma_digit_text(both);
    let bytes = encode_utf8(whole) + encode_utf8(fraction);
    assert(bytes =~= encode_utf8(both)) by {
        assert forall|i: int| 0 <= i < both.len() implies #[trigger] bytes[i] == encode_utf8(
            both,
        )[i] by {
            assert(encode_utf8(both)[i] == both[i] as u8);
            if i < whole.len() {
                assert(encode_utf8(whole)[i] == whole[i] as u8);
            } else {
                assert(encode_utf8(fraction)[i - whole.len()] == fraction[i - whole.len()] as u8);
            }
        }
    }
    let scale = field.attr.scale as int;
    let lacking = if scale > fraction.len() {
        (scale - fraction.len()) as nat
    } else {
        0
    };
    assert(wrapped_i16(fraction.len()) == fraction.len());
    assert(missing(field.attr.scale, fraction.len()) == lacking);
    let values = digit_values(bytes) + zero_bytes(lacking);
    assert(all_digits(values)) by {
        assert forall|i: int| 0 <= i < values.len() implies values[i] <= 9 by {
            if i < bytes.len() {
                assert(values[i] == digit_values(encode_utf8(both))[i]);
            }
        }
    }
    lemma_number_of_zeros(lacking);
    lemma_number_of_rows(digit_values(bytes), zero_bytes(lacking));
    lemma_number_fitted(values, field.attr.digits as nat);
    let digits = field_digits(text, field.attr);
    lemma_source_is_zoned(is_negative(text), digits);
    assert(zero_bytes(field.size as nat) =~= Seq::new(field.size as nat, |i: int| 0u8));
}

/// A leading minus makes a number negative and changes none of its digits: for every literal, with
/// or without a decimal point, the same digits are moved, once with a positive and once with a
/// negative sign.
pub proof fn law_minus_negates(field: PicField, value: Seq<char>)
    requires
        is_literal(value),
    ensures
        ({
            let plain = encode_utf8(value);
            let minus = encode_utf8(seq!['-'] + value);
            let digits = field_digits(plain, field.attr);
            let attr = (FieldAttr {
                field_type: COB_TYPE_NUMERIC_DISPLAY,
                digits: field.attr.digits,
                scale: field.attr.scale,
                flags: COB_FLAG_HAVE_SIGN,
            });
            let zeros = Seq::new(field.size as nat, |i: int| 0u8);
            &&& all_digits(digits)
            &&& field_digits(minus, field.attr) == digits
            &&& !is_negative(plain)
            &&& is_negative(minus)
            &&& encodable(field, minus) == encodable(field, plain)
            &&& encoded(field, plain) == moved(zoned(false, digits), attr, zeros, field.attr)
            &&& encoded(field, minus) == moved(zoned(true, digits), attr, zeros, field.attr)
        }),
{
    let signed = seq!['-'] + value;
    lemma_literal_is_unsigned(value);
    assert forall|i: int| 0 <= i < signed.len() implies '+' <= #[trigger] signed[i] <= '9' by {
        if i > 0 {
            assert(signed[i] == value[i - 1]);
        }
    }
    lemma_plain_bytes(signed);
    let plain = encode_utf8(value);
    let minus = encode_utf8(signed);
    assert(minus[0] == signed[0] as u8);
    assert(minus.skip(1) =~= plain) by {
        assert forall|i: int| 0 <= i < value.len() implies #[trigger] minus.skip(1)[i]
            == plain[i] by {
            assert(minus[i + 1] == signed[i + 1] as u8);
            assert(plain[i] == value[i] as u8);
        }
    }
    assert(minus =~= seq![0x2Du8] + plain);
    assert(strip_signs(minus) == plain);
    lemma_point_bound(plain);
    let at = point(plain) as int;
    let whole = value.take(at);
    let fraction = if at < value.len() {
        value.skip(at + 1)
    } else {
        Seq::empty()
    };
    assert(all_digit_chars(whole)) by {
        assert forall|i: int| 0 <= i < whole.len() implies '0' <= #[trigger] whole[i] <= '9' by {
            assert(whole[i] == value[i]);
            assert(plain[i] == value[i] as u8);
        }
    }
    assert(all_digit_chars(fraction)) by {
        assert forall|i: int| 0 <= i < fraction.len() implies '0' <= #[trigger] fraction[i]
            <= '9' by {
            assert(fraction[i] == value[i + at + 1]);
            assert(plain[at] == value[at] as u8);
            assert(value[at] == '.');
        }
    }
    lemma_digit_text(whole);
    lemma_digit_text(fraction);
    let bytes = whole_part(plain) + fraction_part(plain);
    let values = digit_values(bytes) + zero_bytes(
        missing(field.attr.scale, fraction_part(plain).len()),
    );
    assert forall|i: int| 0 <= i < values.len() implies values[i] <= 9 by {
        if i < at {
            assert(bytes[i] == plain[i]);
            assert(plain[i] == whole[i] as u8);
        } else if i < bytes.len() {
            assert(bytes[i] == plain[i + 1]);
            assert(plain[i + 1] == value[i + 1] as u8);
            assert(fraction[i - at] == value[i + 1]);
        }
    }
    lemma_number_fitted(values, field.attr.digits as nat);
    let digits = field_digits(plain, field.attr);
    lemma_source_is_zoned(false, digits);
    lemma_source_is_zoned(true, digits);
    assert(zero_bytes(field.size as nat) =~= Seq::new(field.size as nat, |i: int| 0u8));
}

/// A text is refused where, behind its signs, anything but one decimal point lies below the digits.
pub proof fn law_foreign_byte_is_refused(
    field: PicField,
    signs: Seq<u8>,
    rest: Seq<u8>,
    dot: int,
    k: int,
)
    requires
        forall|i: int| 0 <= i < signs.len() ==> is_sign_byte(#[trigger] signs[i]),
        0 <= k < rest.len(),
        rest[0] != 0x2D && rest[0] != 0x2B,
        rest[k] < 0x30,
        rest[k] != 0x2E || 0 <= dot < k && rest[dot] == 0x2E,
    ensures
        !encodable(field, signs + rest),
{
    let text = signs + rest;
    assert forall|i: int| 0 <= i < signs.len() implies is_sign_byte(#[trigger] text[i]) by {
        assert(text[i] == signs[i]);
    }
    lemma_strip_signs(text, signs.len() as int);
    assert(text.skip(signs.len() as int) =~= rest);
    lemma_point_bound(rest);
    let at = point(rest) as int;
    let bytes = whole_part(rest) + fraction_part(rest);
    if k < at {
        assert(bytes[k] == rest[k]);
    } else {
        assert(k != at);
        assert(bytes[k - 1] == rest[k]);
    }
}

} // verus!
