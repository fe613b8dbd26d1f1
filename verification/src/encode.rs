//! The encoding of a number, given as text, in the storage form of a picture.

use crate::cobol::{
    build_field, built, cob_move, field_of, like, move_supported, moved, picture_ends,
};
use crate::field::{
    all_digits, big_endian, number, packed, sign_nibble, zoned, FieldAttr, PicField, Usage,
    COB_FLAG_BINARY_SWAP, COB_FLAG_BINARY_TRUNC, COB_FLAG_HAVE_SIGN, COB_TYPE_NUMERIC_BINARY,
    COB_TYPE_NUMERIC_DISPLAY, COB_TYPE_NUMERIC_PACKED,
};
use vstd::prelude::*;
use vstd::utf8::encode_utf8;

verus! {

/// Whether a byte is a minus or a plus sign.
pub open spec fn is_sign_byte(byte: u8) -> bool {
    byte == 0x2D || byte == 0x2B
}

/// The text without the signs at its front.
pub open spec fn strip_signs(text: Seq<u8>) -> Seq<u8>
    decreases text.len(),
{
    if text.len() > 0 && is_sign_byte(text[0]) {
        strip_signs(text.skip(1))
    } else {
        text
    }
}

/// The position of the first decimal point, or the length of the text where it has none.
pub open spec fn point(text: Seq<u8>) -> nat
    decreases text.len(),
{
    if text.len() == 0 || text[0] == 0x2E {
        0
    } else {
        1 + point(text.skip(1))
    }
}

/// What stands before the first decimal point.
pub open spec fn whole_part(text: Seq<u8>) -> Seq<u8> {
    text.take(point(text) as int)
}

/// What stands after the first decimal point.
pub open spec fn fraction_part(text: Seq<u8>) -> Seq<u8> {
    if point(text) < text.len() {
        text.skip(point(text) as int + 1)
    } else {
        Seq::empty()
    }
}

/// A length as a signed number of sixteen bits, wrapped around.
pub open spec fn wrapped_i16(n: nat) -> int {
    if n % 0x1_0000 < 0x8000 {
        (n % 0x1_0000) as int
    } else {
        n % 0x1_0000 - 0x1_0000
    }
}

/// The number of zeros that a fraction of `have` digits lacks to reach `scale`.
pub open spec fn missing(scale: i16, have: nat) -> nat {
    if scale > wrapped_i16(have) {
        (scale - wrapped_i16(have)) as nat
    } else {
        0
    }
}

/// A run of zero bytes.
pub open spec fn zero_bytes(count: nat) -> Seq<u8> {
    Seq::new(count, |i: int| 0u8)
}

/// The values of digit bytes.
pub open spec fn digit_values(text: Seq<u8>) -> Seq<u8> {
    Seq::new(text.len(), |i: int| (text[i] - 0x30) as u8)
}

/// The low `width` digits, filled up with zeros at the front where there are fewer.
pub open spec fn fitted(digits: Seq<u8>, width: nat) -> Seq<u8> {
    if digits.len() < width {
        zero_bytes((width - digits.len()) as nat) + digits
    } else {
        digits.skip(digits.len() - width)
    }
}

/// Whether the number that a text writes is negative.
pub open spec fn is_negative(text: Seq<u8>) -> bool {
    text.len() > 0 && text[0] == 0x2D
}

/// The digits of the number that a text writes, aligned to the scale and the width of a field.
pub open spec fn field_digits(text: Seq<u8>, attr: FieldAttr) -> Seq<u8> {
    let unsigned = strip_signs(text);
    let fraction = fraction_part(unsigned);
    fitted(
        digit_values(whole_part(unsigned) + fraction) + zero_bytes(
            missing(attr.scale, fraction.len()),
        ),
        attr.digits as nat,
    )
}

/// The zoned bytes of digits. Where every digit is below ten this is the zoned storage form.
pub open spec fn source(negative: bool, digits: Seq<u8>) -> Seq<u8> {
    Seq::new(
        digits.len(),
        |i: int|
            if negative && i == digits.len() - 1 {
                ((0x30 + digits[i]) as u8) | 0x40
            } else {
                (0x30 + digits[i]) as u8
            },
    )
}

/// The signed zoned attributes with the digits and the scale of a field.
pub open spec fn source_attr(attr: FieldAttr) -> FieldAttr {
    FieldAttr {
        field_type: COB_TYPE_NUMERIC_DISPLAY,
        digits: attr.digits,
        scale: attr.scale,
        flags: COB_FLAG_HAVE_SIGN,
    }
}

/// Whether a text can be encoded in a field: nothing but its signs at the front and its first
/// decimal point lies below the digits, the zeros to be appended can be counted, and the field can
/// receive a number.
pub open spec fn encodable(field: PicField, text: Seq<u8>) -> bool {
    let unsigned = strip_signs(text);
    let bytes = whole_part(unsigned) + fraction_part(unsigned);
    &&& forall|i: int| 0 <= i < bytes.len() ==> #[trigger] bytes[i] >= 0x30
    &&& missing(field.attr.scale, fraction_part(unsigned).len()) <= 0x7FFF
    &&& move_supported(source_attr(field.attr), field.size as nat, field.attr)
}

/// The bytes of a field into which a text was encoded.
pub open spec fn encoded(field: PicField, text: Seq<u8>) -> Seq<u8> {
    moved(
        source(is_negative(text), field_digits(text, field.attr)),
        source_attr(field.attr),
        zero_bytes(field.size as nat),
        field.attr,
    )
}

/// The storage form of a sign and digits in a field, where the field is zoned, packed or
/// big-endian binary and of the size that belongs to its digits.
pub open spec fn stored_form(field: PicField, negative: bool, digits: Seq<u8>) -> Option<Seq<u8>> {
    let attr = field.attr;
    let signed = attr.have_sign();
    if !all_digits(digits) || digits.len() == 0 || digits.len() > 38 || digits.len()
        != attr.digits {
        None
    } else if like(attr, COB_TYPE_NUMERIC_DISPLAY, attr) && field.size == attr.digits {
        Some(zoned(negative && signed, digits))
    } else if like(attr, COB_TYPE_NUMERIC_PACKED, attr) && attr.scale >= 0 && field.size
        == attr.digits / 2 + 1 {
        Some(packed(sign_nibble(signed, negative), digits))
    } else if attr.field_type == COB_TYPE_NUMERIC_BINARY && attr.binary_swap() && 0 < field.size
        <= 16 {
        let magnitude = number(digits) as int;
        Some(
            big_endian(
                if negative && signed {
                    -magnitude
                } else {
                    magnitude
                },
                field.size as nat,
            ),
        )
    } else {
        None
    }
}

/// The field of a picture: that of the four pictures of the synthetic records, or what the
/// picture resolves to.
pub open spec fn resolved(pic: Seq<char>, usage: Usage) -> Option<PicField> {
    if usage == Usage::Display && pic == "9(8)"@ {
        Some(field_of(COB_TYPE_NUMERIC_DISPLAY, 8, 0, 0, 8))
    } else if usage == Usage::Comp3 && pic == "S9(7)V99"@ {
        Some(field_of(COB_TYPE_NUMERIC_PACKED, 9, 2, COB_FLAG_HAVE_SIGN, 5))
    } else if usage == Usage::Comp && pic == "9(4)"@ {
        Some(
            field_of(
                COB_TYPE_NUMERIC_BINARY,
                4,
                0,
                (COB_FLAG_BINARY_SWAP + COB_FLAG_BINARY_TRUNC) as u16,
                2,
            ),
        )
    } else if usage == Usage::CompX && pic == "9(6)"@ {
        Some(field_of(COB_TYPE_NUMERIC_BINARY, 6, 0, COB_FLAG_BINARY_SWAP, 3))
    } else {
        built(pic, usage, false, false)
    }
}

/// Stripping signs one by one from the front ends at the same place.
pub proof fn lemma_strip_signs(text: Seq<u8>, i: int)
    requires
        0 <= i <= text.len(),
        forall|k: int| 0 <= k < i ==> is_sign_byte(#[trigger] text[k]),
    ensures
        strip_signs(text) == strip_signs(text.skip(i)),
    decreases i,
{
    if i > 0 {
        let rest = text.skip(1);
        assert forall|k: int| 0 <= k < i - 1 implies is_sign_byte(#[trigger] rest[k]) by {
            assert(rest[k] == text[k + 1]);
        }
        lemma_strip_signs(rest, i - 1);
        assert(rest.skip(i - 1) =~= text.skip(i));
    } else {
        assert(text.skip(0) =~= text);
    }
}

/// The first decimal point is where no other stands before it.
pub proof fn lemma_point(text: Seq<u8>, i: int)
    requires
        0 <= i <= text.len(),
        forall|k: int| 0 <= k < i ==> #[trigger] text[k] != 0x2E,
        i < text.len() ==> text[i] == 0x2E,
    ensures
        point(text) == i,
    decreases i,
{
    if i > 0 {
        let rest = text.skip(1);
        assert forall|k: int| 0 <= k < i - 1 implies #[trigger] rest[k] != 0x2E by {
            assert(rest[k] == text[k + 1]);
        }
        lemma_point(rest, i - 1);
    }
}

/// The number of signs at the front of a text.
fn count_signs(text: &[u8]) -> (count: usize)
    ensures
        count <= text@.len(),
        strip_signs(text@) == text@.skip(count as int),
{
    let mut i: usize = 0;
    while i < text.len() && (text[i] == 0x2D || text[i] == 0x2B)
        invariant
            i <= text@.len(),
            forall|k: int| 0 <= k < i ==> is_sign_byte(#[trigger] text@[k]),
        decreases text@.len() - i,
    {
        i += 1;
    }
    proof {
        lemma_strip_signs(text@, i as int);
    }
    i
}

/// The position of the first decimal point from `start` on, counted from `start`.
fn find_point(text: &[u8], start: usize) -> (position: usize)
    requires
        start <= text@.len(),
    ensures
        start + position <= text@.len(),
        position == point(text@.skip(start as int)),
{
    let ghost unsigned = text@.skip(start as int);
    let mut i: usize = start;
    while i < text.len() && text[i] != 0x2E
        invariant
            start <= i <= text@.len(),
            unsigned == text@.skip(start as int),
            forall|k: int| 0 <= k < i - start ==> #[trigger] unsigned[k] != 0x2E,
        decreases text@.len() - i,
    {
        assert(unsigned[i - start] == text@[i as int]);
        i += 1;
    }
    proof {
        lemma_point(unsigned, i - start);
    }
    i - start
}

/// The digits of the number that `text` writes, aligned to the scale and the width of a field, or
/// nothing where a byte lies below the digits or the zeros to be appended cannot be counted.
fn align_digits(text: &[u8], attr: &FieldAttr) -> (digits: Option<Vec<u8>>)
    ensures
        ({
            let unsigned = strip_signs(text@);
            let bytes = whole_part(unsigned) + fraction_part(unsigned);
            digits is Some <==> (forall|i: int|
                0 <= i < bytes.len() ==> #[trigger] bytes[i] >= 0x30) && missing(
                attr.scale,
                fraction_part(unsigned).len(),
            ) <= 0x7FFF
        }),
        digits matches Some(d) ==> d@ == field_digits(text@, *attr),
        digits matches Some(d) ==> forall|i: int| 0 <= i < d@.len() ==> #[trigger] d@[i] <= 0xCF,
{
    let start: usize = count_signs(text);
    let before: usize = find_point(text, start);
    let ghost unsigned = strip_signs(text@);
    let ghost bytes = whole_part(unsigned) + fraction_part(unsigned);
    let stop: usize = text.len();
    let have: usize = if start + before < stop {
        stop - start - before - 1
    } else {
        0
    };
    assert(have == fraction_part(unsigned).len());
    assert(bytes.len() == before + have);
    let mut digits: Vec<u8> = Vec::new();
    let mut i: usize = start;
    while i < stop
        invariant
            start <= i <= stop,
            stop == text@.len(),
            start + before <= stop,
            before == point(unsigned),
            unsigned == text@.skip(start as int),
            unsigned == strip_signs(text@),
            bytes == whole_part(unsigned) + fraction_part(unsigned),
            digits@.len() == if i <= start + before {
                i - start
            } else {
                i - start - 1
            },
            digits@ == digit_values(bytes.take(digits@.len() as int)),
            digits@.len() <= bytes.len(),
            forall|k: int| 0 <= k < digits@.len() ==> #[trigger] bytes[k] >= 0x30,
        decreases stop - i,
    {
        if i != start + before {
            let byte: u8 = text[i];
            let ghost at = digits@.len() as int;
            assert(byte == bytes[at]);
            if byte < 0x30 {
                return None;
            }
            digits.push(byte - 0x30);
            assert(digits@ =~= digit_values(bytes.take(at + 1)));
        }
        i += 1;
    }
    assert(bytes.take(digits@.len() as int) =~= bytes);
    let low: usize = have % 0x1_0000;
    let counted: i32 = if low < 0x8000 {
        low as i32
    } else {
        low as i32 - 0x1_0000
    };
    assert(counted == wrapped_i16(have as nat));
    let lacking: i32 = attr.scale as i32 - counted;
    if lacking > 0x7FFF {
        return None;
    }
    let ghost plain = digits@;
    let mut added: i32 = 0;
    while added < lacking
        invariant
            0 <= added,
            added <= lacking || lacking < 0,
            lacking < 0 ==> added == 0,
            digits@ == plain + zero_bytes(added as nat),
        decreases lacking - added,
    {
        digits.push(0);
        added += 1;
        assert(digits@ =~= plain + zero_bytes(added as nat));
    }
    assert(digits@ =~= digit_values(bytes) + zero_bytes(missing(attr.scale, have as nat)));
    assert(forall|k: int| 0 <= k < digits@.len() ==> #[trigger] digits@[k] <= 0xCF);
    Some(fit(digits, attr.digits as usize))
}

/// The low `width` digits, filled up with zeros at the front where there are fewer.
fn fit(digits: Vec<u8>, width: usize) -> (out: Vec<u8>)
    ensures
        out@ == fitted(digits@, width as nat),
        (forall|i: int| 0 <= i < digits@.len() ==> #[trigger] digits@[i] <= 0xCF) ==> forall|i: int|
            0 <= i < out@.len() ==> #[trigger] out@[i] <= 0xCF,
{
    let mut out: Vec<u8> = Vec::new();
    let mut from: usize = 0;
    if digits.len() < width {
        out.resize(width - digits.len(), 0);
        assert(out@ =~= zero_bytes((width - digits@.len()) as nat));
    } else {
        from = digits.len() - width;
    }
    let ghost front = out@;
    let mut i: usize = from;
    while i < digits.len()
        invariant
            from <= i <= digits@.len(),
            out@ == front + digits@.subrange(from as int, i as int),
        decreases digits@.len() - i,
    {
        out.push(digits[i]);
        i += 1;
        assert(out@ =~= front + digits@.subrange(from as int, i as int));
    }
    assert(out@ =~= fitted(digits@, width as nat));
    out
}

/// The zoned bytes of a sign and digits.
fn source_bytes(negative: bool, digits: &Vec<u8>) -> (bytes: Vec<u8>)
    requires
        forall|i: int| 0 <= i < digits@.len() ==> #[trigger] digits@[i] <= 0xCF,
    ensures
        bytes@ == source(negative, digits@),
{
    let mut out: Vec<u8> = Vec::new();
    let mut i: usize = 0;
    while i < digits.len()
        invariant
            i <= digits@.len(),
            forall|k: int| 0 <= k < digits@.len() ==> #[trigger] digits@[k] <= 0xCF,
            out@ == source(negative, digits@).take(i as int),
        decreases digits@.len() - i,
    {
        let byte: u8 = 0x30 + digits[i];
        if negative && i == digits.len() - 1 {
            out.push(byte | 0x40);
        } else {
            out.push(byte);
        }
        i += 1;
        assert(out@ =~= source(negative, digits@).take(i as int));
    }
    assert(out@ =~= source(negative, digits@));
    out
}

/// The zoned bytes of digits below ten are their zoned storage form.
pub proof fn lemma_source_is_zoned(negative: bool, digits: Seq<u8>)
    requires
        all_digits(digits),
    ensures
        source(negative, digits) == zoned(negative, digits),
{
    assert forall|i: int| 0 <= i < digits.len() implies source(negative, digits)[i] == zoned(
        negative,
        digits,
    )[i] by {
        let digit = digits[i];
        let byte = (0x30 + digit) as u8;
        assert(0x30 <= byte <= 0x39 ==> byte | 0x40 == byte + 0x40) by (bit_vector);
    }
    assert(source(negative, digits) =~= zoned(negative, digits));
}

/// Encodes a number, given as text, in a field. Returns nothing where the text or the field does
/// not allow it.
pub fn encode_field(field: &PicField, value: &str) -> (out: Option<Vec<u8>>)
    requires
        field.size <= isize::MAX,
    ensures
        out is Some <==> encodable(*field, encode_utf8(value@)),
        out matches Some(bytes) ==> bytes@ == encoded(*field, encode_utf8(value@)),
        out matches Some(bytes) ==> bytes@.len() == field.size,
        out matches Some(bytes) ==> (stored_form(
            *field,
            is_negative(encode_utf8(value@)),
            field_digits(encode_utf8(value@), field.attr),
        ) matches Some(form) ==> bytes@ == form),        out matches Some(bytes) ==> (stored_form(
            *field,
            encode_utf8(value@).len() > 0 && encode_utf8(value@)[0] == 0x2D,
            field_digits(encode_utf8(value@), field.attr),
        ) matches Some(form) ==> bytes@ == form),
{
    let text: &[u8] = value.as_bytes();
    let negative: bool = text.len() > 0 && text[0] == 0x2D;
    let digits: Vec<u8> = match align_digits(text, &field.attr) {
        Some(d) => d,
        None => return None,
    };
    let src: Vec<u8> = source_bytes(negative, &digits);
    let attr = FieldAttr {
        field_type: COB_TYPE_NUMERIC_DISPLAY,
        digits: field.attr.digits,
        scale: field.attr.scale,
        flags: COB_FLAG_HAVE_SIGN,
    };
    let mut out: Vec<u8> = vec![0u8; field.size];
    assert(out@ =~= zero_bytes(field.size as nat));
    proof {
        if all_digits(digits@) {
            lemma_source_is_zoned(negative, digits@);
        }
    }
    match cob_move(src.as_slice(), &attr, out.as_mut_slice(), &field.attr) {
        Ok(_) => Some(out),
        Err(_) => None,
    }
}

/// Encodes a number, given as text, in the storage form of a picture. Returns nothing where the
/// picture is rejected or cannot hold the number.
pub fn try_enc(pic: &str, u: Usage, value: &str) -> (out: Option<Vec<u8>>)
    requires
        picture_ends(pic@),
    ensures
        out is Some <==> (resolved(pic@, u) matches Some(field) && encodable(
            field,
            encode_utf8(value@),
        )),
        out matches Some(bytes) ==> bytes@ == encoded(resolved(pic@, u)->0, encode_utf8(value@)),
        out matches Some(bytes) ==> bytes@.len() == resolved(pic@, u)->0.size,
        out matches Some(bytes) ==> (stored_form(
            resolved(pic@, u)->0,
            is_negative(encode_utf8(value@)),
            field_digits(encode_utf8(value@), resolved(pic@, u)->0.attr),
        ) matches Some(form) ==> bytes@ == form),        out is Some <==> (built(pic@, u, false, false) matches Some(field) && encodable(
            field,
            encode_utf8(value@),
        )),
        out matches Some(bytes) ==> bytes@ == encoded(
            built(pic@, u, false, false)->0,
            encode_utf8(value@),
        ),
{
    match build_field(pic, u, false, false) {
        Ok(field) => encode_field(&field, value),
        Err(_) => None,
    }
}

/// Encodes a number, given as text, in the storage form of a picture that holds it.
pub fn enc(pic: &str, u: Usage, value: &str) -> (out: Vec<u8>)
    requires
        picture_ends(pic@),
        resolved(pic@, u) is Some,
        encodable(resolved(pic@, u)->0, encode_utf8(value@)),
    ensures
        out@ == encoded(resolved(pic@, u)->0, encode_utf8(value@)),
        out@.len() == resolved(pic@, u)->0.size,
        stored_form(
            resolved(pic@, u)->0,
            is_negative(encode_utf8(value@)),
            field_digits(encode_utf8(value@), resolved(pic@, u)->0.attr),
        ) matches Some(form) ==> out@ == form,        built(pic@, u, false, false) is Some,
        out@ == encoded(built(pic@, u, false, false)->0, encode_utf8(value@)),
{
    match try_enc(pic, u, value) {
        Some(out) => out,
        None => Vec::new(),
    }
}

} // verus!
