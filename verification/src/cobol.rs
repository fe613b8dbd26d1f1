//! The conversions that `gnucobol-rs` performs, with what is relied on of each.

use crate::field::{
    all_digits, big_endian, number, packed, sign_nibble, zoned, zoned_digits, zoned_negative,
    Decimal, FieldAttr, PicField, Usage, COB_FLAG_BINARY_SWAP, COB_FLAG_BINARY_TRUNC,
    COB_FLAG_HAVE_SIGN, COB_TYPE_ALPHANUMERIC, COB_TYPE_NUMERIC_BINARY, COB_TYPE_NUMERIC_DISPLAY,
    COB_TYPE_NUMERIC_PACKED,
};
use crate::text::{decimal_value, digit_run, is_space};
use vstd::prelude::*;

verus! {

/// The error of `gnucobol_rs::cob_move`.
#[verifier::external_type_specification]
#[verifier::external_body]
pub struct ExDecimalError(gnucobol_rs::DecimalError);

/// The error of `gnucobol_rs::build_field`.
#[verifier::external_type_specification]
#[verifier::external_body]
pub struct ExPicError(gnucobol_rs::PicError);

/// The bytes that `gnucobol_rs::cob_move` leaves in the destination. The arguments are the source,
/// its attributes, the destination as it was, and its attributes.
pub uninterp spec fn moved(
    src: Seq<u8>,
    src_attr: FieldAttr,
    dst: Seq<u8>,
    dst_attr: FieldAttr,
) -> Seq<u8>;

/// What `gnucobol_rs::build_field` makes of a picture, or nothing where it rejects it.
pub uninterp spec fn built(
    pic: Seq<char>,
    usage: Usage,
    sign_separate: bool,
    sign_leading: bool,
) -> Option<PicField>;

/// Whether a type tag is that of a zoned, packed or binary number.
pub open spec fn is_numeric_type(field_type: u16) -> bool {
    field_type == COB_TYPE_NUMERIC_DISPLAY || field_type == COB_TYPE_NUMERIC_PACKED || field_type
        == COB_TYPE_NUMERIC_BINARY
}

/// Whether a move is supported: into nothing, into a binary field without digits, or between
/// numeric fields of which not both are packed.
pub open spec fn move_supported(src_attr: FieldAttr, dst_size: nat, dst_attr: FieldAttr) -> bool {
    ||| dst_size == 0
    ||| dst_attr.field_type == COB_TYPE_NUMERIC_BINARY && dst_attr.digits == 0
    ||| is_numeric_type(src_attr.field_type) && is_numeric_type(dst_attr.field_type) && !(
    src_attr.field_type == COB_TYPE_NUMERIC_PACKED && dst_attr.field_type
        == COB_TYPE_NUMERIC_PACKED)
}

/// Whether `attr` describes a signed zoned field of `size` digits whose sign is an overpunch.
pub open spec fn signed_display(attr: FieldAttr, size: nat) -> bool {
    &&& attr.field_type == COB_TYPE_NUMERIC_DISPLAY
    &&& attr.flags == COB_FLAG_HAVE_SIGN
    &&& attr.digits == size
    &&& 0 < size <= 38
}

/// Whether `attr` describes a field of type `field_type` with the digits and the scale of
/// `picture`, and no flag but that of the sign.
pub open spec fn like(attr: FieldAttr, field_type: u16, picture: FieldAttr) -> bool {
    &&& attr.field_type == field_type
    &&& attr.flags == 0 || attr.flags == COB_FLAG_HAVE_SIGN
    &&& attr.digits == picture.digits
    &&& attr.scale == picture.scale
}

/// Calls `gnucobol_rs::cob_move`, the COBOL `MOVE` from one field to another. It ends without a
/// panic on all bytes and attributes.
///
/// Claimed of it: which moves succeed; that the bytes it leaves in the destination depend on the
/// arguments alone; that a move that fails leaves the destination as it was. Further, for a
/// signed zoned field of up to 38 digits: a move to a zoned field with the same digits and scale
/// keeps the digits, and the sign where the receiver has one; a move to a packed field with the
/// same digits and scale packs digits and sign, and a move back from signed packed storage
/// restores them; a move to a big-endian binary field with the same digits and scale stores the
/// number, negated where it is negative and the receiver has a sign.
#[verifier::external_body]
pub(crate) fn cob_move(
    src: &[u8],
    src_attr: &FieldAttr,
    dst: &mut [u8],
    dst_attr: &FieldAttr,
) -> (result: Result<(), gnucobol_rs::DecimalError>)
    ensures
        result is Ok <==> move_supported(*src_attr, old(dst)@.len(), *dst_attr),
        final(dst)@.len() == old(dst)@.len(),
        result is Err ==> final(dst)@ == old(dst)@,
        final(dst)@ == moved(src@, *src_attr, old(dst)@, *dst_attr),
        forall|negative: bool, digits: Seq<u8>|
            src@ == #[trigger] zoned(negative, digits) && all_digits(digits) && signed_display(
                *src_attr,
                digits.len(),
            ) && like(*dst_attr, COB_TYPE_NUMERIC_DISPLAY, *src_attr) && old(dst)@.len()
                == digits.len() ==> final(dst)@ == zoned(negative && dst_attr.have_sign(), digits),
        forall|negative: bool, digits: Seq<u8>|
            src@ == #[trigger] zoned(negative, digits) && all_digits(digits) && signed_display(
                *src_attr,
                digits.len(),
            ) && like(*dst_attr, COB_TYPE_NUMERIC_PACKED, *src_attr) && src_attr.scale >= 0
                && old(dst)@.len() == digits.len() / 2 + 1 ==> final(dst)@ == packed(
                sign_nibble(dst_attr.have_sign(), negative),
                digits,
            ),
        forall|negative: bool, digits: Seq<u8>|
            src@ == #[trigger] packed(sign_nibble(true, negative), digits) && all_digits(digits)
                && signed_display(*dst_attr, digits.len()) && like(
                *src_attr,
                COB_TYPE_NUMERIC_PACKED,
                *dst_attr,
            ) && src_attr.scale >= 0 && old(dst)@.len() == digits.len() ==> final(dst)@ == zoned(
                negative,
                digits,
            ),
        forall|negative: bool, digits: Seq<u8>|
            src@ == #[trigger] zoned(negative, digits) && all_digits(digits) && signed_display(
                *src_attr,
                digits.len(),
            ) && dst_attr.field_type == COB_TYPE_NUMERIC_BINARY && dst_attr.digits
                == src_attr.digits && dst_attr.scale == src_attr.scale && dst_attr.binary_swap()
                && 0 < old(dst)@.len() <= 16 ==> final(dst)@ == big_endian(
                if negative && dst_attr.have_sign() {
                    -(number(digits) as int)
                } else {
                    number(digits) as int
                },
                old(dst)@.len(),
            ),
{
    let from = gnucobol_rs::FieldAttr {
        field_type: src_attr.field_type,
        digits: src_attr.digits,
        scale: src_attr.scale,
        flags: src_attr.flags,
    };
    let to = gnucobol_rs::FieldAttr {
        field_type: dst_attr.field_type,
        digits: dst_attr.digits,
        scale: dst_attr.scale,
        flags: dst_attr.flags,
    };
    gnucobol_rs::cob_move(src, &from, dst, &to)
}

/// Calls `gnucobol_rs::Decimal::from_display`, which decodes zoned storage.
///
/// Claimed of it: the sign, the digits and the scale, for all bytes and attributes.
#[verifier::external_body]
pub(crate) fn from_display(data: &[u8], attr: &FieldAttr) -> (decimal: Decimal)
    ensures
        decimal.negative == zoned_negative(data@, *attr),
        decimal.digits@ == zoned_digits(data@, *attr),
        decimal.scale == attr.scale,
{
    let from = gnucobol_rs::FieldAttr {
        field_type: attr.field_type,
        digits: attr.digits,
        scale: attr.scale,
        flags: attr.flags,
    };
    let value = gnucobol_rs::Decimal::from_display(data, &from);
    Decimal { negative: value.negative, digits: value.digits, scale: value.scale }
}

/// The count of the first symbol of a picture without white space: the number in the brackets that
/// follow it, or one.
pub open spec fn symbol_count(pic: Seq<char>) -> nat {
    if pic.len() > 1 && pic[1] == '(' {
        decimal_value(pic.skip(2).take(digit_run(pic.skip(2)) as int))
    } else {
        1
    }
}

/// What follows the first symbol of a picture and its count.
pub open spec fn after_symbol(pic: Seq<char>) -> Seq<char> {
    if pic.len() > 1 && pic[1] == '(' {
        let run = digit_run(pic.skip(2));
        if run + 3 <= pic.len() {
            pic.skip(run as int + 3)
        } else {
            Seq::empty()
        }
    } else {
        pic.skip(1)
    }
}

/// The number of digit positions, declared by the symbol `9`, of a picture without white space.
pub open spec fn digit_positions(pic: Seq<char>) -> nat
    decreases pic.len(),
{
    if pic.len() == 0 {
        0
    } else {
        digit_positions(after_symbol(pic)) + if pic[0] == '9' {
            symbol_count(pic)
        } else {
            0
        }
    }
}

/// The number of scaling positions, declared by the symbol `P`, of a picture without white space.
pub open spec fn scaling_positions(pic: Seq<char>) -> nat
    decreases pic.len(),
{
    if pic.len() == 0 {
        0
    } else {
        scaling_positions(after_symbol(pic)) + if pic[0] == 'P' || pic[0] == 'p' {
            symbol_count(pic)
        } else {
            0
        }
    }
}

/// Whether the scaling positions of a picture trail: a digit position comes before the first.
pub open spec fn scaling_trails(pic: Seq<char>) -> bool
    decreases pic.len(),
{
    if pic.len() == 0 || pic[0] == 'P' || pic[0] == 'p' {
        false
    } else {
        pic[0] == '9' || scaling_trails(after_symbol(pic))
    }
}

/// Whether the scale of a picture can be computed: where it has scaling positions, they and the
/// digit positions can be counted together in sixteen bits, and trailing ones can be negated there.
pub open spec fn picture_ends(pic: Seq<char>) -> bool {
    let dense = pic.filter(|c: char| !is_space(c));
    let scaling = scaling_positions(dense);
    scaling > 0 ==> digit_positions(dense) + scaling <= 0xFFFF && !(scaling == 0x8000
        && scaling_trails(dense))
}

/// A picture in which no `P` stands has no scaling position.
pub proof fn lemma_unscaled_picture(pic: Seq<char>)
    requires
        !pic.contains('P'),
        !pic.contains('p'),
    ensures
        picture_ends(pic),
{
    let kept = |c: char| !is_space(c);
    let dense = pic.filter(kept);
    lemma_filter_keeps(pic, kept, 'P');
    lemma_filter_keeps(pic, kept, 'p');
    lemma_no_scaling(dense);
}

/// A filtered text holds nothing that the text does not.
proof fn lemma_filter_keeps(text: Seq<char>, kept: spec_fn(char) -> bool, c: char)
    requires
        !text.contains(c),
    ensures
        !text.filter(kept).contains(c),
    decreases text.len(),
{
    reveal(Seq::filter);
    if text.len() > 0 {
        let front = text.drop_last();
        assert(!front.contains(c)) by {
            if front.contains(c) {
                let i = choose|i: int| 0 <= i < front.len() && front[i] == c;
                assert(text[i] == c);
            }
        }
        lemma_filter_keeps(front, kept, c);
        assert(text[text.len() - 1] == text.last());
        let rest = front.filter(kept);
        if text.filter(kept).contains(c) {
            let i = choose|i: int| 0 <= i < text.filter(kept).len() && text.filter(kept)[i] == c;
            if i < rest.len() {
                assert(rest[i] == c);
            }
        }
    }
}

/// A picture without the symbol `P` declares no scaling position.
proof fn lemma_no_scaling(pic: Seq<char>)
    requires
        !pic.contains('P'),
        !pic.contains('p'),
    ensures
        scaling_positions(pic) == 0,
    decreases pic.len(),
{
    if pic.len() > 0 {
        let rest = after_symbol(pic);
        assert forall|i: int| 0 <= i < rest.len() implies rest[i] != 'P' && rest[i] != 'p' by {
            assert(exists|j: int| 0 <= j < pic.len() && pic[j] == rest[i]) by {
                assert(pic[pic.len() - rest.len() + i] == rest[i]);
            }
        }
        lemma_no_scaling(rest);
        assert(pic[0] != 'P' && pic[0] != 'p');
    }
}

/// Calls `gnucobol_rs::build_field`, which resolves a picture clause.
///
/// Claimed of it: the outcome depends on the arguments alone; a field is zoned, packed, binary or
/// alphanumeric and has at most a million bytes; and, for the four pictures of the synthetic
/// records, which field it is. A picture whose scale overflows is left out: there it panics.
#[verifier::external_body]
pub(crate) fn build_field(
    pic: &str,
    usage: Usage,
    sign_separate: bool,
    sign_leading: bool,
) -> (result: Result<PicField, gnucobol_rs::PicError>)
    requires
        picture_ends(pic@),
    ensures
        result is Ok <==> built(pic@, usage, sign_separate, sign_leading) is Some,
        result matches Ok(field) ==> built(pic@, usage, sign_separate, sign_leading) == Some(
            field,
        ),
        result matches Ok(field) ==> field.size <= 1_000_000 && (field.attr.field_type
            == COB_TYPE_NUMERIC_DISPLAY || field.attr.field_type == COB_TYPE_NUMERIC_PACKED
            || field.attr.field_type == COB_TYPE_NUMERIC_BINARY || field.attr.field_type
            == COB_TYPE_ALPHANUMERIC),
        pic@ == "9(8)"@ && usage == Usage::Display ==> result is Ok && result->Ok_0 == field_of(
            COB_TYPE_NUMERIC_DISPLAY,
            8,
            0,
            0,
            8,
        ),
        pic@ == "S9(7)V99"@ && usage == Usage::Comp3 && !sign_separate && !sign_leading ==> result
            is Ok && result->Ok_0 == field_of(
            COB_TYPE_NUMERIC_PACKED,
            9,
            2,
            COB_FLAG_HAVE_SIGN,
            5,
        ),
        pic@ == "9(4)"@ && usage == Usage::Comp ==> result is Ok && result->Ok_0 == field_of(
            COB_TYPE_NUMERIC_BINARY,
            4,
            0,
            (COB_FLAG_BINARY_SWAP + COB_FLAG_BINARY_TRUNC) as u16,
            2,
        ),
        pic@ == "9(6)"@ && usage == Usage::CompX ==> result is Ok && result->Ok_0 == field_of(
            COB_TYPE_NUMERIC_BINARY,
            6,
            0,
            COB_FLAG_BINARY_SWAP,
            3,
        ),
{
    let kind = match usage {
        Usage::Display => gnucobol_rs::Usage::Display,
        Usage::Comp3 => gnucobol_rs::Usage::Comp3,
        Usage::Comp => gnucobol_rs::Usage::Comp,
        Usage::Comp5 => gnucobol_rs::Usage::Comp5,
        Usage::CompX => gnucobol_rs::Usage::CompX,
        Usage::Comp6 => gnucobol_rs::Usage::Comp6,
    };
    let f = gnucobol_rs::build_field(pic, kind, sign_separate, sign_leading)?;
    let (field_type, digits, scale) = (f.attr.field_type, f.attr.digits, f.attr.scale);
    let attr = FieldAttr { field_type, digits, scale, flags: f.attr.flags };
    Ok(PicField { attr, size: f.size })
}

/// A field from its attributes and size.
pub open spec fn field_of(
    field_type: u16,
    digits: u16,
    scale: i16,
    flags: u16,
    size: usize,
) -> PicField {
    PicField { attr: FieldAttr { field_type, digits, scale, flags }, size }
}

} // verus!
