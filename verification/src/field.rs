//! COBOL field attributes and the storage forms of a decimal number.

use vstd::arithmetic::div_mod::lemma_div_denominator;
use vstd::arithmetic::power::{lemma_pow_positive, pow};
use vstd::prelude::*;

verus! {

/// Type tag of a `USAGE DISPLAY` numeric field.
pub const COB_TYPE_NUMERIC_DISPLAY: u16 = 0x10;

/// Type tag of a binary numeric field.
pub const COB_TYPE_NUMERIC_BINARY: u16 = 0x11;

/// Type tag of a `COMP-3` (packed decimal) field.
pub const COB_TYPE_NUMERIC_PACKED: u16 = 0x12;

/// Type tag of an alphanumeric (`PIC X`) field.
pub const COB_TYPE_ALPHANUMERIC: u16 = 0x21;

/// Attribute flag of a field that carries a sign.
pub const COB_FLAG_HAVE_SIGN: u16 = 0x0001;

/// Attribute flag of a big-endian binary field.
pub const COB_FLAG_BINARY_SWAP: u16 = 0x0020;

/// Attribute flag of a binary field truncated to the digits of its picture.
pub const COB_FLAG_BINARY_TRUNC: u16 = 0x0800;

/// The attributes of a field: its type, digit count, implied decimal scale and flags.
#[derive(Clone, Copy, Debug, PartialEq, Eq, Structural)]
pub struct FieldAttr {
    /// One of the `COB_TYPE_*` tags.
    pub field_type: u16,
    /// The number of digits of the picture.
    pub digits: u16,
    /// The number of fractional digits; negative for trailing scaling positions.
    pub scale: i16,
    /// The union of the `COB_FLAG_*` flags.
    pub flags: u16,
}

/// The `USAGE` of a numeric field.
#[derive(Clone, Copy, Debug, PartialEq, Eq, Structural)]
pub enum Usage {
    /// Zoned decimal, one character for each digit.
    Display,
    /// Packed decimal with a sign nibble.
    Comp3,
    /// Big-endian binary, truncated to the digits of the picture.
    Comp,
    /// Binary in the byte order of the machine.
    Comp5,
    /// Big-endian binary of the least sufficient number of bytes.
    CompX,
    /// Packed decimal without a sign nibble.
    Comp6,
}

/// A picture clause resolved to attributes and a storage size in bytes.
#[derive(Clone, Copy, Debug, PartialEq, Eq, Structural)]
pub struct PicField {
    /// The attributes of the field.
    pub attr: FieldAttr,
    /// The number of bytes that the field occupies.
    pub size: usize,
}

/// The value of a numeric field: a sign, the digits with the most significant first, and a scale.
#[derive(Debug)]
pub struct Decimal {
    /// Whether the sign is negative.
    pub negative: bool,
    /// The digits, the most significant first.
    pub digits: Vec<u8>,
    /// The number of fractional digits.
    pub scale: i16,
}

impl FieldAttr {
    /// Whether the field carries a sign.
    pub open spec fn have_sign(self) -> bool {
        self.flags % 2 == 1
    }

    /// Whether the sign has a byte of its own.
    pub open spec fn sign_separate(self) -> bool {
        (self.flags / 2) % 2 == 1
    }

    /// Whether the sign stands at the front.
    pub open spec fn sign_leading(self) -> bool {
        (self.flags / 4) % 2 == 1
    }

    /// Whether a binary field is stored with its most significant byte first.
    pub open spec fn binary_swap(self) -> bool {
        (self.flags / 0x20) % 2 == 1
    }
}

/// Whether every entry is a decimal digit.
pub open spec fn all_digits(digits: Seq<u8>) -> bool {
    forall|i: int| 0 <= i < digits.len() ==> digits[i] <= 9
}

/// The zoned storage of a sign and digits: one ASCII character for each digit, the last of them
/// overpunched (raised by 0x40) when the sign is negative.
pub open spec fn zoned(negative: bool, digits: Seq<u8>) -> Seq<u8> {
    Seq::new(
        digits.len(),
        |i: int|
            (0x30 + digits[i] + if negative && i == digits.len() - 1 {
                0x40int
            } else {
                0
            }) as u8,
    )
}

/// The sign nibble of packed storage.
pub open spec fn sign_nibble(signed: bool, negative: bool) -> u8 {
    if !signed {
        0xF
    } else if negative {
        0xD
    } else {
        0xC
    }
}

/// The nibbles of packed storage in order: a zero to fill up the first byte where the number of
/// digits is even, the digits, and the sign nibble.
pub open spec fn packed_nibbles(sign: u8, digits: Seq<u8>) -> Seq<u8> {
    let filler = if digits.len() % 2 == 0 {
        seq![0u8]
    } else {
        Seq::<u8>::empty()
    };
    (filler + digits).push(sign)
}

/// Packed storage: two nibbles to a byte, the high one first.
pub open spec fn packed(sign: u8, digits: Seq<u8>) -> Seq<u8> {
    Seq::new(
        digits.len() / 2 + 1,
        |i: int|
            (packed_nibbles(sign, digits)[2 * i] * 16 + packed_nibbles(sign, digits)[2 * i
                + 1]) as u8,
    )
}

/// The number that digits denote, the most significant first.
pub open spec fn number(digits: Seq<u8>) -> nat
    decreases digits.len(),
{
    if digits.len() == 0 {
        0
    } else {
        number(digits.drop_last()) * 10 + digits.last() as nat
    }
}

/// The `size` low bytes of `value` in two's complement, the most significant first.
pub open spec fn big_endian(value: int, size: nat) -> Seq<u8> {
    Seq::new(size, |i: int| ((value / pow(256, (size - 1 - i) as nat)) % 256) as u8)
}

/// The position of the sign in a zoned field of `size` bytes.
pub open spec fn sign_index(attr: FieldAttr, size: nat) -> int {
    if attr.sign_leading() {
        0
    } else {
        size - 1
    }
}

/// Whether a byte is an ASCII digit.
pub open spec fn is_digit_byte(byte: u8) -> bool {
    0x30 <= byte <= 0x39
}

/// Whether a byte is an ASCII digit with a negative overpunch.
pub open spec fn is_overpunched(byte: u8) -> bool {
    0x70 <= byte <= 0x79
}

/// Whether zoned `data` holds a negative number: a separate minus sign, or an overpunched digit.
pub open spec fn zoned_negative(data: Seq<u8>, attr: FieldAttr) -> bool {
    let sign = data[sign_index(attr, data.len())];
    attr.have_sign() && data.len() > 0 && if attr.sign_separate() {
        sign == 0x2D
    } else {
        is_overpunched(sign)
    }
}

/// The digit at byte `i` of zoned `data`: its low nibble, but zero for a sign byte that is neither
/// a digit nor an overpunched digit.
pub open spec fn zoned_digit(data: Seq<u8>, attr: FieldAttr, i: int) -> u8 {
    if attr.have_sign() && !attr.sign_separate() && i == sign_index(attr, data.len())
        && !is_digit_byte(data[i]) && !is_overpunched(data[i]) {
        0
    } else {
        data[i] % 16
    }
}

/// The digits of zoned `data`, without a separate sign byte.
pub open spec fn zoned_digits(data: Seq<u8>, attr: FieldAttr) -> Seq<u8> {
    let offset: int = if attr.sign_separate() && attr.sign_leading() {
        1
    } else {
        0
    };
    let size: int = if attr.sign_separate() && data.len() > 0 {
        data.len() - 1
    } else {
        data.len() as int
    };
    Seq::new(size as nat, |i: int| zoned_digit(data, attr, offset + i))
}

/// Reading zoned storage back gives the sign and the digits that were stored.
pub proof fn law_zoned_reads_back(negative: bool, digits: Seq<u8>, attr: FieldAttr)
    requires
        all_digits(digits),
        digits.len() > 0,
        attr.flags == COB_FLAG_HAVE_SIGN,
    ensures
        zoned_negative(zoned(negative, digits), attr) == negative,
        zoned_digits(zoned(negative, digits), attr) == digits,
{
    let data = zoned(negative, digits);
    assert forall|i: int| 0 <= i < digits.len() implies #[trigger] zoned_digit(data, attr, i)
        == digits[i] by {
        assert(digits[i] <= 9);
    }
    assert(zoned_digits(data, attr) =~= digits);
    assert(digits[digits.len() - 1] <= 9);
}

/// Every byte of packed storage holds two of its nibbles, and none is lost.
pub proof fn law_packed_keeps_nibbles(sign: u8, digits: Seq<u8>, i: int)
    requires
        all_digits(digits),
        sign <= 0xF,
        0 <= i < packed(sign, digits).len(),
    ensures
        packed(sign, digits)[i] / 16 == packed_nibbles(sign, digits)[2 * i],
        packed(sign, digits)[i] % 16 == packed_nibbles(sign, digits)[2 * i + 1],
{
}

/// The number that unsigned binary storage denotes, the most significant byte first.
pub open spec fn unsigned(bytes: Seq<u8>) -> nat
    decreases bytes.len(),
{
    if bytes.len() == 0 {
        0
    } else {
        unsigned(bytes.drop_last()) * 256 + bytes.last() as nat
    }
}

/// Reading big-endian storage back gives the number that was stored, where it fits.
pub proof fn law_big_endian_reads_back(value: nat, size: nat)
    requires
        value < pow(256, size),
    ensures
        unsigned(big_endian(value as int, size)) == value,
    decreases size,
{
    reveal(pow);
    if size > 0 {
        let less = (size - 1) as nat;
        let bytes = big_endian(value as int, size);
        assert(pow(256, 0) == 1);
        assert(bytes.last() == value % 256);
        law_big_endian_reads_back(value / 256, less);
        assert forall|i: int| 0 <= i < less implies #[trigger] bytes[i] == big_endian(
            (value / 256) as int,
            less,
        )[i] by {
            let k = (less - 1 - i) as nat;
            lemma_pow_positive(256, k);
            assert(pow(256, k + 1) == 256 * pow(256, k));
            lemma_div_denominator(value as int, 256, pow(256, k));
        }
        assert(bytes.drop_last() =~= big_endian((value / 256) as int, less));
    }
}

/// A further digit moves the number up by one place and adds to it.
pub proof fn law_number_is_positional(digits: Seq<u8>, digit: u8)
    ensures
        number(Seq::empty()) == 0,
        number(digits.push(digit)) == number(digits) * 10 + digit,
{
    assert(digits.push(digit).drop_last() =~= digits);
}

} // verus!
