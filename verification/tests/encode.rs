use kobold_bench::corpus::{encode_amount, encode_blank_sequence, encode_branch, encode_risk};
use kobold_bench::encode::{enc, encode_field, try_enc};
use kobold_bench::field::{
    FieldAttr, PicField, Usage, COB_FLAG_BINARY_SWAP, COB_FLAG_HAVE_SIGN, COB_TYPE_ALPHANUMERIC,
    COB_TYPE_NUMERIC_BINARY, COB_TYPE_NUMERIC_DISPLAY, COB_TYPE_NUMERIC_PACKED,
};

fn field(field_type: u16, digits: u16, scale: i16, flags: u16, size: usize) -> PicField {
    PicField { attr: FieldAttr { field_type, digits, scale, flags }, size }
}

#[test]
fn money_encodes_as_packed() {
    assert_eq!(
        enc("S9(7)V99", Usage::Comp3, "1234567.89"),
        vec![0x12, 0x34, 0x56, 0x78, 0x9C]
    );
    assert_eq!(enc("S9(7)V99", Usage::Comp3, "-1.5"), vec![0x00, 0x00, 0x00, 0x15, 0x0D]);
    assert_eq!(enc("S9(7)V99", Usage::Comp3, "+12"), vec![0x00, 0x00, 0x01, 0x20, 0x0C]);
    assert_eq!(enc("S9(7)V99", Usage::Comp3, ""), vec![0x00, 0x00, 0x00, 0x00, 0x0C]);
    assert_eq!(enc("S9(7)V99", Usage::Comp3, "--3.00"), vec![0x00, 0x00, 0x00, 0x30, 0x0D]);
}

#[test]
fn surplus_high_digits_are_dropped() {
    assert_eq!(
        enc("S9(7)V99", Usage::Comp3, "991234567.89"),
        vec![0x12, 0x34, 0x56, 0x78, 0x9C]
    );
    assert_eq!(enc("9(4)", Usage::Comp, "70001"), vec![0x00, 0x01]);
}

#[test]
fn binary_fields_are_big_endian() {
    assert_eq!(enc("9(4)", Usage::Comp, "9998"), vec![0x27, 0x0E]);
    assert_eq!(enc("9(6)", Usage::CompX, "999998"), vec![0x0F, 0x42, 0x3E]);
    assert_eq!(encode_branch(1000), vec![0x03, 0xE8]);
    assert_eq!(encode_risk(258), vec![0x00, 0x01, 0x02]);
}

#[test]
fn display_fields_hold_digit_characters() {
    assert_eq!(enc("9(8)", Usage::Display, "42"), b"00000042".to_vec());
    assert_eq!(encode_blank_sequence(), b"00000000".to_vec());
}

#[test]
fn amounts_encode_whole_and_cents() {
    assert_eq!(encode_amount(0, 0), vec![0x00, 0x00, 0x00, 0x00, 0x0C]);
    assert_eq!(encode_amount(8_660_186, 54), vec![0x86, 0x60, 0x18, 0x65, 0x4C]);
    assert_eq!(encode_amount(9_999_999, 99), vec![0x99, 0x99, 0x99, 0x99, 0x9C]);
}

#[test]
fn rejected_pictures_and_values_give_nothing() {
    assert_eq!(try_enc("Q", Usage::Display, "1"), None);
    assert_eq!(try_enc("X(4)", Usage::Display, "1"), None);
    assert_eq!(try_enc("9(4)", Usage::Display, "1.2.3"), None);
    assert_eq!(try_enc("9(4)", Usage::Display, "1 2"), None);
    assert_eq!(try_enc("9(4)", Usage::Display, "12"), Some(b"0012".to_vec()));
}

#[test]
fn known_field_encodes_without_a_picture() {
    let packed = field(COB_TYPE_NUMERIC_PACKED, 3, 1, COB_FLAG_HAVE_SIGN, 2);
    assert_eq!(encode_field(&packed, "-4.2"), Some(vec![0x04, 0x2D]));
    let zoned = field(COB_TYPE_NUMERIC_DISPLAY, 3, 0, COB_FLAG_HAVE_SIGN, 3);
    assert_eq!(encode_field(&zoned, "-42"), Some(b"04r".to_vec()));
    let unsigned = field(COB_TYPE_NUMERIC_DISPLAY, 3, 0, 0, 3);
    assert_eq!(encode_field(&unsigned, "-42"), Some(b"042".to_vec()));
    let text = field(COB_TYPE_ALPHANUMERIC, 0, 0, 0, 3);
    assert_eq!(encode_field(&text, "1"), None);
    let empty = field(COB_TYPE_ALPHANUMERIC, 0, 0, 0, 0);
    assert_eq!(encode_field(&empty, "1"), Some(vec![]));
}

#[test]
fn every_width_has_its_storage_form() {
    let row = "90817263540918273645546372819009182736";
    for width in 1..=38usize {
        for (negative, signed) in [(false, false), (false, true), (true, false), (true, true)] {
            let digits = &row[..width];
            let value = if negative { format!("-{digits}") } else { digits.to_string() };
            let flags = if signed { COB_FLAG_HAVE_SIGN } else { 0 };

            let zoned = field(COB_TYPE_NUMERIC_DISPLAY, width as u16, 0, flags, width);
            let mut expected = digits.as_bytes().to_vec();
            if negative && signed {
                expected[width - 1] += 0x40;
            }
            assert_eq!(encode_field(&zoned, &value), Some(expected));

            let packed = field(COB_TYPE_NUMERIC_PACKED, width as u16, 0, flags, width / 2 + 1);
            let mut nibbles: Vec<u8> = digits.bytes().map(|b| b - b'0').collect();
            if width % 2 == 0 {
                nibbles.insert(0, 0);
            }
            nibbles.push(match (signed, negative) {
                (false, _) => 0xF,
                (true, true) => 0xD,
                (true, false) => 0xC,
            });
            let expected = nibbles.chunks(2).map(|n| n[0] * 16 + n[1]).collect();
            assert_eq!(encode_field(&packed, &value), Some(expected));

            let number: i128 = digits.parse().unwrap();
            let stored = if negative && signed { -number } else { number };
            for size in [1usize, 2, 3, 8, 16] {
                let flags = flags | COB_FLAG_BINARY_SWAP;
                let binary = field(COB_TYPE_NUMERIC_BINARY, width as u16, 0, flags, size);
                let expected = stored.to_be_bytes()[16 - size..].to_vec();
                assert_eq!(encode_field(&binary, &value), Some(expected));
            }
        }
    }
}

#[test]
fn fraction_is_filled_up_to_the_scale() {
    let packed = field(COB_TYPE_NUMERIC_PACKED, 7, 3, COB_FLAG_HAVE_SIGN, 4);
    assert_eq!(encode_field(&packed, "12"), Some(vec![0x00, 0x12, 0x00, 0x0C]));
    assert_eq!(encode_field(&packed, "12.3"), Some(vec![0x00, 0x12, 0x30, 0x0C]));
    assert_eq!(encode_field(&packed, "12.345"), Some(vec![0x00, 0x12, 0x34, 0x5C]));
    assert_eq!(encode_field(&packed, ".5"), Some(vec![0x00, 0x00, 0x50, 0x0C]));
}

#[test]
fn scaling_positions_are_resolved() {
    assert_eq!(try_enc("99999P(2)", Usage::Display, "12345"), Some(b"12345".to_vec()));
    assert_eq!(try_enc("9PV", Usage::Display, "1"), None);
    let wide = enc("9(40000)P", Usage::Display, "120");
    assert_eq!(wide.len(), 40_000);
    assert_eq!(&wide[39_996..], b"0120");
}

#[test]
fn plus_and_leading_zeros_change_nothing() {
    for value in ["0", "12", "12.5", ".75", "7.", "1234567.89", ""] {
        let plain = enc("S9(7)V99", Usage::Comp3, value);
        assert_eq!(enc("S9(7)V99", Usage::Comp3, &format!("+{value}")), plain);
        assert_eq!(enc("S9(7)V99", Usage::Comp3, &format!("0{value}")), plain);
    }
}

#[test]
fn missing_fraction_digits_are_zeros() {
    let plain = enc("S9(7)V99", Usage::Comp3, "42");
    assert_eq!(enc("S9(7)V99", Usage::Comp3, "42."), plain);
    assert_eq!(enc("S9(7)V99", Usage::Comp3, "42.0"), plain);
    assert_eq!(enc("S9(7)V99", Usage::Comp3, "42.00"), plain);
    assert_eq!(
        enc("S9(7)V99", Usage::Comp3, "42.5"),
        enc("S9(7)V99", Usage::Comp3, "42.50")
    );
}

#[test]
fn signed_literals_are_encodable() {
    for value in ["-0", "+-+7.25", "--", "-.5"] {
        assert!(try_enc("S9(7)V99", Usage::Comp3, value).is_some());
    }
}
