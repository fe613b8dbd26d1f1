use kobold_bench::batch::{convert_into, record_keeps_parity, same_value, PARITY_SAMPLE};
use kobold_bench::field::{Decimal, FieldAttr, COB_FLAG_HAVE_SIGN, COB_TYPE_ALPHANUMERIC};
use kobold_bench::field::{COB_TYPE_NUMERIC_DISPLAY, COB_TYPE_NUMERIC_PACKED};
use kobold_bench::{
    convert_display_to_packed, gen_display_batch, money_display, money_packed, parity_holds,
};

#[test]
fn parity_after_convert() {
    let batch = gen_display_batch(10_000, 1);
    let (sd, sp) = (money_display(), money_packed());
    assert_eq!(convert_display_to_packed(&batch, &sp, &sd), 10_000);
    assert!(parity_holds(&batch));
}

#[test]
fn money_fields_are_s9_7_v99() {
    let sd = money_display();
    assert_eq!(
        (sd.field_type, sd.digits, sd.scale, sd.flags),
        (COB_TYPE_NUMERIC_DISPLAY, 9, 2, COB_FLAG_HAVE_SIGN)
    );
    let sp = money_packed();
    assert_eq!(
        (sp.field_type, sp.digits, sp.scale, sp.flags),
        (COB_TYPE_NUMERIC_PACKED, 9, 2, COB_FLAG_HAVE_SIGN)
    );
}

#[test]
fn generated_batch_has_exact_records() {
    let batch = gen_display_batch(3, 7);
    assert_eq!(batch.len(), 3);
    assert_eq!(&batch[0], b"144127255");
    assert_eq!(&batch[1], b"40238049s");
    assert_eq!(&batch[2], b"11571626x");
    assert!(gen_display_batch(0, 7).is_empty());
}

#[test]
fn smaller_batch_is_front_of_larger() {
    let small = gen_display_batch(5, 99);
    let large = gen_display_batch(50, 99);
    assert_eq!(&large[..5], &small[..]);
}

#[test]
fn conversion_packs_digits_and_sign() {
    let (sd, sp) = (money_display(), money_packed());
    let mut buffer = vec![0u8; 5];
    assert_eq!(convert_into(&[*b"123456789"], &sp, &sd, &mut buffer), 1);
    assert_eq!(buffer, vec![0x12, 0x34, 0x56, 0x78, 0x9C]);
    assert_eq!(
        convert_into(&[*b"123456789", *b"00000000p", *b"00000012s"], &sp, &sd, &mut buffer),
        3
    );
    assert_eq!(buffer, vec![0x00, 0x00, 0x00, 0x12, 0x3D]);
}

#[test]
fn failed_conversion_counts_and_leaves_buffer() {
    let sd = money_display();
    let text = FieldAttr { field_type: COB_TYPE_ALPHANUMERIC, digits: 0, scale: 0, flags: 0 };
    let mut buffer = vec![7u8; 5];
    assert_eq!(convert_into(&[*b"123456789"], &text, &sd, &mut buffer), 1);
    assert_eq!(buffer, vec![7u8; 5]);
    assert_eq!(convert_display_to_packed(&[*b"123456789"; 4], &text, &sd), 4);
}

#[test]
fn every_last_byte_of_a_money_field_keeps_parity() {
    for low in 0..10u8 {
        assert!(record_keeps_parity(&[b'0', b'9', b'8', b'7', b'6', b'5', b'4', b'3', 0x30 + low]));
        assert!(record_keeps_parity(&[b'0', b'9', b'8', b'7', b'6', b'5', b'4', b'3', 0x70 + low]));
    }
    assert!(record_keeps_parity(b"000000000"));
    assert!(record_keeps_parity(b"00000000p"));
    assert!(record_keeps_parity(b"999999999"));
}

#[test]
fn empty_batch_has_parity() {
    assert!(parity_holds(&[]));
}

#[test]
fn parity_samples_the_first_thousand() {
    let mut batch = gen_display_batch(PARITY_SAMPLE + 1, 3);
    assert!(parity_holds(&batch));
    batch[PARITY_SAMPLE] = *b"12345678A";
    assert!(parity_holds(&batch));
    batch[PARITY_SAMPLE - 1] = *b"12345678A";
    assert!(!parity_holds(&batch));
}

#[test]
fn values_differ_in_sign_or_digit() {
    let of = |negative: bool, digits: &[u8]| Decimal { negative, digits: digits.to_vec(), scale: 2 };
    assert!(same_value(&of(true, &[1, 2]), &of(true, &[1, 2])));
    assert!(!same_value(&of(true, &[1, 2]), &of(false, &[1, 2])));
    assert!(!same_value(&of(true, &[1, 2]), &of(true, &[1, 3])));
    assert!(!same_value(&of(true, &[1, 2]), &of(true, &[1])));
}

#[test]
fn foreign_sign_byte_loses_parity() {
    assert!(!record_keeps_parity(b"12345678A"));
    assert!(!parity_holds(&[*b"123456789", *b"12345678A"]));
    assert!(record_keeps_parity(b"         "));
}
