//! Batches of money fields, their conversion, and the parity re-check.

use crate::cobol::{cob_move, from_display, moved};
use crate::field::{
    all_digits, is_digit_byte, is_overpunched, packed, packed_nibbles, sign_nibble, zoned, zoned_digits,
    zoned_negative, Decimal, FieldAttr, COB_FLAG_HAVE_SIGN, COB_TYPE_NUMERIC_DISPLAY,
    COB_TYPE_NUMERIC_PACKED,
};
use crate::lcg::{draw, law_stream_resumes, state_after, Lcg};
use vstd::prelude::*;

verus! {

/// The number of records that the parity re-check samples.
pub const PARITY_SAMPLE: usize = 1000;

/// The attributes of a zoned `S9(7)V99` field.
pub open spec fn money_display_attr() -> FieldAttr {
    FieldAttr {
        field_type: COB_TYPE_NUMERIC_DISPLAY,
        digits: 9,
        scale: 2,
        flags: COB_FLAG_HAVE_SIGN,
    }
}

/// The attributes of a packed `S9(7)V99` field.
pub open spec fn money_packed_attr() -> FieldAttr {
    FieldAttr {
        field_type: COB_TYPE_NUMERIC_PACKED,
        digits: 9,
        scale: 2,
        flags: COB_FLAG_HAVE_SIGN,
    }
}

/// `S9(7)V99`, a typical money field, as `DISPLAY` (nine bytes).
pub fn money_display() -> (attr: FieldAttr)
    ensures
        attr == money_display_attr(),
{
    FieldAttr {
        field_type: COB_TYPE_NUMERIC_DISPLAY,
        digits: 9,
        scale: 2,
        flags: COB_FLAG_HAVE_SIGN,
    }
}

/// `S9(7)V99`, a typical money field, as `COMP-3` (five bytes).
pub fn money_packed() -> (attr: FieldAttr)
    ensures
        attr == money_packed_attr(),
{
    FieldAttr {
        field_type: COB_TYPE_NUMERIC_PACKED,
        digits: 9,
        scale: 2,
        flags: COB_FLAG_HAVE_SIGN,
    }
}

/// The nine digits of the record drawn from the stream of `seed` at position `start`.
pub open spec fn drawn_digits(seed: u64, start: nat) -> Seq<u8> {
    Seq::new(9, |j: int| (draw(seed, (start + j) as nat) % 10) as u8)
}

/// Whether the record drawn at position `start` is negative: the tenth number is even.
pub open spec fn drawn_negative(seed: u64, start: nat) -> bool {
    draw(seed, start + 9) % 2 == 0
}

/// Record `index` of the batch of `seed`: each record takes ten numbers from the stream.
pub open spec fn display_record(seed: u64, index: nat) -> Seq<u8> {
    zoned(drawn_negative(seed, 10 * index), drawn_digits(seed, 10 * index))
}

/// Whether `record` is a zoned `S9(7)V99` field: nine digits, the last of them overpunched where
/// the amount is negative.
pub open spec fn is_money_field(record: Seq<u8>) -> bool {
    &&& record.len() == 9
    &&& forall|i: int| 0 <= i < 8 ==> is_digit_byte(#[trigger] record[i])
    &&& is_digit_byte(record[8]) || is_overpunched(record[8])
}

/// Every generated record is a money field, so a generated batch meets the premise under which
/// the parity re-check holds.
pub proof fn law_generated_records_are_money_fields(seed: u64, index: nat)
    ensures
        is_money_field(display_record(seed, index)),
{
}

/// The bytes of a generated record: eight digits and a last one, drawn one after the other, and the
/// last overpunched where the number drawn after them is even.
pub proof fn law_generated_record_bytes(seed: u64, index: nat, j: int)
    requires
        0 <= j < 9,
    ensures
        display_record(seed, index).len() == 9,
        display_record(seed, index)[j] % 0x40 == 0x30 + (state_after(
            seed,
            (10 * index + j + 1) as nat,
        ) / 0x1_0000) % 10,
        display_record(seed, index)[j] >= 0x70 <==> j == 8 && (state_after(seed, 10 * index + 10)
            / 0x1_0000) % 2 == 0,
{
}

/// A generator that stopped after some records goes on with the record that follows: batches made
/// in pieces are the batch made at once.
pub proof fn law_batch_resumes(seed: u64, done: nat, index: nat)
    ensures
        display_record(state_after(seed, 10 * done), index) == display_record(seed, done + index),
{
    let later = state_after(seed, 10 * done);
    assert forall|k: nat| #[trigger] state_after(later, k) == state_after(seed, 10 * done + k) by {
        law_stream_resumes(seed, 10 * done, k);
    }
    assert forall|j: int| 0 <= j < 10 implies draw(later, #[trigger] ((10 * index + j) as nat))
        == draw(seed, (10 * (done + index) + j) as nat) by {
        assert(state_after(later, (10 * index + j + 1) as nat) == state_after(
            seed,
            10 * done + (10 * index + j + 1) as nat,
        ));
    }
    assert(drawn_negative(later, 10 * index) == drawn_negative(seed, 10 * (done + index))) by {
        assert(draw(later, (10 * index + 9) as nat) == draw(
            seed,
            (10 * (done + index) + 9) as nat,
        ));
    }
    assert(drawn_digits(later, 10 * index) =~= drawn_digits(seed, 10 * (done + index)));
}

/// Generates `n` zoned `S9(7)V99` records of nine bytes each, with mixed signs.
pub fn gen_display_batch(n: usize, seed: u64) -> (batch: Vec<[u8; 9]>)
    ensures
        batch@.len() == n,
        forall|i: int| 0 <= i < n ==> (#[trigger] batch@[i])@ == display_record(seed, i as nat),
        forall|i: int| 0 <= i < n ==> is_money_field((#[trigger] batch@[i])@),
        forall|i: int, j: int|
            0 <= i < n && 0 <= j < 8 ==> #[trigger] batch@[i]@[j] == 0x30 + (state_after(
                seed,
                (10 * i + j + 1) as nat,
            ) / 0x1_0000) % 10,
        forall|i: int|
            0 <= i < n ==> (#[trigger] batch@[i])@[8] == 0x30 + (state_after(
                seed,
                (10 * i + 9) as nat,
            ) / 0x1_0000) % 10 + if (state_after(seed, (10 * i + 10) as nat) / 0x1_0000) % 2 == 0 {
                0x40int
            } else {
                0
            },
{
    let mut rng = Lcg(seed);
    let mut out: Vec<[u8; 9]> = Vec::with_capacity(n);
    let mut i: usize = 0;
    while i < n
        invariant
            i <= n,
            out@.len() == i,
            rng.0 == state_after(seed, 10 * i as nat),
            forall|k: int| 0 <= k < i ==> (#[trigger] out@[k])@ == display_record(seed, k as nat),
        decreases n - i,
    {
        let ghost start: nat = 10 * i as nat;
        let mut rec: [u8; 9] = [0u8; 9];
        let mut j: usize = 0;
        while j < 9
            invariant
                j <= 9,
                rng.0 == state_after(seed, start + j as nat),
                forall|k: int|
                    0 <= k < j ==> #[trigger] rec@[k] == 0x30 + drawn_digits(seed, start)[k],
            decreases 9 - j,
        {
            let digit: u64 = rng.step() % 10;
            assert(state_after(seed, (start + j + 1) as nat) == rng.0);
            rec[j] = 0x30u8 + digit as u8;
            j += 1;
        }
        let last: u64 = rng.step();
        assert(state_after(seed, (start + 10) as nat) == rng.0);
        assert(last & 1 == last % 2) by (bit_vector);
        if last & 1 == 0 {
            let byte: u8 = rec[8];
            assert(byte == 0x30 + drawn_digits(seed, start)[8]);
            assert(0x30 <= byte <= 0x39 ==> byte | 0x40 == byte + 0x40) by (bit_vector);
            rec[8] = byte | 0x40;
        }
        assert(rec@ =~= display_record(seed, i as nat));
        out.push(rec);
        i += 1;
    }
    out
}

/// What a buffer of `dst_attr` holds after the records were converted into it one after the
/// other. A record whose conversion fails leaves the buffer as it was.
pub open spec fn converted(
    batch: Seq<[u8; 9]>,
    src_attr: FieldAttr,
    buffer: Seq<u8>,
    dst_attr: FieldAttr,
) -> Seq<u8>
    decreases batch.len(),
{
    if batch.len() == 0 {
        buffer
    } else {
        moved(
            batch.last()@,
            src_attr,
            converted(batch.drop_last(), src_attr, buffer, dst_attr),
            dst_attr,
        )
    }
}

/// Converting one record leaves what one move leaves.
pub proof fn law_one_conversion_is_one_move(
    record: [u8; 9],
    src_attr: FieldAttr,
    buffer: Seq<u8>,
    dst_attr: FieldAttr,
)
    ensures
        converted(seq![record], src_attr, buffer, dst_attr) == moved(
            record@,
            src_attr,
            buffer,
            dst_attr,
        ),
        converted(Seq::empty(), src_attr, buffer, dst_attr) == buffer,
{
    assert(seq![record].drop_last() =~= Seq::<[u8; 9]>::empty());
    reveal_with_fuel(converted, 2);
}

/// Converting a batch in two pieces is converting it at once: no record is left out.
pub proof fn law_conversions_join(
    first: Seq<[u8; 9]>,
    second: Seq<[u8; 9]>,
    src_attr: FieldAttr,
    buffer: Seq<u8>,
    dst_attr: FieldAttr,
)
    ensures
        converted(first + second, src_attr, buffer, dst_attr) == converted(
            second,
            src_attr,
            converted(first, src_attr, buffer, dst_attr),
            dst_attr,
        ),
    decreases second.len(),
{
    if second.len() == 0 {
        assert(first + second =~= first);
    } else {
        law_conversions_join(first, second.drop_last(), src_attr, buffer, dst_attr);
        assert((first + second).drop_last() =~= first + second.drop_last());
    }
}

/// The packed storage of a money field.
pub open spec fn packed_money(record: Seq<u8>) -> Seq<u8> {
    packed(
        sign_nibble(true, zoned_negative(record, money_display_attr())),
        zoned_digits(record, money_display_attr()),
    )
}

/// Converts the records of a batch one after the other into `buffer`, and returns the number of
/// conversions performed. A record whose conversion fails still counts. A money field is packed,
/// digits and sign.
pub fn convert_into(
    batch: &[[u8; 9]],
    dst_attr: &FieldAttr,
    src_attr: &FieldAttr,
    buffer: &mut Vec<u8>,
) -> (count: usize)
    ensures
        count == batch@.len(),
        final(buffer)@ == converted(batch@, *src_attr, old(buffer)@, *dst_attr),
        batch@.len() > 0 && *src_attr == money_display_attr() && *dst_attr == money_packed_attr()
            && old(buffer)@.len() == 5 && is_money_field(batch@.last()@) ==> final(buffer)@
            == packed_money(batch@.last()@),
        batch@.len() > 0 && *src_attr == money_display_attr() && *dst_attr == money_packed_attr()
            && old(buffer)@.len() == 5 && is_money_field(batch@.last()@) ==> {
            let record = batch@.last()@;
            &&& final(buffer)@.len() == 5
            &&& forall|k: int|
                0 <= k < 4 ==> #[trigger] final(buffer)@[k] == (record[2 * k] - 0x30) * 16 + (
                record[2 * k + 1] - 0x30)
            &&& final(buffer)@[4] == if record[8] >= 0x70 {
                (record[8] - 0x70) * 16 + 0xD
            } else {
                (record[8] - 0x30) * 16 + 0xC
            }
        },
{
    let mut count: usize = 0;
    assert(batch@.take(0) =~= Seq::<[u8; 9]>::empty());
    while count < batch.len()
        invariant
            count <= batch@.len(),
            buffer@ == converted(
                batch@.take(count as int),
                *src_attr,
                old(buffer)@,
                *dst_attr,
            ),
            buffer@.len() == old(buffer)@.len(),
            count > 0 && *src_attr == money_display_attr() && *dst_attr == money_packed_attr()
                && old(buffer)@.len() == 5 && is_money_field(batch@[count - 1]@) ==> buffer@
                == packed_money(batch@[count - 1]@),
        decreases batch@.len() - count,
    {
        let src: &[u8; 9] = &batch[count];
        assert(batch@.take(count + 1).drop_last() =~= batch@.take(count as int));
        proof {
            if is_money_field(src@) {
                lemma_money_field_is_zoned(src@);
            }
        }
        let _ = cob_move(src.as_slice(), src_attr, buffer.as_mut_slice(), dst_attr);
        count += 1;
    }
    assert(batch@.take(count as int) =~= batch@);
    proof {
        if batch@.len() > 0 && is_money_field(batch@.last()@) {
            lemma_packed_money_bytes(batch@.last()@);
        }
    }
    count
}

/// The bytes of a packed money field, from those of the zoned one.
proof fn lemma_packed_money_bytes(record: Seq<u8>)
    requires
        is_money_field(record),
    ensures
        packed_money(record).len() == 5,
        forall|k: int|
            0 <= k < 4 ==> #[trigger] packed_money(record)[k] == (record[2 * k] - 0x30) * 16 + (
            record[2 * k + 1] - 0x30),
        packed_money(record)[4] == if record[8] >= 0x70 {
            (record[8] - 0x70) * 16 + 0xD
        } else {
            (record[8] - 0x30) * 16 + 0xC
        },
{
    lemma_money_field_is_zoned(record);
    let digits = zoned_digits(record, money_display_attr());
    let sign = sign_nibble(true, zoned_negative(record, money_display_attr()));
    let nibbles = packed_nibbles(sign, digits);
    assert forall|k: int| 0 <= k < 4 implies #[trigger] packed_money(record)[k] == (record[2 * k]
        - 0x30) * 16 + (record[2 * k + 1] - 0x30) by {
        assert(is_digit_byte(record[2 * k]) && is_digit_byte(record[2 * k + 1]));
        assert(nibbles[2 * k] == digits[2 * k] && nibbles[2 * k + 1] == digits[2 * k + 1]);
    }
    assert(nibbles[8] == digits[8] && nibbles[9] == sign);
}

/// Converts a whole batch from zoned to packed storage, the dominant step of ingestion, and
/// returns the number of conversions performed. The converted bytes are not kept: what they are is
/// stated of `convert_into`.
pub fn convert_display_to_packed(
    batch: &[[u8; 9]],
    dst_attr: &FieldAttr,
    src_attr: &FieldAttr,
) -> (count: usize)
    ensures
        count == batch@.len(),
{
    let mut dst: Vec<u8> = vec![0u8; 5];
    convert_into(batch, dst_attr, src_attr, &mut dst)
}

/// Whether two decoded numbers agree in sign and in every digit.
pub fn same_value(a: &Decimal, b: &Decimal) -> (same: bool)
    ensures
        same == (a.negative == b.negative && a.digits@ == b.digits@),
{
    if a.negative != b.negative || a.digits.len() != b.digits.len() {
        return false;
    }
    let mut i: usize = 0;
    while i < a.digits.len()
        invariant
            a.digits@.len() == b.digits@.len(),
            i <= a.digits@.len(),
            forall|k: int| 0 <= k < i ==> a.digits@[k] == b.digits@[k],
        decreases a.digits@.len() - i,
    {
        if a.digits[i] != b.digits[i] {
            return false;
        }
        i += 1;
    }
    assert(a.digits@ =~= b.digits@);
    true
}

/// The bytes of a record packed and unpacked again.
pub open spec fn round_trip(record: Seq<u8>) -> Seq<u8> {
    moved(
        moved(record, money_display_attr(), Seq::new(5, |i: int| 0u8), money_packed_attr()),
        money_packed_attr(),
        Seq::new(9, |i: int| 0u8),
        money_display_attr(),
    )
}

/// Whether a record survives the round trip: the number decoded from what comes back is the
/// number decoded from the record.
pub open spec fn record_parity(record: Seq<u8>) -> bool {
    let back = round_trip(record);
    &&& zoned_negative(record, money_display_attr()) == zoned_negative(back, money_display_attr())
    &&& zoned_digits(record, money_display_attr()) == zoned_digits(back, money_display_attr())
}

/// The digits of a money field, and whether it is negative, determine its bytes.
pub proof fn lemma_money_field_is_zoned(record: Seq<u8>)
    requires
        is_money_field(record),
    ensures
        record == zoned(
            zoned_negative(record, money_display_attr()),
            zoned_digits(record, money_display_attr()),
        ),
        all_digits(zoned_digits(record, money_display_attr())),
        zoned_digits(record, money_display_attr()).len() == 9,
{
    let attr = money_display_attr();
    assert forall|i: int| 0 <= i < 9 implies (is_digit_byte(record[i]) || i == 8 && is_overpunched(
        record[i],
    )) by {}
    assert(record =~= zoned(zoned_negative(record, attr), zoned_digits(record, attr)));
}

/// Whether one record survives the round trip from zoned to packed storage and back. Every money
/// field does.
pub fn record_keeps_parity(record: &[u8; 9]) -> (holds: bool)
    ensures
        holds == record_parity(record@),
        is_money_field(record@) ==> holds && round_trip(record@) == record@,
        holds == ({
            let zoned_attr = (FieldAttr {
                field_type: COB_TYPE_NUMERIC_DISPLAY,
                digits: 9,
                scale: 2,
                flags: COB_FLAG_HAVE_SIGN,
            });
            let packed_attr = (FieldAttr {
                field_type: COB_TYPE_NUMERIC_PACKED,
                digits: 9,
                scale: 2,
                flags: COB_FLAG_HAVE_SIGN,
            });
            let there = moved(record@, zoned_attr, seq![0u8, 0, 0, 0, 0], packed_attr);
            let back = moved(
                there,
                packed_attr,
                seq![0u8, 0, 0, 0, 0, 0, 0, 0, 0],
                zoned_attr,
            );
            &&& zoned_negative(record@, zoned_attr) == zoned_negative(back, zoned_attr)
            &&& zoned_digits(record@, zoned_attr) == zoned_digits(back, zoned_attr)
        }),
{
    let sd: FieldAttr = money_display();
    let sp: FieldAttr = money_packed();
    proof {
        if is_money_field(record@) {
            lemma_money_field_is_zoned(record@);
        }
    }
    assert(seq![0u8, 0, 0, 0, 0] =~= Seq::new(5, |i: int| 0u8));
    assert(seq![0u8, 0, 0, 0, 0, 0, 0, 0, 0] =~= Seq::new(9, |i: int| 0u8));
    let src: &[u8] = record.as_slice();
    let mut pack: Vec<u8> = vec![0u8; 5];
    assert(pack@ =~= Seq::new(5, |i: int| 0u8));
    if cob_move(src, &sd, pack.as_mut_slice(), &sp).is_err() {
        return false;
    }
    let mut back: Vec<u8> = vec![0u8; 9];
    assert(back@ =~= Seq::new(9, |i: int| 0u8));
    if cob_move(pack.as_slice(), &sp, back.as_mut_slice(), &sd).is_err() {
        return false;
    }
    let a: Decimal = from_display(src, &sd);
    let b: Decimal = from_display(back.as_slice(), &sd);
    same_value(&a, &b)
}

/// Re-checks parity on a sample, the first thousand records: a number packed and unpacked again
/// must equal the number decoded directly, and a money field comes back byte for byte. Never report throughput without this returning `true`.
pub fn parity_holds(batch: &[[u8; 9]]) -> (holds: bool)
    ensures
        holds == forall|i: int|
            0 <= i < batch@.len() && i < PARITY_SAMPLE ==> record_parity((#[trigger] batch@[i])@),
        (forall|i: int|
            0 <= i < batch@.len() && i < PARITY_SAMPLE ==> is_money_field((#[trigger] batch@[i])@))
            ==> holds,
        holds ==> forall|i: int|
            0 <= i < batch@.len() && i < PARITY_SAMPLE && is_money_field((#[trigger] batch@[i])@)
                ==> round_trip(batch@[i]@) == batch@[i]@,
{
    let mut i: usize = 0;
    while i < batch.len() && i < PARITY_SAMPLE
        invariant
            i <= batch@.len(),
            i <= PARITY_SAMPLE,
            forall|k: int| 0 <= k < i ==> record_parity((#[trigger] batch@[k])@),
            forall|k: int|
                0 <= k < i && is_money_field((#[trigger] batch@[k])@) ==> round_trip(batch@[k]@)
                    == batch@[k]@,
        decreases batch@.len() - i,
    {
        let record: &[u8; 9] = &batch[i];
        assert(record@ == batch@[i as int]@);
        if !record_keeps_parity(record) {
            return false;
        }
        i += 1;
    }
    true
}

} // verus!
