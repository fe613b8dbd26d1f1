//! The end-to-end benchmark: its corpus, its reference hash and its stage profile.

use crate::amount::{
    digit_bytes, digits_of, lemma_digit_chars_bytes, lemma_digits_of, lemma_padded_is_digits,
    lemma_six_digits,
};
use crate::corpus::{
    amount_field, encode_amount, encode_branch, lemma_amount_bytes, lemma_powers_of_ten,
    lemma_two_bytes,
};
use crate::field::big_endian;
use crate::lcg::{draw_below, state_after, Lcg};
use crate::recon::{
    hash_in, is_digest_text, output_hash, reconcile_encoded, reconcile_encoded_parallel,
    reconciled, BENCH_COPYBOOK, KERNEL_VERSION,
};
use crate::text::{decimal_padded, decimal_text, field_text};
use vstd::prelude::*;
use vstd::utf8::encode_utf8;

verus! {

/// The length of a record: an identifier of six bytes, a status byte, five bytes of `COMP-3` and
/// two of `COMP`.
pub const RL: usize = 14;

/// The number of records of the reference corpus, over which the parity baseline is taken.
pub const REF_N: usize = 1000;

/// The seed of the corpus.
pub const SEED: u64 = 0xB2_0000_0001;

/// The name of the corpus in its audits.
pub const FIXTURE: &'static str = "bench2";

/// The identifier of record `index`: the six low digits of a count from a hundred thousand.
pub open spec fn id_field(index: nat) -> Seq<u8> {
    encode_utf8(decimal_padded((100_000 + index) % 1_000_000, 6))
}

/// The status of record `index`: every third account is active, the others are closed.
pub open spec fn status_byte(index: nat) -> u8 {
    if index % 3 == 0 {
        0x41
    } else {
        0x43
    }
}

/// Record `index` of the corpus. Each record takes three numbers from the stream: the units and
/// the hundredths of the balance, and the branch.
pub open spec fn bench_record(index: nat) -> Seq<u8> {
    id_field(index) + seq![status_byte(index)] + amount_field(
        draw_below(SEED, 3 * index, 9_999_999) as nat,
        draw_below(SEED, 3 * index + 1, 100) as nat,
    ) + big_endian(1000 + draw_below(SEED, 3 * index + 2, 8999) as int, 2)
}

/// The first `count` records, one after the other.
pub open spec fn bench_corpus(count: nat) -> Seq<u8>
    decreases count,
{
    if count == 0 {
        Seq::empty()
    } else {
        bench_corpus((count - 1) as nat) + bench_record((count - 1) as nat)
    }
}

/// Generates the first `n` records of the corpus.
pub fn gen(n: usize) -> (data: Vec<u8>)
    requires
        n * RL <= isize::MAX,
    ensures
        data@ == bench_corpus(n as nat),
        data@.len() == n * RL,
        forall|i: int|
            0 <= i < n ==> data@.subrange(i * RL, i * RL + RL) == #[trigger] bench_record(i as nat),
{
    let mut rng = Lcg(SEED);
    let mut out: Vec<u8> = Vec::with_capacity(n * RL);
    let mut i: usize = 0;
    while i < n
        invariant
            i <= n,
            n * RL <= isize::MAX,
            rng.0 == state_after(SEED, 3 * i as nat),
            out@ == bench_corpus(i as nat),
        decreases n - i,
    {
        let ghost start = 3 * i as nat;
        let id: String = decimal_text((100_000 + i as u64) % 1_000_000, 6);
        out.extend_from_slice(id.as_str().as_bytes());
        out.push(if i % 3 == 0 { 0x41 } else { 0x43 });
        let whole: u64 = rng.next(9_999_999);
        assert(rng.0 == state_after(SEED, start + 1));
        let cents: u64 = rng.next(100);
        assert(rng.0 == state_after(SEED, start + 2));
        let balance: Vec<u8> = encode_amount(whole, cents);
        out.extend_from_slice(balance.as_slice());
        let branch: u64 = 1000 + rng.next(8999);
        assert(rng.0 == state_after(SEED, start + 3));
        let code: Vec<u8> = encode_branch(branch);
        out.extend_from_slice(code.as_slice());
        i += 1;
        assert(out@ =~= bench_corpus(i as nat));
    }
    proof {
        law_corpus_length(n as nat);
        assert forall|i: int| 0 <= i < n implies out@.subrange(i * RL, i * RL + RL)
            == #[trigger] bench_record(i as nat) by {
            law_record_offset(i as nat, n as nat);
        }
    }
    out
}

/// Every record has fourteen bytes.
pub proof fn law_record_length(index: nat)
    ensures
        bench_record(index).len() == RL,
{
    lemma_powers_of_ten();
    let id = (100_000 + index) % 1_000_000;
    lemma_padded_is_digits(id, 6);
    lemma_digits_of(id, 6);
    lemma_digit_chars_bytes(digits_of(id, 6));
    let whole = draw_below(SEED, 3 * index, 9_999_999);
    let cents = draw_below(SEED, 3 * index + 1, 100);
    lemma_digits_of((whole * 100 + cents) as nat, 9);
}

/// A corpus is a whole number of fixed-length records.
pub proof fn law_corpus_length(count: nat)
    ensures
        bench_corpus(count).len() == count * RL,
    decreases count,
{
    if count > 0 {
        law_corpus_length((count - 1) as nat);
        law_record_length((count - 1) as nat);
    }
}

/// A smaller corpus is the front of a larger one, so that the reference corpus does not depend on
/// how many records are measured.
pub proof fn law_corpus_is_prefix(fewer: nat, count: nat)
    requires
        fewer <= count,
    ensures
        bench_corpus(fewer).len() <= bench_corpus(count).len(),
        bench_corpus(count).take(bench_corpus(fewer).len() as int) == bench_corpus(fewer),
    decreases count,
{
    if fewer < count {
        law_corpus_is_prefix(fewer, (count - 1) as nat);
        let less = bench_corpus((count - 1) as nat);
        let len = bench_corpus(fewer).len() as int;
        assert(bench_corpus(count).take(len) =~= less.take(len));
    } else {
        assert(bench_corpus(count).take(bench_corpus(count).len() as int) =~= bench_corpus(count));
    }
}

/// Every record stands at its offset.
pub proof fn law_record_offset(index: nat, count: nat)
    requires
        index < count,
    ensures
        bench_corpus(count).subrange(index * RL, index * RL + RL) == bench_record(index),
{
    law_corpus_is_prefix(index + 1, count);
    law_corpus_length(index);
    law_corpus_length(index + 1);
    law_record_length(index);
    let front = bench_corpus(index + 1);
    assert(front =~= bench_corpus(index) + bench_record(index));
    assert(bench_corpus(count).subrange(index * RL, index * RL + RL) =~= front.subrange(
        index * RL,
        index * RL + RL,
    )) by {
        let whole = bench_corpus(count);
        assert forall|k: int| index * RL <= k < index * RL + RL implies #[trigger] whole[k]
            == front[k] by {
            assert(whole.take(front.len() as int)[k] == whole[k]);
        }
    }
    assert(front.subrange(index * RL, index * RL + RL) =~= bench_record(index));
}

/// The bytes of a record: six digits that count from a hundred thousand, the status, the digits of
/// the balance in hundredths and their sign nibble, and the branch. Balance and branch are the
/// numbers at three successive places of the one stream of the seed.
pub proof fn law_record_holds_its_draws(index: nat)
    ensures
        ({
            let r = bench_record(index);
            let whole = (state_after(SEED, 3 * index + 1) / 0x1_0000) % 9_999_999;
            let cents = (state_after(SEED, 3 * index + 2) / 0x1_0000) % 100;
            let branch = (state_after(SEED, 3 * index + 3) / 0x1_0000) % 8999;
            &&& r.len() == 14
            &&& forall|j: int| 0 <= j < 6 ==> 0x30 <= #[trigger] r[j] <= 0x39
            &&& (r[0] - 0x30) * 100_000 + (r[1] - 0x30) * 10_000 + (r[2] - 0x30) * 1000 + (r[3]
                - 0x30) * 100 + (r[4] - 0x30) * 10 + (r[5] - 0x30) == (100_000 + index) % 1_000_000
            &&& r[6] == if index % 3 == 0 {
                0x41
            } else {
                0x43int
            }
            &&& forall|j: int| 7 <= j < 12 ==> (#[trigger] r[j]) / 16 <= 9
            &&& forall|j: int| 7 <= j < 11 ==> (#[trigger] r[j]) % 16 <= 9
            &&& r[11] % 16 == 0xC
            &&& (r[7] / 16) * 100_000_000 + (r[7] % 16) * 10_000_000 + (r[8] / 16) * 1_000_000 + (
            r[8] % 16) * 100_000 + (r[9] / 16) * 10_000 + (r[9] % 16) * 1000 + (r[10] / 16) * 100
                + (r[10] % 16) * 10 + r[11] / 16 == whole * 100 + cents
            &&& r[12] * 256 + r[13] == 1000 + branch
        }),
{
    lemma_powers_of_ten();
    let r = bench_record(index);
    let whole = draw_below(SEED, 3 * index, 9_999_999) as nat;
    let cents = draw_below(SEED, 3 * index + 1, 100) as nat;
    let branch = draw_below(SEED, 3 * index + 2, 8999) as nat;
    let id = (100_000 + index) % 1_000_000;
    law_record_length(index);
    lemma_padded_is_digits(id, 6);
    lemma_digits_of(id, 6);
    let ids = digits_of(id, 6);
    lemma_digit_chars_bytes(ids);
    lemma_six_digits(id);
    assert forall|j: int| 0 <= j < 6 implies 0x30 <= #[trigger] r[j] <= 0x39 && r[j] == 0x30
        + ids[j] by {
        assert(ids[j] <= 9);
        assert(r[j] == digit_bytes(ids)[j]);
    }
    lemma_amount_bytes(whole, cents);
    let amount = amount_field(whole, cents);
    assert forall|j: int| 7 <= j < 12 implies #[trigger] r[j] == amount[j - 7] by {}
    lemma_two_bytes((1000 + branch) as int);
    let code = big_endian(1000 + branch as int, 2);
    assert(r[12] == code[0] && r[13] == code[1]);
}

/// The hash of what `data` decodes to under the benchmark's copybook.
pub open spec fn decoded_hash(data: Seq<u8>) -> Seq<char> {
    hash_in(reconciled(FIXTURE@, BENCH_COPYBOOK@, data, RL as nat, KERNEL_VERSION@))
}

/// The hash of what `data` decodes to, record after record.
pub fn corpus_hash(data: &[u8]) -> (hash: String)
    ensures
        hash@ == decoded_hash(data@),
        hash@ == match field_text(
            reconciled("bench2"@, BENCH_COPYBOOK@, data@, 14, "0.7.1"@),
            "decode_output_sha256"@,
        ) {
            Some(text) => text,
            None => Seq::empty(),
        },
        is_digest_text(hash@),
{
    match reconcile_encoded(FIXTURE, BENCH_COPYBOOK, data, RL, KERNEL_VERSION) {
        Ok(audit) => output_hash(audit.as_str()),
        Err(_) => String::new(),
    }
}

/// The hash of what `data` decodes to, the records shared out among threads. It is the hash of the
/// serial decoding.
pub fn corpus_hash_parallel(data: &[u8]) -> (hash: String)
    ensures
        hash@ == decoded_hash(data@),
        hash@ == match field_text(
            reconciled("bench2"@, BENCH_COPYBOOK@, data@, 14, "0.7.1"@),
            "decode_output_sha256"@,
        ) {
            Some(text) => text,
            None => Seq::empty(),
        },
        is_digest_text(hash@),
{
    match reconcile_encoded_parallel(FIXTURE, BENCH_COPYBOOK, data, RL, KERNEL_VERSION) {
        Ok(audit) => output_hash(audit.as_str()),
        Err(_) => String::new(),
    }
}

} // verus!
