//! The scale measurement: its corpus, its hash chain and the scan over reconcile-blocks.

use crate::amount::{
    digit_bytes, digits_of, lemma_digit_chars_bytes, lemma_digits_of, lemma_eight_digits,
    lemma_padded_is_digits, lemma_six_digits,
};
use crate::corpus::{
    amount_field, encode_amount, encode_blank_sequence, encode_branch, encode_risk,
    lemma_amount_bytes, lemma_powers_of_ten, lemma_three_bytes, lemma_two_bytes,
};
use crate::digest::{digest, sha256};
use crate::field::big_endian;
use crate::lcg::{draw_below, law_stream_resumes, state_after, Lcg};
use crate::recon::{
    hash_in, output_hash, reconcile_encoded, reconciled, KERNEL_VERSION, SCALE_COPYBOOK,
};
use crate::text::{
    decimal, decimal_padded, decimal_text, field_text, hex, hex_text, parse_u64, parsed,
    push_decimal, same_text,
};
use rayon::iter::{IntoParallelRefIterator, ParallelIterator};
use vstd::arithmetic::div_mod::{
    lemma_mod_multiples_basic, lemma_mod_sub_multiples_vanish, lemma_small_mod,
};
use vstd::prelude::*;
use vstd::slice::slice_subrange;
use vstd::string::StringExecFns;
use vstd::utf8::{encode_utf8, is_ascii_chars, is_ascii_chars_encode_utf8};

verus! {

/// The number of records of a reconcile-block, the unit that is reconciled and hashed at once.
pub const RECON_RECORDS: usize = 2_000;

/// The number of reconcile-blocks that are read at once.
pub const WAVE: usize = 64;

/// The number of distinct record templates.
pub const TEMPLATES: usize = 1000;

/// The length of a record.
pub const RECORD_LEN: usize = 29;

/// The number of sequence numbers before they start over.
pub const SEQUENCE_NUMBERS: usize = 100_000_000;

/// The seed of the templates.
pub const SEED: u64 = 0x5CA1E_00001;

/// The name of the corpus in its audits.
pub const FIXTURE: &'static str = "scale";

/// The customer name that begins with `CUST` and ends with six digits.
pub open spec fn name_field(number: nat) -> Seq<u8> {
    seq![0x43u8, 0x55u8, 0x53u8, 0x54u8] + digit_bytes(digits_of(number, 6))
}

/// What follows the sequence number in a template made from a generator at `state`. It takes six
/// numbers from the stream: the customer, the units and the hundredths of the amount, the branch,
/// the risk and the status.
pub open spec fn template_tail(state: u64) -> Seq<u8> {
    name_field(draw_below(state, 0, 999_999) as nat) + amount_field(
        draw_below(state, 1, 9_999_999) as nat,
        draw_below(state, 2, 100) as nat,
    ) + big_endian(1000 + draw_below(state, 3, 8999) as int, 2) + big_endian(
        draw_below(state, 4, 999_999) as int,
        3,
    ) + seq![
        if draw_below(state, 5, 2) == 0 {
            0x41u8
        } else {
            0x43u8
        },
    ]
}

/// The template made from a generator at `state`: a blank sequence number and the tail.
pub open spec fn template_bytes(state: u64) -> Seq<u8> {
    digit_bytes(digits_of(0, 8)) + template_tail(state)
}

/// The length of a template tail, whatever was drawn.
pub proof fn lemma_template_tail_length(state: u64)
    ensures
        template_tail(state).len() == RECORD_LEN - 8,
{
    lemma_digits_of(draw_below(state, 0, 999_999) as nat, 6);
    lemma_digits_of(
        (draw_below(state, 1, 9_999_999) * 100 + draw_below(state, 2, 100)) as nat,
        9,
    );
}

/// Every template has the length of a record.
pub proof fn law_template_length(state: u64)
    ensures
        template_bytes(state).len() == RECORD_LEN,
{
    lemma_template_tail_length(state);
    lemma_digits_of(0, 8);
}

/// The bytes of a template: eight zeros, the customer's name and six digits, the digits of the
/// amount in hundredths and their sign nibble, the branch, the risk and the status. They are the
/// numbers at six successive places of the stream from `state`.
pub proof fn law_template_holds_its_draws(state: u64)
    ensures
        ({
            let r = template_bytes(state);
            let customer = (state_after(state, 1) / 0x1_0000) % 999_999;
            let whole = (state_after(state, 2) / 0x1_0000) % 9_999_999;
            let cents = (state_after(state, 3) / 0x1_0000) % 100;
            let branch = (state_after(state, 4) / 0x1_0000) % 8999;
            let risk = (state_after(state, 5) / 0x1_0000) % 999_999;
            let status = (state_after(state, 6) / 0x1_0000) % 2;
            &&& r.len() == 29
            &&& r.take(12) == seq![
                0x30u8, 0x30, 0x30, 0x30, 0x30, 0x30, 0x30, 0x30, 0x43, 0x55, 0x53, 0x54,
            ]
            &&& forall|j: int| 12 <= j < 18 ==> 0x30 <= #[trigger] r[j] <= 0x39
            &&& (r[12] - 0x30) * 100_000 + (r[13] - 0x30) * 10_000 + (r[14] - 0x30) * 1000 + (r[15]
                - 0x30) * 100 + (r[16] - 0x30) * 10 + (r[17] - 0x30) == customer
            &&& forall|j: int| 18 <= j < 23 ==> (#[trigger] r[j]) / 16 <= 9
            &&& forall|j: int| 18 <= j < 22 ==> (#[trigger] r[j]) % 16 <= 9
            &&& r[22] % 16 == 0xC
            &&& (r[18] / 16) * 100_000_000 + (r[18] % 16) * 10_000_000 + (r[19] / 16) * 1_000_000
                + (r[19] % 16) * 100_000 + (r[20] / 16) * 10_000 + (r[20] % 16) * 1000 + (r[21]
                / 16) * 100 + (r[21] % 16) * 10 + r[22] / 16 == whole * 100 + cents
            &&& r[23] * 256 + r[24] == 1000 + branch
            &&& r[25] * 0x1_0000 + r[26] * 256 + r[27] == risk
            &&& r[28] == if status == 0 {
                0x41
            } else {
                0x43int
            }
        }),
{
    let r = template_bytes(state);
    let customer = draw_below(state, 0, 999_999) as nat;
    let whole = draw_below(state, 1, 9_999_999) as nat;
    let cents = draw_below(state, 2, 100) as nat;
    let branch = draw_below(state, 3, 8999) as int;
    let risk = draw_below(state, 4, 999_999) as int;
    law_template_length(state);
    lemma_digits_of(0, 8);
    let blanks = digits_of(0, 8);
    assert forall|j: int| 0 <= j < 8 implies #[trigger] r[j] == 0x30 by {
        reveal_with_fuel(digits_of, 9);
        assert(r[j] == digit_bytes(blanks)[j]);
    }
    lemma_digits_of(customer, 6);
    lemma_six_digits(customer);
    let ids = digits_of(customer, 6);
    let name = name_field(customer);
    assert forall|j: int| 12 <= j < 18 implies 0x30 <= #[trigger] r[j] <= 0x39 && r[j] == 0x30
        + ids[j - 12] by {
        assert(ids[j - 12] <= 9);
        assert(r[j] == name[j - 8]);
    }
    assert(r.take(12) =~= seq![
        0x30u8, 0x30, 0x30, 0x30, 0x30, 0x30, 0x30, 0x30, 0x43, 0x55, 0x53, 0x54,
    ]) by {
        assert(r[8] == name[0] && r[9] == name[1] && r[10] == name[2] && r[11] == name[3]);
    }
    lemma_amount_bytes(whole, cents);
    let amount = amount_field(whole, cents);
    assert forall|j: int| 18 <= j < 23 implies #[trigger] r[j] == amount[j - 18] by {}
    lemma_two_bytes(1000 + branch);
    let code = big_endian(1000 + branch, 2);
    assert(r[23] == code[0] && r[24] == code[1]);
    lemma_three_bytes(risk);
    let grade = big_endian(risk, 3);
    assert(r[25] == grade[0] && r[26] == grade[1] && r[27] == grade[2]);
}

/// Makes a template, which takes six numbers from the generator.
pub fn template(rng: &mut Lcg) -> (record: Vec<u8>)
    ensures
        record@ == template_bytes(old(rng).0),
        final(rng).0 == state_after(old(rng).0, 6),
{
    let ghost state = rng.0;
    let mut r: Vec<u8> = encode_blank_sequence();
    let customer: u64 = rng.next(999_999);
    assert(rng.0 == state_after(state, 1)) by {
        assert(state_after(state, 0) == state);
    }
    let mut name: String = String::from_str("CUST");
    push_decimal(&mut name, customer as u128, 6);
    proof {
        lemma_powers_of_ten();
        reveal_strlit("CUST");
        lemma_padded_is_digits(customer as nat, 6);
        lemma_digits_of(customer as nat, 6);
        lemma_digit_chars_bytes(digits_of(customer as nat, 6));
        lemma_name_bytes(name@, customer as nat);
    }
    r.extend_from_slice(name.as_str().as_bytes());
    let whole: u64 = rng.next(9_999_999);
    assert(rng.0 == state_after(state, 2));
    let cents: u64 = rng.next(100);
    assert(rng.0 == state_after(state, 3));
    let amount: Vec<u8> = encode_amount(whole, cents);
    r.extend_from_slice(amount.as_slice());
    let branch: u64 = 1000 + rng.next(8999);
    assert(rng.0 == state_after(state, 4));
    let code: Vec<u8> = encode_branch(branch);
    r.extend_from_slice(code.as_slice());
    let risk: u64 = rng.next(999_999);
    assert(rng.0 == state_after(state, 5));
    let risk_code: Vec<u8> = encode_risk(risk);
    r.extend_from_slice(risk_code.as_slice());
    let status: u64 = rng.next(2);
    assert(rng.0 == state_after(state, 6));
    r.push(if status == 0 { 0x41 } else { 0x43 });
    assert(r@ =~= template_bytes(state));
    r
}

/// The customer name as text is ASCII, byte for byte.
proof fn lemma_name_bytes(name: Seq<char>, customer: nat)
    requires
        customer < 1_000_000,
        name == "CUST"@ + decimal_padded(customer, 6),
    ensures
        encode_utf8(name) == name_field(customer),
{
    lemma_powers_of_ten();
    reveal_strlit("CUST");
    lemma_padded_is_digits(customer, 6);
    lemma_digits_of(customer, 6);
    let digits = digits_of(customer, 6);
    assert(is_ascii_chars(name)) by {
        assert forall|i: int| 0 <= i < name.len() implies '\0' <= #[trigger] name[i]
            <= '\u{7f}' by {
            if i >= 4 {
                assert(digits[i - 4] <= 9);
            }
        }
    }
    is_ascii_chars_encode_utf8(name);
    assert forall|i: int| 0 <= i < name.len() implies #[trigger] encode_utf8(name)[i]
        == name_field(customer)[i] by {
        assert(name[i] as u8 == encode_utf8(name)[i]);
        if i >= 4 {
            assert(digits[i - 4] <= 9);
        }
    }
    assert(encode_utf8(name) =~= name_field(customer));
}

/// Record `index` of the corpus: a template with the sequence number filled in.
pub open spec fn scale_record(index: nat) -> Seq<u8> {
    digit_bytes(digits_of(index % SEQUENCE_NUMBERS as nat, 8)) + template_tail(
        state_after(SEED, 6 * (index % TEMPLATES as nat)),
    )
}

/// Every record has the same length.
pub proof fn law_record_length(index: nat)
    ensures
        scale_record(index).len() == RECORD_LEN,
{
    lemma_template_tail_length(state_after(SEED, 6 * (index % TEMPLATES as nat)));
    lemma_digits_of(index % SEQUENCE_NUMBERS as nat, 8);
}

/// The bytes of a record: eight digits that count the records from zero and start over after a
/// hundred million, and behind them the bytes of one of a thousand templates, which take turns.
/// The templates are made one after the other from the one stream of the seed.
pub proof fn law_record_numbers_a_template(index: nat)
    ensures
        ({
            let r = scale_record(index);
            &&& r.len() == 29
            &&& forall|j: int| 0 <= j < 8 ==> 0x30 <= #[trigger] r[j] <= 0x39
            &&& (r[0] - 0x30) * 10_000_000 + (r[1] - 0x30) * 1_000_000 + (r[2] - 0x30) * 100_000 + (
            r[3] - 0x30) * 10_000 + (r[4] - 0x30) * 1000 + (r[5] - 0x30) * 100 + (r[6] - 0x30) * 10
                + (r[7] - 0x30) == index % 100_000_000
            &&& r.skip(8) == template_bytes(state_after(SEED, 6 * (index % 1000))).skip(8)
        }),
{
    let r = scale_record(index);
    let number = index % SEQUENCE_NUMBERS as nat;
    let digits = digits_of(number, 8);
    law_record_length(index);
    lemma_digits_of(number, 8);
    lemma_eight_digits(number);
    assert forall|j: int| 0 <= j < 8 implies 0x30 <= #[trigger] r[j] <= 0x39 && r[j] == 0x30
        + digits[j] by {
        assert(digits[j] <= 9);
        assert(r[j] == digit_bytes(digits)[j]);
    }
    let made = template_bytes(state_after(SEED, 6 * (index % TEMPLATES as nat)));
    law_template_length(state_after(SEED, 6 * (index % TEMPLATES as nat)));
    lemma_digits_of(0, 8);
    assert(r.skip(8) =~= made.skip(8));
}

/// The digest that continues a hash chain: that of the hexadecimal text of the digest before,
/// where there is one, and of the record.
pub open spec fn chained(before: Option<Seq<u8>>, record: Seq<u8>) -> Seq<u8> {
    match before {
        Some(digest) => sha256(encode_utf8(hex_text(digest)) + record),
        None => sha256(record),
    }
}

/// The hash chain over the first `count` records.
pub open spec fn chain_after(count: nat) -> Option<Seq<u8>>
    decreases count,
{
    if count == 0 {
        None
    } else {
        Some(chained(chain_after((count - 1) as nat), scale_record((count - 1) as nat)))
    }
}

/// Every record but the first is chained to the one before: the digest over one record more is that
/// of the hexadecimal text of the digest so far and of the record. Only the first record is hashed
/// alone, and the chain never starts over.
pub proof fn law_chain_never_restarts(count: nat)
    ensures
        chain_after(0) is None,
        chain_after(count + 1) is Some,
        chain_after(1) == Some(sha256(scale_record(0))),
        count > 0 ==> chain_after(count) is Some && chain_after(count + 1) == Some(
            sha256(encode_utf8(hex_text(chain_after(count)->0)) + scale_record(count)),
        ),
{
    reveal_with_fuel(chain_after, 2);
}

/// The bytes of an optional digest.
pub open spec fn link_bytes(link: Option<[u8; 32]>) -> Option<Seq<u8>> {
    match link {
        Some(digest) => Some(digest@),
        None => None,
    }
}

/// Continues a hash chain over one record.
pub fn chain_step(before: &Option<[u8; 32]>, record: &[u8]) -> (link: [u8; 32])
    ensures
        link@ == chained(link_bytes(*before), record@),
        link@ == match *before {
            Some(digest) => sha256(encode_utf8(hex_text(digest@)) + record@),
            None => sha256(record@),
        },
{
    let mut bytes: Vec<u8> = Vec::new();
    if let Some(digest) = before {
        let text: String = hex(digest.as_slice());
        bytes.extend_from_slice(text.as_str().as_bytes());
    }
    bytes.extend_from_slice(record);
    assert(bytes@ =~= match link_bytes(*before) {
        Some(digest) => encode_utf8(hex_text(digest)) + record@,
        None => record@,
    });
    digest(bytes.as_slice())
}

/// The first `count` templates, one after the other.
pub open spec fn joined_templates(count: nat) -> Seq<u8>
    decreases count,
{
    if count == 0 {
        Seq::empty()
    } else {
        joined_templates((count - 1) as nat) + template_bytes(
            state_after(SEED, 6 * (count - 1) as nat),
        )
    }
}

/// Every template stands at its place among the joined ones, and there is nothing else.
pub proof fn law_joined_templates_hold_each(count: nat, k: nat)
    requires
        k < count,
    ensures
        joined_templates(count).len() == count * 29,
        joined_templates(count).subrange(k * 29int, k * 29int + 29) == template_bytes(
            state_after(SEED, 6 * k),
        ),
    decreases count,
{
    let last = (count - 1) as nat;
    law_template_length(state_after(SEED, 6 * last));
    if k < last {
        law_joined_templates_hold_each(last, k);
        assert(joined_templates(count).subrange(k * 29int, k * 29int + 29) =~= joined_templates(
            last,
        ).subrange(k * 29int, k * 29int + 29));
    } else {
        if last > 0 {
            law_joined_templates_hold_each(last, 0);
        }
        assert(joined_templates(count).subrange(k * 29int, k * 29int + 29) =~= template_bytes(
            state_after(SEED, 6 * k),
        ));
    }
}

/// The text at the front of a corpus manifest.
pub open spec fn manifest_head(record_count: nat) -> Seq<char> {
    "rl="@ + decimal(RECORD_LEN as nat) + ";n="@ + decimal(record_count) + ";block="@ + decimal(
        RECON_RECORDS as nat,
    ) + ";"@
}

/// The digest that declares a corpus: of its record length, its record count, its block size and
/// its templates.
pub open spec fn manifest_digest(record_count: nat) -> Seq<u8> {
    sha256(encode_utf8(manifest_head(record_count)) + joined_templates(TEMPLATES as nat))
}

/// The corpus while it is being written: the templates, the number of records written, and the
/// hash chain over them.
pub struct Corpus {
    templates: Vec<Vec<u8>>,
    written: usize,
    link: Option<[u8; 32]>,
}

impl Corpus {
    /// The number of records written.
    pub closed spec fn count(self) -> nat {
        self.written as nat
    }

    /// The digest of the last record written, chained to all before it.
    pub closed spec fn chain(self) -> Option<Seq<u8>> {
        link_bytes(self.link)
    }

    /// Whether the templates are those of the corpus and the chain is that of the records written.
    pub closed spec fn wf(self) -> bool {
        &&& self.templates@.len() == TEMPLATES
        &&& forall|k: int|
            0 <= k < TEMPLATES ==> (#[trigger] self.templates@[k])@ == template_bytes(
                state_after(SEED, 6 * k as nat),
            )
        &&& link_bytes(self.link) == chain_after(self.written as nat)
    }

    /// The corpus before any record is written.
    pub fn new() -> (corpus: Corpus)
        ensures
            corpus.wf(),
            corpus.count() == 0,
            corpus.chain() is None,
    {
        let mut rng = Lcg(SEED);
        let mut templates: Vec<Vec<u8>> = Vec::new();
        let mut k: usize = 0;
        while k < TEMPLATES
            invariant
                k <= TEMPLATES,
                templates@.len() == k,
                rng.0 == state_after(SEED, 6 * k as nat),
                forall|j: int|
                    0 <= j < k ==> (#[trigger] templates@[j])@ == template_bytes(
                        state_after(SEED, 6 * j as nat),
                    ),
            decreases TEMPLATES - k,
        {
            templates.push(template(&mut rng));
            proof {
                law_stream_resumes(SEED, 6 * k as nat, 6);
            }
            k += 1;
        }
        Corpus { templates, written: 0, link: None }
    }

    /// The next record, taken into the hash chain.
    pub fn next_record(&mut self) -> (record: Vec<u8>)
        requires
            old(self).wf(),
            old(self).count() < usize::MAX,
        ensures
            final(self).wf(),
            final(self).count() == old(self).count() + 1,
            record@ == scale_record(old(self).count()),
            old(self).count() == 0 <==> old(self).chain() is None,
            final(self).chain() == Some(
                match old(self).chain() {
                    Some(digest) => sha256(encode_utf8(hex_text(digest)) + record@),
                    None => sha256(record@),
                },
            ),
            record@.len() == 29,
            record@.skip(8) == template_bytes(
                state_after(SEED, 6 * (old(self).count() % 1000)),
            ).skip(8),
    {
        let index: usize = self.written;
        let sequence: String = decimal_text((index % SEQUENCE_NUMBERS) as u64, 8);
        let mut rec: Vec<u8> = Vec::new();
        rec.extend_from_slice(sequence.as_str().as_bytes());
        let base: &Vec<u8> = &self.templates[index % TEMPLATES];
        proof {
            let number = (index % SEQUENCE_NUMBERS) as nat;
            lemma_powers_of_ten();
            lemma_padded_is_digits(number, 8);
            lemma_digits_of(number, 8);
            lemma_digits_of(0, 8);
            lemma_digit_chars_bytes(digits_of(number, 8));
            law_template_length(state_after(SEED, 6 * (index % TEMPLATES) as nat));
        }
        let ghost front = rec@;
        let mut i: usize = 8;
        while i < base.len()
            invariant
                8 <= i <= base@.len(),
                rec@ == front + base@.subrange(8, i as int),
            decreases base@.len() - i,
        {
            rec.push(base[i]);
            i += 1;
            assert(rec@ =~= front + base@.subrange(8, i as int));
        }
        assert(rec@ =~= scale_record(index as nat));
        proof {
            law_record_numbers_a_template(index as nat);
        }
        let link: [u8; 32] = chain_step(&self.link, rec.as_slice());
        self.link = Some(link);
        self.written = index + 1;
        rec
    }

    /// The hash chain over the records written, in hexadecimal; empty before the first.
    pub fn posting_chain(&self) -> (text: String)
        requires
            self.wf(),
        ensures
            text@ == match chain_after(self.count()) {
                Some(digest) => hex_text(digest),
                None => Seq::empty(),
            },
            text@ == match self.chain() {
                Some(digest) => hex_text(digest),
                None => Seq::empty(),
            },
    {
        match &self.link {
            Some(digest) => hex(digest.as_slice()),
            None => String::new(),
        }
    }

    /// The manifest of a corpus of `record_count` records, in hexadecimal.
    pub fn manifest(&self, record_count: usize) -> (text: String)
        requires
            self.wf(),
        ensures
            text@ == hex_text(manifest_digest(record_count as nat)),
            text@ == hex_text(
                sha256(
                    encode_utf8(
                        "rl="@ + decimal(29) + ";n="@ + decimal(record_count as nat) + ";block="@
                            + decimal(2000) + ";"@,
                    ) + joined_templates(1000),
                ),
            ),
    {
        let mut head: String = String::from_str("rl=");
        push_decimal(&mut head, RECORD_LEN as u128, 0);
        head.append(";n=");
        push_decimal(&mut head, record_count as u128, 0);
        head.append(";block=");
        push_decimal(&mut head, RECON_RECORDS as u128, 0);
        head.append(";");
        let mut bytes: Vec<u8> = Vec::new();
        bytes.extend_from_slice(head.as_str().as_bytes());
        let ghost front = bytes@;
        assert(front =~= encode_utf8(manifest_head(record_count as nat)));
        let mut k: usize = 0;
        while k < TEMPLATES
            invariant
                k <= TEMPLATES,
                self.wf(),
                bytes@ == front + joined_templates(k as nat),
            decreases TEMPLATES - k,
        {
            let part: &Vec<u8> = &self.templates[k];
            bytes.extend_from_slice(part.as_slice());
            k += 1;
            assert(bytes@ =~= front + joined_templates(k as nat));
        }
        let total: [u8; 32] = digest(bytes.as_slice());
        hex(total.as_slice())
    }
}

/// The size that is measured where no other is asked for, in bytes.
pub const DEFAULT_TARGET: u64 = 104_857_600;

/// The size in bytes that an argument asks for: one of four named sizes or a number of bytes. All
/// else asks for the default.
pub open spec fn target_of(arg: Seq<char>) -> nat {
    if arg == "100m"@ {
        100 * 1024 * 1024
    } else if arg == "1g"@ {
        1024 * 1024 * 1024
    } else if arg == "5g"@ {
        5 * 1024 * 1024 * 1024
    } else if arg == "10g"@ {
        10 * 1024 * 1024 * 1024
    } else {
        match parsed(arg, u64::MAX as nat) {
            Some(bytes) => bytes,
            None => DEFAULT_TARGET as nat,
        }
    }
}

/// The size in bytes that an argument asks for.
pub fn target_bytes(arg: &str) -> (bytes: u64)
    ensures
        bytes == target_of(arg@),
        arg@ == "100m"@ ==> bytes == 100 * 0x10_0000,
        arg@ == "1g"@ ==> bytes == 0x4000_0000,
        arg@ == "5g"@ ==> bytes == 5 * 0x4000_0000,
        arg@ == "10g"@ ==> bytes == 10 * 0x4000_0000,
        arg@ != "100m"@ && arg@ != "1g"@ && arg@ != "5g"@ && arg@ != "10g"@ ==> bytes == match parsed(
            arg@,
            u64::MAX as nat,
        ) {
            Some(n) => n,
            None => 100 * 0x10_0000,
        },
{
    proof {
        reveal_strlit("100m");
        reveal_strlit("1g");
        reveal_strlit("5g");
        reveal_strlit("10g");
        assert("100m"@.len() == 4 && "1g"@.len() == 2 && "5g"@.len() == 2 && "10g"@.len() == 3);
        assert("1g"@[0] == '1' && "5g"@[0] == '5');
    }
    if same_text(arg, "100m") {
        104_857_600
    } else if same_text(arg, "1g") {
        1_073_741_824
    } else if same_text(arg, "5g") {
        5_368_709_120
    } else if same_text(arg, "10g") {
        10_737_418_240
    } else {
        match parse_u64(arg) {
            Some(bytes) => bytes,
            None => DEFAULT_TARGET,
        }
    }
}

/// The number of records of a corpus of about `target` bytes: a whole number of reconcile-blocks.
pub open spec fn whole_blocks(target: u64) -> nat {
    ((target / RECORD_LEN as u64) as usize / RECON_RECORDS * RECON_RECORDS) as nat
}

/// The number of records of a corpus of about `target` bytes.
pub fn record_count(target: u64) -> (count: usize)
    ensures
        count == whole_blocks(target),
        count % 2000 == 0,
        count <= (target / 29) as usize,
        (target / 29) as usize - count < 2000,
{
    let records: usize = (target / RECORD_LEN as u64) as usize;
    records / RECON_RECORDS * RECON_RECORDS
}

/// A corpus is a whole number of reconcile-blocks, is no larger than asked for, and lacks less than
/// one reconcile-block and one record of it, where the number of records can be counted.
pub proof fn law_record_count(target: u64)
    requires
        target / RECORD_LEN as u64 <= usize::MAX,
    ensures
        whole_blocks(target) % RECON_RECORDS as nat == 0,
        whole_blocks(target) <= target / 29,
        target / 29 - whole_blocks(target) < 2000,
        whole_blocks(target) * RECORD_LEN <= target,
        target - whole_blocks(target) * RECORD_LEN < (RECON_RECORDS + 1) * RECORD_LEN,
{
    let records = (target / RECORD_LEN as u64) as usize;
    assert(records / RECON_RECORDS * RECON_RECORDS == records - records % RECON_RECORDS)
        by (nonlinear_arith)
        requires
            RECON_RECORDS == 2_000,
    ;
}

/// The digest of a reconcile-block: of the hash of what it decodes to.
pub open spec fn digest_of_block(block: Seq<u8>, rl: nat) -> Seq<u8> {
    sha256(
        encode_utf8(hash_in(reconciled(FIXTURE@, SCALE_COPYBOOK@, block, rl, KERNEL_VERSION@))),
    )
}

/// The digest of a block is over the hash of what the whole block decodes to, byte for byte as it
/// was given, whatever its length.
pub proof fn law_block_digest_takes_the_whole_block(block: Seq<u8>, rl: nat)
    ensures
        digest_of_block(block, rl) == sha256(
            encode_utf8(
                match field_text(
                    reconciled("scale"@, SCALE_COPYBOOK@, block, rl, "0.7.1"@),
                    "decode_output_sha256"@,
                ) {
                    Some(hash) => hash,
                    None => Seq::empty(),
                },
            ),
        ),
{
}

/// Reconciles one block and folds its content into a digest.
pub fn block_digest(block: &[u8], rl: usize) -> (folded: [u8; 32])
    requires
        rl > 0,
    ensures
        folded@ == digest_of_block(block@, rl as nat),
        folded@ == sha256(
            encode_utf8(
                match field_text(
                    reconciled("scale"@, SCALE_COPYBOOK@, block@, rl as nat, "0.7.1"@),
                    "decode_output_sha256"@,
                ) {
                    Some(hash) => hash,
                    None => Seq::empty(),
                },
            ),
        ),
{
    let hash: String = match reconcile_encoded(FIXTURE, SCALE_COPYBOOK, block, rl, KERNEL_VERSION) {
        Ok(audit) => output_hash(audit.as_str()),
        Err(_) => String::new(),
    };
    digest(hash.as_str().as_bytes())
}

/// Calls `rayon`'s parallel map and collect over the blocks, with the digest of a block as the
/// function that is mapped.
///
/// Claimed of it: there is one result for each block, in the order of the blocks.
#[verifier::external_body]
fn parallel_digests(blocks: &Vec<Vec<u8>>, rl: usize) -> (digests: Vec<[u8; 32]>)
    requires
        rl > 0,
    ensures
        digests@.len() == blocks@.len(),
        forall|i: int|
            0 <= i < blocks@.len() ==> (#[trigger] digests@[i])@ == digest_of_block(
                blocks@[i]@,
                rl as nat,
            ),
{
    blocks.par_iter().map(|b| block_digest(b, rl)).collect()
}

/// The digests of blocks, one after the other.
fn serial_digests(blocks: &Vec<Vec<u8>>, rl: usize) -> (digests: Vec<[u8; 32]>)
    requires
        rl > 0,
    ensures
        digests@.len() == blocks@.len(),
        forall|i: int|
            0 <= i < blocks@.len() ==> (#[trigger] digests@[i])@ == digest_of_block(
                blocks@[i]@,
                rl as nat,
            ),
{
    let mut out: Vec<[u8; 32]> = Vec::new();
    let mut i: usize = 0;
    while i < blocks.len()
        invariant
            rl > 0,
            i <= blocks@.len(),
            out@.len() == i,
            forall|k: int|
                0 <= k < i ==> (#[trigger] out@[k])@ == digest_of_block(blocks@[k]@, rl as nat),
        decreases blocks@.len() - i,
    {
        let block: &Vec<u8> = &blocks[i];
        out.push(block_digest(block.as_slice(), rl));
        i += 1;
    }
    out
}

/// The digests of blocks, joined.
pub open spec fn joined_digests(blocks: Seq<Seq<u8>>, rl: nat) -> Seq<u8>
    decreases blocks.len(),
{
    if blocks.len() == 0 {
        Seq::empty()
    } else {
        joined_digests(blocks.drop_last(), rl) + digest_of_block(blocks.last(), rl)
    }
}

/// The hash of a scan over blocks, in hexadecimal.
pub open spec fn scan_hash(blocks: Seq<Seq<u8>>, rl: nat) -> Seq<char> {
    hex_text(sha256(joined_digests(blocks, rl)))
}

/// The blocks of a wave.
pub open spec fn wave_blocks(blocks: Seq<Vec<u8>>) -> Seq<Seq<u8>> {
    Seq::new(blocks.len(), |i: int| blocks[i]@)
}

/// One block joins the digest of the hash of what it decodes to, and no block joins nothing.
pub proof fn law_one_block_joins_its_digest(block: Seq<u8>, rl: nat)
    ensures
        joined_digests(Seq::empty(), rl) == Seq::<u8>::empty(),
        joined_digests(seq![block], rl) == sha256(
            encode_utf8(
                match field_text(
                    reconciled("scale"@, SCALE_COPYBOOK@, block, rl, "0.7.1"@),
                    "decode_output_sha256"@,
                ) {
                    Some(hash) => hash,
                    None => Seq::empty(),
                },
            ),
        ),
{
    reveal_with_fuel(joined_digests, 2);
    assert(seq![block].drop_last() =~= Seq::<Seq<u8>>::empty());
    assert(joined_digests(seq![block], rl) =~= digest_of_block(block, rl));
}

/// How the blocks are shared out into waves does not matter to the digests of a scan.
pub proof fn law_waves_join(first: Seq<Seq<u8>>, second: Seq<Seq<u8>>, rl: nat)
    ensures
        joined_digests(first + second, rl) == joined_digests(first, rl) + joined_digests(
            second,
            rl,
        ),
    decreases second.len(),
{
    if second.len() == 0 {
        assert(first + second =~= first);
        assert(joined_digests(first, rl) + joined_digests(second, rl) =~= joined_digests(
            first,
            rl,
        ));
    } else {
        law_waves_join(first, second.drop_last(), rl);
        assert((first + second).drop_last() =~= first + second.drop_last());
        assert(joined_digests(first + second, rl) =~= joined_digests(first, rl) + joined_digests(
            second,
            rl,
        ));
    }
}

/// The first `count` records, one after the other.
pub open spec fn scale_corpus(count: nat) -> Seq<u8>
    decreases count,
{
    if count == 0 {
        Seq::empty()
    } else {
        scale_corpus((count - 1) as nat) + scale_record((count - 1) as nat)
    }
}

/// Data cut into blocks of `size` bytes, the last of which may be shorter.
pub open spec fn cut(data: Seq<u8>, size: nat) -> Seq<Seq<u8>>
    decreases data.len(),
{
    if data.len() == 0 || size == 0 {
        Seq::empty()
    } else if data.len() <= size {
        seq![data]
    } else {
        seq![data.take(size as int)] + cut(data.skip(size as int), size)
    }
}

/// Cuts data into blocks of `size` bytes, the last of which may be shorter.
pub fn cut_blocks(data: &[u8], size: usize) -> (blocks: Vec<Vec<u8>>)
    requires
        size > 0,
    ensures
        wave_blocks(blocks@) == cut(data@, size as nat),
        data@.len() == 0 ==> blocks@.len() == 0,
        data@.len() > 0 ==> (blocks@.len() - 1) * size < data@.len() <= blocks@.len() * size,
        forall|k: int|
            0 <= k < blocks@.len() ==> (#[trigger] blocks@[k])@ == data@.subrange(
                k * size,
                if (k + 1) * size <= data@.len() {
                    (k + 1) * size
                } else {
                    data@.len() as int
                },
            ),
{
    let mut out: Vec<Vec<u8>> = Vec::new();
    let mut i: usize = 0;
    assert(data@.skip(0) =~= data@);
    assert(wave_blocks(out@) + cut(data@, size as nat) =~= cut(data@, size as nat));
    while i < data.len()
        invariant
            size > 0,
            i <= data@.len(),
            wave_blocks(out@) + cut(data@.skip(i as int), size as nat) == cut(data@, size as nat),
        decreases data@.len() - i,
    {
        let stop: usize = if data.len() - i <= size {
            data.len()
        } else {
            i + size
        };
        let mut block: Vec<u8> = Vec::new();
        block.extend_from_slice(slice_subrange(data, i, stop));
        let ghost before = wave_blocks(out@);
        let ghost rest = data@.skip(i as int);
        out.push(block);
        proof {
            let after = wave_blocks(out@);
            let tail = cut(data@.skip(stop as int), size as nat);
            assert(block@ =~= rest.take(stop - i));
            assert(after =~= before + seq![rest.take(stop - i)]);
            assert(rest.skip(stop - i) =~= data@.skip(stop as int));
            if rest.len() <= size {
                assert(rest.take(stop - i) =~= rest);
                assert(tail =~= Seq::<Seq<u8>>::empty());
            }
            assert(cut(rest, size as nat) =~= seq![rest.take(stop - i)] + tail);
            assert(after + tail =~= before + cut(rest, size as nat));
        }
        i = stop;
    }
    assert(wave_blocks(out@) + cut(data@.skip(i as int), size as nat) =~= wave_blocks(out@));
    proof {
        assert(wave_blocks(out@).len() == out@.len());
        assert forall|k: int| 0 <= k < out@.len() implies (#[trigger] out@[k])@ == data@.subrange(
            k * size,
            if (k + 1) * size <= data@.len() {
                (k + 1) * size
            } else {
                data@.len() as int
            },
        ) by {
            law_cut_takes_each_stretch(data@, size as nat, k as nat);
            assert(wave_blocks(out@)[k] == out@[k]@);
        }
        if data@.len() > 0 {
            law_cut_takes_each_stretch(data@, size as nat, 0);
        }
    }
    out
}

/// Data is cut without a gap: block `k` is the stretch of `size` bytes at `k * size`, or what is
/// left there, and the last block reaches the end.
pub proof fn law_cut_takes_each_stretch(data: Seq<u8>, size: nat, k: nat)
    requires
        size > 0,
        data.len() > 0,
    ensures
        cut(data, size).len() > 0,
        (cut(data, size).len() - 1) * size < data.len() <= cut(data, size).len() * size,
        k < cut(data, size).len() ==> k * size < data.len() && cut(data, size)[k as int]
            == data.subrange(
            (k * size) as int,
            if (k + 1) * size <= data.len() {
                ((k + 1) * size) as int
            } else {
                data.len() as int
            },
        ),
    decreases data.len(),
{
    let whole = cut(data, size);
    if data.len() <= size {
        assert(0 * size == 0 && 1 * size == size) by (nonlinear_arith);
        assert(whole =~= seq![data]);
        assert(data.subrange(0, data.len() as int) =~= data);
    } else {
        let rest = data.skip(size as int);
        let tail = cut(rest, size);
        law_cut_takes_each_stretch(rest, size, if k > 0 {
            (k - 1) as nat
        } else {
            0
        });
        assert(whole =~= seq![data.take(size as int)] + tail);
        assert((1 + tail.len()) * size == size + tail.len() * size) by (nonlinear_arith);
        assert(tail.len() * size == (tail.len() - 1) * size + size) by (nonlinear_arith);
        if 0 < k < whole.len() {
            let j = (k - 1) as nat;
            assert(k * size == j * size + size && (k + 1) * size == (j + 1) * size + size)
                by (nonlinear_arith)
                requires
                    k == j + 1,
            ;
            assert(whole[k as int] == tail[j as int]);
            let start = (j * size) as int;
            let end = if (j + 1) * size <= rest.len() {
                ((j + 1) * size) as int
            } else {
                rest.len() as int
            };
            assert(start <= end) by {
                assert((j + 1) * size == j * size + size) by (nonlinear_arith);
            }
            assert(rest.subrange(start, end) =~= data.subrange(
                start + size,
                end + size,
            ));
        } else if k == 0 {
            assert(0 * size == 0 && (0 + 1) * size == size) by (nonlinear_arith);
            assert(data.take(size as int) =~= data.subrange(0, size as int));
        }
    }
}

/// Data that ends on a block boundary can be cut apart from what follows: reading a corpus wave by
/// wave gives the blocks of the whole.
pub proof fn law_cut_joins(first: Seq<u8>, second: Seq<u8>, size: nat)
    requires
        size > 0,
        first.len() % size == 0,
    ensures
        cut(first + second, size) == cut(first, size) + cut(second, size),
    decreases first.len(),
{
    if first.len() == 0 {
        assert(first + second =~= second);
        assert(cut(first, size) + cut(second, size) =~= cut(second, size));
    } else {
        let rest = first.skip(size as int);
        assert(first.len() >= size) by {
            if first.len() < size {
                lemma_small_mod(first.len(), size);
            }
        }
        lemma_mod_sub_multiples_vanish(first.len() as int, size as int);
        law_cut_joins(rest, second, size);
        let whole = first + second;
        assert(whole.take(size as int) =~= first.take(size as int));
        assert(whole.skip(size as int) =~= rest + second);
        if first.len() == size {
            assert(rest =~= Seq::<u8>::empty());
            assert(rest + second =~= second);
            assert(first.take(size as int) =~= first);
            assert(cut(first, size) =~= seq![first]);
            if second.len() == 0 {
                assert(whole =~= first);
            }
        }
        assert(cut(whole, size) =~= cut(first, size) + cut(second, size));
    }
}

/// Data of a whole number of blocks is cut into full blocks only, as many as it holds.
pub proof fn law_cut_is_whole(data: Seq<u8>, size: nat)
    requires
        size > 0,
        data.len() % size == 0,
    ensures
        cut(data, size).len() * size == data.len(),
        forall|k: int|
            0 <= k < cut(data, size).len() ==> (#[trigger] cut(data, size)[k]).len() == size,
    decreases data.len(),
{
    if data.len() > 0 {
        assert(data.len() >= size) by {
            if data.len() < size {
                lemma_small_mod(data.len(), size);
            }
        }
        let rest = data.skip(size as int);
        lemma_mod_sub_multiples_vanish(data.len() as int, size as int);
        law_cut_is_whole(rest, size);
        let tail = cut(rest, size);
        if data.len() == size {
            assert(cut(data, size).len() == 1);
            assert(1 * size == size) by (nonlinear_arith);
        } else {
            assert(cut(data, size) =~= seq![data.take(size as int)] + tail);
            assert((1 + tail.len()) * size == size + tail.len() * size) by (nonlinear_arith);
        }
    } else {
        assert(0 * size == 0) by (nonlinear_arith);
    }
}

/// The corpus of a whole number of reconcile-blocks has that many bytes, so that no block holds a
/// part of a record.
pub proof fn law_corpus_is_whole_blocks(count: nat)
    ensures
        scale_corpus(count).len() == count * RECORD_LEN,
        count % RECON_RECORDS as nat == 0 ==> scale_corpus(count).len() % (RECON_RECORDS
            * RECORD_LEN) as nat == 0,
    decreases count,
{
    if count > 0 {
        law_corpus_is_whole_blocks((count - 1) as nat);
        law_record_length((count - 1) as nat);
    }
    if count % RECON_RECORDS as nat == 0 {
        let blocks = count / RECON_RECORDS as nat;
        assert(count * RECORD_LEN == blocks * (RECON_RECORDS * RECORD_LEN)) by (nonlinear_arith)
            requires
                count == blocks * RECON_RECORDS,
        ;
        lemma_mod_multiples_basic(
            blocks as int,
            RECON_RECORDS * RECORD_LEN,
        );
    }
}

/// Cutting and scanning a corpus wave by wave, each wave but the last ending on a block boundary,
/// gives the digests of the whole corpus.
pub proof fn law_waves_scan_whole(first: Seq<u8>, second: Seq<u8>, size: nat, rl: nat)
    requires
        size > 0,
        first.len() % size == 0,
    ensures
        joined_digests(cut(first + second, size), rl) == joined_digests(cut(first, size), rl)
            + joined_digests(cut(second, size), rl),
{
    law_cut_joins(first, second, size);
    law_waves_join(cut(first, size), cut(second, size), rl);
}

/// A scan over the blocks of a corpus, wave by wave. It keeps a digest of thirty-two bytes for each
/// block, and no block.
pub struct Scan {
    digests: Vec<u8>,
    rl: usize,
    blocks: Ghost<Seq<Seq<u8>>>,
}

impl Scan {
    /// The blocks that were absorbed.
    pub closed spec fn seen(self) -> Seq<Seq<u8>> {
        self.blocks@
    }

    /// The length of a record.
    pub closed spec fn record_len(self) -> nat {
        self.rl as nat
    }

    /// Whether the digests are those of the blocks absorbed.
    pub closed spec fn wf(self) -> bool {
        self.rl > 0 && self.digests@ == joined_digests(self.blocks@, self.rl as nat)
    }

    /// A scan that has absorbed nothing.
    pub fn new(rl: usize) -> (scan: Scan)
        requires
            rl > 0,
        ensures
            scan.wf(),
            scan.seen().len() == 0,
            scan.record_len() == rl,
    {
        Scan { digests: Vec::new(), rl, blocks: Ghost(Seq::empty()) }
    }

    /// Absorbs a wave of blocks, in order, and returns whether another wave may follow: a wave that
    /// is not full is the last. Whether the blocks are shared out among threads makes no difference
    /// to the outcome.
    pub fn absorb(&mut self, blocks: &Vec<Vec<u8>>, parallel: bool) -> (more: bool)
        requires
            old(self).wf(),
        ensures
            final(self).wf(),
            final(self).record_len() == old(self).record_len(),
            final(self).seen() == old(self).seen() + wave_blocks(blocks@),
            final(self).seen().len() == old(self).seen().len() + blocks@.len(),
            final(self).seen().take(old(self).seen().len() as int) == old(self).seen(),
            forall|i: int|
                0 <= i < blocks@.len() ==> final(self).seen()[old(self).seen().len() + i] == (
                #[trigger] blocks@[i])@,
            more == (blocks@.len() >= 64),
            more == (blocks@.len() >= WAVE),
    {
        let digests: Vec<[u8; 32]> = if parallel {
            parallel_digests(blocks, self.rl)
        } else {
            serial_digests(blocks, self.rl)
        };
        let ghost before = self.blocks@;
        let ghost wave = wave_blocks(blocks@);
        let ghost rl = self.rl as nat;
        assert(before + wave.take(0) =~= before);
        let mut i: usize = 0;
        while i < digests.len()
            invariant
                i <= digests@.len(),
                digests@.len() == blocks@.len(),
                wave == wave_blocks(blocks@),
                rl == self.rl,
                self.rl == old(self).rl,
                self.rl > 0,
                self.blocks@ == before,
                forall|k: int|
                    0 <= k < blocks@.len() ==> (#[trigger] digests@[k])@ == digest_of_block(
                        blocks@[k]@,
                        rl,
                    ),
                self.digests@ == joined_digests(before + wave.take(i as int), rl),
            decreases digests@.len() - i,
        {
            let ghost longer = before + wave.take(i + 1);
            assert(longer.drop_last() =~= before + wave.take(i as int));
            assert(longer.last() == blocks@[i as int]@);
            let one: &[u8; 32] = &digests[i];
            self.digests.extend_from_slice(one.as_slice());
            i += 1;
            assert(self.digests@ =~= joined_digests(before + wave.take(i as int), rl));
        }
        assert(wave.take(i as int) =~= wave);
        self.blocks = Ghost(before + wave);
        blocks.len() >= WAVE
    }

    /// The hash of the scan, in hexadecimal.
    pub fn finish(&self) -> (hash: String)
        requires
            self.wf(),
        ensures
            hash@ == scan_hash(self.seen(), self.record_len()),
            hash@ == hex_text(sha256(joined_digests(self.seen(), self.record_len()))),
    {
        let total: [u8; 32] = digest(self.digests.as_slice());
        hex(total.as_slice())
    }
}

} // verus!
