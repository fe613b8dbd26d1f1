//! Reconciliation of fixed-length records against a copybook, and the hash in its audit.

use crate::text::{audit_field, field_text};
use vstd::prelude::*;
use vstd::string::StringExecFns;

verus! {

/// The copybook of the end-to-end benchmark.
pub const BENCH_COPYBOOK: &'static str = "       01 ACCT.\n           05 ID PIC 9(6).\n           05 ST PIC X.\n               88 ACTIVE VALUE \"A\".\n               88 CLOSED VALUE \"C\".\n           05 BAL PIC S9(7)V99 COMP-3.\n           05 BR PIC 9(4) COMP.\n";

/// The copybook of the scale measurement.
pub const SCALE_COPYBOOK: &'static str = "       01 SCALE-REC.\n           05 SEQ-NO PIC 9(8).\n           05 NAME PIC X(10).\n           05 AMOUNT PIC S9(7)V99 COMP-3.\n           05 BRANCH PIC 9(4) COMP.\n           05 RISK PIC 9(6) COMP-X.\n           05 STATUS PIC X.\n               88 ACTIVE VALUE \"A\".\n";

/// The kernel version that the audits record.
pub const KERNEL_VERSION: &'static str = "0.7.1";

/// The audit field that holds the hash of the decoded output.
pub const OUTPUT_HASH: &'static str = "decode_output_sha256";

/// The error of a reconciliation.
#[verifier::external_type_specification]
#[verifier::external_body]
pub struct ExShimError(kobold_data_shim::ShimError);

/// The audit that `kobold_data_shim::recon::reconcile_encoded` writes of ASCII data, with no
/// copybook to copy from. The arguments are the name of the data set, the copybook, the data, the
/// length of a record and the kernel version.
pub uninterp spec fn reconciled(
    fixture: Seq<char>,
    copybook: Seq<char>,
    data: Seq<u8>,
    record_len: nat,
    version: Seq<char>,
) -> Seq<char>;

/// Whether a copybook is one of the two that records are generated for.
pub open spec fn is_corpus_copybook(copybook: Seq<char>) -> bool {
    copybook == BENCH_COPYBOOK@ || copybook == SCALE_COPYBOOK@
}

/// Whether a text is that of a digest: sixty-four lower-case hexadecimal digits.
pub open spec fn is_digest_text(text: Seq<char>) -> bool {
    &&& text.len() == 64
    &&& forall|i: int|
        0 <= i < 64 ==> ('0' <= #[trigger] text[i] <= '9' || 'a' <= text[i] <= 'f')
}

/// Calls `kobold_data_shim::recon::reconcile_encoded` on ASCII data with `NoCopy`, and keeps the
/// audit.
///
/// Claimed of it, for the copybooks of the corpora: it fails on a record length of zero and on
/// nothing else; the audit depends on the arguments alone; and the audit holds the hash of the
/// decoded output.
#[verifier::external_body]
pub(crate) fn reconcile_encoded(
    fixture: &str,
    copybook: &str,
    data: &[u8],
    record_len: usize,
    version: &str,
) -> (result: Result<String, kobold_data_shim::ShimError>)
    requires
        is_corpus_copybook(copybook@),
    ensures
        result is Ok <==> record_len > 0,
        result is Ok ==> result->Ok_0@ == reconciled(
            fixture@,
            copybook@,
            data@,
            record_len as nat,
            version@,
        ),
        result is Ok ==> field_text(result->Ok_0@, OUTPUT_HASH@) is Some && is_digest_text(
            field_text(result->Ok_0@, OUTPUT_HASH@)->0,
        ),
{
    let none = kobold_data_shim::NoCopy;
    let encoding = kobold_data_shim::Encoding::Ascii;
    kobold_data_shim::recon::reconcile_encoded(
        fixture, copybook, data, record_len, version, &none, encoding,
    ).map(|r| r.audit_json)
}

/// Calls `kobold_data_shim::recon::reconcile_encoded_parallel` on ASCII data with `NoCopy`, and
/// keeps the audit.
///
/// Claimed of it, for the copybooks of the corpora: it fails and succeeds as the serial
/// reconciliation does, and writes the same audit.
#[verifier::external_body]
pub(crate) fn reconcile_encoded_parallel(
    fixture: &str,
    copybook: &str,
    data: &[u8],
    record_len: usize,
    version: &str,
) -> (result: Result<String, kobold_data_shim::ShimError>)
    requires
        is_corpus_copybook(copybook@),
    ensures
        result is Ok <==> record_len > 0,
        result is Ok ==> result->Ok_0@ == reconciled(
            fixture@,
            copybook@,
            data@,
            record_len as nat,
            version@,
        ),
        result is Ok ==> field_text(result->Ok_0@, OUTPUT_HASH@) is Some && is_digest_text(
            field_text(result->Ok_0@, OUTPUT_HASH@)->0,
        ),
{
    let none = kobold_data_shim::NoCopy;
    let encoding = kobold_data_shim::Encoding::Ascii;
    kobold_data_shim::recon::reconcile_encoded_parallel(
        fixture, copybook, data, record_len, version, &none, encoding,
    ).map(|r| r.audit_json)
}

/// The hash of the decoded output that an audit holds, or nothing.
pub open spec fn hash_in(audit: Seq<char>) -> Seq<char> {
    match field_text(audit, OUTPUT_HASH@) {
        Some(hash) => hash,
        None => Seq::empty(),
    }
}

/// The hash of the decoded output that an audit holds, or an empty text where it holds none.
pub fn output_hash(audit: &str) -> (hash: String)
    ensures
        hash@ == hash_in(audit@),
        hash@ == match field_text(audit@, "decode_output_sha256"@) {
            Some(text) => text,
            None => Seq::empty(),
        },
{
    match audit_field(audit, OUTPUT_HASH) {
        Some(hash) => String::from_str(hash),
        None => String::new(),
    }
}

} // verus!
