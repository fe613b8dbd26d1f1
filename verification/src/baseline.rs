//! Parity baselines: a measurement is admitted only where its output hash is the pinned one.

use crate::bench::RL;
use crate::recon::OUTPUT_HASH;
use crate::text::{
    audit_field, decimal, field_mark, field_text, find_from, lemma_find_from, occurs_at,
    push_decimal, same_text,
};
use vstd::prelude::*;
use vstd::string::StringExecFns;

verus! {

/// The field of the scale measurement's baseline and receipt that holds the output hash.
pub const SCALE_HASH: &'static str = "output_sha256";

/// Whether a measurement is admitted, by the hash of its output.
#[derive(Debug)]
pub enum Admission {
    /// No baseline is pinned yet: the hash becomes the baseline.
    Established,
    /// The hash is the pinned one.
    Matches,
    /// The parallel run gave another hash than the serial run: the measurement is not admitted.
    Diverged,
    /// The hash differs from the pinned one: the measurement is not admitted.
    Refused {
        /// The pinned hash.
        baseline: String,
    },
}

/// The hash that a baseline file pins, where there is a file and it holds the field `key`.
pub open spec fn pinned(file: Option<Seq<char>>, key: Seq<char>) -> Option<Seq<char>> {
    match file {
        Some(text) => field_text(text, key),
        None => None,
    }
}

/// The text of an optional string.
pub open spec fn file_text(file: Option<String>) -> Option<Seq<char>> {
    match file {
        Some(text) => Some(text@),
        None => None,
    }
}

/// Judges the hash of a run by the baseline file, where there is one.
pub fn judge(file: &Option<String>, key: &str, hash: &str) -> (admission: Admission)
    ensures
        match pinned(file_text(*file), key@) {
            None => admission is Established,
            Some(baseline) => if baseline == hash@ {
                admission is Matches
            } else {
                admission is Refused && admission->baseline@ == baseline
            },
        },
        *file is None ==> admission is Established,
        *file matches Some(text) ==> match field_text(text@, key@) {
            None => admission is Established,
            Some(baseline) => (baseline == hash@ <==> admission is Matches) && (baseline != hash@
                <==> admission is Refused) && (admission is Refused ==> admission->baseline@
                == baseline),
        },
{
    match file {
        None => Admission::Established,
        Some(text) => match audit_field(text.as_str(), key) {
            None => Admission::Established,
            Some(baseline) => if same_text(baseline, hash) {
                Admission::Matches
            } else {
                Admission::Refused { baseline: String::from_str(baseline) }
            },
        },
    }
}

/// Judges the hashes of a serial and a parallel run over the same corpus: they have to agree before
/// the baseline is looked at.
pub fn judge_runs(file: &Option<String>, key: &str, serial: &str, parallel: &str) -> (admission:
    Admission)
    ensures
        admission is Diverged <==> parallel@ != serial@,
        parallel@ == serial@ ==> match pinned(file_text(*file), key@) {
            None => admission is Established,
            Some(baseline) => if baseline == serial@ {
                admission is Matches
            } else {
                admission is Refused && admission->baseline@ == baseline
            },
        },
        admission is Matches ==> parallel@ == serial@ && *file is Some && field_text(
            (*file)->0@,
            key@,
        ) == Some(serial@),
        admission is Established ==> parallel@ == serial@ && (*file is None || field_text(
            (*file)->0@,
            key@,
        ) is None),
{
    if !same_text(parallel, serial) {
        return Admission::Diverged;
    }
    judge(file, key, serial)
}

/// The baseline file of the end-to-end benchmark.
pub open spec fn bench_baseline_text(hash: Seq<char>) -> Seq<char> {
    "{\"schema\":\"kobold-bench2-baseline-v1\",\"decode_output_sha256\":\""@ + hash
        + "\",\"record_len\":"@ + decimal(RL as nat) + "}\n"@
}

/// The baseline file of the scale measurement of a size.
pub open spec fn scale_baseline_text(size: Seq<char>, hash: Seq<char>) -> Seq<char> {
    "{\"schema\":\"kobold-scale-baseline-v1\",\"size\":\""@ + size + "\",\"output_sha256\":\""@
        + hash + "\"}\n"@
}

/// Writes the baseline of the end-to-end benchmark.
pub fn bench_baseline(hash: &str) -> (text: String)
    ensures
        text@ == bench_baseline_text(hash@),
        text@ == "{\"schema\":\"kobold-bench2-baseline-v1\",\"decode_output_sha256\":\""@ + hash@
            + "\",\"record_len\":"@ + decimal(14) + "}\n"@,
{
    let mut out: String = String::from_str(
        "{\"schema\":\"kobold-bench2-baseline-v1\",\"decode_output_sha256\":\"",
    );
    out.append(hash);
    out.append("\",\"record_len\":");
    push_decimal(&mut out, RL as u128, 0);
    out.append("}\n");
    out
}

/// Writes the baseline of the scale measurement of a size.
pub fn scale_baseline(size: &str, hash: &str) -> (text: String)
    ensures
        text@ == scale_baseline_text(size@, hash@),
        text@ == "{\"schema\":\"kobold-scale-baseline-v1\",\"size\":\""@ + size@
            + "\",\"output_sha256\":\""@ + hash@ + "\"}\n"@,
{
    let mut out: String = String::from_str(
        "{\"schema\":\"kobold-scale-baseline-v1\",\"size\":\"",
    );
    out.append(size);
    out.append("\",\"output_sha256\":\"");
    out.append(hash);
    out.append("\"}\n");
    out
}

/// Whether a text holds no quote.
pub open spec fn unquoted(text: Seq<char>) -> bool {
    forall|i: int| 0 <= i < text.len() ==> #[trigger] text[i] != '"'
}

/// Whether, among the first `count` positions, none has the character `a` followed by `b`.
spec fn pair_absent(text: Seq<char>, a: char, b: char, count: nat) -> bool
    decreases count,
{
    count == 0 || pair_absent(text, a, b, (count - 1) as nat) && !(text[count - 1] == a
        && text[count as int] == b)
}

/// What the absence of a pair says of one position.
proof fn lemma_pair_absent(text: Seq<char>, a: char, b: char, count: nat, i: int)
    requires
        pair_absent(text, a, b, count),
        0 <= i < count,
    ensures
        !(text[i] == a && text[i + 1] == b),
    decreases count,
{
    if i < count - 1 {
        lemma_pair_absent(text, a, b, (count - 1) as nat, i);
    }
}

/// A needle that stands at `at` and nowhere before is found there.
proof fn lemma_found_at(hay: Seq<char>, needle: Seq<char>, from: int, at: int)
    requires
        0 <= from <= at,
        occurs_at(hay, needle, at),
        forall|j: int| from <= j < at ==> !occurs_at(hay, needle, j),
    ensures
        find_from(hay, needle, from) == Some(at),
{
    lemma_find_from(hay, needle, from);
}

/// A value between a mark and a quote is the text of the field that the mark introduces.
proof fn lemma_field_between(front: Seq<char>, key: Seq<char>, value: Seq<char>, back: Seq<char>)
    requires
        unquoted(value),
        back.len() > 0,
        back[0] == '"',
        forall|j: int|
            0 <= j < front.len() ==> !occurs_at(
                front + field_mark(key) + value + back,
                field_mark(key),
                j,
            ),
    ensures
        field_text(front + field_mark(key) + value + back, key) == Some(value),
{
    let mark = field_mark(key);
    let text = front + mark + value + back;
    let start: int = front.len() + mark.len() as int;
    let end: int = start + value.len();
    assert(text.subrange(front.len() as int, start) =~= mark);
    lemma_found_at(text, mark, 0, front.len() as int);
    let quote = seq!['"'];
    assert(text.subrange(end, end + 1) =~= quote);
    assert forall|j: int| start <= j < end implies !occurs_at(text, quote, j) by {
        if occurs_at(text, quote, j) {
            assert(text.subrange(j, j + 1)[0] == text[j]);
            assert(text[j] == value[j - start]);
        }
    }
    lemma_found_at(text, quote, start, end);
    assert(text.subrange(start, end) =~= value);
}

/// Reading a written baseline of the end-to-end benchmark gives back its hash, so the run that
/// established it is admitted when it is repeated.
pub proof fn law_bench_baseline_reads_back(hash: Seq<char>)
    requires
        unquoted(hash),
    ensures
        pinned(Some(bench_baseline_text(hash)), OUTPUT_HASH@) == Some(hash),
{
    let head = "{\"schema\":\"kobold-bench2-baseline-v1\",\"decode_output_sha256\":\""@;
    let key = OUTPUT_HASH@;
    reveal_strlit("{\"schema\":\"kobold-bench2-baseline-v1\",\"decode_output_sha256\":\"");
    reveal_strlit("decode_output_sha256");
    reveal_strlit("\",\"record_len\":");
    let mark = field_mark(key);
    let at = head.len() - mark.len();
    let front = head.take(at);
    assert(head =~= front + mark);
    let back = "\",\"record_len\":"@ + decimal(RL as nat) + "}\n"@;
    let text = front + mark + hash + back;
    assert(text =~= bench_baseline_text(hash));
    assert(pair_absent(head, '"', 'd', at as nat)) by {
        reveal_with_fuel(pair_absent, 64);
    }
    assert forall|j: int| 0 <= j < front.len() implies !occurs_at(text, mark, j) by {
        if occurs_at(text, mark, j) {
            lemma_pair_absent(head, '"', 'd', at as nat, j);
            assert(text.subrange(j, j + mark.len())[0] == text[j]);
            assert(text.subrange(j, j + mark.len())[1] == text[j + 1]);
            assert(text[j] == head[j] && text[j + 1] == head[j + 1]);
        }
    }
    lemma_field_between(front, key, hash, back);
}

/// A size as it stands in the baseline of the scale measurement: its quotes, a comma, and the quote
/// that opens the next name.
pub open spec fn framed_size(size: Seq<char>) -> Seq<char> {
    seq!['"'] + size + seq!['"', ',', '"']
}

/// The characters of the mark that introduces the hash of a scale baseline.
proof fn lemma_scale_mark()
    ensures
        field_mark(SCALE_HASH@) == seq![
            '"', 'o', 'u', 't', 'p', 'u', 't', '_', 's', 'h', 'a', '2', '5', '6', '"', ':', '"',
        ],
{
    reveal_strlit("output_sha256");
    assert(field_mark(SCALE_HASH@) =~= seq![
        '"', 'o', 'u', 't', 'p', 'u', 't', '_', 's', 'h', 'a', '2', '5', '6', '"', ':', '"',
    ]);
}

/// A mark that begins before the last quote of a framed size, whatever follows, ends before it.
proof fn lemma_mark_in_frame(size: Seq<char>, after: Seq<char>, j: int)
    requires
        0 <= j < framed_size(size).len() - 1,
        occurs_at(framed_size(size) + after, field_mark(SCALE_HASH@), j),
    ensures
        occurs_at(framed_size(size), field_mark(SCALE_HASH@), j),
        j + field_mark(SCALE_HASH@).len() < framed_size(size).len(),
{
    lemma_scale_mark();
    let frame = framed_size(size);
    let text = frame + after;
    let mark = field_mark(SCALE_HASH@);
    let window = text.subrange(j, j + mark.len());
    let end = frame.len() - 1;
    assert(text[end - 2] == '"' && text[end - 1] == ',');
    assert(window[0] == text[j]);
    if j + mark.len() >= frame.len() {
        let k = end - 2 - j;
        if j <= end - 2 {
            assert(window[k] == text[end - 2]);
            assert(window[k + 1] == text[end - 1]);
        }
        assert(false);
    }
    assert(frame.subrange(j, j + mark.len()) =~= window);
}

/// A hash field that a framed size holds is the first one of a text that holds none before; where
/// it holds none, none begins before its last quote.
proof fn lemma_frame_read_first(before: Seq<char>, size: Seq<char>, after: Seq<char>)
    requires
        forall|j: int|
            0 <= j < before.len() ==> !occurs_at(
                before + (framed_size(size) + after),
                field_mark(SCALE_HASH@),
                j,
            ),
    ensures
        ({
            let text = before + (framed_size(size) + after);
            match field_text(framed_size(size), SCALE_HASH@) {
                Some(other) => field_text(text, SCALE_HASH@) == Some(other),
                None => forall|j: int|
                    0 <= j < before.len() + framed_size(size).len() - 1 ==> !occurs_at(
                        text,
                        field_mark(SCALE_HASH@),
                        j,
                    ),
            }
        }),
{
    let frame = framed_size(size);
    let mark = field_mark(SCALE_HASH@);
    let text = before + (frame + after);
    let b = before.len() as int;
    assert forall|j: int| b <= j < b + frame.len() - 1 && occurs_at(text, mark, j) implies
        occurs_at(frame, mark, j - b) by {
        assert((frame + after).subrange(j - b, j - b + mark.len()) =~= text.subrange(
            j,
            j + mark.len(),
        ));
        lemma_mark_in_frame(size, after, j - b);
    }
    lemma_find_from(frame, mark, 0);
    if let Some(at) = find_from(frame, mark, 0) {
        let start = at + mark.len();
        assert(frame + Seq::<char>::empty() =~= frame);
        lemma_mark_in_frame(size, Seq::empty(), at);
        assert(text.subrange(b + at, b + start) =~= frame.subrange(at, start));
        lemma_found_at(text, mark, 0, b + at);
        let quote = seq!['"'];
        lemma_find_from(frame, quote, start);
        assert(occurs_at(frame, quote, frame.len() - 1)) by {
            assert(frame.subrange(frame.len() - 1, frame.len() as int) =~= quote);
        }
        let end = find_from(frame, quote, start)->0;
        assert(text.subrange(b + end, b + end + 1) =~= frame.subrange(end, end + 1));
        assert forall|j: int| b + start <= j < b + end implies !occurs_at(text, quote, j) by {
            assert(text.subrange(j, j + 1) =~= frame.subrange(j - b, j - b + 1));
            assert(!occurs_at(frame, quote, j - b));
        }
        lemma_found_at(text, quote, b + start, b + end);
        assert(text.subrange(b + start, b + end) =~= frame.subrange(start, end));
    }
}

/// What is read from a written baseline of the scale measurement, whatever its size: the hash,
/// unless the size itself holds a hash field.
pub proof fn law_scale_baseline_reads(size: Seq<char>, hash: Seq<char>)
    requires
        unquoted(hash),
    ensures
        pinned(Some(scale_baseline_text(size, hash)), SCALE_HASH@) == Some(
            match field_text(framed_size(size), SCALE_HASH@) {
                Some(other) => other,
                None => hash,
            },
        ),
{
    let head = "{\"schema\":\"kobold-scale-baseline-v1\",\"size\":\""@;
    let middle = "\",\"output_sha256\":\""@;
    let back = "\"}\n"@;
    reveal_strlit("{\"schema\":\"kobold-scale-baseline-v1\",\"size\":\"");
    reveal_strlit("\",\"output_sha256\":\"");
    reveal_strlit("\"}\n");
    lemma_scale_mark();
    let mark = field_mark(SCALE_HASH@);
    let last: int = head.len() - 1;
    let before = head.take(last);
    let after = middle.skip(3) + hash + back;
    let front = head + size + middle.take(2);
    let text = front + mark + hash + back;
    assert(middle =~= middle.take(2) + mark);
    assert(text =~= scale_baseline_text(size, hash));
    assert(text =~= before + (framed_size(size) + after));
    assert(pair_absent(head, '"', 'o', last as nat)) by {
        reveal_with_fuel(pair_absent, 64);
    }
    assert forall|j: int| 0 <= j < last implies !occurs_at(text, mark, j) by {
        if occurs_at(text, mark, j) {
            let window = text.subrange(j, j + mark.len());
            assert(window[0] == text[j]);
            assert(window[1] == text[j + 1]);
            lemma_pair_absent(head, '"', 'o', last as nat, j);
            assert(text[j] == head[j] && text[j + 1] == head[j + 1]);
        }
    }
    lemma_frame_read_first(before, size, after);
    if field_text(framed_size(size), SCALE_HASH@) is None {
        assert(front.len() == last + framed_size(size).len() - 1);
        lemma_field_between(front, SCALE_HASH@, hash, back);
    }
}

/// A size without a quote holds no hash field. The named sizes and the numbers of bytes are of
/// this kind.
pub proof fn law_plain_size_holds_no_hash(size: Seq<char>)
    requires
        unquoted(size),
    ensures
        field_text(framed_size(size), SCALE_HASH@) is None,
{
    lemma_scale_mark();
    let frame = framed_size(size);
    let mark = field_mark(SCALE_HASH@);
    let q = size.len() as int;
    lemma_find_from(frame, mark, 0);
    if let Some(j) = find_from(frame, mark, 0) {
        let window = frame.subrange(j, j + mark.len());
        assert(window[0] == frame[j]);
        assert(window[1] == frame[j + 1]);
        assert(frame[q + 1] == '"' && frame[q + 2] == ',');
        if j == 0 {
            if q < 13 {
                assert(window[1 + q] == frame[1 + q]);
            } else if q == 13 {
                assert(window[15] == frame[15]);
            } else {
                assert(window[14] == frame[14]);
                assert(frame[14] == size[13]);
            }
        } else if j <= q {
            assert(frame[j] == size[j - 1]);
        }
    }
}

/// Reading a written baseline of the scale measurement gives back its hash, so the run that
/// established it is admitted when it is repeated. Left out is a size that itself holds a hash
/// field with another hash, which is then found first.
pub proof fn law_scale_baseline_reads_back(size: Seq<char>, hash: Seq<char>)
    requires
        unquoted(hash),
        field_text(framed_size(size), SCALE_HASH@) matches Some(other) ==> other == hash,
    ensures
        pinned(Some(scale_baseline_text(size, hash)), SCALE_HASH@) == Some(hash),
{
    law_scale_baseline_reads(size, hash);
}

} // verus!
