use kobold_bench::baseline::{
    bench_baseline, judge, judge_runs, scale_baseline, Admission, SCALE_HASH,
};
use kobold_bench::recon::OUTPUT_HASH;
use kobold_bench::text::audit_field;

const HASH: &str = "38acdd92091bb5519e94ad5035f33500e22f2df556d3f161e5d6fb373b4a8847";

#[test]
fn baselines_have_their_exact_text() {
    assert_eq!(
        bench_baseline("ab"),
        "{\"schema\":\"kobold-bench2-baseline-v1\",\"decode_output_sha256\":\"ab\",\"record_len\":14}\n"
    );
    assert_eq!(
        scale_baseline("1g", "cd"),
        "{\"schema\":\"kobold-scale-baseline-v1\",\"size\":\"1g\",\"output_sha256\":\"cd\"}\n"
    );
}

#[test]
fn written_baselines_read_back() {
    assert_eq!(audit_field(&bench_baseline(HASH), OUTPUT_HASH), Some(HASH));
    for size in ["100m", "output_sha256", "o", "", "a\"b", "\"output_sha256\":5", "\""] {
        assert_eq!(audit_field(&scale_baseline(size, HASH), SCALE_HASH), Some(HASH));
    }
}

#[test]
fn a_size_that_holds_a_hash_field_is_read_first() {
    let size = "1g\",\"output_sha256\":\"other";
    assert_eq!(audit_field(&scale_baseline(size, HASH), SCALE_HASH), Some("other"));
    let ends_in_mark = "\"output_sha256\":";
    assert_eq!(audit_field(&scale_baseline(ends_in_mark, HASH), SCALE_HASH), Some(","));
    let same = format!("\"output_sha256\":\"{HASH}");
    assert_eq!(audit_field(&scale_baseline(&same, HASH), SCALE_HASH), Some(HASH));
}

#[test]
fn a_first_hash_establishes_without_a_baseline() {
    assert!(matches!(judge(&None, OUTPUT_HASH, HASH), Admission::Established));
    let other = Some(String::from("{\"something\":\"else\"}"));
    assert!(matches!(judge(&other, OUTPUT_HASH, HASH), Admission::Established));
}

#[test]
fn baseline_admits_the_pinned_hash_only() {
    let file = Some(bench_baseline(HASH));
    assert!(matches!(judge(&file, OUTPUT_HASH, HASH), Admission::Matches));
    match judge(&file, OUTPUT_HASH, "0000") {
        Admission::Refused { baseline } => assert_eq!(baseline, HASH),
        _ => panic!("a hash other than the pinned one was admitted"),
    }
    assert!(matches!(judge(&file, OUTPUT_HASH, ""), Admission::Refused { .. }));
}

#[test]
fn diverging_runs_are_refused_before_the_baseline() {
    let file = Some(scale_baseline("1g", HASH));
    assert!(matches!(judge_runs(&file, SCALE_HASH, HASH, "x"), Admission::Diverged));
    assert!(matches!(judge_runs(&None, SCALE_HASH, HASH, "x"), Admission::Diverged));
    assert!(matches!(judge_runs(&file, SCALE_HASH, HASH, HASH), Admission::Matches));
    assert!(matches!(judge_runs(&file, SCALE_HASH, "x", "x"), Admission::Refused { .. }));
    assert!(matches!(judge_runs(&None, SCALE_HASH, "x", "x"), Admission::Established));
}
