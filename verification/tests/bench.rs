use kobold_bench::bench::{corpus_hash, corpus_hash_parallel, gen, REF_N, RL};
use kobold_bench::recon::output_hash;
use kobold_bench::text::hex;

#[test]
fn corpus_has_exact_records() {
    assert_eq!(
        hex(&gen(2)),
        "31303030303041866018654c08bc31303030303143812474993c262e"
    );
    assert!(gen(0).is_empty());
}

#[test]
fn corpus_is_fixed_length_and_prefix_stable() {
    let data = gen(REF_N);
    assert_eq!(data.len(), REF_N * RL);
    assert_eq!(&data[..2 * RL], &gen(2)[..]);
    assert_eq!(&data[999 * RL..999 * RL + 7], b"100999A");
}

#[test]
fn identifier_keeps_six_digits_when_the_count_passes_a_million() {
    assert_eq!(gen(900_000).len(), 900_000 * RL);
    let data = gen(900_001);
    assert_eq!(data.len(), 900_001 * RL);
    assert_eq!(&data[899_999 * RL..899_999 * RL + 7], b"999999C");
    assert_eq!(&data[900_000 * RL..900_000 * RL + 7], b"000000A");
}

#[test]
fn decoded_hash_is_exact() {
    assert_eq!(
        corpus_hash(&gen(2)),
        "99e2fe094dcc242a7a4e8432bc2b5f296bdbb7df8954ed5f57a53a08f2d3a3fe"
    );
    assert_eq!(
        corpus_hash(&gen(REF_N)),
        "38acdd92091bb5519e94ad5035f33500e22f2df556d3f161e5d6fb373b4a8847"
    );
}

#[test]
fn parallel_hash_is_the_serial_hash() {
    for n in [0, 1, 17, 250] {
        let data = gen(n);
        assert_eq!(corpus_hash_parallel(&data), corpus_hash(&data));
    }
}

#[test]
fn output_hash_is_empty_without_the_field() {
    assert_eq!(output_hash("{\"decode_output_sha256\":\"abc\"}"), "abc");
    assert_eq!(output_hash("{}"), "");
}
