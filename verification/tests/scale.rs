use kobold_bench::scale::{
    block_digest, chain_step, cut_blocks, record_count, target_bytes, template, Corpus, Scan,
    RECON_RECORDS, RECORD_LEN, SEED, WAVE,
};
use kobold_bench::text::hex;
use kobold_bench::Lcg;

fn records(count: usize) -> Vec<Vec<u8>> {
    let mut corpus = Corpus::new();
    (0..count).map(|_| corpus.next_record()).collect()
}

#[test]
fn template_is_exact() {
    let mut rng = Lcg(SEED);
    let first = template(&mut rng);
    assert_eq!(hex(&first), "303030303030303043555354373836373838457020735c052101610a41");
    assert_eq!(first.len(), RECORD_LEN);
    assert_eq!(template(&mut rng).len(), RECORD_LEN);
}

#[test]
fn records_repeat_templates_with_new_numbers() {
    let all = records(1002);
    assert_eq!(hex(&all[1001]), "303030303130303143555354393534383739421970097c20b502c47443");
    assert_eq!(all[1001][8..], all[1][8..]);
    assert_eq!(&all[1][..8], b"00000001");
}

#[test]
fn chain_folds_records_in_order() {
    let mut corpus = Corpus::new();
    assert_eq!(corpus.posting_chain(), "");
    let first = corpus.next_record();
    assert_eq!(
        corpus.posting_chain(),
        "3aaafdbca62de33269d35d28b1afee1f89a0e2c37de9386baf9144b98aae1d83"
    );
    corpus.next_record();
    corpus.next_record();
    assert_eq!(
        corpus.posting_chain(),
        "e0df9e591f73a38a204dc6ed51675e5f439c324f972ace859163e208ef456ef5"
    );
    let link = chain_step(&None, &first);
    assert_eq!(hex(&link), "3aaafdbca62de33269d35d28b1afee1f89a0e2c37de9386baf9144b98aae1d83");
    assert_ne!(chain_step(&Some(link), &first), link);
}

#[test]
fn manifest_declares_the_corpus() {
    let corpus = Corpus::new();
    assert_eq!(
        corpus.manifest(2000),
        "a75cf904d4bae4846fff1eae5bb3229e6e02a8955008036f5c13d824937b18b6"
    );
    assert_ne!(corpus.manifest(2000), corpus.manifest(4000));
}

#[test]
fn sizes_are_named_or_counted() {
    assert_eq!(target_bytes("100m"), 100 << 20);
    assert_eq!(target_bytes("1g"), 1 << 30);
    assert_eq!(target_bytes("5g"), 5u64 << 30);
    assert_eq!(target_bytes("10g"), 10u64 << 30);
    assert_eq!(target_bytes("58000"), 58_000);
    assert_eq!(target_bytes("0"), 0);
    assert_eq!(target_bytes("2g"), 100 << 20);
    assert_eq!(target_bytes(""), 100 << 20);
    assert_eq!(target_bytes("-5"), 100 << 20);
}

#[test]
fn record_count_is_whole_blocks() {
    let block = (RECON_RECORDS * RECORD_LEN) as u64;
    assert_eq!(record_count(0), 0);
    assert_eq!(record_count(block - 1), 0);
    assert_eq!(record_count(block), RECON_RECORDS);
    assert_eq!(record_count(3 * block + 5), 3 * RECON_RECORDS);
    assert_eq!(record_count(100 << 20), 3_614_000);
    for target in [block + 17, 1 << 30] {
        let bytes = (record_count(target) * RECORD_LEN) as u64;
        assert!(bytes <= target && target - bytes < block + RECORD_LEN as u64);
    }
}

#[test]
fn block_digest_is_exact() {
    let block: Vec<u8> = records(2).concat();
    assert_eq!(
        hex(&block_digest(&block, RECORD_LEN)),
        "bb617a0c1101f6d3c4bc4e0d2a5aebf5d6639a34bd68948bd04de5a640034bd7"
    );
}

#[test]
fn scan_is_the_same_serial_and_parallel_in_any_waves() {
    let data: Vec<u8> = records(4).concat();
    let blocks = cut_blocks(&data, 2 * RECORD_LEN);
    assert_eq!(blocks.len(), 2);
    let expected = "1c277458b478206c3aef11989099d236780b2a12ba7ac14fad74c8d60cc7db57";
    for parallel in [false, true] {
        let mut scan = Scan::new(RECORD_LEN);
        assert!(!scan.absorb(&blocks, parallel));
        assert_eq!(scan.finish(), expected);
        let mut split = Scan::new(RECORD_LEN);
        for block in &blocks {
            split.absorb(&vec![block.clone()], parallel);
        }
        assert_eq!(split.finish(), expected);
    }
}

#[test]
fn scan_of_nothing_is_the_digest_of_nothing() {
    let mut scan = Scan::new(RECORD_LEN);
    assert!(!scan.absorb(&vec![], true));
    assert_eq!(
        scan.finish(),
        "e3b0c44298fc1c149afbf4c8996fb92427ae41e4649b934ca495991b7852b855"
    );
}

#[test]
fn parallel_digests_keep_the_order_of_a_full_wave() {
    let data: Vec<u8> = records(WAVE).concat();
    let blocks = cut_blocks(&data, RECORD_LEN);
    let mut serial = Scan::new(RECORD_LEN);
    let mut parallel = Scan::new(RECORD_LEN);
    assert!(serial.absorb(&blocks, false));
    assert!(parallel.absorb(&blocks, true));
    assert_eq!(serial.finish(), parallel.finish());
}

#[test]
fn cutting_keeps_every_byte() {
    let data: Vec<u8> = (0..10u8).collect();
    assert_eq!(cut_blocks(&data, 4), vec![vec![0, 1, 2, 3], vec![4, 5, 6, 7], vec![8, 9]]);
    assert_eq!(cut_blocks(&data, 5).len(), 2);
    assert_eq!(cut_blocks(&data, 100), vec![data.clone()]);
    assert!(cut_blocks(&[], 4).is_empty());
    let mut joined = cut_blocks(&data[..8], 4);
    joined.extend(cut_blocks(&data[8..], 4));
    assert_eq!(joined, cut_blocks(&data, 4));
}

#[test]
fn corpus_of_a_block_is_one_whole_block() {
    let data: Vec<u8> = records(RECON_RECORDS).concat();
    let block = RECON_RECORDS * RECORD_LEN;
    assert_eq!(data.len(), block);
    assert_eq!(cut_blocks(&data, block).len(), 1);
}
