use kobold_bench::receipt::{BenchReport, Host, Rates, ScaleReport, ScanReport};
use kobold_bench::stages::Stages;
use kobold_bench::text::audit_field;

fn host() -> Host {
    Host {
        cpu: "\"cpu\"".to_string(),
        ncpu: 4,
        arch: "\"x86_64\"".to_string(),
        profile: "\"release\"".to_string(),
    }
}

fn scan(wall_ms: u128, hash: &str) -> ScanReport {
    ScanReport {
        wall_ms,
        records_per_sec: "10".to_string(),
        bytes_per_sec: "290".to_string(),
        output_hash: hash.to_string(),
    }
}

fn scale(size: &str, rayon: bool, parallel: &str) -> String {
    ScaleReport {
        size: size.to_string(),
        target_bytes: 58_000,
        record_count: 2000,
        manifest: "m".to_string(),
        serial: scan(7, "s"),
        rayon,
        parallel: scan(3, parallel),
        posting_chain: "p".to_string(),
        peak_rss_kb: 5,
        temp_disk_bytes: 58_000,
        host: host(),
    }
    .render()
}

#[test]
fn bench_receipt_is_exact() {
    let report = BenchReport {
        output_hash: "h".to_string(),
        records: 50,
        bytes: 700,
        full: Rates { records_per_sec: "1".to_string(), us_per_record: "2".to_string() },
        mb_per_sec: "3".to_string(),
        decode_us: "4".to_string(),
        overhead_us: "5".to_string(),
        custody_us: "6".to_string(),
        stages: Stages { parse_ns: 7, record_ns: 9, aggregate_ns: 8 },
        record_pct: "37.5".to_string(),
        aggregate_pct: "33.3".to_string(),
        rayon: true,
        parallel: Rates { records_per_sec: "10".to_string(), us_per_record: "11".to_string() },
        speedup: "12".to_string(),
        host: host(),
    };
    let expected = "{\"schema\":\"kobold-bench2-receipt-v1\",\"court\":\"KOBOLD.BENCH.2 (+PERF.1)\",\"mode\":\"scalar\",\"parity_gated\":true,\"output_sha256\":\"h\",\"records\":50,\"bytes\":700,\"record_len\":14,\"full_pipeline\":{\"records_per_sec\":1,\"us_per_record\":2,\"mb_per_sec\":3},\"decode_only_us_per_record\":4,\"ingest_audit_overhead_us_per_record\":5,\"custody_us_per_record\":6,\"perf2_stage_profile\":{\"parse_ns\":7,\"per_record_ns\":9,\"aggregate_ns\":8,\"per_record_pct\":37.5,\"aggregate_pct\":33.3,\"bottleneck\":\"per_record\"},\"perf1_rayon\":{\"enabled\":true,\"parity_with_scalar\":true,\"records_per_sec\":10,\"us_per_record\":11,\"speedup\":12},\"corpus\":\"synthetic happy (DISPLAY+COMP-3+COMP+LEVEL-88) + POSTING.1/EXTRACT.PROFILE.1 custody; CORPUS.2 holds the hostile fixtures\",\"host\":{\"cpu\":\"cpu\",\"ncpu\":4,\"arch\":\"x86_64\",\"profile\":\"release\",\"rayon\":true,\"simd\":false},\"non_claims\":[\"no production performance claim\",\"no AWS performance claim\",\"no SIMD claim\",\"no deterministic-scheduling claim beyond identical artifacts\",\"no customer-workload representativeness\",\"no semantic change\"]}\n";
    assert_eq!(report.render(), expected);
    assert_eq!(audit_field(&report.render(), "output_sha256"), Some("h"));
}

#[test]
fn scale_receipt_is_exact() {
    let expected = "{\"schema\":\"kobold-scale-receipt-v1\",\"campaign\":\"KOBOLD.SCALE.1\",\"admitted\":true,\"corpus\":{\"kind\":\"synthetic_mixed_fixed_record\",\"target_size_bytes\":58000,\"record_count\":2000,\"record_len\":29,\"reconcile_block_records\":2000,\"manifest_sha256\":\"m\"},\"modes\":{\"scalar\":{\"wall_ms\":7,\"records_per_sec\":10,\"bytes_per_sec\":290,\"output_sha256\":\"s\"},\"rayon\":{\"enabled\":true,\"wall_ms\":3,\"records_per_sec\":10,\"bytes_per_sec\":290,\"output_sha256\":\"s\",\"matches_scalar\":true}},\"custody\":{\"posting_last_chain_hash\":\"p\"},\"resources\":{\"peak_rss_kb\":5,\"temp_disk_bytes\":58000},\"host\":{\"cpu\":\"cpu\",\"arch\":\"x86_64\",\"profile\":\"release\"},\"non_claims\":[\"NEG.SCALE.CUSTOMER_WORKLOAD\",\"NEG.SCALE.PRODUCTION_SLA\",\"NEG.SCALE.AWS_COST\",\"NEG.SCALE.MAINFRAME_EQUIVALENCE\",\"NEG.SCALE.UNIVERSAL_THROUGHPUT\",\"NEG.SCALE.RANDOM_BYTES_NOT_BUSINESS_CORPUS\"]}\n";
    assert_eq!(scale("1g", true, "s"), expected);
}

#[test]
fn only_one_gigabyte_is_admitted() {
    assert!(scale("1g", true, "s").contains("\"admitted\":true"));
    assert!(scale("10g", true, "s").contains("\"admitted\":false"));
}

#[test]
fn scale_receipt_states_whether_the_scans_match() {
    assert!(scale("1g", true, "s").contains("\"matches_scalar\":true"));
    assert!(scale("1g", true, "t").contains("\"matches_scalar\":false"));
    assert!(scale("1g", false, "s").contains("\"matches_scalar\":false"));
}
