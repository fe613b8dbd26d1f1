//! The receipts of the measurements.

use crate::bench::RL;
use crate::scale::{RECON_RECORDS, RECORD_LEN};
use crate::stages::{stage_name, Stages};
use crate::text::{decimal, push_decimal, same_text};
use vstd::prelude::*;
use vstd::string::StringExecFns;

verus! {

/// The text of a truth value.
pub open spec fn bool_text(value: bool) -> Seq<char> {
    if value {
        "true"@
    } else {
        "false"@
    }
}

/// Appends a truth value.
fn push_bool(out: &mut String, value: bool)
    ensures
        final(out)@ == old(out)@ + bool_text(value),
        value ==> final(out)@ == old(out)@ + "true"@,
        !value ==> final(out)@ == old(out)@ + "false"@,
{
    if value {
        out.append("true");
    } else {
        out.append("false");
    }
}

/// Appends a number in decimal.
fn push_number(out: &mut String, n: u128)
    ensures
        final(out)@ == old(out)@ + decimal(n as nat),
{
    push_decimal(out, n, 0);
}

/// The rates of one mode of running, as they are printed.
pub struct Rates {
    /// Records for each second.
    pub records_per_sec: String,
    /// Microseconds for each record.
    pub us_per_record: String,
}

/// What is known of the machine that a measurement ran on. The texts are quoted.
pub struct Host {
    /// The model of the processor.
    pub cpu: String,
    /// The number of processors.
    pub ncpu: usize,
    /// The architecture.
    pub arch: String,
    /// The build profile.
    pub profile: String,
}

/// The outcome of the end-to-end benchmark.
pub struct BenchReport {
    /// The hash of the decoded reference corpus.
    pub output_hash: String,
    /// The number of records measured.
    pub records: usize,
    /// The number of bytes measured.
    pub bytes: usize,
    /// The rates of the full pipeline.
    pub full: Rates,
    /// The megabytes for each second of the full pipeline.
    pub mb_per_sec: String,
    /// The microseconds for each record of decoding alone.
    pub decode_us: String,
    /// The microseconds for each record that the rest of the pipeline takes.
    pub overhead_us: String,
    /// The microseconds for each record of the custody manifests.
    pub custody_us: String,
    /// The stage profile.
    pub stages: Stages,
    /// The share of the decoding of records, in percent.
    pub record_pct: String,
    /// The share of the aggregation, in percent.
    pub aggregate_pct: String,
    /// Whether the parallel mode was measured, which is admitted on equal output only.
    pub rayon: bool,
    /// The rates of the parallel mode.
    pub parallel: Rates,
    /// How many times as fast the parallel mode is.
    pub speedup: String,
    /// The machine.
    pub host: Host,
}

/// The first part of a benchmark's receipt: what was measured, and the rates.
pub open spec fn bench_rates_text(r: BenchReport) -> Seq<char> {
    "{\"schema\":\"kobold-bench2-receipt-v1\",\"court\":\"KOBOLD.BENCH.2 (+PERF.1)\",\"mode\":\"scalar\",\"parity_gated\":true,\"output_sha256\":\""@
        + r.output_hash@ + "\",\"records\":"@ + decimal(r.records as nat) + ",\"bytes\":"@
        + decimal(r.bytes as nat) + ",\"record_len\":"@ + decimal(RL as nat)
        + ",\"full_pipeline\":{\"records_per_sec\":"@ + r.full.records_per_sec@
        + ",\"us_per_record\":"@ + r.full.us_per_record@ + ",\"mb_per_sec\":"@ + r.mb_per_sec@
        + "},\"decode_only_us_per_record\":"@ + r.decode_us@
        + ",\"ingest_audit_overhead_us_per_record\":"@ + r.overhead_us@
        + ",\"custody_us_per_record\":"@ + r.custody_us@
}

/// The second part of a benchmark's receipt: the stage profile and the parallel mode.
pub open spec fn bench_profile_text(r: BenchReport) -> Seq<char> {
    ",\"perf2_stage_profile\":{\"parse_ns\":"@ + decimal(r.stages.parse_ns as nat)
        + ",\"per_record_ns\":"@ + decimal(r.stages.record_ns as nat) + ",\"aggregate_ns\":"@
        + decimal(r.stages.aggregate_ns as nat) + ",\"per_record_pct\":"@ + r.record_pct@
        + ",\"aggregate_pct\":"@ + r.aggregate_pct@ + ",\"bottleneck\":\""@ + stage_name(
        r.stages.longest(),
    ) + "\"},\"perf1_rayon\":{\"enabled\":"@ + bool_text(r.rayon) + ",\"parity_with_scalar\":"@
        + bool_text(r.rayon) + ",\"records_per_sec\":"@ + r.parallel.records_per_sec@
        + ",\"us_per_record\":"@ + r.parallel.us_per_record@ + ",\"speedup\":"@ + r.speedup@
}

/// The last part of a benchmark's receipt: the corpus, the machine, and what is not claimed.
pub open spec fn bench_host_text(r: BenchReport) -> Seq<char> {
    "},\"corpus\":\"synthetic happy (DISPLAY+COMP-3+COMP+LEVEL-88) + POSTING.1/EXTRACT.PROFILE.1 custody; CORPUS.2 holds the hostile fixtures\",\"host\":{\"cpu\":"@
        + r.host.cpu@ + ",\"ncpu\":"@ + decimal(r.host.ncpu as nat) + ",\"arch\":"@ + r.host.arch@
        + ",\"profile\":"@ + r.host.profile@ + ",\"rayon\":"@ + bool_text(r.rayon)
        + ",\"simd\":false},\"non_claims\":[\"no production performance claim\",\"no AWS performance claim\",\"no SIMD claim\",\"no deterministic-scheduling claim beyond identical artifacts\",\"no customer-workload representativeness\",\"no semantic change\"]}\n"@
}

impl BenchReport {
    /// The receipt of the benchmark.
    pub fn render(&self) -> (text: String)
        ensures
            text@ == bench_rates_text(*self) + bench_profile_text(*self) + bench_host_text(*self),
            text@ == (
                "{\"schema\":\"kobold-bench2-receipt-v1\",\"court\":\"KOBOLD.BENCH.2 (+PERF.1)\",\"mode\":\"scalar\",\"parity_gated\":true,\"output_sha256\":\""@
                    + self.output_hash@
                    + "\",\"records\":"@
                    + decimal(self.records as nat)
                    + ",\"bytes\":"@
                    + decimal(self.bytes as nat)
                    + ",\"record_len\":"@
                    + decimal(RL as nat)
                    + ",\"full_pipeline\":{\"records_per_sec\":"@
                    + self.full.records_per_sec@
                    + ",\"us_per_record\":"@
                    + self.full.us_per_record@
                    + ",\"mb_per_sec\":"@
                    + self.mb_per_sec@
                    + "},\"decode_only_us_per_record\":"@
                    + self.decode_us@
                    + ",\"ingest_audit_overhead_us_per_record\":"@
                    + self.overhead_us@
                    + ",\"custody_us_per_record\":"@
                    + self.custody_us@
            ) + (
                ",\"perf2_stage_profile\":{\"parse_ns\":"@
                    + decimal(self.stages.parse_ns as nat)
                    + ",\"per_record_ns\":"@
                    + decimal(self.stages.record_ns as nat)
                    + ",\"aggregate_ns\":"@
                    + decimal(self.stages.aggregate_ns as nat)
                    + ",\"per_record_pct\":"@
                    + self.record_pct@
                    + ",\"aggregate_pct\":"@
                    + self.aggregate_pct@
                    + ",\"bottleneck\":\""@
                    + stage_name(self.stages.longest())
                    + "\"},\"perf1_rayon\":{\"enabled\":"@
                    + bool_text(self.rayon)
                    + ",\"parity_with_scalar\":"@
                    + bool_text(self.rayon)
                    + ",\"records_per_sec\":"@
                    + self.parallel.records_per_sec@
                    + ",\"us_per_record\":"@
                    + self.parallel.us_per_record@
                    + ",\"speedup\":"@
                    + self.speedup@
            ) + (
                "},\"corpus\":\"synthetic happy (DISPLAY+COMP-3+COMP+LEVEL-88) + POSTING.1/EXTRACT.PROFILE.1 custody; CORPUS.2 holds the hostile fixtures\",\"host\":{\"cpu\":"@
                    + self.host.cpu@
                    + ",\"ncpu\":"@
                    + decimal(self.host.ncpu as nat)
                    + ",\"arch\":"@
                    + self.host.arch@
                    + ",\"profile\":"@
                    + self.host.profile@
                    + ",\"rayon\":"@
                    + bool_text(self.rayon)
                    + ",\"simd\":false},\"non_claims\":[\"no production performance claim\",\"no AWS performance claim\",\"no SIMD claim\",\"no deterministic-scheduling claim beyond identical artifacts\",\"no customer-workload representativeness\",\"no semantic change\"]}\n"@
            ),
    {
        let mut out: String = self.render_rates();
        let profile: String = self.render_profile();
        out.append(profile.as_str());
        let host: String = self.render_host();
        out.append(host.as_str());
        out
    }

    /// The first part of the receipt.
    fn render_rates(&self) -> (text: String)
        ensures
            text@ == bench_rates_text(*self),
    {
        let mut out: String = String::from_str(
            "{\"schema\":\"kobold-bench2-receipt-v1\",\"court\":\"KOBOLD.BENCH.2 (+PERF.1)\",\"mode\":\"scalar\",\"parity_gated\":true,\"output_sha256\":\"",
        );
        out.append(self.output_hash.as_str());
        out.append("\",\"records\":");
        push_number(&mut out, self.records as u128);
        out.append(",\"bytes\":");
        push_number(&mut out, self.bytes as u128);
        out.append(",\"record_len\":");
        push_number(&mut out, RL as u128);
        out.append(",\"full_pipeline\":{\"records_per_sec\":");
        out.append(self.full.records_per_sec.as_str());
        out.append(",\"us_per_record\":");
        out.append(self.full.us_per_record.as_str());
        out.append(",\"mb_per_sec\":");
        out.append(self.mb_per_sec.as_str());
        out.append("},\"decode_only_us_per_record\":");
        out.append(self.decode_us.as_str());
        out.append(",\"ingest_audit_overhead_us_per_record\":");
        out.append(self.overhead_us.as_str());
        out.append(",\"custody_us_per_record\":");
        out.append(self.custody_us.as_str());
        out
    }

    /// The second part of the receipt.
    fn render_profile(&self) -> (text: String)
        ensures
            text@ == bench_profile_text(*self),
    {
        let mut out: String = String::from_str(",\"perf2_stage_profile\":{\"parse_ns\":");
        push_number(&mut out, self.stages.parse_ns);
        out.append(",\"per_record_ns\":");
        push_number(&mut out, self.stages.record_ns);
        out.append(",\"aggregate_ns\":");
        push_number(&mut out, self.stages.aggregate_ns);
        out.append(",\"per_record_pct\":");
        out.append(self.record_pct.as_str());
        out.append(",\"aggregate_pct\":");
        out.append(self.aggregate_pct.as_str());
        out.append(",\"bottleneck\":\"");
        out.append(self.stages.bottleneck().name());
        out.append("\"},\"perf1_rayon\":{\"enabled\":");
        push_bool(&mut out, self.rayon);
        out.append(",\"parity_with_scalar\":");
        push_bool(&mut out, self.rayon);
        out.append(",\"records_per_sec\":");
        out.append(self.parallel.records_per_sec.as_str());
        out.append(",\"us_per_record\":");
        out.append(self.parallel.us_per_record.as_str());
        out.append(",\"speedup\":");
        out.append(self.speedup.as_str());
        out
    }

    /// The last part of the receipt.
    fn render_host(&self) -> (text: String)
        ensures
            text@ == bench_host_text(*self),
    {
        let mut out: String = String::from_str(
            "},\"corpus\":\"synthetic happy (DISPLAY+COMP-3+COMP+LEVEL-88) + POSTING.1/EXTRACT.PROFILE.1 custody; CORPUS.2 holds the hostile fixtures\",\"host\":{\"cpu\":",
        );
        out.append(self.host.cpu.as_str());
        out.append(",\"ncpu\":");
        push_number(&mut out, self.host.ncpu as u128);
        out.append(",\"arch\":");
        out.append(self.host.arch.as_str());
        out.append(",\"profile\":");
        out.append(self.host.profile.as_str());
        out.append(",\"rayon\":");
        push_bool(&mut out, self.rayon);
        out.append(
            ",\"simd\":false},\"non_claims\":[\"no production performance claim\",\"no AWS performance claim\",\"no SIMD claim\",\"no deterministic-scheduling claim beyond identical artifacts\",\"no customer-workload representativeness\",\"no semantic change\"]}\n",
        );
        out
    }
}

/// The outcome of scanning a corpus in one mode.
pub struct ScanReport {
    /// The time that the scan took, in milliseconds.
    pub wall_ms: u128,
    /// Records for each second, as they are printed.
    pub records_per_sec: String,
    /// Bytes for each second, as they are printed.
    pub bytes_per_sec: String,
    /// The hash of the scan.
    pub output_hash: String,
}

/// The outcome of the scale measurement.
pub struct ScaleReport {
    /// The size that was asked for.
    pub size: String,
    /// That size in bytes.
    pub target_bytes: u64,
    /// The number of records of the corpus.
    pub record_count: usize,
    /// The manifest of the corpus.
    pub manifest: String,
    /// The serial scan.
    pub serial: ScanReport,
    /// Whether the parallel mode was measured.
    pub rayon: bool,
    /// The parallel scan.
    pub parallel: ScanReport,
    /// The last digest of the hash chain.
    pub posting_chain: String,
    /// The peak of the resident memory, in kilobytes.
    pub peak_rss_kb: u64,
    /// The bytes of the temporary file.
    pub temp_disk_bytes: u64,
    /// The machine.
    pub host: Host,
}

/// The first part of a scale receipt: whether it is admitted, and the corpus. Only the measurement
/// of one gigabyte is.
pub open spec fn scale_corpus_text(r: ScaleReport) -> Seq<char> {
    "{\"schema\":\"kobold-scale-receipt-v1\",\"campaign\":\"KOBOLD.SCALE.1\",\"admitted\":"@ + bool_text(
        r.size@ == "1g"@,
    ) + ",\"corpus\":{\"kind\":\"synthetic_mixed_fixed_record\",\"target_size_bytes\":"@ + decimal(
        r.target_bytes as nat,
    ) + ",\"record_count\":"@ + decimal(r.record_count as nat) + ",\"record_len\":"@ + decimal(
        RECORD_LEN as nat,
    ) + ",\"reconcile_block_records\":"@ + decimal(RECON_RECORDS as nat)
        + ",\"manifest_sha256\":\""@ + r.manifest@ + "\"},"@
}

/// The second part of a scale receipt: the two scans. The parallel one matches where it was made
/// and gave the same hash.
pub open spec fn scale_modes_text(r: ScaleReport) -> Seq<char> {
    "\"modes\":{\"scalar\":{\"wall_ms\":"@ + decimal(r.serial.wall_ms as nat)
        + ",\"records_per_sec\":"@ + r.serial.records_per_sec@ + ",\"bytes_per_sec\":"@
        + r.serial.bytes_per_sec@ + ",\"output_sha256\":\""@ + r.serial.output_hash@
        + "\"},\"rayon\":{\"enabled\":"@ + bool_text(r.rayon) + ",\"wall_ms\":"@ + decimal(
        r.parallel.wall_ms as nat,
    ) + ",\"records_per_sec\":"@ + r.parallel.records_per_sec@ + ",\"bytes_per_sec\":"@
        + r.parallel.bytes_per_sec@ + ",\"output_sha256\":\""@ + r.parallel.output_hash@
        + "\",\"matches_scalar\":"@ + bool_text(
        r.rayon && r.parallel.output_hash@ == r.serial.output_hash@,
    )
}

/// The last part of a scale receipt: custody, resources, the machine, and what is not claimed.
pub open spec fn scale_host_text(r: ScaleReport) -> Seq<char> {
    "}},\"custody\":{\"posting_last_chain_hash\":\""@ + r.posting_chain@
        + "\"},\"resources\":{\"peak_rss_kb\":"@ + decimal(r.peak_rss_kb as nat)
        + ",\"temp_disk_bytes\":"@ + decimal(r.temp_disk_bytes as nat) + "},\"host\":{\"cpu\":"@
        + r.host.cpu@ + ",\"arch\":"@ + r.host.arch@ + ",\"profile\":"@ + r.host.profile@
        + "},\"non_claims\":[\"NEG.SCALE.CUSTOMER_WORKLOAD\",\"NEG.SCALE.PRODUCTION_SLA\",\"NEG.SCALE.AWS_COST\",\"NEG.SCALE.MAINFRAME_EQUIVALENCE\",\"NEG.SCALE.UNIVERSAL_THROUGHPUT\",\"NEG.SCALE.RANDOM_BYTES_NOT_BUSINESS_CORPUS\"]}\n"@
}

impl ScaleReport {
    /// The receipt of the scale measurement.
    pub fn render(&self) -> (text: String)
        ensures
            text@ == scale_corpus_text(*self) + scale_modes_text(*self) + scale_host_text(*self),
            text@ == (
                "{\"schema\":\"kobold-scale-receipt-v1\",\"campaign\":\"KOBOLD.SCALE.1\",\"admitted\":"@
                    + bool_text(self.size@ == "1g"@)
                    + ",\"corpus\":{\"kind\":\"synthetic_mixed_fixed_record\",\"target_size_bytes\":"@
                    + decimal(self.target_bytes as nat)
                    + ",\"record_count\":"@
                    + decimal(self.record_count as nat)
                    + ",\"record_len\":"@
                    + decimal(RECORD_LEN as nat)
                    + ",\"reconcile_block_records\":"@
                    + decimal(RECON_RECORDS as nat)
                    + ",\"manifest_sha256\":\""@
                    + self.manifest@
                    + "\"},"@
            ) + (
                "\"modes\":{\"scalar\":{\"wall_ms\":"@
                    + decimal(self.serial.wall_ms as nat)
                    + ",\"records_per_sec\":"@
                    + self.serial.records_per_sec@
                    + ",\"bytes_per_sec\":"@
                    + self.serial.bytes_per_sec@
                    + ",\"output_sha256\":\""@
                    + self.serial.output_hash@
                    + "\"},\"rayon\":{\"enabled\":"@
                    + bool_text(self.rayon)
                    + ",\"wall_ms\":"@
                    + decimal(self.parallel.wall_ms as nat)
                    + ",\"records_per_sec\":"@
                    + self.parallel.records_per_sec@
                    + ",\"bytes_per_sec\":"@
                    + self.parallel.bytes_per_sec@
                    + ",\"output_sha256\":\""@
                    + self.parallel.output_hash@
                    + "\",\"matches_scalar\":"@
                    + bool_text(self.rayon && self.parallel.output_hash@ == self.serial.output_hash@)
            ) + (
                "}},\"custody\":{\"posting_last_chain_hash\":\""@
                    + self.posting_chain@
                    + "\"},\"resources\":{\"peak_rss_kb\":"@
                    + decimal(self.peak_rss_kb as nat)
                    + ",\"temp_disk_bytes\":"@
                    + decimal(self.temp_disk_bytes as nat)
                    + "},\"host\":{\"cpu\":"@
                    + self.host.cpu@
                    + ",\"arch\":"@
                    + self.host.arch@
                    + ",\"profile\":"@
                    + self.host.profile@
                    + "},\"non_claims\":[\"NEG.SCALE.CUSTOMER_WORKLOAD\",\"NEG.SCALE.PRODUCTION_SLA\",\"NEG.SCALE.AWS_COST\",\"NEG.SCALE.MAINFRAME_EQUIVALENCE\",\"NEG.SCALE.UNIVERSAL_THROUGHPUT\",\"NEG.SCALE.RANDOM_BYTES_NOT_BUSINESS_CORPUS\"]}\n"@
            ),
    {
        let mut out: String = self.render_corpus();
        let modes: String = self.render_modes();
        out.append(modes.as_str());
        let host: String = self.render_host();
        out.append(host.as_str());
        out
    }

    /// The first part of the receipt.
    fn render_corpus(&self) -> (text: String)
        ensures
            text@ == scale_corpus_text(*self),
    {
        let mut out: String = String::from_str(
            "{\"schema\":\"kobold-scale-receipt-v1\",\"campaign\":\"KOBOLD.SCALE.1\",\"admitted\":",
        );
        push_bool(&mut out, same_text(self.size.as_str(), "1g"));
        out.append(
            ",\"corpus\":{\"kind\":\"synthetic_mixed_fixed_record\",\"target_size_bytes\":",
        );
        push_number(&mut out, self.target_bytes as u128);
        out.append(",\"record_count\":");
        push_number(&mut out, self.record_count as u128);
        out.append(",\"record_len\":");
        push_number(&mut out, RECORD_LEN as u128);
        out.append(",\"reconcile_block_records\":");
        push_number(&mut out, RECON_RECORDS as u128);
        out.append(",\"manifest_sha256\":\"");
        out.append(self.manifest.as_str());
        out.append("\"},");
        out
    }

    /// The second part of the receipt.
    fn render_modes(&self) -> (text: String)
        ensures
            text@ == scale_modes_text(*self),
    {
        let mut out: String = String::from_str("\"modes\":{\"scalar\":{\"wall_ms\":");
        push_number(&mut out, self.serial.wall_ms);
        out.append(",\"records_per_sec\":");
        out.append(self.serial.records_per_sec.as_str());
        out.append(",\"bytes_per_sec\":");
        out.append(self.serial.bytes_per_sec.as_str());
        out.append(",\"output_sha256\":\"");
        out.append(self.serial.output_hash.as_str());
        out.append("\"},\"rayon\":{\"enabled\":");
        push_bool(&mut out, self.rayon);
        out.append(",\"wall_ms\":");
        push_number(&mut out, self.parallel.wall_ms);
        out.append(",\"records_per_sec\":");
        out.append(self.parallel.records_per_sec.as_str());
        out.append(",\"bytes_per_sec\":");
        out.append(self.parallel.bytes_per_sec.as_str());
        out.append(",\"output_sha256\":\"");
        out.append(self.parallel.output_hash.as_str());
        out.append("\",\"matches_scalar\":");
        let matches_scalar: bool = self.rayon && same_text(
            self.parallel.output_hash.as_str(),
            self.serial.output_hash.as_str(),
        );
        push_bool(&mut out, matches_scalar);
        out
    }

    /// The last part of the receipt.
    fn render_host(&self) -> (text: String)
        ensures
            text@ == scale_host_text(*self),
    {
        let mut out: String = String::from_str(
            "}},\"custody\":{\"posting_last_chain_hash\":\"",
        );
        out.append(self.posting_chain.as_str());
        out.append("\"},\"resources\":{\"peak_rss_kb\":");
        push_number(&mut out, self.peak_rss_kb as u128);
        out.append(",\"temp_disk_bytes\":");
        push_number(&mut out, self.temp_disk_bytes as u128);
        out.append("},\"host\":{\"cpu\":");
        out.append(self.host.cpu.as_str());
        out.append(",\"arch\":");
        out.append(self.host.arch.as_str());
        out.append(",\"profile\":");
        out.append(self.host.profile.as_str());
        out.append(
            "},\"non_claims\":[\"NEG.SCALE.CUSTOMER_WORKLOAD\",\"NEG.SCALE.PRODUCTION_SLA\",\"NEG.SCALE.AWS_COST\",\"NEG.SCALE.MAINFRAME_EQUIVALENCE\",\"NEG.SCALE.UNIVERSAL_THROUGHPUT\",\"NEG.SCALE.RANDOM_BYTES_NOT_BUSINESS_CORPUS\"]}\n",
        );
        out
    }
}

} // verus!
