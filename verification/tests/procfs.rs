use kobold_bench::procfs::{cpu_model, ncpu, peak_rss_kb};

const CPUINFO: &str = "processor\t: 0\nmodel\t\t: 85\nmodel name\t: Some CPU @ 2.00GHz \nflags\t: a b\n\nprocessor\t: 1\nmodel name\t: Other: part\n";

#[test]
fn model_is_between_the_first_two_colons() {
    assert_eq!(cpu_model(CPUINFO), "Some CPU @ 2.00GHz");
    assert_eq!(cpu_model("model name: A: B"), "A");
    assert_eq!(cpu_model("model name\u{a0}:\u{3000}wide\u{2003}\r\n"), "wide");
    assert_eq!(cpu_model("model name without colon"), "");
    assert_eq!(cpu_model("model name:   "), "");
    assert_eq!(cpu_model(" model name: indented"), "unknown");
    assert_eq!(cpu_model(""), "unknown");
}

#[test]
fn processors_are_counted_by_line() {
    assert_eq!(ncpu(CPUINFO), 2);
    assert_eq!(ncpu("processor"), 1);
    assert_eq!(ncpu("x processor\nprocessors\n"), 1);
    assert_eq!(ncpu(""), 0);
}

#[test]
fn peak_is_the_second_word() {
    assert_eq!(peak_rss_kb("Name:\tx\nVmHWM:\t    5120 kB\nVmHWM: 1\n"), 5120);
    assert_eq!(peak_rss_kb("VmHWM:"), 0);
    assert_eq!(peak_rss_kb("VmHWM: many kB"), 0);
    assert_eq!(peak_rss_kb("VmPeak: 7 kB\n"), 0);
}
