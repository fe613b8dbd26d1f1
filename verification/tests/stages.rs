use kobold_bench::stages::{average, Stage, Stages};

fn stages(parse_ns: u128, record_ns: u128, aggregate_ns: u128) -> Stages {
    Stages { parse_ns, record_ns, aggregate_ns }
}

#[test]
fn average_rounds_down() {
    assert_eq!(
        average(&[stages(1, 10, 100), stages(2, 20, 201)]),
        Some(stages(1, 15, 150))
    );
    assert_eq!(average(&[stages(3, 4, 5)]), Some(stages(3, 4, 5)));
    assert_eq!(average(&[]), None);
    assert_eq!(average(&[stages(u128::MAX, 0, 0), stages(1, 0, 0)]), None);
    assert_eq!(average(&[stages(0, 0, u128::MAX), stages(0, 0, 1)]), None);
}

#[test]
fn total_is_at_least_one() {
    assert_eq!(stages(0, 0, 0).total(), Some(1));
    assert_eq!(stages(1, 2, 3).total(), Some(6));
    assert_eq!(stages(u128::MAX, 1, 0).total(), None);
    assert_eq!(stages(u128::MAX - 1, 1, 1).total(), None);
}

#[test]
fn bottleneck_is_the_longest_stage() {
    assert_eq!(stages(1, 2, 1).bottleneck(), Stage::PerRecord);
    assert_eq!(stages(1, 1, 2).bottleneck(), Stage::Aggregate);
    assert_eq!(stages(2, 1, 1).bottleneck(), Stage::Parse);
    assert_eq!(stages(5, 5, 5).bottleneck(), Stage::PerRecord);
    assert_eq!(stages(5, 1, 5).bottleneck(), Stage::Aggregate);
    assert_eq!(Stage::PerRecord.name(), "per_record");
    assert_eq!(Stage::Aggregate.name(), "aggregate");
    assert_eq!(Stage::Parse.name(), "parse");
}
