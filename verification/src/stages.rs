//! The stage profile of a reconciliation and its bottleneck.

use vstd::prelude::*;

verus! {

/// The time spent in each stage of a reconciliation, in nanoseconds.
#[derive(Clone, Copy, Debug, PartialEq, Eq, Structural)]
pub struct Stages {
    /// Parsing the copybook and laying out the record.
    pub parse_ns: u128,
    /// Decoding the records.
    pub record_ns: u128,
    /// Assembling the output and the audit.
    pub aggregate_ns: u128,
}

/// The sum of the parse times of `samples`.
pub open spec fn parse_sum(samples: Seq<Stages>) -> nat
    decreases samples.len(),
{
    if samples.len() == 0 {
        0
    } else {
        parse_sum(samples.drop_last()) + samples.last().parse_ns as nat
    }
}

/// The sum of the record times of `samples`.
pub open spec fn record_sum(samples: Seq<Stages>) -> nat
    decreases samples.len(),
{
    if samples.len() == 0 {
        0
    } else {
        record_sum(samples.drop_last()) + samples.last().record_ns as nat
    }
}

/// The sum of the aggregation times of `samples`.
pub open spec fn aggregate_sum(samples: Seq<Stages>) -> nat
    decreases samples.len(),
{
    if samples.len() == 0 {
        0
    } else {
        aggregate_sum(samples.drop_last()) + samples.last().aggregate_ns as nat
    }
}

/// Whether every sum of times of `samples` can be counted.
pub open spec fn sums_fit(samples: Seq<Stages>) -> bool {
    &&& parse_sum(samples) <= u128::MAX
    &&& record_sum(samples) <= u128::MAX
    &&& aggregate_sum(samples) <= u128::MAX
}

/// More samples have no smaller sums.
proof fn lemma_sums_grow(samples: Seq<Stages>, k: int)
    requires
        0 <= k <= samples.len(),
    ensures
        parse_sum(samples.take(k)) <= parse_sum(samples),
        record_sum(samples.take(k)) <= record_sum(samples),
        aggregate_sum(samples.take(k)) <= aggregate_sum(samples),
    decreases samples.len() - k,
{
    if k < samples.len() {
        lemma_sums_grow(samples, k + 1);
        assert(samples.take(k + 1).drop_last() =~= samples.take(k));
    } else {
        assert(samples.take(k) =~= samples);
    }
}

/// The mean profile of `samples`, each stage rounded down, or nothing where there is no sample or
/// a sum of times cannot be counted.
pub fn average(samples: &[Stages]) -> (mean: Option<Stages>)
    ensures
        mean is Some <==> samples@.len() > 0 && sums_fit(samples@),
        mean is Some <==> samples@.len() > 0 && parse_sum(samples@) <= u128::MAX && record_sum(
            samples@,
        ) <= u128::MAX && aggregate_sum(samples@) <= u128::MAX,
        mean matches Some(m) ==> {
            &&& m.parse_ns == parse_sum(samples@) / samples@.len()
            &&& m.record_ns == record_sum(samples@) / samples@.len()
            &&& m.aggregate_ns == aggregate_sum(samples@) / samples@.len()
        },
{
    let count: usize = samples.len();
    if count == 0 {
        return None;
    }
    let mut acc = Stages { parse_ns: 0, record_ns: 0, aggregate_ns: 0 };
    let mut i: usize = 0;
    while i < count
        invariant
            i <= count,
            count == samples@.len(),
            acc.parse_ns == parse_sum(samples@.take(i as int)),
            acc.record_ns == record_sum(samples@.take(i as int)),
            acc.aggregate_ns == aggregate_sum(samples@.take(i as int)),
        decreases count - i,
    {
        proof {
            assert(samples@.take(i + 1).drop_last() =~= samples@.take(i as int));
            lemma_sums_grow(samples@, i + 1);
        }
        let s: Stages = samples[i];
        if s.parse_ns > u128::MAX - acc.parse_ns || s.record_ns > u128::MAX - acc.record_ns
            || s.aggregate_ns > u128::MAX - acc.aggregate_ns {
            return None;
        }
        acc = Stages {
            parse_ns: acc.parse_ns + s.parse_ns,
            record_ns: acc.record_ns + s.record_ns,
            aggregate_ns: acc.aggregate_ns + s.aggregate_ns,
        };
        i += 1;
    }
    assert(samples@.take(i as int) =~= samples@);
    let n: u128 = count as u128;
    Some(
        Stages {
            parse_ns: acc.parse_ns / n,
            record_ns: acc.record_ns / n,
            aggregate_ns: acc.aggregate_ns / n,
        },
    )
}

impl Stages {
    /// The time of all stages together.
    pub open spec fn sum(self) -> int {
        self.parse_ns + self.record_ns + self.aggregate_ns
    }

    /// The time of all stages together, but at least one, so that shares of it can be taken; or
    /// nothing where it cannot be counted.
    pub fn total(&self) -> (total: Option<u128>)
        ensures
            total is Some <==> self.sum() <= u128::MAX,
            total matches Some(t) ==> t == if self.sum() == 0 {
                1
            } else {
                self.sum()
            },
            total is Some <==> self.parse_ns + self.record_ns + self.aggregate_ns <= u128::MAX,
            total matches Some(t) ==> t >= 1 && (t == self.parse_ns + self.record_ns
                + self.aggregate_ns || self.parse_ns + self.record_ns + self.aggregate_ns == 0 && t
                == 1),
    {
        if self.record_ns > u128::MAX - self.parse_ns {
            return None;
        }
        let front: u128 = self.parse_ns + self.record_ns;
        if self.aggregate_ns > u128::MAX - front {
            return None;
        }
        let sum: u128 = front + self.aggregate_ns;
        if sum == 0 {
            Some(1)
        } else {
            Some(sum)
        }
    }

    /// The stage that takes the longest; of stages that tie, the decoding of records comes first
    /// and parsing last.
    pub open spec fn longest(self) -> Stage {
        if self.record_ns >= self.parse_ns && self.record_ns >= self.aggregate_ns {
            Stage::PerRecord
        } else if self.aggregate_ns >= self.parse_ns {
            Stage::Aggregate
        } else {
            Stage::Parse
        }
    }

    /// The time of one stage.
    pub open spec fn time_of(self, stage: Stage) -> u128 {
        match stage {
            Stage::Parse => self.parse_ns,
            Stage::PerRecord => self.record_ns,
            Stage::Aggregate => self.aggregate_ns,
        }
    }

    /// The stage that takes the longest.
    pub fn bottleneck(&self) -> (stage: Stage)
        ensures
            stage == self.longest(),
            stage is Parse ==> self.parse_ns > self.record_ns && self.parse_ns > self.aggregate_ns,
            stage is PerRecord ==> self.record_ns >= self.parse_ns && self.record_ns
                >= self.aggregate_ns,
            stage is Aggregate ==> self.aggregate_ns >= self.parse_ns && self.aggregate_ns
                > self.record_ns,
    {
        if self.record_ns >= self.parse_ns && self.record_ns >= self.aggregate_ns {
            Stage::PerRecord
        } else if self.aggregate_ns >= self.parse_ns {
            Stage::Aggregate
        } else {
            Stage::Parse
        }
    }
}

/// A stage of a reconciliation.
#[derive(Clone, Copy, Debug, PartialEq, Eq, Structural)]
pub enum Stage {
    /// Parsing the copybook and laying out the record.
    Parse,
    /// Decoding the records.
    PerRecord,
    /// Assembling the output and the audit.
    Aggregate,
}

/// The name of a stage in a receipt.
pub open spec fn stage_name(stage: Stage) -> Seq<char> {
    match stage {
        Stage::Parse => "parse"@,
        Stage::PerRecord => "per_record"@,
        Stage::Aggregate => "aggregate"@,
    }
}

impl Stage {
    /// The name of the stage in a receipt.
    pub fn name(&self) -> (name: &'static str)
        ensures
            name@ == stage_name(*self),
            *self is Parse ==> name@ == "parse"@,
            *self is PerRecord ==> name@ == "per_record"@,
            *self is Aggregate ==> name@ == "aggregate"@,
    {
        match self {
            Stage::Parse => "parse",
            Stage::PerRecord => "per_record",
            Stage::Aggregate => "aggregate",
        }
    }
}

/// No stage takes longer than the bottleneck.
pub proof fn law_bottleneck_is_longest(stages: Stages, stage: Stage)
    ensures
        stages.time_of(stage) <= stages.time_of(stages.longest()),
        stages.time_of(Stage::Parse) == stages.parse_ns,
        stages.time_of(Stage::PerRecord) == stages.record_ns,
        stages.time_of(Stage::Aggregate) == stages.aggregate_ns,
{
}

/// The sums over two rows of samples are the sums over all of them, and a single sample is its own
/// sum: no sample is left out or counted twice.
pub proof fn law_sums_count_every_sample(first: Seq<Stages>, second: Seq<Stages>, one: Stages)
    ensures
        parse_sum(first + second) == parse_sum(first) + parse_sum(second),
        record_sum(first + second) == record_sum(first) + record_sum(second),
        aggregate_sum(first + second) == aggregate_sum(first) + aggregate_sum(second),
        parse_sum(seq![one]) == one.parse_ns,
        record_sum(seq![one]) == one.record_ns,
        aggregate_sum(seq![one]) == one.aggregate_ns,
    decreases second.len(),
{
    reveal_with_fuel(parse_sum, 2);
    reveal_with_fuel(record_sum, 2);
    reveal_with_fuel(aggregate_sum, 2);
    assert(seq![one].drop_last() =~= Seq::<Stages>::empty());
    if second.len() == 0 {
        assert(first + second =~= first);
    } else {
        law_sums_count_every_sample(first, second.drop_last(), one);
        assert((first + second).drop_last() =~= first + second.drop_last());
    }
}

} // verus!
