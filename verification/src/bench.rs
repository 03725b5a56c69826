use vstd::prelude::*;
use std::time::Instant;

pub mod analysis;

pub use self::analysis::AnalysedMeasurements;

verus! {

/// The durations of the timed sorter calls of one run, in nanoseconds and in
/// the order in which they were taken.
#[derive(Debug, Clone)]
pub struct Measurements {
    pub raw_data: Vec<u64>,
}

impl View for Measurements {
    type V = Seq<u64>;

    open spec fn view(&self) -> Seq<u64> {
        self.raw_data@
    }
}

impl Measurements {
    /// Sorts the samples and sums them up.
    pub fn analyse(self) -> (a: AnalysedMeasurements)
        requires
            self@.len() > 0,
        ensures
            a.well_formed(),
            a@.to_multiset() == self@.to_multiset(),
    {
        AnalysedMeasurements::analyse(self)
    }
}

/// The sum of the samples.
pub open spec fn sum(samples: Seq<u64>) -> nat
    decreases samples.len(),
{
    if samples.len() == 0 {
        0
    } else {
        sum(samples.drop_last()) + samples.last() as nat
    }
}

/// The first `k + 1` samples together do not exceed the budget.
pub open spec fn within_budget(samples: Seq<u64>, budget: u128, k: int) -> bool {
    sum(samples.take(k + 1)) <= budget
}

/// What holds of the samples of a run under a budget and an iteration limit:
/// there are no more than the limit allows; there is one if the limit allows
/// any; every sample but the last left the budget unbroken; and if the limit
/// was not reached, the last sample broke the budget.
pub open spec fn stopped_by_rule(samples: Seq<u64>, budget: u128, max_iters: u64) -> bool {
    &&& samples.len() <= max_iters
    &&& max_iters > 0 ==> samples.len() > 0
    &&& forall|k: int| 0 <= k < samples.len() - 1 ==> #[trigger] within_budget(samples, budget, k)
    &&& 0 < samples.len() < max_iters ==> !within_budget(samples, budget, samples.len() - 1)
}

/// The budget that is left after a sample: nothing (the run stops) if the
/// sample exceeds what was left, else what was left less the sample.
pub open spec fn budget_after(budget_left: u128, sample: u64) -> Option<u128> {
    if sample > budget_left {
        None
    } else {
        Some((budget_left - sample) as u128)
    }
}

/// Decides after one measurement whether the run goes on, and with what
/// budget.
pub fn after_sample(budget_left: u128, sample: u64) -> (r: Option<u128>)
    ensures
        r == budget_after(budget_left, sample),
{
    let spent: u128 = sample as u128;
    if spent > budget_left {
        None
    } else {
        Some(budget_left - spent)
    }
}

/// A count of nanoseconds as a sample: the count itself, or the largest
/// sample if the count is beyond it.
pub fn sample_of(nanos: u128) -> (s: u64)
    ensures
        nanos <= u64::MAX ==> s == nanos,
        nanos > u64::MAX ==> s == u64::MAX,
{
    if nanos > 0xFFFF_FFFF_FFFF_FFFFu128 {
        u64::MAX
    } else {
        nanos as u64
    }
}

/// The clock of `std`, carried through as an opaque value.
#[verifier::external_type_specification]
#[verifier::external_body]
pub struct ExInstant(std::time::Instant);

/// `Instant::now` reads the monotonic clock. Nothing is claimed of the
/// reading.
#[verifier::external_body]
fn now() -> Instant {
    Instant::now()
}

/// `Instant::elapsed` gives the time since the reading, here as whole
/// nanoseconds. Nothing is claimed of the amount.
#[verifier::external_body]
fn elapsed_nanos(start: &Instant) -> u128 {
    start.elapsed().as_nanos()
}

/// The sum of a prefix does not change when a sample is appended.
proof fn lemma_prefix_sum_kept(samples: Seq<u64>, sample: u64, k: int)
    requires
        0 <= k <= samples.len(),
    ensures
        sum(samples.push(sample).take(k)) == sum(samples.take(k)),
        sum(samples.take(samples.len() as int)) == sum(samples),
        sum(samples.push(sample)) == sum(samples) + sample,
{
    assert(samples.push(sample).take(k) =~= samples.take(k));
    assert(samples.take(samples.len() as int) =~= samples);
    assert(samples.push(sample).drop_last() =~= samples);
}

/// Times the sorter on fresh instances, one after the other, until the
/// iteration limit is reached or a measurement exceeds what is left of the
/// budget. The budget is in nanoseconds.
pub fn run<S, T, I>(
    mut sorter: S,
    mut generate_instance: I,
    time_budget: u128,
    max_iters: u64,
) -> (r: Result<Measurements, ()>) where S: FnMut(&mut [T]), T: Ord, I: FnMut() -> Vec<T>
    requires
        forall|a: &mut [T]| sorter.requires((a,)),
        generate_instance.requires(()),
    ensures
        r is Ok,
        stopped_by_rule(r->Ok_0@, time_budget, max_iters),
{
    let mut time_budget_left = time_budget;
    let mut durations: Vec<u64> = Vec::new();
    let mut iters: u64 = 0;
    while iters < max_iters
        invariant
            forall|a: &mut [T]| sorter.requires((a,)),
            generate_instance.requires(()),
            iters <= max_iters,
            durations@.len() == iters,
            time_budget_left == time_budget - sum(durations@),
            forall|k: int| 0 <= k < iters ==> #[trigger] within_budget(durations@, time_budget, k),
        decreases max_iters - iters,
    {
        let mut arr = generate_instance();

        let before = now();
        sorter(arr.as_mut_slice());
        let nanos = elapsed_nanos(&before);

        let ns = sample_of(nanos);
        let ghost earlier = durations@;
        durations.push(ns);
        iters += 1;
        proof {
            lemma_prefix_sum_kept(earlier, ns, earlier.len() as int);
            assert forall|k: int| 0 <= k < iters - 1 implies #[trigger] within_budget(
                durations@,
                time_budget,
                k,
            ) by {
                assert(within_budget(earlier, time_budget, k));
                lemma_prefix_sum_kept(earlier, ns, k + 1);
            }
            assert(durations@.take(iters as int) =~= durations@);
        }
        match after_sample(time_budget_left, ns) {
            None => {
                return Ok(Measurements { raw_data: durations });
            },
            Some(left) => {
                time_budget_left = left;
            },
        }
    }
    Ok(Measurements { raw_data: durations })
}

/// With no budget at all, a run whose first measurement is not zero takes
/// exactly one sample, whatever the iteration limit.
pub proof fn lemma_no_budget_one_sample(samples: Seq<u64>, max_iters: u64)
    requires
        stopped_by_rule(samples, 0, max_iters),
        max_iters > 0,
        samples[0] > 0,
    ensures
        samples.len() == 1,
{
    if samples.len() > 1 {
        assert(within_budget(samples, 0, 0));
        assert(samples.take(1).drop_last() =~= Seq::<u64>::empty());
        assert(samples.take(1).last() == samples[0]);
        assert(sum(samples.take(1)) == sum(samples.take(1).drop_last()) + samples[0]);
    }
}

} // verus!
