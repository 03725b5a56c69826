use vstd::prelude::*;
use super::{sum, Measurements};

verus! {

/// The samples of one run in ascending order, with their sum.
pub struct AnalysedMeasurements {
    sorted_measurements: Vec<u64>,
    total: u128,
}

impl View for AnalysedMeasurements {
    type V = Seq<u64>;

    closed spec fn view(&self) -> Seq<u64> {
        self.sorted_measurements@
    }
}

/// `s` is in ascending order.
pub open spec fn ascending(s: Seq<u64>) -> bool {
    forall|i: int, j: int| 0 <= i < j < s.len() ==> s[i] <= s[j]
}

/// `<[u64]>::sort` puts the samples in ascending order and keeps each of them
/// as often as it was there.
#[verifier::external_body]
fn sort_ascending(samples: &mut Vec<u64>)
    ensures
        ascending(final(samples)@),
        final(samples)@.to_multiset() == old(samples)@.to_multiset(),
{
    samples.sort()
}

impl AnalysedMeasurements {
    /// The sum that is kept beside the samples.
    pub closed spec fn spec_total(&self) -> nat {
        self.total as nat
    }

    /// There is at least one sample, the samples are in ascending order, and
    /// the sum that is kept is theirs.
    pub open spec fn well_formed(&self) -> bool {
        &&& self@.len() > 0
        &&& ascending(self@)
        &&& self.spec_total() == sum(self@)
    }

    /// Sorts the samples and sums them up.
    pub fn analyse(meas: Measurements) -> (a: Self)
        requires
            meas@.len() > 0,
        ensures
            a.well_formed(),
            a@.to_multiset() == meas@.to_multiset(),
    {
        let mut sorted_measurements = meas.raw_data;
        let ghost raw = sorted_measurements@;
        sort_ascending(&mut sorted_measurements);
        proof {
            raw.to_multiset_ensures();
            sorted_measurements@.to_multiset_ensures();
        }

        let mut total: u128 = 0;
        let mut i: usize = 0;
        while i < sorted_measurements.len()
            invariant
                i <= sorted_measurements@.len(),
                total == sum(sorted_measurements@.take(i as int)),
                total <= i * 0xFFFF_FFFF_FFFF_FFFF,
            decreases sorted_measurements@.len() - i,
        {
            proof {
                let s = sorted_measurements@;
                assert(s.take(i + 1).drop_last() =~= s.take(i as int));
                assert(s.take(i + 1).last() == s[i as int]);
            }
            total = total + sorted_measurements[i] as u128;
            i += 1;
        }
        assert(sorted_measurements@.take(i as int) =~= sorted_measurements@);
        Self { sorted_measurements, total }
    }

    /// The number of samples.
    pub fn num_measurements(&self) -> (n: usize)
        ensures
            n == self@.len(),
    {
        self.sorted_measurements.len()
    }

    /// The sum of the samples, which divided by their number is the mean.
    pub fn total(&self) -> (t: u128)
        ensures
            t == self.spec_total(),
            self.well_formed() ==> t == sum(self@),
    {
        self.total
    }

    /// The sample in the middle of the ascending order; of an even number of
    /// samples, the upper one of the two in the middle.
    pub fn median(&self) -> (m: u64)
        requires
            self.well_formed(),
        ensures
            m == self@[self@.len() as int / 2],
    {
        self.sorted_measurements[self.num_measurements() / 2]
    }
}

} // verus!
