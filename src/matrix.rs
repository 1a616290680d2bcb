//! Per-sample mutation count vectors and the builder that fills them.
use vstd::prelude::*;
use crate::category::{classification, classify, MutationCategory, Unclassifiable, Variant, NUM_CATEGORIES};

verus! {

/// Sum of a sequence of counts.
pub open spec fn count_sum(s: Seq<u64>) -> int
    decreases s.len(),
{
    if s.len() == 0 {
        0
    } else {
        count_sum(s.drop_last()) + s.last()
    }
}

proof fn lemma_count_sum_nonneg(s: Seq<u64>)
    ensures
        count_sum(s) >= 0,
    decreases s.len(),
{
    if s.len() > 0 {
        lemma_count_sum_nonneg(s.drop_last());
    }
}

/// Raising one count by one raises the sum by one, and no count exceeds the sum.
proof fn lemma_count_sum_increment(s: Seq<u64>, i: int)
    requires
        0 <= i < s.len(),
        count_sum(s) < u64::MAX,
    ensures
        s[i] <= count_sum(s),
        count_sum(s.update(i, (s[i] + 1) as u64)) == count_sum(s) + 1,
    decreases s.len(),
{
    let t = s.update(i, (s[i] + 1) as u64);
    lemma_count_sum_nonneg(s.drop_last());
    if i < s.len() - 1 {
        assert(t.drop_last() =~= s.drop_last().update(i, (s[i] + 1) as u64));
        lemma_count_sum_increment(s.drop_last(), i);
    } else {
        assert(t.drop_last() =~= s.drop_last());
    }
}

/// Count vector of one sample over the mutation categories.
pub struct SampleVector {
    name: String,
    counts: Vec<u64>,
    burden: u64,
    skipped: u64,
}

impl SampleVector {
    /// The stored total equals the sum of the counts.
    pub closed spec fn wf(&self) -> bool {
        self.burden as int == count_sum(self.counts@)
    }

    pub closed spec fn name_view(&self) -> Seq<char> {
        self.name@
    }

    pub closed spec fn counts_view(&self) -> Seq<u64> {
        self.counts@
    }

    pub closed spec fn skipped_view(&self) -> nat {
        self.skipped as nat
    }

    /// Total mutation burden: the sum of all counts.
    pub open spec fn burden_view(&self) -> int {
        count_sum(self.counts_view())
    }

    /// A sample with the given counts and no skipped variants.
    pub fn new(name: String, counts: Vec<u64>) -> (r: SampleVector)
        requires
            count_sum(counts@) <= u64::MAX,
        ensures
            r.wf(),
            r.name_view() == name@,
            r.counts_view() == counts@,
            r.skipped_view() == 0,
    {
        let mut total: u64 = 0;
        let mut i: usize = 0;
        while i < counts.len()
            invariant
                i <= counts@.len(),
                total as int == count_sum(counts@.take(i as int)),
                count_sum(counts@) <= u64::MAX,
            decreases counts@.len() - i,
        {
            assert(counts@.take(i as int + 1).drop_last() =~= counts@.take(i as int));
            proof {
                lemma_count_sum_prefix(counts@, i as int + 1);
            }
            total = total + counts[i];
            i = i + 1;
        }
        assert(counts@.take(i as int) =~= counts@);
        SampleVector { name, counts, burden: total, skipped: 0 }
    }

    /// A sample of the given name with all counts zero.
    pub fn empty(name: String) -> (r: SampleVector)
        ensures
            r.wf(),
            r.name_view() == name@,
            r.counts_view() == Seq::new(NUM_CATEGORIES as nat, |i: int| 0u64),
            r.skipped_view() == 0,
    {
        let mut counts: Vec<u64> = Vec::new();
        let mut i: usize = 0;
        while i < NUM_CATEGORIES
            invariant
                i <= NUM_CATEGORIES,
                counts@ == Seq::new(i as nat, |j: int| 0u64),
                count_sum(counts@) == 0,
            decreases NUM_CATEGORIES - i,
        {
            counts.push(0u64);
            assert(counts@.drop_last() =~= Seq::new(i as nat, |j: int| 0u64));
            i = i + 1;
            assert(counts@ =~= Seq::new(i as nat, |j: int| 0u64));
        }
        SampleVector { name, counts, burden: 0, skipped: 0 }
    }

    pub fn name(&self) -> (r: &String)
        ensures
            r@ == self.name_view(),
    {
        &self.name
    }

    pub fn counts(&self) -> (r: &Vec<u64>)
        ensures
            r@ == self.counts_view(),
    {
        &self.counts
    }

    /// Total mutation burden.
    pub fn burden(&self) -> (r: u64)
        requires
            self.wf(),
        ensures
            r as int == self.burden_view(),
    {
        self.burden
    }

    /// Number of variants that could not be classified.
    pub fn skipped(&self) -> (r: u64)
        ensures
            r as nat == self.skipped_view(),
    {
        self.skipped
    }
}

/// A prefix sum is no larger than the whole sum.
proof fn lemma_count_sum_prefix(s: Seq<u64>, n: int)
    requires
        0 <= n <= s.len(),
    ensures
        count_sum(s.take(n)) <= count_sum(s),
    decreases s.len() - n,
{
    if n < s.len() {
        lemma_count_sum_prefix(s, n + 1);
        assert(s.take(n + 1).drop_last() =~= s.take(n));
    } else {
        assert(s.take(n) =~= s);
    }
}

/// What observing one variant did.
#[derive(Clone, Copy, Debug, PartialEq, Eq, Structural)]
pub enum Observation {
    /// The variant was counted in this category.
    Counted(MutationCategory),
    /// The variant was not classifiable and was counted as skipped.
    Skipped(Unclassifiable),
}

/// Accumulates count vectors for a cohort, one per sample.
pub struct SampleMatrixBuilder {
    samples: Vec<SampleVector>,
}

impl SampleMatrixBuilder {
    pub closed spec fn wf(&self) -> bool {
        forall|i: int| 0 <= i < self.samples@.len() ==> {
            &&& (#[trigger] self.samples@[i]).wf()
            &&& self.samples@[i].counts@.len() == NUM_CATEGORIES
        }
    }

    pub closed spec fn samples_view(&self) -> Seq<SampleVector> {
        self.samples@
    }

    pub fn new() -> (r: SampleMatrixBuilder)
        ensures
            r.wf(),
            r.samples_view().len() == 0,
    {
        SampleMatrixBuilder { samples: Vec::new() }
    }

    /// Registers a sample with an all-zero vector and returns its index.
    pub fn add_sample(&mut self, name: String) -> (r: usize)
        requires
            old(self).wf(),
            old(self).samples_view().len() < usize::MAX,
        ensures
            final(self).wf(),
            r == old(self).samples_view().len(),
            final(self).samples_view().len() == old(self).samples_view().len() + 1,
            final(self).samples_view().take(r as int) == old(self).samples_view(),
            final(self).samples_view()[r as int].name_view() == name@,
            final(self).samples_view()[r as int].counts_view() == Seq::new(NUM_CATEGORIES as nat, |i: int| 0u64),
            final(self).samples_view()[r as int].skipped_view() == 0,
    {
        let r = self.samples.len();
        self.samples.push(SampleVector::empty(name));
        assert(self.samples@.take(r as int) =~= old(self).samples@);
        r
    }

    /// Classifies a variant of a sample and counts it: in its category if it has
    /// one, else among the sample's skipped variants.
    pub fn observe(&mut self, sample: usize, v: &Variant) -> (r: Observation)
        requires
            old(self).wf(),
            sample < old(self).samples_view().len(),
            old(self).samples_view()[sample as int].burden_view() < u64::MAX,
            old(self).samples_view()[sample as int].skipped_view() < u64::MAX,
        ensures
            final(self).wf(),
            final(self).samples_view().len() == old(self).samples_view().len(),
            forall|j: int| 0 <= j < old(self).samples_view().len() && j != sample
                ==> #[trigger] final(self).samples_view()[j] == old(self).samples_view()[j],
            ({
                let before = old(self).samples_view()[sample as int];
                let after = final(self).samples_view()[sample as int];
                &&& after.name_view() == before.name_view()
                &&& match classification(*v) {
                    Ok(k) => r == Observation::Counted(MutationCategory { index: k as usize })
                        && after.counts_view() == before.counts_view().update(k, (before.counts_view()[k] + 1) as u64)
                        && after.skipped_view() == before.skipped_view(),
                    Err(e) => r == Observation::Skipped(e)
                        && after.counts_view() == before.counts_view()
                        && after.skipped_view() == before.skipped_view() + 1,
                }
            }),
    {
        assert(self.samples@[sample as int].wf());
        let mut samples: Vec<SampleVector> = Vec::new();
        std::mem::swap(&mut samples, &mut self.samples);
        let mut s = samples.remove(sample);
        let r = match classify(v) {
            Ok(c) => {
                proof {
                    lemma_count_sum_increment(s.counts@, c.index as int);
                }
                let k = c.index;
                let n = s.counts[k] + 1;
                s.counts.set(k, n);
                s.burden = s.burden + 1;
                Observation::Counted(c)
            },
            Err(e) => {
                s.skipped = s.skipped + 1;
                Observation::Skipped(e)
            },
        };
        samples.insert(sample, s);
        self.samples = samples;
        assert forall|i: int| 0 <= i < self.samples@.len() implies {
            &&& (#[trigger] self.samples@[i]).wf()
            &&& self.samples@[i].counts@.len() == NUM_CATEGORIES
        } by {
            if i != sample {
                assert(self.samples@[i] == old(self).samples@[i]);
            }
        }
        r
    }

    /// The completed vectors, in the order the samples were added.
    pub fn finalize(self) -> (r: Vec<SampleVector>)
        requires
            self.wf(),
        ensures
            r@ == self.samples_view(),
            forall|i: int| 0 <= i < r@.len() ==> (#[trigger] r@[i]).wf(),
    {
        assert(forall|i: int| 0 <= i < self.samples@.len() ==> (#[trigger] self.samples@[i]).wf());
        self.samples
    }
}

} // verus!
