//! The cohort driver: the burden gate and the assembly of the report.
use vstd::prelude::*;
use crate::fit::FitStep;
use crate::matrix::SampleVector;

verus! {

/// Why a sample was left out of the attributed table.
#[derive(Clone, Copy, Debug, PartialEq, Eq, Structural)]
pub enum SkipReason {
    /// The sample's burden is below the minimum.
    InsufficientBurden,
}

/// A sample left out of the attributed table.
#[derive(Clone, Copy, Debug, PartialEq, Eq, Structural)]
pub struct SkippedSample {
    pub sample: usize,
    pub burden: u64,
    pub reason: SkipReason,
}

/// Which samples of a cohort are fitted, and which are skipped.
#[derive(Clone, Debug)]
pub struct CohortPlan {
    /// Indices of the admitted samples, in cohort order.
    pub admitted: Vec<usize>,
    /// The skipped samples, in cohort order.
    pub skipped: Vec<SkippedSample>,
}

/// One row of the attributed table.
#[derive(Clone, Debug)]
pub struct ReportRow {
    pub sample: usize,
    pub outcome: FitStep,
}

/// The attributed table and the skipped-samples report.
#[derive(Clone, Debug)]
pub struct CohortReport {
    pub attributed: Vec<ReportRow>,
    pub skipped: Vec<SkippedSample>,
}

/// A sample is admitted when its burden reaches the minimum.
pub open spec fn admitted_spec(burden: int, min_burden: u64) -> bool {
    burden >= min_burden
}

/// Indices among the first `n` samples that are admitted.
pub open spec fn admitted_among(samples: Seq<SampleVector>, min_burden: u64, n: int) -> Seq<usize>
    decreases n,
{
    if n <= 0 {
        Seq::empty()
    } else if admitted_spec(samples[n - 1].burden_view(), min_burden) {
        admitted_among(samples, min_burden, n - 1).push((n - 1) as usize)
    } else {
        admitted_among(samples, min_burden, n - 1)
    }
}

/// Skip records of the first `n` samples that are not admitted.
pub open spec fn skipped_among(samples: Seq<SampleVector>, min_burden: u64, n: int) -> Seq<SkippedSample>
    decreases n,
{
    if n <= 0 {
        Seq::empty()
    } else if admitted_spec(samples[n - 1].burden_view(), min_burden) {
        skipped_among(samples, min_burden, n - 1)
    } else {
        skipped_among(samples, min_burden, n - 1).push(
            SkippedSample {
                sample: (n - 1) as usize,
                burden: samples[n - 1].burden_view() as u64,
                reason: SkipReason::InsufficientBurden,
            },
        )
    }
}

/// Whether a sample of this burden is fitted.
pub fn passes_burden_gate(burden: u64, min_burden: u64) -> (r: bool)
    ensures
        r == admitted_spec(burden as int, min_burden),
{
    burden >= min_burden
}

/// Applies the burden gate to every sample of the cohort.
pub fn plan_cohort(samples: &Vec<SampleVector>, min_burden: u64) -> (r: CohortPlan)
    requires
        forall|i: int| 0 <= i < samples@.len() ==> (#[trigger] samples@[i]).wf(),
    ensures
        r.admitted@ == admitted_among(samples@, min_burden, samples@.len() as int),
        r.skipped@ == skipped_among(samples@, min_burden, samples@.len() as int),
{
    let mut admitted: Vec<usize> = Vec::new();
    let mut skipped: Vec<SkippedSample> = Vec::new();
    let mut i: usize = 0;
    while i < samples.len()
        invariant
            i <= samples@.len(),
            forall|j: int| 0 <= j < samples@.len() ==> (#[trigger] samples@[j]).wf(),
            admitted@ == admitted_among(samples@, min_burden, i as int),
            skipped@ == skipped_among(samples@, min_burden, i as int),
        decreases samples@.len() - i,
    {
        let burden = samples[i].burden();
        if passes_burden_gate(burden, min_burden) {
            admitted.push(i);
        } else {
            skipped.push(SkippedSample { sample: i, burden, reason: SkipReason::InsufficientBurden });
        }
        i = i + 1;
    }
    CohortPlan { admitted, skipped }
}

/// A sample below the minimum burden is never admitted, and is reported as
/// skipped for insufficient burden; a sample at or above it is admitted and
/// not skipped.
pub proof fn lemma_burden_gate(samples: Seq<SampleVector>, min_burden: u64, i: int)
    requires
        0 <= i < samples.len(),
        samples.len() <= usize::MAX,
        samples[i].burden_view() <= u64::MAX,
    ensures
        samples[i].burden_view() < min_burden ==> {
            &&& !admitted_among(samples, min_burden, samples.len() as int).contains(i as usize)
            &&& skipped_among(samples, min_burden, samples.len() as int).contains(
                SkippedSample {
                    sample: i as usize,
                    burden: samples[i].burden_view() as u64,
                    reason: SkipReason::InsufficientBurden,
                },
            )
        },
        samples[i].burden_view() >= min_burden ==> {
            &&& admitted_among(samples, min_burden, samples.len() as int).contains(i as usize)
            &&& forall|k: int| 0 <= k < skipped_among(samples, min_burden, samples.len() as int).len()
                ==> (#[trigger] skipped_among(samples, min_burden, samples.len() as int)[k]).sample != i
        },
{
    lemma_gate_prefix(samples, min_burden, i, samples.len() as int);
}

proof fn lemma_gate_prefix(samples: Seq<SampleVector>, min_burden: u64, i: int, n: int)
    requires
        0 <= i < samples.len(),
        n <= samples.len() <= usize::MAX,
        samples[i].burden_view() <= u64::MAX,
    ensures
        forall|k: int| 0 <= k < admitted_among(samples, min_burden, n).len()
            ==> (#[trigger] admitted_among(samples, min_burden, n)[k]) < n,
        forall|k: int| 0 <= k < skipped_among(samples, min_burden, n).len()
            ==> (#[trigger] skipped_among(samples, min_burden, n)[k]).sample < n,
        i < n && samples[i].burden_view() < min_burden ==> {
            &&& !admitted_among(samples, min_burden, n).contains(i as usize)
            &&& skipped_among(samples, min_burden, n).contains(
                SkippedSample {
                    sample: i as usize,
                    burden: samples[i].burden_view() as u64,
                    reason: SkipReason::InsufficientBurden,
                },
            )
        },
        i < n && samples[i].burden_view() >= min_burden ==> {
            &&& admitted_among(samples, min_burden, n).contains(i as usize)
            &&& forall|k: int| 0 <= k < skipped_among(samples, min_burden, n).len()
                ==> (#[trigger] skipped_among(samples, min_burden, n)[k]).sample != i
        },
    decreases n,
{
    if n > 0 {
        lemma_gate_prefix(samples, min_burden, i, n - 1);
        let a = admitted_among(samples, min_burden, n - 1);
        let s = skipped_among(samples, min_burden, n - 1);
        let a2 = admitted_among(samples, min_burden, n);
        let s2 = skipped_among(samples, min_burden, n);
        if admitted_spec(samples[n - 1].burden_view(), min_burden) {
            assert(forall|k: int| 0 <= k < a.len() ==> a2[k] == a[k]);
            assert(a2[a.len() as int] == (n - 1) as usize);
            if i < n - 1 && samples[i].burden_view() < min_burden {
                assert(!a2.contains(i as usize)) by {
                    if a2.contains(i as usize) {
                        let k = choose|k: int| 0 <= k < a2.len() && a2[k] == i as usize;
                        if k < a.len() {
                            assert(a[k] == i as usize);
                        }
                    }
                }
            }
            if i == n - 1 {
                assert(a2.contains(i as usize));
            }
        } else {
            assert(forall|k: int| 0 <= k < s.len() ==> s2[k] == s[k]);
            if i == n - 1 {
                assert(s2[s.len() as int].sample == i);
                assert(s2.contains(s2[s.len() as int]));
                assert(!a2.contains(i as usize)) by {
                    if a2.contains(i as usize) {
                        let k = choose|k: int| 0 <= k < a2.len() && a2[k] == i as usize;
                        assert(a[k] < n - 1);
                    }
                }
            } else if samples[i].burden_view() < min_burden && i < n - 1 {
                let k = choose|k: int| 0 <= k < s.len() && s[k] == SkippedSample {
                    sample: i as usize,
                    burden: samples[i].burden_view() as u64,
                    reason: SkipReason::InsufficientBurden,
                };
                assert(s2[k] == s[k]);
            } else if i < n - 1 {
                assert(s2[s.len() as int].sample == (n - 1) as usize);
            }
        }
    }
}

impl CohortReport {
    /// Pairs each admitted sample with the outcome of its fit.
    pub fn assemble(plan: CohortPlan, outcomes: Vec<FitStep>) -> (r: CohortReport)
        requires
            outcomes@.len() == plan.admitted@.len(),
        ensures
            r.attributed@.len() == plan.admitted@.len(),
            forall|k: int| 0 <= k < r.attributed@.len() ==> {
                &&& (#[trigger] r.attributed@[k]).sample == plan.admitted@[k]
                &&& r.attributed@[k].outcome == outcomes@[k]
            },
            r.skipped@ == plan.skipped@,
    {
        let mut attributed: Vec<ReportRow> = Vec::new();
        let mut outcomes = outcomes;
        let ghost all = outcomes@;
        let mut k: usize = 0;
        while k < plan.admitted.len()
            invariant
                k <= plan.admitted@.len(),
                all.len() == plan.admitted@.len(),
                attributed@.len() == k,
                outcomes@ == all.skip(k as int),
                forall|m: int| 0 <= m < k ==> {
                    &&& (#[trigger] attributed@[m]).sample == plan.admitted@[m]
                    &&& attributed@[m].outcome == all[m]
                },
            decreases plan.admitted@.len() - k,
        {
            let outcome = outcomes.remove(0);
            assert(outcomes@ =~= all.skip(k as int + 1));
            attributed.push(ReportRow { sample: plan.admitted[k], outcome });
            k = k + 1;
        }
        CohortReport { attributed, skipped: plan.skipped }
    }
}

} // verus!
