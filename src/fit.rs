//! The prune-and-refit loop of the attribution fitter.
//!
//! Each round, the caller solves the non-negative least-squares problem over the
//! active signatures and hands in the weights, in fixed point with
//! `WEIGHT_SCALE` standing for one. The session scales them by the sample's
//! burden into attributed counts, drops the signatures attributed below the
//! contribution floor, and says whether to refit, or gives the final outcome.
use vstd::prelude::*;

verus! {

/// Fixed-point unit: a weight of `WEIGHT_SCALE` is a weight of one, and an
/// attributed count of `WEIGHT_SCALE` is one mutation.
pub const WEIGHT_SCALE: u64 = 1_000_000_000;

/// Allowed excess of the attributed total over the burden, in units of
/// `1 / WEIGHT_SCALE` per mutation of burden.
pub const RESIDUAL_TOLERANCE: u64 = 1_000;

/// Mutations attributed to one signature, in units of `1 / WEIGHT_SCALE`.
#[derive(Clone, Copy, Debug, PartialEq, Eq, Structural)]
pub struct Contribution {
    pub signature: usize,
    pub count: u128,
}

/// The stable fit of one sample.
#[derive(Clone, Debug)]
pub struct AttributionResult {
    /// Surviving signatures in increasing index order, with their counts.
    pub contributions: Vec<Contribution>,
    /// Burden not explained by the contributions, in units of `1 / WEIGHT_SCALE`;
    /// slightly negative values within the tolerance are kept as they are.
    pub residual: i128,
    /// Reconstruction error of the final fit, as reported by the solver.
    pub reconstruction_error: u64,
}

/// What the session asks for, or how the sample's fit ended.
#[derive(Clone, Debug)]
pub enum FitStep {
    /// Signatures were dropped and some remain: solve again over the active set.
    Refit,
    /// No signature was dropped: the fit is stable.
    Stable(AttributionResult),
    /// No signature remains: the whole burden, in units of `1 / WEIGHT_SCALE`,
    /// is residual.
    NoSignatureFits { residual: i128 },
    /// The attributed total exceeds the burden beyond the tolerance.
    NegativeResidual,
}

/// Count `w * burden` attributed to a signature of weight `w`.
pub open spec fn attributed(w: u64, burden: u64) -> int {
    w as int * burden as int
}

/// The contribution floor `c` in attributed-count units.
pub open spec fn contribution_floor(c: u64) -> int {
    c as int * WEIGHT_SCALE as int
}

/// The burden in attributed-count units.
pub open spec fn burden_units(burden: u64) -> int {
    burden as int * WEIGHT_SCALE as int
}

/// Largest attributed total that is accepted for the burden.
pub open spec fn residual_limit(burden: u64) -> int {
    burden as int * (WEIGHT_SCALE + RESIDUAL_TOLERANCE) as int
}

/// The signatures that stay active: those active whose attributed count reaches the floor.
pub open spec fn retained(active: Seq<bool>, weights: Seq<u64>, burden: u64, c: u64) -> Seq<bool> {
    Seq::new(active.len(), |i: int| active[i] && attributed(weights[i], burden) >= contribution_floor(c))
}

/// Number of active signatures.
pub open spec fn active_count(s: Seq<bool>) -> int
    decreases s.len(),
{
    if s.len() == 0 {
        0
    } else {
        active_count(s.drop_last()) + if s.last() { 1int } else { 0int }
    }
}

/// Total count attributed to the active signatures among the first `n`.
pub open spec fn attributed_total(active: Seq<bool>, weights: Seq<u64>, burden: u64, n: int) -> int
    decreases n,
{
    if n <= 0 {
        0
    } else {
        attributed_total(active, weights, burden, n - 1) + if active[n - 1] {
            attributed(weights[n - 1], burden)
        } else {
            0
        }
    }
}

/// The contributions of the active signatures among the first `n`, in index order.
pub open spec fn attribution(active: Seq<bool>, weights: Seq<u64>, burden: u64, n: int) -> Seq<Contribution>
    decreases n,
{
    if n <= 0 {
        Seq::empty()
    } else if active[n - 1] {
        attribution(active, weights, burden, n - 1).push(
            Contribution { signature: (n - 1) as usize, count: attributed(weights[n - 1], burden) as u128 },
        )
    } else {
        attribution(active, weights, burden, n - 1)
    }
}

/// Sum of the counts of a sequence of contributions.
pub open spec fn contribution_sum(s: Seq<Contribution>) -> int
    decreases s.len(),
{
    if s.len() == 0 {
        0
    } else {
        contribution_sum(s.drop_last()) + s.last().count
    }
}

proof fn lemma_product_fits(w: u64, b: u64)
    ensures
        0 <= attributed(w, b) <= u128::MAX,
{
    let x = w as int;
    let y = b as int;
    assert(0 <= x * y <= 0xffff_ffff_ffff_ffff * 0xffff_ffff_ffff_ffff) by (nonlinear_arith)
        requires 0 <= x <= 0xffff_ffff_ffff_ffff, 0 <= y <= 0xffff_ffff_ffff_ffff;
}

proof fn lemma_attributed_total_monotone(active: Seq<bool>, weights: Seq<u64>, burden: u64, m: int, n: int)
    requires
        0 <= m <= n,
    ensures
        0 <= attributed_total(active, weights, burden, m) <= attributed_total(active, weights, burden, n),
    decreases n,
{
    if n > 0 {
        if active[n - 1] {
            lemma_product_fits(weights[n - 1], burden);
        }
        if m < n {
            lemma_attributed_total_monotone(active, weights, burden, m, n - 1);
        } else {
            lemma_attributed_total_monotone(active, weights, burden, m - 1, n - 1);
        }
    }
}

/// The contributions sum to the attributed total, each count is the exact
/// attributed count, and signatures appear once each, in increasing order.
proof fn lemma_attribution_sum(active: Seq<bool>, weights: Seq<u64>, burden: u64, n: int)
    requires
        0 <= n <= active.len(),
        n <= weights.len(),
        n <= usize::MAX,
    ensures
        contribution_sum(attribution(active, weights, burden, n)) == attributed_total(active, weights, burden, n),
        forall|k: int| 0 <= k < attribution(active, weights, burden, n).len() ==> {
            let e = #[trigger] attribution(active, weights, burden, n)[k];
            &&& 0 <= e.signature < n
            &&& active[e.signature as int]
            &&& e.count as int == attributed(weights[e.signature as int], burden)
        },
    decreases n,
{
    if n > 0 {
        lemma_attribution_sum(active, weights, burden, n - 1);
        lemma_product_fits(weights[n - 1], burden);
        let p = attribution(active, weights, burden, n - 1);
        let s = attribution(active, weights, burden, n);
        if active[n - 1] {
            assert(s.drop_last() =~= p);
            assert forall|k: int| 0 <= k < s.len() implies {
                let e = #[trigger] s[k];
                &&& 0 <= e.signature < n
                &&& active[e.signature as int]
                &&& e.count as int == attributed(weights[e.signature as int], burden)
            } by {
                if k < p.len() {
                    assert(s[k] == p[k]);
                } else {
                    assert(s[k] == Contribution { signature: (n - 1) as usize, count: attributed(weights[n - 1], burden) as u128 });
                }
            }
        }
    }
}

proof fn lemma_active_count_shrinks(s: Seq<bool>, t: Seq<bool>)
    requires
        s.len() == t.len(),
        forall|i: int| 0 <= i < t.len() && t[i] ==> s[i],
    ensures
        0 <= active_count(t) <= active_count(s),
        (exists|i: int| 0 <= i < t.len() && s[i] && !t[i]) ==> active_count(t) < active_count(s),
        active_count(t) == 0 <==> forall|i: int| 0 <= i < t.len() ==> !t[i],
    decreases s.len(),
{
    if s.len() > 0 {
        let n = s.len() - 1;
        lemma_active_count_shrinks(s.drop_last(), t.drop_last());
        if exists|i: int| 0 <= i < t.len() && s[i] && !t[i] {
            let i = choose|i: int| 0 <= i < t.len() && s[i] && !t[i];
            if i < n {
                assert(s.drop_last()[i] && !t.drop_last()[i]);
            }
        }
        if active_count(t) == 0 {
            assert forall|i: int| 0 <= i < t.len() implies !t[i] by {
                if i < n {
                    assert(!t.drop_last()[i]);
                }
            }
        }
        if forall|i: int| 0 <= i < t.len() ==> !t[i] {
            assert(forall|i: int| 0 <= i < t.drop_last().len() ==> !t.drop_last()[i]);
        }
    }
}

/// The outcome of a fit that dropped nothing: the contributions of the active
/// signatures and the residual, or the flag that they exceed the burden.
fn settle(active: &Vec<bool>, weights: &Vec<u64>, burden: u64, error: u64) -> (r: FitStep)
    requires
        active@.len() == weights@.len(),
    ensures
        ({
            let n = active@.len() as int;
            let total = attributed_total(active@, weights@, burden, n);
            if total > residual_limit(burden) {
                r is NegativeResidual
            } else {
                &&& r is Stable
                &&& r->Stable_0.contributions@ == attribution(active@, weights@, burden, n)
                &&& r->Stable_0.residual == burden_units(burden) - total
                &&& r->Stable_0.reconstruction_error == error
                &&& contribution_sum(r->Stable_0.contributions@) + r->Stable_0.residual == burden_units(burden)
            }
        }),
{
    let n = active.len();
    let ghost next = active@;
    proof {
        lemma_attribution_sum(active@, weights@, burden, n as int);
    }
    proof {
        let b = burden as int;
        assert(0 <= b * 1_000_001_000 <= 0xffff_ffff_ffff_ffff * 1_000_001_000) by (nonlinear_arith)
            requires 0 <= b <= 0xffff_ffff_ffff_ffff;
        assert(0 <= b * 1_000_000_000 <= b * 1_000_001_000) by (nonlinear_arith)
            requires 0 <= b;
    }
    let limit: u128 = burden as u128 * (WEIGHT_SCALE + RESIDUAL_TOLERANCE) as u128;
    let mut sum: u128 = 0;
    let mut contributions: Vec<Contribution> = Vec::new();
    let mut k: usize = 0;
    while k < n
        invariant
            n == active@.len(),
            n == weights@.len(),
            k <= n,
            active@ == next,
            limit as int == residual_limit(burden),
            sum as int == attributed_total(next, weights@, burden, k as int),
            sum <= limit,
            contributions@ == attribution(next, weights@, burden, k as int),
        decreases n - k,
    {
        proof {
            lemma_product_fits(weights@[k as int], burden);
        }
        if active[k] {
            let w = weights[k] as u128 * burden as u128;
            if w > limit - sum {
                proof {
                    assert(attributed_total(next, weights@, burden, k as int + 1) == sum + w);
                    lemma_attributed_total_monotone(next, weights@, burden, k as int + 1, n as int);
                }
                return FitStep::NegativeResidual;
            }
            sum = sum + w;
            contributions.push(Contribution { signature: k, count: w });
        }
        k = k + 1;
    }
    let residual: i128 = burden as i128 * WEIGHT_SCALE as i128 - sum as i128;
    FitStep::Stable(AttributionResult { contributions, residual, reconstruction_error: error })
}

/// The state of one sample's prune-and-refit loop.
pub struct FitSession {
    active: Vec<bool>,
    burden: u64,
    min_contribution: u64,
    fits: usize,
    finished: bool,
    /// Signatures that some fit attributed below the contribution floor.
    dropped: Ghost<Set<int>>,
}

impl FitSession {
    pub closed spec fn active_view(&self) -> Seq<bool> {
        self.active@
    }

    pub closed spec fn burden_view(&self) -> u64 {
        self.burden
    }

    pub closed spec fn min_contribution_view(&self) -> u64 {
        self.min_contribution
    }

    pub closed spec fn fits_view(&self) -> int {
        self.fits as int
    }

    pub closed spec fn finished_view(&self) -> bool {
        self.finished
    }

    /// The signatures that some fit of this session attributed below the floor.
    pub closed spec fn dropped_view(&self) -> Set<int> {
        self.dropped@
    }

    /// Number of signatures in the catalog.
    pub open spec fn num_signatures(&self) -> int {
        self.active_view().len() as int
    }

    /// A measure that each round strictly lowers.
    pub open spec fn rounds_left(&self) -> int {
        if self.finished_view() { 0 } else { active_count(self.active_view()) + 1 }
    }

    pub closed spec fn wf(&self) -> bool {
        &&& !self.finished ==> self.fits + active_count(self.active@) <= self.active@.len()
        &&& !self.finished && self.fits > 0 ==> active_count(self.active@) >= 1
        &&& !self.finished && self.fits == 0 ==> active_count(self.active@) == self.active@.len()
        &&& self.finished ==> self.fits <= self.active@.len() || (self.active@.len() == 0 && self.fits == 1)
        &&& forall|i: int| self.dropped@.contains(i) ==> 0 <= i < self.active@.len() && !self.active@[i]
    }

    /// A session over `num_signatures` signatures, all active, for a sample of
    /// the given burden and contribution floor (in mutations).
    pub fn new(num_signatures: usize, burden: u64, min_contribution: u64) -> (r: FitSession)
        ensures
            r.wf(),
            r.active_view() == Seq::new(num_signatures as nat, |i: int| true),
            r.burden_view() == burden,
            r.min_contribution_view() == min_contribution,
            r.fits_view() == 0,
            !r.finished_view(),
            r.dropped_view() == Set::<int>::empty(),
    {
        let mut active: Vec<bool> = Vec::new();
        let mut i: usize = 0;
        while i < num_signatures
            invariant
                i <= num_signatures,
                active@ == Seq::new(i as nat, |j: int| true),
                active_count(active@) == i,
            decreases num_signatures - i,
        {
            active.push(true);
            assert(active@.drop_last() =~= Seq::new(i as nat, |j: int| true));
            i = i + 1;
            assert(active@ =~= Seq::new(i as nat, |j: int| true));
        }
        FitSession { active, burden, min_contribution, fits: 0, finished: false, dropped: Ghost(Set::empty()) }
    }

    /// Which signatures the next fit is restricted to.
    pub fn active(&self) -> (r: &Vec<bool>)
        ensures
            r@ == self.active_view(),
    {
        &self.active
    }

    /// Number of fits consumed so far.
    pub fn fits(&self) -> (r: usize)
        ensures
            r as int == self.fits_view(),
    {
        self.fits
    }

    /// Whether the loop has ended.
    pub fn is_finished(&self) -> (r: bool)
        ensures
            r == self.finished_view(),
    {
        self.finished
    }

    /// Takes the weights of one fit over the active set (entries of inactive
    /// signatures are ignored) and the fit's reconstruction error, prunes, and
    /// says what comes next.
    pub fn advance(&mut self, weights: &Vec<u64>, error: u64) -> (r: FitStep)
        requires
            old(self).wf(),
            !old(self).finished_view(),
            weights@.len() == old(self).num_signatures(),
        ensures
            final(self).wf(),
            ({
                let s = *old(self);
                let t = *final(self);
                let next = retained(s.active_view(), weights@, s.burden_view(), s.min_contribution_view());
                let n = s.num_signatures();
                let total = attributed_total(next, weights@, s.burden_view(), n);
                &&& t.active_view() == next
                &&& t.burden_view() == s.burden_view()
                &&& t.min_contribution_view() == s.min_contribution_view()
                &&& t.fits_view() == s.fits_view() + 1
                &&& t.dropped_view() == s.dropped_view().union(
                    Set::new(|i: int| 0 <= i < n && s.active_view()[i] && !next[i]))
                &&& t.finished_view() == !(r is Refit)
                &&& forall|i: int| 0 <= i < n && #[trigger] t.active_view()[i] ==> s.active_view()[i]
                &&& t.rounds_left() < s.rounds_left()
                &&& if active_count(next) == 0 {
                    r == FitStep::NoSignatureFits { residual: burden_units(s.burden_view()) as i128 }
                } else if next != s.active_view() {
                    r is Refit
                } else if total > residual_limit(s.burden_view()) {
                    r is NegativeResidual
                } else {
                    &&& r is Stable
                    &&& r->Stable_0.contributions@ == attribution(next, weights@, s.burden_view(), n)
                    &&& r->Stable_0.residual == burden_units(s.burden_view()) - total
                    &&& r->Stable_0.reconstruction_error == error
                    &&& contribution_sum(r->Stable_0.contributions@) + r->Stable_0.residual == burden_units(s.burden_view())
                    &&& forall|k: int| 0 <= k < r->Stable_0.contributions@.len() ==> {
                        let e = #[trigger] r->Stable_0.contributions@[k];
                        &&& !t.dropped_view().contains(e.signature as int)
                        &&& e.count >= contribution_floor(s.min_contribution_view())
                    }
                }
            }),
    {
        let n = self.active.len();
        let burden = self.burden;
        let floor: u128 = self.min_contribution as u128 * WEIGHT_SCALE as u128;
        let ghost old_active = self.active@;
        let ghost next = retained(old_active, weights@, burden, self.min_contribution);
        let mut changed = false;
        let mut remaining: usize = 0;
        let mut i: usize = 0;
        while i < n
            invariant
                n == self.active@.len(),
                n == weights@.len(),
                i <= n,
                burden == self.burden,
                floor as int == contribution_floor(self.min_contribution),
                next == retained(old_active, weights@, burden, self.min_contribution),
                self.active@.len() == old_active.len(),
                forall|j: int| 0 <= j < i ==> self.active@[j] == next[j],
                forall|j: int| i <= j < n ==> self.active@[j] == old_active[j],
                changed <==> exists|j: int| 0 <= j < i && old_active[j] && !next[j],
                remaining as int == active_count(next.take(i as int)),
                remaining <= i,
                self.fits == old(self).fits,
                self.finished == old(self).finished,
                self.dropped == old(self).dropped,
                self.min_contribution == old(self).min_contribution,
            decreases n - i,
        {
            proof {
                lemma_product_fits(weights@[i as int], burden);
            }
            let w = weights[i] as u128 * burden as u128;
            let keep = self.active[i] && w >= floor;
            assert(keep == next[i as int]);
            if self.active[i] && !keep {
                changed = true;
            }
            assert(changed <==> exists|j: int| 0 <= j < i + 1 && old_active[j] && !next[j]) by {
                if old_active[i as int] && !next[i as int] {
                    assert(changed);
                }
            }
            self.active.set(i, keep);
            assert(next.take(i as int + 1).drop_last() =~= next.take(i as int));
            if keep {
                remaining = remaining + 1;
            }
            i = i + 1;
        }
        proof {
            assert(next.take(n as int) =~= next);
            assert(self.active@ =~= next);
            lemma_active_count_shrinks(old_active, next);
            if !changed {
                assert(next =~= old_active);
            } else {
                let j = choose|j: int| 0 <= j < n && old_active[j] && !next[j];
                assert(next[j] != old_active[j]);
            }
            self.dropped@ = self.dropped@.union(Set::new(|j: int| 0 <= j < n && old_active[j] && !next[j]));
            assert forall|j: int| self.dropped@.contains(j) implies 0 <= j < self.active@.len() && !self.active@[j] by {
                if old(self).dropped@.contains(j) {
                    assert(!old_active[j]);
                    assert(!next[j]);
                } else {
                    assert(Set::new(|j: int| 0 <= j < n && old_active[j] && !next[j]).contains(j));
                    assert(!next[j]);
                }
            }
            assert(old(self).fits == 0 || active_count(old_active) >= 1);
        }
        self.fits = self.fits + 1;
        if remaining == 0 {
            self.finished = true;
            proof {
                let b = burden as int;
                assert(0 <= b * 1_000_000_000 <= 0xffff_ffff_ffff_ffff * 1_000_000_000) by (nonlinear_arith)
                    requires 0 <= b <= 0xffff_ffff_ffff_ffff;
            }
            return FitStep::NoSignatureFits { residual: burden as i128 * WEIGHT_SCALE as i128 };
        }
        if changed {
            return FitStep::Refit;
        }
        self.finished = true;
        proof {
            lemma_attribution_sum(next, weights@, burden, n as int);
        }
        settle(&self.active, weights, burden, error)
    }
}

/// The loop ends within as many fits as there are signatures (one fit when the
/// catalog is empty), since each round lowers `rounds_left`, which is zero
/// exactly when the loop has ended.
pub proof fn lemma_fit_rounds_bounded(s: FitSession)
    requires
        s.wf(),
    ensures
        s.fits_view() <= s.num_signatures() || (s.num_signatures() == 0 && s.fits_view() == 1),
        s.rounds_left() >= 0,
        s.rounds_left() == 0 <==> s.finished_view(),
        s.fits_view() + s.rounds_left() <= s.num_signatures() + 1,
{
    if !s.finished_view() {
        lemma_active_count_shrinks(s.active_view(), s.active_view());
    }
}

/// A signature that some fit attributed below the contribution floor stays
/// out of the active set, and so out of every later fit and of the result.
pub proof fn lemma_dropped_stay_inactive(s: FitSession, i: int)
    requires
        s.wf(),
        s.dropped_view().contains(i),
    ensures
        0 <= i < s.num_signatures(),
        !s.active_view()[i],
{
}

} // verus!
