//! Rolling health statistics for one tunnel endpoint.
//!
//! A bounded window of recent probe and traffic outcomes is kept, and from it
//! a composite health score is derived: lower is healthier.  The score is the
//! integer part of
//!
//! ```text
//! 1000 * (latency/2000 + 3 * failure_rate + stdev/sqrt(2000000)) / 5
//! ```
//!
//! where `latency` is the median of the latency samples in the window,
//! `failure_rate` the fraction of failed outcomes, and `stdev` the corrected
//! sample standard deviation of the latency samples.  All state is kept in
//! exact integer form: rates and variances are held as numerator/denominator
//! pairs, and the square root is never computed; instead the integer part of
//! the score is characterized by an equivalent polynomial inequality
//! (`score_at_least`), so the result equals the mathematical value exactly.

use std::collections::VecDeque;
use vstd::prelude::*;
use vstd::relations::{sorted_by, total_ordering};
use vstd::seq_lib::lemma_sorted_unique;

verus! {

broadcast use vstd::seq_lib::group_to_multiset_ensures;

/// Fixed probing interval, in seconds.
pub const DEFAULT_CHECK_INTERVAL_SEC: u64 = 6;

/// Fixed probe timeout, in seconds; doubles as the latency ceiling.
pub const DEFAULT_CHECK_TIMEOUT_SEC: u64 = 2;

/// How many recent outcomes the rolling window keeps.
pub const MAX_LATENCY_QUEUE_SIZE: usize = 99;

/// Latency ceiling in milliseconds, equal to the probe timeout: no recorded
/// latency sample exceeds it.
pub const MAX_SERVER_RTT: u64 = 2000;

/// One observed outcome for an endpoint: a measured round-trip latency in
/// milliseconds, or a failed attempt.
#[derive(Debug, Copy, Clone, PartialEq, Eq, Structural)]
pub enum Score {
    Latency(u64),
    Errored,
}

/// An outcome respects the probe-timeout ceiling.
pub open spec fn outcome_bounded(s: Score) -> bool {
    match s {
        Score::Latency(v) => v <= MAX_SERVER_RTT,
        Score::Errored => true,
    }
}

/// The latency samples of a window, in window order.
pub open spec fn lats(w: Seq<Score>) -> Seq<u64>
    decreases w.len(),
{
    if w.len() == 0 {
        Seq::empty()
    } else {
        match w.last() {
            Score::Latency(v) => lats(w.drop_last()).push(v),
            Score::Errored => lats(w.drop_last()),
        }
    }
}

/// The number of failed outcomes in a window.
pub open spec fn err_count(w: Seq<Score>) -> int
    decreases w.len(),
{
    if w.len() == 0 {
        0
    } else {
        err_count(w.drop_last()) + if w.last() is Errored {
            1int
        } else {
            0int
        }
    }
}

pub open spec fn sum_of(s: Seq<u64>) -> int
    decreases s.len(),
{
    if s.len() == 0 {
        0
    } else {
        sum_of(s.drop_last()) + s.last()
    }
}

pub open spec fn sum_sq(s: Seq<u64>) -> int
    decreases s.len(),
{
    if s.len() == 0 {
        0
    } else {
        sum_sq(s.drop_last()) + s.last() * s.last()
    }
}

pub open spec fn latency_le() -> spec_fn(u64, u64) -> bool {
    |x: u64, y: u64| x <= y
}

/// The latency samples of a window in ascending order.
pub open spec fn sorted_lats(w: Seq<Score>) -> Seq<u64> {
    lats(w).sort_by(latency_le())
}

/// The median latency of a window: the central sample, or for an even number
/// of samples the (truncated) average of the two central ones.
pub open spec fn median_of(w: Seq<Score>) -> int {
    let l = sorted_lats(w);
    let mid = l.len() as int / 2;
    if l.len() % 2 == 0 {
        (l[mid - 1] + l[mid]) / 2
    } else {
        l[mid] as int
    }
}

/// Mathematical state of a [`ServerStat`].
///
/// `fail_num / fail_den` is the failure rate, `var_num / var_den` the squared
/// corrected sample standard deviation of the latency samples, and
/// `mean_num / mean_den` their arithmetic mean, each an exact rational.
#[verifier::ext_equal]
pub struct StatModel {
    pub rtt: int,
    pub fail_num: int,
    pub fail_den: int,
    pub var_num: int,
    pub var_den: int,
    pub mean_num: int,
    pub mean_den: int,
    pub window: Seq<Score>,
}

/// Well-formedness of the statistics state.  The variance bound follows from
/// the latency ceiling: for n samples in [0, 2000], the corrected sum of
/// squared deviations is at most 4000000 * n^2 / 2 <= 8000000 * n * (n - 1).
pub open spec fn stat_wf(m: StatModel) -> bool {
    &&& m.window.len() <= 99
    &&& (forall|i: int| 0 <= i < m.window.len() ==> outcome_bounded(#[trigger] m.window[i]))
    &&& 0 <= m.rtt <= 2000
    &&& 1 <= m.fail_den <= 99
    &&& 0 <= m.fail_num <= m.fail_den
    &&& 1 <= m.var_den <= 9702
    &&& 0 <= m.var_num <= 8000000 * m.var_den
    &&& 1 <= m.mean_den <= 99
    &&& 0 <= m.mean_num <= 2000 * m.mean_den
}

/// `k` is at most the real-valued score.  The real score is
/// `rtt/10 + 600 * fail_num/fail_den + sqrt(var_num / (50 * var_den))`
/// (the weighted formula above with the constants folded in).  Writing
/// `p = 10*k*fail_den - (rtt*fail_den + 6000*fail_num)`, we have
/// `k <= score` iff `p <= 0` or `p^2 / (100*fail_den^2) <= var_num/(50*var_den)`,
/// i.e. `var_den * p^2 <= 2 * var_num * fail_den^2`.
pub open spec fn score_at_least(m: StatModel, k: int) -> bool {
    let p = 10 * k * m.fail_den - (m.rtt * m.fail_den + 6000 * m.fail_num);
    p <= 0 || m.var_den * (p * p) <= 2 * m.var_num * (m.fail_den * m.fail_den)
}

pub open spec fn score_upto(m: StatModel, k: nat) -> int
    decreases k,
{
    if k == 0 {
        0
    } else if score_at_least(m, k as int) {
        k as int
    } else {
        score_upto(m, (k - 1) as nat)
    }
}

/// The health score: the integer part of the real-valued score, i.e. the
/// largest `k <= 1200` with `score_at_least(m, k)`.  (The real score is at
/// most 200 + 600 + 400 = 1200 for any well-formed state.)
pub open spec fn score_spec(m: StatModel) -> int {
    score_upto(m, 1200)
}

pub proof fn lemma_score_at_least_zero(m: StatModel)
    requires
        stat_wf(m),
    ensures
        score_at_least(m, 0),
{
    assert(m.rtt * m.fail_den >= 0) by (nonlinear_arith)
        requires
            m.rtt >= 0,
            m.fail_den >= 0,
    ;
    assert(10 * 0 * m.fail_den == 0) by (nonlinear_arith);
    assert(6000 * m.fail_num >= 0);
}

pub proof fn lemma_score_mono(m: StatModel, k: int)
    requires
        stat_wf(m),
        score_at_least(m, k + 1),
    ensures
        score_at_least(m, k),
{
    let base = m.rtt * m.fail_den + 6000 * m.fail_num;
    let p1 = 10 * (k + 1) * m.fail_den - base;
    let p0 = 10 * k * m.fail_den - base;
    assert(10 * (k + 1) * m.fail_den == 10 * k * m.fail_den + 10 * m.fail_den) by (nonlinear_arith);
    if p1 <= 0 {
        assert(p0 <= 0);
    } else if p0 > 0 {
        assert(m.var_den * (p0 * p0) <= m.var_den * (p1 * p1)) by (nonlinear_arith)
            requires
                0 < p0 <= p1,
                m.var_den >= 0,
        ;
    }
}

pub proof fn lemma_score_mono_range(m: StatModel, j: int, k: int)
    requires
        stat_wf(m),
        j <= k,
        score_at_least(m, k),
    ensures
        score_at_least(m, j),
    decreases k - j,
{
    if j < k {
        lemma_score_mono(m, k - 1);
        lemma_score_mono_range(m, j, k - 1);
    }
}

pub proof fn lemma_score_bounded(m: StatModel)
    requires
        stat_wf(m),
    ensures
        !score_at_least(m, 1201),
{
    let base = m.rtt * m.fail_den + 6000 * m.fail_num;
    let p = 10 * 1201 * m.fail_den - base;
    assert(p >= 4010 * m.fail_den) by (nonlinear_arith)
        requires
            m.rtt <= 2000,
            m.fail_num <= m.fail_den,
            m.fail_den >= 1,
            p == 10 * 1201 * m.fail_den - (m.rtt * m.fail_den + 6000 * m.fail_num),
    ;
    assert(m.var_den * (p * p) > 2 * m.var_num * (m.fail_den * m.fail_den)) by (nonlinear_arith)
        requires
            p >= 4010 * m.fail_den,
            m.fail_den >= 1,
            m.var_den >= 1,
            0 <= m.var_num <= 8000000 * m.var_den,
    ;
}

pub proof fn lemma_score_upto_pins(m: StatModel, k: int, b: nat)
    requires
        stat_wf(m),
        0 <= k <= b,
        score_at_least(m, k),
        !score_at_least(m, k + 1),
    ensures
        score_upto(m, b) == k,
    decreases b,
{
    if k < b {
        if score_at_least(m, b as int) {
            lemma_score_mono_range(m, k + 1, b as int);
        }
        lemma_score_upto_pins(m, k, (b - 1) as nat);
    }
}

/// Every latency sample of a bounded window respects the ceiling, and there
/// are as many samples and failures together as window entries.
pub proof fn lemma_lats_shape(w: Seq<Score>)
    requires
        forall|i: int| 0 <= i < w.len() ==> outcome_bounded(#[trigger] w[i]),
    ensures
        forall|i: int| 0 <= i < lats(w).len() ==> #[trigger] lats(w)[i] <= 2000,
        lats(w).len() + err_count(w) == w.len(),
        0 <= err_count(w),
    decreases w.len(),
{
    if w.len() > 0 {
        assert(forall|i: int|
            0 <= i < w.drop_last().len() ==> outcome_bounded(#[trigger] w.drop_last()[i]));
        lemma_lats_shape(w.drop_last());
    }
}

pub proof fn lemma_sums_nonneg(s: Seq<u64>)
    ensures
        sum_of(s) >= 0,
        sum_sq(s) >= 0,
    decreases s.len(),
{
    if s.len() > 0 {
        lemma_sums_nonneg(s.drop_last());
        assert(s.last() * s.last() >= 0) by (nonlinear_arith);
    }
}

proof fn lemma_sum_mul_le(s: Seq<u64>, y: u64)
    ensures
        2 * sum_of(s) * y <= sum_sq(s) + s.len() * (y * y),
    decreases s.len(),
{
    if s.len() == 0 {
        assert(2 * sum_of(s) * y == 0 && s.len() * (y * y) == 0) by (nonlinear_arith)
            requires
                sum_of(s) == 0,
                s.len() == 0,
        ;
    } else {
        let t = s.drop_last();
        let x = s.last() as int;
        lemma_sum_mul_le(t, y);
        let a = sum_of(t);
        let q = sum_sq(t);
        let n = t.len() as int;
        assert(sum_of(s) == a + x);
        assert(sum_sq(s) == q + x * x);
        assert(s.len() as int == n + 1);
        assert(2 * (a + x) * y <= (q + x * x) + (n + 1) * (y as int * y as int))
            by (nonlinear_arith)
            requires
                2 * a * y <= q + n * (y as int * y as int),
        ;
        assert(2 * sum_of(s) * y == 2 * (a + x) * y) by (nonlinear_arith)
            requires
                sum_of(s) == a + x,
        ;
        assert(s.len() * (y as int * y as int) == (n + 1) * (y as int * y as int))
            by (nonlinear_arith)
            requires
                s.len() as int == n + 1,
        ;
        assert(2 * sum_of(s) * y <= sum_sq(s) + s.len() * (y * y));
    }
}

/// Cauchy-Schwarz for the window sums: the squared sum of the samples never
/// exceeds their count times the sum of their squares.  This makes the
/// corrected sum of squared deviations `n * sum_sq - sum^2` nonnegative.
pub proof fn lemma_cauchy_schwarz(s: Seq<u64>)
    ensures
        sum_of(s) * sum_of(s) <= s.len() * sum_sq(s),
    decreases s.len(),
{
    if s.len() > 0 {
        let t = s.drop_last();
        let x = s.last();
        lemma_cauchy_schwarz(t);
        lemma_sum_mul_le(t, x);
        let n = t.len() as int;
        let sm = sum_of(t);
        let q = sum_sq(t);
        assert((sm + x) * (sm + x) <= (n + 1) * (q + x * x)) by (nonlinear_arith)
            requires
                sm * sm <= n * q,
                2 * sm * x <= q + n * (x * x),
        ;
    }
}

/// The window after an outcome is appended: the oldest entry is evicted once
/// the window would exceed its capacity.
pub open spec fn push_window(w: Seq<Score>, s: Score) -> Seq<Score> {
    if w.len() < 99 {
        w.push(s)
    } else {
        w.push(s).subrange(1, w.len() as int + 1)
    }
}

/// How one recomputation changes the statistics, given the new window
/// `post.window`:
/// - the failure rate is the failure count over the window length;
/// - the median is recomputed when at least one latency sample exists,
///   otherwise retained;
/// - mean and variance are recomputed when at least two latency samples
///   exist, otherwise retained.
pub open spec fn stats_recomputed(pre: StatModel, post: StatModel) -> bool {
    let w = post.window;
    let l = lats(w);
    &&& post.fail_den == w.len()
    &&& post.fail_num == err_count(w)
    &&& post.rtt == if l.len() > 0 {
        median_of(w)
    } else {
        pre.rtt
    }
    &&& if l.len() >= 2 {
        &&& post.var_num == l.len() * sum_sq(l) - sum_of(l) * sum_of(l)
        &&& post.var_den == l.len() * (l.len() - 1)
        &&& post.mean_num == sum_of(l)
        &&& post.mean_den == l.len()
    } else {
        &&& post.var_num == pre.var_num
        &&& post.var_den == pre.var_den
        &&& post.mean_num == pre.mean_num
        &&& post.mean_den == pre.mean_den
    }
}

/// The state of a freshly constructed [`ServerStat`]: ceiling latency,
/// pessimistic failure rate of one, zero mean and variance, empty window.
pub open spec fn initial_stat() -> StatModel {
    StatModel {
        rtt: 2000,
        fail_num: 1,
        fail_den: 1,
        var_num: 0,
        var_den: 1,
        mean_num: 0,
        mean_den: 1,
        window: Seq::empty(),
    }
}

/// Rolling statistics engine for one endpoint.
pub struct ServerStat {
    rtt: u64,
    fail_num: u64,
    fail_den: u64,
    latency_queue: VecDeque<Score>,
    var_num: u64,
    var_den: u64,
    mean_num: u64,
    mean_den: u64,
}

impl View for ServerStat {
    type V = StatModel;

    closed spec fn view(&self) -> StatModel {
        StatModel {
            rtt: self.rtt as int,
            fail_num: self.fail_num as int,
            fail_den: self.fail_den as int,
            var_num: self.var_num as int,
            var_den: self.var_den as int,
            mean_num: self.mean_num as int,
            mean_den: self.mean_den as int,
            window: self.latency_queue@,
        }
    }
}

impl ServerStat {
    pub fn new() -> (r: ServerStat)
        ensures
            r@ =~= initial_stat(),
            stat_wf(r@),
    {
        ServerStat {
            rtt: MAX_SERVER_RTT,
            fail_num: 1,
            fail_den: 1,
            latency_queue: VecDeque::new(),
            var_num: 0,
            var_den: 1,
            mean_num: 0,
            mean_den: 1,
        }
    }

    /// Does the real-valued score reach `k`?  Exact integer test, see
    /// [`score_at_least`].
    fn at_least(&self, k: u64) -> (r: bool)
        requires
            stat_wf(self@),
            k <= 1201,
        ensures
            r == score_at_least(self@, k as int),
    {
        proof {
            assert(10 * k as int * self@.fail_den <= 1188990) by (nonlinear_arith)
                requires
                    k <= 1201,
                    1 <= self@.fail_den <= 99,
            ;
            assert(self@.rtt * self@.fail_den <= 198000) by (nonlinear_arith)
                requires
                    0 <= self@.rtt <= 2000,
                    1 <= self@.fail_den <= 99,
            ;
        }
        let lhs: u64 = 10 * k * self.fail_den;
        let rhs: u64 = self.rtt * self.fail_den + 6000 * self.fail_num;
        if lhs <= rhs {
            true
        } else {
            let p: u64 = lhs - rhs;
            proof {
                assert(p as int * p as int <= 1188990 * 1188990int) by (nonlinear_arith)
                    requires
                        0 < p <= 1188990,
                ;
                assert(self@.var_den * (p as int * p as int) <= 9702 * (1188990 * 1188990int))
                    by (nonlinear_arith)
                    requires
                        1 <= self@.var_den <= 9702,
                        0 <= p as int * p as int <= 1188990 * 1188990int,
                ;
                assert(self@.fail_den * self@.fail_den <= 9801) by (nonlinear_arith)
                    requires
                        1 <= self@.fail_den <= 99,
                ;
                assert(self@.var_num <= 77616000000int) by (nonlinear_arith)
                    requires
                        0 <= self@.var_num <= 8000000 * self@.var_den,
                        1 <= self@.var_den <= 9702,
                ;
                assert(2 * self@.var_num * (self@.fail_den * self@.fail_den) <= 2 * 77616000000int
                    * 9801) by (nonlinear_arith)
                    requires
                        0 <= self@.var_num <= 77616000000int,
                        0 <= self@.fail_den * self@.fail_den <= 9801,
                ;
            }
            let left: u64 = self.var_den * (p * p);
            let right: u64 = 2 * self.var_num * (self.fail_den * self.fail_den);
            left <= right
        }
    }

    /// The current composite health score; lower is healthier.
    pub fn score(&self) -> (r: u64)
        requires
            stat_wf(self@),
        ensures
            r as int == score_spec(self@),
            r <= 1200,
    {
        proof {
            lemma_score_at_least_zero(self@);
            lemma_score_bounded(self@);
        }
        let mut k: u64 = 0;
        while self.at_least(k + 1)
            invariant
                stat_wf(self@),
                k <= 1200,
                score_at_least(self@, k as int),
            decreases 1200 - k,
        {
            k = k + 1;
            proof {
                if k > 1200 {
                    lemma_score_bounded(self@);
                    assert(false);
                }
            }
        }
        proof {
            lemma_score_upto_pins(self@, k as int, 1200);
        }
        k
    }

    /// Appends an outcome to the rolling window, evicting the oldest entry
    /// beyond the window capacity, recomputes the statistics and returns the
    /// new score.
    pub fn push_score(&mut self, s: Score) -> (r: u64)
        requires
            stat_wf(old(self)@),
            outcome_bounded(s),
        ensures
            stat_wf(final(self)@),
            final(self)@.window =~= push_window(old(self)@.window, s),
            stats_recomputed(old(self)@, final(self)@),
            r as int == score_spec(final(self)@),
    {
        self.latency_queue.push_back(s);
        if self.latency_queue.len() > MAX_LATENCY_QUEUE_SIZE {
            let _evicted = self.latency_queue.pop_front();
        }
        proof {
            assert(forall|i: int|
                0 <= i < self@.window.len() ==> outcome_bounded(#[trigger] self@.window[i]));
        }
        self.recalculate_score()
    }

    /// Recomputes failure rate, median, mean and variance from the current
    /// window; on an empty window the state is left untouched (only the case
    /// at construction time).  Returns the score of the resulting state.
    fn recalculate_score(&mut self) -> (r: u64)
        requires
            stat_wf(old(self)@),
        ensures
            stat_wf(final(self)@),
            final(self)@.window == old(self)@.window,
            old(self)@.window.len() == 0 ==> final(self)@ =~= old(self)@,
            old(self)@.window.len() > 0 ==> stats_recomputed(old(self)@, final(self)@),
            r as int == score_spec(final(self)@),
    {
        let n = self.latency_queue.len();
        if n == 0 {
            return self.score();
        }
        let ghost w = self.latency_queue@;

        let mut vlat: Vec<u64> = Vec::new();
        let mut cerr: u64 = 0;
        let mut i: usize = 0;
        while i < n
            invariant
                i <= n,
                n == w.len() <= 99,
                self.latency_queue@ == w,
                forall|q: int| 0 <= q < w.len() ==> outcome_bounded(#[trigger] w[q]),
                vlat@ == lats(w.take(i as int)),
                cerr as int == err_count(w.take(i as int)),
                vlat@.len() + cerr as int == i as int,
            decreases n - i,
        {
            proof {
                assert(w.take(i + 1).drop_last() =~= w.take(i as int));
                assert(w.take(i + 1).last() == w[i as int]);
            }
            let sc = self.latency_queue[i];
            match sc {
                Score::Errored => {
                    cerr = cerr + 1;
                },
                Score::Latency(v) => {
                    vlat.push(v);
                },
            }
            i = i + 1;
        }
        proof {
            assert(w.take(n as int) =~= w);
            lemma_lats_shape(w);
        }
        // vlat now holds exactly the latency samples of the window, in order,
        // and cerr the failure count.
        self.fail_num = cerr;
        self.fail_den = n as u64;

        if vlat.len() > 0 {
            let m = vlat.len();
            let mut total: u64 = 0;
            let mut totsq: u64 = 0;
            let mut j: usize = 0;
            while j < m
                invariant
                    j <= m,
                    m == vlat@.len() <= 99,
                    vlat@ == lats(w),
                    forall|q: int| 0 <= q < vlat@.len() ==> #[trigger] vlat@[q] <= 2000,
                    total as int == sum_of(vlat@.take(j as int)),
                    totsq as int == sum_sq(vlat@.take(j as int)),
                    total <= 2000 * j,
                    totsq <= 4000000 * j,
                decreases m - j,
            {
                proof {
                    assert(vlat@.take(j + 1).drop_last() =~= vlat@.take(j as int));
                    assert(vlat@.take(j + 1).last() == vlat@[j as int]);
                }
                let x = vlat[j];
                proof {
                    assert(x as int * x as int <= 4000000) by (nonlinear_arith)
                        requires
                            x <= 2000,
                    ;
                }
                total = total + x;
                totsq = totsq + x * x;
                j = j + 1;
            }
            proof {
                assert(vlat@.take(m as int) =~= vlat@);
            }

            let sorted = sort_latencies(&vlat);
            proof {
                let le = latency_le();
                lemma_latency_le_total();
                lats(w).lemma_sort_by_ensures(le);
                lemma_sorted_unique(sorted@, lats(w).sort_by(le), le);
                assert(sorted@ =~= sorted_lats(w));
                lemma_multiset_elem_bound(vlat@, sorted@, 2000);
            }
            let mid = m / 2;
            self.rtt = if m % 2 == 0 {
                (sorted[mid - 1] + sorted[mid]) / 2
            } else {
                sorted[mid]
            };

            if m > 1 {
                let nl = m as u64;
                proof {
                    lemma_cauchy_schwarz(vlat@);
                    lemma_sums_nonneg(vlat@);
                    assert(nl as int * totsq as int <= 99 * (4000000int * 99)) by (nonlinear_arith)
                        requires
                            2 <= nl <= 99,
                            0 <= totsq <= 4000000 * nl,
                    ;
                    assert(total as int * total as int <= nl as int * totsq as int);
                    // variance bound: n * sum_sq <= 4000000 * n^2 <= 8000000 * n * (n - 1)
                    assert(nl as int * totsq as int <= 8000000 * (nl as int * (nl as int - 1)))
                        by (nonlinear_arith)
                        requires
                            2 <= nl <= 99,
                            0 <= totsq <= 4000000 * nl,
                    ;
                    assert(1 <= nl as int * (nl as int - 1) <= 9702) by (nonlinear_arith)
                        requires
                            2 <= nl <= 99,
                    ;
                    assert(total as int * total as int >= 0) by (nonlinear_arith);
                }
                self.var_num = nl * totsq - total * total;
                self.var_den = nl * (nl - 1);
                self.mean_num = total;
                self.mean_den = nl;
            }
        }
        self.score()
    }

    /// The current median latency in milliseconds.
    pub fn latency_ms(&self) -> (r: u64)
        ensures
            r as int == self@.rtt,
    {
        self.rtt
    }

    /// The failure rate as an exact fraction (numerator, denominator).
    pub fn failure_rate(&self) -> (r: (u64, u64))
        ensures
            r.0 as int == self@.fail_num,
            r.1 as int == self@.fail_den,
    {
        (self.fail_num, self.fail_den)
    }

    /// The squared corrected sample standard deviation of the latency
    /// samples, as an exact fraction (numerator, denominator).
    pub fn latency_variance(&self) -> (r: (u64, u64))
        ensures
            r.0 as int == self@.var_num,
            r.1 as int == self@.var_den,
    {
        (self.var_num, self.var_den)
    }

    /// The arithmetic mean of the latency samples, as an exact fraction
    /// (numerator, denominator).
    pub fn latency_mean(&self) -> (r: (u64, u64))
        ensures
            r.0 as int == self@.mean_num,
            r.1 as int == self@.mean_den,
    {
        (self.mean_num, self.mean_den)
    }

    /// How many outcomes the rolling window currently holds.
    pub fn window_len(&self) -> (r: usize)
        ensures
            r == self@.window.len(),
    {
        self.latency_queue.len()
    }

    /// The outcome at position `i` of the window, oldest first.
    pub fn outcome_at(&self, i: usize) -> (r: Score)
        requires
            i < self@.window.len(),
        ensures
            r == self@.window[i as int],
    {
        self.latency_queue[i]
    }
}

/// Failure rate and variance stay within their bounds in every well-formed
/// state: `0 <= fail_num/fail_den <= 1` and the squared standard deviation is
/// nonnegative, so the standard deviation is as well.
pub proof fn lemma_stat_bounds(m: StatModel)
    requires
        stat_wf(m),
    ensures
        0 <= m.fail_num <= m.fail_den,
        1 <= m.fail_den,
        0 <= m.var_num,
        1 <= m.var_den,
{
}

/// Recording a failure never lowers the failure rate, and strictly raises it
/// whenever the window is not yet full and the rate was below one — so the
/// next selection sees the endpoint as at least as unhealthy as before.  The
/// stored rate must describe the window (it always does in reachable states:
/// fresh statistics pair an empty window with the pessimistic rate of one).
pub proof fn lemma_failure_feedback(pre: StatModel, post: StatModel)
    requires
        stat_wf(pre),
        pre.window.len() < 99,
        pre.window.len() > 0 ==> pre.fail_den == pre.window.len() && pre.fail_num == err_count(
            pre.window,
        ),
        pre.window.len() == 0 ==> pre.fail_num == pre.fail_den,
        post.window =~= push_window(pre.window, Score::Errored),
        stats_recomputed(pre, post),
    ensures
        post.fail_num * pre.fail_den >= pre.fail_num * post.fail_den,
        pre.fail_num < pre.fail_den ==> post.fail_num * pre.fail_den > pre.fail_num
            * post.fail_den,
{
    let w = post.window;
    assert(w.drop_last() =~= pre.window);
    assert(w.last() == Score::Errored);
    assert(err_count(w) == err_count(pre.window) + 1);
    lemma_lats_shape(pre.window);
    let n = pre.window.len() as int;
    let c = err_count(pre.window);
    assert(0 <= c <= n);
    assert(post.fail_den == n + 1 && post.fail_num == c + 1);
    if n == 0 {
        assert(post.fail_num * pre.fail_den == pre.fail_den) by (nonlinear_arith)
            requires
                post.fail_num == 1,
        ;
        assert(pre.fail_num * post.fail_den == pre.fail_num) by (nonlinear_arith)
            requires
                post.fail_den == 1,
        ;
    } else {
        assert((c + 1) * n >= c * (n + 1) && (c < n ==> (c + 1) * n > c * (n + 1)))
            by (nonlinear_arith)
            requires
                0 <= c <= n,
        ;
    }
}

/// Elements carried over by a multiset-preserving rearrangement keep their
/// bound.
proof fn lemma_multiset_elem_bound(a: Seq<u64>, b: Seq<u64>, bound: u64)
    requires
        a.to_multiset() == b.to_multiset(),
        forall|i: int| 0 <= i < a.len() ==> #[trigger] a[i] <= bound,
    ensures
        forall|i: int| 0 <= i < b.len() ==> #[trigger] b[i] <= bound,
{
    assert forall|i: int| 0 <= i < b.len() implies #[trigger] b[i] <= bound by {
        assert(b.contains(b[i]));
        assert(b.to_multiset().count(b[i]) > 0);
        assert(a.contains(b[i]));
    }
}

/// `<=` on the latency samples is a total ordering.
proof fn lemma_latency_le_total()
    ensures
        total_ordering(latency_le()),
{
    let le = latency_le();
    assert(vstd::relations::reflexive(le)) by {
        assert(forall|x: u64| #[trigger] le(x, x));
    }
    assert(vstd::relations::antisymmetric(le)) by {
        assert(forall|x: u64, y: u64| #[trigger] le(x, y) && #[trigger] le(y, x) ==> x == y);
    }
    assert(vstd::relations::transitive(le)) by {
        assert(forall|x: u64, y: u64, z: u64|
            #[trigger] le(x, y) && #[trigger] le(y, z) ==> le(x, z));
    }
    assert(vstd::relations::strongly_connected(le)) by {
        assert(forall|x: u64, y: u64| #[trigger] le(x, y) || #[trigger] le(y, x));
    }
}

/// Insertion sort over the latency samples: ascending order, same multiset.
fn sort_latencies(v: &Vec<u64>) -> (r: Vec<u64>)
    ensures
        sorted_by(r@, latency_le()),
        r@.to_multiset() == v@.to_multiset(),
        r@.len() == v@.len(),
{
    let mut r: Vec<u64> = Vec::new();
    let mut i: usize = 0;
    while i < v.len()
        invariant
            i <= v@.len(),
            r@.len() == i,
            sorted_by(r@, latency_le()),
            r@.to_multiset() == v@.take(i as int).to_multiset(),
        decreases v@.len() - i,
    {
        let x = v[i];
        let mut pos: usize = 0;
        while pos < r.len() && r[pos] <= x
            invariant
                pos <= r@.len(),
                forall|q: int| 0 <= q < pos ==> #[trigger] r@[q] <= x,
                sorted_by(r@, latency_le()),
            decreases r@.len() - pos,
        {
            pos = pos + 1;
        }
        let ghost old_r = r@;
        r.insert(pos, x);
        proof {
            let le = latency_le();
            assert forall|q1: int, q2: int| 0 <= q1 < q2 < r@.len() implies latency_le()(
                r@[q1],
                r@[q2],
            ) by {
                if q2 < pos {
                    assert(le(old_r[q1], old_r[q2]));
                } else if q2 == pos {
                    assert(r@[q1] == old_r[q1] && r@[q2] == x);
                } else {
                    // q2 > pos, so the element at q2 is old_r[q2 - 1] >= old_r[pos] > x
                    assert(r@[q2] == old_r[q2 - 1]);
                    if pos < q2 - 1 {
                        assert(le(old_r[pos as int], old_r[q2 - 1]));
                    }
                    if q1 < pos {
                        assert(r@[q1] == old_r[q1] && old_r[q1] <= x);
                    } else if q1 == pos {
                        assert(r@[q1] == x);
                    } else {
                        assert(r@[q1] == old_r[q1 - 1]);
                        if q1 - 1 < q2 - 1 {
                            assert(le(old_r[q1 - 1], old_r[q2 - 1]));
                        }
                    }
                }
            }
            vstd::seq_lib::to_multiset_insert(old_r, pos as int, x);
            assert(v@.take(i + 1).drop_last() =~= v@.take(i as int));
            assert(v@.take(i + 1) =~= v@.take(i as int).push(x));
        }
        i = i + 1;
    }
    proof {
        assert(v@.take(v@.len() as int) =~= v@);
    }
    r
}

} // verus!
