//! Registry of candidate tunnel endpoints and the selection policy.
//!
//! Each live backend instance has one entry here: its listening port, its
//! rolling [`ServerStat`] and the cached score of that statistic as of the
//! last recorded outcome.  Selection picks the entry with the numerically
//! lowest score; ties go to the first-inserted entry, so selection is a
//! deterministic function of the registry state.

use vstd::prelude::*;

use crate::server_stat::{
    initial_stat, lemma_score_upto_pins, outcome_bounded, push_window, score_spec, stat_wf,
    stats_recomputed, Score, ServerStat, StatModel, MAX_SERVER_RTT,
};

verus! {

/// Mathematical state of one registry entry.
pub struct EndpointModel {
    pub port: u16,
    pub stat: StatModel,
    pub score: int,
}

/// One candidate endpoint: identity, its statistics and the cached score.
pub struct EndpointEntry {
    port: u16,
    stat: ServerStat,
    score: u64,
}

impl View for EndpointEntry {
    type V = EndpointModel;

    closed spec fn view(&self) -> EndpointModel {
        EndpointModel { port: self.port, stat: self.stat@, score: self.score as int }
    }
}

/// The cached score always is the score of the entry's statistics as of the
/// last outcome push.
pub open spec fn entry_wf(e: EndpointModel) -> bool {
    &&& stat_wf(e.stat)
    &&& e.score == score_spec(e.stat)
}

/// All entries carry a current score, and no two entries share a port: one
/// registry entry per live backend instance.
pub open spec fn registry_wf(s: Seq<EndpointModel>) -> bool {
    &&& forall|i: int| 0 <= i < s.len() ==> entry_wf(#[trigger] s[i])
    &&& forall|i: int, j: int| 0 <= i < j < s.len() ==> (#[trigger] s[i]).port != (#[trigger] s[j]).port
}

/// The score of a freshly constructed statistic: latency at the ceiling and a
/// failure rate of one give (200 + 600 + 0) = 800.
pub proof fn lemma_initial_score()
    ensures
        score_spec(initial_stat()) == 800,
{
    let m = initial_stat();
    assert(10 * 800 * m.fail_den - (m.rtt * m.fail_den + 6000 * m.fail_num) == 0)
        by (nonlinear_arith)
        requires
            m.fail_den == 1,
            m.fail_num == 1,
            m.rtt == 2000,
    ;
    assert(10 * 801 * m.fail_den - (m.rtt * m.fail_den + 6000 * m.fail_num) == 10)
        by (nonlinear_arith)
        requires
            m.fail_den == 1,
            m.fail_num == 1,
            m.rtt == 2000,
    ;
    assert(m.var_den * (10int * 10) == 100 && 2 * m.var_num * (m.fail_den * m.fail_den) == 0)
        by (nonlinear_arith)
        requires
            m.var_den == 1,
            m.var_num == 0,
            m.fail_den == 1,
    ;
    lemma_score_upto_pins(m, 800, 1200);
}

/// Candidate endpoint set with deterministic lowest-score selection.
pub struct EndpointRegistry {
    entries: Vec<EndpointEntry>,
}

impl View for EndpointRegistry {
    type V = Seq<EndpointModel>;

    closed spec fn view(&self) -> Seq<EndpointModel> {
        Seq::new(self.entries@.len(), |i: int| self.entries@[i]@)
    }
}

impl EndpointRegistry {
    pub fn new() -> (r: EndpointRegistry)
        ensures
            r@ =~= Seq::<EndpointModel>::empty(),
            registry_wf(r@),
    {
        EndpointRegistry { entries: Vec::new() }
    }

    pub fn len(&self) -> (r: usize)
        ensures
            r == self@.len(),
    {
        self.entries.len()
    }

    /// The port of the entry at `i`, insertion order.
    pub fn port_at(&self, i: usize) -> (r: u16)
        requires
            i < self@.len(),
        ensures
            r == self@[i as int].port,
    {
        self.entries[i].port
    }

    /// The cached score of the entry at `i`.
    pub fn score_at(&self, i: usize) -> (r: u64)
        requires
            i < self@.len(),
        ensures
            r as int == self@[i as int].score,
    {
        self.entries[i].score
    }

    /// The statistics of the entry at `i`.
    pub fn stat_at(&self, i: usize) -> (r: &ServerStat)
        requires
            i < self@.len(),
        ensures
            r@ == self@[i as int].stat,
    {
        &self.entries[i].stat
    }

    /// Registers a new endpoint with fresh, pessimistic statistics (score
    /// 800).  Mirrors the fleet's add: an entry already holding the port is
    /// discarded first, so there is one entry per live instance.
    pub fn add_endpoint(&mut self, port: u16)
        requires
            registry_wf(old(self)@),
        ensures
            registry_wf(final(self)@),
            final(self)@ =~= remove_endpoint_spec(old(self)@, port).push(
                EndpointModel { port, stat: initial_stat(), score: 800 },
            ),
    {
        self.remove_endpoint(port);
        let ghost mid = self@;
        let stat = ServerStat::new();
        let score = stat.score();
        proof {
            lemma_initial_score();
            lemma_remove_spec_props(old(self)@, port);
        }
        self.entries.push(EndpointEntry { port, stat, score });
        proof {
            assert(self@ =~= mid.push(EndpointModel { port, stat: initial_stat(), score: 800 }));
            assert forall|i: int, j: int| 0 <= i < j < self@.len() implies (#[trigger] self@[i]).port != (#[trigger] self@[j]).port by {
                if j < self@.len() - 1 {
                    assert(self@[i] == mid[i] && self@[j] == mid[j]);
                } else {
                    assert(self@[i] == mid[i] && mid[i].port != port);
                }
            }
        }
    }

    /// Drops the endpoint listening on `port` if present; keeps the order of
    /// the remaining entries.  Removing an absent port changes nothing.
    pub fn remove_endpoint(&mut self, port: u16)
        requires
            registry_wf(old(self)@),
        ensures
            registry_wf(final(self)@),
            final(self)@ =~= remove_endpoint_spec(old(self)@, port),
    {
        let ghost pre = self@;
        let mut i: usize = 0;
        while i < self.entries.len()
            invariant
                i <= self@.len(),
                self@ == pre,
                pre == old(self)@,
                registry_wf(pre),
                forall|j: int| 0 <= j < i ==> (#[trigger] pre[j]).port != port,
            decreases self@.len() - i,
        {
            if self.entries[i].port == port {
                self.entries.remove(i);
                proof {
                    lemma_remove_found(pre, port, i as int);
                    assert(self@ =~= pre.remove(i as int));
                    lemma_registry_remove_wf(pre, i as int);
                }
                return ;
            }
            i = i + 1;
        }
        proof {
            lemma_remove_absent(pre, port);
        }
    }

    /// Picks the endpoint to route through: the lowest current score wins,
    /// and among equal scores the first-inserted entry wins.  Returns `None`
    /// only on an empty registry.
    pub fn select_best(&self) -> (r: Option<usize>)
        ensures
            match r {
                Option::None => self@.len() == 0,
                Option::Some(i) => {
                    &&& i < self@.len()
                    &&& forall|j: int|
                        0 <= j < self@.len() ==> self@[i as int].score <= (#[trigger] self@[j]).score
                    &&& forall|j: int| 0 <= j < i ==> (#[trigger] self@[j]).score > self@[i as int].score
                },
            },
    {
        if self.entries.len() == 0 {
            return Option::None;
        }
        let mut best: usize = 0;
        let mut i: usize = 1;
        while i < self.entries.len()
            invariant
                best < i <= self@.len(),
                forall|j: int| 0 <= j < i ==> self@[best as int].score <= (#[trigger] self@[j]).score,
                forall|j: int| 0 <= j < best ==> (#[trigger] self@[j]).score > self@[best as int].score,
            decreases self@.len() - i,
        {
            if self.entries[i].score < self.entries[best].score {
                best = i;
            }
            i = i + 1;
        }
        Option::Some(best)
    }

    /// Records one outcome for the endpoint at `i` and refreshes its cached
    /// score; all other entries are untouched.  Returns the new score.
    pub fn report_outcome(&mut self, i: usize, s: Score) -> (r: u64)
        requires
            registry_wf(old(self)@),
            i < old(self)@.len(),
            outcome_bounded(s),
        ensures
            registry_wf(final(self)@),
            final(self)@.len() == old(self)@.len(),
            forall|j: int|
                0 <= j < old(self)@.len() && j != i ==> final(self)@[j] == (#[trigger] old(
                    self,
                )@[j]),
            final(self)@[i as int].port == old(self)@[i as int].port,
            final(self)@[i as int].stat.window =~= push_window(
                old(self)@[i as int].stat.window,
                s,
            ),
            stats_recomputed(old(self)@[i as int].stat, final(self)@[i as int].stat),
            stat_wf(final(self)@[i as int].stat),
            final(self)@[i as int].score == score_spec(final(self)@[i as int].stat),
            r as int == final(self)@[i as int].score,
    {
        let ghost pre = self@;
        let mut entry = self.entries.remove(i);
        proof {
            assert(entry_wf(pre[i as int]));
            assert(entry@ == pre[i as int]);
        }
        let score = entry.stat.push_score(s);
        entry.score = score;
        self.entries.insert(i, entry);
        proof {
            assert(self@ =~= pre.update(i as int, self@[i as int]));
            assert(self@[i as int].port == pre[i as int].port);
            assert forall|a: int, b: int| 0 <= a < b < self@.len() implies (#[trigger] self@[a]).port != (#[trigger] self@[b]).port by {
                assert(self@[a].port == pre[a].port && self@[b].port == pre[b].port);
            }
        }
        score
    }
}

/// Removing one entry keeps every other entry well-formed and the ports
/// unique.
proof fn lemma_registry_remove_wf(s: Seq<EndpointModel>, i: int)
    requires
        registry_wf(s),
        0 <= i < s.len(),
    ensures
        registry_wf(s.remove(i)),
{
    let t = s.remove(i);
    assert forall|a: int| 0 <= a < t.len() implies entry_wf(#[trigger] t[a]) by {
        if a < i {
            assert(t[a] == s[a]);
        } else {
            assert(t[a] == s[a + 1]);
        }
    }
    assert forall|a: int, b: int| 0 <= a < b < t.len() implies (#[trigger] t[a]).port != (#[trigger] t[b]).port by {
        let a2: int = if a < i { a } else { a + 1 };
        let b2: int = if b < i { b } else { b + 1 };
        assert(t[a] == s[a2] && t[b] == s[b2]);
    }
}

/// The outcome one probe records: a probe that completed within the timeout
/// ceiling records its latency, one that erred, timed out, or reports an
/// elapsed time past the ceiling records a failure.
pub fn probe_outcome(completed: bool, elapsed_ms: u64) -> (r: Score)
    ensures
        r == (if completed && elapsed_ms <= MAX_SERVER_RTT {
            Score::Latency(elapsed_ms)
        } else {
            Score::Errored
        }),
        outcome_bounded(r),
{
    if completed && elapsed_ms <= MAX_SERVER_RTT {
        Score::Latency(elapsed_ms)
    } else {
        Score::Errored
    }
}

/// Selection is deterministic: any two indices that both satisfy the
/// selection conditions (lowest score, earliest among equal scores) coincide,
/// so two endpoints with distinct scores can never trade places and equal
/// scores always go to the first-inserted entry.
pub proof fn lemma_selection_deterministic(s: Seq<EndpointModel>, i: int, j: int)
    requires
        0 <= i < s.len(),
        0 <= j < s.len(),
        forall|k: int| 0 <= k < s.len() ==> s[i].score <= (#[trigger] s[k]).score,
        forall|k: int| 0 <= k < i ==> (#[trigger] s[k]).score > s[i].score,
        forall|k: int| 0 <= k < s.len() ==> s[j].score <= (#[trigger] s[k]).score,
        forall|k: int| 0 <= k < j ==> (#[trigger] s[k]).score > s[j].score,
    ensures
        i == j,
{
    if i < j {
        assert(s[i].score > s[j].score);
        assert(s[j].score <= s[i].score);
    } else if j < i {
        assert(s[j].score > s[i].score);
        assert(s[i].score <= s[j].score);
    }
}

/// The registry without any entry for `port`, order preserved.
pub open spec fn remove_endpoint_spec(s: Seq<EndpointModel>, port: u16) -> Seq<EndpointModel>
    decreases s.len(),
{
    if s.len() == 0 {
        s
    } else if s[0].port == port {
        remove_endpoint_spec(s.drop_first(), port)
    } else {
        seq![s[0]] + remove_endpoint_spec(s.drop_first(), port)
    }
}

proof fn lemma_remove_absent(s: Seq<EndpointModel>, port: u16)
    requires
        forall|j: int| 0 <= j < s.len() ==> (#[trigger] s[j]).port != port,
    ensures
        remove_endpoint_spec(s, port) =~= s,
    decreases s.len(),
{
    if s.len() > 0 {
        lemma_remove_absent(s.drop_first(), port);
        assert(remove_endpoint_spec(s, port) =~= seq![s[0]] + s.drop_first());
    }
}

proof fn lemma_remove_found(s: Seq<EndpointModel>, port: u16, i: int)
    requires
        0 <= i < s.len(),
        s[i].port == port,
        forall|j: int, k: int| 0 <= j < k < s.len() ==> (#[trigger] s[j]).port != (#[trigger] s[k]).port,
    ensures
        remove_endpoint_spec(s, port) =~= s.remove(i),
    decreases s.len(),
{
    if i == 0 {
        assert forall|j: int| 0 <= j < s.drop_first().len() implies (#[trigger] s.drop_first()[j]).port
            != port by {
            assert(s.drop_first()[j] == s[j + 1]);
        }
        lemma_remove_absent(s.drop_first(), port);
        assert(s.remove(0) =~= s.drop_first());
    } else {
        assert(s[0].port != port);
        assert forall|j: int, k: int|
            0 <= j < k < s.drop_first().len() implies (#[trigger] s.drop_first()[j]).port != (#[trigger] s.drop_first()[k]).port by {
            assert(s.drop_first()[j] == s[j + 1] && s.drop_first()[k] == s[k + 1]);
        }
        assert(s.drop_first()[i - 1] == s[i]);
        lemma_remove_found(s.drop_first(), port, i - 1);
        assert(s.remove(i) =~= seq![s[0]] + s.drop_first().remove(i - 1));
    }
}

/// What the removal leaves behind: no entry for the removed port, only
/// entries that were already present, well-formedness and port
/// uniqueness preserved.
pub proof fn lemma_remove_spec_props(s: Seq<EndpointModel>, port: u16)
    ensures
        forall|j: int|
            0 <= j < remove_endpoint_spec(s, port).len() ==> (#[trigger] remove_endpoint_spec(
                s,
                port,
            )[j]).port != port,
        forall|j: int|
            0 <= j < remove_endpoint_spec(s, port).len() ==> s.contains(
                #[trigger] remove_endpoint_spec(s, port)[j],
            ),
    decreases s.len(),
{
    if s.len() > 0 {
        lemma_remove_spec_props(s.drop_first(), port);
        assert forall|j: int|
            0 <= j < remove_endpoint_spec(s.drop_first(), port).len() implies s.contains(
            #[trigger] remove_endpoint_spec(s.drop_first(), port)[j]) by {
            let x = remove_endpoint_spec(s.drop_first(), port)[j];
            let k = choose|k: int| 0 <= k < s.drop_first().len() && s.drop_first()[k] == x;
            assert(s[k + 1] == x);
        }
    }
}

} // verus!
