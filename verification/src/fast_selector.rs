//! Cheap change profiling and the advisor that shortlists delta strategies from
//! the profile and from which strategies recently won.
use crate::smart_delta::{common_prefix_from, common_suffix_from, splice_parts, SmartDeltaKind};
use std::collections::VecDeque;
use vstd::prelude::*;

verus! {

/// Summary of how `current` differs from `previous`.
#[derive(Debug, Clone, Copy, PartialEq, Eq, Structural)]
pub struct ChangeProfile {
    pub previous_len: usize,
    pub current_len: usize,
    pub changed_bytes: usize,
    pub changed_runs: usize,
    pub common_prefix: usize,
    pub common_suffix: usize,
}

/// Number of positions below `n` where the two sequences differ.
pub open spec fn diff_count(a: Seq<u8>, b: Seq<u8>, n: int) -> int
    decreases n,
{
    if n <= 0 {
        0
    } else {
        diff_count(a, b, n - 1) + if a[n - 1] != b[n - 1] {
            1int
        } else {
            0int
        }
    }
}

/// Number of maximal runs of differing positions below `n`.
pub open spec fn run_count(a: Seq<u8>, b: Seq<u8>, n: int) -> int
    decreases n,
{
    if n <= 0 {
        0
    } else {
        run_count(a, b, n - 1) + if a[n - 1] != b[n - 1] && (n == 1 || a[n - 2] == b[n - 2]) {
            1int
        } else {
            0int
        }
    }
}

/// The profile of `previous -> current`: lengths, differing bytes over the common
/// length plus the length difference, runs of differing bytes, and the shared
/// prefix and (non-overlapping) suffix.
pub open spec fn profile_of(previous: Seq<u8>, current: Seq<u8>) -> ChangeProfile {
    let common = if previous.len() <= current.len() {
        previous.len() as int
    } else {
        current.len() as int
    };
    let len_diff = if previous.len() >= current.len() {
        previous.len() - current.len()
    } else {
        current.len() - previous.len()
    };
    ChangeProfile {
        previous_len: previous.len() as usize,
        current_len: current.len() as usize,
        changed_bytes: (len_diff + diff_count(previous, current, common)) as usize,
        changed_runs: run_count(previous, current, common) as usize,
        common_prefix: splice_parts(previous, current).0 as usize,
        common_suffix: splice_parts(previous, current).1 as usize,
    }
}

proof fn lemma_counts_bounded(a: Seq<u8>, b: Seq<u8>, n: int)
    requires
        n >= 0,
    ensures
        0 <= run_count(a, b, n) <= diff_count(a, b, n) <= n,
    decreases n,
{
    if n > 0 {
        lemma_counts_bounded(a, b, n - 1);
    }
}

impl ChangeProfile {
    /// Profiles `previous -> current` in one pass plus the prefix/suffix scans.
    pub fn analyze(previous: &[u8], current: &[u8]) -> (p: Self)
        ensures
            p == profile_of(previous@, current@),
    {
        let common = if previous.len() <= current.len() {
            previous.len()
        } else {
            current.len()
        };
        let mut changed_bytes: usize = if previous.len() >= current.len() {
            previous.len() - current.len()
        } else {
            current.len() - previous.len()
        };
        let ghost len_diff = changed_bytes as int;
        let mut changed_runs: usize = 0;
        let mut in_run = false;
        let mut i: usize = 0;
        while i < common
            invariant
                common <= previous@.len(),
                common <= current@.len(),
                common == previous@.len() || common == current@.len(),
                len_diff + common == if previous@.len() >= current@.len() {
                    previous@.len() as int
                } else {
                    current@.len() as int
                },
                i <= common,
                changed_bytes == len_diff + diff_count(previous@, current@, i as int),
                changed_runs == run_count(previous@, current@, i as int),
                in_run == (i > 0 && previous@[i - 1] != current@[i - 1]),
            decreases common - i,
        {
            proof {
                lemma_counts_bounded(previous@, current@, i as int);
            }
            let changed = previous[i] != current[i];
            if changed {
                changed_bytes = changed_bytes + 1;
                if !in_run {
                    changed_runs = changed_runs + 1;
                }
            }
            in_run = changed;
            i = i + 1;
        }
        let mut prefix: usize = 0;
        while prefix < common && previous[prefix] == current[prefix]
            invariant
                common <= previous@.len(),
                common <= current@.len(),
                common == previous@.len() || common == current@.len(),
                prefix <= common,
                common_prefix_from(previous@, current@, prefix as int) == common_prefix_from(
                    previous@,
                    current@,
                    0,
                ),
            decreases common - prefix,
        {
            prefix = prefix + 1;
        }
        let suffix_limit = common - prefix;
        let mut suffix: usize = 0;
        while suffix < suffix_limit && previous[previous.len() - 1 - suffix] == current[current.len()
            - 1 - suffix]
            invariant
                suffix_limit <= previous@.len() - prefix,
                suffix_limit <= current@.len() - prefix,
                suffix <= suffix_limit,
                common_suffix_from(previous@, current@, suffix_limit as int, suffix as int)
                    == common_suffix_from(previous@, current@, suffix_limit as int, 0),
            decreases suffix_limit - suffix,
        {
            suffix = suffix + 1;
        }
        ChangeProfile {
            previous_len: previous.len(),
            current_len: current.len(),
            changed_bytes,
            changed_runs,
            common_prefix: prefix,
            common_suffix: suffix,
        }
    }

    /// Whether the length changed.
    pub fn resized(&self) -> (b: bool)
        ensures
            b == (self.previous_len != self.current_len),
    {
        self.previous_len != self.current_len
    }
}

/// Thresholds of the strategy advisor.
#[derive(Debug, Clone, Copy, PartialEq, Eq, Structural)]
pub struct SelectorPolicy {
    pub sparse_ratio: u8,
    pub range_run_limit: usize,
    pub explore_every: u64,
    pub winner_window: usize,
}

impl SelectorPolicy {
    /// The default thresholds.
    pub open spec fn spec_default() -> SelectorPolicy {
        SelectorPolicy { sparse_ratio: 8, range_run_limit: 64, explore_every: 64, winner_window: 64 }
    }
}

impl Default for SelectorPolicy {
    fn default() -> (p: Self)
        ensures
            p == SelectorPolicy::spec_default(),
    {
        SelectorPolicy { sparse_ratio: 8, range_run_limit: 64, explore_every: 64, winner_window: 64 }
    }
}

/// Suggests which delta strategies are worth trying, learning from past winners.
#[derive(Debug, Clone)]
pub struct StrategyAdvisor {
    policy: SelectorPolicy,
    recent_winners: VecDeque<SmartDeltaKind>,
    updates: u64,
    compression_attempts: u64,
    compression_wins: u64,
}

/// The state of a [`StrategyAdvisor`].
pub struct AdvisorView {
    pub policy: SelectorPolicy,
    pub recent_winners: Seq<SmartDeltaKind>,
    pub updates: u64,
    pub compression_attempts: u64,
    pub compression_wins: u64,
}

impl View for StrategyAdvisor {
    type V = AdvisorView;

    closed spec fn view(&self) -> AdvisorView {
        AdvisorView {
            policy: self.policy,
            recent_winners: self.recent_winners@,
            updates: self.updates,
            compression_attempts: self.compression_attempts,
            compression_wins: self.compression_wins,
        }
    }
}

/// The winner window, at least one.
pub open spec fn window_of(policy: SelectorPolicy) -> int {
    if policy.winner_window == 0 {
        1
    } else {
        policy.winner_window as int
    }
}

/// Position of a strategy in the fixed order sparse, ranges, xor, splice, chunks.
pub open spec fn kind_index(k: SmartDeltaKind) -> int {
    match k {
        SmartDeltaKind::Sparse => 0,
        SmartDeltaKind::Ranges => 1,
        SmartDeltaKind::Xor => 2,
        SmartDeltaKind::Splice => 3,
        SmartDeltaKind::Chunks => 4,
    }
}

/// The strategy at a position of that order (the last one for larger positions).
pub open spec fn kind_at(i: int) -> SmartDeltaKind {
    if i == 0 {
        SmartDeltaKind::Sparse
    } else if i == 1 {
        SmartDeltaKind::Ranges
    } else if i == 2 {
        SmartDeltaKind::Xor
    } else if i == 3 {
        SmartDeltaKind::Splice
    } else {
        SmartDeltaKind::Chunks
    }
}

/// Occurrences of `k` among the first `n` entries of `s`.
pub open spec fn count_in(s: Seq<SmartDeltaKind>, k: SmartDeltaKind, n: int) -> int
    decreases n,
{
    if n <= 0 {
        0
    } else {
        count_in(s, k, n - 1) + if s[n - 1] == k {
            1int
        } else {
            0int
        }
    }
}

/// Among positions `0..=i`, the one whose strategy occurs most often in `s`, the
/// later position winning ties.
pub open spec fn most_frequent_upto(s: Seq<SmartDeltaKind>, i: int) -> int
    decreases i,
{
    if i <= 0 {
        0
    } else {
        let j = most_frequent_upto(s, i - 1);
        if count_in(s, kind_at(i), s.len() as int) >= count_in(s, kind_at(j), s.len() as int) {
            i
        } else {
            j
        }
    }
}

/// The strategy that won at least three quarters of the recent updates, once at
/// least eight were recorded.
pub open spec fn dominant_of(s: Seq<SmartDeltaKind>) -> Option<SmartDeltaKind> {
    if s.len() < 8 {
        None
    } else {
        let idx = most_frequent_upto(s, 4);
        if count_in(s, kind_at(idx), s.len() as int) * 4 < s.len() * 3 {
            None
        } else {
            Some(kind_at(idx))
        }
    }
}

/// Every `explore_every`-th update the advisor ignores its learned preferences.
pub open spec fn explores(a: AdvisorView) -> bool {
    a.policy.explore_every > 0 && a.updates > 0 && a.updates % a.policy.explore_every == 0
}

/// The strategies to try for a change with profile `p`: splice and chunks when
/// the length changed; the dominant recent winner alone unless exploring; else,
/// by the share of changed bytes (compared exactly as a fraction of the longer
/// length) and the number of changed runs, two strategies in order of promise.
pub open spec fn shortlist_of(a: AdvisorView, p: ChangeProfile) -> Seq<SmartDeltaKind> {
    let denom = if p.previous_len >= p.current_len {
        p.previous_len as int
    } else {
        p.current_len as int
    };
    let denom = if denom == 0 {
        1
    } else {
        denom
    };
    if p.previous_len != p.current_len {
        seq![SmartDeltaKind::Splice, SmartDeltaKind::Chunks]
    } else if dominant_of(a.recent_winners) is Some && !explores(a) {
        seq![dominant_of(a.recent_winners)->0]
    } else if p.changed_bytes * 100 <= a.policy.sparse_ratio * denom {
        seq![SmartDeltaKind::Sparse, SmartDeltaKind::Ranges]
    } else if p.changed_runs <= a.policy.range_run_limit {
        seq![SmartDeltaKind::Ranges, SmartDeltaKind::Sparse]
    } else if p.changed_bytes * 100 >= 45 * denom {
        seq![SmartDeltaKind::Xor, SmartDeltaKind::Ranges]
    } else {
        seq![SmartDeltaKind::Ranges, SmartDeltaKind::Sparse]
    }
}

/// Whether a payload of `len` bytes is worth compressing: at least `min_payload`
/// bytes, and either few attempts so far, a win rate of at least 15% (compared
/// exactly as a fraction), or an exploring update.
pub open spec fn compress_advice(a: AdvisorView, len: int, min_payload: int) -> bool {
    len >= min_payload && (a.compression_attempts < 16 || a.compression_wins * 20
        >= a.compression_attempts * 3 || explores(a))
}

/// `a + 1` saturating at `u64::MAX`.
pub open spec fn inc_sat(a: u64) -> u64 {
    if a == u64::MAX {
        a
    } else {
        (a + 1) as u64
    }
}

/// The advisor after `kind` won an update: the window drops its oldest entry when
/// full, then records `kind`.
pub open spec fn after_winner(a: AdvisorView, kind: SmartDeltaKind) -> AdvisorView {
    let kept = if a.recent_winners.len() == window_of(a.policy) {
        a.recent_winners.drop_first()
    } else {
        a.recent_winners
    };
    AdvisorView { updates: inc_sat(a.updates), recent_winners: kept.push(kind), ..a }
}

/// The advisor after an update that no delta won.
pub open spec fn after_no_delta(a: AdvisorView) -> AdvisorView {
    AdvisorView { updates: inc_sat(a.updates), ..a }
}

/// The advisor after a compression attempt.
pub open spec fn after_compression(a: AdvisorView, won: bool) -> AdvisorView {
    AdvisorView {
        compression_attempts: inc_sat(a.compression_attempts),
        compression_wins: if won {
            inc_sat(a.compression_wins)
        } else {
            a.compression_wins
        },
        ..a
    }
}

proof fn lemma_count_bounded(s: Seq<SmartDeltaKind>, k: SmartDeltaKind, n: int)
    requires
        0 <= n <= s.len(),
    ensures
        0 <= count_in(s, k, n) <= n,
    decreases n,
{
    if n > 0 {
        lemma_count_bounded(s, k, n - 1);
    }
}

proof fn lemma_most_frequent_range(s: Seq<SmartDeltaKind>, i: int)
    requires
        0 <= i,
    ensures
        0 <= most_frequent_upto(s, i) <= i,
    decreases i,
{
    if i > 0 {
        lemma_most_frequent_range(s, i - 1);
    }
}

/// Position of a strategy in the fixed order.
fn index(k: SmartDeltaKind) -> (i: usize)
    ensures
        i == kind_index(k),
{
    match k {
        SmartDeltaKind::Sparse => 0,
        SmartDeltaKind::Ranges => 1,
        SmartDeltaKind::Xor => 2,
        SmartDeltaKind::Splice => 3,
        SmartDeltaKind::Chunks => 4,
    }
}

/// The strategy at a position of the fixed order.
fn from_index(i: usize) -> (k: SmartDeltaKind)
    ensures
        k == kind_at(i as int),
{
    match i {
        0 => SmartDeltaKind::Sparse,
        1 => SmartDeltaKind::Ranges,
        2 => SmartDeltaKind::Xor,
        3 => SmartDeltaKind::Splice,
        _ => SmartDeltaKind::Chunks,
    }
}

/// The advisor's bounded memory of winners is within its window.
pub open spec fn advisor_wf(a: AdvisorView) -> bool {
    a.recent_winners.len() <= window_of(a.policy)
}

impl StrategyAdvisor {
    /// An advisor with the given thresholds and no history.
    pub fn new(policy: SelectorPolicy) -> (a: Self)
        ensures
            a@ == (AdvisorView {
                policy,
                recent_winners: Seq::empty(),
                updates: 0,
                compression_attempts: 0,
                compression_wins: 0,
            }),
    {
        let capacity = if policy.winner_window == 0 {
            1
        } else {
            policy.winner_window
        };
        StrategyAdvisor {
            policy,
            recent_winners: VecDeque::with_capacity(capacity),
            updates: 0,
            compression_attempts: 0,
            compression_wins: 0,
        }
    }

    /// The strategies worth trying for a change with profile `profile`.
    pub fn shortlist(&self, profile: ChangeProfile) -> (v: Vec<SmartDeltaKind>)
        ensures
            v@ == shortlist_of(self@, profile),
    {
        if profile.resized() {
            return vec![SmartDeltaKind::Splice, SmartDeltaKind::Chunks];
        }
        if let Some(winner) = self.dominant_winner() {
            if !self.should_explore() {
                return vec![winner];
            }
        }
        let longer = if profile.previous_len >= profile.current_len {
            profile.previous_len
        } else {
            profile.current_len
        };
        let denom: u128 = if longer == 0 {
            1
        } else {
            longer as u128
        };
        let changed = profile.changed_bytes as u128 * 100;
        let ratio = self.policy.sparse_ratio as u128;
        assert(ratio * denom <= 255 * 18446744073709551616) by (nonlinear_arith)
            requires
                ratio <= 255,
                denom <= 18446744073709551616,
        ;
        if changed <= ratio * denom {
            vec![SmartDeltaKind::Sparse, SmartDeltaKind::Ranges]
        } else if profile.changed_runs <= self.policy.range_run_limit {
            vec![SmartDeltaKind::Ranges, SmartDeltaKind::Sparse]
        } else if changed >= 45 * denom {
            vec![SmartDeltaKind::Xor, SmartDeltaKind::Ranges]
        } else {
            vec![SmartDeltaKind::Ranges, SmartDeltaKind::Sparse]
        }
    }

    /// Records that `kind` won an update.
    pub fn observe_winner(&mut self, kind: SmartDeltaKind)
        ensures
            final(self)@ == after_winner(old(self)@, kind),
            advisor_wf(old(self)@) ==> advisor_wf(final(self)@),
    {
        self.updates = self.updates.saturating_add(1);
        let window = if self.policy.winner_window == 0 {
            1
        } else {
            self.policy.winner_window
        };
        if self.recent_winners.len() == window {
            self.recent_winners.pop_front();
        }
        self.recent_winners.push_back(kind);
    }

    /// Records an update that no delta won.
    pub fn observe_no_delta(&mut self)
        ensures
            final(self)@ == after_no_delta(old(self)@),
    {
        self.updates = self.updates.saturating_add(1);
    }

    /// Records a compression attempt and whether it won.
    pub fn observe_compression(&mut self, won: bool)
        ensures
            final(self)@ == after_compression(old(self)@, won),
    {
        self.compression_attempts = self.compression_attempts.saturating_add(1);
        if won {
            self.compression_wins = self.compression_wins.saturating_add(1);
        }
    }

    /// How many compression attempts were observed, and how many of them won.
    pub fn compression_counts(&self) -> (c: (u64, u64))
        ensures
            c == (self@.compression_attempts, self@.compression_wins),
    {
        (self.compression_attempts, self.compression_wins)
    }

    /// Whether a payload of `payload_len` bytes is worth compressing.
    pub fn should_compress(&self, payload_len: usize, min_payload: usize) -> (b: bool)
        ensures
            b == compress_advice(self@, payload_len as int, min_payload as int),
    {
        if payload_len < min_payload {
            return false;
        }
        self.compression_attempts < 16 || (self.compression_wins as u128) * 20
            >= (self.compression_attempts as u128) * 3 || self.should_explore()
    }

    /// The strategy that dominated recent wins, if any.
    fn dominant_winner(&self) -> (w: Option<SmartDeltaKind>)
        ensures
            w == dominant_of(self@.recent_winners),
    {
        let n = self.recent_winners.len();
        if n < 8 {
            return None;
        }
        let ghost s = self@.recent_winners;
        let mut counts: Vec<usize> = vec![0, 0, 0, 0, 0];
        let mut i: usize = 0;
        while i < n
            invariant
                n == s.len(),
                s == self@.recent_winners,
                i <= n,
                counts@.len() == 5,
                forall|j: int| 0 <= j < 5 ==> #[trigger] counts@[j] == count_in(s, kind_at(j), i as int),
            decreases n - i,
        {
            let k = self.recent_winners[i];
            let idx = index(k);
            proof {
                assert forall|j: int| 0 <= j < 5 implies count_in(s, kind_at(j), i as int) <= i by {
                    lemma_count_bounded(s, kind_at(j), i as int);
                }
            }
            let c = counts[idx];
            counts.set(idx, c + 1);
            i = i + 1;
            proof {
                assert forall|j: int| 0 <= j < 5 implies #[trigger] counts@[j] == count_in(
                    s,
                    kind_at(j),
                    i as int,
                ) by {
                    assert(kind_at(kind_index(k)) == k);
                }
            }
        }
        let mut best: usize = 0;
        let mut j: usize = 1;
        while j < 5
            invariant
                counts@.len() == 5,
                forall|t: int| 0 <= t < 5 ==> #[trigger] counts@[t] == count_in(s, kind_at(t), n as int),
                1 <= j <= 5,
                n == s.len(),
                best as int == most_frequent_upto(s, j - 1),
                best < 5,
            decreases 5 - j,
        {
            assert(counts@[j as int] == count_in(s, kind_at(j as int), n as int));
            assert(counts@[best as int] == count_in(s, kind_at(best as int), n as int));
            if counts[j] >= counts[best] {
                best = j;
            }
            j = j + 1;
        }
        let count = counts[best];
        proof {
            lemma_count_bounded(s, kind_at(best as int), n as int);
        }
        if (count as u128) * 4 < (n as u128) * 3 {
            return None;
        }
        Some(from_index(best))
    }

    /// Whether this update is one on which the advisor explores.
    fn should_explore(&self) -> (b: bool)
        ensures
            b == explores(self@),
    {
        self.policy.explore_every > 0 && self.updates > 0 && self.updates % self.policy.explore_every == 0
    }
}

impl Default for StrategyAdvisor {
    fn default() -> (a: Self)
        ensures
            a@ == (AdvisorView {
                policy: SelectorPolicy::spec_default(),
                recent_winners: Seq::empty(),
                updates: 0,
                compression_attempts: 0,
                compression_wins: 0,
            }),
    {
        StrategyAdvisor::new(SelectorPolicy::default())
    }
}

/// Every strategy an advisor shortlists applies to the profiled change: those
/// that need equal lengths are only offered when the length did not change.
pub proof fn lemma_shortlist_applicable(a: AdvisorView, p: ChangeProfile, i: int)
    requires
        0 <= i < shortlist_of(a, p).len(),
    ensures
        crate::smart_delta::needs_equal_len(shortlist_of(a, p)[i]) ==> p.previous_len == p.current_len,
        shortlist_of(a, p).len() <= 2,
{
}

/// Two different strategies together occur no more often than the entries counted.
proof fn lemma_count_pair(s: Seq<SmartDeltaKind>, k1: SmartDeltaKind, k2: SmartDeltaKind, n: int)
    requires
        k1 != k2,
        0 <= n <= s.len(),
    ensures
        count_in(s, k1, n) + count_in(s, k2, n) <= n,
    decreases n,
{
    if n > 0 {
        lemma_count_pair(s, k1, k2, n - 1);
    }
}

/// The position `most_frequent_upto` picks occurs at least as often as any
/// position it looked at.
proof fn lemma_most_frequent_max(s: Seq<SmartDeltaKind>, i: int, j: int)
    requires
        0 <= j <= i,
    ensures
        count_in(s, kind_at(most_frequent_upto(s, i)), s.len() as int) >= count_in(s, kind_at(j), s.len() as int),
    decreases i,
{
    if j < i {
        lemma_most_frequent_max(s, i - 1, j);
    }
}

/// The dominant recent winner is exactly the strategy that won at least three
/// quarters of the recorded updates, once at least eight were recorded.
pub proof fn lemma_dominant_share(s: Seq<SmartDeltaKind>, k: SmartDeltaKind)
    ensures
        dominant_of(s) == Some(k) <==> (s.len() >= 8 && count_in(s, k, s.len() as int) * 4 >= s.len() * 3),
{
    if s.len() >= 8 && count_in(s, k, s.len() as int) * 4 >= s.len() * 3 {
        let idx = most_frequent_upto(s, 4);
        lemma_most_frequent_range(s, 4);
        assert(kind_at(kind_index(k)) == k);
        lemma_most_frequent_max(s, 4, kind_index(k));
        if kind_at(idx) != k {
            lemma_count_pair(s, kind_at(idx), k, s.len() as int);
        }
    }
}

/// Over equal lengths, the profile counts no changed byte exactly when the two
/// states are equal.
pub proof fn lemma_profile_unchanged(previous: Seq<u8>, current: Seq<u8>)
    requires
        previous.len() == current.len(),
        previous.len() <= usize::MAX,
    ensures
        profile_of(previous, current).changed_bytes == 0 <==> previous == current,
{
    let n = previous.len() as int;
    lemma_counts_bounded(previous, current, n);
    lemma_diff_zero(previous, current, n);
    if profile_of(previous, current).changed_bytes == 0 {
        assert(previous =~= current);
    }
}

proof fn lemma_diff_zero(a: Seq<u8>, b: Seq<u8>, n: int)
    requires
        0 <= n <= a.len(),
        n <= b.len(),
    ensures
        diff_count(a, b, n) == 0 <==> forall|i: int| 0 <= i < n ==> a[i] == b[i],
    decreases n,
{
    if n > 0 {
        lemma_diff_zero(a, b, n - 1);
        lemma_counts_bounded(a, b, n - 1);
    }
}

} // verus!
