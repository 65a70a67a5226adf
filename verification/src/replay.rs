//! A bounded window of recently seen sequence numbers, for suppressing replays.
use std::collections::VecDeque;
use vstd::prelude::*;

verus! {

/// Remembers the last `capacity` distinct sequences recorded.
#[derive(Debug, Clone)]
pub struct ReplayWindow {
    capacity: usize,
    seen: VecDeque<u64>,
}

/// The state of a [`ReplayWindow`].
pub struct ReplayView {
    pub capacity: usize,
    pub seen: Seq<u64>,
}

impl View for ReplayWindow {
    type V = ReplayView;

    closed spec fn view(&self) -> ReplayView {
        ReplayView { capacity: self.capacity, seen: self.seen@ }
    }
}

/// The last `cap` entries of `s` (all of them when there are fewer).
pub open spec fn keep_last(s: Seq<u64>, cap: int) -> Seq<u64> {
    if s.len() > cap {
        s.skip(s.len() - cap)
    } else {
        s
    }
}

/// A window is well formed when its capacity is at least one, it holds no more
/// than its capacity, and no sequence twice.
pub open spec fn window_wf(w: ReplayView) -> bool {
    &&& w.capacity >= 1
    &&& w.seen.len() <= w.capacity
    &&& w.seen.no_duplicates()
}

/// The window after recording `sequence`: unchanged when present, else the
/// sequence appended and the oldest entries beyond the capacity dropped.
pub open spec fn recorded(w: ReplayView, sequence: u64) -> ReplayView {
    if w.seen.contains(sequence) {
        w
    } else {
        ReplayView { seen: keep_last(w.seen.push(sequence), w.capacity as int), ..w }
    }
}

impl ReplayWindow {
    /// An empty window of the given capacity (at least one).
    pub fn new(capacity: usize) -> (w: Self)
        ensures
            w@ == (ReplayView {
                capacity: if capacity == 0 {
                    1
                } else {
                    capacity
                },
                seen: Seq::empty(),
            }),
            window_wf(w@),
    {
        let capacity = if capacity == 0 {
            1
        } else {
            capacity
        };
        ReplayWindow { capacity, seen: VecDeque::with_capacity(capacity) }
    }

    /// Whether `sequence` is in the window.
    pub fn contains(&self, sequence: u64) -> (b: bool)
        ensures
            b == self@.seen.contains(sequence),
    {
        let mut i: usize = 0;
        while i < self.seen.len()
            invariant
                i <= self.seen@.len(),
                forall|j: int| 0 <= j < i ==> self.seen@[j] != sequence,
            decreases self.seen@.len() - i,
        {
            if self.seen[i] == sequence {
                return true;
            }
            i = i + 1;
        }
        false
    }

    /// Forgets every sequence.
    pub fn clear(&mut self)
        ensures
            final(self)@ == (ReplayView { seen: Seq::empty(), ..old(self)@ }),
    {
        self.seen.clear();
    }

    /// Records `sequence` unless already present, dropping the oldest entries
    /// beyond the capacity.
    pub fn record(&mut self, sequence: u64)
        ensures
            old(self)@.seen.contains(sequence) ==> final(self)@ == old(self)@,
            !old(self)@.seen.contains(sequence) ==> final(self)@ == (ReplayView {
                seen: keep_last(old(self)@.seen.push(sequence), old(self)@.capacity as int),
                ..old(self)@
            }),
            window_wf(old(self)@) ==> window_wf(final(self)@) && final(self)@.seen.contains(sequence),
            final(self)@ == recorded(old(self)@, sequence),
    {
        if self.contains(sequence) {
            return;
        }
        self.seen.push_back(sequence);
        let ghost pushed = old(self)@.seen.push(sequence);
        assert(self@.seen == pushed);
        while self.seen.len() > self.capacity
            invariant
                self.capacity == old(self).capacity,
                keep_last(self.seen@, self.capacity as int) == keep_last(pushed, self.capacity as int),
                self.seen@ == pushed.skip(pushed.len() - self.seen@.len()),
                pushed.len() >= self.seen@.len(),
            decreases self.seen@.len(),
        {
            let ghost before = self.seen@;
            self.seen.pop_front();
            assert(self.seen@ =~= before.drop_first());
            assert(self.seen@ =~= pushed.skip(pushed.len() - self.seen@.len()));
            assert(keep_last(self.seen@, self.capacity as int) =~= keep_last(
                before,
                self.capacity as int,
            ));
        }
        proof {
            if window_wf(old(self)@) {
                assert(pushed.no_duplicates()) by {
                    assert forall|i: int, j: int|
                        0 <= i < pushed.len() && 0 <= j < pushed.len() && i != j implies pushed[i]
                        != pushed[j] by {
                        if i == pushed.len() - 1 {
                            assert(old(self)@.seen.contains(pushed[j]));
                        } else if j == pushed.len() - 1 {
                            assert(old(self)@.seen.contains(pushed[i]));
                        }
                    }
                }
                let s = self.seen@;
                let off = pushed.len() - s.len();
                assert forall|i: int, j: int|
                    0 <= i < s.len() && 0 <= j < s.len() && i != j implies s[i] != s[j] by {
                    assert(s[i] == pushed[i + off]);
                    assert(s[j] == pushed[j + off]);
                }
                assert(s[s.len() - 1] == sequence);
                assert(s.contains(sequence));
            }
        }
    }
}

impl Default for ReplayWindow {
    fn default() -> (w: Self)
        ensures
            w@ == (ReplayView { capacity: 256, seen: Seq::empty() }),
    {
        ReplayWindow::new(256)
    }
}


/// The window after recording each of `s` in turn.
pub open spec fn recorded_all(w: ReplayView, s: Seq<u64>) -> ReplayView
    decreases s.len(),
{
    if s.len() == 0 {
        w
    } else {
        recorded(recorded_all(w, s.drop_last()), s.last())
    }
}

/// An empty window that records distinct sequences holds the last `capacity`
/// of them, oldest first.
pub proof fn lemma_window_holds_latest(w: ReplayView, s: Seq<u64>)
    requires
        w.seen.len() == 0,
        w.capacity >= 1,
        s.no_duplicates(),
    ensures
        recorded_all(w, s).seen == keep_last(s, w.capacity as int),
        recorded_all(w, s).capacity == w.capacity,
    decreases s.len(),
{
    if s.len() > 0 {
        let t = s.drop_last();
        let x = s.last();
        assert(t.no_duplicates()) by {
            assert forall|i: int, j: int| 0 <= i < t.len() && 0 <= j < t.len() && i != j implies t[i] != t[j] by {
                assert(t[i] == s[i] && t[j] == s[j]);
            }
        }
        lemma_window_holds_latest(w, t);
        let r = recorded_all(w, t);
        let cap = w.capacity as int;
        assert(!r.seen.contains(x)) by {
            if r.seen.contains(x) {
                let i = choose|i: int| 0 <= i < r.seen.len() && r.seen[i] == x;
                let off = if t.len() > cap { t.len() - cap } else { 0 };
                assert(r.seen[i] == t[i + off]);
                assert(t[i + off] == s[i + off]);
                assert(s[s.len() - 1] == x);
            }
        }
        assert(keep_last(keep_last(t, cap).push(x), cap) =~= keep_last(s, cap)) by {
            assert(s =~= t.push(x));
        }
    }
}

} // verus!
