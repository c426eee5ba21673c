//! The slow path's per-process behaviour history: for each pid, the
//! vectors of its recent events with their times, kept within a time window
//! and a length cap. What is stored per event is left to the caller.
use vstd::prelude::*;
use std::collections::VecDeque;

verus! {

/// Most history entries kept per pid, whatever the time window.
pub const MAX_PER_PID: usize = 32;

/// Number of leading entries seen before `cutoff`.
pub open spec fn older_lead<V>(s: Seq<(u64, V)>, cutoff: u64) -> nat
    decreases s.len(),
{
    if s.len() > 0 && s[0].0 < cutoff {
        1 + older_lead(s.drop_first(), cutoff)
    } else {
        0
    }
}

/// A history after a push: entries before `cutoff` leave from the front,
/// then the oldest leave until at most `MAX_PER_PID` remain.
pub open spec fn kept<V>(s: Seq<(u64, V)>, cutoff: u64) -> Seq<(u64, V)> {
    let a = s.skip(older_lead(s, cutoff) as int);
    if a.len() > MAX_PER_PID {
        a.skip(a.len() - MAX_PER_PID)
    } else {
        a
    }
}

/// `t` nanoseconds earlier, or 0.
pub open spec fn cutoff_of(t: u64, window_ns: u64) -> u64 {
    if t >= window_ns {
        (t - window_ns) as u64
    } else {
        0
    }
}

pub struct ContextWindow<V> {
    store: Vec<(u32, VecDeque<(u64, V)>)>,
    window_ns: u64,
    vector_dim: usize,
}

impl<V> ContextWindow<V> {
    /// The history of a pid, oldest first (empty when it has none).
    pub closed spec fn history(&self, pid: u32) -> Seq<(u64, V)> {
        if exists|i: int| 0 <= i < self.store@.len() && #[trigger] self.store@[i].0 == pid {
            let i = choose|i: int| 0 <= i < self.store@.len() && #[trigger] self.store@[i].0 == pid;
            self.store@[i].1@
        } else {
            seq![]
        }
    }

    pub closed spec fn window(&self) -> u64 {
        self.window_ns
    }

    pub closed spec fn dim(&self) -> usize {
        self.vector_dim
    }

    /// Some history belongs to `pid`.
    pub closed spec fn find_spec(&self, pid: u32) -> bool {
        exists|i: int| 0 <= i < self.store@.len() && #[trigger] self.store@[i].0 == pid
    }

    /// Each pid has one history.
    pub closed spec fn wf(&self) -> bool {
        forall|i: int, j: int|
            0 <= i < j < self.store@.len() ==> #[trigger] self.store@[i].0 != #[trigger] self.store@[j].0
    }

    /// An empty history with a window of `window_secs` seconds.
    pub fn new(window_secs: u64, vector_dim: usize) -> (r: ContextWindow<V>)
        requires
            window_secs * 1_000_000_000 <= u64::MAX,
        ensures
            r.wf(),
            r.window() == window_secs * 1_000_000_000,
            r.dim() == vector_dim,
            forall|pid: u32| r.history(pid).len() == 0,
    {
        ContextWindow { store: Vec::new(), window_ns: window_secs * 1_000_000_000, vector_dim }
    }

    /// The dimension the stored vectors are averaged in.
    pub fn vector_dim(&self) -> (r: usize)
        ensures
            r == self.dim(),
    {
        self.vector_dim
    }

    fn find(&self, pid: u32) -> (r: Option<usize>)
        ensures
            match r {
                Some(i) => i < self.store@.len() && self.store@[i as int].0 == pid,
                None => forall|i: int| 0 <= i < self.store@.len() ==> #[trigger] self.store@[i].0 != pid,
            },
    {
        let mut i: usize = 0;
        while i < self.store.len()
            invariant
                i <= self.store@.len(),
                forall|j: int| 0 <= j < i ==> #[trigger] self.store@[j].0 != pid,
            decreases self.store.len() - i,
        {
            if self.store[i].0 == pid {
                return Some(i);
            }
            i += 1;
        }
        None
    }

    /// The history of a pid, oldest first; `None` when it has none.
    pub fn history_of(&self, pid: u32) -> (r: Option<&VecDeque<(u64, V)>>)
        requires
            self.wf(),
        ensures
            match r {
                Some(h) => h@ == self.history(pid) && h@.len() > 0,
                None => self.history(pid).len() == 0,
            },
    {
        match self.find(pid) {
            Some(i) => {
                let h = &self.store[i].1;
                proof {
                    let j = choose|j: int|
                        0 <= j < self.store@.len() && #[trigger] self.store@[j].0 == pid;
                    assert(j == i);
                }
                if h.len() == 0 {
                    return None;
                }
                Some(h)
            },
            None => None,
        }
    }

    /// Records a vector for `pid` seen at `timestamp_ns`, then drops that
    /// pid's entries older than the window (measured back from this one) and
    /// its oldest entries beyond `MAX_PER_PID`.
    pub fn push(&mut self, pid: u32, timestamp_ns: u64, vector: V)
        requires
            old(self).wf(),
        ensures
            final(self).wf(),
            final(self).window() == old(self).window(),
            final(self).dim() == old(self).dim(),
            final(self).history(pid) == kept(
                old(self).history(pid).push((timestamp_ns, vector)),
                cutoff_of(timestamp_ns, old(self).window()),
            ),
            forall|other: u32| other != pid ==> final(self).history(other) == old(self).history(other),
    {
        let ghost s0 = self.store@;
        let ghost h0 = self.history(pid);
        let ghost found = self.find_spec(pid);
        let (i, mut ring) = match self.find(pid) {
            Some(i) => {
                proof {
                    let j = choose|j: int| 0 <= j < s0.len() && #[trigger] s0[j].0 == pid;
                    assert(j == i);
                }
                let (_, r) = self.store.remove(i);
                (i, r)
            },
            None => {
                let n = self.store.len();
                (n, VecDeque::new())
            },
        };
        assert(ring@ == h0);
        let cutoff = if timestamp_ns >= self.window_ns {
            timestamp_ns - self.window_ns
        } else {
            0
        };
        ring.push_back((timestamp_ns, vector));
        let ghost pushed = ring@;
        let ghost mut n: nat = 0;
        assert(pushed.skip(0) =~= pushed);
        while ring.len() > 0 && ring[0].0 < cutoff
            invariant
                n <= pushed.len(),
                ring@ == pushed.skip(n as int),
                older_lead(pushed, cutoff) == n + older_lead(ring@, cutoff),
            decreases ring@.len(),
        {
            let ghost r = ring@;
            let _ = ring.pop_front();
            proof {
                assert(r.drop_first() =~= r.subrange(1, r.len() as int));
                n = n + 1;
                assert(ring@ =~= pushed.skip(n as int));
            }
        }
        proof {
            assert(older_lead(ring@, cutoff) == 0);
        }
        let ghost after_window = ring@;
        while ring.len() > MAX_PER_PID
            invariant
                after_window.len() >= ring@.len(),
                ring@ == after_window.skip(after_window.len() - ring@.len()),
                after_window.len() > MAX_PER_PID ==> ring@.len() >= MAX_PER_PID,
                after_window.len() <= MAX_PER_PID ==> ring@ == after_window,
            decreases ring@.len(),
        {
            let _ = ring.pop_front();
            proof {
                assert(ring@ =~= after_window.skip(after_window.len() - ring@.len()));
            }
        }
        proof {
            if after_window.len() <= MAX_PER_PID {
                assert(after_window.skip(0) =~= after_window);
            }
            assert(ring@ == kept(h0.push((timestamp_ns, vector)), cutoff));
        }
        let ghost e = (pid, ring);
        self.store.insert(i, (pid, ring));
        proof {
            let s2 = self.store@;
            if found {
                assert(s2 =~= s0.update(i as int, e));
            } else {
                assert(s2 =~= s0.push(e));
            }
            assert(s2[i as int].0 == pid);
            assert forall|a: int, b: int| 0 <= a < b < s2.len() implies #[trigger] s2[a].0
                != #[trigger] s2[b].0 by {
                if a != i {
                    assert(s2[a] == s0[a]);
                }
                if b != i {
                    assert(s2[b] == s0[b]);
                }
            }
            assert(self.history(pid) == s2[i as int].1@) by {
                let j = choose|j: int| 0 <= j < s2.len() && #[trigger] s2[j].0 == pid;
                assert(j == i);
            }
            assert forall|other: u32| other != pid implies #[trigger] self.history(other)
                == old(self).history(other) by {
                if exists|j: int| 0 <= j < s0.len() && #[trigger] s0[j].0 == other {
                    let j = choose|j: int| 0 <= j < s0.len() && #[trigger] s0[j].0 == other;
                    assert(j != i);
                    assert(s2[j] == s0[j]);
                    let k = choose|k: int| 0 <= k < s2.len() && #[trigger] s2[k].0 == other;
                    assert(k != i);
                    assert(s2[k] == s0[k]);
                    assert(k == j);
                } else {
                    if exists|k: int| 0 <= k < s2.len() && #[trigger] s2[k].0 == other {
                        let k = choose|k: int| 0 <= k < s2.len() && #[trigger] s2[k].0 == other;
                        assert(k != i);
                        assert(s2[k] == s0[k]);
                    }
                }
            }
        }
    }
}

} // verus!
