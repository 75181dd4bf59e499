//! Rolling window of recent fitness samples.
//!
//! An agent appends one heuristic sample per decision cycle; the window
//! keeps the most recent [`FITNESS_WINDOW`] of them, evicting the oldest
//! first.  Its arithmetic mean is the agent's current fitness and drives the
//! severity of energy decay; an empty window reports a neutral value.

use vstd::prelude::*;

use crate::arith::spec_min;
use crate::config::{FITNESS_WINDOW, NEUTRAL_FITNESS_MILLI, SAMPLE_LIMIT_MILLI};

verus! {

/// Sum of a sequence of samples.
pub open spec fn sample_sum(s: Seq<i64>) -> int
    decreases s.len(),
{
    if s.len() == 0 {
        0
    } else {
        sample_sum(s.drop_last()) + s.last()
    }
}

/// The window after one push: the sample is appended, and the oldest
/// sample is evicted first when the window is full.
pub open spec fn pushed(s: Seq<i64>, v: i64) -> Seq<i64> {
    if s.len() < FITNESS_WINDOW {
        s.push(v)
    } else {
        s.drop_first().push(v)
    }
}

/// The window after pushing a whole run of samples, oldest first.
pub open spec fn pushed_all(s: Seq<i64>, vs: Seq<i64>) -> Seq<i64>
    decreases vs.len(),
{
    if vs.len() == 0 {
        s
    } else {
        pushed_all(pushed(s, vs.first()), vs.drop_first())
    }
}

/// The last `k` elements of a sequence.
pub open spec fn last_of(s: Seq<i64>, k: int) -> Seq<i64> {
    s.subrange(s.len() - k, s.len() as int)
}

/// The fitness of a window: the arithmetic mean of its samples, or the
/// neutral value when it is empty.
pub open spec fn spec_fitness(s: Seq<i64>) -> int {
    if s.len() == 0 {
        NEUTRAL_FITNESS_MILLI as int
    } else {
        sample_sum(s) / s.len() as int
    }
}

/// Every sample of `s` lies in `[0, b]`.
pub open spec fn samples_bounded(s: Seq<i64>, b: int) -> bool {
    forall|i: int| 0 <= i < s.len() ==> 0 <= #[trigger] s[i] <= b
}

/// A window is valid when it is bounded in length and every sample lies
/// under the machine-level sample ceiling.
pub open spec fn valid_window(s: Seq<i64>) -> bool {
    &&& s.len() <= FITNESS_WINDOW
    &&& samples_bounded(s, SAMPLE_LIMIT_MILLI as int)
}

/// Bounded rolling history of per-cycle fitness samples.
pub struct FitnessScores {
    samples: Vec<i64>,
}

impl FitnessScores {
    /// The samples currently held, oldest first.
    pub closed spec fn view(&self) -> Seq<i64> {
        self.samples@
    }

    /// The window never outgrows its bound and holds samples in range.
    pub closed spec fn wf(&self) -> bool {
        valid_window(self.samples@)
    }

    /// An empty window.
    pub fn new() -> (r: FitnessScores)
        ensures
            r.wf(),
            r.view() == Seq::<i64>::empty(),
    {
        FitnessScores { samples: Vec::new() }
    }

    /// Append one sample, evicting the oldest when the window is full.
    /// The bound on the sample is a machine limit, far above the
    /// heuristic's own `[0, MAX_FITNESS_MILLI]` range.
    pub fn push(&mut self, value: i64)
        requires
            old(self).wf(),
            0 <= value <= SAMPLE_LIMIT_MILLI,
        ensures
            final(self).wf(),
            final(self).view() == pushed(old(self).view(), value),
    {
        if self.samples.len() >= FITNESS_WINDOW {
            self.samples.remove(0);
        }
        self.samples.push(value);
    }

    /// How many samples the window holds.
    pub fn len(&self) -> (r: usize)
        ensures
            r == self.view().len(),
    {
        self.samples.len()
    }

    /// The arithmetic mean of the window, or the neutral value when empty.
    pub fn get_fitness(&self) -> (r: i64)
        requires
            self.wf(),
        ensures
            r == spec_fitness(self.view()),
            0 <= r <= SAMPLE_LIMIT_MILLI,
    {
        let n = self.samples.len();
        if n == 0 {
            return NEUTRAL_FITNESS_MILLI;
        }
        let mut sum: i64 = 0;
        let mut i: usize = 0;
        while i < n
            invariant
                self.wf(),
                n == self.view().len(),
                0 < n <= FITNESS_WINDOW,
                i <= n,
                sum == sample_sum(self.view().subrange(0, i as int)),
                0 <= sum <= i * SAMPLE_LIMIT_MILLI,
            decreases n - i,
        {
            assert(self.view().subrange(0, i + 1).drop_last() =~= self.view().subrange(
                0,
                i as int,
            ));
            sum = sum + self.samples[i];
            i = i + 1;
        }
        assert(self.view().subrange(0, n as int) =~= self.view());
        let mean = sum / (n as i64);
        assert(mean == sample_sum(self.view()) / n as int);
        proof {
            lemma_mean_in_range(self.view(), SAMPLE_LIMIT_MILLI as int);
        }
        mean
    }
}

/// The mean of a nonempty window of samples in `[0, b]` lies in `[0, b]`.
pub proof fn lemma_mean_in_range(s: Seq<i64>, b: int)
    requires
        s.len() > 0,
        0 <= b,
        samples_bounded(s, b),
    ensures
        0 <= sample_sum(s) / s.len() as int <= b,
{
    lemma_sum_bounds(s, b);
    let n = s.len() as int;
    let total = sample_sum(s);
    assert(0 <= total / n <= b) by (nonlinear_arith)
        requires
            n > 0,
            0 <= b,
            0 <= total <= n * b,
    ;
}

/// The sum of a bounded window is at most its length times the bound.
proof fn lemma_sum_bounds(s: Seq<i64>, b: int)
    requires
        0 <= b,
        samples_bounded(s, b),
    ensures
        0 <= sample_sum(s) <= s.len() * b,
    decreases s.len(),
{
    if s.len() > 0 {
        assert(samples_bounded(s.drop_last(), b)) by {
            assert(forall|i: int|
                0 <= i < s.drop_last().len() ==> #[trigger] s.drop_last()[i] == s[i]);
        }
        lemma_sum_bounds(s.drop_last(), b);
        assert(sample_sum(s) == sample_sum(s.drop_last()) + s.last());
        assert((s.len() - 1) * b + b == s.len() * b) by (nonlinear_arith);
    }
}

/// Pushing a sample in `[0, b]` onto a window bounded by `b` keeps the
/// window bounded by `b`.
pub proof fn lemma_pushed_bounded(s: Seq<i64>, v: i64, b: int)
    requires
        samples_bounded(s, b),
        0 <= v <= b,
    ensures
        samples_bounded(pushed(s, v), b),
{
    let r = pushed(s, v);
    assert forall|i: int| 0 <= i < r.len() implies 0 <= #[trigger] r[i] <= b by {
        if s.len() < FITNESS_WINDOW {
            if i < s.len() {
                assert(r[i] == s[i]);
            }
        } else {
            if i < r.len() - 1 {
                assert(r[i] == s[i + 1]);
            }
        }
    }
}

/// Law: a run of pushes keeps exactly the tail of everything ever pushed.
/// After pushing the run `vs` onto a window that held `s`, the window holds
/// the last [`FITNESS_WINDOW`] samples of `s + vs` (all of them, if fewer).
pub proof fn lemma_window_keeps_last(s: Seq<i64>, vs: Seq<i64>)
    requires
        s.len() <= FITNESS_WINDOW,
    ensures
        pushed_all(s, vs) == last_of(
            s + vs,
            spec_min((s.len() + vs.len()) as int, FITNESS_WINDOW as int),
        ),
    decreases vs.len(),
{
    let k = spec_min((s.len() + vs.len()) as int, FITNESS_WINDOW as int);
    if vs.len() == 0 {
        assert(last_of(s + vs, k) =~= s);
    } else {
        let s1 = pushed(s, vs.first());
        lemma_window_keeps_last(s1, vs.drop_first());
        let k1 = spec_min((s1.len() + vs.len() - 1) as int, FITNESS_WINDOW as int);
        if s.len() < FITNESS_WINDOW {
            assert(s1 + vs.drop_first() =~= s + vs);
            assert(k1 == k);
        } else {
            assert(s1 + vs.drop_first() =~= (s + vs).drop_first());
            assert(last_of((s + vs).drop_first(), k1) =~= last_of(s + vs, k));
        }
    }
}

/// Law: the window never outgrows its bound, whatever run is pushed.
pub proof fn lemma_window_bounded(s: Seq<i64>, vs: Seq<i64>)
    requires
        s.len() <= FITNESS_WINDOW,
    ensures
        pushed_all(s, vs).len() <= FITNESS_WINDOW,
    decreases vs.len(),
{
    if vs.len() > 0 {
        lemma_window_bounded(pushed(s, vs.first()), vs.drop_first());
    }
}

} // verus!
