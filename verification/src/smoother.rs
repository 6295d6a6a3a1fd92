//! Per-sample parameter smoother: moves a current value toward a target
//! over a fixed number of advance calls, recomputing the step from the
//! remaining distance so that the target is reached exactly on the last
//! step and is held afterwards.

use vstd::prelude::*;
use crate::fixed::{div_tz, tz_div};

verus! {

/// Largest magnitude a smoothed value may have; wide enough for filter
/// coefficients and log-domain gains, narrow enough that all smoothing
/// arithmetic stays well inside the machine word.
pub const SMOOTH_MAX: i64 = 1099511627776;

/// `x` lies weakly between `a` and `b`, whichever way they are ordered.
pub open spec fn between(a: int, b: int, x: int) -> bool {
    if a <= b {
        a <= x <= b
    } else {
        b <= x <= a
    }
}

pub struct Smoother {
    /// The value read every sample.
    pub current: i64,
    /// The destination set once per block.
    pub target: i64,
    /// How many more advance calls are needed to reach the target.
    pub remaining: u32,
}

impl Smoother {
    /// Both held values are in range.
    pub open spec fn wf(self) -> bool {
        &&& -SMOOTH_MAX <= self.current <= SMOOTH_MAX
        &&& -SMOOTH_MAX <= self.target <= SMOOTH_MAX
    }

    /// The model of one advance call: with no steps left the smoother
    /// holds; on the last step it lands on the target exactly; otherwise
    /// it moves by the remaining distance divided by the remaining steps,
    /// rounded toward zero.
    pub open spec fn spec_tick(self) -> Smoother {
        if self.remaining == 0 {
            self
        } else if self.remaining == 1 {
            Smoother { current: self.target, target: self.target, remaining: 0 }
        } else {
            Smoother {
                current: (self.current + tz_div(
                    self.target - self.current,
                    self.remaining as int,
                )) as i64,
                target: self.target,
                remaining: (self.remaining - 1) as u32,
            }
        }
    }

    /// The model of `n` successive advance calls.
    pub open spec fn spec_tick_n(self, n: nat) -> Smoother
        decreases n,
    {
        if n == 0 {
            self
        } else {
            self.spec_tick().spec_tick_n((n - 1) as nat)
        }
    }

    /// A smoother at rest on the given value.
    pub fn new(v: i64) -> (s: Smoother)
        requires
            -SMOOTH_MAX <= v <= SMOOTH_MAX,
        ensures
            s.current == v,
            s.target == v,
            s.remaining == 0,
            s.wf(),
    {
        Smoother { current: v, target: v, remaining: 0 }
    }

    /// The latest smoothed value, without mutating state.
    pub fn current(&self) -> (v: i64)
        ensures
            v == self.current,
    {
        self.current
    }

    /// Jump to a value immediately, with no smoothing ramp.
    pub fn set_now(&mut self, v: i64)
        requires
            -SMOOTH_MAX <= v <= SMOOTH_MAX,
        ensures
            final(self).current == v,
            final(self).target == v,
            final(self).remaining == 0,
            final(self).wf(),
    {
        self.current = v;
        self.target = v;
        self.remaining = 0;
    }

    /// Store a new destination and the number of advance calls over
    /// which to reach it.
    pub fn set_target(&mut self, v: i64, steps: u32)
        requires
            old(self).wf(),
            -SMOOTH_MAX <= v <= SMOOTH_MAX,
            1 <= steps,
        ensures
            final(self).current == old(self).current,
            final(self).target == v,
            final(self).remaining == steps,
            final(self).wf(),
    {
        self.target = v;
        self.remaining = steps;
    }

    /// Advance one step: exactly the model transition `spec_tick`.
    pub fn tick(&mut self)
        requires
            old(self).wf(),
        ensures
            *final(self) == old(self).spec_tick(),
            final(self).wf(),
            final(self).target == old(self).target,
            between(old(self).current as int, old(self).target as int, final(self).current as int),
    {
        proof {
            lemma_tick_props(*old(self));
        }
        if self.remaining == 1 {
            self.current = self.target;
            self.remaining = 0;
        } else if self.remaining > 1 {
            let step = div_tz(self.target - self.current, self.remaining as i64);
            proof {
                let d = self.target as int - self.current as int;
                let r = self.remaining as int;
                if d >= 0 {
                    vstd::arithmetic::div_mod::lemma_div_pos_is_pos(d, r);
                    vstd::arithmetic::div_mod::lemma_div_nonincreasing(d, r);
                } else {
                    vstd::arithmetic::div_mod::lemma_div_pos_is_pos(-d, r);
                    vstd::arithmetic::div_mod::lemma_div_nonincreasing(-d, r);
                }
            }
            self.current = self.current + step;
            self.remaining = self.remaining - 1;
        }
    }
}

/// One model step stays between the old value and the target, keeps the
/// target, decrements the step count, and preserves well-formedness.
pub proof fn lemma_tick_props(s: Smoother)
    requires
        s.wf(),
    ensures
        s.spec_tick().wf(),
        s.spec_tick().target == s.target,
        s.spec_tick().remaining == if s.remaining == 0 {
            0
        } else {
            (s.remaining - 1) as u32
        },
        between(s.current as int, s.target as int, s.spec_tick().current as int),
        s.current == s.target ==> s.spec_tick().current == s.current,
{
    if s.remaining > 1 {
        let d = s.target - s.current;
        let step = tz_div(d as int, s.remaining as int);
        if d >= 0 {
            vstd::arithmetic::div_mod::lemma_div_pos_is_pos(d as int, s.remaining as int);
            vstd::arithmetic::div_mod::lemma_div_nonincreasing(d as int, s.remaining as int);
        } else {
            vstd::arithmetic::div_mod::lemma_div_pos_is_pos(-d as int, s.remaining as int);
            vstd::arithmetic::div_mod::lemma_div_nonincreasing(-d as int, s.remaining as int);
        }
        assert(0 <= step <= d || d <= step <= 0);
    }
}

/// Convergence law: once a target is set over `n` steps, `n` advance
/// calls land the current value exactly on the target, and the ramp is
/// finished; further advance calls hold there.
pub proof fn lemma_smoother_convergence(s: Smoother)
    requires
        s.wf(),
        1 <= s.remaining,
    ensures
        s.spec_tick_n(s.remaining as nat).current == s.target,
        s.spec_tick_n(s.remaining as nat).remaining == 0,
    decreases s.remaining,
{
    let s1 = s.spec_tick();
    lemma_tick_props(s);
    if s.remaining == 1 {
        assert(s.spec_tick_n(1) == s1.spec_tick_n(0));
    } else {
        lemma_smoother_convergence(s1);
        assert(s.spec_tick_n(s.remaining as nat) == s1.spec_tick_n((s.remaining - 1) as nat));
    }
}

/// Strict-progress law: while the remaining distance is at least the
/// number of remaining steps, every advance call lands strictly between
/// the pre-update value and the target. (With a distance smaller than
/// the step count, a step may hold still before the final exact jump.)
pub proof fn lemma_tick_strict_progress(s: Smoother)
    requires
        s.wf(),
        s.remaining >= 2,
        s.target - s.current >= s.remaining || s.current - s.target >= s.remaining,
    ensures
        s.current < s.target ==> s.current < s.spec_tick().current < s.target,
        s.target < s.current ==> s.target < s.spec_tick().current < s.current,
{
    let d = s.target as int - s.current as int;
    let r = s.remaining as int;
    if d >= 0 {
        vstd::arithmetic::div_mod::lemma_div_is_ordered(r, d, r);
        vstd::arithmetic::div_mod::lemma_div_multiples_vanish(1, r);
        vstd::arithmetic::div_mod::lemma_div_is_ordered_by_denominator(d, 2, r);
    } else {
        vstd::arithmetic::div_mod::lemma_div_is_ordered(r, -d, r);
        vstd::arithmetic::div_mod::lemma_div_multiples_vanish(1, r);
        vstd::arithmetic::div_mod::lemma_div_is_ordered_by_denominator(-d, 2, r);
    }
}

/// Advancing `n + 1` times is advancing `n` times and once more.
pub proof fn lemma_tick_n_snoc(s: Smoother, n: nat)
    ensures
        s.spec_tick_n(n + 1) == s.spec_tick_n(n).spec_tick(),
    decreases n,
{
    if n > 0 {
        lemma_tick_n_snoc(s.spec_tick(), (n - 1) as nat);
        assert(s.spec_tick_n(n + 1) == s.spec_tick().spec_tick_n(n));
        assert(s.spec_tick_n(n) == s.spec_tick().spec_tick_n((n - 1) as nat));
        assert(s.spec_tick().spec_tick_n((n - 1) as nat + 1) == s.spec_tick().spec_tick_n(n));
    } else {
        assert(s.spec_tick_n(1) == s.spec_tick().spec_tick_n(0));
    }
}

/// Monotone approach law: after any number of advance calls the current
/// value still lies between the starting value and the target, and each
/// further step moves it only toward the target, never past it.
pub proof fn lemma_smoother_monotone(s: Smoother, k: nat)
    requires
        s.wf(),
    ensures
        s.spec_tick_n(k).wf(),
        s.spec_tick_n(k).target == s.target,
        between(s.current as int, s.target as int, s.spec_tick_n(k).current as int),
        between(
            s.spec_tick_n(k).current as int,
            s.target as int,
            s.spec_tick_n(k + 1).current as int,
        ),
    decreases k,
{
    lemma_tick_props(s);
    if k == 0 {
        assert(s.spec_tick_n(1) == s.spec_tick().spec_tick_n(0));
    } else {
        let s1 = s.spec_tick();
        lemma_smoother_monotone(s1, (k - 1) as nat);
        assert(s.spec_tick_n(k) == s1.spec_tick_n((k - 1) as nat));
        assert(s.spec_tick_n(k + 1) == s1.spec_tick_n(k));
        lemma_tick_props(s.spec_tick_n(k));
        assert(s1.spec_tick_n(((k + 1) - 1) as nat) == s1.spec_tick_n(k));
    }
}

} // verus!
