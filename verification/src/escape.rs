//! The escape-time rule: how many steps an orbit stays within the critical
//! radius, up to a cap.
//!
//! The rule is stated over a trace of booleans, one for each point of the
//! orbit in turn, that say whether the point lies within the radius. Where
//! the booleans come from is the caller's business.

use vstd::prelude::*;

verus! {

/// Whether `n` is the escape time of the trace `within` under the cap `cap`:
/// the first `n` points are within the radius, and `n` is where the count
/// stops, because the cap is reached, the trace ends, or point `n` is outside.
pub open spec fn is_escape_time(within: Seq<bool>, cap: nat, n: nat) -> bool {
    &&& n <= cap
    &&& n <= within.len()
    &&& forall|k: int| 0 <= k < n ==> within[k]
    &&& (n == cap || n == within.len() || !within[n as int])
}

/// The escape time of the trace `within` under the cap `cap`: the number of
/// leading points that are within the radius, counted no further than `cap`.
pub open spec fn escape_time(within: Seq<bool>, cap: nat) -> nat
    decreases cap,
{
    if cap == 0 || within.len() == 0 || !within[0] {
        0
    } else {
        1 + escape_time(within.drop_first(), (cap - 1) as nat)
    }
}

/// `escape_time` is an escape time in the sense of `is_escape_time`.
pub proof fn lemma_escape_time_is_escape_time(within: Seq<bool>, cap: nat)
    ensures
        is_escape_time(within, cap, escape_time(within, cap)),
    decreases cap,
{
    if cap == 0 || within.len() == 0 || !within[0] {
    } else {
        let rest = within.drop_first();
        let m = escape_time(rest, (cap - 1) as nat);
        lemma_escape_time_is_escape_time(rest, (cap - 1) as nat);
        assert forall|k: int| 0 <= k < m + 1 implies within[k] by {
            if k > 0 {
                assert(within[k] == rest[k - 1]);
            }
        }
        if m + 1 != cap && m + 1 != within.len() {
            assert(within[m as int + 1] == rest[m as int]);
        }
    }
}

/// A trace has one escape time only.
pub proof fn lemma_escape_time_unique(within: Seq<bool>, cap: nat, n: nat, m: nat)
    requires
        is_escape_time(within, cap, n),
        is_escape_time(within, cap, m),
    ensures
        n == m,
{
    if n < m {
        assert(within[n as int]);
    } else if m < n {
        assert(within[m as int]);
    }
}

/// Whatever satisfies `is_escape_time` is the value of `escape_time`.
pub proof fn lemma_escape_time_characterized(within: Seq<bool>, cap: nat, n: nat)
    requires
        is_escape_time(within, cap, n),
    ensures
        escape_time(within, cap) == n,
{
    lemma_escape_time_is_escape_time(within, cap);
    lemma_escape_time_unique(within, cap, n, escape_time(within, cap));
}

/// The escape time never exceeds the cap.
pub proof fn lemma_escape_time_bounded(within: Seq<bool>, cap: nat)
    ensures
        escape_time(within, cap) <= cap,
        escape_time(within, cap) <= within.len(),
{
    lemma_escape_time_is_escape_time(within, cap);
}

/// A point outside the radius stops the count: if point `k` of the trace is
/// outside, the escape time is at most `k`, and so below any cap above `k`.
pub proof fn lemma_escape_stops_count(within: Seq<bool>, cap: nat, k: nat)
    requires
        k < within.len(),
        !within[k as int],
    ensures
        escape_time(within, cap) <= k,
        k < cap ==> escape_time(within, cap) < cap,
{
    lemma_escape_time_is_escape_time(within, cap);
}

/// A trace that stays within the radius for `cap` points has escape time
/// `cap`.
pub proof fn lemma_bounded_orbit_reaches_cap(within: Seq<bool>, cap: nat)
    requires
        cap <= within.len(),
        forall|k: int| 0 <= k < cap ==> within[k],
    ensures
        escape_time(within, cap) == cap,
{
    lemma_escape_time_characterized(within, cap, cap);
}

/// The longer an orbit stays within the radius, the larger its escape time:
/// if `a` is within the radius wherever `b` is, `b`'s escape time is no
/// larger than `a`'s.
pub proof fn lemma_escape_time_monotonic(a: Seq<bool>, b: Seq<bool>, cap: nat)
    requires
        a.len() == b.len(),
        forall|k: int| 0 <= k < b.len() && b[k] ==> a[k],
    ensures
        escape_time(b, cap) <= escape_time(a, cap),
{
    lemma_escape_time_is_escape_time(a, cap);
    lemma_escape_time_is_escape_time(b, cap);
    let n = escape_time(a, cap);
    let m = escape_time(b, cap);
    if n < m {
        assert(b[n as int]);
    }
}

/// Counter of an escape-time evaluation in progress.
///
/// The caller walks the orbit and tells the timer, point by point, whether
/// the point lies within the radius; the timer says whether to go on and
/// holds the count. The count never exceeds the cap.
#[derive(Clone, Copy, Debug)]
pub struct EscapeTimer {
    count: u32,
    cap: u32,
}

impl EscapeTimer {
    /// The count never exceeds the cap.
    #[verifier::type_invariant]
    pub closed spec fn wf(self) -> bool {
        self.count <= self.cap
    }

    /// Steps counted so far.
    pub closed spec fn spec_count(self) -> nat {
        self.count as nat
    }

    /// Largest count that the timer will reach.
    pub closed spec fn spec_cap(self) -> nat {
        self.cap as nat
    }

    /// A timer at count zero.
    pub fn new(cap: u32) -> (t: EscapeTimer)
        ensures
            t.wf(),
            t.spec_count() == 0,
            t.spec_cap() == cap,
    {
        EscapeTimer { count: 0, cap }
    }

    /// Steps counted so far.
    pub fn count(&self) -> (n: u32)
        ensures
            n == self.spec_count(),
            n <= self.spec_cap(),
    {
        proof {
            use_type_invariant(self);
        }
        self.count
    }

    /// Largest count that the timer will reach.
    pub fn cap(&self) -> (n: u32)
        ensures
            n == self.spec_cap(),
    {
        self.cap
    }

    /// Takes in whether the current point of the orbit lies within the
    /// radius. If it does and the cap is not reached, counts one step and
    /// returns `true`: the caller moves to the next point. Otherwise leaves
    /// the count as it is and returns `false`: the count is final.
    pub fn advance(&mut self, within: bool) -> (again: bool)
        ensures
            again == (within && old(self).spec_count() < old(self).spec_cap()),
            final(self).spec_cap() == old(self).spec_cap(),
            final(self).spec_count() == old(self).spec_count() + if again { 1nat } else { 0nat },
            final(self).spec_count() <= final(self).spec_cap(),
            final(self).wf(),
    {
        proof {
            use_type_invariant(&*self);
        }
        if within && self.count < self.cap {
            self.count = self.count + 1;
            true
        } else {
            false
        }
    }
}

/// The escape time of a recorded trace under the cap `cap`.
///
/// Entry `k` of `within` says whether point `k` of the orbit lies within the
/// radius. A trace shorter than the cap is counted to its end.
pub fn escape_time_of_trace(within: &Vec<bool>, cap: u32) -> (n: u32)
    ensures
        n == escape_time(within@, cap as nat),
        is_escape_time(within@, cap as nat, n as nat),
        n <= cap,
{
    let mut timer = EscapeTimer::new(cap);
    let mut k: usize = 0;
    loop
        invariant
            timer.wf(),
            timer.spec_cap() == cap,
            timer.spec_count() == k,
            k <= within.len(),
            forall|j: int| 0 <= j < k ==> within@[j],
        ensures
            is_escape_time(within@, cap as nat, timer.spec_count()),
        decreases within.len() - k,
    {
        if k >= within.len() {
            break ;
        }
        if !timer.advance(within[k]) {
            break ;
        }
        k = k + 1;
    }
    proof {
        lemma_escape_time_characterized(within@, cap as nat, timer.spec_count());
    }
    timer.count()
}

} // verus!
