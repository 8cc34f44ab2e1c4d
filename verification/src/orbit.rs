//! The orbit of the origin under `z -> z * z + c`, in exact arithmetic, and
//! what is known of its escape time.
//!
//! Everything here is ghost code: complex numbers have real parts, and no
//! rounding takes place. An evaluation in machine arithmetic approximates this
//! model; nothing in this crate claims that the two agree.

use vstd::prelude::*;
use crate::escape::escape_time;
use crate::escape::lemma_escape_time_characterized;
use crate::escape::lemma_escape_time_is_escape_time;

verus! {

/// A complex number with real parts.
pub ghost struct Complex {
    pub re: real,
    pub im: real,
}

impl Complex {
    /// The square of the absolute value.
    pub open spec fn norm_sqr(self) -> real {
        self.re * self.re + self.im * self.im
    }

    /// Whether the number lies within the critical radius: `|z| <= 2`.
    pub open spec fn within_radius(self) -> bool {
        self.norm_sqr() <= 4real
    }

    /// One step of the orbit: `z * z + c`.
    pub open spec fn step(self, c: Complex) -> Complex {
        Complex {
            re: self.re * self.re - self.im * self.im + c.re,
            im: self.re * self.im + self.im * self.re + c.im,
        }
    }
}

/// The origin of the plane, where every orbit starts.
pub open spec fn origin() -> Complex {
    Complex { re: 0real, im: 0real }
}

/// Point `k` of the orbit for the parameter `c`.
pub open spec fn orbit(c: Complex, k: nat) -> Complex
    decreases k,
{
    if k == 0 {
        origin()
    } else {
        orbit(c, (k - 1) as nat).step(c)
    }
}

/// The first `len` points of the orbit for `c`, each reduced to whether it
/// lies within the critical radius.
pub open spec fn trace(c: Complex, len: nat) -> Seq<bool> {
    Seq::new(len, |k: int| orbit(c, k as nat).within_radius())
}

/// The escape time of `c` under the cap `cap`: the least `n` at which the
/// orbit is outside the critical radius, or `cap` if there is none below it.
pub open spec fn orbit_escape_time(c: Complex, cap: nat) -> nat {
    escape_time(trace(c, cap), cap)
}

/// The escape time of `c` is `n` exactly when the orbit stays within the
/// radius before step `n`, and `n` is the cap or the orbit is outside at `n`.
pub proof fn lemma_orbit_escape_time(c: Complex, cap: nat, n: nat)
    requires
        n <= cap,
        forall|k: nat| k < n ==> #[trigger] orbit(c, k).within_radius(),
        n == cap || !orbit(c, n).within_radius(),
    ensures
        orbit_escape_time(c, cap) == n,
{
    let t = trace(c, cap);
    assert forall|k: int| 0 <= k < n implies t[k] by {
        assert(orbit(c, k as nat).within_radius());
    }
    lemma_escape_time_characterized(t, cap, n);
}

/// A recorded trace of the orbit that is at least as long as the cap has the
/// orbit's escape time.
pub proof fn lemma_trace_escape_time(c: Complex, len: nat, cap: nat)
    requires
        cap <= len,
    ensures
        escape_time(trace(c, len), cap) == orbit_escape_time(c, cap),
{
    lemma_escape_time_is_escape_time(trace(c, cap), cap);
    let n = orbit_escape_time(c, cap);
    assert forall|k: int| 0 <= k < n implies trace(c, len)[k] by {
        assert(trace(c, cap)[k]);
    }
    if n != cap {
        assert(!trace(c, cap)[n as int]);
    }
    lemma_escape_time_characterized(trace(c, len), cap, n);
}

/// A parameter outside the critical radius escapes at the first step: its
/// escape time is 1 under any positive cap, and so below any cap of at
/// least 2.
pub proof fn lemma_outside_radius_escapes(c: Complex, cap: nat)
    requires
        !c.within_radius(),
    ensures
        orbit_escape_time(c, cap) == if cap == 0 { 0nat } else { 1nat },
        cap >= 2 ==> orbit_escape_time(c, cap) < cap,
{
    assert(orbit(c, 0) == origin());
    assert(origin().within_radius());
    lemma_first_point_is_parameter(c);
    if cap == 0 {
        lemma_orbit_escape_time(c, cap, 0);
    } else {
        assert forall|k: nat| k < 1 implies #[trigger] orbit(c, k).within_radius() by {
            assert(k == 0);
        }
        lemma_orbit_escape_time(c, cap, 1);
    }
}

/// The orbit's first point after the origin is the parameter itself.
pub proof fn lemma_first_point_is_parameter(c: Complex)
    ensures
        orbit(c, 1) == c,
{
    reveal_with_fuel(orbit, 2);
    assert(orbit(c, 0) == origin());
    assert(orbit(c, 1) == origin().step(c));
    let z = origin().step(c);
    assert(z.re == c.re && z.im == c.im) by (nonlinear_arith)
        requires
            z.re == 0real * 0real - 0real * 0real + c.re,
            z.im == 0real * 0real + 0real * 0real + c.im,
    ;
}

/// The orbit of the origin stays at the origin, so the origin's escape time
/// is the cap.
pub proof fn lemma_origin_never_escapes(cap: nat)
    ensures
        orbit_escape_time(origin(), cap) == cap,
{
    assert forall|k: nat| k < cap implies #[trigger] orbit(origin(), k).within_radius() by {
        lemma_origin_orbit(k);
    }
    lemma_orbit_escape_time(origin(), cap, cap);
}

/// Every point of the origin's orbit is the origin.
pub proof fn lemma_origin_orbit(k: nat)
    ensures
        orbit(origin(), k) == origin(),
    decreases k,
{
    if k > 0 {
        lemma_origin_orbit((k - 1) as nat);
        let z = origin().step(origin());
        assert(z.re == 0real && z.im == 0real) by (nonlinear_arith)
            requires
                z.re == 0real * 0real - 0real * 0real + 0real,
                z.im == 0real * 0real + 0real * 0real + 0real,
        ;
    }
}

/// The parameter `-1`.
pub open spec fn minus_one() -> Complex {
    Complex { re: -1real, im: 0real }
}

/// The orbit of `-1` alternates between the origin and `-1`.
pub proof fn lemma_minus_one_orbit(k: nat)
    ensures
        orbit(minus_one(), k) == if k % 2 == 0 { origin() } else { minus_one() },
    decreases k,
{
    if k > 0 {
        lemma_minus_one_orbit((k - 1) as nat);
        let a = origin().step(minus_one());
        assert(a.re == -1real && a.im == 0real) by (nonlinear_arith)
            requires
                a.re == 0real * 0real - 0real * 0real + (-1real),
                a.im == 0real * 0real + 0real * 0real + 0real,
        ;
        let b = minus_one().step(minus_one());
        assert(b.re == 0real && b.im == 0real) by (nonlinear_arith)
            requires
                b.re == (-1real) * (-1real) - 0real * 0real + (-1real),
                b.im == (-1real) * 0real + 0real * (-1real) + 0real,
        ;
    }
}

/// The orbit of `-1` has period two and never leaves the radius, so the
/// escape time of `-1` is the cap.
pub proof fn lemma_minus_one_never_escapes(cap: nat)
    ensures
        orbit_escape_time(minus_one(), cap) == cap,
{
    assert forall|k: nat| k < cap implies #[trigger] orbit(minus_one(), k).within_radius() by {
        lemma_minus_one_orbit(k);
        assert(origin().norm_sqr() <= 4real) by (nonlinear_arith)
            requires
                origin().norm_sqr() == 0real * 0real + 0real * 0real,
        ;
        assert(minus_one().norm_sqr() <= 4real) by (nonlinear_arith)
            requires
                minus_one().norm_sqr() == (-1real) * (-1real) + 0real * 0real,
        ;
    }
    lemma_orbit_escape_time(minus_one(), cap, cap);
}

/// The parameter `-1/2`.
pub open spec fn minus_half() -> Complex {
    Complex { re: -1real / 2real, im: 0real }
}

/// The orbit of `-1/2` stays on the real axis between `-1/2` and `0`.
pub proof fn lemma_minus_half_orbit(k: nat)
    ensures
        -1real / 2real <= orbit(minus_half(), k).re <= 0real,
        orbit(minus_half(), k).im == 0real,
    decreases k,
{
    if k > 0 {
        lemma_minus_half_orbit((k - 1) as nat);
        let z = orbit(minus_half(), (k - 1) as nat);
        let w = z.step(minus_half());
        assert(-1real / 2real <= w.re <= 0real && w.im == 0real) by (nonlinear_arith)
            requires
                -1real / 2real <= z.re <= 0real,
                z.im == 0real,
                w.re == z.re * z.re - z.im * z.im + (-1real / 2real),
                w.im == z.re * z.im + z.im * z.re + 0real,
        ;
    }
}

/// The orbit of `-1/2` never leaves the radius, so the escape time of `-1/2`
/// is the cap.
pub proof fn lemma_minus_half_never_escapes(cap: nat)
    ensures
        orbit_escape_time(minus_half(), cap) == cap,
{
    assert forall|k: nat| k < cap implies #[trigger] orbit(minus_half(), k).within_radius() by {
        lemma_minus_half_orbit(k);
        let z = orbit(minus_half(), k);
        assert(z.re * z.re + z.im * z.im <= 4real) by (nonlinear_arith)
            requires
                -1real / 2real <= z.re <= 0real,
                z.im == 0real,
        ;
    }
    lemma_orbit_escape_time(minus_half(), cap, cap);
}

} // verus!
