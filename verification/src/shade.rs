//! The grayscale shade of a pixel, derived from its iteration count.

use vstd::prelude::*;

verus! {

/// Number of the brightest level of the gradient.
pub const LEVELS: u32 = 255;

/// Divisor that brings a level into the unit interval.
pub const LEVEL_SCALE: u32 = 256;

/// The shade of a pixel whose orbit was followed for some number of steps
/// out of `cap`.
///
/// The two integers are the operands of the shade formula; `value` is the
/// number they stand for, an opacity between 0 and 1.
#[derive(Clone, Copy, Debug, PartialEq, Eq, Structural)]
pub struct Shade {
    /// The iteration count times `LEVELS`.
    pub scaled: u64,
    /// The cap on the iteration count.
    pub cap: u32,
}

impl Shade {
    /// The cap is positive and `scaled` stands for a count of at most `cap`.
    pub open spec fn wf(self) -> bool {
        &&& self.cap > 0
        &&& self.scaled <= LEVELS * self.cap
    }

    /// The shade of the iteration count `iterations` under the cap `cap`.
    pub open spec fn of(iterations: nat, cap: nat) -> Shade {
        Shade { scaled: (iterations * LEVELS) as u64, cap: cap as u32 }
    }

    /// The number this shade stands for:
    /// `(255 - scaled / cap) / 256`.
    pub open spec fn value(self) -> real {
        (LEVELS as real - self.scaled as real / self.cap as real) / (LEVEL_SCALE as real)
    }

    /// Numerator of `value` over `spec_denominator`.
    pub open spec fn spec_numerator(self) -> int {
        LEVELS * self.cap - self.scaled
    }

    /// Denominator of `value`.
    pub open spec fn spec_denominator(self) -> int {
        LEVEL_SCALE * self.cap
    }

    /// The shade of the iteration count `iterations` under the cap `cap`, or
    /// `None` if the cap is zero or the count exceeds it.
    pub fn from_count(iterations: u32, cap: u32) -> (s: Option<Shade>)
        ensures
            s.is_some() <==> cap > 0 && iterations <= cap,
            s matches Some(shade) ==> shade == Shade::of(iterations as nat, cap as nat)
                && shade.wf() && shade.scaled == iterations * LEVELS,
    {
        if cap == 0 || iterations > cap {
            return None;
        }
        assert(iterations * LEVELS <= u32::MAX * 255) by (nonlinear_arith)
            requires
                iterations <= u32::MAX,
                LEVELS == 255,
        ;
        let scaled: u64 = iterations as u64 * LEVELS as u64;
        Some(Shade { scaled, cap })
    }

    /// Numerator of the shade's value over `denominator`.
    pub fn numerator(&self) -> (n: u64)
        requires
            self.wf(),
        ensures
            n == self.spec_numerator(),
            n <= self.spec_denominator(),
    {
        LEVELS as u64 * self.cap as u64 - self.scaled
    }

    /// Denominator of the shade's value.
    pub fn denominator(&self) -> (d: u64)
        requires
            self.wf(),
        ensures
            d == self.spec_denominator(),
            d > 0,
    {
        assert(0 < LEVEL_SCALE * self.cap <= 256 * u32::MAX) by (nonlinear_arith)
            requires
                0 < self.cap <= u32::MAX,
                LEVEL_SCALE == 256,
        ;
        LEVEL_SCALE as u64 * self.cap as u64
    }
}

/// A shade's value is its numerator over its denominator.
pub proof fn lemma_shade_value_is_ratio(s: Shade)
    requires
        s.wf(),
    ensures
        s.value() * (s.spec_denominator() as real) == s.spec_numerator() as real,
{
    let scaled = s.scaled as real;
    let cap = s.cap as real;
    assert(((255real - scaled / cap) / 256real) * (256real * cap) == 255real * cap - scaled)
        by (nonlinear_arith)
        requires
            cap > 0real,
    ;
    assert(s.spec_denominator() as real == 256real * cap) by (nonlinear_arith)
        requires
            s.spec_denominator() == 256 * s.cap,
            cap == s.cap as real,
    ;
    assert(s.spec_numerator() as real == 255real * cap - scaled) by (nonlinear_arith)
        requires
            s.spec_numerator() == 255 * s.cap - s.scaled,
            cap == s.cap as real,
            scaled == s.scaled as real,
    ;
}

/// Every shade lies in the unit interval.
pub proof fn lemma_shade_in_unit_interval(s: Shade)
    requires
        s.wf(),
    ensures
        0real <= s.value() <= 1real,
{
    let scaled = s.scaled as real;
    let cap = s.cap as real;
    assert(0real <= (255real - scaled / cap) / 256real <= 1real) by (nonlinear_arith)
        requires
            cap > 0real,
            0real <= scaled <= 255real * cap,
    ;
}

/// The shade of every count up to the cap lies in the unit interval.
pub proof fn lemma_count_shade_in_unit_interval(iterations: nat, cap: nat)
    requires
        0 < cap <= u32::MAX,
        iterations <= cap,
    ensures
        Shade::of(iterations, cap).wf(),
        0real <= Shade::of(iterations, cap).value() <= 1real,
{
    lemma_count_shade_wf(iterations, cap);
    lemma_shade_in_unit_interval(Shade::of(iterations, cap));
}

/// The shade of a count up to the cap is well formed and holds the count
/// times `LEVELS`.
pub proof fn lemma_count_shade_wf(iterations: nat, cap: nat)
    requires
        0 < cap <= u32::MAX,
        iterations <= cap,
    ensures
        Shade::of(iterations, cap).wf(),
        Shade::of(iterations, cap).scaled == iterations * LEVELS,
        Shade::of(iterations, cap).cap == cap,
{
}

/// A count that reached the cap has shade 0; a count of zero has shade
/// `255 / 256`.
pub proof fn lemma_shade_ends(cap: nat)
    requires
        0 < cap <= u32::MAX,
    ensures
        Shade::of(cap, cap).value() == 0real,
        Shade::of(0, cap).value() * 256real == 255real,
{
    lemma_count_shade_wf(cap, cap);
    lemma_count_shade_wf(0, cap);
    let c = cap as real;
    let full = (cap * 255) as real;
    assert(full == c * 255real) by (nonlinear_arith)
        requires
            full == (cap * 255) as real,
            c == cap as real,
    ;
    assert((255real - (c * 255real) / c) / 256real == 0real) by (nonlinear_arith)
        requires
            c > 0real,
    ;
    assert(((255real - 0real / c) / 256real) * 256real == 255real) by (nonlinear_arith)
        requires
            c > 0real,
    ;
}

/// The longer the orbit stays within the radius, the smaller the shade.
pub proof fn lemma_shade_decreases(a: nat, b: nat, cap: nat)
    requires
        0 < cap <= u32::MAX,
        a <= b <= cap,
    ensures
        Shade::of(b, cap).value() <= Shade::of(a, cap).value(),
{
    lemma_count_shade_wf(a, cap);
    lemma_count_shade_wf(b, cap);
    let c = cap as real;
    let x = (a * 255) as real;
    let y = (b * 255) as real;
    assert(x <= y) by (nonlinear_arith)
        requires
            a <= b,
            x == (a * 255) as real,
            y == (b * 255) as real,
    ;
    assert((255real - y / c) / 256real <= (255real - x / c) / 256real) by (nonlinear_arith)
        requires
            c > 0real,
            x <= y,
    ;
}

} // verus!
