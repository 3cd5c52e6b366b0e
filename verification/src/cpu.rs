//! CPU loads in percent, kept as the bits of an IEEE 754 single-precision number.

use vstd::arithmetic::power2::pow2;
use vstd::prelude::*;

verus! {

/// The bits of 25.0, the load at which a rule starts to limit by default.
pub const DEFAULT_TRIGGER_CPU_BITS: u32 = 0x41c8_0000;

/// The bits of 8.0, the load at which a rule lets go by default.
pub const DEFAULT_RELEASE_CPU_BITS: u32 = 0x4100_0000;

/// The bits of 1200.0, the largest load that a threshold may name.
pub const MAX_THRESHOLD_BITS: u32 = 0x4496_0000;

/// The weight of the sign bit.
pub const SIGN: u32 = 0x8000_0000;

/// The bits of positive infinity. A larger magnitude is not a number.
pub const INFINITY: u32 = 0x7f80_0000;

/// A CPU load in percent.
#[derive(Clone, Copy, Debug, PartialEq, Eq, Structural)]
pub struct CpuPercent {
    pub bits: u32,
}

impl CpuPercent {
    /// The bits without the sign.
    pub open spec fn magnitude(self) -> nat {
        (if self.bits >= SIGN {
            self.bits - SIGN
        } else {
            self.bits as int
        }) as nat
    }

    /// Whether this is not a number.
    pub open spec fn is_nan(self) -> bool {
        self.magnitude() > INFINITY
    }

    /// The load in units of 2 to the power of -149, the smallest step of the format: every load
    /// but infinity is a whole number of such steps, and infinity stands above them all.
    pub open spec fn steps(self) -> int {
        if self.bits >= SIGN {
            -(magnitude_steps(self.magnitude()) as int)
        } else {
            magnitude_steps(self.magnitude()) as int
        }
    }

    /// `self < other`; false when either is not a number.
    pub open spec fn is_below(self, other: CpuPercent) -> bool {
        !self.is_nan() && !other.is_nan() && self.steps() < other.steps()
    }

    /// `self <= other`; false when either is not a number.
    pub open spec fn is_at_most(self, other: CpuPercent) -> bool {
        !self.is_nan() && !other.is_nan() && self.steps() <= other.steps()
    }

    /// The position of this load in the order of all loads.
    fn rank(self) -> (r: i64)
        ensures
            r == self.spec_rank(),
    {
        if self.bits >= SIGN {
            -((self.bits - SIGN) as i64)
        } else {
            self.bits as i64
        }
    }

    spec fn spec_rank(self) -> int {
        if self.bits >= SIGN {
            -(self.magnitude() as int)
        } else {
            self.magnitude() as int
        }
    }

    /// Whether this is not a number.
    pub fn not_a_number(self) -> (r: bool)
        ensures
            r == self.is_nan(),
    {
        let m: u32 = if self.bits >= SIGN { self.bits - SIGN } else { self.bits };
        m > INFINITY
    }

    /// Whether `self < other`.
    pub fn below(self, other: CpuPercent) -> (r: bool)
        ensures
            r == self.is_below(other),
    {
        proof {
            lemma_rank_orders(self, other);
        }
        !self.not_a_number() && !other.not_a_number() && self.rank() < other.rank()
    }

    /// Whether `self <= other`.
    pub fn at_most(self, other: CpuPercent) -> (r: bool)
        ensures
            r == self.is_at_most(other),
    {
        proof {
            lemma_rank_orders(other, self);
        }
        !self.not_a_number() && !other.not_a_number() && self.rank() <= other.rank()
    }
}

/// The value of a magnitude in steps: the mantissa, scaled by the exponent.
pub open spec fn magnitude_steps(m: nat) -> nat {
    let exponent = m / 0x80_0000;
    let fraction = m % 0x80_0000;
    if exponent == 0 {
        fraction
    } else {
        (0x80_0000 + fraction) * pow2((exponent - 1) as nat)
    }
}

/// A larger magnitude is a larger value.
pub proof fn magnitude_orders_values(a: nat, b: nat)
    requires
        a < b,
    ensures
        magnitude_steps(a) < magnitude_steps(b),
{
    let ea = a / 0x80_0000;
    let eb = b / 0x80_0000;
    let fa = a % 0x80_0000;
    let fb = b % 0x80_0000;
    assert(a == ea * 0x80_0000 + fa && b == eb * 0x80_0000 + fb);
    assert(ea <= eb);
    if eb == 0 {
    } else if ea == 0 {
        let p = pow2((eb - 1) as nat);
        vstd::arithmetic::power2::lemma_pow2_pos((eb - 1) as nat);
        assert((0x80_0000 + fb) * p >= 0x80_0000) by (nonlinear_arith)
            requires
                p >= 1,
                fb >= 0,
        ;
    } else if ea == eb {
        let p = pow2((eb - 1) as nat);
        vstd::arithmetic::power2::lemma_pow2_pos((eb - 1) as nat);
        assert((0x80_0000 + fa) * p < (0x80_0000 + fb) * p) by (nonlinear_arith)
            requires
                p >= 1,
                fa < fb,
        ;
    } else {
        let p = pow2((ea - 1) as nat);
        let q = pow2((eb - 1) as nat);
        let d = pow2((eb - ea - 1) as nat);
        vstd::arithmetic::power2::lemma_pow2_pos((ea - 1) as nat);
        vstd::arithmetic::power2::lemma_pow2_pos((eb - ea - 1) as nat);
        vstd::arithmetic::power2::lemma_pow2_adds(ea, (eb - ea - 1) as nat);
        vstd::arithmetic::power2::lemma_pow2_unfold(ea);
        assert(q == (2 * p) * d);
        assert((0x80_0000 + fa) * p < (0x80_0000 + fb) * q) by (nonlinear_arith)
            requires
                p >= 1,
                d >= 1,
                q == (2 * p) * d,
                0 <= fa < 0x80_0000,
                fb >= 0,
        {
            assert(q >= 2 * p) by (nonlinear_arith)
                requires
                    p >= 1,
                    d >= 1,
                    q == (2 * p) * d,
            ;
            assert((0x80_0000 + fb) * q >= 0x80_0000 * (2 * p)) by (nonlinear_arith)
                requires
                    q >= 2 * p,
                    p >= 1,
                    fb >= 0,
            ;
            assert((0x80_0000 + fa) * p < 0x100_0000 * p) by (nonlinear_arith)
                requires
                    p >= 1,
                    0 <= fa < 0x80_0000,
            ;
        }
    }
}

/// No magnitude but zero has the value zero.
proof fn lemma_zero(m: nat)
    ensures
        magnitude_steps(m) == 0 <==> m == 0,
{
    if m > 0 {
        magnitude_orders_values(0, m);
    }
}

proof fn lemma_rank_orders(a: CpuPercent, b: CpuPercent)
    ensures
        a.spec_rank() < b.spec_rank() <==> a.steps() < b.steps(),
{
    let x = a.magnitude();
    let y = b.magnitude();
    lemma_zero(x);
    lemma_zero(y);
    if x < y {
        magnitude_orders_values(x, y);
    } else if y < x {
        magnitude_orders_values(y, x);
    }
}

/// Two loads that are numbers are always comparable.
pub proof fn loads_are_totally_ordered(a: CpuPercent, b: CpuPercent)
    requires
        !a.is_nan(),
        !b.is_nan(),
    ensures
        a.is_below(b) <==> !b.is_at_most(a),
        a.is_at_most(b) || b.is_at_most(a),
{
}

} // verus!
