//! Laws of loads: what the bits of a load stand for.

use vstd::arithmetic::power2::{lemma_pow2_adds, pow2};
use vstd::prelude::*;

use crate::cpu;
use crate::cpu::CpuPercent;

verus! {

/// How many of the smallest steps of the format, 2 to the power of -149, make up one percent.
pub open spec fn percent() -> nat {
    pow2(149)
}

/// A load of sign, exponent and fraction is the number that these stand for: below the smallest
/// exponent the fraction alone, above it the fraction with a leading one, doubled for each exponent
/// more. Only the largest exponent with a fraction is not a number.
pub proof fn loads_are_what_their_bits_say(negative: bool, exponent: nat, fraction: nat)
    requires
        exponent < 256,
        fraction < 0x80_0000,
    ensures
        ({
            let sign: nat = if negative {
                0x8000_0000
            } else {
                0
            };
            let c = CpuPercent { bits: (sign + exponent * 0x80_0000 + fraction) as u32 };
            let size = if exponent == 0 {
                fraction as int
            } else {
                ((0x80_0000 + fraction) * pow2((exponent - 1) as nat)) as int
            };
            &&& c.is_nan() <==> exponent == 255 && fraction > 0
            &&& c.steps() == if negative {
                -size
            } else {
                size
            }
        }),
{
    let m = exponent * 0x80_0000 + fraction;
    assert(m / 0x80_0000 == exponent && m % 0x80_0000 == fraction) by (nonlinear_arith)
        requires
            m == exponent * 0x80_0000 + fraction,
            fraction < 0x80_0000,
    ;
    assert(m < 0x8000_0000);
}

/// Loads are compared as numbers: nothing holds of what is not a number, and else one load is below
/// another if it is at most as large and not equal to it.
pub proof fn loads_compare_as_numbers(a: CpuPercent, b: CpuPercent)
    ensures
        a.is_nan() || b.is_nan() ==> !a.is_below(b) && !a.is_at_most(b),
        !a.is_nan() && !b.is_nan() ==> (a.is_below(b) <==> a.steps() < b.steps()) && (a.is_at_most(
            b,
        ) <==> a.steps() <= b.steps()),
{
}

proof fn lemma_load(bits: u32, exponent: nat, fraction: nat, times: nat)
    requires
        bits == exponent * 0x80_0000 + fraction,
        0 < exponent < 255,
        fraction < 0x80_0000,
        exponent <= 150,
        0x80_0000 + fraction == times * pow2((150 - exponent) as nat),
    ensures
        (CpuPercent { bits }).steps() == times * percent(),
        !(CpuPercent { bits }).is_nan(),
{
    loads_are_what_their_bits_say(false, exponent, fraction);
    let p = pow2((150 - exponent) as nat);
    let q = pow2((exponent - 1) as nat);
    lemma_pow2_adds((150 - exponent) as nat, (exponent - 1) as nat);
    assert((times * p) * q == times * (p * q)) by (nonlinear_arith);
    assert((150 - exponent) + (exponent - 1) == 149);
}

/// A rule starts to limit at 25 percent and lets go at 8 percent unless it says otherwise, and no
/// threshold is above 1200 percent.
pub proof fn usual_loads()
    ensures
        (CpuPercent { bits: cpu::DEFAULT_TRIGGER_CPU_BITS }).steps() == 25 * percent(),
        (CpuPercent { bits: cpu::DEFAULT_RELEASE_CPU_BITS }).steps() == 8 * percent(),
        (CpuPercent { bits: cpu::MAX_THRESHOLD_BITS }).steps() == 1200 * percent(),
        !(CpuPercent { bits: cpu::DEFAULT_TRIGGER_CPU_BITS }).is_nan(),
        !(CpuPercent { bits: cpu::DEFAULT_RELEASE_CPU_BITS }).is_nan(),
        !(CpuPercent { bits: cpu::MAX_THRESHOLD_BITS }).is_nan(),
        (CpuPercent { bits: 0 }).steps() == 0,
        !(CpuPercent { bits: 0 }).is_nan(),
{
    lemma_small_powers();
    lemma_load(cpu::DEFAULT_TRIGGER_CPU_BITS, 131, 0x48_0000, 25);
    lemma_load(cpu::DEFAULT_RELEASE_CPU_BITS, 130, 0, 8);
    lemma_load(cpu::MAX_THRESHOLD_BITS, 137, 0x16_0000, 1200);
    loads_are_what_their_bits_say(false, 0, 0);
}

proof fn lemma_small_powers()
    ensures
        pow2(13) == 0x2000,
        pow2(19) == 0x8_0000,
        pow2(20) == 0x10_0000,
{
    vstd::arithmetic::power2::lemma2_to64();
}

} // verus!
