//! Conversion of ticks to microseconds.

use vstd::prelude::*;

verus! {

/// Tempo of a file that sets none: 120 beats per minute.
pub const DEFAULT_US_PER_QUARTER_NOTE: u32 = 500_000;

/// Ticks per quarter note assumed for a file whose header has no metrical
/// division. This is an approximation: a division by frames of a time code
/// is not interpreted.
pub const FALLBACK_PPQ: u16 = 480;

/// The time, in whole microseconds, of `ticks` ticks at `us_per_quarter_note`
/// microseconds per quarter note and `ppq` ticks per quarter note:
/// `ticks / ppq` quarter notes, each `us_per_quarter_note` long, rounded down.
///
/// The time is held at `u64::MAX` where it would lie beyond. With no ticks
/// in a quarter note every time but zero lies beyond.
pub open spec fn ticks_to_us(ticks: nat, us_per_quarter_note: nat, ppq: nat) -> nat {
    if ticks * us_per_quarter_note == 0 {
        0
    } else if ppq == 0 {
        u64::MAX as nat
    } else if ticks * us_per_quarter_note / ppq > u64::MAX {
        u64::MAX as nat
    } else {
        ticks * us_per_quarter_note / ppq
    }
}

/// Computes `ticks_to_us`.
pub fn ticks_to_micros(ticks: u128, us_per_quarter_note: u32, ppq: u16) -> (us: u64)
    ensures
        us == ticks_to_us(ticks as nat, us_per_quarter_note as nat, ppq as nat),
{
    if ticks == 0 || us_per_quarter_note == 0 {
        assert((ticks as nat) * (us_per_quarter_note as nat) == 0) by (nonlinear_arith)
            requires
                ticks == 0 || us_per_quarter_note == 0,
        ;
        return 0;
    }
    assert((ticks as nat) * (us_per_quarter_note as nat) >= ticks as nat) by (nonlinear_arith)
        requires
            ticks > 0,
            us_per_quarter_note > 0,
    ;
    if ppq == 0 {
        return u64::MAX;
    }
    if ticks >= 0x1_0000_0000_0000_0000_0000_0000u128 {
        assert((ticks as nat) * (us_per_quarter_note as nat) / (ppq as nat) > u64::MAX)
            by (nonlinear_arith)
            requires
                (ticks as nat) * (us_per_quarter_note as nat)
                    >= 0x1_0000_0000_0000_0000_0000_0000nat,
                0 < ppq < 0x1_0000,
        ;
        return u64::MAX;
    }
    assert((ticks as nat) * (us_per_quarter_note as nat)
        < 0x1_0000_0000_0000_0000_0000_0000_0000_0000nat) by (nonlinear_arith)
        requires
            ticks < 0x1_0000_0000_0000_0000_0000_0000u128,
            us_per_quarter_note < 0x1_0000_0000nat,
    ;
    let product: u128 = ticks * (us_per_quarter_note as u128);
    let quotient: u128 = product / (ppq as u128);
    if quotient > u64::MAX as u128 {
        u64::MAX
    } else {
        quotient as u64
    }
}

/// More ticks at a tempo that is no faster never give an earlier time.
pub proof fn lemma_ticks_to_us_monotone(
    earlier: nat,
    later: nat,
    shorter: nat,
    longer: nat,
    ppq: nat,
)
    requires
        earlier <= later,
        shorter <= longer,
    ensures
        ticks_to_us(earlier, shorter, ppq) <= ticks_to_us(later, longer, ppq),
{
    assert(earlier * shorter <= later * longer) by (nonlinear_arith)
        requires
            earlier <= later,
            shorter <= longer,
    ;
    if ppq > 0 {
        assert(earlier * shorter / ppq <= later * longer / ppq) by (nonlinear_arith)
            requires
                earlier * shorter <= later * longer,
                ppq > 0,
        ;
    }
}

/// The time of a tick count never exceeds `u64::MAX`.
pub proof fn lemma_ticks_to_us_bounded(ticks: nat, us_per_quarter_note: nat, ppq: nat)
    ensures
        ticks_to_us(ticks, us_per_quarter_note, ppq) <= u64::MAX,
{
}

} // verus!
