use vstd::arithmetic::power2::{lemma2_to64_rest, lemma_pow2_strictly_increases, lemma_pow2_unfold, pow2};
use vstd::arithmetic::power::lemma_pow0;
use vstd::prelude::*;

verus! {

/// Frequencies in whole Hz that bound the part of the spectrum that is shown.
pub struct SpectrumConfig {
    /// Lowest frequency shown.
    pub floor_frequency: u32,
    /// Highest frequency shown.
    pub ceiling_frequency: u32,
}

/// Highest frequency shown unless configured otherwise.
pub const DEFAULT_CEILING_FREQUENCY: u32 = 15_000;

impl SpectrumConfig {
    pub fn new(floor_frequency: u32, ceiling_frequency: u32) -> (r: Self)
        ensures
            r.floor_frequency == floor_frequency,
            r.ceiling_frequency == ceiling_frequency,
    {
        SpectrumConfig { floor_frequency, ceiling_frequency }
    }
}

impl Default for SpectrumConfig {
    fn default() -> (r: Self)
        ensures
            r.floor_frequency == 0,
            r.ceiling_frequency == DEFAULT_CEILING_FREQUENCY,
    {
        SpectrumConfig { floor_frequency: 0, ceiling_frequency: DEFAULT_CEILING_FREQUENCY }
    }
}

/// The exponent of the largest power of two not above `n` (zero for `n < 2`).
pub open spec fn log2_floor(n: nat) -> nat
    decreases n,
{
    if n < 2 {
        0
    } else {
        1 + log2_floor(n / 2)
    }
}

pub proof fn lemma_log2_floor_bounds(n: nat)
    requires
        n >= 1,
    ensures
        pow2(log2_floor(n)) <= n < pow2(log2_floor(n) + 1),
    decreases n,
{
    lemma_pow2_unfold(log2_floor(n) + 1);
    if n >= 2 {
        lemma_log2_floor_bounds(n / 2);
        lemma_pow2_unfold(log2_floor(n));
    } else {
        lemma_pow2_unfold(1);
        lemma_pow0(2);
    }
}

/// The transform size for `len` samples: the exponent and the value of the
/// largest power of two not above `len`; none below two samples.
pub fn transform_size(len: usize) -> (r: Option<(u8, usize)>)
    ensures
        r.is_none() <==> len < 2,
        r matches Some((p, size)) ==> {
            &&& p == log2_floor(len as nat)
            &&& size == pow2(p as nat)
            &&& size <= len < 2 * size
        },
{
    if len < 2 {
        return None;
    }
    proof {
        lemma_log2_floor_bounds(len as nat);
        lemma2_to64_rest();
        if log2_floor(len as nat) >= 64 {
            lemma_pow2_strictly_increases(64, log2_floor(len as nat));
        }
    }
    proof {
        lemma_pow0(2);
    }
    let mut p: u8 = 0;
    let mut size: usize = 1;
    let mut n: usize = len;
    while n >= 2
        invariant
            1 <= n,
            p + log2_floor(n as nat) == log2_floor(len as nat),
            log2_floor(len as nat) < 64,
            size == pow2(p as nat),
            size * n <= len,
        decreases n,
    {
        proof {
            lemma_pow2_unfold(p as nat + 1);
            assert(size * 2 <= size * n) by (nonlinear_arith)
                requires
                    n >= 2,
            ;
            assert(2 * size * (n / 2) <= len) by (nonlinear_arith)
                requires
                    size * n <= len,
                    n >= 2,
                    size >= 0,
            {
                assert(2 * (n / 2) <= n);
                assert(size * (2 * (n / 2)) <= size * n);
            }
        }
        n = n / 2;
        p = p + 1;
        size = size * 2;
    }
    proof {
        lemma_log2_floor_bounds(len as nat);
        lemma_pow2_unfold(p as nat + 1);
    }
    Some((p, size))
}

/// The transform index at which `freq` Hz falls for a transform of `size`
/// samples at `rate` Hz, at most `size`. At rate zero every positive
/// frequency is past the end.
pub open spec fn frequency_index(size: int, freq: int, rate: int) -> int {
    if rate == 0 {
        if freq == 0 {
            0
        } else {
            size
        }
    } else if size * freq / rate < size {
        size * freq / rate
    } else {
        size
    }
}

/// The indices `[low, high)` of a transform of `size` samples at `rate` Hz
/// that lie between the configured frequencies; none when fewer than two.
pub open spec fn bins_spec(size: int, rate: int, config: SpectrumConfig) -> Option<(int, int)> {
    let low = frequency_index(size, config.floor_frequency as int, rate);
    let high = frequency_index(size, config.ceiling_frequency as int, rate);
    if high < low + 2 {
        None
    } else {
        Some((low, high))
    }
}

/// With no floor frequency, a frame is drawn exactly when the ceiling
/// frequency's index is at least two.
pub proof fn lemma_ceiling_decides(size: int, rate: int, config: SpectrumConfig)
    requires
        config.floor_frequency == 0,
        size >= 0,
        rate >= 0,
    ensures
        bins_spec(size, rate, config).is_some() <==> frequency_index(
            size,
            config.ceiling_frequency as int,
            rate,
        ) >= 2,
        bins_spec(size, rate, config) matches Some((low, high)) ==> low == 0 && high
            == frequency_index(size, config.ceiling_frequency as int, rate),
{
    assert(frequency_index(size, 0, rate) == 0) by {
        if rate != 0 {
            assert(size * 0 == 0);
            assert(0int / rate == 0);
        }
    }
}

pub fn frequency_to_index(size: usize, freq: u32, rate: u32) -> (r: usize)
    ensures
        r == frequency_index(size as int, freq as int, rate as int),
{
    if rate == 0 {
        if freq == 0 {
            0
        } else {
            size
        }
    } else {
        proof {
            assert((size as int) * (freq as int) <= (usize::MAX as int) * (u32::MAX as int))
                by (nonlinear_arith)
                requires
                    size <= usize::MAX,
                    freq <= u32::MAX,
            ;
        }
        let at: u128 = (size as u128) * (freq as u128) / (rate as u128);
        if at < size as u128 {
            at as usize
        } else {
            size
        }
    }
}

/// The indices of a transform of `size` samples at `rate` Hz that the
/// spectrum is drawn from: from the floor frequency's up to the ceiling
/// frequency's, or none when fewer than two are left.
pub fn bin_range(size: usize, rate: u32, config: &SpectrumConfig) -> (r: Option<(usize, usize)>)
    ensures
        match r {
            Some((low, high)) => bins_spec(size as int, rate as int, *config) == Some(
                (low as int, high as int),
            ),
            None => bins_spec(size as int, rate as int, *config).is_none(),
        },
{
    let low = frequency_to_index(size, config.floor_frequency, rate);
    let high = frequency_to_index(size, config.ceiling_frequency, rate);
    if high < 2 || high - 2 < low {
        None
    } else {
        Some((low, high))
    }
}

} // verus!
