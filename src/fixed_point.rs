use vstd::prelude::*;

verus! {

/// Scale of every fixed-point value: one unit is `PRECISION` ticks.
pub const PRECISION: u128 = 1_000_000;

/// Bound on a percent deviation, one hundred times `PRECISION`.
pub const MAX_PCT: i128 = 100_000_000;

/// `ln(n + e) * PRECISION` for `n` in `0..64`.
pub const LN_TABLE: [u128; 64] = [
    1_000_000, 1_313_262, 1_547_563, 1_734_601,
    1_890_066, 2_022_971, 2_138_990, 2_241_671,
    2_333_586, 2_416_540, 2_491_930, 2_560_867,
    2_624_230, 2_682_718, 2_736_892, 2_787_200,
    2_834_006, 2_877_612, 2_918_272, 2_956_202,
    2_991_583, 3_024_572, 3_055_305, 3_083_901,
    3_110_467, 3_135_098, 3_157_880, 3_178_889,
    3_198_196, 3_215_862, 3_231_943, 3_246_491,
    3_259_550, 3_271_162, 3_281_365, 3_290_193,
    3_297_677, 3_303_847, 3_308_728, 3_312_345,
    3_314_718, 3_315_869, 3_315_816, 3_314_576,
    3_312_165, 3_308_598, 3_303_889, 3_298_050,
    3_291_094, 3_283_031, 3_273_873, 3_263_628,
    3_252_306, 3_239_916, 3_226_465, 3_211_962,
    3_196_413, 3_179_826, 3_162_207, 3_143_562,
    3_123_897, 3_103_218, 3_081_530, 3_058_839,
];

/// `ln(64) * PRECISION`, where the extrapolation past the table starts.
pub const LN_BASE: u128 = 4_158_883;

/// The logarithm weight of a submission order: the table entry below 64, and
/// past it a line from `LN_BASE` rising by a tenth of `PRECISION / 64` per step.
pub open spec fn ln_weight(n: nat) -> int {
    if n < 64 {
        LN_TABLE@[n as int] as int
    } else {
        LN_BASE + (((n - 64) * PRECISION) / 64) / 10
    }
}

/// Every weight is at least `PRECISION`, so dividing by one is always defined.
pub proof fn lemma_ln_weight_floor(n: nat)
    ensures
        ln_weight(n) >= PRECISION,
{
    if n < 64 {
        assert(forall|i: int| 0 <= i < 64 ==> #[trigger] LN_TABLE@[i] >= PRECISION);
    }
}

/// Table lookup with linear extrapolation for `n >= 64`.
pub fn ln_approx(n: u32) -> (r: u128)
    ensures
        r == ln_weight(n as nat),
        r >= PRECISION,
{
    if n < 64 {
        proof {
            lemma_ln_weight_floor(n as nat);
        }
        LN_TABLE[n as usize]
    } else {
        let extra: u128 = ((n as u128) - 64) * PRECISION / 64;
        LN_BASE + extra / 10
    }
}

} // verus!
