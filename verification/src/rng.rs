//! The deterministic pseudo-random number generator that threads a study.
//!
//! One seed drives a whole study; a solver and a problem each receive a
//! generator derived from it. The generator is an xorshift with a SplitMix
//! seed scramble, so every draw is a pure function of the seed and the same
//! seed replays the same sequence on any machine.

use vstd::prelude::*;

verus! {

/// The SplitMix scramble of a seed, also used to derive child seeds.
pub open spec fn spec_split_mix(z0: u64) -> u64 {
    let z1 = z0.wrapping_add(0x9e3779b97f4a7c15u64);
    let z2 = (z1 ^ (z1 >> 30)).wrapping_mul(0xbf58476d1ce4e5b9u64);
    let z3 = (z2 ^ (z2 >> 27)).wrapping_mul(0x94d049bb133111ebu64);
    z3 ^ (z3 >> 31)
}

/// One xorshift step.
pub open spec fn spec_xorshift(s0: u64) -> u64 {
    let s1 = s0 ^ (s0 << 13);
    let s2 = s1 ^ (s1 >> 7);
    s2 ^ (s2 << 17)
}

/// A deterministic generator: the next draw is a pure function of the state.
#[derive(Debug, Clone, Copy, PartialEq, Eq, Structural)]
pub struct StudyRng {
    pub state: u64,
}

impl StudyRng {
    /// Seeds a generator. The scramble maps the zero seed away from the
    /// xorshift fixed point.
    pub fn seed_from(seed: u64) -> (r: Self)
        ensures
            r.state == if spec_split_mix(seed) == 0 {
                0x9e3779b97f4a7c15u64
            } else {
                spec_split_mix(seed)
            },
    {
        let z0 = seed;
        let z1 = z0.wrapping_add(0x9e3779b97f4a7c15);
        let z2 = (z1 ^ (z1 >> 30)).wrapping_mul(0xbf58476d1ce4e5b9);
        let z3 = (z2 ^ (z2 >> 27)).wrapping_mul(0x94d049bb133111eb);
        let z = z3 ^ (z3 >> 31);
        if z == 0 {
            StudyRng { state: 0x9e3779b97f4a7c15 }
        } else {
            StudyRng { state: z }
        }
    }

    /// Derives an independent child seed, for handing to a subprocess.
    pub fn derive_seed(&mut self) -> (r: u64)
        ensures
            final(self).state == spec_xorshift(old(self).state),
            r == spec_split_mix(spec_xorshift(old(self).state)),
    {
        let s = self.next_u64();
        let z1 = s.wrapping_add(0x9e3779b97f4a7c15);
        let z2 = (z1 ^ (z1 >> 30)).wrapping_mul(0xbf58476d1ce4e5b9);
        let z3 = (z2 ^ (z2 >> 27)).wrapping_mul(0x94d049bb133111eb);
        z3 ^ (z3 >> 31)
    }

    /// The next raw draw.
    pub fn next_u64(&mut self) -> (r: u64)
        ensures
            final(self).state == spec_xorshift(old(self).state),
            r == spec_xorshift(old(self).state),
    {
        let s0 = self.state;
        let s1 = s0 ^ (s0 << 13);
        let s2 = s1 ^ (s1 >> 7);
        let s3 = s2 ^ (s2 << 17);
        self.state = s3;
        s3
    }

    /// A draw in `[low, high)` of tick values.
    pub fn gen_range_ticks(&mut self, low: i64, high: i64) -> (r: i64)
        requires
            low < high,
        ensures
            low <= r < high,
            final(self).state == spec_xorshift(old(self).state),
    {
        let raw = self.next_u64();
        let span: u64 = ((high as i128) - (low as i128)) as u64;
        let off: u64 = raw % span;
        let r = ((low as i128) + (off as i128)) as i64;
        proof {
            assert(off < span);
        }
        r
    }

    /// A draw in `[low, high)` of unsigned values.
    pub fn gen_range_u64(&mut self, low: u64, high: u64) -> (r: u64)
        requires
            low < high,
        ensures
            low <= r < high,
            final(self).state == spec_xorshift(old(self).state),
    {
        let raw = self.next_u64();
        let span: u64 = high - low;
        low + raw % span
    }
}

/// Powers of two.
pub open spec fn spec_pow2(k: nat) -> int
    decreases k,
{
    if k == 0 {
        1
    } else {
        2 * spec_pow2((k - 1) as nat)
    }
}

pub proof fn lemma_pow2_pos(k: nat)
    ensures
        spec_pow2(k) >= 1,
    decreases k,
{
    if k > 0 {
        lemma_pow2_pos((k - 1) as nat);
    }
}

/// A power of two always exceeds its exponent.
pub proof fn lemma_pow2_ge_exp(k: nat)
    ensures
        spec_pow2(k) >= k + 1,
    decreases k,
{
    if k > 0 {
        lemma_pow2_ge_exp((k - 1) as nat);
    }
}

pub proof fn lemma_pow2_mono(a: nat, b: nat)
    requires
        a <= b,
    ensures
        spec_pow2(a) <= spec_pow2(b),
    decreases b,
{
    if a < b {
        lemma_pow2_mono(a, (b - 1) as nat);
        lemma_pow2_pos((b - 1) as nat);
    }
}

/// The sixty-third power of two, exactly.
proof fn lemma_pow2_63_bound()
    ensures
        spec_pow2(63) == 0x8000_0000_0000_0000,
{
    reveal_with_fuel(spec_pow2, 64);
}

/// The floor base-two logarithm: the exponent of the largest power of two
/// not above `x`.
#[verifier::loop_isolation(false)]
pub fn log2_floor(x: u64) -> (k: u64)
    requires
        1 <= x <= i64::MAX,
    ensures
        k <= 62,
        spec_pow2(k as nat) <= x < spec_pow2(k as nat + 1),
{
    let mut k: u64 = 0;
    let mut p: u64 = 1;
    while p <= x / 2
        invariant
            p as int == spec_pow2(k as nat),
            p <= x,
            k as int + 1 <= p as int,
        decreases x - p,
    {
        p = p * 2;
        k = k + 1;
        proof {
            lemma_pow2_pos(k as nat);
        }
    }
    proof {
        assert(spec_pow2(k as nat + 1) == 2 * spec_pow2(k as nat));
        lemma_pow2_63_bound();
        if k > 62 {
            lemma_pow2_mono(63, k as nat);
        }
    }
    k
}

/// Two to the `k`, executable.
#[verifier::loop_isolation(false)]
pub fn pow2_u64(k: u64) -> (r: u64)
    requires
        k <= 63,
    ensures
        r as int == spec_pow2(k as nat),
{
    let mut i: u64 = 0;
    let mut p: u64 = 1;
    while i < k
        invariant
            i <= k,
            p as int == spec_pow2(i as nat),
        decreases k - i,
    {
        proof {
            lemma_pow2_mono(i as nat + 1, k as nat);
            lemma_pow2_mono(k as nat, 63);
            lemma_pow2_63_bound();
        }
        p = p * 2;
        i = i + 1;
    }
    p
}

impl StudyRng {
    /// A draw in `[low, high)` weighted toward small values: a power-of-two
    /// bucket intersecting the range is chosen uniformly, then a value
    /// uniformly inside it — an integer stand-in for log-uniform sampling,
    /// since real logarithms stay outside the verified core. Only range
    /// membership is promised of the draw.
    pub fn gen_range_log(&mut self, low: u64, high: u64) -> (r: u64)
        requires
            1 <= low < high,
            high <= i64::MAX as u64 + 1,
        ensures
            low <= r < high,
    {
        let k_lo = log2_floor(low);
        let k_hi = log2_floor(high - 1);
        proof {
            if k_hi < k_lo {
                lemma_pow2_mono(k_hi as nat + 1, k_lo as nat);
                assert(false);
            }
            assert(k_lo <= k_hi);
        }
        let k = self.gen_range_u64(k_lo, k_hi + 1);
        let bucket_lo_raw = pow2_u64(k);
        let bucket_hi_raw = pow2_u64(k + 1);
        proof {
            lemma_pow2_mono(k_lo as nat, k as nat);
            lemma_pow2_mono(k_lo as nat + 1, k as nat + 1);
            lemma_pow2_mono(k as nat, k_hi as nat);
        }
        let bucket_lo = if low > bucket_lo_raw {
            low
        } else {
            bucket_lo_raw
        };
        let bucket_hi = if high < bucket_hi_raw {
            high
        } else {
            bucket_hi_raw
        };
        self.gen_range_u64(bucket_lo, bucket_hi)
    }
}

/// Determinism of the generator: two generators with equal states draw equal
/// values and move to equal states, so a study replayed from its seed
/// reproduces its trace exactly.
pub proof fn lemma_rng_deterministic(a: StudyRng, b: StudyRng)
    requires
        a == b,
    ensures
        spec_xorshift(a.state) == spec_xorshift(b.state),
        spec_split_mix(a.state) == spec_split_mix(b.state),
{
}

} // verus!
