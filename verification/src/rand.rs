//! A deterministic pseudo-random generator in the Wyrand style: a 64-bit
//! state advanced by a fixed additive step, with each output mixed out of
//! the fresh state by a double-width multiplication.
use vstd::prelude::*;

verus! {

/// Additive constant of the state advance.
pub const STATE_STEP: u64 = 0xA0761D6478BD642F;

/// Constant folded into the output mix by xor.
pub const MIX_XOR: u64 = 0xE7037ED1A0B428DB;

/// Seed used when no explicit seed is supplied.
pub const DEFAULT_SEED: u64 = 0x4d595df4d0f33173;

/// A random number generator. Its whole state is one 64-bit word, so a
/// sequence of draws is a pure function of the seed.
pub struct Rng {
    state: u64,
}

impl View for Rng {
    type V = u64;

    closed spec fn view(&self) -> u64 {
        self.state
    }
}

/// The state after one draw.
pub open spec fn next_state(s: u64) -> u64 {
    s.wrapping_add(STATE_STEP)
}

/// The value mixed out of state `s`.
pub open spec fn mix(s: u64) -> u64 {
    let t = ((s as u128) * ((s ^ MIX_XOR) as u128)) as u128;
    ((t as u64) ^ ((t >> 64) as u64)) as u64
}

/// The 128-bit value two draws from state `s` put together.
pub open spec fn mix128(s: u64) -> u128 {
    ((mix(next_state(s)) as u128) << 64) | (mix(next_state(next_state(s))) as u128)
}

impl Rng {
    /// Creates a generator with the default seed. A caller that wants a
    /// fresh sequence each run seeds the generator from ambient entropy
    /// itself and uses `with_seed`.
    pub fn new() -> (rng: Rng)
        ensures
            rng@ == DEFAULT_SEED,
    {
        Rng::with_seed(DEFAULT_SEED)
    }

    /// Creates a generator with the given initial seed.
    pub fn with_seed(seed: u64) -> (rng: Rng)
        ensures
            rng@ == seed,
    {
        let mut rng = Rng { state: 0 };
        rng.seed(seed);
        rng
    }

    /// Initializes this generator with the given seed.
    pub fn seed(&mut self, seed: u64)
        ensures
            final(self)@ == seed,
    {
        self.state = seed;
    }

    /// Gives back the current seed held by this generator.
    pub fn get_seed(&self) -> (s: u64)
        ensures
            s == self@,
    {
        self.state
    }

    /// Generates a random `u64`: advances the state once and mixes it.
    pub fn gen_u64(&mut self) -> (r: u64)
        ensures
            final(self)@ == next_state(old(self)@),
            r == mix(final(self)@),
    {
        let s: u64 = self.state.wrapping_add(STATE_STEP);
        self.state = s;
        proof {
            let a: int = s as int;
            let b: int = (s ^ MIX_XOR) as int;
            assert(a * b <= 0xFFFF_FFFF_FFFF_FFFF * 0xFFFF_FFFF_FFFF_FFFF) by (nonlinear_arith)
                requires
                    0 <= a <= 0xFFFF_FFFF_FFFF_FFFF,
                    0 <= b <= 0xFFFF_FFFF_FFFF_FFFF,
            ;
        }
        let t: u128 = (s as u128) * ((s ^ MIX_XOR) as u128);
        let lo: u64 = #[verifier::truncate] (t as u64);
        let hi: u64 = #[verifier::truncate] ((t >> 64) as u64);
        lo ^ hi
    }

    /// Generates a random `u32` (the low half of one 64-bit draw).
    pub fn gen_u32(&mut self) -> (r: u32)
        ensures
            final(self)@ == next_state(old(self)@),
            r == mix(final(self)@) as u32,
    {
        #[verifier::truncate] (self.gen_u64() as u32)
    }

    /// Generates a random `u128` out of two 64-bit draws.
    pub fn gen_u128(&mut self) -> (r: u128)
        ensures
            final(self)@ == next_state(next_state(old(self)@)),
            r == mix128(old(self)@),
    {
        let high: u64 = self.gen_u64();
        let low: u64 = self.gen_u64();
        ((high as u128) << 64) | (low as u128)
    }
}


/// One retry of the bounded reduction: a fresh draw from state `s`,
/// accepted once its low product half reaches the threshold `t`, or
/// unconditionally once the fuel runs out.
pub open spec fn lemire_retry_u32(s: u64, n: u32, t: u32, fuel: nat) -> (u64, u32)
    decreases fuel,
{
    let s2 = next_state(s);
    let d = mix(s2) as u32;
    let lo = d.wrapping_mul(n);
    let hi = (((d as int) * (n as int)) / 0x1_0000_0000) as u32;
    if lo >= t || fuel <= 1 {
        (s2, hi)
    } else {
        lemire_retry_u32(s2, n, t, (fuel - 1) as nat)
    }
}

/// The state and result of one bounded draw in `0..n` over 32 bits.
pub open spec fn spec_gen_mod_u32(s: u64, n: u32) -> (u64, u32) {
    let s1 = next_state(s);
    let d = mix(s1) as u32;
    let lo = d.wrapping_mul(n);
    let hi = (((d as int) * (n as int)) / 0x1_0000_0000) as u32;
    if lo >= n {
        (s1, hi)
    } else {
        let t = 0u32.wrapping_sub(n) % n;
        if lo >= t {
            (s1, hi)
        } else {
            lemire_retry_u32(s1, n, t, 128)
        }
    }
}

/// One retry of the bounded reduction over 64 bits; see `lemire_retry_u32`.
pub open spec fn lemire_retry_u64(s: u64, n: u64, t: u64, fuel: nat) -> (u64, u64)
    decreases fuel,
{
    let s2 = next_state(s);
    let d = mix(s2);
    let lo = d.wrapping_mul(n);
    let hi = (((d as int) * (n as int)) / 0x1_0000_0000_0000_0000) as u64;
    if lo >= t || fuel <= 1 {
        (s2, hi)
    } else {
        lemire_retry_u64(s2, n, t, (fuel - 1) as nat)
    }
}

/// The state and result of one bounded draw in `0..n` over 64 bits.
pub open spec fn spec_gen_mod_u64(s: u64, n: u64) -> (u64, u64) {
    let s1 = next_state(s);
    let d = mix(s1);
    let lo = d.wrapping_mul(n);
    let hi = (((d as int) * (n as int)) / 0x1_0000_0000_0000_0000) as u64;
    if lo >= n {
        (s1, hi)
    } else {
        let t = 0u64.wrapping_sub(n) % n;
        if lo >= t {
            (s1, hi)
        } else {
            lemire_retry_u64(s1, n, t, 128)
        }
    }
}

/// One retry of the bounded reduction over 128 bits; each draw advances
/// the state twice.
pub open spec fn lemire_retry_u128(s: u64, n: u128, t: u128, fuel: nat) -> (u64, u128)
    decreases fuel,
{
    let s2 = next_state(next_state(s));
    let d = mix128(s);
    let lo = d.wrapping_mul(n);
    let hi = (((d as int) * (n as int)) / 0x1_0000_0000_0000_0000_0000_0000_0000_0000int) as u128;
    if lo >= t || fuel <= 1 {
        (s2, hi)
    } else {
        lemire_retry_u128(s2, n, t, (fuel - 1) as nat)
    }
}

/// The state and result of one bounded draw in `0..n` over 128 bits.
pub open spec fn spec_gen_mod_u128(s: u64, n: u128) -> (u64, u128) {
    let s1 = next_state(next_state(s));
    let d = mix128(s);
    let lo = d.wrapping_mul(n);
    let hi = (((d as int) * (n as int)) / 0x1_0000_0000_0000_0000_0000_0000_0000_0000int) as u128;
    if lo >= n {
        (s1, hi)
    } else {
        let t = 0u128.wrapping_sub(n) % n;
        if lo >= t {
            (s1, hi)
        } else {
            lemire_retry_u128(s1, n, t, 128)
        }
    }
}

impl Rng {
    /// Generates a random `u32` in `0..n` with Lemire's multiplicative
    /// reduction: the high half of `draw * n` is the candidate, and draws
    /// whose low half falls under the threshold `2^32 % n` are rejected,
    /// since those values would be over-represented. The rejection loop
    /// is bounded so that it provably terminates, and the bound is part
    /// of the stated behavior: state and result are exactly
    /// `spec_gen_mod_u32`, which accepts the final draw's in-range
    /// candidate once the fuel runs out.
    pub fn gen_mod_u32(&mut self, n: u32) -> (r: u32)
        requires
            n > 0,
        ensures
            r < n,
            (final(self)@, r) == spec_gen_mod_u32(old(self)@, n),
    {
        let mut r: u32 = self.gen_u32();
        let mut hi: u32 = mul_high_u32(r, n);
        let mut lo: u32 = r.wrapping_mul(n);
        proof {
            lemma_high_half_below(r as int, n as int, 0x1_0000_0000);
        }
        if lo < n {
            let t: u32 = 0u32.wrapping_sub(n) % n;
            let mut fuel: u32 = 128;
            while lo < t && fuel > 0
                invariant
                    n > 0,
                    hi < n,
                    t == 0u32.wrapping_sub(n) % n,
                    fuel <= 128,
                    spec_gen_mod_u32(old(self)@, n) == if lo >= t || fuel == 0 {
                        (self@, hi)
                    } else {
                        lemire_retry_u32(self@, n, t, fuel as nat)
                    },
                decreases fuel,
            {
                r = self.gen_u32();
                hi = mul_high_u32(r, n);
                lo = r.wrapping_mul(n);
                proof {
                    lemma_high_half_below(r as int, n as int, 0x1_0000_0000);
                }
                fuel = fuel - 1;
            }
        }
        hi
    }

    /// Generates a random `u64` in `0..n`; see `gen_mod_u32`.
    pub fn gen_mod_u64(&mut self, n: u64) -> (r: u64)
        requires
            n > 0,
        ensures
            r < n,
            (final(self)@, r) == spec_gen_mod_u64(old(self)@, n),
    {
        let mut r: u64 = self.gen_u64();
        let mut hi: u64 = mul_high_u64(r, n);
        let mut lo: u64 = r.wrapping_mul(n);
        proof {
            lemma_high_half_below(r as int, n as int, 0x1_0000_0000_0000_0000);
        }
        if lo < n {
            let t: u64 = 0u64.wrapping_sub(n) % n;
            let mut fuel: u32 = 128;
            while lo < t && fuel > 0
                invariant
                    n > 0,
                    hi < n,
                    t == 0u64.wrapping_sub(n) % n,
                    fuel <= 128,
                    spec_gen_mod_u64(old(self)@, n) == if lo >= t || fuel == 0 {
                        (self@, hi)
                    } else {
                        lemire_retry_u64(self@, n, t, fuel as nat)
                    },
                decreases fuel,
            {
                r = self.gen_u64();
                hi = mul_high_u64(r, n);
                lo = r.wrapping_mul(n);
                proof {
                    lemma_high_half_below(r as int, n as int, 0x1_0000_0000_0000_0000);
                }
                fuel = fuel - 1;
            }
        }
        hi
    }

    /// Generates a random `u128` in `0..n`; see `gen_mod_u32`.
    pub fn gen_mod_u128(&mut self, n: u128) -> (r: u128)
        requires
            n > 0,
        ensures
            r < n,
            (final(self)@, r) == spec_gen_mod_u128(old(self)@, n),
    {
        let mut r: u128 = self.gen_u128();
        let mut hi: u128 = mul_high_u128(r, n);
        let mut lo: u128 = r.wrapping_mul(n);
        proof {
            lemma_high_half_below(r as int, n as int,
                0x1_0000_0000_0000_0000_0000_0000_0000_0000int);
        }
        if lo < n {
            let t: u128 = 0u128.wrapping_sub(n) % n;
            let mut fuel: u32 = 128;
            while lo < t && fuel > 0
                invariant
                    n > 0,
                    hi < n,
                    t == 0u128.wrapping_sub(n) % n,
                    fuel <= 128,
                    spec_gen_mod_u128(old(self)@, n) == if lo >= t || fuel == 0 {
                        (self@, hi)
                    } else {
                        lemire_retry_u128(self@, n, t, fuel as nat)
                    },
                decreases fuel,
            {
                r = self.gen_u128();
                hi = mul_high_u128(r, n);
                lo = r.wrapping_mul(n);
                proof {
                    lemma_high_half_below(r as int, n as int,
                        0x1_0000_0000_0000_0000_0000_0000_0000_0000int);
                }
                fuel = fuel - 1;
            }
        }
        hi
    }

    /// Generates a random `u8` in the inclusive range `low..=high`.
    pub fn u8(&mut self, low: u8, high: u8) -> (r: u8)
        requires
            low <= high,
        ensures
            low <= r <= high,
            low == 0 && high == u8::MAX ==> r == (mix(next_state(old(self)@)) as u32) as u8
                && final(self)@ == next_state(old(self)@),
            !(low == 0 && high == u8::MAX) ==> {
                let p = spec_gen_mod_u32(old(self)@, (high - low + 1) as u32);
                final(self)@ == p.0 && r == low + p.1 && p.1 < (high - low + 1) as u32
            },
    {
        if low == 0 && high == u8::MAX {
            #[verifier::truncate] (self.gen_u32() as u8)
        } else {
            let len: u32 = (high - low) as u32 + 1;
            low + (self.gen_mod_u32(len) as u8)
        }
    }

    /// Generates a random `u64` in the inclusive range `low..=high`.
    pub fn u64(&mut self, low: u64, high: u64) -> (r: u64)
        requires
            low <= high,
        ensures
            low <= r <= high,
            low == 0 && high == u64::MAX ==> r == mix(next_state(old(self)@)) && final(self)@
                == next_state(old(self)@),
            !(low == 0 && high == u64::MAX) ==> {
                let p = spec_gen_mod_u64(old(self)@, (high - low + 1) as u64);
                final(self)@ == p.0 && r == low + p.1 && p.1 < (high - low + 1) as u64
            },
    {
        if low == 0 && high == u64::MAX {
            self.gen_u64()
        } else {
            let len: u64 = (high - low) + 1;
            low + self.gen_mod_u64(len)
        }
    }

    /// Generates a random `usize` in the inclusive range `low..=high`.
    pub fn usize(&mut self, low: usize, high: usize) -> (r: usize)
        requires
            low <= high,
        ensures
            low <= r <= high,
            low == 0 && high == usize::MAX ==> r == mix(next_state(old(self)@)) as usize
                && final(self)@ == next_state(old(self)@),
            !(low == 0 && high == usize::MAX) ==> {
                let p = spec_gen_mod_u64(old(self)@, (high - low + 1) as u64);
                final(self)@ == p.0 && r == low + p.1 as usize && p.1 < (high - low + 1) as u64
            },
    {
        if low == 0 && high == usize::MAX {
            #[verifier::truncate] (self.gen_u64() as usize)
        } else {
            let len: u64 = (high - low) as u64 + 1;
            low + (self.gen_mod_u64(len) as usize)
        }
    }

    /// Draws the 52 high bits of one draw: the mantissa of a uniform unit
    /// draw, the numerator of an even fraction `r / 2^52` in `[0, 1)`.
    pub fn unit_mantissa(&mut self) -> (r: u64)
        ensures
            final(self)@ == next_state(old(self)@),
            r == mix(final(self)@) >> 12,
            r < 0x10_0000_0000_0000,
    {
        let raw: u64 = self.gen_u64();
        proof {
            assert(raw >> 12u64 < 0x10_0000_0000_0000) by (bit_vector);
        }
        raw >> 12
    }
}

/// `sel` picks each element of `r` out of `items`: every index in range,
/// pairwise distinct, and elementwise matching.
pub open spec fn sample_witness(sel: Seq<int>, r: Seq<String>, items: Seq<String>) -> bool {
    &&& sel.len() == r.len()
    &&& forall|i: int| 0 <= i < sel.len() ==> 0 <= #[trigger] sel[i] < items.len()
    &&& forall|i: int, j: int| 0 <= i < j < sel.len() ==> sel[i] != sel[j]
    &&& forall|i: int| 0 <= i < sel.len() ==> r[i] == items[#[trigger] sel[i]]
}

/// `r` is a selection of pairwise different elements of `items`.
pub open spec fn is_sample(r: Seq<String>, items: Seq<String>) -> bool {
    exists|sel: Seq<int>| sample_witness(sel, r, items)
}

impl Rng {
    /// Collects `amount` values at random from `items` by reservoir
    /// sampling: the first `amount` items fill the buffer, and each later
    /// item at stream position `j` replaces a slot drawn uniformly from
    /// `0..=j`, when that slot falls within the buffer. When `items` has no
    /// more than `amount` elements the result is all of them, in order.
    pub fn choose_multiple(&mut self, items: &Vec<String>, amount: usize) -> (r: Vec<String>)
        ensures
            r@.len() == if items@.len() <= amount {
                items@.len()
            } else {
                amount as nat
            },
            items@.len() <= amount ==> r@ == items@,
            is_sample(r@, items@),
    {
        let n: usize = items.len();
        let take: usize = if amount <= n {
            amount
        } else {
            n
        };
        let mut r: Vec<String> = Vec::new();
        let ghost mut sel: Seq<int> = Seq::empty();
        let mut i: usize = 0;
        while i < take
            invariant
                i <= take <= n == items@.len(),
                take <= amount,
                r@.len() == i,
                sel.len() == i,
                forall|k: int| 0 <= k < i ==> #[trigger] sel[k] == k,
                forall|k: int| 0 <= k < i ==> #[trigger] r@[k] == items@[k],
            decreases take - i,
        {
            r.push(items[i].clone());
            proof {
                sel = sel.push(i as int);
            }
            i = i + 1;
        }
        if amount < n {
            let mut j: usize = amount;
            while j < n
                invariant
                    amount <= j <= n == items@.len(),
                    r@.len() == amount,
                    sel.len() == amount,
                    forall|k: int| 0 <= k < amount ==> 0 <= #[trigger] sel[k] < j,
                    forall|k1: int, k2: int| 0 <= k1 < k2 < amount ==> sel[k1] != sel[k2],
                    forall|k: int| 0 <= k < amount ==> #[trigger] r@[k] == items@[sel[k]],
                decreases n - j,
            {
                let k: usize = self.usize(0, j);
                if k < amount {
                    r[k] = items[j].clone();
                    proof {
                        sel = sel.update(k as int, j as int);
                    }
                }
                j = j + 1;
            }
        }
        proof {
            assert(sample_witness(sel, r@, items@));
            if items@.len() <= amount {
                assert(r@ =~= items@);
            }
        }
        r
    }

    /// Collects `amount` indices at random from `0..n`, by the same
    /// reservoir walk over the stream of indices.
    pub fn choose_multiple_indices(&mut self, n: usize, amount: usize) -> (r: Vec<usize>)
        ensures
            r@.len() == if n <= amount {
                n as nat
            } else {
                amount as nat
            },
            forall|k: int| 0 <= k < r@.len() ==> #[trigger] r@[k] < n,
            forall|k1: int, k2: int| 0 <= k1 < k2 < r@.len() ==> r@[k1] != r@[k2],
    {
        let take: usize = if amount <= n {
            amount
        } else {
            n
        };
        let mut r: Vec<usize> = Vec::new();
        let mut i: usize = 0;
        while i < take
            invariant
                i <= take <= n,
                take <= amount,
                r@.len() == i,
                forall|k: int| 0 <= k < i ==> #[trigger] r@[k] == k,
            decreases take - i,
        {
            r.push(i);
            i = i + 1;
        }
        if amount < n {
            let mut j: usize = amount;
            while j < n
                invariant
                    amount <= j <= n,
                    r@.len() == amount,
                    forall|k: int| 0 <= k < amount ==> #[trigger] r@[k] < j,
                    forall|k1: int, k2: int| 0 <= k1 < k2 < amount ==> r@[k1] != r@[k2],
                decreases n - j,
            {
                let k: usize = self.usize(0, j);
                if k < amount {
                    r[k] = j;
                }
                j = j + 1;
            }
        }
        r
    }
}

/// Collects `amount` values at random from `items` into a vector; see
/// `Rng::choose_multiple`.
pub fn choose_multiple(rng: &mut Rng, items: &Vec<String>, amount: usize) -> (r: Vec<String>)
    ensures
        r@.len() == if items@.len() <= amount {
            items@.len()
        } else {
            amount as nat
        },
        items@.len() <= amount ==> r@ == items@,
        is_sample(r@, items@),
{
    rng.choose_multiple(items, amount)
}

/// `r * n / 2^w < n` whenever `r < 2^w`: the high half of a double-width
/// product with `n` stays below `n`.
proof fn lemma_high_half_below(r: int, n: int, w: int)
    requires
        0 <= r < w,
        0 < n,
    ensures
        (r * n) / w < n,
{
    assert(r * n < w * n) by (nonlinear_arith)
        requires
            0 <= r < w,
            0 < n,
    ;
    vstd::arithmetic::div_mod::lemma_multiply_divide_lt(r * n, w, n);
}

/// Computes `(a * b) >> 32`.
pub fn mul_high_u32(a: u32, b: u32) -> (r: u32)
    ensures
        r == (a * b) / 0x1_0000_0000,
{
    proof {
        assert((a as int) * (b as int) <= 0xFFFF_FFFF * 0xFFFF_FFFF) by (nonlinear_arith)
            requires
                0 <= a as int <= 0xFFFF_FFFF,
                0 <= b as int <= 0xFFFF_FFFF,
        ;
    }
    let p: u64 = (a as u64) * (b as u64);
    proof {
        assert(p >> 32u64 == p / 0x1_0000_0000) by (bit_vector);
    }
    (p >> 32) as u32
}

/// Computes `(a * b) >> 64`.
pub fn mul_high_u64(a: u64, b: u64) -> (r: u64)
    ensures
        r == (a * b) / 0x1_0000_0000_0000_0000,
{
    proof {
        assert((a as int) * (b as int) <= 0xFFFF_FFFF_FFFF_FFFF * 0xFFFF_FFFF_FFFF_FFFF)
            by (nonlinear_arith)
            requires
                0 <= a as int <= 0xFFFF_FFFF_FFFF_FFFF,
                0 <= b as int <= 0xFFFF_FFFF_FFFF_FFFF,
        ;
    }
    let p: u128 = (a as u128) * (b as u128);
    proof {
        assert(p >> 64u128 == p / 0x1_0000_0000_0000_0000) by (bit_vector);
    }
    (p >> 64) as u64
}

/// Computes `(a * b) >> 128`: the high half of the 256-bit product, put
/// together out of four 64x64 partial products and their carries.
pub fn mul_high_u128(a: u128, b: u128) -> (r: u128)
    ensures
        r == (a * b) / 0x1_0000_0000_0000_0000_0000_0000_0000_0000int,
{
    proof {
        lemma_u128_halves(a);
        lemma_u128_halves(b);
    }
    let a_lo: u128 = (a as u64) as u128;
    let a_hi: u128 = ((a >> 64) as u64) as u128;
    let b_lo: u128 = (b as u64) as u128;
    let b_hi: u128 = ((b >> 64) as u64) as u128;
    proof {
        lemma_half_products_fit(a_lo, a_hi, b_lo, b_hi);
    }
    let carry: u128 = (a_lo * b_lo) >> 64;
    proof {
        lemma_u128_halves((a_lo * b_lo) as u128);
        lemma_u128_halves((a_hi * b_lo) as u128);
        lemma_u128_halves((a_lo * b_hi) as u128);
    }
    let mid: u128 = ((a_hi * b_lo) as u64) as u128 + ((a_lo * b_hi) as u64) as u128 + carry;
    proof {
        lemma_u128_halves(mid);
        lemma_mul_high_parts(a as int, b as int, a_hi as int, a_lo as int, b_hi as int,
            b_lo as int);
    }
    let carry: u128 = mid >> 64;
    a_hi * b_hi + ((a_hi * b_lo) >> 64) + ((a_lo * b_hi) >> 64) + carry
}

/// Relates shifting and truncating a `u128` by 64 bits to division and
/// remainder by `2^64`.
proof fn lemma_u128_halves(x: u128)
    ensures
        x >> 64u128 == x / 0x1_0000_0000_0000_0000,
        (x as u64) as u128 == x % 0x1_0000_0000_0000_0000,
        x / 0x1_0000_0000_0000_0000 < 0x1_0000_0000_0000_0000,
{
    assert(x >> 64u128 == x / 0x1_0000_0000_0000_0000) by (bit_vector);
    assert((x as u64) as u128 == x % 0x1_0000_0000_0000_0000) by (bit_vector);
}

/// The product of two 64-bit halves fits in 128 bits.
proof fn lemma_half_products_fit(a_lo: u128, a_hi: u128, b_lo: u128, b_hi: u128)
    requires
        a_lo < 0x1_0000_0000_0000_0000,
        a_hi < 0x1_0000_0000_0000_0000,
        b_lo < 0x1_0000_0000_0000_0000,
        b_hi < 0x1_0000_0000_0000_0000,
    ensures
        a_lo * b_lo <= 0xFFFF_FFFF_FFFF_FFFF * 0xFFFF_FFFF_FFFF_FFFF,
        a_hi * b_lo <= 0xFFFF_FFFF_FFFF_FFFF * 0xFFFF_FFFF_FFFF_FFFF,
        a_lo * b_hi <= 0xFFFF_FFFF_FFFF_FFFF * 0xFFFF_FFFF_FFFF_FFFF,
        a_hi * b_hi <= 0xFFFF_FFFF_FFFF_FFFF * 0xFFFF_FFFF_FFFF_FFFF,
{
    assert(a_lo * b_lo <= 0xFFFF_FFFF_FFFF_FFFF * 0xFFFF_FFFF_FFFF_FFFF
        && a_hi * b_lo <= 0xFFFF_FFFF_FFFF_FFFF * 0xFFFF_FFFF_FFFF_FFFF
        && a_lo * b_hi <= 0xFFFF_FFFF_FFFF_FFFF * 0xFFFF_FFFF_FFFF_FFFF
        && a_hi * b_hi <= 0xFFFF_FFFF_FFFF_FFFF * 0xFFFF_FFFF_FFFF_FFFF) by (nonlinear_arith)
        requires
            0 <= a_lo <= 0xFFFF_FFFF_FFFF_FFFF,
            0 <= a_hi <= 0xFFFF_FFFF_FFFF_FFFF,
            0 <= b_lo <= 0xFFFF_FFFF_FFFF_FFFF,
            0 <= b_hi <= 0xFFFF_FFFF_FFFF_FFFF,
    ;
}

/// The carry recombination of the four partial products yields exactly the
/// high half of the full product.
proof fn lemma_mul_high_parts(a: int, b: int, a_hi: int, a_lo: int, b_hi: int, b_lo: int)
    requires
        0 <= a_lo < 0x1_0000_0000_0000_0000,
        0 <= b_lo < 0x1_0000_0000_0000_0000,
        0 <= a_hi < 0x1_0000_0000_0000_0000,
        0 <= b_hi < 0x1_0000_0000_0000_0000,
        a == a_hi * 0x1_0000_0000_0000_0000 + a_lo,
        b == b_hi * 0x1_0000_0000_0000_0000 + b_lo,
    ensures
        (a * b) / 0x1_0000_0000_0000_0000_0000_0000_0000_0000int == a_hi * b_hi + (a_hi * b_lo)
            / 0x1_0000_0000_0000_0000 + (a_lo * b_hi) / 0x1_0000_0000_0000_0000 + ((a_hi * b_lo)
            % 0x1_0000_0000_0000_0000 + (a_lo * b_hi) % 0x1_0000_0000_0000_0000 + (a_lo * b_lo)
            / 0x1_0000_0000_0000_0000) / 0x1_0000_0000_0000_0000,
{
    let m: int = 0x1_0000_0000_0000_0000;
    let x = a_hi * b_lo;
    let y = a_lo * b_hi;
    let z = a_lo * b_lo;
    vstd::arithmetic::div_mod::lemma_fundamental_div_mod(x, m);
    vstd::arithmetic::div_mod::lemma_fundamental_div_mod(y, m);
    vstd::arithmetic::div_mod::lemma_fundamental_div_mod(z, m);
    vstd::arithmetic::div_mod::lemma_mod_bound(x, m);
    vstd::arithmetic::div_mod::lemma_mod_bound(y, m);
    vstd::arithmetic::div_mod::lemma_mod_bound(z, m);
    let xq = x / m;
    let xr = x % m;
    let yq = y / m;
    let yr = y % m;
    let zq = z / m;
    let zr = z % m;
    let s: int = xr + yr + zq;
    vstd::arithmetic::div_mod::lemma_fundamental_div_mod(s, m);
    vstd::arithmetic::div_mod::lemma_mod_bound(s, m);
    vstd::arithmetic::div_mod::lemma_div_pos_is_pos(z, m);
    vstd::arithmetic::div_mod::lemma_div_pos_is_pos(s, m);
    let sq = s / m;
    let sr = s % m;
    let q: int = a_hi * b_hi + xq + yq;
    let t: int = sr * m + zr;
    // Expand the two halves of each factor.
    assert(a * b == (a_hi * m) * (b_hi * m) + (a_hi * m) * b_lo + a_lo * (b_hi * m) + a_lo
        * b_lo) by (nonlinear_arith)
        requires
            a == a_hi * m + a_lo,
            b == b_hi * m + b_lo,
    ;
    assert((a_hi * m) * (b_hi * m) == (a_hi * b_hi) * (m * m)) by (nonlinear_arith);
    assert((a_hi * m) * b_lo == x * m) by (nonlinear_arith)
        requires
            x == a_hi * b_lo,
    ;
    assert(a_lo * (b_hi * m) == y * m) by (nonlinear_arith)
        requires
            y == a_lo * b_hi,
    ;
    assert(a * b == (a_hi * b_hi) * (m * m) + x * m + y * m + z);
    // Pull the carry of each partial product up into the square term.
    assert(x * m == xq * (m * m) + xr * m) by (nonlinear_arith)
        requires
            x == m * xq + xr,
    ;
    assert(y * m == yq * (m * m) + yr * m) by (nonlinear_arith)
        requires
            y == m * yq + yr,
    ;
    assert(z == zq * m + zr) by (nonlinear_arith)
        requires
            z == m * zq + zr,
    ;
    assert((a_hi * b_hi + xq + yq) * (m * m) == (a_hi * b_hi) * (m * m) + xq * (m * m) + yq * (m
        * m)) by (nonlinear_arith);
    assert((xr + yr + zq) * m == xr * m + yr * m + zq * m) by (nonlinear_arith);
    assert(a * b == q * (m * m) + s * m + zr);
    // Split the summed carries once more.
    assert(s * m == sq * (m * m) + sr * m) by (nonlinear_arith)
        requires
            s == m * sq + sr,
    ;
    assert((q + sq) * (m * m) == q * (m * m) + sq * (m * m)) by (nonlinear_arith);
    assert(a * b == (q + sq) * (m * m) + t);
    // The remainder below the square term vanishes under the division.
    assert(0 <= t < m * m) by (nonlinear_arith)
        requires
            0 <= sr < m,
            0 <= zr < m,
            m == 0x1_0000_0000_0000_0000,
            t == sr * m + zr,
    ;
    vstd::arithmetic::div_mod::lemma_hoist_over_denominator(t, q + sq, (m * m) as nat);
    assert(t / (m * m) == 0) by {
        vstd::arithmetic::div_mod::lemma_basic_div(t, m * m);
    }
    assert((a * b) / (m * m) == q + sq);
}

} // verus!
