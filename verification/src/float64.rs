use vstd::arithmetic::power2::{
    lemma_pow2_adds, lemma_pow2_pos, lemma_pow2_strictly_increases, lemma_pow2_unfold, pow2,
};
use vstd::prelude::*;

verus! {

/// 2^52: the weight of the hidden bit of a normal binary64 number.
pub const HIDDEN_BIT: u64 = 0x10_0000_0000_0000;

/// The sign bit of a binary64 number.
pub const SIGN_BIT: u64 = 0x8000_0000_0000_0000;

/// An IEEE 754 binary64 number, held by its bit pattern.
///
/// The library moves such numbers between the wire and its own integers; it does no
/// floating-point arithmetic on them.
#[derive(Debug, Clone, Copy, PartialEq, Eq, Structural)]
pub struct Float64(pub u64);

/// Index of the highest set bit of `n` (0 for 0 and 1).
pub open spec fn msb(n: nat) -> nat
    decreases n,
{
    if n < 2 {
        0
    } else {
        1 + msb(n / 2)
    }
}

/// `msb` places `n` between two powers of two.
pub proof fn lemma_msb(n: nat)
    requires
        n >= 1,
    ensures
        pow2(msb(n)) <= n < pow2(msb(n) + 1),
    decreases n,
{
    lemma_pow2_unfold(msb(n) + 1);
    if n >= 2 {
        lemma_msb(n / 2);
        lemma_pow2_unfold(msb(n / 2) + 1);
        lemma_pow2_unfold(msb(n / 2) + 2);
    } else {
        lemma_pow2_unfold(1);
        lemma_pow2_consts();
    }
}

/// The exponent between two powers of two is `msb`.
pub proof fn lemma_msb_unique(n: nat, e: nat)
    requires
        pow2(e) <= n < pow2(e + 1),
    ensures
        e == msb(n),
{
    lemma_pow2_pos(e);
    lemma_msb(n);
    if e < msb(n) {
        if e + 1 < msb(n) {
            lemma_pow2_strictly_increases(e + 1, msb(n));
        }
    } else if e > msb(n) {
        if msb(n) + 1 < e {
            lemma_pow2_strictly_increases(msb(n) + 1, e);
        }
    }
}

/// The bit pattern that a cast of the natural number `n` to binary64 gives: the nearest
/// binary64 value, ties to the one with an even significand.
pub open spec fn nat_to_bits(n: nat) -> u64 {
    if n == 0 {
        0
    } else {
        let e = msb(n);
        if e <= 52 {
            ((e + 1023) * HIDDEN_BIT + n * pow2((52 - e) as nat) - HIDDEN_BIT) as u64
        } else {
            let sh = (e - 52) as nat;
            let q = n / pow2(sh);
            let r = n % pow2(sh);
            let half = pow2((sh - 1) as nat);
            let q2 = if r > half || (r == half && q % 2 == 1) {
                q + 1
            } else {
                q
            };
            if q2 == 2 * HIDDEN_BIT {
                ((e + 1024) * HIDDEN_BIT) as u64
            } else {
                ((e + 1023) * HIDDEN_BIT + q2 - HIDDEN_BIT) as u64
            }
        }
    }
}

/// The bit pattern that a cast of the integer `n` to binary64 gives.
pub open spec fn int_to_bits(n: int) -> u64 {
    if n < 0 {
        (SIGN_BIT + nat_to_bits((-n) as nat)) as u64
    } else {
        nat_to_bits(n as nat)
    }
}

impl Float64 {
    /// The biased exponent field.
    pub open spec fn exponent(self) -> nat {
        ((self.0 / HIDDEN_BIT) % 0x800) as nat
    }

    /// The fraction field.
    pub open spec fn fraction(self) -> nat {
        (self.0 % HIDDEN_BIT) as nat
    }

    /// Whether the sign bit is set.
    pub open spec fn sign(self) -> bool {
        self.0 >= SIGN_BIT
    }

    /// Whether this is a NaN.
    pub open spec fn nan(self) -> bool {
        self.exponent() == 0x7FF && self.fraction() != 0
    }

    /// Whether this is neither infinite nor NaN.
    pub open spec fn finite(self) -> bool {
        self.exponent() != 0x7FF
    }

    /// The magnitude of the number with its fractional part cut off (for infinity, a
    /// number above every 64-bit integer).
    pub open spec fn trunc_magnitude(self) -> nat {
        let e = self.exponent();
        let s = (HIDDEN_BIT + self.fraction()) as nat;
        if e < 1023 {
            0
        } else if e >= 1075 {
            (s * pow2((e - 1075) as nat)) as nat
        } else {
            (s / pow2((1075 - e) as nat)) as nat
        }
    }

    /// The number with its fractional part cut off (NaN counts as 0).
    pub open spec fn trunc(self) -> int {
        if self.nan() {
            0
        } else if self.sign() {
            -self.trunc_magnitude()
        } else {
            self.trunc_magnitude() as int
        }
    }

    /// The number with the given bit pattern.
    pub fn from_bits(bits: u64) -> (r: Self)
        ensures
            r.0 == bits,
    {
        Self(bits)
    }

    /// The bit pattern.
    pub fn to_bits(self) -> (r: u64)
        ensures
            r == self.0,
    {
        self.0
    }

    /// Positive zero.
    pub fn zero() -> (r: Self)
        ensures
            r.0 == 0,
    {
        Self(0)
    }

    /// Whether the number is neither infinite nor NaN.
    pub fn is_finite(self) -> (r: bool)
        ensures
            r == self.finite(),
    {
        (self.0 / HIDDEN_BIT) % 0x800 != 0x7FF
    }

    /// Whether the sign bit is set (also for negative zero and NaNs with that bit).
    pub fn is_sign_negative(self) -> (r: bool)
        ensures
            r == self.sign(),
    {
        self.0 >= SIGN_BIT
    }

    /// The integer part of the magnitude, or `None` when it is at least `2^cap`.
    fn trunc_magnitude_below(self, cap: u64) -> (r: Option<u128>)
        requires
            cap <= 64,
        ensures
            r matches Some(m) ==> m == self.trunc_magnitude() && m < pow2(cap as nat),
            r is None ==> self.trunc_magnitude() >= pow2(cap as nat),
    {
        let e = (self.0 / HIDDEN_BIT) % 0x800;
        let s = (HIDDEN_BIT + self.0 % HIDDEN_BIT) as u128;
        let ghost en = e as nat;
        proof {
            lemma_pow2_consts();
        }
        if e < 1023 {
            proof {
                lemma_pow2_pos(cap as nat);
            }
            return Some(0);
        }
        if e >= 1023 + cap {
            proof {
                lemma_magnitude_at_least(s as nat, en);
                if (cap as nat) + 1023 < en {
                    lemma_pow2_strictly_increases(cap as nat, (en - 1023) as nat);
                }
            }
            return None;
        }
        proof {
            lemma_magnitude_at_least(s as nat, en);
            lemma_magnitude_below(s as nat, en);
            if ((en - 1023 + 1) as nat) < (cap as nat) {
                lemma_pow2_strictly_increases((en - 1023 + 1) as nat, cap as nat);
            }
        }
        if e >= 1075 {
            let p = pow2_exec(e - 1075);
            proof {
                lemma_pow2_pos((en - 1075) as nat);
                lemma_pow2_adds(52, (en - 1075) as nat);
                assert(s * p < pow2(53) * p) by (nonlinear_arith)
                    requires
                        s < pow2(53),
                        p > 0,
                ;
                lemma_pow2_adds(53, (en - 1075) as nat);
                lemma_pow2_strictly_increases((53 + en - 1075) as nat, 128);
                assert(pow2(128) == 0x1_0000_0000_0000_0000_0000_0000_0000_0000int) by {
                    lemma_pow2_adds(64, 64);
                    vstd::arithmetic::power2::lemma2_to64();
                }
            }
            Some(s * p)
        } else {
            let p = pow2_exec(1075 - e);
            proof {
                lemma_pow2_pos((1075 - en) as nat);
            }
            Some(s / p)
        }
    }

    /// Casts to `i64`: the integer part, saturated at the bounds of `i64`; NaN gives 0.
    pub fn to_i64_saturating(self) -> (r: i64)
        ensures
            r == (if self.trunc() > i64::MAX {
                i64::MAX as int
            } else if self.trunc() < i64::MIN {
                i64::MIN as int
            } else {
                self.trunc()
            }),
    {
        if (self.0 / HIDDEN_BIT) % 0x800 == 0x7FF && self.0 % HIDDEN_BIT != 0 {
            return 0;
        }
        let neg = self.0 >= SIGN_BIT;
        proof {
            lemma_pow2_consts();
        }
        match self.trunc_magnitude_below(63) {
            Some(m) => {
                if neg {
                    -(m as i64)
                } else {
                    m as i64
                }
            },
            None => {
                if neg {
                    i64::MIN
                } else {
                    i64::MAX
                }
            },
        }
    }

    /// Casts to `u64`: the integer part, saturated at the bounds of `u64`; NaN gives 0.
    pub fn to_u64_saturating(self) -> (r: u64)
        ensures
            r == (if self.trunc() > u64::MAX {
                u64::MAX as int
            } else if self.trunc() < 0 {
                0
            } else {
                self.trunc()
            }),
    {
        if (self.0 / HIDDEN_BIT) % 0x800 == 0x7FF && self.0 % HIDDEN_BIT != 0 {
            return 0;
        }
        if self.0 >= SIGN_BIT {
            return 0;
        }
        proof {
            lemma_pow2_consts();
        }
        match self.trunc_magnitude_below(64) {
            Some(m) => m as u64,
            None => u64::MAX,
        }
    }

    /// Casts to `u32`: the integer part, saturated at the bounds of `u32`; NaN gives 0.
    pub fn to_u32_saturating(self) -> (r: u32)
        ensures
            r == (if self.trunc() > u32::MAX {
                u32::MAX as int
            } else if self.trunc() < 0 {
                0
            } else {
                self.trunc()
            }),
    {
        if (self.0 / HIDDEN_BIT) % 0x800 == 0x7FF && self.0 % HIDDEN_BIT != 0 {
            return 0;
        }
        if self.0 >= SIGN_BIT {
            return 0;
        }
        proof {
            lemma_pow2_consts();
        }
        match self.trunc_magnitude_below(32) {
            Some(m) => m as u32,
            None => u32::MAX,
        }
    }

    /// Casts a natural number below `2^128` to binary64, rounding to nearest, ties to even.
    pub fn from_u128(n: u128) -> (r: Self)
        ensures
            r.0 == nat_to_bits(n as nat),
    {
        if n == 0 {
            return Self(0);
        }
        let mut e: u64 = 0;
        let mut p: u128 = 1;
        proof {
            lemma_pow2_consts();
        }
        while p <= n / 2
            invariant
                1 <= n,
                p == pow2(e as nat),
                p <= n,
                p >= 1,
                e <= 127,
            decreases n - p,
        {
            proof {
                lemma_pow2_unfold((e + 1) as nat);
                lemma_pow2_consts();
                if e >= 127 {
                    if e > 127 {
                        lemma_pow2_strictly_increases(127, e as nat);
                    }
                    assert(false);
                }
            }
            p = p * 2;
            e = e + 1;
        }
        proof {
            lemma_pow2_unfold((e + 1) as nat);
            lemma_msb_unique(n as nat, e as nat);
            lemma_pow2_consts();
        }
        if e <= 52 {
            let k = pow2_exec(52 - e);
            proof {
                lemma_pow2_pos((52 - e) as nat);
                lemma_pow2_adds(e as nat, (52 - e) as nat);
                lemma_pow2_adds((e + 1) as nat, (52 - e) as nat);
                assert(p * k <= n * k && n * k < 2 * p * k) by (nonlinear_arith)
                    requires
                        p <= n,
                        n < 2 * p,
                        k > 0,
                ;
                lemma_pow2_unfold(53);
            }
            let m = (n * k) as u64;
            Self((e + 1023) * HIDDEN_BIT + m - HIDDEN_BIT)
        } else {
            let sh = e - 52;
            let d = pow2_exec(sh);
            let half = pow2_exec(sh - 1);
            proof {
                lemma_pow2_adds(52, sh as nat);
                lemma_pow2_adds(53, sh as nat);
                lemma_pow2_pos(sh as nat);
                lemma_quotient_range(n as nat, d as nat, pow2(52));
            }
            let q = n / d;
            let r = n % d;
            let q2 = if r > half || (r == half && q % 2 == 1) {
                q + 1
            } else {
                q
            };
            if q2 == 2 * HIDDEN_BIT as u128 {
                Self((e + 1024) * HIDDEN_BIT)
            } else {
                Self((e + 1023) * HIDDEN_BIT + q2 as u64 - HIDDEN_BIT)
            }
        }
    }

    /// Casts a `u64` to binary64, rounding to nearest, ties to even.
    pub fn from_u64(n: u64) -> (r: Self)
        ensures
            r.0 == nat_to_bits(n as nat),
    {
        Self::from_u128(n as u128)
    }

    /// Casts an `i64` to binary64, rounding to nearest, ties to even.
    pub fn from_i64(n: i64) -> (r: Self)
        ensures
            r.0 == int_to_bits(n as int),
    {
        if n < 0 {
            let mag: u128 = (-(n as i128)) as u128;
            let f = Self::from_u128(mag);
            proof {
                lemma_nat_to_bits_below_sign(mag as nat);
            }
            Self(SIGN_BIT + f.0)
        } else {
            Self::from_u128(n as u128)
        }
    }

    /// Casts an `i32` to binary64 (always exact).
    pub fn from_i32(n: i32) -> (r: Self)
        ensures
            r.0 == int_to_bits(n as int),
    {
        Self::from_i64(n as i64)
    }

    /// Casts a `u32` to binary64 (always exact).
    pub fn from_u32(n: u32) -> (r: Self)
        ensures
            r.0 == nat_to_bits(n as nat),
    {
        Self::from_u128(n as u128)
    }
}

/// `2^k` for `k < 128`.
fn pow2_exec(k: u64) -> (r: u128)
    requires
        k < 128,
    ensures
        r == pow2(k as nat),
{
    let mut r: u128 = 1;
    let mut i: u64 = 0;
    proof {
        lemma_pow2_consts();
    }
    while i < k
        invariant
            i <= k,
            k < 128,
            r == pow2(i as nat),
        decreases k - i,
    {
        proof {
            lemma_pow2_unfold((i + 1) as nat);
            lemma_pow2_strictly_increases((i + 1) as nat, 128);
            lemma_pow2_adds(64, 64);
            vstd::arithmetic::power2::lemma2_to64();
        }
        r = r * 2;
        i = i + 1;
    }
    r
}

/// The powers of two that the conversions use.
proof fn lemma_pow2_consts()
    ensures
        pow2(0) == 1,
        pow2(32) == 0x1_0000_0000,
        pow2(52) == HIDDEN_BIT,
        pow2(53) == 2 * HIDDEN_BIT,
        pow2(63) == SIGN_BIT,
        pow2(64) == 0x1_0000_0000_0000_0000,
        pow2(127) == 0x8000_0000_0000_0000_0000_0000_0000_0000,
        pow2(128) == 0x1_0000_0000_0000_0000_0000_0000_0000_0000int,
{
    vstd::arithmetic::power2::lemma2_to64();
    vstd::arithmetic::power2::lemma2_to64_rest();
    lemma_pow2_adds(64, 64);
    lemma_pow2_adds(64, 63);
}

/// A significand `s` in `[2^52, 2^53)` scaled by exponent `e` is at least `2^(e - 1023)`.
proof fn lemma_magnitude_at_least(s: nat, e: nat)
    requires
        pow2(52) <= s < pow2(53),
        1023 <= e,
    ensures
        (if e >= 1075 {
            s * pow2((e - 1075) as nat)
        } else {
            s / pow2((1075 - e) as nat)
        }) >= pow2((e - 1023) as nat),
{
    if e >= 1075 {
        lemma_pow2_adds(52, (e - 1075) as nat);
        let p = pow2((e - 1075) as nat);
        assert(pow2(52) * p <= s * p) by (nonlinear_arith)
            requires
                pow2(52) <= s,
        ;
    } else {
        let k = (1075 - e) as nat;
        lemma_pow2_adds((e - 1023) as nat, k);
        lemma_pow2_pos(k);
        let p = pow2(k);
        let lo = pow2((e - 1023) as nat);
        assert(lo * p <= s);
        assert(lo <= s / p) by (nonlinear_arith)
            requires
                lo * p <= s,
                p > 0,
        ;
    }
}

/// A significand `s` in `[2^52, 2^53)` scaled by exponent `e` is below `2^(e - 1022)`.
proof fn lemma_magnitude_below(s: nat, e: nat)
    requires
        pow2(52) <= s < pow2(53),
        1023 <= e,
    ensures
        (if e >= 1075 {
            s * pow2((e - 1075) as nat)
        } else {
            s / pow2((1075 - e) as nat)
        }) < pow2((e - 1022) as nat),
{
    if e >= 1075 {
        lemma_pow2_adds(53, (e - 1075) as nat);
        let p = pow2((e - 1075) as nat);
        lemma_pow2_pos((e - 1075) as nat);
        assert(s * p < pow2(53) * p) by (nonlinear_arith)
            requires
                s < pow2(53),
                p > 0,
        ;
    } else {
        let k = (1075 - e) as nat;
        lemma_pow2_adds((e - 1022) as nat, k);
        lemma_pow2_pos(k);
        let p = pow2(k);
        let hi = pow2((e - 1022) as nat);
        assert(s < hi * p);
        assert(s / p < hi) by (nonlinear_arith)
            requires
                s < hi * p,
                p > 0,
        ;
    }
}

/// `n / d` lies in `[lo, 2 lo)` when `n` lies in `[lo d, 2 lo d)`.
proof fn lemma_quotient_range(n: nat, d: nat, lo: nat)
    requires
        d > 0,
        lo * d <= n < 2 * lo * d,
    ensures
        lo <= n / d < 2 * lo,
{
    assert(lo <= n / d < 2 * lo) by (nonlinear_arith)
        requires
            d > 0,
            lo * d <= n < 2 * lo * d,
    ;
}

/// The pattern of a cast natural number below `2^128` leaves the sign bit clear.
proof fn lemma_nat_to_bits_below_sign(n: nat)
    requires
        n < 0x1_0000_0000_0000_0000_0000_0000_0000_0000,
    ensures
        nat_to_bits(n) < SIGN_BIT,
{
    if n > 0 {
        lemma_msb(n);
        lemma_pow2_consts();
        if msb(n) > 128 {
            lemma_pow2_strictly_increases(128, msb(n));
        }
        let e = msb(n);
        if e <= 52 {
            lemma_pow2_pos((52 - e) as nat);
            lemma_pow2_adds(e, (52 - e) as nat);
            lemma_pow2_adds(e + 1, (52 - e) as nat);
            let k = pow2((52 - e) as nat);
            assert(n * k < pow2(e + 1) * k) by (nonlinear_arith)
                requires
                    n < pow2(e + 1),
                    k > 0,
            ;
            lemma_pow2_unfold(53);
        } else {
            let sh = (e - 52) as nat;
            lemma_pow2_adds(52, sh);
            lemma_pow2_adds(53, sh);
            lemma_pow2_unfold(53);
            lemma_pow2_pos(sh);
            lemma_quotient_range(n, pow2(sh), pow2(52));
        }
    }
}


/// A natural number below `2^53` comes back unchanged from a cast to binary64: the cast
/// is finite and positive, and truncating it gives the number.
pub proof fn lemma_nat_to_bits_exact(n: nat)
    requires
        n < 0x20_0000_0000_0000,
    ensures
        Float64(nat_to_bits(n)).finite(),
        !Float64(nat_to_bits(n)).sign(),
        Float64(nat_to_bits(n)).trunc() == n,
{
    lemma_pow2_consts();
    if n > 0 {
        lemma_msb(n);
        let e = msb(n);
        if e > 52 {
            lemma_pow2_strictly_increases(53, e);
            if e == 53 {
            }
        }
        assert(e <= 52);
        let k = pow2((52 - e) as nat);
        lemma_pow2_pos((52 - e) as nat);
        lemma_pow2_adds(e, (52 - e) as nat);
        lemma_pow2_adds(e + 1, (52 - e) as nat);
        assert(pow2(e) * k <= n * k && n * k < pow2(e + 1) * k) by (nonlinear_arith)
            requires
                pow2(e) <= n,
                n < pow2(e + 1),
                k > 0,
        ;
        let m = n * k;
        assert(HIDDEN_BIT <= m < 2 * HIDDEN_BIT);
        let bits: int = nat_to_bits(n) as int;
        assert(bits == (e + 1023) * HIDDEN_BIT + (m - HIDDEN_BIT));
        let a: int = e + 1023int;
        let f: int = m - HIDDEN_BIT;
        assert(bits / (HIDDEN_BIT as int) == a && bits % (HIDDEN_BIT as int) == f) by (nonlinear_arith)
            requires
                bits == a * HIDDEN_BIT + f,
                0 <= f < HIDDEN_BIT,
                a >= 0,
        ;
        let x = Float64(nat_to_bits(n));
        assert(x.exponent() == a);
        assert(x.fraction() == f);
        lemma_nat_to_bits_below_sign(n);
        assert((HIDDEN_BIT + x.fraction()) as nat == m);
        assert(m / k == n) by (nonlinear_arith)
            requires
                m == n * k,
                k > 0,
        ;
        if e == 52 {
            assert(k == 1);
            assert(m == n);
            assert(x.trunc_magnitude() == m * pow2(0));
        } else {
            assert((1075 - x.exponent()) as nat == (52 - e) as nat);
            assert(x.trunc_magnitude() == m / k);
        }
        assert(x.trunc_magnitude() == n);
    } else {
        let x = Float64(nat_to_bits(n));
        assert(x.0 == 0);
        assert(x.exponent() == 0);
        assert(x.trunc_magnitude() == 0);
    }
}


/// An integer strictly between `-2^53` and `2^53` comes back unchanged from a cast to
/// binary64 and a truncation back.
pub proof fn lemma_int_to_bits_exact(n: int)
    requires
        -0x20_0000_0000_0000 < n < 0x20_0000_0000_0000,
    ensures
        Float64(int_to_bits(n)).trunc() == n,
{
    if n >= 0 {
        lemma_nat_to_bits_exact(n as nat);
    } else {
        let k = (-n) as nat;
        lemma_nat_to_bits_exact(k);
        lemma_nat_to_bits_below_sign(k);
        let a = Float64(nat_to_bits(k));
        let x = Float64(int_to_bits(n));
        let u: int = nat_to_bits(k) as int;
        assert(x.0 == u + SIGN_BIT);
        assert((u + SIGN_BIT) / (HIDDEN_BIT as int) == u / (HIDDEN_BIT as int) + 0x800) by {
            assert(SIGN_BIT == 0x800 * HIDDEN_BIT);
        }
        assert((u + SIGN_BIT) % (HIDDEN_BIT as int) == u % (HIDDEN_BIT as int)) by {
            assert(SIGN_BIT == 0x800 * HIDDEN_BIT);
        }
        assert(x.exponent() == a.exponent());
        assert(x.fraction() == a.fraction());
        assert(x.trunc_magnitude() == a.trunc_magnitude());
        assert(x.sign());
    }
}

} // verus!
