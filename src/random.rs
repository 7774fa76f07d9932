use vstd::prelude::*;

verus! {

/// The modulus of the minimal-standard generator, `2^31 - 1`.
pub const MODULUS: u64 = 2147483647;

/// The multiplier of the minimal-standard generator.
pub const MULTIPLIER: u64 = 16807;

/// The seed after reduction: the remainder keeps the sign of the seed, and a
/// remainder that is not positive is shifted up by `MODULUS - 1`.
pub open spec fn normalized_seed(seed: int) -> int {
    let r = if seed >= 0 { seed % (MODULUS as int) } else { -((-seed) % (MODULUS as int)) };
    if r <= 0 { r + (MODULUS as int - 1) } else { r }
}

/// The state that follows `state`.
pub open spec fn next_state(state: i32) -> int {
    (state as int * (MULTIPLIER as int)) % (MODULUS as int)
}

/// `floor(((v - 1) / (MODULUS - 1)) * max)`, computed on exact rationals.
pub open spec fn scaled(v: int, max: int) -> int {
    ((v - 1) * max) / (MODULUS as int - 1)
}

/// A Lehmer (Park-Miller) pseudo-random generator. Its state is never
/// negative: `new` gives a state in `[0, MODULUS)` and `next` keeps it there.
pub struct Random {
    pub rand: i32,
}

impl Random {
    pub fn new(seed: i32) -> (r: Self)
        ensures
            r.rand as int == normalized_seed(seed as int),
            0 <= r.rand < MODULUS,
    {
        let mag: u64 = if seed >= 0 { seed as u64 } else { (-(seed as i64)) as u64 };
        let rem: i64 = (mag % MODULUS) as i64;
        let mut s: i64 = if seed >= 0 { rem } else { -rem };
        if s <= 0 {
            s = s + (MODULUS as i64 - 1);
        }
        Random { rand: s as i32 }
    }

    /// Advances the state and returns it.
    pub fn next(&mut self) -> (r: i32)
        requires
            old(self).rand >= 0,
        ensures
            r as int == next_state(old(self).rand),
            final(self).rand == r,
            0 <= r < MODULUS,
            1 <= old(self).rand < MODULUS ==> 1 <= r,
    {
        proof {
            if 1 <= self.rand < MODULUS {
                lemma_step_nonzero(self.rand as int);
            }
            let w = self.rand as int;
            assert(0 <= w * 16807 <= 0x7fff_ffff * 16807) by (nonlinear_arith)
                requires 0 <= w <= 0x7fff_ffff;
        }
        let prod: u128 = (self.rand as u128) * (MULTIPLIER as u128);
        let v: u128 = prod % (MODULUS as u128);
        self.rand = v as i32;
        self.rand
    }

    /// Draws a value in `[0, max)`: the next value scaled by
    /// `max / (MODULUS - 1)`, rounded down. (The degenerate state `0` yields
    /// `-1`.)
    pub fn next_int(&mut self, max: i32) -> (r: i32)
        requires
            old(self).rand >= 0,
            max > 0,
        ensures
            final(self).rand as int == next_state(old(self).rand),
            r as int == scaled(final(self).rand as int, max as int),
            final(self).rand >= 1 ==> 0 <= r < max,
            1 <= old(self).rand < MODULUS ==> 0 <= r < max,
    {
        let v: i32 = self.next();
        let d: u64 = MODULUS - 1;
        if v == 0 {
            if max as u64 > d {
                proof {
                    vstd::arithmetic::div_mod::lemma_fundamental_div_mod_converse(
                        -(max as int), d as int, -2, d - 1);
                }
                return -2;
            }
            proof {
                vstd::arithmetic::div_mod::lemma_fundamental_div_mod_converse(
                    -(max as int), d as int, -1, d - max);
            }
            return -1;
        }
        let a: u64 = (v - 1) as u64;
        let m: u64 = max as u64;
        proof {
            lemma_scaled_below(a as int, m as int, d as int);
        }
        let q: u64 = (a * m) / d;
        q as i32
    }
}

/// A nonzero state never steps to zero: the modulus is prime and larger than
/// both factors.
pub proof fn lemma_step_nonzero(s: int)
    requires
        1 <= s < MODULUS,
    ensures
        (s * (MULTIPLIER as int)) % (MODULUS as int) != 0,
{
    let m = MODULUS as int;
    let p = s * 16807;
    let k = p / m;
    vstd::arithmetic::div_mod::lemma_fundamental_div_mod(p, m);
    vstd::arithmetic::div_mod::lemma_div_pos_is_pos(p, m);
    if p % m == 0 {
        // 2^31 - 1 == 16807 * 127773 + 2836, and 2836 * 5790 == 1 + 16807 * 977.
        let t = s - 127773 * k;
        assert(k * 2836 == 16807 * t);
        let u = 5790 * t - 977 * k;
        assert(k == 16807 * u);
        if u >= 1 {
            assert(p >= 16807 * m);
        }
    }
}

proof fn lemma_scaled_below(a: int, m: int, d: int)
    requires
        0 <= a < d,
        0 < m < 0x8000_0000,
        d == MODULUS - 1,
    ensures
        0 <= a * m <= 0xffff_ffff_ffff_ffff,
        0 <= (a * m) / d < m,
{
    assert(0 <= a * m <= d * m) by (nonlinear_arith)
        requires 0 <= a < d, 0 < m;
    assert(d * m < 0x8000_0000 * 0x8000_0000) by (nonlinear_arith)
        requires d == 2147483646, 0 < m < 0x8000_0000;
    assert(a * m < d * m) by (nonlinear_arith)
        requires 0 <= a < d, 0 < m;
    vstd::arithmetic::div_mod::lemma_div_pos_is_pos(a * m, d);
    assert((a * m) / d < m) by {
        if (a * m) / d >= m {
            let q = (a * m) / d;
            vstd::arithmetic::div_mod::lemma_fundamental_div_mod(a * m, d);
            assert(a * m == d * q + (a * m) % d);
            assert(d * q >= d * m) by (nonlinear_arith)
                requires q >= m, d > 0;
        }
    }
}

} // verus!
