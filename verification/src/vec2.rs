//! Two-dimensional integer vectors in game units, with the fixed-point
//! length / direction helpers the trackers and the simulator build on.

use vstd::prelude::*;

verus! {

/// Coordinates handled by the geometry helpers stay within this bound, so
/// every intermediate product below fits comfortably in an `i64`.
pub const COORD_BOUND: i64 = 1_000_000_000;

/// Scale of a "unit" direction vector: `norm` returns a vector whose length
/// is (close to) this many fixed-point steps.
pub const UNIT: i64 = 1000;

#[derive(Clone, Copy, PartialEq, Eq, Structural, Debug)]
pub struct Vec2 {
    pub x: i64,
    pub y: i64,
}

/// Truncating (toward zero) division, matching machine division on signed
/// integers; on non-negative operands it agrees with euclidean division.
pub open spec fn div_tz(a: int, b: int) -> int
    recommends
        b > 0,
{
    if a >= 0 {
        a / b
    } else {
        -((-a) / b)
    }
}

/// Floor-of-square-root by unary recursion; the executable `isqrt` is proved
/// equal to this function.
pub open spec fn isqrt_spec(n: nat) -> nat
    decreases n,
{
    if n == 0 {
        0
    } else {
        let r = isqrt_spec((n - 1) as nat);
        if (r + 1) * (r + 1) <= n {
            r + 1
        } else {
            r
        }
    }
}

pub proof fn lemma_isqrt_bounds(n: nat)
    ensures
        isqrt_spec(n) * isqrt_spec(n) <= n,
        n < (isqrt_spec(n) + 1) * (isqrt_spec(n) + 1),
    decreases n,
{
    if n == 0 {
        assert(isqrt_spec(n) == 0);
        assert(isqrt_spec(n) * isqrt_spec(n) <= n);
        assert(n < (isqrt_spec(n) + 1) * (isqrt_spec(n) + 1)) by (nonlinear_arith)
            requires
                n == 0,
                isqrt_spec(n) == 0,
        ;
    } else {
        lemma_isqrt_bounds((n - 1) as nat);
        let r = isqrt_spec((n - 1) as nat);
        assert(r * r <= n - 1 < (r + 1) * (r + 1));
        if (r + 1) * (r + 1) <= n {
            assert(isqrt_spec(n) == r + 1);
            assert(n == (r + 1) * (r + 1));
            assert(n < (r + 2) * (r + 2)) by (nonlinear_arith)
                requires
                    r >= 0,
                    n == (r + 1) * (r + 1),
            ;
            assert(isqrt_spec(n) * isqrt_spec(n) <= n);
            assert(n < (isqrt_spec(n) + 1) * (isqrt_spec(n) + 1));
        } else {
            assert(isqrt_spec(n) == r);
            assert(isqrt_spec(n) * isqrt_spec(n) <= n);
            assert(n < (isqrt_spec(n) + 1) * (isqrt_spec(n) + 1));
        }
    }
}

pub proof fn lemma_isqrt_unique(n: nat, r: nat)
    requires
        r * r <= n,
        n < (r + 1) * (r + 1),
    ensures
        r == isqrt_spec(n),
{
    let s = isqrt_spec(n);
    lemma_isqrt_bounds(n);
    if r < s {
        assert((r + 1) * (r + 1) <= s * s) by (nonlinear_arith)
            requires
                0 <= r,
                r + 1 <= s,
        ;
    }
    if s < r {
        assert((s + 1) * (s + 1) <= r * r) by (nonlinear_arith)
            requires
                0 <= s,
                s + 1 <= r,
        ;
    }
}

/// Floor of the square root of `n`.
pub fn isqrt(n: i64) -> (r: i64)
    requires
        0 <= n,
    ensures
        0 <= r,
        r == isqrt_spec(n as nat),
{
    let mut lo: i64 = 0;
    let mut hi: i64 = 3_037_000_500;
    assert(hi * hi > n) by (nonlinear_arith)
        requires
            hi == 3_037_000_500,
            n <= 0x7fff_ffff_ffff_ffff,
    ;
    while lo + 1 < hi
        invariant
            0 <= lo < hi <= 3_037_000_500,
            lo * lo <= n,
            hi * hi > n,
        decreases hi - lo,
    {
        let mid = lo + (hi - lo) / 2;
        assert(lo < mid < hi);
        assert(mid * mid <= 3_037_000_499 * 3_037_000_499) by (nonlinear_arith)
            requires
                0 <= mid <= 3_037_000_499,
        ;
        if mid * mid <= n {
            lo = mid;
        } else {
            hi = mid;
        }
    }
    proof {
        lemma_isqrt_unique(n as nat, lo as nat);
    }
    lo
}

/// Truncating division by a positive divisor.
pub fn div_trunc(a: i64, b: i64) -> (r: i64)
    requires
        0 < b,
        i64::MIN < a,
    ensures
        r == div_tz(a as int, b as int),
{
    if a >= 0 {
        let q = (a as u64) / (b as u64);
        q as i64
    } else {
        let q = ((-a) as u64) / (b as u64);
        -(q as i64)
    }
}

impl Vec2 {
    /// Componentwise sum.
    pub open spec fn add_spec(self, other: Vec2) -> Vec2 {
        Vec2 { x: (self.x + other.x) as i64, y: (self.y + other.y) as i64 }
    }

    /// Componentwise difference.
    pub open spec fn sub_spec(self, other: Vec2) -> Vec2 {
        Vec2 { x: (self.x - other.x) as i64, y: (self.y - other.y) as i64 }
    }

    pub open spec fn in_range(self) -> bool {
        -COORD_BOUND <= self.x <= COORD_BOUND && -COORD_BOUND <= self.y <= COORD_BOUND
    }

    /// Squared euclidean length.
    pub open spec fn len_sq(self) -> int {
        self.x * self.x + self.y * self.y
    }

    /// Integer (floor) euclidean length.
    pub open spec fn len_spec(self) -> int {
        isqrt_spec(self.len_sq() as nat) as int
    }

    /// The vector rescaled to (integer) length `s`: each component is
    /// `c * s / len`, truncated toward zero; the zero vector stays zero.
    pub open spec fn scaled_spec(self, s: int) -> Vec2 {
        if self.len_spec() == 0 {
            Vec2 { x: 0, y: 0 }
        } else {
            Vec2 {
                x: div_tz(self.x * s, self.len_spec()) as i64,
                y: div_tz(self.y * s, self.len_spec()) as i64,
            }
        }
    }

    /// Fixed-point unit direction of the vector, at scale `UNIT`.
    pub open spec fn norm_spec(self) -> Vec2 {
        self.scaled_spec(UNIT as int)
    }

    pub fn new(x: i64, y: i64) -> (r: Vec2)
        ensures
            r == (Vec2 { x, y }),
    {
        Vec2 { x, y }
    }

    pub fn add(self, other: Vec2) -> (r: Vec2)
        requires
            i64::MIN <= self.x + other.x <= i64::MAX,
            i64::MIN <= self.y + other.y <= i64::MAX,
        ensures
            r == (Vec2 { x: (self.x + other.x) as i64, y: (self.y + other.y) as i64 }),
    {
        Vec2 { x: self.x + other.x, y: self.y + other.y }
    }

    pub fn sub(self, other: Vec2) -> (r: Vec2)
        requires
            i64::MIN <= self.x - other.x <= i64::MAX,
            i64::MIN <= self.y - other.y <= i64::MAX,
        ensures
            r == (Vec2 { x: (self.x - other.x) as i64, y: (self.y - other.y) as i64 }),
    {
        Vec2 { x: self.x - other.x, y: self.y - other.y }
    }

    pub fn mul(self, k: i64) -> (r: Vec2)
        requires
            i64::MIN <= self.x * k <= i64::MAX,
            i64::MIN <= self.y * k <= i64::MAX,
        ensures
            r == (Vec2 { x: (self.x * k) as i64, y: (self.y * k) as i64 }),
    {
        Vec2 { x: self.x * k, y: self.y * k }
    }

    pub fn max(self, other: Vec2) -> (r: Vec2)
        ensures
            r.x == if self.x >= other.x { self.x } else { other.x },
            r.y == if self.y >= other.y { self.y } else { other.y },
    {
        Vec2 {
            x: if self.x >= other.x { self.x } else { other.x },
            y: if self.y >= other.y { self.y } else { other.y },
        }
    }

    pub fn min(self, other: Vec2) -> (r: Vec2)
        ensures
            r.x == if self.x <= other.x { self.x } else { other.x },
            r.y == if self.y <= other.y { self.y } else { other.y },
    {
        Vec2 {
            x: if self.x <= other.x { self.x } else { other.x },
            y: if self.y <= other.y { self.y } else { other.y },
        }
    }

    pub open spec fn clamp_spec(self, lt: Vec2, rb: Vec2) -> Vec2 {
        Vec2 {
            x: if self.x < lt.x {
                lt.x
            } else if self.x > rb.x {
                rb.x
            } else {
                self.x
            },
            y: if self.y < lt.y {
                lt.y
            } else if self.y > rb.y {
                rb.y
            } else {
                self.y
            },
        }
    }

    /// Componentwise clamp into the box `[lt, rb]`.
    pub fn clamp(self, lt: Vec2, rb: Vec2) -> (r: Vec2)
        requires
            lt.x <= rb.x,
            lt.y <= rb.y,
        ensures
            r == self.clamp_spec(lt, rb),
    {
        self.max(lt).min(rb)
    }

    /// Integer euclidean length (floor of the true length).
    pub fn len(self) -> (r: i64)
        requires
            self.in_range(),
        ensures
            0 <= r,
            r == self.len_spec(),
            r * r <= self.len_sq() < (r + 1) * (r + 1),
    {
        assert(0 <= self.x * self.x <= COORD_BOUND * COORD_BOUND) by (nonlinear_arith)
            requires
                -COORD_BOUND <= self.x <= COORD_BOUND,
        ;
        assert(0 <= self.y * self.y <= COORD_BOUND * COORD_BOUND) by (nonlinear_arith)
            requires
                -COORD_BOUND <= self.y <= COORD_BOUND,
        ;
        let n = self.x * self.x + self.y * self.y;
        let r = isqrt(n);
        proof {
            lemma_isqrt_bounds(n as nat);
        }
        r
    }

    /// The vector rescaled to length `s` (zero stays zero).
    pub fn scale_to(self, s: i64) -> (r: Vec2)
        requires
            self.in_range(),
            0 <= s <= 1_000_000,
        ensures
            r == self.scaled_spec(s as int),
    {
        let l = self.len();
        if l == 0 {
            Vec2 { x: 0, y: 0 }
        } else {
            assert(i64::MIN < self.x * s <= i64::MAX) by (nonlinear_arith)
                requires
                    -COORD_BOUND <= self.x <= COORD_BOUND,
                    0 <= s <= 1_000_000,
            ;
            assert(i64::MIN < self.y * s <= i64::MAX) by (nonlinear_arith)
                requires
                    -COORD_BOUND <= self.y <= COORD_BOUND,
                    0 <= s <= 1_000_000,
            ;
            Vec2 { x: div_trunc(self.x * s, l), y: div_trunc(self.y * s, l) }
        }
    }

    /// Fixed-point unit direction: length `UNIT`, up to truncation.
    pub fn norm(self) -> (r: Vec2)
        requires
            self.in_range(),
        ensures
            r == self.norm_spec(),
    {
        self.scale_to(UNIT)
    }
}

/// No component of a vector exceeds the vector's integer length.
pub proof fn lemma_component_le_len(v: Vec2)
    requires
        v.in_range(),
    ensures
        -v.len_spec() <= v.x <= v.len_spec(),
        -v.len_spec() <= v.y <= v.len_spec(),
{
    let l = v.len_spec();
    lemma_isqrt_bounds(v.len_sq() as nat);
    assert(0 <= v.x * v.x && 0 <= v.y * v.y) by (nonlinear_arith);
    assert(l >= 0);
    if v.x > l || v.x < -l {
        assert(v.x * v.x >= (l + 1) * (l + 1)) by (nonlinear_arith)
            requires
                l >= 0,
                v.x > l || v.x < -l,
        ;
    }
    if v.y > l || v.y < -l {
        assert(v.y * v.y >= (l + 1) * (l + 1)) by (nonlinear_arith)
            requires
                l >= 0,
                v.y > l || v.y < -l,
        ;
    }
}

/// Rescaling a vector to length `s` leaves no component beyond `s`.
pub proof fn lemma_scaled_bounds(v: Vec2, s: int)
    requires
        v.in_range(),
        0 <= s,
    ensures
        -s <= v.scaled_spec(s).x <= s,
        -s <= v.scaled_spec(s).y <= s,
{
    let l = v.len_spec();
    lemma_isqrt_bounds(v.len_sq() as nat);
    if l != 0 {
        lemma_component_le_len(v);
        lemma_scaled_component(v.x as int, s, l);
        lemma_scaled_component(v.y as int, s, l);
    }
}

/// For `|c| <= l` and `l > 0`, the truncated quotient `c * s / l` stays
/// within `[-s, s]`.
proof fn lemma_scaled_component(c: int, s: int, l: int)
    requires
        0 < l,
        0 <= s,
        -l <= c <= l,
    ensures
        -s <= div_tz(c * s, l) <= s,
{
    if c >= 0 {
        assert(0 <= c * s <= l * s) by (nonlinear_arith)
            requires
                0 <= c <= l,
                0 <= s,
        ;
        vstd::arithmetic::div_mod::lemma_div_is_ordered(c * s, l * s, l);
        vstd::arithmetic::div_mod::lemma_div_multiples_vanish(s, l);
        assert(l * s == s * l) by (nonlinear_arith);
        vstd::arithmetic::div_mod::lemma_div_pos_is_pos(c * s, l);
    } else {
        let a = -c;
        assert(0 <= a * s <= l * s) by (nonlinear_arith)
            requires
                0 <= a <= l,
                0 <= s,
        ;
        vstd::arithmetic::div_mod::lemma_div_is_ordered(a * s, l * s, l);
        vstd::arithmetic::div_mod::lemma_div_multiples_vanish(s, l);
        assert(l * s == s * l) by (nonlinear_arith);
        vstd::arithmetic::div_mod::lemma_div_pos_is_pos(a * s, l);
        assert(c * s == -(a * s)) by (nonlinear_arith)
            requires
                a == -c,
        ;
        assert(div_tz(c * s, l) == -((a * s) / l));
    }
}

/// Normalizing the zero vector yields the zero vector again.
pub proof fn lemma_norm_zero()
    ensures
        (Vec2 { x: 0, y: 0 }).norm_spec() == (Vec2 { x: 0, y: 0 }),
{
}

/// Normalization is idempotent on unit vectors: a vector already of length
/// `UNIT` is returned unchanged, so a second `norm` is a no-op on it.
pub proof fn lemma_norm_unit_identity(v: Vec2)
    requires
        v.in_range(),
        v.len_spec() == UNIT as int,
    ensures
        v.norm_spec() == v,
{
    assert(v.x * 1000 == 1000 * v.x) by (nonlinear_arith);
    assert(v.y * 1000 == 1000 * v.y) by (nonlinear_arith);
    if v.x >= 0 {
        assert((1000 * v.x) / 1000 == v.x) by (nonlinear_arith)
            requires
                v.x >= 0,
        ;
    } else {
        assert((1000 * (-v.x as int)) / 1000 == -v.x as int) by (nonlinear_arith)
            requires
                (-v.x as int) >= 0,
        ;
    }
    if v.y >= 0 {
        assert((1000 * v.y) / 1000 == v.y) by (nonlinear_arith)
            requires
                v.y >= 0,
        ;
    } else {
        assert((1000 * (-v.y as int)) / 1000 == -v.y as int) by (nonlinear_arith)
            requires
                (-v.y as int) >= 0,
        ;
    }
}

} // verus!
