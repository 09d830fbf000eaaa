use vstd::prelude::*;

verus! {

/// Largest scale (digits after the decimal point) an amount may carry.
pub const MAX_SCALE: u32 = 28;

/// Exclusive bound on the magnitude of a mantissa: 2^96.
pub const MANTISSA_BOUND: i128 = 79228162514264337593543950336;

/// Exclusive bound on intermediate, rescaled mantissas: 2^100.
pub const RESCALE_BOUND: i128 = 1267650600228229401496703205376;

pub open spec fn pow10(n: nat) -> int
    decreases n,
{
    if n == 0 {
        1
    } else {
        10 * pow10((n - 1) as nat)
    }
}

pub proof fn lemma_pow10_positive(n: nat)
    ensures
        pow10(n) >= 1,
    decreases n,
{
    if n > 0 {
        lemma_pow10_positive((n - 1) as nat);
    }
}

pub proof fn lemma_pow10_add(a: nat, b: nat)
    ensures
        pow10(a + b) == pow10(a) * pow10(b),
    decreases a,
{
    if a > 0 {
        lemma_pow10_add((a - 1) as nat, b);
        assert(pow10(a + b) == 10 * pow10((a - 1 + b) as nat));
        assert(10 * (pow10((a - 1) as nat) * pow10(b)) == (10 * pow10((a - 1) as nat)) * pow10(b))
            by (nonlinear_arith);
    }
}

/// An exact signed fixed-point decimal: `mantissa / 10^scale`.
#[derive(Clone, Copy, Debug, PartialEq, Eq, Structural)]
pub struct Amount {
    pub mantissa: i128,
    pub scale: u32,
}

impl Amount {
    /// The range a decimal number can take: scale at most 28, mantissa below 2^96.
    pub open spec fn wf(self) -> bool {
        &&& self.scale <= MAX_SCALE
        &&& -MANTISSA_BOUND < self.mantissa < MANTISSA_BOUND
    }

    /// The exact value, counted in units of 10^-28.
    pub open spec fn units(self) -> int {
        self.mantissa * pow10((MAX_SCALE - self.scale) as nat)
    }

    pub open spec fn negated(self) -> Amount {
        Amount { mantissa: (-self.mantissa) as i128, scale: self.scale }
    }

    pub open spec fn common_scale(a: Amount, b: Amount) -> nat {
        if a.scale >= b.scale {
            a.scale as nat
        } else {
            b.scale as nat
        }
    }

    /// The exact sum at the larger of the two scales, when its mantissa stays in range.
    pub open spec fn sum(a: Amount, b: Amount) -> Option<Amount> {
        let s = Amount::common_scale(a, b);
        let m = a.mantissa * pow10((s - a.scale) as nat) + b.mantissa * pow10((s - b.scale) as nat);
        if -MANTISSA_BOUND < m < MANTISSA_BOUND {
            Some(Amount { mantissa: m as i128, scale: s as u32 })
        } else {
            None
        }
    }

    /// The exact difference `a - b`, when it stays in range.
    pub open spec fn difference(a: Amount, b: Amount) -> Option<Amount> {
        Amount::sum(a, b.negated())
    }

    /// Zero, at scale zero.
    pub fn zero() -> (r: Amount)
        ensures
            r.wf(),
            r.units() == 0,
            r == (Amount { mantissa: 0, scale: 0 }),
    {
        Amount { mantissa: 0, scale: 0 }
    }

    /// `mantissa / 10^scale`, when it lies in range.
    pub fn new(mantissa: i128, scale: u32) -> (r: Option<Amount>)
        ensures
            r is Some <==> (scale <= MAX_SCALE && -MANTISSA_BOUND < mantissa < MANTISSA_BOUND),
            r matches Some(a) ==> a.mantissa == mantissa && a.scale == scale,
    {
        if scale <= MAX_SCALE && -MANTISSA_BOUND < mantissa && mantissa < MANTISSA_BOUND {
            Some(Amount { mantissa, scale })
        } else {
            None
        }
    }

    pub fn mantissa(&self) -> (r: i128)
        ensures
            r == self.mantissa,
    {
        self.mantissa
    }

    pub fn scale(&self) -> (r: u32)
        ensures
            r == self.scale,
    {
        self.scale
    }

    pub fn negate(&self) -> (r: Amount)
        requires
            self.wf(),
        ensures
            r == self.negated(),
            r.wf(),
            r.units() == -self.units(),
    {
        proof {
            let p = pow10((MAX_SCALE - self.scale) as nat);
            assert((-self.mantissa) * p == -(self.mantissa * p)) by (nonlinear_arith);
        }
        Amount { mantissa: -self.mantissa, scale: self.scale }
    }
}

/// `m * 10^k`, or `None` once its magnitude reaches 2^100.
fn rescale(m: i128, k: u32) -> (r: Option<i128>)
    requires
        -MANTISSA_BOUND < m < MANTISSA_BOUND,
        k <= MAX_SCALE,
    ensures
        match r {
            Some(v) => v == m * pow10(k as nat) && -RESCALE_BOUND < v < RESCALE_BOUND,
            None => m * pow10(k as nat) >= RESCALE_BOUND || m * pow10(k as nat) <= -RESCALE_BOUND,
        },
        k == 0 ==> r == Some(m),
{
    let mut v: i128 = m;
    let mut i: u32 = 0;
    assert(pow10(0) == 1);
    while i < k
        invariant
            i <= k,
            v == m * pow10(i as nat),
            -RESCALE_BOUND < v < RESCALE_BOUND,
        decreases k - i,
    {
        let w: i128 = v * 10;
        proof {
            let ghost p = pow10(i as nat);
            assert(pow10((i + 1) as nat) == 10 * p);
            assert(m * (10 * p) == (m * p) * 10) by (nonlinear_arith);
        }
        if w >= RESCALE_BOUND || w <= -RESCALE_BOUND {
            proof {
                let ghost rest = (k - i - 1) as nat;
                lemma_pow10_add((i + 1) as nat, rest);
                lemma_pow10_positive(rest);
                let ghost q = pow10(rest);
                let ghost p1 = pow10((i + 1) as nat);
                assert(m * (p1 * q) == (m * p1) * q) by (nonlinear_arith);
                assert(w >= RESCALE_BOUND ==> w * q >= RESCALE_BOUND) by (nonlinear_arith)
                    requires q >= 1;
                assert(w <= -RESCALE_BOUND ==> w * q <= -RESCALE_BOUND) by (nonlinear_arith)
                    requires q >= 1;
                assert(((i + 1) as nat + rest) == k as nat);
            }
            return None;
        }
        v = w;
        i = i + 1;
    }
    Some(v)
}

/// The value in units of 10^-28 equals the mantissa rescaled to `s`, times 10^(28 - s).
proof fn lemma_units_at(a: Amount, s: nat)
    requires
        a.scale <= s <= MAX_SCALE,
    ensures
        a.units() == (a.mantissa * pow10((s - a.scale) as nat)) * pow10((MAX_SCALE - s) as nat),
{
    let k = (s - a.scale) as nat;
    let r = (MAX_SCALE - s) as nat;
    lemma_pow10_add(k, r);
    assert(k + r == (MAX_SCALE - a.scale) as nat);
    assert(a.mantissa * (pow10(k) * pow10(r)) == (a.mantissa * pow10(k)) * pow10(r))
        by (nonlinear_arith);
}

/// A sum, when it exists, is exact: its value is the sum of the values.
pub proof fn lemma_sum_exact(a: Amount, b: Amount)
    requires
        a.wf(),
        b.wf(),
    ensures
        Amount::sum(a, b) matches Some(c) ==> c.wf() && c.units() == a.units() + b.units(),
{
    let s = Amount::common_scale(a, b);
    if let Some(c) = Amount::sum(a, b) {
        lemma_units_at(a, s);
        lemma_units_at(b, s);
        let x = a.mantissa * pow10((s - a.scale) as nat);
        let y = b.mantissa * pow10((s - b.scale) as nat);
        let p = pow10((MAX_SCALE - s) as nat);
        assert((x + y) * p == x * p + y * p) by (nonlinear_arith);
        assert(c.units() == (x + y) * p);
    }
}

/// A difference, when it exists, is exact.
pub proof fn lemma_difference_exact(a: Amount, b: Amount)
    requires
        a.wf(),
        b.wf(),
    ensures
        Amount::difference(a, b) matches Some(c) ==> c.wf() && c.units() == a.units() - b.units(),
{
    let nb = b.negated();
    let p = pow10((MAX_SCALE - b.scale) as nat);
    assert((-b.mantissa) * p == -(b.mantissa * p)) by (nonlinear_arith);
    lemma_sum_exact(a, nb);
}

impl Amount {
    /// Exact addition; `None` where the sum leaves the range of a decimal number.
    pub fn checked_add(&self, other: &Amount) -> (r: Option<Amount>)
        requires
            self.wf(),
            other.wf(),
        ensures
            r == Amount::sum(*self, *other),
            r matches Some(c) ==> c.wf() && c.units() == self.units() + other.units(),
    {
        proof {
            lemma_sum_exact(*self, *other);
        }
        let s: u32 = if self.scale >= other.scale {
            self.scale
        } else {
            other.scale
        };
        let x = rescale(self.mantissa, s - self.scale);
        let y = rescale(other.mantissa, s - other.scale);
        match (x, y) {
            (Some(x), Some(y)) => {
                let m: i128 = x + y;
                if -MANTISSA_BOUND < m && m < MANTISSA_BOUND {
                    Some(Amount { mantissa: m, scale: s })
                } else {
                    None
                }
            },
            _ => None,
        }
    }

    /// Exact subtraction; `None` where the difference leaves the range of a decimal number.
    pub fn checked_sub(&self, other: &Amount) -> (r: Option<Amount>)
        requires
            self.wf(),
            other.wf(),
        ensures
            r == Amount::difference(*self, *other),
            r matches Some(c) ==> c.wf() && c.units() == self.units() - other.units(),
    {
        proof {
            lemma_difference_exact(*self, *other);
        }
        let n = other.negate();
        self.checked_add(&n)
    }

    /// Exact comparison of values: `self > other`.
    pub fn greater_than(&self, other: &Amount) -> (r: bool)
        requires
            self.wf(),
            other.wf(),
        ensures
            r == (self.units() > other.units()),
    {
        let s: u32 = if self.scale >= other.scale {
            self.scale
        } else {
            other.scale
        };
        proof {
            lemma_units_at(*self, s as nat);
            lemma_units_at(*other, s as nat);
            lemma_pow10_positive((MAX_SCALE - s) as nat);
            lemma_pow10_positive((s - self.scale) as nat);
            lemma_pow10_positive((s - other.scale) as nat);
        }
        let ghost p = pow10((MAX_SCALE - s) as nat);
        let ghost xs = self.mantissa * pow10((s - self.scale) as nat);
        let ghost ys = other.mantissa * pow10((s - other.scale) as nat);
        proof {
            assert(xs > ys <==> xs * p > ys * p) by (nonlinear_arith)
                requires p >= 1;
        }
        let x = rescale(self.mantissa, s - self.scale);
        let y = rescale(other.mantissa, s - other.scale);
        match (x, y) {
            (Some(x), Some(y)) => x > y,
            (None, _) => {
                // the other side was not rescaled, so it is below 2^96 in magnitude
                proof {
                    let ghost q = pow10((s - self.scale) as nat);
                    assert(self.mantissa > 0 ==> xs > 0) by (nonlinear_arith)
                        requires xs == self.mantissa * q, q >= 1;
                    assert(self.mantissa <= 0 ==> xs <= 0) by (nonlinear_arith)
                        requires xs == self.mantissa * q, q >= 1;
                }
                self.mantissa > 0
            },
            (_, None) => {
                proof {
                    let ghost q = pow10((s - other.scale) as nat);
                    assert(other.mantissa > 0 ==> ys > 0) by (nonlinear_arith)
                        requires ys == other.mantissa * q, q >= 1;
                    assert(other.mantissa <= 0 ==> ys <= 0) by (nonlinear_arith)
                        requires ys == other.mantissa * q, q >= 1;
                }
                other.mantissa <= 0
            },
        }
    }
}

} // verus!
