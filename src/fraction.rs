//! Exact decimal fractions (`mantissa / 10^scale`) and the byte-budget
//! arithmetic done with them.
use vstd::prelude::*;

verus! {

/// The largest scale a fraction may carry: `10^19` still fits in a `u64`.
pub const MAX_SCALE: u32 = 19;

/// `10^n`.
pub open spec fn pow10(n: nat) -> nat
    decreases n,
{
    if n == 0 {
        1
    } else {
        10 * pow10((n - 1) as nat)
    }
}

/// `10^n` grows with `n`.
pub proof fn lemma_pow10_monotone(i: nat, j: nat)
    requires
        i <= j,
    ensures
        1 <= pow10(i) <= pow10(j),
    decreases j,
{
    if j > 0 {
        if i < j {
            lemma_pow10_monotone(i, (j - 1) as nat);
        } else {
            lemma_pow10_monotone(0, (j - 1) as nat);
        }
    }
}

/// `10^(a + b) == 10^a * 10^b`.
pub proof fn lemma_pow10_add(a: nat, b: nat)
    ensures
        pow10(a + b) == pow10(a) * pow10(b),
    decreases b,
{
    if b == 0 {
        assert(a + b == a);
        assert(pow10(0) == 1);
    } else {
        lemma_pow10_add(a, (b - 1) as nat);
        assert(pow10(a + b) == 10 * pow10((a + b - 1) as nat));
        assert(pow10(b) == 10 * pow10((b - 1) as nat));
        let x = pow10(a);
        let y = pow10((b - 1) as nat);
        assert(x * (10 * y) == 10 * (x * y)) by (nonlinear_arith);
    }
}

/// A fraction of value at most one leaves a budget's share within the budget.
pub proof fn lemma_share_within(bytes: nat, p: Fraction)
    requires
        p.wf(),
        p.scaled() <= pow10(MAX_SCALE as nat),
    ensures
        0 <= share_of(bytes as int, p) <= bytes,
{
    let d = pow10(p.scale as nat);
    let e = pow10((MAX_SCALE - p.scale) as nat);
    lemma_pow10_add(p.scale as nat, (MAX_SCALE - p.scale) as nat);
    lemma_pow10_monotone(0, p.scale as nat);
    lemma_pow10_monotone(0, (MAX_SCALE - p.scale) as nat);
    assert(p.scale as nat + (MAX_SCALE - p.scale) as nat == MAX_SCALE as nat);
    assert((p.mantissa as int) * e <= d * e);
    assert(p.mantissa as int <= d) by (nonlinear_arith)
        requires
            (p.mantissa as int) * e <= d * e,
            e >= 1,
    ;
    assert((bytes as int) * (p.mantissa as int) <= (bytes as int) * d) by (nonlinear_arith)
        requires
            p.mantissa as int <= d,
            bytes >= 0,
    ;
    vstd::arithmetic::div_mod::lemma_div_is_ordered(
        (bytes as int) * (p.mantissa as int),
        (bytes as int) * d,
        d as int,
    );
    vstd::arithmetic::div_mod::lemma_div_by_multiple(bytes as int, d as int);
    assert((bytes as int) * d == d * (bytes as int)) by (nonlinear_arith);
    vstd::arithmetic::div_mod::lemma_div_is_ordered(0, (bytes as int) * (p.mantissa as int), d as int);
}

/// `10^18` and `10^19` as numbers.
pub proof fn lemma_pow10_top()
    ensures
        pow10(18) == 1000000000000000000,
        pow10(MAX_SCALE as nat) == 10000000000000000000,
{
    reveal_with_fuel(pow10, 20);
}

/// `10^n` for `n <= MAX_SCALE`.
pub fn pow10_u64(n: u32) -> (r: u64)
    requires
        n <= MAX_SCALE,
    ensures
        r == pow10(n as nat),
{
    let mut r: u64 = 1;
    let mut i: u32 = 0;
    while i < n
        invariant
            i <= n <= MAX_SCALE,
            r == pow10(i as nat),
        decreases n - i,
    {
        proof {
            lemma_pow10_monotone(i as nat, 18);
            lemma_pow10_top();
        }
        r = r * 10;
        i = i + 1;
    }
    r
}

/// An exact non-negative decimal fraction: `mantissa / 10^scale`.
#[derive(Clone, Copy, Debug, PartialEq, Eq)]
pub struct Fraction {
    pub mantissa: u64,
    pub scale: u32,
}

impl Fraction {
    pub open spec fn wf(self) -> bool {
        self.scale <= MAX_SCALE
    }

    /// The fraction's value times `10^MAX_SCALE`: exact for every well-formed
    /// fraction, so that fractions of different scales compare and add as integers.
    pub open spec fn scaled(self) -> int {
        self.mantissa * pow10((MAX_SCALE - self.scale) as nat)
    }

    /// The fraction `mantissa / 10^scale`; `None` where `scale` exceeds `MAX_SCALE`.
    pub fn new(mantissa: u64, scale: u32) -> (r: Option<Fraction>)
        ensures
            r is Some <==> scale <= MAX_SCALE,
            r matches Some(f) ==> f.mantissa == mantissa && f.scale == scale && f.wf(),
    {
        if scale <= MAX_SCALE {
            Some(Fraction { mantissa, scale })
        } else {
            None
        }
    }
}

/// `floor(bytes * p)`: the bytes that a share `p` of a budget of `bytes` comes to.
pub open spec fn share_of(bytes: int, p: Fraction) -> int {
    (bytes * p.mantissa) / (pow10(p.scale as nat) as int)
}

/// `bytes * p >= row_bytes`, compared exactly.
pub open spec fn share_fits(bytes: int, p: Fraction, row_bytes: int) -> bool {
    bytes * p.mantissa >= row_bytes * pow10(p.scale as nat)
}

/// `floor(bytes * p)` as a `u64`, or `None` where it does not fit in one.
pub fn share_of_bytes(bytes: u64, p: Fraction) -> (r: Option<u64>)
    requires
        p.wf(),
    ensures
        r is Some <==> share_of(bytes as int, p) <= u64::MAX,
        r matches Some(v) ==> v == share_of(bytes as int, p),
{
    let d = pow10_u64(p.scale);
    proof {
        lemma_pow10_monotone(0, p.scale as nat);
        assert((bytes as int) * (p.mantissa as int) <= (u64::MAX as int) * (u64::MAX as int))
            by (nonlinear_arith);
    }
    let prod: u128 = (bytes as u128) * (p.mantissa as u128);
    let q: u128 = prod / (d as u128);
    if q <= u64::MAX as u128 {
        Some(q as u64)
    } else {
        None
    }
}

/// Whether `bytes * p >= row_bytes`, compared exactly.
pub fn share_fits_bytes(bytes: u64, p: Fraction, row_bytes: u64) -> (r: bool)
    requires
        p.wf(),
    ensures
        r == share_fits(bytes as int, p, row_bytes as int),
{
    let d = pow10_u64(p.scale);
    proof {
        lemma_pow10_monotone(p.scale as nat, MAX_SCALE as nat);
        lemma_pow10_top();
        assert((bytes as int) * (p.mantissa as int) <= (u64::MAX as int) * (u64::MAX as int))
            by (nonlinear_arith);
        assert((row_bytes as int) * (d as int) <= (u64::MAX as int) * (u64::MAX as int))
            by (nonlinear_arith)
            requires
                d <= u64::MAX,
        ;
    }
    let lhs: u128 = (bytes as u128) * (p.mantissa as u128);
    let rhs: u128 = (row_bytes as u128) * (d as u128);
    lhs >= rhs
}

} // verus!
