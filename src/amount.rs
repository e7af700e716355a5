//! Fixed-point money amounts: a signed mantissa of at most 96 bits and a
//! decimal scale of at most 28 digits, the range of `rust_decimal::Decimal`.

use rust_decimal::Decimal;
use vstd::prelude::*;

verus! {

/// Largest mantissa magnitude: 2^96 - 1.
pub const MAX_MANTISSA: i128 = 79228162514264337593543950335;

/// Largest number of fractional digits.
pub const MAX_SCALE: u32 = 28;

pub open spec fn pow10(n: nat) -> int
    decreases n,
{
    if n == 0 {
        1
    } else {
        10 * pow10((n - 1) as nat)
    }
}

pub proof fn lemma_pow10_positive(n: nat)
    ensures
        pow10(n) >= 1,
    decreases n,
{
    if n > 0 {
        lemma_pow10_positive((n - 1) as nat);
    }
}

pub proof fn lemma_pow10_add(a: nat, b: nat)
    ensures
        pow10(a + b) == pow10(a) * pow10(b),
    decreases a,
{
    if a > 0 {
        lemma_pow10_add((a - 1) as nat, b);
        assert(pow10(a + b) == 10 * pow10((a - 1 + b) as nat));
        let x = pow10((a - 1) as nat);
        let y = pow10(b);
        assert((10 * x) * y == 10 * (x * y)) by (nonlinear_arith);
    }
}

/// A decimal amount `mantissa / 10^scale`.
#[derive(Clone, Copy, Debug)]
pub struct Amount {
    mantissa: i128,
    scale: u32,
}

pub open spec fn in_range(m: int) -> bool {
    -MAX_MANTISSA <= m <= MAX_MANTISSA
}

/// The value of `m / 10^s` in units of `10^-MAX_SCALE`.
pub open spec fn units_of(m: int, s: nat) -> int {
    m * pow10((MAX_SCALE - s) as nat)
}

/// Whether a value, in units of `10^-MAX_SCALE`, has some form
/// `m / 10^s` with `m` in 96 bits and `s` at most `MAX_SCALE`.
pub open spec fn representable(u: int) -> bool {
    exists|m: int, s: nat| s <= MAX_SCALE && in_range(m) && #[trigger] units_of(m, s) == u
}

/// No trailing zero can be dropped from `m` at scale `s`.
pub open spec fn canonical(m: int, s: nat) -> bool {
    s == 0 || m % 10 != 0
}

impl Amount {
    #[verifier::type_invariant]
    pub open spec fn inv(&self) -> bool {
        self.valid()
    }

    pub closed spec fn spec_mantissa(&self) -> int {
        self.mantissa as int
    }

    pub closed spec fn spec_scale(&self) -> nat {
        self.scale as nat
    }

    /// The mantissa and scale are in range.
    pub open spec fn valid(&self) -> bool {
        in_range(self.spec_mantissa()) && self.spec_scale() <= MAX_SCALE
    }

    /// The value in units of `10^-MAX_SCALE`: two amounts are equal as
    /// numbers exactly when their units are equal.
    pub open spec fn units(&self) -> int {
        units_of(self.spec_mantissa(), self.spec_scale())
    }

    /// Whether some amount equals `a + b` exactly.
    pub open spec fn add_fits(a: Amount, b: Amount) -> bool {
        representable(a.units() + b.units())
    }

    /// Whether some amount equals `a - b` exactly.
    pub open spec fn sub_fits(a: Amount, b: Amount) -> bool {
        representable(a.units() - b.units())
    }

    /// The amount `mantissa / 10^scale`, if the mantissa fits in 96 bits and
    /// the scale is at most 28.
    pub fn new(mantissa: i128, scale: u32) -> (r: Option<Amount>)
        ensures
            r is Some <==> (in_range(mantissa as int) && scale <= MAX_SCALE),
            r matches Some(a) ==> a.spec_mantissa() == mantissa && a.spec_scale() == scale
                && a.valid(),
    {
        if -MAX_MANTISSA <= mantissa && mantissa <= MAX_MANTISSA && scale <= MAX_SCALE {
            Some(Amount { mantissa, scale })
        } else {
            None
        }
    }

    /// Zero, with no fractional digits.
    pub fn zero() -> (r: Amount)
        ensures
            r.spec_mantissa() == 0,
            r.spec_scale() == 0,
            r.units() == 0,
            r.valid(),
    {
        Amount { mantissa: 0, scale: 0 }
    }

    pub fn mantissa(&self) -> (r: i128)
        ensures
            r == self.spec_mantissa(),
    {
        self.mantissa
    }

    pub fn scale(&self) -> (r: u32)
        ensures
            r == self.spec_scale(),
    {
        self.scale
    }

    /// The exact sum, or `None` when no amount represents it.
    pub fn checked_add(&self, other: &Amount) -> (r: Option<Amount>)
        ensures
            r is Some <==> Amount::add_fits(*self, *other),
            r matches Some(x) ==> x.units() == self.units() + other.units() && x.valid(),
    {
        proof {
            use_type_invariant(self);
            use_type_invariant(other);
        }
        if !sum_representable(self.mantissa, self.scale, other.mantissa, other.scale) {
            return None;
        }
        decimal_add(*self, *other)
    }

    /// The exact difference, or `None` when no amount represents it.
    pub fn checked_sub(&self, other: &Amount) -> (r: Option<Amount>)
        ensures
            r is Some <==> Amount::sub_fits(*self, *other),
            r matches Some(x) ==> x.units() == self.units() - other.units() && x.valid(),
    {
        proof {
            use_type_invariant(self);
            use_type_invariant(other);
            let p = pow10((MAX_SCALE - other.spec_scale()) as nat);
            let m = other.spec_mantissa();
            assert((-m) * p == -(m * p)) by (nonlinear_arith);
        }
        if !sum_representable(self.mantissa, self.scale, -other.mantissa, other.scale) {
            return None;
        }
        decimal_sub(*self, *other)
    }

    /// Whether `self >= other` as numbers.
    pub fn at_least(&self, other: &Amount) -> (r: bool)
        ensures
            r == (self.units() >= other.units()),
    {
        decimal_ge(*self, *other)
    }
}

/// Relies on rust_decimal's `Decimal::checked_add`: when the exact sum has
/// a form with a 96-bit mantissa and a scale of at most 28, a value equal to
/// it is returned (it only rounds results that have no such form). The operands are built with
/// `Decimal::from_i128_with_scale`, which accepts every valid `Amount`.
#[verifier::external_body]
fn decimal_add(a: Amount, b: Amount) -> (r: Option<Amount>)
    requires
        representable(a.units() + b.units()),
    ensures
        r is Some,
        r->Some_0.units() == a.units() + b.units(),
        r->Some_0.valid(),
{
    let x = Decimal::from_i128_with_scale(a.mantissa, a.scale);
    let y = Decimal::from_i128_with_scale(b.mantissa, b.scale);
    match x.checked_add(y) {
        Some(d) => Some(Amount { mantissa: d.mantissa(), scale: d.scale() }),
        None => None,
    }
}

/// Relies on rust_decimal's `Decimal::checked_sub`: when the exact
/// difference has a form with a 96-bit mantissa and a scale of at most 28, a
/// value equal to it is returned. The operands are built with
/// `Decimal::from_i128_with_scale`, which accepts every valid `Amount`.
#[verifier::external_body]
fn decimal_sub(a: Amount, b: Amount) -> (r: Option<Amount>)
    requires
        representable(a.units() - b.units()),
    ensures
        r is Some,
        r->Some_0.units() == a.units() - b.units(),
        r->Some_0.valid(),
{
    let x = Decimal::from_i128_with_scale(a.mantissa, a.scale);
    let y = Decimal::from_i128_with_scale(b.mantissa, b.scale);
    match x.checked_sub(y) {
        Some(d) => Some(Amount { mantissa: d.mantissa(), scale: d.scale() }),
        None => None,
    }
}

/// Relies on the order of rust_decimal's `Decimal` (`>=`, through its
/// `Ord`), which compares numeric values whatever the scales. The operands
/// are built with `Decimal::from_i128_with_scale`.
#[verifier::external_body]
fn decimal_ge(a: Amount, b: Amount) -> (r: bool)
    ensures
        r == (a.units() >= b.units()),
{
    Decimal::from_i128_with_scale(a.mantissa, a.scale) >= Decimal::from_i128_with_scale(
        b.mantissa,
        b.scale,
    )
}

/// Bound on an operand brought to a common scale: beyond it, no operand of
/// at most `MAX_MANTISSA` can bring the sum back into range.
const RESCALE_LIMIT: i128 = 158456325028528675187087900670;

/// `m * 10^by`, if its magnitude is at most `RESCALE_LIMIT`.
fn scale_up(m: i128, by: u32) -> (r: Option<i128>)
    requires
        in_range(m as int),
    ensures
        r matches Some(v) ==> v == m * pow10(by as nat) && -RESCALE_LIMIT <= v <= RESCALE_LIMIT,
        r is None ==> !(-RESCALE_LIMIT <= m * pow10(by as nat) <= RESCALE_LIMIT),
{
    let mut cur: i128 = m;
    let mut i: u32 = 0;
    while i < by
        invariant
            i <= by,
            cur == m * pow10(i as nat),
            -RESCALE_LIMIT <= cur <= RESCALE_LIMIT,
        decreases by - i,
    {
        let next: i128 = cur * 10;
        proof {
            assert(pow10((i + 1) as nat) == 10 * pow10(i as nat));
            assert(next == m * pow10((i + 1) as nat)) by (nonlinear_arith)
                requires
                    next == cur * 10,
                    cur == m * pow10(i as nat),
                    pow10((i + 1) as nat) == 10 * pow10(i as nat),
            ;
        }
        if next > RESCALE_LIMIT || next < -RESCALE_LIMIT {
            proof {
                let rest = (by - i - 1) as nat;
                lemma_pow10_add((i + 1) as nat, rest);
                lemma_pow10_positive(rest);
                assert((i + 1) as nat + rest == by as nat);
                let p = pow10(rest);
                let big = m * pow10(by as nat);
                assert(big == next * p) by (nonlinear_arith)
                    requires
                        big == m * pow10(by as nat),
                        pow10(by as nat) == pow10((i + 1) as nat) * p,
                        next == m * pow10((i + 1) as nat),
                ;
                assert(!(-RESCALE_LIMIT <= big <= RESCALE_LIMIT)) by (nonlinear_arith)
                    requires
                        big == next * p,
                        p >= 1,
                        next > RESCALE_LIMIT || next < -RESCALE_LIMIT,
                ;
            }
            return None;
        }
        cur = next;
        i = i + 1;
    }
    Some(cur)
}

/// `m` at scale `s` has the same value as `m * 10^d` at scale `s + d`.
proof fn lemma_units_rescale(m: int, s: nat, d: nat)
    requires
        s + d <= MAX_SCALE,
    ensures
        units_of(m * pow10(d), s + d) == units_of(m, s),
{
    let q = (MAX_SCALE - s - d) as nat;
    lemma_pow10_add(d, q);
    assert(d + q == (MAX_SCALE - s) as nat);
    let pd = pow10(d);
    let pq = pow10(q);
    assert((m * pd) * pq == m * (pd * pq)) by (nonlinear_arith);
}

/// A canonical form has the smallest mantissa among all forms of its value.
proof fn lemma_canonical_minimal(m: int, s: nat, m2: int, s2: nat)
    requires
        s <= MAX_SCALE,
        s2 <= MAX_SCALE,
        canonical(m, s),
        units_of(m, s) == units_of(m2, s2),
        in_range(m2),
    ensures
        in_range(m),
{
    if s2 < s {
        let d = (s - s2) as nat;
        let q = (MAX_SCALE - s) as nat;
        lemma_pow10_add(d, q);
        assert(d + q == (MAX_SCALE - s2) as nat);
        lemma_pow10_positive(q);
        let pd = pow10(d);
        let pq = pow10(q);
        let k = pow10((d - 1) as nat);
        assert(pd == 10 * k);
        assert(m * pq == (m2 * pd) * pq) by (nonlinear_arith)
            requires
                m * pq == m2 * (pd * pq),
        ;
        assert(m == m2 * pd) by (nonlinear_arith)
            requires
                m * pq == (m2 * pd) * pq,
                pq >= 1,
        ;
        assert(m == (m2 * k) * 10) by (nonlinear_arith)
            requires
                m == m2 * pd,
                pd == 10 * k,
        ;
        vstd::arithmetic::div_mod::lemma_mod_multiples_basic(m2 * k, 10);
        assert(false);
    } else {
        let d = (s2 - s) as nat;
        let q = (MAX_SCALE - s2) as nat;
        lemma_pow10_add(d, q);
        assert(d + q == (MAX_SCALE - s) as nat);
        lemma_pow10_positive(q);
        lemma_pow10_positive(d);
        let pd = pow10(d);
        let pq = pow10(q);
        assert((m * pd) * pq == m2 * pq) by (nonlinear_arith)
            requires
                m * (pd * pq) == m2 * pq,
        ;
        assert(m2 == m * pd) by (nonlinear_arith)
            requires
                (m * pd) * pq == m2 * pq,
                pq >= 1,
        ;
        assert(in_range(m)) by (nonlinear_arith)
            requires
                m2 == m * pd,
                pd >= 1,
                in_range(m2),
        ;
    }
}

/// A value whose canonical form is out of range has no form in range.
proof fn lemma_canonical_decides(m: int, s: nat)
    requires
        s <= MAX_SCALE,
        canonical(m, s),
    ensures
        representable(units_of(m, s)) == in_range(m),
{
    if representable(units_of(m, s)) {
        let (m2, s2) = choose|m2: int, s2: nat|
            s2 <= MAX_SCALE && in_range(m2) && #[trigger] units_of(m2, s2) == units_of(m, s);
        lemma_canonical_minimal(m, s, m2, s2);
    }
    if in_range(m) {
        assert(units_of(m, s) == units_of(m, s));
    }
}

/// Drops trailing zeros of `m` at scale `s`, keeping the value.
fn canonicalize(m: i128, s: u32) -> (r: (i128, u32))
    requires
        s <= MAX_SCALE,
    ensures
        r.1 <= s,
        canonical(r.0 as int, r.1 as nat),
        units_of(r.0 as int, r.1 as nat) == units_of(m as int, s as nat),
        in_range(m as int) ==> in_range(r.0 as int),
{
    let mut cm: i128 = m;
    let mut cs: u32 = s;
    while cs > 0 && cm % 10 == 0
        invariant
            cs <= s,
            s <= MAX_SCALE,
            units_of(cm as int, cs as nat) == units_of(m as int, s as nat),
            in_range(m as int) ==> in_range(cm as int),
        decreases cs,
    {
        let next: i128 = cm / 10;
        proof {
            assert(cm == next * 10) by (nonlinear_arith)
                requires
                    cm % 10 == 0,
                    next == cm / 10,
            ;
            lemma_units_rescale(next as int, (cs - 1) as nat, 1);
            assert(pow10(0) == 1);
            assert(pow10(1) == 10 * pow10(0));
            assert(in_range(cm as int) ==> in_range(next as int)) by (nonlinear_arith)
                requires
                    cm == next * 10,
            ;
        }
        cm = next;
        cs = cs - 1;
    }
    (cm, cs)
}

/// Whether `ma / 10^sa + mb / 10^sb` is representable.
fn sum_representable(ma: i128, sa: u32, mb: i128, sb: u32) -> (r: bool)
    requires
        in_range(ma as int),
        in_range(mb as int),
        sa <= MAX_SCALE,
        sb <= MAX_SCALE,
    ensures
        r == representable(units_of(ma as int, sa as nat) + units_of(mb as int, sb as nat)),
{
    let (ca, xa) = canonicalize(ma, sa);
    let (cb, xb) = canonicalize(mb, sb);
    let s: u32 = if xa >= xb { xa } else { xb };
    let ghost u = units_of(ma as int, sa as nat) + units_of(mb as int, sb as nat);
    let ghost xt = ca * pow10((s - xa) as nat);
    let ghost yt = cb * pow10((s - xb) as nat);
    proof {
        lemma_units_rescale(ca as int, xa as nat, (s - xa) as nat);
        lemma_units_rescale(cb as int, xb as nat, (s - xb) as nat);
        let p = pow10((MAX_SCALE - s) as nat);
        assert(xt * p + yt * p == (xt + yt) * p) by (nonlinear_arith);
        assert(u == units_of(xt + yt, s as nat));
    }
    let x = scale_up(ca, s - xa);
    let y = scale_up(cb, s - xb);
    match (x, y) {
        (Some(x), Some(y)) => {
            let sum: i128 = x + y;
            let (cm, cs) = canonicalize(sum, s);
            proof {
                lemma_canonical_decides(cm as int, cs as nat);
            }
            -MAX_MANTISSA <= cm && cm <= MAX_MANTISSA
        },
        _ => {
            proof {
                // One operand was scaled up, so the other keeps its last
                // nonzero digit, and so does the sum, which is too large.
                let (big, small, d) = if x is None {
                    (ca as int, cb as int, (s - xa) as nat)
                } else {
                    (cb as int, ca as int, (s - xb) as nat)
                };
                assert(d >= 1);
                assert(s > 0);
                assert(small % 10 != 0);
                let k = pow10((d - 1) as nat);
                assert(pow10(d) == 10 * k);
                let bt = big * pow10(d);
                assert(bt == (big * k) * 10) by (nonlinear_arith)
                    requires
                        bt == big * pow10(d),
                        pow10(d) == 10 * k,
                ;
                assert(xt + yt == bt + small);
                let t = xt + yt;
                vstd::arithmetic::div_mod::lemma_fundamental_div_mod(t, 10);
                if t % 10 == 0 {
                    assert(small == (t / 10 - big * k) * 10) by (nonlinear_arith)
                        requires
                            t == 10 * (t / 10) + t % 10,
                            t % 10 == 0,
                            t == (big * k) * 10 + small,
                    ;
                    vstd::arithmetic::div_mod::lemma_mod_multiples_basic(t / 10 - big * k, 10);
                }
                assert(canonical(t, s as nat));
                assert(!in_range(t));
                lemma_canonical_decides(t, s as nat);
            }
            false
        },
    }
}

} // verus!
