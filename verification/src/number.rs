//! Exact decimal numbers.
//!
//! A [`Number`] holds a sign, a mantissa and a decimal scale, and stands for
//! the rational value `(-1)^neg * mant / 10^scale`.  Every number produced by
//! this crate is kept in canonical form (see [`Number::is_normal`]): zero is
//! `(false, 0, 0)`, and a nonzero mantissa keeps no trailing zero digit while
//! fractional digits remain.  In canonical form two numbers denote the same
//! value exactly when their fields are equal, so the derived `==` decides
//! value equality.

use vstd::prelude::*;

verus! {

/// `10^n`.
pub open spec fn pow10(n: nat) -> nat
    decreases n,
{
    if n == 0 {
        1
    } else {
        10 * pow10((n - 1) as nat)
    }
}

/// An exact decimal number `(-1)^neg * mant / 10^scale`.
#[derive(Clone, Copy, Debug, PartialEq, Eq, Structural)]
pub struct Number {
    pub neg: bool,
    pub mant: u64,
    pub scale: u32,
}

/// Canonical form of a raw (sign, mantissa, scale) triple: a zero mantissa
/// collapses to `(false, 0, 0)`, and trailing zero digits of the mantissa are
/// traded against the scale.
pub open spec fn norm_spec(neg: bool, mant: nat, scale: nat) -> (bool, nat, nat)
    decreases scale,
{
    if mant == 0 {
        (false, 0, 0)
    } else if scale == 0 {
        (neg, mant, 0)
    } else if mant % 10 == 0 {
        norm_spec(neg, mant / 10, (scale - 1) as nat)
    } else {
        (neg, mant, scale)
    }
}

/// The canonical number for a raw triple, or `None` when the canonical
/// mantissa or scale does not fit the machine fields.
pub open spec fn fit_norm(neg: bool, mant: nat, scale: nat) -> Option<Number> {
    let (n2, m2, s2) = norm_spec(neg, mant, scale);
    if m2 <= u64::MAX && s2 <= u32::MAX {
        Some(Number { neg: n2, mant: m2 as u64, scale: s2 as u32 })
    } else {
        None
    }
}

/// The canonical form of a number.
pub open spec fn normal(n: Number) -> Number {
    let (n2, m2, s2) = norm_spec(n.neg, n.mant as nat, n.scale as nat);
    Number { neg: n2, mant: m2 as u64, scale: s2 as u32 }
}

impl Number {
    /// Whether this number is in canonical form.
    pub open spec fn is_normal(self) -> bool {
        normal(self) == self
    }
}

/// The signed mantissa of a number.
pub open spec fn sign_val(n: Number) -> int {
    if n.neg {
        -(n.mant as int)
    } else {
        n.mant as int
    }
}

/// Sum of two canonical numbers: both mantissas are brought to the larger
/// scale and added as integers.
pub open spec fn add_raw(a: Number, b: Number) -> Option<Number> {
    let s: nat = if a.scale >= b.scale {
        a.scale as nat
    } else {
        b.scale as nat
    };
    let v: int = sign_val(a) * pow10((s - a.scale as nat) as nat) + sign_val(b) * pow10(
        (s - b.scale as nat) as nat,
    );
    fit_norm(v < 0, (if v < 0 { -v } else { v }) as nat, s)
}

/// The exact sum of two numbers in canonical form, or `None` on overflow.
pub open spec fn spec_add(a: Number, b: Number) -> Option<Number> {
    add_raw(normal(a), normal(b))
}

/// The number with the opposite sign.
pub open spec fn spec_neg(n: Number) -> Number {
    Number { neg: !n.neg, mant: n.mant, scale: n.scale }
}

/// The exact difference of two numbers in canonical form, or `None` on
/// overflow.
pub open spec fn spec_sub(a: Number, b: Number) -> Option<Number> {
    spec_add(a, spec_neg(b))
}

/// Product of two canonical numbers: mantissas multiply and scales add.
pub open spec fn mul_raw(a: Number, b: Number) -> Option<Number> {
    fit_norm(a.neg != b.neg, a.mant as nat * b.mant as nat, a.scale as nat + b.scale as nat)
}

/// The exact product of two numbers in canonical form, or `None` on overflow.
pub open spec fn spec_mul(a: Number, b: Number) -> Option<Number> {
    mul_raw(normal(a), normal(b))
}

proof fn lemma_pow10_pos(n: nat)
    ensures
        pow10(n) >= 1,
    decreases n,
{
    if n > 0 {
        lemma_pow10_pos((n - 1) as nat);
    }
}

proof fn lemma_pow10_mono(a: nat, b: nat)
    requires
        a <= b,
    ensures
        pow10(a) <= pow10(b),
    decreases b,
{
    if a < b {
        lemma_pow10_mono(a, (b - 1) as nat);
    }
}

proof fn lemma_pow10_20()
    ensures
        pow10(18) == 1_000_000_000_000_000_000,
        pow10(19) == 10_000_000_000_000_000_000,
        pow10(20) == 100_000_000_000_000_000_000,
{
    reveal_with_fuel(pow10, 21);
}

/// Shape of the canonical triple: the mantissa and scale only shrink, the
/// sign survives a nonzero mantissa, zero collapses fully, and no trailing
/// zero digit remains beside a positive scale.
proof fn lemma_norm_shape(neg: bool, mant: nat, scale: nat)
    ensures
        ({
            let (n2, m2, s2) = norm_spec(neg, mant, scale);
            &&& m2 <= mant
            &&& s2 <= scale
            &&& (m2 == 0 <==> mant == 0)
            &&& (mant == 0 ==> n2 == false && m2 == 0 && s2 == 0)
            &&& (m2 != 0 ==> n2 == neg)
            &&& (s2 > 0 ==> m2 % 10 != 0)
        }),
    decreases scale,
{
    if mant != 0 && scale != 0 && mant % 10 == 0 {
        lemma_norm_shape(neg, mant / 10, (scale - 1) as nat);
    }
}

/// A triple already in canonical shape is its own canonical form.
proof fn lemma_norm_fixed(neg: bool, mant: nat, scale: nat)
    requires
        mant == 0 ==> neg == false && scale == 0,
        scale > 0 ==> mant % 10 != 0,
    ensures
        norm_spec(neg, mant, scale) == (neg, mant, scale),
{
}

/// Appending `k` zero digits to the mantissa while raising the scale by `k`
/// does not change the canonical form.
proof fn lemma_norm_strip(neg: bool, mant: nat, k: nat, s: nat)
    requires
        k <= s,
    ensures
        norm_spec(neg, mant * pow10(k), s) == norm_spec(neg, mant, (s - k) as nat),
    decreases k,
{
    if k > 0 {
        let p: nat = pow10((k - 1) as nat);
        assert(mant * pow10(k) == (mant * p) * 10) by (nonlinear_arith)
            requires
                pow10(k) == 10 * p,
        ;
        if mant == 0 {
            assert(mant * pow10(k) == 0) by (nonlinear_arith)
                requires
                    mant == 0,
            ;
            assert(norm_spec(neg, mant * pow10(k), s) == (false, 0nat, 0nat));
            assert(norm_spec(neg, mant, (s - k) as nat) == (false, 0nat, 0nat));
        } else {
            lemma_pow10_pos((k - 1) as nat);
            assert(mant * p >= 1) by (nonlinear_arith)
                requires
                    mant >= 1 && p >= 1,
            ;
            assert(((mant * p) * 10) % 10 == 0) by (nonlinear_arith);
            assert(((mant * p) * 10) / 10 == mant * p) by (nonlinear_arith);
            lemma_norm_strip(neg, mant, (k - 1) as nat, (s - 1) as nat);
        }
    } else {
        assert(mant * pow10(0) == mant) by (nonlinear_arith)
            requires
                pow10(0) == 1,
        ;
    }
}

impl Number {
    /// The canonical number with the given sign, mantissa and scale.
    pub fn from_parts(neg: bool, mant: u64, scale: u32) -> (r: Number)
        ensures
            r == spec_from_parts(neg, mant, scale),
            r.is_normal(),
        decreases scale,
    {
        proof {
            lemma_norm_shape(neg, mant as nat, scale as nat);
            let (n2, m2, s2) = norm_spec(neg, mant as nat, scale as nat);
            lemma_norm_fixed(n2, m2, s2);
        }
        if mant == 0 {
            Number { neg: false, mant: 0, scale: 0 }
        } else if scale > 0 && mant % 10 == 0 {
            Self::from_parts(neg, mant / 10, scale - 1)
        } else {
            Number { neg, mant, scale }
        }
    }

    /// This number with the opposite sign.
    pub fn negated(self) -> (r: Number)
        ensures
            r == spec_neg(self),
    {
        Number { neg: !self.neg, mant: self.mant, scale: self.scale }
    }
}

/// What `Number::from_parts` returns: the canonical form of the raw triple.
pub open spec fn spec_from_parts(neg: bool, mant: u64, scale: u32) -> Number {
    normal(Number { neg, mant, scale })
}

/// The decimal digit `d` as a character.
pub open spec fn digit_char(d: nat) -> char {
    if d == 0 {
        '0'
    } else if d == 1 {
        '1'
    } else if d == 2 {
        '2'
    } else if d == 3 {
        '3'
    } else if d == 4 {
        '4'
    } else if d == 5 {
        '5'
    } else if d == 6 {
        '6'
    } else if d == 7 {
        '7'
    } else if d == 8 {
        '8'
    } else {
        '9'
    }
}

/// The decimal digits of `n`, most significant first.
pub open spec fn dec_digits(n: nat) -> Seq<char>
    decreases n,
{
    if n < 10 {
        seq![digit_char(n)]
    } else {
        dec_digits(n / 10).push(digit_char(n % 10))
    }
}

/// `k` zero characters.
pub open spec fn zero_chars(k: nat) -> Seq<char>
    decreases k,
{
    if k == 0 {
        Seq::empty()
    } else {
        zero_chars((k - 1) as nat).push('0')
    }
}

/// A leading minus sign, or nothing.
pub open spec fn sign_chars(neg: bool) -> Seq<char> {
    if neg {
        seq!['-']
    } else {
        Seq::empty()
    }
}

/// The decimal text of a canonical number: the digits of the mantissa with a
/// point placed `scale` digits from the right, zero-padded on the left of the
/// point when the mantissa is short.
pub open spec fn render_raw(n: Number) -> Seq<char> {
    let ds = dec_digits(n.mant as nat);
    let sign = sign_chars(n.neg);
    if n.scale == 0 {
        sign + ds
    } else if ds.len() > n.scale {
        sign + ds.subrange(0, ds.len() - n.scale as nat) + seq!['.'] + ds.subrange(
            ds.len() - n.scale as nat,
            ds.len() as int,
        )
    } else {
        sign + seq!['0', '.'] + zero_chars((n.scale as nat - ds.len()) as nat) + ds
    }
}

/// The decimal text of a number, rendered in canonical form.
pub open spec fn render_number(n: Number) -> Seq<char> {
    render_raw(normal(n))
}

/// The decimal digit `d` as a character.
fn digit_char_exec(d: u64) -> (c: char)
    requires
        d < 10,
    ensures
        c == digit_char(d as nat),
{
    if d == 0 {
        '0'
    } else if d == 1 {
        '1'
    } else if d == 2 {
        '2'
    } else if d == 3 {
        '3'
    } else if d == 4 {
        '4'
    } else if d == 5 {
        '5'
    } else if d == 6 {
        '6'
    } else if d == 7 {
        '7'
    } else if d == 8 {
        '8'
    } else {
        '9'
    }
}

/// The decimal digits of `n`, most significant first.
fn digits_vec(n: u64) -> (v: Vec<char>)
    ensures
        v@ == dec_digits(n as nat),
    decreases n,
{
    if n < 10 {
        let mut v: Vec<char> = Vec::new();
        v.push(digit_char_exec(n));
        proof {
            assert(v@ =~= dec_digits(n as nat));
        }
        v
    } else {
        let mut v = digits_vec(n / 10);
        v.push(digit_char_exec(n % 10));
        proof {
            assert(v@ =~= dec_digits(n as nat));
        }
        v
    }
}

/// Appends `src[from..to]` to `dst`.
pub(crate) fn extend_chars(dst: &mut Vec<char>, src: &Vec<char>, from: usize, to: usize)
    requires
        from <= to <= src@.len(),
    ensures
        final(dst)@ == old(dst)@ + src@.subrange(from as int, to as int),
{
    let mut i: usize = from;
    while i < to
        invariant
            from <= i <= to <= src@.len(),
            dst@ == old(dst)@ + src@.subrange(from as int, i as int),
        decreases to - i,
    {
        let c = src[i];
        dst.push(c);
        i = i + 1;
        proof {
            assert(dst@ =~= old(dst)@ + src@.subrange(from as int, i as int));
        }
    }
    proof {
        assert(dst@ =~= old(dst)@ + src@.subrange(from as int, to as int));
    }
}

/// The canonical number for a raw triple held in machine words, or `None`
/// when it does not fit.
fn fit_norm_exec(neg: bool, mant: u128, scale: u64) -> (r: Option<Number>)
    ensures
        r == fit_norm(neg, mant as nat, scale as nat),
    decreases scale,
{
    if mant != 0 && scale > 0 && mant % 10 == 0 {
        fit_norm_exec(neg, mant / 10, scale - 1)
    } else if mant == 0 {
        Some(Number { neg: false, mant: 0, scale: 0 })
    } else if mant <= u64::MAX as u128 && scale <= u32::MAX as u64 {
        Some(Number { neg, mant: mant as u64, scale: scale as u32 })
    } else {
        None
    }
}

/// `10^d` as a machine word.
fn pow10_u64(d: u32) -> (r: u64)
    requires
        d <= 19,
    ensures
        r as nat == pow10(d as nat),
    decreases d,
{
    proof {
        lemma_pow10_20();
    }
    if d == 0 {
        1
    } else {
        let sub = pow10_u64(d - 1);
        proof {
            lemma_pow10_mono((d - 1) as nat, 18);
        }
        10 * sub
    }
}

/// The two orders of summing give the same number.
proof fn lemma_add_raw_comm(a: Number, b: Number)
    ensures
        add_raw(a, b) == add_raw(b, a),
{
}

/// Adding an (unnormalised) zero yields the canonical other operand.
proof fn lemma_add_raw_zero(z: Number, b: Number)
    requires
        z.mant == 0,
        b.is_normal(),
    ensures
        add_raw(z, b) == Some(b),
        add_raw(b, z) == Some(b),
{
    let s: nat = if z.scale >= b.scale {
        z.scale as nat
    } else {
        b.scale as nat
    };
    let dz: nat = (s - z.scale as nat) as nat;
    let db: nat = (s - b.scale as nat) as nat;
    let pz: nat = pow10(dz);
    let pb: nat = pow10(db);
    assert(sign_val(z) == 0);
    assert(sign_val(z) * pow10(dz) == 0) by (nonlinear_arith)
        requires
            sign_val(z) == 0,
    ;
    let v: int = sign_val(b) * pb;
    lemma_pow10_pos(db);
    lemma_norm_shape(b.neg, b.mant as nat, b.scale as nat);
    let mb: nat = b.mant as nat * pb;
    if b.mant == 0 {
        assert(v == 0) by (nonlinear_arith)
            requires
                v == sign_val(b) * pb && sign_val(b) == 0,
        ;
        assert(b == Number { neg: false, mant: 0u64, scale: 0u32 });
        assert(fit_norm(false, 0, s) == Some(b));
    } else {
        assert(mb >= 1) by (nonlinear_arith)
            requires
                mb == b.mant as nat * pb && pb >= 1 && b.mant >= 1,
        ;
        if b.neg {
            assert(v == -(mb as int)) by (nonlinear_arith)
                requires
                    v == -(b.mant as int) * pb && mb == b.mant as nat * pb,
            ;
        } else {
            assert(v == mb as int) by (nonlinear_arith)
                requires
                    v == b.mant as int * pb && mb == b.mant as nat * pb,
            ;
        }
        assert((if v < 0 {
            -v
        } else {
            v
        }) as nat == mb);
        assert((v < 0) == b.neg);
        lemma_norm_strip(b.neg, b.mant as nat, db, s);
        assert((s - db) as nat == b.scale as nat);
        assert(norm_spec(b.neg, mb, s) == norm_spec(b.neg, b.mant as nat, b.scale as nat));
        assert(fit_norm(b.neg, mb, s) == Some(b));
    }
    lemma_add_raw_comm(z, b);
}

/// When both operands are nonzero, canonical, and their scales lie twenty or
/// more decimal places apart, the aligned sum cannot fit a machine mantissa.
proof fn lemma_add_overflow(a: Number, b: Number)
    requires
        a.is_normal(),
        b.is_normal(),
        a.mant > 0,
        b.mant > 0,
        b.scale >= a.scale,
        b.scale - a.scale >= 20,
    ensures
        add_raw(a, b) == None::<Number>,
{
    let s: nat = b.scale as nat;
    let da: nat = (s - a.scale as nat) as nat;
    assert(da >= 20);
    let pa: nat = pow10(da);
    lemma_pow10_20();
    lemma_pow10_mono(20, da);
    let va: nat = a.mant as nat * pa;
    assert(va >= pa) by (nonlinear_arith)
        requires
            va == a.mant as nat * pa && a.mant >= 1 && pa >= 0,
    ;
    // `va` ends in a zero digit, the mantissa of `b` does not.
    let pp: nat = pow10((da - 1) as nat);
    let half: nat = a.mant as nat * pp;
    assert(va == 10 * half) by (nonlinear_arith)
        requires
            va == a.mant as nat * pa && pa == 10 * pp && half == a.mant as nat * pp,
    ;
    assert(va % 10 == 0) by (nonlinear_arith)
        requires
            va == 10 * half,
    ;
    lemma_norm_shape(b.neg, b.mant as nat, b.scale as nat);
    assert(b.scale > 0);
    assert(b.mant % 10 != 0);
    let v: int = sign_val(a) * pa + sign_val(b) * pow10((s - b.scale as nat) as nat);
    assert(pow10((s - b.scale as nat) as nat) == 1);
    assert(sign_val(b) * 1 == sign_val(b)) by (nonlinear_arith);
    if a.neg {
        assert(sign_val(a) * pa == -(va as int)) by (nonlinear_arith)
            requires
                sign_val(a) == -(a.mant as int) && va == a.mant as nat * pa,
        ;
    } else {
        assert(sign_val(a) * pa == va as int);
    }
    let m: nat = (if v < 0 {
        -v
    } else {
        v
    }) as nat;
    // In every sign combination the magnitude is va plus or minus b.mant.
    assert(m == va + b.mant || m == va - b.mant) by {
        assert(va > b.mant as nat);
    }
    assert(m % 10 == b.mant as nat % 10 || m % 10 == (10 - b.mant as nat % 10) % 10) by {
        if m == va + b.mant {
            assert((10 * (half as int) + b.mant as int) % 10 == b.mant as int % 10)
                by (nonlinear_arith)
                requires
                    b.mant as int >= 0,
            ;
        } else {
            assert((10 * (half as int) - b.mant as int) % 10 == (10 - b.mant as int % 10) % 10)
                by (nonlinear_arith)
                requires
                    0 < b.mant as int % 10 < 10,
            ;
        }
    }
    assert(m % 10 != 0);
    assert(m > u64::MAX) by {
        assert(va >= pow10(20));
        assert(m >= va - b.mant);
    }
    assert(norm_spec(v < 0, m, s) == (v < 0, m, s));
    assert(fit_norm(v < 0, m, s) == None::<Number>);
}

impl Number {
    /// The exact sum, or `None` when the result cannot be represented.
    pub fn checked_add(self, other: Number) -> (r: Option<Number>)
        ensures
            r == spec_add(self, other),
    {
        let a = Number::from_parts(self.neg, self.mant, self.scale);
        let b = Number::from_parts(other.neg, other.mant, other.scale);
        proof {
            assert(Number { neg: self.neg, mant: self.mant, scale: self.scale } == self);
            assert(Number { neg: other.neg, mant: other.mant, scale: other.scale } == other);
        }
        if a.mant == 0 {
            proof {
                lemma_add_raw_zero(a, b);
            }
            return Some(b);
        }
        if b.mant == 0 {
            proof {
                lemma_add_raw_zero(b, a);
            }
            return Some(a);
        }
        let s: u32 = if a.scale >= b.scale {
            a.scale
        } else {
            b.scale
        };
        let da: u32 = s - a.scale;
        let db: u32 = s - b.scale;
        if da >= 20 {
            proof {
                lemma_add_overflow(a, b);
            }
            return None;
        }
        if db >= 20 {
            proof {
                lemma_add_overflow(b, a);
                lemma_add_raw_comm(a, b);
            }
            return None;
        }
        proof {
            lemma_pow10_20();
            lemma_pow10_mono(da as nat, 19);
            lemma_pow10_mono(db as nat, 19);
            lemma_pow10_pos(da as nat);
            lemma_pow10_pos(db as nat);
        }
        let pa: u64 = pow10_u64(da);
        let pb: u64 = pow10_u64(db);
        proof {
            assert(a.mant as int * pa as int <= u64::MAX as int * pow10(19) as int)
                by (nonlinear_arith)
                requires
                    a.mant <= u64::MAX && pa as nat <= pow10(19) && pa >= 0,
            ;
            assert(b.mant as int * pb as int <= u64::MAX as int * pow10(19) as int)
                by (nonlinear_arith)
                requires
                    b.mant <= u64::MAX && pb as nat <= pow10(19) && pb >= 0,
            ;
        }
        let va: u128 = (a.mant as u128) * (pa as u128);
        let vb: u128 = (b.mant as u128) * (pb as u128);
        proof {
            // At least one side is unscaled, so the sum stays well inside `u128`.
            assert(da == 0 || db == 0);
            if da == 0 {
                assert(va == a.mant as nat * 1);
            }
            if db == 0 {
                assert(vb == b.mant as nat * 1);
            }
            assert(va >= 1 && vb >= 1) by (nonlinear_arith)
                requires
                    a.mant >= 1 && b.mant >= 1 && pa >= 1 && pb >= 1 && va == a.mant as int
                        * pa as int && vb == b.mant as int * pb as int,
            ;
            if a.neg {
                assert(sign_val(a) * pow10(da as nat) == -(va as int)) by (nonlinear_arith)
                    requires
                        sign_val(a) == -(a.mant as int) && va as int == a.mant as int * pow10(
                            da as nat,
                        ),
                ;
            }
            if b.neg {
                assert(sign_val(b) * pow10(db as nat) == -(vb as int)) by (nonlinear_arith)
                    requires
                        sign_val(b) == -(b.mant as int) && vb as int == b.mant as int * pow10(
                            db as nat,
                        ),
                ;
            }
        }
        if a.neg == b.neg {
            let m: u128 = va + vb;
            fit_norm_exec(a.neg, m, s as u64)
        } else if va >= vb {
            let m: u128 = va - vb;
            fit_norm_exec(a.neg, m, s as u64)
        } else {
            let m: u128 = vb - va;
            fit_norm_exec(b.neg, m, s as u64)
        }
    }

    /// The exact difference, or `None` when the result cannot be represented.
    pub fn checked_sub(self, other: Number) -> (r: Option<Number>)
        ensures
            r == spec_sub(self, other),
    {
        self.checked_add(other.negated())
    }

    /// The canonical decimal text of this number.
    pub fn render(&self) -> (r: Vec<char>)
        ensures
            r@ == render_number(*self),
    {
        let n = Number::from_parts(self.neg, self.mant, self.scale);
        proof {
            assert(Number { neg: self.neg, mant: self.mant, scale: self.scale } == *self);
        }
        let ds = digits_vec(n.mant);
        let mut out: Vec<char> = Vec::new();
        if n.neg {
            out.push('-');
        }
        if n.scale == 0 {
            extend_chars(&mut out, &ds, 0, ds.len());
            proof {
                assert(out@ =~= render_raw(n));
            }
        } else if ds.len() > n.scale as usize {
            let cut: usize = ds.len() - n.scale as usize;
            extend_chars(&mut out, &ds, 0, cut);
            out.push('.');
            extend_chars(&mut out, &ds, cut, ds.len());
            proof {
                assert(out@ =~= render_raw(n));
            }
        } else {
            out.push('0');
            out.push('.');
            let pad: usize = n.scale as usize - ds.len();
            let mut i: usize = 0;
            while i < pad
                invariant
                    i <= pad,
                    out@ == sign_chars(n.neg) + seq!['0', '.'] + zero_chars(i as nat),
                decreases pad - i,
            {
                out.push('0');
                i = i + 1;
                proof {
                    assert(out@ =~= sign_chars(n.neg) + seq!['0', '.'] + zero_chars(i as nat));
                }
            }
            extend_chars(&mut out, &ds, 0, ds.len());
            proof {
                assert(out@ =~= render_raw(n));
            }
        }
        out
    }

    /// The exact product, or `None` when the result cannot be represented.
    pub fn checked_mul(self, other: Number) -> (r: Option<Number>)
        ensures
            r == spec_mul(self, other),
    {
        let a = Number::from_parts(self.neg, self.mant, self.scale);
        let b = Number::from_parts(other.neg, other.mant, other.scale);
        proof {
            assert(Number { neg: self.neg, mant: self.mant, scale: self.scale } == self);
            assert(Number { neg: other.neg, mant: other.mant, scale: other.scale } == other);
            assert(a.mant as int * b.mant as int <= u64::MAX as int * u64::MAX as int)
                by (nonlinear_arith)
                requires
                    0 <= a.mant <= u64::MAX && 0 <= b.mant <= u64::MAX,
            ;
        }
        let m: u128 = (a.mant as u128) * (b.mant as u128);
        let s: u64 = (a.scale as u64) + (b.scale as u64);
        fit_norm_exec(a.neg != b.neg, m, s)
    }
}

} // verus!
