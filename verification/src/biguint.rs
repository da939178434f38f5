//! Natural numbers of unbounded size, held as 32-bit limbs.

use vstd::arithmetic::div_mod::{lemma_div_denominator, lemma_fundamental_div_mod_converse};
use vstd::arithmetic::power2::{lemma2_to64, lemma_pow2_unfold, pow2};
use vstd::prelude::*;

verus! {

/// The radix of one limb, `2^32`.
const LIMB_BASE: u64 = 0x1_0000_0000;

/// `LIMB_BASE` to the power `n`.
spec fn pow_base(n: nat) -> nat
    decreases n,
{
    if n == 0 {
        1
    } else {
        0x1_0000_0000 * pow_base((n - 1) as nat)
    }
}

/// The limb at position `i`, zero beyond the end.
spec fn limb_at(s: Seq<u32>, i: int) -> nat {
    if 0 <= i < s.len() {
        s[i] as nat
    } else {
        0
    }
}

/// The number that the lowest `n` limbs of `s` stand for, least significant first.
spec fn partial_value(s: Seq<u32>, n: nat) -> nat
    decreases n,
{
    if n == 0 {
        0
    } else {
        partial_value(s, (n - 1) as nat) + limb_at(s, n - 1) * pow_base((n - 1) as nat)
    }
}

/// The number that a little-endian sequence of limbs stands for.
spec fn limbs_value(s: Seq<u32>) -> nat {
    partial_value(s, s.len())
}

/// No superfluous high zero limb.
spec fn trimmed(s: Seq<u32>) -> bool {
    s.len() == 0 || s.last() != 0
}

proof fn lemma_pow_base_positive(n: nat)
    ensures
        pow_base(n) > 0,
    decreases n,
{
    if n > 0 {
        lemma_pow_base_positive((n - 1) as nat);
    }
}

proof fn lemma_mul_le(a: nat, b: nat, p: nat)
    by (nonlinear_arith)
    requires
        a <= b,
    ensures
        a * p <= b * p,
{
}

proof fn lemma_mul_distributes(a: int, b: int, p: int)
    by (nonlinear_arith)
    ensures
        (a + b) * p == a * p + b * p,
        p * (a + b) == p * a + p * b,
        (a - b) * p == a * p - b * p,
{
}

proof fn lemma_mul_assoc(a: int, b: int, c: int)
    by (nonlinear_arith)
    ensures
        (a * b) * c == a * (b * c),
        a * b == b * a,
{
}

/// Two sequences that agree on their lowest `n` limbs have the same partial value there.
proof fn lemma_partial_agree(s: Seq<u32>, t: Seq<u32>, n: nat)
    requires
        forall|k: int| 0 <= k < n ==> limb_at(s, k) == limb_at(t, k),
    ensures
        partial_value(s, n) == partial_value(t, n),
    decreases n,
{
    if n > 0 {
        lemma_partial_agree(s, t, (n - 1) as nat);
    }
}

/// Limbs beyond the end add nothing.
proof fn lemma_partial_beyond(s: Seq<u32>, n: nat)
    requires
        n >= s.len(),
    ensures
        partial_value(s, n) == limbs_value(s),
    decreases n,
{
    if n > s.len() {
        lemma_partial_beyond(s, (n - 1) as nat);
        assert(limb_at(s, n - 1) == 0);
        assert(limb_at(s, n - 1) * pow_base((n - 1) as nat) == 0) by (nonlinear_arith)
            requires
                limb_at(s, n - 1) == 0,
        ;
    }
}

/// A partial value over `n` limbs is below `LIMB_BASE^n`.
proof fn lemma_partial_bound(s: Seq<u32>, n: nat)
    ensures
        partial_value(s, n) < pow_base(n),
    decreases n,
{
    if n > 0 {
        lemma_partial_bound(s, (n - 1) as nat);
        let p = pow_base((n - 1) as nat);
        lemma_mul_le(limb_at(s, n - 1), 0xffff_ffff, p);
    }
}

proof fn lemma_value_bound(s: Seq<u32>)
    ensures
        limbs_value(s) < pow_base(s.len()),
{
    lemma_partial_bound(s, s.len());
}

/// A sequence whose top limb is not zero stands for at least `LIMB_BASE^(len - 1)`.
proof fn lemma_value_lower_bound(s: Seq<u32>)
    requires
        s.len() > 0,
        s.last() != 0,
    ensures
        limbs_value(s) >= pow_base((s.len() - 1) as nat),
{
    let p = pow_base((s.len() - 1) as nat);
    lemma_mul_le(1, limb_at(s, s.len() - 1), p);
}

/// Appending a limb adds it at the next weight.
proof fn lemma_value_push(s: Seq<u32>, x: u32)
    ensures
        limbs_value(s.push(x)) == limbs_value(s) + x * pow_base(s.len()),
{
    let t = s.push(x);
    assert forall|k: int| 0 <= k < s.len() implies limb_at(t, k) == limb_at(s, k) by {}
    lemma_partial_agree(t, s, s.len());
    assert(limb_at(t, s.len() as int) == x);
}

/// Dropping a zero top limb keeps the value.
proof fn lemma_value_drop_zero(s: Seq<u32>)
    requires
        s.len() > 0,
        s.last() == 0,
    ensures
        limbs_value(s.drop_last()) == limbs_value(s),
{
    let t = s.drop_last();
    assert(t.push(0u32) =~= s);
    lemma_value_push(t, 0u32);
    assert(0 * pow_base(t.len()) == 0) by (nonlinear_arith);
}

/// Horner's form: the value is the lowest limb plus `LIMB_BASE` times the value of the rest.
proof fn lemma_value_horner(s: Seq<u32>)
    requires
        s.len() > 0,
    ensures
        limbs_value(s) == s[0] + 0x1_0000_0000 * limbs_value(s.skip(1)),
    decreases s.len(),
{
    if s.len() == 1 {
        assert(s.skip(1).len() == 0);
        assert(partial_value(s, 0) == 0);
        assert(limbs_value(s) == partial_value(s, 0) + limb_at(s, 0) * pow_base(0));
        assert(limb_at(s, 0) * pow_base(0) == s[0]) by (nonlinear_arith)
            requires
                pow_base(0) == 1,
                limb_at(s, 0) == s[0],
        ;
    } else {
        let d = s.drop_last();
        let r = s.skip(1);
        let x = s.last();
        assert(d.push(x) =~= s);
        assert(r.drop_last() =~= d.skip(1));
        assert(r.drop_last().push(x) =~= r);
        lemma_value_horner(d);
        lemma_value_push(d, x);
        lemma_value_push(r.drop_last(), x);
        let p = pow_base((s.len() - 2) as nat);
        assert(pow_base((s.len() - 1) as nat) == 0x1_0000_0000 * p);
        assert(x * (0x1_0000_0000 * p) == 0x1_0000_0000 * (x * p)) by (nonlinear_arith);
        assert(0x1_0000_0000 * (limbs_value(d.skip(1)) + x * p) == 0x1_0000_0000 * limbs_value(
            d.skip(1),
        ) + 0x1_0000_0000 * (x * p)) by (nonlinear_arith);
    }
}

/// Among sequences of one length, the highest limb that differs decides the order.
proof fn lemma_value_order(a: Seq<u32>, b: Seq<u32>, i: int, n: nat)
    requires
        a.len() == b.len(),
        0 <= i < n <= a.len(),
        a[i] < b[i],
        forall|k: int| i < k < a.len() ==> a[k] == b[k],
    ensures
        partial_value(a, n) < partial_value(b, n),
    decreases n,
{
    if n == i + 1 {
        lemma_partial_bound(a, i as nat);
        let p = pow_base(i as nat);
        lemma_mul_le((a[i] + 1) as nat, b[i] as nat, p);
        lemma_mul_distributes(a[i] as int, 1, p as int);
    } else {
        lemma_value_order(a, b, i, (n - 1) as nat);
    }
}

/// A natural number of any size.
#[derive(Debug)]
pub struct BigUint {
    limbs: Vec<u32>,
}

impl View for BigUint {
    type V = nat;

    closed spec fn view(&self) -> nat {
        limbs_value(self.limbs@)
    }
}

impl BigUint {
    #[verifier::type_invariant]
    spec fn well_formed(&self) -> bool {
        trimmed(self.limbs@)
    }

    /// Builds the number that `limbs` stands for, dropping high zero limbs.
    fn from_limbs(limbs: Vec<u32>) -> (r: BigUint)
        ensures
            r@ == limbs_value(limbs@),
    {
        let mut limbs = limbs;
        let ghost value = limbs_value(limbs@);
        while limbs.len() > 0 && limbs[limbs.len() - 1] == 0
            invariant
                limbs_value(limbs@) == value,
            decreases limbs.len(),
        {
            proof {
                lemma_value_drop_zero(limbs@);
            }
            limbs.pop();
        }
        BigUint { limbs }
    }

    /// The number zero.
    pub fn zero() -> (r: BigUint)
        ensures
            r@ == 0,
    {
        BigUint { limbs: Vec::new() }
    }

    /// Whether this is zero.
    pub fn is_zero(&self) -> (r: bool)
        ensures
            r == (self@ == 0),
    {
        proof {
            use_type_invariant(self);
            if self.limbs@.len() > 0 {
                lemma_value_lower_bound(self.limbs@);
                lemma_pow_base_positive((self.limbs@.len() - 1) as nat);
            }
        }
        self.limbs.len() == 0
    }

    /// The number `x`.
    pub fn from_u64(x: u64) -> (r: BigUint)
        ensures
            r@ == x,
    {
        let mut limbs: Vec<u32> = Vec::new();
        let low: u32 = (x % LIMB_BASE) as u32;
        let high: u32 = (x / LIMB_BASE) as u32;
        limbs.push(low);
        limbs.push(high);
        proof {
            let s = limbs@;
            assert(s =~= Seq::<u32>::empty().push(low).push(high));
            lemma_value_push(Seq::<u32>::empty(), low);
            lemma_value_push(Seq::<u32>::empty().push(low), high);
            assert(pow_base(1) == 0x1_0000_0000 * pow_base(0));
            assert(limbs_value(Seq::<u32>::empty()) == 0);
            assert(low * pow_base(0) == low) by (nonlinear_arith)
                requires
                    pow_base(0) == 1,
            ;
            assert(high * pow_base(1) == high * 0x1_0000_0000) by (nonlinear_arith)
                requires
                    pow_base(1) == 0x1_0000_0000,
            ;
        }
        BigUint::from_limbs(limbs)
    }
}

/// One step of a carry chain: the low limb of `t` at weight `p` and the rest one weight up.
proof fn lemma_carry_step(t: nat, p: nat)
    ensures
        (t % 0x1_0000_0000) * p + (t / 0x1_0000_0000) * (0x1_0000_0000 * p) == t * p,
{
    let q = t / 0x1_0000_0000;
    let r = t % 0x1_0000_0000;
    assert(t == 0x1_0000_0000 * q + r);
    assert(r * p + q * (0x1_0000_0000 * p) == (0x1_0000_0000 * q + r) * p) by (nonlinear_arith);
}

impl BigUint {
    fn limb(&self, i: usize) -> (r: u32)
        ensures
            r == limb_at(self.limbs@, i as int),
    {
        if i < self.limbs.len() {
            self.limbs[i]
        } else {
            0
        }
    }

    /// The sum of two numbers.
    pub fn add(&self, other: &BigUint) -> (r: BigUint)
        ensures
            r@ == self@ + other@,
    {
        let n = if self.limbs.len() >= other.limbs.len() {
            self.limbs.len()
        } else {
            other.limbs.len()
        };
        let mut out: Vec<u32> = Vec::new();
        let mut carry: u64 = 0;
        let mut i: usize = 0;
        while i < n
            invariant
                i <= n,
                out@.len() == i,
                carry <= 1,
                limbs_value(out@) + carry * pow_base(i as nat) == partial_value(
                    self.limbs@,
                    i as nat,
                ) + partial_value(other.limbs@, i as nat),
            decreases n - i,
        {
            let x = self.limb(i);
            let y = other.limb(i);
            let t: u64 = x as u64 + y as u64 + carry;
            let low: u32 = (t % LIMB_BASE) as u32;
            proof {
                let p = pow_base(i as nat);
                lemma_value_push(out@, low);
                lemma_carry_step(t as nat, p);
                lemma_mul_distributes(x as int + y as int, carry as int, p as int);
                lemma_mul_distributes(x as int, y as int, p as int);
            }
            out.push(low);
            carry = t / LIMB_BASE;
            i += 1;
        }
        proof {
            lemma_partial_beyond(self.limbs@, n as nat);
            lemma_partial_beyond(other.limbs@, n as nat);
            lemma_value_push(out@, carry as u32);
        }
        out.push(carry as u32);
        BigUint::from_limbs(out)
    }

    /// The difference of two numbers, the second being no larger than the first.
    pub fn sub(&self, other: &BigUint) -> (r: BigUint)
        requires
            other@ <= self@,
        ensures
            r@ == self@ - other@,
    {
        let n = if self.limbs.len() >= other.limbs.len() {
            self.limbs.len()
        } else {
            other.limbs.len()
        };
        let mut out: Vec<u32> = Vec::new();
        let mut borrow: u64 = 0;
        let mut i: usize = 0;
        while i < n
            invariant
                i <= n,
                out@.len() == i,
                borrow <= 1,
                limbs_value(out@) + partial_value(other.limbs@, i as nat) == partial_value(
                    self.limbs@,
                    i as nat,
                ) + borrow * pow_base(i as nat),
            decreases n - i,
        {
            let x = self.limb(i);
            let y = other.limb(i);
            let t: u64 = x as u64 + LIMB_BASE - y as u64 - borrow;
            let low: u32 = (t % LIMB_BASE) as u32;
            let next: u64 = 1 - t / LIMB_BASE;
            proof {
                let p = pow_base(i as nat);
                lemma_value_push(out@, low);
                lemma_carry_step(t as nat, p);
                lemma_mul_distributes(x as int + 0x1_0000_0000 - y as int, borrow as int, p as int);
                lemma_mul_distributes(x as int + 0x1_0000_0000, y as int, p as int);
                lemma_mul_distributes(x as int, 0x1_0000_0000, p as int);
                lemma_mul_distributes(1, (t / LIMB_BASE) as int, (0x1_0000_0000 * p) as int);
                lemma_mul_assoc(0x1_0000_0000, p as int, 1);
            }
            out.push(low);
            borrow = next;
            i += 1;
        }
        proof {
            lemma_partial_beyond(self.limbs@, n as nat);
            lemma_partial_beyond(other.limbs@, n as nat);
            lemma_value_bound(out@);
            if borrow == 1 {
                assert(1 * pow_base(n as nat) == pow_base(n as nat)) by (nonlinear_arith);
                assert(false);
            }
            assert(0 * pow_base(n as nat) == 0) by (nonlinear_arith);
        }
        BigUint::from_limbs(out)
    }

    /// This number times `m`, plus `c`.
    pub fn mul_add_u32(&self, m: u32, c: u32) -> (r: BigUint)
        ensures
            r@ == self@ * m + c,
    {
        let n = self.limbs.len();
        let mut out: Vec<u32> = Vec::new();
        let mut carry: u64 = c as u64;
        let mut i: usize = 0;
        proof {
            assert(carry * pow_base(0) == carry) by (nonlinear_arith)
                requires
                    pow_base(0) == 1,
            ;
            assert(0 * (m as int) == 0) by (nonlinear_arith);
        }
        while i < n
            invariant
                i <= n,
                n == self.limbs@.len(),
                out@.len() == i,
                carry <= 0xffff_ffff,
                limbs_value(out@) + carry * pow_base(i as nat) == partial_value(
                    self.limbs@,
                    i as nat,
                ) * m + c,
            decreases n - i,
        {
            let x = self.limbs[i];
            assert(x as u64 * m as u64 <= 0xffff_ffff * 0xffff_ffff) by (nonlinear_arith)
                requires
                    x <= 0xffff_ffff,
                    m <= 0xffff_ffff,
            ;
            let t: u64 = x as u64 * m as u64 + carry;
            let low: u32 = (t % LIMB_BASE) as u32;
            proof {
                let p = pow_base(i as nat);
                lemma_value_push(out@, low);
                lemma_carry_step(t as nat, p);
                lemma_mul_distributes((x as int) * (m as int), carry as int, p as int);
                lemma_mul_distributes(
                    partial_value(self.limbs@, i as nat) as int,
                    (x as int) * (p as int),
                    m as int,
                );
                assert(((x as int) * (m as int)) * (p as int) == ((x as int) * (p as int)) * (
                m as int)) by (nonlinear_arith);
            }
            out.push(low);
            carry = t / LIMB_BASE;
            i += 1;
        }
        proof {
            lemma_value_push(out@, carry as u32);
        }
        out.push(carry as u32);
        BigUint::from_limbs(out)
    }

    /// This number times `LIMB_BASE`.
    fn shift_limb(&self) -> (r: BigUint)
        ensures
            r@ == self@ * 0x1_0000_0000,
    {
        let n = self.limbs.len();
        let mut out: Vec<u32> = Vec::new();
        out.push(0);
        let mut i: usize = 0;
        while i < n
            invariant
                i <= n,
                n == self.limbs@.len(),
                out@ == seq![0u32] + self.limbs@.take(i as int),
            decreases n - i,
        {
            out.push(self.limbs[i]);
            proof {
                assert(self.limbs@.take(i + 1) =~= self.limbs@.take(i as int).push(
                    self.limbs@[i as int],
                ));
            }
            i += 1;
        }
        proof {
            assert(self.limbs@.take(n as int) =~= self.limbs@);
            assert(out@.skip(1) =~= self.limbs@);
            lemma_value_horner(out@);
        }
        BigUint::from_limbs(out)
    }

    /// The product of two numbers.
    pub fn mul(&self, other: &BigUint) -> (r: BigUint)
        ensures
            r@ == self@ * other@,
    {
        let mut acc = BigUint::zero();
        let mut j: usize = other.limbs.len();
        proof {
            assert(other.limbs@.skip(j as int).len() == 0);
            assert(self@ * 0 == 0) by (nonlinear_arith);
        }
        while j > 0
            invariant
                j <= other.limbs@.len(),
                acc@ == self@ * limbs_value(other.limbs@.skip(j as int)),
            decreases j,
        {
            j -= 1;
            let y = other.limbs[j];
            let shifted = acc.shift_limb();
            let term = self.mul_add_u32(y, 0);
            proof {
                let rest = other.limbs@.skip(j as int);
                assert(rest.skip(1) =~= other.limbs@.skip(j + 1));
                lemma_value_horner(rest);
                let a = self@ as int;
                let v = limbs_value(rest.skip(1)) as int;
                assert((a * v) * 0x1_0000_0000 + a * (y as int) == a * ((y as int) + 0x1_0000_0000
                    * v)) by (nonlinear_arith);
            }
            acc = shifted.add(&term);
        }
        proof {
            assert(other.limbs@.skip(0) =~= other.limbs@);
        }
        acc
    }
}

proof fn lemma_pow_base_monotonic(m: nat, n: nat)
    requires
        m <= n,
    ensures
        pow_base(m) <= pow_base(n),
    decreases n,
{
    if m < n {
        lemma_pow_base_monotonic(m, (n - 1) as nat);
        lemma_pow_base_positive((n - 1) as nat);
    }
}

/// One binary digit of a long division: doubling the dividend and adding `bit` doubles the
/// quotient, and the remainder gives up one divisor where it can.
proof fn lemma_division_bit(q: nat, r: nat, d: nat, bit: nat, taken: nat, t: nat)
    by (nonlinear_arith)
    requires
        q * d + r == t,
        taken <= 1,
        taken * d <= 2 * r + bit,
    ensures
        (2 * q + taken) * d + (2 * r + bit - taken * d) == 2 * t + bit,
{
}

impl BigUint {
    /// The sign of `self - other`: -1, 0 or 1.
    fn sign_of_difference(&self, other: &BigUint) -> (r: i8)
        ensures
            (r == -1) == (self@ < other@),
            (r == 0) == (self@ == other@),
            (r == 1) == (self@ > other@),
    {
        proof {
            use_type_invariant(self);
            use_type_invariant(other);
        }
        let n = self.limbs.len();
        let m = other.limbs.len();
        if n < m {
            proof {
                lemma_value_bound(self.limbs@);
                lemma_value_lower_bound(other.limbs@);
                lemma_pow_base_monotonic(n as nat, (m - 1) as nat);
            }
            return -1;
        }
        if n > m {
            proof {
                lemma_value_bound(other.limbs@);
                lemma_value_lower_bound(self.limbs@);
                lemma_pow_base_monotonic(m as nat, (n - 1) as nat);
            }
            return 1;
        }
        let mut i: usize = n;
        while i > 0
            invariant
                i <= n,
                n == self.limbs@.len(),
                n == other.limbs@.len(),
                forall|k: int| i <= k < n ==> self.limbs@[k] == other.limbs@[k],
            decreases i,
        {
            i -= 1;
            let x = self.limbs[i];
            let y = other.limbs[i];
            if x < y {
                proof {
                    lemma_value_order(self.limbs@, other.limbs@, i as int, n as nat);
                }
                return -1;
            }
            if x > y {
                proof {
                    lemma_value_order(other.limbs@, self.limbs@, i as int, n as nat);
                }
                return 1;
            }
        }
        proof {
            assert(self.limbs@ =~= other.limbs@);
        }
        0
    }

    /// Whether `self < other`.
    pub fn lt(&self, other: &BigUint) -> (r: bool)
        ensures
            r == (self@ < other@),
    {
        self.sign_of_difference(other) == -1
    }

    /// Whether `self <= other`.
    pub fn le(&self, other: &BigUint) -> (r: bool)
        ensures
            r == (self@ <= other@),
    {
        self.sign_of_difference(other) != 1
    }

    /// Whether `self > other`.
    pub fn gt(&self, other: &BigUint) -> (r: bool)
        ensures
            r == (self@ > other@),
    {
        self.sign_of_difference(other) == 1
    }

    /// Whether `self >= other`.
    pub fn ge(&self, other: &BigUint) -> (r: bool)
        ensures
            r == (self@ >= other@),
    {
        self.sign_of_difference(other) != -1
    }

    /// Brings one more limb `x` of the dividend down into a running long division by `d`.
    fn divide_limb(q: BigUint, r: BigUint, d: &BigUint, x: u32) -> (out: (BigUint, BigUint))
        requires
            r@ < d@,
        ensures
            out.0@ * d@ + out.1@ == (q@ * d@ + r@) * 0x1_0000_0000 + x,
            out.1@ < d@,
    {
        let ghost t0: nat = q@ * d@ + r@;
        let mut q = q;
        let mut r = r;
        let mut w: u64 = LIMB_BASE;
        let mut j: u32 = 32;
        proof {
            lemma2_to64();
            assert(t0 * 1 == t0) by (nonlinear_arith);
        }
        while j > 0
            invariant
                j <= 32,
                w == pow2(j as nat),
                1 <= w <= 0x1_0000_0000,
                r@ < d@,
                q@ * d@ + r@ == t0 * pow2((32 - j) as nat) + (x as nat) / (w as nat),
            decreases j,
        {
            proof {
                lemma_pow2_unfold(j as nat);
                lemma_pow2_unfold((32 - j + 1) as nat);
            }
            let half: u64 = w / 2;
            let high: u64 = x as u64 / half;
            let bit: u32 = (high % 2) as u32;
            proof {
                lemma_div_denominator(x as int, half as int, 2);
                assert((x as int) / (half as int * 2) == (x as int) / (w as int));
            }
            let doubled = r.mul_add_u32(2, bit);
            let fits = doubled.ge(d);
            let taken: u32 = if fits {
                1
            } else {
                0
            };
            proof {
                assert(taken * d@ <= 2 * r@ + bit) by (nonlinear_arith)
                    requires
                        taken == 0 || (taken == 1 && d@ <= 2 * r@ + bit),
                ;
                assert(taken * d@ == if fits {
                    d@
                } else {
                    0
                }) by (nonlinear_arith)
                    requires
                        taken == (if fits {
                            1nat
                        } else {
                            0nat
                        }),
                ;
                lemma_division_bit(q@, r@, d@, bit as nat, taken as nat, q@ * d@ + r@);
                let p = pow2((32 - j) as nat);
                assert(t0 * (2 * p) == 2 * (t0 * p)) by (nonlinear_arith);
            }
            let next_r = if fits {
                doubled.sub(d)
            } else {
                doubled
            };
            q = q.mul_add_u32(2, taken);
            r = next_r;
            w = half;
            j -= 1;
        }
        proof {
            lemma2_to64();
            assert((x as nat) / (w as nat) == x) by (nonlinear_arith)
                requires
                    w == 1,
            ;
        }
        (q, r)
    }

    /// The quotient and the remainder of the division by a divisor that is not zero.
    pub fn div_rem(&self, divisor: &BigUint) -> (out: (BigUint, BigUint))
        requires
            divisor@ > 0,
        ensures
            out.0@ == self@ / divisor@,
            out.1@ == self@ % divisor@,
    {
        let mut q = BigUint::zero();
        let mut r = BigUint::zero();
        let mut i: usize = self.limbs.len();
        proof {
            assert(self.limbs@.skip(i as int).len() == 0);
            assert(0 * divisor@ == 0) by (nonlinear_arith);
        }
        while i > 0
            invariant
                i <= self.limbs@.len(),
                r@ < divisor@,
                q@ * divisor@ + r@ == limbs_value(self.limbs@.skip(i as int)),
            decreases i,
        {
            i -= 1;
            let x = self.limbs[i];
            proof {
                let rest = self.limbs@.skip(i as int);
                assert(rest.skip(1) =~= self.limbs@.skip(i + 1));
                lemma_value_horner(rest);
            }
            let (next_q, next_r) = BigUint::divide_limb(q, r, divisor, x);
            q = next_q;
            r = next_r;
        }
        proof {
            assert(self.limbs@.skip(0) =~= self.limbs@);
            lemma_fundamental_div_mod_converse(
                self@ as int,
                divisor@ as int,
                q@ as int,
                r@ as int,
            );
        }
        (q, r)
    }

    /// The quotient of the division by a divisor that is not zero, rounded down.
    pub fn div(&self, divisor: &BigUint) -> (r: BigUint)
        requires
            divisor@ > 0,
        ensures
            r@ == self@ / divisor@,
    {
        let (q, _) = self.div_rem(divisor);
        q
    }
}

impl BigUint {
    /// The number `x`.
    pub fn from_u128(x: u128) -> (r: BigUint)
        ensures
            r@ == x,
    {
        let low: u64 = (x % 0x1_0000_0000_0000_0000) as u64;
        let high: u64 = (x / 0x1_0000_0000_0000_0000) as u64;
        let shifted = BigUint::from_u64(high).shift_limb().shift_limb();
        shifted.add(&BigUint::from_u64(low))
    }

    /// This number as a `u64`, where it fits.
    pub fn to_u64(&self) -> (r: Option<u64>)
        ensures
            r == (if self@ <= u64::MAX {
                Some(self@ as u64)
            } else {
                None
            }),
    {
        proof {
            use_type_invariant(self);
            let s = self.limbs@;
            assert(pow_base(0) == 1);
            assert(pow_base(1) == 0x1_0000_0000);
            assert(pow_base(2) == 0x1_0000_0000_0000_0000) by {
                assert(pow_base(2) == 0x1_0000_0000 * pow_base(1));
            }
            if s.len() > 2 {
                lemma_value_lower_bound(s);
                lemma_pow_base_monotonic(2, (s.len() - 1) as nat);
            } else {
                lemma_partial_beyond(s, 2);
                assert(partial_value(s, 0) == 0);
                assert(partial_value(s, 1) == partial_value(s, 0) + limb_at(s, 0) * pow_base(0));
                assert(partial_value(s, 2) == partial_value(s, 1) + limb_at(s, 1) * pow_base(1));
                assert(limb_at(s, 0) * pow_base(0) == limb_at(s, 0)) by (nonlinear_arith)
                    requires
                        pow_base(0) == 1,
                ;
                assert(limb_at(s, 1) * pow_base(1) == limb_at(s, 1) * 0x1_0000_0000)
                    by (nonlinear_arith)
                    requires
                        pow_base(1) == 0x1_0000_0000,
                ;
            }
        }
        if self.limbs.len() > 2 {
            None
        } else {
            Some(self.limb(0) as u64 + self.limb(1) as u64 * LIMB_BASE)
        }
    }
}

impl Clone for BigUint {
    fn clone(&self) -> (r: BigUint)
        ensures
            r@ == self@,
    {
        proof {
            use_type_invariant(self);
        }
        BigUint { limbs: self.limbs.clone() }
    }
}

impl PartialEq for BigUint {
    fn eq(&self, other: &BigUint) -> (r: bool) {
        self.sign_of_difference(other) == 0
    }
}

impl Eq for BigUint {

}

impl vstd::std_specs::cmp::PartialEqSpecImpl for BigUint {
    open spec fn obeys_eq_spec() -> bool {
        true
    }

    open spec fn eq_spec(&self, other: &BigUint) -> bool {
        self@ == other@
    }
}

/// The number that a big-endian sequence of bytes stands for.
pub open spec fn bytes_be_value(s: Seq<u8>) -> nat
    decreases s.len(),
{
    if s.len() == 0 {
        0
    } else {
        256 * bytes_be_value(s.drop_last()) + s.last() as nat
    }
}

/// A leading zero byte adds nothing.
proof fn lemma_bytes_skip_zero(s: Seq<u8>)
    requires
        s.len() > 0,
        s[0] == 0,
    ensures
        bytes_be_value(s.skip(1)) == bytes_be_value(s),
    decreases s.len(),
{
    if s.len() == 1 {
        assert(bytes_be_value(s.drop_last()) == 0);
        assert(bytes_be_value(s.skip(1)) == 0);
    } else {
        assert(s.skip(1).drop_last() =~= s.drop_last().skip(1));
        assert(s.skip(1).last() == s.last());
        lemma_bytes_skip_zero(s.drop_last());
    }
}

impl BigUint {
    /// The number that the big-endian `bytes` stand for.
    pub fn from_bytes_be(bytes: &[u8]) -> (r: BigUint)
        ensures
            r@ == bytes_be_value(bytes@),
    {
        let mut acc = BigUint::zero();
        let mut i: usize = 0;
        assert(bytes@.take(0).len() == 0);
        while i < bytes.len()
            invariant
                i <= bytes@.len(),
                acc@ == bytes_be_value(bytes@.take(i as int)),
            decreases bytes@.len() - i,
        {
            proof {
                assert(bytes@.take(i + 1).drop_last() =~= bytes@.take(i as int));
            }
            acc = acc.mul_add_u32(256, bytes[i] as u32);
            i += 1;
        }
        assert(bytes@.take(i as int) =~= bytes@);
        acc
    }

    /// This number in big-endian bytes, without a leading zero byte: none for zero.
    pub fn to_bytes_be(&self) -> (r: Vec<u8>)
        ensures
            bytes_be_value(r@) == self@,
            r@.len() > 0 ==> r@[0] != 0,
    {
        let mut all: Vec<u8> = Vec::new();
        let mut i: usize = self.limbs.len();
        assert(self.limbs@.skip(i as int).len() == 0);
        while i > 0
            invariant
                i <= self.limbs@.len(),
                bytes_be_value(all@) == limbs_value(self.limbs@.skip(i as int)),
            decreases i,
        {
            i -= 1;
            let x = self.limbs[i];
            let b3: u8 = (x / 0x100_0000) as u8;
            let b2: u8 = ((x / 0x1_0000) % 0x100) as u8;
            let b1: u8 = ((x / 0x100) % 0x100) as u8;
            let b0: u8 = (x % 0x100) as u8;
            proof {
                let rest = self.limbs@.skip(i as int);
                assert(rest.skip(1) =~= self.limbs@.skip(i + 1));
                lemma_value_horner(rest);
                let s0 = all@;
                let s1 = s0.push(b3);
                let s2 = s1.push(b2);
                let s3 = s2.push(b1);
                let s4 = s3.push(b0);
                assert(s1.drop_last() =~= s0);
                assert(s2.drop_last() =~= s1);
                assert(s3.drop_last() =~= s2);
                assert(s4.drop_last() =~= s3);
                assert(bytes_be_value(s1) == 256 * bytes_be_value(s0) + b3);
                assert(bytes_be_value(s2) == 256 * bytes_be_value(s1) + b2);
                assert(bytes_be_value(s3) == 256 * bytes_be_value(s2) + b1);
                assert(bytes_be_value(s4) == 256 * bytes_be_value(s3) + b0);
                assert(x == b3 * 0x100_0000 + b2 * 0x1_0000 + b1 * 0x100 + b0);
            }
            all.push(b3);
            all.push(b2);
            all.push(b1);
            all.push(b0);
        }
        assert(self.limbs@.skip(0) =~= self.limbs@);
        let mut k: usize = 0;
        assert(all@.skip(0) =~= all@);
        while k < all.len() && all[k] == 0
            invariant
                k <= all@.len(),
                bytes_be_value(all@.skip(k as int)) == bytes_be_value(all@),
            decreases all@.len() - k,
        {
            proof {
                lemma_bytes_skip_zero(all@.skip(k as int));
                assert(all@.skip(k as int).skip(1) =~= all@.skip(k + 1));
            }
            k += 1;
        }
        let mut out: Vec<u8> = Vec::new();
        let mut j: usize = k;
        while j < all.len()
            invariant
                k <= j <= all@.len(),
                out@ == all@.subrange(k as int, j as int),
            decreases all@.len() - j,
        {
            out.push(all[j]);
            assert(all@.subrange(k as int, j + 1) =~= all@.subrange(k as int, j as int).push(
                all@[j as int],
            ));
            j += 1;
        }
        assert(all@.subrange(k as int, j as int) =~= all@.skip(k as int));
        out
    }
}

} // verus!
