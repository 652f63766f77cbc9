//! The prime field of order `2^64 - 2^32 + 1`.
//!
//! An element is held as any 64-bit representative of its residue class, so
//! every contract speaks of the canonical value, the view `x@` in
//! `[0, ORDER)`, and never of the representative.

use vstd::arithmetic::div_mod::lemma_mod_multiples_vanish;
use vstd::arithmetic::power::{
    lemma_pow1, lemma_pow_adds, lemma_pow_mod_noop, lemma_pow_multiplies, pow,
};
use vstd::arithmetic::power2::{lemma2_to64, lemma_pow2_unfold, pow2};
use vstd::prelude::*;

verus! {

/// `2^32 - 1`, the amount by which `2^64` exceeds the field order.
pub const EPSILON: u64 = 0xFFFF_FFFF;

/// The field order, `2^64 - 2^32 + 1`.
pub const ORDER: u64 = 0xFFFF_FFFF_0000_0001;

/// The two-adicity of the multiplicative group: `2^32` divides `ORDER - 1`.
pub const TWO_ADICITY: usize = 32;

/// The two-adicity of the characteristic, which is the order.
pub const CHARACTERISTIC_TWO_ADICITY: usize = TWO_ADICITY;

/// The number of bits of a representative.
pub const BITS: usize = 64;

/// The field order as a mathematical integer.
pub open spec fn field_order() -> int {
    0xFFFF_FFFF_0000_0001
}

/// Addition of residues.
pub open spec fn field_add(a: int, b: int) -> int {
    (a + b) % field_order()
}

/// Subtraction of residues.
pub open spec fn field_sub(a: int, b: int) -> int {
    (a - b) % field_order()
}

/// Multiplication of residues.
pub open spec fn field_mul(a: int, b: int) -> int {
    (a * b) % field_order()
}

/// The additive inverse of a residue.
pub open spec fn field_neg(a: int) -> int {
    (-a) % field_order()
}

/// Two integers that differ by a multiple of the order have the same residue.
pub proof fn lemma_same_residue(x: int, y: int, k: int)
    requires
        x == y + k * field_order(),
    ensures
        x % field_order() == y % field_order(),
{
    lemma_mod_multiples_vanish(k, y, field_order());
    assert(k * field_order() + y == x);
}

/// An element of the field, held as any 64-bit representative of its residue class.
#[derive(Copy, Clone, Debug)]
pub struct GoldilocksField(pub u64);

impl View for GoldilocksField {
    type V = int;

    /// The canonical representative, in `[0, ORDER)`.
    open spec fn view(&self) -> int {
        self.0 as int % field_order()
    }
}

/// The sum `x + y` reduced modulo `2^64`, and whether it exceeded 64 bits.
fn overflowing_add(x: u64, y: u64) -> (r: (u64, bool))
    ensures
        r.1 == (x + y > u64::MAX),
        r.0 == if r.1 { x + y - 0x1_0000_0000_0000_0000 } else { x + y },
{
    let s = x.wrapping_add(y);
    (s, s < x)
}

/// The difference `x - y` reduced modulo `2^64`, and whether it fell below zero.
fn overflowing_sub(x: u64, y: u64) -> (r: (u64, bool))
    ensures
        r.1 == (x < y),
        r.0 == if r.1 { x - y + 0x1_0000_0000_0000_0000 } else { x - y },
{
    let d = x.wrapping_sub(y);
    (d, x < y)
}

/// `EPSILON` where `flag` holds, else zero.
fn epsilon_if(flag: bool) -> (r: u64)
    ensures
        r == if flag { EPSILON as int } else { 0 },
{
    if flag { EPSILON } else { 0 }
}

impl GoldilocksField {
    /// The additive identity.
    pub fn zero() -> (r: Self)
        ensures
            r.0 == 0,
            r@ == 0,
    {
        Self(0)
    }

    /// The multiplicative identity.
    pub fn one() -> (r: Self)
        ensures
            r.0 == 1,
            r@ == 1,
    {
        Self(1)
    }

    /// Two.
    pub fn two() -> (r: Self)
        ensures
            r.0 == 2,
            r@ == 2,
    {
        Self(2)
    }

    /// The additive inverse of one.
    pub fn neg_one() -> (r: Self)
        ensures
            r.0 == ORDER - 1,
            r@ == field_order() - 1,
    {
        Self(ORDER - 1)
    }

    /// A generator of the whole multiplicative group.
    pub fn multiplicative_group_generator() -> (r: Self)
        ensures
            r.0 == 14293326489335486720u64,
    {
        Self(14293326489335486720)
    }

    /// A generator of the subgroup of order `2^32`.
    pub fn power_of_two_generator() -> (r: Self)
        ensures
            r.0 == 7277203076849721926u64,
    {
        Self(7277203076849721926)
    }

    /// The element with the given canonical value.
    pub fn from_canonical_u64(n: u64) -> (r: Self)
        requires
            n < ORDER,
        ensures
            r.0 == n,
            r@ == n,
    {
        Self(n)
    }

    /// The element with the given canonical value.
    pub fn from_canonical_u32(n: u32) -> (r: Self)
        ensures
            r.0 == n,
            r@ == n,
    {
        Self(n as u64)
    }

    /// The element with the given canonical value.
    pub fn from_canonical_usize(n: usize) -> (r: Self)
        requires
            n < ORDER,
        ensures
            r.0 == n,
            r@ == n,
    {
        Self(n as u64)
    }

    /// One for `true`, zero for `false`.
    pub fn from_bool(b: bool) -> (r: Self)
        ensures
            r.0 == if b { 1int } else { 0 },
            r@ == if b { 1int } else { 0 },
    {
        Self(if b { 1 } else { 0 })
    }

    /// The element that `n` represents, whether or not `n` is below the order.
    pub fn from_noncanonical_u64(n: u64) -> (r: Self)
        ensures
            r.0 == n,
            r@ == n as int % field_order(),
    {
        Self(n)
    }

    /// The residue of a signed integer.
    pub fn from_noncanonical_i64(n: i64) -> (r: Self)
        ensures
            r.0 < ORDER,
            r@ == n as int % field_order(),
    {
        if n < 0 {
            let m: u64 = #[verifier::truncate] (n as u64);
            assert(m == n + 0x1_0000_0000_0000_0000) by (bit_vector)
                requires
                    n < 0,
                    m == n as u64,
            ;
            let c = ORDER.wrapping_add(m);
            assert(c == n + field_order());
            proof {
                lemma_same_residue(c as int, n as int, 1);
            }
            Self::from_canonical_u64(c)
        } else {
            Self::from_canonical_u64(n as u64)
        }
    }

    /// The canonical representative.
    pub fn to_canonical_u64(&self) -> (c: u64)
        ensures
            c == self@,
            c < ORDER,
    {
        let mut c = self.0;
        if c >= ORDER {
            c -= ORDER;
        }
        c
    }

    /// The representative as it is held, which may exceed the order.
    pub fn to_noncanonical_u64(&self) -> (c: u64)
        ensures
            c == self.0,
    {
        self.0
    }

    /// The same element, held by its canonical representative.
    pub fn to_canonical(&self) -> (r: Self)
        ensures
            r.0 == self@,
            r@ == self@,
    {
        Self(self.to_canonical_u64())
    }

    /// Whether the element is zero, whatever represents it.
    pub fn is_zero(&self) -> (r: bool)
        ensures
            r == (self@ == 0),
    {
        self.to_canonical_u64() == 0
    }

    /// Adds a canonical integer to the element.
    pub fn add_canonical_u64(&self, rhs: u64) -> (r: Self)
        requires
            rhs < ORDER,
        ensures
            r@ == field_add(self@, rhs as int),
    {
        let (res_wrapped, carry) = overflowing_add(self.0, rhs);
        let r = Self(res_wrapped + epsilon_if(carry));
        proof {
            lemma_same_residue(self.0 + rhs, r.0 as int, if carry { 1 } else { 0 });
            lemma_add_residue(self.0 as int, rhs as int);
        }
        r
    }

    /// Subtracts a canonical integer from the element.
    pub fn sub_canonical_u64(&self, rhs: u64) -> (r: Self)
        requires
            rhs < ORDER,
        ensures
            r@ == field_sub(self@, rhs as int),
    {
        let (res_wrapped, borrow) = overflowing_sub(self.0, rhs);
        let r = Self(res_wrapped - epsilon_if(borrow));
        proof {
            lemma_same_residue(r.0 as int, self.0 - rhs, if borrow { 1 } else { 0 });
            lemma_sub_residue(self.0 as int, rhs as int);
        }
        r
    }
}

/// Reducing the operands of a sum first does not change its residue.
pub proof fn lemma_add_residue(x: int, y: int)
    ensures
        (x + y) % field_order() == field_add(x % field_order(), y % field_order()),
{
    vstd::arithmetic::div_mod::lemma_add_mod_noop(x, y, field_order());
}

/// Reducing the operands of a difference first does not change its residue.
pub proof fn lemma_sub_residue(x: int, y: int)
    ensures
        (x - y) % field_order() == field_sub(x % field_order(), y % field_order()),
{
    vstd::arithmetic::div_mod::lemma_sub_mod_noop(x, y, field_order());
}

/// Multiplication of residues is associative.
pub proof fn lemma_mul_assoc(a: int, b: int, c: int)
    ensures
        field_mul(field_mul(a, b), c) == field_mul(a, field_mul(b, c)),
{
    vstd::arithmetic::div_mod::lemma_mul_mod_noop_left(a * b, c, field_order());
    vstd::arithmetic::div_mod::lemma_mul_mod_noop_right(a, b * c, field_order());
    vstd::arithmetic::mul::lemma_mul_is_associative(a, b, c);
}

/// Reducing the operands of a product first does not change its residue.
pub proof fn lemma_mul_residue(x: int, y: int)
    ensures
        (x * y) % field_order() == field_mul(x % field_order(), y % field_order()),
{
    vstd::arithmetic::div_mod::lemma_mul_mod_noop(x, y, field_order());
}

impl Default for GoldilocksField {
    fn default() -> (r: Self)
        ensures
            r.0 == 0,
    {
        Self::zero()
    }
}

impl PartialEq for GoldilocksField {
    fn eq(&self, other: &Self) -> (r: bool) {
        self.to_canonical_u64() == other.to_canonical_u64()
    }
}

impl Eq for GoldilocksField {}

impl vstd::std_specs::cmp::PartialEqSpecImpl for GoldilocksField {
    open spec fn obeys_eq_spec() -> bool {
        true
    }

    open spec fn eq_spec(&self, other: &Self) -> bool {
        self@ == other@
    }
}

impl core::ops::Neg for GoldilocksField {
    type Output = Self;

    fn neg(self) -> (r: Self)
        ensures
            r@ == field_neg(self@),
    {
        if self.is_zero() {
            Self::zero()
        } else {
            let r = Self(ORDER - self.to_canonical_u64());
            proof {
                lemma_same_residue(r.0 as int, -self@, 1);
            }
            r
        }
    }
}

impl vstd::std_specs::ops::NegSpecImpl for GoldilocksField {
    open spec fn obeys_neg_spec() -> bool {
        false
    }

    open spec fn neg_req(self) -> bool {
        true
    }

    open spec fn neg_spec(self) -> Self {
        GoldilocksField(field_neg(self@) as u64)
    }
}

impl core::ops::Add for GoldilocksField {
    type Output = Self;

    fn add(self, rhs: Self) -> (r: Self)
        ensures
            r@ == field_add(self@, rhs@),
    {
        let (sum, over) = overflowing_add(self.0, rhs.0);
        let (mut sum, over) = overflowing_add(sum, epsilon_if(over));
        if over {
            // A second carry needs both representatives above the order.
            assert(self.0 > ORDER && rhs.0 > ORDER);
            sum += EPSILON;
        }
        proof {
            let k = (self.0 + rhs.0 - sum) / field_order();
            assert(self.0 + rhs.0 == sum + k * field_order());
            lemma_same_residue(self.0 + rhs.0, sum as int, k);
            lemma_add_residue(self.0 as int, rhs.0 as int);
        }
        Self(sum)
    }
}

impl vstd::std_specs::ops::AddSpecImpl for GoldilocksField {
    open spec fn obeys_add_spec() -> bool {
        false
    }

    open spec fn add_req(self, rhs: Self) -> bool {
        true
    }

    open spec fn add_spec(self, rhs: Self) -> Self {
        GoldilocksField(field_add(self@, rhs@) as u64)
    }
}

impl core::ops::Sub for GoldilocksField {
    type Output = Self;

    fn sub(self, rhs: Self) -> (r: Self)
        ensures
            r@ == field_sub(self@, rhs@),
    {
        let (diff, under) = overflowing_sub(self.0, rhs.0);
        let (mut diff, under) = overflowing_sub(diff, epsilon_if(under));
        if under {
            // A second borrow needs a small minuend and a subtrahend above the order.
            assert(self.0 < EPSILON - 1 && rhs.0 > ORDER);
            diff -= EPSILON;
        }
        proof {
            let k = (diff - (self.0 - rhs.0)) / field_order();
            assert(diff == self.0 - rhs.0 + k * field_order());
            lemma_same_residue(diff as int, self.0 - rhs.0, k);
            lemma_sub_residue(self.0 as int, rhs.0 as int);
        }
        Self(diff)
    }
}

impl vstd::std_specs::ops::SubSpecImpl for GoldilocksField {
    open spec fn obeys_sub_spec() -> bool {
        false
    }

    open spec fn sub_req(self, rhs: Self) -> bool {
        true
    }

    open spec fn sub_spec(self, rhs: Self) -> Self {
        GoldilocksField(field_sub(self@, rhs@) as u64)
    }
}

/// The low and the high 64 bits of `x`.
pub fn split(x: u128) -> (r: (u64, u64))
    ensures
        x == r.0 + r.1 * 0x1_0000_0000_0000_0000,
{
    let lo = #[verifier::truncate] (x as u64);
    let hi = #[verifier::truncate] ((x >> 64) as u64);
    assert(x == lo + hi * 0x1_0000_0000_0000_0000) by (bit_vector)
        requires
            lo == x as u64,
            hi == (x >> 64) as u64,
    ;
    (lo, hi)
}

/// The low and the high 32 bits of `v`.
fn split_u64(v: u64) -> (r: (u64, u64))
    ensures
        v == r.0 + r.1 * 0x1_0000_0000,
        r.0 <= 0xFFFF_FFFF,
        r.1 <= 0xFFFF_FFFF,
{
    let lo = v & 0xffffffff;
    let hi = v >> 32;
    assert(v == lo + hi * 0x1_0000_0000 && lo <= 0xFFFF_FFFF && hi <= 0xFFFF_FFFF) by (bit_vector)
        requires
            lo == v & 0xffffffff,
            hi == v >> 32,
    ;
    (lo, hi)
}

/// The product of two 32-bit integers fits in 64 bits.
proof fn lemma_mul_32(x: u64, y: u64)
    requires
        x <= 0xFFFF_FFFF,
        y <= 0xFFFF_FFFF,
    ensures
        0 <= x * y <= 0xFFFF_FFFE_0000_0001,
{
    assert(0 <= x * y <= 0xFFFF_FFFF * 0xFFFF_FFFF) by (nonlinear_arith)
        requires
            0 <= x <= 0xFFFF_FFFF,
            0 <= y <= 0xFFFF_FFFF,
    ;
}

/// Adds modulo the order, without bringing the result below the order.
///
/// Needs `x + y < 2^64 + ORDER`; the result then represents `x + y`.
fn add_no_canonicalize_trashing_input(x: u64, y: u64) -> (r: u64)
    requires
        x + y < 0x1_0000_0000_0000_0000 + ORDER,
    ensures
        r == x + y || r == x + y - field_order(),
{
    let (res_wrapped, carry) = overflowing_add(x, y);
    res_wrapped + epsilon_if(carry)
}

/// Reduces a 96-bit integer, given as its low 64 and high 32 bits.
fn reduce96(x: (u64, u32)) -> (r: GoldilocksField)
    ensures
        r@ == (x.0 + x.1 * 0x1_0000_0000_0000_0000) % field_order(),
{
    let (x_lo, x_hi) = x;
    proof {
        lemma_mul_32(x_hi as u64, EPSILON);
    }
    let t1 = x_hi as u64 * EPSILON;
    let t2 = add_no_canonicalize_trashing_input(x_lo, t1);
    proof {
        let k = if t2 == x_lo + t1 { x_hi as int } else { x_hi + 1 };
        assert(x_lo + x_hi * 0x1_0000_0000_0000_0000 == t2 + k * field_order());
        lemma_same_residue(x_lo + x_hi * 0x1_0000_0000_0000_0000, t2 as int, k);
    }
    GoldilocksField(t2)
}

/// Reduces a 128-bit integer to a representative of its residue.
fn reduce128(x: u128) -> (r: GoldilocksField)
    ensures
        r@ == x as int % field_order(),
{
    let (x_lo, x_hi) = split(x);
    let (x_hi_lo, x_hi_hi) = split_u64(x_hi);

    let (mut t0, borrow) = overflowing_sub(x_lo, x_hi_hi);
    if borrow {
        t0 -= EPSILON;
    }
    proof {
        lemma_mul_32(x_hi_lo, EPSILON);
    }
    let t1 = x_hi_lo * EPSILON;
    let t2 = add_no_canonicalize_trashing_input(t0, t1);
    proof {
        // 2^64 = ORDER + EPSILON and 2^96 + 1 = ORDER * (2^32 + 1).
        let b: int = if borrow { 1 } else { 0 };
        let c: int = if t2 == t0 + t1 { 0 } else { 1 };
        let k = x_hi_lo + 0x1_0000_0001 * x_hi_hi - b + c;
        assert(x == t2 + k * field_order());
        lemma_same_residue(x as int, t2 as int, k);
    }
    GoldilocksField(t2)
}

/// Reduces the 160-bit integer `x_lo + x_hi * 2^128`.
pub fn reduce160(x_lo: u128, x_hi: u32) -> (r: GoldilocksField)
    requires
        x_lo + x_hi * 0x1_0000_0000_0000_0000_0000_0000_0000_0000
            < 0x1_0000_0000_0000_0000_0000_0000 * field_order(),
    ensures
        r@ == (x_lo + x_hi * 0x1_0000_0000_0000_0000_0000_0000_0000_0000) % field_order(),
{
    let top = #[verifier::truncate] ((x_lo >> 96) as u64);
    let mid = #[verifier::truncate] ((x_lo >> 64) as u32);
    let low = #[verifier::truncate] (x_lo as u64);
    assert(x_lo == low + mid * 0x1_0000_0000_0000_0000 + top * 0x1_0000_0000_0000_0000_0000_0000
        && top <= 0xFFFF_FFFF) by (bit_vector)
        requires
            top == (x_lo >> 96) as u64,
            mid == (x_lo >> 64) as u32,
            low == x_lo as u64,
    ;
    let shifted = (x_hi as u64) << 32;
    assert(shifted == x_hi * 0x1_0000_0000) by (bit_vector)
        requires
            shifted == (x_hi as u64) << 32,
    ;
    let high = top + shifted;

    let (mut t0, borrow) = overflowing_sub(low, high);
    if borrow {
        t0 -= EPSILON;
    }
    proof {
        lemma_mul_32(mid as u64, EPSILON);
    }
    let t1 = (mid as u64) * EPSILON;
    let t2 = add_no_canonicalize_trashing_input(t0, t1);
    proof {
        let b: int = if borrow { 1 } else { 0 };
        let c: int = if t2 == t0 + t1 { 0 } else { 1 };
        let k = mid + 0x1_0000_0001 * high - b + c;
        let x = x_lo + x_hi * 0x1_0000_0000_0000_0000_0000_0000_0000_0000;
        assert(x == t2 + k * field_order());
        lemma_same_residue(x, t2 as int, k);
    }
    GoldilocksField(t2)
}

impl core::ops::Mul for GoldilocksField {
    type Output = Self;

    fn mul(self, rhs: Self) -> (r: Self)
        ensures
            r@ == field_mul(self@, rhs@),
    {
        assert(0 <= self.0 * rhs.0 <= 0xFFFF_FFFF_FFFF_FFFF * 0xFFFF_FFFF_FFFF_FFFF)
            by (nonlinear_arith);
        proof {
            lemma_mul_residue(self.0 as int, rhs.0 as int);
        }
        reduce128((self.0 as u128) * (rhs.0 as u128))
    }
}

impl vstd::std_specs::ops::MulSpecImpl for GoldilocksField {
    open spec fn obeys_mul_spec() -> bool {
        false
    }

    open spec fn mul_req(self, rhs: Self) -> bool {
        true
    }

    open spec fn mul_spec(self, rhs: Self) -> Self {
        GoldilocksField(field_mul(self@, rhs@) as u64)
    }
}

impl GoldilocksField {
    /// Reduces a 96-bit integer, given as its low 64 and high 32 bits.
    pub fn from_noncanonical_u96(n: (u64, u32)) -> (r: Self)
        ensures
            r@ == (n.0 + n.1 * 0x1_0000_0000_0000_0000) % field_order(),
    {
        reduce96(n)
    }

    /// Reduces a 128-bit integer.
    pub fn from_noncanonical_u128(n: u128) -> (r: Self)
        ensures
            r@ == n as int % field_order(),
    {
        reduce128(n)
    }

    /// `self + x * y`, by one reduction.
    pub fn multiply_accumulate(&self, x: Self, y: Self) -> (r: Self)
        ensures
            r@ == field_add(self@, field_mul(x@, y@)),
    {
        assert(0 <= x.0 * y.0 <= 0xFFFF_FFFF_FFFF_FFFF * 0xFFFF_FFFF_FFFF_FFFF)
            by (nonlinear_arith);
        proof {
            lemma_mul_residue(x.0 as int, y.0 as int);
            lemma_add_residue(self.0 as int, x.0 * y.0);
            lemma_add_residue(self@, field_mul(x@, y@));
        }
        reduce128((self.0 as u128) + (x.0 as u128) * (y.0 as u128))
    }

    /// The element times itself.
    pub fn square(&self) -> (r: Self)
        ensures
            r@ == field_mul(self@, self@),
    {
        *self * *self
    }
}

/// The expansion of a product of two integers given by their 32-bit halves.
proof fn lemma_halves_product(a0: int, a1: int, b0: int, b1: int)
    ensures
        (a0 + a1 * 0x1_0000_0000) * (b0 + b1 * 0x1_0000_0000) == a0 * b0 + (a0 * b1 + a1 * b0)
            * 0x1_0000_0000 + (a1 * b1) * 0x1_0000_0000_0000_0000,
{
    assert((a0 + a1 * 0x1_0000_0000) * (b0 + b1 * 0x1_0000_0000) == a0 * b0 + (a0 * b1 + a1 * b0)
        * 0x1_0000_0000 + (a1 * b1) * 0x1_0000_0000_0000_0000) by (nonlinear_arith);
}

/// Multiplies two elements using 32-bit by 32-bit products and 64-bit sums only,
/// for machines without a wide multiplication.
#[verifier::rlimit(50)]
pub fn mul_wasm32(a: GoldilocksField, b: GoldilocksField) -> (r: GoldilocksField)
    ensures
        r@ == field_mul(a@, b@),
{
    let (a0, a1) = split_u64(a.0);
    let (b0, b1) = split_u64(b.0);
    proof {
        lemma_mul_32(a0, b0);
        lemma_mul_32(a0, b1);
        lemma_mul_32(a1, b0);
        lemma_mul_32(a1, b1);
    }

    let a0_b0 = a0 * b0;
    let a0_b1 = a0 * b1;
    let a1_b0 = a1 * b0;
    let a1_b1 = a1 * b1;

    // w = a0_b1 + a1_b0 + a1_b1
    let (w, over) = overflowing_add(a0_b1, a1_b0);
    let ghost k1: int = if over { 1 } else { 0 };
    let (mut w, over) = overflowing_add(w, epsilon_if(over));
    if over {
        w += EPSILON;
    }
    assert(w == a0_b1 + a1_b0 - k1 * field_order());
    let ghost w_first = w;
    let (w, over) = overflowing_add(w, a1_b1);
    let ghost k2: int = if over { 1 } else { 0 };
    let (mut w, over) = overflowing_add(w, epsilon_if(over));
    let ghost k3: int = if over { 1 } else { 0 };
    if over {
        w += EPSILON;
    }
    assert(w == w_first + a1_b1 - (k2 + k3) * field_order());
    let (m0, m1) = split_u64(w);

    // c0 = a0_b0 - a1_b1 - m1
    let (c0, borrow) = overflowing_sub(a0_b0, a1_b1);
    let ghost k4: int = if borrow { 1 } else { 0 };
    let (mut c0, borrow) = overflowing_sub(c0, epsilon_if(borrow));
    if borrow {
        c0 -= EPSILON;
    }
    assert(c0 == a0_b0 - a1_b1 + k4 * field_order());
    let ghost c0_first = c0;
    let (c0, borrow) = overflowing_sub(c0, m1);
    let ghost k5: int = if borrow { 1 } else { 0 };
    let (mut c0, borrow) = overflowing_sub(c0, epsilon_if(borrow));
    let ghost k6: int = if borrow { 1 } else { 0 };
    if borrow {
        c0 -= EPSILON;
    }
    assert(c0 == c0_first - m1 + (k5 + k6) * field_order());

    let c1 = m0 + m1;

    // c = c1 * 2^32 + c0
    let c = c1 << 32;
    let over = c1 > EPSILON;
    let ghost k7: int = if over { 1 } else { 0 };
    assert(c == if c1 > 0xFFFF_FFFFu64 {
        c1 * 0x1_0000_0000 - 0x1_0000_0000_0000_0000
    } else {
        c1 * 0x1_0000_0000
    }) by (bit_vector)
        requires
            c == c1 << 32,
            c1 <= 0x1_FFFF_FFFE,
    ;
    let (mut c, over) = overflowing_add(c, epsilon_if(over));
    if over {
        c += EPSILON;
    }
    assert(c == c1 * 0x1_0000_0000 - k7 * field_order());
    let ghost c_first = c;
    let (c, over) = overflowing_add(c, c0);
    let ghost k8: int = if over { 1 } else { 0 };
    let (mut c, over) = overflowing_add(c, epsilon_if(over));
    let ghost k9: int = if over { 1 } else { 0 };
    if over {
        c += EPSILON;
    }
    assert(c == c_first + c0 - (k8 + k9) * field_order());
    proof {
        lemma_halves_product(a0 as int, a1 as int, b0 as int, b1 as int);
        // 2^64 = ORDER + EPSILON, so m1 * 2^64 and a1_b1 * 2^64 fold back.
        let k = a1_b1 + m1 + 0x1_0000_0000 * (k1 + k2 + k3) - k4 - k5 - k6 + k7 + k8 + k9;
        assert(a.0 * b.0 == c + k * field_order());
        lemma_same_residue(a.0 * b.0, c as int, k);
        lemma_mul_residue(a.0 as int, b.0 as int);
    }
    GoldilocksField(c)
}

/// The residue of the power `a^e`.
pub open spec fn field_pow(a: int, e: nat) -> int {
    pow(a, e) % field_order()
}

/// The first power of a canonical value is the value.
pub proof fn lemma_field_pow_one(a: int)
    requires
        0 <= a < field_order(),
    ensures
        field_pow(a, 1) == a,
{
    lemma_pow1(a);
}

/// Powers of one base multiply by adding their exponents.
pub proof fn lemma_field_pow_adds(a: int, e1: nat, e2: nat)
    ensures
        field_mul(field_pow(a, e1), field_pow(a, e2)) == field_pow(a, e1 + e2),
{
    lemma_pow_adds(a, e1, e2);
    lemma_mul_residue(pow(a, e1), pow(a, e2));
}

/// A power of a power multiplies the exponents.
pub proof fn lemma_field_pow_multiplies(a: int, e1: nat, e2: nat)
    ensures
        field_pow(field_pow(a, e1), e2) == field_pow(a, e1 * e2),
{
    lemma_pow_mod_noop(pow(a, e1), e2, field_order());
    lemma_pow_multiplies(a, e1, e2);
}

/// Squares `base` `N` times and multiplies the result by `tail`.
pub fn exp_acc<const N: usize>(base: GoldilocksField, tail: GoldilocksField) -> (r:
    GoldilocksField)
    ensures
        r@ == field_mul(field_pow(base@, pow2(N as nat)), tail@),
{
    base.exp_power_of_2(N) * tail
}

impl GoldilocksField {
    /// `self` raised to the power `2^power_log`.
    pub fn exp_power_of_2(&self, power_log: usize) -> (r: Self)
        ensures
            r@ == field_pow(self@, pow2(power_log as nat)),
    {
        let mut res = *self;
        proof {
            lemma2_to64();
            lemma_field_pow_one(self@);
        }
        for i in 0..power_log
            invariant
                res@ == field_pow(self@, pow2(i as nat)),
        {
            proof {
                lemma_field_pow_adds(self@, pow2(i as nat), pow2(i as nat));
                lemma_pow2_unfold((i + 1) as nat);
            }
            res = res.square();
        }
        res
    }

    /// The multiplicative inverse, computed as the power `ORDER - 2`; `None` for zero.
    pub fn try_inverse(&self) -> (r: Option<Self>)
        ensures
            r is None <==> self@ == 0,
            r matches Some(inv) ==> inv@ == field_pow(self@, (field_order() - 2) as nat),
            r matches Some(inv) ==> field_mul(self@, inv@) == 1,
    {
        if self.is_zero() {
            return None;
        }
        let ghost a = self@;
        proof {
            lemma2_to64();
            lemma_field_pow_one(a);
        }

        // a^(2^2 - 1)
        let t2 = self.square() * *self;
        proof {
            lemma_field_pow_adds(a, 1, 1);
            lemma_field_pow_adds(a, 2, 1);
        }
        assert(t2@ == field_pow(a, 3));

        // a^(2^3 - 1)
        let t3 = t2.square() * *self;
        proof {
            lemma_field_pow_adds(a, 3, 3);
            lemma_field_pow_adds(a, 6, 1);
        }
        assert(t3@ == field_pow(a, 7));

        // a^(2^6 - 1)
        let t6 = exp_acc::<3>(t3, t3);
        proof {
            lemma_field_pow_multiplies(a, 7, 8);
            lemma_field_pow_adds(a, 56, 7);
        }
        assert(t6@ == field_pow(a, 63));

        // a^(2^12 - 1)
        let t12 = exp_acc::<6>(t6, t6);
        proof {
            lemma_field_pow_multiplies(a, 63, 64);
            lemma_field_pow_adds(a, 4032, 63);
        }
        assert(t12@ == field_pow(a, 4095));

        // a^(2^24 - 1)
        let t24 = exp_acc::<12>(t12, t12);
        proof {
            lemma_field_pow_multiplies(a, 4095, 4096);
            lemma_field_pow_adds(a, 16773120, 4095);
        }
        assert(t24@ == field_pow(a, 16777215));

        // a^(2^31 - 1)
        let t30 = exp_acc::<6>(t24, t6);
        proof {
            lemma_field_pow_multiplies(a, 16777215, 64);
            lemma_field_pow_adds(a, 1073741760, 63);
        }
        assert(t30@ == field_pow(a, 1073741823));
        let t31 = t30.square() * *self;
        proof {
            lemma_field_pow_adds(a, 1073741823, 1073741823);
            lemma_field_pow_adds(a, 2147483646, 1);
        }
        assert(t31@ == field_pow(a, 2147483647));

        // a^((2^31 - 1) * (2^32 + 1))
        let t63 = exp_acc::<32>(t31, t31);
        proof {
            lemma_field_pow_multiplies(a, 2147483647, 4294967296);
            lemma_field_pow_adds(a, 9223372032559808512, 2147483647);
        }
        assert(t63@ == field_pow(a, 9223372034707292159));

        // a^(ORDER - 2)
        let inv = t63.square() * *self;
        proof {
            lemma_field_pow_adds(a, 9223372034707292159, 9223372034707292159);
            lemma_field_pow_adds(a, 18446744069414584318, 1);
            // Fermat: a * a^(ORDER - 2) = a^(ORDER - 1) = 1.
            lemma_field_pow_adds(a, 1, 18446744069414584319);
            crate::primality::lemma_fermat(a);
        }
        Some(inv)
    }

    /// The multiplicative inverse of a nonzero element.
    pub fn inverse(&self) -> (r: Self)
        requires
            self@ != 0,
        ensures
            r@ == field_pow(self@, (field_order() - 2) as nat),
            field_mul(self@, r@) == 1,
    {
        self.try_inverse().unwrap()
    }
}

impl core::ops::Div for GoldilocksField {
    type Output = Self;

    fn div(self, rhs: Self) -> (r: Self)
        ensures
            r@ == field_mul(self@, field_pow(rhs@, (field_order() - 2) as nat)),
            field_mul(r@, rhs@) == self@,
    {
        let inverse = rhs.inverse();
        proof {
            // (self * inverse) * rhs = self * (inverse * rhs) = self
            lemma_mul_assoc(self@, inverse@, rhs@);
            assert(inverse@ * rhs@ == rhs@ * inverse@) by (nonlinear_arith);
            assert(field_mul(self@, 1) == self@) by {
                assert(self@ * 1 == self@);
            }
        }
        self * inverse
    }
}

impl vstd::std_specs::ops::DivSpecImpl for GoldilocksField {
    open spec fn obeys_div_spec() -> bool {
        false
    }

    open spec fn div_req(self, rhs: Self) -> bool {
        rhs@ != 0
    }

    open spec fn div_spec(self, rhs: Self) -> Self {
        GoldilocksField(field_mul(self@, field_pow(rhs@, (field_order() - 2) as nat)) as u64)
    }
}

impl core::ops::AddAssign for GoldilocksField {
    fn add_assign(&mut self, rhs: Self)
        ensures
            final(self)@ == field_add(old(self)@, rhs@),
    {
        *self = *self + rhs;
    }
}

impl core::ops::SubAssign for GoldilocksField {
    fn sub_assign(&mut self, rhs: Self)
        ensures
            final(self)@ == field_sub(old(self)@, rhs@),
    {
        *self = *self - rhs;
    }
}

impl core::ops::MulAssign for GoldilocksField {
    fn mul_assign(&mut self, rhs: Self)
        ensures
            final(self)@ == field_mul(old(self)@, rhs@),
    {
        *self = *self * rhs;
    }
}

impl core::ops::DivAssign for GoldilocksField {
    fn div_assign(&mut self, rhs: Self)
        requires
            rhs@ != 0,
        ensures
            final(self)@ == field_mul(old(self)@, field_pow(rhs@, (field_order() - 2) as nat)),
            field_mul(final(self)@, rhs@) == old(self)@,
    {
        *self = *self / rhs;
    }
}

/// The canonical values of a sequence of elements.
pub open spec fn values_of(elements: Seq<GoldilocksField>) -> Seq<int> {
    Seq::new(elements.len(), |i: int| elements[i]@)
}

/// The sum of residues, from the left.
pub open spec fn field_sum(values: Seq<int>) -> int
    decreases values.len(),
{
    if values.len() == 0 {
        0
    } else {
        field_add(field_sum(values.drop_last()), values.last())
    }
}

/// The product of residues, from the left.
pub open spec fn field_product(values: Seq<int>) -> int
    decreases values.len(),
{
    if values.len() == 0 {
        1
    } else {
        field_mul(field_product(values.drop_last()), values.last())
    }
}

impl GoldilocksField {
    /// The sum of the elements; zero for none.
    pub fn sum(elements: &[GoldilocksField]) -> (r: Self)
        ensures
            r@ == field_sum(values_of(elements@)),
    {
        let mut acc = Self::zero();
        for i in 0..elements.len()
            invariant
                acc@ == field_sum(values_of(elements@).take(i as int)),
        {
            assert(values_of(elements@).take(i + 1).drop_last() =~= values_of(elements@).take(
                i as int,
            ));
            acc = acc + elements[i];
        }
        assert(values_of(elements@).take(elements.len() as int) =~= values_of(elements@));
        acc
    }

    /// The product of the elements; one for none.
    pub fn product(elements: &[GoldilocksField]) -> (r: Self)
        ensures
            r@ == field_product(values_of(elements@)),
    {
        let mut acc = Self::one();
        for i in 0..elements.len()
            invariant
                acc@ == field_product(values_of(elements@).take(i as int)),
        {
            assert(values_of(elements@).take(i + 1).drop_last() =~= values_of(elements@).take(
                i as int,
            ));
            acc = acc * elements[i];
        }
        assert(values_of(elements@).take(elements.len() as int) =~= values_of(elements@));
        acc
    }
}

} // verus!
