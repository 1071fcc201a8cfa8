//! Aligned power-of-two ranges of pages.

use vstd::prelude::*;
use vstd::arithmetic::power2::{
    lemma2_to64, lemma2_to64_rest, lemma_pow2_adds, lemma_pow2_strictly_increases, pow2,
};
use vstd::bits::{lemma_u64_low_bits_mask_is_mod, lemma_u64_shl_is_mul, low_bits_mask};

verus! {

/// The size in bytes of an area of the given order: `PAGE_SIZE << order`.
pub open spec fn area_bytes(order: nat) -> nat {
    pow2(order + 12)
}

/// Structure representing a range of pages with a certain order.
///
/// An area of order `n` spans `1 << n` pages and its start is aligned to its size.
#[derive(Clone, Copy, Debug, PartialEq, Eq)]
pub struct Area {
    /// The starting address of this area.
    start: u64,
    /// The order of this area
    order: u8,
}

/// Structure returned if an area isn't properly aligned.
#[derive(Clone, Copy, Debug, PartialEq, Eq)]
pub struct BadAlignment;

/// `PAGE_SIZE << order` for orders that fit in a 64-bit address, and how consecutive sizes
/// relate.
pub proof fn lemma_area_bytes(order: nat)
    requires
        order < 52,
    ensures
        area_bytes(order) == 4096u64 << (order as u64),
        4096 <= area_bytes(order) <= 0x8000_0000_0000_0000,
        area_bytes(order) % 4096 == 0,
        area_bytes(order + 1) == 2 * area_bytes(order),
        area_bytes(order) == 4096 * pow2(order),
{
    lemma2_to64();
    lemma2_to64_rest();
    lemma_pow2_adds(order, 12);
    lemma_pow2_adds(order + 12, 1);
    if order < 51 {
        lemma_pow2_strictly_increases(order, 51);
    }
    assert(4096 * pow2(order) <= u64::MAX);
    lemma_u64_shl_is_mul(4096, order as u64);
}

/// `x & ((PAGE_SIZE << order) - 1) == x % (PAGE_SIZE << order)`.
pub proof fn lemma_area_mask(x: u64, order: nat)
    requires
        order < 52,
    ensures
        x & (((4096u64 << (order as u64)) - 1) as u64) == (x as int) % (area_bytes(order) as int),
{
    lemma_area_bytes(order);
    lemma_u64_low_bits_mask_is_mod(x, order + 12);
    assert(low_bits_mask(order + 12) == area_bytes(order) - 1);
}

/// Sums and differences of multiples of `m` are multiples of `m`.
pub proof fn lemma_mod_add_sub(a: int, b: int, m: int)
    requires
        m > 0,
        a % m == 0,
        b % m == 0,
    ensures
        (a + b) % m == 0,
        (a - b) % m == 0,
{
    vstd::arithmetic::div_mod::lemma_add_mod_noop(a, b, m);
    vstd::arithmetic::div_mod::lemma_sub_mod_noop(a, b, m);
    vstd::arithmetic::div_mod::lemma_small_mod(0, m as nat);
}

/// An address aligned to an area of order `hi` is aligned to every smaller area.
pub proof fn lemma_aligned_lower(x: int, hi: nat, lo: nat)
    requires
        lo <= hi,
        x % (area_bytes(hi) as int) == 0,
    ensures
        x % (area_bytes(lo) as int) == 0,
        (area_bytes(hi) as int) % (area_bytes(lo) as int) == 0,
{
    let d = (hi - lo) as nat;
    lemma_pow2_adds(lo + 12, d);
    assert(hi + 12 == (lo + 12) + d);
    let bh = area_bytes(hi) as int;
    let bl = area_bytes(lo) as int;
    let p = pow2(d) as int;
    assert(bh == bl * p);
    vstd::arithmetic::power2::lemma_pow2_pos(lo + 12);
    vstd::arithmetic::power2::lemma_pow2_pos(hi + 12);
    vstd::arithmetic::div_mod::lemma_fundamental_div_mod(x, bh);
    let q = x / bh;
    assert(x == bh * q);
    vstd::arithmetic::mul::lemma_mul_is_associative(bl, p, q);
    vstd::arithmetic::mul::lemma_mul_is_commutative(bl, p * q);
    vstd::arithmetic::div_mod::lemma_mod_multiples_basic(p * q, bl);
    vstd::arithmetic::mul::lemma_mul_is_commutative(bl, p);
    vstd::arithmetic::div_mod::lemma_mod_multiples_basic(p, bl);
}

/// An aligned value below an aligned bound leaves room for one more aligned block.
pub proof fn lemma_aligned_room(x: int, s: int, n: int)
    requires
        0 < s,
        0 <= x < n,
        x % s == 0,
        n % s == 0,
    ensures
        x + s <= n,
{
    vstd::arithmetic::div_mod::lemma_fundamental_div_mod(x, s);
    vstd::arithmetic::div_mod::lemma_fundamental_div_mod(n, s);
    let qx = x / s;
    let qn = n / s;
    assert(x == s * qx);
    assert(n == s * qn);
    if qx >= qn {
        vstd::arithmetic::mul::lemma_mul_inequality(qn, qx, s);
        vstd::arithmetic::mul::lemma_mul_is_commutative(qn, s);
        vstd::arithmetic::mul::lemma_mul_is_commutative(qx, s);
        assert(false);
    }
    assert(qx + 1 <= qn);
    vstd::arithmetic::mul::lemma_mul_inequality(qx + 1, qn, s);
    vstd::arithmetic::mul::lemma_mul_is_distributive_add(s, qx, 1);
    vstd::arithmetic::mul::lemma_mul_is_commutative(qx + 1, s);
    vstd::arithmetic::mul::lemma_mul_is_commutative(qn, s);
    assert(s * (qx + 1) == s * qx + s);
}

/// An address aligned to an area of order below 52 leaves room for the whole area below `2^64`.
pub proof fn lemma_area_fits(x: u64, order: nat)
    requires
        order < 52,
        (x as int) % (area_bytes(order) as int) == 0,
    ensures
        x + area_bytes(order) <= 0x1_0000_0000_0000_0000,
{
    lemma2_to64_rest();
    lemma_pow2_adds(order + 12, (52 - order) as nat);
    assert(64 == order + 12 + (52 - order));
    let s = area_bytes(order) as int;
    vstd::arithmetic::power2::lemma_pow2_pos(order + 12);
    vstd::arithmetic::mul::lemma_mul_is_commutative(s, pow2((52 - order) as nat) as int);
    vstd::arithmetic::div_mod::lemma_mod_multiples_basic(pow2((52 - order) as nat) as int, s);
    lemma_aligned_room(x as int, s, 0x1_0000_0000_0000_0000);
}

impl Area {
    #[verifier::type_invariant]
    spec fn inv(self) -> bool {
        &&& self.start != 0
        &&& self.order < 52
        &&& (self.start as int) % (area_bytes(self.order as nat) as int) == 0
    }

    /// The start address of the area.
    pub closed spec fn start_spec(self) -> u64 {
        self.start
    }

    /// The order of the area.
    pub closed spec fn order_spec(self) -> u8 {
        self.order
    }

    /// Every area is non-null, of an order below 52 and aligned to its size.
    pub fn lemma_valid(&self)
        ensures
            self.start_spec() != 0,
            self.order_spec() < 52,
            (self.start_spec() as int) % (area_bytes(self.order_spec() as nat) as int) == 0,
    {
        proof {
            use_type_invariant(self);
        }
    }

    /// Creates a new area of a given order and with a given non-null address.
    ///
    /// Fails if the address is not aligned to the size of the area.
    pub fn new(start: u64, order: u8) -> (r: Result<Self, BadAlignment>)
        requires
            start != 0,
            order < 52,
        ensures
            r is Ok <==> (start as int) % (area_bytes(order as nat) as int) == 0,
            r matches Ok(a) ==> a.start_spec() == start && a.order_spec() == order,
    {
        proof {
            lemma_area_bytes(order as nat);
            lemma_area_mask(start, order as nat);
        }
        if start & ((4096u64 << order) - 1) == 0 {
            Ok(Area { start, order })
        } else {
            Err(BadAlignment)
        }
    }

    /// Creates a new area of a given order and with a given address without checking the
    /// alignment at run time; the caller proves it instead.
    pub fn new_unchecked(start: u64, order: u8) -> (r: Self)
        requires
            start != 0,
            order < 52,
            (start as int) % (area_bytes(order as nat) as int) == 0,
        ensures
            r.start_spec() == start,
            r.order_spec() == order,
    {
        Area { start, order }
    }

    /// Returns the start of this area
    pub fn start(&self) -> (r: u64)
        ensures
            r == self.start_spec(),
    {
        self.start
    }

    /// Returns the order of this area
    pub fn order(&self) -> (r: u8)
        ensures
            r == self.order_spec(),
    {
        self.order
    }

    /// Split this area into two areas with half the size, or `None` for an area of order 0.
    pub fn split(&self) -> (r: Option<(Self, Self)>)
        requires
            self.start_spec() + area_bytes(self.order_spec() as nat) <= u64::MAX + 1,
        ensures
            self.order_spec() == 0 <==> r is None,
            r matches Some((a, b)) ==> {
                &&& a.order_spec() == self.order_spec() - 1
                &&& b.order_spec() == self.order_spec() - 1
                &&& a.start_spec() == self.start_spec()
                &&& b.start_spec() == self.start_spec() + area_bytes(a.order_spec() as nat)
            },
    {
        proof {
            use_type_invariant(self);
        }
        if self.order == 0 {
            None
        } else {
            let order = self.order - 1;
            proof {
                lemma_area_bytes(order as nat);
                let s = self.start as int;
                let h = area_bytes(order as nat) as int;
                assert(area_bytes(self.order as nat) == 2 * h);
                assert(s % (2 * h) == 0);
                assert(s % h == 0) by {
                    assert(h * 2 == 2 * h);
                    vstd::arithmetic::div_mod::lemma_mod_mod(s, h, 2);
                }
                assert((s + h) % h == 0) by {
                    vstd::arithmetic::div_mod::lemma_add_mod_noop(s, h, h);
                    vstd::arithmetic::div_mod::lemma_mod_self_0(h);
                }
            }
            let half = 4096u64 << order;
            Some((Area { start: self.start, order }, Area { start: self.start + half, order }))
        }
    }
}

} // verus!
