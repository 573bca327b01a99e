use vstd::prelude::*;
use vstd::arithmetic::div_mod::{lemma_fundamental_div_mod, lemma_fundamental_div_mod_converse};
use vstd::arithmetic::power2::{
    lemma2_to64, lemma2_to64_rest, lemma_pow2_adds, lemma_pow2_strictly_increases, lemma_pow2_unfold, pow2,
};

verus! {

/// 2^128, the weight of the high half of a 256-bit word.
#[verifier::inline]
pub open spec fn half() -> int {
    0x1_0000_0000_0000_0000int * 0x1_0000_0000_0000_0000int
}

/// An unsigned 256-bit integer, stored as two 128-bit halves.
#[derive(Clone, Copy, Debug, PartialEq, Eq, PartialOrd, Ord, Hash)]
pub struct Uint256 {
    pub hi: u128,
    pub lo: u128,
}

/// A signed 256-bit integer in two's complement: the high half carries the sign.
#[derive(Clone, Copy, Debug, PartialEq, Eq, PartialOrd, Ord, Hash)]
pub struct Int256 {
    pub hi: i128,
    pub lo: u128,
}

impl Uint256 {
    pub open spec fn value(&self) -> int {
        self.hi * half() + self.lo
    }

    pub fn zero() -> (r: Uint256)
        ensures
            r.value() == 0,
    {
        Uint256 { hi: 0, lo: 0 }
    }

    pub fn from_u128(v: u128) -> (r: Uint256)
        ensures
            r.value() == v,
    {
        Uint256 { hi: 0, lo: v }
    }

    /// The largest value, 2^256 - 1.
    pub fn max_value() -> (r: Uint256)
        ensures
            r.value() == half() * half() - 1,
    {
        Uint256 { hi: u128::MAX, lo: u128::MAX }
    }

    /// 2^bits - 1, the largest value that fits in `bits` bits.
    pub fn ones(bits: u32) -> (r: Uint256)
        requires
            bits <= 256,
        ensures
            r.value() == pow2(bits as nat) - 1,
    {
        proof {
            lemma_half();
            lemma2_to64();
        }
        let mut r = Uint256 { hi: 0, lo: 0 };
        let mut i: u32 = 0;
        while i < bits
            invariant
                i <= bits <= 256,
                half() == pow2(128),
                pow2(0) == 1,
                i <= 128 ==> r.hi == 0 && r.lo == pow2(i as nat) - 1,
                i >= 128 ==> r.lo == u128::MAX && r.hi == pow2((i - 128) as nat) - 1,
            decreases bits - i,
        {
            proof {
                lemma_pow2_unfold((i + 1) as nat);
            }
            if i < 128 {
                proof {
                    if i < 127 {
                        lemma_pow2_strictly_increases((i + 1) as nat, 128);
                    }
                }
                r = Uint256 { hi: 0, lo: r.lo + r.lo + 1 };
            } else {
                proof {
                    lemma_pow2_unfold((i - 127) as nat);
                    if i < 255 {
                        lemma_pow2_strictly_increases((i - 127) as nat, 128);
                    }
                }
                r = Uint256 { hi: r.hi + r.hi + 1, lo: u128::MAX };
            }
            i = i + 1;
        }
        proof {
            if bits >= 128 {
                lemma_pow2_adds((bits - 128) as nat, 128);
                assert(((bits - 128) as nat + 128) as nat == bits as nat);
            }
        }
        r
    }

    pub fn cmp(&self, o: &Uint256) -> (r: core::cmp::Ordering)
        ensures
            r == ord_of(self.value(), o.value()),
    {
        if self.hi < o.hi {
            core::cmp::Ordering::Less
        } else if self.hi > o.hi {
            core::cmp::Ordering::Greater
        } else if self.lo < o.lo {
            core::cmp::Ordering::Less
        } else if self.lo > o.lo {
            core::cmp::Ordering::Greater
        } else {
            core::cmp::Ordering::Equal
        }
    }

    /// The sum, or `None` where it does not fit in 256 bits.
    pub fn checked_add(&self, o: &Uint256) -> (r: Option<Uint256>)
        ensures
            r is Some <==> self.value() + o.value() < half() * half(),
            r matches Some(s) ==> s.value() == self.value() + o.value(),
    {
        let (lo, carry) = add_halves(self.lo, o.lo);
        match self.hi.checked_add(o.hi) {
            Some(h) => match h.checked_add(carry) {
                Some(hi) => Some(Uint256 { hi, lo }),
                None => None,
            },
            None => None,
        }
    }

    /// The difference, or `None` where it would be negative.
    pub fn checked_sub(&self, o: &Uint256) -> (r: Option<Uint256>)
        ensures
            r is Some <==> self.value() >= o.value(),
            r matches Some(s) ==> s.value() == self.value() - o.value(),
    {
        let (lo, borrow) = sub_halves(self.lo, o.lo);
        if self.hi < o.hi {
            None
        } else if self.hi - o.hi < borrow {
            None
        } else {
            Some(Uint256 { hi: self.hi - o.hi - borrow, lo })
        }
    }
}

impl Uint256 {
    /// The product, where it is below 2^256.
    pub fn checked_mul(&self, o: &Uint256) -> (r: Option<Uint256>)
        ensures
            r is Some <==> self.value() * o.value() < half() * half(),
            r matches Some(p) ==> p.value() == self.value() * o.value(),
    {
        let ghost (x, y) = (self.value(), o.value());
        if self.hi != 0 && o.hi != 0 {
            proof {
                assert(x * y >= half() * half()) by (nonlinear_arith)
                    requires
                        x >= half(),
                        y >= half(),
                ;
            }
            return None;
        }
        let low = mul_halves(self.lo, o.lo);
        let cross = if self.hi != 0 {
            mul_halves(self.hi, o.lo)
        } else {
            mul_halves(self.lo, o.hi)
        };
        proof {
            let (x1, x0, y1, y0) = (self.hi as int, self.lo as int, o.hi as int, o.lo as int);
            assert(x * y == low.value() + cross.value() * half()) by (nonlinear_arith)
                requires
                    x == x1 * half() + x0,
                    y == y1 * half() + y0,
                    x1 == 0 || y1 == 0,
                    low.value() == x0 * y0,
                    cross.value() == (if x1 != 0 { x1 * y0 } else { x0 * y1 }),
            ;
        }
        if cross.hi != 0 {
            proof {
                let c = cross.value();
                assert(c * half() >= half() * half()) by (nonlinear_arith)
                    requires
                        c >= half(),
                ;
            }
            None
        } else {
            low.checked_add(&Uint256 { hi: cross.lo, lo: 0 })
        }
    }

    /// The quotient and remainder, where the divisor is not zero.
    pub fn checked_div_rem(&self, o: &Uint256) -> (r: Option<(Uint256, Uint256)>)
        ensures
            r is Some <==> o.value() != 0,
            r matches Some(qr) ==> qr.0.value() == self.value() / o.value() && qr.1.value() == self.value()
                % o.value(),
    {
        if o.hi == 0 && o.lo == 0 {
            return None;
        }
        let ghost (x, y) = (self.value(), o.value());
        proof {
            lemma_half();
            lemma_pow2_adds(128, 128);
            assert(x < half() * half());
            assert(y >= 1);
            assert(pow2(256) == half() * half());
            assert(x < pow2(256) * y) by (nonlinear_arith)
                requires
                    x < pow2(256),
                    y >= 1,
            ;
        }
        let mut q = Uint256 { hi: 0, lo: 0 };
        proof {
            let qv = q.value();
            assert(qv * y == 0) by (nonlinear_arith)
                requires
                    qv == 0,
            ;
        }
        let mut i: u32 = 256;
        while i > 0
            invariant
                i <= 256,
                y >= 1,
                x == self.value(),
                y == o.value(),
                0 <= x < half() * half(),
                q.value() * y <= x,
                x < (q.value() + pow2(i as nat)) * y,
            decreases i,
        {
            let e: u32 = i - 1;
            proof {
                lemma_pow2_unfold(i as nat);
            }
            let p = Uint256::pow2_of(&Uint256 { hi: 0, lo: e as u128 }).unwrap();
            let ghost (qv, pe) = (q.value(), pow2(e as nat) as int);
            let mut taken = false;
            match q.checked_add(&p) {
                Some(c) => match c.checked_mul(o) {
                    Some(m) => {
                        if m.hi < self.hi || (m.hi == self.hi && m.lo <= self.lo) {
                            q = c;
                            taken = true;
                        }
                    },
                    None => {},
                },
                None => {
                    proof {
                        assert((qv + pe) * y >= qv + pe) by (nonlinear_arith)
                            requires
                                y >= 1,
                                qv + pe >= 0,
                        ;
                    }
                },
            }
            proof {
                assert((qv + pow2(i as nat)) * y == (qv + pe + pe) * y) by (nonlinear_arith)
                    requires
                        pow2(i as nat) == 2 * pe,
                ;
                if !taken {
                    assert(x < (qv + pe) * y);
                }
            }
            i = e;
        }
        proof {
            assert(pow2(0) == 1) by {
                lemma2_to64();
            }
            assert(q.value() * y <= x);
            assert(q.value() < half() * half()) by (nonlinear_arith)
                requires
                    q.value() * y <= x,
                    x < half() * half(),
                    y >= 1,
                    q.value() >= 0,
            ;
        }
        let m = q.checked_mul(o);
        let m = m.unwrap();
        let r = self.checked_sub(&m).unwrap();
        proof {
            assert(r.value() < y) by (nonlinear_arith)
                requires
                    x < (q.value() + 1) * y,
                    r.value() == x - q.value() * y,
            ;
            lemma_fundamental_div_mod_converse(x, y, q.value(), r.value());
        }
        Some((q, r))
    }

    /// 2^k as a word, for a shift amount below 256.
    pub fn pow2_of(k: &Uint256) -> (r: Option<Uint256>)
        ensures
            r is Some <==> k.value() < 256,
            r matches Some(p) ==> p.value() == pow2(k.value() as nat),
    {
        if k.hi != 0 || k.lo >= 256 {
            None
        } else {
            let m = Uint256::ones(k.lo as u32);
            proof {
                lemma_pow2_strictly_increases(k.lo as nat, 256);
                lemma_half();
                lemma_pow2_adds(128, 128);
            }
            m.checked_add(&Uint256 { hi: 0, lo: 1 })
        }
    }
}

impl Int256 {
    /// The magnitude, as an unsigned word.
    pub fn magnitude(&self) -> (r: Uint256)
        ensures
            r.value() == abs_of(self.value()),
    {
        if self.hi >= 0 {
            Uint256 { hi: self.hi as u128, lo: self.lo }
        } else if self.lo == 0 {
            Uint256 { hi: ((-(self.hi + 1)) as u128) + 1, lo: 0 }
        } else {
            Uint256 { hi: (-(self.hi + 1)) as u128, lo: (u128::MAX - self.lo) + 1 }
        }
    }

    /// The signed word `m` (or `-m` when `neg`), where it fits.
    pub fn from_magnitude(m: &Uint256, neg: bool) -> (r: Option<Int256>)
        ensures
            r is Some <==> in_int256(if neg { -m.value() } else { m.value() }),
            r matches Some(v) ==> v.value() == (if neg { -m.value() } else { m.value() }),
    {
        if !neg {
            if m.hi >= 0x8000_0000_0000_0000_0000_0000_0000_0000 {
                None
            } else {
                Some(Int256 { hi: m.hi as i128, lo: m.lo })
            }
        } else if m.lo == 0 {
            if m.hi > 0x8000_0000_0000_0000_0000_0000_0000_0000 {
                None
            } else if m.hi == 0 {
                Some(Int256 { hi: 0, lo: 0 })
            } else {
                Some(Int256 { hi: -((m.hi - 1) as i128) - 1, lo: 0 })
            }
        } else if m.hi >= 0x8000_0000_0000_0000_0000_0000_0000_0000 {
            None
        } else {
            Some(Int256 { hi: -(m.hi as i128) - 1, lo: u128::MAX - m.lo + 1 })
        }
    }

    pub open spec fn value(&self) -> int {
        self.hi * half() + self.lo
    }

    /// The smallest value, -2^255.
    pub fn min_value() -> (r: Int256)
        ensures
            r.value() == -(half() * half() / 2),
    {
        Int256 { hi: i128::MIN, lo: 0 }
    }

    /// The largest value, 2^255 - 1.
    pub fn max_value() -> (r: Int256)
        ensures
            r.value() == half() * half() / 2 - 1,
    {
        Int256 { hi: i128::MAX, lo: u128::MAX }
    }

    /// The value of a non-negative unsigned word below 2^255.
    pub fn from_uint(u: &Uint256) -> (r: Int256)
        requires
            u.value() < half() * half() / 2,
        ensures
            r.value() == u.value(),
    {
        Int256 { hi: u.hi as i128, lo: u.lo }
    }

    pub fn negate(&self) -> (r: Int256)
        requires
            self.value() > -(half() * half() / 2),
        ensures
            r.value() == -self.value(),
    {
        let z = Int256 { hi: 0, lo: 0 };
        let r = z.checked_sub(self);
        r.unwrap()
    }

    pub fn cmp(&self, o: &Int256) -> (r: core::cmp::Ordering)
        ensures
            r == ord_of(self.value(), o.value()),
    {
        if self.hi < o.hi {
            core::cmp::Ordering::Less
        } else if self.hi > o.hi {
            core::cmp::Ordering::Greater
        } else if self.lo < o.lo {
            core::cmp::Ordering::Less
        } else if self.lo > o.lo {
            core::cmp::Ordering::Greater
        } else {
            core::cmp::Ordering::Equal
        }
    }

    /// The sum, or `None` where it leaves the signed 256-bit range.
    pub fn checked_add(&self, o: &Int256) -> (r: Option<Int256>)
        ensures
            r is Some <==> in_int256(self.value() + o.value()),
            r matches Some(s) ==> s.value() == self.value() + o.value(),
    {
        let (lo, carry) = add_halves(self.lo, o.lo);
        let c = carry as i128;
        let hi = if self.hi < 0 {
            (self.hi + c).checked_add(o.hi)
        } else if o.hi < 0 {
            (o.hi + c).checked_add(self.hi)
        } else {
            match self.hi.checked_add(o.hi) {
                Some(h) => h.checked_add(c),
                None => None,
            }
        };
        match hi {
            Some(hi) => Some(Int256 { hi, lo }),
            None => None,
        }
    }

    /// The difference, or `None` where it leaves the signed 256-bit range.
    pub fn checked_sub(&self, o: &Int256) -> (r: Option<Int256>)
        ensures
            r is Some <==> in_int256(self.value() - o.value()),
            r matches Some(s) ==> s.value() == self.value() - o.value(),
    {
        let (lo, borrow) = sub_halves(self.lo, o.lo);
        let b = borrow as i128;
        let hi = if self.hi >= 0 {
            (self.hi - b).checked_sub(o.hi)
        } else {
            match self.hi.checked_sub(o.hi) {
                Some(h) => h.checked_sub(b),
                None => None,
            }
        };
        match hi {
            Some(hi) => Some(Int256 { hi, lo }),
            None => None,
        }
    }
}

/// The unsigned word whose value is `v`, for `v` in `[0, 2^256)`.
pub open spec fn uint_of(v: int) -> Uint256 {
    Uint256 { hi: (v / half()) as u128, lo: (v % half()) as u128 }
}

/// The signed word whose value is `v`, for `v` in the signed 256-bit range.
pub open spec fn int_of(v: int) -> Int256 {
    Int256 { hi: (v / half()) as i128, lo: (v % half()) as u128 }
}

/// A word is determined by its value.
pub proof fn lemma_uint_canonical(u: Uint256)
    ensures
        u == uint_of(u.value()),
{
    lemma_fundamental_div_mod_converse(u.value(), half(), u.hi as int, u.lo as int);
}

/// A signed word is determined by its value.
pub proof fn lemma_int_canonical(u: Int256)
    ensures
        u == int_of(u.value()),
{
    lemma_fundamental_div_mod_converse(u.value(), half(), u.hi as int, u.lo as int);
}

pub open spec fn abs_of(v: int) -> int {
    if v < 0 {
        -v
    } else {
        v
    }
}

/// Whether `v` fits in a signed 256-bit word.
pub open spec fn in_int256(v: int) -> bool {
    -(half() * half() / 2) <= v < half() * half() / 2
}

/// The ordering of two mathematical integers.
pub open spec fn ord_of(a: int, b: int) -> core::cmp::Ordering {
    if a < b {
        core::cmp::Ordering::Less
    } else if a > b {
        core::cmp::Ordering::Greater
    } else {
        core::cmp::Ordering::Equal
    }
}

/// 2^128 as a power of two.
pub proof fn lemma_half()
    ensures
        half() == pow2(128),
{
    lemma2_to64_rest();
    lemma_pow2_adds(64, 64);
}

/// `p` times 2^64, as a word.
fn shifted_half(p: u128) -> (r: Uint256)
    ensures
        r.value() == p * 0x1_0000_0000_0000_0000,
{
    let m1 = p / 0x1_0000_0000_0000_0000;
    let m0 = p % 0x1_0000_0000_0000_0000;
    proof {
        lemma_fundamental_div_mod(p as int, 0x1_0000_0000_0000_0000);
    }
    Uint256 { hi: m1, lo: m0 * 0x1_0000_0000_0000_0000 }
}

/// The full product of two halves.
fn mul_halves(a: u128, b: u128) -> (r: Uint256)
    ensures
        r.value() == a * b,
{
    let k: u128 = 0x1_0000_0000_0000_0000;
    let (a1, a0, b1, b0) = (a / k, a % k, b / k, b % k);
    proof {
        lemma_fundamental_div_mod(a as int, k as int);
        lemma_fundamental_div_mod(b as int, k as int);
        assert(a0 * b0 < half() && a0 * b1 < half() && a1 * b0 < half() && a1 * b1 < half()) by (nonlinear_arith)
            requires
                a0 < k,
                b0 < k,
                a1 < k,
                b1 < k,
                k * k == half(),
        ;
    }
    let p00 = a0 * b0;
    let p01 = a0 * b1;
    let p10 = a1 * b0;
    let p11 = a1 * b1;
    let base = Uint256 { hi: p11, lo: p00 };
    let m1 = shifted_half(p01);
    let m2 = shifted_half(p10);
    proof {
        assert(a * b == base.value() + m1.value() + m2.value()) by (nonlinear_arith)
            requires
                a == a1 * k + a0,
                b == b1 * k + b0,
                k * k == half(),
                base.value() == p11 * half() + p00,
                m1.value() == p01 * k,
                m2.value() == p10 * k,
                p00 == a0 * b0,
                p01 == a0 * b1,
                p10 == a1 * b0,
                p11 == a1 * b1,
        ;
        assert(a * b < half() * half()) by (nonlinear_arith)
            requires
                a < half(),
                b < half(),
                a >= 0,
                b >= 0,
        ;
    }
    let s = base.checked_add(&m1).unwrap();
    s.checked_add(&m2).unwrap()
}

/// Adds two low halves: the low half of the sum and the carry.
fn add_halves(a: u128, b: u128) -> (r: (u128, u128))
    ensures
        r.1 <= 1,
        r.0 + r.1 * half() == a + b,
{
    match a.checked_add(b) {
        Some(s) => (s, 0),
        None => (a - (u128::MAX - b) - 1, 1),
    }
}

/// Subtracts two low halves: the low half of the difference and the borrow.
fn sub_halves(a: u128, b: u128) -> (r: (u128, u128))
    ensures
        r.1 <= 1,
        r.0 - r.1 * half() == a - b,
{
    if a >= b {
        (a - b, 0)
    } else {
        (a + (u128::MAX - b) + 1, 1)
    }
}

} // verus!
