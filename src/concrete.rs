use vstd::prelude::*;
use vstd::arithmetic::power2::{lemma_pow2_pos, pow2};
use crate::word::{abs_of, in_int256, half, int_of, lemma_int_canonical, lemma_uint_canonical, ord_of, uint_of, Int256, Uint256};

verus! {

/// A source location, kept only for diagnostics.
#[derive(Clone, Copy, Debug, PartialEq, Eq, PartialOrd, Ord, Hash)]
pub enum Loc {
    Implicit,
    File(usize, usize, usize),
}

/// A concrete value of the analysed language.
#[derive(Clone, Copy, Debug, PartialEq, Eq, PartialOrd, Ord, Hash)]
pub enum Concrete {
    Bool(bool),
    /// An unsigned integer of the given bit width.
    Uint(u16, Uint256),
    /// A signed integer of the given bit width.
    Int(u16, Int256),
    Address([u8; 20]),
    /// A fixed-size byte string of the given length, left-aligned in 32 bytes.
    Bytes(u8, [u8; 32]),
}

/// A primitive type of the analysed language.
#[derive(Clone, Copy, Debug, PartialEq, Eq, PartialOrd, Ord, Hash)]
pub enum Builtin {
    Address,
    Bool,
    String,
    Bytes(u8),
    DynamicBytes,
    Int(u16),
    Uint(u16),
}

impl Builtin {
    /// Integer widths are multiples of 8 from 8 to 256.
    pub open spec fn wf(self) -> bool {
        match self {
            Builtin::Int(w) => 8 <= w <= 256 && w % 8 == 0,
            Builtin::Uint(w) => 8 <= w <= 256 && w % 8 == 0,
            _ => true,
        }
    }
}

/// A concrete value used as a range bound.
#[derive(Clone, Copy, Debug, PartialEq, Eq, PartialOrd, Ord, Hash)]
pub struct RangeConcrete {
    pub val: Concrete,
    pub loc: Loc,
}

pub open spec fn bool_rank(b: bool) -> int {
    if b {
        1
    } else {
        0
    }
}

/// Lexicographic order of two byte strings, from index `i` on.
pub open spec fn bytes_ord_from(a: Seq<u8>, b: Seq<u8>, i: int) -> core::cmp::Ordering
    decreases a.len() - i,
{
    if i < 0 || i >= a.len() || i >= b.len() {
        ord_of(a.len() as int, b.len() as int)
    } else if a[i] < b[i] {
        core::cmp::Ordering::Less
    } else if a[i] > b[i] {
        core::cmp::Ordering::Greater
    } else {
        bytes_ord_from(a, b, i + 1)
    }
}

/// The order of two concrete values: defined between values of one kind only.
pub open spec fn concrete_ord(a: Concrete, b: Concrete) -> Option<core::cmp::Ordering> {
    match (a, b) {
        (Concrete::Bool(x), Concrete::Bool(y)) => Some(ord_of(bool_rank(x), bool_rank(y))),
        (Concrete::Uint(_, x), Concrete::Uint(_, y)) => Some(ord_of(x.value(), y.value())),
        (Concrete::Int(_, x), Concrete::Int(_, y)) => Some(ord_of(x.value(), y.value())),
        (Concrete::Address(x), Concrete::Address(y)) => Some(bytes_ord_from(x@, y@, 0)),
        (Concrete::Bytes(_, x), Concrete::Bytes(_, y)) => Some(bytes_ord_from(x@, y@, 0)),
        _ => None,
    }
}

/// The sum of two integers of one kind (or a signed one and an unsigned one below 2^255), at the left operand's width, where it fits in 256 bits.
pub open spec fn concrete_add(a: Concrete, b: Concrete) -> Option<Concrete> {
    match (a, b) {
        (Concrete::Uint(w, x), Concrete::Uint(_, y)) => if x.value() + y.value() < half() * half() {
            Some(Concrete::Uint(w, uint_of(x.value() + y.value())))
        } else {
            None
        },
        (Concrete::Int(w, x), Concrete::Int(_, y)) => if in_int256(x.value() + y.value()) {
            Some(Concrete::Int(w, int_of(x.value() + y.value())))
        } else {
            None
        },
        (Concrete::Int(w, x), Concrete::Uint(_, y)) => if y.value() < half() * half() / 2 && in_int256(
            x.value() + y.value(),
        ) {
            Some(Concrete::Int(w, int_of(x.value() + y.value())))
        } else {
            None
        },
        _ => None,
    }
}

/// The difference of two integers of one kind (or a signed one and an unsigned one below 2^255), at the left operand's width, where it fits.
pub open spec fn concrete_sub(a: Concrete, b: Concrete) -> Option<Concrete> {
    match (a, b) {
        (Concrete::Uint(w, x), Concrete::Uint(_, y)) => if x.value() >= y.value() {
            Some(Concrete::Uint(w, uint_of(x.value() - y.value())))
        } else {
            None
        },
        (Concrete::Int(w, x), Concrete::Int(_, y)) => if in_int256(x.value() - y.value()) {
            Some(Concrete::Int(w, int_of(x.value() - y.value())))
        } else {
            None
        },
        (Concrete::Int(w, x), Concrete::Uint(_, y)) => if y.value() < half() * half() / 2 && in_int256(
            x.value() - y.value(),
        ) {
            Some(Concrete::Int(w, int_of(x.value() - y.value())))
        } else {
            None
        },
        _ => None,
    }
}

/// The product of two integers of one kind, at the left operand's width, where it fits in 256 bits.
pub open spec fn concrete_mul(a: Concrete, b: Concrete) -> Option<Concrete> {
    match (a, b) {
        (Concrete::Uint(w, x), Concrete::Uint(_, y)) => if x.value() * y.value() < half() * half() {
            Some(Concrete::Uint(w, uint_of(x.value() * y.value())))
        } else {
            None
        },
        (Concrete::Int(w, x), Concrete::Int(_, y)) => if in_int256(x.value() * y.value()) {
            Some(Concrete::Int(w, int_of(x.value() * y.value())))
        } else {
            None
        },
        _ => None,
    }
}

/// The quotient (or, with `rem`, the remainder) of two integers of one kind, at the
/// left operand's width, where the divisor is not zero and the result fits. Signed
/// division truncates toward zero; the remainder takes the dividend's sign.
pub open spec fn concrete_div(a: Concrete, b: Concrete, rem: bool) -> Option<Concrete> {
    match (a, b) {
        (Concrete::Uint(w, x), Concrete::Uint(_, y)) => if y.value() != 0 {
            Some(Concrete::Uint(w, uint_of(if rem { x.value() % y.value() } else { x.value() / y.value() })))
        } else {
            None
        },
        (Concrete::Int(w, x), Concrete::Int(_, y)) => {
            let v = if rem {
                trunc_rem(x.value(), y.value())
            } else {
                trunc_div(x.value(), y.value())
            };
            if y.value() != 0 && in_int256(v) {
                Some(Concrete::Int(w, int_of(v)))
            } else {
                None
            }
        },
        _ => None,
    }
}

/// An unsigned integer shifted left by an unsigned amount below 256, where the result fits in 256 bits.
pub open spec fn concrete_shl(a: Concrete, b: Concrete) -> Option<Concrete> {
    match (a, b) {
        (Concrete::Uint(w, x), Concrete::Uint(_, k)) => if k.value() < 256 && x.value() * pow2(k.value() as nat) < half() * half() {
            Some(Concrete::Uint(w, uint_of(x.value() * pow2(k.value() as nat))))
        } else {
            None
        },
        _ => None,
    }
}

/// An unsigned integer shifted right by an unsigned amount below 256.
pub open spec fn concrete_shr(a: Concrete, b: Concrete) -> Option<Concrete> {
    match (a, b) {
        (Concrete::Uint(w, x), Concrete::Uint(_, k)) => if k.value() < 256 {
            Some(Concrete::Uint(w, uint_of(x.value() / (pow2(k.value() as nat) as int))))
        } else {
            None
        },
        _ => None,
    }
}

/// Signed quotient, truncated toward zero.
pub open spec fn trunc_div(x: int, y: int) -> int {
    let q = abs_of(x) / abs_of(y);
    if (x < 0) != (y < 0) {
        -q
    } else {
        q
    }
}

/// Signed remainder, with the dividend's sign.
pub open spec fn trunc_rem(x: int, y: int) -> int {
    let r = abs_of(x) % abs_of(y);
    if x < 0 {
        -r
    } else {
        r
    }
}

fn cmp_bytes<const N: usize>(a: &[u8; N], b: &[u8; N]) -> (r: core::cmp::Ordering)
    ensures
        r == bytes_ord_from(a@, b@, 0),
{
    let mut i: usize = 0;
    while i < N && a[i] == b[i]
        invariant
            i <= N,
            a@.len() == N,
            b@.len() == N,
            bytes_ord_from(a@, b@, 0) == bytes_ord_from(a@, b@, i as int),
        decreases N - i,
    {
        i = i + 1;
    }
    if i == N {
        core::cmp::Ordering::Equal
    } else if a[i] < b[i] {
        core::cmp::Ordering::Less
    } else {
        core::cmp::Ordering::Greater
    }
}

impl Concrete {
    /// Compares two values of one kind; `None` across kinds.
    pub fn range_ord(&self, o: &Concrete) -> (r: Option<core::cmp::Ordering>)
        ensures
            r == concrete_ord(*self, *o),
    {
        match (self, o) {
            (Concrete::Bool(x), Concrete::Bool(y)) => Some(
                if *x == *y {
                    core::cmp::Ordering::Equal
                } else if *y {
                    core::cmp::Ordering::Less
                } else {
                    core::cmp::Ordering::Greater
                },
            ),
            (Concrete::Uint(_, x), Concrete::Uint(_, y)) => Some(x.cmp(y)),
            (Concrete::Int(_, x), Concrete::Int(_, y)) => Some(x.cmp(y)),
            (Concrete::Address(x), Concrete::Address(y)) => Some(cmp_bytes(x, y)),
            (Concrete::Bytes(_, x), Concrete::Bytes(_, y)) => Some(cmp_bytes(x, y)),
            _ => None,
        }
    }

    pub fn checked_add(&self, o: &Concrete) -> (r: Option<Concrete>)
        ensures
            r == concrete_add(*self, *o),
    {
        match (self, o) {
            (Concrete::Uint(w, x), Concrete::Uint(_, y)) => match x.checked_add(y) {
                Some(s) => {
                    proof {
                        lemma_uint_canonical(s);
                    }
                    Some(Concrete::Uint(*w, s))
                },
                None => None,
            },
            (Concrete::Int(w, x), Concrete::Int(_, y)) => match x.checked_add(y) {
                Some(s) => {
                    proof {
                        lemma_int_canonical(s);
                    }
                    Some(Concrete::Int(*w, s))
                },
                None => None,
            },
            (Concrete::Int(w, x), Concrete::Uint(_, y)) => {
                if y.hi >= 0x8000_0000_0000_0000_0000_0000_0000_0000 {
                    None
                } else {
                    match x.checked_add(&Int256::from_uint(y)) {
                        Some(s) => {
                            proof {
                                lemma_int_canonical(s);
                            }
                            Some(Concrete::Int(*w, s))
                        },
                        None => None,
                    }
                }
            },
            _ => None,
        }
    }

    pub fn checked_sub(&self, o: &Concrete) -> (r: Option<Concrete>)
        ensures
            r == concrete_sub(*self, *o),
    {
        match (self, o) {
            (Concrete::Uint(w, x), Concrete::Uint(_, y)) => match x.checked_sub(y) {
                Some(s) => {
                    proof {
                        lemma_uint_canonical(s);
                    }
                    Some(Concrete::Uint(*w, s))
                },
                None => None,
            },
            (Concrete::Int(w, x), Concrete::Int(_, y)) => match x.checked_sub(y) {
                Some(s) => {
                    proof {
                        lemma_int_canonical(s);
                    }
                    Some(Concrete::Int(*w, s))
                },
                None => None,
            },
            (Concrete::Int(w, x), Concrete::Uint(_, y)) => {
                if y.hi >= 0x8000_0000_0000_0000_0000_0000_0000_0000 {
                    None
                } else {
                    match x.checked_sub(&Int256::from_uint(y)) {
                        Some(s) => {
                            proof {
                                lemma_int_canonical(s);
                            }
                            Some(Concrete::Int(*w, s))
                        },
                        None => None,
                    }
                }
            },
            _ => None,
        }
    }
}

impl Concrete {
    pub fn checked_mul(&self, o: &Concrete) -> (r: Option<Concrete>)
        ensures
            r == concrete_mul(*self, *o),
    {
        match (self, o) {
            (Concrete::Uint(w, x), Concrete::Uint(_, y)) => match x.checked_mul(y) {
                Some(p) => {
                    proof {
                        lemma_uint_canonical(p);
                    }
                    Some(Concrete::Uint(*w, p))
                },
                None => None,
            },
            (Concrete::Int(w, x), Concrete::Int(_, y)) => {
                let neg = (x.hi < 0) != (y.hi < 0);
                let (mx, my) = (x.magnitude(), y.magnitude());
                proof {
                    let (a, b, ax, ay) = (x.value(), y.value(), mx.value(), my.value());
                    assert(a * b == (if neg { -(ax * ay) } else { ax * ay })) by (nonlinear_arith)
                        requires
                            ax == (if a < 0 { -a } else { a }),
                            ay == (if b < 0 { -b } else { b }),
                            neg == ((a < 0) != (b < 0)),
                    ;
                }
                match mx.checked_mul(&my) {
                    Some(p) => match Int256::from_magnitude(&p, neg) {
                        Some(v) => {
                            proof {
                                lemma_int_canonical(v);
                            }
                            Some(Concrete::Int(*w, v))
                        },
                        None => None,
                    },
                    None => None,
                }
            },
            _ => None,
        }
    }

    pub fn checked_div(&self, o: &Concrete, rem: bool) -> (r: Option<Concrete>)
        ensures
            r == concrete_div(*self, *o, rem),
    {
        match (self, o) {
            (Concrete::Uint(w, x), Concrete::Uint(_, y)) => match x.checked_div_rem(y) {
                Some(qr) => {
                    let v = if rem {
                        qr.1
                    } else {
                        qr.0
                    };
                    proof {
                        lemma_uint_canonical(v);
                    }
                    Some(Concrete::Uint(*w, v))
                },
                None => None,
            },
            (Concrete::Int(w, x), Concrete::Int(_, y)) => {
                let (mx, my) = (x.magnitude(), y.magnitude());
                match mx.checked_div_rem(&my) {
                    Some(qr) => {
                        let (v, neg) = if rem {
                            (qr.1, x.hi < 0)
                        } else {
                            (qr.0, (x.hi < 0) != (y.hi < 0))
                        };
                        match Int256::from_magnitude(&v, neg) {
                            Some(s) => {
                                proof {
                                    lemma_int_canonical(s);
                                }
                                Some(Concrete::Int(*w, s))
                            },
                            None => None,
                        }
                    },
                    None => None,
                }
            },
            _ => None,
        }
    }

    pub fn checked_shl(&self, o: &Concrete) -> (r: Option<Concrete>)
        ensures
            r == concrete_shl(*self, *o),
    {
        match (self, o) {
            (Concrete::Uint(w, x), Concrete::Uint(_, k)) => match Uint256::pow2_of(k) {
                Some(p) => match x.checked_mul(&p) {
                    Some(v) => {
                        proof {
                            lemma_uint_canonical(v);
                        }
                        Some(Concrete::Uint(*w, v))
                    },
                    None => None,
                },
                None => None,
            },
            _ => None,
        }
    }

    pub fn checked_shr(&self, o: &Concrete) -> (r: Option<Concrete>)
        ensures
            r == concrete_shr(*self, *o),
    {
        match (self, o) {
            (Concrete::Uint(w, x), Concrete::Uint(_, k)) => match Uint256::pow2_of(k) {
                Some(p) => {
                    proof {
                        lemma_pow2_pos(k.value() as nat);
                    }
                    match x.checked_div_rem(&p) {
                        Some(qr) => {
                            proof {
                                lemma_uint_canonical(qr.0);
                            }
                            Some(Concrete::Uint(*w, qr.0))
                        },
                        None => None,
                    }
                },
                None => None,
            },
            _ => None,
        }
    }
}

} // verus!
