use vstd::prelude::*;
use vstd::arithmetic::power2::{lemma_pow2_adds, lemma_pow2_strictly_increases, lemma_pow2_unfold, pow2};
use crate::analyzer::{elem_ord, eval_spec, latest_of, Analyzer, EVAL_DEPTH};
use crate::concrete::{Builtin, Concrete, Loc, RangeConcrete};
use crate::elem::{deps_of, leaf, lookup, node, remap, ContextNode, ContextVarNode, DynSide, Dynamic, Elem, RangeOp};
use crate::word::{half, int_of, lemma_half, lemma_int_canonical, lemma_uint_canonical, uint_of, Int256, Uint256};

verus! {

/// The interval of one variable at one version: a lower and an upper bound.
#[derive(Debug, PartialEq, Eq, PartialOrd, Ord, Hash)]
pub struct SolcRange {
    pub min: Elem,
    pub max: Elem,
}

impl Clone for SolcRange {
    fn clone(&self) -> (r: SolcRange)
        ensures
            r == *self,
    {
        SolcRange { min: self.min.duplicate(), max: self.max.duplicate() }
    }
}

/// A range whose two bounds are the given constants.
pub open spec fn span(lo: Concrete, hi: Concrete) -> SolcRange {
    SolcRange { min: leaf(lo, Loc::Implicit), max: leaf(hi, Loc::Implicit) }
}

/// A reference to one bound of `other`.
pub open spec fn dyn_ref(other: ContextVarNode, side: DynSide, loc: Loc) -> Elem {
    Elem::Dynamic(Dynamic { idx: other, side, loc })
}

/// The constant one, as a 256-bit unsigned leaf.
pub open spec fn one() -> Elem {
    leaf(Concrete::Uint(256, uint_of(1)), Loc::Implicit)
}

/// The sides of the other variable that an operator reads by default, for the
/// result's lower and upper bound.
pub open spec fn default_sides(op: RangeOp) -> (DynSide, DynSide) {
    match op {
        RangeOp::Sub | RangeOp::Div | RangeOp::Shr => (DynSide::Max, DynSide::Min),
        _ => (DynSide::Min, DynSide::Max),
    }
}

/// The range that folds `other` into `r` under `op`, reading its bounds on `sides`.
pub open spec fn combined(op: RangeOp, r: SolcRange, other: ContextVarNode, sides: (DynSide, DynSide), loc: Loc) -> SolcRange {
    let a = dyn_ref(other, sides.0, loc);
    let b = dyn_ref(other, sides.1, loc);
    match op {
        RangeOp::Add => SolcRange { min: node(r.min, RangeOp::Add, a), max: node(r.max, RangeOp::Add, b) },
        RangeOp::Sub => SolcRange { min: node(r.min, RangeOp::Sub, a), max: node(r.max, RangeOp::Sub, b) },
        RangeOp::Mul => SolcRange { min: node(r.min, RangeOp::Mul, a), max: node(r.max, RangeOp::Mul, b) },
        RangeOp::Div => SolcRange { min: node(r.min, RangeOp::Div, a), max: node(r.max, RangeOp::Div, b) },
        RangeOp::Shl => SolcRange { min: node(r.min, RangeOp::Shl, a), max: node(r.max, RangeOp::Shl, b) },
        RangeOp::Shr => SolcRange { min: node(r.min, RangeOp::Shr, a), max: node(r.max, RangeOp::Shr, b) },
        RangeOp::Mod => SolcRange {
            min: node(r.min, RangeOp::Min, node(r.min, RangeOp::Mod, a)),
            max: node(b, RangeOp::Min, node(r.max, RangeOp::Mod, b)),
        },
        RangeOp::Min => SolcRange { min: node(r.min, RangeOp::Min, a), max: node(r.max, RangeOp::Min, b) },
        RangeOp::Max => SolcRange { min: node(r.min, RangeOp::Max, a), max: node(r.max, RangeOp::Max, b) },
        RangeOp::Lt => SolcRange { min: r.min, max: node(r.max, RangeOp::Min, node(b, RangeOp::Sub, one())) },
        RangeOp::Lte => SolcRange { min: r.min, max: node(r.max, RangeOp::Min, b) },
        RangeOp::Gt => SolcRange { min: node(r.min, RangeOp::Max, node(a, RangeOp::Add, one())), max: r.max },
        RangeOp::Gte => SolcRange { min: node(r.min, RangeOp::Max, a), max: r.max },
        RangeOp::Eq => {
            let lo = node(r.min, RangeOp::Max, a);
            let hi = node(r.max, RangeOp::Min, b);
            SolcRange { min: node(lo, RangeOp::Max, hi), max: node(lo, RangeOp::Max, hi) }
        },
        RangeOp::Neq => SolcRange { min: node(r.min, RangeOp::Neq, a), max: node(r.max, RangeOp::Neq, b) },
    }
}

/// The full domain of a primitive type, where it has one.
pub open spec fn builtin_domain(b: Builtin) -> Option<SolcRange> {
    match b {
        Builtin::Uint(w) => Some(span(Concrete::Uint(w, uint_of(0)), Concrete::Uint(w, uint_of(pow2(w as nat) - 1)))),
        Builtin::Int(w) => if w == 256 {
            Some(span(Concrete::Int(w, int_of(-(half() * half() / 2))), Concrete::Int(w, int_of(half() * half() / 2 - 1))))
        } else {
            Some(span(Concrete::Int(w, int_of(-pow2((w - 1) as nat))), Concrete::Int(w, int_of(pow2((w - 1) as nat) - 1))))
        },
        Builtin::Bool => Some(span(Concrete::Bool(false), Concrete::Bool(true))),
        _ => None,
    }
}

/// A leaf holding an address all of whose bytes are `byte`.
pub open spec fn is_address_leaf(e: Elem, byte: u8) -> bool {
    &&& e matches Elem::Concrete(c)
    &&& c.loc == Loc::Implicit
    &&& c.val matches Concrete::Address(a)
    &&& forall|i: int| 0 <= i < 20 ==> a@[i] == byte
}

/// Feasible unless both bounds resolve to values with the lower above the upper.
pub open spec fn sat_of(min: Elem, max: Elem, rs: Seq<(ContextVarNode, SolcRange)>) -> bool {
    !(elem_ord(eval_spec(min, rs, EVAL_DEPTH as nat), eval_spec(max, rs, EVAL_DEPTH as nat))
        == Some(core::cmp::Ordering::Greater))
}

/// `s` contains `o` when its lower bound is known not above `o`'s and its upper
/// bound known not below `o`'s.
pub open spec fn contains_of(s: SolcRange, o: SolcRange, rs: Seq<(ContextVarNode, SolcRange)>) -> bool {
    let lo = elem_ord(eval_spec(s.min, rs, EVAL_DEPTH as nat), eval_spec(o.min, rs, EVAL_DEPTH as nat));
    let hi = elem_ord(eval_spec(s.max, rs, EVAL_DEPTH as nat), eval_spec(o.max, rs, EVAL_DEPTH as nat));
    &&& (lo == Some(core::cmp::Ordering::Less) || lo == Some(core::cmp::Ordering::Equal))
    &&& (hi == Some(core::cmp::Ordering::Greater) || hi == Some(core::cmp::Ordering::Equal))
}

/// A combinator chosen by operator: folds another variable into a range.
#[derive(Clone, Copy, Debug, PartialEq, Eq)]
pub struct DynFn {
    pub op: RangeOp,
}

impl DynFn {
    pub fn call(&self, range: SolcRange, other: ContextVarNode, range_sides: (DynSide, DynSide), loc: Loc) -> (r: SolcRange)
        ensures
            r == combined(self.op, range, other, range_sides, loc),
    {
        match self.op {
            RangeOp::Add => range.add_dyn(other, range_sides, loc),
            RangeOp::Sub => range.sub_dyn(other, range_sides, loc),
            RangeOp::Mul => range.mul_dyn(other, range_sides, loc),
            RangeOp::Div => range.div_dyn(other, range_sides, loc),
            RangeOp::Shl => range.shl_dyn(other, range_sides, loc),
            RangeOp::Shr => range.shr_dyn(other, range_sides, loc),
            RangeOp::Mod => range.mod_dyn(other, range_sides, loc),
            RangeOp::Min => range.min_dyn(other, range_sides, loc),
            RangeOp::Max => range.max_dyn(other, range_sides, loc),
            RangeOp::Lt => range.lt_dyn(other, range_sides, loc),
            RangeOp::Lte => range.lte_dyn(other, range_sides, loc),
            RangeOp::Gt => range.gt_dyn(other, range_sides, loc),
            RangeOp::Gte => range.gte_dyn(other, range_sides, loc),
            RangeOp::Eq => range.eq_dyn(other, range_sides, loc),
            RangeOp::Neq => range.neq_dyn(other, range_sides, loc),
        }
    }
}

fn dynamic(other: ContextVarNode, side: DynSide, loc: Loc) -> (r: Elem)
    ensures
        r == dyn_ref(other, side, loc),
{
    Elem::Dynamic(Dynamic::new(other, side, loc))
}

fn concrete_leaf(val: Concrete) -> (r: Elem)
    ensures
        r == leaf(val, Loc::Implicit),
{
    Elem::Concrete(RangeConcrete { val, loc: Loc::Implicit })
}

fn one_leaf() -> (r: Elem)
    ensures
        r == one(),
{
    let v = Uint256::from_u128(1);
    proof {
        lemma_uint_canonical(v);
    }
    concrete_leaf(Concrete::Uint(256, v))
}

/// 2^255 is half of 2^256.
proof fn lemma_pow2_255()
    ensures
        pow2(255) == half() * half() / 2,
{
    lemma_half();
    lemma_pow2_adds(128, 128);
    lemma_pow2_unfold(256);
}

impl SolcRange {
    /// The boolean domain, `[false, true]`.
    pub fn default_bool() -> (r: SolcRange)
        ensures
            r == span(Concrete::Bool(false), Concrete::Bool(true)),
    {
        SolcRange { min: concrete_leaf(Concrete::Bool(false)), max: concrete_leaf(Concrete::Bool(true)) }
    }

    /// The point range `[b, b]`.
    pub fn from_bool(b: bool) -> (r: SolcRange)
        ensures
            r == span(Concrete::Bool(b), Concrete::Bool(b)),
    {
        SolcRange { min: concrete_leaf(Concrete::Bool(b)), max: concrete_leaf(Concrete::Bool(b)) }
    }

    /// The point range `[c, c]`; every kind of concrete value has one.
    pub fn from(c: Concrete) -> (r: Option<SolcRange>)
        ensures
            r == Some(span(c, c)),
    {
        Some(SolcRange { min: concrete_leaf(c), max: concrete_leaf(c) })
    }

    /// The full domain of a primitive type; `None` for types without one.
    pub fn try_from_builtin(builtin: &Builtin) -> (r: Option<SolcRange>)
        requires
            builtin.wf(),
        ensures
            *builtin != Builtin::Address ==> r == builtin_domain(*builtin),
            *builtin == Builtin::Address ==> (r matches Some(s) && is_address_leaf(s.min, 0x00) && is_address_leaf(s.max, 0xff)),
    {
        match builtin {
            Builtin::Uint(size) => {
                let zero = Uint256::zero();
                let top = if *size == 256 {
                    Uint256::max_value()
                } else {
                    Uint256::ones(*size as u32)
                };
                proof {
                    lemma_uint_canonical(zero);
                    lemma_uint_canonical(top);
                    if *size == 256 {
                        lemma_pow2_255();
                        lemma_pow2_unfold(256);
                    }
                }
                Some(SolcRange { min: concrete_leaf(Concrete::Uint(*size, zero)), max: concrete_leaf(Concrete::Uint(*size, top)) })
            },
            Builtin::Int(size) => {
                if *size == 256 {
                    let lo = Int256::min_value();
                    let hi = Int256::max_value();
                    proof {
                        lemma_int_canonical(lo);
                        lemma_int_canonical(hi);
                    }
                    Some(SolcRange { min: concrete_leaf(Concrete::Int(*size, lo)), max: concrete_leaf(Concrete::Int(*size, hi)) })
                } else {
                    let m = Uint256::ones((*size - 1) as u32);
                    proof {
                        lemma_pow2_255();
                        lemma_pow2_strictly_increases((*size - 1) as nat, 255);
                    }
                    let hi = Int256::from_uint(&m);
                    let lo = hi.negate().checked_sub(&Int256 { hi: 0, lo: 1 }).unwrap();
                    proof {
                        lemma_int_canonical(lo);
                        lemma_int_canonical(hi);
                    }
                    Some(SolcRange { min: concrete_leaf(Concrete::Int(*size, lo)), max: concrete_leaf(Concrete::Int(*size, hi)) })
                }
            },
            Builtin::Bool => Some(SolcRange::default_bool()),
            Builtin::Address => {
                let lo: [u8; 20] = [0x00u8; 20];
                let hi: [u8; 20] = [0xffu8; 20];
                Some(SolcRange { min: concrete_leaf(Concrete::Address(lo)), max: concrete_leaf(Concrete::Address(hi)) })
            },
            _ => None,
        }
    }

    /// The combinator for an operator, with the sides of the other variable it reads by default.
    pub fn dyn_fn_from_op(op: RangeOp) -> (r: (DynFn, (DynSide, DynSide)))
        ensures
            r.0.op == op,
            r.1 == default_sides(op),
    {
        let sides = match op {
            RangeOp::Sub | RangeOp::Div | RangeOp::Shr => (DynSide::Max, DynSide::Min),
            _ => (DynSide::Min, DynSide::Max),
        };
        (DynFn { op }, sides)
    }

    pub fn add_dyn(self, other: ContextVarNode, range_sides: (DynSide, DynSide), loc: Loc) -> (r: SolcRange)
        ensures
            r == combined(RangeOp::Add, self, other, range_sides, loc),
    {
        SolcRange {
            min: self.min.add(dynamic(other, range_sides.0, loc)),
            max: self.max.add(dynamic(other, range_sides.1, loc)),
        }
    }

    pub fn sub_dyn(self, other: ContextVarNode, range_sides: (DynSide, DynSide), loc: Loc) -> (r: SolcRange)
        ensures
            r == combined(RangeOp::Sub, self, other, range_sides, loc),
    {
        SolcRange {
            min: self.min.sub(dynamic(other, range_sides.0, loc)),
            max: self.max.sub(dynamic(other, range_sides.1, loc)),
        }
    }

    pub fn mul_dyn(self, other: ContextVarNode, range_sides: (DynSide, DynSide), loc: Loc) -> (r: SolcRange)
        ensures
            r == combined(RangeOp::Mul, self, other, range_sides, loc),
    {
        SolcRange {
            min: self.min.mul(dynamic(other, range_sides.0, loc)),
            max: self.max.mul(dynamic(other, range_sides.1, loc)),
        }
    }

    pub fn div_dyn(self, other: ContextVarNode, range_sides: (DynSide, DynSide), loc: Loc) -> (r: SolcRange)
        ensures
            r == combined(RangeOp::Div, self, other, range_sides, loc),
    {
        SolcRange {
            min: self.min.div(dynamic(other, range_sides.0, loc)),
            max: self.max.div(dynamic(other, range_sides.1, loc)),
        }
    }

    pub fn shl_dyn(self, other: ContextVarNode, range_sides: (DynSide, DynSide), loc: Loc) -> (r: SolcRange)
        ensures
            r == combined(RangeOp::Shl, self, other, range_sides, loc),
    {
        SolcRange {
            min: self.min.shl(dynamic(other, range_sides.0, loc)),
            max: self.max.shl(dynamic(other, range_sides.1, loc)),
        }
    }

    pub fn shr_dyn(self, other: ContextVarNode, range_sides: (DynSide, DynSide), loc: Loc) -> (r: SolcRange)
        ensures
            r == combined(RangeOp::Shr, self, other, range_sides, loc),
    {
        SolcRange {
            min: self.min.shr(dynamic(other, range_sides.0, loc)),
            max: self.max.shr(dynamic(other, range_sides.1, loc)),
        }
    }

    pub fn mod_dyn(self, other: ContextVarNode, range_sides: (DynSide, DynSide), loc: Loc) -> (r: SolcRange)
        ensures
            r == combined(RangeOp::Mod, self, other, range_sides, loc),
    {
        let lo = self.min.duplicate();
        SolcRange {
            min: lo.min(self.min.rem(dynamic(other, range_sides.0, loc))),
            max: dynamic(other, range_sides.1, loc).min(self.max.rem(dynamic(other, range_sides.1, loc))),
        }
    }

    pub fn min_dyn(self, other: ContextVarNode, range_sides: (DynSide, DynSide), loc: Loc) -> (r: SolcRange)
        ensures
            r == combined(RangeOp::Min, self, other, range_sides, loc),
    {
        SolcRange {
            min: self.min.min(dynamic(other, range_sides.0, loc)),
            max: self.max.min(dynamic(other, range_sides.1, loc)),
        }
    }

    pub fn max_dyn(self, other: ContextVarNode, range_sides: (DynSide, DynSide), loc: Loc) -> (r: SolcRange)
        ensures
            r == combined(RangeOp::Max, self, other, range_sides, loc),
    {
        SolcRange {
            min: self.min.max(dynamic(other, range_sides.0, loc)),
            max: self.max.max(dynamic(other, range_sides.1, loc)),
        }
    }

    pub fn lt_dyn(self, other: ContextVarNode, range_sides: (DynSide, DynSide), loc: Loc) -> (r: SolcRange)
        ensures
            r == combined(RangeOp::Lt, self, other, range_sides, loc),
    {
        SolcRange { min: self.min, max: self.max.min(dynamic(other, range_sides.1, loc).sub(one_leaf())) }
    }

    pub fn lte_dyn(self, other: ContextVarNode, range_sides: (DynSide, DynSide), loc: Loc) -> (r: SolcRange)
        ensures
            r == combined(RangeOp::Lte, self, other, range_sides, loc),
    {
        SolcRange { min: self.min, max: self.max.min(dynamic(other, range_sides.1, loc)) }
    }

    pub fn gt_dyn(self, other: ContextVarNode, range_sides: (DynSide, DynSide), loc: Loc) -> (r: SolcRange)
        ensures
            r == combined(RangeOp::Gt, self, other, range_sides, loc),
    {
        SolcRange { min: self.min.max(dynamic(other, range_sides.0, loc).add(one_leaf())), max: self.max }
    }

    pub fn gte_dyn(self, other: ContextVarNode, range_sides: (DynSide, DynSide), loc: Loc) -> (r: SolcRange)
        ensures
            r == combined(RangeOp::Gte, self, other, range_sides, loc),
    {
        SolcRange { min: self.min.max(dynamic(other, range_sides.0, loc)), max: self.max }
    }

    pub fn eq_dyn(self, other: ContextVarNode, range_sides: (DynSide, DynSide), loc: Loc) -> (r: SolcRange)
        ensures
            r == combined(RangeOp::Eq, self, other, range_sides, loc),
    {
        let lo = self.min.max(dynamic(other, range_sides.0, loc));
        let hi = self.max.min(dynamic(other, range_sides.1, loc));
        SolcRange { min: lo.duplicate().max(hi.duplicate()), max: lo.max(hi) }
    }

    pub fn neq_dyn(self, other: ContextVarNode, range_sides: (DynSide, DynSide), loc: Loc) -> (r: SolcRange)
        ensures
            r == combined(RangeOp::Neq, self, other, range_sides, loc),
    {
        SolcRange {
            min: self.min.neq(dynamic(other, range_sides.0, loc)),
            max: self.max.neq(dynamic(other, range_sides.1, loc)),
        }
    }
}

/// Get and set access to the two bounds of a range, with dependency tracking.
pub trait Range: Sized {
    spec fn min_spec(&self) -> Elem;

    spec fn max_spec(&self) -> Elem;

    fn range_min(&self) -> (r: Elem)
        ensures
            r == self.min_spec(),
    ;

    fn range_max(&self) -> (r: Elem)
        ensures
            r == self.max_spec(),
    ;

    fn set_range_min(&mut self, new: Elem)
        ensures
            final(self).min_spec() == new,
            final(self).max_spec() == old(self).max_spec(),
    ;

    fn set_range_max(&mut self, new: Elem)
        ensures
            final(self).max_spec() == new,
            final(self).min_spec() == old(self).min_spec(),
    ;

    /// The variables that either bound references: the lower bound's first.
    fn dependent_on(&self) -> (r: Vec<ContextVarNode>)
        ensures
            r@ == deps_of(self.min_spec()) + deps_of(self.max_spec()),
    ;

    /// Re-points every reference at the latest version of its variable in `ctx`.
    fn update_deps(&mut self, ctx: ContextNode, analyzer: &Analyzer)
        ensures
            final(self).min_spec() == remap(old(self).min_spec(), |v: ContextVarNode| latest_of(analyzer.versions@, v, ctx)),
            final(self).max_spec() == remap(old(self).max_spec(), |v: ContextVarNode| latest_of(analyzer.versions@, v, ctx)),
    ;
}

/// Feasibility and containment of ranges, judged through an analyzer.
pub trait RangeEval: Range {
    /// False only where both bounds resolve and the lower lies above the upper.
    fn sat(&self, analyzer: &Analyzer) -> (r: bool)
        ensures
            r == sat_of(self.min_spec(), self.max_spec(), analyzer.ranges@),
    ;

    fn unsat(&self, analyzer: &Analyzer) -> (r: bool)
        ensures
            r == !sat_of(self.min_spec(), self.max_spec(), analyzer.ranges@),
    ;

    /// True only where both comparisons resolve and `other` lies within.
    fn contains(&self, other: &Self, analyzer: &Analyzer) -> (r: bool)
        ensures
            r == contains_of(
                SolcRange { min: self.min_spec(), max: self.max_spec() },
                SolcRange { min: other.min_spec(), max: other.max_spec() },
                analyzer.ranges@,
            ),
    ;
}

impl Range for SolcRange {
    open spec fn min_spec(&self) -> Elem {
        self.min
    }

    open spec fn max_spec(&self) -> Elem {
        self.max
    }

    fn range_min(&self) -> (r: Elem) {
        self.min.duplicate()
    }

    fn range_max(&self) -> (r: Elem) {
        self.max.duplicate()
    }

    fn set_range_min(&mut self, new: Elem) {
        self.min = new;
    }

    fn set_range_max(&mut self, new: Elem) {
        self.max = new;
    }

    fn dependent_on(&self) -> (r: Vec<ContextVarNode>) {
        let mut deps = self.min.dependent_on();
        let mut rest = self.max.dependent_on();
        deps.append(&mut rest);
        deps
    }

    fn update_deps(&mut self, ctx: ContextNode, analyzer: &Analyzer) {
        let deps = self.dependent_on();
        let mut mapping: Vec<(ContextVarNode, ContextVarNode)> = Vec::new();
        let mut i: usize = 0;
        while i < deps.len()
            invariant
                i <= deps@.len(),
                mapping@.len() == i,
                forall|j: int| 0 <= j < i ==> #[trigger] mapping@[j] == (deps@[j], latest_of(analyzer.versions@, deps@[j], ctx)),
            decreases deps@.len() - i,
        {
            let dep = deps[i];
            mapping.push((dep, analyzer.latest_version(dep, ctx)));
            i = i + 1;
        }
        proof {
            let f = |v: ContextVarNode| latest_of(analyzer.versions@, v, ctx);
            let g = |v: ContextVarNode| lookup(mapping@, v);
            assert forall|v: ContextVarNode| deps@.contains(v) implies #[trigger] g(v) == f(v) by {
                let j = choose|j: int| 0 <= j < deps@.len() && deps@[j] == v;
                lemma_lookup_of_keyed(mapping@, f, v, j);
            }
            assert forall|v: ContextVarNode| deps_of(self.min).contains(v) implies #[trigger] g(v) == f(v) by {
                let k = choose|k: int| 0 <= k < deps_of(self.min).len() && deps_of(self.min)[k] == v;
                assert(deps@[k] == v);
            }
            assert forall|v: ContextVarNode| deps_of(self.max).contains(v) implies #[trigger] g(v) == f(v) by {
                let k = choose|k: int| 0 <= k < deps_of(self.max).len() && deps_of(self.max)[k] == v;
                assert(deps@[deps_of(self.min).len() + k] == v);
            }
            lemma_remap_congruent(self.min, g, f);
            lemma_remap_congruent(self.max, g, f);
        }
        let min = self.min.update_deps(&mapping);
        let max = self.max.update_deps(&mapping);
        self.set_range_min(min);
        self.set_range_max(max);
    }
}

impl RangeEval for SolcRange {
    fn sat(&self, analyzer: &Analyzer) -> (r: bool) {
        let lo = self.range_min().eval(analyzer, EVAL_DEPTH);
        let hi = self.range_max().eval(analyzer, EVAL_DEPTH);
        match lo.range_ord(&hi) {
            None | Some(core::cmp::Ordering::Less) | Some(core::cmp::Ordering::Equal) => true,
            _ => false,
        }
    }

    fn unsat(&self, analyzer: &Analyzer) -> (r: bool) {
        !self.sat(analyzer)
    }

    fn contains(&self, other: &Self, analyzer: &Analyzer) -> (r: bool) {
        let min_contains = match self.range_min().eval(analyzer, EVAL_DEPTH).range_ord(
            &other.range_min().eval(analyzer, EVAL_DEPTH),
        ) {
            Some(core::cmp::Ordering::Less) | Some(core::cmp::Ordering::Equal) => true,
            _ => false,
        };
        let max_contains = match self.range_max().eval(analyzer, EVAL_DEPTH).range_ord(
            &other.range_max().eval(analyzer, EVAL_DEPTH),
        ) {
            Some(core::cmp::Ordering::Greater) | Some(core::cmp::Ordering::Equal) => true,
            _ => false,
        };
        min_contains && max_contains
    }
}

/// Where every pair of `m` sends its key through `f`, `m` sends each of its keys through `f`.
proof fn lemma_lookup_of_keyed(
    m: Seq<(ContextVarNode, ContextVarNode)>,
    f: spec_fn(ContextVarNode) -> ContextVarNode,
    v: ContextVarNode,
    j: int,
)
    requires
        0 <= j < m.len(),
        m[j].0 == v,
        forall|i: int| 0 <= i < m.len() ==> #[trigger] m[i].1 == f(m[i].0),
    ensures
        lookup(m, v) == f(v),
    decreases m.len(),
{
    if m.last().0 != v {
        assert(m.drop_last()[j] == m[j]);
        assert forall|i: int| 0 <= i < m.drop_last().len() implies #[trigger] m.drop_last()[i].1 == f(m.drop_last()[i].0) by {
            assert(m.drop_last()[i] == m[i]);
        }
        lemma_lookup_of_keyed(m.drop_last(), f, v, j);
    }
}

/// Remapping through two functions that agree on a tree's references gives one result.
proof fn lemma_remap_congruent(e: Elem, f: spec_fn(ContextVarNode) -> ContextVarNode, g: spec_fn(ContextVarNode) -> ContextVarNode)
    requires
        forall|v: ContextVarNode| deps_of(e).contains(v) ==> #[trigger] f(v) == g(v),
    ensures
        remap(e, f) == remap(e, g),
    decreases e,
{
    match e {
        Elem::Concrete(_) => {},
        Elem::Dynamic(d) => {
            assert(deps_of(e)[0] == d.idx);
        },
        Elem::Expr(l, _, r) => {
            assert forall|v: ContextVarNode| deps_of(*l).contains(v) implies #[trigger] f(v) == g(v) by {
                let k = choose|k: int| 0 <= k < deps_of(*l).len() && deps_of(*l)[k] == v;
                assert(deps_of(e)[k] == v);
            }
            assert forall|v: ContextVarNode| deps_of(*r).contains(v) implies #[trigger] f(v) == g(v) by {
                let k = choose|k: int| 0 <= k < deps_of(*r).len() && deps_of(*r)[k] == v;
                assert(deps_of(e)[deps_of(*l).len() + k] == v);
            }
            lemma_remap_congruent(*l, f, g);
            lemma_remap_congruent(*r, f, g);
        },
    }
}

} // verus!
