use vstd::prelude::*;
use crate::concrete::{
    concrete_add, concrete_div, concrete_mul, concrete_ord, concrete_shl, concrete_shr, concrete_sub, Concrete, RangeConcrete};
use crate::elem::{node, ContextNode, ContextVarNode, DynSide, Elem, RangeOp};
use crate::range::SolcRange;

verus! {

/// How deep evaluation goes, in operator nodes and references followed,
/// before it leaves a bound unresolved.
pub const EVAL_DEPTH: u64 = 256;

/// What the core reads of the surrounding analyzer: the current range of each
/// variable, and which version of a variable is the latest in a scope.
/// Later entries take precedence over earlier ones.
pub struct Analyzer {
    pub ranges: Vec<(ContextVarNode, SolcRange)>,
    pub versions: Vec<(ContextVarNode, ContextNode, ContextVarNode)>,
}

/// The position of the last range recorded for `v`, or -1.
pub open spec fn find_range(rs: Seq<(ContextVarNode, SolcRange)>, v: ContextVarNode) -> int
    decreases rs.len(),
{
    if rs.len() == 0 {
        -1
    } else if rs.last().0 == v {
        rs.len() - 1
    } else {
        find_range(rs.drop_last(), v)
    }
}

/// The recorded bound of `v` on `side`, if a range is recorded for it.
pub open spec fn bound_of(rs: Seq<(ContextVarNode, SolcRange)>, v: ContextVarNode, side: DynSide) -> Option<Elem> {
    let k = find_range(rs, v);
    if k < 0 {
        None
    } else {
        Some(
            match side {
                DynSide::Min => rs[k].1.min,
                DynSide::Max => rs[k].1.max,
            },
        )
    }
}

/// The latest version of `v` in `ctx`: the last record for the pair, else `v`.
pub open spec fn latest_of(
    vs: Seq<(ContextVarNode, ContextNode, ContextVarNode)>,
    v: ContextVarNode,
    ctx: ContextNode,
) -> ContextVarNode
    decreases vs.len(),
{
    if vs.len() == 0 {
        v
    } else if vs.last().0 == v && vs.last().1 == ctx {
        vs.last().2
    } else {
        latest_of(vs.drop_last(), v, ctx)
    }
}

/// The concrete semantics of an operator, where it is defined on the operands.
pub open spec fn apply_op(op: RangeOp, a: Concrete, b: Concrete) -> Option<Concrete> {
    match op {
        RangeOp::Add => concrete_add(a, b),
        RangeOp::Sub => concrete_sub(a, b),
        RangeOp::Mul => concrete_mul(a, b),
        RangeOp::Div => concrete_div(a, b, false),
        RangeOp::Mod => concrete_div(a, b, true),
        RangeOp::Shl => concrete_shl(a, b),
        RangeOp::Shr => concrete_shr(a, b),
        RangeOp::Min => match concrete_ord(a, b) {
            Some(core::cmp::Ordering::Greater) => Some(b),
            Some(_) => Some(a),
            None => None,
        },
        RangeOp::Max => match concrete_ord(a, b) {
            Some(core::cmp::Ordering::Less) => Some(b),
            Some(_) => Some(a),
            None => None,
        },
        _ => None,
    }
}

/// An operator over two evaluated operands: folded where both are concrete and
/// the operator is defined on them, else kept as a node.
pub open spec fn combine(op: RangeOp, l: Elem, r: Elem) -> Elem {
    match (l, r) {
        (Elem::Concrete(a), Elem::Concrete(b)) => match apply_op(op, a.val, b.val) {
            Some(c) => Elem::Concrete(RangeConcrete { val: c, loc: a.loc }),
            None => node(l, op, r),
        },
        _ => node(l, op, r),
    }
}

/// A tree resolved as far as the recorded ranges allow, descending at most
/// `fuel` operator nodes and references deep.
pub open spec fn eval_spec(e: Elem, rs: Seq<(ContextVarNode, SolcRange)>, fuel: nat) -> Elem
    decreases fuel, e,
{
    match e {
        Elem::Concrete(_) => e,
        Elem::Dynamic(d) => if fuel == 0 {
            e
        } else {
            match bound_of(rs, d.idx, d.side) {
                Some(b) => eval_spec(b, rs, (fuel - 1) as nat),
                None => e,
            }
        },
        Elem::Expr(l, op, r) => if fuel == 0 {
            e
        } else {
            combine(op, eval_spec(*l, rs, (fuel - 1) as nat), eval_spec(*r, rs, (fuel - 1) as nat))
        },
    }
}

/// The three-valued order of two bounds: defined where both are concrete values of one kind.
pub open spec fn elem_ord(a: Elem, b: Elem) -> Option<core::cmp::Ordering> {
    match (a, b) {
        (Elem::Concrete(x), Elem::Concrete(y)) => concrete_ord(x.val, y.val),
        _ => None,
    }
}

impl Analyzer {
    /// Where the last range recorded for `v` stands.
    pub fn range_index(&self, v: ContextVarNode) -> (r: Option<usize>)
        ensures
            r is Some <==> find_range(self.ranges@, v) >= 0,
            r matches Some(k) ==> k == find_range(self.ranges@, v) && k < self.ranges@.len(),
    {
        let mut cur: Option<usize> = None;
        let mut i: usize = 0;
        while i < self.ranges.len()
            invariant
                i <= self.ranges@.len(),
                cur is Some <==> find_range(self.ranges@.take(i as int), v) >= 0,
                cur matches Some(k) ==> k == find_range(self.ranges@.take(i as int), v),
                find_range(self.ranges@.take(i as int), v) < i,
            decreases self.ranges@.len() - i,
        {
            proof {
                assert(self.ranges@.take(i + 1).drop_last() =~= self.ranges@.take(i as int));
            }
            if self.ranges[i].0.0 == v.0 {
                cur = Some(i);
            }
            i = i + 1;
        }
        proof {
            assert(self.ranges@.take(i as int) =~= self.ranges@);
        }
        cur
    }

    /// The latest version of `v` within `ctx`.
    pub fn latest_version(&self, v: ContextVarNode, ctx: ContextNode) -> (r: ContextVarNode)
        ensures
            r == latest_of(self.versions@, v, ctx),
    {
        let mut cur = v;
        let mut i: usize = 0;
        while i < self.versions.len()
            invariant
                i <= self.versions@.len(),
                cur == latest_of(self.versions@.take(i as int), v, ctx),
            decreases self.versions@.len() - i,
        {
            proof {
                assert(self.versions@.take(i + 1).drop_last() =~= self.versions@.take(i as int));
            }
            if self.versions[i].0.0 == v.0 && self.versions[i].1.0 == ctx.0 {
                cur = self.versions[i].2;
            }
            i = i + 1;
        }
        proof {
            assert(self.versions@.take(i as int) =~= self.versions@);
        }
        cur
    }
}

/// Applies an operator to two concrete values, where it is defined on them.
pub fn apply(op: RangeOp, a: &Concrete, b: &Concrete) -> (r: Option<Concrete>)
    ensures
        r == apply_op(op, *a, *b),
{
    match op {
        RangeOp::Add => a.checked_add(b),
        RangeOp::Sub => a.checked_sub(b),
        RangeOp::Mul => a.checked_mul(b),
        RangeOp::Div => a.checked_div(b, false),
        RangeOp::Mod => a.checked_div(b, true),
        RangeOp::Shl => a.checked_shl(b),
        RangeOp::Shr => a.checked_shr(b),
        RangeOp::Min => match a.range_ord(b) {
            Some(core::cmp::Ordering::Greater) => Some(*b),
            Some(_) => Some(*a),
            None => None,
        },
        RangeOp::Max => match a.range_ord(b) {
            Some(core::cmp::Ordering::Less) => Some(*b),
            Some(_) => Some(*a),
            None => None,
        },
        _ => None,
    }
}

impl Elem {
    /// Resolves the tree through the analyzer's recorded ranges, descending at
    /// most `fuel` operator nodes and references deep.
    pub fn eval(&self, analyzer: &Analyzer, fuel: u64) -> (r: Elem)
        ensures
            r == eval_spec(*self, analyzer.ranges@, fuel as nat),
        decreases fuel, self,
    {
        match self {
            Elem::Concrete(c) => Elem::Concrete(*c),
            Elem::Dynamic(d) => {
                if fuel == 0 {
                    Elem::Dynamic(*d)
                } else {
                    match analyzer.range_index(d.idx) {
                        Some(k) => {
                            let b = match d.side {
                                DynSide::Min => &analyzer.ranges[k].1.min,
                                DynSide::Max => &analyzer.ranges[k].1.max,
                            };
                            b.eval(analyzer, fuel - 1)
                        },
                        None => Elem::Dynamic(*d),
                    }
                }
            },
            Elem::Expr(l, op, r) => {
                if fuel == 0 {
                    return self.duplicate();
                }
                let le = l.eval(analyzer, fuel - 1);
                let re = r.eval(analyzer, fuel - 1);
                let folded = match (&le, &re) {
                    (Elem::Concrete(a), Elem::Concrete(b)) => match apply(*op, &a.val, &b.val) {
                        Some(c) => Some(RangeConcrete { val: c, loc: a.loc }),
                        None => None,
                    },
                    _ => None,
                };
                match folded {
                    Some(c) => Elem::Concrete(c),
                    None => Elem::expr(le, *op, re),
                }
            },
        }
    }

    /// Compares two bounds; `None` where either is unresolved or they are of different kinds.
    pub fn range_ord(&self, o: &Elem) -> (r: Option<core::cmp::Ordering>)
        ensures
            r == elem_ord(*self, *o),
    {
        match (self, o) {
            (Elem::Concrete(x), Elem::Concrete(y)) => x.val.range_ord(&y.val),
            _ => None,
        }
    }
}

} // verus!
