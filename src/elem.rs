use vstd::prelude::*;
use crate::concrete::{Concrete, Loc, RangeConcrete};

verus! {

/// An opaque handle on a variable at one version, owned by the surrounding analyzer.
#[derive(Clone, Copy, Debug, PartialEq, Eq, PartialOrd, Ord, Hash)]
pub struct ContextVarNode(pub usize);

/// An opaque handle on a lexical or branch scope, owned by the surrounding analyzer.
#[derive(Clone, Copy, Debug, PartialEq, Eq, PartialOrd, Ord, Hash)]
pub struct ContextNode(pub usize);

/// Which bound of a variable a reference reads.
#[derive(Clone, Copy, Debug, PartialEq, Eq, PartialOrd, Ord, Hash)]
pub enum DynSide {
    Min,
    Max,
}

/// The binary operators of the range algebra.
#[derive(Clone, Copy, Debug, PartialEq, Eq, PartialOrd, Ord, Hash)]
pub enum RangeOp {
    Add,
    Sub,
    Mul,
    Div,
    Mod,
    Shl,
    Shr,
    Min,
    Max,
    Lt,
    Lte,
    Gt,
    Gte,
    Eq,
    Neq,
}

/// The current lower or upper bound of another variable.
#[derive(Clone, Copy, Debug, PartialEq, Eq, PartialOrd, Ord, Hash)]
pub struct Dynamic {
    pub idx: ContextVarNode,
    pub side: DynSide,
    pub loc: Loc,
}

impl Dynamic {
    pub fn new(idx: ContextVarNode, side: DynSide, loc: Loc) -> (r: Dynamic)
        ensures
            r == (Dynamic { idx, side, loc }),
    {
        Dynamic { idx, side, loc }
    }
}

/// One bound of a range: a constant, a reference to another variable's bound,
/// or an operator over two sub-trees.
#[derive(Debug, PartialEq, Eq, PartialOrd, Ord, Hash)]
pub enum Elem {
    Concrete(RangeConcrete),
    Dynamic(Dynamic),
    Expr(Box<Elem>, RangeOp, Box<Elem>),
}

/// The variables that a tree references, in pre-order.
pub open spec fn deps_of(e: Elem) -> Seq<ContextVarNode>
    decreases e,
{
    match e {
        Elem::Concrete(_) => Seq::empty(),
        Elem::Dynamic(d) => seq![d.idx],
        Elem::Expr(l, _, r) => deps_of(*l) + deps_of(*r),
    }
}

/// Where `m` sends `v`: the last pair whose key is `v`, else `v` itself.
pub open spec fn lookup(m: Seq<(ContextVarNode, ContextVarNode)>, v: ContextVarNode) -> ContextVarNode
    decreases m.len(),
{
    if m.len() == 0 {
        v
    } else if m.last().0 == v {
        m.last().1
    } else {
        lookup(m.drop_last(), v)
    }
}

/// The tree with every reference re-pointed through `f`.
pub open spec fn remap(e: Elem, f: spec_fn(ContextVarNode) -> ContextVarNode) -> Elem
    decreases e,
{
    match e {
        Elem::Concrete(_) => e,
        Elem::Dynamic(d) => Elem::Dynamic(Dynamic { idx: f(d.idx), side: d.side, loc: d.loc }),
        Elem::Expr(l, op, r) => Elem::Expr(Box::new(remap(*l, f)), op, Box::new(remap(*r, f))),
    }
}

/// A leaf holding a concrete value.
pub open spec fn leaf(val: Concrete, loc: Loc) -> Elem {
    Elem::Concrete(RangeConcrete { val, loc })
}

/// An operator node over two sub-trees.
pub open spec fn node(l: Elem, op: RangeOp, r: Elem) -> Elem {
    Elem::Expr(Box::new(l), op, Box::new(r))
}

impl Clone for Elem {
    fn clone(&self) -> (r: Elem)
        ensures
            r == *self,
    {
        self.duplicate()
    }
}

impl Elem {
    pub fn expr(lhs: Elem, op: RangeOp, rhs: Elem) -> (r: Elem)
        ensures
            r == node(lhs, op, rhs),
    {
        Elem::Expr(Box::new(lhs), op, Box::new(rhs))
    }

    pub fn add(self, o: Elem) -> (r: Elem)
        ensures
            r == node(self, RangeOp::Add, o),
    {
        Elem::expr(self, RangeOp::Add, o)
    }

    pub fn sub(self, o: Elem) -> (r: Elem)
        ensures
            r == node(self, RangeOp::Sub, o),
    {
        Elem::expr(self, RangeOp::Sub, o)
    }

    pub fn mul(self, o: Elem) -> (r: Elem)
        ensures
            r == node(self, RangeOp::Mul, o),
    {
        Elem::expr(self, RangeOp::Mul, o)
    }

    pub fn div(self, o: Elem) -> (r: Elem)
        ensures
            r == node(self, RangeOp::Div, o),
    {
        Elem::expr(self, RangeOp::Div, o)
    }

    pub fn rem(self, o: Elem) -> (r: Elem)
        ensures
            r == node(self, RangeOp::Mod, o),
    {
        Elem::expr(self, RangeOp::Mod, o)
    }

    pub fn shl(self, o: Elem) -> (r: Elem)
        ensures
            r == node(self, RangeOp::Shl, o),
    {
        Elem::expr(self, RangeOp::Shl, o)
    }

    pub fn shr(self, o: Elem) -> (r: Elem)
        ensures
            r == node(self, RangeOp::Shr, o),
    {
        Elem::expr(self, RangeOp::Shr, o)
    }

    pub fn min(self, o: Elem) -> (r: Elem)
        ensures
            r == node(self, RangeOp::Min, o),
    {
        Elem::expr(self, RangeOp::Min, o)
    }

    pub fn max(self, o: Elem) -> (r: Elem)
        ensures
            r == node(self, RangeOp::Max, o),
    {
        Elem::expr(self, RangeOp::Max, o)
    }

    /// A deferred "not equal" marker over two bounds.
    pub fn neq(self, o: Elem) -> (r: Elem)
        ensures
            r == node(self, RangeOp::Neq, o),
    {
        Elem::expr(self, RangeOp::Neq, o)
    }

    /// A copy of the tree.
    pub fn duplicate(&self) -> (r: Elem)
        ensures
            r == *self,
        decreases self,
    {
        match self {
            Elem::Concrete(c) => Elem::Concrete(*c),
            Elem::Dynamic(d) => Elem::Dynamic(*d),
            Elem::Expr(l, op, r) => Elem::expr(l.duplicate(), *op, r.duplicate()),
        }
    }

    /// The variables that the tree references.
    pub fn dependent_on(&self) -> (r: Vec<ContextVarNode>)
        ensures
            r@ == deps_of(*self),
        decreases self,
    {
        match self {
            Elem::Concrete(_) => Vec::new(),
            Elem::Dynamic(d) => {
                let mut v = Vec::new();
                v.push(d.idx);
                proof {
                    assert(v@ =~= seq![d.idx]);
                }
                v
            },
            Elem::Expr(l, _, r) => {
                let mut a = l.dependent_on();
                let mut b = r.dependent_on();
                a.append(&mut b);
                a
            },
        }
    }

    /// The tree with each reference whose variable is a key of `mapping`
    /// re-pointed at the associated variable.
    pub fn update_deps(&self, mapping: &Vec<(ContextVarNode, ContextVarNode)>) -> (r: Elem)
        ensures
            r == remap(*self, |v: ContextVarNode| lookup(mapping@, v)),
        decreases self,
    {
        match self {
            Elem::Concrete(c) => Elem::Concrete(*c),
            Elem::Dynamic(d) => Elem::Dynamic(Dynamic::new(map_var(mapping, d.idx), d.side, d.loc)),
            Elem::Expr(l, op, r) => Elem::expr(l.update_deps(mapping), *op, r.update_deps(mapping)),
        }
    }
}

/// Where `mapping` sends `v`.
pub fn map_var(mapping: &Vec<(ContextVarNode, ContextVarNode)>, v: ContextVarNode) -> (r: ContextVarNode)
    ensures
        r == lookup(mapping@, v),
{
    let mut cur = v;
    let mut i: usize = 0;
    while i < mapping.len()
        invariant
            i <= mapping@.len(),
            cur == lookup(mapping@.take(i as int), v),
        decreases mapping@.len() - i,
    {
        proof {
            assert(mapping@.take(i + 1).drop_last() =~= mapping@.take(i as int));
        }
        if mapping[i].0.0 == v.0 {
            cur = mapping[i].1;
        }
        i = i + 1;
    }
    proof {
        assert(mapping@.take(i as int) =~= mapping@);
    }
    cur
}

} // verus!
