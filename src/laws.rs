use vstd::prelude::*;
use crate::analyzer::{bound_of, eval_spec, find_range, EVAL_DEPTH};
use crate::concrete::{concrete_div, concrete_ord, concrete_sub, Concrete, Loc, RangeConcrete};
use crate::elem::{deps_of, leaf, lookup, node, remap, ContextVarNode, DynSide, Elem, RangeOp};
use crate::range::{combined, default_sides, dyn_ref, one, sat_of, span, SolcRange};

verus! {

/// A tree that references no variable.
pub open spec fn is_constant(e: Elem) -> bool
    decreases e,
{
    match e {
        Elem::Concrete(_) => true,
        Elem::Dynamic(_) => false,
        Elem::Expr(l, _, r) => is_constant(*l) && is_constant(*r),
    }
}

/// A range whose bounds are two comparable constants is feasible exactly when
/// the lower is not above the upper.
pub proof fn lemma_sat_of_constants(lo: RangeConcrete, hi: RangeConcrete, rs: Seq<(ContextVarNode, SolcRange)>)
    requires
        concrete_ord(lo.val, hi.val) is Some,
    ensures
        sat_of(Elem::Concrete(lo), Elem::Concrete(hi), rs) <==> concrete_ord(lo.val, hi.val) != Some(
            core::cmp::Ordering::Greater,
        ),
{
}

/// A tree that references no variable depends on nothing.
pub proof fn lemma_constant_has_no_deps(e: Elem)
    requires
        is_constant(e),
    ensures
        deps_of(e) == Seq::<ContextVarNode>::empty(),
    decreases e,
{
    match e {
        Elem::Expr(l, _, r) => {
            lemma_constant_has_no_deps(*l);
            lemma_constant_has_no_deps(*r);
            assert(deps_of(e) =~= Seq::<ContextVarNode>::empty());
        },
        _ => {},
    }
}

/// A range built from constants alone depends on no variable.
pub proof fn lemma_constant_range_has_no_deps(r: SolcRange)
    requires
        is_constant(r.min),
        is_constant(r.max),
    ensures
        deps_of(r.min) + deps_of(r.max) == Seq::<ContextVarNode>::empty(),
{
    lemma_constant_has_no_deps(r.min);
    lemma_constant_has_no_deps(r.max);
    assert(deps_of(r.min) + deps_of(r.max) =~= Seq::<ContextVarNode>::empty());
}

/// Folding a variable into a range under any operator makes the range depend on it.
pub proof fn lemma_combined_depends_on_other(
    op: RangeOp,
    r: SolcRange,
    other: ContextVarNode,
    sides: (DynSide, DynSide),
    loc: Loc,
)
    ensures
        (deps_of(combined(op, r, other, sides, loc).min) + deps_of(combined(op, r, other, sides, loc).max)).contains(
            other,
        ),
{
    let c = combined(op, r, other, sides, loc);
    let d0 = dyn_ref(other, sides.0, loc);
    let d1 = dyn_ref(other, sides.1, loc);
    assert(deps_of(d0)[0] == other);
    assert(deps_of(d1)[0] == other);
    match op {
        RangeOp::Lt => {
            lemma_node_deps(d1, RangeOp::Sub, one());
            lemma_node_deps(r.max, RangeOp::Min, node(d1, RangeOp::Sub, one()));
            assert(deps_of(c.max).contains(other));
            lemma_concat_contains(deps_of(c.min), deps_of(c.max), other);
        },
        RangeOp::Lte => {
            lemma_node_deps(r.max, RangeOp::Min, d1);
            assert(deps_of(c.max).contains(other));
            lemma_concat_contains(deps_of(c.min), deps_of(c.max), other);
        },
        RangeOp::Mod => {
            lemma_node_deps(r.min, RangeOp::Mod, d0);
            lemma_node_deps(r.min, RangeOp::Min, node(r.min, RangeOp::Mod, d0));
            lemma_concat_contains(deps_of(c.min), deps_of(c.max), other);
        },
        RangeOp::Gt => {
            lemma_node_deps(d0, RangeOp::Add, one());
            lemma_node_deps(r.min, RangeOp::Max, node(d0, RangeOp::Add, one()));
            lemma_concat_contains(deps_of(c.min), deps_of(c.max), other);
        },
        RangeOp::Eq => {
            lemma_node_deps(r.min, RangeOp::Max, d0);
            lemma_node_deps(node(r.min, RangeOp::Max, d0), RangeOp::Max, node(r.max, RangeOp::Min, d1));
            lemma_concat_contains(deps_of(c.min), deps_of(c.max), other);
        },
        RangeOp::Neq => {
            lemma_node_deps(r.min, RangeOp::Neq, d0);
            lemma_concat_contains(deps_of(c.min), deps_of(c.max), other);
        },
        RangeOp::Add | RangeOp::Sub | RangeOp::Mul | RangeOp::Div | RangeOp::Shl | RangeOp::Shr | RangeOp::Min
        | RangeOp::Max | RangeOp::Gte => {
            let top = if op == RangeOp::Gte {
                RangeOp::Max
            } else {
                op
            };
            lemma_node_deps(r.min, top, d0);
            assert(c.min == node(r.min, top, d0));
            lemma_concat_contains(deps_of(c.min), deps_of(c.max), other);
        },
    }
}

/// An operator node depends on what either operand depends on.
proof fn lemma_node_deps(l: Elem, op: RangeOp, r: Elem)
    ensures
        forall|v: ContextVarNode|
            deps_of(l).contains(v) || deps_of(r).contains(v) ==> #[trigger] deps_of(node(l, op, r)).contains(v),
{
    assert forall|v: ContextVarNode| deps_of(l).contains(v) || deps_of(r).contains(v) implies #[trigger] deps_of(
        node(l, op, r),
    ).contains(v) by {
        lemma_concat_contains(deps_of(l), deps_of(r), v);
    }
}

proof fn lemma_concat_contains(a: Seq<ContextVarNode>, b: Seq<ContextVarNode>, v: ContextVarNode)
    ensures
        a.contains(v) || b.contains(v) ==> (a + b).contains(v),
{
    if a.contains(v) {
        let k = choose|k: int| 0 <= k < a.len() && a[k] == v;
        assert((a + b)[k] == v);
    } else if b.contains(v) {
        let k = choose|k: int| 0 <= k < b.len() && b[k] == v;
        assert((a + b)[a.len() + k] == v);
    }
}

/// Remapping sends each reference of a tree through the map, in place.
pub proof fn lemma_remap_deps(e: Elem, f: spec_fn(ContextVarNode) -> ContextVarNode)
    ensures
        deps_of(remap(e, f)) == deps_of(e).map_values(f),
    decreases e,
{
    match e {
        Elem::Concrete(_) => {
            assert(deps_of(e).map_values(f) =~= Seq::<ContextVarNode>::empty());
        },
        Elem::Dynamic(d) => {
            assert(deps_of(e).map_values(f) =~= seq![f(d.idx)]);
        },
        Elem::Expr(l, _, r) => {
            lemma_remap_deps(*l, f);
            lemma_remap_deps(*r, f);
            assert(deps_of(e).map_values(f) =~= deps_of(*l).map_values(f) + deps_of(*r).map_values(f));
        },
    }
}

/// A mapping leaves alone a variable that is no key of it, and sends a key to
/// the value of its last pair.
pub proof fn lemma_lookup(m: Seq<(ContextVarNode, ContextVarNode)>, v: ContextVarNode)
    ensures
        (forall|i: int| 0 <= i < m.len() ==> #[trigger] m[i].0 != v) ==> lookup(m, v) == v,
        forall|i: int|
            0 <= i < m.len() && m[i].0 == v && (forall|j: int| i < j < m.len() ==> #[trigger] m[j].0 != v)
                ==> lookup(m, v) == #[trigger] m[i].1,
    decreases m.len(),
{
    if m.len() > 0 {
        let p = m.drop_last();
        lemma_lookup(p, v);
        assert forall|i: int| 0 <= i < p.len() implies #[trigger] p[i] == m[i] by {}
        if m.last().0 != v {
            assert forall|i: int|
                0 <= i < m.len() && m[i].0 == v && (forall|j: int| i < j < m.len() ==> #[trigger] m[j].0 != v)
                    implies lookup(m, v) == #[trigger] m[i].1 by {
                assert(i < m.len() - 1);
                assert(p[i] == m[i]);
                assert forall|j: int| i < j < p.len() implies #[trigger] p[j].0 != v by {
                    assert(p[j] == m[j]);
                }
            }
        } else {
            assert forall|i: int|
                0 <= i < m.len() && m[i].0 == v && (forall|j: int| i < j < m.len() ==> #[trigger] m[j].0 != v)
                    implies lookup(m, v) == #[trigger] m[i].1 by {
                if i < m.len() - 1 {
                    assert(m[m.len() - 1].0 != v);
                }
            }
        }
    }
}

/// Subtracting a variable recorded as the point range `[b, b]` from the point
/// range `[a, a]`, with the operator's default sides, evaluates to `[a - b, a - b]`.
pub proof fn lemma_sub_dyn_of_points(
    a: Concrete,
    b: Concrete,
    other: ContextVarNode,
    loc: Loc,
    rs: Seq<(ContextVarNode, SolcRange)>,
)
    requires
        find_range(rs, other) >= 0,
        rs[find_range(rs, other)].1 == span(b, b),
        concrete_sub(a, b) is Some,
    ensures
        eval_spec(combined(RangeOp::Sub, span(a, a), other, default_sides(RangeOp::Sub), loc).min, rs, EVAL_DEPTH as nat)
            == leaf(concrete_sub(a, b).unwrap(), Loc::Implicit),
        eval_spec(combined(RangeOp::Sub, span(a, a), other, default_sides(RangeOp::Sub), loc).max, rs, EVAL_DEPTH as nat)
            == leaf(concrete_sub(a, b).unwrap(), Loc::Implicit),
{
    let fuel = EVAL_DEPTH as nat;
    assert(bound_of(rs, other, DynSide::Max) == Some(leaf(b, Loc::Implicit)));
    assert(bound_of(rs, other, DynSide::Min) == Some(leaf(b, Loc::Implicit)));
    assert(eval_spec(leaf(b, Loc::Implicit), rs, (fuel - 2) as nat) == leaf(b, Loc::Implicit));
    assert(eval_spec(leaf(a, Loc::Implicit), rs, (fuel - 1) as nat) == leaf(a, Loc::Implicit));
    assert(eval_spec(dyn_ref(other, DynSide::Max, loc), rs, (fuel - 1) as nat) == leaf(b, Loc::Implicit));
    assert(eval_spec(dyn_ref(other, DynSide::Min, loc), rs, (fuel - 1) as nat) == leaf(b, Loc::Implicit));
}

/// Dividing the point range `[a, a]` by a variable recorded as the point range
/// `[b, b]`, with the operator's default sides, evaluates to `[a / b, a / b]`.
pub proof fn lemma_div_dyn_of_points(
    a: Concrete,
    b: Concrete,
    other: ContextVarNode,
    loc: Loc,
    rs: Seq<(ContextVarNode, SolcRange)>,
)
    requires
        find_range(rs, other) >= 0,
        rs[find_range(rs, other)].1 == span(b, b),
        concrete_div(a, b, false) is Some,
    ensures
        eval_spec(combined(RangeOp::Div, span(a, a), other, default_sides(RangeOp::Div), loc).min, rs, EVAL_DEPTH as nat)
            == leaf(concrete_div(a, b, false).unwrap(), Loc::Implicit),
        eval_spec(combined(RangeOp::Div, span(a, a), other, default_sides(RangeOp::Div), loc).max, rs, EVAL_DEPTH as nat)
            == leaf(concrete_div(a, b, false).unwrap(), Loc::Implicit),
{
    let fuel = EVAL_DEPTH as nat;
    assert(bound_of(rs, other, DynSide::Max) == Some(leaf(b, Loc::Implicit)));
    assert(bound_of(rs, other, DynSide::Min) == Some(leaf(b, Loc::Implicit)));
    assert(eval_spec(leaf(b, Loc::Implicit), rs, (fuel - 2) as nat) == leaf(b, Loc::Implicit));
    assert(eval_spec(leaf(a, Loc::Implicit), rs, (fuel - 1) as nat) == leaf(a, Loc::Implicit));
    assert(eval_spec(dyn_ref(other, DynSide::Max, loc), rs, (fuel - 1) as nat) == leaf(b, Loc::Implicit));
    assert(eval_spec(dyn_ref(other, DynSide::Min, loc), rs, (fuel - 1) as nat) == leaf(b, Loc::Implicit));
}

} // verus!
